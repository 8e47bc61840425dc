//! The dispatcher and mode state machine: a pure interpreter over the
//! command union, executing commands against the pane manager, the command
//! line and the clipboard, and governing which widget owns keyboard focus.
//!
//! Commands that need the outside world — spawning a process, writing a
//! file, the system clipboard — become effects that the surrounding program
//! performs; the system clipboard's current content is handed in.

use vstd::prelude::*;

verus! {

use crate::tasks::{CmdTask, TaskModel};
use crate::config::IshtarConfiguration;
use crate::area::WriteableArea;
use crate::keybind::{KeybindHandler, joined_chord};
use crate::line::TerminalLine;
use crate::text::{str_eq, str_to_chars, chars_to_string, string_push};
use crate::lexer::{scan_len, prefix_to, suffix_from};
use vstd::string::StringSliceAdditionalSpecFns;
use vstd::string::StrSliceExecFns;
use vstd::string::StringExecFns;

/// The editing modes: command-line entry, text editing, range marking.
#[derive(Debug, Clone, PartialEq, Eq, Structural, Copy)]
pub enum IshtarMode {
    Cmd,
    Modify,
    Selection,
}

/// A message from the terminal loop.
#[derive(Debug)]
pub enum IshtarMessage {
    Null,
    ChangeMode(IshtarMode),
    Cmd(CmdResponse),
}

/// A response from the command interpreter.
#[derive(Debug)]
pub enum CmdResponse {
    Exit,
    ChangeMode(IshtarMode),
    ModifyFile(String),
    Reset,
    SaveFile,
}

/// An unrecoverable editor fault; none is currently possible, so the one
/// variant is never produced.
#[derive(Debug)]
pub enum IshtarError {
    Unreachable,
}

/// The severity of a log line.
#[derive(Debug, Clone, Copy, PartialEq, Eq, Structural)]
pub enum LogLevel {
    Info,
    Warn,
    Error,
    Fatal,
}

/// What the file manager is doing.
#[derive(Debug, Clone, Copy, PartialEq, Eq, Structural)]
pub enum ManagingMode {
    Deleting,
    Renaming,
    Creating,
    Searching,
}

/// How a pop-up lays its content out.
#[derive(Debug, Clone, Copy, PartialEq, Eq, Structural)]
pub enum PopUpAlignment {
    Left,
    Right,
    Center,
    Formatted,
}

/// What the dispatcher asks the outside world to do.
#[derive(Debug, PartialEq)]
pub enum Effect {
    /// Spawn a process running the given command, fire and forget.
    Spawn(String),
    /// Write the content to the file at the path.
    WriteFile { path: String, content: String },
    /// Replace the system clipboard's content.
    SetClipboard(String),
    /// Read the file at the path and hand its content back through
    /// `open_file`.
    OpenFileRequest(String),
    /// Append a line to the log.
    Log(String),
    /// Append a warning to the log.
    Warn(String),
}

/// Keyboard-focus priority of the command line.
pub const PRIORITY_CMD: u8 = 0;

/// Keyboard-focus priority of the pane manager.
pub const PRIORITY_WRITER: u8 = 1;

/// Keyboard-focus priority of the keybind handler while listening.
pub const PRIORITY_KEYBIND: u8 = 2;

/// Keyboard-focus priority of the file browser while searching.
pub const PRIORITY_FILE_MANAGER: u8 = 3;

/// The command line: a single line of text with a cursor, two builtin
/// directives, and a pending data request.
pub struct CommandInterpreter {
    line: TerminalLine,
    cursor: usize,
    requesting_buffer: Vec<char>,
    request: CmdTask,
}

impl CommandInterpreter {
    /// The line's text.
    pub closed spec fn text(&self) -> Seq<char> {
        self.line.text()
    }

    /// The cursor's byte offset in the line.
    pub closed spec fn spec_cursor(&self) -> int {
        self.cursor as int
    }

    /// The buffered reply to a pending data request.
    pub closed spec fn spec_req_buffer(&self) -> Seq<char> {
        self.requesting_buffer@
    }

    /// The pending data request; `Null` when none.
    pub closed spec fn spec_request(&self) -> TaskModel {
        self.request@
    }

    /// The line is valid UTF-8 and the cursor sits on a boundary.
    pub closed spec fn wf(&self) -> bool {
        &&& self.line.wf()
        &&& self.cursor <= self.line.bytes().len()
        &&& self.line.is_boundary(self.cursor as int)
    }

    /// An empty command line with no pending request.
    pub fn new() -> (r: CommandInterpreter)
        ensures
            r.wf(),
            r.text() == Seq::<char>::empty(),
            r.spec_cursor() == 0,
            r.spec_request() == TaskModel::Null,
    {
        let r = CommandInterpreter {
            line: TerminalLine::new(),
            cursor: 0,
            requesting_buffer: Vec::new(),
            request: CmdTask::Null,
        };
        proof {
            vstd::utf8::is_char_boundary_start_end_of_seq(r.line.bytes());
        }
        r
    }

    /// The cursor's position.
    pub fn cursor(&self) -> (r: usize)
        ensures
            r == self.spec_cursor(),
    {
        self.cursor
    }

    /// Whether a data request is pending.
    pub fn is_requesting(&self) -> (r: bool)
        ensures
            r == (self.spec_request() != TaskModel::Null),
    {
        !matches!(self.request, CmdTask::Null)
    }

    /// Whether the line is empty.
    pub fn is_empty(&self) -> (r: bool)
        requires
            self.wf(),
        ensures
            r == (self.text().len() == 0),
    {
        proof {
            if self.line.bytes().len() > 0 {
                assert(self.text().len() > 0);
            } else {
                assert(self.line.bytes() =~= Seq::<u8>::empty());
            }
        }
        self.line.is_empty()
    }

    /// Shows a prompt and starts collecting a reply for the given request.
    pub fn request_data(&mut self, content: &str, task: CmdTask)
        requires
            old(self).wf(),
        ensures
            final(self).wf(),
            final(self).text() == content@,
            final(self).spec_request() == task@,
            final(self).spec_req_buffer() == Seq::<char>::empty(),
    {
        self.request = task;
        self.requesting_buffer = Vec::new();
        self.set(content);
        let n = self.line.len();
        self.cursor = n;
        proof {
            vstd::utf8::is_char_boundary_start_end_of_seq(self.line.bytes());
        }
    }

    /// Replaces the line's content, the cursor moving to its end.
    pub fn set(&mut self, content: &str)
        requires
            old(self).wf(),
        ensures
            final(self).wf(),
            final(self).text() == content@,
            final(self).spec_request() == old(self).spec_request(),
            final(self).spec_req_buffer() == old(self).spec_req_buffer(),
    {
        self.line.clear();
        let bv = content.as_bytes_vec();
        let bl = bv.len();
        proof {
            assert(bv@ == content.spec_bytes());
        }
        self.line.push_str_back(content);
        let n = self.line.len();
        self.cursor = n;
        proof {
            vstd::utf8::is_char_boundary_start_end_of_seq(self.line.bytes());
            vstd::utf8::encode_utf8_decode_utf8(content@);
            assert(Seq::<u8>::empty() + content.spec_bytes() =~= content.spec_bytes());
        }
    }

    /// Clears the line and puts the cursor at its start.
    pub fn clear(&mut self)
        requires
            old(self).wf(),
        ensures
            final(self).wf(),
            final(self).text() == Seq::<char>::empty(),
            final(self).spec_cursor() == 0,
            final(self).spec_request() == old(self).spec_request(),
            final(self).spec_req_buffer() == old(self).spec_req_buffer(),
    {
        self.line.clear();
        self.cursor = 0;
        proof {
            vstd::utf8::is_char_boundary_start_end_of_seq(self.line.bytes());
        }
    }

    /// Moves the cursor one character right, staying on the line.
    pub fn move_right(&mut self)
        requires
            old(self).wf(),
        ensures
            final(self).wf(),
            final(self).text() == old(self).text(),
            old(self).spec_cursor() < old(self).line_bytes().len() ==> final(self).spec_cursor()
                == old(self).spec_cursor() + vstd::utf8::length_of_first_scalar(
                old(self).line_bytes().subrange(
                    old(self).spec_cursor(),
                    old(self).line_bytes().len() as int,
                ),
            ) && crate::chars::chars_before(final(self).line_bytes(), final(self).spec_cursor())
                == crate::chars::chars_before(old(self).line_bytes(), old(self).spec_cursor()) + 1,
            old(self).spec_cursor() >= old(self).line_bytes().len() ==> *final(self) == *old(self),
    {
        match self.line.next_char_width(self.cursor) {
            Some(w) => {
                let n = self.line.len();
                self.cursor = self.cursor + w;
            },
            None => {},
        }
    }

    /// Moves the cursor one character left.
    pub fn move_left(&mut self)
        requires
            old(self).wf(),
        ensures
            final(self).wf(),
            final(self).text() == old(self).text(),
            old(self).spec_cursor() > 0 ==> crate::chars::chars_before(
                final(self).line_bytes(),
                final(self).spec_cursor(),
            ) == crate::chars::chars_before(old(self).line_bytes(), old(self).spec_cursor()) - 1
                && final(self).spec_cursor() < old(self).spec_cursor(),
            old(self).spec_cursor() == 0 ==> *final(self) == *old(self),
    {
        match self.line.prev_char_width(self.cursor) {
            Some(w) => {
                self.cursor = self.cursor - w;
            },
            None => {},
        }
    }

    /// Writes a typed character: while requesting it extends the reply;
    /// on an empty line `m` and `s` are mode shortcuts; otherwise the
    /// character lands at the cursor.
    pub fn write(&mut self, c: char) -> (r: CmdTask)
        requires
            old(self).wf(),
        ensures
            final(self).wf(),
            old(self).spec_request() != TaskModel::Null ==> final(self).spec_req_buffer() == old(self).spec_req_buffer().push(c) && final(self).text() == old(self).text() && r@
                == TaskModel::Null,
            old(self).spec_request() == TaskModel::Null && old(self).text().len() == 0 && c == 'm'
                ==> r@ == TaskModel::EnterModify && final(self).text() == old(self).text(),
            old(self).spec_request() == TaskModel::Null && old(self).text().len() == 0 && c == 's'
                ==> r@ == TaskModel::EnterSelection && final(self).text() == old(self).text(),
            old(self).spec_request() == TaskModel::Null && (old(self).text().len() > 0 || (c != 'm'
                && c != 's')) && old(self).line_bytes().len() + 4 <= usize::MAX ==> final(self).text() == old(self).text().insert(
                crate::chars::chars_before(old(self).line_bytes(), old(self).spec_cursor()) as int,
                c,
            ) && r@ == TaskModel::Null,
    {
        if !matches!(self.request, CmdTask::Null) {
            self.requesting_buffer.push(c);
            return CmdTask::Null;
        }
        proof {
            if self.line.bytes().len() == 0 {
                assert(self.line.bytes() =~= Seq::<u8>::empty());
            } else {
                assert(self.text().len() > 0);
            }
        }
        if self.line.is_empty() {
            if c == 'm' {
                return CmdTask::EnterModify;
            }
            if c == 's' {
                return CmdTask::EnterSelection;
            }
        }
        let n = self.line.len();
        proof {
            vstd::utf8::valid_utf8_split(self.line.bytes(), self.cursor as int);
            vstd::utf8::decode_utf8_split(self.line.bytes(), self.cursor as int);
        }
        if n <= usize::MAX - 4 {
            let w = self.line.insert(self.cursor, c);
            self.cursor = self.cursor + w;
            proof {
                let head = old(self).line_bytes().subrange(0, old(self).spec_cursor());
                let enc = vstd::utf8::encode_scalar(c as u32);
                crate::chars::lemma_encode_single(c);
                vstd::utf8::valid_utf8_split(old(self).line_bytes(), old(self).spec_cursor());
                crate::chars::lemma_valid_concat(head, enc);
                crate::chars::lemma_valid_concat(
                    head + enc,
                    old(self).line_bytes().subrange(
                        old(self).spec_cursor(),
                        old(self).line_bytes().len() as int,
                    ),
                );
                assert(self.line.bytes().subrange(0, self.cursor as int) =~= head + enc);
            }
        }
        CmdTask::Null
    }

    /// The bytes of the line, for contracts.
    pub closed spec fn line_bytes(&self) -> Seq<u8> {
        self.line.bytes()
    }

    /// Removes the character before the cursor; while requesting it shortens
    /// the reply instead.
    pub fn backspace(&mut self)
        requires
            old(self).wf(),
        ensures
            final(self).wf(),
            old(self).spec_request() != TaskModel::Null ==> final(self).spec_req_buffer() == (if
                old(self).spec_req_buffer().len() > 0 {
                old(self).spec_req_buffer().drop_last()
            } else {
                old(self).spec_req_buffer()
            }) && final(self).text() == old(self).text(),
            old(self).spec_request() == TaskModel::Null && old(self).spec_cursor() > 0 ==> final(self).text() == old(self).text().remove(
                crate::chars::chars_before(old(self).line_bytes(), old(self).spec_cursor()) - 1,
            ),
            old(self).spec_request() == TaskModel::Null && old(self).spec_cursor() == 0 ==> final(self).text() == old(self).text(),
    {
        if !matches!(self.request, CmdTask::Null) {
            let _ = self.requesting_buffer.pop();
            proof {
                if old(self).spec_req_buffer().len() > 0 {
                    assert(self.requesting_buffer@ =~= old(self).spec_req_buffer().drop_last());
                }
            }
            return;
        }
        if self.cursor == 0 {
            return;
        }
        let ghost bs = old(self).line_bytes();
        let r = self.line.remove(self.cursor - 1, true);
        match r {
            Some((c, w)) => {
                proof {
                    crate::chars::lemma_boundary_step(bs, self.cursor - w);
                    assert(crate::chars::chars_before(bs, self.cursor - w) == crate::chars::chars_before(
                        bs,
                        self.cursor as int,
                    ) - 1);
                }
                let ghost start = self.cursor - w;
                let nc = self.cursor - w;
                self.cursor = nc;
                proof {
                    let head = bs.subrange(0, start);
                    let tail = bs.subrange(start + w, bs.len() as int);
                    vstd::utf8::valid_utf8_split(bs, start);
                    vstd::utf8::valid_utf8_split(bs, start + w);
                    crate::chars::lemma_valid_concat(head, tail);
                    assert(self.line.bytes().subrange(0, nc as int) =~= head);
                }
            },
            None => {
                proof {
                    assert(false);
                }
            },
        }
    }

    /// The line's text as a string.
    pub fn content(&self) -> (r: String)
        requires
            self.wf(),
        ensures
            r@ == self.text(),
    {
        self.line.to_string()
    }
}

/// The directive literals denote four different commands, none starting
/// with the process-spawn marker.
proof fn lemma_cmd_literals()
    ensures
        ":l"@.len() == 2 && ":l"@[0] == ':' && ":l"@[1] == 'l',
        ":r"@.len() == 2 && ":r"@[0] == ':' && ":r"@[1] == 'r',
        ":s"@.len() == 2 && ":s"@[0] == ':' && ":s"@[1] == 's',
        ":m"@.len() == 2 && ":m"@[0] == ':' && ":m"@[1] == 'm',
        ":l"@ != ":r"@ && ":l"@ != ":s"@ && ":l"@ != ":m"@,
        ":r"@ != ":s"@ && ":r"@ != ":m"@,
        ":s"@ != ":m"@,
{
    reveal_strlit(":l");
    reveal_strlit(":r");
    reveal_strlit(":s");
    reveal_strlit(":m");
}

/// The command a line of directive text denotes: `:l` exits, `:r` resets,
/// `!cmds` spawns each `;`-separated command, `:s [name]` saves, `:m path`
/// opens a file; a bare `:m` and anything unrecognized denote nothing.
pub open spec fn directive_task(t: Seq<char>) -> TaskModel {
    if t == ":l"@ {
        TaskModel::Exit
    } else if t == ":r"@ {
        TaskModel::Reset
    } else if t.len() > 0 && t[0] == '!' {
        TaskModel::Multi(spawn_tasks(split_semis(t.subrange(1, t.len() as int))))
    } else {
        let j = scan_len(t, ' ');
        if j < t.len() {
            let first = prefix_to(t, j as int);
            let rest = suffix_from(t, j + 1 as int);
            let arg = prefix_to(rest, scan_len(rest, ' ') as int);
            if first == ":s"@ {
                TaskModel::SaveFileAs(arg)
            } else if first == ":m"@ {
                TaskModel::ModifyFile(arg)
            } else {
                TaskModel::Null
            }
        } else if t == ":s"@ {
            TaskModel::SaveFile
        } else {
            TaskModel::Null
        }
    }
}

/// Whether a directive line asks for a file name instead of acting: a bare
/// `:m` with no argument.
pub open spec fn directive_prompts(t: Seq<char>) -> bool {
    if t == ":l"@ || t == ":r"@ {
        false
    } else if t.len() > 0 && t[0] == '!' {
        false
    } else {
        scan_len(t, ' ') >= t.len() && t == ":m"@
    }
}

/// The `;`-separated pieces of a command list.
pub open spec fn split_semis(s: Seq<char>) -> Seq<Seq<char>>
    decreases s.len(),
{
    if s.len() == 0 {
        Seq::empty()
    } else {
        let j = scan_len(s, ';');
        seq![prefix_to(s, j as int)] + split_semis(suffix_from(s, j + 1 as int))
    }
}

/// The tasks that spawn each piece of a `;`-separated command list.
pub open spec fn spawn_tasks(pieces: Seq<Seq<char>>) -> Seq<TaskModel>
    decreases pieces.len(),
{
    if pieces.len() == 0 {
        Seq::empty()
    } else {
        seq![TaskModel::ExecCmd(pieces[0])] + spawn_tasks(pieces.drop_first())
    }
}

impl CommandInterpreter {
    /// Executes one line of command text: a pending data request consumes
    /// the collected reply; `:l` exits and `:r` resets; `!cmds` spawns each
    /// `;`-separated command; `:s [name]` saves, `:m path` opens a file and
    /// a bare `:m` prompts for one; anything else does nothing.
    pub fn execute_cmd(&mut self, target: &str) -> (r: CmdTask)
        requires
            old(self).wf(),
        ensures
            final(self).wf(),
            old(self).spec_request() != TaskModel::Null ==> {
                &&& final(self).spec_request() == TaskModel::Null
                &&& final(self).text() == Seq::<char>::empty()
                &&& (old(self).spec_request() == TaskModel::ReqSaveFile ==> r@
                    == TaskModel::SaveFileAs(old(self).spec_req_buffer()))
                &&& (old(self).spec_request() == TaskModel::ReqModifyFile ==> r@
                    == TaskModel::ModifyFile(old(self).spec_req_buffer()))
                &&& (old(self).spec_request() != TaskModel::ReqSaveFile && old(self).spec_request() != TaskModel::ReqModifyFile ==> r@ == TaskModel::Null)
            },
            old(self).spec_request() == TaskModel::Null ==> {
                let t = target@;
                &&& r@ == directive_task(t)
                &&& final(self).text() == (if t == ":l"@ || t == ":r"@ {
                    old(self).text()
                } else if directive_prompts(t) {
                    "Set file name "@
                } else {
                    Seq::<char>::empty()
                })
                &&& final(self).spec_request() == (if directive_prompts(t) {
                    TaskModel::ReqModifyFile
                } else {
                    TaskModel::Null
                })
                &&& (t == ":l"@ ==> r@ == TaskModel::Exit)
                &&& (t == ":r"@ ==> r@ == TaskModel::Reset)
                &&& (t != ":l"@ && t != ":r"@ && t.len() > 0 && t[0] == '!' ==> r@
                    == TaskModel::Multi(
                    spawn_tasks(split_semis(t.subrange(1, t.len() as int))),
                ) && final(self).text() == Seq::<char>::empty())
                &&& (t != ":l"@ && t != ":r"@ && !(t.len() > 0 && t[0] == '!') ==> {
                    let j = scan_len(t, ' ');
                    let first = prefix_to(t, j as int);
                    if j < t.len() {
                        let rest = suffix_from(t, j + 1 as int);
                        let arg = prefix_to(rest, scan_len(rest, ' ') as int);
                        &&& (first == ":s"@ ==> r@ == TaskModel::SaveFileAs(arg))
                        &&& (first == ":m"@ ==> r@ == TaskModel::ModifyFile(arg))
                        &&& (first != ":s"@ && first != ":m"@ ==> r@ == TaskModel::Null)
                        &&& final(self).text() == Seq::<char>::empty()
                    } else {
                        &&& (t == ":s"@ ==> r@ == TaskModel::SaveFile && final(self).text()
                            == Seq::<char>::empty())
                        &&& (t == ":m"@ ==> r@ == TaskModel::Null && final(self).spec_request()
                            == TaskModel::ReqModifyFile)
                        &&& (t != ":s"@ && t != ":m"@ ==> r@ == TaskModel::Null && final(self).text() == Seq::<char>::empty())
                    }
                })
            },
    {
        proof {
            lemma_cmd_literals();
        }
        if !matches!(self.request, CmdTask::Null) {
            let r = if matches!(self.request, CmdTask::ReqSaveFile) {
                CmdTask::SaveFileAs(chars_to_string(&self.requesting_buffer))
            } else if matches!(self.request, CmdTask::ReqModifyFile) {
                CmdTask::ModifyFile(chars_to_string(&self.requesting_buffer))
            } else {
                CmdTask::Null
            };
            self.request = CmdTask::Null;
            self.requesting_buffer = Vec::new();
            self.clear();
            return r;
        }
        if str_eq(target, ":l") {
            return CmdTask::Exit;
        }
        if str_eq(target, ":r") {
            return CmdTask::Reset;
        }
        let cs = str_to_chars(target);
        if cs.len() > 0 && cs[0] == '!' {
            let ghost body = target@.subrange(1, target@.len() as int);
            let mut tasks: Vec<CmdTask> = Vec::new();
            let mut pos: usize = 1;
            proof {
                assert(suffix_from(cs@, 1) =~= body);
                crate::tasks::lemma_tasks_view(tasks@);
                assert(crate::tasks::tasks_view(tasks@) =~= Seq::<TaskModel>::empty());
                assert(spawn_tasks(split_semis(body)) == Seq::<TaskModel>::empty() + spawn_tasks(
                    split_semis(suffix_from(cs@, 1)),
                ));
            }
            while pos < cs.len()
                invariant
                    1 <= pos <= cs@.len(),
                    cs@ == target@,
                    body == target@.subrange(1, target@.len() as int),
                    crate::tasks::tasks_view(tasks@) + spawn_tasks(
                        split_semis(suffix_from(cs@, pos as int)),
                    ) == spawn_tasks(split_semis(body)),
                decreases cs@.len() - pos,
            {
                let ghost rem = suffix_from(cs@, pos as int);
                let ghost pre = tasks@;
                let j = crate::lexer::scan_stop(&cs, pos, ';');
                let piece = crate::lexer::string_of_range(&cs, pos, pos + j);
                let next = if pos + j < cs.len() {
                    pos + j + 1
                } else {
                    pos + j
                };
                proof {
                    crate::lexer::lemma_scan_len(rem, ';');
                    assert(piece@ =~= prefix_to(rem, j as int));
                    assert(suffix_from(rem, j + 1 as int) =~= suffix_from(cs@, next as int));
                    assert(split_semis(rem) == seq![piece@] + split_semis(
                        suffix_from(cs@, next as int),
                    ));
                    assert(spawn_tasks(split_semis(rem)) == seq![TaskModel::ExecCmd(piece@)]
                        + spawn_tasks(split_semis(suffix_from(cs@, next as int)))) by {
                        assert(split_semis(rem).drop_first() =~= split_semis(
                            suffix_from(cs@, next as int),
                        ));
                    }
                }
                tasks.push(CmdTask::ExecCmd(piece));
                proof {
                    crate::tasks::lemma_tasks_view(pre);
                    crate::tasks::lemma_tasks_view(tasks@);
                    assert forall|k: int| 0 <= k < tasks@.len() implies crate::tasks::tasks_view(
                        tasks@,
                    )[k] == (crate::tasks::tasks_view(pre) + seq![
                        TaskModel::ExecCmd(piece@),
                    ])[k] by {
                        if k < pre.len() {
                            assert(tasks@[k] == pre[k]);
                            assert(crate::tasks::tasks_view(tasks@)[k] == tasks@[k]@);
                            assert(crate::tasks::tasks_view(pre)[k] == pre[k]@);
                        } else {
                            assert(crate::tasks::tasks_view(tasks@)[k] == tasks@[k]@);
                        }
                    }
                    assert(crate::tasks::tasks_view(tasks@) =~= crate::tasks::tasks_view(pre)
                        + seq![TaskModel::ExecCmd(piece@)]);
                    assert(crate::tasks::tasks_view(tasks@) + spawn_tasks(
                        split_semis(suffix_from(cs@, next as int)),
                    ) =~= crate::tasks::tasks_view(pre) + (seq![TaskModel::ExecCmd(piece@)]
                        + spawn_tasks(split_semis(suffix_from(cs@, next as int)))));
                }
                pos = next;
            }
            proof {
                assert(suffix_from(cs@, pos as int) =~= Seq::<char>::empty());
                assert(spawn_tasks(split_semis(suffix_from(cs@, pos as int)))
                    == Seq::<TaskModel>::empty());
                assert(crate::tasks::tasks_view(tasks@) + Seq::<TaskModel>::empty()
                    =~= crate::tasks::tasks_view(tasks@));
            }
            self.clear();
            return CmdTask::Multi(tasks);
        }
        let j = crate::lexer::scan_stop(&cs, 0, ' ');
        proof {
            assert(suffix_from(cs@, 0) =~= cs@);
            crate::lexer::lemma_scan_len(cs@, ' ');
        }
        let first = crate::lexer::string_of_range(&cs, 0, j);
        proof {
            assert(first@ =~= prefix_to(cs@, j as int));
        }
        if j < cs.len() {
            let ghost rest = suffix_from(cs@, j + 1 as int);
            let j2 = crate::lexer::scan_stop(&cs, j + 1, ' ');
            let arg = crate::lexer::string_of_range(&cs, j + 1, j + 1 + j2);
            proof {
                crate::lexer::lemma_scan_len(rest, ' ');
                assert(arg@ =~= prefix_to(rest, scan_len(rest, ' ') as int));
            }
            let r = if str_eq(first.as_str(), ":s") {
                CmdTask::SaveFileAs(arg)
            } else if str_eq(first.as_str(), ":m") {
                CmdTask::ModifyFile(arg)
            } else {
                CmdTask::Null
            };
            self.clear();
            r
        } else {
            if str_eq(target, ":s") {
                self.clear();
                CmdTask::SaveFile
            } else if str_eq(target, ":m") {
                self.request_data("Set file name ", CmdTask::ReqModifyFile);
                CmdTask::Null
            } else {
                self.clear();
                CmdTask::Null
            }
        }
    }

    /// Executes the command written into the line: `execute_cmd` applied to
    /// the line's own text.
    pub fn execute(&mut self) -> (r: CmdTask)
        requires
            old(self).wf(),
        ensures
            final(self).wf(),
            old(self).spec_request() != TaskModel::Null ==> {
                &&& final(self).spec_request() == TaskModel::Null
                &&& final(self).text() == Seq::<char>::empty()
                &&& (old(self).spec_request() == TaskModel::ReqSaveFile ==> r@
                    == TaskModel::SaveFileAs(old(self).spec_req_buffer()))
                &&& (old(self).spec_request() == TaskModel::ReqModifyFile ==> r@
                    == TaskModel::ModifyFile(old(self).spec_req_buffer()))
                &&& (old(self).spec_request() != TaskModel::ReqSaveFile && old(self).spec_request()
                    != TaskModel::ReqModifyFile ==> r@ == TaskModel::Null)
            },
            old(self).spec_request() == TaskModel::Null ==> {
                let t = old(self).text();
                &&& r@ == directive_task(t)
                &&& final(self).text() == (if t == ":l"@ || t == ":r"@ {
                    t
                } else if directive_prompts(t) {
                    "Set file name "@
                } else {
                    Seq::<char>::empty()
                })
                &&& final(self).spec_request() == (if directive_prompts(t) {
                    TaskModel::ReqModifyFile
                } else {
                    TaskModel::Null
                })
            },
    {
        let s = self.content();
        self.execute_cmd(s.as_str())
    }
}

/// Model of an effect, its strings as character sequences.
pub enum EffectModel {
    Spawn(Seq<char>),
    WriteFile { path: Seq<char>, content: Seq<char> },
    SetClipboard(Seq<char>),
    OpenFileRequest(Seq<char>),
    Log(Seq<char>),
    Warn(Seq<char>),
}

impl View for Effect {
    type V = EffectModel;

    open spec fn view(&self) -> EffectModel {
        match self {
            Effect::Spawn(s) => EffectModel::Spawn(s@),
            Effect::WriteFile { path, content } => EffectModel::WriteFile {
                path: path@,
                content: content@,
            },
            Effect::SetClipboard(s) => EffectModel::SetClipboard(s@),
            Effect::OpenFileRequest(s) => EffectModel::OpenFileRequest(s@),
            Effect::Log(s) => EffectModel::Log(s@),
            Effect::Warn(s) => EffectModel::Warn(s@),
        }
    }
}

/// The models of a sequence of effects, elementwise.
pub open spec fn effects_view(es: Seq<Effect>) -> Seq<EffectModel>
    decreases es,
{
    if es.len() == 0 {
        Seq::empty()
    } else {
        seq![es[0]@] + effects_view(es.drop_first())
    }
}

/// `effects_view` maps the view over the sequence, index by index.
pub proof fn lemma_effects_view(es: Seq<Effect>)
    ensures
        effects_view(es).len() == es.len(),
        forall|i: int| 0 <= i < es.len() ==> effects_view(es)[i] == #[trigger] es[i]@,
    decreases es.len(),
{
    if es.len() > 0 {
        lemma_effects_view(es.drop_first());
        assert(effects_view(es) == seq![es[0]@] + effects_view(es.drop_first()));
        assert forall|i: int| 0 <= i < es.len() implies effects_view(es)[i] == es[i]@ by {
            if i > 0 {
                assert(effects_view(es.drop_first())[i - 1] == es.drop_first()[i - 1]@);
                assert(es.drop_first()[i - 1] == es[i]);
            } else {
                assert(effects_view(es)[0] == seq![es[0]@][0]);
            }
        }
    }
}

/// Appending one effect appends its model to the model sequence.
pub proof fn lemma_effects_view_push(es: Seq<Effect>, e: Effect)
    ensures
        effects_view(es.push(e)) == effects_view(es).push(e@),
{
    lemma_effects_view(es);
    lemma_effects_view(es.push(e));
    assert forall|i: int| 0 <= i < es.push(e).len() implies effects_view(es.push(e))[i]
        == effects_view(es).push(e@)[i] by {
        assert(effects_view(es.push(e))[i] == es.push(e)[i]@);
        if i < es.len() {
            assert(es.push(e)[i] == es[i]);
            assert(effects_view(es)[i] == es[i]@);
        } else {
            assert(es.push(e)[i] == e);
        }
    }
    assert(effects_view(es.push(e)) =~= effects_view(es).push(e@));
}

/// The commands whose whole execution is appending one effect: they touch
/// no editor state.
pub open spec fn effect_only_task(t: TaskModel) -> bool {
    t is ExecCmd || t is Log || t is Warn || t is ModifyFile
}

/// The one effect an effect-only command appends.
pub open spec fn task_effect(t: TaskModel) -> EffectModel
    recommends
        effect_only_task(t),
{
    match t {
        TaskModel::ExecCmd(s) => EffectModel::Spawn(s),
        TaskModel::Log(s) => EffectModel::Log(s),
        TaskModel::Warn(s) => EffectModel::Warn(s),
        TaskModel::ModifyFile(s) => EffectModel::OpenFileRequest(s),
        _ => EffectModel::Log(Seq::empty()),
    }
}

/// The effects of a list of effect-only commands, in order.
pub open spec fn effects_of(ts: Seq<TaskModel>) -> Seq<EffectModel>
    decreases ts.len(),
{
    if ts.len() == 0 {
        Seq::empty()
    } else {
        seq![task_effect(ts[0])] + effects_of(ts.drop_first())
    }
}

/// `effects_of` maps `task_effect` over the list, index by index.
pub proof fn lemma_effects_of(ts: Seq<TaskModel>)
    ensures
        effects_of(ts).len() == ts.len(),
        forall|i: int| 0 <= i < ts.len() ==> effects_of(ts)[i] == task_effect(#[trigger] ts[i]),
    decreases ts.len(),
{
    if ts.len() > 0 {
        lemma_effects_of(ts.drop_first());
        assert(effects_of(ts) == seq![task_effect(ts[0])] + effects_of(ts.drop_first()));
        assert forall|i: int| 0 <= i < ts.len() implies effects_of(ts)[i] == task_effect(
            ts[i],
        ) by {
            if i > 0 {
                assert(effects_of(ts.drop_first())[i - 1] == task_effect(ts.drop_first()[i - 1]));
                assert(ts.drop_first()[i - 1] == ts[i]);
            } else {
                assert(effects_of(ts)[0] == seq![task_effect(ts[0])][0]);
            }
        }
    }
}

/// The log line a mode transition writes.
pub open spec fn mode_log_text(mode: IshtarMode) -> Seq<char> {
    match mode {
        IshtarMode::Cmd => "entering normal mode"@,
        IshtarMode::Modify => "entering modify mode"@,
        IshtarMode::Selection => "entering selection mode"@,
    }
}

/// The commands the dispatcher leaves to a warning: not implemented, by
/// design a recoverable no-op rather than a failure.
pub open spec fn unhandled_task(t: TaskModel) -> bool {
    ||| t is CreateFile
    ||| t is RenameFile
    ||| t is DeleteFile
    ||| t == TaskModel::WriteOnFile
    ||| t == TaskModel::CopyFile
    ||| t == TaskModel::ReqCreateFile
    ||| t == TaskModel::ReqRenameFile
    ||| t == TaskModel::ReqDeleteFile
    ||| t == TaskModel::ReqModifyFile
    ||| t == TaskModel::ReqSaveFile
    ||| t == TaskModel::MoveIOW
    ||| t == TaskModel::MoveEOW
    ||| t == TaskModel::DeleteSelection
    ||| t == TaskModel::Swap
}

/// The editor: panes, command line, keybind tables, mode, focus priority,
/// saved positions, the in-process clipboard slot, and the exit flag.
pub struct Ishtar {
    /// The working directory save paths are joined under.
    pub current_path: String,
    size: (u16, u16),
    exit: bool,
    cursor: (usize, usize),
    saved_cursor: (usize, usize),
    writer: WriteableArea,
    cmd: CommandInterpreter,
    keybind: KeybindHandler,
    priority: (u8, u8),
    mode: IshtarMode,
    virtual_clip: String,
}

impl Ishtar {
    /// The current editing mode.
    pub closed spec fn spec_mode(&self) -> IshtarMode {
        self.mode
    }

    /// Whether the session should end.
    pub closed spec fn spec_exit(&self) -> bool {
        self.exit
    }

    /// The current and saved focus priorities.
    pub closed spec fn spec_priority(&self) -> (u8, u8) {
        self.priority
    }

    /// The focused pane's document.
    pub closed spec fn focused_doc(&self) -> Seq<Seq<char>> {
        self.writer.focused().doc()
    }

    /// The focused pane's cursor line.
    pub closed spec fn focused_cursor_y(&self) -> int {
        self.writer.focused().cursor_y()
    }

    /// How many panes are open.
    pub closed spec fn pane_count(&self) -> int {
        self.writer.panes().len() as int
    }

    /// The in-process clipboard slot.
    pub closed spec fn spec_virtual_clip(&self) -> Seq<char> {
        self.virtual_clip@
    }

    /// The focused pane's bound file path, if any.
    pub closed spec fn focused_file(&self) -> Option<Seq<char>> {
        self.writer.focused().spec_file()
    }

    /// The working directory save paths are joined under, as characters.
    pub closed spec fn spec_current_path(&self) -> Seq<char> {
        self.current_path@
    }

    /// The pane manager's state.
    pub closed spec fn spec_writer(&self) -> WriteableArea {
        self.writer
    }

    /// The command line's state.
    pub closed spec fn spec_cmd(&self) -> CommandInterpreter {
        self.cmd
    }

    /// The cursor position saved for later restoration.
    pub closed spec fn spec_saved_cursor(&self) -> (int, int) {
        (self.saved_cursor.0 as int, self.saved_cursor.1 as int)
    }

    /// The cursor position the editor last computed for drawing.
    pub closed spec fn spec_stored_cursor(&self) -> (int, int) {
        (self.cursor.0 as int, self.cursor.1 as int)
    }

    /// Panes, command line and keybind state all well formed.
    pub closed spec fn wf(&self) -> bool {
        &&& self.writer.wf()
        &&& self.cmd.wf()
        &&& self.keybind.wf()
    }

    /// An editor over the given cell area with the given configuration,
    /// starting in command mode with the command line focused.
    pub fn new(w: u16, h: u16, config: IshtarConfiguration, current_path: String) -> (r: Ishtar)
        requires
            config.wf(),
            h >= 1,
        ensures
            r.wf(),
            r.spec_mode() == IshtarMode::Cmd,
            !r.spec_exit(),
            r.pane_count() == 1,
            r.spec_priority() == (PRIORITY_CMD, PRIORITY_CMD),
    {
        Ishtar {
            current_path,
            size: (w, h),
            exit: false,
            cursor: (0, (h - 1) as usize),
            saved_cursor: (0, (h - 1) as usize),
            writer: WriteableArea::new_vertical(w, if h > 1 {
                h - 1
            } else {
                h
            }),
            cmd: CommandInterpreter::new(),
            keybind: KeybindHandler::new(config),
            priority: (PRIORITY_CMD, PRIORITY_CMD),
            mode: IshtarMode::Cmd,
        virtual_clip: String::new(),
        }
    }

    /// The numeric index of the current mode: command, modify, selection.
    pub fn mode_id(&self) -> (r: usize)
        ensures
            r == spec_mode_id(self.spec_mode()),
    {
        match self.mode {
            IshtarMode::Cmd => 0,
            IshtarMode::Modify => 1,
            IshtarMode::Selection => 2,
        }
    }

    /// Saves the composite cursor position.
    pub fn save_position(&mut self)
        requires
            old(self).wf(),
        ensures
            final(self).wf(),
            final(self).spec_mode() == old(self).spec_mode(),
            final(self).spec_exit() == old(self).spec_exit(),
            final(self).spec_priority() == old(self).spec_priority(),
            final(self).focused_doc() == old(self).focused_doc(),
            final(self).pane_count() == old(self).pane_count(),
            final(self).spec_focused() == old(self).spec_focused(),
            final(self).spec_saved_cursor() == old(self).spec_writer().spec_cursor(),
            final(self).spec_writer() == old(self).spec_writer(),
            final(self).spec_cmd() == old(self).spec_cmd(),
            final(self).spec_virtual_clip() == old(self).spec_virtual_clip(),
            final(self).spec_stored_cursor() == old(self).spec_stored_cursor(),
            final(self).spec_keybind() == old(self).spec_keybind(),
    {
        let c = self.writer.cursor();
        self.saved_cursor = c;
    }

    /// Changes the editing mode: the transition is logged; modify and
    /// selection focus the pane manager, set the pane's own mode — entering
    /// selection snapshots the cursor as the anchor — and show the mode name
    /// on the command line; command mode saves the cursor, clears the
    /// command line and focuses it.
    pub fn change_mode(&mut self, mode: IshtarMode, effects: &mut Vec<Effect>)
        requires
            old(self).wf(),
        ensures
            final(self).wf(),
            final(self).spec_mode() == mode,
            effects_view(final(effects)@) == effects_view(old(effects)@).push(
                EffectModel::Log(mode_log_text(mode)),
            ),
            mode == IshtarMode::Cmd ==> final(self).spec_priority().0 == PRIORITY_CMD && final(self).spec_cmd().text() == Seq::<char>::empty() && final(self).spec_saved_cursor() == old(self).spec_writer().spec_cursor(),
            mode == IshtarMode::Modify ==> final(self).spec_priority().0 == PRIORITY_WRITER
                && final(self).spec_focused().spec_mode()
                == crate::text_area::TextAreaMode::Writing && final(self).spec_cmd().text()
                == "Modify"@ && final(self).spec_focused().spec_anchor() == old(self).spec_focused().spec_anchor(),
            mode == IshtarMode::Selection ==> final(self).spec_priority().0 == PRIORITY_WRITER
                && final(self).spec_focused().spec_mode()
                == crate::text_area::TextAreaMode::Selecting && final(self).spec_cmd().text()
                == "Selection"@ && final(self).spec_focused().spec_anchor() == (
                old(self).spec_focused().cursor_x(),
                old(self).spec_focused().cursor_y(),
            ),
            mode != IshtarMode::Cmd ==> final(self).spec_saved_cursor() == old(self).spec_saved_cursor(),
            final(self).focused_doc() == old(self).focused_doc(),
            final(self).spec_focused().cursor_x() == old(self).spec_focused().cursor_x(),
            final(self).spec_focused().cursor_y() == old(self).spec_focused().cursor_y(),
            final(self).spec_exit() == old(self).spec_exit(),
            final(self).pane_count() == old(self).pane_count(),
            final(self).spec_virtual_clip() == old(self).spec_virtual_clip(),
            final(self).spec_priority().1 == old(self).spec_priority().1,
            final(self).spec_keybind() == old(self).spec_keybind(),
            final(self).focused_file() == old(self).focused_file(),
    {
        proof {
            assert(old(self).writer.panes()[old(self).writer.spec_focus()].wf());
        }
        let ghost pre_effects = effects@;
        match mode {
            IshtarMode::Cmd => {
                effects.push(Effect::Log(String::from_str("entering normal mode")));
            },
            IshtarMode::Modify => {
                effects.push(Effect::Log(String::from_str("entering modify mode")));
            },
            IshtarMode::Selection => {
                effects.push(Effect::Log(String::from_str("entering selection mode")));
            },
        }
        proof {
            lemma_effects_view_push(pre_effects, effects@.last());
        }
        match mode {
            IshtarMode::Modify | IshtarMode::Selection => {
                if matches!(mode, IshtarMode::Modify) {
                    self.cmd.set("Modify");
                    let area = self.writer.current_area_mut();
                    area.enter_writing();
                } else {
                    self.cmd.set("Selection");
                    let area = self.writer.current_area_mut();
                    area.enter_selection();
                }
                self.priority.0 = PRIORITY_WRITER;
                proof {
                    assert(self.writer.panes()[self.writer.spec_focus()].doc() == old(self).writer.panes()[old(self).writer.spec_focus()].doc());
                    assert(self.writer.panes()[self.writer.spec_focus()] == self.writer.focused());
                }
            },
            IshtarMode::Cmd => {
                self.save_position();
                self.cmd.clear();
                self.priority.0 = PRIORITY_CMD;
            },
        }
        self.mode = mode;
    }

    /// Executes one command against the editor's state. Commands that need
    /// the outside world are appended to `effects`; `sys_clip` is the
    /// system clipboard's current content. Unhandled commands are reported
    /// as warnings, never a failure.
    #[verifier::rlimit(60)]
    pub fn handle_task(&mut self, task: &CmdTask, sys_clip: &str, effects: &mut Vec<Effect>)
        requires
            old(self).wf(),
        ensures
            final(self).wf(),
            task@ == TaskModel::Null || task@ == TaskModel::Continue ==> *final(self) == *old(self) && final(effects)@ == old(effects)@,
            task@ == TaskModel::Exit ==> final(self).spec_exit(),
            task@ == TaskModel::EnterNormal ==> final(self).spec_mode() == IshtarMode::Cmd
                && final(self).spec_priority().0 == PRIORITY_CMD && final(self).spec_cmd().text()
                == Seq::<char>::empty() && final(self).spec_saved_cursor() == old(self).spec_writer().spec_cursor() && effects_view(final(effects)@) == effects_view(
                old(effects)@,
            ).push(EffectModel::Log(mode_log_text(IshtarMode::Cmd))),
            task@ == TaskModel::EnterModify ==> final(self).spec_mode() == IshtarMode::Modify
                && final(self).spec_priority().0 == PRIORITY_WRITER && final(self).spec_focused().spec_mode() == crate::text_area::TextAreaMode::Writing && final(self).spec_cmd().text() == "Modify"@ && effects_view(final(effects)@) == effects_view(
                old(effects)@,
            ).push(EffectModel::Log(mode_log_text(IshtarMode::Modify))),
            task@ == TaskModel::EnterSelection ==> final(self).spec_mode() == IshtarMode::Selection
                && final(self).spec_priority().0 == PRIORITY_WRITER && final(self).spec_focused().spec_mode() == crate::text_area::TextAreaMode::Selecting && final(self).spec_focused().spec_anchor() == (
                old(self).spec_focused().cursor_x(),
                old(self).spec_focused().cursor_y(),
            ) && final(self).spec_cmd().text() == "Selection"@ && effects_view(final(effects)@)
                == effects_view(old(effects)@).push(
                EffectModel::Log(mode_log_text(IshtarMode::Selection)),
            ),
            effect_only_task(task@) ==> *final(self) == *old(self) && effects_view(
                final(effects)@,
            ) == effects_view(old(effects)@).push(task_effect(task@)),
            task@ == TaskModel::DeleteLine && old(self).focused_doc().len() > 1 ==> final(self).focused_doc() == old(self).focused_doc().remove(old(self).focused_cursor_y())
                && final(self).focused_cursor_y() == (if old(self).focused_cursor_y() + 1 < old(self).focused_doc().len() {
                old(self).focused_cursor_y()
            } else {
                old(self).focused_cursor_y() - 1
            }),
            task@ == TaskModel::DeleteLine && old(self).focused_doc().len() == 1 ==> final(self).focused_doc() == seq![Seq::<char>::empty()],
            task@ == TaskModel::SaveMode ==> final(self).spec_priority() == (
                old(self).spec_priority().0,
                old(self).spec_priority().0,
            ),
            task@ is SetPriority ==> final(self).spec_priority().0 == task@->SetPriority_0,
            task@ == TaskModel::CreateWindow && old(self).pane_count() < u16::MAX ==> final(self).pane_count() == old(self).pane_count() + 1,
            task@ == TaskModel::SetWindowDown || task@ == TaskModel::SetWindowUp ==> final(self).pane_count() == old(self).pane_count(),
            task@ == TaskModel::DeleteWindow ==> final(self).pane_count() == (if old(self).pane_count() > 1 {
                old(self).pane_count() - 1
            } else {
                old(self).pane_count()
            }),
            (task@ matches TaskModel::Multi(ts) && (forall|i: int|
                0 <= i < ts.len() ==> effect_only_task(#[trigger] ts[i]))) ==> *final(self)
                == *old(self) && effects_view(final(effects)@) == effects_view(old(effects)@)
                + effects_of(task@->Multi_0),
            task@ == TaskModel::ReqSearchFile ==> final(self).spec_priority().0
                == PRIORITY_FILE_MANAGER,
            task@ == TaskModel::StopSearch ==> final(self).spec_priority().0 == old(self).spec_priority().1,
            task@ == TaskModel::Reset ==> final(self).focused_doc() == seq![Seq::<char>::empty()],
            unhandled_task(task@) ==> *final(self) == *old(self) && effects_view(final(effects)@)
                == effects_view(old(effects)@).push(
                EffectModel::Warn("command not handled"@),
            ),
            task@ == TaskModel::PasteSys || task@ == TaskModel::PasteEditor || task@
                == TaskModel::CopySelection || task@ == TaskModel::CopyToSys || task@
                == TaskModel::CopyToEditor ==> final(self).spec_mode() == IshtarMode::Modify,
            task@ == TaskModel::CopySelection || task@ == TaskModel::CopyToSys || task@
                == TaskModel::CopyToEditor ==> final(self).focused_doc() == old(self).focused_doc(),
            task@ == TaskModel::PasteEditor ==> ({
                let content = old(self).spec_virtual_clip();
                let t = old(self).focused_doc()[old(self).focused_cursor_y()];
                let k = old(self).spec_focused().cursor_chars() as int;
                &&& ((forall|j: int| 0 <= j < content.len() ==> content[j] != '\n') && old(self).spec_focused().cur_bytes().len() + 4 * content.len() <= usize::MAX ==> final(self).focused_doc() == old(self).focused_doc().update(
                    old(self).focused_cursor_y(),
                    t.take(k) + content + t.skip(k),
                ))
                &&& ((exists|j: int| 0 <= j < content.len() && content[j] == '\n') ==> final(self).focused_doc() == old(self).focused_doc().take(old(self).focused_cursor_y() + 1)
                    + crate::text_area::split_lines(content) + old(self).focused_doc().skip(
                    old(self).focused_cursor_y() + 1,
                ))
            }),
            task@ == TaskModel::CopyToSys || task@ == TaskModel::CopySelection ==> final(self).spec_virtual_clip() == old(self).spec_virtual_clip() && effects_view(
                final(effects)@,
            ) == (if old(self).spec_focused().spec_mode()
                == crate::text_area::TextAreaMode::Selecting {
                effects_view(old(effects)@).push(
                    EffectModel::SetClipboard(old(self).spec_focused().selection_text()),
                ).push(EffectModel::Log(mode_log_text(IshtarMode::Modify)))
            } else {
                effects_view(old(effects)@).push(
                    EffectModel::Log(mode_log_text(IshtarMode::Modify)),
                )
            }),
            task@ == TaskModel::CopyToEditor ==> final(self).spec_virtual_clip() == (if old(self).spec_focused().spec_mode() == crate::text_area::TextAreaMode::Selecting {
                old(self).spec_focused().selection_text()
            } else {
                old(self).spec_virtual_clip()
            }) && effects_view(final(effects)@) == effects_view(old(effects)@).push(
                EffectModel::Log(mode_log_text(IshtarMode::Modify)),
            ),
            task@ == TaskModel::SavePos ==> final(self).spec_saved_cursor() == old(self).spec_writer().spec_cursor() && *final(effects) == *old(effects),
            task@ == TaskModel::MoveSaved ==> final(self).spec_stored_cursor() == old(self).spec_saved_cursor() && final(self).focused_doc() == old(self).focused_doc()
                && *final(effects) == *old(effects),
            task@ == TaskModel::SaveFile ==> final(self).focused_doc() == old(self).focused_doc(),
            task@ == TaskModel::SaveFile && old(self).focused_file() is None ==> final(effects)@
                == old(effects)@ && final(self).spec_cmd().spec_request() == TaskModel::ReqSaveFile
                && final(self).spec_cmd().text() == "Give the file a name "@,
            task@ is SaveFileAs ==> final(self).focused_doc() == old(self).focused_doc(),
            task@ == TaskModel::PasteSys ==> ({
                let t = old(self).focused_doc()[old(self).focused_cursor_y()];
                let k = old(self).spec_focused().cursor_chars() as int;
                &&& ((forall|j: int| 0 <= j < sys_clip@.len() ==> sys_clip@[j] != '\n') && old(self).spec_focused().cur_bytes().len() + 4 * sys_clip@.len() <= usize::MAX ==> final(self).focused_doc() == old(self).focused_doc().update(
                    old(self).focused_cursor_y(),
                    t.take(k) + sys_clip@ + t.skip(k),
                ))
                &&& ((exists|j: int| 0 <= j < sys_clip@.len() && sys_clip@[j] == '\n') ==> final(self).focused_doc() == old(self).focused_doc().take(old(self).focused_cursor_y() + 1)
                    + crate::text_area::split_lines(sys_clip@) + old(self).focused_doc().skip(
                    old(self).focused_cursor_y() + 1,
                ))
            }),
            task@ == TaskModel::MoveIOB ==> final(self).focused_doc() == old(self).focused_doc()
                && final(self).focused_cursor_y() == 0,
            task@ == TaskModel::MoveEOB ==> final(self).focused_doc() == old(self).focused_doc()
                && final(self).focused_cursor_y() == old(self).focused_doc().len() - 1,
            task@ == TaskModel::MoveIOL || task@ == TaskModel::MoveEOL ==> final(self).focused_doc() == old(self).focused_doc() && final(self).focused_cursor_y() == old(self).focused_cursor_y(),
            task@ is Write ==> ({
                let content = task@->Write_0;
                let t = old(self).focused_doc()[old(self).focused_cursor_y()];
                let k = old(self).spec_focused().cursor_chars() as int;
                &&& ((forall|j: int| 0 <= j < content.len() ==> content[j] != '\n') && old(self).spec_focused().cur_bytes().len() + 4 * content.len() <= usize::MAX ==> final(self).focused_doc() == old(self).focused_doc().update(
                    old(self).focused_cursor_y(),
                    t.take(k) + content + t.skip(k),
                ))
                &&& ((exists|j: int| 0 <= j < content.len() && content[j] == '\n') ==> final(self).focused_doc() == old(self).focused_doc().take(old(self).focused_cursor_y() + 1)
                    + crate::text_area::split_lines(content) + old(self).focused_doc().skip(
                    old(self).focused_cursor_y() + 1,
                ))
            }),
            task@ == TaskModel::SaveFile ==> (old(self).focused_file() matches Some(p) ==> (final(effects)@.len() == old(effects)@.len() + 1 && final(effects)@.last()@ == (
            EffectModel::WriteFile {
                path: joined_path(old(self).spec_current_path(), p),
                content: crate::text_area::terminated_text(old(self).focused_doc()),
            }))),
            task@ == TaskModel::SaveFile && old(self).focused_file() is None ==> final(self).spec_priority().0 == PRIORITY_CMD,
        decreases task@,
    {
        match task {
            CmdTask::Null => {},
            CmdTask::Continue => {},
            CmdTask::SaveMode => {
                self.priority.1 = self.priority.0;
            },
            CmdTask::ReturnSavedMode => {
                self.priority.0 = self.priority.1;
                let m = self.mode;
                self.change_mode(m, effects);
            },
            CmdTask::SetPriority(n) => {
                self.priority.0 = *n;
            },
            CmdTask::CopySelection | CmdTask::CopyToSys | CmdTask::CopyToEditor => {
                let to_sys = !matches!(task, CmdTask::CopyToEditor);
                let data = self.writer.current_area().copy_selection();
                match data {
                    Some(text) => {
                        if to_sys {
                            let ghost pre = effects@;
                            effects.push(Effect::SetClipboard(text));
                            proof {
                                lemma_effects_view_push(pre, effects@.last());
                            }
                        } else {
                            self.virtual_clip = text;
                        }
                    },
                    None => {},
                }
                self.change_mode(IshtarMode::Modify, effects);
            },
            CmdTask::SelectLine => {
                let area = self.writer.current_area_mut();
                area.goto_init_of_line();
                self.change_mode(IshtarMode::Selection, effects);
                let area = self.writer.current_area_mut();
                area.goto_end_of_line();
            },
            CmdTask::PasteSys => {
                let area = self.writer.current_area_mut();
                let _ = area.paste(sys_clip);
                self.change_mode(IshtarMode::Modify, effects);
            },
            CmdTask::PasteEditor => {
                let content = self.virtual_clip.clone();
                let area = self.writer.current_area_mut();
                let _ = area.paste(content.as_str());
                self.change_mode(IshtarMode::Modify, effects);
            },
            CmdTask::DeleteLine => {
                proof {
                    assert(old(self).writer.panes()[old(self).writer.spec_focus()].wf());
                }
                let area = self.writer.current_area_mut();
                area.delete_line();
                proof {
                    assert(self.writer.panes()[self.writer.spec_focus()] == self.writer.focused());
                }
            },
            CmdTask::SavePos => {
                self.save_position();
            },
            CmdTask::MoveSaved => {
                self.cursor = self.saved_cursor;
            },
            CmdTask::Write(content) => {
                let c = content.clone();
                let area = self.writer.current_area_mut();
                let _ = area.paste(c.as_str());
            },
            CmdTask::CreateWindow => {
                self.writer.create_area();
            },
            CmdTask::DeleteWindow => {
                let _ = self.writer.delete_current_area();
            },
            CmdTask::SetWindowUp => {
                self.writer.set_focus_back();
            },
            CmdTask::SetWindowDown => {
                self.writer.set_focus_next();
            },
            CmdTask::ExecCmd(cmd) => {
                let ghost pre = effects@;
                effects.push(Effect::Spawn(cmd.clone()));
                proof {
                    lemma_effects_view_push(pre, effects@.last());
                }
            },
            CmdTask::ExecutePrompt(prompt) => {
                let p = prompt.clone();
                let _ = self.cmd.execute_cmd(p.as_str());
            },
            CmdTask::MoveIOL => {
                let area = self.writer.current_area_mut();
                area.goto_init_of_line();
            },
            CmdTask::MoveEOL => {
                let area = self.writer.current_area_mut();
                area.goto_end_of_line();
            },
            CmdTask::MoveIOB => {
                let area = self.writer.current_area_mut();
                area.goto_init_of_file();
            },
            CmdTask::MoveEOB => {
                let area = self.writer.current_area_mut();
                area.goto_end_of_file();
            },
            CmdTask::MoveToLine(n) => {
                let target = *n;
                let area = self.writer.current_area_mut();
                area.move_to_line(target as usize);
            },
            CmdTask::MoveToRow(n) => {
                let target = *n;
                let area = self.writer.current_area_mut();
                area.move_to_row(target as usize);
            },
            CmdTask::EnterNormal => {
                self.change_mode(IshtarMode::Cmd, effects);
            },
            CmdTask::EnterModify => {
                self.change_mode(IshtarMode::Modify, effects);
            },
            CmdTask::EnterSelection => {
                self.change_mode(IshtarMode::Selection, effects);
            },
            CmdTask::ModifyFile(f) => {
                let ghost pre = effects@;
                effects.push(Effect::OpenFileRequest(f.clone()));
                proof {
                    lemma_effects_view_push(pre, effects@.last());
                }
            },
            CmdTask::SaveFile => {
                let has_file = {
                    let area = self.writer.current_area();
                    match area.file_name() {
                        Some(_) => true,
                        None => false,
                    }
                };
                if has_file {
                    let area = self.writer.current_area();
                    let content = area.save_text();
                    let path = match area.file_name() {
                        Some(p) => p.clone(),
                        None => String::new(),
                    };
                    let full = join_path(self.current_path.as_str(), path.as_str());
                    effects.push(Effect::WriteFile { path: full, content });
                } else {
                    self.priority.0 = PRIORITY_CMD;
                    self.cmd.request_data("Give the file a name ", CmdTask::ReqSaveFile);
                }
            },
            CmdTask::SaveFileAs(msg) => {
                let m = msg.clone();
                let area = self.writer.current_area_mut();
                area.modify_file_name(m.as_str());
                let has_file = {
                    let area2 = self.writer.current_area();
                    match area2.file_name() {
                        Some(_) => true,
                        None => false,
                    }
                };
                if has_file {
                    let area2 = self.writer.current_area();
                    let content = area2.save_text();
                    let path = match area2.file_name() {
                        Some(p) => p.clone(),
                        None => String::new(),
                    };
                    let full = join_path(self.current_path.as_str(), path.as_str());
                    effects.push(Effect::WriteFile { path: full, content });
                }
            },
            CmdTask::Multi(tasks) => {
                let ghost tv = crate::tasks::tasks_view(tasks@);
                proof {
                    crate::tasks::lemma_tasks_view(tasks@);
                    lemma_effects_of(tv);
                    assert(effects_of(tv.subrange(0, 0)) =~= Seq::<EffectModel>::empty());
                    assert(effects_view(effects@) + Seq::<EffectModel>::empty() =~= effects_view(
                        effects@,
                    ));
                }
                let mut i: usize = 0;
                while i < tasks.len()
                    invariant
                        self.wf(),
                        0 <= i <= tasks@.len(),
                        task@ == TaskModel::Multi(tv),
                        tv == crate::tasks::tasks_view(tasks@),
                        tv.len() == tasks@.len(),
                        forall|j: int| 0 <= j < tasks@.len() ==> tv[j] == #[trigger] tasks@[j]@,
                        (forall|j: int| 0 <= j < tv.len() ==> effect_only_task(#[trigger] tv[j]))
                            ==> *self == *old(self) && effects_view(effects@) == effects_view(
                            old(effects)@,
                        ) + effects_of(tv.subrange(0, i as int)),
                    decreases tasks@.len() - i,
                {
                    let ghost pre_self = *self;
                    let ghost pre_effects = effects@;
                    proof {
                        assert(decreases_to!(task@ => task@->Multi_0));
                        assert(decreases_to!(task@->Multi_0 => task@->Multi_0[i as int]));
                        assert(task@->Multi_0[i as int] == tasks@[i as int]@);
                    }
                    self.handle_task(&tasks[i], sys_clip, effects);
                    proof {
                        if forall|j: int| 0 <= j < tv.len() ==> effect_only_task(
                            #[trigger] tv[j],
                        ) {
                            lemma_effects_of(tv);
                            assert(effect_only_task(tv[i as int]));
                            assert(effects_view(effects@) == effects_view(pre_effects).push(
                                task_effect(tv[i as int]),
                            ));
                            lemma_effects_of(tv.subrange(0, i + 1));
                            lemma_effects_of(tv.subrange(0, i as int));
                            assert forall|k: int| 0 <= k < i + 1 implies effects_of(
                                tv.subrange(0, i + 1),
                            )[k] == effects_of(tv.subrange(0, i as int)).push(
                                task_effect(tv[i as int]),
                            )[k] by {
                                assert(effects_of(tv.subrange(0, i + 1))[k] == task_effect(
                                    tv.subrange(0, i + 1)[k],
                                ));
                                if k < i {
                                    assert(effects_of(tv.subrange(0, i as int))[k] == task_effect(
                                        tv.subrange(0, i as int)[k],
                                    ));
                                }
                            }
                            assert(effects_of(tv.subrange(0, i + 1)) =~= effects_of(
                                tv.subrange(0, i as int),
                            ).push(task_effect(tv[i as int])));
                            assert(effects_view(effects@) =~= effects_view(old(effects)@)
                                + effects_of(tv.subrange(0, i + 1)));
                        }
                    }
                    i += 1;
                }
                proof {
                    assert(tv.subrange(0, tasks@.len() as int) =~= tv);
                }
            },
            CmdTask::Log(s) => {
                let ghost pre = effects@;
                effects.push(Effect::Log(s.clone()));
                proof {
                    lemma_effects_view_push(pre, effects@.last());
                }
            },
            CmdTask::Warn(s) => {
                let ghost pre = effects@;
                effects.push(Effect::Warn(s.clone()));
                proof {
                    lemma_effects_view_push(pre, effects@.last());
                }
            },
            CmdTask::ReqSearchFile => {
                self.priority.0 = PRIORITY_FILE_MANAGER;
            },
            CmdTask::StopSearch => {
                self.priority.0 = self.priority.1;
            },
            CmdTask::Exit => {
                self.exit = true;
            },
            CmdTask::Reset => {
                let area = self.writer.current_area_mut();
                area.reset();
            },
            _ => {
                let ghost pre = effects@;
                effects.push(Effect::Warn(String::from_str("command not handled")));
                proof {
                    lemma_effects_view_push(pre, effects@.last());
                }
            },
        }
    }

    /// Executes a list of commands in order — each element is handled
    /// exactly once, left to right, with no atomicity: the effects of
    /// earlier elements are kept whatever later ones do. For a list of
    /// effect-only commands the effect vector is extended by the elements'
    /// effects in order and the editor state is untouched.
    pub fn handle_tasks(&mut self, tasks: &Vec<CmdTask>, sys_clip: &str, effects: &mut Vec<Effect>)
        requires
            old(self).wf(),
        ensures
            final(self).wf(),
            tasks@.len() == 0 ==> *final(self) == *old(self) && final(effects)@ == old(effects)@,
            (forall|i: int|
                0 <= i < tasks@.len() ==> effect_only_task(
                    #[trigger] crate::tasks::tasks_view(tasks@)[i],
                )) ==> *final(self) == *old(self) && effects_view(final(effects)@) == effects_view(
                old(effects)@,
            ) + effects_of(crate::tasks::tasks_view(tasks@)),
    {
        let ghost tv = crate::tasks::tasks_view(tasks@);
        proof {
            crate::tasks::lemma_tasks_view(tasks@);
            lemma_effects_of(tv);
            assert(effects_of(tv.subrange(0, 0)) =~= Seq::<EffectModel>::empty());
            assert(effects_view(effects@) + Seq::<EffectModel>::empty() =~= effects_view(
                effects@,
            ));
        }
        let mut i: usize = 0;
        while i < tasks.len()
            invariant
                self.wf(),
                0 <= i <= tasks@.len(),
                tv == crate::tasks::tasks_view(tasks@),
                tv.len() == tasks@.len(),
                forall|j: int| 0 <= j < tasks@.len() ==> tv[j] == #[trigger] tasks@[j]@,
                i == 0 ==> *self == *old(self) && effects@ == old(effects)@,
                (forall|j: int| 0 <= j < tv.len() ==> effect_only_task(#[trigger] tv[j])) ==> *self
                    == *old(self) && effects_view(effects@) == effects_view(old(effects)@)
                    + effects_of(tv.subrange(0, i as int)),
            decreases tasks@.len() - i,
        {
            let ghost pre_effects = effects@;
            self.handle_task(&tasks[i], sys_clip, effects);
            proof {
                if forall|j: int| 0 <= j < tv.len() ==> effect_only_task(#[trigger] tv[j]) {
                    assert(effect_only_task(tv[i as int]));
                    assert(tasks@[i as int]@ == tv[i as int]);
                    assert(effects_view(effects@) == effects_view(pre_effects).push(
                        task_effect(tv[i as int]),
                    ));
                    lemma_effects_of(tv.subrange(0, i + 1));
                    lemma_effects_of(tv.subrange(0, i as int));
                    assert forall|k: int| 0 <= k < i + 1 implies effects_of(
                        tv.subrange(0, i + 1),
                    )[k] == effects_of(tv.subrange(0, i as int)).push(
                        task_effect(tv[i as int]),
                    )[k] by {
                        assert(effects_of(tv.subrange(0, i + 1))[k] == task_effect(
                            tv.subrange(0, i + 1)[k],
                        ));
                        if k < i {
                            assert(effects_of(tv.subrange(0, i as int))[k] == task_effect(
                                tv.subrange(0, i as int)[k],
                            ));
                        }
                    }
                    assert(effects_of(tv.subrange(0, i + 1)) =~= effects_of(
                        tv.subrange(0, i as int),
                    ).push(task_effect(tv[i as int])));
                    assert(effects_view(effects@) =~= effects_view(old(effects)@) + effects_of(
                        tv.subrange(0, i + 1),
                    ));
                }
            }
            i += 1;
        }
        proof {
            assert(tv.subrange(0, tasks@.len() as int) =~= tv);
        }
    }

    /// Hands a file's content (or nothing, for a new file) to the focused
    /// pane and binds it to the path: the binding is set in every case, so
    /// a later save creates a file that did not exist.
    pub fn open_file(&mut self, path: String, content: Option<String>)
        requires
            old(self).wf(),
        ensures
            final(self).wf(),
            final(self).focused_file() == Some(path@),
            final(self).focused_doc() == (match content {
                Some(c) => (if crate::text_area::split_lines(c@).len() == 0 {
                    seq![Seq::<char>::empty()]
                } else {
                    crate::text_area::split_lines(c@)
                }),
                None => old(self).focused_doc(),
            }),
    {
        let area = self.writer.current_area_mut();
        match content {
            Some(c) => {
                let _ = area.set_content(c.as_str());
            },
            None => {},
        }
        area.bind_file(path);
    }

    /// The focused pane.
    pub closed spec fn spec_focused(&self) -> crate::text_area::TextArea {
        self.writer.focused()
    }

    /// The focused pane, for reading.
    pub fn current_area(&self) -> (r: &crate::text_area::TextArea)
        requires
            self.wf(),
        ensures
            *r == self.spec_focused(),
            r.wf(),
    {
        self.writer.current_area()
    }

    /// The keybind handler, for chord capture and lookup.
    pub fn keybind_handler(&self) -> (r: &KeybindHandler)
        requires
            self.wf(),
        ensures
            r.wf(),
            *r == self.spec_keybind(),
    {
        &self.keybind
    }

    /// The keybind handler state.
    pub closed spec fn spec_keybind(&self) -> KeybindHandler {
        self.keybind
    }

    /// The command line, for reading.
    pub fn cmd_line(&self) -> (r: &CommandInterpreter)
        requires
            self.wf(),
        ensures
            r.wf(),
            *r == self.spec_cmd(),
    {
        &self.cmd
    }
}

/// A path under a prefix directory: the prefix, a separator, the path.
pub open spec fn joined_path(prefix: Seq<char>, p: Seq<char>) -> Seq<char> {
    if prefix.len() == 0 {
        p
    } else {
        prefix + seq!['/'] + p
    }
}

/// Joins a file path under a prefix directory.
pub fn join_path(prefix: &str, p: &str) -> (r: String)
    ensures
        r@ == joined_path(prefix@, p@),
{
    let n = prefix.unicode_len();
    if n == 0 {
        let mut r = String::new();
        r.append(p);
        proof {
            assert(Seq::<char>::empty() + p@ =~= p@);
        }
        r
    } else {
        let mut r = String::new();
        r.append(prefix);
        crate::text::string_push(&mut r, '/');
        r.append(p);
        proof {
            assert(Seq::<char>::empty() + prefix@ =~= prefix@);
            assert(prefix@.push('/') + p@ =~= prefix@ + seq!['/'] + p@);
        }
        r
    }
}

/// One key press, as the editing engine sees it: the key itself; any
/// modifier arrives separately as its display name.
#[derive(Debug, Clone, Copy, PartialEq, Eq, Structural)]
pub enum Key {
    Char(char),
    Enter,
    Backspace,
    Delete,
    Esc,
    Up,
    Down,
    Left,
    Right,
    End,
    Home,
    Other,
}

/// The display string a key contributes to a chord, as a value.
pub open spec fn spec_key_display(key: Key) -> Seq<char> {
    match key {
        Key::Char(c) => seq![c],
        Key::Enter => "Enter"@,
        Key::Backspace => "Backspace"@,
        Key::Delete => "Delete"@,
        Key::Esc => "Esc"@,
        Key::Up => "Up"@,
        Key::Down => "Down"@,
        Key::Left => "Left"@,
        Key::Right => "Right"@,
        Key::End => "End"@,
        Key::Home => "Home"@,
        Key::Other => "Other"@,
    }
}

/// The numeric index of a mode's keybind table.
pub open spec fn spec_mode_id(m: IshtarMode) -> int {
    match m {
        IshtarMode::Cmd => 0,
        IshtarMode::Modify => 1,
        IshtarMode::Selection => 2,
    }
}

/// The display string of a key, used as a chord token.
fn key_display(key: &Key) -> (r: String)
    ensures
        r@ == spec_key_display(*key),
{
    match key {
        Key::Char(c) => {
            let mut s = String::new();
            string_push(&mut s, *c);
            proof {
                assert(s@ =~= seq![*c]);
            }
            s
        },
        Key::Enter => String::from_str("Enter"),
        Key::Backspace => String::from_str("Backspace"),
        Key::Delete => String::from_str("Delete"),
        Key::Esc => String::from_str("Esc"),
        Key::Up => String::from_str("Up"),
        Key::Down => String::from_str("Down"),
        Key::Left => String::from_str("Left"),
        Key::Right => String::from_str("Right"),
        Key::End => String::from_str("End"),
        Key::Home => String::from_str("Home"),
        Key::Other => String::from_str("Other"),
    }
}

impl Ishtar {
    /// The widget that currently receives raw key events.
    pub fn current_priority(&self) -> (r: u8)
        ensures
            r == self.spec_priority().0,
    {
        self.priority.0
    }

    /// Whether the session should end.
    pub fn should_exit(&self) -> (r: bool)
        ensures
            r == self.spec_exit(),
    {
        self.exit
    }

    /// The cursor to draw, as a value: the command line's cursor on the
    /// bottom row in command mode, the pane manager's composite cursor
    /// otherwise.
    pub closed spec fn spec_screen_cursor(&self) -> (int, int) {
        match self.mode {
            IshtarMode::Cmd => (
                self.cmd.spec_cursor(),
                if self.size.1 > 0 {
                    self.size.1 - 1
                } else {
                    0
                },
            ),
            IshtarMode::Modify | IshtarMode::Selection => self.writer.spec_cursor(),
        }
    }

    /// The composite cursor to draw: the command line's cursor on the
    /// bottom row in command mode, the focused pane's composite cursor
    /// otherwise.
    pub fn cursor_position(&self) -> (r: (usize, usize))
        requires
            self.wf(),
        ensures
            r.0 == self.spec_screen_cursor().0,
            r.1 == self.spec_screen_cursor().1,
    {
        match self.mode {
            IshtarMode::Cmd => (self.cmd.cursor(), if self.size.1 > 0 {
                (self.size.1 - 1) as usize
            } else {
                0
            }),
            IshtarMode::Modify | IshtarMode::Selection => self.writer.cursor(),
        }
    }

    /// Refreshes the stored cursor from whichever widget owns it.
    pub fn update_cursor(&mut self)
        requires
            old(self).wf(),
        ensures
            final(self).wf(),
            final(self).spec_stored_cursor() == old(self).spec_screen_cursor(),
            final(self).spec_mode() == old(self).spec_mode(),
            final(self).focused_doc() == old(self).focused_doc(),
            final(self).spec_exit() == old(self).spec_exit(),
            final(self).spec_priority() == old(self).spec_priority(),
            final(self).spec_writer() == old(self).spec_writer(),
            final(self).spec_cmd() == old(self).spec_cmd(),
    {
        let c = self.cursor_position();
        self.cursor = c;
    }

    /// Routes one key press: a modifier press opens a chord capture; while
    /// capturing, keys extend the chord and a complete match dispatches its
    /// expansion at once; otherwise the key goes to whichever widget holds
    /// focus.
    pub fn handle_key(&mut self, key: Key, modifier: &str, sys_clip: &str, effects: &mut Vec<
        Effect,
    >)
        requires
            old(self).wf(),
        ensures
            final(self).wf(),
            old(self).spec_keybind().spec_listening() && (key == Key::Esc || key == Key::Enter)
                ==> !final(self).spec_keybind().spec_listening() && final(self).spec_priority().0
                == old(self).spec_priority().1,
            modifier@.len() > 0 && !old(self).spec_keybind().spec_listening() ==> ({
                let chord = joined_chord(seq![modifier@, spec_key_display(key)]);
                let table = old(self).spec_keybind().table(spec_mode_id(old(self).spec_mode()));
                if table.contains_key(chord) {
                    &&& !final(self).spec_keybind().spec_listening()
                    &&& ((forall|i: int|
                        0 <= i < crate::keybind::spec_expand(
                            table,
                            table[chord],
                            crate::keybind::MAX_ALIAS_DEPTH as nat,
                        ).len() ==> effect_only_task(
                            #[trigger] crate::keybind::spec_expand(
                                table,
                                table[chord],
                                crate::keybind::MAX_ALIAS_DEPTH as nat,
                            )[i],
                        )) ==> effects_view(final(effects)@) == effects_view(old(effects)@)
                        + effects_of(
                        crate::keybind::spec_expand(
                            table,
                            table[chord],
                            crate::keybind::MAX_ALIAS_DEPTH as nat,
                        ),
                    ))
                } else {
                    &&& final(self).spec_keybind().spec_listening()
                    &&& final(self).spec_keybind().spec_buffer() == seq![
                        modifier@,
                        spec_key_display(key),
                    ]
                    &&& final(self).spec_keybind().spec_initializer() == modifier@
                    &&& final(self).spec_priority() == (
                        PRIORITY_KEYBIND,
                        old(self).spec_priority().0,
                    )
                    &&& final(effects)@ == old(effects)@
                }
            }),
            old(self).spec_keybind().spec_listening() && key != Key::Esc && key != Key::Enter
                ==> ({
                let nb = old(self).spec_keybind().spec_buffer().push(spec_key_display(key));
                let table = old(self).spec_keybind().table(spec_mode_id(old(self).spec_mode()));
                if table.contains_key(joined_chord(nb)) {
                    !final(self).spec_keybind().spec_listening()
                } else {
                    final(self).spec_keybind().spec_listening() && final(self).spec_keybind().spec_buffer() == nb && final(effects)@ == old(effects)@
                        && final(self).spec_mode() == old(self).spec_mode()
                }
            }),
            !old(self).spec_keybind().spec_listening() && modifier@.len() == 0 && old(self).spec_priority().0 == PRIORITY_WRITER ==> ({
                let t = old(self).focused_doc()[old(self).focused_cursor_y()];
                let k = old(self).spec_focused().cursor_chars() as int;
                let y = old(self).focused_cursor_y();
                &&& (key == Key::Esc ==> final(self).spec_mode() == IshtarMode::Cmd)
                &&& ((key matches Key::Char(c) && old(self).spec_focused().spec_mode()
                    != crate::text_area::TextAreaMode::Selecting && old(self).spec_focused().cur_bytes().len() + 8 <= usize::MAX) ==> final(self).focused_doc()
                    == old(self).focused_doc().update(
                    y,
                    t.take(k) + crate::text_area::written_chars(
                        old(self).spec_focused().spec_punctuator(),
                        key->Char_0,
                    ) + t.skip(k),
                ))
                &&& ((key matches Key::Char(c) && old(self).spec_focused().spec_mode()
                    == crate::text_area::TextAreaMode::Selecting) ==> final(self).focused_doc()
                    == old(self).focused_doc())
                &&& (key == Key::Enter && old(self).spec_focused().spec_mode()
                    != crate::text_area::TextAreaMode::Selecting ==> final(self).focused_doc()
                    == old(self).focused_doc().update(y, t.take(k)).insert(y + 1, t.skip(k)))
                &&& (key == Key::Backspace && old(self).spec_focused().spec_mode()
                    != crate::text_area::TextAreaMode::Selecting && old(self).spec_focused().cursor_x() > 0 ==> final(self).focused_doc() == old(self).focused_doc().update(y, t.remove(k - 1)))
                &&& ((key == Key::Up || key == Key::Down || key == Key::Left || key == Key::Right
                    || key == Key::End || key == Key::Home) ==> final(self).focused_doc() == old(self).focused_doc())
                &&& (key == Key::Home ==> final(self).spec_focused().cursor_x() == 0)
                &&& (key == Key::End ==> final(self).spec_focused().cursor_x() == old(self).spec_focused().cur_bytes().len())
            }),
            !old(self).spec_keybind().spec_listening() && modifier@.len() == 0 && old(self).spec_priority().0 == PRIORITY_CMD ==> ({
                let ct = old(self).spec_cmd().text();
                &&& ((key matches Key::Char(c) && old(self).spec_cmd().spec_request()
                    == TaskModel::Null && ct.len() == 0 && c == 'm') ==> final(self).spec_mode()
                    == IshtarMode::Modify)
                &&& ((key matches Key::Char(c) && old(self).spec_cmd().spec_request()
                    == TaskModel::Null && ct.len() == 0 && c == 's') ==> final(self).spec_mode()
                    == IshtarMode::Selection)
                &&& ((key matches Key::Char(c) && old(self).spec_cmd().spec_request()
                    == TaskModel::Null && (ct.len() > 0 || (c != 'm' && c != 's')) && old(self).spec_cmd().line_bytes().len() + 4 <= usize::MAX) ==> final(self).spec_cmd().text() == ct.insert(
                    crate::chars::chars_before(
                        old(self).spec_cmd().line_bytes(),
                        old(self).spec_cmd().spec_cursor(),
                    ) as int,
                    key->Char_0,
                ))
                &&& (key == Key::Enter && old(self).spec_cmd().spec_request() == TaskModel::Null
                    && ct == ":l"@ ==> final(self).spec_exit())
                &&& ((key == Key::Left || key == Key::Right) ==> final(self).spec_cmd().text()
                    == ct)
                &&& (key == Key::Esc ==> final(self).spec_cmd().text() == Seq::<char>::empty())
            }),
    {
        let modifier_present = modifier.unicode_len() > 0;
        if modifier_present && !self.keybind.is_listening() {
            let ghost chordv = joined_chord(seq![modifier@, spec_key_display(key)]);
            let ghost tablev = old(self).spec_keybind().table(
                spec_mode_id(old(self).spec_mode()),
            );
            self.priority.1 = self.priority.0;
            self.priority.0 = PRIORITY_KEYBIND;
            let ks = key_display(&key);
            let ms = String::from_str(modifier);
            self.keybind.start_listening(ks, ms);
            let chord = self.keybind.content();
            proof {
                assert(chord@ == chordv);
            }
            let mode = self.mode_id();
            let hit = self.keybind.lookup_expand(chord.as_str(), mode);
            match hit {
                Some(tasks) => {
                    self.handle_tasks(&tasks, sys_clip, effects);
                    self.keybind.stop_listening();
                    self.priority.0 = self.priority.1;
                    proof {
                        let exp = crate::keybind::spec_expand(
                            tablev,
                            tablev[chordv],
                            crate::keybind::MAX_ALIAS_DEPTH as nat,
                        );
                        assert(crate::tasks::tasks_view(tasks@) == exp);
                        crate::tasks::lemma_tasks_view(tasks@);
                        assert(exp.len() == tasks@.len());
                        if forall|i: int| 0 <= i < exp.len() ==> effect_only_task(
                            #[trigger] exp[i],
                        ) {
                            assert forall|j: int|
                                0 <= j < tasks@.len() implies effect_only_task(
                                #[trigger] crate::tasks::tasks_view(tasks@)[j],
                            ) by {
                                assert(crate::tasks::tasks_view(tasks@)[j] == exp[j]);
                                assert(effect_only_task(exp[j]));
                            }
                        }
                    }
                },
                None => {},
            }
            return;
        }
        if self.keybind.is_listening() {
            if matches!(key, Key::Esc) || matches!(key, Key::Enter) {
                self.keybind.stop_listening();
                self.priority.0 = self.priority.1;
                return;
            }
            let ghost nbv = old(self).spec_keybind().spec_buffer().push(spec_key_display(key));
            let ks = key_display(&key);
            self.keybind.handle(ks);
            let chord = self.keybind.content();
            proof {
                assert(self.keybind.spec_buffer() == nbv);
                assert(chord@ == joined_chord(nbv));
            }
            let mode = self.mode_id();
            let hit = self.keybind.lookup_expand(chord.as_str(), mode);
            match hit {
                Some(tasks) => {
                    self.handle_tasks(&tasks, sys_clip, effects);
                    self.keybind.stop_listening();
                    self.priority.0 = self.priority.1;
                },
                None => {},
            }
            return;
        }
        if self.priority.0 == PRIORITY_WRITER {
            proof {
                assert(old(self).writer.panes()[old(self).writer.spec_focus()].wf());
            }
            match key {
                Key::Esc => {
                    self.change_mode(IshtarMode::Cmd, effects);
                },
                Key::Char(c) => {
                    let area = self.writer.current_area_mut();
                    let n = area.line_byte_len();
                    if n <= usize::MAX - 8 {
                        area.write_char(c);
                    }
                    proof {
                        assert(self.writer.panes()[self.writer.spec_focus()]
                            == self.writer.focused());
                    }
                },
                Key::Delete => {
                    let area = self.writer.current_area_mut();
                    area.del();
                },
                Key::Backspace => {
                    let area = self.writer.current_area_mut();
                    area.backspace();
                    proof {
                        assert(self.writer.panes()[self.writer.spec_focus()]
                            == self.writer.focused());
                    }
                },
                Key::Enter => {
                    let area = self.writer.current_area_mut();
                    area.newline();
                    proof {
                        assert(self.writer.panes()[self.writer.spec_focus()]
                            == self.writer.focused());
                    }
                },
                Key::Up => {
                    let area = self.writer.current_area_mut();
                    area.move_up();
                    proof {
                        assert(self.writer.panes()[self.writer.spec_focus()]
                            == self.writer.focused());
                    }
                },
                Key::Down => {
                    let area = self.writer.current_area_mut();
                    area.move_down();
                    proof {
                        assert(self.writer.panes()[self.writer.spec_focus()]
                            == self.writer.focused());
                    }
                },
                Key::Left => {
                    let area = self.writer.current_area_mut();
                    area.move_left();
                    proof {
                        assert(self.writer.panes()[self.writer.spec_focus()]
                            == self.writer.focused());
                    }
                },
                Key::Right => {
                    let area = self.writer.current_area_mut();
                    area.move_right();
                    proof {
                        assert(self.writer.panes()[self.writer.spec_focus()]
                            == self.writer.focused());
                    }
                },
                Key::End => {
                    let area = self.writer.current_area_mut();
                    area.goto_end_of_line();
                    proof {
                        assert(self.writer.panes()[self.writer.spec_focus()]
                            == self.writer.focused());
                    }
                },
                Key::Home => {
                    let area = self.writer.current_area_mut();
                    area.goto_init_of_line();
                    proof {
                        assert(self.writer.panes()[self.writer.spec_focus()]
                            == self.writer.focused());
                    }
                },
                _ => {},
            }
        } else if self.priority.0 == PRIORITY_CMD {
            match key {
                Key::Esc => {
                    self.cmd.clear();
                },
                Key::Char(c) => {
                    let t = self.cmd.write(c);
                    self.handle_task(&t, sys_clip, effects);
                },
                Key::Left => {
                    self.cmd.move_left();
                },
                Key::Right => {
                    self.cmd.move_right();
                },
                Key::Enter => {
                    let t = self.cmd.execute();
                    self.handle_task(&t, sys_clip, effects);
                },
                Key::Backspace => {
                    self.cmd.backspace();
                },
                _ => {},
            }
        }
    }

    /// Executes one command it owns; see `handle_task`.
    fn handle_task_owned(&mut self, task: CmdTask, sys_clip: &str, effects: &mut Vec<Effect>)
        requires
            old(self).wf(),
        ensures
            final(self).wf(),
    {
        self.handle_task(&task, sys_clip, effects);
    }
}

} // verus!
