//! The text area: one editable document. An ordered sequence of line
//! buffers (never empty), a cursor given as a byte offset into the current
//! line and a line index, an optional bound file path, and a mode flag:
//! `Writing` edits, `Selecting` only navigates and marks a line range from
//! the anchor saved when selection was entered.
//!
//! The cursor's byte offset always lands on a character boundary.

use vstd::prelude::*;

verus! {

use vstd::utf8::{
    decode_utf8,
    encode_scalar,
    is_char_boundary,
    is_char_boundary_start_end_of_seq,
    valid_utf8_split,
    decode_utf8_split,
};
use vstd::string::StringSliceAdditionalSpecFns;
use crate::line::TerminalLine;
use crate::chars::chars_before;
use crate::vec2::Vec2;
use crate::tasks::CmdTask;

/// What a compose attempt of a base character with a pending mark returns.
/// The result depends on the two characters alone.
pub uninterp spec fn composed(a: char, b: char) -> Option<char>;

/// Relies on unicode_normalization::char::compose: canonical composition of
/// the two characters, if one exists.
#[verifier::external_body]
fn compose_chars(a: char, b: char) -> (r: Option<char>)
    ensures
        r == composed(a, b),
{
    unicode_normalization::char::compose(a, b)
}

/// The marks that are buffered as a pending punctuator and committed with
/// the next character: the common spacing accents and the combining
/// diacritical marks.
pub open spec fn is_punctuator_char(c: char) -> bool {
    c == '\u{00B4}' || c == '`' || c == '^' || c == '~' || c == '\u{00A8}' || ((c as u32) >= 0x300
        && (c as u32) < 0x370)
}

/// Whether a character is one of the buffered accent marks.
pub fn punctuator_char(c: char) -> (r: bool)
    ensures
        r == is_punctuator_char(c),
{
    c == '\u{00B4}' || c == '`' || c == '^' || c == '~' || c == '\u{00A8}' || ((c as u32) >= 0x300
        && (c as u32) < 0x370)
}

/// The characters one keystroke commits, given the pending mark: an accent
/// commits only a previously pending mark; any other character tries to
/// compose with the pending mark, committing the composition, or both
/// characters in order when composition is undefined.
pub open spec fn written_chars(p: Option<char>, c: char) -> Seq<char> {
    if is_punctuator_char(c) {
        match p {
            Some(q) => seq![q],
            None => seq![],
        }
    } else {
        match p {
            Some(q) => match composed(c, q) {
                Some(m) => seq![m],
                None => seq![q, c],
            },
            None => seq![c],
        }
    }
}

/// The pending mark after one keystroke.
pub open spec fn pending_after(p: Option<char>, c: char) -> Option<char> {
    if is_punctuator_char(c) {
        Some(c)
    } else {
        None
    }
}

/// Whether the area edits text or only navigates a selection.
#[derive(Debug, PartialEq, Eq, Structural, Clone, Copy)]
pub enum TextAreaMode {
    Writing,
    Selecting,
}

/// One editable document with its cursor, selection anchor, geometry and
/// bound file.
pub struct TextArea {
    lines: Vec<TerminalLine>,
    position: Vec2,
    size: Vec2,
    selection_cursor: (usize, usize),
    x: usize,
    y: usize,
    punctuator: Option<char>,
    editing_file: Option<String>,
    mode: TextAreaMode,
}

impl TextArea {
    /// The document: each line's text, in order.
    pub closed spec fn doc(&self) -> Seq<Seq<char>> {
        self.lines@.map_values(|l: TerminalLine| l.text())
    }

    /// The bytes of the line under the cursor.
    pub closed spec fn cur_bytes(&self) -> Seq<u8> {
        self.lines@[self.y as int].bytes()
    }

    /// The cursor's byte offset in the current line.
    pub closed spec fn cursor_x(&self) -> int {
        self.x as int
    }

    /// The cursor's line index.
    pub closed spec fn cursor_y(&self) -> int {
        self.y as int
    }

    /// How many characters stand before the cursor on its line.
    pub open spec fn cursor_chars(&self) -> nat {
        chars_before(self.cur_bytes(), self.cursor_x())
    }

    /// The editing mode.
    pub closed spec fn spec_mode(&self) -> TextAreaMode {
        self.mode
    }

    /// The pending accent mark, if any.
    pub closed spec fn spec_punctuator(&self) -> Option<char> {
        self.punctuator
    }

    /// The selection anchor: cursor position saved when selection started.
    pub closed spec fn spec_anchor(&self) -> (int, int) {
        (self.selection_cursor.0 as int, self.selection_cursor.1 as int)
    }

    /// The bound file path, if any.
    pub closed spec fn spec_file(&self) -> Option<Seq<char>> {
        match self.editing_file {
            Some(p) => Some(p@),
            None => None,
        }
    }

    /// The area's position, as set by the pane layout.
    pub closed spec fn spec_pos(&self) -> (u16, u16) {
        (self.position.0, self.position.1)
    }

    /// The area's size in cells.
    pub closed spec fn spec_size(&self) -> (u16, u16) {
        (self.size.0, self.size.1)
    }

    /// The bytes of line `i`.
    pub closed spec fn line_bytes(&self, i: int) -> Seq<u8> {
        self.lines@[i].bytes()
    }

    /// The document is never empty, every line is valid UTF-8, and the
    /// cursor sits on a character boundary of an existing line.
    pub closed spec fn wf(&self) -> bool {
        &&& self.lines@.len() >= 1
        &&& forall|i: int| 0 <= i < self.lines@.len() ==> (#[trigger] self.lines@[i]).wf()
        &&& 0 <= self.y < self.lines@.len()
        &&& self.x <= self.cur_bytes().len()
        &&& is_char_boundary(self.cur_bytes(), self.x as int)
    }

    /// An empty document at the given position and size.
    pub fn new(x: u16, y: u16, w: u16, h: u16) -> (r: TextArea)
        ensures
            r.wf(),
            r.doc() == seq![Seq::<char>::empty()],
            r.cur_bytes() == Seq::<u8>::empty(),
            r.cursor_x() == 0,
            r.cursor_y() == 0,
            r.spec_mode() == TextAreaMode::Writing,
            r.spec_punctuator() is None,
            r.spec_file() is None,
            r.spec_pos() == (x, y),
            r.spec_size() == (w, h),
    {
        let mut lines: Vec<TerminalLine> = Vec::new();
        lines.push(TerminalLine::new());
        let r = TextArea {
            lines,
            position: Vec2::new(x, y),
            size: Vec2::new(w, h),
            selection_cursor: (0, 0),
            x: 0,
            y: 0,
            punctuator: None,
            editing_file: None,
            mode: TextAreaMode::Writing,
        };
        proof {
            is_char_boundary_start_end_of_seq(r.cur_bytes());
            assert(r.doc() =~= seq![Seq::<char>::empty()]);
        }
        r
    }

    /// Enters selection mode, snapshotting the cursor as the anchor.
    pub fn enter_selection(&mut self)
        requires
            old(self).wf(),
        ensures
            final(self).wf(),
            final(self).spec_mode() == TextAreaMode::Selecting,
            final(self).spec_anchor() == (old(self).cursor_x(), old(self).cursor_y()),
            final(self).doc() == old(self).doc(),
            final(self).cursor_x() == old(self).cursor_x(),
            final(self).cursor_y() == old(self).cursor_y(),
            final(self).spec_punctuator() == old(self).spec_punctuator(),
            final(self).spec_file() == old(self).spec_file(),
            final(self).spec_pos() == old(self).spec_pos(),
            final(self).spec_size() == old(self).spec_size(),
    {
        self.mode = TextAreaMode::Selecting;
        self.selection_cursor = (self.x, self.y);
    }

    /// Enters writing mode; the anchor keeps its last value.
    pub fn enter_writing(&mut self)
        requires
            old(self).wf(),
        ensures
            final(self).wf(),
            final(self).spec_mode() == TextAreaMode::Writing,
            final(self).spec_anchor() == old(self).spec_anchor(),
            final(self).doc() == old(self).doc(),
            final(self).cursor_x() == old(self).cursor_x(),
            final(self).cursor_y() == old(self).cursor_y(),
            final(self).spec_punctuator() == old(self).spec_punctuator(),
            final(self).spec_file() == old(self).spec_file(),
            final(self).spec_pos() == old(self).spec_pos(),
            final(self).spec_size() == old(self).spec_size(),
    {
        self.mode = TextAreaMode::Writing;
    }

    /// Whether the area is in selection mode.
    pub fn is_selecting(&self) -> (r: bool)
        ensures
            r == (self.spec_mode() == TextAreaMode::Selecting),
    {
        matches!(self.mode, TextAreaMode::Selecting)
    }

    /// Inserts the given characters at the cursor on the current line and
    /// moves the cursor past them. Helper for one keystroke's commits.
    fn insert_chars_at_cursor(&mut self, cs: &Vec<char>)
        requires
            old(self).wf(),
            old(self).cur_bytes().len() + 4 * cs@.len() <= usize::MAX,
        ensures
            final(self).wf(),
            final(self).doc() == old(self).doc().update(
                old(self).cursor_y(),
                old(self).doc()[old(self).cursor_y()].take(old(self).cursor_chars() as int) + cs@
                    + old(self).doc()[old(self).cursor_y()].skip(old(self).cursor_chars() as int),
            ),
            final(self).cursor_y() == old(self).cursor_y(),
            final(self).cursor_chars() == old(self).cursor_chars() + cs@.len(),
            final(self).cur_bytes().len() <= old(self).cur_bytes().len() + 4 * cs@.len(),
            final(self).spec_mode() == old(self).spec_mode(),
            final(self).spec_punctuator() == old(self).spec_punctuator(),
            final(self).spec_anchor() == old(self).spec_anchor(),
            final(self).spec_file() == old(self).spec_file(),
            final(self).spec_size() == old(self).spec_size(),
            final(self).spec_pos() == old(self).spec_pos(),
            final(self).doc().len() == old(self).doc().len(),
    {
        let ghost t0 = old(self).doc()[old(self).cursor_y()];
        let ghost k0 = old(self).cursor_chars() as int;
        proof {
            assert(t0 == old(self).lines@[old(self).y as int].text());
            assert(t0 == decode_utf8(old(self).cur_bytes()));
            valid_utf8_split(old(self).cur_bytes(), old(self).x as int);
            decode_utf8_split(old(self).cur_bytes(), old(self).x as int);
            assert(k0 <= t0.len());
            assert(t0.take(k0) + cs@.subrange(0, 0) + t0.skip(k0) =~= t0);
            assert(old(self).doc().update(old(self).cursor_y(), t0) =~= old(self).doc());
        }
        let mut i: usize = 0;
        while i < cs.len()
            invariant
                0 <= i <= cs@.len(),
                self.wf(),
                self.lines@.len() == old(self).lines@.len(),
                self.y == old(self).y,
                self.mode == old(self).mode,
                self.punctuator == old(self).punctuator,
                self.selection_cursor == old(self).selection_cursor,
                self.editing_file == old(self).editing_file,
                self.size == old(self).size,
                self.position == old(self).position,
                self.cur_bytes().len() <= old(self).cur_bytes().len() + 4 * i,
                old(self).cur_bytes().len() + 4 * cs@.len() <= usize::MAX,
                t0 == old(self).doc()[old(self).cursor_y()],
                k0 == old(self).cursor_chars() as int,
                0 <= k0 <= t0.len(),
                self.doc() == old(self).doc().update(
                    self.cursor_y(),
                    t0.take(k0) + cs@.subrange(0, i as int) + t0.skip(k0),
                ),
                self.cursor_chars() == k0 + i,
            decreases cs@.len() - i,
        {
            let c = cs[i];
            let yy = self.y;
            let xx = self.x;
            let ghost line_pre = self.lines@[yy as int];
            let ghost pre_lines = self.lines@;
            proof {
                assert(self.doc()[yy as int] == line_pre.text());
                assert(line_pre.bytes() == self.cur_bytes());
            }
            let line = &mut self.lines[yy];
            let ww = line.insert(xx, c);
            self.x = xx + ww;
            proof {
                crate::chars::lemma_encode_single(c);
                let enc = encode_scalar(c as u32);
                let head = line_pre.bytes().subrange(0, xx as int);
                let tail = line_pre.bytes().subrange(xx as int, line_pre.bytes().len() as int);
                let nb = self.lines@[yy as int].bytes();
                assert(nb == head + enc + tail);
                valid_utf8_split(line_pre.bytes(), xx as int);
                crate::chars::lemma_valid_concat(head, enc);
                crate::chars::lemma_valid_concat(head + enc, tail);
                assert(self.cur_bytes() == nb);
                assert(is_char_boundary(nb, xx + ww));
                assert(chars_before(nb, xx + ww) == k0 + i + 1) by {
                    assert(nb.subrange(0, xx + ww) =~= head + enc);
                    assert(decode_utf8(head + enc) == decode_utf8(head) + seq![c]);
                    assert(chars_before(line_pre.bytes(), xx as int) == k0 + i);
                }
                assert(self.lines@ == pre_lines.update(yy as int, self.lines@[yy as int]));
                assert(self.lines@[yy as int].text() == line_pre.text().insert(
                    chars_before(line_pre.bytes(), xx as int) as int,
                    c,
                ));
                assert(line_pre.text() == t0.take(k0) + cs@.subrange(0, i as int) + t0.skip(k0));
                assert(chars_before(line_pre.bytes(), xx as int) == k0 + i);
                assert(line_pre.text().insert((k0 + i) as int, c) =~= t0.take(k0) + cs@.subrange(
                    0,
                    i + 1,
                ) + t0.skip(k0));
                let target = old(self).doc().update(
                    self.cursor_y(),
                    t0.take(k0) + cs@.subrange(0, i + 1) + t0.skip(k0),
                );
                assert forall|j: int| 0 <= j < self.doc().len() implies self.doc()[j]
                    == target[j] by {
                    if j != yy as int {
                        assert(self.lines@[j] == pre_lines[j]);
                        assert(old(self).doc().update(
                            self.cursor_y(),
                            t0.take(k0) + cs@.subrange(0, i as int) + t0.skip(k0),
                        )[j] == old(self).doc()[j]);
                    }
                }
                assert(self.doc() =~= target);
            }
            i += 1;
        }
        proof {
            assert(cs@.subrange(0, cs@.len() as int) =~= cs@);
        }
    }

    /// Writes one typed character, buffering accent marks as a pending
    /// punctuator and attempting composition with the next character.
    /// Does nothing in selection mode.
    pub fn write_char(&mut self, c: char)
        requires
            old(self).wf(),
            old(self).cur_bytes().len() + 8 <= usize::MAX,
        ensures
            final(self).wf(),
            old(self).spec_mode() == TextAreaMode::Selecting ==> *final(self) == *old(self),
            old(self).spec_mode() != TextAreaMode::Selecting ==> {
                let ins = written_chars(old(self).spec_punctuator(), c);
                &&& final(self).doc() == old(self).doc().update(
                    old(self).cursor_y(),
                    old(self).doc()[old(self).cursor_y()].take(old(self).cursor_chars() as int)
                        + ins + old(self).doc()[old(self).cursor_y()].skip(
                        old(self).cursor_chars() as int,
                    ),
                )
                &&& final(self).cursor_y() == old(self).cursor_y()
                &&& final(self).cursor_chars() == old(self).cursor_chars() + ins.len()
                &&& final(self).spec_punctuator() == pending_after(old(self).spec_punctuator(), c)
                &&& final(self).spec_mode() == old(self).spec_mode()
                &&& final(self).doc().len() == old(self).doc().len()
                &&& final(self).cur_bytes().len() <= old(self).cur_bytes().len() + 8
                &&& final(self).spec_anchor() == old(self).spec_anchor()
                &&& final(self).spec_file() == old(self).spec_file()
                &&& final(self).spec_pos() == old(self).spec_pos()
                &&& final(self).spec_size() == old(self).spec_size()
            },
    {
        if matches!(self.mode, TextAreaMode::Selecting) {
            return;
        }
        let ghost t0 = old(self).doc()[old(self).cursor_y()];
        let ghost k0 = old(self).cursor_chars() as int;
        let mut commit: Vec<char> = Vec::new();
        let pend: Option<char>;
        if punctuator_char(c) {
            match self.punctuator {
                Some(q) => {
                    commit.push(q);
                },
                None => {},
            }
            pend = Some(c);
        } else {
            match self.punctuator {
                Some(q) => {
                    match compose_chars(c, q) {
                        Some(m) => {
                            commit.push(m);
                        },
                        None => {
                            commit.push(q);
                            commit.push(c);
                        },
                    }
                },
                None => {
                    commit.push(c);
                },
            }
            pend = None;
        }
        proof {
            assert(commit@ =~= written_chars(old(self).spec_punctuator(), c));
        }
        self.punctuator = pend;
        self.insert_chars_at_cursor(&commit);
    }
}

/// Updating one line updates its text in the document.
proof fn lemma_doc_update(lines: Seq<TerminalLine>, y: int, l: TerminalLine)
    requires
        0 <= y < lines.len(),
    ensures
        lines.update(y, l).map_values(|x: TerminalLine| x.text()) == lines.map_values(
            |x: TerminalLine| x.text(),
        ).update(y, l.text()),
{
    assert(lines.update(y, l).map_values(|x: TerminalLine| x.text()) =~= lines.map_values(
        |x: TerminalLine| x.text(),
    ).update(y, l.text()));
}

/// Removing one line removes its text from the document.
proof fn lemma_doc_remove(lines: Seq<TerminalLine>, y: int)
    requires
        0 <= y < lines.len(),
    ensures
        lines.remove(y).map_values(|x: TerminalLine| x.text()) == lines.map_values(
            |x: TerminalLine| x.text(),
        ).remove(y),
{
    assert(lines.remove(y).map_values(|x: TerminalLine| x.text()) =~= lines.map_values(
        |x: TerminalLine| x.text(),
    ).remove(y));
}

/// Inserting one line inserts its text into the document.
proof fn lemma_doc_insert(lines: Seq<TerminalLine>, y: int, l: TerminalLine)
    requires
        0 <= y <= lines.len(),
    ensures
        lines.insert(y, l).map_values(|x: TerminalLine| x.text()) == lines.map_values(
            |x: TerminalLine| x.text(),
        ).insert(y, l.text()),
{
    assert(lines.insert(y, l).map_values(|x: TerminalLine| x.text()) =~= lines.map_values(
        |x: TerminalLine| x.text(),
    ).insert(y, l.text()));
}

impl TextArea {
    /// Removes the character before the cursor; at the start of a line,
    /// merges the line into the previous one, the cursor landing at the
    /// join. Does nothing in selection mode, at the very start of the
    /// document, or on a merge whose joined line would not fit in memory.
    pub fn backspace(&mut self)
        requires
            old(self).wf(),
        ensures
            final(self).wf(),
            final(self).spec_size() == old(self).spec_size(),
            final(self).spec_pos() == old(self).spec_pos(),
            old(self).spec_mode() == TextAreaMode::Selecting ==> *final(self) == *old(self),
            old(self).spec_mode() != TextAreaMode::Selecting && old(self).cursor_x() > 0 ==> {
                &&& final(self).doc() == old(self).doc().update(
                    old(self).cursor_y(),
                    old(self).doc()[old(self).cursor_y()].remove(
                        old(self).cursor_chars() - 1,
                    ),
                )
                &&& final(self).cursor_y() == old(self).cursor_y()
                &&& final(self).cursor_chars() == old(self).cursor_chars() - 1
                &&& final(self).spec_mode() == old(self).spec_mode()
            },
            old(self).spec_mode() != TextAreaMode::Selecting && old(self).cursor_x() == 0 && old(self).cursor_y() > 0 && old(self).line_bytes(old(self).cursor_y() - 1).len() + old(self).cur_bytes().len() <= usize::MAX ==> {
                &&& final(self).doc() == old(self).doc().update(
                    old(self).cursor_y() - 1,
                    old(self).doc()[old(self).cursor_y() - 1] + old(self).doc()[old(self).cursor_y()],
                ).remove(old(self).cursor_y())
                &&& final(self).cursor_y() == old(self).cursor_y() - 1
                &&& final(self).cursor_chars() == old(self).doc()[old(self).cursor_y() - 1].len()
                &&& final(self).spec_mode() == old(self).spec_mode()
            },
            old(self).spec_mode() != TextAreaMode::Selecting && old(self).cursor_x() == 0 && old(self).cursor_y() == 0 ==> *final(self) == *old(self),
    {
        if matches!(self.mode, TextAreaMode::Selecting) {
            return;
        }
        let yy = self.y;
        let xx = self.x;
        if xx > 0 {
            let ghost line_pre = self.lines@[yy as int];
            let ghost pre_lines = self.lines@;
            let ghost k0 = old(self).cursor_chars() as int;
            proof {
                assert(self.doc()[yy as int] == line_pre.text());
            }
            let line = &mut self.lines[yy];
            let r = line.remove(xx - 1, true);
            match r {
                Some((c, w)) => {
                    proof {
                        crate::chars::lemma_boundary_step(line_pre.bytes(), xx - w);
                        assert(xx - w + w == xx);
                        assert(chars_before(line_pre.bytes(), xx - w) == k0 - 1);
                    }
                    self.x = xx - w;
                    proof {
                        let nb = self.lines@[yy as int].bytes();
                        let head = line_pre.bytes().subrange(0, xx - w);
                        let tail = line_pre.bytes().subrange(
                            xx as int,
                            line_pre.bytes().len() as int,
                        );
                        assert(nb == head + tail);
                        valid_utf8_split(line_pre.bytes(), xx - w);
                        valid_utf8_split(line_pre.bytes(), xx as int);
                        crate::chars::lemma_valid_concat(head, tail);
                        assert(nb.subrange(0, xx - w) =~= head);
                        assert(chars_before(nb, xx - w) == k0 - 1);
                        lemma_doc_update(pre_lines, yy as int, self.lines@[yy as int]);
                    }
                },
                None => {
                    proof {
                        assert(false);
                    }
                },
            }
        } else if yy > 0 {
            let prev_len = self.lines[yy - 1].len();
            let cur_len = self.lines[yy].len();
            if prev_len > usize::MAX - cur_len {
                return;
            }
            let ghost pre_lines = self.lines@;
            let ghost ta = self.lines@[yy - 1].text();
            let ghost tb = self.lines@[yy as int].text();
            let removed = self.lines.remove(yy);
            proof {
                lemma_doc_remove(pre_lines, yy as int);
            }
            self.y = yy - 1;
            self.x = prev_len;
            let ghost mid_lines = self.lines@;
            let line = &mut self.lines[yy - 1];
            line.append_line(removed);
            proof {
                lemma_doc_update(mid_lines, yy - 1, self.lines@[yy - 1]);
                let joined = self.lines@[yy - 1];
                assert(joined.text() == ta + tb);
                assert(chars_before(joined.bytes(), prev_len as int) == ta.len()) by {
                    assert(joined.bytes().subrange(0, prev_len as int) =~= pre_lines[yy
                        - 1].bytes());
                }
                assert(self.doc() =~= old(self).doc().update(yy - 1, ta + tb).remove(yy as int));
            }
        }
    }

    /// Removes the character after the cursor; removes an empty current
    /// line outright, and at the end of a line merges the next line up.
    /// Does nothing in selection mode or where nothing follows.
    pub fn del(&mut self)
        requires
            old(self).wf(),
        ensures
            final(self).wf(),
            final(self).spec_size() == old(self).spec_size(),
            final(self).spec_pos() == old(self).spec_pos(),
            old(self).spec_mode() == TextAreaMode::Selecting ==> *final(self) == *old(self),
            old(self).spec_mode() != TextAreaMode::Selecting && old(self).cur_bytes().len() == 0
                && old(self).doc().len() > 1 ==> {
                &&& final(self).doc() == old(self).doc().remove(old(self).cursor_y())
                &&& final(self).cursor_y() == (if old(self).cursor_y() + 1 < old(self).doc().len() {
                    old(self).cursor_y()
                } else {
                    old(self).cursor_y() - 1
                })
                &&& final(self).cursor_x() == 0
            },
            old(self).spec_mode() != TextAreaMode::Selecting && !(old(self).cur_bytes().len() == 0
                && old(self).doc().len() > 1) && old(self).cursor_x() == old(self).cur_bytes().len() && old(self).cursor_y() + 1 < old(self).doc().len() && old(self).cur_bytes().len() + old(self).line_bytes(old(self).cursor_y() + 1).len()
                <= usize::MAX ==> {
                &&& final(self).doc() == old(self).doc().update(
                    old(self).cursor_y(),
                    old(self).doc()[old(self).cursor_y()] + old(self).doc()[old(self).cursor_y()
                        + 1],
                ).remove(old(self).cursor_y() + 1)
                &&& final(self).cursor_y() == old(self).cursor_y()
                &&& final(self).cursor_x() == old(self).cursor_x()
            },
            old(self).spec_mode() != TextAreaMode::Selecting && !(old(self).cur_bytes().len() == 0
                && old(self).doc().len() > 1) && old(self).cursor_x() < old(self).cur_bytes().len() ==> {
                &&& final(self).doc() == old(self).doc().update(
                    old(self).cursor_y(),
                    old(self).doc()[old(self).cursor_y()].remove(
                        old(self).cursor_chars() as int,
                    ),
                )
                &&& final(self).cursor_y() == old(self).cursor_y()
                &&& final(self).cursor_x() == old(self).cursor_x()
                &&& final(self).cursor_chars() == old(self).cursor_chars()
            },
    {
        if matches!(self.mode, TextAreaMode::Selecting) {
            return;
        }
        let yy = self.y;
        let xx = self.x;
        let n_lines = self.lines.len();
        let cur_len = self.lines[yy].len();
        if cur_len == 0 && n_lines > 1 {
            let ghost pre_lines = self.lines@;
            let _ = self.lines.remove(yy);
            proof {
                lemma_doc_remove(pre_lines, yy as int);
            }
            if yy >= self.lines.len() {
                self.y = yy - 1;
            }
            self.x = 0;
            proof {
                vstd::utf8::is_char_boundary_start_end_of_seq(self.cur_bytes());
            }
        } else if xx == cur_len && yy + 1 < n_lines {
            let next_len = self.lines[yy + 1].len();
            if cur_len > usize::MAX - next_len {
                return;
            }
            let ghost pre_lines = self.lines@;
            let ghost ta = self.lines@[yy as int].text();
            let ghost tb = self.lines@[yy + 1].text();
            let removed = self.lines.remove(yy + 1);
            proof {
                lemma_doc_remove(pre_lines, yy + 1);
            }
            let ghost mid_lines = self.lines@;
            let line = &mut self.lines[yy];
            line.append_line(removed);
            proof {
                lemma_doc_update(mid_lines, yy as int, self.lines@[yy as int]);
                assert(self.doc() =~= old(self).doc().update(yy as int, ta + tb).remove(yy + 1));
                let joined = self.lines@[yy as int];
                assert(joined.bytes().subrange(0, xx as int) =~= pre_lines[yy as int].bytes());
            }
        } else if xx < cur_len {
            let ghost line_pre = self.lines@[yy as int];
            let ghost pre_lines = self.lines@;
            let ghost k0 = old(self).cursor_chars() as int;
            let line = &mut self.lines[yy];
            let r = line.remove(xx, false);
            match r {
                Some((c, w)) => {
                    proof {
                        let nb = self.lines@[yy as int].bytes();
                        let head = line_pre.bytes().subrange(0, xx as int);
                        let tail = line_pre.bytes().subrange(
                            xx + w,
                            line_pre.bytes().len() as int,
                        );
                        assert(nb == head + tail);
                        valid_utf8_split(line_pre.bytes(), xx as int);
                        crate::chars::lemma_boundary_step(line_pre.bytes(), xx as int);
                        valid_utf8_split(line_pre.bytes(), xx + w);
                        crate::chars::lemma_valid_concat(head, tail);
                        assert(nb.subrange(0, xx as int) =~= head);
                        assert(chars_before(nb, xx as int) == k0);
                        lemma_doc_update(pre_lines, yy as int, self.lines@[yy as int]);
                    }
                },
                None => {
                    proof {
                        assert(false);
                    }
                },
            }
        }
    }

    /// Splits the current line at the cursor, inserts the remainder as a new
    /// line below, and puts the cursor at its start. Does nothing in
    /// selection mode.
    pub fn newline(&mut self)
        requires
            old(self).wf(),
        ensures
            final(self).wf(),
            final(self).spec_size() == old(self).spec_size(),
            final(self).spec_pos() == old(self).spec_pos(),
            old(self).spec_mode() == TextAreaMode::Selecting ==> *final(self) == *old(self),
            old(self).spec_mode() != TextAreaMode::Selecting ==> {
                let t = old(self).doc()[old(self).cursor_y()];
                let k = old(self).cursor_chars() as int;
                &&& final(self).doc() == old(self).doc().update(
                    old(self).cursor_y(),
                    t.take(k),
                ).insert(old(self).cursor_y() + 1, t.skip(k))
                &&& final(self).cursor_y() == old(self).cursor_y() + 1
                &&& final(self).cursor_x() == 0
                &&& final(self).cursor_chars() == 0
                &&& final(self).spec_mode() == old(self).spec_mode()
            },
    {
        if matches!(self.mode, TextAreaMode::Selecting) {
            return;
        }
        let yy = self.y;
        let xx = self.x;
        let n_lines = self.lines.len();
        let ghost pre_lines = self.lines@;
        let ghost line_pre = self.lines@[yy as int];
        proof {
            assert(self.doc()[yy as int] == line_pre.text());
            assert(yy < n_lines);
        }
        let line = &mut self.lines[yy];
        let rest = line.split_off(xx);
        proof {
            lemma_doc_update(pre_lines, yy as int, self.lines@[yy as int]);
        }
        let ghost mid_lines = self.lines@;
        self.lines.insert(yy + 1, rest);
        self.x = 0;
        self.y = yy + 1;
        proof {
            lemma_doc_insert(mid_lines, yy + 1, self.lines@[yy + 1]);
            vstd::utf8::is_char_boundary_start_end_of_seq(self.cur_bytes());
            assert(self.cur_bytes().subrange(0, 0) =~= Seq::<u8>::empty());
        }
    }

    /// Moves one character right, staying on the current line.
    pub fn move_right(&mut self)
        requires
            old(self).wf(),
        ensures
            final(self).wf(),
            final(self).spec_size() == old(self).spec_size(),
            final(self).spec_pos() == old(self).spec_pos(),
            final(self).doc() == old(self).doc(),
            final(self).cursor_y() == old(self).cursor_y(),
            final(self).spec_mode() == old(self).spec_mode(),
            old(self).cursor_x() < old(self).cur_bytes().len() ==> final(self).cursor_chars()
                == old(self).cursor_chars() + 1,
            old(self).cursor_x() >= old(self).cur_bytes().len() ==> final(self).cursor_x() == old(self).cursor_x(),
    {
        let yy = self.y;
        let xx = self.x;
        let n = self.lines[yy].len();
        match self.lines[yy].next_char_width(xx) {
            Some(w) => {
                proof {
                    assert(xx + w <= n);
                }
                self.x = xx + w;
            },
            None => {},
        }
    }

    /// Moves one character left; at the start of a line, to the end of the
    /// previous line.
    pub fn move_left(&mut self)
        requires
            old(self).wf(),
        ensures
            final(self).wf(),
            final(self).spec_size() == old(self).spec_size(),
            final(self).spec_pos() == old(self).spec_pos(),
            final(self).doc() == old(self).doc(),
            final(self).spec_mode() == old(self).spec_mode(),
            old(self).cursor_x() > 0 ==> final(self).cursor_y() == old(self).cursor_y() && final(self).cursor_chars() == old(self).cursor_chars() - 1,
            old(self).cursor_x() == 0 && old(self).cursor_y() > 0 ==> final(self).cursor_y()
                == old(self).cursor_y() - 1 && final(self).cursor_x() == old(self).line_bytes(old(self).cursor_y() - 1).len(),
            old(self).cursor_x() == 0 && old(self).cursor_y() == 0 ==> *final(self) == *old(self),
    {
        let yy = self.y;
        let xx = self.x;
        if xx == 0 {
            if yy > 0 {
                self.y = yy - 1;
                let n = self.lines[yy - 1].len();
                self.x = n;
                proof {
                    vstd::utf8::is_char_boundary_start_end_of_seq(self.cur_bytes());
                }
            }
            return;
        }
        match self.lines[yy].prev_char_width(xx) {
            Some(w) => {
                self.x = xx - w;
            },
            None => {
                proof {
                    assert(false);
                }
            },
        }
    }

    /// Moves one line up, clamping the byte offset to the destination
    /// line's nearest boundary; on the first line, to its start.
    pub fn move_up(&mut self)
        requires
            old(self).wf(),
        ensures
            final(self).wf(),
            final(self).spec_size() == old(self).spec_size(),
            final(self).spec_pos() == old(self).spec_pos(),
            final(self).doc() == old(self).doc(),
            final(self).spec_mode() == old(self).spec_mode(),
            old(self).cursor_y() == 0 ==> final(self).cursor_y() == 0 && final(self).cursor_x()
                == 0,
            old(self).cursor_y() > 0 ==> final(self).cursor_y() == old(self).cursor_y() - 1
                && final(self).cursor_x() <= old(self).cursor_x() && (forall|b: int|
                final(self).cursor_x() < b <= old(self).cursor_x() && b <= final(self).cur_bytes().len() ==> !is_char_boundary(final(self).cur_bytes(), b)),
    {
        let yy = self.y;
        if yy == 0 {
            self.x = 0;
            proof {
                vstd::utf8::is_char_boundary_start_end_of_seq(self.cur_bytes());
            }
            return;
        }
        self.y = yy - 1;
        let ghost ox = self.x as int;
        let nx = self.lines[yy - 1].floor_boundary(self.x);
        self.x = nx;
        proof {
            assert forall|b: int|
                self.x < b <= ox && b <= self.cur_bytes().len() implies !is_char_boundary(
                self.cur_bytes(),
                b,
            ) by {
                assert(!self.lines@[yy - 1].is_boundary(b));
            }
        }
    }

    /// Moves one line down, clamping the byte offset to the destination
    /// line's nearest boundary; on the last line, stays put.
    pub fn move_down(&mut self)
        requires
            old(self).wf(),
        ensures
            final(self).wf(),
            final(self).spec_size() == old(self).spec_size(),
            final(self).spec_pos() == old(self).spec_pos(),
            final(self).doc() == old(self).doc(),
            final(self).spec_mode() == old(self).spec_mode(),
            old(self).cursor_y() + 1 >= old(self).doc().len() ==> *final(self) == *old(self),
            old(self).cursor_y() + 1 < old(self).doc().len() ==> final(self).cursor_y() == old(self).cursor_y() + 1 && final(self).cursor_x() <= old(self).cursor_x() && (forall|b: int|
                final(self).cursor_x() < b <= old(self).cursor_x() && b <= final(self).cur_bytes().len() ==> !is_char_boundary(final(self).cur_bytes(), b)),
    {
        let yy = self.y;
        let n_lines = self.lines.len();
        if yy + 1 >= n_lines {
            return;
        }
        self.y = yy + 1;
        let ghost ox = self.x as int;
        let nx = self.lines[yy + 1].floor_boundary(self.x);
        self.x = nx;
        proof {
            assert forall|b: int|
                self.x < b <= ox && b <= self.cur_bytes().len() implies !is_char_boundary(
                self.cur_bytes(),
                b,
            ) by {
                assert(!self.lines@[yy + 1].is_boundary(b));
            }
        }
    }

    /// Moves the cursor to the start of the current line.
    pub fn goto_init_of_line(&mut self)
        requires
            old(self).wf(),
        ensures
            final(self).wf(),
            final(self).spec_size() == old(self).spec_size(),
            final(self).spec_pos() == old(self).spec_pos(),
            final(self).doc() == old(self).doc(),
            final(self).cursor_y() == old(self).cursor_y(),
            final(self).cursor_x() == 0,
            final(self).spec_mode() == old(self).spec_mode(),
    {
        self.x = 0;
        proof {
            vstd::utf8::is_char_boundary_start_end_of_seq(self.cur_bytes());
        }
    }

    /// Moves the cursor to the end of the current line.
    pub fn goto_end_of_line(&mut self)
        requires
            old(self).wf(),
        ensures
            final(self).wf(),
            final(self).spec_size() == old(self).spec_size(),
            final(self).spec_pos() == old(self).spec_pos(),
            final(self).doc() == old(self).doc(),
            final(self).cursor_y() == old(self).cursor_y(),
            final(self).cursor_x() == old(self).cur_bytes().len(),
            final(self).spec_mode() == old(self).spec_mode(),
    {
        let yy = self.y;
        let n = self.lines[yy].len();
        self.x = n;
        proof {
            vstd::utf8::is_char_boundary_start_end_of_seq(self.cur_bytes());
        }
    }

    /// Moves the cursor to the start of the document.
    pub fn goto_init_of_file(&mut self)
        requires
            old(self).wf(),
        ensures
            final(self).wf(),
            final(self).spec_size() == old(self).spec_size(),
            final(self).spec_pos() == old(self).spec_pos(),
            final(self).doc() == old(self).doc(),
            final(self).cursor_y() == 0,
            final(self).cursor_x() == 0,
            final(self).spec_mode() == old(self).spec_mode(),
    {
        self.x = 0;
        self.y = 0;
        proof {
            vstd::utf8::is_char_boundary_start_end_of_seq(self.cur_bytes());
        }
    }

    /// Moves the cursor past the last character of the document.
    pub fn goto_end_of_file(&mut self)
        requires
            old(self).wf(),
        ensures
            final(self).wf(),
            final(self).spec_size() == old(self).spec_size(),
            final(self).spec_pos() == old(self).spec_pos(),
            final(self).doc() == old(self).doc(),
            final(self).cursor_y() == old(self).doc().len() - 1,
            final(self).cursor_x() == old(self).line_bytes(old(self).doc().len() - 1).len(),
            final(self).spec_mode() == old(self).spec_mode(),
    {
        let last = self.lines.len() - 1;
        self.y = last;
        let n = self.lines[last].len();
        self.x = n;
        proof {
            vstd::utf8::is_char_boundary_start_end_of_seq(self.cur_bytes());
        }
    }

    /// Moves the cursor to the given line, clamped to the document, the
    /// byte offset clamped to a boundary of the destination line.
    pub fn move_to_line(&mut self, n: usize)
        requires
            old(self).wf(),
        ensures
            final(self).wf(),
            final(self).spec_size() == old(self).spec_size(),
            final(self).spec_pos() == old(self).spec_pos(),
            final(self).doc() == old(self).doc(),
            final(self).spec_mode() == old(self).spec_mode(),
            final(self).cursor_y() == (if n < old(self).doc().len() {
                n as int
            } else {
                old(self).doc().len() - 1
            }),
    {
        let count = self.lines.len();
        self.y = if n < count {
            n
        } else {
            count - 1
        };
        let ny = self.y;
        let nx = self.lines[ny].floor_boundary(self.x);
        self.x = nx;
    }

    /// Moves the cursor to the given byte column of its line, clamped to a
    /// boundary.
    pub fn move_to_row(&mut self, n: usize)
        requires
            old(self).wf(),
        ensures
            final(self).wf(),
            final(self).spec_size() == old(self).spec_size(),
            final(self).spec_pos() == old(self).spec_pos(),
            final(self).doc() == old(self).doc(),
            final(self).spec_mode() == old(self).spec_mode(),
            final(self).cursor_y() == old(self).cursor_y(),
            final(self).cursor_x() <= n,
            forall|b: int|
                final(self).cursor_x() < b <= n && b <= final(self).cur_bytes().len()
                    ==> !is_char_boundary(final(self).cur_bytes(), b),
    {
        let yy = self.y;
        let nx = self.lines[yy].floor_boundary(n);
        self.x = nx;
        proof {
            assert forall|b: int|
                self.x < b <= n && b <= self.cur_bytes().len() implies !is_char_boundary(
                self.cur_bytes(),
                b,
            ) by {
                assert(!self.lines@[yy as int].is_boundary(b));
            }
        }
    }

    /// Deletes the current line; the only line is cleared instead. The
    /// cursor's line is clamped to the new line count and its offset to a
    /// boundary of the new current line.
    pub fn delete_line(&mut self)
        requires
            old(self).wf(),
        ensures
            final(self).wf(),
            final(self).spec_size() == old(self).spec_size(),
            final(self).spec_pos() == old(self).spec_pos(),
            old(self).doc().len() == 1 ==> final(self).doc() == seq![Seq::<char>::empty()]
                && final(self).cursor_x() == 0 && final(self).cursor_y() == 0,
            old(self).doc().len() > 1 ==> {
                &&& final(self).doc() == old(self).doc().remove(old(self).cursor_y())
                &&& final(self).cursor_y() == (if old(self).cursor_y() + 1 < old(self).doc().len() {
                    old(self).cursor_y()
                } else {
                    old(self).cursor_y() - 1
                })
                &&& final(self).cursor_x() <= old(self).cursor_x()
            },
            final(self).spec_mode() == old(self).spec_mode(),
    {
        let yy = self.y;
        if self.lines.len() == 1 {
            let ghost pre_lines = self.lines@;
            let line = &mut self.lines[0];
            line.clear();
            self.x = 0;
            proof {
                lemma_doc_update(pre_lines, 0, self.lines@[0]);
                vstd::utf8::is_char_boundary_start_end_of_seq(self.cur_bytes());
                assert(self.doc() =~= seq![Seq::<char>::empty()]);
            }
            return;
        }
        let ghost pre_lines = self.lines@;
        let _ = self.lines.remove(yy);
        proof {
            lemma_doc_remove(pre_lines, yy as int);
        }
        if yy >= self.lines.len() {
            self.y = yy - 1;
        }
        let ny = self.y;
        let nx = self.lines[ny].floor_boundary(self.x);
        self.x = nx;
    }
}

/// The lines of a text, split at newline characters; a trailing newline
/// closes the last line without starting another.
pub open spec fn split_lines(s: Seq<char>) -> Seq<Seq<char>>
    decreases s.len(),
{
    if s.len() == 0 {
        Seq::empty()
    } else {
        let j = crate::lexer::scan_len(s, '\n');
        seq![crate::lexer::prefix_to(s, j as int)] + split_lines(
            crate::lexer::suffix_from(s, j + 1 as int),
        )
    }
}

/// A document's text with every line followed by a newline.
pub open spec fn terminated_text(doc: Seq<Seq<char>>) -> Seq<char>
    decreases doc.len(),
{
    if doc.len() == 0 {
        Seq::empty()
    } else {
        doc[0] + seq!['\n'] + terminated_text(doc.drop_first())
    }
}

/// A document's text with lines joined by newlines, none at the end.
pub open spec fn joined_text(doc: Seq<Seq<char>>) -> Seq<char>
    decreases doc.len(),
{
    if doc.len() == 0 {
        Seq::empty()
    } else if doc.len() == 1 {
        doc[0]
    } else {
        doc[0] + seq!['\n'] + joined_text(doc.drop_first())
    }
}

impl TextArea {
    /// Replaces the document with the given text, one line per text line;
    /// empty text leaves one empty line. The cursor returns to the start.
    /// Returns how many lines the text held.
    pub fn set_content(&mut self, content: &str) -> (r: usize)
        requires
            old(self).wf(),
        ensures
            final(self).wf(),
            final(self).spec_size() == old(self).spec_size(),
            final(self).spec_pos() == old(self).spec_pos(),
            r == split_lines(content@).len(),
            final(self).doc() == (if split_lines(content@).len() == 0 {
                seq![Seq::<char>::empty()]
            } else {
                split_lines(content@)
            }),
            final(self).cursor_x() == 0,
            final(self).cursor_y() == 0,
            final(self).spec_mode() == old(self).spec_mode(),
            final(self).spec_file() == old(self).spec_file(),
    {
        let cs = crate::text::str_to_chars(content);
        let mut lines: Vec<TerminalLine> = Vec::new();
        let mut pos: usize = 0;
        proof {
            assert(crate::lexer::suffix_from(cs@, 0) =~= cs@);
            assert(lines@.map_values(|l: TerminalLine| l.text()) =~= Seq::<Seq<char>>::empty());
        }
        while pos < cs.len()
            invariant
                0 <= pos <= cs@.len(),
                cs@ == content@,
                split_lines(content@) == lines@.map_values(|l: TerminalLine| l.text())
                    + split_lines(crate::lexer::suffix_from(cs@, pos as int)),
                forall|i: int|
                    0 <= i < lines@.len() ==> (#[trigger] lines@[i]).wf(),
            decreases cs@.len() - pos,
        {
            let ghost rem = crate::lexer::suffix_from(cs@, pos as int);
            let j = crate::lexer::scan_stop(&cs, pos, '\n');
            let line_str = crate::lexer::string_of_range(&cs, pos, pos + j);
            proof {
                crate::lexer::lemma_scan_len(rem, '\n');
                assert(line_str@ =~= crate::lexer::prefix_to(rem, j as int));
            }
            let ghost pre = lines@;
            lines.push(TerminalLine::from_str(line_str.as_str()));
            let next = if pos + j < cs.len() {
                pos + j + 1
            } else {
                pos + j
            };
            proof {
                assert(crate::lexer::suffix_from(rem, j + 1 as int) =~= crate::lexer::suffix_from(
                    cs@,
                    next as int,
                ));
                assert(lines@.map_values(|l: TerminalLine| l.text()) =~= pre.map_values(
                    |l: TerminalLine| l.text(),
                ) + seq![line_str@]);
                assert(pre.map_values(|l: TerminalLine| l.text()) + (seq![line_str@]
                    + split_lines(crate::lexer::suffix_from(cs@, next as int))) =~= (
                pre.map_values(|l: TerminalLine| l.text()) + seq![line_str@]) + split_lines(
                    crate::lexer::suffix_from(cs@, next as int),
                ));
            }
            pos = next;
        }
        proof {
            assert(crate::lexer::suffix_from(cs@, pos as int) =~= Seq::<char>::empty());
            assert(split_lines(content@) =~= lines@.map_values(|l: TerminalLine| l.text()));
        }
        let count = lines.len();
        if lines.len() == 0 {
            lines.push(TerminalLine::new());
            proof {
                assert(lines@.map_values(|l: TerminalLine| l.text()) =~= seq![
                    Seq::<char>::empty(),
                ]);
            }
        }
        self.lines = lines;
        self.x = 0;
        self.y = 0;
        proof {
            vstd::utf8::is_char_boundary_start_end_of_seq(self.cur_bytes());
        }
        count
    }

    /// The document's text, lines joined by newlines.
    pub fn to_text(&self) -> (r: String)
        requires
            self.wf(),
        ensures
            r@ == joined_text(self.doc()),
    {
        let mut r = String::new();
        let mut i: usize = 0;
        proof {
            assert(self.doc().skip(0) =~= self.doc());
        }
        while i < self.lines.len()
            invariant
                self.wf(),
                0 <= i <= self.lines@.len(),
                joined_text(self.doc()) == r@ + joined_text(self.doc().skip(i as int)),
            decreases self.lines@.len() - i,
        {
            let ghost rem = self.doc().skip(i as int);
            proof {
                assert(rem[0] == self.doc()[i as int]);
                assert(self.doc()[i as int] == self.lines@[i as int].text());
                assert(rem.drop_first() =~= self.doc().skip(i + 1));
            }
            let line_str = self.lines[i].to_string();
            r.append(line_str.as_str());
            if i + 1 < self.lines.len() {
                crate::text::string_push(&mut r, '\n');
            }
            proof {
                if i + 1 < self.lines@.len() {
                    assert(r@ + joined_text(self.doc().skip(i + 1)) =~= joined_text(
                        self.doc(),
                    ));
                } else {
                    assert(rem.len() == 1);
                    assert(joined_text(rem) == rem[0]);
                    assert(r@ + joined_text(self.doc().skip(i + 1)) =~= joined_text(
                        self.doc(),
                    ));
                }
            }
            i += 1;
        }
        proof {
            if self.lines@.len() > 0 {
                assert(joined_text(self.doc().skip(i as int)) =~= Seq::<char>::empty());
                assert(r@ + Seq::<char>::empty() =~= r@);
            }
        }
        r
    }

    /// The document's text with every line followed by a newline: what
    /// saving writes.
    pub fn save_text(&self) -> (r: String)
        requires
            self.wf(),
        ensures
            r@ == terminated_text(self.doc()),
    {
        let mut r = String::new();
        let mut i: usize = 0;
        proof {
            assert(self.doc().skip(0) =~= self.doc());
        }
        while i < self.lines.len()
            invariant
                self.wf(),
                0 <= i <= self.lines@.len(),
                terminated_text(self.doc()) == r@ + terminated_text(self.doc().skip(i as int)),
            decreases self.lines@.len() - i,
        {
            let ghost rem = self.doc().skip(i as int);
            proof {
                assert(rem[0] == self.doc()[i as int]);
                assert(self.doc()[i as int] == self.lines@[i as int].text());
                assert(rem.drop_first() =~= self.doc().skip(i + 1));
            }
            let line_str = self.lines[i].to_string();
            r.append(line_str.as_str());
            crate::text::string_push(&mut r, '\n');
            proof {
                assert(r@ + terminated_text(self.doc().skip(i + 1)) =~= terminated_text(
                    self.doc(),
                ));
            }
            i += 1;
        }
        proof {
            assert(terminated_text(self.doc().skip(i as int)) =~= Seq::<char>::empty());
            assert(r@ + Seq::<char>::empty() =~= r@);
        }
        r
    }

    /// The marked text as a value: the lines between the anchor and the
    /// cursor inclusive — whichever order they stand in, the anchor clamped
    /// to the document — each followed by a newline.
    pub open spec fn selection_text(&self) -> Seq<char> {
        let ay = if self.spec_anchor().1 < self.doc().len() {
            self.spec_anchor().1
        } else {
            self.doc().len() - 1
        };
        let lo = if ay < self.cursor_y() {
            ay
        } else {
            self.cursor_y()
        };
        let hi = if ay < self.cursor_y() {
            self.cursor_y()
        } else {
            ay
        };
        terminated_text(self.doc().subrange(lo, hi + 1))
    }

    /// The text of the marked line range in selection mode: the lines
    /// between the anchor and the cursor inclusive, clamped to the document,
    /// each followed by a newline. Nothing outside selection mode.
    pub fn copy_selection(&self) -> (r: Option<String>)
        requires
            self.wf(),
        ensures
            match r {
                Some(s) => self.spec_mode() == TextAreaMode::Selecting && s@
                    == self.selection_text(),
                None => self.spec_mode() != TextAreaMode::Selecting,
            },
    {
        if !matches!(self.mode, TextAreaMode::Selecting) {
            return None;
        }
        let ay = if self.selection_cursor.1 < self.lines.len() {
            self.selection_cursor.1
        } else {
            self.lines.len() - 1
        };
        let (lo, hi) = if ay < self.y {
            (ay, self.y)
        } else {
            (self.y, ay)
        };
        let mut r = String::new();
        let mut i: usize = lo;
        let n_lines = self.lines.len();
        let ghost part = self.doc().subrange(lo as int, hi + 1);
        proof {
            assert(part.skip(0) =~= part);
            assert(hi < n_lines);
        }
        while i <= hi
            invariant
                self.wf(),
                lo <= i <= hi + 1,
                hi < n_lines == self.lines@.len(),
                part == self.doc().subrange(lo as int, hi + 1),
                terminated_text(part) == r@ + terminated_text(part.skip(i - lo)),
            decreases hi + 1 - i,
        {
            let ghost rem = part.skip(i - lo);
            proof {
                assert(rem[0] == part[i - lo]);
                assert(part[i - lo] == self.doc()[i as int]);
                assert(self.doc()[i as int] == self.lines@[i as int].text());
                assert(rem.drop_first() =~= part.skip(i + 1 - lo));
            }
            let line_str = self.lines[i].to_string();
            r.append(line_str.as_str());
            crate::text::string_push(&mut r, '\n');
            proof {
                assert(r@ + terminated_text(part.skip(i + 1 - lo)) =~= terminated_text(part));
            }
            i += 1;
        }
        proof {
            assert(terminated_text(part.skip(i - lo)) =~= Seq::<char>::empty());
            assert(r@ + Seq::<char>::empty() =~= r@);
        }
        Some(r)
    }

    /// Pastes text: a single line is inserted at the cursor; multi-line
    /// text inserts each of its lines as new lines beneath the cursor,
    /// preserving order. Always signals a return to writing mode. An
    /// oversized single-line paste that cannot fit is ignored.
    pub fn paste(&mut self, content: &str) -> (r: CmdTask)
        requires
            old(self).wf(),
        ensures
            final(self).wf(),
            final(self).spec_size() == old(self).spec_size(),
            final(self).spec_pos() == old(self).spec_pos(),
            r == CmdTask::EnterModify,
            (forall|k: int| 0 <= k < content@.len() ==> content@[k] != '\n') && old(self).cur_bytes().len() + 4 * content@.len() <= usize::MAX ==> {
                &&& final(self).doc() == old(self).doc().update(
                    old(self).cursor_y(),
                    old(self).doc()[old(self).cursor_y()].take(old(self).cursor_chars() as int)
                        + content@ + old(self).doc()[old(self).cursor_y()].skip(
                        old(self).cursor_chars() as int,
                    ),
                )
                &&& final(self).cursor_y() == old(self).cursor_y()
            },
            (exists|k: int| 0 <= k < content@.len() && content@[k] == '\n') ==> final(self).doc()
                == old(self).doc().take(old(self).cursor_y() + 1) + split_lines(content@) + old(self).doc().skip(old(self).cursor_y() + 1),
    {
        let cs = crate::text::str_to_chars(content);
        let mut has_newline = false;
        let mut ci: usize = 0;
        while ci < cs.len()
            invariant
                0 <= ci <= cs@.len(),
                has_newline == exists|k: int| 0 <= k < ci && cs@[k] == '\n',
            decreases cs@.len() - ci,
        {
            if cs[ci] == '\n' {
                has_newline = true;
                proof {
                    assert(cs@[ci as int] == '\n');
                }
            }
            ci += 1;
        }
        if !has_newline {
            let yy = self.y;
            let cur_len = self.lines[yy].len();
            if cs.len() <= (usize::MAX - cur_len) / 4 {
                self.insert_chars_at_cursor(&cs);
            } else {
                proof {
                    assert(!(cur_len + 4 * cs@.len() <= usize::MAX));
                }
            }
            return CmdTask::EnterModify;
        }
        let yy = self.y;
        let mut pos: usize = 0;
        let mut idx: usize = 0;
        proof {
            assert(crate::lexer::suffix_from(cs@, 0) =~= cs@);
            assert(split_lines(content@).skip(0) =~= split_lines(content@));
            assert(split_lines(content@).take(0) =~= Seq::<Seq<char>>::empty());
            assert(self.doc().take(yy + 1) + Seq::<Seq<char>>::empty() + self.doc().skip(yy + 1)
                =~= self.doc());
        }
        while pos < cs.len()
            invariant
                self.wf(),
                0 <= pos <= cs@.len(),
                cs@ == content@,
                yy == self.y,
                self.x == old(self).x,
                self.mode == old(self).mode,
                self.size == old(self).size,
                self.position == old(self).position,
                self.editing_file == old(self).editing_file,
                self.punctuator == old(self).punctuator,
                self.selection_cursor == old(self).selection_cursor,
                0 <= yy < old(self).doc().len(),
                self.y == old(self).y,
                0 <= idx <= split_lines(content@).len(),
                split_lines(content@).skip(idx as int) == split_lines(
                    crate::lexer::suffix_from(cs@, pos as int),
                ),
                self.doc().len() == old(self).doc().len() + idx,
                self.doc() == old(self).doc().take(yy + 1) + split_lines(content@).take(
                    idx as int,
                ) + old(self).doc().skip(yy + 1),
            decreases cs@.len() - pos,
        {
            let ghost rem = crate::lexer::suffix_from(cs@, pos as int);
            let j = crate::lexer::scan_stop(&cs, pos, '\n');
            let line_str = crate::lexer::string_of_range(&cs, pos, pos + j);
            let next = if pos + j < cs.len() {
                pos + j + 1
            } else {
                pos + j
            };
            proof {
                crate::lexer::lemma_scan_len(rem, '\n');
                assert(line_str@ =~= crate::lexer::prefix_to(rem, j as int));
                assert(crate::lexer::suffix_from(rem, j + 1 as int) =~= crate::lexer::suffix_from(
                    cs@,
                    next as int,
                ));
                assert(split_lines(rem) == seq![line_str@] + split_lines(
                    crate::lexer::suffix_from(cs@, next as int),
                ));
                assert(split_lines(content@)[idx as int] == line_str@) by {
                    assert(split_lines(content@).skip(idx as int)[0] == line_str@);
                }
                assert(split_lines(content@).skip(idx + 1) =~= split_lines(
                    crate::lexer::suffix_from(cs@, next as int),
                )) by {
                    assert(split_lines(content@).skip(idx as int).drop_first() =~= split_lines(
                        content@,
                    ).skip(idx + 1));
                }
            }
            let ghost pre_lines = self.lines@;
            let nl = TerminalLine::from_str(line_str.as_str());
            let cur_n = self.lines.len();
            proof {
                assert(yy + 1 + idx <= cur_n);
            }
            self.lines.insert(yy + 1 + idx, nl);
            proof {
                lemma_doc_insert(pre_lines, yy + 1 + idx, nl);
                assert(split_lines(content@).take(idx + 1) =~= split_lines(content@).take(
                    idx as int,
                ).push(line_str@));
                assert(self.doc() =~= old(self).doc().take(yy + 1) + (split_lines(
                    content@,
                ).take(idx + 1)) + old(self).doc().skip(yy + 1));
            }
            pos = next;
            idx += 1;
        }
        proof {
            assert(crate::lexer::suffix_from(cs@, pos as int) =~= Seq::<char>::empty());
            assert(split_lines(content@).skip(idx as int).len() == 0);
            assert(split_lines(content@).take(idx as int) =~= split_lines(content@));
        }
        CmdTask::EnterModify
    }


    /// Binds the document to a file path; the content is untouched.
    pub fn bind_file(&mut self, path: String)
        requires
            old(self).wf(),
        ensures
            final(self).wf(),
            final(self).spec_size() == old(self).spec_size(),
            final(self).spec_pos() == old(self).spec_pos(),
            final(self).doc() == old(self).doc(),
            final(self).cursor_x() == old(self).cursor_x(),
            final(self).cursor_y() == old(self).cursor_y(),
            final(self).spec_mode() == old(self).spec_mode(),
            final(self).spec_file() == Some(path@),
    {
        self.editing_file = Some(path);
    }

    /// The bound file path, if any.
    pub fn file_name(&self) -> (r: Option<&String>)
        ensures
            match r {
                Some(p) => self.spec_file() == Some(p@),
                None => self.spec_file() is None,
            },
    {
        self.editing_file.as_ref()
    }

    /// Renames the bound file, keeping any directory prefix before the last
    /// path separator; without a bound file nothing changes.
    pub fn modify_file_name(&mut self, new_name: &str)
        requires
            old(self).wf(),
        ensures
            final(self).wf(),
            final(self).spec_size() == old(self).spec_size(),
            final(self).spec_pos() == old(self).spec_pos(),
            final(self).doc() == old(self).doc(),
            final(self).cursor_x() == old(self).cursor_x(),
            final(self).cursor_y() == old(self).cursor_y(),
            final(self).spec_mode() == old(self).spec_mode(),
            old(self).spec_file() is None ==> final(self).spec_file() == old(self).spec_file(),
            old(self).spec_file() matches Some(p) ==> final(self).spec_file() == Some(
                with_file_name(p, new_name@),
            ),
    {
        let path = match &self.editing_file {
            Some(p) => p,
            None => {
                return;
            },
        };
        let cs = crate::text::str_to_chars(path.as_str());
        let mut cut: usize = 0;
        let mut i: usize = 0;
        while i < cs.len()
            invariant
                0 <= cut <= i <= cs@.len(),
                cut > 0 ==> cs@[cut - 1] == '/',
                forall|k: int| cut <= k < i ==> cs@[k] != '/',
            decreases cs@.len() - i,
        {
            if cs[i] == '/' {
                cut = i + 1;
            }
            i += 1;
        }
        proof {
            assert(cut == last_slash_cut(path@)) by {
                lemma_last_slash_cut(path@, cut as int);
            }
        }
        let mut prefix = crate::lexer::string_of_range(&cs, 0, cut);
        prefix.append(new_name);
        self.editing_file = Some(prefix);
    }

    /// Unbinds any file and clears the document to one empty line.
    pub fn reset(&mut self)
        requires
            old(self).wf(),
        ensures
            final(self).wf(),
            final(self).spec_size() == old(self).spec_size(),
            final(self).spec_pos() == old(self).spec_pos(),
            final(self).doc() == seq![Seq::<char>::empty()],
            final(self).cursor_x() == 0,
            final(self).cursor_y() == 0,
            final(self).spec_file() is None,
            final(self).spec_mode() == old(self).spec_mode(),
    {
        self.editing_file = None;
        let mut lines: Vec<TerminalLine> = Vec::new();
        lines.push(TerminalLine::new());
        self.lines = lines;
        self.x = 0;
        self.y = 0;
        proof {
            vstd::utf8::is_char_boundary_start_end_of_seq(self.cur_bytes());
            assert(self.doc() =~= seq![Seq::<char>::empty()]);
        }
    }

    /// The cursor's display column as a value: characters before it on its
    /// line, wrapped by the area's width when one is set.
    pub open spec fn display_col(&self) -> int {
        let col = chars_before(self.cur_bytes(), self.cursor_x()) as int;
        if self.spec_size().0 > 0 {
            col % (self.spec_size().0 as int)
        } else {
            col
        }
    }

    /// The cursor's display row as a value: its line index, wrapped by the
    /// page height (one less than the area's height) when that is positive.
    pub open spec fn display_row(&self) -> int {
        if self.spec_size().1 >= 2 {
            self.cursor_y() % (self.spec_size().1 - 1)
        } else {
            self.cursor_y()
        }
    }

    /// The cursor's display column: characters before it on its line,
    /// wrapped by the area's width when one is set.
    pub fn cursor_col(&self) -> (r: usize)
        requires
            self.wf(),
        ensures
            r == self.display_col(),
    {
        let yy = self.y;
        let col = self.lines[yy].chars_to(self.x);
        let w = self.size.x();
        if w > 0 {
            col % (w as usize)
        } else {
            col
        }
    }

    /// The cursor's display row: its line index, wrapped by the page height
    /// (one less than the area's height) when that is positive.
    pub fn cursor_row(&self) -> (r: usize)
        requires
            self.wf(),
        ensures
            r == self.display_row(),
    {
        let h = self.size.y();
        if h >= 2 {
            self.y % ((h - 1) as usize)
        } else {
            self.y
        }
    }

    /// Places the area at a new position, returning the old coordinates.
    pub fn set_pos(&mut self, x: u16, y: u16) -> (r: (u16, u16))
        requires
            old(self).wf(),
        ensures
            final(self).wf(),
            r == old(self).spec_pos(),
            final(self).spec_pos() == (x, y),
            final(self).spec_size() == old(self).spec_size(),
            final(self).doc() == old(self).doc(),
            final(self).cursor_x() == old(self).cursor_x(),
            final(self).cursor_y() == old(self).cursor_y(),
            final(self).spec_mode() == old(self).spec_mode(),
    {
        let r = (self.position.x(), self.position.y());
        self.position = Vec2::new(x, y);
        r
    }

    /// Resizes the area, returning the old size.
    pub fn set_size(&mut self, w: u16, h: u16) -> (r: (u16, u16))
        requires
            old(self).wf(),
        ensures
            final(self).wf(),
            r == old(self).spec_size(),
            final(self).spec_size() == (w, h),
            final(self).spec_pos() == old(self).spec_pos(),
            final(self).doc() == old(self).doc(),
            final(self).cursor_x() == old(self).cursor_x(),
            final(self).cursor_y() == old(self).cursor_y(),
            final(self).spec_mode() == old(self).spec_mode(),
    {
        let r = (self.size.x(), self.size.y());
        self.size = Vec2::new(w, h);
        r
    }

    /// The area's width in cells.
    pub fn w(&self) -> (r: u16)
        ensures
            r == self.spec_size().0,
    {
        self.size.x()
    }

    /// The area's height in cells.
    pub fn h(&self) -> (r: u16)
        ensures
            r == self.spec_size().1,
    {
        self.size.y()
    }

    /// The area's left column.
    pub fn posx(&self) -> (r: u16)
        ensures
            r == self.spec_pos().0,
    {
        self.position.x()
    }

    /// The area's top row.
    pub fn posy(&self) -> (r: u16)
        ensures
            r == self.spec_pos().1,
    {
        self.position.y()
    }

    /// The current line's length in bytes.
    pub fn line_byte_len(&self) -> (r: usize)
        requires
            self.wf(),
        ensures
            r == self.cur_bytes().len(),
    {
        self.lines[self.y].len()
    }

    /// How many lines the document holds.
    pub fn line_count(&self) -> (r: usize)
        ensures
            r == self.doc().len(),
    {
        self.lines.len()
    }

    /// The cursor's byte offset and line index.
    pub fn cursor(&self) -> (r: (usize, usize))
        ensures
            r.0 == self.cursor_x(),
            r.1 == self.cursor_y(),
    {
        (self.x, self.y)
    }

    /// The text of line `idx`, if the document has one.
    pub fn line_text(&self, idx: usize) -> (r: Option<String>)
        requires
            self.wf(),
        ensures
            match r {
                Some(s) => idx < self.doc().len() && s@ == self.doc()[idx as int],
                None => idx >= self.doc().len(),
            },
    {
        if idx < self.lines.len() {
            Some(self.lines[idx].to_string())
        } else {
            None
        }
    }
}

/// Where the file name starts in a path: just after the last separator.
pub open spec fn last_slash_cut(p: Seq<char>) -> int
    decreases p.len(),
{
    if p.len() == 0 {
        0
    } else if p.last() == '/' {
        p.len() as int
    } else {
        last_slash_cut(p.drop_last())
    }
}

/// The path with its final component replaced by the given name.
pub open spec fn with_file_name(p: Seq<char>, name: Seq<char>) -> Seq<char> {
    p.subrange(0, last_slash_cut(p)) + name
}

/// A scan that found the last separator finds where the file name starts.
proof fn lemma_last_slash_cut(p: Seq<char>, cut: int)
    requires
        0 <= cut <= p.len(),
        cut > 0 ==> p[cut - 1] == '/',
        forall|k: int| cut <= k < p.len() ==> p[k] != '/',
    ensures
        last_slash_cut(p) == cut,
    decreases p.len(),
{
    if p.len() == 0 {
    } else if p.last() == '/' {
        assert(cut == p.len());
    } else {
        assert(cut < p.len() || p[cut - 1] != '/' || cut <= p.len() - 1);
        assert(cut <= p.len() - 1) by {
            if cut == p.len() {
                assert(p[cut - 1] == '/');
                assert(p.last() == '/');
            }
        }
        lemma_last_slash_cut(p.drop_last(), cut);
    }
}

} // verus!
