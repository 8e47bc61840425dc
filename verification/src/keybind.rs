//! The keybind handler: captures multi-key chords and resolves them against
//! the current mode's keybind table.
//!
//! A key press with a modifier opens a chord, recording the modifier and the
//! key as its first two tokens; every further key is appended, and after
//! each one the chord is looked up — a complete match dispatches at once.
//! The looked-up statement list is expanded recursively: an unresolved
//! command reference is substituted by the list bound to its name in the
//! same mode's table, to a fixed depth so that a cyclic alias ends the
//! expansion instead of looping forever.

use vstd::prelude::*;

verus! {

use crate::config::{Keybinds, IshtarConfiguration};
use crate::parser::{ConfigStatment, StmtModel, stmts_view, lemma_stmts_view};
use crate::tasks::{CmdTask, TaskModel, tasks_view, lemma_tasks_view};
use crate::text::string_push;

/// How many alias substitutions an expansion will follow before giving up
/// on what must be a cyclic reference.
pub const MAX_ALIAS_DEPTH: u32 = 16;

/// The flat task list a statement list expands to: tasks are collected in
/// order; a command reference is substituted by the list bound to its name,
/// while the depth budget lasts; anything else is ignored.
pub open spec fn spec_expand(
    table: Map<Seq<char>, Seq<StmtModel>>,
    stmts: Seq<StmtModel>,
    depth: nat,
) -> Seq<TaskModel>
    decreases depth, stmts.len(),
{
    if stmts.len() == 0 {
        Seq::empty()
    } else {
        let head: Seq<TaskModel> = match stmts[0] {
            StmtModel::Task(t) => seq![t],
            StmtModel::Cmd(name) => if depth > 0 && table.contains_key(name) {
                spec_expand(table, table[name], (depth - 1) as nat)
            } else {
                Seq::empty()
            },
            _ => Seq::empty(),
        };
        head + spec_expand(table, stmts.drop_first(), depth)
    }
}

/// Appends the expansion of the given statements to `out`.
fn expand_stmts(table: &Keybinds, stmts: &Vec<ConfigStatment>, depth: u32, out: &mut Vec<CmdTask>)
    requires
        table.wf(),
    ensures
        tasks_view(final(out)@) == tasks_view(old(out)@) + spec_expand(
            table@,
            stmts_view(stmts@),
            depth as nat,
        ),
    decreases depth, stmts@.len(),
{
    let ghost sv = stmts_view(stmts@);
    proof {
        lemma_stmts_view(stmts@);
    }
    let mut i: usize = 0;
    proof {
        lemma_tasks_view(out@);
        assert(sv.skip(0) =~= sv);
        assert(tasks_view(out@) + Seq::<TaskModel>::empty() =~= tasks_view(out@));
        assert(spec_expand(table@, sv, depth as nat) == Seq::<TaskModel>::empty() + spec_expand(
            table@,
            sv.skip(0),
            depth as nat,
        ));
    }
    while i < stmts.len()
        invariant
            table.wf(),
            0 <= i <= stmts@.len(),
            sv == stmts_view(stmts@),
            sv.len() == stmts@.len(),
            forall|j: int| 0 <= j < stmts@.len() ==> sv[j] == #[trigger] stmts@[j]@,
            tasks_view(out@) + spec_expand(table@, sv.skip(i as int), depth as nat) == tasks_view(
                old(out)@,
            ) + spec_expand(table@, sv, depth as nat),
        decreases stmts@.len() - i,
    {
        let ghost rem = sv.skip(i as int);
        let ghost pre_out = out@;
        proof {
            assert(rem[0] == sv[i as int]);
            assert(sv[i as int] == stmts@[i as int]@);
            assert(rem.drop_first() =~= sv.skip(i + 1));
        }
        match &stmts[i] {
            ConfigStatment::Task(t) => {
                out.push(t.duplicate());
                proof {
                    lemma_tasks_view(pre_out);
                    lemma_tasks_view(out@);
                    assert(stmts@[i as int]@ == StmtModel::Task(t@));
                    assert forall|j: int| 0 <= j < out@.len() implies tasks_view(out@)[j] == (
                    tasks_view(pre_out) + seq![stmts@[i as int]@->Task_0])[j] by {
                        if j < pre_out.len() {
                            assert(out@[j] == pre_out[j]);
                            assert(tasks_view(out@)[j] == out@[j]@);
                            assert(tasks_view(pre_out)[j] == pre_out[j]@);
                        } else {
                            assert(tasks_view(out@)[j] == out@[j]@);
                            assert(out@[j]@ == t@);
                        }
                    }
                    assert(tasks_view(out@) =~= tasks_view(pre_out) + seq![
                        stmts@[i as int]@->Task_0,
                    ]);
                    assert(tasks_view(out@) + spec_expand(table@, sv.skip(i + 1), depth as nat)
                        =~= tasks_view(pre_out) + (seq![stmts@[i as int]@->Task_0] + spec_expand(
                        table@,
                        sv.skip(i + 1),
                        depth as nat,
                    )));
                }
            },
            ConfigStatment::Cmd(name) => {
                if depth > 0 {
                    match table.get(name.as_str()) {
                        Some(bound) => {
                            expand_stmts(table, bound, depth - 1, out);
                            proof {
                                assert(tasks_view(out@) =~= tasks_view(pre_out) + spec_expand(
                                    table@,
                                    table@[name@],
                                    (depth - 1) as nat,
                                ));
                                assert(tasks_view(out@) + spec_expand(
                                    table@,
                                    sv.skip(i + 1),
                                    depth as nat,
                                ) =~= tasks_view(pre_out) + (spec_expand(
                                    table@,
                                    table@[name@],
                                    (depth - 1) as nat,
                                ) + spec_expand(table@, sv.skip(i + 1), depth as nat)));
                            }
                        },
                        None => {
                            proof {
                                assert(Seq::<TaskModel>::empty() + spec_expand(
                                    table@,
                                    sv.skip(i + 1),
                                    depth as nat,
                                ) =~= spec_expand(table@, sv.skip(i + 1), depth as nat));
                            }
                        },
                    }
                } else {
                    proof {
                        assert(Seq::<TaskModel>::empty() + spec_expand(
                            table@,
                            sv.skip(i + 1),
                            depth as nat,
                        ) =~= spec_expand(table@, sv.skip(i + 1), depth as nat));
                    }
                }
            },
            _ => {
                proof {
                    assert(Seq::<TaskModel>::empty() + spec_expand(
                        table@,
                        sv.skip(i + 1),
                        depth as nat,
                    ) =~= spec_expand(table@, sv.skip(i + 1), depth as nat));
                }
            },
        }
        i += 1;
    }
    proof {
        assert(sv.skip(i as int) =~= Seq::<StmtModel>::empty());
        assert(spec_expand(table@, sv.skip(i as int), depth as nat) == Seq::<TaskModel>::empty());
        assert(tasks_view(out@) + Seq::<TaskModel>::empty() =~= tasks_view(out@));
    }
}

/// The chord string a capture buffer denotes: its tokens joined by `-`.
pub open spec fn joined_chord(toks: Seq<Seq<char>>) -> Seq<char>
    decreases toks.len(),
{
    if toks.len() == 0 {
        Seq::empty()
    } else if toks.len() == 1 {
        toks[0]
    } else {
        toks[0] + seq!['-'] + joined_chord(toks.drop_first())
    }
}

/// The keybind handler: the three keybind tables and the transient capture
/// state.
pub struct KeybindHandler {
    /// The modifier that opened the chord; empty while idle.
    pub initializer: String,
    /// Whether a chord capture is under way.
    pub listening: bool,
    /// The pressed-key display strings of the chord being captured.
    pub buffer: Vec<String>,
    bindings: IshtarConfiguration,
}

impl KeybindHandler {
    /// The keybind table of the given mode.
    pub closed spec fn table(&self, mode: int) -> Map<Seq<char>, Seq<StmtModel>> {
        self.bindings.keybinds[mode]@
    }

    /// The capture buffer's tokens.
    pub closed spec fn spec_buffer(&self) -> Seq<Seq<char>> {
        self.buffer@.map_values(|s: String| s@)
    }

    /// Whether a chord capture is under way.
    pub closed spec fn spec_listening(&self) -> bool {
        self.listening
    }

    /// The modifier that opened the running chord; empty while idle.
    pub closed spec fn spec_initializer(&self) -> Seq<char> {
        self.initializer@
    }

    /// Tables well formed; the capture buffer is non-empty only while
    /// listening.
    pub closed spec fn wf(&self) -> bool {
        &&& self.bindings.wf()
        &&& !self.listening ==> self.buffer@.len() == 0 && self.initializer@.len() == 0
    }

    /// A handler over the given configuration's tables, idle.
    pub fn new(bindings: IshtarConfiguration) -> (r: KeybindHandler)
        requires
            bindings.wf(),
        ensures
            r.wf(),
            !r.spec_listening(),
            r.spec_buffer().len() == 0,
            forall|m: int| 0 <= m < 3 ==> r.table(m) == bindings.keybinds[m]@,
    {
        KeybindHandler { initializer: String::new(), listening: false, buffer: Vec::new(), bindings }
    }

    /// Whether a chord capture is under way.
    pub fn is_listening(&self) -> (r: bool)
        ensures
            r == self.spec_listening(),
    {
        self.listening
    }

    /// Starts a chord with the given modifier and first key.
    pub fn start_listening(&mut self, key: String, modifier: String)
        requires
            old(self).wf(),
            !old(self).spec_listening(),
        ensures
            final(self).wf(),
            final(self).spec_listening(),
            final(self).spec_initializer() == modifier@,
            final(self).spec_buffer() =~= seq![modifier@, key@],
            forall|m: int| 0 <= m < 3 ==> final(self).table(m) == old(self).table(m),
    {
        self.listening = true;
        self.initializer = modifier.clone();
        self.buffer.push(modifier);
        self.buffer.push(key);
    }

    /// Ends the capture and clears the buffer.
    pub fn stop_listening(&mut self)
        requires
            old(self).wf(),
        ensures
            final(self).wf(),
            !final(self).spec_listening(),
            final(self).spec_initializer() == Seq::<char>::empty(),
            final(self).spec_buffer().len() == 0,
            forall|m: int| 0 <= m < 3 ==> final(self).table(m) == old(self).table(m),
    {
        self.buffer = Vec::new();
        self.initializer = String::new();
        self.listening = false;
    }

    /// Appends one pressed key to the chord while listening; ignored when
    /// idle.
    pub fn handle(&mut self, key: String)
        requires
            old(self).wf(),
        ensures
            final(self).wf(),
            final(self).spec_listening() == old(self).spec_listening(),
            old(self).spec_listening() ==> final(self).spec_buffer() =~= old(self).spec_buffer().push(
                key@,
            ),
            !old(self).spec_listening() ==> *final(self) == *old(self),
            forall|m: int| 0 <= m < 3 ==> final(self).table(m) == old(self).table(m),
    {
        if self.listening {
            self.buffer.push(key);
        }
    }

    /// The chord captured so far, its tokens joined by `-`.
    pub fn content(&self) -> (r: String)
        ensures
            r@ == joined_chord(self.spec_buffer()),
    {
        let mut r = String::new();
        let mut i: usize = 0;
        proof {
            assert(self.spec_buffer().skip(0) =~= self.spec_buffer());
        }
        while i < self.buffer.len()
            invariant
                0 <= i <= self.buffer@.len(),
                joined_chord(self.spec_buffer()) == r@ + joined_chord(
                    self.spec_buffer().skip(i as int),
                ),
            decreases self.buffer@.len() - i,
        {
            let ghost rem = self.spec_buffer().skip(i as int);
            proof {
                assert(rem[0] == self.spec_buffer()[i as int]);
                assert(rem.drop_first() =~= self.spec_buffer().skip(i + 1));
            }
            r.append(self.buffer[i].as_str());
            if i + 1 < self.buffer.len() {
                string_push(&mut r, '-');
                proof {
                    assert(r@ + joined_chord(self.spec_buffer().skip(i + 1)) =~= joined_chord(
                        self.spec_buffer(),
                    ));
                }
            } else {
                proof {
                    assert(rem.len() == 1);
                    assert(joined_chord(rem) == rem[0]);
                    assert(r@ + joined_chord(self.spec_buffer().skip(i + 1)) =~= joined_chord(
                        self.spec_buffer(),
                    ));
                }
            }
            i += 1;
        }
        proof {
            if self.buffer@.len() > 0 {
                assert(joined_chord(self.spec_buffer().skip(i as int)) =~= Seq::<char>::empty());
                assert(r@ + Seq::<char>::empty() =~= r@);
            }
        }
        r
    }

    /// Looks a chord up in the given mode's table and expands the bound
    /// statements into a flat task list; nothing when the chord is unbound.
    pub fn lookup_expand(&self, chord: &str, mode: usize) -> (r: Option<Vec<CmdTask>>)
        requires
            self.wf(),
            mode < 3,
        ensures
            match r {
                Some(v) => self.table(mode as int).contains_key(chord@) && tasks_view(v@)
                    == spec_expand(
                    self.table(mode as int),
                    self.table(mode as int)[chord@],
                    MAX_ALIAS_DEPTH as nat,
                ),
                None => !self.table(mode as int).contains_key(chord@),
            },
    {
        let table = &self.bindings.keybinds[mode];
        match table.get(chord) {
            Some(stmts) => {
                let mut out: Vec<CmdTask> = Vec::new();
                proof {
                    lemma_tasks_view(out@);
                    assert(tasks_view(out@) =~= Seq::<TaskModel>::empty());
                }
                expand_stmts(table, stmts, MAX_ALIAS_DEPTH, &mut out);
                proof {
                    assert(Seq::<TaskModel>::empty() + spec_expand(
                        table@,
                        stmts_view(stmts@),
                        MAX_ALIAS_DEPTH as nat,
                    ) =~= spec_expand(table@, stmts_view(stmts@), MAX_ALIAS_DEPTH as nat));
                }
                Some(out)
            },
            None => None,
        }
    }
}

/// A chord bound to a block of tasks executes exactly those tasks, in
/// order, and a chord bound to an alias of another binding executes what
/// that binding holds: alias expansion is transparent to the dispatcher.
pub proof fn lemma_alias_expansion_transparent(
    table: Map<Seq<char>, Seq<StmtModel>>,
    direct: Seq<char>,
    aliasing: Seq<char>,
    other: Seq<char>,
    a: TaskModel,
    b: TaskModel,
    c: TaskModel,
    depth: nat,
)
    requires
        table.contains_key(direct),
        table[direct] == seq![StmtModel::Task(a), StmtModel::Task(b)],
        table.contains_key(aliasing),
        table[aliasing] == seq![StmtModel::Cmd(other)],
        table.contains_key(other),
        table[other] == seq![StmtModel::Task(c)],
        depth >= 1,
    ensures
        spec_expand(table, table[direct], depth) == seq![a, b],
        spec_expand(table, table[aliasing], depth) == seq![c],
{
    let d = table[direct];
    assert(d.drop_first() =~= seq![StmtModel::Task(b)]);
    assert(d.drop_first().drop_first() =~= Seq::<StmtModel>::empty());
    assert(spec_expand(table, d.drop_first().drop_first(), depth) == Seq::<TaskModel>::empty());
    assert(spec_expand(table, d.drop_first(), depth) == seq![b] + Seq::<TaskModel>::empty());
    assert(seq![b] + Seq::<TaskModel>::empty() =~= seq![b]);
    assert(spec_expand(table, d, depth) == seq![a] + seq![b]);
    assert(seq![a] + seq![b] =~= seq![a, b]);
    let o = table[other];
    assert(o.drop_first() =~= Seq::<StmtModel>::empty());
    assert(spec_expand(table, Seq::<StmtModel>::empty(), (depth - 1) as nat)
        == Seq::<TaskModel>::empty());
    assert(spec_expand(table, o, (depth - 1) as nat) == seq![c] + Seq::<TaskModel>::empty());
    assert(seq![c] + Seq::<TaskModel>::empty() =~= seq![c]);
    let al = table[aliasing];
    assert(al.drop_first() =~= Seq::<StmtModel>::empty());
    assert(spec_expand(table, al, depth) == spec_expand(table, o, (depth - 1) as nat)
        + Seq::<TaskModel>::empty());
    assert(spec_expand(table, o, (depth - 1) as nat) + Seq::<TaskModel>::empty() =~= spec_expand(
        table,
        o,
        (depth - 1) as nat,
    ));
}

} // verus!
