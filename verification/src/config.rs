//! The configuration builder: walks the parsed statement tree and produces
//! three flat keybind tables (normal, modify, selection), each mapping a
//! chord string to the ordered list of statements bound to it.
//!
//! The tables are built once at configuration load and read-only afterwards;
//! a reload replaces them wholesale.

use vstd::prelude::*;

verus! {

use crate::parser::{
    ConfigStatment,
    StmtModel,
    stmts_view,
    lemma_stmts_view,
    spec_parse,
    parse_content,
};
use crate::errors::{IshtParseError, ErrModel};
use crate::text::str_eq;

/// Model of a configuration-builder error.
pub enum CfgErrModel {
    NotRecognizedGroup(Seq<char>),
    NotRecognizedKeybindMode(Seq<char>),
    ExpectedTasksBlock,
    InvalidStatment(StmtModel),
}

/// An error found while turning the statement tree into keybind tables.
#[derive(Debug)]
pub enum ConfigurationError {
    /// A top-level group other than `keybinds`.
    NotRecognizedGroup(String),
    /// A subgroup name other than the three editing modes.
    NotRecognizedKeybindMode(String),
    /// A group or subgroup whose body is not a block.
    ExpectedTasksBlock,
    /// A statement where a command declaration was expected.
    InvalidStatment(ConfigStatment),
}

impl View for ConfigurationError {
    type V = CfgErrModel;

    open spec fn view(&self) -> CfgErrModel {
        match self {
            ConfigurationError::NotRecognizedGroup(s) => CfgErrModel::NotRecognizedGroup(s@),
            ConfigurationError::NotRecognizedKeybindMode(s) => CfgErrModel::NotRecognizedKeybindMode(
                s@,
            ),
            ConfigurationError::ExpectedTasksBlock => CfgErrModel::ExpectedTasksBlock,
            ConfigurationError::InvalidStatment(s) => CfgErrModel::InvalidStatment(s@),
        }
    }
}

/// Why configuration loading failed: in the text, or in the tree's shape.
#[derive(Debug)]
pub enum ConfigError {
    Parse(IshtParseError),
    Config(ConfigurationError),
}

/// Model of a configuration-loading error.
pub enum CEModel {
    Parse(ErrModel),
    Config(CfgErrModel),
}

impl View for ConfigError {
    type V = CEModel;

    open spec fn view(&self) -> CEModel {
        match self {
            ConfigError::Parse(e) => CEModel::Parse(e@),
            ConfigError::Config(e) => CEModel::Config(e@),
        }
    }
}

/// One keybind table: a mapping from chord strings to the ordered statement
/// lists bound to them, stored as an association list with unique keys.
pub struct Keybinds {
    entries: Vec<(String, Vec<ConfigStatment>)>,
}

/// The mapping that an association list denotes; a later entry for the same
/// key overrides an earlier one.
spec fn table_model(es: Seq<(String, Vec<ConfigStatment>)>) -> Map<
    Seq<char>,
    Seq<StmtModel>,
>
    decreases es,
{
    if es.len() == 0 {
        Map::empty()
    } else {
        table_model(es.drop_last()).insert(es.last().0@, stmts_view(es.last().1@))
    }
}

/// Membership and lookup in the mapping, entry by entry, when keys are
/// unique.
proof fn lemma_table_model(es: Seq<(String, Vec<ConfigStatment>)>)
    ensures
        forall|k: Seq<char>|
            #[trigger] table_model(es).contains_key(k) <==> exists|i: int|
                0 <= i < es.len() && #[trigger] es[i].0@ == k,
        (forall|i: int, j: int|
            0 <= i < j < es.len() ==> es[i].0@ != es[j].0@) ==> forall|i: int|
            0 <= i < es.len() ==> table_model(es)[#[trigger] es[i].0@] == stmts_view(es[i].1@),
    decreases es.len(),
{
    if es.len() > 0 {
        lemma_table_model(es.drop_last());
        assert forall|k: Seq<char>| #[trigger] table_model(es).contains_key(k) implies exists|
            i: int,
        | 0 <= i < es.len() && #[trigger] es[i].0@ == k by {
            if k == es.last().0@ {
                assert(es[es.len() - 1].0@ == k);
            } else {
                assert(table_model(es.drop_last()).contains_key(k));
                let i = choose|i: int|
                    0 <= i < es.drop_last().len() && #[trigger] es.drop_last()[i].0@ == k;
                assert(es[i].0@ == k);
            }
        }
        assert forall|k: Seq<char>|
            (exists|i: int| 0 <= i < es.len() && #[trigger] es[i].0@ == k) implies #[trigger] table_model(
            es,
        ).contains_key(k) by {
            let i = choose|i: int| 0 <= i < es.len() && #[trigger] es[i].0@ == k;
            if i < es.len() - 1 {
                assert(es.drop_last()[i].0@ == k);
                assert(table_model(es.drop_last()).contains_key(k));
            } else {
                assert(k == es.last().0@);
            }
        }
        if forall|i: int, j: int| 0 <= i < j < es.len() ==> es[i].0@ != es[j].0@ {
            assert forall|i: int| 0 <= i < es.len() implies table_model(es)[#[trigger] es[i].0@]
                == stmts_view(es[i].1@) by {
                if i < es.len() - 1 {
                    assert(es.drop_last()[i].0@ == es[i].0@);
                    assert(es[i].0@ != es[es.len() - 1].0@);
                }
            }
        }
    }
}

impl Keybinds {
    /// Keys are unique, so each chord denotes one list.
    pub closed spec fn wf(&self) -> bool {
        forall|i: int, j: int|
            0 <= i < j < self.entries@.len() ==> self.entries@[i].0@ != self.entries@[j].0@
    }

    /// The mapping this table denotes.
    pub closed spec fn view(&self) -> Map<Seq<char>, Seq<StmtModel>> {
        table_model(self.entries@)
    }

    /// An empty table.
    pub fn new() -> (r: Keybinds)
        ensures
            r.wf(),
            r@ == Map::<Seq<char>, Seq<StmtModel>>::empty(),
    {
        Keybinds { entries: Vec::new() }
    }

    /// The position of a chord's entry, if it has one.
    fn find(&self, key: &str) -> (r: Option<usize>)
        ensures
            match r {
                Some(i) => i < self.entries@.len() && self.entries@[i as int].0@ == key@,
                None => forall|i: int|
                    0 <= i < self.entries@.len() ==> #[trigger] self.entries@[i].0@ != key@,
            },
    {
        let mut i: usize = 0;
        while i < self.entries.len()
            invariant
                0 <= i <= self.entries@.len(),
                forall|j: int| 0 <= j < i ==> #[trigger] self.entries@[j].0@ != key@,
            decreases self.entries@.len() - i,
        {
            if str_eq(self.entries[i].0.as_str(), key) {
                return Some(i);
            }
            i += 1;
        }
        None
    }

    /// Binds a chord to a statement list, replacing any earlier binding.
    pub fn insert(&mut self, key: String, val: Vec<ConfigStatment>)
        requires
            old(self).wf(),
        ensures
            final(self).wf(),
            final(self)@ == old(self)@.insert(key@, stmts_view(val@)),
    {
        proof {
            lemma_table_model(self.entries@);
        }
        match self.find(key.as_str()) {
            Some(i) => {
                let ghost old_es = self.entries@;
                let ghost kv = key@;
                let ghost vv = stmts_view(val@);
                self.entries[i] = (key, val);
                proof {
                    let new_es = self.entries@;
                    assert forall|a: int, b: int|
                        0 <= a < b < new_es.len() implies new_es[a].0@ != new_es[b].0@ by {
                        assert(old_es[a].0@ != old_es[b].0@);
                    }
                    lemma_table_model(new_es);
                    let m_old = table_model(old_es);
                    let m_new = table_model(new_es);
                    let target = m_old.insert(kv, vv);
                    assert(new_es[i as int].0@ == kv);
                    assert forall|k2: Seq<char>| #![auto] m_new.contains_key(k2)
                        == target.contains_key(k2) by {
                        if m_new.contains_key(k2) {
                            let j = choose|j: int|
                                0 <= j < new_es.len() && #[trigger] new_es[j].0@ == k2;
                            if j != i {
                                assert(old_es[j].0@ == k2);
                                assert(m_old.contains_key(k2));
                            }
                        }
                        if target.contains_key(k2) {
                            if k2 == kv {
                                assert(new_es[i as int].0@ == k2);
                                assert(m_new.contains_key(k2));
                            } else {
                                assert(m_old.contains_key(k2));
                                let j = choose|j: int|
                                    0 <= j < old_es.len() && #[trigger] old_es[j].0@ == k2;
                                assert(new_es[j].0@ == k2);
                                assert(m_new.contains_key(k2));
                            }
                        }
                    }
                    assert forall|k2: Seq<char>| #![auto] m_new.contains_key(k2) implies m_new[k2]
                        == target[k2] by {
                        if k2 == kv {
                            assert(m_new[new_es[i as int].0@] == stmts_view(
                                new_es[i as int].1@,
                            ));
                        } else {
                            let j = choose|j: int|
                                0 <= j < new_es.len() && #[trigger] new_es[j].0@ == k2;
                            assert(m_new[new_es[j].0@] == stmts_view(new_es[j].1@));
                            assert(old_es[j].0@ == k2);
                            assert(m_old[old_es[j].0@] == stmts_view(old_es[j].1@));
                        }
                    }
                    assert(m_new =~= target);
                }
            },
            None => {
                let ghost old_es = self.entries@;
                self.entries.push((key, val));
                proof {
                    assert(self.entries@.drop_last() =~= old_es);
                    assert forall|a: int, b: int|
                        0 <= a < b < self.entries@.len() implies self.entries@[a].0@
                        != self.entries@[b].0@ by {
                        if b < self.entries@.len() - 1 {
                            assert(old_es[a].0@ != old_es[b].0@);
                        } else {
                            assert(old_es[a].0@ != key@);
                        }
                    }
                }
            },
        }
    }

    /// The statement list bound to a chord, if any.
    pub fn get(&self, key: &str) -> (r: Option<&Vec<ConfigStatment>>)
        requires
            self.wf(),
        ensures
            match r {
                Some(v) => self@.contains_key(key@) && self@[key@] == stmts_view(v@),
                None => !self@.contains_key(key@),
            },
    {
        proof {
            lemma_table_model(self.entries@);
        }
        match self.find(key) {
            Some(i) => Some(&self.entries[i].1),
            None => None,
        }
    }
}

/// The three mode names denote three different tables.
proof fn lemma_mode_names_distinct()
    ensures
        "normal"@ != "modify"@,
        "normal"@ != "selection"@,
        "modify"@ != "selection"@,
{
    reveal_strlit("normal");
    reveal_strlit("modify");
    reveal_strlit("selection");
    assert("normal"@.len() == 6);
    assert("modify"@.len() == 6);
    assert("selection"@.len() == 9);
    assert("normal"@[0] == 'n');
    assert("modify"@[0] == 'm');
}

/// One mode's chord table, as a value.
pub type ChordTable = Map<Seq<char>, Seq<StmtModel>>;

/// The three mode tables as one value: normal, modify, selection.
pub type ModeTables = (ChordTable, ChordTable, ChordTable);

/// The list of statements a binding's right-hand side denotes: a block's
/// children verbatim, anything else as a one-element list.
pub open spec fn rhs_list(r: StmtModel) -> Seq<StmtModel> {
    match r {
        StmtModel::Block(ss) => ss,
        c => seq![c],
    }
}

/// Adds one subgroup's command declarations to a table, left to right; an
/// error carries the table as built up to the offending statement — there
/// is no rollback, the caller discards the tables on failure.
pub open spec fn spec_build_decls(decls: Seq<StmtModel>, acc: ChordTable) -> Result<
    ChordTable,
    (ChordTable, CfgErrModel),
>
    decreases decls.len(),
{
    if decls.len() == 0 {
        Ok(acc)
    } else {
        match decls[0] {
            StmtModel::CmdDecl { lhs, rhs } => spec_build_decls(
                decls.drop_first(),
                acc.insert(lhs, rhs_list(*rhs)),
            ),
            e => Err((acc, CfgErrModel::InvalidStatment(e))),
        }
    }
}

/// Fills one table from one subgroup's command declarations.
fn build_decls(decls: &Vec<ConfigStatment>, target: &mut Keybinds) -> (r: Result<
    (),
    ConfigurationError,
>)
    requires
        old(target).wf(),
    ensures
        final(target).wf(),
        match r {
            Ok(()) => spec_build_decls(stmts_view(decls@), old(target)@) == Ok::<
                ChordTable,
                (ChordTable, CfgErrModel),
            >(final(target)@),
            Err(e) => spec_build_decls(stmts_view(decls@), old(target)@) == Err::<
                ChordTable,
                (ChordTable, CfgErrModel),
            >((final(target)@, e@)),
        },
{
    let ghost dv = stmts_view(decls@);
    proof {
        lemma_stmts_view(decls@);
        assert(dv.subrange(0, dv.len() as int) =~= dv);
    }
    let mut k: usize = 0;
    while k < decls.len()
        invariant
            0 <= k <= decls@.len(),
            dv == stmts_view(decls@),
            dv.len() == decls@.len(),
            forall|j: int| 0 <= j < decls@.len() ==> dv[j] == #[trigger] decls@[j]@,
            target.wf(),
            spec_build_decls(dv, old(target)@) == spec_build_decls(
                dv.subrange(k as int, dv.len() as int),
                target@,
            ),
        decreases decls@.len() - k,
    {
        let ghost drem = dv.subrange(k as int, dv.len() as int);
        proof {
            assert(drem[0] == dv[k as int]);
            assert(dv[k as int] == decls@[k as int]@);
            assert(drem.drop_first() =~= dv.subrange(k + 1, dv.len() as int));
        }
        match &decls[k] {
            ConfigStatment::CmdDecl { lhs, rhs } => {
                let list: Vec<ConfigStatment> = match &**rhs {
                    ConfigStatment::Block(cmds) => {
                        let v = duplicate_stmts(cmds);
                        proof {
                            assert(rhs_list((**rhs)@) == stmts_view(cmds@));
                        }
                        v
                    },
                    c => {
                        let mut v: Vec<ConfigStatment> = Vec::new();
                        v.push(c.duplicate());
                        proof {
                            lemma_stmts_view(v@);
                            assert(stmts_view(v@) =~= seq![(**rhs)@]);
                            assert(rhs_list((**rhs)@) == seq![(**rhs)@]);
                        }
                        v
                    },
                };
                proof {
                    assert(dv[k as int] == (StmtModel::CmdDecl {
                        lhs: lhs@,
                        rhs: Box::new((**rhs)@),
                    }));
                }
                target.insert(lhs.clone(), list);
            },
            c => {
                return Err(ConfigurationError::InvalidStatment(c.duplicate()));
            },
        }
        k += 1;
    }
    proof {
        assert(dv.subrange(k as int, dv.len() as int) =~= Seq::<StmtModel>::empty());
    }
    Ok(())
}

/// The three tables after folding in each subgroup's declarations, left to
/// right; an error carries the tables as built up to the offending
/// statement.
pub open spec fn spec_build_subgroups(
    subs: Seq<StmtModel>,
    normal: ChordTable,
    modify: ChordTable,
    selection: ChordTable,
) -> Result<ModeTables, (ModeTables, CfgErrModel)>
    decreases subs.len(),
{
    if subs.len() == 0 {
        Ok((normal, modify, selection))
    } else {
        match subs[0] {
            StmtModel::SubGroup { name, data } => {
                if !(name == "normal"@ || name == "modify"@ || name == "selection"@) {
                    Err(((normal, modify, selection), CfgErrModel::NotRecognizedKeybindMode(name)))
                } else {
                    match *data {
                        StmtModel::Block(decls) => {
                            let target = if name == "normal"@ {
                                normal
                            } else if name == "modify"@ {
                                modify
                            } else {
                                selection
                            };
                            match spec_build_decls(decls, target) {
                                Ok(t2) => {
                                    let n2 = if name == "normal"@ {
                                        t2
                                    } else {
                                        normal
                                    };
                                    let m2 = if name == "modify"@ {
                                        t2
                                    } else {
                                        modify
                                    };
                                    let s2 = if name == "selection"@ {
                                        t2
                                    } else {
                                        selection
                                    };
                                    spec_build_subgroups(subs.drop_first(), n2, m2, s2)
                                },
                                Err((t2, e)) => {
                                    let n2 = if name == "normal"@ {
                                        t2
                                    } else {
                                        normal
                                    };
                                    let m2 = if name == "modify"@ {
                                        t2
                                    } else {
                                        modify
                                    };
                                    let s2 = if name == "selection"@ {
                                        t2
                                    } else {
                                        selection
                                    };
                                    Err(((n2, m2, s2), e))
                                },
                            }
                        },
                        _ => Err(
                            ((normal, modify, selection), CfgErrModel::ExpectedTasksBlock),
                        ),
                    }
                }
            },
            e => Err(((normal, modify, selection), CfgErrModel::InvalidStatment(e))),
        }
    }
}

/// Folds every group of the tree into the tables; only `keybinds` groups
/// are recognized; an error carries the tables as built so far.
pub open spec fn spec_build_groups(
    groups: Seq<StmtModel>,
    normal: ChordTable,
    modify: ChordTable,
    selection: ChordTable,
) -> Result<ModeTables, (ModeTables, CfgErrModel)>
    decreases groups.len(),
{
    if groups.len() == 0 {
        Ok((normal, modify, selection))
    } else {
        match groups[0] {
            StmtModel::Group { name, data } => {
                if name != "keybinds"@ {
                    Err(((normal, modify, selection), CfgErrModel::NotRecognizedGroup(name)))
                } else {
                    match *data {
                        StmtModel::Block(subs) => {
                            match spec_build_subgroups(subs, normal, modify, selection) {
                                Ok((n2, m2, s2)) => spec_build_groups(
                                    groups.drop_first(),
                                    n2,
                                    m2,
                                    s2,
                                ),
                                Err(te) => Err(te),
                            }
                        },
                        _ => Err(
                            ((normal, modify, selection), CfgErrModel::ExpectedTasksBlock),
                        ),
                    }
                }
            },
            e => Err(((normal, modify, selection), CfgErrModel::InvalidStatment(e))),
        }
    }
}

/// The three keybind tables of a configuration text: lexing, parsing and
/// building, or the first error of any stage.
pub open spec fn spec_config(cs: Seq<char>) -> Result<ModeTables, CEModel> {
    match spec_parse(cs) {
        Ok(tree) => match tree {
            StmtModel::Block(groups) => match spec_build_groups(
                groups,
                Map::empty(),
                Map::empty(),
                Map::empty(),
            ) {
                Ok(t) => Ok(t),
                Err((tables, e)) => Err(CEModel::Config(e)),
            },
            _ => Err(CEModel::Config(CfgErrModel::ExpectedTasksBlock)),
        },
        Err(e) => Err(CEModel::Parse(e)),
    }
}

/// The keybind tables of one editor session: normal, modify and selection
/// mode bindings, in that order.
pub struct IshtarConfiguration {
    pub keybinds: [Keybinds; 3],
}

impl IshtarConfiguration {
    /// All three tables have unique keys.
    pub open spec fn wf(&self) -> bool {
        &&& self.keybinds[0].wf()
        &&& self.keybinds[1].wf()
        &&& self.keybinds[2].wf()
    }

    /// Empty tables for all three modes: the default configuration.
    pub fn new() -> (r: IshtarConfiguration)
        ensures
            r.wf(),
            r.keybinds[0]@ == Map::<Seq<char>, Seq<StmtModel>>::empty(),
            r.keybinds[1]@ == Map::<Seq<char>, Seq<StmtModel>>::empty(),
            r.keybinds[2]@ == Map::<Seq<char>, Seq<StmtModel>>::empty(),
    {
        IshtarConfiguration { keybinds: [Keybinds::new(), Keybinds::new(), Keybinds::new()] }
    }

    /// Fills the three tables from one `keybinds` group's body.
    pub fn generate_from_keybinds_group(
        data: &ConfigStatment,
        normal: &mut Keybinds,
        modify: &mut Keybinds,
        selection: &mut Keybinds,
    ) -> (r: Result<(), ConfigurationError>)
        requires
            old(normal).wf(),
            old(modify).wf(),
            old(selection).wf(),
        ensures
            final(normal).wf(),
            final(modify).wf(),
            final(selection).wf(),
            ({
                let spec_r = match data@ {
                    StmtModel::Block(subs) => spec_build_subgroups(
                        subs,
                        old(normal)@,
                        old(modify)@,
                        old(selection)@,
                    ),
                    _ => Err(
                        (
                            (old(normal)@, old(modify)@, old(selection)@),
                            CfgErrModel::ExpectedTasksBlock,
                        ),
                    ),
                };
                match r {
                    Ok(()) => spec_r == Ok::<ModeTables, (ModeTables, CfgErrModel)>(
                        (final(normal)@, final(modify)@, final(selection)@),
                    ),
                    Err(e) => spec_r == Err::<ModeTables, (ModeTables, CfgErrModel)>(
                        ((final(normal)@, final(modify)@, final(selection)@), e@),
                    ),
                }
            }),
    {
        let subs = match data {
            ConfigStatment::Block(subs) => subs,
            _ => {
                return Err(ConfigurationError::ExpectedTasksBlock);
            },
        };
        let ghost sv = stmts_view(subs@);
        proof {
            lemma_stmts_view(subs@);
            assert(sv.subrange(0, sv.len() as int) =~= sv);
            assert(data@ == StmtModel::Block(sv));
        }
        let mut i: usize = 0;
        while i < subs.len()
            invariant
                0 <= i <= subs@.len(),
                data@ == StmtModel::Block(sv),
                sv == stmts_view(subs@),
                sv.len() == subs@.len(),
                forall|j: int| 0 <= j < subs@.len() ==> sv[j] == #[trigger] subs@[j]@,
                normal.wf(),
                modify.wf(),
                selection.wf(),
                spec_build_subgroups(sv, old(normal)@, old(modify)@, old(selection)@)
                    == spec_build_subgroups(
                    sv.subrange(i as int, sv.len() as int),
                    normal@,
                    modify@,
                    selection@,
                ),
            decreases subs@.len() - i,
        {
            let ghost rem = sv.subrange(i as int, sv.len() as int);
            proof {
                assert(rem[0] == sv[i as int]);
                assert(sv[i as int] == subs@[i as int]@);
                assert(rem.drop_first() =~= sv.subrange(i + 1, sv.len() as int));
            }
            match &subs[i] {
                ConfigStatment::SubGroup { name, data: body } => {
                    let is_normal = str_eq(name.as_str(), "normal");
                    let is_modify = str_eq(name.as_str(), "modify");
                    let is_selection = str_eq(name.as_str(), "selection");
                    if !(is_normal || is_modify || is_selection) {
                        return Err(ConfigurationError::NotRecognizedKeybindMode(name.clone()));
                    }
                    let decls = match &**body {
                        ConfigStatment::Block(decls) => decls,
                        _ => {
                            proof {
                                assert(!((**body)@ is Block));
                            }
                            return Err(ConfigurationError::ExpectedTasksBlock);
                        },
                    };
                    proof {
                        assert((**body)@ == StmtModel::Block(stmts_view(decls@)));
                    }
                    let ghost pre_n = normal@;
                    let ghost pre_m = modify@;
                    let ghost pre_s = selection@;
                    let built = if is_normal {
                        build_decls(decls, normal)
                    } else if is_modify {
                        build_decls(decls, modify)
                    } else {
                        build_decls(decls, selection)
                    };
                    match built {
                        Ok(()) => {
                            proof {
                                lemma_mode_names_distinct();
                                let su = rem[0];
                                assert(su == subs@[i as int]@);
                                assert(su is SubGroup);
                                assert(su->SubGroup_name == name@);
                                assert(*su->SubGroup_data == StmtModel::Block(
                                    stmts_view(decls@),
                                ));
                                if is_normal {
                                    assert(spec_build_decls(stmts_view(decls@), pre_n) == Ok::<
                                        ChordTable,
                                        (ChordTable, CfgErrModel),
                                    >(normal@));
                                } else if is_modify {
                                    assert(spec_build_decls(stmts_view(decls@), pre_m) == Ok::<
                                        ChordTable,
                                        (ChordTable, CfgErrModel),
                                    >(modify@));
                                } else {
                                    assert(spec_build_decls(stmts_view(decls@), pre_s) == Ok::<
                                        ChordTable,
                                        (ChordTable, CfgErrModel),
                                    >(selection@));
                                }
                                assert(rem.drop_first() =~= sv.subrange(i + 1, sv.len() as int));
                                reveal_with_fuel(spec_build_subgroups, 2);
                                assert(spec_build_subgroups(rem, pre_n, pre_m, pre_s)
                                    == spec_build_subgroups(
                                    rem.drop_first(),
                                    normal@,
                                    modify@,
                                    selection@,
                                ));
                                assert(spec_build_subgroups(rem, pre_n, pre_m, pre_s)
                                    == spec_build_subgroups(
                                    sv.subrange(i + 1, sv.len() as int),
                                    normal@,
                                    modify@,
                                    selection@,
                                ));
                            }
                        },
                        Err(e) => {
                            proof {
                                lemma_mode_names_distinct();
                                assert(rem[0] is SubGroup);
                                assert(rem[0]->SubGroup_name == name@);
                                assert(*rem[0]->SubGroup_data == StmtModel::Block(
                                    stmts_view(decls@),
                                ));
                                if is_normal {
                                    assert(spec_build_decls(stmts_view(decls@), pre_n) == Err::<
                                        ChordTable,
                                        (ChordTable, CfgErrModel),
                                    >((normal@, e@)));
                                } else if is_modify {
                                    assert(spec_build_decls(stmts_view(decls@), pre_m) == Err::<
                                        ChordTable,
                                        (ChordTable, CfgErrModel),
                                    >((modify@, e@)));
                                } else {
                                    assert(spec_build_decls(stmts_view(decls@), pre_s) == Err::<
                                        ChordTable,
                                        (ChordTable, CfgErrModel),
                                    >((selection@, e@)));
                                }
                                assert(spec_build_subgroups(rem, pre_n, pre_m, pre_s) == Err::<
                                    ModeTables,
                                    (ModeTables, CfgErrModel),
                                >(((normal@, modify@, selection@), e@)));
                            }
                            return Err(e);
                        },
                    }
                },
                c => {
                    return Err(ConfigurationError::InvalidStatment(c.duplicate()));
                },
            }
            i += 1;
        }
        proof {
            assert(sv.subrange(i as int, sv.len() as int) =~= Seq::<StmtModel>::empty());
        }
        Ok(())
    }

    /// Builds a configuration from configuration text: lexing, parsing and
    /// table building, or the first error of any stage.
    pub fn from_content(content: String) -> (r: Result<IshtarConfiguration, ConfigError>)
        ensures
            match r {
                Ok(cfg) => cfg.wf() && spec_config(content@) == Ok::<
                    (
                        Map<Seq<char>, Seq<StmtModel>>,
                        Map<Seq<char>, Seq<StmtModel>>,
                        Map<Seq<char>, Seq<StmtModel>>,
                    ),
                    CEModel,
                >((cfg.keybinds[0]@, cfg.keybinds[1]@, cfg.keybinds[2]@)),
                Err(e) => spec_config(content@) == Err::<
                    (
                        Map<Seq<char>, Seq<StmtModel>>,
                        Map<Seq<char>, Seq<StmtModel>>,
                        Map<Seq<char>, Seq<StmtModel>>,
                    ),
                    CEModel,
                >(e@),
            },
    {
        let tree = match parse_content(content.as_str()) {
            Ok(t) => t,
            Err(e) => {
                return Err(ConfigError::Parse(e));
            },
        };
        let groups = match tree {
            ConfigStatment::Block(groups) => groups,
            _ => {
                return Err(ConfigError::Config(ConfigurationError::ExpectedTasksBlock));
            },
        };
        let mut normal = Keybinds::new();
        let mut modify = Keybinds::new();
        let mut selection = Keybinds::new();
        let ghost gv = stmts_view(groups@);
        proof {
            lemma_stmts_view(groups@);
            assert(gv.subrange(0, gv.len() as int) =~= gv);
            assert(spec_parse(content@) == Ok::<StmtModel, ErrModel>(StmtModel::Block(gv)));
        }
        let mut i: usize = 0;
        while i < groups.len()
            invariant
                0 <= i <= groups@.len(),
                spec_parse(content@) == Ok::<StmtModel, ErrModel>(StmtModel::Block(gv)),
                gv == stmts_view(groups@),
                gv.len() == groups@.len(),
                forall|j: int| 0 <= j < groups@.len() ==> gv[j] == #[trigger] groups@[j]@,
                normal.wf(),
                modify.wf(),
                selection.wf(),
                spec_build_groups(
                    gv,
                    Map::<Seq<char>, Seq<StmtModel>>::empty(),
                    Map::<Seq<char>, Seq<StmtModel>>::empty(),
                    Map::<Seq<char>, Seq<StmtModel>>::empty(),
                ) == spec_build_groups(
                    gv.subrange(i as int, gv.len() as int),
                    normal@,
                    modify@,
                    selection@,
                ),
            decreases groups@.len() - i,
        {
            let ghost rem = gv.subrange(i as int, gv.len() as int);
            proof {
                assert(rem[0] == gv[i as int]);
                assert(gv[i as int] == groups@[i as int]@);
                assert(rem.drop_first() =~= gv.subrange(i + 1, gv.len() as int));
            }
            match &groups[i] {
                ConfigStatment::Group { name, data } => {
                    if !str_eq(name.as_str(), "keybinds") {
                        return Err(
                            ConfigError::Config(
                                ConfigurationError::NotRecognizedGroup(name.clone()),
                            ),
                        );
                    }
                    match Self::generate_from_keybinds_group(
                        &**data,
                        &mut normal,
                        &mut modify,
                        &mut selection,
                    ) {
                        Ok(()) => {},
                        Err(e) => {
                            return Err(ConfigError::Config(e));
                        },
                    }
                },
                c => {
                    return Err(
                        ConfigError::Config(ConfigurationError::InvalidStatment(c.duplicate())),
                    );
                },
            }
            i += 1;
        }
        proof {
            assert(gv.subrange(i as int, gv.len() as int) =~= Seq::<StmtModel>::empty());
        }
        Ok(IshtarConfiguration { keybinds: [normal, modify, selection] })
    }
}

/// Copies of the given statements, with the same models.
fn duplicate_stmts(ss: &Vec<ConfigStatment>) -> (r: Vec<ConfigStatment>)
    ensures
        stmts_view(r@) == stmts_view(ss@),
{
    let mut copy: Vec<ConfigStatment> = Vec::new();
    let mut i: usize = 0;
    while i < ss.len()
        invariant
            0 <= i <= ss@.len(),
            copy@.len() == i,
            forall|j: int| 0 <= j < i ==> copy@[j]@ == #[trigger] ss@[j]@,
        decreases ss@.len() - i,
    {
        copy.push(ss[i].duplicate());
        i += 1;
    }
    proof {
        lemma_stmts_view(copy@);
        lemma_stmts_view(ss@);
        assert forall|j: int| 0 <= j < copy@.len() implies stmts_view(copy@)[j] == stmts_view(ss@)[j]
        by {
            assert(copy@[j]@ == ss@[j]@);
        }
        assert(stmts_view(copy@) =~= stmts_view(ss@));
    }
    copy
}

} // verus!
