//! The parser: a recursive-descent consumer of the token stream that builds
//! a statement tree of groups, subgroups, command declarations and blocks.
//!
//! Reserved calls (`ExecCmd`, `ExecPrompt`, `Write` with a string argument;
//! `MoveToLine`, `MoveToRow` with a number) demand `name -> literal`; a
//! reserved name anywhere else is rejected. A bare identifier that is not a
//! recognized task becomes an unresolved command reference, looked up as an
//! alias at dispatch time. The first error aborts parsing.

use vstd::prelude::*;

verus! {

use crate::tasks::{CmdTask, TaskModel, task_for_name};
use crate::errors::{IshtParseError, ErrModel};
use crate::lexer::{ConfigToken, Tok, toks_view, lemma_toks_view, spec_lex, lex_content};
use crate::text::str_eq;

/// One node of the configuration statement tree.
#[derive(Debug, PartialEq)]
pub enum ConfigStatment {
    Group { name: String, data: Box<ConfigStatment> },
    SubGroup { name: String, data: Box<ConfigStatment> },
    CmdDecl { lhs: String, rhs: Box<ConfigStatment> },
    Block(Vec<ConfigStatment>),
    Task(CmdTask),
    Color(u32),
    Cmd(String),
}

/// Model of a statement: string payloads seen as character sequences, tasks
/// as their models.
pub enum StmtModel {
    Group { name: Seq<char>, data: Box<StmtModel> },
    SubGroup { name: Seq<char>, data: Box<StmtModel> },
    CmdDecl { lhs: Seq<char>, rhs: Box<StmtModel> },
    Block(Seq<StmtModel>),
    Task(TaskModel),
    Color(u32),
    Cmd(Seq<char>),
}

/// The models of a sequence of statements, elementwise.
pub open spec fn stmts_view(ss: Seq<ConfigStatment>) -> Seq<StmtModel>
    decreases ss,
{
    if ss.len() == 0 {
        Seq::empty()
    } else {
        seq![ss[0]@] + stmts_view(ss.drop_first())
    }
}

impl View for ConfigStatment {
    type V = StmtModel;

    open spec fn view(&self) -> StmtModel
        decreases self,
    {
        match self {
            ConfigStatment::Group { name, data } => StmtModel::Group {
                name: name@,
                data: Box::new((**data)@),
            },
            ConfigStatment::SubGroup { name, data } => StmtModel::SubGroup {
                name: name@,
                data: Box::new((**data)@),
            },
            ConfigStatment::CmdDecl { lhs, rhs } => StmtModel::CmdDecl {
                lhs: lhs@,
                rhs: Box::new((**rhs)@),
            },
            ConfigStatment::Block(ss) => StmtModel::Block(stmts_view(ss@)),
            ConfigStatment::Task(t) => StmtModel::Task(t@),
            ConfigStatment::Color(c) => StmtModel::Color(*c),
            ConfigStatment::Cmd(s) => StmtModel::Cmd(s@),
        }
    }
}

impl ConfigStatment {
    /// A copy of this statement with the same model.
    #[verifier::loop_isolation(false)]
    pub fn duplicate(&self) -> (r: ConfigStatment)
        ensures
            r@ == self@,
        decreases self@,
    {
        match self {
            ConfigStatment::Group { name, data } => {
                proof {
                    assert(decreases_to!(self@ => self@->Group_data));
                }
                ConfigStatment::Group {
                    name: name.clone(),
                    data: Box::new((&**data).duplicate()),
                }
            },
            ConfigStatment::SubGroup { name, data } => {
                proof {
                    assert(decreases_to!(self@ => self@->SubGroup_data));
                }
                ConfigStatment::SubGroup {
                    name: name.clone(),
                    data: Box::new((&**data).duplicate()),
                }
            },
            ConfigStatment::CmdDecl { lhs, rhs } => {
                proof {
                    assert(decreases_to!(self@ => self@->CmdDecl_rhs));
                }
                ConfigStatment::CmdDecl {
                    lhs: lhs.clone(),
                    rhs: Box::new((&**rhs).duplicate()),
                }
            },
            ConfigStatment::Block(ss) => {
                let mut copy: Vec<ConfigStatment> = Vec::new();
                let mut i: usize = 0;
                while i < ss.len()
                    invariant
                        0 <= i <= ss@.len(),
                        copy@.len() == i,
                        forall|j: int| 0 <= j < i ==> copy@[j]@ == #[trigger] ss@[j]@,
                    decreases ss@.len() - i,
                {
                    proof {
                        lemma_stmts_view(ss@);
                        assert(decreases_to!(self@ => self@->Block_0));
                        assert(decreases_to!(self@->Block_0 => self@->Block_0[i as int]));
                        assert(self@->Block_0[i as int] == ss@[i as int]@);
                    }
                    copy.push(ss[i].duplicate());
                    i += 1;
                }
                proof {
                    lemma_stmts_view(copy@);
                    lemma_stmts_view(ss@);
                    assert forall|j: int| 0 <= j < copy@.len() implies stmts_view(copy@)[j]
                        == stmts_view(ss@)[j] by {
                        assert(copy@[j]@ == ss@[j]@);
                    }
                    assert(stmts_view(copy@) =~= stmts_view(ss@));
                }
                ConfigStatment::Block(copy)
            },
            ConfigStatment::Task(t) => ConfigStatment::Task(t.duplicate()),
            ConfigStatment::Color(c) => ConfigStatment::Color(*c),
            ConfigStatment::Cmd(s) => ConfigStatment::Cmd(s.clone()),
        }
    }
}

/// `stmts_view` maps the view over the sequence, index by index.
pub proof fn lemma_stmts_view(ss: Seq<ConfigStatment>)
    ensures
        stmts_view(ss).len() == ss.len(),
        forall|i: int| 0 <= i < ss.len() ==> stmts_view(ss)[i] == #[trigger] ss[i]@,
    decreases ss.len(),
{
    if ss.len() > 0 {
        lemma_stmts_view(ss.drop_first());
        assert(stmts_view(ss) == seq![ss[0]@] + stmts_view(ss.drop_first()));
        assert forall|i: int| 0 <= i < ss.len() implies stmts_view(ss)[i] == ss[i]@ by {
            if i > 0 {
                assert(stmts_view(ss.drop_first())[i - 1] == ss.drop_first()[i - 1]@);
                assert(ss.drop_first()[i - 1] == ss[i]);
            } else {
                assert(stmts_view(ss)[0] == seq![ss[0]@][0]);
            }
        }
    }
}

/// Putting a statement at the front puts its model at the front.
pub proof fn lemma_stmts_view_cons(x: ConfigStatment, ss: Seq<ConfigStatment>)
    ensures
        stmts_view(ss.insert(0, x)) == seq![x@] + stmts_view(ss),
{
    lemma_stmts_view(ss);
    lemma_stmts_view(ss.insert(0, x));
    assert forall|i: int| 0 <= i < ss.insert(0, x).len() implies stmts_view(ss.insert(0, x))[i]
        == (seq![x@] + stmts_view(ss))[i] by {
        assert(stmts_view(ss.insert(0, x))[i] == ss.insert(0, x)[i]@);
        if i > 0 {
            assert(ss.insert(0, x)[i] == ss[i - 1]);
            assert(stmts_view(ss)[i - 1] == ss[i - 1]@);
        }
    }
    assert(stmts_view(ss.insert(0, x)) =~= seq![x@] + stmts_view(ss));
}

/// The tokens from position `n` on; empty when `n` is out of range.
pub open spec fn toks_from(ts: Seq<Tok>, n: int) -> Seq<Tok> {
    if 0 <= n <= ts.len() {
        ts.subrange(n, ts.len() as int)
    } else {
        Seq::empty()
    }
}

/// Dropping `n` more tokens from a remainder drops them from the stream.
pub proof fn lemma_toks_shift(ts: Seq<Tok>, i: int, n: int)
    requires
        0 <= i <= ts.len(),
        0 <= n,
    ensures
        toks_from(toks_from(ts, i), n) == toks_from(ts, i + n),
{
    assert(toks_from(toks_from(ts, i), n) =~= toks_from(ts, i + n));
}

/// The reserved names that demand a string argument.
pub open spec fn reserved_str_name(s: Seq<char>) -> bool {
    s == "ExecCmd"@ || s == "ExecPrompt"@ || s == "Write"@
}

/// The reserved names that demand a number argument.
pub open spec fn reserved_num_name(s: Seq<char>) -> bool {
    s == "MoveToLine"@ || s == "MoveToRow"@
}

/// The names that may only stand as reserved calls.
pub open spec fn reserved_name(s: Seq<char>) -> bool {
    reserved_str_name(s) || reserved_num_name(s)
}

/// The task that a reserved call with a string argument denotes.
pub open spec fn str_call_task(s: Seq<char>, content: Seq<char>) -> TaskModel {
    if s == "ExecCmd"@ {
        TaskModel::ExecCmd(content)
    } else if s == "ExecPrompt"@ {
        TaskModel::ExecutePrompt(content)
    } else {
        TaskModel::Write(content)
    }
}

/// The task that a reserved call with a number argument denotes.
pub open spec fn num_call_task(s: Seq<char>, n: u32) -> TaskModel {
    if s == "MoveToLine"@ {
        TaskModel::MoveToLine(n)
    } else {
        TaskModel::MoveToRow(n)
    }
}

/// The statement an identifier denotes where a single task may stand, and
/// how many further tokens its reserved-call arguments consume: a reserved
/// call takes its arrow and literal, a recognized task or an alias reference
/// takes nothing.
pub open spec fn spec_ident_stmt(s: Seq<char>, toks: Seq<Tok>) -> Result<(StmtModel, nat), ErrModel> {
    if reserved_str_name(s) {
        if !(toks.len() >= 1 && toks[0] is Arrow) {
            Err(ErrModel::ExpectingArrow(s))
        } else if !(toks.len() >= 2 && toks[1] is StrLit) {
            Err(ErrModel::MissingStringParameter)
        } else {
            Ok((StmtModel::Task(str_call_task(s, toks[1]->StrLit_0)), 2))
        }
    } else if reserved_num_name(s) {
        if !(toks.len() >= 1 && toks[0] is Arrow) {
            Err(ErrModel::ExpectingArrow(s))
        } else if !(toks.len() >= 2 && toks[1] is Num) {
            Err(ErrModel::MissingNumParameter)
        } else {
            Ok((StmtModel::Task(num_call_task(s, toks[1]->Num_0)), 2))
        }
    } else {
        match task_for_name(s) {
            Some(t) => Ok((StmtModel::Task(t@), 0)),
            None => Ok((StmtModel::Cmd(s), 0)),
        }
    }
}

/// The statements of a braces-delimited block and the tokens consumed,
/// closing brace included.
pub open spec fn spec_parse_block(toks: Seq<Tok>) -> Result<(Seq<StmtModel>, nat), ErrModel>
    decreases toks.len(),
{
    if toks.len() == 0 {
        Err(ErrModel::ReachedEOF)
    } else {
        let t = toks[0];
        match t {
            Tok::CloseBrace => Ok((Seq::empty(), 1)),
            Tok::Ident(s) => match spec_ident_stmt(s, toks_from(toks, 1)) {
                Ok((stmt, used)) => match spec_parse_block(toks_from(toks, 1 + used as int)) {
                    Ok((stmts, n)) => Ok((seq![stmt] + stmts, 1 + used + n)),
                    Err(e) => Err(e),
                },
                Err(e) => Err(e),
            },
            Tok::Task(tm) => match spec_parse_block(toks_from(toks, 1)) {
                Ok((stmts, n)) => Ok((seq![StmtModel::Task(tm)] + stmts, 1 + n)),
                Err(e) => Err(e),
            },
            Tok::OpenBrace => match spec_parse_block(toks_from(toks, 1)) {
                Ok((inner, n1)) => match spec_parse_block(toks_from(toks, 1 + n1 as int)) {
                    Ok((stmts, n2)) => Ok(
                        (seq![StmtModel::Block(inner)] + stmts, 1 + n1 + n2),
                    ),
                    Err(e) => Err(e),
                },
                Err(e) => Err(e),
            },
            _ => Err(ErrModel::InvalidTokenPosition(t)),
        }
    }
}

/// The command declarations of one subgroup and the tokens consumed; stops
/// before the next group or subgroup header.
pub open spec fn spec_parse_decls(toks: Seq<Tok>) -> Result<(Seq<StmtModel>, nat), ErrModel>
    decreases toks.len(),
{
    if toks.len() == 0 {
        Ok((Seq::empty(), 0))
    } else {
        let t = toks[0];
        match t {
            Tok::Group(_) => Ok((Seq::empty(), 0)),
            Tok::SubGroup(_) => Ok((Seq::empty(), 0)),
            Tok::Ident(lhs) => {
                if reserved_name(lhs) {
                    Err(ErrModel::WrongUseofReserved)
                } else if !(toks.len() >= 2 && toks[1] is Eq) {
                    Err(ErrModel::ExpectingEq)
                } else if toks.len() < 3 {
                    Err(ErrModel::ReachedEOF)
                } else {
                    match toks[2] {
                        Tok::OpenBrace => match spec_parse_block(toks_from(toks, 3)) {
                            Ok((inner, n1)) => match spec_parse_decls(
                                toks_from(toks, 3 + n1 as int),
                            ) {
                                Ok((stmts, n)) => Ok(
                                    (
                                        seq![
                                            StmtModel::CmdDecl {
                                                lhs,
                                                rhs: Box::new(StmtModel::Block(inner)),
                                            },
                                        ] + stmts,
                                        3 + n1 + n,
                                    ),
                                ),
                                Err(e) => Err(e),
                            },
                            Err(e) => Err(e),
                        },
                        Tok::Ident(s) => match spec_ident_stmt(s, toks_from(toks, 3)) {
                            Ok((stmt, used)) => match spec_parse_decls(
                                toks_from(toks, 3 + used as int),
                            ) {
                                Ok((stmts, n)) => Ok(
                                    (
                                        seq![StmtModel::CmdDecl { lhs, rhs: Box::new(stmt) }]
                                            + stmts,
                                        3 + used + n,
                                    ),
                                ),
                                Err(e) => Err(e),
                            },
                            Err(e) => Err(e),
                        },
                        Tok::Task(tm) => match spec_parse_decls(toks_from(toks, 3)) {
                            Ok((stmts, n)) => Ok(
                                (
                                    seq![
                                        StmtModel::CmdDecl {
                                            lhs,
                                            rhs: Box::new(StmtModel::Task(tm)),
                                        },
                                    ] + stmts,
                                    3 + n,
                                ),
                            ),
                            Err(e) => Err(e),
                        },
                        _ => Err(ErrModel::InvalidTokenPosition(toks[2])),
                    }
                }
            },
            _ => Err(ErrModel::InvalidTokenPosition(t)),
        }
    }
}

/// The subgroups of one group and the tokens consumed; stops before the next
/// group header or the end.
pub open spec fn spec_parse_subgroups(toks: Seq<Tok>) -> Result<(Seq<StmtModel>, nat), ErrModel>
    decreases toks.len(),
{
    if toks.len() == 0 {
        Ok((Seq::empty(), 0))
    } else {
        match toks[0] {
            Tok::SubGroup(name) => match spec_parse_decls(toks_from(toks, 1)) {
                Ok((decls, n)) => match spec_parse_subgroups(toks_from(toks, 1 + n as int)) {
                    Ok((subs, m)) => Ok(
                        (
                            seq![
                                StmtModel::SubGroup {
                                    name,
                                    data: Box::new(StmtModel::Block(decls)),
                                },
                            ] + subs,
                            1 + n + m,
                        ),
                    ),
                    Err(e) => Err(e),
                },
                Err(e) => Err(e),
            },
            _ => Ok((Seq::empty(), 0)),
        }
    }
}

/// The groups of a whole token stream.
pub open spec fn spec_parse_groups(toks: Seq<Tok>) -> Result<Seq<StmtModel>, ErrModel>
    decreases toks.len(),
{
    if toks.len() == 0 {
        Ok(Seq::empty())
    } else {
        match toks[0] {
            Tok::Group(name) => match spec_parse_subgroups(toks_from(toks, 1)) {
                Ok((subs, n)) => match spec_parse_groups(toks_from(toks, 1 + n as int)) {
                    Ok(groups) => Ok(
                        seq![StmtModel::Group { name, data: Box::new(StmtModel::Block(subs)) }]
                            + groups,
                    ),
                    Err(e) => Err(e),
                },
                Err(e) => Err(e),
            },
            t => Err(ErrModel::BlockExpected(t)),
        }
    }
}

/// The statement tree of raw configuration text: lexing followed by parsing.
/// Its shape is always a block of groups.
pub open spec fn spec_parse(cs: Seq<char>) -> Result<StmtModel, ErrModel> {
    match spec_lex(cs) {
        Ok(toks) => match spec_parse_groups(toks) {
            Ok(groups) => Ok(StmtModel::Block(groups)),
            Err(e) => Err(e),
        },
        Err(e) => Err(e),
    }
}

/// A block statement holding the given statements.
fn mk_block(items: Vec<ConfigStatment>) -> (r: ConfigStatment)
    ensures
        r@ == StmtModel::Block(stmts_view(items@)),
{
    ConfigStatment::Block(items)
}

/// A command declaration binding a chord to its right-hand side.
fn mk_cmd_decl(lhs: String, rhs: ConfigStatment) -> (r: ConfigStatment)
    ensures
        r@ == (StmtModel::CmdDecl { lhs: lhs@, rhs: Box::new(rhs@) }),
{
    ConfigStatment::CmdDecl { lhs, rhs: Box::new(rhs) }
}

/// A subgroup statement holding one mode's declarations.
fn mk_subgroup(name: String, data: ConfigStatment) -> (r: ConfigStatment)
    ensures
        r@ == (StmtModel::SubGroup { name: name@, data: Box::new(data@) }),
{
    ConfigStatment::SubGroup { name, data: Box::new(data) }
}

/// A group statement holding its subgroups.
fn mk_group(name: String, data: ConfigStatment) -> (r: ConfigStatment)
    ensures
        r@ == (StmtModel::Group { name: name@, data: Box::new(data@) }),
{
    ConfigStatment::Group { name, data: Box::new(data) }
}

/// The statement an identifier denotes where a single task may stand,
/// consuming the arrow and literal of a reserved call from position `pos`.
fn parse_ident_stmt(name: &String, toks: &Vec<ConfigToken>, pos: usize) -> (r: Result<
    (ConfigStatment, usize),
    IshtParseError,
>)
    requires
        pos <= toks@.len(),
    ensures
        match r {
            Ok((stmt, np)) => pos <= np <= toks@.len() && spec_ident_stmt(
                name@,
                toks_from(toks_view(toks@), pos as int),
            ) == Ok::<(StmtModel, nat), ErrModel>((stmt@, (np - pos) as nat)),
            Err(e) => spec_ident_stmt(name@, toks_from(toks_view(toks@), pos as int)) == Err::<
                (StmtModel, nat),
                ErrModel,
            >(e@),
        },
{
    let ghost tv = toks_view(toks@);
    let ghost rem = toks_from(tv, pos as int);
    proof {
        lemma_toks_view(toks@);
    }
    let is_str_call = str_eq(name.as_str(), "ExecCmd") || str_eq(name.as_str(), "ExecPrompt")
        || str_eq(name.as_str(), "Write");
    let is_num_call = str_eq(name.as_str(), "MoveToLine") || str_eq(name.as_str(), "MoveToRow");
    if is_str_call || is_num_call {
        proof {
            if pos < toks@.len() {
                assert(rem[0] == tv[pos as int]);
                assert(tv[pos as int] == toks@[pos as int]@);
            }
            if pos + 1 < toks@.len() {
                assert(rem[1] == tv[pos + 1]);
                assert(tv[pos + 1] == toks@[pos + 1]@);
            }
        }
        let has_arrow = pos < toks.len() && matches!(&toks[pos], ConfigToken::Arrow);
        if !has_arrow {
            return Err(IshtParseError::ExpectingArrow(name.clone()));
        }
        if is_str_call {
            if pos + 1 < toks.len() {
                if let ConfigToken::Str(content) = &toks[pos + 1] {
                    let task = if str_eq(name.as_str(), "ExecCmd") {
                        CmdTask::ExecCmd(content.clone())
                    } else if str_eq(name.as_str(), "ExecPrompt") {
                        CmdTask::ExecutePrompt(content.clone())
                    } else {
                        CmdTask::Write(content.clone())
                    };
                    return Ok((ConfigStatment::Task(task), pos + 2));
                }
            }
            Err(IshtParseError::MissingStringParameter)
        } else {
            if pos + 1 < toks.len() {
                if let ConfigToken::Num(n) = &toks[pos + 1] {
                    let task = if str_eq(name.as_str(), "MoveToLine") {
                        CmdTask::MoveToLine(*n)
                    } else {
                        CmdTask::MoveToRow(*n)
                    };
                    return Ok((ConfigStatment::Task(task), pos + 2));
                }
            }
            Err(IshtParseError::MissingNumParameter)
        }
    } else {
        match CmdTask::new(name.as_str()) {
            Ok(t) => Ok((ConfigStatment::Task(t), pos)),
            Err(_) => Ok((ConfigStatment::Cmd(name.clone()), pos)),
        }
    }
}

/// Parses the contents of a braces-delimited block, the opening brace
/// already consumed; consumes through the matching closing brace.
pub fn parse_block(toks: &Vec<ConfigToken>, pos: usize) -> (r: Result<
    (Vec<ConfigStatment>, usize),
    IshtParseError,
>)
    requires
        pos <= toks@.len(),
    ensures
        match r {
            Ok((stmts, np)) => pos <= np <= toks@.len() && spec_parse_block(
                toks_from(toks_view(toks@), pos as int),
            ) == Ok::<(Seq<StmtModel>, nat), ErrModel>((stmts_view(stmts@), (np - pos) as nat)),
            Err(e) => spec_parse_block(toks_from(toks_view(toks@), pos as int)) == Err::<
                (Seq<StmtModel>, nat),
                ErrModel,
            >(e@),
        },
    decreases toks@.len() - pos,
{
    let ghost tv = toks_view(toks@);
    let ghost rem = toks_from(tv, pos as int);
    proof {
        lemma_toks_view(toks@);
    }
    if pos == toks.len() {
        return Err(IshtParseError::ReachedEOF);
    }
    proof {
        assert(rem[0] == tv[pos as int]);
        assert(tv[pos as int] == toks@[pos as int]@);
    }
    match &toks[pos] {
        ConfigToken::CloseBrace => {
            proof {
                assert(stmts_view(Seq::<ConfigStatment>::empty()) =~= Seq::<StmtModel>::empty());
            }
            Ok((Vec::new(), pos + 1))
        },
        ConfigToken::Identifier(s) => {
            let (stmt, np) = match parse_ident_stmt(s, toks, pos + 1) {
                Ok(x) => x,
                Err(e) => {
                    proof {
                        lemma_toks_shift(tv, pos as int, 1);
                    }
                    return Err(e);
                },
            };
            proof {
                lemma_toks_shift(tv, pos as int, 1);
                lemma_toks_shift(tv, pos as int, np - pos);
            }
            match parse_block(toks, np) {
                Ok((mut stmts, np2)) => {
                    proof {
                        lemma_stmts_view_cons(stmt, stmts@);
                    }
                    stmts.insert(0, stmt);
                    Ok((stmts, np2))
                },
                Err(e) => Err(e),
            }
        },
        ConfigToken::Task(t) => {
            proof {
                lemma_toks_shift(tv, pos as int, 1);
            }
            let stmt = ConfigStatment::Task(t.duplicate());
            match parse_block(toks, pos + 1) {
                Ok((mut stmts, np2)) => {
                    proof {
                        lemma_stmts_view_cons(stmt, stmts@);
                    }
                    stmts.insert(0, stmt);
                    Ok((stmts, np2))
                },
                Err(e) => Err(e),
            }
        },
        ConfigToken::OpenBrace => {
            proof {
                lemma_toks_shift(tv, pos as int, 1);
            }
            let (inner, np1) = match parse_block(toks, pos + 1) {
                Ok(x) => x,
                Err(e) => {
                    return Err(e);
                },
            };
            proof {
                lemma_toks_shift(tv, pos as int, np1 - pos);
            }
            let stmt = mk_block(inner);
            match parse_block(toks, np1) {
                Ok((mut stmts, np2)) => {
                    proof {
                        lemma_stmts_view_cons(stmt, stmts@);
                    }
                    stmts.insert(0, stmt);
                    Ok((stmts, np2))
                },
                Err(e) => Err(e),
            }
        },
        t => Err(IshtParseError::InvalidTokenPosition(duplicate_token(t))),
    }
}

/// An equal copy of a token, for carrying one into an error.
fn duplicate_token(t: &ConfigToken) -> (r: ConfigToken)
    ensures
        r@ == t@,
{
    match t {
        ConfigToken::Group(s) => ConfigToken::Group(s.clone()),
        ConfigToken::SubGroup(s) => ConfigToken::SubGroup(s.clone()),
        ConfigToken::OpenBrace => ConfigToken::OpenBrace,
        ConfigToken::CloseBrace => ConfigToken::CloseBrace,
        ConfigToken::Task(t) => ConfigToken::Task(t.duplicate()),
        ConfigToken::Identifier(s) => ConfigToken::Identifier(s.clone()),
        ConfigToken::Arrow => ConfigToken::Arrow,
        ConfigToken::Num(n) => ConfigToken::Num(*n),
        ConfigToken::Str(s) => ConfigToken::Str(s.clone()),
        ConfigToken::Eq => ConfigToken::Eq,
    }
}

/// Parses the command declarations of one subgroup, stopping before the next
/// group or subgroup header.
fn parse_decls(toks: &Vec<ConfigToken>, pos: usize) -> (r: Result<
    (Vec<ConfigStatment>, usize),
    IshtParseError,
>)
    requires
        pos <= toks@.len(),
    ensures
        match r {
            Ok((stmts, np)) => pos <= np <= toks@.len() && spec_parse_decls(
                toks_from(toks_view(toks@), pos as int),
            ) == Ok::<(Seq<StmtModel>, nat), ErrModel>((stmts_view(stmts@), (np - pos) as nat)),
            Err(e) => spec_parse_decls(toks_from(toks_view(toks@), pos as int)) == Err::<
                (Seq<StmtModel>, nat),
                ErrModel,
            >(e@),
        },
    decreases toks@.len() - pos,
{
    let ghost tv = toks_view(toks@);
    let ghost rem = toks_from(tv, pos as int);
    proof {
        lemma_toks_view(toks@);
    }
    if pos == toks.len() {
        proof {
            assert(stmts_view(Seq::<ConfigStatment>::empty()) =~= Seq::<StmtModel>::empty());
        }
        return Ok((Vec::new(), pos));
    }
    proof {
        assert(rem[0] == tv[pos as int]);
        assert(tv[pos as int] == toks@[pos as int]@);
        if pos + 1 < toks@.len() {
            assert(rem[1] == tv[pos + 1]);
            assert(tv[pos + 1] == toks@[pos + 1]@);
        }
        if pos + 2 < toks@.len() {
            assert(rem[2] == tv[pos + 2]);
            assert(tv[pos + 2] == toks@[pos + 2]@);
        }
    }
    match &toks[pos] {
        ConfigToken::Group(_) => {
            proof {
                assert(stmts_view(Seq::<ConfigStatment>::empty()) =~= Seq::<StmtModel>::empty());
            }
            Ok((Vec::new(), pos))
        },
        ConfigToken::SubGroup(_) => {
            proof {
                assert(stmts_view(Seq::<ConfigStatment>::empty()) =~= Seq::<StmtModel>::empty());
            }
            Ok((Vec::new(), pos))
        },
        ConfigToken::Identifier(lhs) => {
            let reserved = str_eq(lhs.as_str(), "ExecCmd") || str_eq(lhs.as_str(), "ExecPrompt")
                || str_eq(lhs.as_str(), "Write") || str_eq(lhs.as_str(), "MoveToLine") || str_eq(
                lhs.as_str(),
                "MoveToRow",
            );
            if reserved {
                return Err(IshtParseError::WrongUseofReserved);
            }
            let has_eq = pos + 1 < toks.len() && matches!(&toks[pos + 1], ConfigToken::Eq);
            if !has_eq {
                return Err(IshtParseError::ExpectingEq);
            }
            if pos + 2 == toks.len() {
                return Err(IshtParseError::ReachedEOF);
            }
            let lhs_c = lhs.clone();
            match &toks[pos + 2] {
                ConfigToken::OpenBrace => {
                    proof {
                        lemma_toks_shift(tv, pos as int, 3);
                    }
                    let (inner, np1) = match parse_block(toks, pos + 3) {
                        Ok(x) => x,
                        Err(e) => {
                            return Err(e);
                        },
                    };
                    proof {
                        lemma_toks_shift(tv, pos as int, np1 - pos);
                    }
                    let stmt = mk_cmd_decl(lhs_c, mk_block(inner));
                    match parse_decls(toks, np1) {
                        Ok((mut stmts, np2)) => {
                            proof {
                                lemma_stmts_view_cons(stmt, stmts@);
                            }
                            stmts.insert(0, stmt);
                            Ok((stmts, np2))
                        },
                        Err(e) => Err(e),
                    }
                },
                ConfigToken::Identifier(s) => {
                    proof {
                        lemma_toks_shift(tv, pos as int, 3);
                    }
                    let (inner_stmt, np1) = match parse_ident_stmt(s, toks, pos + 3) {
                        Ok(x) => x,
                        Err(e) => {
                            return Err(e);
                        },
                    };
                    proof {
                        lemma_toks_shift(tv, pos as int, np1 - pos);
                    }
                    let stmt = mk_cmd_decl(lhs_c, inner_stmt);
                    match parse_decls(toks, np1) {
                        Ok((mut stmts, np2)) => {
                            proof {
                                lemma_stmts_view_cons(stmt, stmts@);
                            }
                            stmts.insert(0, stmt);
                            Ok((stmts, np2))
                        },
                        Err(e) => Err(e),
                    }
                },
                ConfigToken::Task(t) => {
                    proof {
                        lemma_toks_shift(tv, pos as int, 3);
                    }
                    let stmt = mk_cmd_decl(lhs_c, ConfigStatment::Task(t.duplicate()));
                    match parse_decls(toks, pos + 3) {
                        Ok((mut stmts, np2)) => {
                            proof {
                                lemma_stmts_view_cons(stmt, stmts@);
                            }
                            stmts.insert(0, stmt);
                            Ok((stmts, np2))
                        },
                        Err(e) => Err(e),
                    }
                },
                t => Err(IshtParseError::InvalidTokenPosition(duplicate_token(t))),
            }
        },
        t => Err(IshtParseError::InvalidTokenPosition(duplicate_token(t))),
    }
}

/// Parses one subgroup's declarations into a subgroup statement.
pub fn parse_subgroup(name: String, toks: &Vec<ConfigToken>, pos: usize) -> (r: Result<
    (ConfigStatment, usize),
    IshtParseError,
>)
    requires
        pos <= toks@.len(),
    ensures
        match r {
            Ok((stmt, np)) => ({
                &&& pos <= np <= toks@.len()
                &&& spec_parse_decls(toks_from(toks_view(toks@), pos as int)) matches Ok(
                    (decls, n),
                ) && n == np - pos && stmt@ == (StmtModel::SubGroup {
                    name: name@,
                    data: Box::new(StmtModel::Block(decls)),
                })
            }),
            Err(e) => spec_parse_decls(toks_from(toks_view(toks@), pos as int)) == Err::<
                (Seq<StmtModel>, nat),
                ErrModel,
            >(e@),
        },
{
    match parse_decls(toks, pos) {
        Ok((decls, np)) => Ok((mk_subgroup(name, mk_block(decls)), np)),
        Err(e) => Err(e),
    }
}

/// Parses the subgroups of one group, stopping before the next group header.
fn parse_subgroups(toks: &Vec<ConfigToken>, pos: usize) -> (r: Result<
    (Vec<ConfigStatment>, usize),
    IshtParseError,
>)
    requires
        pos <= toks@.len(),
    ensures
        match r {
            Ok((stmts, np)) => pos <= np <= toks@.len() && spec_parse_subgroups(
                toks_from(toks_view(toks@), pos as int),
            ) == Ok::<(Seq<StmtModel>, nat), ErrModel>((stmts_view(stmts@), (np - pos) as nat)),
            Err(e) => spec_parse_subgroups(toks_from(toks_view(toks@), pos as int)) == Err::<
                (Seq<StmtModel>, nat),
                ErrModel,
            >(e@),
        },
    decreases toks@.len() - pos,
{
    let ghost tv = toks_view(toks@);
    let ghost rem = toks_from(tv, pos as int);
    proof {
        lemma_toks_view(toks@);
    }
    if pos == toks.len() {
        proof {
            assert(stmts_view(Seq::<ConfigStatment>::empty()) =~= Seq::<StmtModel>::empty());
        }
        return Ok((Vec::new(), pos));
    }
    proof {
        assert(rem[0] == tv[pos as int]);
        assert(tv[pos as int] == toks@[pos as int]@);
    }
    match &toks[pos] {
        ConfigToken::SubGroup(name) => {
            proof {
                lemma_toks_shift(tv, pos as int, 1);
            }
            let (sub, np1) = match parse_subgroup(name.clone(), toks, pos + 1) {
                Ok(x) => x,
                Err(e) => {
                    return Err(e);
                },
            };
            proof {
                lemma_toks_shift(tv, pos as int, np1 - pos);
            }
            match parse_subgroups(toks, np1) {
                Ok((mut stmts, np2)) => {
                    proof {
                        lemma_stmts_view_cons(sub, stmts@);
                    }
                    stmts.insert(0, sub);
                    Ok((stmts, np2))
                },
                Err(e) => Err(e),
            }
        },
        _ => {
            proof {
                assert(stmts_view(Seq::<ConfigStatment>::empty()) =~= Seq::<StmtModel>::empty());
            }
            Ok((Vec::new(), pos))
        },
    }
}

/// Parses one group and its subgroups into a group statement.
pub fn parse_group(name: String, toks: &Vec<ConfigToken>, pos: usize) -> (r: Result<
    (ConfigStatment, usize),
    IshtParseError,
>)
    requires
        pos <= toks@.len(),
    ensures
        match r {
            Ok((stmt, np)) => ({
                &&& pos <= np <= toks@.len()
                &&& spec_parse_subgroups(toks_from(toks_view(toks@), pos as int)) matches Ok(
                    (subs, n),
                ) && n == np - pos && stmt@ == (StmtModel::Group {
                    name: name@,
                    data: Box::new(StmtModel::Block(subs)),
                })
            }),
            Err(e) => spec_parse_subgroups(toks_from(toks_view(toks@), pos as int)) == Err::<
                (Seq<StmtModel>, nat),
                ErrModel,
            >(e@),
        },
{
    match parse_subgroups(toks, pos) {
        Ok((subs, np)) => Ok((mk_group(name, mk_block(subs)), np)),
        Err(e) => Err(e),
    }
}

/// Parses the groups of a whole token stream from `pos` on.
fn parse_groups(toks: &Vec<ConfigToken>, pos: usize) -> (r: Result<
    Vec<ConfigStatment>,
    IshtParseError,
>)
    requires
        pos <= toks@.len(),
    ensures
        match r {
            Ok(stmts) => spec_parse_groups(toks_from(toks_view(toks@), pos as int)) == Ok::<
                Seq<StmtModel>,
                ErrModel,
            >(stmts_view(stmts@)),
            Err(e) => spec_parse_groups(toks_from(toks_view(toks@), pos as int)) == Err::<
                Seq<StmtModel>,
                ErrModel,
            >(e@),
        },
    decreases toks@.len() - pos,
{
    let ghost tv = toks_view(toks@);
    let ghost rem = toks_from(tv, pos as int);
    proof {
        lemma_toks_view(toks@);
    }
    if pos == toks.len() {
        proof {
            assert(stmts_view(Seq::<ConfigStatment>::empty()) =~= Seq::<StmtModel>::empty());
        }
        return Ok(Vec::new());
    }
    proof {
        assert(rem[0] == tv[pos as int]);
        assert(tv[pos as int] == toks@[pos as int]@);
    }
    match &toks[pos] {
        ConfigToken::Group(name) => {
            proof {
                lemma_toks_shift(tv, pos as int, 1);
            }
            let (group, np1) = match parse_group(name.clone(), toks, pos + 1) {
                Ok(x) => x,
                Err(e) => {
                    return Err(e);
                },
            };
            proof {
                lemma_toks_shift(tv, pos as int, np1 - pos);
            }
            match parse_groups(toks, np1) {
                Ok(mut stmts) => {
                    proof {
                        lemma_stmts_view_cons(group, stmts@);
                    }
                    stmts.insert(0, group);
                    Ok(stmts)
                },
                Err(e) => Err(e),
            }
        },
        t => Err(IshtParseError::BlockExpected(duplicate_token(t))),
    }
}

/// Parses a whole token stream: a block of groups, or the first error.
pub fn parse_tokens(toks: Vec<ConfigToken>) -> (r: Result<ConfigStatment, IshtParseError>)
    ensures
        match r {
            Ok(stmt) => spec_parse_groups(toks_view(toks@)) matches Ok(groups) && stmt@
                == StmtModel::Block(groups),
            Err(e) => spec_parse_groups(toks_view(toks@)) == Err::<Seq<StmtModel>, ErrModel>(e@),
        },
{
    proof {
        lemma_toks_view(toks@);
        assert(toks_from(toks_view(toks@), 0) =~= toks_view(toks@));
    }
    match parse_groups(&toks, 0) {
        Ok(stmts) => Ok(ConfigStatment::Block(stmts)),
        Err(e) => Err(e),
    }
}

/// Turns raw configuration text into its statement tree: lexing followed by
/// parsing. The tree, or any error, agrees with `spec_parse` on the text.
pub fn parse_content(content: &str) -> (r: Result<ConfigStatment, IshtParseError>)
    ensures
        match r {
            Ok(stmt) => spec_parse(content@) == Ok::<StmtModel, ErrModel>(stmt@),
            Err(e) => spec_parse(content@) == Err::<StmtModel, ErrModel>(e@),
        },
{
    let toks = match lex_content(content) {
        Ok(toks) => toks,
        Err(e) => {
            return Err(e);
        },
    };
    match parse_tokens(toks) {
        Ok(stmt) => Ok(stmt),
        Err(e) => Err(e),
    }
}

} // verus!
