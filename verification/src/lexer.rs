//! The lexer: turns raw configuration text into a flat token stream with no
//! nesting awareness.
//!
//! Scanning is character by character. A maximal run of non-whitespace
//! characters is first tested against the command vocabulary and becomes a
//! task or an identifier token; `"` opens a string literal closed by the next
//! `"` or the end of the line; `[name]` and `<name>` close the same way;
//! digit runs become number tokens; `-` must be followed by `>` to form an
//! arrow. Whitespace is space, tab, carriage return or newline.

use vstd::prelude::*;

verus! {

use crate::tasks::{CmdTask, TaskModel, task_for_name};
use crate::errors::{IshtParseError, ErrModel};
use crate::text::{str_to_chars, string_push};

/// One token of configuration text.
#[derive(Debug, PartialEq)]
pub enum ConfigToken {
    Group(String),
    SubGroup(String),
    OpenBrace,
    CloseBrace,
    Task(CmdTask),
    Identifier(String),
    Arrow,
    Num(u32),
    Str(String),
    Eq,
}

/// Model of a token: string payloads seen as character sequences, tasks as
/// their models.
pub enum Tok {
    Group(Seq<char>),
    SubGroup(Seq<char>),
    OpenBrace,
    CloseBrace,
    Task(TaskModel),
    Ident(Seq<char>),
    Arrow,
    Num(u32),
    StrLit(Seq<char>),
    Eq,
}

impl View for ConfigToken {
    type V = Tok;

    open spec fn view(&self) -> Tok {
        match self {
            ConfigToken::Group(s) => Tok::Group(s@),
            ConfigToken::SubGroup(s) => Tok::SubGroup(s@),
            ConfigToken::OpenBrace => Tok::OpenBrace,
            ConfigToken::CloseBrace => Tok::CloseBrace,
            ConfigToken::Task(t) => Tok::Task(t@),
            ConfigToken::Identifier(s) => Tok::Ident(s@),
            ConfigToken::Arrow => Tok::Arrow,
            ConfigToken::Num(n) => Tok::Num(*n),
            ConfigToken::Str(s) => Tok::StrLit(s@),
            ConfigToken::Eq => Tok::Eq,
        }
    }
}

/// The models of a sequence of tokens, elementwise.
pub open spec fn toks_view(ts: Seq<ConfigToken>) -> Seq<Tok>
    decreases ts,
{
    if ts.len() == 0 {
        Seq::empty()
    } else {
        seq![ts[0]@] + toks_view(ts.drop_first())
    }
}

/// `toks_view` maps the view over the sequence, index by index.
pub proof fn lemma_toks_view(ts: Seq<ConfigToken>)
    ensures
        toks_view(ts).len() == ts.len(),
        forall|i: int| 0 <= i < ts.len() ==> toks_view(ts)[i] == #[trigger] ts[i]@,
    decreases ts.len(),
{
    if ts.len() > 0 {
        lemma_toks_view(ts.drop_first());
        assert(toks_view(ts) == seq![ts[0]@] + toks_view(ts.drop_first()));
        assert forall|i: int| 0 <= i < ts.len() implies toks_view(ts)[i] == ts[i]@ by {
            if i > 0 {
                assert(toks_view(ts.drop_first())[i - 1] == ts.drop_first()[i - 1]@);
                assert(ts.drop_first()[i - 1] == ts[i]);
            } else {
                assert(toks_view(ts)[0] == seq![ts[0]@][0]);
            }
        }
    }
}

/// Appending one token to a sequence appends its model to the model sequence.
pub proof fn lemma_toks_view_push(ts: Seq<ConfigToken>, t: ConfigToken)
    ensures
        toks_view(ts.push(t)) == toks_view(ts) + seq![t@],
{
    lemma_toks_view(ts);
    lemma_toks_view(ts.push(t));
    assert forall|i: int| 0 <= i < ts.push(t).len() implies toks_view(ts.push(t))[i] == (toks_view(
        ts,
    ) + seq![t@])[i] by {
        assert(toks_view(ts.push(t))[i] == ts.push(t)[i]@);
        if i < ts.len() {
            assert(ts.push(t)[i] == ts[i]);
            assert(toks_view(ts)[i] == ts[i]@);
        } else {
            assert(ts.push(t)[i] == t);
        }
    }
    assert(toks_view(ts.push(t)) =~= toks_view(ts) + seq![t@]);
}

/// Prepending nothing to a lexing result keeps it as it is.
pub proof fn lemma_lex_concat_empty(r: Result<Seq<Tok>, ErrModel>)
    ensures
        lex_concat(Seq::empty(), r) == r,
{
    match r {
        Ok(ts) => {
            assert(Seq::empty() + ts =~= ts);
        },
        Err(_) => {},
    }
}

/// Whitespace: the characters that separate bare words — deliberately just
/// the ASCII separators (space, tab, carriage return, newline); any other
/// Unicode whitespace stands inside a bare word like any other character.
pub open spec fn is_space_char(c: char) -> bool {
    c == ' ' || c == '\t' || c == '\r' || c == '\n'
}

/// An ASCII decimal digit.
pub open spec fn is_digit_char(c: char) -> bool {
    '0' <= c && c <= '9'
}

/// The numeric value of one digit.
pub open spec fn digit_val(c: char) -> int {
    c as u32 - '0' as u32
}

/// The characters from position `n` on; empty when `n` is out of range.
pub open spec fn suffix_from(cs: Seq<char>, n: int) -> Seq<char> {
    if 0 <= n <= cs.len() {
        cs.subrange(n, cs.len() as int)
    } else {
        Seq::empty()
    }
}

/// The first `n` characters; the whole sequence when `n` is out of range.
pub open spec fn prefix_to(cs: Seq<char>, n: int) -> Seq<char> {
    if 0 <= n <= cs.len() {
        cs.subrange(0, n)
    } else {
        cs
    }
}

/// How many characters stand before the first `stop` or newline.
pub open spec fn scan_len(cs: Seq<char>, stop: char) -> nat
    decreases cs,
{
    if cs.len() == 0 {
        0
    } else if cs[0] == stop || cs[0] == '\n' {
        0
    } else {
        1 + scan_len(cs.drop_first(), stop)
    }
}

/// `scan_len` is the position of the first `stop` or newline, or the length
/// when there is none.
pub proof fn lemma_scan_len(cs: Seq<char>, stop: char)
    ensures
        scan_len(cs, stop) <= cs.len(),
        scan_len(cs, stop) < cs.len() ==> (cs[scan_len(cs, stop) as int] == stop || cs[scan_len(
            cs,
            stop,
        ) as int] == '\n'),
        forall|k: int|
            0 <= k < scan_len(cs, stop) ==> !(#[trigger] cs[k] == stop || cs[k] == '\n'),
    decreases cs.len(),
{
    if cs.len() > 0 && !(cs[0] == stop || cs[0] == '\n') {
        lemma_scan_len(cs.drop_first(), stop);
        let j = scan_len(cs, stop);
        assert forall|k: int| 0 <= k < j implies !(#[trigger] cs[k] == stop || cs[k] == '\n') by {
            if k > 0 {
                assert(cs.drop_first()[k - 1] == cs[k]);
                assert(!(cs.drop_first()[k - 1] == stop || cs.drop_first()[k - 1] == '\n'));
            }
        }
    }
}

/// The length of the run of digits at the head of the sequence.
pub open spec fn digit_run(cs: Seq<char>) -> nat
    decreases cs,
{
    if cs.len() > 0 && is_digit_char(cs[0]) {
        1 + digit_run(cs.drop_first())
    } else {
        0
    }
}

/// `digit_run` counts digits up to the first non-digit or the end.
pub proof fn lemma_digit_run(cs: Seq<char>)
    ensures
        digit_run(cs) <= cs.len(),
        digit_run(cs) < cs.len() ==> !is_digit_char(cs[digit_run(cs) as int]),
        forall|k: int| 0 <= k < digit_run(cs) ==> is_digit_char(#[trigger] cs[k]),
    decreases cs.len(),
{
    if cs.len() > 0 && is_digit_char(cs[0]) {
        lemma_digit_run(cs.drop_first());
        let j = digit_run(cs);
        assert forall|k: int| 0 <= k < j implies is_digit_char(#[trigger] cs[k]) by {
            if k > 0 {
                assert(cs.drop_first()[k - 1] == cs[k]);
                assert(is_digit_char(cs.drop_first()[k - 1]));
            }
        }
    }
}

/// The length of the run of non-whitespace characters at the head.
pub open spec fn word_run(cs: Seq<char>) -> nat
    decreases cs,
{
    if cs.len() > 0 && !is_space_char(cs[0]) {
        1 + word_run(cs.drop_first())
    } else {
        0
    }
}

/// `word_run` counts characters up to the first whitespace or the end.
pub proof fn lemma_word_run(cs: Seq<char>)
    ensures
        word_run(cs) <= cs.len(),
        word_run(cs) < cs.len() ==> is_space_char(cs[word_run(cs) as int]),
        forall|k: int| 0 <= k < word_run(cs) ==> !is_space_char(#[trigger] cs[k]),
    decreases cs.len(),
{
    if cs.len() > 0 && !is_space_char(cs[0]) {
        lemma_word_run(cs.drop_first());
        let j = word_run(cs);
        assert forall|k: int| 0 <= k < j implies !is_space_char(#[trigger] cs[k]) by {
            if k > 0 {
                assert(cs.drop_first()[k - 1] == cs[k]);
                assert(!is_space_char(cs.drop_first()[k - 1]));
            }
        }
    }
}

/// The numeric value of a digit sequence, most significant digit first.
pub open spec fn digits_val(ds: Seq<char>) -> int
    decreases ds,
{
    if ds.len() == 0 {
        0
    } else {
        digits_val(ds.drop_last()) * 10 + digit_val(ds.last())
    }
}

/// On digit sequences, the value is nonnegative and grows with every digit
/// appended, so each prefix is worth at most the whole.
pub proof fn lemma_digits_val_bounds(ds: Seq<char>)
    requires
        forall|k: int| 0 <= k < ds.len() ==> is_digit_char(#[trigger] ds[k]),
    ensures
        digits_val(ds) >= 0,
        forall|i: int| 0 <= i <= ds.len() ==> #[trigger] digits_val(ds.subrange(0, i)) <= digits_val(ds),
    decreases ds.len(),
{
    if ds.len() == 0 {
        assert(ds.subrange(0, 0) =~= ds);
    } else {
        lemma_digits_val_bounds(ds.drop_last());
        assert(digit_val(ds.last()) >= 0);
        assert(digits_val(ds) >= digits_val(ds.drop_last()));
        assert forall|i: int| 0 <= i <= ds.len() implies #[trigger] digits_val(
            ds.subrange(0, i),
        ) <= digits_val(ds) by {
            if i < ds.len() {
                assert(ds.subrange(0, i) =~= ds.drop_last().subrange(0, i));
                assert(digits_val(ds.drop_last().subrange(0, i)) <= digits_val(ds.drop_last()));
            } else {
                assert(ds.subrange(0, i) =~= ds);
            }
        }
    }
}


/// Prepends a token to a lexing result, keeping an error as it is.
pub open spec fn lex_cons(t: Tok, r: Result<Seq<Tok>, ErrModel>) -> Result<Seq<Tok>, ErrModel> {
    match r {
        Ok(ts) => Ok(seq![t] + ts),
        Err(e) => Err(e),
    }
}

/// Appends a lexing result to already-lexed tokens, keeping an error.
pub open spec fn lex_concat(done: Seq<Tok>, r: Result<Seq<Tok>, ErrModel>) -> Result<
    Seq<Tok>,
    ErrModel,
> {
    match r {
        Ok(ts) => Ok(done + ts),
        Err(e) => Err(e),
    }
}

/// Moving a token from the pending result to the done tokens keeps the whole.
pub proof fn lemma_lex_step(done: Seq<Tok>, t: Tok, r: Result<Seq<Tok>, ErrModel>)
    ensures
        lex_concat(done, lex_cons(t, r)) == lex_concat(done + seq![t], r),
{
    match r {
        Ok(ts) => {
            assert(done + (seq![t] + ts) =~= (done + seq![t]) + ts);
        },
        Err(_) => {},
    }
}

/// The token stream of the given configuration text, or the first error.
pub open spec fn spec_lex(cs: Seq<char>) -> Result<Seq<Tok>, ErrModel>
    decreases cs.len(),
{
    if cs.len() == 0 {
        Ok(Seq::empty())
    } else {
        let c = cs[0];
        if is_space_char(c) {
            spec_lex(suffix_from(cs, 1))
        } else if c == '=' {
            lex_cons(Tok::Eq, spec_lex(suffix_from(cs, 1)))
        } else if c == '"' {
            let tail = suffix_from(cs, 1);
            let j = scan_len(tail, '"');
            let lit = prefix_to(tail, j as int);
            let closed = j < tail.len() && tail[j as int] == '"';
            let rest = if closed {
                suffix_from(cs, 2 + j as int)
            } else {
                suffix_from(cs, 1 + j as int)
            };
            lex_cons(Tok::StrLit(lit), spec_lex(rest))
        } else if is_digit_char(c) {
            let j = digit_run(cs);
            let v = digits_val(prefix_to(cs, j as int));
            if v > u32::MAX {
                Err(ErrModel::NumTooLarge)
            } else {
                lex_cons(Tok::Num(v as u32), spec_lex(suffix_from(cs, j as int)))
            }
        } else if c == '-' {
            if cs.len() >= 2 && cs[1] == '>' {
                lex_cons(Tok::Arrow, spec_lex(suffix_from(cs, 2)))
            } else {
                Err(ErrModel::MalformedArrow)
            }
        } else if c == '{' {
            lex_cons(Tok::OpenBrace, spec_lex(suffix_from(cs, 1)))
        } else if c == '}' {
            lex_cons(Tok::CloseBrace, spec_lex(suffix_from(cs, 1)))
        } else if c == '[' {
            let tail = suffix_from(cs, 1);
            let j = scan_len(tail, ']');
            let name = prefix_to(tail, j as int);
            let closed = j < tail.len() && tail[j as int] == ']';
            let rest = if closed {
                suffix_from(cs, 2 + j as int)
            } else {
                suffix_from(cs, 1 + j as int)
            };
            lex_cons(Tok::Group(name), spec_lex(rest))
        } else if c == '<' {
            let tail = suffix_from(cs, 1);
            let j = scan_len(tail, '>');
            let name = prefix_to(tail, j as int);
            let closed = j < tail.len() && tail[j as int] == '>';
            let rest = if closed {
                suffix_from(cs, 2 + j as int)
            } else {
                suffix_from(cs, 1 + j as int)
            };
            lex_cons(Tok::SubGroup(name), spec_lex(rest))
        } else {
            let j = word_run(cs);
            let w = prefix_to(cs, j as int);
            let tok = match task_for_name(w) {
                Some(t) => Tok::Task(t@),
                None => Tok::Ident(w),
            };
            lex_cons(tok, spec_lex(suffix_from(cs, j as int)))
        }
    }
}

/// A character of the remainder, seen from the whole text.
proof fn lemma_rem_index(cs: Seq<char>, i: int, k: int)
    requires
        0 <= i <= cs.len(),
        0 <= k < cs.len() - i,
    ensures
        suffix_from(cs, i)[k] == cs[i + k],
{
}

/// Dropping `n` more characters from a remainder drops them from the text.
proof fn lemma_suffix_shift(cs: Seq<char>, i: int, n: int)
    requires
        0 <= i <= cs.len(),
        0 <= n,
    ensures
        suffix_from(suffix_from(cs, i), n) == suffix_from(cs, i + n),
{
    assert(suffix_from(suffix_from(cs, i), n) =~= suffix_from(cs, i + n));
}

/// Unfolds the lexer's step on whitespace.
proof fn lemma_lex_space(cs: Seq<char>, i: int)
    requires
        0 <= i < cs.len(),
        is_space_char(cs[i]),
    ensures
        spec_lex(suffix_from(cs, i)) == spec_lex(suffix_from(cs, i + 1)),
{
    let rem = suffix_from(cs, i);
    assert(rem[0] == cs[i]);
    lemma_suffix_shift(cs, i, 1);
}

/// Unfolds the lexer's step on a one-character token.
proof fn lemma_lex_single(cs: Seq<char>, i: int)
    requires
        0 <= i < cs.len(),
        cs[i] == '=' || cs[i] == '{' || cs[i] == '}',
    ensures
        cs[i] == '=' ==> spec_lex(suffix_from(cs, i)) == lex_cons(
            Tok::Eq,
            spec_lex(suffix_from(cs, i + 1)),
        ),
        cs[i] == '{' ==> spec_lex(suffix_from(cs, i)) == lex_cons(
            Tok::OpenBrace,
            spec_lex(suffix_from(cs, i + 1)),
        ),
        cs[i] == '}' ==> spec_lex(suffix_from(cs, i)) == lex_cons(
            Tok::CloseBrace,
            spec_lex(suffix_from(cs, i + 1)),
        ),
{
    let rem = suffix_from(cs, i);
    assert(rem[0] == cs[i]);
    lemma_suffix_shift(cs, i, 1);
}

/// Unfolds the lexer's step on `-`: an arrow when `>` follows, else the error.
proof fn lemma_lex_arrow(cs: Seq<char>, i: int)
    requires
        0 <= i < cs.len(),
        cs[i] == '-',
    ensures
        i + 1 < cs.len() && cs[i + 1] == '>' ==> spec_lex(suffix_from(cs, i)) == lex_cons(
            Tok::Arrow,
            spec_lex(suffix_from(cs, i + 2)),
        ),
        !(i + 1 < cs.len() && cs[i + 1] == '>') ==> spec_lex(suffix_from(cs, i)) == Err::<
            Seq<Tok>,
            ErrModel,
        >(ErrModel::MalformedArrow),
{
    let rem = suffix_from(cs, i);
    assert(rem[0] == cs[i]);
    if i + 1 < cs.len() {
        assert(rem[1] == cs[i + 1]);
    }
    lemma_suffix_shift(cs, i, 2);
}

/// What one delimited token (string literal, group or subgroup) consumes:
/// the characters scanned to the closing delimiter or the end of the line,
/// plus the delimiters themselves.
pub open spec fn delim_scan(cs: Seq<char>, i: int, stop: char) -> (nat, Seq<char>, bool) {
    let tail = suffix_from(cs, i + 1);
    let j = scan_len(tail, stop);
    let name = prefix_to(tail, j as int);
    let closed = j < tail.len() && tail[j as int] == stop;
    (j, name, closed)
}

/// Unfolds the lexer's step on `"`, `[` and `<`.
proof fn lemma_lex_delim(cs: Seq<char>, i: int)
    requires
        0 <= i < cs.len(),
        cs[i] == '"' || cs[i] == '[' || cs[i] == '<',
    ensures
        ({
            let stop = if cs[i] == '"' {
                '"'
            } else if cs[i] == '[' {
                ']'
            } else {
                '>'
            };
            let (j, name, closed) = delim_scan(cs, i, stop);
            let tok = if cs[i] == '"' {
                Tok::StrLit(name)
            } else if cs[i] == '[' {
                Tok::Group(name)
            } else {
                Tok::SubGroup(name)
            };
            let next = if closed {
                i + 2 + j
            } else {
                i + 1 + j
            };
            spec_lex(suffix_from(cs, i)) == lex_cons(tok, spec_lex(suffix_from(cs, next as int)))
        }),
{
    let rem = suffix_from(cs, i);
    assert(rem[0] == cs[i]);
    lemma_suffix_shift(cs, i, 1);
    let stop = if cs[i] == '"' {
        '"'
    } else if cs[i] == '[' {
        ']'
    } else {
        '>'
    };
    let (j, name, closed) = delim_scan(cs, i, stop);
    assert(suffix_from(rem, 1) == suffix_from(cs, i + 1));
    if closed {
        lemma_suffix_shift(cs, i, 2 + j as int);
        assert(suffix_from(rem, 2 + j as int) == suffix_from(cs, i + 2 + j));
    } else {
        lemma_suffix_shift(cs, i, 1 + j as int);
        assert(suffix_from(rem, 1 + j as int) == suffix_from(cs, i + 1 + j));
    }
}

/// Unfolds the lexer's step on a digit run.
proof fn lemma_lex_num(cs: Seq<char>, i: int)
    requires
        0 <= i < cs.len(),
        is_digit_char(cs[i]),
    ensures
        ({
            let rem = suffix_from(cs, i);
            let j = digit_run(rem);
            let v = digits_val(prefix_to(rem, j as int));
            if v > u32::MAX {
                spec_lex(rem) == Err::<Seq<Tok>, ErrModel>(ErrModel::NumTooLarge)
            } else {
                spec_lex(rem) == lex_cons(
                    Tok::Num(v as u32),
                    spec_lex(suffix_from(cs, i + j)),
                )
            }
        }),
{
    let rem = suffix_from(cs, i);
    assert(rem[0] == cs[i]);
    let j = digit_run(rem);
    lemma_suffix_shift(cs, i, j as int);
}

/// Unfolds the lexer's step on a bare word.
proof fn lemma_lex_word(cs: Seq<char>, i: int)
    requires
        0 <= i < cs.len(),
        !is_space_char(cs[i]),
        cs[i] != '=',
        cs[i] != '"',
        !is_digit_char(cs[i]),
        cs[i] != '-',
        cs[i] != '{',
        cs[i] != '}',
        cs[i] != '[',
        cs[i] != '<',
    ensures
        ({
            let rem = suffix_from(cs, i);
            let j = word_run(rem);
            let w = prefix_to(rem, j as int);
            let tok = match task_for_name(w) {
                Some(t) => Tok::Task(t@),
                None => Tok::Ident(w),
            };
            spec_lex(rem) == lex_cons(tok, spec_lex(suffix_from(cs, i + j)))
        }),
{
    let rem = suffix_from(cs, i);
    assert(rem[0] == cs[i]);
    let j = word_run(rem);
    lemma_suffix_shift(cs, i, j as int);
}

/// One lexing step: the token moves from the pending remainder to the done
/// tokens and the position advances.
proof fn lemma_lex_advance(
    whole: Seq<char>,
    done: Seq<Tok>,
    cs: Seq<char>,
    i: int,
    t: Tok,
    ni: int,
)
    requires
        spec_lex(whole) == lex_concat(done, spec_lex(suffix_from(cs, i))),
        spec_lex(suffix_from(cs, i)) == lex_cons(t, spec_lex(suffix_from(cs, ni))),
    ensures
        spec_lex(whole) == lex_concat(done + seq![t], spec_lex(suffix_from(cs, ni))),
{
    lemma_lex_step(done, t, spec_lex(suffix_from(cs, ni)));
}

/// A string holding the characters `cs[a..b]`.
pub(crate) fn string_of_range(cs: &Vec<char>, a: usize, b: usize) -> (r: String)
    requires
        a <= b <= cs@.len(),
    ensures
        r@ == cs@.subrange(a as int, b as int),
{
    let mut r = String::new();
    let mut i: usize = a;
    while i < b
        invariant
            a <= i <= b <= cs@.len(),
            r@ == cs@.subrange(a as int, i as int),
        decreases b - i,
    {
        string_push(&mut r, cs[i]);
        proof {
            assert(r@ =~= cs@.subrange(a as int, i + 1));
        }
        i += 1;
    }
    r
}

/// The length scanned from `from` before the first `stop` or newline.
pub(crate) fn scan_stop(cs: &Vec<char>, from: usize, stop: char) -> (j: usize)
    requires
        from <= cs@.len(),
    ensures
        j == scan_len(suffix_from(cs@, from as int), stop),
        from + j <= cs@.len(),
{
    let ghost tail = suffix_from(cs@, from as int);
    let mut k: usize = from;
    while k < cs.len() && cs[k] != stop && cs[k] != '\n'
        invariant
            from <= k <= cs@.len(),
            tail == suffix_from(cs@, from as int),
            forall|idx: int|
                0 <= idx < k - from ==> !(#[trigger] tail[idx] == stop || tail[idx] == '\n'),
        decreases cs@.len() - k,
    {
        proof {
            assert(tail[k - from] == cs@[k as int]);
        }
        k += 1;
    }
    proof {
        lemma_scan_len(tail, stop);
        let j0 = scan_len(tail, stop);
        if k < cs@.len() {
            assert(tail[k - from] == cs@[k as int]);
        }
        if j0 < k - from {
            assert(!(tail[j0 as int] == stop || tail[j0 as int] == '\n'));
        }
        if j0 > k - from {
            assert(k - from < tail.len());
            assert(!(tail[k - from] == stop || tail[k - from] == '\n'));
        }
    }
    k - from
}

/// The length of the digit run starting at `from`.
fn scan_digits(cs: &Vec<char>, from: usize) -> (j: usize)
    requires
        from <= cs@.len(),
    ensures
        j == digit_run(suffix_from(cs@, from as int)),
        from + j <= cs@.len(),
{
    let ghost tail = suffix_from(cs@, from as int);
    let mut k: usize = from;
    while k < cs.len() && '0' <= cs[k] && cs[k] <= '9'
        invariant
            from <= k <= cs@.len(),
            tail == suffix_from(cs@, from as int),
            forall|idx: int| 0 <= idx < k - from ==> is_digit_char(#[trigger] tail[idx]),
        decreases cs@.len() - k,
    {
        proof {
            assert(tail[k - from] == cs@[k as int]);
        }
        k += 1;
    }
    proof {
        lemma_digit_run(tail);
        let j0 = digit_run(tail);
        if k < cs@.len() {
            assert(tail[k - from] == cs@[k as int]);
        }
        if j0 < k - from {
            assert(is_digit_char(tail[j0 as int]));
        }
        if j0 > k - from {
            assert(k - from < tail.len());
            assert(is_digit_char(tail[k - from]));
        }
    }
    k - from
}

/// The length of the non-whitespace run starting at `from`.
fn scan_word(cs: &Vec<char>, from: usize) -> (j: usize)
    requires
        from <= cs@.len(),
    ensures
        j == word_run(suffix_from(cs@, from as int)),
        from + j <= cs@.len(),
{
    let ghost tail = suffix_from(cs@, from as int);
    let mut k: usize = from;
    while k < cs.len() && cs[k] != ' ' && cs[k] != '\t' && cs[k] != '\r' && cs[k] != '\n'
        invariant
            from <= k <= cs@.len(),
            tail == suffix_from(cs@, from as int),
            forall|idx: int| 0 <= idx < k - from ==> !is_space_char(#[trigger] tail[idx]),
        decreases cs@.len() - k,
    {
        proof {
            assert(tail[k - from] == cs@[k as int]);
        }
        k += 1;
    }
    proof {
        lemma_word_run(tail);
        let j0 = word_run(tail);
        if k < cs@.len() {
            assert(tail[k - from] == cs@[k as int]);
        }
        if j0 < k - from {
            assert(!is_space_char(tail[j0 as int]));
        }
        if j0 > k - from {
            assert(k - from < tail.len());
            assert(is_space_char(tail[k - from]));
        }
    }
    k - from
}

/// The value of the digit run `cs[i..i+j]`, or a report that it exceeds
/// 32 bits.
#[verifier::loop_isolation(false)]
fn read_number(cs: &Vec<char>, i: usize, j: usize) -> (r: Result<u32, ()>)
    requires
        i + j <= cs@.len(),
        j == digit_run(suffix_from(cs@, i as int)),
    ensures
        ({
            let run = prefix_to(suffix_from(cs@, i as int), j as int);
            match r {
                Ok(v) => digits_val(run) == v,
                Err(()) => digits_val(run) > u32::MAX,
            }
        }),
{
    let ghost rem = suffix_from(cs@, i as int);
    let ghost run = prefix_to(rem, j as int);
    proof {
        assert(cs.len() == cs@.len());
        lemma_digit_run(rem);
        assert forall|k: int| 0 <= k < run.len() implies is_digit_char(#[trigger] run[k]) by {
            assert(run[k] == rem[k]);
        }
        lemma_digits_val_bounds(run);
    }
    let mut val: u64 = 0;
    let mut k: usize = 0;
    while k < j
        invariant
            0 <= k <= j,
            i + j <= cs@.len(),
            rem == suffix_from(cs@, i as int),
            run == prefix_to(rem, j as int),
            j == digit_run(rem),
            run.len() == j,
            forall|m: int| 0 <= m < run.len() ==> is_digit_char(#[trigger] run[m]),
            digits_val(run) >= 0,
            forall|m: int|
                0 <= m <= run.len() ==> #[trigger] digits_val(run.subrange(0, m)) <= digits_val(
                    run,
                ),
            val == digits_val(run.subrange(0, k as int)),
            val <= u32::MAX,
        decreases j - k,
    {
        let d = cs[i + k];
        proof {
            assert(run[k as int] == rem[k as int]);
            assert(rem[k as int] == cs@[i + k]);
            assert(is_digit_char(run[k as int]));
            assert(run.subrange(0, k + 1).drop_last() =~= run.subrange(0, k as int));
            assert(run.subrange(0, k + 1).last() == run[k as int]);
        }
        let dv: u64 = (d as u32 - 48) as u64;
        let next = val * 10 + dv;
        proof {
            assert(digits_val(run.subrange(0, k + 1)) == val * 10 + digit_val(run[k as int]));
            assert(digit_val(run[k as int]) == dv);
        }
        if next > 0xffff_ffff {
            proof {
                assert(digits_val(run.subrange(0, k + 1)) > u32::MAX);
                assert(digits_val(run.subrange(0, k + 1)) <= digits_val(run));
            }
            return Err(());
        }
        val = next;
        k += 1;
    }
    proof {
        assert(run.subrange(0, j as int) =~= run);
    }
    Ok(val as u32)
}

/// Lexes configuration text into its token stream, or reports the first
/// malformed arrow or oversized number. The token stream and any error agree
/// with `spec_lex` on the text's characters.
#[verifier::loop_isolation(false)]
#[verifier::rlimit(60)]
pub fn lex_content(content: &str) -> (r: Result<Vec<ConfigToken>, IshtParseError>)
    ensures
        match r {
            Ok(v) => spec_lex(content@) == Ok::<Seq<Tok>, ErrModel>(toks_view(v@)),
            Err(e) => spec_lex(content@) == Err::<Seq<Tok>, ErrModel>(e@),
        },
{
    let cs = str_to_chars(content);
    let mut toks: Vec<ConfigToken> = Vec::new();
    let mut i: usize = 0;
    proof {
        assert(suffix_from(cs@, 0) =~= cs@);
        assert(toks_view(toks@) =~= Seq::<Tok>::empty());
        lemma_lex_concat_empty(spec_lex(cs@));
    }
    while i < cs.len()
        invariant
            0 <= i <= cs@.len(),
            spec_lex(content@) == lex_concat(
                toks_view(toks@),
                spec_lex(suffix_from(cs@, i as int)),
            ),
        decreases cs@.len() - i,
    {
        let c = cs[i];
        if c == ' ' || c == '\t' || c == '\r' || c == '\n' {
            proof {
                lemma_lex_space(cs@, i as int);
            }
            i += 1;
        } else if c == '=' {
            proof {
                lemma_lex_single(cs@, i as int);
                lemma_lex_advance(content@, toks_view(toks@), cs@, i as int, Tok::Eq, i + 1);
                lemma_toks_view_push(toks@, ConfigToken::Eq);
            }
            toks.push(ConfigToken::Eq);
            i += 1;
        } else if c == '{' {
            proof {
                lemma_lex_single(cs@, i as int);
                lemma_lex_advance(content@, toks_view(toks@), cs@, i as int, Tok::OpenBrace, i + 1);
                lemma_toks_view_push(toks@, ConfigToken::OpenBrace);
            }
            toks.push(ConfigToken::OpenBrace);
            i += 1;
        } else if c == '}' {
            proof {
                lemma_lex_single(cs@, i as int);
                lemma_lex_advance(
                    content@,
                    toks_view(toks@),
                    cs@,
                    i as int,
                    Tok::CloseBrace,
                    i + 1,
                );
                lemma_toks_view_push(toks@, ConfigToken::CloseBrace);
            }
            toks.push(ConfigToken::CloseBrace);
            i += 1;
        } else if c == '-' {
            if i + 1 < cs.len() && cs[i + 1] == '>' {
                proof {
                    lemma_lex_arrow(cs@, i as int);
                    lemma_lex_advance(content@, toks_view(toks@), cs@, i as int, Tok::Arrow, i + 2);
                    lemma_toks_view_push(toks@, ConfigToken::Arrow);
                }
                toks.push(ConfigToken::Arrow);
                i += 2;
            } else {
                proof {
                    lemma_lex_arrow(cs@, i as int);
                }
                return Err(IshtParseError::MalformedArrow);
            }
        } else if c == '"' || c == '[' || c == '<' {
            let stop = if c == '"' {
                '"'
            } else if c == '[' {
                ']'
            } else {
                '>'
            };
            let j = scan_stop(&cs, i + 1, stop);
            let name = string_of_range(&cs, i + 1, i + 1 + j);
            let closed = i + 1 + j < cs.len() && cs[i + 1 + j] == stop;
            let next = if closed {
                i + 2 + j
            } else {
                i + 1 + j
            };
            let tok = if c == '"' {
                ConfigToken::Str(name)
            } else if c == '[' {
                ConfigToken::Group(name)
            } else {
                ConfigToken::SubGroup(name)
            };
            proof {
                let ghost tail = suffix_from(cs@, i + 1);
                assert(name@ =~= prefix_to(tail, j as int));
                lemma_scan_len(tail, stop);
                if (j as int) < tail.len() {
                    assert(tail[j as int] == cs@[i + 1 + j]);
                }
                let (j0, name0, closed0) = delim_scan(cs@, i as int, stop);
                assert(j0 == j && name0 == name@ && closed0 == closed);
                lemma_lex_delim(cs@, i as int);
                lemma_lex_advance(content@, toks_view(toks@), cs@, i as int, tok@, next as int);
                lemma_toks_view_push(toks@, tok);
            }
            toks.push(tok);
            i = next;
        } else if '0' <= c && c <= '9' {
            let j = scan_digits(&cs, i);
            match read_number(&cs, i, j) {
                Ok(v) => {
                    proof {
                        lemma_lex_num(cs@, i as int);
                        lemma_lex_advance(
                            content@,
                            toks_view(toks@),
                            cs@,
                            i as int,
                            Tok::Num(v),
                            i + j,
                        );
                        lemma_toks_view_push(toks@, ConfigToken::Num(v));
                    }
                    toks.push(ConfigToken::Num(v));
                    i = i + j;
                },
                Err(()) => {
                    proof {
                        lemma_lex_num(cs@, i as int);
                    }
                    return Err(IshtParseError::NumTooLarge);
                },
            }
        } else {
            let j = scan_word(&cs, i);
            let w = string_of_range(&cs, i, i + j);
            proof {
                assert(w@ =~= prefix_to(suffix_from(cs@, i as int), j as int));
                lemma_word_run(suffix_from(cs@, i as int));
            }
            let tok = match CmdTask::new(w.as_str()) {
                Ok(t) => ConfigToken::Task(t),
                Err(_) => ConfigToken::Identifier(w),
            };
            proof {
                lemma_lex_word(cs@, i as int);
                lemma_lex_advance(content@, toks_view(toks@), cs@, i as int, tok@, i + j);
                lemma_toks_view_push(toks@, tok);
            }
            toks.push(tok);
            i = i + j;
        }
    }
    proof {
        assert(suffix_from(cs@, i as int) =~= Seq::<char>::empty());
        assert(spec_lex(suffix_from(cs@, i as int)) == Ok::<Seq<Tok>, ErrModel>(Seq::empty()));
        assert(toks_view(toks@) + Seq::<Tok>::empty() =~= toks_view(toks@));
    }
    Ok(toks)
}

} // verus!
