//! From text: the lexer for the indented language, and the rules that both
//! grammars share.
use vstd::prelude::*;
use crate::ast::{Expr, Expression, Term, Ty, Type, Val};
use crate::util::push_char;
use vstd::std_specs::iter::IteratorSpec;

pub use crate::lambda::{parse_expression, parse_lambda};
pub use crate::puck::parse_lang;

verus! {

broadcast use {vstd::string::axiom_spec_iter, vstd::string::next_postcondition};

/// Width of one level of indentation.
const INDENT_SIZE: usize = 2;

/// What the lexer emitted last for a line.
#[derive(PartialEq, Eq, Structural, Clone, Copy)]
pub enum Previous {
    Start,
    Block,
    Line,
}

/// Why an indented text could not be turned into a bracketed one.
pub enum LexFault {
    InvalidJump,
    BadOffset,
    Unknown,
}

/// The lexer's state after a prefix of its input.
pub struct LexState {
    /// The current line is whitespace so far.
    pub blank: bool,
    /// The current indentation level.
    pub level: nat,
    /// The leading spaces counted since the last emitted line.
    pub count: nat,
    pub previous: Previous,
    /// The current line is a comment from here on.
    pub comment: bool,
    /// The current line's text.
    pub buffer: Seq<char>,
    /// The output so far.
    pub result: Seq<char>,
}

pub open spec fn spaces(n: nat) -> Seq<char> {
    Seq::new(n, |i: int| ' ')
}

/// Closes blocks down to indentation `count`.
pub open spec fn close_blocks(level: nat, count: nat, previous: Previous, result: Seq<char>) -> (nat, Previous, Seq<char>)
    decreases level,
{
    if level > count && level >= 2 {
        let r = if previous == Previous::Line { result.push(';') } else { result };
        let l = (level - 2) as nat;
        close_blocks(l, count, Previous::Block, r.push('\n') + spaces(l) + seq!['}', ';'])
    } else {
        (level, previous, result)
    }
}

/// Closes every block still open at the end of the input.
pub open spec fn close_all(level: nat, result: Seq<char>) -> Seq<char>
    decreases level,
{
    if level >= 2 {
        let l = (level - 2) as nat;
        close_all(l, result.push('\n') + spaces(l) + seq!['}', ';'])
    } else {
        result
    }
}

pub open spec fn lex_start() -> LexState {
    LexState {
        blank: true,
        level: 0,
        count: 0,
        previous: Previous::Start,
        comment: false,
        buffer: Seq::empty(),
        result: Seq::empty(),
    }
}

/// The lexer's state after one more character.
pub open spec fn lex_step(s: LexState, c: char) -> Result<LexState, LexFault> {
    if c == '\n' {
        if s.buffer.len() > 0 {
            let opened: Result<(nat, Previous, Seq<char>), LexFault> = if s.count == s.level {
                Ok(
                    (
                        s.level,
                        Previous::Line,
                        if s.previous != Previous::Start { s.result + seq![';', '\n'] } else { s.result },
                    ),
                )
            } else if s.level + 2 == s.count {
                Ok((s.count, Previous::Line, s.result + seq![' ', '{', '\n']))
            } else if s.count > s.level + 2 {
                Err(LexFault::InvalidJump)
            } else if s.count % 2 != 0 {
                Err(LexFault::BadOffset)
            } else if s.level > s.count {
                let (l, p, r) = close_blocks(s.level, s.count, s.previous, s.result);
                Ok((l, p, r.push('\n')))
            } else {
                Err(LexFault::Unknown)
            };
            match opened {
                Ok((l, p, r)) => Ok(
                    LexState {
                        blank: true,
                        level: l,
                        count: 0,
                        previous: p,
                        comment: false,
                        buffer: Seq::empty(),
                        result: r + spaces(s.count) + s.buffer,
                    },
                ),
                Err(e) => Err(e),
            }
        } else {
            Ok(LexState { blank: true, ..s })
        }
    } else if c == ' ' && s.blank {
        Ok(LexState { count: s.count + 1, ..s })
    } else if c == '#' {
        Ok(LexState { blank: false, comment: true, ..s })
    } else {
        Ok(
            LexState {
                blank: false,
                buffer: if !s.comment { s.buffer.push(c) } else { s.buffer },
                ..s
            },
        )
    }
}

/// The lexer's state after `cs`.
pub open spec fn lex_run(cs: Seq<char>) -> Result<LexState, LexFault>
    decreases cs.len(),
{
    if cs.len() == 0 {
        Ok(lex_start())
    } else {
        match lex_run(cs.drop_last()) {
            Ok(s) => lex_step(s, cs.last()),
            Err(e) => Err(e),
        }
    }
}

/// The bracketed text for an indented one.
pub open spec fn lex_text(cs: Seq<char>) -> Result<Seq<char>, LexFault> {
    match lex_run(cs) {
        Ok(s) => Ok(
            close_all(s.level, if s.previous == Previous::Line { s.result.push(';') } else { s.result }),
        ),
        Err(e) => Err(e),
    }
}

pub open spec fn lex_message(e: LexFault) -> Seq<char> {
    match e {
        LexFault::InvalidJump => "invalid jump in indentation"@,
        LexFault::BadOffset => "incorrect indentation offset, must be a multiple of indent_size"@,
        LexFault::Unknown => "unknown indentation error"@,
    }
}

struct State {
    blank: bool,
    level: usize,
    count: usize,
    previous: Previous,
    comment: bool,
    buffer: String,
    result: String,
}

impl View for State {
    type V = LexState;

    closed spec fn view(&self) -> LexState {
        LexState {
            blank: self.blank,
            level: self.level as nat,
            count: self.count as nat,
            previous: self.previous,
            comment: self.comment,
            buffer: self.buffer@,
            result: self.result@,
        }
    }
}

fn push_spaces(s: &mut String, n: usize)
    ensures
        final(s)@ == old(s)@ + spaces(n as nat),
{
    let mut i: usize = 0;
    while i < n
        invariant
            i <= n,
            s@ == old(s)@ + spaces(i as nat),
        decreases n - i,
    {
        push_char(s, ' ');
        i += 1;
        assert(s@ =~= old(s)@ + spaces(i as nat));
    }
}

fn close_blocks_exec(level: &mut usize, count: usize, previous: &mut Previous, result: &mut String)
    requires
        *old(level) % 2 == 0,
    ensures
        (*final(level) as nat, *final(previous), final(result)@) == close_blocks(
            *old(level) as nat,
            count as nat,
            *old(previous),
            old(result)@,
        ),
        *final(level) % 2 == 0,
        *final(level) <= *old(level),
{
    while *level > count
        invariant
            *level % 2 == 0,
            *level <= *old(level),
            close_blocks(*level as nat, count as nat, *previous, result@) == close_blocks(
                *old(level) as nat,
                count as nat,
                *old(previous),
                old(result)@,
            ),
        decreases *level,
    {
        let ghost r0 = result@;
        let ghost p0 = *previous;
        let ghost l0 = *level;
        if *previous == Previous::Line {
            push_char(result, ';');
        }
        let ghost r1 = result@;
        *level -= INDENT_SIZE;
        push_char(result, '\n');
        push_spaces(result, *level);
        push_char(result, '}');
        push_char(result, ';');
        *previous = Previous::Block;
        assert(r1 == if p0 == Previous::Line { r0.push(';') } else { r0 });
        assert(result@ =~= r1.push('\n') + spaces(*level as nat) + seq!['}', ';']);
        assert(close_blocks(l0 as nat, count as nat, p0, r0) == close_blocks(
            *level as nat,
            count as nat,
            Previous::Block,
            result@,
        ));
    }
}

fn step(st: &mut State, c: char) -> (r: Result<(), &'static str>)
    requires
        old(st).level % 2 == 0,
        old(st).count < usize::MAX,
    ensures
        match r {
            Ok(_) => lex_step(old(st)@, c) == Ok::<LexState, LexFault>(final(st)@),
            Err(m) => lex_step(old(st)@, c) is Err && m@ == lex_message(lex_step(old(st)@, c)->Err_0),
        },
        final(st).level % 2 == 0,
        final(st).count <= old(st).count + 1,
        final(st).level <= old(st).level || final(st).level <= old(st).count,
{
    if c == '\n' {
        if !st.buffer.as_str().is_empty() {
            if st.count == st.level {
                if st.previous != Previous::Start {
                    push_char(&mut st.result, ';');
                    push_char(&mut st.result, '\n');
                    assert(st.result@ =~= old(st).result@ + seq![';', '\n']);
                }
                st.previous = Previous::Line;
            } else if st.count >= INDENT_SIZE && st.level == st.count - INDENT_SIZE {
                push_char(&mut st.result, ' ');
                push_char(&mut st.result, '{');
                push_char(&mut st.result, '\n');
                assert(st.result@ =~= old(st).result@ + seq![' ', '{', '\n']);
                st.level = st.count;
                st.previous = Previous::Line;
            } else if st.count > st.level && st.count - st.level > INDENT_SIZE {
                return Err("invalid jump in indentation");
            } else if st.count % INDENT_SIZE != 0 {
                return Err("incorrect indentation offset, must be a multiple of indent_size");
            } else if st.level > st.count {
                close_blocks_exec(&mut st.level, st.count, &mut st.previous, &mut st.result);
                push_char(&mut st.result, '\n');
            } else {
                return Err("unknown indentation error");
            }
            push_spaces(&mut st.result, st.count);
            st.result.append(st.buffer.as_str());
            st.count = 0;
            st.comment = false;
            st.buffer = String::new();
        }
        st.blank = true;
    } else if c == ' ' && st.blank {
        st.count += 1;
    } else if c == '#' {
        st.blank = false;
        st.comment = true;
    } else {
        st.blank = false;
        if !st.comment {
            push_char(&mut st.buffer, c);
        }
    }
    Ok(())
}

/// Converts a whitespace-indented language into a bracketed one, for matching
/// with a grammar: a line indented one level deeper opens a block with `{`, a
/// line indented less closes blocks with `};`, and lines end with `;`.
/// Comments run from `#` to the end of the line.
pub fn lex(input: &str) -> (r: Result<String, &'static str>)
    requires
        input@.len() <= usize::MAX,
    ensures
        match r {
            Ok(s) => lex_text(input@) == Ok::<Seq<char>, LexFault>(s@),
            Err(m) => lex_text(input@) is Err && m@ == lex_message(lex_text(input@)->Err_0),
        },
{
    let mut st = State {
        blank: true,
        level: 0,
        count: 0,
        previous: Previous::Start,
        comment: false,
        buffer: String::new(),
        result: String::new(),
    };
    let mut chars = input.chars();
    let ghost mut i: int = 0;
    proof {
        assert(input@.subrange(0, 0) =~= Seq::<char>::empty());
    }
    loop
        invariant
            0 <= i <= input@.len(),
            input@.len() <= usize::MAX,
            chars.obeys_prophetic_iter_laws(),
            chars.remaining() == input@.subrange(i, input@.len() as int),
            lex_run(input@.subrange(0, i)) == Ok::<LexState, LexFault>(st@),
            st.level % 2 == 0,
            st.count <= i,
            st.level <= i,
        ensures
            i == input@.len(),
            lex_run(input@.subrange(0, i)) == Ok::<LexState, LexFault>(st@),
            st.level % 2 == 0,
        decreases input@.len() - i,
    {
        let ghost before = chars;
        match chars.next() {
            Some(c) => {
                assert(before.remaining().len() > 0);
                assert(c == input@[i]);
                let ghost prefix = input@.subrange(0, i + 1);
                assert(prefix.drop_last() =~= input@.subrange(0, i));
                assert(prefix.last() == c);
                match step(&mut st, c) {
                    Ok(()) => {},
                    Err(m) => {
                        proof {
                            lemma_lex_run_fails(input@, i + 1);
                        }
                        return Err(m);
                    },
                }
                proof {
                    i = i + 1;
                    assert(chars.remaining() =~= input@.subrange(i, input@.len() as int));
                }
            },
            None => {
                assert(i == input@.len());
                break;
            },
        }
    }
    proof {
        assert(input@.subrange(0, i) =~= input@);
    }
    if st.previous == Previous::Line {
        push_char(&mut st.result, ';');
    }
    while st.level != 0
        invariant
            st.level % 2 == 0,
            close_all(st.level as nat, st.result@) == lex_text(input@)->Ok_0,
        decreases st.level,
    {
        let ghost r0 = st.result@;
        st.level -= 2;
        push_char(&mut st.result, '\n');
        push_spaces(&mut st.result, st.level);
        push_char(&mut st.result, '}');
        push_char(&mut st.result, ';');
        assert(st.result@ =~= r0.push('\n') + spaces(st.level as nat) + seq!['}', ';']);
    }
    Ok(st.result)
}

/// A failure on a prefix is the failure of the whole input.
proof fn lemma_lex_run_fails(cs: Seq<char>, n: int)
    requires
        0 <= n <= cs.len(),
        lex_run(cs.subrange(0, n)) is Err,
    ensures
        lex_run(cs) == lex_run(cs.subrange(0, n)),
    decreases cs.len() - n,
{
    if n < cs.len() {
        assert(cs.subrange(0, n + 1).drop_last() =~= cs.subrange(0, n));
        lemma_lex_run_fails(cs, n + 1);
    } else {
        assert(cs.subrange(0, n) =~= cs);
    }
}

/// `w` stands in `s` at position `p`.
pub open spec fn lit(s: Seq<char>, p: int, w: Seq<char>) -> bool {
    0 <= p && p + w.len() <= s.len() && s.subrange(p, p + w.len()) == w
}

/// The position after `w` when it stands at `p`.
pub(crate) fn lit_at(s: &Vec<char>, p: usize, w: &str) -> (r: Option<usize>)
    ensures
        match r {
            Some(q) => lit(s@, p as int, w@) && q == p + w@.len(),
            None => !lit(s@, p as int, w@),
        },
{
    if p > s.len() {
        return None;
    }
    let mut chars = w.chars();
    let mut q: usize = p;
    let ghost mut i: int = 0;
    assert(s@.subrange(p as int, p as int) =~= w@.subrange(0, 0));
    loop
        invariant
            0 <= i <= w@.len(),
            q == p + i,
            q <= s.len(),
            chars.obeys_prophetic_iter_laws(),
            chars.remaining() == w@.subrange(i, w@.len() as int),
            s@.subrange(p as int, q as int) == w@.subrange(0, i),
        decreases w@.len() - i,
    {
        let ghost before = chars;
        match chars.next() {
            Some(c) => {
                assert(before.remaining().len() > 0);
                assert(c == w@[i]);
                if q >= s.len() || s[q] != c {
                    proof {
                        if lit(s@, p as int, w@) {
                            assert(s@.subrange(p as int, p + w@.len())[i] == w@[i]);
                        }
                    }
                    return None;
                }
                q += 1;
                proof {
                    i = i + 1;
                    assert(s@.subrange(p as int, q as int) =~= w@.subrange(0, i));
                    assert(chars.remaining() =~= w@.subrange(i, w@.len() as int));
                }
            },
            None => {
                assert(i == w@.len());
                assert(w@.subrange(0, i) =~= w@);
                return Some(q);
            },
        }
    }
}

// ---------------------------------------------------------------------------
// Rules shared by the grammars
//
// Each rule is a parsing expression: it either fails or consumes a prefix of
// the text from a position and yields a value and the position after it.
// Choices are ordered and take the first alternative that succeeds, and
// repetitions are greedy. Some rules recheck that a position they recurse at
// lies ahead of where they started and within the text; that always holds,
// and it is what makes the recursion visibly well-founded.

/// Why a text is not what a grammar reads: the position, in characters, where
/// reading stopped.
#[derive(Debug, PartialEq, Eq)]
pub struct SyntaxError {
    pub position: usize,
}

/// Where a rule that read from the start stopped: the end of what it read, or
/// the start when it read nothing.
pub open spec fn stopped_at<T>(r: Option<(T, int)>) -> int {
    match r {
        Some((_, q)) => q,
        None => 0,
    }
}


pub open spec fn either<T>(a: Option<T>, b: Option<T>) -> Option<T> {
    if a is Some {
        a
    } else {
        b
    }
}

pub open spec fn is_ident_char(c: char) -> bool {
    ('a' <= c && c <= 'z') || ('A' <= c && c <= 'Z') || ('0' <= c && c <= '9')
}

pub open spec fn is_digit(c: char) -> bool {
    '0' <= c && c <= '9'
}

/// The end of the run of identifier characters from `p`.
pub open spec fn ident_end(s: Seq<char>, p: int) -> int
    decreases s.len() - p,
{
    if 0 <= p < s.len() && is_ident_char(s[p]) {
        ident_end(s, p + 1)
    } else {
        p
    }
}

/// The end of the run of digits from `p`.
pub open spec fn digits_end(s: Seq<char>, p: int) -> int
    decreases s.len() - p,
{
    if 0 <= p < s.len() && is_digit(s[p]) {
        digits_end(s, p + 1)
    } else {
        p
    }
}

/// The number that decimal digits write.
pub open spec fn digits_value(ds: Seq<char>) -> nat
    decreases ds.len(),
{
    if ds.len() == 0 {
        0
    } else {
        digits_value(ds.drop_last()) * 10 + (ds.last() as int - '0' as int) as nat
    }
}

/// `p < q`, and `q` lies within the text.
pub open spec fn ahead(s: Seq<char>, p: int, q: int) -> bool {
    p < q <= s.len()
}

pub open spec fn ident(s: Seq<char>, p: int) -> Option<(Seq<char>, int)> {
    let e = ident_end(s, p);
    if 0 <= p && p < e {
        Some((s.subrange(p, e), e))
    } else {
        None
    }
}

pub open spec fn var(s: Seq<char>, p: int) -> Option<(Expr, int)> {
    match ident(s, p) {
        Some((x, q)) => Some((Expr::Variable(x), q)),
        None => None,
    }
}

/// `"-"? ['0'..='9']+`: a natural number, or a negative integer. A number
/// that does not fit the machine's integers is no constant.
pub open spec fn cons(s: Seq<char>, p: int) -> Option<(Expr, int)> {
    let neg = lit(s, p, "-"@);
    let q = if neg { p + "-"@.len() } else { p };
    let e = digits_end(s, q);
    if 0 <= q && q < e {
        let v = digits_value(s.subrange(q, e));
        if neg {
            if v <= isize::MAX {
                Some((Expr::Constant(Val::Integer((-v) as isize)), e))
            } else {
                None
            }
        } else {
            if v <= usize::MAX {
                Some((Expr::Constant(Val::Natural(v as usize)), e))
            } else {
                None
            }
        }
    } else {
        None
    }
}

pub open spec fn primitive(s: Seq<char>, p: int) -> Option<(Ty, int)> {
    if lit(s, p, "empty"@) {
        Some((Ty::Empty, p + "empty"@.len()))
    } else if lit(s, p, "unit"@) {
        Some((Ty::Unit, p + "unit"@.len()))
    } else if lit(s, p, "bool"@) {
        Some((Ty::Boolean, p + "bool"@.len()))
    } else if lit(s, p, "nat"@) {
        Some((Ty::Natural, p + "nat"@.len()))
    } else if lit(s, p, "int"@) {
        Some((Ty::Integer, p + "int"@.len()))
    } else {
        None
    }
}

pub open spec fn parsed(r: Option<(Expression, usize)>) -> Option<(Expr, int)> {
    match r {
        Some((e, q)) => Some((e@, q as int)),
        None => None,
    }
}

pub open spec fn parsed_kind(r: Option<(Type, usize)>) -> Option<(Ty, int)> {
    match r {
        Some((t, q)) => Some((t@, q as int)),
        None => None,
    }
}

/// A rule's end position lies within a text of length `n`.
pub open spec fn ends_within<T>(r: Option<(T, usize)>, n: nat) -> bool {
    match r {
        Some((_, q)) => q <= n,
        None => true,
    }
}

pub(crate) fn is_ident_char_exec(c: char) -> (r: bool)
    ensures
        r == is_ident_char(c),
{
    ('a' <= c && c <= 'z') || ('A' <= c && c <= 'Z') || ('0' <= c && c <= '9')
}

pub(crate) fn ident_end_at(s: &Vec<char>, p: usize) -> (r: usize)
    requires
        p <= s.len(),
    ensures
        r == ident_end(s@, p as int),
        p <= r <= s.len(),
{
    let mut i: usize = p;
    while i < s.len() && is_ident_char_exec(s[i])
        invariant
            p <= i <= s.len(),
            ident_end(s@, i as int) == ident_end(s@, p as int),
        decreases s.len() - i,
    {
        i += 1;
    }
    i
}

pub(crate) fn digits_end_at(s: &Vec<char>, p: usize) -> (r: usize)
    requires
        p <= s.len(),
    ensures
        r == digits_end(s@, p as int),
        p <= r <= s.len(),
        forall|i: int| p <= i < r ==> is_digit(#[trigger] s@[i]),
{
    let mut i: usize = p;
    while i < s.len() && '0' <= s[i] && s[i] <= '9'
        invariant
            p <= i <= s.len(),
            digits_end(s@, i as int) == digits_end(s@, p as int),
            forall|j: int| p <= j < i ==> is_digit(#[trigger] s@[j]),
        decreases s.len() - i,
    {
        i += 1;
    }
    i
}

proof fn lemma_digits_value_prefix(ds: Seq<char>, k: int)
    requires
        0 <= k <= ds.len(),
    ensures
        digits_value(ds.subrange(0, k)) <= digits_value(ds),
    decreases ds.len() - k,
{
    if k < ds.len() {
        let next = ds.subrange(0, k + 1);
        assert(next.drop_last() =~= ds.subrange(0, k));
        lemma_digits_value_prefix(ds, k + 1);
    } else {
        assert(ds.subrange(0, k) =~= ds);
    }
}

/// The number written by the digits between `p` and `e`, if it fits.
pub(crate) fn digits_value_at(s: &Vec<char>, p: usize, e: usize) -> (r: Option<usize>)
    requires
        p <= e <= s.len(),
        forall|i: int| p <= i < e ==> is_digit(#[trigger] s@[i]),
    ensures
        match r {
            Some(v) => v == digits_value(s@.subrange(p as int, e as int)),
            None => digits_value(s@.subrange(p as int, e as int)) > usize::MAX,
        },
{
    let mut acc: usize = 0;
    let mut i: usize = p;
    assert(s@.subrange(p as int, p as int) =~= Seq::<char>::empty());
    while i < e
        invariant
            p <= i <= e,
            e <= s.len(),
            forall|j: int| p <= j < e ==> is_digit(#[trigger] s@[j]),
            acc == digits_value(s@.subrange(p as int, i as int)),
        decreases e - i,
    {
        let ghost next = s@.subrange(p as int, i + 1);
        assert(next.drop_last() =~= s@.subrange(p as int, i as int));
        assert(is_digit(s@[i as int]));
        let d = (s[i] as u32 - '0' as u32) as usize;
        assert(d == (next.last() as int - '0' as int));
        let grown = match acc.checked_mul(10) {
            Some(m) => m.checked_add(d),
            None => None,
        };
        match grown {
            Some(v) => acc = v,
            None => {
                proof {
                    let whole = s@.subrange(p as int, e as int);
                    assert(whole.subrange(0, i + 1 - p) =~= next);
                    lemma_digits_value_prefix(whole, i + 1 - p);
                }
                return None;
            },
        }
        i += 1;
    }
    Some(acc)
}

/// The text between `p` and `e`.
pub(crate) fn text_between(s: &Vec<char>, p: usize, e: usize) -> (r: String)
    requires
        p <= e <= s.len(),
    ensures
        r@ == s@.subrange(p as int, e as int),
{
    let mut r = String::new();
    let mut i: usize = p;
    while i < e
        invariant
            p <= i <= e,
            e <= s.len(),
            r@ == s@.subrange(p as int, i as int),
        decreases e - i,
    {
        push_char(&mut r, s[i]);
        i += 1;
        assert(r@ =~= s@.subrange(p as int, i as int));
    }
    r
}

pub(crate) fn parse_var(s: &Vec<char>, p: usize) -> (r: Option<(Expression, usize)>)
    requires
        p <= s.len(),
    ensures
        parsed(r) == var(s@, p as int),
        ends_within(r, s.len() as nat),
{
    let e = ident_end_at(s, p);
    if p < e {
        Some((Expression::Variable { id: text_between(s, p, e) }, e))
    } else {
        None
    }
}

pub(crate) fn parse_cons(s: &Vec<char>, p: usize) -> (r: Option<(Expression, usize)>)
    requires
        p <= s.len(),
    ensures
        parsed(r) == cons(s@, p as int),
        ends_within(r, s.len() as nat),
{
    let (neg, q) = match lit_at(s, p, "-") {
        Some(q) => (true, q),
        None => (false, p),
    };
    let e = digits_end_at(s, q);
    if e <= q {
        return None;
    }
    match digits_value_at(s, q, e) {
        Some(v) => if neg {
            if v <= isize::MAX as usize {
                let n = -(v as isize);
                Some((Expression::Constant { term: Term::Integer(n) }, e))
            } else {
                None
            }
        } else {
            Some((Expression::Constant { term: Term::Natural(v) }, e))
        },
        None => None,
    }
}

pub(crate) fn parse_primitive(s: &Vec<char>, p: usize) -> (r: Option<(Type, usize)>)
    requires
        p <= s.len(),
    ensures
        parsed_kind(r) == primitive(s@, p as int),
        ends_within(r, s.len() as nat),
{
    if let Some(q) = lit_at(s, p, "empty") {
        return Some((Type::Empty, q));
    }
    if let Some(q) = lit_at(s, p, "unit") {
        return Some((Type::Unit, q));
    }
    if let Some(q) = lit_at(s, p, "bool") {
        return Some((Type::Boolean, q));
    }
    if let Some(q) = lit_at(s, p, "nat") {
        return Some((Type::Natural, q));
    }
    if let Some(q) = lit_at(s, p, "int") {
        return Some((Type::Integer, q));
    }
    None
}

/// The characters of a text.
pub(crate) fn chars_of(text: &str) -> (v: Vec<char>)
    ensures
        v@ == text@,
{
    let mut v: Vec<char> = Vec::new();
    let mut chars = text.chars();
    let ghost mut i: int = 0;
    loop
        invariant
            0 <= i <= text@.len(),
            chars.obeys_prophetic_iter_laws(),
            chars.remaining() == text@.subrange(i, text@.len() as int),
            v@ == text@.subrange(0, i),
        decreases text@.len() - i,
    {
        let ghost before = chars;
        match chars.next() {
            Some(c) => {
                assert(before.remaining().len() > 0);
                v.push(c);
                proof {
                    i = i + 1;
                    assert(v@ =~= text@.subrange(0, i));
                    assert(chars.remaining() =~= text@.subrange(i, text@.len() as int));
                }
            },
            None => {
                assert(i == text@.len());
                assert(v@ =~= text@);
                return v;
            },
        }
    }
}

} // verus!
