#![allow(non_snake_case, non_upper_case_globals)]
//! Builders for syntax trees, and fresh identifiers.

use vstd::prelude::*;
use crate::ast::{Expr, Expression, Term, Ty, Type, Val};

verus! {

/// Relies on `String::push`: appends one character.
#[verifier::external_body]
pub(crate) fn push_char(s: &mut String, c: char)
    ensures
        final(s)@ == old(s)@.push(c),
{
    s.push(c)
}

/// The upper-case hexadecimal digit of `d`.
pub open spec fn hex_digit(d: nat) -> char {
    if d < 10 {
        ('0' as u32 + d) as char
    } else {
        ('A' as u32 + (d - 10)) as char
    }
}

/// `n` in upper-case hexadecimal, without leading zeros.
pub open spec fn hex_of(n: nat) -> Seq<char>
    decreases n,
{
    if n < 16 {
        seq![hex_digit(n)]
    } else {
        hex_of(n / 16).push(hex_digit(n % 16))
    }
}

pub(crate) fn hex_char(d: u8) -> (c: char)
    requires
        d < 16,
    ensures
        c == hex_digit(d as nat),
{
    match d {
        0 => '0',
        1 => '1',
        2 => '2',
        3 => '3',
        4 => '4',
        5 => '5',
        6 => '6',
        7 => '7',
        8 => '8',
        9 => '9',
        10 => 'A',
        11 => 'B',
        12 => 'C',
        13 => 'D',
        14 => 'E',
        _ => 'F',
    }
}

/// A fresh identifier: advances the counter and names its new value in
/// hexadecimal. The counter is deliberately small; it must not wrap.
pub fn unique_ident(count: &mut u8) -> (r: String)
    requires
        *old(count) < 255,
    ensures
        *final(count) == *old(count) + 1,
        r@ == hex_of(*final(count) as nat),
{
    *count += 1;
    let n = *count;
    let mut r = String::new();
    if n >= 16 {
        push_char(&mut r, hex_char(n / 16));
    }
    push_char(&mut r, hex_char(n % 16));
    proof {
        if n >= 16 {
            assert(hex_of((n / 16) as nat) == seq![hex_digit((n / 16) as nat)]);
            assert(r@ =~= hex_of(n as nat));
        } else {
            assert(r@ =~= hex_of(n as nat));
        }
    }
    r
}

pub fn Ann(expr: Expression, kind: Type) -> (r: Expression)
    ensures
        r@ == Expr::Annotation(Box::new(expr@), kind@),
{
    Expression::Annotation { expr: Box::new(expr), kind }
}

pub fn Const(term: Term) -> (r: Expression)
    ensures
        r@ == Expr::Constant(term@),
{
    Expression::Constant { term }
}

pub fn Var(id: &str) -> (r: Expression)
    ensures
        r@ == Expr::Variable(id@),
{
    Expression::Variable { id: id.to_owned() }
}

pub fn Abs(param: &str, func: Expression) -> (r: Expression)
    ensures
        r@ == Expr::Abstraction(param@, Box::new(func@)),
{
    Expression::Abstraction { param: param.to_owned(), func: Box::new(func) }
}

pub fn App(func: Expression, arg: Expression) -> (r: Expression)
    ensures
        r@ == Expr::Application(Box::new(func@), Box::new(arg@)),
{
    Expression::Application { func: Box::new(func), arg: Box::new(arg) }
}

pub fn Cond(if_cond: Expression, if_then: Expression, if_else: Expression) -> (r: Expression)
    ensures
        r@ == Expr::Conditional(Box::new(if_cond@), Box::new(if_then@), Box::new(if_else@)),
{
    Expression::Conditional {
        if_cond: Box::new(if_cond),
        if_then: Box::new(if_then),
        if_else: Box::new(if_else),
    }
}

pub fn Func(from: Type, to: Type) -> (r: Type)
    ensures
        r@ == Ty::Function(Box::new(from@), Box::new(to@)),
{
    Type::Function { from: Box::new(from), to: Box::new(to) }
}

pub fn Str(data: &str) -> (r: Term)
    ensures
        r@ == Val::Str(data@),
{
    Term::String(data.to_owned())
}

pub fn Union(data: Term) -> (r: Term)
    ensures
        r@ == Val::Union(Box::new(data@)),
{
    Term::Union(Box::new(data))
}

pub const Empty: Type = Type::Empty;

pub const Error: Type = Type::Error;

pub const Unit: Type = Type::Unit;

pub const Bool: Type = Type::Boolean;

pub const Nat: Type = Type::Natural;

pub const Int: Type = Type::Integer;

} // verus!
