//! The expression grammar: lambda terms with annotations and conditionals.
use vstd::prelude::*;
use crate::ast::{Expr, Expression, Term, Ty, Type, Val};
use crate::parser::{
    ahead, chars_of, cons, either, ends_within, is_ident_char, is_ident_char_exec, ident, ident_end_at, lit, lit_at,
    parse_cons, parse_primitive, parse_var, parsed, parsed_kind, primitive, stopped_at, text_between, var, SyntaxError,
};

verus! {

/// The end of the run of spaces from `p`.
pub open spec fn spaces_end(s: Seq<char>, p: int) -> int
    decreases s.len() - p,
{
    if 0 <= p < s.len() && s[p] == ' ' {
        spaces_end(s, p + 1)
    } else {
        p
    }
}

/// `true` or `false`, not followed by another identifier character.
pub open spec fn boolean(s: Seq<char>, p: int) -> Option<(Expr, int)> {
    let t = p + "true"@.len();
    let f = p + "false"@.len();
    if lit(s, p, "true"@) && !(t < s.len() && is_ident_char(s[t])) {
        Some((Expr::Constant(Val::Boolean(true)), t))
    } else if lit(s, p, "false"@) && !(f < s.len() && is_ident_char(s[f])) {
        Some((Expr::Constant(Val::Boolean(false)), f))
    } else {
        None
    }
}

/// `function / primitive`
pub open spec fn kind(s: Seq<char>, p: int) -> Option<(Ty, int)>
    decreases s.len() - p, 1nat,
{
    if !(0 <= p <= s.len()) {
        None
    } else {
        either(function(s, p), primitive(s, p))
    }
}

/// `"(" kind " "* "->" " "* kind ")"`
pub open spec fn function(s: Seq<char>, p: int) -> Option<(Ty, int)>
    decreases s.len() - p, 0nat,
{
    let q = p + "("@.len();
    if !(0 <= p <= s.len()) || !lit(s, p, "("@) || !ahead(s, p, q) {
        None
    } else {
        match kind(s, q) {
            Some((f, q1)) => {
                let q2 = spaces_end(s, q1);
                let q3 = spaces_end(s, q2 + "->"@.len());
                if !lit(s, q2, "->"@) || !ahead(s, p, q3) {
                    None
                } else {
                    match kind(s, q3) {
                        Some((t, q4)) => if lit(s, q4, ")"@) {
                            Some((Ty::Function(Box::new(f), Box::new(t)), q4 + ")"@.len()))
                        } else {
                            None
                        },
                        None => None,
                    }
                }
            },
            None => None,
        }
    }
}

/// `unbracketed / bracketed`
pub open spec fn expr(s: Seq<char>, p: int) -> Option<(Expr, int)>
    decreases s.len() - p, 4nat,
{
    if !(0 <= p <= s.len()) {
        None
    } else {
        either(unbracketed(s, p), bracketed(s, p))
    }
}

/// `cond / ann / abs / app / cons / boolean / var`
pub open spec fn unbracketed(s: Seq<char>, p: int) -> Option<(Expr, int)>
    decreases s.len() - p, 3nat,
{
    if !(0 <= p <= s.len()) {
        None
    } else {
        either(
            cond(s, p),
            either(ann(s, p), either(abs(s, p), either(app(s, p), either(cons(s, p), either(boolean(s, p), var(s, p)))))),
        )
    }
}

/// `(bracketed / cond / abs / app / cons / boolean / var) " "* ":" " "* kind`
pub open spec fn ann(s: Seq<char>, p: int) -> Option<(Expr, int)>
    decreases s.len() - p, 2nat,
{
    if !(0 <= p <= s.len()) {
        None
    } else {
        match either(
            bracketed(s, p),
            either(cond(s, p), either(abs(s, p), either(app(s, p), either(cons(s, p), either(boolean(s, p), var(s, p)))))),
        ) {
            Some((e, q)) => {
                let q1 = spaces_end(s, q);
                if !lit(s, q1, ":"@) {
                    None
                } else {
                    match kind(s, spaces_end(s, q1 + ":"@.len())) {
                        Some((k, q2)) => Some((Expr::Annotation(Box::new(e), k), q2)),
                        None => None,
                    }
                }
            },
            None => None,
        }
    }
}

/// `"(" " "* (cond / ann / abs / app / cons / boolean / var) " "* ")"`
pub open spec fn bracketed(s: Seq<char>, p: int) -> Option<(Expr, int)>
    decreases s.len() - p, 1nat,
{
    let q = spaces_end(s, p + "("@.len());
    if !(0 <= p <= s.len()) || !lit(s, p, "("@) || !ahead(s, p, q) {
        None
    } else {
        match either(
            cond(s, q),
            either(ann(s, q), either(abs(s, q), either(app(s, q), either(cons(s, q), either(boolean(s, q), var(s, q)))))),
        ) {
            Some((e, q1)) => {
                let q2 = spaces_end(s, q1);
                if lit(s, q2, ")"@) {
                    Some((e, q2 + ")"@.len()))
                } else {
                    None
                }
            },
            None => None,
        }
    }
}

/// `("λ" / "lambda ") " "* ident " "* "." " "* expr`
pub open spec fn abs(s: Seq<char>, p: int) -> Option<(Expr, int)>
    decreases s.len() - p, 1nat,
{
    let q = if lit(s, p, "λ"@) { p + "λ"@.len() } else { p + "lambda "@.len() };
    if !(0 <= p <= s.len()) || !(lit(s, p, "λ"@) || lit(s, p, "lambda "@)) {
        None
    } else {
        match ident(s, spaces_end(s, q)) {
            Some((x, q1)) => {
                let q2 = spaces_end(s, q1);
                let q3 = spaces_end(s, q2 + "."@.len());
                if !lit(s, q2, "."@) || !ahead(s, p, q3) {
                    None
                } else {
                    match expr(s, q3) {
                        Some((f, q4)) => Some((Expr::Abstraction(x, Box::new(f)), q4)),
                        None => None,
                    }
                }
            },
            None => None,
        }
    }
}

/// `"(" expr ")" " "* expr`
pub open spec fn app(s: Seq<char>, p: int) -> Option<(Expr, int)>
    decreases s.len() - p, 1nat,
{
    let q = p + "("@.len();
    if !(0 <= p <= s.len()) || !lit(s, p, "("@) || !ahead(s, p, q) {
        None
    } else {
        match expr(s, q) {
            Some((f, q1)) => {
                let q2 = spaces_end(s, q1 + ")"@.len());
                if !lit(s, q1, ")"@) || !ahead(s, p, q2) {
                    None
                } else {
                    match expr(s, q2) {
                        Some((a, q3)) => Some((Expr::Application(Box::new(f), Box::new(a)), q3)),
                        None => None,
                    }
                }
            },
            None => None,
        }
    }
}

/// `"if" " "+ expr " "+ "then" " "+ expr " "+ "else" " "+ expr`
pub open spec fn cond(s: Seq<char>, p: int) -> Option<(Expr, int)>
    decreases s.len() - p, 1nat,
{
    let q = p + "if"@.len();
    let q1 = spaces_end(s, q);
    if !(0 <= p <= s.len()) || !lit(s, p, "if"@) || !(q < q1) || !ahead(s, p, q1) {
        None
    } else {
        match expr(s, q1) {
            Some((c, q2)) => {
                let q3 = spaces_end(s, q2);
                let q4 = q3 + "then"@.len();
                let q5 = spaces_end(s, q4);
                if !(q2 < q3) || !lit(s, q3, "then"@) || !(q4 < q5) || !ahead(s, p, q5) {
                    None
                } else {
                    match expr(s, q5) {
                        Some((t, q6)) => {
                            let q7 = spaces_end(s, q6);
                            let q8 = q7 + "else"@.len();
                            let q9 = spaces_end(s, q8);
                            if !(q6 < q7) || !lit(s, q7, "else"@) || !(q8 < q9) || !ahead(s, p, q9) {
                                None
                            } else {
                                match expr(s, q9) {
                                    Some((e, q10)) => Some(
                                        (Expr::Conditional(Box::new(c), Box::new(t), Box::new(e)), q10),
                                    ),
                                    None => None,
                                }
                            }
                        },
                        None => None,
                    }
                }
            },
            None => None,
        }
    }
}

/// The expression that the whole text writes, if it writes one.
pub open spec fn lambda_parse(s: Seq<char>) -> Option<Expr> {
    match expr(s, 0) {
        Some((e, q)) => if q == s.len() {
            Some(e)
        } else {
            None
        },
        None => None,
    }
}

fn spaces_end_at(s: &Vec<char>, p: usize) -> (r: usize)
    requires
        p <= s.len(),
    ensures
        r == spaces_end(s@, p as int),
        p <= r <= s.len(),
{
    let mut i: usize = p;
    while i < s.len() && s[i] == ' '
        invariant
            p <= i <= s.len(),
            spaces_end(s@, i as int) == spaces_end(s@, p as int),
        decreases s.len() - i,
    {
        i += 1;
    }
    i
}

fn parse_boolean(s: &Vec<char>, p: usize) -> (r: Option<(Expression, usize)>)
    requires
        p <= s.len(),
    ensures
        parsed(r) == boolean(s@, p as int),
        ends_within(r, s.len() as nat),
{
    if let Some(t) = lit_at(s, p, "true") {
        if !(t < s.len() && is_ident_char_exec(s[t])) {
            return Some((Expression::Constant { term: Term::Boolean(true) }, t));
        }
    }
    if let Some(f) = lit_at(s, p, "false") {
        if !(f < s.len() && is_ident_char_exec(s[f])) {
            return Some((Expression::Constant { term: Term::Boolean(false) }, f));
        }
    }
    None
}

fn parse_kind(s: &Vec<char>, p: usize) -> (r: Option<(Type, usize)>)
    requires
        p <= s.len(),
    ensures
        parsed_kind(r) == kind(s@, p as int),
        ends_within(r, s.len() as nat),
    decreases s@.len() - p, 1nat,
{
    match parse_function(s, p) {
        Some(r) => Some(r),
        None => parse_primitive(s, p),
    }
}

fn parse_function(s: &Vec<char>, p: usize) -> (r: Option<(Type, usize)>)
    requires
        p <= s.len(),
    ensures
        parsed_kind(r) == function(s@, p as int),
        ends_within(r, s.len() as nat),
    decreases s@.len() - p, 0nat,
{
    let q = match lit_at(s, p, "(") {
        Some(q) => q,
        None => return None,
    };
    if !(p < q) {
        return None;
    }
    let (f, q1) = match parse_kind(s, q) {
        Some(x) => x,
        None => return None,
    };
    let q2 = spaces_end_at(s, q1);
    let q3 = match lit_at(s, q2, "->") {
        Some(x) => spaces_end_at(s, x),
        None => return None,
    };
    if !(p < q3) {
        return None;
    }
    let (t, q4) = match parse_kind(s, q3) {
        Some(x) => x,
        None => return None,
    };
    match lit_at(s, q4, ")") {
        Some(q5) => Some((Type::Function { from: Box::new(f), to: Box::new(t) }, q5)),
        None => None,
    }
}

fn parse_expr(s: &Vec<char>, p: usize) -> (r: Option<(Expression, usize)>)
    requires
        p <= s.len(),
    ensures
        parsed(r) == expr(s@, p as int),
        ends_within(r, s.len() as nat),
    decreases s@.len() - p, 4nat,
{
    match parse_unbracketed(s, p) {
        Some(r) => Some(r),
        None => parse_bracketed(s, p),
    }
}

/// `cons / boolean / var`, the alternatives that every choice ends with.
fn parse_leaf(s: &Vec<char>, p: usize) -> (r: Option<(Expression, usize)>)
    requires
        p <= s.len(),
    ensures
        parsed(r) == either(cons(s@, p as int), either(boolean(s@, p as int), var(s@, p as int))),
        ends_within(r, s.len() as nat),
{
    if let Some(r) = parse_cons(s, p) {
        return Some(r);
    }
    if let Some(r) = parse_boolean(s, p) {
        return Some(r);
    }
    parse_var(s, p)
}

fn parse_unbracketed(s: &Vec<char>, p: usize) -> (r: Option<(Expression, usize)>)
    requires
        p <= s.len(),
    ensures
        parsed(r) == unbracketed(s@, p as int),
        ends_within(r, s.len() as nat),
    decreases s@.len() - p, 3nat,
{
    if let Some(r) = parse_cond(s, p) {
        return Some(r);
    }
    if let Some(r) = parse_ann(s, p) {
        return Some(r);
    }
    if let Some(r) = parse_abs(s, p) {
        return Some(r);
    }
    if let Some(r) = parse_app(s, p) {
        return Some(r);
    }
    parse_leaf(s, p)
}

fn parse_ann(s: &Vec<char>, p: usize) -> (r: Option<(Expression, usize)>)
    requires
        p <= s.len(),
    ensures
        parsed(r) == ann(s@, p as int),
        ends_within(r, s.len() as nat),
    decreases s@.len() - p, 2nat,
{
    let first = match parse_bracketed(s, p) {
        Some(r) => Some(r),
        None => match parse_cond(s, p) {
            Some(r) => Some(r),
            None => match parse_abs(s, p) {
                Some(r) => Some(r),
                None => match parse_app(s, p) {
                    Some(r) => Some(r),
                    None => parse_leaf(s, p),
                },
            },
        },
    };
    let (e, q) = match first {
        Some(x) => x,
        None => return None,
    };
    let q1 = spaces_end_at(s, q);
    let q2 = match lit_at(s, q1, ":") {
        Some(x) => spaces_end_at(s, x),
        None => return None,
    };
    match parse_kind(s, q2) {
        Some((k, q3)) => Some((Expression::Annotation { expr: Box::new(e), kind: k }, q3)),
        None => None,
    }
}

fn parse_bracketed(s: &Vec<char>, p: usize) -> (r: Option<(Expression, usize)>)
    requires
        p <= s.len(),
    ensures
        parsed(r) == bracketed(s@, p as int),
        ends_within(r, s.len() as nat),
    decreases s@.len() - p, 1nat,
{
    let q = match lit_at(s, p, "(") {
        Some(x) => spaces_end_at(s, x),
        None => return None,
    };
    if !(p < q) {
        return None;
    }
    let inner = match parse_cond(s, q) {
        Some(r) => Some(r),
        None => match parse_ann(s, q) {
            Some(r) => Some(r),
            None => match parse_abs(s, q) {
                Some(r) => Some(r),
                None => match parse_app(s, q) {
                    Some(r) => Some(r),
                    None => parse_leaf(s, q),
                },
            },
        },
    };
    let (e, q1) = match inner {
        Some(x) => x,
        None => return None,
    };
    let q2 = spaces_end_at(s, q1);
    match lit_at(s, q2, ")") {
        Some(q3) => Some((e, q3)),
        None => None,
    }
}

fn parse_abs(s: &Vec<char>, p: usize) -> (r: Option<(Expression, usize)>)
    requires
        p <= s.len(),
    ensures
        parsed(r) == abs(s@, p as int),
        ends_within(r, s.len() as nat),
    decreases s@.len() - p, 1nat,
{
    let q = match lit_at(s, p, "λ") {
        Some(x) => x,
        None => match lit_at(s, p, "lambda ") {
            Some(x) => x,
            None => return None,
        },
    };
    let q0 = spaces_end_at(s, q);
    let e = ident_end_at(s, q0);
    if !(q0 < e) {
        return None;
    }
    let x = text_between(s, q0, e);
    let q2 = spaces_end_at(s, e);
    let q3 = match lit_at(s, q2, ".") {
        Some(y) => spaces_end_at(s, y),
        None => return None,
    };
    if !(p < q3) {
        return None;
    }
    match parse_expr(s, q3) {
        Some((f, q4)) => Some((Expression::Abstraction { param: x, func: Box::new(f) }, q4)),
        None => None,
    }
}

fn parse_app(s: &Vec<char>, p: usize) -> (r: Option<(Expression, usize)>)
    requires
        p <= s.len(),
    ensures
        parsed(r) == app(s@, p as int),
        ends_within(r, s.len() as nat),
    decreases s@.len() - p, 1nat,
{
    let q = match lit_at(s, p, "(") {
        Some(x) => x,
        None => return None,
    };
    if !(p < q) {
        return None;
    }
    let (f, q1) = match parse_expr(s, q) {
        Some(x) => x,
        None => return None,
    };
    let q2 = match lit_at(s, q1, ")") {
        Some(x) => spaces_end_at(s, x),
        None => return None,
    };
    if !(p < q2) {
        return None;
    }
    match parse_expr(s, q2) {
        Some((a, q3)) => Some((Expression::Application { func: Box::new(f), arg: Box::new(a) }, q3)),
        None => None,
    }
}

fn parse_cond(s: &Vec<char>, p: usize) -> (r: Option<(Expression, usize)>)
    requires
        p <= s.len(),
    ensures
        parsed(r) == cond(s@, p as int),
        ends_within(r, s.len() as nat),
    decreases s@.len() - p, 1nat,
{
    let q = match lit_at(s, p, "if") {
        Some(x) => x,
        None => return None,
    };
    let q1 = spaces_end_at(s, q);
    if !(q < q1 && p < q1) {
        return None;
    }
    let (c, q2) = match parse_expr(s, q1) {
        Some(x) => x,
        None => return None,
    };
    let q3 = spaces_end_at(s, q2);
    if !(q2 < q3) {
        return None;
    }
    let q4 = match lit_at(s, q3, "then") {
        Some(x) => x,
        None => return None,
    };
    let q5 = spaces_end_at(s, q4);
    if !(q4 < q5 && p < q5) {
        return None;
    }
    let (t, q6) = match parse_expr(s, q5) {
        Some(x) => x,
        None => return None,
    };
    let q7 = spaces_end_at(s, q6);
    if !(q6 < q7) {
        return None;
    }
    let q8 = match lit_at(s, q7, "else") {
        Some(x) => x,
        None => return None,
    };
    let q9 = spaces_end_at(s, q8);
    if !(q8 < q9 && p < q9) {
        return None;
    }
    match parse_expr(s, q9) {
        Some((e, q10)) => Some(
            (
                Expression::Conditional { if_cond: Box::new(c), if_then: Box::new(t), if_else: Box::new(e) },
                q10,
            ),
        ),
        None => None,
    }
}

/// Parses a whole text, already trimmed, as an expression.
pub fn parse_expression(text: &str) -> (r: Result<Expression, SyntaxError>)
    ensures
        match r {
            Ok(e) => lambda_parse(text@) == Some(e@),
            Err(e) => lambda_parse(text@) is None && e.position == stopped_at(expr(text@, 0)),
        },
{
    let s = chars_of(text);
    match parse_expr(&s, 0) {
        Some((e, q)) => if q == s.len() {
            Ok(e)
        } else {
            Err(SyntaxError { position: q })
        },
        None => Err(SyntaxError { position: 0 }),
    }
}

/// The Unicode White_Space characters, which `str::trim` removes.
pub open spec fn is_white_space(c: char) -> bool {
    ('\u{9}' <= c && c <= '\u{d}') || c == ' ' || c == '\u{85}' || c == '\u{a0}' || c == '\u{1680}'
        || ('\u{2000}' <= c && c <= '\u{200a}') || c == '\u{2028}' || c == '\u{2029}' || c == '\u{202f}'
        || c == '\u{205f}' || c == '\u{3000}'
}

/// The number of white space characters that begin `s`.
pub open spec fn leading_white(s: Seq<char>) -> nat
    decreases s.len(),
{
    if s.len() > 0 && is_white_space(s[0]) {
        1 + leading_white(s.drop_first())
    } else {
        0
    }
}

/// The number of white space characters that end `s`.
pub open spec fn trailing_white(s: Seq<char>) -> nat
    decreases s.len(),
{
    if s.len() > 0 && is_white_space(s.last()) {
        1 + trailing_white(s.drop_last())
    } else {
        0
    }
}

/// `s` without its leading and trailing white space.
pub open spec fn trimmed(s: Seq<char>) -> Seq<char> {
    if leading_white(s) >= s.len() {
        Seq::empty()
    } else {
        s.subrange(leading_white(s) as int, s.len() - trailing_white(s))
    }
}

/// Relies on `str::trim`: the text with leading and trailing White_Space
/// characters removed.
#[verifier::external_body]
fn trim(s: &str) -> (r: &str)
    ensures
        r@ == trimmed(s@),
{
    s.trim()
}

/// Parses a lambda-calculus-like language into an AST, ignoring surrounding
/// whitespace.
pub fn parse_lambda(input: &str) -> (r: Result<Expression, SyntaxError>)
    ensures
        match r {
            Ok(e) => lambda_parse(trimmed(input@)) == Some(e@),
            Err(e) => lambda_parse(trimmed(input@)) is None && e.position == stopped_at(
                expr(trimmed(input@), 0),
            ),
        },
{
    parse_expression(trim(input))
}

} // verus!
