//! The file grammar, over the bracketed text that `lex` produces.
use vstd::prelude::*;
use crate::ast::{Expr, Expression, Ty, Type};
use crate::parser::{
    ahead, chars_of, cons, either, ends_within, ident, ident_end_at, lit, lit_at, parse_cons, parse_primitive,
    parse_var, parsed, parsed_kind, primitive, stopped_at, text_between, var, SyntaxError,
};

verus! {

/// The end of the run of spaces and line breaks from `p`.
pub open spec fn ws_end(s: Seq<char>, p: int) -> int
    decreases s.len() - p,
{
    if 0 <= p < s.len() && (s[p] == ' ' || s[p] == '\n') {
        ws_end(s, p + 1)
    } else {
        p
    }
}

/// `w`: at least one space or line break.
pub open spec fn required_ws(s: Seq<char>, p: int) -> Option<int> {
    let q = ws_end(s, p);
    if p < q {
        Some(q)
    } else {
        None
    }
}

/// `w "=" w "{" w`
pub open spec fn opens_block(s: Seq<char>, p: int) -> Option<int> {
    match required_ws(s, p) {
        Some(a) => if lit(s, a, "="@) {
            match required_ws(s, a + "="@.len()) {
                Some(b) => if lit(s, b, "{"@) {
                    required_ws(s, b + "{"@.len())
                } else {
                    None
                },
                None => None,
            }
        } else {
            None
        },
        None => None,
    }
}

/// `w "}"`
pub open spec fn closes_block(s: Seq<char>, p: int) -> Option<int> {
    match required_ws(s, p) {
        Some(a) => if lit(s, a, "}"@) {
            Some(a + "}"@.len())
        } else {
            None
        },
        None => None,
    }
}

/// `w "};" w "else" w "=" w "{" w`
pub open spec fn else_block(s: Seq<char>, p: int) -> Option<int> {
    match required_ws(s, p) {
        Some(a) => if lit(s, a, "};"@) {
            match required_ws(s, a + "};"@.len()) {
                Some(b) => if lit(s, b, "else"@) {
                    opens_block(s, b + "else"@.len())
                } else {
                    None
                },
                None => None,
            }
        } else {
            None
        },
        None => None,
    }
}

/// `"(" w? kind w? "->" w? kind w? ")"`
pub open spec fn lang_function(s: Seq<char>, p: int) -> Option<(Ty, int)>
    decreases s.len() - p, 0nat,
{
    let q = ws_end(s, p + "("@.len());
    if !(0 <= p <= s.len()) || !lit(s, p, "("@) || !ahead(s, p, q) {
        None
    } else {
        match lang_kind(s, q) {
            Some((f, q1)) => {
                let q2 = ws_end(s, q1);
                let q3 = ws_end(s, q2 + "->"@.len());
                if !lit(s, q2, "->"@) || !ahead(s, p, q3) {
                    None
                } else {
                    match lang_kind(s, q3) {
                        Some((t, q4)) => {
                            let q5 = ws_end(s, q4);
                            if lit(s, q5, ")"@) {
                                Some((Ty::Function(Box::new(f), Box::new(t)), q5 + ")"@.len()))
                            } else {
                                None
                            }
                        },
                        None => None,
                    }
                }
            },
            None => None,
        }
    }
}

/// `lang_function / primitive`
pub open spec fn lang_kind(s: Seq<char>, p: int) -> Option<(Ty, int)>
    decreases s.len() - p, 1nat,
{
    if !(0 <= p <= s.len()) {
        None
    } else {
        either(lang_function(s, p), primitive(s, p))
    }
}

/// `(ann / cond / abs / app / cons / var) ";"`
pub open spec fn lang_expr(s: Seq<char>, p: int) -> Option<(Expr, int)>
    decreases s.len() - p, 3nat,
{
    if !(0 <= p <= s.len()) {
        None
    } else {
        match either(
            lang_ann(s, p),
            either(lang_cond(s, p), either(lang_abs(s, p), either(lang_app(s, p), either(cons(s, p), var(s, p))))),
        ) {
            Some((e, q)) => if lit(s, q, ";"@) {
                Some((e, q + ";"@.len()))
            } else {
                None
            },
            None => None,
        }
    }
}

/// `(cond / abs / app / cons / var) w? ":" w kind`
pub open spec fn lang_ann(s: Seq<char>, p: int) -> Option<(Expr, int)>
    decreases s.len() - p, 2nat,
{
    if !(0 <= p <= s.len()) {
        None
    } else {
        match either(lang_cond(s, p), either(lang_abs(s, p), either(lang_app(s, p), either(cons(s, p), var(s, p))))) {
            Some((e, q)) => {
                let q1 = ws_end(s, q);
                if !lit(s, q1, ":"@) {
                    None
                } else {
                    match required_ws(s, q1 + ":"@.len()) {
                        Some(q2) => match lang_kind(s, q2) {
                            Some((k, q3)) => Some((Expr::Annotation(Box::new(e), k), q3)),
                            None => None,
                        },
                        None => None,
                    }
                }
            },
            None => None,
        }
    }
}

/// `"func" w ident w? "(" ident ")" w? ":" w? lang_function w "=" w "{" w expr w "}"`:
/// a named function, as an annotated abstraction.
pub open spec fn lang_abs(s: Seq<char>, p: int) -> Option<(Expr, int)>
    decreases s.len() - p, 1nat,
{
    if !(0 <= p <= s.len()) || !lit(s, p, "func"@) {
        None
    } else {
        match required_ws(s, p + "func"@.len()) {
            Some(q1) => match ident(s, q1) {
                Some((_, q2)) => {
                    let q3 = ws_end(s, q2);
                    if !lit(s, q3, "("@) {
                        None
                    } else {
                        match ident(s, q3 + "("@.len()) {
                            Some((x, q4)) => {
                                let q5 = ws_end(s, q4 + ")"@.len());
                                let q6 = ws_end(s, q5 + ":"@.len());
                                if !lit(s, q4, ")"@) || !lit(s, q5, ":"@) {
                                    None
                                } else {
                                    match lang_function(s, q6) {
                                        Some((k, q7)) => match opens_block(s, q7) {
                                            Some(q8) => if !ahead(s, p, q8) {
                                                None
                                            } else {
                                                match lang_expr(s, q8) {
                                                    Some((f, q9)) => match closes_block(s, q9) {
                                                        Some(q10) => Some(
                                                            (
                                                                Expr::Annotation(
                                                                    Box::new(Expr::Abstraction(x, Box::new(f))),
                                                                    k,
                                                                ),
                                                                q10,
                                                            ),
                                                        ),
                                                        None => None,
                                                    },
                                                    None => None,
                                                }
                                            },
                                            None => None,
                                        },
                                        None => None,
                                    }
                                }
                            },
                            None => None,
                        }
                    }
                },
                None => None,
            },
            None => None,
        }
    }
}

/// `ident "(" expr ")"`: a call of a named function.
pub open spec fn lang_app(s: Seq<char>, p: int) -> Option<(Expr, int)>
    decreases s.len() - p, 1nat,
{
    if !(0 <= p <= s.len()) {
        None
    } else {
        match ident(s, p) {
            Some((f, q)) => {
                let q1 = q + "("@.len();
                if !lit(s, q, "("@) || !ahead(s, p, q1) {
                    None
                } else {
                    match lang_expr(s, q1) {
                        Some((a, q2)) => if lit(s, q2, ")"@) {
                            Some((Expr::Application(Box::new(Expr::Variable(f)), Box::new(a)), q2 + ")"@.len()))
                        } else {
                            None
                        },
                        None => None,
                    }
                }
            },
            None => None,
        }
    }
}

/// `"if" w expr w "=" w "{" w expr w "};" w "else" w "=" w "{" w expr w "}"`
pub open spec fn lang_cond(s: Seq<char>, p: int) -> Option<(Expr, int)>
    decreases s.len() - p, 1nat,
{
    if !(0 <= p <= s.len()) || !lit(s, p, "if"@) {
        None
    } else {
        match required_ws(s, p + "if"@.len()) {
            Some(q1) => if !ahead(s, p, q1) {
                None
            } else {
                match lang_expr(s, q1) {
                    Some((c, q2)) => match opens_block(s, q2) {
                        Some(q3) => if !ahead(s, p, q3) {
                            None
                        } else {
                            match lang_expr(s, q3) {
                                Some((t, q4)) => match else_block(s, q4) {
                                    Some(q5) => if !ahead(s, p, q5) {
                                        None
                                    } else {
                                        match lang_expr(s, q5) {
                                            Some((e, q6)) => match closes_block(s, q6) {
                                                Some(q7) => Some(
                                                    (Expr::Conditional(Box::new(c), Box::new(t), Box::new(e)), q7),
                                                ),
                                                None => None,
                                            },
                                            None => None,
                                        }
                                    },
                                    None => None,
                                },
                                None => None,
                            }
                        },
                        None => None,
                    },
                    None => None,
                }
            },
            None => None,
        }
    }
}

/// `expr ++ "\n"`: expressions separated by line breaks, as many as follow.
pub open spec fn lang_items(s: Seq<char>, p: int) -> Option<(Seq<Expr>, int)>
    decreases s.len() - p,
{
    if !(0 <= p <= s.len()) {
        None
    } else {
        match lang_expr(s, p) {
            Some((e, q)) => {
                let q1 = q + "\n"@.len();
                if lit(s, q, "\n"@) && ahead(s, p, q1) {
                    match lang_items(s, q1) {
                        Some((rest, q2)) => Some((seq![e] + rest, q2)),
                        None => Some((seq![e], q)),
                    }
                } else {
                    Some((seq![e], q))
                }
            },
            None => None,
        }
    }
}

/// The expressions that the whole text writes, if it writes any.
pub open spec fn lang_parse(s: Seq<char>) -> Option<Seq<Expr>> {
    match lang_items(s, 0) {
        Some((es, q)) => if q == s.len() {
            Some(es)
        } else {
            None
        },
        None => None,
    }
}

fn ws_end_at(s: &Vec<char>, p: usize) -> (r: usize)
    requires
        p <= s.len(),
    ensures
        r == ws_end(s@, p as int),
        p <= r <= s.len(),
{
    let mut i: usize = p;
    while i < s.len() && (s[i] == ' ' || s[i] == '\n')
        invariant
            p <= i <= s.len(),
            ws_end(s@, i as int) == ws_end(s@, p as int),
        decreases s.len() - i,
    {
        i += 1;
    }
    i
}

fn required_ws_at(s: &Vec<char>, p: usize) -> (r: Option<usize>)
    requires
        p <= s.len(),
    ensures
        match r {
            Some(q) => required_ws(s@, p as int) == Some(q as int) && q <= s.len(),
            None => required_ws(s@, p as int) is None,
        },
{
    let q = ws_end_at(s, p);
    if p < q {
        Some(q)
    } else {
        None
    }
}

fn opens_block_at(s: &Vec<char>, p: usize) -> (r: Option<usize>)
    requires
        p <= s.len(),
    ensures
        match r {
            Some(q) => opens_block(s@, p as int) == Some(q as int) && q <= s.len(),
            None => opens_block(s@, p as int) is None,
        },
{
    let a = match required_ws_at(s, p) {
        Some(a) => a,
        None => return None,
    };
    let a1 = match lit_at(s, a, "=") {
        Some(x) => x,
        None => return None,
    };
    let b = match required_ws_at(s, a1) {
        Some(b) => b,
        None => return None,
    };
    match lit_at(s, b, "{") {
        Some(b1) => required_ws_at(s, b1),
        None => None,
    }
}

fn closes_block_at(s: &Vec<char>, p: usize) -> (r: Option<usize>)
    requires
        p <= s.len(),
    ensures
        match r {
            Some(q) => closes_block(s@, p as int) == Some(q as int) && q <= s.len(),
            None => closes_block(s@, p as int) is None,
        },
{
    match required_ws_at(s, p) {
        Some(a) => lit_at(s, a, "}"),
        None => None,
    }
}

fn else_block_at(s: &Vec<char>, p: usize) -> (r: Option<usize>)
    requires
        p <= s.len(),
    ensures
        match r {
            Some(q) => else_block(s@, p as int) == Some(q as int) && q <= s.len(),
            None => else_block(s@, p as int) is None,
        },
{
    let a = match required_ws_at(s, p) {
        Some(a) => a,
        None => return None,
    };
    let a1 = match lit_at(s, a, "};") {
        Some(x) => x,
        None => return None,
    };
    let b = match required_ws_at(s, a1) {
        Some(b) => b,
        None => return None,
    };
    match lit_at(s, b, "else") {
        Some(b1) => opens_block_at(s, b1),
        None => None,
    }
}

fn lang_function_at(s: &Vec<char>, p: usize) -> (r: Option<(Type, usize)>)
    requires
        p <= s.len(),
    ensures
        parsed_kind(r) == lang_function(s@, p as int),
        ends_within(r, s.len() as nat),
    decreases s@.len() - p, 0nat,
{
    let q = match lit_at(s, p, "(") {
        Some(x) => ws_end_at(s, x),
        None => return None,
    };
    if !(p < q) {
        return None;
    }
    let (f, q1) = match lang_kind_at(s, q) {
        Some(x) => x,
        None => return None,
    };
    let q2 = ws_end_at(s, q1);
    let q3 = match lit_at(s, q2, "->") {
        Some(x) => ws_end_at(s, x),
        None => return None,
    };
    if !(p < q3) {
        return None;
    }
    let (t, q4) = match lang_kind_at(s, q3) {
        Some(x) => x,
        None => return None,
    };
    let q5 = ws_end_at(s, q4);
    match lit_at(s, q5, ")") {
        Some(q6) => Some((Type::Function { from: Box::new(f), to: Box::new(t) }, q6)),
        None => None,
    }
}

fn lang_kind_at(s: &Vec<char>, p: usize) -> (r: Option<(Type, usize)>)
    requires
        p <= s.len(),
    ensures
        parsed_kind(r) == lang_kind(s@, p as int),
        ends_within(r, s.len() as nat),
    decreases s@.len() - p, 1nat,
{
    match lang_function_at(s, p) {
        Some(r) => Some(r),
        None => parse_primitive(s, p),
    }
}

/// `cons / var`, the alternatives that every choice of the file grammar ends with.
fn lang_leaf_at(s: &Vec<char>, p: usize) -> (r: Option<(Expression, usize)>)
    requires
        p <= s.len(),
    ensures
        parsed(r) == either(cons(s@, p as int), var(s@, p as int)),
        ends_within(r, s.len() as nat),
{
    match parse_cons(s, p) {
        Some(r) => Some(r),
        None => parse_var(s, p),
    }
}

fn lang_expr_at(s: &Vec<char>, p: usize) -> (r: Option<(Expression, usize)>)
    requires
        p <= s.len(),
    ensures
        parsed(r) == lang_expr(s@, p as int),
        ends_within(r, s.len() as nat),
    decreases s@.len() - p, 3nat,
{
    let first = match lang_ann_at(s, p) {
        Some(r) => Some(r),
        None => match lang_cond_at(s, p) {
            Some(r) => Some(r),
            None => match lang_abs_at(s, p) {
                Some(r) => Some(r),
                None => match lang_app_at(s, p) {
                    Some(r) => Some(r),
                    None => lang_leaf_at(s, p),
                },
            },
        },
    };
    match first {
        Some((e, q)) => match lit_at(s, q, ";") {
            Some(q1) => Some((e, q1)),
            None => None,
        },
        None => None,
    }
}

fn lang_ann_at(s: &Vec<char>, p: usize) -> (r: Option<(Expression, usize)>)
    requires
        p <= s.len(),
    ensures
        parsed(r) == lang_ann(s@, p as int),
        ends_within(r, s.len() as nat),
    decreases s@.len() - p, 2nat,
{
    let first = match lang_cond_at(s, p) {
        Some(r) => Some(r),
        None => match lang_abs_at(s, p) {
            Some(r) => Some(r),
            None => match lang_app_at(s, p) {
                Some(r) => Some(r),
                None => lang_leaf_at(s, p),
            },
        },
    };
    let (e, q) = match first {
        Some(x) => x,
        None => return None,
    };
    let q1 = ws_end_at(s, q);
    let q2 = match lit_at(s, q1, ":") {
        Some(x) => match required_ws_at(s, x) {
            Some(y) => y,
            None => return None,
        },
        None => return None,
    };
    match lang_kind_at(s, q2) {
        Some((k, q3)) => Some((Expression::Annotation { expr: Box::new(e), kind: k }, q3)),
        None => None,
    }
}

fn lang_abs_at(s: &Vec<char>, p: usize) -> (r: Option<(Expression, usize)>)
    requires
        p <= s.len(),
    ensures
        parsed(r) == lang_abs(s@, p as int),
        ends_within(r, s.len() as nat),
    decreases s@.len() - p, 1nat,
{
    let q = match lit_at(s, p, "func") {
        Some(x) => x,
        None => return None,
    };
    let q1 = match required_ws_at(s, q) {
        Some(x) => x,
        None => return None,
    };
    let q2 = ident_end_at(s, q1);
    if !(q1 < q2) {
        return None;
    }
    let q3 = ws_end_at(s, q2);
    let p0 = match lit_at(s, q3, "(") {
        Some(x) => x,
        None => return None,
    };
    let q4 = ident_end_at(s, p0);
    if !(p0 < q4) {
        return None;
    }
    let x = text_between(s, p0, q4);
    assert(ident(s@, q1 as int) == Some((s@.subrange(q1 as int, q2 as int), q2 as int)));
    assert(ident(s@, p0 as int) == Some((s@.subrange(p0 as int, q4 as int), q4 as int)));
    let q5 = match lit_at(s, q4, ")") {
        Some(y) => ws_end_at(s, y),
        None => return None,
    };
    let q6 = match lit_at(s, q5, ":") {
        Some(y) => ws_end_at(s, y),
        None => return None,
    };
    let (k, q7) = match lang_function_at(s, q6) {
        Some(y) => y,
        None => return None,
    };
    let q8 = match opens_block_at(s, q7) {
        Some(y) => y,
        None => return None,
    };
    if !(p < q8) {
        return None;
    }
    let (f, q9) = match lang_expr_at(s, q8) {
        Some(y) => y,
        None => return None,
    };
    let ghost fv = f@;
    let lambda = Expression::Abstraction { param: x, func: Box::new(f) };
    assert(lambda@ == Expr::Abstraction(s@.subrange(p0 as int, q4 as int), Box::new(fv)));
    match closes_block_at(s, q9) {
        Some(q10) => Some((Expression::Annotation { expr: Box::new(lambda), kind: k }, q10)),
        None => None,
    }
}

fn lang_app_at(s: &Vec<char>, p: usize) -> (r: Option<(Expression, usize)>)
    requires
        p <= s.len(),
    ensures
        parsed(r) == lang_app(s@, p as int),
        ends_within(r, s.len() as nat),
    decreases s@.len() - p, 1nat,
{
    let q = ident_end_at(s, p);
    if !(p < q) {
        return None;
    }
    let q1 = match lit_at(s, q, "(") {
        Some(x) => x,
        None => return None,
    };
    if !(p < q1) {
        return None;
    }
    let f = text_between(s, p, q);
    assert(ident(s@, p as int) == Some((s@.subrange(p as int, q as int), q as int)));
    let (a, q2) = match lang_expr_at(s, q1) {
        Some(x) => x,
        None => return None,
    };
    let func = Expression::Variable { id: f };
    assert(func@ == Expr::Variable(s@.subrange(p as int, q as int)));
    match lit_at(s, q2, ")") {
        Some(q3) => Some((Expression::Application { func: Box::new(func), arg: Box::new(a) }, q3)),
        None => None,
    }
}

fn lang_cond_at(s: &Vec<char>, p: usize) -> (r: Option<(Expression, usize)>)
    requires
        p <= s.len(),
    ensures
        parsed(r) == lang_cond(s@, p as int),
        ends_within(r, s.len() as nat),
    decreases s@.len() - p, 1nat,
{
    let q = match lit_at(s, p, "if") {
        Some(x) => x,
        None => return None,
    };
    let q1 = match required_ws_at(s, q) {
        Some(x) => x,
        None => return None,
    };
    if !(p < q1) {
        return None;
    }
    let (c, q2) = match lang_expr_at(s, q1) {
        Some(x) => x,
        None => return None,
    };
    let q3 = match opens_block_at(s, q2) {
        Some(x) => x,
        None => return None,
    };
    if !(p < q3) {
        return None;
    }
    let (t, q4) = match lang_expr_at(s, q3) {
        Some(x) => x,
        None => return None,
    };
    let q5 = match else_block_at(s, q4) {
        Some(x) => x,
        None => return None,
    };
    if !(p < q5) {
        return None;
    }
    let (e, q6) = match lang_expr_at(s, q5) {
        Some(x) => x,
        None => return None,
    };
    match closes_block_at(s, q6) {
        Some(q7) => Some(
            (
                Expression::Conditional { if_cond: Box::new(c), if_then: Box::new(t), if_else: Box::new(e) },
                q7,
            ),
        ),
        None => None,
    }
}

pub open spec fn exprs_of(v: Seq<Expression>) -> Seq<Expr> {
    Seq::new(v.len(), |i: int| v[i]@)
}

fn lang_items_at(s: &Vec<char>, p: usize) -> (r: Option<(Vec<Expression>, usize)>)
    requires
        p <= s.len(),
    ensures
        match r {
            Some((v, q)) => lang_items(s@, p as int) == Some((exprs_of(v@), q as int)) && q <= s.len(),
            None => lang_items(s@, p as int) is None,
        },
    decreases s@.len() - p,
{
    let (e, q) = match lang_expr_at(s, p) {
        Some(x) => x,
        None => return None,
    };
    let ghost ev = e@;
    if let Some(q1) = lit_at(s, q, "\n") {
        if p < q1 {
            if let Some((mut rest, q2)) = lang_items_at(s, q1) {
                let ghost before = rest@;
                rest.insert(0, e);
                assert(exprs_of(rest@) =~= seq![ev] + exprs_of(before));
                return Some((rest, q2));
            }
        }
    }
    let v = vec![e];
    assert(exprs_of(v@) =~= seq![ev]);
    Some((v, q))
}

/// Parses a simple language with bracket-based indentation and end-of-term
/// semicolons: `lex` turns an indentation-based text into one.
pub fn parse_lang(input: &str) -> (r: Result<Vec<Expression>, SyntaxError>)
    ensures
        match r {
            Ok(v) => lang_parse(input@) == Some(exprs_of(v@)),
            Err(e) => lang_parse(input@) is None && e.position == stopped_at(lang_items(input@, 0)),
        },
{
    let s = chars_of(input);
    match lang_items_at(&s, 0) {
        Some((v, q)) => if q == s.len() {
            Ok(v)
        } else {
            Err(SyntaxError { position: q })
        },
        None => Err(SyntaxError { position: 0 }),
    }
}

} // verus!
