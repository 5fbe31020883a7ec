use chrysanthemum::parser::lex;
use chrysanthemum::util::unique_ident;
use chrysanthemum::ast::{Signature, Type};
use chrysanthemum::util::{Bool, Func, Int, Nat};
use chrysanthemum::parser::{parse_lambda, parse_lang, SyntaxError};
use chrysanthemum::util::{Abs, Ann, App, Cond, Const, Var};
use chrysanthemum::ast::Term;

#[test]
fn identifiers_count_in_hexadecimal() {
    let mut count: u8 = 0;
    assert_eq!(unique_ident(&mut count), "1");
    assert_eq!(count, 1);
    count = 9;
    assert_eq!(unique_ident(&mut count), "A");
    count = 15;
    assert_eq!(unique_ident(&mut count), "10");
    count = 254;
    assert_eq!(unique_ident(&mut count), "FF");
}

#[test]
fn lex_flat_lines() {
    assert_eq!(lex("a\nb\n"), Ok(String::from("a;\nb;")));
    assert_eq!(lex(""), Ok(String::new()));
}

#[test]
fn lex_opens_and_closes_blocks() {
    assert_eq!(lex("a\n  b\n"), Ok(String::from("a {\n  b;\n};")));
    assert_eq!(lex("a\n  b\nc\n"), Ok(String::from("a {\n  b;\n};\nc")));
}

#[test]
fn lex_drops_comments() {
    assert_eq!(lex("a # note\nb\n"), Ok(String::from("a ;\nb;")));
    assert_eq!(lex("a# note\n"), Ok(String::from("a;")));
}

#[test]
fn lex_rejects_bad_indentation() {
    assert_eq!(lex("a\n    b\n"), Err("invalid jump in indentation"));
    assert_eq!(lex("a\n  b\n c\n"), Err("incorrect indentation offset, must be a multiple of indent_size"));
}


#[test]
fn types_render_as_text() {
    assert_eq!(Int.render(), "int");
    assert_eq!(Func(Bool, Int).render(), "bool->int");
    assert_eq!(Type::Array(Box::new(Nat), 12).render(), "array[nat, 12]");
    assert_eq!(Type::Union(vec![Nat, Bool, Type::Empty]).render(), "union[nat, bool, ⊤]");
    assert_eq!(
        Type::Struct(vec![(String::from("a"), Nat), (String::from("b"), Type::List(Box::new(Int)))]).render(),
        "struct[a: nat, b: list[int]]"
    );
    assert_eq!(
        Type::Tuple(vec![Nat, Type::Error], vec![Some(String::from("n")), None]).render(),
        "tuple[n: nat, ⊥]"
    );
    let eq = Signature { name: String::from("eq"), from: Type::Oneself, to: Bool };
    assert_eq!(
        Type::Interface(vec![eq], Some(Box::new(Type::Slice(Box::new(Nat))))).render(),
        "interface[func eq(Self): bool for slice[nat]]"
    );
    assert_eq!(Type::Generic(None).render(), "generic");
}


#[test]
fn files_parse_into_expressions() {
    assert_eq!(parse_lang("x;\n5;"), Ok(vec![Var("x"), Const(Term::Natural(5))]));
    assert_eq!(parse_lang("f(x;);"), Ok(vec![App(Var("f"), Var("x"))]));
    assert_eq!(
        parse_lang("if b; = { 1; }; else = { 2; };"),
        Ok(vec![Cond(Var("b"), Const(Term::Natural(1)), Const(Term::Natural(2)))])
    );
    assert_eq!(
        parse_lang("func id(x): (int -> int) = { x; };"),
        Ok(vec![Ann(Abs("x", Var("x")), Func(Int, Int))])
    );
    assert_eq!(parse_lang("n: nat;"), Ok(vec![Ann(Var("n"), Nat)]));
    assert_eq!(parse_lang("x"), Err(SyntaxError { position: 0 }));
    assert_eq!(parse_lang("x;\ny"), Err(SyntaxError { position: 2 }));
    assert_eq!(parse_lang(&lex("a\nb\n").unwrap()), Ok(vec![Var("a"), Var("b")]));
}

#[test]
fn lambda_text_edge_cases() {
    assert_eq!(parse_lambda("  x  "), Ok(Var("x")));
    assert_eq!(parse_lambda("\u{3000}\t12: nat\u{a0}\n"), Ok(Ann(Const(Term::Natural(12)), Nat)));
    assert_eq!(parse_lambda(""), Err(SyntaxError { position: 0 }));
    assert_eq!(parse_lambda(" 12x "), Err(SyntaxError { position: 2 }));
    assert_eq!(parse_lambda("trueish"), Ok(Var("trueish")));
    assert_eq!(parse_lambda("(int)"), Ok(Var("int")));
    assert_eq!(parse_lambda("18446744073709551615"), Ok(Const(Term::Natural(usize::MAX))));
    assert_eq!(parse_lambda("18446744073709551616"), Ok(Var("18446744073709551616")));
    assert_eq!(parse_lambda("-9223372036854775807"), Ok(Const(Term::Integer(-isize::MAX))));
}
