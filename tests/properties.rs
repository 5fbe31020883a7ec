use chrysanthemum::ast::{Context, Expression, Fault, Signature, Term, Type};
use chrysanthemum::util::{Abs, Ann, App, Bool, Cond, Const, Empty, Error, Func, Int, Nat, Unit, Var};

fn fields(entries: Vec<(&str, Type)>) -> Type {
    Type::Struct(entries.into_iter().map(|(k, v)| (String::from(k), v)).collect())
}

fn eq_signature(from: Type) -> Signature {
    Signature { name: String::from("eq"), from, to: Bool }
}

fn eq_interface() -> Type {
    Type::Interface(vec![eq_signature(Type::Oneself)], None)
}

#[test]
fn subtype_is_reflexive_on_plain_types() {
    let c = Context::new();
    let samples = vec![
        Empty, Error, Unit, Bool, Nat, Int, Type::Float, Type::String, Type::Oneself,
        Type::List(Box::new(Nat)),
        Type::Array(Box::new(Int), 3),
        Type::Slice(Box::new(Bool)),
        Type::Union(vec![Nat, Bool]),
        fields(vec![("a", Nat), ("b", Func(Int, Nat))]),
        Type::Tuple(vec![Nat, Bool], vec![Some(String::from("n")), None]),
        Func(Func(Nat, Int), Int),
        Type::Generic(None),
    ];
    for t in samples {
        assert!(c.subtype(&t, &t), "{:?}", t);
    }
}

#[test]
fn subtype_is_not_reflexive_on_bounded_generics() {
    let c = Context::new();
    let g = Type::Generic(Some(vec![Nat, Int]));
    assert!(!c.subtype(&g, &g));
    assert!(c.subtype(&Nat, &g));
    assert!(!c.subtype(&Bool, &g));
}

#[test]
fn empty_is_top_and_error_is_bottom() {
    let c = Context::new();
    for t in vec![Unit, Nat, Func(Int, Bool), eq_interface(), Type::Union(vec![])] {
        assert!(c.subtype(&t, &Empty));
        assert!(c.subtype(&Error, &t));
    }
}

#[test]
fn functions_are_contravariant_in_domain_and_covariant_in_range() {
    let c = Context::new();
    assert!(c.subtype(&Func(Int, Nat), &Func(Nat, Int)));
    assert!(!c.subtype(&Func(Nat, Int), &Func(Int, Nat)));
}

#[test]
fn structs_have_width_and_depth_subtyping() {
    let c = Context::new();
    assert!(c.subtype(&fields(vec![("a", Nat), ("b", Bool)]), &fields(vec![("a", Int)])));
    assert!(c.subtype(&fields(vec![("b", Bool), ("a", Nat)]), &fields(vec![("a", Int), ("b", Bool)])));
    assert!(!c.subtype(&fields(vec![("a", Bool)]), &fields(vec![("a", Int)])));
    assert!(!c.subtype(&fields(vec![("a", Nat)]), &fields(vec![("a", Int), ("b", Bool)])));
    // where a name repeats, its first field counts
    let twice = fields(vec![("a", Nat), ("a", Bool)]);
    assert!(c.subtype(&twice, &twice));
    assert!(c.subtype(&twice, &fields(vec![("a", Int), ("a", Unit)])));
    assert_eq!(twice, fields(vec![("a", Nat)]));
}

#[test]
fn unions_invert_struct_subtyping() {
    let c = Context::new();
    assert!(c.subtype(&Type::Union(vec![Nat, Bool]), &Type::Union(vec![Nat])));
    assert!(!c.subtype(&Type::Union(vec![Nat]), &Type::Union(vec![Nat, Bool])));
}

#[test]
fn sequences_are_covariant() {
    let c = Context::new();
    assert!(c.subtype(&Type::List(Box::new(Nat)), &Type::Slice(Box::new(Int))));
    assert!(c.subtype(&Type::Array(Box::new(Nat), 2), &Type::Slice(Box::new(Int))));
    assert!(c.subtype(&Type::Array(Box::new(Nat), 2), &Type::Array(Box::new(Int), 2)));
    assert!(!c.subtype(&Type::Array(Box::new(Nat), 2), &Type::Array(Box::new(Int), 3)));
    assert!(!c.subtype(&Type::Slice(Box::new(Nat)), &Type::List(Box::new(Nat))));
}

#[test]
fn tuple_labels_must_match_exactly() {
    let c = Context::new();
    let a = Type::Tuple(vec![Nat], vec![Some(String::from("x"))]);
    let b = Type::Tuple(vec![Int], vec![Some(String::from("x"))]);
    let d = Type::Tuple(vec![Int], vec![Some(String::from("y"))]);
    assert!(c.subtype(&a, &b));
    assert!(!c.subtype(&a, &d));
}

#[test]
fn checking_an_abstraction() {
    let c = Context::new();
    assert_eq!(c.check(Abs("x", Var("x")), &Func(Int, Int)), Ok(()));
    assert_eq!(c.check(Abs("x", Var("x")), &Int), Err(Fault::NotAFunctionType(Int)));
}

#[test]
fn inference_of_application() {
    let c = Context::new();
    let e = App(Ann(Abs("x", Var("x")), Func(Int, Int)), Const(Term::Integer(413)));
    assert_eq!(c.infer(e), Ok(Int));
}

#[test]
fn conditional_branches_must_be_equivalent() {
    let c = Context::new();
    let same = Cond(Const(Term::Boolean(true)), Ann(Const(Term::Natural(1)), Nat), Ann(Const(Term::Natural(0)), Nat));
    assert_eq!(c.infer(same), Ok(Nat));
    let differ = Cond(Const(Term::Boolean(true)), Ann(Const(Term::Natural(1)), Bool), Ann(Const(Term::Natural(2)), Int));
    assert!(matches!(c.infer(differ), Err(Fault::TypeMismatch { .. })));
    let differ = Cond(Const(Term::Boolean(true)), Ann(Const(Term::Boolean(true)), Bool), Ann(Const(Term::Natural(2)), Int));
    assert_eq!(c.infer(differ), Err(Fault::BranchTypeMismatch(Bool, Int)));
}

#[test]
fn interface_conformance_needs_an_implementation() {
    let mut c = Context::new();
    assert!(!c.subtype(&Nat, &eq_interface()));
    let body = Ann(Abs("x", Const(Term::Boolean(true))), Func(Nat, Bool));
    assert_eq!(c.insert_func(eq_signature(Nat), body), None);
    assert!(c.subtype(&Nat, &eq_interface()));
    assert!(!c.subtype(&Int, &eq_interface()));
    assert!(c.contains_sig(&eq_signature(Nat)));
    assert!(c.get_func(&eq_signature(Int)).is_none());
}

#[test]
fn deselfify_replaces_self_and_is_idempotent() {
    let t = Type::Tuple(vec![Type::Oneself, Type::List(Box::new(Type::Oneself))], vec![None, None]);
    let once = t.clone().deselfify(&Nat);
    assert_eq!(once, Type::Tuple(vec![Nat, Type::List(Box::new(Nat))], vec![None, None]));
    assert_eq!(once.clone().deselfify(&Nat), once);
    let inside = eq_interface();
    assert_eq!(inside.deselfify(&Nat), Type::Interface(vec![eq_signature(Nat)], None));
    let nested = Type::List(Box::new(Type::Interface(
        vec![eq_signature(Type::Oneself)],
        Some(Box::new(Type::Oneself)),
    )));
    assert_eq!(
        nested.deselfify(&Int),
        Type::List(Box::new(Type::Interface(vec![eq_signature(Int)], Some(Box::new(Int)))))
    );
}

#[test]
fn equality_ignores_field_and_member_order() {
    let ab = fields(vec![("a", Nat), ("b", Bool)]);
    let ba = fields(vec![("b", Bool), ("a", Nat)]);
    assert_eq!(ab, ba);
    assert_ne!(ab, fields(vec![("a", Nat)]));
    assert_ne!(ab, fields(vec![("a", Int), ("b", Bool)]));
    assert_eq!(Type::Union(vec![Nat, Bool]), Type::Union(vec![Bool, Nat, Bool]));
    assert_ne!(Type::Union(vec![Nat, Bool]), Type::Union(vec![Nat]));
    assert_eq!(
        Type::Generic(Some(vec![Nat, Int])),
        Type::Generic(Some(vec![Int, Nat]))
    );
    assert_ne!(
        Type::Tuple(vec![Nat, Bool], vec![None, None]),
        Type::Tuple(vec![Bool, Nat], vec![None, None])
    );
    let c = Context::new();
    assert!(c.subtype(&ba, &Type::Generic(Some(vec![ab.clone()]))));
    assert!(c.subtype(
        &Type::Union(vec![ba.clone(), Nat]),
        &Type::Union(vec![ab.clone()])
    ));
}

#[test]
fn implementations_are_found_whatever_the_field_order() {
    let mut c = Context::new();
    let ab = fields(vec![("a", Nat), ("b", Bool)]);
    let ba = fields(vec![("b", Bool), ("a", Nat)]);
    let body = Ann(Abs("x", Const(Term::Boolean(true))), Func(ab.clone(), Bool));
    assert_eq!(c.insert_func(eq_signature(ab.clone()), body), None);
    assert!(c.contains_sig(&eq_signature(ba.clone())));
    assert!(c.subtype(&ba, &eq_interface()));
    let later = Ann(Abs("y", Const(Term::Boolean(false))), Func(ba.clone(), Bool));
    assert!(c.insert_func(eq_signature(ba.clone()), later.clone()).is_some());
    assert_eq!(c.get_func(&eq_signature(ab)), Some(&later));
}

#[test]
fn variables_come_from_the_context() {
    let mut c = Context::new();
    assert_eq!(c.infer(Var("x")), Err(Fault::UnboundVariable(String::from("x"))));
    assert_eq!(c.insert_term(String::from("x"), Term::Natural(1)), None);
    assert_eq!(c.insert_term(String::from("x"), Term::Boolean(true)), Some(Term::Natural(1)));
    assert_eq!(c.infer(Var("x")), Ok(Bool));
    assert!(c.contains_term(&String::from("x")));
    assert_eq!(c.get_term(&String::from("y")), None);
    assert_eq!(
        c.check(Var("x"), &Int),
        Err(Fault::TypeMismatch { expected: Int, found: Bool })
    );
}

#[test]
fn bare_abstractions_cannot_be_inferred() {
    let c = Context::new();
    assert_eq!(c.infer(Abs("x", Var("x"))), Err(Fault::UninferableAbstraction));
    let e: Expression = App(Const(Term::Natural(1)), Const(Term::Natural(2)));
    assert_eq!(c.infer(e), Err(Fault::NotAFunctionType(Nat)));
}

#[test]
fn conversion_recovers_types() {
    assert_eq!(Term::List(vec![]).convert(), Err(Fault::EmptyCollection));
    assert_eq!(Term::Array(vec![]).convert(), Err(Fault::EmptyCollection));
    assert_eq!(Term::Array(vec![Term::Integer(1), Term::Integer(2)]).convert(), Ok(Type::Array(Box::new(Int), 2)));
    assert_eq!(Term::Union(Box::new(Term::Boolean(true))).convert(), Ok(Bool));
    let s = Term::Struct(vec![(String::from("a"), Term::Natural(1)), (String::from("b"), Term::String(String::from("z")))]);
    assert_eq!(s.convert(), Ok(fields(vec![("a", Nat), ("b", Type::String)])));
    let t = Term::Tuple(vec![Term::Unit(), Term::List(vec![])], vec![None, None]);
    assert_eq!(t.convert(), Err(Fault::EmptyCollection));
}

#[test]
fn defaults_are_canonical_values() {
    assert_eq!(Nat.default(), Ok(Term::Natural(0)));
    assert_eq!(Type::String.default(), Ok(Term::String(String::new())));
    assert_eq!(Type::Array(Box::new(Int), 3).default(), Ok(Term::Array(vec![Term::Integer(0); 3])));
    assert_eq!(
        fields(vec![("a", Bool), ("b", Type::List(Box::new(Nat)))]).default(),
        Ok(Term::Struct(vec![(String::from("a"), Term::Boolean(false)), (String::from("b"), Term::List(vec![]))]))
    );
    let u = Type::Union(vec![Nat]);
    assert_eq!(u.default(), Err(Fault::UnconstructibleDefault(Type::Union(vec![Nat]))));
    assert_eq!(
        Type::Tuple(vec![Nat, Type::Slice(Box::new(Nat)), Empty], vec![None, None, None]).default(),
        Err(Fault::UnconstructibleDefault(Type::Slice(Box::new(Nat))))
    );
    assert_eq!(Type::Array(Box::new(Func(Nat, Nat)), 0).default(), Err(Fault::UnconstructibleDefault(Func(Nat, Nat))));
}

#[test]
fn abstractions_need_a_constructible_domain() {
    let c = Context::new();
    let target = Func(Type::Union(vec![Nat]), Nat);
    assert_eq!(
        c.check(Abs("x", Const(Term::Natural(0))), &target),
        Err(Fault::UnconstructibleDefault(Type::Union(vec![Nat])))
    );
}

#[test]
fn execution_faults() {
    let c = Context::new();
    assert_eq!(c.execute(Abs("x", Var("x"))), Err(Fault::NotAValue));
    assert_eq!(c.execute(App(Var("f"), Const(Term::Unit()))), Err(Fault::NotAnAbstraction));
    assert_eq!(
        c.execute(Cond(Const(Term::Natural(3)), Const(Term::Unit()), Const(Term::Unit()))),
        Err(Fault::NonBooleanCondition(Nat))
    );
    assert_eq!(c.execute(Ann(Const(Term::Natural(5)), Nat)), Ok(Term::Natural(5)));
}
