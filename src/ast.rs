//! The data model: types, values, expressions, the context, and their
//! mathematical models; type recovery from values and canonical values of types.
use vstd::prelude::*;

verus! {

/// The name of a variable or of an interface method.
pub type Identifier = String;

/// One method that an interface asks for; the key of an implementation in a context.
#[derive(Debug, Eq, Hash)]
pub struct Signature {
    pub name: Identifier,
    pub from: Type,
    pub to: Type,
}

/// All supported types.
#[derive(Debug, Eq, Hash)]
pub enum Type {
    /// The top type.
    Empty,
    /// The bottom type.
    Error,
    Unit,
    Boolean,
    Natural,
    Integer,
    Float,
    String,
    List(Box<Type>),
    Array(Box<Type>, usize),
    Slice(Box<Type>),
    /// Alternatives, as a set: their order and repetitions do not count.
    Union(Vec<Type>),
    /// Fields by name, in no particular order. Where a name repeats, its first
    /// field is the one that counts.
    Struct(Vec<(Identifier, Type)>),
    /// Element types, with one optional label per element.
    Tuple(Vec<Type>, Vec<Option<Identifier>>),
    Function { from: Box<Type>, to: Box<Type> },
    /// Required methods, and an optional type that an implementor must also be.
    Interface(Vec<Signature>, Option<Box<Type>>),
    /// The implementing type, inside an interface's signatures.
    Oneself,
    /// A type variable, bounded by the types it may stand for (`None`: any type).
    Generic(Option<Vec<Type>>),
}

/// Values that a program can hold. Functions are not values: they live
/// annotated in a context.
#[derive(Debug, PartialEq)]
pub enum Term {
    Unit(),
    Boolean(bool),
    Natural(usize),
    Integer(isize),
    /// A single-precision float, by its bit pattern.
    Float(u32),
    String(String),
    List(Vec<Term>),
    Array(Vec<Term>),
    Union(Box<Term>),
    Struct(Vec<(Identifier, Term)>),
    Tuple(Vec<Term>, Vec<Option<Identifier>>),
}

/// The checked syntax tree.
#[derive(Debug, PartialEq)]
pub enum Expression {
    Annotation { expr: Box<Expression>, kind: Type },
    Constant { term: Term },
    Variable { id: Identifier },
    /// The parameter's type comes from an enclosing annotation or a checking target.
    Abstraction { param: Identifier, func: Box<Expression> },
    Application { func: Box<Expression>, arg: Box<Expression> },
    Conditional { if_cond: Box<Expression>, if_then: Box<Expression>, if_else: Box<Expression> },
}

/// Why a check, an inference or an evaluation failed.
#[derive(Debug, PartialEq)]
pub enum Fault {
    /// A variable that the context does not bind.
    UnboundVariable(Identifier),
    /// A type that is not a subtype of the one expected.
    TypeMismatch { expected: Type, found: Type },
    /// An abstraction checked against, or an application of, a non-function type.
    NotAFunctionType(Type),
    /// A bare abstraction given to inference.
    UninferableAbstraction,
    /// The branches of a conditional have types that are not interchangeable.
    BranchTypeMismatch(Type, Type),
    /// A type without a canonical value.
    UnconstructibleDefault(Type),
    /// An empty list or array, whose element type cannot be recovered.
    EmptyCollection,
    /// An abstraction evaluated on its own.
    NotAValue,
    /// An application whose function is not an abstraction.
    NotAnAbstraction,
    /// A conditional whose condition evaluated to a value of this other type.
    NonBooleanCondition(Type),
}

// ---------------------------------------------------------------------------
// Mathematical models

/// The model of a `Type`.
pub enum Ty {
    Empty,
    Error,
    Unit,
    Boolean,
    Natural,
    Integer,
    Float,
    Str,
    List(Box<Ty>),
    Array(Box<Ty>, nat),
    Slice(Box<Ty>),
    Union(Seq<Ty>),
    Struct(Seq<(Seq<char>, Ty)>),
    Tuple(Seq<Ty>, Seq<Option<Seq<char>>>),
    Function(Box<Ty>, Box<Ty>),
    Interface(Seq<Sig>, Option<Box<Ty>>),
    Oneself,
    Generic(Option<Seq<Ty>>),
}

/// The model of a `Signature`.
pub struct Sig {
    pub name: Seq<char>,
    pub from: Ty,
    pub to: Ty,
}

/// The model of a `Term`.
pub enum Val {
    Unit,
    Boolean(bool),
    Natural(usize),
    Integer(isize),
    Float(u32),
    Str(Seq<char>),
    List(Seq<Val>),
    Array(Seq<Val>),
    Union(Box<Val>),
    Struct(Seq<(Seq<char>, Val)>),
    Tuple(Seq<Val>, Seq<Option<Seq<char>>>),
}

/// The model of an `Expression`.
pub enum Expr {
    Annotation(Box<Expr>, Ty),
    Constant(Val),
    Variable(Seq<char>),
    Abstraction(Seq<char>, Box<Expr>),
    Application(Box<Expr>, Box<Expr>),
    Conditional(Box<Expr>, Box<Expr>, Box<Expr>),
}

/// The model of a `Fault`.
pub enum FaultV {
    UnboundVariable(Seq<char>),
    TypeMismatch(Ty, Ty),
    NotAFunctionType(Ty),
    UninferableAbstraction,
    BranchTypeMismatch(Ty, Ty),
    UnconstructibleDefault(Ty),
    EmptyCollection,
    NotAValue,
    NotAnAbstraction,
    NonBooleanCondition(Ty),
}

pub open spec fn label_of(l: Option<Identifier>) -> Option<Seq<char>> {
    match l {
        Some(s) => Some(s@),
        None => None,
    }
}

pub open spec fn labels_of(v: Seq<Option<Identifier>>) -> Seq<Option<Seq<char>>> {
    Seq::new(v.len(), |i: int| label_of(v[i]))
}

pub open spec fn ty_of(t: Type) -> Ty
    decreases t,
{
    match t {
        Type::Empty => Ty::Empty,
        Type::Error => Ty::Error,
        Type::Unit => Ty::Unit,
        Type::Boolean => Ty::Boolean,
        Type::Natural => Ty::Natural,
        Type::Integer => Ty::Integer,
        Type::Float => Ty::Float,
        Type::String => Ty::Str,
        Type::List(a) => Ty::List(Box::new(ty_of(*a))),
        Type::Array(a, n) => Ty::Array(Box::new(ty_of(*a)), n as nat),
        Type::Slice(a) => Ty::Slice(Box::new(ty_of(*a))),
        Type::Union(v) => Ty::Union(tys_of(v@)),
        Type::Struct(v) => Ty::Struct(ty_fields_of(v@)),
        Type::Tuple(v, l) => Ty::Tuple(tys_of(v@), labels_of(l@)),
        Type::Function { from, to } => Ty::Function(Box::new(ty_of(*from)), Box::new(ty_of(*to))),
        Type::Interface(sigs, assoc) => Ty::Interface(
            sigs_of(sigs@),
            match assoc {
                Some(a) => Some(Box::new(ty_of(*a))),
                None => None,
            },
        ),
        Type::Oneself => Ty::Oneself,
        Type::Generic(b) => Ty::Generic(
            match b {
                Some(v) => Some(tys_of(v@)),
                None => None,
            },
        ),
    }
}

pub open spec fn tys_of(v: Seq<Type>) -> Seq<Ty>
    decreases v,
{
    Seq::new(v.len(), |i: int| if 0 <= i < v.len() { ty_of(v[i]) } else { Ty::Empty })
}

pub open spec fn ty_fields_of(v: Seq<(Identifier, Type)>) -> Seq<(Seq<char>, Ty)>
    decreases v,
{
    Seq::new(
        v.len(),
        |i: int| if 0 <= i < v.len() { (v[i].0@, ty_of(v[i].1)) } else { (Seq::empty(), Ty::Empty) },
    )
}

pub open spec fn sig_of(s: Signature) -> Sig
    decreases s,
{
    Sig { name: s.name@, from: ty_of(s.from), to: ty_of(s.to) }
}

pub open spec fn sigs_of(v: Seq<Signature>) -> Seq<Sig>
    decreases v,
{
    Seq::new(
        v.len(),
        |i: int|
            if 0 <= i < v.len() {
                sig_of(v[i])
            } else {
                Sig { name: Seq::empty(), from: Ty::Empty, to: Ty::Empty }
            },
    )
}

pub open spec fn val_of(t: Term) -> Val
    decreases t,
{
    match t {
        Term::Unit() => Val::Unit,
        Term::Boolean(b) => Val::Boolean(b),
        Term::Natural(n) => Val::Natural(n),
        Term::Integer(i) => Val::Integer(i),
        Term::Float(f) => Val::Float(f),
        Term::String(s) => Val::Str(s@),
        Term::List(v) => Val::List(vals_of(v@)),
        Term::Array(v) => Val::Array(vals_of(v@)),
        Term::Union(b) => Val::Union(Box::new(val_of(*b))),
        Term::Struct(v) => Val::Struct(val_fields_of(v@)),
        Term::Tuple(v, l) => Val::Tuple(vals_of(v@), labels_of(l@)),
    }
}

pub open spec fn vals_of(v: Seq<Term>) -> Seq<Val>
    decreases v,
{
    Seq::new(v.len(), |i: int| if 0 <= i < v.len() { val_of(v[i]) } else { Val::Unit })
}

pub open spec fn val_fields_of(v: Seq<(Identifier, Term)>) -> Seq<(Seq<char>, Val)>
    decreases v,
{
    Seq::new(
        v.len(),
        |i: int| if 0 <= i < v.len() { (v[i].0@, val_of(v[i].1)) } else { (Seq::empty(), Val::Unit) },
    )
}

pub open spec fn expr_of(e: Expression) -> Expr
    decreases e,
{
    match e {
        Expression::Annotation { expr, kind } => Expr::Annotation(Box::new(expr_of(*expr)), kind@),
        Expression::Constant { term } => Expr::Constant(term@),
        Expression::Variable { id } => Expr::Variable(id@),
        Expression::Abstraction { param, func } => Expr::Abstraction(param@, Box::new(expr_of(*func))),
        Expression::Application { func, arg } => Expr::Application(
            Box::new(expr_of(*func)),
            Box::new(expr_of(*arg)),
        ),
        Expression::Conditional { if_cond, if_then, if_else } => Expr::Conditional(
            Box::new(expr_of(*if_cond)),
            Box::new(expr_of(*if_then)),
            Box::new(expr_of(*if_else)),
        ),
    }
}

impl View for Type {
    type V = Ty;

    open spec fn view(&self) -> Ty {
        ty_of(*self)
    }
}

impl View for Signature {
    type V = Sig;

    open spec fn view(&self) -> Sig {
        sig_of(*self)
    }
}

impl View for Term {
    type V = Val;

    open spec fn view(&self) -> Val {
        val_of(*self)
    }
}

impl View for Expression {
    type V = Expr;

    open spec fn view(&self) -> Expr {
        expr_of(*self)
    }
}

impl View for Fault {
    type V = FaultV;

    open spec fn view(&self) -> FaultV {
        match self {
            Fault::UnboundVariable(id) => FaultV::UnboundVariable(id@),
            Fault::TypeMismatch { expected, found } => FaultV::TypeMismatch(expected@, found@),
            Fault::NotAFunctionType(t) => FaultV::NotAFunctionType(t@),
            Fault::UninferableAbstraction => FaultV::UninferableAbstraction,
            Fault::BranchTypeMismatch(a, b) => FaultV::BranchTypeMismatch(a@, b@),
            Fault::UnconstructibleDefault(t) => FaultV::UnconstructibleDefault(t@),
            Fault::EmptyCollection => FaultV::EmptyCollection,
            Fault::NotAValue => FaultV::NotAValue,
            Fault::NotAnAbstraction => FaultV::NotAnAbstraction,
            Fault::NonBooleanCondition(t) => FaultV::NonBooleanCondition(t@),
        }
    }
}

/// The model of a result whose success value has a view.
pub open spec fn result_view<T: View>(r: Result<T, Fault>) -> Result<T::V, FaultV> {
    match r {
        Ok(v) => Ok(v@),
        Err(e) => Err(e@),
    }
}

// ---------------------------------------------------------------------------
// Copies

fn copy_label(l: &Option<Identifier>) -> (r: Option<Identifier>)
    ensures
        label_of(r) == label_of(*l),
{
    match l {
        Some(s) => Some(s.clone()),
        None => None,
    }
}

pub(crate) fn copy_labels(v: &Vec<Option<Identifier>>) -> (r: Vec<Option<Identifier>>)
    ensures
        labels_of(r@) == labels_of(v@),
{
    let mut r: Vec<Option<Identifier>> = Vec::new();
    let mut i: usize = 0;
    while i < v.len()
        invariant
            i <= v.len(),
            r@.len() == i,
            forall|j: int| 0 <= j < i ==> label_of(#[trigger] r@[j]) == label_of(v@[j]),
        decreases v.len() - i,
    {
        r.push(copy_label(&v[i]));
        i += 1;
    }
    assert(labels_of(r@) =~= labels_of(v@));
    r
}

fn copy_types(v: &Vec<Type>) -> (r: Vec<Type>)
    ensures
        tys_of(r@) == tys_of(v@),
    decreases v,
{
    let mut r: Vec<Type> = Vec::new();
    let mut i: usize = 0;
    while i < v.len()
        invariant
            i <= v.len(),
            r@.len() == i,
            forall|j: int| 0 <= j < i ==> (#[trigger] r@[j])@ == v@[j]@,
        decreases v.len() - i,
    {
        r.push(v[i].clone());
        i += 1;
    }
    assert(tys_of(r@) =~= tys_of(v@));
    r
}

fn copy_ty_fields(v: &Vec<(Identifier, Type)>) -> (r: Vec<(Identifier, Type)>)
    ensures
        ty_fields_of(r@) == ty_fields_of(v@),
    decreases v,
{
    let mut r: Vec<(Identifier, Type)> = Vec::new();
    let mut i: usize = 0;
    while i < v.len()
        invariant
            i <= v.len(),
            r@.len() == i,
            forall|j: int| 0 <= j < i ==> (#[trigger] r@[j]).0@ == v@[j].0@ && r@[j].1@ == v@[j].1@,
        decreases v.len() - i,
    {
        r.push((v[i].0.clone(), v[i].1.clone()));
        i += 1;
    }
    assert(ty_fields_of(r@) =~= ty_fields_of(v@));
    r
}

pub(crate) fn copy_sigs(v: &Vec<Signature>) -> (r: Vec<Signature>)
    ensures
        sigs_of(r@) == sigs_of(v@),
    decreases v,
{
    let mut r: Vec<Signature> = Vec::new();
    let mut i: usize = 0;
    while i < v.len()
        invariant
            i <= v.len(),
            r@.len() == i,
            forall|j: int| 0 <= j < i ==> (#[trigger] r@[j])@ == v@[j]@,
        decreases v.len() - i,
    {
        r.push(v[i].clone());
        i += 1;
    }
    assert(sigs_of(r@) =~= sigs_of(v@));
    r
}

impl Clone for Signature {
    fn clone(&self) -> (r: Self)
        ensures
            r@ == self@,
        decreases self,
    {
        Signature { name: self.name.clone(), from: self.from.clone(), to: self.to.clone() }
    }
}

impl Clone for Type {
    fn clone(&self) -> (r: Self)
        ensures
            r@ == self@,
        decreases self,
    {
        match self {
            Type::Empty => Type::Empty,
            Type::Error => Type::Error,
            Type::Unit => Type::Unit,
            Type::Boolean => Type::Boolean,
            Type::Natural => Type::Natural,
            Type::Integer => Type::Integer,
            Type::Float => Type::Float,
            Type::String => Type::String,
            Type::List(a) => Type::List(Box::new((**a).clone())),
            Type::Array(a, n) => Type::Array(Box::new((**a).clone()), *n),
            Type::Slice(a) => Type::Slice(Box::new((**a).clone())),
            Type::Union(v) => Type::Union(copy_types(v)),
            Type::Struct(v) => Type::Struct(copy_ty_fields(v)),
            Type::Tuple(v, l) => Type::Tuple(copy_types(v), copy_labels(l)),
            Type::Function { from, to } => Type::Function {
                from: Box::new((**from).clone()),
                to: Box::new((**to).clone()),
            },
            Type::Interface(sigs, assoc) => Type::Interface(
                copy_sigs(sigs),
                match assoc {
                    Some(a) => Some(Box::new((**a).clone())),
                    None => None,
                },
            ),
            Type::Oneself => Type::Oneself,
            Type::Generic(b) => Type::Generic(
                match b {
                    Some(v) => Some(copy_types(v)),
                    None => None,
                },
            ),
        }
    }
}

// ---------------------------------------------------------------------------
// Equality

/// The position of the first field named `k`, or -1.
pub open spec fn key_index<V>(fs: Seq<(Seq<char>, V)>, k: Seq<char>) -> int
    decreases fs.len(),
{
    if fs.len() == 0 {
        -1
    } else if fs[0].0 == k {
        0
    } else {
        let r = key_index(fs.drop_first(), k);
        if r < 0 {
            -1
        } else {
            r + 1
        }
    }
}

pub proof fn lemma_key_index<V>(fs: Seq<(Seq<char>, V)>, k: Seq<char>)
    ensures
        key_index(fs, k) == -1 ==> forall|i: int| 0 <= i < fs.len() ==> (#[trigger] fs[i]).0 != k,
        key_index(fs, k) != -1 ==> 0 <= key_index(fs, k) < fs.len() && fs[key_index(fs, k)].0 == k
            && forall|i: int| 0 <= i < key_index(fs, k) ==> (#[trigger] fs[i]).0 != k,
    decreases fs.len(),
{
    if fs.len() > 0 && fs[0].0 != k {
        let rest = fs.drop_first();
        lemma_key_index(rest, k);
        assert forall|i: int| 1 <= i < fs.len() implies (#[trigger] fs[i]) == rest[i - 1] by {}
    }
}

/// The position of the first field of `fs` named `k`.
pub(crate) fn find_field(fs: &Vec<(Identifier, Type)>, k: &Identifier) -> (r: Option<usize>)
    ensures
        match r {
            Some(i) => i < fs.len() && i == key_index(ty_fields_of(fs@), k@),
            None => key_index(ty_fields_of(fs@), k@) == -1,
        },
{
    let ghost fv = ty_fields_of(fs@);
    proof {
        lemma_key_index(fv, k@);
    }
    let mut i: usize = 0;
    while i < fs.len()
        invariant
            i <= fs.len(),
            fv == ty_fields_of(fs@),
            fv.len() == fs.len(),
            forall|p: int| 0 <= p < i ==> (#[trigger] fv[p]).0 != k@,
        decreases fs.len() - i,
    {
        if fs[i].0 == *k {
            assert(fv[i as int].0 == k@);
            proof {
                lemma_key_index(fv, k@);
                let m = key_index(fv, k@);
                if m != i as int {
                    if m == -1 {
                        assert(fv[i as int].0 != k@);
                    } else if m < i {
                        assert(fv[m].0 != k@);
                    } else {
                        assert(fv[i as int].0 != k@);
                    }
                }
            }
            return Some(i);
        }
        i += 1;
    }
    None
}

/// Equality of types. A struct is a map from names to types, so its fields
/// compare by name whatever their order; union members and generic bounds are
/// sets, so they compare as sets. Everything else compares position by position.
pub open spec fn same(a: Ty, b: Ty) -> bool
    decreases a, 0nat,
{
    match a {
        Ty::List(x) => match b {
            Ty::List(y) => same(*x, *y),
            _ => false,
        },
        Ty::Array(x, n) => match b {
            Ty::Array(y, m) => n == m && same(*x, *y),
            _ => false,
        },
        Ty::Slice(x) => match b {
            Ty::Slice(y) => same(*x, *y),
            _ => false,
        },
        Ty::Union(s1) => match b {
            Ty::Union(s2) => same_members(s1, s2),
            _ => false,
        },
        Ty::Struct(f1) => match b {
            Ty::Struct(f2) => same_keys(f1, f2) && same_values(f1, f2, f1.len()),
            _ => false,
        },
        Ty::Tuple(s1, l1) => match b {
            Ty::Tuple(s2, l2) => l1 == l2 && s1.len() == s2.len() && pointwise_same(s1, s2, s1.len()),
            _ => false,
        },
        Ty::Function(x1, y1) => match b {
            Ty::Function(x2, y2) => same(*x1, *x2) && same(*y1, *y2),
            _ => false,
        },
        Ty::Interface(g1, o1) => match b {
            Ty::Interface(g2, o2) => g1.len() == g2.len() && sigs_same(g1, g2, g1.len()) && match o1 {
                Some(x) => match o2 {
                    Some(y) => same(*x, *y),
                    None => false,
                },
                None => o2 is None,
            },
            _ => false,
        },
        Ty::Generic(Some(s1)) => match b {
            Ty::Generic(Some(s2)) => same_members(s1, s2),
            _ => false,
        },
        _ => a == b,
    }
}

/// The same members, as sets.
pub open spec fn same_members(s1: Seq<Ty>, s2: Seq<Ty>) -> bool
    decreases s1, s1.len() + s2.len() + 2,
{
    covered(s1, s2, s1.len()) && covering(s1, s2, s2.len())
}

/// Each of the first `n` members of `s1` is the same as some member of `s2`.
pub open spec fn covered(s1: Seq<Ty>, s2: Seq<Ty>, n: nat) -> bool
    decreases s1, n,
{
    if 0 < n <= s1.len() {
        member(s1[n - 1], s2, s2.len()) && covered(s1, s2, (n - 1) as nat)
    } else {
        true
    }
}

/// `x` is the same as one of the first `m` members of `s`.
pub open spec fn member(x: Ty, s: Seq<Ty>, m: nat) -> bool
    decreases x, m + 1,
{
    if 0 < m <= s.len() {
        same(x, s[m - 1]) || member(x, s, (m - 1) as nat)
    } else {
        false
    }
}

/// Each of the first `n` members of `s2` is the same as some member of `s1`.
pub open spec fn covering(s1: Seq<Ty>, s2: Seq<Ty>, n: nat) -> bool
    decreases s1, s1.len() + n + 1,
{
    if 0 < n <= s2.len() {
        member_of(s1, s2[n - 1], s1.len()) && covering(s1, s2, (n - 1) as nat)
    } else {
        true
    }
}

/// One of the first `m` members of `s` is the same as `y`.
pub open spec fn member_of(s: Seq<Ty>, y: Ty, m: nat) -> bool
    decreases s, m,
{
    if 0 < m <= s.len() {
        same(s[m - 1], y) || member_of(s, y, (m - 1) as nat)
    } else {
        false
    }
}

/// Every name of either struct is a name of the other.
pub open spec fn same_keys(f1: Seq<(Seq<char>, Ty)>, f2: Seq<(Seq<char>, Ty)>) -> bool {
    (forall|i: int| 0 <= i < f1.len() ==> key_index(f2, (#[trigger] f1[i]).0) >= 0) && (forall|j: int|
        0 <= j < f2.len() ==> key_index(f1, (#[trigger] f2[j]).0) >= 0)
}

/// For each name among the first `n` fields of `f1`, its first field there has
/// the same type as its first field in `f2`.
pub open spec fn same_values(f1: Seq<(Seq<char>, Ty)>, f2: Seq<(Seq<char>, Ty)>, n: nat) -> bool
    decreases f1, n,
{
    if 0 < n <= f1.len() {
        let k = f1[n - 1].0;
        let j = key_index(f2, k);
        (key_index(f1, k) != n - 1 || (0 <= j < f2.len() && same(f1[n - 1].1, f2[j].1))) && same_values(
            f1,
            f2,
            (n - 1) as nat,
        )
    } else {
        true
    }
}

/// The first `n` types are the same position by position.
pub open spec fn pointwise_same(s1: Seq<Ty>, s2: Seq<Ty>, n: nat) -> bool
    decreases s1, n,
{
    if 0 < n <= s1.len() {
        n <= s2.len() && same(s1[n - 1], s2[n - 1]) && pointwise_same(s1, s2, (n - 1) as nat)
    } else {
        true
    }
}

/// The first `n` signatures are the same position by position.
pub open spec fn sigs_same(g1: Seq<Sig>, g2: Seq<Sig>, n: nat) -> bool
    decreases g1, n,
{
    if 0 < n <= g1.len() {
        n <= g2.len() && g1[n - 1].name == g2[n - 1].name && same(g1[n - 1].from, g2[n - 1].from) && same(
            g1[n - 1].to,
            g2[n - 1].to,
        ) && sigs_same(g1, g2, (n - 1) as nat)
    } else {
        true
    }
}

/// Equality of signatures: the same name, and the same types.
pub open spec fn sig_same(a: Sig, b: Sig) -> bool {
    a.name == b.name && same(a.from, b.from) && same(a.to, b.to)
}

/// Type equality is reflexive.
pub proof fn lemma_same_reflexive(t: Ty)
    ensures
        same(t, t),
    decreases t, 0nat,
{
    match t {
        Ty::List(x) => lemma_same_reflexive(*x),
        Ty::Array(x, _) => lemma_same_reflexive(*x),
        Ty::Slice(x) => lemma_same_reflexive(*x),
        Ty::Union(s) => {
            lemma_covered_reflexive(s, s.len());
            lemma_covering_reflexive(s, s.len());
            assert(same_members(s, s));
        },
        Ty::Generic(Some(s)) => {
            lemma_covered_reflexive(s, s.len());
            lemma_covering_reflexive(s, s.len());
            assert(same_members(s, s));
        },
        Ty::Struct(f) => {
            assert forall|i: int| 0 <= i < f.len() implies key_index(f, (#[trigger] f[i]).0) >= 0 by {
                lemma_key_index(f, f[i].0);
            }
            lemma_same_values_reflexive(f, f.len());
            assert(same_keys(f, f));
        },
        Ty::Tuple(s, _) => lemma_pointwise_reflexive(s, s.len()),
        Ty::Function(x, y) => {
            lemma_same_reflexive(*x);
            lemma_same_reflexive(*y);
        },
        Ty::Interface(g, o) => {
            lemma_sigs_reflexive(g, g.len());
            if let Some(x) = o {
                lemma_same_reflexive(*x);
            }
        },
        _ => {},
    }
}

proof fn lemma_member(x: Ty, s: Seq<Ty>, m: nat, i: int)
    requires
        0 <= i < m <= s.len(),
        same(x, s[i]),
    ensures
        member(x, s, m),
    decreases m,
{
    if i < m - 1 {
        lemma_member(x, s, (m - 1) as nat, i);
    }
}

proof fn lemma_member_of(s: Seq<Ty>, y: Ty, m: nat, i: int)
    requires
        0 <= i < m <= s.len(),
        same(s[i], y),
    ensures
        member_of(s, y, m),
    decreases m,
{
    if i < m - 1 {
        lemma_member_of(s, y, (m - 1) as nat, i);
    }
}

proof fn lemma_covered_reflexive(s: Seq<Ty>, n: nat)
    requires
        n <= s.len(),
    ensures
        covered(s, s, n),
    decreases s, n,
{
    if n > 0 {
        lemma_same_reflexive(s[n - 1]);
        lemma_member(s[n - 1], s, s.len(), n - 1);
        lemma_covered_reflexive(s, (n - 1) as nat);
    }
}

proof fn lemma_covering_reflexive(s: Seq<Ty>, n: nat)
    requires
        n <= s.len(),
    ensures
        covering(s, s, n),
    decreases s, n,
{
    if n > 0 {
        lemma_same_reflexive(s[n - 1]);
        lemma_member_of(s, s[n - 1], s.len(), n - 1);
        lemma_covering_reflexive(s, (n - 1) as nat);
    }
}

proof fn lemma_same_values_reflexive(f: Seq<(Seq<char>, Ty)>, n: nat)
    requires
        n <= f.len(),
    ensures
        same_values(f, f, n),
    decreases f, n,
{
    if n > 0 {
        lemma_same_reflexive(f[n - 1].1);
        lemma_key_index(f, f[n - 1].0);
        lemma_same_values_reflexive(f, (n - 1) as nat);
    }
}

proof fn lemma_pointwise_reflexive(s: Seq<Ty>, n: nat)
    requires
        n <= s.len(),
    ensures
        pointwise_same(s, s, n),
    decreases s, n,
{
    if n > 0 {
        lemma_same_reflexive(s[n - 1]);
        lemma_pointwise_reflexive(s, (n - 1) as nat);
    }
}

proof fn lemma_sigs_reflexive(g: Seq<Sig>, n: nat)
    requires
        n <= g.len(),
    ensures
        sigs_same(g, g, n),
    decreases g, n,
{
    if n > 0 {
        lemma_same_reflexive(g[n - 1].from);
        lemma_same_reflexive(g[n - 1].to);
        lemma_sigs_reflexive(g, (n - 1) as nat);
    }
}

fn member_exec(x: &Type, s: &Vec<Type>, m: usize) -> (r: bool)
    requires
        m <= s.len(),
    ensures
        r == member(x@, tys_of(s@), m as nat),
    decreases x, m + 1,
{
    if m == 0 {
        false
    } else {
        assert(tys_of(s@)[m - 1] == s@[m - 1]@);
        type_eq(x, &s[m - 1]) || member_exec(x, s, m - 1)
    }
}

fn member_of_exec(s: &Vec<Type>, y: &Type, m: usize) -> (r: bool)
    requires
        m <= s.len(),
    ensures
        r == member_of(tys_of(s@), y@, m as nat),
    decreases s, m,
{
    if m == 0 {
        false
    } else {
        assert(tys_of(s@)[m - 1] == s@[m - 1]@);
        type_eq(&s[m - 1], y) || member_of_exec(s, y, m - 1)
    }
}

fn covered_exec(s1: &Vec<Type>, s2: &Vec<Type>, n: usize) -> (r: bool)
    requires
        n <= s1.len(),
    ensures
        r == covered(tys_of(s1@), tys_of(s2@), n as nat),
    decreases s1, n,
{
    if n == 0 {
        true
    } else {
        assert(tys_of(s1@)[n - 1] == s1@[n - 1]@);
        member_exec(&s1[n - 1], s2, s2.len()) && covered_exec(s1, s2, n - 1)
    }
}

fn covering_exec(s1: &Vec<Type>, s2: &Vec<Type>, n: usize) -> (r: bool)
    requires
        n <= s2.len(),
    ensures
        r == covering(tys_of(s1@), tys_of(s2@), n as nat),
    decreases s1, s1.len() + n + 1,
{
    if n == 0 {
        true
    } else {
        assert(tys_of(s2@)[n - 1] == s2@[n - 1]@);
        member_of_exec(s1, &s2[n - 1], s1.len()) && covering_exec(s1, s2, n - 1)
    }
}

fn same_members_exec(s1: &Vec<Type>, s2: &Vec<Type>) -> (r: bool)
    ensures
        r == same_members(tys_of(s1@), tys_of(s2@)),
    decreases s1, s1.len() + s2.len() + 2,
{
    covered_exec(s1, s2, s1.len()) && covering_exec(s1, s2, s2.len())
}

fn same_keys_exec(f1: &Vec<(Identifier, Type)>, f2: &Vec<(Identifier, Type)>) -> (r: bool)
    ensures
        r == same_keys(ty_fields_of(f1@), ty_fields_of(f2@)),
{
    let ghost (v1, v2) = (ty_fields_of(f1@), ty_fields_of(f2@));
    let mut i: usize = 0;
    while i < f1.len()
        invariant
            i <= f1.len(),
            v1 == ty_fields_of(f1@),
            v2 == ty_fields_of(f2@),
            forall|p: int| 0 <= p < i ==> key_index(v2, (#[trigger] v1[p]).0) >= 0,
        decreases f1.len() - i,
    {
        if find_field(f2, &f1[i].0).is_none() {
            assert(v1[i as int].0 == f1@[i as int].0@);
            return false;
        }
        i += 1;
    }
    let mut j: usize = 0;
    while j < f2.len()
        invariant
            j <= f2.len(),
            v1 == ty_fields_of(f1@),
            v2 == ty_fields_of(f2@),
            forall|p: int| 0 <= p < v1.len() ==> key_index(v2, (#[trigger] v1[p]).0) >= 0,
            forall|p: int| 0 <= p < j ==> key_index(v1, (#[trigger] v2[p]).0) >= 0,
        decreases f2.len() - j,
    {
        if find_field(f1, &f2[j].0).is_none() {
            assert(v2[j as int].0 == f2@[j as int].0@);
            return false;
        }
        j += 1;
    }
    true
}

fn same_values_exec(f1: &Vec<(Identifier, Type)>, f2: &Vec<(Identifier, Type)>, n: usize) -> (r: bool)
    requires
        n <= f1.len(),
    ensures
        r == same_values(ty_fields_of(f1@), ty_fields_of(f2@), n as nat),
    decreases f1, n,
{
    if n == 0 {
        return true;
    }
    let ghost (v1, v2) = (ty_fields_of(f1@), ty_fields_of(f2@));
    assert(v1[n - 1] == (f1@[n - 1].0@, f1@[n - 1].1@));
    let here = match find_field(f1, &f1[n - 1].0) {
        Some(i) => i != n - 1 || match find_field(f2, &f1[n - 1].0) {
            Some(j) => {
                assert(v2[j as int].1 == f2@[j as int].1@);
                type_eq(&f1[n - 1].1, &f2[j].1)
            },
            None => false,
        },
        None => true,
    };
    here && same_values_exec(f1, f2, n - 1)
}

fn pointwise_same_exec(s1: &Vec<Type>, s2: &Vec<Type>, n: usize) -> (r: bool)
    requires
        n <= s1.len(),
        n <= s2.len(),
    ensures
        r == pointwise_same(tys_of(s1@), tys_of(s2@), n as nat),
    decreases s1, n,
{
    if n == 0 {
        true
    } else {
        assert(tys_of(s1@)[n - 1] == s1@[n - 1]@ && tys_of(s2@)[n - 1] == s2@[n - 1]@);
        type_eq(&s1[n - 1], &s2[n - 1]) && pointwise_same_exec(s1, s2, n - 1)
    }
}

fn sigs_same_exec(g1: &Vec<Signature>, g2: &Vec<Signature>, n: usize) -> (r: bool)
    requires
        n <= g1.len(),
        n <= g2.len(),
    ensures
        r == sigs_same(sigs_of(g1@), sigs_of(g2@), n as nat),
    decreases g1, n,
{
    if n == 0 {
        true
    } else {
        assert(sigs_of(g1@)[n - 1] == g1@[n - 1]@ && sigs_of(g2@)[n - 1] == g2@[n - 1]@);
        g1[n - 1].name == g2[n - 1].name && type_eq(&g1[n - 1].from, &g2[n - 1].from) && type_eq(
            &g1[n - 1].to,
            &g2[n - 1].to,
        ) && sigs_same_exec(g1, g2, n - 1)
    }
}

/// Equality of two types.
fn type_eq(a: &Type, b: &Type) -> (r: bool)
    ensures
        r == same(a@, b@),
    decreases a, 0nat,
{
    match a {
        Type::Empty => matches!(b, Type::Empty),
        Type::Error => matches!(b, Type::Error),
        Type::Unit => matches!(b, Type::Unit),
        Type::Boolean => matches!(b, Type::Boolean),
        Type::Natural => matches!(b, Type::Natural),
        Type::Integer => matches!(b, Type::Integer),
        Type::Float => matches!(b, Type::Float),
        Type::String => matches!(b, Type::String),
        Type::Oneself => matches!(b, Type::Oneself),
        Type::List(x) => match b {
            Type::List(y) => type_eq(x, y),
            _ => false,
        },
        Type::Array(x, n) => match b {
            Type::Array(y, m) => *n == *m && type_eq(x, y),
            _ => false,
        },
        Type::Slice(x) => match b {
            Type::Slice(y) => type_eq(x, y),
            _ => false,
        },
        Type::Union(x) => match b {
            Type::Union(y) => same_members_exec(x, y),
            _ => false,
        },
        Type::Struct(x) => match b {
            Type::Struct(y) => same_keys_exec(x, y) && same_values_exec(x, y, x.len()),
            _ => false,
        },
        Type::Tuple(x, l) => match b {
            Type::Tuple(y, m) => {
                assert(tys_of(x@).len() == x.len() && tys_of(y@).len() == y.len());
                labels_eq(l, m) && x.len() == y.len() && pointwise_same_exec(x, y, x.len())
            },
            _ => false,
        },
        Type::Function { from: xf, to: xt } => match b {
            Type::Function { from: yf, to: yt } => type_eq(xf, yf) && type_eq(xt, yt),
            _ => false,
        },
        Type::Interface(x, xa) => match b {
            Type::Interface(y, ya) => {
                assert(sigs_of(x@).len() == x.len() && sigs_of(y@).len() == y.len());
                x.len() == y.len() && sigs_same_exec(x, y, x.len()) && match (xa, ya) {
                    (Some(p), Some(q)) => type_eq(p, q),
                    (None, None) => true,
                    _ => false,
                }
            },
            _ => false,
        },
        Type::Generic(x) => match b {
            Type::Generic(y) => match (x, y) {
                (Some(p), Some(q)) => same_members_exec(p, q),
                (None, None) => true,
                _ => false,
            },
            _ => false,
        },
    }
}

impl PartialEq for Type {
    fn eq(&self, other: &Type) -> (r: bool) {
        type_eq(self, other)
    }
}

impl vstd::std_specs::cmp::PartialEqSpecImpl for Type {
    open spec fn obeys_eq_spec() -> bool {
        true
    }

    open spec fn eq_spec(&self, other: &Type) -> bool {
        same(self@, other@)
    }
}

impl PartialEq for Signature {
    fn eq(&self, other: &Signature) -> (r: bool) {
        self.name == other.name && type_eq(&self.from, &other.from) && type_eq(&self.to, &other.to)
    }
}

impl vstd::std_specs::cmp::PartialEqSpecImpl for Signature {
    open spec fn obeys_eq_spec() -> bool {
        true
    }

    open spec fn eq_spec(&self, other: &Signature) -> bool {
        sig_same(self@, other@)
    }
}

fn label_eq(a: &Option<Identifier>, b: &Option<Identifier>) -> (r: bool)
    ensures
        r == (label_of(*a) == label_of(*b)),
{
    match (a, b) {
        (Some(x), Some(y)) => *x == *y,
        (None, None) => true,
        _ => false,
    }
}

pub(crate) fn labels_eq(a: &Vec<Option<Identifier>>, b: &Vec<Option<Identifier>>) -> (r: bool)
    ensures
        r == (labels_of(a@) == labels_of(b@)),
{
    if a.len() != b.len() {
        assert(labels_of(a@).len() != labels_of(b@).len());
        return false;
    }
    let mut i: usize = 0;
    while i < a.len()
        invariant
            i <= a.len(),
            a.len() == b.len(),
            forall|j: int| 0 <= j < i ==> label_of(#[trigger] a@[j]) == label_of(b@[j]),
        decreases a.len() - i,
    {
        if !label_eq(&a[i], &b[i]) {
            assert(labels_of(a@)[i as int] != labels_of(b@)[i as int]);
            return false;
        }
        i += 1;
    }
    assert(labels_of(a@) =~= labels_of(b@));
    true
}

fn copy_terms(v: &Vec<Term>) -> (r: Vec<Term>)
    ensures
        vals_of(r@) == vals_of(v@),
    decreases v,
{
    let mut r: Vec<Term> = Vec::new();
    let mut i: usize = 0;
    while i < v.len()
        invariant
            i <= v.len(),
            r@.len() == i,
            forall|j: int| 0 <= j < i ==> (#[trigger] r@[j])@ == v@[j]@,
        decreases v.len() - i,
    {
        r.push(v[i].clone());
        i += 1;
    }
    assert(vals_of(r@) =~= vals_of(v@));
    r
}

fn copy_val_fields(v: &Vec<(Identifier, Term)>) -> (r: Vec<(Identifier, Term)>)
    ensures
        val_fields_of(r@) == val_fields_of(v@),
    decreases v,
{
    let mut r: Vec<(Identifier, Term)> = Vec::new();
    let mut i: usize = 0;
    while i < v.len()
        invariant
            i <= v.len(),
            r@.len() == i,
            forall|j: int| 0 <= j < i ==> (#[trigger] r@[j]).0@ == v@[j].0@ && r@[j].1@ == v@[j].1@,
        decreases v.len() - i,
    {
        r.push((v[i].0.clone(), v[i].1.clone()));
        i += 1;
    }
    assert(val_fields_of(r@) =~= val_fields_of(v@));
    r
}

impl Clone for Term {
    fn clone(&self) -> (r: Self)
        ensures
            r@ == self@,
        decreases self,
    {
        match self {
            Term::Unit() => Term::Unit(),
            Term::Boolean(b) => Term::Boolean(*b),
            Term::Natural(n) => Term::Natural(*n),
            Term::Integer(i) => Term::Integer(*i),
            Term::Float(f) => Term::Float(*f),
            Term::String(s) => Term::String(s.clone()),
            Term::List(v) => Term::List(copy_terms(v)),
            Term::Array(v) => Term::Array(copy_terms(v)),
            Term::Union(b) => Term::Union(Box::new((**b).clone())),
            Term::Struct(v) => Term::Struct(copy_val_fields(v)),
            Term::Tuple(v, l) => Term::Tuple(copy_terms(v), copy_labels(l)),
        }
    }
}

impl Clone for Expression {
    fn clone(&self) -> (r: Self)
        ensures
            r@ == self@,
        decreases self,
    {
        match self {
            Expression::Annotation { expr, kind } => Expression::Annotation {
                expr: Box::new((**expr).clone()),
                kind: kind.clone(),
            },
            Expression::Constant { term } => Expression::Constant { term: term.clone() },
            Expression::Variable { id } => Expression::Variable { id: id.clone() },
            Expression::Abstraction { param, func } => Expression::Abstraction {
                param: param.clone(),
                func: Box::new((**func).clone()),
            },
            Expression::Application { func, arg } => Expression::Application {
                func: Box::new((**func).clone()),
                arg: Box::new((**arg).clone()),
            },
            Expression::Conditional { if_cond, if_then, if_else } => Expression::Conditional {
                if_cond: Box::new((**if_cond).clone()),
                if_then: Box::new((**if_then).clone()),
                if_else: Box::new((**if_else).clone()),
            },
        }
    }
}

// ---------------------------------------------------------------------------
// Context

/// Variable bindings, and implementations of interface methods keyed by signature.
/// A later insertion under the same key shadows an earlier one.
#[derive(Debug)]
pub struct Context {
    terms: Vec<(Identifier, Term)>,
    funcs: Vec<(Signature, Expression)>,
}

/// The model of a `Context`: two independent maps.
pub struct Ctx {
    pub terms: Map<Seq<char>, Val>,
    /// Registrations in order; a later one for the same signature replaces an earlier one.
    pub funcs: Seq<(Sig, Expr)>,
}

/// The map that a list of insertions builds, later entries winning.
pub open spec fn map_of<K: View, V: View>(s: Seq<(K, V)>) -> Map<K::V, V::V>
    decreases s.len(),
{
    if s.len() == 0 {
        Map::empty()
    } else {
        map_of(s.drop_last()).insert(s.last().0@, s.last().1@)
    }
}

proof fn lemma_map_of_found<K: View, V: View>(s: Seq<(K, V)>, k: K::V, j: int)
    requires
        0 <= j < s.len(),
        s[j].0@ == k,
        forall|i: int| j < i < s.len() ==> (#[trigger] s[i]).0@ != k,
    ensures
        map_of(s).contains_key(k),
        map_of(s)[k] == s[j].1@,
    decreases s.len(),
{
    if j < s.len() - 1 {
        let p = s.drop_last();
        assert forall|i: int| j < i < p.len() implies (#[trigger] p[i]).0@ != k by {
            assert(p[i] == s[i]);
        }
        lemma_map_of_found(p, k, j);
    }
}

proof fn lemma_map_of_absent<K: View, V: View>(s: Seq<(K, V)>, k: K::V)
    requires
        forall|i: int| 0 <= i < s.len() ==> (#[trigger] s[i]).0@ != k,
    ensures
        !map_of(s).contains_key(k),
    decreases s.len(),
{
    if s.len() > 0 {
        let p = s.drop_last();
        assert forall|i: int| 0 <= i < p.len() implies (#[trigger] p[i]).0@ != k by {
            assert(p[i] == s[i]);
        }
        lemma_map_of_absent(p, k);
    }
}

proof fn lemma_map_of_views<K: View, V: View>(a: Seq<(K, V)>, b: Seq<(K, V)>)
    requires
        a.len() == b.len(),
        forall|i: int| 0 <= i < a.len() ==> (#[trigger] a[i]).0@ == b[i].0@ && a[i].1@ == b[i].1@,
    ensures
        map_of(a) == map_of(b),
    decreases a.len(),
{
    if a.len() > 0 {
        let (p, q) = (a.drop_last(), b.drop_last());
        assert forall|i: int| 0 <= i < p.len() implies (#[trigger] p[i]).0@ == q[i].0@ && p[i].1@ == q[i].1@ by {
            assert(p[i] == a[i] && q[i] == b[i]);
        }
        lemma_map_of_views(p, q);
    }
}

/// The models of registrations.
pub open spec fn entries_of(s: Seq<(Signature, Expression)>) -> Seq<(Sig, Expr)> {
    Seq::new(s.len(), |i: int| (s[i].0@, s[i].1@))
}

/// The implementation registered last under a signature equal to `k`.
pub open spec fn lookup_sig(s: Seq<(Sig, Expr)>, k: Sig) -> Option<Expr>
    decreases s.len(),
{
    if s.len() == 0 {
        None
    } else if sig_same(s.last().0, k) {
        Some(s.last().1)
    } else {
        lookup_sig(s.drop_last(), k)
    }
}

proof fn lemma_lookup_found(s: Seq<(Sig, Expr)>, k: Sig, j: int)
    requires
        0 <= j < s.len(),
        sig_same(s[j].0, k),
        forall|i: int| j < i < s.len() ==> !sig_same((#[trigger] s[i]).0, k),
    ensures
        lookup_sig(s, k) == Some(s[j].1),
    decreases s.len(),
{
    if j < s.len() - 1 {
        let p = s.drop_last();
        assert(!sig_same(s[s.len() - 1].0, k));
        assert forall|i: int| j < i < p.len() implies !sig_same((#[trigger] p[i]).0, k) by {
            assert(p[i] == s[i]);
        }
        lemma_lookup_found(p, k, j);
    }
}

proof fn lemma_lookup_absent(s: Seq<(Sig, Expr)>, k: Sig)
    requires
        forall|i: int| 0 <= i < s.len() ==> !sig_same((#[trigger] s[i]).0, k),
    ensures
        lookup_sig(s, k) is None,
    decreases s.len(),
{
    if s.len() > 0 {
        let p = s.drop_last();
        assert(!sig_same(s[s.len() - 1].0, k));
        assert forall|i: int| 0 <= i < p.len() implies !sig_same((#[trigger] p[i]).0, k) by {
            assert(p[i] == s[i]);
        }
        lemma_lookup_absent(p, k);
    }
}

impl View for Context {
    type V = Ctx;

    closed spec fn view(&self) -> Ctx {
        Ctx { terms: map_of(self.terms@), funcs: entries_of(self.funcs@) }
    }
}

impl Clone for Context {
    fn clone(&self) -> (r: Self)
        ensures
            r@ == self@,
    {
        let mut terms: Vec<(Identifier, Term)> = Vec::new();
        let mut i: usize = 0;
        while i < self.terms.len()
            invariant
                i <= self.terms.len(),
                terms@.len() == i,
                forall|j: int|
                    0 <= j < i ==> (#[trigger] terms@[j]).0@ == self.terms@[j].0@ && terms@[j].1@
                        == self.terms@[j].1@,
            decreases self.terms.len() - i,
        {
            terms.push((self.terms[i].0.clone(), self.terms[i].1.clone()));
            i += 1;
        }
        let mut funcs: Vec<(Signature, Expression)> = Vec::new();
        let mut i: usize = 0;
        while i < self.funcs.len()
            invariant
                i <= self.funcs.len(),
                funcs@.len() == i,
                forall|j: int|
                    0 <= j < i ==> (#[trigger] funcs@[j]).0@ == self.funcs@[j].0@ && funcs@[j].1@
                        == self.funcs@[j].1@,
            decreases self.funcs.len() - i,
        {
            funcs.push((self.funcs[i].0.clone(), self.funcs[i].1.clone()));
            i += 1;
        }
        proof {
            lemma_map_of_views(terms@, self.terms@);
            assert(entries_of(funcs@) =~= entries_of(self.funcs@));
        }
        Context { terms, funcs }
    }
}

impl Context {
    /// A context with no bindings.
    pub fn new() -> (r: Context)
        ensures
            r@.terms == Map::<Seq<char>, Val>::empty(),
            r@.funcs == Seq::<(Sig, Expr)>::empty(),
    {
        let r = Context { terms: Vec::new(), funcs: Vec::new() };
        assert(entries_of(r.funcs@) =~= Seq::<(Sig, Expr)>::empty());
        r
    }

    /// The term bound to `k`.
    pub fn get_term(&self, k: &Identifier) -> (r: Option<&Term>)
        ensures
            match r {
                Some(t) => self@.terms.contains_key(k@) && self@.terms[k@] == t@,
                None => !self@.terms.contains_key(k@),
            },
    {
        let mut i: usize = self.terms.len();
        while i > 0
            invariant
                i <= self.terms.len(),
                forall|j: int| i <= j < self.terms.len() ==> (#[trigger] self.terms@[j]).0@ != k@,
            decreases i,
        {
            i -= 1;
            if self.terms[i].0 == *k {
                proof {
                    lemma_map_of_found(self.terms@, k@, i as int);
                }
                return Some(&self.terms[i].1);
            }
        }
        proof {
            lemma_map_of_absent(self.terms@, k@);
        }
        None
    }

    /// Binds `k` to `v`, shadowing any earlier binding, which is returned.
    pub fn insert_term(&mut self, k: Identifier, v: Term) -> (r: Option<Term>)
        ensures
            final(self)@.terms == old(self)@.terms.insert(k@, v@),
            final(self)@.funcs == old(self)@.funcs,
            match r {
                Some(t) => old(self)@.terms.contains_key(k@) && old(self)@.terms[k@] == t@,
                None => !old(self)@.terms.contains_key(k@),
            },
    {
        let previous = match self.get_term(&k) {
            Some(t) => Some(t.clone()),
            None => None,
        };
        let ghost before = self.terms@;
        self.terms.push((k, v));
        assert(self.terms@.drop_last() =~= before);
        previous
    }

    /// The implementation registered last under a signature equal to `k`.
    pub fn get_func(&self, k: &Signature) -> (r: Option<&Expression>)
        ensures
            match r {
                Some(e) => lookup_sig(self@.funcs, k@) == Some(e@),
                None => lookup_sig(self@.funcs, k@) is None,
            },
    {
        let ghost es = entries_of(self.funcs@);
        let mut i: usize = self.funcs.len();
        while i > 0
            invariant
                i <= self.funcs.len(),
                es == entries_of(self.funcs@),
                forall|j: int| i <= j < self.funcs.len() ==> !sig_same((#[trigger] es[j]).0, k@),
            decreases i,
        {
            i -= 1;
            if self.funcs[i].0 == *k {
                proof {
                    lemma_lookup_found(es, k@, i as int);
                }
                return Some(&self.funcs[i].1);
            }
        }
        proof {
            lemma_lookup_absent(es, k@);
        }
        None
    }

    /// Registers `v` as the implementation for `k`, returning the one it replaces.
    pub fn insert_func(&mut self, k: Signature, v: Expression) -> (r: Option<Expression>)
        ensures
            final(self)@.funcs == old(self)@.funcs.push((k@, v@)),
            final(self)@.terms == old(self)@.terms,
            match r {
                Some(e) => lookup_sig(old(self)@.funcs, k@) == Some(e@),
                None => lookup_sig(old(self)@.funcs, k@) is None,
            },
    {
        let previous = match self.get_func(&k) {
            Some(e) => Some(e.clone()),
            None => None,
        };
        let ghost before = self.funcs@;
        self.funcs.push((k, v));
        assert(entries_of(self.funcs@) =~= entries_of(before).push((k@, v@)));
        previous
    }

    /// Whether `k` is bound.
    pub fn contains_term(&self, k: &Identifier) -> (r: bool)
        ensures
            r == self@.terms.contains_key(k@),
    {
        self.get_term(k).is_some()
    }

    /// Whether an implementation is registered under `k`.
    pub fn contains_sig(&self, k: &Signature) -> (r: bool)
        ensures
            r == lookup_sig(self@.funcs, k@) is Some,
    {
        self.get_func(k).is_some()
    }
}

// ---------------------------------------------------------------------------
// Types of values, and values of types

/// The type of a value; empty lists and arrays have none.
pub open spec fn convert(v: Val) -> Result<Ty, FaultV>
    decreases v,
{
    match v {
        Val::Unit => Ok(Ty::Unit),
        Val::Boolean(_) => Ok(Ty::Boolean),
        Val::Natural(_) => Ok(Ty::Natural),
        Val::Integer(_) => Ok(Ty::Integer),
        Val::Float(_) => Ok(Ty::Float),
        Val::Str(_) => Ok(Ty::Str),
        Val::List(s) => if s.len() == 0 {
            Err(FaultV::EmptyCollection)
        } else {
            match convert(s[0]) {
                Ok(t) => Ok(Ty::List(Box::new(t))),
                Err(e) => Err(e),
            }
        },
        Val::Array(s) => if s.len() == 0 {
            Err(FaultV::EmptyCollection)
        } else {
            match convert(s[0]) {
                Ok(t) => Ok(Ty::Array(Box::new(t), s.len())),
                Err(e) => Err(e),
            }
        },
        Val::Union(b) => convert(*b),
        Val::Struct(fs) => if forall|i: int| 0 <= i < fs.len() ==> convert(#[trigger] fs[i].1) is Ok {
            Ok(Ty::Struct(converted_fields(fs)))
        } else {
            Err(FaultV::EmptyCollection)
        },
        Val::Tuple(s, l) => if forall|i: int| 0 <= i < s.len() ==> convert(#[trigger] s[i]) is Ok {
            Ok(Ty::Tuple(converted_all(s), l))
        } else {
            Err(FaultV::EmptyCollection)
        },
    }
}

/// The types of the fields' values, where each has one.
pub open spec fn converted_fields(fs: Seq<(Seq<char>, Val)>) -> Seq<(Seq<char>, Ty)>
    decreases fs,
{
    Seq::new(
        fs.len(),
        |i: int| if 0 <= i < fs.len() { (fs[i].0, convert(fs[i].1)->Ok_0) } else { (Seq::empty(), Ty::Empty) },
    )
}

/// The types of the values, where each has one.
pub open spec fn converted_all(s: Seq<Val>) -> Seq<Ty>
    decreases s,
{
    Seq::new(s.len(), |i: int| if 0 <= i < s.len() { convert(s[i])->Ok_0 } else { Ty::Empty })
}

/// The only way the type of a value is missing.
pub proof fn lemma_convert_fault(v: Val)
    ensures
        convert(v) is Err ==> convert(v)->Err_0 == FaultV::EmptyCollection,
    decreases v,
{
    match v {
        Val::List(s) => if s.len() > 0 {
            lemma_convert_fault(s[0]);
        },
        Val::Array(s) => if s.len() > 0 {
            lemma_convert_fault(s[0]);
        },
        Val::Union(b) => lemma_convert_fault(*b),
        _ => {},
    }
}

/// The canonical values of a sequence of types, or the first failure.
pub open spec fn defaults(s: Seq<Ty>) -> Result<Seq<Val>, FaultV>
    decreases s,
{
    if s.len() == 0 {
        Ok(Seq::empty())
    } else {
        match defaults(s.subrange(0, s.len() - 1)) {
            Err(e) => Err(e),
            Ok(vs) => match default_of(s[s.len() - 1]) {
                Ok(v) => Ok(vs.push(v)),
                Err(e) => Err(e),
            },
        }
    }
}

/// The canonical values of a sequence of fields, or the first failure.
pub open spec fn field_defaults(s: Seq<(Seq<char>, Ty)>) -> Result<Seq<(Seq<char>, Val)>, FaultV>
    decreases s,
{
    if s.len() == 0 {
        Ok(Seq::empty())
    } else {
        match field_defaults(s.subrange(0, s.len() - 1)) {
            Err(e) => Err(e),
            Ok(vs) => match default_of(s[s.len() - 1].1) {
                Ok(v) => Ok(vs.push((s[s.len() - 1].0, v))),
                Err(e) => Err(e),
            },
        }
    }
}

/// The canonical value of a type; types without a constructible inhabitant
/// have none.
pub open spec fn default_of(t: Ty) -> Result<Val, FaultV>
    decreases t,
{
    match t {
        Ty::Unit => Ok(Val::Unit),
        Ty::Boolean => Ok(Val::Boolean(false)),
        Ty::Natural => Ok(Val::Natural(0)),
        Ty::Integer => Ok(Val::Integer(0)),
        Ty::Float => Ok(Val::Float(0)),
        Ty::Str => Ok(Val::Str(Seq::empty())),
        Ty::List(_) => Ok(Val::List(Seq::empty())),
        Ty::Array(a, n) => match default_of(*a) {
            Ok(v) => Ok(Val::Array(Seq::new(n, |i: int| v))),
            Err(e) => Err(e),
        },
        Ty::Struct(fs) => match field_defaults(fs) {
            Ok(vs) => Ok(Val::Struct(vs)),
            Err(e) => Err(e),
        },
        Ty::Tuple(s, l) => match defaults(s) {
            Ok(vs) => Ok(Val::Tuple(vs, l)),
            Err(e) => Err(e),
        },
        _ => Err(FaultV::UnconstructibleDefault(t)),
    }
}

fn convert_fields(data: &Vec<(Identifier, Term)>) -> (r: Result<Vec<(Identifier, Type)>, Fault>)
    ensures
        match r {
            Ok(v) => (forall|j: int|
                0 <= j < data.len() ==> convert(#[trigger] val_fields_of(data@)[j].1) is Ok)
                && ty_fields_of(v@) == converted_fields(val_fields_of(data@)),
            Err(e) => e == Fault::EmptyCollection && exists|j: int|
                0 <= j < data.len() && convert(#[trigger] val_fields_of(data@)[j].1) is Err,
        },
    decreases data,
{
    let ghost fs = val_fields_of(data@);
    let mut result: Vec<(Identifier, Type)> = Vec::new();
    let mut i: usize = 0;
    while i < data.len()
        invariant
            i <= data.len(),
            fs == val_fields_of(data@),
            result@.len() == i,
            forall|j: int|
                0 <= j < i ==> convert(#[trigger] fs[j].1) is Ok && result@[j].0@ == fs[j].0
                    && result@[j].1@ == convert(fs[j].1)->Ok_0,
        decreases data.len() - i,
    {
        match data[i].1.convert() {
            Ok(t) => result.push((data[i].0.clone(), t)),
            Err(_) => {
                assert(convert(fs[i as int].1) is Err);
                return Err(Fault::EmptyCollection);
            },
        }
        i += 1;
    }
    assert(ty_fields_of(result@) =~= converted_fields(fs));
    Ok(result)
}

fn convert_all(data: &Vec<Term>) -> (r: Result<Vec<Type>, Fault>)
    ensures
        match r {
            Ok(v) => (forall|j: int| 0 <= j < data.len() ==> convert(#[trigger] vals_of(data@)[j]) is Ok)
                && tys_of(v@) == converted_all(vals_of(data@)),
            Err(e) => e == Fault::EmptyCollection && exists|j: int|
                0 <= j < data.len() && convert(#[trigger] vals_of(data@)[j]) is Err,
        },
    decreases data,
{
    let ghost s = vals_of(data@);
    let mut result: Vec<Type> = Vec::new();
    let mut i: usize = 0;
    while i < data.len()
        invariant
            i <= data.len(),
            s == vals_of(data@),
            result@.len() == i,
            forall|j: int|
                0 <= j < i ==> convert(#[trigger] s[j]) is Ok && result@[j]@ == convert(s[j])->Ok_0,
        decreases data.len() - i,
    {
        match data[i].convert() {
            Ok(t) => result.push(t),
            Err(_) => {
                assert(convert(s[i as int]) is Err);
                return Err(Fault::EmptyCollection);
            },
        }
        i += 1;
    }
    assert(tys_of(result@) =~= converted_all(s));
    Ok(result)
}

impl Term {
    /// Converts a term into its corresponding type.
    pub fn convert(&self) -> (r: Result<Type, Fault>)
        ensures
            result_view(r) == convert(self@),
        decreases self,
    {
        proof {
            lemma_convert_fault(self@);
        }
        match self {
            Term::Unit() => Ok(Type::Unit),
            Term::Boolean(_) => Ok(Type::Boolean),
            Term::Natural(_) => Ok(Type::Natural),
            Term::Integer(_) => Ok(Type::Integer),
            Term::Float(_) => Ok(Type::Float),
            Term::String(_) => Ok(Type::String),
            Term::List(data) => {
                if data.len() == 0 {
                    assert(vals_of(data@).len() == 0);
                    return Err(Fault::EmptyCollection);
                }
                assert(vals_of(data@)[0] == data@[0]@);
                match data[0].convert() {
                    Ok(t) => Ok(Type::List(Box::new(t))),
                    Err(e) => Err(e),
                }
            },
            Term::Array(data) => {
                if data.len() == 0 {
                    assert(vals_of(data@).len() == 0);
                    return Err(Fault::EmptyCollection);
                }
                assert(vals_of(data@)[0] == data@[0]@);
                match data[0].convert() {
                    Ok(t) => Ok(Type::Array(Box::new(t), data.len())),
                    Err(e) => Err(e),
                }
            },
            Term::Union(data) => data.convert(),
            Term::Struct(data) => {
                let r = convert_fields(data);
                match r {
                    Ok(v) => Ok(Type::Struct(v)),
                    Err(e) => Err(e),
                }
            },
            Term::Tuple(data, fields) => {
                let r = convert_all(data);
                match r {
                    Ok(v) => Ok(Type::Tuple(v, copy_labels(fields))),
                    Err(e) => Err(e),
                }
            },
        }
    }
}

fn default_fields(data: &Vec<(Identifier, Type)>) -> (r: Result<Vec<(Identifier, Term)>, Fault>)
    ensures
        result_fields_view(r) == field_defaults(ty_fields_of(data@)),
    decreases data,
{
    let ghost fs = ty_fields_of(data@);
    let mut result: Vec<(Identifier, Term)> = Vec::new();
    let mut i: usize = 0;
    assert(val_fields_of(result@) =~= Seq::empty());
    assert(fs.subrange(0, 0) =~= Seq::empty());
    while i < data.len()
        invariant
            i <= data.len(),
            fs == ty_fields_of(data@),
            field_defaults(fs.subrange(0, i as int)) == Ok::<Seq<(Seq<char>, Val)>, FaultV>(
                val_fields_of(result@),
            ),
        decreases data.len() - i,
    {
        assert(fs.subrange(0, i + 1).subrange(0, i as int) =~= fs.subrange(0, i as int));
        match data[i].1.default() {
            Ok(v) => {
                let ghost before = result@;
                result.push((data[i].0.clone(), v));
                assert(val_fields_of(result@) =~= val_fields_of(before).push((fs[i as int].0, v@)));
            },
            Err(e) => {
                proof {
                    lemma_field_defaults_prefix(fs, i as int + 1);
                }
                return Err(e);
            },
        }
        i += 1;
    }
    assert(fs.subrange(0, data.len() as int) =~= fs);
    Ok(result)
}

fn default_all(data: &Vec<Type>) -> (r: Result<Vec<Term>, Fault>)
    ensures
        result_vals_view(r) == defaults(tys_of(data@)),
    decreases data,
{
    let ghost s = tys_of(data@);
    let mut result: Vec<Term> = Vec::new();
    let mut i: usize = 0;
    assert(vals_of(result@) =~= Seq::empty());
    assert(s.subrange(0, 0) =~= Seq::empty());
    while i < data.len()
        invariant
            i <= data.len(),
            s == tys_of(data@),
            defaults(s.subrange(0, i as int)) == Ok::<Seq<Val>, FaultV>(vals_of(result@)),
        decreases data.len() - i,
    {
        assert(s.subrange(0, i + 1).subrange(0, i as int) =~= s.subrange(0, i as int));
        match data[i].default() {
            Ok(v) => {
                let ghost before = result@;
                result.push(v);
                assert(vals_of(result@) =~= vals_of(before).push(v@));
            },
            Err(e) => {
                proof {
                    lemma_defaults_prefix(s, i as int + 1);
                }
                return Err(e);
            },
        }
        i += 1;
    }
    assert(s.subrange(0, data.len() as int) =~= s);
    Ok(result)
}

pub open spec fn result_fields_view(r: Result<Vec<(Identifier, Term)>, Fault>) -> Result<
    Seq<(Seq<char>, Val)>,
    FaultV,
> {
    match r {
        Ok(v) => Ok(val_fields_of(v@)),
        Err(e) => Err(e@),
    }
}

pub open spec fn result_vals_view(r: Result<Vec<Term>, Fault>) -> Result<Seq<Val>, FaultV> {
    match r {
        Ok(v) => Ok(vals_of(v@)),
        Err(e) => Err(e@),
    }
}

impl Type {
    /// The canonical value of a type, or why it has none.
    pub fn default(&self) -> (r: Result<Term, Fault>)
        ensures
            result_view(r) == default_of(self@),
        decreases self,
    {
        match self {
            Type::Unit => Ok(Term::Unit()),
            Type::Boolean => Ok(Term::Boolean(false)),
            Type::Natural => Ok(Term::Natural(0)),
            Type::Integer => Ok(Term::Integer(0)),
            Type::Float => Ok(Term::Float(0)),
            Type::String => Ok(Term::String(String::new())),
            Type::List(_) => {
                let r = Term::List(Vec::new());
                assert(vals_of(Seq::<Term>::empty()) =~= Seq::<Val>::empty());
                Ok(r)
            },
            Type::Array(data, len) => {
                let v = match data.default() {
                    Ok(v) => v,
                    Err(e) => return Err(e),
                };
                let mut result: Vec<Term> = Vec::new();
                let mut i: usize = 0;
                while i < *len
                    invariant
                        i <= *len,
                        result@.len() == i,
                        forall|j: int| 0 <= j < i ==> (#[trigger] result@[j])@ == v@,
                    decreases *len - i,
                {
                    result.push(v.clone());
                    i += 1;
                }
                assert(vals_of(result@) =~= Seq::new(*len as nat, |i: int| v@));
                Ok(Term::Array(result))
            },
            Type::Struct(data) => match default_fields(data) {
                Ok(v) => Ok(Term::Struct(v)),
                Err(e) => Err(e),
            },
            Type::Tuple(data, fields) => match default_all(data) {
                Ok(v) => Ok(Term::Tuple(v, copy_labels(fields))),
                Err(e) => Err(e),
            },
            _ => Err(Fault::UnconstructibleDefault(self.clone())),
        }
    }
}

/// A failure among the first `n` types is the failure of the whole sequence.
proof fn lemma_defaults_prefix(s: Seq<Ty>, n: int)
    requires
        0 <= n <= s.len(),
        defaults(s.subrange(0, n)) is Err,
    ensures
        defaults(s) == defaults(s.subrange(0, n)),
    decreases s.len() - n,
{
    if n < s.len() {
        assert(s.subrange(0, n + 1).subrange(0, n) =~= s.subrange(0, n));
        lemma_defaults_prefix(s, n + 1);
    } else {
        assert(s.subrange(0, n) =~= s);
    }
}

/// A failure among the first `n` fields is the failure of the whole sequence.
proof fn lemma_field_defaults_prefix(s: Seq<(Seq<char>, Ty)>, n: int)
    requires
        0 <= n <= s.len(),
        field_defaults(s.subrange(0, n)) is Err,
    ensures
        field_defaults(s) == field_defaults(s.subrange(0, n)),
    decreases s.len() - n,
{
    if n < s.len() {
        assert(s.subrange(0, n + 1).subrange(0, n) =~= s.subrange(0, n));
        lemma_field_defaults_prefix(s, n + 1);
    } else {
        assert(s.subrange(0, n) =~= s);
    }
}

} // verus!
