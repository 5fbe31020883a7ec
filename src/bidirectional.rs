//! Self-type elimination, the subtyping relation and its laws, and the
//! checking and inference judgements.
use vstd::prelude::*;
use crate::ast::{
    convert, copy_labels, default_of, find_field, key_index, labels_eq, lemma_key_index, labels_of, result_view, sigs_of, ty_fields_of, tys_of,
    lemma_same_reflexive, lookup_sig, same, Context, Ctx, Expr, Expression, Fault, FaultV, Identifier, Sig, Signature, Ty, Type,
};

verus! {

// ---------------------------------------------------------------------------
// Self-type elimination

/// Replaces every `Oneself` outside an interface's signatures with `r`.
pub open spec fn deselfify(t: Ty, r: Ty) -> Ty
    decreases t,
{
    match t {
        Ty::Oneself => r,
        Ty::List(a) => Ty::List(Box::new(deselfify(*a, r))),
        Ty::Array(a, n) => Ty::Array(Box::new(deselfify(*a, r)), n),
        Ty::Slice(a) => Ty::Slice(Box::new(deselfify(*a, r))),
        Ty::Union(s) => Ty::Union(deselfify_all(s, r)),
        Ty::Struct(fs) => Ty::Struct(deselfify_fields(fs, r)),
        Ty::Tuple(s, l) => Ty::Tuple(deselfify_all(s, r), l),
        Ty::Function(a, b) => Ty::Function(Box::new(deselfify(*a, r)), Box::new(deselfify(*b, r))),
        Ty::Interface(sigs, assoc) => Ty::Interface(
            deselfify_sigs(sigs, r),
            match assoc {
                Some(a) => Some(Box::new(deselfify(*a, r))),
                None => None,
            },
        ),
        Ty::Generic(Some(s)) => Ty::Generic(Some(deselfify_all(s, r))),
        _ => t,
    }
}

pub open spec fn deselfify_all(s: Seq<Ty>, r: Ty) -> Seq<Ty>
    decreases s,
{
    Seq::new(s.len(), |i: int| if 0 <= i < s.len() { deselfify(s[i], r) } else { Ty::Empty })
}

pub open spec fn deselfify_fields(fs: Seq<(Seq<char>, Ty)>, r: Ty) -> Seq<(Seq<char>, Ty)>
    decreases fs,
{
    Seq::new(
        fs.len(),
        |i: int| if 0 <= i < fs.len() { (fs[i].0, deselfify(fs[i].1, r)) } else { (Seq::empty(), Ty::Empty) },
    )
}

pub open spec fn deselfify_sigs(sigs: Seq<Sig>, r: Ty) -> Seq<Sig>
    decreases sigs,
{
    Seq::new(
        sigs.len(),
        |i: int|
            if 0 <= i < sigs.len() {
                Sig { name: sigs[i].name, from: deselfify(sigs[i].from, r), to: deselfify(sigs[i].to, r) }
            } else {
                Sig { name: Seq::empty(), from: Ty::Empty, to: Ty::Empty }
            },
    )
}

/// Whether `Oneself` occurs anywhere in a type.
pub open spec fn has_self(t: Ty) -> bool
    decreases t,
{
    match t {
        Ty::Oneself => true,
        Ty::List(a) => has_self(*a),
        Ty::Array(a, _) => has_self(*a),
        Ty::Slice(a) => has_self(*a),
        Ty::Union(s) => exists|i: int| 0 <= i < s.len() && has_self(#[trigger] s[i]),
        Ty::Struct(fs) => exists|i: int| 0 <= i < fs.len() && has_self(#[trigger] fs[i].1),
        Ty::Tuple(s, _) => exists|i: int| 0 <= i < s.len() && has_self(#[trigger] s[i]),
        Ty::Function(a, b) => has_self(*a) || has_self(*b),
        Ty::Interface(sigs, assoc) => (exists|i: int|
            0 <= i < sigs.len() && (has_self(#[trigger] sigs[i].from) || has_self(sigs[i].to))) || match assoc {
            Some(a) => has_self(*a),
            None => false,
        },
        Ty::Generic(Some(s)) => exists|i: int| 0 <= i < s.len() && has_self(#[trigger] s[i]),
        _ => false,
    }
}

/// A type in which nothing is left to replace is its own deselfification.
pub proof fn lemma_deselfify_identity(t: Ty, r: Ty)
    requires
        !has_self(t),
    ensures
        deselfify(t, r) == t,
    decreases t,
{
    match t {
        Ty::List(a) => lemma_deselfify_identity(*a, r),
        Ty::Array(a, _) => lemma_deselfify_identity(*a, r),
        Ty::Slice(a) => lemma_deselfify_identity(*a, r),
        Ty::Union(s) => {
            assert forall|i: int| 0 <= i < s.len() implies deselfify(s[i], r) == s[i] by {
                assert(!has_self(s[i]));
                lemma_deselfify_identity(s[i], r);
            }
            assert(deselfify_all(s, r) =~= s);
        },
        Ty::Tuple(s, _) => {
            assert forall|i: int| 0 <= i < s.len() implies deselfify(s[i], r) == s[i] by {
                assert(!has_self(s[i]));
                lemma_deselfify_identity(s[i], r);
            }
            assert(deselfify_all(s, r) =~= s);
        },
        Ty::Generic(Some(s)) => {
            assert forall|i: int| 0 <= i < s.len() implies deselfify(s[i], r) == s[i] by {
                assert(!has_self(s[i]));
                lemma_deselfify_identity(s[i], r);
            }
            assert(deselfify_all(s, r) =~= s);
        },
        Ty::Struct(fs) => {
            assert forall|i: int| 0 <= i < fs.len() implies deselfify(fs[i].1, r) == fs[i].1 by {
                assert(!has_self(fs[i].1));
                lemma_deselfify_identity(fs[i].1, r);
            }
            assert(deselfify_fields(fs, r) =~= fs);
        },
        Ty::Function(a, b) => {
            lemma_deselfify_identity(*a, r);
            lemma_deselfify_identity(*b, r);
        },
        Ty::Interface(sigs, assoc) => {
            assert forall|i: int| 0 <= i < sigs.len() implies deselfify(sigs[i].from, r) == sigs[i].from
                && deselfify(sigs[i].to, r) == sigs[i].to by {
                assert(!(has_self(sigs[i].from) || has_self(sigs[i].to)));
                lemma_deselfify_identity(sigs[i].from, r);
                lemma_deselfify_identity(sigs[i].to, r);
            }
            assert(deselfify_sigs(sigs, r) =~= sigs);
            if let Some(a) = assoc {
                lemma_deselfify_identity(*a, r);
            }
        },
        _ => {},
    }
}

/// With a replacement free of `Oneself`, no `Oneself` is left anywhere.
pub proof fn lemma_deselfify_removes_self(t: Ty, r: Ty)
    requires
        !has_self(r),
    ensures
        !has_self(deselfify(t, r)),
    decreases t,
{
    match t {
        Ty::List(a) => lemma_deselfify_removes_self(*a, r),
        Ty::Array(a, _) => lemma_deselfify_removes_self(*a, r),
        Ty::Slice(a) => lemma_deselfify_removes_self(*a, r),
        Ty::Union(s) => {
            let d = deselfify_all(s, r);
            assert(d.len() == s.len());
            assert forall|i: int| 0 <= i < d.len() implies !has_self(#[trigger] d[i]) by {
                lemma_deselfify_removes_self(s[i], r);
            }
            assert(!has_self(deselfify(t, r)));
        },
        Ty::Tuple(s, _) => {
            let d = deselfify_all(s, r);
            assert(d.len() == s.len());
            assert forall|i: int| 0 <= i < d.len() implies !has_self(#[trigger] d[i]) by {
                lemma_deselfify_removes_self(s[i], r);
            }
            assert(!has_self(deselfify(t, r)));
        },
        Ty::Generic(Some(s)) => {
            let d = deselfify_all(s, r);
            assert(d.len() == s.len());
            assert forall|i: int| 0 <= i < d.len() implies !has_self(#[trigger] d[i]) by {
                lemma_deselfify_removes_self(s[i], r);
            }
            assert(!has_self(deselfify(t, r)));
        },
        Ty::Struct(fs) => {
            let d = deselfify_fields(fs, r);
            assert(d.len() == fs.len());
            assert forall|i: int| 0 <= i < d.len() implies !has_self(#[trigger] d[i].1) by {
                lemma_deselfify_removes_self(fs[i].1, r);
            }
            assert(!has_self(deselfify(t, r)));
        },
        Ty::Function(a, b) => {
            lemma_deselfify_removes_self(*a, r);
            lemma_deselfify_removes_self(*b, r);
        },
        Ty::Interface(sigs, assoc) => {
            let d = deselfify_sigs(sigs, r);
            assert forall|i: int| 0 <= i < sigs.len() implies !(has_self(#[trigger] d[i].from) || has_self(
                d[i].to,
            )) by {
                lemma_deselfify_removes_self(sigs[i].from, r);
                lemma_deselfify_removes_self(sigs[i].to, r);
            }
            if let Some(a) = assoc {
                lemma_deselfify_removes_self(*a, r);
            }
            assert(!has_self(deselfify(t, r)));
        },
        _ => {},
    }
}

/// Deselfifying twice is deselfifying once, when the first pass leaves no
/// `Oneself` to replace.
pub proof fn lemma_deselfify_idempotent(t: Ty, r: Ty)
    requires
        !has_self(deselfify(t, r)),
    ensures
        deselfify(deselfify(t, r), r) == deselfify(t, r),
{
    lemma_deselfify_identity(deselfify(t, r), r);
}

fn deselfify_types(v: &Vec<Type>, r: &Type) -> (out: Vec<Type>)
    ensures
        tys_of(out@) == deselfify_all(tys_of(v@), r@),
    decreases v,
{
    let mut out: Vec<Type> = Vec::new();
    let mut i: usize = 0;
    while i < v.len()
        invariant
            i <= v.len(),
            out@.len() == i,
            forall|j: int| 0 <= j < i ==> (#[trigger] out@[j])@ == deselfify(v@[j]@, r@),
        decreases v.len() - i,
    {
        out.push(deselfified(&v[i], r));
        i += 1;
    }
    assert(tys_of(out@) =~= deselfify_all(tys_of(v@), r@));
    out
}

fn deselfify_ty_fields(v: &Vec<(Identifier, Type)>, r: &Type) -> (out: Vec<(Identifier, Type)>)
    ensures
        ty_fields_of(out@) == deselfify_fields(ty_fields_of(v@), r@),
    decreases v,
{
    let mut out: Vec<(Identifier, Type)> = Vec::new();
    let mut i: usize = 0;
    while i < v.len()
        invariant
            i <= v.len(),
            out@.len() == i,
            forall|j: int|
                0 <= j < i ==> (#[trigger] out@[j]).0@ == v@[j].0@ && out@[j].1@ == deselfify(
                    v@[j].1@,
                    r@,
                ),
        decreases v.len() - i,
    {
        out.push((v[i].0.clone(), deselfified(&v[i].1, r)));
        i += 1;
    }
    assert(ty_fields_of(out@) =~= deselfify_fields(ty_fields_of(v@), r@));
    out
}

fn deselfify_signatures(v: &Vec<Signature>, r: &Type) -> (out: Vec<Signature>)
    ensures
        sigs_of(out@) == deselfify_sigs(sigs_of(v@), r@),
    decreases v,
{
    let mut out: Vec<Signature> = Vec::new();
    let mut i: usize = 0;
    while i < v.len()
        invariant
            i <= v.len(),
            out@.len() == i,
            forall|j: int|
                0 <= j < i ==> (#[trigger] out@[j])@ == (Sig {
                    name: v@[j].name@,
                    from: deselfify(v@[j].from@, r@),
                    to: deselfify(v@[j].to@, r@),
                }),
        decreases v.len() - i,
    {
        let sig = Signature {
            name: v[i].name.clone(),
            from: deselfified(&v[i].from, r),
            to: deselfified(&v[i].to, r),
        };
        out.push(sig);
        i += 1;
    }
    assert(sigs_of(out@) =~= deselfify_sigs(sigs_of(v@), r@));
    out
}

fn deselfified(t: &Type, r: &Type) -> (out: Type)
    ensures
        out@ == deselfify(t@, r@),
    decreases t,
{
    match t {
        Type::Oneself => r.clone(),
        Type::List(a) => Type::List(Box::new(deselfified(a, r))),
        Type::Array(a, n) => Type::Array(Box::new(deselfified(a, r)), *n),
        Type::Slice(a) => Type::Slice(Box::new(deselfified(a, r))),
        Type::Union(v) => Type::Union(deselfify_types(v, r)),
        Type::Struct(v) => Type::Struct(deselfify_ty_fields(v, r)),
        Type::Tuple(v, l) => Type::Tuple(deselfify_types(v, r), copy_labels(l)),
        Type::Function { from, to } => Type::Function {
            from: Box::new(deselfified(from, r)),
            to: Box::new(deselfified(to, r)),
        },
        Type::Interface(sigs, assoc) => Type::Interface(
            deselfify_signatures(sigs, r),
            match assoc {
                Some(a) => Some(Box::new(deselfified(a, r))),
                None => None,
            },
        ),
        Type::Generic(Some(v)) => Type::Generic(Some(deselfify_types(v, r))),
        _ => t.clone(),
    }
}

impl Type {
    /// Replaces explicit `Oneself` types with a replacement type, for checking
    /// a type against an interface.
    pub fn deselfify(self, replacement: &Type) -> (r: Type)
        ensures
            r@ == deselfify(self@, replacement@),
    {
        deselfified(&self, replacement)
    }
}

// ---------------------------------------------------------------------------
// Subtyping

/// `a` when `flip` is false, `b` when it is true.
pub open spec fn first<A>(flip: bool, a: A, b: A) -> A {
    if flip {
        b
    } else {
        a
    }
}

/// `b` when `flip` is false, `a` when it is true.
pub open spec fn second<A>(flip: bool, a: A, b: A) -> A {
    if flip {
        a
    } else {
        b
    }
}

/// The interface method `g` asks for, once its `Oneself` stands for `s`.
pub open spec fn required(g: Sig, s: Ty) -> Sig {
    Sig { name: g.name, from: deselfify(g.from, s), to: deselfify(g.to, s) }
}

/// `x` is the same type as some member of `ss`.
pub open spec fn has_member(ss: Seq<Ty>, x: Ty) -> bool {
    exists|i: int| 0 <= i < ss.len() && same(#[trigger] ss[i], x)
}

/// Every member of `ts` is the same type as some member of `ss`.
pub open spec fn includes(ss: Seq<Ty>, ts: Seq<Ty>) -> bool {
    forall|j: int| 0 <= j < ts.len() ==> has_member(ss, #[trigger] ts[j])
}

/// Context `c` implements every method of `sigs` for `s`.
pub open spec fn implements(c: Ctx, sigs: Seq<Sig>, s: Ty) -> bool {
    forall|i: int| 0 <= i < sigs.len() ==> lookup_sig(c.funcs, required(#[trigger] sigs[i], s)) is Some
}

/// A value of type `s` may be used where a `t` is expected, in context `c`.
pub open spec fn is_subtype(c: Ctx, s: Ty, t: Ty) -> bool {
    oriented(c, s, t, false)
}

/// Subtyping between `s = first(flip, x, y)` and `t = second(flip, x, y)`.
/// Each recursive question takes its first argument from the tree that `x`
/// came from, so the pair `(x, y)` decreases even where function domains
/// turn the question around.
pub open spec fn oriented(c: Ctx, x: Ty, y: Ty, flip: bool) -> bool
    decreases x, y,
{
    let s = first(flip, x, y);
    let t = second(flip, x, y);
    if t is Empty || s is Error || (s is Natural && t is Integer) {
        true
    } else {
        match (s, t) {
            (Ty::List(a), Ty::Slice(b)) => oriented(c, first(flip, *a, *b), second(flip, *a, *b), flip),
            (Ty::Array(a, _), Ty::Slice(b)) => oriented(c, first(flip, *a, *b), second(flip, *a, *b), flip),
            (Ty::List(a), Ty::List(b)) => oriented(c, first(flip, *a, *b), second(flip, *a, *b), flip),
            (Ty::Slice(a), Ty::Slice(b)) => oriented(c, first(flip, *a, *b), second(flip, *a, *b), flip),
            (Ty::Array(a, n), Ty::Array(b, m)) => oriented(c, first(flip, *a, *b), second(flip, *a, *b), flip)
                && n == m,
            (Ty::Tuple(ss, ls), Ty::Tuple(ts, lt)) => ss.len() == ts.len() && ls.len() == lt.len()
                && pointwise(c, first(flip, ss, ts), second(flip, ss, ts), flip) && ls == lt,
            (Ty::Struct(sf), Ty::Struct(tf)) => fieldwise(c, sf, tf, flip),
            (Ty::Union(ss), Ty::Union(ts)) => includes(ss, ts),
            (Ty::Function(sf, st), Ty::Function(tf, tt)) => oriented(c, first(flip, *sf, *tf), second(flip, *sf, *tf), !flip)
                && oriented(c, first(flip, *st, *tt), second(flip, *st, *tt), flip),
            (_, Ty::Interface(sigs, assoc)) => (match assoc {
                Some(a) => oriented(c, first(flip, s, *a), second(flip, s, *a), flip),
                None => true,
            }) && implements(c, sigs, s),
            (_, Ty::Generic(Some(bounds))) => has_member(bounds, s),
            (_, Ty::Generic(None)) => true,
            _ => same(s, t),
        }
    }
}

/// Each element of `xs` is related to the element of `ys` at its position.
pub open spec fn pointwise(c: Ctx, xs: Seq<Ty>, ys: Seq<Ty>, flip: bool) -> bool
    decreases xs, ys,
{
    forall|i: int| #![trigger xs[i]] 0 <= i < xs.len() ==> i < ys.len() && oriented(c, xs[i], ys[i], flip)
}

/// Width, depth and permutation subtyping of fields: for each name in `tf`,
/// `sf` has a field of that name, and the type of the first such field is a
/// subtype of the type of the first field of that name in `tf`.
pub open spec fn fieldwise(c: Ctx, sf: Seq<(Seq<char>, Ty)>, tf: Seq<(Seq<char>, Ty)>, flip: bool) -> bool
    decreases first(flip, sf, tf), second(flip, sf, tf),
{
    forall|j: int|
        #![trigger tf[j]]
        0 <= j < tf.len() && key_index(tf, tf[j].0) == j ==> {
            let i = key_index(sf, tf[j].0);
            0 <= i < sf.len() && oriented(c, first(flip, sf[i].1, tf[j].1), second(flip, sf[i].1, tf[j].1), flip)
        }
}

impl Context {
    fn relate(&self, x: &Type, y: &Type, flip: bool) -> (r: bool)
        ensures
            r == oriented(self@, x@, y@, flip),
        decreases x, y,
    {
        let (s, t) = if flip {
            (y, x)
        } else {
            (x, y)
        };
        assert(s@ == first(flip, x@, y@) && t@ == second(flip, x@, y@));
        if matches!(t, Type::Empty) || matches!(s, Type::Error) || (matches!(s, Type::Natural) && matches!(t, Type::Integer)) {
            return true;
        }
        match (s, t) {
            (Type::List(a), Type::Slice(b)) => if flip { self.relate(b, a, flip) } else { self.relate(a, b, flip) },
            (Type::Array(a, _), Type::Slice(b)) => if flip { self.relate(b, a, flip) } else { self.relate(a, b, flip) },
            (Type::List(a), Type::List(b)) => if flip { self.relate(b, a, flip) } else { self.relate(a, b, flip) },
            (Type::Slice(a), Type::Slice(b)) => if flip { self.relate(b, a, flip) } else { self.relate(a, b, flip) },
            (Type::Array(a, n), Type::Array(b, m)) => {
                let inner = if flip { self.relate(b, a, flip) } else { self.relate(a, b, flip) };
                inner && *n == *m
            },
            (Type::Tuple(ss, ls), Type::Tuple(ts, lt)) => {
                if ss.len() != ts.len() || ls.len() != lt.len() {
                    assert(tys_of(ss@).len() == ss.len() && tys_of(ts@).len() == ts.len());
                    assert(labels_of(ls@).len() == ls.len() && labels_of(lt@).len() == lt.len());
                    return false;
                }
                let each = if flip { self.relate_all(ts, ss, flip) } else { self.relate_all(ss, ts, flip) };
                each && labels_eq(ls, lt)
            },
            (Type::Struct(sf), Type::Struct(tf)) => self.relate_fields(sf, tf, flip),
            (Type::Union(ss), Type::Union(ts)) => includes_all(ss, ts),
            (Type::Function { from: sf, to: st }, Type::Function { from: tf, to: tt }) => {
                let domain = if flip { self.relate(tf, sf, !flip) } else { self.relate(sf, tf, !flip) };
                domain && if flip { self.relate(tt, st, flip) } else { self.relate(st, tt, flip) }
            },
            (_, Type::Interface(sigs, assoc)) => {
                if let Some(a) = assoc {
                    let ok = if flip { self.relate(a, s, flip) } else { self.relate(s, a, flip) };
                    if !ok {
                        return false;
                    }
                }
                self.implements_all(sigs, s)
            },
            (_, Type::Generic(Some(bounds))) => contains_type(bounds, s),
            (_, Type::Generic(None)) => true,
            _ => *s == *t,
        }
    }

    #[verifier::loop_isolation(false)]
    fn relate_all(&self, xs: &Vec<Type>, ys: &Vec<Type>, flip: bool) -> (r: bool)
        requires
            xs.len() == ys.len(),
        ensures
            r == pointwise(self@, tys_of(xs@), tys_of(ys@), flip),
        decreases xs, ys,
    {
        let ghost (xv, yv) = (tys_of(xs@), tys_of(ys@));
        let mut i: usize = 0;
        while i < xs.len()
            invariant
                i <= xs.len(),
                forall|j: int| #![trigger xv[j]] 0 <= j < i ==> j < yv.len() && oriented(self@, xv[j], yv[j], flip),
            decreases xs.len() - i,
        {
            if !self.relate(&xs[i], &ys[i], flip) {
                assert(xv[i as int] == xs@[i as int]@);
                return false;
            }
            i += 1;
        }
        true
    }

    fn relate_fields(&self, sf: &Vec<(Identifier, Type)>, tf: &Vec<(Identifier, Type)>, flip: bool) -> (r: bool)
        ensures
            r == fieldwise(self@, ty_fields_of(sf@), ty_fields_of(tf@), flip),
        decreases first(flip, sf, tf), second(flip, sf, tf),
    {
        let ghost sv = ty_fields_of(sf@);
        let ghost tv = ty_fields_of(tf@);
        let mut j: usize = 0;
        while j < tf.len()
            invariant
                j <= tf.len(),
                sv == ty_fields_of(sf@),
                tv == ty_fields_of(tf@),
                forall|k: int|
                    #![trigger tv[k]]
                    0 <= k < j && key_index(tv, tv[k].0) == k ==> {
                        let i = key_index(sv, tv[k].0);
                        0 <= i < sv.len() && oriented(
                            self@,
                            first(flip, sv[i].1, tv[k].1),
                            second(flip, sv[i].1, tv[k].1),
                            flip,
                        )
                    },
            decreases tf.len() - j,
        {
            let counts = match find_field(tf, &tf[j].0) {
                Some(first_j) => first_j == j,
                None => false,
            };
            let ok = !counts || match find_field(sf, &tf[j].0) {
                Some(i) => if flip {
                    self.relate(&tf[j].1, &sf[i].1, flip)
                } else {
                    self.relate(&sf[i].1, &tf[j].1, flip)
                },
                None => false,
            };
            assert(tv[j as int].0 == tf@[j as int].0@);
            if !ok {
                return false;
            }
            j += 1;
        }
        true
    }

    /// Whether every method in `sigs`, with `Oneself` standing for `s`, has an
    /// implementation here.
    fn implements_all(&self, sigs: &Vec<Signature>, s: &Type) -> (r: bool)
        ensures
            r == implements(self@, sigs_of(sigs@), s@),
    {
        let ghost gv = sigs_of(sigs@);
        let mut i: usize = 0;
        while i < sigs.len()
            invariant
                i <= sigs.len(),
                gv == sigs_of(sigs@),
                forall|k: int| 0 <= k < i ==> lookup_sig(self@.funcs, required(#[trigger] gv[k], s@)) is Some,
            decreases sigs.len() - i,
        {
            let signature = Signature {
                name: sigs[i].name.clone(),
                from: sigs[i].from.clone().deselfify(s),
                to: sigs[i].to.clone().deselfify(s),
            };
            if !self.contains_sig(&signature) {
                assert(signature@ == required(gv[i as int], s@));
                return false;
            }
            i += 1;
        }
        true
    }

    /// The subtyping relation: `is` may be used wherever `of` is expected.
    pub fn subtype(&self, is: &Type, of: &Type) -> (r: bool)
        ensures
            r == is_subtype(self@, is@, of@),
    {
        self.relate(is, of, false)
    }
}

/// Whether every member of `ts` is a member of `ss`.
fn includes_all(ss: &Vec<Type>, ts: &Vec<Type>) -> (r: bool)
    ensures
        r == includes(tys_of(ss@), tys_of(ts@)),
{
    let mut j: usize = 0;
    while j < ts.len()
        invariant
            j <= ts.len(),
            forall|k: int| 0 <= k < j ==> has_member(tys_of(ss@), #[trigger] tys_of(ts@)[k]),
        decreases ts.len() - j,
    {
        if !contains_type(ss, &ts[j]) {
            assert(tys_of(ts@)[j as int] == ts@[j as int]@);
            return false;
        }
        j += 1;
    }
    true
}

/// Whether `v` holds a type equal to `t`.
fn contains_type(v: &Vec<Type>, t: &Type) -> (r: bool)
    ensures
        r == has_member(tys_of(v@), t@),
{
    let ghost vs = tys_of(v@);
    let mut i: usize = 0;
    while i < v.len()
        invariant
            i <= v.len(),
            vs == tys_of(v@),
            forall|k: int| 0 <= k < i ==> !same(#[trigger] vs[k], t@),
        decreases v.len() - i,
    {
        assert(vs[i as int] == v@[i as int]@);
        if v[i] == *t {
            return true;
        }
        i += 1;
    }
    false
}

// ---------------------------------------------------------------------------
// Laws of subtyping

/// A type that reflexivity covers: nothing in it holds an interface or a
/// bounded generic, whose rules are not reflexive (an
/// interface asks the context for implementations; a bound set never holds the
/// generic itself).
pub open spec fn is_plain(t: Ty) -> bool
    decreases t,
{
    match t {
        Ty::List(a) => is_plain(*a),
        Ty::Array(a, _) => is_plain(*a),
        Ty::Slice(a) => is_plain(*a),
        Ty::Union(_) => true,
        Ty::Struct(fs) => forall|i: int| 0 <= i < fs.len() ==> is_plain(#[trigger] fs[i].1),
        Ty::Tuple(s, _) => forall|i: int| 0 <= i < s.len() ==> is_plain(#[trigger] s[i]),
        Ty::Function(a, b) => is_plain(*a) && is_plain(*b),
        Ty::Interface(_, _) => false,
        Ty::Generic(Some(_)) => false,
        _ => true,
    }
}

proof fn lemma_oriented_reflexive(c: Ctx, t: Ty, flip: bool)
    requires
        is_plain(t),
    ensures
        oriented(c, t, t, flip),
    decreases t,
{
    match t {
        Ty::List(a) => lemma_oriented_reflexive(c, *a, flip),
        Ty::Array(a, _) => lemma_oriented_reflexive(c, *a, flip),
        Ty::Slice(a) => lemma_oriented_reflexive(c, *a, flip),
        Ty::Union(ss) => {
            assert forall|j: int| 0 <= j < ss.len() implies has_member(ss, #[trigger] ss[j]) by {
                lemma_same_reflexive(ss[j]);
            }
        },
        Ty::Tuple(ss, _) => {
            assert forall|i: int| 0 <= i < ss.len() implies i < ss.len() && oriented(c, ss[i], ss[i], flip) by {
                lemma_oriented_reflexive(c, ss[i], flip);
            }
            assert(pointwise(c, ss, ss, flip));
        },
        Ty::Struct(fs) => {
            assert forall|j: int| #![trigger fs[j]] 0 <= j < fs.len() && key_index(fs, fs[j].0) == j implies {
                let i = key_index(fs, fs[j].0);
                0 <= i < fs.len() && oriented(c, first(flip, fs[i].1, fs[j].1), second(flip, fs[i].1, fs[j].1), flip)
            } by {
                lemma_oriented_reflexive(c, fs[j].1, flip);
            }
            assert(fieldwise(c, fs, fs, flip));
        },
        Ty::Function(a, b) => {
            lemma_oriented_reflexive(c, *a, !flip);
            lemma_oriented_reflexive(c, *b, flip);
        },
        _ => {},
    }
}

/// Reflexivity: every type covered by `is_plain` is a subtype of itself.
pub proof fn lemma_subtype_reflexive(c: Ctx, t: Ty)
    requires
        is_plain(t),
    ensures
        is_subtype(c, t, t),
{
    lemma_oriented_reflexive(c, t, false);
}

/// Top and bottom: every type is a subtype of `Empty`, and `Error` is a subtype
/// of every type.
pub proof fn lemma_top_bottom(c: Ctx, t: Ty)
    ensures
        is_subtype(c, t, Ty::Empty),
        is_subtype(c, Ty::Error, t),
{
}

/// Interface conformance: a type other than `Error` conforms to an interface
/// without an associated type exactly when the context holds an implementation
/// of each of its methods, with `Oneself` replaced by that type.
pub proof fn lemma_interface_conformance(c: Ctx, s: Ty, sigs: Seq<Sig>)
    requires
        !(s is Error),
    ensures
        is_subtype(c, s, Ty::Interface(sigs, None)) == implements(c, sigs, s),
{
}

// ---------------------------------------------------------------------------
// Checking and inference

/// The model of the result of a check.
pub open spec fn checked(r: Result<(), Fault>) -> Result<(), FaultV> {
    match r {
        Ok(_) => Ok(()),
        Err(e) => Err(e@),
    }
}

/// `Ok` when type `k` may stand where `t` is expected, else a mismatch.
pub open spec fn fits(c: Ctx, k: Ty, t: Ty) -> Result<(), FaultV> {
    if is_subtype(c, k, t) {
        Ok(())
    } else {
        Err(FaultV::TypeMismatch(t, k))
    }
}

/// The checking judgement: expression `e` has type `t` in context `c`.
pub open spec fn check(c: Ctx, e: Expr, t: Ty) -> Result<(), FaultV>
    decreases e, 1nat,
{
    match e {
        Expr::Annotation(_, _) => match infer(c, e) {
            Ok(k) => fits(c, k, t),
            Err(f) => Err(f),
        },
        Expr::Constant(v) => match convert(v) {
            Ok(k) => fits(c, k, t),
            Err(f) => Err(f),
        },
        Expr::Variable(id) => if c.terms.contains_key(id) {
            match convert(c.terms[id]) {
                Ok(k) => fits(c, k, t),
                Err(f) => Err(f),
            }
        } else {
            Err(FaultV::UnboundVariable(id))
        },
        Expr::Abstraction(p, body) => match t {
            Ty::Function(from, to) => match default_of(*from) {
                Ok(v) => check(Ctx { terms: c.terms.insert(p, v), funcs: c.funcs }, *body, *to),
                Err(f) => Err(f),
            },
            _ => Err(FaultV::NotAFunctionType(t)),
        },
        Expr::Application(_, _) => match infer(c, e) {
            Ok(k) => fits(c, k, t),
            Err(f) => Err(f),
        },
        Expr::Conditional(a, b, d) => match check(c, *a, Ty::Boolean) {
            Ok(_) => match check(c, *b, t) {
                Ok(_) => check(c, *d, t),
                Err(f) => Err(f),
            },
            Err(f) => Err(f),
        },
    }
}

/// The inference judgement: the type of expression `e` in context `c`.
pub open spec fn infer(c: Ctx, e: Expr) -> Result<Ty, FaultV>
    decreases e, 0nat,
{
    match e {
        Expr::Annotation(x, k) => match check(c, *x, k) {
            Ok(_) => Ok(k),
            Err(f) => Err(f),
        },
        Expr::Constant(v) => convert(v),
        Expr::Variable(id) => if c.terms.contains_key(id) {
            convert(c.terms[id])
        } else {
            Err(FaultV::UnboundVariable(id))
        },
        Expr::Application(f, a) => match infer(c, *f) {
            Ok(Ty::Function(from, to)) => match check(c, *a, *from) {
                Ok(_) => Ok(*to),
                Err(x) => Err(x),
            },
            Ok(k) => Err(FaultV::NotAFunctionType(k)),
            Err(x) => Err(x),
        },
        Expr::Abstraction(_, _) => Err(FaultV::UninferableAbstraction),
        Expr::Conditional(a, b, d) => match check(c, *a, Ty::Boolean) {
            Ok(_) => match infer(c, *b) {
                Ok(tb) => match infer(c, *d) {
                    Ok(td) => if is_subtype(c, tb, td) && is_subtype(c, td, tb) {
                        Ok(tb)
                    } else {
                        Err(FaultV::BranchTypeMismatch(tb, td))
                    },
                    Err(x) => Err(x),
                },
                Err(x) => Err(x),
            },
            Err(x) => Err(x),
        },
    }
}

impl Context {
    fn fit(&self, found: Type, target: &Type) -> (r: Result<(), Fault>)
        ensures
            checked(r) == fits(self@, found@, target@),
    {
        if self.subtype(&found, target) {
            Ok(())
        } else {
            Err(Fault::TypeMismatch { expected: target.clone(), found })
        }
    }

    /// Checking judgement: takes an expression and a type to check against,
    /// and calls out to `infer` as needed.
    pub fn check(&self, expression: Expression, target: &Type) -> (r: Result<(), Fault>)
        ensures
            checked(r) == check(self@, expression@, target@),
        decreases expression, 1nat,
    {
        let ghost e = expression@;
        match expression {
            Expression::Annotation { expr, kind } => {
                match self.infer(Expression::Annotation { expr, kind }) {
                    Ok(k) => self.fit(k, target),
                    Err(f) => Err(f),
                }
            },
            Expression::Constant { term } => match term.convert() {
                Ok(k) => self.fit(k, target),
                Err(f) => Err(f),
            },
            Expression::Variable { id } => match self.get_term(&id) {
                Some(term) => match term.convert() {
                    Ok(k) => self.fit(k, target),
                    Err(f) => Err(f),
                },
                None => Err(Fault::UnboundVariable(id)),
            },
            Expression::Abstraction { param, func } => match target {
                Type::Function { from, to } => match from.default() {
                    Ok(v) => {
                        let mut context = self.clone();
                        context.insert_term(param, v);
                        context.check(*func, to)
                    },
                    Err(f) => Err(f),
                },
                _ => Err(Fault::NotAFunctionType(target.clone())),
            },
            Expression::Application { func, arg } => {
                match self.infer(Expression::Application { func, arg }) {
                    Ok(k) => self.fit(k, target),
                    Err(f) => Err(f),
                }
            },
            Expression::Conditional { if_cond, if_then, if_else } => {
                match self.check(*if_cond, &Type::Boolean) {
                    Ok(()) => {},
                    Err(f) => return Err(f),
                }
                match self.check(*if_then, target) {
                    Ok(()) => {},
                    Err(f) => return Err(f),
                }
                self.check(*if_else, target)
            },
        }
    }

    /// Inference judgement: takes an expression and infers its type.
    pub fn infer(&self, expression: Expression) -> (r: Result<Type, Fault>)
        ensures
            result_view(r) == infer(self@, expression@),
        decreases expression, 0nat,
    {
        match expression {
            Expression::Annotation { expr, kind } => match self.check(*expr, &kind) {
                Ok(()) => Ok(kind),
                Err(f) => Err(f),
            },
            Expression::Constant { term } => term.convert(),
            Expression::Variable { id } => match self.get_term(&id) {
                Some(term) => term.convert(),
                None => Err(Fault::UnboundVariable(id)),
            },
            Expression::Application { func, arg } => match self.infer(*func) {
                Ok(Type::Function { from, to }) => match self.check(*arg, &from) {
                    Ok(()) => Ok(*to),
                    Err(f) => Err(f),
                },
                Ok(k) => Err(Fault::NotAFunctionType(k)),
                Err(f) => Err(f),
            },
            Expression::Abstraction { .. } => Err(Fault::UninferableAbstraction),
            Expression::Conditional { if_cond, if_then, if_else } => {
                match self.check(*if_cond, &Type::Boolean) {
                    Ok(()) => {},
                    Err(f) => return Err(f),
                }
                let then_kind = match self.infer(*if_then) {
                    Ok(k) => k,
                    Err(f) => return Err(f),
                };
                let else_kind = match self.infer(*if_else) {
                    Ok(k) => k,
                    Err(f) => return Err(f),
                };
                if self.subtype(&then_kind, &else_kind) && self.subtype(&else_kind, &then_kind) {
                    Ok(then_kind)
                } else {
                    Err(Fault::BranchTypeMismatch(then_kind, else_kind))
                }
            },
        }
    }
}

} // verus!
