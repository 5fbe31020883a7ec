//! The text of a type.
use vstd::prelude::*;
use crate::ast::{label_of, labels_of, sig_of, sigs_of, ty_fields_of, tys_of, Identifier, Sig, Signature, Ty, Type};
use crate::util::{hex_char, hex_digit, push_char};

verus! {

/// The decimal digits of `n`.
pub open spec fn decimal(n: nat) -> Seq<char>
    decreases n,
{
    if n < 10 {
        seq![hex_digit(n)]
    } else {
        decimal(n / 10).push(hex_digit(n % 10))
    }
}

/// The parts, separated by `", "`.
pub open spec fn joined(parts: Seq<Seq<char>>) -> Seq<char>
    decreases parts.len(),
{
    if parts.len() == 0 {
        Seq::empty()
    } else if parts.len() == 1 {
        parts[0]
    } else {
        joined(parts.drop_last()) + ", "@ + parts.last()
    }
}

/// How a type is written.
pub open spec fn show(t: Ty) -> Seq<char>
    decreases t,
{
    match t {
        Ty::Empty => "⊤"@,
        Ty::Error => "⊥"@,
        Ty::Unit => "unit"@,
        Ty::Boolean => "bool"@,
        Ty::Natural => "nat"@,
        Ty::Integer => "int"@,
        Ty::Float => "float"@,
        Ty::Str => "str"@,
        Ty::List(a) => "list["@ + show(*a) + "]"@,
        Ty::Array(a, n) => "array["@ + show(*a) + ", "@ + decimal(n) + "]"@,
        Ty::Slice(a) => "slice["@ + show(*a) + "]"@,
        Ty::Union(s) => "union["@ + joined(show_all(s)) + "]"@,
        Ty::Struct(fs) => "struct["@ + joined(show_fields(fs)) + "]"@,
        Ty::Tuple(s, l) => "tuple["@ + joined(show_items(s, l)) + "]"@,
        Ty::Function(a, b) => show(*a) + "->"@ + show(*b),
        Ty::Interface(sigs, assoc) => "interface["@ + joined(show_sigs(sigs)) + match assoc {
            Some(a) => " for "@ + show(*a),
            None => Seq::empty(),
        } + "]"@,
        Ty::Oneself => "Self"@,
        Ty::Generic(None) => "generic"@,
        Ty::Generic(Some(s)) => "generic["@ + joined(show_all(s)) + "]"@,
    }
}

pub open spec fn show_all(s: Seq<Ty>) -> Seq<Seq<char>>
    decreases s,
{
    Seq::new(s.len(), |i: int| if 0 <= i < s.len() { show(s[i]) } else { Seq::empty() })
}

pub open spec fn show_fields(fs: Seq<(Seq<char>, Ty)>) -> Seq<Seq<char>>
    decreases fs,
{
    Seq::new(fs.len(), |i: int| if 0 <= i < fs.len() { fs[i].0 + ": "@ + show(fs[i].1) } else { Seq::empty() })
}

/// Tuple elements, each with its label where it has one.
pub open spec fn show_items(s: Seq<Ty>, l: Seq<Option<Seq<char>>>) -> Seq<Seq<char>>
    decreases s,
{
    Seq::new(
        if s.len() <= l.len() { s.len() } else { l.len() },
        |i: int|
            if 0 <= i < s.len() && i < l.len() {
                match l[i] {
                    Some(k) => k + ": "@ + show(s[i]),
                    None => show(s[i]),
                }
            } else {
                Seq::empty()
            },
    )
}

pub open spec fn show_sigs(sigs: Seq<Sig>) -> Seq<Seq<char>>
    decreases sigs,
{
    Seq::new(
        sigs.len(),
        |i: int|
            if 0 <= i < sigs.len() {
                "func "@ + sigs[i].name + "("@ + show(sigs[i].from) + "): "@ + show(sigs[i].to)
            } else {
                Seq::empty()
            },
    )
}

proof fn lemma_joined_step(parts: Seq<Seq<char>>, i: int)
    requires
        0 <= i < parts.len(),
    ensures
        joined(parts.take(i + 1)) == if i == 0 {
            parts[0]
        } else {
            joined(parts.take(i)) + ", "@ + parts[i]
        },
{
    assert(parts.take(i + 1).drop_last() =~= parts.take(i));
}

fn push_decimal(out: &mut String, n: usize)
    ensures
        final(out)@ == old(out)@ + decimal(n as nat),
    decreases n,
{
    if n >= 10 {
        push_decimal(out, n / 10);
    }
    push_char(out, hex_char((n % 10) as u8));
    assert(out@ =~= old(out)@ + decimal(n as nat));
}

fn render_all(v: &Vec<Type>, out: &mut String)
    ensures
        final(out)@ == old(out)@ + joined(show_all(tys_of(v@))),
    decreases v,
{
    let ghost parts = show_all(tys_of(v@));
    let mut i: usize = 0;
    assert(parts.take(0) =~= Seq::<Seq<char>>::empty());
    while i < v.len()
        invariant
            i <= v.len(),
            parts == show_all(tys_of(v@)),
            parts.len() == v.len(),
            out@ == old(out)@ + joined(parts.take(i as int)),
        decreases v.len() - i,
    {
        proof {
            lemma_joined_step(parts, i as int);
        }
        let ghost before = out@;
        if i > 0 {
            out.append(", ");
        }
        let piece = v[i].render();
        out.append(piece.as_str());
        assert(parts[i as int] == show(v@[i as int]@));
        assert(out@ =~= old(out)@ + joined(parts.take(i + 1)));
        i += 1;
    }
    assert(parts.take(v.len() as int) =~= parts);
}

fn render_fields(v: &Vec<(Identifier, Type)>, out: &mut String)
    ensures
        final(out)@ == old(out)@ + joined(show_fields(ty_fields_of(v@))),
    decreases v,
{
    let ghost parts = show_fields(ty_fields_of(v@));
    let mut i: usize = 0;
    assert(parts.take(0) =~= Seq::<Seq<char>>::empty());
    while i < v.len()
        invariant
            i <= v.len(),
            parts == show_fields(ty_fields_of(v@)),
            parts.len() == v.len(),
            out@ == old(out)@ + joined(parts.take(i as int)),
        decreases v.len() - i,
    {
        proof {
            lemma_joined_step(parts, i as int);
        }
        if i > 0 {
            out.append(", ");
        }
        out.append(v[i].0.as_str());
        out.append(": ");
        let piece = v[i].1.render();
        out.append(piece.as_str());
        assert(parts[i as int] == v@[i as int].0@ + ": "@ + show(v@[i as int].1@));
        assert(out@ =~= old(out)@ + joined(parts.take(i + 1)));
        i += 1;
    }
    assert(parts.take(v.len() as int) =~= parts);
}

fn render_items(v: &Vec<Type>, labels: &Vec<Option<Identifier>>, out: &mut String)
    ensures
        final(out)@ == old(out)@ + joined(show_items(tys_of(v@), labels_of(labels@))),
    decreases v,
{
    let ghost parts = show_items(tys_of(v@), labels_of(labels@));
    let n = if v.len() <= labels.len() { v.len() } else { labels.len() };
    let mut i: usize = 0;
    assert(parts.take(0) =~= Seq::<Seq<char>>::empty());
    while i < n
        invariant
            i <= n,
            n <= v.len(),
            n <= labels.len(),
            parts == show_items(tys_of(v@), labels_of(labels@)),
            parts.len() == n,
            out@ == old(out)@ + joined(parts.take(i as int)),
        decreases n - i,
    {
        proof {
            lemma_joined_step(parts, i as int);
        }
        if i > 0 {
            out.append(", ");
        }
        match &labels[i] {
            Some(k) => {
                out.append(k.as_str());
                out.append(": ");
            },
            None => {},
        }
        let piece = v[i].render();
        out.append(piece.as_str());
        assert(labels_of(labels@)[i as int] == label_of(labels@[i as int]));
        assert(out@ =~= old(out)@ + joined(parts.take(i + 1)));
        i += 1;
    }
    assert(parts.take(n as int) =~= parts);
}

fn render_sigs(v: &Vec<Signature>, out: &mut String)
    ensures
        final(out)@ == old(out)@ + joined(show_sigs(sigs_of(v@))),
    decreases v,
{
    let ghost parts = show_sigs(sigs_of(v@));
    let mut i: usize = 0;
    assert(parts.take(0) =~= Seq::<Seq<char>>::empty());
    while i < v.len()
        invariant
            i <= v.len(),
            parts == show_sigs(sigs_of(v@)),
            parts.len() == v.len(),
            out@ == old(out)@ + joined(parts.take(i as int)),
        decreases v.len() - i,
    {
        proof {
            lemma_joined_step(parts, i as int);
        }
        if i > 0 {
            out.append(", ");
        }
        out.append("func ");
        out.append(v[i].name.as_str());
        out.append("(");
        let from = v[i].from.render();
        out.append(from.as_str());
        out.append("): ");
        let to = v[i].to.render();
        out.append(to.as_str());
        assert(sigs_of(v@)[i as int] == sig_of(v@[i as int]));
        assert(out@ =~= old(out)@ + joined(parts.take(i + 1)));
        i += 1;
    }
    assert(parts.take(v.len() as int) =~= parts);
}

impl Type {
    /// The text of a type: `int`, `list[nat]`, `bool->int`, `struct[a: nat]`, ...
    pub fn render(&self) -> (r: String)
        ensures
            r@ == show(self@),
        decreases self,
    {
        let mut out = String::new();
        match self {
            Type::Empty => out.append("⊤"),
            Type::Error => out.append("⊥"),
            Type::Unit => out.append("unit"),
            Type::Boolean => out.append("bool"),
            Type::Natural => out.append("nat"),
            Type::Integer => out.append("int"),
            Type::Float => out.append("float"),
            Type::String => out.append("str"),
            Type::List(a) => {
                out.append("list[");
                out.append(a.render().as_str());
                out.append("]");
            },
            Type::Array(a, n) => {
                out.append("array[");
                out.append(a.render().as_str());
                out.append(", ");
                push_decimal(&mut out, *n);
                out.append("]");
            },
            Type::Slice(a) => {
                out.append("slice[");
                out.append(a.render().as_str());
                out.append("]");
            },
            Type::Union(v) => {
                out.append("union[");
                render_all(v, &mut out);
                out.append("]");
            },
            Type::Struct(v) => {
                out.append("struct[");
                render_fields(v, &mut out);
                out.append("]");
            },
            Type::Tuple(v, l) => {
                out.append("tuple[");
                render_items(v, l, &mut out);
                out.append("]");
            },
            Type::Function { from, to } => {
                out.append(from.render().as_str());
                out.append("->");
                out.append(to.render().as_str());
            },
            Type::Interface(sigs, assoc) => {
                out.append("interface[");
                render_sigs(sigs, &mut out);
                match assoc {
                    Some(a) => {
                        out.append(" for ");
                        out.append(a.render().as_str());
                    },
                    None => {},
                }
                out.append("]");
            },
            Type::Oneself => out.append("Self"),
            Type::Generic(None) => out.append("generic"),
            Type::Generic(Some(v)) => {
                out.append("generic[");
                render_all(v, &mut out);
                out.append("]");
            },
        }
        assert(out@ =~= show(self@));
        out
    }
}

} // verus!
