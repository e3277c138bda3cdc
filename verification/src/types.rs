//! Types of nana and their unification.
//!
//! Numeric literal types (`IntLiteral`, `FloatLiteral`) coerce to concrete
//! types via unification; `Infer` and `Generic` act as wildcards; unions of
//! tagged types are always kept flat.
use vstd::prelude::*;

use crate::text::{decimal, text, push_str, u64_decimal, parse_u64, parse_u64_spec, str_debug, str_debug_text};

verus! {

pub type TagId = u64;

/// Built-in tag ids of the primitive types (shared with the runtime values).
pub const TAG_ID_INT: TagId = 0;
pub const TAG_ID_FLOAT: TagId = 1;
pub const TAG_ID_BOOL: TagId = 2;
pub const TAG_ID_STRING: TagId = 3;
pub const TAG_ID_CHAR: TagId = 4;
pub const TAG_ID_BYTE: TagId = 5;
pub const TAG_ID_ARRAY: TagId = 6;
pub const TAG_ID_UNIT: TagId = 7;
pub const TAG_ID_I32: TagId = 9;
pub const TAG_ID_F32: TagId = 10;
pub const TAG_ID_I8: TagId = 11;
pub const TAG_ID_I16: TagId = 12;
pub const TAG_ID_U16: TagId = 13;
pub const TAG_ID_U32: TagId = 14;
pub const TAG_ID_U64: TagId = 15;
pub const TAG_ID_I128: TagId = 16;
pub const TAG_ID_U128: TagId = 17;

#[derive(Debug, PartialEq)]
pub enum Ty {
    Int,
    Float,
    Bool,
    String,
    Char,
    Byte,
    Unit,
    Array(Box<Ty>),
    Struct(Vec<(String, Ty)>),
    Fn { param: Box<Ty>, ret: Box<Ty> },
    TagConstructor(TagId),
    Tagged { tag_id: TagId, payload: Box<Ty> },
    MethodSet { id: u64, tag_id: TagId },
    /// The builtin `method_set` constructor function.
    MethodSetConstructor,
    /// Sum type: one of several possible types. Variants are kept flat.
    Union(Vec<Ty>),
    /// Integer literal type: coerces to `Int` or `Byte`, defaults to `Int`.
    IntLiteral,
    /// Float literal type: coerces to `Float`, defaults to `Float`.
    FloatLiteral,
    /// Inference variable (a wildcard during checking).
    Infer(u64),
    /// Generic type variable of a parametric signature.
    Generic(u64),
}

/// The mathematical model of a type: field names are character sequences.
pub enum TyV {
    Int,
    Float,
    Bool,
    Str,
    Char,
    Byte,
    Unit,
    Array(Box<TyV>),
    Struct(Seq<(Seq<char>, TyV)>),
    Fn(Box<TyV>, Box<TyV>),
    TagConstructor(u64),
    Tagged(u64, Box<TyV>),
    MethodSet(u64, u64),
    MethodSetConstructor,
    Union(Seq<TyV>),
    IntLiteral,
    FloatLiteral,
    Infer(u64),
    Generic(u64),
}

pub open spec fn ty_view(t: Ty) -> TyV
    decreases t,
{
    match t {
        Ty::Int => TyV::Int,
        Ty::Float => TyV::Float,
        Ty::Bool => TyV::Bool,
        Ty::String => TyV::Str,
        Ty::Char => TyV::Char,
        Ty::Byte => TyV::Byte,
        Ty::Unit => TyV::Unit,
        Ty::Array(e) => TyV::Array(Box::new(ty_view(*e))),
        Ty::Struct(fs) => TyV::Struct(fields_view(fs@)),
        Ty::Fn { param, ret } => TyV::Fn(Box::new(ty_view(*param)), Box::new(ty_view(*ret))),
        Ty::TagConstructor(id) => TyV::TagConstructor(id),
        Ty::Tagged { tag_id, payload } => TyV::Tagged(tag_id, Box::new(ty_view(*payload))),
        Ty::MethodSet { id, tag_id } => TyV::MethodSet(id, tag_id),
        Ty::MethodSetConstructor => TyV::MethodSetConstructor,
        Ty::Union(vs) => TyV::Union(tys_view(vs@)),
        Ty::IntLiteral => TyV::IntLiteral,
        Ty::FloatLiteral => TyV::FloatLiteral,
        Ty::Infer(n) => TyV::Infer(n),
        Ty::Generic(n) => TyV::Generic(n),
    }
}

pub open spec fn fields_view(fs: Seq<(String, Ty)>) -> Seq<(Seq<char>, TyV)>
    decreases fs,
{
    if fs.len() == 0 {
        seq![]
    } else {
        fields_view(fs.drop_last()).push((fs.last().0@, ty_view(fs.last().1)))
    }
}

pub open spec fn tys_view(vs: Seq<Ty>) -> Seq<TyV>
    decreases vs,
{
    if vs.len() == 0 {
        seq![]
    } else {
        tys_view(vs.drop_last()).push(ty_view(vs.last()))
    }
}

impl View for Ty {
    type V = TyV;

    open spec fn view(&self) -> TyV {
        ty_view(*self)
    }
}

pub proof fn lemma_fields_view(fs: Seq<(String, Ty)>)
    ensures
        fields_view(fs).len() == fs.len(),
        forall|i: int|
            0 <= i < fs.len() ==> #[trigger] fields_view(fs)[i] == (fs[i].0@, ty_view(fs[i].1)),
    decreases fs.len(),
{
    if fs.len() > 0 {
        lemma_fields_view(fs.drop_last());
    }
}

pub proof fn lemma_tys_view(vs: Seq<Ty>)
    ensures
        tys_view(vs).len() == vs.len(),
        forall|i: int| 0 <= i < vs.len() ==> #[trigger] tys_view(vs)[i] == ty_view(vs[i]),
    decreases vs.len(),
{
    if vs.len() > 0 {
        lemma_tys_view(vs.drop_last());
    }
}

/// Size of a type: its number of nodes, where a union node itself weighs
/// nothing (so a union built from two types is no larger than both).
pub open spec fn tsize(t: TyV) -> nat
    decreases t,
{
    match t {
        TyV::Array(e) => 1 + tsize(*e),
        TyV::Struct(fs) => 1 + fsize(fs),
        TyV::Fn(p, r) => 1 + tsize(*p) + tsize(*r),
        TyV::Tagged(_, p) => 1 + tsize(*p),
        TyV::Union(vs) => vsize(vs),
        _ => 1,
    }
}

pub open spec fn fsize(fs: Seq<(Seq<char>, TyV)>) -> nat
    decreases fs,
{
    if fs.len() == 0 {
        0
    } else {
        fsize(fs.drop_last()) + tsize(fs.last().1)
    }
}

pub open spec fn vsize(vs: Seq<TyV>) -> nat
    decreases vs,
{
    if vs.len() == 0 {
        0
    } else {
        vsize(vs.drop_last()) + tsize(vs.last())
    }
}

/// Structural equality of types, as the derived `==` compares them.
pub fn ty_eq(a: &Ty, b: &Ty) -> (r: bool)
    ensures
        r == (a@ == b@),
    decreases a,
{
    match (a, b) {
        (Ty::Int, Ty::Int) => true,
        (Ty::Float, Ty::Float) => true,
        (Ty::Bool, Ty::Bool) => true,
        (Ty::String, Ty::String) => true,
        (Ty::Char, Ty::Char) => true,
        (Ty::Byte, Ty::Byte) => true,
        (Ty::Unit, Ty::Unit) => true,
        (Ty::Array(e1), Ty::Array(e2)) => ty_eq(e1, e2),
        (Ty::Struct(f1), Ty::Struct(f2)) => {
            proof {
                lemma_fields_view(f1@);
                lemma_fields_view(f2@);
            }
            if f1.len() != f2.len() {
                return false;
            }
            let mut i: usize = 0;
            while i < f1.len()
                invariant
                    f1.len() == f2.len(),
                    i <= f1.len(),
                    *a == Ty::Struct(*f1),
                    *b == Ty::Struct(*f2),
                    forall|k: int| 0 <= k < i ==> fields_view(f1@)[k] == fields_view(f2@)[k],
                    fields_view(f1@).len() == f1.len(),
                    fields_view(f2@).len() == f2.len(),
                    forall|k: int|
                        0 <= k < f1.len() ==> #[trigger] fields_view(f1@)[k] == (
                        f1@[k].0@,
                        ty_view(f1@[k].1),
                    ),
                    forall|k: int|
                        0 <= k < f2.len() ==> #[trigger] fields_view(f2@)[k] == (
                        f2@[k].0@,
                        ty_view(f2@[k].1),
                    ),
                decreases f1.len() - i,
            {
                if f1[i].0 != f2[i].0 {
                    assert(fields_view(f1@)[i as int] != fields_view(f2@)[i as int]);
                    return false;
                }
                proof {
                    assert(decreases_to!(*a => (*a)->Struct_0));
                    assert(decreases_to!(f1 => f1@));
                    assert(decreases_to!(f1@ => f1@[i as int]));
                    assert(decreases_to!(f1@[i as int] => f1@[i as int].1));
                }
                if !ty_eq(&f1[i].1, &f2[i].1) {
                    assert(fields_view(f1@)[i as int] != fields_view(f2@)[i as int]);
                    return false;
                }
                i = i + 1;
            }
            assert(fields_view(f1@) =~= fields_view(f2@));
            true
        },
        (Ty::Fn { param: p1, ret: r1 }, Ty::Fn { param: p2, ret: r2 }) => {
            ty_eq(p1, p2) && ty_eq(r1, r2)
        },
        (Ty::TagConstructor(x), Ty::TagConstructor(y)) => *x == *y,
        (Ty::Tagged { tag_id: i1, payload: p1 }, Ty::Tagged { tag_id: i2, payload: p2 }) => {
            *i1 == *i2 && ty_eq(p1, p2)
        },
        (Ty::MethodSet { id: i1, tag_id: t1 }, Ty::MethodSet { id: i2, tag_id: t2 }) => {
            *i1 == *i2 && *t1 == *t2
        },
        (Ty::MethodSetConstructor, Ty::MethodSetConstructor) => true,
        (Ty::Union(v1), Ty::Union(v2)) => {
            proof {
                lemma_tys_view(v1@);
                lemma_tys_view(v2@);
            }
            if v1.len() != v2.len() {
                return false;
            }
            let mut i: usize = 0;
            while i < v1.len()
                invariant
                    v1.len() == v2.len(),
                    i <= v1.len(),
                    *a == Ty::Union(*v1),
                    *b == Ty::Union(*v2),
                    forall|k: int| 0 <= k < i ==> tys_view(v1@)[k] == tys_view(v2@)[k],
                    tys_view(v1@).len() == v1.len(),
                    tys_view(v2@).len() == v2.len(),
                    forall|k: int| 0 <= k < v1.len() ==> #[trigger] tys_view(v1@)[k] == ty_view(v1@[k]),
                    forall|k: int| 0 <= k < v2.len() ==> #[trigger] tys_view(v2@)[k] == ty_view(v2@[k]),
                decreases v1.len() - i,
            {
                proof {
                    assert(decreases_to!(*a => (*a)->Union_0));
                    assert(decreases_to!(v1 => v1@));
                    assert(decreases_to!(v1@ => v1@[i as int]));
                }
                if !ty_eq(&v1[i], &v2[i]) {
                    assert(tys_view(v1@)[i as int] != tys_view(v2@)[i as int]);
                    return false;
                }
                i = i + 1;
            }
            assert(tys_view(v1@) =~= tys_view(v2@));
            true
        },
        (Ty::IntLiteral, Ty::IntLiteral) => true,
        (Ty::FloatLiteral, Ty::FloatLiteral) => true,
        (Ty::Infer(x), Ty::Infer(y)) => *x == *y,
        (Ty::Generic(x), Ty::Generic(y)) => *x == *y,
        _ => false,
    }
}

impl Clone for Ty {
    fn clone(&self) -> (r: Self)
        ensures
            r@ == self@,
    {
        copy_ty(self)
    }
}

/// A copy of a type with the same model.
pub fn copy_ty(t: &Ty) -> (r: Ty)
    ensures
        r@ == t@,
    decreases t,
{
    match t {
        Ty::Int => Ty::Int,
        Ty::Float => Ty::Float,
        Ty::Bool => Ty::Bool,
        Ty::String => Ty::String,
        Ty::Char => Ty::Char,
        Ty::Byte => Ty::Byte,
        Ty::Unit => Ty::Unit,
        Ty::Array(e) => Ty::Array(Box::new(copy_ty(e))),
        Ty::Struct(fs) => {
            let mut out: Vec<(String, Ty)> = Vec::new();
            let mut i: usize = 0;
            while i < fs.len()
                invariant
                    i <= fs.len(),
                    *t == Ty::Struct(*fs),
                    fields_view(out@) == fields_view(fs@.subrange(0, i as int)),
                decreases fs.len() - i,
            {
                let name = fs[i].0.clone();
                proof {
                    assert(decreases_to!(*t => (*t)->Struct_0));
                    assert(decreases_to!(fs => fs@));
                    assert(decreases_to!(fs@ => fs@[i as int]));
                    assert(decreases_to!(fs@[i as int] => fs@[i as int].1));
                }
                let ty = copy_ty(&fs[i].1);
                let ghost prev = out@;
                out.push((name, ty));
                assert(out@.drop_last() =~= prev);
                assert(fs@.subrange(0, i + 1).drop_last() =~= fs@.subrange(0, i as int));
                i = i + 1;
            }
            assert(fs@.subrange(0, fs.len() as int) =~= fs@);
            Ty::Struct(out)
        },
        Ty::Fn { param, ret } => Ty::Fn { param: Box::new(copy_ty(param)), ret: Box::new(copy_ty(ret)) },
        Ty::TagConstructor(id) => Ty::TagConstructor(*id),
        Ty::Tagged { tag_id, payload } => Ty::Tagged { tag_id: *tag_id, payload: Box::new(copy_ty(payload)) },
        Ty::MethodSet { id, tag_id } => Ty::MethodSet { id: *id, tag_id: *tag_id },
        Ty::MethodSetConstructor => Ty::MethodSetConstructor,
        Ty::Union(vs) => Ty::Union(copy_tys(vs)),
        Ty::IntLiteral => Ty::IntLiteral,
        Ty::FloatLiteral => Ty::FloatLiteral,
        Ty::Infer(n) => Ty::Infer(*n),
        Ty::Generic(n) => Ty::Generic(*n),
    }
}

pub fn copy_tys(vs: &Vec<Ty>) -> (r: Vec<Ty>)
    ensures
        tys_view(r@) == tys_view(vs@),
    decreases vs,
{
    let mut out: Vec<Ty> = Vec::new();
    let mut i: usize = 0;
    while i < vs.len()
        invariant
            i <= vs.len(),
            tys_view(out@) == tys_view(vs@.subrange(0, i as int)),
        decreases vs.len() - i,
    {
        let ty = copy_ty(&vs[i]);
        let ghost prev = out@;
        out.push(ty);
        assert(out@.drop_last() =~= prev);
        assert(vs@.subrange(0, i + 1).drop_last() =~= vs@.subrange(0, i as int));
        i = i + 1;
    }
    assert(vs@.subrange(0, vs.len() as int) =~= vs@);
    out
}

} // verus!

verus! {

// ── Unification: the model ──────────────────────────────────────

pub open spec fn struct_count_msg(n1: nat, n2: nat) -> Seq<char> {
    "type error: cannot unify structs with "@ + decimal(n1) + " and "@ + decimal(n2) + " fields"@
}

pub open spec fn field_name_msg(n1: Seq<char>, n2: Seq<char>) -> Seq<char> {
    "type error: cannot unify struct fields '"@ + n1 + "' and '"@ + n2 + "'"@
}

/// The `Debug` text of a type, as derived: the variant's name, with its
/// fields in parentheses or, for the variants with named fields, in braces.
pub open spec fn ty_debug_text(t: TyV) -> Seq<char>
    decreases t,
{
    match t {
        TyV::Int => "Int"@,
        TyV::Float => "Float"@,
        TyV::Bool => "Bool"@,
        TyV::Str => "String"@,
        TyV::Char => "Char"@,
        TyV::Byte => "Byte"@,
        TyV::Unit => "Unit"@,
        TyV::Array(e) => "Array("@ + ty_debug_text(*e) + ")"@,
        TyV::Struct(fs) => "Struct(["@ + fields_debug(fs) + "])"@,
        TyV::Fn(p, r) => "Fn { param: "@ + ty_debug_text(*p) + ", ret: "@ + ty_debug_text(*r) + " }"@,
        TyV::TagConstructor(id) => "TagConstructor("@ + decimal(id as nat) + ")"@,
        TyV::Tagged(id, p) => "Tagged { tag_id: "@ + decimal(id as nat) + ", payload: "@ + ty_debug_text(*p) + " }"@,
        TyV::MethodSet(id, tag) => "MethodSet { id: "@ + decimal(id as nat) + ", tag_id: "@ + decimal(tag as nat) + " }"@,
        TyV::MethodSetConstructor => "MethodSetConstructor"@,
        TyV::Union(vs) => "Union(["@ + tys_debug(vs) + "])"@,
        TyV::IntLiteral => "IntLiteral"@,
        TyV::FloatLiteral => "FloatLiteral"@,
        TyV::Infer(n) => "Infer("@ + decimal(n as nat) + ")"@,
        TyV::Generic(n) => "Generic("@ + decimal(n as nat) + ")"@,
    }
}

/// The `Debug` texts of struct fields, each as a pair `("name", type)`,
/// separated by ", ".
pub open spec fn fields_debug(fs: Seq<(Seq<char>, TyV)>) -> Seq<char>
    decreases fs,
{
    if fs.len() == 0 {
        seq![]
    } else {
        let item = "("@ + str_debug(fs.last().0) + ", "@ + ty_debug_text(fs.last().1) + ")"@;
        if fs.len() == 1 {
            item
        } else {
            fields_debug(fs.drop_last()) + ", "@ + item
        }
    }
}

/// The `Debug` texts of types, separated by ", ".
pub open spec fn tys_debug(vs: Seq<TyV>) -> Seq<char>
    decreases vs,
{
    if vs.len() == 0 {
        seq![]
    } else if vs.len() == 1 {
        ty_debug_text(vs.last())
    } else {
        tys_debug(vs.drop_last()) + ", "@ + ty_debug_text(vs.last())
    }
}

fn enclosed(open: &str, inner: String, close: &str) -> (r: String)
    ensures
        r@ == open@ + inner@ + close@,
{
    let mut s = text(open);
    push_str(&mut s, inner.as_str());
    push_str(&mut s, close);
    s
}

/// The `Debug` text of a type, as `format!("{:?}", t)` prints it.
pub fn ty_debug(t: &Ty) -> (r: String)
    ensures
        r@ == ty_debug_text(t@),
    decreases t,
{
    match t {
        Ty::Int => text("Int"),
        Ty::Float => text("Float"),
        Ty::Bool => text("Bool"),
        Ty::String => text("String"),
        Ty::Char => text("Char"),
        Ty::Byte => text("Byte"),
        Ty::Unit => text("Unit"),
        Ty::Array(e) => enclosed("Array(", ty_debug(e), ")"),
        Ty::Struct(fields) => {
            let ghost fs = fields_view(fields@);
            let mut s = String::new();
            let mut i: usize = 0;
            while i < fields.len()
                invariant
                    i <= fields.len(),
                    *t == Ty::Struct(*fields),
                    s@ == fields_debug(fields_view(fields@.take(i as int))),
                decreases fields.len() - i,
            {
                proof {
                    assert(decreases_to!(*t => (*t)->Struct_0));
                    assert(decreases_to!(fields => fields@));
                    assert(decreases_to!(fields@ => fields@[i as int]));
                    assert(decreases_to!(fields@[i as int] => fields@[i as int].1));
                    assert(fields@.take(i + 1) =~= fields@.take(i as int).push(fields@[i as int]));
                    lemma_fields_view_push(fields@.take(i as int), fields@[i as int]);
                    let fv = fields_view(fields@.take(i as int)).push((fields@[i as int].0@, fields@[i as int].1@));
                    assert(fv.drop_last() =~= fields_view(fields@.take(i as int)));
                }
                if i > 0 {
                    push_str(&mut s, ", ");
                }
                let name = str_debug_text(fields[i].0.as_str());
                let inner = ty_debug(&fields[i].1);
                push_str(&mut s, "(");
                push_str(&mut s, name.as_str());
                push_str(&mut s, ", ");
                push_str(&mut s, inner.as_str());
                push_str(&mut s, ")");
                i = i + 1;
                assert(s@ =~= fields_debug(fields_view(fields@.take(i as int))));
            }
            proof {
                assert(fields@.take(i as int) =~= fields@);
            }
            enclosed("Struct([", s, "])")
        },
        Ty::Fn { param, ret } => {
            let mut s = text("Fn { param: ");
            let p = ty_debug(param);
            push_str(&mut s, p.as_str());
            push_str(&mut s, ", ret: ");
            let r = ty_debug(ret);
            push_str(&mut s, r.as_str());
            push_str(&mut s, " }");
            s
        },
        Ty::TagConstructor(id) => enclosed("TagConstructor(", u64_decimal(*id), ")"),
        Ty::Tagged { tag_id, payload } => {
            let mut s = text("Tagged { tag_id: ");
            let d = u64_decimal(*tag_id);
            push_str(&mut s, d.as_str());
            push_str(&mut s, ", payload: ");
            let p = ty_debug(payload);
            push_str(&mut s, p.as_str());
            push_str(&mut s, " }");
            s
        },
        Ty::MethodSet { id, tag_id } => {
            let mut s = text("MethodSet { id: ");
            let d = u64_decimal(*id);
            push_str(&mut s, d.as_str());
            push_str(&mut s, ", tag_id: ");
            let d2 = u64_decimal(*tag_id);
            push_str(&mut s, d2.as_str());
            push_str(&mut s, " }");
            s
        },
        Ty::MethodSetConstructor => text("MethodSetConstructor"),
        Ty::Union(variants) => {
            let mut s = String::new();
            let mut i: usize = 0;
            while i < variants.len()
                invariant
                    i <= variants.len(),
                    *t == Ty::Union(*variants),
                    s@ == tys_debug(tys_view(variants@.take(i as int))),
                decreases variants.len() - i,
            {
                proof {
                    assert(decreases_to!(*t => (*t)->Union_0));
                    assert(decreases_to!(variants => variants@));
                    assert(decreases_to!(variants@ => variants@[i as int]));
                    assert(variants@.take(i + 1) =~= variants@.take(i as int).push(variants@[i as int]));
                    lemma_tys_view_push(variants@.take(i as int), variants@[i as int]);
                    let v = tys_view(variants@.take(i as int)).push(variants@[i as int]@);
                    assert(v.drop_last() =~= tys_view(variants@.take(i as int)));
                }
                if i > 0 {
                    push_str(&mut s, ", ");
                }
                let inner = ty_debug(&variants[i]);
                push_str(&mut s, inner.as_str());
                i = i + 1;
                assert(s@ =~= tys_debug(tys_view(variants@.take(i as int))));
            }
            proof {
                assert(variants@.take(i as int) =~= variants@);
            }
            enclosed("Union([", s, "])")
        },
        Ty::IntLiteral => text("IntLiteral"),
        Ty::FloatLiteral => text("FloatLiteral"),
        Ty::Infer(n) => enclosed("Infer(", u64_decimal(*n), ")"),
        Ty::Generic(n) => enclosed("Generic(", u64_decimal(*n), ")"),
    }
}

pub open spec fn mismatch_msg(a: TyV, b: TyV) -> Seq<char> {
    "type error: cannot unify "@ + ty_debug_text(a) + " with "@ + ty_debug_text(b)
}

/// Unification of `a` and `b` given `fuel` nested steps; `None` when the
/// fuel runs out. `tsize(a) + tsize(b) + 1` steps always suffice (see `unify`).
pub open spec fn unify_fuel(a: TyV, b: TyV, fuel: nat) -> Option<Result<TyV, Seq<char>>>
    decreases fuel, 0nat,
{
    if fuel == 0 {
        None
    } else {
        let f = (fuel - 1) as nat;
        match (a, b) {
            (TyV::Infer(_), _) => Some(Ok(b)),
            (_, TyV::Infer(_)) => Some(Ok(a)),
            (TyV::Generic(_), _) => Some(Ok(b)),
            (_, TyV::Generic(_)) => Some(Ok(a)),
            (TyV::Int, TyV::Int) => Some(Ok(TyV::Int)),
            (TyV::Float, TyV::Float) => Some(Ok(TyV::Float)),
            (TyV::Bool, TyV::Bool) => Some(Ok(TyV::Bool)),
            (TyV::Str, TyV::Str) => Some(Ok(TyV::Str)),
            (TyV::Char, TyV::Char) => Some(Ok(TyV::Char)),
            (TyV::Byte, TyV::Byte) => Some(Ok(TyV::Byte)),
            (TyV::Unit, TyV::Unit) => Some(Ok(TyV::Unit)),
            (TyV::Array(e1), TyV::Array(e2)) => match unify_fuel(*e1, *e2, f) {
                None => None,
                Some(Err(e)) => Some(Err(e)),
                Some(Ok(t)) => Some(Ok(TyV::Array(Box::new(t)))),
            },
            (TyV::Fn(p1, r1), TyV::Fn(p2, r2)) => match unify_fuel(*p1, *p2, f) {
                None => None,
                Some(Err(e)) => Some(Err(e)),
                Some(Ok(p)) => match unify_fuel(*r1, *r2, f) {
                    None => None,
                    Some(Err(e)) => Some(Err(e)),
                    Some(Ok(r)) => Some(Ok(TyV::Fn(Box::new(p), Box::new(r)))),
                },
            },
            (TyV::Struct(f1), TyV::Struct(f2)) => if f1.len() != f2.len() {
                Some(Err(struct_count_msg(f1.len(), f2.len())))
            } else {
                match unify_fields_fuel(f1, f2, f) {
                    None => None,
                    Some(Err(e)) => Some(Err(e)),
                    Some(Ok(fs)) => Some(Ok(TyV::Struct(fs))),
                }
            },
            (TyV::TagConstructor(i1), TyV::TagConstructor(i2)) => if i1 == i2 {
                Some(Ok(TyV::TagConstructor(i1)))
            } else {
                Some(Err("type error: cannot unify different type constructors"@))
            },
            (TyV::Tagged(i1, p1), TyV::Tagged(i2, p2)) => if i1 == i2 {
                match unify_fuel(*p1, *p2, f) {
                    None => None,
                    Some(Err(e)) => Some(Err(e)),
                    Some(Ok(p)) => Some(Ok(TyV::Tagged(i1, Box::new(p)))),
                }
            } else {
                Some(Ok(TyV::Union(seq![a, b])))
            },
            (TyV::Union(vs), _) => union_add_fuel(vs, b, f),
            (_, TyV::Union(vs)) => union_add_fuel(vs, a, f),
            (TyV::Tagged(_, _), _) => Some(Ok(TyV::Union(seq![a, b]))),
            (_, TyV::Tagged(_, _)) => Some(Ok(TyV::Union(seq![a, b]))),
            (TyV::MethodSetConstructor, TyV::MethodSetConstructor) => Some(
                Ok(TyV::MethodSetConstructor),
            ),
            (TyV::MethodSet(i1, t1), TyV::MethodSet(i2, t2)) => if i1 == i2 && t1 == t2 {
                Some(Ok(TyV::MethodSet(i1, t1)))
            } else {
                Some(Err("type error: cannot unify different method set types"@))
            },
            (TyV::IntLiteral, TyV::IntLiteral) => Some(Ok(TyV::IntLiteral)),
            (TyV::IntLiteral, TyV::Int) => Some(Ok(TyV::Int)),
            (TyV::Int, TyV::IntLiteral) => Some(Ok(TyV::Int)),
            (TyV::IntLiteral, TyV::Byte) => Some(Ok(TyV::Byte)),
            (TyV::Byte, TyV::IntLiteral) => Some(Ok(TyV::Byte)),
            (TyV::FloatLiteral, TyV::FloatLiteral) => Some(Ok(TyV::FloatLiteral)),
            (TyV::FloatLiteral, TyV::Float) => Some(Ok(TyV::Float)),
            (TyV::Float, TyV::FloatLiteral) => Some(Ok(TyV::Float)),
            _ => Some(Err(mismatch_msg(a, b))),
        }
    }
}

/// Field-by-field unification of two structs of the same length: the first
/// differing name or failing field type, in field order, is the error.
pub open spec fn unify_fields_fuel(
    f1: Seq<(Seq<char>, TyV)>,
    f2: Seq<(Seq<char>, TyV)>,
    fuel: nat,
) -> Option<Result<Seq<(Seq<char>, TyV)>, Seq<char>>>
    decreases fuel, f1.len() + 1,
{
    if f1.len() == 0 {
        Some(Ok(seq![]))
    } else {
        match unify_fields_fuel(f1.drop_last(), f2.drop_last(), fuel) {
            None => None,
            Some(Err(e)) => Some(Err(e)),
            Some(Ok(prefix)) => {
                let (n1, t1) = f1.last();
                let (n2, t2) = f2.last();
                if n1 != n2 {
                    Some(Err(field_name_msg(n1, n2)))
                } else {
                    match unify_fuel(t1, t2, fuel) {
                        None => None,
                        Some(Err(e)) => Some(Err(e)),
                        Some(Ok(t)) => Some(Ok(prefix.push((n1, t)))),
                    }
                }
            },
        }
    }
}

/// The types a type contributes to a union: its variants if it is a union,
/// else itself.
pub open spec fn union_items(ty: TyV) -> Seq<TyV> {
    match ty {
        TyV::Union(inner) => inner,
        _ => seq![ty],
    }
}

pub open spec fn is_tagged_with(t: TyV, id: u64) -> bool {
    t matches TyV::Tagged(i, _) && i == id
}

pub open spec fn tagged_payload(t: TyV) -> TyV {
    match t {
        TyV::Tagged(_, p) => *p,
        _ => t,
    }
}

/// Index of the first variant tagged with `id`.
pub open spec fn first_tag_index(vs: Seq<TyV>, id: u64) -> Option<int>
    decreases vs.len(),
{
    if vs.len() == 0 {
        None
    } else {
        match first_tag_index(vs.drop_last(), id) {
            Some(j) => Some(j),
            None => if is_tagged_with(vs.last(), id) {
                Some(vs.len() - 1)
            } else {
                None
            },
        }
    }
}

/// Adds one type to the variants: a tagged type whose tag is already there
/// has its payload unified into that variant; otherwise the type is appended
/// unless an equal variant is already present.
pub open spec fn union_step(cur: Seq<TyV>, t: TyV, fuel: nat) -> Option<
    Result<Seq<TyV>, Seq<char>>,
>
    decreases fuel, 1nat,
{
    let absent = if cur.contains(t) {
        cur
    } else {
        cur.push(t)
    };
    match t {
        TyV::Tagged(id, q) => match first_tag_index(cur, id) {
            Some(j) => match unify_fuel(tagged_payload(cur[j]), *q, fuel) {
                None => None,
                Some(Err(e)) => Some(Err(e)),
                Some(Ok(p)) => Some(Ok(cur.update(j, TyV::Tagged(id, Box::new(p))))),
            },
            None => Some(Ok(absent)),
        },
        _ => Some(Ok(absent)),
    }
}

pub open spec fn union_fold(vs: Seq<TyV>, items: Seq<TyV>, fuel: nat) -> Option<
    Result<Seq<TyV>, Seq<char>>,
>
    decreases fuel, items.len() + 1,
{
    if items.len() == 0 {
        Some(Ok(vs))
    } else {
        match union_fold(vs, items.drop_last(), fuel) {
            None => None,
            Some(Err(e)) => Some(Err(e)),
            Some(Ok(cur)) => union_step(cur, items.last(), fuel),
        }
    }
}

/// Adds `ty` (all its variants, if it is a union) to a union's variants;
/// a single remaining variant stands alone.
pub open spec fn union_add_fuel(vs: Seq<TyV>, ty: TyV, fuel: nat) -> Option<
    Result<TyV, Seq<char>>,
>
    decreases fuel, union_items(ty).len() + 2,
{
    match union_fold(vs, union_items(ty), fuel) {
        None => None,
        Some(Err(e)) => Some(Err(e)),
        Some(Ok(out)) => if out.len() == 1 {
            Some(Ok(out[0]))
        } else {
            Some(Ok(TyV::Union(out)))
        },
    }
}

/// The unification of two types: the unified type, or the error message.
pub open spec fn spec_unify(a: TyV, b: TyV) -> Result<TyV, Seq<char>> {
    unify_fuel(a, b, tsize(a) + tsize(b) + 1).unwrap()
}

pub open spec fn result_view(r: Result<Ty, String>) -> Result<TyV, Seq<char>> {
    match r {
        Ok(t) => Ok(t@),
        Err(e) => Err(e@),
    }
}

} // verus!

verus! {

// ── Unification: lemmas ─────────────────────────────────────────

pub proof fn lemma_fsize_elem(fs: Seq<(Seq<char>, TyV)>, i: int)
    requires
        0 <= i < fs.len(),
    ensures
        tsize(fs[i].1) <= fsize(fs),
    decreases fs.len(),
{
    if i < fs.len() - 1 {
        lemma_fsize_elem(fs.drop_last(), i);
    }
}

pub proof fn lemma_vsize_elem(vs: Seq<TyV>, i: int)
    requires
        0 <= i < vs.len(),
    ensures
        tsize(vs[i]) <= vsize(vs),
    decreases vs.len(),
{
    if i < vs.len() - 1 {
        lemma_vsize_elem(vs.drop_last(), i);
    }
}

pub proof fn lemma_vsize_take(vs: Seq<TyV>, k: int)
    requires
        0 <= k < vs.len(),
    ensures
        vsize(vs.take(k + 1)) == vsize(vs.take(k)) + tsize(vs[k]),
        vsize(vs.take(k + 1)) <= vsize(vs),
    decreases vs.len(),
{
    assert(vs.take(k + 1).drop_last() =~= vs.take(k));
    if k + 1 < vs.len() {
        lemma_vsize_take(vs.drop_last(), k);
        assert(vs.drop_last().take(k + 1) =~= vs.take(k + 1));
    } else {
        assert(vs.take(k + 1) =~= vs);
    }
}

pub proof fn lemma_fsize_take(fs: Seq<(Seq<char>, TyV)>, k: int)
    requires
        0 <= k < fs.len(),
    ensures
        fsize(fs.take(k + 1)) == fsize(fs.take(k)) + tsize(fs[k].1),
{
    assert(fs.take(k + 1).drop_last() =~= fs.take(k));
}

pub proof fn lemma_vsize_update(vs: Seq<TyV>, j: int, x: TyV)
    requires
        0 <= j < vs.len(),
    ensures
        vsize(vs.update(j, x)) + tsize(vs[j]) == vsize(vs) + tsize(x),
    decreases vs.len(),
{
    if j < vs.len() - 1 {
        lemma_vsize_update(vs.drop_last(), j, x);
        assert(vs.update(j, x).drop_last() =~= vs.drop_last().update(j, x));
    } else {
        assert(vs.update(j, x).drop_last() =~= vs.drop_last());
    }
}

pub proof fn lemma_vsize_single(x: TyV)
    ensures
        vsize(seq![x]) == tsize(x),
{
    assert(seq![x].drop_last() =~= Seq::<TyV>::empty());
    assert(vsize(Seq::<TyV>::empty()) == 0);
}

pub proof fn lemma_vsize_push(vs: Seq<TyV>, x: TyV)
    ensures
        vsize(vs.push(x)) == vsize(vs) + tsize(x),
{
    assert(vs.push(x).drop_last() =~= vs);
}

pub proof fn lemma_tys_view_push(v: Seq<Ty>, x: Ty)
    ensures
        tys_view(v.push(x)) == tys_view(v).push(x@),
{
    assert(v.push(x).drop_last() =~= v);
}

pub proof fn lemma_tys_view_update(v: Seq<Ty>, j: int, x: Ty)
    requires
        0 <= j < v.len(),
    ensures
        tys_view(v.update(j, x)) == tys_view(v).update(j, x@),
{
    lemma_tys_view(v);
    lemma_tys_view(v.update(j, x));
    assert(tys_view(v.update(j, x)) =~= tys_view(v).update(j, x@));
}

pub proof fn lemma_fields_view_push(v: Seq<(String, Ty)>, x: (String, Ty))
    ensures
        fields_view(v.push(x)) == fields_view(v).push((x.0@, x.1@)),
{
    assert(v.push(x).drop_last() =~= v);
}

pub proof fn lemma_first_tag_index(vs: Seq<TyV>, id: u64)
    ensures
        match first_tag_index(vs, id) {
            Some(j) => 0 <= j < vs.len() && is_tagged_with(vs[j], id) && forall|m: int|
                0 <= m < j ==> !is_tagged_with(#[trigger] vs[m], id),
            None => forall|m: int| 0 <= m < vs.len() ==> !is_tagged_with(#[trigger] vs[m], id),
        },
    decreases vs.len(),
{
    if vs.len() > 0 {
        lemma_first_tag_index(vs.drop_last(), id);
        assert forall|m: int| 0 <= m < vs.len() - 1 implies #[trigger] vs[m] == vs.drop_last()[m] by {}
    }
}

pub proof fn lemma_fields_err_extends(
    f1: Seq<(Seq<char>, TyV)>,
    f2: Seq<(Seq<char>, TyV)>,
    m: int,
    fuel: nat,
)
    requires
        0 <= m <= f1.len(),
        f1.len() == f2.len(),
        unify_fields_fuel(f1.take(m), f2.take(m), fuel) matches Some(Err(_)),
    ensures
        unify_fields_fuel(f1, f2, fuel) == unify_fields_fuel(f1.take(m), f2.take(m), fuel),
    decreases f1.len() - m,
{
    if m < f1.len() {
        assert(f1.drop_last().take(m) =~= f1.take(m));
        assert(f2.drop_last().take(m) =~= f2.take(m));
        lemma_fields_err_extends(f1.drop_last(), f2.drop_last(), m, fuel);
    } else {
        assert(f1.take(m) =~= f1);
        assert(f2.take(m) =~= f2);
    }
}

pub proof fn lemma_union_err_extends(vs: Seq<TyV>, items: Seq<TyV>, m: int, fuel: nat)
    requires
        0 <= m <= items.len(),
        union_fold(vs, items.take(m), fuel) matches Some(Err(_)),
    ensures
        union_fold(vs, items, fuel) == union_fold(vs, items.take(m), fuel),
    decreases items.len() - m,
{
    if m < items.len() {
        assert(items.drop_last().take(m) =~= items.take(m));
        lemma_union_err_extends(vs, items.drop_last(), m, fuel);
    } else {
        assert(items.take(m) =~= items);
    }
}

// ── Unification: executable ────────────────────────────────────

fn struct_count_message(n1: usize, n2: usize) -> (r: String)
    ensures
        r@ == struct_count_msg(n1 as nat, n2 as nat),
{
    let mut s = text("type error: cannot unify structs with ");
    let d1 = u64_decimal(n1 as u64);
    push_str(&mut s, d1.as_str());
    push_str(&mut s, " and ");
    let d2 = u64_decimal(n2 as u64);
    push_str(&mut s, d2.as_str());
    push_str(&mut s, " fields");
    assert(s@ =~= struct_count_msg(n1 as nat, n2 as nat));
    s
}

fn field_name_message(n1: &String, n2: &String) -> (r: String)
    ensures
        r@ == field_name_msg(n1@, n2@),
{
    let mut s = text("type error: cannot unify struct fields '");
    push_str(&mut s, n1.as_str());
    push_str(&mut s, "' and '");
    push_str(&mut s, n2.as_str());
    push_str(&mut s, "'");
    assert(s@ =~= field_name_msg(n1@, n2@));
    s
}

fn mismatch_message(a: &Ty, b: &Ty) -> (r: String)
    ensures
        r@ == mismatch_msg(a@, b@),
{
    let mut s = text("type error: cannot unify ");
    let da = ty_debug(a);
    push_str(&mut s, da.as_str());
    push_str(&mut s, " with ");
    let db = ty_debug(b);
    push_str(&mut s, db.as_str());
    assert(s@ =~= mismatch_msg(a@, b@));
    s
}

fn has_tag(t: &Ty, id: u64) -> (r: bool)
    ensures
        r == is_tagged_with(t@, id),
{
    match t {
        Ty::Tagged { tag_id, .. } => *tag_id == id,
        _ => false,
    }
}

/// Whether some variant equals `t` (structurally).
pub fn contains_ty(vs: &Vec<Ty>, t: &Ty) -> (r: bool)
    ensures
        r == tys_view(vs@).contains(t@),
{
    proof {
        lemma_tys_view(vs@);
    }
    let mut i: usize = 0;
    while i < vs.len()
        invariant
            i <= vs.len(),
            tys_view(vs@).len() == vs.len(),
            forall|k: int| 0 <= k < vs.len() ==> #[trigger] tys_view(vs@)[k] == vs@[k]@,
            forall|k: int| 0 <= k < i ==> tys_view(vs@)[k] != t@,
        decreases vs.len() - i,
    {
        if ty_eq(&vs[i], t) {
            assert(tys_view(vs@)[i as int] == t@);
            return true;
        }
        i = i + 1;
    }
    false
}

fn pair_union(a: &Ty, b: &Ty) -> (r: Ty)
    ensures
        r@ == TyV::Union(seq![a@, b@]),
        tsize(r@) == tsize(a@) + tsize(b@),
{
    let mut v: Vec<Ty> = Vec::new();
    v.push(copy_ty(a));
    v.push(copy_ty(b));
    proof {
        lemma_tys_view(v@);
        assert(tys_view(v@) =~= seq![a@, b@]);
        lemma_vsize_single(a@);
        assert(seq![a@].push(b@) =~= seq![a@, b@]);
        lemma_vsize_push(seq![a@], b@);
    }
    let r = Ty::Union(v);
    assert(r@ == TyV::Union(tys_view(v@)));
    r
}

/// Adds `ty` to the variants of a union (all of `ty`'s own variants when it
/// is a union): a tagged type whose tag is present has its payload unified
/// into that variant; any other type is appended unless an equal variant is
/// present. A single resulting variant is returned on its own.
pub fn union_add(variants: Vec<Ty>, ty: Ty) -> (r: Result<Ty, String>)
    ensures
        forall|fuel: nat|
            fuel >= vsize(tys_view(variants@)) + tsize(ty@) ==> #[trigger] union_add_fuel(
                tys_view(variants@),
                ty@,
                fuel,
            ) == Some(result_view(r)),
        r is Ok ==> tsize(r->Ok_0@) <= vsize(tys_view(variants@)) + tsize(ty@),
    decreases vsize(tys_view(variants@)) + tsize(ty@), 0nat,
{
    let ghost vs0 = tys_view(variants@);
    let ghost vb = vsize(vs0) + tsize(ty@);
    let ghost ty_v = ty@;
    let mut vars = variants;
    let to_add: Vec<Ty> = match ty {
        Ty::Union(inner) => {
            assert(ty_v == TyV::Union(tys_view(inner@)));
            inner
        },
        other => {
            let mut v = Vec::new();
            v.push(other);
            proof {
                lemma_tys_view(v@);
                assert(tys_view(v@) =~= seq![ty_v]);
                lemma_vsize_single(ty_v);
            }
            v
        },
    };
    let ghost items = tys_view(to_add@);
    proof {
        lemma_tys_view(to_add@);
        assert(items == union_items(ty_v));
        assert(vsize(items) == tsize(ty_v));
        assert(items.take(0) =~= Seq::<TyV>::empty());
    }
    let mut k: usize = 0;
    while k < to_add.len()
        invariant
            k <= to_add.len(),
            items == tys_view(to_add@),
            items.len() == to_add.len(),
            forall|m: int| 0 <= m < to_add.len() ==> #[trigger] items[m] == to_add@[m]@,
            items == union_items(ty_v),
            vs0 == tys_view(variants@),
            ty_v == ty@,
            vsize(items) == tsize(ty_v),
            vb == vsize(vs0) + tsize(ty_v),
            vsize(tys_view(vars@)) <= vsize(vs0) + vsize(items.take(k as int)),
            forall|fuel: nat|
                fuel >= vb ==> #[trigger] union_fold(vs0, items.take(k as int), fuel) == Some(
                    Ok::<Seq<TyV>, Seq<char>>(tys_view(vars@)),
                ),
        decreases to_add.len() - k,
    {
        let t = &to_add[k];
        let ghost cur = tys_view(vars@);
        let ghost tv = t@;
        proof {
            lemma_tys_view(vars@);
            lemma_vsize_take(items, k as int);
            assert(items.take(k + 1).drop_last() =~= items.take(k as int));
            assert(items.take(k + 1).last() == tv);
        }
        let mut merged = false;
        if let Ty::Tagged { tag_id: id2, payload: p2 } = t {
            let mut j: usize = 0;
            while j < vars.len() && !has_tag(&vars[j], *id2)
                invariant
                    j <= vars.len(),
                    cur == tys_view(vars@),
                    cur.len() == vars.len(),
                    forall|m: int| 0 <= m < vars.len() ==> #[trigger] cur[m] == vars@[m]@,
                    forall|m: int| 0 <= m < j ==> !is_tagged_with(#[trigger] cur[m], *id2),
                decreases vars.len() - j,
            {
                j = j + 1;
            }
            proof {
                lemma_first_tag_index(cur, *id2);
            }
            if j < vars.len() {
                proof {
                    assert(first_tag_index(cur, *id2) == Some(j as int));
                    lemma_vsize_elem(cur, j as int);
                }
                proof {
                    assert(tv == items[k as int]);
                    assert(tsize(tv) == 1 + tsize((*p2)@));
                    assert(cur[j as int] == vars@[j as int]@);
                }
                let res = match &vars[j] {
                    Ty::Tagged { payload: p1, .. } => {
                        proof {
                            assert(tsize(cur[j as int]) == 1 + tsize((*p1)@));
                            assert(tsize((*p1)@) + tsize((*p2)@) + 2 <= vb);
                        }
                        unify_inner(p1, p2)
                    },
                    _ => Err(String::new()),
                };
                let ghost pv = tagged_payload(cur[j as int]);
                match res {
                    Err(e) => {
                        proof {
                            assert forall|fuel: nat| fuel >= vb implies #[trigger] union_add_fuel(
                                vs0,
                                ty_v,
                                fuel,
                            ) == Some(Err::<TyV, Seq<char>>(e@)) by {
                                assert(unify_fuel(pv, (*p2)@, fuel) == Some(Err::<TyV, Seq<char>>(e@)));
                                assert(union_fold(vs0, items.take(k as int), fuel) == Some(Ok::<Seq<TyV>, Seq<char>>(cur)));
                                assert(union_fold(vs0, items.take(k + 1).drop_last(), fuel) == Some(Ok::<Seq<TyV>, Seq<char>>(cur)));
                                assert(union_step(cur, tv, fuel) == Some(Err::<Seq<TyV>, Seq<char>>(e@)));
                                assert(union_fold(vs0, items.take(k + 1), fuel) == Some(Err::<Seq<TyV>, Seq<char>>(e@)));
                                lemma_union_err_extends(vs0, items, k + 1, fuel);
                            }
                        }
                        return Err(e);
                    },
                    Ok(u) => {
                        let ghost uv = u@;
                        let newv = Ty::Tagged { tag_id: *id2, payload: Box::new(u) };
                        let ghost nv = newv;
                        let ghost before = vars@;
                        vars.set(j, newv);
                        merged = true;
                        proof {
                            lemma_tys_view_update(before, j as int, nv);
                            lemma_vsize_update(cur, j as int, TyV::Tagged(*id2, Box::new(uv)));
                            assert(nv@ == TyV::Tagged(*id2, Box::new(uv)));
                            assert(tys_view(vars@) == cur.update(j as int, TyV::Tagged(*id2, Box::new(uv))));
                            assert forall|fuel: nat| fuel >= vb implies #[trigger] union_fold(
                                vs0,
                                items.take(k + 1),
                                fuel,
                            ) == Some(Ok::<Seq<TyV>, Seq<char>>(tys_view(vars@))) by {
                                assert(unify_fuel(pv, (*p2)@, fuel) == Some(Ok::<TyV, Seq<char>>(uv)));
                                assert(union_fold(vs0, items.take(k as int), fuel) == Some(Ok::<Seq<TyV>, Seq<char>>(cur)));
                                assert(union_fold(vs0, items.take(k + 1).drop_last(), fuel) == Some(Ok::<Seq<TyV>, Seq<char>>(cur)));
                                assert(union_step(cur, tv, fuel) == Some(Ok::<Seq<TyV>, Seq<char>>(tys_view(vars@))));
                            }
                        }
                    },
                }
            } else {
                proof {
                    assert(first_tag_index(cur, *id2) is None);
                }
            }
        }
        if !merged {
            let present = contains_ty(&vars, t);
            if !present {
                let c = copy_ty(t);
                let ghost before = vars@;
                vars.push(c);
                proof {
                    lemma_tys_view_push(before, c);
                    lemma_vsize_push(cur, tv);
                }
            }
            proof {
                assert(tys_view(vars@) == (if cur.contains(tv) { cur } else { cur.push(tv) }));
                assert forall|fuel: nat| fuel >= vb implies #[trigger] union_fold(
                    vs0,
                    items.take(k + 1),
                    fuel,
                ) == Some(Ok::<Seq<TyV>, Seq<char>>(tys_view(vars@))) by {
                    assert(union_fold(vs0, items.take(k as int), fuel) == Some(Ok::<Seq<TyV>, Seq<char>>(cur)));
                    assert(union_fold(vs0, items.take(k + 1).drop_last(), fuel) == Some(Ok::<Seq<TyV>, Seq<char>>(cur)));
                    assert(union_step(cur, tv, fuel) == Some(Ok::<Seq<TyV>, Seq<char>>(tys_view(vars@))));
                }
            }
        }
        k = k + 1;
    }
    proof {
        assert(items.take(k as int) =~= items);
    }
    proof {
        lemma_tys_view(vars@);
        assert forall|fuel: nat| fuel >= vb implies #[trigger] union_fold(vs0, items, fuel) == Some(Ok::<Seq<TyV>, Seq<char>>(tys_view(vars@))) by {
            assert(union_fold(vs0, items.take(k as int), fuel) == Some(Ok::<Seq<TyV>, Seq<char>>(tys_view(vars@))));
        }
        assert(vsize(items.take(k as int)) == vsize(items));
    }
    let ghost out = tys_view(vars@);
    if vars.len() == 1 {
        proof {
            lemma_vsize_elem(out, 0);
        }
        let v = vars.pop().unwrap();
        proof {
            assert(v@ == out[0]);
            assert forall|fuel: nat| fuel >= vb implies #[trigger] union_add_fuel(vs0, ty_v, fuel) == Some(Ok::<TyV, Seq<char>>(v@)) by {
                assert(union_fold(vs0, union_items(ty_v), fuel) == Some(Ok::<Seq<TyV>, Seq<char>>(out)));
            }
        }
        Ok(v)
    } else {
        let r = Ty::Union(vars);
        proof {
            assert(r@ == TyV::Union(out));
            assert forall|fuel: nat| fuel >= vb implies #[trigger] union_add_fuel(vs0, ty_v, fuel) == Some(Ok::<TyV, Seq<char>>(r@)) by {
                assert(union_fold(vs0, union_items(ty_v), fuel) == Some(Ok::<Seq<TyV>, Seq<char>>(out)));
            }
        }
        Ok(r)
    }
}

} // verus!

verus! {

fn unify_inner(a: &Ty, b: &Ty) -> (r: Result<Ty, String>)
    ensures
        forall|fuel: nat|
            fuel >= tsize(a@) + tsize(b@) + 1 ==> #[trigger] unify_fuel(a@, b@, fuel) == Some(
                result_view(r),
            ),
        r is Ok ==> tsize(r->Ok_0@) <= tsize(a@) + tsize(b@),
    decreases tsize(a@) + tsize(b@), 1nat,
{
    let ghost bound = tsize(a@) + tsize(b@) + 1;
    match (a, b) {
        (Ty::Infer(_), _) => Ok(copy_ty(b)),
        (_, Ty::Infer(_)) => Ok(copy_ty(a)),
        (Ty::Generic(_), _) => Ok(copy_ty(b)),
        (_, Ty::Generic(_)) => Ok(copy_ty(a)),
        (Ty::Int, Ty::Int) => Ok(Ty::Int),
        (Ty::Float, Ty::Float) => Ok(Ty::Float),
        (Ty::Bool, Ty::Bool) => Ok(Ty::Bool),
        (Ty::String, Ty::String) => Ok(Ty::String),
        (Ty::Char, Ty::Char) => Ok(Ty::Char),
        (Ty::Byte, Ty::Byte) => Ok(Ty::Byte),
        (Ty::Unit, Ty::Unit) => Ok(Ty::Unit),
        (Ty::Array(e1), Ty::Array(e2)) => {
            let r = unify_inner(e1, e2);
            proof {
                assert forall|fuel: nat| fuel >= bound implies #[trigger] unify_fuel(a@, b@, fuel) == (match unify_fuel((*e1)@, (*e2)@, (fuel - 1) as nat) {
                    None => None,
                    Some(Err(e)) => Some(Err(e)),
                    Some(Ok(t)) => Some(Ok(TyV::Array(Box::new(t)))),
                }) by {}
            }
            match r {
                Err(e) => Err(e),
                Ok(t) => Ok(Ty::Array(Box::new(t))),
            }
        },
        (Ty::Fn { param: p1, ret: r1 }, Ty::Fn { param: p2, ret: r2 }) => {
            let rp = unify_inner(p1, p2);
            proof {
                assert forall|fuel: nat| fuel >= bound implies #[trigger] unify_fuel(a@, b@, fuel) == (match unify_fuel((*p1)@, (*p2)@, (fuel - 1) as nat) {
                    None => None,
                    Some(Err(e)) => Some(Err(e)),
                    Some(Ok(p)) => match unify_fuel((*r1)@, (*r2)@, (fuel - 1) as nat) {
                        None => None,
                        Some(Err(e)) => Some(Err(e)),
                        Some(Ok(r)) => Some(Ok(TyV::Fn(Box::new(p), Box::new(r)))),
                    },
                }) by {}
            }
            match rp {
                Err(e) => Err(e),
                Ok(p) => {
                    let rr = unify_inner(r1, r2);
                    match rr {
                        Err(e) => Err(e),
                        Ok(r) => Ok(Ty::Fn { param: Box::new(p), ret: Box::new(r) }),
                    }
                },
            }
        },
        (Ty::Struct(f1), Ty::Struct(f2)) => {
            proof {
                lemma_fields_view(f1@);
                lemma_fields_view(f2@);
            }
            if f1.len() != f2.len() {
                return Err(struct_count_message(f1.len(), f2.len()));
            }
            let ghost fv1 = fields_view(f1@);
            let ghost fv2 = fields_view(f2@);
            let mut unified: Vec<(String, Ty)> = Vec::new();
            let mut i: usize = 0;
            proof {
                assert(fv1.take(0) =~= Seq::<(Seq<char>, TyV)>::empty());
                assert(fv2.take(0) =~= Seq::<(Seq<char>, TyV)>::empty());
                assert(fields_view(unified@) =~= Seq::<(Seq<char>, TyV)>::empty());
            }
            while i < f1.len()
                invariant
                    f1.len() == f2.len(),
                    i <= f1.len(),
                    *a == Ty::Struct(*f1),
                    *b == Ty::Struct(*f2),
                    fv1 == fields_view(f1@),
                    fv2 == fields_view(f2@),
                    fv1.len() == f1.len(),
                    fv2.len() == f2.len(),
                    forall|k: int| 0 <= k < f1.len() ==> #[trigger] fv1[k] == (f1@[k].0@, f1@[k].1@),
                    forall|k: int| 0 <= k < f2.len() ==> #[trigger] fv2[k] == (f2@[k].0@, f2@[k].1@),
                    bound == tsize(a@) + tsize(b@) + 1,
                    fsize(fields_view(unified@)) <= fsize(fv1.take(i as int)) + fsize(
                        fv2.take(i as int),
                    ),
                    forall|fuel: nat|
                        fuel + 1 >= bound ==> #[trigger] unify_fields_fuel(
                            fv1.take(i as int),
                            fv2.take(i as int),
                            fuel,
                        ) == Some(Ok::<Seq<(Seq<char>, TyV)>, Seq<char>>(fields_view(unified@))),
                decreases f1.len() - i,
            {
                proof {
                    assert(fv1.take(i + 1).drop_last() =~= fv1.take(i as int));
                    assert(fv2.take(i + 1).drop_last() =~= fv2.take(i as int));
                    assert(fv1.take(i + 1).last() == fv1[i as int]);
                    assert(fv2.take(i + 1).last() == fv2[i as int]);
                    lemma_fsize_elem(fv1, i as int);
                    lemma_fsize_elem(fv2, i as int);
                    lemma_fsize_take(fv1, i as int);
                    lemma_fsize_take(fv2, i as int);
                }
                if f1[i].0 != f2[i].0 {
                    let msg = field_name_message(&f1[i].0, &f2[i].0);
                    proof {
                        assert forall|fuel: nat| fuel >= bound implies #[trigger] unify_fuel(
                            a@,
                            b@,
                            fuel,
                        ) == Some(Err::<TyV, Seq<char>>(msg@)) by {
                            let g = (fuel - 1) as nat;
                            assert(unify_fields_fuel(fv1.take(i as int), fv2.take(i as int), g) == Some(Ok::<Seq<(Seq<char>, TyV)>, Seq<char>>(fields_view(unified@))));
                            assert(unify_fields_fuel(fv1.take(i + 1).drop_last(), fv2.take(i + 1).drop_last(), g) == Some(Ok::<Seq<(Seq<char>, TyV)>, Seq<char>>(fields_view(unified@))));
                            assert(fv1[i as int].0 != fv2[i as int].0);
                            assert(unify_fields_fuel(fv1.take(i + 1), fv2.take(i + 1), g) == Some(
                                Err::<Seq<(Seq<char>, TyV)>, Seq<char>>(msg@),
                            ));
                            lemma_fields_err_extends(fv1, fv2, i + 1, g);
                            assert(fv1.take(f1.len() as int) =~= fv1);
                        }
                    }
                    return Err(msg);
                }
                let ur = unify_inner(&f1[i].1, &f2[i].1);
                match ur {
                    Err(e) => {
                        proof {
                            assert forall|fuel: nat| fuel >= bound implies #[trigger] unify_fuel(
                                a@,
                                b@,
                                fuel,
                            ) == Some(Err::<TyV, Seq<char>>(e@)) by {
                                let g = (fuel - 1) as nat;
                                assert(unify_fuel(f1@[i as int].1@, f2@[i as int].1@, g) == Some(
                                    Err::<TyV, Seq<char>>(e@),
                                ));
                                assert(unify_fields_fuel(fv1.take(i as int), fv2.take(i as int), g) == Some(Ok::<Seq<(Seq<char>, TyV)>, Seq<char>>(fields_view(unified@))));
                                assert(unify_fields_fuel(fv1.take(i + 1).drop_last(), fv2.take(i + 1).drop_last(), g) == Some(Ok::<Seq<(Seq<char>, TyV)>, Seq<char>>(fields_view(unified@))));
                                assert(unify_fields_fuel(fv1.take(i + 1), fv2.take(i + 1), g)
                                    == Some(Err::<Seq<(Seq<char>, TyV)>, Seq<char>>(e@)));
                                lemma_fields_err_extends(fv1, fv2, i + 1, g);
                            }
                        }
                        return Err(e);
                    },
                    Ok(t) => {
                        let name = f1[i].0.clone();
                        let ghost before = unified@;
                        let ghost entry = (name, t);
                        proof {
                            assert forall|fuel: nat| fuel + 1 >= bound implies #[trigger] unify_fields_fuel(
                                fv1.take(i + 1).drop_last(),
                                fv2.take(i + 1).drop_last(),
                                fuel,
                            ) == Some(Ok::<Seq<(Seq<char>, TyV)>, Seq<char>>(fields_view(before))) by {
                                assert(unify_fields_fuel(fv1.take(i as int), fv2.take(i as int), fuel) == Some(Ok::<Seq<(Seq<char>, TyV)>, Seq<char>>(fields_view(before))));
                            }
                        }
                        unified.push((name, t));
                        proof {
                            lemma_fields_view_push(before, entry);
                            assert(fv1[i as int].0 == fv2[i as int].0);
                            assert(a@ == TyV::Struct(fv1));
                            assert(b@ == TyV::Struct(fv2));
                            assert(tsize(fv1[i as int].1) + tsize(fv2[i as int].1) + 3 <= bound);
                            assert(entry.0@ == fv1[i as int].0);
                            assert forall|fuel: nat| fuel + 1 >= bound implies #[trigger] unify_fields_fuel(
                                fv1.take(i + 1),
                                fv2.take(i + 1),
                                fuel,
                            ) == Some(Ok::<Seq<(Seq<char>, TyV)>, Seq<char>>(fields_view(unified@))) by {
                                assert(unify_fuel(f1@[i as int].1@, f2@[i as int].1@, fuel) == Some(
                                    Ok::<TyV, Seq<char>>(entry.1@),
                                ));
                                let pre = unify_fields_fuel(fv1.take(i + 1).drop_last(), fv2.take(i + 1).drop_last(), fuel);
                                assert(pre == Some(Ok::<Seq<(Seq<char>, TyV)>, Seq<char>>(fields_view(before))));
                                assert(fv1.take(i + 1).len() == i + 1);
                                assert(fv1.take(i + 1).last() == fv1[i as int]);
                                assert(fv2.take(i + 1).last() == fv2[i as int]);
                                assert(fields_view(before).push((fv1[i as int].0, entry.1@)) == fields_view(unified@));
                            }
                            assert(fields_view(unified@).drop_last() =~= fields_view(before));
                        }
                    },
                }
                i = i + 1;
            }
            proof {
                assert(fv1.take(i as int) =~= fv1);
                assert(fv2.take(i as int) =~= fv2);
            }
            let r: Result<Ty, String> = Ok(Ty::Struct(unified));
            proof {
                assert(a@ == TyV::Struct(fv1));
                assert(b@ == TyV::Struct(fv2));
                assert forall|fuel: nat| fuel >= bound implies #[trigger] unify_fuel(a@, b@, fuel) == Some(result_view(r)) by {
                    let g = (fuel - 1) as nat;
                    assert(unify_fields_fuel(fv1.take(i as int), fv2.take(i as int), g) == Some(Ok::<Seq<(Seq<char>, TyV)>, Seq<char>>(fields_view(unified@))));
                }
            }
            r
        },
        (Ty::TagConstructor(id1), Ty::TagConstructor(id2)) => {
            if *id1 == *id2 {
                Ok(Ty::TagConstructor(*id1))
            } else {
                Err(text("type error: cannot unify different type constructors"))
            }
        },
        (Ty::Tagged { tag_id: id1, payload: p1 }, Ty::Tagged { tag_id: id2, payload: p2 }) => {
            if *id1 == *id2 {
                let r = unify_inner(p1, p2);
                proof {
                    assert forall|fuel: nat| fuel >= bound implies #[trigger] unify_fuel(a@, b@, fuel) == (match unify_fuel((*p1)@, (*p2)@, (fuel - 1) as nat) {
                        None => None,
                        Some(Err(e)) => Some(Err(e)),
                        Some(Ok(p)) => Some(Ok(TyV::Tagged(*id1, Box::new(p)))),
                    }) by {}
                }
                match r {
                    Err(e) => Err(e),
                    Ok(p) => Ok(Ty::Tagged { tag_id: *id1, payload: Box::new(p) }),
                }
            } else {
                Ok(pair_union(a, b))
            }
        },
        (Ty::Union(variants), _) => {
            let vs = copy_tys(variants);
            let other = copy_ty(b);
            let r = union_add(vs, other);
            proof {
                assert forall|fuel: nat| fuel >= bound implies #[trigger] unify_fuel(a@, b@, fuel) == union_add_fuel(tys_view(variants@), b@, (fuel - 1) as nat) by {}
            }
            r
        },
        (_, Ty::Union(variants)) => {
            let vs = copy_tys(variants);
            let other = copy_ty(a);
            let r = union_add(vs, other);
            proof {
                assert forall|fuel: nat| fuel >= bound implies #[trigger] unify_fuel(a@, b@, fuel) == union_add_fuel(tys_view(variants@), a@, (fuel - 1) as nat) by {}
            }
            r
        },
        (Ty::Tagged { .. }, _) => Ok(pair_union(a, b)),
        (_, Ty::Tagged { .. }) => Ok(pair_union(a, b)),
        (Ty::MethodSetConstructor, Ty::MethodSetConstructor) => Ok(Ty::MethodSetConstructor),
        (Ty::MethodSet { id: id1, tag_id: t1 }, Ty::MethodSet { id: id2, tag_id: t2 }) => {
            if *id1 == *id2 && *t1 == *t2 {
                Ok(Ty::MethodSet { id: *id1, tag_id: *t1 })
            } else {
                Err(text("type error: cannot unify different method set types"))
            }
        },
        (Ty::IntLiteral, Ty::IntLiteral) => Ok(Ty::IntLiteral),
        (Ty::IntLiteral, Ty::Int) => Ok(Ty::Int),
        (Ty::Int, Ty::IntLiteral) => Ok(Ty::Int),
        (Ty::IntLiteral, Ty::Byte) => Ok(Ty::Byte),
        (Ty::Byte, Ty::IntLiteral) => Ok(Ty::Byte),
        (Ty::FloatLiteral, Ty::FloatLiteral) => Ok(Ty::FloatLiteral),
        (Ty::FloatLiteral, Ty::Float) => Ok(Ty::Float),
        (Ty::Float, Ty::FloatLiteral) => Ok(Ty::Float),
        _ => Err(mismatch_message(a, b)),
    }
}

/// Checks whether two types are compatible and returns the unified type.
/// `Infer` and `Generic` unify with anything (the other type is the
/// result); primitives must match exactly; arrays, functions and structs
/// (same field names in the same order) unify component-wise; tagged types
/// with the same tag unify their payloads, different tags (or a tagged and a
/// non-tagged type) form a union; anything unified with a union is merged
/// into it; `IntLiteral` coerces to `Int` or `Byte` and `FloatLiteral` to
/// `Float`. Every other pair is a type error.
pub fn unify(a: &Ty, b: &Ty) -> (r: Result<Ty, String>)
    ensures
        result_view(r) == spec_unify(a@, b@),
        unify_fuel(a@, b@, tsize(a@) + tsize(b@) + 1) is Some,
        r is Ok ==> tsize(r->Ok_0@) <= tsize(a@) + tsize(b@),
{
    let r = unify_inner(a, b);
    proof {
        assert(unify_fuel(a@, b@, tsize(a@) + tsize(b@) + 1) == Some(result_view(r)));
    }
    r
}

} // verus!

verus! {

// ── Generic substitution ────────────────────────────────────────

/// The model of a substitution map.
pub open spec fn map_view(m: Map<u64, Ty>) -> Map<u64, TyV> {
    m.map_values(|t: Ty| t@)
}

pub proof fn lemma_map_view_insert(m: Map<u64, Ty>, k: u64, v: Ty)
    ensures
        map_view(m.insert(k, v)) == map_view(m).insert(k, v@),
{
    assert(map_view(m.insert(k, v)) =~= map_view(m).insert(k, v@));
}

/// Unification that also records what each `Generic` variable stands for,
/// threading the substitution `s`; `None` when the fuel runs out. A
/// generic variable met for the first time is bound to the other type; one
/// already bound has its binding unified with the other type (and rebound
/// to the result).
pub open spec fn ugen_fuel(a: TyV, b: TyV, s: Map<u64, TyV>, fuel: nat) -> Option<
    (Result<TyV, Seq<char>>, Map<u64, TyV>),
>
    decreases fuel, 0nat,
{
    if fuel == 0 {
        None
    } else {
        let f = (fuel - 1) as nat;
        if a is Generic && b is Generic && a->Generic_0 == b->Generic_0 {
            Some((Ok(a), s))
        } else if a is Generic || b is Generic {
            let (id, other) = if a is Generic {
                (a->Generic_0, b)
            } else {
                (b->Generic_0, a)
            };
            if s.contains_key(id) {
                match ugen_fuel(s[id], other, s, f) {
                    None => None,
                    Some((Err(e), s2)) => Some((Err(e), s2)),
                    Some((Ok(u), s2)) => Some((Ok(u), s2.insert(id, u))),
                }
            } else {
                Some((Ok(other), s.insert(id, other)))
            }
        } else {
            match (a, b) {
                (TyV::Infer(_), _) => Some((Ok(b), s)),
                (_, TyV::Infer(_)) => Some((Ok(a), s)),
                (TyV::Array(e1), TyV::Array(e2)) => match ugen_fuel(*e1, *e2, s, f) {
                    None => None,
                    Some((Err(e), s2)) => Some((Err(e), s2)),
                    Some((Ok(t), s2)) => Some((Ok(TyV::Array(Box::new(t))), s2)),
                },
                (TyV::Fn(p1, r1), TyV::Fn(p2, r2)) => match ugen_fuel(*p1, *p2, s, f) {
                    None => None,
                    Some((Err(e), s2)) => Some((Err(e), s2)),
                    Some((Ok(p), s2)) => match ugen_fuel(*r1, *r2, s2, f) {
                        None => None,
                        Some((Err(e), s3)) => Some((Err(e), s3)),
                        Some((Ok(r), s3)) => Some((Ok(TyV::Fn(Box::new(p), Box::new(r))), s3)),
                    },
                },
                (TyV::Struct(f1), TyV::Struct(f2)) => if f1.len() != f2.len() {
                    Some((Err(struct_count_msg(f1.len(), f2.len())), s))
                } else {
                    match ugen_fields_fuel(f1, f2, s, f) {
                        None => None,
                        Some((Err(e), s2)) => Some((Err(e), s2)),
                        Some((Ok(fs), s2)) => Some((Ok(TyV::Struct(fs)), s2)),
                    }
                },
                _ => Some((spec_unify(a, b), s)),
            }
        }
    }
}

pub open spec fn ugen_fields_fuel(
    f1: Seq<(Seq<char>, TyV)>,
    f2: Seq<(Seq<char>, TyV)>,
    s: Map<u64, TyV>,
    fuel: nat,
) -> Option<(Result<Seq<(Seq<char>, TyV)>, Seq<char>>, Map<u64, TyV>)>
    decreases fuel, f1.len() + 1,
{
    if f1.len() == 0 {
        Some((Ok(seq![]), s))
    } else {
        match ugen_fields_fuel(f1.drop_last(), f2.drop_last(), s, fuel) {
            None => None,
            Some((Err(e), s2)) => Some((Err(e), s2)),
            Some((Ok(prefix), s2)) => {
                let (n1, t1) = f1.last();
                let (n2, t2) = f2.last();
                if n1 != n2 {
                    Some((Err(field_name_msg(n1, n2)), s2))
                } else {
                    match ugen_fuel(t1, t2, s2, fuel) {
                        None => None,
                        Some((Err(e), s3)) => Some((Err(e), s3)),
                        Some((Ok(t), s3)) => Some((Ok(prefix.push((n1, t))), s3)),
                    }
                }
            },
        }
    }
}

/// Whether unification with generics finishes on these inputs. It does not
/// when the substitution links generic variables in a cycle that the
/// unification walks through.
pub open spec fn ugen_terminates(a: TyV, b: TyV, s: Map<u64, TyV>) -> bool {
    exists|fuel: nat| #[trigger] ugen_fuel(a, b, s, fuel) is Some
}

/// The result and the final substitution of unification with generics.
pub open spec fn spec_unify_with_generics(a: TyV, b: TyV, s: Map<u64, TyV>) -> (
    Result<TyV, Seq<char>>,
    Map<u64, TyV>,
) {
    ugen_fuel(a, b, s, choose|fuel: nat| #[trigger] ugen_fuel(a, b, s, fuel) is Some).unwrap()
}

pub open spec fn wrap_struct(o: Option<(Result<Seq<(Seq<char>, TyV)>, Seq<char>>, Map<u64, TyV>)>) -> Option<(Result<TyV, Seq<char>>, Map<u64, TyV>)> {
    match o {
        None => None,
        Some((Err(e), s2)) => Some((Err(e), s2)),
        Some((Ok(fs), s2)) => Some((Ok(TyV::Struct(fs)), s2)),
    }
}

fn ugen_inner(a: &Ty, b: &Ty, subst: &mut std::collections::HashMap<u64, Ty>, Ghost(fuel): Ghost<nat>) -> (r: Result<Ty, String>)
    requires
        ugen_fuel(a@, b@, map_view(old(subst)@), fuel) is Some,
    ensures
        ugen_fuel(a@, b@, map_view(old(subst)@), fuel) == Some(
            (result_view(r), map_view(final(subst)@)),
        ),
    decreases fuel,
{
    broadcast use vstd::std_specs::hash::group_hash_axioms;
    let ghost s0 = map_view(subst@);
    let a_gen = match a { Ty::Generic(_) => true, _ => false };
    let b_gen = match b { Ty::Generic(_) => true, _ => false };
    if a_gen && b_gen && ty_eq(a, b) {
        return Ok(copy_ty(a));
    }
    if a_gen || b_gen {
        let (id, other): (u64, &Ty) = if a_gen {
            match a { Ty::Generic(i) => (*i, b), _ => (0, b) }
        } else {
            match b { Ty::Generic(i) => (*i, a), _ => (0, a) }
        };
        let existing = match subst.get(&id) {
            Some(t) => Some(copy_ty(t)),
            None => None,
        };
        match existing {
            Some(ex) => {
                proof {
                    assert(s0.contains_key(id));
                    assert(s0[id] == ex@);
                }
                let res = ugen_inner(&ex, other, subst, Ghost((fuel - 1) as nat));
                match res {
                    Err(e) => Err(e),
                    Ok(u) => {
                        let uc = copy_ty(&u);
                        let ghost before = subst@;
                        subst.insert(id, uc);
                        proof {
                            lemma_map_view_insert(before, id, uc);
                        }
                        Ok(u)
                    },
                }
            },
            None => {
                let oc = copy_ty(other);
                let ghost before = subst@;
                subst.insert(id, oc);
                proof {
                    lemma_map_view_insert(before, id, oc);
                    assert(!s0.contains_key(id));
                }
                Ok(copy_ty(other))
            },
        }
    } else {
        match (a, b) {
            (Ty::Infer(_), _) => Ok(copy_ty(b)),
            (_, Ty::Infer(_)) => Ok(copy_ty(a)),
            (Ty::Array(e1), Ty::Array(e2)) => {
                let r = ugen_inner(e1, e2, subst, Ghost((fuel - 1) as nat));
                match r {
                    Err(e) => Err(e),
                    Ok(t) => Ok(Ty::Array(Box::new(t))),
                }
            },
            (Ty::Fn { param: p1, ret: r1 }, Ty::Fn { param: p2, ret: r2 }) => {
                let rp = ugen_inner(p1, p2, subst, Ghost((fuel - 1) as nat));
                match rp {
                    Err(e) => Err(e),
                    Ok(p) => {
                        let rr = ugen_inner(r1, r2, subst, Ghost((fuel - 1) as nat));
                        match rr {
                            Err(e) => Err(e),
                            Ok(r) => Ok(Ty::Fn { param: Box::new(p), ret: Box::new(r) }),
                        }
                    },
                }
            },
            (Ty::Struct(f1), Ty::Struct(f2)) => {
                proof {
                    lemma_fields_view(f1@);
                    lemma_fields_view(f2@);
                }
                if f1.len() != f2.len() {
                    return Err(struct_count_message(f1.len(), f2.len()));
                }
                let ghost fv1 = fields_view(f1@);
                let ghost fv2 = fields_view(f2@);
                let ghost g = (fuel - 1) as nat;
                let mut unified: Vec<(String, Ty)> = Vec::new();
                let mut i: usize = 0;
                proof {
                    assert(fv1.take(0) =~= Seq::<(Seq<char>, TyV)>::empty());
                    assert(fv2.take(0) =~= Seq::<(Seq<char>, TyV)>::empty());
                    assert(fields_view(unified@) =~= Seq::<(Seq<char>, TyV)>::empty());
                    assert(ugen_fuel(a@, b@, s0, fuel) == wrap_struct(ugen_fields_fuel(fv1, fv2, s0, g)));
                    lemma_fields_err_prefix_some(fv1, fv2, s0, g, 0);
                }
                while i < f1.len()
                    invariant
                        f1.len() == f2.len(),
                        i <= f1.len(),
                        fv1 == fields_view(f1@),
                        fv2 == fields_view(f2@),
                        fv1.len() == f1.len(),
                        fv2.len() == f2.len(),
                        forall|k: int| 0 <= k < f1.len() ==> #[trigger] fv1[k] == (f1@[k].0@, f1@[k].1@),
                        forall|k: int| 0 <= k < f2.len() ==> #[trigger] fv2[k] == (f2@[k].0@, f2@[k].1@),
                        ugen_fields_fuel(fv1, fv2, s0, g) is Some,
                        ugen_fields_fuel(fv1.take(i as int), fv2.take(i as int), s0, g) == Some(
                            (Ok::<Seq<(Seq<char>, TyV)>, Seq<char>>(fields_view(unified@)), map_view(subst@)),
                        ),
                        ugen_fuel(a@, b@, s0, fuel) == wrap_struct(ugen_fields_fuel(fv1, fv2, s0, g)),
                        fuel > 0,
                        g == fuel - 1,
                        s0 == map_view(old(subst)@),
                    decreases f1.len() - i,
                {
                    let ghost sv = map_view(subst@);
                    proof {
                        assert(fv1.take(i + 1).drop_last() =~= fv1.take(i as int));
                        assert(fv2.take(i + 1).drop_last() =~= fv2.take(i as int));
                        lemma_fields_err_prefix_some(fv1, fv2, s0, g, i + 1);
                    }
                    if f1[i].0 != f2[i].0 {
                        let msg = field_name_message(&f1[i].0, &f2[i].0);
                        proof {
                            assert(fv1.take(i + 1).last() == fv1[i as int]);
                            assert(fv2.take(i + 1).last() == fv2[i as int]);
                            assert(ugen_fields_fuel(fv1.take(i + 1), fv2.take(i + 1), s0, g) == Some((Err::<Seq<(Seq<char>, TyV)>, Seq<char>>(msg@), sv)));
                            lemma_ugen_fields_err_extends(fv1, fv2, s0, g, i + 1);
                        }
                        return Err(msg);
                    }
                    let ur = ugen_inner(&f1[i].1, &f2[i].1, subst, Ghost(g));
                    match ur {
                        Err(e) => {
                            proof {
                                assert(fv1.take(i + 1).last() == fv1[i as int]);
                                assert(fv2.take(i + 1).last() == fv2[i as int]);
                                assert(ugen_fields_fuel(fv1.take(i + 1), fv2.take(i + 1), s0, g) == Some((Err::<Seq<(Seq<char>, TyV)>, Seq<char>>(e@), map_view(subst@))));
                                lemma_ugen_fields_err_extends(fv1, fv2, s0, g, i + 1);
                            }
                            return Err(e);
                        },
                        Ok(t) => {
                            let name = f1[i].0.clone();
                            let ghost before = unified@;
                            let ghost entry = (name, t);
                            unified.push((name, t));
                            proof {
                                lemma_fields_view_push(before, entry);
                            }
                        },
                    }
                    i = i + 1;
                }
                proof {
                    assert(fv1.take(i as int) =~= fv1);
                    assert(fv2.take(i as int) =~= fv2);
                }
                Ok(Ty::Struct(unified))
            },
            _ => unify(a, b),
        }
    }
}

/// A prefix of a terminating field list also terminates.
proof fn lemma_fields_err_prefix_some(
    f1: Seq<(Seq<char>, TyV)>,
    f2: Seq<(Seq<char>, TyV)>,
    s: Map<u64, TyV>,
    fuel: nat,
    m: int,
)
    requires
        0 <= m <= f1.len(),
        f1.len() == f2.len(),
        ugen_fields_fuel(f1, f2, s, fuel) is Some,
    ensures
        ugen_fields_fuel(f1.take(m), f2.take(m), s, fuel) is Some,
        ugen_fields_fuel(f1.take(m), f2.take(m), s, fuel) matches Some((Err(_), _)) ==> ugen_fields_fuel(f1, f2, s, fuel) == ugen_fields_fuel(f1.take(m), f2.take(m), s, fuel),
    decreases f1.len() - m,
{
    if m < f1.len() {
        assert(f1.drop_last().take(m) =~= f1.take(m));
        assert(f2.drop_last().take(m) =~= f2.take(m));
        lemma_fields_err_prefix_some(f1.drop_last(), f2.drop_last(), s, fuel, m);
    } else {
        assert(f1.take(m) =~= f1);
        assert(f2.take(m) =~= f2);
    }
}

proof fn lemma_ugen_fields_err_extends(
    f1: Seq<(Seq<char>, TyV)>,
    f2: Seq<(Seq<char>, TyV)>,
    s: Map<u64, TyV>,
    fuel: nat,
    m: int,
)
    requires
        0 <= m <= f1.len(),
        f1.len() == f2.len(),
        ugen_fields_fuel(f1, f2, s, fuel) is Some,
        ugen_fields_fuel(f1.take(m), f2.take(m), s, fuel) matches Some((Err(_), _)),
    ensures
        ugen_fields_fuel(f1, f2, s, fuel) == ugen_fields_fuel(f1.take(m), f2.take(m), s, fuel),
{
    lemma_fields_err_prefix_some(f1, f2, s, fuel, m);
}

/// Unifies two types while recording what each `Generic` variable stands
/// for in `subst`: a variable met for the first time is bound to the other
/// type; one already bound has its binding unified with the other type and
/// rebound to the result. Arrays, functions and structs are traversed;
/// everything else is plain unification.
pub fn unify_with_generics(a: &Ty, b: &Ty, subst: &mut std::collections::HashMap<u64, Ty>) -> (r: Result<Ty, String>)
    requires
        ugen_terminates(a@, b@, map_view(old(subst)@)),
    ensures
        spec_unify_with_generics(a@, b@, map_view(old(subst)@)) == (
            result_view(r),
            map_view(final(subst)@),
        ),
{
    let ghost fuel = choose|fuel: nat| #[trigger] ugen_fuel(a@, b@, map_view(subst@), fuel) is Some;
    ugen_inner(a, b, subst, Ghost(fuel))
}

} // verus!

verus! {

// ── Structural maps over types ──────────────────────────────────

/// Number of nodes of a type (every node, unions included, counts one).
pub open spec fn tnodes(t: TyV) -> nat
    decreases t,
{
    match t {
        TyV::Array(e) => 1 + tnodes(*e),
        TyV::Struct(fs) => 1 + fnodes(fs),
        TyV::Fn(p, r) => 1 + tnodes(*p) + tnodes(*r),
        TyV::Tagged(_, p) => 1 + tnodes(*p),
        TyV::Union(vs) => 1 + vnodes(vs),
        _ => 1,
    }
}

pub open spec fn fnodes(fs: Seq<(Seq<char>, TyV)>) -> nat
    decreases fs,
{
    if fs.len() == 0 {
        0
    } else {
        fnodes(fs.drop_last()) + tnodes(fs.last().1)
    }
}

pub open spec fn vnodes(vs: Seq<TyV>) -> nat
    decreases vs,
{
    if vs.len() == 0 {
        0
    } else {
        vnodes(vs.drop_last()) + tnodes(vs.last())
    }
}

pub proof fn lemma_fnodes_elem(fs: Seq<(Seq<char>, TyV)>, i: int)
    requires
        0 <= i < fs.len(),
    ensures
        tnodes(fs[i].1) <= fnodes(fs),
    decreases fs.len(),
{
    if i < fs.len() - 1 {
        lemma_fnodes_elem(fs.drop_last(), i);
    }
}

pub proof fn lemma_vnodes_elem(vs: Seq<TyV>, i: int)
    requires
        0 <= i < vs.len(),
    ensures
        tnodes(vs[i]) <= vnodes(vs),
    decreases vs.len(),
{
    if i < vs.len() - 1 {
        lemma_vnodes_elem(vs.drop_last(), i);
    }
}

/// Replaces each bound `Generic` variable by its binding, through arrays,
/// functions, structs, tagged payloads and unions.
pub open spec fn subst_spec(t: TyV, s: Map<u64, TyV>) -> TyV
    decreases t,
{
    match t {
        TyV::Generic(id) => if s.contains_key(id) {
            s[id]
        } else {
            t
        },
        TyV::Array(e) => TyV::Array(Box::new(subst_spec(*e, s))),
        TyV::Fn(p, r) => TyV::Fn(Box::new(subst_spec(*p, s)), Box::new(subst_spec(*r, s))),
        TyV::Struct(fs) => TyV::Struct(subst_fields(fs, s)),
        TyV::Tagged(id, p) => TyV::Tagged(id, Box::new(subst_spec(*p, s))),
        TyV::Union(vs) => TyV::Union(subst_tys(vs, s)),
        _ => t,
    }
}

pub open spec fn subst_fields(fs: Seq<(Seq<char>, TyV)>, s: Map<u64, TyV>) -> Seq<(Seq<char>, TyV)>
    decreases fs,
{
    if fs.len() == 0 {
        seq![]
    } else {
        subst_fields(fs.drop_last(), s).push((fs.last().0, subst_spec(fs.last().1, s)))
    }
}

pub open spec fn subst_tys(vs: Seq<TyV>, s: Map<u64, TyV>) -> Seq<TyV>
    decreases vs,
{
    if vs.len() == 0 {
        seq![]
    } else {
        subst_tys(vs.drop_last(), s).push(subst_spec(vs.last(), s))
    }
}

/// `IntLiteral` becomes `Int` and `FloatLiteral` becomes `Float`, through
/// arrays, structs, functions, tagged payloads and unions.
pub open spec fn default_spec(t: TyV) -> TyV
    decreases t,
{
    match t {
        TyV::IntLiteral => TyV::Int,
        TyV::FloatLiteral => TyV::Float,
        TyV::Array(e) => TyV::Array(Box::new(default_spec(*e))),
        TyV::Struct(fs) => TyV::Struct(default_fields(fs)),
        TyV::Fn(p, r) => TyV::Fn(Box::new(default_spec(*p)), Box::new(default_spec(*r))),
        TyV::Tagged(id, p) => TyV::Tagged(id, Box::new(default_spec(*p))),
        TyV::Union(vs) => TyV::Union(default_tys(vs)),
        _ => t,
    }
}

pub open spec fn default_fields(fs: Seq<(Seq<char>, TyV)>) -> Seq<(Seq<char>, TyV)>
    decreases fs,
{
    if fs.len() == 0 {
        seq![]
    } else {
        default_fields(fs.drop_last()).push((fs.last().0, default_spec(fs.last().1)))
    }
}

pub open spec fn default_tys(vs: Seq<TyV>) -> Seq<TyV>
    decreases vs,
{
    if vs.len() == 0 {
        seq![]
    } else {
        default_tys(vs.drop_last()).push(default_spec(vs.last()))
    }
}

/// Whether an inference variable occurs in a type.
pub open spec fn has_infer(t: TyV) -> bool
    decreases t,
{
    match t {
        TyV::Infer(_) => true,
        TyV::Array(e) => has_infer(*e),
        TyV::Fn(p, r) => has_infer(*p) || has_infer(*r),
        TyV::Struct(fs) => fields_have_infer(fs),
        TyV::Tagged(_, p) => has_infer(*p),
        TyV::Union(vs) => tys_have_infer(vs),
        _ => false,
    }
}

pub open spec fn fields_have_infer(fs: Seq<(Seq<char>, TyV)>) -> bool
    decreases fs,
{
    fs.len() > 0 && (fields_have_infer(fs.drop_last()) || has_infer(fs.last().1))
}

pub open spec fn tys_have_infer(vs: Seq<TyV>) -> bool
    decreases vs,
{
    vs.len() > 0 && (tys_have_infer(vs.drop_last()) || has_infer(vs.last()))
}

/// Applies a substitution, replacing each bound `Generic(id)` by its binding
/// (unbound variables stay as they are).
pub fn substitute_generics(ty: &Ty, subst: &std::collections::HashMap<u64, Ty>) -> (r: Ty)
    ensures
        r@ == subst_spec(ty@, map_view(subst@)),
    decreases ty,
{
    broadcast use vstd::std_specs::hash::group_hash_axioms;
    match ty {
        Ty::Generic(id) => match subst.get(id) {
            Some(t) => copy_ty(t),
            None => copy_ty(ty),
        },
        Ty::Array(elem) => Ty::Array(Box::new(substitute_generics(elem, subst))),
        Ty::Fn { param, ret } => Ty::Fn {
            param: Box::new(substitute_generics(param, subst)),
            ret: Box::new(substitute_generics(ret, subst)),
        },
        Ty::Struct(fields) => {
            let mut out: Vec<(String, Ty)> = Vec::new();
            let mut i: usize = 0;
            while i < fields.len()
                invariant
                    i <= fields.len(),
                    *ty == Ty::Struct(*fields),
                    fields_view(out@) == subst_fields(fields_view(fields@.take(i as int)), map_view(subst@)),
                decreases fields.len() - i,
            {
                proof {
                    assert(decreases_to!(*ty => (*ty)->Struct_0));
                    assert(decreases_to!(fields => fields@));
                    assert(decreases_to!(fields@ => fields@[i as int]));
                    assert(decreases_to!(fields@[i as int] => fields@[i as int].1));
                }
                let t = substitute_generics(&fields[i].1, subst);
                let name = fields[i].0.clone();
                let ghost before = out@;
                let ghost entry = (name, t);
                out.push((name, t));
                proof {
                    lemma_fields_view_push(before, entry);
                    assert(fields@.take(i + 1) =~= fields@.take(i as int).push(fields@[i as int]));
                    lemma_fields_view_push(fields@.take(i as int), fields@[i as int]);
                    let fv = fields_view(fields@.take(i as int)).push((fields@[i as int].0@, fields@[i as int].1@));
                    assert(fv.drop_last() =~= fields_view(fields@.take(i as int)));
                }
                i = i + 1;
            }
            proof {
                assert(fields@.take(i as int) =~= fields@);
            }
            Ty::Struct(out)
        },
        Ty::Tagged { tag_id, payload } => Ty::Tagged {
            tag_id: *tag_id,
            payload: Box::new(substitute_generics(payload, subst)),
        },
        Ty::Union(variants) => {
            let mut out: Vec<Ty> = Vec::new();
            let mut i: usize = 0;
            while i < variants.len()
                invariant
                    i <= variants.len(),
                    *ty == Ty::Union(*variants),
                    tys_view(out@) == subst_tys(tys_view(variants@.take(i as int)), map_view(subst@)),
                decreases variants.len() - i,
            {
                proof {
                    assert(decreases_to!(*ty => (*ty)->Union_0));
                    assert(decreases_to!(variants => variants@));
                    assert(decreases_to!(variants@ => variants@[i as int]));
                }
                let t = substitute_generics(&variants[i], subst);
                let ghost before = out@;
                out.push(t);
                proof {
                    lemma_tys_view_push(before, t);
                    assert(variants@.take(i + 1) =~= variants@.take(i as int).push(variants@[i as int]));
                    lemma_tys_view_push(variants@.take(i as int), variants@[i as int]);
                    let tv = tys_view(variants@.take(i as int)).push(variants@[i as int]@);
                    assert(tv.drop_last() =~= tys_view(variants@.take(i as int)));
                }
                i = i + 1;
            }
            proof {
                assert(variants@.take(i as int) =~= variants@);
            }
            Ty::Union(out)
        },
        _ => copy_ty(ty),
    }
}

/// Defaults unresolved literal types to their concrete forms: `IntLiteral`
/// becomes `Int` and `FloatLiteral` becomes `Float`, recursively through
/// compound types.
pub fn default_literals(ty: Ty) -> (r: Ty)
    ensures
        r@ == default_spec(ty@),
    decreases tnodes(ty@),
{
    match ty {
        Ty::IntLiteral => Ty::Int,
        Ty::FloatLiteral => Ty::Float,
        Ty::Array(elem) => Ty::Array(Box::new(default_literals(*elem))),
        Ty::Struct(fields) => {
            let ghost tv = ty@;
            proof {
                lemma_fields_view(fields@);
            }
            let mut out: Vec<(String, Ty)> = Vec::new();
            let mut i: usize = 0;
            while i < fields.len()
                invariant
                    i <= fields.len(),
                    tv == TyV::Struct(fields_view(fields@)),
                    tv == ty@,
                    tnodes(tv) == 1 + fnodes(fields_view(fields@)),
                    fields_view(fields@).len() == fields.len(),
                    forall|k: int| 0 <= k < fields.len() ==> #[trigger] fields_view(fields@)[k] == (fields@[k].0@, fields@[k].1@),
                    fields_view(out@) == default_fields(fields_view(fields@.take(i as int))),
                decreases fields.len() - i,
            {
                proof {
                    lemma_fnodes_elem(fields_view(fields@), i as int);
                }
                let c = copy_ty(&fields[i].1);
                let t = default_literals(c);
                let name = fields[i].0.clone();
                let ghost before = out@;
                let ghost entry = (name, t);
                out.push((name, t));
                proof {
                    lemma_fields_view_push(before, entry);
                    assert(fields@.take(i + 1) =~= fields@.take(i as int).push(fields@[i as int]));
                    lemma_fields_view_push(fields@.take(i as int), fields@[i as int]);
                    let fv = fields_view(fields@.take(i as int)).push((fields@[i as int].0@, fields@[i as int].1@));
                    assert(fv.drop_last() =~= fields_view(fields@.take(i as int)));
                }
                i = i + 1;
            }
            proof {
                assert(fields@.take(i as int) =~= fields@);
            }
            Ty::Struct(out)
        },
        Ty::Fn { param, ret } => Ty::Fn {
            param: Box::new(default_literals(*param)),
            ret: Box::new(default_literals(*ret)),
        },
        Ty::Tagged { tag_id, payload } => Ty::Tagged {
            tag_id,
            payload: Box::new(default_literals(*payload)),
        },
        Ty::Union(variants) => {
            let ghost tv = ty@;
            proof {
                lemma_tys_view(variants@);
            }
            let mut out: Vec<Ty> = Vec::new();
            let mut i: usize = 0;
            while i < variants.len()
                invariant
                    i <= variants.len(),
                    tv == TyV::Union(tys_view(variants@)),
                    tv == ty@,
                    tnodes(tv) == 1 + vnodes(tys_view(variants@)),
                    tys_view(variants@).len() == variants.len(),
                    forall|k: int| 0 <= k < variants.len() ==> #[trigger] tys_view(variants@)[k] == variants@[k]@,
                    tys_view(out@) == default_tys(tys_view(variants@.take(i as int))),
                decreases variants.len() - i,
            {
                proof {
                    lemma_vnodes_elem(tys_view(variants@), i as int);
                }
                let c = copy_ty(&variants[i]);
                let t = default_literals(c);
                let ghost before = out@;
                out.push(t);
                proof {
                    lemma_tys_view_push(before, t);
                    assert(variants@.take(i + 1) =~= variants@.take(i as int).push(variants@[i as int]));
                    lemma_tys_view_push(variants@.take(i as int), variants@[i as int]);
                    let v = tys_view(variants@.take(i as int)).push(variants@[i as int]@);
                    assert(v.drop_last() =~= tys_view(variants@.take(i as int)));
                }
                i = i + 1;
            }
            proof {
                assert(variants@.take(i as int) =~= variants@);
            }
            Ty::Union(out)
        },
        other => other,
    }
}

impl Ty {
    /// Whether the type contains an unresolved inference variable (which, in
    /// a final result type, indicates an inference failure).
    pub fn contains_infer(&self) -> (r: bool)
        ensures
            r == has_infer(self@),
        decreases self,
    {
        match self {
            Ty::Infer(_) => true,
            Ty::Array(elem) => elem.contains_infer(),
            Ty::Fn { param, ret } => param.contains_infer() || ret.contains_infer(),
            Ty::Struct(fields) => {
                let mut i: usize = 0;
                while i < fields.len()
                    invariant
                        i <= fields.len(),
                        *self == Ty::Struct(*fields),
                        !fields_have_infer(fields_view(fields@.take(i as int))),
                    decreases fields.len() - i,
                {
                    proof {
                        assert(decreases_to!(*self => (*self)->Struct_0));
                        assert(decreases_to!(fields => fields@));
                        assert(decreases_to!(fields@ => fields@[i as int]));
                        assert(decreases_to!(fields@[i as int] => fields@[i as int].1));
                        assert(fields@.take(i + 1) =~= fields@.take(i as int).push(fields@[i as int]));
                        lemma_fields_view_push(fields@.take(i as int), fields@[i as int]);
                        let fv = fields_view(fields@.take(i as int)).push((fields@[i as int].0@, fields@[i as int].1@));
                        assert(fv.drop_last() =~= fields_view(fields@.take(i as int)));
                    }
                    if fields[i].1.contains_infer() {
                        proof {
                            lemma_fields_view(fields@);
                            lemma_fields_have_infer_prefix(fields_view(fields@), i + 1);
                            lemma_fields_view_take(fields@, i + 1);
                        }
                        return true;
                    }
                    i = i + 1;
                }
                proof {
                    assert(fields@.take(i as int) =~= fields@);
                }
                false
            },
            Ty::Tagged { payload, .. } => payload.contains_infer(),
            Ty::Union(variants) => {
                let mut i: usize = 0;
                while i < variants.len()
                    invariant
                        i <= variants.len(),
                        *self == Ty::Union(*variants),
                        !tys_have_infer(tys_view(variants@.take(i as int))),
                    decreases variants.len() - i,
                {
                    proof {
                        assert(decreases_to!(*self => (*self)->Union_0));
                        assert(decreases_to!(variants => variants@));
                        assert(decreases_to!(variants@ => variants@[i as int]));
                        assert(variants@.take(i + 1) =~= variants@.take(i as int).push(variants@[i as int]));
                        lemma_tys_view_push(variants@.take(i as int), variants@[i as int]);
                        let v = tys_view(variants@.take(i as int)).push(variants@[i as int]@);
                        assert(v.drop_last() =~= tys_view(variants@.take(i as int)));
                    }
                    if variants[i].contains_infer() {
                        proof {
                            lemma_tys_view(variants@);
                            lemma_tys_have_infer_prefix(tys_view(variants@), i + 1);
                            lemma_tys_view_take(variants@, i + 1);
                        }
                        return true;
                    }
                    i = i + 1;
                }
                proof {
                    assert(variants@.take(i as int) =~= variants@);
                }
                false
            },
            _ => false,
        }
    }
}

pub proof fn lemma_fields_view_take(fs: Seq<(String, Ty)>, k: int)
    requires
        0 <= k <= fs.len(),
    ensures
        fields_view(fs.take(k)) == fields_view(fs).take(k),
{
    lemma_fields_view(fs);
    lemma_fields_view(fs.take(k));
    assert(fields_view(fs.take(k)) =~= fields_view(fs).take(k));
}

pub proof fn lemma_tys_view_take(vs: Seq<Ty>, k: int)
    requires
        0 <= k <= vs.len(),
    ensures
        tys_view(vs.take(k)) == tys_view(vs).take(k),
{
    lemma_tys_view(vs);
    lemma_tys_view(vs.take(k));
    assert(tys_view(vs.take(k)) =~= tys_view(vs).take(k));
}

pub proof fn lemma_fields_have_infer_prefix(fs: Seq<(Seq<char>, TyV)>, k: int)
    requires
        0 <= k <= fs.len(),
        fields_have_infer(fs.take(k)),
    ensures
        fields_have_infer(fs),
    decreases fs.len(),
{
    if k < fs.len() {
        assert(fs.drop_last().take(k) =~= fs.take(k));
        lemma_fields_have_infer_prefix(fs.drop_last(), k);
    } else {
        assert(fs.take(k) =~= fs);
    }
}

pub proof fn lemma_tys_have_infer_prefix(vs: Seq<TyV>, k: int)
    requires
        0 <= k <= vs.len(),
        tys_have_infer(vs.take(k)),
    ensures
        tys_have_infer(vs),
    decreases vs.len(),
{
    if k < vs.len() {
        assert(vs.drop_last().take(k) =~= vs.take(k));
        lemma_tys_have_infer_prefix(vs.drop_last(), k);
    } else {
        assert(vs.take(k) =~= vs);
    }
}

} // verus!

verus! {

// ── Method-call argument types ──────────────────────────────────

/// The built-in tag id that a type dispatches methods on, if any.
pub open spec fn spec_ty_to_tag_id(t: TyV) -> Option<u64> {
    match t {
        TyV::Int | TyV::IntLiteral => Some(TAG_ID_INT),
        TyV::Float | TyV::FloatLiteral => Some(TAG_ID_FLOAT),
        TyV::Bool => Some(TAG_ID_BOOL),
        TyV::Str => Some(TAG_ID_STRING),
        TyV::Char => Some(TAG_ID_CHAR),
        TyV::Byte => Some(TAG_ID_BYTE),
        TyV::Array(_) => Some(TAG_ID_ARRAY),
        TyV::Unit => Some(TAG_ID_UNIT),
        TyV::Tagged(id, _) => Some(id),
        _ => None,
    }
}

/// Maps a type to the tag id used for method-set dispatch.
pub fn ty_to_tag_id(ty: &Ty) -> (r: Option<TagId>)
    ensures
        r == spec_ty_to_tag_id(ty@),
{
    match ty {
        Ty::Int | Ty::IntLiteral => Some(TAG_ID_INT),
        Ty::Float | Ty::FloatLiteral => Some(TAG_ID_FLOAT),
        Ty::Bool => Some(TAG_ID_BOOL),
        Ty::String => Some(TAG_ID_STRING),
        Ty::Char => Some(TAG_ID_CHAR),
        Ty::Byte => Some(TAG_ID_BYTE),
        Ty::Array(_) => Some(TAG_ID_ARRAY),
        Ty::Unit => Some(TAG_ID_UNIT),
        Ty::Tagged { tag_id, .. } => Some(*tag_id),
        _ => None,
    }
}

/// A positional label shifts up by one; any other label stays.
pub open spec fn shifted_label(l: Seq<char>) -> Seq<char> {
    match parse_u64_spec(l) {
        Some(n) => decimal((n + 1) as nat),
        None => l,
    }
}

pub open spec fn shifted_fields(fs: Seq<(Seq<char>, TyV)>) -> Seq<(Seq<char>, TyV)>
    decreases fs.len(),
{
    if fs.len() == 0 {
        seq![]
    } else {
        shifted_fields(fs.drop_last()).push((shifted_label(fs.last().0), fs.last().1))
    }
}

/// The type of `recv.method(arg)`'s argument once the receiver is prepended:
/// a unit argument leaves the receiver alone; a struct argument gets the
/// receiver as field `0` and its positional labels shifted by one; any other
/// argument becomes the pair `(0 = recv, 1 = arg)`.
pub open spec fn spec_prepend_arg_ty(recv: TyV, arg: TyV) -> TyV {
    match arg {
        TyV::Unit => recv,
        TyV::Struct(fs) => TyV::Struct(seq![("0"@, recv)] + shifted_fields(fs)),
        _ => TyV::Struct(seq![("0"@, recv), ("1"@, arg)]),
    }
}

/// No label of a struct argument is the largest positional label (whose
/// successor would overflow).
pub open spec fn prepend_arg_ok(arg: TyV) -> bool {
    arg matches TyV::Struct(fs) ==> forall|i: int|
        0 <= i < fs.len() ==> parse_u64_spec(#[trigger] fs[i].0) != Some(u64::MAX)
}

/// Type-level counterpart of prepending the receiver to a method call's
/// argument.
pub fn prepend_arg_ty(recv_ty: &Ty, arg_ty: &Ty) -> (r: Ty)
    requires
        prepend_arg_ok(arg_ty@),
    ensures
        r@ == spec_prepend_arg_ty(recv_ty@, arg_ty@),
{
    match arg_ty {
        Ty::Unit => copy_ty(recv_ty),
        Ty::Struct(fields) => {
            proof {
                lemma_fields_view(fields@);
            }
            let mut new_fields: Vec<(String, Ty)> = Vec::new();
            new_fields.push((text("0"), copy_ty(recv_ty)));
            proof {
                assert(fields_view(new_fields@) == fields_view(Seq::<(String, Ty)>::empty()).push(("0"@, recv_ty@))) by {
                    assert(new_fields@.drop_last() =~= Seq::<(String, Ty)>::empty());
                }
                assert(fields_view(new_fields@) =~= seq![("0"@, recv_ty@)] + shifted_fields(fields_view(fields@).take(0)));
            }
            let mut i: usize = 0;
            while i < fields.len()
                invariant
                    i <= fields.len(),
                    *arg_ty == Ty::Struct(*fields),
                    prepend_arg_ok(arg_ty@),
                    fields_view(fields@).len() == fields.len(),
                    forall|k: int| 0 <= k < fields.len() ==> #[trigger] fields_view(fields@)[k] == (fields@[k].0@, fields@[k].1@),
                    fields_view(new_fields@) == seq![("0"@, recv_ty@)] + shifted_fields(fields_view(fields@).take(i as int)),
                decreases fields.len() - i,
            {
                let label = &fields[i].0;
                let ty = copy_ty(&fields[i].1);
                let new_label = match parse_u64(label.as_str()) {
                    Some(n) => {
                        assert(fields_view(fields@)[i as int].0 == label@);
                        u64_decimal(n + 1)
                    },
                    None => label.clone(),
                };
                let ghost before = new_fields@;
                let ghost entry = (new_label, ty);
                new_fields.push((new_label, ty));
                proof {
                    lemma_fields_view_push(before, entry);
                    let fv = fields_view(fields@);
                    assert(fv.take(i + 1).drop_last() =~= fv.take(i as int));
                    assert(fv.take(i + 1).last() == fv[i as int]);
                    assert(fields_view(new_fields@) =~= seq![("0"@, recv_ty@)] + shifted_fields(fv.take(i + 1)));
                }
                i = i + 1;
            }
            proof {
                assert(fields_view(fields@).take(i as int) =~= fields_view(fields@));
            }
            Ty::Struct(new_fields)
        },
        _ => {
            let mut v: Vec<(String, Ty)> = Vec::new();
            v.push((text("0"), copy_ty(recv_ty)));
            v.push((text("1"), copy_ty(arg_ty)));
            proof {
                lemma_fields_view(v@);
                assert(fields_view(v@) =~= seq![("0"@, recv_ty@), ("1"@, arg_ty@)]);
            }
            Ty::Struct(v)
        },
    }
}

} // verus!

verus! {

// ── Laws ────────────────────────────────────────────────────────

/// Whether a numeric literal type occurs in a type.
pub open spec fn has_literal(t: TyV) -> bool
    decreases t,
{
    match t {
        TyV::IntLiteral | TyV::FloatLiteral => true,
        TyV::Array(e) => has_literal(*e),
        TyV::Fn(p, r) => has_literal(*p) || has_literal(*r),
        TyV::Struct(fs) => exists|i: int| 0 <= i < fs.len() && has_literal(#[trigger] fs[i].1),
        TyV::Tagged(_, p) => has_literal(*p),
        TyV::Union(vs) => exists|i: int| 0 <= i < vs.len() && has_literal(#[trigger] vs[i]),
        _ => false,
    }
}

proof fn lemma_default_fields_index(fs: Seq<(Seq<char>, TyV)>)
    ensures
        default_fields(fs).len() == fs.len(),
        forall|i: int| 0 <= i < fs.len() ==> #[trigger] default_fields(fs)[i] == (fs[i].0, default_spec(fs[i].1)),
    decreases fs.len(),
{
    if fs.len() > 0 {
        lemma_default_fields_index(fs.drop_last());
    }
}

proof fn lemma_default_tys_index(vs: Seq<TyV>)
    ensures
        default_tys(vs).len() == vs.len(),
        forall|i: int| 0 <= i < vs.len() ==> #[trigger] default_tys(vs)[i] == default_spec(vs[i]),
    decreases vs.len(),
{
    if vs.len() > 0 {
        lemma_default_tys_index(vs.drop_last());
    }
}

/// Defaulting leaves no literal type behind, and defaulting twice is the
/// same as defaulting once.
pub proof fn law_default_literals_resolves_all(t: TyV)
    ensures
        !has_literal(default_spec(t)),
        default_spec(default_spec(t)) == default_spec(t),
    decreases t,
{
    match t {
        TyV::Array(e) => law_default_literals_resolves_all(*e),
        TyV::Fn(p, r) => {
            law_default_literals_resolves_all(*p);
            law_default_literals_resolves_all(*r);
        },
        TyV::Tagged(_, p) => law_default_literals_resolves_all(*p),
        TyV::Struct(fs) => {
            lemma_default_fields_index(fs);
            let d = default_fields(fs);
            lemma_default_fields_index(d);
            assert forall|i: int| 0 <= i < fs.len() implies !has_literal(#[trigger] d[i].1) && default_spec(d[i].1) == d[i].1 by {
                law_default_literals_resolves_all(fs[i].1);
            }
            assert(default_fields(d) =~= d);
        },
        TyV::Union(vs) => {
            lemma_default_tys_index(vs);
            let d = default_tys(vs);
            lemma_default_tys_index(d);
            assert forall|i: int| 0 <= i < vs.len() implies !has_literal(#[trigger] d[i]) && default_spec(d[i]) == d[i] by {
                law_default_literals_resolves_all(vs[i]);
            }
            assert(default_tys(d) =~= d);
        },
        _ => {},
    }
}

proof fn lemma_subst_fields_index(fs: Seq<(Seq<char>, TyV)>, s: Map<u64, TyV>)
    ensures
        subst_fields(fs, s).len() == fs.len(),
        forall|i: int| 0 <= i < fs.len() ==> #[trigger] subst_fields(fs, s)[i] == (fs[i].0, subst_spec(fs[i].1, s)),
    decreases fs.len(),
{
    if fs.len() > 0 {
        lemma_subst_fields_index(fs.drop_last(), s);
    }
}

proof fn lemma_subst_tys_index(vs: Seq<TyV>, s: Map<u64, TyV>)
    ensures
        subst_tys(vs, s).len() == vs.len(),
        forall|i: int| 0 <= i < vs.len() ==> #[trigger] subst_tys(vs, s)[i] == subst_spec(vs[i], s),
    decreases vs.len(),
{
    if vs.len() > 0 {
        lemma_subst_tys_index(vs.drop_last(), s);
    }
}

/// Substituting with no bindings changes nothing.
pub proof fn law_substitute_empty_is_identity(t: TyV)
    ensures
        subst_spec(t, Map::empty()) == t,
    decreases t,
{
    let s = Map::<u64, TyV>::empty();
    match t {
        TyV::Array(e) => law_substitute_empty_is_identity(*e),
        TyV::Fn(p, r) => {
            law_substitute_empty_is_identity(*p);
            law_substitute_empty_is_identity(*r);
        },
        TyV::Tagged(_, p) => law_substitute_empty_is_identity(*p),
        TyV::Struct(fs) => {
            lemma_subst_fields_index(fs, s);
            assert forall|i: int| 0 <= i < fs.len() implies #[trigger] subst_fields(fs, s)[i] == fs[i] by {
                law_substitute_empty_is_identity(fs[i].1);
            }
            assert(subst_fields(fs, s) =~= fs);
        },
        TyV::Union(vs) => {
            lemma_subst_tys_index(vs, s);
            assert forall|i: int| 0 <= i < vs.len() implies #[trigger] subst_tys(vs, s)[i] == vs[i] by {
                law_substitute_empty_is_identity(vs[i]);
            }
            assert(subst_tys(vs, s) =~= vs);
        },
        _ => {},
    }
}

/// An inference variable on the left unifies with any type, and the result
/// is that type.
pub proof fn law_unify_infer_left(n: u64, t: TyV)
    ensures
        spec_unify(TyV::Infer(n), t) == Ok::<TyV, Seq<char>>(t),
{
}

/// An inference variable on the right unifies with any type that is not
/// itself an inference variable, and the result is that type.
pub proof fn law_unify_infer_right(n: u64, t: TyV)
    requires
        !(t is Infer),
    ensures
        spec_unify(t, TyV::Infer(n)) == Ok::<TyV, Seq<char>>(t),
{
}

} // verus!

verus! {

/// Whether no union occurs anywhere in a type.
pub open spec fn union_free(t: TyV) -> bool
    decreases t,
{
    match t {
        TyV::Union(_) => false,
        TyV::Array(e) => union_free(*e),
        TyV::Fn(p, r) => union_free(*p) && union_free(*r),
        TyV::Struct(fs) => forall|i: int| 0 <= i < fs.len() ==> union_free(#[trigger] fs[i].1),
        TyV::Tagged(_, p) => union_free(*p),
        _ => true,
    }
}

proof fn lemma_unify_fields_self(fs: Seq<(Seq<char>, TyV)>, fuel: nat)
    requires
        forall|i: int| 0 <= i < fs.len() ==> #[trigger] unify_fuel(fs[i].1, fs[i].1, fuel) == Some(Ok::<TyV, Seq<char>>(fs[i].1)),
    ensures
        unify_fields_fuel(fs, fs, fuel) == Some(Ok::<Seq<(Seq<char>, TyV)>, Seq<char>>(fs)),
    decreases fs.len(),
{
    if fs.len() > 0 {
        let d = fs.drop_last();
        assert forall|i: int| 0 <= i < d.len() implies #[trigger] unify_fuel(d[i].1, d[i].1, fuel) == Some(Ok::<TyV, Seq<char>>(d[i].1)) by {
            assert(d[i] == fs[i]);
        }
        lemma_unify_fields_self(d, fuel);
        assert((fs.last().0, fs.last().1) == fs.last());
        assert(fs.drop_last().push(fs.last()) =~= fs);
        assert(unify_fuel(fs[fs.len() - 1].1, fs[fs.len() - 1].1, fuel) == Some(Ok::<TyV, Seq<char>>(fs[fs.len() - 1].1)));
        assert(fs.last() == fs[fs.len() - 1]);
    } else {
        assert(fs =~= Seq::<(Seq<char>, TyV)>::empty());
    }
}

proof fn lemma_unify_self_fuel(t: TyV, fuel: nat)
    requires
        union_free(t),
        fuel >= 2 * tsize(t) + 1,
    ensures
        unify_fuel(t, t, fuel) == Some(Ok::<TyV, Seq<char>>(t)),
    decreases t,
{
    let g = (fuel - 1) as nat;
    match t {
        TyV::Array(e) => lemma_unify_self_fuel(*e, g),
        TyV::Fn(p, r) => {
            lemma_unify_self_fuel(*p, g);
            lemma_unify_self_fuel(*r, g);
        },
        TyV::Tagged(_, p) => lemma_unify_self_fuel(*p, g),
        TyV::Struct(fs) => {
            assert forall|i: int| 0 <= i < fs.len() implies #[trigger] unify_fuel(fs[i].1, fs[i].1, g) == Some(Ok::<TyV, Seq<char>>(fs[i].1)) by {
                lemma_fsize_elem(fs, i);
                lemma_unify_self_fuel(fs[i].1, g);
            }
            lemma_unify_fields_self(fs, g);
        },
        _ => {},
    }
}

/// A type without unions unifies with itself, giving itself back.
pub proof fn law_unify_reflexive(t: TyV)
    requires
        union_free(t),
    ensures
        spec_unify(t, t) == Ok::<TyV, Seq<char>>(t),
{
    lemma_unify_self_fuel(t, tsize(t) + tsize(t) + 1);
}

/// Whether a type has no inference variable, generic, tagged type or union
/// at any depth.
pub open spec fn plain(t: TyV) -> bool
    decreases t,
{
    match t {
        TyV::Infer(_) => false,
        TyV::Generic(_) => false,
        TyV::Tagged(_, _) => false,
        TyV::Union(_) => false,
        TyV::Array(e) => plain(*e),
        TyV::Fn(p, r) => plain(*p) && plain(*r),
        TyV::Struct(fs) => forall|i: int| 0 <= i < fs.len() ==> plain(#[trigger] fs[i].1),
        _ => true,
    }
}

/// Two outcomes of unification agree: both run out of fuel, both fail, or
/// both succeed with the same value.
pub open spec fn agree<T>(r1: Option<Result<T, Seq<char>>>, r2: Option<Result<T, Seq<char>>>) -> bool {
    match r1 {
        None => r2 is None,
        Some(Ok(x)) => r2 == Some(Ok::<T, Seq<char>>(x)),
        Some(Err(_)) => r2 matches Some(Err(_)),
    }
}

proof fn lemma_unify_fuel_symmetric(a: TyV, b: TyV, fuel: nat)
    requires
        plain(a),
        plain(b),
    ensures
        agree(unify_fuel(a, b, fuel), unify_fuel(b, a, fuel)),
    decreases fuel, 0nat,
{
    if fuel > 0 {
        let f = (fuel - 1) as nat;
        match (a, b) {
            (TyV::Array(e1), TyV::Array(e2)) => lemma_unify_fuel_symmetric(*e1, *e2, f),
            (TyV::Fn(p1, r1), TyV::Fn(p2, r2)) => {
                lemma_unify_fuel_symmetric(*p1, *p2, f);
                lemma_unify_fuel_symmetric(*r1, *r2, f);
            },
            (TyV::Struct(f1), TyV::Struct(f2)) => if f1.len() == f2.len() {
                lemma_unify_fields_symmetric(f1, f2, f);
            },
            _ => {},
        }
    }
}

proof fn lemma_unify_fields_symmetric(f1: Seq<(Seq<char>, TyV)>, f2: Seq<(Seq<char>, TyV)>, fuel: nat)
    requires
        f1.len() == f2.len(),
        forall|i: int| 0 <= i < f1.len() ==> plain(#[trigger] f1[i].1),
        forall|i: int| 0 <= i < f2.len() ==> plain(#[trigger] f2[i].1),
    ensures
        agree(unify_fields_fuel(f1, f2, fuel), unify_fields_fuel(f2, f1, fuel)),
    decreases fuel, f1.len() + 1,
{
    if f1.len() > 0 {
        let d1 = f1.drop_last();
        let d2 = f2.drop_last();
        assert forall|i: int| 0 <= i < d1.len() implies plain(#[trigger] d1[i].1) by {
            assert(d1[i] == f1[i]);
        }
        assert forall|i: int| 0 <= i < d2.len() implies plain(#[trigger] d2[i].1) by {
            assert(d2[i] == f2[i]);
        }
        lemma_unify_fields_symmetric(d1, d2, fuel);
        assert(plain(f1[f1.len() - 1].1));
        assert(plain(f2[f2.len() - 1].1));
        lemma_unify_fuel_symmetric(f1.last().1, f2.last().1, fuel);
    }
}

/// For types without inference variables, generics, tagged types or unions,
/// unification does not depend on the order of its arguments: both orders
/// fail, or both give the same type.
pub proof fn law_unify_symmetric(a: TyV, b: TyV)
    requires
        plain(a),
        plain(b),
    ensures
        spec_unify(a, b) is Ok <==> spec_unify(b, a) is Ok,
        spec_unify(a, b) is Ok ==> spec_unify(a, b) == spec_unify(b, a),
{
    lemma_unify_fuel_symmetric(a, b, tsize(a) + tsize(b) + 1);
    assert(tsize(a) + tsize(b) + 1 == tsize(b) + tsize(a) + 1);
}

/// Whether a type is a primitive type or a literal type.
pub open spec fn primitive(t: TyV) -> bool {
    t is Int || t is Float || t is Bool || t is Str || t is Char || t is Byte || t is Unit
        || t is IntLiteral || t is FloatLiteral
}

/// Two primitive or literal types unify exactly when they are equal, or
/// when one is the integer literal type and the other `Int` or `Byte`, or
/// one is the float literal type and the other `Float`.
pub proof fn law_unify_primitives(p: TyV, q: TyV)
    requires
        primitive(p),
        primitive(q),
    ensures
        spec_unify(p, q) is Ok <==> (p == q || (p is IntLiteral && (q is Int || q is Byte)) || (q is IntLiteral
            && (p is Int || p is Byte)) || (p is FloatLiteral && q is Float) || (q is FloatLiteral && p is Float)),
{
}

/// Whether every union in a type is flat: none of its variants is itself
/// a union.
pub open spec fn flat(t: TyV) -> bool
    decreases t,
{
    match t {
        TyV::Union(vs) => forall|i: int| 0 <= i < vs.len() ==> !(#[trigger] vs[i] is Union) && flat(vs[i]),
        TyV::Array(e) => flat(*e),
        TyV::Fn(p, r) => flat(*p) && flat(*r),
        TyV::Struct(fs) => forall|i: int| 0 <= i < fs.len() ==> flat(#[trigger] fs[i].1),
        TyV::Tagged(_, p) => flat(*p),
        _ => true,
    }
}

pub open spec fn flat_variant(t: TyV) -> bool {
    !(t is Union) && flat(t)
}

proof fn lemma_flat_unify(a: TyV, b: TyV, fuel: nat)
    requires
        flat(a),
        flat(b),
        unify_fuel(a, b, fuel) matches Some(Ok(_)),
    ensures
        flat(unify_fuel(a, b, fuel).unwrap()->Ok_0),
    decreases fuel, 0nat,
{
    let f = (fuel - 1) as nat;
    match (a, b) {
        (TyV::Infer(_), _) => {},
        (_, TyV::Infer(_)) => {},
        (TyV::Generic(_), _) => {},
        (_, TyV::Generic(_)) => {},
        (TyV::Array(e1), TyV::Array(e2)) => {
            lemma_flat_unify(*e1, *e2, f);
        },
        (TyV::Fn(p1, r1), TyV::Fn(p2, r2)) => {
            lemma_flat_unify(*p1, *p2, f);
            lemma_flat_unify(*r1, *r2, f);
        },
        (TyV::Struct(f1), TyV::Struct(f2)) => {
            if f1.len() == f2.len() {
                lemma_flat_fields(f1, f2, f);
            }
        },
        (TyV::Tagged(i1, p1), TyV::Tagged(i2, p2)) => {
            if i1 == i2 {
                lemma_flat_unify(*p1, *p2, f);
            } else {
                let u = seq![a, b];
                assert forall|i: int| 0 <= i < u.len() implies !(#[trigger] u[i] is Union) && flat(u[i]) by {}
            }
        },
        (TyV::Union(vs), _) => {
            assert forall|i: int| 0 <= i < union_items(b).len() implies flat_variant(#[trigger] union_items(b)[i]) by {}
            assert forall|i: int| 0 <= i < vs.len() implies flat_variant(#[trigger] vs[i]) by {}
            lemma_flat_union_add(vs, b, f);
        },
        (_, TyV::Union(vs)) => {
            assert forall|i: int| 0 <= i < union_items(a).len() implies flat_variant(#[trigger] union_items(a)[i]) by {}
            assert forall|i: int| 0 <= i < vs.len() implies flat_variant(#[trigger] vs[i]) by {}
            lemma_flat_union_add(vs, a, f);
        },
        (TyV::Tagged(_, _), _) => {
            let u = seq![a, b];
            assert forall|i: int| 0 <= i < u.len() implies !(#[trigger] u[i] is Union) && flat(u[i]) by {}
        },
        (_, TyV::Tagged(_, _)) => {
            let u = seq![a, b];
            assert forall|i: int| 0 <= i < u.len() implies !(#[trigger] u[i] is Union) && flat(u[i]) by {}
        },
        _ => {},
    }
}

proof fn lemma_flat_fields(f1: Seq<(Seq<char>, TyV)>, f2: Seq<(Seq<char>, TyV)>, fuel: nat)
    requires
        f1.len() == f2.len(),
        forall|i: int| 0 <= i < f1.len() ==> flat(#[trigger] f1[i].1),
        forall|i: int| 0 <= i < f2.len() ==> flat(#[trigger] f2[i].1),
        unify_fields_fuel(f1, f2, fuel) matches Some(Ok(_)),
    ensures
        forall|i: int|
            0 <= i < unify_fields_fuel(f1, f2, fuel).unwrap()->Ok_0.len() ==> flat(
                #[trigger] unify_fields_fuel(f1, f2, fuel).unwrap()->Ok_0[i].1,
            ),
    decreases fuel, f1.len() + 1,
{
    if f1.len() > 0 {
        let d1 = f1.drop_last();
        let d2 = f2.drop_last();
        assert forall|i: int| 0 <= i < d1.len() implies flat(#[trigger] d1[i].1) by {
            assert(d1[i] == f1[i]);
        }
        assert forall|i: int| 0 <= i < d2.len() implies flat(#[trigger] d2[i].1) by {
            assert(d2[i] == f2[i]);
        }
        lemma_flat_fields(d1, d2, fuel);
        let prefix = unify_fields_fuel(d1, d2, fuel).unwrap()->Ok_0;
        let (n1, t1) = f1.last();
        let (n2, t2) = f2.last();
        assert(flat(t1) && flat(t2)) by {
            assert(f1.last() == f1[f1.len() - 1]);
            assert(f2.last() == f2[f2.len() - 1]);
        }
        lemma_flat_unify(t1, t2, fuel);
        let out = unify_fields_fuel(f1, f2, fuel).unwrap()->Ok_0;
        assert forall|i: int| 0 <= i < out.len() implies flat(#[trigger] out[i].1) by {
            if i < prefix.len() {
                assert(out[i] == prefix[i]);
            }
        }
    }
}

proof fn lemma_flat_union_add(vs: Seq<TyV>, ty: TyV, fuel: nat)
    requires
        forall|i: int| 0 <= i < vs.len() ==> flat_variant(#[trigger] vs[i]),
        forall|i: int| 0 <= i < union_items(ty).len() ==> flat_variant(#[trigger] union_items(ty)[i]),
        union_add_fuel(vs, ty, fuel) matches Some(Ok(_)),
    ensures
        flat(union_add_fuel(vs, ty, fuel).unwrap()->Ok_0),
    decreases fuel, union_items(ty).len() + 2,
{
    lemma_flat_fold(vs, union_items(ty), fuel);
    let out = union_fold(vs, union_items(ty), fuel).unwrap()->Ok_0;
    if out.len() == 1 {
        assert(flat_variant(out[0]));
    } else {
        assert forall|i: int| 0 <= i < out.len() implies !(#[trigger] out[i] is Union) && flat(out[i]) by {
            assert(flat_variant(out[i]));
        }
    }
}

proof fn lemma_flat_fold(vs: Seq<TyV>, items: Seq<TyV>, fuel: nat)
    requires
        forall|i: int| 0 <= i < vs.len() ==> flat_variant(#[trigger] vs[i]),
        forall|i: int| 0 <= i < items.len() ==> flat_variant(#[trigger] items[i]),
        union_fold(vs, items, fuel) matches Some(Ok(_)),
    ensures
        forall|i: int|
            0 <= i < union_fold(vs, items, fuel).unwrap()->Ok_0.len() ==> flat_variant(
                #[trigger] union_fold(vs, items, fuel).unwrap()->Ok_0[i],
            ),
    decreases fuel, items.len() + 1,
{
    if items.len() > 0 {
        let d = items.drop_last();
        assert forall|i: int| 0 <= i < d.len() implies flat_variant(#[trigger] d[i]) by {
            assert(d[i] == items[i]);
        }
        lemma_flat_fold(vs, d, fuel);
        let cur = union_fold(vs, d, fuel).unwrap()->Ok_0;
        let t = items.last();
        assert(flat_variant(t)) by {
            assert(t == items[items.len() - 1]);
        }
        lemma_flat_step(cur, t, fuel);
    }
}

proof fn lemma_flat_step(cur: Seq<TyV>, t: TyV, fuel: nat)
    requires
        forall|i: int| 0 <= i < cur.len() ==> flat_variant(#[trigger] cur[i]),
        flat_variant(t),
        union_step(cur, t, fuel) matches Some(Ok(_)),
    ensures
        forall|i: int|
            0 <= i < union_step(cur, t, fuel).unwrap()->Ok_0.len() ==> flat_variant(
                #[trigger] union_step(cur, t, fuel).unwrap()->Ok_0[i],
            ),
    decreases fuel, 1nat,
{
    let out = union_step(cur, t, fuel).unwrap()->Ok_0;
    match t {
        TyV::Tagged(id, q) => {
            lemma_first_tag_index(cur, id);
            match first_tag_index(cur, id) {
                Some(j) => {
                    assert(flat_variant(cur[j]));
                    lemma_flat_unify(tagged_payload(cur[j]), *q, fuel);
                    assert forall|i: int| 0 <= i < out.len() implies flat_variant(#[trigger] out[i]) by {
                        if i != j {
                            assert(out[i] == cur[i]);
                        }
                    }
                },
                None => {
                    assert forall|i: int| 0 <= i < out.len() implies flat_variant(#[trigger] out[i]) by {
                        if i < cur.len() {
                            assert(out[i] == cur[i]);
                        }
                    }
                },
            }
        },
        _ => {
            assert forall|i: int| 0 <= i < out.len() implies flat_variant(#[trigger] out[i]) by {
                if i < cur.len() {
                    assert(out[i] == cur[i]);
                }
            }
        },
    }
}

/// Unions stay flat: unifying two types whose unions are flat (no union
/// directly inside a union) gives a type whose unions are flat.
pub proof fn law_unify_keeps_unions_flat(a: TyV, b: TyV)
    requires
        flat(a),
        flat(b),
        spec_unify(a, b) is Ok,
    ensures
        flat(spec_unify(a, b)->Ok_0),
{
    lemma_unify_total(a, b, tsize(a) + tsize(b) + 1);
    lemma_flat_unify(a, b, tsize(a) + tsize(b) + 1);
}

} // verus!

verus! {

/// Unification always finishes within `tsize(a) + tsize(b) + 1` nested
/// steps, and never produces a larger type than its two inputs together.
pub proof fn lemma_unify_total(a: TyV, b: TyV, fuel: nat)
    requires
        fuel >= tsize(a) + tsize(b) + 1,
    ensures
        unify_fuel(a, b, fuel) is Some,
        unify_fuel(a, b, fuel) matches Some(Ok(t)) ==> tsize(t) <= tsize(a) + tsize(b),
    decreases fuel, 0nat,
{
    let f = (fuel - 1) as nat;
    match (a, b) {
        (TyV::Infer(_), _) => {},
        (_, TyV::Infer(_)) => {},
        (TyV::Generic(_), _) => {},
        (_, TyV::Generic(_)) => {},
        (TyV::Array(e1), TyV::Array(e2)) => {
            lemma_unify_total(*e1, *e2, f);
        },
        (TyV::Fn(p1, r1), TyV::Fn(p2, r2)) => {
            lemma_unify_total(*p1, *p2, f);
            lemma_unify_total(*r1, *r2, f);
        },
        (TyV::Struct(f1), TyV::Struct(f2)) => {
            if f1.len() == f2.len() {
                lemma_fields_total(f1, f2, f);
            }
        },
        (TyV::Tagged(i1, p1), TyV::Tagged(i2, p2)) => {
            if i1 == i2 {
                lemma_unify_total(*p1, *p2, f);
            } else {
                lemma_vsize_single(a);
                assert(seq![a].push(b) =~= seq![a, b]);
                lemma_vsize_push(seq![a], b);
            }
        },
        (TyV::Union(vs), _) => {
            lemma_union_add_total(vs, b, f);
        },
        (_, TyV::Union(vs)) => {
            lemma_union_add_total(vs, a, f);
        },
        (TyV::Tagged(_, _), _) => {
            lemma_vsize_single(a);
            assert(seq![a].push(b) =~= seq![a, b]);
            lemma_vsize_push(seq![a], b);
        },
        (_, TyV::Tagged(_, _)) => {
            lemma_vsize_single(a);
            assert(seq![a].push(b) =~= seq![a, b]);
            lemma_vsize_push(seq![a], b);
        },
        _ => {},
    }
}

proof fn lemma_fields_total(f1: Seq<(Seq<char>, TyV)>, f2: Seq<(Seq<char>, TyV)>, fuel: nat)
    requires
        f1.len() == f2.len(),
        fuel >= fsize(f1) + fsize(f2) + 1,
    ensures
        unify_fields_fuel(f1, f2, fuel) is Some,
        unify_fields_fuel(f1, f2, fuel) matches Some(Ok(fs)) ==> fsize(fs) <= fsize(f1) + fsize(f2),
    decreases fuel, f1.len() + 1,
{
    if f1.len() > 0 {
        lemma_fields_total(f1.drop_last(), f2.drop_last(), fuel);
        lemma_unify_total(f1.last().1, f2.last().1, fuel);
        match unify_fields_fuel(f1.drop_last(), f2.drop_last(), fuel) {
            Some(Ok(prefix)) => {
                let (n1, t1) = f1.last();
                match unify_fuel(t1, f2.last().1, fuel) {
                    Some(Ok(t)) => {
                        assert(prefix.push((n1, t)).drop_last() =~= prefix);
                    },
                    _ => {},
                }
            },
            _ => {},
        }
    }
}

proof fn lemma_union_add_total(vs: Seq<TyV>, ty: TyV, fuel: nat)
    requires
        fuel >= vsize(vs) + tsize(ty),
    ensures
        union_add_fuel(vs, ty, fuel) is Some,
        union_add_fuel(vs, ty, fuel) matches Some(Ok(t)) ==> tsize(t) <= vsize(vs) + tsize(ty),
    decreases fuel, union_items(ty).len() + 2,
{
    if !(ty is Union) {
        lemma_vsize_single(ty);
    }
    lemma_fold_total(vs, union_items(ty), fuel);
    match union_fold(vs, union_items(ty), fuel) {
        Some(Ok(out)) => {
            if out.len() == 1 {
                lemma_vsize_elem(out, 0);
            }
        },
        _ => {},
    }
}

proof fn lemma_fold_total(vs: Seq<TyV>, items: Seq<TyV>, fuel: nat)
    requires
        fuel >= vsize(vs) + vsize(items),
    ensures
        union_fold(vs, items, fuel) is Some,
        union_fold(vs, items, fuel) matches Some(Ok(out)) ==> vsize(out) <= vsize(vs) + vsize(items),
    decreases fuel, items.len() + 1,
{
    if items.len() > 0 {
        lemma_fold_total(vs, items.drop_last(), fuel);
        match union_fold(vs, items.drop_last(), fuel) {
            Some(Ok(cur)) => {
                lemma_step_total(cur, items.last(), fuel);
            },
            _ => {},
        }
    }
}

proof fn lemma_step_total(cur: Seq<TyV>, t: TyV, fuel: nat)
    requires
        fuel >= vsize(cur) + tsize(t),
    ensures
        union_step(cur, t, fuel) is Some,
        union_step(cur, t, fuel) matches Some(Ok(out)) ==> vsize(out) <= vsize(cur) + tsize(t),
    decreases fuel, 1nat,
{
    lemma_vsize_push(cur, t);
    match t {
        TyV::Tagged(id, q) => {
            lemma_first_tag_index(cur, id);
            match first_tag_index(cur, id) {
                Some(j) => {
                    lemma_vsize_elem(cur, j);
                    let p = tagged_payload(cur[j]);
                    lemma_unify_total(p, *q, fuel);
                    match unify_fuel(p, *q, fuel) {
                        Some(Ok(u)) => {
                            lemma_vsize_update(cur, j, TyV::Tagged(id, Box::new(u)));
                        },
                        _ => {},
                    }
                },
                None => {},
            }
        },
        _ => {},
    }
}


// ── Method sets and tag payloads ────────────────────────────────

/// What a method set holds: the tag it is for, and its methods (a struct of
/// function types).
pub struct MethodSetInfo {
    pub tag_id: TagId,
    pub methods: Ty,
}

/// The payload of the tag `id` in `t`: the payload of `t` itself if it is
/// tagged with `id`, or of the first variant tagged with `id` of a union.
pub open spec fn payload_for_tag(id: u64, t: TyV) -> Option<TyV> {
    match t {
        TyV::Tagged(i, p) => if i == id { Some(*p) } else { None },
        TyV::Union(vs) => match first_tag_index(vs, id) {
            Some(j) => Some(tagged_payload(vs[j])),
            None => None,
        },
        _ => None,
    }
}

pub proof fn lemma_first_tag_index_take(vs: Seq<TyV>, id: u64, k: int)
    requires
        0 <= k < vs.len(),
        first_tag_index(vs.take(k), id) is None,
    ensures
        first_tag_index(vs.take(k + 1), id) == (if is_tagged_with(vs[k], id) { Some(k) } else { None::<int> }),
{
    assert(vs.take(k + 1).drop_last() =~= vs.take(k));
}

pub proof fn lemma_first_tag_index_prefix(vs: Seq<TyV>, id: u64, k: int)
    requires
        0 <= k <= vs.len(),
        first_tag_index(vs.take(k), id) is Some,
    ensures
        first_tag_index(vs, id) == first_tag_index(vs.take(k), id),
    decreases vs.len() - k,
{
    if k < vs.len() {
        assert(vs.take(k + 1).drop_last() =~= vs.take(k));
        lemma_first_tag_index_prefix(vs, id, k + 1);
    } else {
        assert(vs.take(k) =~= vs);
    }
}

/// The payload type for a specific tag id in a type.
pub fn extract_payload_for_tag(tag_id: TagId, ty: &Ty) -> (r: Option<Ty>)
    ensures
        match payload_for_tag(tag_id, ty@) {
            Some(p) => r is Some && r->Some_0@ == p,
            None => r is None,
        },
{
    match ty {
        Ty::Tagged { tag_id: id, payload } => {
            if *id == tag_id {
                Some(copy_ty(payload))
            } else {
                None
            }
        },
        Ty::Union(variants) => {
            let ghost vs = tys_view(variants@);
            proof {
                lemma_tys_view(variants@);
                assert(vs.take(0) =~= Seq::<TyV>::empty());
            }
            let mut i: usize = 0;
            while i < variants.len()
                invariant
                    i <= variants.len(),
                    *ty == Ty::Union(*variants),
                    vs == tys_view(variants@),
                    vs.len() == variants.len(),
                    forall|k: int| 0 <= k < variants.len() ==> #[trigger] vs[k] == variants@[k]@,
                    first_tag_index(vs.take(i as int), tag_id) is None,
                decreases variants.len() - i,
            {
                proof {
                    lemma_first_tag_index_take(vs, tag_id, i as int);
                }
                if let Ty::Tagged { tag_id: id, payload } = &variants[i] {
                    if *id == tag_id {
                        proof {
                            lemma_first_tag_index_prefix(vs, tag_id, i + 1);
                        }
                        return Some(copy_ty(payload));
                    }
                }
                i = i + 1;
            }
            proof {
                assert(vs.take(variants.len() as int) =~= vs);
            }
            None
        },
        _ => None,
    }
}


// ── The core module ─────────────────────────────────────────────

fn fn_of(param: Ty, ret: Ty) -> (r: Ty)
    ensures
        r@ == TyV::Fn(Box::new(param@), Box::new(ret@)),
{
    Ty::Fn { param: Box::new(param), ret: Box::new(ret) }
}

fn array_of(elem: Ty) -> (r: Ty)
    ensures
        r@ == TyV::Array(Box::new(elem@)),
{
    Ty::Array(Box::new(elem))
}

fn struct2(n0: &str, t0: Ty, n1: &str, t1: Ty) -> (r: Ty)
    ensures
        r@ == TyV::Struct(seq![(n0@, t0@), (n1@, t1@)]),
{
    let mut fields: Vec<(String, Ty)> = Vec::new();
    proof {
        lemma_fields_view_empty();
    }
    push_field(&mut fields, n0, t0);
    push_field(&mut fields, n1, t1);
    assert(fields_view(fields@) =~= seq![(n0@, t0@), (n1@, t1@)]);
    Ty::Struct(fields)
}

fn struct3(n0: &str, t0: Ty, n1: &str, t1: Ty, n2: &str, t2: Ty) -> (r: Ty)
    ensures
        r@ == TyV::Struct(seq![(n0@, t0@), (n1@, t1@), (n2@, t2@)]),
{
    let mut fields: Vec<(String, Ty)> = Vec::new();
    proof {
        lemma_fields_view_empty();
    }
    push_field(&mut fields, n0, t0);
    push_field(&mut fields, n1, t1);
    push_field(&mut fields, n2, t2);
    assert(fields_view(fields@) =~= seq![(n0@, t0@), (n1@, t1@), (n2@, t2@)]);
    Ty::Struct(fields)
}

pub proof fn lemma_fields_view_empty()
    ensures
        fields_view(Seq::<(String, Ty)>::empty()) == Seq::<(Seq<char>, TyV)>::empty(),
{
}

fn push_field(fields: &mut Vec<(String, Ty)>, name: &str, ty: Ty)
    ensures
        fields_view(final(fields)@) == fields_view(old(fields)@).push((name@, ty@)),
{
    let entry = (text(name), ty);
    proof {
        lemma_fields_view_push(old(fields)@, entry);
    }
    fields.push(entry);
}

/// The type constructors of the primitive types, by their tag ids (`F64` is listed twice, as the module value lists it).
pub open spec fn core_constructors() -> Seq<(Seq<char>, TyV)> {
    seq![
        ("I64"@, TyV::TagConstructor(TAG_ID_INT)),
        ("F64"@, TyV::TagConstructor(TAG_ID_FLOAT)),
        ("Bool"@, TyV::TagConstructor(TAG_ID_BOOL)),
        ("String"@, TyV::TagConstructor(TAG_ID_STRING)),
        ("Char"@, TyV::TagConstructor(TAG_ID_CHAR)),
        ("U8"@, TyV::TagConstructor(TAG_ID_BYTE)),
        ("Array"@, TyV::TagConstructor(TAG_ID_ARRAY)),
        ("Unit"@, TyV::TagConstructor(TAG_ID_UNIT)),
        ("I32"@, TyV::TagConstructor(TAG_ID_I32)),
        ("F32"@, TyV::TagConstructor(TAG_ID_F32)),
        ("I128"@, TyV::TagConstructor(TAG_ID_I128)),
        ("U128"@, TyV::TagConstructor(TAG_ID_U128)),
        ("I8"@, TyV::TagConstructor(TAG_ID_I8)),
        ("I16"@, TyV::TagConstructor(TAG_ID_I16)),
        ("U16"@, TyV::TagConstructor(TAG_ID_U16)),
        ("U32"@, TyV::TagConstructor(TAG_ID_U32)),
        ("U64"@, TyV::TagConstructor(TAG_ID_U64)),
        ("F64"@, TyV::TagConstructor(TAG_ID_FLOAT)),
    ]
}

fn push_core_constructors(fields: &mut Vec<(String, Ty)>)
    ensures
        fields_view(final(fields)@) == fields_view(old(fields)@) + core_constructors(),
{
    let ghost start = fields_view(fields@);
    push_field(fields, "I64", Ty::TagConstructor(TAG_ID_INT));
    push_field(fields, "F64", Ty::TagConstructor(TAG_ID_FLOAT));
    push_field(fields, "Bool", Ty::TagConstructor(TAG_ID_BOOL));
    push_field(fields, "String", Ty::TagConstructor(TAG_ID_STRING));
    push_field(fields, "Char", Ty::TagConstructor(TAG_ID_CHAR));
    push_field(fields, "U8", Ty::TagConstructor(TAG_ID_BYTE));
    push_field(fields, "Array", Ty::TagConstructor(TAG_ID_ARRAY));
    push_field(fields, "Unit", Ty::TagConstructor(TAG_ID_UNIT));
    push_field(fields, "I32", Ty::TagConstructor(TAG_ID_I32));
    push_field(fields, "F32", Ty::TagConstructor(TAG_ID_F32));
    push_field(fields, "I128", Ty::TagConstructor(TAG_ID_I128));
    push_field(fields, "U128", Ty::TagConstructor(TAG_ID_U128));
    push_field(fields, "I8", Ty::TagConstructor(TAG_ID_I8));
    push_field(fields, "I16", Ty::TagConstructor(TAG_ID_I16));
    push_field(fields, "U16", Ty::TagConstructor(TAG_ID_U16));
    push_field(fields, "U32", Ty::TagConstructor(TAG_ID_U32));
    push_field(fields, "U64", Ty::TagConstructor(TAG_ID_U64));
    push_field(fields, "F64", Ty::TagConstructor(TAG_ID_FLOAT));
    assert(fields_view(fields@) =~= start + core_constructors());
}

/// The standalone builtins: logic, printing, the type hints, equality and `method_set`.
pub open spec fn core_builtins() -> Seq<(Seq<char>, TyV)> {
    seq![
        ("not"@, TyV::Fn(Box::new(TyV::Bool), Box::new(TyV::Bool))),
        ("and"@, TyV::Fn(Box::new(TyV::Struct(seq![("0"@, TyV::Bool), ("1"@, TyV::Bool)])), Box::new(TyV::Bool))),
        ("or"@, TyV::Fn(Box::new(TyV::Struct(seq![("0"@, TyV::Bool), ("1"@, TyV::Bool)])), Box::new(TyV::Bool))),
        ("print"@, TyV::Fn(Box::new(TyV::Str), Box::new(TyV::Unit))),
        ("byte"@, TyV::Fn(Box::new(TyV::IntLiteral), Box::new(TyV::Byte))),
        ("int"@, TyV::Fn(Box::new(TyV::IntLiteral), Box::new(TyV::Int))),
        ("i64"@, TyV::Fn(Box::new(TyV::IntLiteral), Box::new(TyV::Int))),
        ("float"@, TyV::Fn(Box::new(TyV::FloatLiteral), Box::new(TyV::Float))),
        ("char"@, TyV::Fn(Box::new(TyV::IntLiteral), Box::new(TyV::Char))),
        ("i32"@, TyV::Fn(Box::new(TyV::IntLiteral), Box::new(TyV::Infer(0)))),
        ("f32"@, TyV::Fn(Box::new(TyV::FloatLiteral), Box::new(TyV::Infer(0)))),
        ("i128"@, TyV::Fn(Box::new(TyV::IntLiteral), Box::new(TyV::Infer(0)))),
        ("u128"@, TyV::Fn(Box::new(TyV::IntLiteral), Box::new(TyV::Infer(0)))),
        ("i8"@, TyV::Fn(Box::new(TyV::IntLiteral), Box::new(TyV::Infer(0)))),
        ("u8"@, TyV::Fn(Box::new(TyV::IntLiteral), Box::new(TyV::Byte))),
        ("i16"@, TyV::Fn(Box::new(TyV::IntLiteral), Box::new(TyV::Infer(0)))),
        ("u16"@, TyV::Fn(Box::new(TyV::IntLiteral), Box::new(TyV::Infer(0)))),
        ("u32"@, TyV::Fn(Box::new(TyV::IntLiteral), Box::new(TyV::Infer(0)))),
        ("u64"@, TyV::Fn(Box::new(TyV::IntLiteral), Box::new(TyV::Infer(0)))),
        ("f64"@, TyV::Fn(Box::new(TyV::FloatLiteral), Box::new(TyV::Float))),
        ("ref_eq"@, TyV::Fn(Box::new(TyV::Struct(seq![("0"@, TyV::Generic(0)), ("1"@, TyV::Generic(0))])), Box::new(TyV::Bool))),
        ("val_eq"@, TyV::Fn(Box::new(TyV::Struct(seq![("0"@, TyV::Generic(0)), ("1"@, TyV::Generic(0))])), Box::new(TyV::Bool))),
        ("method_set"@, TyV::MethodSetConstructor),
    ]
}

fn push_core_builtins(fields: &mut Vec<(String, Ty)>)
    ensures
        fields_view(final(fields)@) == fields_view(old(fields)@) + core_builtins(),
{
    let ghost start = fields_view(fields@);
    push_field(fields, "not", fn_of(Ty::Bool, Ty::Bool));
    push_field(fields, "and", fn_of(struct2("0", Ty::Bool, "1", Ty::Bool), Ty::Bool));
    push_field(fields, "or", fn_of(struct2("0", Ty::Bool, "1", Ty::Bool), Ty::Bool));
    push_field(fields, "print", fn_of(Ty::String, Ty::Unit));
    push_field(fields, "byte", fn_of(Ty::IntLiteral, Ty::Byte));
    push_field(fields, "int", fn_of(Ty::IntLiteral, Ty::Int));
    push_field(fields, "i64", fn_of(Ty::IntLiteral, Ty::Int));
    push_field(fields, "float", fn_of(Ty::FloatLiteral, Ty::Float));
    push_field(fields, "char", fn_of(Ty::IntLiteral, Ty::Char));
    push_field(fields, "i32", fn_of(Ty::IntLiteral, Ty::Infer(0)));
    push_field(fields, "f32", fn_of(Ty::FloatLiteral, Ty::Infer(0)));
    push_field(fields, "i128", fn_of(Ty::IntLiteral, Ty::Infer(0)));
    push_field(fields, "u128", fn_of(Ty::IntLiteral, Ty::Infer(0)));
    push_field(fields, "i8", fn_of(Ty::IntLiteral, Ty::Infer(0)));
    push_field(fields, "u8", fn_of(Ty::IntLiteral, Ty::Byte));
    push_field(fields, "i16", fn_of(Ty::IntLiteral, Ty::Infer(0)));
    push_field(fields, "u16", fn_of(Ty::IntLiteral, Ty::Infer(0)));
    push_field(fields, "u32", fn_of(Ty::IntLiteral, Ty::Infer(0)));
    push_field(fields, "u64", fn_of(Ty::IntLiteral, Ty::Infer(0)));
    push_field(fields, "f64", fn_of(Ty::FloatLiteral, Ty::Float));
    push_field(fields, "ref_eq", fn_of(struct2("0", Ty::Generic(0), "1", Ty::Generic(0)), Ty::Bool));
    push_field(fields, "val_eq", fn_of(struct2("0", Ty::Generic(0), "1", Ty::Generic(0)), Ty::Bool));
    push_field(fields, "method_set", Ty::MethodSetConstructor);
    assert(fields_view(fields@) =~= start + core_builtins());
}

/// The array methods, parametric in `G0` (the element type) and `G1`, with the receiver first.
pub open spec fn core_array_methods() -> Seq<(Seq<char>, TyV)> {
    seq![
        ("array_get"@, TyV::Fn(Box::new(TyV::Struct(seq![("0"@, TyV::Array(Box::new(TyV::Generic(0)))), ("1"@, TyV::Int)])), Box::new(TyV::Generic(0)))),
        ("array_slice"@, TyV::Fn(Box::new(TyV::Struct(seq![("0"@, TyV::Array(Box::new(TyV::Generic(0)))), ("start"@, TyV::Int), ("end"@, TyV::Int)])), Box::new(TyV::Array(Box::new(TyV::Generic(0)))))),
        ("array_len"@, TyV::Fn(Box::new(TyV::Array(Box::new(TyV::Generic(0)))), Box::new(TyV::Int))),
        ("array_map"@, TyV::Fn(Box::new(TyV::Struct(seq![("0"@, TyV::Array(Box::new(TyV::Generic(0)))), ("1"@, TyV::Fn(Box::new(TyV::Generic(0)), Box::new(TyV::Generic(1))))])), Box::new(TyV::Array(Box::new(TyV::Generic(1)))))),
        ("array_filter"@, TyV::Fn(Box::new(TyV::Struct(seq![("0"@, TyV::Array(Box::new(TyV::Generic(0)))), ("1"@, TyV::Fn(Box::new(TyV::Generic(0)), Box::new(TyV::Bool)))])), Box::new(TyV::Array(Box::new(TyV::Generic(0)))))),
        ("array_fold"@, TyV::Fn(Box::new(TyV::Struct(seq![("0"@, TyV::Array(Box::new(TyV::Generic(0)))), ("1"@, TyV::Generic(1)), ("2"@, TyV::Fn(Box::new(TyV::Struct(seq![("acc"@, TyV::Generic(1)), ("elem"@, TyV::Generic(0))])), Box::new(TyV::Generic(1))))])), Box::new(TyV::Generic(1)))),
        ("array_zip"@, TyV::Fn(Box::new(TyV::Struct(seq![("0"@, TyV::Array(Box::new(TyV::Generic(0)))), ("1"@, TyV::Array(Box::new(TyV::Generic(1))))])), Box::new(TyV::Array(Box::new(TyV::Struct(seq![("0"@, TyV::Generic(0)), ("1"@, TyV::Generic(1))])))))),
        ("array_add"@, TyV::Fn(Box::new(TyV::Struct(seq![("0"@, TyV::Array(Box::new(TyV::Generic(0)))), ("1"@, TyV::Array(Box::new(TyV::Generic(0))))])), Box::new(TyV::Array(Box::new(TyV::Generic(0)))))),
        ("array_eq"@, TyV::Fn(Box::new(TyV::Struct(seq![("0"@, TyV::Array(Box::new(TyV::Generic(0)))), ("1"@, TyV::Array(Box::new(TyV::Generic(0))))])), Box::new(TyV::Bool))),
        ("array_not_eq"@, TyV::Fn(Box::new(TyV::Struct(seq![("0"@, TyV::Array(Box::new(TyV::Generic(0)))), ("1"@, TyV::Array(Box::new(TyV::Generic(0))))])), Box::new(TyV::Bool))),
    ]
}

fn push_core_array_methods(fields: &mut Vec<(String, Ty)>)
    ensures
        fields_view(final(fields)@) == fields_view(old(fields)@) + core_array_methods(),
{
    let ghost start = fields_view(fields@);
    push_field(fields, "array_get", fn_of(struct2("0", array_of(Ty::Generic(0)), "1", Ty::Int), Ty::Generic(0)));
    push_field(fields, "array_slice", fn_of(struct3("0", array_of(Ty::Generic(0)), "start", Ty::Int, "end", Ty::Int), array_of(Ty::Generic(0))));
    push_field(fields, "array_len", fn_of(array_of(Ty::Generic(0)), Ty::Int));
    push_field(fields, "array_map", fn_of(struct2("0", array_of(Ty::Generic(0)), "1", fn_of(Ty::Generic(0), Ty::Generic(1))), array_of(Ty::Generic(1))));
    push_field(fields, "array_filter", fn_of(struct2("0", array_of(Ty::Generic(0)), "1", fn_of(Ty::Generic(0), Ty::Bool)), array_of(Ty::Generic(0))));
    push_field(fields, "array_fold", fn_of(struct3("0", array_of(Ty::Generic(0)), "1", Ty::Generic(1), "2", fn_of(struct2("acc", Ty::Generic(1), "elem", Ty::Generic(0)), Ty::Generic(1))), Ty::Generic(1)));
    push_field(fields, "array_zip", fn_of(struct2("0", array_of(Ty::Generic(0)), "1", array_of(Ty::Generic(1))), array_of(struct2("0", Ty::Generic(0), "1", Ty::Generic(1)))));
    push_field(fields, "array_add", fn_of(struct2("0", array_of(Ty::Generic(0)), "1", array_of(Ty::Generic(0))), array_of(Ty::Generic(0))));
    push_field(fields, "array_eq", fn_of(struct2("0", array_of(Ty::Generic(0)), "1", array_of(Ty::Generic(0))), Ty::Bool));
    push_field(fields, "array_not_eq", fn_of(struct2("0", array_of(Ty::Generic(0)), "1", array_of(Ty::Generic(0))), Ty::Bool));
    assert(fields_view(fields@) =~= start + core_array_methods());
}

/// The string methods, with the receiver first.
pub open spec fn core_string_methods() -> Seq<(Seq<char>, TyV)> {
    seq![
        ("string_byte_len"@, TyV::Fn(Box::new(TyV::Str), Box::new(TyV::Int))),
        ("string_char_len"@, TyV::Fn(Box::new(TyV::Str), Box::new(TyV::Int))),
        ("string_byte_get"@, TyV::Fn(Box::new(TyV::Struct(seq![("0"@, TyV::Str), ("1"@, TyV::Int)])), Box::new(TyV::Byte))),
        ("string_char_get"@, TyV::Fn(Box::new(TyV::Struct(seq![("0"@, TyV::Str), ("1"@, TyV::Int)])), Box::new(TyV::Char))),
        ("string_as_bytes"@, TyV::Fn(Box::new(TyV::Str), Box::new(TyV::Array(Box::new(TyV::Byte))))),
        ("string_chars"@, TyV::Fn(Box::new(TyV::Str), Box::new(TyV::Array(Box::new(TyV::Char))))),
        ("string_split"@, TyV::Fn(Box::new(TyV::Struct(seq![("0"@, TyV::Str), ("1"@, TyV::Str)])), Box::new(TyV::Array(Box::new(TyV::Str))))),
        ("string_trim"@, TyV::Fn(Box::new(TyV::Str), Box::new(TyV::Str))),
        ("string_contains"@, TyV::Fn(Box::new(TyV::Struct(seq![("0"@, TyV::Str), ("1"@, TyV::Str)])), Box::new(TyV::Bool))),
        ("string_contains_char"@, TyV::Fn(Box::new(TyV::Struct(seq![("0"@, TyV::Str), ("1"@, TyV::Char)])), Box::new(TyV::Bool))),
        ("string_slice"@, TyV::Fn(Box::new(TyV::Struct(seq![("0"@, TyV::Str), ("start"@, TyV::Int), ("end"@, TyV::Int)])), Box::new(TyV::Str))),
        ("string_starts_with"@, TyV::Fn(Box::new(TyV::Struct(seq![("0"@, TyV::Str), ("1"@, TyV::Str)])), Box::new(TyV::Bool))),
        ("string_ends_with"@, TyV::Fn(Box::new(TyV::Struct(seq![("0"@, TyV::Str), ("1"@, TyV::Str)])), Box::new(TyV::Bool))),
        ("string_replace"@, TyV::Fn(Box::new(TyV::Struct(seq![("0"@, TyV::Str), ("1"@, TyV::Str), ("2"@, TyV::Str)])), Box::new(TyV::Str))),
        ("string_add"@, TyV::Fn(Box::new(TyV::Struct(seq![("0"@, TyV::Str), ("1"@, TyV::Str)])), Box::new(TyV::Str))),
        ("string_eq"@, TyV::Fn(Box::new(TyV::Struct(seq![("0"@, TyV::Str), ("1"@, TyV::Str)])), Box::new(TyV::Bool))),
        ("string_not_eq"@, TyV::Fn(Box::new(TyV::Struct(seq![("0"@, TyV::Str), ("1"@, TyV::Str)])), Box::new(TyV::Bool))),
        ("string_lt"@, TyV::Fn(Box::new(TyV::Struct(seq![("0"@, TyV::Str), ("1"@, TyV::Str)])), Box::new(TyV::Bool))),
        ("string_gt"@, TyV::Fn(Box::new(TyV::Struct(seq![("0"@, TyV::Str), ("1"@, TyV::Str)])), Box::new(TyV::Bool))),
        ("string_lt_eq"@, TyV::Fn(Box::new(TyV::Struct(seq![("0"@, TyV::Str), ("1"@, TyV::Str)])), Box::new(TyV::Bool))),
        ("string_gt_eq"@, TyV::Fn(Box::new(TyV::Struct(seq![("0"@, TyV::Str), ("1"@, TyV::Str)])), Box::new(TyV::Bool))),
        ("string_to_string"@, TyV::Fn(Box::new(TyV::Str), Box::new(TyV::Str))),
    ]
}

fn push_core_string_methods(fields: &mut Vec<(String, Ty)>)
    ensures
        fields_view(final(fields)@) == fields_view(old(fields)@) + core_string_methods(),
{
    let ghost start = fields_view(fields@);
    push_field(fields, "string_byte_len", fn_of(Ty::String, Ty::Int));
    push_field(fields, "string_char_len", fn_of(Ty::String, Ty::Int));
    push_field(fields, "string_byte_get", fn_of(struct2("0", Ty::String, "1", Ty::Int), Ty::Byte));
    push_field(fields, "string_char_get", fn_of(struct2("0", Ty::String, "1", Ty::Int), Ty::Char));
    push_field(fields, "string_as_bytes", fn_of(Ty::String, array_of(Ty::Byte)));
    push_field(fields, "string_chars", fn_of(Ty::String, array_of(Ty::Char)));
    push_field(fields, "string_split", fn_of(struct2("0", Ty::String, "1", Ty::String), array_of(Ty::String)));
    push_field(fields, "string_trim", fn_of(Ty::String, Ty::String));
    push_field(fields, "string_contains", fn_of(struct2("0", Ty::String, "1", Ty::String), Ty::Bool));
    push_field(fields, "string_contains_char", fn_of(struct2("0", Ty::String, "1", Ty::Char), Ty::Bool));
    push_field(fields, "string_slice", fn_of(struct3("0", Ty::String, "start", Ty::Int, "end", Ty::Int), Ty::String));
    push_field(fields, "string_starts_with", fn_of(struct2("0", Ty::String, "1", Ty::String), Ty::Bool));
    push_field(fields, "string_ends_with", fn_of(struct2("0", Ty::String, "1", Ty::String), Ty::Bool));
    push_field(fields, "string_replace", fn_of(struct3("0", Ty::String, "1", Ty::String, "2", Ty::String), Ty::String));
    push_field(fields, "string_add", fn_of(struct2("0", Ty::String, "1", Ty::String), Ty::String));
    push_field(fields, "string_eq", fn_of(struct2("0", Ty::String, "1", Ty::String), Ty::Bool));
    push_field(fields, "string_not_eq", fn_of(struct2("0", Ty::String, "1", Ty::String), Ty::Bool));
    push_field(fields, "string_lt", fn_of(struct2("0", Ty::String, "1", Ty::String), Ty::Bool));
    push_field(fields, "string_gt", fn_of(struct2("0", Ty::String, "1", Ty::String), Ty::Bool));
    push_field(fields, "string_lt_eq", fn_of(struct2("0", Ty::String, "1", Ty::String), Ty::Bool));
    push_field(fields, "string_gt_eq", fn_of(struct2("0", Ty::String, "1", Ty::String), Ty::Bool));
    push_field(fields, "string_to_string", fn_of(Ty::String, Ty::String));
    assert(fields_view(fields@) =~= start + core_string_methods());
}

/// The int methods: arithmetic is `Int × Int → Int`, without promotion.
pub open spec fn core_int_methods() -> Seq<(Seq<char>, TyV)> {
    seq![
        ("int_add"@, TyV::Fn(Box::new(TyV::Struct(seq![("0"@, TyV::Int), ("1"@, TyV::Int)])), Box::new(TyV::Int))),
        ("int_subtract"@, TyV::Fn(Box::new(TyV::Struct(seq![("0"@, TyV::Int), ("1"@, TyV::Int)])), Box::new(TyV::Int))),
        ("int_times"@, TyV::Fn(Box::new(TyV::Struct(seq![("0"@, TyV::Int), ("1"@, TyV::Int)])), Box::new(TyV::Int))),
        ("int_divided_by"@, TyV::Fn(Box::new(TyV::Struct(seq![("0"@, TyV::Int), ("1"@, TyV::Int)])), Box::new(TyV::Int))),
        ("int_negate"@, TyV::Fn(Box::new(TyV::Int), Box::new(TyV::Int))),
        ("int_eq"@, TyV::Fn(Box::new(TyV::Struct(seq![("0"@, TyV::Int), ("1"@, TyV::Int)])), Box::new(TyV::Bool))),
        ("int_not_eq"@, TyV::Fn(Box::new(TyV::Struct(seq![("0"@, TyV::Int), ("1"@, TyV::Int)])), Box::new(TyV::Bool))),
        ("int_lt"@, TyV::Fn(Box::new(TyV::Struct(seq![("0"@, TyV::Int), ("1"@, TyV::Int)])), Box::new(TyV::Bool))),
        ("int_gt"@, TyV::Fn(Box::new(TyV::Struct(seq![("0"@, TyV::Int), ("1"@, TyV::Int)])), Box::new(TyV::Bool))),
        ("int_lt_eq"@, TyV::Fn(Box::new(TyV::Struct(seq![("0"@, TyV::Int), ("1"@, TyV::Int)])), Box::new(TyV::Bool))),
        ("int_gt_eq"@, TyV::Fn(Box::new(TyV::Struct(seq![("0"@, TyV::Int), ("1"@, TyV::Int)])), Box::new(TyV::Bool))),
        ("int_to_string"@, TyV::Fn(Box::new(TyV::Int), Box::new(TyV::Str))),
        ("int_to_f64"@, TyV::Fn(Box::new(TyV::Int), Box::new(TyV::Float))),
        ("int_to_u8"@, TyV::Fn(Box::new(TyV::Int), Box::new(TyV::Byte))),
        ("int_to_char"@, TyV::Fn(Box::new(TyV::Int), Box::new(TyV::Char))),
    ]
}

fn push_core_int_methods(fields: &mut Vec<(String, Ty)>)
    ensures
        fields_view(final(fields)@) == fields_view(old(fields)@) + core_int_methods(),
{
    let ghost start = fields_view(fields@);
    push_field(fields, "int_add", fn_of(struct2("0", Ty::Int, "1", Ty::Int), Ty::Int));
    push_field(fields, "int_subtract", fn_of(struct2("0", Ty::Int, "1", Ty::Int), Ty::Int));
    push_field(fields, "int_times", fn_of(struct2("0", Ty::Int, "1", Ty::Int), Ty::Int));
    push_field(fields, "int_divided_by", fn_of(struct2("0", Ty::Int, "1", Ty::Int), Ty::Int));
    push_field(fields, "int_negate", fn_of(Ty::Int, Ty::Int));
    push_field(fields, "int_eq", fn_of(struct2("0", Ty::Int, "1", Ty::Int), Ty::Bool));
    push_field(fields, "int_not_eq", fn_of(struct2("0", Ty::Int, "1", Ty::Int), Ty::Bool));
    push_field(fields, "int_lt", fn_of(struct2("0", Ty::Int, "1", Ty::Int), Ty::Bool));
    push_field(fields, "int_gt", fn_of(struct2("0", Ty::Int, "1", Ty::Int), Ty::Bool));
    push_field(fields, "int_lt_eq", fn_of(struct2("0", Ty::Int, "1", Ty::Int), Ty::Bool));
    push_field(fields, "int_gt_eq", fn_of(struct2("0", Ty::Int, "1", Ty::Int), Ty::Bool));
    push_field(fields, "int_to_string", fn_of(Ty::Int, Ty::String));
    push_field(fields, "int_to_f64", fn_of(Ty::Int, Ty::Float));
    push_field(fields, "int_to_u8", fn_of(Ty::Int, Ty::Byte));
    push_field(fields, "int_to_char", fn_of(Ty::Int, Ty::Char));
    assert(fields_view(fields@) =~= start + core_int_methods());
}

/// The i32 methods.
pub open spec fn core_i32_methods() -> Seq<(Seq<char>, TyV)> {
    seq![
        ("i32_add"@, TyV::Fn(Box::new(TyV::Struct(seq![("0"@, TyV::Infer(0)), ("1"@, TyV::Infer(0))])), Box::new(TyV::Infer(0)))),
        ("i32_subtract"@, TyV::Fn(Box::new(TyV::Struct(seq![("0"@, TyV::Infer(0)), ("1"@, TyV::Infer(0))])), Box::new(TyV::Infer(0)))),
        ("i32_times"@, TyV::Fn(Box::new(TyV::Struct(seq![("0"@, TyV::Infer(0)), ("1"@, TyV::Infer(0))])), Box::new(TyV::Infer(0)))),
        ("i32_divided_by"@, TyV::Fn(Box::new(TyV::Struct(seq![("0"@, TyV::Infer(0)), ("1"@, TyV::Infer(0))])), Box::new(TyV::Infer(0)))),
        ("i32_negate"@, TyV::Fn(Box::new(TyV::Infer(0)), Box::new(TyV::Infer(0)))),
        ("i32_eq"@, TyV::Fn(Box::new(TyV::Struct(seq![("0"@, TyV::Infer(0)), ("1"@, TyV::Infer(0))])), Box::new(TyV::Bool))),
        ("i32_not_eq"@, TyV::Fn(Box::new(TyV::Struct(seq![("0"@, TyV::Infer(0)), ("1"@, TyV::Infer(0))])), Box::new(TyV::Bool))),
        ("i32_lt"@, TyV::Fn(Box::new(TyV::Struct(seq![("0"@, TyV::Infer(0)), ("1"@, TyV::Infer(0))])), Box::new(TyV::Bool))),
        ("i32_gt"@, TyV::Fn(Box::new(TyV::Struct(seq![("0"@, TyV::Infer(0)), ("1"@, TyV::Infer(0))])), Box::new(TyV::Bool))),
        ("i32_lt_eq"@, TyV::Fn(Box::new(TyV::Struct(seq![("0"@, TyV::Infer(0)), ("1"@, TyV::Infer(0))])), Box::new(TyV::Bool))),
        ("i32_gt_eq"@, TyV::Fn(Box::new(TyV::Struct(seq![("0"@, TyV::Infer(0)), ("1"@, TyV::Infer(0))])), Box::new(TyV::Bool))),
        ("i32_to_string"@, TyV::Fn(Box::new(TyV::Infer(0)), Box::new(TyV::Str))),
        ("i32_to_i64"@, TyV::Fn(Box::new(TyV::Infer(0)), Box::new(TyV::Int))),
        ("i32_to_f64"@, TyV::Fn(Box::new(TyV::Infer(0)), Box::new(TyV::Float))),
        ("i32_to_f32"@, TyV::Fn(Box::new(TyV::Infer(0)), Box::new(TyV::Infer(0)))),
        ("i32_to_u8"@, TyV::Fn(Box::new(TyV::Infer(0)), Box::new(TyV::Byte))),
    ]
}

fn push_core_i32_methods(fields: &mut Vec<(String, Ty)>)
    ensures
        fields_view(final(fields)@) == fields_view(old(fields)@) + core_i32_methods(),
{
    let ghost start = fields_view(fields@);
    push_field(fields, "i32_add", fn_of(struct2("0", Ty::Infer(0), "1", Ty::Infer(0)), Ty::Infer(0)));
    push_field(fields, "i32_subtract", fn_of(struct2("0", Ty::Infer(0), "1", Ty::Infer(0)), Ty::Infer(0)));
    push_field(fields, "i32_times", fn_of(struct2("0", Ty::Infer(0), "1", Ty::Infer(0)), Ty::Infer(0)));
    push_field(fields, "i32_divided_by", fn_of(struct2("0", Ty::Infer(0), "1", Ty::Infer(0)), Ty::Infer(0)));
    push_field(fields, "i32_negate", fn_of(Ty::Infer(0), Ty::Infer(0)));
    push_field(fields, "i32_eq", fn_of(struct2("0", Ty::Infer(0), "1", Ty::Infer(0)), Ty::Bool));
    push_field(fields, "i32_not_eq", fn_of(struct2("0", Ty::Infer(0), "1", Ty::Infer(0)), Ty::Bool));
    push_field(fields, "i32_lt", fn_of(struct2("0", Ty::Infer(0), "1", Ty::Infer(0)), Ty::Bool));
    push_field(fields, "i32_gt", fn_of(struct2("0", Ty::Infer(0), "1", Ty::Infer(0)), Ty::Bool));
    push_field(fields, "i32_lt_eq", fn_of(struct2("0", Ty::Infer(0), "1", Ty::Infer(0)), Ty::Bool));
    push_field(fields, "i32_gt_eq", fn_of(struct2("0", Ty::Infer(0), "1", Ty::Infer(0)), Ty::Bool));
    push_field(fields, "i32_to_string", fn_of(Ty::Infer(0), Ty::String));
    push_field(fields, "i32_to_i64", fn_of(Ty::Infer(0), Ty::Int));
    push_field(fields, "i32_to_f64", fn_of(Ty::Infer(0), Ty::Float));
    push_field(fields, "i32_to_f32", fn_of(Ty::Infer(0), Ty::Infer(0)));
    push_field(fields, "i32_to_u8", fn_of(Ty::Infer(0), Ty::Byte));
    assert(fields_view(fields@) =~= start + core_i32_methods());
}

/// The i128 methods.
pub open spec fn core_i128_methods() -> Seq<(Seq<char>, TyV)> {
    seq![
        ("i128_add"@, TyV::Fn(Box::new(TyV::Struct(seq![("0"@, TyV::Infer(0)), ("1"@, TyV::Infer(0))])), Box::new(TyV::Infer(0)))),
        ("i128_subtract"@, TyV::Fn(Box::new(TyV::Struct(seq![("0"@, TyV::Infer(0)), ("1"@, TyV::Infer(0))])), Box::new(TyV::Infer(0)))),
        ("i128_times"@, TyV::Fn(Box::new(TyV::Struct(seq![("0"@, TyV::Infer(0)), ("1"@, TyV::Infer(0))])), Box::new(TyV::Infer(0)))),
        ("i128_divided_by"@, TyV::Fn(Box::new(TyV::Struct(seq![("0"@, TyV::Infer(0)), ("1"@, TyV::Infer(0))])), Box::new(TyV::Infer(0)))),
        ("i128_negate"@, TyV::Fn(Box::new(TyV::Infer(0)), Box::new(TyV::Infer(0)))),
        ("i128_eq"@, TyV::Fn(Box::new(TyV::Struct(seq![("0"@, TyV::Infer(0)), ("1"@, TyV::Infer(0))])), Box::new(TyV::Bool))),
        ("i128_not_eq"@, TyV::Fn(Box::new(TyV::Struct(seq![("0"@, TyV::Infer(0)), ("1"@, TyV::Infer(0))])), Box::new(TyV::Bool))),
        ("i128_lt"@, TyV::Fn(Box::new(TyV::Struct(seq![("0"@, TyV::Infer(0)), ("1"@, TyV::Infer(0))])), Box::new(TyV::Bool))),
        ("i128_gt"@, TyV::Fn(Box::new(TyV::Struct(seq![("0"@, TyV::Infer(0)), ("1"@, TyV::Infer(0))])), Box::new(TyV::Bool))),
        ("i128_lt_eq"@, TyV::Fn(Box::new(TyV::Struct(seq![("0"@, TyV::Infer(0)), ("1"@, TyV::Infer(0))])), Box::new(TyV::Bool))),
        ("i128_gt_eq"@, TyV::Fn(Box::new(TyV::Struct(seq![("0"@, TyV::Infer(0)), ("1"@, TyV::Infer(0))])), Box::new(TyV::Bool))),
        ("i128_to_string"@, TyV::Fn(Box::new(TyV::Infer(0)), Box::new(TyV::Str))),
        ("i128_to_i64"@, TyV::Fn(Box::new(TyV::Infer(0)), Box::new(TyV::Int))),
        ("i128_to_i32"@, TyV::Fn(Box::new(TyV::Infer(0)), Box::new(TyV::Infer(0)))),
        ("i128_to_u128"@, TyV::Fn(Box::new(TyV::Infer(0)), Box::new(TyV::Infer(0)))),
    ]
}

fn push_core_i128_methods(fields: &mut Vec<(String, Ty)>)
    ensures
        fields_view(final(fields)@) == fields_view(old(fields)@) + core_i128_methods(),
{
    let ghost start = fields_view(fields@);
    push_field(fields, "i128_add", fn_of(struct2("0", Ty::Infer(0), "1", Ty::Infer(0)), Ty::Infer(0)));
    push_field(fields, "i128_subtract", fn_of(struct2("0", Ty::Infer(0), "1", Ty::Infer(0)), Ty::Infer(0)));
    push_field(fields, "i128_times", fn_of(struct2("0", Ty::Infer(0), "1", Ty::Infer(0)), Ty::Infer(0)));
    push_field(fields, "i128_divided_by", fn_of(struct2("0", Ty::Infer(0), "1", Ty::Infer(0)), Ty::Infer(0)));
    push_field(fields, "i128_negate", fn_of(Ty::Infer(0), Ty::Infer(0)));
    push_field(fields, "i128_eq", fn_of(struct2("0", Ty::Infer(0), "1", Ty::Infer(0)), Ty::Bool));
    push_field(fields, "i128_not_eq", fn_of(struct2("0", Ty::Infer(0), "1", Ty::Infer(0)), Ty::Bool));
    push_field(fields, "i128_lt", fn_of(struct2("0", Ty::Infer(0), "1", Ty::Infer(0)), Ty::Bool));
    push_field(fields, "i128_gt", fn_of(struct2("0", Ty::Infer(0), "1", Ty::Infer(0)), Ty::Bool));
    push_field(fields, "i128_lt_eq", fn_of(struct2("0", Ty::Infer(0), "1", Ty::Infer(0)), Ty::Bool));
    push_field(fields, "i128_gt_eq", fn_of(struct2("0", Ty::Infer(0), "1", Ty::Infer(0)), Ty::Bool));
    push_field(fields, "i128_to_string", fn_of(Ty::Infer(0), Ty::String));
    push_field(fields, "i128_to_i64", fn_of(Ty::Infer(0), Ty::Int));
    push_field(fields, "i128_to_i32", fn_of(Ty::Infer(0), Ty::Infer(0)));
    push_field(fields, "i128_to_u128", fn_of(Ty::Infer(0), Ty::Infer(0)));
    assert(fields_view(fields@) =~= start + core_i128_methods());
}

/// The u128 methods.
pub open spec fn core_u128_methods() -> Seq<(Seq<char>, TyV)> {
    seq![
        ("u128_add"@, TyV::Fn(Box::new(TyV::Struct(seq![("0"@, TyV::Infer(0)), ("1"@, TyV::Infer(0))])), Box::new(TyV::Infer(0)))),
        ("u128_subtract"@, TyV::Fn(Box::new(TyV::Struct(seq![("0"@, TyV::Infer(0)), ("1"@, TyV::Infer(0))])), Box::new(TyV::Infer(0)))),
        ("u128_times"@, TyV::Fn(Box::new(TyV::Struct(seq![("0"@, TyV::Infer(0)), ("1"@, TyV::Infer(0))])), Box::new(TyV::Infer(0)))),
        ("u128_divided_by"@, TyV::Fn(Box::new(TyV::Struct(seq![("0"@, TyV::Infer(0)), ("1"@, TyV::Infer(0))])), Box::new(TyV::Infer(0)))),
        ("u128_eq"@, TyV::Fn(Box::new(TyV::Struct(seq![("0"@, TyV::Infer(0)), ("1"@, TyV::Infer(0))])), Box::new(TyV::Bool))),
        ("u128_not_eq"@, TyV::Fn(Box::new(TyV::Struct(seq![("0"@, TyV::Infer(0)), ("1"@, TyV::Infer(0))])), Box::new(TyV::Bool))),
        ("u128_lt"@, TyV::Fn(Box::new(TyV::Struct(seq![("0"@, TyV::Infer(0)), ("1"@, TyV::Infer(0))])), Box::new(TyV::Bool))),
        ("u128_gt"@, TyV::Fn(Box::new(TyV::Struct(seq![("0"@, TyV::Infer(0)), ("1"@, TyV::Infer(0))])), Box::new(TyV::Bool))),
        ("u128_lt_eq"@, TyV::Fn(Box::new(TyV::Struct(seq![("0"@, TyV::Infer(0)), ("1"@, TyV::Infer(0))])), Box::new(TyV::Bool))),
        ("u128_gt_eq"@, TyV::Fn(Box::new(TyV::Struct(seq![("0"@, TyV::Infer(0)), ("1"@, TyV::Infer(0))])), Box::new(TyV::Bool))),
        ("u128_to_string"@, TyV::Fn(Box::new(TyV::Infer(0)), Box::new(TyV::Str))),
        ("u128_to_i64"@, TyV::Fn(Box::new(TyV::Infer(0)), Box::new(TyV::Int))),
        ("u128_to_i32"@, TyV::Fn(Box::new(TyV::Infer(0)), Box::new(TyV::Infer(0)))),
        ("u128_to_i128"@, TyV::Fn(Box::new(TyV::Infer(0)), Box::new(TyV::Infer(0)))),
    ]
}

fn push_core_u128_methods(fields: &mut Vec<(String, Ty)>)
    ensures
        fields_view(final(fields)@) == fields_view(old(fields)@) + core_u128_methods(),
{
    let ghost start = fields_view(fields@);
    push_field(fields, "u128_add", fn_of(struct2("0", Ty::Infer(0), "1", Ty::Infer(0)), Ty::Infer(0)));
    push_field(fields, "u128_subtract", fn_of(struct2("0", Ty::Infer(0), "1", Ty::Infer(0)), Ty::Infer(0)));
    push_field(fields, "u128_times", fn_of(struct2("0", Ty::Infer(0), "1", Ty::Infer(0)), Ty::Infer(0)));
    push_field(fields, "u128_divided_by", fn_of(struct2("0", Ty::Infer(0), "1", Ty::Infer(0)), Ty::Infer(0)));
    push_field(fields, "u128_eq", fn_of(struct2("0", Ty::Infer(0), "1", Ty::Infer(0)), Ty::Bool));
    push_field(fields, "u128_not_eq", fn_of(struct2("0", Ty::Infer(0), "1", Ty::Infer(0)), Ty::Bool));
    push_field(fields, "u128_lt", fn_of(struct2("0", Ty::Infer(0), "1", Ty::Infer(0)), Ty::Bool));
    push_field(fields, "u128_gt", fn_of(struct2("0", Ty::Infer(0), "1", Ty::Infer(0)), Ty::Bool));
    push_field(fields, "u128_lt_eq", fn_of(struct2("0", Ty::Infer(0), "1", Ty::Infer(0)), Ty::Bool));
    push_field(fields, "u128_gt_eq", fn_of(struct2("0", Ty::Infer(0), "1", Ty::Infer(0)), Ty::Bool));
    push_field(fields, "u128_to_string", fn_of(Ty::Infer(0), Ty::String));
    push_field(fields, "u128_to_i64", fn_of(Ty::Infer(0), Ty::Int));
    push_field(fields, "u128_to_i32", fn_of(Ty::Infer(0), Ty::Infer(0)));
    push_field(fields, "u128_to_i128", fn_of(Ty::Infer(0), Ty::Infer(0)));
    assert(fields_view(fields@) =~= start + core_u128_methods());
}

/// The f32 methods; rounding gives an i32.
pub open spec fn core_f32_methods() -> Seq<(Seq<char>, TyV)> {
    seq![
        ("f32_add"@, TyV::Fn(Box::new(TyV::Struct(seq![("0"@, TyV::Infer(0)), ("1"@, TyV::Infer(0))])), Box::new(TyV::Infer(0)))),
        ("f32_subtract"@, TyV::Fn(Box::new(TyV::Struct(seq![("0"@, TyV::Infer(0)), ("1"@, TyV::Infer(0))])), Box::new(TyV::Infer(0)))),
        ("f32_times"@, TyV::Fn(Box::new(TyV::Struct(seq![("0"@, TyV::Infer(0)), ("1"@, TyV::Infer(0))])), Box::new(TyV::Infer(0)))),
        ("f32_divided_by"@, TyV::Fn(Box::new(TyV::Struct(seq![("0"@, TyV::Infer(0)), ("1"@, TyV::Infer(0))])), Box::new(TyV::Infer(0)))),
        ("f32_negate"@, TyV::Fn(Box::new(TyV::Infer(0)), Box::new(TyV::Infer(0)))),
        ("f32_eq"@, TyV::Fn(Box::new(TyV::Struct(seq![("0"@, TyV::Infer(0)), ("1"@, TyV::Infer(0))])), Box::new(TyV::Bool))),
        ("f32_not_eq"@, TyV::Fn(Box::new(TyV::Struct(seq![("0"@, TyV::Infer(0)), ("1"@, TyV::Infer(0))])), Box::new(TyV::Bool))),
        ("f32_lt"@, TyV::Fn(Box::new(TyV::Struct(seq![("0"@, TyV::Infer(0)), ("1"@, TyV::Infer(0))])), Box::new(TyV::Bool))),
        ("f32_gt"@, TyV::Fn(Box::new(TyV::Struct(seq![("0"@, TyV::Infer(0)), ("1"@, TyV::Infer(0))])), Box::new(TyV::Bool))),
        ("f32_lt_eq"@, TyV::Fn(Box::new(TyV::Struct(seq![("0"@, TyV::Infer(0)), ("1"@, TyV::Infer(0))])), Box::new(TyV::Bool))),
        ("f32_gt_eq"@, TyV::Fn(Box::new(TyV::Struct(seq![("0"@, TyV::Infer(0)), ("1"@, TyV::Infer(0))])), Box::new(TyV::Bool))),
        ("f32_to_string"@, TyV::Fn(Box::new(TyV::Infer(0)), Box::new(TyV::Str))),
        ("f32_to_f64"@, TyV::Fn(Box::new(TyV::Infer(0)), Box::new(TyV::Float))),
        ("f32_to_i64"@, TyV::Fn(Box::new(TyV::Infer(0)), Box::new(TyV::Int))),
        ("f32_to_i32"@, TyV::Fn(Box::new(TyV::Infer(0)), Box::new(TyV::Infer(0)))),
        ("f32_ceil"@, TyV::Fn(Box::new(TyV::Infer(0)), Box::new(TyV::Infer(0)))),
        ("f32_floor"@, TyV::Fn(Box::new(TyV::Infer(0)), Box::new(TyV::Infer(0)))),
        ("f32_round"@, TyV::Fn(Box::new(TyV::Infer(0)), Box::new(TyV::Infer(0)))),
        ("f32_trunc"@, TyV::Fn(Box::new(TyV::Infer(0)), Box::new(TyV::Infer(0)))),
    ]
}

fn push_core_f32_methods(fields: &mut Vec<(String, Ty)>)
    ensures
        fields_view(final(fields)@) == fields_view(old(fields)@) + core_f32_methods(),
{
    let ghost start = fields_view(fields@);
    push_field(fields, "f32_add", fn_of(struct2("0", Ty::Infer(0), "1", Ty::Infer(0)), Ty::Infer(0)));
    push_field(fields, "f32_subtract", fn_of(struct2("0", Ty::Infer(0), "1", Ty::Infer(0)), Ty::Infer(0)));
    push_field(fields, "f32_times", fn_of(struct2("0", Ty::Infer(0), "1", Ty::Infer(0)), Ty::Infer(0)));
    push_field(fields, "f32_divided_by", fn_of(struct2("0", Ty::Infer(0), "1", Ty::Infer(0)), Ty::Infer(0)));
    push_field(fields, "f32_negate", fn_of(Ty::Infer(0), Ty::Infer(0)));
    push_field(fields, "f32_eq", fn_of(struct2("0", Ty::Infer(0), "1", Ty::Infer(0)), Ty::Bool));
    push_field(fields, "f32_not_eq", fn_of(struct2("0", Ty::Infer(0), "1", Ty::Infer(0)), Ty::Bool));
    push_field(fields, "f32_lt", fn_of(struct2("0", Ty::Infer(0), "1", Ty::Infer(0)), Ty::Bool));
    push_field(fields, "f32_gt", fn_of(struct2("0", Ty::Infer(0), "1", Ty::Infer(0)), Ty::Bool));
    push_field(fields, "f32_lt_eq", fn_of(struct2("0", Ty::Infer(0), "1", Ty::Infer(0)), Ty::Bool));
    push_field(fields, "f32_gt_eq", fn_of(struct2("0", Ty::Infer(0), "1", Ty::Infer(0)), Ty::Bool));
    push_field(fields, "f32_to_string", fn_of(Ty::Infer(0), Ty::String));
    push_field(fields, "f32_to_f64", fn_of(Ty::Infer(0), Ty::Float));
    push_field(fields, "f32_to_i64", fn_of(Ty::Infer(0), Ty::Int));
    push_field(fields, "f32_to_i32", fn_of(Ty::Infer(0), Ty::Infer(0)));
    push_field(fields, "f32_ceil", fn_of(Ty::Infer(0), Ty::Infer(0)));
    push_field(fields, "f32_floor", fn_of(Ty::Infer(0), Ty::Infer(0)));
    push_field(fields, "f32_round", fn_of(Ty::Infer(0), Ty::Infer(0)));
    push_field(fields, "f32_trunc", fn_of(Ty::Infer(0), Ty::Infer(0)));
    assert(fields_view(fields@) =~= start + core_f32_methods());
}

/// The float methods: arithmetic is `Float × Float → Float`, without promotion; rounding gives an int.
pub open spec fn core_float_methods() -> Seq<(Seq<char>, TyV)> {
    seq![
        ("float_add"@, TyV::Fn(Box::new(TyV::Struct(seq![("0"@, TyV::Float), ("1"@, TyV::Float)])), Box::new(TyV::Float))),
        ("float_subtract"@, TyV::Fn(Box::new(TyV::Struct(seq![("0"@, TyV::Float), ("1"@, TyV::Float)])), Box::new(TyV::Float))),
        ("float_times"@, TyV::Fn(Box::new(TyV::Struct(seq![("0"@, TyV::Float), ("1"@, TyV::Float)])), Box::new(TyV::Float))),
        ("float_divided_by"@, TyV::Fn(Box::new(TyV::Struct(seq![("0"@, TyV::Float), ("1"@, TyV::Float)])), Box::new(TyV::Float))),
        ("float_negate"@, TyV::Fn(Box::new(TyV::Float), Box::new(TyV::Float))),
        ("float_eq"@, TyV::Fn(Box::new(TyV::Struct(seq![("0"@, TyV::Float), ("1"@, TyV::Float)])), Box::new(TyV::Bool))),
        ("float_not_eq"@, TyV::Fn(Box::new(TyV::Struct(seq![("0"@, TyV::Float), ("1"@, TyV::Float)])), Box::new(TyV::Bool))),
        ("float_lt"@, TyV::Fn(Box::new(TyV::Struct(seq![("0"@, TyV::Float), ("1"@, TyV::Float)])), Box::new(TyV::Bool))),
        ("float_gt"@, TyV::Fn(Box::new(TyV::Struct(seq![("0"@, TyV::Float), ("1"@, TyV::Float)])), Box::new(TyV::Bool))),
        ("float_lt_eq"@, TyV::Fn(Box::new(TyV::Struct(seq![("0"@, TyV::Float), ("1"@, TyV::Float)])), Box::new(TyV::Bool))),
        ("float_gt_eq"@, TyV::Fn(Box::new(TyV::Struct(seq![("0"@, TyV::Float), ("1"@, TyV::Float)])), Box::new(TyV::Bool))),
        ("float_to_string"@, TyV::Fn(Box::new(TyV::Float), Box::new(TyV::Str))),
        ("float_to_i64"@, TyV::Fn(Box::new(TyV::Float), Box::new(TyV::Int))),
        ("float_ceil"@, TyV::Fn(Box::new(TyV::Float), Box::new(TyV::Int))),
        ("float_floor"@, TyV::Fn(Box::new(TyV::Float), Box::new(TyV::Int))),
        ("float_round"@, TyV::Fn(Box::new(TyV::Float), Box::new(TyV::Int))),
        ("float_trunc"@, TyV::Fn(Box::new(TyV::Float), Box::new(TyV::Int))),
    ]
}

fn push_core_float_methods(fields: &mut Vec<(String, Ty)>)
    ensures
        fields_view(final(fields)@) == fields_view(old(fields)@) + core_float_methods(),
{
    let ghost start = fields_view(fields@);
    push_field(fields, "float_add", fn_of(struct2("0", Ty::Float, "1", Ty::Float), Ty::Float));
    push_field(fields, "float_subtract", fn_of(struct2("0", Ty::Float, "1", Ty::Float), Ty::Float));
    push_field(fields, "float_times", fn_of(struct2("0", Ty::Float, "1", Ty::Float), Ty::Float));
    push_field(fields, "float_divided_by", fn_of(struct2("0", Ty::Float, "1", Ty::Float), Ty::Float));
    push_field(fields, "float_negate", fn_of(Ty::Float, Ty::Float));
    push_field(fields, "float_eq", fn_of(struct2("0", Ty::Float, "1", Ty::Float), Ty::Bool));
    push_field(fields, "float_not_eq", fn_of(struct2("0", Ty::Float, "1", Ty::Float), Ty::Bool));
    push_field(fields, "float_lt", fn_of(struct2("0", Ty::Float, "1", Ty::Float), Ty::Bool));
    push_field(fields, "float_gt", fn_of(struct2("0", Ty::Float, "1", Ty::Float), Ty::Bool));
    push_field(fields, "float_lt_eq", fn_of(struct2("0", Ty::Float, "1", Ty::Float), Ty::Bool));
    push_field(fields, "float_gt_eq", fn_of(struct2("0", Ty::Float, "1", Ty::Float), Ty::Bool));
    push_field(fields, "float_to_string", fn_of(Ty::Float, Ty::String));
    push_field(fields, "float_to_i64", fn_of(Ty::Float, Ty::Int));
    push_field(fields, "float_ceil", fn_of(Ty::Float, Ty::Int));
    push_field(fields, "float_floor", fn_of(Ty::Float, Ty::Int));
    push_field(fields, "float_round", fn_of(Ty::Float, Ty::Int));
    push_field(fields, "float_trunc", fn_of(Ty::Float, Ty::Int));
    assert(fields_view(fields@) =~= start + core_float_methods());
}

/// The bool, char, byte and unit methods.
pub open spec fn core_other_methods() -> Seq<(Seq<char>, TyV)> {
    seq![
        ("bool_eq"@, TyV::Fn(Box::new(TyV::Struct(seq![("0"@, TyV::Bool), ("1"@, TyV::Bool)])), Box::new(TyV::Bool))),
        ("bool_not_eq"@, TyV::Fn(Box::new(TyV::Struct(seq![("0"@, TyV::Bool), ("1"@, TyV::Bool)])), Box::new(TyV::Bool))),
        ("bool_to_string"@, TyV::Fn(Box::new(TyV::Bool), Box::new(TyV::Str))),
        ("char_eq"@, TyV::Fn(Box::new(TyV::Struct(seq![("0"@, TyV::Char), ("1"@, TyV::Char)])), Box::new(TyV::Bool))),
        ("char_not_eq"@, TyV::Fn(Box::new(TyV::Struct(seq![("0"@, TyV::Char), ("1"@, TyV::Char)])), Box::new(TyV::Bool))),
        ("char_lt"@, TyV::Fn(Box::new(TyV::Struct(seq![("0"@, TyV::Char), ("1"@, TyV::Char)])), Box::new(TyV::Bool))),
        ("char_gt"@, TyV::Fn(Box::new(TyV::Struct(seq![("0"@, TyV::Char), ("1"@, TyV::Char)])), Box::new(TyV::Bool))),
        ("char_lt_eq"@, TyV::Fn(Box::new(TyV::Struct(seq![("0"@, TyV::Char), ("1"@, TyV::Char)])), Box::new(TyV::Bool))),
        ("char_gt_eq"@, TyV::Fn(Box::new(TyV::Struct(seq![("0"@, TyV::Char), ("1"@, TyV::Char)])), Box::new(TyV::Bool))),
        ("char_to_string"@, TyV::Fn(Box::new(TyV::Char), Box::new(TyV::Str))),
        ("char_to_i64"@, TyV::Fn(Box::new(TyV::Char), Box::new(TyV::Int))),
        ("byte_eq"@, TyV::Fn(Box::new(TyV::Struct(seq![("0"@, TyV::Byte), ("1"@, TyV::Byte)])), Box::new(TyV::Bool))),
        ("byte_not_eq"@, TyV::Fn(Box::new(TyV::Struct(seq![("0"@, TyV::Byte), ("1"@, TyV::Byte)])), Box::new(TyV::Bool))),
        ("byte_lt"@, TyV::Fn(Box::new(TyV::Struct(seq![("0"@, TyV::Byte), ("1"@, TyV::Byte)])), Box::new(TyV::Bool))),
        ("byte_gt"@, TyV::Fn(Box::new(TyV::Struct(seq![("0"@, TyV::Byte), ("1"@, TyV::Byte)])), Box::new(TyV::Bool))),
        ("byte_lt_eq"@, TyV::Fn(Box::new(TyV::Struct(seq![("0"@, TyV::Byte), ("1"@, TyV::Byte)])), Box::new(TyV::Bool))),
        ("byte_gt_eq"@, TyV::Fn(Box::new(TyV::Struct(seq![("0"@, TyV::Byte), ("1"@, TyV::Byte)])), Box::new(TyV::Bool))),
        ("byte_to_string"@, TyV::Fn(Box::new(TyV::Byte), Box::new(TyV::Str))),
        ("byte_to_i64"@, TyV::Fn(Box::new(TyV::Byte), Box::new(TyV::Int))),
        ("unit_eq"@, TyV::Fn(Box::new(TyV::Unit), Box::new(TyV::Bool))),
        ("unit_not_eq"@, TyV::Fn(Box::new(TyV::Unit), Box::new(TyV::Bool))),
    ]
}

fn push_core_other_methods(fields: &mut Vec<(String, Ty)>)
    ensures
        fields_view(final(fields)@) == fields_view(old(fields)@) + core_other_methods(),
{
    let ghost start = fields_view(fields@);
    push_field(fields, "bool_eq", fn_of(struct2("0", Ty::Bool, "1", Ty::Bool), Ty::Bool));
    push_field(fields, "bool_not_eq", fn_of(struct2("0", Ty::Bool, "1", Ty::Bool), Ty::Bool));
    push_field(fields, "bool_to_string", fn_of(Ty::Bool, Ty::String));
    push_field(fields, "char_eq", fn_of(struct2("0", Ty::Char, "1", Ty::Char), Ty::Bool));
    push_field(fields, "char_not_eq", fn_of(struct2("0", Ty::Char, "1", Ty::Char), Ty::Bool));
    push_field(fields, "char_lt", fn_of(struct2("0", Ty::Char, "1", Ty::Char), Ty::Bool));
    push_field(fields, "char_gt", fn_of(struct2("0", Ty::Char, "1", Ty::Char), Ty::Bool));
    push_field(fields, "char_lt_eq", fn_of(struct2("0", Ty::Char, "1", Ty::Char), Ty::Bool));
    push_field(fields, "char_gt_eq", fn_of(struct2("0", Ty::Char, "1", Ty::Char), Ty::Bool));
    push_field(fields, "char_to_string", fn_of(Ty::Char, Ty::String));
    push_field(fields, "char_to_i64", fn_of(Ty::Char, Ty::Int));
    push_field(fields, "byte_eq", fn_of(struct2("0", Ty::Byte, "1", Ty::Byte), Ty::Bool));
    push_field(fields, "byte_not_eq", fn_of(struct2("0", Ty::Byte, "1", Ty::Byte), Ty::Bool));
    push_field(fields, "byte_lt", fn_of(struct2("0", Ty::Byte, "1", Ty::Byte), Ty::Bool));
    push_field(fields, "byte_gt", fn_of(struct2("0", Ty::Byte, "1", Ty::Byte), Ty::Bool));
    push_field(fields, "byte_lt_eq", fn_of(struct2("0", Ty::Byte, "1", Ty::Byte), Ty::Bool));
    push_field(fields, "byte_gt_eq", fn_of(struct2("0", Ty::Byte, "1", Ty::Byte), Ty::Bool));
    push_field(fields, "byte_to_string", fn_of(Ty::Byte, Ty::String));
    push_field(fields, "byte_to_i64", fn_of(Ty::Byte, Ty::Int));
    push_field(fields, "unit_eq", fn_of(Ty::Unit, Ty::Bool));
    push_field(fields, "unit_not_eq", fn_of(Ty::Unit, Ty::Bool));
    assert(fields_view(fields@) =~= start + core_other_methods());
}

/// The conversions between integer and float types.
pub open spec fn core_conversions() -> Seq<(Seq<char>, TyV)> {
    seq![
        ("int_to_i32"@, TyV::Fn(Box::new(TyV::Int), Box::new(TyV::Infer(0)))),
        ("float_to_f32"@, TyV::Fn(Box::new(TyV::Float), Box::new(TyV::Infer(0)))),
        ("u8_to_i32"@, TyV::Fn(Box::new(TyV::Byte), Box::new(TyV::Infer(0)))),
        ("int_to_i128"@, TyV::Fn(Box::new(TyV::Int), Box::new(TyV::Infer(0)))),
        ("int_to_u128"@, TyV::Fn(Box::new(TyV::Int), Box::new(TyV::Infer(0)))),
        ("u8_to_i128"@, TyV::Fn(Box::new(TyV::Byte), Box::new(TyV::Infer(0)))),
        ("u8_to_u128"@, TyV::Fn(Box::new(TyV::Byte), Box::new(TyV::Infer(0)))),
        ("i32_to_i128"@, TyV::Fn(Box::new(TyV::Infer(0)), Box::new(TyV::Infer(0)))),
        ("i32_to_u128"@, TyV::Fn(Box::new(TyV::Infer(0)), Box::new(TyV::Infer(0)))),
        ("int_to_i8"@, TyV::Fn(Box::new(TyV::Int), Box::new(TyV::Infer(0)))),
        ("int_to_i16"@, TyV::Fn(Box::new(TyV::Int), Box::new(TyV::Infer(0)))),
        ("int_to_u16"@, TyV::Fn(Box::new(TyV::Int), Box::new(TyV::Infer(0)))),
        ("int_to_u32"@, TyV::Fn(Box::new(TyV::Int), Box::new(TyV::Infer(0)))),
        ("int_to_u64"@, TyV::Fn(Box::new(TyV::Int), Box::new(TyV::Infer(0)))),
        ("int_to_f32"@, TyV::Fn(Box::new(TyV::Int), Box::new(TyV::Infer(0)))),
        ("float_to_f64"@, TyV::Fn(Box::new(TyV::Float), Box::new(TyV::Float))),
    ]
}

fn push_core_conversions(fields: &mut Vec<(String, Ty)>)
    ensures
        fields_view(final(fields)@) == fields_view(old(fields)@) + core_conversions(),
{
    let ghost start = fields_view(fields@);
    push_field(fields, "int_to_i32", fn_of(Ty::Int, Ty::Infer(0)));
    push_field(fields, "float_to_f32", fn_of(Ty::Float, Ty::Infer(0)));
    push_field(fields, "u8_to_i32", fn_of(Ty::Byte, Ty::Infer(0)));
    push_field(fields, "int_to_i128", fn_of(Ty::Int, Ty::Infer(0)));
    push_field(fields, "int_to_u128", fn_of(Ty::Int, Ty::Infer(0)));
    push_field(fields, "u8_to_i128", fn_of(Ty::Byte, Ty::Infer(0)));
    push_field(fields, "u8_to_u128", fn_of(Ty::Byte, Ty::Infer(0)));
    push_field(fields, "i32_to_i128", fn_of(Ty::Infer(0), Ty::Infer(0)));
    push_field(fields, "i32_to_u128", fn_of(Ty::Infer(0), Ty::Infer(0)));
    push_field(fields, "int_to_i8", fn_of(Ty::Int, Ty::Infer(0)));
    push_field(fields, "int_to_i16", fn_of(Ty::Int, Ty::Infer(0)));
    push_field(fields, "int_to_u16", fn_of(Ty::Int, Ty::Infer(0)));
    push_field(fields, "int_to_u32", fn_of(Ty::Int, Ty::Infer(0)));
    push_field(fields, "int_to_u64", fn_of(Ty::Int, Ty::Infer(0)));
    push_field(fields, "int_to_f32", fn_of(Ty::Int, Ty::Infer(0)));
    push_field(fields, "float_to_f64", fn_of(Ty::Float, Ty::Float));
    assert(fields_view(fields@) =~= start + core_conversions());
}

/// The i8 methods.
pub open spec fn core_i8_methods() -> Seq<(Seq<char>, TyV)> {
    seq![
        ("i8_add"@, TyV::Fn(Box::new(TyV::Struct(seq![("0"@, TyV::Infer(0)), ("1"@, TyV::Infer(0))])), Box::new(TyV::Infer(0)))),
        ("i8_subtract"@, TyV::Fn(Box::new(TyV::Struct(seq![("0"@, TyV::Infer(0)), ("1"@, TyV::Infer(0))])), Box::new(TyV::Infer(0)))),
        ("i8_times"@, TyV::Fn(Box::new(TyV::Struct(seq![("0"@, TyV::Infer(0)), ("1"@, TyV::Infer(0))])), Box::new(TyV::Infer(0)))),
        ("i8_divided_by"@, TyV::Fn(Box::new(TyV::Struct(seq![("0"@, TyV::Infer(0)), ("1"@, TyV::Infer(0))])), Box::new(TyV::Infer(0)))),
        ("i8_negate"@, TyV::Fn(Box::new(TyV::Infer(0)), Box::new(TyV::Infer(0)))),
        ("i8_eq"@, TyV::Fn(Box::new(TyV::Struct(seq![("0"@, TyV::Infer(0)), ("1"@, TyV::Infer(0))])), Box::new(TyV::Bool))),
        ("i8_not_eq"@, TyV::Fn(Box::new(TyV::Struct(seq![("0"@, TyV::Infer(0)), ("1"@, TyV::Infer(0))])), Box::new(TyV::Bool))),
        ("i8_lt"@, TyV::Fn(Box::new(TyV::Struct(seq![("0"@, TyV::Infer(0)), ("1"@, TyV::Infer(0))])), Box::new(TyV::Bool))),
        ("i8_gt"@, TyV::Fn(Box::new(TyV::Struct(seq![("0"@, TyV::Infer(0)), ("1"@, TyV::Infer(0))])), Box::new(TyV::Bool))),
        ("i8_lt_eq"@, TyV::Fn(Box::new(TyV::Struct(seq![("0"@, TyV::Infer(0)), ("1"@, TyV::Infer(0))])), Box::new(TyV::Bool))),
        ("i8_gt_eq"@, TyV::Fn(Box::new(TyV::Struct(seq![("0"@, TyV::Infer(0)), ("1"@, TyV::Infer(0))])), Box::new(TyV::Bool))),
        ("i8_to_string"@, TyV::Fn(Box::new(TyV::Infer(0)), Box::new(TyV::Str))),
        ("i8_to_i64"@, TyV::Fn(Box::new(TyV::Infer(0)), Box::new(TyV::Int))),
    ]
}

fn push_core_i8_methods(fields: &mut Vec<(String, Ty)>)
    ensures
        fields_view(final(fields)@) == fields_view(old(fields)@) + core_i8_methods(),
{
    let ghost start = fields_view(fields@);
    push_field(fields, "i8_add", fn_of(struct2("0", Ty::Infer(0), "1", Ty::Infer(0)), Ty::Infer(0)));
    push_field(fields, "i8_subtract", fn_of(struct2("0", Ty::Infer(0), "1", Ty::Infer(0)), Ty::Infer(0)));
    push_field(fields, "i8_times", fn_of(struct2("0", Ty::Infer(0), "1", Ty::Infer(0)), Ty::Infer(0)));
    push_field(fields, "i8_divided_by", fn_of(struct2("0", Ty::Infer(0), "1", Ty::Infer(0)), Ty::Infer(0)));
    push_field(fields, "i8_negate", fn_of(Ty::Infer(0), Ty::Infer(0)));
    push_field(fields, "i8_eq", fn_of(struct2("0", Ty::Infer(0), "1", Ty::Infer(0)), Ty::Bool));
    push_field(fields, "i8_not_eq", fn_of(struct2("0", Ty::Infer(0), "1", Ty::Infer(0)), Ty::Bool));
    push_field(fields, "i8_lt", fn_of(struct2("0", Ty::Infer(0), "1", Ty::Infer(0)), Ty::Bool));
    push_field(fields, "i8_gt", fn_of(struct2("0", Ty::Infer(0), "1", Ty::Infer(0)), Ty::Bool));
    push_field(fields, "i8_lt_eq", fn_of(struct2("0", Ty::Infer(0), "1", Ty::Infer(0)), Ty::Bool));
    push_field(fields, "i8_gt_eq", fn_of(struct2("0", Ty::Infer(0), "1", Ty::Infer(0)), Ty::Bool));
    push_field(fields, "i8_to_string", fn_of(Ty::Infer(0), Ty::String));
    push_field(fields, "i8_to_i64", fn_of(Ty::Infer(0), Ty::Int));
    assert(fields_view(fields@) =~= start + core_i8_methods());
}

/// The u8 methods, on bytes.
pub open spec fn core_u8_methods() -> Seq<(Seq<char>, TyV)> {
    seq![
        ("u8_add"@, TyV::Fn(Box::new(TyV::Struct(seq![("0"@, TyV::Byte), ("1"@, TyV::Byte)])), Box::new(TyV::Byte))),
        ("u8_subtract"@, TyV::Fn(Box::new(TyV::Struct(seq![("0"@, TyV::Byte), ("1"@, TyV::Byte)])), Box::new(TyV::Byte))),
        ("u8_times"@, TyV::Fn(Box::new(TyV::Struct(seq![("0"@, TyV::Byte), ("1"@, TyV::Byte)])), Box::new(TyV::Byte))),
        ("u8_divided_by"@, TyV::Fn(Box::new(TyV::Struct(seq![("0"@, TyV::Byte), ("1"@, TyV::Byte)])), Box::new(TyV::Byte))),
        ("u8_eq"@, TyV::Fn(Box::new(TyV::Struct(seq![("0"@, TyV::Byte), ("1"@, TyV::Byte)])), Box::new(TyV::Bool))),
        ("u8_not_eq"@, TyV::Fn(Box::new(TyV::Struct(seq![("0"@, TyV::Byte), ("1"@, TyV::Byte)])), Box::new(TyV::Bool))),
        ("u8_lt"@, TyV::Fn(Box::new(TyV::Struct(seq![("0"@, TyV::Byte), ("1"@, TyV::Byte)])), Box::new(TyV::Bool))),
        ("u8_gt"@, TyV::Fn(Box::new(TyV::Struct(seq![("0"@, TyV::Byte), ("1"@, TyV::Byte)])), Box::new(TyV::Bool))),
        ("u8_lt_eq"@, TyV::Fn(Box::new(TyV::Struct(seq![("0"@, TyV::Byte), ("1"@, TyV::Byte)])), Box::new(TyV::Bool))),
        ("u8_gt_eq"@, TyV::Fn(Box::new(TyV::Struct(seq![("0"@, TyV::Byte), ("1"@, TyV::Byte)])), Box::new(TyV::Bool))),
        ("u8_to_string"@, TyV::Fn(Box::new(TyV::Byte), Box::new(TyV::Str))),
        ("u8_to_i64"@, TyV::Fn(Box::new(TyV::Byte), Box::new(TyV::Int))),
    ]
}

fn push_core_u8_methods(fields: &mut Vec<(String, Ty)>)
    ensures
        fields_view(final(fields)@) == fields_view(old(fields)@) + core_u8_methods(),
{
    let ghost start = fields_view(fields@);
    push_field(fields, "u8_add", fn_of(struct2("0", Ty::Byte, "1", Ty::Byte), Ty::Byte));
    push_field(fields, "u8_subtract", fn_of(struct2("0", Ty::Byte, "1", Ty::Byte), Ty::Byte));
    push_field(fields, "u8_times", fn_of(struct2("0", Ty::Byte, "1", Ty::Byte), Ty::Byte));
    push_field(fields, "u8_divided_by", fn_of(struct2("0", Ty::Byte, "1", Ty::Byte), Ty::Byte));
    push_field(fields, "u8_eq", fn_of(struct2("0", Ty::Byte, "1", Ty::Byte), Ty::Bool));
    push_field(fields, "u8_not_eq", fn_of(struct2("0", Ty::Byte, "1", Ty::Byte), Ty::Bool));
    push_field(fields, "u8_lt", fn_of(struct2("0", Ty::Byte, "1", Ty::Byte), Ty::Bool));
    push_field(fields, "u8_gt", fn_of(struct2("0", Ty::Byte, "1", Ty::Byte), Ty::Bool));
    push_field(fields, "u8_lt_eq", fn_of(struct2("0", Ty::Byte, "1", Ty::Byte), Ty::Bool));
    push_field(fields, "u8_gt_eq", fn_of(struct2("0", Ty::Byte, "1", Ty::Byte), Ty::Bool));
    push_field(fields, "u8_to_string", fn_of(Ty::Byte, Ty::String));
    push_field(fields, "u8_to_i64", fn_of(Ty::Byte, Ty::Int));
    assert(fields_view(fields@) =~= start + core_u8_methods());
}

/// The i16 methods.
pub open spec fn core_i16_methods() -> Seq<(Seq<char>, TyV)> {
    seq![
        ("i16_add"@, TyV::Fn(Box::new(TyV::Struct(seq![("0"@, TyV::Infer(0)), ("1"@, TyV::Infer(0))])), Box::new(TyV::Infer(0)))),
        ("i16_subtract"@, TyV::Fn(Box::new(TyV::Struct(seq![("0"@, TyV::Infer(0)), ("1"@, TyV::Infer(0))])), Box::new(TyV::Infer(0)))),
        ("i16_times"@, TyV::Fn(Box::new(TyV::Struct(seq![("0"@, TyV::Infer(0)), ("1"@, TyV::Infer(0))])), Box::new(TyV::Infer(0)))),
        ("i16_divided_by"@, TyV::Fn(Box::new(TyV::Struct(seq![("0"@, TyV::Infer(0)), ("1"@, TyV::Infer(0))])), Box::new(TyV::Infer(0)))),
        ("i16_negate"@, TyV::Fn(Box::new(TyV::Infer(0)), Box::new(TyV::Infer(0)))),
        ("i16_eq"@, TyV::Fn(Box::new(TyV::Struct(seq![("0"@, TyV::Infer(0)), ("1"@, TyV::Infer(0))])), Box::new(TyV::Bool))),
        ("i16_not_eq"@, TyV::Fn(Box::new(TyV::Struct(seq![("0"@, TyV::Infer(0)), ("1"@, TyV::Infer(0))])), Box::new(TyV::Bool))),
        ("i16_lt"@, TyV::Fn(Box::new(TyV::Struct(seq![("0"@, TyV::Infer(0)), ("1"@, TyV::Infer(0))])), Box::new(TyV::Bool))),
        ("i16_gt"@, TyV::Fn(Box::new(TyV::Struct(seq![("0"@, TyV::Infer(0)), ("1"@, TyV::Infer(0))])), Box::new(TyV::Bool))),
        ("i16_lt_eq"@, TyV::Fn(Box::new(TyV::Struct(seq![("0"@, TyV::Infer(0)), ("1"@, TyV::Infer(0))])), Box::new(TyV::Bool))),
        ("i16_gt_eq"@, TyV::Fn(Box::new(TyV::Struct(seq![("0"@, TyV::Infer(0)), ("1"@, TyV::Infer(0))])), Box::new(TyV::Bool))),
        ("i16_to_string"@, TyV::Fn(Box::new(TyV::Infer(0)), Box::new(TyV::Str))),
        ("i16_to_i64"@, TyV::Fn(Box::new(TyV::Infer(0)), Box::new(TyV::Int))),
    ]
}

fn push_core_i16_methods(fields: &mut Vec<(String, Ty)>)
    ensures
        fields_view(final(fields)@) == fields_view(old(fields)@) + core_i16_methods(),
{
    let ghost start = fields_view(fields@);
    push_field(fields, "i16_add", fn_of(struct2("0", Ty::Infer(0), "1", Ty::Infer(0)), Ty::Infer(0)));
    push_field(fields, "i16_subtract", fn_of(struct2("0", Ty::Infer(0), "1", Ty::Infer(0)), Ty::Infer(0)));
    push_field(fields, "i16_times", fn_of(struct2("0", Ty::Infer(0), "1", Ty::Infer(0)), Ty::Infer(0)));
    push_field(fields, "i16_divided_by", fn_of(struct2("0", Ty::Infer(0), "1", Ty::Infer(0)), Ty::Infer(0)));
    push_field(fields, "i16_negate", fn_of(Ty::Infer(0), Ty::Infer(0)));
    push_field(fields, "i16_eq", fn_of(struct2("0", Ty::Infer(0), "1", Ty::Infer(0)), Ty::Bool));
    push_field(fields, "i16_not_eq", fn_of(struct2("0", Ty::Infer(0), "1", Ty::Infer(0)), Ty::Bool));
    push_field(fields, "i16_lt", fn_of(struct2("0", Ty::Infer(0), "1", Ty::Infer(0)), Ty::Bool));
    push_field(fields, "i16_gt", fn_of(struct2("0", Ty::Infer(0), "1", Ty::Infer(0)), Ty::Bool));
    push_field(fields, "i16_lt_eq", fn_of(struct2("0", Ty::Infer(0), "1", Ty::Infer(0)), Ty::Bool));
    push_field(fields, "i16_gt_eq", fn_of(struct2("0", Ty::Infer(0), "1", Ty::Infer(0)), Ty::Bool));
    push_field(fields, "i16_to_string", fn_of(Ty::Infer(0), Ty::String));
    push_field(fields, "i16_to_i64", fn_of(Ty::Infer(0), Ty::Int));
    assert(fields_view(fields@) =~= start + core_i16_methods());
}

/// The u16 methods.
pub open spec fn core_u16_methods() -> Seq<(Seq<char>, TyV)> {
    seq![
        ("u16_add"@, TyV::Fn(Box::new(TyV::Struct(seq![("0"@, TyV::Infer(0)), ("1"@, TyV::Infer(0))])), Box::new(TyV::Infer(0)))),
        ("u16_subtract"@, TyV::Fn(Box::new(TyV::Struct(seq![("0"@, TyV::Infer(0)), ("1"@, TyV::Infer(0))])), Box::new(TyV::Infer(0)))),
        ("u16_times"@, TyV::Fn(Box::new(TyV::Struct(seq![("0"@, TyV::Infer(0)), ("1"@, TyV::Infer(0))])), Box::new(TyV::Infer(0)))),
        ("u16_divided_by"@, TyV::Fn(Box::new(TyV::Struct(seq![("0"@, TyV::Infer(0)), ("1"@, TyV::Infer(0))])), Box::new(TyV::Infer(0)))),
        ("u16_eq"@, TyV::Fn(Box::new(TyV::Struct(seq![("0"@, TyV::Infer(0)), ("1"@, TyV::Infer(0))])), Box::new(TyV::Bool))),
        ("u16_not_eq"@, TyV::Fn(Box::new(TyV::Struct(seq![("0"@, TyV::Infer(0)), ("1"@, TyV::Infer(0))])), Box::new(TyV::Bool))),
        ("u16_lt"@, TyV::Fn(Box::new(TyV::Struct(seq![("0"@, TyV::Infer(0)), ("1"@, TyV::Infer(0))])), Box::new(TyV::Bool))),
        ("u16_gt"@, TyV::Fn(Box::new(TyV::Struct(seq![("0"@, TyV::Infer(0)), ("1"@, TyV::Infer(0))])), Box::new(TyV::Bool))),
        ("u16_lt_eq"@, TyV::Fn(Box::new(TyV::Struct(seq![("0"@, TyV::Infer(0)), ("1"@, TyV::Infer(0))])), Box::new(TyV::Bool))),
        ("u16_gt_eq"@, TyV::Fn(Box::new(TyV::Struct(seq![("0"@, TyV::Infer(0)), ("1"@, TyV::Infer(0))])), Box::new(TyV::Bool))),
        ("u16_to_string"@, TyV::Fn(Box::new(TyV::Infer(0)), Box::new(TyV::Str))),
        ("u16_to_i64"@, TyV::Fn(Box::new(TyV::Infer(0)), Box::new(TyV::Int))),
    ]
}

fn push_core_u16_methods(fields: &mut Vec<(String, Ty)>)
    ensures
        fields_view(final(fields)@) == fields_view(old(fields)@) + core_u16_methods(),
{
    let ghost start = fields_view(fields@);
    push_field(fields, "u16_add", fn_of(struct2("0", Ty::Infer(0), "1", Ty::Infer(0)), Ty::Infer(0)));
    push_field(fields, "u16_subtract", fn_of(struct2("0", Ty::Infer(0), "1", Ty::Infer(0)), Ty::Infer(0)));
    push_field(fields, "u16_times", fn_of(struct2("0", Ty::Infer(0), "1", Ty::Infer(0)), Ty::Infer(0)));
    push_field(fields, "u16_divided_by", fn_of(struct2("0", Ty::Infer(0), "1", Ty::Infer(0)), Ty::Infer(0)));
    push_field(fields, "u16_eq", fn_of(struct2("0", Ty::Infer(0), "1", Ty::Infer(0)), Ty::Bool));
    push_field(fields, "u16_not_eq", fn_of(struct2("0", Ty::Infer(0), "1", Ty::Infer(0)), Ty::Bool));
    push_field(fields, "u16_lt", fn_of(struct2("0", Ty::Infer(0), "1", Ty::Infer(0)), Ty::Bool));
    push_field(fields, "u16_gt", fn_of(struct2("0", Ty::Infer(0), "1", Ty::Infer(0)), Ty::Bool));
    push_field(fields, "u16_lt_eq", fn_of(struct2("0", Ty::Infer(0), "1", Ty::Infer(0)), Ty::Bool));
    push_field(fields, "u16_gt_eq", fn_of(struct2("0", Ty::Infer(0), "1", Ty::Infer(0)), Ty::Bool));
    push_field(fields, "u16_to_string", fn_of(Ty::Infer(0), Ty::String));
    push_field(fields, "u16_to_i64", fn_of(Ty::Infer(0), Ty::Int));
    assert(fields_view(fields@) =~= start + core_u16_methods());
}

/// The u32 methods.
pub open spec fn core_u32_methods() -> Seq<(Seq<char>, TyV)> {
    seq![
        ("u32_add"@, TyV::Fn(Box::new(TyV::Struct(seq![("0"@, TyV::Infer(0)), ("1"@, TyV::Infer(0))])), Box::new(TyV::Infer(0)))),
        ("u32_subtract"@, TyV::Fn(Box::new(TyV::Struct(seq![("0"@, TyV::Infer(0)), ("1"@, TyV::Infer(0))])), Box::new(TyV::Infer(0)))),
        ("u32_times"@, TyV::Fn(Box::new(TyV::Struct(seq![("0"@, TyV::Infer(0)), ("1"@, TyV::Infer(0))])), Box::new(TyV::Infer(0)))),
        ("u32_divided_by"@, TyV::Fn(Box::new(TyV::Struct(seq![("0"@, TyV::Infer(0)), ("1"@, TyV::Infer(0))])), Box::new(TyV::Infer(0)))),
        ("u32_eq"@, TyV::Fn(Box::new(TyV::Struct(seq![("0"@, TyV::Infer(0)), ("1"@, TyV::Infer(0))])), Box::new(TyV::Bool))),
        ("u32_not_eq"@, TyV::Fn(Box::new(TyV::Struct(seq![("0"@, TyV::Infer(0)), ("1"@, TyV::Infer(0))])), Box::new(TyV::Bool))),
        ("u32_lt"@, TyV::Fn(Box::new(TyV::Struct(seq![("0"@, TyV::Infer(0)), ("1"@, TyV::Infer(0))])), Box::new(TyV::Bool))),
        ("u32_gt"@, TyV::Fn(Box::new(TyV::Struct(seq![("0"@, TyV::Infer(0)), ("1"@, TyV::Infer(0))])), Box::new(TyV::Bool))),
        ("u32_lt_eq"@, TyV::Fn(Box::new(TyV::Struct(seq![("0"@, TyV::Infer(0)), ("1"@, TyV::Infer(0))])), Box::new(TyV::Bool))),
        ("u32_gt_eq"@, TyV::Fn(Box::new(TyV::Struct(seq![("0"@, TyV::Infer(0)), ("1"@, TyV::Infer(0))])), Box::new(TyV::Bool))),
        ("u32_to_string"@, TyV::Fn(Box::new(TyV::Infer(0)), Box::new(TyV::Str))),
        ("u32_to_i64"@, TyV::Fn(Box::new(TyV::Infer(0)), Box::new(TyV::Int))),
    ]
}

fn push_core_u32_methods(fields: &mut Vec<(String, Ty)>)
    ensures
        fields_view(final(fields)@) == fields_view(old(fields)@) + core_u32_methods(),
{
    let ghost start = fields_view(fields@);
    push_field(fields, "u32_add", fn_of(struct2("0", Ty::Infer(0), "1", Ty::Infer(0)), Ty::Infer(0)));
    push_field(fields, "u32_subtract", fn_of(struct2("0", Ty::Infer(0), "1", Ty::Infer(0)), Ty::Infer(0)));
    push_field(fields, "u32_times", fn_of(struct2("0", Ty::Infer(0), "1", Ty::Infer(0)), Ty::Infer(0)));
    push_field(fields, "u32_divided_by", fn_of(struct2("0", Ty::Infer(0), "1", Ty::Infer(0)), Ty::Infer(0)));
    push_field(fields, "u32_eq", fn_of(struct2("0", Ty::Infer(0), "1", Ty::Infer(0)), Ty::Bool));
    push_field(fields, "u32_not_eq", fn_of(struct2("0", Ty::Infer(0), "1", Ty::Infer(0)), Ty::Bool));
    push_field(fields, "u32_lt", fn_of(struct2("0", Ty::Infer(0), "1", Ty::Infer(0)), Ty::Bool));
    push_field(fields, "u32_gt", fn_of(struct2("0", Ty::Infer(0), "1", Ty::Infer(0)), Ty::Bool));
    push_field(fields, "u32_lt_eq", fn_of(struct2("0", Ty::Infer(0), "1", Ty::Infer(0)), Ty::Bool));
    push_field(fields, "u32_gt_eq", fn_of(struct2("0", Ty::Infer(0), "1", Ty::Infer(0)), Ty::Bool));
    push_field(fields, "u32_to_string", fn_of(Ty::Infer(0), Ty::String));
    push_field(fields, "u32_to_i64", fn_of(Ty::Infer(0), Ty::Int));
    assert(fields_view(fields@) =~= start + core_u32_methods());
}

/// The u64 methods.
pub open spec fn core_u64_methods() -> Seq<(Seq<char>, TyV)> {
    seq![
        ("u64_add"@, TyV::Fn(Box::new(TyV::Struct(seq![("0"@, TyV::Infer(0)), ("1"@, TyV::Infer(0))])), Box::new(TyV::Infer(0)))),
        ("u64_subtract"@, TyV::Fn(Box::new(TyV::Struct(seq![("0"@, TyV::Infer(0)), ("1"@, TyV::Infer(0))])), Box::new(TyV::Infer(0)))),
        ("u64_times"@, TyV::Fn(Box::new(TyV::Struct(seq![("0"@, TyV::Infer(0)), ("1"@, TyV::Infer(0))])), Box::new(TyV::Infer(0)))),
        ("u64_divided_by"@, TyV::Fn(Box::new(TyV::Struct(seq![("0"@, TyV::Infer(0)), ("1"@, TyV::Infer(0))])), Box::new(TyV::Infer(0)))),
        ("u64_eq"@, TyV::Fn(Box::new(TyV::Struct(seq![("0"@, TyV::Infer(0)), ("1"@, TyV::Infer(0))])), Box::new(TyV::Bool))),
        ("u64_not_eq"@, TyV::Fn(Box::new(TyV::Struct(seq![("0"@, TyV::Infer(0)), ("1"@, TyV::Infer(0))])), Box::new(TyV::Bool))),
        ("u64_lt"@, TyV::Fn(Box::new(TyV::Struct(seq![("0"@, TyV::Infer(0)), ("1"@, TyV::Infer(0))])), Box::new(TyV::Bool))),
        ("u64_gt"@, TyV::Fn(Box::new(TyV::Struct(seq![("0"@, TyV::Infer(0)), ("1"@, TyV::Infer(0))])), Box::new(TyV::Bool))),
        ("u64_lt_eq"@, TyV::Fn(Box::new(TyV::Struct(seq![("0"@, TyV::Infer(0)), ("1"@, TyV::Infer(0))])), Box::new(TyV::Bool))),
        ("u64_gt_eq"@, TyV::Fn(Box::new(TyV::Struct(seq![("0"@, TyV::Infer(0)), ("1"@, TyV::Infer(0))])), Box::new(TyV::Bool))),
        ("u64_to_string"@, TyV::Fn(Box::new(TyV::Infer(0)), Box::new(TyV::Str))),
        ("u64_to_i64"@, TyV::Fn(Box::new(TyV::Infer(0)), Box::new(TyV::Int))),
    ]
}

fn push_core_u64_methods(fields: &mut Vec<(String, Ty)>)
    ensures
        fields_view(final(fields)@) == fields_view(old(fields)@) + core_u64_methods(),
{
    let ghost start = fields_view(fields@);
    push_field(fields, "u64_add", fn_of(struct2("0", Ty::Infer(0), "1", Ty::Infer(0)), Ty::Infer(0)));
    push_field(fields, "u64_subtract", fn_of(struct2("0", Ty::Infer(0), "1", Ty::Infer(0)), Ty::Infer(0)));
    push_field(fields, "u64_times", fn_of(struct2("0", Ty::Infer(0), "1", Ty::Infer(0)), Ty::Infer(0)));
    push_field(fields, "u64_divided_by", fn_of(struct2("0", Ty::Infer(0), "1", Ty::Infer(0)), Ty::Infer(0)));
    push_field(fields, "u64_eq", fn_of(struct2("0", Ty::Infer(0), "1", Ty::Infer(0)), Ty::Bool));
    push_field(fields, "u64_not_eq", fn_of(struct2("0", Ty::Infer(0), "1", Ty::Infer(0)), Ty::Bool));
    push_field(fields, "u64_lt", fn_of(struct2("0", Ty::Infer(0), "1", Ty::Infer(0)), Ty::Bool));
    push_field(fields, "u64_gt", fn_of(struct2("0", Ty::Infer(0), "1", Ty::Infer(0)), Ty::Bool));
    push_field(fields, "u64_lt_eq", fn_of(struct2("0", Ty::Infer(0), "1", Ty::Infer(0)), Ty::Bool));
    push_field(fields, "u64_gt_eq", fn_of(struct2("0", Ty::Infer(0), "1", Ty::Infer(0)), Ty::Bool));
    push_field(fields, "u64_to_string", fn_of(Ty::Infer(0), Ty::String));
    push_field(fields, "u64_to_i64", fn_of(Ty::Infer(0), Ty::Int));
    assert(fields_view(fields@) =~= start + core_u64_methods());
}

/// The f64 methods, on floats; rounding gives an int.
pub open spec fn core_f64_methods() -> Seq<(Seq<char>, TyV)> {
    seq![
        ("f64_add"@, TyV::Fn(Box::new(TyV::Struct(seq![("0"@, TyV::Float), ("1"@, TyV::Float)])), Box::new(TyV::Float))),
        ("f64_subtract"@, TyV::Fn(Box::new(TyV::Struct(seq![("0"@, TyV::Float), ("1"@, TyV::Float)])), Box::new(TyV::Float))),
        ("f64_times"@, TyV::Fn(Box::new(TyV::Struct(seq![("0"@, TyV::Float), ("1"@, TyV::Float)])), Box::new(TyV::Float))),
        ("f64_divided_by"@, TyV::Fn(Box::new(TyV::Struct(seq![("0"@, TyV::Float), ("1"@, TyV::Float)])), Box::new(TyV::Float))),
        ("f64_negate"@, TyV::Fn(Box::new(TyV::Float), Box::new(TyV::Float))),
        ("f64_eq"@, TyV::Fn(Box::new(TyV::Struct(seq![("0"@, TyV::Float), ("1"@, TyV::Float)])), Box::new(TyV::Bool))),
        ("f64_not_eq"@, TyV::Fn(Box::new(TyV::Struct(seq![("0"@, TyV::Float), ("1"@, TyV::Float)])), Box::new(TyV::Bool))),
        ("f64_lt"@, TyV::Fn(Box::new(TyV::Struct(seq![("0"@, TyV::Float), ("1"@, TyV::Float)])), Box::new(TyV::Bool))),
        ("f64_gt"@, TyV::Fn(Box::new(TyV::Struct(seq![("0"@, TyV::Float), ("1"@, TyV::Float)])), Box::new(TyV::Bool))),
        ("f64_lt_eq"@, TyV::Fn(Box::new(TyV::Struct(seq![("0"@, TyV::Float), ("1"@, TyV::Float)])), Box::new(TyV::Bool))),
        ("f64_gt_eq"@, TyV::Fn(Box::new(TyV::Struct(seq![("0"@, TyV::Float), ("1"@, TyV::Float)])), Box::new(TyV::Bool))),
        ("f64_to_string"@, TyV::Fn(Box::new(TyV::Float), Box::new(TyV::Str))),
        ("f64_to_f64"@, TyV::Fn(Box::new(TyV::Float), Box::new(TyV::Float))),
        ("f64_to_i64"@, TyV::Fn(Box::new(TyV::Float), Box::new(TyV::Int))),
        ("f64_ceil"@, TyV::Fn(Box::new(TyV::Float), Box::new(TyV::Int))),
        ("f64_floor"@, TyV::Fn(Box::new(TyV::Float), Box::new(TyV::Int))),
        ("f64_round"@, TyV::Fn(Box::new(TyV::Float), Box::new(TyV::Int))),
        ("f64_trunc"@, TyV::Fn(Box::new(TyV::Float), Box::new(TyV::Int))),
    ]
}

fn push_core_f64_methods(fields: &mut Vec<(String, Ty)>)
    ensures
        fields_view(final(fields)@) == fields_view(old(fields)@) + core_f64_methods(),
{
    let ghost start = fields_view(fields@);
    push_field(fields, "f64_add", fn_of(struct2("0", Ty::Float, "1", Ty::Float), Ty::Float));
    push_field(fields, "f64_subtract", fn_of(struct2("0", Ty::Float, "1", Ty::Float), Ty::Float));
    push_field(fields, "f64_times", fn_of(struct2("0", Ty::Float, "1", Ty::Float), Ty::Float));
    push_field(fields, "f64_divided_by", fn_of(struct2("0", Ty::Float, "1", Ty::Float), Ty::Float));
    push_field(fields, "f64_negate", fn_of(Ty::Float, Ty::Float));
    push_field(fields, "f64_eq", fn_of(struct2("0", Ty::Float, "1", Ty::Float), Ty::Bool));
    push_field(fields, "f64_not_eq", fn_of(struct2("0", Ty::Float, "1", Ty::Float), Ty::Bool));
    push_field(fields, "f64_lt", fn_of(struct2("0", Ty::Float, "1", Ty::Float), Ty::Bool));
    push_field(fields, "f64_gt", fn_of(struct2("0", Ty::Float, "1", Ty::Float), Ty::Bool));
    push_field(fields, "f64_lt_eq", fn_of(struct2("0", Ty::Float, "1", Ty::Float), Ty::Bool));
    push_field(fields, "f64_gt_eq", fn_of(struct2("0", Ty::Float, "1", Ty::Float), Ty::Bool));
    push_field(fields, "f64_to_string", fn_of(Ty::Float, Ty::String));
    push_field(fields, "f64_to_f64", fn_of(Ty::Float, Ty::Float));
    push_field(fields, "f64_to_i64", fn_of(Ty::Float, Ty::Int));
    push_field(fields, "f64_ceil", fn_of(Ty::Float, Ty::Int));
    push_field(fields, "f64_floor", fn_of(Ty::Float, Ty::Int));
    push_field(fields, "f64_round", fn_of(Ty::Float, Ty::Int));
    push_field(fields, "f64_trunc", fn_of(Ty::Float, Ty::Int));
    assert(fields_view(fields@) =~= start + core_f64_methods());
}

/// The fields of the core module's type, in the order of the module's
/// fields.
pub open spec fn core_module_fields() -> Seq<(Seq<char>, TyV)> {
    core_constructors() + core_builtins() + core_array_methods() + core_string_methods() + core_int_methods() + core_i32_methods() + core_i128_methods() + core_u128_methods() + core_f32_methods() + core_float_methods() + core_other_methods() + core_conversions() + core_i8_methods() + core_u8_methods() + core_i16_methods() + core_u16_methods() + core_u32_methods() + core_u64_methods() + core_f64_methods()
}

/// The type of the core module value: a struct with the module's fields in
/// its order, the type constructors of the primitive types first, then the
/// standalone builtins and the methods of each type. The integer and float
/// types that the checker does not tell apart from others (i32, f32, i128,
/// u128, i8, i16, u16, u32, u64) stand as the wildcard `Infer(0)`.
pub fn core_module_type() -> (r: Ty)
    ensures
        r@ == TyV::Struct(core_module_fields()),
{
    let mut fields: Vec<(String, Ty)> = Vec::new();
    proof {
        lemma_fields_view_empty();
    }
    push_core_constructors(&mut fields);
    push_core_builtins(&mut fields);
    push_core_array_methods(&mut fields);
    push_core_string_methods(&mut fields);
    push_core_int_methods(&mut fields);
    push_core_i32_methods(&mut fields);
    push_core_i128_methods(&mut fields);
    push_core_u128_methods(&mut fields);
    push_core_f32_methods(&mut fields);
    push_core_float_methods(&mut fields);
    push_core_other_methods(&mut fields);
    push_core_conversions(&mut fields);
    push_core_i8_methods(&mut fields);
    push_core_u8_methods(&mut fields);
    push_core_i16_methods(&mut fields);
    push_core_u16_methods(&mut fields);
    push_core_u32_methods(&mut fields);
    push_core_u64_methods(&mut fields);
    push_core_f64_methods(&mut fields);
    assert(fields_view(fields@) =~= core_module_fields());
    Ty::Struct(fields)
}

/// Adding a type to the variants of a union keeps the union flat: where the
/// variants are flat types that are not unions themselves and the added type
/// is flat, a successful addition gives a flat type.
pub proof fn law_union_add_keeps_unions_flat(vs: Seq<TyV>, ty: TyV)
    requires
        forall|i: int| 0 <= i < vs.len() ==> flat_variant(#[trigger] vs[i]),
        flat(ty),
        union_add_fuel(vs, ty, vsize(vs) + tsize(ty)) matches Some(Ok(_)),
    ensures
        flat(union_add_fuel(vs, ty, vsize(vs) + tsize(ty)).unwrap()->Ok_0),
{
    assert forall|i: int| 0 <= i < union_items(ty).len() implies flat_variant(#[trigger] union_items(ty)[i]) by {
        if !(ty is Union) {
            assert(union_items(ty)[i] == ty);
        }
    }
    lemma_flat_union_add(vs, ty, vsize(vs) + tsize(ty));
}

} // verus!
