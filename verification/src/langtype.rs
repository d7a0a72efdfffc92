use vstd::prelude::*;
use crate::ident::str_eq;

verus! {

broadcast use vstd::std_specs::vec::group_vec_axioms;

/// A user-visible enumeration: its name and its value names.
pub struct Enumeration {
    pub name: String,
    pub values: Vec<String>,
}

/// The type of a property or of a resolved expression.
///
/// `Invalid` is absorbing: whatever cannot be typed degrades to it, and
/// a diagnostic is recorded whenever that happens.
pub enum Ty {
    Invalid,
    Void,
    Bool,
    Int32,
    Float32,
    String,
    Color,
    /// A physical length (`phx`).
    Length,
    /// A logical length (`px`).
    LogicalLength,
    Duration,
    Percent,
    /// An image or other asset, referenced by path.
    Resource,
    Easing,
    ElementReference,
    Enumeration(Box<Enumeration>),
    /// Fields in declaration order, names unique; the optional name tags
    /// object types that came from a named declaration.
    Object { fields: Vec<(String, Ty)>, name: Option<String> },
    Array(Box<Ty>),
    Function { args: Vec<Ty>, ret: Box<Ty> },
    Callback { args: Vec<Ty> },
    /// A component of the enclosing document, by its handle.
    Component(usize),
}

/// Ghost mirror of [`Ty`]: strings become character sequences, vectors
/// become sequences.  Contracts compare types through this model.
#[verifier::ext_equal]
pub enum TyM {
    Invalid,
    Void,
    Bool,
    Int32,
    Float32,
    String,
    Color,
    Length,
    LogicalLength,
    Duration,
    Percent,
    Resource,
    Easing,
    ElementReference,
    Enumeration(Seq<char>, Seq<Seq<char>>),
    Object { fields: Seq<(Seq<char>, TyM)>, name: Option<Seq<char>> },
    Array(Box<TyM>),
    Function { args: Seq<TyM>, ret: Box<TyM> },
    Callback { args: Seq<TyM> },
    Component(int),
}

/// The views of a list of strings.
pub open spec fn strs_view(vs: Seq<String>) -> Seq<Seq<char>> {
    Seq::new(vs.len(), |i: int| vs[i]@)
}

/// The model of one type.
pub open spec fn ty_view(t: Ty) -> TyM
    decreases t,
{
    match t {
        Ty::Invalid => TyM::Invalid,
        Ty::Void => TyM::Void,
        Ty::Bool => TyM::Bool,
        Ty::Int32 => TyM::Int32,
        Ty::Float32 => TyM::Float32,
        Ty::String => TyM::String,
        Ty::Color => TyM::Color,
        Ty::Length => TyM::Length,
        Ty::LogicalLength => TyM::LogicalLength,
        Ty::Duration => TyM::Duration,
        Ty::Percent => TyM::Percent,
        Ty::Resource => TyM::Resource,
        Ty::Easing => TyM::Easing,
        Ty::ElementReference => TyM::ElementReference,
        Ty::Enumeration(e) => TyM::Enumeration(e.name@, strs_view(e.values@)),
        Ty::Object { fields, name } => TyM::Object {
            fields: pairs_vec_view(fields),
            name: match name {
                Option::Some(n) => Option::Some(n@),
                Option::None => Option::None,
            },
        },
        Ty::Array(t0) => TyM::Array(Box::new(ty_view(*t0))),
        Ty::Function { args, ret } => TyM::Function {
            args: tys_vec_view(args),
            ret: Box::new(ty_view(*ret)),
        },
        Ty::Callback { args } => TyM::Callback { args: tys_vec_view(args) },
        Ty::Component(c) => TyM::Component(c as int),
    }
}

pub open spec fn tys_vec_view(ts: Vec<Ty>) -> Seq<TyM>
    decreases ts,
{
    tys_seq_view(ts@)
}

pub open spec fn tys_seq_view(ts: Seq<Ty>) -> Seq<TyM>
    decreases ts,
{
    if ts.len() == 0 {
        Seq::empty()
    } else {
        tys_seq_view(ts.subrange(0, ts.len() - 1)).push(ty_view(ts.last()))
    }
}

pub open spec fn pairs_vec_view(fs: Vec<(String, Ty)>) -> Seq<(Seq<char>, TyM)>
    decreases fs,
{
    pairs_seq_view(fs@)
}

pub open spec fn pairs_seq_view(fs: Seq<(String, Ty)>) -> Seq<(Seq<char>, TyM)>
    decreases fs,
{
    if fs.len() == 0 {
        Seq::empty()
    } else {
        pairs_seq_view(fs.subrange(0, fs.len() - 1)).push(pair_view(fs.last()))
    }
}

pub open spec fn pair_view(f: (String, Ty)) -> (Seq<char>, TyM)
    decreases f,
{
    (f.0@, ty_view(f.1))
}

impl View for Ty {
    type V = TyM;

    open spec fn view(&self) -> TyM {
        ty_view(*self)
    }
}

/// The list views are exactly the element views, in order.
pub proof fn lemma_tys_seq_view(ts: Seq<Ty>)
    ensures
        tys_seq_view(ts).len() == ts.len(),
        forall|i: int| 0 <= i < ts.len() ==> tys_seq_view(ts)[i] == ty_view(#[trigger] ts[i]),
    decreases ts.len(),
{
    if ts.len() > 0 {
        lemma_tys_seq_view(ts.subrange(0, ts.len() - 1));
        assert forall|i: int| 0 <= i < ts.len() implies tys_seq_view(ts)[i] == ty_view(
            #[trigger] ts[i],
        ) by {
            if i < ts.len() - 1 {
                assert(ts.subrange(0, ts.len() - 1)[i] == ts[i]);
            }
        }
    }
}

pub proof fn lemma_pairs_seq_view(fs: Seq<(String, Ty)>)
    ensures
        pairs_seq_view(fs).len() == fs.len(),
        forall|i: int| 0 <= i < fs.len() ==> pairs_seq_view(fs)[i] == pair_view(#[trigger] fs[i]),
    decreases fs.len(),
{
    if fs.len() > 0 {
        lemma_pairs_seq_view(fs.subrange(0, fs.len() - 1));
        assert forall|i: int| 0 <= i < fs.len() implies pairs_seq_view(fs)[i] == pair_view(
            #[trigger] fs[i],
        ) by {
            if i < fs.len() - 1 {
                assert(fs.subrange(0, fs.len() - 1)[i] == fs[i]);
            }
        }
    }
}


/// Structural equality of two types, decided through their models.
#[verifier::loop_isolation(false)]
pub fn ty_eq(a: &Ty, b: &Ty) -> (r: bool)
    ensures
        r == (a@ == b@),
    decreases a,
{
    match (a, b) {
        (Ty::Invalid, Ty::Invalid) => true,
        (Ty::Void, Ty::Void) => true,
        (Ty::Bool, Ty::Bool) => true,
        (Ty::Int32, Ty::Int32) => true,
        (Ty::Float32, Ty::Float32) => true,
        (Ty::String, Ty::String) => true,
        (Ty::Color, Ty::Color) => true,
        (Ty::Length, Ty::Length) => true,
        (Ty::LogicalLength, Ty::LogicalLength) => true,
        (Ty::Duration, Ty::Duration) => true,
        (Ty::Percent, Ty::Percent) => true,
        (Ty::Resource, Ty::Resource) => true,
        (Ty::Easing, Ty::Easing) => true,
        (Ty::ElementReference, Ty::ElementReference) => true,
        (Ty::Enumeration(x), Ty::Enumeration(y)) => enumeration_eq(x, y),
        (Ty::Object { fields: fa, name: na }, Ty::Object { fields: fb, name: nb }) => {
            let names_ok = match (na, nb) {
                (Option::None, Option::None) => true,
                (Option::Some(x), Option::Some(y)) => str_eq(x.as_str(), y.as_str()),
                _ => false,
            };
            if !names_ok {
                false
            } else {
                fields_eq(fa, fb)
            }
        },
        (Ty::Array(x), Ty::Array(y)) => ty_eq(x, y),
        (Ty::Function { args: xa, ret: xr }, Ty::Function { args: ya, ret: yr }) => {
            if !ty_eq(xr, yr) {
                false
            } else {
                ty_list_eq(xa, ya)
            }
        },
        (Ty::Callback { args: xa }, Ty::Callback { args: ya }) => ty_list_eq(xa, ya),
        (Ty::Component(x), Ty::Component(y)) => x == y,
        _ => false,
    }
}

/// Elementwise equality of two argument lists.
#[verifier::loop_isolation(false)]
fn ty_list_eq(xs: &Vec<Ty>, ys: &Vec<Ty>) -> (r: bool)
    ensures
        r == (tys_vec_view(*xs) == tys_vec_view(*ys)),
    decreases xs,
{
    proof {
        lemma_tys_seq_view(xs@);
        lemma_tys_seq_view(ys@);
    }
    if xs.len() != ys.len() {
        return false;
    }
    let n: usize = xs.len();
    let mut i: usize = 0;
    while i < n
        invariant
            i <= n,
            forall|j: int| 0 <= j < i ==> ty_view(xs@[j]) == ty_view(#[trigger] ys@[j]),
        decreases n - i,
    {
        if !ty_eq(&xs[i], &ys[i]) {
            return false;
        }
        i += 1;
    }
    proof {
        assert forall|j: int| 0 <= j < xs@.len() implies tys_seq_view(xs@)[j] == tys_seq_view(
            ys@,
        )[j] by {
            assert(tys_seq_view(xs@)[j] == ty_view(xs@[j]));
            assert(tys_seq_view(ys@)[j] == ty_view(ys@[j]));
        }
        assert(tys_seq_view(xs@) =~= tys_seq_view(ys@));
    }
    true
}

/// Elementwise equality of two field lists: names and types.
#[verifier::loop_isolation(false)]
fn fields_eq(xs: &Vec<(String, Ty)>, ys: &Vec<(String, Ty)>) -> (r: bool)
    ensures
        r == (pairs_vec_view(*xs) == pairs_vec_view(*ys)),
    decreases xs,
{
    proof {
        lemma_pairs_seq_view(xs@);
        lemma_pairs_seq_view(ys@);
    }
    if xs.len() != ys.len() {
        return false;
    }
    let n: usize = xs.len();
    let mut i: usize = 0;
    while i < n
        invariant
            i <= n,
            forall|j: int| 0 <= j < i ==> pair_view(xs@[j]) == pair_view(#[trigger] ys@[j]),
        decreases n - i,
    {
        if !str_eq(xs[i].0.as_str(), ys[i].0.as_str()) {
            return false;
        }
        if !ty_eq(&xs[i].1, &ys[i].1) {
            return false;
        }
        i += 1;
    }
    proof {
        assert forall|j: int| 0 <= j < xs@.len() implies pairs_seq_view(xs@)[j] == pairs_seq_view(
            ys@,
        )[j] by {
            assert(pairs_seq_view(xs@)[j] == pair_view(xs@[j]));
            assert(pairs_seq_view(ys@)[j] == pair_view(ys@[j]));
        }
        assert(pairs_seq_view(xs@) =~= pairs_seq_view(ys@));
    }
    true
}

/// Equality of two enumeration declarations.
#[verifier::loop_isolation(false)]
fn enumeration_eq(x: &Enumeration, y: &Enumeration) -> (r: bool)
    ensures
        r == (x.name@ == y.name@ && strs_view(x.values@) == strs_view(y.values@)),
{
    if !str_eq(x.name.as_str(), y.name.as_str()) {
        return false;
    }
    if x.values.len() != y.values.len() {
        proof {
            assert(strs_view(x.values@).len() != strs_view(y.values@).len());
        }
        return false;
    }
    let n: usize = x.values.len();
    let mut i: usize = 0;
    while i < n
        invariant
            i <= n,
            forall|j: int| 0 <= j < i ==> x.values@[j]@ == #[trigger] y.values@[j]@,
        decreases n - i,
    {
        if !str_eq(x.values[i].as_str(), y.values[i].as_str()) {
            proof {
                assert(strs_view(x.values@)[i as int] != strs_view(y.values@)[i as int]);
            }
            return false;
        }
        i += 1;
    }
    proof {
        assert(strs_view(x.values@) =~= strs_view(y.values@));
    }
    true
}


/// Deep copy of a type; the copy has the same model.
#[verifier::loop_isolation(false)]
pub fn clone_ty(t: &Ty) -> (r: Ty)
    ensures
        r@ == t@,
    decreases t,
{
    match t {
        Ty::Invalid => Ty::Invalid,
        Ty::Void => Ty::Void,
        Ty::Bool => Ty::Bool,
        Ty::Int32 => Ty::Int32,
        Ty::Float32 => Ty::Float32,
        Ty::String => Ty::String,
        Ty::Color => Ty::Color,
        Ty::Length => Ty::Length,
        Ty::LogicalLength => Ty::LogicalLength,
        Ty::Duration => Ty::Duration,
        Ty::Percent => Ty::Percent,
        Ty::Resource => Ty::Resource,
        Ty::Easing => Ty::Easing,
        Ty::ElementReference => Ty::ElementReference,
        Ty::Enumeration(e) => Ty::Enumeration(
            Box::new(
                Enumeration { name: e.name.clone(), values: clone_strings(&e.values) },
            ),
        ),
        Ty::Object { fields, name } => Ty::Object {
            fields: clone_fields(fields),
            name: match name {
                Option::Some(n) => Option::Some(n.clone()),
                Option::None => Option::None,
            },
        },
        Ty::Array(x) => Ty::Array(Box::new(clone_ty(x))),
        Ty::Function { args, ret } => Ty::Function {
            args: clone_ty_list(args),
            ret: Box::new(clone_ty(ret)),
        },
        Ty::Callback { args } => Ty::Callback { args: clone_ty_list(args) },
        Ty::Component(c) => Ty::Component(*c),
    }
}

/// Copy a list of strings; the copies equal the originals.
#[verifier::loop_isolation(false)]
pub fn clone_strings(v: &Vec<String>) -> (r: Vec<String>)
    ensures
        r@ == v@,
{
    let mut out: Vec<String> = Vec::new();
    let n: usize = v.len();
    let mut i: usize = 0;
    while i < n
        invariant
            i <= n,
            out@ =~= v@.subrange(0, i as int),
        decreases n - i,
    {
        out.push(v[i].clone());
        proof {
            assert(out@ =~= v@.subrange(0, i + 1 as int));
        }
        i += 1;
    }
    proof {
        assert(out@ =~= v@);
    }
    out
}

#[verifier::loop_isolation(false)]
pub fn clone_ty_list(v: &Vec<Ty>) -> (r: Vec<Ty>)
    ensures
        tys_vec_view(r) == tys_vec_view(*v),
    decreases v,
{
    let mut out: Vec<Ty> = Vec::new();
    let n: usize = v.len();
    let mut i: usize = 0;
    while i < n
        invariant
            i <= n,
            out@.len() == i,
            forall|j: int| 0 <= j < i ==> ty_view(#[trigger] out@[j]) == ty_view(v@[j]),
        decreases n - i,
    {
        out.push(clone_ty(&v[i]));
        i += 1;
    }
    proof {
        lemma_tys_seq_view(out@);
        lemma_tys_seq_view(v@);
        assert forall|j: int| 0 <= j < n implies tys_seq_view(out@)[j] == tys_seq_view(v@)[j] by {
            assert(tys_seq_view(out@)[j] == ty_view(out@[j]));
            assert(tys_seq_view(v@)[j] == ty_view(v@[j]));
        }
        assert(tys_seq_view(out@) =~= tys_seq_view(v@));
    }
    out
}

#[verifier::loop_isolation(false)]
pub fn clone_fields(v: &Vec<(String, Ty)>) -> (r: Vec<(String, Ty)>)
    ensures
        pairs_vec_view(r) == pairs_vec_view(*v),
    decreases v,
{
    let mut out: Vec<(String, Ty)> = Vec::new();
    let n: usize = v.len();
    let mut i: usize = 0;
    while i < n
        invariant
            i <= n,
            out@.len() == i,
            forall|j: int| 0 <= j < i ==> pair_view(#[trigger] out@[j]) == pair_view(v@[j]),
        decreases n - i,
    {
        let name = v[i].0.clone();
        let ty = clone_ty(&v[i].1);
        out.push((name, ty));
        i += 1;
    }
    proof {
        lemma_pairs_seq_view(out@);
        lemma_pairs_seq_view(v@);
        assert forall|j: int| 0 <= j < n implies pairs_seq_view(out@)[j] == pairs_seq_view(
            v@,
        )[j] by {
            assert(pairs_seq_view(out@)[j] == pair_view(out@[j]));
            assert(pairs_seq_view(v@)[j] == pair_view(v@[j]));
        }
        assert(pairs_seq_view(out@) =~= pairs_seq_view(v@));
    }
    out
}

/// Types a property can have.  Functions, callbacks, components, `Void`
/// and `Invalid` are not property values.
pub open spec fn spec_is_property_type(t: TyM) -> bool {
    match t {
        TyM::Invalid => false,
        TyM::Void => false,
        TyM::Function { .. } => false,
        TyM::Callback { .. } => false,
        TyM::Component(_) => false,
        _ => true,
    }
}

pub fn is_property_type(t: &Ty) -> (r: bool)
    ensures
        r == spec_is_property_type(t@),
{
    match t {
        Ty::Invalid => false,
        Ty::Void => false,
        Ty::Function { .. } => false,
        Ty::Callback { .. } => false,
        Ty::Component(_) => false,
        _ => true,
    }
}

/// The implicit conversions of the language, besides equality: numbers
/// interconvert, a number packs into a color as `0xAARRGGBB`, and a
/// percentage weakens to a plain number.  A percentage never converts to
/// a length here; that needs the dedicated ancestor rule.
pub open spec fn spec_can_convert(from: TyM, to: TyM) -> bool {
    ||| from == to
    ||| (from == TyM::Int32 && to == TyM::Float32)
    ||| (from == TyM::Float32 && to == TyM::Int32)
    ||| ((from == TyM::Int32 || from == TyM::Float32) && to == TyM::Color)
    ||| (from == TyM::Percent && to == TyM::Float32)
}

pub fn can_convert(from: &Ty, to: &Ty) -> (r: bool)
    ensures
        r == spec_can_convert(from@, to@),
{
    if ty_eq(from, to) {
        true
    } else {
        match (from, to) {
            (Ty::Int32, Ty::Float32) => true,
            (Ty::Float32, Ty::Int32) => true,
            (Ty::Int32, Ty::Color) => true,
            (Ty::Float32, Ty::Color) => true,
            (Ty::Percent, Ty::Float32) => true,
            _ => false,
        }
    }
}

/// The unit-carrying types of the arithmetic table.
pub open spec fn spec_is_unit_type(t: TyM) -> bool {
    t == TyM::Duration || t == TyM::Length || t == TyM::LogicalLength
}

pub fn is_unit_type(t: &Ty) -> (r: bool)
    ensures
        r == spec_is_unit_type(t@),
{
    match t {
        Ty::Duration => true,
        Ty::Length => true,
        Ty::LogicalLength => true,
        _ => false,
    }
}

} // verus!
