use vstd::prelude::*;
use crate::diagnostics::BuildDiagnostics;
use crate::diagnostics::Span;
use crate::expression_tree::Expression;
use crate::expression_tree::expr_ty;
use crate::langtype::Ty;
use crate::langtype::TyM;
use crate::langtype::can_convert;
use crate::langtype::clone_ty;
use crate::langtype::spec_can_convert;
use crate::langtype::ty_eq;
use vstd::string::StringExecFns;
use crate::expression_tree::object_field_ty;
use crate::expression_tree::object_has_field;
use crate::ident::str_eq;
use crate::langtype::clone_fields;
use crate::langtype::lemma_pairs_seq_view;
use crate::langtype::lemma_tys_seq_view;
use crate::langtype::pair_view;
use crate::langtype::pairs_vec_view;
use crate::langtype::tys_vec_view;

verus! {

/// The sequence `b` is `a` with zero or more entries appended: what an
/// append-only sink guarantees across a call.
pub open spec fn extends<A>(b: Seq<A>, a: Seq<A>) -> bool {
    b.len() >= a.len() && b.subrange(0, a.len() as int) == a
}

pub proof fn lemma_extends_trans<A>(c: Seq<A>, b: Seq<A>, a: Seq<A>)
    requires
        extends(c, b),
        extends(b, a),
    ensures
        extends(c, a),
{
    assert(c.subrange(0, a.len() as int) =~= b.subrange(0, a.len() as int));
    assert(b.subrange(0, a.len() as int) =~= a.subrange(0, a.len() as int));
    assert(a.subrange(0, a.len() as int) =~= a);
}

/// Transitivity of `extends`, available wherever both steps are known.
pub broadcast proof fn extends_trans_auto<A>(c: Seq<A>, b: Seq<A>, a: Seq<A>)
    requires
        #[trigger] extends(c, b),
        #[trigger] extends(b, a),
    ensures
        extends(c, a),
{
    lemma_extends_trans(c, b, a);
}

pub proof fn lemma_extends_refl<A>(a: Seq<A>)
    ensures
        extends(a, a),
{
    assert(a.subrange(0, a.len() as int) =~= a);
}

pub proof fn lemma_extends_push<A>(a: Seq<A>, x: A)
    ensures
        extends(a.push(x), a),
{
    assert(a.push(x).subrange(0, a.len() as int) =~= a);
}

impl Expression {
    /// The single coercion chokepoint.  An expression that already has
    /// the wanted type passes through unchanged; so does anything
    /// involving `Invalid`, whose error is already recorded.  An allowed
    /// conversion becomes an explicit cast; anything else is diagnosed
    /// and degrades to `Invalid`.
    pub fn maybe_convert_to(self, target: &Ty, span: Span, diag: &mut BuildDiagnostics) -> (r:
        Expression)
        ensures
            expr_ty(self) == target@ ==> r == self && final(diag)@ == old(diag)@,
            expr_ty(self) != target@ && (expr_ty(self) is Invalid || target@ is Invalid) ==> r
                == self && final(diag)@ == old(diag)@,
            expr_ty(self) != target@ && !(expr_ty(self) is Invalid) && !(target@ is Invalid)
                && spec_can_convert(expr_ty(self), target@) ==> (r matches Expression::Cast {
                from,
                to,
            } && *from == self && to@ == target@) && final(diag)@ == old(diag)@,
            expr_ty(self) != target@ && !(expr_ty(self) is Invalid) && !(target@ is Invalid)
                && !spec_can_convert(expr_ty(self), target@) ==> r is Invalid && final(diag)@.len()
                == old(diag)@.len() + 1 && final(diag)@.last().message@
                == "Cannot convert the expression to the expected type"@,
            extends(final(diag)@, old(diag)@),
    {
        proof {
            lemma_extends_refl(diag@);
        }
        let own_ty = self.ty();
        if ty_eq(&own_ty, target) {
            return self;
        }
        let own_invalid = match &own_ty {
            Ty::Invalid => true,
            _ => false,
        };
        let target_invalid = match target {
            Ty::Invalid => true,
            _ => false,
        };
        if own_invalid || target_invalid {
            return self;
        }
        if can_convert(&own_ty, target) {
            return Expression::Cast { from: Box::new(self), to: clone_ty(target) };
        }
        diag.push_error(
            String::from_str("Cannot convert the expression to the expected type"),
            span,
        );
        proof {
            lemma_extends_push(old(diag)@, final(diag)@.last());
        }
        Expression::Invalid
    }
}


/// Replace the first field called `name`, or append a new one.
pub open spec fn field_upsert(fs: Seq<(Seq<char>, TyM)>, name: Seq<char>, ty: TyM) -> Seq<
    (Seq<char>, TyM),
>
    decreases fs.len(),
{
    if fs.len() == 0 {
        seq![(name, ty)]
    } else if fs[0].0 == name {
        seq![(name, ty)] + fs.drop_first()
    } else {
        seq![fs[0]] + field_upsert(fs.drop_first(), name, ty)
    }
}

/// The common-type fold of two types: identical types unify; `Invalid`
/// starts the fold; two object types merge field-wise, recursively for
/// fields present in both, keeping whichever name exists; otherwise the
/// convertible direction wins, and incompatible types end in `Invalid`.
pub open spec fn spec_common_target(acc: TyM, t: TyM) -> TyM
    decreases t, 1int,
{
    if acc == t {
        acc
    } else if acc == TyM::Invalid {
        t
    } else if acc matches TyM::Object { fields: fa, name: na } && t matches TyM::Object {
        fields: fb,
        name: nb,
    } {
        TyM::Object {
            fields: merge_object_fields(acc->Object_fields, t->Object_fields),
            name: if acc->Object_name is Some {
                acc->Object_name
            } else {
                t->Object_name
            },
        }
    } else if spec_can_convert(t, acc) {
        acc
    } else if spec_can_convert(acc, t) {
        t
    } else {
        TyM::Invalid
    }
}

/// Merge the fields of a second object type into a first, in order.
pub open spec fn merge_object_fields(
    fa: Seq<(Seq<char>, TyM)>,
    fb: Seq<(Seq<char>, TyM)>,
) -> Seq<(Seq<char>, TyM)>
    decreases fb, 0int,
{
    if fb.len() == 0 {
        fa
    } else {
        merge_object_fields(merge_one_field(fa, fb[0]), fb.subrange(1, fb.len() as int))
    }
}

/// Merge one field: a field of the same name unifies recursively, a new
/// field is appended.
pub open spec fn merge_one_field(
    fa: Seq<(Seq<char>, TyM)>,
    entry: (Seq<char>, TyM),
) -> Seq<(Seq<char>, TyM)>
    decreases entry, 0int,
{
    if crate::expression_tree::object_has_field(fa, entry.0) {
        field_upsert(
            fa,
            entry.0,
            spec_common_target(
                crate::expression_tree::object_field_ty(fa, entry.0),
                entry.1,
            ),
        )
    } else {
        fa.push(entry)
    }
}


pub proof fn lemma_object_field_at(fs: Seq<(Seq<char>, TyM)>, name: Seq<char>, i: int)
    requires
        0 <= i < fs.len(),
        fs[i].0 == name,
        forall|j: int| 0 <= j < i ==> (#[trigger] fs[j]).0 != name,
    ensures
        object_has_field(fs, name),
        object_field_ty(fs, name) == fs[i].1,
    decreases i,
{
    if i > 0 {
        lemma_object_field_at(fs.drop_first(), name, i - 1);
    }
}

pub proof fn lemma_object_field_none(fs: Seq<(Seq<char>, TyM)>, name: Seq<char>)
    requires
        forall|j: int| 0 <= j < fs.len() ==> (#[trigger] fs[j]).0 != name,
    ensures
        !object_has_field(fs, name),
    decreases fs.len(),
{
    if fs.len() > 0 {
        lemma_object_field_none(fs.drop_first(), name);
    }
}

proof fn lemma_field_upsert_found(fs: Seq<(Seq<char>, TyM)>, name: Seq<char>, ty: TyM, i: int)
    requires
        0 <= i < fs.len(),
        fs[i].0 == name,
        forall|j: int| 0 <= j < i ==> (#[trigger] fs[j]).0 != name,
    ensures
        field_upsert(fs, name, ty) =~= fs.update(i, (name, ty)),
    decreases i,
{
    if i > 0 {
        lemma_field_upsert_found(fs.drop_first(), name, ty, i - 1);
        assert(field_upsert(fs, name, ty) =~= seq![fs[0]] + field_upsert(
            fs.drop_first(),
            name,
            ty,
        ));
        assert(fs.update(i, (name, ty)).drop_first() =~= fs.drop_first().update(
            i - 1,
            (name, ty),
        ));
    }
}

proof fn lemma_field_upsert_missing(fs: Seq<(Seq<char>, TyM)>, name: Seq<char>, ty: TyM)
    requires
        forall|j: int| 0 <= j < fs.len() ==> (#[trigger] fs[j]).0 != name,
    ensures
        field_upsert(fs, name, ty) =~= fs.push((name, ty)),
    decreases fs.len(),
{
    if fs.len() > 0 {
        lemma_field_upsert_missing(fs.drop_first(), name, ty);
        assert(fs.push((name, ty)).drop_first() =~= fs.drop_first().push((name, ty)));
    }
}

/// Merge one source field into an object type's field list in place.
#[verifier::loop_isolation(false)]
fn merge_one_field_exec(fields: &mut Vec<(String, Ty)>, entry: &(String, Ty)) -> (nothing: ())
    ensures
        pairs_vec_view(*final(fields)) == merge_one_field(
            pairs_vec_view(*old(fields)),
            pair_view(*entry),
        ),
    decreases entry, 0int,
{
    proof {
        lemma_pairs_seq_view(fields@);
    }
    let ghost fsv = pairs_vec_view(*fields);
    let n: usize = fields.len();
    let mut i: usize = 0;
    while i < n
        invariant
            i <= n,
            n == fields@.len(),
            *fields == *old(fields),
            forall|j: int| 0 <= j < i ==> (#[trigger] fields@[j]).0@ != entry.0@,
        decreases n - i,
    {
        if str_eq(fields[i].0.as_str(), entry.0.as_str()) {
            proof {
                assert(fsv[i as int] == pair_view(fields@[i as int]));
                assert forall|j: int| 0 <= j < i implies (#[trigger] fsv[j]).0 != entry.0@ by {
                    assert(fsv[j] == pair_view(fields@[j]));
                }
                lemma_object_field_at(fsv, entry.0@, i as int);
                lemma_field_upsert_found(
                    fsv,
                    entry.0@,
                    spec_common_target(fsv[i as int].1, pair_view(*entry).1),
                    i as int,
                );
            }
            let existing = clone_ty(&fields[i].1);
            let merged = common_target_pair(existing, &entry.1);
            let new_name = entry.0.clone();
            fields[i] = (new_name, merged);
            proof {
                lemma_pairs_seq_view(fields@);
                assert forall|j: int| 0 <= j < fields@.len() implies pairs_vec_view(*fields)[j]
                    == field_upsert(
                    fsv,
                    entry.0@,
                    spec_common_target(fsv[i as int].1, pair_view(*entry).1),
                )[j] by {
                    assert(pairs_vec_view(*fields)[j] == pair_view(fields@[j]));
                    assert(fsv[j] == pair_view(old(fields)@[j]));
                }
                assert(pairs_vec_view(*fields) =~= merge_one_field(fsv, pair_view(*entry)));
            }
            return ;
        }
        i += 1;
    }
    proof {
        assert forall|j: int| 0 <= j < fsv.len() implies (#[trigger] fsv[j]).0 != entry.0@ by {
            assert(fsv[j] == pair_view(fields@[j]));
        }
        lemma_object_field_none(fsv, entry.0@);
    }
    let new_name = entry.0.clone();
    let new_ty = clone_ty(&entry.1);
    fields.push((new_name, new_ty));
    proof {
        lemma_pairs_seq_view(fields@);
        assert forall|j: int| 0 <= j < fields@.len() implies pairs_vec_view(*fields)[j] == fsv.push(
            pair_view(*entry),
        )[j] by {
            assert(pairs_vec_view(*fields)[j] == pair_view(fields@[j]));
            if j < fsv.len() {
                assert(fsv[j] == pair_view(old(fields)@[j]));
            }
        }
        assert(pairs_vec_view(*fields) =~= merge_one_field(fsv, pair_view(*entry)));
    }
}

/// Fold one more type into the common target type.
#[verifier::loop_isolation(false)]
pub fn common_target_pair(acc: Ty, t: &Ty) -> (r: Ty)
    ensures
        r@ == spec_common_target(acc@, t@),
    decreases t, 1int,
{
    if ty_eq(&acc, t) {
        return acc;
    }
    let acc_invalid = match &acc {
        Ty::Invalid => true,
        _ => false,
    };
    if acc_invalid {
        return clone_ty(t);
    }
    let both_objects = match (&acc, t) {
        (Ty::Object { .. }, Ty::Object { .. }) => true,
        _ => false,
    };
    if both_objects {
        let ghost accv = acc@;
        let ghost tv = t@;
        match (acc, t) {
            (Ty::Object { fields: fa, name: na }, Ty::Object { fields: fb, name: nb }) => {
                let ghost fav = pairs_vec_view(fa);
                let ghost fbv = pairs_vec_view(*fb);
                let mut merged = fa;
                let nb_entries: usize = fb.len();
                let mut j: usize = 0;
                proof {
                    lemma_pairs_seq_view(fb@);
                    assert(fbv.subrange(0, fbv.len() as int) =~= fbv);
                }
                while j < nb_entries
                    invariant
                        j <= nb_entries,
                        nb_entries == fb@.len(),
                        fbv.len() == fb@.len(),
                        merge_object_fields(fav, fbv) == merge_object_fields(
                            pairs_vec_view(merged),
                            fbv.subrange(j as int, fbv.len() as int),
                        ),
                    decreases nb_entries - j,
                {
                    proof {
                        assert(fbv[j as int] == pair_view(fb@[j as int]));
                        assert(fbv.subrange(j as int, fbv.len() as int)[0] == fbv[j as int]);
                        assert(fbv.subrange(j as int, fbv.len() as int).subrange(
                            1,
                            fbv.len() - j,
                        ) =~= fbv.subrange(j + 1 as int, fbv.len() as int));
                    }
                    merge_one_field_exec(&mut merged, &fb[j]);
                    j += 1;
                }
                proof {
                    assert(fbv.subrange(nb_entries as int, fbv.len() as int).len() == 0);
                    assert(merge_object_fields(
                        pairs_vec_view(merged),
                        fbv.subrange(nb_entries as int, fbv.len() as int),
                    ) == pairs_vec_view(merged));
                }
                let out_name: Option<String> = match (na, nb) {
                    (Option::Some(s), _) => Option::Some(s),
                    (Option::None, Option::Some(s)) => Option::Some(s.clone()),
                    (Option::None, Option::None) => Option::None,
                };
                let out = Ty::Object { fields: merged, name: out_name };
                proof {
                    assert(out@ =~~= spec_common_target(accv, tv));
                }
                out
            },
            _ => Ty::Invalid,  // unreachable: both sides are object types
        }
    } else if can_convert(t, &acc) {
        acc
    } else if can_convert(&acc, t) {
        clone_ty(t)
    } else {
        Ty::Invalid
    }
}

/// The common target type of a whole list, folded left to right from
/// `Invalid`.
pub open spec fn spec_common_target_list(ts: Seq<TyM>) -> TyM
    decreases ts.len(),
{
    if ts.len() == 0 {
        TyM::Invalid
    } else {
        spec_common_target(spec_common_target_list(ts.drop_last()), ts.last())
    }
}

impl Expression {
    /// The type every expression of a heterogeneous collection is cast
    /// to: conditional branches, array elements, merged object literals.
    #[verifier::loop_isolation(false)]
    pub fn common_target_type_for_type_list(types: &Vec<Ty>) -> (r: Ty)
        ensures
            r@ == spec_common_target_list(tys_vec_view(*types)),
    {
        let ghost full = tys_vec_view(*types);
        proof {
            lemma_tys_seq_view(types@);
        }
        let n: usize = types.len();
        let mut acc = Ty::Invalid;
        let mut i: usize = 0;
        while i < n
            invariant
                i <= n,
                n == types@.len(),
                full.len() == n,
                acc@ == spec_common_target_list(full.subrange(0, i as int)),
            decreases n - i,
        {
            proof {
                assert(full[i as int] == crate::langtype::ty_view(types@[i as int]));
                assert(full.subrange(0, i + 1 as int).drop_last() =~= full.subrange(0, i as int));
                assert(full.subrange(0, i + 1 as int).last() == full[i as int]);
            }
            acc = common_target_pair(acc, &types[i]);
            i += 1;
        }
        proof {
            assert(full.subrange(0, n as int) =~= full);
        }
        acc
    }
}

} // verus!
