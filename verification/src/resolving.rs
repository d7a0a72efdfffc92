use vstd::prelude::*;
use crate::coercion::extends;
use crate::coercion::lemma_extends_push;
use crate::coercion::lemma_extends_refl;
use crate::coercion::lemma_extends_trans;
use crate::diagnostics::BuildDiagnostics;
use crate::diagnostics::Span;
use crate::expression_tree::Expression;
use crate::expression_tree::object_field_ty;
use crate::ident::normalize_identifier;
use crate::ident::normalized;
use crate::ident::str_eq;
use crate::langtype::pairs_vec_view;
use crate::langtype::spec_is_property_type;
use crate::expression_tree::NamedReference;
use crate::expression_tree::expr_ty;
use crate::expression_tree::spec_is_rw;
use crate::ident::push_char;
use crate::langtype::Ty;
use crate::langtype::TyM;
use crate::langtype::clone_ty;
use crate::langtype::ty_eq;
use crate::literals::NumberValue;
use crate::literals::Unit;
use crate::object_tree::Document;
use crate::object_tree::TypeRegister;
use crate::object_tree::doc_wf;
use crate::object_tree::find_parent_element;
use crate::object_tree::lookup_property;
use crate::object_tree::scopes_ok;
use crate::object_tree::spec_find_parent;
use crate::object_tree::spec_lookup_property;
use vstd::string::StrSliceExecFns;
use vstd::string::StringExecFns;

verus! {

broadcast use vstd::std_specs::vec::group_vec_axioms, crate::coercion::extends_trans_auto;

/// Everything one expression resolution needs to look identifiers up:
/// which property is being bound and with which declared type, the
/// lexical scope stack, the argument names of the enclosing callback,
/// the type registry, the diagnostics sink, and the counter that names
/// the local variables of lowered macros.
pub struct LookupCtx {
    /// Name of the property this expression is bound to, for
    /// diagnostics and the percentage conversion rule.
    pub property_name: Option<String>,
    /// The declared type of that property: the coercion target.
    pub property_type: Ty,
    /// The scope stack; the last element is the innermost scope.
    pub component_scope: Vec<usize>,
    /// Where errors are recorded; append-only.
    pub diag: BuildDiagnostics,
    /// Argument names of the enclosing callback, in declaration order.
    pub arguments: Vec<String>,
    /// The registry in which global singletons are looked up.
    pub type_register: TypeRegister,
    /// Counter for the local variables of lowered `min`/`max` calls,
    /// scoped to one resolution run for deterministic output.
    pub local_variable_counter: usize,
}

impl LookupCtx {
    /// A context that can only resolve constant expressions: no
    /// property, no scopes, no arguments.
    pub fn empty_context(type_register: TypeRegister, diag: BuildDiagnostics) -> (r: LookupCtx)
        ensures
            r.property_name is None,
            r.property_type@ == TyM::Invalid,
            r.component_scope@.len() == 0,
            r.diag == diag,
            r.arguments@.len() == 0,
            r.type_register == type_register,
    {
        LookupCtx {
            property_name: Option::None,
            property_type: Ty::Invalid,
            component_scope: Vec::new(),
            diag,
            arguments: Vec::new(),
            type_register,
            local_variable_counter: 1,
        }
    }
}

/// Everything of the context except the sink and the counter is left
/// alone by the resolver functions.
pub open spec fn ctx_frame(b: LookupCtx, a: LookupCtx) -> bool {
    &&& b.property_name == a.property_name
    &&& b.property_type == a.property_type
    &&& b.component_scope == a.component_scope
    &&& b.arguments == a.arguments
    &&& b.type_register == a.type_register
}

/// What every resolver step guarantees about the context: the frame is
/// kept and diagnostics only grow.
pub open spec fn ctx_advances(b: LookupCtx, a: LookupCtx) -> bool {
    &&& ctx_frame(b, a)
    &&& extends(b.diag@, a.diag@)
}

/// The decimal rendering of a number, most significant digit first.
pub open spec fn spec_decimal(n: nat) -> Seq<char>
    decreases n,
{
    if n < 10 {
        seq![spec_digit_char(n)]
    } else {
        spec_decimal(n / 10).push(spec_digit_char(n % 10))
    }
}

pub open spec fn spec_digit_char(d: nat) -> char {
    (48 + d) as u8 as char
}

/// Render a number in decimal.
pub fn decimal_string(n: usize) -> (r: String)
    ensures
        r@ == spec_decimal(n as nat),
    decreases n,
{
    if n < 10 {
        let mut s = String::new();
        push_char(&mut s, (48 + (n as u8)) as char);
        proof {
            assert(s@ =~= seq![spec_digit_char(n as nat)]);
        }
        s
    } else {
        let mut s = decimal_string(n / 10);
        push_char(&mut s, (48 + ((n % 10) as u8)) as char);
        s
    }
}

/// A generated local-variable name: the given stem and a counter.
fn local_variable_name(stem: &str, id: usize) -> (r: String)
    ensures
        r@ == stem@ + spec_decimal(id as nat),
{
    let mut s = String::from_str(stem);
    let digits = decimal_string(id);
    s.append(digits.as_str());
    s
}

/// The names a percentage may be converted against: only the geometry
/// properties that are sized relative to the parent.
pub open spec fn spec_relative_to_parent_name(name: Seq<char>) -> bool {
    name == "width"@ || name == "height"@
}

/// Whether the context's property may take a percentage: it must be
/// called exactly `width` or `height`.
pub open spec fn pct_name_ok(ctx: LookupCtx) -> bool {
    ctx.property_name matches Some(n) && spec_relative_to_parent_name(n@)
}

/// The name of the property being resolved, empty when there is none.
pub open spec fn ctx_prop_name(ctx: LookupCtx) -> Seq<char> {
    match ctx.property_name {
        Some(n) => n@,
        None => Seq::empty(),
    }
}

/// The nearest strict ancestor of `e` exposing a `Length`-typed
/// property of the given name, walking parents outward.
pub open spec fn nearest_length_ancestor(d: Document, e: int, name: Seq<char>) -> Option<int>
    decreases e,
        when doc_wf(d) && 0 <= e < d.elements.len()
        via nearest_length_ancestor_decreases
{
    match spec_find_parent(d, e) {
        Option::None => None,
        Option::Some(p) => if spec_lookup_property(d, p, name) == TyM::Length {
            Some(p)
        } else {
            nearest_length_ancestor(d, p, name)
        },
    }
}

#[via_fn]
proof fn nearest_length_ancestor_decreases(d: Document, e: int, name: Seq<char>) {
    match spec_find_parent(d, e) {
        Option::Some(p) => {
            lemma_parent_is_earlier(d, e, p);
        },
        Option::None => {},
    }
}

/// The shape `attempt_percent_conversion` produces on success:
/// `(e * 0.01) * a.property`, against exactly the ancestor `a`, whose
/// same-named property has length type.
pub open spec fn spec_percent_rewrite(
    d: Document,
    ctx: LookupCtx,
    e: Expression,
    r: Expression,
    a: int,
) -> bool {
    &&& r matches Expression::BinaryExpression { lhs, rhs, op: '*' }
    &&& (*rhs matches Expression::PropertyReference { nr, ty } && nr.element == a && nr.name@
        == ctx_prop_name(ctx) && spec_lookup_property(d, nr.element as int, nr.name@)
        == TyM::Length && ty@ == TyM::Length)
    &&& (*lhs matches Expression::BinaryExpression { lhs: inner_lhs, rhs: inner_rhs, op: '*' }
        && *inner_lhs == e && *inner_rhs == Expression::NumberLiteral(
        NumberValue { mantissa: 1, scale: 2 },
        Unit::Plain,
    ))
}

/// If the resolved expression is a percentage bound to a `width` or
/// `height` property of length type, rewrite it to a fraction of the
/// nearest ancestor's property of the same name; a percentage anywhere
/// else is an error.
#[verifier::loop_isolation(false)]
pub fn attempt_percent_conversion(
    d: &Document,
    ctx: &mut LookupCtx,
    e: Expression,
    span: Span,
) -> (r: Expression)
    requires
        doc_wf(*d),
        scopes_ok(*d, old(ctx).component_scope@),
    ensures
        ctx_advances(*final(ctx), *old(ctx)),
        !(old(ctx).property_type@ == TyM::Length && expr_ty(e) == TyM::Percent) ==> r == e
            && final(ctx).diag@ == old(ctx).diag@,
        old(ctx).property_type@ == TyM::Length && expr_ty(e) == TyM::Percent && !pct_name_ok(
            *old(ctx),
        ) ==> r is Invalid && final(ctx).diag@.len() == old(ctx).diag@.len() + 1 && final(ctx).diag@.last().message@
            == "Automatic conversion from percentage to length is only possible for the properties width and height"@,
        old(ctx).property_type@ == TyM::Length && expr_ty(e) == TyM::Percent && pct_name_ok(
            *old(ctx),
        ) && old(ctx).component_scope@.len() == 0 ==> r is Invalid && final(ctx).diag@.len() == old(ctx).diag@.len() + 1,
        old(ctx).property_type@ == TyM::Length && expr_ty(e) == TyM::Percent && pct_name_ok(
            *old(ctx),
        ) && old(ctx).component_scope@.len() > 0 ==> (match nearest_length_ancestor(
            *d,
            old(ctx).component_scope@.last() as int,
            ctx_prop_name(*old(ctx)),
        ) {
            Some(a) => spec_percent_rewrite(*d, *old(ctx), e, r, a) && final(ctx).diag@ == old(ctx).diag@,
            None => r is Invalid && final(ctx).diag@.len() == old(ctx).diag@.len() + 1,
        }),
{
    proof {
        lemma_extends_refl(ctx.diag@);
    }
    let is_length = match &ctx.property_type {
        Ty::Length => true,
        _ => false,
    };
    let ety = e.ty();
    let is_percent = match &ety {
        Ty::Percent => true,
        _ => false,
    };
    if !is_length || !is_percent {
        return e;
    }
    let name_ok = match &ctx.property_name {
        Option::Some(n) => crate::ident::str_eq(n.as_str(), "width") || crate::ident::str_eq(
            n.as_str(),
            "height",
        ),
        Option::None => false,
    };
    if !name_ok {
        ctx.diag.push_error(
            String::from_str(
                "Automatic conversion from percentage to length is only possible for the properties width and height",
            ),
            span,
        );
        proof {
            lemma_extends_push(old(ctx).diag@, final(ctx).diag@.last());
        }
        return Expression::Invalid;
    }
    if ctx.component_scope.len() == 0 {
        ctx.diag.push_error(
            String::from_str("Cannot find parent property to apply relative length"),
            span,
        );
        proof {
            lemma_extends_push(old(ctx).diag@, final(ctx).diag@.last());
        }
        return Expression::Invalid;
    }
    let innermost = ctx.component_scope[ctx.component_scope.len() - 1];
    let ghost goal = nearest_length_ancestor(*d, innermost as int, ctx_prop_name(*old(ctx)));
    let mut parent_opt = find_parent_element(d, innermost);
    proof {
        match spec_find_parent(*d, innermost as int) {
            Option::Some(q) => {
                lemma_parent_is_earlier(*d, innermost as int, q);
            },
            Option::None => {},
        }
    }
    let mut fuel: usize = innermost;
    loop
        invariant
            doc_wf(*d),
            match parent_opt {
                Option::Some(p) => p < d.elements@.len() && p < fuel && goal == (
                if spec_lookup_property(*d, p as int, ctx_prop_name(*old(ctx))) == TyM::Length {
                    Some(p as int)
                } else {
                    nearest_length_ancestor(*d, p as int, ctx_prop_name(*old(ctx)))
                }),
                Option::None => goal is None,
            },
            ctx_frame(*ctx, *old(ctx)),
            ctx.diag@ == old(ctx).diag@,
            ctx.property_name matches Some(pn) && spec_relative_to_parent_name(pn@),
        decreases fuel,
    {
        match parent_opt {
            Option::Some(p) => {
                let prop_name: String = match &ctx.property_name {
                    Option::Some(n) => n.clone(),
                    Option::None => unreached(),
                };
                let ty = lookup_property(d, p, prop_name.as_str());
                let ty_is_length = match &ty {
                    Ty::Length => true,
                    _ => false,
                };
                if ty_is_length {
                    let reference = Expression::PropertyReference {
                        nr: NamedReference { element: p, name: prop_name },
                        ty: Ty::Length,
                    };
                    let scaled = Expression::BinaryExpression {
                        lhs: Box::new(e),
                        rhs: Box::new(
                            Expression::NumberLiteral(
                                NumberValue { mantissa: 1, scale: 2 },
                                Unit::Plain,
                            ),
                        ),
                        op: '*',
                    };
                    return Expression::BinaryExpression {
                        lhs: Box::new(scaled),
                        rhs: Box::new(reference),
                        op: '*',
                    };
                }
                parent_opt = find_parent_element(d, p);
                proof {
                    match spec_find_parent(*d, p as int) {
                        Option::Some(q) => {
                            lemma_parent_is_earlier(*d, p as int, q);
                        },
                        Option::None => {},
                    }
                }
                fuel = p;
            },
            Option::None => {
                ctx.diag.push_error(
                    String::from_str("Cannot find parent property to apply relative length"),
                    span,
                );
                proof {
                    lemma_extends_push(old(ctx).diag@, final(ctx).diag@.last());
                }
                return Expression::Invalid;
            },
        }
    }
}

/// A parent found by the search sits before its child in the arena.
/// Record one resolution error: the frame is untouched, exactly one
/// entry is appended.
pub fn report(ctx: &mut LookupCtx, message: String, span: Span)
    ensures
        ctx_frame(*final(ctx), *old(ctx)),
        final(ctx).local_variable_counter == old(ctx).local_variable_counter,
        final(ctx).diag@.len() == old(ctx).diag@.len() + 1,
        extends(final(ctx).diag@, old(ctx).diag@),
{
    ctx.diag.push_error(message, span);
    proof {
        lemma_extends_push(old(ctx).diag@, final(ctx).diag@.last());
    }
}

pub proof fn lemma_parent_is_earlier(d: Document, e: int, p: int)
    requires
        doc_wf(d),
        0 <= e < d.elements.len(),
        spec_find_parent(d, e) == Some(p),
    ensures
        0 <= p < d.elements.len(),
        p < e,
{
    let root = d.components[d.elements[e].enclosing_component as int].root_element as int;
    assert(crate::object_tree::elem_ok(d, e));
    lemma_parent_search_earlier(d, root, e, p);
}

proof fn lemma_parent_search_earlier(d: Document, base: int, e: int, p: int)
    requires
        doc_wf(d),
        0 <= base < d.elements.len(),
        crate::object_tree::parent_search(d, base, e) == Some(p),
    ensures
        0 <= p < d.elements.len(),
        p < e,
    decreases d.elements.len() - base, d.elements[base].children.len() + 1,
{
    lemma_parent_search_from_earlier(d, base, 0, e, p);
}

proof fn lemma_parent_search_from_earlier(d: Document, base: int, k: int, e: int, p: int)
    requires
        doc_wf(d),
        0 <= base < d.elements.len(),
        0 <= k,
        crate::object_tree::parent_search_from(d, base, k, e) == Some(p),
    ensures
        0 <= p < d.elements.len(),
        p < e,
    decreases d.elements.len() - base, d.elements[base].children.len() - k,
{
    assert(crate::object_tree::elem_ok(d, base));
    if k < d.elements[base].children.len() {
        let c = d.elements[base].children[k] as int;
        if c == e {
        } else {
            if crate::object_tree::parent_search(d, c, e) is Some {
                lemma_parent_search_earlier(d, c, e, p);
            } else {
                lemma_parent_search_from_earlier(d, base, k + 1, e, p);
            }
        }
    }
}


/// The result type of a `min`/`max` macro, decided by its first
/// argument: whole numbers and percentages widen to plain numbers so
/// that later arguments are not truncated; unit types pass through.
pub open spec fn spec_minmax_ty(t: TyM) -> Option<TyM> {
    match t {
        TyM::Float32 => Some(TyM::Float32),
        TyM::Int32 => Some(TyM::Float32),
        TyM::Length => Some(TyM::Length),
        TyM::LogicalLength => Some(TyM::LogicalLength),
        TyM::Duration => Some(TyM::Duration),
        TyM::Percent => Some(TyM::Float32),
        _ => None,
    }
}

fn minmax_ty(t: &Ty) -> (r: Option<Ty>)
    ensures
        match spec_minmax_ty(t@) {
            Some(m) => r matches Some(x) && x@ == m,
            None => r is None,
        },
{
    match t {
        Ty::Float32 => Some(Ty::Float32),
        Ty::Int32 => Some(Ty::Float32),
        Ty::Length => Some(Ty::Length),
        Ty::LogicalLength => Some(Ty::LogicalLength),
        Ty::Duration => Some(Ty::Duration),
        Ty::Percent => Some(Ty::Float32),
        _ => None,
    }
}

/// The shape of one lowered `min`/`max` fold step: a block that stores
/// both operands into a fresh counter-numbered pair of local variables
/// and picks one with a comparison under the given operator.
pub open spec fn spec_minmax_step(r: Expression, op: char, m: TyM) -> bool {
    r matches Expression::CodeBlock(stmts) && stmts@.len() == 3 && (stmts@[0] matches
        Expression::StoreLocalVariable { name: ln, .. } && (stmts@[1] matches
        Expression::StoreLocalVariable { name: rn, .. } && (exists|id: nat|
        ln@ == "minmax_lhs"@ + spec_decimal(id) && rn@ == "minmax_rhs"@ + spec_decimal(id)) && (
    stmts@[2] matches Expression::Condition { condition, true_expr, false_expr } && (*condition
        matches Expression::BinaryExpression { lhs: cl, rhs: cr, op: cop } && cop == op && (*cl
        matches Expression::ReadLocalVariable { name: cln, ty: clty } && cln@ == ln@ && clty@ == m)
        && (*cr matches Expression::ReadLocalVariable { name: crn, ty: crty } && crn@ == rn@
        && crty@ == m)) && (*true_expr matches Expression::ReadLocalVariable { name: tn, ty: tty }
        && tn@ == ln@ && tty@ == m) && (*false_expr matches Expression::ReadLocalVariable {
        name: fn_,
        ty: fty,
    } && fn_@ == rn@ && fty@ == m))))
}

/// Lower a variadic `min`/`max` call: the first argument fixes the
/// result type, every further argument is coerced to it and folded
/// pairwise into a code block that stores both operands in fresh local
/// variables and picks one with a comparison.
#[verifier::loop_isolation(false)]
pub fn min_max_macro(
    span: Span,
    op: char,
    args: Vec<(Expression, Span)>,
    ctx: &mut LookupCtx,
) -> (r: Expression)
    ensures
        ctx_advances(*final(ctx), *old(ctx)),
        args@.len() == 0 ==> r is Invalid && final(ctx).diag@.len() == old(ctx).diag@.len() + 1
            && final(ctx).diag@.last().message@ == "Needs at least one argument"@,
        args@.len() >= 1 && spec_minmax_ty(expr_ty(args@[0].0)) is None ==> r is Invalid
            && final(ctx).diag@.len() == old(ctx).diag@.len() + 1 && final(ctx).diag@.last().message@
            == "Invalid argument type"@,
        args@.len() == 1 && spec_minmax_ty(expr_ty(args@[0].0)) is Some ==> r == args@[0].0
            && final(ctx).diag@ == old(ctx).diag@,
        r is Invalid ==> final(ctx).diag@.len() > old(ctx).diag@.len(),
        args@.len() >= 2 ==> (spec_minmax_ty(expr_ty(args@[0].0)) matches Some(m)
            ==> expr_ty(r) == m && spec_minmax_step(r, op, m)),
        args@.len() == 2 ==> (spec_minmax_ty(expr_ty(args@[0].0)) matches Some(m) ==> (r matches
            Expression::CodeBlock(stmts) ==> ((stmts@[0] matches
            Expression::StoreLocalVariable { value: lv, .. } ==> *lv == args@[0].0) && (expr_ty(
            args@[1].0,
        ) == m ==> (stmts@[1] matches Expression::StoreLocalVariable { value: rv, .. } ==> *rv
            == args@[1].0))))),
{
    proof {
        lemma_extends_refl(ctx.diag@);
    }
    let mut rest = args;
    if rest.len() == 0 {
        ctx.diag.push_error(String::from_str("Needs at least one argument"), span);
        proof {
            lemma_extends_push(old(ctx).diag@, final(ctx).diag@.last());
        }
        return Expression::Invalid;
    }
    let ghost n_args = rest@.len();
    let (first, first_span) = rest.remove(0);
    let t0 = first.ty();
    let ty: Ty = match minmax_ty(&t0) {
        Option::Some(ty) => ty,
        Option::None => {
            ctx.diag.push_error(String::from_str("Invalid argument type"), first_span);
            proof {
                lemma_extends_push(old(ctx).diag@, final(ctx).diag@.last());
            }
            return Expression::Invalid;
        },
    };
    let mut base = first;
    let ghost first_value = base;
    let mut folded = false;
    while rest.len() > 0
        invariant
            ctx_frame(*ctx, *old(ctx)),
            extends(ctx.diag@, old(ctx).diag@),
            spec_minmax_ty(expr_ty(first_value)) matches Some(m) && ty@ == m,
            !folded ==> base == first_value && ctx.diag@ == old(ctx).diag@ && rest@
                =~= args@.subrange(1, n_args as int),
            first_value == args@[0].0,
            folded ==> expr_ty(base) == ty@ && spec_minmax_step(base, op, ty@),
            folded ==> n_args >= 2 && rest@.len() <= n_args - 2,
            folded && n_args == 2 ==> (base matches Expression::CodeBlock(stmts) && (stmts@[0]
                matches Expression::StoreLocalVariable { value: lv, .. } && *lv == args@[0].0) && (
            expr_ty(args@[1].0) == ty@ ==> (stmts@[1] matches Expression::StoreLocalVariable {
                value: rv,
                ..
            } && *rv == args@[1].0))),
        decreases rest@.len(),
    {
        let ghost was_folded = folded;
        let (next, next_span) = rest.remove(0);
        let ghost next_value = next;
        proof {
            if !was_folded {
                assert(next_value == args@[1].0);
            }
        }
        let ghost diag_mid = ctx.diag@;
        let rhs = next.maybe_convert_to(&ty, next_span, &mut ctx.diag);
        proof {
            lemma_extends_trans(ctx.diag@, diag_mid, old(ctx).diag@);
        }
        let id = ctx.local_variable_counter;
        if ctx.local_variable_counter < usize::MAX {
            ctx.local_variable_counter = ctx.local_variable_counter + 1;
        }
        let n1 = local_variable_name("minmax_lhs", id);
        let n2 = local_variable_name("minmax_rhs", id);
        let ghost n1v = n1@;
        let ghost n2v = n2@;
        proof {
            assert(n1v == "minmax_lhs"@ + spec_decimal(id as nat));
            assert(n2v == "minmax_rhs"@ + spec_decimal(id as nat));
        }
        let condition = Expression::BinaryExpression {
            lhs: Box::new(
                Expression::ReadLocalVariable { name: n1.clone(), ty: clone_ty(&ty) },
            ),
            rhs: Box::new(
                Expression::ReadLocalVariable { name: n2.clone(), ty: clone_ty(&ty) },
            ),
            op,
        };
        let pick_true = Expression::ReadLocalVariable { name: n1.clone(), ty: clone_ty(&ty) };
        let ghost pick_true_value = pick_true;
        let chosen = Expression::Condition {
            condition: Box::new(condition),
            true_expr: Box::new(pick_true),
            false_expr: Box::new(
                Expression::ReadLocalVariable { name: n2.clone(), ty: clone_ty(&ty) },
            ),
        };
        let ghost chosen_value = chosen;
        proof {
            assert(expr_ty(pick_true_value) == ty@);
            assert(expr_ty(chosen_value) == expr_ty(pick_true_value));
        }
        let mut block: Vec<Expression> = Vec::new();
        block.push(Expression::StoreLocalVariable { name: n1, value: Box::new(base) });
        block.push(Expression::StoreLocalVariable { name: n2, value: Box::new(rhs) });
        block.push(chosen);
        let ghost block_view = block@;
        let ghost block_value = block;
        proof {
            assert(block_view.last() == chosen_value);
            assert(crate::expression_tree::codeblock_seq_ty(block_view) == expr_ty(chosen_value));
            assert(crate::expression_tree::codeblock_vec_ty(block_value)
                == crate::expression_tree::codeblock_seq_ty(block_view));
        }
        base = Expression::CodeBlock(block);
        proof {
            assert(expr_ty(base) == crate::expression_tree::codeblock_vec_ty(block_value));
            assert(exists|i: nat|
                n1v == "minmax_lhs"@ + spec_decimal(i) && n2v == "minmax_rhs"@ + spec_decimal(
                    i,
                )) by {
                assert(n1v == "minmax_lhs"@ + spec_decimal(id as nat) && n2v == "minmax_rhs"@
                    + spec_decimal(id as nat));
            }
            assert(spec_minmax_step(base, op, ty@));
        }
        folded = true;
    }
    proof {
        if n_args >= 2 {
            assert(folded);
        }
        if n_args == 1 {
            assert(!folded);
        }
    }
    base
}


/// Build a call from an already-resolved callee and argument list.  The
/// builtin macros are lowered instead of called; a member function gets
/// its receiver prepended to the arguments; a callable type has its
/// arity checked and each argument coerced to the declared parameter
/// type; calling anything else is diagnosed.
#[verifier::loop_isolation(false)]
#[verifier::rlimit(100)]
pub fn build_function_call(
    function: Expression,
    arguments: Vec<(Expression, Span)>,
    span: Span,
    ctx: &mut LookupCtx,
) -> (r: Expression)
    ensures
        ctx_advances(*final(ctx), *old(ctx)),
        !(r is Uncompiled),
        r is Invalid ==> final(ctx).diag@.len() > old(ctx).diag@.len(),
        function == Expression::BuiltinMacroReference(
            crate::expression_tree::BuiltinMacroFunction::Min,
            span,
        ) || function == Expression::BuiltinMacroReference(
            crate::expression_tree::BuiltinMacroFunction::Max,
            span,
        ) ==> {
            let op: char = if function == Expression::BuiltinMacroReference(
                crate::expression_tree::BuiltinMacroFunction::Min,
                span,
            ) {
                '<'
            } else {
                '>'
            };
            &&& (arguments@.len() == 0 ==> r is Invalid && final(ctx).diag@.len() == old(ctx).diag@.len() + 1)
            &&& (arguments@.len() == 1 && spec_minmax_ty(expr_ty(arguments@[0].0)) is Some ==> r
                == arguments@[0].0 && final(ctx).diag@ == old(ctx).diag@)
            &&& (arguments@.len() >= 2 ==> (spec_minmax_ty(expr_ty(arguments@[0].0)) matches Some(
                m,
            ) ==> expr_ty(r) == m && spec_minmax_step(r, op, m)))
        },
        function matches Expression::BuiltinMacroReference(mac, ms) && mac
            == crate::expression_tree::BuiltinMacroFunction::CubicBezier ==> r is EasingCurve && (
        arguments@.len() != 4 ==> final(ctx).diag@.len() == old(ctx).diag@.len() + 1),
        function matches Expression::MemberFunction { base, member, .. } ==> (r matches
            Expression::FunctionCall { function: f, arguments: a } && *f == *member && a@.len()
            >= 1 && (match expr_ty(*member) {
            TyM::Function { args, .. } => a@.len() == arguments@.len() + 1 ==> (a@.len()
                != args.len() ==> (a@[0] == *base && final(ctx).diag@.len() == old(ctx).diag@.len() + 1)),
            TyM::Callback { .. } => true,
            _ => a@[0] == *base && final(ctx).diag@.len() == old(ctx).diag@.len() + 1,
        })),
        !(function is BuiltinMacroReference) && !(function is MemberFunction) ==> (r matches
            Expression::FunctionCall { function: f, arguments: a } && *f == function && (match
        expr_ty(function) {
            TyM::Function { args, .. } => if arguments@.len() == args.len() {
                a@.len() == args.len() && (forall|j: int|
                    0 <= j < a@.len() ==> args[j] != TyM::Invalid ==> expr_ty(#[trigger] a@[j])
                        == args[j] || expr_ty(a@[j]) == TyM::Invalid)
            } else {
                a@.len() == arguments@.len() && (forall|j: int|
                    0 <= j < a@.len() ==> #[trigger] a@[j] == arguments@[j].0) && final(ctx).diag@.len() == old(ctx).diag@.len() + 1
            },
            TyM::Callback { args } => if arguments@.len() == args.len() {
                a@.len() == args.len()
            } else {
                a@.len() == arguments@.len() && final(ctx).diag@.len() == old(ctx).diag@.len()
                    + 1
            },
            _ => a@.len() == arguments@.len() && (forall|j: int|
                0 <= j < a@.len() ==> #[trigger] a@[j] == arguments@[j].0) && final(ctx).diag@.len() == old(ctx).diag@.len() + 1,
        })),
{
    proof {
        lemma_extends_refl(ctx.diag@);
    }
    match function {
        Expression::BuiltinMacroReference(mac, mac_span) => {
            match mac {
                crate::expression_tree::BuiltinMacroFunction::Min => {
                    min_max_macro(mac_span, '<', arguments, ctx)
                },
                crate::expression_tree::BuiltinMacroFunction::Max => {
                    min_max_macro(mac_span, '>', arguments, ctx)
                },
                crate::expression_tree::BuiltinMacroFunction::CubicBezier => {
                    cubic_bezier_macro(arguments, span, ctx)
                },
            }
        },
        other => {
            let mut call_args: Vec<(Expression, Span)> = Vec::new();
            let callee: Expression = match other {
                Expression::MemberFunction { base, base_span, member } => {
                    call_args.push((*base, base_span));
                    *member
                },
                f => f,
            };
            let ghost prepended = call_args@;
            let mut more = arguments;
            let ghost more0 = more@;
            loop
                invariant
                    ctx_frame(*ctx, *old(ctx)),
                    ctx.diag@ == old(ctx).diag@,
                    call_args@.len() + more@.len() == prepended.len() + more0.len(),
                    more@ =~= more0.subrange(
                        call_args@.len() - prepended.len(),
                        more0.len() as int,
                    ),
                    call_args@ =~= prepended + more0.subrange(
                        0,
                        call_args@.len() - prepended.len(),
                    ),
                decreases more@.len(),
            {
                if more.len() == 0 {
                    break;
                }
                let a = more.remove(0);
                call_args.push(a);
            }
            proof {
                assert(call_args@ =~= prepended + more0);
            }
            let fty = callee.ty();
            let expected: Option<Vec<Ty>> = match fty {
                Ty::Function { args, .. } => Option::Some(args),
                Ty::Callback { args } => Option::Some(args),
                _ => Option::None,
            };
            let final_args: Vec<Expression> = match expected {
                Option::Some(arg_tys) => {
                    proof {
                        crate::langtype::lemma_tys_seq_view(arg_tys@);
                        assert(expr_ty(callee) matches TyM::Function { args: am, .. } ==> am
                            == crate::langtype::tys_vec_view(arg_tys));
                        assert(expr_ty(callee) matches TyM::Callback { args: am } ==> am
                            == crate::langtype::tys_vec_view(arg_tys));
                    }
                    if call_args.len() != arg_tys.len() {
                        let ghost mid = ctx.diag@;
                        report(
                            ctx,
                            String::from_str(
                                "The callback or function does not accept this number of arguments",
                            ),
                            span,
                        );
                        proof {
                            lemma_extends_trans(ctx.diag@, mid, old(ctx).diag@);
                        }
                        Expression::drop_argument_spans(call_args)
                    } else {
                        let ghost argtysm = crate::langtype::tys_vec_view(arg_tys);
                        let mut converted: Vec<Expression> = Vec::new();
                        let mut rest = call_args;
                        let mut j: usize = 0;
                        while rest.len() > 0
                            invariant
                                j + rest@.len() == arg_tys@.len(),
                                j == converted@.len(),
                                ctx_frame(*ctx, *old(ctx)),
                                extends(ctx.diag@, old(ctx).diag@),
                                forall|m: int|
                                    0 <= m < j ==> (argtysm[m] != TyM::Invalid ==> expr_ty(
                                        #[trigger] converted@[m],
                                    ) == argtysm[m] || expr_ty(converted@[m]) == TyM::Invalid),
                            decreases rest@.len(),
                        {
                            let (a, a_span) = rest.remove(0);
                            let ghost mid = ctx.diag@;
                            let a = a.maybe_convert_to(&arg_tys[j], a_span, &mut ctx.diag);
                            proof {
                                lemma_extends_trans(ctx.diag@, mid, old(ctx).diag@);
                                assert(argtysm[j as int] == crate::langtype::ty_view(
                                    arg_tys@[j as int],
                                ));
                            }
                            converted.push(a);
                            j += 1;
                        }
                        converted
                    }
                },
                Option::None => {
                    let ghost mid = ctx.diag@;
                    report(ctx, String::from_str("The expression is not a function"), span);
                    proof {
                        lemma_extends_trans(ctx.diag@, mid, old(ctx).diag@);
                    }
                    Expression::drop_argument_spans(call_args)
                },
            };
            Expression::FunctionCall { function: Box::new(callee), arguments: final_args }
        },
    }
}

/// Check and build a two-way binding.  The right-hand side must be
/// exactly a property reference; a reference of a different type than
/// the bound property is a type mismatch, any other expression is a
/// structural error that keeps its value so the caller can still
/// inspect it.
pub fn make_two_way_binding(
    e: Expression,
    property_type: &Ty,
    span: Span,
    diag: &mut BuildDiagnostics,
) -> (r: Expression)
    ensures
        extends(final(diag)@, old(diag)@),
        e matches Expression::PropertyReference { nr, ty } ==> (r matches
            Expression::TwoWayBinding { nr: rnr, ty: rty } && rnr == nr && rty == ty),
        (e matches Expression::PropertyReference { ty, .. } && ty@ == property_type@)
            ==> final(diag)@ == old(diag)@,
        (e matches Expression::PropertyReference { ty, .. } && ty@ != property_type@)
            ==> final(diag)@.len() == old(diag)@.len() + 1 && final(diag)@.last().message@
            == "The property does not have the same type as the bound property"@,
        !(e matches Expression::PropertyReference { .. }) ==> r == e
            && final(diag)@.len() == old(diag)@.len() + 1 && final(diag)@.last().message@
            == "The expression in a two way binding must be a property reference"@,
{
    proof {
        lemma_extends_refl(diag@);
    }
    match e {
        Expression::PropertyReference { nr, ty } => {
            if !ty_eq(&ty, property_type) {
                diag.push_error(
                    String::from_str(
                        "The property does not have the same type as the bound property",
                    ),
                    span,
                );
                proof {
                    lemma_extends_push(old(diag)@, final(diag)@.last());
                }
            }
            Expression::TwoWayBinding { nr, ty }
        },
        other => {
            diag.push_error(
                String::from_str(
                    "The expression in a two way binding must be a property reference",
                ),
                span,
            );
            proof {
                lemma_extends_push(old(diag)@, final(diag)@.last());
            }
            other
        },
    }
}


/// Whether an object type's field list holds the given name.
#[verifier::loop_isolation(false)]
fn field_present(fields: &Vec<(String, Ty)>, name: &str) -> (r: bool)
    ensures
        r == crate::expression_tree::object_has_field(pairs_vec_view(*fields), name@),
{
    proof {
        crate::langtype::lemma_pairs_seq_view(fields@);
    }
    let ghost fsv = pairs_vec_view(*fields);
    let n: usize = fields.len();
    let mut i: usize = 0;
    while i < n
        invariant
            i <= n,
            n == fields@.len(),
            forall|j: int| 0 <= j < i ==> (#[trigger] fields@[j]).0@ != name@,
        decreases n - i,
    {
        if str_eq(fields[i].0.as_str(), name) {
            proof {
                assert(fsv[i as int] == crate::langtype::pair_view(fields@[i as int]));
                assert forall|j: int| 0 <= j < i implies (#[trigger] fsv[j]).0 != name@ by {
                    assert(fsv[j] == crate::langtype::pair_view(fields@[j]));
                }
                crate::coercion::lemma_object_field_at(fsv, name@, i as int);
            }
            return true;
        }
        i += 1;
    }
    proof {
        assert forall|j: int| 0 <= j < fsv.len() implies (#[trigger] fsv[j]).0 != name@ by {
            assert(fsv[j] == crate::langtype::pair_view(fields@[j]));
        }
        crate::coercion::lemma_object_field_none(fsv, name@);
    }
    false
}

/// Follow the remaining segments of a dotted name as field accesses on
/// an already-resolved base expression.  Object types expose their
/// fields, component types the properties of their root element, and
/// strings exactly the two builtin member functions; every other base
/// type rejects field access.
#[verifier::loop_isolation(false)]
pub fn maybe_lookup_object(
    base: Expression,
    parts: &Vec<String>,
    start: usize,
    d: &Document,
    ctx: &mut LookupCtx,
) -> (r: Expression)
    ensures
        ctx_advances(*final(ctx), *old(ctx)),
        start >= parts@.len() ==> r == base && final(ctx).diag@ == old(ctx).diag@,
        !(base is Uncompiled) ==> !(r is Uncompiled),
        start < parts@.len() && r is Invalid ==> final(ctx).diag@.len() > old(ctx).diag@.len(),
        start < parts@.len() && expr_ty(base) == TyM::String ==> {
            let name = normalized(parts@[start as int]@);
            if name == "is_float"@ || name == "to_float"@ {
                r matches Expression::MemberFunction { base: b, member, .. } && *b == base
                    && *member == Expression::BuiltinFunctionReference(
                    if name == "is_float"@ {
                        crate::expression_tree::BuiltinFunction::StringIsFloat
                    } else {
                        crate::expression_tree::BuiltinFunction::StringToFloat
                    },
                ) && final(ctx).diag@ == old(ctx).diag@
            } else {
                r is Invalid && final(ctx).diag@.len() == old(ctx).diag@.len() + 1
            }
        },
        start + 1 == parts@.len() ==> (expr_ty(base) matches TyM::Object { fields, .. } ==> (
        if crate::expression_tree::object_has_field(fields, normalized(parts@[start as int]@)) {
            r matches Expression::ObjectAccess { base: b, name } && *b == base && name@
                == normalized(parts@[start as int]@) && final(ctx).diag@ == old(ctx).diag@
        } else {
            r is Invalid && final(ctx).diag@.len() == old(ctx).diag@.len() + 1
        })),
        start + 1 == parts@.len() ==> (expr_ty(base) matches TyM::Component(c) ==> ((0 <= c
            < d.components@.len() && d.components@[c].root_element < d.elements@.len()
            && spec_lookup_property(
            *d,
            d.components@[c].root_element as int,
            normalized(parts@[start as int]@),
        ) != TyM::Invalid) ==> (r matches Expression::ObjectAccess { base: b, name } && *b == base
            && name@ == normalized(parts@[start as int]@)
            && final(ctx).diag@ == old(ctx).diag@))),
        start < parts@.len() && !(expr_ty(base) matches TyM::Object { .. }) && !(expr_ty(base)
            matches TyM::Component(_)) && expr_ty(base) != TyM::String ==> r is Invalid
            && final(ctx).diag@.len() == old(ctx).diag@.len() + 1,
{
    proof {
        lemma_extends_refl(ctx.diag@);
    }
    let mut base = base;
    let ghost base0 = base;
    let mut i: usize = start;
    let n: usize = parts.len();
    while i < n
        invariant
            ctx_frame(*ctx, *old(ctx)),
            extends(ctx.diag@, old(ctx).diag@),
            i >= start,
            i <= n || i == start,
            i > start ==> !(base is Uncompiled) && !(base is Invalid),
            i == start ==> base == base0 && ctx.diag@ == old(ctx).diag@,
            start >= n ==> i == start,
            i > start ==> expr_ty(base0) != TyM::String,
            i > start ==> (expr_ty(base0) matches TyM::Object { .. } || expr_ty(base0) matches
                TyM::Component(_)),
            i == start + 1 && start < n ==> (expr_ty(base0) matches TyM::Object { fields, .. }
                ==> (crate::expression_tree::object_has_field(
                fields,
                normalized(parts@[start as int]@),
            ) && (base matches Expression::ObjectAccess { base: b, name } && *b == base0 && name@
                == normalized(parts@[start as int]@)) && ctx.diag@ == old(ctx).diag@)),
            i == start + 1 && start < n ==> (expr_ty(base0) matches TyM::Component(c) ==> ((base
                matches Expression::ObjectAccess { base: b, name } && *b == base0 && name@
                == normalized(parts@[start as int]@)) && ctx.diag@ == old(ctx).diag@)),
        decreases n - i,
    {
        let next_str = normalize_identifier(parts[i].as_str());
        let base_ty = base.ty();
        match base_ty {
            Ty::Object { fields, .. } => {
                let has = field_present(&fields, next_str.as_str());
                if has {
                    base = Expression::ObjectAccess { base: Box::new(base), name: next_str };
                } else {
                    let ghost mid = ctx.diag@;
                    let out = field_error_or_try_minus(&fields, parts[i].as_str(), ctx);
                    proof {
                        lemma_extends_trans(ctx.diag@, mid, old(ctx).diag@);
                    }
                    return out;
                }
            },
            Ty::Component(c) => {
                if c >= d.components.len() {
                    let ghost mid = ctx.diag@;
                    report(ctx, String::from_str("Cannot access the field"), Span { start: 0, end: 0 });
                    proof {
                        lemma_extends_trans(ctx.diag@, mid, old(ctx).diag@);
                    }
                    return Expression::Invalid;
                }
                let root = d.components[c].root_element;
                if root >= d.elements.len() {
                    let ghost mid = ctx.diag@;
                    report(ctx, String::from_str("Cannot access the field"), Span { start: 0, end: 0 });
                    proof {
                        lemma_extends_trans(ctx.diag@, mid, old(ctx).diag@);
                    }
                    return Expression::Invalid;
                }
                let prop_ty = lookup_property(d, root, next_str.as_str());
                let known = match &prop_ty {
                    Ty::Invalid => false,
                    _ => true,
                };
                if known {
                    base = Expression::ObjectAccess { base: Box::new(base), name: next_str };
                } else {
                    let ghost mid = ctx.diag@;
                    report(ctx, String::from_str("Cannot access the field"), Span { start: 0, end: 0 });
                    proof {
                        lemma_extends_trans(ctx.diag@, mid, old(ctx).diag@);
                    }
                    return Expression::Invalid;
                }
            },
            Ty::String => {
                let member = if str_eq(next_str.as_str(), "is_float") {
                    Expression::BuiltinFunctionReference(
                        crate::expression_tree::BuiltinFunction::StringIsFloat,
                    )
                } else if str_eq(next_str.as_str(), "to_float") {
                    Expression::BuiltinFunctionReference(
                        crate::expression_tree::BuiltinFunction::StringToFloat,
                    )
                } else {
                    let ghost mid = ctx.diag@;
                    report(
                        ctx,
                        String::from_str("Cannot access fields of string"),
                        Span { start: 0, end: 0 },
                    );
                    proof {
                        lemma_extends_trans(ctx.diag@, mid, old(ctx).diag@);
                    }
                    return Expression::Invalid;
                };
                return Expression::MemberFunction {
                    base: Box::new(base),
                    base_span: Span { start: 0, end: 0 },
                    member: Box::new(member),
                };
            },
            _ => {
                let ghost mid = ctx.diag@;
                report(
                    ctx,
                    String::from_str("Cannot access fields of property"),
                    Span { start: 0, end: 0 },
                );
                proof {
                    lemma_extends_trans(ctx.diag@, mid, old(ctx).diag@);
                }
                return Expression::Invalid;
            },
        }
        i += 1;
    }
    base
}

/// Report an unknown field, suggesting a subtraction when the raw token
/// holds a dash whose prefix would have named a field.
fn field_error_or_try_minus(
    fields: &Vec<(String, Ty)>,
    raw: &str,
    ctx: &mut LookupCtx,
) -> (r: Expression)
    ensures
        ctx_frame(*final(ctx), *old(ctx)),
        extends(final(ctx).diag@, old(ctx).diag@),
        final(ctx).diag@.len() == old(ctx).diag@.len() + 1,
        r is Invalid,
{
    proof {
        lemma_extends_refl(ctx.diag@);
    }
    let mut suggest_minus = false;
    match crate::ident::first_dash(raw) {
        Option::Some(pos) => {
            proof {
                crate::ident::lemma_first_dash_props(raw@);
            }
            let prefix = crate::ident::prefix_owned(raw, pos);
            let prefix_ty = crate::expression_tree::field_ty_lookup(&fields, prefix.as_str());
            suggest_minus = match &prefix_ty {
                Ty::Invalid => false,
                _ => true,
            };
        },
        Option::None => {},
    }
    let message = if suggest_minus {
        String::from_str(
            "Cannot access the field. Use space before the '-' if you meant a subtraction",
        )
    } else {
        String::from_str("Cannot access the field")
    };
    ctx.diag.push_error(message, Span { start: 0, end: 0 });
    proof {
        lemma_extends_push(old(ctx).diag@, final(ctx).diag@.last());
    }
    Expression::Invalid
}


/// Continue a dotted lookup on an element found by id, `self`, `parent`
/// or global lookup.  With no further segment the element itself may
/// stand where an element reference is expected; otherwise the next
/// segment names a property, callback or member function.
#[verifier::loop_isolation(false)]
pub fn continue_lookup_within_element(
    elem: usize,
    parts: &Vec<String>,
    start: usize,
    span: Span,
    d: &Document,
    ctx: &mut LookupCtx,
) -> (r: Expression)
    requires
        doc_wf(*d),
        elem < d.elements@.len(),
    ensures
        ctx_advances(*final(ctx), *old(ctx)),
        !(r is Uncompiled),
        r is Invalid ==> final(ctx).diag@.len() > old(ctx).diag@.len(),
        start >= parts@.len() && old(ctx).property_type@ == TyM::ElementReference ==> r
            == Expression::ElementReference(elem) && final(ctx).diag@ == old(ctx).diag@,
        start >= parts@.len() && old(ctx).property_type@ != TyM::ElementReference ==> r is Invalid
            && final(ctx).diag@.len() == old(ctx).diag@.len() + 1,
        start < parts@.len() && parts@.len() == start + 1 && spec_is_property_type(
            spec_lookup_property(*d, elem as int, normalized(parts@[start as int]@)),
        ) ==> (r matches Expression::PropertyReference { nr, ty } && nr.element == elem && nr.name@
            == normalized(parts@[start as int]@) && ty@ == spec_lookup_property(
            *d,
            elem as int,
            normalized(parts@[start as int]@),
        )) && final(ctx).diag@ == old(ctx).diag@,
        start < parts@.len() && parts@.len() == start + 1 ==> (spec_lookup_property(
            *d,
            elem as int,
            normalized(parts@[start as int]@),
        ) matches TyM::Callback { .. } ==> (r matches Expression::CallbackReference { nr, ty }
            && nr.element == elem && nr.name@ == normalized(parts@[start as int]@))
            && final(ctx).diag@ == old(ctx).diag@),
        start < parts@.len() ==> (spec_lookup_property(
            *d,
            elem as int,
            normalized(parts@[start as int]@),
        ) matches TyM::Function { .. } ==> ((r matches Expression::MemberFunction {
            base,
            member,
            ..
        } && *base == Expression::ElementReference(elem) && (*member matches
            Expression::FunctionReference { nr, ty } && nr.element == elem && nr.name@
            == normalized(parts@[start as int]@) && ty@ == spec_lookup_property(
            *d,
            elem as int,
            normalized(parts@[start as int]@),
        ))) && final(ctx).diag@ == old(ctx).diag@)),
        start < parts@.len() ==> ({
            let p = spec_lookup_property(*d, elem as int, normalized(parts@[start as int]@));
            (!spec_is_property_type(p) && !(p matches TyM::Callback { .. }) && !(p matches
            TyM::Function { .. })) ==> r is Invalid && final(ctx).diag@.len() == old(ctx).diag@.len() + 1
        }),
{
    proof {
        lemma_extends_refl(ctx.diag@);
    }
    if start >= parts.len() {
        let wants_element = match &ctx.property_type {
            Ty::ElementReference => true,
            _ => false,
        };
        if wants_element {
            return Expression::ElementReference(elem);
        }
        report(ctx, String::from_str("Cannot take reference of an element"), span);
        return Expression::Invalid;
    }
    let prop_name = normalize_identifier(parts[start].as_str());
    let p = lookup_property(d, elem, prop_name.as_str());
    let is_prop = crate::langtype::is_property_type(&p);
    if is_prop {
        let prop = Expression::PropertyReference {
            nr: NamedReference { element: elem, name: prop_name },
            ty: p,
        };
        let ghost mid = ctx.diag@;
        let out = maybe_lookup_object(prop, parts, start + 1, d, ctx);
        proof {
            lemma_extends_trans(ctx.diag@, mid, old(ctx).diag@);
        }
        return out;
    }
    let is_callback = match &p {
        Ty::Callback { .. } => true,
        _ => false,
    };
    if is_callback {
        if start + 1 < parts.len() {
            report(ctx, String::from_str("Cannot access fields of callback"), span);
        }
        return Expression::CallbackReference {
            nr: NamedReference { element: elem, name: prop_name },
            ty: p,
        };
    }
    let is_function = match &p {
        Ty::Function { .. } => true,
        _ => false,
    };
    if is_function {
        return Expression::MemberFunction {
            base: Box::new(Expression::ElementReference(elem)),
            base_span: span,
            member: Box::new(
                Expression::FunctionReference {
                    nr: NamedReference { element: elem, name: prop_name },
                    ty: p,
                },
            ),
        };
    }
    // The element has nothing of that name: report it, suggesting a
    // subtraction when the raw token holds a dash whose prefix would
    // have resolved.
    let mut suggest_minus = false;
    match crate::ident::first_dash(parts[start].as_str()) {
        Option::Some(pos) => {
            proof {
                crate::ident::lemma_first_dash_props(parts@[start as int]@);
            }
            let prefix = crate::ident::prefix_owned(parts[start].as_str(), pos);
            let prefix_ty = lookup_property(d, elem, prefix.as_str());
            suggest_minus = match &prefix_ty {
                Ty::Invalid => false,
                _ => true,
            };
        },
        Option::None => {},
    }
    let mut message = String::from_str("Element '");
    message.append(d.elements[elem].id.as_str());
    message.append("' does not have a property '");
    message.append(parts[start].as_str());
    message.append("'.");
    if suggest_minus {
        message.append(" Use space before the '-' if you meant a subtraction.");
    }
    report(ctx, message, span);
    Expression::Invalid
}


/// The first argument position an identifier matches, if any.
pub open spec fn first_arg_index(args: Seq<String>, name: Seq<char>) -> Option<int>
    decreases args.len(),
{
    if args.len() == 0 {
        None
    } else if args[0]@ == name {
        Some(0int)
    } else {
        match first_arg_index(args.drop_first(), name) {
            None => None,
            Some(i) => Some(i + 1),
        }
    }
}

/// The declared type of the parameter at `i` of a callback or function.
pub open spec fn param_ty_at(t: TyM, i: int) -> Option<TyM> {
    match t {
        TyM::Callback { args } => if 0 <= i < args.len() {
            Some(args[i])
        } else {
            None
        },
        TyM::Function { args, .. } => if 0 <= i < args.len() {
            Some(args[i])
        } else {
            None
        },
        _ => None,
    }
}

/// What one scope element offers for an identifier, in the order the
/// resolver consults it: the repeater's index, the repeater's model
/// data, a property, a callback.
pub enum ScopeHit {
    RepIndex(int),
    RepModel(int),
    PropertyHit(int),
    CallbackHit(int),
    NoHit,
}

pub open spec fn elem_hit(d: Document, e: int, name: Seq<char>) -> ScopeHit {
    if d.elements[e].repeated matches Some(rep) && rep.index_id@ == name {
        ScopeHit::RepIndex(e)
    } else if d.elements[e].repeated matches Some(rep) && rep.model_data_id@ == name {
        ScopeHit::RepModel(e)
    } else if spec_is_property_type(spec_lookup_property(d, e, name)) {
        ScopeHit::PropertyHit(e)
    } else if spec_lookup_property(d, e, name) matches TyM::Callback { .. } {
        ScopeHit::CallbackHit(e)
    } else {
        ScopeHit::NoHit
    }
}

/// The innermost scope hit for an identifier: scopes are consulted from
/// the innermost outward, and the first scope offering the name wins.
/// An identifier shadowed at an inner scope therefore never resolves to
/// an outer scope's binding of the same name.
pub open spec fn scope_hit(d: Document, scopes: Seq<usize>, name: Seq<char>) -> ScopeHit
    decreases scopes.len(),
{
    if scopes.len() == 0 {
        ScopeHit::NoHit
    } else {
        let h = elem_hit(d, scopes.last() as int, name);
        if h is NoHit {
            scope_hit(d, scopes.drop_last(), name)
        } else {
            h
        }
    }
}

/// The root element of the global singleton an identifier names in the
/// registry, if it names one.
pub open spec fn spec_global_root(d: Document, reg: TypeRegister, name: Seq<char>) -> Option<int> {
    match object_field_ty(pairs_vec_view(reg.entries), name) {
        TyM::Component(c) => if 0 <= c < d.components.len() && d.components[c].is_global
            && d.components[c].root_element < d.elements.len() {
            Some(d.components[c].root_element as int)
        } else {
            None
        },
        _ => None,
    }
}

/// The data type one repetition iterates over: the element type of the
/// model when the model is an array, unknown otherwise.
pub open spec fn spec_model_data_ty(d: Document, e: int) -> TyM {
    match d.elements[e].repeated {
        Some(rep) => match expr_ty(rep.model) {
            TyM::Array(t) => *t,
            _ => TyM::Invalid,
        },
        None => TyM::Invalid,
    }
}

/// None of the rules before the scope scan matched the identifier.
pub open spec fn no_early_match(d: Document, ctx: LookupCtx, name: Seq<char>) -> bool {
    &&& first_arg_index(ctx.arguments@, name) is None
    &&& name != "self"@ && name != "parent"@ && name != "true"@ && name != "false"@
    &&& crate::object_tree::scopes_find(d, ctx.component_scope@, name) is None
    &&& spec_global_root(d, ctx.type_register, name) is None
}

/// The easing-curve keywords.
pub open spec fn spec_easing_keyword(name: Seq<char>) -> bool {
    ||| name == "linear"@
    ||| name == "ease"@
    ||| name == "ease_in"@
    ||| name == "ease_in_out"@
    ||| name == "ease_out"@
    ||| name == "cubic_bezier"@
}

/// Whether a list of value names holds this name.
pub open spec fn values_contain(values: Seq<Seq<char>>, name: Seq<char>) -> bool {
    exists|i: int| 0 <= i < values.len() && values[i] == name
}

/// A keyword only consulted when the expected type asks for it: a named
/// color, an easing keyword, or an enumeration value.
pub open spec fn context_keyword_hit(ctx: LookupCtx, name: Seq<char>) -> bool {
    match ctx.property_type@ {
        TyM::Color => crate::css_colors::named_color_lookup(name) is Some,
        TyM::Easing => spec_easing_keyword(name),
        TyM::Enumeration(_, values) => values_contain(values, name),
        _ => false,
    }
}

/// The fixed table of builtin global functions and macros.
pub open spec fn spec_builtin_name(name: Seq<char>) -> bool {
    ||| name == "debug"@
    ||| name == "mod"@
    ||| name == "round"@
    ||| name == "ceil"@
    ||| name == "floor"@
    ||| name == "rgb"@
    ||| name == "max"@
    ||| name == "min"@
}


/// The first matching argument name, scanning front to back.
fn find_arg_index(args: &Vec<String>, name: &str) -> (r: Option<usize>)
    ensures
        match r {
            Some(i) => first_arg_index(args@, name@) == Some(i as int) && i < args@.len(),
            None => first_arg_index(args@, name@) is None,
        },
{
    proof {
        lemma_first_arg_index(args@, name@);
    }
    let n: usize = args.len();
    let mut i: usize = 0;
    while i < n
        invariant
            i <= n,
            n == args@.len(),
            forall|j: int| 0 <= j < i ==> (#[trigger] args@[j])@ != name@,
        decreases n - i,
    {
        if str_eq(args[i].as_str(), name) {
            proof {
                lemma_first_arg_index_at(args@, name@, i as int);
            }
            return Some(i);
        }
        i += 1;
    }
    None
}

proof fn lemma_first_arg_index(args: Seq<String>, name: Seq<char>)
    ensures
        match first_arg_index(args, name) {
            Some(i) => 0 <= i < args.len() && args[i]@ == name,
            None => forall|j: int| 0 <= j < args.len() ==> (#[trigger] args[j])@ != name,
        },
    decreases args.len(),
{
    if args.len() > 0 && args[0]@ != name {
        lemma_first_arg_index(args.drop_first(), name);
        match first_arg_index(args.drop_first(), name) {
            Some(i) => {
                assert(args.drop_first()[i] == args[i + 1]);
            },
            None => {
                assert forall|j: int| 0 <= j < args.len() implies (#[trigger] args[j])@ != name by {
                    if j > 0 {
                        assert(args.drop_first()[j - 1] == args[j]);
                    }
                }
            },
        }
    }
}

proof fn lemma_first_arg_index_at(args: Seq<String>, name: Seq<char>, i: int)
    requires
        0 <= i < args.len(),
        args[i]@ == name,
        forall|j: int| 0 <= j < i ==> (#[trigger] args[j])@ != name,
    ensures
        first_arg_index(args, name) == Some(i),
    decreases i,
{
    if i > 0 {
        assert(forall|j: int| 0 <= j < i - 1 ==> args.drop_first()[j] == args[j + 1]);
        assert(args.drop_first()[i - 1] == args[i]);
        lemma_first_arg_index_at(args.drop_first(), name, i - 1);
    }
}

impl Expression {
    /// Resolve a dotted qualified name, in strict priority order:
    /// callback arguments, the keywords `self`/`parent`/`true`/`false`,
    /// element ids and global singletons, then the scope stack innermost
    /// first (repeater index, repeater model, property, callback), then
    /// keywords the expected type asks for, then the builtin functions
    /// and macros; an unknown name is diagnosed, with a hint when a dash
    /// was probably meant as a subtraction.
    #[verifier::loop_isolation(false)]
    pub fn from_qualified_name_node(
        parts: &Vec<String>,
        span: Span,
        d: &Document,
        ctx: &mut LookupCtx,
    ) -> (r: Expression)
        requires
            doc_wf(*d),
            scopes_ok(*d, old(ctx).component_scope@),
        ensures
            ctx_advances(*final(ctx), *old(ctx)),
            !(r is Uncompiled),
            r is Invalid ==> final(ctx).diag@.len() > old(ctx).diag@.len(),
            parts@.len() == 0 ==> r is Invalid,
            parts@.len() >= 1 ==> {
                let name = normalized(parts@[0]@);
                &&& (first_arg_index(old(ctx).arguments@, name) matches Some(idx) ==> {
                    match param_ty_at(old(ctx).property_type@, idx) {
                        Some(t) => parts@.len() == 1 ==> (r matches
                            Expression::FunctionParameterReference { index, ty } && index == idx
                            && ty@ == t && final(ctx).diag@ == old(ctx).diag@),
                        None => r is Invalid,
                    }
                })
                &&& (first_arg_index(old(ctx).arguments@, name) is None && name == "true"@ ==> r
                    == Expression::BoolLiteral(true))
                &&& (first_arg_index(old(ctx).arguments@, name) is None && name == "false"@ ==> r
                    == Expression::BoolLiteral(false))
                &&& (no_early_match(*d, *old(ctx), name) ==> {
                    match scope_hit(*d, old(ctx).component_scope@, name) {
                        ScopeHit::RepIndex(e) => r matches Expression::RepeaterIndexReference {
                            element,
                        } && element == e,
                        ScopeHit::RepModel(e) => parts@.len() == 1 ==> (r matches
                            Expression::RepeaterModelReference { element, ty } && element == e
                            && ty@ == spec_model_data_ty(*d, e)),
                        ScopeHit::PropertyHit(e) => parts@.len() == 1 ==> (r matches
                            Expression::PropertyReference { nr, ty } && nr.element == e
                            && nr.name@ == name && ty@ == spec_lookup_property(*d, e, name)
                            && final(ctx).diag@ == old(ctx).diag@),
                        ScopeHit::CallbackHit(e) => parts@.len() == 1 ==> (r matches
                            Expression::CallbackReference { nr, ty } && nr.element == e && nr.name@
                            == name && ty@ == spec_lookup_property(*d, e, name)),
                        ScopeHit::NoHit => {
                            &&& (parts@.len() > 1 ==> r is Invalid
                                && final(ctx).diag@.len() > old(ctx).diag@.len())
                            &&& (parts@.len() == 1 && old(ctx).property_type@ == TyM::Color ==> {
                                match crate::css_colors::named_color_lookup(name) {
                                    Some(c) => r matches Expression::Cast { from, to } && *from
                                        == Expression::NumberLiteral(
                                        NumberValue {
                                            mantissa: crate::css_colors::spec_named_color_value(
                                                c,
                                            ) as u64,
                                            scale: 0,
                                        },
                                        Unit::Plain,
                                    ) && to@ == TyM::Color,
                                    None => true,
                                }
                            })
                            &&& (parts@.len() == 1 && old(ctx).property_type@ == TyM::Easing
                                ==> {
                                &&& (name == "linear"@ ==> r == Expression::EasingCurve(
                                    crate::expression_tree::EasingCurve::Linear,
                                ) && final(ctx).diag@ == old(ctx).diag@)
                                &&& (name == "ease"@ ==> r == spec_fixed_curve(
                                    25, 2, 1, 1, 25, 2, 1, 0,
                                ) && final(ctx).diag@ == old(ctx).diag@)
                                &&& (name == "ease_in"@ ==> r == spec_fixed_curve(
                                    42, 2, 0, 0, 1, 0, 1, 0,
                                ) && final(ctx).diag@ == old(ctx).diag@)
                                &&& (name == "ease_in_out"@ ==> r == spec_fixed_curve(
                                    42, 2, 0, 0, 58, 2, 1, 0,
                                ) && final(ctx).diag@ == old(ctx).diag@)
                                &&& (name == "ease_out"@ ==> r == spec_fixed_curve(
                                    0, 0, 0, 0, 58, 2, 1, 0,
                                ) && final(ctx).diag@ == old(ctx).diag@)
                                &&& (name == "cubic_bezier"@ ==> r
                                    == Expression::BuiltinMacroReference(
                                    crate::expression_tree::BuiltinMacroFunction::CubicBezier,
                                    span,
                                ) && final(ctx).diag@ == old(ctx).diag@)
                            })
                            &&& (parts@.len() == 1 ==> (old(ctx).property_type@ matches
                                TyM::Enumeration(en_name, values) ==> (values_contain(
                                values,
                                name,
                            ) ==> ((r matches Expression::EnumerationValue {
                                enumeration,
                                value_index,
                            } && enumeration.name@ == en_name && crate::langtype::strs_view(
                                enumeration.values@,
                            ) == values && value_index < values.len() && values[
                                value_index as int
                            ] == name) && final(ctx).diag@ == old(ctx).diag@))))
                            &&& (parts@.len() == 1 && !context_keyword_hit(*old(ctx), name) ==> {
                                &&& (name == "debug"@ ==> r
                                    == Expression::BuiltinFunctionReference(
                                    crate::expression_tree::BuiltinFunction::Debug,
                                ))
                                &&& (name == "mod"@ ==> r == Expression::BuiltinFunctionReference(
                                    crate::expression_tree::BuiltinFunction::Mod,
                                ))
                                &&& (name == "round"@ ==> r
                                    == Expression::BuiltinFunctionReference(
                                    crate::expression_tree::BuiltinFunction::Round,
                                ))
                                &&& (name == "ceil"@ ==> r == Expression::BuiltinFunctionReference(
                                    crate::expression_tree::BuiltinFunction::Ceil,
                                ))
                                &&& (name == "floor"@ ==> r
                                    == Expression::BuiltinFunctionReference(
                                    crate::expression_tree::BuiltinFunction::Floor,
                                ))
                                &&& (name == "rgb"@ ==> r == Expression::BuiltinFunctionReference(
                                    crate::expression_tree::BuiltinFunction::Rgb,
                                ))
                                &&& (name == "min"@ ==> r == Expression::BuiltinMacroReference(
                                    crate::expression_tree::BuiltinMacroFunction::Min,
                                    span,
                                ))
                                &&& (name == "max"@ ==> r == Expression::BuiltinMacroReference(
                                    crate::expression_tree::BuiltinMacroFunction::Max,
                                    span,
                                ))
                                &&& (!spec_builtin_name(name) ==> r is Invalid
                                    && final(ctx).diag@.len() > old(ctx).diag@.len())
                            })
                        },
                    }
                })
            },
    {
        proof {
            lemma_extends_refl(ctx.diag@);
            reveal_keyword_literals();
        }
        if parts.len() == 0 {
            report(ctx, String::from_str("Missing identifier"), span);
            return Expression::Invalid;
        }
        let first_str = normalize_identifier(parts[0].as_str());

        // Function and callback arguments have the highest priority.
        match find_arg_index(&ctx.arguments, first_str.as_str()) {
            Option::Some(idx) => {
                let param_ty: Option<Ty> = match &ctx.property_type {
                    Ty::Callback { args } => {
                        proof {
                            crate::langtype::lemma_tys_seq_view(args@);
                            assert(crate::langtype::tys_vec_view(*args) == crate::langtype::tys_seq_view(args@));
                        }
                        if idx < args.len() {
                            Option::Some(clone_ty(&args[idx]))
                        } else {
                            Option::None
                        }
                    },
                    Ty::Function { args, .. } => {
                        proof {
                            crate::langtype::lemma_tys_seq_view(args@);
                            assert(crate::langtype::tys_vec_view(*args) == crate::langtype::tys_seq_view(args@));
                        }
                        if idx < args.len() {
                            Option::Some(clone_ty(&args[idx]))
                        } else {
                            Option::None
                        }
                    },
                    _ => Option::None,
                };
                match param_ty {
                    Option::Some(ty) => {
                        proof {
                            assert(ctx.property_type == old(ctx).property_type);
                            assert(ctx.property_type@ matches TyM::Callback { .. }
                                || ctx.property_type@ matches TyM::Function { .. });
                            assert(param_ty_at(old(ctx).property_type@, idx as int) == Some(ty@));
                        }
                        let e = Expression::FunctionParameterReference { index: idx, ty };
                        let ghost mid = ctx.diag@;
                        let out = maybe_lookup_object(e, parts, 1, d, ctx);
                        proof {
                            lemma_extends_trans(ctx.diag@, mid, old(ctx).diag@);
                        }
                        return out;
                    },
                    Option::None => {
                        proof {
                            assert(param_ty_at(old(ctx).property_type@, idx as int) is None);
                        }
                        // The enclosing property's type offers no
                        // parameter here: an argument name outside a
                        // callback is unresolvable.
                        report(
                            ctx,
                            String::from_str(
                                "Arguments can only be used inside callbacks or functions",
                            ),
                            span,
                        );
                        return Expression::Invalid;
                    },
                }
            },
            Option::None => {},
        }

        // Keywords.
        if str_eq(first_str.as_str(), "true") {
            return Expression::BoolLiteral(true);
        }
        if str_eq(first_str.as_str(), "false") {
            return Expression::BoolLiteral(false);
        }
        let mut elem_opt: Option<usize> = Option::None;
        if str_eq(first_str.as_str(), "self") {
            if ctx.component_scope.len() > 0 {
                elem_opt = Option::Some(ctx.component_scope[ctx.component_scope.len() - 1]);
            }
        } else if str_eq(first_str.as_str(), "parent") {
            if ctx.component_scope.len() > 0 {
                let innermost = ctx.component_scope[ctx.component_scope.len() - 1];
                elem_opt = find_parent_element(d, innermost);
                proof {
                    match spec_find_parent(*d, innermost as int) {
                        Option::Some(q) => {
                            lemma_parent_is_earlier(*d, innermost as int, q);
                        },
                        Option::None => {},
                    }
                }
            }
        } else {
            // An element id, or a global singleton from the registry.
            elem_opt = crate::object_tree::find_element_by_id(
                d,
                &ctx.component_scope,
                first_str.as_str(),
            );
            let id_missing = match &elem_opt {
                Option::None => true,
                Option::Some(_) => false,
            };
            if id_missing {
                let g = ctx.type_register.lookup(first_str.as_str());
                match g {
                    Ty::Component(c) => {
                        if c < d.components.len() {
                            if d.components[c].is_global {
                                let root = d.components[c].root_element;
                                if root < d.elements.len() {
                                    elem_opt = Option::Some(root);
                                }
                            }
                        }
                    },
                    _ => {},
                }
            }
        }
        match elem_opt {
            Option::Some(elem) => {
                let ghost mid = ctx.diag@;
                let out = continue_lookup_within_element(elem, parts, 1, span, d, ctx);
                proof {
                    lemma_extends_trans(ctx.diag@, mid, old(ctx).diag@);
                }
                return out;
            },
            Option::None => {},
        }

        // The scope stack, innermost first: repeater bindings, then
        // properties and callbacks.
        let ghost full_scopes = ctx.component_scope@;
        proof {
            assert(full_scopes.subrange(0, full_scopes.len() as int) =~= full_scopes);
        }
        let nscopes: usize = ctx.component_scope.len();
        let mut k: usize = nscopes;
        while k > 0
            invariant
                k <= nscopes,
                scope_hit(*d, full_scopes, first_str@) == scope_hit(
                    *d,
                    full_scopes.subrange(0, k as int),
                    first_str@,
                ),
                ctx.diag@ == old(ctx).diag@,
                ctx_frame(*ctx, *old(ctx)),
            decreases k,
        {
            k -= 1;
            let elem = ctx.component_scope[k];
            proof {
                assert(full_scopes.subrange(0, k + 1 as int).last() == full_scopes[k as int]);
                assert(full_scopes.subrange(0, k + 1 as int).drop_last() =~= full_scopes.subrange(
                    0,
                    k as int,
                ));
            }
            let mut model_hit = false;
            match &d.elements[elem].repeated {
                Option::Some(rep) => {
                    if str_eq(rep.index_id.as_str(), first_str.as_str()) {
                        return Expression::RepeaterIndexReference { element: elem };
                    }
                    if str_eq(rep.model_data_id.as_str(), first_str.as_str()) {
                        model_hit = true;
                    }
                },
                Option::None => {},
            }
            if model_hit {
                let model_t = match &d.elements[elem].repeated {
                    Option::Some(rep) => rep.model.ty(),
                    Option::None => Ty::Invalid,
                };
                let data_ty = match model_t {
                    Ty::Array(inner) => *inner,
                    _ => Ty::Invalid,
                };
                let base = Expression::RepeaterModelReference { element: elem, ty: data_ty };
                let ghost mid = ctx.diag@;
                let out = maybe_lookup_object(base, parts, 1, d, ctx);
                proof {
                    lemma_extends_trans(ctx.diag@, mid, old(ctx).diag@);
                }
                return out;
            }
            let p = lookup_property(d, elem, first_str.as_str());
            if crate::langtype::is_property_type(&p) {
                let prop = Expression::PropertyReference {
                    nr: NamedReference { element: elem, name: first_str.clone() },
                    ty: p,
                };
                let ghost mid = ctx.diag@;
                let out = maybe_lookup_object(prop, parts, 1, d, ctx);
                proof {
                    lemma_extends_trans(ctx.diag@, mid, old(ctx).diag@);
                }
                return out;
            }
            let is_callback = match &p {
                Ty::Callback { .. } => true,
                _ => false,
            };
            if is_callback {
                if parts.len() > 1 {
                    report(ctx, String::from_str("Cannot access fields of callback"), span);
                }
                return Expression::CallbackReference {
                    nr: NamedReference { element: elem, name: first_str.clone() },
                    ty: p,
                };
            }
        }
        proof {
            assert(full_scopes.subrange(0, 0) =~= Seq::<usize>::empty());
        }

        if parts.len() > 1 {
            let mut message = String::from_str("Cannot access id '");
            message.append(first_str.as_str());
            message.append("'");
            report(ctx, message, span);
            return Expression::Invalid;
        }

        // Keywords the expected type asks for.
        match &ctx.property_type {
            Ty::Color => {
                match crate::css_colors::named_color_value(first_str.as_str()) {
                    Option::Some(value) => {
                        return Expression::Cast {
                            from: Box::new(
                                Expression::NumberLiteral(
                                    NumberValue { mantissa: value as u64, scale: 0 },
                                    Unit::Plain,
                                ),
                            ),
                            to: Ty::Color,
                        };
                    },
                    Option::None => {},
                }
            },
            Ty::Easing => {
                match easing_keyword(first_str.as_str(), span) {
                    Option::Some(e) => {
                        return e;
                    },
                    Option::None => {},
                }
            },
            Ty::Enumeration(en) => {
                let count: usize = en.values.len();
                let mut vi: usize = 0;
                while vi < count
                    invariant
                        vi <= count,
                        count == en.values@.len(),
                        forall|j: int|
                            0 <= j < vi ==> crate::langtype::strs_view(en.values@)[j]
                                != first_str@,
                    decreases count - vi,
                {
                    proof {
                        assert(crate::langtype::strs_view(en.values@)[vi as int]
                            == en.values@[vi as int]@);
                    }
                    if str_eq(en.values[vi].as_str(), first_str.as_str()) {
                        proof {
                            let values = crate::langtype::strs_view(en.values@);
                            assert(values[vi as int] == first_str@);
                            assert((vi as int) < values.len());
                            assert(values_contain(values, first_str@));
                            assert(old(ctx).property_type@ == TyM::Enumeration(en.name@, values));
                            assert(context_keyword_hit(*old(ctx), first_str@));
                        }
                        return Expression::EnumerationValue {
                            enumeration: Box::new(
                                crate::langtype::Enumeration {
                                    name: en.name.clone(),
                                    values: crate::langtype::clone_strings(&en.values),
                                },
                            ),
                            value_index: vi,
                        };
                    }
                    vi += 1;
                }
            },
            _ => {},
        }

        // The builtin functions and macros.
        if str_eq(first_str.as_str(), "debug") {
            return Expression::BuiltinFunctionReference(
                crate::expression_tree::BuiltinFunction::Debug,
            );
        }
        if str_eq(first_str.as_str(), "mod") {
            return Expression::BuiltinFunctionReference(
                crate::expression_tree::BuiltinFunction::Mod,
            );
        }
        if str_eq(first_str.as_str(), "round") {
            return Expression::BuiltinFunctionReference(
                crate::expression_tree::BuiltinFunction::Round,
            );
        }
        if str_eq(first_str.as_str(), "ceil") {
            return Expression::BuiltinFunctionReference(
                crate::expression_tree::BuiltinFunction::Ceil,
            );
        }
        if str_eq(first_str.as_str(), "floor") {
            return Expression::BuiltinFunctionReference(
                crate::expression_tree::BuiltinFunction::Floor,
            );
        }
        if str_eq(first_str.as_str(), "rgb") {
            return Expression::BuiltinFunctionReference(
                crate::expression_tree::BuiltinFunction::Rgb,
            );
        }
        if str_eq(first_str.as_str(), "max") {
            return Expression::BuiltinMacroReference(
                crate::expression_tree::BuiltinMacroFunction::Max,
                span,
            );
        }
        if str_eq(first_str.as_str(), "min") {
            return Expression::BuiltinMacroReference(
                crate::expression_tree::BuiltinMacroFunction::Min,
                span,
            );
        }

        // Nothing matched.  If the raw token holds a dash whose prefix
        // would have resolved in some scope, the user probably meant a
        // subtraction.
        let mut suggest_minus = false;
        match crate::ident::first_dash(parts[0].as_str()) {
            Option::Some(pos) => {
                proof {
                    crate::ident::lemma_first_dash_props(parts@[0]@);
                }
                let prefix = crate::ident::prefix_owned(parts[0].as_str(), pos);
                let n2: usize = ctx.component_scope.len();
                let mut k2: usize = n2;
                while k2 > 0
                    invariant
                        k2 <= n2,
                        ctx.diag@ == old(ctx).diag@,
                        ctx_frame(*ctx, *old(ctx)),
                        prefix@ == parts@[0]@.subrange(0, pos as int),
                    decreases k2,
                {
                    k2 -= 1;
                    let elem = ctx.component_scope[k2];
                    match &d.elements[elem].repeated {
                        Option::Some(rep) => {
                            if str_eq(rep.index_id.as_str(), prefix.as_str()) || str_eq(
                                rep.model_data_id.as_str(),
                                prefix.as_str(),
                            ) {
                                suggest_minus = true;
                            }
                        },
                        Option::None => {},
                    }
                    let p = lookup_property(d, elem, prefix.as_str());
                    if crate::langtype::is_property_type(&p) {
                        suggest_minus = true;
                    }
                }
            },
            Option::None => {},
        }
        let mut message = String::from_str("Unknown unqualified identifier '");
        message.append(parts[0].as_str());
        message.append("'");
        if suggest_minus {
            message.append(". Use space before the '-' if you meant a subtraction");
        }
        report(ctx, message, span);
        Expression::Invalid
    }
}

/// A fixed cubic Bezier easing curve from four exact decimals, each a
/// mantissa with its scale.
pub open spec fn spec_fixed_curve(
    m1: u64,
    s1: usize,
    m2: u64,
    s2: usize,
    m3: u64,
    s3: usize,
    m4: u64,
    s4: usize,
) -> Expression {
    Expression::EasingCurve(
        crate::expression_tree::EasingCurve::CubicBezier(
            NumberValue { mantissa: m1, scale: s1 },
            NumberValue { mantissa: m2, scale: s2 },
            NumberValue { mantissa: m3, scale: s3 },
            NumberValue { mantissa: m4, scale: s4 },
        ),
    )
}

/// The easing keywords, each a fixed cubic Bezier curve; `cubic_bezier`
/// itself is a macro awaiting its four arguments.
fn easing_keyword(name: &str, span: Span) -> (r: Option<Expression>)
    ensures
        spec_easing_keyword(name@) == (r is Some),
        r matches Some(e) ==> (e is EasingCurve || e is BuiltinMacroReference),
        name@ == "linear"@ ==> r == Some(
            Expression::EasingCurve(crate::expression_tree::EasingCurve::Linear),
        ),
        name@ == "ease"@ ==> r == Some(spec_fixed_curve(25, 2, 1, 1, 25, 2, 1, 0)),
        name@ == "ease_in"@ ==> r == Some(spec_fixed_curve(42, 2, 0, 0, 1, 0, 1, 0)),
        name@ == "ease_in_out"@ ==> r == Some(spec_fixed_curve(42, 2, 0, 0, 58, 2, 1, 0)),
        name@ == "ease_out"@ ==> r == Some(spec_fixed_curve(0, 0, 0, 0, 58, 2, 1, 0)),
        name@ == "cubic_bezier"@ ==> r == Some(
            Expression::BuiltinMacroReference(
                crate::expression_tree::BuiltinMacroFunction::CubicBezier,
                span,
            ),
        ),
{
    proof {
        reveal_keyword_literals();
    }
    if str_eq(name, "linear") {
        Some(Expression::EasingCurve(crate::expression_tree::EasingCurve::Linear))
    } else if str_eq(name, "ease") {
        Some(
            Expression::EasingCurve(
                crate::expression_tree::EasingCurve::CubicBezier(
                    NumberValue { mantissa: 25, scale: 2 },
                    NumberValue { mantissa: 1, scale: 1 },
                    NumberValue { mantissa: 25, scale: 2 },
                    NumberValue { mantissa: 1, scale: 0 },
                ),
            ),
        )
    } else if str_eq(name, "ease_in") {
        Some(
            Expression::EasingCurve(
                crate::expression_tree::EasingCurve::CubicBezier(
                    NumberValue { mantissa: 42, scale: 2 },
                    NumberValue { mantissa: 0, scale: 0 },
                    NumberValue { mantissa: 1, scale: 0 },
                    NumberValue { mantissa: 1, scale: 0 },
                ),
            ),
        )
    } else if str_eq(name, "ease_in_out") {
        Some(
            Expression::EasingCurve(
                crate::expression_tree::EasingCurve::CubicBezier(
                    NumberValue { mantissa: 42, scale: 2 },
                    NumberValue { mantissa: 0, scale: 0 },
                    NumberValue { mantissa: 58, scale: 2 },
                    NumberValue { mantissa: 1, scale: 0 },
                ),
            ),
        )
    } else if str_eq(name, "ease_out") {
        Some(
            Expression::EasingCurve(
                crate::expression_tree::EasingCurve::CubicBezier(
                    NumberValue { mantissa: 0, scale: 0 },
                    NumberValue { mantissa: 0, scale: 0 },
                    NumberValue { mantissa: 58, scale: 2 },
                    NumberValue { mantissa: 1, scale: 0 },
                ),
            ),
        )
    } else if str_eq(name, "cubic_bezier") {
        Some(
            Expression::BuiltinMacroReference(
                crate::expression_tree::BuiltinMacroFunction::CubicBezier,
                span,
            ),
        )
    } else {
        None
    }
}


/// The concrete character sequences of the fixed keyword and builtin
/// names, so that distinct names are known to differ.
pub proof fn reveal_keyword_literals()
    ensures
        "true"@ == seq!['t', 'r', 'u', 'e'],
        "true"@.len() == 4,
        "false"@ == seq!['f', 'a', 'l', 's', 'e'],
        "false"@.len() == 5,
        "self"@ == seq!['s', 'e', 'l', 'f'],
        "self"@.len() == 4,
        "parent"@ == seq!['p', 'a', 'r', 'e', 'n', 't'],
        "parent"@.len() == 6,
        "width"@ == seq!['w', 'i', 'd', 't', 'h'],
        "width"@.len() == 5,
        "height"@ == seq!['h', 'e', 'i', 'g', 'h', 't'],
        "height"@.len() == 6,
        "linear"@ == seq!['l', 'i', 'n', 'e', 'a', 'r'],
        "linear"@.len() == 6,
        "ease"@ == seq!['e', 'a', 's', 'e'],
        "ease"@.len() == 4,
        "ease_in"@ == seq!['e', 'a', 's', 'e', '_', 'i', 'n'],
        "ease_in"@.len() == 7,
        "ease_in_out"@ == seq!['e', 'a', 's', 'e', '_', 'i', 'n', '_', 'o', 'u', 't'],
        "ease_in_out"@.len() == 11,
        "ease_out"@ == seq!['e', 'a', 's', 'e', '_', 'o', 'u', 't'],
        "ease_out"@.len() == 8,
        "cubic_bezier"@ == seq!['c', 'u', 'b', 'i', 'c', '_', 'b', 'e', 'z', 'i', 'e', 'r'],
        "cubic_bezier"@.len() == 12,
        "debug"@ == seq!['d', 'e', 'b', 'u', 'g'],
        "debug"@.len() == 5,
        "mod"@ == seq!['m', 'o', 'd'],
        "mod"@.len() == 3,
        "round"@ == seq!['r', 'o', 'u', 'n', 'd'],
        "round"@.len() == 5,
        "ceil"@ == seq!['c', 'e', 'i', 'l'],
        "ceil"@.len() == 4,
        "floor"@ == seq!['f', 'l', 'o', 'o', 'r'],
        "floor"@.len() == 5,
        "rgb"@ == seq!['r', 'g', 'b'],
        "rgb"@.len() == 3,
        "max"@ == seq!['m', 'a', 'x'],
        "max"@.len() == 3,
        "min"@ == seq!['m', 'i', 'n'],
        "min"@.len() == 3,
        "is_float"@ == seq!['i', 's', '_', 'f', 'l', 'o', 'a', 't'],
        "is_float"@.len() == 8,
        "to_float"@ == seq!['t', 'o', '_', 'f', 'l', 'o', 'a', 't'],
        "to_float"@.len() == 8,
{
    reveal_strlit("true");
    reveal_strlit("false");
    reveal_strlit("self");
    reveal_strlit("parent");
    reveal_strlit("width");
    reveal_strlit("height");
    reveal_strlit("linear");
    reveal_strlit("ease");
    reveal_strlit("ease_in");
    reveal_strlit("ease_in_out");
    reveal_strlit("ease_out");
    reveal_strlit("cubic_bezier");
    reveal_strlit("debug");
    reveal_strlit("mod");
    reveal_strlit("round");
    reveal_strlit("ceil");
    reveal_strlit("floor");
    reveal_strlit("rgb");
    reveal_strlit("max");
    reveal_strlit("min");
    reveal_strlit("is_float");
    reveal_strlit("to_float");
}


impl Expression {
    /// Resolve one statement list into a code block expression.
    #[verifier::loop_isolation(false)]
    pub fn from_codeblock_node(
        statements: &Vec<crate::syntax::SyntaxExpr>,
        d: &Document,
        ctx: &mut LookupCtx,
    ) -> (r: Expression)
        requires
            doc_wf(*d),
            scopes_ok(*d, old(ctx).component_scope@),
        ensures
            ctx_advances(*final(ctx), *old(ctx)),
            r matches Expression::CodeBlock(stmts) && stmts@.len() == statements@.len(),
        decreases statements, 0int,
    {
        proof {
            lemma_extends_refl(ctx.diag@);
        }
        let mut resolved: Vec<Expression> = Vec::new();
        let n: usize = statements.len();
        let mut i: usize = 0;
        while i < n
            invariant
                i <= n,
                resolved@.len() == i,
                ctx_frame(*ctx, *old(ctx)),
                extends(ctx.diag@, old(ctx).diag@),
            decreases n - i,
        {
            let ghost mid = ctx.diag@;
            let e = Expression::from_expression_node(&statements[i], d, ctx);
            proof {
                lemma_extends_trans(ctx.diag@, mid, old(ctx).diag@);
            }
            resolved.push(e);
            i += 1;
        }
        Expression::CodeBlock(resolved)
    }

    /// Resolve the body of a callback connection; the declared argument
    /// names come into scope for the body.
    pub fn from_callback_connection(
        arguments: &Vec<String>,
        statements: &Vec<crate::syntax::SyntaxExpr>,
        d: &Document,
        ctx: &mut LookupCtx,
    ) -> (r: Expression)
        requires
            doc_wf(*d),
            scopes_ok(*d, old(ctx).component_scope@),
        ensures
            extends(final(ctx).diag@, old(ctx).diag@),
            final(ctx).property_name == old(ctx).property_name,
            final(ctx).property_type == old(ctx).property_type,
            final(ctx).component_scope == old(ctx).component_scope,
            final(ctx).type_register == old(ctx).type_register,
            final(ctx).arguments@.len() == arguments@.len(),
            forall|i: int|
                0 <= i < arguments@.len() ==> (#[trigger] final(ctx).arguments@[i])@ == normalized(
                    arguments@[i]@,
                ),
            r matches Expression::CodeBlock(stmts) && stmts@.len() == statements@.len(),
    {
        let mut normalized_args: Vec<String> = Vec::new();
        let n: usize = arguments.len();
        let mut i: usize = 0;
        while i < n
            invariant
                i <= n,
                n == arguments@.len(),
                normalized_args@.len() == i,
                forall|j: int|
                    0 <= j < i ==> (#[trigger] normalized_args@[j])@ == normalized(
                        arguments@[j]@,
                    ),
            decreases n - i,
        {
            normalized_args.push(normalize_identifier(arguments[i].as_str()));
            i += 1;
        }
        ctx.arguments = normalized_args;
        let ghost mid = ctx.diag@;
        let out = Expression::from_codeblock_node(statements, d, ctx);
        proof {
            lemma_extends_refl(old(ctx).diag@);
            lemma_extends_trans(ctx.diag@, mid, old(ctx).diag@);
        }
        out
    }

    /// Resolve a `keyword!argument` expression.  Only `img!` exists: it
    /// takes a string literal path and becomes a resource reference;
    /// making a relative path absolute is the embedder's concern.
    #[verifier::loop_isolation(false)]
    pub fn from_bang_expression_node(
        node: &crate::syntax::SyntaxExpr,
        d: &Document,
        ctx: &mut LookupCtx,
    ) -> (r: Expression)
        requires
            doc_wf(*d),
            scopes_ok(*d, old(ctx).component_scope@),
        ensures
            ctx_advances(*final(ctx), *old(ctx)),
            !(r is Uncompiled),
            r is Invalid ==> final(ctx).diag@.len() > old(ctx).diag@.len(),
            node matches crate::syntax::SyntaxExpr::BangExpression { keyword, argument, .. }
                ==> match keyword {
                Option::None => r is Invalid && final(ctx).diag@.len() == old(ctx).diag@.len()
                    + 1,
                Option::Some(k) => if k@ != "img"@ {
                    r is Invalid && final(ctx).diag@.len() == old(ctx).diag@.len() + 1
                } else {
                    match argument {
                        Option::None => r is Invalid && final(ctx).diag@.len() == old(ctx).diag@.len() + 1,
                        Option::Some(a) => {
                            let inner = **a;
                            inner matches crate::syntax::SyntaxExpr::StringLiteral {
                                text,
                                ..
                            } ==> ((text@.len() >= 2 && text@[0] == '"' && text@.last() == '"')
                                ==> (r matches Expression::ResourceReference {
                                absolute_source_path,
                            } && absolute_source_path@ == text@.subrange(1, text@.len() - 1)
                                && final(ctx).diag@ == old(ctx).diag@))
                        },
                    }
                },
            },
        decreases node, 0int,
    {
        proof {
            lemma_extends_refl(ctx.diag@);
            reveal_strlit("img");
        }
        match node {
            crate::syntax::SyntaxExpr::BangExpression { keyword, argument, span } => {
                let kw: &String = match keyword {
                    Option::Some(k) => k,
                    Option::None => {
                        report(ctx, String::from_str("Missing bang keyword"), *span);
                        return Expression::Invalid;
                    },
                };
                if !str_eq(kw.as_str(), "img") {
                    let mut message = String::from_str("Unknown bang keyword `");
                    message.append(kw.as_str());
                    message.append("`");
                    report(ctx, message, *span);
                    return Expression::Invalid;
                }
                let inner = match argument {
                    Option::Some(s) => {
                        let ghost mid = ctx.diag@;
                        let e = Expression::from_expression_node(s, d, ctx);
                        proof {
                            lemma_extends_trans(ctx.diag@, mid, old(ctx).diag@);
                        }
                        e
                    },
                    Option::None => Expression::Invalid,
                };
                match inner {
                    Expression::StringLiteral(path) => Expression::ResourceReference {
                        absolute_source_path: path,
                    },
                    _ => {
                        let ghost mid = ctx.diag@;
                        report(
                            ctx,
                            String::from_str("img! Must be followed by a valid path"),
                            *span,
                        );
                        proof {
                            lemma_extends_trans(ctx.diag@, mid, old(ctx).diag@);
                        }
                        Expression::Invalid
                    },
                }
            },
            _ => {
                report(
                    ctx,
                    String::from_str("Missing bang keyword"),
                    Span { start: 0, end: 0 },
                );
                Expression::Invalid
            },
        }
    }

    /// Resolve a unary operator expression.
    #[verifier::loop_isolation(false)]
    pub fn from_unaryop_expression_node(
        node: &crate::syntax::SyntaxExpr,
        d: &Document,
        ctx: &mut LookupCtx,
    ) -> (r: Expression)
        requires
            doc_wf(*d),
            scopes_ok(*d, old(ctx).component_scope@),
        ensures
            ctx_advances(*final(ctx), *old(ctx)),
            node matches crate::syntax::SyntaxExpr::UnaryOp { op, .. } ==> (r matches
                Expression::UnaryOp { op: rop, .. } && rop == op),
            r is Invalid ==> final(ctx).diag@.len() > old(ctx).diag@.len(),
            !(r is Uncompiled),
        decreases node, 0int,
    {
        proof {
            lemma_extends_refl(ctx.diag@);
        }
        match node {
            crate::syntax::SyntaxExpr::UnaryOp { sub, op, span } => {
                let e = Expression::from_expression_node(sub, d, ctx);
                Expression::UnaryOp { sub: Box::new(e), op: *op }
            },
            _ => {
                report(
                    ctx,
                    String::from_str("Internal inconsistency: not a unary expression"),
                    Span { start: 0, end: 0 },
                );
                Expression::Invalid
            },
        }
    }

    /// Resolve a conditional: the condition becomes boolean, and both
    /// branches are cast to their common target type.
    #[verifier::loop_isolation(false)]
    pub fn from_conditional_expression_node(
        node: &crate::syntax::SyntaxExpr,
        d: &Document,
        ctx: &mut LookupCtx,
    ) -> (r: Expression)
        requires
            doc_wf(*d),
            scopes_ok(*d, old(ctx).component_scope@),
        ensures
            ctx_advances(*final(ctx), *old(ctx)),
            node matches crate::syntax::SyntaxExpr::Conditional { .. } ==> r is Condition,
            r is Invalid ==> final(ctx).diag@.len() > old(ctx).diag@.len(),
            r matches Expression::Condition { condition, .. } ==> (expr_ty(*condition)
                == TyM::Bool || expr_ty(*condition) == TyM::Invalid),
            r matches Expression::Condition { true_expr, false_expr, .. } ==> (expr_ty(*true_expr)
                == expr_ty(*false_expr) || expr_ty(*true_expr) == TyM::Invalid || expr_ty(
                *false_expr,
            ) == TyM::Invalid || crate::coercion::spec_common_target(
                expr_ty(*true_expr),
                expr_ty(*false_expr),
            ) == TyM::Invalid),
            !(r is Uncompiled),
        decreases node, 0int,
    {
        proof {
            lemma_extends_refl(ctx.diag@);
        }
        match node {
            crate::syntax::SyntaxExpr::Conditional { condition, true_expr, false_expr, span } => {
                let ghost mid0 = ctx.diag@;
                let c = Expression::from_expression_node(condition, d, ctx);
                let ghost mid1 = ctx.diag@;
                let c = c.maybe_convert_to(&Ty::Bool, *span, &mut ctx.diag);
                proof {
                    lemma_extends_trans(ctx.diag@, mid1, mid0);
                    lemma_extends_trans(ctx.diag@, mid0, old(ctx).diag@);
                }
                let te = Expression::from_expression_node(true_expr, d, ctx);
                let fe = Expression::from_expression_node(false_expr, d, ctx);
                let tt = te.ty();
                let ft = fe.ty();
                let ghost ttm = tt@;
                let ghost ftm = ft@;
                let mut tys: Vec<Ty> = Vec::new();
                tys.push(tt);
                tys.push(ft);
                let result_ty = Expression::common_target_type_for_type_list(&tys);
                proof {
                    crate::langtype::lemma_tys_seq_view(tys@);
                    assert(crate::langtype::tys_seq_view(tys@) =~= seq![ttm, ftm]);
                    let s2 = seq![ttm, ftm];
                    assert(s2.drop_last() =~= seq![ttm]);
                    assert(seq![ttm].drop_last() =~= Seq::<TyM>::empty());
                    assert(crate::coercion::spec_common_target_list(Seq::<TyM>::empty())
                        == TyM::Invalid);
                    assert(crate::coercion::spec_common_target_list(seq![ttm])
                        == crate::coercion::spec_common_target(TyM::Invalid, ttm));
                    assert(crate::coercion::spec_common_target(TyM::Invalid, ttm) == ttm);
                    assert(crate::coercion::spec_common_target_list(s2)
                        == crate::coercion::spec_common_target(ttm, ftm));
                    assert(result_ty@ == crate::coercion::spec_common_target(ttm, ftm));
                }
                let ghost mid2 = ctx.diag@;
                let te = te.maybe_convert_to(&result_ty, *span, &mut ctx.diag);
                let fe = fe.maybe_convert_to(&result_ty, *span, &mut ctx.diag);
                proof {
                    lemma_extends_trans(ctx.diag@, mid2, old(ctx).diag@);
                }
                Expression::Condition {
                    condition: Box::new(c),
                    true_expr: Box::new(te),
                    false_expr: Box::new(fe),
                }
            },
            _ => {
                report(
                    ctx,
                    String::from_str("Internal inconsistency: not a conditional expression"),
                    Span { start: 0, end: 0 },
                );
                Expression::Invalid
            },
        }
    }

    /// Resolve a self-assignment or assignment.  The left side must be
    /// a writable property; the right side is coerced to its type.
    #[verifier::loop_isolation(false)]
    pub fn from_self_assignement_node(
        node: &crate::syntax::SyntaxExpr,
        d: &Document,
        ctx: &mut LookupCtx,
    ) -> (r: Expression)
        requires
            doc_wf(*d),
            scopes_ok(*d, old(ctx).component_scope@),
        ensures
            ctx_advances(*final(ctx), *old(ctx)),
            node matches crate::syntax::SyntaxExpr::SelfAssignment { op, .. } ==> (r matches
                Expression::SelfAssignment { op: rop, .. } && rop == op),
            r is Invalid ==> final(ctx).diag@.len() > old(ctx).diag@.len(),
            r matches Expression::SelfAssignment { lhs, rhs, .. } ==> ((!spec_is_rw(*lhs)
                && expr_ty(*lhs) != TyM::Invalid ==> final(ctx).diag@.len() > old(ctx).diag@.len()) && (expr_ty(*lhs) != TyM::Invalid ==> expr_ty(*rhs) == expr_ty(*lhs)
                || expr_ty(*rhs) == TyM::Invalid)),
            !(r is Uncompiled),
        decreases node, 0int,
    {
        proof {
            lemma_extends_refl(ctx.diag@);
        }
        match node {
            crate::syntax::SyntaxExpr::SelfAssignment { lhs, rhs, op, span } => {
                let le = Expression::from_expression_node(lhs, d, ctx);
                let lt = le.ty();
                let lt_invalid = match &lt {
                    Ty::Invalid => true,
                    _ => false,
                };
                if !le.is_rw() && !lt_invalid {
                    let ghost mid = ctx.diag@;
                    let message = if *op == '=' {
                        String::from_str("Assignment need to be done on a property")
                    } else {
                        String::from_str("Self assignment need to be done on a property")
                    };
                    report(ctx, message, *span);
                    proof {
                        lemma_extends_trans(ctx.diag@, mid, old(ctx).diag@);
                    }
                }
                let re = Expression::from_expression_node(rhs, d, ctx);
                let ghost mid2 = ctx.diag@;
                let re = re.maybe_convert_to(&lt, *span, &mut ctx.diag);
                proof {
                    lemma_extends_trans(ctx.diag@, mid2, old(ctx).diag@);
                }
                Expression::SelfAssignment { lhs: Box::new(le), rhs: Box::new(re), op: *op }
            },
            _ => {
                report(
                    ctx,
                    String::from_str("Internal inconsistency: not an assignment"),
                    Span { start: 0, end: 0 },
                );
                Expression::Invalid
            },
        }
    }

    /// Resolve a binary expression.  Comparisons unify both sides to
    /// their common type, logical operators force booleans, arithmetic
    /// follows the unit table.
    #[verifier::loop_isolation(false)]
    pub fn from_binary_expression_node(
        node: &crate::syntax::SyntaxExpr,
        d: &Document,
        ctx: &mut LookupCtx,
    ) -> (r: Expression)
        requires
            doc_wf(*d),
            scopes_ok(*d, old(ctx).component_scope@),
        ensures
            ctx_advances(*final(ctx), *old(ctx)),
            node matches crate::syntax::SyntaxExpr::BinaryExpression { op, .. } ==> (r matches
                Expression::BinaryExpression { op: rop, .. } && rop == op),
            r is Invalid ==> final(ctx).diag@.len() > old(ctx).diag@.len(),
            node matches crate::syntax::SyntaxExpr::BinaryExpression { op, .. }
                && crate::expression_tree::spec_operator_class(*op)
                != crate::expression_tree::OperatorClass::ArithmeticOp ==> expr_ty(r) == TyM::Bool,
            node matches crate::syntax::SyntaxExpr::BinaryExpression { op, .. }
                && crate::expression_tree::spec_operator_class(*op)
                == crate::expression_tree::OperatorClass::LogicalOp ==> (r matches
                Expression::BinaryExpression { lhs, rhs, .. } && (expr_ty(*lhs) == TyM::Bool
                || expr_ty(*lhs) == TyM::Invalid) && (expr_ty(*rhs) == TyM::Bool || expr_ty(*rhs)
                == TyM::Invalid)),
            node matches crate::syntax::SyntaxExpr::BinaryExpression { op, .. }
                && crate::expression_tree::spec_operator_class(*op)
                == crate::expression_tree::OperatorClass::ComparisonOp ==> (r matches
                Expression::BinaryExpression { lhs, rhs, .. } && (expr_ty(*lhs) == expr_ty(*rhs)
                || expr_ty(*lhs) == TyM::Invalid || expr_ty(*rhs) == TyM::Invalid
                || crate::coercion::spec_common_target(expr_ty(*lhs), expr_ty(*rhs))
                == TyM::Invalid)),
            !(r is Uncompiled),
        decreases node, 0int,
    {
        proof {
            lemma_extends_refl(ctx.diag@);
        }
        match node {
            crate::syntax::SyntaxExpr::BinaryExpression { lhs, rhs, op, span } => {
                let le = Expression::from_expression_node(lhs, d, ctx);
                let re = Expression::from_expression_node(rhs, d, ctx);
                let lt = le.ty();
                let rt = re.ty();
                let ghost ltm = lt@;
                let ghost rtm = rt@;
                let expected: Ty = match crate::expression_tree::operator_class(*op) {
                    crate::expression_tree::OperatorClass::ComparisonOp => {
                        let mut tys: Vec<Ty> = Vec::new();
                        tys.push(lt);
                        tys.push(rt);
                        let ct = Expression::common_target_type_for_type_list(&tys);
                        proof {
                            crate::langtype::lemma_tys_seq_view(tys@);
                            assert(crate::langtype::tys_seq_view(tys@) =~= seq![ltm, rtm]);
                            let s2 = seq![ltm, rtm];
                            assert(s2.drop_last() =~= seq![ltm]);
                            assert(seq![ltm].drop_last() =~= Seq::<TyM>::empty());
                            assert(crate::coercion::spec_common_target_list(Seq::<TyM>::empty())
                                == TyM::Invalid);
                            assert(crate::coercion::spec_common_target_list(seq![ltm])
                                == crate::coercion::spec_common_target(TyM::Invalid, ltm));
                            assert(crate::coercion::spec_common_target(TyM::Invalid, ltm) == ltm);
                            assert(crate::coercion::spec_common_target_list(s2)
                                == crate::coercion::spec_common_target(ltm, rtm));
                            assert(ct@ == crate::coercion::spec_common_target(ltm, rtm));
                        }
                        ct
                    },
                    crate::expression_tree::OperatorClass::LogicalOp => Ty::Bool,
                    crate::expression_tree::OperatorClass::ArithmeticOp => {
                        let l_string = match &lt {
                            Ty::String => true,
                            _ => false,
                        };
                        let r_string = match &rt {
                            Ty::String => true,
                            _ => false,
                        };
                        let l_unit = crate::langtype::is_unit_type(&lt);
                        let r_unit = crate::langtype::is_unit_type(&rt);
                        if *op == '+' && (l_string || r_string) {
                            Ty::String
                        } else if l_unit && *op == '*' {
                            let ghost mid = ctx.diag@;
                            let re = re.maybe_convert_to(&Ty::Float32, *span, &mut ctx.diag);
                            proof {
                                lemma_extends_trans(ctx.diag@, mid, old(ctx).diag@);
                            }
                            return Expression::BinaryExpression {
                                lhs: Box::new(le),
                                rhs: Box::new(re),
                                op: *op,
                            };
                        } else if r_unit && *op == '*' {
                            let ghost mid = ctx.diag@;
                            let le = le.maybe_convert_to(&Ty::Float32, *span, &mut ctx.diag);
                            proof {
                                lemma_extends_trans(ctx.diag@, mid, old(ctx).diag@);
                            }
                            return Expression::BinaryExpression {
                                lhs: Box::new(le),
                                rhs: Box::new(re),
                                op: *op,
                            };
                        } else if l_unit && *op == '/' && crate::langtype::ty_eq(&rt, &lt) {
                            return Expression::BinaryExpression {
                                lhs: Box::new(le),
                                rhs: Box::new(re),
                                op: *op,
                            };
                        } else if l_unit && *op == '/' {
                            let ghost mid = ctx.diag@;
                            let re = re.maybe_convert_to(&Ty::Float32, *span, &mut ctx.diag);
                            proof {
                                lemma_extends_trans(ctx.diag@, mid, old(ctx).diag@);
                            }
                            return Expression::BinaryExpression {
                                lhs: Box::new(le),
                                rhs: Box::new(re),
                                op: *op,
                            };
                        } else if l_unit && (*op == '+' || *op == '-') {
                            clone_ty(&lt)
                        } else {
                            Ty::Float32
                        }
                    },
                };
                let ghost mid = ctx.diag@;
                let le = le.maybe_convert_to(&expected, *span, &mut ctx.diag);
                let re = re.maybe_convert_to(&expected, *span, &mut ctx.diag);
                proof {
                    lemma_extends_trans(ctx.diag@, mid, old(ctx).diag@);
                }
                Expression::BinaryExpression { lhs: Box::new(le), rhs: Box::new(re), op: *op }
            },
            _ => {
                report(
                    ctx,
                    String::from_str("Internal inconsistency: not a binary expression"),
                    Span { start: 0, end: 0 },
                );
                Expression::Invalid
            },
        }
    }

    /// Resolve an object literal: later duplicate fields overwrite
    /// earlier ones, and the object's type collects each field's type.
    #[verifier::loop_isolation(false)]
    pub fn from_object_literal_node(
        node: &crate::syntax::SyntaxExpr,
        d: &Document,
        ctx: &mut LookupCtx,
    ) -> (r: Expression)
        requires
            doc_wf(*d),
            scopes_ok(*d, old(ctx).component_scope@),
        ensures
            ctx_advances(*final(ctx), *old(ctx)),
            node matches crate::syntax::SyntaxExpr::ObjectLiteral { .. } ==> r is Object,
            r matches Expression::Object { values, .. } ==> (forall|a: int, b: int|
                0 <= a < b < values@.len() ==> (#[trigger] values@[a]).0@ != (
                #[trigger] values@[b]).0@),
            r matches Expression::Object { ty, values } ==> (ty@ matches TyM::Object {
                fields,
                name,
            } && name is None && fields.len() == values@.len() && (forall|j: int|
                0 <= j < values@.len() ==> #[trigger] fields[j] == (
                    values@[j].0@,
                    expr_ty(values@[j].1),
                ))),
            r is Invalid ==> final(ctx).diag@.len() > old(ctx).diag@.len(),
            !(r is Uncompiled),
        decreases node, 0int,
    {
        proof {
            lemma_extends_refl(ctx.diag@);
        }
        match node {
            crate::syntax::SyntaxExpr::ObjectLiteral { members, span } => {
                let mut values: Vec<(String, Expression)> = Vec::new();
                let n: usize = members.len();
                let mut i: usize = 0;
                while i < n
                    invariant
                        i <= n,
                        n == members@.len(),
                        ctx_frame(*ctx, *old(ctx)),
                        extends(ctx.diag@, old(ctx).diag@),
                        forall|a: int, b: int|
                            0 <= a < b < values@.len() ==> (#[trigger] values@[a]).0@ != (
                            #[trigger] values@[b]).0@,
                    decreases n - i,
                {
                    let name = members[i].0.clone();
                    let ghost mid = ctx.diag@;
                    let e = Expression::from_expression_node(&members[i].1, d, ctx);
                    proof {
                        lemma_extends_trans(ctx.diag@, mid, old(ctx).diag@);
                    }
                    let mut replaced = false;
                    let mut j: usize = 0;
                    let count: usize = values.len();
                    let mut e_opt = Option::Some(e);
                    while j < count
                        invariant
                            j <= count,
                            count == values@.len(),
                            replaced ==> e_opt is None,
                            !replaced ==> e_opt is Some,
                            !replaced ==> (forall|j2: int|
                                0 <= j2 < j ==> (#[trigger] values@[j2]).0@ != name@),
                            forall|a: int, b: int|
                                0 <= a < b < values@.len() ==> (#[trigger] values@[a]).0@ != (
                                #[trigger] values@[b]).0@,
                        decreases count - j,
                    {
                        if !replaced {
                            if str_eq(values[j].0.as_str(), name.as_str()) {
                                let taken = match e_opt {
                                    Option::Some(v) => v,
                                    Option::None => unreached(),
                                };
                                values[j] = (name.clone(), taken);
                                e_opt = Option::None;
                                replaced = true;
                            }
                        }
                        j += 1;
                    }
                    match e_opt {
                        Option::Some(v) => {
                            values.push((name, v));
                        },
                        Option::None => {},
                    }
                    i += 1;
                }
                let mut fields: Vec<(String, Ty)> = Vec::new();
                let count: usize = values.len();
                let mut j: usize = 0;
                while j < count
                    invariant
                        j <= count,
                        count == values@.len(),
                        fields@.len() == j,
                        forall|m: int|
                            0 <= m < j ==> crate::langtype::pair_view(#[trigger] fields@[m]) == (
                                values@[m].0@,
                                expr_ty(values@[m].1),
                            ),
                    decreases count - j,
                {
                    let fname = values[j].0.clone();
                    let fty = values[j].1.ty();
                    fields.push((fname, fty));
                    j += 1;
                }
                proof {
                    crate::langtype::lemma_pairs_seq_view(fields@);
                    assert(pairs_vec_view(fields) == crate::langtype::pairs_seq_view(fields@));
                    assert(pairs_vec_view(fields).len() == count);
                    assert forall|m: int|
                        0 <= m < count implies pairs_vec_view(fields)[m] == (
                        values@[m].0@,
                        expr_ty(values@[m].1),
                    ) by {
                        assert(pairs_vec_view(fields)[m] == crate::langtype::pair_view(
                            fields@[m],
                        ));
                    }
                }
                Expression::Object {
                    ty: Ty::Object { fields, name: Option::None },
                    values,
                }
            },
            _ => {
                report(
                    ctx,
                    String::from_str("Internal inconsistency: not an object literal"),
                    Span { start: 0, end: 0 },
                );
                Expression::Invalid
            },
        }
    }

    /// Resolve an array literal: every element is cast to the common
    /// target type of all elements.
    #[verifier::loop_isolation(false)]
    pub fn from_array_node(
        node: &crate::syntax::SyntaxExpr,
        d: &Document,
        ctx: &mut LookupCtx,
    ) -> (r: Expression)
        requires
            doc_wf(*d),
            scopes_ok(*d, old(ctx).component_scope@),
        ensures
            ctx_advances(*final(ctx), *old(ctx)),
            node matches crate::syntax::SyntaxExpr::Array { values: vs, .. } ==> (r matches
                Expression::Array { values, .. } && values@.len() == vs@.len()),
            r matches Expression::Array { element_ty, values } ==> (element_ty@ != TyM::Invalid
                ==> (forall|j: int|
                0 <= j < values@.len() ==> (expr_ty(#[trigger] values@[j]) == element_ty@
                    || expr_ty(values@[j]) == TyM::Invalid))),
            r is Invalid ==> final(ctx).diag@.len() > old(ctx).diag@.len(),
            !(r is Uncompiled),
        decreases node, 0int,
    {
        proof {
            lemma_extends_refl(ctx.diag@);
        }
        match node {
            crate::syntax::SyntaxExpr::Array { values: value_nodes, span } => {
                let mut resolved: Vec<Expression> = Vec::new();
                let n: usize = value_nodes.len();
                let mut i: usize = 0;
                while i < n
                    invariant
                        i <= n,
                        n == value_nodes@.len(),
                        resolved@.len() == i,
                        ctx_frame(*ctx, *old(ctx)),
                        extends(ctx.diag@, old(ctx).diag@),
                    decreases n - i,
                {
                    let ghost mid = ctx.diag@;
                    let e = Expression::from_expression_node(&value_nodes[i], d, ctx);
                    proof {
                        lemma_extends_trans(ctx.diag@, mid, old(ctx).diag@);
                    }
                    resolved.push(e);
                    i += 1;
                }
                let mut tys: Vec<Ty> = Vec::new();
                let mut i: usize = 0;
                while i < n
                    invariant
                        i <= n,
                        n == resolved@.len(),
                        tys@.len() == i,
                    decreases n - i,
                {
                    tys.push(resolved[i].ty());
                    i += 1;
                }
                let element_ty = Expression::common_target_type_for_type_list(&tys);
                let mut converted: Vec<Expression> = Vec::new();
                let mut rest = resolved;
                let ghost total = rest@.len();
                while rest.len() > 0
                    invariant
                        converted@.len() + rest@.len() == total,
                        ctx_frame(*ctx, *old(ctx)),
                        extends(ctx.diag@, old(ctx).diag@),
                        element_ty@ != TyM::Invalid ==> (forall|j: int|
                            0 <= j < converted@.len() ==> (expr_ty(#[trigger] converted@[j])
                                == element_ty@ || expr_ty(converted@[j]) == TyM::Invalid)),
                    decreases rest@.len(),
                {
                    let e = rest.remove(0);
                    let ghost mid = ctx.diag@;
                    let e = e.maybe_convert_to(&element_ty, *span, &mut ctx.diag);
                    proof {
                        lemma_extends_trans(ctx.diag@, mid, old(ctx).diag@);
                    }
                    converted.push(e);
                }
                Expression::Array { element_ty, values: converted }
            },
            _ => {
                report(
                    ctx,
                    String::from_str("Internal inconsistency: not an array literal"),
                    Span { start: 0, end: 0 },
                );
                Expression::Invalid
            },
        }
    }
}


impl Expression {
    /// Resolve a function-call expression.  Macro names are lowered on
    /// the spot; member functions receive their receiver as the first
    /// argument; arguments are counted and coerced against the called
    /// function's type.
    #[verifier::loop_isolation(false)]
    pub fn from_function_call_node(
        node: &crate::syntax::SyntaxExpr,
        d: &Document,
        ctx: &mut LookupCtx,
    ) -> (r: Expression)
        requires
            doc_wf(*d),
            scopes_ok(*d, old(ctx).component_scope@),
        ensures
            ctx_advances(*final(ctx), *old(ctx)),
            !(r is Uncompiled),
            r is Invalid ==> final(ctx).diag@.len() > old(ctx).diag@.len(),
            node matches crate::syntax::SyntaxExpr::FunctionCall { exprs, .. } && exprs@.len()
                == 0 ==> r is Invalid && final(ctx).diag@.len() == old(ctx).diag@.len() + 1,
        decreases node, 0int,
    {
        proof {
            lemma_extends_refl(ctx.diag@);
        }
        match node {
            crate::syntax::SyntaxExpr::FunctionCall { exprs, span } => {
                if exprs.len() == 0 {
                    report(ctx, String::from_str("The expression is not a function"), *span);
                    return Expression::Invalid;
                }
                let ghost mid0 = ctx.diag@;
                let function = Expression::from_expression_node(&exprs[0], d, ctx);
                proof {
                    lemma_extends_trans(ctx.diag@, mid0, old(ctx).diag@);
                }
                let arguments = Expression::resolve_call_arguments(exprs, d, ctx);
                let ghost mid1 = ctx.diag@;
                let out = build_function_call(function, arguments, *span, ctx);
                proof {
                    lemma_extends_trans(ctx.diag@, mid1, old(ctx).diag@);
                }
                out
            },
            _ => {
                report(
                    ctx,
                    String::from_str("Internal inconsistency: not a function call"),
                    Span { start: 0, end: 0 },
                );
                Expression::Invalid
            },
        }
    }

    /// Resolve the arguments of a call node: everything after the first
    /// entry, each with its source span.
    #[verifier::loop_isolation(false)]
    fn resolve_call_arguments(
        exprs: &Vec<crate::syntax::SyntaxExpr>,
        d: &Document,
        ctx: &mut LookupCtx,
    ) -> (r: Vec<(Expression, Span)>)
        requires
            doc_wf(*d),
            scopes_ok(*d, old(ctx).component_scope@),
            exprs@.len() >= 1,
        ensures
            ctx_advances(*final(ctx), *old(ctx)),
            r@.len() == exprs@.len() - 1,
        decreases exprs, 0int,
    {
        proof {
            lemma_extends_refl(ctx.diag@);
        }
        let mut out: Vec<(Expression, Span)> = Vec::new();
        let n: usize = exprs.len();
        let mut i: usize = 1;
        while i < n
            invariant
                1 <= i <= n,
                n == exprs@.len(),
                out@.len() == i - 1,
                ctx_frame(*ctx, *old(ctx)),
                extends(ctx.diag@, old(ctx).diag@),
            decreases n - i,
        {
            let sp = exprs[i].span();
            let ghost mid = ctx.diag@;
            let e = Expression::from_expression_node(&exprs[i], d, ctx);
            proof {
                lemma_extends_trans(ctx.diag@, mid, old(ctx).diag@);
            }
            out.push((e, sp));
            i += 1;
        }
        out
    }

    /// Forget the source spans of a list of resolved arguments.
    #[verifier::loop_isolation(false)]
    fn drop_argument_spans(args: Vec<(Expression, Span)>) -> (r: Vec<Expression>)
        ensures
            r@.len() == args@.len(),
            forall|j: int| 0 <= j < args@.len() ==> #[trigger] r@[j] == args@[j].0,
    {
        let ghost all = args@;
        let mut out: Vec<Expression> = Vec::new();
        let mut rest = args;
        while rest.len() > 0
            invariant
                out@.len() + rest@.len() == all.len(),
                rest@ =~= all.subrange(out@.len() as int, all.len() as int),
                forall|j: int| 0 <= j < out@.len() ==> #[trigger] out@[j] == all[j].0,
            decreases rest@.len(),
        {
            let (a, _) = rest.remove(0);
            out.push(a);
        }
        out
    }

    /// Resolve any expression node by its kind.  Literals are parsed
    /// here; everything else dispatches to its builder.
    #[verifier::loop_isolation(false)]
    #[verifier::rlimit(80)]
    pub fn from_expression_node(
        node: &crate::syntax::SyntaxExpr,
        d: &Document,
        ctx: &mut LookupCtx,
    ) -> (r: Expression)
        requires
            doc_wf(*d),
            scopes_ok(*d, old(ctx).component_scope@),
        ensures
            ctx_advances(*final(ctx), *old(ctx)),
            !(r is Uncompiled),
            r is Invalid && !crate::syntax::parser_reported(*node) ==> final(ctx).diag@.len()
                > old(ctx).diag@.len(),
            node matches crate::syntax::SyntaxExpr::NumberLiteral { text, .. } ==> r == (
            match crate::literals::spec_parse_number(text@) {
                Ok((v, u)) => Expression::NumberLiteral(v, u),
                Err(_) => Expression::Invalid,
            }),
            node matches crate::syntax::SyntaxExpr::NumberLiteral { text, .. }
                && crate::literals::spec_parse_number(text@) is Err ==> final(ctx).diag@.len()
                == old(ctx).diag@.len() + 1,
            node matches crate::syntax::SyntaxExpr::NumberLiteral { text, .. }
                && crate::literals::spec_parse_number(text@) is Ok ==> final(ctx).diag@ == old(ctx).diag@,
            node matches crate::syntax::SyntaxExpr::ColorLiteral { text, .. } ==> (match
            crate::literals::spec_parse_color(text@) {
                Some(v) => r matches Expression::Cast { from, to } && *from
                    == Expression::NumberLiteral(
                    NumberValue { mantissa: v as u64, scale: 0 },
                    Unit::Plain,
                ) && to@ == TyM::Color,
                None => r is Invalid && final(ctx).diag@.len() == old(ctx).diag@.len() + 1,
            }),
            node is Missing ==> r is Invalid && final(ctx).diag@ == old(ctx).diag@,
            node matches crate::syntax::SyntaxExpr::StringLiteral { text, .. } ==> (
            if text@.len() >= 2 && text@[0] == '"' && text@.last() == '"' {
                r matches Expression::StringLiteral(s) && s@ == text@.subrange(
                    1,
                    text@.len() - 1,
                ) && final(ctx).diag@ == old(ctx).diag@
            } else {
                r is Invalid && final(ctx).diag@.len() == old(ctx).diag@.len() + 1
            }),
        decreases node, 1int,
    {
        proof {
            lemma_extends_refl(ctx.diag@);
        }
        match node {
            crate::syntax::SyntaxExpr::Group { inner, .. } => Expression::from_expression_node(
                inner,
                d,
                ctx,
            ),
            crate::syntax::SyntaxExpr::QualifiedName { parts, span } => {
                Expression::from_qualified_name_node(parts, *span, d, ctx)
            },
            crate::syntax::SyntaxExpr::StringLiteral { text, span } => {
                match crate::literals::unescape_string(text.as_str()) {
                    Option::Some(s) => Expression::StringLiteral(s),
                    Option::None => {
                        report(ctx, String::from_str("Cannot parse string literal"), *span);
                        Expression::Invalid
                    },
                }
            },
            crate::syntax::SyntaxExpr::NumberLiteral { text, span } => {
                match crate::literals::parse_number_literal(text.as_str()) {
                    Result::Ok((value, unit)) => Expression::NumberLiteral(value, unit),
                    Result::Err(err) => {
                        report(ctx, err.message(), *span);
                        Expression::Invalid
                    },
                }
            },
            crate::syntax::SyntaxExpr::ColorLiteral { text, span } => {
                match crate::literals::parse_color_literal(text.as_str()) {
                    Option::Some(value) => Expression::Cast {
                        from: Box::new(
                            Expression::NumberLiteral(
                                NumberValue { mantissa: value as u64, scale: 0 },
                                Unit::Plain,
                            ),
                        ),
                        to: Ty::Color,
                    },
                    Option::None => {
                        report(ctx, String::from_str("Invalid color literal"), *span);
                        Expression::Invalid
                    },
                }
            },
            crate::syntax::SyntaxExpr::BangExpression { .. } => {
                Expression::from_bang_expression_node(node, d, ctx)
            },
            crate::syntax::SyntaxExpr::FunctionCall { .. } => {
                Expression::from_function_call_node(node, d, ctx)
            },
            crate::syntax::SyntaxExpr::SelfAssignment { .. } => {
                Expression::from_self_assignement_node(node, d, ctx)
            },
            crate::syntax::SyntaxExpr::BinaryExpression { .. } => {
                Expression::from_binary_expression_node(node, d, ctx)
            },
            crate::syntax::SyntaxExpr::UnaryOp { .. } => {
                Expression::from_unaryop_expression_node(node, d, ctx)
            },
            crate::syntax::SyntaxExpr::Conditional { .. } => {
                Expression::from_conditional_expression_node(node, d, ctx)
            },
            crate::syntax::SyntaxExpr::ObjectLiteral { .. } => {
                Expression::from_object_literal_node(node, d, ctx)
            },
            crate::syntax::SyntaxExpr::Array { .. } => {
                Expression::from_array_node(node, d, ctx)
            },
            crate::syntax::SyntaxExpr::CodeBlock { statements, .. } => {
                Expression::from_codeblock_node(statements, d, ctx)
            },
            crate::syntax::SyntaxExpr::Missing { span } => {
                // The parser already reported this region; no further
                // diagnostic is owed.
                Expression::Invalid
            },
        }
    }
}

/// Lower a `cubic_bezier` call: exactly four unitless number literals;
/// a malformed call is diagnosed once but still yields a best-effort
/// curve with missing control values at zero.
#[verifier::loop_isolation(false)]
fn cubic_bezier_macro(args: Vec<(Expression, Span)>, span: Span, ctx: &mut LookupCtx) -> (r:
    Expression)
    ensures
        ctx_advances(*final(ctx), *old(ctx)),
        r is EasingCurve,
        args@.len() != 4 ==> final(ctx).diag@.len() == old(ctx).diag@.len() + 1,
{
    proof {
        lemma_extends_refl(ctx.diag@);
    }
    let mut control: Vec<NumberValue> = Vec::new();
    let mut first_error: Option<String> = Option::None;
    let mut rest = args;
    let ghost total = rest@.len();
    while rest.len() > 0
        invariant
            control@.len() == (if total - rest@.len() <= 4 {
                total - rest@.len()
            } else {
                4int
            }),
            total - rest@.len() > 4 ==> first_error is Some,
            ctx.diag@ == old(ctx).diag@,
            ctx_frame(*ctx, *old(ctx)),
        decreases rest@.len(),
    {
        let (a, a_span) = rest.remove(0);
        if control.len() >= 4 {
            if first_error.is_none() {
                first_error = Option::Some(
                    String::from_str("Too many arguments for the Bezier curve"),
                );
            }
        } else {
            match a {
                Expression::NumberLiteral(v, Unit::Plain) => {
                    control.push(v);
                },
                _ => {
                    control.push(NumberValue { mantissa: 0, scale: 0 });
                    if first_error.is_none() {
                        first_error = Option::Some(
                            String::from_str(
                                "Arguments to the Bezier curve must be number literals",
                            ),
                        );
                    }
                },
            }
        }
    }
    if control.len() < 4 {
        if first_error.is_none() {
            first_error = Option::Some(String::from_str("Not enough arguments"));
        }
    }
    while control.len() < 4
        invariant
            ctx.diag@ == old(ctx).diag@,
            ctx_frame(*ctx, *old(ctx)),
            total != 4 ==> first_error is Some,
            control@.len() <= 4,
        decreases 4 - control@.len(),
    {
        control.push(NumberValue { mantissa: 0, scale: 0 });
    }
    let curve = Expression::EasingCurve(
        crate::expression_tree::EasingCurve::CubicBezier(
            control[0],
            control[1],
            control[2],
            control[3],
        ),
    );
    match first_error {
        Option::Some(message) => {
            report(ctx, message, span);
        },
        Option::None => {},
    }
    curve
}


impl Expression {
    /// Resolve a `<=>` two-way binding: the expression must name a
    /// property of the same type as the bound property.
    pub fn from_two_way_binding(
        expr: &crate::syntax::SyntaxExpr,
        span: Span,
        d: &Document,
        ctx: &mut LookupCtx,
    ) -> (r: Expression)
        requires
            doc_wf(*d),
            scopes_ok(*d, old(ctx).component_scope@),
        ensures
            ctx_advances(*final(ctx), *old(ctx)),
            !(r is Uncompiled),
            r matches Expression::TwoWayBinding { ty, .. } && ty@ != old(ctx).property_type@
                ==> final(ctx).diag@.len() > old(ctx).diag@.len(),
            !(r is TwoWayBinding) ==> final(ctx).diag@.len() > old(ctx).diag@.len(),
    {
        proof {
            lemma_extends_refl(ctx.diag@);
        }
        let e = Expression::from_expression_node(expr, d, ctx);
        let property_type = clone_ty(&ctx.property_type);
        let ghost mid = ctx.diag@;
        let out = make_two_way_binding(e, &property_type, span, &mut ctx.diag);
        proof {
            lemma_extends_trans(ctx.diag@, mid, old(ctx).diag@);
        }
        out
    }

    /// Resolve a plain `property: value;` binding: resolve the inner
    /// expression or code block, apply the percentage rule, then coerce
    /// to the property's declared type.
    pub fn from_binding_expression_node(
        inner: &Option<crate::syntax::SyntaxExpr>,
        span: Span,
        d: &Document,
        ctx: &mut LookupCtx,
    ) -> (r: Expression)
        requires
            doc_wf(*d),
            scopes_ok(*d, old(ctx).component_scope@),
        ensures
            ctx_advances(*final(ctx), *old(ctx)),
            !(r is Uncompiled),
            inner is None ==> r is Invalid && final(ctx).diag@ == old(ctx).diag@,
            inner matches Some(en) ==> (r is Invalid && !crate::syntax::parser_reported(*en)
                ==> final(ctx).diag@.len() > old(ctx).diag@.len()),
            old(ctx).property_type@ != TyM::Invalid ==> (expr_ty(r) == old(ctx).property_type@
                || expr_ty(r) == TyM::Invalid),
            old(ctx).property_type@ == TyM::Float32 ==> (inner matches Some(
                crate::syntax::SyntaxExpr::NumberLiteral { text, .. },
            ) ==> (crate::literals::spec_parse_number(text@) matches Ok((v, Unit::Plain)) ==> r
                == Expression::NumberLiteral(v, Unit::Plain) && final(ctx).diag@ == old(ctx).diag@)),
    {
        proof {
            lemma_extends_refl(ctx.diag@);
        }
        let ghost d0 = ctx.diag@;
        let ghost mut inner_reported: bool = true;
        let e = match inner {
            Option::Some(node) => {
                proof {
                    inner_reported = crate::syntax::parser_reported(*node);
                }
                let r0 = Expression::from_expression_node(node, d, ctx);
                proof {
                    assert(r0 is Invalid && !crate::syntax::parser_reported(*node)
                        ==> ctx.diag@.len() > d0.len());
                    assert(r0 is Invalid && !inner_reported ==> ctx.diag@.len() > d0.len());
                }
                r0
            },
            Option::None => Expression::Invalid,
        };
        let ghost e0v = e;
        let ghost d1 = ctx.diag@;
        proof {
            assert(!(e is Uncompiled));
            assert(e0v is Invalid && !inner_reported && inner is Some ==> d1.len() > d0.len());
        }
        let e = attempt_percent_conversion(d, ctx, e, span);
        let ghost e1v = e;
        let ghost d2 = ctx.diag@;
        proof {
            assert(!(e is Uncompiled));
        }
        let property_type = clone_ty(&ctx.property_type);
        let ghost mid2 = ctx.diag@;
        let out = e.maybe_convert_to(&property_type, span, &mut ctx.diag);
        proof {
            lemma_extends_trans(ctx.diag@, mid2, old(ctx).diag@);
            assert(!(out is Uncompiled));
            if out is Invalid && ctx.diag@.len() == d0.len() {
                assert(d1.len() == d0.len());
                assert(d2.len() == d1.len());
                assert(out == e1v);
                assert(e1v == e0v);
            }
        }
        match out {
            Expression::Uncompiled(_) => Expression::Invalid,  // unreachable: nothing upstream yields a raw node
            other => other,
        }
    }
}


/// One element holds no unresolved binding any more.
pub open spec fn element_resolved(x: crate::object_tree::Element) -> bool {
    &&& forall|k: int|
        0 <= k < x.bindings@.len() ==> !((#[trigger] x.bindings@[k]).1 is Uncompiled)
    &&& match x.repeated {
        Some(rep) => !(rep.model is Uncompiled),
        None => true,
    }
}

/// The output contract of the pass: no `Uncompiled` node remains in any
/// binding or repeater model.
pub open spec fn fully_resolved(d: Document) -> bool {
    forall|i: int| 0 <= i < d.elements.len() ==> element_resolved(#[trigger] d.elements[i])
}

/// Everything of an element except its binding expressions and its
/// repeater model expression.
pub open spec fn element_same_shape(x: crate::object_tree::Element, y: crate::object_tree::Element) -> bool {
    &&& x.id == y.id
    &&& x.base_type == y.base_type
    &&& x.enclosing_component == y.enclosing_component
    &&& x.properties == y.properties
    &&& x.children == y.children
    &&& x.bindings@.len() == y.bindings@.len()
    &&& forall|k: int|
        0 <= k < x.bindings@.len() ==> (#[trigger] x.bindings@[k]).0 == y.bindings@[k].0
    &&& match (x.repeated, y.repeated) {
        (Option::None, Option::None) => true,
        (Option::Some(a), Option::Some(b)) => a.index_id == b.index_id && a.model_data_id
            == b.model_data_id,
        _ => false,
    }
}

/// The pass only replaces binding expressions: ids, types, properties,
/// children, components and the registry stay as they were.
pub open spec fn same_shape(a: Document, b: Document) -> bool {
    &&& a.elements@.len() == b.elements@.len()
    &&& forall|i: int|
        0 <= i < a.elements@.len() ==> element_same_shape(
            #[trigger] a.elements@[i],
            b.elements@[i],
        )
    &&& a.components == b.components
    &&& a.local_registry == b.local_registry
}

/// Two elements hold exactly the same state, binding expressions
/// included.
pub open spec fn element_state_eq(x: crate::object_tree::Element, y: crate::object_tree::Element) -> bool {
    &&& element_same_shape(x, y)
    &&& forall|k: int|
        0 <= k < x.bindings@.len() ==> (#[trigger] x.bindings@[k]).1 == y.bindings@[k].1
    &&& match (x.repeated, y.repeated) {
        (Option::None, Option::None) => true,
        (Option::Some(a), Option::Some(b)) => a.model == b.model,
        _ => false,
    }
}

pub open spec fn doc_state_eq(a: Document, b: Document) -> bool {
    &&& a.elements@.len() == b.elements@.len()
    &&& forall|i: int|
        0 <= i < a.elements@.len() ==> element_state_eq(#[trigger] a.elements@[i], b.elements@[i])
    &&& a.components == b.components
    &&& a.local_registry == b.local_registry
}

/// A same-shaped document keeps the arena invariants.
pub proof fn lemma_same_shape_wf(a: Document, b: Document)
    requires
        same_shape(a, b),
        doc_wf(b),
    ensures
        doc_wf(a),
{
    assert forall|i: int| 0 <= i < a.elements.len() implies #[trigger] crate::object_tree::elem_ok(
        a,
        i,
    ) by {
        assert(crate::object_tree::elem_ok(b, i));
        assert(element_same_shape(a.elements@[i], b.elements@[i]));
    }
    assert forall|c: int|
        0 <= c < a.components.len() implies #[trigger] a.components[c].root_element
        < a.elements.len() by {
        assert(b.components[c].root_element < b.elements.len());
    }
}

/// Copy a scope stack.
fn copy_scope(v: &Vec<usize>) -> (r: Vec<usize>)
    ensures
        r@ == v@,
{
    let mut out: Vec<usize> = Vec::new();
    let n: usize = v.len();
    let mut i: usize = 0;
    while i < n
        invariant
            i <= n,
            n == v@.len(),
            out@ =~= v@.subrange(0, i as int),
        decreases n - i,
    {
        out.push(v[i]);
        proof {
            assert(out@ =~= v@.subrange(0, i + 1 as int));
        }
        i += 1;
    }
    proof {
        assert(out@ =~= v@);
    }
    out
}

/// The scope stack handed into an element's subtree: the component
/// root, then each *repeated* proper ancestor of the element, outermost
/// first.  Elements that are not repetition roots contribute nothing to
/// the scopes of their descendants.
pub open spec fn spec_enclosing_scope(d: Document, e: int) -> Seq<usize>
    decreases e,
        when doc_wf(d) && 0 <= e < d.elements.len()
        via spec_enclosing_scope_decreases
{
    match spec_find_parent(d, e) {
        Option::None => seq![e as usize],
        Option::Some(p) => spec_enclosing_scope(d, p) + if d.elements[p].repeated is Some {
            seq![p as usize]
        } else {
            Seq::empty()
        },
    }
}

#[via_fn]
proof fn spec_enclosing_scope_decreases(d: Document, e: int) {
    match spec_find_parent(d, e) {
        Option::Some(p) => {
            lemma_parent_is_earlier(d, e, p);
        },
        Option::None => {},
    }
}

/// The scope stack an element's own bindings are resolved in: the
/// enclosing scope, then the element itself, twice when it is repeated
/// (once for the repetition, once as the innermost scope).
pub open spec fn spec_binding_scope(d: Document, e: int) -> Seq<usize> {
    spec_enclosing_scope(d, e) + (if d.elements[e].repeated is Some {
        seq![e as usize]
    } else {
        Seq::empty()
    }) + seq![e as usize]
}

/// Compute the scope handed into an element's subtree; a repeater model
/// is resolved in this scope, because the model runs outside the
/// repetition.
#[verifier::loop_isolation(false)]
pub fn enclosing_scope_for_element(d: &Document, e: usize) -> (r: Vec<usize>)
    requires
        doc_wf(*d),
        e < d.elements@.len(),
    ensures
        r@ == spec_enclosing_scope(*d, e as int),
        scopes_ok(*d, r@),
        r@.len() >= 1,
{
    let mut rev: Vec<usize> = Vec::new();
    let ghost tail: Seq<usize> = Seq::empty();
    let mut cur: usize = e;
    loop
        invariant
            cur < d.elements@.len(),
            rev@.len() == tail.len(),
            forall|j: int| 0 <= j < rev@.len() ==> #[trigger] rev@[j] == tail[tail.len() - 1 - j],
            forall|j: int| 0 <= j < rev@.len() ==> #[trigger] rev@[j] < d.elements@.len(),
            spec_enclosing_scope(*d, e as int) == spec_enclosing_scope(*d, cur as int) + tail,
        decreases cur,
    {
        match find_parent_element(d, cur) {
            Option::Some(p) => {
                proof {
                    lemma_parent_is_earlier(*d, cur as int, p as int);
                }
                let p_repeated = match &d.elements[p].repeated {
                    Option::Some(_) => true,
                    Option::None => false,
                };
                if p_repeated {
                    rev.push(p);
                    proof {
                        tail = seq![p] + tail;
                    }
                } else {
                    proof {
                        assert(spec_enclosing_scope(*d, cur as int) == spec_enclosing_scope(
                            *d,
                            p as int,
                        ) + Seq::<usize>::empty());
                        assert(spec_enclosing_scope(*d, cur as int) =~= spec_enclosing_scope(
                            *d,
                            p as int,
                        ));
                    }
                }
                cur = p;
            },
            Option::None => {
                break;
            },
        }
    }
    // `cur` is the root of the chain; it opens the scope stack.
    rev.push(cur);
    proof {
        tail = seq![cur] + tail;
        assert(spec_enclosing_scope(*d, cur as int) =~= seq![cur]);
        assert(spec_enclosing_scope(*d, e as int) =~= tail);
    }
    let n: usize = rev.len();
    let mut out: Vec<usize> = Vec::new();
    let mut i: usize = n;
    while i > 0
        invariant
            i <= n,
            n == rev@.len(),
            out@.len() == n - i,
            forall|j: int| 0 <= j < out@.len() ==> #[trigger] out@[j] == rev@[n - 1 - j],
        decreases i,
    {
        i -= 1;
        out.push(rev[i]);
    }
    proof {
        assert forall|j: int| 0 <= j < out@.len() implies #[trigger] out@[j] == tail[j] by {
            assert(out@[j] == rev@[n - 1 - j]);
            assert(rev@[n - 1 - j] == tail[tail.len() - 1 - (n - 1 - j)]);
        }
        assert(out@ =~= tail);
        assert forall|j: int| 0 <= j < out@.len() implies #[trigger] out@[j]
            < d.elements@.len() by {
            assert(out@[j] == rev@[n - 1 - j]);
        }
    }
    out
}

/// The lexical scope stack of one element's bindings: the component
/// root, the repeated ancestors, and the element itself (twice when it
/// is itself repeated).
pub fn scope_for_element(d: &Document, e: usize) -> (r: Vec<usize>)
    requires
        doc_wf(*d),
        e < d.elements@.len(),
    ensures
        r@ == spec_binding_scope(*d, e as int),
        scopes_ok(*d, r@),
        r@.len() >= 1,
        r@.last() == e,
{
    let mut out = enclosing_scope_for_element(d, e);
    let repeated = match &d.elements[e].repeated {
        Option::Some(_) => true,
        Option::None => false,
    };
    if repeated {
        out.push(e);
    }
    out.push(e);
    proof {
        assert(out@ =~= spec_binding_scope(*d, e as int));
    }
    out
}

/// Everything of two elements is equal except possibly the expression
/// of binding `k`.
pub open spec fn elem_binding_update(x: crate::object_tree::Element, y: crate::object_tree::Element, k: int) -> bool {
    &&& x.id == y.id
    &&& x.base_type == y.base_type
    &&& x.enclosing_component == y.enclosing_component
    &&& x.properties == y.properties
    &&& x.children == y.children
    &&& x.repeated == y.repeated
    &&& x.bindings@.len() == y.bindings@.len()
    &&& forall|m: int|
        0 <= m < x.bindings@.len() && m != k ==> #[trigger] x.bindings@[m] == y.bindings@[m]
    &&& 0 <= k < x.bindings@.len() ==> x.bindings@[k].0 == y.bindings@[k].0
}

/// Everything of two documents is equal except possibly the expression
/// of binding `k` on element `e`.
pub open spec fn doc_binding_update(a: Document, b: Document, e: int, k: int) -> bool {
    &&& a.elements@.len() == b.elements@.len()
    &&& forall|j: int|
        0 <= j < a.elements@.len() && j != e ==> #[trigger] a.elements@[j] == b.elements@[j]
    &&& 0 <= e < a.elements@.len() ==> elem_binding_update(a.elements@[e], b.elements@[e], k)
    &&& a.components == b.components
    &&& a.local_registry == b.local_registry
}

/// Swap a binding's expression out, leaving an invalid placeholder.
fn take_binding_expr(doc: &mut Document, e: usize, k: usize) -> (r: Expression)
    requires
        e < old(doc).elements@.len(),
        k < old(doc).elements@[e as int].bindings@.len(),
    ensures
        r == old(doc).elements@[e as int].bindings@[k as int].1,
        doc_binding_update(*final(doc), *old(doc), e as int, k as int),
        final(doc).elements@[e as int].bindings@[k as int].1 is Invalid,
{
    let element = &mut doc.elements[e];
    let slot = &mut element.bindings[k];
    let mut tmp = Expression::Invalid;
    core::mem::swap(&mut slot.1, &mut tmp);
    tmp
}

/// Store a resolved expression into a binding slot.
fn set_binding_expr(doc: &mut Document, e: usize, k: usize, v: Expression)
    requires
        e < old(doc).elements@.len(),
        k < old(doc).elements@[e as int].bindings@.len(),
    ensures
        doc_binding_update(*final(doc), *old(doc), e as int, k as int),
        final(doc).elements@[e as int].bindings@[k as int].1 == v,
{
    let element = &mut doc.elements[e];
    let slot = &mut element.bindings[k];
    let mut tmp = v;
    core::mem::swap(&mut slot.1, &mut tmp);
}

/// Everything of two elements is equal except possibly the repeater.
pub open spec fn elem_repeated_update(x: crate::object_tree::Element, y: crate::object_tree::Element) -> bool {
    &&& x.id == y.id
    &&& x.base_type == y.base_type
    &&& x.enclosing_component == y.enclosing_component
    &&& x.properties == y.properties
    &&& x.children == y.children
    &&& x.bindings == y.bindings
}

pub open spec fn doc_repeated_update(a: Document, b: Document, e: int) -> bool {
    &&& a.elements@.len() == b.elements@.len()
    &&& forall|j: int|
        0 <= j < a.elements@.len() && j != e ==> #[trigger] a.elements@[j] == b.elements@[j]
    &&& 0 <= e < a.elements@.len() ==> elem_repeated_update(a.elements@[e], b.elements@[e])
    &&& a.components == b.components
    &&& a.local_registry == b.local_registry
}

/// Take the repeater metadata out of an element.
fn take_repeated(doc: &mut Document, e: usize) -> (r: Option<crate::object_tree::RepeatedElementInfo>)
    requires
        e < old(doc).elements@.len(),
    ensures
        r == old(doc).elements@[e as int].repeated,
        doc_repeated_update(*final(doc), *old(doc), e as int),
        final(doc).elements@[e as int].repeated is None,
{
    let element = &mut doc.elements[e];
    let mut tmp: Option<crate::object_tree::RepeatedElementInfo> = Option::None;
    core::mem::swap(&mut element.repeated, &mut tmp);
    tmp
}

/// Put repeater metadata back into an element.
fn put_repeated(doc: &mut Document, e: usize, rep: crate::object_tree::RepeatedElementInfo)
    requires
        e < old(doc).elements@.len(),
    ensures
        doc_repeated_update(*final(doc), *old(doc), e as int),
        final(doc).elements@[e as int].repeated == Some(rep),
{
    let element = &mut doc.elements[e];
    let mut tmp: Option<crate::object_tree::RepeatedElementInfo> = Option::Some(rep);
    core::mem::swap(&mut element.repeated, &mut tmp);
}


/// Replacing a binding expression keeps the arena invariants.
proof fn lemma_wf_binding_update(a: Document, b: Document, e: int, k: int)
    requires
        doc_binding_update(a, b, e, k),
        doc_wf(b),
    ensures
        doc_wf(a),
{
    assert forall|i: int| 0 <= i < a.elements.len() implies #[trigger] crate::object_tree::elem_ok(
        a,
        i,
    ) by {
        assert(crate::object_tree::elem_ok(b, i));
        if i != e {
            assert(a.elements@[i] == b.elements@[i]);
        }
    }
    assert forall|c: int|
        0 <= c < a.components.len() implies #[trigger] a.components[c].root_element
        < a.elements.len() by {
        assert(b.components[c].root_element < b.elements.len());
    }
}

/// Replacing repeater metadata keeps the arena invariants.
proof fn lemma_wf_repeated_update(a: Document, b: Document, e: int)
    requires
        doc_repeated_update(a, b, e),
        doc_wf(b),
    ensures
        doc_wf(a),
{
    assert forall|i: int| 0 <= i < a.elements.len() implies #[trigger] crate::object_tree::elem_ok(
        a,
        i,
    ) by {
        assert(crate::object_tree::elem_ok(b, i));
        if i != e {
            assert(a.elements@[i] == b.elements@[i]);
        }
    }
    assert forall|c: int|
        0 <= c < a.components.len() implies #[trigger] a.components[c].root_element
        < a.elements.len() by {
        assert(b.components[c].root_element < b.elements.len());
    }
}

/// Resolve one binding slot.  A slot still holding a raw syntax node is
/// resolved according to its kind tag; any other value is handed back
/// exactly as it came, with no diagnostic: that is what makes a second
/// run of the pass a no-op.
pub fn resolve_expression(
    expr: Expression,
    property_name: Option<String>,
    property_type: Ty,
    scope: &Vec<usize>,
    d: &Document,
    diag: &mut BuildDiagnostics,
    counter: &mut usize,
) -> (r: Expression)
    requires
        doc_wf(*d),
        scopes_ok(*d, scope@),
    ensures
        !(expr is Uncompiled) ==> r == expr && final(diag)@ == old(diag)@ && *final(counter)
            == *old(counter),
        !(r is Uncompiled),
        extends(final(diag)@, old(diag)@),
        expr matches Expression::Uncompiled(nd) ==> {
            &&& (r is Invalid && !crate::syntax::node_parser_reported(nd) ==> final(diag)@.len()
                > old(diag)@.len())
            &&& (nd matches crate::syntax::UnresolvedNode::CallbackConnection {
                statements,
                ..
            } ==> (r matches Expression::CodeBlock(ss) && ss@.len() == statements@.len()))
            &&& (nd matches crate::syntax::UnresolvedNode::CodeBlock { .. } ==> r is Invalid
                && final(diag)@.len() == old(diag)@.len() + 1)
            &&& (nd matches crate::syntax::UnresolvedNode::BindingExpression {
                inner: Option::None,
                ..
            } ==> r is Invalid)
            &&& (nd matches crate::syntax::UnresolvedNode::TwoWayBinding { .. } ==> (!(r
                is TwoWayBinding) ==> final(diag)@.len() > old(diag)@.len()))
            &&& (nd matches crate::syntax::UnresolvedNode::BindingExpression { .. }
                && property_type@ != TyM::Invalid ==> (expr_ty(r) == property_type@ || expr_ty(r)
                == TyM::Invalid))
        },
{
    proof {
        lemma_extends_refl(diag@);
    }
    match expr {
        Expression::Uncompiled(node) => {
            let mut ctx = LookupCtx {
                property_name,
                property_type,
                component_scope: copy_scope(scope),
                diag: BuildDiagnostics::new(),
                arguments: Vec::new(),
                type_register: crate::object_tree::TypeRegister {
                    entries: crate::langtype::clone_fields(&d.local_registry.entries),
                },
                local_variable_counter: *counter,
            };
            let new_expr = match &node {
                crate::syntax::UnresolvedNode::CallbackConnection {
                    arguments,
                    statements,
                    span,
                } => Expression::from_callback_connection(arguments, statements, d, &mut ctx),
                crate::syntax::UnresolvedNode::Expression(enode) => {
                    let r0 = Expression::from_expression_node(enode, d, &mut ctx);
                    let pt = clone_ty(&ctx.property_type);
                    let sp = enode.span();
                    let r1 = r0.maybe_convert_to(&pt, sp, &mut ctx.diag);
                    match r1 {
                        Expression::Uncompiled(_) => Expression::Invalid,  // unreachable: the builders never yield a raw node
                        other => other,
                    }
                },
                crate::syntax::UnresolvedNode::BindingExpression { inner, span } => {
                    Expression::from_binding_expression_node(inner, *span, d, &mut ctx)
                },
                crate::syntax::UnresolvedNode::TwoWayBinding { expr: te, span } => {
                    Expression::from_two_way_binding(te, *span, d, &mut ctx)
                },
                crate::syntax::UnresolvedNode::CodeBlock { statements, span } => {
                    // Earlier passes deliver no such binding kind here.
                    report(&mut ctx, String::from_str("Unsupported binding node"), *span);
                    Expression::Invalid
                },
            };
            *counter = ctx.local_variable_counter;
            diag.take_from(&mut ctx.diag);
            proof {
                assert(final(diag)@.subrange(0, old(diag)@.len() as int) =~= old(diag)@);
            }
            new_expr
        },
        other => other,
    }
}

/// What the pass does to one binding slot: an already-resolved slot is
/// left exactly as it is; an unresolved one is replaced by something
/// resolved, a connection becoming a code block of its statements, and
/// the unresolvable kinds becoming the invalid marker.
pub open spec fn slot_outcome(before: Expression, after: Expression) -> bool {
    match before {
        Expression::Uncompiled(nd) => {
            &&& !(after is Uncompiled)
            &&& (nd matches crate::syntax::UnresolvedNode::CallbackConnection {
                statements,
                ..
            } ==> (after matches Expression::CodeBlock(ss) && ss@.len() == statements@.len()))
            &&& (nd matches crate::syntax::UnresolvedNode::CodeBlock { .. } ==> after is Invalid)
            &&& (nd matches crate::syntax::UnresolvedNode::BindingExpression {
                inner: Option::None,
                ..
            } ==> after is Invalid)
        },
        _ => after == before,
    }
}

/// Some binding before position (`e_bound`, `k_bound`) held an
/// unresolved node not already reported by the parser and now holds the
/// invalid marker: such a degradation owes a diagnostic.
pub open spec fn silent_degradation_before(
    a: Document,
    b: Document,
    e_bound: int,
    k_bound: int,
) -> bool {
    exists|i: int, k: int|
        0 <= i < a.elements.len() && 0 <= k < a.elements[i].bindings.len() && (i < e_bound || (i
            == e_bound && k < k_bound)) && (a.elements[i].bindings[k].1 matches
            Expression::Uncompiled(nd) && !crate::syntax::node_parser_reported(nd))
            && b.elements[i].bindings[k].1 is Invalid
}

pub open spec fn silent_degradation(a: Document, b: Document) -> bool {
    silent_degradation_before(a, b, a.elements.len() as int, 0)
}

/// Run the resolution pass over a whole document: every binding and
/// every repeater model that still holds a raw syntax node is replaced
/// in place by a resolved expression or an explicit invalid marker.
/// An element's bindings resolve in its [`spec_binding_scope`]; its
/// repeater model resolves in the [`spec_enclosing_scope`], which
/// excludes the repeated element itself, because the model runs outside
/// the repetition.  Running the pass again afterwards changes nothing.
#[verifier::loop_isolation(false)]
pub fn resolve_expressions(doc: &mut Document, diag: &mut BuildDiagnostics)
    requires
        doc_wf(*old(doc)),
    ensures
        doc_wf(*final(doc)),
        same_shape(*final(doc), *old(doc)),
        fully_resolved(*final(doc)),
        extends(final(diag)@, old(diag)@),
        fully_resolved(*old(doc)) ==> doc_state_eq(*final(doc), *old(doc)) && final(diag)@ == old(diag)@,
        forall|i: int, k: int|
            0 <= i < old(doc).elements@.len() && 0 <= k < old(doc).elements@[i].bindings@.len()
                ==> slot_outcome(
                old(doc).elements@[i].bindings@[k].1,
                #[trigger] final(doc).elements@[i].bindings@[k].1,
            ),
        silent_degradation(*old(doc), *final(doc)) ==> final(diag)@.len() > old(diag)@.len(),
{
    proof {
        lemma_extends_refl(diag@);
    }
    let mut counter: usize = 1;
    let n: usize = doc.elements.len();
    let mut e: usize = 0;
    while e < n
        invariant
            n == doc.elements@.len(),
            e <= n,
            doc_wf(*doc),
            same_shape(*doc, *old(doc)),
            forall|i: int| 0 <= i < e ==> element_resolved(#[trigger] doc.elements@[i]),
            forall|i: int|
                e <= i < n ==> element_state_eq(#[trigger] doc.elements@[i], old(doc).elements@[i]),
            forall|i: int, k: int|
                0 <= i < e && 0 <= k < old(doc).elements@[i].bindings@.len() ==> slot_outcome(
                    old(doc).elements@[i].bindings@[k].1,
                    #[trigger] doc.elements@[i].bindings@[k].1,
                ),
            silent_degradation_before(*old(doc), *doc, e as int, 0) ==> diag@.len() > old(diag)@.len(),
            extends(diag@, old(diag)@),
            fully_resolved(*old(doc)) ==> doc_state_eq(*doc, *old(doc)) && diag@ == old(diag)@,
        decreases n - e,
    {
        let ghost d0 = *doc;
        // The repeater model is resolved first, against the scope of
        // the parent, because the model runs outside the repetition.
        let rep = take_repeated(doc, e);
        proof {
            lemma_wf_repeated_update(*doc, d0, e as int);
        }
        match rep {
            Option::Some(rep_info) => {
                let model_scope: Vec<usize> = enclosing_scope_for_element(doc, e);
                let ghost model0 = rep_info.model;
                let new_model = resolve_expression(
                    rep_info.model,
                    Option::None,
                    Ty::Invalid,
                    &model_scope,
                    doc,
                    diag,
                    &mut counter,
                );
                let ghost d1 = *doc;
                put_repeated(
                    doc,
                    e,
                    crate::object_tree::RepeatedElementInfo {
                        model: new_model,
                        index_id: rep_info.index_id,
                        model_data_id: rep_info.model_data_id,
                    },
                );
                proof {
                    lemma_wf_repeated_update(*doc, d1, e as int);
                    assert forall|i: int|
                        0 <= i < n implies element_same_shape(
                        #[trigger] doc.elements@[i],
                        old(doc).elements@[i],
                    ) by {
                        if i != e {
                            assert(doc.elements@[i] == d0.elements@[i]);
                        }
                        assert(element_same_shape(d0.elements@[i], old(doc).elements@[i]));
                    }
                    if fully_resolved(*old(doc)) {
                        assert(element_state_eq(d0.elements@[e as int], old(doc).elements@[e as int]));
                        assert(element_resolved(old(doc).elements@[e as int]));
                        assert(!(model0 is Uncompiled));
                        assert(new_model == model0);
                        assert forall|i: int|
                            0 <= i < n implies element_state_eq(
                            #[trigger] doc.elements@[i],
                            old(doc).elements@[i],
                        ) by {
                            if i != e {
                                assert(doc.elements@[i] == d0.elements@[i]);
                            }
                        }
                    }
                }
            },
            Option::None => {
                proof {
                    assert forall|i: int|
                        0 <= i < n implies element_same_shape(
                        #[trigger] doc.elements@[i],
                        old(doc).elements@[i],
                    ) by {
                        if i != e {
                            assert(doc.elements@[i] == d0.elements@[i]);
                        }
                        assert(element_same_shape(d0.elements@[i], old(doc).elements@[i]));
                    }
                    if fully_resolved(*old(doc)) {
                        assert forall|i: int|
                            0 <= i < n implies element_state_eq(
                            #[trigger] doc.elements@[i],
                            old(doc).elements@[i],
                        ) by {
                            if i != e {
                                assert(doc.elements@[i] == d0.elements@[i]);
                            }
                            assert(element_state_eq(d0.elements@[i], old(doc).elements@[i]));
                        }
                    }
                }
            },
        }
        let scope = scope_for_element(doc, e);
        let nb: usize = doc.elements[e].bindings.len();
        let mut k: usize = 0;
        while k < nb
            invariant
                e < n,
                k <= nb,
                n == doc.elements@.len(),
                nb == doc.elements@[e as int].bindings@.len(),
                doc_wf(*doc),
                same_shape(*doc, *old(doc)),
                forall|j: int| 0 <= j < scope@.len() ==> #[trigger] scope@[j] < n,
                forall|i: int| 0 <= i < e ==> element_resolved(#[trigger] doc.elements@[i]),
                forall|i: int|
                    e < i < n ==> element_state_eq(
                        #[trigger] doc.elements@[i],
                        old(doc).elements@[i],
                    ),
                forall|m: int|
                    k <= m < nb ==> #[trigger] doc.elements@[e as int].bindings@[m] == old(doc).elements@[e as int].bindings@[m],
                element_same_shape(doc.elements@[e as int], old(doc).elements@[e as int]),
                forall|i: int, k2: int|
                    0 <= i < e && 0 <= k2 < old(doc).elements@[i].bindings@.len()
                        ==> slot_outcome(
                        old(doc).elements@[i].bindings@[k2].1,
                        #[trigger] doc.elements@[i].bindings@[k2].1,
                    ),
                forall|m: int|
                    0 <= m < k ==> slot_outcome(
                        old(doc).elements@[e as int].bindings@[m].1,
                        (#[trigger] doc.elements@[e as int].bindings@[m]).1,
                    ),
                silent_degradation_before(*old(doc), *doc, e as int, k as int) ==> diag@.len()
                    > old(diag)@.len(),
                forall|m: int|
                    0 <= m < k ==> !((#[trigger] doc.elements@[e as int].bindings@[m]).1
                        is Uncompiled),
                match doc.elements@[e as int].repeated {
                    Some(rep) => !(rep.model is Uncompiled),
                    None => true,
                },
                extends(diag@, old(diag)@),
                fully_resolved(*old(doc)) ==> doc_state_eq(*doc, *old(doc)) && diag@ == old(diag)@,
            decreases nb - k,
        {
            let ghost b0 = *doc;
            let name = doc.elements[e].bindings[k].0.clone();
            let property_type = lookup_property(doc, e, name.as_str());
            let expr = take_binding_expr(doc, e, k);
            proof {
                lemma_wf_binding_update(*doc, b0, e as int, k as int);
                assert forall|j: int| 0 <= j < scope@.len() implies #[trigger] scope@[j]
                    < doc.elements@.len() by {}
            }
            let ghost expr0 = expr;
            let new_expr = resolve_expression(
                expr,
                Option::Some(name),
                property_type,
                &scope,
                doc,
                diag,
                &mut counter,
            );
            let ghost b1 = *doc;
            set_binding_expr(doc, e, k, new_expr);
            proof {
                lemma_wf_binding_update(*doc, b1, e as int, k as int);
                assert forall|i: int|
                    0 <= i < n implies element_same_shape(
                    #[trigger] doc.elements@[i],
                    old(doc).elements@[i],
                ) by {
                    if i != e {
                        assert(doc.elements@[i] == b0.elements@[i]);
                    }
                    assert(element_same_shape(b0.elements@[i], old(doc).elements@[i]));
                }
                if fully_resolved(*old(doc)) {
                    assert(element_state_eq(b0.elements@[e as int], old(doc).elements@[e as int]));
                    assert(element_resolved(old(doc).elements@[e as int]));
                    assert(expr0 == old(doc).elements@[e as int].bindings@[k as int].1);
                    assert(!(expr0 is Uncompiled));
                    assert(new_expr == expr0);
                    assert forall|i: int|
                        0 <= i < n implies element_state_eq(
                        #[trigger] doc.elements@[i],
                        old(doc).elements@[i],
                    ) by {
                        if i != e {
                            assert(doc.elements@[i] == b0.elements@[i]);
                        }
                    }
                }
            }
            k += 1;
        }
        proof {
            assert(element_resolved(doc.elements@[e as int]));
        }
        e += 1;
    }
}

} // verus!