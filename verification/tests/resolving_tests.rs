use binding_resolver::diagnostics::BuildDiagnostics;
use binding_resolver::diagnostics::Span;
use binding_resolver::expression_tree::BuiltinFunction;
use binding_resolver::expression_tree::EasingCurve;
use binding_resolver::expression_tree::Expression;
use binding_resolver::langtype::Enumeration;
use binding_resolver::langtype::Ty;
use binding_resolver::literals::Unit;
use binding_resolver::object_tree::Document;
use binding_resolver::object_tree::TypeRegister;
use binding_resolver::resolving::resolve_expressions;
use binding_resolver::resolving::LookupCtx;
use binding_resolver::syntax::SyntaxExpr;
use binding_resolver::syntax::UnresolvedNode;

fn sp() -> Span {
    Span { start: 0, end: 0 }
}

fn qname(parts: &[&str]) -> SyntaxExpr {
    SyntaxExpr::QualifiedName {
        parts: parts.iter().map(|p| p.to_string()).collect(),
        span: sp(),
    }
}

fn number(text: &str) -> SyntaxExpr {
    SyntaxExpr::NumberLiteral { text: text.to_string(), span: sp() }
}

fn binding(expr: SyntaxExpr) -> UnresolvedNode {
    UnresolvedNode::BindingExpression { inner: Some(expr), span: sp() }
}

#[test]
fn shadowed_property_resolves_innermost() {
    let mut doc = Document::new();
    let (_cid, root) = doc.add_component("App".to_string(), false);
    doc.add_property(root, "w".to_string(), Ty::Length);
    let child = doc.add_element(root, "inner".to_string());
    doc.add_property(child, "w".to_string(), Ty::Length);
    doc.add_property(child, "width".to_string(), Ty::Length);
    doc.add_binding(child, "width".to_string(), binding(qname(&["w"])));
    let mut diag = BuildDiagnostics::new();
    resolve_expressions(&mut doc, &mut diag);
    assert_eq!(diag.len(), 0);
    let (_, expr) = doc.binding_at(child, 0);
    match expr {
        Expression::PropertyReference { nr, ty } => {
            assert_eq!(nr.element, child);
            assert_eq!(nr.name, "w");
            assert!(matches!(ty, Ty::Length));
        }
        other => panic!("expected a property reference, got {:?}", discriminant_name(other)),
    }
}

#[test]
fn callback_argument_beats_scope_property() {
    let mut doc = Document::new();
    let (_cid, root) = doc.add_component("App".to_string(), false);
    doc.add_property(root, "w".to_string(), Ty::Length);
    doc.add_property(
        root,
        "clicked".to_string(),
        Ty::Callback { args: vec![Ty::Float32] },
    );
    doc.add_binding(
        root,
        "clicked".to_string(),
        UnresolvedNode::CallbackConnection {
            arguments: vec!["w".to_string()],
            statements: vec![qname(&["w"])],
            span: sp(),
        },
    );
    let mut diag = BuildDiagnostics::new();
    resolve_expressions(&mut doc, &mut diag);
    assert_eq!(diag.len(), 0);
    let (_, expr) = doc.binding_at(root, 0);
    match expr {
        Expression::CodeBlock(stmts) => {
            assert_eq!(stmts.len(), 1);
            match &stmts[0] {
                Expression::FunctionParameterReference { index, ty } => {
                    assert_eq!(*index, 0);
                    assert!(matches!(ty, Ty::Float32));
                }
                other => panic!(
                    "expected a parameter reference, got {:?}",
                    discriminant_name(other)
                ),
            }
        }
        other => panic!("expected a code block, got {:?}", discriminant_name(other)),
    }
}

#[test]
fn percent_converts_against_ancestor_width() {
    let mut doc = Document::new();
    let (_cid, root) = doc.add_component("App".to_string(), false);
    doc.add_property(root, "width".to_string(), Ty::Length);
    let child = doc.add_element(root, "inner".to_string());
    doc.add_property(child, "width".to_string(), Ty::Length);
    doc.add_binding(child, "width".to_string(), binding(number("50%")));
    let mut diag = BuildDiagnostics::new();
    resolve_expressions(&mut doc, &mut diag);
    assert_eq!(diag.len(), 0);
    let (_, expr) = doc.binding_at(child, 0);
    match expr {
        Expression::BinaryExpression { lhs, rhs, op } => {
            assert_eq!(*op, '*');
            match rhs.as_ref() {
                Expression::PropertyReference { nr, .. } => {
                    assert_eq!(nr.element, root);
                    assert_eq!(nr.name, "width");
                }
                other => panic!(
                    "expected the ancestor's width, got {:?}",
                    discriminant_name(other)
                ),
            }
            match lhs.as_ref() {
                Expression::BinaryExpression { rhs: factor, op: inner_op, .. } => {
                    assert_eq!(*inner_op, '*');
                    match factor.as_ref() {
                        Expression::NumberLiteral(v, Unit::Plain) => {
                            assert_eq!(v.mantissa, 1);
                            assert_eq!(v.scale, 2);
                        }
                        other => panic!(
                            "expected the 0.01 factor, got {:?}",
                            discriminant_name(other)
                        ),
                    }
                }
                other => panic!("expected the scaled value, got {:?}", discriminant_name(other)),
            }
        }
        other => panic!("expected a rewritten product, got {:?}", discriminant_name(other)),
    }
}

#[test]
fn percent_on_other_property_is_an_error() {
    let mut doc = Document::new();
    let (_cid, root) = doc.add_component("App".to_string(), false);
    doc.add_property(root, "spacing".to_string(), Ty::Length);
    doc.add_binding(root, "spacing".to_string(), binding(number("50%")));
    let mut diag = BuildDiagnostics::new();
    resolve_expressions(&mut doc, &mut diag);
    assert_eq!(diag.len(), 1);
    let (_, expr) = doc.binding_at(root, 0);
    assert!(matches!(expr, Expression::Invalid));
    assert!(diag.entry(0).message.contains("width and height"));
}

fn float_ctx() -> (Document, LookupCtx) {
    let doc = Document::new();
    let mut ctx = LookupCtx::empty_context(TypeRegister::new(), BuildDiagnostics::new());
    ctx.property_type = Ty::Float32;
    (doc, ctx)
}

#[test]
fn min_with_one_argument_is_that_argument() {
    let (doc, mut ctx) = float_ctx();
    let node = SyntaxExpr::FunctionCall { exprs: vec![qname(&["min"]), number("7")], span: sp() };
    let r = Expression::from_expression_node(&node, &doc, &mut ctx);
    assert_eq!(ctx.diag.len(), 0);
    match r {
        Expression::NumberLiteral(v, Unit::Plain) => assert_eq!(v.mantissa, 7),
        other => panic!("expected the argument back, got {:?}", discriminant_name(&other)),
    }
}

#[test]
fn min_with_no_argument_is_an_error() {
    let (doc, mut ctx) = float_ctx();
    let node = SyntaxExpr::FunctionCall { exprs: vec![qname(&["min"])], span: sp() };
    let r = Expression::from_expression_node(&node, &doc, &mut ctx);
    assert!(matches!(r, Expression::Invalid));
    assert_eq!(ctx.diag.len(), 1);
}

#[test]
fn max_folds_into_a_code_block() {
    let (doc, mut ctx) = float_ctx();
    let node = SyntaxExpr::FunctionCall {
        exprs: vec![qname(&["max"]), number("1"), number("2")],
        span: sp(),
    };
    let r = Expression::from_expression_node(&node, &doc, &mut ctx);
    assert_eq!(ctx.diag.len(), 0);
    match &r {
        Expression::CodeBlock(stmts) => {
            assert_eq!(stmts.len(), 3);
            assert!(matches!(stmts[0], Expression::StoreLocalVariable { .. }));
            assert!(matches!(stmts[1], Expression::StoreLocalVariable { .. }));
            match &stmts[2] {
                Expression::Condition { condition, .. } => match condition.as_ref() {
                    Expression::BinaryExpression { op, .. } => assert_eq!(*op, '>'),
                    other => panic!("expected a comparison, got {:?}", discriminant_name(other)),
                },
                other => panic!("expected a conditional, got {:?}", discriminant_name(other)),
            }
        }
        other => panic!("expected a code block, got {:?}", discriminant_name(other)),
    }
    assert!(matches!(r.ty(), Ty::Float32));
}

#[test]
fn min_first_argument_table_widens_int() {
    let mut doc = Document::new();
    let (_cid, root) = doc.add_component("App".to_string(), false);
    doc.add_property(root, "n".to_string(), Ty::Int32);
    doc.add_property(root, "out".to_string(), Ty::Float32);
    doc.add_binding(
        root,
        "out".to_string(),
        binding(SyntaxExpr::FunctionCall {
            exprs: vec![qname(&["min"]), qname(&["n"]), qname(&["n"])],
            span: sp(),
        }),
    );
    let mut diag = BuildDiagnostics::new();
    resolve_expressions(&mut doc, &mut diag);
    assert_eq!(diag.len(), 0);
    let (_, expr) = doc.binding_at(root, 0);
    assert!(matches!(expr.ty(), Ty::Float32));
}

#[test]
fn two_way_binding_to_same_typed_property() {
    let mut doc = Document::new();
    let (_cid, root) = doc.add_component("App".to_string(), false);
    doc.add_property(root, "a".to_string(), Ty::Length);
    doc.add_property(root, "b".to_string(), Ty::Length);
    doc.add_binding(
        root,
        "a".to_string(),
        UnresolvedNode::TwoWayBinding { expr: qname(&["b"]), span: sp() },
    );
    let mut diag = BuildDiagnostics::new();
    resolve_expressions(&mut doc, &mut diag);
    assert_eq!(diag.len(), 0);
    let (_, expr) = doc.binding_at(root, 0);
    match expr {
        Expression::TwoWayBinding { nr, ty } => {
            assert_eq!(nr.name, "b");
            assert!(matches!(ty, Ty::Length));
        }
        other => panic!("expected a two-way binding, got {:?}", discriminant_name(other)),
    }
}

#[test]
fn two_way_binding_type_mismatch_is_diagnosed() {
    let mut doc = Document::new();
    let (_cid, root) = doc.add_component("App".to_string(), false);
    doc.add_property(root, "a".to_string(), Ty::Length);
    doc.add_property(root, "c".to_string(), Ty::Color);
    doc.add_binding(
        root,
        "a".to_string(),
        UnresolvedNode::TwoWayBinding { expr: qname(&["c"]), span: sp() },
    );
    let mut diag = BuildDiagnostics::new();
    resolve_expressions(&mut doc, &mut diag);
    assert_eq!(diag.len(), 1);
    let (_, expr) = doc.binding_at(root, 0);
    assert!(matches!(expr, Expression::TwoWayBinding { .. }));
}

#[test]
fn two_way_binding_to_literal_is_structural_error() {
    let mut doc = Document::new();
    let (_cid, root) = doc.add_component("App".to_string(), false);
    doc.add_property(root, "a".to_string(), Ty::Length);
    doc.add_binding(
        root,
        "a".to_string(),
        UnresolvedNode::TwoWayBinding { expr: number("1"), span: sp() },
    );
    let mut diag = BuildDiagnostics::new();
    resolve_expressions(&mut doc, &mut diag);
    assert_eq!(diag.len(), 1);
    let (_, expr) = doc.binding_at(root, 0);
    assert!(matches!(expr, Expression::NumberLiteral(..)));
}

#[test]
fn second_run_of_the_pass_changes_nothing() {
    let mut doc = Document::new();
    let (_cid, root) = doc.add_component("App".to_string(), false);
    doc.add_property(root, "w".to_string(), Ty::Length);
    doc.add_property(root, "width".to_string(), Ty::Length);
    doc.add_binding(root, "width".to_string(), binding(qname(&["w"])));
    doc.add_binding(root, "w".to_string(), binding(number("12phx")));
    let mut diag = BuildDiagnostics::new();
    resolve_expressions(&mut doc, &mut diag);
    let after_first = diag.len();
    resolve_expressions(&mut doc, &mut diag);
    assert_eq!(diag.len(), after_first);
    let (_, expr) = doc.binding_at(root, 0);
    assert!(matches!(expr, Expression::PropertyReference { .. }));
    let (_, expr) = doc.binding_at(root, 1);
    assert!(matches!(expr, Expression::NumberLiteral(..)));
}

#[test]
fn named_color_resolves_to_packed_value() {
    let mut doc = Document::new();
    let (_cid, root) = doc.add_component("App".to_string(), false);
    doc.add_property(root, "col".to_string(), Ty::Color);
    doc.add_property(root, "ghost_col".to_string(), Ty::Color);
    doc.add_binding(root, "col".to_string(), binding(qname(&["red"])));
    doc.add_binding(root, "ghost_col".to_string(), binding(qname(&["transparent"])));
    let mut diag = BuildDiagnostics::new();
    resolve_expressions(&mut doc, &mut diag);
    assert_eq!(diag.len(), 0);
    let (_, expr) = doc.binding_at(root, 0);
    match expr {
        Expression::Cast { from, to } => {
            assert!(matches!(to, Ty::Color));
            match from.as_ref() {
                Expression::NumberLiteral(v, Unit::Plain) => {
                    assert_eq!(v.mantissa, 0xffff0000u64);
                    assert_eq!(v.scale, 0);
                }
                other => panic!("expected a packed number, got {:?}", discriminant_name(other)),
            }
        }
        other => panic!("expected a cast to color, got {:?}", discriminant_name(other)),
    }
    let (_, expr) = doc.binding_at(root, 1);
    match expr {
        Expression::Cast { from, .. } => match from.as_ref() {
            Expression::NumberLiteral(v, _) => assert_eq!(v.mantissa, 0),
            other => panic!("expected a packed number, got {:?}", discriminant_name(other)),
        },
        other => panic!("expected a cast to color, got {:?}", discriminant_name(other)),
    }
}

#[test]
fn unknown_identifier_suggests_subtraction() {
    let mut doc = Document::new();
    let (_cid, root) = doc.add_component("App".to_string(), false);
    doc.add_property(root, "w".to_string(), Ty::Length);
    doc.add_property(root, "width".to_string(), Ty::Length);
    doc.add_binding(root, "width".to_string(), binding(qname(&["w-2"])));
    let mut diag = BuildDiagnostics::new();
    resolve_expressions(&mut doc, &mut diag);
    assert_eq!(diag.len(), 1);
    assert!(matches!(doc.binding_at(root, 0).1, Expression::Invalid));
    let message = &diag.entry(0).message;
    assert!(message.contains("w-2"));
    assert!(message.contains("subtraction"));
}

#[test]
fn unknown_identifier_is_diagnosed() {
    let mut doc = Document::new();
    let (_cid, root) = doc.add_component("App".to_string(), false);
    doc.add_property(root, "width".to_string(), Ty::Length);
    doc.add_binding(root, "width".to_string(), binding(qname(&["nonsense"])));
    let mut diag = BuildDiagnostics::new();
    resolve_expressions(&mut doc, &mut diag);
    assert_eq!(diag.len(), 1);
    assert!(diag.entry(0).message.contains("Unknown unqualified identifier 'nonsense'"));
}

#[test]
fn easing_keywords_and_cubic_bezier() {
    let mut doc = Document::new();
    let (_cid, root) = doc.add_component("App".to_string(), false);
    doc.add_property(root, "anim".to_string(), Ty::Easing);
    doc.add_property(root, "anim2".to_string(), Ty::Easing);
    doc.add_binding(root, "anim".to_string(), binding(qname(&["ease"])));
    doc.add_binding(
        root,
        "anim2".to_string(),
        binding(SyntaxExpr::FunctionCall {
            exprs: vec![
                qname(&["cubic_bezier"]),
                number("0.1"),
                number("0.2"),
                number("0.3"),
                number("0.4"),
            ],
            span: sp(),
        }),
    );
    let mut diag = BuildDiagnostics::new();
    resolve_expressions(&mut doc, &mut diag);
    assert_eq!(diag.len(), 0);
    match &doc.binding_at(root, 0).1 {
        Expression::EasingCurve(EasingCurve::CubicBezier(a, b, c, d)) => {
            assert_eq!((a.mantissa, a.scale), (25, 2));
            assert_eq!((b.mantissa, b.scale), (1, 1));
            assert_eq!((c.mantissa, c.scale), (25, 2));
            assert_eq!((d.mantissa, d.scale), (1, 0));
        }
        other => panic!("expected the ease curve, got {:?}", discriminant_name(&other)),
    }
    match &doc.binding_at(root, 1).1 {
        Expression::EasingCurve(EasingCurve::CubicBezier(a, ..)) => {
            assert_eq!((a.mantissa, a.scale), (1, 1));
        }
        other => panic!("expected a bezier curve, got {:?}", discriminant_name(&other)),
    }
}

#[test]
fn cubic_bezier_wrong_arity_is_diagnosed() {
    let mut doc = Document::new();
    let (_cid, root) = doc.add_component("App".to_string(), false);
    doc.add_property(root, "anim".to_string(), Ty::Easing);
    doc.add_binding(
        root,
        "anim".to_string(),
        binding(SyntaxExpr::FunctionCall {
            exprs: vec![qname(&["cubic_bezier"]), number("0.1")],
            span: sp(),
        }),
    );
    let mut diag = BuildDiagnostics::new();
    resolve_expressions(&mut doc, &mut diag);
    assert_eq!(diag.len(), 1);
    assert!(diag.entry(0).message.contains("Not enough arguments"));
    assert!(matches!(doc.binding_at(root, 0).1, Expression::EasingCurve(..)));
}

#[test]
fn enumeration_value_resolves_by_context() {
    let mut doc = Document::new();
    let (_cid, root) = doc.add_component("App".to_string(), false);
    let alignment = Ty::Enumeration(Box::new(Enumeration {
        name: "Alignment".to_string(),
        values: vec!["left".to_string(), "right".to_string()],
    }));
    doc.add_property(root, "align".to_string(), alignment);
    doc.add_binding(root, "align".to_string(), binding(qname(&["right"])));
    let mut diag = BuildDiagnostics::new();
    resolve_expressions(&mut doc, &mut diag);
    assert_eq!(diag.len(), 0);
    match &doc.binding_at(root, 0).1 {
        Expression::EnumerationValue { value_index, .. } => assert_eq!(*value_index, 1),
        other => panic!("expected an enumeration value, got {:?}", discriminant_name(&other)),
    }
}

#[test]
fn id_lookup_reaches_other_element_property() {
    let mut doc = Document::new();
    let (_cid, root) = doc.add_component("App".to_string(), false);
    doc.add_property(root, "a".to_string(), Ty::Length);
    let child = doc.add_element(root, "other".to_string());
    doc.add_property(child, "w".to_string(), Ty::Length);
    doc.add_binding(root, "a".to_string(), binding(qname(&["other", "w"])));
    let mut diag = BuildDiagnostics::new();
    resolve_expressions(&mut doc, &mut diag);
    assert_eq!(diag.len(), 0);
    match &doc.binding_at(root, 0).1 {
        Expression::PropertyReference { nr, .. } => {
            assert_eq!(nr.element, child);
            assert_eq!(nr.name, "w");
        }
        other => panic!("expected a property reference, got {:?}", discriminant_name(&other)),
    }
}

#[test]
fn string_member_function_call() {
    let mut doc = Document::new();
    let (_cid, root) = doc.add_component("App".to_string(), false);
    doc.add_property(root, "t".to_string(), Ty::String);
    doc.add_property(root, "isf".to_string(), Ty::Bool);
    doc.add_binding(
        root,
        "isf".to_string(),
        binding(SyntaxExpr::FunctionCall {
            exprs: vec![qname(&["t", "is_float"])],
            span: sp(),
        }),
    );
    let mut diag = BuildDiagnostics::new();
    resolve_expressions(&mut doc, &mut diag);
    assert_eq!(diag.len(), 0);
    match &doc.binding_at(root, 0).1 {
        Expression::FunctionCall { function, arguments } => {
            assert!(matches!(
                function.as_ref(),
                Expression::BuiltinFunctionReference(BuiltinFunction::StringIsFloat)
            ));
            assert_eq!(arguments.len(), 1);
            assert!(matches!(arguments[0], Expression::PropertyReference { .. }));
        }
        other => panic!("expected a member call, got {:?}", discriminant_name(&other)),
    }
}

#[test]
fn repeater_index_and_model_resolve() {
    let mut doc = Document::new();
    let (_cid, root) = doc.add_component("App".to_string(), false);
    doc.add_property(root, "model_source".to_string(), Ty::Array(Box::new(Ty::Float32)));
    let item = doc.add_element(root, "item".to_string());
    doc.add_property(item, "idx".to_string(), Ty::Int32);
    doc.add_property(item, "v".to_string(), Ty::Float32);
    doc.set_repeated(
        item,
        "i".to_string(),
        "m".to_string(),
        UnresolvedNode::Expression(qname(&["model_source"])),
    );
    doc.add_binding(item, "idx".to_string(), binding(qname(&["i"])));
    doc.add_binding(item, "v".to_string(), binding(qname(&["m"])));
    let mut diag = BuildDiagnostics::new();
    resolve_expressions(&mut doc, &mut diag);
    assert_eq!(diag.len(), 0);
    assert!(matches!(
        doc.binding_at(item, 0).1,
        Expression::RepeaterIndexReference { .. }
    ));
    match &doc.binding_at(item, 1).1 {
        Expression::RepeaterModelReference { ty, .. } => assert!(matches!(ty, Ty::Float32)),
        other => panic!("expected a model reference, got {:?}", discriminant_name(&other)),
    }
}

#[test]
fn object_literal_and_field_access() {
    let mut doc = Document::new();
    let (_cid, root) = doc.add_component("App".to_string(), false);
    doc.add_property(
        root,
        "o".to_string(),
        Ty::Object { fields: vec![("x".to_string(), Ty::Float32)], name: None },
    );
    doc.add_property(root, "ox".to_string(), Ty::Float32);
    doc.add_binding(
        root,
        "o".to_string(),
        binding(SyntaxExpr::ObjectLiteral {
            members: vec![("x".to_string(), number("1"))],
            span: sp(),
        }),
    );
    doc.add_binding(root, "ox".to_string(), binding(qname(&["o", "x"])));
    let mut diag = BuildDiagnostics::new();
    resolve_expressions(&mut doc, &mut diag);
    assert_eq!(diag.len(), 0);
    assert!(matches!(doc.binding_at(root, 0).1, Expression::Object { .. }));
    match &doc.binding_at(root, 1).1 {
        Expression::ObjectAccess { name, .. } => assert_eq!(name, "x"),
        other => panic!("expected a field access, got {:?}", discriminant_name(other)),
    }
}

#[test]
fn rgb_call_converts_arguments() {
    let mut doc = Document::new();
    let (_cid, root) = doc.add_component("App".to_string(), false);
    doc.add_property(root, "col".to_string(), Ty::Color);
    doc.add_binding(
        root,
        "col".to_string(),
        binding(SyntaxExpr::FunctionCall {
            exprs: vec![qname(&["rgb"]), number("1"), number("2"), number("3")],
            span: sp(),
        }),
    );
    let mut diag = BuildDiagnostics::new();
    resolve_expressions(&mut doc, &mut diag);
    assert_eq!(diag.len(), 0);
    match &doc.binding_at(root, 0).1 {
        Expression::FunctionCall { arguments, .. } => {
            assert_eq!(arguments.len(), 3);
            assert!(matches!(arguments[0], Expression::Cast { .. }));
        }
        other => panic!("expected a builtin call, got {:?}", discriminant_name(&other)),
    }
}

#[test]
fn global_singleton_lookup() {
    let mut doc = Document::new();
    let (_cid, root) = doc.add_component("App".to_string(), false);
    let (gid, groot) = doc.add_component("Theme".to_string(), true);
    doc.add_property(groot, "accent".to_string(), Ty::Color);
    doc.register_type("Theme".to_string(), Ty::Component(gid));
    doc.add_property(root, "col".to_string(), Ty::Color);
    doc.add_binding(root, "col".to_string(), binding(qname(&["Theme", "accent"])));
    let mut diag = BuildDiagnostics::new();
    resolve_expressions(&mut doc, &mut diag);
    assert_eq!(diag.len(), 0);
    match &doc.binding_at(root, 0).1 {
        Expression::PropertyReference { nr, .. } => {
            assert_eq!(nr.element, groot);
            assert_eq!(nr.name, "accent");
        }
        other => panic!("expected the global's property, got {:?}", discriminant_name(&other)),
    }
}

#[test]
fn arithmetic_keeps_units() {
    let mut doc = Document::new();
    let (_cid, root) = doc.add_component("App".to_string(), false);
    doc.add_property(root, "w".to_string(), Ty::Length);
    doc.add_property(root, "total".to_string(), Ty::Length);
    doc.add_property(root, "ratio".to_string(), Ty::Float32);
    doc.add_binding(
        root,
        "total".to_string(),
        binding(SyntaxExpr::BinaryExpression {
            lhs: Box::new(qname(&["w"])),
            rhs: Box::new(number("2phx")),
            op: '+',
            span: sp(),
        }),
    );
    doc.add_binding(
        root,
        "ratio".to_string(),
        binding(SyntaxExpr::BinaryExpression {
            lhs: Box::new(qname(&["w"])),
            rhs: Box::new(number("2phx")),
            op: '/',
            span: sp(),
        }),
    );
    let mut diag = BuildDiagnostics::new();
    resolve_expressions(&mut doc, &mut diag);
    assert_eq!(diag.len(), 0);
    assert!(matches!(doc.binding_at(root, 0).1.ty(), Ty::Length));
    assert!(matches!(doc.binding_at(root, 1).1.ty(), Ty::Float32));
}

#[test]
fn unsupported_binding_kind_is_diagnosed() {
    let mut doc = Document::new();
    let (_cid, root) = doc.add_component("App".to_string(), false);
    doc.add_property(root, "w".to_string(), Ty::Length);
    doc.add_binding(
        root,
        "w".to_string(),
        UnresolvedNode::CodeBlock { statements: vec![], span: sp() },
    );
    let mut diag = BuildDiagnostics::new();
    resolve_expressions(&mut doc, &mut diag);
    assert_eq!(diag.len(), 1);
    assert!(matches!(doc.binding_at(root, 0).1, Expression::Invalid));
}

#[test]
fn incompatible_conversion_degrades_to_invalid() {
    let mut doc = Document::new();
    let (_cid, root) = doc.add_component("App".to_string(), false);
    doc.add_property(root, "w".to_string(), Ty::Length);
    doc.add_binding(
        root,
        "w".to_string(),
        binding(SyntaxExpr::StringLiteral { text: "\"zzz\"".to_string(), span: sp() }),
    );
    let mut diag = BuildDiagnostics::new();
    resolve_expressions(&mut doc, &mut diag);
    assert_eq!(diag.len(), 1);
    assert!(matches!(doc.binding_at(root, 0).1, Expression::Invalid));
}


#[test]
fn unary_and_conditional_resolve() {
    let mut doc = Document::new();
    let (_cid, root) = doc.add_component("App".to_string(), false);
    doc.add_property(root, "f".to_string(), Ty::Float32);
    doc.add_property(root, "flag".to_string(), Ty::Bool);
    doc.add_binding(
        root,
        "f".to_string(),
        binding(SyntaxExpr::Conditional {
            condition: Box::new(qname(&["flag"])),
            true_expr: Box::new(SyntaxExpr::UnaryOp {
                sub: Box::new(number("1")),
                op: '-',
                span: sp(),
            }),
            false_expr: Box::new(number("2")),
            span: sp(),
        }),
    );
    let mut diag = BuildDiagnostics::new();
    resolve_expressions(&mut doc, &mut diag);
    assert_eq!(diag.len(), 0);
    match &doc.binding_at(root, 0).1 {
        Expression::Condition { condition, true_expr, .. } => {
            assert!(matches!(condition.as_ref(), Expression::PropertyReference { .. }));
            match true_expr.as_ref() {
                Expression::UnaryOp { op, .. } => assert_eq!(*op, '-'),
                other => panic!("expected a negation, got {:?}", discriminant_name(other)),
            }
        }
        other => panic!("expected a conditional, got {:?}", discriminant_name(other)),
    }
}

#[test]
fn self_assignment_requires_a_property() {
    let mut doc = Document::new();
    let (_cid, root) = doc.add_component("App".to_string(), false);
    doc.add_property(root, "w".to_string(), Ty::Length);
    doc.add_property(
        root,
        "clicked".to_string(),
        Ty::Callback { args: vec![] },
    );
    doc.add_binding(
        root,
        "clicked".to_string(),
        UnresolvedNode::CallbackConnection {
            arguments: vec![],
            statements: vec![SyntaxExpr::SelfAssignment {
                lhs: Box::new(qname(&["w"])),
                rhs: Box::new(number("1phx")),
                op: '+',
                span: sp(),
            }],
            span: sp(),
        },
    );
    let mut diag = BuildDiagnostics::new();
    resolve_expressions(&mut doc, &mut diag);
    assert_eq!(diag.len(), 0);
    match &doc.binding_at(root, 0).1 {
        Expression::CodeBlock(stmts) => match &stmts[0] {
            Expression::SelfAssignment { lhs, op, .. } => {
                assert_eq!(*op, '+');
                assert!(matches!(lhs.as_ref(), Expression::PropertyReference { .. }));
            }
            other => panic!("expected a self assignment, got {:?}", discriminant_name(other)),
        },
        other => panic!("expected a code block, got {:?}", discriminant_name(other)),
    }
}

#[test]
fn self_assignment_to_literal_is_diagnosed() {
    let mut doc = Document::new();
    let (_cid, root) = doc.add_component("App".to_string(), false);
    doc.add_property(
        root,
        "clicked".to_string(),
        Ty::Callback { args: vec![] },
    );
    doc.add_binding(
        root,
        "clicked".to_string(),
        UnresolvedNode::CallbackConnection {
            arguments: vec![],
            statements: vec![SyntaxExpr::SelfAssignment {
                lhs: Box::new(number("1")),
                rhs: Box::new(number("2")),
                op: '=',
                span: sp(),
            }],
            span: sp(),
        },
    );
    let mut diag = BuildDiagnostics::new();
    resolve_expressions(&mut doc, &mut diag);
    assert_eq!(diag.len(), 1);
    assert!(diag.entry(0).message.contains("property"));
}

#[test]
fn img_bang_keeps_the_written_path() {
    let mut doc = Document::new();
    let (_cid, root) = doc.add_component("App".to_string(), false);
    doc.add_property(root, "icon".to_string(), Ty::Resource);
    doc.add_binding(
        root,
        "icon".to_string(),
        binding(SyntaxExpr::BangExpression {
            keyword: Some("img".to_string()),
            argument: Some(Box::new(SyntaxExpr::StringLiteral {
                text: "\"icons/ok.png\"".to_string(),
                span: sp(),
            })),
            span: sp(),
        }),
    );
    let mut diag = BuildDiagnostics::new();
    resolve_expressions(&mut doc, &mut diag);
    assert_eq!(diag.len(), 0);
    match &doc.binding_at(root, 0).1 {
        Expression::ResourceReference { absolute_source_path } => {
            assert_eq!(absolute_source_path, "icons/ok.png");
        }
        other => panic!("expected a resource reference, got {:?}", discriminant_name(other)),
    }
}

#[test]
fn unknown_bang_keyword_is_diagnosed() {
    let mut doc = Document::new();
    let (_cid, root) = doc.add_component("App".to_string(), false);
    doc.add_property(root, "icon".to_string(), Ty::Resource);
    doc.add_binding(
        root,
        "icon".to_string(),
        binding(SyntaxExpr::BangExpression {
            keyword: Some("video".to_string()),
            argument: None,
            span: sp(),
        }),
    );
    let mut diag = BuildDiagnostics::new();
    resolve_expressions(&mut doc, &mut diag);
    assert_eq!(diag.len(), 1);
    assert!(diag.entry(0).message.contains("Unknown bang keyword"));
    assert!(matches!(doc.binding_at(root, 0).1, Expression::Invalid));
}

#[test]
fn homogeneous_array_takes_common_element_type() {
    let mut doc = Document::new();
    let (_cid, root) = doc.add_component("App".to_string(), false);
    doc.add_property(root, "xs".to_string(), Ty::Array(Box::new(Ty::Float32)));
    doc.add_binding(
        root,
        "xs".to_string(),
        binding(SyntaxExpr::Array { values: vec![number("1"), number("2")], span: sp() }),
    );
    let mut diag = BuildDiagnostics::new();
    resolve_expressions(&mut doc, &mut diag);
    assert_eq!(diag.len(), 0);
    match &doc.binding_at(root, 0).1 {
        Expression::Array { element_ty, values } => {
            assert!(matches!(element_ty, Ty::Float32));
            assert_eq!(values.len(), 2);
        }
        other => panic!("expected an array, got {:?}", discriminant_name(other)),
    }
}

#[test]
fn incompatible_array_elements_are_diagnosed() {
    let mut doc = Document::new();
    let (_cid, root) = doc.add_component("App".to_string(), false);
    doc.add_property(root, "xs".to_string(), Ty::Array(Box::new(Ty::Float32)));
    doc.add_binding(
        root,
        "xs".to_string(),
        binding(SyntaxExpr::Array {
            values: vec![
                number("1"),
                SyntaxExpr::StringLiteral { text: "\"x\"".to_string(), span: sp() },
            ],
            span: sp(),
        }),
    );
    let mut diag = BuildDiagnostics::new();
    resolve_expressions(&mut doc, &mut diag);
    assert!(diag.len() >= 1);
}

#[test]
fn call_arity_mismatch_is_diagnosed() {
    let mut doc = Document::new();
    let (_cid, root) = doc.add_component("App".to_string(), false);
    doc.add_property(root, "col".to_string(), Ty::Color);
    doc.add_binding(
        root,
        "col".to_string(),
        binding(SyntaxExpr::FunctionCall {
            exprs: vec![qname(&["rgb"]), number("1"), number("2")],
            span: sp(),
        }),
    );
    let mut diag = BuildDiagnostics::new();
    resolve_expressions(&mut doc, &mut diag);
    assert_eq!(diag.len(), 1);
    assert!(diag.entry(0).message.contains("number of arguments"));
}

#[test]
fn parser_gap_resolves_without_extra_diagnostics() {
    let mut doc = Document::new();
    let (_cid, root) = doc.add_component("App".to_string(), false);
    doc.add_property(root, "w".to_string(), Ty::Invalid);
    doc.add_binding(root, "w".to_string(), binding(SyntaxExpr::Missing { span: sp() }));
    let mut diag = BuildDiagnostics::new();
    resolve_expressions(&mut doc, &mut diag);
    assert_eq!(diag.len(), 0);
    assert!(matches!(doc.binding_at(root, 0).1, Expression::Invalid));
}


#[test]
fn non_repeated_ancestor_is_not_in_scope() {
    let mut doc = Document::new();
    let (_cid, root) = doc.add_component("App".to_string(), false);
    doc.add_property(root, "w".to_string(), Ty::Length);
    let middle = doc.add_element(root, "middle".to_string());
    doc.add_property(middle, "m".to_string(), Ty::Length);
    let leaf = doc.add_element(middle, "leaf".to_string());
    doc.add_property(leaf, "width".to_string(), Ty::Length);
    doc.add_binding(leaf, "width".to_string(), binding(qname(&["m"])));
    let mut diag = BuildDiagnostics::new();
    resolve_expressions(&mut doc, &mut diag);
    // `m` lives on a non-repeated intermediate element: only the
    // component root, repeated ancestors and the element itself are in
    // scope, so the name is unknown.
    assert_eq!(diag.len(), 1);
    assert!(diag.entry(0).message.contains("Unknown unqualified identifier 'm'"));
    assert!(matches!(doc.binding_at(leaf, 0).1, Expression::Invalid));
}

#[test]
fn repeated_ancestor_stays_in_scope() {
    let mut doc = Document::new();
    let (_cid, root) = doc.add_component("App".to_string(), false);
    doc.add_property(root, "model_source".to_string(), Ty::Array(Box::new(Ty::Float32)));
    let row = doc.add_element(root, "row".to_string());
    doc.add_property(row, "r".to_string(), Ty::Length);
    doc.set_repeated(
        row,
        "i".to_string(),
        "m".to_string(),
        UnresolvedNode::Expression(qname(&["model_source"])),
    );
    let leaf = doc.add_element(row, "leaf".to_string());
    doc.add_property(leaf, "width".to_string(), Ty::Length);
    doc.add_binding(leaf, "width".to_string(), binding(qname(&["r"])));
    let mut diag = BuildDiagnostics::new();
    resolve_expressions(&mut doc, &mut diag);
    assert_eq!(diag.len(), 0);
    match &doc.binding_at(leaf, 0).1 {
        Expression::PropertyReference { nr, .. } => assert_eq!(nr.element, row),
        other => panic!("expected the repeated row's property, got {:?}", discriminant_name(other)),
    }
}

fn discriminant_name(e: &Expression) -> &'static str {
    match e {
        Expression::Invalid => "Invalid",
        Expression::Uncompiled(..) => "Uncompiled",
        Expression::StringLiteral(..) => "StringLiteral",
        Expression::NumberLiteral(..) => "NumberLiteral",
        Expression::BoolLiteral(..) => "BoolLiteral",
        Expression::PropertyReference { .. } => "PropertyReference",
        Expression::CallbackReference { .. } => "CallbackReference",
        Expression::FunctionReference { .. } => "FunctionReference",
        Expression::BuiltinFunctionReference(..) => "BuiltinFunctionReference",
        Expression::BuiltinMacroReference(..) => "BuiltinMacroReference",
        Expression::ElementReference(..) => "ElementReference",
        Expression::RepeaterIndexReference { .. } => "RepeaterIndexReference",
        Expression::RepeaterModelReference { .. } => "RepeaterModelReference",
        Expression::FunctionParameterReference { .. } => "FunctionParameterReference",
        Expression::MemberFunction { .. } => "MemberFunction",
        Expression::StoreLocalVariable { .. } => "StoreLocalVariable",
        Expression::ReadLocalVariable { .. } => "ReadLocalVariable",
        Expression::ObjectAccess { .. } => "ObjectAccess",
        Expression::Cast { .. } => "Cast",
        Expression::CodeBlock(..) => "CodeBlock",
        Expression::FunctionCall { .. } => "FunctionCall",
        Expression::SelfAssignment { .. } => "SelfAssignment",
        Expression::BinaryExpression { .. } => "BinaryExpression",
        Expression::UnaryOp { .. } => "UnaryOp",
        Expression::ResourceReference { .. } => "ResourceReference",
        Expression::Condition { .. } => "Condition",
        Expression::Array { .. } => "Array",
        Expression::Object { .. } => "Object",
        Expression::EasingCurve(..) => "EasingCurve",
        Expression::EnumerationValue { .. } => "EnumerationValue",
        Expression::TwoWayBinding { .. } => "TwoWayBinding",
    }
}
