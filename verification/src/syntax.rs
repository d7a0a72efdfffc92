use vstd::prelude::*;
use crate::diagnostics::Span;

verus! {

/// One expression exactly as the parser hands it over: identifier tokens
/// still raw, literals still text, nothing resolved or typed yet.
pub enum SyntaxExpr {
    /// A dotted name `first.second.rest`, one raw token per segment.
    QualifiedName { parts: Vec<String>, span: Span },
    StringLiteral { text: String, span: Span },
    NumberLiteral { text: String, span: Span },
    ColorLiteral { text: String, span: Span },
    /// `keyword!argument`; the keyword may be missing on parser recovery.
    BangExpression { keyword: Option<String>, argument: Option<Box<SyntaxExpr>>, span: Span },
    /// The first entry is the called expression, the rest the arguments.
    FunctionCall { exprs: Vec<SyntaxExpr>, span: Span },
    SelfAssignment { lhs: Box<SyntaxExpr>, rhs: Box<SyntaxExpr>, op: char, span: Span },
    BinaryExpression { lhs: Box<SyntaxExpr>, rhs: Box<SyntaxExpr>, op: char, span: Span },
    UnaryOp { sub: Box<SyntaxExpr>, op: char, span: Span },
    Conditional {
        condition: Box<SyntaxExpr>,
        true_expr: Box<SyntaxExpr>,
        false_expr: Box<SyntaxExpr>,
        span: Span,
    },
    ObjectLiteral { members: Vec<(String, SyntaxExpr)>, span: Span },
    Array { values: Vec<SyntaxExpr>, span: Span },
    CodeBlock { statements: Vec<SyntaxExpr>, span: Span },
    /// A parenthesized inner expression.
    Group { inner: Box<SyntaxExpr>, span: Span },
    /// Nothing the parser could recognize; it has already reported it.
    Missing { span: Span },
}

impl SyntaxExpr {
    pub fn span(&self) -> (r: Span) {
        match self {
            SyntaxExpr::QualifiedName { span, .. } => *span,
            SyntaxExpr::StringLiteral { span, .. } => *span,
            SyntaxExpr::NumberLiteral { span, .. } => *span,
            SyntaxExpr::ColorLiteral { span, .. } => *span,
            SyntaxExpr::BangExpression { span, .. } => *span,
            SyntaxExpr::FunctionCall { span, .. } => *span,
            SyntaxExpr::SelfAssignment { span, .. } => *span,
            SyntaxExpr::BinaryExpression { span, .. } => *span,
            SyntaxExpr::UnaryOp { span, .. } => *span,
            SyntaxExpr::Conditional { span, .. } => *span,
            SyntaxExpr::ObjectLiteral { span, .. } => *span,
            SyntaxExpr::Array { span, .. } => *span,
            SyntaxExpr::CodeBlock { span, .. } => *span,
            SyntaxExpr::Group { span, .. } => *span,
            SyntaxExpr::Missing { span } => *span,
        }
    }
}

/// A region the parser itself already reported: resolving it yields the
/// invalid marker without a second diagnostic, because one error has
/// been recorded for it before the pass ran.
pub open spec fn parser_reported(e: SyntaxExpr) -> bool
    decreases e,
{
    ||| e is Missing
    ||| (e matches SyntaxExpr::Group { inner, .. } && parser_reported(*inner))
}

/// What a property binding holds before the pass has run: a raw syntax
/// node with the kind tag the parser gave it.
pub enum UnresolvedNode {
    /// A plain expression, as used for repeater models.
    Expression(SyntaxExpr),
    /// A `property: expression;` or `property: { code }` binding.
    BindingExpression { inner: Option<SyntaxExpr>, span: Span },
    /// A block of statements used directly as a binding.
    CodeBlock { statements: Vec<SyntaxExpr>, span: Span },
    /// `callback => { code }`, with the declared argument names.
    CallbackConnection { arguments: Vec<String>, statements: Vec<SyntaxExpr>, span: Span },
    /// `property <=> other.property;`
    TwoWayBinding { expr: SyntaxExpr, span: Span },
}

/// Binding nodes whose degradation to the invalid marker is already
/// covered by a parser diagnostic: a reported expression region, or a
/// binding with no expression at all.
pub open spec fn node_parser_reported(n: UnresolvedNode) -> bool {
    match n {
        UnresolvedNode::Expression(e) => parser_reported(e),
        UnresolvedNode::BindingExpression { inner, .. } => match inner {
            Option::Some(e) => parser_reported(e),
            Option::None => true,
        },
        UnresolvedNode::CodeBlock { .. } => false,
        UnresolvedNode::CallbackConnection { .. } => false,
        UnresolvedNode::TwoWayBinding { expr, .. } => parser_reported(expr),
    }
}

impl UnresolvedNode {
    pub fn span(&self) -> (r: Span) {
        match self {
            UnresolvedNode::Expression(e) => e.span(),
            UnresolvedNode::BindingExpression { span, .. } => *span,
            UnresolvedNode::CodeBlock { span, .. } => *span,
            UnresolvedNode::CallbackConnection { span, .. } => *span,
            UnresolvedNode::TwoWayBinding { span, .. } => *span,
        }
    }
}

} // verus!
