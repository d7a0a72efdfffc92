use vstd::prelude::*;
use crate::diagnostics::Span;
use crate::ident::str_eq;
use crate::langtype::Enumeration;
use crate::langtype::Ty;
use crate::langtype::TyM;
use crate::langtype::clone_strings;
use crate::langtype::clone_ty;
use crate::langtype::lemma_pairs_seq_view;
use crate::langtype::lemma_tys_seq_view;
use crate::langtype::pairs_vec_view;
use crate::langtype::spec_is_unit_type;
use crate::langtype::strs_view;
use crate::langtype::ty_view;
use crate::langtype::tys_seq_view;
use crate::langtype::tys_vec_view;
use crate::literals::NumberValue;
use crate::literals::Unit;
use crate::syntax::UnresolvedNode;

verus! {

broadcast use vstd::std_specs::vec::group_vec_axioms;

/// A non-owning reference to a named property or callback of an element:
/// the element's handle in the document arena and the property name.
pub struct NamedReference {
    pub element: usize,
    pub name: String,
}

impl NamedReference {
    pub fn clone_ref(&self) -> (r: NamedReference)
        ensures
            r.element == self.element,
            r.name@ == self.name@,
    {
        NamedReference { element: self.element, name: self.name.clone() }
    }
}

/// An animation easing curve; the four numbers are cubic Bezier control
/// coordinates.
#[derive(Clone, Copy, PartialEq, Eq, Structural, Debug)]
pub enum EasingCurve {
    Linear,
    CubicBezier(NumberValue, NumberValue, NumberValue, NumberValue),
}

/// The builtin global and member functions.
#[derive(Clone, Copy, PartialEq, Eq, Structural, Debug)]
pub enum BuiltinFunction {
    Debug,
    Mod,
    Round,
    Ceil,
    Floor,
    Rgb,
    StringIsFloat,
    StringToFloat,
}

/// The builtin macros, which are lowered at resolution time instead of
/// being called.
#[derive(Clone, Copy, PartialEq, Eq, Structural, Debug)]
pub enum BuiltinMacroFunction {
    Min,
    Max,
    CubicBezier,
}

#[derive(Clone, Copy, PartialEq, Eq, Structural, Debug)]
pub enum OperatorClass {
    ComparisonOp,
    LogicalOp,
    ArithmeticOp,
}

/// The class an operator character belongs to.  Comparisons yield `Bool`,
/// logical operators force boolean operands, arithmetic follows the unit
/// table.
pub open spec fn spec_operator_class(op: char) -> OperatorClass {
    if op == '=' || op == '!' || op == '<' || op == '>' || op == '\u{2264}' || op == '\u{2265}' {
        OperatorClass::ComparisonOp
    } else if op == '&' || op == '|' {
        OperatorClass::LogicalOp
    } else {
        OperatorClass::ArithmeticOp
    }
}

#[verifier::when_used_as_spec(spec_operator_class)]
pub fn operator_class(op: char) -> (r: OperatorClass)
    ensures
        r == spec_operator_class(op),
{
    if op == '=' || op == '!' || op == '<' || op == '>' || op == '\u{2264}' || op == '\u{2265}' {
        OperatorClass::ComparisonOp
    } else if op == '&' || op == '|' {
        OperatorClass::LogicalOp
    } else {
        OperatorClass::ArithmeticOp
    }
}

/// A fully resolved, typed expression.  Bindings hold `Uncompiled` before
/// the pass and never after it; `Invalid` marks a diagnosed error.
pub enum Expression {
    /// An error marker; a diagnostic has been recorded for it.
    Invalid,
    /// A raw syntax node that the pass has not processed yet.
    Uncompiled(UnresolvedNode),
    StringLiteral(String),
    NumberLiteral(NumberValue, Unit),
    BoolLiteral(bool),
    /// A reference to a property; `ty` is that property's declared type
    /// at the time the reference was built.
    PropertyReference { nr: NamedReference, ty: Ty },
    /// A reference to a callback; `ty` is its callback type.
    CallbackReference { nr: NamedReference, ty: Ty },
    /// A reference to a function-typed member of an element.
    FunctionReference { nr: NamedReference, ty: Ty },
    BuiltinFunctionReference(BuiltinFunction),
    /// A macro name before lowering; the span points at the name token.
    BuiltinMacroReference(BuiltinMacroFunction, Span),
    ElementReference(usize),
    /// The index of the enclosing repeater, by repeated element handle.
    RepeaterIndexReference { element: usize },
    /// The model data of the enclosing repeater.
    RepeaterModelReference { element: usize, ty: Ty },
    /// The argument at `index` of the enclosing callback.
    FunctionParameterReference { index: usize, ty: Ty },
    /// A member function bound to its receiver.
    MemberFunction { base: Box<Expression>, base_span: Span, member: Box<Expression> },
    /// Store into a local variable of a generated code block.
    StoreLocalVariable { name: String, value: Box<Expression> },
    /// Read a local variable of a generated code block.
    ReadLocalVariable { name: String, ty: Ty },
    /// Access a field of an object-typed base expression.
    ObjectAccess { base: Box<Expression>, name: String },
    Cast { from: Box<Expression>, to: Ty },
    /// Statements in order; the block's value is the last one's.
    CodeBlock(Vec<Expression>),
    FunctionCall { function: Box<Expression>, arguments: Vec<Expression> },
    SelfAssignment { lhs: Box<Expression>, rhs: Box<Expression>, op: char },
    BinaryExpression { lhs: Box<Expression>, rhs: Box<Expression>, op: char },
    UnaryOp { sub: Box<Expression>, op: char },
    ResourceReference { absolute_source_path: String },
    Condition {
        condition: Box<Expression>,
        true_expr: Box<Expression>,
        false_expr: Box<Expression>,
    },
    Array { element_ty: Ty, values: Vec<Expression> },
    Object { ty: Ty, values: Vec<(String, Expression)> },
    EasingCurve(EasingCurve),
    EnumerationValue { enumeration: Box<Enumeration>, value_index: usize },
    /// An alias to another property, established by `<=>`.
    TwoWayBinding { nr: NamedReference, ty: Ty },
}

/// The type of a builtin function.
pub open spec fn spec_builtin_function_ty(f: BuiltinFunction) -> TyM {
    match f {
        BuiltinFunction::Debug => TyM::Function {
            args: seq![TyM::String],
            ret: Box::new(TyM::Void),
        },
        BuiltinFunction::Mod => TyM::Function {
            args: seq![TyM::Float32, TyM::Float32],
            ret: Box::new(TyM::Float32),
        },
        BuiltinFunction::Round => TyM::Function {
            args: seq![TyM::Float32],
            ret: Box::new(TyM::Float32),
        },
        BuiltinFunction::Ceil => TyM::Function {
            args: seq![TyM::Float32],
            ret: Box::new(TyM::Float32),
        },
        BuiltinFunction::Floor => TyM::Function {
            args: seq![TyM::Float32],
            ret: Box::new(TyM::Float32),
        },
        BuiltinFunction::Rgb => TyM::Function {
            args: seq![TyM::Int32, TyM::Int32, TyM::Int32],
            ret: Box::new(TyM::Color),
        },
        BuiltinFunction::StringIsFloat => TyM::Function {
            args: seq![TyM::String],
            ret: Box::new(TyM::Bool),
        },
        BuiltinFunction::StringToFloat => TyM::Function {
            args: seq![TyM::String],
            ret: Box::new(TyM::Float32),
        },
    }
}

fn ty_list1(a: Ty) -> (r: Vec<Ty>)
    ensures
        tys_vec_view(r) == seq![a@],
{
    let mut v: Vec<Ty> = Vec::new();
    v.push(a);
    proof {
        lemma_tys_seq_view(v@);
        assert(tys_seq_view(v@) =~= seq![v@[0]@]);
    }
    v
}

fn ty_list2(a: Ty, b: Ty) -> (r: Vec<Ty>)
    ensures
        tys_vec_view(r) == seq![a@, b@],
{
    let ghost av = a@;
    let ghost bv = b@;
    let mut v: Vec<Ty> = Vec::new();
    v.push(a);
    v.push(b);
    proof {
        lemma_tys_seq_view(v@);
        assert(tys_seq_view(v@)[0] == ty_view(v@[0]));
        assert(tys_seq_view(v@)[1] == ty_view(v@[1]));
        assert(tys_seq_view(v@) =~= seq![av, bv]);
    }
    v
}

fn ty_list3(a: Ty, b: Ty, c: Ty) -> (r: Vec<Ty>)
    ensures
        tys_vec_view(r) == seq![a@, b@, c@],
{
    let ghost av = a@;
    let ghost bv = b@;
    let ghost cv = c@;
    let mut v: Vec<Ty> = Vec::new();
    v.push(a);
    v.push(b);
    v.push(c);
    proof {
        lemma_tys_seq_view(v@);
        assert(tys_seq_view(v@)[0] == ty_view(v@[0]));
        assert(tys_seq_view(v@)[1] == ty_view(v@[1]));
        assert(tys_seq_view(v@)[2] == ty_view(v@[2]));
        assert(tys_seq_view(v@) =~= seq![av, bv, cv]);
    }
    v
}

pub fn builtin_function_ty(f: BuiltinFunction) -> (r: Ty)
    ensures
        r@ == spec_builtin_function_ty(f),
{
    let r = match f {
        BuiltinFunction::Debug => Ty::Function {
            args: ty_list1(Ty::String),
            ret: Box::new(Ty::Void),
        },
        BuiltinFunction::Mod => Ty::Function {
            args: ty_list2(Ty::Float32, Ty::Float32),
            ret: Box::new(Ty::Float32),
        },
        BuiltinFunction::Round => Ty::Function {
            args: ty_list1(Ty::Float32),
            ret: Box::new(Ty::Float32),
        },
        BuiltinFunction::Ceil => Ty::Function {
            args: ty_list1(Ty::Float32),
            ret: Box::new(Ty::Float32),
        },
        BuiltinFunction::Floor => Ty::Function {
            args: ty_list1(Ty::Float32),
            ret: Box::new(Ty::Float32),
        },
        BuiltinFunction::Rgb => Ty::Function {
            args: ty_list3(Ty::Int32, Ty::Int32, Ty::Int32),
            ret: Box::new(Ty::Color),
        },
        BuiltinFunction::StringIsFloat => Ty::Function {
            args: ty_list1(Ty::String),
            ret: Box::new(Ty::Bool),
        },
        BuiltinFunction::StringToFloat => Ty::Function {
            args: ty_list1(Ty::String),
            ret: Box::new(Ty::Float32),
        },
    };
    proof {
        assert(ty_view(Ty::String) == TyM::String);
        assert(ty_view(Ty::Int32) == TyM::Int32);
        assert(ty_view(Ty::Float32) == TyM::Float32);
        assert(ty_view(Ty::Void) == TyM::Void);
        assert(ty_view(Ty::Bool) == TyM::Bool);
        assert(ty_view(Ty::Color) == TyM::Color);
        assert(r@ =~~= spec_builtin_function_ty(f));
    }
    r
}

/// The type a number literal carries, decided by its unit.
pub open spec fn spec_unit_ty(u: Unit) -> TyM {
    match u {
        Unit::Plain => TyM::Float32,
        Unit::Percent => TyM::Percent,
        Unit::Px => TyM::LogicalLength,
        Unit::Phx => TyM::Length,
        Unit::S => TyM::Duration,
        Unit::Ms => TyM::Duration,
    }
}

pub fn unit_ty(u: Unit) -> (r: Ty)
    ensures
        r@ == spec_unit_ty(u),
{
    match u {
        Unit::Plain => Ty::Float32,
        Unit::Percent => Ty::Percent,
        Unit::Px => Ty::LogicalLength,
        Unit::Phx => Ty::Length,
        Unit::S => Ty::Duration,
        Unit::Ms => Ty::Duration,
    }
}

/// The result type of an arithmetic operator, by the unit table: string
/// concatenation wins; a ratio of equal units is dimensionless; the unit
/// of the left operand is preserved otherwise; multiplying a number by a
/// unit keeps the unit; everything else is a plain number.
pub open spec fn spec_arith_result_ty(op: char, l: TyM, r: TyM) -> TyM {
    if op == '+' && (l == TyM::String || r == TyM::String) {
        TyM::String
    } else if spec_is_unit_type(l) && op == '/' && r == l {
        TyM::Float32
    } else if spec_is_unit_type(l) && (op == '+' || op == '-' || op == '*' || op == '/') {
        l
    } else if spec_is_unit_type(r) && op == '*' {
        r
    } else {
        TyM::Float32
    }
}

/// The result type of a binary operator.
pub open spec fn spec_binary_result_ty(op: char, l: TyM, r: TyM) -> TyM {
    match spec_operator_class(op) {
        OperatorClass::ComparisonOp => TyM::Bool,
        OperatorClass::LogicalOp => TyM::Bool,
        OperatorClass::ArithmeticOp => spec_arith_result_ty(op, l, r),
    }
}

/// The type of the named field of an object type, `Invalid` when absent.
pub open spec fn object_field_ty(fields: Seq<(Seq<char>, TyM)>, name: Seq<char>) -> TyM
    decreases fields.len(),
{
    if fields.len() == 0 {
        TyM::Invalid
    } else if fields[0].0 == name {
        fields[0].1
    } else {
        object_field_ty(fields.drop_first(), name)
    }
}

/// Whether an object type has the named field.
pub open spec fn object_has_field(fields: Seq<(Seq<char>, TyM)>, name: Seq<char>) -> bool
    decreases fields.len(),
{
    if fields.len() == 0 {
        false
    } else if fields[0].0 == name {
        true
    } else {
        object_has_field(fields.drop_first(), name)
    }
}

/// The type of a resolved expression.
pub open spec fn expr_ty(e: Expression) -> TyM
    decreases e,
{
    match e {
        Expression::Invalid => TyM::Invalid,
        Expression::Uncompiled(_) => TyM::Invalid,
        Expression::StringLiteral(_) => TyM::String,
        Expression::NumberLiteral(_, u) => spec_unit_ty(u),
        Expression::BoolLiteral(_) => TyM::Bool,
        Expression::PropertyReference { ty, .. } => ty@,
        Expression::CallbackReference { ty, .. } => ty@,
        Expression::FunctionReference { ty, .. } => ty@,
        Expression::BuiltinFunctionReference(f) => spec_builtin_function_ty(f),
        Expression::BuiltinMacroReference(_, _) => TyM::Invalid,
        Expression::ElementReference(_) => TyM::ElementReference,
        Expression::RepeaterIndexReference { .. } => TyM::Int32,
        Expression::RepeaterModelReference { ty, .. } => ty@,
        Expression::FunctionParameterReference { ty, .. } => ty@,
        Expression::MemberFunction { member, .. } => expr_ty(*member),
        Expression::StoreLocalVariable { .. } => TyM::Void,
        Expression::ReadLocalVariable { ty, .. } => ty@,
        Expression::ObjectAccess { base, name } => match expr_ty(*base) {
            TyM::Object { fields, .. } => object_field_ty(fields, name@),
            _ => TyM::Invalid,
        },
        Expression::Cast { to, .. } => to@,
        Expression::CodeBlock(stmts) => codeblock_vec_ty(stmts),
        Expression::FunctionCall { function, .. } => match expr_ty(*function) {
            TyM::Function { ret, .. } => *ret,
            TyM::Callback { .. } => TyM::Void,
            _ => TyM::Invalid,
        },
        Expression::SelfAssignment { .. } => TyM::Void,
        Expression::BinaryExpression { lhs, rhs, op } => spec_binary_result_ty(
            op,
            expr_ty(*lhs),
            expr_ty(*rhs),
        ),
        Expression::UnaryOp { sub, .. } => expr_ty(*sub),
        Expression::ResourceReference { .. } => TyM::Resource,
        Expression::Condition { true_expr, .. } => expr_ty(*true_expr),
        Expression::Array { element_ty, .. } => TyM::Array(Box::new(element_ty@)),
        Expression::Object { ty, .. } => ty@,
        Expression::EasingCurve(_) => TyM::Easing,
        Expression::EnumerationValue { enumeration, .. } => TyM::Enumeration(
            enumeration.name@,
            strs_view(enumeration.values@),
        ),
        Expression::TwoWayBinding { ty, .. } => ty@,
    }
}

/// The type of a code block held as a vector of statements.
pub open spec fn codeblock_vec_ty(stmts: Vec<Expression>) -> TyM
    decreases stmts,
{
    codeblock_seq_ty(stmts@)
}

/// A code block's value is its last statement's; an empty block is void.
pub open spec fn codeblock_seq_ty(stmts: Seq<Expression>) -> TyM
    decreases stmts,
{
    if stmts.len() == 0 {
        TyM::Void
    } else {
        expr_ty(stmts.last())
    }
}

/// Whether an expression denotes a writable location: only property
/// references can stand on the left of an assignment.
pub open spec fn spec_is_rw(e: Expression) -> bool {
    e is PropertyReference
}

impl Expression {
    /// Whether this expression can be assigned to.
    pub fn is_rw(&self) -> (r: bool)
        ensures
            r == spec_is_rw(*self),
    {
        match self {
            Expression::PropertyReference { .. } => true,
            _ => false,
        }
    }

    /// Compute this expression's type.
    #[verifier::loop_isolation(false)]
    pub fn ty(&self) -> (r: Ty)
        ensures
            r@ == expr_ty(*self),
        decreases self,
    {
        match self {
            Expression::Invalid => Ty::Invalid,
            Expression::Uncompiled(_) => Ty::Invalid,
            Expression::StringLiteral(_) => Ty::String,
            Expression::NumberLiteral(_, u) => unit_ty(*u),
            Expression::BoolLiteral(_) => Ty::Bool,
            Expression::PropertyReference { ty, .. } => clone_ty(ty),
            Expression::CallbackReference { ty, .. } => clone_ty(ty),
            Expression::FunctionReference { ty, .. } => clone_ty(ty),
            Expression::BuiltinFunctionReference(f) => builtin_function_ty(*f),
            Expression::BuiltinMacroReference(_, _) => Ty::Invalid,
            Expression::ElementReference(_) => Ty::ElementReference,
            Expression::RepeaterIndexReference { .. } => Ty::Int32,
            Expression::RepeaterModelReference { ty, .. } => clone_ty(ty),
            Expression::FunctionParameterReference { ty, .. } => clone_ty(ty),
            Expression::MemberFunction { member, .. } => member.ty(),
            Expression::StoreLocalVariable { .. } => Ty::Void,
            Expression::ReadLocalVariable { ty, .. } => clone_ty(ty),
            Expression::ObjectAccess { base, name } => {
                let base_ty = base.ty();
                let out = match base_ty {
                    Ty::Object { fields, .. } => field_ty_lookup(&fields, name.as_str()),
                    _ => Ty::Invalid,
                };
                proof {
                    assert(out@ == expr_ty(*self));
                }
                out
            },
            Expression::Cast { to, .. } => clone_ty(to),
            Expression::CodeBlock(stmts) => {
                let out = if stmts.len() == 0 {
                    Ty::Void
                } else {
                    stmts[stmts.len() - 1].ty()
                };
                proof {
                    assert(codeblock_vec_ty(*stmts) == codeblock_seq_ty(stmts@));
                    assert(out@ == expr_ty(*self));
                }
                out
            },
            Expression::FunctionCall { function, .. } => {
                let fty = function.ty();
                let out = match fty {
                    Ty::Function { ret, .. } => *ret,
                    Ty::Callback { .. } => Ty::Void,
                    _ => Ty::Invalid,
                };
                proof {
                    assert(out@ == expr_ty(*self));
                }
                out
            },
            Expression::SelfAssignment { .. } => Ty::Void,
            Expression::BinaryExpression { lhs, rhs, op } => {
                let lt = lhs.ty();
                let rt = rhs.ty();
                let out = binary_result_ty(*op, lt, rt);
                proof {
                    assert(out@ == expr_ty(*self));
                }
                out
            },
            Expression::UnaryOp { sub, .. } => sub.ty(),
            Expression::ResourceReference { .. } => Ty::Resource,
            Expression::Condition { true_expr, .. } => true_expr.ty(),
            Expression::Array { element_ty, .. } => {
                let out = Ty::Array(Box::new(clone_ty(element_ty)));
                proof {
                    assert(out@ =~~= expr_ty(*self));
                }
                out
            },
            Expression::Object { ty, .. } => clone_ty(ty),
            Expression::EasingCurve(_) => Ty::Easing,
            Expression::EnumerationValue { enumeration, .. } => {
                let out = Ty::Enumeration(
                    Box::new(
                        Enumeration {
                            name: enumeration.name.clone(),
                            values: clone_strings(&enumeration.values),
                        },
                    ),
                );
                proof {
                    assert(out@ =~~= expr_ty(*self));
                }
                out
            },
            Expression::TwoWayBinding { ty, .. } => clone_ty(ty),
        }
    }
}

/// The exec side of the binary-operator type table.
pub fn binary_result_ty(op: char, l: Ty, r: Ty) -> (res: Ty)
    ensures
        res@ == spec_binary_result_ty(op, l@, r@),
{
    match operator_class(op) {
        OperatorClass::ComparisonOp => Ty::Bool,
        OperatorClass::LogicalOp => Ty::Bool,
        OperatorClass::ArithmeticOp => {
            let l_string = match &l {
                Ty::String => true,
                _ => false,
            };
            let r_string = match &r {
                Ty::String => true,
                _ => false,
            };
            let l_unit = crate::langtype::is_unit_type(&l);
            let r_unit = crate::langtype::is_unit_type(&r);
            if op == '+' && (l_string || r_string) {
                Ty::String
            } else if l_unit && op == '/' && crate::langtype::ty_eq(&r, &l) {
                Ty::Float32
            } else if l_unit && (op == '+' || op == '-' || op == '*' || op == '/') {
                l
            } else if r_unit && op == '*' {
                r
            } else {
                Ty::Float32
            }
        },
    }
}

/// Find the named field's type in an object type's field list.
pub fn field_ty_lookup(fields: &Vec<(String, Ty)>, name: &str) -> (r: Ty)
    ensures
        r@ == object_field_ty(pairs_vec_view(*fields), name@),
{
    proof {
        lemma_pairs_seq_view(fields@);
        assert(fields@.subrange(0, fields@.len() as int) =~= fields@);
    }
    let n: usize = fields.len();
    let mut i: usize = 0;
    while i < n
        invariant
            i <= n,
            n == fields@.len(),
            forall|j: int| 0 <= j < i ==> (#[trigger] fields@[j]).0@ != name@,
            object_field_ty(pairs_vec_view(*fields), name@) == object_field_ty(
                pairs_seq_view_from(fields@, i as int),
                name@,
            ),
        decreases n - i,
    {
        if str_eq(fields[i].0.as_str(), name) {
            proof {
                lemma_pairs_seq_view_from_first(fields@, i as int);
            }
            return clone_ty(&fields[i].1);
        }
        proof {
            lemma_pairs_seq_view_from_step(fields@, i as int);
        }
        i += 1;
    }
    proof {
        lemma_pairs_seq_view_from_end(fields@);
    }
    Ty::Invalid
}

/// The model of the field list from position `i` on.
pub open spec fn pairs_seq_view_from(fs: Seq<(String, Ty)>, i: int) -> Seq<(Seq<char>, TyM)> {
    crate::langtype::pairs_seq_view(fs.subrange(i, fs.len() as int))
}

proof fn lemma_pairs_seq_view_from_first(fs: Seq<(String, Ty)>, i: int)
    requires
        0 <= i < fs.len(),
    ensures
        pairs_seq_view_from(fs, i).len() == fs.len() - i,
        pairs_seq_view_from(fs, i)[0] == crate::langtype::pair_view(fs[i]),
        object_field_ty(pairs_seq_view_from(fs, i), fs[i].0@) == ty_view(fs[i].1),
{
    lemma_pairs_seq_view(fs.subrange(i, fs.len() as int));
    let sub = fs.subrange(i, fs.len() as int);
    assert(sub[0] == fs[i]);
    let v = pairs_seq_view_from(fs, i);
    assert(v[0] == crate::langtype::pair_view(fs[i]));
    assert(object_field_ty(v, fs[i].0@) == v[0].1);
}

proof fn lemma_pairs_seq_view_from_step(fs: Seq<(String, Ty)>, i: int)
    requires
        0 <= i < fs.len(),
    ensures
        pairs_seq_view_from(fs, i).len() == fs.len() - i,
        pairs_seq_view_from(fs, i)[0] == crate::langtype::pair_view(fs[i]),
        pairs_seq_view_from(fs, i).drop_first() =~= pairs_seq_view_from(fs, i + 1),
{
    lemma_pairs_seq_view(fs.subrange(i, fs.len() as int));
    lemma_pairs_seq_view(fs.subrange(i + 1, fs.len() as int));
    let a = pairs_seq_view_from(fs, i);
    let b = pairs_seq_view_from(fs, i + 1);
    assert(fs.subrange(i, fs.len() as int)[0] == fs[i]);
    assert forall|j: int| 0 <= j < b.len() implies a.drop_first()[j] == b[j] by {
        assert(fs.subrange(i, fs.len() as int)[j + 1] == fs[j + i + 1]);
        assert(fs.subrange(i + 1, fs.len() as int)[j] == fs[j + i + 1]);
    }
}

proof fn lemma_pairs_seq_view_from_end(fs: Seq<(String, Ty)>)
    ensures
        pairs_seq_view_from(fs, fs.len() as int).len() == 0,
{
    lemma_pairs_seq_view(fs.subrange(fs.len() as int, fs.len() as int));
}

} // verus!
