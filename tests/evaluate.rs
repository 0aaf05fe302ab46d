use leo_constraints::ast::{Expression, RangeOrExpression, SpreadOrExpression, StructMember};
use leo_constraints::gadgets::{Constraint, Gadget};
use leo_constraints::program::ResolvedProgram;
use leo_constraints::semantics::{EvalError, Feature, Operator, ValueKind};
use leo_constraints::symbols::{ConstraintLog, SymbolTable};
use leo_constraints::values::{FunctionDefinition, ResolvedValue, StructDefinition, StructField};
use std::rc::Rc;

const FILE: &str = "main";
const FUNCTION: &str = "main::f";

fn lit(n: u32) -> Expression {
    Expression::Integer(n)
}

fn fe(n: u64) -> Expression {
    Expression::FieldElement(n)
}

fn var(name: &str) -> Expression {
    Expression::Variable(name.to_string())
}

fn bx(e: Expression) -> Box<Expression> {
    Box::new(e)
}

fn u32_array(values: &[u32]) -> ResolvedValue {
    ResolvedValue::Array(values.iter().map(|v| ResolvedValue::U32(Gadget::Constant(*v))).collect())
}

fn eval_with(
    global: &SymbolTable,
    local: &SymbolTable,
    e: &Expression,
) -> (Result<ResolvedValue, EvalError>, Vec<Constraint>) {
    let program = ResolvedProgram::new(global, local);
    let mut cs = ConstraintLog::new();
    let r = program.enforce_expression(&mut cs, &FILE.to_string(), &FUNCTION.to_string(), e);
    (r, cs.constraints)
}

fn eval_empty(e: &Expression) -> (Result<ResolvedValue, EvalError>, Vec<Constraint>) {
    eval_with(&SymbolTable::new(), &SymbolTable::new(), e)
}

fn as_u32(v: &ResolvedValue) -> u32 {
    match v {
        ResolvedValue::U32(Gadget::Constant(n)) => *n,
        _ => panic!("not a constant integer"),
    }
}

fn as_u32s(v: &ResolvedValue) -> Vec<u32> {
    match v {
        ResolvedValue::Array(vs) => vs.iter().map(as_u32).collect(),
        _ => panic!("not an array"),
    }
}

fn point_globals() -> SymbolTable {
    let mut global = SymbolTable::new();
    global.insert(
        "main::Point".to_string(),
        ResolvedValue::StructDefinition(StructDefinition {
            variable: "Point".to_string(),
            fields: vec![
                StructField { variable: "x".to_string(), declared_type: "u32".to_string() },
                StructField { variable: "y".to_string(), declared_type: "u32".to_string() },
            ],
        }),
    );
    global
}

fn point(first: (&str, u32), second: (&str, u32)) -> Expression {
    Expression::Struct(
        "Point".to_string(),
        vec![
            StructMember { variable: first.0.to_string(), expression: lit(first.1) },
            StructMember { variable: second.0.to_string(), expression: lit(second.1) },
        ],
    )
}

fn function_globals() -> SymbolTable {
    let mut global = SymbolTable::new();
    global.insert(
        "main::double".to_string(),
        ResolvedValue::Function(Rc::new(FunctionDefinition {
            function_name: "double".to_string(),
            parameters: vec!["a".to_string()],
            results: vec![Expression::Add(bx(var("a")), bx(var("a")))],
        })),
    );
    global.insert(
        "main::pair".to_string(),
        ResolvedValue::Function(Rc::new(FunctionDefinition {
            function_name: "pair".to_string(),
            parameters: vec!["a".to_string(), "b".to_string()],
            results: vec![var("b"), var("a")],
        })),
    );
    global.insert(
        "main::forever".to_string(),
        ResolvedValue::Function(Rc::new(FunctionDefinition {
            function_name: "forever".to_string(),
            parameters: vec![],
            results: vec![Expression::FunctionCall("forever".to_string(), vec![])],
        })),
    );
    global
}

#[test]
fn integer_addition_folds_and_adds_one_constraint() {
    let (r, log) = eval_empty(&Expression::Add(bx(lit(1)), bx(lit(2))));
    assert_eq!(as_u32(&r.unwrap()), 3);
    assert_eq!(log, vec![Constraint::U32Add]);
}

#[test]
fn field_multiplication_folds() {
    let (r, log) = eval_empty(&Expression::Mul(bx(fe(5)), bx(fe(7))));
    assert!(matches!(r, Ok(ResolvedValue::FieldElement(Gadget::Constant(35)))));
    assert_eq!(log, vec![Constraint::FieldMul]);
}

#[test]
fn spread_inlines_array_in_place() {
    let global = SymbolTable::new();
    let mut local = SymbolTable::new();
    local.insert("main::f::a".to_string(), u32_array(&[10, 20]));
    let e = Expression::Array(vec![
        SpreadOrExpression::Expression(lit(1)),
        SpreadOrExpression::Expression(lit(2)),
        SpreadOrExpression::Spread(var("a")),
        SpreadOrExpression::Expression(lit(4)),
    ]);
    let (r, log) = eval_with(&global, &local, &e);
    assert_eq!(as_u32s(&r.unwrap()), vec![1, 2, 10, 20, 4]);
    assert!(log.is_empty());
}

#[test]
fn slice_takes_half_open_range() {
    let global = SymbolTable::new();
    let mut local = SymbolTable::new();
    local.insert("main::f::a".to_string(), u32_array(&[0, 1, 2, 3, 4]));
    let e = Expression::ArrayAccess(bx(var("a")), Box::new(RangeOrExpression::Range(Some(1), Some(3))));
    let (r, _) = eval_with(&global, &local, &e);
    assert_eq!(as_u32s(&r.unwrap()), vec![1, 2]);
}

#[test]
fn if_else_skips_untaken_branch() {
    let e = Expression::IfElse(
        bx(Expression::Boolean(true)),
        bx(Expression::Add(bx(lit(1)), bx(lit(2)))),
        bx(Expression::Mul(bx(var("crash")), bx(Expression::FunctionCall("crash".to_string(), vec![])))),
    );
    let (r, log) = eval_empty(&e);
    assert_eq!(as_u32(&r.unwrap()), 3);
    assert_eq!(log, vec![Constraint::U32Add]);
}

#[test]
fn struct_member_access_returns_member() {
    let global = point_globals();
    let local = SymbolTable::new();
    let e = Expression::StructMemberAccess(bx(point(("x", 1), ("y", 2))), "y".to_string());
    let (r, _) = eval_with(&global, &local, &e);
    assert_eq!(as_u32(&r.unwrap()), 2);
}

#[test]
fn struct_members_out_of_order_fail() {
    let global = point_globals();
    let local = SymbolTable::new();
    let (r, _) = eval_with(&global, &local, &point(("y", 2), ("x", 1)));
    assert!(matches!(r, Err(EvalError::StructFieldMismatch)));
}

#[test]
fn struct_with_missing_member_fails() {
    let global = point_globals();
    let local = SymbolTable::new();
    let e = Expression::Struct(
        "Point".to_string(),
        vec![StructMember { variable: "x".to_string(), expression: lit(1) }],
    );
    let (r, _) = eval_with(&global, &local, &e);
    assert!(matches!(r, Err(EvalError::StructFieldMismatch)));
}

#[test]
fn local_binding_shadows_global() {
    let mut global = SymbolTable::new();
    global.insert("main::n".to_string(), ResolvedValue::U32(Gadget::Constant(1)));
    let mut local = SymbolTable::new();
    local.insert("main::f::n".to_string(), ResolvedValue::U32(Gadget::Constant(2)));
    let (r, _) = eval_with(&global, &local, &var("n"));
    assert_eq!(as_u32(&r.unwrap()), 2);
    let (r, _) = eval_with(&global, &SymbolTable::new(), &var("n"));
    assert_eq!(as_u32(&r.unwrap()), 1);
}

#[test]
fn unknown_name_fails() {
    let (r, _) = eval_empty(&var("missing"));
    assert_eq!(r.err(), Some(EvalError::UnknownName("missing".to_string())));
}

#[test]
fn mixed_operands_are_a_type_mismatch() {
    let (r, log) = eval_empty(&Expression::Add(bx(lit(1)), bx(fe(2))));
    assert_eq!(r.err(), Some(EvalError::TypeMismatch(Operator::Add, ValueKind::U32, ValueKind::FieldElement)));
    assert!(log.is_empty());
    let (r, _) = eval_empty(&Expression::Div(bx(fe(1)), bx(Expression::Boolean(true))));
    assert_eq!(r.err(), Some(EvalError::TypeMismatch(Operator::Div, ValueKind::FieldElement, ValueKind::Boolean)));
    let (r, _) = eval_empty(&Expression::Pow(bx(fe(1)), bx(Expression::Boolean(true))));
    assert_eq!(r.err(), Some(EvalError::TypeMismatch(Operator::Pow, ValueKind::FieldElement, ValueKind::Boolean)));
    let (r, _) = eval_empty(&Expression::And(bx(lit(1)), bx(Expression::Boolean(true))));
    assert_eq!(r.err(), Some(EvalError::TypeMismatch(Operator::And, ValueKind::U32, ValueKind::Boolean)));
    let (r, _) = eval_empty(&Expression::Not(bx(lit(1))));
    assert_eq!(r.err(), Some(EvalError::ExpectedBoolean(ValueKind::U32)));
}

#[test]
fn field_exponent_is_refused() {
    let (r, _) = eval_empty(&Expression::Pow(bx(lit(2)), bx(fe(3))));
    assert!(matches!(r, Err(EvalError::NonIntegerExponent)));
    let (r, _) = eval_empty(&Expression::Pow(bx(fe(2)), bx(fe(3))));
    assert!(matches!(r, Err(EvalError::NonIntegerExponent)));
}

#[test]
fn field_power_by_integer() {
    let (r, log) = eval_empty(&Expression::Pow(bx(fe(3)), bx(lit(4))));
    assert!(matches!(r, Ok(ResolvedValue::FieldElement(Gadget::Constant(81)))));
    assert_eq!(log, vec![Constraint::FieldPow]);
}

#[test]
fn integer_arithmetic_wraps() {
    let (r, _) = eval_empty(&Expression::Sub(bx(lit(1)), bx(lit(2))));
    assert_eq!(as_u32(&r.unwrap()), u32::MAX);
    let (r, _) = eval_empty(&Expression::Pow(bx(lit(2)), bx(lit(33))));
    assert_eq!(as_u32(&r.unwrap()), 0);
    let (r, _) = eval_empty(&Expression::Div(bx(lit(7)), bx(lit(2))));
    assert_eq!(as_u32(&r.unwrap()), 3);
}

#[test]
fn division_by_zero_fails() {
    let (r, log) = eval_empty(&Expression::Div(bx(lit(7)), bx(lit(0))));
    assert!(matches!(r, Err(EvalError::DivisionByZero)));
    assert!(log.is_empty());
    let (r, _) = eval_empty(&Expression::Div(bx(fe(7)), bx(fe(65521))));
    assert!(matches!(r, Err(EvalError::DivisionByZero)));
}

#[test]
fn field_division_inverts_multiplication() {
    let (r, log) = eval_empty(&Expression::Div(bx(fe(35)), bx(fe(7))));
    assert!(matches!(r, Ok(ResolvedValue::FieldElement(Gadget::Constant(5)))));
    assert_eq!(log, vec![Constraint::FieldDiv]);
    let (r, _) = eval_empty(&Expression::Div(bx(fe(1)), bx(fe(2))));
    assert!(matches!(r, Ok(ResolvedValue::FieldElement(Gadget::Constant(32761)))));
}

#[test]
fn field_subtraction_wraps_around_modulus() {
    let (r, _) = eval_empty(&Expression::Sub(bx(fe(1)), bx(fe(2))));
    assert!(matches!(r, Ok(ResolvedValue::FieldElement(Gadget::Constant(65520)))));
}

#[test]
fn constraints_follow_post_order() {
    let e = Expression::Mul(
        bx(Expression::Add(bx(lit(1)), bx(lit(2)))),
        bx(Expression::Sub(bx(lit(5)), bx(lit(4)))),
    );
    let (r, log) = eval_empty(&e);
    assert_eq!(as_u32(&r.unwrap()), 3);
    assert_eq!(log, vec![Constraint::U32Add, Constraint::U32Sub, Constraint::U32Mul]);
}

#[test]
fn equality_adds_no_constraint() {
    let (r, log) = eval_empty(&Expression::Eq(bx(lit(3)), bx(Expression::Add(bx(lit(1)), bx(lit(2))))));
    assert!(matches!(r, Ok(ResolvedValue::Boolean(Gadget::Constant(true)))));
    assert_eq!(log, vec![Constraint::U32Add]);
    let (r, _) = eval_empty(&Expression::Eq(bx(fe(1)), bx(fe(65522))));
    assert!(matches!(r, Ok(ResolvedValue::Boolean(Gadget::Constant(true)))));
    let (r, _) = eval_empty(&Expression::Eq(bx(lit(1)), bx(Expression::Boolean(true))));
    assert_eq!(r.err(), Some(EvalError::TypeMismatch(Operator::Eq, ValueKind::U32, ValueKind::Boolean)));
}

#[test]
fn boolean_operators() {
    let t = || bx(Expression::Boolean(true));
    let f = || bx(Expression::Boolean(false));
    let (r, log) = eval_empty(&Expression::And(t(), f()));
    assert!(matches!(r, Ok(ResolvedValue::Boolean(Gadget::Constant(false)))));
    assert_eq!(log, vec![Constraint::BooleanAnd]);
    let (r, log) = eval_empty(&Expression::Or(t(), f()));
    assert!(matches!(r, Ok(ResolvedValue::Boolean(Gadget::Constant(true)))));
    assert_eq!(log, vec![Constraint::BooleanOr]);
    let (r, log) = eval_empty(&Expression::Not(f()));
    assert!(matches!(r, Ok(ResolvedValue::Boolean(Gadget::Constant(true)))));
    assert!(log.is_empty());
}

#[test]
fn comparisons_are_unimplemented() {
    let (r, _) = eval_empty(&Expression::Lt(bx(lit(1)), bx(lit(2))));
    assert!(matches!(r, Err(EvalError::Unimplemented(Feature::Comparison))));
    let (r, _) = eval_empty(&Expression::Geq(bx(lit(1)), bx(lit(2))));
    assert!(matches!(r, Err(EvalError::Unimplemented(Feature::Comparison))));
}

#[test]
fn witness_guard_is_unimplemented() {
    let global = SymbolTable::new();
    let mut local = SymbolTable::new();
    local.insert("main::f::c".to_string(), ResolvedValue::Boolean(Gadget::Witness(Some(true))));
    let e = Expression::IfElse(bx(var("c")), bx(lit(1)), bx(lit(2)));
    let (r, _) = eval_with(&global, &local, &e);
    assert!(matches!(r, Err(EvalError::Unimplemented(Feature::DynamicIf))));
    let e = Expression::IfElse(bx(lit(1)), bx(lit(1)), bx(lit(2)));
    let (r, _) = eval_empty(&e);
    assert_eq!(r.err(), Some(EvalError::ExpectedBoolean(ValueKind::U32)));
}

#[test]
fn false_guard_takes_else_branch() {
    let e = Expression::IfElse(bx(Expression::Boolean(false)), bx(var("crash")), bx(lit(9)));
    let (r, log) = eval_empty(&e);
    assert_eq!(as_u32(&r.unwrap()), 9);
    assert!(log.is_empty());
}

#[test]
fn array_index_and_errors() {
    let global = SymbolTable::new();
    let mut local = SymbolTable::new();
    local.insert("main::f::a".to_string(), u32_array(&[5, 6, 7]));
    local.insert("main::f::w".to_string(), ResolvedValue::U32(Gadget::Witness(None)));
    let at = |i: Expression| Expression::ArrayAccess(bx(var("a")), Box::new(RangeOrExpression::Expression(i)));
    let (r, _) = eval_with(&global, &local, &at(Expression::Add(bx(lit(1)), bx(lit(1)))));
    assert_eq!(as_u32(&r.unwrap()), 7);
    let (r, _) = eval_with(&global, &local, &at(lit(3)));
    assert!(matches!(r, Err(EvalError::IndexOutOfRange)));
    let (r, _) = eval_with(&global, &local, &at(fe(1)));
    assert!(matches!(r, Err(EvalError::NonIntegerIndex)));
    let (r, _) = eval_with(&global, &local, &at(var("w")));
    assert!(matches!(r, Err(EvalError::NonIntegerIndex)));
    let e = Expression::ArrayAccess(bx(lit(1)), Box::new(RangeOrExpression::Range(None, None)));
    let (r, _) = eval_with(&global, &local, &e);
    assert!(matches!(r, Err(EvalError::NotAnArray)));
}

#[test]
fn slice_bounds() {
    let global = SymbolTable::new();
    let mut local = SymbolTable::new();
    local.insert("main::f::a".to_string(), u32_array(&[0, 1, 2, 3, 4]));
    let slice = |from: Option<u32>, to: Option<u32>| {
        Expression::ArrayAccess(bx(var("a")), Box::new(RangeOrExpression::Range(from, to)))
    };
    let (r, _) = eval_with(&global, &local, &slice(None, None));
    assert_eq!(as_u32s(&r.unwrap()), vec![0, 1, 2, 3, 4]);
    let (r, _) = eval_with(&global, &local, &slice(Some(3), None));
    assert_eq!(as_u32s(&r.unwrap()), vec![3, 4]);
    let (r, _) = eval_with(&global, &local, &slice(Some(2), Some(2)));
    assert_eq!(as_u32s(&r.unwrap()), Vec::<u32>::new());
    let (r, _) = eval_with(&global, &local, &slice(Some(3), Some(2)));
    assert!(matches!(r, Err(EvalError::IndexOutOfRange)));
    let (r, _) = eval_with(&global, &local, &slice(None, Some(6)));
    assert!(matches!(r, Err(EvalError::IndexOutOfRange)));
}

#[test]
fn spread_of_whole_array_is_identity() {
    let global = SymbolTable::new();
    let mut local = SymbolTable::new();
    local.insert("main::f::a".to_string(), u32_array(&[3, 1, 4]));
    let e = Expression::Array(vec![SpreadOrExpression::Spread(var("a"))]);
    let (r, _) = eval_with(&global, &local, &e);
    assert_eq!(as_u32s(&r.unwrap()), vec![3, 1, 4]);
}

#[test]
fn spread_errors() {
    let global = SymbolTable::new();
    let mut local = SymbolTable::new();
    local.insert("main::f::n".to_string(), ResolvedValue::U32(Gadget::Constant(1)));
    let e = Expression::Array(vec![SpreadOrExpression::Spread(var("n"))]);
    let (r, _) = eval_with(&global, &local, &e);
    assert!(matches!(r, Err(EvalError::SpreadOfNonArray)));
    let e = Expression::Array(vec![SpreadOrExpression::Spread(lit(1))]);
    let (r, _) = eval_with(&global, &local, &e);
    assert!(matches!(r, Err(EvalError::SpreadOfNonArray)));
}

#[test]
fn struct_errors() {
    let mut global = point_globals();
    global.insert("main::Value".to_string(), ResolvedValue::U32(Gadget::Constant(0)));
    let local = SymbolTable::new();
    let e = Expression::Struct("Line".to_string(), vec![]);
    let (r, _) = eval_with(&global, &local, &e);
    assert!(matches!(r, Err(EvalError::UnknownStruct)));
    let e = Expression::Struct("Value".to_string(), vec![]);
    let (r, _) = eval_with(&global, &local, &e);
    assert!(matches!(r, Err(EvalError::NotAStruct)));
    let e = Expression::StructMemberAccess(bx(point(("x", 1), ("y", 2))), "z".to_string());
    let (r, _) = eval_with(&global, &local, &e);
    assert!(matches!(r, Err(EvalError::UnknownStructMember)));
    let e = Expression::StructMemberAccess(bx(lit(1)), "x".to_string());
    let (r, _) = eval_with(&global, &local, &e);
    assert!(matches!(r, Err(EvalError::NotAStruct)));
}

#[test]
fn single_return_is_unwrapped() {
    let global = function_globals();
    let local = SymbolTable::new();
    let e = Expression::FunctionCall("double".to_string(), vec![lit(21)]);
    let (r, log) = eval_with(&global, &local, &e);
    assert_eq!(as_u32(&r.unwrap()), 42);
    assert_eq!(log, vec![Constraint::U32Add]);
}

#[test]
fn multiple_returns_stay_together() {
    let global = function_globals();
    let local = SymbolTable::new();
    let e = Expression::FunctionCall("pair".to_string(), vec![lit(1), lit(2)]);
    let (r, _) = eval_with(&global, &local, &e);
    match r {
        Ok(ResolvedValue::Return(vs)) => assert_eq!(vs.iter().map(as_u32).collect::<Vec<u32>>(), vec![2, 1]),
        _ => panic!("expected a return value"),
    }
}

#[test]
fn call_errors() {
    let mut global = function_globals();
    global.insert("main::k".to_string(), ResolvedValue::U32(Gadget::Constant(0)));
    let local = SymbolTable::new();
    let (r, _) = eval_with(&global, &local, &Expression::FunctionCall("nothing".to_string(), vec![]));
    assert!(matches!(r, Err(EvalError::UnknownFunction)));
    let (r, _) = eval_with(&global, &local, &Expression::FunctionCall("k".to_string(), vec![]));
    assert!(matches!(r, Err(EvalError::NotAFunction)));
    let (r, _) = eval_with(&global, &local, &Expression::FunctionCall("double".to_string(), vec![]));
    assert!(matches!(r, Err(EvalError::ArgumentCountMismatch)));
    let (r, _) = eval_with(&global, &local, &Expression::FunctionCall("forever".to_string(), vec![]));
    assert!(matches!(r, Err(EvalError::CallDepthExceeded)));
}

#[test]
fn large_exponents() {
    let (r, _) = eval_empty(&Expression::Pow(bx(lit(3)), bx(lit(4_000_000_000))));
    assert_eq!(as_u32(&r.unwrap()), 1_818_370_049);
    let (r, _) = eval_empty(&Expression::Pow(bx(fe(2)), bx(lit(65520))));
    assert!(matches!(r, Ok(ResolvedValue::FieldElement(Gadget::Constant(1)))));
    let (r, _) = eval_empty(&Expression::Pow(bx(fe(7)), bx(lit(u32::MAX))));
    assert!(matches!(r, Ok(ResolvedValue::FieldElement(Gadget::Constant(7036)))));
}

#[test]
fn witness_operands_give_witness_results() {
    let global = SymbolTable::new();
    let mut local = SymbolTable::new();
    local.insert("main::f::w".to_string(), ResolvedValue::U32(Gadget::Witness(Some(5))));
    local.insert("main::f::u".to_string(), ResolvedValue::U32(Gadget::Witness(None)));
    let (r, log) = eval_with(&global, &local, &Expression::Add(bx(var("w")), bx(lit(1))));
    assert!(matches!(r, Ok(ResolvedValue::U32(Gadget::Witness(Some(6))))));
    assert_eq!(log, vec![Constraint::U32Add]);
    let (r, _) = eval_with(&global, &local, &Expression::Mul(bx(var("u")), bx(lit(1))));
    assert!(matches!(r, Ok(ResolvedValue::U32(Gadget::Witness(None)))));
    let (r, _) = eval_with(&global, &local, &Expression::Div(bx(var("w")), bx(lit(0))));
    assert!(matches!(r, Ok(ResolvedValue::U32(Gadget::Witness(None)))));
}

#[test]
fn later_binding_hides_earlier() {
    let mut local = SymbolTable::new();
    local.insert("main::f::n".to_string(), ResolvedValue::U32(Gadget::Constant(1)));
    local.insert("main::f::n".to_string(), ResolvedValue::U32(Gadget::Constant(8)));
    let (r, _) = eval_with(&SymbolTable::new(), &local, &var("n"));
    assert_eq!(as_u32(&r.unwrap()), 8);
}

#[test]
fn enforcing_equality_adds_constraint_and_returns_true() {
    let global = SymbolTable::new();
    let local = SymbolTable::new();
    let program = ResolvedProgram::new(&global, &local);
    let mut cs = ConstraintLog::new();
    let r = program.enforce_eq_expression(
        &mut cs,
        ResolvedValue::U32(Gadget::Witness(None)),
        ResolvedValue::U32(Gadget::Witness(None)),
    );
    assert!(matches!(r, Ok(ResolvedValue::Boolean(Gadget::Constant(true)))));
    let r = program.enforce_eq_expression(
        &mut cs,
        ResolvedValue::FieldElement(Gadget::Constant(1)),
        ResolvedValue::FieldElement(Gadget::Constant(2)),
    );
    assert!(matches!(r, Ok(ResolvedValue::Boolean(Gadget::Constant(true)))));
    let r = program.enforce_eq_expression(
        &mut cs,
        ResolvedValue::Boolean(Gadget::Constant(true)),
        ResolvedValue::U32(Gadget::Constant(1)),
    );
    assert_eq!(r.err(), Some(EvalError::TypeMismatch(Operator::Eq, ValueKind::Boolean, ValueKind::U32)));
    assert_eq!(cs.constraints, vec![Constraint::U32Eq, Constraint::FieldEq]);
}
