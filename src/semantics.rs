//! The meaning of evaluation: what value an expression resolves to and which
//! constraints it adds, in the order they are added.
use vstd::prelude::*;
use crate::ast::{Expression, RangeOrExpression, SpreadOrExpression, StructMember};
use crate::gadgets::{
    and_spec, boolean_eq_spec, field_eq_spec, field_gadget_spec, field_pow_gadget_spec, not_spec,
    or_spec, word_eq_spec, word_gadget_spec, ArithOp, Constraint, Gadget, FIELD_MODULUS,
};
use crate::symbols::{lookup_entry, lookup_model, scoped, Bindings, SymbolTable};
use crate::values::{field_names, ResolvedValue, Value};

verus! {

/// Features that are recognised but not supported.
#[derive(Clone, Copy, Debug, PartialEq, Eq)]
pub enum Feature {
    Comparison,
    DynamicIf,
}

/// The operators whose operands are checked for their kind.
#[derive(Clone, Copy, Debug, PartialEq, Eq)]
pub enum Operator {
    Add,
    Sub,
    Mul,
    Div,
    Pow,
    And,
    Or,
    Eq,
}

/// The variant of a resolved value, as reported in diagnostics.
#[derive(Clone, Copy, Debug, PartialEq, Eq)]
pub enum ValueKind {
    U32,
    FieldElement,
    Boolean,
    Array,
    StructDefinition,
    StructExpression,
    Function,
    Return,
}

pub open spec fn kind(v: Value) -> ValueKind {
    match v {
        Value::U32(_) => ValueKind::U32,
        Value::FieldElement(_) => ValueKind::FieldElement,
        Value::Boolean(_) => ValueKind::Boolean,
        Value::Array(_) => ValueKind::Array,
        Value::StructDefinition(_, _) => ValueKind::StructDefinition,
        Value::StructExpression(_, _) => ValueKind::StructExpression,
        Value::Function(_) => ValueKind::Function,
        Value::Return(_) => ValueKind::Return,
    }
}

pub open spec fn arith_operator(op: ArithOp) -> Operator {
    match op {
        ArithOp::Add => Operator::Add,
        ArithOp::Sub => Operator::Sub,
        ArithOp::Mul => Operator::Mul,
        ArithOp::Div => Operator::Div,
        ArithOp::Pow => Operator::Pow,
    }
}

/// The operator applied to values of these kinds.
pub open spec fn mismatch(op: Operator, l: Value, r: Value) -> EvalError {
    EvalError::TypeMismatch(op, kind(l), kind(r))
}

#[derive(Clone, Debug, PartialEq, Eq)]
pub enum EvalError {
    /// No local or global binding of the named variable.
    UnknownName(String),
    UnknownFunction,
    UnknownStruct,
    UnknownStructMember,
    /// An operator applied to operands of these kinds.
    TypeMismatch(Operator, ValueKind, ValueKind),
    /// A negation or a conditional guard of this kind, which is not boolean.
    ExpectedBoolean(ValueKind),
    NonIntegerExponent,
    NonIntegerIndex,
    NotAStruct,
    NotAFunction,
    NotAnArray,
    SpreadOfNonArray,
    StructFieldMismatch,
    IndexOutOfRange,
    DivisionByZero,
    ArgumentCountMismatch,
    CallDepthExceeded,
    Unimplemented(Feature),
}

/// A result and the constraint log after it.
pub type Outcome<T> = (Result<T, EvalError>, Seq<Constraint>);

pub open spec fn word_constraint(op: ArithOp) -> Constraint {
    match op {
        ArithOp::Add => Constraint::U32Add,
        ArithOp::Sub => Constraint::U32Sub,
        ArithOp::Mul => Constraint::U32Mul,
        ArithOp::Div => Constraint::U32Div,
        ArithOp::Pow => Constraint::U32Pow,
    }
}

pub open spec fn field_constraint(op: ArithOp) -> Constraint {
    match op {
        ArithOp::Add => Constraint::FieldAdd,
        ArithOp::Sub => Constraint::FieldSub,
        ArithOp::Mul => Constraint::FieldMul,
        ArithOp::Div => Constraint::FieldDiv,
        ArithOp::Pow => Constraint::FieldPow,
    }
}

/// Arithmetic dispatch: the resulting value and the constraint it adds.
pub open spec fn arith_spec(op: ArithOp, l: Value, r: Value) -> Result<(Value, Constraint), EvalError> {
    match (l, r) {
        (Value::U32(a), Value::U32(b)) => match word_gadget_spec(op, a, b) {
            Ok(g) => Ok((Value::U32(g), word_constraint(op))),
            Err(_) => Err(EvalError::DivisionByZero),
        },
        (Value::FieldElement(a), Value::FieldElement(b)) => if op == ArithOp::Pow {
            Err(EvalError::NonIntegerExponent)
        } else {
            match field_gadget_spec(op, a, b) {
                Ok(g) => Ok((Value::FieldElement(g), field_constraint(op))),
                Err(_) => Err(EvalError::DivisionByZero),
            }
        },
        (Value::FieldElement(a), Value::U32(b)) => if op == ArithOp::Pow {
            Ok((Value::FieldElement(field_pow_gadget_spec(a, b)), Constraint::FieldPow))
        } else {
            Err(mismatch(arith_operator(op), l, r))
        },
        (_, Value::FieldElement(_)) => if op == ArithOp::Pow {
            Err(EvalError::NonIntegerExponent)
        } else {
            Err(mismatch(arith_operator(op), l, r))
        },
        _ => Err(mismatch(arith_operator(op), l, r)),
    }
}

/// Equality in its evaluating form: a boolean, with no constraint.
pub open spec fn eq_value_spec(l: Value, r: Value) -> Result<Value, EvalError> {
    match (l, r) {
        (Value::Boolean(a), Value::Boolean(b)) => Ok(Value::Boolean(boolean_eq_spec(a, b))),
        (Value::U32(a), Value::U32(b)) => Ok(Value::Boolean(word_eq_spec(a, b))),
        (Value::FieldElement(a), Value::FieldElement(b)) => Ok(Value::Boolean(field_eq_spec(a, b))),
        _ => Err(mismatch(Operator::Eq, l, r)),
    }
}

/// Equality in its enforcing form: the equality constraint is added and the
/// result is the constant `true`.
pub open spec fn enforce_eq_spec(l: Value, r: Value) -> Result<(Value, Constraint), EvalError> {
    match (l, r) {
        (Value::Boolean(_), Value::Boolean(_)) => Ok((Value::Boolean(Gadget::Constant(true)), Constraint::BooleanEq)),
        (Value::U32(_), Value::U32(_)) => Ok((Value::Boolean(Gadget::Constant(true)), Constraint::U32Eq)),
        (Value::FieldElement(_), Value::FieldElement(_)) => Ok((Value::Boolean(Gadget::Constant(true)), Constraint::FieldEq)),
        _ => Err(mismatch(Operator::Eq, l, r)),
    }
}

pub open spec fn logic_spec(is_and: bool, l: Value, r: Value) -> Result<(Value, Constraint), EvalError> {
    match (l, r) {
        (Value::Boolean(a), Value::Boolean(b)) => if is_and {
            Ok((Value::Boolean(and_spec(a, b)), Constraint::BooleanAnd))
        } else {
            Ok((Value::Boolean(or_spec(a, b)), Constraint::BooleanOr))
        },
        _ => Err(mismatch(if is_and { Operator::And } else { Operator::Or }, l, r)),
    }
}

/// Adds the constraint of a successful operation to the log.
pub open spec fn emit(r: Result<(Value, Constraint), EvalError>, log: Seq<Constraint>) -> Outcome<Value> {
    match r {
        Ok((v, c)) => (Ok(v), log.push(c)),
        Err(e) => (Err(e), log),
    }
}

/// Variable lookup: the local binding under the function scope first, then the
/// global one under the file scope.
pub open spec fn lookup_spec(
    global: SymbolTable,
    local: Bindings,
    file_scope: Seq<char>,
    function_scope: Seq<char>,
    name: String,
) -> Result<Value, EvalError> {
    match lookup_model(local, scoped(function_scope, name@)) {
        Some(v) => Ok(v),
        None => match lookup_entry(global.entries@, scoped(file_scope, name@)) {
            Some(v) => Ok(v@),
            None => Err(EvalError::UnknownName(name)),
        },
    }
}

/// The slice `[from, to)` of `vs`, the bounds defaulting to the whole array.
pub open spec fn slice_spec(vs: Seq<Value>, from: Option<u32>, to: Option<u32>) -> Result<Value, EvalError> {
    let lo: int = match from { Some(f) => f as int, None => 0 };
    let hi: int = match to { Some(t) => t as int, None => vs.len() as int };
    if lo <= hi && hi <= vs.len() {
        Ok(Value::Array(vs.subrange(lo, hi)))
    } else {
        Err(EvalError::IndexOutOfRange)
    }
}

/// The index that an index expression's value denotes.
pub open spec fn index_spec(v: Value) -> Result<u32, EvalError> {
    match v {
        Value::U32(g) => match g.value() {
            Some(n) => Ok(n),
            None => Err(EvalError::NonIntegerIndex),
        },
        _ => Err(EvalError::NonIntegerIndex),
    }
}

pub open spec fn element_spec(vs: Seq<Value>, i: u32) -> Result<Value, EvalError> {
    if i < vs.len() {
        Ok(vs[i as int])
    } else {
        Err(EvalError::IndexOutOfRange)
    }
}

/// The value of the first member named `name`, from position `i` on.
pub open spec fn member_spec(ms: Seq<(Seq<char>, Value)>, name: Seq<char>, i: int) -> Option<Value>
    decreases ms.len() - i,
{
    if i < 0 || i >= ms.len() {
        None
    } else if ms[i].0 == name {
        Some(ms[i].1)
    } else {
        member_spec(ms, name, i + 1)
    }
}

pub open spec fn access_spec(base: Value, name: Seq<char>) -> Result<Value, EvalError> {
    match base {
        Value::StructExpression(_, ms) => match member_spec(ms, name, 0) {
            Some(v) => Ok(v),
            None => Err(EvalError::UnknownStructMember),
        },
        _ => Err(EvalError::NotAStruct),
    }
}

/// Declared fields and provided members agree in number and, position by
/// position, in name.
pub open spec fn fields_match(fields: Seq<Seq<char>>, members: Seq<StructMember>) -> bool {
    &&& fields.len() == members.len()
    &&& forall|i: int| 0 <= i < fields.len() ==> fields[i] == #[trigger] members[i].variable@
}

/// The bindings of a call: each parameter, under the callee's scope, to its argument.
pub open spec fn call_bindings(scope: Seq<char>, params: Seq<String>, args: Seq<Value>) -> Bindings {
    Seq::new(params.len(), |i: int| (scoped(scope, params[i]@), args[i]))
}

/// A call yields its single return value, or all of them as a `Return`.
pub open spec fn unwrap_return(vs: Seq<Value>) -> Value {
    if vs.len() == 1 {
        vs[0]
    } else {
        Value::Return(vs)
    }
}

/// Evaluates `e` with `log` as the constraint log so far.
pub open spec fn eval(
    global: SymbolTable,
    local: Bindings,
    fs: Seq<char>,
    fns: Seq<char>,
    e: Expression,
    depth: nat,
    log: Seq<Constraint>,
) -> Outcome<Value>
    decreases depth, e, 2nat,
{
    match e {
        Expression::Variable(name) => (lookup_spec(global, local, fs, fns, name), log),
        Expression::Integer(n) => (Ok(Value::U32(Gadget::Constant(n))), log),
        Expression::FieldElement(n) => (Ok(Value::FieldElement(Gadget::Constant((n % FIELD_MODULUS) as u64))), log),
        Expression::Boolean(b) => (Ok(Value::Boolean(Gadget::Constant(b))), log),
        Expression::Not(x) => {
            let (r, log1) = eval(global, local, fs, fns, *x, depth, log);
            match r {
                Ok(Value::Boolean(g)) => (Ok(Value::Boolean(not_spec(g))), log1),
                Ok(v) => (Err(EvalError::ExpectedBoolean(kind(v))), log1),
                Err(err) => (Err(err), log1),
            }
        },
        Expression::Geq(_, _) => (Err(EvalError::Unimplemented(Feature::Comparison)), log),
        Expression::Gt(_, _) => (Err(EvalError::Unimplemented(Feature::Comparison)), log),
        Expression::Leq(_, _) => (Err(EvalError::Unimplemented(Feature::Comparison)), log),
        Expression::Lt(_, _) => (Err(EvalError::Unimplemented(Feature::Comparison)), log),
        Expression::IfElse(c, t, f) => {
            let (r, log1) = eval(global, local, fs, fns, *c, depth, log);
            match r {
                Ok(Value::Boolean(Gadget::Constant(true))) => eval(global, local, fs, fns, *t, depth, log1),
                Ok(Value::Boolean(Gadget::Constant(false))) => eval(global, local, fs, fns, *f, depth, log1),
                Ok(Value::Boolean(_)) => (Err(EvalError::Unimplemented(Feature::DynamicIf)), log1),
                Ok(v) => (Err(EvalError::ExpectedBoolean(kind(v))), log1),
                Err(err) => (Err(err), log1),
            }
        },
        Expression::Array(items) => {
            let (r, log1) = eval_elements(global, local, fs, fns, items@, 0, depth, log);
            match r {
                Ok(vs) => (Ok(Value::Array(vs)), log1),
                Err(err) => (Err(err), log1),
            }
        },
        Expression::ArrayAccess(a, index) => {
            let (r, log1) = eval(global, local, fs, fns, *a, depth, log);
            match r {
                Ok(Value::Array(vs)) => match *index {
                    RangeOrExpression::Range(from, to) => (slice_spec(vs, from, to), log1),
                    RangeOrExpression::Expression(ie) => {
                        let (ri, log2) = eval(global, local, fs, fns, ie, depth, log1);
                        match ri {
                            Ok(iv) => match index_spec(iv) {
                                Ok(i) => (element_spec(vs, i), log2),
                                Err(err) => (Err(err), log2),
                            },
                            Err(err) => (Err(err), log2),
                        }
                    },
                },
                Ok(_) => (Err(EvalError::NotAnArray), log1),
                Err(err) => (Err(err), log1),
            }
        },
        Expression::Struct(name, members) => match lookup_entry(global.entries@, scoped(fs, name@)) {
            None => (Err(EvalError::UnknownStruct), log),
            Some(ResolvedValue::StructDefinition(d)) => if fields_match(field_names(d.fields@), members@) {
                let (r, log1) = eval_members(global, local, fs, fns, members@, 0, depth, log);
                match r {
                    Ok(ms) => (Ok(Value::StructExpression(name@, ms)), log1),
                    Err(err) => (Err(err), log1),
                }
            } else {
                (Err(EvalError::StructFieldMismatch), log)
            },
            Some(_) => (Err(EvalError::NotAStruct), log),
        },
        Expression::StructMemberAccess(x, name) => {
            let (r, log1) = eval(global, local, fs, fns, *x, depth, log);
            match r {
                Ok(v) => (access_spec(v, name@), log1),
                Err(err) => (Err(err), log1),
            }
        },
        Expression::FunctionCall(name, args) => match lookup_entry(global.entries@, scoped(fs, name@)) {
            None => (Err(EvalError::UnknownFunction), log),
            Some(ResolvedValue::Function(f)) => if depth == 0 {
                (Err(EvalError::CallDepthExceeded), log)
            } else if args.len() != f.parameters.len() {
                (Err(EvalError::ArgumentCountMismatch), log)
            } else {
                let (ra, log1) = eval_list(global, local, fs, fns, args@, 0, depth, log);
                match ra {
                    Ok(vals) => {
                        let scope = scoped(fs, name@);
                        let callee = call_bindings(scope, f.parameters@, vals);
                        let (rr, log2) = eval_list(global, callee, fs, scope, f.results@, 0, (depth - 1) as nat, log1);
                        match rr {
                            Ok(vs) => (Ok(unwrap_return(vs)), log2),
                            Err(err) => (Err(err), log2),
                        }
                    },
                    Err(err) => (Err(err), log1),
                }
            },
            Some(_) => (Err(EvalError::NotAFunction), log),
        },
        _ => {
            let (r, log1) = eval_operands(global, local, fs, fns, e, depth, log);
            match r {
                Ok((lv, rv)) => match e {
                    Expression::Add(_, _) => emit(arith_spec(ArithOp::Add, lv, rv), log1),
                    Expression::Sub(_, _) => emit(arith_spec(ArithOp::Sub, lv, rv), log1),
                    Expression::Mul(_, _) => emit(arith_spec(ArithOp::Mul, lv, rv), log1),
                    Expression::Div(_, _) => emit(arith_spec(ArithOp::Div, lv, rv), log1),
                    Expression::Pow(_, _) => emit(arith_spec(ArithOp::Pow, lv, rv), log1),
                    Expression::And(_, _) => emit(logic_spec(true, lv, rv), log1),
                    Expression::Or(_, _) => emit(logic_spec(false, lv, rv), log1),
                    _ => (eq_value_spec(lv, rv), log1),
                },
                Err(err) => (Err(err), log1),
            }
        },
    }
}

/// The two operands of a binary expression, left first.
pub open spec fn eval_operands(
    global: SymbolTable,
    local: Bindings,
    fs: Seq<char>,
    fns: Seq<char>,
    e: Expression,
    depth: nat,
    log: Seq<Constraint>,
) -> Outcome<(Value, Value)>
    decreases depth, e, 1nat,
{
    match e {
        Expression::Add(l, r) | Expression::Sub(l, r) | Expression::Mul(l, r)
        | Expression::Div(l, r) | Expression::Pow(l, r) | Expression::And(l, r)
        | Expression::Or(l, r) | Expression::Eq(l, r) => {
            let (rl, log1) = eval(global, local, fs, fns, *l, depth, log);
            match rl {
                Ok(lv) => {
                    let (rr, log2) = eval(global, local, fs, fns, *r, depth, log1);
                    match rr {
                        Ok(rv) => (Ok((lv, rv)), log2),
                        Err(err) => (Err(err), log2),
                    }
                },
                Err(err) => (Err(err), log1),
            }
        },
        // not reached: only binary operators are evaluated here
        _ => (Err(EvalError::Unimplemented(Feature::Comparison)), log),
    }
}

/// The elements of an array literal from position `i` on, spreads inlined.
pub open spec fn eval_elements(
    global: SymbolTable,
    local: Bindings,
    fs: Seq<char>,
    fns: Seq<char>,
    items: Seq<SpreadOrExpression>,
    i: int,
    depth: nat,
    log: Seq<Constraint>,
) -> Outcome<Seq<Value>>
    decreases depth, items, items.len() - i,
{
    if i < 0 || i >= items.len() {
        (Ok(Seq::empty()), log)
    } else {
        let (r, log1) = match items[i] {
            SpreadOrExpression::Spread(Expression::Variable(name)) => (
                match lookup_spec(global, local, fs, fns, name) {
                    Ok(Value::Array(vs)) => Ok(vs),
                    Ok(_) => Err(EvalError::SpreadOfNonArray),
                    Err(err) => Err(err),
                },
                log,
            ),
            SpreadOrExpression::Spread(_) => (Err(EvalError::SpreadOfNonArray), log),
            SpreadOrExpression::Expression(x) => {
                let (rx, lx) = eval(global, local, fs, fns, x, depth, log);
                match rx {
                    Ok(v) => (Ok(seq![v]), lx),
                    Err(err) => (Err(err), lx),
                }
            },
        };
        match r {
            Ok(head) => {
                let (rest, log2) = eval_elements(global, local, fs, fns, items, i + 1, depth, log1);
                match rest {
                    Ok(tail) => (Ok(head + tail), log2),
                    Err(err) => (Err(err), log2),
                }
            },
            Err(err) => (Err(err), log1),
        }
    }
}

/// The members of a struct literal from position `i` on.
pub open spec fn eval_members(
    global: SymbolTable,
    local: Bindings,
    fs: Seq<char>,
    fns: Seq<char>,
    members: Seq<StructMember>,
    i: int,
    depth: nat,
    log: Seq<Constraint>,
) -> Outcome<Seq<(Seq<char>, Value)>>
    decreases depth, members, members.len() - i,
{
    if i < 0 || i >= members.len() {
        (Ok(Seq::empty()), log)
    } else {
        let (r, log1) = eval(global, local, fs, fns, members[i].expression, depth, log);
        match r {
            Ok(v) => {
                let (rest, log2) = eval_members(global, local, fs, fns, members, i + 1, depth, log1);
                match rest {
                    Ok(tail) => (Ok(seq![(members[i].variable@, v)] + tail), log2),
                    Err(err) => (Err(err), log2),
                }
            },
            Err(err) => (Err(err), log1),
        }
    }
}

/// A list of expressions from position `i` on, left to right.
pub open spec fn eval_list(
    global: SymbolTable,
    local: Bindings,
    fs: Seq<char>,
    fns: Seq<char>,
    exprs: Seq<Expression>,
    i: int,
    depth: nat,
    log: Seq<Constraint>,
) -> Outcome<Seq<Value>>
    decreases depth, exprs, exprs.len() - i,
{
    if i < 0 || i >= exprs.len() {
        (Ok(Seq::empty()), log)
    } else {
        let (r, log1) = eval(global, local, fs, fns, exprs[i], depth, log);
        match r {
            Ok(v) => {
                let (rest, log2) = eval_list(global, local, fs, fns, exprs, i + 1, depth, log1);
                match rest {
                    Ok(tail) => (Ok(seq![v] + tail), log2),
                    Err(err) => (Err(err), log2),
                }
            },
            Err(err) => (Err(err), log1),
        }
    }
}

/// A list that evaluates has one value per expression.
pub proof fn lemma_eval_list_len(
    global: SymbolTable,
    local: Bindings,
    fs: Seq<char>,
    fns: Seq<char>,
    exprs: Seq<Expression>,
    i: int,
    depth: nat,
    log: Seq<Constraint>,
)
    requires
        0 <= i <= exprs.len(),
    ensures
        eval_list(global, local, fs, fns, exprs, i, depth, log).0 is Ok ==>
            eval_list(global, local, fs, fns, exprs, i, depth, log).0->Ok_0.len() == exprs.len() - i,
    decreases exprs.len() - i,
{
    if i < exprs.len() {
        let (r, log1) = eval(global, local, fs, fns, exprs[i], depth, log);
        lemma_eval_list_len(global, local, fs, fns, exprs, i + 1, depth, log1);
    }
}

} // verus!
