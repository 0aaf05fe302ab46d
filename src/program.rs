//! The evaluator: walks an expression, resolves its value and adds the
//! constraints of each operation to the log.
use vstd::prelude::*;
use crate::ast::{Expression, RangeOrExpression, SpreadOrExpression, StructMember};
use crate::gadgets::{
    boolean_eq, enforce_and, enforce_not, enforce_or, field_eq, field_gadget, field_pow_gadget,
    word_eq, word_gadget, ArithOp, Constraint, Gadget, FIELD_MODULUS,
};
use crate::semantics::{
    access_spec, arith_spec, call_bindings, emit, enforce_eq_spec, eq_value_spec,
    eval, eval_elements, eval_list, lemma_eval_list_len, eval_members, eval_operands, field_constraint,
    index_spec, logic_spec, lookup_spec, member_spec, word_constraint,
    arith_operator, kind, EvalError, Feature, Operator, Outcome, ValueKind,
};
use crate::symbols::{lemma_lookup_bindings, scoped, scoped_name, ConstraintLog, SymbolTable};
use crate::values::{
    field_names, lemma_view_members_index, lemma_view_members_push, lemma_view_values_concat,
    lemma_view_values_index, lemma_view_values_push, view_members, view_values,
    ResolvedStructMember, ResolvedValue, Value,
};

verus! {

/// How deep inlined function calls may nest.
pub const MAX_CALL_DEPTH: u32 = 32;

/// The model of an evaluation result.
pub open spec fn result_view(r: Result<ResolvedValue, EvalError>) -> Result<Value, EvalError> {
    match r {
        Ok(v) => Ok(v@),
        Err(e) => Err(e),
    }
}

/// Puts a prefix in front of a successful list result.
pub open spec fn prepend<T>(prefix: Seq<T>, o: Outcome<Seq<T>>) -> Outcome<Seq<T>> {
    match o.0 {
        Ok(tail) => (Ok(prefix + tail), o.1),
        Err(e) => (Err(e), o.1),
    }
}

proof fn lemma_prepend_empty<T>(o: Outcome<Seq<T>>)
    ensures
        prepend(Seq::<T>::empty(), o) == o,
{
    match o.0 {
        Ok(t) => assert(Seq::<T>::empty() + t =~= t),
        Err(_) => {},
    }
}

proof fn lemma_prepend_end<T>(a: Seq<T>, log: Seq<Constraint>)
    ensures
        prepend(a, (Ok(Seq::<T>::empty()), log)) == (Ok::<Seq<T>, EvalError>(a), log),
{
    assert(a + Seq::<T>::empty() =~= a);
}

proof fn lemma_prepend_concat<T>(a: Seq<T>, b: Seq<T>, o: Outcome<Seq<T>>)
    ensures
        prepend(a, prepend(b, o)) == prepend(a + b, o),
{
    match o.0 {
        Ok(t) => assert(a + (b + t) =~= (a + b) + t),
        Err(_) => {},
    }
}

/// The variant of a value.
pub fn kind_of(v: &ResolvedValue) -> (k: ValueKind)
    ensures
        k == kind(v@),
{
    match v {
        ResolvedValue::U32(_) => ValueKind::U32,
        ResolvedValue::FieldElement(_) => ValueKind::FieldElement,
        ResolvedValue::Boolean(_) => ValueKind::Boolean,
        ResolvedValue::Array(_) => ValueKind::Array,
        ResolvedValue::StructDefinition(_) => ValueKind::StructDefinition,
        ResolvedValue::StructExpression(_, _) => ValueKind::StructExpression,
        ResolvedValue::Function(_) => ValueKind::Function,
        ResolvedValue::Return(_) => ValueKind::Return,
    }
}

fn arith_operator_of(op: ArithOp) -> (r: Operator)
    ensures
        r == arith_operator(op),
{
    match op {
        ArithOp::Add => Operator::Add,
        ArithOp::Sub => Operator::Sub,
        ArithOp::Mul => Operator::Mul,
        ArithOp::Div => Operator::Div,
        ArithOp::Pow => Operator::Pow,
    }
}

fn word_constraint_of(op: ArithOp) -> (c: Constraint)
    ensures
        c == word_constraint(op),
{
    match op {
        ArithOp::Add => Constraint::U32Add,
        ArithOp::Sub => Constraint::U32Sub,
        ArithOp::Mul => Constraint::U32Mul,
        ArithOp::Div => Constraint::U32Div,
        ArithOp::Pow => Constraint::U32Pow,
    }
}

fn field_constraint_of(op: ArithOp) -> (c: Constraint)
    ensures
        c == field_constraint(op),
{
    match op {
        ArithOp::Add => Constraint::FieldAdd,
        ArithOp::Sub => Constraint::FieldSub,
        ArithOp::Mul => Constraint::FieldMul,
        ArithOp::Div => Constraint::FieldDiv,
        ArithOp::Pow => Constraint::FieldPow,
    }
}

/// Arithmetic dispatch on resolved operands.
pub fn enforce_arith(cs: &mut ConstraintLog, op: ArithOp, left: ResolvedValue, right: ResolvedValue) -> (r: Result<ResolvedValue, EvalError>)
    ensures
        (result_view(r), final(cs)@) == emit(arith_spec(op, left@, right@), old(cs)@),
{
    let is_pow = match op {
        ArithOp::Pow => true,
        _ => false,
    };
    let mismatch = EvalError::TypeMismatch(arith_operator_of(op), kind_of(&left), kind_of(&right));
    match (left, right) {
        (ResolvedValue::U32(a), ResolvedValue::U32(b)) => match word_gadget(op, a, b) {
            Ok(g) => {
                cs.add(word_constraint_of(op));
                Ok(ResolvedValue::U32(g))
            },
            Err(_) => Err(EvalError::DivisionByZero),
        },
        (ResolvedValue::FieldElement(a), ResolvedValue::FieldElement(b)) => if is_pow {
            Err(EvalError::NonIntegerExponent)
        } else {
            match field_gadget(op, a, b) {
                Ok(g) => {
                    cs.add(field_constraint_of(op));
                    Ok(ResolvedValue::FieldElement(g))
                },
                Err(_) => Err(EvalError::DivisionByZero),
            }
        },
        (ResolvedValue::FieldElement(a), ResolvedValue::U32(b)) => if is_pow {
            cs.add(Constraint::FieldPow);
            Ok(ResolvedValue::FieldElement(field_pow_gadget(a, b)))
        } else {
            Err(mismatch)
        },
        (_, ResolvedValue::FieldElement(_)) => if is_pow {
            Err(EvalError::NonIntegerExponent)
        } else {
            Err(mismatch)
        },
        _ => Err(mismatch),
    }
}

/// Conjunction or disjunction of resolved operands.
pub fn enforce_logic(cs: &mut ConstraintLog, is_and: bool, left: ResolvedValue, right: ResolvedValue) -> (r: Result<ResolvedValue, EvalError>)
    ensures
        (result_view(r), final(cs)@) == emit(logic_spec(is_and, left@, right@), old(cs)@),
{
    let operator = if is_and {
        Operator::And
    } else {
        Operator::Or
    };
    let mismatch = EvalError::TypeMismatch(operator, kind_of(&left), kind_of(&right));
    match (left, right) {
        (ResolvedValue::Boolean(a), ResolvedValue::Boolean(b)) => if is_and {
            cs.add(Constraint::BooleanAnd);
            Ok(ResolvedValue::Boolean(enforce_and(a, b)))
        } else {
            cs.add(Constraint::BooleanOr);
            Ok(ResolvedValue::Boolean(enforce_or(a, b)))
        },
        _ => Err(mismatch),
    }
}

/// A program's symbol tables, as seen by the evaluator.
pub struct ResolvedProgram<'a> {
    pub global: &'a SymbolTable,
    pub local: &'a SymbolTable,
    /// How many more inlined calls may nest.
    pub depth: u32,
}

impl<'a> ResolvedProgram<'a> {
    /// The evaluation of `e` under this program.
    pub open spec fn eval_of(&self, fs: Seq<char>, fns: Seq<char>, e: Expression, log: Seq<Constraint>) -> Outcome<Value> {
        eval(*self.global, self.local@, fs, fns, e, self.depth as nat, log)
    }

    pub fn new(global: &'a SymbolTable, local: &'a SymbolTable) -> (r: ResolvedProgram<'a>)
        ensures
            *r.global == *global,
            *r.local == *local,
            r.depth == MAX_CALL_DEPTH,
    {
        ResolvedProgram { global, local, depth: MAX_CALL_DEPTH }
    }

    /// Resolves a variable: the local binding under the function scope, else
    /// the global one under the file scope.
    pub fn enforce_variable(&self, file_scope: &String, function_scope: &String, name: &String) -> (r: Result<ResolvedValue, EvalError>)
        ensures
            result_view(r) == lookup_spec(*self.global, self.local@, file_scope@, function_scope@, *name),
    {
        let key = scoped_name(function_scope, name);
        proof {
            lemma_lookup_bindings(self.local.entries@, key@);
        }
        match self.local.get(&key) {
            Some(v) => Ok(v.duplicate()),
            None => {
                let global_key = scoped_name(file_scope, name);
                match self.global.get(&global_key) {
                    Some(v) => Ok(v.duplicate()),
                    None => Err(EvalError::UnknownName(name.clone())),
                }
            },
        }
    }

    pub fn enforce_add_expression(&self, cs: &mut ConstraintLog, left: ResolvedValue, right: ResolvedValue) -> (r: Result<ResolvedValue, EvalError>)
        ensures
            (result_view(r), final(cs)@) == emit(arith_spec(ArithOp::Add, left@, right@), old(cs)@),
    {
        enforce_arith(cs, ArithOp::Add, left, right)
    }

    pub fn enforce_sub_expression(&self, cs: &mut ConstraintLog, left: ResolvedValue, right: ResolvedValue) -> (r: Result<ResolvedValue, EvalError>)
        ensures
            (result_view(r), final(cs)@) == emit(arith_spec(ArithOp::Sub, left@, right@), old(cs)@),
    {
        enforce_arith(cs, ArithOp::Sub, left, right)
    }

    pub fn enforce_mul_expression(&self, cs: &mut ConstraintLog, left: ResolvedValue, right: ResolvedValue) -> (r: Result<ResolvedValue, EvalError>)
        ensures
            (result_view(r), final(cs)@) == emit(arith_spec(ArithOp::Mul, left@, right@), old(cs)@),
    {
        enforce_arith(cs, ArithOp::Mul, left, right)
    }

    pub fn enforce_div_expression(&self, cs: &mut ConstraintLog, left: ResolvedValue, right: ResolvedValue) -> (r: Result<ResolvedValue, EvalError>)
        ensures
            (result_view(r), final(cs)@) == emit(arith_spec(ArithOp::Div, left@, right@), old(cs)@),
    {
        enforce_arith(cs, ArithOp::Div, left, right)
    }

    pub fn enforce_pow_expression(&self, cs: &mut ConstraintLog, left: ResolvedValue, right: ResolvedValue) -> (r: Result<ResolvedValue, EvalError>)
        ensures
            (result_view(r), final(cs)@) == emit(arith_spec(ArithOp::Pow, left@, right@), old(cs)@),
    {
        enforce_arith(cs, ArithOp::Pow, left, right)
    }

    /// Equality that yields a boolean and adds no constraint.
    pub fn evaluate_eq_expression(&self, left: ResolvedValue, right: ResolvedValue) -> (r: Result<ResolvedValue, EvalError>)
        ensures
            result_view(r) == eq_value_spec(left@, right@),
    {
        let mismatch = EvalError::TypeMismatch(Operator::Eq, kind_of(&left), kind_of(&right));
        match (left, right) {
            (ResolvedValue::Boolean(a), ResolvedValue::Boolean(b)) => Ok(ResolvedValue::Boolean(boolean_eq(a, b))),
            (ResolvedValue::U32(a), ResolvedValue::U32(b)) => Ok(ResolvedValue::Boolean(word_eq(a, b))),
            (ResolvedValue::FieldElement(a), ResolvedValue::FieldElement(b)) => Ok(ResolvedValue::Boolean(field_eq(a, b))),
            _ => Err(mismatch),
        }
    }

    /// Equality that adds an equality constraint and, on operands of one
    /// kind, returns the constant `true`.
    pub fn enforce_eq_expression(&self, cs: &mut ConstraintLog, left: ResolvedValue, right: ResolvedValue) -> (r: Result<ResolvedValue, EvalError>)
        ensures
            (result_view(r), final(cs)@) == emit(enforce_eq_spec(left@, right@), old(cs)@),
    {
        match (&left, &right) {
            (ResolvedValue::Boolean(_), ResolvedValue::Boolean(_)) => {
                cs.add(Constraint::BooleanEq);
                Ok(ResolvedValue::Boolean(Gadget::Constant(true)))
            },
            (ResolvedValue::U32(_), ResolvedValue::U32(_)) => {
                cs.add(Constraint::U32Eq);
                Ok(ResolvedValue::Boolean(Gadget::Constant(true)))
            },
            (ResolvedValue::FieldElement(_), ResolvedValue::FieldElement(_)) => {
                cs.add(Constraint::FieldEq);
                Ok(ResolvedValue::Boolean(Gadget::Constant(true)))
            },
            _ => Err(EvalError::TypeMismatch(Operator::Eq, kind_of(&left), kind_of(&right))),
        }
    }
}

impl<'a> ResolvedProgram<'a> {
    /// Evaluates an expression, adding its constraints to `cs` in depth-first,
    /// left-to-right post-order.
    pub fn enforce_expression(&self, cs: &mut ConstraintLog, file_scope: &String, function_scope: &String, expression: &Expression) -> (r: Result<ResolvedValue, EvalError>)
        ensures
            (result_view(r), final(cs)@) == self.eval_of(file_scope@, function_scope@, *expression, old(cs)@),
        decreases self.depth, *expression, 2nat,
    {
        match expression {
            Expression::Variable(name) => self.enforce_variable(file_scope, function_scope, name),
            Expression::Integer(n) => Ok(ResolvedValue::U32(Gadget::Constant(*n))),
            Expression::FieldElement(n) => Ok(ResolvedValue::FieldElement(Gadget::Constant(*n % FIELD_MODULUS))),
            Expression::Boolean(b) => Ok(ResolvedValue::Boolean(Gadget::Constant(*b))),
            Expression::Not(x) => match self.enforce_expression(cs, file_scope, function_scope, x) {
                Ok(ResolvedValue::Boolean(g)) => Ok(ResolvedValue::Boolean(enforce_not(g))),
                Ok(v) => Err(EvalError::ExpectedBoolean(kind_of(&v))),
                Err(err) => Err(err),
            },
            Expression::Geq(_, _) | Expression::Gt(_, _) | Expression::Leq(_, _) | Expression::Lt(_, _) => {
                Err(EvalError::Unimplemented(Feature::Comparison))
            },
            Expression::IfElse(c, t, f) => match self.enforce_expression(cs, file_scope, function_scope, c) {
                Ok(ResolvedValue::Boolean(Gadget::Constant(true))) => self.enforce_expression(cs, file_scope, function_scope, t),
                Ok(ResolvedValue::Boolean(Gadget::Constant(false))) => self.enforce_expression(cs, file_scope, function_scope, f),
                Ok(ResolvedValue::Boolean(_)) => Err(EvalError::Unimplemented(Feature::DynamicIf)),
                Ok(v) => Err(EvalError::ExpectedBoolean(kind_of(&v))),
                Err(err) => Err(err),
            },
            Expression::Array(items) => self.enforce_array_expression(cs, file_scope, function_scope, items),
            Expression::ArrayAccess(a, index) => self.enforce_array_access_expression(cs, file_scope, function_scope, a, index),
            Expression::Struct(name, members) => self.enforce_struct_expression(cs, file_scope, function_scope, name, members),
            Expression::StructMemberAccess(x, name) => self.enforce_struct_access_expression(cs, file_scope, function_scope, x, name),
            Expression::FunctionCall(name, args) => self.enforce_function_call_expression(cs, file_scope, function_scope, name, args),
            _ => {
                let (lv, rv) = match self.enforce_operands(cs, file_scope, function_scope, expression) {
                    Ok(p) => p,
                    Err(err) => return Err(err),
                };
                match expression {
                    Expression::Add(_, _) => self.enforce_add_expression(cs, lv, rv),
                    Expression::Sub(_, _) => self.enforce_sub_expression(cs, lv, rv),
                    Expression::Mul(_, _) => self.enforce_mul_expression(cs, lv, rv),
                    Expression::Div(_, _) => self.enforce_div_expression(cs, lv, rv),
                    Expression::Pow(_, _) => self.enforce_pow_expression(cs, lv, rv),
                    Expression::And(_, _) => enforce_logic(cs, true, lv, rv),
                    Expression::Or(_, _) => enforce_logic(cs, false, lv, rv),
                    _ => self.evaluate_eq_expression(lv, rv),
                }
            },
        }
    }

    fn enforce_operands(&self, cs: &mut ConstraintLog, file_scope: &String, function_scope: &String, expression: &Expression) -> (r: Result<(ResolvedValue, ResolvedValue), EvalError>)
        ensures
            ({
                let o = eval_operands(*self.global, self.local@, file_scope@, function_scope@, *expression, self.depth as nat, old(cs)@);
                &&& final(cs)@ == o.1
                &&& match r {
                    Ok((a, b)) => o.0 == Ok::<(Value, Value), EvalError>((a@, b@)),
                    Err(e) => o.0 == Err::<(Value, Value), EvalError>(e),
                }
            }),
        decreases self.depth, *expression, 1nat,
    {
        match expression {
            Expression::Add(l, r) | Expression::Sub(l, r) | Expression::Mul(l, r)
            | Expression::Div(l, r) | Expression::Pow(l, r) | Expression::And(l, r)
            | Expression::Or(l, r) | Expression::Eq(l, r) => {
                let lv = match self.enforce_expression(cs, file_scope, function_scope, l) {
                    Ok(v) => v,
                    Err(err) => return Err(err),
                };
                match self.enforce_expression(cs, file_scope, function_scope, r) {
                    Ok(rv) => Ok((lv, rv)),
                    Err(err) => Err(err),
                }
            },
            _ => Err(EvalError::Unimplemented(Feature::Comparison)),
        }
    }

    /// Builds an array, inlining the contents of spread arrays in place.
    pub fn enforce_array_expression(&self, cs: &mut ConstraintLog, file_scope: &String, function_scope: &String, array: &Vec<SpreadOrExpression>) -> (r: Result<ResolvedValue, EvalError>)
        ensures
            ({
                let o = eval_elements(*self.global, self.local@, file_scope@, function_scope@, array@, 0, self.depth as nat, old(cs)@);
                &&& final(cs)@ == o.1
                &&& result_view(r) == match o.0 {
                    Ok(vs) => Ok(Value::Array(vs)),
                    Err(e) => Err(e),
                }
            }),
        decreases self.depth, *array, 0nat,
    {
        let ghost g = *self.global;
        let ghost l = self.local@;
        let ghost d = self.depth as nat;
        let ghost total = eval_elements(g, l, file_scope@, function_scope@, array@, 0, d, old(cs)@);
        let mut result: Vec<ResolvedValue> = Vec::new();
        proof {
            lemma_prepend_empty(total);
        }
        let mut i: usize = 0;
        while i < array.len()
            invariant
                i <= array.len(),
                g == *self.global,
                l == self.local@,
                d == self.depth as nat,
                total == eval_elements(g, l, file_scope@, function_scope@, array@, 0, d, old(cs)@),
                total == prepend(view_values(result@), eval_elements(g, l, file_scope@, function_scope@, array@, i as int, d, cs@)),
            decreases array.len() - i,
        {
            let ghost prefix = view_values(result@);
            proof {
                assert(decreases_to!(*array => array@[i as int]));
            }
            match &array[i] {
                SpreadOrExpression::Spread(Expression::Variable(name)) => {
                    match self.enforce_variable(file_scope, function_scope, name) {
                        Ok(ResolvedValue::Array(vs)) => {
                            let mut vs = vs;
                            proof {
                                lemma_view_values_concat(result@, vs@);
                                lemma_prepend_concat(prefix, view_values(vs@), eval_elements(g, l, file_scope@, function_scope@, array@, i + 1, d, cs@));
                            }
                            result.append(&mut vs);
                        },
                        Ok(_) => return Err(EvalError::SpreadOfNonArray),
                        Err(err) => return Err(err),
                    }
                },
                SpreadOrExpression::Spread(_) => return Err(EvalError::SpreadOfNonArray),
                SpreadOrExpression::Expression(x) => {
                    match self.enforce_expression(cs, file_scope, function_scope, x) {
                        Ok(v) => {
                            proof {
                                lemma_view_values_push(result@, v);
                                lemma_prepend_concat(prefix, seq![v@], eval_elements(g, l, file_scope@, function_scope@, array@, i + 1, d, cs@));
                                assert(prefix.push(v@) == prefix + seq![v@]);
                            }
                            result.push(v);
                        },
                        Err(err) => return Err(err),
                    }
                },
            }
            i = i + 1;
        }
        proof {
            lemma_prepend_end(view_values(result@), cs@);
        }
        Ok(ResolvedValue::Array(result))
    }

    /// Resolves an index expression to a statically known integer.
    pub fn enforce_index(&self, cs: &mut ConstraintLog, file_scope: &String, function_scope: &String, index: &Expression) -> (r: Result<u32, EvalError>)
        ensures
            ({
                let o = self.eval_of(file_scope@, function_scope@, *index, old(cs)@);
                &&& final(cs)@ == o.1
                &&& r == match o.0 {
                    Ok(v) => index_spec(v),
                    Err(e) => Err(e),
                }
            }),
        decreases self.depth, *index, 3nat,
    {
        match self.enforce_expression(cs, file_scope, function_scope, index) {
            Ok(ResolvedValue::U32(Gadget::Constant(n))) => Ok(n),
            Ok(ResolvedValue::U32(Gadget::Witness(Some(n)))) => Ok(n),
            Ok(_) => Err(EvalError::NonIntegerIndex),
            Err(err) => Err(err),
        }
    }

    /// A slice or an element of an array.
    pub fn enforce_array_access_expression(&self, cs: &mut ConstraintLog, file_scope: &String, function_scope: &String, array: &Expression, index: &RangeOrExpression) -> (r: Result<ResolvedValue, EvalError>)
        ensures
            (result_view(r), final(cs)@) == self.eval_of(file_scope@, function_scope@, Expression::ArrayAccess(Box::new(*array), Box::new(*index)), old(cs)@),
        decreases self.depth, Expression::ArrayAccess(Box::new(*array), Box::new(*index)), 1nat,
    {
        let vs = match self.enforce_expression(cs, file_scope, function_scope, array) {
            Ok(ResolvedValue::Array(vs)) => vs,
            Ok(_) => return Err(EvalError::NotAnArray),
            Err(err) => return Err(err),
        };
        proof {
            lemma_view_values_index(vs@);
        }
        match index {
            RangeOrExpression::Range(from, to) => {
                let lo: usize = match from {
                    Some(f) => *f as usize,
                    None => 0,
                };
                let hi: usize = match to {
                    Some(t) => *t as usize,
                    None => vs.len(),
                };
                if lo <= hi && hi <= vs.len() {
                    let mut out: Vec<ResolvedValue> = Vec::new();
                    let mut j: usize = lo;
                    while j < hi
                        invariant
                            lo <= j <= hi <= vs.len(),
                            out@.len() == j - lo,
                            forall|k: int| 0 <= k < out@.len() ==> #[trigger] out@[k]@ == vs@[lo + k]@,
                        decreases hi - j,
                    {
                        out.push(vs[j].duplicate());
                        j = j + 1;
                    }
                    proof {
                        lemma_view_values_index(out@);
                        assert forall|k: int| 0 <= k < out@.len() implies #[trigger] view_values(out@)[k] == view_values(vs@).subrange(lo as int, hi as int)[k] by {
                            assert(out@[k]@ == vs@[lo + k]@);
                            assert(view_values(vs@)[lo + k] == vs@[lo + k]@);
                        }
                        assert(view_values(out@) =~= view_values(vs@).subrange(lo as int, hi as int));
                    }
                    Ok(ResolvedValue::Array(out))
                } else {
                    Err(EvalError::IndexOutOfRange)
                }
            },
            RangeOrExpression::Expression(ie) => {
                proof {
                    let whole = Expression::ArrayAccess(Box::new(*array), Box::new(*index));
                    assert(whole->ArrayAccess_1 == *index);
                    assert(decreases_to!(whole => whole->ArrayAccess_1));
                    assert(decreases_to!(*index => *ie));
                }
                let i = match self.enforce_index(cs, file_scope, function_scope, ie) {
                    Ok(i) => i,
                    Err(err) => return Err(err),
                };
                if (i as usize) < vs.len() {
                    let mut vs = vs;
                    Ok(vs.swap_remove(i as usize))
                } else {
                    Err(EvalError::IndexOutOfRange)
                }
            },
        }
    }

    /// Instantiates a declared struct; the members must name the declared
    /// fields in order.
    #[verifier::loop_isolation(false)]
    pub fn enforce_struct_expression(&self, cs: &mut ConstraintLog, file_scope: &String, function_scope: &String, variable: &String, members: &Vec<StructMember>) -> (r: Result<ResolvedValue, EvalError>)
        ensures
            (result_view(r), final(cs)@) == self.eval_of(file_scope@, function_scope@, Expression::Struct(*variable, *members), old(cs)@),
        decreases self.depth, Expression::Struct(*variable, *members), 1nat,
    {
        let struct_name = scoped_name(file_scope, variable);
        let definition = match self.global.get(&struct_name) {
            Some(ResolvedValue::StructDefinition(d)) => d,
            Some(_) => return Err(EvalError::NotAStruct),
            None => return Err(EvalError::UnknownStruct),
        };
        if definition.fields.len() != members.len() {
            return Err(EvalError::StructFieldMismatch);
        }
        let mut k: usize = 0;
        while k < members.len()
            invariant
                k <= members.len(),
                definition.fields.len() == members.len(),
                forall|j: int| 0 <= j < k ==> field_names(definition.fields@)[j] == #[trigger] members@[j].variable@,
            decreases members.len() - k,
        {
            if !definition.fields[k].variable.eq(&members[k].variable) {
                return Err(EvalError::StructFieldMismatch);
            }
            k = k + 1;
        }
        match self.enforce_members(cs, file_scope, function_scope, members) {
            Ok(ms) => Ok(ResolvedValue::StructExpression(variable.clone(), ms)),
            Err(err) => Err(err),
        }
    }

    fn enforce_members(&self, cs: &mut ConstraintLog, file_scope: &String, function_scope: &String, members: &Vec<StructMember>) -> (r: Result<Vec<ResolvedStructMember>, EvalError>)
        ensures
            ({
                let o = eval_members(*self.global, self.local@, file_scope@, function_scope@, members@, 0, self.depth as nat, old(cs)@);
                &&& final(cs)@ == o.1
                &&& match r {
                    Ok(ms) => o.0 == Ok::<Seq<(Seq<char>, Value)>, EvalError>(view_members(ms@)),
                    Err(e) => o.0 == Err::<Seq<(Seq<char>, Value)>, EvalError>(e),
                }
            }),
        decreases self.depth, *members, 0nat,
    {
        let ghost g = *self.global;
        let ghost l = self.local@;
        let ghost d = self.depth as nat;
        let ghost total = eval_members(g, l, file_scope@, function_scope@, members@, 0, d, old(cs)@);
        let mut result: Vec<ResolvedStructMember> = Vec::new();
        proof {
            lemma_prepend_empty(total);
        }
        let mut i: usize = 0;
        while i < members.len()
            invariant
                i <= members.len(),
                g == *self.global,
                l == self.local@,
                d == self.depth as nat,
                total == eval_members(g, l, file_scope@, function_scope@, members@, 0, d, old(cs)@),
                total == prepend(view_members(result@), eval_members(g, l, file_scope@, function_scope@, members@, i as int, d, cs@)),
            decreases members.len() - i,
        {
            proof {
                assert(decreases_to!(*members => members@[i as int]));
            }
            let ghost prefix = view_members(result@);
            match self.enforce_expression(cs, file_scope, function_scope, &members[i].expression) {
                Ok(v) => {
                    let m = ResolvedStructMember(members[i].variable.clone(), v);
                    proof {
                        lemma_view_members_push(result@, m);
                        lemma_prepend_concat(prefix, seq![(m.0@, v@)], eval_members(g, l, file_scope@, function_scope@, members@, i + 1, d, cs@));
                        assert(prefix.push((m.0@, v@)) == prefix + seq![(m.0@, v@)]);
                    }
                    result.push(m);
                },
                Err(err) => return Err(err),
            }
            i = i + 1;
        }
        proof {
            lemma_prepend_end(view_members(result@), cs@);
        }
        Ok(result)
    }

    /// The value of a named member of a struct.
    #[verifier::loop_isolation(false)]
    pub fn enforce_struct_access_expression(&self, cs: &mut ConstraintLog, file_scope: &String, function_scope: &String, struct_variable: &Expression, struct_member: &String) -> (r: Result<ResolvedValue, EvalError>)
        ensures
            ({
                let o = self.eval_of(file_scope@, function_scope@, *struct_variable, old(cs)@);
                &&& final(cs)@ == o.1
                &&& result_view(r) == match o.0 {
                    Ok(v) => access_spec(v, struct_member@),
                    Err(e) => Err(e),
                }
            }),
        decreases self.depth, *struct_variable, 3nat,
    {
        let ms = match self.enforce_expression(cs, file_scope, function_scope, struct_variable) {
            Ok(ResolvedValue::StructExpression(_, ms)) => ms,
            Ok(_) => return Err(EvalError::NotAStruct),
            Err(err) => return Err(err),
        };
        let ghost model = view_members(ms@);
        proof {
            lemma_view_members_index(ms@);
        }
        let mut i: usize = 0;
        while i < ms.len()
            invariant
                i <= ms.len(),
                model == view_members(ms@),
                model.len() == ms@.len(),
                member_spec(model, struct_member@, 0) == member_spec(model, struct_member@, i as int),
            decreases ms.len() - i,
        {
            if ms[i].0.eq(struct_member) {
                return Ok(ms[i].1.duplicate());
            }
            i = i + 1;
        }
        Err(EvalError::UnknownStructMember)
    }

    /// A list of expressions, left to right.
    fn enforce_list(&self, cs: &mut ConstraintLog, file_scope: &String, function_scope: &String, exprs: &Vec<Expression>) -> (r: Result<Vec<ResolvedValue>, EvalError>)
        ensures
            ({
                let o = eval_list(*self.global, self.local@, file_scope@, function_scope@, exprs@, 0, self.depth as nat, old(cs)@);
                &&& final(cs)@ == o.1
                &&& match r {
                    Ok(vs) => o.0 == Ok::<Seq<Value>, EvalError>(view_values(vs@)),
                    Err(e) => o.0 == Err::<Seq<Value>, EvalError>(e),
                }
            }),
        decreases self.depth, *exprs, 0nat,
    {
        let ghost g = *self.global;
        let ghost l = self.local@;
        let ghost d = self.depth as nat;
        let ghost total = eval_list(g, l, file_scope@, function_scope@, exprs@, 0, d, old(cs)@);
        let mut result: Vec<ResolvedValue> = Vec::new();
        proof {
            lemma_prepend_empty(total);
        }
        let mut i: usize = 0;
        while i < exprs.len()
            invariant
                i <= exprs.len(),
                g == *self.global,
                l == self.local@,
                d == self.depth as nat,
                total == eval_list(g, l, file_scope@, function_scope@, exprs@, 0, d, old(cs)@),
                total == prepend(view_values(result@), eval_list(g, l, file_scope@, function_scope@, exprs@, i as int, d, cs@)),
            decreases exprs.len() - i,
        {
            proof {
                assert(decreases_to!(*exprs => exprs@[i as int]));
            }
            let ghost prefix = view_values(result@);
            match self.enforce_expression(cs, file_scope, function_scope, &exprs[i]) {
                Err(err) => return Err(err),
                Ok(v) => {
                    proof {
                        lemma_view_values_push(result@, v);
                        lemma_prepend_concat(prefix, seq![v@], eval_list(g, l, file_scope@, function_scope@, exprs@, i + 1, d, cs@));
                        assert(prefix.push(v@) == prefix + seq![v@]);
                    }
                    result.push(v);
                },
            }
            i = i + 1;
        }
        proof {
            lemma_prepend_end(view_values(result@), cs@);
        }
        Ok(result)
    }

    /// Inlines a call: evaluates the arguments, binds them to the parameters in
    /// the callee's scope and evaluates the returned expressions there.
    /// Inlined calls nest at most `MAX_CALL_DEPTH` deep (counted down in
    /// `depth`); a deeper call, such as a recursive one, fails with
    /// `CallDepthExceeded`.
    #[verifier::loop_isolation(false)]
    pub fn enforce_function_call_expression(&self, cs: &mut ConstraintLog, file_scope: &String, function_scope: &String, function: &String, arguments: &Vec<Expression>) -> (r: Result<ResolvedValue, EvalError>)
        ensures
            (result_view(r), final(cs)@) == self.eval_of(file_scope@, function_scope@, Expression::FunctionCall(*function, *arguments), old(cs)@),
        decreases self.depth, Expression::FunctionCall(*function, *arguments), 1nat,
    {
        let function_name = scoped_name(file_scope, function);
        let definition = match self.global.get(&function_name) {
            Some(ResolvedValue::Function(f)) => f,
            Some(_) => return Err(EvalError::NotAFunction),
            None => return Err(EvalError::UnknownFunction),
        };
        if self.depth == 0 {
            return Err(EvalError::CallDepthExceeded);
        }
        if arguments.len() != definition.parameters.len() {
            return Err(EvalError::ArgumentCountMismatch);
        }
        let values = match self.enforce_list(cs, file_scope, function_scope, arguments) {
            Ok(vs) => vs,
            Err(err) => return Err(err),
        };
        proof {
            lemma_eval_list_len(*self.global, self.local@, file_scope@, function_scope@, arguments@, 0, self.depth as nat, old(cs)@);
        }
        let ghost args = view_values(values@);
        proof {
            lemma_view_values_index(values@);
        }
        let mut callee_local = SymbolTable::new();
        let mut i: usize = 0;
        while i < values.len()
            invariant
                i <= values.len(),
                values.len() == definition.parameters.len(),
                args == view_values(values@),
                args.len() == values@.len(),
                callee_local@.len() == i,
                forall|k: int| 0 <= k < i ==> #[trigger] callee_local@[k] == (scoped(function_name@, definition.parameters@[k]@), args[k]),
            decreases values.len() - i,
        {
            proof {
                lemma_view_values_index(values@);
            }
            let key = scoped_name(&function_name, &definition.parameters[i]);
            callee_local.insert(key, values[i].duplicate());
            i = i + 1;
        }
        assert(callee_local@ =~= call_bindings(function_name@, definition.parameters@, args));
        let callee = ResolvedProgram { global: self.global, local: &callee_local, depth: self.depth - 1 };
        let mut outputs = match callee.enforce_list(cs, file_scope, &function_name, &definition.results) {
            Ok(vs) => vs,
            Err(err) => return Err(err),
        };
        proof {
            lemma_view_values_index(outputs@);
        }
        if outputs.len() == 1 {
            Ok(outputs.swap_remove(0))
        } else {
            Ok(ResolvedValue::Return(outputs))
        }
    }
}

} // verus!
