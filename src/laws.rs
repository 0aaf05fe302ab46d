//! Laws of evaluation, proved over the semantics.
use vstd::prelude::*;
use crate::ast::{Expression, RangeOrExpression, SpreadOrExpression, StructMember};
use crate::gadgets::{ArithOp, Constraint, Gadget};
use crate::semantics::{
    arith_operator, arith_spec, emit, eval, eval_list, eval_members, fields_match, kind,
    lookup_spec, member_spec, EvalError,
};
use crate::symbols::{lookup_entry, lookup_model, scoped, Bindings, SymbolTable};
use crate::values::{field_names, ResolvedValue, Value};

verus! {

/// A local binding of a name hides a global binding of the same name.
pub proof fn law_local_shadows_global(
    global: SymbolTable,
    local: Bindings,
    fs: Seq<char>,
    fns: Seq<char>,
    name: String,
    v: Value,
    depth: nat,
    log: Seq<Constraint>,
)
    requires
        lookup_model(local, scoped(fns, name@)) == Some(v),
    ensures
        eval(global, local, fs, fns, Expression::Variable(name), depth, log) == (Ok::<Value, EvalError>(v), log),
{
}

/// Arithmetic either yields a value of the domain its operands select or fails
/// with a type mismatch naming the operator and the operand kinds, or a
/// non-integer exponent; the gadgets add a third failure, a constant division
/// by zero.
pub proof fn law_arith_dispatch(op: ArithOp, l: Value, r: Value)
    ensures
        match arith_spec(op, l, r) {
            Ok((v, _)) => {
                ||| (l is U32 && r is U32 && v is U32)
                ||| (l is FieldElement && r is FieldElement && op != ArithOp::Pow && v is FieldElement)
                ||| (op == ArithOp::Pow && l is FieldElement && r is U32 && v is FieldElement)
            },
            Err(e) => {
                ||| e == EvalError::TypeMismatch(arith_operator(op), kind(l), kind(r))
                    && !(l is U32 && r is U32)
                    && !(op != ArithOp::Pow && l is FieldElement && r is FieldElement)
                    && !(op == ArithOp::Pow && (l is FieldElement && r is U32 || r is FieldElement))
                ||| e == EvalError::NonIntegerExponent && op == ArithOp::Pow && r is FieldElement
                ||| e == EvalError::DivisionByZero && op == ArithOp::Div && ((l is U32 && r is U32) || (l is FieldElement && r is FieldElement))
            },
        },
{
}

/// The expression applying an arithmetic operator.
pub open spec fn arith_expr(op: ArithOp, a: Expression, b: Expression) -> Expression {
    match op {
        ArithOp::Add => Expression::Add(Box::new(a), Box::new(b)),
        ArithOp::Sub => Expression::Sub(Box::new(a), Box::new(b)),
        ArithOp::Mul => Expression::Mul(Box::new(a), Box::new(b)),
        ArithOp::Div => Expression::Div(Box::new(a), Box::new(b)),
        ArithOp::Pow => Expression::Pow(Box::new(a), Box::new(b)),
    }
}

proof fn lemma_binary_unfold(
    global: SymbolTable,
    local: Bindings,
    fs: Seq<char>,
    fns: Seq<char>,
    op: ArithOp,
    a: Expression,
    b: Expression,
    depth: nat,
    log: Seq<Constraint>,
)
    ensures
        eval(global, local, fs, fns, arith_expr(op, a, b), depth, log) == ({
            let (ra, la) = eval(global, local, fs, fns, a, depth, log);
            match ra {
                Err(e) => (Err(e), la),
                Ok(va) => {
                    let (rb, lb) = eval(global, local, fs, fns, b, depth, la);
                    match rb {
                        Err(e) => (Err(e), lb),
                        Ok(vb) => emit(arith_spec(op, va, vb), lb),
                    }
                },
            }
        }),
{
    let e = arith_expr(op, a, b);
    assert(crate::semantics::eval_operands(global, local, fs, fns, e, depth, log) == ({
        let (ra, la) = eval(global, local, fs, fns, a, depth, log);
        match ra {
            Err(err) => (Err(err), la),
            Ok(va) => {
                let (rb, lb) = eval(global, local, fs, fns, b, depth, la);
                match rb {
                    Err(err) => (Err(err), lb),
                    Ok(vb) => (Ok((va, vb)), lb),
                }
            },
        }
    }));
    match op {
        ArithOp::Add => {},
        ArithOp::Sub => {},
        ArithOp::Mul => {},
        ArithOp::Div => {},
        ArithOp::Pow => {},
    }
}

/// A constant guard evaluates only the branch it selects: the other adds no
/// constraint and is never resolved.
pub proof fn law_if_else_lazy(
    global: SymbolTable,
    local: Bindings,
    fs: Seq<char>,
    fns: Seq<char>,
    guard: bool,
    t: Expression,
    f: Expression,
    depth: nat,
    log: Seq<Constraint>,
)
    ensures
        eval(
            global,
            local,
            fs,
            fns,
            Expression::IfElse(Box::new(Expression::Boolean(guard)), Box::new(t), Box::new(f)),
            depth,
            log,
        ) == if guard {
            eval(global, local, fs, fns, t, depth, log)
        } else {
            eval(global, local, fs, fns, f, depth, log)
        },
{
    assert(eval(global, local, fs, fns, Expression::Boolean(guard), depth, log) == (
        Ok::<Value, EvalError>(Value::Boolean(Gadget::Constant(guard))),
        log,
    ));
}

/// An array literal holding only the spread of a bound array is that array,
/// whether the binding is local or global.
pub proof fn law_spread_identity(
    global: SymbolTable,
    local: Bindings,
    fs: Seq<char>,
    fns: Seq<char>,
    items: Vec<SpreadOrExpression>,
    name: String,
    vs: Seq<Value>,
    depth: nat,
    log: Seq<Constraint>,
)
    requires
        items@ == seq![SpreadOrExpression::Spread(Expression::Variable(name))],
        lookup_spec(global, local, fs, fns, name) == Ok::<Value, EvalError>(Value::Array(vs)),
    ensures
        eval(global, local, fs, fns, Expression::Array(items), depth, log) == (Ok::<Value, EvalError>(Value::Array(vs)), log),
{
    assert(vs + Seq::<Value>::empty() == vs);
    assert(crate::semantics::eval_elements(global, local, fs, fns, items@, 1, depth, log) == (
        Ok::<Seq<Value>, EvalError>(Seq::empty()),
        log,
    ));
    assert(crate::semantics::eval_elements(global, local, fs, fns, items@, 0, depth, log) == (
        Ok::<Seq<Value>, EvalError>(vs),
        log,
    ));
}

/// `a[i..j]` has `j - i` elements when `i <= j <= |a|`, and is out of range
/// otherwise.
pub proof fn law_slice_bounds(
    global: SymbolTable,
    local: Bindings,
    fs: Seq<char>,
    fns: Seq<char>,
    a: Expression,
    i: u32,
    j: u32,
    vs: Seq<Value>,
    after: Seq<Constraint>,
    depth: nat,
    log: Seq<Constraint>,
)
    requires
        eval(global, local, fs, fns, a, depth, log) == (Ok::<Value, EvalError>(Value::Array(vs)), after),
    ensures
        ({
            let (r, l) = eval(
                global,
                local,
                fs,
                fns,
                Expression::ArrayAccess(Box::new(a), Box::new(RangeOrExpression::Range(Some(i), Some(j)))),
                depth,
                log,
            );
            &&& l == after
            &&& if i <= j <= vs.len() {
                r is Ok && r->Ok_0 is Array && r->Ok_0->Array_0.len() == j - i
                    && r->Ok_0->Array_0 == vs.subrange(i as int, j as int)
            } else {
                r == Err::<Value, EvalError>(EvalError::IndexOutOfRange)
            }
        }),
{
}

proof fn lemma_member_names(
    global: SymbolTable,
    local: Bindings,
    fs: Seq<char>,
    fns: Seq<char>,
    members: Seq<StructMember>,
    i: int,
    depth: nat,
    log: Seq<Constraint>,
)
    requires
        0 <= i <= members.len(),
    ensures
        ({
            let r = eval_members(global, local, fs, fns, members, i, depth, log).0;
            r is Ok ==> {
                &&& r->Ok_0.len() == members.len() - i
                &&& forall|k: int| 0 <= k < r->Ok_0.len() ==> #[trigger] r->Ok_0[k].0 == members[i + k].variable@
            }
        }),
    decreases members.len() - i,
{
    if i < members.len() {
        let (r, log1) = eval(global, local, fs, fns, members[i].expression, depth, log);
        lemma_member_names(global, local, fs, fns, members, i + 1, depth, log1);
        let rest = eval_members(global, local, fs, fns, members, i + 1, depth, log1).0;
        if r is Ok && rest is Ok {
            let all = seq![(members[i].variable@, r->Ok_0)] + rest->Ok_0;
            assert forall|k: int| 0 <= k < all.len() implies #[trigger] all[k].0 == members[i + k].variable@ by {
                if k > 0 {
                    assert(all[k] == rest->Ok_0[k - 1]);
                }
            }
        }
    }
}

proof fn lemma_member_found(ms: Seq<(Seq<char>, Value)>, name: Seq<char>, i: int, k: int)
    requires
        0 <= i <= k < ms.len(),
        ms[k].0 == name,
        forall|j: int| 0 <= j < k ==> #[trigger] ms[j].0 != name,
    ensures
        member_spec(ms, name, i) == Some(ms[k].1),
    decreases k - i,
{
    if i < k {
        lemma_member_found(ms, name, i + 1, k);
    }
}

/// Reading member `k` of a struct literal gives the value its expression
/// resolved to, when the struct's field names are distinct.
pub proof fn law_struct_round_trip(
    global: SymbolTable,
    local: Bindings,
    fs: Seq<char>,
    fns: Seq<char>,
    name: String,
    members: Vec<StructMember>,
    field: String,
    k: int,
    depth: nat,
    log: Seq<Constraint>,
)
    requires
        0 <= k < members@.len(),
        field@ == members@[k].variable@,
        forall|i: int, j: int|
            0 <= i < j < members@.len() ==> #[trigger] members@[i].variable@ != #[trigger] members@[j].variable@,
        lookup_entry(global.entries@, scoped(fs, name@)) matches Some(ResolvedValue::StructDefinition(d)) && fields_match(
            field_names(d.fields@),
            members@,
        ),
        eval_members(global, local, fs, fns, members@, 0, depth, log).0 is Ok,
    ensures
        ({
            let (ms, after) = eval_members(global, local, fs, fns, members@, 0, depth, log);
            eval(
                global,
                local,
                fs,
                fns,
                Expression::StructMemberAccess(Box::new(Expression::Struct(name, members)), field),
                depth,
                log,
            ) == (Ok::<Value, EvalError>(ms->Ok_0[k].1), after)
        }),
{
    lemma_member_names(global, local, fs, fns, members@, 0, depth, log);
    let ms = eval_members(global, local, fs, fns, members@, 0, depth, log).0->Ok_0;
    assert forall|j: int| 0 <= j < k implies #[trigger] ms[j].0 != field@ by {
        assert(ms[j].0 == members@[0 + j].variable@);
        assert(ms[k].0 == members@[0 + k].variable@);
    }
    assert(ms[k].0 == members@[0 + k].variable@);
    lemma_member_found(ms, field@, 0, k);
    let after = eval_members(global, local, fs, fns, members@, 0, depth, log).1;
    assert(eval(global, local, fs, fns, Expression::Struct(name, members), depth, log) == (
        Ok::<Value, EvalError>(Value::StructExpression(name@, ms)),
        after,
    ));
}

/// A call whose function hands back one value evaluates to that value; one
/// that hands back several evaluates to all of them, together.
pub proof fn law_call_unwraps_single_value(
    global: SymbolTable,
    local: Bindings,
    fs: Seq<char>,
    fns: Seq<char>,
    name: String,
    args: Vec<Expression>,
    depth: nat,
    log: Seq<Constraint>,
    vs: Seq<Value>,
    after: Seq<Constraint>,
)
    requires
        lookup_entry(global.entries@, scoped(fs, name@)) matches Some(ResolvedValue::Function(f)) && {
            &&& depth > 0
            &&& args.len() == f.parameters.len()
            &&& eval_list(global, local, fs, fns, args@, 0, depth, log).0 is Ok
            &&& {
                let (vals, l1) = eval_list(global, local, fs, fns, args@, 0, depth, log);
                let scope = scoped(fs, name@);
                eval_list(
                    global,
                    crate::semantics::call_bindings(scope, f.parameters@, vals->Ok_0),
                    fs,
                    scope,
                    f.results@,
                    0,
                    (depth - 1) as nat,
                    l1,
                ) == (Ok::<Seq<Value>, EvalError>(vs), after)
            }
        },
    ensures
        eval(global, local, fs, fns, Expression::FunctionCall(name, args), depth, log) == (
            Ok::<Value, EvalError>(if vs.len() == 1 { vs[0] } else { Value::Return(vs) }),
            after,
        ),
{
}

proof fn lemma_assoc(a: Seq<Constraint>, b: Seq<Constraint>, c: Seq<Constraint>)
    ensures
        (a + b) + c == a + (b + c),
        a + Seq::<Constraint>::empty() == a,
        Seq::<Constraint>::empty() + a == a,
{
    assert((a + b) + c =~= a + (b + c));
    assert(a + Seq::<Constraint>::empty() =~= a);
    assert(Seq::<Constraint>::empty() + a =~= a);
}

/// An evaluation appends to the log, and what it appends does not depend on
/// what the log already holds.
pub proof fn lemma_eval_frame(
    global: SymbolTable,
    local: Bindings,
    fs: Seq<char>,
    fns: Seq<char>,
    e: Expression,
    depth: nat,
    log: Seq<Constraint>,
)
    ensures
        ({
            let o = eval(global, local, fs, fns, e, depth, Seq::empty());
            eval(global, local, fs, fns, e, depth, log) == (o.0, log + o.1)
        }),
    decreases depth, e, 2nat,
{
    let empty = Seq::<Constraint>::empty();
    lemma_assoc(log, empty, empty);
    match e {
        Expression::Not(x) => {
            lemma_eval_frame(global, local, fs, fns, *x, depth, log);
        },
        Expression::IfElse(c, t, f) => {
            lemma_eval_frame(global, local, fs, fns, *c, depth, log);
            let lc = eval(global, local, fs, fns, *c, depth, empty).1;
            lemma_eval_frame(global, local, fs, fns, *t, depth, log + lc);
            lemma_eval_frame(global, local, fs, fns, *t, depth, lc);
            lemma_eval_frame(global, local, fs, fns, *f, depth, log + lc);
            lemma_eval_frame(global, local, fs, fns, *f, depth, lc);
            lemma_assoc(log, lc, eval(global, local, fs, fns, *t, depth, empty).1);
            lemma_assoc(log, lc, eval(global, local, fs, fns, *f, depth, empty).1);
        },
        Expression::Array(items) => {
            lemma_elements_frame(global, local, fs, fns, items@, 0, depth, log);
        },
        Expression::ArrayAccess(a, index) => {
            lemma_eval_frame(global, local, fs, fns, *a, depth, log);
            let la = eval(global, local, fs, fns, *a, depth, empty).1;
            match *index {
                RangeOrExpression::Expression(ie) => {
                    lemma_eval_frame(global, local, fs, fns, ie, depth, log + la);
                    lemma_eval_frame(global, local, fs, fns, ie, depth, la);
                    lemma_assoc(log, la, eval(global, local, fs, fns, ie, depth, empty).1);
                },
                _ => {},
            }
        },
        Expression::Struct(_, members) => {
            lemma_members_frame(global, local, fs, fns, members@, 0, depth, log);
        },
        Expression::StructMemberAccess(x, _) => {
            lemma_eval_frame(global, local, fs, fns, *x, depth, log);
        },
        Expression::FunctionCall(name, args) => {
            lemma_list_frame(global, local, fs, fns, args@, 0, depth, log);
            match lookup_entry(global.entries@, scoped(fs, name@)) {
                Some(ResolvedValue::Function(f)) => if depth > 0 {
                    let (ra, la) = eval_list(global, local, fs, fns, args@, 0, depth, empty);
                    if ra is Ok {
                        let scope = scoped(fs, name@);
                        let callee = crate::semantics::call_bindings(scope, f.parameters@, ra->Ok_0);
                        lemma_list_frame(global, callee, fs, scope, f.results@, 0, (depth - 1) as nat, log + la);
                        lemma_list_frame(global, callee, fs, scope, f.results@, 0, (depth - 1) as nat, la);
                        lemma_assoc(log, la, eval_list(global, callee, fs, scope, f.results@, 0, (depth - 1) as nat, empty).1);
                    }
                },
                _ => {},
            }
        },
        Expression::Add(_, _) | Expression::Sub(_, _) | Expression::Mul(_, _)
        | Expression::Div(_, _) | Expression::Pow(_, _) | Expression::And(_, _)
        | Expression::Or(_, _) | Expression::Eq(_, _) => {
            lemma_operands_frame(global, local, fs, fns, e, depth, log);
            let lo = crate::semantics::eval_operands(global, local, fs, fns, e, depth, empty).1;
            assert forall|c: Constraint| (log + lo).push(c) == log + lo.push(c) by {
                assert((log + lo).push(c) =~= log + lo.push(c));
            }
        },
        _ => {},
    }
}

proof fn lemma_operands_frame(
    global: SymbolTable,
    local: Bindings,
    fs: Seq<char>,
    fns: Seq<char>,
    e: Expression,
    depth: nat,
    log: Seq<Constraint>,
)
    ensures
        ({
            let o = crate::semantics::eval_operands(global, local, fs, fns, e, depth, Seq::empty());
            crate::semantics::eval_operands(global, local, fs, fns, e, depth, log) == (o.0, log + o.1)
        }),
    decreases depth, e, 1nat,
{
    let empty = Seq::<Constraint>::empty();
    lemma_assoc(log, empty, empty);
    match e {
        Expression::Add(l, r) | Expression::Sub(l, r) | Expression::Mul(l, r)
        | Expression::Div(l, r) | Expression::Pow(l, r) | Expression::And(l, r)
        | Expression::Or(l, r) | Expression::Eq(l, r) => {
            lemma_eval_frame(global, local, fs, fns, *l, depth, log);
            let ll = eval(global, local, fs, fns, *l, depth, empty).1;
            lemma_eval_frame(global, local, fs, fns, *r, depth, log + ll);
            lemma_eval_frame(global, local, fs, fns, *r, depth, ll);
            lemma_assoc(log, ll, eval(global, local, fs, fns, *r, depth, empty).1);
        },
        _ => {},
    }
}

proof fn lemma_elements_frame(
    global: SymbolTable,
    local: Bindings,
    fs: Seq<char>,
    fns: Seq<char>,
    items: Seq<SpreadOrExpression>,
    i: int,
    depth: nat,
    log: Seq<Constraint>,
)
    ensures
        ({
            let o = crate::semantics::eval_elements(global, local, fs, fns, items, i, depth, Seq::empty());
            crate::semantics::eval_elements(global, local, fs, fns, items, i, depth, log) == (o.0, log + o.1)
        }),
    decreases depth, items, items.len() - i,
{
    let empty = Seq::<Constraint>::empty();
    lemma_assoc(log, empty, empty);
    if 0 <= i < items.len() {
        match items[i] {
            SpreadOrExpression::Expression(x) => {
                lemma_eval_frame(global, local, fs, fns, x, depth, log);
                let lx = eval(global, local, fs, fns, x, depth, empty).1;
                lemma_elements_frame(global, local, fs, fns, items, i + 1, depth, log + lx);
                lemma_elements_frame(global, local, fs, fns, items, i + 1, depth, lx);
                lemma_assoc(log, lx, crate::semantics::eval_elements(global, local, fs, fns, items, i + 1, depth, empty).1);
            },
            _ => {
                lemma_elements_frame(global, local, fs, fns, items, i + 1, depth, log);
            },
        }
    }
}

proof fn lemma_members_frame(
    global: SymbolTable,
    local: Bindings,
    fs: Seq<char>,
    fns: Seq<char>,
    members: Seq<StructMember>,
    i: int,
    depth: nat,
    log: Seq<Constraint>,
)
    ensures
        ({
            let o = eval_members(global, local, fs, fns, members, i, depth, Seq::empty());
            eval_members(global, local, fs, fns, members, i, depth, log) == (o.0, log + o.1)
        }),
    decreases depth, members, members.len() - i,
{
    let empty = Seq::<Constraint>::empty();
    lemma_assoc(log, empty, empty);
    if 0 <= i < members.len() {
        lemma_eval_frame(global, local, fs, fns, members[i].expression, depth, log);
        let lx = eval(global, local, fs, fns, members[i].expression, depth, empty).1;
        lemma_members_frame(global, local, fs, fns, members, i + 1, depth, log + lx);
        lemma_members_frame(global, local, fs, fns, members, i + 1, depth, lx);
        lemma_assoc(log, lx, eval_members(global, local, fs, fns, members, i + 1, depth, empty).1);
    }
}

proof fn lemma_list_frame(
    global: SymbolTable,
    local: Bindings,
    fs: Seq<char>,
    fns: Seq<char>,
    exprs: Seq<Expression>,
    i: int,
    depth: nat,
    log: Seq<Constraint>,
)
    ensures
        ({
            let o = eval_list(global, local, fs, fns, exprs, i, depth, Seq::empty());
            eval_list(global, local, fs, fns, exprs, i, depth, log) == (o.0, log + o.1)
        }),
    decreases depth, exprs, exprs.len() - i,
{
    let empty = Seq::<Constraint>::empty();
    lemma_assoc(log, empty, empty);
    if 0 <= i < exprs.len() {
        lemma_eval_frame(global, local, fs, fns, exprs[i], depth, log);
        let lx = eval(global, local, fs, fns, exprs[i], depth, empty).1;
        lemma_list_frame(global, local, fs, fns, exprs, i + 1, depth, log + lx);
        lemma_list_frame(global, local, fs, fns, exprs, i + 1, depth, lx);
        lemma_assoc(log, lx, eval_list(global, local, fs, fns, exprs, i + 1, depth, empty).1);
    }
}

/// `op(a, b)` appends the constraints of `a`, then those of `b`, then the one
/// of `op`; where an operand fails, what came before it stays and nothing follows.
pub proof fn law_post_order(
    global: SymbolTable,
    local: Bindings,
    fs: Seq<char>,
    fns: Seq<char>,
    op: ArithOp,
    a: Expression,
    b: Expression,
    depth: nat,
    log: Seq<Constraint>,
)
    ensures
        ({
            let (ra, ca) = eval(global, local, fs, fns, a, depth, Seq::empty());
            let (rb, cb) = eval(global, local, fs, fns, b, depth, Seq::empty());
            let whole = eval(global, local, fs, fns, arith_expr(op, a, b), depth, log);
            match (ra, rb) {
                (Err(err), _) => whole == (Err::<Value, EvalError>(err), log + ca),
                (Ok(_), Err(err)) => whole == (Err::<Value, EvalError>(err), log + ca + cb),
                (Ok(va), Ok(vb)) => match arith_spec(op, va, vb) {
                    Ok((v, c)) => whole == (Ok::<Value, EvalError>(v), log + ca + cb.push(c)),
                    Err(err) => whole == (Err::<Value, EvalError>(err), log + ca + cb),
                },
            }
        }),
{
    let empty = Seq::<Constraint>::empty();
    lemma_binary_unfold(global, local, fs, fns, op, a, b, depth, log);
    lemma_eval_frame(global, local, fs, fns, a, depth, log);
    let ca = eval(global, local, fs, fns, a, depth, empty).1;
    let cb = eval(global, local, fs, fns, b, depth, empty).1;
    lemma_eval_frame(global, local, fs, fns, b, depth, log + ca);
    lemma_assoc(log, ca, cb);
    assert forall|c: Constraint| (log + ca + cb).push(c) == log + ca + cb.push(c) by {
        assert((log + ca + cb).push(c) =~= log + ca + cb.push(c));
    }
}

} // verus!
