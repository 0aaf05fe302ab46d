//! The gadget layer: constant-folding field, integer and boolean gadgets and
//! the record of the constraints they add.
use vstd::prelude::*;

verus! {

/// The modulus of the prime field that field elements live in. It is a small
/// prime standing in for the proof system's scalar field, which this library
/// does not link: every field result here is exact for this modulus only.
pub const FIELD_MODULUS: u64 = 65521;

/// A scalar gadget: a constant known at compile time, or a witness whose
/// assignment may be unknown.
#[derive(Clone, Copy, Debug, PartialEq, Eq)]
pub enum Gadget<T> {
    Constant(T),
    Witness(Option<T>),
}

impl<T> Gadget<T> {
    pub open spec fn value(self) -> Option<T> {
        match self {
            Gadget::Constant(v) => Some(v),
            Gadget::Witness(v) => v,
        }
    }

    pub open spec fn is_constant(self) -> bool {
        self is Constant
    }
}

/// The kind of each constraint a gadget adds to the constraint system.
#[derive(Clone, Copy, Debug, PartialEq, Eq)]
pub enum Constraint {
    U32Add,
    U32Sub,
    U32Mul,
    U32Div,
    U32Pow,
    FieldAdd,
    FieldSub,
    FieldMul,
    FieldDiv,
    FieldPow,
    BooleanAnd,
    BooleanOr,
    U32Eq,
    FieldEq,
    BooleanEq,
}

/// The five arithmetic operators.
#[derive(Clone, Copy, Debug, PartialEq, Eq)]
pub enum ArithOp {
    Add,
    Sub,
    Mul,
    Div,
    Pow,
}

/// Errors that a gadget reports on constant operands.
#[derive(Clone, Copy, Debug, PartialEq, Eq)]
pub enum GadgetError {
    DivisionByZero,
}

pub open spec fn word_pow(x: u32, n: nat) -> u32
    decreases n,
{
    if n == 0 {
        1
    } else {
        ((word_pow(x, (n - 1) as nat) * x) % 0x1_0000_0000) as u32
    }
}

/// Integer arithmetic modulo 2^32; `None` on division by zero.
pub open spec fn word_arith(op: ArithOp, x: u32, y: u32) -> Option<u32> {
    match op {
        ArithOp::Add => Some(((x + y) % 0x1_0000_0000) as u32),
        ArithOp::Sub => Some(((x - y + 0x1_0000_0000) % 0x1_0000_0000) as u32),
        ArithOp::Mul => Some(((x * y) % 0x1_0000_0000) as u32),
        ArithOp::Div => if y == 0 { None } else { Some((x / y) as u32) },
        ArithOp::Pow => Some(word_pow(x, y as nat)),
    }
}

pub open spec fn field_pow(x: u64, n: nat) -> u64
    decreases n,
{
    if n == 0 {
        1
    } else {
        ((field_pow(x, (n - 1) as nat) * (x % FIELD_MODULUS)) as int % (FIELD_MODULUS as int)) as u64
    }
}

/// The least `z` from `from` on with `z * y == x` in the field.
pub open spec fn field_quotient_from(x: u64, y: u64, from: nat) -> Option<u64>
    decreases FIELD_MODULUS - from,
{
    if from >= FIELD_MODULUS {
        None
    } else if (from * (y % FIELD_MODULUS)) % (FIELD_MODULUS as int) == x % FIELD_MODULUS {
        Some(from as u64)
    } else {
        field_quotient_from(x, y, from + 1)
    }
}

/// Field arithmetic over residues; `None` where the divisor is zero in the field.
pub open spec fn field_arith(op: ArithOp, x: u64, y: u64) -> Option<u64> {
    let p = FIELD_MODULUS as int;
    let a = x % FIELD_MODULUS;
    let b = y % FIELD_MODULUS;
    match op {
        ArithOp::Add => Some(((a + b) % p) as u64),
        ArithOp::Sub => Some(((a + p - b) % p) as u64),
        ArithOp::Mul => Some(((a * b) % p) as u64),
        ArithOp::Div => if b == 0 { None } else { field_quotient_from(x, y, 0) },
        ArithOp::Pow => Some(field_pow(x, b as nat)),
    }
}

/// Applies an operation on two gadgets: constants fold to a constant (or fail),
/// anything else yields a witness whose assignment is the operation's value.
pub open spec fn lift<T>(a: Gadget<T>, b: Gadget<T>, v: Option<T>) -> Result<Gadget<T>, GadgetError> {
    if a.is_constant() && b.is_constant() {
        match v {
            Some(z) => Ok(Gadget::Constant(z)),
            None => Err(GadgetError::DivisionByZero),
        }
    } else {
        Ok(Gadget::Witness(v))
    }
}

pub open spec fn word_gadget_spec(op: ArithOp, a: Gadget<u32>, b: Gadget<u32>) -> Result<Gadget<u32>, GadgetError> {
    lift(a, b, match (a.value(), b.value()) {
        (Some(x), Some(y)) => word_arith(op, x, y),
        _ => None,
    })
}

pub open spec fn field_gadget_spec(op: ArithOp, a: Gadget<u64>, b: Gadget<u64>) -> Result<Gadget<u64>, GadgetError> {
    lift(a, b, match (a.value(), b.value()) {
        (Some(x), Some(y)) => field_arith(op, x, y),
        _ => None,
    })
}

pub open spec fn field_pow_gadget_spec(a: Gadget<u64>, b: Gadget<u32>) -> Gadget<u64> {
    let v = match (a.value(), b.value()) {
        (Some(x), Some(n)) => Some(field_pow(x, n as nat)),
        _ => None,
    };
    if a.is_constant() && b.is_constant() {
        Gadget::Constant(v.unwrap())
    } else {
        Gadget::Witness(v)
    }
}

pub open spec fn lift_bool<T>(a: Gadget<T>, b: Gadget<T>, v: Option<bool>) -> Gadget<bool> {
    if a.is_constant() && b.is_constant() {
        Gadget::Constant(v.unwrap())
    } else {
        Gadget::Witness(v)
    }
}

pub open spec fn and_spec(a: Gadget<bool>, b: Gadget<bool>) -> Gadget<bool> {
    lift_bool(a, b, match (a.value(), b.value()) {
        (Some(x), Some(y)) => Some(x && y),
        _ => None,
    })
}

pub open spec fn or_spec(a: Gadget<bool>, b: Gadget<bool>) -> Gadget<bool> {
    lift_bool(a, b, match (a.value(), b.value()) {
        (Some(x), Some(y)) => Some(x || y),
        _ => None,
    })
}

pub open spec fn not_spec(a: Gadget<bool>) -> Gadget<bool> {
    match a {
        Gadget::Constant(x) => Gadget::Constant(!x),
        Gadget::Witness(v) => Gadget::Witness(
            match v {
                Some(x) => Some(!x),
                None => None,
            },
        ),
    }
}

/// Equality of two gadgets; field elements compare as residues.
pub open spec fn eq_spec<T>(a: Gadget<T>, b: Gadget<T>, same: spec_fn(T, T) -> bool) -> Gadget<bool> {
    lift_bool(a, b, match (a.value(), b.value()) {
        (Some(x), Some(y)) => Some(same(x, y)),
        _ => None,
    })
}

pub open spec fn word_eq_spec(a: Gadget<u32>, b: Gadget<u32>) -> Gadget<bool> {
    eq_spec(a, b, |x: u32, y: u32| x == y)
}

pub open spec fn field_eq_spec(a: Gadget<u64>, b: Gadget<u64>) -> Gadget<bool> {
    eq_spec(a, b, |x: u64, y: u64| x % FIELD_MODULUS == y % FIELD_MODULUS)
}

pub open spec fn boolean_eq_spec(a: Gadget<bool>, b: Gadget<bool>) -> Gadget<bool> {
    eq_spec(a, b, |x: bool, y: bool| x == y)
}

/// `a` raised to `n`, reduced modulo `m` after each multiplication.
pub open spec fn mod_pow(a: int, n: nat, m: int) -> int
    decreases n,
{
    if n == 0 {
        1
    } else {
        (mod_pow(a, (n - 1) as nat, m) * a) % m
    }
}

proof fn lemma_mod_pow_bound(a: int, n: nat, m: int)
    requires
        m > 1,
    ensures
        0 <= mod_pow(a, n, m) < m,
    decreases n,
{
    if n > 0 {
        lemma_mod_pow_bound(a, (n - 1) as nat, m);
    }
}

proof fn lemma_mod_pow_add(a: int, i: nat, j: nat, m: int)
    requires
        m > 1,
    ensures
        mod_pow(a, i + j, m) == (mod_pow(a, i, m) * mod_pow(a, j, m)) % m,
    decreases j,
{
    lemma_mod_pow_bound(a, i, m);
    if j == 0 {
        assert(mod_pow(a, i, m) * 1 == mod_pow(a, i, m));
        vstd::arithmetic::div_mod::lemma_small_mod(mod_pow(a, i, m) as nat, m as nat);
    } else {
        let p = mod_pow(a, i, m);
        let q = mod_pow(a, (j - 1) as nat, m);
        lemma_mod_pow_add(a, i, (j - 1) as nat, m);
        assert(mod_pow(a, i + j, m) == (mod_pow(a, (i + j - 1) as nat, m) * a) % m);
        assert((i + j - 1) as nat == i + (j - 1) as nat);
        vstd::arithmetic::div_mod::lemma_mul_mod_noop_left(p * q, a, m);
        vstd::arithmetic::mul::lemma_mul_is_associative(p, q, a);
        vstd::arithmetic::div_mod::lemma_mul_mod_noop_right(p, q * a, m);
    }
}

proof fn lemma_mod_pow_square(a: int, k: nat, m: int)
    requires
        m > 1,
        0 <= a < m,
    ensures
        mod_pow(a, 2 * k, m) == mod_pow((a * a) % m, k, m),
    decreases k,
{
    if k > 0 {
        lemma_mod_pow_square(a, (k - 1) as nat, m);
        lemma_mod_pow_add(a, (2 * (k - 1)) as nat, 2, m);
        assert((2 * (k - 1)) as nat + 2 == 2 * k);
        assert(mod_pow(a, 0, m) == 1);
        assert(mod_pow(a, 1, m) == (mod_pow(a, 0, m) * a) % m);
        vstd::arithmetic::div_mod::lemma_small_mod(a as nat, m as nat);
        assert(mod_pow(a, 2, m) == (mod_pow(a, 1, m) * a) % m);
    }
}

proof fn lemma_mod_pow_odd(a: int, r: int, e: nat, m: int)
    requires
        m > 1,
        e > 0,
    ensures
        (r * mod_pow(a, e, m)) % m == (((r * a) % m) * mod_pow(a, (e - 1) as nat, m)) % m,
{
    let w = mod_pow(a, (e - 1) as nat, m);
    vstd::arithmetic::div_mod::lemma_mul_mod_noop_right(r, w * a, m);
    vstd::arithmetic::div_mod::lemma_mul_mod_noop_left(r * a, w, m);
    vstd::arithmetic::mul::lemma_mul_is_associative(r, w, a);
    vstd::arithmetic::mul::lemma_mul_is_associative(r, a, w);
    vstd::arithmetic::mul::lemma_mul_is_commutative(w, a);
}

/// `r * a^e mod m` by repeated squaring, for `m` up to 2^32.
fn mod_pow_exec(a: u64, e: u32, m: u64) -> (r: u64)
    requires
        1 < m <= 0x1_0000_0000,
        a < m,
    ensures
        r == mod_pow(a as int, e as nat, m as int),
{
    let mut r: u64 = 1;
    let mut b: u64 = a;
    let mut k: u32 = e;
    proof {
        lemma_mod_pow_bound(a as int, e as nat, m as int);
        vstd::arithmetic::div_mod::lemma_small_mod(mod_pow(a as int, e as nat, m as int) as nat, m as nat);
    }
    while k > 0
        invariant
            1 < m <= 0x1_0000_0000,
            r < m,
            b < m,
            (r * mod_pow(b as int, k as nat, m as int)) % (m as int) == mod_pow(a as int, e as nat, m as int),
        decreases k,
    {
        assert(r * b < 0x1_0000_0000 * 0x1_0000_0000) by (nonlinear_arith)
            requires r < m, b < m, m <= 0x1_0000_0000;
        assert(b * b < 0x1_0000_0000 * 0x1_0000_0000) by (nonlinear_arith)
            requires b < m, m <= 0x1_0000_0000;
        if k % 2 == 1 {
            proof {
                lemma_mod_pow_odd(b as int, r as int, k as nat, m as int);
            }
            r = (r * b) % m;
            k = k - 1;
        } else {
            proof {
                lemma_mod_pow_square(b as int, (k / 2) as nat, m as int);
                assert(2 * ((k / 2) as nat) == k as nat);
            }
            b = (b * b) % m;
            k = k / 2;
        }
    }
    proof {
        lemma_mod_pow_bound(b as int, 0, m as int);
        vstd::arithmetic::div_mod::lemma_small_mod(r as nat, m as nat);
    }
    r
}

proof fn lemma_word_pow(x: u32, n: nat)
    ensures
        word_pow(x, n) == mod_pow(x as int, n, 0x1_0000_0000),
    decreases n,
{
    if n > 0 {
        lemma_word_pow(x, (n - 1) as nat);
    }
}

proof fn lemma_field_pow(x: u64, n: nat)
    ensures
        field_pow(x, n) == mod_pow((x % FIELD_MODULUS) as int, n, FIELD_MODULUS as int),
    decreases n,
{
    if n > 0 {
        lemma_field_pow(x, (n - 1) as nat);
        lemma_mod_pow_bound((x % FIELD_MODULUS) as int, (n - 1) as nat, FIELD_MODULUS as int);
    }
}

fn word_pow_exec(x: u32, n: u32) -> (r: u32)
    ensures
        r == word_pow(x, n as nat),
{
    proof {
        lemma_word_pow(x, n as nat);
        lemma_mod_pow_bound(x as int, n as nat, 0x1_0000_0000);
    }
    mod_pow_exec(x as u64, n, 0x1_0000_0000) as u32
}

/// Integer arithmetic modulo 2^32 on assignments.
pub fn word_arith_exec(op: ArithOp, x: u32, y: u32) -> (r: Option<u32>)
    ensures
        r == word_arith(op, x, y),
{
    match op {
        ArithOp::Add => Some((((x as u64) + (y as u64)) % 0x1_0000_0000) as u32),
        ArithOp::Sub => Some((((x as u64) + 0x1_0000_0000 - (y as u64)) % 0x1_0000_0000) as u32),
        ArithOp::Mul => {
            assert((x as u64) * (y as u64) <= 0xffff_ffffu64 * 0xffff_ffffu64) by (nonlinear_arith);
            Some((((x as u64) * (y as u64)) % 0x1_0000_0000) as u32)
        },
        ArithOp::Div => if y == 0 {
            None
        } else {
            Some(x / y)
        },
        ArithOp::Pow => Some(word_pow_exec(x, y)),
    }
}

fn field_pow_exec(x: u64, n: u32) -> (r: u64)
    ensures
        r == field_pow(x, n as nat),
{
    proof {
        lemma_field_pow(x, n as nat);
    }
    mod_pow_exec(x % FIELD_MODULUS, n, FIELD_MODULUS)
}

fn field_quotient(x: u64, y: u64) -> (r: Option<u64>)
    ensures
        r == field_quotient_from(x, y, 0),
{
    let a = x % FIELD_MODULUS;
    let b = y % FIELD_MODULUS;
    let mut z: u64 = 0;
    while z < FIELD_MODULUS
        invariant
            z <= FIELD_MODULUS,
            a == x % FIELD_MODULUS,
            b == y % FIELD_MODULUS,
            field_quotient_from(x, y, 0) == field_quotient_from(x, y, z as nat),
        decreases FIELD_MODULUS - z,
    {
        assert(z * b < FIELD_MODULUS * FIELD_MODULUS) by (nonlinear_arith)
            requires z < FIELD_MODULUS, b < FIELD_MODULUS;
        if (z * b) % FIELD_MODULUS == a {
            return Some(z);
        }
        z = z + 1;
    }
    None
}

/// Field arithmetic on assignments.
pub fn field_arith_exec(op: ArithOp, x: u64, y: u64) -> (r: Option<u64>)
    ensures
        r == field_arith(op, x, y),
{
    let a = x % FIELD_MODULUS;
    let b = y % FIELD_MODULUS;
    match op {
        ArithOp::Add => Some((a + b) % FIELD_MODULUS),
        ArithOp::Sub => Some((a + FIELD_MODULUS - b) % FIELD_MODULUS),
        ArithOp::Mul => {
            assert(a * b < FIELD_MODULUS * FIELD_MODULUS) by (nonlinear_arith)
                requires a < FIELD_MODULUS, b < FIELD_MODULUS;
            Some((a * b) % FIELD_MODULUS)
        },
        ArithOp::Div => if b == 0 {
            None
        } else {
            field_quotient(x, y)
        },
        ArithOp::Pow => Some(field_pow_exec(x, b as u32)),
    }
}

/// An arithmetic gadget on two integer gadgets.
pub fn word_gadget(op: ArithOp, a: Gadget<u32>, b: Gadget<u32>) -> (r: Result<Gadget<u32>, GadgetError>)
    ensures
        r == word_gadget_spec(op, a, b),
{
    let v = match (a, b) {
        (Gadget::Constant(x), Gadget::Constant(y)) => word_arith_exec(op, x, y),
        (Gadget::Constant(x), Gadget::Witness(Some(y))) => word_arith_exec(op, x, y),
        (Gadget::Witness(Some(x)), Gadget::Constant(y)) => word_arith_exec(op, x, y),
        (Gadget::Witness(Some(x)), Gadget::Witness(Some(y))) => word_arith_exec(op, x, y),
        _ => None,
    };
    match (a, b) {
        (Gadget::Constant(_), Gadget::Constant(_)) => match v {
            Some(z) => Ok(Gadget::Constant(z)),
            None => Err(GadgetError::DivisionByZero),
        },
        _ => Ok(Gadget::Witness(v)),
    }
}

/// An arithmetic gadget on two field-element gadgets.
pub fn field_gadget(op: ArithOp, a: Gadget<u64>, b: Gadget<u64>) -> (r: Result<Gadget<u64>, GadgetError>)
    ensures
        r == field_gadget_spec(op, a, b),
{
    let v = match (a, b) {
        (Gadget::Constant(x), Gadget::Constant(y)) => field_arith_exec(op, x, y),
        (Gadget::Constant(x), Gadget::Witness(Some(y))) => field_arith_exec(op, x, y),
        (Gadget::Witness(Some(x)), Gadget::Constant(y)) => field_arith_exec(op, x, y),
        (Gadget::Witness(Some(x)), Gadget::Witness(Some(y))) => field_arith_exec(op, x, y),
        _ => None,
    };
    match (a, b) {
        (Gadget::Constant(_), Gadget::Constant(_)) => match v {
            Some(z) => Ok(Gadget::Constant(z)),
            None => Err(GadgetError::DivisionByZero),
        },
        _ => Ok(Gadget::Witness(v)),
    }
}

/// A field element raised to an integer power.
pub fn field_pow_gadget(a: Gadget<u64>, b: Gadget<u32>) -> (r: Gadget<u64>)
    ensures
        r == field_pow_gadget_spec(a, b),
{
    match (a, b) {
        (Gadget::Constant(x), Gadget::Constant(n)) => Gadget::Constant(field_pow_exec(x, n)),
        (Gadget::Constant(x), Gadget::Witness(Some(n))) => Gadget::Witness(Some(field_pow_exec(x, n))),
        (Gadget::Witness(Some(x)), Gadget::Constant(n)) => Gadget::Witness(Some(field_pow_exec(x, n))),
        (Gadget::Witness(Some(x)), Gadget::Witness(Some(n))) => Gadget::Witness(Some(field_pow_exec(x, n))),
        _ => Gadget::Witness(None),
    }
}

fn bool_result<T>(a: &Gadget<T>, b: &Gadget<T>, v: Option<bool>) -> (r: Gadget<bool>)
    requires
        (a.is_constant() && b.is_constant()) ==> v is Some,
    ensures
        r == lift_bool(*a, *b, v),
{
    match (a, b) {
        (Gadget::Constant(_), Gadget::Constant(_)) => match v {
            Some(z) => Gadget::Constant(z),
            None => Gadget::Witness(None),
        },
        _ => Gadget::Witness(v),
    }
}

/// Conjunction of two boolean gadgets.
pub fn enforce_and(a: Gadget<bool>, b: Gadget<bool>) -> (r: Gadget<bool>)
    ensures
        r == and_spec(a, b),
{
    let v = match (a, b) {
        (Gadget::Constant(x), Gadget::Constant(y)) => Some(x && y),
        (Gadget::Constant(x), Gadget::Witness(Some(y))) => Some(x && y),
        (Gadget::Witness(Some(x)), Gadget::Constant(y)) => Some(x && y),
        (Gadget::Witness(Some(x)), Gadget::Witness(Some(y))) => Some(x && y),
        _ => None,
    };
    bool_result(&a, &b, v)
}

/// Disjunction of two boolean gadgets.
pub fn enforce_or(a: Gadget<bool>, b: Gadget<bool>) -> (r: Gadget<bool>)
    ensures
        r == or_spec(a, b),
{
    let v = match (a, b) {
        (Gadget::Constant(x), Gadget::Constant(y)) => Some(x || y),
        (Gadget::Constant(x), Gadget::Witness(Some(y))) => Some(x || y),
        (Gadget::Witness(Some(x)), Gadget::Constant(y)) => Some(x || y),
        (Gadget::Witness(Some(x)), Gadget::Witness(Some(y))) => Some(x || y),
        _ => None,
    };
    bool_result(&a, &b, v)
}

/// Negation of a boolean gadget; it adds no constraint.
pub fn enforce_not(a: Gadget<bool>) -> (r: Gadget<bool>)
    ensures
        r == not_spec(a),
{
    match a {
        Gadget::Constant(x) => Gadget::Constant(!x),
        Gadget::Witness(Some(x)) => Gadget::Witness(Some(!x)),
        Gadget::Witness(None) => Gadget::Witness(None),
    }
}

/// Equality of two integer gadgets.
pub fn word_eq(a: Gadget<u32>, b: Gadget<u32>) -> (r: Gadget<bool>)
    ensures
        r == word_eq_spec(a, b),
{
    let v = match (a, b) {
        (Gadget::Constant(x), Gadget::Constant(y)) => Some(x == y),
        (Gadget::Constant(x), Gadget::Witness(Some(y))) => Some(x == y),
        (Gadget::Witness(Some(x)), Gadget::Constant(y)) => Some(x == y),
        (Gadget::Witness(Some(x)), Gadget::Witness(Some(y))) => Some(x == y),
        _ => None,
    };
    bool_result(&a, &b, v)
}

/// Equality of two field-element gadgets.
pub fn field_eq(a: Gadget<u64>, b: Gadget<u64>) -> (r: Gadget<bool>)
    ensures
        r == field_eq_spec(a, b),
{
    let v = match (a, b) {
        (Gadget::Constant(x), Gadget::Constant(y)) => Some(x % FIELD_MODULUS == y % FIELD_MODULUS),
        (Gadget::Constant(x), Gadget::Witness(Some(y))) => Some(x % FIELD_MODULUS == y % FIELD_MODULUS),
        (Gadget::Witness(Some(x)), Gadget::Constant(y)) => Some(x % FIELD_MODULUS == y % FIELD_MODULUS),
        (Gadget::Witness(Some(x)), Gadget::Witness(Some(y))) => Some(x % FIELD_MODULUS == y % FIELD_MODULUS),
        _ => None,
    };
    bool_result(&a, &b, v)
}

/// Equality of two boolean gadgets.
pub fn boolean_eq(a: Gadget<bool>, b: Gadget<bool>) -> (r: Gadget<bool>)
    ensures
        r == boolean_eq_spec(a, b),
{
    let v = match (a, b) {
        (Gadget::Constant(x), Gadget::Constant(y)) => Some(x == y),
        (Gadget::Constant(x), Gadget::Witness(Some(y))) => Some(x == y),
        (Gadget::Witness(Some(x)), Gadget::Constant(y)) => Some(x == y),
        (Gadget::Witness(Some(x)), Gadget::Witness(Some(y))) => Some(x == y),
        _ => None,
    };
    bool_result(&a, &b, v)
}

} // verus!
