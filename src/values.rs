//! Resolved values and their mathematical model.
use vstd::prelude::*;
use crate::ast::Expression;
use crate::gadgets::Gadget;
use std::rc::Rc;

verus! {

/// A declared struct field: its name and declared type.
#[derive(Clone, Debug, PartialEq, Eq)]
pub struct StructField {
    pub variable: String,
    pub declared_type: String,
}

/// A declared struct: ordered fields.
#[derive(Clone, Debug, PartialEq, Eq)]
pub struct StructDefinition {
    pub variable: String,
    pub fields: Vec<StructField>,
}

/// A declared function: its parameters and the expressions whose values it
/// hands back to the caller.
pub struct FunctionDefinition {
    pub function_name: String,
    pub parameters: Vec<String>,
    pub results: Vec<Expression>,
}

/// A member of an instantiated struct: field name and value.
pub struct ResolvedStructMember(pub String, pub ResolvedValue);

pub enum ResolvedValue {
    U32(Gadget<u32>),
    FieldElement(Gadget<u64>),
    Boolean(Gadget<bool>),
    Array(Vec<ResolvedValue>),
    StructDefinition(StructDefinition),
    StructExpression(String, Vec<ResolvedStructMember>),
    Function(Rc<FunctionDefinition>),
    Return(Vec<ResolvedValue>),
}

/// The model of a resolved value. A struct definition is seen through its name
/// and field names, a function through its name.
pub enum Value {
    U32(Gadget<u32>),
    FieldElement(Gadget<u64>),
    Boolean(Gadget<bool>),
    Array(Seq<Value>),
    StructDefinition(Seq<char>, Seq<Seq<char>>),
    StructExpression(Seq<char>, Seq<(Seq<char>, Value)>),
    Function(Seq<char>),
    Return(Seq<Value>),
}

pub open spec fn field_names(fields: Seq<StructField>) -> Seq<Seq<char>> {
    fields.map_values(|f: StructField| f.variable@)
}

pub open spec fn view_values(s: Seq<ResolvedValue>) -> Seq<Value>
    decreases s,
{
    if s.len() == 0 {
        Seq::empty()
    } else {
        view_values(s.subrange(0, s.len() - 1)).push(view_value(s[s.len() - 1]))
    }
}

pub open spec fn view_members(s: Seq<ResolvedStructMember>) -> Seq<(Seq<char>, Value)>
    decreases s,
{
    if s.len() == 0 {
        Seq::empty()
    } else {
        view_members(s.subrange(0, s.len() - 1)).push(
            (s[s.len() - 1].0@, view_value(s[s.len() - 1].1)),
        )
    }
}

pub open spec fn view_value(v: ResolvedValue) -> Value
    decreases v,
{
    match v {
        ResolvedValue::U32(g) => Value::U32(g),
        ResolvedValue::FieldElement(g) => Value::FieldElement(g),
        ResolvedValue::Boolean(g) => Value::Boolean(g),
        ResolvedValue::Array(vs) => Value::Array(view_values(vs@)),
        ResolvedValue::StructDefinition(d) => Value::StructDefinition(
            d.variable@,
            field_names(d.fields@),
        ),
        ResolvedValue::StructExpression(n, ms) => Value::StructExpression(n@, view_members(ms@)),
        ResolvedValue::Function(f) => Value::Function(f.function_name@),
        ResolvedValue::Return(vs) => Value::Return(view_values(vs@)),
    }
}

impl View for ResolvedValue {
    type V = Value;

    open spec fn view(&self) -> Value {
        view_value(*self)
    }
}

pub proof fn lemma_view_values_push(s: Seq<ResolvedValue>, v: ResolvedValue)
    ensures
        view_values(s.push(v)) == view_values(s).push(view_value(v)),
{
    assert(s.push(v).subrange(0, s.len() as int) == s);
}

pub proof fn lemma_view_members_push(s: Seq<ResolvedStructMember>, m: ResolvedStructMember)
    ensures
        view_members(s.push(m)) == view_members(s).push((m.0@, view_value(m.1))),
{
    assert(s.push(m).subrange(0, s.len() as int) == s);
}

/// Copies a list of values, keeping its model.
pub fn duplicate_values(vs: &Vec<ResolvedValue>) -> (r: Vec<ResolvedValue>)
    ensures
        view_values(r@) == view_values(vs@),
    decreases vs, 0nat,
{
    let mut r: Vec<ResolvedValue> = Vec::new();
    let mut i: usize = 0;
    while i < vs.len()
        invariant
            i <= vs.len(),
            r@.len() == i,
            view_values(r@) == view_values(vs@.subrange(0, i as int)),
        decreases vs.len() - i,
    {
        assert(decreases_to!(vs => vs@[i as int]));
        let v = vs[i].duplicate();
        proof {
            lemma_view_values_push(r@, v);
            lemma_view_values_push(vs@.subrange(0, i as int), vs@[i as int]);
            assert(vs@.subrange(0, i as int).push(vs@[i as int]) == vs@.subrange(0, i + 1));
        }
        r.push(v);
        i = i + 1;
    }
    assert(vs@.subrange(0, vs.len() as int) == vs@);
    r
}

fn duplicate_members(ms: &Vec<ResolvedStructMember>) -> (r: Vec<ResolvedStructMember>)
    ensures
        view_members(r@) == view_members(ms@),
    decreases ms, 0nat,
{
    let mut r: Vec<ResolvedStructMember> = Vec::new();
    let mut i: usize = 0;
    while i < ms.len()
        invariant
            i <= ms.len(),
            r@.len() == i,
            view_members(r@) == view_members(ms@.subrange(0, i as int)),
        decreases ms.len() - i,
    {
        assert(decreases_to!(ms => ms@[i as int]));
        let m = ResolvedStructMember(ms[i].0.clone(), ms[i].1.duplicate());
        proof {
            lemma_view_members_push(r@, m);
            lemma_view_members_push(ms@.subrange(0, i as int), ms@[i as int]);
            assert(ms@.subrange(0, i as int).push(ms@[i as int]) == ms@.subrange(0, i + 1));
        }
        r.push(m);
        i = i + 1;
    }
    assert(ms@.subrange(0, ms.len() as int) == ms@);
    r
}

fn duplicate_fields(fs: &Vec<StructField>) -> (r: Vec<StructField>)
    ensures
        field_names(r@) == field_names(fs@),
{
    let mut r: Vec<StructField> = Vec::new();
    let mut i: usize = 0;
    while i < fs.len()
        invariant
            i <= fs.len(),
            r@.len() == i,
            forall|j: int| 0 <= j < i ==> r@[j].variable@ == fs@[j].variable@,
        decreases fs.len() - i,
    {
        r.push(StructField { variable: fs[i].variable.clone(), declared_type: fs[i].declared_type.clone() });
        i = i + 1;
    }
    assert(field_names(r@) =~= field_names(fs@));
    r
}

impl ResolvedValue {
    /// Copies the value, keeping its model.
    pub fn duplicate(&self) -> (r: ResolvedValue)
        ensures
            r@ == self@,
        decreases self, 1nat,
    {
        match self {
            ResolvedValue::U32(g) => ResolvedValue::U32(*g),
            ResolvedValue::FieldElement(g) => ResolvedValue::FieldElement(*g),
            ResolvedValue::Boolean(g) => ResolvedValue::Boolean(*g),
            ResolvedValue::Array(vs) => ResolvedValue::Array(duplicate_values(vs)),
            ResolvedValue::StructDefinition(d) => ResolvedValue::StructDefinition(
                StructDefinition { variable: d.variable.clone(), fields: duplicate_fields(&d.fields) },
            ),
            ResolvedValue::StructExpression(n, ms) => ResolvedValue::StructExpression(
                n.clone(),
                duplicate_members(ms),
            ),
            ResolvedValue::Function(f) => ResolvedValue::Function(Rc::clone(f)),
            ResolvedValue::Return(vs) => ResolvedValue::Return(duplicate_values(vs)),
        }
    }
}

} // verus!

verus! {

pub proof fn lemma_view_values_index(s: Seq<ResolvedValue>)
    ensures
        view_values(s).len() == s.len(),
        forall|i: int| 0 <= i < s.len() ==> #[trigger] view_values(s)[i] == view_value(s[i]),
    decreases s.len(),
{
    if s.len() > 0 {
        lemma_view_values_index(s.subrange(0, s.len() - 1));
    }
}

pub proof fn lemma_view_members_index(s: Seq<ResolvedStructMember>)
    ensures
        view_members(s).len() == s.len(),
        forall|i: int| 0 <= i < s.len() ==> #[trigger] view_members(s)[i] == (s[i].0@, view_value(s[i].1)),
    decreases s.len(),
{
    if s.len() > 0 {
        lemma_view_members_index(s.subrange(0, s.len() - 1));
    }
}

pub proof fn lemma_view_values_concat(a: Seq<ResolvedValue>, b: Seq<ResolvedValue>)
    ensures
        view_values(a + b) == view_values(a) + view_values(b),
{
    lemma_view_values_index(a);
    lemma_view_values_index(b);
    lemma_view_values_index(a + b);
    assert(view_values(a + b) =~= view_values(a) + view_values(b));
}

} // verus!
