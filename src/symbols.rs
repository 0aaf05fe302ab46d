//! Symbol tables keyed by scoped names, and the constraint log.
use vstd::prelude::*;
use crate::gadgets::Constraint;
use crate::values::{ResolvedValue, Value};

verus! {

/// Bindings from scoped names to values; a later binding of a name hides an
/// earlier one.
pub struct SymbolTable {
    pub entries: Vec<(String, ResolvedValue)>,
}

/// The model of a table: its bindings in order of insertion.
pub type Bindings = Seq<(Seq<char>, Value)>;

/// The newest binding of `key`, as stored.
pub open spec fn lookup_entry(s: Seq<(String, ResolvedValue)>, key: Seq<char>) -> Option<ResolvedValue>
    decreases s.len(),
{
    if s.len() == 0 {
        None
    } else if s[s.len() - 1].0@ == key {
        Some(s[s.len() - 1].1)
    } else {
        lookup_entry(s.subrange(0, s.len() - 1), key)
    }
}

/// The newest binding of `key` in a model table.
pub open spec fn lookup_model(s: Bindings, key: Seq<char>) -> Option<Value>
    decreases s.len(),
{
    if s.len() == 0 {
        None
    } else if s[s.len() - 1].0 == key {
        Some(s[s.len() - 1].1)
    } else {
        lookup_model(s.subrange(0, s.len() - 1), key)
    }
}

pub open spec fn bindings_of(s: Seq<(String, ResolvedValue)>) -> Bindings {
    s.map_values(|e: (String, ResolvedValue)| (e.0@, e.1@))
}

/// `scope::name`.
pub open spec fn scoped(scope: Seq<char>, name: Seq<char>) -> Seq<char> {
    scope + "::"@ + name
}

/// Composes `scope::name`.
pub fn scoped_name(scope: &String, name: &String) -> (r: String)
    ensures
        r@ == scoped(scope@, name@),
{
    let r = scope.clone().concat("::");
    r.concat(name.as_str())
}

pub proof fn lemma_lookup_bindings(s: Seq<(String, ResolvedValue)>, key: Seq<char>)
    ensures
        lookup_model(bindings_of(s), key) == match lookup_entry(s, key) {
            Some(v) => Some(v@),
            None => None,
        },
    decreases s.len(),
{
    if s.len() > 0 {
        assert(bindings_of(s).subrange(0, s.len() - 1) == bindings_of(s.subrange(0, s.len() - 1)));
        lemma_lookup_bindings(s.subrange(0, s.len() - 1), key);
    }
}

impl View for SymbolTable {
    type V = Bindings;

    open spec fn view(&self) -> Bindings {
        bindings_of(self.entries@)
    }
}

impl SymbolTable {
    pub fn new() -> (r: SymbolTable)
        ensures
            r@ == Seq::<(Seq<char>, Value)>::empty(),
    {
        let r = SymbolTable { entries: Vec::new() };
        assert(r@ =~= Seq::<(Seq<char>, Value)>::empty());
        r
    }

    /// Binds `name`; it hides any earlier binding of the same name.
    pub fn insert(&mut self, name: String, value: ResolvedValue)
        ensures
            final(self)@ == old(self)@.push((name@, value@)),
            final(self).entries@ == old(self).entries@.push((name, value)),
            forall|k: Seq<char>|
                #[trigger] lookup_model(final(self)@, k) == if k == name@ {
                    Some(value@)
                } else {
                    lookup_model(old(self)@, k)
                },
    {
        let ghost v = value@;
        let ghost n = name@;
        self.entries.push((name, value));
        assert(self@ =~= old(self)@.push((n, v)));
        assert forall|k: Seq<char>|
            #[trigger] lookup_model(self@, k) == if k == n {
                Some(v)
            } else {
                lookup_model(old(self)@, k)
            } by {
            assert(self@.subrange(0, self@.len() - 1) == old(self)@);
        }
    }

    /// The newest binding of `key`.
    pub fn get(&self, key: &String) -> (r: Option<&ResolvedValue>)
        ensures
            match r {
                Some(v) => lookup_entry(self.entries@, key@) == Some(*v),
                None => lookup_entry(self.entries@, key@) is None,
            },
    {
        let mut i: usize = self.entries.len();
        assert(self.entries@.subrange(0, i as int) == self.entries@);
        while i > 0
            invariant
                i <= self.entries.len(),
                lookup_entry(self.entries@, key@) == lookup_entry(self.entries@.subrange(0, i as int), key@),
            decreases i,
        {
            let ghost s = self.entries@.subrange(0, i as int);
            assert(s.subrange(0, i - 1) == self.entries@.subrange(0, i - 1));
            if self.entries[i - 1].0.eq(key) {
                return Some(&self.entries[i - 1].1);
            }
            i = i - 1;
        }
        None
    }
}

/// The constraints added so far, oldest first.
pub struct ConstraintLog {
    pub constraints: Vec<Constraint>,
}

impl View for ConstraintLog {
    type V = Seq<Constraint>;

    open spec fn view(&self) -> Seq<Constraint> {
        self.constraints@
    }
}

impl ConstraintLog {
    pub fn new() -> (r: ConstraintLog)
        ensures
            r@ == Seq::<Constraint>::empty(),
    {
        ConstraintLog { constraints: Vec::new() }
    }

    pub fn add(&mut self, c: Constraint)
        ensures
            final(self)@ == old(self)@.push(c),
    {
        self.constraints.push(c);
    }

    pub fn len(&self) -> (r: usize)
        ensures
            r == self@.len(),
    {
        self.constraints.len()
    }
}

} // verus!
