//! The symbol table of the assembler: names bound to 64-bit values.
use vstd::prelude::*;
use crate::text::str_eq;

verus! {

/// A table of symbols: each name is bound to at most one value, and the
/// bindings keep the order in which their names were first bound.
#[derive(Debug)]
pub struct SymbolTable {
    entries: Vec<(String, u64)>,
}

impl SymbolTable {
    /// The names of the bindings, in order.
    pub closed spec fn names(&self) -> Seq<Seq<char>> {
        Seq::new(self.entries@.len(), |i: int| self.entries@[i].0@)
    }

    /// The values of the bindings, in order.
    pub closed spec fn values(&self) -> Seq<u64> {
        Seq::new(self.entries@.len(), |i: int| self.entries@[i].1)
    }

    #[verifier::type_invariant]
    closed spec fn names_distinct(self) -> bool {
        forall|i: int, j: int|
            0 <= i < self.entries@.len() && 0 <= j < self.entries@.len() && i != j
                ==> #[trigger] self.entries@[i].0@ != #[trigger] self.entries@[j].0@
    }

    closed spec fn position(&self, k: Seq<char>) -> int {
        choose|i: int| 0 <= i < self.entries@.len() && self.entries@[i].0@ == k
    }

    /// A name is bound in the table.
    pub closed spec fn has(&self, k: Seq<char>) -> bool {
        exists|i: int| 0 <= i < self.entries@.len() && self.entries@[i].0@ == k
    }

    proof fn lemma_lookup(&self, i: int)
        requires
            0 <= i < self.entries@.len(),
            self.names_distinct(),
        ensures
            self@.contains_key(self.entries@[i].0@),
            self@[self.entries@[i].0@] == self.entries@[i].1,
    {
        let k = self.entries@[i].0@;
        assert(self.has(k));
        let j = self.position(k);
        assert(self.entries@[j].0@ == k);
    }

    /// An empty table.
    pub fn new() -> (t: SymbolTable)
        ensures
            t@ == Map::<Seq<char>, u64>::empty(),
            t.names().len() == 0,
    {
        let t = SymbolTable { entries: Vec::new() };
        assert(t@ =~= Map::<Seq<char>, u64>::empty());
        t
    }

    /// Number of bindings.
    pub fn len(&self) -> (n: usize)
        ensures
            n == self.names().len(),
            n == self.values().len(),
    {
        self.entries.len()
    }

    /// The name of the `i`-th binding.
    pub fn name_at(&self, i: usize) -> (s: &str)
        requires
            i < self.names().len(),
        ensures
            s@ == self.names()[i as int],
    {
        self.entries[i].0.as_str()
    }

    /// The value of the `i`-th binding.
    pub fn value_at(&self, i: usize) -> (v: u64)
        requires
            i < self.values().len(),
        ensures
            v == self.values()[i as int],
            self@.contains_key(self.names()[i as int]),
            self@[self.names()[i as int]] == v,
    {
        proof {
            use_type_invariant(self);
            self.lemma_lookup(i as int);
        }
        self.entries[i].1
    }

    /// Where `name` is bound, if it is.
    fn find(&self, name: &str) -> (r: Option<usize>)
        ensures
            r is None <==> !self@.contains_key(name@),
            r matches Some(i) ==> i < self.entries@.len() && self.entries@[i as int].0@ == name@,
    {
        proof {
            use_type_invariant(self);
        }
        let mut i: usize = 0;
        while i < self.entries.len()
            invariant
                i <= self.entries@.len(),
                forall|j: int| 0 <= j < i ==> self.entries@[j].0@ != name@,
            decreases self.entries@.len() - i,
        {
            if str_eq(self.entries[i].0.as_str(), name) {
                return Some(i);
            }
            i = i + 1;
        }
        None
    }

    /// The value bound to `name`.
    pub fn get(&self, name: &str) -> (r: Option<u64>)
        ensures
            r == (if self@.contains_key(name@) { Some(self@[name@]) } else { None }),
    {
        match self.find(name) {
            Some(i) => {
                proof {
                    use_type_invariant(self);
                    self.lemma_lookup(i as int);
                }
                Some(self.entries[i].1)
            },
            None => None,
        }
    }

    /// Whether `name` is bound.
    pub fn contains_key(&self, name: &str) -> (b: bool)
        ensures
            b == self@.contains_key(name@),
    {
        self.find(name).is_some()
    }

    /// Binds `name` to `value`, replacing an earlier binding of the name.
    pub fn insert(&mut self, name: String, value: u64)
        ensures
            final(self)@ == old(self)@.insert(name@, value),
    {
        proof {
            use_type_invariant(&*self);
        }
        let ghost old_entries = self.entries@;
        let found = self.find(name.as_str());
        let mut entries: Vec<(String, u64)> = Vec::new();
        std::mem::swap(&mut entries, &mut self.entries);
        match found {
            Some(i) => {
                entries.set(i, (name, value));
                self.entries = entries;
                proof {
                    assert forall|k: Seq<char>| #[trigger] self@.contains_key(k) == old(self)@.insert(name@, value).contains_key(k) by {
                        if self.has(k) {
                            let j = choose|j: int| 0 <= j < self.entries@.len() && self.entries@[j].0@ == k;
                            if j != i {
                                assert(old_entries[j].0@ == k);
                            }
                        }
                        if old(self).has(k) {
                            let j = choose|j: int| 0 <= j < old_entries.len() && old_entries[j].0@ == k;
                            assert(self.entries@[j].0@ == k);
                        }
                    }
                }
            },
            None => {
                entries.push((name, value));
                self.entries = entries;
                proof {
                    assert forall|k: Seq<char>| #[trigger] self@.contains_key(k) == old(self)@.insert(name@, value).contains_key(k) by {
                        if self.has(k) {
                            let j = choose|j: int| 0 <= j < self.entries@.len() && self.entries@[j].0@ == k;
                            if j < old_entries.len() {
                                assert(old_entries[j].0@ == k);
                            }
                        }
                        if k == name@ {
                            assert(self.entries@[old_entries.len() as int].0@ == name@);
                        }
                        if old(self).has(k) {
                            let j = choose|j: int| 0 <= j < old_entries.len() && old_entries[j].0@ == k;
                            assert(self.entries@[j].0@ == k);
                        }
                    }
                }
            },
        }
        proof {
            use_type_invariant(&*self);
            assert forall|k: Seq<char>| #[trigger] self@.contains_key(k) implies self@[k] == old(self)@.insert(name@, value)[k] by {
                let j = choose|j: int| 0 <= j < self.entries@.len() && self.entries@[j].0@ == k;
                self.lemma_lookup(j);
                if k != name@ {
                    assert(old_entries[j].0@ == k);
                    old(self).lemma_lookup(j);
                }
            }
            assert(self@ =~= old(self)@.insert(name@, value));
        }
    }
}

/// A name that was just bound reads back as the value it was bound to, and
/// every other name keeps its binding.
pub proof fn lemma_read_after_insert(t: Map<Seq<char>, u64>, name: Seq<char>, value: u64, other: Seq<char>)
    requires
        other != name,
    ensures
        t.insert(name, value).contains_key(name),
        t.insert(name, value)[name] == value,
        t.insert(name, value).contains_key(other) == t.contains_key(other),
        t.contains_key(other) ==> t.insert(name, value)[other] == t[other],
{
}

impl View for SymbolTable {
    type V = Map<Seq<char>, u64>;

    closed spec fn view(&self) -> Map<Seq<char>, u64> {
        Map::new(|k: Seq<char>| self.has(k), |k: Seq<char>| self.entries@[self.position(k)].1)
    }
}

} // verus!
