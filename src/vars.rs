//! Variable tables: names bound to values.
use vstd::prelude::*;
use crate::value::{Any, Value};

verus! {

/// A table from names to values; binding a bound name replaces its value.
#[derive(Debug)]
pub struct VarsStorage {
    table: Vec<(String, Any)>,
}

/// The session's global table.
pub type OwnedStorage = VarsStorage;

/// The bindings of a sequence of entries, a later entry of a name winning.
pub open spec fn bindings(s: Seq<(String, Any)>) -> Map<Seq<char>, Value>
    decreases s.len(),
{
    if s.len() == 0 {
        Map::empty()
    } else {
        bindings(s.drop_last()).insert(s.last().0@, s.last().1.model())
    }
}

proof fn lemma_bindings_skip(s: Seq<(String, Any)>, i: int, k: Seq<char>)
    requires
        0 <= i <= s.len(),
        forall|j: int| i <= j < s.len() ==> #[trigger] s[j].0@ != k,
    ensures
        bindings(s).contains_key(k) == bindings(s.take(i)).contains_key(k),
        bindings(s).contains_key(k) ==> bindings(s)[k] == bindings(s.take(i))[k],
    decreases s.len() - i,
{
    if i < s.len() {
        assert(s.drop_last().take(i) =~= s.take(i));
        lemma_bindings_skip(s.drop_last(), i, k);
    } else {
        assert(s.take(i) =~= s);
    }
}

proof fn lemma_bindings_update(s: Seq<(String, Any)>, i: int, e: (String, Any))
    requires
        0 <= i < s.len(),
        s[i].0@ == e.0@,
        forall|j: int| i < j < s.len() ==> #[trigger] s[j].0@ != e.0@,
    ensures
        bindings(s.update(i, e)) =~= bindings(s).insert(e.0@, e.1.model()),
    decreases s.len(),
{
    let t = s.update(i, e);
    if i == s.len() - 1 {
        assert(t.drop_last() =~= s.drop_last());
    } else {
        assert(t.drop_last() =~= s.drop_last().update(i, e));
        lemma_bindings_update(s.drop_last(), i, e);
    }
}

impl View for VarsStorage {
    type V = Map<Seq<char>, Value>;

    closed spec fn view(&self) -> Map<Seq<char>, Value> {
        bindings(self.table@)
    }
}

impl VarsStorage {
    pub fn new() -> (r: VarsStorage)
        ensures
            r@ == Map::<Seq<char>, Value>::empty(),
    {
        VarsStorage { table: Vec::new() }
    }

    pub fn with_capacity(capacity: usize) -> (r: VarsStorage)
        ensures
            r@ == Map::<Seq<char>, Value>::empty(),
    {
        VarsStorage { table: Vec::with_capacity(capacity) }
    }

    /// The position of the last entry named `key`.
    fn find(&self, key: &String) -> (r: Option<usize>)
        ensures
            match r {
                Some(i) => i < self.table@.len() && self.table@[i as int].0@ == key@
                    && forall|j: int| i < j < self.table@.len() ==> #[trigger] self.table@[j].0@ != key@,
                None => forall|j: int| 0 <= j < self.table@.len() ==> #[trigger] self.table@[j].0@ != key@,
            },
    {
        let mut i: usize = self.table.len();
        while i > 0
            invariant
                i <= self.table@.len(),
                forall|j: int| i <= j < self.table@.len() ==> #[trigger] self.table@[j].0@ != key@,
            decreases i,
        {
            i = i - 1;
            if self.table[i].0 == *key {
                return Some(i);
            }
        }
        None
    }

    /// The value bound to `key`.
    pub fn get(&self, key: &String) -> (r: Option<&Any>)
        ensures
            r is Some <==> self@.contains_key(key@),
            r is Some ==> r.unwrap().model() == self@[key@],
    {
        match self.find(key) {
            Some(i) => {
                proof {
                    lemma_bindings_skip(self.table@, i + 1, key@);
                    assert(self.table@.take(i + 1).drop_last() =~= self.table@.take(i as int));
                }
                Some(&self.table[i].1)
            },
            None => {
                proof {
                    lemma_bindings_skip(self.table@, 0, key@);
                }
                None
            },
        }
    }

    /// Binds `key` to `value`, replacing an earlier binding of it.
    pub fn insert(&mut self, key: &String, value: Any)
        ensures
            final(self)@ == old(self)@.insert(key@, value.model()),
    {
        let entry = (key.clone(), value);
        match self.find(key) {
            Some(i) => {
                proof {
                    lemma_bindings_update(self.table@, i as int, entry);
                }
                self.table.set(i, entry);
            },
            None => {
                proof {
                    assert(self.table@.push(entry).drop_last() =~= self.table@);
                }
                self.table.push(entry);
            },
        }
    }

    /// A copy with the same bindings.
    pub fn make_static(&self) -> (r: VarsStorage)
        ensures
            r@ == self@,
    {
        let mut table: Vec<(String, Any)> = Vec::with_capacity(self.table.len());
        let mut i: usize = 0;
        while i < self.table.len()
            invariant
                i <= self.table@.len(),
                bindings(table@) == bindings(self.table@.take(i as int)),
            decreases self.table@.len() - i,
        {
            let entry = (self.table[i].0.clone(), self.table[i].1.make_static());
            proof {
                assert(table@.push(entry).drop_last() =~= table@);
                assert(self.table@.take(i + 1).drop_last() =~= self.table@.take(i as int));
            }
            table.push(entry);
            i = i + 1;
        }
        assert(self.table@.take(i as int) =~= self.table@);
        VarsStorage { table }
    }
}

} // verus!
