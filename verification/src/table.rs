//! A mapping from names to values.

use vstd::prelude::*;

verus! {

/// A finite mapping from names to values. Inserting under a name that is
/// already bound replaces the value.
pub struct Table<V> {
    keys: Vec<String>,
    values: Vec<V>,
}

/// Whether some key of `keys` has the text `k`.
pub open spec fn has_key(keys: Seq<String>, k: Seq<char>) -> bool {
    exists|i: int| 0 <= i < keys.len() && #[trigger] keys[i]@ == k
}

/// The index of a key of `keys` with the text `k`.
pub open spec fn index_of(keys: Seq<String>, k: Seq<char>) -> int {
    choose|i: int| 0 <= i < keys.len() && #[trigger] keys[i]@ == k
}

impl<V> Table<V> {
    /// Every key has a value, and no name is bound twice.
    pub closed spec fn wf(&self) -> bool {
        &&& self.keys.len() == self.values.len()
        &&& forall|i: int, j: int|
            0 <= i < j < self.keys.len() ==> #[trigger] self.keys[i]@ != #[trigger] self.keys[j]@
    }

    /// The mapping that the table stands for.
    pub closed spec fn model(&self) -> Map<Seq<char>, V> {
        Map::new(
            |k: Seq<char>| has_key(self.keys@, k),
            |k: Seq<char>| self.values[index_of(self.keys@, k)],
        )
    }

    /// The empty table.
    pub fn new() -> (t: Self)
        ensures
            t.wf(),
            t.model() == Map::<Seq<char>, V>::empty(),
    {
        let t = Table { keys: Vec::new(), values: Vec::new() };
        assert(t.model() =~= Map::<Seq<char>, V>::empty());
        t
    }

    /// Where `key` is bound, if it is.
    fn position(&self, key: &String) -> (r: Option<usize>)
        requires
            self.wf(),
        ensures
            match r {
                Some(i) => i < self.keys.len() && self.keys[i as int]@ == key@ && index_of(
                    self.keys@,
                    key@,
                ) == i,
                None => !has_key(self.keys@, key@),
            },
    {
        let mut i: usize = 0;
        while i < self.keys.len()
            invariant
                self.wf(),
                i <= self.keys.len(),
                forall|j: int| 0 <= j < i ==> self.keys[j]@ != key@,
            decreases self.keys.len() - i,
        {
            if self.keys[i] == *key {
                proof {
                    assert(has_key(self.keys@, key@));
                    let j = index_of(self.keys@, key@);
                    assert(self.keys[j]@ == key@);
                    if j < i {
                        assert(self.keys[j]@ != self.keys[i as int]@);
                    }
                    if i < j {
                        assert(self.keys[i as int]@ != self.keys[j]@);
                    }
                }
                return Some(i);
            }
            i += 1;
        }
        None
    }

    /// The value bound to `key`, if there is one.
    pub fn get(&self, key: &String) -> (r: Option<&V>)
        requires
            self.wf(),
        ensures
            match r {
                Some(v) => self.model().contains_key(key@) && *v == self.model()[key@],
                None => !self.model().contains_key(key@),
            },
    {
        match self.position(key) {
            Some(i) => Some(&self.values[i]),
            None => None,
        }
    }

    /// Binds `key` to `value`, replacing what `key` was bound to.
    pub fn insert(&mut self, key: String, value: V)
        requires
            old(self).wf(),
        ensures
            final(self).wf(),
            final(self).model() == old(self).model().insert(key@, value),
    {
        match self.position(&key) {
            Some(i) => {
                self.values.set(i, value);
                assert(final(self).model() =~= old(self).model().insert(key@, value)) by {
                    assert forall|k: Seq<char>| has_key(self.keys@, k) implies (k == key@
                        <==> index_of(self.keys@, k) == i) by {}
                }
            },
            None => {
                self.keys.push(key);
                self.values.push(value);
                assert(final(self).model() =~= old(self).model().insert(key@, value)) by {
                    let n = old(self).keys.len() as int;
                    assert(self.keys[n]@ == key@);
                    assert forall|k: Seq<char>| has_key(self.keys@, k) <==> (k == key@ || has_key(
                        old(self).keys@,
                        k,
                    )) by {
                        if has_key(old(self).keys@, k) {
                            let i = index_of(old(self).keys@, k);
                            assert(self.keys[i]@ == k);
                        }
                    }
                    assert forall|k: Seq<char>| has_key(old(self).keys@, k) implies index_of(
                        self.keys@,
                        k,
                    ) == index_of(old(self).keys@, k) by {
                        let i = index_of(old(self).keys@, k);
                        assert(self.keys[i]@ == k);
                    }
                }
            },
        }
    }
}

/// The mapping from names to texts that a table of strings stands for.
pub open spec fn vars_model(t: Table<String>) -> Map<Seq<char>, Seq<char>> {
    t.model().map_values(|s: String| s@)
}

/// Binding a name in a table of strings binds it in the table's model.
pub proof fn lemma_vars_insert(before: Table<String>, after: Table<String>, k: Seq<char>, v: String)
    requires
        after.model() == before.model().insert(k, v),
    ensures
        vars_model(after) == vars_model(before).insert(k, v@),
{
    assert(vars_model(after) =~= vars_model(before).insert(k, v@));
}

impl<V> Table<V> {
    /// The names bound, each once.
    pub fn names(&self) -> (r: Vec<String>)
        requires
            self.wf(),
        ensures
            forall|k: Seq<char>|
                self.model().contains_key(k) <==> exists|i: int|
                    0 <= i < r.len() && #[trigger] r[i]@ == k,
            forall|i: int, j: int| 0 <= i < j < r.len() ==> #[trigger] r[i]@ != #[trigger] r[j]@,
    {
        let mut r: Vec<String> = Vec::new();
        let mut i: usize = 0;
        while i < self.keys.len()
            invariant
                i <= self.keys.len(),
                r.len() == i,
                forall|j: int| 0 <= j < i ==> (#[trigger] r[j])@ == self.keys[j]@,
            decreases self.keys.len() - i,
        {
            r.push(self.keys[i].clone());
            i += 1;
        }
        assert forall|k: Seq<char>|
            self.model().contains_key(k) <==> exists|i: int|
                0 <= i < r.len() && #[trigger] r[i]@ == k by {
            if has_key(self.keys@, k) {
                let i = index_of(self.keys@, k);
                assert(r[i]@ == k);
            }
            if exists|i: int| 0 <= i < r.len() && #[trigger] r[i]@ == k {
                let i = choose|i: int| 0 <= i < r.len() && #[trigger] r[i]@ == k;
                assert(self.keys[i]@ == k);
            }
        }
        r
    }
}

} // verus!
