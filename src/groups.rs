use vstd::prelude::*;

verus! {

broadcast use vstd::seq_lib::group_seq_properties;

/// The mapping that a list of keys and a list of values, side by side, stand for.
pub open spec fn map_of<V>(keys: Seq<Seq<char>>, vals: Seq<V>) -> Map<Seq<char>, V>
    decreases keys.len(),
{
    if keys.len() == 0 || vals.len() == 0 {
        Map::empty()
    } else {
        map_of(keys.drop_last(), vals.drop_last()).insert(keys.last(), vals.last())
    }
}

proof fn lemma_map_of_index<V>(keys: Seq<Seq<char>>, vals: Seq<V>)
    requires
        keys.len() == vals.len(),
        keys.no_duplicates(),
    ensures
        forall|k: Seq<char>| #[trigger]
            map_of(keys, vals).contains_key(k) <==> keys.contains(k),
        forall|i: int|
            0 <= i < keys.len() ==> #[trigger] map_of(keys, vals)[keys[i]] == vals[i],
    decreases keys.len(),
{
    if keys.len() > 0 {
        let ks = keys.drop_last();
        let vs = vals.drop_last();
        let m = map_of(keys, vals);
        assert(ks.no_duplicates()) by {
            assert forall|a: int, b: int| 0 <= a < ks.len() && 0 <= b < ks.len() && a != b implies ks[a]
                != ks[b] by {
                assert(ks[a] == keys[a] && ks[b] == keys[b]);
            }
        }
        lemma_map_of_index(ks, vs);
        assert(m == map_of(ks, vs).insert(keys.last(), vals.last()));
        assert forall|k: Seq<char>| #[trigger] m.contains_key(k) <==> keys.contains(k) by {
            if keys.contains(k) && k != keys.last() {
                let j = choose|j: int| 0 <= j < keys.len() && keys[j] == k;
                assert(j < keys.len() - 1);
                assert(ks[j] == k);
            }
            if ks.contains(k) {
                let j = choose|j: int| 0 <= j < ks.len() && ks[j] == k;
                assert(keys[j] == k);
            }
        }
        assert forall|i: int| 0 <= i < keys.len() implies #[trigger] m[keys[i]] == vals[i] by {
            if i < keys.len() - 1 {
                assert(ks[i] == keys[i]);
                assert(vs[i] == vals[i]);
                assert(keys[i] != keys[keys.len() - 1]);
                assert(map_of(ks, vs)[ks[i]] == vs[i]);
            }
        }
    }
}

proof fn lemma_map_of_update<V>(keys: Seq<Seq<char>>, vals: Seq<V>, i: int, v: V)
    requires
        keys.len() == vals.len(),
        keys.no_duplicates(),
        0 <= i < keys.len(),
    ensures
        map_of(keys, vals.update(i, v)) == map_of(keys, vals).insert(keys[i], v),
    decreases keys.len(),
{
    let ks = keys.drop_last();
    let vs = vals.drop_last();
    if i == keys.len() - 1 {
        assert(vals.update(i, v).drop_last() =~= vs);
    } else {
        lemma_map_of_update(ks, vs, i, v);
        assert(vals.update(i, v).drop_last() =~= vs.update(i, v));
        assert(keys[i] != keys.last());
    }
    assert(map_of(keys, vals.update(i, v)) =~= map_of(keys, vals).insert(keys[i], v));
}

/// A mapping from group keys to values, kept as two lists side by side with
/// distinct keys; a key is added once, the first time it is asked for.
pub struct GroupTable<A> {
    keys: Vec<String>,
    vals: Vec<A>,
}

impl<A> View for GroupTable<A> {
    type V = Map<Seq<char>, A>;

    closed spec fn view(&self) -> Map<Seq<char>, A> {
        map_of(self.key_views(), self.vals@)
    }
}

impl<A> GroupTable<A> {
    /// The keys, in the order in which they were added.
    pub closed spec fn key_views(&self) -> Seq<Seq<char>> {
        self.keys@.map_values(|s: String| s@)
    }

    pub closed spec fn wf(&self) -> bool {
        &&& self.keys@.len() == self.vals@.len()
        &&& self.key_views().no_duplicates()
    }

    /// The key and the value at position `i` belong together in the mapping.
    proof fn lemma_entry(&self, i: int)
        requires
            self.wf(),
            0 <= i < self.key_views().len(),
        ensures
            self@.contains_key(self.key_views()[i]),
            self@[self.key_views()[i]] == self.vals@[i],
    {
        lemma_map_of_index(self.key_views(), self.vals@);
    }

    /// Every key of the mapping is at some position.
    pub proof fn lemma_keys(&self)
        requires
            self.wf(),
        ensures
            forall|k: Seq<char>| #[trigger] self@.contains_key(k) <==> self.key_views().contains(k),
            self@.dom().finite(),
            self@.dom().len() == self.key_views().len(),
    {
        lemma_map_of_index(self.key_views(), self.vals@);
        self.key_views().unique_seq_to_set();
        assert(self@.dom() =~= self.key_views().to_set());
    }

    pub fn new() -> (r: GroupTable<A>)
        ensures
            r.wf(),
            r@ == Map::<Seq<char>, A>::empty(),
            r.key_views().len() == 0,
    {
        let r = GroupTable { keys: Vec::new(), vals: Vec::new() };
        assert(r.key_views().len() == 0);
        r
    }

    /// The number of keys.
    pub fn len(&self) -> (r: usize)
        ensures
            r == self.key_views().len(),
    {
        self.keys.len()
    }

    /// The key at position `i`.
    pub fn key(&self, i: usize) -> (r: &String)
        requires
            i < self.key_views().len(),
        ensures
            r@ == self.key_views()[i as int],
    {
        &self.keys[i]
    }

    /// The value at position `i`, which the mapping gives for the key there.
    pub fn value(&self, i: usize) -> (r: &A)
        requires
            self.wf(),
            i < self.key_views().len(),
        ensures
            self@.contains_key(self.key_views()[i as int]),
            *r == self@[self.key_views()[i as int]],
    {
        proof {
            self.lemma_entry(i as int);
        }
        &self.vals[i]
    }

    /// The position of `key`, if it is there.
    pub fn find(&self, key: &String) -> (r: Option<usize>)
        requires
            self.wf(),
        ensures
            r matches Some(i) ==> i < self.key_views().len() && self.key_views()[i as int]
                == key@,
            r is None ==> !self@.contains_key(key@),
    {
        proof {
            lemma_map_of_index(self.key_views(), self.vals@);
        }
        let mut i: usize = 0;
        while i < self.keys.len()
            invariant
                i <= self.keys@.len(),
                forall|j: int| 0 <= j < i ==> self.keys@[j]@ != key@,
            decreases self.keys@.len() - i,
        {
            if self.keys[i] == *key {
                return Some(i);
            }
            i += 1;
        }
        assert(!self.key_views().contains(key@)) by {
            assert forall|j: int| 0 <= j < self.key_views().len() implies self.key_views()[j]
                != key@ by {}
        }
        None
    }

    /// The position of `key`, added with the value `fresh` if it was not there.
    pub fn entry_index(&mut self, key: String, fresh: A) -> (r: usize)
        requires
            old(self).wf(),
        ensures
            final(self).wf(),
            r < final(self).key_views().len(),
            final(self).key_views()[r as int] == key@,
            final(self)@ == if old(self)@.contains_key(key@) {
                old(self)@
            } else {
                old(self)@.insert(key@, fresh)
            },
    {
        match self.find(&key) {
            Some(i) => {
                proof {
                    lemma_map_of_index(self.key_views(), self.vals@);
                }
                i
            },
            None => {
                proof {
                    lemma_map_of_index(self.key_views(), self.vals@);
                }
                let ghost k = key@;
                self.keys.push(key);
                self.vals.push(fresh);
                proof {
                    assert(self.key_views() =~= old(self).key_views().push(k));
                    assert(self.key_views().drop_last() =~= old(self).key_views());
                    assert(self.vals@.drop_last() =~= old(self).vals@);
                }
                self.keys.len() - 1
            },
        }
    }

    /// The value at position `i`, to be changed in place; the mapping then
    /// gives the changed value for the key there.
    pub fn value_mut(&mut self, i: usize) -> (r: &mut A)
        requires
            old(self).wf(),
            i < old(self).key_views().len(),
        ensures
            old(self)@.contains_key(old(self).key_views()[i as int]),
            *r == old(self)@[old(self).key_views()[i as int]],
            final(self).wf(),
            final(self).key_views() == old(self).key_views(),
            final(self)@ == old(self)@.insert(old(self).key_views()[i as int], *final(r)),
    {
        proof {
            self.lemma_entry(i as int);
            let keys = self.key_views();
            let vals = self.vals@;
            assert forall|v: A| #[trigger]
                map_of(keys, vals.update(i as int, v)) == map_of(keys, vals).insert(
                    keys[i as int],
                    v,
                ) by {
                lemma_map_of_update(keys, vals, i as int, v);
            }
        }
        &mut self.vals[i]
    }
}

} // verus!
