use vstd::prelude::*;
use vstd::set_lib::lemma_len_subset;

verus! {

broadcast use vstd::seq_lib::group_seq_properties, vstd::set::group_set_axioms;

/// What a cardinality tracker knows: the distinct values it holds, its cap
/// (`None`: unlimited; `Some(0)`: tracking disabled) and whether it has latched
/// at the cap.
pub struct CardinalityView {
    pub seen: Set<Seq<char>>,
    pub cap: Option<usize>,
    pub capped: bool,
}

/// A tracker with the given cap that has observed nothing.
pub open spec fn empty_cardinality(cap: Option<usize>) -> CardinalityView {
    CardinalityView { seen: Set::empty(), cap, capped: false }
}

/// Tracking is disabled by a cap of zero.
pub open spec fn cap_disables(cap: Option<usize>) -> bool {
    cap == Some(0usize)
}

/// One observation: nothing changes when tracking is disabled, the tracker
/// has latched, or the value is already held; a new value that would take the
/// set past its cap latches the tracker instead of being held.
pub open spec fn observe_value(c: CardinalityView, value: Seq<char>) -> CardinalityView {
    if cap_disables(c.cap) || c.capped || c.seen.contains(value) {
        c
    } else if c.cap is Some && c.seen.len() >= c.cap->Some_0 {
        CardinalityView { capped: true, ..c }
    } else {
        CardinalityView { seen: c.seen.insert(value), ..c }
    }
}

/// The tracker after observing `values` in order, starting empty.
pub open spec fn observe_all(cap: Option<usize>, values: Seq<Seq<char>>) -> CardinalityView
    decreases values.len(),
{
    if values.len() == 0 {
        empty_cardinality(cap)
    } else {
        observe_value(observe_all(cap, values.drop_last()), values.last())
    }
}

/// Under a positive cap `n` the tracker never holds more than `n` values, and it
/// is latched exactly when more than `n` distinct values were observed. Without
/// a cap it holds exactly the distinct values observed and never latches. With
/// a cap of zero it holds nothing and stays disabled.
pub proof fn lemma_cardinality_cap(cap: Option<usize>, values: Seq<Seq<char>>)
    ensures
        observe_all(cap, values).cap == cap,
        observe_all(cap, values).seen.finite(),
        cap matches Some(n) ==> (n > 0 ==> observe_all(cap, values).seen.len() <= n && (
        observe_all(cap, values).capped <==> values.to_set().len() > n)),
        cap is None ==> observe_all(cap, values).seen == values.to_set() && !observe_all(
            cap,
            values,
        ).capped,
        cap_disables(cap) ==> observe_all(cap, values).seen.is_empty() && !observe_all(
            cap,
            values,
        ).capped,
{
    lemma_cardinality_inv(cap, values);
}

proof fn lemma_cardinality_inv(cap: Option<usize>, values: Seq<Seq<char>>)
    ensures
        ({
            let c = observe_all(cap, values);
            &&& c.cap == cap
            &&& c.seen.finite()
            &&& c.seen.subset_of(values.to_set())
            &&& cap_disables(cap) ==> c.seen.is_empty() && !c.capped
            &&& (!cap_disables(cap) && !c.capped) ==> c.seen == values.to_set()
            &&& cap matches Some(n) ==> c.seen.len() <= n
            &&& c.capped ==> (cap matches Some(n) && n > 0 && c.seen.len() == n
                && values.to_set().len() > n)
        }),
    decreases values.len(),
{
    if values.len() > 0 {
        let prev = values.drop_last();
        let x = values.last();
        lemma_cardinality_inv(cap, prev);
        assert(values =~= prev.push(x));
        assert(values.to_set() =~= prev.to_set().insert(x));
        let c0 = observe_all(cap, prev);
        let c = observe_all(cap, values);
        if c0.capped {
            lemma_len_subset(prev.to_set(), values.to_set());
        } else if !cap_disables(cap) && !c0.seen.contains(x) && c.capped {
            assert(values.to_set().len() == prev.to_set().len() + 1);
        }
    }
}

/// Tracks the distinct string values of a stream up to a cap, then latches.
pub struct CardinalitySet {
    seen: Vec<String>,
    cap: Option<usize>,
    capped: bool,
}

impl View for CardinalitySet {
    type V = CardinalityView;

    closed spec fn view(&self) -> CardinalityView {
        CardinalityView { seen: self.seen_values().to_set(), cap: self.cap, capped: self.capped }
    }
}

impl CardinalitySet {
    closed spec fn seen_values(&self) -> Seq<Seq<char>> {
        self.seen@.map_values(|s: String| s@)
    }

    /// The held values are distinct, never more than a positive cap, and none
    /// is held when tracking is disabled.
    pub closed spec fn wf(&self) -> bool {
        &&& self.seen_values().no_duplicates()
        &&& (self.cap matches Some(n) ==> self.seen@.len() <= n)
        &&& (cap_disables(self.cap) ==> !self.capped)
    }

    proof fn lemma_len(&self)
        requires
            self.wf(),
        ensures
            self@.seen.finite(),
            self@.seen.len() == self.seen@.len(),
    {
        self.seen_values().unique_seq_to_set();
    }

    pub fn new(cap: Option<usize>) -> (r: CardinalitySet)
        ensures
            r.wf(),
            r@ == empty_cardinality(cap),
    {
        let r = CardinalitySet { seen: Vec::new(), cap, capped: false };
        assert(r@.seen =~= Set::empty());
        r
    }

    fn holds(&self, value: &String) -> (r: bool)
        ensures
            r == self.seen_values().contains(value@),
    {
        let mut i: usize = 0;
        while i < self.seen.len()
            invariant
                i <= self.seen@.len(),
                forall|j: int| 0 <= j < i ==> self.seen@[j]@ != value@,
            decreases self.seen@.len() - i,
        {
            if self.seen[i] == *value {
                assert(self.seen_values()[i as int] == value@);
                return true;
            }
            i += 1;
        }
        assert forall|j: int| 0 <= j < self.seen_values().len() implies self.seen_values()[j]
            != value@ by {}
        false
    }

    /// Observes one value (see `observe_value`).
    pub fn observe(&mut self, value: &str)
        requires
            old(self).wf(),
        ensures
            final(self).wf(),
            final(self)@ == observe_value(old(self)@, value@),
    {
        proof {
            self.lemma_len();
        }
        if self.capped || self.is_disabled() {
            return;
        }
        let v = String::from_str(value);
        if self.holds(&v) {
            return;
        }
        match self.cap {
            Some(n) if self.seen.len() >= n => {
                self.capped = true;
            },
            _ => {
                proof {
                    assert(self.seen_values().push(v@).to_set() =~= self@.seen.insert(v@));
                }
                self.seen.push(v);
                proof {
                    assert(self.seen_values() =~= old(self).seen_values().push(value@));
                }
            },
        }
    }

    /// The number of distinct values held: exact while not latched, the cap
    /// once latched.
    pub fn count(&self) -> (r: usize)
        requires
            self.wf(),
        ensures
            r == self@.seen.len(),
    {
        proof {
            self.lemma_len();
        }
        self.seen.len()
    }

    /// Whether more distinct values arrived than the cap allows.
    pub fn is_capped(&self) -> (r: bool)
        ensures
            r == self@.capped,
    {
        self.capped
    }

    /// Whether tracking is disabled (a cap of zero).
    pub fn is_disabled(&self) -> (r: bool)
        ensures
            r == cap_disables(self@.cap),
    {
        match self.cap {
            Some(n) => n == 0,
            None => false,
        }
    }
}

} // verus!
