use vstd::prelude::*;

verus! {

broadcast use vstd::seq_lib::group_seq_properties;

/// The sum of a sequence of lengths.
pub open spec fn seq_sum(s: Seq<nat>) -> nat
    decreases s.len(),
{
    if s.len() == 0 {
        0
    } else {
        seq_sum(s.drop_last()) + s.last()
    }
}

/// The sum of the squares of a sequence of lengths.
pub open spec fn seq_sum_sq(s: Seq<nat>) -> nat
    decreases s.len(),
{
    if s.len() == 0 {
        0
    } else {
        seq_sum_sq(s.drop_last()) + s.last() * s.last()
    }
}

/// The least element of a non-empty sequence.
pub open spec fn seq_min(s: Seq<nat>) -> nat
    decreases s.len(),
{
    if s.len() <= 1 {
        s[0]
    } else if s.last() < seq_min(s.drop_last()) {
        s.last()
    } else {
        seq_min(s.drop_last())
    }
}

/// The greatest element of a non-empty sequence.
pub open spec fn seq_max(s: Seq<nat>) -> nat
    decreases s.len(),
{
    if s.len() <= 1 {
        s[0]
    } else if s.last() > seq_max(s.drop_last()) {
        s.last()
    } else {
        seq_max(s.drop_last())
    }
}

/// The lengths observed, in order, and the number of null observations.
pub struct LengthView {
    pub lengths: Seq<nat>,
    pub nulls: nat,
}

pub open spec fn empty_lengths() -> LengthView {
    LengthView { lengths: Seq::empty(), nulls: 0 }
}

pub open spec fn add_length(v: LengthView, len: nat) -> LengthView {
    LengthView { lengths: v.lengths.push(len), ..v }
}

pub open spec fn add_null_length(v: LengthView) -> LengthView {
    LengthView { nulls: v.nulls + 1, ..v }
}

/// The statistics after a stream of observations, where `None` is a null.
pub open spec fn apply_observations(obs: Seq<Option<nat>>) -> LengthView
    decreases obs.len(),
{
    if obs.len() == 0 {
        empty_lengths()
    } else {
        match obs.last() {
            Some(len) => add_length(apply_observations(obs.drop_last()), len),
            None => add_null_length(apply_observations(obs.drop_last())),
        }
    }
}

/// The non-null observations of a stream, in order.
pub open spec fn non_null(obs: Seq<Option<nat>>) -> Seq<nat>
    decreases obs.len(),
{
    if obs.len() == 0 {
        Seq::empty()
    } else {
        match obs.last() {
            Some(len) => non_null(obs.drop_last()).push(len),
            None => non_null(obs.drop_last()),
        }
    }
}

/// The number of null observations in a stream.
pub open spec fn null_total(obs: Seq<Option<nat>>) -> nat
    decreases obs.len(),
{
    if obs.len() == 0 {
        0
    } else {
        null_total(obs.drop_last()) + if obs.last() is None {
            1nat
        } else {
            0nat
        }
    }
}

/// Nulls interleaved in a stream leave the length statistics as the non-null
/// observations alone make them, and are counted one by one.
pub proof fn lemma_nulls_do_not_perturb(obs: Seq<Option<nat>>)
    ensures
        apply_observations(obs).lengths == non_null(obs),
        apply_observations(obs).nulls == null_total(obs),
        apply_observations(non_null(obs).map_values(|l: nat| Some(l))).lengths == non_null(obs),
    decreases obs.len(),
{
    if obs.len() > 0 {
        lemma_nulls_do_not_perturb(obs.drop_last());
    }
    lemma_only_values(non_null(obs));
}

proof fn lemma_only_values(s: Seq<nat>)
    ensures
        apply_observations(s.map_values(|l: nat| Some(l))).lengths == s,
        non_null(s.map_values(|l: nat| Some(l))) == s,
    decreases s.len(),
{
    let m = s.map_values(|l: nat| Some(l));
    if s.len() > 0 {
        lemma_only_values(s.drop_last());
        assert(m.drop_last() =~= s.drop_last().map_values(|l: nat| Some(l)));
        assert(s =~= s.drop_last().push(s.last()));
    } else {
        assert(s =~= Seq::<nat>::empty());
    }
}

/// Exact statistics of the lengths of a stream of strings: count, nulls,
/// least and greatest length, and the sums of lengths and of their squares,
/// from which mean and population deviation follow without rounding.
pub struct LengthStats {
    count: u64,
    null_count: u64,
    min: usize,
    max: usize,
    sum: u64,
    sum_sq: u128,
    lengths: Ghost<Seq<nat>>,
}

impl View for LengthStats {
    type V = LengthView;

    closed spec fn view(&self) -> LengthView {
        LengthView { lengths: self.lengths@, nulls: self.null_count as nat }
    }
}

proof fn lemma_sum_sq_bound(s: Seq<nat>)
    ensures
        seq_sum_sq(s) <= seq_sum(s) * seq_sum(s),
        s.len() > 0 ==> seq_max(s) <= seq_sum(s),
    decreases s.len(),
{
    if s.len() > 0 {
        lemma_sum_sq_bound(s.drop_last());
        let a = seq_sum(s.drop_last());
        let x = s.last();
        assert(seq_sum_sq(s.drop_last()) + x * x <= (a + x) * (a + x)) by (nonlinear_arith)
            requires
                seq_sum_sq(s.drop_last()) <= a * a,
        ;
    }
}

impl LengthStats {
    pub closed spec fn wf(&self) -> bool {
        &&& self.count as nat == self.lengths@.len()
        &&& self.sum as nat == seq_sum(self.lengths@)
        &&& self.sum_sq as nat == seq_sum_sq(self.lengths@)
        &&& self.lengths@.len() > 0 ==> self.min as nat == seq_min(self.lengths@)
            && self.max as nat == seq_max(self.lengths@)
    }

    pub fn new() -> (r: LengthStats)
        ensures
            r.wf(),
            r@ == empty_lengths(),
    {
        LengthStats {
            count: 0,
            null_count: 0,
            min: 0,
            max: 0,
            sum: 0,
            sum_sq: 0,
            lengths: Ghost(Seq::empty()),
        }
    }

    /// Observes a string of `len` characters. The totals are kept in 64 bits:
    /// the count of lengths and their sum must stay within them.
    pub fn add(&mut self, len: usize)
        requires
            old(self).wf(),
            old(self)@.lengths.len() < u64::MAX,
            seq_sum(old(self)@.lengths) + len <= u64::MAX,
        ensures
            final(self).wf(),
            final(self)@ == add_length(old(self)@, len as nat),
    {
        let ghost old_l = self.lengths@;
        let ghost new_l = old_l.push(len as nat);
        proof {
            assert(new_l.drop_last() =~= old_l);
            lemma_sum_sq_bound(new_l);
            assert(seq_sum(new_l) <= u64::MAX);
            assert(seq_sum(new_l) * seq_sum(new_l) <= 0xffff_ffff_ffff_ffffnat
                * 0xffff_ffff_ffff_ffffnat) by (nonlinear_arith)
                requires
                    seq_sum(new_l) <= 0xffff_ffff_ffff_ffffnat,
            ;
            assert((len as nat) * (len as nat) <= seq_sum_sq(new_l));
        }
        if self.count == 0 {
            self.min = len;
            self.max = len;
        } else {
            if len < self.min {
                self.min = len;
            }
            if len > self.max {
                self.max = len;
            }
        }
        let l = len as u128;
        self.count = self.count + 1;
        self.sum = self.sum + len as u64;
        self.sum_sq = self.sum_sq + l * l;
        self.lengths = Ghost(new_l);
    }

    /// Observes a null: only the null count moves.
    pub fn add_null(&mut self)
        requires
            old(self).wf(),
            old(self)@.nulls < u64::MAX,
        ensures
            final(self).wf(),
            final(self)@ == add_null_length(old(self)@),
    {
        self.null_count = self.null_count + 1;
    }

    /// The number of non-null observations.
    pub fn count(&self) -> (r: u64)
        requires
            self.wf(),
        ensures
            r as nat == self@.lengths.len(),
    {
        self.count
    }

    /// The number of null observations.
    pub fn null_count(&self) -> (r: u64)
        ensures
            r as nat == self@.nulls,
    {
        self.null_count
    }

    /// The least length observed, if any was.
    pub fn min(&self) -> (r: Option<usize>)
        requires
            self.wf(),
        ensures
            r matches Some(m) ==> self@.lengths.len() > 0 && m as nat == seq_min(self@.lengths),
            r is None ==> self@.lengths.len() == 0,
    {
        if self.count == 0 {
            None
        } else {
            Some(self.min)
        }
    }

    /// The greatest length observed, if any was.
    pub fn max(&self) -> (r: Option<usize>)
        requires
            self.wf(),
        ensures
            r matches Some(m) ==> self@.lengths.len() > 0 && m as nat == seq_max(self@.lengths),
            r is None ==> self@.lengths.len() == 0,
    {
        if self.count == 0 {
            None
        } else {
            Some(self.max)
        }
    }

    /// The sum of the lengths observed.
    pub fn sum(&self) -> (r: u64)
        requires
            self.wf(),
        ensures
            r as nat == seq_sum(self@.lengths),
    {
        self.sum
    }

    /// The sum of the squares of the lengths observed.
    pub fn sum_sq(&self) -> (r: u128)
        requires
            self.wf(),
        ensures
            r as nat == seq_sum_sq(self@.lengths),
    {
        self.sum_sq
    }
}

} // verus!
