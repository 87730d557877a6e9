use vstd::prelude::*;

use crate::cardinality::{empty_cardinality, observe_value, CardinalitySet, CardinalityView};
use crate::groups::GroupTable;
use crate::length_stats::{
    add_length, add_null_length, empty_lengths, seq_sum, LengthStats, LengthView,
};
use crate::split::{lemma_split_last_parts, split_last, split_line};

verus! {

broadcast use vstd::seq_lib::group_seq_properties;

/// The key of the group that collects lines without a delimiter.
pub open spec fn sentinel_key() -> Seq<char> {
    "<INVALID>"@
}

/// Where a line goes: the group key and, for a line with a delimiter, the raw
/// value after it; a line without one goes to the sentinel group, valueless.
pub open spec fn route(line: Seq<char>, delimiter: char) -> (Seq<char>, Option<Seq<char>>) {
    match split_last(line, delimiter) {
        Some((k, v)) => (k, Some(v)),
        None => (sentinel_key(), None),
    }
}

/// Routes a line (see `route`).
pub fn route_line(line: &str, delimiter: char) -> (r: (String, Option<String>))
    ensures
        r.0@ == route(line@, delimiter).0,
        r.1 matches Some(v) ==> route(line@, delimiter).1 == Some(v@),
        r.1 is None ==> route(line@, delimiter).1 is None,
{
    match split_line(line, delimiter) {
        Some((k, v)) => (k, Some(v)),
        None => {
            proof {
                reveal_strlit("<INVALID>");
            }
            (String::from_str("<INVALID>"), None)
        },
    }
}

/// How the raw value of a line reads as a number.
#[derive(Clone, Copy, Debug, PartialEq, Eq, Structural)]
pub enum NumberReading {
    Unparsable,
    Zero,
    NonZero,
}

/// A value counts as null when it is no number, or a zero while zeros count as null.
pub open spec fn reading_is_null(reading: NumberReading, zero_as_null: bool) -> bool {
    reading == NumberReading::Unparsable || (zero_as_null && reading == NumberReading::Zero)
}

/// Decides whether a numeric value counts as null (see `reading_is_null`).
pub fn number_is_null(reading: NumberReading, zero_as_null: bool) -> (r: bool)
    ensures
        r == reading_is_null(reading, zero_as_null),
{
    match reading {
        NumberReading::Unparsable => true,
        NumberReading::Zero => zero_as_null,
        NumberReading::NonZero => false,
    }
}

/// What a group in string mode holds: the distinct values, the null count on
/// the value side, and the statistics of the lengths.
pub struct StringGroupView {
    pub cardinality: CardinalityView,
    pub nulls: nat,
    pub lengths: LengthView,
}

pub open spec fn empty_group(cap: Option<usize>) -> StringGroupView {
    StringGroupView { cardinality: empty_cardinality(cap), nulls: 0, lengths: empty_lengths() }
}

/// A value updates both the distinct values and the length statistics.
pub open spec fn group_add(g: StringGroupView, value: Seq<char>) -> StringGroupView {
    StringGroupView {
        cardinality: observe_value(g.cardinality, value),
        lengths: add_length(g.lengths, value.len()),
        ..g
    }
}

/// A null is counted on both sides and never reaches the distinct values.
pub open spec fn group_add_null(g: StringGroupView) -> StringGroupView {
    StringGroupView { nulls: g.nulls + 1, lengths: add_null_length(g.lengths), ..g }
}

/// A line without a delimiter is counted as a null on the value side only.
pub open spec fn group_add_invalid(g: StringGroupView) -> StringGroupView {
    StringGroupView { nulls: g.nulls + 1, ..g }
}

/// The groups after one more line.
pub open spec fn ingest_line(
    groups: Map<Seq<char>, StringGroupView>,
    line: Seq<char>,
    delimiter: char,
    empty_as_null: bool,
    cap: Option<usize>,
) -> Map<Seq<char>, StringGroupView> {
    let (key, value) = route(line, delimiter);
    let g = if groups.contains_key(key) {
        groups[key]
    } else {
        empty_group(cap)
    };
    groups.insert(
        key,
        match value {
            None => group_add_invalid(g),
            Some(v) => if empty_as_null && v.len() == 0 {
                group_add_null(g)
            } else {
                group_add(g, v)
            },
        },
    )
}

/// Each line touches exactly the group it routes to, creating it if needed, and
/// leaves every other group as it was. A line without the delimiter goes to the
/// sentinel group and adds exactly one to its null count, with its lengths and
/// distinct values unchanged.
pub proof fn lemma_one_group_per_line(
    groups: Map<Seq<char>, StringGroupView>,
    line: Seq<char>,
    delimiter: char,
    empty_as_null: bool,
    cap: Option<usize>,
)
    ensures
        ({
            let r = ingest_line(groups, line, delimiter, empty_as_null, cap);
            let key = route(line, delimiter).0;
            let before = if groups.contains_key(key) {
                groups[key]
            } else {
                empty_group(cap)
            };
            &&& r.dom() == groups.dom().insert(key)
            &&& forall|k: Seq<char>| k != key && #[trigger] groups.contains_key(k) ==> r[k] == groups[k]
            &&& !line.contains(delimiter) ==> {
                &&& key == sentinel_key()
                &&& r[key].nulls == before.nulls + 1
                &&& r[key].lengths == before.lengths
                &&& r[key].cardinality == before.cardinality
            }
        }),
{
    lemma_split_last_parts(line, delimiter);
    let r = ingest_line(groups, line, delimiter, empty_as_null, cap);
    assert(r.dom() =~= groups.dom().insert(route(line, delimiter).0));
}

/// The groups after a sequence of lines, starting with none.
pub open spec fn ingest_lines(
    lines: Seq<Seq<char>>,
    delimiter: char,
    empty_as_null: bool,
    cap: Option<usize>,
) -> Map<Seq<char>, StringGroupView>
    decreases lines.len(),
{
    if lines.len() == 0 {
        Map::empty()
    } else {
        ingest_line(
            ingest_lines(lines.drop_last(), delimiter, empty_as_null, cap),
            lines.last(),
            delimiter,
            empty_as_null,
            cap,
        )
    }
}

/// The accumulator of one group in string mode.
pub struct StringGroup {
    cardinality: CardinalitySet,
    null_count: u64,
    lengths: LengthStats,
}

impl View for StringGroup {
    type V = StringGroupView;

    closed spec fn view(&self) -> StringGroupView {
        StringGroupView {
            cardinality: self.cardinality@,
            nulls: self.null_count as nat,
            lengths: self.lengths@,
        }
    }
}

impl StringGroup {
    pub closed spec fn wf(&self) -> bool {
        self.cardinality.wf() && self.lengths.wf()
    }

    pub fn new(cap: Option<usize>) -> (r: StringGroup)
        ensures
            r.wf(),
            r@ == empty_group(cap),
    {
        StringGroup { cardinality: CardinalitySet::new(cap), null_count: 0, lengths: LengthStats::new() }
    }

    /// Observes a value (see `group_add`); the length totals must stay within 64 bits.
    pub fn add(&mut self, value: &str)
        requires
            old(self).wf(),
            old(self)@.lengths.lengths.len() < u64::MAX,
            seq_sum(old(self)@.lengths.lengths) + value@.len() <= u64::MAX,
        ensures
            final(self).wf(),
            final(self)@ == group_add(old(self)@, value@),
    {
        let len = value.unicode_len();
        self.lengths.add(len);
        self.cardinality.observe(value);
    }

    /// Observes a null (see `group_add_null`).
    pub fn add_null(&mut self)
        requires
            old(self).wf(),
            old(self)@.nulls < u64::MAX,
            old(self)@.lengths.nulls < u64::MAX,
        ensures
            final(self).wf(),
            final(self)@ == group_add_null(old(self)@),
    {
        self.null_count = self.null_count + 1;
        self.lengths.add_null();
    }

    /// Observes a line without a delimiter (see `group_add_invalid`).
    pub fn add_invalid(&mut self)
        requires
            old(self).wf(),
            old(self)@.nulls < u64::MAX,
        ensures
            final(self).wf(),
            final(self)@ == group_add_invalid(old(self)@),
    {
        self.null_count = self.null_count + 1;
    }

    /// The null count on the value side.
    pub fn null_count(&self) -> (r: u64)
        ensures
            r as nat == self@.nulls,
    {
        self.null_count
    }

    /// The distinct values.
    pub fn cardinality(&self) -> (r: &CardinalitySet)
        requires
            self.wf(),
        ensures
            r.wf(),
            r@ == self@.cardinality,
    {
        &self.cardinality
    }

    /// The statistics of the lengths.
    pub fn lengths(&self) -> (r: &LengthStats)
        requires
            self.wf(),
        ensures
            r.wf(),
            r@ == self@.lengths,
    {
        &self.lengths
    }
}

/// The final groups of a run in string mode.
pub type GroupStringStats = GroupTable<StringGroup>;

/// The view of every group of a table.
pub open spec fn group_views(t: Map<Seq<char>, StringGroup>) -> Map<Seq<char>, StringGroupView> {
    t.map_values(|g: StringGroup| g@)
}

/// Groups the lines of a stream by key in string mode, one line at a time.
pub struct StringGroupingEngine {
    delimiter: char,
    empty_as_null: bool,
    cap: Option<usize>,
    groups: GroupTable<StringGroup>,
    lines: u64,
    chars: u64,
}

impl View for StringGroupingEngine {
    type V = Map<Seq<char>, StringGroupView>;

    closed spec fn view(&self) -> Map<Seq<char>, StringGroupView> {
        group_views(self.groups@)
    }
}

impl StringGroupingEngine {
    /// The number of lines ingested.
    pub closed spec fn lines_seen(&self) -> nat {
        self.lines as nat
    }

    /// The number of characters ingested, over all lines.
    pub closed spec fn chars_seen(&self) -> nat {
        self.chars as nat
    }

    pub closed spec fn delimiter_spec(&self) -> char {
        self.delimiter
    }

    pub closed spec fn empty_as_null_spec(&self) -> bool {
        self.empty_as_null
    }

    pub closed spec fn cap_spec(&self) -> Option<usize> {
        self.cap
    }

    /// Each group is well formed, and its counts and length total are bounded
    /// by the lines and characters ingested.
    pub closed spec fn wf(&self) -> bool {
        &&& self.groups.wf()
        &&& forall|k: Seq<char>| #[trigger]
            self.groups@.contains_key(k) ==> {
                let g = self.groups@[k];
                &&& g.wf()
                &&& g@.nulls <= self.lines
                &&& g@.lengths.nulls <= self.lines
                &&& g@.lengths.lengths.len() <= self.lines
                &&& seq_sum(g@.lengths.lengths) <= self.chars
            }
    }

    pub fn new(delimiter: char, empty_as_null: bool, cardinality_cap: Option<usize>) -> (r:
        StringGroupingEngine)
        ensures
            r.wf(),
            r@ == Map::<Seq<char>, StringGroupView>::empty(),
            r.lines_seen() == 0,
            r.chars_seen() == 0,
            r.delimiter_spec() == delimiter,
            r.empty_as_null_spec() == empty_as_null,
            r.cap_spec() == cardinality_cap,
    {
        let r = StringGroupingEngine {
            delimiter,
            empty_as_null,
            cap: cardinality_cap,
            groups: GroupTable::new(),
            lines: 0,
            chars: 0,
        };
        assert(r@ =~= Map::<Seq<char>, StringGroupView>::empty());
        r
    }

    /// Takes one line into its group (see `ingest_line`). The line and
    /// character totals are kept in 64 bits and must stay within them.
    pub fn ingest(&mut self, line: &str)
        requires
            old(self).wf(),
            old(self).lines_seen() < u64::MAX,
            old(self).chars_seen() + line@.len() <= u64::MAX,
        ensures
            final(self).wf(),
            final(self)@ == ingest_line(
                old(self)@,
                line@,
                old(self).delimiter_spec(),
                old(self).empty_as_null_spec(),
                old(self).cap_spec(),
            ),
            final(self).lines_seen() == old(self).lines_seen() + 1,
            final(self).chars_seen() == old(self).chars_seen() + line@.len(),
            final(self).delimiter_spec() == old(self).delimiter_spec(),
            final(self).empty_as_null_spec() == old(self).empty_as_null_spec(),
            final(self).cap_spec() == old(self).cap_spec(),
    {
        let line_len = line.unicode_len();
        let empty_as_null = self.empty_as_null;
        let (key, value) = route_line(line, self.delimiter);
        let ghost k = key@;
        let ghost old_groups = self.groups@;
        let i = self.groups.entry_index(key, StringGroup::new(self.cap));
        let ghost g0 = self.groups@[k];
        let ghost lines = self.lines;
        let ghost chars = self.chars;
        proof {
            if !old_groups.contains_key(k) {
                assert(g0@ == empty_group(self.cap));
            }
            assert(g0.wf());
            assert(g0@.lengths.lengths.len() <= lines);
            assert(seq_sum(g0@.lengths.lengths) <= chars);
        }
        let g = self.groups.value_mut(i);
        match value {
            None => g.add_invalid(),
            Some(v) => {
                proof {
                    lemma_split_last_parts(line@, self.delimiter);
                    assert(v@.len() <= line@.len());
                }
                if empty_as_null && v.unicode_len() == 0 {
                    g.add_null();
                } else {
                    g.add(v.as_str());
                    proof {
                        assert(g0@.lengths.lengths.push(v@.len()).drop_last()
                            =~= g0@.lengths.lengths);
                    }
                }
            },
        }
        self.lines = self.lines + 1;
        self.chars = self.chars + line_len as u64;
        proof {
            assert forall|k2: Seq<char>| #[trigger]
                self.groups@.contains_key(k2) implies {
                let g2 = self.groups@[k2];
                &&& g2.wf()
                &&& g2@.nulls <= self.lines
                &&& g2@.lengths.nulls <= self.lines
                &&& g2@.lengths.lengths.len() <= self.lines
                &&& seq_sum(g2@.lengths.lengths) <= self.chars
            } by {
                if k2 != k {
                    assert(old_groups.contains_key(k2));
                }
            }
            assert(self@ =~= ingest_line(
                old(self)@,
                line@,
                self.delimiter,
                self.empty_as_null,
                self.cap,
            ));
        }
    }

    /// The number of lines ingested.
    pub fn lines_ingested(&self) -> (r: u64)
        ensures
            r as nat == self.lines_seen(),
    {
        self.lines
    }

    /// The number of characters ingested, over all lines.
    pub fn chars_ingested(&self) -> (r: u64)
        ensures
            r as nat == self.chars_seen(),
    {
        self.chars
    }

    /// The groups, read once the stream is over.
    pub fn finalize(&self) -> (r: &GroupStringStats)
        requires
            self.wf(),
        ensures
            r.wf(),
            group_views(r@) == self@,
    {
        &self.groups
    }

    /// The groups, taken out of the engine once the stream is over.
    pub fn into_groups(self) -> (r: GroupStringStats)
        requires
            self.wf(),
        ensures
            r.wf(),
            group_views(r@) == self@,
    {
        self.groups
    }
}

/// The number of characters over all lines.
pub open spec fn total_chars(lines: Seq<Seq<char>>) -> nat
    decreases lines.len(),
{
    if lines.len() == 0 {
        0
    } else {
        total_chars(lines.drop_last()) + lines.last().len()
    }
}

proof fn lemma_total_chars_prefix(lines: Seq<Seq<char>>, i: int)
    requires
        0 <= i <= lines.len(),
    ensures
        total_chars(lines.subrange(0, i)) <= total_chars(lines),
    decreases lines.len(),
{
    if i < lines.len() {
        assert(lines.subrange(0, i) =~= lines.drop_last().subrange(0, i));
        lemma_total_chars_prefix(lines.drop_last(), i);
    } else {
        assert(lines.subrange(0, i) =~= lines);
    }
}

/// Groups `lines` in string mode (see `ingest_lines`). The line count and the
/// characters over all lines are kept in 64 bits and must stay within them.
pub fn group_string_stats_in_buf_reader(
    lines: &Vec<String>,
    delimiter: char,
    empty_as_null: bool,
    cardinality_cap: Option<usize>,
) -> (r: GroupStringStats)
    requires
        lines@.len() <= u64::MAX,
        total_chars(lines@.map_values(|s: String| s@)) <= u64::MAX,
    ensures
        r.wf(),
        group_views(r@) == ingest_lines(
            lines@.map_values(|s: String| s@),
            delimiter,
            empty_as_null,
            cardinality_cap,
        ),
{
    let ghost views = lines@.map_values(|s: String| s@);
    let mut engine = StringGroupingEngine::new(delimiter, empty_as_null, cardinality_cap);
    let mut i: usize = 0;
    proof {
        assert(views.subrange(0, 0) =~= Seq::<Seq<char>>::empty());
    }
    while i < lines.len()
        invariant
            engine.wf(),
            i <= lines@.len(),
            views == lines@.map_values(|s: String| s@),
            lines@.len() <= u64::MAX,
            total_chars(views) <= u64::MAX,
            engine@ == ingest_lines(views.subrange(0, i as int), delimiter, empty_as_null, cardinality_cap),
            engine.lines_seen() == i,
            engine.chars_seen() == total_chars(views.subrange(0, i as int)),
            engine.delimiter_spec() == delimiter,
            engine.empty_as_null_spec() == empty_as_null,
            engine.cap_spec() == cardinality_cap,
        decreases lines@.len() - i,
    {
        proof {
            assert(views.subrange(0, i + 1).drop_last() =~= views.subrange(0, i as int));
            lemma_total_chars_prefix(views, i + 1);
        }
        engine.ingest(lines[i].as_str());
        i += 1;
    }
    proof {
        assert(views.subrange(0, i as int) =~= views);
    }
    engine.into_groups()
}

} // verus!
