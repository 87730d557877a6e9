use group_stats::cardinality::CardinalitySet;
use group_stats::engine::{
    group_string_stats_in_buf_reader, number_is_null, route_line, NumberReading,
    StringGroupingEngine,
};
use group_stats::length_stats::LengthStats;
use group_stats::split::split_line;

fn lines(items: &[&str]) -> Vec<String> {
    items.iter().map(|s| s.to_string()).collect()
}

#[test]
fn right_split_takes_last_delimiter() {
    let r = split_line("a,b,5", ',');
    assert_eq!(r, Some(("a,b".to_string(), "5".to_string())));
}

#[test]
fn split_without_delimiter_is_none() {
    assert_eq!(split_line("noDelimiterHere", ','), None);
}

#[test]
fn split_with_trailing_delimiter_gives_empty_value() {
    assert_eq!(split_line("g1,", ','), Some(("g1".to_string(), String::new())));
    assert_eq!(split_line(",x", ','), Some((String::new(), "x".to_string())));
}

#[test]
fn split_on_multibyte_delimiter() {
    assert_eq!(split_line("é→ü→1", '→'), Some(("é→ü".to_string(), "1".to_string())));
}

#[test]
fn route_sends_malformed_line_to_sentinel() {
    assert_eq!(route_line("noDelimiterHere", ','), ("<INVALID>".to_string(), None));
    assert_eq!(route_line("g1,10", ','), ("g1".to_string(), Some("10".to_string())));
}

#[test]
fn number_null_policy() {
    assert!(number_is_null(NumberReading::Unparsable, false));
    assert!(number_is_null(NumberReading::Unparsable, true));
    assert!(!number_is_null(NumberReading::Zero, false));
    assert!(number_is_null(NumberReading::Zero, true));
    assert!(!number_is_null(NumberReading::NonZero, true));
}

#[test]
fn numeric_example_routes_values_and_nulls() {
    let input = ["g1,10", "g1,20", "g1,30", "g2,x"];
    let routed: Vec<(String, Option<String>)> =
        input.iter().map(|l| route_line(l, ',')).collect();
    assert_eq!(routed[0], ("g1".to_string(), Some("10".to_string())));
    assert_eq!(routed[2], ("g1".to_string(), Some("30".to_string())));
    assert_eq!(routed[3], ("g2".to_string(), Some("x".to_string())));
}

#[test]
fn sentinel_routing_counts_one_null() {
    let mut engine = StringGroupingEngine::new(',', false, None);
    engine.ingest("noDelimiterHere");
    let groups = engine.finalize();
    assert_eq!(groups.len(), 1);
    let i = groups.find(&"<INVALID>".to_string()).unwrap();
    let g = groups.value(i);
    assert_eq!(g.null_count(), 1);
    assert_eq!(g.lengths().null_count(), 0);
    assert_eq!(g.lengths().count(), 0);
    assert_eq!(g.cardinality().count(), 0);
    engine.ingest("againNoDelimiter");
    let groups = engine.finalize();
    assert_eq!(groups.len(), 1);
    assert_eq!(groups.value(0).null_count(), 2);
    assert_eq!(engine.lines_ingested(), 2);
}

#[test]
fn string_example_end_to_end() {
    let input = lines(&["g1,ab", "g1,abcd", "g1,"]);
    let groups = group_string_stats_in_buf_reader(&input, ',', true, Some(10));
    assert_eq!(groups.len(), 1);
    let i = groups.find(&"g1".to_string()).unwrap();
    let g = groups.value(i);
    let len = g.lengths();
    assert_eq!(len.count(), 2);
    assert_eq!(len.null_count(), 1);
    assert_eq!(g.null_count(), 1);
    assert_eq!(len.min(), Some(2));
    assert_eq!(len.max(), Some(4));
    assert_eq!(len.sum(), 6);
    assert_eq!(len.sum_sq(), 20);
    assert_eq!(g.cardinality().count(), 2);
    assert!(!g.cardinality().is_capped());
    assert!(!g.cardinality().is_disabled());
}

#[test]
fn empty_value_counts_when_not_null() {
    let input = lines(&["g1,ab", "g1,"]);
    let groups = group_string_stats_in_buf_reader(&input, ',', false, None);
    let g = groups.value(0);
    assert_eq!(g.lengths().count(), 2);
    assert_eq!(g.lengths().min(), Some(0));
    assert_eq!(g.null_count(), 0);
    assert_eq!(g.cardinality().count(), 2);
}

#[test]
fn composite_keys_and_separate_groups() {
    let input = lines(&["a,b,x", "a,b,y", "a,c,x", "bad"]);
    let mut engine = StringGroupingEngine::new(',', false, None);
    for l in &input {
        engine.ingest(l);
    }
    assert_eq!(engine.chars_ingested(), 18);
    let groups = engine.into_groups();
    assert_eq!(groups.len(), 3);
    let ab = groups.find(&"a,b".to_string()).unwrap();
    assert_eq!(groups.key(ab), "a,b");
    assert_eq!(groups.value(ab).cardinality().count(), 2);
    assert!(groups.find(&"a,c".to_string()).is_some());
    assert!(groups.find(&"A,b".to_string()).is_none());
    assert_eq!(groups.value(groups.find(&"<INVALID>".to_string()).unwrap()).null_count(), 1);
}

#[test]
fn length_counts_characters_not_bytes() {
    let input = lines(&["k,é", "k,日本語"]);
    let groups = group_string_stats_in_buf_reader(&input, ',', false, None);
    let len = groups.value(0).lengths();
    assert_eq!(len.min(), Some(1));
    assert_eq!(len.max(), Some(3));
}

#[test]
fn empty_input_has_no_groups() {
    let groups = group_string_stats_in_buf_reader(&Vec::new(), ',', false, None);
    assert_eq!(groups.len(), 0);
}

#[test]
fn cardinality_latches_past_cap() {
    let mut c = CardinalitySet::new(Some(2));
    c.observe("a");
    c.observe("b");
    c.observe("a");
    assert_eq!(c.count(), 2);
    assert!(!c.is_capped());
    c.observe("c");
    assert_eq!(c.count(), 2);
    assert!(c.is_capped());
    c.observe("d");
    assert_eq!(c.count(), 2);
    assert!(c.is_capped());
}

#[test]
fn cardinality_unlimited_is_exact() {
    let mut c = CardinalitySet::new(None);
    for v in ["x", "y", "x", "z", "", ""] {
        c.observe(v);
    }
    assert_eq!(c.count(), 4);
    assert!(!c.is_capped());
    assert!(!c.is_disabled());
}

#[test]
fn cardinality_zero_cap_disables() {
    let mut c = CardinalitySet::new(Some(0));
    c.observe("x");
    c.observe("y");
    assert!(c.is_disabled());
    assert!(!c.is_capped());
    assert_eq!(c.count(), 0);
}

#[test]
fn cardinality_cap_through_engine() {
    let input = lines(&["g,a", "g,b", "g,c"]);
    let groups = group_string_stats_in_buf_reader(&input, ',', false, Some(2));
    let c = groups.value(0).cardinality();
    assert!(c.is_capped());
    assert_eq!(c.count(), 2);
}

#[test]
fn nulls_do_not_perturb_lengths() {
    let mut with_nulls = LengthStats::new();
    let mut plain = LengthStats::new();
    with_nulls.add_null();
    with_nulls.add(3);
    with_nulls.add_null();
    with_nulls.add(5);
    with_nulls.add_null();
    plain.add(3);
    plain.add(5);
    assert_eq!(with_nulls.count(), plain.count());
    assert_eq!(with_nulls.min(), plain.min());
    assert_eq!(with_nulls.max(), plain.max());
    assert_eq!(with_nulls.sum(), plain.sum());
    assert_eq!(with_nulls.sum_sq(), plain.sum_sq());
    assert_eq!(with_nulls.null_count(), 3);
    assert_eq!(plain.null_count(), 0);
}

#[test]
fn length_sums_give_exact_mean_and_deviation() {
    let mut s = LengthStats::new();
    for l in [10usize, 20, 30] {
        s.add(l);
    }
    assert_eq!(s.count(), 3);
    assert_eq!(s.sum(), 60);
    assert_eq!(s.sum_sq(), 1400);
    let n = s.count() as f64;
    let mean = s.sum() as f64 / n;
    let var = s.sum_sq() as f64 / n - mean * mean;
    assert!((mean - 20.0).abs() < 1e-12);
    assert!((var.sqrt() - (200.0f64 / 3.0).sqrt()).abs() < 1e-9);
}

#[test]
fn empty_length_stats_have_no_extremes() {
    let s = LengthStats::new();
    assert_eq!(s.min(), None);
    assert_eq!(s.max(), None);
    assert_eq!(s.count(), 0);
}
