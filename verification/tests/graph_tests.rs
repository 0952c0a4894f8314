use isucondition::graph::{generate_graph, truncate_to_hour};
use isucondition::record::ConditionRecord;

fn record(timestamp: i64, is_sitting: bool, condition: &str) -> ConditionRecord {
    ConditionRecord {
        device_id: String::from("device-1"),
        timestamp,
        is_sitting,
        condition: String::from(condition),
        message: String::from("hi"),
    }
}

const ALL_CLEAR: &str = "is_dirty=false,is_overweight=false,is_broken=false";

// 2021-07-01 00:00:00 UTC, an hour boundary.
const WINDOW: i64 = 1625097600;

#[test]
fn truncation_rounds_down_to_the_hour() {
    assert_eq!(truncate_to_hour(0), 0);
    assert_eq!(truncate_to_hour(3599), 0);
    assert_eq!(truncate_to_hour(3600), 3600);
    assert_eq!(truncate_to_hour(7201), 7200);
    assert_eq!(truncate_to_hour(WINDOW + 123), WINDOW);
    assert_eq!(truncate_to_hour(-1), -3600);
    assert_eq!(truncate_to_hour(-3600), -3600);
    assert_eq!(truncate_to_hour(-3601), -7200);
}

#[test]
fn empty_history_yields_twenty_four_empty_buckets() {
    let records: Vec<ConditionRecord> = Vec::new();
    let buckets = generate_graph(&records, WINDOW).expect("empty history is fine");
    assert_eq!(buckets.len(), 24);
    for (k, b) in buckets.iter().enumerate() {
        assert_eq!(b.start_at, WINDOW + (k as i64) * 3600);
        assert_eq!(b.end_at, b.start_at + 3600);
        assert!(b.data.is_none());
        assert!(b.condition_timestamps.is_empty());
    }
}

#[test]
fn hours_zero_and_two_filled_hour_one_and_rest_empty() {
    let records = vec![
        record(WINDOW + 100, true, ALL_CLEAR),
        record(WINDOW + 200, true, ALL_CLEAR),
        record(WINDOW + 2 * 3600 + 30, false, ALL_CLEAR),
    ];
    let buckets = generate_graph(&records, WINDOW).expect("valid history");
    assert_eq!(buckets.len(), 24);
    assert!(buckets[0].data.is_some());
    assert_eq!(buckets[0].condition_timestamps, vec![WINDOW + 100, WINDOW + 200]);
    assert!(buckets[1].data.is_none());
    assert!(buckets[1].condition_timestamps.is_empty());
    assert!(buckets[2].data.is_some());
    assert_eq!(buckets[2].condition_timestamps, vec![WINDOW + 2 * 3600 + 30]);
    for b in &buckets[3..] {
        assert!(b.data.is_none());
        assert!(b.condition_timestamps.is_empty());
    }
}

#[test]
fn bucket_aggregates_cover_only_their_hour() {
    let records = vec![
        record(WINDOW + 10, true, ALL_CLEAR),
        record(WINDOW + 3600 + 10, false, "is_dirty=true,is_overweight=true,is_broken=true"),
    ];
    let buckets = generate_graph(&records, WINDOW).expect("valid history");
    let first = buckets[0].data.as_ref().expect("hour 0 filled");
    assert_eq!(first.score, 100);
    assert_eq!(first.percentage.sitting, 100);
    let second = buckets[1].data.as_ref().expect("hour 1 filled");
    assert_eq!(second.score, 33);
    assert_eq!(second.percentage.sitting, 0);
    assert_eq!(second.percentage.is_broken, 100);
}

#[test]
fn history_outside_the_window_is_dropped_but_still_validated() {
    let records = vec![
        record(WINDOW - 5000, true, ALL_CLEAR),
        record(WINDOW + 50, true, ALL_CLEAR),
        record(WINDOW + 23 * 3600 + 70, true, ALL_CLEAR),
        record(WINDOW + 24 * 3600 + 50, true, ALL_CLEAR),
    ];
    let buckets = generate_graph(&records, WINDOW).expect("valid history");
    assert!(buckets[0].data.is_some());
    assert_eq!(buckets[0].condition_timestamps, vec![WINDOW + 50]);
    assert!(buckets[23].data.is_some());
    assert_eq!(buckets[23].condition_timestamps, vec![WINDOW + 23 * 3600 + 70]);
    for b in &buckets[1..23] {
        assert!(b.data.is_none());
    }
}

#[test]
fn ill_formed_stored_string_fails_the_request_even_outside_the_window() {
    let records = vec![record(WINDOW - 100000, true, "garbage")];
    assert!(generate_graph(&records, WINDOW).is_err());
}
