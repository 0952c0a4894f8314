use isucondition::filter::{query_conditions, summarize_condition, LevelSet, DEFAULT_CONDITION_LIMIT};
use isucondition::level::SeverityLevel;
use isucondition::record::ConditionRecord;

fn record(timestamp: i64, condition: &str) -> ConditionRecord {
    ConditionRecord {
        device_id: String::from("device-1"),
        timestamp,
        is_sitting: true,
        condition: String::from(condition),
        message: String::from("msg"),
    }
}

const ALL_CLEAR: &str = "is_dirty=false,is_overweight=false,is_broken=false";
const ALL_RAISED: &str = "is_dirty=true,is_overweight=true,is_broken=true";
const ONE_RAISED: &str = "is_dirty=true,is_overweight=false,is_broken=false";

fn only_critical() -> LevelSet {
    LevelSet { info: false, warning: false, critical: true }
}

fn every_level() -> LevelSet {
    LevelSet { info: true, warning: true, critical: true }
}

#[test]
fn default_limit_is_twenty() {
    assert_eq!(DEFAULT_CONDITION_LIMIT, 20);
}

#[test]
fn critical_only_respects_level_order_and_limit() {
    // newest-first: alternate critical and non-critical, 50 of each
    let mut records = Vec::new();
    let mut t = 100_000i64;
    for _ in 0..50 {
        records.push(record(t, ALL_RAISED));
        records.push(record(t - 1, ALL_CLEAR));
        t -= 10;
    }
    let name = String::from("chair");
    let out = query_conditions(&records, &name, 200_000, None, only_critical(), 20)
        .expect("classifiable history");
    assert_eq!(out.len(), 20);
    let mut last = i64::MAX;
    for sm in &out {
        assert_eq!(sm.level, SeverityLevel::Critical);
        assert!(sm.timestamp <= last);
        last = sm.timestamp;
    }
}

#[test]
fn time_range_is_end_exclusive_start_inclusive() {
    let records = vec![
        record(400, ALL_CLEAR),
        record(300, ALL_CLEAR),
        record(200, ALL_CLEAR),
        record(100, ALL_CLEAR),
    ];
    let name = String::from("chair");
    let out = query_conditions(&records, &name, 300, Some(200), every_level(), 20)
        .expect("classifiable history");
    assert_eq!(out.len(), 1);
    assert_eq!(out[0].timestamp, 200);
}

#[test]
fn summaries_carry_the_record_and_the_name() {
    let records = vec![record(500, ONE_RAISED)];
    let name = String::from("nice chair");
    let out = query_conditions(&records, &name, 1000, None, every_level(), 5)
        .expect("classifiable history");
    assert_eq!(out.len(), 1);
    assert_eq!(out[0].device_id, "device-1");
    assert_eq!(out[0].device_name, "nice chair");
    assert_eq!(out[0].timestamp, 500);
    assert!(out[0].is_sitting);
    assert_eq!(out[0].condition, ONE_RAISED);
    assert_eq!(out[0].level, SeverityLevel::Warning);
    assert_eq!(out[0].message, "msg");
}

#[test]
fn filtering_happens_before_truncation() {
    // 5 warning records newer than 3 critical ones; asking for critical
    // with limit 2 must return the two newest critical records, not be
    // starved by the warnings ahead of them.
    let records = vec![
        record(900, ONE_RAISED),
        record(890, ONE_RAISED),
        record(880, ONE_RAISED),
        record(870, ONE_RAISED),
        record(860, ONE_RAISED),
        record(300, ALL_RAISED),
        record(290, ALL_RAISED),
        record(280, ALL_RAISED),
    ];
    let name = String::from("chair");
    let out = query_conditions(&records, &name, 10_000, None, only_critical(), 2)
        .expect("classifiable history");
    assert_eq!(out.len(), 2);
    assert_eq!(out[0].timestamp, 300);
    assert_eq!(out[1].timestamp, 290);
}

#[test]
fn unclassifiable_record_in_range_fails_the_query() {
    let records = vec![record(500, "x=true,x=true,x=true,x=true")];
    let name = String::from("chair");
    assert!(query_conditions(&records, &name, 1000, None, every_level(), 20).is_err());
}

#[test]
fn unclassifiable_record_outside_range_is_ignored() {
    let records = vec![
        record(5000, "x=true,x=true,x=true,x=true"),
        record(500, ALL_CLEAR),
    ];
    let name = String::from("chair");
    let out = query_conditions(&records, &name, 1000, None, every_level(), 20)
        .expect("the bad record is outside the range");
    assert_eq!(out.len(), 1);
    assert_eq!(out[0].timestamp, 500);
}

#[test]
fn summarize_condition_classifies_and_joins() {
    let rec = record(42, ALL_RAISED);
    let name = String::from("sofa");
    let sm = summarize_condition(&rec, &name).expect("classifiable");
    assert_eq!(sm.level, SeverityLevel::Critical);
    assert_eq!(sm.device_name, "sofa");
    assert_eq!(sm.timestamp, 42);

    let bad = record(43, "=true=true=true=true");
    assert!(summarize_condition(&bad, &name).is_err());
}
