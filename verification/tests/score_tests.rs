use isucondition::record::ConditionRecord;
use isucondition::score::calculate_graph_data_point;

fn record(timestamp: i64, is_sitting: bool, condition: &str) -> ConditionRecord {
    ConditionRecord {
        device_id: String::from("device-1"),
        timestamp,
        is_sitting,
        condition: String::from(condition),
        message: String::from("hello"),
    }
}

const ALL_CLEAR: &str = "is_dirty=false,is_overweight=false,is_broken=false";
const ALL_RAISED: &str = "is_dirty=true,is_overweight=true,is_broken=true";

#[test]
fn single_clear_sitting_record_scores_one_hundred() {
    let records = vec![record(0, true, ALL_CLEAR)];
    let p = calculate_graph_data_point(&records).expect("valid group");
    assert_eq!(p.score, 100);
    assert_eq!(p.percentage.sitting, 100);
    assert_eq!(p.percentage.is_broken, 0);
    assert_eq!(p.percentage.is_dirty, 0);
    assert_eq!(p.percentage.is_overweight, 0);
}

#[test]
fn info_and_critical_pair_scores_sixty_six() {
    let records = vec![record(0, false, ALL_CLEAR), record(10, false, ALL_RAISED)];
    let p = calculate_graph_data_point(&records).expect("valid group");
    // weights 3 + 1 = 4, so 4 * 100 / 3 / 2 = 66
    assert_eq!(p.score, 66);
    assert_eq!(p.percentage.sitting, 0);
    assert_eq!(p.percentage.is_broken, 50);
    assert_eq!(p.percentage.is_dirty, 50);
    assert_eq!(p.percentage.is_overweight, 50);
}

#[test]
fn percentages_truncate_toward_zero() {
    let records = vec![
        record(0, true, ALL_CLEAR),
        record(1, false, ALL_CLEAR),
        record(2, false, "is_dirty=true,is_overweight=false,is_broken=false"),
    ];
    let p = calculate_graph_data_point(&records).expect("valid group");
    // weights 3 + 3 + 2 = 8, so 8 * 100 / 3 = 266, 266 / 3 = 88
    assert_eq!(p.score, 88);
    assert_eq!(p.percentage.sitting, 33);
    assert_eq!(p.percentage.is_dirty, 33);
    assert_eq!(p.percentage.is_overweight, 0);
    assert_eq!(p.percentage.is_broken, 0);
}

#[test]
fn ill_formed_stored_string_fails_the_group() {
    let records = vec![record(0, true, ALL_CLEAR), record(5, false, "broken data")];
    assert!(calculate_graph_data_point(&records).is_err());
}
