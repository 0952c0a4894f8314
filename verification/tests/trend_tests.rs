use isucondition::record::ConditionRecord;
use isucondition::trend::{rank_trend, CategoryDevices, DeviceLatest};

fn latest(timestamp: i64, condition: &str) -> Option<ConditionRecord> {
    Some(ConditionRecord {
        device_id: String::from("uuid"),
        timestamp,
        is_sitting: false,
        condition: String::from(condition),
        message: String::from(""),
    })
}

const ALL_CLEAR: &str = "is_dirty=false,is_overweight=false,is_broken=false";
const ALL_RAISED: &str = "is_dirty=true,is_overweight=true,is_broken=true";
const ONE_RAISED: &str = "is_dirty=false,is_overweight=true,is_broken=false";

#[test]
fn devices_without_history_are_excluded() {
    let categories = vec![CategoryDevices {
        category: String::from("plain"),
        devices: vec![
            DeviceLatest { device_id: 1, latest: None },
            DeviceLatest { device_id: 2, latest: latest(100, ALL_CLEAR) },
            DeviceLatest { device_id: 3, latest: None },
        ],
    }];
    let groups = rank_trend(&categories).expect("classifiable");
    assert_eq!(groups.len(), 1);
    let g = &groups[0];
    assert_eq!(g.info.len(), 1);
    assert_eq!(g.info[0].device_id, 2);
    assert!(g.warning.is_empty());
    assert!(g.critical.is_empty());
    for e in g.info.iter().chain(g.warning.iter()).chain(g.critical.iter()) {
        assert_ne!(e.device_id, 1);
        assert_ne!(e.device_id, 3);
    }
}

#[test]
fn entries_split_by_level_and_sorted_descending() {
    let categories = vec![CategoryDevices {
        category: String::from("fancy"),
        devices: vec![
            DeviceLatest { device_id: 1, latest: latest(100, ALL_CLEAR) },
            DeviceLatest { device_id: 2, latest: latest(300, ALL_CLEAR) },
            DeviceLatest { device_id: 3, latest: latest(200, ALL_CLEAR) },
            DeviceLatest { device_id: 4, latest: latest(250, ONE_RAISED) },
            DeviceLatest { device_id: 5, latest: latest(50, ALL_RAISED) },
            DeviceLatest { device_id: 6, latest: latest(60, ALL_RAISED) },
        ],
    }];
    let groups = rank_trend(&categories).expect("classifiable");
    let g = &groups[0];
    assert_eq!(g.category, "fancy");
    let info_ts: Vec<i64> = g.info.iter().map(|e| e.timestamp).collect();
    assert_eq!(info_ts, vec![300, 200, 100]);
    let info_ids: Vec<i64> = g.info.iter().map(|e| e.device_id).collect();
    assert_eq!(info_ids, vec![2, 3, 1]);
    assert_eq!(g.warning.len(), 1);
    assert_eq!(g.warning[0].device_id, 4);
    let critical_ts: Vec<i64> = g.critical.iter().map(|e| e.timestamp).collect();
    assert_eq!(critical_ts, vec![60, 50]);
}

#[test]
fn every_category_appears_even_when_empty() {
    let categories = vec![
        CategoryDevices { category: String::from("a"), devices: Vec::new() },
        CategoryDevices {
            category: String::from("b"),
            devices: vec![DeviceLatest { device_id: 9, latest: latest(5, ALL_CLEAR) }],
        },
    ];
    let groups = rank_trend(&categories).expect("classifiable");
    assert_eq!(groups.len(), 2);
    assert_eq!(groups[0].category, "a");
    assert!(groups[0].info.is_empty());
    assert!(groups[0].warning.is_empty());
    assert!(groups[0].critical.is_empty());
    assert_eq!(groups[1].category, "b");
    assert_eq!(groups[1].info.len(), 1);
}

#[test]
fn unclassifiable_latest_record_fails_the_request() {
    let categories = vec![CategoryDevices {
        category: String::from("plain"),
        devices: vec![DeviceLatest {
            device_id: 1,
            latest: latest(10, "a=true,b=true,c=true,d=true"),
        }],
    }];
    assert!(rank_trend(&categories).is_err());
}
