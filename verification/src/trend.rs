//! Trend ranking: devices by category, by their latest severity.
//!
//! For each category, each device contributes at most one entry: the
//! classification of its single most recent record.  A device with no
//! history contributes nothing.  The entries are split into one list
//! per severity level, each list ordered by timestamp descending; ties
//! carry no guaranteed order beyond being present.

use vstd::prelude::*;
use vstd::seq_lib::lemma_multiset_commutative;

use crate::level::calculate_condition_level;
use crate::level::spec_condition_level;
use crate::level::ClassificationError;
use crate::level::SeverityLevel;
use crate::record::ConditionRecord;

verus! {

/// One device's contribution to a trend list: its identity and the
/// instant of its most recent report.
#[derive(Clone, Copy, Debug, PartialEq, Eq, Structural)]
pub struct TrendEntry {
    pub device_id: i64,
    pub timestamp: i64,
}

/// A device together with its most recent condition record, if it has
/// reported at all.
pub struct DeviceLatest {
    pub device_id: i64,
    pub latest: Option<ConditionRecord>,
}

/// One category with the devices belonging to it.
pub struct CategoryDevices {
    pub category: String,
    pub devices: Vec<DeviceLatest>,
}

/// The ranked trend of one category: its entries split by severity
/// level, each list newest-first.
pub struct TrendGroup {
    pub category: String,
    pub info: Vec<TrendEntry>,
    pub warning: Vec<TrendEntry>,
    pub critical: Vec<TrendEntry>,
}

/// The device's latest record, if any, classifies to some level.
pub open spec fn device_classifiable(d: DeviceLatest) -> bool {
    match d.latest {
        Some(r) => spec_condition_level(r.condition@) is Some,
        None => true,
    }
}

/// Every device of the sequence is classifiable.
pub open spec fn all_devices_classifiable(ds: Seq<DeviceLatest>) -> bool {
    forall|i: int| 0 <= i < ds.len() ==> device_classifiable(#[trigger] ds[i])
}

/// Every device of every category is classifiable.
pub open spec fn categories_classifiable(cs: Seq<CategoryDevices>) -> bool {
    forall|i: int| 0 <= i < cs.len() ==> all_devices_classifiable((#[trigger] cs[i]).devices@)
}

/// The entries of the devices whose latest record classifies to level
/// `l`, in device order: one entry per reporting device, none for a
/// device without history.
pub open spec fn entries_for(ds: Seq<DeviceLatest>, l: SeverityLevel) -> Seq<TrendEntry>
    decreases ds.len(),
{
    if ds.len() == 0 {
        Seq::empty()
    } else {
        entries_for(ds.drop_last(), l) + match ds.last().latest {
            Some(r) => {
                if spec_condition_level(r.condition@) == Some(l) {
                    seq![TrendEntry { device_id: ds.last().device_id, timestamp: r.timestamp }]
                } else {
                    Seq::empty()
                }
            },
            None => Seq::empty(),
        }
    }
}

/// Entry timestamps never increase along the list.
pub open spec fn entries_descending(s: Seq<TrendEntry>) -> bool {
    forall|i: int, j: int|
        0 <= i <= j < s.len() ==> #[trigger] s[i].timestamp >= #[trigger] s[j].timestamp
}

/// The group ranks the category correctly: per level, its list holds
/// exactly the entries of that level, newest-first.
pub open spec fn trend_group_ok(g: TrendGroup, c: CategoryDevices) -> bool {
    &&& g.category == c.category
    &&& entries_descending(g.info@)
    &&& g.info@.to_multiset() == entries_for(c.devices@, SeverityLevel::Info).to_multiset()
    &&& entries_descending(g.warning@)
    &&& g.warning@.to_multiset() == entries_for(c.devices@, SeverityLevel::Warning).to_multiset()
    &&& entries_descending(g.critical@)
    &&& g.critical@.to_multiset() == entries_for(c.devices@, SeverityLevel::Critical).to_multiset()
}

/// A device with no history contributes to no level's entries: the
/// trend never invents an entry without a record behind it.
pub proof fn lemma_trend_excludes_historyless(ds: Seq<DeviceLatest>, l: SeverityLevel, id: i64)
    requires
        forall|i: int|
            0 <= i < ds.len() ==> ((#[trigger] ds[i]).device_id == id ==> ds[i].latest is None),
    ensures
        forall|j: int|
            0 <= j < entries_for(ds, l).len() ==> (#[trigger] entries_for(ds, l)[j]).device_id
                != id,
    decreases ds.len(),
{
    if ds.len() > 0 {
        lemma_trend_excludes_historyless(ds.drop_last(), l, id);
        let prefix = entries_for(ds.drop_last(), l);
        let whole = entries_for(ds, l);
        assert forall|j: int| 0 <= j < whole.len() implies (#[trigger] whole[j]).device_id
            != id by {
            if j < prefix.len() {
                assert(whole[j] == prefix[j]);
            } else {
                assert(whole[j].device_id == ds.last().device_id);
            }
        }
    }
}

/// Inserting at `i` adds one occurrence to the sequence's multiset.
proof fn lemma_insert_to_multiset(s: Seq<TrendEntry>, i: int, x: TrendEntry)
    requires
        0 <= i <= s.len(),
    ensures
        s.insert(i, x).to_multiset() == s.to_multiset().insert(x),
{
    broadcast use vstd::multiset::group_multiset_axioms;

    let a = s.subrange(0, i);
    let b = s.subrange(i, s.len() as int);
    lemma_multiset_commutative(a.push(x), b);
    a.to_multiset_ensures();
    assert(s =~= a + b);
    lemma_multiset_commutative(a, b);
    assert(s.insert(i, x).to_multiset() =~= s.to_multiset().insert(x));
}

/// Inserts an entry into a newest-first list, keeping it newest-first;
/// an entry ties with equal timestamps by going after them.
#[verifier::loop_isolation(false)]
fn insert_entry_desc(v: &mut Vec<TrendEntry>, e: TrendEntry)
    requires
        entries_descending(old(v)@),
    ensures
        entries_descending(final(v)@),
        final(v)@.to_multiset() == old(v)@.to_multiset().insert(e),
        final(v)@.len() == old(v)@.len() + 1,
{
    let mut idx: usize = 0;
    while idx < v.len() && v[idx].timestamp >= e.timestamp
        invariant
            idx <= v@.len(),
            forall|k: int| 0 <= k < idx ==> (#[trigger] v@[k]).timestamp >= e.timestamp,
        decreases v@.len() - idx,
    {
        idx += 1;
    }
    let ghost s0 = v@;
    v.insert(idx, e);
    proof {
        s0.insert_ensures(idx as int, e);
        lemma_insert_to_multiset(s0, idx as int, e);
        assert forall|i: int, j: int| 0 <= i <= j < v@.len() implies #[trigger] v@[i].timestamp
            >= #[trigger] v@[j].timestamp by {
            if j < idx {
            } else if i > idx {
                assert(v@[i] == s0[i - 1] && v@[j] == s0[j - 1]);
            } else if i < idx && j == idx {
                assert(v@[i] == s0[i]);
            } else if i == idx && j > idx {
                assert(v@[j] == s0[j - 1]);
                assert(s0[j - 1].timestamp <= s0[idx as int].timestamp);
            } else if i < idx && j > idx {
                assert(v@[i] == s0[i] && v@[j] == s0[j - 1]);
                assert(s0[j - 1].timestamp <= s0[idx as int].timestamp);
            }
        }
    }
}

/// Ranks each category's devices into per-level trend lists from each
/// device's most recent record; devices without history are skipped.
/// A stored record that fails classification is an invariant violation
/// and fails the whole request.
#[verifier::loop_isolation(false)]
pub fn rank_trend(categories: &Vec<CategoryDevices>) -> (r: Result<
    Vec<TrendGroup>,
    ClassificationError,
>)
    ensures
        r is Err <==> !categories_classifiable(categories@),
        r matches Ok(v) ==> v@.len() == categories@.len() && forall|i: int|
            0 <= i < v@.len() ==> trend_group_ok(#[trigger] v@[i], categories@[i]),
{
    let ghost cs = categories@;
    let mut out: Vec<TrendGroup> = Vec::new();
    let mut ci: usize = 0;
    while ci < categories.len()
        invariant
            0 <= ci <= cs.len(),
            out@.len() == ci,
            forall|m: int| 0 <= m < ci ==> trend_group_ok(#[trigger] out@[m], cs[m]),
            forall|m: int| 0 <= m < ci ==> all_devices_classifiable((#[trigger] cs[m]).devices@),
        decreases cs.len() - ci,
    {
        let cat = &categories[ci];
        let ghost ds = cat.devices@;
        let mut info: Vec<TrendEntry> = Vec::new();
        let mut warning: Vec<TrendEntry> = Vec::new();
        let mut critical: Vec<TrendEntry> = Vec::new();
        let mut di: usize = 0;
        while di < cat.devices.len()
            invariant
                0 <= di <= ds.len(),
                all_devices_classifiable(ds.take(di as int)),
                entries_descending(info@),
                info@.to_multiset() == entries_for(
                    ds.take(di as int),
                    SeverityLevel::Info,
                ).to_multiset(),
                entries_descending(warning@),
                warning@.to_multiset() == entries_for(
                    ds.take(di as int),
                    SeverityLevel::Warning,
                ).to_multiset(),
                entries_descending(critical@),
                critical@.to_multiset() == entries_for(
                    ds.take(di as int),
                    SeverityLevel::Critical,
                ).to_multiset(),
            decreases ds.len() - di,
        {
            let d = &cat.devices[di];
            proof {
                assert(ds.take(di as int + 1).drop_last() =~= ds.take(di as int));
                assert(ds.take(di as int + 1).last() == ds[di as int]);
            }
            match &d.latest {
                Some(rec) => {
                    match calculate_condition_level(rec.condition.as_str()) {
                        Some(l) => {
                            let e = TrendEntry { device_id: d.device_id, timestamp: rec.timestamp };
                            proof {
                                let ghost lv = l;
                                assert forall|w: SeverityLevel| w != lv implies entries_for(
                                    ds.take(di as int + 1),
                                    w,
                                ) == entries_for(ds.take(di as int), w) by {
                                    assert(entries_for(ds.take(di as int + 1), w) =~= entries_for(
                                        ds.take(di as int),
                                        w,
                                    ));
                                }
                                assert(entries_for(ds.take(di as int + 1), lv) =~= entries_for(
                                    ds.take(di as int),
                                    lv,
                                ).push(e));
                                entries_for(ds.take(di as int), lv).to_multiset_ensures();
                            }
                            match l {
                                SeverityLevel::Info => insert_entry_desc(&mut info, e),
                                SeverityLevel::Warning => insert_entry_desc(&mut warning, e),
                                SeverityLevel::Critical => insert_entry_desc(&mut critical, e),
                            }
                        },
                        None => {
                            proof {
                                assert(!device_classifiable(cs[ci as int].devices@[di as int]));
                            }
                            return Err(ClassificationError);
                        },
                    }
                },
                None => {
                    proof {
                        assert forall|w: SeverityLevel| entries_for(ds.take(di as int + 1), w)
                            == entries_for(ds.take(di as int), w) by {
                            assert(entries_for(ds.take(di as int + 1), w) =~= entries_for(
                                ds.take(di as int),
                                w,
                            ));
                        }
                    }
                },
            }
            di += 1;
        }
        proof {
            assert(ds.take(ds.len() as int) =~= ds);
        }
        out.push(TrendGroup { category: cat.category.clone(), info, warning, critical });
        ci += 1;
    }
    Ok(out)
}

} // verus!
