//! Condition history filtering: time range, level set and limit.
//!
//! A device's history arrives newest-first.  A query keeps the records
//! with `timestamp < end_time` (and `timestamp >= start_time` when a
//! start is given), classifies each, keeps those whose level is in the
//! requested set, and only then truncates to the limit -- so truncation
//! never hides a record that the level filter would have dropped
//! anyway.  The scan order is preserved: results stay newest-first.

use vstd::prelude::*;

use crate::level::calculate_condition_level;
use crate::level::spec_condition_level;
use crate::level::ClassificationError;
use crate::level::SeverityLevel;
use crate::record::sorted_descending;
use crate::record::ConditionRecord;

verus! {

/// How many summaries a query returns when the caller does not choose
/// a limit.
pub const DEFAULT_CONDITION_LIMIT: usize = 20;

/// The set of severity levels a query asks for.
#[derive(Clone, Copy, Debug, PartialEq, Eq, Structural)]
pub struct LevelSet {
    pub info: bool,
    pub warning: bool,
    pub critical: bool,
}

impl LevelSet {
    /// Membership of a severity level in the set.
    pub open spec fn spec_contains(self, l: SeverityLevel) -> bool {
        match l {
            SeverityLevel::Info => self.info,
            SeverityLevel::Warning => self.warning,
            SeverityLevel::Critical => self.critical,
        }
    }

    /// Tests whether the set holds the given level.
    pub fn contains(&self, l: SeverityLevel) -> (r: bool)
        ensures
            r == self.spec_contains(l),
    {
        match l {
            SeverityLevel::Info => self.info,
            SeverityLevel::Warning => self.warning,
            SeverityLevel::Critical => self.critical,
        }
    }
}

/// One classified condition report joined with display metadata.
pub struct ConditionSummary {
    pub device_id: String,
    pub device_name: String,
    pub timestamp: i64,
    pub is_sitting: bool,
    pub condition: String,
    pub level: SeverityLevel,
    pub message: String,
}

/// The record lies in the queried time range: strictly before the end,
/// and at or after the start when one is given.
pub open spec fn in_time_range(r: ConditionRecord, end_time: int, start_time: Option<i64>) -> bool {
    &&& r.timestamp < end_time
    &&& match start_time {
        Some(s) => r.timestamp >= s,
        None => true,
    }
}

/// The subsequence of records in the queried time range, in original
/// order.
pub open spec fn time_filtered(
    s: Seq<ConditionRecord>,
    end_time: int,
    start_time: Option<i64>,
) -> Seq<ConditionRecord>
    decreases s.len(),
{
    if s.len() == 0 {
        Seq::empty()
    } else {
        time_filtered(s.drop_last(), end_time, start_time) + if in_time_range(
            s.last(),
            end_time,
            start_time,
        ) {
            seq![s.last()]
        } else {
            Seq::empty()
        }
    }
}

/// Every record of the sequence classifies to some severity level.
pub open spec fn all_classifiable(s: Seq<ConditionRecord>) -> bool {
    forall|i: int|
        0 <= i < s.len() ==> spec_condition_level((#[trigger] s[i]).condition@) is Some
}

/// The summary of one record under the given display name and level.
pub open spec fn spec_summary(
    r: ConditionRecord,
    name: String,
    l: SeverityLevel,
) -> ConditionSummary {
    ConditionSummary {
        device_id: r.device_id,
        device_name: name,
        timestamp: r.timestamp,
        is_sitting: r.is_sitting,
        condition: r.condition,
        level: l,
        message: r.message,
    }
}

/// The summaries of the records whose level lies in the requested set,
/// in original order.
pub open spec fn matched_summaries(
    s: Seq<ConditionRecord>,
    name: String,
    levels: LevelSet,
) -> Seq<ConditionSummary>
    decreases s.len(),
{
    if s.len() == 0 {
        Seq::empty()
    } else {
        matched_summaries(s.drop_last(), name, levels) + match spec_condition_level(
            s.last().condition@,
        ) {
            Some(l) => {
                if levels.spec_contains(l) {
                    seq![spec_summary(s.last(), name, l)]
                } else {
                    Seq::empty()
                }
            },
            None => Seq::empty(),
        }
    }
}

/// Summary timestamps never increase along the sequence.
pub open spec fn summaries_descending(s: Seq<ConditionSummary>) -> bool {
    forall|i: int, j: int|
        0 <= i <= j < s.len() ==> #[trigger] s[i].timestamp >= #[trigger] s[j].timestamp
}

/// A record of the time range appears in the time-filtered
/// subsequence.
proof fn lemma_time_filtered_contains(
    s: Seq<ConditionRecord>,
    end_time: int,
    start_time: Option<i64>,
    idx: int,
)
    requires
        0 <= idx < s.len(),
        in_time_range(s[idx], end_time, start_time),
    ensures
        time_filtered(s, end_time, start_time).contains(s[idx]),
    decreases s.len(),
{
    let tf = time_filtered(s, end_time, start_time);
    if idx == s.len() - 1 {
        assert(tf[tf.len() - 1] == s[idx]);
    } else {
        lemma_time_filtered_contains(s.drop_last(), end_time, start_time, idx);
        let sub = time_filtered(s.drop_last(), end_time, start_time);
        let j = choose|j: int| 0 <= j < sub.len() && sub[j] == s.drop_last()[idx];
        assert(tf[j] == s[idx]);
    }
}

/// Every summary of a matched sequence carries a level of the
/// requested set, and -- for a newest-first history -- the summaries
/// stay newest-first, none older than the history's last record.
proof fn lemma_matched_shape(s: Seq<ConditionRecord>, name: String, levels: LevelSet)
    requires
        sorted_descending(s),
    ensures
        forall|i: int|
            0 <= i < matched_summaries(s, name, levels).len() ==> levels.spec_contains(
                (#[trigger] matched_summaries(s, name, levels)[i]).level,
            ),
        summaries_descending(matched_summaries(s, name, levels)),
        s.len() > 0 ==> forall|i: int|
            0 <= i < matched_summaries(s, name, levels).len() ==> (#[trigger] matched_summaries(
                s,
                name,
                levels,
            )[i]).timestamp >= s.last().timestamp,
    decreases s.len(),
{
    if s.len() > 0 {
        lemma_matched_shape(s.drop_last(), name, levels);
    }
}

/// The time filter preserves a newest-first order, and filtered
/// records are none older than the history's last record.
proof fn lemma_time_filtered_sorted(s: Seq<ConditionRecord>, end_time: int, start_time: Option<i64>)
    requires
        sorted_descending(s),
    ensures
        sorted_descending(time_filtered(s, end_time, start_time)),
        s.len() > 0 ==> forall|i: int|
            0 <= i < time_filtered(s, end_time, start_time).len() ==> (#[trigger] time_filtered(
                s,
                end_time,
                start_time,
            )[i]).timestamp >= s.last().timestamp,
    decreases s.len(),
{
    if s.len() > 0 {
        lemma_time_filtered_sorted(s.drop_last(), end_time, start_time);
    }
}

/// Classifies one record and joins it with its device's display name;
/// a raw flag string whose lenient count is out of range is an
/// invariant violation.
pub fn summarize_condition(record: &ConditionRecord, device_name: &String) -> (r: Result<
    ConditionSummary,
    ClassificationError,
>)
    ensures
        r is Err <==> spec_condition_level(record.condition@) is None,
        r matches Ok(sm) ==> spec_condition_level(record.condition@) == Some(sm.level) && sm
            == spec_summary(*record, *device_name, sm.level),
{
    match calculate_condition_level(record.condition.as_str()) {
        Some(l) => Ok(
            ConditionSummary {
                device_id: record.device_id.clone(),
                device_name: device_name.clone(),
                timestamp: record.timestamp,
                is_sitting: record.is_sitting,
                condition: record.condition.clone(),
                level: l,
                message: record.message.clone(),
            },
        ),
        None => Err(ClassificationError),
    }
}

/// Filters a newest-first history by time range and level set, then
/// truncates to `limit`: at most `limit` summaries come back,
/// newest-first, every one carrying a level of the requested set.  A
/// record of the time range that fails classification is an invariant
/// violation and fails the query.
#[verifier::loop_isolation(false)]
pub fn query_conditions(
    records: &Vec<ConditionRecord>,
    device_name: &String,
    end_time: i64,
    start_time: Option<i64>,
    levels: LevelSet,
    limit: usize,
) -> (r: Result<Vec<ConditionSummary>, ClassificationError>)
    requires
        limit >= 1,
        sorted_descending(records@),
    ensures
        r is Err <==> !all_classifiable(time_filtered(records@, end_time as int, start_time)),
        r matches Ok(v) ==> {
            let m = matched_summaries(
                time_filtered(records@, end_time as int, start_time),
                *device_name,
                levels,
            );
            v@ == if m.len() <= limit {
                m
            } else {
                m.subrange(0, limit as int)
            }
        },
        r matches Ok(v) ==> v@.len() <= limit,
        r matches Ok(v) ==> forall|i: int|
            0 <= i < v@.len() ==> levels.spec_contains((#[trigger] v@[i]).level),
        r matches Ok(v) ==> summaries_descending(v@),
{
    let ghost rs = records@;
    let n = records.len();
    let mut out: Vec<ConditionSummary> = Vec::new();
    let mut i: usize = 0;
    while i < n
        invariant
            0 <= i <= n,
            all_classifiable(time_filtered(rs.take(i as int), end_time as int, start_time)),
            out@ == matched_summaries(
                time_filtered(rs.take(i as int), end_time as int, start_time),
                *device_name,
                levels,
            ),
        decreases n - i,
    {
        let ghost tf_pre = time_filtered(rs.take(i as int), end_time as int, start_time);
        proof {
            assert(rs.take(i as int + 1).drop_last() =~= rs.take(i as int));
            assert(rs.take(i as int + 1).last() == rs[i as int]);
        }
        let rec = &records[i];
        let in_range = rec.timestamp < end_time && match start_time {
            Some(s) => rec.timestamp >= s,
            None => true,
        };
        if in_range {
            proof {
                assert(time_filtered(rs.take(i as int + 1), end_time as int, start_time) =~= tf_pre.push(
                    rs[i as int],
                ));
                assert(tf_pre.push(rs[i as int]).drop_last() =~= tf_pre);
            }
            match summarize_condition(rec, device_name) {
                Ok(sm) => {
                    if levels.contains(sm.level) {
                        out.push(sm);
                    }
                },
                Err(e) => {
                    proof {
                        lemma_time_filtered_contains(rs, end_time as int, start_time, i as int);
                        let tf = time_filtered(rs, end_time as int, start_time);
                        let j = choose|j: int| 0 <= j < tf.len() && tf[j] == rs[i as int];
                        assert(spec_condition_level(tf[j].condition@) is None);
                    }
                    return Err(e);
                },
            }
        }
        i += 1;
    }
    proof {
        assert(rs.take(n as int) =~= rs);
        lemma_time_filtered_sorted(rs, end_time as int, start_time);
        lemma_matched_shape(
            time_filtered(rs, end_time as int, start_time),
            *device_name,
            levels,
        );
    }
    if out.len() > limit {
        out.truncate(limit);
    }
    Ok(out)
}

} // verus!
