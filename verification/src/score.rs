//! Score aggregation: one graph data point from one hour of reports.
//!
//! A non-empty group of same-hour records is reduced to a comfort score
//! and a percentage breakdown.  Each record weighs 3 when its level is
//! `Info`, 2 when `Warning`, 1 when `Critical`; the score is the weight
//! sum scaled to 0..100 by `raw * 100 / 3 / n` with truncating integer
//! division at each step.  Each percentage is `count * 100 / n`,
//! likewise truncated.

use vstd::prelude::*;

use crate::codec::parse_condition;
use crate::level::classify;
use crate::level::ClassificationError;
use crate::level::SeverityLevel;
use crate::record::all_valid;
use crate::record::rec_flags;
use crate::record::rec_level;
use crate::record::rec_valid;
use crate::record::ConditionRecord;

verus! {

/// Largest group size the aggregator accepts; keeps every intermediate
/// product comfortably inside 64 bits.
pub const MAX_SCORE_GROUP: usize = 0x4000_0000;

/// Percentage breakdown of a group of records: how many of them, per
/// hundred, sat on the device or raised each flag.
#[derive(Clone, Copy, Debug, PartialEq, Eq, Structural)]
pub struct ConditionsPercentage {
    pub sitting: i64,
    pub is_broken: i64,
    pub is_dirty: i64,
    pub is_overweight: i64,
}

/// One aggregated graph data point: the comfort score of an hour of
/// reports with its percentage breakdown.
#[derive(Clone, Copy, Debug, PartialEq, Eq, Structural)]
pub struct GraphDataPoint {
    pub score: i64,
    pub percentage: ConditionsPercentage,
}

/// The per-record weight of a severity level.
pub open spec fn spec_weight(l: SeverityLevel) -> int {
    match l {
        SeverityLevel::Info => 3,
        SeverityLevel::Warning => 2,
        SeverityLevel::Critical => 1,
    }
}

/// Sum of the per-record weights of a group.
pub open spec fn raw_score(s: Seq<ConditionRecord>) -> int
    decreases s.len(),
{
    if s.len() == 0 {
        0
    } else {
        raw_score(s.drop_last()) + spec_weight(rec_level(s.last()))
    }
}

/// How many records of the group report a sitting device.
pub open spec fn count_sitting(s: Seq<ConditionRecord>) -> int
    decreases s.len(),
{
    if s.len() == 0 {
        0
    } else {
        count_sitting(s.drop_last()) + if s.last().is_sitting {
            1int
        } else {
            0
        }
    }
}

/// How many records of the group raise `is_dirty`.
pub open spec fn count_dirty(s: Seq<ConditionRecord>) -> int
    decreases s.len(),
{
    if s.len() == 0 {
        0
    } else {
        count_dirty(s.drop_last()) + if rec_flags(s.last()).is_dirty {
            1int
        } else {
            0
        }
    }
}

/// How many records of the group raise `is_overweight`.
pub open spec fn count_overweight(s: Seq<ConditionRecord>) -> int
    decreases s.len(),
{
    if s.len() == 0 {
        0
    } else {
        count_overweight(s.drop_last()) + if rec_flags(s.last()).is_overweight {
            1int
        } else {
            0
        }
    }
}

/// How many records of the group raise `is_broken`.
pub open spec fn count_broken(s: Seq<ConditionRecord>) -> int
    decreases s.len(),
{
    if s.len() == 0 {
        0
    } else {
        count_broken(s.drop_last()) + if rec_flags(s.last()).is_broken {
            1int
        } else {
            0
        }
    }
}

/// The aggregate of a non-empty group: score and percentage breakdown,
/// each by truncating integer division.
pub open spec fn spec_data_point(s: Seq<ConditionRecord>) -> GraphDataPoint {
    let n = s.len() as int;
    GraphDataPoint {
        score: (raw_score(s) * 100 / 3 / n) as i64,
        percentage: ConditionsPercentage {
            sitting: (count_sitting(s) * 100 / n) as i64,
            is_broken: (count_broken(s) * 100 / n) as i64,
            is_dirty: (count_dirty(s) * 100 / n) as i64,
            is_overweight: (count_overweight(s) * 100 / n) as i64,
        },
    }
}

/// Each weight lies in 1..3 and each count in 0..n, so the sums are
/// bracketed by the group size.
pub proof fn lemma_aggregate_bounds(s: Seq<ConditionRecord>)
    ensures
        s.len() <= raw_score(s) <= 3 * s.len(),
        0 <= count_sitting(s) <= s.len(),
        0 <= count_dirty(s) <= s.len(),
        0 <= count_overweight(s) <= s.len(),
        0 <= count_broken(s) <= s.len(),
    decreases s.len(),
{
    if s.len() > 0 {
        lemma_aggregate_bounds(s.drop_last());
    }
}

/// The per-record weight of a severity level.
fn weight(l: SeverityLevel) -> (r: u64)
    ensures
        r == spec_weight(l),
{
    match l {
        SeverityLevel::Info => 3,
        SeverityLevel::Warning => 2,
        SeverityLevel::Critical => 1,
    }
}

/// Aggregates the records `conditions[lo..hi]` into one data point,
/// rejecting the group if any of its raw flag strings is ill-formed.
pub(crate) fn data_point_range(conditions: &Vec<ConditionRecord>, lo: usize, hi: usize) -> (r:
    Result<GraphDataPoint, ClassificationError>)
    requires
        lo < hi <= conditions@.len(),
        hi - lo <= MAX_SCORE_GROUP,
    ensures
        r matches Ok(p) ==> all_valid(conditions@.subrange(lo as int, hi as int)) && p
            == spec_data_point(conditions@.subrange(lo as int, hi as int)),
        r is Err <==> !all_valid(conditions@.subrange(lo as int, hi as int)),
{
    let ghost group = conditions@.subrange(lo as int, hi as int);
    let mut raw: u64 = 0;
    let mut sitting: u64 = 0;
    let mut dirty: u64 = 0;
    let mut overweight: u64 = 0;
    let mut broken: u64 = 0;
    let mut i: usize = lo;
    while i < hi
        invariant
            lo <= i <= hi <= conditions@.len(),
            hi - lo <= MAX_SCORE_GROUP,
            group == conditions@.subrange(lo as int, hi as int),
            all_valid(conditions@.subrange(lo as int, i as int)),
            raw == raw_score(conditions@.subrange(lo as int, i as int)),
            sitting == count_sitting(conditions@.subrange(lo as int, i as int)),
            dirty == count_dirty(conditions@.subrange(lo as int, i as int)),
            overweight == count_overweight(conditions@.subrange(lo as int, i as int)),
            broken == count_broken(conditions@.subrange(lo as int, i as int)),
            raw <= 3 * (i - lo),
            sitting <= i - lo,
            dirty <= i - lo,
            overweight <= i - lo,
            broken <= i - lo,
        decreases hi - i,
    {
        let rec = &conditions[i];
        let flags = match parse_condition(rec.condition.as_str()) {
            Ok(f) => f,
            Err(_) => {
                proof {
                    assert(!rec_valid(group[i - lo]));
                }
                return Err(ClassificationError);
            },
        };
        let level = classify(&flags);
        proof {
            assert(conditions@.subrange(lo as int, i + 1).drop_last() =~= conditions@.subrange(
                lo as int,
                i as int,
            ));
            assert(conditions@.subrange(lo as int, i + 1).last() == conditions@[i as int]);
        }
        raw += weight(level);
        if rec.is_sitting {
            sitting += 1;
        }
        if flags.is_dirty {
            dirty += 1;
        }
        if flags.is_overweight {
            overweight += 1;
        }
        if flags.is_broken {
            broken += 1;
        }
        i += 1;
    }
    let n: u64 = (hi - lo) as u64;
    let score: u64 = raw * 100 / 3 / n;
    proof {
        assert(group =~= conditions@.subrange(lo as int, hi as int));
    }
    Ok(
        GraphDataPoint {
            score: score as i64,
            percentage: ConditionsPercentage {
                sitting: (sitting * 100 / n) as i64,
                is_broken: (broken * 100 / n) as i64,
                is_dirty: (dirty * 100 / n) as i64,
                is_overweight: (overweight * 100 / n) as i64,
            },
        },
    )
}

/// Reduces a non-empty group of same-hour records to one graph data
/// point; an ill-formed stored flag string anywhere in the group is an
/// invariant violation and fails the whole group.
pub fn calculate_graph_data_point(conditions: &Vec<ConditionRecord>) -> (r: Result<
    GraphDataPoint,
    ClassificationError,
>)
    requires
        1 <= conditions@.len() <= MAX_SCORE_GROUP,
    ensures
        r matches Ok(p) ==> all_valid(conditions@) && p == spec_data_point(conditions@),
        r is Err <==> !all_valid(conditions@),
{
    let n = conditions.len();
    let r = data_point_range(conditions, 0, n);
    proof {
        assert(conditions@.subrange(0, n as int) =~= conditions@);
    }
    r
}

} // verus!
