//! Condition records: the read-only inputs of the aggregation core.
//!
//! A record is one report of one device, produced by ingestion and
//! immutable afterwards.  Its raw flag string is expected to satisfy the
//! canonical grammar -- ingestion rejects everything else -- so the
//! aggregators treat an ill-formed stored string as an internal
//! invariant violation.

use vstd::prelude::*;

use crate::codec::spec_parse;
use crate::codec::ConditionFlags;
use crate::level::spec_classify;
use crate::level::SeverityLevel;

verus! {

/// One condition report of one device, with second-precision timestamp
/// in epoch seconds.
pub struct ConditionRecord {
    pub device_id: String,
    pub timestamp: i64,
    pub is_sitting: bool,
    pub condition: String,
    pub message: String,
}

/// The record's raw flag string is in the canonical grammar.
pub open spec fn rec_valid(r: ConditionRecord) -> bool {
    spec_parse(r.condition@) is Some
}

/// Every record of the sequence carries a well-formed flag string.
pub open spec fn all_valid(s: Seq<ConditionRecord>) -> bool {
    forall|i: int| 0 <= i < s.len() ==> rec_valid(#[trigger] s[i])
}

/// The flag triple a record's raw string encodes; the all-clear triple
/// where it encodes none, a case the aggregators rule out first.
pub open spec fn rec_flags(r: ConditionRecord) -> ConditionFlags {
    match spec_parse(r.condition@) {
        Some(f) => f,
        None => ConditionFlags { is_dirty: false, is_overweight: false, is_broken: false },
    }
}

/// The severity level of a record's flag triple.
pub open spec fn rec_level(r: ConditionRecord) -> SeverityLevel {
    spec_classify(rec_flags(r))
}

/// Timestamps never decrease along the sequence: the order in which a
/// device's history is streamed to the bucketer.
pub open spec fn sorted_ascending(s: Seq<ConditionRecord>) -> bool {
    forall|i: int, j: int|
        0 <= i <= j < s.len() ==> #[trigger] s[i].timestamp <= #[trigger] s[j].timestamp
}

/// Timestamps never increase along the sequence: the order in which a
/// device's history is scanned by the filter.
pub open spec fn sorted_descending(s: Seq<ConditionRecord>) -> bool {
    forall|i: int, j: int|
        0 <= i <= j < s.len() ==> #[trigger] s[i].timestamp >= #[trigger] s[j].timestamp
}

} // verus!
