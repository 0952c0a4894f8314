//! Severity classification of condition reports.
//!
//! A report's severity level is a total function of how many of its
//! three condition flags are raised: none is `Info`, one or two are
//! `Warning`, all three are `Critical`.  `classify` works on a parsed
//! flag triple and is total.  `calculate_condition_level` instead counts
//! `=true` occurrences leniently over the raw text, as stored history is
//! classified without reparsing; a count above three can then arise only
//! from a corrupted store and is surfaced as an invariant violation.

use vstd::prelude::*;

use crate::codec::lit_at;
use crate::codec::match_lit_at;
use crate::codec::ConditionFlags;

verus! {

/// Discrete severity of one condition report.
#[derive(Clone, Copy, Debug, PartialEq, Eq, Structural)]
pub enum SeverityLevel {
    Info,
    Warning,
    Critical,
}

/// Classification applied to already-stored data found to be out of
/// range: an internal invariant violation, fatal for the request that
/// met it, never silently defaulted.
#[derive(Clone, Copy, Debug, PartialEq, Eq, Structural)]
pub struct ClassificationError;

/// How many of the three flags are raised.
pub open spec fn flag_count(f: ConditionFlags) -> int {
    (if f.is_dirty {
        1int
    } else {
        0
    }) + (if f.is_overweight {
        1int
    } else {
        0
    }) + (if f.is_broken {
        1int
    } else {
        0
    })
}

/// The severity level of a flag triple.
pub open spec fn spec_classify(f: ConditionFlags) -> SeverityLevel {
    if flag_count(f) == 0 {
        SeverityLevel::Info
    } else if flag_count(f) <= 2 {
        SeverityLevel::Warning
    } else {
        SeverityLevel::Critical
    }
}

/// Classifies a parsed flag triple; total over all eight combinations.
pub fn classify(f: &ConditionFlags) -> (r: SeverityLevel)
    ensures
        r == spec_classify(*f),
{
    let mut raised: u8 = 0;
    if f.is_dirty {
        raised += 1;
    }
    if f.is_overweight {
        raised += 1;
    }
    if f.is_broken {
        raised += 1;
    }
    if raised == 0 {
        SeverityLevel::Info
    } else if raised <= 2 {
        SeverityLevel::Warning
    } else {
        SeverityLevel::Critical
    }
}

/// Exactly one flag combination is `Info` (none raised), exactly one is
/// `Critical` (all raised), and the remaining six -- one or two raised
/// -- are `Warning`.
pub proof fn lemma_classify_characterization(f: ConditionFlags)
    ensures
        spec_classify(f) == SeverityLevel::Info <==> (!f.is_dirty && !f.is_overweight
            && !f.is_broken),
        spec_classify(f) == SeverityLevel::Critical <==> (f.is_dirty && f.is_overweight
            && f.is_broken),
        spec_classify(f) == SeverityLevel::Warning <==> (1 <= flag_count(f) <= 2),
{
}

/// The lenient occurrence count of `=true` in a raw condition string:
/// the number of positions where that text appears.
pub open spec fn count_eq_true_upto(s: Seq<char>, i: int) -> int
    decreases i,
{
    if i <= 0 {
        0
    } else {
        count_eq_true_upto(s, i - 1) + if lit_at(s, i - 1, "=true"@) {
            1int
        } else {
            0
        }
    }
}

/// How many times `=true` occurs in `s`.
pub open spec fn count_eq_true(s: Seq<char>) -> int {
    count_eq_true_upto(s, s.len() as int)
}

/// The severity level that a lenient raised-flag count denotes, if it
/// is in range.
pub open spec fn spec_level_of_count(n: int) -> Option<SeverityLevel> {
    if n == 0 {
        Some(SeverityLevel::Info)
    } else if n <= 2 {
        Some(SeverityLevel::Warning)
    } else if n == 3 {
        Some(SeverityLevel::Critical)
    } else {
        None
    }
}

/// The severity level of a raw condition string under lenient counting.
pub open spec fn spec_condition_level(s: Seq<char>) -> Option<SeverityLevel> {
    spec_level_of_count(count_eq_true(s))
}

/// Counts are monotone in the scanned prefix.
proof fn lemma_count_upto_bounds(s: Seq<char>, i: int)
    requires
        0 <= i,
    ensures
        0 <= count_eq_true_upto(s, i) <= i,
    decreases i,
{
    if i > 0 {
        lemma_count_upto_bounds(s, i - 1);
    }
}

/// Derives the severity level of a raw condition string by counting
/// `=true` occurrences; `None` when the count exceeds the three flags a
/// well-formed report can raise.
pub fn calculate_condition_level(condition: &str) -> (r: Option<SeverityLevel>)
    ensures
        r == spec_condition_level(condition@),
{
    let n = condition.unicode_len();
    let mut count: usize = 0;
    let mut i: usize = 0;
    while i < n
        invariant
            n == condition@.len(),
            0 <= i <= n,
            count == count_eq_true_upto(condition@, i as int),
            0 <= count <= i,
        decreases n - i,
    {
        if match_lit_at(condition, i, "=true") {
            count += 1;
        }
        proof {
            reveal_strlit("=true");
        }
        i += 1;
    }
    proof {
        lemma_count_upto_bounds(condition@, n as int);
    }
    if count == 0 {
        Some(SeverityLevel::Info)
    } else if count <= 2 {
        Some(SeverityLevel::Warning)
    } else if count == 3 {
        Some(SeverityLevel::Critical)
    } else {
        None
    }
}

/// Positions where `=true` does not occur leave the count unchanged.
proof fn lemma_count_skip(s: Seq<char>, j: int, i: int)
    requires
        0 <= j <= i,
        forall|k: int| j <= k < i ==> !(#[trigger] lit_at(s, k, "=true"@)),
    ensures
        count_eq_true_upto(s, i) == count_eq_true_upto(s, j),
    decreases i - j,
{
    if i > j {
        lemma_count_skip(s, j, i - 1);
    }
}

/// When `=true` can occur at three positions only, the count is the
/// number of those positions where it does.
proof fn lemma_count_only_three(s: Seq<char>, p1: int, p2: int, p3: int)
    requires
        0 <= p1 < p2 < p3 < s.len(),
        forall|k: int|
            0 <= k && k != p1 && k != p2 && k != p3 ==> !(#[trigger] lit_at(s, k, "=true"@)),
    ensures
        count_eq_true(s) == (if lit_at(s, p1, "=true"@) {
            1int
        } else {
            0
        }) + (if lit_at(s, p2, "=true"@) {
            1int
        } else {
            0
        }) + (if lit_at(s, p3, "=true"@) {
            1int
        } else {
            0
        }),
{
    lemma_count_skip(s, 0, p1);
    assert(count_eq_true_upto(s, p1 + 1) == count_eq_true_upto(s, p1) + if lit_at(
        s,
        p1,
        "=true"@,
    ) {
        1int
    } else {
        0
    });
    lemma_count_skip(s, p1 + 1, p2);
    assert(count_eq_true_upto(s, p2 + 1) == count_eq_true_upto(s, p2) + if lit_at(
        s,
        p2,
        "=true"@,
    ) {
        1int
    } else {
        0
    });
    lemma_count_skip(s, p2 + 1, p3);
    assert(count_eq_true_upto(s, p3 + 1) == count_eq_true_upto(s, p3) + if lit_at(
        s,
        p3,
        "=true"@,
    ) {
        1int
    } else {
        0
    });
    lemma_count_skip(s, p3 + 1, s.len() as int);
}

/// The characters `=true` stand at position `k`.
proof fn lemma_match_eq_true(s: Seq<char>, k: int)
    requires
        0 <= k,
        k + 5 <= s.len(),
        s[k] == '=',
        s[k + 1] == 't',
        s[k + 2] == 'r',
        s[k + 3] == 'u',
        s[k + 4] == 'e',
    ensures
        lit_at(s, k, "=true"@),
{
    reveal_strlit("=true");
    assert(s.subrange(k, k + 5) =~= "=true"@);
}

/// A position whose first two characters are not `=t` cannot start an
/// occurrence of `=true`.
proof fn lemma_no_match_eq_true(s: Seq<char>, k: int)
    requires
        0 <= k,
        k + 5 <= s.len() ==> (s[k] != '=' || s[k + 1] != 't'),
    ensures
        !lit_at(s, k, "=true"@),
{
    reveal_strlit("=true");
    if k + 5 <= s.len() && lit_at(s, k, "=true"@) {
        assert(s.subrange(k, k + 5)[0] == s[k]);
        assert(s.subrange(k, k + 5)[1] == s[k + 1]);
    }
}

/// Lenient text counting agrees with structural classification on
/// every canonical flag string: counting `=true` occurrences over the
/// wire format yields exactly the number of raised flags, so both
/// classifiers name the same level for well-formed stored data.
pub proof fn lemma_lenient_agrees(f: ConditionFlags)
    ensures
        count_eq_true(crate::codec::spec_format(f)) == flag_count(f),
        spec_condition_level(crate::codec::spec_format(f)) == Some(spec_classify(f)),
{
    reveal_strlit("is_dirty=");
    reveal_strlit(",is_overweight=");
    reveal_strlit(",is_broken=");
    reveal_strlit("true");
    reveal_strlit("false");
    let s = crate::codec::spec_format(f);
    let xl: int = crate::codec::spec_bool_text(f.is_dirty).len() as int;
    let yl: int = crate::codec::spec_bool_text(f.is_overweight).len() as int;
    let zl: int = crate::codec::spec_bool_text(f.is_broken).len() as int;
    let p1: int = 8;
    let p2: int = 23 + xl;
    let p3: int = 34 + xl + yl;
    assert(s.len() == 35 + xl + yl + zl);
    if f.is_dirty {
        lemma_match_eq_true(s, p1);
    } else {
        lemma_no_match_eq_true(s, p1);
    }
    if f.is_overweight {
        lemma_match_eq_true(s, p2);
    } else {
        lemma_no_match_eq_true(s, p2);
    }
    if f.is_broken {
        lemma_match_eq_true(s, p3);
    } else {
        lemma_no_match_eq_true(s, p3);
    }
    assert forall|k: int|
        0 <= k && k != p1 && k != p2 && k != p3 implies !(#[trigger] lit_at(
        s,
        k,
        "=true"@,
    )) by {
        lemma_no_match_eq_true(s, k);
    }
    lemma_count_only_three(s, p1, p2, p3);
}

/// The lower-case display label of a severity level.
pub open spec fn spec_label(l: SeverityLevel) -> Seq<char> {
    match l {
        SeverityLevel::Info => "info"@,
        SeverityLevel::Warning => "warning"@,
        SeverityLevel::Critical => "critical"@,
    }
}

impl SeverityLevel {
    /// The level's display label, as collaborators serialize it.
    pub fn label(&self) -> (r: &'static str)
        ensures
            r@ == spec_label(*self),
    {
        match self {
            SeverityLevel::Info => "info",
            SeverityLevel::Warning => "warning",
            SeverityLevel::Critical => "critical",
        }
    }
}

} // verus!
