//! Hourly bucketing: a device's history as a fixed 24-bucket window.
//!
//! One forward pass groups consecutive records with the same
//! truncated-to-hour timestamp into runs, reduces each run to a graph
//! data point, and finally intersects the candidates with the requested
//! window `[window_start, window_start + 24h)`: exactly 24 one-hour
//! buckets come out, empty where the device reported nothing.
//!
//! All hour truncation is plain epoch-second arithmetic.  The service
//! reports in a fixed whole-hour UTC offset (+09:00 by default), and
//! truncating to the hour in any whole-hour offset coincides with
//! truncating the epoch seconds themselves, so no offset appears here;
//! collaborators convert window boundaries at the edge.

use vstd::arithmetic::div_mod::lemma_div_is_ordered;
use vstd::arithmetic::div_mod::lemma_fundamental_div_mod;
use vstd::prelude::*;

use crate::level::ClassificationError;
use crate::record::all_valid;
use crate::record::rec_valid;
use crate::record::sorted_ascending;
use crate::record::ConditionRecord;
use crate::score::data_point_range;
use crate::score::spec_data_point;
use crate::score::GraphDataPoint;
use crate::score::MAX_SCORE_GROUP;

verus! {

pub const SECONDS_PER_HOUR: i64 = 3600;

pub const WINDOW_HOURS: i64 = 24;

pub const WINDOW_SECONDS: i64 = 86400;

/// One bucket of the 24-hour graph window: the hour `[start_at,
/// end_at)`, its aggregate if the device reported in it, and the raw
/// timestamps of those reports in arrival order.
pub struct GraphResponse {
    pub start_at: i64,
    pub end_at: i64,
    pub data: Option<GraphDataPoint>,
    pub condition_timestamps: Vec<i64>,
}

/// The start of the clock hour containing instant `t` (epoch seconds):
/// `t` rounded down to a multiple of 3600.
pub open spec fn spec_trunc_hour(t: int) -> int {
    t - (t % 3600)
}

/// The hour bucket a record falls in.
pub open spec fn rec_hour(r: ConditionRecord) -> int {
    spec_trunc_hour(r.timestamp as int)
}

/// The subsequence of records whose hour is `h`, in original order.
pub open spec fn group_of(s: Seq<ConditionRecord>, h: int) -> Seq<ConditionRecord>
    decreases s.len(),
{
    if s.len() == 0 {
        Seq::empty()
    } else {
        group_of(s.drop_last(), h) + if rec_hour(s.last()) == h {
            seq![s.last()]
        } else {
            Seq::empty()
        }
    }
}

/// The timestamps of a sequence of records, in order.
pub open spec fn ts_of(s: Seq<ConditionRecord>) -> Seq<i64>
    decreases s.len(),
{
    if s.len() == 0 {
        Seq::empty()
    } else {
        ts_of(s.drop_last()).push(s.last().timestamp)
    }
}

/// Hour truncation is monotone.
proof fn lemma_trunc_monotone(a: int, b: int)
    requires
        a <= b,
    ensures
        spec_trunc_hour(a) <= spec_trunc_hour(b),
{
    lemma_fundamental_div_mod(a, 3600);
    lemma_fundamental_div_mod(b, 3600);
    lemma_div_is_ordered(a, b, 3600);
}

/// Once every record from position `m` on falls outside hour `h`, the
/// group of `h` is already complete in the first `m` records.
proof fn lemma_group_stable(s: Seq<ConditionRecord>, m: int, h: int)
    requires
        0 <= m <= s.len(),
        forall|k: int| m <= k < s.len() ==> rec_hour(#[trigger] s[k]) != h,
    ensures
        group_of(s, h) == group_of(s.take(m), h),
    decreases s.len() - m,
{
    if m == s.len() {
        assert(s.take(m) =~= s);
    } else {
        assert(s.drop_last() =~= s.take(s.len() - 1));
        lemma_group_stable(s.take(s.len() - 1), m, h);
        assert(s.take(s.len() - 1).take(m) =~= s.take(m));
    }
}

/// A completed run of same-hour records, reduced and ready to be
/// matched against the requested window.
struct Candidate {
    start_at: i64,
    data: GraphDataPoint,
    timestamps: Vec<i64>,
}

/// The candidate correctly summarizes its hour's group of the history.
spec fn cand_ok(rs: Seq<ConditionRecord>, c: Candidate) -> bool {
    let g = group_of(rs, c.start_at as int);
    &&& g.len() > 0
    &&& all_valid(g)
    &&& c.data == spec_data_point(g)
    &&& c.timestamps@ == ts_of(g)
}

/// Candidate hours are strictly increasing.
spec fn cands_sorted(cs: Seq<Candidate>) -> bool {
    forall|i: int, j: int|
        0 <= i < j < cs.len() ==> #[trigger] cs[i].start_at < #[trigger] cs[j].start_at
}

/// Every hour in which the history has records owns a candidate.
spec fn cands_complete(rs: Seq<ConditionRecord>, cs: Seq<Candidate>) -> bool {
    forall|h: int|
        group_of(rs, h).len() > 0 ==> exists|k: int|
            0 <= k < cs.len() && (#[trigger] cs[k]).start_at == h
}

/// The timestamps of `records[lo..hi]`, in order.
fn collect_timestamps(records: &Vec<ConditionRecord>, lo: usize, hi: usize) -> (r: Vec<i64>)
    requires
        lo <= hi <= records@.len(),
    ensures
        r@ == ts_of(records@.subrange(lo as int, hi as int)),
{
    let mut out: Vec<i64> = Vec::new();
    let mut i: usize = lo;
    while i < hi
        invariant
            lo <= i <= hi <= records@.len(),
            out@ == ts_of(records@.subrange(lo as int, i as int)),
        decreases hi - i,
    {
        proof {
            assert(records@.subrange(lo as int, i + 1).drop_last() =~= records@.subrange(
                lo as int,
                i as int,
            ));
            assert(records@.subrange(lo as int, i + 1).last() == records@[i as int]);
        }
        out.push(records[i].timestamp);
        i += 1;
    }
    out
}

/// One forward pass over the ascending history: groups consecutive
/// same-hour records into runs and reduces each run to a candidate
/// bucket.
#[verifier::loop_isolation(false)]
#[verifier::rlimit(60)]
fn build_candidates(records: &Vec<ConditionRecord>) -> (r: Result<
    Vec<Candidate>,
    ClassificationError,
>)
    requires
        sorted_ascending(records@),
        records@.len() <= MAX_SCORE_GROUP,
        forall|k: int|
            0 <= k < records@.len() ==> (#[trigger] records@[k]).timestamp >= i64::MIN
                + SECONDS_PER_HOUR,
    ensures
        r matches Ok(cs) ==> all_valid(records@) && cands_sorted(cs@) && cands_complete(
            records@,
            cs@,
        ) && (forall|k: int| 0 <= k < cs@.len() ==> cand_ok(records@, #[trigger] cs@[k])),
        r is Err <==> !all_valid(records@),
{
    let ghost rs = records@;
    let n = records.len();
    let mut cands: Vec<Candidate> = Vec::new();
    if n == 0 {
        proof {
            assert forall|h: int| (#[trigger] group_of(rs, h)).len() > 0 implies exists|k: int|
                0 <= k < cands@.len() && (#[trigger] cands@[k]).start_at == h by {
                assert(group_of(rs, h).len() == 0);
            }
        }
        return Ok(cands);
    }
    let mut run_start: usize = 0;
    let mut run_hour: i64 = truncate_to_hour(records[0].timestamp);
    let mut i: usize = 1;
    proof {
        lemma_group_empty(rs.take(0), run_hour as int);
        lemma_group_extend(rs, 0, run_hour as int);
        assert(group_of(rs.take(1), run_hour as int) =~= rs.subrange(0, 1));
        assert forall|h: int| (#[trigger] group_of(rs.take(1), h)).len() > 0 implies h
                == run_hour as int by {
            lemma_group_empty(rs.take(0), h);
            lemma_group_extend(rs, 0, h);
        }
    }
    while i < n
        invariant
            1 <= i <= n,
            run_start < i,
            run_hour as int == rec_hour(rs[run_start as int]),
            forall|k: int| run_start <= k < i ==> rec_hour(#[trigger] rs[k]) == run_hour as int,
            rs.subrange(run_start as int, i as int) == group_of(rs.take(i as int), run_hour as int),
            forall|k: int| 0 <= k < run_start ==> rec_valid(#[trigger] rs[k]),
            forall|k: int|
                0 <= k < cands@.len() ==> (#[trigger] cands@[k]).start_at < run_hour,
            cands_sorted(cands@),
            forall|k: int| 0 <= k < cands@.len() ==> cand_ok(rs, #[trigger] cands@[k]),
            forall|h: int|
                group_of(rs.take(i as int), h).len() > 0 ==> h == run_hour as int || exists|k: int|
                    0 <= k < cands@.len() && (#[trigger] cands@[k]).start_at == h,
        decreases n - i,
    {
        let t = truncate_to_hour(records[i].timestamp);
        proof {
            lemma_trunc_monotone(
                rs[run_start as int].timestamp as int,
                rs[i as int].timestamp as int,
            );
        }
        if t != run_hour {
            let data = match data_point_range(records, run_start, i) {
                Ok(d) => d,
                Err(e) => {
                    proof {
                        let bad = choose|b: int|
                            0 <= b < rs.subrange(run_start as int, i as int).len() && !rec_valid(
                                rs.subrange(run_start as int, i as int)[b],
                            );
                        assert(!rec_valid(rs[run_start + bad]));
                    }
                    return Err(e);
                },
            };
            let timestamps = collect_timestamps(records, run_start, i);
            proof {
                assert forall|k: int| i <= k < rs.len() implies rec_hour(#[trigger] rs[k])
                    != run_hour as int by {
                    lemma_trunc_monotone(rs[i as int].timestamp as int, rs[k].timestamp as int);
                }
                lemma_group_stable(rs, i as int, run_hour as int);
                assert forall|k: int| 0 <= k < i implies rec_valid(#[trigger] rs[k]) by {
                    if run_start <= k {
                        assert(rs.subrange(run_start as int, i as int)[k - run_start] == rs[k]);
                    }
                }
            }
            let ghost cands0 = cands@;
            cands.push(Candidate { start_at: run_hour, data, timestamps });
            proof {
                assert forall|k: int| 0 <= k < i implies rec_hour(#[trigger] rs[k])
                    != t as int by {
                    if k < run_start {
                        lemma_trunc_monotone(
                            rs[k].timestamp as int,
                            rs[run_start as int].timestamp as int,
                        );
                    }
                }
                lemma_group_empty(rs.take(i as int), t as int);
                lemma_group_extend(rs, i as int, t as int);
                assert(group_of(rs.take(i as int + 1), t as int) =~= rs.subrange(
                    i as int,
                    i as int + 1,
                ));
                assert forall|h: int| (#[trigger] group_of(rs.take(i as int + 1), h)).len()
                    > 0 implies h == t as int || exists|k: int|
                    0 <= k < cands@.len() && (#[trigger] cands@[k]).start_at == h by {
                    lemma_group_extend(rs, i as int, h);
                    if h != t as int {
                        if h == run_hour as int {
                            assert(cands@[cands0.len() as int].start_at == h);
                        } else {
                            let k0 = choose|k: int|
                                0 <= k < cands0.len() && (#[trigger] cands0[k]).start_at == h;
                            assert(cands@[k0].start_at == h);
                        }
                    }
                }
            }
            run_start = i;
            run_hour = t;
        } else {
            proof {
                lemma_group_extend(rs, i as int, run_hour as int);
                assert(rs.subrange(run_start as int, i as int + 1) =~= rs.subrange(
                    run_start as int,
                    i as int,
                ) + seq![rs[i as int]]);
                assert forall|h: int| (#[trigger] group_of(rs.take(i as int + 1), h)).len()
                    > 0 implies h == run_hour as int || exists|k: int|
                    0 <= k < cands@.len() && (#[trigger] cands@[k]).start_at == h by {
                    lemma_group_extend(rs, i as int, h);
                }
            }
        }
        i += 1;
    }
    let data = match data_point_range(records, run_start, n) {
        Ok(d) => d,
        Err(e) => {
            proof {
                let bad = choose|b: int|
                    0 <= b < rs.subrange(run_start as int, n as int).len() && !rec_valid(
                        rs.subrange(run_start as int, n as int)[b],
                    );
                assert(!rec_valid(rs[run_start + bad]));
            }
            return Err(e);
        },
    };
    let timestamps = collect_timestamps(records, run_start, n);
    proof {
        assert(rs.take(n as int) =~= rs);
        assert forall|k: int| 0 <= k < rs.len() implies rec_valid(#[trigger] rs[k]) by {
            if k >= run_start {
                assert(rs.subrange(run_start as int, n as int)[k - run_start] == rs[k]);
            }
        }
    }
    let ghost cands0 = cands@;
    cands.push(Candidate { start_at: run_hour, data, timestamps });
    proof {
        assert forall|h: int| (#[trigger] group_of(rs, h)).len() > 0 implies exists|k: int|
            0 <= k < cands@.len() && (#[trigger] cands@[k]).start_at == h by {
            if h == run_hour as int {
                assert(cands@[cands0.len() as int].start_at == h);
            } else {
                let k0 = choose|k: int|
                    0 <= k < cands0.len() && (#[trigger] cands0[k]).start_at == h;
                assert(cands@[k0].start_at == h);
            }
        }
    }
    Ok(cands)
}

/// A history none of whose records falls in hour `h` has an empty
/// group for `h`.
proof fn lemma_group_empty(s: Seq<ConditionRecord>, h: int)
    requires
        forall|k: int| 0 <= k < s.len() ==> rec_hour(#[trigger] s[k]) != h,
    ensures
        group_of(s, h).len() == 0,
    decreases s.len(),
{
    if s.len() > 0 {
        lemma_group_empty(s.drop_last(), h);
    }
}

/// Taking one more record extends the group of `h` by that record
/// exactly when it falls in hour `h`.
proof fn lemma_group_extend(s: Seq<ConditionRecord>, i: int, h: int)
    ensures
        0 <= i < s.len() ==> group_of(s.take(i + 1), h) == group_of(s.take(i), h) + (if rec_hour(
            s[i],
        ) == h {
            seq![s[i]]
        } else {
            Seq::<ConditionRecord>::empty()
        }),
{
    if 0 <= i < s.len() {
        assert(s.take(i + 1).drop_last() =~= s.take(i));
        assert(s.take(i + 1).last() == s[i]);
    }
}

/// The bucket correctly reports hour `h` of the history: boundaries
/// `[h, h + 1h)`, the hour's aggregate and raw timestamps where the
/// device reported, nothing where it did not.
pub open spec fn bucket_ok(b: GraphResponse, rs: Seq<ConditionRecord>, h: int) -> bool {
    &&& b.start_at as int == h
    &&& b.end_at as int == h + 3600
    &&& (group_of(rs, h).len() > 0 ==> b.data == Some(spec_data_point(group_of(rs, h)))
        && b.condition_timestamps@ == ts_of(group_of(rs, h)))
    &&& (group_of(rs, h).len() == 0 ==> b.data is None && b.condition_timestamps@.len() == 0)
}

/// An element-for-element copy of a timestamp vector.
fn clone_timestamps(v: &Vec<i64>) -> (r: Vec<i64>)
    ensures
        r@ == v@,
{
    let mut out: Vec<i64> = Vec::new();
    let mut i: usize = 0;
    while i < v.len()
        invariant
            0 <= i <= v@.len(),
            out@ == v@.take(i as int),
        decreases v@.len() - i,
    {
        out.push(v[i]);
        proof {
            assert(v@.take(i as int + 1) =~= v@.take(i as int).push(v@[i as int]));
        }
        i += 1;
    }
    proof {
        assert(v@.take(v@.len() as int) =~= v@);
    }
    out
}

/// Intersects the candidate buckets with the requested 24-hour window:
/// one bucket per consecutive hour, the matching candidate's aggregate
/// where one exists and an empty bucket otherwise.
#[verifier::loop_isolation(false)]
fn assemble_window(
    records: &Vec<ConditionRecord>,
    cands: &Vec<Candidate>,
    window_start: i64,
) -> (r: Vec<GraphResponse>)
    requires
        window_start <= i64::MAX - WINDOW_SECONDS,
        cands_sorted(cands@),
        cands_complete(records@, cands@),
        forall|k: int| 0 <= k < cands@.len() ==> cand_ok(records@, #[trigger] cands@[k]),
    ensures
        r@.len() == 24,
        forall|m: int| 0 <= m < 24 ==> bucket_ok(#[trigger] r@[m], records@, window_start + m * 3600),
{
    let ghost rs = records@;
    let mut out: Vec<GraphResponse> = Vec::new();
    let mut j: usize = 0;
    let mut k: usize = 0;
    while k < 24
        invariant
            0 <= k <= 24,
            out@.len() == k,
            j <= cands@.len(),
            forall|m: int| 0 <= m < k ==> bucket_ok(#[trigger] out@[m], rs, window_start + m * 3600),
            forall|idx: int|
                0 <= idx < j ==> (#[trigger] cands@[idx]).start_at < window_start + k as int * 3600,
        decreases 24 - k,
    {
        let hour: i64 = window_start + (k as i64) * 3600;
        while j < cands.len() && cands[j].start_at < hour
            invariant
                j <= cands@.len(),
                forall|idx: int| 0 <= idx < j ==> (#[trigger] cands@[idx]).start_at < hour,
            decreases cands@.len() - j,
        {
            j += 1;
        }
        let filled = j < cands.len() && cands[j].start_at == hour;
        if filled {
            let c = &cands[j];
            out.push(
                GraphResponse {
                    start_at: hour,
                    end_at: hour + SECONDS_PER_HOUR,
                    data: Some(c.data),
                    condition_timestamps: clone_timestamps(&c.timestamps),
                },
            );
            j += 1;
        } else {
            proof {
                if group_of(rs, hour as int).len() > 0 {
                    let w = choose|idx: int|
                        0 <= idx < cands@.len() && (#[trigger] cands@[idx]).start_at
                            == hour as int;
                    assert(j < cands@.len());
                    if j < w {
                        assert(cands@[j as int].start_at < cands@[w].start_at);
                    }
                }
            }
            out.push(
                GraphResponse {
                    start_at: hour,
                    end_at: hour + SECONDS_PER_HOUR,
                    data: None,
                    condition_timestamps: Vec::new(),
                },
            );
        }
        k += 1;
    }
    out
}

/// Produces the 24 hourly buckets of the window starting at
/// `window_start` (an hour-aligned instant) from one device's full
/// ascending history: a single forward pass groups the records into
/// hourly runs, each run is aggregated, and the window is filled hour
/// by hour, with empty buckets where the device reported nothing.  An
/// ill-formed stored flag string anywhere in the history is an
/// invariant violation and fails the request.
pub fn generate_graph(records: &Vec<ConditionRecord>, window_start: i64) -> (r: Result<
    Vec<GraphResponse>,
    ClassificationError,
>)
    requires
        sorted_ascending(records@),
        records@.len() <= MAX_SCORE_GROUP,
        forall|k: int|
            0 <= k < records@.len() ==> (#[trigger] records@[k]).timestamp >= i64::MIN
                + SECONDS_PER_HOUR,
        window_start as int % 3600 == 0,
        window_start <= i64::MAX - WINDOW_SECONDS,
    ensures
        r is Err <==> !all_valid(records@),
        r matches Ok(buckets) ==> buckets@.len() == 24 && forall|m: int|
            0 <= m < 24 ==> bucket_ok(#[trigger] buckets@[m], records@, window_start + m * 3600),
{
    let cands = match build_candidates(records) {
        Ok(cs) => cs,
        Err(e) => {
            return Err(e);
        },
    };
    Ok(assemble_window(records, &cands, window_start))
}

/// Truncates an instant down to the start of its clock hour.
pub fn truncate_to_hour(t: i64) -> (r: i64)
    requires
        t >= i64::MIN + SECONDS_PER_HOUR,
    ensures
        r as int == spec_trunc_hour(t as int),
        r <= t < r + SECONDS_PER_HOUR,
        r as int % 3600 == 0,
{
    proof {
        lemma_fundamental_div_mod(t as int, 3600);
    }
    if t >= 0 {
        let m = (t as u64) % 3600;
        t - (m as i64)
    } else {
        let m = ((-t) as u64) % 3600;
        if m == 0 {
            t
        } else {
            t - (3600 - (m as i64))
        }
    }
}

} // verus!
