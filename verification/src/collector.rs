//! The metrics aggregator: ingests step outcomes and keeps enough state to
//! produce summary statistics (counters, byte totals, latency percentiles and
//! an error histogram).
//!
//! The aggregator's mathematical model is the sequence of samples it has
//! ingested, kept as a ghost history; every counter and the sorted latency
//! vector are tied to that history by the well-formedness invariant.

use crate::model::{DurationNanos, NANOS_PER_MILLI};
use crate::strutil::str_eq;
use vstd::arithmetic::div_mod::{lemma_div_by_multiple, lemma_div_is_ordered};
use vstd::arithmetic::mul::lemma_mul_inequality;
use vstd::prelude::*;
use vstd::relations::{sorted_by, total_ordering};
use vstd::seq_lib::{group_to_multiset_ensures, lemma_multiset_commutative, lemma_sorted_unique};

verus! {

broadcast use group_to_multiset_ensures;

/// One ingested step outcome, as the aggregator's history records it.
pub struct SampleSpec {
    pub success: bool,
    pub latency_ms: u64,
    pub bytes_sent: u64,
    pub bytes_received: u64,
    pub error: Option<Seq<char>>,
    pub step: Seq<char>,
}

/// Number of successful samples in a history.
pub open spec fn spec_successes(h: Seq<SampleSpec>) -> int
    decreases h.len(),
{
    if h.len() == 0 {
        0
    } else {
        spec_successes(h.drop_last()) + if h.last().success {
            1int
        } else {
            0int
        }
    }
}

/// Number of failed samples in a history.
pub open spec fn spec_failures(h: Seq<SampleSpec>) -> int {
    h.len() - spec_successes(h)
}

/// Sum of the latencies of all samples, in milliseconds.
pub open spec fn spec_sum_latency(h: Seq<SampleSpec>) -> int
    decreases h.len(),
{
    if h.len() == 0 {
        0
    } else {
        spec_sum_latency(h.drop_last()) + h.last().latency_ms
    }
}

/// Sum of the bytes sent over all samples.
pub open spec fn spec_bytes_sent(h: Seq<SampleSpec>) -> int
    decreases h.len(),
{
    if h.len() == 0 {
        0
    } else {
        spec_bytes_sent(h.drop_last()) + h.last().bytes_sent
    }
}

/// Sum of the bytes received over all samples.
pub open spec fn spec_bytes_received(h: Seq<SampleSpec>) -> int
    decreases h.len(),
{
    if h.len() == 0 {
        0
    } else {
        spec_bytes_received(h.drop_last()) + h.last().bytes_received
    }
}

/// The latencies of a history, in ingestion order.
pub open spec fn spec_latencies(h: Seq<SampleSpec>) -> Seq<u64> {
    h.map_values(|s: SampleSpec| s.latency_ms)
}

/// How often a failed sample carried the error description `e`.
pub open spec fn spec_error_count(h: Seq<SampleSpec>, e: Seq<char>) -> int
    decreases h.len(),
{
    if h.len() == 0 {
        0
    } else {
        spec_error_count(h.drop_last(), e) + if !h.last().success && h.last().error == Some(e) {
            1int
        } else {
            0int
        }
    }
}

/// The ordering by which latencies are kept sorted.
pub open spec fn u64_le() -> spec_fn(u64, u64) -> bool {
    |x: u64, y: u64| x <= y
}

/// The latencies of a history, sorted ascending.
pub open spec fn spec_sorted_latencies(h: Seq<SampleSpec>) -> Seq<u64> {
    spec_latencies(h).sort_by(u64_le())
}

/// Nearest-rank percentile with floor, clamped to the last index; zero on an
/// empty sample set.
pub open spec fn spec_percentile(s: Seq<u64>, p: int) -> u64 {
    if s.len() == 0 {
        0u64
    } else if p * s.len() / 100 < s.len() - 1 {
        s[p * s.len() as int / 100]
    } else {
        s[s.len() - 1]
    }
}

/// The distinct error descriptions of a history's failures, in order of
/// first occurrence.
pub open spec fn spec_error_keys(h: Seq<SampleSpec>) -> Seq<Seq<char>>
    decreases h.len(),
{
    if h.len() == 0 {
        Seq::empty()
    } else {
        let prev = spec_error_keys(h.drop_last());
        match h.last().error {
            Some(e) => if !h.last().success && !prev.contains(e) {
                prev.push(e)
            } else {
                prev
            },
            None => prev,
        }
    }
}

/// The names of a histogram's entries, in order.
pub open spec fn spec_entry_keys(s: Seq<(String, u64)>) -> Seq<Seq<char>> {
    s.map_values(|p: (String, u64)| p.0@)
}

/// How appending one sample changes the ordered error keys.
pub proof fn lemma_error_keys_push(h: Seq<SampleSpec>, s: SampleSpec)
    ensures
        spec_error_keys(h.push(s)) == (match s.error {
            Some(e) => if !s.success && !spec_error_keys(h).contains(e) {
                spec_error_keys(h).push(e)
            } else {
                spec_error_keys(h)
            },
            None => spec_error_keys(h),
        }),
{
    assert(h.push(s).drop_last() =~= h);
}

/// Value of key `e` in an association list of counts; zero when absent.
pub open spec fn err_lookup(s: Seq<(String, u64)>, e: Seq<char>) -> int
    decreases s.len(),
{
    if s.len() == 0 {
        0
    } else if s.last().0@ == e {
        s.last().1 as int
    } else {
        err_lookup(s.drop_last(), e)
    }
}

/// No two entries of the association list share a key.
pub open spec fn unique_keys(s: Seq<(String, u64)>) -> bool {
    forall|i: int, j: int| 0 <= i < j < s.len() ==> s[i].0@ != s[j].0@
}

/// How appending one sample changes each aggregate of the history.
pub proof fn lemma_history_push(h: Seq<SampleSpec>, s: SampleSpec)
    ensures
        spec_successes(h.push(s)) == spec_successes(h) + if s.success {
            1int
        } else {
            0int
        },
        spec_failures(h.push(s)) == spec_failures(h) + if s.success {
            0int
        } else {
            1int
        },
        spec_sum_latency(h.push(s)) == spec_sum_latency(h) + s.latency_ms,
        spec_bytes_sent(h.push(s)) == spec_bytes_sent(h) + s.bytes_sent,
        spec_bytes_received(h.push(s)) == spec_bytes_received(h) + s.bytes_received,
        spec_latencies(h.push(s)) == spec_latencies(h).push(s.latency_ms),
        forall|e: Seq<char>| #[trigger] spec_error_count(h.push(s), e) == spec_error_count(h, e)
            + if !s.success && s.error == Some(e) {
            1int
        } else {
            0int
        },
{
    assert(h.push(s).drop_last() =~= h);
    assert(spec_latencies(h.push(s)) =~= spec_latencies(h).push(s.latency_ms));
}

/// Every aggregate of a history is non-negative and the counting aggregates
/// are bounded by its length.
pub proof fn lemma_history_bounds(h: Seq<SampleSpec>)
    ensures
        0 <= spec_successes(h) <= h.len(),
        0 <= spec_failures(h) <= h.len(),
        0 <= spec_sum_latency(h),
        0 <= spec_bytes_sent(h),
        0 <= spec_bytes_received(h),
        forall|e: Seq<char>| 0 <= #[trigger] spec_error_count(h, e) <= spec_failures(h),
    decreases h.len(),
{
    if h.len() > 0 {
        lemma_history_bounds(h.drop_last());
        assert forall|e: Seq<char>| 0 <= #[trigger] spec_error_count(h, e) <= spec_failures(
            h,
        ) by {
            assert(0 <= spec_error_count(h.drop_last(), e) <= spec_failures(h.drop_last()));
        }
    }
}

/// A key that appears in no entry looks up to zero.
proof fn lemma_err_lookup_absent(s: Seq<(String, u64)>, e: Seq<char>)
    requires
        forall|i: int| 0 <= i < s.len() ==> s[i].0@ != e,
    ensures
        err_lookup(s, e) == 0,
    decreases s.len(),
{
    if s.len() > 0 {
        lemma_err_lookup_absent(s.drop_last(), e);
    }
}

/// With unique keys, a key looks up to the value of its entry.
proof fn lemma_err_lookup_found(s: Seq<(String, u64)>, i: int)
    requires
        unique_keys(s),
        0 <= i < s.len(),
    ensures
        err_lookup(s, s[i].0@) == s[i].1 as int,
    decreases s.len(),
{
    if i == s.len() - 1 {
    } else {
        assert(s.last().0@ != s[i].0@);
        assert(s.drop_last()[i] == s[i]);
        lemma_err_lookup_found(s.drop_last(), i);
    }
}

/// Replacing an entry's value changes only that key's lookup.
proof fn lemma_err_lookup_update(s: Seq<(String, u64)>, i: int, p: (String, u64))
    requires
        unique_keys(s),
        0 <= i < s.len(),
        p.0@ == s[i].0@,
    ensures
        unique_keys(s.update(i, p)),
        forall|e: Seq<char>| #[trigger] err_lookup(s.update(i, p), e) == if e == p.0@ {
            p.1 as int
        } else {
            err_lookup(s, e)
        },
    decreases s.len(),
{
    let t = s.update(i, p);
    if i == s.len() - 1 {
        assert(t.drop_last() =~= s.drop_last());
        assert forall|e: Seq<char>| #[trigger] err_lookup(t, e) == if e == p.0@ {
            p.1 as int
        } else {
            err_lookup(s, e)
        } by {
            assert(t.last() == p);
            assert(s.last() == s[i]);
            if e == p.0@ {
                assert(err_lookup(t, e) == p.1 as int);
            } else {
                assert(err_lookup(t, e) == err_lookup(t.drop_last(), e));
                assert(err_lookup(s, e) == err_lookup(s.drop_last(), e));
            }
        }
    } else {
        assert(t.drop_last() =~= s.drop_last().update(i, p));
        assert(t.last() == s.last());
        assert(unique_keys(s.drop_last())) by {
            assert(forall|a: int, b: int|
                0 <= a < b < s.len() - 1 ==> s.drop_last()[a] == s[a] && s.drop_last()[b] == s[b]);
        }
        assert(s.drop_last()[i] == s[i]);
        lemma_err_lookup_update(s.drop_last(), i, p);
        assert forall|e: Seq<char>| #[trigger] err_lookup(t, e) == if e == p.0@ {
            p.1 as int
        } else {
            err_lookup(s, e)
        } by {
            assert(err_lookup(t.drop_last(), e) == if e == p.0@ {
                p.1 as int
            } else {
                err_lookup(s.drop_last(), e)
            });
            assert(s.last().0@ != p.0@);
        }
        assert(unique_keys(t)) by {
            assert(forall|a: int| 0 <= a < t.len() - 1 ==> t[a] == t.drop_last()[a]);
            assert(forall|a: int| 0 <= a < t.len() - 1 ==> t[a].0@ == s[a].0@);
        }
    }
}

/// Appending an entry with a fresh key adds exactly that key.
proof fn lemma_err_lookup_push(s: Seq<(String, u64)>, p: (String, u64))
    requires
        forall|i: int| 0 <= i < s.len() ==> s[i].0@ != p.0@,
    ensures
        unique_keys(s) ==> unique_keys(s.push(p)),
        forall|e: Seq<char>| #[trigger] err_lookup(s.push(p), e) == if e == p.0@ {
            p.1 as int
        } else {
            err_lookup(s, e)
        },
{
    assert(s.push(p).drop_last() =~= s);
    assert(s.push(p).last() == p);
}

/// The latency ordering is a total order.
proof fn lemma_u64_le_total()
    ensures
        total_ordering(u64_le()),
{
}

/// Association lists equal entry by entry look every key up alike.
proof fn lemma_err_lookup_congruent(a: Seq<(String, u64)>, b: Seq<(String, u64)>)
    requires
        a.len() == b.len(),
        forall|j: int| 0 <= j < a.len() ==> a[j].0@ == b[j].0@ && a[j].1 == b[j].1,
    ensures
        unique_keys(b) ==> unique_keys(a),
        forall|e: Seq<char>| #[trigger] err_lookup(a, e) == err_lookup(b, e),
    decreases a.len(),
{
    if a.len() > 0 {
        assert(forall|j: int|
            0 <= j < a.len() - 1 ==> a.drop_last()[j].0@ == b.drop_last()[j].0@
                && a.drop_last()[j].1 == b.drop_last()[j].1);
        lemma_err_lookup_congruent(a.drop_last(), b.drop_last());
        assert forall|e: Seq<char>| #[trigger] err_lookup(a, e) == err_lookup(b, e) by {
            assert(a.last().0@ == b.last().0@ && a.last().1 == b.last().1);
            assert(err_lookup(a.drop_last(), e) == err_lookup(b.drop_last(), e));
        }
    }
}

/// Nearest-rank percentile over a sorted sample set.
pub fn percentile(sorted_data: &[u64], p: u64) -> (r: u64)
    requires
        p <= 100,
    ensures
        r == spec_percentile(sorted_data@, p as int),
{
    let n = sorted_data.len();
    if n == 0 {
        return 0;
    }
    proof {
        lemma_mul_inequality(p as int, 100, n as int);
    }
    let scaled = (p as u128) * (n as u128) / 100;
    proof {
        lemma_div_is_ordered(p as int * n as int, 100 * n as int, 100);
        lemma_div_by_multiple(n as int, 100);
    }
    let idx = if scaled >= (n - 1) as u128 {
        n - 1
    } else {
        scaled as usize
    };
    sorted_data[idx]
}

/// Inserting an element anywhere in a sequence adds it to the multiset.
proof fn lemma_insert_to_multiset(s: Seq<u64>, i: int, v: u64)
    requires
        0 <= i <= s.len(),
    ensures
        s.insert(i, v).to_multiset() == s.to_multiset().insert(v),
{
    let l = s.subrange(0, i);
    let r = s.subrange(i, s.len() as int);
    assert(s =~= l + r);
    assert(s.insert(i, v) =~= l.push(v) + r);
    lemma_multiset_commutative(l.push(v), r);
    lemma_multiset_commutative(l, r);
    assert(l.push(v).to_multiset() == l.to_multiset().insert(v));
    assert(l.to_multiset().insert(v).add(r.to_multiset()) =~= l.to_multiset().add(
        r.to_multiset(),
    ).insert(v));
}

/// Insert a value into a vector sorted ascending, keeping it sorted.
fn insert_sorted(v: &mut Vec<u64>, x: u64)
    requires
        sorted_by(old(v)@, u64_le()),
        old(v)@.len() < usize::MAX,
    ensures
        sorted_by(final(v)@, u64_le()),
        final(v)@.to_multiset() == old(v)@.to_multiset().insert(x),
        final(v)@.len() == old(v)@.len() + 1,
{
    let len = v.len();
    let mut i: usize = 0;
    while i < len && v[i] <= x
        invariant
            i <= len,
            len == v@.len(),
            v@ == old(v)@,
            forall|j: int| 0 <= j < i ==> v@[j] <= x,
        decreases len - i,
    {
        i += 1;
    }
    proof {
        assert(forall|j: int| i <= j < len ==> x < v@[j]) by {
            assert(forall|j: int| i < j < len ==> (u64_le())(v@[i as int], v@[j]));
        }
    }
    let ghost before = v@;
    v.insert(i, x);
    proof {
        lemma_insert_to_multiset(before, i as int, x);
        assert(sorted_by(v@, u64_le())) by {
            assert forall|a: int, b: int| 0 <= a < b < v@.len() implies (u64_le())(
                v@[a],
                v@[b],
            ) by {
                assert(v@ == before.subrange(0, i as int).push(x) + before.subrange(
                    i as int,
                    before.len() as int,
                ));
                if a < i && b < i {
                    assert((u64_le())(before[a], before[b]));
                } else if a < i && b > i {
                    assert((u64_le())(before[a], before[b - 1]));
                } else if a > i && b > i {
                    assert((u64_le())(before[a - 1], before[b - 1]));
                }
            }
        }
    }
}

/// Aggregate statistics over everything a collector has ingested.
///
/// The rate and average fields are integers: `success_rate` is a whole
/// percentage and `avg_latency_ms` a whole number of milliseconds, both
/// truncated.
#[derive(Clone, Debug)]
pub struct MetricsSummary {
    pub total_requests: u64,
    pub successful_requests: u64,
    pub failed_requests: u64,
    pub success_rate: u64,
    pub total_bytes_sent: u64,
    pub total_bytes_received: u64,
    pub avg_latency_ms: u64,
    pub min_latency_ms: u64,
    pub max_latency_ms: u64,
    pub p50_latency_ms: u64,
    pub p95_latency_ms: u64,
    pub p99_latency_ms: u64,
    pub errors_by_type: Vec<(String, u64)>,
}

/// A light point-in-time view of the aggregator's counters, for live
/// progress: totals and the latency sum, without the distribution.
#[derive(Clone, Copy, Debug, PartialEq, Eq, Structural)]
pub struct MetricsSnapshot {
    pub total_requests: u64,
    pub successful_requests: u64,
    pub failed_requests: u64,
    pub total_duration_ms: u64,
}

/// The metrics aggregator. Its view is the history of ingested samples.
pub struct SimpleCollector {
    total_requests: u64,
    successful_requests: u64,
    failed_requests: u64,
    total_bytes_sent: u64,
    total_bytes_received: u64,
    total_latency_ms: u64,
    latencies_ms: Vec<u64>,
    errors: Vec<(String, u64)>,
    history: Ghost<Seq<SampleSpec>>,
}

impl Default for SimpleCollector {
    /// The same fresh aggregator `new` builds.
    fn default() -> (r: SimpleCollector)
        ensures
            r.wf(),
            r@ == Seq::<SampleSpec>::empty(),
    {
        SimpleCollector::new()
    }
}

impl View for SimpleCollector {
    type V = Seq<SampleSpec>;

    closed spec fn view(&self) -> Seq<SampleSpec> {
        self.history@
    }
}

impl SimpleCollector {
    /// The counters and the sorted latency vector agree with the history.
    pub closed spec fn wf(&self) -> bool {
        &&& self.total_requests == self.history@.len()
        &&& self.successful_requests == spec_successes(self.history@)
        &&& self.failed_requests == spec_failures(self.history@)
        &&& self.total_bytes_sent == spec_bytes_sent(self.history@)
        &&& self.total_bytes_received == spec_bytes_received(self.history@)
        &&& self.total_latency_ms == spec_sum_latency(self.history@)
        &&& sorted_by(self.latencies_ms@, u64_le())
        &&& self.latencies_ms@.to_multiset() == spec_latencies(self.history@).to_multiset()
        &&& self.latencies_ms@.len() == self.history@.len()
        &&& unique_keys(self.errors@)
        &&& self.errors@.len() <= self.history@.len()
        &&& spec_entry_keys(self.errors@) == spec_error_keys(self.history@)
        &&& forall|j: int| 0 <= j < self.errors@.len() ==> (#[trigger] self.errors@[j]).1 >= 1
        &&& forall|e: Seq<char>| #[trigger] err_lookup(self.errors@, e) == spec_error_count(
            self.history@,
            e,
        )
    }

    /// A fresh collector: nothing ingested yet.
    pub fn new() -> (r: SimpleCollector)
        ensures
            r.wf(),
            r@ == Seq::<SampleSpec>::empty(),
    {
        let r = SimpleCollector {
            total_requests: 0,
            successful_requests: 0,
            failed_requests: 0,
            total_bytes_sent: 0,
            total_bytes_received: 0,
            total_latency_ms: 0,
            latencies_ms: Vec::new(),
            errors: Vec::new(),
            history: Ghost(Seq::empty()),
        };
        proof {
            assert(spec_latencies(r.history@) =~= r.latencies_ms@);
            assert(spec_entry_keys(r.errors@) =~= spec_error_keys(r.history@));
            assert forall|e: Seq<char>| #[trigger] err_lookup(r.errors@, e) == spec_error_count(
                r.history@,
                e,
            ) by {
                assert(err_lookup(r.errors@, e) == 0);
            }
        }
        r
    }

    /// Record a successful request: its latency and the bytes moved.
    pub fn record_success(
        &mut self,
        step_name: &str,
        latency: DurationNanos,
        bytes_sent: u64,
        bytes_received: u64,
    )
        requires
            old(self).wf(),
            old(self)@.len() < u64::MAX,
            old(self)@.len() < usize::MAX,
            spec_bytes_sent(old(self)@) + bytes_sent <= u64::MAX,
            spec_bytes_received(old(self)@) + bytes_received <= u64::MAX,
            spec_sum_latency(old(self)@) + latency.nanos / NANOS_PER_MILLI <= u64::MAX,
        ensures
            final(self).wf(),
            final(self)@ == old(self)@.push(
                SampleSpec {
                    success: true,
                    latency_ms: (latency.nanos / NANOS_PER_MILLI) as u64,
                    bytes_sent,
                    bytes_received,
                    error: None,
                    step: step_name@,
                },
            ),
    {
        let lat_ms = latency.as_millis();
        let ghost sample = SampleSpec {
            success: true,
            latency_ms: lat_ms,
            bytes_sent,
            bytes_received,
            error: None,
            step: step_name@,
        };
        proof {
            lemma_history_bounds(self.history@);
            lemma_history_push(self.history@, sample);
            lemma_error_keys_push(self.history@, sample);
        }
        self.total_requests = self.total_requests + 1;
        self.successful_requests = self.successful_requests + 1;
        self.total_bytes_sent = self.total_bytes_sent + bytes_sent;
        self.total_bytes_received = self.total_bytes_received + bytes_received;
        self.total_latency_ms = self.total_latency_ms + lat_ms;
        insert_sorted(&mut self.latencies_ms, lat_ms);
        proof {
            self.history@ = self.history@.push(sample);
        }
    }

    /// Record a failed request: its latency and its error description.
    pub fn record_failure(&mut self, step_name: &str, error: &str, latency: DurationNanos)
        requires
            old(self).wf(),
            old(self)@.len() < u64::MAX,
            old(self)@.len() < usize::MAX,
            spec_sum_latency(old(self)@) + latency.nanos / NANOS_PER_MILLI <= u64::MAX,
        ensures
            final(self).wf(),
            final(self)@ == old(self)@.push(
                SampleSpec {
                    success: false,
                    latency_ms: (latency.nanos / NANOS_PER_MILLI) as u64,
                    bytes_sent: 0,
                    bytes_received: 0,
                    error: Some(error@),
                    step: step_name@,
                },
            ),
    {
        let lat_ms = latency.as_millis();
        let ghost sample = SampleSpec {
            success: false,
            latency_ms: lat_ms,
            bytes_sent: 0,
            bytes_received: 0,
            error: Some(error@),
            step: step_name@,
        };
        proof {
            lemma_history_bounds(self.history@);
            lemma_history_push(self.history@, sample);
            lemma_error_keys_push(self.history@, sample);
        }
        self.total_requests = self.total_requests + 1;
        self.failed_requests = self.failed_requests + 1;
        self.total_latency_ms = self.total_latency_ms + lat_ms;
        insert_sorted(&mut self.latencies_ms, lat_ms);
        let ghost entries_before = self.errors@;
        let ghost h = self.history@;
        self.bump_error(error);
        proof {
            if exists|i: int|
                0 <= i < entries_before.len() && (#[trigger] entries_before[i]).0@ == error@ {
                let i = choose|i: int|
                    0 <= i < entries_before.len() && (#[trigger] entries_before[i]).0@ == error@;
                assert(spec_entry_keys(entries_before)[i] == error@);
                assert(spec_error_keys(h).contains(error@));
            } else {
                assert(!spec_error_keys(h).contains(error@)) by {
                    if spec_error_keys(h).contains(error@) {
                        let i = choose|i: int|
                            0 <= i < spec_error_keys(h).len() && spec_error_keys(h)[i] == error@;
                        assert(spec_entry_keys(entries_before)[i] == entries_before[i].0@);
                    }
                }
            }
            self.history@ = self.history@.push(sample);
        }
    }

    /// Add one to the histogram count of an error description.
    fn bump_error(&mut self, error: &str)
        requires
            unique_keys(old(self).errors@),
            err_lookup(old(self).errors@, error@) < u64::MAX,
            old(self).errors@.len() < usize::MAX,
            forall|j: int|
                0 <= j < old(self).errors@.len() ==> (#[trigger] old(self).errors@[j]).1 >= 1,
        ensures
            forall|j: int|
                0 <= j < final(self).errors@.len() ==> (#[trigger] final(self).errors@[j]).1 >= 1,
            (exists|i: int|
                0 <= i < old(self).errors@.len() && (#[trigger] old(self).errors@[i]).0@
                    == error@) ==> spec_entry_keys(final(self).errors@) == spec_entry_keys(
                old(self).errors@,
            ),
            !(exists|i: int|
                0 <= i < old(self).errors@.len() && (#[trigger] old(self).errors@[i]).0@
                    == error@) ==> spec_entry_keys(final(self).errors@) == spec_entry_keys(
                old(self).errors@,
            ).push(error@),
            final(self).total_requests == old(self).total_requests,
            final(self).successful_requests == old(self).successful_requests,
            final(self).failed_requests == old(self).failed_requests,
            final(self).total_bytes_sent == old(self).total_bytes_sent,
            final(self).total_bytes_received == old(self).total_bytes_received,
            final(self).total_latency_ms == old(self).total_latency_ms,
            final(self).latencies_ms@ == old(self).latencies_ms@,
            final(self).history@ == old(self).history@,
            unique_keys(final(self).errors@),
            final(self).errors@.len() <= old(self).errors@.len() + 1,
            forall|e: Seq<char>| #[trigger] err_lookup(final(self).errors@, e) == err_lookup(
                old(self).errors@,
                e,
            ) + if e == error@ {
                1int
            } else {
                0int
            },
    {
        let n = self.errors.len();
        let mut i: usize = 0;
        while i < n
            invariant
                i <= n,
                n == self.errors@.len(),
                *self == *old(self),
                unique_keys(self.errors@),
                err_lookup(self.errors@, error@) < u64::MAX,
                forall|j: int| 0 <= j < n ==> (#[trigger] self.errors@[j]).1 >= 1,
                forall|j: int| 0 <= j < i ==> self.errors@[j].0@ != error@,
            decreases n - i,
        {
            if str_eq(self.errors[i].0.as_str(), error) {
                proof {
                    lemma_err_lookup_found(self.errors@, i as int);
                }
                let ghost before = self.errors@;
                let c = self.errors[i].1;
                let entry = &mut self.errors[i];
                entry.1 = c + 1;
                proof {
                    let p = self.errors@[i as int];
                    assert(p.0@ == before[i as int].0@);
                    assert(p.1 == c + 1);
                    lemma_err_lookup_update(before, i as int, p);
                    assert(self.errors@ =~= before.update(i as int, p));
                    assert(spec_entry_keys(self.errors@) =~= spec_entry_keys(before));
                    assert(before[i as int].0@ == error@);
                    assert forall|j: int|
                        0 <= j < self.errors@.len() implies (#[trigger] self.errors@[j]).1
                        >= 1 by {
                        if j != i {
                            assert(self.errors@[j] == before[j]);
                        }
                    }
                }
                return ;
            }
            i += 1;
        }
        let ghost before = self.errors@;
        let fresh = error.to_owned();
        self.errors.push((fresh, 1));
        proof {
            let p = self.errors@.last();
            assert(p.0@ == error@);
            lemma_err_lookup_absent(before, error@);
            lemma_err_lookup_push(before, p);
            assert(self.errors@ =~= before.push(p));
            assert(spec_entry_keys(self.errors@) =~= spec_entry_keys(before).push(error@));
            assert forall|j: int|
                0 <= j < self.errors@.len() implies (#[trigger] self.errors@[j]).1 >= 1 by {
                if j < before.len() {
                    assert(self.errors@[j] == before[j]);
                }
            }
        }
    }

    /// A consistent snapshot of every statistic over what has been ingested.
    pub fn summary(&self) -> (r: MetricsSummary)
        requires
            self.wf(),
        ensures
            r.total_requests == self@.len(),
            r.successful_requests == spec_successes(self@),
            r.failed_requests == spec_failures(self@),
            r.total_bytes_sent == spec_bytes_sent(self@),
            r.total_bytes_received == spec_bytes_received(self@),
            r.success_rate == if self@.len() == 0 {
                0int
            } else {
                spec_successes(self@) * 100 / self@.len() as int
            },
            r.avg_latency_ms == if self@.len() == 0 {
                0int
            } else {
                spec_sum_latency(self@) / self@.len() as int
            },
            r.min_latency_ms == if self@.len() == 0 {
                0u64
            } else {
                spec_sorted_latencies(self@).first()
            },
            r.max_latency_ms == if self@.len() == 0 {
                0u64
            } else {
                spec_sorted_latencies(self@).last()
            },
            r.p50_latency_ms == spec_percentile(spec_sorted_latencies(self@), 50),
            r.p95_latency_ms == spec_percentile(spec_sorted_latencies(self@), 95),
            r.p99_latency_ms == spec_percentile(spec_sorted_latencies(self@), 99),
            unique_keys(r.errors_by_type@),
            forall|e: Seq<char>| #[trigger] err_lookup(r.errors_by_type@, e) == spec_error_count(
                self@,
                e,
            ),
            r.errors_by_type@.len() == spec_error_keys(self@).len(),
            forall|j: int|
                0 <= j < r.errors_by_type@.len() ==> {
                    &&& (#[trigger] r.errors_by_type@[j]).0@ == spec_error_keys(self@)[j]
                    &&& r.errors_by_type@[j].1 == spec_error_count(self@, spec_error_keys(self@)[j])
                    &&& r.errors_by_type@[j].1 >= 1
                },
    {
        proof {
            lemma_history_bounds(self.history@);
            lemma_u64_le_total();
            spec_latencies(self.history@).lemma_sort_by_ensures(u64_le());
            lemma_sorted_unique(
                self.latencies_ms@,
                spec_sorted_latencies(self.history@),
                u64_le(),
            );
        }
        let n = self.total_requests;
        let (success_rate, avg, min, max) = if n == 0 {
            (0u64, 0u64, 0u64, 0u64)
        } else {
            let rate = (self.successful_requests as u128) * 100 / (n as u128);
            proof {
                lemma_mul_inequality(
                    spec_successes(self.history@),
                    self.history@.len() as int,
                    100,
                );
                lemma_div_is_ordered(
                    spec_successes(self.history@) * 100,
                    self.history@.len() as int * 100,
                    self.history@.len() as int,
                );
                lemma_div_by_multiple(100, self.history@.len() as int);
            }
            let avg = self.total_latency_ms / n;
            let min = self.latencies_ms[0];
            let max = self.latencies_ms[self.latencies_ms.len() - 1];
            (rate as u64, avg, min, max)
        };
        let p50 = percentile(self.latencies_ms.as_slice(), 50);
        let p95 = percentile(self.latencies_ms.as_slice(), 95);
        let p99 = percentile(self.latencies_ms.as_slice(), 99);
        let errors_by_type = self.errors_snapshot();
        proof {
            assert(spec_entry_keys(self.errors@).len() == self.errors@.len());
            assert forall|j: int|
                0 <= j < errors_by_type@.len() implies {
                &&& (#[trigger] errors_by_type@[j]).0@ == spec_error_keys(self@)[j]
                &&& errors_by_type@[j].1 == spec_error_count(self@, spec_error_keys(self@)[j])
                &&& errors_by_type@[j].1 >= 1
            } by {
                assert(errors_by_type@[j].0@ == self.errors@[j].0@ && errors_by_type@[j].1
                    == self.errors@[j].1);
                assert(spec_entry_keys(self.errors@)[j] == self.errors@[j].0@);
                lemma_err_lookup_found(self.errors@, j);
            }
        }
        MetricsSummary {
            total_requests: self.total_requests,
            successful_requests: self.successful_requests,
            failed_requests: self.failed_requests,
            success_rate,
            total_bytes_sent: self.total_bytes_sent,
            total_bytes_received: self.total_bytes_received,
            avg_latency_ms: avg,
            min_latency_ms: min,
            max_latency_ms: max,
            p50_latency_ms: p50,
            p95_latency_ms: p95,
            p99_latency_ms: p99,
            errors_by_type,
        }
    }

    /// A copy of the error histogram.
    fn errors_snapshot(&self) -> (r: Vec<(String, u64)>)
        ensures
            r@.len() == self.errors@.len(),
            forall|j: int|
                0 <= j < r@.len() ==> r@[j].0@ == self.errors@[j].0@ && r@[j].1
                    == self.errors@[j].1,
            unique_keys(self.errors@) ==> unique_keys(r@) && forall|e: Seq<char>|
                #[trigger] err_lookup(r@, e) == err_lookup(self.errors@, e),
    {
        let n = self.errors.len();
        let mut out: Vec<(String, u64)> = Vec::new();
        let mut i: usize = 0;
        while i < n
            invariant
                i <= n,
                n == self.errors@.len(),
                out@.len() == i,
                forall|j: int|
                    0 <= j < i ==> out@[j].0@ == self.errors@[j].0@ && out@[j].1
                        == self.errors@[j].1,
            decreases n - i,
        {
            let key = self.errors[i].0.clone();
            let count = self.errors[i].1;
            out.push((key, count));
            i += 1;
        }
        proof {
            if unique_keys(self.errors@) {
                lemma_err_lookup_congruent(out@, self.errors@);
            }
        }
        out
    }

    /// Drop everything ingested so far and start afresh.
    pub fn reset(&mut self)
        ensures
            final(self).wf(),
            final(self)@ == Seq::<SampleSpec>::empty(),
    {
        self.total_requests = 0;
        self.successful_requests = 0;
        self.failed_requests = 0;
        self.total_bytes_sent = 0;
        self.total_bytes_received = 0;
        self.total_latency_ms = 0;
        self.latencies_ms.clear();
        self.errors.clear();
        proof {
            self.history@ = Seq::empty();
            assert(spec_latencies(self.history@) =~= self.latencies_ms@);
            assert(spec_entry_keys(self.errors@) =~= spec_error_keys(self.history@));
            assert forall|e: Seq<char>| #[trigger] err_lookup(self.errors@, e) == spec_error_count(
                self.history@,
                e,
            ) by {
                assert(err_lookup(self.errors@, e) == 0);
            }
        }
    }

    /// A consistent counters-only view of the aggregator.
    pub fn snapshot(&self) -> (r: MetricsSnapshot)
        requires
            self.wf(),
        ensures
            r.total_requests == self@.len(),
            r.successful_requests == spec_successes(self@),
            r.failed_requests == spec_failures(self@),
            r.total_duration_ms == spec_sum_latency(self@),
    {
        MetricsSnapshot {
            total_requests: self.total_requests,
            successful_requests: self.successful_requests,
            failed_requests: self.failed_requests,
            total_duration_ms: self.total_latency_ms,
        }
    }

    /// Number of samples ingested so far.
    pub fn total_requests(&self) -> (r: u64)
        requires
            self.wf(),
        ensures
            r == self@.len(),
    {
        self.total_requests
    }

    /// Sum of all ingested latencies, in milliseconds.
    pub fn total_latency_ms(&self) -> (r: u64)
        requires
            self.wf(),
        ensures
            r == spec_sum_latency(self@),
    {
        self.total_latency_ms
    }

    /// Sum of all ingested sent-byte counts.
    pub fn total_bytes_sent(&self) -> (r: u64)
        requires
            self.wf(),
        ensures
            r == spec_bytes_sent(self@),
    {
        self.total_bytes_sent
    }

    /// Sum of all ingested received-byte counts.
    pub fn total_bytes_received(&self) -> (r: u64)
        requires
            self.wf(),
        ensures
            r == spec_bytes_received(self@),
    {
        self.total_bytes_received
    }
}

/// On a sorted, non-empty sample set, the percentile is monotone in the rank
/// and never exceeds the maximum: in particular p50 <= p95 <= p99 <= max.
pub proof fn lemma_percentile_order(s: Seq<u64>, p1: int, p2: int)
    requires
        sorted_by(s, u64_le()),
        s.len() > 0,
        0 <= p1 <= p2 <= 100,
    ensures
        spec_percentile(s, p1) <= spec_percentile(s, p2),
        spec_percentile(s, p2) <= s.last(),
{
    let n = s.len() as int;
    lemma_mul_inequality(p1, p2, n);
    lemma_div_is_ordered(p1 * n, p2 * n, 100);
    lemma_mul_inequality(p2, 100, n);
    lemma_div_is_ordered(p2 * n, 100 * n, 100);
    lemma_div_by_multiple(n, 100);
    vstd::arithmetic::div_mod::lemma_div_pos_is_pos(p1 * n, 100);
    vstd::arithmetic::mul::lemma_mul_nonnegative(p1, n);
    let i1 = if p1 * n / 100 < n - 1 {
        p1 * n / 100
    } else {
        n - 1
    };
    let i2 = if p2 * n / 100 < n - 1 {
        p2 * n / 100
    } else {
        n - 1
    };
    assert(0 <= i1 <= i2 <= n - 1);
    if i1 < i2 {
        assert((u64_le())(s[i1], s[i2]));
    }
    if i2 < n - 1 {
        assert((u64_le())(s[i2], s[n - 1]));
    }
}

/// A history of nothing but successes with one latency `l` and no bytes
/// summarises to: every request counted as a success, average, minimum and
/// maximum latency all `l`, and no bytes.
pub proof fn lemma_uniform_success_round_trip(h: Seq<SampleSpec>, l: u64)
    requires
        h.len() > 0,
        forall|i: int|
            0 <= i < h.len() ==> (#[trigger] h[i]).success && h[i].latency_ms == l
                && h[i].bytes_sent == 0 && h[i].bytes_received == 0,
    ensures
        spec_successes(h) == h.len(),
        spec_failures(h) == 0,
        spec_bytes_sent(h) == 0,
        spec_bytes_received(h) == 0,
        spec_sum_latency(h) == h.len() * l,
        spec_sum_latency(h) / h.len() as int == l,
        spec_sorted_latencies(h).len() == h.len(),
        spec_sorted_latencies(h).first() == l,
        spec_sorted_latencies(h).last() == l,
{
    lemma_uniform_success_counts(h, l);
    assert(spec_sum_latency(h) == l as int * h.len() as int) by (nonlinear_arith)
        requires
            spec_sum_latency(h) == h.len() * l,
    ;
    lemma_div_by_multiple(l as int, h.len() as int);
    assert(spec_sum_latency(h) / h.len() as int == l);
    lemma_u64_le_total();
    let lats = spec_latencies(h);
    lats.lemma_sort_by_ensures(u64_le());
    let sorted = spec_sorted_latencies(h);
    assert(lats.len() == h.len());
    assert(sorted.to_multiset().len() == lats.to_multiset().len());
    assert(sorted.len() == h.len());
    assert forall|i: int| 0 <= i < sorted.len() implies sorted[i] == l by {
        assert(sorted.to_multiset().contains(sorted[i]));
        assert(lats.to_multiset().contains(sorted[i]));
        assert(lats.contains(sorted[i]));
    }
}

/// The counting aggregates of a uniform all-success history.
proof fn lemma_uniform_success_counts(h: Seq<SampleSpec>, l: u64)
    requires
        forall|i: int|
            0 <= i < h.len() ==> (#[trigger] h[i]).success && h[i].latency_ms == l
                && h[i].bytes_sent == 0 && h[i].bytes_received == 0,
    ensures
        spec_successes(h) == h.len(),
        spec_bytes_sent(h) == 0,
        spec_bytes_received(h) == 0,
        spec_sum_latency(h) == h.len() * l,
    decreases h.len(),
{
    if h.len() > 0 {
        assert(forall|i: int|
            0 <= i < h.len() - 1 ==> h.drop_last()[i] == h[i]);
        lemma_uniform_success_counts(h.drop_last(), l);
        assert((h.len() - 1) * l + l == h.len() * l) by (nonlinear_arith);
    } else {
        assert(h.len() * l == 0) by (nonlinear_arith)
            requires
                h.len() == 0,
        ;
    }
}

/// A collector that has ingested nothing reports zero for every statistic and
/// an empty error histogram.
pub proof fn lemma_empty_history_zero(h: Seq<SampleSpec>)
    requires
        h.len() == 0,
    ensures
        spec_successes(h) == 0,
        spec_failures(h) == 0,
        spec_bytes_sent(h) == 0,
        spec_bytes_received(h) == 0,
        spec_sum_latency(h) == 0,
        spec_sorted_latencies(h).len() == 0,
        forall|p: int| #[trigger] spec_percentile(spec_sorted_latencies(h), p) == 0,
        forall|e: Seq<char>| #[trigger] spec_error_count(h, e) == 0,
{
    lemma_u64_le_total();
    let lats = spec_latencies(h);
    lats.lemma_sort_by_ensures(u64_le());
    assert(lats.len() == 0);
    assert(spec_sorted_latencies(h).to_multiset().len() == lats.to_multiset().len());
}

} // verus!
