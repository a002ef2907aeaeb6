//! The sliding window of recent upstream latencies and the p95 deadline
//! after which a hedged request is sent.

use std::collections::VecDeque;
use vstd::prelude::*;
use vstd::relations::{sorted_by, total_ordering};
use vstd::seq_lib::lemma_sorted_unique;

verus! {

broadcast use vstd::seq_lib::group_to_multiset_ensures;

/// Number of most recent latency samples that the window keeps.
pub const WINDOW_CAPACITY: usize = 100;

/// With fewer samples than this the default deadline applies.
pub const MIN_SAMPLES: usize = 10;

/// Deadline used while the window holds too few samples.
pub const DEFAULT_TIMEOUT_MS: u64 = 2500;

/// Lower bound of the p95 deadline.
pub const MIN_TIMEOUT_MS: u64 = 500;

/// Upper bound of the p95 deadline.
pub const MAX_TIMEOUT_MS: u64 = 5000;

/// The order by which latencies are ranked.
pub open spec fn latency_leq() -> spec_fn(u64, u64) -> bool {
    |a: u64, b: u64| a <= b
}

/// Rank of the 95th percentile in a window of `len` samples: `floor(len * 0.95)`.
pub open spec fn p95_rank(len: nat) -> int {
    (len * 19 / 20) as int
}

/// `v` bounded to `[MIN_TIMEOUT_MS, MAX_TIMEOUT_MS]`.
pub open spec fn clamp_timeout(v: u64) -> u64 {
    if v < MIN_TIMEOUT_MS {
        MIN_TIMEOUT_MS
    } else if v > MAX_TIMEOUT_MS {
        MAX_TIMEOUT_MS
    } else {
        v
    }
}

/// The hedging deadline for a window holding `samples`.
pub open spec fn p95_timeout(samples: Seq<u64>) -> u64 {
    if samples.len() < MIN_SAMPLES {
        DEFAULT_TIMEOUT_MS
    } else {
        clamp_timeout(samples.sort_by(latency_leq())[p95_rank(samples.len())])
    }
}

/// The window after one latency is recorded into a window holding `w`.
pub open spec fn record_spec(w: Seq<u64>, latency_ms: u64) -> Seq<u64> {
    if w.len() >= WINDOW_CAPACITY {
        w.drop_first().push(latency_ms)
    } else {
        w.push(latency_ms)
    }
}

/// The window after recording every latency of `xs`, in order, into an empty one.
pub open spec fn replay(xs: Seq<u64>) -> Seq<u64>
    decreases xs.len(),
{
    if xs.len() == 0 {
        Seq::empty()
    } else {
        record_spec(replay(xs.drop_last()), xs.last())
    }
}

/// The last `min(n, xs.len())` elements of `xs`.
pub open spec fn most_recent(xs: Seq<u64>, n: nat) -> Seq<u64> {
    if xs.len() <= n {
        xs
    } else {
        xs.skip(xs.len() - n)
    }
}

/// Recent upstream latencies in milliseconds, oldest first, at most
/// `WINDOW_CAPACITY` of them.
pub struct LatencyWindow {
    samples: VecDeque<u64>,
}

impl View for LatencyWindow {
    type V = Seq<u64>;

    closed spec fn view(&self) -> Seq<u64> {
        self.samples@
    }
}

impl LatencyWindow {
    #[verifier::type_invariant]
    spec fn bounded(self) -> bool {
        self.samples@.len() <= WINDOW_CAPACITY
    }

    /// An empty window.
    pub fn new() -> (w: Self)
        ensures
            w@ == Seq::<u64>::empty(),
    {
        LatencyWindow { samples: VecDeque::with_capacity(WINDOW_CAPACITY) }
    }

    /// Records one latency, dropping the oldest sample when the window is full.
    pub fn record(&mut self, latency_ms: u64)
        ensures
            final(self)@ == record_spec(old(self)@, latency_ms),
            final(self)@.len() <= WINDOW_CAPACITY,
    {
        proof {
            use_type_invariant(&*self);
        }
        let mut samples: VecDeque<u64> = VecDeque::new();
        std::mem::swap(&mut samples, &mut self.samples);
        if samples.len() >= WINDOW_CAPACITY {
            samples.pop_front();
        }
        samples.push_back(latency_ms);
        proof {
            assert(samples@ =~= record_spec(old(self)@, latency_ms));
        }
        self.samples = samples;
    }

    /// Number of samples held.
    pub fn len(&self) -> (n: usize)
        ensures
            n == self@.len(),
            n <= WINDOW_CAPACITY,
    {
        proof {
            use_type_invariant(self);
        }
        self.samples.len()
    }

    /// The samples, oldest first.
    pub fn to_vec(&self) -> (v: Vec<u64>)
        ensures
            v@ == self@,
    {
        let n = self.samples.len();
        let mut v: Vec<u64> = Vec::new();
        let mut i: usize = 0;
        while i < n
            invariant
                n == self@.len(),
                i <= n,
                v@ == self@.take(i as int),
            decreases n - i,
        {
            v.push(self.samples[i]);
            i += 1;
            proof {
                assert(v@ =~= self@.take(i as int));
            }
        }
        proof {
            assert(self@.take(n as int) =~= self@);
        }
        v
    }
}

proof fn lemma_latency_leq_total()
    ensures
        total_ordering(latency_leq()),
{
}

/// The samples in ascending order.
fn sorted_samples(samples: &VecDeque<u64>) -> (out: Vec<u64>)
    ensures
        sorted_by(out@, latency_leq()),
        out@.to_multiset() == samples@.to_multiset(),
{
    let mut out: Vec<u64> = Vec::new();
    let n = samples.len();
    let mut i: usize = 0;
    proof {
        assert(samples@.take(0) =~= Seq::<u64>::empty());
        assert(out@ =~= Seq::<u64>::empty());
    }
    while i < n
        invariant
            n == samples@.len(),
            i <= n,
            sorted_by(out@, latency_leq()),
            out@.to_multiset() == samples@.take(i as int).to_multiset(),
        decreases n - i,
    {
        let x = samples[i];
        let mut p: usize = 0;
        while p < out.len() && out[p] <= x
            invariant
                p <= out@.len(),
                forall|j: int| 0 <= j < p ==> out@[j] <= x,
            decreases out@.len() - p,
        {
            p += 1;
        }
        let ghost prev = out@;
        proof {
            assert forall|j: int| p <= j < prev.len() implies x < prev[j] by {
                assert(x < prev[p as int]);
                if j > p {
                    assert(latency_leq()(prev[p as int], prev[j]));
                }
            }
        }
        out.insert(p, x);
        proof {
            assert forall|a: int, b: int| 0 <= a < b < out@.len() implies #[trigger] latency_leq()(
                out@[a],
                out@[b],
            ) by {
                if b < p {
                    assert(latency_leq()(prev[a], prev[b]));
                } else if b == p {
                } else if a < p {
                    assert(out@[b] == prev[b - 1]);
                } else if a == p {
                    assert(out@[b] == prev[b - 1]);
                } else {
                    assert(latency_leq()(prev[a - 1], prev[b - 1]));
                }
            }
            assert(samples@.take(i + 1) =~= samples@.take(i as int).push(x));
            vstd::seq_lib::to_multiset_insert(prev, p as int, x);
            vstd::seq_lib::to_multiset_build(samples@.take(i as int), x);
        }
        i += 1;
    }
    proof {
        assert(samples@.take(n as int) =~= samples@);
    }
    out
}

/// The deadline after which a hedged request is sent: 2500 ms while fewer
/// than 10 samples are known, else the 95th-percentile sample, bounded to
/// 500..=5000 ms.
pub fn get_p95_timeout(window: &LatencyWindow) -> (timeout_ms: u64)
    ensures
        timeout_ms == p95_timeout(window@),
{
    proof {
        use_type_invariant(window);
    }
    let n = window.samples.len();
    if n < MIN_SAMPLES {
        return DEFAULT_TIMEOUT_MS;
    }
    let sorted = sorted_samples(&window.samples);
    let idx = n * 19 / 20;
    proof {
        window@.lemma_sort_by_ensures(latency_leq());
        lemma_latency_leq_total();
        lemma_sorted_unique(sorted@, window@.sort_by(latency_leq()), latency_leq());
        assert(sorted@.len() == sorted@.to_multiset().len());
        assert(window@.len() == window@.to_multiset().len());
        assert(idx < n);
    }
    let p95 = sorted[idx];
    if p95 < MIN_TIMEOUT_MS {
        MIN_TIMEOUT_MS
    } else if p95 > MAX_TIMEOUT_MS {
        MAX_TIMEOUT_MS
    } else {
        p95
    }
}

/// Recording latencies one by one into an empty window leaves exactly the
/// most recent `WINDOW_CAPACITY` of them, oldest first.
pub proof fn lemma_window_keeps_most_recent(xs: Seq<u64>)
    ensures
        replay(xs) == most_recent(xs, 100),
    decreases xs.len(),
{
    if xs.len() > 0 {
        let d = xs.drop_last();
        lemma_window_keeps_most_recent(d);
        if d.len() >= WINDOW_CAPACITY {
            assert(replay(d).drop_first().push(xs.last()) =~= xs.skip(xs.len() - WINDOW_CAPACITY));
        } else {
            assert(d.push(xs.last()) =~= xs);
        }
    } else {
        assert(replay(xs) =~= xs);
    }
}

/// The deadline always lies between 500 and 5000 ms; once 10 samples are
/// known it is the 95th-percentile sample itself whenever that sample lies
/// in those bounds.
pub proof fn lemma_timeout_bounds(samples: Seq<u64>)
    ensures
        MIN_TIMEOUT_MS <= p95_timeout(samples) <= MAX_TIMEOUT_MS,
        samples.len() >= MIN_SAMPLES ==> 0 <= p95_rank(samples.len()) < samples.len(),
        samples.len() >= MIN_SAMPLES ==> samples.contains(samples.sort_by(latency_leq())[p95_rank(samples.len())]),
{
    if samples.len() >= MIN_SAMPLES {
        samples.lemma_sort_by_ensures(latency_leq());
        let sorted = samples.sort_by(latency_leq());
        let v = sorted[p95_rank(samples.len())];
        assert(sorted.len() == sorted.to_multiset().len());
        assert(samples.len() == samples.to_multiset().len());
        assert(sorted.contains(v));
    }
}

/// How many of `s` are at most `v`.
pub open spec fn count_at_most(s: Seq<u64>, v: u64) -> nat
    decreases s.len(),
{
    if s.len() == 0 {
        0
    } else {
        count_at_most(s.drop_last(), v) + (if s.last() <= v {
            1nat
        } else {
            0nat
        })
    }
}

proof fn lemma_count_bounded(s: Seq<u64>, v: u64)
    ensures
        count_at_most(s, v) <= s.len(),
    decreases s.len(),
{
    if s.len() > 0 {
        lemma_count_bounded(s.drop_last(), v);
    }
}

proof fn lemma_count_split(s: Seq<u64>, m: int, v: u64)
    requires
        0 <= m <= s.len(),
    ensures
        count_at_most(s, v) == count_at_most(s.take(m), v) + count_at_most(s.skip(m), v),
    decreases s.len(),
{
    if m == s.len() {
        assert(s.take(m) =~= s);
        assert(s.skip(m) =~= Seq::<u64>::empty());
    } else {
        lemma_count_split(s.drop_last(), m, v);
        assert(s.drop_last().take(m) =~= s.take(m));
        assert(s.skip(m).drop_last() =~= s.drop_last().skip(m));
        assert(s.skip(m).last() == s.last());
    }
}

proof fn lemma_count_all(s: Seq<u64>, v: u64)
    requires
        forall|i: int| 0 <= i < s.len() ==> s[i] <= v,
    ensures
        count_at_most(s, v) == s.len(),
    decreases s.len(),
{
    if s.len() > 0 {
        lemma_count_all(s.drop_last(), v);
    }
}

proof fn lemma_count_none(s: Seq<u64>, v: u64)
    requires
        forall|i: int| 0 <= i < s.len() ==> s[i] > v,
    ensures
        count_at_most(s, v) == 0,
    decreases s.len(),
{
    if s.len() > 0 {
        lemma_count_none(s.drop_last(), v);
    }
}

proof fn lemma_count_remove(t: Seq<u64>, j: int, v: u64)
    requires
        0 <= j < t.len(),
    ensures
        count_at_most(t, v) == count_at_most(t.remove(j), v) + (if t[j] <= v {
            1nat
        } else {
            0nat
        }),
    decreases t.len(),
{
    if j == t.len() - 1 {
        assert(t.remove(j) =~= t.drop_last());
    } else {
        lemma_count_remove(t.drop_last(), j, v);
        assert(t.remove(j).drop_last() =~= t.drop_last().remove(j));
        assert(t.remove(j).last() == t.last());
    }
}

/// Counting is the same for any arrangement of the same samples.
proof fn lemma_count_permutation(s: Seq<u64>, t: Seq<u64>, v: u64)
    requires
        s.to_multiset() == t.to_multiset(),
    ensures
        count_at_most(s, v) == count_at_most(t, v),
    decreases s.len(),
{
    assert(s.len() == s.to_multiset().len());
    assert(t.len() == t.to_multiset().len());
    if s.len() > 0 {
        let x = s.last();
        assert(s.to_multiset().contains(x)) by {
            assert(s.contains(s[s.len() - 1]));
        }
        assert(t.contains(x));
        let j = choose|j: int| 0 <= j < t.len() && t[j] == x;
        vstd::seq_lib::to_multiset_remove(s, s.len() - 1);
        vstd::seq_lib::to_multiset_remove(t, j);
        assert(s.remove(s.len() - 1) =~= s.drop_last());
        lemma_count_permutation(s.drop_last(), t.remove(j), v);
        lemma_count_remove(t, j, v);
    }
}

/// Pointwise larger samples have no more samples at most `v`.
proof fn lemma_count_pointwise(s1: Seq<u64>, s2: Seq<u64>, v: u64)
    requires
        s1.len() == s2.len(),
        forall|i: int| 0 <= i < s1.len() ==> s1[i] <= s2[i],
    ensures
        count_at_most(s2, v) <= count_at_most(s1, v),
    decreases s1.len(),
{
    if s1.len() > 0 {
        lemma_count_pointwise(s1.drop_last(), s2.drop_last(), v);
    }
}

/// The order statistic of rank `k` is monotone in the samples.
proof fn lemma_rank_monotone(s1: Seq<u64>, s2: Seq<u64>, k: int)
    requires
        s1.len() == s2.len(),
        0 <= k < s1.len(),
        forall|i: int| 0 <= i < s1.len() ==> s1[i] <= s2[i],
    ensures
        s1.sort_by(latency_leq())[k] <= s2.sort_by(latency_leq())[k],
{
    s1.lemma_sort_by_ensures(latency_leq());
    s2.lemma_sort_by_ensures(latency_leq());
    let t1 = s1.sort_by(latency_leq());
    let t2 = s2.sort_by(latency_leq());
    assert(t1.len() == t1.to_multiset().len());
    assert(t2.len() == t2.to_multiset().len());
    assert(s1.len() == s1.to_multiset().len());
    assert(s2.len() == s2.to_multiset().len());
    let v = t2[k];
    // at least k + 1 of the larger samples are at most v
    lemma_count_split(t2, k + 1, v);
    assert forall|i: int| 0 <= i < t2.take(k + 1).len() implies #[trigger] t2.take(k + 1)[i] <= v by {
        if i < k {
            assert(latency_leq()(t2[i], t2[k]));
        }
    }
    lemma_count_all(t2.take(k + 1), v);
    lemma_count_permutation(s2, t2, v);
    lemma_count_pointwise(s1, s2, v);
    lemma_count_permutation(s1, t1, v);
    if t1[k] > v {
        lemma_count_split(t1, k, v);
        assert forall|i: int| 0 <= i < t1.skip(k).len() implies #[trigger] t1.skip(k)[i] > v by {
            if i > 0 {
                assert(latency_leq()(t1[k], t1[k + i]));
            }
        }
        lemma_count_none(t1.skip(k), v);
        lemma_count_bounded(t1.take(k), v);
    }
}

/// A window whose samples are each no larger than those of another window
/// of the same size gets no later deadline.
pub proof fn lemma_timeout_monotone(s1: Seq<u64>, s2: Seq<u64>)
    requires
        s1.len() == s2.len(),
        forall|i: int| 0 <= i < s1.len() ==> s1[i] <= s2[i],
    ensures
        p95_timeout(s1) <= p95_timeout(s2),
{
    if s1.len() >= MIN_SAMPLES {
        lemma_rank_monotone(s1, s2, p95_rank(s1.len()));
    }
}

/// What the deadline is, in terms of the samples alone: 2500 ms below ten
/// samples; otherwise the sample of rank `k` in ascending order, where `k` is
/// `floor(len * 0.95)` (`20k <= 19 len < 20k + 20`), kept as it is when it
/// lies in 500..=5000 ms and moved to the nearer bound otherwise.
pub proof fn lemma_deadline_is_clamped_percentile(samples: Seq<u64>, k: int)
    requires
        0 <= k,
        20 * k <= 19 * samples.len() < 20 * k + 20,
    ensures
        samples.len() < 10 ==> p95_timeout(samples) == 2500,
        samples.len() >= 10 ==> ({
            let v = samples.sort_by(|a: u64, b: u64| a <= b)[k];
            &&& 0 <= k < samples.len()
            &&& (500 <= v <= 5000 ==> p95_timeout(samples) == v)
            &&& (v < 500 ==> p95_timeout(samples) == 500)
            &&& (v > 5000 ==> p95_timeout(samples) == 5000)
        }),
{
    assert(latency_leq() =~= (|a: u64, b: u64| a <= b));
    if samples.len() >= 10 {
        assert(p95_rank(samples.len()) == k);
    }
}

/// Recording into a window of fewer than 100 samples appends the new one;
/// recording into a full window drops exactly the oldest and appends.
pub proof fn lemma_record_slides(w: Seq<u64>, latency_ms: u64)
    requires
        w.len() <= 100,
    ensures
        w.len() < 100 ==> record_spec(w, latency_ms) == w.push(latency_ms),
        w.len() == 100 ==> record_spec(w, latency_ms) == w.subrange(1, 100).push(latency_ms),
        record_spec(w, latency_ms).len() <= 100,
        record_spec(w, latency_ms).last() == latency_ms,
{
    if w.len() == 100 {
        assert(w.drop_first() =~= w.subrange(1, 100));
    }
}

} // verus!
