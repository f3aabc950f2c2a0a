//! Per-device time series: a bounded first-in first-out buffer of samples.
use vstd::prelude::*;
use std::collections::VecDeque;
use crate::parser::GpuSample;

verus! {

/// A device sample and the time it was stored, in milliseconds on the
/// caller's monotonic clock.
#[derive(Debug, Clone, Copy)]
pub struct TimestampedSample {
    pub sample: GpuSample,
    pub timestamp: u64,
}

/// Which metric of a sample a history query reads.
#[derive(Debug, Clone, Copy, PartialEq, Eq)]
pub enum Metric {
    Power,
    GpuTemp,
    MemTemp,
    SmUtil,
    MemUtil,
    EncUtil,
    DecUtil,
    JpgUtil,
    OfaUtil,
    MemClock,
    GpuClock,
}

pub open spec fn metric_of(m: Metric, s: GpuSample) -> Option<u32> {
    match m {
        Metric::Power => s.power_w,
        Metric::GpuTemp => s.gpu_temp_c,
        Metric::MemTemp => s.mem_temp_c,
        Metric::SmUtil => s.sm_util,
        Metric::MemUtil => s.mem_util,
        Metric::EncUtil => s.enc_util,
        Metric::DecUtil => s.dec_util,
        Metric::JpgUtil => s.jpg_util,
        Metric::OfaUtil => s.ofa_util,
        Metric::MemClock => s.mem_clock_mhz,
        Metric::GpuClock => s.gpu_clock_mhz,
    }
}

impl Metric {
    /// The value of this metric in `s`.
    pub fn of(&self, s: &GpuSample) -> (r: Option<u32>)
        ensures
            r == metric_of(*self, *s),
    {
        match self {
            Metric::Power => s.power_w,
            Metric::GpuTemp => s.gpu_temp_c,
            Metric::MemTemp => s.mem_temp_c,
            Metric::SmUtil => s.sm_util,
            Metric::MemUtil => s.mem_util,
            Metric::EncUtil => s.enc_util,
            Metric::DecUtil => s.dec_util,
            Metric::JpgUtil => s.jpg_util,
            Metric::OfaUtil => s.ofa_util,
            Metric::MemClock => s.mem_clock_mhz,
            Metric::GpuClock => s.gpu_clock_mhz,
        }
    }
}

/// Timestamps never decrease from older to newer entries.
pub open spec fn time_ordered(h: Seq<TimestampedSample>) -> bool {
    forall|i: int, j: int| 0 <= i < j < h.len() ==> h[i].timestamp <= h[j].timestamp
}

/// The contents of a history of capacity `cap` after storing `x`: the
/// oldest entry leaves once the history is full; a history of capacity zero
/// stores nothing.
pub open spec fn pushed(h: Seq<TimestampedSample>, cap: nat, x: TimestampedSample) -> Seq<
    TimestampedSample,
> {
    if cap == 0 {
        h
    } else if h.len() >= cap {
        h.drop_first().push(x)
    } else {
        h.push(x)
    }
}

/// The contents of an empty history of capacity `cap` after storing `xs` in
/// order.
pub open spec fn filled(cap: nat, xs: Seq<TimestampedSample>) -> Seq<TimestampedSample>
    decreases xs.len(),
{
    if xs.len() == 0 {
        Seq::empty()
    } else {
        pushed(filled(cap, xs.drop_last()), cap, xs.last())
    }
}

/// The values of metric `m` in `h`, oldest first, skipping samples where it
/// is absent.
pub open spec fn metric_values(h: Seq<TimestampedSample>, m: Metric) -> Seq<u32>
    decreases h.len(),
{
    if h.len() == 0 {
        Seq::empty()
    } else {
        let prev = metric_values(h.drop_last(), m);
        match metric_of(m, h.last().sample) {
            Some(v) => prev.push(v),
            None => prev,
        }
    }
}

/// How long before `now` the time `ts` was, or zero when it is not before.
pub open spec fn age_of(ts: u64, now: u64) -> u64 {
    if now >= ts {
        (now - ts) as u64
    } else {
        0
    }
}

/// Pairs of age at `now` and value of metric `m` for the samples of `h`
/// where it is present, oldest first.
pub open spec fn chart_points(h: Seq<TimestampedSample>, m: Metric, now: u64) -> Seq<(u64, u32)>
    decreases h.len(),
{
    if h.len() == 0 {
        Seq::empty()
    } else {
        let prev = chart_points(h.drop_last(), m, now);
        match metric_of(m, h.last().sample) {
            Some(v) => prev.push((age_of(h.last().timestamp, now), v)),
            None => prev,
        }
    }
}

/// The last `count` entries of `h` (all of them when there are fewer).
pub open spec fn last_n<A>(h: Seq<A>, count: nat) -> Seq<A> {
    if count >= h.len() {
        h
    } else {
        h.skip(h.len() - count)
    }
}

/// A bounded time series of one device's samples, oldest first.
#[derive(Debug)]
pub struct GpuHistory {
    samples: VecDeque<TimestampedSample>,
    max_samples: usize,
}

impl View for GpuHistory {
    type V = Seq<TimestampedSample>;

    closed spec fn view(&self) -> Seq<TimestampedSample> {
        self.samples@
    }
}

impl GpuHistory {
    /// The most entries the history holds.
    pub closed spec fn capacity(&self) -> nat {
        self.max_samples as nat
    }

    /// The history holds no more than its capacity, in time order.
    pub closed spec fn wf(&self) -> bool {
        &&& self.samples@.len() <= self.max_samples
        &&& time_ordered(self.samples@)
    }

    /// A history never holds more than its capacity, and its timestamps never
    /// decrease.
    pub proof fn lemma_wf(&self)
        requires
            self.wf(),
        ensures
            self@.len() <= self.capacity(),
            time_ordered(self@),
    {
    }

    /// The time of the newest entry.
    pub fn last_timestamp(&self) -> (r: Option<u64>)
        ensures
            match r {
                Some(t) => self@.len() > 0 && t == self@.last().timestamp,
                None => self@.len() == 0,
            },
    {
        let n: usize = self.samples.len();
        if n == 0 {
            None
        } else {
            Some(self.samples[n - 1].timestamp)
        }
    }

    pub fn new(max_samples: usize) -> (r: Self)
        ensures
            r.wf(),
            r@ == Seq::<TimestampedSample>::empty(),
            r.capacity() == max_samples,
    {
        GpuHistory { samples: VecDeque::new(), max_samples }
    }

    /// Stores `sample`, taken at `timestamp`, dropping the oldest entry when
    /// the history is full.
    pub fn push(&mut self, sample: GpuSample, timestamp: u64)
        requires
            old(self).wf(),
            old(self)@.len() > 0 ==> old(self)@.last().timestamp <= timestamp,
        ensures
            final(self).wf(),
            final(self).capacity() == old(self).capacity(),
            final(self)@ == pushed(
                old(self)@,
                old(self).capacity(),
                TimestampedSample { sample, timestamp },
            ),
    {
        if self.max_samples == 0 {
            return;
        }
        let ghost h0 = self.samples@;
        if self.samples.len() >= self.max_samples {
            self.samples.pop_front();
        }
        self.samples.push_back(TimestampedSample { sample, timestamp });
        proof {
            let h = self.samples@;
            assert forall|i: int, j: int| 0 <= i < j < h.len() implies h[i].timestamp
                <= h[j].timestamp by {
                if h0.len() >= self.max_samples {
                    if j < h.len() - 1 {
                        assert(h[i] == h0[i + 1] && h[j] == h0[j + 1]);
                    } else {
                        assert(h[i] == h0[i + 1]);
                        assert(h0[i + 1].timestamp <= h0.last().timestamp);
                    }
                } else {
                    if j < h.len() - 1 {
                        assert(h[i] == h0[i] && h[j] == h0[j]);
                    } else {
                        assert(h[i] == h0[i]);
                        assert(h0[i].timestamp <= h0.last().timestamp);
                    }
                }
            }
        }
    }

    /// The newest sample.
    pub fn latest(&self) -> (r: Option<&GpuSample>)
        ensures
            match r {
                Some(s) => self@.len() > 0 && *s == self@.last().sample,
                None => self@.len() == 0,
            },
    {
        let n: usize = self.samples.len();
        if n == 0 {
            None
        } else {
            Some(&self.samples[n - 1].sample)
        }
    }

    pub fn len(&self) -> (r: usize)
        ensures
            r == self@.len(),
    {
        self.samples.len()
    }

    pub fn is_empty(&self) -> (r: bool)
        ensures
            r == (self@.len() == 0),
    {
        self.samples.len() == 0
    }

    /// The values of metric `m` among the last `count` samples, oldest first.
    pub fn recent_values(&self, count: usize, m: Metric) -> (r: Vec<u32>)
        ensures
            r@ == metric_values(last_n(self@, count as nat), m),
    {
        let n: usize = self.samples.len();
        let start: usize = if count >= n {
            0
        } else {
            n - count
        };
        let ghost h = self@;
        assert(last_n(h, count as nat) =~= h.subrange(start as int, n as int));
        let mut out: Vec<u32> = Vec::new();
        let mut i: usize = start;
        assert(h.subrange(start as int, start as int) =~= Seq::<TimestampedSample>::empty());
        while i < n
            invariant
                h == self@,
                n == h.len(),
                start <= i <= n,
                out@ == metric_values(h.subrange(start as int, i as int), m),
            decreases n - i,
        {
            let ghost next = h.subrange(start as int, i + 1);
            assert(next.drop_last() =~= h.subrange(start as int, i as int));
            if let Some(v) = m.of(&self.samples[i].sample) {
                out.push(v);
            }
            i += 1;
        }
        out
    }

    /// For each sample where metric `m` is present, its age at `now` and the
    /// value, oldest first.
    pub fn chart_data(&self, m: Metric, now: u64) -> (r: Vec<(u64, u32)>)
        ensures
            r@ == chart_points(self@, m, now),
    {
        let n: usize = self.samples.len();
        let ghost h = self@;
        let mut out: Vec<(u64, u32)> = Vec::new();
        let mut i: usize = 0;
        while i < n
            invariant
                h == self@,
                n == h.len(),
                i <= n,
                out@ == chart_points(h.take(i as int), m, now),
            decreases n - i,
        {
            let ghost next = h.take(i + 1);
            assert(next.drop_last() =~= h.take(i as int));
            let ts = self.samples[i];
            if let Some(v) = m.of(&ts.sample) {
                let age: u64 = if now >= ts.timestamp {
                    now - ts.timestamp
                } else {
                    0
                };
                out.push((age, v));
            }
            i += 1;
        }
        assert(h.take(n as int) =~= h);
        out
    }
}

/// Ring buffer: storing `xs` one by one into an empty history of capacity
/// `cap` leaves exactly the last `cap` of them (all of them when there are
/// fewer), oldest first.
pub proof fn lemma_filled_keeps_last(cap: nat, xs: Seq<TimestampedSample>)
    requires
        cap > 0,
    ensures
        filled(cap, xs) == last_n(xs, cap),
    decreases xs.len(),
{
    if xs.len() > 0 {
        let prev = xs.drop_last();
        lemma_filled_keeps_last(cap, prev);
        if prev.len() >= cap {
            assert(last_n(prev, cap).drop_first().push(xs.last()) =~= last_n(xs, cap));
        } else {
            assert(last_n(prev, cap).push(xs.last()) =~= last_n(xs, cap));
        }
    }
}

/// Ring buffer: after `cap + k` samples a history of capacity `cap` holds
/// `cap` entries, and the oldest is the `(k + 1)`-th stored.
pub proof fn lemma_ring_buffer(cap: nat, xs: Seq<TimestampedSample>, k: nat)
    requires
        cap > 0,
        xs.len() == cap + k,
    ensures
        filled(cap, xs).len() == cap,
        filled(cap, xs)[0] == xs[k as int],
{
    lemma_filled_keeps_last(cap, xs);
}

/// A history of capacity zero stays empty.
pub proof fn lemma_zero_capacity(xs: Seq<TimestampedSample>)
    ensures
        filled(0, xs).len() == 0,
    decreases xs.len(),
{
    if xs.len() > 0 {
        lemma_zero_capacity(xs.drop_last());
    }
}

} // verus!
