//! A ring of recent duration samples with a running average, fed from the
//! monotonic clock.

use vstd::prelude::*;

verus! {

/// Sum of a sequence of duration samples (nanoseconds).
pub open spec fn sum_durs(s: Seq<u64>) -> int
    decreases s.len(),
{
    if s.len() == 0 {
        0
    } else {
        sum_durs(s.drop_last()) + s.last()
    }
}

proof fn lemma_sum_durs_bound(s: Seq<u64>)
    ensures
        0 <= sum_durs(s) <= s.len() * u64::MAX,
    decreases s.len(),
{
    if s.len() > 0 {
        lemma_sum_durs_bound(s.drop_last());
    }
}

#[verifier::external_type_specification]
#[verifier::external_body]
pub struct ExInstant(std::time::Instant);

/// Relies on `std::time::Instant::now`: a reading of the monotonic clock.
/// Nothing is assumed of the value.
#[verifier::external_body]
fn instant_now() -> std::time::Instant {
    std::time::Instant::now()
}

/// Relies on `std::time::Instant::elapsed`: the time since the reading.
/// Nothing is assumed of the value.
#[verifier::external_body]
fn instant_elapsed(earlier: &std::time::Instant) -> core::time::Duration {
    earlier.elapsed()
}

/// Relies on `core::time::Duration::as_nanos`: the duration in whole
/// nanoseconds.  Nothing is assumed of the value.
#[verifier::external_body]
fn duration_as_nanos(d: &core::time::Duration) -> u128 {
    d.as_nanos()
}

/// Keeps the last `durs.len()` duration samples, in nanoseconds, and hands
/// out their average.
pub struct Timer {
    pub start: Option<std::time::Instant>,
    pub durs: Vec<u64>,
    pub i: usize,
    pub enabled: bool,
}

impl Timer {
    /// The ring is nonempty and the cursor stays inside it.
    pub open spec fn wf(self) -> bool {
        &&& self.durs.len() >= 1
        &&& self.i < self.durs.len()
    }

    /// A timer with `size` zeroed samples.
    pub fn new(size: usize) -> (t: Timer)
        requires
            size >= 1,
        ensures
            t.wf(),
            t.durs@.len() == size,
            forall|k: int| 0 <= k < size ==> #[trigger] t.durs@[k] == 0,
            t.i == 0,
            t.start is None,
            t.enabled,
    {
        let mut durs: Vec<u64> = Vec::new();
        let mut k: usize = 0;
        while k < size
            invariant
                k <= size,
                durs@.len() == k,
                forall|j: int| 0 <= j < k ==> #[trigger] durs@[j] == 0,
            decreases size - k,
        {
            durs.push(0);
            k += 1;
        }
        Timer { start: None, durs, i: 0, enabled: true }
    }

    /// Records a sample, overwriting the oldest slot.
    pub fn push(&mut self, dur: u64)
        requires
            old(self).wf(),
        ensures
            final (self).wf(),
            final (self).durs@.len() == old(self).durs@.len(),
            final (self).i == (old(self).i + 1) % (old(self).durs@.len() as int),
            final (self).durs@ == old(self).durs@.update(final (self).i as int, dur),
            final (self).enabled == old(self).enabled,
            final (self).start == old(self).start,
    {
        self.i = (self.i + 1) % self.durs.len();
        self.durs[self.i] = dur;
    }

    /// Starts a measurement (when enabled).
    pub fn start(&mut self)
        requires
            old(self).wf(),
        ensures
            final (self).wf(),
            final (self).durs == old(self).durs,
            final (self).i == old(self).i,
            final (self).enabled == old(self).enabled,
            old(self).enabled ==> final (self).start is Some,
            !old(self).enabled ==> final (self).start == old(self).start,
    {
        if self.enabled {
            self.start = Some(instant_now());
        }
    }

    /// Ends a measurement and records the elapsed time as a sample (when
    /// enabled and a measurement was running); nanoseconds beyond the range
    /// of a sample saturate.
    pub fn stop(&mut self)
        requires
            old(self).wf(),
        ensures
            final (self).wf(),
            final (self).durs@.len() == old(self).durs@.len(),
            final (self).enabled == old(self).enabled,
            old(self).enabled && old(self).start is Some ==> final (self).i == (old(self).i + 1) % (
            old(self).durs@.len() as int) && (exists|d: u64|
                final (self).durs@ == old(self).durs@.update(final (self).i as int, d)) && final (
            self).start is None,
            !(old(self).enabled && old(self).start is Some) ==> final (self).durs == old(self).durs
                && final (self).i == old(self).i && final (self).start == old(self).start,
    {
        if self.enabled {
            let prev = self.start.take();
            if let Some(started) = prev {
                let d = instant_elapsed(&started);
                let nanos = duration_as_nanos(&d);
                let sample: u64 = if nanos > u64::MAX as u128 {
                    u64::MAX
                } else {
                    nanos as u64
                };
                self.push(sample);
                proof {
                    assert(self.durs@ == old(self).durs@.update(self.i as int, sample));
                }
            }
        }
    }

    /// The average of the kept samples, rounded down.
    pub fn avg(&self) -> (r: u64)
        requires
            self.wf(),
        ensures
            r == sum_durs(self.durs@) / (self.durs@.len() as int),
    {
        let mut total: u128 = 0;
        let mut k: usize = 0;
        proof {
            assert(self.durs@.take(0) =~= Seq::<u64>::empty());
        }
        while k < self.durs.len()
            invariant
                k <= self.durs@.len(),
                total == sum_durs(self.durs@.take(k as int)),
                0 <= total <= k * u64::MAX,
            decreases self.durs@.len() - k,
        {
            proof {
                assert(self.durs@.take(k + 1).drop_last() =~= self.durs@.take(k as int));
            }
            total = total + self.durs[k] as u128;
            k += 1;
        }
        proof {
            assert(self.durs@.take(self.durs@.len() as int) =~= self.durs@);
            lemma_sum_durs_bound(self.durs@);
            vstd::arithmetic::div_mod::lemma_div_pos_is_pos(sum_durs(self.durs@), self.durs@.len() as int);
            vstd::arithmetic::div_mod::lemma_div_is_ordered(
                sum_durs(self.durs@),
                self.durs@.len() * u64::MAX,
                self.durs@.len() as int,
            );
            vstd::arithmetic::div_mod::lemma_div_multiples_vanish(
                u64::MAX as int,
                self.durs@.len() as int,
            );
        }
        (total / (self.durs.len() as u128)) as u64
    }
}

} // verus!
