//! Meter tracking the average duration of the scheduler's loop.

use vstd::prelude::*;

verus! {

/// The sum, the step count and the result after tracking a duration of `nanos`
/// nanoseconds, from the sum `sum` of `steps` steps, with the given period.
pub open spec fn track_spec(sum: int, steps: int, period: int, nanos: u128) -> (int, int, Option<int>) {
    let total = sum + nanos / 1000;
    if steps + 1 == period {
        (0, 0, Some(total / period))
    } else {
        (total, steps + 1, None)
    }
}

/// The whole microseconds of the durations, summed.
pub open spec fn total_micros(ds: Seq<u128>) -> int
    decreases ds.len(),
{
    if ds.len() == 0 {
        0
    } else {
        total_micros(ds.drop_last()) + ds.last() / 1000
    }
}

/// The state and the last result after tracking each of `ds` in turn from an
/// empty sum, with the given period.
pub open spec fn track_all(period: int, ds: Seq<u128>) -> (int, int, Option<int>)
    decreases ds.len(),
{
    if ds.len() == 0 {
        (0, 0, None)
    } else {
        let (sum, steps, _) = track_all(period, ds.drop_last());
        track_spec(sum, steps, period, ds.last())
    }
}

/// Tracking fewer durations than the period gives no average and sums them up;
/// tracking exactly `period` durations gives their average in whole microseconds
/// and starts over.
pub proof fn lemma_average_every_period(period: int, ds: Seq<u128>)
    requires
        period > 0,
        ds.len() <= period,
    ensures
        ds.len() < period ==> track_all(period, ds) == (total_micros(ds), ds.len() as int, None::<int>),
        ds.len() == period ==> track_all(period, ds) == (0int, 0int, Some(total_micros(ds) / period)),
    decreases ds.len(),
{
    if ds.len() > 0 {
        lemma_average_every_period(period, ds.drop_last());
    }
}

/// Meter summing loop durations and giving their average every `period` steps
pub struct LoopDurationMeter {
    period: usize,
    duration_micros: usize,
    num_steps: usize,
}

impl LoopDurationMeter {
    pub closed spec fn period(&self) -> usize {
        self.period
    }

    /// Microseconds summed since the last average
    pub closed spec fn sum(&self) -> usize {
        self.duration_micros
    }

    /// Steps tracked since the last average
    pub closed spec fn steps(&self) -> usize {
        self.num_steps
    }

    pub open spec fn wf(&self) -> bool {
        self.steps() < self.period()
    }

    /// Creates a meter giving an average every `period` steps.
    pub fn new(period: usize) -> (r: Self)
        requires
            period > 0,
        ensures
            r.wf(),
            r.period() == period,
            r.sum() == 0,
            r.steps() == 0,
    {
        LoopDurationMeter { period, duration_micros: 0, num_steps: 0 }
    }

    /// Tracks one loop duration of `duration_nanos` nanoseconds, counted in whole
    /// microseconds. Once `period` durations are tracked, returns their average
    /// in whole microseconds and starts over.
    pub fn track(&mut self, duration_nanos: u128) -> (r: Option<usize>)
        requires
            old(self).wf(),
            old(self).sum() + duration_nanos / 1000 <= usize::MAX,
        ensures
            final(self).wf(),
            final(self).period() == old(self).period(),
            ({
                let (sum, steps, avg) = track_spec(old(self).sum() as int, old(self).steps() as int, old(self).period() as int, duration_nanos);
                &&& final(self).sum() == sum
                &&& final(self).steps() == steps
                &&& match avg {
                    Some(a) => r == Some(a as usize),
                    None => r.is_none(),
                }
            }),
    {
        let micros = (duration_nanos / 1000) as usize;
        self.duration_micros = self.duration_micros + micros;
        self.num_steps = self.num_steps + 1;
        if self.num_steps == self.period {
            let avg = self.duration_micros / self.period;
            self.duration_micros = 0;
            self.num_steps = 0;
            Some(avg)
        } else {
            None
        }
    }
}

} // verus!
