//! Windowed min/max filter (Kathleen Nichols' algorithm), as used by BBR to track the
//! maximum delivery rate and the minimum round-trip time over a window of rounds.
//!
//! The filter keeps the best, second best and third best samples seen in the window.
//! A new best sample makes the earlier ones worthless, so the filter restarts from it;
//! the second and third choices are refreshed as the window advances without a new
//! best.

use vstd::prelude::*;

verus! {

/// One measurement: when (a round-trip count) and what.
#[derive(Debug, Copy, Clone)]
pub struct MinMaxSample {
    /// Round trip count.
    pub time: u32,
    /// Sample value.
    pub value: u32,
}

impl Default for MinMaxSample {
    fn default() -> (s: MinMaxSample)
        ensures
            s.time == 0,
            s.value == 0,
    {
        MinMaxSample { time: 0, value: 0 }
    }
}

/// The filter state.
#[derive(Debug)]
pub struct MinMax {
    /// The max lasting time window to pick up the best sample.
    pub window: u32,
    /// The best, second best, third best samples.
    pub samples: [MinMaxSample; 3],
}

/// All three choices set to `s`.
pub open spec fn filled(window: u32, s: MinMaxSample) -> MinMax {
    MinMax { window, samples: [s, s, s] }
}

/// `m` with the samples moved one place towards the front and `s` as the third.
pub open spec fn shifted(m: MinMax, s: MinMaxSample) -> MinMax {
    MinMax { window: m.window, samples: [m.samples[1], m.samples[2], s] }
}

/// How far `t` lies after time `from`, or zero when it does not.
pub open spec fn elapsed(t: u32, from: u32) -> int {
    if t >= from {
        t - from
    } else {
        0
    }
}

/// As time advances, the 1st, 2nd and 3rd choices after sample `s` was considered.
pub open spec fn subwin_update_spec(m: MinMax, s: MinMaxSample) -> MinMax {
    let dt = elapsed(s.time, m.samples[0].time);
    if dt > m.window {
        // A whole window passed without a new best: the 2nd choice becomes the best,
        // the 3rd the 2nd, and the new sample the 3rd; once more if the new best is
        // also out of the window.
        let m1 = shifted(m, s);
        if elapsed(s.time, m1.samples[0].time) > m.window {
            shifted(m1, s)
        } else {
            m1
        }
    } else if m.samples[1].time == m.samples[0].time && dt > m.window / 4 {
        // A quarter of the window passed without a new sample: take a 2nd choice
        // from the 2nd quarter of the window.
        MinMax { window: m.window, samples: [m.samples[0], s, s] }
    } else if m.samples[2].time == m.samples[1].time && dt > m.window / 2 {
        // Half the window passed: take a 3rd choice from the last half.
        MinMax { window: m.window, samples: [m.samples[0], m.samples[1], s] }
    } else {
        m
    }
}

/// The filter after a measurement `value` at `time`, tracking the maximum.
pub open spec fn update_max_spec(m: MinMax, time: u32, value: u32) -> MinMax {
    let s = MinMaxSample { time, value };
    if time < m.samples[2].time {
        m
    } else if m.samples[0].value == 0 || value >= m.samples[0].value || elapsed(
        time,
        m.samples[2].time,
    ) > m.window {
        filled(m.window, s)
    } else if value >= m.samples[1].value {
        subwin_update_spec(MinMax { window: m.window, samples: [m.samples[0], s, s] }, s)
    } else if value >= m.samples[2].value {
        subwin_update_spec(MinMax { window: m.window, samples: [m.samples[0], m.samples[1], s] }, s)
    } else {
        subwin_update_spec(m, s)
    }
}

/// The filter after a measurement `value` at `time`, tracking the minimum.
pub open spec fn update_min_spec(m: MinMax, time: u32, value: u32) -> MinMax {
    let s = MinMaxSample { time, value };
    if time < m.samples[2].time {
        m
    } else if m.samples[0].value == 0 || value <= m.samples[0].value || elapsed(
        time,
        m.samples[2].time,
    ) > m.window {
        filled(m.window, s)
    } else if value <= m.samples[1].value {
        subwin_update_spec(MinMax { window: m.window, samples: [m.samples[0], s, s] }, s)
    } else if value <= m.samples[2].value {
        subwin_update_spec(MinMax { window: m.window, samples: [m.samples[0], m.samples[1], s] }, s)
    } else {
        subwin_update_spec(m, s)
    }
}

/// The samples are in the order they were taken.
pub open spec fn times_ordered(m: MinMax) -> bool {
    m.samples[0].time <= m.samples[1].time <= m.samples[2].time
}

/// A maximum filter: best, then second best, then third best.
pub open spec fn max_ordered(m: MinMax) -> bool {
    times_ordered(m) && m.samples[0].value >= m.samples[1].value >= m.samples[2].value
}

/// A minimum filter: best, then second best, then third best.
pub open spec fn min_ordered(m: MinMax) -> bool {
    times_ordered(m) && m.samples[0].value <= m.samples[1].value <= m.samples[2].value
}

/// Every update of a maximum filter keeps its choices ordered by time and by value,
/// the best is at least every sample that was taken in time order, and a sample
/// older than the third choice changes nothing.
pub proof fn lemma_update_max_keeps_order(m: MinMax, time: u32, value: u32)
    requires
        max_ordered(m),
    ensures
        max_ordered(update_max_spec(m, time, value)),
        time >= m.samples[2].time ==> update_max_spec(m, time, value).samples[0].value >= value,
        time < m.samples[2].time ==> update_max_spec(m, time, value) == m,
{
}

/// Every update of a minimum filter keeps its choices ordered by time and by value,
/// the best is at most every sample that was taken in time order, and a sample older
/// than the third choice changes nothing.
pub proof fn lemma_update_min_keeps_order(m: MinMax, time: u32, value: u32)
    requires
        min_ordered(m),
    ensures
        min_ordered(update_min_spec(m, time, value)),
        time >= m.samples[2].time ==> update_min_spec(m, time, value).samples[0].value <= value,
        time < m.samples[2].time ==> update_min_spec(m, time, value) == m,
{
}

/// After an in-order update of a maximum filter, the best choice is a sample that was
/// taken no later than the new one and at most a window before it, and its value is the
/// largest of the new sample and of every earlier choice that lies within the window of
/// the new sample's time: a best that left the window gives way to the next choice still
/// in it.
pub proof fn lemma_update_max_best_in_window(m: MinMax, time: u32, value: u32)
    requires
        max_ordered(m),
        time >= m.samples[2].time,
    ensures
        ({
            let r = update_max_spec(m, time, value);
            let b = r.samples[0];
            &&& b == (MinMaxSample { time, value }) || b == m.samples[0] || b == m.samples[1]
                || b == m.samples[2]
            &&& b.time <= time
            &&& time - b.time <= m.window
            &&& b.value >= value
            &&& forall|i: int|
                0 <= i < 3 && time - m.samples[i].time <= m.window ==> b.value
                    >= #[trigger] m.samples[i].value
        }),
{
}

/// After an in-order update of a minimum filter, the best choice is a sample that was
/// taken no later than the new one and at most a window before it, and its value is at
/// most the new sample's. Once the filter holds a best (a zero best counts as none, and
/// the filter restarts from the new sample), it is also the smallest of every earlier
/// choice that lies within the window of the new sample's time: a best that left the
/// window gives way to the next choice still in it.
pub proof fn lemma_update_min_best_in_window(m: MinMax, time: u32, value: u32)
    requires
        min_ordered(m),
        time >= m.samples[2].time,
    ensures
        ({
            let r = update_min_spec(m, time, value);
            let b = r.samples[0];
            &&& b == (MinMaxSample { time, value }) || b == m.samples[0] || b == m.samples[1]
                || b == m.samples[2]
            &&& b.time <= time
            &&& time - b.time <= m.window
            &&& b.value <= value
            &&& m.samples[0].value != 0 ==> forall|i: int|
                0 <= i < 3 && time - m.samples[i].time <= m.window ==> b.value
                    <= #[trigger] m.samples[i].value
        }),
{
}

impl MinMax {
    /// A filter over `window` rounds with all choices empty.
    pub fn new(window: u32) -> (m: MinMax)
        ensures
            m == filled(window, MinMaxSample { time: 0, value: 0 }),
    {
        let empty = MinMaxSample::default();
        MinMax { window, samples: [empty, empty, empty] }
    }

    /// Set window size.
    pub fn set_window(&mut self, window: u32)
        ensures
            final(self).window == window,
            final(self).samples == old(self).samples,
    {
        self.window = window;
    }

    /// Reset all samples to the given sample.
    pub fn reset(&mut self, sample: MinMaxSample)
        ensures
            *final(self) == filled(old(self).window, sample),
    {
        self.samples = [sample, sample, sample];
    }

    /// As time advances, update the 1st, 2nd, and 3rd choices.
    fn subwin_update(&mut self, sample: MinMaxSample)
        ensures
            *final(self) == subwin_update_spec(*old(self), sample),
    {
        let dt = sample.time.saturating_sub(self.samples[0].time);
        if dt > self.window {
            // Passed entire window without a new sample so make 2nd choice the new
            // sample and 3rd choice the new 2nd choice. We may have to iterate this
            // since our 2nd choice may also be outside the window (we checked on
            // entry that the third choice was in the window).
            self.samples = [self.samples[1], self.samples[2], sample];
            if sample.time.saturating_sub(self.samples[0].time) > self.window {
                self.samples = [self.samples[1], self.samples[2], sample];
            }
        } else if self.samples[1].time == self.samples[0].time && dt > self.window / 4 {
            // We've passed a quarter of the window without a new sample so take a
            // 2nd choice from the 2nd quarter of the window.
            self.samples = [self.samples[0], sample, sample];
        } else if self.samples[2].time == self.samples[1].time && dt > self.window / 2 {
            // We've passed half the window without finding a new sample so take a
            // 3rd choice from the last half of the window.
            self.samples = [self.samples[0], self.samples[1], sample];
        }
    }

    /// Check if new measurement updates the 1st, 2nd or 3rd choice max.
    pub fn update_max(&mut self, time: u32, value: u32)
        ensures
            *final(self) == update_max_spec(*old(self), time, value),
    {
        if time < self.samples[2].time {
            // Time should be monotonically increasing.
            return;
        }
        let sample = MinMaxSample { time, value };
        if self.samples[0].value == 0  // uninitialised
         || sample.value >= self.samples[0].value  // found new max?
         || sample.time.saturating_sub(self.samples[2].time) > self.window
        // nothing left in window?
        {
            self.reset(sample);  // forget earlier samples
            return;
        }
        if sample.value >= self.samples[1].value {
            self.samples = [self.samples[0], sample, sample];
        } else if sample.value >= self.samples[2].value {
            self.samples = [self.samples[0], self.samples[1], sample];
        }
        self.subwin_update(sample);
    }

    /// Check if new measurement updates the 1st, 2nd or 3rd choice min.
    pub fn update_min(&mut self, time: u32, value: u32)
        ensures
            *final(self) == update_min_spec(*old(self), time, value),
    {
        if time < self.samples[2].time {
            // Time should be monotonically increasing.
            return;
        }
        let sample = MinMaxSample { time, value };
        if self.samples[0].value == 0  // uninitialised
         || sample.value <= self.samples[0].value  // found new min?
         || sample.time.saturating_sub(self.samples[2].time) > self.window
        // nothing left in window?
        {
            self.reset(sample);  // forget earlier samples
            return;
        }
        if sample.value <= self.samples[1].value {
            self.samples = [self.samples[0], sample, sample];
        } else if sample.value <= self.samples[2].value {
            self.samples = [self.samples[0], self.samples[1], sample];
        }
        self.subwin_update(sample);
    }

    /// Get the min/max value.
    pub fn get(&self) -> (v: u32)
        ensures
            v == self.samples[0].value,
    {
        self.samples[0].value
    }
}

impl Default for MinMax {
    fn default() -> (m: MinMax)
        ensures
            m == filled(10, MinMaxSample { time: 0, value: 0 }),
    {
        // The default window for BBR is 10 round trips.
        let empty = MinMaxSample::default();
        MinMax { window: 10, samples: [empty, empty, empty] }
    }
}

} // verus!
