//! The mathematical model of a resampler: what it holds, what it yields next
//! and how it moves on.

use vstd::prelude::*;
use crate::sample::{lerp, Sample, SILENCE};
use crate::ticks::{floor_index, position_limit, stepped};

verus! {

/// The state of a resampler.
pub struct Playback {
    /// The source samples.
    pub source: Seq<Sample>,
    /// Ticks per source sample: the output sample rate.
    pub rate: nat,
    /// Ticks by which both positions advance per produced sample: the input
    /// sample rate. The increment is `step / rate` source samples.
    pub step: nat,
    /// The position of the first interpolation point.
    pub cursor_a: nat,
    /// The position of the second interpolation point.
    pub cursor_b: nat,
    /// First index of the loop region.
    pub loop_start: nat,
    /// End of the loop region, itself outside it; zero when nothing loops.
    pub loop_end: nat,
}

impl Playback {
    /// What every resampler satisfies.
    pub open spec fn valid(self) -> bool {
        &&& self.rate > 0
        &&& self.source.len() <= usize::MAX
        &&& self.loop_start <= self.loop_end <= usize::MAX
        &&& self.cursor_a <= position_limit(self.rate)
        &&& self.cursor_b <= position_limit(self.rate)
    }

    /// Whether playback wraps at `loop_end`.
    pub open spec fn looping(self) -> bool {
        self.loop_end != 0
    }

    /// The length of the loop region.
    pub open spec fn loop_span(self) -> nat {
        (self.loop_end - self.loop_start) as nat
    }

    /// Whether playback has run off the end of a source that does not loop.
    pub open spec fn exhausted(self) -> bool {
        !self.looping() && floor_index(self.cursor_a, self.rate) >= self.source.len()
    }

    /// The source sample at `index`, and silence past the end of the source.
    pub open spec fn sample_at(self, index: nat) -> int {
        if index < self.source.len() {
            self.source[index as int] as int
        } else {
            SILENCE as int
        }
    }

    /// The sample that is produced in this state.
    pub open spec fn output(self) -> int {
        if self.exhausted() {
            SILENCE as int
        } else {
            lerp(
                self.sample_at(floor_index(self.cursor_a, self.rate)),
                self.sample_at(floor_index(self.cursor_b, self.rate)),
                self.cursor_a as int % self.rate as int,
                self.rate as int,
            )
        }
    }

    /// The state after one sample was produced. An exhausted resampler stays
    /// as it is.
    pub open spec fn next(self) -> Playback {
        if self.exhausted() {
            self
        } else {
            Playback {
                cursor_a: stepped(
                    self.cursor_a,
                    self.step,
                    self.rate,
                    self.loop_start,
                    self.loop_end,
                ),
                cursor_b: stepped(
                    self.cursor_b,
                    self.step,
                    self.rate,
                    self.loop_start,
                    self.loop_end,
                ),
                ..self
            }
        }
    }

    /// The state after `n` samples were produced.
    pub open spec fn after(self, n: nat) -> Playback
        decreases n,
    {
        if n == 0 {
            self
        } else {
            self.after((n - 1) as nat).next()
        }
    }

    /// The same configuration, back at the start of the source.
    pub open spec fn restart(self) -> Playback {
        Playback { cursor_a: 0, cursor_b: self.step, ..self }
    }
}

/// The state of a new resampler. The loop bounds are taken in either order.
pub open spec fn initial(
    source: Seq<Sample>,
    output_sample_rate: nat,
    input_sample_rate: nat,
    loop_start: nat,
    loop_end: nat,
) -> Playback {
    Playback {
        source,
        rate: output_sample_rate,
        step: input_sample_rate,
        cursor_a: 0,
        cursor_b: input_sample_rate,
        loop_start: if loop_end < loop_start { loop_end } else { loop_start },
        loop_end: if loop_end < loop_start { loop_start } else { loop_end },
    }
}

} // verus!
