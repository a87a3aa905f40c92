//! Fractional read positions in machine integers.
//!
//! A position is kept as a whole index and a numerator below the rate, the
//! increment likewise, so that one advance is an addition with carry and the
//! loop correction touches the index alone. The contracts relate both to the
//! tick counts of the model.

use vstd::prelude::*;
use crate::ticks::{floor_index, lemma_ticks_in_range, lemma_ticks_split, stepped, wrapped};

verus! {

/// The ratio of the input to the output sample rate, as a whole number of
/// source samples and a fraction of one.
#[derive(Clone, Copy)]
pub struct Increment {
    pub whole: u32,
    pub part: u32,
    pub rate: u32,
}

impl Increment {
    /// The fraction is a proper one.
    pub open spec fn wf(self) -> bool {
        self.part < self.rate
    }

    /// The increment in ticks.
    pub open spec fn step(self) -> nat {
        (self.whole * self.rate + self.part) as nat
    }

    /// The increment `input_sample_rate / output_sample_rate`.
    pub fn new(input_sample_rate: u32, output_sample_rate: u32) -> (inc: Increment)
        requires
            output_sample_rate > 0,
        ensures
            inc.wf(),
            inc.rate == output_sample_rate,
            inc.step() == input_sample_rate,
    {
        let whole: u32 = input_sample_rate / output_sample_rate;
        let part: u32 = input_sample_rate % output_sample_rate;
        assert(input_sample_rate == whole * output_sample_rate + part) by (nonlinear_arith)
            requires
                output_sample_rate > 0,
                whole == input_sample_rate as int / output_sample_rate as int,
                part == input_sample_rate as int % output_sample_rate as int,
        ;
        Increment { whole, part, rate: output_sample_rate }
    }
}

/// A read position: the index of a source sample and the numerator of the
/// fraction that lies past it.
#[derive(Clone, Copy)]
pub struct Position {
    pub index: u64,
    pub frac: u32,
}

impl Position {
    /// The position in ticks.
    pub open spec fn ticks(self, rate: nat) -> nat {
        (self.index * rate + self.frac) as nat
    }

    /// The position one increment further, corrected at the end of the loop
    /// region `[loop_start, loop_end)`.
    pub fn advance(self, inc: &Increment, loop_start: usize, loop_end: usize) -> (moved: Position)
        requires
            inc.wf(),
            self.frac < inc.rate,
            loop_start <= loop_end,
        ensures
            moved.frac < inc.rate,
            moved.ticks(inc.rate as nat) == stepped(
                self.ticks(inc.rate as nat),
                inc.step(),
                inc.rate as nat,
                loop_start as nat,
                loop_end as nat,
            ),
    {
        let sum: u64 = self.frac as u64 + inc.part as u64;
        let carry: bool = sum >= inc.rate as u64;
        let rest: u32 = if carry {
            (sum - inc.rate as u64) as u32
        } else {
            sum as u32
        };
        let raw: u128 = self.index as u128 + inc.whole as u128 + if carry {
            1u128
        } else {
            0u128
        };
        let looped: u128 = if loop_end != 0 && raw >= loop_end as u128 {
            (raw - (loop_end - loop_start) as u128) as u128
        } else {
            raw
        };
        let held: bool = looped <= u64::MAX as u128;
        let index: u64 = if held {
            looped as u64
        } else {
            u64::MAX
        };
        let frac: u32 = if held {
            rest
        } else {
            inc.rate - 1
        };
        proof {
            let rate = inc.rate as nat;
            let before = self.ticks(rate);
            let span = (loop_end - loop_start) as nat;
            assert(before + inc.step() == raw * rate + rest) by (nonlinear_arith)
                requires
                    before == self.index * rate + self.frac,
                    inc.step() == inc.whole * rate + inc.part,
                    raw == self.index + inc.whole + if carry { 1int } else { 0int },
                    rest == self.frac + inc.part - if carry { rate as int } else { 0int },
            ;
            let ahead = (before + inc.step()) as nat;
            lemma_ticks_split(raw as nat, rest as nat, rate);
            assert(ahead == (raw as nat) * rate + (rest as nat));
            assert(floor_index(ahead, rate) == raw);
            let turned = wrapped(ahead, rate, loop_start as nat, loop_end as nat);
            assert(turned == looped * rate + rest) by {
                if loop_end != 0 && raw >= loop_end {
                    assert(ahead - span * rate == (raw - span) * rate + rest)
                        by (nonlinear_arith)
                        requires
                            ahead == raw * rate + rest,
                    ;
                }
            }
            lemma_ticks_in_range(looped as nat, rest as nat, rate);
            assert(u64::MAX * rate + (rate - 1) == (u64::MAX + 1) * rate - 1)
                by (nonlinear_arith);
        }
        Position { index, frac }
    }
}

} // verus!
