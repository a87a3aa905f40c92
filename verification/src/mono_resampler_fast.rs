//! The resampler: a source buffer, two read positions one increment apart,
//! and the loop region.

use vstd::prelude::*;
use crate::playback::{initial, Playback};
use crate::position::{Increment, Position};
use crate::sample::{interpolate, Sample, SILENCE};
use crate::ticks::{floor_index, lemma_ticks_in_range, lemma_ticks_split};

verus! {

/// Resamples a monophonic signal from its own sample rate to another one by
/// linear interpolation, optionally looping over a part of the source.
pub struct MonoResamplerFast {
    data: Vec<Sample>,
    x1ind: Position,
    x2ind: Position,
    inc: Increment,
    loop_start: usize,
    loop_end: usize,
}

impl View for MonoResamplerFast {
    type V = Playback;

    closed spec fn view(&self) -> Playback {
        Playback {
            source: self.data@,
            rate: self.inc.rate as nat,
            step: self.inc.step(),
            cursor_a: self.x1ind.ticks(self.inc.rate as nat),
            cursor_b: self.x2ind.ticks(self.inc.rate as nat),
            loop_start: self.loop_start as nat,
            loop_end: self.loop_end as nat,
        }
    }
}

impl MonoResamplerFast {
    #[verifier::type_invariant]
    spec fn inv(self) -> bool {
        &&& self.inc.wf()
        &&& self.x1ind.frac < self.inc.rate
        &&& self.x2ind.frac < self.inc.rate
        &&& self.loop_start <= self.loop_end
    }

    /// A resampler at the start of `data`, which was recorded at
    /// `input_sample_rate` and is to be played at `output_sample_rate`. The
    /// loop bounds are taken in either order; two zeros disable looping.
    ///
    /// A loop is meant to lie within `data` and to be at least one increment
    /// long. Where it is not, nothing fails: a position is corrected once
    /// per produced sample, however far it has run past the end of the
    /// region, and what is read past the end of `data` is silence.
    pub fn new(
        data: Vec<Sample>,
        output_sample_rate: u32,
        input_sample_rate: u32,
        loop_start: usize,
        loop_end: usize,
    ) -> (r: Self)
        requires
            output_sample_rate > 0,
        ensures
            r@ == initial(
                data@,
                output_sample_rate as nat,
                input_sample_rate as nat,
                loop_start as nat,
                loop_end as nat,
            ),
            r@.valid(),
    {
        let (first, last) = if loop_end < loop_start {
            (loop_end, loop_start)
        } else {
            (loop_start, loop_end)
        };
        let inc = Increment::new(input_sample_rate, output_sample_rate);
        let r = MonoResamplerFast {
            data,
            x1ind: Position { index: 0, frac: 0 },
            x2ind: Position { index: inc.whole as u64, frac: inc.part },
            inc,
            loop_start: first,
            loop_end: last,
        };
        proof {
            r.lemma_indices();
        }
        r
    }

    /// The whole parts of the two positions of the model are the stored
    /// indices, their remainders the stored numerators.
    proof fn lemma_indices(self)
        requires
            self.inv(),
        ensures
            floor_index(self@.cursor_a, self@.rate) == self.x1ind.index,
            floor_index(self@.cursor_b, self@.rate) == self.x2ind.index,
            self@.cursor_a % self@.rate == self.x1ind.frac,
            self@.valid(),
    {
        let rate = self.inc.rate as nat;
        lemma_ticks_split(self.x1ind.index as nat, self.x1ind.frac as nat, rate);
        lemma_ticks_split(self.x2ind.index as nat, self.x2ind.frac as nat, rate);
        lemma_ticks_in_range(self.x1ind.index as nat, self.x1ind.frac as nat, rate);
        lemma_ticks_in_range(self.x2ind.index as nat, self.x2ind.frac as nat, rate);
        assert(self.data@.len() == self.data.len());
    }

    /// The source sample under `index`, or silence past the end.
    fn fetch(&self, index: u64) -> (x: Sample)
        ensures
            x == self@.sample_at(index as nat),
    {
        if index < self.data.len() as u64 {
            self.data[index as usize]
        } else {
            SILENCE
        }
    }

    /// Produces the next sample and moves on by one increment. Once a source
    /// that does not loop is used up, every call yields silence and leaves
    /// the resampler as it is.
    pub fn process(&mut self) -> (sample: Sample)
        ensures
            sample == old(self)@.output(),
            final(self)@ == old(self)@.next(),
            final(self)@.valid(),
    {
        proof {
            use_type_invariant(&*self);
            self.lemma_indices();
        }
        if self.loop_end == 0 && self.x1ind.index >= self.data.len() as u64 {
            return SILENCE;
        }
        let x1 = self.fetch(self.x1ind.index);
        let x2 = self.fetch(self.x2ind.index);
        let y = interpolate(x1, x2, self.x1ind.frac, self.inc.rate);
        let a = self.x1ind.advance(&self.inc, self.loop_start, self.loop_end);
        let b = self.x2ind.advance(&self.inc, self.loop_start, self.loop_end);
        self.x1ind = a;
        self.x2ind = b;
        proof {
            self.lemma_indices();
        }
        y
    }

    /// Fills `out` with the samples that as many calls of `process` would
    /// produce one after another, and leaves the resampler where they would
    /// leave it. Past the end of a source that does not loop, the remaining
    /// slots are filled with silence.
    pub fn process_block(&mut self, out: &mut [Sample])
        ensures
            final(out)@.len() == old(out)@.len(),
            forall|i: int|
                0 <= i < old(out)@.len() ==> #[trigger] final(out)@[i] == old(self)@.after(
                    i as nat,
                ).output(),
            final(self)@ == old(self)@.after(old(out)@.len()),
            final(self)@.valid(),
    {
        proof {
            use_type_invariant(&*self);
            self.lemma_indices();
        }
        let ghost start = self@;
        let n = out.len();
        let mut k: usize = 0;
        while k < n
            invariant
                k <= n,
                n == out@.len(),
                forall|i: int| 0 <= i < k ==> #[trigger] out@[i] == start.after(i as nat).output(),
                self@ == start.after(k as nat),
                self@.valid(),
            decreases n - k,
        {
            let y = self.process();
            out[k] = y;
            k += 1;
        }
    }
}

impl Clone for MonoResamplerFast {
    /// A resampler of its own with the same source, increment and loop
    /// region, back at the start of the source.
    fn clone(&self) -> (r: Self)
        ensures
            r@ == self@.restart(),
            r@.valid(),
    {
        proof {
            use_type_invariant(self);
        }
        let r = MonoResamplerFast {
            data: self.data.clone(),
            x1ind: Position { index: 0, frac: 0 },
            x2ind: Position { index: self.inc.whole as u64, frac: self.inc.part },
            inc: self.inc,
            loop_start: self.loop_start,
            loop_end: self.loop_end,
        };
        proof {
            r.lemma_indices();
        }
        r
    }
}

} // verus!
