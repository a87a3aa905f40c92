//! Read positions as tick counts.
//!
//! A read position is a natural number of ticks. One source sample is `rate`
//! ticks long, so a position of `t` ticks stands for the fractional index
//! `t / rate`: its whole part selects a source sample, its remainder is the
//! weight of the interpolation.

use vstd::prelude::*;
use vstd::arithmetic::div_mod::lemma_fundamental_div_mod_converse;

verus! {

/// The largest whole index that a read position can hold.
pub open spec fn index_limit() -> nat {
    u64::MAX as nat
}

/// The last position that can be held: the one just below the index after
/// `index_limit()`.
pub open spec fn position_limit(rate: nat) -> nat {
    ((index_limit() + 1) * rate - 1) as nat
}

/// The whole part of a position: the index of the source sample it lies on.
pub open spec fn floor_index(ticks: nat, rate: nat) -> nat {
    (ticks / rate) as nat
}

/// The correction at the end of the loop region: a position whose index has
/// reached `loop_end` is taken back by the length of the region, once. With
/// `loop_end == 0` there is no loop and nothing is corrected.
pub open spec fn wrapped(ticks: nat, rate: nat, loop_start: nat, loop_end: nat) -> nat {
    if loop_end != 0 && floor_index(ticks, rate) >= loop_end {
        (ticks - (loop_end - loop_start) * rate) as nat
    } else {
        ticks
    }
}

/// A position that would pass the last one that can be held stays there.
pub open spec fn saturated(ticks: nat, rate: nat) -> nat {
    if ticks > position_limit(rate) {
        position_limit(rate)
    } else {
        ticks
    }
}

/// One advance of a position: `step` ticks forward, then the loop
/// correction, and no further than the last position that can be held.
pub open spec fn stepped(ticks: nat, step: nat, rate: nat, loop_start: nat, loop_end: nat) -> nat {
    saturated(wrapped(ticks + step, rate, loop_start, loop_end), rate)
}

/// A position of `index * rate + frac` ticks splits back into `index` and
/// `frac`.
pub proof fn lemma_ticks_split(index: nat, frac: nat, rate: nat)
    requires
        frac < rate,
    ensures
        floor_index(index * rate + frac, rate) == index,
        (index * rate + frac) % rate == frac,
{
    lemma_fundamental_div_mod_converse(
        (index * rate + frac) as int,
        rate as int,
        index as int,
        frac as int,
    );
}

/// A position of `index * rate + frac` ticks can be held exactly when its
/// index is at most the largest.
pub proof fn lemma_ticks_in_range(index: nat, frac: nat, rate: nat)
    requires
        frac < rate,
    ensures
        index * rate + frac <= position_limit(rate) <==> index <= index_limit(),
{
    assert(index * rate + frac <= (u64::MAX + 1) * rate - 1 <==> index <= u64::MAX)
        by (nonlinear_arith)
        requires
            frac < rate,
    ;
}

/// The whole part of a position lies below a bound exactly when the position
/// lies below that many source samples.
pub proof fn lemma_floor_below(ticks: nat, rate: nat, bound: nat)
    requires
        rate > 0,
    ensures
        floor_index(ticks, rate) < bound <==> ticks < bound * rate,
{
    let q = ticks as int / rate as int;
    let r = ticks as int % rate as int;
    assert(ticks == rate * q + r && 0 <= r && r < rate) by (nonlinear_arith)
        requires
            rate > 0,
            q == ticks as int / rate as int,
            r == ticks as int % rate as int,
    ;
    assert(q < bound <==> ticks < bound * rate) by (nonlinear_arith)
        requires
            rate > 0,
            ticks == rate * q + r,
            0 <= r && r < rate,
    ;
}

/// The positions below a whole index can all be held, as long as the index
/// before it can.
pub proof fn lemma_below_index_in_range(ticks: nat, rate: nat, bound: nat)
    requires
        rate > 0,
        bound <= index_limit() + 1,
        ticks < bound * rate,
    ensures
        ticks <= position_limit(rate),
{
    assert(bound * rate <= (index_limit() + 1) * rate) by (nonlinear_arith)
        requires
            bound <= index_limit() + 1,
    ;
}

} // verus!
