//! What holds of every resampler, proved over the model.

use vstd::prelude::*;
use crate::playback::{initial, Playback};
use crate::sample::{lemma_lerp_between, Sample, SILENCE};
use crate::ticks::{
    floor_index, index_limit, lemma_below_index_in_range, lemma_floor_below, lemma_ticks_split,
    stepped, wrapped,
};

verus! {

/// Producing samples changes the two positions and nothing else.
pub proof fn lemma_after_keeps_configuration(s: Playback, n: nat)
    ensures
        s.after(n).source == s.source,
        s.after(n).rate == s.rate,
        s.after(n).step == s.step,
        s.after(n).loop_start == s.loop_start,
        s.after(n).loop_end == s.loop_end,
    decreases n,
{
    if n > 0 {
        lemma_after_keeps_configuration(s, (n - 1) as nat);
    }
}

/// A valid state stays valid however many samples are produced.
pub proof fn lemma_after_valid(s: Playback, n: nat)
    requires
        s.valid(),
    ensures
        s.after(n).valid(),
    decreases n,
{
    if n > 0 {
        lemma_after_valid(s, (n - 1) as nat);
    }
}

/// Block production is repeated single production: producing one sample
/// is one step, and producing `m` samples and then `n` more leaves the
/// resampler where producing `m + n` in one go leaves it, so that sample `j`
/// of the second run is sample `m + j` of the whole.
pub proof fn lemma_after_add(s: Playback, m: nat, n: nat)
    ensures
        s.after(1) == s.next(),
        s.after(m).after(n) == s.after(m + n),
    decreases n,
{
    assert(s.after(1) == s.after(0).next());
    if n > 0 {
        lemma_after_add(s, m, (n - 1) as nat);
        assert(s.after(m + n) == s.after((m + n - 1) as nat).next());
    }
}

/// Without a loop no position ever moves backwards.
pub proof fn lemma_monotone_without_loop(s: Playback)
    requires
        s.valid(),
        !s.looping(),
    ensures
        s.next().cursor_a >= s.cursor_a,
        s.next().cursor_b >= s.cursor_b,
{
}

/// The second interpolation point lies one advance ahead of the first: if
/// it does at some time, it does ever after, and the second point of one
/// sample is the first point of the next.
pub proof fn lemma_second_point_one_advance_ahead(s: Playback, n: nat)
    requires
        s.cursor_b == stepped(s.cursor_a, s.step, s.rate, s.loop_start, s.loop_end),
    ensures
        s.after(n).cursor_b == stepped(
            s.after(n).cursor_a,
            s.step,
            s.rate,
            s.loop_start,
            s.loop_end,
        ),
        !s.after(n).exhausted() ==> s.after(n + 1).cursor_a == s.after(n).cursor_b,
    decreases n,
{
    lemma_after_keeps_configuration(s, n);
    if n > 0 {
        lemma_second_point_one_advance_ahead(s, (n - 1) as nat);
        lemma_after_keeps_configuration(s, (n - 1) as nat);
    }
    assert(s.after(n + 1) == s.after(n).next());
}

/// Once a source that does not loop is used up, the resampler stays as it
/// is and yields silence, however often it is asked.
pub proof fn lemma_exhausted_stays_silent(s: Playback, n: nat)
    requires
        s.exhausted(),
    ensures
        s.after(n) == s,
        s.after(n).output() == SILENCE,
    decreases n,
{
    if n > 0 {
        lemma_exhausted_stays_silent(s, (n - 1) as nat);
    }
}

/// A resampler that loops is never used up.
pub proof fn lemma_looping_never_exhausted(s: Playback, n: nat)
    requires
        s.looping(),
    ensures
        !s.after(n).exhausted(),
{
    lemma_after_keeps_configuration(s, n);
}

/// With an increment no longer than the loop region, a position that lies
/// before the end of the region still does after an advance.
pub proof fn lemma_stepped_stays_in_loop(
    ticks: nat,
    step: nat,
    rate: nat,
    loop_start: nat,
    loop_end: nat,
)
    requires
        rate > 0,
        loop_start <= loop_end <= index_limit(),
        loop_end != 0,
        step <= (loop_end - loop_start) * rate,
        floor_index(ticks, rate) < loop_end,
    ensures
        floor_index(stepped(ticks, step, rate, loop_start, loop_end), rate) < loop_end,
{
    let ahead = (ticks + step) as nat;
    let span = (loop_end - loop_start) as nat;
    let turned = wrapped(ahead, rate, loop_start, loop_end);
    lemma_floor_below(ticks, rate, loop_end);
    lemma_floor_below(ahead, rate, loop_end);
    assert(ahead < loop_end * rate + span * rate);
    if floor_index(ahead, rate) >= loop_end {
        assert(span * rate <= loop_end * rate) by (nonlinear_arith)
            requires
                span <= loop_end,
        ;
        assert(turned == ahead - span * rate);
    }
    assert(turned < loop_end * rate);
    lemma_below_index_in_range(turned, rate, loop_end);
    lemma_floor_below(turned, rate, loop_end);
}

/// Looping never drifts: with an increment no longer than the loop region,
/// a position that lies before the end of the region lies before it after
/// any number of produced samples.
pub proof fn lemma_loop_bound_kept(s: Playback, n: nat)
    requires
        s.valid(),
        s.looping(),
        s.step <= s.loop_span() * s.rate,
    ensures
        floor_index(s.cursor_a, s.rate) < s.loop_end ==> floor_index(
            s.after(n).cursor_a,
            s.rate,
        ) < s.loop_end,
        floor_index(s.cursor_b, s.rate) < s.loop_end ==> floor_index(
            s.after(n).cursor_b,
            s.rate,
        ) < s.loop_end,
    decreases n,
{
    if n > 0 {
        let p = s.after((n - 1) as nat);
        lemma_loop_bound_kept(s, (n - 1) as nat);
        lemma_after_keeps_configuration(s, (n - 1) as nat);
        if floor_index(s.cursor_a, s.rate) < s.loop_end {
            lemma_stepped_stays_in_loop(p.cursor_a, p.step, p.rate, p.loop_start, p.loop_end);
        }
        if floor_index(s.cursor_b, s.rate) < s.loop_end {
            lemma_stepped_stays_in_loop(p.cursor_b, p.step, p.rate, p.loop_start, p.loop_end);
        }
    }
}

/// A new looping resampler whose increment is no longer than its loop
/// region never reads its first interpolation point at or past the end of
/// the region; nor its second, unless the increment is as long as the
/// distance from the start of the source to the end of the region.
pub proof fn lemma_loop_bound_from_start(
    source: Seq<Sample>,
    rate: nat,
    step: nat,
    loop_start: nat,
    loop_end: nat,
    n: nat,
)
    requires
        rate > 0,
        source.len() <= usize::MAX,
        loop_start <= usize::MAX,
        loop_end <= usize::MAX,
        initial(source, rate, step, loop_start, loop_end).looping(),
        step <= initial(source, rate, step, loop_start, loop_end).loop_span() * rate,
    ensures
        ({
            let s = initial(source, rate, step, loop_start, loop_end);
            &&& floor_index(s.after(n).cursor_a, rate) < s.loop_end
            &&& step < s.loop_end * rate ==> floor_index(s.after(n).cursor_b, rate) < s.loop_end
        }),
{
    let s = initial(source, rate, step, loop_start, loop_end);
    lemma_floor_below(0, rate, s.loop_end);
    lemma_floor_below(step, rate, s.loop_end);
    assert(0 < s.loop_end * rate) by (nonlinear_arith)
        requires
            rate > 0,
            s.loop_end > 0,
    ;
    assert(step <= s.loop_end * rate) by (nonlinear_arith)
        requires
            step <= s.loop_span() * rate,
            s.loop_span() <= s.loop_end,
            rate > 0,
    ;
    lemma_below_index_in_range(0, rate, s.loop_end);
    assert(s.loop_end * rate < (s.loop_end + 1) * rate) by (nonlinear_arith)
        requires
            rate > 0,
    ;
    lemma_below_index_in_range(step, rate, s.loop_end + 1);
    assert(s.valid());
    lemma_loop_bound_kept(s, n);
}

/// Restarting forgets the position and nothing else: whatever was produced
/// since a resampler was made, its restarted copy is in the state in which
/// the resampler was made, and so yields its first sample again.
pub proof fn lemma_restart_is_initial(
    source: Seq<Sample>,
    rate: nat,
    step: nat,
    loop_start: nat,
    loop_end: nat,
    n: nat,
)
    ensures
        initial(source, rate, step, loop_start, loop_end).after(n).restart() == initial(
            source,
            rate,
            step,
            loop_start,
            loop_end,
        ),
        initial(source, rate, step, loop_start, loop_end).after(n).restart().output() == initial(
            source,
            rate,
            step,
            loop_start,
            loop_end,
        ).output(),
{
    lemma_after_keeps_configuration(initial(source, rate, step, loop_start, loop_end), n);
}

/// The two loop bounds may be given in either order.
pub proof fn lemma_loop_bounds_in_either_order(
    source: Seq<Sample>,
    rate: nat,
    step: nat,
    loop_start: nat,
    loop_end: nat,
)
    ensures
        initial(source, rate, step, loop_start, loop_end) == initial(
            source,
            rate,
            step,
            loop_end,
            loop_start,
        ),
{
}

/// Position of the first interpolation point while equal rates play a
/// source that does not loop: one source sample per produced sample, up to
/// the end of the source.
proof fn lemma_identity_positions(source: Seq<Sample>, rate: nat, k: nat)
    requires
        rate > 0,
        source.len() <= usize::MAX,
    ensures
        ({
            let s = initial(source, rate, rate, 0, 0).after(k);
            &&& s.source == source
            &&& s.rate == rate
            &&& s.loop_end == 0
            &&& k <= source.len() ==> s.cursor_a == k * rate
            &&& k > source.len() ==> s.cursor_a == source.len() * rate
        }),
    decreases k,
{
    let start = initial(source, rate, rate, 0, 0);
    lemma_after_keeps_configuration(start, k);
    if k > 0 {
        let p = start.after((k - 1) as nat);
        lemma_identity_positions(source, rate, (k - 1) as nat);
        lemma_after_keeps_configuration(start, (k - 1) as nat);
        if k <= source.len() {
            lemma_ticks_split((k - 1) as nat, 0, rate);
            assert(p.cursor_a + rate == k * rate) by (nonlinear_arith)
                requires
                    p.cursor_a == (k - 1) * rate,
            ;
            assert(k * rate < (k + 1) * rate) by (nonlinear_arith)
                requires
                    rate > 0,
            ;
            lemma_below_index_in_range(k * rate, rate, k + 1);
        } else {
            lemma_ticks_split(source.len(), 0, rate);
        }
    }
}

/// Equal rates reproduce the source: without a loop, the samples of the
/// source come out unchanged and in order, and silence after the last.
pub proof fn lemma_identity_resampling(source: Seq<Sample>, rate: nat, k: nat)
    requires
        rate > 0,
        source.len() <= usize::MAX,
    ensures
        k < source.len() ==> initial(source, rate, rate, 0, 0).after(k).output()
            == source[k as int],
        k >= source.len() ==> initial(source, rate, rate, 0, 0).after(k).output() == SILENCE,
{
    let s = initial(source, rate, rate, 0, 0).after(k);
    lemma_identity_positions(source, rate, k);
    if k < source.len() {
        lemma_ticks_split(k, 0, rate);
        lemma_lerp_between(
            s.sample_at(k),
            s.sample_at(floor_index(s.cursor_b, rate)),
            0,
            rate as int,
        );
    } else {
        lemma_ticks_split(source.len(), 0, rate);
    }
}

} // verus!
