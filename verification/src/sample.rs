//! The sample representation and the interpolation between two samples.

use vstd::prelude::*;
use vstd::arithmetic::div_mod::lemma_fundamental_div_mod_converse;

verus! {

/// One amplitude of the signal: a signed integer on a linear scale of the
/// caller's choosing (raw PCM, or fixed point with any number of fractional
/// bits).
pub type Sample = i32;

/// The amplitude of silence.
pub const SILENCE: Sample = 0;

/// The point that lies `num / den` of the way from `x1` to `x2`, rounded
/// down to a whole amplitude.
pub open spec fn lerp(x1: int, x2: int, num: int, den: int) -> int {
    x1 + (num * (x2 - x1)) / den
}

/// An interpolated amplitude never leaves the interval spanned by its two
/// end points, and a weight of zero gives the first of them.
pub proof fn lemma_lerp_between(x1: int, x2: int, num: int, den: int)
    requires
        0 <= num < den,
    ensures
        x1 <= x2 ==> x1 <= lerp(x1, x2, num, den) <= x2,
        x2 <= x1 ==> x2 <= lerp(x1, x2, num, den) <= x1,
        num == 0 ==> lerp(x1, x2, num, den) == x1,
{
    let d = x2 - x1;
    let p = num * d;
    let q = p / den;
    assert(p == den * q + p % den && 0 <= p % den < den) by (nonlinear_arith)
        requires
            den > 0,
            q == p / den,
    ;
    assert(d >= 0 ==> 0 <= p <= den * d) by (nonlinear_arith)
        requires
            0 <= num < den,
            p == num * d,
    ;
    assert(d <= 0 ==> den * d <= p <= 0) by (nonlinear_arith)
        requires
            0 <= num < den,
            p == num * d,
    ;
    assert(d >= 0 ==> 0 <= q <= d) by (nonlinear_arith)
        requires
            den > 0,
            p == den * q + p % den,
            0 <= p % den < den,
            d >= 0 ==> 0 <= p <= den * d,
    ;
    assert(d <= 0 ==> d <= q <= 0) by (nonlinear_arith)
        requires
            den > 0,
            p == den * q + p % den,
            0 <= p % den < den,
            d <= 0 ==> den * d <= p <= 0,
    ;
    assert(num == 0 ==> q == 0) by (nonlinear_arith)
        requires
            den > 0,
            p == num * d,
            p == den * q + p % den,
            0 <= p % den < den,
    ;
}

/// Interpolates linearly between two samples with the weight `num / den`.
pub fn interpolate(x1: Sample, x2: Sample, num: u32, den: u32) -> (y: Sample)
    requires
        num < den,
    ensures
        y == lerp(x1 as int, x2 as int, num as int, den as int),
{
    proof {
        lemma_lerp_between(x1 as int, x2 as int, num as int, den as int);
    }
    if x2 >= x1 {
        let rise: u64 = (x2 as i64 - x1 as i64) as u64;
        assert(num * rise <= 0xffff_ffff * 0xffff_ffff) by (nonlinear_arith)
            requires
                0 <= num <= 0xffff_ffff,
                0 <= rise <= 0xffff_ffff,
        ;
        let scaled: u128 = num as u128 * rise as u128;
        let part: u128 = scaled / den as u128;
        (x1 as i64 + part as i64) as i32
    } else {
        let fall: u64 = (x1 as i64 - x2 as i64) as u64;
        assert(num * fall <= 0xffff_ffff * 0xffff_ffff) by (nonlinear_arith)
            requires
                0 <= num <= 0xffff_ffff,
                0 <= fall <= 0xffff_ffff,
        ;
        let scaled: u128 = num as u128 * fall as u128;
        let part: u128 = (scaled + (den as u128 - 1)) / den as u128;
        proof {
            let p = num * (x2 - x1);
            let m = scaled as int;
            let d = den as int;
            let c = part as int;
            assert(m == -p) by (nonlinear_arith)
                requires
                    m == (num as int) * (fall as int),
                    fall == x1 - x2,
                    p == num * (x2 - x1),
            ;
            assert(m + d - 1 == d * c + (m + d - 1) % d && 0 <= (m + d - 1) % d < d)
                by (nonlinear_arith)
                requires
                    d > 0,
                    c == (m + d - 1) / d,
            ;
            let r = c * d - m;
            assert(p == (-c) * d + r) by (nonlinear_arith)
                requires
                    r == c * d - m,
                    m == -p,
            ;
            assert(d * c == c * d) by (nonlinear_arith);
            lemma_fundamental_div_mod_converse(p, d, -c, r);
        }
        (x1 as i64 - part as i64) as i32
    }
}

} // verus!
