use vstd::prelude::*;

verus! {

/// The integer nearest to the fraction `num / den`, a tie going upwards.
/// Meant for `num >= 0` and `den > 0`.
#[verifier::inline]
pub open spec fn round_ratio(num: int, den: int) -> int {
    (2 * num + den) / (2 * den)
}

/// The fraction `num / den` clamped to the sample range `[0, 255]` and then
/// cut to an integer towards zero.  Meant for `den > 0`.
pub open spec fn clamp_ratio(num: int, den: int) -> int {
    if num <= 0 {
        0
    } else if num >= 255 * den {
        255
    } else {
        num / den
    }
}

/// `round_ratio` is no further than one half from the fraction it rounds.
pub proof fn lemma_round_ratio_nearest(num: int, den: int)
    requires
        0 <= num,
        0 < den,
    ensures
        0 <= round_ratio(num, den),
        2 * round_ratio(num, den) * den - den <= 2 * num < 2 * round_ratio(num, den) * den + den,
{
    let q = round_ratio(num, den);
    assert(0 <= q && 2 * q * den - den <= 2 * num < 2 * q * den + den) by (nonlinear_arith)
        requires
            0 <= num,
            0 < den,
            q == (2 * num + den) / (2 * den),
    ;
}

/// `clamp_ratio` is a sample, and inside the range it is the floor of the
/// fraction.
pub proof fn lemma_clamp_ratio_floor(num: int, den: int)
    requires
        0 < den,
    ensures
        0 <= clamp_ratio(num, den) <= 255,
        0 <= num < 255 * den ==> clamp_ratio(num, den) * den <= num < (clamp_ratio(num, den) + 1)
            * den,
{
    let q = num / den;
    assert(0 <= num < 255 * den ==> 0 <= q < 255 && q * den <= num < (q + 1) * den)
        by (nonlinear_arith)
        requires
            0 < den,
            q == num / den,
    ;
}

/// A whole number of units passes through `clamp_ratio` unchanged: the
/// fraction `(v * den) / den` is `v` for every sample `v`.
pub proof fn lemma_clamp_ratio_exact(v: int, den: int)
    requires
        0 <= v <= 255,
        0 < den,
    ensures
        clamp_ratio(v * den, den) == v,
{
    assert(clamp_ratio(v * den, den) == v) by (nonlinear_arith)
        requires
            0 <= v <= 255,
            0 < den,
            clamp_ratio(v * den, den) == if v * den <= 0 {
                0
            } else if v * den >= 255 * den {
                255
            } else {
                (v * den) / den
            },
    ;
}

/// Clamps the fraction `sum / scale` to a sample.
pub fn clamp_sample(sum: i128, scale: u64) -> (sample: u8)
    requires
        scale > 0,
    ensures
        sample == clamp_ratio(sum as int, scale as int),
{
    let unit: i128 = scale as i128;
    if sum <= 0 {
        0
    } else if sum >= 255 * unit {
        255
    } else {
        proof {
            lemma_clamp_ratio_floor(sum as int, scale as int);
        }
        (sum / unit) as u8
    }
}

} // verus!
