//! Percentiles by linear interpolation between neighbouring order statistics,
//! in exact arithmetic.
//!
//! A ratio is a fraction `num / den` with `num <= den`. Every result is handed
//! out multiplied by `den`, so that it is a whole number: with `den == 4` the
//! five quartiles come out in quarters.

use vstd::arithmetic::div_mod::{lemma_div_is_ordered, lemma_fundamental_div_mod};
use vstd::prelude::*;

use crate::sorting::{ascending, lemma_sorted_order_independent, rearranges, sorted};

verus! {

/// `den` times the point between `l` and `r` that lies `num / den` of the way
/// from `l` to `r`.
pub open spec fn interpolated(l: int, r: int, num: int, den: int) -> int {
    l * (den - num) + r * num
}

/// `den` times the percentile of `s` at the ratio `num / den`: the position
/// `(len - 1) * num / den` is split into a whole index and a remainder, and
/// the remainder weighs the entry at that index against the next one. An empty
/// sequence has the percentile 0 at every ratio.
pub open spec fn scaled_percentile(s: Seq<u32>, num: int, den: int) -> int
    recommends
        0 < den,
        0 <= num <= den,
{
    if s.len() == 0 {
        0
    } else {
        let position = (s.len() - 1) * num;
        let low = position / den;
        let weight = position % den;
        if low + 1 >= s.len() {
            s[low] * den
        } else {
            interpolated(s[low] as int, s[low + 1] as int, weight, den)
        }
    }
}

/// At every ratio a single sample is its own percentile, and nothing has the
/// percentile 0.
pub proof fn lemma_percentile_of_few(s: Seq<u32>, num: int, den: int)
    requires
        0 < den,
        0 <= num,
    ensures
        s.len() == 0 ==> scaled_percentile(s, num, den) == 0,
        s.len() == 1 ==> scaled_percentile(s, num, den) == s[0] * den,
{
    if s.len() == 1 {
        assert(0 * num == 0);
        assert(0int / den == 0 && 0int % den == 0) by (nonlinear_arith)
            requires
                0 < den,
        ;
    }
}

/// The percentile at ratio 0 is the first entry and the percentile at ratio 1
/// is the last one: of samples in ascending order, the smallest and the
/// largest.
pub proof fn lemma_percentile_ends(s: Seq<u32>, den: int)
    requires
        0 < den,
        s.len() > 0,
    ensures
        scaled_percentile(s, 0, den) == s.first() * den,
        scaled_percentile(s, den, den) == s.last() * den,
{
    let last = s.len() - 1;
    assert(last * 0 == 0);
    assert(0int / den == 0 && 0int % den == 0) by (nonlinear_arith)
        requires
            0 < den,
    ;
    assert((last * den) / den == last && (last * den) % den == 0) by (nonlinear_arith)
        requires
            0 < den,
            0 <= last,
    ;
    if s.len() > 1 {
        assert(interpolated(s[0] as int, s[1] as int, 0, den) == s[0] * den) by (nonlinear_arith);
    }
}

/// The value that interpolation gives between the entry at `low` and the next
/// one is not below the first of the two and not above the second.
proof fn lemma_interpolated_between(l: int, r: int, weight: int, den: int)
    requires
        l <= r,
        0 <= weight <= den,
    ensures
        l * den <= interpolated(l, r, weight, den) <= r * den,
{
    assert(interpolated(l, r, weight, den) == l * den + (r - l) * weight) by (nonlinear_arith);
    assert(interpolated(l, r, weight, den) == r * den - (r - l) * (den - weight))
        by (nonlinear_arith);
    assert(0 <= (r - l) * weight) by (nonlinear_arith)
        requires
            0 <= r - l,
            0 <= weight,
    ;
    assert(0 <= (r - l) * (den - weight)) by (nonlinear_arith)
        requires
            0 <= r - l,
            0 <= den - weight,
    ;
}

/// Of samples in ascending order, a larger ratio never has a smaller
/// percentile.
pub proof fn lemma_percentile_monotone(s: Seq<u32>, lower: int, upper: int, den: int)
    requires
        ascending(s),
        0 < den,
        0 <= lower <= upper <= den,
    ensures
        scaled_percentile(s, lower, den) <= scaled_percentile(s, upper, den),
{
    if s.len() > 0 {
        let last = s.len() - 1;
        let p = last * lower;
        let q = last * upper;
        assert(0 <= p <= q <= last * den) by (nonlinear_arith)
            requires
                0 <= last,
                0 <= lower <= upper <= den,
                p == last * lower,
                q == last * upper,
        ;
        let i = p / den;
        let j = q / den;
        let v = p % den;
        let w = q % den;
        lemma_fundamental_div_mod(p, den);
        lemma_fundamental_div_mod(q, den);
        lemma_div_is_ordered(p, q, den);
        lemma_div_is_ordered(q, last * den, den);
        assert((last * den) / den == last) by (nonlinear_arith)
            requires
                0 < den,
        ;
        assert(0 <= i) by (nonlinear_arith)
            requires
                0 <= p,
                0 < den,
                i == p / den,
        ;
        assert(0 <= v < den && 0 <= w < den) by (nonlinear_arith)
            requires
                0 < den,
                v == p % den,
                w == q % den,
        ;
        assert(0 <= i <= j <= last);
        let low_value = scaled_percentile(s, lower, den);
        let high_value = scaled_percentile(s, upper, den);
        if i < j {
            lemma_interpolated_between(s[i] as int, s[i + 1] as int, v, den);
            assert(low_value <= s[i + 1] * den);
            assert(s[i + 1] * den <= s[j] * den) by (nonlinear_arith)
                requires
                    s[i + 1] <= s[j],
                    0 < den,
            ;
            if j + 1 < s.len() {
                lemma_interpolated_between(s[j] as int, s[j + 1] as int, w, den);
            }
        } else {
            assert(v <= w) by (nonlinear_arith)
                requires
                    p <= q,
                    p == den * i + v,
                    q == den * i + w,
            ;
            if i + 1 < s.len() {
                let l = s[i] as int;
                let r = s[i + 1] as int;
                assert(interpolated(l, r, w, den) - interpolated(l, r, v, den) == (r - l) * (w
                    - v)) by (nonlinear_arith);
                assert(0 <= (r - l) * (w - v)) by (nonlinear_arith)
                    requires
                        0 <= r - l,
                        0 <= w - v,
                ;
            }
        }
    }
}

/// The percentile of sorted samples does not depend on the order that the
/// samples were in: at every ratio it is the same for two sequences that hold
/// the same samples, each as often in one as in the other.
pub proof fn lemma_percentile_order_independent(s: Seq<u32>, t: Seq<u32>, num: int, den: int)
    requires
        rearranges(t, s),
    ensures
        scaled_percentile(sorted(t), num, den) == scaled_percentile(sorted(s), num, den),
{
    lemma_sorted_order_independent(s, t);
}

/// Linear interpolation from `l` to `r` at the ratio `num / den`, times `den`.
pub fn linterp(l: u64, r: u64, num: u32, den: u32) -> (scaled: u128)
    requires
        num <= den,
    ensures
        scaled == interpolated(l as int, r as int, num as int, den as int),
{
    let rest: u32 = den - num;
    assert(l * rest <= 0xFFFF_FFFF_FFFF_FFFF * 0xFFFF_FFFF) by (nonlinear_arith)
        requires
            0 <= l <= 0xFFFF_FFFF_FFFF_FFFF,
            0 <= rest <= 0xFFFF_FFFF,
    ;
    assert(r * num <= 0xFFFF_FFFF_FFFF_FFFF * 0xFFFF_FFFF) by (nonlinear_arith)
        requires
            0 <= r <= 0xFFFF_FFFF_FFFF_FFFF,
            0 <= num <= 0xFFFF_FFFF,
    ;
    (l as u128) * (rest as u128) + (r as u128) * (num as u128)
}

/// The percentile of `slice` at the ratio `num / den`, times `den`. The slice
/// is read by position; for a quantile in the usual sense it is in ascending
/// order.
pub fn get_percentile(slice: &[u32], num: u32, den: u32) -> (scaled: u64)
    requires
        0 < den,
        num <= den,
    ensures
        scaled == scaled_percentile(slice@, num as int, den as int),
        slice@.len() == 0 ==> scaled == 0,
        slice@.len() == 1 ==> scaled == slice@[0] * den,
{
    if slice.len() == 0 {
        return 0;
    }
    let last: usize = slice.len() - 1;
    let position: u128 = linterp(0, last as u64, num, den);
    let ghost n = slice@.len() as int;
    assert(position == (n - 1) * num) by (nonlinear_arith)
        requires
            position == 0 * (den - num) + (n - 1) * num,
    ;
    assert(position / (den as u128) <= n - 1) by (nonlinear_arith)
        requires
            position == (n - 1) * num,
            0 <= num <= den,
            0 < den,
            0 <= n - 1,
    ;
    let low: usize = (position / (den as u128)) as usize;
    let weight: u32 = (position % (den as u128)) as u32;
    if low >= last {
        assert(slice@[low as int] * den <= 0xFFFF_FFFF * 0xFFFF_FFFF) by (nonlinear_arith)
            requires
                0 <= slice@[low as int] <= 0xFFFF_FFFF,
                0 <= den <= 0xFFFF_FFFF,
        ;
        (slice[low] as u64) * (den as u64)
    } else {
        let l: u32 = slice[low];
        let r: u32 = slice[low + 1];
        let mixed: u128 = linterp(l as u64, r as u64, weight, den);
        assert(mixed <= 0xFFFF_FFFF * 0xFFFF_FFFF) by (nonlinear_arith)
            requires
                mixed == l * (den - weight) + r * weight,
                0 <= l <= 0xFFFF_FFFF,
                0 <= r <= 0xFFFF_FFFF,
                0 <= weight < den,
                den <= 0xFFFF_FFFF,
        ;
        mixed as u64
    }
}

} // verus!
