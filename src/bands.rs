//! Aggregation of frequency-bin magnitudes into a fixed number of bands.
//!
//! Magnitudes and band values are fixed-point numbers: `FULL_SCALE` stands for
//! an intensity of 1.0. Band `i` of `n` covers the bin indices
//! `[floor((i/n)^2 * L), min(floor(((i+1)/n)^2 * L), L))` of `L` bins, so low
//! bands are narrow and high bands are wide.
use vstd::arithmetic::div_mod::{
    lemma_div_denominator, lemma_div_is_ordered, lemma_fundamental_div_mod,
    lemma_hoist_over_denominator,
};
use vstd::prelude::*;

verus! {

/// The fixed-point value of an intensity of 1.0: a band never exceeds it.
pub const FULL_SCALE: u32 = 65536;

/// Sum of a sequence of magnitudes.
pub open spec fn sum_of(s: Seq<u32>) -> nat
    decreases s.len(),
{
    if s.len() == 0 {
        0
    } else {
        sum_of(s.drop_last()) + s.last() as nat
    }
}

/// `floor((i / n)^2 * len)`: where band `i` of `n` begins.
pub open spec fn band_start(i: nat, n: nat, len: nat) -> nat {
    (i * i * len) / (n * n)
}

/// Where band `i` of `n` ends (exclusive), never past the last bin.
pub open spec fn band_end(i: nat, n: nat, len: nat) -> nat {
    let e = band_start(i + 1, n, len);
    if e < len {
        e
    } else {
        len
    }
}

/// The value of band `i` of `n` over `mags`: the mean magnitude of its bins,
/// clamped to `FULL_SCALE`, or 0 when its range of bins is empty.
pub open spec fn band_value(mags: Seq<u32>, i: nat, n: nat) -> nat {
    let s = band_start(i, n, mags.len());
    let e = band_end(i, n, mags.len());
    if s >= e {
        0
    } else {
        let mean = sum_of(mags.subrange(s as int, e as int)) / ((e - s) as nat);
        if mean < FULL_SCALE {
            mean
        } else {
            FULL_SCALE as nat
        }
    }
}

/// The `n` band values of `mags`, lowest band first.
pub open spec fn band_frame(mags: Seq<u32>, n: nat) -> Seq<u32> {
    Seq::new(n, |i: int| band_value(mags, i as nat, n) as u32)
}

/// Computes `floor(i * i * len / (n * n))` without overflow.
fn scaled_index(i: usize, n: usize, len: usize) -> (r: usize)
    requires
        0 < n,
        i <= n,
    ensures
        r as nat == band_start(i as nat, n as nat, len as nat),
        r <= len,
{
    let ghost ii = i as int;
    let ghost nn = n as int;
    let ghost ll = len as int;
    assert(0 <= ii * ll <= u128::MAX) by (nonlinear_arith)
        requires
            0 <= ii <= usize::MAX,
            0 <= ll <= usize::MAX,
    ;
    let x: u128 = i as u128 * len as u128;
    let q1: u128 = x / n as u128;
    let r1: u128 = x % n as u128;
    proof {
        lemma_fundamental_div_mod(x as int, nn);
        assert(x as int == (q1 as int) * nn + r1 as int) by (nonlinear_arith)
            requires
                x as int == nn * (x as int / nn) + (x as int % nn),
                q1 as int == x as int / nn,
                r1 as int == x as int % nn,
        ;
        assert(x as int <= nn * ll) by (nonlinear_arith)
            requires
                x as int == ii * ll,
                ii <= nn,
                0 <= ll,
        ;
        lemma_div_is_ordered(x as int, nn * ll, nn);
        assert((nn * ll) / nn == ll) by (nonlinear_arith)
            requires
                0 < nn,
        ;
        assert(0 <= ii * (q1 as int) <= x as int) by (nonlinear_arith)
            requires
                0 <= q1 as int <= ll,
                0 <= ii,
                x as int == ii * ll,
        ;
        assert(0 <= ii * (r1 as int) < nn * nn <= u128::MAX) by (nonlinear_arith)
            requires
                0 <= r1 < nn,
                0 <= ii <= nn <= usize::MAX,
        ;
    }
    let a: u128 = i as u128 * q1;
    let b: u128 = i as u128 * r1;
    proof {
        assert(ii * (x as int) == (a as int) * nn + b as int) by (nonlinear_arith)
            requires
                x as int == (q1 as int) * nn + r1 as int,
                a as int == ii * (q1 as int),
                b as int == ii * (r1 as int),
        ;
        lemma_hoist_over_denominator(b as int, a as int, nn as nat);
        assert(ii * (x as int) <= nn * (x as int)) by (nonlinear_arith)
            requires
                0 <= ii <= nn,
                0 <= x,
        ;
        lemma_div_is_ordered(ii * (x as int), nn * (x as int), nn);
        assert((nn * (x as int)) / nn == x as int) by (nonlinear_arith)
            requires
                0 < nn,
        ;
        assert(0 <= b as int / nn) by (nonlinear_arith)
            requires
                0 <= b,
                0 < nn,
        ;
    }
    let t: u128 = a + b / n as u128;
    let res: u128 = t / n as u128;
    proof {
        assert(0 <= ii * (x as int)) by (nonlinear_arith)
            requires
                0 <= ii,
                0 <= x,
        ;
        lemma_div_denominator(ii * (x as int), nn, nn);
        assert(ii * (x as int) == ii * ii * ll) by (nonlinear_arith)
            requires
                x as int == ii * ll,
        ;
        assert(ii * ii * ll <= nn * nn * ll) by (nonlinear_arith)
            requires
                0 <= ii <= nn,
                0 <= ll,
        ;
        assert(nn * nn > 0) by (nonlinear_arith)
            requires
                0 < nn,
        ;
        lemma_div_is_ordered(ii * ii * ll, nn * nn * ll, nn * nn);
        assert((nn * nn * ll) / (nn * nn) == ll) by (nonlinear_arith)
            requires
                0 < nn,
        ;
    }
    res as usize
}

/// The mean of `mags[start..end)`, clamped to `FULL_SCALE`.
fn clamped_mean(mags: &[u32], start: usize, end: usize) -> (r: u32)
    requires
        start < end <= mags@.len(),
    ensures
        r as nat == ({
            let mean = sum_of(mags@.subrange(start as int, end as int)) / ((end - start) as nat);
            if mean < FULL_SCALE { mean } else { FULL_SCALE as nat }
        }),
{
    let mut acc: u128 = 0;
    let mut j: usize = start;
    while j < end
        invariant
            start <= j <= end <= mags@.len(),
            acc as nat == sum_of(mags@.subrange(start as int, j as int)),
            acc <= (j - start) * 0xFFFF_FFFFu128,
        decreases end - j,
    {
        let m = mags[j];
        proof {
            let prev = mags@.subrange(start as int, j as int);
            let next = mags@.subrange(start as int, j + 1);
            assert(next.drop_last() =~= prev);
            assert(next.last() == m);
            assert((j - start) * 0xFFFF_FFFFint + 0xFFFF_FFFFint == (j + 1 - start) * 0xFFFF_FFFFint)
                by (nonlinear_arith);
            assert((j + 1 - start) * 0xFFFF_FFFFint <= u128::MAX) by (nonlinear_arith)
                requires
                    j + 1 - start <= usize::MAX,
            ;
        }
        acc = acc + m as u128;
        j = j + 1;
    }
    let mean: u128 = acc / ((end - start) as u128);
    if mean < FULL_SCALE as u128 {
        mean as u32
    } else {
        FULL_SCALE
    }
}

/// Aggregates an ordered sequence of bin magnitudes into `num_bands` bands.
///
/// The result has exactly `num_bands` values, whatever the number of bins
/// (none included), each the `band_value` of its index and never above
/// `FULL_SCALE`.
pub fn map_bands(magnitudes: &[u32], num_bands: usize) -> (r: Vec<u32>)
    ensures
        r@.len() == num_bands,
        forall|i: int|
            0 <= i < num_bands ==> #[trigger] r@[i] as nat == band_value(
                magnitudes@,
                i as nat,
                num_bands as nat,
            ),
        forall|i: int| 0 <= i < num_bands ==> #[trigger] r@[i] <= FULL_SCALE,
        r@ == band_frame(magnitudes@, num_bands as nat),
{
    let len = magnitudes.len();
    let mut bands: Vec<u32> = Vec::with_capacity(num_bands);
    let mut i: usize = 0;
    while i < num_bands
        invariant
            0 <= i <= num_bands,
            len == magnitudes@.len(),
            bands@.len() == i,
            forall|k: int|
                0 <= k < i ==> #[trigger] bands@[k] as nat == band_value(
                    magnitudes@,
                    k as nat,
                    num_bands as nat,
                ),
            forall|k: int| 0 <= k < i ==> #[trigger] bands@[k] <= FULL_SCALE,
        decreases num_bands - i,
    {
        let start = scaled_index(i, num_bands, len);
        let stop = scaled_index(i + 1, num_bands, len);
        let end = if stop < len {
            stop
        } else {
            len
        };
        let v: u32 = if start < end {
            clamped_mean(magnitudes, start, end)
        } else {
            0
        };
        bands.push(v);
        i = i + 1;
    }
    assert(bands@ =~= band_frame(magnitudes@, num_bands as nat));
    bands
}

/// Every band value lies between 0 and `FULL_SCALE`, whatever the magnitudes.
pub proof fn lemma_band_value_bounded(mags: Seq<u32>, i: nat, n: nat)
    ensures
        band_value(mags, i, n) <= FULL_SCALE,
{
}

/// Of all-zero magnitudes every band is zero, so the band frame is all zeros.
pub proof fn lemma_silent_bands(mags: Seq<u32>, num_bands: nat)
    requires
        forall|k: int| 0 <= k < mags.len() ==> #[trigger] mags[k] == 0,
    ensures
        forall|i: nat| i < num_bands ==> #[trigger] band_value(mags, i, num_bands) == 0,
        band_frame(mags, num_bands) == Seq::new(num_bands, |i: int| 0u32),
{
    assert forall|i: nat| i < num_bands implies #[trigger] band_value(mags, i, num_bands) == 0 by {
        let s = band_start(i, num_bands, mags.len());
        let e = band_end(i, num_bands, mags.len());
        if s < e {
            lemma_sum_of_zeros(mags.subrange(s as int, e as int));
            assert(0nat / ((e - s) as nat) == 0) by (nonlinear_arith)
                requires
                    e > s,
            ;
        }
    }
    assert(band_frame(mags, num_bands) =~= Seq::new(num_bands, |i: int| 0u32));
}

/// A sequence of zeros sums to zero.
proof fn lemma_sum_of_zeros(s: Seq<u32>)
    requires
        forall|k: int| 0 <= k < s.len() ==> #[trigger] s[k] == 0,
    ensures
        sum_of(s) == 0,
    decreases s.len(),
{
    if s.len() > 0 {
        lemma_sum_of_zeros(s.drop_last());
    }
}

} // verus!
