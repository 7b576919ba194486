//! Sizing of an analysis frame for the discrete Fourier transform.
//!
//! The transform takes a power-of-two number of samples between
//! `MIN_TRANSFORM_SIZE` and `MAX_TRANSFORM_SIZE`. A frame of any other length is
//! zero-padded up to the next power of two, or cut to `MAX_TRANSFORM_SIZE`
//! samples when it is longer.
use vstd::arithmetic::power2::{lemma2_to64, lemma_pow2_strictly_increases, lemma_pow2_unfold, pow2};
use vstd::prelude::*;

verus! {

/// The fewest samples the transform accepts.
pub const MIN_TRANSFORM_SIZE: usize = 2;

/// The most samples the transform accepts.
pub const MAX_TRANSFORM_SIZE: usize = 16384;

/// Whether `k` is a power of two.
pub open spec fn is_power_of_two(k: nat) -> bool {
    exists|e: nat| #[trigger] pow2(e) == k
}

/// Whether `size` is the transform size for a frame of `n` samples: the least
/// power of two that holds the frame and the minimum, but no more than the
/// maximum.
pub open spec fn is_transform_size(n: nat, size: nat) -> bool {
    &&& is_power_of_two(size)
    &&& MIN_TRANSFORM_SIZE <= size <= MAX_TRANSFORM_SIZE
    &&& (size >= n || size == MAX_TRANSFORM_SIZE)
    &&& (size == MIN_TRANSFORM_SIZE || size / 2 < n)
}

/// The transform size for a frame of `n` samples.
pub fn transform_size(n: usize) -> (r: usize)
    ensures
        is_transform_size(n as nat, r as nat),
{
    proof {
        lemma2_to64();
    }
    let mut s: usize = MIN_TRANSFORM_SIZE;
    let ghost mut e: nat = 1;
    while s < n && s < MAX_TRANSFORM_SIZE
        invariant
            s as nat == pow2(e),
            1 <= e <= 14,
            MIN_TRANSFORM_SIZE <= s <= MAX_TRANSFORM_SIZE,
            s == MIN_TRANSFORM_SIZE || s / 2 < n,
            pow2(14) == MAX_TRANSFORM_SIZE,
        decreases MAX_TRANSFORM_SIZE - s,
    {
        proof {
            if e >= 14 {
                if e > 14 {
                    lemma_pow2_strictly_increases(14, e);
                }
                assert(false);
            }
            lemma_pow2_unfold(e + 1);
            if e + 1 < 14 {
                lemma_pow2_strictly_increases(e + 1, 14);
            }
        }
        s = s * 2;
        proof {
            e = e + 1;
        }
    }
    s
}

/// The frame that the transform takes for `frame`: its first samples, followed
/// by `pad` up to the transform size.
pub fn fit_frame<T: Copy>(frame: &[T], pad: T) -> (r: Vec<T>)
    ensures
        is_transform_size(frame@.len(), r@.len()),
        forall|i: int|
            0 <= i < r@.len() ==> #[trigger] r@[i] == if i < frame@.len() {
                frame@[i]
            } else {
                pad
            },
{
    let size = transform_size(frame.len());
    let mut out: Vec<T> = Vec::with_capacity(size);
    let mut i: usize = 0;
    while i < size
        invariant
            0 <= i <= size,
            out@.len() == i,
            forall|k: int|
                0 <= k < i ==> #[trigger] out@[k] == if k < frame@.len() {
                    frame@[k]
                } else {
                    pad
                },
        decreases size - i,
    {
        if i < frame.len() {
            out.push(frame[i]);
        } else {
            out.push(pad);
        }
        i = i + 1;
    }
    out
}

} // verus!
