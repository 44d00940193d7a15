//! How the samples of one pixel are scheduled.
//!
//! The work of a pixel is estimated as `sample_count * floor(log2(n))` for a
//! scene of `n` objects: below a threshold its samples are drawn one after
//! the other on the calling thread, at or above it they are spread over a
//! thread pool and summed.
use vstd::arithmetic::power2::{lemma2_to64, lemma_pow2_unfold, pow2};
use vstd::prelude::*;

verus! {

/// The work estimate from which a pixel's samples are drawn in parallel.
pub const PARALLEL_WORK_THRESHOLD: u64 = 1000;

/// How the samples of one pixel are evaluated.
#[derive(Debug, Clone, Copy, PartialEq, Eq, Structural)]
pub enum SampleDispatch {
    /// One after the other on the calling thread.
    Sequential,
    /// Spread over a thread pool and summed.
    Parallel,
}

/// The integer part of the base-two logarithm of `n`, and 0 for `n == 0`.
pub open spec fn floor_log2(n: nat) -> nat
    decreases n,
{
    if n <= 1 {
        0
    } else {
        1 + floor_log2(n / 2)
    }
}

/// The work estimate of a pixel: samples times the depth of the scene.
pub open spec fn sample_work(sample_count: nat, object_count: nat) -> nat {
    sample_count * floor_log2(object_count)
}

/// The dispatch that a pixel with the given work estimate gets.
pub open spec fn dispatch_for(work: nat, threshold: nat) -> SampleDispatch {
    if work < threshold {
        SampleDispatch::Sequential
    } else {
        SampleDispatch::Parallel
    }
}

proof fn lemma_floor_log2_below(n: nat, k: nat)
    requires
        1 <= n < pow2(k),
    ensures
        floor_log2(n) < k,
    decreases n,
{
    lemma2_to64();
    if n > 1 {
        if k > 0 {
            lemma_pow2_unfold(k);
            assert(n / 2 < pow2((k - 1) as nat));
            lemma_floor_log2_below(n / 2, (k - 1) as nat);
        }
    }
}

/// `floor(log2(n))`, and 0 for `n == 0`.
fn log2_floor(n: usize) -> (r: u32)
    ensures
        r == floor_log2(n as nat),
        r < 64,
{
    if n >= 1 {
        proof {
            lemma2_to64();
            lemma_floor_log2_below(n as nat, 64);
        }
    }
    let mut m: usize = n;
    let mut r: u32 = 0;
    while m > 1
        invariant
            r + floor_log2(m as nat) == floor_log2(n as nat),
            floor_log2(n as nat) < 64,
        decreases m,
    {
        m = m / 2;
        r = r + 1;
    }
    r
}

/// Chooses how the `sample_count` samples of a pixel are evaluated in a
/// scene of `object_count` objects: sequentially when the work estimate is
/// below `threshold`, in parallel otherwise.
pub fn choose_dispatch(sample_count: u32, object_count: usize, threshold: u64) -> (r: SampleDispatch)
    ensures
        r == dispatch_for(sample_work(sample_count as nat, object_count as nat), threshold as nat),
{
    let depth = log2_floor(object_count);
    assert(sample_count as u64 * depth as u64 <= 0xffff_ffff * 64) by (nonlinear_arith)
        requires
            sample_count <= 0xffff_ffff,
            depth < 64,
    ;
    let work: u64 = sample_count as u64 * depth as u64;
    if work < threshold {
        SampleDispatch::Sequential
    } else {
        SampleDispatch::Parallel
    }
}

} // verus!
