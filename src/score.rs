//! The error between two buffers, as a sum of squared sample differences.
//!
//! For buffers of one size the root-mean-square error is
//! `sqrt(squared_error / pixel_count)`, an increasing function of the sum, so
//! every comparison of errors is made on the exact integer sum.
use vstd::prelude::*;
use crate::buffer::{ApproxError, PixelBuffer};

verus! {

pub open spec fn sq_diff(a: u8, b: u8) -> int {
    (a as int - b as int) * (a as int - b as int)
}

/// Sum of squared differences over the first `n` samples.
pub open spec fn sse_prefix(a: Seq<u8>, b: Seq<u8>, n: int) -> int
    decreases n,
{
    if n <= 0 {
        0
    } else {
        sse_prefix(a, b, n - 1) + sq_diff(a[n - 1], b[n - 1])
    }
}

/// Sum of squared differences of two sample sequences of equal length.
pub open spec fn sse(a: Seq<u8>, b: Seq<u8>) -> int {
    sse_prefix(a, b, a.len() as int)
}

pub proof fn lemma_sse_prefix_bounds(a: Seq<u8>, b: Seq<u8>, n: int)
    requires
        0 <= n,
    ensures
        0 <= sse_prefix(a, b, n) <= 65025 * n,
    decreases n,
{
    if n > 0 {
        lemma_sse_prefix_bounds(a, b, n - 1);
        let d = a[n - 1] as int - b[n - 1] as int;
        assert(0 <= d * d <= 65025) by (nonlinear_arith)
            requires
                -255 <= d <= 255,
        ;
    }
}

/// A buffer has no error against itself.
pub proof fn lemma_sse_self_zero(a: Seq<u8>)
    ensures
        sse(a, a) == 0,
{
    lemma_sse_prefix_self_zero(a, a.len() as int);
}

proof fn lemma_sse_prefix_self_zero(a: Seq<u8>, n: int)
    ensures
        sse_prefix(a, a, n) == 0,
    decreases n,
{
    if n > 0 {
        lemma_sse_prefix_self_zero(a, n - 1);
    }
}

/// The error does not depend on the order of the two buffers.
pub proof fn lemma_sse_symmetric(a: Seq<u8>, b: Seq<u8>)
    requires
        a.len() == b.len(),
    ensures
        sse(a, b) == sse(b, a),
{
    lemma_sse_prefix_symmetric(a, b, a.len() as int);
}

proof fn lemma_sse_prefix_symmetric(a: Seq<u8>, b: Seq<u8>, n: int)
    ensures
        sse_prefix(a, b, n) == sse_prefix(b, a, n),
    decreases n,
{
    if n > 0 {
        lemma_sse_prefix_symmetric(a, b, n - 1);
        let d = a[n - 1] as int - b[n - 1] as int;
        assert(d * d == (-d) * (-d)) by (nonlinear_arith);
    }
}

/// The error is zero exactly when the two buffers hold the same samples.
pub proof fn lemma_sse_zero_iff_equal(a: Seq<u8>, b: Seq<u8>)
    requires
        a.len() == b.len(),
    ensures
        sse(a, b) == 0 <==> a == b,
{
    if a == b {
        lemma_sse_self_zero(a);
    } else {
        assert(exists|i: int| 0 <= i < a.len() && a[i] != b[i]) by {
            if !(exists|i: int| 0 <= i < a.len() && a[i] != b[i]) {
                assert(a =~= b);
            }
        }
        let i = choose|i: int| 0 <= i < a.len() && a[i] != b[i];
        lemma_sse_prefix_positive(a, b, a.len() as int, i);
    }
}

proof fn lemma_sse_prefix_positive(a: Seq<u8>, b: Seq<u8>, n: int, i: int)
    requires
        0 <= i < n,
        a[i] != b[i],
    ensures
        sse_prefix(a, b, n) > 0,
    decreases n,
{
    lemma_sse_prefix_bounds(a, b, n - 1);
    let d = a[n - 1] as int - b[n - 1] as int;
    assert(d * d >= 0) by (nonlinear_arith);
    if i < n - 1 {
        lemma_sse_prefix_positive(a, b, n - 1, i);
    } else {
        assert(d * d > 0) by (nonlinear_arith)
            requires
                d != 0,
        ;
    }
}

/// Sum of squared sample differences between two buffers of the same
/// dimensions.
pub fn squared_error(a: &PixelBuffer, b: &PixelBuffer) -> (r: Result<u128, ApproxError>)
    requires
        a.wf(),
        b.wf(),
    ensures
        a@.same_dims(b@) <==> r is Ok,
        r matches Ok(v) ==> v == sse(a@.samples, b@.samples),
        r matches Err(e) ==> e == ApproxError::DimensionMismatch,
{
    if a.width() != b.width() || a.height() != b.height() {
        return Err(ApproxError::DimensionMismatch);
    }
    let sa = a.samples();
    let sb = b.samples();
    let n: usize = sa.len();
    let mut sum: u128 = 0;
    let mut i: usize = 0;
    while i < n
        invariant
            sa@ == a@.samples,
            sb@ == b@.samples,
            n == sa@.len(),
            sa@.len() == sb@.len(),
            i <= n,
            sum == sse_prefix(sa@, sb@, i as int),
        decreases n - i,
    {
        proof {
            lemma_sse_prefix_bounds(sa@, sb@, i as int + 1);
        }
        let d: i32 = sa[i] as i32 - sb[i] as i32;
        proof {
            assert(0 <= d * d <= 65025) by (nonlinear_arith)
                requires
                    -255 <= d <= 255,
            ;
            assert(sse_prefix(sa@, sb@, i as int + 1) == sum + d * d);
            assert(65025 * (i as int + 1) <= 65025 * 0x1_0000_0000_0000_0000int);
        }
        sum = sum + (d * d) as u128;
        i = i + 1;
    }
    Ok(sum)
}

} // verus!
