//! Integer vector arithmetic behind similarity scoring: dot products over
//! fixed-point embedding coordinates, a floor square root, and the
//! Cauchy-Schwarz inequality that keeps scores in range.

use vstd::prelude::*;
use vstd::arithmetic::div_mod::{lemma_div_is_ordered, lemma_div_multiples_vanish};

verus! {

/// Hard ceiling on the dimension of any embedding vector the engine accepts:
/// `2^15`. It exists only so that the 128-bit intermediates of the
/// similarity arithmetic provably cannot overflow; real embedding models
/// stay far below it.
pub const MAX_DIM: usize = 32768;

/// Hard ceiling on the magnitude of any embedding coordinate: `2^24`.
/// A machine limit like `MAX_DIM`; the fixed-point quantization of real
/// embeddings stays far below it.
pub const COORD_BOUND: i32 = 16777216;

/// Largest magnitude a dot product of two in-range vectors can reach:
/// `MAX_DIM * COORD_BOUND^2`, i.e. `2^63`.
pub const DOT_BOUND: i128 = 9223372036854775808;

/// Largest value the product of two self dot products can reach:
/// `DOT_BOUND^2`, i.e. `2^126`.
pub const NORM_PRODUCT_BOUND: u128 = 85070591730234615865843651857942052864;

/// An embedding vector the engine accepts: its dimension and every
/// coordinate's magnitude respect the machine limits above.
pub open spec fn embedding_wf(s: Seq<i32>) -> bool {
    &&& s.len() <= MAX_DIM
    &&& forall|i: int| 0 <= i < s.len() ==> -COORD_BOUND <= #[trigger] s[i] <= COORD_BOUND
}

/// Sum of `a[i] * b[i]` over the first `n` coordinates.
pub open spec fn dot_prefix(a: Seq<i32>, b: Seq<i32>, n: int) -> int
    decreases n,
{
    if n <= 0 {
        0
    } else {
        dot_prefix(a, b, n - 1) + a[n - 1] * b[n - 1]
    }
}

/// The dot product of two equal-length vectors.
pub open spec fn dot(a: Seq<i32>, b: Seq<i32>) -> int {
    dot_prefix(a, b, a.len() as int)
}

/// The floor of the square root of `n` (zero for negative `n`).
pub open spec fn sqrt_floor(n: int) -> int
    decreases n,
{
    if n <= 0 {
        0
    } else {
        let r = sqrt_floor(n - 1);
        if (r + 1) * (r + 1) <= n {
            r + 1
        } else {
            r
        }
    }
}

/// `sqrt_floor(n)` is the unique nonnegative root: its square is at most `n`
/// and the next square is beyond `n`.
pub proof fn lemma_sqrt_floor_props(n: int)
    requires
        n >= 0,
    ensures
        0 <= sqrt_floor(n),
        sqrt_floor(n) * sqrt_floor(n) <= n,
        n < (sqrt_floor(n) + 1) * (sqrt_floor(n) + 1),
    decreases n,
{
    if n == 0 {
    } else {
        lemma_sqrt_floor_props(n - 1);
        let p = sqrt_floor(n - 1);
        if (p + 1) * (p + 1) <= n {
            assert((p + 2) * (p + 2) > (p + 1) * (p + 1)) by (nonlinear_arith)
                requires
                    p >= 0,
            ;
        }
    }
}

/// Any nonnegative `r` whose square brackets `n` is the floor square root.
pub proof fn lemma_sqrt_floor_unique(n: int, r: int)
    requires
        n >= 0,
        r >= 0,
        r * r <= n,
        n < (r + 1) * (r + 1),
    ensures
        r == sqrt_floor(n),
{
    lemma_sqrt_floor_props(n);
    let s = sqrt_floor(n);
    if r < s {
        assert((r + 1) * (r + 1) <= s * s) by (nonlinear_arith)
            requires
                0 <= r,
                r + 1 <= s,
        ;
        assert(false);
    }
    if s < r {
        assert((s + 1) * (s + 1) <= r * r) by (nonlinear_arith)
            requires
                0 <= s,
                s + 1 <= r,
        ;
        assert(false);
    }
}

/// Dot products are symmetric.
pub proof fn lemma_dot_prefix_symmetric(a: Seq<i32>, b: Seq<i32>, n: int)
    ensures
        dot_prefix(a, b, n) == dot_prefix(b, a, n),
    decreases n,
{
    if n > 0 {
        lemma_dot_prefix_symmetric(a, b, n - 1);
        let x = a[n - 1] as int;
        let y = b[n - 1] as int;
        assert(x * y == y * x) by (nonlinear_arith);
    }
}

/// A vector's dot product with itself is nonnegative.
pub proof fn lemma_dot_self_nonneg(a: Seq<i32>, n: int)
    ensures
        dot_prefix(a, a, n) >= 0,
    decreases n,
{
    if n > 0 {
        lemma_dot_self_nonneg(a, n - 1);
        let x = a[n - 1] as int;
        assert(x * x >= 0) by (nonlinear_arith);
    }
}

/// A vector with a zero self dot product has a zero dot product with
/// every vector.
pub proof fn lemma_zero_norm_zero_dot(a: Seq<i32>, b: Seq<i32>, n: int)
    requires
        dot_prefix(a, a, n) == 0,
    ensures
        dot_prefix(a, b, n) == 0,
    decreases n,
{
    if n > 0 {
        let x = a[n - 1] as int;
        let y = b[n - 1] as int;
        lemma_dot_self_nonneg(a, n - 1);
        assert(x * x >= 0) by (nonlinear_arith);
        assert(x * x == 0 ==> x == 0) by (nonlinear_arith);
        lemma_zero_norm_zero_dot(a, b, n - 1);
        assert(x * y == 0) by (nonlinear_arith)
            requires
                x == 0,
        ;
    }
}

/// Sum of `(p * b[i] - q * a[i])^2` over the first `n` coordinates; the
/// auxiliary sum of squares behind the Cauchy-Schwarz proof.
spec fn cs_sum(a: Seq<i32>, b: Seq<i32>, p: int, q: int, n: int) -> int
    decreases n,
{
    if n <= 0 {
        0
    } else {
        let t = p * b[n - 1] - q * a[n - 1];
        cs_sum(a, b, p, q, n - 1) + t * t
    }
}

proof fn lemma_cs_sum_nonneg(a: Seq<i32>, b: Seq<i32>, p: int, q: int, n: int)
    ensures
        cs_sum(a, b, p, q, n) >= 0,
    decreases n,
{
    if n > 0 {
        lemma_cs_sum_nonneg(a, b, p, q, n - 1);
        let t = p * b[n - 1] - q * a[n - 1];
        assert(t * t >= 0) by (nonlinear_arith);
    }
}

proof fn lemma_square_expand(p: int, q: int, x: int, y: int)
    ensures
        (p * y - q * x) * (p * y - q * x) == p * p * (y * y) - 2 * p * q * (x * y) + q * q * (x
            * x),
{
    let u = p * y;
    let v = q * x;
    assert((u - v) * (u - v) == u * u - 2 * (u * v) + v * v) by (nonlinear_arith);
    assert((p * y) * (p * y) == p * p * (y * y)) by (nonlinear_arith);
    assert((p * y) * (q * x) == p * q * (x * y)) by (nonlinear_arith);
    assert((q * x) * (q * x) == q * q * (x * x)) by (nonlinear_arith);
    assert(2 * (p * q * (x * y)) == 2 * p * q * (x * y)) by (nonlinear_arith);
}

proof fn lemma_cs_sum_expand(a: Seq<i32>, b: Seq<i32>, p: int, q: int, n: int)
    requires
        n >= 0,
    ensures
        cs_sum(a, b, p, q, n) == p * p * dot_prefix(b, b, n) - 2 * p * q * dot_prefix(a, b, n)
            + q * q * dot_prefix(a, a, n),
    decreases n,
{
    if n == 0 {
        assert(p * p * 0 == 0) by (nonlinear_arith);
        assert(2 * p * q * 0 == 0) by (nonlinear_arith);
        assert(q * q * 0 == 0) by (nonlinear_arith);
    } else {
        lemma_cs_sum_expand(a, b, p, q, n - 1);
        let x = a[n - 1] as int;
        let y = b[n - 1] as int;
        let cb = dot_prefix(b, b, n - 1);
        let cab = dot_prefix(a, b, n - 1);
        let ca = dot_prefix(a, a, n - 1);
        lemma_square_expand(p, q, x, y);
        assert(p * p * (cb + y * y) == p * p * cb + p * p * (y * y)) by (nonlinear_arith);
        assert(2 * p * q * (cab + x * y) == 2 * p * q * cab + 2 * p * q * (x * y))
            by (nonlinear_arith);
        assert(q * q * (ca + x * x) == q * q * ca + q * q * (x * x)) by (nonlinear_arith);
    }
}

/// Cauchy-Schwarz: the square of a dot product is at most the product of the
/// self dot products.
pub proof fn lemma_cauchy_schwarz(a: Seq<i32>, b: Seq<i32>, n: int)
    requires
        n >= 0,
    ensures
        dot_prefix(a, b, n) * dot_prefix(a, b, n) <= dot_prefix(a, a, n) * dot_prefix(b, b, n),
{
    let aa = dot_prefix(a, a, n);
    let ab = dot_prefix(a, b, n);
    let bb = dot_prefix(b, b, n);
    lemma_dot_self_nonneg(a, n);
    lemma_dot_self_nonneg(b, n);
    if aa == 0 {
        lemma_zero_norm_zero_dot(a, b, n);
        assert(0 * 0 <= 0 * bb) by (nonlinear_arith);
    } else {
        lemma_cs_sum_expand(a, b, aa, ab, n);
        lemma_cs_sum_nonneg(a, b, aa, ab, n);
        assert(aa * aa * bb - 2 * aa * ab * ab + ab * ab * aa == aa * (aa * bb - ab * ab))
            by (nonlinear_arith);
        assert(ab * ab <= aa * bb) by (nonlinear_arith)
            requires
                aa > 0,
                aa * (aa * bb - ab * ab) >= 0,
        ;
    }
}

/// The dot product of the first `n` coordinates of two in-range vectors
/// stays within `n * COORD_BOUND^2`, i.e. `n * 2^48`.
pub proof fn lemma_dot_prefix_bound(a: Seq<i32>, b: Seq<i32>, n: int)
    requires
        n >= 0,
        forall|i: int| 0 <= i < n ==> -COORD_BOUND <= #[trigger] a[i] <= COORD_BOUND,
        forall|i: int| 0 <= i < n ==> -COORD_BOUND <= #[trigger] b[i] <= COORD_BOUND,
    ensures
        -(n * 281474976710656) <= dot_prefix(a, b, n) <= n * 281474976710656,
    decreases n,
{
    if n == 0 {
        assert(0 * 281474976710656 == 0) by (nonlinear_arith);
    } else {
        lemma_dot_prefix_bound(a, b, n - 1);
        let x: i32 = a[n - 1];
        let y: i32 = b[n - 1];
        assert(-281474976710656 <= x * y <= 281474976710656) by (nonlinear_arith)
            requires
                -16777216 <= x <= 16777216,
                -16777216 <= y <= 16777216,
        ;
        assert(n * 281474976710656 == (n - 1) * 281474976710656 + 281474976710656)
            by (nonlinear_arith);
    }
}

/// Computes the dot product of two equal-length embedding vectors exactly,
/// accumulating in 128-bit arithmetic.
pub fn dot_product(a: &Vec<i32>, b: &Vec<i32>) -> (r: i128)
    requires
        a@.len() == b@.len(),
        embedding_wf(a@),
        embedding_wf(b@),
    ensures
        r == dot(a@, b@),
        -DOT_BOUND <= r <= DOT_BOUND,
{
    let n = a.len();
    let mut acc: i128 = 0;
    let mut i: usize = 0;
    while i < n
        invariant
            0 <= i <= n,
            n == a@.len() == b@.len(),
            embedding_wf(a@),
            embedding_wf(b@),
            acc == dot_prefix(a@, b@, i as int),
            -(i as int * 281474976710656) <= acc <= i as int * 281474976710656,
        decreases n - i,
    {
        let x = a[i] as i128;
        let y = b[i] as i128;
        proof {
            assert(-COORD_BOUND <= a@[i as int] <= COORD_BOUND);
            assert(-COORD_BOUND <= b@[i as int] <= COORD_BOUND);
            assert(-281474976710656 <= x * y <= 281474976710656) by (nonlinear_arith)
                requires
                    -16777216 <= x <= 16777216,
                    -16777216 <= y <= 16777216,
            ;
            assert((i + 1) as int * 281474976710656 == i as int * 281474976710656
                + 281474976710656) by (nonlinear_arith);
            assert(MAX_DIM as int * 281474976710656 == DOT_BOUND as int) by (nonlinear_arith);
            assert(i as int * 281474976710656 <= MAX_DIM as int * 281474976710656)
                by (nonlinear_arith)
                requires
                    0 <= i as int <= MAX_DIM as int,
            ;
        }
        acc = acc + x * y;
        i = i + 1;
    }
    proof {
        lemma_dot_prefix_bound(a@, b@, n as int);
        assert(n as int * 281474976710656 <= MAX_DIM as int * 281474976710656)
            by (nonlinear_arith)
            requires
                0 <= n as int <= MAX_DIM as int,
        ;
        assert(MAX_DIM as int * 281474976710656 == DOT_BOUND as int) by (nonlinear_arith);
    }
    acc
}

/// Computes the floor square root by binary search over 128-bit values.
pub fn isqrt(x: u128) -> (r: u128)
    requires
        x as int <= NORM_PRODUCT_BOUND as int,
    ensures
        r as int == sqrt_floor(x as int),
        r <= 9223372036854775808,
{
    let mut lo: u128 = 0;
    let mut hi: u128 = 9223372036854775808;
    proof {
        assert((9223372036854775808 + 1) * (9223372036854775808 + 1) > NORM_PRODUCT_BOUND as int)
            by (nonlinear_arith);
    }
    while lo < hi
        invariant
            0 <= lo <= hi <= 9223372036854775808,
            lo as int * lo as int <= x as int,
            (x as int) < ((hi as int + 1) * (hi as int + 1)),
        decreases hi - lo,
    {
        let step = (hi - lo + 1) / 2;
        proof {
            assert(1 <= (hi as int - lo as int + 1) / 2 <= hi as int - lo as int)
                by (nonlinear_arith)
                requires
                    hi as int - lo as int >= 1,
            ;
        }
        let mid = lo + step;
        proof {
            assert(mid as int * mid as int <= 9223372036854775808 * 9223372036854775808)
                by (nonlinear_arith)
                requires
                    0 <= mid as int <= 9223372036854775808,
            ;
        }
        if mid * mid <= x {
            lo = mid;
        } else {
            hi = mid - 1;
        }
    }
    proof {
        lemma_sqrt_floor_unique(x as int, lo as int);
    }
    lo
}

} // verus!
