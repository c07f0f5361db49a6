//! Cosine similarity over fixed-point embedding vectors.
//!
//! Embedding coordinates are 32-bit fixed-point values; scores are reported
//! on a fixed-point scale where `SCALE` stands for a similarity of one.
//! Mismatched lengths, empty vectors and zero norms all score zero, so a
//! record embedded under a different model degrades instead of failing.
//! Every score provably lies in `[-SCALE, SCALE]`, and a vector matched
//! against itself scores exactly `SCALE`: the denominator is the floor
//! square root of the *product* of the self dot products, so the
//! Cauchy-Schwarz inequality bounds the quotient by one.

use vstd::prelude::*;
use vstd::arithmetic::div_mod::{
    lemma_div_is_ordered, lemma_div_multiples_vanish, lemma_div_pos_is_pos,
};
use crate::math::{
    dot, embedding_wf, sqrt_floor, dot_product, isqrt, lemma_sqrt_floor_props,
    lemma_sqrt_floor_unique, lemma_dot_prefix_symmetric, lemma_dot_self_nonneg,
    lemma_cauchy_schwarz, DOT_BOUND, NORM_PRODUCT_BOUND,
};

verus! {

/// One on the fixed-point score scale: a cosine similarity of `1.0` is
/// reported as `SCALE`.
pub const SCALE: i64 = 1000000;

/// The score the engine assigns to a pair of vectors: zero in every
/// degenerate case, otherwise the dot product scaled by `SCALE` and
/// divided by the floor square root of the product of the self dot
/// products.
pub open spec fn spec_cosine(a: Seq<i32>, b: Seq<i32>) -> int {
    if a.len() != b.len() || a.len() == 0 {
        0
    } else {
        let dab = dot(a, b);
        let da = dot(a, a);
        let db = dot(b, b);
        if da == 0 || db == 0 {
            0
        } else {
            let denom = sqrt_floor(da * db);
            if dab >= 0 {
                (dab * SCALE) / denom
            } else {
                -(((-dab) * SCALE) / denom)
            }
        }
    }
}

/// The score is zero exactly in the degenerate cases: mismatched lengths,
/// empty vectors, or a zero norm on either side.
pub proof fn lemma_cosine_degenerate(a: Seq<i32>, b: Seq<i32>)
    requires
        a.len() != b.len() || a.len() == 0 || dot(a, a) == 0 || dot(b, b) == 0,
    ensures
        spec_cosine(a, b) == 0,
{
}

/// Cosine similarity is symmetric in its arguments.
pub proof fn lemma_cosine_symmetric(a: Seq<i32>, b: Seq<i32>)
    ensures
        spec_cosine(a, b) == spec_cosine(b, a),
{
    if a.len() == b.len() && a.len() > 0 {
        let n = a.len() as int;
        lemma_dot_prefix_symmetric(a, b, n);
        assert(dot(a, a) * dot(b, b) == dot(b, b) * dot(a, a)) by (nonlinear_arith);
    }
}

/// A value whose square is at most `p` lies within the floor square root
/// of `p`.
proof fn lemma_within_sqrt(x: int, p: int)
    requires
        p >= 0,
        x * x <= p,
    ensures
        -sqrt_floor(p) <= x <= sqrt_floor(p),
{
    lemma_sqrt_floor_props(p);
    let r = sqrt_floor(p);
    if x > r {
        assert((r + 1) * (r + 1) <= x * x) by (nonlinear_arith)
            requires
                0 <= r,
                r + 1 <= x,
        ;
        assert(false);
    }
    if x < -r {
        assert((r + 1) * (r + 1) <= x * x) by (nonlinear_arith)
            requires
                0 <= r,
                x <= -(r + 1),
        ;
        assert(false);
    }
}

/// Every score lies in `[-SCALE, SCALE]`: the fixed-point counterpart of
/// "cosine similarity ranges over [-1, 1]". Holds of all inputs, with no
/// side condition.
pub proof fn lemma_cosine_range(a: Seq<i32>, b: Seq<i32>)
    ensures
        -SCALE <= spec_cosine(a, b) <= SCALE,
{
    if a.len() == b.len() && a.len() > 0 {
        let dab = dot(a, b);
        let da = dot(a, a);
        let db = dot(b, b);
        if da != 0 && db != 0 {
            let n = a.len() as int;
            lemma_dot_self_nonneg(a, n);
            lemma_dot_self_nonneg(b, n);
            let p = da * db;
            assert(p >= 1) by (nonlinear_arith)
                requires
                    da >= 1,
                    db >= 1,
                    p == da * db,
            ;
            let r = sqrt_floor(p);
            lemma_sqrt_floor_props(p);
            if r == 0 {
                assert((r + 1) * (r + 1) == 1) by (nonlinear_arith)
                    requires
                        r == 0,
                ;
                assert(false);
            }
            lemma_cauchy_schwarz(a, b, n);
            lemma_within_sqrt(dab, p);
            if dab >= 0 {
                assert(dab * 1000000 <= r * 1000000) by (nonlinear_arith)
                    requires
                        0 <= dab <= r,
                ;
                lemma_div_is_ordered(dab * 1000000, r * 1000000, r);
                lemma_div_multiples_vanish(1000000int, r);
                lemma_div_pos_is_pos(dab * 1000000, r);
                assert(dab * SCALE == dab * 1000000);
            } else {
                let m = -dab;
                assert(m * 1000000 <= r * 1000000) by (nonlinear_arith)
                    requires
                        0 <= m <= r,
                ;
                lemma_div_is_ordered(m * 1000000, r * 1000000, r);
                lemma_div_multiples_vanish(1000000int, r);
                lemma_div_pos_is_pos(m * 1000000, r);
                assert(m * SCALE == m * 1000000);
            }
        }
    }
}

/// A nonzero vector compared with itself scores exactly `SCALE`: the
/// fixed-point counterpart of "cosine of a vector with itself is one".
pub proof fn lemma_cosine_self(a: Seq<i32>)
    requires
        a.len() > 0,
        dot(a, a) > 0,
    ensures
        spec_cosine(a, a) == SCALE,
{
    let d = dot(a, a);
    assert(d * d >= d) by (nonlinear_arith)
        requires
            d >= 1,
    ;
    assert(d * d < (d + 1) * (d + 1)) by (nonlinear_arith)
        requires
            d >= 1,
    ;
    lemma_sqrt_floor_unique(d * d, d);
    lemma_div_multiples_vanish(1000000int, d);
    assert(d * SCALE == d * 1000000);
}

/// No candidate scores above an exact match: against a fixed nonzero
/// query, a record whose embedding equals the query scores `SCALE`, and
/// every other score is at most that. Equality happens only for scores
/// tied at `SCALE`, where ranking falls back to input order.
pub proof fn lemma_cosine_self_is_max(a: Seq<i32>, b: Seq<i32>)
    requires
        a.len() > 0,
        dot(a, a) > 0,
    ensures
        spec_cosine(a, b) <= spec_cosine(a, a),
        spec_cosine(a, a) == SCALE,
{
    lemma_cosine_self(a);
    lemma_cosine_range(a, b);
}

/// Computes the fixed-point cosine similarity of two embedding vectors.
/// Returns exactly `spec_cosine` of the two views; the score always lies
/// within the unit scale.
pub fn cosine_similarity(a: &Vec<i32>, b: &Vec<i32>) -> (r: i64)
    requires
        embedding_wf(a@),
        embedding_wf(b@),
    ensures
        r as int == spec_cosine(a@, b@),
        -SCALE <= r <= SCALE,
{
    if a.len() != b.len() || a.len() == 0 {
        return 0;
    }
    let n = a.len();
    let da = dot_product(a, a);
    let db = dot_product(b, b);
    if da == 0 || db == 0 {
        return 0;
    }
    proof {
        lemma_dot_self_nonneg(a@, n as int);
        lemma_dot_self_nonneg(b@, n as int);
        assert(da as int * db as int <= DOT_BOUND as int * DOT_BOUND as int) by (nonlinear_arith)
            requires
                0 <= da as int <= DOT_BOUND as int,
                0 <= db as int <= DOT_BOUND as int,
        ;
        assert(DOT_BOUND as int * DOT_BOUND as int == NORM_PRODUCT_BOUND as int)
            by (nonlinear_arith);
        assert(da as int * db as int >= 1) by (nonlinear_arith)
            requires
                da as int >= 1,
                db as int >= 1,
        ;
    }
    let p: i128 = da * db;
    let dab = dot_product(a, b);
    let denomu: u128 = isqrt(p as u128);
    let ghost denom = sqrt_floor(p as int);
    proof {
        lemma_sqrt_floor_props(p as int);
        if denom == 0 {
            assert((denom + 1) * (denom + 1) == 1) by (nonlinear_arith)
                requires
                    denom == 0,
            ;
            assert(false);
        }
        lemma_cauchy_schwarz(a@, b@, n as int);
        lemma_within_sqrt(dab as int, p as int);
        assert(denom * 1000000 <= 9223372036854775808 * 1000000) by (nonlinear_arith)
            requires
                0 <= denom <= 9223372036854775808,
        ;
    }
    if dab >= 0 {
        let du: u128 = dab as u128;
        proof {
            assert(du as int * 1000000 <= denom * 1000000) by (nonlinear_arith)
                requires
                    0 <= du as int <= denom,
            ;
            lemma_div_is_ordered(du as int * 1000000, denom * 1000000, denom);
            lemma_div_multiples_vanish(1000000int, denom);
            lemma_div_pos_is_pos(du as int * 1000000, denom);
        }
        let mag: u128 = (du * 1000000) / denomu;
        mag as i64
    } else {
        let du: u128 = (-dab) as u128;
        proof {
            assert(du as int * 1000000 <= denom * 1000000) by (nonlinear_arith)
                requires
                    0 <= du as int <= denom,
            ;
            lemma_div_is_ordered(du as int * 1000000, denom * 1000000, denom);
            lemma_div_multiples_vanish(1000000int, denom);
            lemma_div_pos_is_pos(du as int * 1000000, denom);
        }
        let mag: u128 = (du * 1000000) / denomu;
        -(mag as i64)
    }
}

} // verus!
