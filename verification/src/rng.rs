use vstd::prelude::*;

use crate::fx::{tdiv, FS};

verus! {

/// Relies on rand::random::<u64>: a fresh value from the thread-local
/// generator. Nothing is promised of it; callers must hold for every
/// outcome.
#[verifier::external_body]
fn random_u64() -> u64 {
    rand::random::<u64>()
}

/// A draw in `[0, 1)` at the fixed-point scale.
pub fn random_unit_scalar() -> (r: i64)
    ensures
        0 <= r < FS,
{
    let u = random_u64();
    (u % (FS as u64)) as i64
}

/// A draw in `{0, 1, 2}`: the axis chosen for a tree split.
pub fn random_axis() -> (r: u8)
    ensures
        r < 3,
{
    let u = random_u64();
    (u % 3) as u8
}

/// A draw in `[min, max)` at the fixed-point scale.
pub fn random_in_range_scalar(min: i64, max: i64) -> (r: i64)
    requires
        min < max,
        -(crate::vec3::DOT_LIMIT as int) <= min,
        max <= crate::vec3::DOT_LIMIT as int,
    ensures
        min <= r < max,
{
    let u = random_unit_scalar();
    let span: i64 = max - min;
    proof {
        lemma_range_step(span as int, u as int);
    }
    let step: i64 = ((span as i128 * (u as i128)) / (FS as i128)) as i64;
    min + step
}

/// Scaling a span by a unit draw lands strictly inside the span.
proof fn lemma_range_step(span: int, u: int)
    requires
        0 < span,
        0 <= u < FS as int,
    ensures
        0 <= tdiv(span * u, FS as int) < span,
{
    assert(0 <= tdiv(span * u, FS as int) < span) by (nonlinear_arith)
        requires
            0 < span,
            0 <= u < FS as int,
            tdiv(span * u, FS as int) == if span * u >= 0 {
                (span * u) / (FS as int)
            } else {
                -((-(span * u)) / (FS as int))
            },
    ;
}

} // verus!
