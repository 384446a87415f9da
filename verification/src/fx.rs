use vstd::prelude::*;

verus! {

/// Fixed-point scale: a raw scalar `x` stands for the real number `x / FS`.
/// A decimal scale keeps every constant of the renderer (0.001, 0.2, 0.5,
/// 0.7, 0.9, 255.999, ...) exactly representable.
pub const FS: i64 = 100_000;

/// Largest raw magnitude accepted for a coordinate, direction component,
/// radius or ray parameter: 4096 units. Within this bound every
/// intermediate product of the intersection math fits in `i128`.
pub const COORD_LIMIT: i64 = 409_600_000;

/// Largest raw magnitude a computed hit point can reach when rays stay
/// within the coordinate limit.
pub const POINT_LIMIT: i64 = 2_000_000_000_000;

/// Truncated (round-toward-zero) division: the semantics of Rust's `/` on
/// signed integers, for any nonzero divisor.
pub open spec fn tdiv(a: int, b: int) -> int {
    if a >= 0 {
        a / b
    } else {
        -((-a) / b)
    }
}

/// Scaled product of two fixed-point scalars.
pub open spec fn fmul(a: int, b: int) -> int {
    tdiv(a * b, FS as int)
}

/// Scaled quotient of two fixed-point scalars.
pub open spec fn fdiv(a: int, b: int) -> int {
    tdiv(a * (FS as int), b)
}

/// A product of bounded factors is bounded by the product of the bounds.
pub proof fn lemma_prod_bound(a: int, b: int, ma: int, mb: int)
    requires
        0 <= ma,
        0 <= mb,
        -ma <= a <= ma,
        -mb <= b <= mb,
    ensures
        -(ma * mb) <= a * b <= ma * mb,
        0 <= ma * mb,
{
    assert(-(ma * mb) <= a * b <= ma * mb && 0 <= ma * mb) by (nonlinear_arith)
        requires
            0 <= ma && 0 <= mb && -ma <= a <= ma && -mb <= b <= mb,
    ;
}

/// Fixed-point multiplication, exact over a widened intermediate.
pub fn fx_mul(a: i64, b: i64) -> (r: i64)
    requires
        i64::MIN <= fmul(a as int, b as int) <= i64::MAX,
    ensures
        r as int == fmul(a as int, b as int),
{
    let p: i128 = (a as i128) * (b as i128);
    let q: i128 = p / (FS as i128);
    q as i64
}

/// Fixed-point division, exact over a widened intermediate.
pub fn fx_div(a: i64, b: i64) -> (r: i64)
    requires
        b != 0,
        i64::MIN <= fdiv(a as int, b as int) <= i64::MAX,
    ensures
        r as int == fdiv(a as int, b as int),
{
    let p: i128 = (a as i128) * (FS as i128);
    let q: i128 = p / (b as i128);
    q as i64
}

/// Integer square root, rounded down.
pub fn isqrt_u128(x: u128) -> (r: u64)
    ensures
        (r as int) * (r as int) <= x as int,
        (x as int) < (r as int + 1) * (r as int + 1),
{
    let mut lo: u128 = 0;
    let mut hi: u128 = u64::MAX as u128;
    proof {
        assert((hi as int + 1) * (hi as int + 1) > u128::MAX as int) by (nonlinear_arith)
            requires
                hi == u64::MAX as u128,
        ;
    }
    while lo < hi
        invariant
            lo <= hi <= u64::MAX as u128,
            (lo as int) * (lo as int) <= x as int,
            (x as int) < (hi as int + 1) * (hi as int + 1),
        decreases hi - lo,
    {
        let mid: u128 = lo + (hi - lo + 1) / 2;
        proof {
            assert(mid * mid <= u64::MAX as u128 * u64::MAX as u128) by (nonlinear_arith)
                requires
                    mid <= u64::MAX as u128,
            ;
        }
        if mid * mid <= x {
            lo = mid;
        } else {
            hi = mid - 1;
        }
    }
    lo as u64
}

/// Square root of a nonnegative widened scalar, rounded down.
pub fn isqrt_i128(x: i128) -> (r: i64)
    requires
        0 <= x,
        x as int <= (i64::MAX as int) * (i64::MAX as int),
    ensures
        0 <= r,
        (r as int) * (r as int) <= x as int,
        (x as int) < (r as int + 1) * (r as int + 1),
{
    let r: u64 = isqrt_u128(x as u128);
    proof {
        assert(r as int <= i64::MAX as int) by (nonlinear_arith)
            requires
                (r as int) * (r as int) <= (i64::MAX as int) * (i64::MAX as int),
                r as int >= 0,
        ;
    }
    r as i64
}

} // verus!
