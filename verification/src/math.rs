//! Integer helpers with the rounding the game uses: positions convert between
//! subpixels, pixels and tiles by flooring division, so movement behaves the
//! same on both sides of zero.
use vstd::prelude::*;

verus! {

/// `a` divided by a positive `d`, rounded toward negative infinity.
pub fn div_floor(a: i32, d: i32) -> (r: i32)
    requires
        d > 0,
    ensures
        r as int == a as int / d as int,
{
    proof {
        let ai = a as int;
        let di = d as int;
        let q = ai / di;
        assert(q * di <= ai && ai < q * di + di) by (nonlinear_arith)
            requires
                di > 0,
                q == ai / di,
        ;
        assert(i32::MIN <= q && q <= i32::MAX) by (nonlinear_arith)
            requires
                di > 0,
                q * di <= ai,
                ai < q * di + di,
                i32::MIN <= ai <= i32::MAX,
        ;
    }
    a.checked_div_euclid(d).unwrap()
}

/// The remainder of `a` divided by a positive `d`, always in `0..d`.
pub fn rem_floor(a: i32, d: i32) -> (r: i32)
    requires
        d > 0,
    ensures
        r as int == a as int % d as int,
        0 <= r < d,
{
    proof {
        let ai = a as int;
        let di = d as int;
        assert(0 <= ai % di && ai % di < di) by (nonlinear_arith)
            requires
                di > 0,
        ;
    }
    a.checked_rem_euclid(d).unwrap()
}

/// The smaller of two values.
pub open spec fn min_i(a: int, b: int) -> int {
    if a <= b { a } else { b }
}

/// The larger of two values.
pub open spec fn max_i(a: int, b: int) -> int {
    if a >= b { a } else { b }
}

/// `v` limited to the range `lo..=hi`.
pub open spec fn clamp_i(v: int, lo: int, hi: int) -> int {
    if v < lo { lo } else if v > hi { hi } else { v }
}

pub fn min_i32(a: i32, b: i32) -> (r: i32)
    ensures
        r == min_i(a as int, b as int),
{
    if a <= b { a } else { b }
}

pub fn max_i32(a: i32, b: i32) -> (r: i32)
    ensures
        r == max_i(a as int, b as int),
{
    if a >= b { a } else { b }
}

/// `v` limited to `lo..=hi`. The range must not be empty, as with std's clamp.
pub fn clamp_i32(v: i32, lo: i32, hi: i32) -> (r: i32)
    requires
        lo <= hi,
    ensures
        r == clamp_i(v as int, lo as int, hi as int),
{
    if v < lo { lo } else if v > hi { hi } else { v }
}

/// `a` divided by a positive `d`, rounded toward zero, as Rust's `/` does.
pub open spec fn div_trunc(a: int, d: int) -> int {
    if a >= 0 { a / d } else { -((-a) / d) }
}

/// `a` divided by a positive `d`, rounded toward zero.
pub fn div_toward_zero(a: i32, d: i32) -> (r: i32)
    requires
        d > 0,
    ensures
        r as int == div_trunc(a as int, d as int),
{
    proof {
        let ai = a as int;
        let di = d as int;
        if ai >= 0 {
            assert(0 <= ai / di <= ai) by (nonlinear_arith)
                requires ai >= 0, di > 0;
        } else {
            assert(0 <= (-ai) / di <= -ai) by (nonlinear_arith)
                requires ai < 0, di > 0;
        }
    }
    a.checked_div(d).unwrap()
}

} // verus!
