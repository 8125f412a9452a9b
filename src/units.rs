//! Fixed-point lengths: `app_units::Au`, counted in 1/60 of a logical pixel.
use app_units::Au;
use vstd::prelude::*;

verus! {

#[verifier::external_type_specification]
pub struct ExAu(app_units::Au);

/// The smallest value that `Au` arithmetic produces.
pub open spec fn au_min() -> int {
    -0x3fff_ffff
}

/// The largest value that `Au` arithmetic produces.
pub open spec fn au_max() -> int {
    0x3fff_ffff
}

/// A length within the range that `Au` arithmetic keeps to.
pub open spec fn au_valid(a: app_units::Au) -> bool {
    au_min() <= a.0 && a.0 <= au_max()
}

/// `x` held to the range of `Au`.
pub open spec fn au_clamp(x: int) -> int {
    if x < au_min() {
        au_min()
    } else if x > au_max() {
        au_max()
    } else {
        x
    }
}

/// The sum of two lengths, held to the range of `Au`, as `<Au as Add>::add` gives it.
pub fn au_add(a: Au, b: Au) -> (r: Au)
    ensures
        r.0 == au_clamp(a.0 + b.0),
{
    let s: i64 = a.0 as i64 + b.0 as i64;
    if s < -0x3fff_ffff {
        Au(-0x3fff_ffff)
    } else if s > 0x3fff_ffff {
        Au(0x3fff_ffff)
    } else {
        Au(s as i32)
    }
}

/// `a / d` rounded toward zero, as Rust's `/` on `i32` gives it.
pub open spec fn div_toward_zero(a: int, d: int) -> int {
    if a >= 0 {
        a / d
    } else {
        -((-a) / d)
    }
}

/// A length scaled by an integer, held to the range of `Au`, as `<Au as Mul<i32>>::mul` gives it
/// (a product beyond `i32` saturates to the bound of its sign, which is what the clamp gives too).
pub fn au_mul(a: Au, k: i32) -> (r: Au)
    ensures
        r.0 == au_clamp(a.0 * k),
{
    let x: i64 = a.0 as i64;
    let y: i64 = k as i64;
    assert(-0x4000_0000_0000_0000 <= x * y <= 0x4000_0000_0000_0000) by (nonlinear_arith)
        requires
            -0x8000_0000 <= x <= 0x7fff_ffff,
            -0x8000_0000 <= y <= 0x7fff_ffff,
    ;
    let p: i64 = x * y;
    if p < -0x3fff_ffff {
        Au(-0x3fff_ffff)
    } else if p > 0x3fff_ffff {
        Au(0x3fff_ffff)
    } else {
        Au(p as i32)
    }
}

/// A length divided by a positive integer, rounded toward zero, as `<Au as Div<i32>>::div` gives it.
pub fn au_div(a: Au, d: i32) -> (r: Au)
    requires
        d > 0,
    ensures
        r.0 == div_toward_zero(a.0 as int, d as int),
{
    if a.0 >= 0 {
        Au(a.0 / d)
    } else {
        let n: i64 = -(a.0 as i64);
        let q: i64 = n / (d as i64);
        assert(q <= n) by (nonlinear_arith)
            requires
                n >= 0,
                d > 0,
                q as int == (n as int) / (d as int),
        ;
        Au(-q as i32)
    }
}

} // verus!
