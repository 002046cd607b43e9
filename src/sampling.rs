//! The rotozoom transform in 16.16 fixed point: which source point each
//! destination pixel samples.
//!
//! A step `(dx, dy)` is `(cos(angle) * zoom, sin(angle) * zoom)` scaled by
//! `FIXED_ONE`. One step right in the destination moves `(dx, dy)` in the
//! source; one step down moves `(-dy, dx)`. The destination's centre maps to
//! the source's origin.
use vstd::prelude::*;

verus! {

/// 1.0 in 16.16 fixed point.
pub const FIXED_ONE: i32 = 65536;

/// Drops the fraction of a 16.16 value, rounding toward zero.
pub open spec fn trunc_fixed(v: int) -> int {
    if v >= 0 {
        v / 65536
    } else {
        -((-v) / 65536)
    }
}

/// Fixed-point source x sampled by destination pixel `(x, y)` of a
/// `w` by `h` destination.
pub open spec fn sample_x(dx: int, dy: int, w: int, h: int, x: int, y: int) -> int {
    dy * (h / 2) - dx * (w / 2) + x * dx - y * dy
}

/// Fixed-point source y sampled by destination pixel `(x, y)` of a
/// `w` by `h` destination.
pub open spec fn sample_y(dx: int, dy: int, w: int, h: int, x: int, y: int) -> int {
    x * dy + y * dx - dy * (w / 2) - dx * (h / 2)
}

proof fn lemma_step_product_bound(d: int, n: int)
    requires
        -0x8000_0000 <= d <= 0x8000_0000,
        0 <= n <= 0x1_0000,
    ensures
        -0x8000_0000_0000 <= d * n <= 0x8000_0000_0000,
{
    assert(-0x8000_0000_0000 <= d * n <= 0x8000_0000_0000) by (nonlinear_arith)
        requires
            -0x8000_0000 <= d <= 0x8000_0000,
            0 <= n <= 0x1_0000,
    ;
}

/// Integer part, toward zero, of a 16.16 value.
fn trunc_fixed_exec(v: i64) -> (r: i64)
    requires
        -0x4000_0000_0000_0000 <= v <= 0x4000_0000_0000_0000,
    ensures
        r == trunc_fixed(v as int),
{
    if v >= 0 {
        ((v as u64) / 65536) as i64
    } else {
        let n = (-v) as u64;
        -((n / 65536) as i64)
    }
}

/// The integer source point, before wrapping, that destination pixel
/// `(x, y)` of a `w` by `h` destination samples under the step `(dx, dy)`.
pub fn source_point(dx: i32, dy: i32, w: u16, h: u16, x: u16, y: u16) -> (r: (i64, i64))
    ensures
        r.0 == trunc_fixed(sample_x(dx as int, dy as int, w as int, h as int, x as int, y as int)),
        r.1 == trunc_fixed(sample_y(dx as int, dy as int, w as int, h as int, x as int, y as int)),
{
    let dx = dx as i64;
    let dy = dy as i64;
    let hw = (w / 2) as i64;
    let hh = (h / 2) as i64;
    let x = x as i64;
    let y = y as i64;
    proof {
        lemma_step_product_bound(dx as int, hw as int);
        lemma_step_product_bound(dy as int, hw as int);
        lemma_step_product_bound(dx as int, hh as int);
        lemma_step_product_bound(dy as int, hh as int);
        lemma_step_product_bound(dx as int, x as int);
        lemma_step_product_bound(dy as int, x as int);
        lemma_step_product_bound(dx as int, y as int);
        lemma_step_product_bound(dy as int, y as int);
        assert(x * dx == dx * x) by (nonlinear_arith);
        assert(y * dy == dy * y) by (nonlinear_arith);
        assert(x * dy == dy * x) by (nonlinear_arith);
        assert(y * dx == dx * y) by (nonlinear_arith);
    }
    let fx = dy * hh - dx * hw + x * dx - y * dy;
    let fy = x * dy + y * dx - dy * hw - dx * hh;
    (trunc_fixed_exec(fx), trunc_fixed_exec(fy))
}

} // verus!
