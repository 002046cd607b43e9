//! Toroidal addressing: coordinates outside an image wrap to the opposite edge.
use vstd::prelude::*;
use vstd::arithmetic::div_mod::{lemma_fundamental_div_mod, lemma_fundamental_div_mod_converse};

verus! {

/// Wraps one coordinate into `[0, n)`, congruent to `v` modulo `n`.
fn wrap_coord(v: i64, n: i64) -> (r: u64)
    requires
        n > 0,
    ensures
        r < n,
        r as int == v as int % n as int,
{
    let un = n as u64;
    if v >= 0 {
        (v as u64) % un
    } else {
        let m = (-(v + 1)) as u64;
        let rem = m % un;
        proof {
            let q = m as int / un as int;
            lemma_fundamental_div_mod(m as int, un as int);
            assert(v as int == (-q - 1) * un as int + (un as int - 1 - rem as int)) by (nonlinear_arith)
                requires
                    m as int == un as int * q + rem as int,
                    v as int == -(m as int) - 1,
            ;
            lemma_fundamental_div_mod_converse(v as int, un as int, -q - 1, un as int - 1 - rem as int);
        }
        un - 1 - rem
    }
}

/// Wraps the point `(x, y)` onto a torus of `sx` by `sy` cells: each
/// coordinate of the result lies in `[0, s)` and is congruent to the input
/// modulo `s`, however large or negative the input is.
pub fn wrap(x: i64, y: i64, sx: i64, sy: i64) -> (r: (u64, u64))
    requires
        sx > 0,
        sy > 0,
    ensures
        r.0 < sx,
        r.1 < sy,
        r.0 as int == x as int % sx as int,
        r.1 as int == y as int % sy as int,
{
    (wrap_coord(x, sx), wrap_coord(y, sy))
}

} // verus!
