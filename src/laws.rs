//! Laws that relate several calls of the engine, stated over the same spec
//! functions that the operations' contracts use.
use vstd::prelude::*;
use vstd::arithmetic::div_mod::lemma_fundamental_div_mod_converse;
use crate::buffer::{PixelBuffer, Rgba};
use crate::effect::{curtain_step, faded, rotozoom_pixel, Effect};
use crate::sampling::{sample_x, sample_y, trunc_fixed, FIXED_ONE};

verus! {

proof fn lemma_trunc_whole(k: int)
    ensures
        trunc_fixed(65536 * k) == k,
{
    if k >= 0 {
        lemma_fundamental_div_mod_converse(65536 * k, 65536, k, 0);
    } else {
        lemma_fundamental_div_mod_converse(65536 * (-k), 65536, -k, 0);
    }
}

/// With the unit step (no rotation, zoom one) and a destination the size of
/// the source, destination pixel `(x, y)` shows the source pixel half an
/// image up and to the left of it, wrapped: the source comes through
/// unchanged apart from that centring shift, and the destination's centre
/// shows the source's origin.
pub proof fn lemma_rotozoom_identity(src: PixelBuffer, x: int, y: int)
    requires
        src.wf(),
        src.in_bounds(x, y),
    ensures
        ({
            let w = src.width as int;
            let h = src.height as int;
            &&& rotozoom_pixel(src, FIXED_ONE as int, 0, w, h, x, y) == src.pixel_at(
                (x - w / 2) % w,
                (y - h / 2) % h,
            )
            &&& rotozoom_pixel(src, FIXED_ONE as int, 0, w, h, w / 2, h / 2) == src.pixel_at(0, 0)
        }),
{
    let w = src.width as int;
    let h = src.height as int;
    assert(sample_x(65536, 0, w, h, x, y) == 65536 * (x - w / 2));
    assert(sample_y(65536, 0, w, h, x, y) == 65536 * (y - h / 2));
    lemma_trunc_whole(x - w / 2);
    lemma_trunc_whole(y - h / 2);
    assert(sample_x(65536, 0, w, h, w / 2, h / 2) == 65536 * 0);
    assert(sample_y(65536, 0, w, h, w / 2, h / 2) == 65536 * 0);
    lemma_trunc_whole(0);
    assert(0int % w == 0);
    assert(0int % h == 0);
}

/// Every column left of the curtain shows `color`.
pub open spec fn curtain_painted(e: Effect, color: Rgba) -> bool {
    forall|x: int, y: int|
        e.dst.in_bounds(x, y) && x < e.curtain_width ==> #[trigger] e.dst.pixel_at(x, y) == color
}

proof fn lemma_curtain_prefix(states: Seq<Effect>, color: Rgba, k: int)
    requires
        0 <= k < states.len(),
        states[0].wf(),
        states[0].curtain_width == 0,
        forall|i: int| 0 <= i < states.len() - 1 ==> #[trigger] curtain_step(states[i], states[i + 1], color),
    ensures
        states[k].dst.width == states[0].dst.width,
        states[k].dst.height == states[0].dst.height,
        states[k].curtain_width == if 5 * k <= states[0].dst.width { 5 * k } else { states[0].dst.width as int },
        curtain_painted(states[k], color),
    decreases k,
{
    if k > 0 {
        lemma_curtain_prefix(states, color, k - 1);
        let i = k - 1;
        assert(curtain_step(states[i], states[i + 1], color));
        let before = states[k - 1];
        let after = states[k];
        assert forall|x: int, y: int|
            after.dst.in_bounds(x, y) && x < after.curtain_width implies #[trigger] after.dst.pixel_at(x, y)
                == color by {
            assert(before.dst.in_bounds(x, y));
            if x >= before.curtain_width {
            } else {
                assert(before.dst.pixel_at(x, y) == color);
            }
        }
    }
}

/// A curtain run from a fresh curtain, one wipe call after another with one
/// colour: the curtain never shrinks and never passes the right edge; once
/// `5 * calls >= width` (after `ceil(width / 5)` calls) it spans the
/// destination, every pixel shows the colour, and each further call changes
/// nothing.
pub proof fn lemma_curtain_run(states: Seq<Effect>, color: Rgba)
    requires
        states.len() > 0,
        states[0].wf(),
        states[0].curtain_width == 0,
        forall|i: int| 0 <= i < states.len() - 1 ==> #[trigger] curtain_step(states[i], states[i + 1], color),
    ensures
        forall|i: int| 0 <= i < states.len() ==> #[trigger] states[i].curtain_width <= states[0].dst.width,
        forall|i: int|
            0 <= i < states.len() - 1 ==> #[trigger] states[i].curtain_width <= states[i + 1].curtain_width,
        forall|i: int|
            0 <= i < states.len() && 5 * i >= states[0].dst.width ==> #[trigger] states[i].curtain_width
                == states[0].dst.width,
        forall|i: int, x: int, y: int|
            0 <= i < states.len() && 5 * i >= states[0].dst.width && states[0].dst.in_bounds(x, y)
                ==> #[trigger] states[i].dst.pixel_at(x, y) == color,
        forall|i: int, x: int, y: int|
            0 <= i < states.len() - 1 && 5 * i >= states[0].dst.width && states[0].dst.in_bounds(x, y)
                ==> #[trigger] states[i + 1].dst.pixel_at(x, y) == states[i].dst.pixel_at(x, y),
{
    assert forall|i: int| 0 <= i < states.len() implies #[trigger] states[i].curtain_width
        <= states[0].dst.width by {
        lemma_curtain_prefix(states, color, i);
    }
    assert forall|i: int| 0 <= i < states.len() - 1 implies #[trigger] states[i].curtain_width
        <= states[i + 1].curtain_width by {
        lemma_curtain_prefix(states, color, i);
        lemma_curtain_prefix(states, color, i + 1);
    }
    assert forall|i: int|
        0 <= i < states.len() && 5 * i >= states[0].dst.width implies #[trigger] states[i].curtain_width
            == states[0].dst.width by {
        lemma_curtain_prefix(states, color, i);
    }
    assert forall|i: int, x: int, y: int|
        0 <= i < states.len() && 5 * i >= states[0].dst.width && states[0].dst.in_bounds(x, y)
            implies #[trigger] states[i].dst.pixel_at(x, y) == color by {
        lemma_curtain_prefix(states, color, i);
    }
    assert forall|i: int, x: int, y: int|
        0 <= i < states.len() - 1 && 5 * i >= states[0].dst.width && states[0].dst.in_bounds(x, y)
            implies #[trigger] states[i + 1].dst.pixel_at(x, y) == states[i].dst.pixel_at(x, y) by {
        lemma_curtain_prefix(states, color, i);
        lemma_curtain_prefix(states, color, i + 1);
        assert(curtain_step(states[i], states[i + 1], color));
    }
}

/// The pixel `p` after `k` fade calls: alpha lowered by `5 * k`, floored at
/// zero, colour unchanged.
pub open spec fn faded_by(p: Rgba, k: int) -> Rgba {
    Rgba { r: p.r, g: p.g, b: p.b, a: if p.a >= 5 * k { (p.a - 5 * k) as u8 } else { 0 } }
}

/// A fade run, one `make_transparent` after another: after `k` calls each
/// pixel's alpha has dropped by `5 * k`, never below zero, while its colour
/// bytes stay as they were; so after `ceil(255 / 5)` calls every alpha is
/// zero, and stays zero.
pub proof fn lemma_fade_run(states: Seq<Effect>)
    requires
        states.len() > 0,
        forall|i: int|
            0 <= i < states.len() - 1 ==> #[trigger] states[i + 1].dst.pixels() == states[i].dst.pixels().map_values(
                |p: Rgba| faded(p),
            ),
    ensures
        forall|k: int| 0 <= k < states.len() ==> #[trigger] states[k].dst.pixels().len() == states[0].dst.pixels().len(),
        forall|k: int, j: int|
            0 <= k < states.len() && 0 <= j < states[0].dst.pixels().len() ==> #[trigger] states[k].dst.pixels()[j]
                == faded_by(states[0].dst.pixels()[j], k),
        forall|k: int, j: int|
            0 <= k < states.len() && 0 <= j < states[0].dst.pixels().len() && 5 * k >= 255
                ==> #[trigger] states[k].dst.pixels()[j].a == 0,
{
    assert forall|k: int| 0 <= k < states.len() implies #[trigger] states[k].dst.pixels().len()
        == states[0].dst.pixels().len() by {
        lemma_fade_prefix(states, k);
    }
    assert forall|k: int, j: int|
        0 <= k < states.len() && 0 <= j < states[0].dst.pixels().len() implies #[trigger] states[k].dst.pixels()[j]
            == faded_by(states[0].dst.pixels()[j], k) by {
        lemma_fade_prefix(states, k);
    }
}

proof fn lemma_fade_prefix(states: Seq<Effect>, k: int)
    requires
        0 <= k < states.len(),
        forall|i: int|
            0 <= i < states.len() - 1 ==> #[trigger] states[i + 1].dst.pixels() == states[i].dst.pixels().map_values(
                |p: Rgba| faded(p),
            ),
    ensures
        states[k].dst.pixels().len() == states[0].dst.pixels().len(),
        forall|j: int| 0 <= j < states[0].dst.pixels().len() ==> #[trigger] states[k].dst.pixels()[j]
            == faded_by(states[0].dst.pixels()[j], k),
    decreases k,
{
    if k > 0 {
        lemma_fade_prefix(states, k - 1);
        let i = k - 1;
        assert(states[i + 1].dst.pixels() == states[i].dst.pixels().map_values(|p: Rgba| faded(p)));
    }
}

} // verus!
