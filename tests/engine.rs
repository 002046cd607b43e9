use rotozoom::buffer::{PixelBuffer, Rgba};
use rotozoom::effect::Effect;
use rotozoom::sampling::{source_point, FIXED_ONE};
use rotozoom::wrap::wrap;

fn px(r: u8, g: u8, b: u8, a: u8) -> Rgba {
    Rgba { r, g, b, a }
}

/// A `w` by `h` image whose pixel `(x, y)` is `(x, y, x * 16 + y, 255)`.
fn gradient(w: u16, h: u16) -> PixelBuffer {
    let mut bytes = Vec::new();
    for y in 0..h {
        for x in 0..w {
            bytes.extend_from_slice(&[x as u8, y as u8, (x * 16 + y) as u8, 255]);
        }
    }
    PixelBuffer::from_bytes(w, h, bytes).unwrap()
}

fn corners() -> PixelBuffer {
    let mut bytes = Vec::new();
    for c in [[255, 0, 0, 255], [0, 255, 0, 255], [0, 0, 255, 255], [255, 255, 0, 255]] {
        bytes.extend_from_slice(&c);
    }
    PixelBuffer::from_bytes(2, 2, bytes).unwrap()
}

fn steps(angle: f64, zoom: f64) -> (i32, i32) {
    let one = FIXED_ONE as f64;
    ((angle.cos() * zoom * one) as i32, (angle.sin() * zoom * one) as i32)
}

#[test]
fn wrap_examples() {
    assert_eq!(wrap(-1, 0, 10, 10), (9, 0));
    assert_eq!(wrap(23, 0, 10, 10), (3, 0));
    assert_eq!(wrap(0, -10, 10, 10), (0, 0));
    assert_eq!(wrap(-1_000_000_007, 1_000_000_007, 10, 7), (3, 1_000_000_007 % 7));
    assert_eq!(wrap(i64::MIN, i64::MAX, 3, 5), (1, 2));
}

#[test]
fn from_bytes_checks_length() {
    assert!(PixelBuffer::from_bytes(2, 2, vec![0; 15]).is_none());
    assert!(PixelBuffer::from_bytes(2, 2, vec![0; 17]).is_none());
    assert!(PixelBuffer::from_bytes(2, 2, vec![0; 16]).is_some());
    assert!(PixelBuffer::from_bytes(0, 5, Vec::new()).is_some());
}

#[test]
fn filled_and_pixels() {
    let b = PixelBuffer::filled(3, 2, px(1, 2, 3, 4));
    assert_eq!(b.bytes, vec![1, 2, 3, 4, 1, 2, 3, 4, 1, 2, 3, 4, 1, 2, 3, 4, 1, 2, 3, 4, 1, 2, 3, 4]);
    let mut g = gradient(3, 2);
    assert_eq!(g.get_pixel(2, 1), px(2, 1, 33, 255));
    g.set_pixel(1, 1, px(9, 9, 9, 9));
    assert_eq!(g.get_pixel(1, 1), px(9, 9, 9, 9));
    assert_eq!(g.get_pixel(0, 1), px(0, 1, 1, 255));
    assert_eq!(g.get_pixel(1, 0), px(1, 0, 16, 255));
}

#[test]
fn copy_pixel_copies_four_bytes() {
    let src = gradient(4, 3);
    let dst = PixelBuffer::filled(2, 2, px(7, 7, 7, 7));
    let mut e = Effect::new(src, dst);
    e.copy_pixel(3, 2, 1, 0);
    assert_eq!(e.dst.bytes, vec![7, 7, 7, 7, 3, 2, 50, 255, 7, 7, 7, 7, 7, 7, 7, 7]);
    assert_eq!(e.src.bytes, gradient(4, 3).bytes);
    assert_eq!(e.curtain_width, 0);
}

#[test]
fn source_point_unit_step() {
    assert_eq!(source_point(FIXED_ONE, 0, 4, 2, 0, 0), (-2, -1));
    assert_eq!(source_point(FIXED_ONE, 0, 4, 2, 3, 1), (1, 0));
    // Half steps: -0.5 truncates toward zero.
    assert_eq!(source_point(FIXED_ONE / 2, 0, 2, 2, 0, 0), (0, 0));
    assert_eq!(source_point(FIXED_ONE / 2, 0, 4, 4, 0, 0), (-1, -1));
    // A quarter turn: a step right moves down the source.
    assert_eq!(source_point(0, FIXED_ONE, 4, 4, 3, 0), (2, 1));
}

#[test]
fn rotozoom_identity_shifts_by_half() {
    let (w, h) = (5u16, 4u16);
    let mut e = Effect::new(gradient(w, h), PixelBuffer::filled(w, h, px(0, 0, 0, 0)));
    e.rotozoom(FIXED_ONE, 0);
    for y in 0..h as usize {
        for x in 0..w as usize {
            let sx = (x + w as usize - w as usize / 2) % w as usize;
            let sy = (y + h as usize - h as usize / 2) % h as usize;
            assert_eq!(e.dst.get_pixel(x, y), e.src.get_pixel(sx, sy));
        }
    }
    assert_eq!(e.dst.get_pixel(2, 2), e.src.get_pixel(0, 0));
}

#[test]
fn two_by_two_scenario() {
    let mut e = Effect::new(corners(), PixelBuffer::filled(2, 2, px(0, 0, 0, 0)));
    // The centring offset of a 2 by 2 destination is one pixel, so the
    // unit step shows each pixel's diagonal opposite.
    e.rotozoom(FIXED_ONE, 0);
    for y in 0..2 {
        for x in 0..2 {
            assert_eq!(e.dst.get_pixel(x, y), e.src.get_pixel(1 - x, 1 - y));
        }
    }
    // Half a turn from the unit step.
    let (dx, dy) = steps(std::f64::consts::PI, 1.0);
    assert_eq!((dx, dy), (-FIXED_ONE, 0));
    e.rotozoom(dx, dy);
    for y in 0..2 {
        for x in 0..2 {
            assert_eq!(e.dst.get_pixel(x, y), e.src.get_pixel(1 - x, 1 - y));
        }
    }
}

#[test]
fn rotozoom_full_turn_is_periodic() {
    let src = gradient(7, 5);
    for &(angle, zoom) in &[(0.3f64, 1.5f64), (1.0, 0.75), (2.5, 2.0)] {
        let (a, b) = steps(angle, zoom);
        let (c, d) = steps(angle + 2.0 * std::f64::consts::PI, zoom);
        let mut e1 = Effect::new(gradient(7, 5), PixelBuffer::filled(9, 6, px(0, 0, 0, 0)));
        let mut e2 = Effect::new(gradient(7, 5), PixelBuffer::filled(9, 6, px(0, 0, 0, 0)));
        e1.rotozoom(a, b);
        e2.rotozoom(c, d);
        assert_eq!(e1.dst.bytes, e2.dst.bytes);
        assert_eq!(e1.src.bytes, src.bytes);
    }
}

#[test]
fn rotozoom_zero_zoom_is_one_colour() {
    let mut e = Effect::new(gradient(3, 3), PixelBuffer::filled(4, 4, px(0, 0, 0, 0)));
    e.rotozoom(0, 0);
    let first = e.src.get_pixel(0, 0);
    for y in 0..4 {
        for x in 0..4 {
            assert_eq!(e.dst.get_pixel(x, y), first);
        }
    }
}

#[test]
fn rotozoom_negative_zoom_flips() {
    let mut e = Effect::new(gradient(4, 4), PixelBuffer::filled(4, 4, px(0, 0, 0, 0)));
    e.rotozoom(-FIXED_ONE, 0);
    // Sampled point (2 - x, 2 - y), wrapped.
    assert_eq!(e.dst.get_pixel(0, 0), e.src.get_pixel(2, 2));
    assert_eq!(e.dst.get_pixel(3, 1), e.src.get_pixel(3, 1));
    assert_eq!(e.dst.get_pixel(3, 3), e.src.get_pixel(3, 3));
    assert_eq!(e.dst.get_pixel(1, 0), e.src.get_pixel(1, 2));
}

#[test]
fn curtain_sweeps_and_stops() {
    let white = px(255, 255, 255, 255);
    let mut e = Effect::new(gradient(2, 2), gradient(12, 3));
    e.left_curtain(white);
    assert_eq!(e.curtain_width, 5);
    assert_eq!(e.dst.get_pixel(4, 2), white);
    assert_eq!(e.dst.get_pixel(5, 2), px(5, 2, 82, 255));
    e.left_curtain(white);
    assert_eq!(e.curtain_width, 10);
    e.left_curtain(white);
    assert_eq!(e.curtain_width, 12);
    for y in 0..3 {
        for x in 0..12 {
            assert_eq!(e.dst.get_pixel(x, y), white);
        }
    }
    let before = e.dst.bytes.clone();
    e.left_curtain(px(0, 0, 0, 255));
    assert_eq!(e.curtain_width, 12);
    assert_eq!(e.dst.bytes, before);
}

#[test]
fn curtain_on_exact_multiple() {
    let c = px(1, 2, 3, 4);
    let mut e = Effect::new(gradient(1, 1), gradient(10, 1));
    e.left_curtain(c);
    e.left_curtain(c);
    assert_eq!(e.curtain_width, 10);
    assert_eq!(e.dst.bytes, PixelBuffer::filled(10, 1, c).bytes);
}

#[test]
fn set_color_fills_everything() {
    let c = px(10, 20, 30, 40);
    let mut e = Effect::new(gradient(2, 2), gradient(3, 4));
    e.set_color(c);
    assert_eq!(e.dst.bytes, PixelBuffer::filled(3, 4, c).bytes);
    assert_eq!(e.curtain_width, 0);
}

#[test]
fn fade_reaches_zero_and_keeps_colour() {
    let mut bytes = Vec::new();
    for a in [255u8, 7, 5, 0] {
        bytes.extend_from_slice(&[11, 22, 33, a]);
    }
    let mut e = Effect::new(gradient(1, 1), PixelBuffer::from_bytes(2, 2, bytes).unwrap());
    e.make_transparent();
    assert_eq!(e.dst.bytes, vec![11, 22, 33, 250, 11, 22, 33, 2, 11, 22, 33, 0, 11, 22, 33, 0]);
    for _ in 1..50 {
        e.make_transparent();
    }
    assert_eq!(e.dst.get_pixel(0, 0).a, 5);
    e.make_transparent();
    for _ in 0..3 {
        for y in 0..2 {
            for x in 0..2 {
                assert_eq!(e.dst.get_pixel(x, y), px(11, 22, 33, 0));
            }
        }
        e.make_transparent();
    }
}
