//! A verified rotozoom engine: toroidal resampling of an RGBA8 source image
//! into a destination framebuffer under a rotation and scale, plus two
//! screen transitions (a left-to-right curtain wipe and an alpha fade).
use vstd::prelude::*;

pub mod buffer;
pub mod effect;
pub mod laws;
pub mod sampling;
pub mod wrap;
