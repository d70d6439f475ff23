//! Machine limits and fixed-point scales shared by the whole pipeline.

use vstd::prelude::*;

verus! {

/// Largest viewport side accepted. Keeps a pixel buffer length
/// (`width * height`) inside `usize` even on 32-bit targets, and every
/// squared pixel distance comfortably inside `u64` arithmetic.
pub const MAX_DIM: usize = 32768;

/// Cap on the number of JFA propagation passes. The derived count for any
/// accepted viewport is at most 15; the cap only bounds manual overrides so
/// that `2^(pass_count - 1)` sample offsets stay representable.
pub const MAX_PASSES: usize = 30;

/// Cap on the cascade count. The derived count for any accepted viewport is
/// at most 17; the cap only bounds manual overrides.
pub const MAX_CASCADES: u32 = 32;

/// Cap on the per-pixel ray count of one cascade pass.
pub const MAX_RAYS: u64 = 65536;

/// Cap on raymarch band distances. Strictly larger than the diagonal of the
/// largest accepted viewport (`32768 * sqrt(2) < 46341`), so capping never
/// cuts a band short inside the image.
pub const MAX_RANGE: u64 = 65536;

/// Fixed-point one for merge weights: a weight of 256 means 1.0.
pub const WEIGHT_ONE: u32 = 256;

} // verus!
