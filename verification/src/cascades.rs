//! The Radiance Cascades light-propagation solver.
//!
//! Indirect lighting is decomposed into `cascade_count` distance/angle
//! bands. Cascade `i` marches `base_ray_count * 2^i` rays (capped) per pixel
//! through the distance field, restricted to the radial band
//! `[b^i - 1, b^(i+1) - 1)` with `b = max(base_ray_count, 2)`; a ray that
//! hits a seed pixel contributes the scene color there, a ray that leaves
//! its band empty-handed falls back to the previous (coarser) cascade's
//! radiance at the pixel, weighted by `angle_offset` (fixed point, 256 is
//! one). The cascades run coarsest-first over a ping-pong pair; the pass
//! with `cascade_index == 0` alone writes the externally supplied output.
//!
//! All arithmetic is exact integer arithmetic: distances are squared
//! distances, march steps take the floor square root, and weights are fixed
//! point, so every pass is a pure function of its inputs.

use vstd::prelude::*;
use vstd::arithmetic::power2::{pow2, lemma_pow2_unfold, lemma_pow2_pos};
use crate::image::{Image, Rgba, lemma_flat_index_bounds, lemma_flat_index_make, lemma_flat_index_split};
use crate::jfa::DistField;
use crate::limits::{MAX_DIM, MAX_CASCADES, MAX_RAYS, MAX_RANGE, WEIGHT_ONE};
use crate::counts::{derive_cascade_count, is_cascade_count};
use crate::pingpong::PingPong;

verus! {

/// The per-cascade uniform record. A fresh copy goes to every pass, because
/// `cascade_index` changes between passes.
#[derive(Clone, Copy, PartialEq, Eq, Structural, Debug)]
pub struct CascadeParams {
    /// Merge weight for the previous cascade's radiance, in 1/256 units
    /// (256 is a weight of one).
    pub angle_offset: u32,
    /// Number of cascade passes; at least 1.
    pub cascade_count: u32,
    /// The band the current pass computes, counted down to 0.
    pub cascade_index: u32,
    /// Rays of the finest cascade; also the growth base of the bands.
    pub base_ray_count: u32,
}

impl CascadeParams {
    /// The bounds every solver keeps: they make ray counts, bands and
    /// weights computable without overflow.
    pub open spec fn valid(self) -> bool {
        &&& self.angle_offset <= WEIGHT_ONE
        &&& 1 <= self.cascade_count <= MAX_CASCADES
        &&& 1 <= self.base_ray_count <= 65536
    }

    /// The default tuning: half-weight merges, two cascades, four rays.
    pub fn new() -> (p: CascadeParams)
        ensures
            p == (CascadeParams {
                angle_offset: 128,
                cascade_count: 2,
                cascade_index: 0,
                base_ray_count: 4,
            }),
            p.valid(),
    {
        CascadeParams { angle_offset: 128, cascade_count: 2, cascade_index: 0, base_ray_count: 4 }
    }
}

/// Floor of the square root, defined by counting up.
pub open spec fn isqrt_spec(n: nat) -> nat
    decreases n,
{
    if n == 0 {
        0
    } else {
        let p = isqrt_spec((n - 1) as nat);
        if (p + 1) * (p + 1) <= n {
            p + 1
        } else {
            p
        }
    }
}

/// `isqrt_spec` is the floor square root: it is bracketed by the adjacent
/// squares.
pub proof fn lemma_isqrt_spec_bounds(n: nat)
    ensures
        isqrt_spec(n) * isqrt_spec(n) <= n,
        n < (isqrt_spec(n) + 1) * (isqrt_spec(n) + 1),
    decreases n,
{
    if n > 0 {
        lemma_isqrt_spec_bounds((n - 1) as nat);
        let p = isqrt_spec((n - 1) as nat);
        assert(p * p <= n - 1);
        assert((n - 1) < (p + 1) * (p + 1));
        if (p + 1) * (p + 1) <= n {
            assert(isqrt_spec(n) == p + 1);
            assert(n < ((p + 1) + 1) * ((p + 1) + 1)) by (nonlinear_arith)
                requires (n - 1) < (p + 1) * (p + 1), 0 <= p;
        } else {
            assert(isqrt_spec(n) == p);
        }
    } else {
        assert(isqrt_spec(n) == 0);
        assert(isqrt_spec(n) * isqrt_spec(n) == 0 && (isqrt_spec(n) + 1) * (isqrt_spec(n) + 1)
            == 1) by (nonlinear_arith)
            requires isqrt_spec(n) == 0;
    }
}

/// The bracketing pins the floor square root down.
pub proof fn lemma_isqrt_unique(n: nat, r1: nat, r2: nat)
    requires
        r1 * r1 <= n < (r1 + 1) * (r1 + 1),
        r2 * r2 <= n < (r2 + 1) * (r2 + 1),
    ensures
        r1 == r2,
{
    assert(r1 == r2) by (nonlinear_arith)
        requires
            r1 * r1 <= n < (r1 + 1) * (r1 + 1),
            r2 * r2 <= n < (r2 + 1) * (r2 + 1),
    ;
}

/// Floor square root by binary search.
pub fn isqrt(n: u64) -> (r: u64)
    ensures
        r == isqrt_spec(n as nat),
        r * r <= n,
        n < (r + 1) * (r + 1),
{
    let mut lo: u64 = 0;
    let mut hi: u64 = if n < 0xFFFF_FFFF {
        n + 1
    } else {
        0x1_0000_0000
    };
    proof {
        assert(n < 0xFFFF_FFFF ==> (n as int) < (n + 1) * (n + 1)) by (nonlinear_arith);
        assert(n >= 0xFFFF_FFFF ==> (n as int) < 0x1_0000_0000 * 0x1_0000_0000)
            by (nonlinear_arith)
            requires n <= 0xFFFF_FFFF_FFFF_FFFFu64;
    }
    while lo + 1 < hi
        invariant
            lo < hi <= 0x1_0000_0000,
            lo * lo <= n,
            (n as int) < hi * hi,
        decreases hi - lo,
    {
        let mid = lo + (hi - lo) / 2;
        proof {
            assert(mid * mid < 0x1_0000_0000_0000_0000) by (nonlinear_arith)
                requires mid < 0x1_0000_0000u64;
        }
        if mid * mid <= n {
            lo = mid;
        } else {
            hi = mid;
        }
    }
    proof {
        lemma_isqrt_spec_bounds(n as nat);
        lemma_isqrt_unique(n as nat, lo as nat, isqrt_spec(n as nat));
    }
    lo
}

/// The eight compass directions, counter-clockwise from +X.
pub open spec fn dir8(j: int) -> (int, int) {
    if j == 0 {
        (1, 0)
    } else if j == 1 {
        (1, 1)
    } else if j == 2 {
        (0, 1)
    } else if j == 3 {
        (-1, 1)
    } else if j == 4 {
        (-1, 0)
    } else if j == 5 {
        (-1, -1)
    } else if j == 6 {
        (0, -1)
    } else {
        (1, -1)
    }
}

/// Compass direction `j` as machine words.
pub fn dir8_exec(j: u64) -> (d: (i64, i64))
    requires
        j < 8,
    ensures
        (d.0 as int, d.1 as int) == dir8(j as int),
        -1 <= d.0 <= 1,
        -1 <= d.1 <= 1,
{
    if j == 0 {
        (1, 0)
    } else if j == 1 {
        (1, 1)
    } else if j == 2 {
        (0, 1)
    } else if j == 3 {
        (-1, 1)
    } else if j == 4 {
        (-1, 0)
    } else if j == 5 {
        (-1, -1)
    } else if j == 6 {
        (0, -1)
    } else {
        (1, -1)
    }
}

/// Rays of cascade `i`: `base * 2^i`, capped at `MAX_RAYS`.
pub open spec fn ray_count_spec(base: nat, i: nat) -> nat {
    if base * pow2(i) > MAX_RAYS {
        MAX_RAYS as nat
    } else {
        base * pow2(i)
    }
}

/// Ray count of cascade `i`, by saturating doubling.
pub fn ray_count(base: u32, i: u32) -> (n: u64)
    requires
        1 <= base <= 65536,
        i <= 32,
    ensures
        n == ray_count_spec(base as nat, i as nat),
        1 <= n <= MAX_RAYS,
{
    let mut n: u64 = base as u64;
    let mut j: u32 = 0;
    proof {
        assert(pow2(0) == 1) by {
            vstd::arithmetic::power2::lemma2_to64();
        }
    }
    while j < i
        invariant
            1 <= base <= 65536,
            j <= i <= 32,
            n == ray_count_spec(base as nat, j as nat),
            1 <= n <= MAX_RAYS,
        decreases i - j,
    {
        proof {
            lemma_pow2_unfold((j + 1) as nat);
            lemma_pow2_pos(j as nat);
            assert(base * pow2((j + 1) as nat) == 2 * (base * pow2(j as nat))
                && base * pow2(j as nat) >= 1) by (nonlinear_arith)
                requires
                    pow2((j + 1) as nat) == 2 * pow2(j as nat),
                    base >= 1,
                    pow2(j as nat) >= 1,
            ;
        }
        if n >= MAX_RAYS {
            n = MAX_RAYS;
        } else {
            n = n * 2;
            if n > MAX_RAYS {
                n = MAX_RAYS;
            }
        }
        j = j + 1;
    }
    n
}

/// `b^e`, saturating at `MAX_RANGE`: the geometric growth of the band
/// boundaries, kept finite.
pub open spec fn pow_capped(b: nat, e: nat) -> nat
    decreases e,
{
    if e == 0 {
        1
    } else {
        let p = pow_capped(b, (e - 1) as nat);
        if p >= MAX_RANGE {
            MAX_RANGE as nat
        } else if p * b >= MAX_RANGE {
            MAX_RANGE as nat
        } else {
            p * b
        }
    }
}

/// The capped powers stay in `[1, MAX_RANGE]` and never shrink as the
/// exponent grows.
pub proof fn lemma_pow_capped_props(b: nat, e: nat)
    requires
        b >= 2,
    ensures
        1 <= pow_capped(b, e) <= MAX_RANGE,
        pow_capped(b, e) <= pow_capped(b, e + 1),
    decreases e,
{
    if e > 0 {
        lemma_pow_capped_props(b, (e - 1) as nat);
    }
    let p = pow_capped(b, e);
    assert(p * b >= p) by (nonlinear_arith)
        requires p >= 1, b >= 2;
}

/// First band distance of cascade `i` (inclusive).
pub open spec fn band_start(b: nat, i: nat) -> nat {
    (pow_capped(b, i) - 1) as nat
}

/// Band end of cascade `i` (exclusive); the next cascade starts here.
pub open spec fn band_end(b: nat, i: nat) -> nat {
    (pow_capped(b, i + 1) - 1) as nat
}

/// `b^e` saturating at `MAX_RANGE`, executably.
pub fn pow_capped_exec(b: u64, e: u32) -> (r: u64)
    requires
        2 <= b <= 65536,
        e <= 33,
    ensures
        r == pow_capped(b as nat, e as nat),
        1 <= r <= MAX_RANGE,
{
    let mut r: u64 = 1;
    let mut j: u32 = 0;
    while j < e
        invariant
            2 <= b <= 65536,
            j <= e <= 33,
            r == pow_capped(b as nat, j as nat),
            1 <= r <= MAX_RANGE,
        decreases e - j,
    {
        if r >= MAX_RANGE {
            r = MAX_RANGE;
        } else {
            proof {
                assert(1 <= r * b <= 0x1_0000_0000_0000u64) by (nonlinear_arith)
                    requires 1 <= r <= 65536u64, 1 <= b <= 65536u64;
            }
            let t = r * b;
            if t >= MAX_RANGE {
                r = MAX_RANGE;
            } else {
                r = t;
            }
        }
        j = j + 1;
    }
    r
}

/// A color scaled by a fixed-point weight (256 is one); the alpha channel
/// is kept.
pub open spec fn scale_color(c: Rgba, weight: nat) -> Rgba {
    Rgba {
        r: ((c.r * weight) / 256) as u8,
        g: ((c.g * weight) / 256) as u8,
        b: ((c.b * weight) / 256) as u8,
        a: c.a,
    }
}

/// Scale a color by a fixed-point weight.
pub fn scale_color_exec(c: Rgba, weight: u32) -> (out: Rgba)
    requires
        weight <= WEIGHT_ONE,
    ensures
        out == scale_color(c, weight as nat),
{
    proof {
        assert(c.r * weight <= 255 * 256 && c.g * weight <= 255 * 256 && c.b * weight <= 255
            * 256) by (nonlinear_arith)
            requires c.r <= 255, c.g <= 255, c.b <= 255, weight <= 256;
    }
    Rgba {
        r: ((c.r as u32 * weight) / 256) as u8,
        g: ((c.g as u32 * weight) / 256) as u8,
        b: ((c.b as u32 * weight) / 256) as u8,
        a: c.a,
    }
}

/// One raymarch through the distance field: starting at parameter `t` from
/// `(px, py)` along compass direction `(dxi, dyi)`, advancing by the floor
/// square root of the sampled squared distance (at least one pixel), until
/// a seed pixel is hit (its scene color is returned), the ray leaves the
/// image or its band, or the field is empty.
pub open spec fn march_spec(
    scene: Image,
    dcells: Seq<Option<u64>>,
    px: int,
    py: int,
    dxi: int,
    dyi: int,
    t: nat,
    t1: nat,
) -> Option<Rgba>
    decreases t1 - t,
{
    if t >= t1 {
        None
    } else {
        let x = px + dxi * t;
        let y = py + dyi * t;
        if !(0 <= x < scene.width && 0 <= y < scene.height) {
            None
        } else {
            match dcells[y * (scene.width as int) + x] {
                None => None,
                Some(d) => if d == 0 {
                    Some(scene.pixel_at(x, y))
                } else {
                    let step = if isqrt_spec(d as nat) == 0 {
                        1
                    } else {
                        isqrt_spec(d as nat)
                    };
                    if t + step >= t1 {
                        None
                    } else {
                        march_spec(scene, dcells, px, py, dxi, dyi, t + step, t1)
                    }
                },
            }
        }
    }
}

/// March one ray.
pub fn march(
    scene: &Image,
    dist: &DistField,
    px: usize,
    py: usize,
    dxi: i64,
    dyi: i64,
    t0: u64,
    t1: u64,
) -> (r: Option<Rgba>)
    requires
        scene.wf(),
        dist.wf(),
        dist.width == scene.width,
        dist.height == scene.height,
        px < scene.width,
        py < scene.height,
        -1 <= dxi <= 1,
        -1 <= dyi <= 1,
        t1 <= MAX_RANGE,
    ensures
        r == march_spec(*scene, dist.cells@, px as int, py as int, dxi as int, dyi as int, t0 as nat, t1 as nat),
{
    let w = scene.width;
    let h = scene.height;
    let mut t: u64 = t0;
    while t < t1
        invariant
            scene.wf(),
            dist.wf(),
            dist.width == w,
            dist.height == h,
            w == scene.width,
            h == scene.height,
            px < w,
            py < h,
            -1 <= dxi <= 1,
            -1 <= dyi <= 1,
            t1 <= MAX_RANGE,
            march_spec(*scene, dist.cells@, px as int, py as int, dxi as int, dyi as int, t as nat, t1 as nat)
                == march_spec(*scene, dist.cells@, px as int, py as int, dxi as int, dyi as int, t0 as nat, t1 as nat),
        decreases t1 - t,
    {
        proof {
            assert(-(t as int) <= dxi * t <= t && -(t as int) <= dyi * t <= t)
                by (nonlinear_arith)
                requires -1 <= dxi <= 1, -1 <= dyi <= 1, 0 <= t;
        }
        let x: i64 = px as i64 + dxi * t as i64;
        let y: i64 = py as i64 + dyi * t as i64;
        if x < 0 || y < 0 || x >= w as i64 || y >= h as i64 {
            return None;
        }
        let cell = dist.get(x as usize, y as usize);
        match cell {
            None => {
                return None;
            },
            Some(d) => {
                if d == 0 {
                    return Some(scene.get(x as usize, y as usize));
                }
                let s = isqrt(d);
                let step: u64 = if s == 0 {
                    1
                } else {
                    s
                };
                if t1 - t <= step {
                    return None;
                }
                proof {
                    assert(step <= 0x1_0000_0000u64);
                }
                t = t + step;
            },
        }
    }
    None
}

/// No stored zero distance within Chebyshev radius `r` of `(px, py)`: no
/// raymarch from that pixel can hit inside range `r`.
pub open spec fn no_zero_within(
    dcells: Seq<Option<u64>>,
    w: int,
    h: int,
    px: int,
    py: int,
    r: int,
) -> bool {
    forall|x: int, y: int|
        0 <= x < w && 0 <= y < h && crate::jfa_props::absd(x, px) < r && crate::jfa_props::absd(
            y,
            py,
        ) < r ==> #[trigger] dcells[y * w + x] != Some(0u64)
}

/// A ray whose whole band is free of zero cells returns nothing: every
/// position it samples is within Chebyshev distance `t < t1` of its origin.
pub proof fn lemma_march_misses(
    scene: Image,
    dcells: Seq<Option<u64>>,
    px: int,
    py: int,
    dxi: int,
    dyi: int,
    t: nat,
    t1: nat,
)
    requires
        -1 <= dxi <= 1,
        -1 <= dyi <= 1,
        no_zero_within(dcells, scene.width as int, scene.height as int, px, py, t1 as int),
    ensures
        march_spec(scene, dcells, px, py, dxi, dyi, t, t1) is None,
    decreases t1 - t,
{
    if t < t1 {
        let x = px + dxi * t;
        let y = py + dyi * t;
        assert(-(t as int) <= dxi * t <= t && -(t as int) <= dyi * t <= t) by (nonlinear_arith)
            requires -1 <= dxi <= 1, -1 <= dyi <= 1, 0 <= t;
        if 0 <= x < scene.width && 0 <= y < scene.height {
            assert(crate::jfa_props::absd(x, px) <= t && crate::jfa_props::absd(y, py) <= t);
            assert(dcells[y * (scene.width as int) + x] != Some(0u64));
            match dcells[y * (scene.width as int) + x] {
                None => {},
                Some(d) => {
                    let step = if isqrt_spec(d as nat) == 0 {
                        1
                    } else {
                        isqrt_spec(d as nat)
                    };
                    if t + step < t1 {
                        lemma_march_misses(scene, dcells, px, py, dxi, dyi, t + step, t1);
                    }
                },
            }
        }
    }
}

/// The capped powers never shrink as the exponent grows, over any span.
pub proof fn lemma_pow_capped_mono(b: nat, e1: nat, e2: nat)
    requires
        b >= 2,
        e1 <= e2,
    ensures
        pow_capped(b, e1) <= pow_capped(b, e2),
    decreases e2 - e1,
{
    if e1 < e2 {
        lemma_pow_capped_mono(b, e1, (e2 - 1) as nat);
        lemma_pow_capped_props(b, (e2 - 1) as nat);
    }
}

/// The clamped base for the geometric band growth.
pub open spec fn eff_base(base: nat) -> nat {
    if base < 2 {
        2
    } else {
        base
    }
}

/// The color ray `k` (of `n`) contributes at `(px, py)`: the color of the
/// seed pixel it hits, or the previous cascade's radiance here, weighted.
pub open spec fn ray_color(
    scene: Image,
    dcells: Seq<Option<u64>>,
    prev: Seq<Rgba>,
    weight: nat,
    n: nat,
    px: int,
    py: int,
    t0: nat,
    t1: nat,
    k: nat,
) -> Rgba {
    let j = ((k * 8) / n) % 8;
    let d = dir8(j as int);
    match march_spec(scene, dcells, px, py, d.0, d.1, t0, t1) {
        Some(c) => c,
        None => scale_color(prev[py * (scene.width as int) + px], weight),
    }
}

/// Channel-wise sum of the first `k` ray contributions.
pub open spec fn ray_sum(
    scene: Image,
    dcells: Seq<Option<u64>>,
    prev: Seq<Rgba>,
    weight: nat,
    n: nat,
    px: int,
    py: int,
    t0: nat,
    t1: nat,
    k: nat,
) -> (nat, nat, nat)
    decreases k,
{
    if k == 0 {
        (0, 0, 0)
    } else {
        let s = ray_sum(scene, dcells, prev, weight, n, px, py, t0, t1, (k - 1) as nat);
        let c = ray_color(scene, dcells, prev, weight, n, px, py, t0, t1, (k - 1) as nat);
        ((s.0 + c.r) as nat, (s.1 + c.g) as nat, (s.2 + c.b) as nat)
    }
}

/// The cascade kernel at one pixel: the average over all rays of the
/// cascade's band, merged with the previous cascade where rays found
/// nothing.
pub open spec fn kernel_pixel(
    scene: Image,
    dcells: Seq<Option<u64>>,
    prev: Seq<Rgba>,
    params: CascadeParams,
    px: int,
    py: int,
) -> Rgba {
    let n = ray_count_spec(params.base_ray_count as nat, params.cascade_index as nat);
    let b = eff_base(params.base_ray_count as nat);
    let t0 = band_start(b, params.cascade_index as nat);
    let t1 = band_end(b, params.cascade_index as nat);
    let s = ray_sum(scene, dcells, prev, params.angle_offset as nat, n, px, py, t0, t1, n);
    Rgba { r: (s.0 / n) as u8, g: (s.1 / n) as u8, b: (s.2 / n) as u8, a: 255 }
}

/// The whole surface one cascade pass writes.
pub open spec fn cascade_pass_cells(
    scene: Image,
    dcells: Seq<Option<u64>>,
    prev: Seq<Rgba>,
    params: CascadeParams,
) -> Seq<Rgba> {
    Seq::new(
        (scene.width * scene.height) as nat,
        |i: int|
            kernel_pixel(
                scene,
                dcells,
                prev,
                params,
                i % (scene.width as int),
                i / (scene.width as int),
            ),
    )
}

/// The defined "previous cascade" of the coarsest pass: fully transparent,
/// never an uninitialized read.
pub open spec fn transparent_cells(w: int, h: int) -> Seq<Rgba> {
    Seq::new((w * h) as nat, |i: int| Rgba { r: 0, g: 0, b: 0, a: 0 })
}

/// The radiance written by the pass of cascade index `i`, with every
/// coarser pass already merged into it. Index `cascade_count - 1` reads the
/// transparent surface; index 0 is the final image.
pub open spec fn cascade_chain(
    scene: Image,
    dcells: Seq<Option<u64>>,
    params: CascadeParams,
    i: nat,
) -> Seq<Rgba>
    decreases params.cascade_count - i,
{
    let prev = if i + 1 >= params.cascade_count {
        transparent_cells(scene.width as int, scene.height as int)
    } else {
        cascade_chain(scene, dcells, params, (i + 1) as nat)
    };
    cascade_pass_cells(scene, dcells, prev, CascadeParams { cascade_index: i as u32, ..params })
}

/// The final image of the full descending cascade sequence.
pub open spec fn rc_output(scene: Image, dcells: Seq<Option<u64>>, params: CascadeParams) -> Seq<Rgba> {
    cascade_chain(scene, dcells, params, 0)
}

/// When every ray misses and the previous cascade is dark at this pixel,
/// the ray contributions sum to zero on all channels.
proof fn lemma_ray_sum_zero(
    scene: Image,
    dcells: Seq<Option<u64>>,
    prev: Seq<Rgba>,
    weight: nat,
    n: nat,
    px: int,
    py: int,
    t0: nat,
    t1: nat,
    k: nat,
)
    requires
        no_zero_within(dcells, scene.width as int, scene.height as int, px, py, t1 as int),
        prev[py * (scene.width as int) + px].r == 0,
        prev[py * (scene.width as int) + px].g == 0,
        prev[py * (scene.width as int) + px].b == 0,
    ensures
        ray_sum(scene, dcells, prev, weight, n, px, py, t0, t1, k) == ((0nat, 0nat, 0nat)),
    decreases k,
{
    if k > 0 {
        lemma_ray_sum_zero(scene, dcells, prev, weight, n, px, py, t0, t1, (k - 1) as nat);
        let j = (((k - 1) * 8) as nat / n) % 8;
        let d = dir8(j as int);
        lemma_march_misses(scene, dcells, px, py, d.0, d.1, t0, t1);
    }
}

/// The cascade kernel is dark wherever no ray of its band can hit and the
/// previous cascade is dark: the merge has nothing to average but zeros.
proof fn lemma_kernel_black(
    scene: Image,
    dcells: Seq<Option<u64>>,
    prev: Seq<Rgba>,
    params: CascadeParams,
    px: int,
    py: int,
)
    requires
        params.valid(),
        no_zero_within(
            dcells,
            scene.width as int,
            scene.height as int,
            px,
            py,
            band_end(
                eff_base(params.base_ray_count as nat),
                params.cascade_index as nat,
            ) as int,
        ),
        prev[py * (scene.width as int) + px].r == 0,
        prev[py * (scene.width as int) + px].g == 0,
        prev[py * (scene.width as int) + px].b == 0,
    ensures
        kernel_pixel(scene, dcells, prev, params, px, py) == (Rgba { r: 0, g: 0, b: 0, a: 255 }),
{
    let n = ray_count_spec(params.base_ray_count as nat, params.cascade_index as nat);
    let b = eff_base(params.base_ray_count as nat);
    let t0 = band_start(b, params.cascade_index as nat);
    let t1 = band_end(b, params.cascade_index as nat);
    assert(n >= 1) by {
        vstd::arithmetic::power2::lemma_pow2_pos(params.cascade_index as nat);
        assert(params.base_ray_count as nat * pow2(params.cascade_index as nat) >= 1)
            by (nonlinear_arith)
            requires
                params.base_ray_count >= 1,
                pow2(params.cascade_index as nat) >= 1,
        ;
    }
    lemma_ray_sum_zero(scene, dcells, prev, params.angle_offset as nat, n, px, py, t0, t1, n);
    vstd::arithmetic::div_mod::lemma_div_of0(n as int);
}

/// Darkness far from every hit: at a pixel whose whole largest band is free
/// of zero distance cells, the entire descending cascade sequence stays
/// dark, from the transparent coarsest input down to the final image.
pub proof fn lemma_chain_black(
    scene: Image,
    dcells: Seq<Option<u64>>,
    params: CascadeParams,
    i: nat,
    px: int,
    py: int,
)
    requires
        scene.wf(),
        params.valid(),
        i < params.cascade_count,
        0 <= px < scene.width,
        0 <= py < scene.height,
        no_zero_within(
            dcells,
            scene.width as int,
            scene.height as int,
            px,
            py,
            band_end(
                eff_base(params.base_ray_count as nat),
                (params.cascade_count - 1) as nat,
            ) as int,
        ),
    ensures
        cascade_chain(scene, dcells, params, i)[py * (scene.width as int) + px].r == 0,
        cascade_chain(scene, dcells, params, i)[py * (scene.width as int) + px].g == 0,
        cascade_chain(scene, dcells, params, i)[py * (scene.width as int) + px].b == 0,
    decreases params.cascade_count - i,
{
    let w = scene.width as int;
    let h = scene.height as int;
    let b = eff_base(params.base_ray_count as nat);
    let reach = band_end(b, (params.cascade_count - 1) as nat);
    lemma_flat_index_bounds(w, h, px, py);
    lemma_flat_index_make(w, px, py);
    let prev = if i + 1 >= params.cascade_count {
        transparent_cells(w, h)
    } else {
        cascade_chain(scene, dcells, params, (i + 1) as nat)
    };
    if i + 1 < params.cascade_count {
        lemma_chain_black(scene, dcells, params, (i + 1) as nat, px, py);
    }
    assert(prev[py * w + px].r == 0 && prev[py * w + px].g == 0 && prev[py * w + px].b == 0);
    let p = CascadeParams { cascade_index: i as u32, ..params };
    // This band ends no later than the largest one, so the no-hit radius
    // covers it.
    assert(b >= 2);
    lemma_pow_capped_mono(b, (i + 1) as nat, params.cascade_count as nat);
    lemma_pow_capped_props(b, i as nat);
    assert(band_end(b, i as nat) <= reach);
    assert(no_zero_within(dcells, w, h, px, py, band_end(b, i as nat) as int)) by {
        assert forall|x: int, y: int|
            0 <= x < w && 0 <= y < h && crate::jfa_props::absd(x, px) < band_end(
                b,
                i as nat,
            ) as int && crate::jfa_props::absd(y, py) < band_end(b, i as nat) as int
            implies #[trigger] dcells[y * w + x] != Some(0u64) by {
            assert(crate::jfa_props::absd(x, px) < reach && crate::jfa_props::absd(y, py)
                < reach);
        }
    }
    lemma_kernel_black(scene, dcells, prev, p, px, py);
    assert(cascade_chain(scene, dcells, params, i)[py * w + px] == kernel_pixel(
        scene,
        dcells,
        prev,
        p,
        px,
        py,
    ));
}

/// The cascade kernel at one pixel, executably.
fn cascade_kernel(
    scene: &Image,
    dist: &DistField,
    prev: &Image,
    params: CascadeParams,
    px: usize,
    py: usize,
) -> (out: Rgba)
    requires
        scene.wf(),
        dist.wf(),
        prev.wf(),
        dist.width == scene.width,
        dist.height == scene.height,
        prev.width == scene.width,
        prev.height == scene.height,
        params.valid(),
        params.cascade_index < params.cascade_count,
        px < scene.width,
        py < scene.height,
    ensures
        out == kernel_pixel(*scene, dist.cells@, prev.pixels@, params, px as int, py as int),
{
    let n = ray_count(params.base_ray_count, params.cascade_index);
    let b: u64 = if params.base_ray_count < 2 {
        2
    } else {
        params.base_ray_count as u64
    };
    proof {
        lemma_pow_capped_props(b as nat, params.cascade_index as nat);
    }
    let p0 = pow_capped_exec(b, params.cascade_index);
    let p1 = pow_capped_exec(b, params.cascade_index + 1);
    let t0: u64 = p0 - 1;
    let t1: u64 = p1 - 1;
    let prev_c = prev.get(px, py);
    proof {
        lemma_flat_index_bounds(scene.width as int, scene.height as int, px as int, py as int);
    }
    let merged = scale_color_exec(prev_c, params.angle_offset);
    let ghost weight = params.angle_offset as nat;
    let mut sr: u64 = 0;
    let mut sg: u64 = 0;
    let mut sb: u64 = 0;
    let mut k: u64 = 0;
    while k < n
        invariant
            scene.wf(),
            dist.wf(),
            prev.wf(),
            dist.width == scene.width,
            dist.height == scene.height,
            prev.width == scene.width,
            prev.height == scene.height,
            px < scene.width,
            py < scene.height,
            1 <= n <= MAX_RAYS,
            t1 <= MAX_RANGE,
            k <= n,
            weight == params.angle_offset as nat,
            params.angle_offset <= WEIGHT_ONE,
            merged == scale_color(prev.pixels@[py * (scene.width as int) + px], weight),
            sr == ray_sum(
                *scene,
                dist.cells@,
                prev.pixels@,
                weight,
                n as nat,
                px as int,
                py as int,
                t0 as nat,
                t1 as nat,
                k as nat,
            ).0,
            sg == ray_sum(
                *scene,
                dist.cells@,
                prev.pixels@,
                weight,
                n as nat,
                px as int,
                py as int,
                t0 as nat,
                t1 as nat,
                k as nat,
            ).1,
            sb == ray_sum(
                *scene,
                dist.cells@,
                prev.pixels@,
                weight,
                n as nat,
                px as int,
                py as int,
                t0 as nat,
                t1 as nat,
                k as nat,
            ).2,
            sr <= 255 * k,
            sg <= 255 * k,
            sb <= 255 * k,
        decreases n - k,
    {
        let j = (k * 8 / n) % 8;
        let d = dir8_exec(j);
        let m = march(scene, dist, px, py, d.0, d.1, t0, t1);
        let c = match m {
            Some(hit) => hit,
            None => merged,
        };
        proof {
            assert(c == ray_color(
                *scene,
                dist.cells@,
                prev.pixels@,
                weight,
                n as nat,
                px as int,
                py as int,
                t0 as nat,
                t1 as nat,
                k as nat,
            ));
        }
        sr = sr + c.r as u64;
        sg = sg + c.g as u64;
        sb = sb + c.b as u64;
        k = k + 1;
    }
    proof {
        vstd::arithmetic::div_mod::lemma_div_is_ordered(sr as int, 255 * (n as int), n as int);
        vstd::arithmetic::div_mod::lemma_div_is_ordered(sg as int, 255 * (n as int), n as int);
        vstd::arithmetic::div_mod::lemma_div_is_ordered(sb as int, 255 * (n as int), n as int);
        vstd::arithmetic::div_mod::lemma_div_multiples_vanish(255, n as int);
    }
    Rgba { r: (sr / n) as u8, g: (sg / n) as u8, b: (sb / n) as u8, a: 255 }
}

/// One full-screen cascade pass.
pub fn cascade_pass(
    scene: &Image,
    dist: &DistField,
    prev: &Image,
    params: CascadeParams,
) -> (out: Image)
    requires
        scene.wf(),
        dist.wf(),
        prev.wf(),
        dist.width == scene.width,
        dist.height == scene.height,
        prev.width == scene.width,
        prev.height == scene.height,
        params.valid(),
        params.cascade_index < params.cascade_count,
    ensures
        out.wf(),
        out.width == scene.width,
        out.height == scene.height,
        out.pixels@ == cascade_pass_cells(*scene, dist.cells@, prev.pixels@, params),
{
    let w = scene.width;
    let h = scene.height;
    let total: usize = w * h;
    let mut pixels: Vec<Rgba> = Vec::new();
    let mut i: usize = 0;
    while i < total
        invariant
            scene.wf(),
            dist.wf(),
            prev.wf(),
            dist.width == w,
            dist.height == h,
            prev.width == w,
            prev.height == h,
            w == scene.width,
            h == scene.height,
            total == w * h,
            params.valid(),
            params.cascade_index < params.cascade_count,
            i == pixels.len(),
            i <= total,
            forall|j: int|
                0 <= j < i ==> #[trigger] pixels@[j] == kernel_pixel(
                    *scene,
                    dist.cells@,
                    prev.pixels@,
                    params,
                    j % (w as int),
                    j / (w as int),
                ),
        decreases total - i,
    {
        proof {
            lemma_flat_index_split(w as int, h as int, i as int);
        }
        let px = i % w;
        let py = i / w;
        let c = cascade_kernel(scene, dist, prev, params, px, py);
        pixels.push(c);
        i = i + 1;
    }
    let out = Image { width: w, height: h, pixels };
    proof {
        assert(out.pixels@ =~= cascade_pass_cells(*scene, dist.cells@, prev.pixels@, params));
    }
    out
}

/// What one pass of a frame did: which band it computed and where it wrote.
#[derive(Clone, Copy, PartialEq, Eq, Structural, Debug)]
pub struct PassRecord {
    /// The band this pass computed.
    pub cascade_index: u32,
    /// True when the pass wrote the externally supplied output image.
    pub to_screen: bool,
    /// The ping-pong slot written (meaningful when `to_screen` is false).
    pub slot: usize,
}

/// The Radiance Cascades solver: the tunable parameters and the ping-pong
/// pair of cascade irradiance surfaces.
pub struct RadianceCascades {
    pub width: usize,
    pub height: usize,
    pub params: CascadeParams,
    pub tex: PingPong<Image>,
}

impl RadianceCascades {
    /// Dimensions agree everywhere and the parameters stay in computable
    /// bounds.
    pub open spec fn wf(self) -> bool {
        &&& 1 <= self.width <= MAX_DIM
        &&& 1 <= self.height <= MAX_DIM
        &&& self.params.valid()
        &&& self.tex.wf()
        &&& self.tex.slot_a.wf()
        &&& self.tex.slot_b.wf()
        &&& self.tex.slot_a.width == self.width
        &&& self.tex.slot_a.height == self.height
        &&& self.tex.slot_b.width == self.width
        &&& self.tex.slot_b.height == self.height
    }

    /// A solver for a `width x height` viewport with the default tuning and
    /// the derived cascade count.
    pub fn new(width: usize, height: usize) -> (rc: RadianceCascades)
        requires
            1 <= width <= MAX_DIM,
            1 <= height <= MAX_DIM,
        ensures
            rc.wf(),
            rc.width == width,
            rc.height == height,
            rc.params.angle_offset == 128,
            rc.params.base_ray_count == 4,
            rc.params.cascade_index == 0,
            is_cascade_count(4, width * width + height * height, rc.params.cascade_count as nat),
    {
        let mut params = CascadeParams::new();
        let count = derive_cascade_count(params.base_ray_count, width, height);
        params.cascade_count = count;
        let a = Image::new(width, height, Rgba::transparent());
        let b = Image::new(width, height, Rgba::transparent());
        RadianceCascades { width, height, params, tex: PingPong::new(a, b) }
    }

    /// Discard both cascade surfaces and recompute the cascade count for a
    /// new extent; the tuning (`angle_offset`, `base_ray_count`) is kept.
    pub fn resize(&mut self, width: usize, height: usize)
        requires
            old(self).wf(),
            1 <= width <= MAX_DIM,
            1 <= height <= MAX_DIM,
        ensures
            final(self).wf(),
            final(self).width == width,
            final(self).height == height,
            final(self).params.angle_offset == old(self).params.angle_offset,
            final(self).params.base_ray_count == old(self).params.base_ray_count,
            final(self).params.cascade_index == old(self).params.cascade_index,
            is_cascade_count(
                vstd::math::max(old(self).params.base_ray_count as int, 2),
                width * width + height * height,
                final(self).params.cascade_count as nat,
            ),
    {
        let count = derive_cascade_count(self.params.base_ray_count, width, height);
        self.params.cascade_count = count;
        self.width = width;
        self.height = height;
        let a = Image::new(width, height, Rgba::transparent());
        let b = Image::new(width, height, Rgba::transparent());
        self.tex = PingPong::new(a, b);
    }

    /// Tune the merge weight, clamped to the fixed-point one.
    pub fn set_angle_offset(&mut self, v: u32)
        requires
            old(self).wf(),
        ensures
            final(self).wf(),
            final(self).params.angle_offset == vstd::math::min(v as int, WEIGHT_ONE as int),
            final(self).params.cascade_count == old(self).params.cascade_count,
            final(self).params.base_ray_count == old(self).params.base_ray_count,
            final(self).width == old(self).width,
            final(self).height == old(self).height,
    {
        self.params.angle_offset = if v > WEIGHT_ONE {
            WEIGHT_ONE
        } else {
            v
        };
    }

    /// Tune the base ray count, clamped to a computable range. The cascade
    /// count is rederived from it on the next resize, not immediately.
    pub fn set_base_ray_count(&mut self, v: u32)
        requires
            old(self).wf(),
        ensures
            final(self).wf(),
            final(self).params.base_ray_count == if v < 1 {
                1int
            } else if v > 65536 {
                65536int
            } else {
                v as int
            },
            final(self).params.cascade_count == old(self).params.cascade_count,
            final(self).params.angle_offset == old(self).params.angle_offset,
            final(self).width == old(self).width,
            final(self).height == old(self).height,
    {
        self.params.base_ray_count = if v < 1 {
            1
        } else if v > 65536 {
            65536
        } else {
            v
        };
    }

    /// Tune the cascade count directly, clamped to `[1, MAX_CASCADES]`: a
    /// count of zero is invalid and never reaches the pass sequence.
    pub fn set_cascade_count(&mut self, v: u32)
        requires
            old(self).wf(),
        ensures
            final(self).wf(),
            final(self).params.cascade_count == if v < 1 {
                1int
            } else if v > MAX_CASCADES {
                MAX_CASCADES as int
            } else {
                v as int
            },
            final(self).params.base_ray_count == old(self).params.base_ray_count,
            final(self).params.angle_offset == old(self).params.angle_offset,
            final(self).width == old(self).width,
            final(self).height == old(self).height,
    {
        self.params.cascade_count = if v < 1 {
            1
        } else if v > MAX_CASCADES {
            MAX_CASCADES
        } else {
            v
        };
    }

    /// Run the full descending cascade sequence: one pass per
    /// `cascade_index` from `cascade_count - 1` down to 0, each reading the
    /// previous cascade from one ping-pong slot and writing the other —
    /// except the final pass, which alone writes the supplied output image.
    /// The ping-pong designation is reset and the first input cleared at
    /// the start, so the frame's result is a pure function of the scene,
    /// the distance field and the parameters.
    pub fn run(&mut self, scene: &Image, dist: &DistField, output: &mut Image) -> (records: Vec<
        PassRecord,
    >)
        requires
            old(self).wf(),
            scene.wf(),
            scene.width == old(self).width,
            scene.height == old(self).height,
            dist.wf(),
            dist.width == old(self).width,
            dist.height == old(self).height,
            old(output).wf(),
            old(output).width == old(self).width,
            old(output).height == old(self).height,
        ensures
            final(self).wf(),
            final(self).width == old(self).width,
            final(self).height == old(self).height,
            final(self).params == old(self).params,
            final(output).wf(),
            final(output).width == old(self).width,
            final(output).height == old(self).height,
            final(output).pixels@ == rc_output(*scene, dist.cells@, old(self).params),
            records.len() == old(self).params.cascade_count,
            forall|i: int|
                0 <= i < records.len() ==> (#[trigger] records@[i]).cascade_index == old(
                    self,
                ).params.cascade_count - 1 - i,
            forall|i: int|
                0 <= i < records.len() ==> ((#[trigger] records@[i]).to_screen <==> records@[i].cascade_index
                    == 0),
            forall|i: int| 0 <= i < records.len() ==> (#[trigger] records@[i]).slot == i % 2,
    {
        let w = self.width;
        let h = self.height;
        let count = self.params.cascade_count;
        let ghost params0 = self.params;
        let ghost out0 = *output;
        // Frame-local ping-pong state: a fixed designation and a defined,
        // fully transparent first "previous cascade".
        self.tex.reset();
        let cleared = Image::new(w, h, Rgba::transparent());
        proof {
            assert(cleared.pixels@ =~= transparent_cells(w as int, h as int));
        }
        self.tex.swap();
        self.tex.set_output(cleared);
        self.tex.swap();
        let mut records: Vec<PassRecord> = Vec::new();
        let mut j: u32 = 0;
        while j < count
            invariant
                scene.wf(),
                dist.wf(),
                scene.width == w,
                scene.height == h,
                dist.width == w,
                dist.height == h,
                self.width == w,
                self.height == h,
                self.params == params0,
                params0.valid(),
                count == params0.cascade_count,
                self.tex.wf(),
                self.tex.slot_a.wf(),
                self.tex.slot_b.wf(),
                self.tex.slot_a.width == w,
                self.tex.slot_a.height == h,
                self.tex.slot_b.width == w,
                self.tex.slot_b.height == h,
                j <= count,
                self.tex.out_idx == j % 2,
                j < count && j == 0 ==> self.tex.cur_in().pixels@ == transparent_cells(
                    w as int,
                    h as int,
                ),
                j < count && j > 0 ==> self.tex.cur_in().pixels@ == cascade_chain(
                    *scene,
                    dist.cells@,
                    params0,
                    (count - j) as nat,
                ),
                j < count ==> *output == out0,
                output.wf(),
                output.width == w,
                output.height == h,
                j == count ==> output.pixels@ == cascade_chain(*scene, dist.cells@, params0, 0),
                records.len() == j,
                forall|m: int|
                    0 <= m < j ==> (#[trigger] records@[m]).cascade_index == count - 1 - m,
                forall|m: int|
                    0 <= m < j ==> ((#[trigger] records@[m]).to_screen <==> records@[m].cascade_index
                        == 0),
                forall|m: int| 0 <= m < j ==> (#[trigger] records@[m]).slot == m % 2,
            decreases count - j,
        {
            let i = count - 1 - j;
            // A fresh per-pass uniform copy: cascade_index changes every
            // pass, so a shared record is never mutated mid-frame.
            let p = CascadeParams { cascade_index: i, ..self.params };
            let img = cascade_pass(scene, dist, self.tex.input(), p);
            proof {
                assert(img.pixels@ == cascade_chain(*scene, dist.cells@, params0, i as nat));
            }
            let slot = self.tex.out_idx;
            if i > 0 {
                self.tex.set_output(img);
                records.push(PassRecord { cascade_index: i, to_screen: false, slot });
            } else {
                *output = img;
                records.push(PassRecord { cascade_index: i, to_screen: true, slot });
            }
            self.tex.swap();
            j = j + 1;
        }
        records
    }
}

} // verus!
