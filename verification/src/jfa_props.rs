//! Correctness of the jump-flood pass sequence.
//!
//! Two facts are proved about the buffer left by the full sequence of
//! `pass_count` propagation passes (offsets `2^(pass_count-1), ..., 1`):
//!
//! * soundness: every stored coordinate is a seed of the scene;
//! * coverage: if the scene has a seed at all and `2^pass_count` reaches
//!   across both extents, every pixel stores some seed coordinate.
//!
//! Coverage rests on the binary decomposition of the displacement from a
//! pixel to a seed: after the passes with offsets `2^(pass_count-1)` down to
//! `2^j`, every pixel whose (per-axis) distance to some seed is a multiple
//! of `2^j` is filled, because the pass at offset `2^(j-1)` pulls the value
//! one binary digit closer. For a scene with exactly one seed the two facts
//! pin the buffer down completely, and the resolved distance field is the
//! exact squared Euclidean distance to that seed at every pixel.

use vstd::prelude::*;
use vstd::arithmetic::power2::{pow2, lemma_pow2_unfold, lemma_pow2_pos};
use vstd::arithmetic::div_mod::{
    lemma_fundamental_div_mod, lemma_mod_multiples_basic, lemma_mod_bound, lemma_small_mod,
    lemma_div_pos_is_pos,
};
use crate::image::{Image, lemma_flat_index_bounds, lemma_flat_index_make, lemma_flat_index_split};
use crate::jfa::{
    Coord, is_seed, seed_cell, seed_cells, sample_x, sample_y, sample_cell, best_upto, step_cell,
    step_cells, passes_cells, resolve_cells, jfa_cells, dist_sq,
};

verus! {

/// Multiplication by a factor of absolute value at most one, written out.
proof fn lemma_mul_unit(e: int, o: int)
    ensures
        e == 0 ==> e * o == 0,
        e == 1 ==> e * o == o,
        e == -1 ==> e * o == -o,
{
    assert((e == 0 ==> e * o == 0) && (e == 1 ==> e * o == o) && (e == -1 ==> e * o == -o))
        by (nonlinear_arith);
}

/// Distance between two coordinates on one axis.
pub open spec fn absd(a: int, b: int) -> int {
    if a >= b {
        a - b
    } else {
        b - a
    }
}

/// `c` is empty or stores an in-range seed of the scene.
pub open spec fn cell_sound(c: Option<Coord>, scene: Image) -> bool {
    match c {
        None => true,
        Some(cc) => cc.x < scene.width && cc.y < scene.height && is_seed(
            scene,
            cc.x as int,
            cc.y as int,
        ),
    }
}

/// Every cell of the buffer is sound.
pub open spec fn buf_sound(s: Seq<Option<Coord>>, scene: Image) -> bool {
    forall|i: int| 0 <= i < s.len() ==> cell_sound(#[trigger] s[i], scene)
}

/// Every pixel whose per-axis distance to some seed is a multiple of `m`
/// (and below `bound`) already stores some coordinate.
pub open spec fn covered(s: Seq<Option<Coord>>, scene: Image, m: int, bound: int) -> bool {
    forall|px: int, py: int, sx: int, sy: int|
        #![trigger s[py * (scene.width as int) + px], is_seed(scene, sx, sy)]
        0 <= px < scene.width && 0 <= py < scene.height && 0 <= sx < scene.width && 0 <= sy
            < scene.height && is_seed(scene, sx, sy) && absd(px, sx) % m == 0 && absd(px, sx)
            < bound && absd(py, sy) % m == 0 && absd(py, sy) < bound ==> (s[py * (scene.width as int)
            + px]) is Some
}

/// The seeded buffer is sound.
proof fn lemma_seed_sound(scene: Image)
    requires
        scene.wf(),
    ensures
        buf_sound(seed_cells(scene), scene),
        seed_cells(scene).len() == scene.width * scene.height,
{
    let s = seed_cells(scene);
    assert forall|i: int| 0 <= i < s.len() implies cell_sound(#[trigger] s[i], scene) by {
        lemma_flat_index_split(scene.width as int, scene.height as int, i);
    }
}

/// The nearest of the first `k` samples is sound whenever the sampled
/// buffer is.
proof fn lemma_best_upto_sound(
    s: Seq<Option<Coord>>,
    scene: Image,
    offset: int,
    px: int,
    py: int,
    k: nat,
)
    requires
        scene.wf(),
        buf_sound(s, scene),
        s.len() == scene.width * scene.height,
    ensures
        cell_sound(
            best_upto(s, scene.width as int, scene.height as int, offset, px, py, k),
            scene,
        ),
    decreases k,
{
    let w = scene.width as int;
    let h = scene.height as int;
    if k > 0 {
        lemma_best_upto_sound(s, scene, offset, px, py, (k - 1) as nat);
        let sx = sample_x(px, w, offset, k - 1);
        let sy = sample_y(py, h, offset, k - 1);
        assert(0 <= sx < w && 0 <= sy < h);
        lemma_flat_index_bounds(w, h, sx, sy);
        assert(cell_sound(s[sy * w + sx], scene));
    }
}

/// One propagation pass keeps the buffer sound.
proof fn lemma_step_sound(s: Seq<Option<Coord>>, scene: Image, offset: int)
    requires
        scene.wf(),
        buf_sound(s, scene),
        s.len() == scene.width * scene.height,
    ensures
        buf_sound(step_cells(s, scene.width as int, scene.height as int, offset), scene),
{
    let w = scene.width as int;
    let h = scene.height as int;
    let out = step_cells(s, w, h, offset);
    assert forall|i: int| 0 <= i < out.len() implies cell_sound(#[trigger] out[i], scene) by {
        lemma_flat_index_split(w, h, i);
        lemma_best_upto_sound(s, scene, offset, i % w, i / w, 9);
    }
}

/// Every pass prefix leaves a sound buffer of full size.
proof fn lemma_passes_sound(scene: Image, k: nat, i: nat)
    requires
        scene.wf(),
    ensures
        buf_sound(passes_cells(scene, k, i), scene),
        passes_cells(scene, k, i).len() == scene.width * scene.height,
    decreases i,
{
    if i == 0 {
        lemma_seed_sound(scene);
    } else {
        lemma_passes_sound(scene, k, (i - 1) as nat);
        lemma_step_sound(
            passes_cells(scene, k, (i - 1) as nat),
            scene,
            pow2((k - i) as nat) as int,
        );
    }
}

/// If some sample among the first `k` stores a coordinate, so does the
/// nearest-of-`k` (a stored coordinate always beats the empty sentinel).
proof fn lemma_best_some(
    s: Seq<Option<Coord>>,
    w: int,
    h: int,
    offset: int,
    px: int,
    py: int,
    kk: int,
    k: nat,
)
    requires
        0 <= kk < k,
        sample_cell(s, w, h, offset, px, py, kk) is Some,
    ensures
        best_upto(s, w, h, offset, px, py, k) is Some,
    decreases k,
{
    if kk + 1 < k {
        lemma_best_some(s, w, h, offset, px, py, kk, (k - 1) as nat);
    }
}

/// Coverage at the seed phase: only zero displacements are multiples of
/// `bound` below `bound`, and seed pixels tag themselves.
proof fn lemma_covered_seed(scene: Image, bound: int)
    requires
        scene.wf(),
        bound >= 1,
    ensures
        covered(seed_cells(scene), scene, bound, bound),
{
    let w = scene.width as int;
    let h = scene.height as int;
    let s = seed_cells(scene);
    assert forall|px: int, py: int, sx: int, sy: int|
        #![trigger s[py * (scene.width as int) + px], is_seed(scene, sx, sy)]
        0 <= px < scene.width && 0 <= py < scene.height && 0 <= sx < scene.width && 0 <= sy
            < scene.height && is_seed(scene, sx, sy) && absd(px, sx) % bound == 0 && absd(px, sx)
            < bound && absd(py, sy) % bound == 0 && absd(py, sy) < bound implies (s[py * (scene.width
            as int) + px]) is Some by {
        lemma_small_mod(absd(px, sx) as nat, bound as nat);
        lemma_small_mod(absd(py, sy) as nat, bound as nat);
        assert(px == sx && py == sy);
        lemma_flat_index_bounds(w, h, px, py);
        lemma_flat_index_make(w, px, py);
        assert(s[py * w + px] == seed_cell(scene, px, py));
    }
}

/// The inductive step of coverage: a pass at offset `2^(j-1)` fills every
/// pixel aligned to `2^(j-1)` from a buffer filled at alignment `2^j`,
/// because the sample one binary digit closer to the seed is already filled.
proof fn lemma_covered_step(s: Seq<Option<Coord>>, scene: Image, j: nat, bound: int)
    requires
        scene.wf(),
        s.len() == scene.width * scene.height,
        j >= 1,
        covered(s, scene, pow2(j) as int, bound),
    ensures
        covered(
            step_cells(s, scene.width as int, scene.height as int, pow2((j - 1) as nat) as int),
            scene,
            pow2((j - 1) as nat) as int,
            bound,
        ),
{
    let w = scene.width as int;
    let h = scene.height as int;
    let o = pow2((j - 1) as nat) as int;
    let m = pow2(j) as int;
    lemma_pow2_unfold(j);
    lemma_pow2_pos((j - 1) as nat);
    let out = step_cells(s, w, h, o);
    assert forall|px: int, py: int, sx: int, sy: int|
        #![trigger out[py * (scene.width as int) + px], is_seed(scene, sx, sy)]
        0 <= px < scene.width && 0 <= py < scene.height && 0 <= sx < scene.width && 0 <= sy
            < scene.height && is_seed(scene, sx, sy) && absd(px, sx) % o == 0 && absd(px, sx)
            < bound && absd(py, sy) % o == 0 && absd(py, sy) < bound implies (out[py * (scene.width
            as int) + px]) is Some by {
        let dx = absd(px, sx);
        let dy = absd(py, sy);
        // Split off the lowest remaining binary digit of each displacement.
        lemma_fundamental_div_mod(dx, o);
        lemma_fundamental_div_mod(dy, o);
        let nx = dx / o;
        let ny = dy / o;
        lemma_div_pos_is_pos(dx, o);
        lemma_div_pos_is_pos(dy, o);
        let bx = nx % 2;
        let by0 = ny % 2;
        lemma_fundamental_div_mod(nx, 2);
        lemma_fundamental_div_mod(ny, 2);
        lemma_mod_bound(nx, 2);
        lemma_mod_bound(ny, 2);
        let dx2 = dx - bx * o;
        let dy2 = dy - by0 * o;
        assert(dx == o * nx);
        assert(dy == o * ny);
        assert(0 <= bx * o && bx * o <= dx && dx2 == m * (nx / 2) && dx2 == (nx / 2) * m)
            by (nonlinear_arith)
            requires
                dx == o * nx,
                dx2 == dx - bx * o,
                nx == 2 * (nx / 2) + bx,
                m == 2 * o,
                0 <= bx <= 1,
                0 <= nx,
                1 <= o,
        ;
        assert(0 <= by0 * o && by0 * o <= dy && dy2 == m * (ny / 2) && dy2 == (ny / 2) * m)
            by (nonlinear_arith)
            requires
                dy == o * ny,
                dy2 == dy - by0 * o,
                ny == 2 * (ny / 2) + by0,
                m == 2 * o,
                0 <= by0 <= 1,
                0 <= ny,
                1 <= o,
        ;
        lemma_mod_multiples_basic(nx / 2, m);
        lemma_mod_multiples_basic(ny / 2, m);
        // The sample position one digit closer to the seed.
        let qx = if px >= sx { px - bx * o } else { px + bx * o };
        let qy = if py >= sy { py - by0 * o } else { py + by0 * o };
        lemma_mul_unit(bx, o);
        lemma_mul_unit(by0, o);
        assert(0 <= qx < w && absd(qx, sx) == dx2);
        assert(0 <= qy < h && absd(qy, sy) == dy2);
        lemma_flat_index_bounds(w, h, qx, qy);
        // That position is filled at alignment 2^j.
        assert(s[qy * (scene.width as int) + qx] is Some);
        // And it is one of the nine samples the pass reads at (px, py).
        let ix: int = if bx == 0 { 1 } else if px >= sx { 0 } else { 2 };
        let iy: int = if by0 == 0 { 1 } else if py >= sy { 0 } else { 2 };
        let kk = iy * 3 + ix;
        lemma_flat_index_make(3, ix, iy);
        lemma_mul_unit(ix - 1, o);
        lemma_mul_unit(iy - 1, o);
        assert(px + (kk % 3 - 1) * o == qx);
        assert(py + (kk / 3 - 1) * o == qy);
        assert(sample_x(px, w, o, kk) == qx);
        assert(sample_y(py, h, o, kk) == qy);
        assert(sample_cell(s, w, h, o, px, py, kk) is Some);
        lemma_best_some(s, w, h, o, px, py, kk, 9);
        lemma_flat_index_bounds(w, h, px, py);
        lemma_flat_index_make(w, px, py);
        assert(out[py * w + px] == step_cell(s, w, h, o, px, py));
    }
}

/// Coverage carried along the whole pass sequence: after `i` of `k` passes
/// the buffer is filled at alignment `2^(k-i)`.
proof fn lemma_covered_chain(scene: Image, k: nat, i: nat)
    requires
        scene.wf(),
        i <= k,
    ensures
        covered(passes_cells(scene, k, i), scene, pow2((k - i) as nat) as int, pow2(k) as int),
        passes_cells(scene, k, i).len() == scene.width * scene.height,
    decreases i,
{
    lemma_pow2_pos(k);
    if i == 0 {
        lemma_covered_seed(scene, pow2(k) as int);
    } else {
        lemma_covered_chain(scene, k, (i - 1) as nat);
        lemma_passes_sound(scene, k, (i - 1) as nat);
        lemma_covered_step(
            passes_cells(scene, k, (i - 1) as nat),
            scene,
            (k - i + 1) as nat,
            pow2(k) as int,
        );
    }
}

/// A squared distance is non-negative, and zero only between equal points.
proof fn lemma_dist_sq_zero(ax: int, ay: int, bx: int, by: int)
    ensures
        dist_sq(ax, ay, bx, by) >= 0,
        dist_sq(ax, ay, bx, by) == 0 ==> ax == bx && ay == by,
        ax == bx && ay == by ==> dist_sq(ax, ay, bx, by) == 0,
{
    assert((ax - bx) * (ax - bx) >= 0 && (ay - by) * (ay - by) >= 0 && ((ax - bx) * (ax - bx)
        == 0 ==> ax == bx) && ((ay - by) * (ay - by) == 0 ==> ay == by) && (ax == bx ==> (ax - bx)
        * (ax - bx) == 0) && (ay == by ==> (ay - by) * (ay - by) == 0)) by (nonlinear_arith);
}

/// Squared distances between in-image coordinates fit a machine word.
proof fn lemma_dist_sq_bound(ax: int, ay: int, bx: int, by: int)
    requires
        0 <= ax <= 32768,
        0 <= ay <= 32768,
        0 <= bx <= 32768,
        0 <= by <= 32768,
    ensures
        dist_sq(ax, ay, bx, by) <= 0x1_0000_0000_0000,
{
    assert((ax - bx) * (ax - bx) + (ay - by) * (ay - by) <= 0x1_0000_0000_0000)
        by (nonlinear_arith)
        requires -32768 <= ax - bx <= 32768, -32768 <= ay - by <= 32768;
}

/// Every seed pixel stores its own coordinate.
pub open spec fn seeds_retained(s: Seq<Option<Coord>>, scene: Image) -> bool {
    forall|sx: int, sy: int|
        0 <= sx < scene.width && 0 <= sy < scene.height && is_seed(scene, sx, sy)
            ==> #[trigger] s[sy * (scene.width as int) + sx] == Some(
            Coord { x: sx as usize, y: sy as usize },
        )
}

/// At a seed pixel the nearest-of-`k` is the pixel itself once the center
/// sample (number four) has been folded in: nothing is strictly nearer than
/// distance zero.
proof fn lemma_best_upto_at_seed(
    s: Seq<Option<Coord>>,
    scene: Image,
    offset: int,
    sx: int,
    sy: int,
    k: nat,
)
    requires
        scene.wf(),
        0 <= sx < scene.width,
        0 <= sy < scene.height,
        s[sy * (scene.width as int) + sx] == Some(Coord { x: sx as usize, y: sy as usize }),
        5 <= k <= 9,
    ensures
        best_upto(s, scene.width as int, scene.height as int, offset, sx, sy, k) == Some(
            Coord { x: sx as usize, y: sy as usize },
        ),
    decreases k,
{
    let w = scene.width as int;
    let h = scene.height as int;
    let me = Coord { x: sx as usize, y: sy as usize };
    if k == 5 {
        // Sample four is the center: offset coefficients (4 % 3 - 1, 4 / 3 - 1) are zero.
        lemma_mul_unit(4int % 3 - 1, offset);
        lemma_mul_unit(4int / 3 - 1, offset);
        assert(sample_x(sx, w, offset, 4) == sx);
        assert(sample_y(sy, h, offset, 4) == sy);
        assert(sample_cell(s, w, h, offset, sx, sy, 4) == Some(me));
        let cur = best_upto(s, w, h, offset, sx, sy, 4);
        match cur {
            None => {},
            Some(u) => {
                lemma_dist_sq_zero(sx, sy, u.x as int, u.y as int);
                lemma_dist_sq_zero(sx, sy, me.x as int, me.y as int);
            },
        }
    } else {
        lemma_best_upto_at_seed(s, scene, offset, sx, sy, (k - 1) as nat);
        let cand = sample_cell(s, w, h, offset, sx, sy, k - 1);
        match cand {
            None => {},
            Some(c) => {
                lemma_dist_sq_zero(sx, sy, c.x as int, c.y as int);
                lemma_dist_sq_zero(sx, sy, me.x as int, me.y as int);
            },
        }
    }
}

/// One propagation pass keeps every seed pixel tagged with itself.
proof fn lemma_step_retains(s: Seq<Option<Coord>>, scene: Image, offset: int)
    requires
        scene.wf(),
        s.len() == scene.width * scene.height,
        seeds_retained(s, scene),
    ensures
        seeds_retained(step_cells(s, scene.width as int, scene.height as int, offset), scene),
{
    let w = scene.width as int;
    let h = scene.height as int;
    let out = step_cells(s, w, h, offset);
    assert forall|sx: int, sy: int|
        0 <= sx < scene.width && 0 <= sy < scene.height && is_seed(scene, sx, sy)
            implies #[trigger] out[sy * (scene.width as int) + sx] == Some(
        Coord { x: sx as usize, y: sy as usize },
    ) by {
        lemma_flat_index_bounds(w, h, sx, sy);
        lemma_flat_index_make(w, sx, sy);
        lemma_best_upto_at_seed(s, scene, offset, sx, sy, 9);
        assert(out[sy * w + sx] == step_cell(s, w, h, offset, sx, sy));
    }
}

/// Every pass prefix keeps the seeds tagged with themselves.
proof fn lemma_passes_retained(scene: Image, k: nat, i: nat)
    requires
        scene.wf(),
    ensures
        seeds_retained(passes_cells(scene, k, i), scene),
    decreases i,
{
    if i == 0 {
        let s = seed_cells(scene);
        assert forall|sx: int, sy: int|
            0 <= sx < scene.width && 0 <= sy < scene.height && is_seed(scene, sx, sy)
                implies #[trigger] s[sy * (scene.width as int) + sx] == Some(
            Coord { x: sx as usize, y: sy as usize },
        ) by {
            lemma_flat_index_bounds(scene.width as int, scene.height as int, sx, sy);
            lemma_flat_index_make(scene.width as int, sx, sy);
        }
    } else {
        lemma_passes_retained(scene, k, (i - 1) as nat);
        lemma_passes_sound(scene, k, (i - 1) as nat);
        lemma_step_retains(
            passes_cells(scene, k, (i - 1) as nat),
            scene,
            pow2((k - i) as nat) as int,
        );
    }
}

/// The resolved field is zero exactly at the seeds, for every scene and
/// every pass count: seed pixels keep their own coordinate through all
/// passes, and a stored coordinate at distance zero can only be the pixel
/// itself, which soundness makes a seed. This is the hit rule the cascade
/// raymarch relies on when it treats a zero sample as an emitter.
pub proof fn lemma_jfa_zero_exactly_at_seeds(scene: Image, k: nat)
    requires
        scene.wf(),
    ensures
        forall|px: int, py: int|
            0 <= px < scene.width && 0 <= py < scene.height && is_seed(scene, px, py)
                ==> #[trigger] jfa_cells(scene, k)[py * (scene.width as int) + px] == Some(0u64),
        forall|px: int, py: int|
            0 <= px < scene.width && 0 <= py < scene.height && #[trigger] jfa_cells(
                scene,
                k,
            )[py * (scene.width as int) + px] == Some(0u64) ==> is_seed(scene, px, py),
{
    lemma_passes_retained(scene, k, k);
    lemma_passes_sound(scene, k, k);
    let w = scene.width as int;
    let h = scene.height as int;
    let s = passes_cells(scene, k, k);
    let out = jfa_cells(scene, k);
    assert forall|px: int, py: int|
        0 <= px < scene.width && 0 <= py < scene.height && is_seed(scene, px, py)
            implies #[trigger] out[py * (scene.width as int) + px] == Some(0u64) by {
        lemma_flat_index_bounds(w, h, px, py);
        lemma_flat_index_make(w, px, py);
        assert(s[py * w + px] == Some(Coord { x: px as usize, y: py as usize }));
        lemma_dist_sq_zero(px, py, px, py);
        assert(out[py * w + px] == resolve_cells(s, w)[py * w + px]);
    }
    assert forall|px: int, py: int|
        0 <= px < scene.width && 0 <= py < scene.height && #[trigger] out[py * (scene.width
        as int) + px] == Some(0u64) implies is_seed(scene, px, py) by {
        lemma_flat_index_bounds(w, h, px, py);
        lemma_flat_index_make(w, px, py);
        assert(s[py * w + px] is Some);
        let c = s[py * w + px]->Some_0;
        assert(cell_sound(s[py * w + px], scene));
        lemma_dist_sq_zero(px, py, c.x as int, c.y as int);
        lemma_dist_sq_bound(px, py, c.x as int, c.y as int);
        assert(dist_sq(px, py, c.x as int, c.y as int) == 0);
    }
}

/// JFA convergence: after `pass_count` passes with `2^pass_count` covering
/// both extents, every pixel of a scene that has at least one seed stores
/// the coordinate of some seed. (Which seed wins is the algorithm's
/// well-known approximation; soundness and totality are what hold for every
/// scene.)
pub proof fn lemma_jfa_coverage(scene: Image, k: nat, sx: int, sy: int)
    requires
        scene.wf(),
        pow2(k) >= scene.width,
        pow2(k) >= scene.height,
        0 <= sx < scene.width,
        0 <= sy < scene.height,
        is_seed(scene, sx, sy),
    ensures
        forall|px: int, py: int|
            0 <= px < scene.width && 0 <= py < scene.height ==> (#[trigger] passes_cells(
                scene,
                k,
                k,
            )[py * (scene.width as int) + px]) is Some,
        buf_sound(passes_cells(scene, k, k), scene),
{
    lemma_covered_chain(scene, k, k);
    lemma_passes_sound(scene, k, k);
    let s = passes_cells(scene, k, k);
    assert forall|px: int, py: int|
        0 <= px < scene.width && 0 <= py < scene.height implies (#[trigger] s[py * (scene.width
        as int) + px]) is Some by {
        let dx = absd(px, sx);
        let dy = absd(py, sy);
        lemma_mod_multiples_basic(dx, 1);
        lemma_mod_multiples_basic(dy, 1);
        assert(dx * 1 == dx && dy * 1 == dy);
        assert(dx % 1 == 0 && dy % 1 == 0);
        assert(pow2((k - k) as nat) == 1) by {
            vstd::arithmetic::power2::lemma2_to64();
        }
        assert(dx < pow2(k) && dy < pow2(k));
    }
}

/// Single-seed exactness: for a scene whose only seed sits at `(sx, sy)`,
/// the resolved field holds at every pixel the exact squared Euclidean
/// distance to that seed.
pub proof fn lemma_jfa_single_seed_exact(scene: Image, k: nat, sx: int, sy: int)
    requires
        scene.wf(),
        pow2(k) >= scene.width,
        pow2(k) >= scene.height,
        0 <= sx < scene.width,
        0 <= sy < scene.height,
        is_seed(scene, sx, sy),
        forall|x: int, y: int|
            0 <= x < scene.width && 0 <= y < scene.height && is_seed(scene, x, y) ==> x == sx
                && y == sy,
    ensures
        forall|px: int, py: int|
            0 <= px < scene.width && 0 <= py < scene.height ==> (#[trigger] jfa_cells(
                scene,
                k,
            )[py * (scene.width as int) + px]) == Some(dist_sq(px, py, sx, sy) as u64),
{
    lemma_jfa_coverage(scene, k, sx, sy);
    let w = scene.width as int;
    let h = scene.height as int;
    let s = passes_cells(scene, k, k);
    let out = jfa_cells(scene, k);
    assert forall|px: int, py: int|
        0 <= px < scene.width && 0 <= py < scene.height implies (#[trigger] out[py * (scene.width
        as int) + px]) == Some(dist_sq(px, py, sx, sy) as u64) by {
        lemma_flat_index_bounds(w, h, px, py);
        lemma_flat_index_make(w, px, py);
        let i = py * w + px;
        assert(s[i] is Some);
        assert(cell_sound(s[i], scene));
        let c = s[i]->Some_0;
        assert(is_seed(scene, c.x as int, c.y as int));
        assert(c.x == sx && c.y == sy);
        assert(out[i] == resolve_cells(s, w)[i]);
    }
}

} // verus!
