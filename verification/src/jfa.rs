//! The Jump Flood Algorithm distance-field generator.
//!
//! Three phases run over ping-pong coordinate buffers:
//! 1. seed: every scene pixel with non-zero alpha is tagged with its own
//!    coordinate, every other pixel with the empty sentinel;
//! 2. propagate: for `step` from `pass_count - 1` down to `0` a full-screen
//!    pass samples the nine neighbours at offset `2^step` (clamped to the
//!    image edge) and keeps whichever stored coordinate is nearest;
//! 3. resolve: the surviving coordinate of each pixel becomes its exact
//!    squared Euclidean distance.
//!
//! `pass_count = ceil(log2(max(width, height)))` passes suffice for the
//! offsets to reach across the whole image (proved in `jfa_props`).

use vstd::prelude::*;
use vstd::arithmetic::power2::pow2;
use crate::image::{Image, lemma_flat_index_bounds, lemma_flat_index_split};
use crate::limits::{MAX_DIM, MAX_PASSES};
use crate::counts::{derive_pass_count, is_ceil_log2, pow2_usize};
use crate::pingpong::PingPong;

verus! {

/// A screen-space pixel coordinate stored in a JFA buffer.
#[derive(Clone, Copy, PartialEq, Eq, Structural, Debug)]
pub struct Coord {
    pub x: usize,
    pub y: usize,
}

/// Squared Euclidean distance between two points.
pub open spec fn dist_sq(ax: int, ay: int, bx: int, by: int) -> int {
    (ax - bx) * (ax - bx) + (ay - by) * (ay - by)
}

/// Squared distance from pixel `(px, py)` to the stored coordinate `c`.
pub fn dist_sq_to(px: usize, py: usize, c: Coord) -> (d: u64)
    requires
        px <= MAX_DIM,
        py <= MAX_DIM,
        c.x <= MAX_DIM,
        c.y <= MAX_DIM,
    ensures
        d == dist_sq(px as int, py as int, c.x as int, c.y as int),
{
    let dx: i64 = px as i64 - c.x as i64;
    let dy: i64 = py as i64 - c.y as i64;
    proof {
        assert(0 <= dx * dx <= 0x4000_0000_0000i64 && 0 <= dy * dy <= 0x4000_0000_0000i64)
            by (nonlinear_arith)
            requires -32768 <= dx <= 32768, -32768 <= dy <= 32768;
    }
    (dx * dx) as u64 + (dy * dy) as u64
}

/// `c` is either empty or a coordinate inside a `w x h` image.
pub open spec fn coord_ok(c: Option<Coord>, w: int, h: int) -> bool {
    match c {
        None => true,
        Some(cc) => cc.x < w && cc.y < h,
    }
}

/// A buffer holding, per pixel, the coordinate of some seed (or the empty
/// sentinel). This is the intermediate JFA representation; on the GPU it is
/// a color target whose channels encode the coordinate.
pub struct CoordBuf {
    pub width: usize,
    pub height: usize,
    pub cells: Vec<Option<Coord>>,
}

impl CoordBuf {
    /// One cell per pixel, every stored coordinate inside the image.
    pub open spec fn wf(self) -> bool {
        &&& 1 <= self.width <= MAX_DIM
        &&& 1 <= self.height <= MAX_DIM
        &&& self.cells.len() == self.width * self.height
        &&& forall|i: int|
            0 <= i < self.cells.len() ==> coord_ok(
                #[trigger] self.cells@[i],
                self.width as int,
                self.height as int,
            )
    }

    /// The cell at `(x, y)`.
    pub open spec fn cell(self, x: int, y: int) -> Option<Coord> {
        self.cells@[y * self.width + x]
    }

    /// A buffer of empty sentinels.
    pub fn new_empty(width: usize, height: usize) -> (out: CoordBuf)
        requires
            1 <= width <= MAX_DIM,
            1 <= height <= MAX_DIM,
        ensures
            out.wf(),
            out.width == width,
            out.height == height,
            forall|i: int| 0 <= i < out.cells@.len() ==> #[trigger] out.cells@[i] is None,
    {
        proof {
            assert(1 <= width * height <= 0x4000_0000) by (nonlinear_arith)
                requires 1 <= width <= 32768, 1 <= height <= 32768;
        }
        let total: usize = width * height;
        let mut cells: Vec<Option<Coord>> = Vec::new();
        while cells.len() < total
            invariant
                cells.len() <= total,
                forall|i: int| 0 <= i < cells.len() ==> #[trigger] cells@[i] is None,
            decreases total - cells.len(),
        {
            cells.push(None);
        }
        CoordBuf { width, height, cells }
    }

    /// Read the cell at `(x, y)`.
    pub fn get(&self, x: usize, y: usize) -> (c: Option<Coord>)
        requires
            self.wf(),
            x < self.width,
            y < self.height,
        ensures
            c == self.cell(x as int, y as int),
            coord_ok(c, self.width as int, self.height as int),
    {
        proof {
            lemma_flat_index_bounds(self.width as int, self.height as int, x as int, y as int);
        }
        self.cells[y * self.width + x]
    }
}

/// A scene pixel with non-zero alpha is a seed.
pub open spec fn is_seed(scene: Image, x: int, y: int) -> bool {
    scene.pixel_at(x, y).a != 0
}

/// What the seed pass writes at `(x, y)`.
pub open spec fn seed_cell(scene: Image, x: int, y: int) -> Option<Coord> {
    if is_seed(scene, x, y) {
        Some(Coord { x: x as usize, y: y as usize })
    } else {
        None
    }
}

/// The whole seeded buffer.
pub open spec fn seed_cells(scene: Image) -> Seq<Option<Coord>> {
    Seq::new(
        (scene.width * scene.height) as nat,
        |i: int| seed_cell(scene, i % (scene.width as int), i / (scene.width as int)),
    )
}

/// Seed phase: tag every seed pixel with its own coordinate.
pub fn seed_pass(scene: &Image) -> (out: CoordBuf)
    requires
        scene.wf(),
    ensures
        out.wf(),
        out.width == scene.width,
        out.height == scene.height,
        out.cells@ == seed_cells(*scene),
        forall|x: int, y: int|
            0 <= x < scene.width && 0 <= y < scene.height ==> out.cell(x, y) == seed_cell(
                *scene,
                x,
                y,
            ),
{
    let w = scene.width;
    let h = scene.height;
    let total: usize = w * h;
    let mut cells: Vec<Option<Coord>> = Vec::new();
    let mut i: usize = 0;
    while i < total
        invariant
            scene.wf(),
            w == scene.width,
            h == scene.height,
            total == w * h,
            i == cells.len(),
            i <= total,
            forall|j: int|
                0 <= j < i ==> #[trigger] cells@[j] == seed_cell(*scene, j % (w as int), j / (w as int)),
            forall|j: int| 0 <= j < i ==> coord_ok(#[trigger] cells@[j], w as int, h as int),
        decreases total - i,
    {
        proof {
            lemma_flat_index_split(w as int, h as int, i as int);
        }
        let x = i % w;
        let y = i / w;
        let px = scene.get(x, y);
        if px.a != 0 {
            cells.push(Some(Coord { x, y }));
        } else {
            cells.push(None);
        }
        i = i + 1;
    }
    let out = CoordBuf { width: w, height: h, cells };
    proof {
        assert(out.cells@ =~= seed_cells(*scene));
        assert forall|x: int, y: int|
            0 <= x < scene.width && 0 <= y < scene.height implies out.cell(x, y) == seed_cell(
            *scene,
            x,
            y,
        ) by {
            lemma_flat_index_bounds(w as int, h as int, x, y);
            crate::image::lemma_flat_index_make(w as int, x, y);
        }
    }
    out
}

/// Clamp a sample coordinate to `[0, hi]` (clamp-to-edge addressing; the
/// image never wraps, so border distances stay exact).
pub open spec fn clamp_coord(v: int, hi: int) -> int {
    if v < 0 {
        0
    } else if v > hi {
        hi
    } else {
        v
    }
}

/// X position of sample `k` (of nine) around `(px, py)` at `offset`.
pub open spec fn sample_x(px: int, w: int, offset: int, k: int) -> int {
    clamp_coord(px + (k % 3 - 1) * offset, w - 1)
}

/// Y position of sample `k` (of nine) around `(px, py)` at `offset`.
pub open spec fn sample_y(py: int, h: int, offset: int, k: int) -> int {
    clamp_coord(py + (k / 3 - 1) * offset, h - 1)
}

/// The stored coordinate sample `k` reads.
pub open spec fn sample_cell(
    s: Seq<Option<Coord>>,
    w: int,
    h: int,
    offset: int,
    px: int,
    py: int,
    k: int,
) -> Option<Coord> {
    s[sample_y(py, h, offset, k) * w + sample_x(px, w, offset, k)]
}

/// Keep `cur` unless `cand` is strictly nearer to `(px, py)`; any stored
/// coordinate beats the empty sentinel.
pub open spec fn nearer(px: int, py: int, cur: Option<Coord>, cand: Option<Coord>) -> Option<
    Coord,
> {
    match cand {
        None => cur,
        Some(c) => match cur {
            None => cand,
            Some(u) => if dist_sq(px, py, c.x as int, c.y as int) < dist_sq(
                px,
                py,
                u.x as int,
                u.y as int,
            ) {
                cand
            } else {
                cur
            },
        },
    }
}

/// The nearest stored coordinate among the first `k` of the nine samples.
pub open spec fn best_upto(
    s: Seq<Option<Coord>>,
    w: int,
    h: int,
    offset: int,
    px: int,
    py: int,
    k: nat,
) -> Option<Coord>
    decreases k,
{
    if k == 0 {
        None
    } else {
        nearer(
            px,
            py,
            best_upto(s, w, h, offset, px, py, (k - 1) as nat),
            sample_cell(s, w, h, offset, px, py, k - 1),
        )
    }
}

/// What one propagation pass writes at `(px, py)`.
pub open spec fn step_cell(
    s: Seq<Option<Coord>>,
    w: int,
    h: int,
    offset: int,
    px: int,
    py: int,
) -> Option<Coord> {
    best_upto(s, w, h, offset, px, py, 9)
}

/// The whole buffer one propagation pass writes.
pub open spec fn step_cells(s: Seq<Option<Coord>>, w: int, h: int, offset: int) -> Seq<
    Option<Coord>,
> {
    Seq::new((w * h) as nat, |i: int| step_cell(s, w, h, offset, i % w, i / w))
}

/// One propagation pass: every pixel keeps the nearest of the nine stored
/// coordinates sampled at `offset`.
pub fn propagate(input: &CoordBuf, offset: usize) -> (out: CoordBuf)
    requires
        input.wf(),
        1 <= offset <= 0x4000_0000,
    ensures
        out.wf(),
        out.width == input.width,
        out.height == input.height,
        out.cells@ == step_cells(input.cells@, input.width as int, input.height as int, offset as int),
        forall|x: int, y: int|
            0 <= x < input.width && 0 <= y < input.height ==> out.cell(x, y) == step_cell(
                input.cells@,
                input.width as int,
                input.height as int,
                offset as int,
                x,
                y,
            ),
{
    let w = input.width;
    let h = input.height;
    let total: usize = w * h;
    let mut cells: Vec<Option<Coord>> = Vec::new();
    let mut i: usize = 0;
    while i < total
        invariant
            input.wf(),
            w == input.width,
            h == input.height,
            total == w * h,
            1 <= offset <= 0x4000_0000,
            i == cells.len(),
            i <= total,
            forall|j: int|
                0 <= j < i ==> #[trigger] cells@[j] == step_cell(
                    input.cells@,
                    w as int,
                    h as int,
                    offset as int,
                    j % (w as int),
                    j / (w as int),
                ),
            forall|j: int| 0 <= j < i ==> coord_ok(#[trigger] cells@[j], w as int, h as int),
        decreases total - i,
    {
        proof {
            lemma_flat_index_split(w as int, h as int, i as int);
        }
        let px = i % w;
        let py = i / w;
        let mut acc: Option<Coord> = None;
        let mut k: usize = 0;
        while k < 9
            invariant
                input.wf(),
                w == input.width,
                h == input.height,
                1 <= offset <= 0x4000_0000,
                px < w,
                py < h,
                k <= 9,
                acc == best_upto(
                    input.cells@,
                    w as int,
                    h as int,
                    offset as int,
                    px as int,
                    py as int,
                    k as nat,
                ),
                coord_ok(acc, w as int, h as int),
            decreases 9 - k,
        {
            let ox: i64 = (k % 3) as i64 - 1;
            let oy: i64 = (k / 3) as i64 - 1;
            proof {
                assert(-0x4000_0000 <= ox * (offset as i64) <= 0x4000_0000
                    && -0x4000_0000 <= oy * (offset as i64) <= 0x4000_0000) by (nonlinear_arith)
                    requires -1 <= ox <= 1, -1 <= oy <= 1, 0 <= offset <= 0x4000_0000;
            }
            let sxi: i64 = px as i64 + ox * offset as i64;
            let syi: i64 = py as i64 + oy * offset as i64;
            let sx: usize = if sxi < 0 {
                0
            } else if sxi > (w - 1) as i64 {
                w - 1
            } else {
                sxi as usize
            };
            let sy: usize = if syi < 0 {
                0
            } else if syi > (h - 1) as i64 {
                h - 1
            } else {
                syi as usize
            };
            proof {
                lemma_flat_index_bounds(w as int, h as int, sx as int, sy as int);
            }
            let cand = input.get(sx, sy);
            let next = match cand {
                None => acc,
                Some(c) => match acc {
                    None => Some(c),
                    Some(u) => {
                        if dist_sq_to(px, py, c) < dist_sq_to(px, py, u) {
                            Some(c)
                        } else {
                            Some(u)
                        }
                    },
                },
            };
            acc = next;
            k = k + 1;
        }
        cells.push(acc);
        i = i + 1;
    }
    let out = CoordBuf { width: w, height: h, cells };
    proof {
        assert(out.cells@ =~= step_cells(input.cells@, w as int, h as int, offset as int));
        assert forall|x: int, y: int|
            0 <= x < input.width && 0 <= y < input.height implies out.cell(x, y) == step_cell(
            input.cells@,
            w as int,
            h as int,
            offset as int,
            x,
            y,
        ) by {
            lemma_flat_index_bounds(w as int, h as int, x, y);
            crate::image::lemma_flat_index_make(w as int, x, y);
        }
    }
    out
}

/// The buffer after the first `i` of `k` propagation passes: pass number
/// `i` (counting from one) uses offset `2^(k - i)`.
pub open spec fn passes_cells(scene: Image, k: nat, i: nat) -> Seq<Option<Coord>>
    decreases i,
{
    if i == 0 {
        seed_cells(scene)
    } else {
        step_cells(
            passes_cells(scene, k, (i - 1) as nat),
            scene.width as int,
            scene.height as int,
            pow2((k - i) as nat) as int,
        )
    }
}

/// The scalar field the resolve pass derives from a coordinate buffer:
/// exact squared distances, empty where no seed was found.
pub open spec fn resolve_cells(s: Seq<Option<Coord>>, w: int) -> Seq<Option<u64>> {
    Seq::new(
        s.len(),
        |i: int|
            match s[i] {
                Some(c) => Some(dist_sq(i % w, i / w, c.x as int, c.y as int) as u64),
                None => None,
            },
    )
}

/// The distance field of a scene after the full JFA sequence with `k`
/// propagation passes.
pub open spec fn jfa_cells(scene: Image, k: nat) -> Seq<Option<u64>> {
    resolve_cells(passes_cells(scene, k, k), scene.width as int)
}

/// A full-screen squared-distance field. `None` marks a pixel that no seed
/// coordinate ever reached (a scene without seeds).
pub struct DistField {
    pub width: usize,
    pub height: usize,
    pub cells: Vec<Option<u64>>,
}

impl DistField {
    /// One cell per pixel of a non-degenerate viewport.
    pub open spec fn wf(self) -> bool {
        &&& 1 <= self.width <= MAX_DIM
        &&& 1 <= self.height <= MAX_DIM
        &&& self.cells.len() == self.width * self.height
    }

    /// The cell at `(x, y)`.
    pub open spec fn cell(self, x: int, y: int) -> Option<u64> {
        self.cells@[y * self.width + x]
    }

    /// An all-empty field.
    pub fn new_empty(width: usize, height: usize) -> (out: DistField)
        requires
            1 <= width <= MAX_DIM,
            1 <= height <= MAX_DIM,
        ensures
            out.wf(),
            out.width == width,
            out.height == height,
            forall|i: int| 0 <= i < out.cells@.len() ==> #[trigger] out.cells@[i] is None,
    {
        proof {
            assert(1 <= width * height <= 0x4000_0000) by (nonlinear_arith)
                requires 1 <= width <= 32768, 1 <= height <= 32768;
        }
        let total: usize = width * height;
        let mut cells: Vec<Option<u64>> = Vec::new();
        while cells.len() < total
            invariant
                cells.len() <= total,
                forall|i: int| 0 <= i < cells.len() ==> #[trigger] cells@[i] is None,
            decreases total - cells.len(),
        {
            cells.push(None);
        }
        DistField { width, height, cells }
    }

    /// Read the cell at `(x, y)`.
    pub fn get(&self, x: usize, y: usize) -> (c: Option<u64>)
        requires
            self.wf(),
            x < self.width,
            y < self.height,
        ensures
            c == self.cell(x as int, y as int),
    {
        proof {
            lemma_flat_index_bounds(self.width as int, self.height as int, x as int, y as int);
        }
        self.cells[y * self.width + x]
    }
}

/// Resolve phase: turn surviving coordinates into exact squared distances.
pub fn resolve(input: &CoordBuf) -> (out: DistField)
    requires
        input.wf(),
    ensures
        out.wf(),
        out.width == input.width,
        out.height == input.height,
        out.cells@ == resolve_cells(input.cells@, input.width as int),
        forall|x: int, y: int|
            0 <= x < input.width && 0 <= y < input.height ==> out.cell(x, y) == match input.cell(
                x,
                y,
            ) {
                Some(c) => Some(dist_sq(x, y, c.x as int, c.y as int) as u64),
                None => None::<u64>,
            },
{
    let w = input.width;
    let h = input.height;
    let total: usize = w * h;
    let mut cells: Vec<Option<u64>> = Vec::new();
    let mut i: usize = 0;
    while i < total
        invariant
            input.wf(),
            w == input.width,
            h == input.height,
            total == w * h,
            i == cells.len(),
            i <= total,
            forall|j: int|
                0 <= j < i ==> #[trigger] cells@[j] == resolve_cells(input.cells@, w as int)[j],
        decreases total - i,
    {
        proof {
            lemma_flat_index_split(w as int, h as int, i as int);
        }
        let px = i % w;
        let py = i / w;
        let cur = input.get(px, py);
        match cur {
            Some(c) => {
                let d = dist_sq_to(px, py, c);
                cells.push(Some(d));
            },
            None => {
                cells.push(None);
            },
        }
        i = i + 1;
    }
    let out = DistField { width: w, height: h, cells };
    proof {
        assert(out.cells@ =~= resolve_cells(input.cells@, w as int));
        assert forall|x: int, y: int|
            0 <= x < input.width && 0 <= y < input.height implies out.cell(x, y) == match input.cell(
            x,
            y,
        ) {
            Some(c) => Some(dist_sq(x, y, c.x as int, c.y as int) as u64),
            None => None::<u64>,
        } by {
            lemma_flat_index_bounds(w as int, h as int, x, y);
            crate::image::lemma_flat_index_make(w as int, x, y);
        }
    }
    out
}

/// The JFA distance-field generator: the derived pass count and the pair of
/// ping-pong coordinate buffers the passes alternate over.
pub struct JumpFlood {
    pub width: usize,
    pub height: usize,
    pub pass_count: usize,
    pub pp: PingPong<CoordBuf>,
}

impl JumpFlood {
    /// Dimensions agree everywhere and the pass count stays small enough
    /// for its offsets `2^(pass_count - 1)` to be computed.
    pub open spec fn wf(self) -> bool {
        &&& 1 <= self.width <= MAX_DIM
        &&& 1 <= self.height <= MAX_DIM
        &&& self.pass_count <= MAX_PASSES
        &&& self.pp.wf()
        &&& self.pp.slot_a.wf()
        &&& self.pp.slot_b.wf()
        &&& self.pp.slot_a.width == self.width
        &&& self.pp.slot_a.height == self.height
        &&& self.pp.slot_b.width == self.width
        &&& self.pp.slot_b.height == self.height
    }

    /// A generator for a `width x height` viewport, with
    /// `pass_count == ceil(log2(max(width, height)))`.
    pub fn new(width: usize, height: usize) -> (jfa: JumpFlood)
        requires
            1 <= width <= MAX_DIM,
            1 <= height <= MAX_DIM,
        ensures
            jfa.wf(),
            jfa.width == width,
            jfa.height == height,
            is_ceil_log2(
                vstd::math::max(width as int, height as int),
                jfa.pass_count as nat,
            ),
    {
        let pass_count = derive_pass_count(width, height);
        let a = CoordBuf::new_empty(width, height);
        let b = CoordBuf::new_empty(width, height);
        JumpFlood { width, height, pass_count, pp: PingPong::new(a, b) }
    }

    /// Discard both buffers and recompute the pass count for a new extent.
    pub fn resize(&mut self, width: usize, height: usize)
        requires
            1 <= width <= MAX_DIM,
            1 <= height <= MAX_DIM,
        ensures
            final(self).wf(),
            final(self).width == width,
            final(self).height == height,
            is_ceil_log2(
                vstd::math::max(width as int, height as int),
                final(self).pass_count as nat,
            ),
    {
        *self = JumpFlood::new(width, height);
    }

    /// Override the derived pass count (a debug tunable), clamped so that
    /// the pass offsets stay computable.
    pub fn set_pass_count(&mut self, n: usize)
        requires
            old(self).wf(),
        ensures
            final(self).wf(),
            final(self).pass_count == vstd::math::min(n as int, MAX_PASSES as int),
            final(self).width == old(self).width,
            final(self).height == old(self).height,
    {
        self.pass_count = if n > MAX_PASSES {
            MAX_PASSES
        } else {
            n
        };
    }

    /// Run the full JFA sequence on a scene: seed, `pass_count` propagation
    /// passes over the ping-pong pair, resolve. The result is a pure
    /// function of the scene and the pass count; the buffers are rewritten
    /// from scratch, so nothing leaks from earlier frames.
    pub fn run(&mut self, scene: &Image) -> (df: DistField)
        requires
            old(self).wf(),
            scene.wf(),
            scene.width == old(self).width,
            scene.height == old(self).height,
        ensures
            final(self).wf(),
            final(self).width == old(self).width,
            final(self).height == old(self).height,
            final(self).pass_count == old(self).pass_count,
            df.wf(),
            df.width == old(self).width,
            df.height == old(self).height,
            df.cells@ == jfa_cells(*scene, old(self).pass_count as nat),
    {
        let ghost k = self.pass_count as nat;
        let w = self.width;
        let h = self.height;
        self.pp.reset();
        let seeded = seed_pass(scene);
        self.pp.set_output(seeded);
        let mut i: usize = 0;
        while i < self.pass_count
            invariant
                scene.wf(),
                w == scene.width,
                h == scene.height,
                self.width == w,
                self.height == h,
                self.pass_count <= MAX_PASSES,
                k == self.pass_count as nat,
                self.pp.wf(),
                self.pp.slot_a.wf(),
                self.pp.slot_b.wf(),
                self.pp.slot_a.width == w,
                self.pp.slot_a.height == h,
                self.pp.slot_b.width == w,
                self.pp.slot_b.height == h,
                i <= self.pass_count,
                self.pp.cur_out().cells@ == passes_cells(*scene, k, i as nat),
            decreases self.pass_count - i,
        {
            self.pp.swap();
            let e: usize = self.pass_count - 1 - i;
            let offset = pow2_usize(e);
            let next = propagate(self.pp.input(), offset);
            self.pp.set_output(next);
            i = i + 1;
        }
        self.pp.swap();
        let df = resolve(self.pp.input());
        df
    }
}

} // verus!
