//! The pass/resource orchestrator.
//!
//! It owns every surface of the pipeline (the JFA ping-pong pair, the
//! cascade ping-pong pair, the distance field), reacts to viewport resizes
//! by rederiving the pass counts and reallocating all of them, and
//! sequences JFA then RC once per frame: the scene renders to a distance
//! field, which RC consumes together with the scene to fill the supplied
//! output image. A frame's output is a pure function of the scene and the
//! configuration (`frame_output`), so skipped frames, reruns and resize
//! round trips can never leak state into the picture.

use vstd::prelude::*;
use crate::image::{Image, Rgba};
use crate::jfa::{JumpFlood, DistField, jfa_cells, is_seed};
use crate::jfa_props::{absd, lemma_jfa_zero_exactly_at_seeds};
use crate::cascades::{
    RadianceCascades, CascadeParams, PassRecord, rc_output, no_zero_within, band_end, eff_base,
    lemma_chain_black,
};
use crate::counts::{
    is_ceil_log2, is_cascade_count, lemma_ceil_log2_unique, lemma_cascade_count_unique,
};
use crate::limits::MAX_DIM;

verus! {

/// Configuration errors: rejected before any resource is touched, so no
/// undefined surface state can ever be created. (Device loss and allocation
/// failure live outside this core, with the GPU plumbing.)
#[derive(Clone, Copy, PartialEq, Eq, Structural, Debug)]
pub enum GiError {
    /// A zero-area viewport was requested.
    ZeroViewport,
    /// The scene image does not match the current viewport.
    SceneSizeMismatch,
    /// The output image does not match the current viewport.
    OutputSizeMismatch,
}

/// The orchestrator: the two solvers, their shared extent, and the distance
/// field handed from JFA to RC each frame.
pub struct Orchestrator {
    pub width: usize,
    pub height: usize,
    pub jfa: JumpFlood,
    pub rc: RadianceCascades,
    pub dist: DistField,
}

/// Everything a frame's output depends on beside the scene itself: the
/// distance field is fully determined by the scene and the pass count, and
/// the cascade merge by the parameters.
pub open spec fn frame_output(scene: Image, pass_count: nat, params: CascadeParams) -> Seq<
    Rgba,
> {
    rc_output(scene, jfa_cells(scene, pass_count), params)
}

/// What `on_resize` leaves behind: for an unchanged extent nothing at all
/// (resizing is idempotent); otherwise freshly derived pass counts for the
/// new extent, with the external tuning kept.
pub open spec fn resize_post(pre: Orchestrator, post: Orchestrator, width: int, height: int) -> bool {
    if pre.width == width && pre.height == height {
        post == pre
    } else {
        &&& post.width == width
        &&& post.height == height
        &&& post.jfa.width == width
        &&& post.jfa.height == height
        &&& post.rc.width == width
        &&& post.rc.height == height
        &&& is_ceil_log2(vstd::math::max(width, height), post.jfa.pass_count as nat)
        &&& post.rc.params.base_ray_count == pre.rc.params.base_ray_count
        &&& post.rc.params.angle_offset == pre.rc.params.angle_offset
        &&& post.rc.params.cascade_index == pre.rc.params.cascade_index
        &&& is_cascade_count(
            vstd::math::max(pre.rc.params.base_ray_count as int, 2),
            width * width + height * height,
            post.rc.params.cascade_count as nat,
        )
    }
}

impl Orchestrator {
    /// One extent shared by every owned resource.
    pub open spec fn wf(self) -> bool {
        &&& 1 <= self.width <= MAX_DIM
        &&& 1 <= self.height <= MAX_DIM
        &&& self.jfa.wf()
        &&& self.jfa.width == self.width
        &&& self.jfa.height == self.height
        &&& self.rc.wf()
        &&& self.rc.width == self.width
        &&& self.rc.height == self.height
        &&& self.dist.wf()
        &&& self.dist.width == self.width
        &&& self.dist.height == self.height
    }

    /// An orchestrator for a `width x height` viewport, with derived pass
    /// counts and the default tuning.
    pub fn new(width: usize, height: usize) -> (o: Orchestrator)
        requires
            1 <= width <= MAX_DIM,
            1 <= height <= MAX_DIM,
        ensures
            o.wf(),
            o.width == width,
            o.height == height,
            is_ceil_log2(
                vstd::math::max(width as int, height as int),
                o.jfa.pass_count as nat,
            ),
            o.rc.params.angle_offset == 128,
            o.rc.params.base_ray_count == 4,
            o.rc.params.cascade_index == 0,
            is_cascade_count(
                4,
                width * width + height * height,
                o.rc.params.cascade_count as nat,
            ),
    {
        Orchestrator {
            width,
            height,
            jfa: JumpFlood::new(width, height),
            rc: RadianceCascades::new(width, height),
            dist: DistField::new_empty(width, height),
        }
    }

    /// React to a viewport change: reject a zero-area extent before
    /// touching any resource; do nothing for an unchanged extent; otherwise
    /// rederive both pass counts and reallocate every surface.
    pub fn on_resize(&mut self, width: usize, height: usize) -> (r: Result<(), GiError>)
        requires
            old(self).wf(),
            width <= MAX_DIM,
            height <= MAX_DIM,
        ensures
            final(self).wf(),
            r is Err <==> (width == 0 || height == 0),
            r is Err ==> *final(self) == *old(self) && r == Err::<(), GiError>(
                GiError::ZeroViewport,
            ),
            r is Ok ==> resize_post(*old(self), *final(self), width as int, height as int),
    {
        if width == 0 || height == 0 {
            return Err(GiError::ZeroViewport);
        }
        if width == self.width && height == self.height {
            return Ok(());
        }
        self.width = width;
        self.height = height;
        self.jfa.resize(width, height);
        self.rc.resize(width, height);
        self.dist = DistField::new_empty(width, height);
        Ok(())
    }

    /// Render one frame: JFA turns the scene into the distance field, RC
    /// merges the cascades into the output image. Size mismatches are
    /// rejected before anything runs, and matching sizes are exactly the
    /// inputs on which the frame succeeds. On success the returned records
    /// describe the cascade passes (descending indices, the last one alone
    /// on screen), and the output is `frame_output` of the scene and the
    /// entry configuration.
    pub fn run_frame(&mut self, scene: &Image, output: &mut Image) -> (r: Result<
        Vec<PassRecord>,
        GiError,
    >)
        requires
            old(self).wf(),
            scene.wf(),
            old(output).wf(),
        ensures
            final(self).wf(),
            final(self).width == old(self).width,
            final(self).height == old(self).height,
            final(self).jfa.pass_count == old(self).jfa.pass_count,
            final(self).rc.params == old(self).rc.params,
            r is Err ==> *final(self) == *old(self) && *final(output) == *old(output),
            r is Ok <==> (scene.width == old(self).width && scene.height == old(self).height
                && old(output).width == old(self).width && old(output).height == old(
                self,
            ).height),
            (r == Err::<Vec<PassRecord>, GiError>(GiError::SceneSizeMismatch)) <==> (
            scene.width != old(self).width || scene.height != old(self).height),
            (r == Err::<Vec<PassRecord>, GiError>(GiError::OutputSizeMismatch)) <==> (
            scene.width == old(self).width && scene.height == old(self).height && (old(
                output,
            ).width != old(self).width || old(output).height != old(self).height)),
            r is Ok ==> {
                &&& final(output).wf()
                &&& final(output).width == old(self).width
                &&& final(output).height == old(self).height
                &&& final(self).dist.cells@ == jfa_cells(*scene, old(self).jfa.pass_count as nat)
                &&& final(output).pixels@ == frame_output(
                    *scene,
                    old(self).jfa.pass_count as nat,
                    old(self).rc.params,
                )
                &&& (r->Ok_0).len() == old(self).rc.params.cascade_count
                &&& forall|i: int|
                    0 <= i < (r->Ok_0).len() ==> (#[trigger] (r->Ok_0)@[i]).cascade_index == old(
                        self,
                    ).rc.params.cascade_count - 1 - i
                &&& forall|i: int|
                    0 <= i < (r->Ok_0).len() ==> ((#[trigger] (r->Ok_0)@[i]).to_screen <==> (
                    r->Ok_0)@[i].cascade_index == 0)
                &&& forall|i: int|
                    0 <= i < (r->Ok_0).len() ==> (#[trigger] (r->Ok_0)@[i]).slot == i % 2
            },
    {
        if scene.width != self.width || scene.height != self.height {
            return Err(GiError::SceneSizeMismatch);
        }
        if output.width != self.width || output.height != self.height {
            return Err(GiError::OutputSizeMismatch);
        }
        let df = self.jfa.run(scene);
        self.dist = df;
        let records = self.rc.run(scene, &self.dist, output);
        Ok(records)
    }
}


/// A pixel with no seed within the reach of the largest cascade band stays
/// black: no raymarch of any cascade can hit there (the distance field is
/// zero exactly at seeds), so the whole descending merge averages zeros.
/// Together with the pass-count characterisation this is the qualitative
/// half of the far-field behaviour: the rendered light dies out beyond the
/// bands' total range.
pub proof fn lemma_frame_black_far_from_seeds(
    scene: Image,
    pass_count: nat,
    params: CascadeParams,
    px: int,
    py: int,
)
    requires
        scene.wf(),
        params.valid(),
        0 <= px < scene.width,
        0 <= py < scene.height,
        forall|x: int, y: int|
            0 <= x < scene.width && 0 <= y < scene.height && absd(x, px) < band_end(
                eff_base(params.base_ray_count as nat),
                (params.cascade_count - 1) as nat,
            ) as int && absd(y, py) < band_end(
                eff_base(params.base_ray_count as nat),
                (params.cascade_count - 1) as nat,
            ) as int ==> !is_seed(scene, x, y),
    ensures
        frame_output(scene, pass_count, params)[py * (scene.width as int) + px].r == 0,
        frame_output(scene, pass_count, params)[py * (scene.width as int) + px].g == 0,
        frame_output(scene, pass_count, params)[py * (scene.width as int) + px].b == 0,
{
    let w = scene.width as int;
    let h = scene.height as int;
    let dcells = jfa_cells(scene, pass_count);
    let reach = band_end(
        eff_base(params.base_ray_count as nat),
        (params.cascade_count - 1) as nat,
    ) as int;
    lemma_jfa_zero_exactly_at_seeds(scene, pass_count);
    assert(no_zero_within(dcells, w, h, px, py, reach)) by {
        assert forall|x: int, y: int|
            0 <= x < w && 0 <= y < h && absd(x, px) < reach && absd(y, py) < reach
            implies #[trigger] dcells[y * w + x] != Some(0u64) by {
            assert(!is_seed(scene, x, y));
            if dcells[y * w + x] == Some(0u64) {
                assert(jfa_cells(scene, pass_count)[y * (scene.width as int) + x] == Some(0u64));
                assert(is_seed(scene, x, y));
            }
        }
    }
    lemma_chain_black(scene, dcells, params, 0, px, py);
}

/// Resizing is idempotent: whatever the first `on_resize(w, h)` did, a
/// second `on_resize(w, h)` finds the extent already in place and changes
/// nothing — pass count, cascade count and surface extents all stay as they
/// are.
pub proof fn lemma_resize_idempotent(
    s0: Orchestrator,
    s1: Orchestrator,
    s2: Orchestrator,
    width: int,
    height: int,
)
    requires
        resize_post(s0, s1, width, height),
        resize_post(s1, s2, width, height),
    ensures
        s2 == s1,
{
}

/// Resizing away and back restores every frame-relevant quantity — extent,
/// pass count and cascade parameters — provided the starting counts were
/// the derived ones. Since a frame's output is a pure function of the scene
/// and exactly these quantities (`frame_output`), a fixed scene renders
/// pixel-identically before and after the round trip: no state survives the
/// reallocation.
pub proof fn lemma_resize_round_trip(
    s0: Orchestrator,
    s1: Orchestrator,
    s2: Orchestrator,
    w: int,
    h: int,
    w2: int,
    h2: int,
)
    requires
        s0.width == w,
        s0.height == h,
        is_ceil_log2(vstd::math::max(w, h), s0.jfa.pass_count as nat),
        is_cascade_count(
            vstd::math::max(s0.rc.params.base_ray_count as int, 2),
            w * w + h * h,
            s0.rc.params.cascade_count as nat,
        ),
        resize_post(s0, s1, w2, h2),
        resize_post(s1, s2, w, h),
    ensures
        s2.width == s0.width,
        s2.height == s0.height,
        s2.jfa.pass_count == s0.jfa.pass_count,
        s2.rc.params == s0.rc.params,
        forall|scene: Image|
            frame_output(scene, s2.jfa.pass_count as nat, #[trigger] s2.rc.params)
                == frame_output(scene, s0.jfa.pass_count as nat, s0.rc.params),
{
    if w2 == w && h2 == h {
        assert(s1 == s0);
        assert(s2 == s1);
    } else {
        assert(s1.width == w2 && s1.height == h2);
        assert(!(s1.width == w && s1.height == h));
        lemma_ceil_log2_unique(
            vstd::math::max(w, h),
            s2.jfa.pass_count as nat,
            s0.jfa.pass_count as nat,
        );
        lemma_cascade_count_unique(
            vstd::math::max(s0.rc.params.base_ray_count as int, 2),
            w * w + h * h,
            s2.rc.params.cascade_count as nat,
            s0.rc.params.cascade_count as nat,
        );
        assert(s2.rc.params == s0.rc.params);
    }
}

} // verus!
