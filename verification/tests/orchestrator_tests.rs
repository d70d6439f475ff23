//! Frame sequencing, resize safety and the end-to-end scenario.

use radiance_cascades::image::{Image, Rgba};
use radiance_cascades::orchestrator::{Orchestrator, GiError};

fn transparent() -> Rgba {
    Rgba { r: 0, g: 0, b: 0, a: 0 }
}

fn white() -> Rgba {
    Rgba { r: 255, g: 255, b: 255, a: 255 }
}

#[test]
fn zero_viewport_is_rejected_without_side_effects() {
    let mut o = Orchestrator::new(16, 16);
    let pass_count = o.jfa.pass_count;
    let cascade_count = o.rc.params.cascade_count;
    assert_eq!(o.on_resize(0, 50), Err(GiError::ZeroViewport));
    assert_eq!(o.on_resize(50, 0), Err(GiError::ZeroViewport));
    assert_eq!(o.width, 16);
    assert_eq!(o.height, 16);
    assert_eq!(o.jfa.pass_count, pass_count);
    assert_eq!(o.rc.params.cascade_count, cascade_count);
}

#[test]
fn scene_size_mismatch_is_rejected() {
    let mut o = Orchestrator::new(16, 16);
    let scene = Image::new(8, 8, transparent());
    let mut out = Image::new(16, 16, transparent());
    assert_eq!(o.run_frame(&scene, &mut out), Err(GiError::SceneSizeMismatch));
}

#[test]
fn output_size_mismatch_is_rejected() {
    let mut o = Orchestrator::new(16, 16);
    let scene = Image::new(16, 16, transparent());
    let mut out = Image::new(8, 8, transparent());
    assert_eq!(o.run_frame(&scene, &mut out), Err(GiError::OutputSizeMismatch));
}

#[test]
fn resize_is_idempotent() {
    // Resizing twice with the same extent leaves pass_count, cascade_count
    // and the surface dimensions unchanged.
    let mut o = Orchestrator::new(100, 100);
    assert_eq!(o.on_resize(50, 40), Ok(()));
    let pass_count = o.jfa.pass_count;
    let cascade_count = o.rc.params.cascade_count;
    assert_eq!(o.on_resize(50, 40), Ok(()));
    assert_eq!(o.jfa.pass_count, pass_count);
    assert_eq!(o.rc.params.cascade_count, cascade_count);
    assert_eq!(o.width, 50);
    assert_eq!(o.height, 40);
    assert_eq!(o.jfa.width, 50);
    assert_eq!(o.jfa.height, 40);
    assert_eq!(o.rc.width, 50);
    assert_eq!(o.rc.height, 40);
}

#[test]
fn frame_pass_sequence_is_descending_with_one_screen_write() {
    let mut o = Orchestrator::new(24, 24);
    let scene = Image::new(24, 24, transparent());
    let mut out = Image::new(24, 24, transparent());
    let records = o.run_frame(&scene, &mut out).expect("sizes match");
    assert_eq!(records.len(), o.rc.params.cascade_count as usize);
    for (i, r) in records.iter().enumerate() {
        assert_eq!(r.cascade_index as usize, records.len() - 1 - i);
        assert_eq!(r.to_screen, r.cascade_index == 0);
        if !r.to_screen {
            assert_eq!(r.slot, i % 2);
        }
    }
}

#[test]
fn end_to_end_square_scene() {
    // 256x256, fully transparent except an opaque white 4x4 square around
    // the center: after run_frame the distance field at (0, 0) is about
    // sqrt((128-2)^2 + (128-2)^2) = 178.19, the output is lit next to the
    // square and black far away (cascade_count 2, base_ray_count 4).
    let mut scene = Image::new(256, 256, transparent());
    for y in 126..130 {
        for x in 126..130 {
            scene.set(x, y, white());
        }
    }
    let mut o = Orchestrator::new(256, 256);
    o.rc.set_cascade_count(2);
    o.rc.set_base_ray_count(4);
    let mut out = Image::new(256, 256, transparent());
    o.run_frame(&scene, &mut out).expect("sizes match");
    // Exact squared distance from the corner to the nearest square pixel.
    let d2 = o.dist.get(0, 0).expect("a seed exists");
    assert_eq!(d2, 126 * 126 + 126 * 126);
    let d = (d2 as f64).sqrt();
    assert!((d - 178.2).abs() < 0.5, "distance at the corner: {}", d);
    // Lit right next to the square.
    let near = out.get(131, 128);
    assert!(near.r as u32 + near.g as u32 + near.b as u32 > 0, "next to the square");
    // Black far from any seed: the two bands reach at most 15 pixels.
    let far = out.get(0, 0);
    assert_eq!((far.r, far.g, far.b), (0, 0, 0));
    let far2 = out.get(255, 10);
    assert_eq!((far2.r, far2.g, far2.b), (0, 0, 0));
}

#[test]
fn resize_round_trip_renders_pixel_identically() {
    // 100x100 -> 800x600 -> 100x100: a fixed synthetic scene renders to
    // exactly the same pixels as before the round trip, so no state leaks
    // across the reallocation.
    let mut scene = Image::new(100, 100, transparent());
    for y in 40..44 {
        for x in 70..75 {
            scene.set(x, y, Rgba { r: 250, g: 128, b: 10, a: 255 });
        }
    }
    scene.set(10, 80, white());
    let mut o = Orchestrator::new(100, 100);
    let mut out1 = Image::new(100, 100, transparent());
    o.run_frame(&scene, &mut out1).expect("sizes match");
    assert_eq!(o.on_resize(800, 600), Ok(()));
    assert_eq!(o.on_resize(100, 100), Ok(()));
    let mut out2 = Image::new(100, 100, transparent());
    o.run_frame(&scene, &mut out2).expect("sizes match");
    assert_eq!(out1.pixels, out2.pixels);
    // And a repeated frame on unchanged state is just as deterministic.
    let mut out3 = Image::new(100, 100, transparent());
    o.run_frame(&scene, &mut out3).expect("sizes match");
    assert_eq!(out2.pixels, out3.pixels);
}
