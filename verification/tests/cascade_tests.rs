//! The cascade solver: pass ordering, targets, and the integer kernel.

use radiance_cascades::image::{Image, Rgba};
use radiance_cascades::jfa::JumpFlood;
use radiance_cascades::cascades::{RadianceCascades, CascadeParams, cascade_pass, isqrt};

fn transparent() -> Rgba {
    Rgba { r: 0, g: 0, b: 0, a: 0 }
}

fn white() -> Rgba {
    Rgba { r: 255, g: 255, b: 255, a: 255 }
}

#[test]
fn isqrt_values() {
    assert_eq!(isqrt(0), 0);
    assert_eq!(isqrt(1), 1);
    assert_eq!(isqrt(2), 1);
    assert_eq!(isqrt(3), 1);
    assert_eq!(isqrt(4), 2);
    assert_eq!(isqrt(15), 3);
    assert_eq!(isqrt(16), 4);
    assert_eq!(isqrt(31752), 178);
    assert_eq!(isqrt(u64::MAX), 0xFFFF_FFFF);
}

#[test]
fn default_params() {
    let p = CascadeParams::new();
    assert_eq!(p.angle_offset, 128);
    assert_eq!(p.cascade_count, 2);
    assert_eq!(p.cascade_index, 0);
    assert_eq!(p.base_ray_count, 4);
}

#[test]
fn passes_descend_and_only_the_last_writes_the_output() {
    // Cascade ordering: exactly cascade_count passes, indices strictly
    // descending from count-1 to 0, each exactly once; the index-0 pass is
    // the only one on screen, the others alternate ping-pong slots.
    let scene = Image::new(32, 32, transparent());
    let mut rc = RadianceCascades::new(32, 32);
    rc.set_cascade_count(3);
    let mut jfa = JumpFlood::new(32, 32);
    let df = jfa.run(&scene);
    let mut out = Image::new(32, 32, transparent());
    let records = rc.run(&scene, &df, &mut out);
    assert_eq!(records.len(), 3);
    let indices: Vec<u32> = records.iter().map(|r| r.cascade_index).collect();
    assert_eq!(indices, vec![2, 1, 0]);
    let screens: Vec<bool> = records.iter().map(|r| r.to_screen).collect();
    assert_eq!(screens, vec![false, false, true]);
    let slots: Vec<usize> = records.iter().map(|r| r.slot).collect();
    assert_eq!(slots, vec![0, 1, 0]);
}

#[test]
fn kernel_averages_hit_colors_over_the_rays() {
    // 8x8, one white seed at (4, 4), a single cascade of four axis rays
    // with band [0, 3). From (3, 4) only the +X ray reaches the seed
    // (distance 1), the other three march out of their band; the previous
    // cascade is transparent, so the pixel averages one white hit over
    // four rays: 255 / 4 = 63.
    let mut scene = Image::new(8, 8, transparent());
    scene.set(4, 4, white());
    let mut jfa = JumpFlood::new(8, 8);
    let df = jfa.run(&scene);
    let params = CascadeParams {
        angle_offset: 128,
        cascade_count: 1,
        cascade_index: 0,
        base_ray_count: 4,
    };
    let prev = Image::new(8, 8, transparent());
    let out = cascade_pass(&scene, &df, &prev, params);
    assert_eq!(out.get(3, 4), Rgba { r: 63, g: 63, b: 63, a: 255 });
    // The seed pixel itself hits at march parameter 0 on every ray.
    assert_eq!(out.get(4, 4), Rgba { r: 255, g: 255, b: 255, a: 255 });
}

#[test]
fn misses_fall_back_to_the_weighted_previous_cascade() {
    // No seeds at all: every ray misses, so each pixel is the previous
    // cascade's color scaled by angle_offset/256. With a previous value of
    // 200 and a weight of 128 that is 100.
    let scene = Image::new(4, 4, transparent());
    let mut jfa = JumpFlood::new(4, 4);
    let df = jfa.run(&scene);
    let params = CascadeParams {
        angle_offset: 128,
        cascade_count: 1,
        cascade_index: 0,
        base_ray_count: 4,
    };
    let prev = Image::new(4, 4, Rgba { r: 200, g: 100, b: 0, a: 255 });
    let out = cascade_pass(&scene, &df, &prev, params);
    assert_eq!(out.get(1, 1), Rgba { r: 100, g: 50, b: 0, a: 255 });
}

#[test]
fn tunables_are_clamped() {
    let mut rc = RadianceCascades::new(8, 8);
    rc.set_angle_offset(9999);
    assert_eq!(rc.params.angle_offset, 256);
    rc.set_angle_offset(64);
    assert_eq!(rc.params.angle_offset, 64);
    rc.set_base_ray_count(0);
    assert_eq!(rc.params.base_ray_count, 1);
    rc.set_base_ray_count(1_000_000);
    assert_eq!(rc.params.base_ray_count, 65536);
    rc.set_cascade_count(0);
    assert_eq!(rc.params.cascade_count, 1);
    rc.set_cascade_count(1000);
    assert_eq!(rc.params.cascade_count, 32);
}

#[test]
fn resize_keeps_tuning_and_rederives_count() {
    let mut rc = RadianceCascades::new(8, 8);
    rc.set_angle_offset(77);
    rc.set_base_ray_count(2);
    rc.resize(800, 600);
    assert_eq!(rc.params.angle_offset, 77);
    assert_eq!(rc.params.base_ray_count, 2);
    // diagonal 1000, base 2: ceil(log_2(1000)) = 10, plus 1
    assert_eq!(rc.params.cascade_count, 11);
    assert_eq!(rc.width, 800);
    assert_eq!(rc.height, 600);
}
