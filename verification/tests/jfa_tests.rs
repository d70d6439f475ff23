//! The jump-flood distance field on synthetic scenes.

use radiance_cascades::image::{Image, Rgba};
use radiance_cascades::jfa::{JumpFlood, seed_pass, dist_sq_to, Coord};

fn transparent() -> Rgba {
    Rgba { r: 0, g: 0, b: 0, a: 0 }
}

fn white() -> Rgba {
    Rgba { r: 255, g: 255, b: 255, a: 255 }
}

fn scene_with_seeds(w: usize, h: usize, seeds: &[(usize, usize)]) -> Image {
    let mut img = Image::new(w, h, transparent());
    for &(x, y) in seeds {
        img.set(x, y, white());
    }
    img
}

fn d2(ax: usize, ay: usize, bx: usize, by: usize) -> u64 {
    let dx = ax as i64 - bx as i64;
    let dy = ay as i64 - by as i64;
    (dx * dx + dy * dy) as u64
}

#[test]
fn dist_sq_to_is_squared_euclidean() {
    assert_eq!(dist_sq_to(0, 0, Coord { x: 3, y: 4 }), 25);
    assert_eq!(dist_sq_to(7, 7, Coord { x: 7, y: 7 }), 0);
    assert_eq!(dist_sq_to(10, 2, Coord { x: 2, y: 10 }), 128);
}

#[test]
fn seed_pass_tags_seed_pixels_with_their_own_coordinate() {
    let scene = scene_with_seeds(4, 3, &[(1, 2), (3, 0)]);
    let buf = seed_pass(&scene);
    for y in 0..3 {
        for x in 0..4 {
            let cell = buf.get(x, y);
            if (x, y) == (1, 2) || (x, y) == (3, 0) {
                assert_eq!(cell, Some(Coord { x, y }));
            } else {
                assert_eq!(cell, None);
            }
        }
    }
}

#[test]
fn single_seed_distances_are_exact() {
    // One seed at (3, 5): every resolved squared distance is exactly the
    // squared Euclidean distance to it, and the square root is within
    // 1e-3 of the true distance.
    let scene = scene_with_seeds(16, 16, &[(3, 5)]);
    let mut jfa = JumpFlood::new(16, 16);
    assert_eq!(jfa.pass_count, 4);
    let df = jfa.run(&scene);
    for y in 0..16 {
        for x in 0..16 {
            let got = df.get(x, y).expect("every pixel is reached");
            let want = d2(x, y, 3, 5);
            assert_eq!(got, want);
            let exact = ((x as f64 - 3.0).powi(2) + (y as f64 - 5.0).powi(2)).sqrt();
            assert!(((got as f64).sqrt() - exact).abs() < 1e-3);
        }
    }
}

#[test]
fn no_seed_leaves_the_field_empty() {
    let scene = Image::new(8, 8, transparent());
    let mut jfa = JumpFlood::new(8, 8);
    let df = jfa.run(&scene);
    for y in 0..8 {
        for x in 0..8 {
            assert_eq!(df.get(x, y), None);
        }
    }
}

#[test]
fn one_pixel_viewport_needs_no_propagation() {
    let scene = scene_with_seeds(1, 1, &[(0, 0)]);
    let mut jfa = JumpFlood::new(1, 1);
    assert_eq!(jfa.pass_count, 0);
    let df = jfa.run(&scene);
    assert_eq!(df.get(0, 0), Some(0));
}

#[test]
fn multi_seed_field_matches_brute_force() {
    // Scattered seeds from a fixed linear-congruential sequence; the
    // converged field must equal the brute-force nearest-seed distances.
    let w = 16;
    let h = 16;
    let mut seeds: Vec<(usize, usize)> = Vec::new();
    let mut state: u64 = 12345;
    for _ in 0..8 {
        state = state.wrapping_mul(6364136223846793005).wrapping_add(1442695040888963407);
        let x = ((state >> 33) as usize) % w;
        state = state.wrapping_mul(6364136223846793005).wrapping_add(1442695040888963407);
        let y = ((state >> 33) as usize) % h;
        seeds.push((x, y));
    }
    let scene = scene_with_seeds(w, h, &seeds);
    let mut jfa = JumpFlood::new(w, h);
    let df = jfa.run(&scene);
    for y in 0..h {
        for x in 0..w {
            let got = df.get(x, y).expect("every pixel is reached");
            let want = seeds.iter().map(|&(sx, sy)| d2(x, y, sx, sy)).min().unwrap();
            assert_eq!(got, want, "pixel ({}, {})", x, y);
        }
    }
}

#[test]
fn distance_is_zero_exactly_at_seeds() {
    let seeds = [(0, 0), (7, 3), (2, 9)];
    let scene = scene_with_seeds(12, 10, &seeds);
    let mut jfa = JumpFlood::new(12, 10);
    let df = jfa.run(&scene);
    for y in 0..10 {
        for x in 0..12 {
            let zero = df.get(x, y) == Some(0);
            assert_eq!(zero, seeds.contains(&(x, y)), "pixel ({}, {})", x, y);
        }
    }
}

#[test]
fn resize_rederives_the_pass_count() {
    let mut jfa = JumpFlood::new(16, 16);
    assert_eq!(jfa.pass_count, 4);
    jfa.resize(100, 50);
    assert_eq!(jfa.pass_count, 7);
    assert_eq!(jfa.width, 100);
    assert_eq!(jfa.height, 50);
}

#[test]
fn pass_count_override_is_clamped() {
    let mut jfa = JumpFlood::new(16, 16);
    jfa.set_pass_count(9);
    assert_eq!(jfa.pass_count, 9);
    jfa.set_pass_count(1000);
    assert_eq!(jfa.pass_count, 30);
}
