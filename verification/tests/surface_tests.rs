//! Pixel buffers and the ping-pong designation.

use radiance_cascades::image::{Image, Rgba};
use radiance_cascades::pingpong::PingPong;

#[test]
fn image_set_and_get() {
    let mut img = Image::new(3, 2, Rgba { r: 1, g: 2, b: 3, a: 4 });
    assert_eq!(img.get(2, 1), Rgba { r: 1, g: 2, b: 3, a: 4 });
    img.set(2, 1, Rgba { r: 9, g: 9, b: 9, a: 255 });
    assert_eq!(img.get(2, 1), Rgba { r: 9, g: 9, b: 9, a: 255 });
    assert_eq!(img.get(1, 1), Rgba { r: 1, g: 2, b: 3, a: 4 });
}

#[test]
fn ping_pong_swaps_designation_not_contents() {
    let mut pp = PingPong::new(1u32, 2u32);
    // Slot a is the first output, so slot b is the first input.
    assert_eq!(*pp.input(), 2);
    pp.swap();
    assert_eq!(*pp.input(), 1);
    pp.set_output(7);
    // Writing the output never touches the input...
    assert_eq!(*pp.input(), 1);
    pp.swap();
    // ...and becomes visible as input after the swap.
    assert_eq!(*pp.input(), 7);
    pp.reset();
    assert_eq!(pp.out_idx, 0);
}
