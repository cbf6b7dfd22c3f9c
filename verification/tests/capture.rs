//! The framebuffer.

use xwlrvnc::bridge::capture::{Framebuffer, XRGB};
use xwlrvnc::util::transform::Transform;

/// A `w`x`h` XRGB source where pixel (x, y) has blue = x, green = y.
fn source(w: u32, h: u32) -> Vec<u8> {
    let mut v = vec![0u8; (w * h * 4) as usize];
    for y in 0..h {
        for x in 0..w {
            let i = ((y * w + x) * 4) as usize;
            v[i] = x as u8;
            v[i + 1] = y as u8;
            v[i + 2] = 0x80;
            v[i + 3] = 0xff;
        }
    }
    v
}

fn pixel(fb: &mut Framebuffer, x: i32, y: i32) -> (u8, u8) {
    let out = fb.read_rect(x, y, 1, 1, 1);
    (out[0], out[1])
}

#[test]
fn rotate90_lands_in_the_transformed_rect() {
    let mut fb = Framebuffer::default();
    fb.ensure(10, 10);
    let src = source(4, 2);
    let bbox = fb.blit_diff(3, 5, 4, 2, 16, &src, false, Transform::Rotate90, true, XRGB);
    // a 4x2 buffer occupies a 2x4 rect at (3, 5)
    let b = bbox.unwrap();
    assert_eq!((b.x, b.y, b.width, b.height), (3, 5, 2, 4));
    // clockwise: buffer top-left (0,0) -> screen (1,0) within that rect
    assert_eq!(pixel(&mut fb, 4, 5), (0, 0));
    // buffer bottom-left (0,1) -> screen (0,0)
    assert_eq!(pixel(&mut fb, 3, 5), (0, 1));
    // buffer top-right (3,0) -> screen (1,3)
    assert_eq!(pixel(&mut fb, 4, 8), (3, 0));
    // nothing outside the rect was touched
    assert_eq!(pixel(&mut fb, 2, 5), (0, 0));
    assert_eq!(pixel(&mut fb, 5, 5), (0, 0));
}

#[test]
fn transformed_blit_reports_only_the_changed_bbox() {
    let mut fb = Framebuffer::default();
    fb.ensure(4, 4);
    let mut src = source(4, 2);
    fb.blit_diff(0, 0, 4, 2, 16, &src, false, Transform::Rotate270, true, XRGB);
    let unchanged = fb.blit_diff(0, 0, 4, 2, 16, &src, false, Transform::Rotate270, true, XRGB);
    assert!(unchanged.is_none());
    // change buffer pixel (3, 0): under 270 (counter-clockwise) it is screen (0, 0)
    src[3 * 4 + 2] = 0x00;
    let bbox = fb.blit_diff(0, 0, 4, 2, 16, &src, false, Transform::Rotate270, true, XRGB);
    let b = bbox.unwrap();
    assert_eq!((b.x, b.y, b.width, b.height), (0, 0, 1, 1));
}

#[test]
fn y_invert_is_applied_before_the_transform() {
    let mut fb = Framebuffer::default();
    fb.ensure(4, 4);
    let src = source(4, 2);
    fb.blit_diff(0, 0, 4, 2, 16, &src, true, Transform::Rotate180, false, XRGB);
    // y_invert makes the last source row the first, then 180 flips it back
    // to the bottom and mirrors x: buffer (0, 1) -> (3, 1)
    assert_eq!(pixel(&mut fb, 3, 1), (0, 1));
    assert_eq!(pixel(&mut fb, 3, 0), (0, 0));
}

#[test]
fn normal_blit_is_unaffected() {
    let mut fb = Framebuffer::default();
    fb.ensure(6, 6);
    let src = source(4, 2);
    let bbox = fb.blit_diff(1, 1, 4, 2, 16, &src, false, Transform::Normal, true, XRGB);
    let b = bbox.unwrap();
    assert_eq!((b.x, b.y, b.width, b.height), (1, 1, 4, 2));
    assert_eq!(pixel(&mut fb, 1, 1), (0, 0));
    assert_eq!(pixel(&mut fb, 4, 2), (3, 1));
}

#[test]
fn a_read_gives_back_what_was_blitted() {
    let mut fb = Framebuffer::default();
    fb.ensure(6, 4);
    let src = source(4, 2);
    assert!(fb.blit_diff(2, 1, 4, 2, 16, &src, false, Transform::Normal, false, XRGB).is_none());
    assert_eq!(fb.read_rect(2, 1, 4, 2, 7), src);
    assert_eq!(fb.last_read_ms(), 7);
    // what lies outside of the screen is black
    assert_eq!(fb.read_rect(5, 3, 2, 1, 8), vec![0; 8]);
}

#[test]
fn a_permuted_format_is_converted() {
    let mut fb = Framebuffer::default();
    fb.ensure(1, 1);
    // memory R,G,B,x
    fb.blit_diff(0, 0, 1, 1, 4, &[1, 2, 3, 4], false, Transform::Normal, false, [2, 1, 0]);
    assert_eq!(fb.read_rect(0, 0, 1, 1, 1), [3, 2, 1, 0xff]);
}

#[test]
fn a_read_opens_the_gate_for_a_while() {
    let mut fb = Framebuffer::default();
    fb.ensure(2, 2);
    assert!(!fb.read_within(1000, 5000));
    fb.read_rect(0, 0, 1, 1, 5000);
    assert!(fb.read_within(1000, 5999));
    assert!(!fb.read_within(1000, 6000));
    // a read as the clock starts counts too
    let mut fb = Framebuffer::default();
    assert_eq!((fb.read_at(), fb.last_read_ms()), (None, 0));
    fb.read_rect(0, 0, 1, 1, 0);
    assert_eq!(fb.read_at(), Some(0));
    assert!(fb.read_within(1000, 0));
}

#[test]
fn every_byte_is_written() {
    let mut fb = Framebuffer::default();
    fb.ensure(1, 1);
    let mut dst = [9u8; 6];
    assert_eq!(fb.read_rect_into(0, 0, 1, 1, &mut dst, 1), 4);
    assert_eq!(dst, [0; 6]);
    fb.blit_diff(0, 0, 1, 1, 4, &[1, 2, 3, 4], false, Transform::Normal, false, XRGB);
    let mut dst = [9u8; 11];
    // two rows fit, of which one is on the screen
    assert_eq!(fb.read_rect_into(0, 0, 1, 3, &mut dst, 1), 8);
    assert_eq!(dst[..3], [1, 2, 3]);
    assert_eq!(dst[4..], [0; 7]);
    let mut dst = [9u8; 3];
    assert_eq!(fb.read_rect_into(0, 0, 0, 3, &mut dst, 1), 0);
    assert_eq!(dst, [0; 3]);
}

#[test]
fn a_new_size_clears_the_screen() {
    let mut fb = Framebuffer::default();
    fb.ensure(4, 2);
    fb.blit_diff(0, 0, 4, 2, 16, &source(4, 2), false, Transform::Normal, false, XRGB);
    fb.ensure(4, 2);
    assert_eq!(pixel(&mut fb, 3, 1), (3, 1));
    fb.ensure(4, 3);
    assert_eq!(pixel(&mut fb, 3, 1), (0, 0));
}
