use dashcompositor::framebuffer::{channel_sums, flatten_rgba, try_channel_sums};
use dashcompositor::FrameBuffer;

#[test]
fn empty_framebuffer_is_zero_sized_pixels() {
    let fb = FrameBuffer::new(2, 3);
    assert_eq!(fb.width(), 2);
    assert_eq!(fb.height(), 3);
    assert_eq!(fb.pixels().len(), 6);
}

#[test]
fn new_framebuffer_is_transparent_black() {
    let fb = FrameBuffer::new(3, 2);
    assert!(fb.pixels().iter().all(|px| *px == [0, 0, 0, 0]));
}

#[test]
fn zero_sized_framebuffer_has_no_pixels() {
    assert_eq!(FrameBuffer::new(0, 4).pixels().len(), 0);
    assert_eq!(FrameBuffer::new(4, 0).pixels().len(), 0);
}

#[test]
fn clear_resets_every_pixel() {
    let mut fb = FrameBuffer::new(2, 2);
    for px in fb.pixels_mut() {
        *px = [9, 8, 7, 6];
    }
    fb.clear();
    assert_eq!(fb.width(), 2);
    assert_eq!(fb.height(), 2);
    assert_eq!(fb.pixels(), &[[0, 0, 0, 0]; 4][..]);
}

#[test]
fn flatten_lays_out_rgba_bytes() {
    let pixels = [[1, 2, 3, 4], [5, 6, 7, 8]];
    assert_eq!(flatten_rgba(&pixels), vec![1, 2, 3, 4, 5, 6, 7, 8]);
    assert_eq!(flatten_rgba(&[]), Vec::<u8>::new());
}

#[test]
fn channel_sums_add_each_channel() {
    let pixels = [[255, 0, 0, 255], [0, 255, 0, 128], [1, 2, 3, 4]];
    assert_eq!(channel_sums(&pixels), (256, 257, 3, 387));
    assert_eq!(channel_sums(&[]), (0, 0, 0, 0));
}

#[test]
fn try_channel_sums_matches_channel_sums() {
    let pixels = [[255, 0, 0, 255], [0, 255, 0, 128], [1, 2, 3, 4]];
    assert_eq!(try_channel_sums(&pixels), Some(channel_sums(&pixels)));
    assert_eq!(try_channel_sums(&[]), Some((0, 0, 0, 0)));
}

#[test]
fn channel_sums_ignore_pixel_order() {
    let p = [[1, 2, 3, 4], [10, 20, 30, 40], [7, 7, 7, 7]];
    let q = [[7, 7, 7, 7], [1, 2, 3, 4], [10, 20, 30, 40]];
    assert_eq!(channel_sums(&p), channel_sums(&q));
}

#[test]
fn try_channel_sums_refuses_overflow() {
    // 16_843_010 * 255 exceeds u32::MAX.
    let pixels = vec![[255u8, 0, 0, 0]; 16_843_010];
    assert_eq!(try_channel_sums(&pixels), None);
    let fits = vec![[255u8, 0, 0, 0]; 16_843_009];
    assert_eq!(try_channel_sums(&fits), Some((u32::MAX, 0, 0, 0)));
}
