use ledist_pi::{FrameError, RgbFrame};

#[test]
fn black_frame_has_its_size() {
    let f = RgbFrame::black(3, 2);
    assert_eq!(f.width(), 3);
    assert_eq!(f.height(), 2);
    assert_eq!(f.pixel(2, 1), [0, 0, 0]);
}

#[test]
fn blit_copies_the_block() {
    let mut f = RgbFrame::black(4, 3);
    let pixels: Vec<u8> = (0..12).collect();
    f.blit_rgb(1, 1, 2, 2, &pixels).unwrap();
    assert_eq!(f.pixel(1, 1), [0, 1, 2]);
    assert_eq!(f.pixel(2, 1), [3, 4, 5]);
    assert_eq!(f.pixel(1, 2), [6, 7, 8]);
    assert_eq!(f.pixel(2, 2), [9, 10, 11]);
    assert_eq!(f.pixel(0, 0), [0, 0, 0]);
    assert_eq!(f.pixel(3, 2), [0, 0, 0]);
}

#[test]
fn blit_rejects_bad_blocks() {
    let mut f = RgbFrame::black(4, 3);
    assert_eq!(f.blit_rgb(0, 0, 2, 2, &[0; 11]), Err(FrameError::PixelCount));
    assert_eq!(f.blit_rgb(3, 0, 2, 1, &[0; 6]), Err(FrameError::OutOfBounds));
    assert_eq!(f.blit_rgb(-1, 0, 1, 1, &[0; 3]), Err(FrameError::OutOfBounds));
    assert_eq!(f, RgbFrame::black(4, 3));
    assert_eq!(FrameError::OutOfBounds.message(), "画像がフレームの外にはみ出しています");
}
