use res_bot::error::AppError;
use res_bot::image::{Frame, Point, Rect};

#[test]
fn crop_preserves_pixels_and_moves_origin() {
    let pixels = vec![1, 2, 3, 4, 5, 6, 7, 8, 9, 10, 11, 12, 13, 14, 15, 16];
    let frame = Frame::new(Point { x: 10, y: 20 }, 2, 2, pixels).unwrap();

    let crop = frame.crop(Rect { x: 1, y: 0, width: 1, height: 2 }).unwrap();

    assert_eq!(crop.origin, Point { x: 11, y: 20 });
    assert_eq!(crop.bgra, vec![5, 6, 7, 8, 13, 14, 15, 16]);
}

#[test]
fn frames_need_four_bytes_per_pixel() {
    assert_eq!(
        Frame::new(Point { x: 0, y: 0 }, 2, 2, vec![0; 15]),
        Err(AppError::InvalidImage { width: 2, height: 2, bytes: 15 })
    );
    assert_eq!(
        Frame::new(Point { x: 0, y: 0 }, 0, 2, Vec::new()),
        Err(AppError::InvalidImage { width: 0, height: 2, bytes: 0 })
    );
}

#[test]
fn crop_outside_the_frame_is_refused() {
    let frame = Frame::new(Point { x: 0, y: 0 }, 2, 2, vec![0; 16]).unwrap();
    assert_eq!(
        frame.crop(Rect { x: 1, y: 1, width: 2, height: 1 }),
        Err(AppError::InvalidCrop { x: 1, y: 1, width: 2, height: 1 })
    );
}

#[test]
fn pixel_reads_four_bytes() {
    let pixels = (0..16).collect::<Vec<u8>>();
    let frame = Frame::new(Point { x: 0, y: 0 }, 2, 2, pixels).unwrap();
    assert_eq!(frame.pixel(1, 1), [12, 13, 14, 15]);
    assert_eq!(frame.pixel(0, 1), [8, 9, 10, 11]);
}

#[test]
fn nearest_scaling_repeats_each_pixel() {
    let frame = Frame::new(Point { x: 3, y: 4 }, 2, 1, vec![1, 2, 3, 4, 5, 6, 7, 8]).unwrap();
    let scaled = frame.scale_nearest(2).unwrap();
    assert_eq!((scaled.width, scaled.height), (4, 2));
    assert_eq!(scaled.origin, Point { x: 3, y: 4 });
    assert_eq!(
        scaled.bgra,
        vec![1, 2, 3, 4, 1, 2, 3, 4, 5, 6, 7, 8, 5, 6, 7, 8, 1, 2, 3, 4, 1, 2, 3, 4, 5, 6, 7, 8, 5, 6, 7, 8]
    );
}

#[test]
fn rectangle_edges_and_centre() {
    let rect = Rect { x: 10, y: 20, width: 31, height: 9 };
    assert_eq!(rect.right(), 41);
    assert_eq!(rect.bottom(), 29);
    assert_eq!(rect.center(), Point { x: 25, y: 24 });
    assert!(rect.contains(Point { x: 10, y: 20 }));
    assert!(!rect.contains(Point { x: 41, y: 20 }));
    assert!(!rect.contains(Point { x: 10, y: 29 }));
}

#[test]
fn bright_grey_pixels_become_black_text() {
    let frame = Frame::new(
        Point { x: 0, y: 0 },
        3,
        1,
        vec![200, 200, 200, 7, 20, 20, 20, 7, 0, 0, 255, 7],
    )
    .unwrap();
    let contrasted = frame.high_contrast_text().unwrap();
    assert_eq!(contrasted.bgra, vec![0, 0, 0, 255, 255, 255, 255, 255, 255, 255, 255, 255]);
}

fn numbered_frame() -> Frame {
    let pixels: Vec<u8> = (0..48).collect();
    Frame::new(Point { x: 10, y: 20 }, 4, 3, pixels).unwrap()
}

#[test]
fn cropping_a_crop_is_one_crop_at_the_summed_offsets() {
    let frame = numbered_frame();
    let outer = frame.crop(Rect { x: 1, y: 1, width: 3, height: 2 }).unwrap();
    let inner = outer.crop(Rect { x: 1, y: 0, width: 2, height: 2 }).unwrap();
    let direct = frame.crop(Rect { x: 2, y: 1, width: 2, height: 2 }).unwrap();
    assert_eq!(inner, direct);
    assert_eq!(direct.origin, Point { x: 12, y: 21 });
    assert_eq!(direct.bgra, vec![24, 25, 26, 27, 28, 29, 30, 31, 40, 41, 42, 43, 44, 45, 46, 47]);
}

#[test]
fn cropping_the_whole_frame_gives_the_frame_back() {
    let frame = numbered_frame();
    let whole = frame.crop(Rect { x: 0, y: 0, width: 4, height: 3 }).unwrap();
    assert_eq!(whole, frame);
}

#[test]
fn centre_reads_the_extent_as_a_signed_number() {
    assert_eq!(Rect { x: -10, y: -10, width: 5, height: 3 }.center(), Point { x: -8, y: -9 });
    assert_eq!(Rect { x: 10, y: 0, width: 4_294_967_292, height: 2 }.center(), Point { x: 8, y: 1 });
    assert_eq!(Rect { x: i32::MAX - 1, y: 0, width: 2, height: 0 }.center(), Point { x: i32::MAX, y: 0 });
}
