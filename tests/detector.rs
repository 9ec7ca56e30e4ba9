use paddle_ocr::{Bitmap, Contour, Det, Rect};

fn solid(width: u32, height: u32, rgba: [u8; 4]) -> Bitmap {
    let mut data = Vec::new();
    for _ in 0..(width * height) {
        data.extend_from_slice(&rgba);
    }
    Bitmap { width, height, data }
}

fn square_map(w: u32, h: u32, x0: u32, y0: u32, x1: u32, y1: u32, value: u8) -> Vec<u8> {
    let mut luma = vec![0u8; (w * h) as usize];
    for y in y0..=y1 {
        for x in x0..=x1 {
            luma[(y * w + x) as usize] = value;
        }
    }
    luma
}

#[test]
fn pad_keeps_multiples_of_32() {
    assert_eq!(Det::get_pad_length(0), 0);
    assert_eq!(Det::get_pad_length(32), 32);
    assert_eq!(Det::get_pad_length(64), 64);
}

#[test]
fn pad_80_is_96() {
    assert_eq!(Det::get_pad_length(80), 96);
}

#[test]
fn pad_rounds_up_by_less_than_32() {
    for n in 1u32..300 {
        let p = Det::get_pad_length(n);
        assert_eq!(p % 32, 0);
        if n % 32 == 0 {
            assert_eq!(p, n as u64);
        } else {
            assert!(p > n as u64 && p - (n as u64) < 32);
        }
    }
    assert_eq!(Det::get_pad_length(u32::MAX), u32::MAX as u64 + 1);
}

#[test]
fn white_64_preprocesses_to_full_channels() {
    let img = solid(64, 64, [255, 255, 255, 255]);
    let t = Det::preprocess(&img);
    assert_eq!(t.len(), 3 * 64 * 64);
    assert!(t.iter().all(|v| *v == Some(255)));
}

#[test]
fn padding_band_is_empty() {
    let img = solid(30, 20, [1, 2, 3, 255]);
    let t = Det::preprocess(&img);
    assert_eq!(t.len(), 3 * 32 * 32);
    for c in 0..3usize {
        for y in 0..32usize {
            for x in 0..32usize {
                let v = t[(c * 32 + y) * 32 + x];
                if x < 30 && y < 20 {
                    assert_eq!(v, Some(c as u8 + 1));
                } else {
                    assert_eq!(v, None);
                }
            }
        }
    }
}

#[test]
fn zero_image_of_padded_size_has_no_padding() {
    let img = solid(32, 64, [0, 0, 0, 0]);
    let t = Det::preprocess(&img);
    assert_eq!(t.len(), 3 * 64 * 32);
    assert!(t.iter().all(|v| *v == Some(0)));
}

#[test]
fn preprocess_is_planar_rgb() {
    let img = Bitmap { width: 2, height: 1, data: vec![10, 20, 30, 99, 40, 50, 60, 99] };
    let t = Det::preprocess(&img);
    assert_eq!(t.len(), 3 * 32 * 32);
    assert_eq!(t[0], Some(10));
    assert_eq!(t[1], Some(40));
    assert_eq!(t[32 * 32], Some(20));
    assert_eq!(t[32 * 32 + 1], Some(50));
    assert_eq!(t[2 * 32 * 32 + 1], Some(60));
    assert_eq!(t[32], None);
}

#[test]
fn luma_map_reads_columns_over_padded_height() {
    let output: Vec<u8> = (0..64u32).map(|v| v as u8).collect();
    let map = Det::luma_map(&output, 2, 3);
    assert_eq!(map, vec![0, 32, 1, 33, 2, 34]);
}

#[test]
fn bounding_rect_of_points() {
    let pts = vec![(10, 20), (30, 25), (12, 40), (16, 22)];
    assert_eq!(Det::bounding_rect(&pts), Some(Rect { left: 10, top: 20, width: 20, height: 20 }));
}

#[test]
fn bounding_rect_drops_small_boxes() {
    assert_eq!(Det::bounding_rect(&vec![]), None);
    assert_eq!(Det::bounding_rect(&vec![(0, 0), (5, 10)]), None);
    assert_eq!(Det::bounding_rect(&vec![(0, 0), (10, 5)]), None);
    assert_eq!(
        Det::bounding_rect(&vec![(0, 0), (6, 6)]),
        Some(Rect { left: 0, top: 0, width: 6, height: 6 })
    );
}

#[test]
fn only_outer_contours_give_rects() {
    let det = Det::new();
    let outer = Contour { points: vec![(20, 20), (40, 20), (40, 40), (20, 40)], parent: None };
    let hole = Contour { points: vec![(25, 25), (35, 25), (35, 35), (25, 35)], parent: Some(0) };
    let rects = det.boxes_from_contours(&vec![outer, hole], 100, 100);
    assert_eq!(rects, vec![Rect { left: 12, top: 12, width: 36, height: 36 }]);
}

#[test]
fn rects_are_clipped_to_the_image() {
    let det = Det::new();
    let c = Contour { points: vec![(2, 3), (97, 60)], parent: None };
    let rects = det.boxes_from_contours(&vec![c], 100, 100);
    assert_eq!(rects, vec![Rect { left: 0, top: 0, width: 100, height: 73 }]);
    let r = rects[0];
    assert!(r.left() + r.width() <= 100 && r.top() + r.height() <= 100);
}

#[test]
fn border_size_is_configurable() {
    let det = Det::new().with_rect_border_size(0);
    let c = Contour { points: vec![(20, 20), (40, 30)], parent: None };
    let rects = det.boxes_from_contours(&vec![c], 100, 100);
    assert_eq!(rects, vec![Rect { left: 20, top: 20, width: 20, height: 10 }]);
}

#[test]
fn find_box_on_filled_square() {
    let det = Det::new();
    let luma = square_map(40, 40, 10, 10, 29, 29, 255);
    let rects = det.find_box(&luma, 40, 40);
    assert_eq!(rects, vec![Rect { left: 2, top: 2, width: 35, height: 35 }]);
}

#[test]
fn find_box_threshold_is_inclusive() {
    let det = Det::new();
    let at = square_map(40, 40, 10, 10, 29, 29, 200);
    assert_eq!(det.find_box(&at, 40, 40).len(), 1);
    let below = square_map(40, 40, 10, 10, 29, 29, 199);
    assert_eq!(det.find_box(&below, 40, 40).len(), 0);
}

#[test]
fn find_box_ignores_holes() {
    let det = Det::new();
    let mut luma = square_map(60, 60, 10, 10, 49, 49, 255);
    for y in 20..40u32 {
        for x in 20..40u32 {
            luma[(y * 60 + x) as usize] = 0;
        }
    }
    let rects = det.find_box(&luma, 60, 60);
    assert_eq!(rects, vec![Rect { left: 2, top: 2, width: 55, height: 55 }]);
}

#[test]
fn find_box_drops_thin_regions() {
    let det = Det::new();
    let luma = square_map(40, 40, 10, 10, 30, 14, 255);
    assert!(det.find_box(&luma, 40, 40).is_empty());
}

#[test]
fn rects_from_output_transposes() {
    let det = Det::new();
    // 40 by 40 image, output stored column by column over the padded height 64.
    let mut output = vec![0u8; 40 * 64];
    for x in 10..30usize {
        for y in 5..25usize {
            output[x * 64 + y] = 255;
        }
    }
    let rects = det.rects_from_output(&output, 40, 40);
    assert_eq!(rects, vec![Rect { left: 2, top: 0, width: 35, height: 35 }]);
}

#[test]
fn crop_takes_the_sub_image() {
    let mut data = Vec::new();
    for y in 0..4u8 {
        for x in 0..5u8 {
            data.extend_from_slice(&[x, y, x + y, 255]);
        }
    }
    let img = Bitmap { width: 5, height: 4, data };
    let c = img.crop(1, 2, 3, 2);
    assert_eq!((c.width, c.height), (3, 2));
    assert_eq!(
        c.data,
        vec![1, 2, 3, 255, 2, 2, 4, 255, 3, 2, 5, 255, 1, 3, 4, 255, 2, 3, 5, 255, 3, 3, 6, 255]
    );
}

#[test]
fn crops_follow_the_detected_rects() {
    let det = Det::new().with_rect_border_size(1);
    let img = solid(40, 40, [7, 8, 9, 255]);
    let mut output = vec![0u8; 40 * 64];
    for x in 10..30usize {
        for y in 5..25usize {
            output[x * 64 + y] = 255;
        }
    }
    let crops = det.crops_from_output(&img, &output);
    assert_eq!(crops.len(), 1);
    assert_eq!((crops[0].width, crops[0].height), (21, 21));
    assert_eq!(crops[0].data.len(), 21 * 21 * 4);
    assert_eq!(&crops[0].data[..4], &[7, 8, 9, 255]);
    let many = Det::crop_regions(&img, &vec![Rect { left: 0, top: 0, width: 40, height: 40 }, Rect { left: 39, top: 39, width: 1, height: 1 }]);
    assert_eq!(many.len(), 2);
    assert_eq!(many[0].data, img.data);
    assert_eq!(many[1].data, vec![7, 8, 9, 255]);
}
