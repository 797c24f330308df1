//! Selection of learned-detector boxes: confidence filter, suppression
//! and source mapping.

use qr_core::mldetect::{filter_by_score, nms, select_detections, sort_by_score_desc, BBox};

fn mk(x1: i64, y1: i64, x2: i64, y2: i64, score: u32) -> BBox {
    BBox { x1, y1, x2, y2, score, class: 0 }
}

#[test]
fn filter_keeps_confident_anchors() {
    let anchors = vec![mk(0, 0, 10, 10, 700), mk(0, 0, 10, 10, 300), mk(5, 5, 9, 9, 501)];
    let kept = filter_by_score(&anchors, 500);
    assert_eq!(kept.len(), 2);
    assert_eq!(kept[0].score, 700);
    assert_eq!(kept[1].score, 501);
}

#[test]
fn sorting_is_descending() {
    let boxes = vec![mk(0, 0, 1, 1, 10), mk(0, 0, 1, 1, 900), mk(0, 0, 1, 1, 500)];
    let sorted = sort_by_score_desc(boxes);
    assert_eq!(sorted.len(), 3);
    assert!(sorted[0].score >= sorted[1].score && sorted[1].score >= sorted[2].score);
    assert_eq!(sorted[0].score, 900);
}

#[test]
fn overlapping_boxes_are_suppressed() {
    // Two nearly identical boxes: only the higher-scored survives. A
    // disjoint third stays.
    let sorted = vec![
        mk(0, 0, 100000, 100000, 900),
        mk(1000, 1000, 100000, 100000, 800),
        mk(500000, 500000, 600000, 600000, 700),
    ];
    let kept = nms(&sorted, 450);
    assert_eq!(kept.len(), 2);
    assert_eq!(kept[0].score, 900);
    assert_eq!(kept[1].score, 700);
}

#[test]
fn disjoint_boxes_all_survive() {
    let sorted = vec![
        mk(0, 0, 1000, 1000, 900),
        mk(5000, 5000, 6000, 6000, 800),
        mk(9000, 9000, 9500, 9500, 700),
    ];
    let kept = nms(&sorted, 450);
    assert_eq!(kept.len(), 3);
}

#[test]
fn selection_maps_to_source_bounds() {
    // One confident box covering the model's top-left quarter, on a
    // 640-model and a 320x240 source: the mapped box spans the source's
    // top-left quarter.
    let anchors = vec![mk(0, 0, 640000, 640000, 900), mk(0, 0, 640000, 640000, 100)];
    let boxes = select_detections(&anchors, 500, 450, 320, 240, 640);
    assert_eq!(boxes.len(), 1);
    let (b, score) = boxes[0];
    // 640000 half-thousandths = half the model side.
    assert_eq!(b, [0, 0, 160, 120]);
    assert_eq!(score, 900);
}

#[test]
fn out_of_frame_boxes_are_dropped() {
    // A box past the right edge of the model cannot be mapped back.
    let anchors = vec![mk(1270000, 0, 1300000, 100000, 900)];
    let boxes = select_detections(&anchors, 500, 450, 100, 100, 640);
    assert!(boxes.is_empty());
}
