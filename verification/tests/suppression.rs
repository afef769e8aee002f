use person_detector::detection::Detection;
use person_detector::geometry::{iou_exceeds, BBox, Threshold};
use person_detector::suppress::suppress;

fn bx(x: i64, y: i64, w: i64, h: i64) -> BBox {
    BBox { x, y, w, h }
}

fn det(x: i64, y: i64, w: i64, h: i64) -> Detection {
    Detection { bbox: bx(x, y, w, h), conf: 5000 }
}

fn half() -> Threshold {
    Threshold { num: 1, den: 2 }
}

#[test]
fn iou_comparison_is_symmetric() {
    let pairs = [
        (bx(0, 0, 100, 200), bx(10, 10, 100, 200)),
        (bx(0, 0, 100, 200), bx(200, 200, 70, 130)),
        (bx(-5, -5, 10, 10), bx(0, 0, 10, 10)),
        (bx(0, 0, 0, 0), bx(0, 0, 0, 0)),
    ];
    let thresholds = [Threshold { num: 1, den: 2 }, Threshold { num: 1, den: 1000 }, Threshold {
        num: 999,
        den: 1000,
    }];
    for (a, b) in pairs.iter() {
        for t in thresholds.iter() {
            assert_eq!(iou_exceeds(a, b, t), iou_exceeds(b, a, t));
        }
    }
}

#[test]
fn suppression_is_idempotent() {
    let frame = vec![
        det(0, 0, 100, 200),
        det(5, 5, 100, 200),
        det(300, 300, 80, 160),
        det(310, 300, 80, 160),
        det(1000, 0, 50, 50),
    ];
    let t = half();
    let once = suppress(&frame, &t);
    let twice = suppress(&once, &t);
    assert_eq!(once, twice);
}

#[test]
fn isolated_box_is_always_retained() {
    let lonely = det(5000, 5000, 40, 40);
    let frame = vec![det(0, 0, 100, 200), det(5, 5, 100, 200), lonely];
    for t in [Threshold { num: 1, den: 1000000 }, Threshold { num: 1, den: 2 }, Threshold {
        num: 999999,
        den: 1000000,
    }] {
        let kept = suppress(&frame, &t);
        assert!(kept.contains(&lonely));
    }
}

#[test]
fn identical_overlapping_boxes_are_both_dropped() {
    let frame = vec![det(0, 0, 100, 100), det(0, 0, 100, 100)];
    let kept = suppress(&frame, &half());
    assert!(kept.is_empty());
}

#[test]
fn zero_area_duplicates_are_retained() {
    let frame = vec![det(7, 7, 0, 0), det(7, 7, 0, 0)];
    let kept = suppress(&frame, &half());
    assert_eq!(kept.len(), 2);
}

#[test]
fn boxes_below_threshold_overlap_all_survive() {
    let frame = vec![det(0, 0, 100, 100), det(90, 0, 100, 100)];
    let kept = suppress(&frame, &half());
    assert_eq!(kept.len(), 2);
}

#[test]
fn empty_frame_suppresses_to_empty() {
    let frame: Vec<Detection> = Vec::new();
    assert!(suppress(&frame, &half()).is_empty());
}
