use person_detector::detection::{qualifying, Detection};
use person_detector::geometry::BBox;
use person_detector::tracker::{SubjectRegistry, TrackedSubject};

fn det(x: i64, y: i64, w: i64, h: i64, conf: u32) -> Detection {
    Detection { bbox: BBox { x, y, w, h }, conf }
}

fn subject(identity: u64, x: i64, y: i64, w: i64, h: i64, conf: u32) -> TrackedSubject {
    TrackedSubject { identity, conf, bbox: BBox { x, y, w, h } }
}

#[test]
fn size_filter_drops_small_boxes() {
    let frame = vec![
        det(0, 0, 60, 200, 100),   // width not strictly above 60
        det(0, 0, 100, 120, 100),  // height not strictly above 120
        det(0, 0, 61, 121, 100),   // barely qualifies
    ];
    let q = qualifying(&frame);
    assert_eq!(q, vec![det(0, 0, 61, 121, 100)]);
}

#[test]
fn overlapping_box_reuses_identity_and_same_confidence_is_unchanged() {
    let mut reg = SubjectRegistry {
        subjects: vec![subject(1, 0, 0, 100, 200, 4000)],
        next_id: 2,
    };
    let changed = reg.step(&vec![det(10, 10, 100, 200, 4000)]);
    assert_eq!(reg.subjects.len(), 1);
    assert_eq!(reg.subjects[0].identity, 1);
    assert!(!changed);
}

#[test]
fn overlapping_box_with_other_confidence_is_changed() {
    let mut reg = SubjectRegistry {
        subjects: vec![subject(1, 0, 0, 100, 200, 4000)],
        next_id: 2,
    };
    let changed = reg.step(&vec![det(10, 10, 100, 200, 4001)]);
    assert_eq!(reg.subjects[0].identity, 1);
    assert!(changed);
}

#[test]
fn movement_breaking_overlap_is_changed() {
    let mut reg = SubjectRegistry {
        subjects: vec![subject(1, 0, 0, 100, 200, 4000)],
        next_id: 2,
    };
    // No overlap with the previous box: the subject gets a fresh identity
    // and the frame must report a change.
    let changed = reg.step(&vec![det(150, 250, 100, 200, 4000)]);
    assert!(changed);
    assert_eq!(reg.subjects.len(), 1);
    assert_eq!(reg.subjects[0].identity, 2);
}

#[test]
fn empty_frame_clears_registry_and_resets_counter() {
    let mut reg = SubjectRegistry::new();
    let changed = reg.step(&vec![det(0, 0, 100, 200, 5000), det(400, 0, 100, 200, 5000)]);
    assert!(changed);
    assert_eq!(reg.subjects.len(), 2);
    assert_eq!(reg.next_id, 3);

    let changed = reg.step(&Vec::new());
    assert!(changed);
    assert!(reg.subjects.is_empty());
    assert_eq!(reg.next_id, 1);

    let changed = reg.step(&Vec::new());
    assert!(!changed);
    assert!(reg.subjects.is_empty());
    assert_eq!(reg.next_id, 1);
}

#[test]
fn frame_of_only_small_boxes_counts_as_empty() {
    let mut reg = SubjectRegistry::new();
    reg.step(&vec![det(0, 0, 100, 200, 5000)]);
    assert_eq!(reg.subjects.len(), 1);
    let changed = reg.step(&vec![det(0, 0, 50, 50, 5000)]);
    assert!(changed);
    assert!(reg.subjects.is_empty());
    assert_eq!(reg.next_id, 1);
}

#[test]
fn identical_frames_report_unchanged() {
    let mut reg = SubjectRegistry::new();
    let frame = vec![det(0, 0, 100, 200, 7000), det(400, 0, 100, 200, 6000)];
    let changed = reg.step(&frame);
    assert!(changed);
    let before = reg.subjects.clone();
    let changed = reg.step(&frame);
    assert!(!changed);
    assert_eq!(reg.subjects, before);
}

#[test]
fn each_previous_identity_is_claimed_at_most_once() {
    let mut reg = SubjectRegistry {
        subjects: vec![subject(1, 0, 0, 100, 200, 5000)],
        next_id: 2,
    };
    // Both detections overlap the old subject; only the first may claim
    // identity 1, the second gets a fresh identity.
    reg.step(&vec![det(0, 0, 100, 200, 5000), det(50, 0, 100, 200, 5000)]);
    let ids: Vec<u64> = reg.subjects.iter().map(|s| s.identity).collect();
    assert_eq!(ids, vec![1, 2]);
}

#[test]
fn identities_are_not_reused_while_tracking_continues() {
    let mut reg = SubjectRegistry::new();
    reg.step(&vec![det(0, 0, 100, 200, 5000)]);
    assert_eq!(reg.subjects[0].identity, 1);
    // The subject moves away and a new one appears elsewhere: the new one
    // must not be relabelled 1 even though 1 just left the registry.
    reg.step(&vec![det(500, 500, 100, 200, 5000)]);
    assert_eq!(reg.subjects[0].identity, 2);
    reg.step(&vec![det(500, 500, 100, 200, 5000), det(900, 0, 100, 200, 5000)]);
    let ids: Vec<u64> = reg.subjects.iter().map(|s| s.identity).collect();
    assert_eq!(ids, vec![2, 3]);
}
