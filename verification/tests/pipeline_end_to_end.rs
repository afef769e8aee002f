use person_detector::detection::Detection;
use person_detector::geometry::{BBox, Threshold};
use person_detector::pipeline::process_frame;
use person_detector::report::PublishAction;
use person_detector::tracker::SubjectRegistry;

fn det(x: i64, y: i64, w: i64, h: i64, conf: u32) -> Detection {
    Detection { bbox: BBox { x, y, w, h }, conf }
}

#[test]
fn three_frames_end_to_end() {
    let tau = Threshold { num: 1, den: 2 };
    let mut reg = SubjectRegistry::new();

    // Frame 1: one subject appears.
    let (changed, action) = process_frame(&mut reg, &vec![det(0, 0, 100, 200, 5000)], &tau);
    assert!(changed);
    assert_eq!(reg.subjects.len(), 1);
    assert_eq!(reg.subjects[0].identity, 1);
    match action {
        PublishAction::Publish { payload } => {
            assert_eq!(payload, "1: Person 1 - 50.00%");
        }
        _ => panic!("frame 1 must publish"),
    }

    // Frame 2: the subject shifts slightly but keeps overlapping and keeps
    // its confidence: identity 1 is reused and nothing is published.
    let (changed, action) = process_frame(&mut reg, &vec![det(2, 2, 100, 200, 5000)], &tau);
    assert!(!changed);
    assert_eq!(reg.subjects[0].identity, 1);
    assert!(matches!(action, PublishAction::Silent));

    // Frame 3: the subject jumps away; no overlap with its previous box, so
    // it counts as a new subject with a fresh identity, and a report goes out.
    let (changed, action) = process_frame(&mut reg, &vec![det(200, 200, 70, 130, 5000)], &tau);
    assert!(changed);
    assert_eq!(reg.subjects.len(), 1);
    assert_eq!(reg.subjects[0].identity, 2);
    match action {
        PublishAction::Publish { payload } => {
            assert_eq!(payload, "2: Person 2 - 50.00%");
        }
        _ => panic!("frame 3 must publish"),
    }
}

#[test]
fn duplicate_detections_are_suppressed_before_tracking() {
    let tau = Threshold { num: 1, den: 2 };
    let mut reg = SubjectRegistry::new();
    // Two near-identical detections of the same person and one far away:
    // the near-duplicates suppress each other (IoU above half), leaving only
    // the distant subject.
    let frame = vec![
        det(0, 0, 100, 200, 5000),
        det(1, 1, 100, 200, 5000),
        det(600, 0, 100, 200, 7000),
    ];
    let (changed, _) = process_frame(&mut reg, &frame, &tau);
    assert!(changed);
    assert_eq!(reg.subjects.len(), 1);
    assert_eq!(reg.subjects[0].conf, 7000);
}

#[test]
fn changed_to_empty_gives_local_notice_only() {
    let tau = Threshold { num: 1, den: 2 };
    let mut reg = SubjectRegistry::new();
    process_frame(&mut reg, &vec![det(0, 0, 100, 200, 5000)], &tau);
    let (changed, action) = process_frame(&mut reg, &Vec::new(), &tau);
    assert!(changed);
    assert!(matches!(action, PublishAction::EmptyNotice));
    assert_eq!(reg.next_id, 1);
}
