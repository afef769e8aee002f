use person_detector::geometry::BBox;
use person_detector::report::{
    build_report, decide_publish, decimal_string, percent_string, report_line, PublishAction,
};
use person_detector::tracker::TrackedSubject;

fn subject(identity: u64, conf: u32) -> TrackedSubject {
    TrackedSubject { identity, conf, bbox: BBox { x: 0, y: 0, w: 100, h: 200 } }
}

#[test]
fn decimal_strings() {
    assert_eq!(decimal_string(0), "0");
    assert_eq!(decimal_string(7), "7");
    assert_eq!(decimal_string(10), "10");
    assert_eq!(decimal_string(907), "907");
    assert_eq!(decimal_string(18446744073709551615), "18446744073709551615");
}

#[test]
fn percent_strings() {
    assert_eq!(percent_string(0), "0.00");
    assert_eq!(percent_string(5), "0.05");
    assert_eq!(percent_string(50), "0.50");
    assert_eq!(percent_string(9312), "93.12");
    assert_eq!(percent_string(10000), "100.00");
}

#[test]
fn report_line_format() {
    assert_eq!(report_line(&subject(1, 9312)), "1: Person 1 - 93.12%");
    assert_eq!(report_line(&subject(12, 500)), "12: Person 12 - 5.00%");
}

#[test]
fn report_joins_lines_with_newlines() {
    let subjects = vec![subject(1, 9312), subject(2, 500), subject(7, 10000)];
    assert_eq!(
        build_report(&subjects),
        "1: Person 1 - 93.12%\n2: Person 2 - 5.00%\n7: Person 7 - 100.00%"
    );
    assert_eq!(build_report(&vec![subject(3, 0)]), "3: Person 3 - 0.00%");
    assert_eq!(build_report(&Vec::new()), "");
}

#[test]
fn publish_only_on_change() {
    let subjects = vec![subject(1, 5000)];
    match decide_publish(true, &subjects) {
        PublishAction::Publish { payload } => {
            assert_eq!(payload, "1: Person 1 - 50.00%");
        }
        _ => panic!("a changed, non-empty frame must publish"),
    }
    assert!(matches!(decide_publish(true, &Vec::new()), PublishAction::EmptyNotice));
    assert!(matches!(decide_publish(false, &subjects), PublishAction::Silent));
    assert!(matches!(decide_publish(false, &Vec::new()), PublishAction::Silent));
}
