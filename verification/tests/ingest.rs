use heimlern::ingest::{chronik_api_segments, ingest_step, is_valid_event_domain, IngestStep};

#[test]
fn test_is_valid_event_domain() {
    assert!(is_valid_event_domain("example.com"));
    assert!(is_valid_event_domain("a.b.c"));
    assert!(is_valid_event_domain("my-domain.com"));
    assert!(is_valid_event_domain("x"));

    assert!(!is_valid_event_domain(""));
    assert!(!is_valid_event_domain(" "));
    assert!(!is_valid_event_domain(".start"));
    assert!(!is_valid_event_domain("end."));
    assert!(!is_valid_event_domain("my..domain"));
    assert!(!is_valid_event_domain("bad_char"));
    assert!(!is_valid_event_domain("-start"));
    assert!(!is_valid_event_domain("end-"));
}

#[test]
fn event_domain_is_trimmed_before_validation() {
    assert!(is_valid_event_domain("  aussen  "));
    assert!(is_valid_event_domain("\tsensor.v1\n"));
    assert!(!is_valid_event_domain("a b"));
}

#[test]
fn event_domain_labels_are_bounded() {
    let label_63: String = "a".repeat(63);
    let label_64: String = "a".repeat(64);
    assert!(is_valid_event_domain(&label_63));
    assert!(!is_valid_event_domain(&label_64));
    let two_labels = format!("{}.{}", label_63, label_63);
    assert!(is_valid_event_domain(&two_labels));
    let too_long = format!("{0}.{0}.{0}.{0}", label_63);
    assert!(!is_valid_event_domain(&too_long));
}

#[test]
fn ingest_step_reports_missing_cursor() {
    assert_eq!(ingest_step(0, None, true), IngestStep::MissingCursor);
    assert_eq!(
        ingest_step(7, None, false),
        IngestStep::Advance { cursor: 7, has_more: false }
    );
}

#[test]
fn ingest_step_reports_stalled_cursor() {
    assert_eq!(ingest_step(10, Some(10), true), IngestStep::Stalled);
    assert_eq!(
        ingest_step(10, Some(10), false),
        IngestStep::Advance { cursor: 10, has_more: false }
    );
}

#[test]
fn ingest_step_advances_normally() {
    assert_eq!(
        ingest_step(10, Some(20), true),
        IngestStep::Advance { cursor: 20, has_more: true }
    );
    assert_eq!(
        ingest_step(10, Some(20), false),
        IngestStep::Advance { cursor: 20, has_more: false }
    );
}

fn segs(parts: &[&str]) -> Vec<String> {
    parts.iter().map(|s| s.to_string()).collect()
}

#[test]
fn chronik_segments_normalize_to_events_endpoint() {
    // path segments as a URL parser yields them for each base
    let cases: Vec<(Vec<String>, Vec<String>)> = vec![
        (segs(&[""]), segs(&["v1", "events"])),                     // http://host and http://host/
        (segs(&["v1"]), segs(&["v1", "events"])),                   // http://host/v1
        (segs(&["v1", "events"]), segs(&["v1", "events"])),         // http://host/v1/events
        (segs(&["prefix"]), segs(&["prefix", "v1", "events"])),     // http://host/prefix
        (segs(&["prefix", ""]), segs(&["prefix", "v1", "events"])), // http://host/prefix/
    ];
    for (input, expected) in cases {
        assert_eq!(chronik_api_segments(&input), expected);
    }
}
