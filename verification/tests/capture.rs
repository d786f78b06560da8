use crimesim_bridge::capture::Capture;

#[test]
fn head_tail_budget_and_middle_error_survive() {
    let mut c = Capture::new(100);
    c.push(b"start");
    c.push(&vec![b'x'; 150]);
    c.push(b"SCRIPT ER");
    c.push(b"ROR: discarded middle");
    c.push(&vec![b'y'; 150]);
    c.push(b"end");
    assert_eq!(c.retained_bytes(), 100);
    assert!(c.text().starts_with("start"));
    assert!(c.text().ends_with("end"));
    assert!(c.error_marker_seen());
    assert!(c.omitted_bytes() > 0);
}

#[test]
fn binary_and_partial_utf8_never_panic() {
    let mut c = Capture::new(9);
    c.push(&[0xff; 100]);
    c.push("é".as_bytes());
    assert_eq!(c.retained_bytes(), 9);
    assert!(!c.text().is_empty());
}

#[test]
fn small_output_is_kept_whole_without_note() {
    let mut c = Capture::new(1024);
    c.push(b"ready\n");
    assert_eq!(c.observed(), 6);
    assert_eq!(c.retained_bytes(), 6);
    assert_eq!(c.omitted_bytes(), 0);
    assert_eq!(c.text(), "ready\n");
    assert!(!c.error_marker_seen());
}

#[test]
fn omission_note_counts_dropped_bytes() {
    let mut c = Capture::new(10);
    c.push(b"0123456789abcdefghij");
    assert_eq!(c.observed(), 20);
    assert_eq!(c.retained_bytes(), 10);
    assert_eq!(c.omitted_bytes(), 10);
    assert_eq!(c.text(), "01234\n[Bridge omitted 10 bytes; first/last output retained]\nfghij");
}

#[test]
fn marker_split_across_chunks_is_seen() {
    let mut c = Capture::new(1024);
    c.push(b"Parse Err");
    assert!(!c.error_marker_seen());
    c.push(b"or: bad token");
    assert!(c.error_marker_seen());
}

#[test]
fn plain_error_marker_is_seen() {
    let mut c = Capture::new(1024);
    c.push(b"ERROR: x");
    assert!(c.error_marker_seen());
}
