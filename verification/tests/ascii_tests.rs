use boom_catalogs::ascii::{is_blank_line, position_ruler, IngestTally, RowOutcome};
use boom_catalogs::ingest::has_extension;

#[test]
fn tally_counts_sent_and_failed_rows() {
    let mut t = IngestTally::new();
    assert!(t.record(RowOutcome::Sent));
    assert!(t.record(RowOutcome::Sent));
    assert!(!t.record(RowOutcome::Failed));
    assert!(!t.record(RowOutcome::SendFailed));
    assert_eq!(t.parsed(), 2);
    assert_eq!(t.failed(), 1);
}

#[test]
fn ruler_marks_every_tenth_position() {
    let (marks, digits) = position_ruler(23);
    assert_eq!(marks, "0         10        20        ");
    assert_eq!(digits, "01234567890123456789012");
    let (marks, digits) = position_ruler(20);
    assert_eq!(marks, "0         10        ");
    assert_eq!(digits.len(), 20);
    let (marks, digits) = position_ruler(0);
    assert_eq!(marks, "");
    assert_eq!(digits, "");
}

#[test]
fn blank_lines_are_whitespace_only() {
    assert!(is_blank_line(""));
    assert!(is_blank_line("  \t \r"));
    assert!(!is_blank_line("  x "));
}

#[test]
fn extensions_follow_the_last_dot() {
    assert!(has_extension("strm_0001.csv", "csv"));
    assert!(!has_extension("strm_0001.csv.gz", "csv"));
    assert!(has_extension("strm_0001.csv.gz", "gz"));
    assert!(!has_extension(".csv", "csv"));
    assert!(!has_extension("csv", "csv"));
    assert!(has_extension("a.", ""));
    assert!(!has_extension("..", ""));
}
