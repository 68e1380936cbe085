use hl_rust_core::lines::LineAccumulator;
use hl_rust_core::rotation::{extract_timestamp, find_latest, is_valid_hourly_file, parse_u64};
use hl_rust_core::tail::{FsEventKind, TailAction, Tailer};

#[test]
fn extract_timestamp_from_hourly_path() {
    assert_eq!(extract_timestamp("/base/hourly/20240101/10"), Some(2024010110));
    assert_eq!(extract_timestamp("/base/hourly/20240101/0"), Some(2024010100));
    assert_eq!(extract_timestamp("/base/hourly/20240101/24"), None);
    assert_eq!(extract_timestamp("/base/hourly/20240101/ten"), None);
    assert_eq!(extract_timestamp("/base/hourly/day/10"), None);
    assert_eq!(extract_timestamp("10"), None);
}

#[test]
fn hourly_file_validity() {
    assert!(is_valid_hourly_file("/base/hourly/20240101/23"));
    assert!(!is_valid_hourly_file("/base/hourly/20240101/99"));
    assert!(!is_valid_hourly_file("/base/hourly"));
}

#[test]
fn parse_u64_component() {
    assert_eq!(parse_u64("20240101"), Some(20240101));
    assert_eq!(parse_u64("007"), Some(7));
    assert_eq!(parse_u64(""), None);
    assert_eq!(parse_u64("1x"), None);
    assert_eq!(parse_u64("18446744073709551615"), Some(u64::MAX));
    assert_eq!(parse_u64("18446744073709551616"), None);
}

#[test]
fn latest_file_wins_by_stamp_earliest_on_tie() {
    let paths = vec![
        "/b/hourly/20240101/10".to_string(),
        "/b/hourly/20240101/11".to_string(),
        "/b/hourly/bogus/x".to_string(),
        "/b/hourly/20240101/11".to_string(),
    ];
    assert_eq!(find_latest(&paths), Some(1));
    let none: Vec<String> = vec!["/b/hourly/bad/99".to_string()];
    assert_eq!(find_latest(&none), None);
}

#[test]
fn accumulator_holds_partials_across_reads() {
    let mut acc = LineAccumulator::new();
    let lines = acc.feed("abc");
    assert!(lines.is_empty());
    let lines = acc.feed("def\nxyz");
    assert_eq!(lines, vec!["abcdef".to_string()]);
    let lines = acc.feed("!\n");
    assert_eq!(lines, vec!["xyz!".to_string()]);
}

#[test]
fn accumulator_drops_empty_lines_and_keeps_other_whitespace() {
    // Only the newline itself is stripped; a line of blanks is a line.
    let mut acc = LineAccumulator::new();
    let lines = acc.feed("a  \n\n  \nb \n");
    assert_eq!(lines, vec!["a  ".to_string(), "  ".to_string(), "b ".to_string()]);
}

#[test]
fn partial_is_completed_by_a_bare_newline() {
    let mut acc = LineAccumulator::new();
    assert!(acc.feed("abc").is_empty());
    let lines = acc.feed("\n");
    assert_eq!(lines, vec!["abc".to_string()]);
    let lines = acc.feed("def\n");
    assert_eq!(lines, vec!["def".to_string()]);
}

#[test]
fn discarded_partial_never_appears() {
    let mut acc = LineAccumulator::new();
    assert!(acc.feed("orphan").is_empty());
    acc.discard_partial();
    let lines = acc.feed("fresh\n");
    assert_eq!(lines, vec!["fresh".to_string()]);
}

#[test]
fn rotation_boundary() {
    // the tailer starts at the end of .../20240101/10 (its "a" line is
    // never re-read), picks up "b", and after rotation picks up "c" from
    // the new file with no re-emission.
    let old_path = "/b/hourly/20240101/10".to_string();
    let new_path = "/b/hourly/20240101/11".to_string();
    let mut tailer = Tailer::new(Some(old_path.clone()));
    assert!(tailer.try_next_event().is_none());

    assert_eq!(tailer.classify(FsEventKind::Modify, &old_path), TailAction::ReadCurrent);
    tailer.read_chunk("b\n");
    let e = tailer.try_next_event().expect("line queued");
    assert_eq!(e.line, "b");
    assert_eq!(e.source, old_path);
    assert!(tailer.try_next_event().is_none());

    assert_eq!(tailer.classify(FsEventKind::Create, &new_path), TailAction::Rotate);
    tailer.rotate(new_path.clone(), "", "c\n");
    let e = tailer.try_next_event().expect("line queued");
    assert_eq!(e.line, "c");
    assert_eq!(e.source, new_path);
    assert!(tailer.try_next_event().is_none());
}

#[test]
fn rotation_flushes_old_lines_first_and_drops_partial() {
    let old_path = "/b/hourly/20240101/10".to_string();
    let new_path = "/b/hourly/20240101/11".to_string();
    let mut tailer = Tailer::new(Some(old_path.clone()));
    tailer.read_chunk("first\nhalf");
    let e = tailer.try_next_event().unwrap();
    assert_eq!(e.line, "first");

    // The old file's final complete lines come before anything from the
    // new file; the pending "half" is completed by the final flush.
    tailer.rotate(new_path.clone(), "tail\n", "fresh\n");
    let e1 = tailer.try_next_event().unwrap();
    assert_eq!((e1.source.as_str(), e1.line.as_str()), (old_path.as_str(), "halftail"));
    let e2 = tailer.try_next_event().unwrap();
    assert_eq!((e2.source.as_str(), e2.line.as_str()), (new_path.as_str(), "fresh"));
    assert!(tailer.try_next_event().is_none());
}

#[test]
fn stale_or_equal_stamps_do_not_rotate() {
    let cur = "/b/hourly/20240101/10".to_string();
    let tailer = Tailer::new(Some(cur));
    assert_eq!(
        tailer.classify(FsEventKind::Create, "/b/hourly/20240101/09"),
        TailAction::Ignore
    );
    assert_eq!(
        tailer.classify(FsEventKind::Create, "/b/hourly/20240101/10"),
        TailAction::Ignore
    );
    assert_eq!(
        tailer.classify(FsEventKind::Create, "/b/hourly/20240101/11"),
        TailAction::Rotate
    );
    assert_eq!(tailer.classify(FsEventKind::Modify, "/b/hourly/20240101/11"), TailAction::Ignore);
    assert_eq!(tailer.classify(FsEventKind::Other, "/b/hourly/20240101/11"), TailAction::Ignore);
}

#[test]
fn adopt_when_nothing_followed() {
    let mut tailer = Tailer::new(None);
    assert_eq!(
        tailer.classify(FsEventKind::Modify, "/b/hourly/20240101/10"),
        TailAction::Adopt
    );
    tailer.adopt("/b/hourly/20240101/10".to_string());
    assert_eq!(
        tailer.classify(FsEventKind::Modify, "/b/hourly/20240101/10"),
        TailAction::ReadCurrent
    );
}
