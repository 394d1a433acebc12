use asom_index::errors::{ErrFR, ErrFRActionCode};
use asom_index::files::{frame_document, get_file_content, save_conflict_check};
use asom_index::notifier::{GateDecision, RateGate};
use asom_index::paths::{
    get_breadcrumb_items, get_unique_path, u64_to_string, RelPath,
};
use asom_index::records::{AttrMap, FileReadMode, RecordFromDb};

fn rp(segments: &[&str]) -> RelPath {
    RelPath::from_segments(segments.iter().map(|s| s.to_string()).collect())
}

/// Rate-limit bound: of many attempts within one window, at most
/// capacity-many real events; the overflow signal fires once and is
/// then coalesced for the whole cooldown.
#[test]
fn burst_is_bounded_and_overflow_coalesced() {
    let mut limiter = RateGate::new(3, 1000, 200, 10_000);
    let mut emitted = 0;
    let mut overflowed = 0;
    let mut suppressed = 0;
    for _ in 0..10 {
        match limiter.decide(10_000) {
            GateDecision::Emit => emitted += 1,
            GateDecision::Overflow => overflowed += 1,
            GateDecision::Suppress => suppressed += 1,
        }
    }
    assert_eq!(emitted, 3);
    assert_eq!(overflowed, 1);
    assert_eq!(suppressed, 6);

    assert_eq!(limiter.decide(10_150), GateDecision::Suppress, "still cooling down");
    assert_eq!(limiter.decide(10_250), GateDecision::Overflow, "cooldown expired");
}

#[test]
fn tokens_regrow_with_time() {
    let mut limiter = RateGate::new(1, 1000, 200, 0);
    assert_eq!(limiter.decide(0), GateDecision::Emit);
    assert_eq!(limiter.decide(500), GateDecision::Overflow);
    assert_eq!(limiter.decide(1200), GateDecision::Emit, "one interval regrew one token");
}

#[test]
fn front_matter_split_modes() {
    let doc = "ignored preamble\n---\nauthor: X\nyear: 2024\n---\nbody line\nsecond line\n";
    let meta = get_file_content(doc, &FileReadMode::OnlyMeta);
    assert_eq!(meta.front_matter, "author: X\nyear: 2024\n");
    assert_eq!(meta.content, "");

    let full = get_file_content(doc, &FileReadMode::FullFile);
    assert_eq!(full.front_matter, "author: X\nyear: 2024\n");
    assert_eq!(full.content, "body line\nsecond line\n");

    let no_fences = get_file_content("just text\n", &FileReadMode::FullFile);
    assert_eq!(no_fences.front_matter, "");
    assert_eq!(no_fences.content, "");

    let crlf = get_file_content("---\r\na: b\r\n---\r\n", &FileReadMode::OnlyMeta);
    assert_eq!(crlf.front_matter, "a: b\n");
}

#[test]
fn frame_document_layout() {
    assert_eq!(
        frame_document("author: X\n", "body\n"),
        "---\nauthor: X\n---\nbody\n"
    );
}

#[test]
fn save_check_distinguishes_retry_kinds() {
    assert!(save_conflict_check(Some(5), true, &None).is_ok());
    assert!(save_conflict_check(None, false, &None).is_ok());
    assert!(save_conflict_check(Some(5), false, &Some(Ok(5))).is_ok());

    let conflict = save_conflict_check(Some(5), false, &Some(Ok(6))).err().unwrap();
    assert_eq!(conflict.title, "File was modified by something else");
    assert_eq!(conflict.action_code, Some(ErrFRActionCode::FileSaveRetryForced));

    let unreadable = save_conflict_check(Some(5), false, &Some(Err("io".to_string())))
        .err()
        .unwrap();
    assert_eq!(unreadable.title, "Unable to get modified date from file on disk");
    assert_eq!(unreadable.action_code, Some(ErrFRActionCode::FileSaveRetryForced));
}

#[test]
fn error_builder_accumulates() {
    let e = ErrFR::new("top")
        .info("detail")
        .raw("cause")
        .sub(ErrFR::new("first"))
        .sub(ErrFR::new("second"));
    assert!(e.is_error);
    assert_eq!(e.title, "top");
    assert_eq!(e.info.as_deref(), Some("detail"));
    assert_eq!(e.raw_error.as_deref(), Some("cause"));
    assert_eq!(e.sub_errors.len(), 2);
    assert_eq!(e.sub_errors[1].title, "second");

    let replaced = ErrFR::new("top").subs(vec![ErrFR::new("only")]);
    assert_eq!(replaced.sub_errors.len(), 1);
}

#[test]
fn test_nonexistent_file() {
    let path = rp(&["dir", "test.txt"]);
    let taken: Vec<RelPath> = Vec::new();
    assert_eq!(get_unique_path(&path, &taken), Some(rp(&["dir", "test.txt"])));
}

#[test]
fn test_existing_file() {
    let path = rp(&["dir", "test.txt"]);
    let taken = vec![rp(&["dir", "test.txt"])];
    assert_eq!(get_unique_path(&path, &taken), Some(rp(&["dir", "test(1).txt"])));
}

#[test]
fn test_multiple_existing_files() {
    let path = rp(&["dir", "test.txt"]);
    let taken = vec![
        rp(&["dir", "test.txt"]),
        rp(&["dir", "test(1).txt"]),
        rp(&["dir", "test(2).txt"]),
    ];
    assert_eq!(get_unique_path(&path, &taken), Some(rp(&["dir", "test(3).txt"])));
}

#[test]
fn unique_path_without_extension() {
    let path = rp(&["notes"]);
    let taken = vec![rp(&["notes"])];
    assert_eq!(get_unique_path(&path, &taken), Some(rp(&["notes(1)"])));
}

#[test]
fn extension_rules() {
    assert_eq!(rp(&["a.md"]).extension(), Some("md".to_string()));
    assert_eq!(rp(&["dir", "a.tar.gz"]).extension(), Some("gz".to_string()));
    assert_eq!(rp(&[".asom"]).extension(), None);
    assert_eq!(rp(&["plain"]).extension(), None);
    assert_eq!(rp(&[]).extension(), None);
}

#[test]
fn decimal_text() {
    assert_eq!(u64_to_string(0), "0");
    assert_eq!(u64_to_string(42), "42");
    assert_eq!(u64_to_string(1234567), "1234567");
}

#[test]
fn breadcrumbs_fold_long_trails() {
    let record = RecordFromDb {
        path: Some(rp(&["a", "b", "c", "d", "e", "f.md"])),
        modified: None,
        markdown: None,
        attrs: AttrMap::new(),
    };
    let crumbs = get_breadcrumb_items(&record);
    assert_eq!(crumbs.start.len(), 1);
    assert_eq!(crumbs.start[0].label, "a");
    assert_eq!(crumbs.start[0].path, "a");
    assert_eq!(crumbs.middle.len(), 3);
    assert_eq!(crumbs.middle[0].path, "a/b");
    assert_eq!(crumbs.end.len(), 2);
    assert_eq!(crumbs.end[1].label, "f.md");
    assert_eq!(crumbs.end[1].path, "a/b/c/d/e/f.md");

    let short = RecordFromDb {
        path: Some(rp(&["a", "b.md"])),
        modified: None,
        markdown: None,
        attrs: AttrMap::new(),
    };
    let folded = get_breadcrumb_items(&short);
    assert_eq!(folded.start.len(), 2);
    assert!(folded.middle.is_empty() && folded.end.is_empty());
}
