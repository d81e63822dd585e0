use ai_wiki_core::ingest::{
    audio_extract_dir, depth_allowed, ingest_action, missing_files_message, parse_file_list,
    parse_source_arg, pdf_chapter_dir, strip_quotes, summary_line, unknown_type_reason,
    zip_extract_dir, FileListError, IngestAction, IngestResult, SourceArg, MAX_RECURSION_DEPTH,
};
use ai_wiki_core::ingest::{mark_for, walk_depth_allowed, FailureMark, FailureStage, ResolveError, MAX_WALK_DEPTH};
use ai_wiki_core::ingest::{admit_source, Admission};
use ai_wiki_core::queue::{FileType, ItemStatus, Queue};

#[test]
fn test_strip_quotes_fn() {
    assert_eq!(strip_quotes(r#""hello""#), "hello");
    assert_eq!(strip_quotes("'hello'"), "hello");
    assert_eq!(strip_quotes("hello"), "hello");
    assert_eq!(strip_quotes(r#""hello'"#), r#""hello'"#); // mismatched, no strip
    assert_eq!(strip_quotes(""), "");
    assert_eq!(strip_quotes(r#""""#), ""); // empty quoted string
    assert_eq!(strip_quotes("\""), "\""); // single char, no panic
    assert_eq!(strip_quotes("'"), "'"); // single char, no panic
}

// ─── Further cases ───────────────────────────────────────────────────────────

#[test]
fn file_list_skips_blanks_and_comments_and_strips_quotes() {
    let content = "/a/one.md\n# comment line\n  \"/b/two words.txt\"  \n\n'/c/three.pdf'\r\n";
    let files = parse_file_list(content).unwrap();
    assert_eq!(
        files,
        vec![
            "/a/one.md".to_string(),
            "/b/two words.txt".to_string(),
            "/c/three.pdf".to_string()
        ]
    );
    let files = parse_file_list("last-without-newline.md").unwrap();
    assert_eq!(files, vec!["last-without-newline.md".to_string()]);
}

#[test]
fn file_list_naming_nothing_is_refused() {
    assert!(matches!(
        parse_file_list("# only comments\n\n"),
        Err(FileListError::Empty)
    ));
    assert!(matches!(parse_file_list(""), Err(FileListError::Empty)));
}

#[test]
fn missing_files_are_listed() {
    let missing = vec!["/x.md".to_string(), "/y.md".to_string()];
    assert_eq!(
        missing_files_message(&missing),
        "2 file(s) from list not found: /x.md, /y.md"
    );
}

#[test]
fn at_sign_names_a_file_list() {
    match parse_source_arg("@list.txt") {
        SourceArg::FileList(f) => assert_eq!(f, "list.txt"),
        SourceArg::Path(_) => panic!("expected a file list"),
    }
    match parse_source_arg("docs/*.pdf") {
        SourceArg::Path(p) => assert_eq!(p, "docs/*.pdf"),
        SourceArg::FileList(_) => panic!("expected a path"),
    }
}

#[test]
fn each_type_has_its_action() {
    assert_eq!(ingest_action(FileType::Zip), IngestAction::Unpack);
    assert_eq!(ingest_action(FileType::Pdf), IngestAction::ProcessPdf);
    assert_eq!(ingest_action(FileType::Markdown), IngestAction::CopyText);
    assert_eq!(ingest_action(FileType::Text), IngestAction::CopyText);
    assert_eq!(ingest_action(FileType::Audio), IngestAction::Transcribe);
    assert_eq!(ingest_action(FileType::Video), IngestAction::Transcribe);
    assert_eq!(ingest_action(FileType::Unknown), IngestAction::Reject);
    assert_eq!(unknown_type_reason("/raw/installer.dmg"), "non-operative file type: .dmg");
    assert_eq!(
        unknown_type_reason("/raw/README"),
        "non-operative file type: no extension"
    );
    assert!(unknown_type_reason("installer.DMG").contains(".DMG"));
}

#[test]
fn nesting_is_bounded() {
    assert_eq!(MAX_RECURSION_DEPTH, 3);
    assert!(depth_allowed(0));
    assert!(depth_allowed(3));
    assert!(!depth_allowed(4));
}

#[test]
fn scratch_directories_are_named_by_item() {
    assert_eq!(zip_extract_dir("/w/raw", 7), "/w/raw/zip_7");
    assert_eq!(pdf_chapter_dir("/w/raw", 12), "/w/raw/pdf_12_chapters");
    assert_eq!(audio_extract_dir("/w/raw/", 3), "/w/raw/audio_3");
}

#[test]
fn outcome_counts_move_from_queued() {
    let mut r = IngestResult::default();
    r.queued = 2;
    r.queued_to_error();
    assert_eq!((r.queued, r.rejected, r.errors), (1, 0, 1));
    r.queued_to_rejected();
    assert_eq!((r.queued, r.rejected, r.errors), (0, 1, 1));
    r.queued_to_error();
    assert_eq!((r.queued, r.rejected, r.errors), (0, 1, 2));
    let mut total = IngestResult::default();
    total.merge(r);
    total.merge(r);
    assert_eq!((total.queued, total.rejected, total.errors), (0, 2, 4));
}

#[test]
fn outcome_labels() {
    let r = |q, rj, e| IngestResult { queued: q, rejected: rj, errors: e };
    assert_eq!(r(1, 0, 1).outcome_label(), "queued (some chapters errored)");
    assert_eq!(r(1, 1, 0).outcome_label(), "queued (some chapters rejected)");
    assert_eq!(r(1, 0, 0).outcome_label(), "queued");
    assert_eq!(r(0, 1, 1).outcome_label(), "error");
    assert_eq!(r(0, 1, 0).outcome_label(), "rejected");
    assert_eq!(r(0, 0, 0).outcome_label(), "skipped");
    assert!(r(0, 0, 0).is_skipped());
    assert!(!r(0, 1, 0).is_skipped());
}

#[test]
fn summary_reports_totals_and_time() {
    let t = IngestResult { queued: 3, rejected: 1, errors: 2 };
    assert_eq!(
        summary_line(&t, 4, 5, 125),
        "Ingest complete — queued: 3, rejected: 1, errors: 2, skipped: 4, failed: 5 (2m 5s)"
    );
}

#[test]
fn resolution_errors_describe_the_argument() {
    assert_eq!(ResolveError::DirectoryEmpty("/d".to_string()).message(), "directory is empty: /d");
    assert_eq!(ResolveError::NoMatch("*.zz".to_string()).message(), "no files matched: *.zz");
    assert_eq!(ResolveError::ListEmpty("l.txt".to_string()).message(), "file list is empty: l.txt");
    assert_eq!(
        ResolveError::Missing(vec!["/nonexistent/file.md".to_string()]).message(),
        "1 file(s) from list not found: /nonexistent/file.md"
    );
    assert!(ResolveError::Missing(vec!["a".to_string()]).message().contains("not found"));
    assert_eq!(
        ResolveError::TooDeep("/deep".to_string()).message(),
        "directory nesting exceeds 50 levels: /deep"
    );
    assert_eq!(MAX_WALK_DEPTH, 50);
    assert!(walk_depth_allowed(50));
    assert!(!walk_depth_allowed(51));
}

#[test]
fn failures_move_counts_by_stage() {
    assert_eq!(mark_for(FailureStage::ChapterText), FailureMark::Reject);
    for stage in [
        FailureStage::Unpacking,
        FailureStage::Classifying,
        FailureStage::Splitting,
        FailureStage::DocumentText,
        FailureStage::Copying,
        FailureStage::Transcribing,
    ] {
        assert_eq!(mark_for(stage), FailureMark::Error);
    }
    let mut r = IngestResult::default();
    r.queued_one();
    r.queued_one();
    r.record_failure(FailureStage::ChapterText);
    assert_eq!((r.queued, r.rejected, r.errors), (1, 1, 0));
    r.record_failure(FailureStage::Copying);
    assert_eq!((r.queued, r.rejected, r.errors), (0, 1, 1));
    r.child_failed();
    r.rejected_one();
    assert_eq!((r.queued, r.rejected, r.errors), (0, 2, 2));
}

#[test]
fn dmg_sources_are_rejected_with_their_extension() {
    let mut q = Queue::open_in_memory().unwrap();
    let mut counts = IngestResult::default();
    let notes = admit_source(&mut q, "/raw/notes.md", None).unwrap();
    assert_eq!(
        notes,
        Admission::Enqueued { id: 1, file_type: FileType::Markdown, action: IngestAction::CopyText }
    );
    assert!(counts.count_admission(&notes));
    let dmg = admit_source(&mut q, "/raw/installer.dmg", None).unwrap();
    assert_eq!(dmg, Admission::Rejected { id: 2 });
    assert!(counts.count_admission(&dmg));
    let again = admit_source(&mut q, "/raw/notes.md", None).unwrap();
    assert_eq!(again, Admission::Skipped);
    assert!(counts.count_admission(&again));
    assert_eq!((counts.queued, counts.rejected, counts.errors), (1, 1, 0));
    let queued = q.list_items(Some(&ItemStatus::Queued)).unwrap();
    assert_eq!(queued.len(), 1);
    let rejected = q.list_items(Some(&ItemStatus::Rejected)).unwrap();
    assert_eq!(rejected.len(), 1);
    assert_eq!(rejected[0].file_type, FileType::Unknown);
    let reason = rejected[0].error_message.as_deref().unwrap_or("");
    assert!(reason.contains(".dmg") || reason.contains("non-operative"), "{reason}");
    // The same path under a parent is a different source.
    let child = admit_source(&mut q, "/raw/notes.md", Some(1)).unwrap();
    assert!(matches!(child, Admission::Enqueued { id: 3, .. }));
}

#[test]
fn admission_counts_stop_at_their_limit() {
    let mut counts = IngestResult { queued: usize::MAX, rejected: 0, errors: 0 };
    let a = Admission::Enqueued { id: 1, file_type: FileType::Text, action: IngestAction::CopyText };
    assert!(!counts.count_admission(&a));
    assert_eq!(counts.queued, usize::MAX);
    assert!(counts.count_admission(&Admission::Rejected { id: 2 }));
    assert_eq!(counts.rejected, 1);
}
