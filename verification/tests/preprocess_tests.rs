use ai_wiki_core::preprocess::{
    chapter_file_name, chapter_plan, chapter_ranges, choose_transcript, classify_outline,
    page_range_arg, page_starts, qpdf_status_ok, split_outcome, stem_or, ChapterJob, transcript_file_name, usable_text,
    wav_file_name, ChapterPlan, OutlineEntry, PageRef, PdfClassification, ZipBudget,
    ZipLimitError, MAX_DECOMPRESSED_SIZE, MAX_ENTRIES,
};

#[test]
fn outline_makes_a_book() {
    assert_eq!(classify_outline(&vec![]), PdfClassification::Simple);
    let entries = vec![
        OutlineEntry::Destination(PageRef::Object(Some(1))),
        OutlineEntry::Other,
        OutlineEntry::Destination(PageRef::Number(9)),
    ];
    assert_eq!(classify_outline(&entries), PdfClassification::Book { chapter_count: 2 });
    assert_eq!(
        classify_outline(&vec![OutlineEntry::Other]),
        PdfClassification::Book { chapter_count: 0 }
    );
}

#[test]
fn chapter_starts_and_ranges() {
    let entries = vec![
        OutlineEntry::Destination(PageRef::Object(Some(1))),
        OutlineEntry::Destination(PageRef::Object(None)),
        OutlineEntry::Other,
        OutlineEntry::Destination(PageRef::Unreadable),
        OutlineEntry::Destination(PageRef::Number(10)),
        OutlineEntry::Destination(PageRef::Number(4_294_967_297)),
    ];
    assert_eq!(page_starts(&entries), vec![1, 10, 1]);
    assert_eq!(chapter_ranges(&vec![1, 10, 25], 40), vec![(1, 9), (10, 24), (25, 40)]);
    assert_eq!(chapter_ranges(&vec![0, 0], 5), vec![(0, 0), (0, 5)]);
    assert_eq!(page_range_arg(10, 24), "10-24");
}

#[test]
fn chapter_files_are_numbered_from_one() {
    assert_eq!(chapter_file_name("book", 0), "book_chapter_001.pdf");
    assert_eq!(chapter_file_name("book", 41), "book_chapter_042.pdf");
    assert_eq!(chapter_file_name("book", 999), "book_chapter_1000.pdf");
}

#[test]
fn plans() {
    assert!(matches!(chapter_plan(&vec![], 10, "b"), ChapterPlan::Whole));
    assert!(matches!(
        chapter_plan(&vec![OutlineEntry::Other], 10, "b"),
        ChapterPlan::Whole
    ));
    let entries = vec![
        OutlineEntry::Destination(PageRef::Object(Some(1))),
        OutlineEntry::Destination(PageRef::Object(Some(6))),
    ];
    match chapter_plan(&entries, 10, "book") {
        ChapterPlan::Split(jobs) => {
            assert_eq!(jobs.len(), 2);
            assert_eq!((jobs[0].start, jobs[0].end), (1, 5));
            assert_eq!((jobs[1].start, jobs[1].end), (6, 10));
            assert_eq!(jobs[1].file_name, "book_chapter_002.pdf");
        }
        ChapterPlan::Whole => panic!("expected chapters"),
    }
}

#[test]
fn stems_and_names() {
    assert_eq!(stem_or("/docs/book.pdf", "chapter"), "book");
    assert_eq!(stem_or("/docs/archive.tar.gz", "chapter"), "archive.tar");
    assert_eq!(stem_or("/docs/.hidden", "chapter"), ".hidden");
    assert_eq!(stem_or("/docs/noext", "chapter"), "noext");
    assert_eq!(stem_or("/", "chapter"), "chapter");
    assert_eq!(wav_file_name("talk"), "talk.wav");
    assert_eq!(transcript_file_name(Some("talk.wav")), "talk.wav.txt");
    assert_eq!(transcript_file_name(None), "audio.wav.txt");
}

#[test]
fn kept_text() {
    assert!(usable_text(" a "));
    assert!(!usable_text(" \n\t "));
    assert!(!usable_text(""));
    assert_eq!(
        choose_transcript(Some("side".to_string()), "printed".to_string()),
        Some("side".to_string())
    );
    assert_eq!(choose_transcript(None, "printed".to_string()), Some("printed".to_string()));
    assert_eq!(choose_transcript(None, "   ".to_string()), None);
}

#[test]
fn archive_budget() {
    let mut b = ZipBudget::new();
    assert_eq!(b.record_entry(10), Ok(()));
    assert_eq!((b.total_bytes, b.entries), (10, 1));
    assert_eq!(b.record_entry(MAX_DECOMPRESSED_SIZE), Err(ZipLimitError::TooLarge));
    let mut b = ZipBudget { total_bytes: 0, entries: MAX_ENTRIES - 1 };
    assert_eq!(b.record_entry(1), Err(ZipLimitError::TooManyEntries));
    assert_eq!(
        ZipLimitError::TooLarge.message(),
        "ZIP extraction aborted: decompressed size exceeds 1073741824 bytes"
    );
    assert_eq!(
        ZipLimitError::TooManyEntries.message(),
        "ZIP extraction aborted: 10000 or more entries"
    );
}

#[test]
fn qpdf_warnings_still_count_as_written() {
    assert!(qpdf_status_ok(Some(0)));
    assert!(qpdf_status_ok(Some(3)));
    assert!(!qpdf_status_ok(Some(2)));
    assert!(!qpdf_status_ok(Some(1)));
    assert!(!qpdf_status_ok(None));
}

#[test]
fn split_with_qpdf_warnings_lists_every_chapter() {
    let jobs: Vec<ChapterJob> = (1..=3u32)
        .map(|i| ChapterJob {
            start: i * 10,
            end: i * 10 + 9,
            file_name: format!("book_chapter_{:03}.pdf", i),
        })
        .collect();
    let all_warned = vec![Some(3), Some(3), Some(3)];
    assert_eq!(
        split_outcome("/out", &jobs, &all_warned).unwrap(),
        vec![
            "/out/book_chapter_001.pdf".to_string(),
            "/out/book_chapter_002.pdf".to_string(),
            "/out/book_chapter_003.pdf".to_string(),
        ]
    );
    assert_eq!(split_outcome("/out/", &jobs, &vec![Some(0), Some(3), Some(0)]).unwrap()[0], "/out/book_chapter_001.pdf");
    assert_eq!(split_outcome("/out", &jobs, &vec![Some(0), Some(2)]), Err(1));
    assert_eq!(split_outcome("/out", &jobs, &vec![Some(0)]), Err(1));
    assert_eq!(split_outcome("/out", &jobs, &vec![None]), Err(0));
}
