use ai_wiki_core::queue::{FileType, ItemStatus, Queue, QueueError, QueueItem};
use ai_wiki_core::report::{
    claim_line, clear_summary, detail_section, detail_title, done_summary, format_counts,
    lookup_count, marked_message, requeue_message, retry_summary, retryable_ids, status_filter,
    ClaimLineError,
};

fn row(id: i64, path: &str, parent: Option<i64>) -> QueueItem {
    QueueItem {
        id,
        file_path: path.to_string(),
        file_type: FileType::Pdf,
        status: ItemStatus::InProgress,
        parent_id: parent,
        wiki_page_path: None,
        error_message: None,
        created_at: "2024-01-01T00:00:00+00:00".to_string(),
        started_at: None,
        completed_at: None,
    }
}

#[test]
fn status_line_reports_counts_of_the_queue() {
    let mut q = Queue::open_in_memory().unwrap();
    let a = q.enqueue("a.md", FileType::Markdown, None).unwrap();
    let b = q.enqueue("b.md", FileType::Markdown, None).unwrap();
    q.enqueue("c.md", FileType::Markdown, None).unwrap();
    q.mark_in_progress(a).unwrap();
    q.mark_error(b, "x").unwrap();
    let counts = q.count_by_status().unwrap();
    assert_eq!(
        counts,
        vec![
            ("error".to_string(), 1),
            ("in_progress".to_string(), 1),
            ("queued".to_string(), 1)
        ]
    );
    assert_eq!(
        format_counts(&counts),
        "Queued: 1 | In Progress: 1 | Complete: 0 | Rejected: 0 | Error: 1"
    );
    assert_eq!(lookup_count(&counts, "complete"), 0);
    assert_eq!(
        done_summary(2, 1, &counts),
        "Done. Processed 2 item(s), 1 error(s).\nQueue status: 0 complete, 1 queued, 1 error, 0 rejected"
    );
}

#[test]
fn first_entry_of_a_name_counts() {
    let counts = vec![("queued".to_string(), 4), ("queued".to_string(), 9)];
    assert_eq!(lookup_count(&counts, "queued"), 4);
}

#[test]
fn claim_lines() {
    assert_eq!(claim_line(None).unwrap(), "EMPTY");
    assert_eq!(claim_line(Some(&row(7, "/docs/a.pdf", None))).unwrap(), "7\t/docs/a.pdf\tpdf\tnone");
    assert_eq!(claim_line(Some(&row(8, "/docs/b.pdf", Some(7)))).unwrap(), "8\t/docs/b.pdf\tpdf\t7");
    let err = claim_line(Some(&row(9, "/docs/a\tb.pdf", None))).unwrap_err();
    assert_eq!(err, ClaimLineError::TabInPath("/docs/a\tb.pdf".to_string()));
    assert_eq!(
        err.message(),
        "Claimed file path contains a tab character, which would break the tab-delimited output format: \"/docs/a\\tb.pdf\""
    );
}

#[test]
fn queue_command_acknowledgements() {
    assert_eq!(marked_message(3, true), "Marked item 3 as complete.");
    assert_eq!(marked_message(4, false), "Marked item 4 as error.");
}

#[test]
fn retry_and_clear_reports() {
    let items = vec![row(1, "a", None), row(2, "b", None), row(3, "c", None)];
    assert_eq!(retryable_ids(&items, &vec![true, false, true]), vec![1, 3]);
    assert_eq!(
        retry_summary(2, 3),
        "Retry: 2 item(s) requeued, 1 skipped (no processed text or already changed)."
    );
    assert_eq!(
        retry_summary(3, 2),
        "Retry: 3 item(s) requeued, 0 skipped (no processed text or already changed)."
    );
    assert_eq!(clear_summary(2, 0), "Cleared 2 errored item(s) from the queue.");
    assert_eq!(
        clear_summary(2, 3),
        "Cleared 5 item(s) from the queue (2 errored + 3 errored children)."
    );
}

#[test]
fn monitor_messages() {
    assert_eq!(requeue_message(5, &Ok(())), "Item 5 requeued");
    assert_eq!(
        requeue_message(6, &Err(QueueError::NotFound(6))),
        "Retry failed for item 6: item not found: 6"
    );
    assert_eq!(detail_title(12, ItemStatus::InProgress), " Item 12 — IN_PROGRESS ");
    assert_eq!(detail_title(1, ItemStatus::Error), " Item 1 — ERROR ");
    assert_eq!(
        detail_section(ItemStatus::Error),
        Some(("ERROR DETAILS", "No error message recorded."))
    );
    assert_eq!(
        detail_section(ItemStatus::Rejected),
        Some(("REJECTION REASON", "No rejection reason recorded."))
    );
    assert_eq!(
        detail_section(ItemStatus::Complete),
        Some(("SOURCE SUMMARY", "No wiki page path recorded."))
    );
    assert_eq!(detail_section(ItemStatus::Queued), None);
}

#[test]
fn status_filters() {
    assert_eq!(status_filter(None), Ok(None));
    assert_eq!(status_filter(Some("rejected")), Ok(Some(ItemStatus::Rejected)));
    assert_eq!(status_filter(Some("done")), Err("Invalid status: done".to_string()));
}
