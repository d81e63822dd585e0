use ai_wiki_core::queue::{FileType, ItemStatus, Queue, QueueError, QueueItem};

fn make_queue() -> Queue {
    Queue::open_in_memory().expect("in-memory queue")
}

#[test]
fn test_enqueue_and_get() {
    let mut q = make_queue();
    let id = q.enqueue("docs/readme.md", FileType::Markdown, None).unwrap();
    assert_eq!(id, 1);

    let item = q.get_item(id).unwrap();
    assert_eq!(item.id, 1);
    assert_eq!(item.file_path, "docs/readme.md");
    assert_eq!(item.file_type, FileType::Markdown);
    assert_eq!(item.status, ItemStatus::Queued);
    assert!(item.parent_id.is_none());
    assert!(item.wiki_page_path.is_none());
    assert!(item.error_message.is_none());
    assert!(item.started_at.is_none());
    assert!(item.completed_at.is_none());
}

#[test]
fn test_enqueue_with_parent() {
    let mut q = make_queue();
    let parent_id = q.enqueue("archive.zip", FileType::Zip, None).unwrap();
    let child_id = q
        .enqueue("archive/file.txt", FileType::Text, Some(parent_id))
        .unwrap();

    let child = q.get_item(child_id).unwrap();
    assert_eq!(child.parent_id, Some(parent_id));
}

#[test]
fn test_get_next_queued() {
    let mut q = make_queue();

    // Empty queue returns None.
    let next = q.get_next_queued().unwrap();
    assert!(next.is_none());

    // Enqueue two items; oldest should come back first.
    let id1 = q.enqueue("a.txt", FileType::Text, None).unwrap();
    let id2 = q.enqueue("b.txt", FileType::Text, None).unwrap();

    let next = q.get_next_queued().unwrap().unwrap();
    assert_eq!(next.id, id1);

    // After marking the first in_progress the second becomes next.
    q.mark_in_progress(id1).unwrap();
    let next = q.get_next_queued().unwrap().unwrap();
    assert_eq!(next.id, id2);
}

#[test]
fn test_status_transitions() {
    let mut q = make_queue();
    let id = q.enqueue("doc.md", FileType::Markdown, None).unwrap();

    q.mark_in_progress(id).unwrap();
    let item = q.get_item(id).unwrap();
    assert_eq!(item.status, ItemStatus::InProgress);
    assert!(item.started_at.is_some());

    q.mark_complete(id, "wiki/doc.md").unwrap();
    let item = q.get_item(id).unwrap();
    assert_eq!(item.status, ItemStatus::Complete);
    assert_eq!(item.wiki_page_path.as_deref(), Some("wiki/doc.md"));
    assert!(item.completed_at.is_some());
}

#[test]
fn test_mark_rejected() {
    let mut q = make_queue();
    let id = q.enqueue("sensitive.pdf", FileType::Pdf, None).unwrap();
    q.mark_rejected(id, "sensitive filename").unwrap();

    let item = q.get_item(id).unwrap();
    assert_eq!(item.status, ItemStatus::Rejected);
    assert_eq!(item.error_message.as_deref(), Some("sensitive filename"));
    assert!(item.completed_at.is_some());
}

#[test]
fn test_mark_error() {
    let mut q = make_queue();
    let id = q.enqueue("corrupt.pdf", FileType::Pdf, None).unwrap();
    q.mark_error(id, "failed to parse PDF").unwrap();

    let item = q.get_item(id).unwrap();
    assert_eq!(item.status, ItemStatus::Error);
    assert_eq!(item.error_message.as_deref(), Some("failed to parse PDF"));
    assert!(item.completed_at.is_some());
}

#[test]
fn test_list_items_all() {
    let mut q = make_queue();
    q.enqueue("a.md", FileType::Markdown, None).unwrap();
    q.enqueue("b.txt", FileType::Text, None).unwrap();

    let items = q.list_items(None).unwrap();
    assert_eq!(items.len(), 2);
}

#[test]
fn test_list_items_filtered() {
    let mut q = make_queue();
    let id1 = q.enqueue("a.md", FileType::Markdown, None).unwrap();
    q.enqueue("b.txt", FileType::Text, None).unwrap();
    q.mark_in_progress(id1).unwrap();

    let queued = q.list_items(Some(&ItemStatus::Queued)).unwrap();
    assert_eq!(queued.len(), 1);
    assert_eq!(queued[0].file_path, "b.txt");

    let in_progress = q.list_items(Some(&ItemStatus::InProgress)).unwrap();
    assert_eq!(in_progress.len(), 1);
    assert_eq!(in_progress[0].id, id1);
}

#[test]
fn test_reset_in_progress() {
    let mut q = make_queue();
    let id1 = q.enqueue("a.md", FileType::Markdown, None).unwrap();
    let id2 = q.enqueue("b.md", FileType::Markdown, None).unwrap();
    q.mark_in_progress(id1).unwrap();
    q.mark_in_progress(id2).unwrap();

    let reset = q.reset_in_progress().unwrap();
    assert_eq!(reset, 2);

    let item = q.get_item(id1).unwrap();
    assert_eq!(item.status, ItemStatus::Queued);
    assert!(item.started_at.is_none());
}

#[test]
fn test_children_and_completion_check() {
    let mut q = make_queue();
    let parent_id = q.enqueue("archive.zip", FileType::Zip, None).unwrap();
    let c1 = q
        .enqueue("archive/a.txt", FileType::Text, Some(parent_id))
        .unwrap();
    let c2 = q
        .enqueue("archive/b.txt", FileType::Text, Some(parent_id))
        .unwrap();

    let children = q.children_of(parent_id).unwrap();
    assert_eq!(children.len(), 2);

    assert!(!q.all_children_complete(parent_id).unwrap());

    q.mark_in_progress(c1).unwrap();
    q.mark_complete(c1, "wiki/a.md").unwrap();
    assert!(!q.all_children_complete(parent_id).unwrap());

    q.mark_in_progress(c2).unwrap();
    q.mark_complete(c2, "wiki/b.md").unwrap();
    assert!(q.all_children_complete(parent_id).unwrap());
}

#[test]
fn test_count_by_status() {
    let mut q = make_queue();
    let id1 = q.enqueue("a.md", FileType::Markdown, None).unwrap();
    let id2 = q.enqueue("b.md", FileType::Markdown, None).unwrap();
    q.enqueue("c.md", FileType::Markdown, None).unwrap();

    q.mark_in_progress(id1).unwrap();
    q.mark_complete(id1, "wiki/a.md").unwrap();
    q.mark_in_progress(id2).unwrap();
    q.mark_error(id2, "oops").unwrap();

    let counts = q.count_by_status().unwrap();
    let as_map: std::collections::HashMap<_, _> = counts.into_iter().collect();
    assert_eq!(as_map.get("queued").copied(), Some(1));
    assert_eq!(as_map.get("complete").copied(), Some(1));
    assert_eq!(as_map.get("error").copied(), Some(1));
}

#[test]
fn test_mark_nonexistent_item_returns_error() {
    let mut q = make_queue();

    let result = q.mark_in_progress(999);
    assert!(matches!(result, Err(QueueError::NotFound(999))));

    let result = q.mark_complete(999, "wiki/x.md");
    assert!(matches!(result, Err(QueueError::NotFound(999))));

    let result = q.mark_rejected(999, "reason");
    assert!(matches!(result, Err(QueueError::NotFound(999))));

    let result = q.mark_error(999, "msg");
    assert!(matches!(result, Err(QueueError::NotFound(999))));

    let result = q.get_item(999);
    assert!(matches!(result, Err(QueueError::NotFound(999))));
}

#[test]
fn test_is_already_enqueued() {
    let mut q = make_queue();
    assert!(!q.is_already_enqueued("a.txt", None).unwrap());

    q.enqueue("a.txt", FileType::Text, None).unwrap();
    assert!(q.is_already_enqueued("a.txt", None).unwrap());

    // Same path with different parent is not a duplicate
    let parent = q.enqueue("archive.zip", FileType::Zip, None).unwrap();
    assert!(!q.is_already_enqueued("a.txt", Some(parent)).unwrap());

    q.enqueue("a.txt", FileType::Text, Some(parent)).unwrap();
    assert!(q.is_already_enqueued("a.txt", Some(parent)).unwrap());
}

#[test]
fn test_duplicate_enqueue_rejected_by_unique_index() {
    let mut q = make_queue();
    q.enqueue("a.txt", FileType::Text, None).unwrap();
    let result = q.enqueue("a.txt", FileType::Text, None);
    assert!(result.is_err()); // UNIQUE constraint violation
}

// ─── Further cases ───────────────────────────────────────────────────────────

#[test]
fn status_and_type_names_round_trip() {
    for s in [
        ItemStatus::Queued,
        ItemStatus::InProgress,
        ItemStatus::Complete,
        ItemStatus::Rejected,
        ItemStatus::Error,
    ] {
        assert_eq!(ItemStatus::parse(s.as_str()), Some(s));
    }
    assert_eq!(ItemStatus::InProgress.as_str(), "in_progress");
    assert_eq!(ItemStatus::parse("done"), None);
    for t in [
        FileType::Markdown,
        FileType::Text,
        FileType::Pdf,
        FileType::Zip,
        FileType::Audio,
        FileType::Video,
        FileType::Unknown,
    ] {
        assert_eq!(FileType::parse(t.as_str()), t);
    }
    assert_eq!(FileType::parse("exe"), FileType::Unknown);
}

#[test]
fn invalid_transitions_are_refused_and_change_nothing() {
    let mut q = make_queue();
    let id = q.enqueue("a.md", FileType::Markdown, None).unwrap();
    match q.mark_complete(id, "wiki/a.md") {
        Err(QueueError::InvalidTransition { id: x, expected, actual }) => {
            assert_eq!(x, id);
            assert_eq!(expected, "in_progress");
            assert_eq!(actual, "queued");
        }
        other => panic!("unexpected: {other:?}"),
    }
    assert_eq!(q.get_item(id).unwrap().status, ItemStatus::Queued);
    q.mark_in_progress(id).unwrap();
    let err = q.mark_in_progress(id).unwrap_err();
    assert_eq!(
        err.message(),
        format!("invalid status transition for item {id}: expected queued, got in_progress")
    );
    let err = q.mark_rejected(id, "no").unwrap_err();
    assert!(matches!(err, QueueError::InvalidTransition { .. }));
}

#[test]
fn claim_takes_oldest_queued_and_starts_it() {
    let mut q = make_queue();
    assert!(q.claim_next_queued().unwrap().is_none());
    let a = q.enqueue("a.md", FileType::Markdown, None).unwrap();
    let b = q.enqueue("b.md", FileType::Markdown, None).unwrap();
    let item = q.claim_next_queued().unwrap().unwrap();
    assert_eq!(item.id, a);
    assert_eq!(item.status, ItemStatus::InProgress);
    assert!(item.started_at.is_some());
    assert_eq!(q.get_item(a).unwrap().status, ItemStatus::InProgress);
    assert_eq!(q.claim_next_queued().unwrap().unwrap().id, b);
    assert!(q.claim_next_queued().unwrap().is_none());
}

#[test]
fn claim_of_parents_skips_children() {
    let mut q = make_queue();
    let book = q.enqueue("book.pdf", FileType::Pdf, None).unwrap();
    q.enqueue("ch1.pdf", FileType::Pdf, Some(book)).unwrap();
    let other = q.enqueue("other.md", FileType::Markdown, None).unwrap();
    assert_eq!(q.count_queued_parents().unwrap(), 2);
    assert_eq!(q.claim_next_queued_parent().unwrap().unwrap().id, book);
    assert_eq!(q.claim_next_queued_parent().unwrap().unwrap().id, other);
    assert!(q.claim_next_queued_parent().unwrap().is_none());
    assert_eq!(q.count_queued_parents().unwrap(), 0);
}

#[test]
fn timestamps_are_taken_from_the_given_clock() {
    let mut q = make_queue();
    let id = q
        .enqueue_at("a.md", FileType::Markdown, None, "2024-01-01T00:00:00+00:00")
        .unwrap();
    q.mark_in_progress_at(id, "2024-01-01T00:00:01+00:00").unwrap();
    q.mark_complete_at(id, "sources/a.md", "2024-01-01T00:00:02+00:00")
        .unwrap();
    let item = q.get_item(id).unwrap();
    assert_eq!(item.created_at, "2024-01-01T00:00:00+00:00");
    assert_eq!(item.started_at.as_deref(), Some("2024-01-01T00:00:01+00:00"));
    assert_eq!(item.completed_at.as_deref(), Some("2024-01-01T00:00:02+00:00"));
}

#[test]
fn wall_clock_timestamps_are_rfc3339() {
    let mut q = make_queue();
    let id = q.enqueue("a.md", FileType::Markdown, None).unwrap();
    let item = q.get_item(id).unwrap();
    assert!(item.created_at.len() >= 20);
    assert_eq!(&item.created_at[4..5], "-");
    assert_eq!(&item.created_at[10..11], "T");
}

#[test]
fn requeue_puts_failed_items_back() {
    let mut q = make_queue();
    let a = q.enqueue("a.md", FileType::Markdown, None).unwrap();
    let b = q.enqueue("b.md", FileType::Markdown, None).unwrap();
    let c = q.enqueue("c.md", FileType::Markdown, None).unwrap();
    q.mark_error(a, "boom").unwrap();
    q.mark_rejected(b, "no").unwrap();
    q.requeue_item(a).unwrap();
    q.requeue_item(b).unwrap();
    let item = q.get_item(a).unwrap();
    assert_eq!(item.status, ItemStatus::Queued);
    assert!(item.error_message.is_none());
    assert!(item.completed_at.is_none());
    let err = q.requeue_item(c).unwrap_err();
    match err {
        QueueError::InvalidTransition { expected, actual, .. } => {
            assert_eq!(expected, "error or rejected");
            assert_eq!(actual, "queued");
        }
        other => panic!("unexpected: {other:?}"),
    }
    assert!(matches!(q.requeue_item(99), Err(QueueError::NotFound(99))));
}

#[test]
fn requeue_items_counts_only_errored() {
    let mut q = make_queue();
    let a = q.enqueue("a.md", FileType::Markdown, None).unwrap();
    let b = q.enqueue("b.md", FileType::Markdown, None).unwrap();
    let c = q.enqueue("c.md", FileType::Markdown, None).unwrap();
    q.mark_error(a, "x").unwrap();
    q.mark_rejected(b, "y").unwrap();
    let n = q.requeue_items(&[a, b, c, 42, a]).unwrap();
    assert_eq!(n, 1);
    assert_eq!(q.get_item(a).unwrap().status, ItemStatus::Queued);
    assert_eq!(q.get_item(b).unwrap().status, ItemStatus::Rejected);
}

#[test]
fn delete_errors_counts_tops_and_children() {
    let mut q = make_queue();
    let top = q.enqueue("a.zip", FileType::Zip, None).unwrap();
    let child = q.enqueue("a/x.md", FileType::Markdown, Some(top)).unwrap();
    let ok = q.enqueue("b.md", FileType::Markdown, None).unwrap();
    q.mark_error(top, "bad").unwrap();
    q.mark_error(child, "bad").unwrap();
    assert_eq!(q.delete_errors().unwrap(), (1, 1));
    assert!(q.get_item(top).is_err());
    assert!(q.get_item(child).is_err());
    assert!(q.get_item(ok).is_ok());
    assert_eq!(q.delete_errors().unwrap(), (0, 0));
}

#[test]
fn complete_item_reports_siblings() {
    let mut q = make_queue();
    let lone = q.enqueue("lone.md", FileType::Markdown, None).unwrap();
    q.mark_in_progress(lone).unwrap();
    assert!(q.complete_item(lone, "sources/lone.md").unwrap());

    let book = q.enqueue("book.pdf", FileType::Pdf, None).unwrap();
    let c1 = q.enqueue("c1.pdf", FileType::Pdf, Some(book)).unwrap();
    let c2 = q.enqueue("c2.pdf", FileType::Pdf, Some(book)).unwrap();
    q.mark_in_progress(c1).unwrap();
    q.mark_in_progress(c2).unwrap();
    assert!(!q.complete_item(c1, "sources/c1.md").unwrap());
    assert!(q.complete_item(c2, "sources/c2.md").unwrap());
    assert_eq!(
        q.get_item(c2).unwrap().wiki_page_path.as_deref(),
        Some("sources/c2.md")
    );
    assert!(matches!(
        q.complete_item(c2, "again"),
        Err(QueueError::InvalidTransition { .. })
    ));
}

#[test]
fn rows_reload_into_an_equal_queue() {
    let mut q = make_queue();
    let a = q.enqueue("a.md", FileType::Markdown, None).unwrap();
    q.enqueue("b.md", FileType::Markdown, Some(a)).unwrap();
    let rows: Vec<QueueItem> = q.rows();
    let mut again = Queue::from_rows(rows, q.next_id()).unwrap();
    assert_eq!(again.list_items(None).unwrap().len(), 2);
    assert_eq!(again.enqueue("c.md", FileType::Markdown, None).unwrap(), 3);
    // Rows out of id order are refused.
    let mut rows = q.rows();
    rows.reverse();
    assert!(Queue::from_rows(rows, q.next_id()).is_none());
    // A next id that is not above every row is refused.
    let rows = q.rows();
    assert!(Queue::from_rows(rows, 2).is_none());
}

#[test]
fn error_messages_match_their_kind() {
    assert_eq!(QueueError::NotFound(7).message(), "item not found: 7");
    assert_eq!(
        QueueError::InvalidStatus("x".to_string()).message(),
        "invalid status: x"
    );
    assert_eq!(
        QueueError::AlreadyEnqueued("a.txt".to_string()).message(),
        "file already enqueued: a.txt"
    );
    assert_eq!(
        QueueError::Database("locked".to_string()).message(),
        "database error: locked"
    );
}

#[test]
fn next_queued_is_the_row_created_first() {
    let mut q = make_queue();
    let late = q
        .enqueue_at("late.txt", FileType::Text, None, "2026-01-02T00:00:00+00:00")
        .unwrap();
    let early = q
        .enqueue_at("early.txt", FileType::Text, None, "2026-01-01T00:00:00+00:00")
        .unwrap();
    assert_eq!((late, early), (1, 2));
    assert_eq!(q.get_next_queued().unwrap().unwrap().id, early);
    let listed: Vec<i64> = q.list_items(None).unwrap().iter().map(|it| it.id).collect();
    assert_eq!(listed, vec![early, late]);
    let queued: Vec<i64> = q
        .list_items(Some(&ItemStatus::Queued))
        .unwrap()
        .iter()
        .map(|it| it.id)
        .collect();
    assert_eq!(queued, vec![early, late]);
    let claimed = q.claim_next_queued_at("2026-01-03T00:00:00+00:00").unwrap().unwrap();
    assert_eq!(claimed.id, early);
    assert_eq!(claimed.started_at.as_deref(), Some("2026-01-03T00:00:00+00:00"));
    let parent = q.claim_next_queued_parent_at("2026-01-04T00:00:00+00:00").unwrap().unwrap();
    assert_eq!(parent.id, late);
    assert!(q.get_next_queued().unwrap().is_none());
    // Persisted rows stay in id order.
    let ids: Vec<i64> = q.rows().iter().map(|it| it.id).collect();
    assert_eq!(ids, vec![1, 2]);
}

#[test]
fn rows_created_together_come_in_id_order() {
    let mut q = make_queue();
    let p = q
        .enqueue_at("box.zip", FileType::Zip, None, "2026-01-01T00:00:00+00:00")
        .unwrap();
    let c1 = q
        .enqueue_at("box/b.txt", FileType::Text, Some(p), "2026-01-05T00:00:00+00:00")
        .unwrap();
    let c2 = q
        .enqueue_at("box/a.txt", FileType::Text, Some(p), "2026-01-03T00:00:00+00:00")
        .unwrap();
    let c3 = q
        .enqueue_at("box/c.txt", FileType::Text, Some(p), "2026-01-03T00:00:00+00:00")
        .unwrap();
    let children: Vec<i64> = q.children_of(p).unwrap().iter().map(|it| it.id).collect();
    assert_eq!(children, vec![c2, c3, c1]);
    q.mark_in_progress_at(p, "2026-01-06T00:00:00+00:00").unwrap();
    assert_eq!(q.get_next_queued().unwrap().unwrap().id, c2);
    assert!(q.claim_next_queued_parent_at("2026-01-06T00:00:00+00:00").unwrap().is_none());
}

fn is_rfc3339_utc(t: &str) -> bool {
    let b = t.as_bytes();
    let digits = |r: std::ops::Range<usize>| b[r].iter().all(|c| c.is_ascii_digit());
    t.len() >= 25
        && digits(0..4)
        && b[4] == b'-'
        && digits(5..7)
        && b[7] == b'-'
        && digits(8..10)
        && b[10] == b'T'
        && digits(11..13)
        && b[13] == b':'
        && digits(14..16)
        && b[16] == b':'
        && digits(17..19)
        && t.ends_with("+00:00")
        && {
            let frac = &t[19..t.len() - 6];
            frac.is_empty()
                || (frac.starts_with('.')
                    && [4, 7, 10].contains(&frac.len())
                    && frac[1..].bytes().all(|c| c.is_ascii_digit()))
        }
}

#[test]
fn recorded_times_are_utc_rfc3339() {
    let mut q = make_queue();
    let id = q.enqueue("a.md", FileType::Markdown, None).unwrap();
    let item = q.get_item(id).unwrap();
    assert!(is_rfc3339_utc(&item.created_at), "{}", item.created_at);
    let claimed = q.claim_next_queued().unwrap().unwrap();
    assert!(is_rfc3339_utc(claimed.started_at.as_deref().unwrap()));
    q.mark_complete(id, "sources/a.md").unwrap();
    let done = q.get_item(id).unwrap();
    assert!(is_rfc3339_utc(done.completed_at.as_deref().unwrap()));
}
