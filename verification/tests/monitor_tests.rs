use ai_wiki_core::monitor::{Key, Monitor, MonitorAction, MAX_DETAIL_SCROLL};
use ai_wiki_core::queue::{FileType, ItemStatus, QueueItem};

fn row(id: i64, status: ItemStatus) -> QueueItem {
    QueueItem {
        id,
        file_path: format!("f{id}.md"),
        file_type: FileType::Markdown,
        status,
        parent_id: None,
        wiki_page_path: None,
        error_message: None,
        created_at: "2024-01-01T00:00:00+00:00".to_string(),
        started_at: None,
        completed_at: None,
    }
}

#[test]
fn arrows_move_the_selection_within_the_table() {
    let items = vec![row(1, ItemStatus::Queued), row(2, ItemStatus::Queued), row(3, ItemStatus::Queued)];
    let mut m = Monitor::new();
    assert!(m.refresh_due);
    m.on_refresh(items.len());
    assert!(!m.refresh_due);
    assert_eq!(m.selected, None);
    assert_eq!(m.on_key(Key::Down, &items), MonitorAction::Stay);
    assert_eq!(m.selected, Some(0));
    m.on_key(Key::Down, &items);
    m.on_key(Key::Down, &items);
    m.on_key(Key::Down, &items);
    assert_eq!(m.selected, Some(2));
    m.on_key(Key::Up, &items);
    assert_eq!(m.selected, Some(1));
    m.on_key(Key::Up, &items);
    m.on_key(Key::Up, &items);
    assert_eq!(m.selected, Some(0));
    let mut fresh = Monitor::new();
    fresh.on_key(Key::Up, &items);
    assert_eq!(fresh.selected, Some(0));
    let empty: Vec<QueueItem> = vec![];
    let mut e = Monitor::new();
    e.on_key(Key::Down, &empty);
    e.on_key(Key::Up, &empty);
    assert_eq!(e.selected, None);
}

#[test]
fn refresh_follows_a_shorter_list() {
    let mut m = Monitor::new();
    m.selected = Some(5);
    m.on_refresh(3);
    assert_eq!(m.selected, Some(2));
    m.on_refresh(0);
    assert_eq!(m.selected, None);
}

#[test]
fn enter_opens_only_finished_items() {
    let items = vec![row(1, ItemStatus::Queued), row(2, ItemStatus::Error)];
    let mut m = Monitor::new();
    m.selected = Some(0);
    m.on_key(Key::Enter, &items);
    assert!(m.detail.is_none());
    m.selected = Some(1);
    m.scroll = 9;
    m.on_key(Key::Enter, &items);
    assert_eq!(m.detail.as_ref().map(|d| d.id), Some(2));
    assert_eq!(m.scroll, 0);
    // Scrolling inside the detail.
    m.on_key(Key::Up, &items);
    assert_eq!(m.scroll, 0);
    for _ in 0..600 {
        m.on_key(Key::Down, &items);
    }
    assert_eq!(m.scroll, MAX_DETAIL_SCROLL);
    // Leaving the detail asks for a reload.
    m.refresh_due = false;
    assert_eq!(m.on_key(Key::Esc, &items), MonitorAction::Stay);
    assert!(m.detail.is_none());
    assert!(m.refresh_due);
}

#[test]
fn retry_asks_for_requeue_of_failed_items_only() {
    let items = vec![row(1, ItemStatus::Complete), row(2, ItemStatus::Rejected)];
    let mut m = Monitor::new();
    m.selected = Some(0);
    assert_eq!(m.on_key(Key::Retry, &items), MonitorAction::Stay);
    m.selected = Some(1);
    m.refresh_due = false;
    assert_eq!(m.on_key(Key::Retry, &items), MonitorAction::Requeue(2));
    assert!(m.refresh_due);
    // From the detail view the retry also closes it.
    m.on_key(Key::Enter, &items);
    assert!(m.detail.is_some());
    assert_eq!(m.on_key(Key::Retry, &items), MonitorAction::Requeue(2));
    assert!(m.detail.is_none());
}

#[test]
fn quit_and_refresh_keys() {
    let items = vec![row(1, ItemStatus::Complete)];
    let mut m = Monitor::new();
    m.refresh_due = false;
    assert_eq!(m.on_key(Key::Refresh, &items), MonitorAction::Stay);
    assert!(m.refresh_due);
    assert_eq!(m.on_key(Key::Quit, &items), MonitorAction::Quit);
    assert_eq!(m.on_key(Key::Esc, &items), MonitorAction::Quit);
    assert_eq!(m.on_key(Key::Other, &items), MonitorAction::Stay);
    // In the detail view `q` goes back instead of quitting.
    m.selected = Some(0);
    m.on_key(Key::Enter, &items);
    assert_eq!(m.on_key(Key::Quit, &items), MonitorAction::Stay);
    assert!(m.detail.is_none());
}
