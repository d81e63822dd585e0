use ai_wiki_core::config::{ProcessConfig, WikiConfig};
use ai_wiki_core::prompt::PromptError;
use ai_wiki_core::queue::{FileType, ItemStatus, QueueItem};
use ai_wiki_core::session::{
    after_session, display_name, embed_within_limit, text_candidates, validate_session_values,
    ProcessOptions, RunTally, SessionFailure,
};

fn child(id: i64, status: ItemStatus) -> QueueItem {
    QueueItem {
        id,
        file_path: format!("c{id}.pdf"),
        file_type: FileType::Pdf,
        status,
        parent_id: Some(1),
        wiki_page_path: None,
        error_message: None,
        created_at: "2024-01-01T00:00:00+00:00".to_string(),
        started_at: None,
        completed_at: None,
    }
}

#[test]
fn session_values_are_checked_in_order() {
    let ok = WikiConfig { name: "rust".to_string(), root: "/w/rust".to_string() };
    assert!(validate_session_values(&ok).is_ok());
    let bad_root = WikiConfig { name: "bad'name".to_string(), root: "/w/$x".to_string() };
    match validate_session_values(&bad_root) {
        Err(PromptError::UnsafeCharacter { label, value, .. }) => {
            assert_eq!(label, "Wiki directory");
            assert_eq!(value, "/w/$x/wiki");
        }
        Ok(()) => panic!("expected an error"),
    }
    let bad_name = WikiConfig { name: "bad'name".to_string(), root: "/w".to_string() };
    match validate_session_values(&bad_name) {
        Err(PromptError::UnsafeCharacter { label, character, .. }) => {
            assert_eq!(label, "Wiki name");
            assert_eq!(character, '\'');
        }
        Ok(()) => panic!("expected an error"),
    }
}

#[test]
fn shown_names() {
    assert_eq!(display_name("/docs/book.pdf"), "book.pdf");
    assert_eq!(display_name("book.pdf"), "book.pdf");
    assert_eq!(display_name("/"), "/");
    assert_eq!(display_name("a/.."), "a/..");
}

#[test]
fn candidates_are_the_item_then_unrejected_children() {
    let children = vec![
        child(2, ItemStatus::Complete),
        child(3, ItemStatus::Rejected),
        child(4, ItemStatus::Queued),
    ];
    assert_eq!(text_candidates(1, &children), vec![1, 2, 4]);
    assert_eq!(text_candidates(9, &vec![]), vec![9]);
}

#[test]
fn embedding_limit() {
    assert!(embed_within_limit(&vec![]));
    assert!(embed_within_limit(&vec![250_000, 250_000]));
    assert!(!embed_within_limit(&vec![250_000, 250_001]));
    assert!(!embed_within_limit(&vec![u64::MAX, 1]));
}

#[test]
fn failures_and_their_records() {
    assert_eq!(after_session(ItemStatus::InProgress), Some(SessionFailure::NotMarkedComplete));
    assert_eq!(after_session(ItemStatus::Complete), None);
    assert_eq!(
        SessionFailure::NotMarkedComplete.message(),
        "Assistant session ended without marking item complete"
    );
    assert_eq!(SessionFailure::NoText.message(), "No processed text available");
    assert_eq!(
        SessionFailure::ReadText("gone".to_string()).message(),
        "Failed to read text: gone"
    );
    assert_eq!(
        SessionFailure::SessionFailed("exit 1".to_string()).message(),
        "Assistant session failed: exit 1"
    );
    assert_eq!(
        SessionFailure::UnsafeFilename("bad".to_string()).message(),
        "Unsafe filename: bad"
    );
}

#[test]
fn tally_counts() {
    let mut t = RunTally::new();
    t.claimed();
    t.claimed();
    t.failed();
    assert_eq!((t.processed, t.errors), (2, 1));
}

#[test]
fn options_follow_the_authentication_mode() {
    let pro = ProcessOptions::from_config(&ProcessConfig::default());
    assert!(!pro.use_api_key);
    assert!(pro.model.is_none());
    let api = ProcessOptions::from_config(&ProcessConfig {
        auth: "api".to_string(),
        model: Some("opus".to_string()),
    });
    assert!(api.use_api_key);
    assert_eq!(api.model.as_deref(), Some("opus"));
}
