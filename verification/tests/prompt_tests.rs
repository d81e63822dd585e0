use ai_wiki_core::megabytes::megabytes;
use ai_wiki_core::config::WikiConfig;
use ai_wiki_core::prompt::{build_item_prompt, build_item_prompt_on, validate_path_for_prompt, PromptError, MAX_EMBED_SIZE};
use ai_wiki_core::queue::{FileType, ItemStatus, QueueItem};

fn item(id: i64, path: &str) -> QueueItem {
    QueueItem {
        id,
        file_path: path.to_string(),
        file_type: FileType::Pdf,
        status: ItemStatus::InProgress,
        parent_id: None,
        wiki_page_path: None,
        error_message: None,
        created_at: "2024-01-01T00:00:00+00:00".to_string(),
        started_at: Some("2024-01-01T00:00:00+00:00".to_string()),
        completed_at: None,
    }
}

fn test_wiki() -> WikiConfig {
    WikiConfig {
        name: "test-wiki".to_string(),
        root: "/tmp/test-wiki".to_string(),
    }
}

fn utc_today() -> String {
    let secs = std::time::SystemTime::now()
        .duration_since(std::time::UNIX_EPOCH)
        .unwrap()
        .as_secs() as i64;
    let days = secs.div_euclid(86_400);
    // Civil date from days since 1970-01-01.
    let z = days + 719_468;
    let era = z.div_euclid(146_097);
    let doe = z - era * 146_097;
    let yoe = (doe - doe / 1460 + doe / 36_524 - doe / 146_096) / 365;
    let y = yoe + era * 400;
    let doy = doe - (365 * yoe + yoe / 4 - yoe / 100);
    let mp = (5 * doy + 2) / 153;
    let d = doy - (153 * mp + 2) / 5 + 1;
    let m = if mp < 10 { mp + 3 } else { mp - 9 };
    let y = if m <= 2 { y + 1 } else { y };
    format!("{y:04}-{m:02}-{d:02}")
}

#[test]
fn test_build_item_prompt_contains_expected_values() {
    let wiki = test_wiki();
    let item = item(42, "/tmp/source.pdf");
    let texts = vec![(42, "Sample extracted text from a PDF source document.".to_string())];
    let prompt = build_item_prompt(&wiki, &item, &texts, "source.pdf").unwrap();

    assert!(prompt.contains("Item ID:** 42"));
    assert!(prompt.contains("source.pdf"));
    assert!(prompt.contains("Pass 1: Source Summary"));
    assert!(prompt.contains("Pass 2: Concept and Claim Extraction"));
    assert!(prompt.contains("at least 5 key concepts"));
    assert!(prompt.contains("queue complete 42"));
    assert!(prompt.contains("Sample extracted text"));
    assert!(prompt.contains(&wiki.wiki_dir()));
    let today = utc_today();
    assert!(prompt.contains(&today));
    assert!(!prompt.contains("sqlite3"));
}

#[test]
fn test_build_item_prompt_includes_child_complete_commands() {
    let wiki = test_wiki();
    let item = item(10, "/tmp/book.pdf");
    let texts = vec![
        (11, "Chapter 1 content.".to_string()),
        (12, "Chapter 2 content.".to_string()),
    ];
    let prompt = build_item_prompt(&wiki, &item, &texts, "book.pdf").unwrap();

    assert!(prompt.contains("queue complete 10"));
    assert!(prompt.contains("queue complete 11"));
    assert!(prompt.contains("queue complete 12"));
    assert!(prompt.contains("book with multiple chapters"));
    assert!(prompt.contains("Chapter 1 content."));
    assert!(prompt.contains("Chapter 2 content."));
}

#[test]
fn test_build_item_prompt_large_input_uses_file_paths() {
    let wiki = test_wiki();
    let item = item(10, "/tmp/book.pdf");
    let big_text = "x".repeat(MAX_EMBED_SIZE + 1);
    let texts = vec![
        (11, big_text.clone()),
        (12, "Chapter 2 content.".to_string()),
    ];
    let prompt = build_item_prompt(&wiki, &item, &texts, "book.pdf").unwrap();

    let expected_path_11 = wiki.processed_text_path(11);
    let expected_path_12 = wiki.processed_text_path(12);
    assert!(prompt.contains(&expected_path_11), "prompt should list processed path for id 11");
    assert!(prompt.contains(&expected_path_12), "prompt should list processed path for id 12");
    assert!(!prompt.contains(&big_text), "prompt should not embed the large text inline");
    assert!(prompt.contains("too large to include inline"));
}

#[test]
fn test_build_item_prompt_empty_strings_use_file_paths() {
    let wiki = test_wiki();
    let item = item(10, "/tmp/book.pdf");
    // Simulate what gather_text returns for oversized input: entries with empty strings
    let texts = vec![(11, String::new()), (12, String::new())];
    let prompt = build_item_prompt(&wiki, &item, &texts, "book.pdf").unwrap();

    let expected_path_11 = wiki.processed_text_path(11);
    let expected_path_12 = wiki.processed_text_path(12);
    assert!(prompt.contains(&expected_path_11), "prompt should list processed path for id 11");
    assert!(prompt.contains(&expected_path_12), "prompt should list processed path for id 12");
    assert!(prompt.contains("too large to include inline"), "prompt should indicate file-path fallback");
    assert!(prompt.contains("Read these files"), "prompt should instruct the assistant to read files");
    assert!(!prompt.contains("### Part 1"), "prompt should not contain inline embed markers");
}

#[test]
fn test_validate_path_rejects_single_quote_in_wiki_name() {
    assert!(validate_path_for_prompt("my'wiki", "Wiki name").is_err());
    assert!(validate_path_for_prompt("my-wiki", "Wiki name").is_ok());
    assert!(validate_path_for_prompt("my_wiki", "Wiki name").is_ok());
}

#[test]
fn test_validate_path_rejects_unsafe_chars() {
    assert!(validate_path_for_prompt("/normal/path", "test").is_ok());
    assert!(validate_path_for_prompt("/path with spaces/ok", "test").is_ok());
    assert!(validate_path_for_prompt("/path-with_dots.toml", "test").is_ok());
    assert!(validate_path_for_prompt("/path'with/quote", "test").is_err());
    assert!(validate_path_for_prompt("/path;semicolon", "test").is_err());
    assert!(validate_path_for_prompt("/path`backtick", "test").is_err());
    assert!(validate_path_for_prompt("/path|pipe", "test").is_err());
    assert!(validate_path_for_prompt("/path$var", "test").is_err());
    assert!(validate_path_for_prompt("/path(parens)", "test").is_err());
    assert!(validate_path_for_prompt("/path{braces}", "test").is_err());
    assert!(validate_path_for_prompt("/path<angle>", "test").is_err());
    assert!(validate_path_for_prompt("/path!bang", "test").is_err());
    assert!(validate_path_for_prompt("/path#hash", "test").is_err());
}

// ─── Further cases ───────────────────────────────────────────────────────────

#[test]
fn unsafe_character_is_the_first_one_and_described() {
    match validate_path_for_prompt("a;b'c", "Wiki name") {
        Err(e) => {
            match &e {
                PromptError::UnsafeCharacter { label, character, value } => {
                    assert_eq!(label, "Wiki name");
                    assert_eq!(*character, ';');
                    assert_eq!(value, "a;b'c");
                }
            }
            assert_eq!(
                e.message(),
                "Wiki name contains unsafe character ';': a;b'c\nRename the value to remove shell metacharacters."
            );
        }
        Ok(()) => panic!("expected an error"),
    }
    let e = validate_path_for_prompt("tab\there", "x").unwrap_err();
    assert!(e.message().contains("'\\t'"));
}

#[test]
fn single_document_prompt_embeds_the_text_on_the_given_day() {
    let wiki = test_wiki();
    let item = item(5, "/tmp/a.md");
    let texts = vec![(5, "Body.".to_string())];
    let prompt = build_item_prompt_on(&wiki, &item, &texts, "a.md", "2024-02-29");
    assert!(prompt.contains("- **Wiki:** test-wiki\n"));
    assert!(prompt.contains("- **Wiki directory:** /tmp/test-wiki/wiki\n"));
    assert!(prompt.contains("This is a single document. The full text is provided below."));
    assert!(prompt.contains("### Part 1 (ID 5)\n\nBody."));
    assert!(prompt.contains("created: 2024-02-29"));
    assert!(prompt.contains("## [2024-02-29] ingest | <title>"));
    assert!(!prompt.contains("Also mark all children complete"));
    assert!(prompt.starts_with("You are building an Obsidian wiki from a source document."));
}

#[test]
fn parts_are_separated_and_children_listed() {
    let wiki = test_wiki();
    let item = item(10, "/tmp/book.pdf");
    let texts = vec![(10, "Intro.".to_string()), (11, "One.".to_string())];
    let prompt = build_item_prompt_on(&wiki, &item, &texts, "book.pdf", "2024-01-01");
    assert!(prompt.contains("### Part 1 (ID 10)\n\nIntro.\n\n---\n\n### Part 2 (ID 11)\n\nOne."));
    assert!(prompt.contains(
        "\n   Also mark all children complete:\n   ```bash\n   ai-wiki --wiki 'test-wiki' queue complete 11 \"sources/<slug>.md\"\n   ```"
    ));
}

#[test]
fn no_text_and_megabytes_notes() {
    let wiki = test_wiki();
    let it = item(3, "/tmp/x.pdf");
    let texts: Vec<(i64, String)> = vec![];
    let prompt = build_item_prompt_on(&wiki, &it, &texts, "x.pdf", "2024-01-01");
    assert!(prompt.contains("**Note:** No source text available."));
    let big = "y".repeat(1_250_000);
    let texts = vec![(3, big)];
    let prompt = build_item_prompt_on(&wiki, &it, &texts, "x.pdf", "2024-01-01");
    assert!(prompt.contains("too large to include inline (1.2MB, 1 parts)."));
    assert!(prompt.contains("This is a single document. Read the file listed below."));
    assert!(prompt.contains("  - `/tmp/test-wiki/processed/3.txt`"));
}

#[test]
fn megabytes_round_like_float_formatting() {
    assert_eq!(megabytes(650_000), "0.7");
    assert_eq!(megabytes(1_050_000), "1.1");
    assert_eq!(megabytes(250_000), "0.2");
    assert_eq!(megabytes(1_250_000), "1.2");
    assert_eq!(megabytes(0), "0.0");
    let mut cases: Vec<usize> = vec![
        1,
        49_999,
        50_000,
        50_001,
        150_000,
        350_000,
        450_000,
        750_000,
        9_950_000,
        12_345_678,
        99_999_999,
        100_000_000,
        (1usize << 53) - 1,
        1usize << 53,
        (1usize << 53) + 1,
        (1usize << 54) + 3,
        123_456_789_012_345,
        usize::MAX / 3,
        usize::MAX - 1,
        usize::MAX,
    ];
    let mut n: usize = 0;
    while n <= 30_000_000 {
        cases.push(n);
        cases.push(n + 1);
        n += 50_000;
    }
    let mut x: usize = 7;
    for _ in 0..20_000 {
        x = x.wrapping_mul(6_364_136_223_846_793_005).wrapping_add(1_442_695_040_888_963_407);
        cases.push(x);
        cases.push(x >> 20);
        cases.push(x >> 40);
    }
    for b in cases {
        assert_eq!(megabytes(b), format!("{:.1}", b as f64 / 1_000_000.0), "bytes {}", b);
    }
}
