use ai_wiki_core::pages::{page_entry, sort_pages, PageEntry};
use ai_wiki_core::wiki::{Wiki, WikiError};

#[test]
fn pages_resolve_under_the_root() {
    let wiki = Wiki::new("/w/wiki".to_string());
    assert_eq!(wiki.root(), "/w/wiki");
    assert_eq!(wiki.safe_resolve("entities/rust.md").unwrap(), "/w/wiki/entities/rust.md");
    assert_eq!(wiki.safe_resolve("index.md").unwrap(), "/w/wiki/index.md");
    assert_eq!(wiki.safe_resolve("./a/./b.md").unwrap(), "/w/wiki/./a/./b.md");
}

#[test]
fn traversal_is_refused() {
    let wiki = Wiki::new("/w/wiki".to_string());
    match wiki.safe_resolve("../../etc/passwd") {
        Err(e) => {
            assert!(matches!(e, WikiError::PathTraversal(_)));
            assert!(e.message().contains("traversal"));
            assert_eq!(e.message(), "path traversal rejected: ../../etc/passwd");
        }
        Ok(p) => panic!("resolved to {p}"),
    }
    assert!(wiki.safe_resolve("../escape.md").is_err());
    assert!(wiki.safe_resolve("../../").is_err());
    assert!(wiki.safe_resolve("a/../b.md").is_err());
    // A name that merely starts with dots is not a parent component.
    assert!(wiki.safe_resolve("..notes.md").is_ok());
}

#[test]
fn absolute_paths_are_refused() {
    let wiki = Wiki::new("/w/wiki".to_string());
    match wiki.safe_resolve("/etc/passwd") {
        Err(e) => assert_eq!(e.message(), "absolute path rejected: /etc/passwd"),
        Ok(p) => panic!("resolved to {p}"),
    }
}

#[test]
fn initial_files() {
    let index = Wiki::default_index();
    assert!(index.contains("# Wiki Index"));
    assert!(index.contains("## Entities"));
    assert!(index.contains("## Concepts"));
    assert!(index.contains("## Claims"));
    assert!(index.contains("## Sources"));
    assert_eq!(Wiki::default_log(), "# Wiki Log\n");
    let schema = Wiki::default_claude_md();
    assert!(schema.starts_with("# AI Wiki Schema\n"));
    assert!(schema.contains("Call `complete_item` with the primary wiki page path"));
}

#[test]
fn index_and_log_lines() {
    assert_eq!(Wiki::index_line("- [[entities/rust]]"), "- [[entities/rust]]\n");
    assert_eq!(
        Wiki::log_line_on("2024-05-06", "ingest | Rust"),
        "## [2024-05-06] ingest | Rust\n"
    );
    let line = Wiki::log_line("Added Rust entity page").unwrap();
    assert!(line.starts_with("## ["));
    assert!(line.chars().nth(7).map_or(false, |c| c.is_ascii_digit()));
    assert!(line.ends_with("] Added Rust entity page\n"));
    assert_eq!(line.len(), "## [YYYY-MM-DD] Added Rust entity page\n".len());
    let date = &line[4..14];
    let b = date.as_bytes();
    assert!(b[..4].iter().all(|c| c.is_ascii_digit()));
    assert_eq!((b[4], b[7]), (b'-', b'-'));
    assert!(b[5..7].iter().chain(&b[8..10]).all(|c| c.is_ascii_digit()));
}

#[test]
fn page_names_are_relative_to_the_root() {
    assert_eq!(
        page_entry("/w/wiki", "/w/wiki/entities/rust.md"),
        PageEntry::Page("entities/rust.md".to_string())
    );
    assert_eq!(page_entry("/w/wiki", "/w/wiki/index.md"), PageEntry::Page("index.md".to_string()));
    assert_eq!(page_entry("/w/wiki", "/w/wiki/notes.txt"), PageEntry::NotPage);
    assert_eq!(page_entry("/w/wiki", "/w/wiki/README.MD"), PageEntry::NotPage);
    assert_eq!(page_entry("/w/wiki", "/elsewhere/a.md"), PageEntry::OutsideRoot);
    assert_eq!(page_entry("/w/wiki/", "/w/wiki/a/b/c.md"), PageEntry::Page("a/b/c.md".to_string()));
}

#[test]
fn pages_are_listed_in_string_order() {
    let pages = vec![
        "sources/b.md".to_string(),
        "SCHEMA.md".to_string(),
        "entities/rust.md".to_string(),
        "concepts/ownership.md".to_string(),
        "index.md".to_string(),
        "entities/go.md".to_string(),
        "log.md".to_string(),
        "entities/go.md".to_string(),
    ];
    let mut expected = pages.clone();
    expected.sort();
    assert_eq!(sort_pages(pages), expected);
    assert_eq!(sort_pages(vec![]), Vec::<String>::new());
    let odd = vec!["é.md".to_string(), "z.md".to_string(), "a/b.md".to_string(), "a.md".to_string()];
    let mut expected = odd.clone();
    expected.sort();
    assert_eq!(sort_pages(odd), expected);
}

#[test]
fn a_new_wiki_has_its_directories_and_files() {
    assert_eq!(Wiki::page_dirs(), vec!["entities", "concepts", "claims", "sources"]);
    let files = Wiki::initial_files("SCHEMA.md");
    let names: Vec<&str> = files.iter().map(|(n, _)| n.as_str()).collect();
    assert_eq!(names, vec!["index.md", "log.md", "SCHEMA.md"]);
    assert_eq!(files[0].1, Wiki::default_index());
    assert_eq!(files[1].1, "# Wiki Log\n");
    assert_eq!(files[2].1, Wiki::default_claude_md());
}
