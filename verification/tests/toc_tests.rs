use ai_wiki_core::toc::{top_level_starts, toc_blocks, toc_verdict, TocEntry};

fn e(level: usize, title: &str, page: usize) -> TocEntry {
    TocEntry { level, title: title.to_string(), page }
}

#[test]
fn starts_are_sorted_and_unique_top_level_pages() {
    let entries = vec![
        e(1, "Three", 30),
        e(2, "Nested", 5),
        e(1, "One", 1),
        e(1, "Again", 30),
        e(1, "Two", 12),
    ];
    assert_eq!(top_level_starts(&entries), vec![1, 12, 30]);
    assert_eq!(top_level_starts(&vec![e(2, "x", 3)]), Vec::<usize>::new());
}

#[test]
fn blocks_span_to_the_next_start() {
    let long = "x".repeat(60);
    let entries = vec![e(1, "Intro", 1), e(1, &long, 10), e(1, "End", 20), e(1, "Dup", 20)];
    let blocks = toc_blocks(&entries, 25);
    assert_eq!(blocks.len(), 3);
    assert_eq!((blocks[0].number, blocks[0].start, blocks[0].end, blocks[0].pages), (1, 1, 9, 9));
    assert_eq!(blocks[0].title, "Intro");
    assert_eq!(blocks[1].title, "x".repeat(50));
    assert_eq!((blocks[2].start, blocks[2].end, blocks[2].pages), (20, 25, 6));
    assert_eq!(blocks[2].title, "End");
    // A last start beyond the page count spans nothing.
    let blocks = toc_blocks(&vec![e(1, "Late", 40)], 30);
    assert_eq!((blocks[0].end, blocks[0].pages), (30, 0));
}

#[test]
fn verdicts() {
    assert_eq!(toc_verdict(50), "BOOK (would split)");
    assert_eq!(toc_verdict(49), "SIMPLE (too few pages)");
}
