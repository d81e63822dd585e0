//! The chapter blocks a document's table of contents describes, as the
//! document inspector reports them.
use vstd::prelude::*;
use crate::text::{chars_of, owned, string_from_chars};

verus! {

/// Titles are shown cut to this many characters.
pub const TITLE_WIDTH: usize = 50;

/// A document counts as a book for the inspector from this many pages.
pub const BOOK_MIN_PAGES: usize = 50;

/// One entry of a table of contents.
#[derive(Debug, Clone)]
pub struct TocEntry {
    pub level: usize,
    pub title: String,
    pub page: usize,
}

/// Whether each value is below the next.
pub open spec fn strictly_increasing(s: Seq<usize>) -> bool {
    forall|i: int, j: int| 0 <= i < j < s.len() ==> s[i] < s[j]
}

/// Whether some top-level entry starts at page `p`.
pub open spec fn top_level_start(entries: Seq<TocEntry>, p: usize) -> bool {
    exists|i: int| 0 <= i < entries.len() && entries[i].level == 1 && entries[i].page == p
}

/// The pages at which top-level entries start, in increasing order, each
/// once.
pub fn top_level_starts(entries: &Vec<TocEntry>) -> (r: Vec<usize>)
    ensures
        strictly_increasing(r@),
        forall|p: usize| r@.contains(p) <==> top_level_start(entries@, p),
{
    let mut r: Vec<usize> = Vec::new();
    let mut k: usize = 0;
    while k < entries.len()
        invariant
            k <= entries.len(),
            strictly_increasing(r@),
            forall|p: usize| r@.contains(p) <==> top_level_start(entries@.take(k as int), p),
        decreases entries.len() - k,
    {
        let ghost before = r@;
        let ghost pre = entries@.take(k as int);
        let ghost post = entries@.take(k + 1);
        assert forall|p: usize| top_level_start(post, p) <==> (top_level_start(pre, p) || (
        entries@[k as int].level == 1 && entries@[k as int].page == p)) by {
            if top_level_start(post, p) {
                let i = choose|i: int|
                    0 <= i < post.len() && (#[trigger] post[i]).level == 1 && post[i].page == p;
                if i < k {
                    assert(pre[i] == entries@[i]);
                }
            }
            if top_level_start(pre, p) {
                let i = choose|i: int|
                    0 <= i < pre.len() && (#[trigger] pre[i]).level == 1 && pre[i].page == p;
                assert(post[i] == entries@[i]);
            }
            if entries@[k as int].level == 1 && entries@[k as int].page == p {
                assert(post[k as int] == entries@[k as int]);
            }
        }
        if entries[k].level == 1 {
            let p = entries[k].page;
            let mut pos: usize = 0;
            while pos < r.len() && r[pos] < p
                invariant
                    pos <= r.len(),
                    r@ == before,
                    forall|j: int| 0 <= j < pos ==> r@[j] < p,
                decreases r.len() - pos,
            {
                pos += 1;
            }
            if pos < r.len() && r[pos] == p {
                assert(r@.contains(p));
            } else {
                r.insert(pos, p);
                assert forall|i: int, j: int| 0 <= i < j < r@.len() implies r@[i] < r@[j] by {
                    if j < pos {
                        assert(r@[i] == before[i] && r@[j] == before[j]);
                    } else if j == pos {
                        assert(r@[i] == before[i]);
                    } else if i < pos {
                        assert(r@[i] == before[i] && r@[j] == before[j - 1]);
                        assert(before[i] < p);
                        assert(p <= before[pos as int]);
                    } else if i == pos {
                        assert(r@[j] == before[j - 1]);
                        assert(p <= before[pos as int]);
                    } else {
                        assert(r@[i] == before[i - 1] && r@[j] == before[j - 1]);
                    }
                }
                assert forall|q: usize| r@.contains(q) <==> (before.contains(q) || q == p) by {
                    if r@.contains(q) {
                        let j = choose|j: int| 0 <= j < r@.len() && r@[j] == q;
                        if j < pos {
                            assert(before[j] == q);
                        } else if j > pos {
                            assert(before[j - 1] == q);
                        }
                    }
                    if before.contains(q) {
                        let j = choose|j: int| 0 <= j < before.len() && before[j] == q;
                        if j < pos {
                            assert(r@[j] == q);
                        } else {
                            assert(r@[j + 1] == q);
                        }
                    }
                    if q == p {
                        assert(r@[pos as int] == p);
                    }
                }
            }
        }
        assert forall|q: usize| r@.contains(q) <==> top_level_start(post, q) by {
            assert(top_level_start(post, q) <==> (top_level_start(pre, q) || (entries@[k as int].level
                == 1 && entries@[k as int].page == q)));
            assert(before.contains(q) <==> top_level_start(pre, q));
        }
        k += 1;
    }
    assert(entries@.take(k as int) =~= entries@);
    r
}

/// A title as shown: cut to `TITLE_WIDTH` characters.
pub open spec fn shown_title(t: Seq<char>) -> Seq<char> {
    if t.len() > TITLE_WIDTH {
        t.take(TITLE_WIDTH as int)
    } else {
        t
    }
}

/// The title of the first top-level entry that starts at `p`, if any.
pub open spec fn title_at(entries: Seq<TocEntry>, p: usize) -> Option<Seq<char>>
    decreases entries.len(),
{
    if entries.len() == 0 {
        None
    } else if entries[0].level == 1 && entries[0].page == p {
        Some(entries[0].title@)
    } else {
        title_at(entries.drop_first(), p)
    }
}

/// One chapter block: its number (from 1), its title, its first and last
/// page and how many pages it spans.
#[derive(Debug)]
pub struct TocBlock {
    pub number: usize,
    pub title: String,
    pub start: usize,
    pub end: usize,
    pub pages: usize,
}

/// The shown title of the block that starts at `p`: that of its first
/// top-level entry, `(unnamed)` when there is none.
fn block_title(entries: &Vec<TocEntry>, p: usize) -> (r: String)
    ensures
        r@ == match title_at(entries@, p) {
            Some(t) => shown_title(t),
            None => "(unnamed)"@,
        },
{
    let mut k: usize = 0;
    assert(entries@.skip(0) =~= entries@);
    while k < entries.len()
        invariant
            k <= entries.len(),
            title_at(entries@, p) == title_at(entries@.skip(k as int), p),
        decreases entries.len() - k,
    {
        assert(entries@.skip(k as int)[0] == entries@[k as int]);
        assert(entries@.skip(k as int).drop_first() =~= entries@.skip(k + 1));
        if entries[k].level == 1 && entries[k].page == p {
            let v = chars_of(entries[k].title.as_str());
            if v.len() > TITLE_WIDTH {
                let cut = crate::detect::chars_before(&v, TITLE_WIDTH);
                return string_from_chars(&cut);
            }
            return owned(entries[k].title.as_str());
        }
        k += 1;
    }
    owned("(unnamed)")
}

/// The blocks a table of contents splits a document of `page_count` pages
/// into: one per top-level start page, in increasing order, each ending on
/// the page before the next one starts, the last on the last page.
pub fn toc_blocks(entries: &Vec<TocEntry>, page_count: usize) -> (r: Vec<TocBlock>)
    requires
        page_count < usize::MAX,
    ensures
        exists|starts: Seq<usize>|
            {
                &&& strictly_increasing(starts)
                &&& forall|p: usize| starts.contains(p) <==> top_level_start(entries@, p)
                &&& r@.len() == starts.len()
                &&& forall|i: int|
                    0 <= i < r@.len() ==> {
                        let end = if i + 1 < starts.len() {
                            starts[i + 1] - 1
                        } else {
                            page_count as int
                        };
                        &&& (#[trigger] r@[i]).number == i + 1
                        &&& r@[i].start == starts[i]
                        &&& r@[i].end == end
                        &&& r@[i].pages == if end >= starts[i] {
                            end - starts[i] + 1
                        } else {
                            0
                        }
                        &&& r@[i].title@ == match title_at(entries@, starts[i]) {
                            Some(t) => shown_title(t),
                            None => "(unnamed)"@,
                        }
                    }
            },
{
    let starts = top_level_starts(entries);
    let mut r: Vec<TocBlock> = Vec::new();
    let mut i: usize = 0;
    while i < starts.len()
        invariant
            i <= starts.len(),
            page_count < usize::MAX,
            strictly_increasing(starts@),
            r@.len() == i,
            forall|j: int|
                0 <= j < i ==> {
                    let end = if j + 1 < starts@.len() {
                        starts@[j + 1] - 1
                    } else {
                        page_count as int
                    };
                    &&& (#[trigger] r@[j]).number == j + 1
                    &&& r@[j].start == starts@[j]
                    &&& r@[j].end == end
                    &&& r@[j].pages == if end >= starts@[j] {
                        end - starts@[j] + 1
                    } else {
                        0
                    }
                    &&& r@[j].title@ == match title_at(entries@, starts@[j]) {
                        Some(t) => shown_title(t),
                        None => "(unnamed)"@,
                    }
                },
        decreases starts.len() - i,
    {
        let start = starts[i];
        let end = if i + 1 < starts.len() {
            assert(starts@[i as int] < starts@[i + 1]);
            starts[i + 1] - 1
        } else {
            page_count
        };
        let pages = if end >= start {
            end - start + 1
        } else {
            0
        };
        let title = block_title(entries, start);
        r.push(TocBlock { number: i + 1, title, start, end, pages });
        i += 1;
    }
    r
}

/// The inspector's verdict on a document of `page_count` pages.
pub fn toc_verdict(page_count: usize) -> (r: &'static str)
    ensures
        r@ == if page_count >= BOOK_MIN_PAGES {
            "BOOK (would split)"@
        } else {
            "SIMPLE (too few pages)"@
        },
{
    if page_count >= BOOK_MIN_PAGES {
        "BOOK (would split)"
    } else {
        "SIMPLE (too few pages)"
    }
}

} // verus!
