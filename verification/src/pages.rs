//! The listing of wiki pages: which files are pages, the name under which
//! each is listed, and the order of the list.
use vstd::prelude::*;
use vstd::relations::{sorted_by, total_ordering};
use crate::config::strings_view;
use crate::detect::{path_extension, path_extension_spec};
use crate::path::{components, nested_view, path_components, path_starts_with};
use crate::text::{
    chars_of, join_sep, lemma_join_step, lemma_text_le_antisymmetric, lemma_text_le_reflexive,
    lemma_text_le_total, lemma_text_le_transitive, owned, push_char, push_chars, str_equals, text_le,
    text_lt,
};

verus! {

broadcast use vstd::seq_lib::group_to_multiset_ensures;

// ─── Order ───────────────────────────────────────────────────────────────────

/// The order of page names.
pub open spec fn page_order() -> spec_fn(Seq<char>, Seq<char>) -> bool {
    |a: Seq<char>, b: Seq<char>| text_le(a, b)
}

/// Page names are totally ordered.
pub proof fn lemma_page_order_total()
    ensures
        total_ordering(page_order()),
{
    assert forall|x: Seq<char>| #[trigger] page_order()(x, x) by {
        lemma_text_le_reflexive(x);
    }
    assert forall|x: Seq<char>, y: Seq<char>|
        #[trigger] page_order()(x, y) && #[trigger] page_order()(y, x) implies x == y by {
        lemma_text_le_antisymmetric(x, y);
    }
    assert forall|x: Seq<char>, y: Seq<char>, z: Seq<char>|
        #[trigger] page_order()(x, y) && #[trigger] page_order()(y, z) implies page_order()(
        x,
        z,
    ) by {
        lemma_text_le_transitive(x, y, z);
    }
    assert forall|x: Seq<char>, y: Seq<char>|
        #[trigger] page_order()(x, y) || #[trigger] page_order()(y, x) by {
        lemma_text_le_total(x, y);
    }
}

/// The names of `pages` in the order of `String`, each as often as given
/// (`Vec::sort` of the names).
pub fn sort_pages(pages: Vec<String>) -> (r: Vec<String>)
    ensures
        strings_view(r@) == strings_view(pages@).sort_by(page_order()),
{
    let ghost pv = strings_view(pages@);
    let mut r: Vec<String> = Vec::new();
    let mut i: usize = 0;
    proof {
        lemma_page_order_total();
        assert(pv.take(0) =~= Seq::<Seq<char>>::empty());
        assert(strings_view(r@) =~= Seq::<Seq<char>>::empty());
    }
    while i < pages.len()
        invariant
            i <= pages.len(),
            pv == strings_view(pages@),
            pv.len() == pages@.len(),
            total_ordering(page_order()),
            sorted_by(strings_view(r@), page_order()),
            strings_view(r@).to_multiset() == pv.take(i as int).to_multiset(),
        decreases pages.len() - i,
    {
        let x = chars_of(pages[i].as_str());
        let ghost rv = strings_view(r@);
        assert(pv[i as int] == x@);
        let mut pos: usize = 0;
        while pos < r.len()
            invariant
                pos <= r.len(),
                rv == strings_view(r@),
                rv.len() == r@.len(),
                forall|j: int| 0 <= j < pos ==> #[trigger] text_le(rv[j], x@),
            ensures
                pos <= r.len(),
                forall|j: int| 0 <= j < pos ==> #[trigger] text_le(rv[j], x@),
                pos < r.len() ==> !text_le(rv[pos as int], x@),
            decreases r.len() - pos,
        {
            let y = chars_of(r[pos].as_str());
            assert(rv[pos as int] == y@);
            if text_lt(&x, &y) {
                break;
            }
            pos += 1;
        }
        let item = owned(pages[i].as_str());
        r.insert(pos, item);
        proof {
            let nv = rv.insert(pos as int, x@);
            assert(strings_view(r@) =~= nv);
            let le = page_order();
            assert forall|a: int, b: int| 0 <= a < b < nv.len() implies #[trigger] le(
                nv[a],
                nv[b],
            ) by {
                if b < pos {
                    assert(nv[a] == rv[a] && nv[b] == rv[b]);
                    assert(le(rv[a], rv[b]));
                } else if b == pos {
                    assert(nv[a] == rv[a] && nv[b] == x@);
                    assert(text_le(rv[a], x@));
                } else if a < pos {
                    assert(nv[a] == rv[a] && nv[b] == rv[b - 1]);
                    assert(le(rv[a], rv[b - 1]));
                } else if a == pos {
                    assert(nv[a] == x@ && nv[b] == rv[b - 1]);
                    assert(!text_le(rv[pos as int], x@));
                    assert(le(x@, rv[pos as int]) || le(rv[pos as int], x@));
                    if b - 1 > pos {
                        assert(le(rv[pos as int], rv[b - 1]));
                        assert(le(x@, rv[pos as int]) && le(rv[pos as int], rv[b - 1]));
                    }
                } else {
                    assert(nv[a] == rv[a - 1] && nv[b] == rv[b - 1]);
                    assert(le(rv[a - 1], rv[b - 1]));
                }
            }
            vstd::seq_lib::to_multiset_insert(rv, pos as int, x@);
            assert(pv.take(i + 1) =~= pv.take(i as int).push(x@));
            vstd::seq_lib::to_multiset_build(pv.take(i as int), x@);
        }
        i += 1;
    }
    proof {
        assert(pv.take(i as int) =~= pv);
        pv.lemma_sort_by_ensures(page_order());
        vstd::seq_lib::lemma_sorted_unique(strings_view(r@), pv.sort_by(page_order()), page_order());
    }
    r
}

// ─── Pages ───────────────────────────────────────────────────────────────────

/// What a file found under the wiki is for the listing.
#[derive(Debug, PartialEq, Eq)]
pub enum PageEntry {
    /// Not a page: its extension is not `md`.
    NotPage,
    /// A page, listed under its path below the wiki root.
    Page(String),
    /// A page file whose path does not start with the wiki root.
    OutsideRoot,
}

/// The name of the page at `path`: its components below `root`, joined by
/// `/`.
pub open spec fn page_name_spec(root: Seq<char>, path: Seq<char>) -> Seq<char> {
    join_sep(components(path).skip(components(root).len() as int), "/"@)
}

/// Classifies the file at `path`, found under the wiki at `root`: a file
/// whose extension is `md` is a page, listed under its path relative to
/// the root.
pub fn page_entry(root: &str, path: &str) -> (r: PageEntry)
    ensures
        path_extension_spec(path@) != Some("md"@) ==> r == PageEntry::NotPage,
        path_extension_spec(path@) == Some("md"@) && !path_starts_with(path@, root@) ==> r
            == PageEntry::OutsideRoot,
        path_extension_spec(path@) == Some("md"@) && path_starts_with(path@, root@) ==> (r matches PageEntry::Page(n) && n@ == page_name_spec(root@, path@)),
{
    let is_md = match path_extension(path) {
        Some(e) => str_equals(e.as_str(), "md"),
        None => false,
    };
    if !is_md {
        return PageEntry::NotPage;
    }
    if !crate::path::starts_with_path(path, root) {
        return PageEntry::OutsideRoot;
    }
    let comps = path_components(path);
    let k = crate::path::component_count(root);
    let ghost tail = components(path@).skip(k as int);
    proof {
        assert(nested_view(comps@).len() == comps@.len());
    }
    let mut out = String::new();
    let mut j: usize = k;
    assert(tail.take(0) =~= Seq::<Seq<char>>::empty());
    while j < comps.len()
        invariant
            k <= j <= comps.len(),
            k <= comps.len(),
            nested_view(comps@) == components(path@),
            tail == components(path@).skip(k as int),
            out@ == join_sep(tail.take(j - k), "/"@),
        decreases comps.len() - j,
    {
        proof {
            lemma_join_step(tail, "/"@, j - k);
            assert(tail[j - k] == comps@[j as int]@);
        }
        if j > k {
            push_char(&mut out, '/');
        }
        let seg = &comps[j];
        push_chars(&mut out, seg, 0, seg.len());
        assert(seg@.subrange(0, seg@.len() as int) =~= seg@);
        proof {
            reveal_strlit("/");
            assert(out@ =~= join_sep(tail.take(j + 1 - k), "/"@));
        }
        j += 1;
    }
    assert(tail.take(j - k) =~= tail);
    PageEntry::Page(out)
}

} // verus!
