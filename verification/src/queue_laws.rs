//! Laws of the processing queue, stated over its abstract state.
use vstd::prelude::*;
use crate::queue::{
    child_of, complete_row, created_before, earliest, error_row, in_creation_order, lemma_created_before_total,
    lemma_earliest, lemma_find_at, lemma_valid_filter, new_row, reject_row, requeue_row,
    reset_row, same_key, start_row, top_with_status, with_status, without_status, FileType,
    ItemStatus, ItemView, QueueState,
};

verus! {

/// `f` keeps every row's id, path and parent.
pub open spec fn keeps_identity(f: spec_fn(ItemView) -> ItemView) -> bool {
    forall|it: ItemView|
        #![trigger f(it)]
        f(it).id == it.id && f(it).file_path == it.file_path && f(it).parent_id == it.parent_id
}

/// Each status change the queue makes keeps the row's id, path and parent.
pub proof fn law_row_updates_keep_identity(
    now: Seq<char>,
    page: Seq<char>,
    text: Seq<char>,
)
    ensures
        keeps_identity(start_row(now)),
        keeps_identity(complete_row(page, now)),
        keeps_identity(reject_row(text, now)),
        keeps_identity(error_row(text, now)),
        keeps_identity(requeue_row()),
        keeps_identity(reset_row()),
{
}

/// A status change on one row leaves the queue valid, changes that row by
/// `f` and leaves every other row as it was.
pub proof fn law_update_touches_one_row(s: QueueState, id: i64, f: spec_fn(ItemView) -> ItemView)
    requires
        s.valid(),
        keeps_identity(f),
    ensures
        s.update(id, f).valid(),
        s.update(id, f).next_id == s.next_id,
        s.update(id, f).find(id) == match s.find(id) {
            Some(it) => Some(f(it)),
            None => None::<ItemView>,
        },
        forall|x: i64| x != id ==> #[trigger] s.update(id, f).find(x) == s.find(x),
{
    let t = s.update(id, f);
    assert forall|i: int| 0 <= i < s.items.len() implies #[trigger] t.items[i].id
        == s.items[i].id && t.items[i].file_path == s.items[i].file_path
        && t.items[i].parent_id == s.items[i].parent_id by {
        if s.items[i].id == id {
            assert(t.items[i] == f(s.items[i]));
        }
    }
    assert forall|i: int, j: int|
        #![trigger t.items[i], t.items[j]]
        0 <= i < t.items.len() && 0 <= j < t.items.len() && i != j implies !same_key(
        t.items[i],
        t.items[j],
    ) by {
        assert(t.items[i].id == s.items[i].id && t.items[j].id == s.items[j].id);
        assert(!same_key(s.items[i], s.items[j]));
    }
    assert forall|i: int, j: int|
        #![trigger t.items[i], t.items[j]]
        0 <= i < j < t.items.len() implies t.items[i].id < t.items[j].id by {
        assert(t.items[i].id == s.items[i].id && t.items[j].id == s.items[j].id);
        assert(s.items[i].id < s.items[j].id);
    }
    assert forall|i: int| 0 <= i < t.items.len() implies 1 <= #[trigger] t.items[i].id
        < t.next_id by {
        assert(t.items[i].id == s.items[i].id);
    }
    assert(t.valid());
    assert forall|x: i64| #[trigger] t.find(x) == (if x == id {
        match s.find(x) {
            Some(it) => Some(f(it)),
            None => None::<ItemView>,
        }
    } else {
        s.find(x)
    }) by {
        if exists|i: int| 0 <= i < s.items.len() && s.items[i].id == x {
            let k = choose|i: int| 0 <= i < s.items.len() && s.items[i].id == x;
            lemma_find_at(s, k);
            lemma_find_at(t, k);
            assert(t.items[k].id == x);
        } else {
            assert forall|i: int| 0 <= i < t.items.len() implies t.items[i].id != x by {
                assert(t.items[i].id == s.items[i].id);
            }
        }
    }
}

/// After a row is enqueued the queue stays valid; the new row is found
/// under the id it was given, with status `queued`; the path is then
/// recorded under its parent (so a second enqueue of it is refused); and
/// every earlier row is found as before.
pub proof fn law_enqueued_row_is_found(
    s: QueueState,
    path: Seq<char>,
    file_type: FileType,
    parent: Option<i64>,
    now: Seq<char>,
)
    requires
        s.valid(),
        !s.has_key(path, parent),
        s.next_id < i64::MAX,
    ensures
        s.enqueued(path, file_type, parent, now).valid(),
        s.enqueued(path, file_type, parent, now).find(s.next_id as i64) == Some(
            new_row(s.next_id, path, file_type, parent, now),
        ),
        new_row(s.next_id, path, file_type, parent, now).status == ItemStatus::Queued,
        s.enqueued(path, file_type, parent, now).has_entry(path, parent),
        s.enqueued(path, file_type, parent, now).has_key(path, parent),
        forall|x: i64|
            x != s.next_id ==> #[trigger] s.enqueued(path, file_type, parent, now).find(x)
                == s.find(x),
{
    let t = s.enqueued(path, file_type, parent, now);
    let n = s.items.len() as int;
    let row = new_row(s.next_id, path, file_type, parent, now);
    assert(t.items[n] == row);
    assert forall|i: int| 0 <= i < n implies #[trigger] t.items[i] == s.items[i] by {}
    assert forall|i: int, j: int|
        #![trigger t.items[i], t.items[j]]
        0 <= i < t.items.len() && 0 <= j < t.items.len() && i != j implies !same_key(
        t.items[i],
        t.items[j],
    ) by {
        if i < n && j < n {
            assert(t.items[i] == s.items[i] && t.items[j] == s.items[j]);
        } else if i < n {
            assert(t.items[i] == s.items[i]);
        } else {
            assert(t.items[j] == s.items[j]);
        }
    }
    assert forall|i: int, j: int|
        #![trigger t.items[i], t.items[j]]
        0 <= i < j < t.items.len() implies t.items[i].id < t.items[j].id by {
        assert(t.items[i] == s.items[i]);
        if j < n {
            assert(t.items[j] == s.items[j]);
        }
    }
    assert forall|i: int| 0 <= i < t.items.len() implies 1 <= #[trigger] t.items[i].id
        < t.next_id by {
        if i < n {
            assert(t.items[i] == s.items[i]);
        }
    }
    assert(t.valid());
    lemma_find_at(t, n);
    assert(t.items[n].file_path == path && t.items[n].parent_id == parent);
    assert forall|x: i64| x != s.next_id implies #[trigger] t.find(x) == s.find(x) by {
        if exists|i: int| 0 <= i < s.items.len() && s.items[i].id == x {
            let k = choose|i: int| 0 <= i < s.items.len() && s.items[i].id == x;
            lemma_find_at(s, k);
            lemma_find_at(t, k);
        } else {
            assert forall|i: int| 0 <= i < t.items.len() implies t.items[i].id != x by {
                if i < n {
                    assert(t.items[i] == s.items[i]);
                }
            }
        }
    }
}

/// The row that claiming takes is the queued row created first: it is
/// queued under its own id, so claiming it moves it exactly as
/// `mark_in_progress` would, and it comes before every other queued row
/// in creation order. When there is no such row, no row is queued.
pub proof fn law_claim_takes_oldest_queued(s: QueueState)
    requires
        s.valid(),
    ensures
        s.next_queued() matches Some(q) ==> q.status == ItemStatus::Queued && s.find(q.id)
            == Some(q),
        s.next_queued() matches Some(q) ==> forall|i: int|
            0 <= i < s.items.len() && s.items[i].status == ItemStatus::Queued && s.items[i].id
                != q.id ==> created_before(q, #[trigger] s.items[i]),
        s.next_queued() is None ==> s.count(ItemStatus::Queued) == 0,
{
    lemma_earliest_selected(s, with_status(ItemStatus::Queued));
}

/// What `earliest` picks among the rows that `p` admits: such a row, found
/// under its own id, created before every other row that `p` admits.
proof fn lemma_earliest_selected(s: QueueState, p: spec_fn(ItemView) -> bool)
    requires
        s.valid(),
    ensures
        earliest(s.select(p)) matches Some(q) ==> p(q) && s.find(q.id) == Some(q),
        earliest(s.select(p)) matches Some(q) ==> forall|i: int|
            0 <= i < s.items.len() && p(s.items[i]) && s.items[i].id != q.id ==> created_before(
                q,
                #[trigger] s.items[i],
            ),
        earliest(s.select(p)) is None <==> s.select(p).len() == 0,
        earliest(s.select(p)) is None ==> forall|i: int|
            0 <= i < s.items.len() ==> !p(#[trigger] s.items[i]),
{
    let f = s.select(p);
    lemma_earliest(f);
    match earliest(f) {
        Some(q) => {
            s.items.lemma_filter_contains_rev(p, q);
            let k = choose|k: int| 0 <= k < s.items.len() && s.items[k] == q;
            lemma_find_at(s, k);
            assert forall|i: int|
                0 <= i < s.items.len() && p(s.items[i]) && s.items[i].id != q.id implies created_before(
                q,
                #[trigger] s.items[i],
            ) by {
                s.items.lemma_filter_contains(p, i);
                let j = choose|j: int| 0 <= j < f.len() && f[j] == s.items[i];
                assert(!created_before(f[j], q));
                lemma_created_before_total(q, s.items[i]);
            }
        },
        None => {
            assert forall|i: int| 0 <= i < s.items.len() implies !p(#[trigger] s.items[i]) by {
                if p(s.items[i]) {
                    s.items.lemma_filter_contains(p, i);
                }
            }
        },
    }
}

/// The row handed out next is the first row of the listing of queued rows
/// (those rows in creation order, each once); with nothing queued, the
/// listing is empty.
pub proof fn law_next_queued_heads_the_queued_listing(s: QueueState, listed: Seq<ItemView>)
    requires
        s.valid(),
        in_creation_order(listed),
        listed.to_multiset() == s.select(with_status(ItemStatus::Queued)).to_multiset(),
    ensures
        s.next_queued() == if listed.len() > 0 {
            Some(listed[0])
        } else {
            None::<ItemView>
        },
{
    broadcast use vstd::seq_lib::group_to_multiset_ensures;

    let p = with_status(ItemStatus::Queued);
    let f = s.select(p);
    lemma_earliest_selected(s, p);
    assert(listed.to_multiset().len() == f.to_multiset().len());
    assert(listed.len() == f.len());
    if listed.len() > 0 {
        let q = s.next_queued()->0;
        lemma_earliest(f);
        assert(f.to_multiset().count(q) > 0);
        assert(listed.contains(q));
        let j = choose|j: int| 0 <= j < listed.len() && listed[j] == q;
        let h = listed[0];
        assert(listed.contains(h));
        assert(listed.to_multiset().count(h) > 0);
        assert(f.contains(h));
        s.items.lemma_filter_contains_rev(p, h);
        let a = choose|a: int| 0 <= a < s.items.len() && s.items[a] == h;
        s.items.lemma_filter_contains_rev(p, q);
        let b = choose|b: int| 0 <= b < s.items.len() && s.items[b] == q;
        if h != q {
            if h.id == q.id {
                if a < b {
                    assert(s.items[a].id < s.items[b].id);
                } else if b < a {
                    assert(s.items[b].id < s.items[a].id);
                }
            } else {
                assert(created_before(q, s.items[a]));
                assert(j > 0);
                assert(created_before(listed[0], listed[j]));
                lemma_created_before_total(q, h);
            }
        }
    }
}

/// The row that claiming a top-level item takes is the queued row without
/// a parent created first, found under its own id; when there is none,
/// every queued row is a child.
pub proof fn law_claim_parent_takes_oldest_top_level(s: QueueState)
    requires
        s.valid(),
    ensures
        s.next_queued_top() matches Some(q) ==> q.status == ItemStatus::Queued && q.parent_id
            is None && s.find(q.id) == Some(q),
        s.next_queued_top() matches Some(q) ==> forall|i: int|
            0 <= i < s.items.len() && s.items[i].status == ItemStatus::Queued
                && s.items[i].parent_id is None && s.items[i].id != q.id ==> created_before(
                q,
                #[trigger] s.items[i],
            ),
        s.next_queued_top() is None ==> forall|i: int|
            0 <= i < s.items.len() && #[trigger] s.items[i].status == ItemStatus::Queued
                ==> s.items[i].parent_id is Some,
{
    let p = top_with_status(ItemStatus::Queued);
    lemma_earliest_selected(s, p);
    if s.next_queued_top() is None {
        assert forall|i: int|
            0 <= i < s.items.len() && #[trigger] s.items[i].status == ItemStatus::Queued
                implies s.items[i].parent_id is Some by {
            assert(!p(s.items[i]));
        }
    }
}

/// A reset touches only the rows that are in progress: each of them goes
/// back to `queued` with its start time cleared and every other field
/// kept, and every row in any other status (an errored one included) is
/// left exactly as it was. No row is added or removed, and the id counter
/// is kept.
pub proof fn law_reset_touches_only_in_progress(s: QueueState)
    ensures
        s.reset().items.len() == s.items.len(),
        s.reset().next_id == s.next_id,
        forall|i: int|
            0 <= i < s.items.len() && s.items[i].status != ItemStatus::InProgress
                ==> #[trigger] s.reset().items[i] == s.items[i],
        forall|i: int|
            0 <= i < s.items.len() && s.items[i].status == ItemStatus::InProgress
                ==> #[trigger] s.reset().items[i] == (ItemView {
                status: ItemStatus::Queued,
                started_at: None,
                ..s.items[i]
            }),
{
}

/// After in-progress rows are reset the queue stays valid and no row is
/// in progress.
pub proof fn law_reset_leaves_nothing_in_progress(s: QueueState)
    requires
        s.valid(),
    ensures
        s.reset().valid(),
        s.reset().count(ItemStatus::InProgress) == 0,
{
    let t = s.reset();
    assert forall|i: int| 0 <= i < s.items.len() implies #[trigger] t.items[i].id
        == s.items[i].id && t.items[i].file_path == s.items[i].file_path
        && t.items[i].parent_id == s.items[i].parent_id && t.items[i].status
        != ItemStatus::InProgress by {
        assert(t.items[i] == reset_row()(s.items[i]));
    }
    assert forall|i: int, j: int|
        #![trigger t.items[i], t.items[j]]
        0 <= i < t.items.len() && 0 <= j < t.items.len() && i != j implies !same_key(
        t.items[i],
        t.items[j],
    ) by {
        assert(t.items[i].id == s.items[i].id && t.items[j].id == s.items[j].id);
        assert(!same_key(s.items[i], s.items[j]));
    }
    assert forall|i: int, j: int|
        #![trigger t.items[i], t.items[j]]
        0 <= i < j < t.items.len() implies t.items[i].id < t.items[j].id by {
        assert(t.items[i].id == s.items[i].id && t.items[j].id == s.items[j].id);
        assert(s.items[i].id < s.items[j].id);
    }
    assert forall|i: int| 0 <= i < t.items.len() implies 1 <= #[trigger] t.items[i].id
        < t.next_id by {
        assert(t.items[i].id == s.items[i].id);
    }
    lemma_filter_empty(t.items, with_status(ItemStatus::InProgress));
}

/// A filter that no element passes keeps nothing.
proof fn lemma_filter_empty(items: Seq<ItemView>, p: spec_fn(ItemView) -> bool)
    requires
        forall|i: int| 0 <= i < items.len() ==> !p(#[trigger] items[i]),
    ensures
        items.filter(p).len() == 0,
{
    if items.filter(p).len() > 0 {
        items.lemma_filter_pred(p, 0);
        assert(items.filter(p).contains(items.filter(p)[0]));
        items.lemma_filter_contains_rev(p, items.filter(p)[0]);
    }
}

/// After the errored rows are removed the queue stays valid and no row is
/// in error.
pub proof fn law_delete_errors_leaves_no_errors(s: QueueState)
    requires
        s.valid(),
    ensures
        s.without_errors().valid(),
        s.without_errors().count(ItemStatus::Error) == 0,
{
    let kept = s.items.filter(without_status(ItemStatus::Error));
    lemma_valid_filter(s, without_status(ItemStatus::Error));
    assert forall|i: int| 0 <= i < kept.len() implies !with_status(ItemStatus::Error)(
        #[trigger] kept[i],
    ) by {
        s.items.lemma_filter_pred(without_status(ItemStatus::Error), i);
    }
    lemma_filter_empty(kept, with_status(ItemStatus::Error));
}

/// A requeued row is queued again, so it can be claimed or started anew.
pub proof fn law_requeued_row_is_queued(s: QueueState, id: i64)
    requires
        s.valid(),
        s.find(id) is Some,
    ensures
        s.update(id, requeue_row()).find(id) matches Some(it) && it.status
            == ItemStatus::Queued && it.error_message is None && it.started_at is None
            && it.completed_at is None,
{
    law_update_touches_one_row(s, id, requeue_row());
}

/// A parent's children are complete exactly when every row of a listing
/// of its children (its child rows in any order, each once) is complete.
pub proof fn law_children_complete_matches_listing(
    s: QueueState,
    parent: i64,
    listed: Seq<ItemView>,
)
    requires
        listed.to_multiset() == s.select(child_of(parent)).to_multiset(),
    ensures
        (forall|i: int|
            0 <= i < s.items.len() && s.items[i].parent_id == Some(parent)
                ==> #[trigger] s.items[i].status == ItemStatus::Complete) <==> (forall|j: int|
            0 <= j < listed.len() ==> (#[trigger] listed[j]).status == ItemStatus::Complete),
{
    broadcast use vstd::seq_lib::group_to_multiset_ensures;

    let c = s.select(child_of(parent));
    if forall|i: int|
        0 <= i < s.items.len() && s.items[i].parent_id == Some(parent)
            ==> #[trigger] s.items[i].status == ItemStatus::Complete {
        assert forall|j: int| 0 <= j < listed.len() implies (#[trigger] listed[j]).status
            == ItemStatus::Complete by {
            assert(listed.contains(listed[j]));
            assert(listed.to_multiset().count(listed[j]) > 0);
            assert(c.contains(listed[j]));
            s.items.lemma_filter_contains_rev(child_of(parent), listed[j]);
            let k = choose|k: int| 0 <= k < s.items.len() && s.items[k] == listed[j];
            assert(s.items[k].parent_id == Some(parent));
        }
    }
    if forall|j: int| 0 <= j < listed.len() ==> (#[trigger] listed[j]).status
        == ItemStatus::Complete {
        assert forall|i: int|
            0 <= i < s.items.len() && s.items[i].parent_id == Some(parent) implies #[trigger] s.items[i].status
            == ItemStatus::Complete by {
            s.items.lemma_filter_contains(child_of(parent), i);
            assert(c.contains(s.items[i]));
            assert(c.to_multiset().count(s.items[i]) > 0);
            assert(listed.contains(s.items[i]));
            let j = choose|j: int| 0 <= j < listed.len() && listed[j] == s.items[i];
            assert(listed[j].status == ItemStatus::Complete);
        }
    }
}

/// What a status change writes is what a later read of the row gives
/// back: started rows are in progress with their start time, completed
/// rows carry their page and completion time, rejected and errored rows
/// their reason; every other field of the row is unchanged, and so is
/// every other row.
pub proof fn law_status_changes_read_back(
    s: QueueState,
    id: i64,
    now: Seq<char>,
    page: Seq<char>,
    text: Seq<char>,
)
    requires
        s.valid(),
        s.find(id) is Some,
    ensures
        s.started(id, now).find(id) == Some(
            ItemView {
                status: ItemStatus::InProgress,
                started_at: Some(now),
                ..s.find(id).unwrap()
            },
        ),
        s.completed(id, page, now).find(id) == Some(
            ItemView {
                status: ItemStatus::Complete,
                wiki_page_path: Some(page),
                completed_at: Some(now),
                ..s.find(id).unwrap()
            },
        ),
        s.rejected(id, text, now).find(id) == Some(
            ItemView {
                status: ItemStatus::Rejected,
                error_message: Some(text),
                completed_at: Some(now),
                ..s.find(id).unwrap()
            },
        ),
        s.errored(id, text, now).find(id) == Some(
            ItemView {
                status: ItemStatus::Error,
                error_message: Some(text),
                completed_at: Some(now),
                ..s.find(id).unwrap()
            },
        ),
        forall|x: i64|
            x != id ==> #[trigger] s.completed(id, page, now).find(x) == s.find(x) && s.started(
                id,
                now,
            ).find(x) == s.find(x) && s.rejected(id, text, now).find(x) == s.find(x) && s.errored(
                id,
                text,
                now,
            ).find(x) == s.find(x),
{
    law_row_updates_keep_identity(now, page, text);
    law_update_touches_one_row(s, id, start_row(now));
    law_update_touches_one_row(s, id, complete_row(page, now));
    law_update_touches_one_row(s, id, reject_row(text, now));
    law_update_touches_one_row(s, id, error_row(text, now));
}

} // verus!
