//! What the command line and the monitor tell the user about the queue:
//! status counts, the claim line read by scripts, and the summaries of
//! processing, retrying and clearing.
use vstd::prelude::*;
use crate::queue::{
    ItemStatus, ItemView, QueueError, QueueItem, QueueState, counts_view, items_view,
    queue_error_text, status_from_name, status_name, file_type_name,
};
use crate::text::{dec_int, dec_nat, owned, push_i64, push_u64};

verus! {

// ─── Status counts ───────────────────────────────────────────────────────────

/// The count listed for `name`: that of its first entry, 0 when it has
/// none.
pub open spec fn count_named(counts: Seq<(Seq<char>, nat)>, name: Seq<char>) -> nat
    decreases counts.len(),
{
    if counts.len() == 0 {
        0
    } else if counts[0].0 == name {
        counts[0].1
    } else {
        count_named(counts.drop_first(), name)
    }
}

/// The count listed for `name` in a status count table.
pub fn lookup_count(counts: &Vec<(String, u64)>, name: &str) -> (r: u64)
    ensures
        r == count_named(counts_view(counts@), name@),
{
    let ghost cv = counts_view(counts@);
    let mut i: usize = 0;
    assert(cv.skip(0) =~= cv);
    while i < counts.len()
        invariant
            i <= counts.len(),
            cv == counts_view(counts@),
            cv.len() == counts@.len(),
            count_named(cv, name@) == count_named(cv.skip(i as int), name@),
        decreases counts.len() - i,
    {
        assert(cv.skip(i as int)[0] == cv[i as int]);
        assert(cv.skip(i as int).drop_first() =~= cv.skip(i + 1));
        if crate::text::str_equals(counts[i].0.as_str(), name) {
            return counts[i].1;
        }
        i += 1;
    }
    0
}

/// The monitor's status line.
pub open spec fn counts_line(counts: Seq<(Seq<char>, nat)>) -> Seq<char> {
    "Queued: "@ + dec_nat(count_named(counts, "queued"@)) + " | In Progress: "@ + dec_nat(
        count_named(counts, "in_progress"@),
    ) + " | Complete: "@ + dec_nat(count_named(counts, "complete"@)) + " | Rejected: "@
        + dec_nat(count_named(counts, "rejected"@)) + " | Error: "@ + dec_nat(
        count_named(counts, "error"@),
    )
}

/// The monitor's status line for a status count table.
pub fn format_counts(counts: &Vec<(String, u64)>) -> (r: String)
    ensures
        r@ == counts_line(counts_view(counts@)),
{
    let mut r = owned("Queued: ");
    push_u64(&mut r, lookup_count(counts, "queued"));
    r.append(" | In Progress: ");
    push_u64(&mut r, lookup_count(counts, "in_progress"));
    r.append(" | Complete: ");
    push_u64(&mut r, lookup_count(counts, "complete"));
    r.append(" | Rejected: ");
    push_u64(&mut r, lookup_count(counts, "rejected"));
    r.append(" | Error: ");
    push_u64(&mut r, lookup_count(counts, "error"));
    r
}

/// The closing lines of a processing run.
pub open spec fn done_text(processed: nat, errors: nat, counts: Seq<(Seq<char>, nat)>) -> Seq<
    char,
> {
    "Done. Processed "@ + dec_nat(processed) + " item(s), "@ + dec_nat(errors)
        + " error(s).\nQueue status: "@ + dec_nat(count_named(counts, "complete"@))
        + " complete, "@ + dec_nat(count_named(counts, "queued"@)) + " queued, "@ + dec_nat(
        count_named(counts, "error"@),
    ) + " error, "@ + dec_nat(count_named(counts, "rejected"@)) + " rejected"@
}

/// The closing lines of a processing run that handled `processed` items,
/// `errors` of them without success.
pub fn done_summary(processed: usize, errors: usize, counts: &Vec<(String, u64)>) -> (r: String)
    ensures
        r@ == done_text(processed as nat, errors as nat, counts_view(counts@)),
{
    let mut r = owned("Done. Processed ");
    push_u64(&mut r, processed as u64);
    r.append(" item(s), ");
    push_u64(&mut r, errors as u64);
    r.append(" error(s).\nQueue status: ");
    push_u64(&mut r, lookup_count(counts, "complete"));
    r.append(" complete, ");
    push_u64(&mut r, lookup_count(counts, "queued"));
    r.append(" queued, ");
    push_u64(&mut r, lookup_count(counts, "error"));
    r.append(" error, ");
    push_u64(&mut r, lookup_count(counts, "rejected"));
    r.append(" rejected");
    r
}

/// An entry whose name differs from `n` does not change the count listed
/// for `n`.
proof fn lemma_count_push_other(a: Seq<(Seq<char>, nat)>, x: (Seq<char>, nat), n: Seq<char>)
    requires
        x.0 != n,
    ensures
        count_named(a.push(x), n) == count_named(a, n),
    decreases a.len(),
{
    if a.len() > 0 {
        assert(a.push(x)[0] == a[0]);
        assert(a.push(x).drop_first() =~= a.drop_first().push(x));
        lemma_count_push_other(a.drop_first(), x, n);
    } else {
        assert(a.push(x).drop_first() =~= a);
    }
}

/// When no entry is named `n`, an entry for `n` is what the table lists.
proof fn lemma_count_push_new(a: Seq<(Seq<char>, nat)>, x: (Seq<char>, nat), n: Seq<char>)
    requires
        forall|i: int| 0 <= i < a.len() ==> #[trigger] a[i].0 != n,
        x.0 == n,
    ensures
        count_named(a.push(x), n) == x.1,
        count_named(a, n) == 0,
    decreases a.len(),
{
    if a.len() > 0 {
        assert(a.push(x)[0] == a[0]);
        assert(a.push(x).drop_first() =~= a.drop_first().push(x));
        assert forall|i: int| 0 <= i < a.drop_first().len() implies #[trigger] a.drop_first()[i].0
            != n by {
            assert(a.drop_first()[i] == a[i + 1]);
        }
        lemma_count_push_new(a.drop_first(), x, n);
    } else {
        assert(a.push(x).drop_first() =~= a);
    }
}

/// Distinct statuses have distinct names.
proof fn lemma_status_name_injective(a: ItemStatus, b: ItemStatus)
    requires
        status_name(a) == status_name(b),
    ensures
        a == b,
{
    crate::queue::law_status_name_round_trip(a);
    crate::queue::law_status_name_round_trip(b);
}

/// Every entry of a count table names a status of `order`.
proof fn lemma_counts_in_names(s: QueueState, order: Seq<ItemStatus>, n: Seq<char>)
    requires
        forall|j: int| 0 <= j < order.len() ==> status_name(#[trigger] order[j]) != n,
    ensures
        forall|i: int| 0 <= i < s.counts_in(order).len() ==> #[trigger] s.counts_in(order)[i].0
            != n,
    decreases order.len(),
{
    if order.len() > 0 {
        let rest = order.drop_last();
        assert forall|j: int| 0 <= j < rest.len() implies status_name(#[trigger] rest[j]) != n by {
            assert(rest[j] == order[j]);
        }
        lemma_counts_in_names(s, rest, n);
        assert(order.last() == order[order.len() - 1]);
        let t = s.counts_in(rest);
        let st = order.last();
        if s.count(st) > 0 {
            let full = t.push((status_name(st), s.count(st)));
            assert(s.counts_in(order) == full);
            assert forall|i: int| 0 <= i < full.len() implies #[trigger] full[i].0 != n by {
                if i < t.len() {
                    assert(full[i] == t[i]);
                }
            }
        } else {
            assert(s.counts_in(order) == t);
        }
    }
}

/// The count a table built over distinct statuses lists for a status is
/// the number of rows that have it, or 0 when the order leaves it out.
proof fn lemma_counts_in_lookup(s: QueueState, order: Seq<ItemStatus>, st: ItemStatus)
    requires
        order.no_duplicates(),
    ensures
        count_named(s.counts_in(order), status_name(st)) == if order.contains(st) {
            s.count(st)
        } else {
            0
        },
    decreases order.len(),
{
    let n = status_name(st);
    if order.len() == 0 {
    } else {
        let rest = order.drop_last();
        let last = order.last();
        assert(rest.no_duplicates());
        lemma_counts_in_lookup(s, rest, st);
        let table = s.counts_in(rest);
        if last == st {
            assert(!rest.contains(st)) by {
                if rest.contains(st) {
                    let j = choose|j: int| 0 <= j < rest.len() && rest[j] == st;
                    assert(order[j] == order[order.len() - 1]);
                }
            }
            assert forall|j: int| 0 <= j < rest.len() implies status_name(#[trigger] rest[j]) != n by {
                if status_name(rest[j]) == n {
                    lemma_status_name_injective(rest[j], st);
                }
            }
            lemma_counts_in_names(s, rest, n);
            assert(order.contains(st)) by {
                assert(order[order.len() - 1] == st);
            }
            if s.count(last) > 0 {
                lemma_count_push_new(table, (status_name(last), s.count(last)), n);
            }
        } else {
            assert(status_name(last) != n) by {
                if status_name(last) == n {
                    lemma_status_name_injective(last, st);
                }
            }
            if s.count(last) > 0 {
                lemma_count_push_other(table, (status_name(last), s.count(last)), n);
            }
            assert(order.contains(st) == rest.contains(st)) by {
                if order.contains(st) {
                    let j = choose|j: int| 0 <= j < order.len() && order[j] == st;
                    assert(j != order.len() - 1);
                    assert(rest[j] == st);
                }
                if rest.contains(st) {
                    let j = choose|j: int| 0 <= j < rest.len() && rest[j] == st;
                    assert(order[j] == st);
                }
            }
        }
    }
}

/// The status count table lists, for every status, the number of rows that
/// have it: the monitor's status line and the processing summary report
/// the queue as it is.
pub proof fn law_status_counts_report_rows(s: QueueState, st: ItemStatus)
    ensures
        count_named(s.status_counts(), status_name(st)) == s.count(st),
{
    let order = seq![
        ItemStatus::Complete,
        ItemStatus::Error,
        ItemStatus::InProgress,
        ItemStatus::Queued,
        ItemStatus::Rejected,
    ];
    assert(order.no_duplicates());
    assert(order.contains(st)) by {
        match st {
            ItemStatus::Complete => assert(order[0] == st),
            ItemStatus::Error => assert(order[1] == st),
            ItemStatus::InProgress => assert(order[2] == st),
            ItemStatus::Queued => assert(order[3] == st),
            ItemStatus::Rejected => assert(order[4] == st),
        }
    }
    lemma_counts_in_lookup(s, order, st);
}

// ─── The claim line ──────────────────────────────────────────────────────────

/// What `format!("{:?}", s)` writes for a string.
pub uninterp spec fn str_debug(s: Seq<char>) -> Seq<char>;

/// `<str as Debug>::fmt`, through `format!`.
#[verifier::external_body]
fn debug_str(s: &str) -> (r: String)
    ensures
        r@ == str_debug(s@),
{
    format!("{:?}", s)
}

/// Why a claimed item cannot be printed as a claim line.
#[derive(Debug, PartialEq, Eq)]
pub enum ClaimLineError {
    /// Its path, given here, holds a tab, which separates the fields.
    TabInPath(String),
}

/// The text that describes a claim line error.
pub open spec fn claim_line_error_text(e: ClaimLineError) -> Seq<char> {
    match e {
        ClaimLineError::TabInPath(p) => "Claimed file path contains a tab character, which would break the tab-delimited output format: "@
            + str_debug(p@),
    }
}

impl ClaimLineError {
    /// The text that describes this error.
    pub fn message(&self) -> (r: String)
        ensures
            r@ == claim_line_error_text(*self),
    {
        match self {
            ClaimLineError::TabInPath(p) => {
                let mut r = owned(
                    "Claimed file path contains a tab character, which would break the tab-delimited output format: ",
                );
                let d = debug_str(p.as_str());
                r.append(d.as_str());
                r
            },
        }
    }
}

/// The line printed for a claimed item: id, path, type and parent id
/// (`none` for a top-level item), separated by tabs.
pub open spec fn claim_text(it: ItemView) -> Seq<char> {
    dec_int(it.id as int) + "\t"@ + it.file_path + "\t"@ + file_type_name(it.file_type) + "\t"@
        + match it.parent_id {
        Some(p) => dec_int(p as int),
        None => "none"@,
    }
}

/// The line printed for the result of a claim: `EMPTY` when nothing was
/// queued, else the claimed item's fields; refused when the item's path
/// holds a tab.
pub fn claim_line(item: Option<&QueueItem>) -> (r: Result<String, ClaimLineError>)
    ensures
        match item {
            None => r matches Ok(s) && s@ == "EMPTY"@,
            Some(it) => if it.file_path@.contains('\t') {
                r matches Err(ClaimLineError::TabInPath(p)) && p@ == it.file_path@
            } else {
                r matches Ok(s) && s@ == claim_text(it@)
            },
        },
{
    match item {
        None => Ok(owned("EMPTY")),
        Some(it) => {
            let v = crate::text::chars_of(it.file_path.as_str());
            let mut i: usize = 0;
            while i < v.len()
                invariant
                    item == Some(it),
                    i <= v.len(),
                    v@ == it.file_path@,
                    forall|j: int| 0 <= j < i ==> v@[j] != '\t',
                decreases v.len() - i,
            {
                if v[i] == '\t' {
                    assert(it.file_path@[i as int] == '\t');
                    assert(it.file_path@.contains('\t'));
                    return Err(ClaimLineError::TabInPath(owned(it.file_path.as_str())));
                }
                i += 1;
            }
            assert(!it.file_path@.contains('\t'));
            let mut r = String::new();
            push_i64(&mut r, it.id);
            r.append("\t");
            r.append(it.file_path.as_str());
            r.append("\t");
            r.append(it.file_type.as_str());
            r.append("\t");
            match it.parent_id {
                Some(p) => push_i64(&mut r, p),
                None => r.append("none"),
            }
            Ok(r)
        },
    }
}

/// The acknowledgement of a queue command that marked item `id`.
pub open spec fn marked_text(id: i64, what: Seq<char>) -> Seq<char> {
    "Marked item "@ + dec_int(id as int) + " as "@ + what + "."@
}

/// `Marked item <id> as complete.` or `... as error.`
pub fn marked_message(id: i64, complete: bool) -> (r: String)
    ensures
        r@ == marked_text(id, if complete { "complete"@ } else { "error"@ }),
{
    let mut r = owned("Marked item ");
    push_i64(&mut r, id);
    r.append(" as ");
    if complete {
        r.append("complete");
    } else {
        r.append("error");
    }
    r.append(".");
    r
}

// ─── Retry and clear ─────────────────────────────────────────────────────────

/// The ids of `items` for which processed text exists, `has_text[i]`
/// telling it for `items[i]`, in order.
pub open spec fn with_text(items: Seq<ItemView>, has_text: Seq<bool>) -> Seq<i64>
    decreases items.len(),
{
    if items.len() == 0 || has_text.len() == 0 {
        seq![]
    } else {
        let rest = with_text(items.drop_last(), has_text.drop_last());
        if has_text.last() {
            rest.push(items.last().id)
        } else {
            rest
        }
    }
}

/// The ids of the errored items that can be retried: those whose processed
/// text exists.
pub fn retryable_ids(items: &Vec<QueueItem>, has_text: &Vec<bool>) -> (r: Vec<i64>)
    requires
        items.len() == has_text.len(),
    ensures
        r@ == with_text(items_view(items@), has_text@),
{
    let ghost iv = items_view(items@);
    let mut r: Vec<i64> = Vec::new();
    let mut i: usize = 0;
    while i < items.len()
        invariant
            i <= items.len(),
            items.len() == has_text.len(),
            iv == items_view(items@),
            iv.len() == items@.len(),
            r@ == with_text(iv.take(i as int), has_text@.take(i as int)),
        decreases items.len() - i,
    {
        assert(iv.take(i + 1).drop_last() =~= iv.take(i as int));
        assert(has_text@.take(i + 1).drop_last() =~= has_text@.take(i as int));
        assert(iv.take(i + 1).last() == items@[i as int]@);
        if has_text[i] {
            r.push(items[i].id);
        }
        i += 1;
    }
    assert(iv.take(i as int) =~= iv);
    assert(has_text@.take(i as int) =~= has_text@);
    r
}

/// The report of a retry that requeued `retried` of `errored` items.
pub open spec fn retry_text(retried: nat, errored: nat) -> Seq<char> {
    "Retry: "@ + dec_nat(retried) + " item(s) requeued, "@ + dec_nat(
        if errored > retried {
            (errored - retried) as nat
        } else {
            0
        },
    ) + " skipped (no processed text or already changed)."@
}

/// The report of a retry: how many errored items were requeued and how
/// many were skipped.
pub fn retry_summary(retried: usize, errored: usize) -> (r: String)
    ensures
        r@ == retry_text(retried as nat, errored as nat),
{
    let mut r = owned("Retry: ");
    push_u64(&mut r, retried as u64);
    r.append(" item(s) requeued, ");
    push_u64(&mut r, errored.saturating_sub(retried) as u64);
    r.append(" skipped (no processed text or already changed).");
    r
}

/// The report of a clear that removed `errors` errored top-level items and
/// `children` errored children.
pub open spec fn clear_text(errors: nat, children: nat) -> Seq<char> {
    if children > 0 {
        "Cleared "@ + dec_nat(errors + children) + " item(s) from the queue ("@ + dec_nat(errors)
            + " errored + "@ + dec_nat(children) + " errored children)."@
    } else {
        "Cleared "@ + dec_nat(errors) + " errored item(s) from the queue."@
    }
}

/// The report of a clear.
pub fn clear_summary(errors: usize, children: usize) -> (r: String)
    requires
        errors + children <= usize::MAX,
    ensures
        r@ == clear_text(errors as nat, children as nat),
{
    if children > 0 {
        let mut r = owned("Cleared ");
        push_u64(&mut r, (errors + children) as u64);
        r.append(" item(s) from the queue (");
        push_u64(&mut r, errors as u64);
        r.append(" errored + ");
        push_u64(&mut r, children as u64);
        r.append(" errored children).");
        r
    } else {
        let mut r = owned("Cleared ");
        push_u64(&mut r, errors as u64);
        r.append(" errored item(s) from the queue.");
        r
    }
}

// ─── Monitor messages ────────────────────────────────────────────────────────

/// The monitor's report of a requeue: `Item <id> requeued`, or why it
/// failed.
pub open spec fn requeue_text(id: i64, outcome: Result<(), QueueError>) -> Seq<char> {
    match outcome {
        Ok(()) => "Item "@ + dec_int(id as int) + " requeued"@,
        Err(e) => "Retry failed for item "@ + dec_int(id as int) + ": "@ + queue_error_text(e),
    }
}

/// The monitor's report of a requeue of item `id`.
pub fn requeue_message(id: i64, outcome: &Result<(), QueueError>) -> (r: String)
    ensures
        r@ == requeue_text(id, *outcome),
{
    match outcome {
        Ok(()) => {
            let mut r = owned("Item ");
            push_i64(&mut r, id);
            r.append(" requeued");
            r
        },
        Err(e) => {
            let mut r = owned("Retry failed for item ");
            push_i64(&mut r, id);
            r.append(": ");
            let m = e.message();
            r.append(m.as_str());
            r
        },
    }
}

/// A status written in capitals, as the detail title shows it.
pub open spec fn status_caps(s: ItemStatus) -> Seq<char> {
    match s {
        ItemStatus::Queued => "QUEUED"@,
        ItemStatus::InProgress => "IN_PROGRESS"@,
        ItemStatus::Complete => "COMPLETE"@,
        ItemStatus::Rejected => "REJECTED"@,
        ItemStatus::Error => "ERROR"@,
    }
}

/// The title of an item's detail: ` Item <id> — <STATUS> `.
pub fn detail_title(id: i64, status: ItemStatus) -> (r: String)
    ensures
        r@ == " Item "@ + dec_int(id as int) + " — "@ + status_caps(status) + " "@,
{
    let mut r = owned(" Item ");
    push_i64(&mut r, id);
    r.append(" — ");
    r.append(
        match status {
            ItemStatus::Queued => "QUEUED",
            ItemStatus::InProgress => "IN_PROGRESS",
            ItemStatus::Complete => "COMPLETE",
            ItemStatus::Rejected => "REJECTED",
            ItemStatus::Error => "ERROR",
        },
    );
    r.append(" ");
    r
}

/// The section of an item's detail below its fields: a heading and the
/// line shown when the item records nothing for it. Items still queued or
/// in progress have none.
pub open spec fn detail_section_text(s: ItemStatus) -> Option<(Seq<char>, Seq<char>)> {
    match s {
        ItemStatus::Error => Some(("ERROR DETAILS"@, "No error message recorded."@)),
        ItemStatus::Rejected => Some(("REJECTION REASON"@, "No rejection reason recorded."@)),
        ItemStatus::Complete => Some(("SOURCE SUMMARY"@, "No wiki page path recorded."@)),
        _ => None,
    }
}

/// The heading of an item's detail section and its fallback line.
pub fn detail_section(s: ItemStatus) -> (r: Option<(&'static str, &'static str)>)
    ensures
        match r {
            Some((h, m)) => detail_section_text(s) == Some((h@, m@)),
            None => detail_section_text(s) is None,
        },
{
    match s {
        ItemStatus::Error => Some(("ERROR DETAILS", "No error message recorded.")),
        ItemStatus::Rejected => Some(("REJECTION REASON", "No rejection reason recorded.")),
        ItemStatus::Complete => Some(("SOURCE SUMMARY", "No wiki page path recorded.")),
        _ => None,
    }
}

// ─── Status filter ───────────────────────────────────────────────────────────

/// Reads an optional status filter: no filter, or the status named; an
/// unknown name is refused with `Invalid status: <name>`.
pub fn status_filter(name: Option<&str>) -> (r: Result<Option<ItemStatus>, String>)
    ensures
        match name {
            None => r == Ok::<Option<ItemStatus>, String>(None),
            Some(n) => match status_from_name(n@) {
                Some(st) => r == Ok::<Option<ItemStatus>, String>(Some(st)),
                None => r matches Err(m) && m@ == "Invalid status: "@ + n@,
            },
        },
{
    match name {
        None => Ok(None),
        Some(n) => match ItemStatus::parse(n) {
            Some(st) => Ok(Some(st)),
            None => {
                let mut m = owned("Invalid status: ");
                m.append(n);
                Err(m)
            },
        },
    }
}

} // verus!
