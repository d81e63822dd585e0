//! The processing queue: every ingested source is an item that moves through
//! `queued -> in_progress -> complete`, or ends `rejected` or `error`.
//!
//! A `Queue` holds its rows in memory, ordered by id; ids are handed out in
//! increasing order. Rows are handed out and listed in creation order: by
//! their `created_at` text, and by id among rows created at the same time.
//! Timestamps are RFC 3339 strings taken from the clock when a row changes.
use vstd::prelude::*;
use crate::clock::{utc_now_rfc3339, utc_rfc3339_text};
use crate::text::{
    chars_equal, chars_of, clone_opt, dec_int, i64_to_string, lemma_text_le_antisymmetric,
    lemma_text_le_reflexive, lemma_text_le_total, lemma_text_le_transitive, opt_view, owned,
    str_equals, text_le, text_lt,
};

verus! {

// ─── Enums ───────────────────────────────────────────────────────────────────

/// Where an item stands in processing.
#[derive(Debug, Clone, Copy, PartialEq, Eq, Structural)]
pub enum ItemStatus {
    Queued,
    InProgress,
    Complete,
    Rejected,
    Error,
}

/// The name under which a status is stored.
pub open spec fn status_name(s: ItemStatus) -> Seq<char> {
    match s {
        ItemStatus::Queued => "queued"@,
        ItemStatus::InProgress => "in_progress"@,
        ItemStatus::Complete => "complete"@,
        ItemStatus::Rejected => "rejected"@,
        ItemStatus::Error => "error"@,
    }
}

/// The status stored under a name, if any.
pub open spec fn status_from_name(n: Seq<char>) -> Option<ItemStatus> {
    if n == "queued"@ {
        Some(ItemStatus::Queued)
    } else if n == "in_progress"@ {
        Some(ItemStatus::InProgress)
    } else if n == "complete"@ {
        Some(ItemStatus::Complete)
    } else if n == "rejected"@ {
        Some(ItemStatus::Rejected)
    } else if n == "error"@ {
        Some(ItemStatus::Error)
    } else {
        None
    }
}

impl ItemStatus {
    /// The stored name of this status.
    pub fn as_str(&self) -> (r: &'static str)
        ensures
            r@ == status_name(*self),
    {
        match self {
            ItemStatus::Queued => "queued",
            ItemStatus::InProgress => "in_progress",
            ItemStatus::Complete => "complete",
            ItemStatus::Rejected => "rejected",
            ItemStatus::Error => "error",
        }
    }

    /// The status stored under `s`, or `None` for an unknown name.
    pub fn parse(s: &str) -> (r: Option<Self>)
        ensures
            r == status_from_name(s@),
    {
        if str_equals(s, "queued") {
            Some(ItemStatus::Queued)
        } else if str_equals(s, "in_progress") {
            Some(ItemStatus::InProgress)
        } else if str_equals(s, "complete") {
            Some(ItemStatus::Complete)
        } else if str_equals(s, "rejected") {
            Some(ItemStatus::Rejected)
        } else if str_equals(s, "error") {
            Some(ItemStatus::Error)
        } else {
            None
        }
    }
}

/// Parsing the stored name of a status gives the status back.
pub proof fn law_status_name_round_trip(s: ItemStatus)
    ensures
        status_from_name(status_name(s)) == Some(s),
{
    reveal_strlit("queued");
    reveal_strlit("in_progress");
    reveal_strlit("complete");
    reveal_strlit("rejected");
    reveal_strlit("error");
    assert("queued"@.len() == 6 && "in_progress"@.len() == 11 && "complete"@.len() == 8
        && "rejected"@.len() == 8 && "error"@.len() == 5);
    assert("complete"@[0] != "rejected"@[0]);
}

/// The kind of source file an item holds.
#[derive(Debug, Clone, Copy, PartialEq, Eq, Structural)]
pub enum FileType {
    Markdown,
    Text,
    Pdf,
    Zip,
    Audio,
    Video,
    Unknown,
}

/// The name under which a file type is stored.
pub open spec fn file_type_name(t: FileType) -> Seq<char> {
    match t {
        FileType::Markdown => "markdown"@,
        FileType::Text => "text"@,
        FileType::Pdf => "pdf"@,
        FileType::Zip => "zip"@,
        FileType::Audio => "audio"@,
        FileType::Video => "video"@,
        FileType::Unknown => "unknown"@,
    }
}

/// The file type stored under a name; unknown names give `Unknown`.
pub open spec fn file_type_from_name(n: Seq<char>) -> FileType {
    if n == "markdown"@ {
        FileType::Markdown
    } else if n == "text"@ {
        FileType::Text
    } else if n == "pdf"@ {
        FileType::Pdf
    } else if n == "zip"@ {
        FileType::Zip
    } else if n == "audio"@ {
        FileType::Audio
    } else if n == "video"@ {
        FileType::Video
    } else {
        FileType::Unknown
    }
}

impl FileType {
    /// The stored name of this file type.
    pub fn as_str(&self) -> (r: &'static str)
        ensures
            r@ == file_type_name(*self),
    {
        match self {
            FileType::Markdown => "markdown",
            FileType::Text => "text",
            FileType::Pdf => "pdf",
            FileType::Zip => "zip",
            FileType::Audio => "audio",
            FileType::Video => "video",
            FileType::Unknown => "unknown",
        }
    }

    /// The file type stored under `s`; any other name is `Unknown`.
    pub fn parse(s: &str) -> (r: Self)
        ensures
            r == file_type_from_name(s@),
    {
        if str_equals(s, "markdown") {
            FileType::Markdown
        } else if str_equals(s, "text") {
            FileType::Text
        } else if str_equals(s, "pdf") {
            FileType::Pdf
        } else if str_equals(s, "zip") {
            FileType::Zip
        } else if str_equals(s, "audio") {
            FileType::Audio
        } else if str_equals(s, "video") {
            FileType::Video
        } else {
            FileType::Unknown
        }
    }
}

/// Parsing the stored name of a file type gives the file type back.
pub proof fn law_file_type_name_round_trip(t: FileType)
    ensures
        file_type_from_name(file_type_name(t)) == t,
{
    reveal_strlit("markdown");
    reveal_strlit("text");
    reveal_strlit("pdf");
    reveal_strlit("zip");
    reveal_strlit("audio");
    reveal_strlit("video");
    reveal_strlit("unknown");
    assert("markdown"@.len() == 8 && "text"@.len() == 4 && "pdf"@.len() == 3 && "zip"@.len()
        == 3 && "audio"@.len() == 5 && "video"@.len() == 5 && "unknown"@.len() == 7);
    assert("pdf"@[0] != "zip"@[0]);
    assert("audio"@[0] != "video"@[0]);
}

// ─── Items ───────────────────────────────────────────────────────────────────

/// One row of the queue.
#[derive(Debug, Clone)]
pub struct QueueItem {
    pub id: i64,
    pub file_path: String,
    pub file_type: FileType,
    pub status: ItemStatus,
    pub parent_id: Option<i64>,
    pub wiki_page_path: Option<String>,
    pub error_message: Option<String>,
    pub created_at: String,
    pub started_at: Option<String>,
    pub completed_at: Option<String>,
}

/// A queue row as plain values.
pub struct ItemView {
    pub id: i64,
    pub file_path: Seq<char>,
    pub file_type: FileType,
    pub status: ItemStatus,
    pub parent_id: Option<i64>,
    pub wiki_page_path: Option<Seq<char>>,
    pub error_message: Option<Seq<char>>,
    pub created_at: Seq<char>,
    pub started_at: Option<Seq<char>>,
    pub completed_at: Option<Seq<char>>,
}

impl View for QueueItem {
    type V = ItemView;

    open spec fn view(&self) -> ItemView {
        ItemView {
            id: self.id,
            file_path: self.file_path@,
            file_type: self.file_type,
            status: self.status,
            parent_id: self.parent_id,
            wiki_page_path: opt_view(self.wiki_page_path),
            error_message: opt_view(self.error_message),
            created_at: self.created_at@,
            started_at: opt_view(self.started_at),
            completed_at: opt_view(self.completed_at),
        }
    }
}

impl QueueItem {
    /// A copy of this row.
    pub fn duplicate(&self) -> (r: Self)
        ensures
            r@ == self@,
    {
        QueueItem {
            id: self.id,
            file_path: self.file_path.clone(),
            file_type: self.file_type,
            status: self.status,
            parent_id: self.parent_id,
            wiki_page_path: clone_opt(&self.wiki_page_path),
            error_message: clone_opt(&self.error_message),
            created_at: self.created_at.clone(),
            started_at: clone_opt(&self.started_at),
            completed_at: clone_opt(&self.completed_at),
        }
    }
}

/// The views of a sequence of rows.
pub open spec fn items_view(v: Seq<QueueItem>) -> Seq<ItemView> {
    v.map_values(|it: QueueItem| it@)
}

// ─── Errors ──────────────────────────────────────────────────────────────────

/// Why a queue operation failed.
#[derive(Debug)]
pub enum QueueError {
    Database(String),
    NotFound(i64),
    InvalidStatus(String),
    AlreadyEnqueued(String),
    InvalidTransition { id: i64, expected: String, actual: String },
    /// The system clock could not be read as a time after the Unix epoch.
    ClockUnavailable,
}

/// The text that describes a queue error.
pub open spec fn queue_error_text(e: QueueError) -> Seq<char> {
    match e {
        QueueError::Database(m) => "database error: "@ + m@,
        QueueError::NotFound(id) => "item not found: "@ + dec_int(id as int),
        QueueError::InvalidStatus(s) => "invalid status: "@ + s@,
        QueueError::AlreadyEnqueued(p) => "file already enqueued: "@ + p@,
        QueueError::InvalidTransition { id, expected, actual } => "invalid status transition for item "@
            + dec_int(id as int) + ": expected "@ + expected@ + ", got "@ + actual@,
        QueueError::ClockUnavailable => "clock error: the current time cannot be read"@,
    }
}

impl QueueError {
    /// The text that describes this error.
    pub fn message(&self) -> (r: String)
        ensures
            r@ == queue_error_text(*self),
    {
        match self {
            QueueError::Database(m) => {
                let mut r = owned("database error: ");
                r.append(m.as_str());
                r
            },
            QueueError::NotFound(id) => {
                let mut r = owned("item not found: ");
                let n = i64_to_string(*id);
                r.append(n.as_str());
                r
            },
            QueueError::InvalidStatus(st) => {
                let mut r = owned("invalid status: ");
                r.append(st.as_str());
                r
            },
            QueueError::AlreadyEnqueued(p) => {
                let mut r = owned("file already enqueued: ");
                r.append(p.as_str());
                r
            },
            QueueError::InvalidTransition { id, expected, actual } => {
                let mut r = owned("invalid status transition for item ");
                let n = i64_to_string(*id);
                r.append(n.as_str());
                r.append(": expected ");
                r.append(expected.as_str());
                r.append(", got ");
                r.append(actual.as_str());
                r
            },
            QueueError::ClockUnavailable => owned("clock error: the current time cannot be read"),
        }
    }
}

// ─── Abstract state ──────────────────────────────────────────────────────────

/// The key of the uniqueness rule on rows: a path may be enqueued once per
/// parent, and an absent parent counts as parent 0.
pub open spec fn parent_key(p: Option<i64>) -> int {
    match p {
        Some(x) => x as int,
        None => 0,
    }
}

/// Whether two rows share a path and a parent key.
pub open spec fn same_key(a: ItemView, b: ItemView) -> bool {
    a.file_path == b.file_path && parent_key(a.parent_id) == parent_key(b.parent_id)
}

/// The whole queue as plain values: its rows in id order, and the id that
/// the next enqueued row receives.
pub struct QueueState {
    pub items: Seq<ItemView>,
    pub next_id: int,
}

/// A fresh row with status `Queued`.
pub open spec fn new_row(
    id: int,
    file_path: Seq<char>,
    file_type: FileType,
    parent_id: Option<i64>,
    now: Seq<char>,
) -> ItemView {
    ItemView {
        id: id as i64,
        file_path,
        file_type,
        status: ItemStatus::Queued,
        parent_id,
        wiki_page_path: None,
        error_message: None,
        created_at: now,
        started_at: None,
        completed_at: None,
    }
}

impl QueueState {
    /// Ids are positive, below `next_id` and strictly increasing, and no
    /// two rows share a path and parent key.
    pub open spec fn valid(self) -> bool {
        &&& 1 <= self.next_id <= i64::MAX
        &&& forall|i: int|
            0 <= i < self.items.len() ==> 1 <= #[trigger] self.items[i].id < self.next_id
        &&& forall|i: int, j: int|
            #![trigger self.items[i], self.items[j]]
            0 <= i < j < self.items.len() ==> self.items[i].id < self.items[j].id
        &&& forall|i: int, j: int|
            #![trigger self.items[i], self.items[j]]
            0 <= i < self.items.len() && 0 <= j < self.items.len() && i != j ==> !same_key(
                self.items[i],
                self.items[j],
            )
    }

    /// The row with id `id`, if there is one.
    pub open spec fn find(self, id: i64) -> Option<ItemView> {
        if exists|i: int| 0 <= i < self.items.len() && self.items[i].id == id {
            Some(
                self.items[choose|i: int| 0 <= i < self.items.len() && self.items[i].id == id],
            )
        } else {
            None
        }
    }

    /// Whether a row with path `path` and the parent key of `parent` exists.
    pub open spec fn has_key(self, path: Seq<char>, parent: Option<i64>) -> bool {
        exists|i: int|
            0 <= i < self.items.len() && self.items[i].file_path == path && parent_key(
                self.items[i].parent_id,
            ) == parent_key(parent)
    }

    /// Whether a row with path `path` and exactly the parent `parent` exists.
    pub open spec fn has_entry(self, path: Seq<char>, parent: Option<i64>) -> bool {
        exists|i: int|
            0 <= i < self.items.len() && self.items[i].file_path == path
                && self.items[i].parent_id == parent
    }

    /// The state after appending a fresh queued row under `next_id`.
    pub open spec fn enqueued(
        self,
        path: Seq<char>,
        file_type: FileType,
        parent: Option<i64>,
        now: Seq<char>,
    ) -> QueueState {
        QueueState {
            items: self.items.push(new_row(self.next_id, path, file_type, parent, now)),
            next_id: self.next_id + 1,
        }
    }

    /// The state after applying `f` to the row with id `id`.
    pub open spec fn update(self, id: i64, f: spec_fn(ItemView) -> ItemView) -> QueueState {
        QueueState {
            items: self.items.map_values(|it: ItemView| if it.id == id { f(it) } else { it }),
            next_id: self.next_id,
        }
    }

    /// Row `id` moved to `in_progress`, started at `now`.
    pub open spec fn started(self, id: i64, now: Seq<char>) -> QueueState {
        self.update(id, start_row(now))
    }

    /// Row `id` moved to `complete`, with its wiki page and completion time.
    pub open spec fn completed(self, id: i64, page: Seq<char>, now: Seq<char>) -> QueueState {
        self.update(id, complete_row(page, now))
    }

    /// Row `id` moved to `rejected`, with the reason and completion time.
    pub open spec fn rejected(self, id: i64, reason: Seq<char>, now: Seq<char>) -> QueueState {
        self.update(id, reject_row(reason, now))
    }

    /// Row `id` moved to `error`, with the message and completion time.
    pub open spec fn errored(self, id: i64, message: Seq<char>, now: Seq<char>) -> QueueState {
        self.update(id, error_row(message, now))
    }
}

/// A row moved to `in_progress`, started at `now`.
pub open spec fn start_row(now: Seq<char>) -> spec_fn(ItemView) -> ItemView {
    |it: ItemView| ItemView { status: ItemStatus::InProgress, started_at: Some(now), ..it }
}

/// A row moved to `complete`, with its wiki page and completion time.
pub open spec fn complete_row(page: Seq<char>, now: Seq<char>) -> spec_fn(ItemView) -> ItemView {
    |it: ItemView|
        ItemView {
            status: ItemStatus::Complete,
            wiki_page_path: Some(page),
            completed_at: Some(now),
            ..it
        }
}

/// A row moved to `rejected`, with the reason and completion time.
pub open spec fn reject_row(reason: Seq<char>, now: Seq<char>) -> spec_fn(ItemView) -> ItemView {
    |it: ItemView|
        ItemView {
            status: ItemStatus::Rejected,
            error_message: Some(reason),
            completed_at: Some(now),
            ..it
        }
}

/// A row moved to `error`, with the message and completion time.
pub open spec fn error_row(message: Seq<char>, now: Seq<char>) -> spec_fn(ItemView) -> ItemView {
    |it: ItemView|
        ItemView {
            status: ItemStatus::Error,
            error_message: Some(message),
            completed_at: Some(now),
            ..it
        }
}

/// A row at position `k` is what `find` gives for its id.
pub proof fn lemma_find_at(s: QueueState, k: int)
    requires
        s.valid(),
        0 <= k < s.items.len(),
    ensures
        s.find(s.items[k].id) == Some(s.items[k]),
{
    let id = s.items[k].id;
    assert(exists|i: int| 0 <= i < s.items.len() && s.items[i].id == id);
    let c = choose|i: int| 0 <= i < s.items.len() && s.items[i].id == id;
    if c < k {
        assert(s.items[c].id < s.items[k].id);
    } else if c > k {
        assert(s.items[k].id < s.items[c].id);
    }
}

/// Replacing the row at `k` by `f` of it is `update` on its id.
proof fn lemma_update_at(s: QueueState, k: int, f: spec_fn(ItemView) -> ItemView)
    requires
        s.valid(),
        0 <= k < s.items.len(),
    ensures
        s.items.update(k, f(s.items[k])) =~= s.update(s.items[k].id, f).items,
{
    let id = s.items[k].id;
    assert forall|j: int| 0 <= j < s.items.len() && j != k implies s.items[j].id != id by {
        if j < k {
            assert(s.items[j].id < s.items[k].id);
        } else {
            assert(s.items[k].id < s.items[j].id);
        }
    }
}

/// Replacing a row by one with the same id, path and parent keeps validity.
proof fn lemma_valid_replace(s: QueueState, k: int, x: ItemView)
    requires
        s.valid(),
        0 <= k < s.items.len(),
        x.id == s.items[k].id,
        x.file_path == s.items[k].file_path,
        x.parent_id == s.items[k].parent_id,
    ensures
        (QueueState { items: s.items.update(k, x), next_id: s.next_id }).valid(),
{
    let t = QueueState { items: s.items.update(k, x), next_id: s.next_id };
    assert forall|i: int, j: int|
        #![trigger t.items[i], t.items[j]]
        0 <= i < t.items.len() && 0 <= j < t.items.len() && i != j implies !same_key(
        t.items[i],
        t.items[j],
    ) by {
        assert(same_key(t.items[i], t.items[j]) == same_key(s.items[i], s.items[j]));
    }
    assert forall|i: int, j: int|
        #![trigger t.items[i], t.items[j]]
        0 <= i < j < t.items.len() implies t.items[i].id < t.items[j].id by {
        assert(s.items[i].id < s.items[j].id);
    }
}

/// Rows with status `s`.
pub open spec fn with_status(s: ItemStatus) -> spec_fn(ItemView) -> bool {
    |it: ItemView| it.status == s
}

/// Rows whose parent is `p`.
pub open spec fn child_of(p: i64) -> spec_fn(ItemView) -> bool {
    |it: ItemView| it.parent_id == Some(p)
}

/// Rows with status `s` and no parent.
pub open spec fn top_with_status(s: ItemStatus) -> spec_fn(ItemView) -> bool {
    |it: ItemView| it.status == s && it.parent_id is None
}

/// Rows with status `s` and a parent.
pub open spec fn child_with_status(s: ItemStatus) -> spec_fn(ItemView) -> bool {
    |it: ItemView| it.status == s && it.parent_id is Some
}

/// Rows whose status is not `s`.
pub open spec fn without_status(s: ItemStatus) -> spec_fn(ItemView) -> bool {
    |it: ItemView| it.status != s
}

/// Every row.
pub open spec fn any_row() -> spec_fn(ItemView) -> bool {
    |it: ItemView| true
}

// ─── Creation order ──────────────────────────────────────────────────────────

/// Whether row `a` comes before row `b` in creation order: an earlier
/// `created_at` text (compared as text), or the same one and a smaller id.
pub open spec fn created_before(a: ItemView, b: ItemView) -> bool {
    !text_le(b.created_at, a.created_at) || (a.created_at == b.created_at && a.id < b.id)
}

/// Whether the rows of `s` stand in creation order.
pub open spec fn in_creation_order(s: Seq<ItemView>) -> bool {
    forall|i: int, j: int| 0 <= i < j < s.len() ==> created_before(#[trigger] s[i], #[trigger] s[j])
}

/// The row of `s` created first, if `s` has one.
pub open spec fn earliest(s: Seq<ItemView>) -> Option<ItemView>
    decreases s.len(),
{
    if s.len() == 0 {
        None
    } else {
        match earliest(s.drop_last()) {
            Some(e) => if created_before(s.last(), e) {
                Some(s.last())
            } else {
                Some(e)
            },
            None => Some(s.last()),
        }
    }
}

/// No row comes before itself.
pub proof fn lemma_created_before_irreflexive(a: ItemView)
    ensures
        !created_before(a, a),
{
    lemma_text_le_reflexive(a.created_at);
}

/// Creation order is transitive.
pub proof fn lemma_created_before_transitive(a: ItemView, b: ItemView, c: ItemView)
    requires
        created_before(a, b),
        created_before(b, c),
    ensures
        created_before(a, c),
{
    lemma_text_le_total(a.created_at, b.created_at);
    lemma_text_le_total(b.created_at, c.created_at);
    lemma_text_le_total(a.created_at, c.created_at);
    if text_le(a.created_at, b.created_at) && text_le(b.created_at, c.created_at) {
        lemma_text_le_transitive(a.created_at, b.created_at, c.created_at);
    }
    if text_le(c.created_at, a.created_at) && text_le(a.created_at, c.created_at) {
        lemma_text_le_antisymmetric(a.created_at, c.created_at);
    }
    if text_le(b.created_at, a.created_at) && text_le(a.created_at, b.created_at) {
        lemma_text_le_antisymmetric(a.created_at, b.created_at);
    }
    if text_le(c.created_at, b.created_at) && text_le(b.created_at, c.created_at) {
        lemma_text_le_antisymmetric(b.created_at, c.created_at);
    }
}

/// Of two rows with different ids, one comes before the other, and not
/// both ways.
pub proof fn lemma_created_before_total(a: ItemView, b: ItemView)
    requires
        a.id != b.id,
    ensures
        created_before(a, b) || created_before(b, a),
        !(created_before(a, b) && created_before(b, a)),
{
    lemma_text_le_total(a.created_at, b.created_at);
    if text_le(a.created_at, b.created_at) && text_le(b.created_at, a.created_at) {
        lemma_text_le_antisymmetric(a.created_at, b.created_at);
    }
}

/// What `earliest` picks: a row of `s` before which no row of `s` was
/// created; nothing only for an empty `s`.
pub proof fn lemma_earliest(s: Seq<ItemView>)
    ensures
        earliest(s) is None <==> s.len() == 0,
        earliest(s) matches Some(e) ==> s.contains(e) && forall|i: int|
            0 <= i < s.len() ==> !created_before(#[trigger] s[i], e),
    decreases s.len(),
{
    if s.len() > 0 {
        let d = s.drop_last();
        lemma_earliest(d);
        let x = s.last();
        assert(s[s.len() - 1] == x);
        match earliest(d) {
            Some(e) => {
                let k = choose|k: int| 0 <= k < d.len() && d[k] == e;
                assert(s[k] == e);
                if created_before(x, e) {
                    assert forall|i: int| 0 <= i < s.len() implies !created_before(
                        #[trigger] s[i],
                        x,
                    ) by {
                        if i < d.len() {
                            assert(s[i] == d[i]);
                            assert(!created_before(d[i], e));
                            if created_before(s[i], x) {
                                lemma_created_before_transitive(s[i], x, e);
                            }
                        } else {
                            lemma_created_before_irreflexive(x);
                        }
                    }
                } else {
                    assert forall|i: int| 0 <= i < s.len() implies !created_before(
                        #[trigger] s[i],
                        e,
                    ) by {
                        if i < d.len() {
                            assert(s[i] == d[i]);
                        }
                    }
                }
            },
            None => {
                lemma_created_before_irreflexive(x);
            },
        }
    }
}

impl QueueState {
    /// The rows that `p` admits, in id order.
    pub open spec fn select(self, p: spec_fn(ItemView) -> bool) -> Seq<ItemView> {
        self.items.filter(p)
    }

    /// The queued row created first.
    pub open spec fn next_queued(self) -> Option<ItemView> {
        earliest(self.select(with_status(ItemStatus::Queued)))
    }

    /// The queued row without a parent created first.
    pub open spec fn next_queued_top(self) -> Option<ItemView> {
        earliest(self.select(top_with_status(ItemStatus::Queued)))
    }

    /// How many rows have status `s`.
    pub open spec fn count(self, s: ItemStatus) -> nat {
        self.select(with_status(s)).len()
    }

    /// Whether every row whose parent is `p` is `complete`.
    pub open spec fn children_complete(self, p: i64) -> bool {
        forall|i: int|
            0 <= i < self.items.len() && self.items[i].parent_id == Some(p)
                ==> #[trigger] self.items[i].status == ItemStatus::Complete
    }
}

/// A row put back to `queued`, with its error and times cleared.
pub open spec fn requeue_row() -> spec_fn(ItemView) -> ItemView {
    |it: ItemView|
        ItemView {
            status: ItemStatus::Queued,
            error_message: None,
            started_at: None,
            completed_at: None,
            ..it
        }
}

/// A row put back to `queued` if it was `in_progress`.
pub open spec fn reset_row() -> spec_fn(ItemView) -> ItemView {
    |it: ItemView|
        if it.status == ItemStatus::InProgress {
            ItemView { status: ItemStatus::Queued, started_at: None, ..it }
        } else {
            it
        }
}

impl QueueState {
    /// Every `in_progress` row put back to `queued`, its start time cleared.
    pub open spec fn reset(self) -> QueueState {
        QueueState { items: self.items.map_values(reset_row()), next_id: self.next_id }
    }

    /// Row `id` requeued when it is in `error`; the state is unchanged
    /// otherwise. The count says whether it was requeued.
    pub open spec fn requeue_errored(self, id: i64) -> (QueueState, nat) {
        match self.find(id) {
            Some(it) => if it.status == ItemStatus::Error {
                (self.update(id, requeue_row()), 1)
            } else {
                (self, 0)
            },
            None => (self, 0),
        }
    }

    /// The ids requeued one after the other, and how many were.
    pub open spec fn requeue_all(self, ids: Seq<i64>) -> (QueueState, nat)
        decreases ids.len(),
    {
        if ids.len() == 0 {
            (self, 0)
        } else {
            let (s1, n1) = self.requeue_all(ids.drop_last());
            let (s2, n2) = s1.requeue_errored(ids.last());
            (s2, n1 + n2)
        }
    }

    /// Every row in `error` removed.
    pub open spec fn without_errors(self) -> QueueState {
        QueueState { items: self.select(without_status(ItemStatus::Error)), next_id: self.next_id }
    }

    /// `(status name, count)` for each status that some row has, in the
    /// alphabetical order of the names.
    pub open spec fn status_counts(self) -> Seq<(Seq<char>, nat)> {
        self.counts_in(
            seq![
                ItemStatus::Complete,
                ItemStatus::Error,
                ItemStatus::InProgress,
                ItemStatus::Queued,
                ItemStatus::Rejected,
            ],
        )
    }

    /// `(status name, count)` for the statuses of `order` that some row has.
    pub open spec fn counts_in(self, order: Seq<ItemStatus>) -> Seq<(Seq<char>, nat)>
        decreases order.len(),
    {
        if order.len() == 0 {
            seq![]
        } else {
            let rest = self.counts_in(order.drop_last());
            let st = order.last();
            if self.count(st) > 0 {
                rest.push((status_name(st), self.count(st)))
            } else {
                rest
            }
        }
    }
}

/// The pairs of a status count table as plain values.
pub open spec fn counts_view(v: Seq<(String, u64)>) -> Seq<(Seq<char>, nat)> {
    v.map_values(|p: (String, u64)| (p.0@, p.1 as nat))
}

/// A filter that admits every row keeps the sequence.
pub proof fn lemma_filter_all(s: Seq<ItemView>)
    ensures
        s.filter(any_row()) == s,
    decreases s.len(),
{
    reveal(Seq::filter);
    if s.len() > 0 {
        lemma_filter_all(s.drop_last());
        assert(s.drop_last().push(s.last()) =~= s);
    }
}

/// Filtering rows keeps the queue valid.
pub proof fn lemma_valid_filter(s: QueueState, p: spec_fn(ItemView) -> bool)
    requires
        s.valid(),
    ensures
        (QueueState { items: s.items.filter(p), next_id: s.next_id }).valid(),
    decreases s.items.len(),
{
    reveal(Seq::filter);
    if s.items.len() > 0 {
        let d = QueueState { items: s.items.drop_last(), next_id: s.next_id };
        assert forall|i: int, j: int|
            #![trigger d.items[i], d.items[j]]
            0 <= i < d.items.len() && 0 <= j < d.items.len() && i != j implies !same_key(
            d.items[i],
            d.items[j],
        ) by {
            assert(d.items[i] == s.items[i] && d.items[j] == s.items[j]);
        }
        assert forall|i: int, j: int|
            #![trigger d.items[i], d.items[j]]
            0 <= i < j < d.items.len() implies d.items[i].id < d.items[j].id by {
            assert(d.items[i] == s.items[i] && d.items[j] == s.items[j]);
        }
        assert forall|i: int| 0 <= i < d.items.len() implies 1 <= #[trigger] d.items[i].id
            < d.next_id by {
            assert(d.items[i] == s.items[i]);
        }
        lemma_valid_filter(d, p);
        let f = d.items.filter(p);
        let fs = QueueState { items: f, next_id: s.next_id };
        assert(fs.valid());
        let last = s.items.last();
        let n = s.items.len() - 1;
        if p(last) {
            let t = QueueState { items: f.push(last), next_id: s.next_id };
            assert forall|i: int| 0 <= i < f.len() implies (#[trigger] f[i]).id < last.id
                && !same_key(f[i], last) && !same_key(last, f[i]) by {
                assert(f.contains(f[i]));
                d.items.lemma_filter_contains_rev(p, f[i]);
                let j = choose|j: int| 0 <= j < d.items.len() && d.items[j] == f[i];
                assert(s.items[j] == f[i]);
                assert(s.items[j].id < s.items[n].id);
                assert(!same_key(s.items[j], s.items[n]));
            }
            assert forall|i: int, j: int|
                #![trigger t.items[i], t.items[j]]
                0 <= i < t.items.len() && 0 <= j < t.items.len() && i != j implies !same_key(
                t.items[i],
                t.items[j],
            ) by {
                if i < f.len() && j < f.len() {
                    assert(t.items[i] == fs.items[i] && t.items[j] == fs.items[j]);
                    assert(!same_key(fs.items[i], fs.items[j]));
                } else if i < f.len() {
                    assert(t.items[i] == f[i]);
                } else {
                    assert(t.items[j] == f[j]);
                }
            }
            assert forall|i: int, j: int|
                #![trigger t.items[i], t.items[j]]
                0 <= i < j < t.items.len() implies t.items[i].id < t.items[j].id by {
                assert(t.items[i] == fs.items[i]);
                if j < f.len() {
                    assert(t.items[j] == fs.items[j]);
                    assert(fs.items[i].id < fs.items[j].id);
                }
            }
            assert forall|i: int| 0 <= i < t.items.len() implies 1 <= #[trigger] t.items[i].id
                < t.next_id by {
                if i < f.len() {
                    assert(t.items[i] == f[i]);
                }
            }
        }
    }
}

/// Which rows a scan keeps.
enum RowFilter {
    Status(ItemStatus),
    NotStatus(ItemStatus),
    TopWithStatus(ItemStatus),
    ChildWithStatus(ItemStatus),
    Parent(i64),
    All,
}

impl RowFilter {
    spec fn pred(self) -> spec_fn(ItemView) -> bool {
        match self {
            RowFilter::Status(s) => with_status(s),
            RowFilter::NotStatus(s) => without_status(s),
            RowFilter::TopWithStatus(s) => top_with_status(s),
            RowFilter::ChildWithStatus(s) => child_with_status(s),
            RowFilter::Parent(p) => child_of(p),
            RowFilter::All => any_row(),
        }
    }

    fn admits(&self, it: &QueueItem) -> (r: bool)
        ensures
            r == (self.pred())(it@),
    {
        match self {
            RowFilter::Status(s) => it.status == *s,
            RowFilter::NotStatus(s) => it.status != *s,
            RowFilter::TopWithStatus(s) => it.status == *s && it.parent_id.is_none(),
            RowFilter::ChildWithStatus(s) => it.status == *s && it.parent_id.is_some(),
            RowFilter::Parent(p) => it.parent_id == Some(*p),
            RowFilter::All => true,
        }
    }
}

/// One more element of a prefix, filtered.
proof fn lemma_filter_take_step(s: Seq<ItemView>, p: spec_fn(ItemView) -> bool, k: int)
    requires
        0 <= k < s.len(),
    ensures
        s.take(k + 1).filter(p) == if p(s[k]) {
            s.take(k).filter(p).push(s[k])
        } else {
            s.take(k).filter(p)
        },
{
    reveal(Seq::filter);
    assert(s.take(k + 1).drop_last() =~= s.take(k));
    assert(s.take(k + 1).last() == s[k]);
}

/// Whether row `a` was created before row `b`.
fn created_before_exec(a: &QueueItem, b: &QueueItem) -> (r: bool)
    ensures
        r == created_before(a@, b@),
{
    let ac = chars_of(a.created_at.as_str());
    let bc = chars_of(b.created_at.as_str());
    if text_lt(&ac, &bc) {
        true
    } else if chars_equal(&ac, &bc) {
        a.id < b.id
    } else {
        false
    }
}

/// The rows of `v` in creation order. The ids of `v` rise strictly.
fn order_rows(v: Vec<QueueItem>) -> (r: Vec<QueueItem>)
    requires
        forall|i: int, j: int|
            0 <= i < j < v@.len() ==> (#[trigger] v@[i]).id < (#[trigger] v@[j]).id,
    ensures
        in_creation_order(items_view(r@)),
        items_view(r@).to_multiset() == items_view(v@).to_multiset(),
{
    let ghost pv = items_view(v@);
    let mut r: Vec<QueueItem> = Vec::new();
    let mut i: usize = 0;
    proof {
        assert(pv.take(0) =~= Seq::<ItemView>::empty());
        assert(items_view(r@) =~= Seq::<ItemView>::empty());
    }
    while i < v.len()
        invariant
            i <= v.len(),
            pv == items_view(v@),
            pv.len() == v@.len(),
            forall|a: int, b: int| 0 <= a < b < pv.len() ==> (#[trigger] pv[a]).id < (
            #[trigger] pv[b]).id,
            in_creation_order(items_view(r@)),
            items_view(r@).to_multiset() == pv.take(i as int).to_multiset(),
            forall|j: int, m: int|
                0 <= j < r@.len() && i <= m < pv.len() ==> (#[trigger] items_view(r@)[j]).id < (
                #[trigger] pv[m]).id,
        decreases v.len() - i,
    {
        let x = v[i].duplicate();
        let ghost rv = items_view(r@);
        assert(pv[i as int] == x@);
        let mut pos: usize = 0;
        while pos < r.len()
            invariant
                pos <= r.len(),
                rv == items_view(r@),
                rv.len() == r@.len(),
                forall|j: int| 0 <= j < pos ==> !created_before(x@, #[trigger] rv[j]),
            ensures
                pos <= r.len(),
                forall|j: int| 0 <= j < pos ==> !created_before(x@, #[trigger] rv[j]),
                pos < r.len() ==> created_before(x@, rv[pos as int]),
            decreases r.len() - pos,
        {
            assert(rv[pos as int] == r@[pos as int]@);
            if created_before_exec(&x, &r[pos]) {
                break;
            }
            pos += 1;
        }
        r.insert(pos, x);
        proof {
            let nv = rv.insert(pos as int, x@);
            assert(items_view(r@) =~= nv);
            assert forall|a: int, b: int| 0 <= a < b < nv.len() implies created_before(
                #[trigger] nv[a],
                #[trigger] nv[b],
            ) by {
                if b < pos {
                    assert(nv[a] == rv[a] && nv[b] == rv[b]);
                } else if b == pos {
                    assert(nv[a] == rv[a] && nv[b] == x@);
                    assert(rv[a].id < pv[i as int].id);
                    lemma_created_before_total(rv[a], x@);
                } else if a < pos {
                    assert(nv[a] == rv[a] && nv[b] == rv[b - 1]);
                } else if a == pos {
                    assert(nv[a] == x@ && nv[b] == rv[b - 1]);
                    if b - 1 > pos {
                        assert(created_before(rv[pos as int], rv[b - 1]));
                        lemma_created_before_transitive(x@, rv[pos as int], rv[b - 1]);
                    }
                } else {
                    assert(nv[a] == rv[a - 1] && nv[b] == rv[b - 1]);
                }
            }
            assert forall|j: int, m: int|
                0 <= j < nv.len() && i + 1 <= m < pv.len() implies (#[trigger] nv[j]).id < (
                #[trigger] pv[m]).id by {
                if j < pos {
                    assert(nv[j] == rv[j]);
                } else if j == pos {
                    assert(nv[j] == pv[i as int]);
                } else {
                    assert(nv[j] == rv[j - 1]);
                }
            }
            vstd::seq_lib::to_multiset_insert(rv, pos as int, x@);
            assert(pv.take(i + 1) =~= pv.take(i as int).push(x@));
            vstd::seq_lib::to_multiset_build(pv.take(i as int), x@);
        }
        i += 1;
    }
    proof {
        assert(pv.take(i as int) =~= pv);
    }
    r
}

// ─── The queue ───────────────────────────────────────────────────────────────

/// The processing queue.
pub struct Queue {
    items: Vec<QueueItem>,
    next_id: i64,
}

impl View for Queue {
    type V = QueueState;

    closed spec fn view(&self) -> QueueState {
        QueueState { items: items_view(self.items@), next_id: self.next_id as int }
    }
}

impl Queue {
    /// The queue's rows and id counter are consistent.
    pub open spec fn wf(&self) -> bool {
        self@.valid()
    }

    /// An empty queue whose first item gets id 1.
    pub fn open_in_memory() -> (r: Result<Queue, QueueError>)
        ensures
            r matches Ok(q) && q.wf() && q@.items.len() == 0 && q@.next_id == 1,
    {
        let q = Queue { items: Vec::new(), next_id: 1 };
        assert(q@.items =~= Seq::<ItemView>::empty());
        Ok(q)
    }

    /// Position of the row with id `id`.
    fn index_of(&self, id: i64) -> (r: Option<usize>)
        requires
            self.wf(),
        ensures
            match r {
                Some(k) => k < self@.items.len() && self@.items[k as int].id == id
                    && self@.find(id) == Some(self@.items[k as int]),
                None => self@.find(id) is None,
            },
    {
        let mut k: usize = 0;
        while k < self.items.len()
            invariant
                self.wf(),
                k <= self.items.len(),
                self@.items.len() == self.items@.len(),
                forall|j: int| 0 <= j < k ==> self@.items[j].id != id,
            decreases self.items.len() - k,
        {
            if self.items[k].id == id {
                proof {
                    assert(self@.items[k as int] == self.items@[k as int]@);
                    lemma_find_at(self@, k as int);
                }
                return Some(k);
            }
            assert(self@.items[k as int] == self.items@[k as int]@);
            k += 1;
        }
        None
    }

    /// Replaces the row at `k` by `x`, which keeps its id, path and parent.
    fn replace_at(&mut self, k: usize, x: QueueItem)
        requires
            old(self).wf(),
            k < old(self)@.items.len(),
            x@.id == old(self)@.items[k as int].id,
            x@.file_path == old(self)@.items[k as int].file_path,
            x@.parent_id == old(self)@.items[k as int].parent_id,
        ensures
            final(self).wf(),
            final(self)@ == (QueueState {
                items: old(self)@.items.update(k as int, x@),
                next_id: old(self)@.next_id,
            }),
    {
        proof {
            lemma_valid_replace(self@, k as int, x@);
        }
        self.items.set(k, x);
        assert(self@.items =~= old(self)@.items.update(k as int, x@));
    }

    /// Copies of the rows that `f` admits, in id order.
    fn collect(&self, f: RowFilter) -> (r: Vec<QueueItem>)
        requires
            self.wf(),
        ensures
            items_view(r@) == self@.select(f.pred()),
    {
        let mut r: Vec<QueueItem> = Vec::new();
        let mut k: usize = 0;
        while k < self.items.len()
            invariant
                k <= self.items.len(),
                self@.items.len() == self.items@.len(),
                items_view(r@) == self@.items.take(k as int).filter(f.pred()),
            decreases self.items.len() - k,
        {
            assert(self@.items[k as int] == self.items@[k as int]@);
            proof {
                lemma_filter_take_step(self@.items, f.pred(), k as int);
            }
            if f.admits(&self.items[k]) {
                let x = self.items[k].duplicate();
                let ghost before = r@;
                r.push(x);
                assert(items_view(r@) =~= items_view(before).push(x@));
            }
            k += 1;
        }
        assert(self@.items.take(k as int) =~= self@.items);
        r
    }

    /// Copies of the rows that `f` admits, in creation order.
    fn collect_in_creation_order(&self, f: RowFilter) -> (r: Vec<QueueItem>)
        requires
            self.wf(),
        ensures
            in_creation_order(items_view(r@)),
            items_view(r@).to_multiset() == self@.select(f.pred()).to_multiset(),
    {
        let c = self.collect(f);
        proof {
            lemma_valid_filter(self@, f.pred());
            assert forall|i: int, j: int| 0 <= i < j < c@.len() implies (#[trigger] c@[i]).id < (
            #[trigger] c@[j]).id by {
                assert(items_view(c@)[i] == c@[i]@ && items_view(c@)[j] == c@[j]@);
            }
        }
        order_rows(c)
    }

    /// How many rows `f` admits.
    fn count_where(&self, f: RowFilter) -> (r: usize)
        requires
            self.wf(),
        ensures
            r == self@.select(f.pred()).len(),
    {
        let mut n: usize = 0;
        let mut k: usize = 0;
        while k < self.items.len()
            invariant
                k <= self.items.len(),
                self@.items.len() == self.items@.len(),
                n == self@.items.take(k as int).filter(f.pred()).len(),
                n <= k,
            decreases self.items.len() - k,
        {
            assert(self@.items[k as int] == self.items@[k as int]@);
            proof {
                lemma_filter_take_step(self@.items, f.pred(), k as int);
            }
            if f.admits(&self.items[k]) {
                n += 1;
            }
            k += 1;
        }
        assert(self@.items.take(k as int) =~= self@.items);
        n
    }

    /// Position of the row that `f` admits created first.
    fn earliest_where(&self, f: RowFilter) -> (r: Option<usize>)
        requires
            self.wf(),
        ensures
            match r {
                Some(k) => k < self@.items.len() && earliest(self@.select(f.pred())) == Some(
                    self@.items[k as int],
                ),
                None => earliest(self@.select(f.pred())) is None,
            },
    {
        let mut best: Option<usize> = None;
        let mut k: usize = 0;
        while k < self.items.len()
            invariant
                k <= self.items.len(),
                self@.items.len() == self.items@.len(),
                match best {
                    Some(b) => b < k && earliest(self@.items.take(k as int).filter(f.pred()))
                        == Some(self@.items[b as int]),
                    None => earliest(self@.items.take(k as int).filter(f.pred())) is None,
                },
            decreases self.items.len() - k,
        {
            assert(self@.items[k as int] == self.items@[k as int]@);
            proof {
                lemma_filter_take_step(self@.items, f.pred(), k as int);
            }
            if f.admits(&self.items[k]) {
                let ghost prev = self@.items.take(k as int).filter(f.pred());
                assert(prev.push(self@.items[k as int]).drop_last() =~= prev);
                match best {
                    Some(b) => {
                        assert(self@.items[b as int] == self.items@[b as int]@);
                        if created_before_exec(&self.items[k], &self.items[b]) {
                            best = Some(k);
                        }
                    },
                    None => {
                        best = Some(k);
                    },
                }
            }
            k += 1;
        }
        assert(self@.items.take(k as int) =~= self@.items);
        best
    }

    /// Adds a queued row for `file_path` under `parent_id`, created at
    /// `now`, and returns its id. A path may be enqueued once per parent
    /// key; a second time gives `AlreadyEnqueued`.
    pub fn enqueue_at(
        &mut self,
        file_path: &str,
        file_type: FileType,
        parent_id: Option<i64>,
        now: &str,
    ) -> (r: Result<i64, QueueError>)
        requires
            old(self).wf(),
        ensures
            final(self).wf(),
            match r {
                Ok(id) => {
                    &&& !old(self)@.has_key(file_path@, parent_id)
                    &&& id == old(self)@.next_id
                    &&& final(self)@ == old(self)@.enqueued(file_path@, file_type, parent_id, now@)
                },
                Err(QueueError::AlreadyEnqueued(p)) => {
                    &&& old(self)@.has_key(file_path@, parent_id)
                    &&& p@ == file_path@
                    &&& final(self)@ == old(self)@
                },
                Err(QueueError::Database(_)) => {
                    &&& !old(self)@.has_key(file_path@, parent_id)
                    &&& old(self)@.next_id == i64::MAX
                    &&& final(self)@ == old(self)@
                },
                Err(_) => false,
            },
    {
        let mut k: usize = 0;
        while k < self.items.len()
            invariant
                self.wf(),
                k <= self.items.len(),
                self@.items.len() == self.items@.len(),
                forall|j: int|
                    0 <= j < k ==> !(self@.items[j].file_path == file_path@ && parent_key(
                        self@.items[j].parent_id,
                    ) == parent_key(parent_id)),
            decreases self.items.len() - k,
        {
            assert(self@.items[k as int] == self.items@[k as int]@);
            let same_parent = match (self.items[k].parent_id, parent_id) {
                (Some(a), Some(b)) => a == b,
                (Some(a), None) => a == 0,
                (None, Some(b)) => b == 0,
                (None, None) => true,
            };
            if same_parent && str_equals(self.items[k].file_path.as_str(), file_path) {
                return Err(QueueError::AlreadyEnqueued(owned(file_path)));
            }
            k += 1;
        }
        if self.next_id == i64::MAX {
            return Err(QueueError::Database(owned("database or disk is full")));
        }
        let id = self.next_id;
        let item = QueueItem {
            id,
            file_path: owned(file_path),
            file_type,
            status: ItemStatus::Queued,
            parent_id,
            wiki_page_path: None,
            error_message: None,
            created_at: owned(now),
            started_at: None,
            completed_at: None,
        };
        let ghost old_state = self@;
        self.items.push(item);
        self.next_id = id + 1;
        proof {
            let t = self@;
            assert(t.items =~= old_state.items.push(new_row(id as int, file_path@, file_type, parent_id, now@)));
            assert forall|i: int, j: int|
                #![trigger t.items[i], t.items[j]]
                0 <= i < t.items.len() && 0 <= j < t.items.len() && i != j implies !same_key(
                t.items[i],
                t.items[j],
            ) by {
                if i < old_state.items.len() && j < old_state.items.len() {
                    assert(t.items[i] == old_state.items[i]);
                    assert(t.items[j] == old_state.items[j]);
                }
            }
            assert forall|i: int, j: int|
                #![trigger t.items[i], t.items[j]]
                0 <= i < j < t.items.len() implies t.items[i].id < t.items[j].id by {
                assert(t.items[i] == old_state.items[i]);
                if j < old_state.items.len() {
                    assert(t.items[j] == old_state.items[j]);
                }
            }
        }
        Ok(id)
    }

    /// Whether a row with exactly this path and parent exists.
    pub fn is_already_enqueued(&self, file_path: &str, parent_id: Option<i64>) -> (r: Result<
        bool,
        QueueError,
    >)
        requires
            self.wf(),
        ensures
            r == Ok::<bool, QueueError>(self@.has_entry(file_path@, parent_id)),
    {
        let mut k: usize = 0;
        while k < self.items.len()
            invariant
                k <= self.items.len(),
                self@.items.len() == self.items@.len(),
                forall|j: int|
                    0 <= j < k ==> !(self@.items[j].file_path == file_path@
                        && self@.items[j].parent_id == parent_id),
            decreases self.items.len() - k,
        {
            assert(self@.items[k as int] == self.items@[k as int]@);
            if self.items[k].parent_id == parent_id && str_equals(
                self.items[k].file_path.as_str(),
                file_path,
            ) {
                return Ok(true);
            }
            k += 1;
        }
        Ok(false)
    }

    /// The row with id `id`.
    pub fn get_item(&self, id: i64) -> (r: Result<QueueItem, QueueError>)
        requires
            self.wf(),
        ensures
            match r {
                Ok(it) => self@.find(id) == Some(it@),
                Err(QueueError::NotFound(x)) => x == id && self@.find(id) is None,
                Err(_) => false,
            },
    {
        match self.index_of(id) {
            Some(k) => {
                assert(self@.items[k as int] == self.items@[k as int]@);
                Ok(self.items[k].duplicate())
            },
            None => Err(QueueError::NotFound(id)),
        }
    }

    /// Moves row `id` from `queued` to `in_progress`, started at `now`.
    pub fn mark_in_progress_at(&mut self, id: i64, now: &str) -> (r: Result<(), QueueError>)
        requires
            old(self).wf(),
        ensures
            final(self).wf(),
            match r {
                Ok(()) => {
                    &&& old(self)@.find(id) matches Some(it)
                    &&& it.status == ItemStatus::Queued
                    &&& final(self)@ == old(self)@.started(id, now@)
                },
                Err(QueueError::NotFound(x)) => {
                    &&& x == id
                    &&& old(self)@.find(id) is None
                    &&& final(self)@ == old(self)@
                },
                Err(QueueError::InvalidTransition { id: x, expected, actual }) => {
                    &&& x == id
                    &&& old(self)@.find(id) matches Some(it)
                    &&& it.status != ItemStatus::Queued
                    &&& expected@ == status_name(ItemStatus::Queued)
                    &&& actual@ == status_name(it.status)
                    &&& final(self)@ == old(self)@
                },
                Err(_) => false,
            },
    {
        match self.index_of(id) {
            None => Err(QueueError::NotFound(id)),
            Some(k) => {
                assert(self@.items[k as int] == self.items@[k as int]@);
                let cur = self.items[k].status;
                if cur != ItemStatus::Queued {
                    return Err(
                        QueueError::InvalidTransition {
                            id,
                            expected: owned(ItemStatus::Queued.as_str()),
                            actual: owned(cur.as_str()),
                        },
                    );
                }
                let mut x = self.items[k].duplicate();
                x.status = ItemStatus::InProgress;
                x.started_at = Some(owned(now));
                proof {
                    lemma_update_at(self@, k as int, start_row(now@));
                    assert(x@ == start_row(now@)(self@.items[k as int]));
                }
                self.replace_at(k, x);
                Ok(())
            },
        }
    }

    /// Moves row `id` from `in_progress` to `complete`, recording its wiki
    /// page and completion time `now`.
    pub fn mark_complete_at(&mut self, id: i64, wiki_page_path: &str, now: &str) -> (r: Result<
        (),
        QueueError,
    >)
        requires
            old(self).wf(),
        ensures
            final(self).wf(),
            match r {
                Ok(()) => {
                    &&& old(self)@.find(id) matches Some(it)
                    &&& it.status == ItemStatus::InProgress
                    &&& final(self)@ == old(self)@.completed(id, wiki_page_path@, now@)
                },
                Err(QueueError::NotFound(x)) => {
                    &&& x == id
                    &&& old(self)@.find(id) is None
                    &&& final(self)@ == old(self)@
                },
                Err(QueueError::InvalidTransition { id: x, expected, actual }) => {
                    &&& x == id
                    &&& old(self)@.find(id) matches Some(it)
                    &&& it.status != ItemStatus::InProgress
                    &&& expected@ == status_name(ItemStatus::InProgress)
                    &&& actual@ == status_name(it.status)
                    &&& final(self)@ == old(self)@
                },
                Err(_) => false,
            },
    {
        match self.index_of(id) {
            None => Err(QueueError::NotFound(id)),
            Some(k) => {
                assert(self@.items[k as int] == self.items@[k as int]@);
                let cur = self.items[k].status;
                if cur != ItemStatus::InProgress {
                    return Err(
                        QueueError::InvalidTransition {
                            id,
                            expected: owned(ItemStatus::InProgress.as_str()),
                            actual: owned(cur.as_str()),
                        },
                    );
                }
                let mut x = self.items[k].duplicate();
                x.status = ItemStatus::Complete;
                x.wiki_page_path = Some(owned(wiki_page_path));
                x.completed_at = Some(owned(now));
                proof {
                    lemma_update_at(self@, k as int, complete_row(wiki_page_path@, now@));
                    assert(x@ == complete_row(wiki_page_path@, now@)(self@.items[k as int]));
                }
                self.replace_at(k, x);
                Ok(())
            },
        }
    }

    /// Moves row `id` from `queued` to `rejected`, recording the reason and
    /// completion time `now`.
    pub fn mark_rejected_at(&mut self, id: i64, reason: &str, now: &str) -> (r: Result<
        (),
        QueueError,
    >)
        requires
            old(self).wf(),
        ensures
            final(self).wf(),
            match r {
                Ok(()) => {
                    &&& old(self)@.find(id) matches Some(it)
                    &&& it.status == ItemStatus::Queued
                    &&& final(self)@ == old(self)@.rejected(id, reason@, now@)
                },
                Err(QueueError::NotFound(x)) => {
                    &&& x == id
                    &&& old(self)@.find(id) is None
                    &&& final(self)@ == old(self)@
                },
                Err(QueueError::InvalidTransition { id: x, expected, actual }) => {
                    &&& x == id
                    &&& old(self)@.find(id) matches Some(it)
                    &&& it.status != ItemStatus::Queued
                    &&& expected@ == status_name(ItemStatus::Queued)
                    &&& actual@ == status_name(it.status)
                    &&& final(self)@ == old(self)@
                },
                Err(_) => false,
            },
    {
        match self.index_of(id) {
            None => Err(QueueError::NotFound(id)),
            Some(k) => {
                assert(self@.items[k as int] == self.items@[k as int]@);
                let cur = self.items[k].status;
                if cur != ItemStatus::Queued {
                    return Err(
                        QueueError::InvalidTransition {
                            id,
                            expected: owned(ItemStatus::Queued.as_str()),
                            actual: owned(cur.as_str()),
                        },
                    );
                }
                let mut x = self.items[k].duplicate();
                x.status = ItemStatus::Rejected;
                x.error_message = Some(owned(reason));
                x.completed_at = Some(owned(now));
                proof {
                    lemma_update_at(self@, k as int, reject_row(reason@, now@));
                    assert(x@ == reject_row(reason@, now@)(self@.items[k as int]));
                }
                self.replace_at(k, x);
                Ok(())
            },
        }
    }

    /// Moves row `id`, whatever its status, to `error`, recording the
    /// message and completion time `now`.
    pub fn mark_error_at(&mut self, id: i64, message: &str, now: &str) -> (r: Result<
        (),
        QueueError,
    >)
        requires
            old(self).wf(),
        ensures
            final(self).wf(),
            match r {
                Ok(()) => {
                    &&& old(self)@.find(id) is Some
                    &&& final(self)@ == old(self)@.errored(id, message@, now@)
                },
                Err(QueueError::NotFound(x)) => {
                    &&& x == id
                    &&& old(self)@.find(id) is None
                    &&& final(self)@ == old(self)@
                },
                Err(_) => false,
            },
    {
        match self.index_of(id) {
            None => Err(QueueError::NotFound(id)),
            Some(k) => {
                assert(self@.items[k as int] == self.items@[k as int]@);
                let mut x = self.items[k].duplicate();
                x.status = ItemStatus::Error;
                x.error_message = Some(owned(message));
                x.completed_at = Some(owned(now));
                proof {
                    lemma_update_at(self@, k as int, error_row(message@, now@));
                    assert(x@ == error_row(message@, now@)(self@.items[k as int]));
                }
                self.replace_at(k, x);
                Ok(())
            },
        }
    }

    /// The oldest queued row, or `None` when nothing is queued.
    pub fn get_next_queued(&self) -> (r: Result<Option<QueueItem>, QueueError>)
        requires
            self.wf(),
        ensures
            match r {
                Ok(Some(it)) => self@.next_queued() == Some(it@),
                Ok(None) => self@.next_queued() is None,
                Err(_) => false,
            },
    {
        match self.earliest_where(RowFilter::Status(ItemStatus::Queued)) {
            Some(k) => {
                assert(self@.items[k as int] == self.items@[k as int]@);
                Ok(Some(self.items[k].duplicate()))
            },
            None => Ok(None),
        }
    }

    /// Every row in creation order, or only those with the given status.
    pub fn list_items(&self, status_filter: Option<&ItemStatus>) -> (r: Result<
        Vec<QueueItem>,
        QueueError,
    >)
        requires
            self.wf(),
        ensures
            match r {
                Ok(v) => {
                    &&& in_creation_order(items_view(v@))
                    &&& items_view(v@).to_multiset() == match status_filter {
                        Some(st) => self@.select(with_status(*st)),
                        None => self@.items,
                    }.to_multiset()
                },
                Err(_) => false,
            },
    {
        match status_filter {
            Some(st) => Ok(self.collect_in_creation_order(RowFilter::Status(*st))),
            None => {
                proof {
                    lemma_filter_all(self@.items);
                }
                Ok(self.collect_in_creation_order(RowFilter::All))
            },
        }
    }

    /// `(status name, count)` for each status that some row has, in the
    /// alphabetical order of the names.
    pub fn count_by_status(&self) -> (r: Result<Vec<(String, u64)>, QueueError>)
        requires
            self.wf(),
        ensures
            match r {
                Ok(v) => counts_view(v@) == self@.status_counts(),
                Err(_) => false,
            },
    {
        let order: Vec<ItemStatus> = vec![
            ItemStatus::Complete,
            ItemStatus::Error,
            ItemStatus::InProgress,
            ItemStatus::Queued,
            ItemStatus::Rejected,
        ];
        let ghost order_seq = seq![
            ItemStatus::Complete,
            ItemStatus::Error,
            ItemStatus::InProgress,
            ItemStatus::Queued,
            ItemStatus::Rejected,
        ];
        assert(order@ =~= order_seq);
        let mut out: Vec<(String, u64)> = Vec::new();
        let mut i: usize = 0;
        while i < order.len()
            invariant
                self.wf(),
                i <= order.len(),
                order@ == order_seq,
                counts_view(out@) == self@.counts_in(order@.take(i as int)),
            decreases order.len() - i,
        {
            let st = order[i];
            let n = self.count_where(RowFilter::Status(st));
            assert(order@.take(i + 1).drop_last() =~= order@.take(i as int));
            if n > 0 {
                let ghost before = out@;
                out.push((owned(st.as_str()), n as u64));
                assert(counts_view(out@) =~= counts_view(before).push((status_name(st), n as nat)));
            }
            i += 1;
        }
        assert(order@.take(5) =~= order_seq);
        Ok(out)
    }

    /// The rows whose parent is `parent_id`, in creation order.
    pub fn children_of(&self, parent_id: i64) -> (r: Result<Vec<QueueItem>, QueueError>)
        requires
            self.wf(),
        ensures
            match r {
                Ok(v) => {
                    &&& in_creation_order(items_view(v@))
                    &&& items_view(v@).to_multiset() == self@.select(
                        child_of(parent_id),
                    ).to_multiset()
                },
                Err(_) => false,
            },
    {
        Ok(self.collect_in_creation_order(RowFilter::Parent(parent_id)))
    }

    /// Whether every row whose parent is `parent_id` is `complete`; true
    /// when there are no such rows.
    pub fn all_children_complete(&self, parent_id: i64) -> (r: Result<bool, QueueError>)
        requires
            self.wf(),
        ensures
            r == Ok::<bool, QueueError>(
                forall|i: int|
                    0 <= i < self@.items.len() && self@.items[i].parent_id == Some(parent_id)
                        ==> #[trigger] self@.items[i].status == ItemStatus::Complete,
            ),
    {
        let mut k: usize = 0;
        while k < self.items.len()
            invariant
                k <= self.items.len(),
                self@.items.len() == self.items@.len(),
                forall|j: int|
                    0 <= j < k && self@.items[j].parent_id == Some(parent_id)
                        ==> #[trigger] self@.items[j].status == ItemStatus::Complete,
            decreases self.items.len() - k,
        {
            assert(self@.items[k as int] == self.items@[k as int]@);
            if self.items[k].parent_id == Some(parent_id) && self.items[k].status
                != ItemStatus::Complete {
                assert(self@.items[k as int].parent_id == Some(parent_id));
                assert(self@.items[k as int].status != ItemStatus::Complete);
                return Ok(false);
            }
            k += 1;
        }
        Ok(true)
    }

    /// How many rows are queued and have no parent.
    pub fn count_queued_parents(&self) -> (r: Result<u64, QueueError>)
        requires
            self.wf(),
        ensures
            r == Ok::<u64, QueueError>(
                self@.select(top_with_status(ItemStatus::Queued)).len() as u64,
            ),
    {
        let n = self.count_where(RowFilter::TopWithStatus(ItemStatus::Queued));
        Ok(n as u64)
    }

    /// Moves the row at `k` to `in_progress` at `now` and returns a copy.
    fn start_at(&mut self, k: usize, now: &str) -> (r: QueueItem)
        requires
            old(self).wf(),
            k < old(self)@.items.len(),
        ensures
            final(self).wf(),
            r@ == start_row(now@)(old(self)@.items[k as int]),
            final(self)@ == old(self)@.started(old(self)@.items[k as int].id, now@),
    {
        assert(self@.items[k as int] == self.items@[k as int]@);
        let mut x = self.items[k].duplicate();
        x.status = ItemStatus::InProgress;
        x.started_at = Some(owned(now));
        let out = x.duplicate();
        proof {
            lemma_update_at(self@, k as int, start_row(now@));
            assert(x@ == start_row(now@)(self@.items[k as int]));
        }
        self.replace_at(k, x);
        out
    }

    /// Takes the oldest queued row: moves it to `in_progress`, started at
    /// `now`, and returns it as it is afterwards. `None` when nothing is
    /// queued.
    pub fn claim_next_queued_at(&mut self, now: &str) -> (r: Result<Option<QueueItem>, QueueError>)
        requires
            old(self).wf(),
        ensures
            final(self).wf(),
            match r {
                Ok(Some(it)) => {
                    &&& old(self)@.next_queued() matches Some(q)
                    &&& it@ == start_row(now@)(q)
                    &&& final(self)@ == old(self)@.started(q.id, now@)
                },
                Ok(None) => old(self)@.next_queued() is None && final(self)@ == old(self)@,
                Err(_) => false,
            },
    {
        match self.earliest_where(RowFilter::Status(ItemStatus::Queued)) {
            Some(k) => Ok(Some(self.start_at(k, now))),
            None => Ok(None),
        }
    }

    /// Takes the oldest queued row that has no parent, as
    /// `claim_next_queued_at` does.
    pub fn claim_next_queued_parent_at(&mut self, now: &str) -> (r: Result<
        Option<QueueItem>,
        QueueError,
    >)
        requires
            old(self).wf(),
        ensures
            final(self).wf(),
            match r {
                Ok(Some(it)) => {
                    &&& old(self)@.next_queued_top() matches Some(q)
                    &&& it@ == start_row(now@)(q)
                    &&& final(self)@ == old(self)@.started(q.id, now@)
                },
                Ok(None) => old(self)@.next_queued_top() is None && final(self)@ == old(self)@,
                Err(_) => false,
            },
    {
        match self.earliest_where(RowFilter::TopWithStatus(ItemStatus::Queued)) {
            Some(k) => Ok(Some(self.start_at(k, now))),
            None => Ok(None),
        }
    }

    /// Puts every `in_progress` row back to `queued`, clearing its start
    /// time, and returns how many there were.
    pub fn reset_in_progress(&mut self) -> (r: Result<u64, QueueError>)
        requires
            old(self).wf(),
        ensures
            final(self).wf(),
            final(self)@ == old(self)@.reset(),
            r == Ok::<u64, QueueError>(old(self)@.count(ItemStatus::InProgress) as u64),
    {
        let ghost start = self@;
        let mut n: usize = 0;
        let mut k: usize = 0;
        while k < self.items.len()
            invariant
                self.wf(),
                k <= self.items.len(),
                self@.items.len() == self.items@.len(),
                self@.items.len() == start.items.len(),
                self@.next_id == start.next_id,
                forall|j: int| 0 <= j < k ==> #[trigger] self@.items[j] == reset_row()(start.items[j]),
                forall|j: int| k <= j < self@.items.len() ==> #[trigger] self@.items[j] == start.items[j],
                n == start.items.take(k as int).filter(with_status(ItemStatus::InProgress)).len(),
                n <= k,
            decreases self.items.len() - k,
        {
            assert(self@.items[k as int] == self.items@[k as int]@);
            proof {
                lemma_filter_take_step(start.items, with_status(ItemStatus::InProgress), k as int);
            }
            if self.items[k].status == ItemStatus::InProgress {
                let mut x = self.items[k].duplicate();
                x.status = ItemStatus::Queued;
                x.started_at = None;
                assert(x@ == reset_row()(start.items[k as int]));
                let ghost before = self@;
                self.replace_at(k, x);
                assert(forall|j: int| 0 <= j < self@.items.len() && j != k ==> self@.items[j] == before.items[j]);
                n += 1;
            }
            k += 1;
        }
        assert(self@.items =~= start.reset().items);
        assert(start.items.take(k as int) =~= start.items);
        Ok(n as u64)
    }

    /// Puts row `id` back to `queued` from `error` or `rejected`, clearing
    /// its error message and times.
    pub fn requeue_item(&mut self, id: i64) -> (r: Result<(), QueueError>)
        requires
            old(self).wf(),
        ensures
            final(self).wf(),
            match r {
                Ok(()) => {
                    &&& old(self)@.find(id) matches Some(it)
                    &&& (it.status == ItemStatus::Error || it.status == ItemStatus::Rejected)
                    &&& final(self)@ == old(self)@.update(id, requeue_row())
                },
                Err(QueueError::NotFound(x)) => {
                    &&& x == id
                    &&& old(self)@.find(id) is None
                    &&& final(self)@ == old(self)@
                },
                Err(QueueError::InvalidTransition { id: x, expected, actual }) => {
                    &&& x == id
                    &&& old(self)@.find(id) matches Some(it)
                    &&& it.status != ItemStatus::Error
                    &&& it.status != ItemStatus::Rejected
                    &&& expected@ == "error or rejected"@
                    &&& actual@ == status_name(it.status)
                    &&& final(self)@ == old(self)@
                },
                Err(_) => false,
            },
    {
        match self.index_of(id) {
            None => Err(QueueError::NotFound(id)),
            Some(k) => {
                assert(self@.items[k as int] == self.items@[k as int]@);
                let cur = self.items[k].status;
                if cur != ItemStatus::Error && cur != ItemStatus::Rejected {
                    return Err(
                        QueueError::InvalidTransition {
                            id,
                            expected: owned("error or rejected"),
                            actual: owned(cur.as_str()),
                        },
                    );
                }
                self.requeue_at(k);
                Ok(())
            },
        }
    }

    /// Puts the row at `k` back to `queued`.
    fn requeue_at(&mut self, k: usize)
        requires
            old(self).wf(),
            k < old(self)@.items.len(),
        ensures
            final(self).wf(),
            final(self)@ == old(self)@.update(old(self)@.items[k as int].id, requeue_row()),
    {
        assert(self@.items[k as int] == self.items@[k as int]@);
        let mut x = self.items[k].duplicate();
        x.status = ItemStatus::Queued;
        x.error_message = None;
        x.started_at = None;
        x.completed_at = None;
        proof {
            lemma_update_at(self@, k as int, requeue_row());
            assert(x@ == requeue_row()(self@.items[k as int]));
        }
        self.replace_at(k, x);
    }

    /// Requeues, one after the other, those of `ids` whose row is in
    /// `error`, and returns how many were requeued.
    pub fn requeue_items(&mut self, ids: &[i64]) -> (r: Result<usize, QueueError>)
        requires
            old(self).wf(),
        ensures
            final(self).wf(),
            final(self)@ == old(self)@.requeue_all(ids@).0,
            r == Ok::<usize, QueueError>(old(self)@.requeue_all(ids@).1 as usize),
    {
        let ghost start = self@;
        let mut n: usize = 0;
        let mut i: usize = 0;
        while i < ids.len()
            invariant
                self.wf(),
                i <= ids.len(),
                self@ == start.requeue_all(ids@.take(i as int)).0,
                n == start.requeue_all(ids@.take(i as int)).1,
                n <= i,
            decreases ids.len() - i,
        {
            let id = ids[i];
            assert(ids@.take(i + 1).drop_last() =~= ids@.take(i as int));
            match self.index_of(id) {
                Some(k) => {
                    assert(self@.items[k as int] == self.items@[k as int]@);
                    if self.items[k].status == ItemStatus::Error {
                        self.requeue_at(k);
                        n += 1;
                    }
                },
                None => {},
            }
            i += 1;
        }
        assert(ids@.take(ids.len() as int) =~= ids@);
        Ok(n)
    }

    /// Removes every row in `error`. Returns how many of them had no parent
    /// and how many had one.
    pub fn delete_errors(&mut self) -> (r: Result<(usize, usize), QueueError>)
        requires
            old(self).wf(),
        ensures
            final(self).wf(),
            final(self)@ == old(self)@.without_errors(),
            r == Ok::<(usize, usize), QueueError>(
                (
                    old(self)@.select(top_with_status(ItemStatus::Error)).len() as usize,
                    old(self)@.select(child_with_status(ItemStatus::Error)).len() as usize,
                ),
            ),
    {
        let tops = self.count_where(RowFilter::TopWithStatus(ItemStatus::Error));
        let kids = self.count_where(RowFilter::ChildWithStatus(ItemStatus::Error));
        let kept = self.collect(RowFilter::NotStatus(ItemStatus::Error));
        proof {
            lemma_valid_filter(self@, without_status(ItemStatus::Error));
        }
        self.items = kept;
        Ok((tops, kids))
    }

    /// The id that the next enqueued row receives.
    pub fn next_id(&self) -> (r: i64)
        ensures
            r == self@.next_id,
    {
        self.next_id
    }

    /// Copies of every row, in id order: what `from_rows` takes back.
    pub fn rows(&self) -> (r: Vec<QueueItem>)
        requires
            self.wf(),
        ensures
            items_view(r@) == self@.items,
    {
        proof {
            lemma_filter_all(self@.items);
        }
        self.collect(RowFilter::All)
    }

    /// A queue holding `rows` (in id order) and handing out `next_id` next,
    /// when they are consistent; `None` otherwise.
    pub fn from_rows(rows: Vec<QueueItem>, next_id: i64) -> (r: Option<Queue>)
        ensures
            match r {
                Some(q) => q.wf() && q@ == (QueueState {
                    items: items_view(rows@),
                    next_id: next_id as int,
                }),
                None => !(QueueState { items: items_view(rows@), next_id: next_id as int }).valid(),
            },
    {
        let ghost st = QueueState { items: items_view(rows@), next_id: next_id as int };
        if next_id < 1 {
            return None;
        }
        let n = rows.len();
        let mut i: usize = 0;
        while i < n
            invariant
                n == rows.len(),
                st.items.len() == n,
                st == (QueueState { items: items_view(rows@), next_id: next_id as int }),
                i <= n,
                forall|a: int| 0 <= a < i ==> 1 <= #[trigger] st.items[a].id < next_id,
                forall|a: int, b: int|
                    #![trigger st.items[a], st.items[b]]
                    0 <= a < b < i ==> st.items[a].id < st.items[b].id,
                forall|a: int, b: int|
                    #![trigger st.items[a], st.items[b]]
                    0 <= a < i && 0 <= b < i && a != b ==> !same_key(st.items[a], st.items[b]),
            decreases n - i,
        {
            assert(st.items[i as int] == rows@[i as int]@);
            let id = rows[i].id;
            if id < 1 || id >= next_id {
                assert(!(1 <= st.items[i as int].id < st.next_id));
                assert(!st.valid());
                return None;
            }
            if i > 0 {
                assert(st.items[i - 1] == rows@[i - 1]@);
                if rows[i - 1].id >= id {
                    assert(!(st.items[i - 1].id < st.items[i as int].id));
                    assert(!st.valid());
                    return None;
                }
            }
            let mut j: usize = 0;
            while j < i
                invariant
                    n == rows.len(),
                    st.items.len() == n,
                    st == (QueueState { items: items_view(rows@), next_id: next_id as int }),
                    j <= i < n,
                    forall|b: int| 0 <= b < j ==> !same_key(st.items[b], #[trigger] st.items[i as int]),
                decreases i - j,
            {
                assert(st.items[j as int] == rows@[j as int]@);
                assert(st.items[i as int] == rows@[i as int]@);
                let same_parent = match (rows[j].parent_id, rows[i].parent_id) {
                    (Some(a), Some(b)) => a == b,
                    (Some(a), None) => a == 0,
                    (None, Some(b)) => b == 0,
                    (None, None) => true,
                };
                if same_parent && str_equals(rows[j].file_path.as_str(), rows[i].file_path.as_str()) {
                    assert(same_key(st.items[j as int], st.items[i as int]));
                    assert(!st.valid());
                    return None;
                }
                j += 1;
            }
            proof {
                assert forall|a: int, b: int|
                    #![trigger st.items[a], st.items[b]]
                    0 <= a < b < i + 1 implies st.items[a].id < st.items[b].id by {
                    if b == i && a < i - 1 {
                        assert(st.items[a].id < st.items[i - 1].id);
                    }
                }
                assert forall|a: int, b: int|
                    #![trigger st.items[a], st.items[b]]
                    0 <= a < i + 1 && 0 <= b < i + 1 && a != b implies !same_key(
                    st.items[a],
                    st.items[b],
                ) by {
                    if a == i {
                        assert(!same_key(st.items[b], st.items[i as int]));
                    } else if b == i {
                        assert(!same_key(st.items[a], st.items[i as int]));
                    }
                }
            }
            i += 1;
        }
        let q = Queue { items: rows, next_id };
        assert(q@ == st);
        Some(q)
    }


    /// Adds a queued row for `file_path` under `parent_id`, created now,
    /// and returns its id (see `enqueue_at`).
    pub fn enqueue(&mut self, file_path: &str, file_type: FileType, parent_id: Option<i64>) -> (r:
        Result<i64, QueueError>)
        requires
            old(self).wf(),
        ensures
            final(self).wf(),
            match r {
                Ok(id) => {
                    &&& !old(self)@.has_key(file_path@, parent_id)
                    &&& id == old(self)@.next_id
                    &&& exists|t: Seq<char>| utc_rfc3339_text(t) &&
                        final(self)@ == old(self)@.enqueued(file_path@, file_type, parent_id, t)
                },
                Err(QueueError::AlreadyEnqueued(p)) => {
                    &&& old(self)@.has_key(file_path@, parent_id)
                    &&& p@ == file_path@
                    &&& final(self)@ == old(self)@
                },
                Err(QueueError::Database(_)) => {
                    &&& !old(self)@.has_key(file_path@, parent_id)
                    &&& old(self)@.next_id == i64::MAX
                    &&& final(self)@ == old(self)@
                },
                Err(QueueError::ClockUnavailable) => final(self)@ == old(self)@,
                Err(_) => false,
            },
    {
        let now = match utc_now_rfc3339() {
            Some(t) => t,
            None => return Err(QueueError::ClockUnavailable),
        };
        self.enqueue_at(file_path, file_type, parent_id, &now)
    }

    /// Moves row `id` from `queued` to `in_progress`, started now (see
    /// `mark_in_progress_at`).
    pub fn mark_in_progress(&mut self, id: i64) -> (r: Result<(), QueueError>)
        requires
            old(self).wf(),
        ensures
            final(self).wf(),
            match r {
                Ok(()) => {
                    &&& old(self)@.find(id) matches Some(it)
                    &&& it.status == ItemStatus::Queued
                    &&& exists|t: Seq<char>| utc_rfc3339_text(t) && final(self)@ == old(self)@.started(id, t)
                },
                Err(QueueError::NotFound(x)) => {
                    &&& x == id
                    &&& old(self)@.find(id) is None
                    &&& final(self)@ == old(self)@
                },
                Err(QueueError::InvalidTransition { id: x, expected, actual }) => {
                    &&& x == id
                    &&& old(self)@.find(id) matches Some(it)
                    &&& it.status != ItemStatus::Queued
                    &&& expected@ == status_name(ItemStatus::Queued)
                    &&& actual@ == status_name(it.status)
                    &&& final(self)@ == old(self)@
                },
                Err(QueueError::ClockUnavailable) => final(self)@ == old(self)@,
                Err(_) => false,
            },
    {
        let now = match utc_now_rfc3339() {
            Some(t) => t,
            None => return Err(QueueError::ClockUnavailable),
        };
        self.mark_in_progress_at(id, &now)
    }

    /// Moves row `id` from `in_progress` to `complete`, completed now (see
    /// `mark_complete_at`).
    pub fn mark_complete(&mut self, id: i64, wiki_page_path: &str) -> (r: Result<(), QueueError>)
        requires
            old(self).wf(),
        ensures
            final(self).wf(),
            match r {
                Ok(()) => {
                    &&& old(self)@.find(id) matches Some(it)
                    &&& it.status == ItemStatus::InProgress
                    &&& exists|t: Seq<char>| utc_rfc3339_text(t) &&
                        final(self)@ == old(self)@.completed(id, wiki_page_path@, t)
                },
                Err(QueueError::NotFound(x)) => {
                    &&& x == id
                    &&& old(self)@.find(id) is None
                    &&& final(self)@ == old(self)@
                },
                Err(QueueError::InvalidTransition { id: x, expected, actual }) => {
                    &&& x == id
                    &&& old(self)@.find(id) matches Some(it)
                    &&& it.status != ItemStatus::InProgress
                    &&& expected@ == status_name(ItemStatus::InProgress)
                    &&& actual@ == status_name(it.status)
                    &&& final(self)@ == old(self)@
                },
                Err(QueueError::ClockUnavailable) => final(self)@ == old(self)@,
                Err(_) => false,
            },
    {
        let now = match utc_now_rfc3339() {
            Some(t) => t,
            None => return Err(QueueError::ClockUnavailable),
        };
        self.mark_complete_at(id, wiki_page_path, &now)
    }

    /// Moves row `id` from `queued` to `rejected`, completed now (see
    /// `mark_rejected_at`).
    pub fn mark_rejected(&mut self, id: i64, reason: &str) -> (r: Result<(), QueueError>)
        requires
            old(self).wf(),
        ensures
            final(self).wf(),
            match r {
                Ok(()) => {
                    &&& old(self)@.find(id) matches Some(it)
                    &&& it.status == ItemStatus::Queued
                    &&& exists|t: Seq<char>| utc_rfc3339_text(t) && final(self)@ == old(self)@.rejected(id, reason@, t)
                },
                Err(QueueError::NotFound(x)) => {
                    &&& x == id
                    &&& old(self)@.find(id) is None
                    &&& final(self)@ == old(self)@
                },
                Err(QueueError::InvalidTransition { id: x, expected, actual }) => {
                    &&& x == id
                    &&& old(self)@.find(id) matches Some(it)
                    &&& it.status != ItemStatus::Queued
                    &&& expected@ == status_name(ItemStatus::Queued)
                    &&& actual@ == status_name(it.status)
                    &&& final(self)@ == old(self)@
                },
                Err(QueueError::ClockUnavailable) => final(self)@ == old(self)@,
                Err(_) => false,
            },
    {
        let now = match utc_now_rfc3339() {
            Some(t) => t,
            None => return Err(QueueError::ClockUnavailable),
        };
        self.mark_rejected_at(id, reason, &now)
    }

    /// Moves row `id` to `error`, completed now (see `mark_error_at`).
    pub fn mark_error(&mut self, id: i64, message: &str) -> (r: Result<(), QueueError>)
        requires
            old(self).wf(),
        ensures
            final(self).wf(),
            match r {
                Ok(()) => {
                    &&& old(self)@.find(id) is Some
                    &&& exists|t: Seq<char>| utc_rfc3339_text(t) && final(self)@ == old(self)@.errored(id, message@, t)
                },
                Err(QueueError::NotFound(x)) => {
                    &&& x == id
                    &&& old(self)@.find(id) is None
                    &&& final(self)@ == old(self)@
                },
                Err(QueueError::ClockUnavailable) => final(self)@ == old(self)@,
                Err(_) => false,
            },
    {
        let now = match utc_now_rfc3339() {
            Some(t) => t,
            None => return Err(QueueError::ClockUnavailable),
        };
        self.mark_error_at(id, message, &now)
    }

    /// Takes the oldest queued row, started now (see `claim_next_queued_at`).
    pub fn claim_next_queued(&mut self) -> (r: Result<Option<QueueItem>, QueueError>)
        requires
            old(self).wf(),
        ensures
            final(self).wf(),
            match r {
                Ok(Some(it)) => {
                    &&& old(self)@.next_queued() matches Some(q)
                    &&& exists|t: Seq<char>| utc_rfc3339_text(t) &&
                        it@ == start_row(t)(q) && final(self)@ == old(self)@.started(q.id, t)
                },
                Ok(None) => old(self)@.next_queued() is None && final(self)@ == old(self)@,
                Err(QueueError::ClockUnavailable) => final(self)@ == old(self)@,
                Err(_) => false,
            },
    {
        let now = match utc_now_rfc3339() {
            Some(t) => t,
            None => return Err(QueueError::ClockUnavailable),
        };
        self.claim_next_queued_at(&now)
    }

    /// Takes the oldest queued row without a parent, started now (see
    /// `claim_next_queued_parent_at`).
    pub fn claim_next_queued_parent(&mut self) -> (r: Result<Option<QueueItem>, QueueError>)
        requires
            old(self).wf(),
        ensures
            final(self).wf(),
            match r {
                Ok(Some(it)) => {
                    &&& old(self)@.next_queued_top() matches Some(q)
                    &&& exists|t: Seq<char>| utc_rfc3339_text(t) &&
                        it@ == start_row(t)(q) && final(self)@ == old(self)@.started(q.id, t)
                },
                Ok(None) => old(self)@.next_queued_top() is None && final(self)@ == old(self)@,
                Err(QueueError::ClockUnavailable) => final(self)@ == old(self)@,
                Err(_) => false,
            },
    {
        let now = match utc_now_rfc3339() {
            Some(t) => t,
            None => return Err(QueueError::ClockUnavailable),
        };
        self.claim_next_queued_parent_at(&now)
    }

    /// Marks row `id` complete with its wiki page (see `mark_complete`) and
    /// tells whether every row sharing its parent is now complete; true for
    /// a row without parent.
    pub fn complete_item(&mut self, id: i64, wiki_page_path: &str) -> (r: Result<bool, QueueError>)
        requires
            old(self).wf(),
        ensures
            final(self).wf(),
            match r {
                Ok(siblings_done) => {
                    &&& old(self)@.find(id) matches Some(it)
                    &&& it.status == ItemStatus::InProgress
                    &&& exists|t: Seq<char>| utc_rfc3339_text(t) &&
                        final(self)@ == old(self)@.completed(id, wiki_page_path@, t)
                    &&& siblings_done == match it.parent_id {
                        Some(p) => final(self)@.children_complete(p),
                        None => true,
                    }
                },
                Err(QueueError::NotFound(x)) => {
                    &&& x == id
                    &&& old(self)@.find(id) is None
                    &&& final(self)@ == old(self)@
                },
                Err(QueueError::InvalidTransition { id: x, expected, actual }) => {
                    &&& x == id
                    &&& old(self)@.find(id) matches Some(it)
                    &&& it.status != ItemStatus::InProgress
                    &&& expected@ == status_name(ItemStatus::InProgress)
                    &&& actual@ == status_name(it.status)
                    &&& final(self)@ == old(self)@
                },
                Err(QueueError::ClockUnavailable) => final(self)@ == old(self)@,
                Err(_) => false,
            },
    {
        let ghost before = self@;
        match self.mark_complete(id, wiki_page_path) {
            Ok(()) => {},
            Err(e) => return Err(e),
        }
        proof {
            let t = choose|t: Seq<char>|
                utc_rfc3339_text(t) && self@ == before.completed(id, wiki_page_path@, t);
            crate::queue_laws::law_row_updates_keep_identity(t, wiki_page_path@, wiki_page_path@);
            crate::queue_laws::law_update_touches_one_row(
                before,
                id,
                complete_row(wiki_page_path@, t),
            );
        }
        let item = match self.get_item(id) {
            Ok(it) => it,
            Err(e) => return Err(e),
        };
        match item.parent_id {
            Some(p) => self.all_children_complete(p),
            None => Ok(true),
        }
    }

}

} // verus!
