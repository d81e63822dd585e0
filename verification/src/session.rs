//! Decisions of a processing run: which values must be safe to embed,
//! which texts feed an item's session, whether they are embedded, and what
//! is recorded when a session fails.
use vstd::prelude::*;
use crate::config::{ProcessConfig, WikiConfig};
use crate::detect::{file_name, path_file_name};
use crate::prompt::{PromptError, MAX_EMBED_SIZE, prompt_safe, validate_path_for_prompt};
use crate::queue::{ItemStatus, ItemView, QueueItem, items_view};
use crate::text::{owned, path_join, string_from_chars};

verus! {

// ─── Values embedded in every prompt ─────────────────────────────────────────

/// Whether every character of `s` may be embedded in the prompt.
pub open spec fn all_prompt_safe(s: Seq<char>) -> bool {
    forall|i: int| 0 <= i < s.len() ==> prompt_safe(#[trigger] s[i])
}

/// Checks, in this order, the wiki directory, the processed text directory
/// and the wiki name; the first that holds an unsafe character is
/// reported, under the label `Wiki directory`, `Processed text directory`
/// or `Wiki name`.
pub fn validate_session_values(wiki: &WikiConfig) -> (r: Result<(), PromptError>)
    ensures
        match r {
            Ok(()) => {
                &&& all_prompt_safe(path_join(wiki.root@, "wiki"@))
                &&& all_prompt_safe(path_join(wiki.root@, "processed"@))
                &&& all_prompt_safe(wiki.name@)
            },
            Err(PromptError::UnsafeCharacter { label, value, .. }) => {
                ||| !all_prompt_safe(path_join(wiki.root@, "wiki"@)) && label@
                    == "Wiki directory"@ && value@ == path_join(wiki.root@, "wiki"@)
                ||| all_prompt_safe(path_join(wiki.root@, "wiki"@)) && !all_prompt_safe(
                    path_join(wiki.root@, "processed"@),
                ) && label@ == "Processed text directory"@ && value@ == path_join(
                    wiki.root@,
                    "processed"@,
                )
                ||| all_prompt_safe(path_join(wiki.root@, "wiki"@)) && all_prompt_safe(
                    path_join(wiki.root@, "processed"@),
                ) && !all_prompt_safe(wiki.name@) && label@ == "Wiki name"@ && value@
                    == wiki.name@
            },
        },
{
    let wiki_dir = wiki.wiki_dir();
    let processed_dir = wiki.processed_dir();
    match validate_path_for_prompt(wiki_dir.as_str(), "Wiki directory") {
        Ok(()) => {},
        Err(e) => return Err(e),
    }
    match validate_path_for_prompt(processed_dir.as_str(), "Processed text directory") {
        Ok(()) => {},
        Err(e) => return Err(e),
    }
    validate_path_for_prompt(wiki.name.as_str(), "Wiki name")
}

/// The name under which an item's source is shown: its file name, or the
/// whole path when the path names no file.
pub open spec fn shown_name(p: Seq<char>) -> Seq<char> {
    match file_name(p) {
        Some(n) => n,
        None => p,
    }
}

/// The name under which the source at `path` is shown.
pub fn display_name(path: &str) -> (r: String)
    ensures
        r@ == shown_name(path@),
{
    match path_file_name(path) {
        Some(n) => string_from_chars(&n),
        None => owned(path),
    }
}

// ─── Texts of a session ──────────────────────────────────────────────────────

/// The ids of the rows that are not rejected, in order.
pub open spec fn unrejected_ids(rows: Seq<ItemView>) -> Seq<i64>
    decreases rows.len(),
{
    if rows.len() == 0 {
        seq![]
    } else {
        let rest = unrejected_ids(rows.drop_last());
        if rows.last().status == ItemStatus::Rejected {
            rest
        } else {
            rest.push(rows.last().id)
        }
    }
}

/// Rows that are not rejected.
pub open spec fn not_rejected() -> spec_fn(ItemView) -> bool {
    |it: ItemView| it.status != ItemStatus::Rejected
}

/// The texts that feed a session are the item's own, then those of its
/// children in order, leaving out exactly the rejected children: the ids
/// are those of the children that `not_rejected` keeps, and so every child
/// in any other status (queued, in progress, complete or error) is among
/// them.
pub proof fn law_candidates_skip_only_rejected_children(rows: Seq<ItemView>)
    ensures
        unrejected_ids(rows) == rows.filter(not_rejected()).map_values(|it: ItemView| it.id),
        forall|i: int|
            0 <= i < rows.len() && rows[i].status != ItemStatus::Rejected ==> unrejected_ids(
                rows,
            ).contains(#[trigger] rows[i].id),
    decreases rows.len(),
{
    reveal(Seq::filter);
    let f = rows.filter(not_rejected());
    if rows.len() > 0 {
        let d = rows.drop_last();
        law_candidates_skip_only_rejected_children(d);
        let fd = d.filter(not_rejected());
        if rows.last().status != ItemStatus::Rejected {
            assert(f == fd.push(rows.last()));
            assert(fd.push(rows.last()).map_values(|it: ItemView| it.id) =~= fd.map_values(
                |it: ItemView| it.id,
            ).push(rows.last().id));
        } else {
            assert(f == fd);
        }
    } else {
        assert(f =~= Seq::<ItemView>::empty());
        assert(f.map_values(|it: ItemView| it.id) =~= Seq::<i64>::empty());
    }
    assert forall|i: int|
        0 <= i < rows.len() && rows[i].status != ItemStatus::Rejected implies unrejected_ids(
        rows,
    ).contains(#[trigger] rows[i].id) by {
        rows.lemma_filter_contains(not_rejected(), i);
        let j = choose|j: int| 0 <= j < f.len() && f[j] == rows[i];
        assert(f.map_values(|it: ItemView| it.id)[j] == rows[i].id);
    }
}

/// The items whose extracted text may feed the session of item `item_id`:
/// the item itself, then each of its children that was not rejected, in
/// order. Those whose text file exists are used.
pub fn text_candidates(item_id: i64, children: &Vec<QueueItem>) -> (r: Vec<i64>)
    ensures
        r@ == seq![item_id] + unrejected_ids(items_view(children@)),
{
    let ghost cv = items_view(children@);
    let mut r: Vec<i64> = Vec::new();
    r.push(item_id);
    let mut i: usize = 0;
    assert(cv.take(0) =~= Seq::<ItemView>::empty());
    while i < children.len()
        invariant
            i <= children.len(),
            cv == items_view(children@),
            cv.len() == children@.len(),
            r@ == seq![item_id] + unrejected_ids(cv.take(i as int)),
        decreases children.len() - i,
    {
        assert(cv.take(i + 1).drop_last() =~= cv.take(i as int));
        assert(cv.take(i + 1).last() == children@[i as int]@);
        if children[i].status != ItemStatus::Rejected {
            let ghost before = r@;
            r.push(children[i].id);
            assert(r@ =~= seq![item_id] + unrejected_ids(cv.take(i + 1)));
        } else {
            assert(r@ =~= seq![item_id] + unrejected_ids(cv.take(i + 1)));
        }
        i += 1;
    }
    assert(cv.take(i as int) =~= cv);
    r
}

/// The sum of `sizes`.
pub open spec fn size_sum(sizes: Seq<u64>) -> nat
    decreases sizes.len(),
{
    if sizes.len() == 0 {
        0
    } else {
        size_sum(sizes.drop_last()) + sizes.last() as nat
    }
}

/// Whether texts of these byte sizes are read and embedded: together they
/// hold at most `MAX_EMBED_SIZE` bytes. Otherwise the session is given the
/// files' paths.
pub fn embed_within_limit(sizes: &Vec<u64>) -> (r: bool)
    ensures
        r == (size_sum(sizes@) <= MAX_EMBED_SIZE),
{
    let mut total: u64 = 0;
    let mut i: usize = 0;
    while i < sizes.len()
        invariant
            i <= sizes.len(),
            total == size_sum(sizes@.take(i as int)),
            total <= MAX_EMBED_SIZE,
        decreases sizes.len() - i,
    {
        assert(sizes@.take(i + 1).drop_last() =~= sizes@.take(i as int));
        if sizes[i] > MAX_EMBED_SIZE as u64 - total {
            proof {
                lemma_size_sum_prefix(sizes@, i + 1);
            }
            return false;
        }
        total = total + sizes[i];
        i += 1;
    }
    assert(sizes@.take(i as int) =~= sizes@);
    true
}

/// A sum over the whole is at least the sum over a prefix.
proof fn lemma_size_sum_prefix(s: Seq<u64>, k: int)
    requires
        0 <= k <= s.len(),
    ensures
        size_sum(s.take(k)) <= size_sum(s),
    decreases s.len() - k,
{
    if k < s.len() {
        lemma_size_sum_prefix(s, k + 1);
        assert(s.take(k + 1).drop_last() =~= s.take(k));
    } else {
        assert(s.take(k) =~= s);
    }
}

// ─── Failed sessions ─────────────────────────────────────────────────────────

/// Why an item's session did not complete it; the text is recorded as the
/// item's error.
#[derive(Debug, PartialEq, Eq)]
pub enum SessionFailure {
    /// Its source's name cannot be embedded in the prompt.
    UnsafeFilename(String),
    /// Its extracted text could not be read.
    ReadText(String),
    /// It has no extracted text.
    NoText,
    /// The session could not be run or failed.
    SessionFailed(String),
    /// The session ended with the item still in progress.
    NotMarkedComplete,
}

/// The error recorded for a failed session.
pub open spec fn session_failure_text(f: SessionFailure) -> Seq<char> {
    match f {
        SessionFailure::UnsafeFilename(e) => "Unsafe filename: "@ + e@,
        SessionFailure::ReadText(e) => "Failed to read text: "@ + e@,
        SessionFailure::NoText => "No processed text available"@,
        SessionFailure::SessionFailed(e) => "Assistant session failed: "@ + e@,
        SessionFailure::NotMarkedComplete => "Assistant session ended without marking item complete"@,
    }
}

impl SessionFailure {
    /// The error recorded for this failure.
    pub fn message(&self) -> (r: String)
        ensures
            r@ == session_failure_text(*self),
    {
        match self {
            SessionFailure::UnsafeFilename(e) => {
                let mut r = owned("Unsafe filename: ");
                r.append(e.as_str());
                r
            },
            SessionFailure::ReadText(e) => {
                let mut r = owned("Failed to read text: ");
                r.append(e.as_str());
                r
            },
            SessionFailure::NoText => owned("No processed text available"),
            SessionFailure::SessionFailed(e) => {
                let mut r = owned("Assistant session failed: ");
                r.append(e.as_str());
                r
            },
            SessionFailure::NotMarkedComplete => owned(
                "Assistant session ended without marking item complete",
            ),
        }
    }
}

/// What a session that ran to its end leaves to record, given the item's
/// status afterwards: an item still in progress was not completed.
pub fn after_session(status: ItemStatus) -> (r: Option<SessionFailure>)
    ensures
        status == ItemStatus::InProgress ==> r == Some(SessionFailure::NotMarkedComplete),
        status != ItemStatus::InProgress ==> r is None,
{
    if status == ItemStatus::InProgress {
        Some(SessionFailure::NotMarkedComplete)
    } else {
        None
    }
}

/// What a processing run has handled so far.
#[derive(Debug, Clone, Copy, PartialEq, Eq, Structural)]
pub struct RunTally {
    pub processed: usize,
    pub errors: usize,
}

impl RunTally {
    /// Nothing handled yet.
    pub fn new() -> (r: Self)
        ensures
            r == (RunTally { processed: 0, errors: 0 }),
    {
        RunTally { processed: 0, errors: 0 }
    }

    /// One more item claimed.
    pub fn claimed(&mut self)
        requires
            old(self).processed < usize::MAX,
        ensures
            final(self).processed == old(self).processed + 1,
            final(self).errors == old(self).errors,
    {
        self.processed = self.processed + 1;
    }

    /// One more item failed.
    pub fn failed(&mut self)
        requires
            old(self).errors < usize::MAX,
        ensures
            final(self).errors == old(self).errors + 1,
            final(self).processed == old(self).processed,
    {
        self.errors = self.errors + 1;
    }
}

// ─── Options ─────────────────────────────────────────────────────────────────

/// How sessions are run.
#[derive(Debug, Clone)]
pub struct ProcessOptions {
    /// Whether the API key is handed to the assistant (pay as you go);
    /// otherwise it is withheld so that the subscription is used.
    pub use_api_key: bool,
    /// A model to ask for instead of the assistant's default.
    pub model: Option<String>,
}

impl ProcessOptions {
    /// The options a processing configuration asks for: the API key is
    /// used when the authentication mode is `api`.
    pub fn from_config(p: &ProcessConfig) -> (r: Self)
        ensures
            r.use_api_key == (p.auth@ == "api"@),
            crate::text::opt_view(r.model) == crate::text::opt_view(p.model),
    {
        ProcessOptions {
            use_api_key: crate::text::str_equals(p.auth.as_str(), "api"),
            model: crate::text::clone_opt(&p.model),
        }
    }
}

} // verus!
