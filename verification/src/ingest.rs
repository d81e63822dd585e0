//! Ingestion bookkeeping: what each kind of source becomes, where its
//! scratch files go, how outcomes are counted and reported, and how a list
//! of files is read.
use vstd::prelude::*;
use crate::clock::utc_rfc3339_text;
use crate::detect::{
    detect_file_type, lowercase, path_extension, path_extension_spec, type_for_extension,
    FileClassification,
};
use crate::queue::{FileType, Queue, QueueError};
use crate::queue_laws::law_enqueued_row_is_found;
use crate::text::{
    chars_of, dec_nat, i64_to_string, is_ws, join_path, owned, path_join, dec_int, push_char,
    push_u64, string_from_chars, trim_chars, trim_seq,
};
use crate::config::{joined, strings_view};

verus! {

// ─── Outcome counts ──────────────────────────────────────────────────────────

/// How many sources one ingestion queued, rejected and failed on.
#[derive(Debug, Clone, Copy, PartialEq, Eq, Structural)]
pub struct IngestResult {
    pub queued: usize,
    pub rejected: usize,
    pub errors: usize,
}

impl Default for IngestResult {
    fn default() -> (r: Self)
        ensures
            r == (IngestResult { queued: 0, rejected: 0, errors: 0 }),
    {
        IngestResult { queued: 0, rejected: 0, errors: 0 }
    }
}

impl IngestResult {
    /// Adds the counts of `other` to these.
    pub fn merge(&mut self, other: IngestResult)
        requires
            old(self).queued + other.queued <= usize::MAX,
            old(self).rejected + other.rejected <= usize::MAX,
            old(self).errors + other.errors <= usize::MAX,
        ensures
            final(self).queued == old(self).queued + other.queued,
            final(self).rejected == old(self).rejected + other.rejected,
            final(self).errors == old(self).errors + other.errors,
    {
        self.queued = self.queued + other.queued;
        self.rejected = self.rejected + other.rejected;
        self.errors = self.errors + other.errors;
    }

    /// A source counted as queued failed afterwards: one fewer queued
    /// (never below zero), one more error.
    pub fn queued_to_error(&mut self)
        requires
            old(self).errors < usize::MAX,
        ensures
            final(self).queued == if old(self).queued > 0 {
                old(self).queued - 1
            } else {
                0
            },
            final(self).rejected == old(self).rejected,
            final(self).errors == old(self).errors + 1,
    {
        self.queued = if self.queued > 0 {
            self.queued - 1
        } else {
            0
        };
        self.errors = self.errors + 1;
    }

    /// A source counted as queued was rejected afterwards: one fewer queued
    /// (never below zero), one more rejection.
    pub fn queued_to_rejected(&mut self)
        requires
            old(self).rejected < usize::MAX,
        ensures
            final(self).queued == if old(self).queued > 0 {
                old(self).queued - 1
            } else {
                0
            },
            final(self).rejected == old(self).rejected + 1,
            final(self).errors == old(self).errors,
    {
        self.queued = if self.queued > 0 {
            self.queued - 1
        } else {
            0
        };
        self.rejected = self.rejected + 1;
    }

    /// One more source queued.
    pub fn queued_one(&mut self)
        requires
            old(self).queued < usize::MAX,
        ensures
            final(self).queued == old(self).queued + 1,
            final(self).rejected == old(self).rejected,
            final(self).errors == old(self).errors,
    {
        self.queued = self.queued + 1;
    }

    /// One more source rejected at once.
    pub fn rejected_one(&mut self)
        requires
            old(self).rejected < usize::MAX,
        ensures
            final(self).queued == old(self).queued,
            final(self).rejected == old(self).rejected + 1,
            final(self).errors == old(self).errors,
    {
        self.rejected = self.rejected + 1;
    }

    /// Counts what admitting a source did: one more queued source, or one
    /// more rejected one, or nothing for a skipped source. `false`, with
    /// nothing counted, when the count to raise is at its limit.
    pub fn count_admission(&mut self, a: &Admission) -> (ok: bool)
        ensures
            ok == match *a {
                Admission::Enqueued { .. } => old(self).queued < usize::MAX,
                Admission::Rejected { .. } => old(self).rejected < usize::MAX,
                Admission::Skipped => true,
            },
            *final(self) == if !ok {
                *old(self)
            } else {
                match *a {
                    Admission::Enqueued { .. } => IngestResult {
                        queued: (old(self).queued + 1) as usize,
                        ..*old(self)
                    },
                    Admission::Rejected { .. } => IngestResult {
                        rejected: (old(self).rejected + 1) as usize,
                        ..*old(self)
                    },
                    Admission::Skipped => *old(self),
                }
            },
    {
        match a {
            Admission::Enqueued { .. } => {
                if self.queued == usize::MAX {
                    return false;
                }
                self.queued = self.queued + 1;
            },
            Admission::Rejected { .. } => {
                if self.rejected == usize::MAX {
                    return false;
                }
                self.rejected = self.rejected + 1;
            },
            Admission::Skipped => {},
        }
        true
    }

    /// A nested source failed before it was queued: one more error.
    pub fn child_failed(&mut self)
        requires
            old(self).errors < usize::MAX,
        ensures
            final(self).queued == old(self).queued,
            final(self).rejected == old(self).rejected,
            final(self).errors == old(self).errors + 1,
    {
        self.errors = self.errors + 1;
    }

    /// A queued source failed at `stage` and was marked as `failure_mark`
    /// says: the counts move from queued to rejected or to errors.
    pub fn record_failure(&mut self, stage: FailureStage)
        requires
            old(self).rejected < usize::MAX,
            old(self).errors < usize::MAX,
        ensures
            final(self).queued == if old(self).queued > 0 {
                old(self).queued - 1
            } else {
                0
            },
            failure_mark(stage) == FailureMark::Reject ==> final(self).rejected == old(self).rejected
                + 1 && final(self).errors == old(self).errors,
            failure_mark(stage) == FailureMark::Error ==> final(self).errors == old(self).errors + 1
                && final(self).rejected == old(self).rejected,
    {
        match mark_for(stage) {
            FailureMark::Reject => self.queued_to_rejected(),
            FailureMark::Error => self.queued_to_error(),
        }
    }

    /// Nothing was queued, rejected or failed: the source was skipped.
    pub fn is_skipped(&self) -> (r: bool)
        ensures
            r == (self.queued == 0 && self.rejected == 0 && self.errors == 0),
    {
        self.queued == 0 && self.rejected == 0 && self.errors == 0
    }

    /// How the progress line reports one source's outcome.
    pub fn outcome_label(&self) -> (r: &'static str)
        ensures
            r@ == outcome_text(*self),
    {
        if self.queued > 0 && self.errors > 0 {
            "queued (some chapters errored)"
        } else if self.queued > 0 && self.rejected > 0 {
            "queued (some chapters rejected)"
        } else if self.queued > 0 {
            "queued"
        } else if self.errors > 0 {
            "error"
        } else if self.rejected > 0 {
            "rejected"
        } else {
            "skipped"
        }
    }
}

/// How the progress line reports an outcome.
pub open spec fn outcome_text(r: IngestResult) -> Seq<char> {
    if r.queued > 0 && r.errors > 0 {
        "queued (some chapters errored)"@
    } else if r.queued > 0 && r.rejected > 0 {
        "queued (some chapters rejected)"@
    } else if r.queued > 0 {
        "queued"@
    } else if r.errors > 0 {
        "error"@
    } else if r.rejected > 0 {
        "rejected"@
    } else {
        "skipped"@
    }
}

/// The closing line of an ingestion run.
pub open spec fn summary_text(
    totals: IngestResult,
    skipped: nat,
    failed: nat,
    minutes: nat,
    seconds: nat,
) -> Seq<char> {
    "Ingest complete — queued: "@ + dec_nat(totals.queued as nat) + ", rejected: "@ + dec_nat(
        totals.rejected as nat,
    ) + ", errors: "@ + dec_nat(totals.errors as nat) + ", skipped: "@ + dec_nat(skipped)
        + ", failed: "@ + dec_nat(failed) + " ("@ + dec_nat(minutes) + "m "@ + dec_nat(seconds)
        + "s)"@
}

/// The closing line of an ingestion run, from the totals, the skipped and
/// failed counts and the elapsed time.
pub fn summary_line(totals: &IngestResult, skipped: usize, failed: usize, elapsed_secs: u64) -> (r:
    String)
    ensures
        r@ == summary_text(
            *totals,
            skipped as nat,
            failed as nat,
            (elapsed_secs / 60) as nat,
            (elapsed_secs % 60) as nat,
        ),
{
    let mut r = owned("Ingest complete — queued: ");
    push_u64(&mut r, totals.queued as u64);
    r.append(", rejected: ");
    push_u64(&mut r, totals.rejected as u64);
    r.append(", errors: ");
    push_u64(&mut r, totals.errors as u64);
    r.append(", skipped: ");
    push_u64(&mut r, skipped as u64);
    r.append(", failed: ");
    push_u64(&mut r, failed as u64);
    r.append(" (");
    push_u64(&mut r, elapsed_secs / 60);
    r.append("m ");
    push_u64(&mut r, elapsed_secs % 60);
    r.append("s)");
    r
}

// ─── Per-file plan ───────────────────────────────────────────────────────────

/// Archives, documents and recordings nest at most this deep.
pub const MAX_RECURSION_DEPTH: usize = 3;

/// Whether a source found at nesting `depth` may be processed.
pub fn depth_allowed(depth: usize) -> (r: bool)
    ensures
        r == (depth <= MAX_RECURSION_DEPTH),
{
    depth <= MAX_RECURSION_DEPTH
}

/// What ingestion does with a source of a given type.
#[derive(Debug, Clone, Copy, PartialEq, Eq, Structural)]
pub enum IngestAction {
    /// Queue it, extract its entries and ingest each as its child.
    Unpack,
    /// Queue it, then split it into chapters or extract its text.
    ProcessPdf,
    /// Queue it and copy it into the processed directory.
    CopyText,
    /// Queue it and transcribe its audio into the processed directory.
    Transcribe,
    /// Queue it and reject it at once.
    Reject,
}

/// The action for each file type.
pub open spec fn action_for(t: FileType) -> IngestAction {
    match t {
        FileType::Zip => IngestAction::Unpack,
        FileType::Pdf => IngestAction::ProcessPdf,
        FileType::Markdown | FileType::Text => IngestAction::CopyText,
        FileType::Audio | FileType::Video => IngestAction::Transcribe,
        FileType::Unknown => IngestAction::Reject,
    }
}

/// What ingestion does with a source of type `t`.
pub fn ingest_action(t: FileType) -> (r: IngestAction)
    ensures
        r == action_for(t),
{
    match t {
        FileType::Zip => IngestAction::Unpack,
        FileType::Pdf => IngestAction::ProcessPdf,
        FileType::Markdown | FileType::Text => IngestAction::CopyText,
        FileType::Audio | FileType::Video => IngestAction::Transcribe,
        FileType::Unknown => IngestAction::Reject,
    }
}

/// The step at which preprocessing of a queued source failed.
#[derive(Debug, Clone, Copy, PartialEq, Eq, Structural)]
pub enum FailureStage {
    /// Its archive could not be extracted.
    Unpacking,
    /// It could not be classified as a book or a single document.
    Classifying,
    /// The book could not be split into chapters.
    Splitting,
    /// No text could be extracted from one of a book's chapters.
    ChapterText,
    /// No text could be extracted from the document.
    DocumentText,
    /// It could not be copied into the processed directory.
    Copying,
    /// Its audio could not be transcribed.
    Transcribing,
}

/// How a queued source that failed is marked.
#[derive(Debug, Clone, Copy, PartialEq, Eq, Structural)]
pub enum FailureMark {
    /// Rejected: nothing is wrong, there is just nothing to process.
    Reject,
    /// Errored.
    Error,
}

/// A chapter without extractable text (a cover, a table of contents) is
/// rejected so that its book does not look broken; every other failure is
/// an error.
pub open spec fn failure_mark(stage: FailureStage) -> FailureMark {
    match stage {
        FailureStage::ChapterText => FailureMark::Reject,
        _ => FailureMark::Error,
    }
}

/// How a source that failed at `stage` is marked.
pub fn mark_for(stage: FailureStage) -> (r: FailureMark)
    ensures
        r == failure_mark(stage),
{
    match stage {
        FailureStage::ChapterText => FailureMark::Reject,
        _ => FailureMark::Error,
    }
}

/// The reason recorded for a source at `path` of unknown type: it names
/// the file's extension, with its dot.
pub open spec fn unknown_reason_text(path: Seq<char>) -> Seq<char> {
    match path_extension_spec(path) {
        Some(e) => "non-operative file type: ."@ + e,
        None => "non-operative file type: no extension"@,
    }
}

/// The reason recorded for a source at `path` of unknown type.
pub fn unknown_type_reason(path: &str) -> (r: String)
    ensures
        r@ == unknown_reason_text(path@),
{
    match path_extension(path) {
        Some(e) => {
            let mut r = owned("non-operative file type: .");
            r.append(e.as_str());
            r
        },
        None => owned("non-operative file type: no extension"),
    }
}

/// The type by which ingestion treats the file at `path`.
pub open spec fn source_type(path: Seq<char>) -> FileType {
    type_for_extension(
        match path_extension_spec(path) {
            Some(e) => Some(lowercase(e)),
            None => None,
        },
    )
}

/// What admitting a source into the queue did.
#[derive(Debug, PartialEq, Eq)]
pub enum Admission {
    /// The source is already queued under the same parent: nothing done.
    Skipped,
    /// The source was queued as `id`, of `file_type`; `action` comes next.
    Enqueued { id: i64, file_type: FileType, action: IngestAction },
    /// The source is of unknown type: queued as `id` and rejected at once.
    Rejected { id: i64 },
}

/// Admits the source at `path`, under `parent_id`, into the queue: skips
/// it when it is already queued there, otherwise queues it by its type
/// and, for an unknown type, rejects it at once with
/// `unknown_type_reason`.
pub fn admit_source(queue: &mut Queue, path: &str, parent_id: Option<i64>) -> (r: Result<
    Admission,
    QueueError,
>)
    requires
        old(queue).wf(),
    ensures
        final(queue).wf(),
        match r {
            Ok(Admission::Skipped) => {
                &&& old(queue)@.has_entry(path@, parent_id)
                &&& final(queue)@ == old(queue)@
            },
            Ok(Admission::Enqueued { id, file_type, action }) => {
                &&& !old(queue)@.has_key(path@, parent_id)
                &&& file_type == source_type(path@)
                &&& file_type != FileType::Unknown
                &&& action == action_for(file_type)
                &&& id == old(queue)@.next_id
                &&& exists|t: Seq<char>|
                    utc_rfc3339_text(t) && final(queue)@ == old(queue)@.enqueued(
                        path@,
                        file_type,
                        parent_id,
                        t,
                    )
            },
            Ok(Admission::Rejected { id }) => {
                &&& !old(queue)@.has_key(path@, parent_id)
                &&& source_type(path@) == FileType::Unknown
                &&& id == old(queue)@.next_id
                &&& exists|t: Seq<char>, u: Seq<char>|
                    utc_rfc3339_text(t) && utc_rfc3339_text(u) && final(queue)@ == old(
                        queue,
                    )@.enqueued(path@, FileType::Unknown, parent_id, t).rejected(
                        id,
                        unknown_reason_text(path@),
                        u,
                    )
            },
            Err(QueueError::AlreadyEnqueued(p)) => {
                &&& !old(queue)@.has_entry(path@, parent_id)
                &&& old(queue)@.has_key(path@, parent_id)
                &&& p@ == path@
                &&& final(queue)@ == old(queue)@
            },
            Err(QueueError::Database(_)) => {
                &&& !old(queue)@.has_key(path@, parent_id)
                &&& old(queue)@.next_id == i64::MAX
                &&& final(queue)@ == old(queue)@
            },
            Err(QueueError::ClockUnavailable) => {
                ||| final(queue)@ == old(queue)@
                ||| source_type(path@) == FileType::Unknown && exists|t: Seq<char>|
                    utc_rfc3339_text(t) && final(queue)@ == old(queue)@.enqueued(
                        path@,
                        FileType::Unknown,
                        parent_id,
                        t,
                    )
            },
            Err(_) => false,
        },
{
    let already = match queue.is_already_enqueued(path, parent_id) {
        Ok(b) => b,
        Err(e) => return Err(e),
    };
    if already {
        return Ok(Admission::Skipped);
    }
    let FileClassification::Ingestable(file_type) = detect_file_type(path);
    let ghost before = queue@;
    let id = match queue.enqueue(path, file_type, parent_id) {
        Ok(id) => id,
        Err(e) => return Err(e),
    };
    let action = ingest_action(file_type);
    match action {
        IngestAction::Reject => {
            let ghost t = choose|t: Seq<char>|
                utc_rfc3339_text(t) && queue@ == before.enqueued(path@, file_type, parent_id, t);
            proof {
                law_enqueued_row_is_found(before, path@, file_type, parent_id, t);
            }
            let reason = unknown_type_reason(path);
            match queue.mark_rejected(id, reason.as_str()) {
                Ok(()) => Ok(Admission::Rejected { id }),
                Err(e) => Err(e),
            }
        },
        _ => Ok(Admission::Enqueued { id, file_type, action }),
    }
}

/// `<raw_dir>/<prefix><id><suffix>`.
fn scratch_dir(raw_dir: &str, prefix: &str, id: i64, suffix: &str) -> (r: String)
    ensures
        r@ == path_join(raw_dir@, prefix@ + dec_int(id as int) + suffix@),
{
    let mut name = owned(prefix);
    let n = i64_to_string(id);
    name.append(n.as_str());
    name.append(suffix);
    join_path(raw_dir, name.as_str())
}

/// Where the entries of archive item `id` are extracted: `<raw>/zip_<id>`.
pub fn zip_extract_dir(raw_dir: &str, id: i64) -> (r: String)
    ensures
        r@ == path_join(raw_dir@, "zip_"@ + dec_int(id as int) + ""@),
{
    scratch_dir(raw_dir, "zip_", id, "")
}

/// Where the chapters of document item `id` are written:
/// `<raw>/pdf_<id>_chapters`.
pub fn pdf_chapter_dir(raw_dir: &str, id: i64) -> (r: String)
    ensures
        r@ == path_join(raw_dir@, "pdf_"@ + dec_int(id as int) + "_chapters"@),
{
    scratch_dir(raw_dir, "pdf_", id, "_chapters")
}

/// Where the audio of video item `id` is extracted: `<raw>/audio_<id>`.
pub fn audio_extract_dir(raw_dir: &str, id: i64) -> (r: String)
    ensures
        r@ == path_join(raw_dir@, "audio_"@ + dec_int(id as int) + ""@),
{
    scratch_dir(raw_dir, "audio_", id, "")
}

// ─── Source arguments and file lists ─────────────────────────────────────────

/// What the ingest argument names.
#[derive(Debug, Clone)]
pub enum SourceArg {
    /// `@<file>`: a file that lists one source per line.
    FileList(String),
    /// A file, a directory or a glob pattern.
    Path(String),
}

/// Reads the ingest argument: a leading `@` names a file list.
pub fn parse_source_arg(arg: &str) -> (r: SourceArg)
    ensures
        match r {
            SourceArg::FileList(f) => arg@.len() > 0 && arg@[0] == '@' && f@ == arg@.skip(1),
            SourceArg::Path(p) => !(arg@.len() > 0 && arg@[0] == '@') && p@ == arg@,
        },
{
    let v = chars_of(arg);
    if v.len() > 0 && v[0] == '@' {
        let mut rest: Vec<char> = Vec::new();
        let mut i: usize = 1;
        while i < v.len()
            invariant
                1 <= i <= v.len(),
                rest@ == v@.subrange(1, i as int),
            decreases v.len() - i,
        {
            rest.push(v[i]);
            assert(v@.subrange(1, i as int).push(v@[i as int]) =~= v@.subrange(1, i + 1));
            i += 1;
        }
        assert(rest@ =~= arg@.skip(1));
        SourceArg::FileList(string_from_chars(&rest))
    } else {
        SourceArg::Path(owned(arg))
    }
}

/// `s` without one pair of matching surrounding quotes (`"…"` or `'…'`).
pub open spec fn strip_quotes_spec(s: Seq<char>) -> Seq<char> {
    if s.len() >= 2 && ((s[0] == '"' && s.last() == '"') || (s[0] == '\'' && s.last() == '\'')) {
        s.subrange(1, s.len() - 1)
    } else {
        s
    }
}

/// Strips one pair of matching surrounding quotes (`"…"` or `'…'`).
pub fn strip_quotes(s: &str) -> (r: &str)
    ensures
        r@ == strip_quotes_spec(s@),
{
    let v = chars_of(s);
    let n = v.len();
    if n >= 2 && ((v[0] == '"' && v[n - 1] == '"') || (v[0] == '\'' && v[n - 1] == '\'')) {
        s.substring_char(1, n - 1)
    } else {
        s
    }
}

/// `s` split at every line feed.
pub open spec fn split_lines(s: Seq<char>) -> Seq<Seq<char>>
    decreases s.len(),
{
    if s.len() == 0 {
        seq![seq![]]
    } else {
        let rest = split_lines(s.drop_last());
        if s.last() == '\n' {
            rest.push(seq![])
        } else {
            rest.update(rest.len() - 1, rest.last().push(s.last()))
        }
    }
}

proof fn lemma_split_lines_nonempty(s: Seq<char>)
    ensures
        split_lines(s).len() >= 1,
    decreases s.len(),
{
    if s.len() > 0 {
        lemma_split_lines_nonempty(s.drop_last());
    }
}

/// Whether a trimmed line names a file: it is not blank and not a `#`
/// comment.
pub open spec fn names_file(t: Seq<char>) -> bool {
    t.len() > 0 && t[0] != '#'
}

/// The files that the lines name: each line trimmed, blank lines and `#`
/// comments skipped, surrounding quotes stripped.
pub open spec fn list_entries(lines: Seq<Seq<char>>) -> Seq<Seq<char>>
    decreases lines.len(),
{
    if lines.len() == 0 {
        seq![]
    } else {
        let rest = list_entries(lines.drop_last());
        let t = trim_seq(lines.last());
        if names_file(t) {
            rest.push(strip_quotes_spec(t))
        } else {
            rest
        }
    }
}

/// The files that a file list names.
pub open spec fn file_list_spec(content: Seq<char>) -> Seq<Seq<char>> {
    list_entries(split_lines(content))
}

/// Splitting at a line feed between `a` and `b` gives the lines of `a`
/// followed by those of `b`.
proof fn lemma_split_lines_concat(a: Seq<char>, b: Seq<char>)
    ensures
        split_lines(a + seq!['\n'] + b) == split_lines(a) + split_lines(b),
    decreases b.len(),
{
    let s = a + seq!['\n'] + b;
    if b.len() == 0 {
        assert(s =~= a.push('\n'));
        assert(s.drop_last() =~= a);
        assert(split_lines(a).push(seq![]) =~= split_lines(a) + split_lines(b));
    } else {
        let bd = b.drop_last();
        lemma_split_lines_concat(a, bd);
        lemma_split_lines_nonempty(bd);
        assert(s.drop_last() =~= a + seq!['\n'] + bd);
        assert(s.last() == b.last());
        let x = split_lines(a);
        let y = split_lines(bd);
        if b.last() == '\n' {
            assert((x + y).push(seq![]) =~= x + y.push(seq![]));
        } else {
            let c = b.last();
            assert((x + y).update((x + y).len() - 1, (x + y).last().push(c)) =~= x + y.update(
                y.len() - 1,
                y.last().push(c),
            ));
        }
    }
}

/// A text without line feeds is a single line.
proof fn lemma_split_lines_single(l: Seq<char>)
    requires
        forall|i: int| 0 <= i < l.len() ==> l[i] != '\n',
    ensures
        split_lines(l) == seq![l],
    decreases l.len(),
{
    if l.len() > 0 {
        lemma_split_lines_single(l.drop_last());
        assert(l.last() == l[l.len() - 1]);
        assert(l.drop_last().push(l.last()) =~= l);
        assert(seq![l.drop_last()].update(0, l.drop_last().push(l.last())) =~= seq![l]);
    } else {
        assert(l =~= Seq::<char>::empty());
    }
}

/// The entries of two runs of lines are the entries of the first followed
/// by those of the second.
proof fn lemma_list_entries_concat(x: Seq<Seq<char>>, y: Seq<Seq<char>>)
    ensures
        list_entries(x + y) == list_entries(x) + list_entries(y),
    decreases y.len(),
{
    if y.len() == 0 {
        assert(x + y =~= x);
        assert(list_entries(x) + list_entries(y) =~= list_entries(x));
    } else {
        lemma_list_entries_concat(x, y.drop_last());
        assert((x + y).drop_last() =~= x + y.drop_last());
        assert((x + y).last() == y.last());
        let t = trim_seq(y.last());
        if names_file(t) {
            assert((list_entries(x) + list_entries(y.drop_last())).push(strip_quotes_spec(t))
                =~= list_entries(x) + list_entries(y.drop_last()).push(strip_quotes_spec(t)));
        }
    }
}

/// A file list is read line by line: a line (text without a line feed,
/// whether or not a line feed ends it) names its one entry, trimmed and
/// unquoted, unless it is blank or a `#` comment; and the entries of two
/// parts joined by a line feed are those of the first part followed by
/// those of the second. So every line of the list, the last one too,
/// contributes its entry, in order.
pub proof fn law_file_list_reads_every_line(a: Seq<char>, b: Seq<char>, line: Seq<char>)
    requires
        forall|i: int| 0 <= i < line.len() ==> line[i] != '\n',
    ensures
        file_list_spec(a + seq!['\n'] + b) == file_list_spec(a) + file_list_spec(b),
        file_list_spec(line) == if names_file(trim_seq(line)) {
            seq![strip_quotes_spec(trim_seq(line))]
        } else {
            Seq::<Seq<char>>::empty()
        },
{
    lemma_split_lines_concat(a, b);
    lemma_list_entries_concat(split_lines(a), split_lines(b));
    lemma_split_lines_single(line);
    assert(seq![line].drop_last() =~= Seq::<Seq<char>>::empty());
    assert(seq![line].last() == line);
    assert(list_entries(Seq::<Seq<char>>::empty()) == Seq::<Seq<char>>::empty());
    if names_file(trim_seq(line)) {
        assert(Seq::<Seq<char>>::empty().push(strip_quotes_spec(trim_seq(line))) =~= seq![
            strip_quotes_spec(trim_seq(line)),
        ]);
    }
}

/// Why a file list was refused.
#[derive(Debug)]
pub enum FileListError {
    /// The list names no file.
    Empty,
}

/// The entry a trimmed line gives, if any.
fn entry_of_line(line: &Vec<char>) -> (r: Option<String>)
    ensures
        match r {
            Some(e) => names_file(trim_seq(line@)) && e@ == strip_quotes_spec(trim_seq(line@)),
            None => !names_file(trim_seq(line@)),
        },
{
    let t = trim_chars(line);
    if t.len() > 0 && t[0] != '#' {
        let s = string_from_chars(&t);
        Some(owned(strip_quotes(s.as_str())))
    } else {
        None
    }
}

/// The files a file list names, one per line: lines are trimmed, blank
/// lines and lines starting with `#` are skipped, and one pair of
/// surrounding quotes is stripped. A list naming no file is refused.
pub fn parse_file_list(content: &str) -> (r: Result<Vec<String>, FileListError>)
    ensures
        match r {
            Ok(v) => strings_view(v@) == file_list_spec(content@) && v@.len() > 0,
            Err(FileListError::Empty) => file_list_spec(content@).len() == 0,
        },
{
    let v = chars_of(content);
    let mut out: Vec<String> = Vec::new();
    let mut cur: Vec<char> = Vec::new();
    let mut i: usize = 0;
    while i < v.len()
        invariant
            i <= v.len(),
            v@ == content@,
            split_lines(v@.take(i as int)).len() >= 1,
            split_lines(v@.take(i as int)).last() == cur@,
            strings_view(out@) == list_entries(split_lines(v@.take(i as int)).drop_last()),
        decreases v.len() - i,
    {
        let c = v[i];
        let ghost sp = split_lines(v@.take(i as int));
        assert(v@.take(i + 1).drop_last() =~= v@.take(i as int));
        assert(v@.take(i + 1).last() == c);
        if c == '\n' {
            let e = entry_of_line(&cur);
            proof {
                assert(split_lines(v@.take(i + 1)) == sp.push(seq![]));
                assert(sp.push(seq![]).drop_last() =~= sp);
                assert(sp.drop_last().push(sp.last()) =~= sp);
            }
            match e {
                Some(x) => {
                    let ghost before = out@;
                    out.push(x);
                    assert(strings_view(out@) =~= strings_view(before).push(
                        strip_quotes_spec(trim_seq(cur@)),
                    ));
                },
                None => {},
            }
            cur = Vec::new();
        } else {
            cur.push(c);
            proof {
                lemma_split_lines_nonempty(v@.take(i as int));
                let nsp = split_lines(v@.take(i + 1));
                assert(nsp == sp.update(sp.len() - 1, sp.last().push(c)));
                assert(nsp.drop_last() =~= sp.drop_last());
            }
        }
        i += 1;
    }
    let ghost sp = split_lines(v@.take(i as int));
    proof {
        assert(v@.take(i as int) =~= content@);
        assert(sp.drop_last().push(sp.last()) =~= sp);
    }
    match entry_of_line(&cur) {
        Some(x) => {
            let ghost before = out@;
            out.push(x);
            assert(strings_view(out@) =~= strings_view(before).push(
                strip_quotes_spec(trim_seq(cur@)),
            ));
        },
        None => {},
    }
    if out.len() == 0 {
        Err(FileListError::Empty)
    } else {
        Ok(out)
    }
}

/// The message for listed files that do not exist.
pub open spec fn missing_files_text(missing: Seq<Seq<char>>) -> Seq<char> {
    dec_nat(missing.len()) + " file(s) from list not found: "@ + joined(missing)
}

/// The message for listed files that do not exist.
pub fn missing_files_message(missing: &Vec<String>) -> (r: String)
    ensures
        r@ == missing_files_text(strings_view(missing@)),
{
    let mut r = String::new();
    push_u64(&mut r, missing.len() as u64);
    r.append(" file(s) from list not found: ");
    let mut i: usize = 0;
    let ghost start = r@;
    while i < missing.len()
        invariant
            i <= missing.len(),
            r@ == start + joined(strings_view(missing@.take(i as int))),
        decreases missing.len() - i,
    {
        assert(strings_view(missing@.take(i + 1)).drop_last() =~= strings_view(
            missing@.take(i as int),
        ));
        assert(strings_view(missing@.take(i + 1)).last() == missing@[i as int]@);
        if i > 0 {
            r.append(", ");
        }
        r.append(missing[i].as_str());
        i += 1;
    }
    assert(missing@.take(missing.len() as int) =~= missing@);
    assert(strings_view(missing@).len() == missing@.len());
    r
}

// ─── Resolving the ingest argument ───────────────────────────────────────────

/// Directories are walked at most this deep.
pub const MAX_WALK_DEPTH: usize = 50;

/// Whether a directory found at nesting `depth` may be walked.
pub fn walk_depth_allowed(depth: usize) -> (r: bool)
    ensures
        r == (depth <= MAX_WALK_DEPTH),
{
    depth <= MAX_WALK_DEPTH
}

/// Why the ingest argument named no files to ingest.
#[derive(Debug)]
pub enum ResolveError {
    /// The directory given holds no file.
    DirectoryEmpty(String),
    /// The pattern given matched no file.
    NoMatch(String),
    /// The file list given names no file.
    ListEmpty(String),
    /// These files named by the list do not exist.
    Missing(Vec<String>),
    /// The directory given nests deeper than `MAX_WALK_DEPTH` at this one.
    TooDeep(String),
}

/// The text that describes a resolution error.
pub open spec fn resolve_error_text(e: ResolveError) -> Seq<char> {
    match e {
        ResolveError::DirectoryEmpty(p) => "directory is empty: "@ + p@,
        ResolveError::NoMatch(p) => "no files matched: "@ + p@,
        ResolveError::ListEmpty(p) => "file list is empty: "@ + p@,
        ResolveError::Missing(m) => missing_files_text(strings_view(m@)),
        ResolveError::TooDeep(p) => "directory nesting exceeds "@ + dec_nat(MAX_WALK_DEPTH as nat)
            + " levels: "@ + p@,
    }
}

impl ResolveError {
    /// The text that describes this error.
    pub fn message(&self) -> (r: String)
        ensures
            r@ == resolve_error_text(*self),
    {
        match self {
            ResolveError::DirectoryEmpty(p) => {
                let mut r = owned("directory is empty: ");
                r.append(p.as_str());
                r
            },
            ResolveError::NoMatch(p) => {
                let mut r = owned("no files matched: ");
                r.append(p.as_str());
                r
            },
            ResolveError::ListEmpty(p) => {
                let mut r = owned("file list is empty: ");
                r.append(p.as_str());
                r
            },
            ResolveError::Missing(m) => missing_files_message(m),
            ResolveError::TooDeep(p) => {
                let mut r = owned("directory nesting exceeds ");
                push_u64(&mut r, MAX_WALK_DEPTH as u64);
                r.append(" levels: ");
                r.append(p.as_str());
                r
            },
        }
    }
}

} // verus!
