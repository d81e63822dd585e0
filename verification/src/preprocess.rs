//! Decisions of source preprocessing: how a document is classified and cut
//! into chapters, how archive extraction is bounded, which extracted text
//! is kept, and how output files are named.
use vstd::prelude::*;
use crate::detect::{chars_before, file_name, last_dot, path_file_name, rfind_dot};
use crate::config::strings_view;
use crate::text::{
    chars_blank, chars_of, dec_nat, is_blank, join_path, owned, path_join, push_u64,
    string_from_chars,
};

verus! {

// ─── Documents ───────────────────────────────────────────────────────────────

/// What a document is taken to be.
#[derive(Debug, PartialEq, Eq)]
pub enum PdfClassification {
    /// A document without outline: its text is extracted whole.
    Simple,
    /// A document with an outline: it is split into chapters, one per
    /// top-level outline entry that points into it.
    Book { chapter_count: usize },
    /// A document held back for the reason given.
    Sensitive(String),
}

/// Where a top-level outline entry points.
#[derive(Debug, Clone, Copy, PartialEq, Eq, Structural)]
pub enum PageRef {
    /// A page object of the document, with its page number when the
    /// document's page list holds it.
    Object(Option<u32>),
    /// A page given by number.
    Number(i64),
    /// Nothing that names a page.
    Unreadable,
}

/// A top-level entry of a document's outline.
#[derive(Debug, Clone, Copy, PartialEq, Eq, Structural)]
pub enum OutlineEntry {
    /// An entry that points into the document.
    Destination(PageRef),
    /// Any other entry (a nested list of entries).
    Other,
}

/// How many entries point into the document.
pub open spec fn destination_count(entries: Seq<OutlineEntry>) -> nat
    decreases entries.len(),
{
    if entries.len() == 0 {
        0
    } else {
        destination_count(entries.drop_last()) + match entries.last() {
            OutlineEntry::Destination(_) => 1nat,
            OutlineEntry::Other => 0nat,
        }
    }
}

/// The first page of each chapter, in outline order: the page of each
/// entry that points to one; a page given by number is taken modulo 2^32.
pub open spec fn page_starts_spec(entries: Seq<OutlineEntry>) -> Seq<u32>
    decreases entries.len(),
{
    if entries.len() == 0 {
        seq![]
    } else {
        let rest = page_starts_spec(entries.drop_last());
        match entries.last() {
            OutlineEntry::Destination(PageRef::Object(Some(n))) => rest.push(n),
            OutlineEntry::Destination(PageRef::Number(n)) => rest.push(n as u32),
            _ => rest,
        }
    }
}

/// Classifies a document by the top-level entries of its outline: any
/// outline makes a book, with one chapter per entry that points into it.
pub fn classify_outline(entries: &Vec<OutlineEntry>) -> (r: PdfClassification)
    ensures
        entries@.len() == 0 ==> r == PdfClassification::Simple,
        entries@.len() > 0 ==> r == (PdfClassification::Book {
            chapter_count: destination_count(entries@) as usize,
        }),
{
    if entries.len() == 0 {
        return PdfClassification::Simple;
    }
    let mut n: usize = 0;
    let mut i: usize = 0;
    while i < entries.len()
        invariant
            i <= entries.len(),
            n == destination_count(entries@.take(i as int)),
            n <= i,
        decreases entries.len() - i,
    {
        assert(entries@.take(i + 1).drop_last() =~= entries@.take(i as int));
        match entries[i] {
            OutlineEntry::Destination(_) => {
                n = n + 1;
            },
            OutlineEntry::Other => {},
        }
        i += 1;
    }
    assert(entries@.take(i as int) =~= entries@);
    PdfClassification::Book { chapter_count: n }
}

/// The first page of each chapter, in outline order.
pub fn page_starts(entries: &Vec<OutlineEntry>) -> (r: Vec<u32>)
    ensures
        r@ == page_starts_spec(entries@),
{
    let mut r: Vec<u32> = Vec::new();
    let mut i: usize = 0;
    while i < entries.len()
        invariant
            i <= entries.len(),
            r@ == page_starts_spec(entries@.take(i as int)),
        decreases entries.len() - i,
    {
        assert(entries@.take(i + 1).drop_last() =~= entries@.take(i as int));
        match entries[i] {
            OutlineEntry::Destination(PageRef::Object(Some(n))) => r.push(n),
            OutlineEntry::Destination(PageRef::Number(n)) => r.push(n as u32),
            _ => {},
        }
        i += 1;
    }
    assert(entries@.take(i as int) =~= entries@);
    r
}

/// The page range of each chapter: from its first page to the page before
/// the next chapter's first page (never below zero), the last chapter
/// ending on the last page.
pub open spec fn chapter_ranges_spec(starts: Seq<u32>, total_pages: u32) -> Seq<(u32, u32)> {
    Seq::new(
        starts.len(),
        |i: int|
            (
                starts[i],
                if i + 1 < starts.len() {
                    if starts[i + 1] > 0 {
                        (starts[i + 1] - 1) as u32
                    } else {
                        0u32
                    }
                } else {
                    total_pages
                },
            ),
    )
}

/// The page range of each chapter, given each chapter's first page in
/// outline order and the document's page count.
pub fn chapter_ranges(page_starts: &Vec<u32>, total_pages: u32) -> (r: Vec<(u32, u32)>)
    ensures
        r@ == chapter_ranges_spec(page_starts@, total_pages),
{
    let mut r: Vec<(u32, u32)> = Vec::new();
    let mut i: usize = 0;
    while i < page_starts.len()
        invariant
            i <= page_starts.len(),
            r@.len() == i,
            forall|j: int| 0 <= j < i ==> #[trigger] r@[j] == chapter_ranges_spec(page_starts@, total_pages)[j],
        decreases page_starts.len() - i,
    {
        let end = if i + 1 < page_starts.len() {
            page_starts[i + 1].saturating_sub(1)
        } else {
            total_pages
        };
        r.push((page_starts[i], end));
        i += 1;
    }
    assert(r@ =~= chapter_ranges_spec(page_starts@, total_pages));
    r
}

/// `n` in decimal, padded with zeros to at least three digits.
pub open spec fn pad3(n: nat) -> Seq<char> {
    if n < 10 {
        "00"@ + dec_nat(n)
    } else if n < 100 {
        "0"@ + dec_nat(n)
    } else {
        dec_nat(n)
    }
}

/// The file name of chapter `index` (counted from 0) of a document whose
/// name without extension is `stem`: `<stem>_chapter_<NNN>.pdf`, numbered
/// from 1.
pub fn chapter_file_name(stem: &str, index: usize) -> (r: String)
    requires
        index < usize::MAX,
    ensures
        r@ == stem@ + "_chapter_"@ + pad3((index + 1) as nat) + ".pdf"@,
{
    let n = (index + 1) as u64;
    let mut r = owned(stem);
    r.append("_chapter_");
    if n < 10 {
        r.append("00");
    } else if n < 100 {
        r.append("0");
    }
    push_u64(&mut r, n);
    r.append(".pdf");
    r
}

/// The page selection handed to the splitter: `<start>-<end>`.
pub fn page_range_arg(start: u32, end: u32) -> (r: String)
    ensures
        r@ == dec_nat(start as nat) + "-"@ + dec_nat(end as nat),
{
    let mut r = String::new();
    push_u64(&mut r, start as u64);
    r.append("-");
    push_u64(&mut r, end as u64);
    r
}

/// One chapter to cut out of a book: its pages and the file it is
/// written to.
#[derive(Debug)]
pub struct ChapterJob {
    pub start: u32,
    pub end: u32,
    pub file_name: String,
}

/// How a document is cut: kept whole, or split into chapters.
#[derive(Debug)]
pub enum ChapterPlan {
    /// No outline, or no entry of it points to a page: the document is its
    /// own single chunk.
    Whole,
    /// One job per chapter, in outline order.
    Split(Vec<ChapterJob>),
}

/// The chapters of a book whose outline has `entries`, whose page count is
/// `total_pages` and whose file name without extension is `stem`.
pub fn chapter_plan(entries: &Vec<OutlineEntry>, total_pages: u32, stem: &str) -> (r: ChapterPlan)
    ensures
        entries@.len() == 0 || page_starts_spec(entries@).len() == 0 ==> r is Whole,
        entries@.len() > 0 && page_starts_spec(entries@).len() > 0 ==> (r matches ChapterPlan::Split(jobs) && jobs@.len() == page_starts_spec(entries@).len() && forall|i: int| 0 <= i < jobs@.len() ==> {
            &&& (#[trigger] jobs@[i]).start == chapter_ranges_spec(page_starts_spec(entries@), total_pages)[i].0
            &&& jobs@[i].end == chapter_ranges_spec(page_starts_spec(entries@), total_pages)[i].1
            &&& jobs@[i].file_name@ == stem@ + "_chapter_"@ + pad3((i + 1) as nat) + ".pdf"@
        }),
{
    if entries.len() == 0 {
        return ChapterPlan::Whole;
    }
    let starts = page_starts(entries);
    if starts.len() == 0 {
        return ChapterPlan::Whole;
    }
    let ranges = chapter_ranges(&starts, total_pages);
    let ghost rs = chapter_ranges_spec(page_starts_spec(entries@), total_pages);
    let mut jobs: Vec<ChapterJob> = Vec::new();
    let mut i: usize = 0;
    while i < ranges.len()
        invariant
            i <= ranges.len(),
            ranges@ == rs,
            rs.len() == starts@.len(),
            jobs@.len() == i,
            forall|j: int| 0 <= j < i ==> {
                &&& (#[trigger] jobs@[j]).start == rs[j].0
                &&& jobs@[j].end == rs[j].1
                &&& jobs@[j].file_name@ == stem@ + "_chapter_"@ + pad3((j + 1) as nat) + ".pdf"@
            },
        decreases ranges.len() - i,
    {
        let (start, end) = ranges[i];
        let name = chapter_file_name(stem, i);
        jobs.push(ChapterJob { start, end, file_name: name });
        i += 1;
    }
    ChapterPlan::Split(jobs)
}

/// Whether an exit code of `qpdf` means the pages were written: 0 for
/// success, 3 for success with warnings. A run that a signal ended has no
/// code.
pub fn qpdf_status_ok(code: Option<i32>) -> (r: bool)
    ensures
        r == (code == Some(0i32) || code == Some(3i32)),
{
    match code {
        Some(c) => c == 0 || c == 3,
        None => false,
    }
}

/// Whether `qpdf` exiting with `code` wrote the pages.
pub open spec fn qpdf_code_ok(code: Option<i32>) -> bool {
    code == Some(0i32) || code == Some(3i32)
}

/// Whether chapter `i` was written, given the exit codes of the `qpdf` runs
/// made so far, in chapter order.
pub open spec fn chapter_written(codes: Seq<Option<i32>>, i: int) -> bool {
    0 <= i < codes.len() && qpdf_code_ok(codes[i])
}

/// The paths the chapters of `jobs` are written to under `output_dir`.
pub open spec fn chapter_paths(output_dir: Seq<char>, jobs: Seq<ChapterJob>) -> Seq<Seq<char>> {
    Seq::new(jobs.len(), |i: int| path_join(output_dir, jobs[i].file_name@))
}

/// The outcome of a split into `jobs` once `qpdf` has run on the chapters
/// in order, with the exit codes `codes`: the chapter paths when every
/// chapter was written (exit code 0, or 3 for warnings), otherwise the
/// index of the first chapter that was not.
pub fn split_outcome(output_dir: &str, jobs: &Vec<ChapterJob>, codes: &Vec<Option<i32>>) -> (r:
    Result<Vec<String>, usize>)
    ensures
        match r {
            Ok(v) => {
                &&& forall|i: int| 0 <= i < jobs@.len() ==> chapter_written(codes@, i)
                &&& strings_view(v@) == chapter_paths(output_dir@, jobs@)
            },
            Err(i) => {
                &&& i < jobs@.len()
                &&& !chapter_written(codes@, i as int)
                &&& forall|j: int| 0 <= j < i ==> chapter_written(codes@, j)
            },
        },
{
    let mut paths: Vec<String> = Vec::new();
    let mut i: usize = 0;
    while i < jobs.len()
        invariant
            i <= jobs.len(),
            forall|j: int| 0 <= j < i ==> chapter_written(codes@, j),
            strings_view(paths@) == chapter_paths(output_dir@, jobs@).take(i as int),
        decreases jobs.len() - i,
    {
        if i >= codes.len() || !qpdf_status_ok(codes[i]) {
            return Err(i);
        }
        let ghost before = paths@;
        paths.push(join_path(output_dir, jobs[i].file_name.as_str()));
        assert(strings_view(paths@) =~= strings_view(before).push(
            path_join(output_dir@, jobs@[i as int].file_name@),
        ));
        assert(chapter_paths(output_dir@, jobs@).take(i + 1) =~= chapter_paths(
            output_dir@,
            jobs@,
        ).take(i as int).push(path_join(output_dir@, jobs@[i as int].file_name@)));
        i += 1;
    }
    assert(chapter_paths(output_dir@, jobs@).take(i as int) =~= chapter_paths(output_dir@, jobs@));
    Ok(paths)
}

/// Whether extracted text is worth keeping: it is not all whitespace.
pub fn usable_text(text: &str) -> (r: bool)
    ensures
        r == !is_blank(text@),
{
    let v = chars_of(text);
    !chars_blank(&v)
}

// ─── Names ───────────────────────────────────────────────────────────────────

/// The name of the file a path names without its extension
/// (`Path::file_stem`).
pub open spec fn file_stem(p: Seq<char>) -> Option<Seq<char>> {
    match file_name(p) {
        Some(n) => match last_dot(n) {
            Some(k) => if k > 0 {
                Some(n.take(k))
            } else {
                Some(n)
            },
            None => Some(n),
        },
        None => None,
    }
}

/// The stem of the file `path` names, or `default` when it names none.
pub fn stem_or(path: &str, default: &str) -> (r: String)
    ensures
        r@ == match file_stem(path@) {
            Some(s) => s,
            None => default@,
        },
{
    match path_file_name(path) {
        Some(name) => match rfind_dot(&name) {
            Some(k) => {
                if k > 0 {
                    string_from_chars(&chars_before(&name, k))
                } else {
                    string_from_chars(&name)
                }
            },
            None => string_from_chars(&name),
        },
        None => owned(default),
    }
}

/// The audio file extracted from a recording: `<stem>.wav`.
pub fn wav_file_name(stem: &str) -> (r: String)
    ensures
        r@ == stem@ + ".wav"@,
{
    let mut r = owned(stem);
    r.append(".wav");
    r
}

/// The transcript the transcriber writes beside an audio file: the audio
/// file's name (or `audio.wav` when it has none) with `.txt` appended.
pub fn transcript_file_name(audio_file_name: Option<&str>) -> (r: String)
    ensures
        r@ == match audio_file_name {
            Some(n) => n@,
            None => "audio.wav"@,
        } + ".txt"@,
{
    let mut r = match audio_file_name {
        Some(n) => owned(n),
        None => owned("audio.wav"),
    };
    r.append(".txt");
    r
}

/// The transcript to keep: the one written beside the audio file when
/// there is one, else what the transcriber printed unless it is blank.
pub fn choose_transcript(sidecar: Option<String>, printed: String) -> (r: Option<String>)
    ensures
        match sidecar {
            Some(t) => r matches Some(x) && x@ == t@,
            None => if is_blank(printed@) {
                r is None
            } else {
                r matches Some(x) && x@ == printed@
            },
        },
{
    match sidecar {
        Some(t) => Some(t),
        None => if usable_text(printed.as_str()) {
            Some(printed)
        } else {
            None
        },
    }
}

// ─── Archives ────────────────────────────────────────────────────────────────

/// Extraction stops once the entries written exceed this many bytes.
pub const MAX_DECOMPRESSED_SIZE: u64 = 1_073_741_824;

/// Extraction stops once this many entries have been written.
pub const MAX_ENTRIES: usize = 10_000;

/// Why an archive's extraction was stopped.
#[derive(Debug, PartialEq, Eq)]
pub enum ZipLimitError {
    /// The entries written exceed `MAX_DECOMPRESSED_SIZE` bytes.
    TooLarge,
    /// `MAX_ENTRIES` entries have been written.
    TooManyEntries,
}

/// The text that describes a stopped extraction.
pub open spec fn zip_limit_text(e: ZipLimitError) -> Seq<char> {
    match e {
        ZipLimitError::TooLarge => "ZIP extraction aborted: decompressed size exceeds "@ + dec_nat(
            MAX_DECOMPRESSED_SIZE as nat,
        ) + " bytes"@,
        ZipLimitError::TooManyEntries => "ZIP extraction aborted: "@ + dec_nat(MAX_ENTRIES as nat)
            + " or more entries"@,
    }
}

impl ZipLimitError {
    /// The text that describes this error.
    pub fn message(&self) -> (r: String)
        ensures
            r@ == zip_limit_text(*self),
    {
        match self {
            ZipLimitError::TooLarge => {
                let mut r = owned("ZIP extraction aborted: decompressed size exceeds ");
                push_u64(&mut r, MAX_DECOMPRESSED_SIZE);
                r.append(" bytes");
                r
            },
            ZipLimitError::TooManyEntries => {
                let mut r = owned("ZIP extraction aborted: ");
                push_u64(&mut r, MAX_ENTRIES as u64);
                r.append(" or more entries");
                r
            },
        }
    }
}

/// What an extraction has written so far.
#[derive(Debug, Clone, Copy, PartialEq, Eq, Structural)]
pub struct ZipBudget {
    pub total_bytes: u64,
    pub entries: usize,
}

impl ZipBudget {
    /// Nothing written yet.
    pub fn new() -> (r: Self)
        ensures
            r == (ZipBudget { total_bytes: 0, entries: 0 }),
    {
        ZipBudget { total_bytes: 0, entries: 0 }
    }

    /// Records one entry of `bytes` bytes written. Extraction stops when
    /// the bytes written then exceed `MAX_DECOMPRESSED_SIZE` (the entry is
    /// not counted), or when the entries written reach `MAX_ENTRIES`.
    pub fn record_entry(&mut self, bytes: u64) -> (r: Result<(), ZipLimitError>)
        requires
            old(self).total_bytes <= MAX_DECOMPRESSED_SIZE,
            old(self).entries < MAX_ENTRIES,
        ensures
            old(self).total_bytes + bytes > MAX_DECOMPRESSED_SIZE ==> r == Err::<
                (),
                ZipLimitError,
            >(ZipLimitError::TooLarge),
            old(self).total_bytes + bytes <= MAX_DECOMPRESSED_SIZE ==> {
                &&& final(self).total_bytes == old(self).total_bytes + bytes
                &&& final(self).entries == old(self).entries + 1
                &&& r == if final(self).entries >= MAX_ENTRIES {
                    Err::<(), ZipLimitError>(ZipLimitError::TooManyEntries)
                } else {
                    Ok(())
                }
            },
    {
        if bytes > MAX_DECOMPRESSED_SIZE - self.total_bytes {
            return Err(ZipLimitError::TooLarge);
        }
        self.total_bytes = self.total_bytes + bytes;
        self.entries = self.entries + 1;
        if self.entries >= MAX_ENTRIES {
            Err(ZipLimitError::TooManyEntries)
        } else {
            Ok(())
        }
    }
}

} // verus!
