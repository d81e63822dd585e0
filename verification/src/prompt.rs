//! The prompt for one processing session: checks on the values embedded in
//! it and the text it is built from.
use vstd::prelude::*;
use crate::clock::{date_text, utc_today};
use crate::config::WikiConfig;
use crate::megabytes::{megabytes_text, push_megabytes};
use crate::queue::QueueItem;
use crate::text::{
    chars_of, dec_int, dec_nat, join_sep, lemma_join_step, owned, path_join, push_i64, push_u64,
};

verus! {

// ─── Values embedded in the prompt ───────────────────────────────────────────

/// Characters a value may hold to be embedded in the prompt: ASCII
/// letters and digits, `.`, `_`, `/`, `-` and space.
pub open spec fn prompt_safe(c: char) -> bool {
    ('a' <= c && c <= 'z') || ('A' <= c && c <= 'Z') || ('0' <= c && c <= '9') || c == '.' || c
        == '_' || c == '/' || c == '-' || c == ' '
}

/// Why a value may not be embedded in the prompt.
#[derive(Debug)]
pub enum PromptError {
    /// `value`, described by `label`, holds `character`, its first unsafe
    /// character.
    UnsafeCharacter { label: String, character: char, value: String },
}

/// What `format!("{:?}", c)` writes for a character.
pub uninterp spec fn char_debug(c: char) -> Seq<char>;

/// `<char as Debug>::fmt`, through `format!`.
#[verifier::external_body]
fn debug_char(c: char) -> (r: String)
    ensures
        r@ == char_debug(c),
{
    format!("{:?}", c)
}

/// The text that describes a prompt error.
pub open spec fn prompt_error_text(e: PromptError) -> Seq<char> {
    match e {
        PromptError::UnsafeCharacter { label, character, value } => label@
            + " contains unsafe character "@ + char_debug(character) + ": "@ + value@
            + "\nRename the value to remove shell metacharacters."@,
    }
}

impl PromptError {
    /// The text that describes this error.
    pub fn message(&self) -> (r: String)
        ensures
            r@ == prompt_error_text(*self),
    {
        match self {
            PromptError::UnsafeCharacter { label, character, value } => {
                let mut r = owned(label.as_str());
                r.append(" contains unsafe character ");
                let d = debug_char(*character);
                r.append(d.as_str());
                r.append(": ");
                r.append(value.as_str());
                r.append("\nRename the value to remove shell metacharacters.");
                r
            },
        }
    }
}

/// Whether `c` may be embedded in the prompt.
fn is_prompt_safe(c: char) -> (r: bool)
    ensures
        r == prompt_safe(c),
{
    ('a' <= c && c <= 'z') || ('A' <= c && c <= 'Z') || ('0' <= c && c <= '9') || c == '.' || c
        == '_' || c == '/' || c == '-' || c == ' '
}

/// Checks that `path` holds only characters that may be embedded in the
/// prompt; the first other character is reported, with `label` naming the
/// value.
pub fn validate_path_for_prompt(path: &str, label: &str) -> (r: Result<(), PromptError>)
    ensures
        match r {
            Ok(()) => forall|i: int| 0 <= i < path@.len() ==> prompt_safe(#[trigger] path@[i]),
            Err(PromptError::UnsafeCharacter { label: l, character, value }) => {
                &&& l@ == label@
                &&& value@ == path@
                &&& exists|k: int|
                    0 <= k < path@.len() && path@[k] == character && !prompt_safe(character)
                        && forall|i: int| 0 <= i < k ==> prompt_safe(#[trigger] path@[i])
            },
        },
{
    let v = chars_of(path);
    let mut i: usize = 0;
    while i < v.len()
        invariant
            i <= v.len(),
            v@ == path@,
            forall|j: int| 0 <= j < i ==> prompt_safe(#[trigger] path@[j]),
        decreases v.len() - i,
    {
        if !is_prompt_safe(v[i]) {
            return Err(
                PromptError::UnsafeCharacter {
                    label: owned(label),
                    character: v[i],
                    value: owned(path),
                },
            );
        }
        i += 1;
    }
    Ok(())
}

// ─── The prompt ──────────────────────────────────────────────────────────────

/// Above this many bytes of source text the prompt lists the files to read
/// instead of holding the text.
pub const MAX_EMBED_SIZE: usize = 500_000;

/// The UTF-8 length of a text.
pub open spec fn byte_len(s: Seq<char>) -> nat {
    vstd::utf8::encode_utf8(s).len()
}

/// Source texts as `(item id, text)` pairs of plain values.
pub open spec fn texts_view(t: Seq<(i64, String)>) -> Seq<(i64, Seq<char>)> {
    t.map_values(|p: (i64, String)| (p.0, p.1@))
}

/// The UTF-8 length of all texts together.
pub open spec fn total_bytes(t: Seq<(i64, Seq<char>)>) -> nat
    decreases t.len(),
{
    if t.len() == 0 {
        0
    } else {
        total_bytes(t.drop_last()) + byte_len(t.last().1)
    }
}

/// Whether some text is non-empty.
pub open spec fn has_inline_content(t: Seq<(i64, Seq<char>)>) -> bool {
    exists|i: int| 0 <= i < t.len() && t[i].1.len() > 0
}

/// Whether the item is a book: several texts, or a top-level item whose
/// texts include another item's.
pub open spec fn is_book(item_id: i64, parent_id: Option<i64>, t: Seq<(i64, Seq<char>)>) -> bool {
    t.len() > 1 || (parent_id is None && exists|i: int| 0 <= i < t.len() && t[i].0 != item_id)
}

/// Whether the prompt holds the texts themselves.
pub open spec fn embeds_text(t: Seq<(i64, Seq<char>)>) -> bool {
    t.len() > 0 && has_inline_content(t) && total_bytes(t) <= MAX_EMBED_SIZE
}

/// Whether the prompt asks for the text files to be read instead.
pub open spec fn needs_file_reads(t: Seq<(i64, Seq<char>)>) -> bool {
    t.len() > 0 && !embeds_text(t)
}

/// The extracted-text file of item `id` under `root`.
pub open spec fn processed_path(root: Seq<char>, id: i64) -> Seq<char> {
    path_join(path_join(root, "processed"@), dec_int(id as int) + ".txt"@)
}

/// One embedded part.
pub open spec fn embedded_part(i: int, id: i64, text: Seq<char>) -> Seq<char> {
    "### Part "@ + dec_nat((i + 1) as nat) + " (ID "@ + dec_int(id as int) + ")\n\n"@ + text
}

/// The embedded parts, numbered from 1.
pub open spec fn embedded_parts(t: Seq<(i64, Seq<char>)>) -> Seq<Seq<char>> {
    Seq::new(t.len(), |i: int| embedded_part(i, t[i].0, t[i].1))
}

/// One line of the list of files to read.
pub open spec fn file_line(root: Seq<char>, id: i64) -> Seq<char> {
    "  - `"@ + processed_path(root, id) + "`"@
}

/// The lines of the list of files to read.
pub open spec fn file_lines(root: Seq<char>, t: Seq<(i64, Seq<char>)>) -> Seq<Seq<char>> {
    Seq::new(t.len(), |i: int| file_line(root, t[i].0))
}

/// The source text section of the prompt.
pub open spec fn source_section(root: Seq<char>, t: Seq<(i64, Seq<char>)>) -> Seq<char> {
    if t.len() == 0 {
        "**Note:** No source text available."@
    } else if embeds_text(t) {
        join_sep(embedded_parts(t), "\n\n---\n\n"@)
    } else {
        "**Note:** Source text is too large to include inline ("@ + megabytes_text(total_bytes(t))
            + "MB, "@ + dec_nat(t.len()) + " parts).\nRead these files to get the source text:\n"@
            + join_sep(file_lines(root, t), "\n"@)
    }
}

/// The command that marks item `id` complete.
pub open spec fn complete_command(wiki_name: Seq<char>, id: i64) -> Seq<char> {
    "ai-wiki --wiki '"@ + wiki_name + "' queue complete "@ + dec_int(id as int)
        + " \"sources/<slug>.md\""@
}

/// The commands that mark complete every text's item other than `item_id`.
pub open spec fn child_commands(wiki_name: Seq<char>, item_id: i64, t: Seq<(i64, Seq<char>)>) -> Seq<
    Seq<char>,
>
    decreases t.len(),
{
    if t.len() == 0 {
        seq![]
    } else {
        let rest = child_commands(wiki_name, item_id, t.drop_last());
        if t.last().0 != item_id {
            rest.push(complete_command(wiki_name, t.last().0))
        } else {
            rest
        }
    }
}

/// The step that marks the children complete; empty when there are none.
pub open spec fn children_block(wiki_name: Seq<char>, item_id: i64, t: Seq<(i64, Seq<char>)>) -> Seq<
    char,
> {
    let c = child_commands(wiki_name, item_id, t);
    if c.len() == 0 {
        seq![]
    } else {
        "\n   Also mark all children complete:\n   ```bash\n   "@ + join_sep(c, "\n   "@)
            + "\n   ```"@
    }
}

/// What the prompt says of the source's shape.
pub open spec fn book_hint_text(book: bool, file_reads: bool) -> Seq<char> {
    if book && file_reads {
        "This is a **book with multiple chapters**. Read all the files listed below."@
    } else if book {
        "This is a **book with multiple chapters**. The full text is provided below."@
    } else if file_reads {
        "This is a single document. Read the file listed below."@
    } else {
        "This is a single document. The full text is provided below."@
    }
}

/// The prompt for item `item_id` (with parent `parent_id`) of the wiki
/// `wiki_name` rooted at `root`, given its texts, its file name and the
/// date.
pub open spec fn item_prompt(
    wiki_name: Seq<char>,
    root: Seq<char>,
    item_id: i64,
    parent_id: Option<i64>,
    t: Seq<(i64, Seq<char>)>,
    file_name: Seq<char>,
    today: Seq<char>,
) -> Seq<char> {
    prompt_template(
        wiki_name,
        path_join(root, "wiki"@),
        file_name,
        dec_int(item_id as int),
        book_hint_text(is_book(item_id, parent_id, t), needs_file_reads(t)),
        source_section(root, t),
        today,
        children_block(wiki_name, item_id, t),
    )
}

/// The processing prompt with its placeholders filled in.
pub open spec fn prompt_template(
    wiki_name: Seq<char>,
    wiki_dir: Seq<char>,
    file_name: Seq<char>,
    item_id: Seq<char>,
    book_hint: Seq<char>,
    source_text_section: Seq<char>,
    today: Seq<char>,
    mark_children_complete: Seq<char>,
) -> Seq<char> {
    "You are building an Obsidian wiki from a source document. This is a two-pass process.\n\n## Context\n\n- **Wiki:** "@
        + wiki_name
        + "\n- **Wiki directory:** "@
        + wiki_dir
        + "\n- **Source file:** "@
        + file_name
        + "\n- **Item ID:** "@
        + item_id
        + "\n- "@
        + book_hint
        + "\n\n## Source Text\n\n"@
        + source_text_section
        + "\n\n## Pass 1: Source Summary\n\nCreate a source summary page from the source text.\n\n1. **Create `"@
        + wiki_dir
        + "/sources/<slug>.md`** with:\n   - YAML frontmatter: type, tags, sources, created, updated\n   - Title, author, publisher info\n   - Chapter-by-chapter summary with key topics\n   - Use `[[wikilinks]]` for cross-references to concepts and entities\n\n   ```yaml\n   ---\n   type: source\n   tags: [relevant, tags]\n   sources: ["@
        + file_name
        + "]\n   created: "@
        + today
        + "\n   updated: "@
        + today
        + "\n   ---\n   ```\n\n2. **Create or update entity pages** in `"@
        + wiki_dir
        + "/entities/`:\n   - One page per author, publisher, or organization mentioned\n   - Check existing files first: `ls "@
        + wiki_dir
        + "/entities/`\n   - If the entity page exists, append to it rather than overwriting\n\n## Pass 2: Concept and Claim Extraction\n\nNow extract knowledge from the source text into dedicated pages.\n\n3. **Create concept pages** in `"@
        + wiki_dir
        + "/concepts/`:\n   - Extract **at least 5 key concepts** from the source material\n   - Each concept gets its own page: `"@
        + wiki_dir
        + "/concepts/<concept-slug>.md`\n   - Check existing files first: `ls "@
        + wiki_dir
        + "/concepts/`\n   - If a concept page already exists, **update it** by appending the new source's perspective\n   - Each concept page must have:\n     - YAML frontmatter with `type: concept`\n     - A clear definition/explanation\n     - `[[wikilinks]]` back to the source and to related concepts\n     - A `## Sources` section listing which sources discuss this concept\n\n   ```yaml\n   ---\n   type: concept\n   tags: [relevant, tags]\n   sources: ["@
        + file_name
        + "]\n   created: "@
        + today
        + "\n   updated: "@
        + today
        + "\n   ---\n   ```\n\n4. **Create claim pages** in `"@
        + wiki_dir
        + "/claims/`:\n   - Extract specific factual claims, theorems, formulas, or data points\n   - Each claim gets its own page: `"@
        + wiki_dir
        + "/claims/<claim-slug>.md`\n   - Include `data-point: true` in frontmatter for quantitative claims\n   - Link back to the source\n\n5. **Update the index** — append new entries to `"@
        + wiki_dir
        + "/index.md` under the correct `##` heading (Sources, Concepts, Entities, Claims).\n\n6. **Update the log** — append `## ["@
        + today
        + "] ingest | <title>` to `"@
        + wiki_dir
        + "/log.md`.\n\n7. **Mark complete:**\n   ```bash\n   ai-wiki --wiki '"@
        + wiki_name
        + "' queue complete "@
        + item_id
        + " \"sources/<slug>.md\"\n   ```"@
        + mark_children_complete
        + "\n\n## Requirements\n\n- You MUST create concept pages. Do not skip this step. Source summaries alone are not sufficient.\n- Each concept page must be a standalone page in `"@
        + wiki_dir
        + "/concepts/`, not just a wikilink in the source page.\n- For math/science texts, concepts include: theorems, definitions, techniques, mathematical objects.\n- For technical texts, concepts include: patterns, protocols, algorithms, architectures.\n- Verify your work: after creating pages, run `ls "@
        + wiki_dir
        + "/concepts/` to confirm they exist.\n"@
}

/// Fills the placeholders of the processing prompt.
fn fill_template(
    wiki_name: &str,
    wiki_dir: &str,
    file_name: &str,
    item_id: &str,
    book_hint: &str,
    source_text_section: &str,
    today: &str,
    mark_children_complete: &str,
) -> (r: String)
    ensures
        r@ == prompt_template(wiki_name@, wiki_dir@, file_name@, item_id@, book_hint@, source_text_section@, today@, mark_children_complete@),
{
    let mut r = owned("You are building an Obsidian wiki from a source document. This is a two-pass process.\n\n## Context\n\n- **Wiki:** ");
    r.append(wiki_name);
    r.append("\n- **Wiki directory:** ");
    r.append(wiki_dir);
    r.append("\n- **Source file:** ");
    r.append(file_name);
    r.append("\n- **Item ID:** ");
    r.append(item_id);
    r.append("\n- ");
    r.append(book_hint);
    r.append("\n\n## Source Text\n\n");
    r.append(source_text_section);
    r.append("\n\n## Pass 1: Source Summary\n\nCreate a source summary page from the source text.\n\n1. **Create `");
    r.append(wiki_dir);
    r.append("/sources/<slug>.md`** with:\n   - YAML frontmatter: type, tags, sources, created, updated\n   - Title, author, publisher info\n   - Chapter-by-chapter summary with key topics\n   - Use `[[wikilinks]]` for cross-references to concepts and entities\n\n   ```yaml\n   ---\n   type: source\n   tags: [relevant, tags]\n   sources: [");
    r.append(file_name);
    r.append("]\n   created: ");
    r.append(today);
    r.append("\n   updated: ");
    r.append(today);
    r.append("\n   ---\n   ```\n\n2. **Create or update entity pages** in `");
    r.append(wiki_dir);
    r.append("/entities/`:\n   - One page per author, publisher, or organization mentioned\n   - Check existing files first: `ls ");
    r.append(wiki_dir);
    r.append("/entities/`\n   - If the entity page exists, append to it rather than overwriting\n\n## Pass 2: Concept and Claim Extraction\n\nNow extract knowledge from the source text into dedicated pages.\n\n3. **Create concept pages** in `");
    r.append(wiki_dir);
    r.append("/concepts/`:\n   - Extract **at least 5 key concepts** from the source material\n   - Each concept gets its own page: `");
    r.append(wiki_dir);
    r.append("/concepts/<concept-slug>.md`\n   - Check existing files first: `ls ");
    r.append(wiki_dir);
    r.append("/concepts/`\n   - If a concept page already exists, **update it** by appending the new source's perspective\n   - Each concept page must have:\n     - YAML frontmatter with `type: concept`\n     - A clear definition/explanation\n     - `[[wikilinks]]` back to the source and to related concepts\n     - A `## Sources` section listing which sources discuss this concept\n\n   ```yaml\n   ---\n   type: concept\n   tags: [relevant, tags]\n   sources: [");
    r.append(file_name);
    r.append("]\n   created: ");
    r.append(today);
    r.append("\n   updated: ");
    r.append(today);
    r.append("\n   ---\n   ```\n\n4. **Create claim pages** in `");
    r.append(wiki_dir);
    r.append("/claims/`:\n   - Extract specific factual claims, theorems, formulas, or data points\n   - Each claim gets its own page: `");
    r.append(wiki_dir);
    r.append("/claims/<claim-slug>.md`\n   - Include `data-point: true` in frontmatter for quantitative claims\n   - Link back to the source\n\n5. **Update the index** — append new entries to `");
    r.append(wiki_dir);
    r.append("/index.md` under the correct `##` heading (Sources, Concepts, Entities, Claims).\n\n6. **Update the log** — append `## [");
    r.append(today);
    r.append("] ingest | <title>` to `");
    r.append(wiki_dir);
    r.append("/log.md`.\n\n7. **Mark complete:**\n   ```bash\n   ai-wiki --wiki '");
    r.append(wiki_name);
    r.append("' queue complete ");
    r.append(item_id);
    r.append(" \"sources/<slug>.md\"\n   ```");
    r.append(mark_children_complete);
    r.append("\n\n## Requirements\n\n- You MUST create concept pages. Do not skip this step. Source summaries alone are not sufficient.\n- Each concept page must be a standalone page in `");
    r.append(wiki_dir);
    r.append("/concepts/`, not just a wikilink in the source page.\n- For math/science texts, concepts include: theorems, definitions, techniques, mathematical objects.\n- For technical texts, concepts include: patterns, protocols, algorithms, architectures.\n- Verify your work: after creating pages, run `ls ");
    r.append(wiki_dir);
    r.append("/concepts/` to confirm they exist.\n");
    r
}

/// The byte count of all texts, and whether some text is non-empty.
fn measure_texts(texts: &[(i64, String)]) -> (r: (usize, bool))
    requires
        total_bytes(texts_view(texts@)) <= usize::MAX,
    ensures
        r.0 == total_bytes(texts_view(texts@)),
        r.1 == has_inline_content(texts_view(texts@)),
{
    let ghost t = texts_view(texts@);
    let mut total: usize = 0;
    let mut inline = false;
    let mut i: usize = 0;
    while i < texts.len()
        invariant
            i <= texts.len(),
            t == texts_view(texts@),
            total_bytes(t) <= usize::MAX,
            total == total_bytes(t.take(i as int)),
            inline == has_inline_content(t.take(i as int)),
        decreases texts.len() - i,
    {
        assert(t.take(i + 1).drop_last() =~= t.take(i as int));
        assert(t[i as int] == (texts@[i as int].0, texts@[i as int].1@));
        proof {
            lemma_total_prefix(t, i + 1);
        }
        let n = texts[i].1.as_str().len();
        total = total + n;
        if !texts[i].1.as_str().is_empty() {
            inline = true;
            assert(t.take(i + 1)[i as int].1.len() > 0);
        } else {
            let ghost ti = t.take((i + 1) as int);
            assert forall|j: int| 0 <= j < ti.len() && #[trigger] ti[j].1.len() > 0 implies j
                < i by {}
            proof {
                if has_inline_content(ti) {
                    let j = choose|j: int| 0 <= j < ti.len() && ti[j].1.len() > 0;
                    assert(t.take(i as int)[j] == ti[j]);
                }
            }
        }
        i += 1;
    }
    assert(t.take(i as int) =~= t);
    (total, inline)
}

/// The byte count of a prefix is no more than that of the whole.
proof fn lemma_total_prefix(t: Seq<(i64, Seq<char>)>, k: int)
    requires
        0 <= k <= t.len(),
    ensures
        total_bytes(t.take(k)) <= total_bytes(t),
    decreases t.len() - k,
{
    if k < t.len() {
        lemma_total_prefix(t, k + 1);
        assert(t.take(k + 1).drop_last() =~= t.take(k));
    } else {
        assert(t.take(k) =~= t);
    }
}

/// The source text section of the prompt.
fn build_source_section(wiki: &WikiConfig, texts: &[(i64, String)]) -> (r: String)
    requires
        total_bytes(texts_view(texts@)) <= usize::MAX,
    ensures
        r@ == source_section(wiki.root@, texts_view(texts@)),
{
    let ghost t = texts_view(texts@);
    if texts.len() == 0 {
        return owned("**Note:** No source text available.");
    }
    let (total, inline) = measure_texts(texts);
    if inline && total <= MAX_EMBED_SIZE {
        let ghost parts = embedded_parts(t);
        let mut r = String::new();
        let mut i: usize = 0;
        while i < texts.len()
            invariant
                i <= texts.len(),
                t == texts_view(texts@),
                parts == embedded_parts(t),
                r@ == join_sep(parts.take(i as int), "\n\n---\n\n"@),
            decreases texts.len() - i,
        {
            proof {
                lemma_join_step(parts, "\n\n---\n\n"@, i as int);
            }
            if i > 0 {
                r.append("\n\n---\n\n");
            }
            r.append("### Part ");
            push_u64(&mut r, (i + 1) as u64);
            r.append(" (ID ");
            push_i64(&mut r, texts[i].0);
            r.append(")\n\n");
            r.append(texts[i].1.as_str());
            assert(parts[i as int] == embedded_part(i as int, texts@[i as int].0, texts@[i as int].1@));
            i += 1;
        }
        assert(parts.take(texts.len() as int) =~= parts);
        r
    } else {
        let ghost lines = file_lines(wiki.root@, t);
        let mut r = owned("**Note:** Source text is too large to include inline (");
        push_megabytes(&mut r, total);
        r.append("MB, ");
        push_u64(&mut r, texts.len() as u64);
        r.append(" parts).\nRead these files to get the source text:\n");
        let ghost start = r@;
        let mut i: usize = 0;
        while i < texts.len()
            invariant
                i <= texts.len(),
                t == texts_view(texts@),
                lines == file_lines(wiki.root@, t),
                r@ == start + join_sep(lines.take(i as int), "\n"@),
            decreases texts.len() - i,
        {
            proof {
                lemma_join_step(lines, "\n"@, i as int);
            }
            if i > 0 {
                r.append("\n");
            }
            r.append("  - `");
            let p = wiki.processed_text_path(texts[i].0);
            r.append(p.as_str());
            r.append("`");
            assert(lines[i as int] == file_line(wiki.root@, texts@[i as int].0));
            i += 1;
        }
        assert(lines.take(texts.len() as int) =~= lines);
        r
    }
}

/// The step that marks the children complete.
fn build_children_block(wiki_name: &str, item_id: i64, texts: &[(i64, String)]) -> (r: String)
    ensures
        r@ == children_block(wiki_name@, item_id, texts_view(texts@)),
{
    let ghost t = texts_view(texts@);
    let mut cmds = String::new();
    let mut count: usize = 0;
    let mut i: usize = 0;
    while i < texts.len()
        invariant
            i <= texts.len(),
            t == texts_view(texts@),
            count == child_commands(wiki_name@, item_id, t.take(i as int)).len(),
            count <= i,
            cmds@ == join_sep(child_commands(wiki_name@, item_id, t.take(i as int)), "\n   "@),
        decreases texts.len() - i,
    {
        let ghost c = child_commands(wiki_name@, item_id, t.take(i as int));
        assert(t.take(i + 1).drop_last() =~= t.take(i as int));
        assert(t.take(i + 1).last() == (texts@[i as int].0, texts@[i as int].1@));
        let id = texts[i].0;
        if id != item_id {
            let ghost c2 = c.push(complete_command(wiki_name@, id));
            proof {
                lemma_join_step(c2, "\n   "@, c.len() as int);
                assert(c2.take(c.len() as int) =~= c);
                assert(c2.take((c.len() + 1) as int) =~= c2);
            }
            if count > 0 {
                cmds.append("\n   ");
            }
            cmds.append("ai-wiki --wiki '");
            cmds.append(wiki_name);
            cmds.append("' queue complete ");
            push_i64(&mut cmds, id);
            cmds.append(" \"sources/<slug>.md\"");
            count += 1;
        }
        i += 1;
    }
    assert(t.take(i as int) =~= t);
    if count == 0 {
        String::new()
    } else {
        let mut r = owned("\n   Also mark all children complete:\n   ```bash\n   ");
        r.append(cmds.as_str());
        r.append("\n   ```");
        r
    }
}

/// Whether some text belongs to an item other than `item_id`.
fn has_other_item(item_id: i64, texts: &[(i64, String)]) -> (r: bool)
    ensures
        r == exists|i: int| 0 <= i < texts@.len() && texts_view(texts@)[i].0 != item_id,
{
    let mut i: usize = 0;
    while i < texts.len()
        invariant
            i <= texts.len(),
            forall|j: int| 0 <= j < i ==> texts_view(texts@)[j].0 == item_id,
        decreases texts.len() - i,
    {
        if texts[i].0 != item_id {
            assert(texts_view(texts@)[i as int].0 != item_id);
            return true;
        }
        i += 1;
    }
    false
}

/// The prompt for processing `item`, whose source file is `file_name`,
/// from its texts (`(item id, text)` for the item and its children), as of
/// the date `today`.
pub fn build_item_prompt_on(
    wiki: &WikiConfig,
    item: &QueueItem,
    texts: &[(i64, String)],
    file_name: &str,
    today: &str,
) -> (r: String)
    requires
        total_bytes(texts_view(texts@)) <= usize::MAX,
    ensures
        r@ == item_prompt(
            wiki.name@,
            wiki.root@,
            item.id,
            item.parent_id,
            texts_view(texts@),
            file_name@,
            today@,
        ),
{
    let ghost t = texts_view(texts@);
    let wiki_dir = wiki.wiki_dir();
    let item_id = crate::text::i64_to_string(item.id);
    let book = texts.len() > 1 || (item.parent_id.is_none() && has_other_item(item.id, texts));
    let section = build_source_section(wiki, texts);
    let file_reads = if texts.len() == 0 {
        false
    } else {
        let (total, inline) = measure_texts(texts);
        !(inline && total <= MAX_EMBED_SIZE)
    };
    assert(file_reads == needs_file_reads(t));
    let hint: &str = if book && file_reads {
        "This is a **book with multiple chapters**. Read all the files listed below."
    } else if book {
        "This is a **book with multiple chapters**. The full text is provided below."
    } else if file_reads {
        "This is a single document. Read the file listed below."
    } else {
        "This is a single document. The full text is provided below."
    };
    let children = build_children_block(wiki.name.as_str(), item.id, texts);
    fill_template(
        wiki.name.as_str(),
        wiki_dir.as_str(),
        file_name,
        item_id.as_str(),
        hint,
        section.as_str(),
        today,
        children.as_str(),
    )
}

/// The prompt for processing `item` as of today's date (in UTC); `None`
/// when the clock cannot be read.
pub fn build_item_prompt(
    wiki: &WikiConfig,
    item: &QueueItem,
    texts: &[(i64, String)],
    file_name: &str,
) -> (r: Option<String>)
    requires
        total_bytes(texts_view(texts@)) <= usize::MAX,
    ensures
        r matches Some(p) ==> exists|today: Seq<char>|
            date_text(today) && p@ == item_prompt(
                wiki.name@,
                wiki.root@,
                item.id,
                item.parent_id,
                texts_view(texts@),
                file_name@,
                today,
            ),
{
    match utc_today() {
        Some(today) => Some(build_item_prompt_on(wiki, item, texts, file_name, today.as_str())),
        None => None,
    }
}

} // verus!
