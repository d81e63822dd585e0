//! The wiki directory: resolving page paths safely under its root, and the
//! text of the files a new wiki starts with and of the lines appended to
//! its index and log.
use vstd::prelude::*;
use crate::clock::{date_text, utc_today};
use crate::path::{
    components, head_component, kept_segment, lemma_split_nonempty, nested_view, path_components,
    split_slash,
};
use crate::text::{join_path, owned, path_join};

verus! {

/// A wiki rooted at a directory.
#[derive(Debug, Clone)]
pub struct Wiki {
    root: String,
}

/// Why a page path was refused.
#[derive(Debug)]
pub enum WikiError {
    /// The path has a `..` component.
    PathTraversal(String),
    /// The path is absolute.
    AbsolutePath(String),
}

/// The text that describes a refused page path.
pub open spec fn wiki_error_text(e: WikiError) -> Seq<char> {
    match e {
        WikiError::PathTraversal(p) => "path traversal rejected: "@ + p@,
        WikiError::AbsolutePath(p) => "absolute path rejected: "@ + p@,
    }
}

impl WikiError {
    /// The text that describes this error.
    pub fn message(&self) -> (r: String)
        ensures
            r@ == wiki_error_text(*self),
    {
        match self {
            WikiError::PathTraversal(p) => {
                let mut r = owned("path traversal rejected: ");
                r.append(p.as_str());
                r
            },
            WikiError::AbsolutePath(p) => {
                let mut r = owned("absolute path rejected: ");
                r.append(p.as_str());
                r
            },
        }
    }
}

/// Whether a path is absolute: its first component is the root.
pub open spec fn is_absolute(p: Seq<char>) -> bool {
    components(p).len() > 0 && components(p)[0] == seq!['/']
}

/// Whether some component of a path is `..`.
pub open spec fn has_parent_component(p: Seq<char>) -> bool {
    exists|i: int| 0 <= i < components(p).len() && components(p)[i] == seq!['.', '.']
}

/// The initial text of `index.md`.
pub open spec fn default_index_text() -> Seq<char> {
    "# Wiki Index\n\n## Entities\n\n## Concepts\n\n## Claims\n\n## Sources\n"@
}

/// The initial text of `log.md`.
pub open spec fn default_log_text() -> Seq<char> {
    "# Wiki Log\n"@
}

impl Wiki {
    /// The wiki's root directory.
    pub closed spec fn root_view(&self) -> Seq<char> {
        self.root@
    }

    /// A wiki rooted at `root`.
    pub fn new(root: String) -> (r: Self)
        ensures
            r.root_view() == root@,
    {
        Wiki { root }
    }

    /// The wiki's root directory.
    pub fn root(&self) -> (r: &str)
        ensures
            r@ == self.root_view(),
    {
        self.root.as_str()
    }

    /// The location of a page given relative to the root. Absolute paths
    /// and paths with a `..` component are refused.
    pub fn safe_resolve(&self, relative_path: &str) -> (r: Result<String, WikiError>)
        ensures
            match r {
                Ok(p) => {
                    &&& !is_absolute(relative_path@)
                    &&& !has_parent_component(relative_path@)
                    &&& p@ == path_join(self.root_view(), relative_path@)
                },
                Err(WikiError::AbsolutePath(x)) => x@ == relative_path@ && is_absolute(
                    relative_path@,
                ),
                Err(WikiError::PathTraversal(x)) => {
                    &&& x@ == relative_path@
                    &&& !is_absolute(relative_path@)
                    &&& has_parent_component(relative_path@)
                },
            },
    {
        let comps = path_components(relative_path);
        let ghost c = nested_view(comps@);
        assert(c.len() == comps@.len());
        let mut i: usize = 0;
        while i < comps.len()
            invariant
                i <= comps.len(),
                c == components(relative_path@),
                c == nested_view(comps@),
                c.len() == comps@.len(),
                i > 0 ==> !(c[0] == seq!['/']),
                forall|j: int| 0 <= j < i ==> #[trigger] c[j] != seq!['.', '.'],
            decreases comps.len() - i,
        {
            let comp = &comps[i];
            assert(c[i as int] == comp@);
            let is_parent = comp.len() == 2 && comp[0] == '.' && comp[1] == '.';
            assert(is_parent == (comp@ == seq!['.', '.'])) by {
                if comp@.len() == 2 {
                    assert(comp@ == seq![comp@[0], comp@[1]]);
                }
            }
            let is_root = comp.len() == 1 && comp[0] == '/';
            assert(is_root == (comp@ == seq!['/'])) by {
                if comp@.len() == 1 {
                    assert(comp@ == seq![comp@[0]]);
                }
            }
            if is_parent {
                proof {
                    if i > 0 {
                        assert(!(c[0] == seq!['/']));
                    } else {
                        assert(c[0] != seq!['/']) by {
                            assert(c[0][0] != seq!['/'][0]);
                        }
                    }
                }
                return Err(WikiError::PathTraversal(owned(relative_path)));
            }
            if is_root {
                proof {
                    if i > 0 {
                        assert(c[0] == seq!['/']) by {
                            lemma_root_first(relative_path@, i as int);
                        }
                    }
                }
                return Err(WikiError::AbsolutePath(owned(relative_path)));
            }
            i += 1;
        }
        Ok(join_path(self.root.as_str(), relative_path))
    }

    /// The initial text of `index.md`.
    pub fn default_index() -> (r: String)
        ensures
            r@ == default_index_text(),
    {
        owned("# Wiki Index\n\n## Entities\n\n## Concepts\n\n## Claims\n\n## Sources\n")
    }

    /// The initial text of `log.md`.
    pub fn default_log() -> (r: String)
        ensures
            r@ == default_log_text(),
    {
        owned("# Wiki Log\n")
    }

    /// The initial text of the schema file: the schema the assistant follows
    /// when it writes pages.
    pub fn default_claude_md() -> (r: String)
        ensures
            r@ == default_claude_md_text(),
    {
        owned(
            "# AI Wiki Schema\n\n## Wiki Structure\n\nThis is an Obsidian-native wiki maintained by an LLM via MCP tools.\n\n### Directories\n- `entities/` — People, places, organizations\n- `concepts/` — Ideas, themes, theories\n- `claims/` — Specific assertions from sources (tag data points with `data-point: true`)\n- `sources/` — Summaries of ingested source files\n\n### Page Format\n\nEvery page must have YAML frontmatter:\n\n```yaml\n---\ntype: entity | concept | claim | source\ntags: [relevant, tags]\nsources: [source-filename.pdf]\ncreated: YYYY-MM-DD\nupdated: YYYY-MM-DD\ndata-point: true  # only for claims that are data points\ncontradicted: true  # only if contradicted by another source\n---\n```\n\nUse `[[wikilinks]]` for all cross-references between pages.\n\n### Contradictions\n\nWhen a new source contradicts an existing claim or page, add a callout:\n\n```markdown\n> [!warning] Contradiction\n> Source A claims X, but Source B (this source) claims Y.\n```\n\nTag the page with `contradicted: true` in frontmatter.\n\n### Ingestion Workflow\n\nFor each source item from the queue:\n\n1. Call `get_next_item` to receive the next source\n2. Call `read_source` to read the preprocessed text\n3. Call `read_index` to understand what exists in the wiki\n4. Read relevant existing pages with `read_page`\n5. Extract entities, concepts, claims, and data points\n6. Create or update wiki pages with `write_page`\n7. Update cross-references using `[[wikilinks]]`\n8. Flag any contradictions with existing content\n9. Call `update_index` for each new page\n10. Call `append_log` with a summary of what was ingested\n11. Call `complete_item` with the primary wiki page path\n\n### Index Format\n\nEntries in index.md follow this format:\n```\n- [[directory/page-name]] — One-line summary\n```\n\nOrganized under section headings: ## Entities, ## Concepts, ## Claims, ## Sources\n\n### Log Format\n\nEach log entry is prefixed: `## [YYYY-MM-DD] action | Title`\n\nActions: `ingest`, `update`, `query`, `lint`\n",
        )
    }

    /// The page directories of a new wiki.
    pub fn page_dirs() -> (r: Vec<&'static str>)
        ensures
            r@.len() == 4,
            r@[0]@ == "entities"@,
            r@[1]@ == "concepts"@,
            r@[2]@ == "claims"@,
            r@[3]@ == "sources"@,
    {
        vec!["entities", "concepts", "claims", "sources"]
    }

    /// The files a new wiki starts with, as `(name, content)`: the index,
    /// the log and the schema, the last under the name `schema_file`.
    /// Existing files are left as they are.
    pub fn initial_files(schema_file: &str) -> (r: Vec<(String, String)>)
        ensures
            r@.len() == 3,
            r@[0].0@ == "index.md"@ && r@[0].1@ == default_index_text(),
            r@[1].0@ == "log.md"@ && r@[1].1@ == default_log_text(),
            r@[2].0@ == schema_file@ && r@[2].1@ == default_claude_md_text(),
    {
        let mut r: Vec<(String, String)> = Vec::new();
        r.push((owned("index.md"), Wiki::default_index()));
        r.push((owned("log.md"), Wiki::default_log()));
        r.push((owned(schema_file), Wiki::default_claude_md()));
        r
    }

    /// The line appended to `index.md` for `entry`.
    pub fn index_line(entry: &str) -> (r: String)
        ensures
            r@ == entry@ + "\n"@,
    {
        let mut r = owned(entry);
        r.append("\n");
        r
    }

    /// The line appended to `log.md` for `entry` on `date`.
    pub fn log_line_on(date: &str, entry: &str) -> (r: String)
        ensures
            r@ == "## ["@ + date@ + "] "@ + entry@ + "\n"@,
    {
        let mut r = owned("## [");
        r.append(date);
        r.append("] ");
        r.append(entry);
        r.append("\n");
        r
    }

    /// The line appended to `log.md` for `entry` today (in UTC); `None`
    /// when the clock cannot be read.
    pub fn log_line(entry: &str) -> (r: Option<String>)
        ensures
            r matches Some(l) ==> exists|date: Seq<char>|
                date_text(date) && l@ == "## ["@ + date + "] "@ + entry@ + "\n"@,
    {
        match utc_today() {
            Some(date) => Some(Wiki::log_line_on(date.as_str(), entry)),
            None => None,
        }
    }
}

/// The initial text of the schema file.
pub open spec fn default_claude_md_text() -> Seq<char> {
    "# AI Wiki Schema\n\n## Wiki Structure\n\nThis is an Obsidian-native wiki maintained by an LLM via MCP tools.\n\n### Directories\n- `entities/` — People, places, organizations\n- `concepts/` — Ideas, themes, theories\n- `claims/` — Specific assertions from sources (tag data points with `data-point: true`)\n- `sources/` — Summaries of ingested source files\n\n### Page Format\n\nEvery page must have YAML frontmatter:\n\n```yaml\n---\ntype: entity | concept | claim | source\ntags: [relevant, tags]\nsources: [source-filename.pdf]\ncreated: YYYY-MM-DD\nupdated: YYYY-MM-DD\ndata-point: true  # only for claims that are data points\ncontradicted: true  # only if contradicted by another source\n---\n```\n\nUse `[[wikilinks]]` for all cross-references between pages.\n\n### Contradictions\n\nWhen a new source contradicts an existing claim or page, add a callout:\n\n```markdown\n> [!warning] Contradiction\n> Source A claims X, but Source B (this source) claims Y.\n```\n\nTag the page with `contradicted: true` in frontmatter.\n\n### Ingestion Workflow\n\nFor each source item from the queue:\n\n1. Call `get_next_item` to receive the next source\n2. Call `read_source` to read the preprocessed text\n3. Call `read_index` to understand what exists in the wiki\n4. Read relevant existing pages with `read_page`\n5. Extract entities, concepts, claims, and data points\n6. Create or update wiki pages with `write_page`\n7. Update cross-references using `[[wikilinks]]`\n8. Flag any contradictions with existing content\n9. Call `update_index` for each new page\n10. Call `append_log` with a summary of what was ingested\n11. Call `complete_item` with the primary wiki page path\n\n### Index Format\n\nEntries in index.md follow this format:\n```\n- [[directory/page-name]] — One-line summary\n```\n\nOrganized under section headings: ## Entities, ## Concepts, ## Claims, ## Sources\n\n### Log Format\n\nEach log entry is prefixed: `## [YYYY-MM-DD] action | Title`\n\nActions: `ingest`, `update`, `query`, `lint`\n"@
}

/// A root component can only come first.
proof fn lemma_root_first(p: Seq<char>, i: int)
    requires
        0 < i < components(p).len(),
        components(p)[i] == seq!['/'],
    ensures
        components(p)[0] == seq!['/'],
{
    let h = head_len(p);
    let f = split_slash(p).filter(kept_segment());
    assert(components(p) == head_component(p) + f);
    if i >= h {
        let k = i - h;
        assert(components(p)[i] == f[k]);
        split_slash(p).lemma_filter_pred(kept_segment(), k);
        assert(f.contains(f[k]));
        split_slash(p).lemma_filter_contains_rev(kept_segment(), f[k]);
        let m = choose|m: int| 0 <= m < split_slash(p).len() && split_slash(p)[m] == f[k];
        lemma_segments_have_no_slash(p, m);
        assert(f[k][0] == '/');
    }
}

/// How many components precede the segments.
spec fn head_len(p: Seq<char>) -> int {
    head_component(p).len() as int
}

/// No segment of a split holds a `/`.
pub proof fn lemma_segments_have_no_slash(p: Seq<char>, m: int)
    requires
        0 <= m < split_slash(p).len(),
    ensures
        forall|j: int| 0 <= j < split_slash(p)[m].len() ==> split_slash(p)[m][j] != '/',
    decreases p.len(),
{
    if p.len() > 0 {
        let rest = split_slash(p.drop_last());
        lemma_split_nonempty(p.drop_last());
        if p.last() == '/' {
            if m < rest.len() {
                lemma_segments_have_no_slash(p.drop_last(), m);
            }
        } else {
            lemma_segments_have_no_slash(p.drop_last(), m);
        }
    }
}

/// A component that is a plain name: not empty, not `.` or `..`, and
/// free of `/`.
pub open spec fn plain_name(c: Seq<char>) -> bool {
    &&& c.len() > 0
    &&& c != seq!['.']
    &&& c != seq!['.', '.']
    &&& forall|j: int| 0 <= j < c.len() ==> c[j] != '/'
}

/// Splitting at a `/` between two texts splits each of them.
proof fn lemma_split_concat(a: Seq<char>, b: Seq<char>)
    ensures
        split_slash(a + seq!['/'] + b) == split_slash(a) + split_slash(b),
    decreases b.len(),
{
    if b.len() == 0 {
        assert(a + seq!['/'] + b =~= a.push('/'));
        assert((a.push('/')).drop_last() =~= a);
        assert(split_slash(a) + split_slash(b) =~= split_slash(a).push(seq![]));
    } else {
        let bd = b.drop_last();
        lemma_split_concat(a, bd);
        lemma_split_nonempty(bd);
        let j = a + seq!['/'] + b;
        assert(j.drop_last() =~= a + seq!['/'] + bd);
        assert(j.last() == b.last());
        let x = split_slash(a);
        let y = split_slash(bd);
        if b.last() == '/' {
            assert((x + y).push(seq![]) =~= x + y.push(seq![]));
        } else {
            assert((x + y).update((x + y).len() - 1, (x + y).last().push(b.last())) =~= x
                + y.update(y.len() - 1, y.last().push(b.last())));
        }
    }
}

/// Joining a relative path onto a non-empty root keeps the root's leading
/// component.
proof fn lemma_head_of_join(a: Seq<char>, b: Seq<char>)
    requires
        a.len() > 0,
    ensures
        head_component(path_join(a, b)) == head_component(a) || (b.len() > 0 && b[0] == '/'),
{
    let j = path_join(a, b);
    if !(b.len() > 0 && b[0] == '/') {
        assert(j[0] == a[0]);
        if a.len() > 1 {
            assert(j[1] == a[1]);
        } else if a.last() != '/' {
            assert(j[1] == '/');
        }
    }
}

/// A page path that resolves lies under the wiki root: the components of
/// the resolved path are the root's, followed only by plain names (none of
/// them `..`, `.` or the root itself).
pub proof fn law_resolved_path_stays_under_root(root: Seq<char>, rel: Seq<char>)
    requires
        root.len() > 0,
        !is_absolute(rel),
        !has_parent_component(rel),
    ensures
        components(path_join(root, rel)).len() >= components(root).len(),
        components(path_join(root, rel)).take(components(root).len() as int) == components(root),
        forall|i: int|
            components(root).len() <= i < components(path_join(root, rel)).len() ==> plain_name(
                #[trigger] components(path_join(root, rel))[i],
            ),
{
    let j = path_join(root, rel);
    let tail = split_slash(rel).filter(kept_segment());
    assert(!(rel.len() > 0 && rel[0] == '/')) by {
        if rel.len() > 0 && rel[0] == '/' {
            assert(components(rel) == head_component(rel) + tail);
            assert(components(rel)[0] == seq!['/']);
        }
    }
    lemma_head_of_join(root, rel);
    if root.last() != '/' {
        assert(j == root + seq!['/'] + rel);
        lemma_split_concat(root, rel);
        Seq::filter_distributes_over_add(split_slash(root), split_slash(rel), kept_segment());
    } else {
        let r0 = root.drop_last();
        assert(root =~= r0 + seq!['/'] + Seq::<char>::empty());
        assert(j =~= r0 + seq!['/'] + rel);
        lemma_split_concat(r0, rel);
        lemma_split_concat(r0, Seq::<char>::empty());
        assert(split_slash(Seq::<char>::empty()) == seq![Seq::<char>::empty()]);
        Seq::filter_distributes_over_add(split_slash(r0), split_slash(rel), kept_segment());
        Seq::filter_distributes_over_add(
            split_slash(r0),
            split_slash(Seq::<char>::empty()),
            kept_segment(),
        );
        reveal(Seq::filter);
        assert(seq![Seq::<char>::empty()].drop_last() =~= Seq::<Seq<char>>::empty());
        assert(Seq::<Seq<char>>::empty().filter(kept_segment()) =~= Seq::<Seq<char>>::empty());
        assert(split_slash(Seq::<char>::empty()).filter(kept_segment()) =~= Seq::<
            Seq<char>,
        >::empty());
    }
    assert(components(j) =~= components(root) + tail);
    assert(components(j).take(components(root).len() as int) =~= components(root));
    assert forall|i: int|
        components(root).len() <= i < components(j).len() implies plain_name(
        #[trigger] components(j)[i],
    ) by {
        let k = i - components(root).len();
        assert(components(j)[i] == tail[k]);
        split_slash(rel).lemma_filter_pred(kept_segment(), k);
        assert(tail.contains(tail[k]));
        split_slash(rel).lemma_filter_contains_rev(kept_segment(), tail[k]);
        let m = choose|m: int| 0 <= m < split_slash(rel).len() && split_slash(rel)[m] == tail[k];
        lemma_segments_have_no_slash(rel, m);
        let h = head_component(rel).len() as int;
        assert(components(rel) == head_component(rel) + tail);
        assert(components(rel)[h + k] == tail[k]);
    }
}

} // verus!
