//! Application configuration: external tool paths, processing settings and
//! the registry of named wikis, each with a root directory from which its
//! other paths derive.
use vstd::prelude::*;
use crate::path::{component_count, components, path_starts_with, starts_with_path};
use crate::text::{dec_int, i64_to_string, join_path, opt_view, owned, path_join, str_equals};

verus! {

// ─── Tools ───────────────────────────────────────────────────────────────────

/// Paths of the external programs that preprocessing runs.
#[derive(Debug, Clone)]
pub struct ToolsConfig {
    pub qpdf_path: String,
    pub pdftotext_path: String,
    pub pdftoppm_path: String,
    pub tesseract_path: String,
    pub ffmpeg_path: String,
    pub whisper_cpp_path: String,
    pub whisper_model_path: String,
}

impl Default for ToolsConfig {
    fn default() -> (r: Self)
        ensures
            r.qpdf_path@ == "qpdf"@,
            r.pdftotext_path@ == "pdftotext"@,
            r.pdftoppm_path@ == "pdftoppm"@,
            r.tesseract_path@ == "tesseract"@,
            r.ffmpeg_path@ == "ffmpeg"@,
            r.whisper_cpp_path@ == "whisper-cpp"@,
            r.whisper_model_path@ == "models/ggml-large-v3.bin"@,
    {
        ToolsConfig {
            qpdf_path: owned("qpdf"),
            pdftotext_path: owned("pdftotext"),
            pdftoppm_path: owned("pdftoppm"),
            tesseract_path: owned("tesseract"),
            ffmpeg_path: owned("ffmpeg"),
            whisper_cpp_path: owned("whisper-cpp"),
            whisper_model_path: owned("models/ggml-large-v3.bin"),
        }
    }
}

// ─── Processing ──────────────────────────────────────────────────────────────

/// Settings for the processing command: how the assistant CLI
/// authenticates ("pro" or "api") and an optional model override.
#[derive(Debug, Clone)]
pub struct ProcessConfig {
    pub auth: String,
    pub model: Option<String>,
}

impl ProcessConfig {
    /// The authentication mode used when the configuration names none.
    pub fn default_auth() -> (r: String)
        ensures
            r@ == "pro"@,
    {
        owned("pro")
    }
}

impl Default for ProcessConfig {
    fn default() -> (r: Self)
        ensures
            r.auth@ == "pro"@,
            r.model is None,
    {
        ProcessConfig { auth: ProcessConfig::default_auth(), model: None }
    }
}

// ─── Wikis ───────────────────────────────────────────────────────────────────

/// A registered wiki: just its root directory.
#[derive(Debug, Clone)]
pub struct WikiEntry {
    pub root: String,
}

/// A resolved wiki: its name and root, from which its paths derive.
#[derive(Debug, Clone)]
pub struct WikiConfig {
    pub name: String,
    pub root: String,
}

impl WikiConfig {
    /// The wiki's page directory, `<root>/wiki`.
    pub fn wiki_dir(&self) -> (r: String)
        ensures
            r@ == path_join(self.root@, "wiki"@),
    {
        join_path(self.root.as_str(), "wiki")
    }

    /// The directory of extracted source text, `<root>/processed`.
    pub fn processed_dir(&self) -> (r: String)
        ensures
            r@ == path_join(self.root@, "processed"@),
    {
        join_path(self.root.as_str(), "processed")
    }

    /// The directory of split and extracted sources, `<root>/raw`.
    pub fn raw_dir(&self) -> (r: String)
        ensures
            r@ == path_join(self.root@, "raw"@),
    {
        join_path(self.root.as_str(), "raw")
    }

    /// The queue database, `<root>/ai-wiki.db`.
    pub fn database_path(&self) -> (r: String)
        ensures
            r@ == path_join(self.root@, "ai-wiki.db"@),
    {
        join_path(self.root.as_str(), "ai-wiki.db")
    }

    /// The extracted text of item `id`, `<root>/processed/<id>.txt`.
    pub fn processed_text_path(&self, id: i64) -> (r: String)
        ensures
            r@ == path_join(path_join(self.root@, "processed"@), dec_int(id as int) + ".txt"@),
    {
        let dir = self.processed_dir();
        let mut file = i64_to_string(id);
        file.append(".txt");
        join_path(dir.as_str(), file.as_str())
    }
}

// ─── Errors ──────────────────────────────────────────────────────────────────

/// Why a configuration lookup or check failed.
#[derive(Debug)]
pub enum ConfigError {
    /// No wiki is registered under `name`; `available` lists those that are.
    WikiNotFound { name: String, available: Vec<String> },
    /// No wiki was named and the working directory lies under none.
    NoWikiSelected { available: Vec<String> },
    /// The tool setting `tools.<field>` is empty.
    EmptyToolPath(String),
}

/// `names` joined by `", "`.
pub open spec fn joined(names: Seq<Seq<char>>) -> Seq<char>
    decreases names.len(),
{
    if names.len() == 0 {
        seq![]
    } else if names.len() == 1 {
        names[0]
    } else {
        joined(names.drop_last()) + ", "@ + names.last()
    }
}

/// The views of a list of strings.
pub open spec fn strings_view(v: Seq<String>) -> Seq<Seq<char>> {
    v.map_values(|s: String| s@)
}

/// The text that describes a configuration error.
pub open spec fn config_error_text(e: ConfigError) -> Seq<char> {
    match e {
        ConfigError::WikiNotFound { name, available } => if available@.len() == 0 {
            "wiki '"@ + name@ + "' not found. No wikis registered."@
        } else {
            "wiki '"@ + name@ + "' not found. Available wikis: "@ + joined(
                strings_view(available@),
            )
        },
        ConfigError::NoWikiSelected { available } => if available@.len() == 0 {
            "no wiki specified and CWD is not under any wiki root. No wikis registered. Run `ai-wiki init` to create one."@
        } else {
            "no wiki specified and CWD is not under any wiki root. Available wikis: "@ + joined(
                strings_view(available@),
            )
        },
        ConfigError::EmptyToolPath(field) => "tools."@ + field@ + " must not be empty"@,
    }
}

/// Appends `names` joined by `", "` to `s`.
fn push_joined(s: &mut String, names: &Vec<String>)
    ensures
        final(s)@ == old(s)@ + joined(strings_view(names@)),
{
    let mut i: usize = 0;
    while i < names.len()
        invariant
            i <= names.len(),
            s@ == old(s)@ + joined(strings_view(names@.take(i as int))),
        decreases names.len() - i,
    {
        let ghost before = s@;
        assert(strings_view(names@.take(i + 1)).drop_last() =~= strings_view(
            names@.take(i as int),
        ));
        assert(strings_view(names@.take(i + 1)).last() == names@[i as int]@);
        if i > 0 {
            s.append(", ");
        }
        s.append(names[i].as_str());
        i += 1;
    }
    assert(names@.take(names.len() as int) =~= names@);
}

impl ConfigError {
    /// The text that describes this error.
    pub fn message(&self) -> (r: String)
        ensures
            r@ == config_error_text(*self),
    {
        match self {
            ConfigError::WikiNotFound { name, available } => {
                let mut r = owned("wiki '");
                r.append(name.as_str());
                if available.len() == 0 {
                    r.append("' not found. No wikis registered.");
                } else {
                    r.append("' not found. Available wikis: ");
                    push_joined(&mut r, available);
                }
                r
            },
            ConfigError::NoWikiSelected { available } => {
                if available.len() == 0 {
                    owned(
                        "no wiki specified and CWD is not under any wiki root. No wikis registered. Run `ai-wiki init` to create one.",
                    )
                } else {
                    let mut r = owned(
                        "no wiki specified and CWD is not under any wiki root. Available wikis: ",
                    );
                    push_joined(&mut r, available);
                    r
                }
            },
            ConfigError::EmptyToolPath(field) => {
                let mut r = owned("tools.");
                r.append(field.as_str());
                r.append(" must not be empty");
                r
            },
        }
    }
}

// ─── Application configuration ───────────────────────────────────────────────

/// The last position at which `entries` holds the name `n`.
pub open spec fn last_index_of(entries: Seq<(Seq<char>, Seq<char>)>, n: Seq<char>) -> Option<int> {
    if exists|i: int|
        0 <= i < entries.len() && entries[i].0 == n && forall|j: int|
            i < j < entries.len() ==> #[trigger] entries[j].0 != n {
        Some(
            choose|i: int|
                0 <= i < entries.len() && entries[i].0 == n && forall|j: int|
                    i < j < entries.len() ==> #[trigger] entries[j].0 != n,
        )
    } else {
        None
    }
}

/// The root registered under `n`: the one registered last.
pub open spec fn lookup(entries: Seq<(Seq<char>, Seq<char>)>, n: Seq<char>) -> Option<Seq<char>> {
    match last_index_of(entries, n) {
        Some(i) => Some(entries[i].1),
        None => None,
    }
}

/// The registry as a map from wiki name to root.
pub open spec fn registry(entries: Seq<(Seq<char>, Seq<char>)>) -> Map<Seq<char>, Seq<char>> {
    Map::new(|n: Seq<char>| lookup(entries, n) is Some, |n: Seq<char>| lookup(entries, n)->0)
}

/// Whether no name occurs twice among `entries`.
pub open spec fn distinct_names(entries: Seq<(Seq<char>, Seq<char>)>) -> bool {
    forall|i: int, j: int|
        0 <= i < j < entries.len() ==> #[trigger] entries[i].0 != #[trigger] entries[j].0
}

/// Replacing the root of an entry keeps the names distinct.
proof fn lemma_distinct_after_update(
    entries: Seq<(Seq<char>, Seq<char>)>,
    k: int,
    n: Seq<char>,
    root: Seq<char>,
)
    requires
        0 <= k < entries.len(),
        entries[k].0 == n,
    ensures
        distinct_names(entries) ==> distinct_names(entries.update(k, (n, root))),
{
    let after = entries.update(k, (n, root));
    assert forall|i: int| 0 <= i < entries.len() implies #[trigger] after[i].0 == entries[i].0 by {}
}

/// Appending a name not yet registered keeps the names distinct.
proof fn lemma_distinct_after_push(
    entries: Seq<(Seq<char>, Seq<char>)>,
    n: Seq<char>,
    root: Seq<char>,
)
    requires
        last_index_of(entries, n) is None,
    ensures
        distinct_names(entries) ==> distinct_names(entries.push((n, root))),
{
    let after = entries.push((n, root));
    assert forall|i: int| 0 <= i < entries.len() implies #[trigger] entries[i].0 != n by {
        if entries[i].0 == n {
            lemma_some_last_index(entries, n, i);
        }
    }
    assert forall|i: int, j: int|
        0 <= i < j < after.len() && distinct_names(entries) implies #[trigger] after[i].0
        != #[trigger] after[j].0 by {
        if j < entries.len() {
            assert(after[i] == entries[i] && after[j] == entries[j]);
        } else {
            assert(after[i] == entries[i]);
        }
    }
}

/// A name held somewhere has a last position.
proof fn lemma_some_last_index(entries: Seq<(Seq<char>, Seq<char>)>, n: Seq<char>, i: int)
    requires
        0 <= i < entries.len(),
        entries[i].0 == n,
    ensures
        last_index_of(entries, n) is Some,
    decreases entries.len() - i,
{
    if forall|j: int| i < j < entries.len() ==> #[trigger] entries[j].0 != n {
        lemma_last_index(entries, n, i);
    } else {
        let j = choose|j: int| i < j < entries.len() && #[trigger] entries[j].0 == n;
        lemma_some_last_index(entries, n, j);
    }
}

/// The position found is the last one holding the name.
proof fn lemma_last_index(entries: Seq<(Seq<char>, Seq<char>)>, n: Seq<char>, k: int)
    requires
        0 <= k < entries.len(),
        entries[k].0 == n,
        forall|j: int| k < j < entries.len() ==> #[trigger] entries[j].0 != n,
    ensures
        last_index_of(entries, n) == Some(k),
{
    let c = choose|i: int|
        0 <= i < entries.len() && entries[i].0 == n && forall|j: int|
            i < j < entries.len() ==> #[trigger] entries[j].0 != n;
    assert(0 <= c < entries.len() && entries[c].0 == n);
    if c < k {
        assert(entries[k].0 != n);
    } else if c > k {
        assert(entries[c].0 != n);
    }
}

/// A name held somewhere has a last position.
proof fn lemma_has_last(entries: Seq<(Seq<char>, Seq<char>)>, n: Seq<char>, i: int)
    requires
        0 <= i < entries.len(),
        entries[i].0 == n,
    ensures
        last_index_of(entries, n) is Some,
    decreases entries.len() - i,
{
    if forall|j: int| i < j < entries.len() ==> #[trigger] entries[j].0 != n {
        lemma_last_index(entries, n, i);
    } else {
        let j = choose|j: int| i < j < entries.len() && #[trigger] entries[j].0 == n;
        lemma_has_last(entries, n, j);
    }
}

/// Two registries holding the same names, position by position, find a
/// name at the same position.
proof fn lemma_same_names(
    a: Seq<(Seq<char>, Seq<char>)>,
    b: Seq<(Seq<char>, Seq<char>)>,
    n: Seq<char>,
)
    requires
        a.len() == b.len(),
        forall|j: int| 0 <= j < a.len() ==> #[trigger] a[j].0 == b[j].0,
    ensures
        last_index_of(a, n) == last_index_of(b, n),
{
    match last_index_of(a, n) {
        Some(k) => {
            assert(b[k].0 == a[k].0);
            assert forall|j: int| k < j < b.len() implies #[trigger] b[j].0 != n by {
                assert(a[j].0 == b[j].0);
            }
            lemma_last_index(b, n, k);
        },
        None => {
            if exists|j: int| 0 <= j < b.len() && b[j].0 == n {
                let j = choose|j: int| 0 <= j < b.len() && b[j].0 == n;
                assert(a[j].0 == b[j].0);
                lemma_has_last(a, n, j);
            }
            if last_index_of(b, n) is Some {
                let k = last_index_of(b, n)->0;
                assert(a[k].0 == b[k].0);
                lemma_has_last(a, n, k);
            }
        },
    }
}

/// Replacing the root at the last position of `name` changes only the
/// lookup of `name`.
proof fn lemma_lookup_update(
    before: Seq<(Seq<char>, Seq<char>)>,
    k: int,
    name: Seq<char>,
    root: Seq<char>,
    n: Seq<char>,
)
    requires
        0 <= k < before.len(),
        last_index_of(before, name) == Some(k),
    ensures
        lookup(before.update(k, (name, root)), n) == insert_or_spec(lookup(before, n), n, name, root),
{
    let after = before.update(k, (name, root));
    let c = choose|i: int|
        0 <= i < before.len() && before[i].0 == name && forall|j: int|
            i < j < before.len() ==> #[trigger] before[j].0 != name;
    assert(c == k);
    assert forall|j: int| 0 <= j < after.len() implies #[trigger] after[j].0 == before[j].0 by {}
    lemma_same_names(after, before, n);
    if n == name {
        assert(after[k] == (name, root));
    } else {
        match last_index_of(before, n) {
            Some(m) => {
                assert(m != k);
                assert(after[m] == before[m]);
            },
            None => {},
        }
    }
}

/// Appending `(name, root)` changes only the lookup of `name`.
proof fn lemma_lookup_push(
    before: Seq<(Seq<char>, Seq<char>)>,
    name: Seq<char>,
    root: Seq<char>,
    n: Seq<char>,
)
    ensures
        lookup(before.push((name, root)), n) == insert_or_spec(lookup(before, n), n, name, root),
{
    let after = before.push((name, root));
    let last = before.len() as int;
    if n == name {
        lemma_last_index(after, n, last);
    } else {
        match last_index_of(before, n) {
            Some(m) => {
                assert(after[m] == before[m]);
                assert forall|j: int| m < j < after.len() implies #[trigger] after[j].0 != n by {
                    if j < last {
                        assert(after[j] == before[j]);
                    }
                }
                lemma_last_index(after, n, m);
            },
            None => {
                if last_index_of(after, n) is Some {
                    let m = last_index_of(after, n)->0;
                    assert(m < last);
                    assert(after[m] == before[m]);
                    lemma_has_last(before, n, m);
                }
            },
        }
    }
}

/// Global configuration: tool paths, processing settings and the wiki
/// registry.
#[derive(Debug, Clone)]
pub struct AppConfig {
    pub tools: ToolsConfig,
    pub process: ProcessConfig,
    pub wikis: Vec<(String, WikiEntry)>,
}

impl AppConfig {
    /// The registered `(name, root)` pairs, in registration order.
    pub open spec fn entries(&self) -> Seq<(Seq<char>, Seq<char>)> {
        self.wikis@.map_values(|e: (String, WikiEntry)| (e.0@, e.1.root@))
    }

    /// The registry as a map from wiki name to root.
    pub open spec fn wikis_view(&self) -> Map<Seq<char>, Seq<char>> {
        registry(self.entries())
    }

    /// No name is registered twice, as in a map from name to wiki.
    pub open spec fn wf(&self) -> bool {
        distinct_names(self.entries())
    }

    /// The registered names, in registration order.
    pub open spec fn names_view(&self) -> Seq<Seq<char>> {
        self.entries().map_values(|e: (Seq<char>, Seq<char>)| e.0)
    }

    /// The registered names, in registration order.
    pub fn wiki_names(&self) -> (r: Vec<String>)
        ensures
            strings_view(r@) == self.names_view(),
    {
        let mut r: Vec<String> = Vec::new();
        let mut i: usize = 0;
        while i < self.wikis.len()
            invariant
                i <= self.wikis.len(),
                self.entries().len() == self.wikis@.len(),
                strings_view(r@) == self.names_view().take(i as int),
            decreases self.wikis.len() - i,
        {
            let ghost before = r@;
            r.push(self.wikis[i].0.clone());
            assert(strings_view(r@) =~= strings_view(before).push(self.wikis@[i as int].0@));
            assert(self.names_view().take(i + 1) =~= self.names_view().take(i as int).push(
                self.entries()[i as int].0,
            ));
            i += 1;
        }
        assert(self.names_view().take(i as int) =~= self.names_view());
        r
    }

    /// The number of registered wikis.
    pub fn wiki_count(&self) -> (r: usize)
        ensures
            r == self.entries().len(),
    {
        self.wikis.len()
    }

    /// The `i`-th registered wiki, in registration order.
    pub fn wiki_at(&self, i: usize) -> (r: WikiConfig)
        requires
            i < self.entries().len(),
        ensures
            r.name@ == self.entries()[i as int].0,
            r.root@ == self.entries()[i as int].1,
    {
        WikiConfig { name: self.wikis[i].0.clone(), root: self.wikis[i].1.root.clone() }
    }

    /// The last position holding `name`.
    fn last_position(&self, name: &str) -> (r: Option<usize>)
        ensures
            match r {
                Some(k) => k < self.entries().len() && last_index_of(self.entries(), name@) == Some(
                    k as int,
                ),
                None => last_index_of(self.entries(), name@) is None,
            },
    {
        let mut k: usize = self.wikis.len();
        while k > 0
            invariant
                k <= self.wikis.len(),
                self.entries().len() == self.wikis@.len(),
                forall|j: int| k <= j < self.entries().len() ==> #[trigger] self.entries()[j].0
                    != name@,
            decreases k,
        {
            assert(self.entries()[k - 1] == (self.wikis@[k - 1].0@, self.wikis@[k - 1].1.root@));
            if str_equals(self.wikis[k - 1].0.as_str(), name) {
                proof {
                    lemma_last_index(self.entries(), name@, k - 1);
                }
                return Some(k - 1);
            }
            k -= 1;
        }
        None
    }

    /// Looks a wiki up by name.
    pub fn resolve_wiki(&self, name: &str) -> (r: Result<WikiConfig, ConfigError>)
        ensures
            match r {
                Ok(w) => {
                    &&& self.wikis_view().contains_key(name@)
                    &&& w.name@ == name@
                    &&& w.root@ == self.wikis_view()[name@]
                },
                Err(ConfigError::WikiNotFound { name: n, available }) => {
                    &&& !self.wikis_view().contains_key(name@)
                    &&& n@ == name@
                    &&& strings_view(available@) == self.names_view()
                },
                Err(_) => false,
            },
    {
        match self.last_position(name) {
            Some(k) => {
                assert(self.entries()[k as int] == (self.wikis@[k as int].0@, self.wikis@[
                    k as int
                ].1.root@));
                Ok(WikiConfig { name: owned(name), root: self.wikis[k].1.root.clone() })
            },
            None => Err(ConfigError::WikiNotFound { name: owned(name), available: self.wiki_names() }),
        }
    }

    /// Registers `root` under `name`, replacing any root registered under it.
    pub fn register_wiki(&mut self, name: String, root: String)
        ensures
            old(self).wf() ==> final(self).wf(),
            final(self).wikis_view() == old(self).wikis_view().insert(name@, root@),
            final(self).tools == old(self).tools,
            final(self).process == old(self).process,
    {
        let ghost before = self.entries();
        match self.last_position(name.as_str()) {
            Some(k) => {
                let ghost nv = name@;
                let ghost rv = root@;
                self.wikis.set(k, (name, WikiEntry { root }));
                let ghost after = self.entries();
                assert(after =~= before.update(k as int, (nv, rv)));
                proof {
                    lemma_distinct_after_update(before, k as int, nv, rv);
                }
                assert forall|n: Seq<char>| #[trigger] lookup(after, n) == insert_or_spec(
                    lookup(before, n),
                    n,
                    nv,
                    rv,
                ) by {
                    lemma_lookup_update(before, k as int, nv, rv, n);
                }
                assert(registry(after) =~= registry(before).insert(nv, rv));
            },
            None => {
                let ghost nv = name@;
                let ghost rv = root@;
                self.wikis.push((name, WikiEntry { root }));
                let ghost after = self.entries();
                assert(after =~= before.push((nv, rv)));
                proof {
                    lemma_distinct_after_push(before, nv, rv);
                }
                assert forall|n: Seq<char>| #[trigger] lookup(after, n) == insert_or_spec(
                    lookup(before, n),
                    n,
                    nv,
                    rv,
                ) by {
                    lemma_lookup_push(before, nv, rv, n);
                }
                assert(registry(after) =~= registry(before).insert(nv, rv));
            },
        }
    }

    /// Checks that every tool path is set; the first empty one, in the
    /// order qpdf, pdftotext, pdftoppm, tesseract, ffmpeg, whisper-cpp,
    /// whisper model, is reported.
    pub fn validate_tools(&self) -> (r: Result<(), ConfigError>)
        ensures
            r matches Ok(()) <==> tools_set(self.tools),
            r matches Err(e) ==> e matches ConfigError::EmptyToolPath(f) && f@
                == first_empty_tool(self.tools),
    {
        if self.tools.qpdf_path.as_str().is_empty() {
            return Err(ConfigError::EmptyToolPath(owned("qpdf_path")));
        }
        if self.tools.pdftotext_path.as_str().is_empty() {
            return Err(ConfigError::EmptyToolPath(owned("pdftotext_path")));
        }
        if self.tools.pdftoppm_path.as_str().is_empty() {
            return Err(ConfigError::EmptyToolPath(owned("pdftoppm_path")));
        }
        if self.tools.tesseract_path.as_str().is_empty() {
            return Err(ConfigError::EmptyToolPath(owned("tesseract_path")));
        }
        if self.tools.ffmpeg_path.as_str().is_empty() {
            return Err(ConfigError::EmptyToolPath(owned("ffmpeg_path")));
        }
        if self.tools.whisper_cpp_path.as_str().is_empty() {
            return Err(ConfigError::EmptyToolPath(owned("whisper_cpp_path")));
        }
        if self.tools.whisper_model_path.as_str().is_empty() {
            return Err(ConfigError::EmptyToolPath(owned("whisper_model_path")));
        }
        Ok(())
    }
}

impl Default for AppConfig {
    fn default() -> (r: Self)
        ensures
            r.tools.qpdf_path@ == "qpdf"@,
            r.tools.pdftotext_path@ == "pdftotext"@,
            r.tools.pdftoppm_path@ == "pdftoppm"@,
            r.tools.tesseract_path@ == "tesseract"@,
            r.tools.ffmpeg_path@ == "ffmpeg"@,
            r.tools.whisper_cpp_path@ == "whisper-cpp"@,
            r.tools.whisper_model_path@ == "models/ggml-large-v3.bin"@,
            r.process.auth@ == "pro"@,
            r.process.model is None,
            r.entries().len() == 0,
            r.wf(),
    {
        let r = AppConfig {
            tools: ToolsConfig::default(),
            process: ProcessConfig::default(),
            wikis: Vec::new(),
        };
        assert(r.entries() =~= Seq::<(Seq<char>, Seq<char>)>::empty());
        r
    }
}

// ─── Working-directory match ─────────────────────────────────────────────────

/// The directories compared for one registered wiki: the canonical working
/// directory against the canonical root when both could be resolved, the
/// working directory as given against the root as registered otherwise.
pub open spec fn compared_dirs(
    raw_cwd: Seq<char>,
    canon_cwd: Option<Seq<char>>,
    canon_root: Option<Seq<char>>,
    root: Seq<char>,
) -> (Seq<char>, Seq<char>) {
    match canon_root {
        Some(cr) => match canon_cwd {
            Some(cc) => (cc, cr),
            None => (raw_cwd, root),
        },
        None => (raw_cwd, root),
    }
}

/// For each registered wiki: whether the working directory lies at or
/// under its root, and the number of components of that root.
pub open spec fn dir_candidates(
    entries: Seq<(Seq<char>, Seq<char>)>,
    raw_cwd: Seq<char>,
    canon_cwd: Option<Seq<char>>,
    canon_roots: Seq<Option<Seq<char>>>,
) -> Seq<(bool, nat)> {
    Seq::new(
        entries.len(),
        |k: int|
            {
                let cr = if k < canon_roots.len() {
                    canon_roots[k]
                } else {
                    None
                };
                let d = compared_dirs(raw_cwd, canon_cwd, cr, entries[k].1);
                (path_starts_with(d.0, d.1), components(d.1).len())
            },
    )
}

/// The first matching candidate of greatest depth, scanning in order and
/// replacing the best only by a strictly deeper match.
pub open spec fn deepest_match(c: Seq<(bool, nat)>) -> Option<int>
    decreases c.len(),
{
    if c.len() == 0 {
        None
    } else {
        let b = deepest_match(c.drop_last());
        let k = c.len() - 1;
        if c[k].0 && (b is None || c[k].1 > c[b->0].1) {
            Some(k)
        } else {
            b
        }
    }
}

/// With the working directory and every registered root in canonical form
/// (each root canonicalizes to itself), a wiki is found exactly when the
/// directory lies at or under some registered root; the one found is a
/// registered wiki whose root holds the directory, and no root that holds
/// the directory has more components.
pub proof fn law_working_directory_finds_deepest_root(
    entries: Seq<(Seq<char>, Seq<char>)>,
    cwd: Seq<char>,
    canon_roots: Seq<Option<Seq<char>>>,
)
    requires
        canon_roots.len() == entries.len(),
        forall|k: int| 0 <= k < entries.len() ==> #[trigger] canon_roots[k] == Some(entries[k].1),
    ensures
        deepest_match(dir_candidates(entries, cwd, Some(cwd), canon_roots)) is Some <==> exists|
            k: int,
        |
            0 <= k < entries.len() && path_starts_with(cwd, #[trigger] entries[k].1),
        deepest_match(dir_candidates(entries, cwd, Some(cwd), canon_roots)) matches Some(k) ==> {
            &&& 0 <= k < entries.len()
            &&& path_starts_with(cwd, entries[k].1)
            &&& forall|j: int|
                0 <= j < entries.len() && path_starts_with(cwd, #[trigger] entries[j].1)
                    ==> components(entries[j].1).len() <= components(entries[k].1).len()
        },
{
    let c = dir_candidates(entries, cwd, Some(cwd), canon_roots);
    assert forall|k: int| 0 <= k < entries.len() implies #[trigger] c[k] == (
        path_starts_with(cwd, entries[k].1),
        components(entries[k].1).len(),
    ) by {
        assert(canon_roots[k] == Some(entries[k].1));
    }
    law_deepest_match(c);
    if deepest_match(c) is None {
        assert forall|k: int| 0 <= k < entries.len() implies !path_starts_with(
            cwd,
            #[trigger] entries[k].1,
        ) by {
            assert(!c[k].0);
        }
    } else {
        let k = deepest_match(c)->0;
        assert(c[k].0);
        assert forall|j: int|
            0 <= j < entries.len() && path_starts_with(cwd, #[trigger] entries[j].1) implies components(
            entries[j].1,
        ).len() <= components(entries[k].1).len() by {
            assert(c[j].0);
        }
    }
}

/// The deepest match is a match, at least as deep as every other match and
/// strictly deeper than every earlier one; there is none exactly when no
/// candidate matches.
pub proof fn law_deepest_match(c: Seq<(bool, nat)>)
    ensures
        deepest_match(c) matches Some(k) ==> 0 <= k < c.len() && c[k].0 && (forall|j: int|
            0 <= j < c.len() && (#[trigger] c[j]).0 ==> c[j].1 <= c[k].1) && (forall|j: int|
            0 <= j < k && (#[trigger] c[j]).0 ==> c[j].1 < c[k].1),
        deepest_match(c) is None <==> forall|j: int| 0 <= j < c.len() ==> !(#[trigger] c[j]).0,
    decreases c.len(),
{
    if c.len() > 0 {
        let d = c.drop_last();
        law_deepest_match(d);
        let k = c.len() - 1;
        assert forall|j: int| 0 <= j < d.len() implies #[trigger] d[j] == c[j] by {}
        match deepest_match(d) {
            Some(b) => {
                assert(d[b] == c[b]);
                if c[k].0 && c[k].1 > c[b].1 {
                    assert forall|j: int| 0 <= j < c.len() && (#[trigger] c[j]).0 implies c[j].1
                        <= c[k].1 by {
                        if j < k {
                            assert(d[j] == c[j]);
                        }
                    }
                    assert forall|j: int| 0 <= j < k && (#[trigger] c[j]).0 implies c[j].1
                        < c[k].1 by {
                        assert(d[j] == c[j]);
                    }
                } else {
                    assert forall|j: int| 0 <= j < c.len() && (#[trigger] c[j]).0 implies c[j].1
                        <= c[b].1 by {
                        if j < k {
                            assert(d[j] == c[j]);
                        }
                    }
                    assert forall|j: int| 0 <= j < b && (#[trigger] c[j]).0 implies c[j].1
                        < c[b].1 by {
                        assert(d[j] == c[j]);
                    }
                }
            },
            None => {
                if c[k].0 {
                    assert forall|j: int| 0 <= j < c.len() && (#[trigger] c[j]).0 implies c[j].1
                        <= c[k].1 by {
                        if j < k {
                            assert(d[j] == c[j]);
                        }
                    }
                    assert forall|j: int| 0 <= j < k && (#[trigger] c[j]).0 implies c[j].1
                        < c[k].1 by {
                        assert(d[j] == c[j]);
                    }
                } else {
                    assert forall|j: int| 0 <= j < c.len() implies !(#[trigger] c[j]).0 by {
                        if j < k {
                            assert(d[j] == c[j]);
                        }
                    }
                }
            },
        }
        if deepest_match(c) is None {
            assert(deepest_match(d) is None && !c[k].0);
        }
        if forall|j: int| 0 <= j < c.len() ==> !(#[trigger] c[j]).0 {
            assert(!c[k].0);
            assert forall|j: int| 0 <= j < d.len() implies !(#[trigger] d[j]).0 by {
                assert(d[j] == c[j]);
            }
        }
    }
}

/// Canonical roots, viewed as optional character sequences.
pub open spec fn opt_strings_view(v: Seq<Option<String>>) -> Seq<Option<Seq<char>>> {
    v.map_values(|o: Option<String>| opt_view(o))
}

impl AppConfig {
    /// The wiki whose root holds the working directory, the most specific
    /// (deepest root) one when several do. `raw_cwd` is the working
    /// directory (`None` when it could not be read), `canon_cwd` its
    /// canonical form when that could be resolved, and `canon_roots[k]` the
    /// canonical root of the `k`-th registered wiki when that could be
    /// resolved.
    pub fn find_wiki_by_dirs(
        &self,
        raw_cwd: Option<&str>,
        canon_cwd: Option<&str>,
        canon_roots: &Vec<Option<String>>,
    ) -> (r: Option<WikiConfig>)
        ensures
            match raw_cwd {
                None => r is None,
                Some(raw) => {
                    let c = dir_candidates(
                        self.entries(),
                        raw@,
                        match canon_cwd {
                            Some(cc) => Some(cc@),
                            None => None,
                        },
                        opt_strings_view(canon_roots@),
                    );
                    match r {
                        Some(w) => deepest_match(c) matches Some(k) && w.name@
                            == self.entries()[k].0 && w.root@ == self.entries()[k].1,
                        None => deepest_match(c) is None,
                    }
                },
            },
            self.wf() ==> (r matches Some(w) ==> self.wikis_view().contains_key(w.name@)
                && self.wikis_view()[w.name@] == w.root@),
    {
        let raw = match raw_cwd {
            Some(x) => x,
            None => return None,
        };
        let ghost cc_view = match canon_cwd {
            Some(cc) => Some(cc@),
            None => None,
        };
        let ghost c = dir_candidates(self.entries(), raw@, cc_view, opt_strings_view(canon_roots@));
        let mut best: Option<usize> = None;
        let mut best_depth: usize = 0;
        let mut k: usize = 0;
        while k < self.wikis.len()
            invariant
                k <= self.wikis.len(),
                self.entries().len() == self.wikis@.len(),
                c.len() == self.wikis@.len(),
                cc_view == match canon_cwd {
                    Some(cc) => Some(cc@),
                    None => None,
                },
                c == dir_candidates(self.entries(), raw@, cc_view, opt_strings_view(canon_roots@)),
                deepest_match(c.take(k as int)) == match best {
                    Some(b) => Some(b as int),
                    None => None::<int>,
                },
                best matches Some(b) ==> b < k && best_depth == c[b as int].1,
            decreases self.wikis.len() - k,
        {
            let root = &self.wikis[k].1.root;
            assert(self.entries()[k as int].1 == root@);
            let ghost cv = opt_strings_view(canon_roots@);
            let ghost cr_view = if k < cv.len() {
                cv[k as int]
            } else {
                None
            };
            let mut cwd_dir: &str = raw;
            let mut root_dir: &str = root.as_str();
            if k < canon_roots.len() {
                assert(cv[k as int] == opt_view(canon_roots@[k as int]));
                match &canon_roots[k] {
                    Some(cr) => {
                        assert(cr_view == Some(cr@));
                        match canon_cwd {
                            Some(cc) => {
                                cwd_dir = cc;
                                root_dir = cr.as_str();
                            },
                            None => {},
                        }
                    },
                    None => {
                        assert(cr_view is None);
                    },
                }
            }
            assert(compared_dirs(raw@, cc_view, cr_view, root@).0 == cwd_dir@);
            assert(compared_dirs(raw@, cc_view, cr_view, root@).1 == root_dir@);
            let matched = starts_with_path(cwd_dir, root_dir);
            let depth = component_count(root_dir);
            assert(c.take(k + 1).drop_last() =~= c.take(k as int));
            assert(c.take(k + 1)[k as int] == c[k as int]);
            assert(c[k as int] == (matched, depth as nat));
            let better = match best {
                None => true,
                Some(_) => depth > best_depth,
            };
            if matched && better {
                best = Some(k);
                best_depth = depth;
            }
            k += 1;
        }
        assert(c.take(k as int) =~= c);
        match best {
            Some(b) => {
                proof {
                    if self.wf() {
                        let e = self.entries();
                        lemma_last_index(e, e[b as int].0, b as int);
                    }
                }
                Some(self.wiki_at(b))
            },
            None => None,
        }
    }

    /// Picks the wiki to work on: the one named explicitly when a name is
    /// given, else the one found from the working directory (`cwd_wiki`),
    /// else an error listing the registered wikis.
    pub fn resolve_wiki_auto(&self, explicit_name: Option<&str>, cwd_wiki: Option<WikiConfig>) -> (r:
        Result<WikiConfig, ConfigError>)
        ensures
            match explicit_name {
                Some(name) => match r {
                    Ok(w) => {
                        &&& self.wikis_view().contains_key(name@)
                        &&& w.name@ == name@
                        &&& w.root@ == self.wikis_view()[name@]
                    },
                    Err(ConfigError::WikiNotFound { name: n, available }) => {
                        &&& !self.wikis_view().contains_key(name@)
                        &&& n@ == name@
                        &&& strings_view(available@) == self.names_view()
                    },
                    Err(_) => false,
                },
                None => match cwd_wiki {
                    Some(w) => r matches Ok(x) && x.name@ == w.name@ && x.root@ == w.root@,
                    None => r matches Err(ConfigError::NoWikiSelected { available })
                        && strings_view(available@) == self.names_view(),
                },
            },
    {
        match explicit_name {
            Some(name) => self.resolve_wiki(name),
            None => match cwd_wiki {
                Some(w) => Ok(w),
                None => Err(ConfigError::NoWikiSelected { available: self.wiki_names() }),
            },
        }
    }
}

/// Registering a root under a name makes a lookup of that name give that
/// root, leaves every other name as it was, and a later registration under
/// the same name replaces the earlier one.
pub proof fn law_register_then_resolve(
    m: Map<Seq<char>, Seq<char>>,
    name: Seq<char>,
    root: Seq<char>,
    other_root: Seq<char>,
)
    ensures
        m.insert(name, root).contains_key(name),
        m.insert(name, root)[name] == root,
        forall|n: Seq<char>|
            n != name ==> (#[trigger] m.insert(name, root).contains_key(n) == m.contains_key(n)
                && (m.contains_key(n) ==> m.insert(name, root)[n] == m[n])),
        m.insert(name, other_root).insert(name, root) == m.insert(name, root),
{
    assert(m.insert(name, other_root).insert(name, root) =~= m.insert(name, root));
}

/// Every tool path is non-empty.
pub open spec fn tools_set(t: ToolsConfig) -> bool {
    &&& t.qpdf_path@.len() > 0
    &&& t.pdftotext_path@.len() > 0
    &&& t.pdftoppm_path@.len() > 0
    &&& t.tesseract_path@.len() > 0
    &&& t.ffmpeg_path@.len() > 0
    &&& t.whisper_cpp_path@.len() > 0
    &&& t.whisper_model_path@.len() > 0
}

/// The field name of the first empty tool path, in checking order.
pub open spec fn first_empty_tool(t: ToolsConfig) -> Seq<char> {
    if t.qpdf_path@.len() == 0 {
        "qpdf_path"@
    } else if t.pdftotext_path@.len() == 0 {
        "pdftotext_path"@
    } else if t.pdftoppm_path@.len() == 0 {
        "pdftoppm_path"@
    } else if t.tesseract_path@.len() == 0 {
        "tesseract_path"@
    } else if t.ffmpeg_path@.len() == 0 {
        "ffmpeg_path"@
    } else if t.whisper_cpp_path@.len() == 0 {
        "whisper_cpp_path"@
    } else {
        "whisper_model_path"@
    }
}

/// `Some(r)` for `n == name`, the lookup otherwise.
pub open spec fn insert_or_spec(
    o: Option<Seq<char>>,
    n: Seq<char>,
    name: Seq<char>,
    root: Seq<char>,
) -> Option<Seq<char>> {
    if n == name {
        Some(root)
    } else {
        o
    }
}

} // verus!
