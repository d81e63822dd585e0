//! Classification of source files by their extension.
use vstd::prelude::*;
use crate::path::{components, nested_view, path_components};
use crate::queue::FileType;
use crate::text::{str_equals, string_from_chars};

verus! {

/// What ingestion makes of a file: every file is taken, with its type.
#[derive(Debug, Clone, Copy, PartialEq, Eq, Structural)]
pub enum FileClassification {
    Ingestable(FileType),
}

/// The last component of a path, when it is a name (`Path::file_name`).
pub open spec fn file_name(p: Seq<char>) -> Option<Seq<char>> {
    let c = components(p);
    if c.len() > 0 && c.last() != seq!['/'] && c.last() != seq!['.'] && c.last() != seq!['.', '.'] {
        Some(c.last())
    } else {
        None
    }
}

/// The position of the last `.` in `s`.
pub open spec fn last_dot(s: Seq<char>) -> Option<int>
    decreases s.len(),
{
    if s.len() == 0 {
        None
    } else if s.last() == '.' {
        Some(s.len() - 1)
    } else {
        last_dot(s.drop_last())
    }
}

/// What follows the last `.` of a file name, unless the name has no `.`
/// or its only leading part is empty (`Path::extension`).
pub open spec fn name_extension(name: Seq<char>) -> Option<Seq<char>> {
    match last_dot(name) {
        Some(k) => if k > 0 {
            Some(name.skip(k + 1))
        } else {
            None
        },
        None => None,
    }
}

/// The extension of the file a path names.
pub open spec fn path_extension_spec(p: Seq<char>) -> Option<Seq<char>> {
    match file_name(p) {
        Some(n) => name_extension(n),
        None => None,
    }
}

/// What `str::to_lowercase` returns for `s`: Unicode lower-casing, which
/// may change the length.
pub uninterp spec fn lowercase(s: Seq<char>) -> Seq<char>;

/// Whether `c` is an ASCII character.
pub open spec fn is_ascii_char(c: char) -> bool {
    (c as u32) < 128
}

/// An ASCII character lower-cased: `A` to `Z` become `a` to `z`.
pub open spec fn ascii_lower(c: char) -> char {
    if 'A' <= c && c <= 'Z' {
        ((c as u32) + 32) as char
    } else {
        c
    }
}

/// `str::to_lowercase` from std. Its result is named; stated besides is
/// what Unicode lower-casing does to ASCII text: it maps `A`-`Z` to
/// `a`-`z` and keeps every other character.
#[verifier::external_body]
fn to_lowercase(s: &str) -> (r: String)
    ensures
        r@ == lowercase(s@),
        (forall|i: int| 0 <= i < s@.len() ==> is_ascii_char(#[trigger] s@[i])) ==> r@
            == s@.map_values(|c: char| ascii_lower(c)),
{
    s.to_lowercase()
}

/// The file type that a lower-cased extension (without its dot) names.
pub open spec fn type_for_extension(ext: Option<Seq<char>>) -> FileType {
    match ext {
        Some(e) => if e == "md"@ || e == "markdown"@ {
            FileType::Markdown
        } else if e == "txt"@ || e == "text"@ {
            FileType::Text
        } else if e == "pdf"@ {
            FileType::Pdf
        } else if e == "zip"@ {
            FileType::Zip
        } else if e == "mp3"@ || e == "wav"@ || e == "flac"@ || e == "ogg"@ || e == "m4a"@ {
            FileType::Audio
        } else if e == "mp4"@ || e == "mkv"@ || e == "avi"@ || e == "mov"@ || e == "webm"@ {
            FileType::Video
        } else {
            FileType::Unknown
        },
        None => FileType::Unknown,
    }
}

/// The last position of `c` in `v`.
pub(crate) fn rfind_dot(v: &Vec<char>) -> (r: Option<usize>)
    ensures
        match r {
            Some(k) => last_dot(v@) == Some(k as int) && k < v.len(),
            None => last_dot(v@) is None,
        },
{
    let mut k: usize = v.len();
    assert(v@.take(k as int) =~= v@);
    while k > 0
        invariant
            k <= v.len(),
            last_dot(v@) == last_dot(v@.take(k as int)),
        decreases k,
    {
        assert(v@.take(k as int).drop_last() =~= v@.take(k - 1));
        if v[k - 1] == '.' {
            return Some(k - 1);
        }
        k -= 1;
    }
    assert(v@.take(0) =~= Seq::<char>::empty());
    None
}

/// The name of the file that `path` names, as `Path::file_name` gives it.
pub fn path_file_name(path: &str) -> (r: Option<Vec<char>>)
    ensures
        match r {
            Some(v) => file_name(path@) == Some(v@),
            None => file_name(path@) is None,
        },
{
    let comps = path_components(path);
    proof {
        assert(nested_view(comps@).len() == comps@.len());
    }
    if comps.len() == 0 {
        return None;
    }
    let last = &comps[comps.len() - 1];
    assert(nested_view(comps@).last() == last@);
    let is_root = last.len() == 1 && last[0] == '/';
    let is_cur = last.len() == 1 && last[0] == '.';
    let is_parent = last.len() == 2 && last[0] == '.' && last[1] == '.';
    assert(is_root == (last@ == seq!['/'])) by {
        if last@.len() == 1 {
            assert(last@ == seq![last@[0]]);
        }
    }
    assert(is_cur == (last@ == seq!['.'])) by {
        if last@.len() == 1 {
            assert(last@ == seq![last@[0]]);
        }
    }
    assert(is_parent == (last@ == seq!['.', '.'])) by {
        if last@.len() == 2 {
            assert(last@ == seq![last@[0], last@[1]]);
        }
    }
    if is_root || is_cur || is_parent {
        return None;
    }
    Some(last.clone())
}

/// The chars of `v` from `from` to its end.
pub(crate) fn chars_from(v: &Vec<char>, from: usize) -> (r: Vec<char>)
    requires
        from <= v.len(),
    ensures
        r@ == v@.skip(from as int),
{
    let mut r: Vec<char> = Vec::new();
    let mut i: usize = from;
    while i < v.len()
        invariant
            from <= i <= v.len(),
            r@ == v@.subrange(from as int, i as int),
        decreases v.len() - i,
    {
        r.push(v[i]);
        assert(v@.subrange(from as int, i as int).push(v@[i as int]) =~= v@.subrange(
            from as int,
            i + 1,
        ));
        i += 1;
    }
    assert(r@ =~= v@.skip(from as int));
    r
}

/// The chars of `v` before `to`.
pub(crate) fn chars_before(v: &Vec<char>, to: usize) -> (r: Vec<char>)
    requires
        to <= v.len(),
    ensures
        r@ == v@.take(to as int),
{
    let mut r: Vec<char> = Vec::new();
    let mut i: usize = 0;
    while i < to
        invariant
            i <= to <= v.len(),
            r@ == v@.take(i as int),
        decreases to - i,
    {
        r.push(v[i]);
        assert(v@.take(i as int).push(v@[i as int]) =~= v@.take(i + 1));
        i += 1;
    }
    r
}

/// The extension of the file that `path` names, as `Path::extension`
/// gives it.
pub fn path_extension(path: &str) -> (r: Option<String>)
    ensures
        match r {
            Some(e) => path_extension_spec(path@) == Some(e@),
            None => path_extension_spec(path@) is None,
        },
{
    match path_file_name(path) {
        Some(name) => match rfind_dot(&name) {
            Some(k) => {
                if k == 0 {
                    None
                } else {
                    Some(string_from_chars(&chars_from(&name, k + 1)))
                }
            },
            None => None,
        },
        None => None,
    }
}

/// The file type that a lower-cased extension (without its dot) names;
/// no extension names `Unknown`.
pub fn file_type_for_extension(ext: Option<&str>) -> (r: FileType)
    ensures
        r == type_for_extension(
            match ext {
                Some(e) => Some(e@),
                None => None,
            },
        ),
{
    match ext {
        Some(e) => {
            if str_equals(e, "md") || str_equals(e, "markdown") {
                FileType::Markdown
            } else if str_equals(e, "txt") || str_equals(e, "text") {
                FileType::Text
            } else if str_equals(e, "pdf") {
                FileType::Pdf
            } else if str_equals(e, "zip") {
                FileType::Zip
            } else if str_equals(e, "mp3") || str_equals(e, "wav") || str_equals(e, "flac")
                || str_equals(e, "ogg") || str_equals(e, "m4a") {
                FileType::Audio
            } else if str_equals(e, "mp4") || str_equals(e, "mkv") || str_equals(e, "avi")
                || str_equals(e, "mov") || str_equals(e, "webm") {
                FileType::Video
            } else {
                FileType::Unknown
            }
        },
        None => FileType::Unknown,
    }
}

/// Classifies the file that `path` names by its extension, compared
/// without regard to case.
pub fn detect_file_type(path: &str) -> (r: FileClassification)
    ensures
        r == FileClassification::Ingestable(
            type_for_extension(
                match path_extension_spec(path@) {
                    Some(e) => Some(lowercase(e)),
                    None => None,
                },
            ),
        ),
        path_extension_spec(path@) matches Some(e) ==> ((forall|i: int|
            0 <= i < e.len() ==> is_ascii_char(#[trigger] e[i])) ==> r
            == FileClassification::Ingestable(
            type_for_extension(Some(e.map_values(|c: char| ascii_lower(c)))),
        )),
{
    match path_extension(path) {
        Some(e) => {
            let lower = to_lowercase(e.as_str());
            FileClassification::Ingestable(file_type_for_extension(Some(lower.as_str())))
        },
        None => FileClassification::Ingestable(file_type_for_extension(None)),
    }
}

} // verus!
