//! Unix path components, as `std::path::Path::components` yields them:
//! a leading `/` is the root component, a leading `.` segment of a relative
//! path is the current-directory component, empty and other `.` segments
//! are dropped, and every other segment between slashes is a component.
use vstd::prelude::*;
use crate::text::chars_of;

verus! {

/// `s` split at every `/`, as `str::split('/')` does.
pub open spec fn split_slash(s: Seq<char>) -> Seq<Seq<char>>
    decreases s.len(),
{
    if s.len() == 0 {
        seq![seq![]]
    } else {
        let rest = split_slash(s.drop_last());
        if s.last() == '/' {
            rest.push(seq![])
        } else {
            rest.update(rest.len() - 1, rest.last().push(s.last()))
        }
    }
}

/// A segment that stands as a component: neither empty nor `.`.
pub open spec fn kept_segment() -> spec_fn(Seq<char>) -> bool {
    |seg: Seq<char>| seg.len() > 0 && seg != seq!['.']
}

/// The component that precedes the segments: `/` for an absolute path,
/// `.` for a relative path that starts with a `.` segment.
pub open spec fn head_component(s: Seq<char>) -> Seq<Seq<char>> {
    if s.len() > 0 && s[0] == '/' {
        seq![seq!['/']]
    } else if s.len() > 0 && s[0] == '.' && (s.len() == 1 || s[1] == '/') {
        seq![seq!['.']]
    } else {
        seq![]
    }
}

/// The components of `s`.
pub open spec fn components(s: Seq<char>) -> Seq<Seq<char>> {
    head_component(s) + split_slash(s).filter(kept_segment())
}

/// Whether the components of `base` begin the components of `p`
/// (`Path::starts_with`).
pub open spec fn path_starts_with(p: Seq<char>, base: Seq<char>) -> bool {
    let a = components(p);
    let b = components(base);
    b.len() <= a.len() && a.take(b.len() as int) == b
}

/// The views of a vector of character vectors.
pub open spec fn nested_view(v: Seq<Vec<char>>) -> Seq<Seq<char>> {
    v.map_values(|x: Vec<char>| x@)
}

pub proof fn lemma_split_nonempty(s: Seq<char>)
    ensures
        split_slash(s).len() >= 1,
    decreases s.len(),
{
    if s.len() > 0 {
        lemma_split_nonempty(s.drop_last());
    }
}

/// The components of `s`.
pub fn path_components(s: &str) -> (r: Vec<Vec<char>>)
    ensures
        nested_view(r@) == components(s@),
{
    let v = chars_of(s);
    let mut r: Vec<Vec<char>> = Vec::new();
    if v.len() > 0 && v[0] == '/' {
        let root = vec!['/'];
        assert(root@ =~= seq!['/']);
        r.push(root);
        assert(nested_view(r@) =~= seq![seq!['/']]);
    } else if v.len() > 0 && v[0] == '.' && (v.len() == 1 || v[1] == '/') {
        let cur_dir = vec!['.'];
        assert(cur_dir@ =~= seq!['.']);
        r.push(cur_dir);
        assert(nested_view(r@) =~= seq![seq!['.']]);
    } else {
        assert(nested_view(r@) =~= Seq::<Seq<char>>::empty());
    }
    let ghost head = nested_view(r@);
    assert(head == head_component(s@));
    let mut cur: Vec<char> = Vec::new();
    let mut i: usize = 0;
    while i < v.len()
        invariant
            i <= v.len(),
            v@ == s@,
            head == head_component(s@),
            split_slash(v@.take(i as int)).len() >= 1,
            split_slash(v@.take(i as int)).last() == cur@,
            nested_view(r@) == head + split_slash(v@.take(i as int)).drop_last().filter(
                kept_segment(),
            ),
        decreases v.len() - i,
    {
        let c = v[i];
        let ghost sp = split_slash(v@.take(i as int));
        assert(v@.take(i + 1).drop_last() =~= v@.take(i as int));
        assert(v@.take(i + 1).last() == c);
        if c == '/' {
            let keep = cur.len() > 0 && !(cur.len() == 1 && cur[0] == '.');
            assert(keep == kept_segment()(cur@)) by {
                if cur@.len() == 1 {
                    assert(cur@ == seq![cur@[0]]);
                }
            }
            proof {
                reveal(Seq::filter);
                assert(split_slash(v@.take(i + 1)) == sp.push(seq![]));
                assert(sp.push(seq![]).drop_last() =~= sp);
                assert(sp =~= sp.drop_last().push(sp.last()));
            }
            if keep {
                let ghost before = nested_view(r@);
                let seg = cur;
                r.push(seg);
                assert(nested_view(r@) =~= before.push(seg@));
                cur = Vec::new();
            } else {
                cur = Vec::new();
            }
            proof {
                assert(nested_view(r@) =~= head + split_slash(v@.take(i + 1)).drop_last().filter(
                    kept_segment(),
                ));
            }
        } else {
            cur.push(c);
            proof {
                lemma_split_nonempty(v@.take(i as int));
                let nsp = split_slash(v@.take(i + 1));
                assert(nsp == sp.update(sp.len() - 1, sp.last().push(c)));
                assert(nsp.drop_last() =~= sp.drop_last());
            }
        }
        i += 1;
    }
    proof {
        reveal(Seq::filter);
        let sp = split_slash(v@.take(i as int));
        assert(v@.take(i as int) =~= s@);
        assert(sp =~= sp.drop_last().push(sp.last()));
    }
    let keep = cur.len() > 0 && !(cur.len() == 1 && cur[0] == '.');
    assert(keep == kept_segment()(cur@)) by {
        if cur@.len() == 1 {
            assert(cur@ == seq![cur@[0]]);
        }
    }
    if keep {
        let ghost before = nested_view(r@);
        r.push(cur);
        assert(nested_view(r@) =~= before.push(cur@));
    }
    assert(nested_view(r@) =~= components(s@));
    r
}

/// Whether two component lists agree on the first `n` components.
fn same_prefix(a: &Vec<Vec<char>>, b: &Vec<Vec<char>>, n: usize) -> (r: bool)
    requires
        n <= a.len(),
        n <= b.len(),
    ensures
        r == (nested_view(a@).take(n as int) == nested_view(b@).take(n as int)),
{
    let mut i: usize = 0;
    while i < n
        invariant
            n <= a.len(),
            n <= b.len(),
            i <= n,
            forall|j: int| 0 <= j < i ==> #[trigger] a@[j]@ == b@[j]@,
        decreases n - i,
    {
        if !crate::text::chars_equal(&a[i], &b[i]) {
            assert(nested_view(a@).take(n as int)[i as int] == a@[i as int]@);
            assert(nested_view(b@).take(n as int)[i as int] == b@[i as int]@);
            return false;
        }
        i += 1;
    }
    assert(nested_view(a@).take(n as int) =~= nested_view(b@).take(n as int));
    true
}

/// Whether `p` starts with `base`, component by component.
pub fn starts_with_path(p: &str, base: &str) -> (r: bool)
    ensures
        r == path_starts_with(p@, base@),
{
    let a = path_components(p);
    let b = path_components(base);
    if b.len() > a.len() {
        return false;
    }
    let r = same_prefix(&a, &b, b.len());
    assert(nested_view(b@).take(b.len() as int) =~= nested_view(b@));
    r
}

/// The number of components of `p`.
pub fn component_count(p: &str) -> (r: usize)
    ensures
        r == components(p@).len(),
{
    path_components(p).len()
}

} // verus!
