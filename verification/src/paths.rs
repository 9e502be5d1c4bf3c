//! The model of file ids: root-relative paths with `/` as the separator.

use vstd::prelude::*;
use crate::chars::{chars_of_str, copy_range, spec_ends_with, spec_starts_with};
use crate::spec_is_mod_file;

verus! {

/// The index of the last occurrence of `c` in `s`, or -1 if there is none.
pub open spec fn spec_last_index_of(s: Seq<char>, c: char) -> int
    decreases s.len(),
{
    if s.len() == 0 {
        -1
    } else if s[s.len() - 1] == c {
        s.len() - 1
    } else {
        spec_last_index_of(s.drop_last(), c)
    }
}

/// The directory part of an id: everything before the last `/`, or the empty
/// sequence for an id with no `/` (a file at the root of the tree).
pub open spec fn spec_dirname(s: Seq<char>) -> Seq<char> {
    if spec_last_index_of(s, '/') < 0 {
        Seq::empty()
    } else {
        s.subrange(0, spec_last_index_of(s, '/'))
    }
}

/// The file-name part of an id: everything after the last `/`.
pub open spec fn spec_file_name(s: Seq<char>) -> Seq<char> {
    s.subrange(spec_last_index_of(s, '/') + 1, s.len() as int)
}

/// The stem of a file name: everything before the last `.`, except that a
/// name whose only `.` is the leading character keeps the whole name.
pub open spec fn spec_file_stem(name: Seq<char>) -> Seq<char> {
    if spec_last_index_of(name, '.') <= 0 {
        name
    } else {
        name.subrange(0, spec_last_index_of(name, '.'))
    }
}

/// A path names a Rust source file: its file name ends in `.rs` and has a
/// non-empty stem before that extension.
pub open spec fn spec_is_rust_source(path: Seq<char>) -> bool {
    spec_file_name(path).len() > 3 && spec_ends_with(spec_file_name(path), ".rs"@)
}

/// Joining a directory and a further component with `/`; joining onto the
/// empty directory yields the component itself.
pub open spec fn spec_join_path(dir: Seq<char>, rest: Seq<char>) -> Seq<char> {
    if dir.len() == 0 {
        rest
    } else {
        dir.push('/') + rest
    }
}

/// Joining every segment in turn onto `base`.
pub open spec fn spec_append_segments(base: Seq<char>, segs: Seq<Seq<char>>) -> Seq<char>
    decreases segs.len(),
{
    if segs.len() == 0 {
        base
    } else {
        spec_join_path(spec_append_segments(base, segs.drop_last()), segs.last())
    }
}

/// The segments joined by `sep`, with nothing added for an empty list.
pub open spec fn spec_join_with(segs: Seq<Seq<char>>, sep: char) -> Seq<char>
    decreases segs.len(),
{
    if segs.len() == 0 {
        Seq::empty()
    } else if segs.len() == 1 {
        segs[0]
    } else {
        spec_join_with(segs.drop_last(), sep).push(sep) + segs.last()
    }
}

/// Stripping `base` off the front of `path`, component-wise: trailing `/`
/// characters of `base` are ignored, an empty base strips nothing, and
/// otherwise the match must end at a component boundary.
pub open spec fn spec_strip_root(path: Seq<char>, base: Seq<char>) -> Option<Seq<char>>
    decreases base.len(),
{
    if base.len() == 0 {
        Some(path)
    } else if base[base.len() - 1] == '/' {
        spec_strip_root(path, base.drop_last())
    } else if path == base {
        Some(Seq::empty())
    } else if spec_starts_with(path, base.push('/')) {
        Some(path.subrange(base.len() as int + 1, path.len() as int))
    } else {
        None
    }
}

/// The last index of `c` lies between -1 and the length, exclusive.
pub proof fn lemma_last_index_of_bounds(s: Seq<char>, c: char)
    ensures
        -1 <= spec_last_index_of(s, c) < s.len(),
    decreases s.len(),
{
    if s.len() > 0 && s[s.len() - 1] != c {
        lemma_last_index_of_bounds(s.drop_last(), c);
    }
}

/// The index of the last occurrence of `c`, if any.
pub fn last_index_of(v: &Vec<char>, c: char) -> (r: Option<usize>)
    ensures
        match r {
            Some(i) => spec_last_index_of(v@, c) == i as int && i < v@.len(),
            None => spec_last_index_of(v@, c) == -1,
        },
{
    proof {
        lemma_last_index_of_bounds(v@, c);
        assert(v@.subrange(0, v@.len() as int) =~= v@);
    }
    let mut i: usize = v.len();
    while i > 0
        invariant
            i <= v@.len(),
            spec_last_index_of(v@, c) == spec_last_index_of(v@.subrange(0, i as int), c),
        decreases i,
    {
        if v[i - 1] == c {
            proof {
                assert(v@.subrange(0, i as int)[i - 1] == c);
            }
            return Some(i - 1);
        }
        proof {
            assert(v@.subrange(0, i as int).drop_last() =~= v@.subrange(0, i - 1));
        }
        i = i - 1;
    }
    None
}

/// The directory part of an id.
pub fn dirname_of(v: &Vec<char>) -> (r: Vec<char>)
    ensures
        r@ == spec_dirname(v@),
{
    match last_index_of(v, '/') {
        Some(i) => copy_range(v, 0, i),
        None => Vec::new(),
    }
}

/// The file-name part of an id.
pub fn file_name_of(v: &Vec<char>) -> (r: Vec<char>)
    ensures
        r@ == spec_file_name(v@),
{
    match last_index_of(v, '/') {
        Some(i) => {
            let n = v.len();
            assert(i < n);
            copy_range(v, i + 1, n)
        },
        None => copy_range(v, 0, v.len()),
    }
}

/// The stem of a file name.
pub fn file_stem_of(name: &Vec<char>) -> (r: Vec<char>)
    ensures
        r@ == spec_file_stem(name@),
{
    match last_index_of(name, '.') {
        Some(i) => {
            if i == 0 {
                copy_range(name, 0, name.len())
            } else {
                copy_range(name, 0, i)
            }
        },
        None => copy_range(name, 0, name.len()),
    }
}

/// Whether `v` ends with the characters of `suffix`.
pub fn ends_with_chars(v: &Vec<char>, suffix: &Vec<char>) -> (r: bool)
    ensures
        r == spec_ends_with(v@, suffix@),
{
    let n = v.len();
    let k = suffix.len();
    if k > n {
        return false;
    }
    let mut i: usize = 0;
    while i < k
        invariant
            i <= k <= n,
            n == v@.len(),
            k == suffix@.len(),
            forall|j: int| 0 <= j < i ==> v@[n - k + j] == suffix@[j],
        decreases k - i,
    {
        if v[n - k + i] != suffix[i] {
            proof {
                assert(v@.subrange(n - k, n as int)[i as int] == v@[n - k + i]);
            }
            return false;
        }
        i = i + 1;
    }
    proof {
        assert(v@.subrange(n - k, n as int) =~= suffix@);
    }
    true
}

/// Whether the id names a directory-index (`mod.rs`) file.
pub fn is_mod_chars(v: &Vec<char>) -> (r: bool)
    ensures
        r == spec_is_mod_file(v@),
{
    proof {
        reveal_strlit("mod.rs");
    }
    let suffix = chars_of_str("mod.rs");
    if !ends_with_chars(v, &suffix) {
        return false;
    }
    v.len() == 6 || v[v.len() - 7] == '/'
}

/// Whether the id names a directory-index (`mod.rs`) file.
pub fn is_mod_file(id: &str) -> (r: bool)
    ensures
        r == spec_is_mod_file(id@),
{
    let v = chars_of_str(id);
    is_mod_chars(&v)
}

/// Whether the path names a Rust source file.
pub fn is_rust_source(path: &str) -> (r: bool)
    ensures
        r == spec_is_rust_source(path@),
{
    let v = chars_of_str(path);
    let name = file_name_of(&v);
    proof {
        reveal_strlit(".rs");
    }
    let suffix = chars_of_str(".rs");
    name.len() > 3 && ends_with_chars(&name, &suffix)
}

/// The views of a sequence of character vectors.
pub open spec fn views_of(s: Seq<Vec<char>>) -> Seq<Seq<char>> {
    s.map_values(|v: Vec<char>| v@)
}

/// The segments joined by `sep`.
pub fn join_with(segs: &Vec<Vec<char>>, sep: char) -> (r: Vec<char>)
    ensures
        r@ == spec_join_with(views_of(segs@), sep),
{
    let mut r: Vec<char> = Vec::new();
    let mut i: usize = 0;
    while i < segs.len()
        invariant
            i <= segs@.len(),
            r@ == spec_join_with(views_of(segs@).subrange(0, i as int), sep),
        decreases segs@.len() - i,
    {
        if i > 0 {
            r.push(sep);
        }
        crate::chars::push_all(&mut r, &segs[i]);
        proof {
            let vs = views_of(segs@);
            assert(vs.subrange(0, i + 1).drop_last() =~= vs.subrange(0, i as int));
            assert(vs.subrange(0, i + 1).last() == segs@[i as int]@);
            if i == 0 {
                assert(r@ =~= vs.subrange(0, 1)[0]);
            } else {
                assert(r@ =~= spec_join_with(vs.subrange(0, i as int), sep).push(sep)
                    + segs@[i as int]@);
            }
        }
        i = i + 1;
    }
    proof {
        assert(views_of(segs@).subrange(0, segs@.len() as int) =~= views_of(segs@));
    }
    r
}

/// Joins every segment in turn onto `base`.
pub fn append_segments(base: &Vec<char>, segs: &Vec<Vec<char>>) -> (r: Vec<char>)
    ensures
        r@ == spec_append_segments(base@, views_of(segs@)),
{
    let mut r = copy_range(base, 0, base.len());
    let mut i: usize = 0;
    while i < segs.len()
        invariant
            i <= segs@.len(),
            r@ == spec_append_segments(base@, views_of(segs@).subrange(0, i as int)),
        decreases segs@.len() - i,
    {
        let joined = join_path(&r, &segs[i]);
        r = joined;
        proof {
            let vs = views_of(segs@);
            assert(vs.subrange(0, i + 1).drop_last() =~= vs.subrange(0, i as int));
            assert(vs.subrange(0, i + 1).last() == segs@[i as int]@);
        }
        i = i + 1;
    }
    proof {
        assert(views_of(segs@).subrange(0, segs@.len() as int) =~= views_of(segs@));
    }
    r
}

/// Whether the first `plen` characters of `p` are a prefix of `v`.
fn starts_with_range(v: &Vec<char>, p: &Vec<char>, plen: usize) -> (r: bool)
    requires
        plen <= p@.len(),
    ensures
        r == (v@.len() >= plen && v@.subrange(0, plen as int) == p@.subrange(0, plen as int)),
{
    if v.len() < plen {
        return false;
    }
    let mut i: usize = 0;
    while i < plen
        invariant
            i <= plen <= p@.len(),
            plen <= v@.len(),
            forall|j: int| 0 <= j < i ==> v@[j] == p@[j],
        decreases plen - i,
    {
        if v[i] != p[i] {
            proof {
                assert(v@.subrange(0, plen as int)[i as int] == v@[i as int]);
                assert(p@.subrange(0, plen as int)[i as int] == p@[i as int]);
            }
            return false;
        }
        i = i + 1;
    }
    proof {
        assert(v@.subrange(0, plen as int) =~= p@.subrange(0, plen as int));
    }
    true
}

/// Strips `base` off the front of `path`, component-wise.
pub fn strip_root_chars(path: &Vec<char>, base: &Vec<char>) -> (r: Option<Vec<char>>)
    ensures
        match r {
            Some(v) => spec_strip_root(path@, base@) == Some(v@),
            None => spec_strip_root(path@, base@) is None,
        },
{
    let mut blen: usize = base.len();
    proof {
        assert(base@.subrange(0, blen as int) =~= base@);
    }
    while blen > 0 && base[blen - 1] == '/'
        invariant
            blen <= base@.len(),
            spec_strip_root(path@, base@) == spec_strip_root(path@, base@.subrange(0, blen as int)),
        decreases blen,
    {
        proof {
            assert(base@.subrange(0, blen as int).drop_last() =~= base@.subrange(0, blen - 1));
        }
        blen = blen - 1;
    }
    let ghost b = base@.subrange(0, blen as int);
    if blen == 0 {
        return Some(copy_range(path, 0, path.len()));
    }
    if starts_with_range(path, base, blen) {
        if path.len() == blen {
            proof {
                assert(path@.subrange(0, blen as int) =~= path@);
                assert(path@ == b);
            }
            return Some(Vec::new());
        }
        if path[blen] == '/' {
            proof {
                assert(path@ != b);
                assert(path@.subrange(0, blen as int + 1) =~= b.push('/'));
                assert(spec_starts_with(path@, b.push('/')));
            }
            return Some(copy_range(path, blen + 1, path.len()));
        }
        proof {
            assert(path@ != b);
            if spec_starts_with(path@, b.push('/')) {
                assert(path@.subrange(0, blen as int + 1) == b.push('/'));
                assert(path@.subrange(0, blen as int + 1)[blen as int] == path@[blen as int]);
                assert(b.push('/')[blen as int] == '/');
                assert(false);
            }
        }
        return None;
    }
    proof {
        if path@ == b {
            assert(path@.len() == blen);
            assert(path@.subrange(0, blen as int) =~= path@);
            assert(path@.subrange(0, blen as int) == base@.subrange(0, blen as int));
            assert(false);
        }
        if spec_starts_with(path@, b.push('/')) {
            assert(path@.subrange(0, blen as int + 1) == b.push('/'));
            assert forall|j: int| 0 <= j < blen implies path@.subrange(0, blen as int)[j] == b[j]
                by {
                assert(path@.subrange(0, blen as int)[j] == path@[j]);
                assert(path@.subrange(0, blen as int + 1)[j] == path@[j]);
                assert(b.push('/')[j] == b[j]);
            }
            assert(path@.subrange(0, blen as int) =~= b);
            assert(path@.len() >= blen);
            assert(false);
        }
    }
    None
}

/// Joins a directory and a further component with `/`.
pub fn join_path(dir: &Vec<char>, rest: &Vec<char>) -> (r: Vec<char>)
    ensures
        r@ == spec_join_path(dir@, rest@),
{
    if dir.len() == 0 {
        copy_range(rest, 0, rest.len())
    } else {
        let mut r = copy_range(dir, 0, dir.len());
        r.push('/');
        crate::chars::push_all(&mut r, rest);
        proof {
            assert(r@ =~= dir@.push('/') + rest@);
        }
        r
    }
}

} // verus!
