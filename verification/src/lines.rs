//! Counting the lines of a source text that carry code: blank lines,
//! line-comment-only lines and the interiors of block comments do not count.

use vstd::prelude::*;
use crate::chars::{chars_of_str, copy_range, spec_starts_with};

verus! {

/// ASCII whitespace.
pub open spec fn spec_is_ws(c: char) -> bool {
    c == ' ' || c == '\t' || c == '\r' || c == '\n' || c == '\u{0B}' || c == '\u{0C}'
}

/// The index of the first character that is not whitespace; the length if
/// every character is whitespace.
pub open spec fn spec_first_non_ws(s: Seq<char>) -> int
    decreases s.len(),
{
    if s.len() == 0 {
        0
    } else if !spec_is_ws(s[0]) {
        0
    } else {
        1 + spec_first_non_ws(s.drop_first())
    }
}

pub proof fn lemma_first_non_ws_bounds(s: Seq<char>)
    ensures
        0 <= spec_first_non_ws(s) <= s.len(),
    decreases s.len(),
{
    if s.len() > 0 && spec_is_ws(s[0]) {
        lemma_first_non_ws_bounds(s.drop_first());
    }
}

/// The sequence with leading whitespace removed.
pub open spec fn spec_trim_start(s: Seq<char>) -> Seq<char> {
    s.subrange(spec_first_non_ws(s), s.len() as int)
}

/// One past the index of the last character that is not whitespace; 0 if
/// every character is whitespace.
pub open spec fn spec_last_non_ws_end(s: Seq<char>) -> int
    decreases s.len(),
{
    if s.len() == 0 {
        0
    } else if !spec_is_ws(s[s.len() - 1]) {
        s.len() as int
    } else {
        spec_last_non_ws_end(s.drop_last())
    }
}

/// The sequence with trailing whitespace removed.
pub open spec fn spec_trim_end(s: Seq<char>) -> Seq<char> {
    s.subrange(0, spec_last_non_ws_end(s))
}

/// The sequence with leading and trailing whitespace removed.
pub open spec fn spec_trim(s: Seq<char>) -> Seq<char> {
    spec_trim_end(spec_trim_start(s))
}

/// The first index where the two-character pattern `a b` occurs, or -1.
pub open spec fn spec_find2(s: Seq<char>, a: char, b: char) -> int
    decreases s.len(),
{
    if s.len() < 2 {
        -1
    } else if s[0] == a && s[1] == b {
        0
    } else if spec_find2(s.drop_first(), a, b) < 0 {
        -1
    } else {
        1 + spec_find2(s.drop_first(), a, b)
    }
}

pub proof fn lemma_find2_char(s: Seq<char>, a: char, b: char)
    ensures
        spec_find2(s, a, b) == -1 ==> forall|i: int|
            0 <= i < s.len() - 1 ==> !(#[trigger] s[i] == a && s[i + 1] == b),
        spec_find2(s, a, b) >= 0 ==> {
            let r = spec_find2(s, a, b);
            &&& r < s.len() - 1
            &&& s[r] == a
            &&& s[r + 1] == b
            &&& forall|i: int| 0 <= i < r ==> !(#[trigger] s[i] == a && s[i + 1] == b)
        },
    decreases s.len(),
{
    if s.len() >= 2 && !(s[0] == a && s[1] == b) {
        let t = s.drop_first();
        lemma_find2_char(t, a, b);
        let r = spec_find2(s, a, b);
        let rt = spec_find2(t, a, b);
        if rt < 0 {
            assert forall|i: int|
                0 <= i < s.len() - 1 implies !(#[trigger] s[i] == a && s[i + 1] == b) by {
                if i > 0 {
                    assert(t[i - 1] == s[i] && t[i] == s[i + 1]);
                    assert(!(t[i - 1] == a && t[i] == b));
                }
            }
        } else {
            assert(r == 1 + rt);
            assert(s[r] == t[rt] && s[r + 1] == t[rt + 1]);
            assert forall|i: int| 0 <= i < r implies !(#[trigger] s[i] == a && s[i + 1] == b) by {
                if i > 0 {
                    assert(t[i - 1] == s[i] && t[i] == s[i + 1]);
                    assert(!(t[i - 1] == a && t[i] == b));
                }
            }
        }
    }
}

/// Scanning the remainder of one line, in the manner of the executable
/// classifier: inside a block comment, look for `*/`; outside one, a `/*`
/// opens a block (code before it counts unless it is itself a line comment),
/// a `//` ends the scan (code before it counts), and otherwise any non-blank
/// remainder counts as code. Returns (line has code, block-comment state).
pub open spec fn spec_scan(seg: Seq<char>, in_block: bool, has_code: bool) -> (bool, bool)
    decreases seg.len(), (if in_block { 0int } else { 1int }),
    via spec_scan_decreases
{
    if seg.len() == 0 {
        (has_code, in_block)
    } else if in_block {
        let e = spec_find2(seg, '*', '/');
        if e < 0 {
            (has_code, true)
        } else {
            spec_scan(spec_trim_start(seg.subrange(e + 2, seg.len() as int)), false, has_code)
        }
    } else {
        let bidx = spec_find2(seg, '/', '*');
        if bidx >= 0 {
            let before = spec_trim(seg.subrange(0, bidx));
            let hc = has_code || (before.len() > 0 && !spec_starts_with(before, "//"@));
            spec_scan(seg.subrange(bidx, seg.len() as int), true, hc)
        } else {
            let lidx = spec_find2(seg, '/', '/');
            if lidx >= 0 {
                let before = spec_trim(seg.subrange(0, lidx));
                (has_code || before.len() > 0, false)
            } else {
                (has_code || spec_trim(seg).len() > 0, false)
            }
        }
    }
}

#[via_fn]
proof fn spec_scan_decreases(seg: Seq<char>, in_block: bool, has_code: bool) {
    if seg.len() > 0 {
        if in_block {
            let e = spec_find2(seg, '*', '/');
            if e >= 0 {
                lemma_find2_char(seg, '*', '/');
                lemma_first_non_ws_bounds(seg.subrange(e + 2, seg.len() as int));
            }
        } else {
            let bidx = spec_find2(seg, '/', '*');
            if bidx >= 0 {
                lemma_find2_char(seg, '/', '*');
            }
        }
    }
}

/// Whether one line carries code, and the block-comment state after it.
/// A line that is entirely whitespace is skipped and leaves the state alone.
pub open spec fn spec_process_line(line: Seq<char>, in_block: bool) -> (bool, bool) {
    let t = spec_trim_start(line);
    if t.len() == 0 {
        (false, in_block)
    } else {
        spec_scan(t, in_block, false)
    }
}

/// The index of the first occurrence of `c`, or -1.
pub open spec fn spec_find_char(s: Seq<char>, c: char) -> int
    decreases s.len(),
{
    if s.len() == 0 {
        -1
    } else if s[0] == c {
        0
    } else if spec_find_char(s.drop_first(), c) < 0 {
        -1
    } else {
        1 + spec_find_char(s.drop_first(), c)
    }
}

pub proof fn lemma_find_char_char(s: Seq<char>, c: char)
    ensures
        spec_find_char(s, c) == -1 ==> forall|i: int| 0 <= i < s.len() ==> #[trigger] s[i] != c,
        spec_find_char(s, c) >= 0 ==> {
            let r = spec_find_char(s, c);
            &&& r < s.len()
            &&& s[r] == c
            &&& forall|i: int| 0 <= i < r ==> #[trigger] s[i] != c
        },
    decreases s.len(),
{
    if s.len() > 0 && s[0] != c {
        let t = s.drop_first();
        lemma_find_char_char(t, c);
        let r = spec_find_char(s, c);
        let rt = spec_find_char(t, c);
        if rt < 0 {
            assert forall|i: int| 0 <= i < s.len() implies #[trigger] s[i] != c by {
                if i > 0 {
                    assert(t[i - 1] == s[i]);
                    assert(t[i - 1] != c);
                }
            }
        } else {
            assert(r == 1 + rt);
            assert(s[r] == t[rt]);
            assert forall|i: int| 0 <= i < r implies #[trigger] s[i] != c by {
                if i > 0 {
                    assert(t[i - 1] == s[i]);
                    assert(t[i - 1] != c);
                }
            }
        }
    }
}

/// The lines of a text, split at `\n`; a trailing newline yields no final
/// empty line.
pub open spec fn spec_lines(s: Seq<char>) -> Seq<Seq<char>>
    decreases s.len(),
    via spec_lines_decreases
{
    if s.len() == 0 {
        Seq::empty()
    } else {
        let i = spec_find_char(s, '\n');
        if i < 0 {
            seq![s]
        } else {
            seq![s.subrange(0, i)] + spec_lines(s.subrange(i + 1, s.len() as int))
        }
    }
}

#[via_fn]
proof fn spec_lines_decreases(s: Seq<char>) {
    if s.len() > 0 {
        let i = spec_find_char(s, '\n');
        if i >= 0 {
            lemma_find_char_char(s, '\n');
        }
    }
}

/// The number of code-carrying lines in a list of lines, starting in the
/// given block-comment state.
pub open spec fn spec_count_from(lines: Seq<Seq<char>>, in_block: bool) -> nat
    decreases lines.len(),
{
    if lines.len() == 0 {
        0
    } else {
        let r = spec_process_line(lines[0], in_block);
        (if r.0 {
            1nat
        } else {
            0nat
        }) + spec_count_from(lines.drop_first(), r.1)
    }
}

/// The number of non-comment, non-blank lines of the text.
pub open spec fn spec_count_code_lines(s: Seq<char>) -> nat {
    spec_count_from(spec_lines(s), false)
}

fn is_ws(c: char) -> (r: bool)
    ensures
        r == spec_is_ws(c),
{
    c == ' ' || c == '\t' || c == '\r' || c == '\n' || c == '\u{0B}' || c == '\u{0C}'
}

fn first_non_ws(v: &Vec<char>) -> (r: usize)
    ensures
        r as int == spec_first_non_ws(v@),
        r <= v@.len(),
{
    let n = v.len();
    let mut i: usize = 0;
    proof {
        assert(v@.subrange(0, n as int) =~= v@);
    }
    while i < n && is_ws_at(v, i)
        invariant
            i <= n,
            n == v@.len(),
            spec_first_non_ws(v@) == i + spec_first_non_ws(v@.subrange(i as int, n as int)),
        decreases n - i,
    {
        proof {
            let suf = v@.subrange(i as int, n as int);
            assert(suf[0] == v@[i as int]);
            assert(suf.drop_first() =~= v@.subrange(i + 1, n as int));
        }
        i = i + 1;
    }
    proof {
        let suf = v@.subrange(i as int, n as int);
        if i < n {
            assert(suf[0] == v@[i as int]);
        }
        assert(spec_first_non_ws(suf) == 0);
    }
    i
}

fn is_ws_at(v: &Vec<char>, i: usize) -> (r: bool)
    requires
        i < v@.len(),
    ensures
        r == spec_is_ws(v@[i as int]),
{
    is_ws(v[i])
}

pub fn trim_start_vec(v: &Vec<char>) -> (r: Vec<char>)
    ensures
        r@ == spec_trim_start(v@),
{
    let i = first_non_ws(v);
    copy_range(v, i, v.len())
}

fn last_non_ws_end(v: &Vec<char>) -> (r: usize)
    ensures
        r as int == spec_last_non_ws_end(v@),
        r <= v@.len(),
{
    let mut i: usize = v.len();
    proof {
        assert(v@.subrange(0, v@.len() as int) =~= v@);
    }
    while i > 0 && is_ws_at(v, i - 1)
        invariant
            i <= v@.len(),
            spec_last_non_ws_end(v@) == spec_last_non_ws_end(v@.subrange(0, i as int)),
        decreases i,
    {
        proof {
            assert(v@.subrange(0, i as int).drop_last() =~= v@.subrange(0, i - 1));
        }
        i = i - 1;
    }
    i
}

pub fn trim_vec(v: &Vec<char>) -> (r: Vec<char>)
    ensures
        r@ == spec_trim(v@),
{
    let ts = trim_start_vec(v);
    let e = last_non_ws_end(&ts);
    copy_range(&ts, 0, e)
}

fn find2(v: &Vec<char>, a: char, b: char) -> (r: Option<usize>)
    ensures
        match r {
            Some(i) => spec_find2(v@, a, b) == i as int && i + 1 < v@.len(),
            None => spec_find2(v@, a, b) == -1,
        },
{
    proof {
        lemma_find2_char(v@, a, b);
    }
    let n = v.len();
    if n < 2 {
        return None;
    }
    let mut i: usize = 0;
    while i < n - 1
        invariant
            i <= n - 1,
            n == v@.len(),
            n >= 2,
            forall|j: int| 0 <= j < i ==> !(#[trigger] v@[j] == a && v@[j + 1] == b),
            spec_find2(v@, a, b) == -1 || spec_find2(v@, a, b) >= 0,
        decreases n - i,
    {
        if v[i] == a && v[i + 1] == b {
            proof {
                lemma_find2_char(v@, a, b);
                let r = spec_find2(v@, a, b);
                if r == -1 {
                    assert(!(v@[i as int] == a && v@[i as int + 1] == b));
                }
                if r >= 0 && r < i {
                    assert(!(v@[r] == a && v@[r + 1] == b));
                }
                if r > i {
                    assert(!(v@[i as int] == a && v@[i as int + 1] == b));
                }
            }
            return Some(i);
        }
        i = i + 1;
    }
    proof {
        lemma_find2_char(v@, a, b);
        let r = spec_find2(v@, a, b);
        if r >= 0 {
            assert(!(v@[r] == a && v@[r + 1] == b));
        }
    }
    None
}

fn find_char_from(v: &Vec<char>, c: char, from: usize) -> (r: Option<usize>)
    requires
        from <= v@.len(),
    ensures
        match r {
            Some(i) => from <= i < v@.len() && spec_find_char(
                v@.subrange(from as int, v@.len() as int),
                c,
            ) == i - from,
            None => spec_find_char(v@.subrange(from as int, v@.len() as int), c) == -1,
        },
{
    let ghost suf = v@.subrange(from as int, v@.len() as int);
    proof {
        lemma_find_char_char(suf, c);
    }
    let n = v.len();
    let mut i: usize = from;
    while i < n
        invariant
            from <= i <= n,
            n == v@.len(),
            suf == v@.subrange(from as int, n as int),
            forall|j: int| 0 <= j < i - from ==> suf[j] != c,
        decreases n - i,
    {
        proof {
            assert(suf[i - from] == v@[i as int]);
        }
        if v[i] == c {
            proof {
                lemma_find_char_char(suf, c);
                let r = spec_find_char(suf, c);
                if r == -1 {
                    assert(suf[i - from] != c);
                }
                if 0 <= r < i - from {
                    assert(suf[r] != c);
                }
                if r > i - from {
                    assert(suf[i - from] != c);
                }
            }
            return Some(i);
        }
        i = i + 1;
    }
    proof {
        lemma_find_char_char(suf, c);
        let r = spec_find_char(suf, c);
        if r >= 0 {
            assert(suf[r] != c);
        }
    }
    None
}

/// Splits a text into its lines.
fn split_lines(content: &Vec<char>) -> (lines: Vec<Vec<char>>)
    ensures
        crate::paths::views_of(lines@) == spec_lines(content@),
{
    let n = content.len();
    let mut lines: Vec<Vec<char>> = Vec::new();
    let mut p: usize = 0;
    proof {
        assert(content@.subrange(0, n as int) =~= content@);
    }
    while p < n
        invariant
            p <= n,
            n == content@.len(),
            spec_lines(content@) == crate::paths::views_of(lines@) + spec_lines(
                content@.subrange(p as int, n as int),
            ),
        decreases n - p,
    {
        let ghost suf = content@.subrange(p as int, n as int);
        match find_char_from(content, '\n', p) {
            Some(i) => {
                let line = copy_range(content, p, i);
                lines.push(line);
                proof {
                    assert(suf.subrange(0, i - p) =~= content@.subrange(p as int, i as int));
                    assert(suf.subrange(i - p + 1, suf.len() as int) =~= content@.subrange(
                        i + 1,
                        n as int,
                    ));
                    assert(crate::paths::views_of(lines@) =~= crate::paths::views_of(
                        lines@.drop_last(),
                    ) + seq![content@.subrange(p as int, i as int)]);
                    assert(crate::paths::views_of(lines@.drop_last()) + (seq![
                        content@.subrange(p as int, i as int),
                    ] + spec_lines(content@.subrange(i + 1, n as int))) =~= (crate::paths::views_of(
                        lines@.drop_last(),
                    ) + seq![content@.subrange(p as int, i as int)]) + spec_lines(
                        content@.subrange(i + 1, n as int),
                    ));
                }
                p = i + 1;
            },
            None => {
                let line = copy_range(content, p, n);
                lines.push(line);
                proof {
                    assert(suf.len() > 0);
                    assert(crate::paths::views_of(lines@) =~= crate::paths::views_of(
                        lines@.drop_last(),
                    ) + seq![suf]);
                    assert(content@.subrange(n as int, n as int) =~= Seq::<char>::empty());
                    assert(crate::paths::views_of(lines@.drop_last()) + seq![suf] =~= crate::paths::views_of(
                        lines@.drop_last(),
                    ) + (seq![suf] + spec_lines(content@.subrange(n as int, n as int))));
                }
                p = n;
            },
        }
    }
    proof {
        assert(content@.subrange(n as int, n as int) =~= Seq::<char>::empty());
        assert(crate::paths::views_of(lines@) + Seq::<Seq<char>>::empty() =~= crate::paths::views_of(
            lines@,
        ));
    }
    lines
}

/// Scans one line as the classifier does.
fn process_line(line: &Vec<char>, in_block: bool) -> (r: (bool, bool))
    ensures
        r == spec_process_line(line@, in_block),
{
    let t0 = trim_start_vec(line);
    if t0.len() == 0 {
        return (false, in_block);
    }
    let mut seg = t0;
    let mut hc = false;
    let mut ib = in_block;
    let ghost orig = spec_process_line(line@, in_block);
    while seg.len() > 0
        invariant
            spec_scan(seg@, ib, hc) == orig,
        decreases seg@.len(), (if ib { 0int } else { 1int }),
    {
        if ib {
            match find2(&seg, '*', '/') {
                Some(e) => {
                    let rest = copy_range(&seg, e + 2, seg.len());
                    let next = trim_start_vec(&rest);
                    proof {
                        lemma_first_non_ws_bounds(rest@);
                    }
                    seg = next;
                    ib = false;
                },
                None => {
                    seg = Vec::new();
                },
            }
        } else {
            match find2(&seg, '/', '*') {
                Some(bidx) => {
                    let before_raw = copy_range(&seg, 0, bidx);
                    let before = trim_vec(&before_raw);
                    proof {
                        reveal_strlit("//");
                    }
                    let is_line_comment = before.len() >= 2 && before[0] == '/' && before[1] == '/';
                    proof {
                        if before@.len() >= 2 {
                            assert(before@.subrange(0, 2) =~= seq![before@[0], before@[1]]);
                            assert("//"@.len() == 2);
                            if before@[0] == '/' && before@[1] == '/' {
                                assert(before@.subrange(0, 2) =~= "//"@);
                            } else {
                                assert(before@.subrange(0, 2) != "//"@);
                            }
                        }
                    }
                    if before.len() > 0 && !is_line_comment {
                        hc = true;
                    }
                    let next = copy_range(&seg, bidx, seg.len());
                    seg = next;
                    ib = true;
                },
                None => {
                    match find2(&seg, '/', '/') {
                        Some(lidx) => {
                            let before_raw = copy_range(&seg, 0, lidx);
                            let before = trim_vec(&before_raw);
                            if before.len() > 0 {
                                hc = true;
                            }
                            seg = Vec::new();
                        },
                        None => {
                            let t = trim_vec(&seg);
                            if t.len() > 0 {
                                hc = true;
                            }
                            seg = Vec::new();
                        },
                    }
                },
            }
        }
    }
    (hc, ib)
}

/// The number of non-comment, non-blank lines of `content`.
pub fn count_code_lines(content: &str) -> (n: usize)
    ensures
        n as nat == spec_count_code_lines(content@),
{
    let chars = chars_of_str(content);
    let lines = split_lines(&chars);
    let ghost lviews = crate::paths::views_of(lines@);
    let mut count: usize = 0;
    let mut in_block = false;
    let mut li: usize = 0;
    proof {
        assert(lviews.subrange(0, lviews.len() as int) =~= lviews);
        assert(lviews.subrange(li as int, lviews.len() as int) =~= lviews);
    }
    while li < lines.len()
        invariant
            li <= lines@.len(),
            count <= li,
            lviews == crate::paths::views_of(lines@),
            spec_count_code_lines(content@) == count + spec_count_from(
                lviews.subrange(li as int, lviews.len() as int),
                in_block,
            ),
        decreases lines@.len() - li,
    {
        let r = process_line(&lines[li], in_block);
        proof {
            let rem = lviews.subrange(li as int, lviews.len() as int);
            assert(rem[0] == lines@[li as int]@);
            assert(rem.drop_first() =~= lviews.subrange(li + 1, lviews.len() as int));
        }
        if r.0 {
            count = count + 1;
        }
        in_block = r.1;
        li = li + 1;
    }
    proof {
        assert(lviews.subrange(lviews.len() as int, lviews.len() as int)
            =~= Seq::<Seq<char>>::empty());
    }
    count
}

} // verus!
