//! Interactions: what one file does with another (an import of a symbol, or
//! a module declaration), and ordered duplicate-free interaction sets.

use vstd::prelude::*;
use crate::chars::{
    chars_eq, chars_lt, copy_range, lemma_chars_lt_trans, lemma_chars_lt_trichotomy, spec_chars_lt,
};

verus! {

/// The kind of an interaction along an edge.
#[derive(PartialEq, Eq, Structural, Clone, Copy, Debug)]
pub enum InteractionKind {
    Import,
    ModuleDecl,
}

/// One interaction of the public graph: the kind, and the name of the
/// imported symbol or declared module.
#[derive(Debug, Clone, PartialEq, Eq)]
pub struct Interaction {
    pub kind: InteractionKind,
    pub name: String,
}

/// An interaction during analysis, its name as a character vector.
pub struct Inter {
    pub kind: InteractionKind,
    pub name: Vec<char>,
}

/// The mathematical shape of an interaction.
pub ghost struct InterView {
    pub kind: InteractionKind,
    pub name: Seq<char>,
}

pub open spec fn inter_view(i: Inter) -> InterView {
    InterView { kind: i.kind, name: i.name@ }
}

pub open spec fn inters_view(s: Seq<Inter>) -> Seq<InterView> {
    s.map_values(|i: Inter| inter_view(i))
}

pub open spec fn interaction_view(i: Interaction) -> InterView {
    InterView { kind: i.kind, name: i.name@ }
}

pub open spec fn interactions_view(s: Seq<Interaction>) -> Seq<InterView> {
    s.map_values(|i: Interaction| interaction_view(i))
}

/// Imports order before module declarations of the same name.
pub open spec fn spec_kind_rank(k: InteractionKind) -> int {
    match k {
        InteractionKind::Import => 0,
        InteractionKind::ModuleDecl => 1,
    }
}

/// The strict order on interactions: by name first, then by kind.
pub open spec fn spec_inter_lt(a: InterView, b: InterView) -> bool {
    spec_chars_lt(a.name, b.name) || (a.name == b.name && spec_kind_rank(a.kind) < spec_kind_rank(
        b.kind,
    ))
}

/// A strictly ascending interaction list: sorted by (name, kind) with no
/// duplicate (kind, name) pair.
pub open spec fn spec_sorted_inters(s: Seq<InterView>) -> bool {
    forall|i: int| 0 <= i < s.len() - 1 ==> spec_inter_lt(#[trigger] s[i], s[i + 1])
}

pub proof fn lemma_inter_lt_trichotomy(a: InterView, b: InterView)
    ensures
        spec_inter_lt(a, b) || spec_inter_lt(b, a) || a == b,
        spec_inter_lt(a, b) ==> !spec_inter_lt(b, a) && a != b,
        spec_inter_lt(b, a) ==> !spec_inter_lt(a, b) && a != b,
{
    lemma_chars_lt_trichotomy(a.name, b.name);
}

pub proof fn lemma_inter_lt_trans(a: InterView, b: InterView, c: InterView)
    requires
        spec_inter_lt(a, b),
        spec_inter_lt(b, c),
    ensures
        spec_inter_lt(a, c),
{
    lemma_chars_lt_trichotomy(a.name, b.name);
    lemma_chars_lt_trichotomy(b.name, c.name);
    if spec_chars_lt(a.name, b.name) && spec_chars_lt(b.name, c.name) {
        lemma_chars_lt_trans(a.name, b.name, c.name);
    }
}

/// In a strictly ascending list every pair of positions ascends, so no two
/// positions carry the same (kind, name) pair.
pub proof fn lemma_sorted_inters_strict(s: Seq<InterView>)
    requires
        spec_sorted_inters(s),
    ensures
        forall|i: int, j: int|
            0 <= i < j < s.len() ==> spec_inter_lt(#[trigger] s[i], #[trigger] s[j]),
        forall|i: int, j: int| 0 <= i < j < s.len() ==> #[trigger] s[i] != #[trigger] s[j],
    decreases s.len(),
{
    if s.len() > 1 {
        lemma_sorted_inters_strict(s.drop_first());
        assert forall|i: int, j: int|
            0 <= i < j < s.len() implies spec_inter_lt(#[trigger] s[i], #[trigger] s[j]) by {
            let t = s.drop_first();
            if i == 0 {
                if j == 1 {
                    assert(spec_inter_lt(s[0], s[1]));
                } else {
                    assert(spec_inter_lt(t[0], t[j - 1]));
                    assert(spec_inter_lt(s[0], s[1]));
                    lemma_inter_lt_trans(s[0], s[1], s[j]);
                }
            } else {
                assert(spec_inter_lt(t[i - 1], t[j - 1]));
            }
        }
        assert forall|i: int, j: int| 0 <= i < j < s.len() implies #[trigger] s[i]
            != #[trigger] s[j] by {
            lemma_inter_lt_trichotomy(s[i], s[j]);
        }
    }
}

/// Inserting into an ascending list: before the first larger element, and
/// absorbed without change if the same pair is already present.
pub open spec fn spec_insert_inter(s: Seq<InterView>, x: InterView) -> Seq<InterView>
    decreases s.len(),
{
    if s.len() == 0 {
        seq![x]
    } else if spec_inter_lt(x, s[0]) {
        seq![x] + s
    } else if x == s[0] {
        s
    } else {
        seq![s[0]] + spec_insert_inter(s.drop_first(), x)
    }
}

/// Inserting keeps the list strictly ascending.
pub proof fn lemma_insert_inter_sorted(s: Seq<InterView>, x: InterView)
    requires
        spec_sorted_inters(s),
    ensures
        spec_sorted_inters(spec_insert_inter(s, x)),
        spec_insert_inter(s, x).len() >= s.len(),
        spec_insert_inter(s, x).len() <= s.len() + 1,
        spec_insert_inter(s, x).len() > 0,
    decreases s.len(),
{
    lemma_inter_lt_trichotomy(x, s[0]);
    if s.len() == 0 {
    } else if spec_inter_lt(x, s[0]) {
        let r = seq![x] + s;
        assert forall|i: int| 0 <= i < r.len() - 1 implies spec_inter_lt(
            #[trigger] r[i],
            r[i + 1],
        ) by {
            if i > 0 {
                assert(spec_inter_lt(s[i - 1], s[i]));
            }
        }
    } else if x == s[0] {
    } else {
        let t = s.drop_first();
        assert forall|i: int| 0 <= i < t.len() - 1 implies spec_inter_lt(
            #[trigger] t[i],
            t[i + 1],
        ) by {
            assert(spec_inter_lt(s[i + 1], s[i + 2]));
        }
        lemma_insert_inter_sorted(t, x);
        let rt = spec_insert_inter(t, x);
        let r = seq![s[0]] + rt;
        assert(spec_inter_lt(s[0], x));
        assert forall|i: int| 0 <= i < r.len() - 1 implies spec_inter_lt(
            #[trigger] r[i],
            r[i + 1],
        ) by {
            if i == 0 {
                if t.len() == 0 {
                    assert(rt == seq![x]);
                    assert(r[1] == x);
                } else {
                    lemma_inter_lt_trichotomy(x, t[0]);
                    assert(spec_inter_lt(s[0], s[1]));
                    if spec_inter_lt(x, t[0]) {
                        assert(r[1] == x);
                    } else if x == t[0] {
                        assert(r[1] == t[0]);
                    } else {
                        assert(r[1] == t[0]);
                    }
                }
            } else {
                assert(spec_inter_lt(rt[i - 1], rt[i]));
            }
        }
    }
}

/// Merging one list into another by repeated insertion, in order.
pub open spec fn spec_merge_inters(d: Seq<InterView>, s: Seq<InterView>) -> Seq<InterView>
    decreases s.len(),
{
    if s.len() == 0 {
        d
    } else {
        spec_merge_inters(spec_insert_inter(d, s[0]), s.drop_first())
    }
}

/// Merging keeps the list strictly ascending.
pub proof fn lemma_merge_inters_sorted(d: Seq<InterView>, s: Seq<InterView>)
    requires
        spec_sorted_inters(d),
    ensures
        spec_sorted_inters(spec_merge_inters(d, s)),
    decreases s.len(),
{
    if s.len() > 0 {
        lemma_insert_inter_sorted(d, s[0]);
        lemma_merge_inters_sorted(spec_insert_inter(d, s[0]), s.drop_first());
    }
}

/// A fresh copy of one interaction.
pub fn copy_inter(i: &Inter) -> (r: Inter)
    ensures
        inter_view(r) == inter_view(*i),
{
    let c = copy_range(&i.name, 0, i.name.len());
    proof {
        assert(c@ =~= i.name@);
    }
    Inter { kind: i.kind, name: c }
}

/// A fresh copy of an interaction list.
pub fn copy_inters(v: &Vec<Inter>) -> (r: Vec<Inter>)
    ensures
        inters_view(r@) == inters_view(v@),
{
    let mut r: Vec<Inter> = Vec::new();
    let mut i: usize = 0;
    while i < v.len()
        invariant
            i <= v@.len(),
            inters_view(r@) == inters_view(v@).subrange(0, i as int),
        decreases v@.len() - i,
    {
        let c = copy_inter(&v[i]);
        let ghost old_r = r@;
        r.push(c);
        proof {
            assert(inters_view(old_r).len() == old_r.len());
            assert forall|j: int| 0 <= j < i + 1 implies inters_view(r@)[j] == inters_view(
                v@,
            ).subrange(0, i + 1)[j] by {
                if j < i {
                    assert(r@[j] == old_r[j]);
                    assert(inters_view(old_r)[j] == inter_view(old_r[j]));
                    assert(inters_view(v@).subrange(0, i as int)[j] == inters_view(v@)[j]);
                }
            }
            assert(inters_view(r@) =~= inters_view(v@).subrange(0, i + 1));
        }
        i = i + 1;
    }
    proof {
        assert(inters_view(v@).subrange(0, v@.len() as int) =~= inters_view(v@));
    }
    r
}

fn inter_lt(a: &Inter, b: &Inter) -> (r: bool)
    ensures
        r == spec_inter_lt(inter_view(*a), inter_view(*b)),
{
    if chars_lt(&a.name, &b.name) {
        true
    } else if chars_eq(&a.name, &b.name) {
        let ar: u8 = match a.kind {
            InteractionKind::Import => 0,
            InteractionKind::ModuleDecl => 1,
        };
        let br: u8 = match b.kind {
            InteractionKind::Import => 0,
            InteractionKind::ModuleDecl => 1,
        };
        ar < br
    } else {
        false
    }
}

fn inter_eq(a: &Inter, b: &Inter) -> (r: bool)
    ensures
        r == (inter_view(*a) == inter_view(*b)),
{
    let ke = match (a.kind, b.kind) {
        (InteractionKind::Import, InteractionKind::Import) => true,
        (InteractionKind::ModuleDecl, InteractionKind::ModuleDecl) => true,
        _ => false,
    };
    ke && chars_eq(&a.name, &b.name)
}

/// Inserts an interaction into an ascending list, keeping it ascending.
pub fn insert_inter(set: &mut Vec<Inter>, x: Inter)
    ensures
        inters_view(final(set)@) == spec_insert_inter(inters_view(old(set)@), inter_view(x)),
{
    let ghost s0 = inters_view(old(set)@);
    let ghost xv = inter_view(x);
    let n = set.len();
    let mut i: usize = 0;
    proof {
        assert(s0.subrange(0, 0) =~= Seq::<InterView>::empty());
        assert(s0.subrange(0, n as int) =~= s0);
    }
    while i < n && inter_lt(&set[i], &x)
        invariant
            i <= n,
            n == set@.len(),
            inters_view(set@) == s0,
            xv == inter_view(x),
            spec_insert_inter(s0, xv) == s0.subrange(0, i as int) + spec_insert_inter(
                s0.subrange(i as int, n as int),
                xv,
            ),
            forall|j: int| 0 <= j < i ==> spec_inter_lt(#[trigger] s0[j], xv),
        decreases n - i,
    {
        let ghost suf = s0.subrange(i as int, n as int);
        proof {
            assert(suf[0] == s0[i as int]);
            assert(inters_view(set@)[i as int] == inter_view(set@[i as int]));
            lemma_inter_lt_trichotomy(xv, s0[i as int]);
            assert(spec_insert_inter(suf, xv) == seq![suf[0]] + spec_insert_inter(
                suf.drop_first(),
                xv,
            ));
            assert(suf.drop_first() =~= s0.subrange(i + 1, n as int));
            assert(s0.subrange(0, i as int) + (seq![suf[0]] + spec_insert_inter(
                s0.subrange(i + 1, n as int),
                xv,
            )) =~= (s0.subrange(0, i as int) + seq![suf[0]] + spec_insert_inter(
                s0.subrange(i + 1, n as int),
                xv,
            )));
            assert(s0.subrange(0, i as int) + seq![suf[0]] =~= s0.subrange(0, i + 1));
        }
        i = i + 1;
    }
    let ghost suf = s0.subrange(i as int, n as int);
    if i < n {
        proof {
            assert(suf[0] == s0[i as int]);
            assert(inters_view(set@)[i as int] == inter_view(set@[i as int]));
        }
        if inter_eq(&set[i], &x) {
            proof {
                lemma_inter_lt_trichotomy(xv, suf[0]);
                assert(spec_insert_inter(suf, xv) == suf);
                assert(s0.subrange(0, i as int) + suf =~= s0);
            }
            return ;
        }
        proof {
            lemma_inter_lt_trichotomy(xv, suf[0]);
            assert(spec_inter_lt(xv, suf[0]));
            assert(spec_insert_inter(suf, xv) == seq![xv] + suf);
        }
        set.insert(i, x);
        proof {
            assert(set@ =~= old(set)@.subrange(0, i as int) + seq![x] + old(set)@.subrange(
                i as int,
                n as int,
            ));
            assert forall|j: int| 0 <= j < set@.len() implies inters_view(set@)[j] == (s0.subrange(
                0,
                i as int,
            ) + (seq![xv] + suf))[j] by {
                assert(inters_view(set@)[j] == inter_view(set@[j]));
                if j < i {
                    assert(set@[j] == old(set)@[j]);
                    assert(inters_view(old(set)@)[j] == inter_view(old(set)@[j]));
                } else if j == i {
                    assert(set@[j] == x);
                } else {
                    assert(set@[j] == old(set)@[j - 1]);
                    assert(inters_view(old(set)@)[j - 1] == inter_view(old(set)@[j - 1]));
                    assert(suf[j - 1 - i] == s0[j - 1]);
                }
            }
            assert(inters_view(set@) =~= s0.subrange(0, i as int) + (seq![xv] + suf));
        }
    } else {
        proof {
            assert(suf.len() == 0);
            assert(spec_insert_inter(suf, xv) == seq![xv]);
        }
        set.push(x);
        proof {
            assert(inters_view(set@) =~= inters_view(old(set)@).push(xv));
            assert(s0.subrange(0, i as int) =~= s0);
            assert(s0 + seq![xv] =~= s0.push(xv));
        }
    }
}

/// Merges `src` into `dst`, inserting each interaction in order.
pub fn merge_inters(dst: &mut Vec<Inter>, src: &Vec<Inter>)
    ensures
        inters_view(final(dst)@) == spec_merge_inters(inters_view(old(dst)@), inters_view(src@)),
{
    let mut i: usize = 0;
    proof {
        assert(inters_view(src@).subrange(0, inters_view(src@).len() as int) =~= inters_view(
            src@,
        ));
        assert(inters_view(src@).subrange(0, 0) =~= Seq::<InterView>::empty());
    }
    while i < src.len()
        invariant
            i <= src@.len(),
            spec_merge_inters(inters_view(old(dst)@), inters_view(src@)) == spec_merge_inters(
                inters_view(dst@),
                inters_view(src@).subrange(i as int, src@.len() as int),
            ),
        decreases src@.len() - i,
    {
        let ghost sv = inters_view(src@);
        let ghost suf = sv.subrange(i as int, src@.len() as int);
        let c = copy_inter(&src[i]);
        proof {
            assert(suf[0] == sv[i as int]);
            assert(sv[i as int] == inter_view(src@[i as int]));
            assert(suf.drop_first() =~= sv.subrange(i + 1, src@.len() as int));
        }
        insert_inter(dst, c);
        i = i + 1;
    }
    proof {
        let sv = inters_view(src@);
        assert(sv.subrange(sv.len() as int, sv.len() as int) =~= Seq::<InterView>::empty());
    }
}

} // verus!
