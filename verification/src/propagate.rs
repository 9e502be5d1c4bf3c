//! Re-export propagation: directory-index files are transparent, so the
//! direct targets of each ordinary file are unwound through arbitrarily deep
//! index-file chains into effective edges, by a breadth-first walk with a
//! per-traversal visited set.

use vstd::prelude::*;
use crate::extract::{ti_view, tis_view, TargetInters};
use crate::inter::{copy_inters, inters_view, merge_inters, spec_merge_inters, Inter, InterView};
use vstd::set_lib::{lemma_int_range, set_int_range};

verus! {

broadcast use vstd::set::group_set_axioms;

/// One effective edge, by node indices.
pub struct EffEdge {
    pub source: usize,
    pub target: usize,
    pub inters: Vec<Inter>,
}

pub open spec fn eff_view(e: EffEdge) -> (int, int, Seq<InterView>) {
    (e.source as int, e.target as int, inters_view(e.inters@))
}

pub open spec fn effs_view(s: Seq<EffEdge>) -> Seq<(int, int, Seq<InterView>)> {
    s.map_values(|e: EffEdge| eff_view(e))
}

/// The views of the whole direct-target table.
pub open spec fn direct_views(s: Seq<Vec<TargetInters>>) -> Seq<Seq<(int, Seq<InterView>)>> {
    s.map_values(|v: Vec<TargetInters>| tis_view(v@))
}

/// Every target index in the table lies inside the table.
pub open spec fn spec_direct_wf(direct: Seq<Seq<(int, Seq<InterView>)>>) -> bool {
    forall|s: int, j: int|
        0 <= s < direct.len() && 0 <= j < direct[s].len() ==> 0 <= (#[trigger] direct[s][j]).0
            < direct.len()
}

/// The queue, visited set and table are well formed: the visited set is a
/// finite set of node indices, and every queued node is a node index.
pub open spec fn spec_bfs_wf(
    queue: Seq<(int, Seq<InterView>)>,
    visited: Set<int>,
    direct: Seq<Seq<(int, Seq<InterView>)>>,
) -> bool {
    &&& visited.finite()
    &&& forall|x: int| visited.contains(x) ==> 0 <= x < direct.len()
    &&& forall|i: int| 0 <= i < queue.len() ==> 0 <= (#[trigger] queue[i]).0 < direct.len()
    &&& spec_direct_wf(direct)
}

/// Appends onto `acc` one queue entry for each direct target of an index
/// file, skipping the originating source itself; each carries the incoming
/// interactions merged with the interactions of that hop.
pub open spec fn spec_enqueue(
    entries: Seq<(int, Seq<InterView>)>,
    carried: Seq<InterView>,
    src: int,
    acc: Seq<(int, Seq<InterView>)>,
) -> Seq<(int, Seq<InterView>)>
    decreases entries.len(),
{
    if entries.len() == 0 {
        acc
    } else if entries[0].0 == src {
        spec_enqueue(entries.drop_first(), carried, src, acc)
    } else {
        spec_enqueue(
            entries.drop_first(),
            carried,
            src,
            acc.push((entries[0].0, spec_merge_inters(carried, entries[0].1))),
        )
    }
}

pub proof fn lemma_enqueue_in_range(
    entries: Seq<(int, Seq<InterView>)>,
    carried: Seq<InterView>,
    src: int,
    acc: Seq<(int, Seq<InterView>)>,
    n: int,
)
    requires
        forall|j: int| 0 <= j < entries.len() ==> 0 <= (#[trigger] entries[j]).0 < n,
        forall|i: int| 0 <= i < acc.len() ==> 0 <= (#[trigger] acc[i]).0 < n,
    ensures
        forall|i: int|
            0 <= i < spec_enqueue(entries, carried, src, acc).len() ==> 0 <= (
            #[trigger] spec_enqueue(entries, carried, src, acc)[i]).0 < n,
    decreases entries.len(),
{
    if entries.len() > 0 {
        let t = entries.drop_first();
        assert(forall|j: int| 0 <= j < t.len() ==> t[j] == entries[j + 1]);
        let r = spec_enqueue(entries, carried, src, acc);
        if entries[0].0 == src {
            lemma_enqueue_in_range(t, carried, src, acc, n);
            assert(r == spec_enqueue(t, carried, src, acc));
            assert forall|i: int| 0 <= i < r.len() implies 0 <= (#[trigger] r[i]).0 < n by {
                assert(r[i] == spec_enqueue(t, carried, src, acc)[i]);
            }
        } else {
            let acc2 = acc.push((entries[0].0, spec_merge_inters(carried, entries[0].1)));
            assert(forall|i: int| 0 <= i < acc2.len() ==> 0 <= (#[trigger] acc2[i]).0 < n);
            lemma_enqueue_in_range(t, carried, src, acc2, n);
            assert(r == spec_enqueue(t, carried, src, acc2));
            assert forall|i: int| 0 <= i < r.len() implies 0 <= (#[trigger] r[i]).0 < n by {
                assert(r[i] == spec_enqueue(t, carried, src, acc2)[i]);
            }
        }
    }
}

/// Records an effective edge target: its interactions are merged into any
/// entry already recorded for that target, or a new entry is opened.
pub open spec fn spec_record_edge(
    acc: Seq<(int, Seq<InterView>)>,
    t: int,
    xs: Seq<InterView>,
) -> Seq<(int, Seq<InterView>)>
    decreases acc.len(),
{
    if acc.len() == 0 {
        seq![(t, xs)]
    } else if acc[0].0 == t {
        seq![(acc[0].0, spec_merge_inters(acc[0].1, xs))] + acc.drop_first()
    } else {
        seq![acc[0]] + spec_record_edge(acc.drop_first(), t, xs)
    }
}

/// A finite set of node indices has at most `n` elements.
pub proof fn lemma_visited_len(visited: Set<int>, n: int)
    requires
        n >= 0,
        visited.finite(),
        forall|x: int| visited.contains(x) ==> 0 <= x < n,
    ensures
        visited.len() <= n,
{
    lemma_int_range(0, n);
    assert(visited.subset_of(set_int_range(0, n)));
    vstd::set_lib::lemma_len_subset(visited, set_int_range(0, n));
}

/// The breadth-first walk from one seeded queue: a visited node is skipped,
/// an unvisited index file has its own direct targets enqueued with merged
/// interactions, and an unvisited ordinary file other than the source is
/// recorded as an effective edge target.
pub open spec fn spec_bfs(
    queue: Seq<(int, Seq<InterView>)>,
    visited: Set<int>,
    acc: Seq<(int, Seq<InterView>)>,
    src: int,
    direct: Seq<Seq<(int, Seq<InterView>)>>,
    is_mod: Seq<bool>,
) -> Seq<(int, Seq<InterView>)>
    decreases direct.len() - visited.len(), queue.len(),
    via spec_bfs_decreases
{
    if !spec_bfs_wf(queue, visited, direct) {
        acc
    } else if queue.len() == 0 {
        acc
    } else {
        let node = queue[0].0;
        let carried = queue[0].1;
        if visited.contains(node) {
            spec_bfs(queue.drop_first(), visited, acc, src, direct, is_mod)
        } else {
            let visited2 = visited.insert(node);
            if is_mod[node] {
                let q2 = spec_enqueue(direct[node], carried, src, queue.drop_first());
                spec_bfs(q2, visited2, acc, src, direct, is_mod)
            } else {
                let acc2 = if node != src {
                    spec_record_edge(acc, node, carried)
                } else {
                    acc
                };
                spec_bfs(queue.drop_first(), visited2, acc2, src, direct, is_mod)
            }
        }
    }
}

#[via_fn]
proof fn spec_bfs_decreases(
    queue: Seq<(int, Seq<InterView>)>,
    visited: Set<int>,
    acc: Seq<(int, Seq<InterView>)>,
    src: int,
    direct: Seq<Seq<(int, Seq<InterView>)>>,
    is_mod: Seq<bool>,
) {
    if spec_bfs_wf(queue, visited, direct) && queue.len() > 0 {
        let n = direct.len() as int;
        let node = queue[0].0;
        lemma_visited_len(visited, n);
        if !visited.contains(node) {
            let visited2 = visited.insert(node);
            assert(visited2.len() == visited.len() + 1);
            lemma_visited_len(visited2, n);
        }
    }
}

/// Setting one element of a boolean vector.
fn mark(v: &mut Vec<bool>, i: usize)
    requires
        i < old(v)@.len(),
    ensures
        final(v)@ == old(v)@.update(i as int, true),
{
    v.remove(i);
    v.insert(i, true);
    proof {
        assert(v@ =~= old(v)@.update(i as int, true));
    }
}

/// Runs the breadth-first walk for one seeded queue, extending `acc`.
fn bfs_run(
    queue: &mut Vec<TargetInters>,
    visited: &mut Vec<bool>,
    Ghost(vset0): Ghost<Set<int>>,
    acc: &mut Vec<TargetInters>,
    src: usize,
    direct: &Vec<Vec<TargetInters>>,
    is_mod: &Vec<bool>,
)
    requires
        old(visited)@.len() == direct@.len(),
        is_mod@.len() == direct@.len(),
        src < direct@.len(),
        vset0.finite(),
        forall|x: int| vset0.contains(x) <==> (0 <= x < old(visited)@.len() && old(visited)@[x]),
        forall|i: int|
            0 <= i < old(queue)@.len() ==> 0 <= (#[trigger] tis_view(old(queue)@)[i]).0 < direct@.len(),
        spec_direct_wf(direct_views(direct@)),
    ensures
        tis_view(final(acc)@) == spec_bfs(
            tis_view(old(queue)@),
            vset0,
            tis_view(old(acc)@),
            src as int,
            direct_views(direct@),
            is_mod@,
        ),
{
    let ghost dv = direct_views(direct@);
    let ghost goal = spec_bfs(
        tis_view(old(queue)@),
        vset0,
        tis_view(old(acc)@),
        src as int,
        dv,
        is_mod@,
    );
    let ghost mut vset = vset0;
    let n = direct.len();
    proof {
        assert(tis_view(old(queue)@).len() == old(queue)@.len());
    }
    while queue.len() > 0
        invariant
            visited@.len() == n,
            is_mod@.len() == n,
            n == direct@.len(),
            src < n,
            dv == direct_views(direct@),
            vset.finite(),
            forall|x: int| vset.contains(x) <==> (0 <= x < n && visited@[x]),
            forall|i: int|
                0 <= i < queue@.len() ==> 0 <= (#[trigger] tis_view(queue@)[i]).0 < n,
            spec_direct_wf(dv),
            goal == spec_bfs(tis_view(queue@), vset, tis_view(acc@), src as int, dv, is_mod@),
        decreases n - vset.len(), queue@.len(),
    {
        proof {
            lemma_visited_len(vset, n as int);
        }
        let ghost q0 = tis_view(queue@);
        let ghost qseq0 = queue@;
        let entry = queue.remove(0);
        proof {
            assert(ti_view(entry) == q0[0]);
            assert forall|i: int| 0 <= i < queue@.len() implies tis_view(queue@)[i]
                == q0.drop_first()[i] by {
                assert(queue@[i] == qseq0[i + 1]);
                assert(tis_view(qseq0)[i + 1] == ti_view(qseq0[i + 1]));
            }
            assert(tis_view(queue@) =~= q0.drop_first());
        }
        let node = entry.target;
        proof {
            assert(q0[0].0 == node as int);
            assert(0 <= node < n);
            assert(spec_bfs_wf(q0, vset, dv));
        }
        if visited[node] {
            proof {
                assert(vset.contains(node as int));
            }
            continue ;
        }
        proof {
            assert(!vset.contains(node as int));
        }
        mark(visited, node);
        let ghost vset_new = vset.insert(node as int);
        proof {
            assert(forall|x: int|
                vset_new.contains(x) <==> (0 <= x < n && visited@[x]));
            lemma_visited_len(vset_new, n as int);
        }
        if is_mod[node] {
            let hop = &direct[node];
            let ghost hop_v = tis_view(hop@);
            proof {
                assert(dv[node as int] == tis_view(direct@[node as int]@));
            }
            let mut j: usize = 0;
            let ghost q_after_pop = tis_view(queue@);
            proof {
                assert(hop_v.subrange(0, hop_v.len() as int) =~= hop_v);
            }
            while j < hop.len()
                invariant
                    j <= hop@.len(),
                    hop@ == direct@[node as int]@,
                    hop_v == tis_view(hop@),
                    q0.len() > 0,
                    node < n,
                    n == direct@.len(),
                    dv == direct_views(direct@),
                    spec_direct_wf(dv),
                    forall|i: int|
                        0 <= i < queue@.len() ==> 0 <= (#[trigger] tis_view(queue@)[i]).0 < n,
                    spec_enqueue(hop_v, q0[0].1, src as int, q_after_pop) == spec_enqueue(
                        hop_v.subrange(j as int, hop_v.len() as int),
                        q0[0].1,
                        src as int,
                        tis_view(queue@),
                    ),
                    q0[0].1 == inters_view(entry.inters@),
                decreases hop@.len() - j,
            {
                let ghost hrem = hop_v.subrange(j as int, hop_v.len() as int);
                proof {
                    assert(hrem[0] == hop_v[j as int]);
                    assert(hop_v[j as int] == ti_view(hop@[j as int]));
                    assert(hrem.drop_first() =~= hop_v.subrange(j + 1, hop_v.len() as int));
                    assert(dv[node as int][j as int] == hop_v[j as int]);
                }
                let t2 = hop[j].target;
                if t2 != src {
                    let mut m = copy_inters(&entry.inters);
                    merge_inters(&mut m, &hop[j].inters);
                    let ghost old_q = tis_view(queue@);
                    queue.push(TargetInters { target: t2, inters: m });
                    proof {
                        assert(tis_view(queue@) =~= old_q.push(
                            (t2 as int, spec_merge_inters(q0[0].1, hrem[0].1)),
                        ));
                        assert forall|i: int|
                            0 <= i < queue@.len() implies 0 <= (#[trigger] tis_view(queue@)[i]).0
                            < n by {
                            if i < old_q.len() {
                                assert(tis_view(queue@)[i] == old_q[i]);
                            }
                        }
                    }
                }
                j = j + 1;
            }
            proof {
                assert(hop_v.subrange(hop_v.len() as int, hop_v.len() as int) =~= Seq::<
                    (int, Seq<InterView>),
                >::empty());
                assert(spec_bfs(q0, vset, tis_view(acc@), src as int, dv, is_mod@) == spec_bfs(
                    tis_view(queue@),
                    vset_new,
                    tis_view(acc@),
                    src as int,
                    dv,
                    is_mod@,
                ));
            }
            proof {
                vset = vset_new;
            }
        } else {
            let ghost acc_before = tis_view(acc@);
            if node != src {
                record_edge(acc, node, &entry.inters);
                proof {
                    assert(q0[0].1 == inters_view(entry.inters@));
                    assert(tis_view(acc@) == spec_record_edge(acc_before, node as int, q0[0].1));
                }
            }
            proof {
                assert(spec_bfs(q0, vset, acc_before, src as int, dv, is_mod@) == spec_bfs(
                    tis_view(queue@),
                    vset_new,
                    tis_view(acc@),
                    src as int,
                    dv,
                    is_mod@,
                ));
                vset = vset_new;
            }
        }
    }
    proof {
        assert(tis_view(queue@).len() == 0);
    }
}

/// Records one effective target, merging into an existing entry.
fn record_edge(acc: &mut Vec<TargetInters>, t: usize, xs: &Vec<Inter>)
    ensures
        tis_view(final(acc)@) == spec_record_edge(tis_view(old(acc)@), t as int, inters_view(xs@)),
{
    let ghost s0 = tis_view(old(acc)@);
    let ghost xv = inters_view(xs@);
    let n = acc.len();
    let mut i: usize = 0;
    proof {
        assert(s0.subrange(0, 0) =~= Seq::<(int, Seq<InterView>)>::empty());
        assert(s0.subrange(0, n as int) =~= s0);
    }
    while i < n && acc[i].target != t
        invariant
            i <= n,
            n == acc@.len(),
            tis_view(acc@) == s0,
            xv == inters_view(xs@),
            spec_record_edge(s0, t as int, xv) == s0.subrange(0, i as int) + spec_record_edge(
                s0.subrange(i as int, n as int),
                t as int,
                xv,
            ),
        decreases n - i,
    {
        let ghost suf = s0.subrange(i as int, n as int);
        proof {
            assert(suf[0] == s0[i as int]);
            assert(tis_view(acc@)[i as int] == ti_view(acc@[i as int]));
            assert(suf[0].0 != t as int);
            assert(spec_record_edge(suf, t as int, xv) == seq![suf[0]] + spec_record_edge(
                suf.drop_first(),
                t as int,
                xv,
            ));
            assert(suf.drop_first() =~= s0.subrange(i + 1, n as int));
            assert(s0.subrange(0, i as int) + (seq![suf[0]] + spec_record_edge(
                s0.subrange(i + 1, n as int),
                t as int,
                xv,
            )) =~= (s0.subrange(0, i as int) + seq![suf[0]]) + spec_record_edge(
                s0.subrange(i + 1, n as int),
                t as int,
                xv,
            ));
            assert(s0.subrange(0, i as int) + seq![suf[0]] =~= s0.subrange(0, i + 1));
        }
        i = i + 1;
    }
    let ghost suf = s0.subrange(i as int, n as int);
    if i < n {
        proof {
            assert(suf[0] == s0[i as int]);
            assert(tis_view(acc@)[i as int] == ti_view(acc@[i as int]));
            assert(suf[0].0 == t as int);
            assert(spec_record_edge(suf, t as int, xv) == seq![
                (suf[0].0, spec_merge_inters(suf[0].1, xv)),
            ] + suf.drop_first());
        }
        let mut e = acc.remove(i);
        merge_inters(&mut e.inters, xs);
        let ghost ev = ti_view(e);
        acc.insert(i, e);
        proof {
            assert(ev.0 == t as int);
            assert(ev.1 == spec_merge_inters(suf[0].1, xv));
            assert forall|k: int| 0 <= k < acc@.len() implies tis_view(acc@)[k] == (s0.subrange(
                0,
                i as int,
            ) + (seq![(suf[0].0, spec_merge_inters(suf[0].1, xv))] + suf.drop_first()))[k] by {
                assert(tis_view(acc@)[k] == ti_view(acc@[k]));
                if k < i {
                    assert(acc@[k] == old(acc)@[k]);
                    assert(tis_view(old(acc)@)[k] == ti_view(old(acc)@[k]));
                } else if k == i {
                } else {
                    assert(acc@[k] == old(acc)@[k]);
                    assert(tis_view(old(acc)@)[k] == ti_view(old(acc)@[k]));
                    assert(suf.drop_first()[k - i - 1] == s0[k]);
                }
            }
            assert(tis_view(acc@) =~= s0.subrange(0, i as int) + (seq![
                (suf[0].0, spec_merge_inters(suf[0].1, xv)),
            ] + suf.drop_first()));
        }
    } else {
        proof {
            assert(suf.len() == 0);
            assert(spec_record_edge(suf, t as int, xv) == seq![(t as int, xv)]);
        }
        let copied = copy_inters(xs);
        let e = TargetInters { target: t, inters: copied };
        let ghost ev = ti_view(e);
        acc.push(e);
        proof {
            assert(ev == (t as int, xv));
            assert(tis_view(acc@) =~= tis_view(old(acc)@).push(ev));
            assert(s0.subrange(0, i as int) =~= s0);
            assert(s0 + seq![(t as int, xv)] =~= s0.push((t as int, xv)));
        }
    }
}

/// The walk seeded once per direct target of one source, in order, each
/// with a fresh visited set holding the source alone.
pub open spec fn spec_source_fold(
    entries: Seq<(int, Seq<InterView>)>,
    src: int,
    direct: Seq<Seq<(int, Seq<InterView>)>>,
    is_mod: Seq<bool>,
    acc: Seq<(int, Seq<InterView>)>,
) -> Seq<(int, Seq<InterView>)>
    decreases entries.len(),
{
    if entries.len() == 0 {
        acc
    } else {
        let acc2 = spec_bfs(
            seq![entries[0]],
            Set::empty().insert(src),
            acc,
            src,
            direct,
            is_mod,
        );
        spec_source_fold(entries.drop_first(), src, direct, is_mod, acc2)
    }
}

/// The effective targets of one source turned into edge triples.
pub open spec fn spec_triples(src: int, acc: Seq<(int, Seq<InterView>)>) -> Seq<
    (int, int, Seq<InterView>),
> {
    acc.map_values(|p: (int, Seq<InterView>)| (src, p.0, p.1))
}

/// Every non-index source contributes its effective edges, sources in node
/// order.
pub open spec fn spec_propagate_from(
    k: int,
    direct: Seq<Seq<(int, Seq<InterView>)>>,
    is_mod: Seq<bool>,
    acc: Seq<(int, int, Seq<InterView>)>,
) -> Seq<(int, int, Seq<InterView>)>
    decreases direct.len() - k,
{
    if k < 0 || k >= direct.len() {
        acc
    } else if is_mod[k] {
        spec_propagate_from(k + 1, direct, is_mod, acc)
    } else {
        let part = spec_triples(k, spec_source_fold(direct[k], k, direct, is_mod, Seq::empty()));
        spec_propagate_from(k + 1, direct, is_mod, acc + part)
    }
}

/// The whole propagation pass.
pub open spec fn spec_propagate(
    direct: Seq<Seq<(int, Seq<InterView>)>>,
    is_mod: Seq<bool>,
) -> Seq<(int, int, Seq<InterView>)> {
    spec_propagate_from(0, direct, is_mod, Seq::empty())
}

/// Every queued entry names a node index and carries a strictly ascending
/// interaction set.
pub open spec fn spec_queue_ok(queue: Seq<(int, Seq<InterView>)>, n: int) -> bool {
    forall|i: int|
        0 <= i < queue.len() ==> 0 <= (#[trigger] queue[i]).0 < n
            && crate::inter::spec_sorted_inters(queue[i].1)
}

/// Every recorded target is a node index other than the source, with a
/// strictly ascending interaction set.
pub open spec fn spec_acc_ok(acc: Seq<(int, Seq<InterView>)>, n: int, src: int) -> bool {
    forall|i: int|
        0 <= i < acc.len() ==> 0 <= (#[trigger] acc[i]).0 < n && acc[i].0 != src
            && crate::inter::spec_sorted_inters(acc[i].1)
}

/// Every row of the table satisfies the target conditions.
pub open spec fn spec_table_ok(direct: Seq<Seq<(int, Seq<InterView>)>>) -> bool {
    forall|s: int|
        0 <= s < direct.len() ==> crate::extract::spec_targets_ok(
            #[trigger] direct[s],
            direct.len() as int,
        )
}

pub proof fn lemma_table_ok_wf(direct: Seq<Seq<(int, Seq<InterView>)>>)
    requires
        spec_table_ok(direct),
    ensures
        spec_direct_wf(direct),
{
}

pub proof fn lemma_enqueue_ok(
    entries: Seq<(int, Seq<InterView>)>,
    carried: Seq<InterView>,
    src: int,
    acc: Seq<(int, Seq<InterView>)>,
    n: int,
)
    requires
        crate::extract::spec_targets_ok(entries, n),
        crate::inter::spec_sorted_inters(carried),
        spec_queue_ok(acc, n),
    ensures
        spec_queue_ok(spec_enqueue(entries, carried, src, acc), n),
    decreases entries.len(),
{
    if entries.len() > 0 {
        let t = entries.drop_first();
        assert(forall|j: int| 0 <= j < t.len() ==> t[j] == entries[j + 1]);
        if entries[0].0 == src {
            lemma_enqueue_ok(t, carried, src, acc, n);
        } else {
            crate::inter::lemma_merge_inters_sorted(carried, entries[0].1);
            let acc2 = acc.push((entries[0].0, spec_merge_inters(carried, entries[0].1)));
            assert(spec_queue_ok(acc2, n));
            lemma_enqueue_ok(t, carried, src, acc2, n);
        }
    }
}

pub proof fn lemma_record_edge_ok(
    acc: Seq<(int, Seq<InterView>)>,
    t: int,
    xs: Seq<InterView>,
    n: int,
    src: int,
)
    requires
        spec_acc_ok(acc, n, src),
        0 <= t < n,
        t != src,
        crate::inter::spec_sorted_inters(xs),
    ensures
        spec_acc_ok(spec_record_edge(acc, t, xs), n, src),
    decreases acc.len(),
{
    let r = spec_record_edge(acc, t, xs);
    if acc.len() == 0 {
        assert(r[0] == (t, xs));
    } else if acc[0].0 == t {
        crate::inter::lemma_merge_inters_sorted(acc[0].1, xs);
        assert forall|i: int|
            0 <= i < r.len() implies 0 <= (#[trigger] r[i]).0 < n && r[i].0 != src
            && crate::inter::spec_sorted_inters(r[i].1) by {
            if i > 0 {
                assert(r[i] == acc.drop_first()[i - 1]);
                assert(acc.drop_first()[i - 1] == acc[i]);
            }
        }
    } else {
        let td = acc.drop_first();
        assert(forall|i: int| 0 <= i < td.len() ==> td[i] == acc[i + 1]);
        lemma_record_edge_ok(td, t, xs, n, src);
        assert forall|i: int|
            0 <= i < r.len() implies 0 <= (#[trigger] r[i]).0 < n && r[i].0 != src
            && crate::inter::spec_sorted_inters(r[i].1) by {
            if i > 0 {
                assert(r[i] == spec_record_edge(td, t, xs)[i - 1]);
            }
        }
    }
}

/// What the walk records keeps the target conditions: node indices other
/// than the source, each with a strictly ascending interaction set.
pub proof fn lemma_bfs_ok(
    queue: Seq<(int, Seq<InterView>)>,
    visited: Set<int>,
    acc: Seq<(int, Seq<InterView>)>,
    src: int,
    direct: Seq<Seq<(int, Seq<InterView>)>>,
    is_mod: Seq<bool>,
)
    requires
        spec_queue_ok(queue, direct.len() as int),
        spec_acc_ok(acc, direct.len() as int, src),
        spec_table_ok(direct),
    ensures
        spec_acc_ok(
            spec_bfs(queue, visited, acc, src, direct, is_mod),
            direct.len() as int,
            src,
        ),
    decreases direct.len() - visited.len(), queue.len(),
{
    let n = direct.len() as int;
    if spec_bfs_wf(queue, visited, direct) && queue.len() > 0 {
        let node = queue[0].0;
        let carried = queue[0].1;
        let qd = queue.drop_first();
        assert(forall|j: int| 0 <= j < qd.len() ==> qd[j] == queue[j + 1]);
        lemma_visited_len(visited, n);
        if visited.contains(node) {
            lemma_bfs_ok(qd, visited, acc, src, direct, is_mod);
        } else {
            let visited2 = visited.insert(node);
            assert(visited2.len() == visited.len() + 1);
            lemma_visited_len(visited2, n);
            if is_mod[node] {
                lemma_enqueue_ok(direct[node], carried, src, qd, n);
                lemma_bfs_ok(
                    spec_enqueue(direct[node], carried, src, qd),
                    visited2,
                    acc,
                    src,
                    direct,
                    is_mod,
                );
            } else {
                if node != src {
                    lemma_record_edge_ok(acc, node, carried, n, src);
                    lemma_bfs_ok(qd, visited2, spec_record_edge(acc, node, carried), src, direct, is_mod);
                } else {
                    lemma_bfs_ok(qd, visited2, acc, src, direct, is_mod);
                }
            }
        }
    }
}

pub proof fn lemma_source_fold_ok(
    entries: Seq<(int, Seq<InterView>)>,
    src: int,
    direct: Seq<Seq<(int, Seq<InterView>)>>,
    is_mod: Seq<bool>,
    acc: Seq<(int, Seq<InterView>)>,
)
    requires
        crate::extract::spec_targets_ok(entries, direct.len() as int),
        spec_acc_ok(acc, direct.len() as int, src),
        spec_table_ok(direct),
    ensures
        spec_acc_ok(
            spec_source_fold(entries, src, direct, is_mod, acc),
            direct.len() as int,
            src,
        ),
    decreases entries.len(),
{
    if entries.len() > 0 {
        let t = entries.drop_first();
        assert(forall|j: int| 0 <= j < t.len() ==> t[j] == entries[j + 1]);
        assert(spec_queue_ok(seq![entries[0]], direct.len() as int));
        lemma_bfs_ok(
            seq![entries[0]],
            Set::empty().insert(src),
            acc,
            src,
            direct,
            is_mod,
        );
        lemma_source_fold_ok(
            t,
            src,
            direct,
            is_mod,
            spec_bfs(seq![entries[0]], Set::empty().insert(src), acc, src, direct, is_mod),
        );
    }
}

/// Every triple of the propagated edge list satisfies the edge conditions:
/// the source is a non-index node, the target a different node, and the
/// interaction set strictly ascending.
pub open spec fn spec_triples_ok(
    triples: Seq<(int, int, Seq<InterView>)>,
    direct: Seq<Seq<(int, Seq<InterView>)>>,
    is_mod: Seq<bool>,
) -> bool {
    forall|i: int|
        0 <= i < triples.len() ==> {
            let t = #[trigger] triples[i];
            &&& 0 <= t.0 < direct.len()
            &&& !is_mod[t.0]
            &&& 0 <= t.1 < direct.len()
            &&& t.1 != t.0
            &&& crate::inter::spec_sorted_inters(t.2)
        }
}

pub proof fn lemma_propagate_from_ok(
    k: int,
    direct: Seq<Seq<(int, Seq<InterView>)>>,
    is_mod: Seq<bool>,
    acc: Seq<(int, int, Seq<InterView>)>,
)
    requires
        spec_table_ok(direct),
        spec_triples_ok(acc, direct, is_mod),
    ensures
        spec_triples_ok(spec_propagate_from(k, direct, is_mod, acc), direct, is_mod),
    decreases direct.len() - k,
{
    if 0 <= k < direct.len() {
        if is_mod[k] {
            lemma_propagate_from_ok(k + 1, direct, is_mod, acc);
        } else {
            assert(spec_acc_ok(Seq::empty(), direct.len() as int, k));
            lemma_source_fold_ok(direct[k], k, direct, is_mod, Seq::empty());
            let folded = spec_source_fold(direct[k], k, direct, is_mod, Seq::empty());
            let part = spec_triples(k, folded);
            let acc2 = acc + part;
            assert forall|i: int| 0 <= i < acc2.len() implies {
                let t = #[trigger] acc2[i];
                &&& 0 <= t.0 < direct.len()
                &&& !is_mod[t.0]
                &&& 0 <= t.1 < direct.len()
                &&& t.1 != t.0
                &&& crate::inter::spec_sorted_inters(t.2)
            } by {
                if i >= acc.len() {
                    assert(acc2[i] == part[i - acc.len()]);
                    assert(part[i - acc.len()] == (k, folded[i - acc.len()].0, folded[i
                        - acc.len()].1));
                }
            }
            lemma_propagate_from_ok(k + 1, direct, is_mod, acc2);
        }
    }
}

/// The propagated edge list satisfies the edge conditions.
pub proof fn lemma_propagate_ok(direct: Seq<Seq<(int, Seq<InterView>)>>, is_mod: Seq<bool>)
    requires
        spec_table_ok(direct),
    ensures
        spec_triples_ok(spec_propagate(direct, is_mod), direct, is_mod),
{
    lemma_propagate_from_ok(0, direct, is_mod, Seq::empty());
}

/// Runs propagation over the whole direct-target table.
pub fn propagate(direct: &Vec<Vec<TargetInters>>, is_mod: &Vec<bool>) -> (r: Vec<EffEdge>)
    requires
        is_mod@.len() == direct@.len(),
        spec_direct_wf(direct_views(direct@)),
    ensures
        effs_view(r@) == spec_propagate(direct_views(direct@), is_mod@),
{
    let ghost dv = direct_views(direct@);
    let n = direct.len();
    let mut out: Vec<EffEdge> = Vec::new();
    let mut k: usize = 0;
    proof {
        assert(effs_view(out@) =~= Seq::<(int, int, Seq<InterView>)>::empty());
    }
    while k < n
        invariant
            k <= n,
            n == direct@.len(),
            is_mod@.len() == n,
            dv == direct_views(direct@),
            spec_direct_wf(dv),
            spec_propagate(dv, is_mod@) == spec_propagate_from(k as int, dv, is_mod@, effs_view(out@)),
        decreases n - k,
    {
        if !is_mod[k] {
            let mut acc: Vec<TargetInters> = Vec::new();
            let entries = &direct[k];
            let ghost ev = tis_view(entries@);
            proof {
                assert(dv[k as int] == tis_view(direct@[k as int]@));
                assert(ev.subrange(0, ev.len() as int) =~= ev);
                assert(tis_view(acc@) =~= Seq::<(int, Seq<InterView>)>::empty());
            }
            let mut j: usize = 0;
            while j < entries.len()
                invariant
                    j <= entries@.len(),
                    ev == tis_view(direct@[k as int]@),
                    k < n,
                    n == direct@.len(),
                    is_mod@.len() == n,
                    dv == direct_views(direct@),
                    spec_direct_wf(dv),
                    entries@ == direct@[k as int]@,
                    spec_source_fold(ev, k as int, dv, is_mod@, Seq::empty())
                        == spec_source_fold(
                        ev.subrange(j as int, ev.len() as int),
                        k as int,
                        dv,
                        is_mod@,
                        tis_view(acc@),
                    ),
                decreases entries@.len() - j,
            {
                let ghost erem = ev.subrange(j as int, ev.len() as int);
                proof {
                    assert(erem[0] == ev[j as int]);
                    assert(ev[j as int] == ti_view(entries@[j as int]));
                    assert(erem.drop_first() =~= ev.subrange(j + 1, ev.len() as int));
                    assert(dv[k as int][j as int] == ev[j as int]);
                }
                let seed_inters = copy_inters(&entries[j].inters);
                let seed = TargetInters { target: entries[j].target, inters: seed_inters };
                let mut queue: Vec<TargetInters> = Vec::new();
                queue.push(seed);
                let mut visited: Vec<bool> = vec![false; n];
                mark(&mut visited, k);
                let ghost vset0 = Set::<int>::empty().insert(k as int);
                proof {
                    assert(tis_view(queue@) =~= seq![erem[0]]);
                    assert(forall|x: int|
                        vset0.contains(x) <==> (0 <= x < n && visited@[x]));
                    assert forall|i: int|
                        0 <= i < queue@.len() implies 0 <= (#[trigger] tis_view(queue@)[i]).0
                        < direct@.len() by {
                        assert(tis_view(queue@)[i] == erem[0]);
                    }
                }
                let ghost acc_before = tis_view(acc@);
                bfs_run(&mut queue, &mut visited, Ghost(vset0), &mut acc, k, direct, is_mod);
                proof {
                    assert(tis_view(acc@) == spec_bfs(
                        seq![erem[0]],
                        Set::empty().insert(k as int),
                        acc_before,
                        k as int,
                        dv,
                        is_mod@,
                    ));
                }
                j = j + 1;
            }
            proof {
                assert(ev.subrange(ev.len() as int, ev.len() as int) =~= Seq::<
                    (int, Seq<InterView>),
                >::empty());
            }
            // Emit this source's effective targets as edges.
            let ghost part = spec_triples(
                k as int,
                spec_source_fold(ev, k as int, dv, is_mod@, Seq::empty()),
            );
            let ghost out0 = effs_view(out@);
            let mut e: usize = 0;
            proof {
                assert(part =~= spec_triples(k as int, tis_view(acc@)));
                assert(out0 + part.subrange(0, 0) =~= out0);
            }
            while e < acc.len()
                invariant
                    e <= acc@.len(),
                    part == spec_triples(k as int, tis_view(acc@)),
                    k < n,
                    effs_view(out@) == out0 + part.subrange(0, e as int),
                decreases acc@.len() - e,
            {
                let inters = copy_inters(&acc[e].inters);
                let ghost old_out = effs_view(out@);
                out.push(EffEdge { source: k, target: acc[e].target, inters });
                proof {
                    assert(tis_view(acc@)[e as int] == ti_view(acc@[e as int]));
                    assert(part[e as int] == (k as int, tis_view(acc@)[e as int].0, tis_view(
                        acc@,
                    )[e as int].1));
                    assert(effs_view(out@) =~= old_out.push(part[e as int]));
                    assert(old_out.push(part[e as int]) =~= out0 + part.subrange(0, e + 1));
                }
                e = e + 1;
            }
            proof {
                assert(part.subrange(0, part.len() as int) =~= part);
                assert(effs_view(out@) == out0 + part);
            }
        }
        k = k + 1;
    }
    out
}

} // verus!
