//! The two laws of algebraic datatypes on an e-graph: values built by different constructors
//! differ, and equal values built by one constructor have equal arguments.
use vstd::prelude::*;
use vstd::set_lib::{lemma_len_subset, set_int_range, lemma_int_range};
use crate::egraph::{
    EGraphStore, ENode, ENodeV, EClassNodes, EClassV, classes_v, listing_ok, uf_of, uf_ok,
    coarsens, union_of, union_ends, egraph_find, egraph_union, egraph_rebuild, egraph_classes,
    memo_of, memo_ok, kept, clean, lemma_kept_trans, listing_complete, canon, MemoKey, Memo,
    listing_sound, finer, cong_closed, memo_versions,
};
use crate::sorts::StrMap;

verus! {

broadcast use vstd::seq_lib::group_seq_properties;

/// A node built by a constructor: its operator is a constructor taking as many arguments as
/// the node has children.
pub open spec fn is_ctor(n: ENodeV, ar: Map<Seq<char>, usize>) -> bool {
    ar.contains_key(n.op) && ar[n.op] == n.children.len()
}

/// Nodes `a` and `b` of class `k` are built by the same constructor, and `j` is one of its
/// argument positions.
pub open spec fn same_ctor_at(cs: Seq<EClassV>, ar: Map<Seq<char>, usize>, k: int, a: int, b: int, j: int) -> bool {
    &&& 0 <= k < cs.len()
    &&& 0 <= a < cs[k].nodes.len()
    &&& 0 <= b < cs[k].nodes.len()
    &&& is_ctor(cs[k].nodes[a], ar)
    &&& is_ctor(cs[k].nodes[b], ar)
    &&& cs[k].nodes[a].op == cs[k].nodes[b].op
    &&& 0 <= j < cs[k].nodes[a].children.len()
}

/// The `j`-th arguments of nodes `a` and `b` of class `k`.
pub open spec fn pair_at(cs: Seq<EClassV>, k: int, a: int, b: int, j: int) -> (usize, usize) {
    (cs[k].nodes[a].children[j], cs[k].nodes[b].children[j])
}

/// Class `k` holds nodes of two different constructors.
pub open spec fn class_clash(cs: Seq<EClassV>, ar: Map<Seq<char>, usize>, k: int) -> bool {
    exists|a: int, b: int| 0 <= a < cs[k].nodes.len() && 0 <= b < cs[k].nodes.len()
        && #[trigger] is_ctor(cs[k].nodes[a], ar) && #[trigger] is_ctor(cs[k].nodes[b], ar)
        && cs[k].nodes[a].op != cs[k].nodes[b].op
}

/// Some class holds nodes of two different constructors.
pub open spec fn listing_clash(cs: Seq<EClassV>, ar: Map<Seq<char>, usize>) -> bool {
    exists|k: int| 0 <= k < cs.len() && #[trigger] class_clash(cs, ar, k)
}

/// Injectivity holds: in every class, nodes of one constructor have arguments in the same
/// classes, position by position.
pub open spec fn injective_closed(cs: Seq<EClassV>, ar: Map<Seq<char>, usize>, uf: Seq<usize>) -> bool {
    forall|k: int, a: int, b: int, j: int| #[trigger] same_ctor_at(cs, ar, k, a, b, j)
        ==> uf[pair_at(cs, k, a, b, j).0 as int] == uf[pair_at(cs, k, a, b, j).1 as int]
}

/// `p` is the pair of `j`-th arguments of two nodes of one class built by one constructor.
pub open spec fn pair_from(cs: Seq<EClassV>, ar: Map<Seq<char>, usize>, p: (usize, usize)) -> bool {
    exists|k: int, a: int, b: int, j: int| #[trigger] same_ctor_at(cs, ar, k, a, b, j)
        && p == pair_at(cs, k, a, b, j)
}

/// What a scan of the classes finds: whether two constructors share a class, and the pairs
/// of argument ids that injectivity makes equal.
pub struct AdtScan {
    pub clash: bool,
    pub pairs: Vec<(usize, usize)>,
}

fn node_is_ctor(n: &ENode, ar: &StrMap<usize>) -> (r: bool)
    ensures r == is_ctor(n@, ar@),
{
    match ar.get(n.op.as_str()) {
        Some(a) => *a == n.children.len(),
        None => false,
    }
}

/// Scans classes for constructor clashes and for the argument pairs that injectivity
/// equates.
pub fn adt_scan(cs: &Vec<EClassNodes>, ar: &StrMap<usize>) -> (r: AdtScan)
    ensures
        r.clash == listing_clash(classes_v(cs@), ar@),
        forall|k: int, a: int, b: int, j: int| #[trigger] same_ctor_at(classes_v(cs@), ar@, k, a, b, j)
            ==> r.pairs@.contains(pair_at(classes_v(cs@), k, a, b, j)),
        forall|i: int| 0 <= i < r.pairs.len() ==> pair_from(classes_v(cs@), ar@, #[trigger] r.pairs@[i]),
{
    let ghost cv = classes_v(cs@);
    let ghost arv = ar@;
    let mut clash = false;
    let mut pairs: Vec<(usize, usize)> = Vec::new();
    let mut k: usize = 0;
    while k < cs.len()
        invariant
            k <= cs.len(),
            cv == classes_v(cs@),
            arv == ar@,
            cv.len() == cs.len(),
            clash == (exists|k2: int| 0 <= k2 < k && #[trigger] class_clash(cv, arv, k2)),
            forall|k2: int, a: int, b: int, j: int| #[trigger] same_ctor_at(cv, arv, k2, a, b, j) && k2 < k
                ==> pairs@.contains(pair_at(cv, k2, a, b, j)),
            forall|i: int| 0 <= i < pairs.len() ==> pair_from(cv, arv, #[trigger] pairs@[i]),
        decreases cs.len() - k,
    {
        let class = &cs[k];
        let ghost c = cv[k as int];
        assert(c == class@);
        let n = class.nodes.len();
        assert(c.nodes.len() == n);
        let mut here = false;
        let mut a: usize = 0;
        while a < n
            invariant
                k < cs.len(),
                a <= n,
                n == class.nodes.len(),
                cv == classes_v(cs@),
                arv == ar@,
                cv.len() == cs.len(),
                c == cv[k as int],
                c == class@,
                c.nodes.len() == n,
                clash == (exists|k2: int| 0 <= k2 < k && #[trigger] class_clash(cv, arv, k2)),
                here == (exists|a2: int, b2: int| 0 <= a2 < a && 0 <= b2 < n
                    && #[trigger] is_ctor(c.nodes[a2], arv) && #[trigger] is_ctor(c.nodes[b2], arv)
                    && c.nodes[a2].op != c.nodes[b2].op),
                forall|k2: int, a2: int, b2: int, j: int| #[trigger] same_ctor_at(cv, arv, k2, a2, b2, j)
                    && (k2 < k || (k2 == k && a2 < a))
                    ==> pairs@.contains(pair_at(cv, k2, a2, b2, j)),
                forall|i: int| 0 <= i < pairs.len() ==> pair_from(cv, arv, #[trigger] pairs@[i]),
            decreases n - a,
        {
            let na = &class.nodes[a];
            assert(c.nodes[a as int] == na@);
            if node_is_ctor(na, ar) {
                let mut b: usize = 0;
                while b < n
                    invariant
                        k < cs.len(),
                        a < n,
                        b <= n,
                        n == class.nodes.len(),
                        cv == classes_v(cs@),
                        arv == ar@,
                        cv.len() == cs.len(),
                        c == cv[k as int],
                        c == class@,
                        c.nodes.len() == n,
                        c.nodes[a as int] == na@,
                        is_ctor(na@, arv),
                        clash == (exists|k2: int| 0 <= k2 < k && #[trigger] class_clash(cv, arv, k2)),
                        here == ((exists|a2: int, b2: int| 0 <= a2 < a && 0 <= b2 < n
                            && #[trigger] is_ctor(c.nodes[a2], arv) && #[trigger] is_ctor(c.nodes[b2], arv)
                            && c.nodes[a2].op != c.nodes[b2].op)
                            || (exists|b2: int| 0 <= b2 < b && #[trigger] is_ctor(c.nodes[b2], arv)
                            && c.nodes[a as int].op != c.nodes[b2].op)),
                        forall|k2: int, a2: int, b2: int, j: int| #[trigger] same_ctor_at(cv, arv, k2, a2, b2, j)
                            && (k2 < k || (k2 == k && a2 < a) || (k2 == k && a2 == a && b2 < b))
                            ==> pairs@.contains(pair_at(cv, k2, a2, b2, j)),
                        forall|i: int| 0 <= i < pairs.len() ==> pair_from(cv, arv, #[trigger] pairs@[i]),
                    decreases n - b,
                {
                    let nb = &class.nodes[b];
                    assert(c.nodes[b as int] == nb@);
                    if node_is_ctor(nb, ar) {
                        if !na.op.eq(&nb.op) {
                            here = true;
                        } else {
                            let m = na.children.len();
                            let mut j: usize = 0;
                            while j < m
                                invariant
                                    k < cs.len(),
                                    a < n,
                                    b < n,
                                    j <= m,
                                    m == na.children.len(),
                                    nb.children.len() == m,
                                    cv == classes_v(cs@),
                                    arv == ar@,
                                    cv.len() == cs.len(),
                                    c == cv[k as int],
                                    c.nodes.len() == n,
                                    c.nodes[a as int] == na@,
                                    c.nodes[b as int] == nb@,
                                    is_ctor(na@, arv),
                                    is_ctor(nb@, arv),
                                    na@.op == nb@.op,
                                    forall|k2: int, a2: int, b2: int, j2: int| #[trigger] same_ctor_at(cv, arv, k2, a2, b2, j2)
                                        && (k2 < k || (k2 == k && a2 < a) || (k2 == k && a2 == a && b2 < b)
                                            || (k2 == k && a2 == a && b2 == b && j2 < j))
                                        ==> pairs@.contains(pair_at(cv, k2, a2, b2, j2)),
                                    forall|i: int| 0 <= i < pairs.len() ==> pair_from(cv, arv, #[trigger] pairs@[i]),
                                decreases m - j,
                            {
                                let x = na.children[j];
                                let y = nb.children[j];
                                assert(cv[k as int].nodes[a as int].children[j as int] == x);
                                assert(cv[k as int].nodes[b as int].children[j as int] == y);
                                let ghost old_pairs = pairs@;
                                pairs.push((x, y));
                                assert(pairs@ == old_pairs.push((x, y)));
                                assert(pairs@[pairs.len() - 1] == (x, y));
                                assert(same_ctor_at(cv, arv, k as int, a as int, b as int, j as int));
                                assert(pair_from(cv, arv, (x, y)));
                                assert forall|i: int| 0 <= i < pairs.len() implies pair_from(cv, arv, #[trigger] pairs@[i]) by {
                                    if i < pairs.len() - 1 { assert(pairs@[i] == old_pairs[i]); }
                                }
                                assert forall|k2: int, a2: int, b2: int, j2: int| #[trigger] same_ctor_at(cv, arv, k2, a2, b2, j2)
                                    && (k2 < k || (k2 == k && a2 < a) || (k2 == k && a2 == a && b2 < b)
                                        || (k2 == k && a2 == a && b2 == b && j2 < j + 1))
                                    implies pairs@.contains(pair_at(cv, k2, a2, b2, j2)) by {
                                    if k2 == k && a2 == a && b2 == b && j2 == j {
                                        assert(pairs@[pairs.len() - 1] == pair_at(cv, k2, a2, b2, j2));
                                    } else {
                                        assert(old_pairs.contains(pair_at(cv, k2, a2, b2, j2)));
                                    }
                                }
                                j += 1;
                            }
                        }
                    }
                    b += 1;
                }
            } else {
                assert forall|b2: int| #![trigger same_ctor_at(cv, arv, k as int, a as int, b2, 0)]
                    0 <= b2 < n implies !same_ctor_at(cv, arv, k as int, a as int, b2, 0) by {}
            }
            a += 1;
        }
        if here {
            clash = true;
        }
        assert(here == class_clash(cv, arv, k as int));
        k += 1;
    }
    AdtScan { clash, pairs }
}

// ---------------------------------------------------------------------------
// Counting classes
// ---------------------------------------------------------------------------

/// The class ids of a class map.
pub open spec fn roots(uf: Seq<usize>) -> Set<int> {
    Set::new(|i: int| 0 <= i < uf.len() && uf[i] == i)
}

pub proof fn lemma_roots_finite(uf: Seq<usize>)
    ensures roots(uf).finite(), roots(uf).len() <= uf.len(),
{
    lemma_int_range(0, uf.len() as int);
    assert(roots(uf).subset_of(set_int_range(0, uf.len() as int)));
    lemma_len_subset(roots(uf), set_int_range(0, uf.len() as int));
}

/// Merging two different classes takes one class id away.
pub proof fn lemma_union_roots(uf: Seq<usize>, w: usize, l: usize)
    requires
        uf_ok(uf),
        w < uf.len(),
        l < uf.len(),
        uf[w as int] == w,
        uf[l as int] == l,
        w != l,
    ensures roots(union_of(uf, w, l)) == roots(uf).remove(l as int),
{
    assert(roots(union_of(uf, w, l)) =~= roots(uf).remove(l as int));
}

/// Merging the classes of two equivalent ids keeps the classes finer than the equivalence.
proof fn lemma_union_finer(uf: Seq<usize>, x: usize, y: usize, w: usize, l: usize, v: spec_fn(int) -> int)
    requires
        uf_ok(uf), x < uf.len(), y < uf.len(), union_ends(uf, x, y, w, l),
        finer(uf, v), v(x as int) == v(y as int),
    ensures finer(union_of(uf, w, l), v),
{
    let after = union_of(uf, w, l);
    assert forall|p: int, q: int| 0 <= p < after.len() && 0 <= q < after.len() && after[p] == after[q]
        implies #[trigger] v(p) == #[trigger] v(q) by {
        if uf[p] == uf[x as int] { assert(v(p) == v(x as int)); }
        if uf[p] == uf[y as int] { assert(v(p) == v(y as int)); }
        if uf[q] == uf[x as int] { assert(v(q) == v(x as int)); }
        if uf[q] == uf[y as int] { assert(v(q) == v(y as int)); }
        if uf[p] == uf[q] { assert(v(p) == v(q)); }
    }
}

/// A coarsening keeps no class id that was not one before.
pub proof fn lemma_coarsen_roots(before: Seq<usize>, after: Seq<usize>)
    requires coarsens(before, after), before.len() == after.len(),
    ensures roots(after).subset_of(roots(before)),
{
}

// ---------------------------------------------------------------------------
// Applying injectivity
// ---------------------------------------------------------------------------

/// Merges the classes of each pair; tells whether any merge changed a class.
pub fn apply_pairs(g: &mut EGraphStore, pairs: &Vec<(usize, usize)>) -> (changed: bool)
    requires
        uf_ok(uf_of(*old(g))),
        forall|i: int| 0 <= i < pairs.len() ==> (#[trigger] pairs@[i]).0 < uf_of(*old(g)).len()
            && pairs@[i].1 < uf_of(*old(g)).len(),
    ensures
        uf_ok(uf_of(*final(g))),
        uf_of(*final(g)).len() == uf_of(*old(g)).len(),
        coarsens(uf_of(*old(g)), uf_of(*final(g))),
        roots(uf_of(*final(g))).len() <= roots(uf_of(*old(g))).len(),
        changed ==> roots(uf_of(*final(g))).len() < roots(uf_of(*old(g))).len(),
        !changed ==> uf_of(*final(g)) == uf_of(*old(g)),
        forall|i: int| 0 <= i < pairs.len() ==>
            uf_of(*final(g))[(#[trigger] pairs@[i]).0 as int] == uf_of(*final(g))[pairs@[i].1 as int],
        memo_of(*final(g)) == memo_of(*old(g)),
        forall|v: spec_fn(int) -> int| finer(uf_of(*old(g)), v)
            && (forall|i: int| 0 <= i < pairs.len() ==> v((#[trigger] pairs@[i]).0 as int) == v(pairs@[i].1 as int))
            ==> #[trigger] finer(uf_of(*final(g)), v),
{
    let ghost uf0 = uf_of(*g);
    let ghost m0 = memo_of(*g);
    proof { lemma_roots_finite(uf0); }
    let mut changed = false;
    let mut i: usize = 0;
    while i < pairs.len()
        invariant
            i <= pairs.len(),
            uf_ok(uf_of(*g)),
            uf_of(*g).len() == uf0.len(),
            coarsens(uf0, uf_of(*g)),
            roots(uf_of(*g)).finite(),
            roots(uf_of(*g)).len() <= roots(uf0).len(),
            changed ==> roots(uf_of(*g)).len() < roots(uf0).len(),
            !changed ==> uf_of(*g) == uf0,
            forall|q: int| 0 <= q < pairs.len() ==> (#[trigger] pairs@[q]).0 < uf0.len() && pairs@[q].1 < uf0.len(),
            forall|q: int| 0 <= q < i ==> uf_of(*g)[(#[trigger] pairs@[q]).0 as int] == uf_of(*g)[pairs@[q].1 as int],
            memo_of(*g) == m0,
            forall|v: spec_fn(int) -> int| finer(uf0, v)
                && (forall|q: int| 0 <= q < pairs.len() ==> v((#[trigger] pairs@[q]).0 as int) == v(pairs@[q].1 as int))
                ==> #[trigger] finer(uf_of(*g), v),
        decreases pairs.len() - i,
    {
        let (x, y) = pairs[i];
        let fx = egraph_find(g, x);
        let fy = egraph_find(g, y);
        if fx != fy {
            let ghost before = uf_of(*g);
            egraph_union(g, x, y);
            proof {
                let after = uf_of(*g);
                let (w, l) = choose|w: usize, l: usize| union_ends(before, x, y, w, l) && after == union_of(before, w, l);
                lemma_union_roots(before, w, l);
                lemma_roots_finite(after);
                assert(roots(before).contains(l as int));
                assert forall|p: int, q: int| 0 <= p < uf0.len() && 0 <= q < uf0.len() && uf0[p] == uf0[q]
                    implies #[trigger] after[p] == #[trigger] after[q] by {
                    assert(before[p] == before[q]);
                }
                assert forall|p: int| 0 <= p < uf0.len() && after[p] == p implies #[trigger] uf0[p] == p by {
                    assert(before[p] == p);
                }
                assert forall|q: int| 0 <= q < i + 1 implies after[(#[trigger] pairs@[q]).0 as int] == after[pairs@[q].1 as int] by {
                    if q < i {
                        assert(before[pairs@[q].0 as int] == before[pairs@[q].1 as int]);
                    }
                }
                assert forall|v: spec_fn(int) -> int| finer(uf0, v)
                    && (forall|q: int| 0 <= q < pairs.len() ==> v((#[trigger] pairs@[q]).0 as int) == v(pairs@[q].1 as int))
                    implies #[trigger] finer(after, v) by {
                    assert(finer(before, v));
                    assert(v(pairs@[i as int].0 as int) == v(pairs@[i as int].1 as int));
                    lemma_union_finer(before, x, y, w, l, v);
                }
            }
            changed = true;
        }
        i += 1;
    }
    changed
}

/// Applies injectivity until nothing changes, rebuilding the e-graph before each scan;
/// reports whether two constructors ended in one class.
///
/// At the end the e-graph is rebuilt, injectivity holds, `clash` tells exactly whether two
/// entries built by different constructors share a class, and every merge made was forced:
/// any equivalence that merges what the old classes merge and is closed under congruence
/// and injectivity over the old table merges all that the new classes merge.
pub fn adt_closure(g: &mut EGraphStore, ar: &StrMap<usize>) -> (clash: bool)
    requires uf_ok(uf_of(*old(g))), memo_ok(memo_of(*old(g)), uf_of(*old(g)).len()),
    ensures
        uf_ok(uf_of(*final(g))),
        uf_of(*final(g)).len() == uf_of(*old(g)).len(),
        coarsens(uf_of(*old(g)), uf_of(*final(g))),
        memo_ok(memo_of(*final(g)), uf_of(*final(g)).len()),
        kept(*old(g), *final(g)),
        clean(*final(g)),
        adt_settled(*final(g), ar@, clash),
        clash == memo_clash(memo_of(*final(g)), uf_of(*final(g)), ar@),
        closure_least(uf_of(*old(g)), memo_of(*old(g)), ar@, uf_of(*final(g))),
{
    let ghost uf0 = uf_of(*g);
    let ghost m0 = memo_of(*g);
    let ghost g0 = *g;
    let ghost arv = ar@;
    let mut clash = false;
    let mut done = false;
    let ghost mut last: Seq<EClassV> = Seq::empty();
    proof {
        lemma_roots_finite(uf0);
        lemma_versions_refl(m0, uf0);
    }
    while !done
        invariant
            arv == ar@,
            uf_ok(uf_of(*g)),
            uf_of(*g).len() == uf0.len(),
            coarsens(uf0, uf_of(*g)),
            roots(uf_of(*g)).finite(),
            done ==> listing_ok(last, uf_of(*g)) && injective_closed(last, arv, uf_of(*g))
                && listing_clash(last, arv) == clash
                && listing_complete(last, memo_of(*g), uf_of(*g))
                && listing_sound(last, memo_of(*g), uf_of(*g)),
            memo_ok(memo_of(*g), uf_of(*g).len()),
            memo_ok(m0, uf0.len()),
            uf0 == uf_of(g0),
            m0 == memo_of(g0),
            kept(g0, *g),
            done ==> clean(*g),
            memo_versions(m0, memo_of(*g), uf_of(*g)),
            closure_least(uf0, m0, arv, uf_of(*g)),
        decreases 2 * roots(uf_of(*g)).len() + (if done { 0int } else { 1int }),
    {
        let ghost start = uf_of(*g);
        let ghost gs = *g;
        egraph_rebuild(g);
        let ghost rebuilt = uf_of(*g);
        let ghost gr = *g;
        proof {
            lemma_kept_trans(g0, gs, gr);
            lemma_roots_finite(rebuilt);
            lemma_coarsen_roots(start, rebuilt);
            lemma_len_subset(roots(rebuilt), roots(start));
            lemma_versions_trans(m0, memo_of(gs), memo_of(gr), start, rebuilt);
            lemma_least_rebuilt(uf0, m0, arv, gs, gr);
        }
        let cs = egraph_classes(g);
        let scan = adt_scan(&cs, ar);
        clash = scan.clash;
        let ghost cv = classes_v(cs@);
        let ghost mr = memo_of(gr);
        proof {
            assert forall|i: int| 0 <= i < scan.pairs.len() implies (#[trigger] scan.pairs@[i]).0 < rebuilt.len()
                && scan.pairs@[i].1 < rebuilt.len() by {
                assert(pair_from(cv, arv, scan.pairs@[i]));
                let (k, a, b, j) = choose|k: int, a: int, b: int, j: int| #[trigger] same_ctor_at(cv, arv, k, a, b, j)
                    && scan.pairs@[i] == pair_at(cv, k, a, b, j);
                assert(cv[k].nodes[a].children[j] < rebuilt.len());
                assert(cv[k].nodes[b].children[j] < rebuilt.len());
            }
        }
        let changed = apply_pairs(g, &scan.pairs);
        proof {
            let after = uf_of(*g);
            lemma_kept_trans(g0, gr, *g);
            lemma_roots_finite(after);
            assert forall|p: int, q: int| 0 <= p < uf0.len() && 0 <= q < uf0.len() && uf0[p] == uf0[q]
                implies #[trigger] after[p] == #[trigger] after[q] by {
                assert(start[p] == start[q]);
                assert(rebuilt[p] == rebuilt[q]);
            }
            assert forall|p: int| 0 <= p < uf0.len() && after[p] == p implies #[trigger] uf0[p] == p by {
                assert(rebuilt[p] == p);
                assert(start[p] == p);
            }
            lemma_versions_refl(mr, after);
            lemma_versions_trans(m0, mr, mr, rebuilt, after);
            lemma_least_paired(uf0, m0, arv, cv, mr, rebuilt, after, scan.pairs@);
        }
        proof {
            let after = uf_of(*g);
            if !changed {
                assert forall|k: int, a: int, b: int, j: int| #[trigger] same_ctor_at(cv, arv, k, a, b, j)
                    implies after[pair_at(cv, k, a, b, j).0 as int] == after[pair_at(cv, k, a, b, j).1 as int] by {
                    assert(scan.pairs@.contains(pair_at(cv, k, a, b, j)));
                    let i = choose|i: int| 0 <= i < scan.pairs.len() && scan.pairs@[i] == pair_at(cv, k, a, b, j);
                    assert(after[scan.pairs@[i].0 as int] == after[scan.pairs@[i].1 as int]);
                }
                last = cv;
            }
        }
        if !changed {
            done = true;
        }
    }
    proof {
        lemma_listing_memo(last, memo_of(*g), uf_of(*g), arv);
    }
    clash
}

/// A rebuild keeps the classes as fine as every closed equivalence.
proof fn lemma_least_rebuilt(uf0: Seq<usize>, m0: Memo, ar: Map<Seq<char>, usize>, gs: EGraphStore, gr: EGraphStore)
    requires
        closure_least(uf0, m0, ar, uf_of(gs)),
        memo_versions(m0, memo_of(gs), uf_of(gs)),
        memo_ok(m0, uf_of(gs).len()), memo_ok(memo_of(gs), uf_of(gs).len()),
        forall|v: spec_fn(int) -> int| finer(uf_of(gs), v) && cong_closed(memo_of(gs), v)
            ==> #[trigger] finer(uf_of(gr), v),
    ensures closure_least(uf0, m0, ar, uf_of(gr)),
{
    assert forall|v: spec_fn(int) -> int| finer(uf0, v) && cong_closed(m0, v) && inj_closed(m0, ar, v)
        implies #[trigger] finer(uf_of(gr), v) by {
        assert(finer(uf_of(gs), v));
        lemma_cong_versions(m0, memo_of(gs), uf_of(gs), v);
    }
}

/// Merging the pairs a scan found keeps the classes as fine as every closed equivalence.
proof fn lemma_least_paired(uf0: Seq<usize>, m0: Memo, ar: Map<Seq<char>, usize>, cv: Seq<EClassV>,
    mr: Memo, rebuilt: Seq<usize>, after: Seq<usize>, pairs: Seq<(usize, usize)>)
    requires
        closure_least(uf0, m0, ar, rebuilt),
        memo_versions(m0, mr, rebuilt),
        memo_ok(m0, rebuilt.len()), memo_ok(mr, rebuilt.len()),
        listing_ok(cv, rebuilt), listing_sound(cv, mr, rebuilt),
        forall|i: int| 0 <= i < pairs.len() ==> pair_from(cv, ar, #[trigger] pairs[i]),
        forall|v: spec_fn(int) -> int| finer(rebuilt, v)
            && (forall|i: int| 0 <= i < pairs.len() ==> v((#[trigger] pairs[i]).0 as int) == v(pairs[i].1 as int))
            ==> #[trigger] finer(after, v),
    ensures closure_least(uf0, m0, ar, after),
{
    assert forall|v: spec_fn(int) -> int| finer(uf0, v) && cong_closed(m0, v) && inj_closed(m0, ar, v)
        implies #[trigger] finer(after, v) by {
        assert(finer(rebuilt, v));
        lemma_inj_versions(m0, mr, rebuilt, ar, v);
        assert forall|i: int| 0 <= i < pairs.len()
            implies v((#[trigger] pairs[i]).0 as int) == v(pairs[i].1 as int) by {
            lemma_pair_forced(cv, mr, rebuilt, ar, v, pairs[i]);
        }
    }
}

/// Two entries of the table built by different constructors are in one class.
pub open spec fn memo_clash(m: Memo, uf: Seq<usize>, ar: Map<Seq<char>, usize>) -> bool {
    exists|k1: MemoKey, k2: MemoKey| #[trigger] m.contains_key(k1) && #[trigger] m.contains_key(k2)
        && ctor_key(k1, ar) && ctor_key(k2, ar) && k1.0 != k2.0
        && uf[m[k1] as int] == uf[m[k2] as int]
}

/// Injectivity over the table: two entries built by one constructor in one class have their
/// children in the same classes, position by position.
pub open spec fn memo_injective(m: Memo, uf: Seq<usize>, ar: Map<Seq<char>, usize>) -> bool {
    forall|k1: MemoKey, k2: MemoKey| #[trigger] m.contains_key(k1) && #[trigger] m.contains_key(k2)
        && ctor_key(k1, ar) && k1.0 == k2.0 && k2.1.len() == k1.1.len()
        && uf[m[k1] as int] == uf[m[k2] as int]
        ==> forall|j: int| 0 <= j < k1.1.len() ==> uf[#[trigger] k1.1[j] as int] == uf[k2.1[j] as int]
}

/// Injectivity of the equivalence `v` over the table `m`: two entries built by one
/// constructor that are equivalent have equivalent children, position by position.
pub open spec fn inj_closed(m: Memo, ar: Map<Seq<char>, usize>, v: spec_fn(int) -> int) -> bool {
    forall|k1: MemoKey, k2: MemoKey| #[trigger] m.contains_key(k1) && #[trigger] m.contains_key(k2)
        && ctor_key(k1, ar) && k1.0 == k2.0 && k2.1.len() == k1.1.len()
        && v(m[k1] as int) == v(m[k2] as int)
        ==> forall|j: int| 0 <= j < k1.1.len() ==> v(#[trigger] k1.1[j] as int) == v(k2.1[j] as int)
}

/// `uf1` merges no more than it must: every equivalence that merges what `uf0` merges and
/// is closed under congruence and injectivity over the table `m0` merges all `uf1` merges.
pub open spec fn closure_least(uf0: Seq<usize>, m0: Memo, ar: Map<Seq<char>, usize>, uf1: Seq<usize>) -> bool {
    forall|v: spec_fn(int) -> int| finer(uf0, v) && cong_closed(m0, v) && inj_closed(m0, ar, v)
        ==> #[trigger] finer(uf1, v)
}

/// The datatype laws hold of the e-graph: injectivity holds over its table, and if two
/// entries built by different constructors share a class, `clash` says so.
pub open spec fn adt_settled(g: EGraphStore, ar: Map<Seq<char>, usize>, clash: bool) -> bool {
    memo_injective(memo_of(g), uf_of(g), ar)
        && (memo_clash(memo_of(g), uf_of(g), ar) ==> clash)
}

/// A table is its own version.
proof fn lemma_versions_refl(m: Memo, uf: Seq<usize>)
    ensures memo_versions(m, m, uf),
{
    reveal(memo_versions);
    assert forall|k: MemoKey| #[trigger] m.contains_key(k) implies exists|k1: MemoKey|
        #[trigger] m.contains_key(k1) && k1.0 == k.0 && canon(k1.1, uf) == canon(k.1, uf)
        && uf[m[k1] as int] == uf[m[k] as int] by {
        assert(m.contains_key(k));
    }
}

/// Entries entered again twice are entered again, once classes only merge.
proof fn lemma_versions_trans(m0: Memo, m1: Memo, m2: Memo, u1: Seq<usize>, u2: Seq<usize>)
    requires
        memo_versions(m0, m1, u1),
        memo_versions(m1, m2, u2),
        coarsens(u1, u2), u1.len() == u2.len(),
        memo_ok(m0, u1.len()), memo_ok(m1, u1.len()),
    ensures memo_versions(m0, m2, u2),
{
    reveal(memo_versions);
    assert forall|k2: MemoKey| #[trigger] m2.contains_key(k2) implies exists|k0: MemoKey|
        #[trigger] m0.contains_key(k0) && k0.0 == k2.0 && canon(k0.1, u2) == canon(k2.1, u2)
        && u2[m0[k0] as int] == u2[m2[k2] as int] by {
        let k1 = choose|k1: MemoKey| #[trigger] m1.contains_key(k1) && k1.0 == k2.0
            && canon(k1.1, u2) == canon(k2.1, u2) && u2[m1[k1] as int] == u2[m2[k2] as int];
        let k0 = choose|k0: MemoKey| #[trigger] m0.contains_key(k0) && k0.0 == k1.0
            && canon(k0.1, u1) == canon(k1.1, u1) && u1[m0[k0] as int] == u1[m1[k1] as int];
        assert(canon(k0.1, u1).len() == k0.1.len());
        assert(canon(k1.1, u1).len() == k1.1.len());
        assert forall|i: int| 0 <= i < k0.1.len() implies u2[k0.1[i] as int] == u2[k1.1[i] as int] by {
            assert(canon(k0.1, u1)[i] == canon(k1.1, u1)[i]);
            assert(k0.1[i] < u1.len() && k1.1[i] < u1.len());
        }
        assert(canon(k0.1, u2) =~= canon(k1.1, u2));
        assert(u2[m0[k0] as int] == u2[m1[k1] as int]);
    }
}

/// Congruence of an equivalence over a table carries over to the entries entered again.
proof fn lemma_cong_versions(m0: Memo, m1: Memo, u: Seq<usize>, v: spec_fn(int) -> int)
    requires
        memo_versions(m0, m1, u), finer(u, v), cong_closed(m0, v),
        memo_ok(m0, u.len()), memo_ok(m1, u.len()),
    ensures cong_closed(m1, v),
{
    reveal(memo_versions);
    assert forall|k1: MemoKey, k2: MemoKey|
        #[trigger] m1.contains_key(k1) && #[trigger] m1.contains_key(k2) && k1.0 == k2.0
            && k1.1.len() == k2.1.len()
            && (forall|j: int| 0 <= j < k1.1.len() ==> v(k1.1[j] as int) == v(k2.1[j] as int))
        implies v(m1[k1] as int) == v(m1[k2] as int) by {
        let a = choose|a: MemoKey| #[trigger] m0.contains_key(a) && a.0 == k1.0
            && canon(a.1, u) == canon(k1.1, u) && u[m0[a] as int] == u[m1[k1] as int];
        let b = choose|b: MemoKey| #[trigger] m0.contains_key(b) && b.0 == k2.0
            && canon(b.1, u) == canon(k2.1, u) && u[m0[b] as int] == u[m1[k2] as int];
        assert(canon(a.1, u).len() == a.1.len() && canon(k1.1, u).len() == k1.1.len());
        assert(canon(b.1, u).len() == b.1.len() && canon(k2.1, u).len() == k2.1.len());
        assert forall|j: int| 0 <= j < a.1.len() implies v(a.1[j] as int) == v(b.1[j] as int) by {
            assert(canon(a.1, u)[j] == canon(k1.1, u)[j]);
            assert(canon(b.1, u)[j] == canon(k2.1, u)[j]);
            assert(v(a.1[j] as int) == v(k1.1[j] as int));
            assert(v(b.1[j] as int) == v(k2.1[j] as int));
        }
        assert(v(m0[a] as int) == v(m0[b] as int));
        assert(v(m0[a] as int) == v(m1[k1] as int));
        assert(v(m0[b] as int) == v(m1[k2] as int));
    }
}

/// Injectivity of an equivalence over a table carries over to the entries entered again.
proof fn lemma_inj_versions(m0: Memo, m1: Memo, u: Seq<usize>, ar: Map<Seq<char>, usize>, v: spec_fn(int) -> int)
    requires
        memo_versions(m0, m1, u), finer(u, v), inj_closed(m0, ar, v),
        memo_ok(m0, u.len()), memo_ok(m1, u.len()),
    ensures inj_closed(m1, ar, v),
{
    reveal(memo_versions);
    assert forall|k1: MemoKey, k2: MemoKey| #[trigger] m1.contains_key(k1) && #[trigger] m1.contains_key(k2)
        && ctor_key(k1, ar) && k1.0 == k2.0 && k2.1.len() == k1.1.len()
        && v(m1[k1] as int) == v(m1[k2] as int)
        implies forall|j: int| 0 <= j < k1.1.len() ==> v(#[trigger] k1.1[j] as int) == v(k2.1[j] as int) by {
        let a = choose|a: MemoKey| #[trigger] m0.contains_key(a) && a.0 == k1.0
            && canon(a.1, u) == canon(k1.1, u) && u[m0[a] as int] == u[m1[k1] as int];
        let b = choose|b: MemoKey| #[trigger] m0.contains_key(b) && b.0 == k2.0
            && canon(b.1, u) == canon(k2.1, u) && u[m0[b] as int] == u[m1[k2] as int];
        assert(canon(a.1, u).len() == a.1.len() && canon(k1.1, u).len() == k1.1.len());
        assert(canon(b.1, u).len() == b.1.len() && canon(k2.1, u).len() == k2.1.len());
        assert(v(m0[a] as int) == v(m1[k1] as int));
        assert(v(m0[b] as int) == v(m1[k2] as int));
        assert(ctor_key(a, ar));
        assert forall|j: int| 0 <= j < k1.1.len() implies v(#[trigger] k1.1[j] as int) == v(k2.1[j] as int) by {
            assert(canon(a.1, u)[j] == canon(k1.1, u)[j]);
            assert(canon(b.1, u)[j] == canon(k2.1, u)[j]);
            assert(v(a.1[j] as int) == v(k1.1[j] as int));
            assert(v(b.1[j] as int) == v(k2.1[j] as int));
            assert(v(a.1[j] as int) == v(b.1[j] as int));
        }
    }
}

/// A pair found by a scan of a sound listing is equivalent under every equivalence that
/// merges what the classes merge and is injective over the table.
proof fn lemma_pair_forced(cs: Seq<EClassV>, m: Memo, u: Seq<usize>, ar: Map<Seq<char>, usize>,
    v: spec_fn(int) -> int, p: (usize, usize))
    requires
        listing_ok(cs, u), listing_sound(cs, m, u), memo_ok(m, u.len()),
        finer(u, v), inj_closed(m, ar, v), pair_from(cs, ar, p),
    ensures v(p.0 as int) == v(p.1 as int),
{
    reveal(listing_sound);
    let (k, a, b, j) = choose|k: int, a: int, b: int, j: int| #[trigger] same_ctor_at(cs, ar, k, a, b, j)
        && p == pair_at(cs, k, a, b, j);
    let na = cs[k].nodes[a];
    let nb = cs[k].nodes[b];
    let ka = choose|x: MemoKey| #[trigger] m.contains_key(x) && x.0 == cs[k].nodes[a].op
        && canon(cs[k].nodes[a].children, u) == canon(x.1, u) && u[m[x] as int] == cs[k].id;
    let kb = choose|x: MemoKey| #[trigger] m.contains_key(x) && x.0 == cs[k].nodes[b].op
        && canon(cs[k].nodes[b].children, u) == canon(x.1, u) && u[m[x] as int] == cs[k].id;
    assert(canon(na.children, u).len() == na.children.len() && canon(ka.1, u).len() == ka.1.len());
    assert(canon(nb.children, u).len() == nb.children.len() && canon(kb.1, u).len() == kb.1.len());
    assert(ctor_key(ka, ar));
    assert(v(m[ka] as int) == v(m[kb] as int));
    assert(v(ka.1[j] as int) == v(kb.1[j] as int));
    assert(canon(na.children, u)[j] == canon(ka.1, u)[j]);
    assert(canon(nb.children, u)[j] == canon(kb.1, u)[j]);
    assert(v(na.children[j] as int) == v(ka.1[j] as int));
    assert(v(nb.children[j] as int) == v(kb.1[j] as int));
}

/// A listing that holds exactly the table's nodes, closed under injectivity, gives
/// injectivity over the table, and shows a clash exactly when the table has one.
proof fn lemma_listing_memo(cs: Seq<EClassV>, m: Memo, uf: Seq<usize>, ar: Map<Seq<char>, usize>)
    requires
        listing_ok(cs, uf), listing_complete(cs, m, uf), listing_sound(cs, m, uf),
        injective_closed(cs, ar, uf), uf_ok(uf), memo_ok(m, uf.len()),
    ensures
        memo_injective(m, uf, ar),
        listing_clash(cs, ar) == memo_clash(m, uf, ar),
{
    lemma_listing_injective(cs, m, uf, ar);
    lemma_memo_clash_listed(cs, m, uf, ar);
    lemma_listed_clash_memo(cs, m, uf, ar);
}

proof fn lemma_listing_injective(cs: Seq<EClassV>, m: Memo, uf: Seq<usize>, ar: Map<Seq<char>, usize>)
    requires
        listing_ok(cs, uf), listing_complete(cs, m, uf),
        injective_closed(cs, ar, uf), uf_ok(uf), memo_ok(m, uf.len()),
    ensures memo_injective(m, uf, ar),
{
    assert forall|k1: MemoKey, k2: MemoKey| #[trigger] m.contains_key(k1) && #[trigger] m.contains_key(k2)
        && ctor_key(k1, ar) && k1.0 == k2.0 && k2.1.len() == k1.1.len()
        && uf[m[k1] as int] == uf[m[k2] as int]
        implies forall|j: int| 0 <= j < k1.1.len() ==> uf[#[trigger] k1.1[j] as int] == uf[k2.1[j] as int] by {
        let (q1, a1) = choose|q: int, a: int| 0 <= q < cs.len() && cs[q].id == uf[m[k1] as int]
            && 0 <= a < cs[q].nodes.len() && (#[trigger] cs[q].nodes[a]).op == k1.0
            && canon(cs[q].nodes[a].children, uf) == canon(k1.1, uf);
        let (q2, a2) = choose|q: int, a: int| 0 <= q < cs.len() && cs[q].id == uf[m[k2] as int]
            && 0 <= a < cs[q].nodes.len() && (#[trigger] cs[q].nodes[a]).op == k2.0
            && canon(cs[q].nodes[a].children, uf) == canon(k2.1, uf);
        if q1 != q2 {
            if q1 < q2 { assert(cs[q1].id != cs[q2].id); } else { assert(cs[q2].id != cs[q1].id); }
        }
        let n1 = cs[q1].nodes[a1];
        let n2 = cs[q1].nodes[a2];
        assert(n1.children.len() == canon(k1.1, uf).len());
        assert(n2.children.len() == canon(k2.1, uf).len());
        assert forall|j: int| 0 <= j < k1.1.len() implies uf[#[trigger] k1.1[j] as int] == uf[k2.1[j] as int] by {
            assert(same_ctor_at(cs, ar, q1, a1, a2, j));
            assert(uf[n1.children[j] as int] == canon(n1.children, uf)[j]);
            assert(uf[n2.children[j] as int] == canon(n2.children, uf)[j]);
            assert(canon(n1.children, uf)[j] == canon(k1.1, uf)[j]);
            assert(canon(n2.children, uf)[j] == canon(k2.1, uf)[j]);
        }
    }
}

proof fn lemma_memo_clash_listed(cs: Seq<EClassV>, m: Memo, uf: Seq<usize>, ar: Map<Seq<char>, usize>)
    requires listing_ok(cs, uf), listing_complete(cs, m, uf), uf_ok(uf), memo_ok(m, uf.len()),
    ensures memo_clash(m, uf, ar) ==> listing_clash(cs, ar),
{
    if memo_clash(m, uf, ar) {
        let (k1, k2) = choose|k1: MemoKey, k2: MemoKey| #[trigger] m.contains_key(k1) && #[trigger] m.contains_key(k2)
            && ctor_key(k1, ar) && ctor_key(k2, ar) && k1.0 != k2.0
            && uf[m[k1] as int] == uf[m[k2] as int];
        let (q1, a1) = choose|q: int, a: int| 0 <= q < cs.len() && cs[q].id == uf[m[k1] as int]
            && 0 <= a < cs[q].nodes.len() && (#[trigger] cs[q].nodes[a]).op == k1.0
            && canon(cs[q].nodes[a].children, uf) == canon(k1.1, uf);
        let (q2, a2) = choose|q: int, a: int| 0 <= q < cs.len() && cs[q].id == uf[m[k2] as int]
            && 0 <= a < cs[q].nodes.len() && (#[trigger] cs[q].nodes[a]).op == k2.0
            && canon(cs[q].nodes[a].children, uf) == canon(k2.1, uf);
        if q1 != q2 {
            if q1 < q2 { assert(cs[q1].id != cs[q2].id); } else { assert(cs[q2].id != cs[q1].id); }
        }
        assert(cs[q1].nodes[a1].children.len() == canon(k1.1, uf).len());
        assert(cs[q2].nodes[a2].children.len() == canon(k2.1, uf).len());
        assert(is_ctor(cs[q1].nodes[a1], ar));
        assert(is_ctor(cs[q1].nodes[a2], ar));
        assert(class_clash(cs, ar, q1));
    }
}

proof fn lemma_listed_clash_memo(cs: Seq<EClassV>, m: Memo, uf: Seq<usize>, ar: Map<Seq<char>, usize>)
    requires listing_ok(cs, uf), listing_sound(cs, m, uf), uf_ok(uf), memo_ok(m, uf.len()),
    ensures listing_clash(cs, ar) ==> memo_clash(m, uf, ar),
{
    reveal(listing_sound);
    if listing_clash(cs, ar) {
        let q = choose|q: int| 0 <= q < cs.len() && #[trigger] class_clash(cs, ar, q);
        let (a, b) = choose|a: int, b: int| 0 <= a < cs[q].nodes.len() && 0 <= b < cs[q].nodes.len()
            && #[trigger] is_ctor(cs[q].nodes[a], ar) && #[trigger] is_ctor(cs[q].nodes[b], ar)
            && cs[q].nodes[a].op != cs[q].nodes[b].op;
        let ka = choose|x: MemoKey| #[trigger] m.contains_key(x) && x.0 == cs[q].nodes[a].op
            && canon(cs[q].nodes[a].children, uf) == canon(x.1, uf) && uf[m[x] as int] == cs[q].id;
        let kb = choose|x: MemoKey| #[trigger] m.contains_key(x) && x.0 == cs[q].nodes[b].op
            && canon(cs[q].nodes[b].children, uf) == canon(x.1, uf) && uf[m[x] as int] == cs[q].id;
        assert(canon(cs[q].nodes[a].children, uf).len() == cs[q].nodes[a].children.len());
        assert(canon(cs[q].nodes[b].children, uf).len() == cs[q].nodes[b].children.len());
        assert(ctor_key(ka, ar) && ctor_key(kb, ar));
    }
}

/// A node of the table built by a constructor with as many children as it takes.
pub open spec fn ctor_key(k: MemoKey, ar: Map<Seq<char>, usize>) -> bool {
    ar.contains_key(k.0) && ar[k.0] == k.1.len()
}

/// Values built by different constructors differ: when two such nodes of a settled e-graph
/// share a class, the clash has been reported.
pub proof fn lemma_settled_disjoint(g: EGraphStore, ar: Map<Seq<char>, usize>, clash: bool, k1: MemoKey, k2: MemoKey)
    requires
        adt_settled(g, ar, clash),
        memo_of(g).contains_key(k1), memo_of(g).contains_key(k2),
        ctor_key(k1, ar), ctor_key(k2, ar), k1.0 != k2.0,
        uf_of(g)[memo_of(g)[k1] as int] == uf_of(g)[memo_of(g)[k2] as int],
    ensures clash,
{
    assert(memo_clash(memo_of(g), uf_of(g), ar));
}

/// Equal values built by one constructor have equal arguments: two such nodes of a settled
/// e-graph in one class have their children in the same classes, position by position.
pub proof fn lemma_settled_injective(g: EGraphStore, ar: Map<Seq<char>, usize>, clash: bool, k1: MemoKey, k2: MemoKey, j: int)
    requires
        adt_settled(g, ar, clash),
        memo_of(g).contains_key(k1), memo_of(g).contains_key(k2),
        ctor_key(k1, ar), k1.0 == k2.0, k2.1.len() == k1.1.len(),
        uf_of(g)[memo_of(g)[k1] as int] == uf_of(g)[memo_of(g)[k2] as int],
        0 <= j < k1.1.len(),
    ensures uf_of(g)[k1.1[j] as int] == uf_of(g)[k2.1[j] as int],
{
    assert(uf_of(g)[k1.1[j] as int] == uf_of(g)[k2.1[j] as int]);
}

} // verus!
