//! The e-graph of `egg`, seen through the classes it assigns to node ids.
//!
//! `uf_of(g)[i]` is the id of the class that `g` finds for the node id `i`; its length is the
//! number of ids `g` has handed out. Every statement below is about that sequence, and each
//! holds of whatever `egg` does: which of two classes survives a union, and in which order
//! classes are listed, are left open.
use vstd::prelude::*;
use crate::classes::shows_class;
use crate::rules::{RuleText, RuleTextV, rules_v};
use egg::{EGraph, Extractor, AstSize, Id, Pattern, Rewrite, Runner, SymbolLang};

verus! {

/// An `egg` e-graph over symbolic nodes (an operator name and child ids), without analysis
/// data. Its contents are known through `uf_of` (the class of each id) and `memo_of` (its
/// hash-cons table).
#[verifier::external_body]
pub struct EGraphStore {
    graph: EGraph<SymbolLang, ()>,
}

#[verifier::external_type_specification]
#[verifier::external_body]
#[verifier::reject_recursive_types(L)]
#[verifier::reject_recursive_types(N)]
pub struct ExRewrite<L, N>(Rewrite<L, N>);

#[verifier::external_type_specification]
#[verifier::external_body]
pub struct ExSymbolLang(SymbolLang);

/// The class found for each node id handed out so far.
pub uninterp spec fn uf_of(g: EGraphStore) -> Seq<usize>;

/// Whether `egg` accepts `lhs => rhs` as a rewrite: both parse as patterns and every
/// variable of `rhs` occurs in `lhs`.
pub uninterp spec fn rule_compiles(lhs: Seq<char>, rhs: Seq<char>) -> bool;

/// The hash-cons table of the e-graph: each node it has met, as an operator and child ids
/// (the children's classes when the node was entered), with the id it was entered under.
pub uninterp spec fn memo_of(g: EGraphStore) -> Memo;

/// A node of the hash-cons table: an operator and child ids.
pub type MemoKey = (Seq<char>, Seq<usize>);

/// The hash-cons table: nodes and the ids they were entered under.
pub type Memo = Map<MemoKey, usize>;

/// Children replaced by their classes.
pub open spec fn canon(ch: Seq<usize>, uf: Seq<usize>) -> Seq<usize> {
    Seq::new(ch.len(), |i: int| uf[ch[i] as int])
}

/// The table speaks only of ids of the e-graph.
pub open spec fn memo_ok(m: Memo, n: nat) -> bool {
    forall|k: MemoKey| #[trigger] m.contains_key(k)
        ==> m[k] < n && forall|i: int| 0 <= i < k.1.len() ==> #[trigger] k.1[i] < n
}

/// Every entry of `m1` is still in `m2`, under an id of the same class (by `uf2`).
pub open spec fn memo_kept(m1: Memo, m2: Memo, uf2: Seq<usize>) -> bool {
    forall|k: MemoKey| #[trigger] m1.contains_key(k)
        ==> m2.contains_key(k) && uf2[m2[k] as int] == uf2[m1[k] as int]
}

/// Congruence: two entries with one operator and children in the same classes are in the
/// same class.
pub open spec fn congruent(m: Memo, uf: Seq<usize>) -> bool {
    forall|k1: MemoKey, k2: MemoKey|
        #[trigger] m.contains_key(k1) && #[trigger] m.contains_key(k2) && k1.0 == k2.0
            && canon(k1.1, uf) == canon(k2.1, uf)
        ==> uf[m[k1] as int] == uf[m[k2] as int]
}

/// Every entry's node, with its children replaced by their classes, is in the table too.
pub open spec fn canonical_closed(m: Memo, uf: Seq<usize>) -> bool {
    forall|k: MemoKey| #[trigger] m.contains_key(k) ==> m.contains_key((k.0, canon(k.1, uf)))
}

/// A rebuilt table: congruent, and holding the canonical form of each node it met.
#[verifier::opaque]
pub open spec fn clean_tables(m: Memo, uf: Seq<usize>) -> bool {
    congruent(m, uf) && canonical_closed(m, uf)
}

/// A rebuilt e-graph.
pub open spec fn clean(g: EGraphStore) -> bool {
    clean_tables(memo_of(g), uf_of(g))
}

/// The e-graph `g2` went forward from `g1`: its table keeps every entry of `g1`'s.
pub open spec fn kept(g1: EGraphStore, g2: EGraphStore) -> bool {
    memo_kept(memo_of(g1), memo_of(g2), uf_of(g2))
}

pub proof fn lemma_kept_refl(g: EGraphStore)
    ensures kept(g, g),
{
}

pub proof fn lemma_kept_trans(g1: EGraphStore, g2: EGraphStore, g3: EGraphStore)
    requires
        kept(g1, g2), kept(g2, g3),
        memo_ok(memo_of(g1), uf_of(g1).len()), memo_ok(memo_of(g2), uf_of(g2).len()),
        uf_of(g1).len() <= uf_of(g2).len(),
        coarsens(uf_of(g2), uf_of(g3)),
    ensures kept(g1, g3),
{
    let (m1, m2, m3) = (memo_of(g1), memo_of(g2), memo_of(g3));
    let (u2, u3) = (uf_of(g2), uf_of(g3));
    assert forall|k: MemoKey| #[trigger] m1.contains_key(k)
        implies m3.contains_key(k) && u3[m3[k] as int] == u3[m1[k] as int] by {
        assert(m2.contains_key(k));
        assert(u2[m2[k] as int] == u2[m1[k] as int]);
    }
}

/// What `egraph_add` leaves: the old table is part of the new one, the old ids keep their
/// classes, and the node is in the table under the resulting class.
pub proof fn lemma_add_facts(g1: EGraphStore, g2: EGraphStore, op: Seq<char>, ch: Seq<usize>, id: usize)
    requires
        uf_ok(uf_of(g1)),
        memo_ok(memo_of(g1), uf_of(g1).len()),
        forall|i: int| 0 <= i < ch.len() ==> #[trigger] ch[i] < uf_of(g1).len(),
        memo_of(g1).contains_key((op, canon(ch, uf_of(g1)))) ==> (
            memo_of(g2) == memo_of(g1) && uf_of(g2) == uf_of(g1)
            && id == uf_of(g1)[memo_of(g1)[(op, canon(ch, uf_of(g1)))] as int]),
        !memo_of(g1).contains_key((op, canon(ch, uf_of(g1)))) ==> (
            memo_of(g2) == memo_of(g1).insert((op, canon(ch, uf_of(g1))), id)
            && uf_of(g2) == uf_of(g1).push(id) && id == uf_of(g1).len()),
    ensures
        memo_of(g1).submap_of(memo_of(g2)),
        uf_of(g1).len() <= uf_of(g2).len(),
        forall|i: int| 0 <= i < uf_of(g1).len() ==> #[trigger] uf_of(g2)[i] == uf_of(g1)[i],
        memo_of(g2).contains_key((op, canon(ch, uf_of(g1)))),
        uf_of(g2)[memo_of(g2)[(op, canon(ch, uf_of(g1)))] as int] == id,
        clean(g1) ==> clean(g2),
{
    reveal(clean_tables);
    let (m1, m2, u1, u2) = (memo_of(g1), memo_of(g2), uf_of(g1), uf_of(g2));
    let key = (op, canon(ch, u1));
    if !m1.contains_key(key) {
        assert(u2[id as int] == id);
        if clean(g1) {
            assert forall|k: MemoKey| #[trigger] m1.contains_key(k) implies canon(k.1, u2) == canon(k.1, u1) by {
                assert(canon(k.1, u2) =~= canon(k.1, u1));
            }
            assert(canon(key.1, u2) =~= key.1) by {
                assert(canon(key.1, u1) =~= key.1);
            }
            assert forall|k: MemoKey| #[trigger] m2.contains_key(k) implies m2.contains_key((k.0, canon(k.1, u2))) by {
                if k != key {
                    assert(m1.contains_key(k));
                }
            }
            assert forall|k1: MemoKey, k2: MemoKey|
                #[trigger] m2.contains_key(k1) && #[trigger] m2.contains_key(k2) && k1.0 == k2.0
                    && canon(k1.1, u2) == canon(k2.1, u2)
                implies u2[m2[k1] as int] == u2[m2[k2] as int] by {
                if k1 != key && k2 != key {
                    assert(m1.contains_key(k1) && m1.contains_key(k2));
                } else if k1 == key && k2 != key {
                    assert(m1.contains_key(k2));
                    assert(m1.contains_key((k2.0, canon(k2.1, u1))));
                    assert(canon(k2.1, u1) == canon(k1.1, u2));
                    assert((k2.0, canon(k2.1, u1)) == key);
                } else if k2 == key && k1 != key {
                    assert(m1.contains_key(k1));
                    assert(m1.contains_key((k1.0, canon(k1.1, u1))));
                    assert(canon(k1.1, u1) == canon(k2.1, u2));
                    assert((k1.0, canon(k1.1, u1)) == key);
                }
            }
        }
    }
}

/// Class ids are ids, and a class id is found as itself.
pub open spec fn uf_ok(uf: Seq<usize>) -> bool {
    forall|i: int| 0 <= i < uf.len() ==> (#[trigger] uf[i]) < uf.len() && uf[uf[i] as int] == uf[i]
}

/// `after` merges classes of `before` and never splits one; its first `before.len()` ids
/// are the old ones.
pub open spec fn coarsens(before: Seq<usize>, after: Seq<usize>) -> bool {
    &&& before.len() <= after.len()
    &&& forall|i: int, j: int| 0 <= i < before.len() && 0 <= j < before.len() && before[i] == before[j]
        ==> #[trigger] after[i] == #[trigger] after[j]
    &&& forall|i: int| 0 <= i < before.len() && after[i] == i ==> #[trigger] before[i] == i
}

/// A node of a class: an operator and the ids of its children.
pub struct ENode {
    pub op: String,
    pub children: Vec<usize>,
}

pub struct ENodeV {
    pub op: Seq<char>,
    pub children: Seq<usize>,
}

impl View for ENode {
    type V = ENodeV;
    open spec fn view(&self) -> ENodeV { ENodeV { op: self.op@, children: self.children@ } }
}

/// A class and its nodes.
pub struct EClassNodes {
    pub id: usize,
    pub nodes: Vec<ENode>,
}

pub struct EClassV {
    pub id: usize,
    pub nodes: Seq<ENodeV>,
}

impl View for EClassNodes {
    type V = EClassV;
    open spec fn view(&self) -> EClassV {
        EClassV { id: self.id, nodes: self.nodes@.map_values(|n: ENode| n@) }
    }
}

pub open spec fn classes_v(cs: Seq<EClassNodes>) -> Seq<EClassV> {
    cs.map_values(|c: EClassNodes| c@)
}

/// A listing of classes of an e-graph whose class map is `uf`: each listed id is a class id,
/// no class is listed twice, and every child is an id of the e-graph.
pub open spec fn listing_ok(cs: Seq<EClassV>, uf: Seq<usize>) -> bool {
    &&& forall|k: int| 0 <= k < cs.len() ==> (#[trigger] cs[k]).id < uf.len() && uf[cs[k].id as int] == cs[k].id
    &&& forall|k1: int, k2: int| 0 <= k1 < k2 < cs.len() ==> (#[trigger] cs[k1]).id != (#[trigger] cs[k2]).id
    &&& forall|k: int, n: int, c: int| 0 <= k < cs.len() && 0 <= n < cs[k].nodes.len()
        && 0 <= c < cs[k].nodes[n].children.len() ==> #[trigger] cs[k].nodes[n].children[c] < uf.len()
}

/// Every node of the table `m` is listed in its class, up to the classes of its children.
pub open spec fn listing_complete(cs: Seq<EClassV>, m: Memo, uf: Seq<usize>) -> bool {
    forall|k: MemoKey| #[trigger] m.contains_key(k) ==> exists|q: int, a: int|
        0 <= q < cs.len() && cs[q].id == uf[m[k] as int]
        && 0 <= a < cs[q].nodes.len() && (#[trigger] cs[q].nodes[a]).op == k.0
        && canon(cs[q].nodes[a].children, uf) == canon(k.1, uf)
}

/// Every listed node is a node of the table `m` in its class, up to the classes of its
/// children.
#[verifier::opaque]
pub open spec fn listing_sound(cs: Seq<EClassV>, m: Memo, uf: Seq<usize>) -> bool {
    forall|q: int, a: int| 0 <= q < cs.len() && 0 <= a < cs[q].nodes.len() ==> exists|k: MemoKey|
        #[trigger] m.contains_key(k) && k.0 == (#[trigger] cs[q].nodes[a]).op
        && canon(cs[q].nodes[a].children, uf) == canon(k.1, uf)
        && uf[m[k] as int] == cs[q].id
}

/// The equivalence `v` (ids with equal labels) merges at least what `uf` merges.
pub open spec fn finer(uf: Seq<usize>, v: spec_fn(int) -> int) -> bool {
    forall|i: int, j: int| 0 <= i < uf.len() && 0 <= j < uf.len() && uf[i] == uf[j]
        ==> #[trigger] v(i) == #[trigger] v(j)
}

/// Congruence of the equivalence `v` over the table `m`: two entries with one operator and
/// children equivalent position by position are equivalent.
pub open spec fn cong_closed(m: Memo, v: spec_fn(int) -> int) -> bool {
    forall|k1: MemoKey, k2: MemoKey|
        #[trigger] m.contains_key(k1) && #[trigger] m.contains_key(k2) && k1.0 == k2.0
            && k1.1.len() == k2.1.len()
            && (forall|j: int| 0 <= j < k1.1.len() ==> v(k1.1[j] as int) == v(k2.1[j] as int))
        ==> v(m[k1] as int) == v(m[k2] as int)
}

/// Each entry of `m2` is an entry of `m1` entered again: same operator, children in the
/// same classes, and an id of the same class (by `uf`).
#[verifier::opaque]
pub open spec fn memo_versions(m1: Memo, m2: Memo, uf: Seq<usize>) -> bool {
    forall|k2: MemoKey| #[trigger] m2.contains_key(k2) ==> exists|k1: MemoKey|
        #[trigger] m1.contains_key(k1) && k1.0 == k2.0 && canon(k1.1, uf) == canon(k2.1, uf)
        && uf[m1[k1] as int] == uf[m2[k2] as int]
}

/// An empty e-graph (`EGraph::new`).
#[verifier::external_body]
pub(crate) fn egraph_new() -> (g: EGraphStore)
    ensures uf_of(g).len() == 0, memo_of(g) == Memo::empty(),
{
    EGraphStore { graph: EGraph::new(()) }
}

/// A copy of an e-graph (`EGraph::clone`): the same nodes, classes and pending work.
#[verifier::external_body]
pub(crate) fn egraph_clone(g: &EGraphStore) -> (r: EGraphStore)
    ensures r == *g,
{
    EGraphStore { graph: g.graph.clone() }
}

/// Adds a node (`EGraph::add`): the node with its children replaced by their classes is
/// looked up in the table; found, its class is the result; otherwise a new id is handed out
/// and entered for it. The result is a class id; the classes of the old ids do not change,
/// and the table only gains entries.
#[verifier::external_body]
pub(crate) fn egraph_add(g: &mut EGraphStore, op: &str, children: &Vec<usize>) -> (id: usize)
    requires
        uf_ok(uf_of(*old(g))),
        forall|i: int| 0 <= i < children.len() ==> #[trigger] children[i] < uf_of(*old(g)).len(),
    ensures
        uf_ok(uf_of(*final(g))),
        uf_of(*final(g)).len() == uf_of(*old(g)).len() || uf_of(*final(g)).len() == uf_of(*old(g)).len() + 1,
        forall|i: int| 0 <= i < uf_of(*old(g)).len() ==> #[trigger] uf_of(*final(g))[i] == uf_of(*old(g))[i],
        id < uf_of(*final(g)).len(),
        uf_of(*final(g))[id as int] == id,
        memo_ok(memo_of(*final(g)), uf_of(*final(g)).len()),
        memo_of(*old(g)).contains_key((op@, canon(children@, uf_of(*old(g))))) ==> (
            memo_of(*final(g)) == memo_of(*old(g)) && uf_of(*final(g)) == uf_of(*old(g))
            && id == uf_of(*old(g))[memo_of(*old(g))[(op@, canon(children@, uf_of(*old(g))))] as int]),
        !memo_of(*old(g)).contains_key((op@, canon(children@, uf_of(*old(g))))) ==> (
            memo_of(*final(g)) == memo_of(*old(g)).insert((op@, canon(children@, uf_of(*old(g)))), id)
            && uf_of(*final(g)) == uf_of(*old(g)).push(id) && id == uf_of(*old(g)).len()),
{
    let ids: Vec<Id> = children.iter().map(|&c| Id::from(c)).collect();
    usize::from(g.graph.add(SymbolLang::new(op, ids)))
}

/// The class of a node id (`EGraph::find`).
#[verifier::external_body]
pub(crate) fn egraph_find(g: &EGraphStore, id: usize) -> (r: usize)
    requires id < uf_of(*g).len(),
    ensures r == uf_of(*g)[id as int],
{
    usize::from(g.graph.find(Id::from(id)))
}

/// Merges the classes of two ids (`EGraph::union`): the ids of one of the two classes are
/// moved to the other; the result tells whether they were different.
#[verifier::external_body]
pub(crate) fn egraph_union(g: &mut EGraphStore, a: usize, b: usize) -> (merged: bool)
    requires
        uf_ok(uf_of(*old(g))),
        a < uf_of(*old(g)).len(),
        b < uf_of(*old(g)).len(),
    ensures
        uf_ok(uf_of(*final(g))),
        uf_of(*final(g)).len() == uf_of(*old(g)).len(),
        merged == (uf_of(*old(g))[a as int] != uf_of(*old(g))[b as int]),
        exists|w: usize, l: usize| #![trigger union_of(uf_of(*old(g)), w, l)]
            union_ends(uf_of(*old(g)), a, b, w, l) && uf_of(*final(g)) == union_of(uf_of(*old(g)), w, l),
        memo_of(*final(g)) == memo_of(*old(g)),
{
    g.graph.union(Id::from(a), Id::from(b))
}

/// `w` and `l` are the classes of `a` and `b`, in either order.
pub open spec fn union_ends(uf: Seq<usize>, a: usize, b: usize, w: usize, l: usize) -> bool {
    (w == uf[a as int] && l == uf[b as int]) || (w == uf[b as int] && l == uf[a as int])
}

/// The class map after the class `l` is merged into the class `w`.
pub open spec fn union_of(uf: Seq<usize>, w: usize, l: usize) -> Seq<usize> {
    Seq::new(uf.len(), |i: int| if uf[i] == l { w } else { uf[i] })
}

/// Restores the congruence invariant (`EGraph::rebuild`): each node met since is entered
/// again with its children's new classes, and classes whose nodes have become equal are
/// merged. No entry leaves the table, and afterwards the table is congruent. Every entry
/// is an old one entered again, and every merge is forced by congruence: an equivalence that
/// merges what the old classes merge and is congruent over the old table merges all that
/// the new classes merge.
#[verifier::external_body]
pub(crate) fn egraph_rebuild(g: &mut EGraphStore)
    requires uf_ok(uf_of(*old(g))),
    ensures
        uf_ok(uf_of(*final(g))),
        uf_of(*final(g)).len() == uf_of(*old(g)).len(),
        coarsens(uf_of(*old(g)), uf_of(*final(g))),
        memo_ok(memo_of(*final(g)), uf_of(*final(g)).len()),
        kept(*old(g), *final(g)),
        clean(*final(g)),
        memo_versions(memo_of(*old(g)), memo_of(*final(g)), uf_of(*final(g))),
        forall|v: spec_fn(int) -> int| finer(uf_of(*old(g)), v) && cong_closed(memo_of(*old(g)), v)
            ==> #[trigger] finer(uf_of(*final(g)), v),
{
    g.graph.rebuild();
}

/// What a run of equality saturation leaves of `g1`: classes merged and ids added, the
/// table kept.
pub open spec fn run_outcome(g1: EGraphStore, g2: EGraphStore) -> bool {
    &&& uf_ok(uf_of(g2))
    &&& coarsens(uf_of(g1), uf_of(g2))
    &&& memo_ok(memo_of(g2), uf_of(g2).len())
    &&& kept(g1, g2)
}

/// A pattern as `egg` reads it: a variable, or an operator with patterns as children.
pub enum PatV {
    Var(Seq<char>),
    Node(Seq<char>, Seq<PatV>),
}

/// The pattern `egg` reads from the text `t` (`Pattern::from_str`).
pub uninterp spec fn pattern_of(t: Seq<char>) -> PatV;

/// The pattern `p` stands for the id `i` in the table `m`, up to the equivalence `v`, with
/// the variables bound by `s`: a variable for an equivalent of its binding, an operator
/// for an entry of that operator whose children the child patterns stand for.
pub open spec fn denotes(m: Memo, v: spec_fn(int) -> int, p: PatV, i: int, s: Map<Seq<char>, int>) -> bool
    decreases p, 0int,
{
    match p {
        PatV::Var(x) => s.contains_key(x) && v(s[x]) == v(i),
        PatV::Node(f, ps) => exists|k: MemoKey| #[trigger] m.contains_key(k) && k.0 == f
            && k.1.len() == ps.len() && v(m[k] as int) == v(i)
            && denotes_all(m, v, ps, k.1, s, ps.len() as int),
    }
}

/// The patterns `ps[0..n]` stand for the ids `ids[0..n]`, position by position.
pub open spec fn denotes_all(m: Memo, v: spec_fn(int) -> int, ps: Seq<PatV>, ids: Seq<usize>,
    s: Map<Seq<char>, int>, n: int) -> bool
    decreases ps, n,
{
    if n <= 0 || n > ps.len() {
        true
    } else {
        denotes_all(m, v, ps, ids, s, n - 1) && denotes(m, v, ps[n - 1], ids[n - 1] as int, s)
    }
}

/// The equivalence `v` is closed under the rules `rs`, each a left and a right pattern,
/// over the table `m`: whenever a rule's left side stands for `c` and its right side for
/// `i` under one binding, `c` and `i` are equivalent.
pub open spec fn rules_closed(rs: Seq<(PatV, PatV)>, m: Memo, v: spec_fn(int) -> int) -> bool {
    forall|r: int, c: int, i: int, s: Map<Seq<char>, int>| 0 <= r < rs.len()
        && #[trigger] denotes(m, v, rs[r].0, c, s)
        && #[trigger] denotes(m, v, rs[r].1, i, s)
        ==> v(c) == v(i)
}

/// The patterns `egg` reads from the rule texts `rs`.
pub open spec fn read_patterns(rs: Seq<RuleTextV>) -> Seq<(PatV, PatV)> {
    rs.map_values(|r: RuleTextV| (pattern_of(r.lhs), pattern_of(r.rhs)))
}

/// Every merge of a run with the rules `rs` is an instance of a rule or follows by
/// congruence: an equivalence that merges what `g1`'s classes merge and is closed under
/// congruence and the rules over `g2`'s table merges all that `g2`'s classes merge.
pub open spec fn run_justified(rs: Seq<(PatV, PatV)>, g1: EGraphStore, g2: EGraphStore) -> bool {
    forall|v: spec_fn(int) -> int| finer(uf_of(g1), v) && cong_closed(memo_of(g2), v)
        && rules_closed(rs, memo_of(g2), v)
        ==> #[trigger] finer(uf_of(g2), v)
}

/// Equality saturation (`Runner::run`, with the given limits on iterations and nodes, and the
/// runner's default time limit) with the rewrites compiled from the rule texts `rules`
/// (`Pattern::from_str`, `Rewrite::new`). Rewrites add nodes and merge the class of a match
/// of a left side with the class of the right side instantiated; rebuilds merge by
/// congruence; no entry leaves the table. Which matches are found and applied depends on
/// the time the run is given, so only what holds of every merge is stated.
#[verifier::external_body]
pub(crate) fn egraph_run(g: &mut EGraphStore, rules: &Vec<RuleText>, iter_limit: usize, node_limit: usize)
    requires
        uf_ok(uf_of(*old(g))),
        forall|i: int| 0 <= i < rules.len() ==> rule_compiles(#[trigger] rules@[i]@.lhs, rules@[i]@.rhs),
    ensures
        run_outcome(*old(g), *final(g)),
        run_justified(rules_v(rules@).map_values(|r: RuleTextV| (pattern_of(r.lhs), pattern_of(r.rhs))),
            *old(g), *final(g)),
{
    let mut rewrites: Vec<Rewrite<SymbolLang, ()>> = Vec::new();
    for r in rules.iter() {
        let lhs: Pattern<SymbolLang> = r.lhs.parse().unwrap();
        let rhs: Pattern<SymbolLang> = r.rhs.parse().unwrap();
        rewrites.push(Rewrite::new(r.name.as_str(), lhs, rhs).unwrap());
    }
    let runner = Runner::default()
        .with_egraph(std::mem::take(&mut g.graph))
        .with_iter_limit(iter_limit)
        .with_node_limit(node_limit)
        .run(&rewrites);
    g.graph = runner.egraph;
}

/// The classes of the e-graph with their nodes (`EGraph::classes`), in the e-graph's order.
/// Each class of the e-graph is listed once, under its id, with its nodes (`EClass::nodes`):
/// every node the e-graph was given, or entered again in a rebuild, stays in the node list of
/// its class (lists are joined on a union, and a rebuild only rewrites children to their
/// classes and drops duplicates), so each entry of the table is found there, up to the
/// classes of its children; and each listed node is such a node, entered in the table when
/// it was added. Which order the classes come in is left open.
#[verifier::external_body]
pub(crate) fn egraph_classes(g: &EGraphStore) -> (cs: Vec<EClassNodes>)
    ensures
        listing_ok(classes_v(cs@), uf_of(*g)),
        listing_complete(classes_v(cs@), memo_of(*g), uf_of(*g)),
        listing_sound(classes_v(cs@), memo_of(*g), uf_of(*g)),
{
    g.graph.classes().map(|c| EClassNodes {
        id: usize::from(c.id),
        nodes: c.nodes.iter().map(|n| ENode {
            op: n.op.to_string(),
            children: n.children.iter().map(|&i| usize::from(i)).collect(),
        }).collect(),
    }).collect()
}

/// The smallest term of a class (`Extractor::find_best` with `AstSize`), as text
/// (`RecExpr::to_string`, an S-expression printed as `printed_term` says). The extractor builds
/// the term from nodes of the e-graph's classes, each child taken from the class of its id, so
/// on a rebuilt e-graph the term is found in the class of `id`; its costs settle at the least
/// number of symbols of a term of each class (counted with a saturating addition), so no term
/// of the class is smaller. Which of several smallest terms comes out depends on the order in
/// which `egg` walks its tables, and is not stated.
#[verifier::external_body]
pub(crate) fn egraph_best_term(g: &EGraphStore, id: usize) -> (r: String)
    requires
        id < uf_of(*g).len(),
        uf_ok(uf_of(*g)),
        memo_ok(memo_of(*g), uf_of(*g).len()),
        clean(*g),
    ensures
        shows_class(*g, uf_of(*g)[id as int], r@),
{
    let extractor = Extractor::new(&g.graph, AstSize);
    extractor.find_best(Id::from(id)).1.to_string()
}

/// Compiles `lhs => rhs` into a rewrite (`Pattern::from_str` and `Rewrite::new`).
#[verifier::external_body]
pub(crate) fn compile_rule(name: &str, lhs: &str, rhs: &str) -> (r: Option<Rewrite<SymbolLang, ()>>)
    ensures r is Some == rule_compiles(lhs@, rhs@),
{
    let l = lhs.parse::<Pattern<SymbolLang>>().ok()?;
    let r = rhs.parse::<Pattern<SymbolLang>>().ok()?;
    Rewrite::new(name, l, r).ok()
}

} // verus!
