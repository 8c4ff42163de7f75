//! The class an e-graph gives a term or a formula: its node is looked up in the hash-cons
//! table with the children replaced by their classes, as the solver encodes it. Adding
//! nodes keeps every class found; merging and rebuilding keep it up to the merge.
use vstd::prelude::*;
use crate::ast::{TermV, FormulaV};
use crate::egraph::{EGraphStore, uf_of, uf_ok, memo_of, memo_ok, canon, kept, clean, clean_tables, coarsens, MemoKey};
use crate::text::int_text;

verus! {

/// The class of the node `op(cs)`: found in the table with its children's classes.
pub open spec fn node_cls(g: EGraphStore, op: Seq<char>, cs: Seq<usize>) -> Option<usize> {
    let key = (op, canon(cs, uf_of(g)));
    if memo_of(g).contains_key(key) { Some(uf_of(g)[memo_of(g)[key] as int]) } else { None }
}

pub open spec fn leaf_cls(g: EGraphStore, op: Seq<char>) -> Option<usize> {
    node_cls(g, op, Seq::empty())
}

/// The class of a term without `match`, as the solver encodes it: symbols and numerals are
/// leaves, applications and `ite` are nodes, an `as` annotation is dropped.
pub open spec fn term_cls(g: EGraphStore, t: TermV) -> Option<usize>
    decreases t, 0int,
{
    match t {
        TermV::Var(x) => leaf_cls(g, x),
        TermV::Int(n) => leaf_cls(g, int_text(n)),
        TermV::App(f, args) => match terms_cls(g, args, args.len() as int) {
            Some(cs) => node_cls(g, f, cs),
            None => None,
        },
        TermV::Ite(c, a, b) => match formula_cls(g, *c) {
            Some(x) => match term_cls(g, *a) {
                Some(y) => match term_cls(g, *b) {
                    Some(z) => node_cls(g, "ite"@, seq![x, y, z]),
                    None => None,
                },
                None => None,
            },
            None => None,
        },
        TermV::Match(_, _) => None,
        TermV::As(i, _) => term_cls(g, *i),
    }
}

/// The classes of `ts[0..n]`.
pub open spec fn terms_cls(g: EGraphStore, ts: Seq<TermV>, n: int) -> Option<Seq<usize>>
    decreases ts, n,
{
    if n <= 0 || n > ts.len() {
        Some(Seq::empty())
    } else {
        match terms_cls(g, ts, n - 1) {
            Some(r) => match term_cls(g, ts[n - 1]) {
                Some(c) => Some(r.push(c)),
                None => None,
            },
            None => None,
        }
    }
}

/// The class of a formula without `match`: connectives are nodes; `and` and `or` nest to the
/// right, two operands at a time; an empty one is `true` or `false`.
pub open spec fn formula_cls(g: EGraphStore, f: FormulaV) -> Option<usize>
    decreases f, 0int,
{
    match f {
        FormulaV::True => leaf_cls(g, "true"@),
        FormulaV::False => leaf_cls(g, "false"@),
        FormulaV::Eq(a, b) => match term_cls(g, a) {
            Some(x) => match term_cls(g, b) {
                Some(y) => node_cls(g, "="@, seq![x, y]),
                None => None,
            },
            None => None,
        },
        FormulaV::Not(h) => match formula_cls(g, *h) {
            Some(x) => node_cls(g, "not"@, seq![x]),
            None => None,
        },
        FormulaV::And(fs) => if fs.len() == 0 { leaf_cls(g, "true"@) } else { chain_cls(g, "and"@, fs, 0) },
        FormulaV::Or(fs) => if fs.len() == 0 { leaf_cls(g, "false"@) } else { chain_cls(g, "or"@, fs, 0) },
        FormulaV::Implies(a, b) => match formula_cls(g, *a) {
            Some(x) => match formula_cls(g, *b) {
                Some(y) => node_cls(g, "=>"@, seq![x, y]),
                None => None,
            },
            None => None,
        },
        FormulaV::Ite(c, a, b) => match formula_cls(g, *c) {
            Some(x) => match formula_cls(g, *a) {
                Some(y) => match formula_cls(g, *b) {
                    Some(z) => node_cls(g, "ite"@, seq![x, y, z]),
                    None => None,
                },
                None => None,
            },
            None => None,
        },
        FormulaV::IsTester(c, t) => match term_cls(g, t) {
            Some(x) => node_cls(g, "is-"@ + c, seq![x]),
            None => None,
        },
    }
}

/// The class of `op(fs[k], op(fs[k + 1], ... fs[last]))`.
pub open spec fn chain_cls(g: EGraphStore, op: Seq<char>, fs: Seq<FormulaV>, k: int) -> Option<usize>
    decreases fs, fs.len() - k,
{
    if k < 0 || k >= fs.len() {
        None
    } else if k == fs.len() - 1 {
        formula_cls(g, fs[k])
    } else {
        match formula_cls(g, fs[k]) {
            Some(x) => match chain_cls(g, op, fs, k + 1) {
                Some(y) => node_cls(g, op, seq![x, y]),
                None => None,
            },
            None => None,
        }
    }
}

/// `g2` extends `g1`: nodes added, each new id a class of its own, no class changed.
pub open spec fn extends(g1: EGraphStore, g2: EGraphStore) -> bool {
    &&& memo_of(g1).submap_of(memo_of(g2))
    &&& uf_of(g1).len() <= uf_of(g2).len()
    &&& forall|i: int| 0 <= i < uf_of(g1).len() ==> #[trigger] uf_of(g2)[i] == uf_of(g1)[i]
    &&& forall|i: int| uf_of(g1).len() <= i < uf_of(g2).len() ==> #[trigger] uf_of(g2)[i] == i
}

/// The facts the lemmas below rest on: classes are ids, the table speaks of ids.
#[verifier::opaque]
pub open spec fn graph_ok(g: EGraphStore) -> bool {
    uf_ok(uf_of(g)) && memo_ok(memo_of(g), uf_of(g).len())
}

pub open spec fn is_class(g: EGraphStore, c: Option<usize>) -> bool {
    c matches Some(x) ==> x < uf_of(g).len() && uf_of(g)[x as int] == x
}

pub open spec fn all_classes(g: EGraphStore, cs: Seq<usize>) -> bool {
    forall|i: int| 0 <= i < cs.len() ==> #[trigger] cs[i] < uf_of(g).len() && uf_of(g)[cs[i] as int] == cs[i]
}

pub proof fn lemma_extends_refl(g: EGraphStore)
    ensures extends(g, g),
{
    assert(memo_of(g).submap_of(memo_of(g)));
}

pub proof fn lemma_extends_trans(g1: EGraphStore, g2: EGraphStore, g3: EGraphStore)
    requires extends(g1, g2), extends(g2, g3),
    ensures extends(g1, g3),
{
    assert forall|i: int| 0 <= i < uf_of(g1).len() implies #[trigger] uf_of(g3)[i] == uf_of(g1)[i] by {
        assert(uf_of(g2)[i] == uf_of(g1)[i]);
    }
    assert forall|k: MemoKey| #[trigger] memo_of(g1).contains_key(k) implies
        memo_of(g3).contains_key(k) && memo_of(g3)[k] == memo_of(g1)[k] by {
        assert(memo_of(g2).contains_key(k));
    }
}

/// An extension keeps the table, and hence the entries' classes.
pub proof fn lemma_extends_kept(g1: EGraphStore, g2: EGraphStore)
    requires extends(g1, g2),
    ensures kept(g1, g2),
{
    assert forall|k: MemoKey| #[trigger] memo_of(g1).contains_key(k) implies
        memo_of(g2).contains_key(k) && uf_of(g2)[memo_of(g2)[k] as int] == uf_of(g2)[memo_of(g1)[k] as int] by {
        assert(memo_of(g1).dom().contains(k));
        assert(memo_of(g2).dom().contains(k));
        assert(memo_of(g2)[k] == memo_of(g1)[k]);
    }
}

/// A leaf whose class is that of `id` stays in the class of `id` when the e-graph goes
/// forward.
pub proof fn lemma_leaf_forward(g1: EGraphStore, g2: EGraphStore, op: Seq<char>, id: usize)
    requires
        graph_ok(g1),
        kept(g1, g2),
        coarsens(uf_of(g1), uf_of(g2)),
        id < uf_of(g1).len(),
        leaf_cls(g1, op) == Some(uf_of(g1)[id as int]),
    ensures leaf_cls(g2, op) == Some(uf_of(g2)[id as int]),
{
    reveal(graph_ok);
    let e = Seq::<usize>::empty();
    assert(canon(e, uf_of(g1)) =~= e);
    assert(canon(e, uf_of(g2)) =~= e);
    let key = (op, e);
    assert(memo_of(g1).contains_key(key));
    let m = memo_of(g1)[key];
    assert(m < uf_of(g1).len());
    assert(uf_of(g2)[m as int] == uf_of(g2)[id as int]);
}

/// The node just entered under `id` for `op(ch)` is found in class `id`.
pub proof fn lemma_node_entered(g1: EGraphStore, g2: EGraphStore, op: Seq<char>, ch: Seq<usize>, id: usize)
    requires
        uf_ok(uf_of(g2)),
        forall|i: int| 0 <= i < ch.len() ==> #[trigger] ch[i] < uf_of(g1).len(),
        extends(g1, g2),
        memo_of(g2).contains_key((op, canon(ch, uf_of(g1)))),
        uf_of(g2)[memo_of(g2)[(op, canon(ch, uf_of(g1)))] as int] == id,
    ensures node_cls(g2, op, canon(ch, uf_of(g2))) == Some(id),
{
    let (u1, u2) = (uf_of(g1), uf_of(g2));
    assert(canon(ch, u2) =~= canon(ch, u1));
    assert(canon(canon(ch, u2), u2) =~= canon(ch, u1)) by {
        assert forall|i: int| 0 <= i < ch.len() implies u2[u2[ch[i] as int] as int] == u1[ch[i] as int] by {
            assert(u2[ch[i] as int] == u1[ch[i] as int]);
        }
    }
}

/// Classes found for each of `ts[0..n]` make the classes of `ts[0..n]`.
pub proof fn lemma_terms_cls_of(g: EGraphStore, ts: Seq<TermV>, ids: Seq<usize>, n: int)
    requires
        0 <= n <= ts.len(),
        n <= ids.len(),
        forall|j: int| 0 <= j < n ==> #[trigger] term_cls(g, ts[j]) == Some(ids[j]),
    ensures terms_cls(g, ts, n) == Some(ids.take(n)),
    decreases n,
{
    if n > 0 {
        lemma_terms_cls_of(g, ts, ids, n - 1);
        assert(term_cls(g, ts[n - 1]) == Some(ids[n - 1]));
        assert(ids.take(n - 1).push(ids[n - 1]) =~= ids.take(n));
        assert(terms_cls(g, ts, n) == Some(ids.take(n - 1).push(ids[n - 1])));
    } else {
        assert(ids.take(0) =~= Seq::<usize>::empty());
    }
}

/// Each of `ts[0..ids.len()]` is found in the class `ids[j]`.
pub open spec fn terms_found(g: EGraphStore, ts: Seq<TermV>, ids: Seq<usize>) -> bool {
    &&& ids.len() <= ts.len()
    &&& forall|j: int| 0 <= j < ids.len() ==> #[trigger] ids[j] < uf_of(g).len()
        && uf_of(g)[ids[j] as int] == ids[j] && term_cls(g, ts[j]) == Some(ids[j])
}

/// Each of `fs[0..ids.len()]` is found in the class of `ids[j]`.
pub open spec fn formulas_found(g: EGraphStore, fs: Seq<FormulaV>, ids: Seq<usize>) -> bool {
    &&& ids.len() <= fs.len()
    &&& forall|j: int| 0 <= j < ids.len() ==> #[trigger] ids[j] < uf_of(g).len()
        && formula_cls(g, fs[j]) == Some(uf_of(g)[ids[j] as int])
}

pub proof fn lemma_terms_found_extends(g1: EGraphStore, g2: EGraphStore, ts: Seq<TermV>, ids: Seq<usize>)
    requires graph_ok(g1), extends(g1, g2), terms_found(g1, ts, ids),
    ensures terms_found(g2, ts, ids),
{
    assert forall|j: int| 0 <= j < ids.len() implies #[trigger] ids[j] < uf_of(g2).len()
        && uf_of(g2)[ids[j] as int] == ids[j] && term_cls(g2, ts[j]) == Some(ids[j]) by {
        assert(ids[j] < uf_of(g1).len() && term_cls(g1, ts[j]) == Some(ids[j]));
        lemma_term_extends(g1, g2, ts[j]);
    }
}

pub proof fn lemma_formulas_found_extends(g1: EGraphStore, g2: EGraphStore, fs: Seq<FormulaV>, ids: Seq<usize>)
    requires graph_ok(g1), extends(g1, g2), formulas_found(g1, fs, ids),
    ensures formulas_found(g2, fs, ids),
{
    assert forall|j: int| 0 <= j < ids.len() implies #[trigger] ids[j] < uf_of(g2).len()
        && formula_cls(g2, fs[j]) == Some(uf_of(g2)[ids[j] as int]) by {
        assert(ids[j] < uf_of(g1).len() && formula_cls(g1, fs[j]) == Some(uf_of(g1)[ids[j] as int]));
        lemma_formula_extends(g1, g2, fs[j]);
    }
}

pub proof fn lemma_terms_found_push(g: EGraphStore, ts: Seq<TermV>, ids: Seq<usize>, id: usize)
    requires
        terms_found(g, ts, ids), ids.len() < ts.len(),
        id < uf_of(g).len(), uf_of(g)[id as int] == id, term_cls(g, ts[ids.len() as int]) == Some(id),
    ensures terms_found(g, ts, ids.push(id)),
{
    assert forall|j: int| 0 <= j < ids.len() + 1 implies #[trigger] ids.push(id)[j] < uf_of(g).len()
        && uf_of(g)[ids.push(id)[j] as int] == ids.push(id)[j] && term_cls(g, ts[j]) == Some(ids.push(id)[j]) by {
        if j < ids.len() { assert(ids.push(id)[j] == ids[j]); }
    }
}

pub proof fn lemma_formulas_found_push(g: EGraphStore, fs: Seq<FormulaV>, ids: Seq<usize>, id: usize)
    requires
        formulas_found(g, fs, ids), ids.len() < fs.len(),
        id < uf_of(g).len(), formula_cls(g, fs[ids.len() as int]) == Some(uf_of(g)[id as int]),
    ensures formulas_found(g, fs, ids.push(id)),
{
    assert forall|j: int| 0 <= j < ids.len() + 1 implies #[trigger] ids.push(id)[j] < uf_of(g).len()
        && formula_cls(g, fs[j]) == Some(uf_of(g)[ids.push(id)[j] as int]) by {
        if j < ids.len() { assert(ids.push(id)[j] == ids[j]); }
    }
}

/// Terms found in classes `ids` make the classes `ids`, and a node over them is found
/// under the ids as they are.
pub proof fn lemma_terms_found_cls(g: EGraphStore, ts: Seq<TermV>, ids: Seq<usize>)
    requires terms_found(g, ts, ids), ids.len() == ts.len(),
    ensures terms_cls(g, ts, ts.len() as int) == Some(ids), canon(ids, uf_of(g)) == ids,
{
    lemma_terms_cls_of(g, ts, ids, ts.len() as int);
    assert(ids.take(ts.len() as int) =~= ids);
    assert(canon(ids, uf_of(g)) =~= ids);
}

/// The classes of `ts[0..n]` are those of each term in turn.
pub proof fn lemma_terms_cls_at(g: EGraphStore, ts: Seq<TermV>, n: int, j: int)
    requires terms_cls(g, ts, n) is Some, 0 <= j < n <= ts.len(),
    ensures
        terms_cls(g, ts, n)->Some_0.len() == n,
        term_cls(g, ts[j]) == Some(terms_cls(g, ts, n)->Some_0[j]),
    decreases n,
{
    lemma_terms_cls_len(g, ts, n - 1);
    if j < n - 1 {
        lemma_terms_cls_at(g, ts, n - 1, j);
    }
}

pub proof fn lemma_terms_cls_len(g: EGraphStore, ts: Seq<TermV>, n: int)
    requires terms_cls(g, ts, n) is Some, 0 <= n <= ts.len(),
    ensures terms_cls(g, ts, n)->Some_0.len() == n,
    decreases n,
{
    if n > 0 { lemma_terms_cls_len(g, ts, n - 1); }
}

/// How `egg` prints an operator: in double quotes when it is empty or holds a space, a tab,
/// `(`, `)`, `{`, `}` or `%`; as it is otherwise.
pub open spec fn printed_op(s: Seq<char>) -> Seq<char> {
    if s.len() == 0 || s.contains(' ') || s.contains('\t') || s.contains('(') || s.contains(')')
        || s.contains('{') || s.contains('}') || s.contains('%') {
        "\""@ + s + "\""@
    } else {
        s
    }
}

/// How `egg` prints a term (`RecExpr`'s `Display`): a leaf as its operator, a node as
/// `(op child ...)` with its children separated by spaces.
pub open spec fn printed_term(t: TermV) -> Seq<char>
    decreases t, 0int,
{
    match t {
        TermV::Var(x) => printed_op(x),
        TermV::App(f, args) => if args.len() == 0 {
            printed_op(f)
        } else {
            "("@ + printed_op(f) + printed_children(args, args.len() as int) + ")"@
        },
        _ => Seq::empty(),
    }
}

/// `ts[0..n]` printed, each after a space.
pub open spec fn printed_children(ts: Seq<TermV>, n: int) -> Seq<char>
    decreases ts, n,
{
    if n <= 0 || n > ts.len() {
        Seq::empty()
    } else {
        printed_children(ts, n - 1) + " "@ + printed_term(ts[n - 1])
    }
}

/// A term made of symbols and applications only, as the e-graph's nodes make them.
pub open spec fn plain_term(t: TermV) -> bool
    decreases t, 0int,
{
    match t {
        TermV::Var(_) => true,
        TermV::App(_, args) => plain_terms(args, args.len() as int),
        _ => false,
    }
}

/// `ts[0..n]` are plain terms.
pub open spec fn plain_terms(ts: Seq<TermV>, n: int) -> bool
    decreases ts, n,
{
    if n <= 0 || n > ts.len() {
        true
    } else {
        plain_terms(ts, n - 1) && plain_term(ts[n - 1])
    }
}

/// The number of symbols of a plain term (`egg`'s `AstSize`).
pub open spec fn term_size(t: TermV) -> nat
    decreases t, 0int,
{
    match t {
        TermV::App(_, args) => 1 + terms_size(args, args.len() as int),
        _ => 1,
    }
}

/// The sizes of `ts[0..n]`, added up.
pub open spec fn terms_size(ts: Seq<TermV>, n: int) -> nat
    decreases ts, n,
{
    if n <= 0 || n > ts.len() {
        0
    } else {
        terms_size(ts, n - 1) + term_size(ts[n - 1])
    }
}

/// `v` is the text of a smallest plain term that the e-graph finds in the class `c`: no
/// plain term of the class has fewer symbols (among those with fewer than `usize::MAX`,
/// where `egg`'s count stops growing).
pub open spec fn shows_class(g: EGraphStore, c: usize, v: Seq<char>) -> bool {
    exists|t: TermV| #[trigger] printed_term(t) == v && term_cls(g, t) == Some(c) && plain_term(t)
        && forall|t2: TermV| plain_term(t2) && #[trigger] term_cls(g, t2) == Some(c) && term_size(t2) < usize::MAX
            ==> term_size(t) <= term_size(t2)
}

// ---------------------------------------------------------------------------
// Classes are class ids
// ---------------------------------------------------------------------------

pub proof fn lemma_node_is_class(g: EGraphStore, op: Seq<char>, cs: Seq<usize>)
    requires graph_ok(g),
    ensures is_class(g, node_cls(g, op, cs)),
{
    reveal(graph_ok);
    let key = (op, canon(cs, uf_of(g)));
    if memo_of(g).contains_key(key) {
        assert(memo_of(g)[key] < uf_of(g).len());
    }
}

pub proof fn lemma_term_is_class(g: EGraphStore, t: TermV)
    requires graph_ok(g),
    ensures is_class(g, term_cls(g, t)),
    decreases t, 0int,
{
    match t {
        TermV::Var(x) => lemma_node_is_class(g, x, Seq::empty()),
        TermV::Int(n) => lemma_node_is_class(g, int_text(n), Seq::empty()),
        TermV::App(f, args) => {
            if let Some(cs) = terms_cls(g, args, args.len() as int) {
                lemma_node_is_class(g, f, cs);
            }
        },
        TermV::Ite(c, a, b) => {
            if let (Some(x), Some(y), Some(z)) = (formula_cls(g, *c), term_cls(g, *a), term_cls(g, *b)) {
                lemma_node_is_class(g, "ite"@, seq![x, y, z]);
            }
        },
        TermV::Match(_, _) => {},
        TermV::As(i, _) => lemma_term_is_class(g, *i),
    }
}

pub proof fn lemma_formula_is_class(g: EGraphStore, f: FormulaV)
    requires graph_ok(g),
    ensures is_class(g, formula_cls(g, f)),
    decreases f, 0int,
{
    match f {
        FormulaV::True => lemma_node_is_class(g, "true"@, Seq::empty()),
        FormulaV::False => lemma_node_is_class(g, "false"@, Seq::empty()),
        FormulaV::Eq(a, b) => {
            if let (Some(x), Some(y)) = (term_cls(g, a), term_cls(g, b)) {
                lemma_node_is_class(g, "="@, seq![x, y]);
            }
        },
        FormulaV::Not(h) => {
            if let Some(x) = formula_cls(g, *h) { lemma_node_is_class(g, "not"@, seq![x]); }
        },
        FormulaV::And(fs) => {
            if fs.len() == 0 { lemma_node_is_class(g, "true"@, Seq::empty()); } else { lemma_chain_is_class(g, "and"@, fs, 0); }
        },
        FormulaV::Or(fs) => {
            if fs.len() == 0 { lemma_node_is_class(g, "false"@, Seq::empty()); } else { lemma_chain_is_class(g, "or"@, fs, 0); }
        },
        FormulaV::Implies(a, b) => {
            if let (Some(x), Some(y)) = (formula_cls(g, *a), formula_cls(g, *b)) {
                lemma_node_is_class(g, "=>"@, seq![x, y]);
            }
        },
        FormulaV::Ite(c, a, b) => {
            if let (Some(x), Some(y), Some(z)) = (formula_cls(g, *c), formula_cls(g, *a), formula_cls(g, *b)) {
                lemma_node_is_class(g, "ite"@, seq![x, y, z]);
            }
        },
        FormulaV::IsTester(c, t) => {
            if let Some(x) = term_cls(g, t) { lemma_node_is_class(g, "is-"@ + c, seq![x]); }
        },
    }
}

pub proof fn lemma_chain_is_class(g: EGraphStore, op: Seq<char>, fs: Seq<FormulaV>, k: int)
    requires graph_ok(g),
    ensures is_class(g, chain_cls(g, op, fs, k)),
    decreases fs, fs.len() - k,
{
    if 0 <= k < fs.len() {
        if k == fs.len() - 1 {
            lemma_formula_is_class(g, fs[k]);
        } else if let (Some(x), Some(y)) = (formula_cls(g, fs[k]), chain_cls(g, op, fs, k + 1)) {
            lemma_node_is_class(g, op, seq![x, y]);
        }
    }
}

// ---------------------------------------------------------------------------
// Adding nodes keeps every class found
// ---------------------------------------------------------------------------

pub proof fn lemma_node_extends(g1: EGraphStore, g2: EGraphStore, op: Seq<char>, cs: Seq<usize>)
    requires graph_ok(g1), extends(g1, g2), all_classes(g1, cs), node_cls(g1, op, cs) is Some,
    ensures node_cls(g2, op, cs) == node_cls(g1, op, cs),
{
    reveal(graph_ok);
    let (u1, u2) = (uf_of(g1), uf_of(g2));
    assert(canon(cs, u2) =~= canon(cs, u1));
    let key = (op, canon(cs, u1));
    assert(memo_of(g1)[key] < u1.len());
}

pub proof fn lemma_term_extends(g1: EGraphStore, g2: EGraphStore, t: TermV)
    requires graph_ok(g1), extends(g1, g2), term_cls(g1, t) is Some,
    ensures term_cls(g2, t) == term_cls(g1, t),
    decreases t, 0int,
{
    match t {
        TermV::Var(x) => lemma_node_extends(g1, g2, x, Seq::empty()),
        TermV::Int(n) => lemma_node_extends(g1, g2, int_text(n), Seq::empty()),
        TermV::App(f, args) => {
            lemma_terms_extends(g1, g2, args, args.len() as int);
            let cs = terms_cls(g1, args, args.len() as int)->Some_0;
            lemma_terms_are_classes(g1, args, args.len() as int);
            lemma_node_extends(g1, g2, f, cs);
        },
        TermV::Ite(c, a, b) => {
            lemma_formula_extends(g1, g2, *c);
            lemma_term_extends(g1, g2, *a);
            lemma_term_extends(g1, g2, *b);
            lemma_formula_is_class(g1, *c);
            lemma_term_is_class(g1, *a);
            lemma_term_is_class(g1, *b);
            let cs = seq![formula_cls(g1, *c)->Some_0, term_cls(g1, *a)->Some_0, term_cls(g1, *b)->Some_0];
            lemma_node_extends(g1, g2, "ite"@, cs);
        },
        TermV::Match(_, _) => {},
        TermV::As(i, _) => lemma_term_extends(g1, g2, *i),
    }
}

pub proof fn lemma_terms_are_classes(g: EGraphStore, ts: Seq<TermV>, n: int)
    requires graph_ok(g), terms_cls(g, ts, n) is Some,
    ensures all_classes(g, terms_cls(g, ts, n)->Some_0), terms_cls(g, ts, n)->Some_0.len() == (if 0 <= n <= ts.len() { n } else { 0 }),
    decreases ts, n,
{
    if 0 < n <= ts.len() {
        lemma_terms_are_classes(g, ts, n - 1);
        lemma_term_is_class(g, ts[n - 1]);
    }
}

pub proof fn lemma_terms_extends(g1: EGraphStore, g2: EGraphStore, ts: Seq<TermV>, n: int)
    requires graph_ok(g1), extends(g1, g2), terms_cls(g1, ts, n) is Some,
    ensures terms_cls(g2, ts, n) == terms_cls(g1, ts, n),
    decreases ts, n,
{
    if 0 < n <= ts.len() {
        lemma_terms_extends(g1, g2, ts, n - 1);
        lemma_term_extends(g1, g2, ts[n - 1]);
    }
}

pub proof fn lemma_formula_extends(g1: EGraphStore, g2: EGraphStore, f: FormulaV)
    requires graph_ok(g1), extends(g1, g2), formula_cls(g1, f) is Some,
    ensures formula_cls(g2, f) == formula_cls(g1, f),
    decreases f, 0int,
{
    match f {
        FormulaV::True => lemma_node_extends(g1, g2, "true"@, Seq::empty()),
        FormulaV::False => lemma_node_extends(g1, g2, "false"@, Seq::empty()),
        FormulaV::Eq(a, b) => {
            lemma_term_extends(g1, g2, a);
            lemma_term_extends(g1, g2, b);
            lemma_term_is_class(g1, a);
            lemma_term_is_class(g1, b);
            lemma_node_extends(g1, g2, "="@, seq![term_cls(g1, a)->Some_0, term_cls(g1, b)->Some_0]);
        },
        FormulaV::Not(h) => {
            lemma_formula_extends(g1, g2, *h);
            lemma_formula_is_class(g1, *h);
            lemma_node_extends(g1, g2, "not"@, seq![formula_cls(g1, *h)->Some_0]);
        },
        FormulaV::And(fs) => {
            if fs.len() == 0 { lemma_node_extends(g1, g2, "true"@, Seq::empty()); } else { lemma_chain_extends(g1, g2, "and"@, fs, 0); }
        },
        FormulaV::Or(fs) => {
            if fs.len() == 0 { lemma_node_extends(g1, g2, "false"@, Seq::empty()); } else { lemma_chain_extends(g1, g2, "or"@, fs, 0); }
        },
        FormulaV::Implies(a, b) => {
            lemma_formula_extends(g1, g2, *a);
            lemma_formula_extends(g1, g2, *b);
            lemma_formula_is_class(g1, *a);
            lemma_formula_is_class(g1, *b);
            lemma_node_extends(g1, g2, "=>"@, seq![formula_cls(g1, *a)->Some_0, formula_cls(g1, *b)->Some_0]);
        },
        FormulaV::Ite(c, a, b) => {
            lemma_formula_extends(g1, g2, *c);
            lemma_formula_extends(g1, g2, *a);
            lemma_formula_extends(g1, g2, *b);
            lemma_formula_is_class(g1, *c);
            lemma_formula_is_class(g1, *a);
            lemma_formula_is_class(g1, *b);
            lemma_node_extends(g1, g2, "ite"@,
                seq![formula_cls(g1, *c)->Some_0, formula_cls(g1, *a)->Some_0, formula_cls(g1, *b)->Some_0]);
        },
        FormulaV::IsTester(c, t) => {
            lemma_term_extends(g1, g2, t);
            lemma_term_is_class(g1, t);
            lemma_node_extends(g1, g2, "is-"@ + c, seq![term_cls(g1, t)->Some_0]);
        },
    }
}

pub proof fn lemma_chain_extends(g1: EGraphStore, g2: EGraphStore, op: Seq<char>, fs: Seq<FormulaV>, k: int)
    requires graph_ok(g1), extends(g1, g2), chain_cls(g1, op, fs, k) is Some,
    ensures chain_cls(g2, op, fs, k) == chain_cls(g1, op, fs, k),
    decreases fs, fs.len() - k,
{
    if k == fs.len() - 1 {
        lemma_formula_extends(g1, g2, fs[k]);
    } else {
        lemma_formula_extends(g1, g2, fs[k]);
        lemma_chain_extends(g1, g2, op, fs, k + 1);
        lemma_formula_is_class(g1, fs[k]);
        lemma_chain_is_class(g1, op, fs, k + 1);
        lemma_node_extends(g1, g2, op, seq![formula_cls(g1, fs[k])->Some_0, chain_cls(g1, op, fs, k + 1)->Some_0]);
    }
}

// ---------------------------------------------------------------------------
// Merging and rebuilding keep every class found, up to the merge
// ---------------------------------------------------------------------------

/// `g2` went forward from `g1` and was rebuilt: the table kept, classes only merged.
#[verifier::opaque]
pub open spec fn evolves(g1: EGraphStore, g2: EGraphStore) -> bool {
    &&& graph_ok(g1)
    &&& graph_ok(g2)
    &&& kept(g1, g2)
    &&& coarsens(uf_of(g1), uf_of(g2))
    &&& clean(g2)
}

pub proof fn lemma_evolves_ok(g1: EGraphStore, g2: EGraphStore)
    requires evolves(g1, g2),
    ensures graph_ok(g1), graph_ok(g2),
{
    reveal(evolves);
}

pub proof fn lemma_node_evolves(g1: EGraphStore, g2: EGraphStore, op: Seq<char>, cs1: Seq<usize>, cs2: Seq<usize>)
    requires
        evolves(g1, g2),
        all_classes(g1, cs1),
        cs2.len() == cs1.len(),
        forall|i: int| 0 <= i < cs1.len() ==> cs2[i] == uf_of(g2)[cs1[i] as int],
        node_cls(g1, op, cs1) is Some,
    ensures
        node_cls(g2, op, cs2) == Some(uf_of(g2)[node_cls(g1, op, cs1)->Some_0 as int]),
{
    reveal(evolves);
    reveal(graph_ok);
    reveal(clean_tables);
    let (u1, u2, m1, m2) = (uf_of(g1), uf_of(g2), memo_of(g1), memo_of(g2));
    let k1 = (op, canon(cs1, u1));
    assert(m1.contains_key(k1));
    assert(m2.contains_key(k1));
    assert(m1[k1] < u1.len());
    let k2 = (op, canon(cs2, u2));
    assert forall|i: int| 0 <= i < cs1.len() implies #[trigger] u2[u1[cs1[i] as int] as int] == u2[cs1[i] as int] by {
        assert(u1[u1[cs1[i] as int] as int] == u1[cs1[i] as int]);
    }
    assert(canon(k1.1, u2) =~= canon(cs1, u2));
    assert(canon(cs2, u2) =~= canon(cs1, u2));
    assert(k2 == (k1.0, canon(k1.1, u2)));
    assert(m2.contains_key(k2));
    assert(k2.1 =~= canon(k2.1, u2)) by {
        assert forall|i: int| 0 <= i < k2.1.len() implies k2.1[i] == u2[k2.1[i] as int] by {
            assert(u2[u2[cs1[i] as int] as int] == u2[cs1[i] as int]);
        }
    }
    assert(canon(k1.1, u2) == canon(k2.1, u2));
    assert(u2[m2[k1] as int] == u2[m2[k2] as int]);
    assert(u2[u1[m1[k1] as int] as int] == u2[m1[k1] as int]) by {
        assert(u1[u1[m1[k1] as int] as int] == u1[m1[k1] as int]);
    }
}

pub proof fn lemma_term_evolves(g1: EGraphStore, g2: EGraphStore, t: TermV)
    requires evolves(g1, g2), term_cls(g1, t) is Some,
    ensures term_cls(g2, t) == Some(uf_of(g2)[term_cls(g1, t)->Some_0 as int]),
    decreases t, 0int,
{
    lemma_evolves_ok(g1, g2);
    let u2 = uf_of(g2);
    match t {
        TermV::Var(x) => lemma_node_evolves(g1, g2, x, Seq::empty(), Seq::empty()),
        TermV::Int(n) => lemma_node_evolves(g1, g2, int_text(n), Seq::empty(), Seq::empty()),
        TermV::App(f, args) => {
            lemma_terms_evolves(g1, g2, args, args.len() as int);
            lemma_terms_are_classes(g1, args, args.len() as int);
            let cs = terms_cls(g1, args, args.len() as int)->Some_0;
            lemma_node_evolves(g1, g2, f, cs, canon(cs, u2));
        },
        TermV::Ite(c, a, b) => {
            lemma_formula_evolves(g1, g2, *c);
            lemma_term_evolves(g1, g2, *a);
            lemma_term_evolves(g1, g2, *b);
            lemma_formula_is_class(g1, *c);
            lemma_term_is_class(g1, *a);
            lemma_term_is_class(g1, *b);
            let cs = seq![formula_cls(g1, *c)->Some_0, term_cls(g1, *a)->Some_0, term_cls(g1, *b)->Some_0];
            assert(canon(cs, u2) =~= seq![u2[cs[0] as int], u2[cs[1] as int], u2[cs[2] as int]]);
            lemma_node_evolves(g1, g2, "ite"@, cs, canon(cs, u2));
        },
        TermV::Match(_, _) => {},
        TermV::As(i, _) => lemma_term_evolves(g1, g2, *i),
    }
}

pub proof fn lemma_terms_evolves(g1: EGraphStore, g2: EGraphStore, ts: Seq<TermV>, n: int)
    requires evolves(g1, g2), terms_cls(g1, ts, n) is Some,
    ensures terms_cls(g2, ts, n) == Some(canon(terms_cls(g1, ts, n)->Some_0, uf_of(g2))),
    decreases ts, n,
{
    lemma_evolves_ok(g1, g2);
    if 0 < n <= ts.len() {
        lemma_terms_evolves(g1, g2, ts, n - 1);
        lemma_term_evolves(g1, g2, ts[n - 1]);
        let r = terms_cls(g1, ts, n - 1)->Some_0;
        let c = term_cls(g1, ts[n - 1])->Some_0;
        assert(canon(r.push(c), uf_of(g2)) =~= canon(r, uf_of(g2)).push(uf_of(g2)[c as int]));
    } else {
        assert(canon(Seq::<usize>::empty(), uf_of(g2)) =~= Seq::<usize>::empty());
    }
}

pub proof fn lemma_formula_evolves(g1: EGraphStore, g2: EGraphStore, f: FormulaV)
    requires evolves(g1, g2), formula_cls(g1, f) is Some,
    ensures formula_cls(g2, f) == Some(uf_of(g2)[formula_cls(g1, f)->Some_0 as int]),
    decreases f, 0int,
{
    lemma_evolves_ok(g1, g2);
    let u2 = uf_of(g2);
    match f {
        FormulaV::True => lemma_node_evolves(g1, g2, "true"@, Seq::empty(), Seq::empty()),
        FormulaV::False => lemma_node_evolves(g1, g2, "false"@, Seq::empty(), Seq::empty()),
        FormulaV::Eq(a, b) => {
            lemma_term_evolves(g1, g2, a);
            lemma_term_evolves(g1, g2, b);
            lemma_term_is_class(g1, a);
            lemma_term_is_class(g1, b);
            let cs = seq![term_cls(g1, a)->Some_0, term_cls(g1, b)->Some_0];
            assert(canon(cs, u2) =~= seq![u2[cs[0] as int], u2[cs[1] as int]]);
            lemma_node_evolves(g1, g2, "="@, cs, canon(cs, u2));
        },
        FormulaV::Not(h) => {
            lemma_formula_evolves(g1, g2, *h);
            lemma_formula_is_class(g1, *h);
            let cs = seq![formula_cls(g1, *h)->Some_0];
            assert(canon(cs, u2) =~= seq![u2[cs[0] as int]]);
            lemma_node_evolves(g1, g2, "not"@, cs, canon(cs, u2));
        },
        FormulaV::And(fs) => {
            if fs.len() == 0 {
                lemma_node_evolves(g1, g2, "true"@, Seq::empty(), Seq::empty());
            } else {
                lemma_chain_evolves(g1, g2, "and"@, fs, 0);
            }
        },
        FormulaV::Or(fs) => {
            if fs.len() == 0 {
                lemma_node_evolves(g1, g2, "false"@, Seq::empty(), Seq::empty());
            } else {
                lemma_chain_evolves(g1, g2, "or"@, fs, 0);
            }
        },
        FormulaV::Implies(a, b) => {
            lemma_formula_evolves(g1, g2, *a);
            lemma_formula_evolves(g1, g2, *b);
            lemma_formula_is_class(g1, *a);
            lemma_formula_is_class(g1, *b);
            let cs = seq![formula_cls(g1, *a)->Some_0, formula_cls(g1, *b)->Some_0];
            assert(canon(cs, u2) =~= seq![u2[cs[0] as int], u2[cs[1] as int]]);
            lemma_node_evolves(g1, g2, "=>"@, cs, canon(cs, u2));
        },
        FormulaV::Ite(c, a, b) => {
            lemma_formula_evolves(g1, g2, *c);
            lemma_formula_evolves(g1, g2, *a);
            lemma_formula_evolves(g1, g2, *b);
            lemma_formula_is_class(g1, *c);
            lemma_formula_is_class(g1, *a);
            lemma_formula_is_class(g1, *b);
            let cs = seq![formula_cls(g1, *c)->Some_0, formula_cls(g1, *a)->Some_0, formula_cls(g1, *b)->Some_0];
            assert(canon(cs, u2) =~= seq![u2[cs[0] as int], u2[cs[1] as int], u2[cs[2] as int]]);
            lemma_node_evolves(g1, g2, "ite"@, cs, canon(cs, u2));
        },
        FormulaV::IsTester(c, t) => {
            lemma_term_evolves(g1, g2, t);
            lemma_term_is_class(g1, t);
            let cs = seq![term_cls(g1, t)->Some_0];
            assert(canon(cs, u2) =~= seq![u2[cs[0] as int]]);
            lemma_node_evolves(g1, g2, "is-"@ + c, cs, canon(cs, u2));
        },
    }
}

pub proof fn lemma_chain_evolves(g1: EGraphStore, g2: EGraphStore, op: Seq<char>, fs: Seq<FormulaV>, k: int)
    requires evolves(g1, g2), chain_cls(g1, op, fs, k) is Some,
    ensures chain_cls(g2, op, fs, k) == Some(uf_of(g2)[chain_cls(g1, op, fs, k)->Some_0 as int]),
    decreases fs, fs.len() - k,
{
    lemma_evolves_ok(g1, g2);
    let u2 = uf_of(g2);
    if k == fs.len() - 1 {
        lemma_formula_evolves(g1, g2, fs[k]);
    } else {
        lemma_formula_evolves(g1, g2, fs[k]);
        lemma_chain_evolves(g1, g2, op, fs, k + 1);
        lemma_formula_is_class(g1, fs[k]);
        lemma_chain_is_class(g1, op, fs, k + 1);
        let cs = seq![formula_cls(g1, fs[k])->Some_0, chain_cls(g1, op, fs, k + 1)->Some_0];
        assert(canon(cs, u2) =~= seq![u2[cs[0] as int], u2[cs[1] as int]]);
        lemma_node_evolves(g1, g2, op, cs, canon(cs, u2));
    }
}

} // verus!
