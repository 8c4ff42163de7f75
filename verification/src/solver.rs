//! The solver state: an e-graph holding the asserted terms and formulas, the rewrite rules,
//! the disequalities, and the declarations; satisfiability checking on top of it.
use vstd::prelude::*;
use vstd::string::StringExecFns;
use crate::ast::{
    Term, TermV, Formula, FormulaV, MatchCase, MatchPattern, DatatypeDecl, DatatypeDeclV, terms_v,
    lemma_terms_v, formulas_v, lemma_formulas_v, cases_v, strs_v, datatype_v, datatypes_v, ctor_v,
    clone_strings,
};
use crate::sorts::{StrMap, Sort, clone_sort, clone_sorts, str_map_v};
use crate::typing::{SortEnv, SortEnvV, CtorSig, SelectorSig, FunSig};
use crate::egraph::{
    memo_of, memo_ok, kept, clean, clean_tables, canon, lemma_kept_trans, lemma_kept_refl,
    lemma_add_facts, MemoKey, EGraphStore, uf_of, uf_ok, coarsens, rule_compiles, egraph_new,
    egraph_clone, egraph_add, egraph_find, egraph_union, egraph_run, compile_rule, union_of,
    union_ends, egraph_best_term, run_outcome, run_justified, read_patterns, finer, cong_closed,
};
use crate::adt::{adt_closure, adt_settled, ctor_key, lemma_settled_disjoint, lemma_settled_injective, memo_clash, closure_least, inj_closed};
use crate::desugar::{
    Names, term_flat, terms_flat, formula_flat, formulas_flat, desugar_term_spec, desugar_formula_spec,
    desugar_match_spec, pattern_body, desugar_term, desugar_formula, desugar_match_in,
    substitute_pattern_in, lemma_desugar_flat, lemma_desugar_formula_flat, match_fault, pattern_fault,
    term_fault, formula_fault,
};
use crate::grammar::{command_spec, lemma_stack_counts};
use crate::sexp::SExpV;
use crate::rules::{RuleText, RuleTextV, rules_v, boolean_rules, boolean_rule_texts, datatype_rules, datatype_rule_texts};
use crate::text::{int_to_text, usize_to_text, concat2, join5, nat_text, str_lt, str_less, lemma_str_lt_total, lemma_str_lt_transitive};
use crate::ast::{Command, CommandV, Program, SortExprV, sort_exprs_v, lemma_sort_exprs_v};
use crate::sorts::{sort_expr_to_sort, sort_expr_to_text, sort_of_expr, sorts_v};
use crate::typing::{with_datatype, with_sort_arity, sort_expr_ok, formula_ok, FunSigV, sort_exprs_check, sort_expr_check, formula_check};
use crate::print::{format_term, term_text};
use crate::classes::{
    leaf_cls, node_cls, term_cls, terms_cls, formula_cls, chain_cls, extends, graph_ok,
    lemma_extends_refl, lemma_extends_trans, lemma_extends_kept, lemma_leaf_forward,
    lemma_node_entered, lemma_term_extends, terms_found, formulas_found, lemma_terms_found_extends,
    lemma_formulas_found_extends, lemma_terms_found_push, evolves, lemma_term_evolves,
    lemma_formula_evolves, lemma_terms_cls_at, lemma_terms_are_classes, lemma_term_is_class,
    lemma_formulas_found_push, lemma_terms_found_cls, lemma_formula_extends, lemma_chain_extends,
    shows_class,
};

verus! {

/// A declared constant: its sort as written, and its node id.
pub struct ConstInfo {
    pub sort: String,
    pub id: usize,
}

pub struct ConstInfoV {
    pub sort: Seq<char>,
    pub id: usize,
}

impl View for ConstInfo {
    type V = ConstInfoV;
    open spec fn view(&self) -> ConstInfoV { ConstInfoV { sort: self.sort@, id: self.id } }
}

/// A declared function: its argument sorts and result sort as written.
pub struct FunInfo {
    pub args: Vec<String>,
    pub ret: String,
}

pub struct FunInfoV {
    pub args: Seq<Seq<char>>,
    pub ret: Seq<char>,
}

impl View for FunInfo {
    type V = FunInfoV;
    open spec fn view(&self) -> FunInfoV { FunInfoV { args: strs_v(self.args@), ret: self.ret@ } }
}

/// The state of a solving session.
pub struct EggContext {
    pub egraph: EGraphStore,
    pub rules: Vec<RuleText>,
    pub disequalities: Vec<(usize, usize)>,
    pub declared_consts: StrMap<ConstInfo>,
    pub declared_funs: StrMap<FunInfo>,
    pub known_sorts: Vec<String>,
    pub ctor_to_dt: StrMap<String>,
    pub ctor_selectors: StrMap<Names>,
    pub ctor_arities: StrMap<usize>,
    pub contradiction: bool,
    pub true_id: usize,
    pub false_id: usize,
    pub sort_env: SortEnv,
    pub last_check_sat_result: Option<String>,
}

pub open spec fn opt_text(o: Option<String>) -> Option<Seq<char>> {
    match o {
        Some(s) => Some(s@),
        None => None,
    }
}

pub struct CtxV {
    pub egraph: EGraphStore,
    pub rules: Seq<RuleTextV>,
    pub disequalities: Seq<(usize, usize)>,
    pub declared_consts: Map<Seq<char>, ConstInfoV>,
    pub declared_funs: Map<Seq<char>, FunInfoV>,
    pub known_sorts: Seq<Seq<char>>,
    pub ctor_to_dt: Map<Seq<char>, Seq<char>>,
    pub ctor_selectors: Map<Seq<char>, Seq<Seq<char>>>,
    pub ctor_arities: Map<Seq<char>, usize>,
    pub contradiction: bool,
    pub true_id: usize,
    pub false_id: usize,
    pub sort_env: SortEnvV,
    pub last_check_sat_result: Option<Seq<char>>,
}

impl View for EggContext {
    type V = CtxV;
    open spec fn view(&self) -> CtxV {
        CtxV {
            egraph: self.egraph,
            rules: rules_v(self.rules@),
            disequalities: self.disequalities@,
            declared_consts: self.declared_consts@,
            declared_funs: self.declared_funs@,
            known_sorts: strs_v(self.known_sorts@),
            ctor_to_dt: self.ctor_to_dt@,
            ctor_selectors: self.ctor_selectors@,
            ctor_arities: self.ctor_arities@,
            contradiction: self.contradiction,
            true_id: self.true_id,
            false_id: self.false_id,
            sort_env: self.sort_env@,
            last_check_sat_result: opt_text(self.last_check_sat_result),
        }
    }
}

/// Every id the state holds names a node of its e-graph, and the leaves `true` and `false`
/// are found in the classes of `true_id` and `false_id`.
pub open spec fn ctx_ok(c: CtxV) -> bool {
    let uf = uf_of(c.egraph);
    &&& uf_ok(uf)
    &&& c.true_id < uf.len()
    &&& c.false_id < uf.len()
    &&& forall|i: int| 0 <= i < c.disequalities.len() ==>
        (#[trigger] c.disequalities[i]).0 < uf.len() && c.disequalities[i].1 < uf.len()
    &&& forall|k: Seq<char>| #[trigger] c.declared_consts.contains_key(k) ==> c.declared_consts[k].id < uf.len()
    &&& memo_ok(memo_of(c.egraph), uf.len())
    &&& leaf_cls(c.egraph, "true"@) == Some(uf[c.true_id as int])
    &&& leaf_cls(c.egraph, "false"@) == Some(uf[c.false_id as int])
}

/// A state between two steps: well formed, with its e-graph rebuilt.
pub open spec fn ctx_wf(c: CtxV) -> bool {
    ctx_ok(c) && clean(c.egraph)
}

proof fn lemma_ok_graph(c: CtxV)
    requires ctx_ok(c),
    ensures graph_ok(c.egraph),
{
    reveal(graph_ok);
}

/// An extension of an e-graph only adds ids and entries.
proof fn lemma_extends_forward(g1: EGraphStore, g2: EGraphStore)
    requires extends(g1, g2),
    ensures grows(uf_of(g1), uf_of(g2)), coarsens(uf_of(g1), uf_of(g2)), kept(g1, g2),
{
    lemma_extends_kept(g1, g2);
    lemma_grows_coarsens(uf_of(g1), uf_of(g2));
}

/// A state whose e-graph went forward (classes merged, ids added, the table kept) is still
/// well formed, short of a rebuild.
proof fn lemma_ctx_forward(c: CtxV, g2: EGraphStore)
    requires
        ctx_ok(c),
        uf_ok(uf_of(g2)),
        memo_ok(memo_of(g2), uf_of(g2).len()),
        kept(c.egraph, g2),
        coarsens(uf_of(c.egraph), uf_of(g2)),
    ensures ctx_ok(CtxV { egraph: g2, ..c }),
{
    lemma_leaves_forward(c, g2);
    let c2 = CtxV { egraph: g2, ..c };
    assert forall|i: int| 0 <= i < c2.disequalities.len() implies
        (#[trigger] c2.disequalities[i]).0 < uf_of(g2).len() && c2.disequalities[i].1 < uf_of(g2).len() by {
        assert(c.disequalities[i] == c2.disequalities[i]);
    }
    assert forall|k: Seq<char>| #[trigger] c2.declared_consts.contains_key(k) implies
        c2.declared_consts[k].id < uf_of(g2).len() by {
        assert(c.declared_consts.contains_key(k));
    }
}

/// A merge keeps the table as it is.
proof fn lemma_same_table_kept(g1: EGraphStore, g2: EGraphStore)
    requires memo_of(g2) == memo_of(g1),
    ensures kept(g1, g2),
{
}

/// The state's leaves `true` and `false` stay in the classes of `true_id` and `false_id`
/// when its e-graph goes forward.
proof fn lemma_leaves_forward(c: CtxV, g2: EGraphStore)
    requires ctx_ok(c), kept(c.egraph, g2), coarsens(uf_of(c.egraph), uf_of(g2)),
    ensures
        leaf_cls(g2, "true"@) == Some(uf_of(g2)[c.true_id as int]),
        leaf_cls(g2, "false"@) == Some(uf_of(g2)[c.false_id as int]),
{
    lemma_ok_graph(c);
    lemma_leaf_forward(c.egraph, g2, "true"@, c.true_id);
    lemma_leaf_forward(c.egraph, g2, "false"@, c.false_id);
}

/// Two states that differ at most in their e-graphs, the second holding at least the ids
/// of the first.
pub open spec fn same_but_egraph(a: CtxV, b: CtxV) -> bool {
    &&& b == (CtxV { egraph: b.egraph, ..a })
    &&& uf_of(a.egraph).len() <= uf_of(b.egraph).len()
}

/// The rules of `rs` that `egg` accepts, in order: those `check-sat` runs.
pub open spec fn compiling_rules(rs: Seq<RuleTextV>) -> Seq<RuleTextV>
    decreases rs.len(),
{
    if rs.len() == 0 {
        Seq::empty()
    } else {
        let rest = compiling_rules(rs.drop_last());
        if rule_compiles(rs.last().lhs, rs.last().rhs) { rest.push(rs.last()) } else { rest }
    }
}

/// The answer of `check-sat` on a state: `unsat` when two constructors met in one class,
/// when `true` and `false` are in one class, or when both sides of an asserted disequality
/// are; `sat` otherwise.
pub open spec fn is_unsat(c: CtxV) -> bool {
    let uf = uf_of(c.egraph);
    ||| c.contradiction
    ||| uf[c.true_id as int] == uf[c.false_id as int]
    ||| exists|i: int| 0 <= i < c.disequalities.len()
        && uf[(#[trigger] c.disequalities[i]).0 as int] == uf[c.disequalities[i].1 as int]
}

/// The verdict reads only the e-graph, the clash flag, `true`, `false` and the
/// disequalities.
proof fn lemma_unsat_same(a: CtxV, b: CtxV)
    requires
        a.egraph == b.egraph, a.contradiction == b.contradiction, a.true_id == b.true_id,
        a.false_id == b.false_id, a.disequalities == b.disequalities,
    ensures is_unsat(a) == is_unsat(b),
{
}

pub open spec fn verdict_text(c: CtxV) -> Seq<char> {
    if is_unsat(c) { "unsat"@ } else { "sat"@ }
}

/// The name list of a datatype's constructor's fields, as selectors.
pub open spec fn selector_names(c: crate::ast::ConstructorDeclV) -> Seq<Seq<char>> {
    c.fields.map_values(|f: crate::ast::FieldDeclV| f.selector)
}

// ---------------------------------------------------------------------------
// Copies
// ---------------------------------------------------------------------------

/// Copies whose view is that of the value copied.
pub trait DeepCopy: View + Sized {
    fn deep_copy(&self) -> (r: Self)
        ensures r@ == self@;
}

impl DeepCopy for usize {
    fn deep_copy(&self) -> (r: Self) { *self }
}

impl DeepCopy for String {
    fn deep_copy(&self) -> (r: Self) { self.clone() }
}

impl DeepCopy for Sort {
    fn deep_copy(&self) -> (r: Self) { clone_sort(self) }
}

impl DeepCopy for ConstInfo {
    fn deep_copy(&self) -> (r: Self) { ConstInfo { sort: self.sort.clone(), id: self.id } }
}

impl DeepCopy for FunInfo {
    fn deep_copy(&self) -> (r: Self) { FunInfo { args: clone_strings(&self.args), ret: self.ret.clone() } }
}

impl DeepCopy for Names {
    fn deep_copy(&self) -> (r: Self) { Names { names: clone_strings(&self.names) } }
}

impl DeepCopy for RuleText {
    fn deep_copy(&self) -> (r: Self) {
        RuleText { name: self.name.clone(), lhs: self.lhs.clone(), rhs: self.rhs.clone() }
    }
}

impl DeepCopy for CtorSig {
    fn deep_copy(&self) -> (r: Self) {
        CtorSig {
            type_params: clone_strings(&self.type_params),
            field_sorts: clone_sorts(&self.field_sorts),
            result_sort: clone_sort(&self.result_sort),
        }
    }
}

impl DeepCopy for SelectorSig {
    fn deep_copy(&self) -> (r: Self) {
        SelectorSig {
            type_params: clone_strings(&self.type_params),
            input_sort: clone_sort(&self.input_sort),
            output_sort: clone_sort(&self.output_sort),
        }
    }
}

impl DeepCopy for FunSig {
    fn deep_copy(&self) -> (r: Self) { FunSig { args: clone_sorts(&self.args), ret: clone_sort(&self.ret) } }
}

pub fn copy_map<V: DeepCopy>(m: &StrMap<V>) -> (r: StrMap<V>)
    ensures r@ == m@,
{
    let mut out: Vec<(String, V)> = Vec::new();
    let mut i: usize = 0;
    while i < m.entries.len()
        invariant
            i <= m.entries.len(),
            out.len() == i,
            forall|j: int| 0 <= j < i ==> (#[trigger] out@[j]).0@ == m.entries@[j].0@
                && out@[j].1@ == m.entries@[j].1@,
        decreases m.entries.len() - i,
    {
        let e = &m.entries[i];
        out.push((e.0.clone(), e.1.deep_copy()));
        i += 1;
    }
    proof { crate::sorts::lemma_str_map_same(out@, m.entries@); }
    StrMap { entries: out }
}

pub fn copy_vec<V: DeepCopy>(v: &Vec<V>) -> (r: Vec<V>)
    ensures
        r.len() == v.len(),
        forall|i: int| 0 <= i < v.len() ==> (#[trigger] r@[i])@ == v@[i]@,
{
    let mut out: Vec<V> = Vec::new();
    let mut i: usize = 0;
    while i < v.len()
        invariant
            i <= v.len(),
            out.len() == i,
            forall|j: int| 0 <= j < i ==> (#[trigger] out@[j])@ == v@[j]@,
        decreases v.len() - i,
    {
        out.push(v[i].deep_copy());
        i += 1;
    }
    out
}

pub fn copy_pairs(v: &Vec<(usize, usize)>) -> (r: Vec<(usize, usize)>)
    ensures r@ == v@,
{
    let mut out: Vec<(usize, usize)> = Vec::new();
    let mut i: usize = 0;
    while i < v.len()
        invariant
            i <= v.len(),
            out@ == v@.take(i as int),
        decreases v.len() - i,
    {
        out.push(v[i]);
        assert(v@.take(i + 1) == v@.take(i as int).push(v@[i as int]));
        i += 1;
    }
    assert(v@.take(v.len() as int) == v@);
    out
}

/// A copy of a sort environment.
pub fn copy_sort_env(e: &SortEnv) -> (r: SortEnv)
    ensures r@ == e@,
{
    SortEnv {
        known_sorts: clone_strings(&e.known_sorts),
        sort_arities: copy_map(&e.sort_arities),
        const_sorts: copy_map(&e.const_sorts),
        fun_sigs: copy_map(&e.fun_sigs),
        ctor_sigs: copy_map(&e.ctor_sigs),
        selector_sigs: copy_map(&e.selector_sigs),
    }
}

impl EggContext {
    /// A copy of the whole state, e-graph included.
    pub fn copy(&self) -> (r: EggContext)
        ensures r@ == self@,
    {
        let rules = copy_vec(&self.rules);
        assert(rules_v(rules@) =~= rules_v(self.rules@));
        let last = match &self.last_check_sat_result {
            Some(s) => Some(s.clone()),
            None => None,
        };
        EggContext {
            egraph: egraph_clone(&self.egraph),
            rules,
            disequalities: copy_pairs(&self.disequalities),
            declared_consts: copy_map(&self.declared_consts),
            declared_funs: copy_map(&self.declared_funs),
            known_sorts: clone_strings(&self.known_sorts),
            ctor_to_dt: copy_map(&self.ctor_to_dt),
            ctor_selectors: copy_map(&self.ctor_selectors),
            ctor_arities: copy_map(&self.ctor_arities),
            contradiction: self.contradiction,
            true_id: self.true_id,
            false_id: self.false_id,
            sort_env: copy_sort_env(&self.sort_env),
            last_check_sat_result: last,
        }
    }
}

/// `after` keeps the class of every id of `before` and may add ids.
pub open spec fn grows(before: Seq<usize>, after: Seq<usize>) -> bool {
    &&& before.len() <= after.len()
    &&& forall|i: int| 0 <= i < before.len() ==> #[trigger] after[i] == before[i]
}

pub proof fn lemma_grows_coarsens(a: Seq<usize>, b: Seq<usize>)
    requires grows(a, b),
    ensures coarsens(a, b),
{
}

pub proof fn lemma_coarsens_trans(a: Seq<usize>, b: Seq<usize>, c: Seq<usize>)
    requires coarsens(a, b), coarsens(b, c),
    ensures coarsens(a, c),
{
    assert forall|i: int, j: int| 0 <= i < a.len() && 0 <= j < a.len() && a[i] == a[j]
        implies #[trigger] c[i] == #[trigger] c[j] by {
        assert(b[i] == b[j]);
    }
    assert forall|i: int| 0 <= i < a.len() && c[i] == i implies #[trigger] a[i] == i by {
        assert(b[i] == i);
    }
}

/// Two steps that each keep the table and only add ids keep it together.
proof fn lemma_kept_grows(g1: EGraphStore, g2: EGraphStore, g3: EGraphStore)
    requires
        kept(g1, g2), kept(g2, g3),
        memo_ok(memo_of(g1), uf_of(g1).len()), memo_ok(memo_of(g2), uf_of(g2).len()),
        grows(uf_of(g1), uf_of(g2)), grows(uf_of(g2), uf_of(g3)),
    ensures kept(g1, g3), grows(uf_of(g1), uf_of(g3)),
{
    lemma_grows_coarsens(uf_of(g2), uf_of(g3));
    lemma_kept_trans(g1, g2, g3);
}

/// A state that only went forward from `a`: classes merged or ids added, disequalities
/// appended, a found clash kept, everything else as it was.
pub open spec fn advances(a: CtxV, b: CtxV) -> bool {
    &&& coarsens(uf_of(a.egraph), uf_of(b.egraph))
    &&& a.disequalities.len() <= b.disequalities.len()
    &&& b.disequalities.subrange(0, a.disequalities.len() as int) == a.disequalities
    &&& (a.contradiction ==> b.contradiction)
    &&& b.true_id == a.true_id
    &&& b.false_id == a.false_id
    &&& kept(a.egraph, b.egraph)
}

/// Incremental solving is monotone: a state found unsatisfiable stays so when the solver
/// goes forward from it (more assertions, more saturation).
pub proof fn lemma_unsat_persists(a: CtxV, b: CtxV)
    requires ctx_wf(a), ctx_wf(b), advances(a, b), is_unsat(a),
    ensures is_unsat(b),
{
    let (ua, ub) = (uf_of(a.egraph), uf_of(b.egraph));
    if !a.contradiction {
        if ua[a.true_id as int] == ua[a.false_id as int] {
            assert(ub[b.true_id as int] == ub[b.false_id as int]);
        } else {
            let i = choose|i: int| 0 <= i < a.disequalities.len()
                && ua[(#[trigger] a.disequalities[i]).0 as int] == ua[a.disequalities[i].1 as int];
            assert(b.disequalities[i] == a.disequalities[i]);
            assert(ub[b.disequalities[i].0 as int] == ub[b.disequalities[i].1 as int]);
        }
    }
}

/// The state holds `a = b`: both terms are in its e-graph, in one class.
pub open spec fn holds_eq(c: CtxV, a: TermV, b: TermV) -> bool {
    &&& term_cls(c.egraph, a) is Some
    &&& term_cls(c.egraph, a) == term_cls(c.egraph, b)
}

/// The state holds `a != b`: an asserted disequality has its two sides in the classes of
/// `a` and `b`.
pub open spec fn holds_neq(c: CtxV, a: TermV, b: TermV) -> bool {
    exists|i: int| 0 <= i < c.disequalities.len()
        && term_cls(c.egraph, a) == Some(uf_of(c.egraph)[(#[trigger] c.disequalities[i]).0 as int])
        && term_cls(c.egraph, b) == Some(uf_of(c.egraph)[c.disequalities[i].1 as int])
}

/// What asserting a formula without `match` leaves in the state: an equation, its sides in
/// one class; a negated equation, a disequality between its sides; a conjunction, the same of
/// each part.
pub open spec fn asserted_fact(c: CtxV, f: FormulaV) -> bool
    decreases f,
{
    match f {
        FormulaV::Eq(a, b) => holds_eq(c, a, b),
        FormulaV::Not(g) => match *g {
            FormulaV::Eq(a, b) => holds_neq(c, a, b),
            _ => true,
        },
        FormulaV::And(fs) => forall|i: int| 0 <= i < fs.len() ==> asserted_fact(c, #[trigger] fs[i]),
        _ => true,
    }
}

/// An equation and its negation, both held, make the state unsatisfiable.
pub proof fn lemma_eq_and_neq_unsat(c: CtxV, a: TermV, b: TermV)
    requires ctx_wf(c), holds_eq(c, a, b), holds_neq(c, a, b),
    ensures is_unsat(c),
{
    let i = choose|i: int| 0 <= i < c.disequalities.len()
        && term_cls(c.egraph, a) == Some(uf_of(c.egraph)[(#[trigger] c.disequalities[i]).0 as int])
        && term_cls(c.egraph, b) == Some(uf_of(c.egraph)[c.disequalities[i].1 as int]);
    assert(uf_of(c.egraph)[c.disequalities[i].0 as int] == uf_of(c.egraph)[c.disequalities[i].1 as int]);
}

/// Two rebuilt states, the second gone forward from the first.
proof fn lemma_evolves_of(a: CtxV, b: CtxV)
    requires ctx_ok(a), ctx_wf(b), kept(a.egraph, b.egraph), coarsens(uf_of(a.egraph), uf_of(b.egraph)),
    ensures evolves(a.egraph, b.egraph),
{
    lemma_ok_graph(a);
    lemma_ok_graph(b);
    reveal(evolves);
}

/// What a state holds of terms it still holds when the solver goes forward from it: an
/// equation stays an equation, a disequality stays one.
pub proof fn lemma_facts_persist(c1: CtxV, c2: CtxV, a: TermV, b: TermV)
    requires ctx_wf(c1), ctx_wf(c2), advances(c1, c2),
    ensures
        holds_eq(c1, a, b) ==> holds_eq(c2, a, b),
        holds_neq(c1, a, b) ==> holds_neq(c2, a, b),
{
    lemma_evolves_of(c1, c2);
    let (u1, u2) = (uf_of(c1.egraph), uf_of(c2.egraph));
    if holds_eq(c1, a, b) {
        lemma_term_evolves(c1.egraph, c2.egraph, a);
        lemma_term_evolves(c1.egraph, c2.egraph, b);
    }
    if holds_neq(c1, a, b) {
        let i = choose|i: int| 0 <= i < c1.disequalities.len()
            && term_cls(c1.egraph, a) == Some(u1[(#[trigger] c1.disequalities[i]).0 as int])
            && term_cls(c1.egraph, b) == Some(u1[c1.disequalities[i].1 as int]);
        let d = c1.disequalities[i];
        assert(c2.disequalities[i] == d);
        lemma_term_evolves(c1.egraph, c2.egraph, a);
        lemma_term_evolves(c1.egraph, c2.egraph, b);
        assert(u1[u1[d.0 as int] as int] == u1[d.0 as int]);
        assert(u2[u1[d.0 as int] as int] == u2[d.0 as int]);
        assert(u1[u1[d.1 as int] as int] == u1[d.1 as int]);
        assert(u2[u1[d.1 as int] as int] == u2[d.1 as int]);
    }
}

/// What asserting left in a state stays when the solver goes forward from it.
pub proof fn lemma_asserted_persists(c1: CtxV, c2: CtxV, f: FormulaV)
    requires ctx_wf(c1), ctx_wf(c2), advances(c1, c2), asserted_fact(c1, f),
    ensures asserted_fact(c2, f),
    decreases f,
{
    match f {
        FormulaV::Eq(a, b) => lemma_facts_persist(c1, c2, a, b),
        FormulaV::Not(g) => {
            if let FormulaV::Eq(a, b) = *g { lemma_facts_persist(c1, c2, a, b); }
        },
        FormulaV::And(fs) => {
            assert forall|i: int| 0 <= i < fs.len() implies asserted_fact(c2, #[trigger] fs[i]) by {
                lemma_asserted_persists(c1, c2, fs[i]);
            }
        },
        _ => {},
    }
}

/// The state holds the formula `f` without `match`: it is in the class of `true`.
pub open spec fn holds_true(c: CtxV, f: FormulaV) -> bool {
    &&& formula_cls(c.egraph, f) is Some
    &&& formula_cls(c.egraph, f) == leaf_cls(c.egraph, "true"@)
}

/// A formula held true stays so when the solver goes forward.
pub proof fn lemma_true_persists(c1: CtxV, c2: CtxV, f: FormulaV)
    requires ctx_wf(c1), ctx_wf(c2), advances(c1, c2), holds_true(c1, f),
    ensures holds_true(c2, f),
{
    lemma_evolves_of(c1, c2);
    lemma_formula_evolves(c1.egraph, c2.egraph, f);
    let (u1, u2) = (uf_of(c1.egraph), uf_of(c2.egraph));
    assert(u1[u1[c1.true_id as int] as int] == u1[c1.true_id as int]);
    assert(u2[u1[c1.true_id as int] as int] == u2[c1.true_id as int]);
}

/// A state that holds `false` is unsatisfiable.
pub proof fn lemma_false_held_unsat(c: CtxV)
    requires ctx_wf(c), holds_true(c, FormulaV::False),
    ensures is_unsat(c),
{
}

/// An equation held in one state and its negation held in a later one (or the other way
/// round) make the later state unsatisfiable.
pub proof fn lemma_refuted(c1: CtxV, c2: CtxV, a: TermV, b: TermV)
    requires
        ctx_wf(c1), ctx_wf(c2), advances(c1, c2),
        (holds_eq(c1, a, b) && holds_neq(c2, a, b)) || (holds_neq(c1, a, b) && holds_eq(c2, a, b)),
    ensures is_unsat(c2),
{
    lemma_facts_persist(c1, c2, a, b);
    lemma_eq_and_neq_unsat(c2, a, b);
}

/// Two states with the same e-graph, disequalities, clash flag, `true` and `false`.
pub open spec fn same_core(a: CtxV, b: CtxV) -> bool {
    &&& b.egraph == a.egraph
    &&& b.disequalities == a.disequalities
    &&& b.contradiction == a.contradiction
    &&& b.true_id == a.true_id
    &&& b.false_id == a.false_id
}

/// A state that only gained ids and entries, with the rest of its core as it was, went
/// forward.
proof fn lemma_grown_advances(a: CtxV, b: CtxV)
    requires
        grows(uf_of(a.egraph), uf_of(b.egraph)), kept(a.egraph, b.egraph),
        b.disequalities == a.disequalities, b.contradiction == a.contradiction,
        b.true_id == a.true_id, b.false_id == a.false_id,
    ensures advances(a, b),
{
    lemma_grows_coarsens(uf_of(a.egraph), uf_of(b.egraph));
    assert(b.disequalities.subrange(0, a.disequalities.len() as int) =~= a.disequalities);
}

proof fn lemma_same_core_advances(a: CtxV, b: CtxV)
    requires same_core(a, b),
    ensures advances(a, b),
{
    lemma_kept_refl(a.egraph);
    assert(b.disequalities.subrange(0, a.disequalities.len() as int) =~= a.disequalities);
}

proof fn lemma_ctor_tables_core(c: CtxV, d: DatatypeDeclV, n: int)
    ensures same_core(c, with_ctor_tables(c, d, n)),
    decreases n,
{
    if !(n <= 0 || n > d.constructors.len()) {
        lemma_ctor_tables_core(c, d, n - 1);
    }
}

/// Declaring datatypes leaves the e-graph and the disequalities as they are.
proof fn lemma_datatypes_rules_core(c: CtxV, ds: Seq<DatatypeDeclV>, n: int)
    ensures same_core(c, with_datatypes_rules(c, ds, n)),
    decreases n,
{
    if !(n <= 0 || n > ds.len()) {
        lemma_datatypes_rules_core(c, ds, n - 1);
        let p = with_datatypes_rules(c, ds, n - 1);
        let d = ds[n - 1];
        let e = if p.known_sorts.contains(d.name) { p } else { CtxV { known_sorts: p.known_sorts.push(d.name), ..p } };
        lemma_ctor_tables_core(e, d, d.constructors.len() as int);
    }
}

/// A term built by a constructor of the state, given as many arguments as the constructor
/// takes.
pub open spec fn ctor_term(c: CtxV, t: TermV) -> bool {
    ||| t matches TermV::App(f, args) && c.ctor_arities.contains_key(f) && c.ctor_arities[f] == args.len()
    ||| t matches TermV::Var(n) && c.ctor_arities.contains_key(n) && c.ctor_arities[n] == 0
}

/// The constructor a constructor term is built by: the head of an application, or the name
/// of a constructor without fields.
pub open spec fn ctor_head(t: TermV) -> Seq<char> {
    match t {
        TermV::App(f, _) => f,
        TermV::Var(n) => n,
        _ => Seq::empty(),
    }
}

/// The table entry of the node of a constructor term found in the e-graph.
proof fn lemma_ctor_entry(c: CtxV, t: TermV) -> (k: MemoKey)
    requires ctx_wf(c), ctor_term(c, t), term_cls(c.egraph, t) is Some,
    ensures
        memo_of(c.egraph).contains_key(k),
        k.0 == ctor_head(t),
        ctor_key(k, c.ctor_arities),
        term_cls(c.egraph, t) == Some(uf_of(c.egraph)[memo_of(c.egraph)[k] as int]),
{
    match t {
        TermV::App(f, args) => lemma_app_entry(c, f, args),
        TermV::Var(n) => {
            let e = Seq::<usize>::empty();
            assert(canon(e, uf_of(c.egraph)) =~= e);
            (n, e)
        },
        _ => (Seq::empty(), Seq::empty()),
    }
}

/// The table entry of the node of a term `f(args)` found in the e-graph.
proof fn lemma_app_entry(c: CtxV, f: Seq<char>, args: Seq<TermV>) -> (k: MemoKey)
    requires ctx_wf(c), term_cls(c.egraph, TermV::App(f, args)) is Some,
    ensures
        memo_of(c.egraph).contains_key(k),
        k.0 == f,
        k.1.len() == args.len(),
        term_cls(c.egraph, TermV::App(f, args)) == Some(uf_of(c.egraph)[memo_of(c.egraph)[k] as int]),
        forall|j: int| 0 <= j < args.len() ==> term_cls(c.egraph, args[j]) == Some(#[trigger] k.1[j]),
{
    lemma_ok_graph(c);
    let g = c.egraph;
    let n = args.len() as int;
    let cs = terms_cls(g, args, n)->Some_0;
    lemma_terms_are_classes(g, args, n);
    assert(canon(cs, uf_of(g)) =~= cs);
    assert forall|j: int| 0 <= j < args.len() implies term_cls(g, args[j]) == Some(#[trigger] cs[j]) by {
        lemma_terms_cls_at(g, args, n, j);
    }
    (f, cs)
}

/// Values built by different constructors differ: in a state whose datatype laws are
/// settled (as `check-sat` leaves it), two terms built by different constructors held equal
/// are a clash, and the state is unsatisfiable.
pub proof fn lemma_ctors_disjoint(c: CtxV, a: TermV, b: TermV)
    requires
        ctx_wf(c),
        adt_settled(c.egraph, c.ctor_arities, c.contradiction),
        ctor_term(c, a), ctor_term(c, b), ctor_head(a) != ctor_head(b),
        holds_eq(c, a, b),
    ensures c.contradiction, is_unsat(c),
{
    let k1 = lemma_ctor_entry(c, a);
    let k2 = lemma_ctor_entry(c, b);
    lemma_settled_disjoint(c.egraph, c.ctor_arities, c.contradiction, k1, k2);
}

/// Equal values built by one constructor have equal arguments: in a state whose datatype
/// laws are settled, `f(xs) = f(ys)` held makes each `xs[j] = ys[j]` held.
pub proof fn lemma_ctor_injective(c: CtxV, f: Seq<char>, xs: Seq<TermV>, ys: Seq<TermV>, j: int)
    requires
        ctx_wf(c),
        adt_settled(c.egraph, c.ctor_arities, c.contradiction),
        ctor_term(c, TermV::App(f, xs)), ys.len() == xs.len(),
        holds_eq(c, TermV::App(f, xs), TermV::App(f, ys)),
        0 <= j < xs.len(),
    ensures holds_eq(c, xs[j], ys[j]),
{
    let k1 = lemma_app_entry(c, f, xs);
    let k2 = lemma_app_entry(c, f, ys);
    lemma_settled_injective(c.egraph, c.ctor_arities, c.contradiction, k1, k2, j);
    assert(term_cls(c.egraph, xs[j]) == Some(k1.1[j]));
    assert(term_cls(c.egraph, ys[j]) == Some(k2.1[j]));
    lemma_ok_graph(c);
    lemma_term_is_class(c.egraph, xs[j]);
    lemma_term_is_class(c.egraph, ys[j]);
}

/// `check-sat` sees a constructor clash: when a state holds two terms built by different
/// constructors equal, a later state whose datatype laws are settled is unsatisfiable.
pub proof fn lemma_clash_refuted(c1: CtxV, c2: CtxV, a: TermV, b: TermV)
    requires
        ctx_wf(c1), ctx_wf(c2), advances(c1, c2),
        adt_settled(c2.egraph, c2.ctor_arities, c2.contradiction),
        c2.ctor_arities == c1.ctor_arities,
        ctor_term(c1, a), ctor_term(c1, b), ctor_head(a) != ctor_head(b),
        holds_eq(c1, a, b),
    ensures is_unsat(c2),
{
    lemma_facts_persist(c1, c2, a, b);
    lemma_ctors_disjoint(c2, a, b);
}

/// Going forward twice is going forward.
pub proof fn lemma_advances_trans(a: CtxV, b: CtxV, c: CtxV)
    requires ctx_ok(a), ctx_ok(b), advances(a, b), advances(b, c),
    ensures advances(a, c),
{
    lemma_coarsens_trans(uf_of(a.egraph), uf_of(b.egraph), uf_of(c.egraph));
    lemma_kept_trans(a.egraph, b.egraph, c.egraph);
    assert(c.disequalities.subrange(0, a.disequalities.len() as int)
        =~= b.disequalities.subrange(0, a.disequalities.len() as int));
}

impl EggContext {
    pub open spec fn uf(&self) -> Seq<usize> {
        uf_of(self.egraph)
    }

    /// A fresh state: `true` and `false` in the e-graph, the Boolean rules, the built-in
    /// sorts.
    pub fn new() -> (ctx: Self)
        ensures
            ctx_wf(ctx@),
            ctx@.rules == boolean_rules(),
            ctx@.disequalities.len() == 0,
            ctx@.declared_consts == Map::<Seq<char>, ConstInfoV>::empty(),
            ctx@.declared_funs == Map::<Seq<char>, FunInfoV>::empty(),
            ctx@.known_sorts == seq!["Int"@, "Bool"@],
            ctx@.ctor_to_dt == Map::<Seq<char>, Seq<char>>::empty(),
            ctx@.ctor_selectors == Map::<Seq<char>, Seq<Seq<char>>>::empty(),
            ctx@.ctor_arities == Map::<Seq<char>, usize>::empty(),
            !ctx@.contradiction,
            ctx@.sort_env == crate::typing::initial_env(),
            ctx@.last_check_sat_result is None,
            uf_of(ctx.egraph)[ctx.true_id as int] != uf_of(ctx.egraph)[ctx.false_id as int],
            !is_unsat(ctx@),
    {
        let mut egraph = egraph_new();
        let no_children: Vec<usize> = Vec::new();
        let ghost g0 = egraph;
        proof {
            reveal(clean_tables);
            assert(uf_ok(uf_of(g0)));
        }
        let true_id = egraph_add(&mut egraph, "true", &no_children);
        let ghost g1 = egraph;
        proof {
            lemma_add_facts(g0, g1, "true"@, no_children@, true_id);
            lemma_node_entered(g0, g1, "true"@, no_children@, true_id);
            assert(canon(no_children@, uf_of(g1)) =~= Seq::<usize>::empty());
        }
        let false_id = egraph_add(&mut egraph, "false", &no_children);
        proof {
            assert(canon(no_children@, uf_of(g0)) =~= Seq::<usize>::empty());
            assert(canon(no_children@, uf_of(g1)) =~= Seq::<usize>::empty());
            assert("true"@ != "false"@) by {
                reveal_strlit("true");
                reveal_strlit("false");
                assert("true"@[0] != "false"@[0]);
            }
            assert(!memo_of(g1).contains_key(("false"@, canon(no_children@, uf_of(g1)))));
            assert(uf_of(egraph)[true_id as int] == true_id);
            assert(false_id == 1 && true_id == 0);
            lemma_add_facts(g1, egraph, "false"@, no_children@, false_id);
            lemma_node_entered(g1, egraph, "false"@, no_children@, false_id);
            assert(canon(no_children@, uf_of(egraph)) =~= Seq::<usize>::empty());
            reveal(graph_ok);
            lemma_extends_forward(g1, egraph);
            lemma_leaf_forward(g1, egraph, "true"@, true_id);
        }
        let mut known: Vec<String> = Vec::new();
        known.push(String::from_str("Int"));
        known.push(String::from_str("Bool"));
        assert(strs_v(known@) =~= seq!["Int"@, "Bool"@]);
        let mut ctx = EggContext {
            egraph,
            rules: Vec::new(),
            disequalities: Vec::new(),
            declared_consts: StrMap::new(),
            declared_funs: StrMap::new(),
            known_sorts: known,
            ctor_to_dt: StrMap::new(),
            ctor_selectors: StrMap::new(),
            ctor_arities: StrMap::new(),
            contradiction: false,
            true_id,
            false_id,
            sort_env: SortEnv::new(),
            last_check_sat_result: None,
        };
        assert(rules_v(ctx.rules@) =~= Seq::<RuleTextV>::empty());
        ctx.generate_boolean_rules();
        assert(Seq::<RuleTextV>::empty() + boolean_rules() =~= boolean_rules());
        ctx
    }

    /// Adds the Boolean simplification rules.
    pub fn generate_boolean_rules(&mut self)
        ensures final(self)@ == (CtxV { rules: old(self)@.rules + boolean_rules(), ..old(self)@ }),
    {
        let mut rs = boolean_rule_texts();
        let ghost before = self.rules@;
        let ghost added = rs@;
        self.rules.append(&mut rs);
        assert(rules_v(self.rules@) =~= rules_v(before) + rules_v(added));
    }

    /// Rebuilds the e-graph and applies the datatype laws until nothing changes: a class
    /// holding two different constructors marks the state contradictory, and one holding
    /// the same constructor twice gets the arguments' classes merged.
    pub fn rebuild_with_adt(&mut self)
        requires ctx_ok(old(self)@),
        ensures
            ctx_wf(final(self)@),
            final(self)@ == (CtxV { egraph: final(self).egraph, contradiction: final(self).contradiction, ..old(self)@ }),
            uf_of(final(self).egraph).len() == uf_of(old(self).egraph).len(),
            coarsens(uf_of(old(self).egraph), uf_of(final(self).egraph)),
            kept(old(self).egraph, final(self).egraph),
            clean(final(self).egraph),
            final(self).contradiction == (old(self).contradiction
                || memo_clash(memo_of(final(self).egraph), uf_of(final(self).egraph), old(self)@.ctor_arities)),
            adt_settled(final(self).egraph, final(self)@.ctor_arities, final(self).contradiction),
            closure_least(uf_of(old(self).egraph), memo_of(old(self).egraph), old(self)@.ctor_arities,
                uf_of(final(self).egraph)),
    {
        let ghost c0 = self@;
        let clash = adt_closure(&mut self.egraph, &self.ctor_arities);
        proof { lemma_leaves_forward(c0, self.egraph); }
        if clash {
            self.contradiction = true;
        }
    }

    /// Adds a term without `match` to the e-graph; gives the class of its node.
    #[verifier::loop_isolation(false)]
    #[verifier::rlimit(40)]
    pub fn encode_term(&mut self, term: &Term) -> (id: usize)
        requires ctx_wf(old(self)@), term_flat(term@),
        ensures
            ctx_wf(final(self)@),
            same_but_egraph(old(self)@, final(self)@),
            extends(old(self).egraph, final(self).egraph),
            grows(uf_of(old(self).egraph), uf_of(final(self).egraph)),
            kept(old(self).egraph, final(self).egraph),
            id < uf_of(final(self).egraph).len(),
            uf_of(final(self).egraph)[id as int] == id,
            term_cls(final(self).egraph, term@) == Some(id),
        decreases term, 0int,
    {
        let ghost start = self@;
        let r = match term {
            Term::Var(name) => {
                let no_children: Vec<usize> = Vec::new();
                let r = self.add_node(name.as_str(), &no_children);
                assert(canon(no_children@, uf_of(self.egraph)) =~= Seq::<usize>::empty());
                r
            },
            Term::Int(n) => {
                let no_children: Vec<usize> = Vec::new();
                let t = int_to_text(*n);
                let r = self.add_node(t.as_str(), &no_children);
                assert(canon(no_children@, uf_of(self.egraph)) =~= Seq::<usize>::empty());
                r
            },
            Term::App(f, args) => {
                proof { lemma_terms_v(args@); }
                let ghost av = terms_v(args@);
                let mut ids: Vec<usize> = Vec::new();
                let mut i: usize = 0;
                proof { lemma_extends_refl(self.egraph); }
                while i < args.len()
                    invariant
                        i <= args.len(),
                        ids.len() == i,
                        av == terms_v(args@),
                        terms_flat(av, av.len() as int),
                        ctx_wf(self@),
                        same_but_egraph(start, self@),
                        extends(start.egraph, self.egraph),
                        terms_found(self.egraph, av, ids@),
                    decreases args.len() - i,
                {
                    assert(av[i as int] == args@[i as int]@);
                    proof { lemma_terms_flat_at(av, av.len() as int, i as int); }
                    let ghost g1 = self.egraph;
                    let ghost c1 = self@;
                    let ghost ids0 = ids@;
                    let id = self.encode_term(&args[i]);
                    proof {
                        lemma_extends_trans(start.egraph, g1, self.egraph);
                        lemma_ok_graph(c1);
                        lemma_terms_found_extends(g1, self.egraph, av, ids0);
                        lemma_terms_found_push(self.egraph, av, ids0, id);
                    }
                    ids.push(id);
                    i += 1;
                }
                proof { lemma_terms_found_cls(self.egraph, av, ids@); }
                let ghost g1 = self.egraph;
                let ghost c1 = self@;
                let r = self.add_node(f.as_str(), &ids);
                proof {
                    lemma_ok_graph(c1);
                    lemma_terms_found_extends(g1, self.egraph, av, ids@);
                    lemma_terms_found_cls(self.egraph, av, ids@);
                    lemma_extends_trans(start.egraph, g1, self.egraph);
                }
                r
            },
            Term::Ite(c, a, b) => {
                let cid = self.encode_formula(c);
                let ghost g1 = self.egraph;
                let ghost c1 = self@;
                let tid = self.encode_term(a);
                let ghost g2 = self.egraph;
                let ghost c2 = self@;
                let eid = self.encode_term(b);
                let ghost g3 = self.egraph;
                let ghost c3 = self@;
                proof {
                    lemma_ok_graph(c1);
                    lemma_ok_graph(c2);
                    lemma_ok_graph(c3);
                    lemma_extends_trans(g1, g2, g3);
                    lemma_formula_extends(g1, g3, c@);
                    lemma_term_extends(g2, g3, a@);
                }
                let mut ids: Vec<usize> = Vec::new();
                ids.push(cid);
                ids.push(tid);
                ids.push(eid);
                let r = self.add_node("ite", &ids);
                proof {
                    lemma_formula_extends(g3, self.egraph, c@);
                    lemma_term_extends(g3, self.egraph, a@);
                    lemma_term_extends(g3, self.egraph, b@);
                    let u = uf_of(self.egraph);
                    assert(canon(ids@, u) =~= seq![u[cid as int], tid, eid]);
                    lemma_extends_trans(start.egraph, g1, g3);
                    lemma_extends_trans(start.egraph, g3, self.egraph);
                }
                r
            },
            Term::Match(_, _) => {
                proof { lemma_extends_refl(self.egraph); }
                self.true_id
            },
            Term::As(inner, _) => self.encode_term(inner),
        };
        proof { lemma_extends_forward(start.egraph, self.egraph); }
        r
    }

    /// Adds a formula without `match` to the e-graph; gives its class. Connectives are nodes
    /// `=`, `not`, `and`, `or`, `=>`, `ite`, `is-C`; `and` and `or` are nested to the right,
    /// two operands at a time.
    #[verifier::loop_isolation(false)]
    #[verifier::rlimit(40)]
    pub fn encode_formula(&mut self, formula: &Formula) -> (id: usize)
        requires ctx_wf(old(self)@), formula_flat(formula@),
        ensures
            ctx_wf(final(self)@),
            same_but_egraph(old(self)@, final(self)@),
            extends(old(self).egraph, final(self).egraph),
            grows(uf_of(old(self).egraph), uf_of(final(self).egraph)),
            kept(old(self).egraph, final(self).egraph),
            id < uf_of(final(self).egraph).len(),
            formula_cls(final(self).egraph, formula@) == Some(uf_of(final(self).egraph)[id as int]),
        decreases formula, 1int,
    {
        let ghost start = self@;
        proof { lemma_extends_refl(self.egraph); }
        let r = match formula {
            Formula::True => self.true_id,
            Formula::False => self.false_id,
            Formula::Eq(_, _) | Formula::IsTester(_, _) => self.encode_atom(formula),
            Formula::Not(_) | Formula::Implies(_, _) | Formula::Ite(_, _, _) => self.encode_compound(formula),
            Formula::And(_) | Formula::Or(_) => self.encode_chain(formula),
        };
        proof { lemma_extends_forward(start.egraph, self.egraph); }
        r
    }

    /// Adds an equation or a tester without `match`.
    #[verifier::rlimit(40)]
    fn encode_atom(&mut self, formula: &Formula) -> (id: usize)
        requires ctx_wf(old(self)@), formula_flat(formula@), formula is Eq || formula is IsTester,
        ensures
            ctx_wf(final(self)@),
            same_but_egraph(old(self)@, final(self)@),
            extends(old(self).egraph, final(self).egraph),
            id < uf_of(final(self).egraph).len(),
            formula_cls(final(self).egraph, formula@) == Some(uf_of(final(self).egraph)[id as int]),
        decreases formula, 0int,
    {
        let ghost start = self@;
        proof { lemma_extends_refl(self.egraph); }
        match formula {
            Formula::Eq(a, b) => {
                let id1 = self.encode_term(a);
                let ghost g1 = self.egraph;
                let ghost c1 = self@;
                let id2 = self.encode_term(b);
                let ghost g2 = self.egraph;
                let ghost c2 = self@;
                proof { lemma_ok_graph(c1); lemma_term_extends(g1, g2, a@); }
                let mut ids: Vec<usize> = Vec::new();
                ids.push(id1);
                ids.push(id2);
                let r = self.add_node("=", &ids);
                proof {
                    lemma_ok_graph(c2);
                    lemma_term_extends(g2, self.egraph, a@);
                    lemma_term_extends(g2, self.egraph, b@);
                    assert(canon(ids@, uf_of(self.egraph)) =~= seq![id1, id2]);
                    lemma_extends_trans(start.egraph, g1, g2);
                    lemma_extends_trans(start.egraph, g2, self.egraph);
                }
                r
            },
            Formula::IsTester(c, t) => {
                let tid = self.encode_term(t);
                let ghost g1 = self.egraph;
                let ghost c1 = self@;
                let mut ids: Vec<usize> = Vec::new();
                ids.push(tid);
                let op = concat2("is-", c.as_str());
                let r = self.add_node(op.as_str(), &ids);
                proof {
                    lemma_ok_graph(c1);
                    lemma_term_extends(g1, self.egraph, t@);
                    assert(canon(ids@, uf_of(self.egraph)) =~= seq![tid]);
                    lemma_extends_trans(start.egraph, g1, self.egraph);
                }
                r
            },
            _ => self.true_id,
        }
    }

    /// Adds a negation, an implication or an `ite` over formulas without `match`.
    #[verifier::rlimit(50)]
    fn encode_compound(&mut self, formula: &Formula) -> (id: usize)
        requires ctx_wf(old(self)@), formula_flat(formula@), formula is Not || formula is Implies || formula is Ite,
        ensures
            ctx_wf(final(self)@),
            same_but_egraph(old(self)@, final(self)@),
            extends(old(self).egraph, final(self).egraph),
            id < uf_of(final(self).egraph).len(),
            formula_cls(final(self).egraph, formula@) == Some(uf_of(final(self).egraph)[id as int]),
        decreases formula, 0int,
    {
        let ghost start = self@;
        proof { lemma_extends_refl(self.egraph); }
        match formula {
            Formula::Not(inner) => {
                let id = self.encode_formula(inner);
                let ghost g1 = self.egraph;
                let ghost c1 = self@;
                let mut ids: Vec<usize> = Vec::new();
                ids.push(id);
                let r = self.add_node("not", &ids);
                proof {
                    lemma_ok_graph(c1);
                    lemma_formula_extends(g1, self.egraph, inner@);
                    let u = uf_of(self.egraph);
                    assert(canon(ids@, u) =~= seq![u[id as int]]);
                    lemma_extends_trans(start.egraph, g1, self.egraph);
                }
                r
            },
            Formula::Implies(a, b) => {
                let id1 = self.encode_formula(a);
                let ghost g1 = self.egraph;
                let ghost c1 = self@;
                let id2 = self.encode_formula(b);
                let ghost g2 = self.egraph;
                let ghost c2 = self@;
                proof { lemma_ok_graph(c1); lemma_formula_extends(g1, g2, a@); }
                let mut ids: Vec<usize> = Vec::new();
                ids.push(id1);
                ids.push(id2);
                let r = self.add_node("=>", &ids);
                proof {
                    lemma_ok_graph(c2);
                    lemma_formula_extends(g2, self.egraph, a@);
                    lemma_formula_extends(g2, self.egraph, b@);
                    let u = uf_of(self.egraph);
                    assert(canon(ids@, u) =~= seq![u[id1 as int], u[id2 as int]]);
                    lemma_extends_trans(start.egraph, g1, g2);
                    lemma_extends_trans(start.egraph, g2, self.egraph);
                }
                r
            },
            Formula::Ite(c, a, b) => {
                let id1 = self.encode_formula(c);
                let ghost g1 = self.egraph;
                let ghost c1 = self@;
                let id2 = self.encode_formula(a);
                let ghost g2 = self.egraph;
                let ghost c2 = self@;
                let id3 = self.encode_formula(b);
                let ghost g3 = self.egraph;
                let ghost c3 = self@;
                proof {
                    lemma_ok_graph(c1);
                    lemma_ok_graph(c2);
                    lemma_ok_graph(c3);
                    lemma_extends_trans(g1, g2, g3);
                    lemma_formula_extends(g1, g3, c@);
                    lemma_formula_extends(g2, g3, a@);
                }
                let mut ids: Vec<usize> = Vec::new();
                ids.push(id1);
                ids.push(id2);
                ids.push(id3);
                let r = self.add_node("ite", &ids);
                proof {
                    lemma_formula_extends(g3, self.egraph, c@);
                    lemma_formula_extends(g3, self.egraph, a@);
                    lemma_formula_extends(g3, self.egraph, b@);
                    let u = uf_of(self.egraph);
                    assert(canon(ids@, u) =~= seq![u[id1 as int], u[id2 as int], u[id3 as int]]);
                    lemma_extends_trans(start.egraph, g1, g3);
                    lemma_extends_trans(start.egraph, g3, self.egraph);
                }
                r
            },
            _ => self.true_id,
        }
    }

    /// Adds a conjunction or a disjunction without `match`: its operands nested to the right,
    /// two at a time; an empty one is `true` or `false`.
    #[verifier::loop_isolation(false)]
    #[verifier::rlimit(40)]
    fn encode_chain(&mut self, formula: &Formula) -> (id: usize)
        requires ctx_wf(old(self)@), formula_flat(formula@), formula is And || formula is Or,
        ensures
            ctx_wf(final(self)@),
            same_but_egraph(old(self)@, final(self)@),
            extends(old(self).egraph, final(self).egraph),
            id < uf_of(final(self).egraph).len(),
            formula_cls(final(self).egraph, formula@) == Some(uf_of(final(self).egraph)[id as int]),
        decreases formula, 0int,
    {
        let ghost start = self@;
        proof { lemma_extends_refl(self.egraph); }
        match formula {
            Formula::And(fs) | Formula::Or(fs) => {
                let op = match formula { Formula::And(_) => "and", _ => "or" };
                proof { lemma_formulas_v(fs@); }
                let ghost fv = formulas_v(fs@);
                let mut ids: Vec<usize> = Vec::new();
                let mut i: usize = 0;
                while i < fs.len()
                    invariant
                        i <= fs.len(),
                        ids.len() == i,
                        fv == formulas_v(fs@),
                        formulas_flat(fv, fv.len() as int),
                        ctx_wf(self@),
                        same_but_egraph(start, self@),
                        extends(start.egraph, self.egraph),
                        formulas_found(self.egraph, fv, ids@),
                    decreases fs.len() - i,
                {
                    assert(fv[i as int] == fs@[i as int]@);
                    proof { lemma_formulas_flat_at(fv, fv.len() as int, i as int); }
                    let ghost g1 = self.egraph;
                    let ghost c1 = self@;
                    let ghost ids0 = ids@;
                    let id = self.encode_formula(&fs[i]);
                    proof {
                        lemma_extends_trans(start.egraph, g1, self.egraph);
                        lemma_ok_graph(c1);
                        lemma_formulas_found_extends(g1, self.egraph, fv, ids0);
                        lemma_formulas_found_push(self.egraph, fv, ids0, id);
                    }
                    ids.push(id);
                    i += 1;
                }
                if ids.len() == 0 {
                    match formula { Formula::And(_) => self.true_id, _ => self.false_id }
                } else {
                    let mut result = ids[ids.len() - 1];
                    let mut k: usize = ids.len() - 1;
                    while k > 0
                        invariant
                            k < ids.len(),
                            ids.len() == fv.len(),
                            ctx_wf(self@),
                            same_but_egraph(start, self@),
                            extends(start.egraph, self.egraph),
                            result < uf_of(self.egraph).len(),
                            chain_cls(self.egraph, op@, fv, k as int) == Some(uf_of(self.egraph)[result as int]),
                            formulas_found(self.egraph, fv, ids@),
                        decreases k,
                    {
                        k -= 1;
                        let mut pair: Vec<usize> = Vec::new();
                        pair.push(ids[k]);
                        pair.push(result);
                        let ghost g1 = self.egraph;
                        let ghost c1 = self@;
                        let ghost k1 = k + 1;
                        result = self.add_node(op, &pair);
                        proof {
                            lemma_ok_graph(c1);
                            lemma_extends_trans(start.egraph, g1, self.egraph);
                            lemma_chain_extends(g1, self.egraph, op@, fv, k1);
                            lemma_formulas_found_extends(g1, self.egraph, fv, ids@);
                            assert(formula_cls(self.egraph, fv[k as int]) == Some(uf_of(self.egraph)[ids@[k as int] as int]));
                            let u = uf_of(self.egraph);
                            assert(canon(pair@, u) =~= seq![u[pair@[0] as int], u[pair@[1] as int]]);
                        }
                    }
                    result
                }
            },
            _ => self.true_id,
        }
    }

    /// Adds a node to the e-graph; gives its class, where the node is now found.
    fn add_node(&mut self, op: &str, children: &Vec<usize>) -> (id: usize)
        requires
            ctx_wf(old(self)@),
            forall|i: int| 0 <= i < children.len() ==> #[trigger] children[i] < uf_of(old(self).egraph).len(),
        ensures
            ctx_wf(final(self)@),
            same_but_egraph(old(self)@, final(self)@),
            extends(old(self).egraph, final(self).egraph),
            id < uf_of(final(self).egraph).len(),
            uf_of(final(self).egraph)[id as int] == id,
            node_cls(final(self).egraph, op@, canon(children@, uf_of(final(self).egraph))) == Some(id),
    {
        let ghost g1 = self.egraph;
        let ghost c0 = self@;
        let id = egraph_add(&mut self.egraph, op, children);
        proof {
            lemma_add_facts(g1, self.egraph, op@, children@, id);
            lemma_node_entered(g1, self.egraph, op@, children@, id);
            lemma_extends_forward(g1, self.egraph);
            lemma_leaves_forward(c0, self.egraph);
            assert(self@.disequalities == c0.disequalities);
            assert forall|i: int| 0 <= i < self@.disequalities.len() implies
                (#[trigger] self@.disequalities[i]).0 < uf_of(self.egraph).len()
                && self@.disequalities[i].1 < uf_of(self.egraph).len() by {
                assert(c0.disequalities[i] == self@.disequalities[i]);
            }
            assert forall|k: Seq<char>| #[trigger] self@.declared_consts.contains_key(k) implies
                self@.declared_consts[k].id < uf_of(self.egraph).len() by {
                assert(c0.declared_consts.contains_key(k));
            }
        }
        id
    }
}

pub proof fn lemma_terms_flat_at(ts: Seq<TermV>, n: int, i: int)
    requires terms_flat(ts, n), 0 <= i < n <= ts.len(),
    ensures term_flat(ts[i]),
    decreases n,
{
    if i < n - 1 { lemma_terms_flat_at(ts, n - 1, i); }
}

pub proof fn lemma_formulas_flat_at(fs: Seq<FormulaV>, n: int, i: int)
    requires formulas_flat(fs, n), 0 <= i < n <= fs.len(),
    ensures formula_flat(fs[i]),
    decreases n,
{
    if i < n - 1 { lemma_formulas_flat_at(fs, n - 1, i); }
}

impl EggContext {
    /// A match as nested `ite`s over testers, with pattern variables replaced by selectors.
    pub fn desugar_match(&self, scrutinee: &Term, cases: &Vec<MatchCase>) -> (res: Result<Term, String>)
        ensures
            match desugar_match_spec(scrutinee@, cases_v(cases@), self@.ctor_selectors, self@.ctor_to_dt) {
                Some(v) => res matches Ok(r) && r@ == v,
                None => res matches Err(e) && e@ == match_fault(scrutinee@, cases_v(cases@), self@.ctor_selectors, self@.ctor_to_dt),
            },
    {
        proof { crate::ast::lemma_cases_v(cases@); }
        assert(cases_v(cases@).subrange(0, cases.len() as int) == cases_v(cases@));
        desugar_match_in(&self.ctor_selectors, &self.ctor_to_dt, scrutinee, cases, 0)
    }

    /// A case body with its pattern's variables replaced.
    pub fn substitute_pattern(&self, scrutinee: &Term, pattern: &MatchPattern, body: &Term) -> (res: Result<Term, String>)
        ensures
            match pattern_body(scrutinee@, pattern@, body@, self@.ctor_selectors, self@.ctor_to_dt) {
                Some(v) => res matches Ok(r) && r@ == v,
                None => res matches Err(e) && e@ == pattern_fault(pattern@, self@.ctor_selectors),
            },
    {
        substitute_pattern_in(&self.ctor_selectors, &self.ctor_to_dt, scrutinee, pattern, body)
    }

    /// Adds a term to the e-graph, its `match`es desugared first; gives the term's class.
    pub fn add_term(&mut self, term: &Term) -> (res: Result<usize, String>)
        requires ctx_wf(old(self)@),
        ensures
            ctx_wf(final(self)@),
            same_but_egraph(old(self)@, final(self)@),
            extends(old(self).egraph, final(self).egraph),
            grows(uf_of(old(self).egraph), uf_of(final(self).egraph)),
            kept(old(self).egraph, final(self).egraph),
            match desugar_term_spec(term@, old(self)@.ctor_selectors, old(self)@.ctor_to_dt) {
                Some(d) => res matches Ok(id) && id < uf_of(final(self).egraph).len()
                    && term_cls(final(self).egraph, d) == Some(id),
                None => res matches Err(e) && e@ == term_fault(term@, old(self)@.ctor_selectors, old(self)@.ctor_to_dt)
                    && final(self)@ == old(self)@,
            },
    {
        let d = match desugar_term(&self.ctor_selectors, &self.ctor_to_dt, term) {
            Ok(d) => d,
            Err(e) => { proof { lemma_extends_refl(self.egraph); } return Err(e); },
        };
        proof { lemma_desugar_flat(term@, self@.ctor_selectors, self@.ctor_to_dt); }
        Ok(self.encode_term(&d))
    }

    /// Adds a formula to the e-graph, its `match`es desugared first; gives its class.
    pub fn add_formula(&mut self, formula: &Formula) -> (res: Result<usize, String>)
        requires ctx_wf(old(self)@),
        ensures
            ctx_wf(final(self)@),
            same_but_egraph(old(self)@, final(self)@),
            grows(uf_of(old(self).egraph), uf_of(final(self).egraph)),
            kept(old(self).egraph, final(self).egraph),
            match desugar_formula_spec(formula@, old(self)@.ctor_selectors, old(self)@.ctor_to_dt) {
                Some(d) => res matches Ok(id) && id < uf_of(final(self).egraph).len()
                    && formula_cls(final(self).egraph, d) == Some(uf_of(final(self).egraph)[id as int]),
                None => res matches Err(e) && e@ == formula_fault(formula@, old(self)@.ctor_selectors, old(self)@.ctor_to_dt)
                    && final(self)@ == old(self)@,
            },
    {
        let d = match desugar_formula(&self.ctor_selectors, &self.ctor_to_dt, formula) {
            Ok(d) => d,
            Err(e) => { return Err(e); },
        };
        proof { lemma_desugar_formula_flat(formula@, self@.ctor_selectors, self@.ctor_to_dt); }
        Ok(self.encode_formula(&d))
    }

    /// Declares a constant: a leaf node for it, and its sort as written.
    pub fn process_declare_const(&mut self, name: &str, sort: &str)
        requires ctx_wf(old(self)@),
        ensures
            ctx_wf(final(self)@),
            grows(uf_of(old(self).egraph), uf_of(final(self).egraph)),
            kept(old(self).egraph, final(self).egraph),
            final(self)@ == (CtxV {
                egraph: final(self).egraph,
                declared_consts: old(self)@.declared_consts.insert(name@,
                    ConstInfoV { sort: sort@, id: final(self)@.declared_consts[name@].id }),
                ..old(self)@
            }),
            leaf_cls(final(self).egraph, name@) == Some(final(self)@.declared_consts[name@].id),
            advances(old(self)@, final(self)@),
    {
        let no_children: Vec<usize> = Vec::new();
        let id = self.add_node(name, &no_children);
        proof {
            lemma_extends_forward(old(self).egraph, self.egraph);
            assert(canon(no_children@, uf_of(self.egraph)) =~= Seq::<usize>::empty());
        }
        self.declared_consts.insert(String::from_str(name), ConstInfo { sort: String::from_str(sort), id });
        assert(self@.declared_consts[name@].id == id);
        proof { lemma_grown_advances(old(self)@, self@); }
    }

    /// Declares a function: without arguments it is a constant; otherwise its signature is
    /// recorded and no node is made.
    pub fn process_declare_fun(&mut self, name: &str, arg_sorts: &Vec<String>, ret_sort: &str)
        requires ctx_wf(old(self)@),
        ensures
            ctx_wf(final(self)@),
            grows(uf_of(old(self).egraph), uf_of(final(self).egraph)),
            kept(old(self).egraph, final(self).egraph),
            arg_sorts.len() == 0 ==> final(self)@ == (CtxV {
                egraph: final(self).egraph,
                declared_consts: old(self)@.declared_consts.insert(name@,
                    ConstInfoV { sort: ret_sort@, id: final(self)@.declared_consts[name@].id }),
                ..old(self)@
            }),
            arg_sorts.len() > 0 ==> final(self)@ == (CtxV {
                declared_funs: old(self)@.declared_funs.insert(name@,
                    FunInfoV { args: strs_v(arg_sorts@), ret: ret_sort@ }),
                ..old(self)@
            }),
            advances(old(self)@, final(self)@),
    {
        if arg_sorts.len() == 0 {
            self.process_declare_const(name, ret_sort);
        } else {
            self.declared_funs.insert(String::from_str(name), FunInfo { args: clone_strings(arg_sorts), ret: String::from_str(ret_sort) });
            proof { lemma_grown_advances(old(self)@, self@); }
        }
    }

    /// Makes a class true: merges it with `true`, then rebuilds with the datatype laws.
    fn assert_true(&mut self, id: usize)
        requires ctx_wf(old(self)@), id < uf_of(old(self).egraph).len(),
        ensures
            ctx_wf(final(self)@),
            final(self)@ == (CtxV { egraph: final(self).egraph, contradiction: final(self).contradiction, ..old(self)@ }),
            uf_of(final(self).egraph).len() == uf_of(old(self).egraph).len(),
            coarsens(uf_of(old(self).egraph), uf_of(final(self).egraph)),
            uf_of(final(self).egraph)[id as int] == uf_of(final(self).egraph)[old(self).true_id as int],
            old(self).contradiction ==> final(self).contradiction,
            kept(old(self).egraph, final(self).egraph),
            clean(final(self).egraph),
    {
        let ghost before = uf_of(self.egraph);
        let ghost c0 = self@;
        egraph_union(&mut self.egraph, id, self.true_id);
        proof {
            let after = uf_of(self.egraph);
            let (w, l) = choose|w: usize, l: usize| union_ends(before, id, self.true_id, w, l) && after == union_of(before, w, l);
            assert(coarsens(before, after)) by {
                assert forall|p: int| 0 <= p < before.len() && after[p] == p implies #[trigger] before[p] == p by {
                    if before[p] == l { assert(after[p] == w); }
                }
            }
            assert(after[id as int] == after[self.true_id as int]);
            lemma_same_table_kept(c0.egraph, self.egraph);
            lemma_ctx_forward(c0, self.egraph);
            assert(self@ == CtxV { egraph: self.egraph, ..c0 });
        }
        let ghost mid = uf_of(self.egraph);
        self.rebuild_with_adt();
        proof { lemma_coarsens_trans(before, mid, uf_of(self.egraph)); }
    }

    /// Handles an asserted formula: it is added and made true; then an equation at the top
    /// merges its two sides, a negated equation at the top is kept as a disequality, and a
    /// conjunction at the top is asserted part by part.
    pub fn process_assertion(&mut self, formula: &Formula) -> (res: Result<(), String>)
        requires ctx_wf(old(self)@),
        ensures
            ctx_wf(final(self)@),
            match desugar_formula_spec(formula@, old(self)@.ctor_selectors, old(self)@.ctor_to_dt) {
                Some(d) => res is Ok && advances(old(self)@, final(self)@) && final(self)@ == (CtxV {
                    egraph: final(self).egraph,
                    contradiction: final(self).contradiction,
                    disequalities: final(self)@.disequalities,
                    ..old(self)@
                }) && holds_true(final(self)@, d) && asserted_fact(final(self)@, d),
                None => res matches Err(e) && e@ == formula_fault(formula@, old(self)@.ctor_selectors, old(self)@.ctor_to_dt)
                    && final(self)@ == old(self)@,
            },
    {
        let d = match desugar_formula(&self.ctor_selectors, &self.ctor_to_dt, formula) {
            Ok(d) => d,
            Err(e) => { return Err(e); },
        };
        proof { lemma_desugar_formula_flat(formula@, self@.ctor_selectors, self@.ctor_to_dt); }
        let ghost start = self@;
        let fid = self.encode_formula(&d);
        proof { lemma_grows_coarsens(uf_of(start.egraph), uf_of(self.egraph)); }
        let ghost mid = uf_of(self.egraph);
        let ghost c1 = self@;
        self.assert_true(fid);
        proof {
            lemma_coarsens_trans(uf_of(start.egraph), mid, uf_of(self.egraph));
            assert(self@.disequalities.subrange(0, start.disequalities.len() as int) == start.disequalities);
            lemma_evolves_of(c1, self@);
            lemma_formula_evolves(c1.egraph, self.egraph, d@);
            let (u1, u2) = (uf_of(c1.egraph), uf_of(self.egraph));
            assert(u1[u1[fid as int] as int] == u1[fid as int]);
            assert(u2[u1[fid as int] as int] == u2[fid as int]);
            assert(holds_true(self@, d@));
            assert(self@.disequalities.subrange(0, c1.disequalities.len() as int) =~= c1.disequalities);
        }
        let ghost c2 = self@;
        self.process_assertion_direct(&d);
        proof { lemma_true_persists(c2, self@, d@); }
        Ok(())
    }

    /// The direct handling of an asserted formula without `match`.
    #[verifier::loop_isolation(false)]
    #[verifier::rlimit(40)]
    pub fn process_assertion_direct(&mut self, formula: &Formula)
        requires ctx_wf(old(self)@), formula_flat(formula@),
        ensures
            ctx_wf(final(self)@),
            advances(old(self)@, final(self)@),
            final(self)@ == (CtxV {
                egraph: final(self).egraph,
                contradiction: final(self).contradiction,
                disequalities: final(self)@.disequalities,
                ..old(self)@
            }),
            asserted_fact(final(self)@, formula@),
        decreases formula, 0int,
    {
        let ghost start = self@;
        match formula {
            Formula::Eq(t1, t2) => {
                let id1 = self.encode_term(t1);
                let ghost g1 = self.egraph;
                let ghost c1 = self@;
                let id2 = self.encode_term(t2);
                proof {
                    lemma_grows_coarsens(uf_of(start.egraph), uf_of(self.egraph));
                    lemma_ok_graph(c1);
                    lemma_term_extends(g1, self.egraph, t1@);
                }
                let ghost before = uf_of(self.egraph);
                let ghost c0 = self@;
                egraph_union(&mut self.egraph, id1, id2);
                proof {
                    let after = uf_of(self.egraph);
                    let (w, l) = choose|w: usize, l: usize| union_ends(before, id1, id2, w, l) && after == union_of(before, w, l);
                    assert forall|p: int| 0 <= p < before.len() && after[p] == p implies #[trigger] before[p] == p by {
                        if before[p] == l { assert(after[p] == w); }
                    }
                    lemma_coarsens_trans(uf_of(start.egraph), before, after);
                    lemma_same_table_kept(c0.egraph, self.egraph);
                    lemma_ctx_forward(c0, self.egraph);
                    assert(self@ == CtxV { egraph: self.egraph, ..c0 });
                    assert(after[id1 as int] == after[id2 as int]);
                    assert(coarsens(before, after));
                }
                let ghost mid = uf_of(self.egraph);
                let ghost g3 = self.egraph;
                self.rebuild_with_adt();
                proof {
                    lemma_coarsens_trans(uf_of(start.egraph), mid, uf_of(self.egraph));
                    assert(self@.disequalities.subrange(0, start.disequalities.len() as int) == start.disequalities);
                    lemma_kept_trans(c0.egraph, g3, self.egraph);
                    lemma_coarsens_trans(before, mid, uf_of(self.egraph));
                    lemma_evolves_of(c0, self@);
                    lemma_term_evolves(c0.egraph, self.egraph, t1@);
                    lemma_term_evolves(c0.egraph, self.egraph, t2@);
                    assert(uf_of(self.egraph)[id1 as int] == uf_of(self.egraph)[id2 as int]);
                }
            },
            Formula::Not(inner) => {
                match &**inner {
                    Formula::Eq(t1, t2) => {
                        assert(formula_flat(inner@));
                        assert(inner@ == FormulaV::Eq(t1@, t2@));
                        let id1 = self.encode_term(t1);
                        let ghost g1 = self.egraph;
                        let ghost c1 = self@;
                        let id2 = self.encode_term(t2);
                        proof { lemma_ok_graph(c1); lemma_term_extends(g1, self.egraph, t1@); }
                        self.disequalities.push((id1, id2));
                        proof {
                            lemma_grows_coarsens(uf_of(start.egraph), uf_of(self.egraph));
                            assert(self@.disequalities.subrange(0, start.disequalities.len() as int) == start.disequalities);
                            let k = self@.disequalities.len() - 1;
                            assert(self@.disequalities[k] == (id1, id2));
                            assert(holds_neq(self@, t1@, t2@));
                        }
                    },
                    _ => {
                        assert(self@.disequalities.subrange(0, start.disequalities.len() as int) == start.disequalities);
                    },
                }
            },
            Formula::And(conjuncts) => {
                proof { lemma_formulas_v(conjuncts@); }
                let ghost fv = formulas_v(conjuncts@);
                assert(self@.disequalities.subrange(0, start.disequalities.len() as int) == start.disequalities);
                let mut i: usize = 0;
                while i < conjuncts.len()
                    invariant
                        i <= conjuncts.len(),
                        fv == formulas_v(conjuncts@),
                        formulas_flat(fv, fv.len() as int),
                        ctx_wf(self@),
                        advances(start, self@),
                        self@ == (CtxV {
                            egraph: self.egraph,
                            contradiction: self.contradiction,
                            disequalities: self@.disequalities,
                            ..start
                        }),
                        forall|j: int| 0 <= j < i ==> asserted_fact(self@, #[trigger] fv[j]),
                    decreases conjuncts.len() - i,
                {
                    assert(fv[i as int] == conjuncts@[i as int]@);
                    proof { lemma_formulas_flat_at(fv, fv.len() as int, i as int); }
                    let ghost s0 = self@;
                    let cid = self.encode_formula(&conjuncts[i]);
                    proof { lemma_grows_coarsens(uf_of(s0.egraph), uf_of(self.egraph)); }
                    let ghost s1 = uf_of(self.egraph);
                    let ghost s1c = self@;
                    self.assert_true(cid);
                    proof { lemma_coarsens_trans(uf_of(s0.egraph), s1, uf_of(self.egraph)); }
                    let ghost s2 = self@;
                    self.process_assertion_direct(&conjuncts[i]);
                    proof {
                        assert(s1c.disequalities.subrange(0, s0.disequalities.len() as int) =~= s0.disequalities);
                        assert(advances(s0, s1c));
                        assert(s2.disequalities.subrange(0, s1c.disequalities.len() as int) =~= s1c.disequalities);
                        assert(advances(s1c, s2));
                        lemma_advances_trans(s0, s1c, s2);
                        lemma_advances_trans(s0, s2, self@);
                        assert forall|j: int| 0 <= j < i + 1 implies asserted_fact(self@, #[trigger] fv[j]) by {
                            if j < i { lemma_asserted_persists(s0, self@, fv[j]); }
                        }
                    }
                    proof {
                        lemma_coarsens_trans(uf_of(s0.egraph), uf_of(s2.egraph), uf_of(self.egraph));
                        lemma_coarsens_trans(uf_of(start.egraph), uf_of(s0.egraph), uf_of(self.egraph));
                        let d0 = start.disequalities;
                        let d1 = s0.disequalities;
                        let d3 = self@.disequalities;
                        assert(d3.subrange(0, d1.len() as int) == d1);
                        assert(d3.subrange(0, d0.len() as int) =~= d1.subrange(0, d0.len() as int));
                    }
                    i += 1;
                }
            },
            _ => {
                assert(self@.disequalities.subrange(0, start.disequalities.len() as int) == start.disequalities);
            },
        }
    }
}

// ---------------------------------------------------------------------------
// Datatype declarations
// ---------------------------------------------------------------------------

/// The constructor tables after constructors `0..n` of `d`: each constructor's datatype,
/// selectors in field order, and number of fields.
pub open spec fn with_ctor_tables(c: CtxV, d: DatatypeDeclV, n: int) -> CtxV
    decreases n,
{
    if n <= 0 || n > d.constructors.len() {
        c
    } else {
        let e = with_ctor_tables(c, d, n - 1);
        let k = d.constructors[n - 1];
        CtxV {
            ctor_to_dt: e.ctor_to_dt.insert(k.name, d.name),
            ctor_selectors: e.ctor_selectors.insert(k.name, selector_names(k)),
            ctor_arities: e.ctor_arities.insert(k.name, k.fields.len() as usize),
            ..e
        }
    }
}

/// The state after one datatype: its name among the known sorts, its constructors in the
/// tables, its selector and tester rules after the existing ones.
pub open spec fn with_datatype_rules(c: CtxV, d: DatatypeDeclV) -> CtxV {
    let e = if c.known_sorts.contains(d.name) { c } else { CtxV { known_sorts: c.known_sorts.push(d.name), ..c } };
    let e2 = with_ctor_tables(e, d, d.constructors.len() as int);
    CtxV { rules: e2.rules + datatype_rules(d), ..e2 }
}

pub open spec fn with_datatypes_rules(c: CtxV, ds: Seq<DatatypeDeclV>, n: int) -> CtxV
    decreases n,
{
    if n <= 0 || n > ds.len() { c } else { with_datatype_rules(with_datatypes_rules(c, ds, n - 1), ds[n - 1]) }
}

/// Every rule of the list is accepted by `egg`.
pub open spec fn rules_compile(rs: Seq<RuleTextV>) -> bool {
    forall|i: int| 0 <= i < rs.len() ==> rule_compiles((#[trigger] rs[i]).lhs, rs[i].rhs)
}

pub open spec fn datatypes_compile(ds: Seq<DatatypeDeclV>) -> bool {
    forall|i: int| 0 <= i < ds.len() ==> rules_compile(datatype_rules(#[trigger] ds[i]))
}

/// The rules of the datatypes `ds[0..n]`, in order.
pub open spec fn datatypes_rule_list(ds: Seq<DatatypeDeclV>, n: int) -> Seq<RuleTextV>
    decreases n,
{
    if n <= 0 || n > ds.len() { Seq::empty() } else { datatypes_rule_list(ds, n - 1) + datatype_rules(ds[n - 1]) }
}

/// The name of the first rule of `rs` that `egg` does not accept.
pub open spec fn first_refused(rs: Seq<RuleTextV>) -> Seq<char>
    decreases rs.len(),
{
    if rs.len() == 0 {
        Seq::empty()
    } else if !rule_compiles(rs[0].lhs, rs[0].rhs) {
        rs[0].name
    } else {
        first_refused(rs.subrange(1, rs.len() as int))
    }
}

/// The refusal of a datatype declaration: the first of its rules that `egg` does not accept.
pub open spec fn datatypes_refusal(ds: Seq<DatatypeDeclV>) -> Seq<char> {
    "无法创建 rewrite rule: "@ + first_refused(datatypes_rule_list(ds, ds.len() as int))
}

proof fn lemma_first_refused_skip(a: Seq<RuleTextV>, b: Seq<RuleTextV>)
    requires rules_compile(a),
    ensures first_refused(a + b) == first_refused(b),
    decreases a.len(),
{
    if a.len() > 0 {
        assert(rule_compiles(a[0].lhs, a[0].rhs));
        assert((a + b)[0] == a[0]);
        assert((a + b).subrange(1, (a + b).len() as int) =~= a.subrange(1, a.len() as int) + b);
        lemma_first_refused_skip(a.subrange(1, a.len() as int), b);
    } else {
        assert(a + b =~= b);
    }
}

proof fn lemma_first_refused_at(b: Seq<RuleTextV>, c: Seq<RuleTextV>, k: int)
    requires
        0 <= k < b.len(),
        forall|q: int| 0 <= q < k ==> rule_compiles((#[trigger] b[q]).lhs, b[q].rhs),
        !rule_compiles(b[k].lhs, b[k].rhs),
    ensures first_refused(b + c) == b[k].name,
    decreases k,
{
    assert((b + c)[0] == b[0]);
    if k > 0 {
        let b1 = b.subrange(1, b.len() as int);
        assert((b + c).subrange(1, (b + c).len() as int) =~= b1 + c);
        assert forall|q: int| 0 <= q < k - 1 implies rule_compiles((#[trigger] b1[q]).lhs, b1[q].rhs) by {
            assert(b1[q] == b[q + 1]);
        }
        lemma_first_refused_at(b1, c, k - 1);
    }
}

proof fn lemma_rule_list_compile(ds: Seq<DatatypeDeclV>, n: int)
    requires
        0 <= n <= ds.len(),
        forall|q: int| 0 <= q < n ==> rules_compile(datatype_rules(#[trigger] ds[q])),
    ensures rules_compile(datatypes_rule_list(ds, n)),
    decreases n,
{
    if n > 0 {
        lemma_rule_list_compile(ds, n - 1);
        let a = datatypes_rule_list(ds, n - 1);
        let b = datatype_rules(ds[n - 1]);
        assert forall|i: int| 0 <= i < (a + b).len() implies rule_compiles((#[trigger] (a + b)[i]).lhs, (a + b)[i].rhs) by {
            if i < a.len() { assert((a + b)[i] == a[i]); } else { assert((a + b)[i] == b[i - a.len()]); }
        }
    }
}

/// The rule list of all datatypes starts with that of the first `i + 1`.
proof fn lemma_rule_list_prefix(ds: Seq<DatatypeDeclV>, i: int, n: int)
    requires 0 <= i < n <= ds.len(),
    ensures exists|x: Seq<RuleTextV>| datatypes_rule_list(ds, n)
        == datatypes_rule_list(ds, i) + (datatype_rules(ds[i]) + x),
    decreases n,
{
    if n == i + 1 {
        assert(datatypes_rule_list(ds, n) =~= datatypes_rule_list(ds, i) + (datatype_rules(ds[i]) + Seq::empty()));
    } else {
        lemma_rule_list_prefix(ds, i, n - 1);
        let x = choose|x: Seq<RuleTextV>| datatypes_rule_list(ds, n - 1)
            == datatypes_rule_list(ds, i) + (datatype_rules(ds[i]) + x);
        let y = x + datatype_rules(ds[n - 1]);
        assert(datatypes_rule_list(ds, n) =~= datatypes_rule_list(ds, i) + (datatype_rules(ds[i]) + y));
    }
}

impl EggContext {
    /// Registers the constructors of datatypes and adds their selector and tester rules.
    /// Fails when `egg` does not accept one of the rules (a constructor or selector name
    /// that is not a pattern symbol).
    #[verifier::loop_isolation(false)]
    #[verifier::rlimit(30)]
    pub fn generate_datatype_rules(&mut self, datatypes: &Vec<DatatypeDecl>) -> (res: Result<(), String>)
        requires ctx_wf(old(self)@),
        ensures
            ctx_wf(final(self)@),
            datatypes_compile(datatypes_v(datatypes@)) ==> res is Ok
                && final(self)@ == with_datatypes_rules(old(self)@, datatypes_v(datatypes@), datatypes.len() as int),
            !datatypes_compile(datatypes_v(datatypes@)) ==> (res matches Err(e)
                && e@ == datatypes_refusal(datatypes_v(datatypes@))),
            same_core(old(self)@, final(self)@),
            advances(old(self)@, final(self)@),
    {
        let ghost ds = datatypes_v(datatypes@);
        let ghost start = self@;
        let mut i: usize = 0;
        while i < datatypes.len()
            invariant
                i <= datatypes.len(),
                ds == datatypes_v(datatypes@),
                ds.len() == datatypes.len(),
                ctx_wf(self@),
                self@ == with_datatypes_rules(start, ds, i as int),
                same_core(start, self@),
                forall|q: int| 0 <= q < i ==> rules_compile(datatype_rules(#[trigger] ds[q])),
            decreases datatypes.len() - i,
        {
            let dt = &datatypes[i];
            let ghost d = ds[i as int];
            assert(d == datatype_v(*dt));
            let ghost s0 = self@;
            let name = dt.name.clone();
            if !crate::sorts::names_contain(&self.known_sorts, &name) {
                let ghost before = self.known_sorts@;
                self.known_sorts.push(name);
                assert(strs_v(self.known_sorts@) =~= strs_v(before).push(d.name));
            }
            assert(self@.declared_consts == s0.declared_consts);
            assert(self.egraph == s0.egraph);
            assert(self@.disequalities == s0.disequalities);
            assert(uf_ok(uf_of(self.egraph)));
            assert(ctx_wf(self@));
            let ghost s1 = self@;
            let mut j: usize = 0;
            while j < dt.constructors.len()
                invariant
                    j <= dt.constructors.len(),
                    d == datatype_v(*dt),
                    ctx_wf(self@),
                    self@ == with_ctor_tables(s1, d, j as int),
                    same_core(start, self@),
                decreases dt.constructors.len() - j,
            {
                let c = &dt.constructors[j];
                assert(d.constructors[j as int] == ctor_v(*c));
                self.ctor_to_dt.insert(c.name.clone(), dt.name.clone());
                let mut sels: Vec<String> = Vec::new();
                let mut k: usize = 0;
                while k < c.fields.len()
                    invariant
                        k <= c.fields.len(),
                        sels.len() == k,
                        forall|q: int| 0 <= q < k ==> (#[trigger] sels@[q])@ == c.fields@[q].selector@,
                    decreases c.fields.len() - k,
                {
                    sels.push(c.fields[k].selector.clone());
                    k += 1;
                }
                assert(strs_v(sels@) =~= selector_names(ctor_v(*c)));
                self.ctor_selectors.insert(c.name.clone(), Names { names: sels });
                self.ctor_arities.insert(c.name.clone(), c.fields.len());
                j += 1;
            }
            let mut rs = datatype_rule_texts(dt);
            let ghost rv = rules_v(rs@);
            let mut k: usize = 0;
            while k < rs.len()
                invariant
                    k <= rs.len(),
                    rv == rules_v(rs@),
                    same_core(start, self@),
                    forall|q: int| 0 <= q < k ==> rule_compiles((#[trigger] rv[q]).lhs, rv[q].rhs),
                decreases rs.len() - k,
            {
                let r = &rs[k];
                assert(rv[k as int] == r@);
                match compile_rule(r.name.as_str(), r.lhs.as_str(), r.rhs.as_str()) {
                    Some(_) => {},
                    None => {
                        proof {
                            assert(!rules_compile(datatype_rules(ds[i as int])));
                            assert(!datatypes_compile(ds));
                            lemma_rule_list_compile(ds, i as int);
                            lemma_rule_list_prefix(ds, i as int, ds.len() as int);
                            let x = choose|x: Seq<RuleTextV>| datatypes_rule_list(ds, ds.len() as int)
                                == datatypes_rule_list(ds, i as int) + (datatype_rules(ds[i as int]) + x);
                            lemma_first_refused_skip(datatypes_rule_list(ds, i as int), datatype_rules(ds[i as int]) + x);
                            lemma_first_refused_at(rv, x, k as int);
                        }
                        proof { lemma_same_core_advances(start, self@); }
                        return Err(concat2("无法创建 rewrite rule: ", r.name.as_str()));
                    },
                }
                k += 1;
            }
            let ghost before = self.rules@;
            let ghost added = rs@;
            self.rules.append(&mut rs);
            assert(rules_v(self.rules@) =~= rules_v(before) + rules_v(added));
            i += 1;
        }
        proof { lemma_same_core_advances(start, self@); }
        Ok(())
    }

    // -----------------------------------------------------------------------
    // Satisfiability
    // -----------------------------------------------------------------------

    /// Whether the state is found unsatisfiable.
    fn compute_unsat(&self) -> (r: bool)
        requires ctx_wf(self@),
        ensures r == is_unsat(self@),
    {
        if self.contradiction {
            return true;
        }
        let t = egraph_find(&self.egraph, self.true_id);
        let f = egraph_find(&self.egraph, self.false_id);
        if t == f {
            return true;
        }
        let mut i: usize = 0;
        while i < self.disequalities.len()
            invariant
                i <= self.disequalities.len(),
                ctx_wf(self@),
                !self.contradiction,
                uf_of(self.egraph)[self.true_id as int] != uf_of(self.egraph)[self.false_id as int],
                forall|q: int| 0 <= q < i ==> uf_of(self.egraph)[(#[trigger] self@.disequalities[q]).0 as int]
                    != uf_of(self.egraph)[self@.disequalities[q].1 as int],
            decreases self.disequalities.len() - i,
        {
            let (a, b) = self.disequalities[i];
            assert(self@.disequalities[i as int] == (a, b));
            let ca = egraph_find(&self.egraph, a);
            let cb = egraph_find(&self.egraph, b);
            if ca == cb {
                return true;
            }
            i += 1;
        }
        false
    }

    /// Runs equality saturation with all rules (at most 100 iterations and 10 000 nodes),
    /// applies the datatype laws, and answers
    /// `sat` or `unsat`: `unsat` when two constructors met in one class, when `true` and
    /// `false` ended in one class, or when an asserted disequality has both sides in one
    /// class.
    pub fn check_sat(&mut self) -> (r: String)
        requires ctx_wf(old(self)@),
        ensures
            ctx_wf(final(self)@),
            r@ == verdict_text(final(self)@),
            is_unsat(old(self)@) ==> r@ == "unsat"@,
            final(self)@ == (CtxV {
                egraph: final(self).egraph,
                contradiction: final(self).contradiction,
                last_check_sat_result: Some(r@),
                ..old(self)@
            }),
            advances(old(self)@, final(self)@),
            adt_settled(final(self).egraph, final(self)@.ctor_arities, final(self).contradiction),
            final(self).contradiction == (old(self).contradiction
                || memo_clash(memo_of(final(self).egraph), uf_of(final(self).egraph), old(self)@.ctor_arities)),
            exists|gr: EGraphStore| run_outcome(old(self).egraph, gr)
                && run_justified(read_patterns(compiling_rules(old(self)@.rules)), old(self).egraph, gr)
                && #[trigger] closure_least(uf_of(gr), memo_of(gr), old(self)@.ctor_arities, uf_of(final(self).egraph)),
    {
        let ghost start = self@;
        let ghost rv = rules_v(self.rules@);
        let mut usable: Vec<RuleText> = Vec::new();
        let mut i: usize = 0;
        while i < self.rules.len()
            invariant
                i <= self.rules.len(),
                rv == rules_v(self.rules@),
                rules_v(usable@) == compiling_rules(rv.take(i as int)),
                forall|q: int| 0 <= q < usable.len() ==> rule_compiles(#[trigger] usable@[q]@.lhs, usable@[q]@.rhs),
            decreases self.rules.len() - i,
        {
            let r = &self.rules[i];
            assert(rv[i as int] == r@);
            assert(rv.take(i + 1).drop_last() =~= rv.take(i as int));
            let ghost before = usable@;
            match compile_rule(r.name.as_str(), r.lhs.as_str(), r.rhs.as_str()) {
                Some(_) => {
                    usable.push(r.deep_copy());
                    assert(rules_v(usable@) =~= rules_v(before).push(r@));
                },
                None => {},
            }
            i += 1;
        }
        assert(rv.take(rv.len() as int) =~= rv);
        let ghost c0 = self@;
        egraph_run(&mut self.egraph, &usable, 100, 10_000);
        proof {
            lemma_ctx_forward(c0, self.egraph);
            assert(self@ == CtxV { egraph: self.egraph, ..c0 });
        }
        let ghost mid = uf_of(self.egraph);
        let ghost gr = self.egraph;
        self.rebuild_with_adt();
        proof { assert(closure_least(uf_of(gr), memo_of(gr), start.ctor_arities, uf_of(self.egraph))); }
        proof { lemma_coarsens_trans(uf_of(start.egraph), mid, uf_of(self.egraph)); }
        let unsat = self.compute_unsat();
        let ghost c_mid = self@;
        proof {
            assert(self@.disequalities.subrange(0, start.disequalities.len() as int) =~= start.disequalities);
            if is_unsat(start) { lemma_unsat_persists(start, self@); }
        }
        let r = if unsat { String::from_str("unsat") } else { String::from_str("sat") };
        self.last_check_sat_result = Some(r.clone());
        proof {
            assert(self@ == CtxV { last_check_sat_result: Some(r@), ..c_mid });
            lemma_unsat_same(self@, c_mid);
            assert(self@.disequalities.subrange(0, start.disequalities.len() as int) == start.disequalities);
        }
        r
    }
}

// ---------------------------------------------------------------------------
// Models
// ---------------------------------------------------------------------------

/// Lines joined by line breaks.
pub open spec fn join_lines(ls: Seq<Seq<char>>) -> Seq<char>
    decreases ls.len(),
{
    if ls.len() == 0 {
        Seq::empty()
    } else if ls.len() == 1 {
        ls[0]
    } else {
        join_lines(ls.drop_last()) + "\n"@ + ls.last()
    }
}

/// A parenthesized block of lines, as `get-model` and `get-value` print it.
pub open spec fn block_text(ls: Seq<Seq<char>>) -> Seq<char> {
    "(\n"@ + join_lines(ls) + "\n)"@
}

/// The names of a map's domain in increasing order of strings, each once.
pub open spec fn sorted_names(ns: Seq<Seq<char>>, d: Set<Seq<char>>) -> bool {
    &&& forall|p: int, q: int| 0 <= p < q < ns.len() ==> str_lt(#[trigger] ns[p], #[trigger] ns[q])
    &&& forall|q: int| 0 <= q < ns.len() ==> d.contains(#[trigger] ns[q])
    &&& forall|k: Seq<char>| d.contains(k) ==> exists|q: int| 0 <= q < ns.len() && #[trigger] ns[q] == k
}

/// The model line of a constant: its name, its sort and a value.
pub open spec fn model_line(n: Seq<char>, c: ConstInfoV, v: Seq<char>) -> Seq<char> {
    "  (define-fun "@ + n + " () "@ + c.sort + " "@ + v + ")"@
}

pub open spec fn model_lines(ns: Seq<Seq<char>>, m: Map<Seq<char>, ConstInfoV>, vals: Seq<Seq<char>>) -> Seq<Seq<char>> {
    Seq::new(ns.len(), |q: int| model_line(ns[q], m[ns[q]], vals[q]))
}

/// The value line of a queried term.
pub open spec fn value_line(t: Seq<char>, v: Seq<char>) -> Seq<char> {
    "  ("@ + t + " "@ + v + ")"@
}

/// What `get-model` answers on a state.
pub open spec fn model_answer(c: CtxV, r: Result<String, String>) -> bool {
    if last_is_sat(c) {
        r matches Ok(t) && exists|ns: Seq<Seq<char>>, vals: Seq<Seq<char>>|
            sorted_names(ns, c.declared_consts.dom()) && vals.len() == ns.len()
            && t@ == block_text(model_lines(ns, c.declared_consts, vals))
            && forall|q: int| 0 <= q < ns.len() ==> shows_class(c.egraph,
                uf_of(c.egraph)[c.declared_consts[ns[q]].id as int], #[trigger] vals[q])
    } else {
        r matches Err(m) && m@ == no_sat_message("get-model"@, c.last_check_sat_result)
    }
}

/// What `get-value` answers on the terms `ts`, from the state `a` to the state `b`: the
/// terms are added to the e-graph, and each is shown with a value.
pub open spec fn values_answer(a: CtxV, b: CtxV, ts: Seq<TermV>, r: Result<String, String>) -> bool {
    &&& ctx_wf(b)
    &&& b == (CtxV { egraph: b.egraph, contradiction: b.contradiction, ..a })
    &&& advances(a, b)
    &&& !last_is_sat(a) ==> (r matches Err(m) && m@ == no_sat_message("get-value"@, a.last_check_sat_result) && b == a)
    &&& last_is_sat(a) && (forall|i: int| 0 <= i < ts.len()
        ==> (#[trigger] desugar_term_spec(ts[i], a.ctor_selectors, a.ctor_to_dt)) is Some) ==> r is Ok
    &&& exists|gm: EGraphStore| extends(a.egraph, gm)
        && #[trigger] closure_least(uf_of(gm), memo_of(gm), a.ctor_arities, uf_of(b.egraph))
    &&& r matches Ok(t) ==> exists|vals: Seq<Seq<char>>| vals.len() == ts.len()
        && t@ == block_text(Seq::new(ts.len(), |q: int| value_line(term_text(ts[q]), vals[q])))
        && forall|q: int| 0 <= q < ts.len() ==> shown_value(b, desugar_term_spec(ts[q], a.ctor_selectors, a.ctor_to_dt)->Some_0, #[trigger] vals[q])
}

/// `get-value` merges only what it must: when two ids of the state before are in one class
/// after, every equivalence that keeps the classes of before and is closed under congruence
/// and the datatype laws over the table with the queried terms added (each as a class of
/// its own) puts them together. So no class is merged with `true`, or with another queried
/// term, unless congruence and injectivity force it.
pub proof fn lemma_value_query_merges_forced(a: CtxV, b: CtxV, ts: Seq<TermV>, r: Result<String, String>, i: int, j: int)
    requires
        ctx_wf(a), values_answer(a, b, ts, r),
        0 <= i < uf_of(a.egraph).len(), 0 <= j < uf_of(a.egraph).len(),
        uf_of(b.egraph)[i] == uf_of(b.egraph)[j],
    ensures
        exists|gm: EGraphStore| extends(a.egraph, gm) && forall|v: spec_fn(int) -> int|
            finer(uf_of(a.egraph), v) && cong_closed(memo_of(gm), v) && inj_closed(memo_of(gm), a.ctor_arities, v)
            ==> #[trigger] v(i) == v(j),
{
    let gm = choose|gm: EGraphStore| extends(a.egraph, gm)
        && #[trigger] closure_least(uf_of(gm), memo_of(gm), a.ctor_arities, uf_of(b.egraph));
    let ua = uf_of(a.egraph);
    let ug = uf_of(gm);
    assert forall|v: spec_fn(int) -> int|
        finer(ua, v) && cong_closed(memo_of(gm), v) && inj_closed(memo_of(gm), a.ctor_arities, v)
        implies #[trigger] v(i) == v(j) by {
        assert forall|p: int, q: int| 0 <= p < ug.len() && 0 <= q < ug.len() && ug[p] == ug[q]
            implies #[trigger] v(p) == #[trigger] v(q) by {
            if p < ua.len() && q < ua.len() {
                assert(ua[p] == ua[q]);
            } else if p < ua.len() {
                assert(ug[q] == q);
                assert(ua[p] < ua.len());
            } else if q < ua.len() {
                assert(ug[p] == p);
                assert(ua[q] < ua.len());
            } else {
                assert(ug[p] == p && ug[q] == q);
            }
        }
        assert(finer(ug, v));
        assert(finer(uf_of(b.egraph), v));
    }
}

/// `v` is the text of a smallest term in the class the state finds for `t`.
pub open spec fn shown_value(c: CtxV, t: TermV, v: Seq<char>) -> bool {
    term_cls(c.egraph, t) is Some && shows_class(c.egraph, term_cls(c.egraph, t)->Some_0, v)
}

proof fn lemma_join_push(ls: Seq<Seq<char>>, l: Seq<char>)
    ensures join_lines(ls.push(l)) == if ls.len() == 0 { l } else { join_lines(ls) + "\n"@ + l },
{
    assert(ls.push(l).drop_last() =~= ls);
}

/// Whether the entry `j` is the last one of its name.
pub open spec fn last_of_name<V>(es: Seq<(String, V)>, j: int) -> bool {
    forall|k: int| j < k < es.len() ==> (#[trigger] es[k]).0@ != es[j].0@
}

proof fn lemma_str_map_dom<V: View>(s: Seq<(String, V)>, k: Seq<char>)
    requires str_map_v(s).contains_key(k),
    ensures exists|j: int| 0 <= j < s.len() && (#[trigger] s[j]).0@ == k && last_of_name(s, j),
    decreases s.len(),
{
    let t = s.drop_last();
    if s.last().0@ == k {
        assert(s[s.len() - 1].0@ == k && last_of_name(s, s.len() - 1));
    } else {
        lemma_str_map_dom(t, k);
        let j = choose|j: int| 0 <= j < t.len() && (#[trigger] t[j]).0@ == k && last_of_name(t, j);
        assert(s[j] == t[j]);
        assert forall|q: int| j < q < s.len() implies (#[trigger] s[q]).0@ != s[j].0@ by {
            if q < t.len() { assert(s[q] == t[q]); }
        }
    }
}

/// The message when a model is asked for without a satisfiable answer before.
pub open spec fn no_sat_message(cmd: Seq<char>, last: Option<Seq<char>>) -> Seq<char> {
    match last {
        Some(r) => cmd + ": 最近 check-sat 返回 "@ + r + ", 非 sat"@,
        None => cmd + ": 尚未执行 check-sat"@,
    }
}

pub open spec fn last_is_sat(c: CtxV) -> bool {
    c.last_check_sat_result == Some("sat"@)
}

impl EggContext {
    fn require_sat(&self, cmd: &str) -> (res: Result<(), String>)
        ensures
            last_is_sat(self@) ==> res is Ok,
            !last_is_sat(self@) ==> (res matches Err(m) && m@ == no_sat_message(cmd@, self@.last_check_sat_result)),
    {
        match &self.last_check_sat_result {
            Some(r) => {
                if crate::text::text_is(r, "sat") {
                    Ok(())
                } else {
                    let mut m = String::from_str(cmd);
                    m.append(": 最近 check-sat 返回 ");
                    m.append(r.as_str());
                    m.append(", 非 sat");
                    Err(m)
                }
            },
            None => {
                let mut m = String::from_str(cmd);
                m.append(": 尚未执行 check-sat");
                Err(m)
            },
        }
    }

    /// The model after a satisfiable answer: for each declared constant, in increasing
    /// order of names, `(define-fun name () sort value)` with the smallest term of its class.
    pub fn get_model(&self) -> (res: Result<String, String>)
        requires ctx_wf(self@),
        ensures model_answer(self@, res),
    {
        match self.require_sat("get-model") {
            Ok(()) => {},
            Err(e) => { return Err(e); },
        }
        let chosen = self.model_order();
        let entries = &self.declared_consts.entries;
        let ghost ns = Seq::new(chosen.len() as nat, |q: int| entries@[chosen@[q] as int].0@);
        let ghost m = self@.declared_consts;
        let mut out = String::from_str("(\n");
        let ghost mut lines: Seq<Seq<char>> = Seq::empty();
        let ghost mut vals: Seq<Seq<char>> = Seq::empty();
        let mut k: usize = 0;
        while k < chosen.len()
            invariant
                k <= chosen.len(),
                ctx_wf(self@),
                m == self@.declared_consts,
                entries == self.declared_consts.entries,
                forall|q: int| 0 <= q < chosen.len() ==> #[trigger] chosen@[q] < entries.len(),
                sorted_names(ns, m.dom()),
                ns.len() == chosen.len(),
                forall|q: int| 0 <= q < chosen.len() ==> #[trigger] ns[q] == entries@[chosen@[q] as int].0@,
                vals.len() == k,
                lines == model_lines(ns.take(k as int), m, vals),
                forall|q: int| 0 <= q < k ==> shows_class(self.egraph,
                    uf_of(self.egraph)[m[ns[q]].id as int], #[trigger] vals[q]),
                out@ == "(\n"@ + join_lines(lines),
            decreases chosen.len() - k,
        {
            let name = &entries[chosen[k]].0;
            assert(ns[k as int] == name@);
            assert(m.contains_key(name@));
            match self.declared_consts.get(name.as_str()) {
                Some(info) => {
                    let value = egraph_best_term(&self.egraph, info.id);
                    if k > 0 {
                        out.append("\n");
                    }
                    out.append("  (define-fun ");
                    out.append(name.as_str());
                    out.append(" () ");
                    out.append(info.sort.as_str());
                    out.append(" ");
                    out.append(value.as_str());
                    out.append(")");
                    proof {
                        let l = model_line(name@, m[name@], value@);
                        lemma_join_push(lines, l);
                        lines = lines.push(l);
                        vals = vals.push(value@);
                        assert(lines =~= model_lines(ns.take(k + 1), m, vals));
                    }
                },
                None => {},
            }
            k += 1;
        }
        out.append("\n)");
        assert(ns.take(chosen.len() as int) =~= ns);
        Ok(out)
    }

    /// The entries of the declared constants that the model shows, one per name, in
    /// increasing order of names.
    fn model_order(&self) -> (chosen: Vec<usize>)
        ensures
            forall|q: int| 0 <= q < chosen.len() ==> #[trigger] chosen@[q] < self.declared_consts.entries.len(),
            sorted_names(Seq::new(chosen.len() as nat, |q: int| self.declared_consts.entries@[chosen@[q] as int].0@),
                self@.declared_consts.dom()),
    {
        let entries = &self.declared_consts.entries;
        let ghost es = entries@;
        let mut chosen: Vec<usize> = Vec::new();
        let mut i: usize = 0;
        while i < entries.len()
            invariant
                i <= entries.len(),
                es == entries@,
                forall|q: int| 0 <= q < chosen.len() ==> #[trigger] chosen@[q] < i && last_of_name(es, chosen@[q] as int),
                forall|p: int, q: int| 0 <= p < q < chosen.len()
                    ==> str_lt(es[#[trigger] chosen@[p] as int].0@, es[#[trigger] chosen@[q] as int].0@),
                forall|j: int| 0 <= j < i && last_of_name(es, j) ==> exists|q: int| 0 <= q < chosen.len() && #[trigger] chosen@[q] == j,
            decreases entries.len() - i,
        {
            let mut later = false;
            let mut j: usize = i + 1;
            while j < entries.len()
                invariant
                    i < entries.len(),
                    i + 1 <= j <= entries.len(),
                    es == entries@,
                    later <==> exists|k: int| i < k < j && (#[trigger] es[k]).0@ == es[i as int].0@,
                decreases entries.len() - j,
            {
                if entries[j].0.eq(&entries[i].0) {
                    later = true;
                }
                j += 1;
            }
            if !later {
                assert(last_of_name(es, i as int));
                let ghost ni = es[i as int].0@;
                let mut pos: usize = chosen.len();
                while pos > 0 && str_less(&entries[i].0, &entries[chosen[pos - 1]].0)
                    invariant
                        i < entries.len(),
                        es == entries@,
                        ni == es[i as int].0@,
                        pos <= chosen.len(),
                        forall|q: int| 0 <= q < chosen.len() ==> #[trigger] chosen@[q] < i && last_of_name(es, chosen@[q] as int),
                        forall|q: int| pos <= q < chosen.len() ==> str_lt(ni, es[#[trigger] chosen@[q] as int].0@),
                    decreases pos,
                {
                    pos -= 1;
                }
                let ghost old_chosen = chosen@;
                proof {
                    if pos > 0 {
                        let c = old_chosen[pos - 1] as int;
                        assert(es[c].0@ != ni);
                        lemma_str_lt_total(es[c].0@, ni);
                        assert forall|q: int| 0 <= q < pos implies str_lt(es[#[trigger] old_chosen[q] as int].0@, ni) by {
                            if q < pos - 1 {
                                lemma_str_lt_transitive(es[old_chosen[q] as int].0@, es[c].0@, ni);
                            }
                        }
                    }
                }
                chosen.insert(pos, i);
                proof {
                    assert(chosen@ == old_chosen.insert(pos as int, i));
                    assert forall|p: int, q: int| 0 <= p < q < chosen.len()
                        implies str_lt(es[#[trigger] chosen@[p] as int].0@, es[#[trigger] chosen@[q] as int].0@) by {
                        if q < pos {
                        } else if q == pos {
                        } else if p < pos {
                            lemma_str_lt_transitive(es[chosen@[p] as int].0@, ni, es[chosen@[q] as int].0@);
                        } else if p == pos {
                        } else {
                            assert(chosen@[p] == old_chosen[p - 1] && chosen@[q] == old_chosen[q - 1]);
                        }
                    }
                    assert forall|jj: int| 0 <= jj < i + 1 && last_of_name(es, jj)
                        implies exists|q: int| 0 <= q < chosen.len() && #[trigger] chosen@[q] == jj by {
                        if jj == i {
                            assert(chosen@[pos as int] == i);
                        } else {
                            let q0 = choose|q: int| 0 <= q < old_chosen.len() && #[trigger] old_chosen[q] == jj;
                            if q0 < pos {
                                assert(chosen@[q0] == jj);
                            } else {
                                assert(chosen@[q0 + 1] == jj);
                            }
                        }
                    }
                }
            }
            i += 1;
        }
        let ghost ns = Seq::new(chosen.len() as nat, |q: int| es[chosen@[q] as int].0@);
        proof {
            let d = self@.declared_consts.dom();
            assert forall|q: int| 0 <= q < ns.len() implies d.contains(#[trigger] ns[q]) by {
                crate::sorts::lemma_str_map_last(es, ns[q], chosen@[q] as int);
            }
            assert forall|k: Seq<char>| d.contains(k) implies exists|q: int| 0 <= q < ns.len() && #[trigger] ns[q] == k by {
                lemma_str_map_dom(es, k);
                let j = choose|j: int| 0 <= j < es.len() && (#[trigger] es[j]).0@ == k && last_of_name(es, j);
                let q = choose|q: int| 0 <= q < chosen.len() && #[trigger] chosen@[q] == j;
                assert(ns[q] == k);
            }
            assert forall|p: int, q: int| 0 <= p < q < ns.len() implies str_lt(#[trigger] ns[p], #[trigger] ns[q]) by {
                assert(str_lt(es[chosen@[p] as int].0@, es[chosen@[q] as int].0@));
            }
        }
        chosen
    }
}

impl EggContext {
    /// The values of some terms after a satisfiable answer: each term is added to the
    /// e-graph, and `(term value)` is written with the smallest term of its class.
    #[verifier::loop_isolation(false)]
    #[verifier::rlimit(40)]
    pub fn get_value(&mut self, terms: &Vec<Term>) -> (res: Result<String, String>)
        requires ctx_wf(old(self)@),
        ensures values_answer(old(self)@, final(self)@, terms_v(terms@), res),
    {
        proof { lemma_terms_v(terms@); }
        let ghost start = self@;
        match self.require_sat("get-value") {
            Ok(()) => {},
            Err(e) => {
                proof {
                    assert(self@.disequalities.subrange(0, start.disequalities.len() as int) == start.disequalities);
                    lemma_extends_refl(self.egraph);
                    assert(closure_least(uf_of(self.egraph), memo_of(self.egraph), start.ctor_arities, uf_of(self.egraph)));
                }
                return Err(e);
            },
        }
        let mut shown: Vec<String> = Vec::new();
        let mut ids: Vec<usize> = Vec::new();
        let ghost ds = Seq::new(terms.len() as nat,
            |q: int| desugar_term_spec(terms@[q]@, start.ctor_selectors, start.ctor_to_dt)->Some_0);
        let mut i: usize = 0;
        while i < terms.len()
            invariant
                i <= terms.len(),
                ctx_wf(self@),
                same_but_egraph(start, self@),
                grows(uf_of(start.egraph), uf_of(self.egraph)),
                kept(start.egraph, self.egraph),
                extends(start.egraph, self.egraph),
                shown.len() == ids.len(),
                shown.len() == i,
                forall|q: int| 0 <= q < i ==> (#[trigger] shown@[q])@ == term_text(terms@[q]@),
                forall|q: int| 0 <= q < ids.len() ==> #[trigger] ids@[q] < uf_of(self.egraph).len(),
                ds.len() == terms.len(),
                terms_found(self.egraph, ds, ids@),
            decreases terms.len() - i,
        {
            let d = format_term(&terms[i]);
            let ghost g1 = self.egraph;
            let ghost c1 = self@;
            let ghost ids0 = ids@;
            let added = self.add_term(&terms[i]);
            proof {
                lemma_kept_grows(start.egraph, g1, self.egraph);
                lemma_extends_trans(start.egraph, g1, self.egraph);
            }
            match added {
                Ok(id) => {
                    proof {
                        lemma_ok_graph(c1);
                        lemma_ok_graph(self@);
                        lemma_terms_found_extends(g1, self.egraph, ds, ids0);
                        assert(ds[i as int] == desugar_term_spec(terms@[i as int]@, start.ctor_selectors, start.ctor_to_dt)->Some_0);
                        lemma_term_is_class(self.egraph, ds[i as int]);
                        lemma_terms_found_push(self.egraph, ds, ids0, id);
                    }
                    shown.push(d);
                    ids.push(id);
                },
                Err(e) => {
                    assert(same_but_egraph(start, self@));
                    proof {
                        lemma_grows_coarsens(uf_of(start.egraph), uf_of(self.egraph));
                        assert(self@.disequalities.subrange(0, start.disequalities.len() as int) == start.disequalities);
                        assert(!(desugar_term_spec(terms@[i as int]@, start.ctor_selectors, start.ctor_to_dt) is Some));
                        assert(terms_v(terms@)[i as int] == terms@[i as int]@);
                        assert(closure_least(uf_of(self.egraph), memo_of(self.egraph), start.ctor_arities, uf_of(self.egraph)));
                    }
                    return Err(e);
                },
            }
            i += 1;
        }
        proof { lemma_grows_coarsens(uf_of(start.egraph), uf_of(self.egraph)); }
        let ghost mid = uf_of(self.egraph);
        let ghost gm = self.egraph;
        let ghost cm = self@;
        self.rebuild_with_adt();
        proof {
            lemma_coarsens_trans(uf_of(start.egraph), mid, uf_of(self.egraph));
            lemma_kept_trans(start.egraph, gm, self.egraph);
            assert(self@.disequalities.subrange(0, start.disequalities.len() as int) == start.disequalities);
            lemma_evolves_of(cm, self@);
            assert(closure_least(uf_of(gm), memo_of(gm), start.ctor_arities, uf_of(self.egraph)));
            assert forall|q: int| 0 <= q < ids.len() implies
                term_cls(self.egraph, ds[q]) == Some(uf_of(self.egraph)[#[trigger] ids@[q] as int]) by {
                assert(term_cls(gm, ds[q]) == Some(ids@[q]));
                lemma_term_evolves(gm, self.egraph, ds[q]);
            }
        }
        let mut out = String::from_str("(\n");
        let ghost texts = Seq::new(terms.len() as nat, |q: int| term_text(terms@[q]@));
        let ghost mut lines: Seq<Seq<char>> = Seq::empty();
        let ghost mut vals: Seq<Seq<char>> = Seq::empty();
        let mut k: usize = 0;
        while k < ids.len()
            invariant
                k <= ids.len(),
                shown.len() == ids.len(),
                shown.len() == terms.len(),
                forall|q: int| 0 <= q < terms.len() ==> (#[trigger] shown@[q])@ == texts[q],
                texts == Seq::new(terms.len() as nat, |q: int| term_text(terms@[q]@)),
                ctx_wf(self@),
                forall|q: int| 0 <= q < ids.len() ==> #[trigger] ids@[q] < uf_of(self.egraph).len(),
                vals.len() == k,
                lines == Seq::new(k as nat, |q: int| value_line(texts[q], vals[q])),
                out@ == "(\n"@ + join_lines(lines),
                forall|q: int| 0 <= q < ids.len() ==>
                    term_cls(self.egraph, ds[q]) == Some(uf_of(self.egraph)[#[trigger] ids@[q] as int]),
                forall|q: int| 0 <= q < k ==> shown_value(self@, ds[q], #[trigger] vals[q]),
            decreases ids.len() - k,
        {
            let value = egraph_best_term(&self.egraph, ids[k]);
            if k > 0 {
                out.append("\n");
            }
            out.append("  (");
            out.append(shown[k].as_str());
            out.append(" ");
            out.append(value.as_str());
            out.append(")");
            proof {
                let l = value_line(texts[k as int], value@);
                lemma_join_push(lines, l);
                lines = lines.push(l);
                let ghost vals0 = vals;
                vals = vals.push(value@);
                assert(lines =~= Seq::new((k + 1) as nat, |q: int| value_line(texts[q], vals[q])));
                assert(term_cls(self.egraph, ds[k as int]) == Some(uf_of(self.egraph)[ids@[k as int] as int]));
                assert forall|q: int| 0 <= q < k + 1 implies shown_value(self@, ds[q], #[trigger] vals[q]) by {
                    if q < k { assert(vals[q] == vals0[q]); }
                }
            }
            k += 1;
        }
        out.append("\n)");
        assert(lines =~= Seq::new(terms.len() as nat, |q: int| value_line(term_text(terms_v(terms@)[q]), vals[q])));
        assert forall|q: int| 0 <= q < terms.len() implies ds[q]
            == desugar_term_spec(terms_v(terms@)[q], start.ctor_selectors, start.ctor_to_dt)->Some_0 by {
            assert(terms_v(terms@)[q] == terms@[q]@);
        }
        Ok(out)
    }
}

// ---------------------------------------------------------------------------
// Sessions
// ---------------------------------------------------------------------------

/// A solving session: the current state, and the states saved by `push`.
pub struct Session {
    pub ctx: EggContext,
    pub stack: Vec<EggContext>,
}

pub struct SessionV {
    pub ctx: CtxV,
    pub stack: Seq<CtxV>,
}

impl View for Session {
    type V = SessionV;
    open spec fn view(&self) -> SessionV {
        SessionV { ctx: self.ctx@, stack: self.stack@.map_values(|c: EggContext| c@) }
    }
}

pub open spec fn session_wf(s: SessionV) -> bool {
    &&& ctx_wf(s.ctx)
    &&& forall|i: int| 0 <= i < s.stack.len() ==> ctx_wf(#[trigger] s.stack[i])
}

/// `(push n)`: `n` copies of the current state are saved.
pub open spec fn push_spec(s: SessionV, n: nat) -> SessionV {
    SessionV { ctx: s.ctx, stack: s.stack + Seq::new(n, |i: int| s.ctx) }
}

/// `(pop n)`: the state saved `n` pushes ago comes back, and the `n` last saved states are
/// dropped; refused when fewer than `n` are saved. `(pop 0)` changes nothing.
pub open spec fn pop_spec(s: SessionV, n: nat) -> Option<SessionV> {
    if n == 0 {
        Some(s)
    } else if s.stack.len() < n {
        None
    } else {
        Some(SessionV { ctx: s.stack[s.stack.len() - n], stack: s.stack.take(s.stack.len() - n) })
    }
}

/// The refusal of `(pop n)` with `depth` saved states.
pub open spec fn pop_message(n: nat, depth: nat) -> Seq<char> {
    "pop "@ + nat_text(n) + ": 断言栈只有 "@ + nat_text(depth) + " 层"@
}

/// `(pop n)` undoes `(push n)`: the state and the saved states are as before the push.
pub proof fn lemma_pop_undoes_push(s: SessionV, n: nat)
    ensures pop_spec(push_spec(s, n), n) == Some(s),
{
    let p = push_spec(s, n);
    if n == 0 {
        assert(p.stack =~= s.stack);
    } else {
        assert(p.stack.len() == s.stack.len() + n);
        assert(p.stack[p.stack.len() - n] == s.ctx);
        assert(p.stack.take(p.stack.len() - n) =~= s.stack);
    }
}

/// `(push)` saves exactly one level and `(pop)` gives it back: read without a count, they
/// push one copy of the state, and popping it restores the session as it was.
pub proof fn lemma_bare_push_pop(s: SessionV)
    ensures
        command_spec(SExpV::List(seq![SExpV::Atom("push"@)])) == Ok::<CommandV, Seq<char>>(CommandV::Push(1)),
        command_spec(SExpV::List(seq![SExpV::Atom("pop"@)])) == Ok::<CommandV, Seq<char>>(CommandV::Pop(1)),
        push_spec(s, 1).stack.len() == s.stack.len() + 1,
        push_spec(s, 1).stack.last() == s.ctx,
        pop_spec(push_spec(s, 1), 1) == Some(s),
{
    lemma_stack_counts(seq![SExpV::Atom("push"@)], Seq::empty());
    lemma_stack_counts(seq![SExpV::Atom("pop"@)], Seq::empty());
    reveal_strlit("push");
    reveal_strlit("pop");
    assert(seq![SExpV::Atom("pop"@)][0] != SExpV::Atom("push"@)) by {
        assert("pop"@.len() != "push"@.len());
    }
    lemma_pop_undoes_push(s, 1);
}

/// What a command gives back besides changing the session.
pub enum Outcome {
    Done,
    Answer(String),
    Model(Result<String, String>),
    Values(Result<String, String>),
    Exit,
}

/// The environment after the datatypes `ds[0..n]` are registered.
pub open spec fn with_datatypes_env(env: SortEnvV, ds: Seq<DatatypeDeclV>, n: int) -> SortEnvV
    decreases n,
{
    if n <= 0 || n > ds.len() { env } else { with_datatype(with_datatypes_env(env, ds, n - 1), ds[n - 1]) }
}

/// A session as it starts: a fresh, satisfiable state with the Boolean rules and the
/// built-in sorts, nothing declared or asserted, and nothing saved.
pub open spec fn fresh_session(s: SessionV) -> bool {
    &&& session_wf(s)
    &&& s.stack.len() == 0
    &&& !s.ctx.contradiction
    &&& s.ctx.sort_env == crate::typing::initial_env()
    &&& s.ctx.ctor_selectors == Map::<Seq<char>, Seq<Seq<char>>>::empty()
    &&& s.ctx.ctor_to_dt == Map::<Seq<char>, Seq<char>>::empty()
    &&& s.ctx.last_check_sat_result is None
    &&& s.ctx.rules == boolean_rules()
    &&& s.ctx.disequalities.len() == 0
    &&& s.ctx.declared_consts == Map::<Seq<char>, ConstInfoV>::empty()
    &&& s.ctx.declared_funs == Map::<Seq<char>, FunInfoV>::empty()
    &&& s.ctx.known_sorts == seq!["Int"@, "Bool"@]
    &&& s.ctx.ctor_arities == Map::<Seq<char>, usize>::empty()
    &&& uf_of(s.ctx.egraph)[s.ctx.true_id as int] != uf_of(s.ctx.egraph)[s.ctx.false_id as int]
    &&& !is_unsat(s.ctx)
}

impl Session {
    /// A fresh session: a fresh state and nothing saved.
    pub fn new() -> (s: Self)
        ensures fresh_session(s@),
    {
        let s = Session { ctx: EggContext::new(), stack: Vec::new() };
        assert(s@.stack =~= Seq::<CtxV>::empty());
        s
    }

    /// Saves `n` copies of the current state.
    pub fn push(&mut self, n: usize)
        requires session_wf(old(self)@),
        ensures session_wf(final(self)@), final(self)@ == push_spec(old(self)@, n as nat),
    {
        let ghost start = self@;
        let mut i: usize = 0;
        while i < n
            invariant
                i <= n,
                session_wf(self@),
                self@ == push_spec(start, i as nat),
                self@.ctx == start.ctx,
            decreases n - i,
        {
            let c = self.ctx.copy();
            let ghost cv = c@;
            let ghost vb = self.stack@;
            let ghost before = self@.stack;
            self.stack.push(c);
            assert(self@.stack =~= before.push(cv));
            assert(self@.stack =~= start.stack + Seq::new((i + 1) as nat, |q: int| start.ctx));
            i += 1;
        }
    }

    /// Restores the state saved `n` pushes ago.
    pub fn pop(&mut self, n: usize) -> (res: Result<(), String>)
        requires session_wf(old(self)@),
        ensures
            session_wf(final(self)@),
            match pop_spec(old(self)@, n as nat) {
                Some(s2) => res is Ok && final(self)@ == s2,
                None => res matches Err(m) && m@ == pop_message(n as nat, old(self)@.stack.len())
                    && final(self)@ == old(self)@,
            },
    {
        let ghost start = self@;
        if n == 0 {
            return Ok(());
        }
        if self.stack.len() < n {
            let a = usize_to_text(n);
            let b = usize_to_text(self.stack.len());
            return Err(join5("pop ", a.as_str(), ": 断言栈只有 ", b.as_str(), " 层"));
        }
        let mut i: usize = 0;
        while i < n - 1
            invariant
                i <= n - 1,
                n >= 1,
                start.stack.len() >= n,
                self.stack.len() == start.stack.len() - i,
                self@.stack == start.stack.take(start.stack.len() - i),
                self@.ctx == start.ctx,
                session_wf(self@),
            decreases n - 1 - i,
        {
            let ghost before = self@.stack;
            self.stack.pop();
            assert(self@.stack =~= start.stack.take(start.stack.len() - (i + 1)));
            i += 1;
        }
        let ghost before = self@.stack;
        let ghost vb = self.stack@;
        assert(before[before.len() - 1] == vb[vb.len() - 1]@);
        match self.stack.pop() {
            Some(c) => {
                assert(c == vb[vb.len() - 1]);
                assert(c@ == start.stack[start.stack.len() - n]);
                self.ctx = c;
                assert(self@.stack =~= start.stack.take(start.stack.len() - n));
                Ok(())
            },
            None => {
                Err(String::new())
            },
        }
    }
}

/// Every written sort of the list is well formed.
pub open spec fn sort_exprs_all_ok(env: SortEnvV, es: Seq<SortExprV>) -> bool {
    sort_exprs_check(env, es, es.len() as int, Seq::empty()) is Ok
}

/// The message that refuses a command, when its sorts do: the first faulty written sort of
/// a declaration, or the first sort error of an assertion.
pub open spec fn first_error(r: Result<(), Seq<char>>, res: Result<Outcome, String>) -> bool {
    match r {
        Err(m) => res matches Err(e) && e@ == m,
        Ok(_) => true,
    }
}

pub open spec fn fun_decl_check(env: SortEnvV, args: Seq<SortExprV>, ret: SortExprV) -> Result<(), Seq<char>> {
    match sort_exprs_check(env, args, args.len() as int, Seq::empty()) {
        Ok(_) => sort_expr_check(env, ret, Seq::empty()),
        Err(m) => Err(m),
    }
}

/// The state after `(declare-sort name n)`: the name is a known sort.
pub open spec fn with_declared_sort(c: CtxV, name: Seq<char>, arity: nat) -> CtxV {
    CtxV {
        known_sorts: if c.known_sorts.contains(name) { c.known_sorts } else { c.known_sorts.push(name) },
        sort_env: with_sort_arity(c.sort_env, name, arity as usize),
        ..c
    }
}

/// The state after `(declare-datatypes ...)`, when all its rules are accepted.
pub open spec fn with_declared_datatypes(c: CtxV, ds: Seq<DatatypeDeclV>) -> CtxV {
    with_datatypes_rules(CtxV { sort_env: with_datatypes_env(c.sort_env, ds, ds.len() as int), ..c }, ds, ds.len() as int)
}

/// What running a command does, as `Session::run_command` states it: `old_s` is the session
/// before, `new_s` after, `res` what it gives back.
pub open spec fn command_effect(old_s: SessionV, cmd: CommandV, answer_queries: bool,
    res: Result<Outcome, String>, new_s: SessionV) -> bool
{
    &&& match cmd {
        CommandV::SetLogic(_) => res matches Ok(Outcome::Done) && new_s == old_s,
        CommandV::Skip(_) => res matches Ok(Outcome::Done) && new_s == old_s,
        CommandV::Exit => res matches Ok(Outcome::Exit) && new_s == old_s,
        CommandV::Push(n) => res matches Ok(Outcome::Done) && new_s == push_spec(old_s, n),
        CommandV::Pop(n) => match pop_spec(old_s, n) {
            Some(s2) => res matches Ok(Outcome::Done) && new_s == s2,
            None => res matches Err(m) && m@ == pop_message(n, old_s.stack.len())
                && new_s == old_s,
        },
        CommandV::CheckSat => res matches Ok(Outcome::Answer(r))
            && r@ == verdict_text(new_s.ctx)
            && (is_unsat(old_s.ctx) ==> r@ == "unsat"@)
            && adt_settled(new_s.ctx.egraph, new_s.ctx.ctor_arities, new_s.ctx.contradiction)
            && new_s.ctx.contradiction == (old_s.ctx.contradiction
                || memo_clash(memo_of(new_s.ctx.egraph), uf_of(new_s.ctx.egraph), old_s.ctx.ctor_arities))
            && (exists|gr: EGraphStore| run_outcome(old_s.ctx.egraph, gr)
                && run_justified(read_patterns(compiling_rules(old_s.ctx.rules)), old_s.ctx.egraph, gr)
                && #[trigger] closure_least(uf_of(gr), memo_of(gr), old_s.ctx.ctor_arities, uf_of(new_s.ctx.egraph)))
            && new_s.stack == old_s.stack
            && advances(old_s.ctx, new_s.ctx)
            && new_s.ctx == (CtxV {
                egraph: new_s.ctx.egraph,
                contradiction: new_s.ctx.contradiction,
                last_check_sat_result: Some(r@),
                ..old_s.ctx
            }),
        CommandV::Assert(f) => {
            &&& (res is Ok <==> (formula_ok(old_s.ctx.sort_env, f, Map::empty())
                && desugar_formula_spec(f, old_s.ctx.ctor_selectors, old_s.ctx.ctor_to_dt) is Some))
            &&& res is Ok ==> (res matches Ok(Outcome::Done)
                && new_s.stack == old_s.stack
                && advances(old_s.ctx, new_s.ctx)
                && new_s.ctx == (CtxV {
                    egraph: new_s.ctx.egraph,
                    contradiction: new_s.ctx.contradiction,
                    disequalities: new_s.ctx.disequalities,
                    ..old_s.ctx
                })
                && holds_true(new_s.ctx,
                    desugar_formula_spec(f, old_s.ctx.ctor_selectors, old_s.ctx.ctor_to_dt)->Some_0)
                && asserted_fact(new_s.ctx,
                    desugar_formula_spec(f, old_s.ctx.ctor_selectors, old_s.ctx.ctor_to_dt)->Some_0))
            &&& res is Err ==> new_s == old_s
            &&& first_error(formula_check(old_s.ctx.sort_env, f, Map::empty()), res)
            &&& (formula_ok(old_s.ctx.sort_env, f, Map::empty())
                && desugar_formula_spec(f, old_s.ctx.ctor_selectors, old_s.ctx.ctor_to_dt) is None
                ==> (res matches Err(e)
                    && e@ == formula_fault(f, old_s.ctx.ctor_selectors, old_s.ctx.ctor_to_dt)))
        },
        CommandV::DeclareSort(name, arity) => res matches Ok(Outcome::Done)
            && new_s == (SessionV { ctx: with_declared_sort(old_s.ctx, name, arity), ..old_s }),
        CommandV::DeclareConst(name, se) => {
            &&& (res is Ok <==> sort_expr_ok(old_s.ctx.sort_env, se, Seq::empty()))
            &&& res is Ok ==> (res matches Ok(Outcome::Done)
                && new_s.stack == old_s.stack
                && new_s.ctx.sort_env == (SortEnvV {
                    const_sorts: old_s.ctx.sort_env.const_sorts.insert(name, sort_of_expr(se, Seq::empty())),
                    ..old_s.ctx.sort_env
                })
                && new_s.ctx.ctor_selectors == old_s.ctx.ctor_selectors
                && new_s.ctx.ctor_to_dt == old_s.ctx.ctor_to_dt
                && new_s.ctx.ctor_arities == old_s.ctx.ctor_arities
                && new_s.ctx.declared_consts.contains_key(name)
                && new_s.ctx.declared_consts[name].sort == crate::sorts::sort_expr_text(se))
            &&& res is Err ==> new_s == old_s
            &&& first_error(sort_expr_check(old_s.ctx.sort_env, se, Seq::empty()), res)
        },
        CommandV::DeclareFun(name, args, ret) => {
            &&& (res is Ok <==> (sort_exprs_all_ok(old_s.ctx.sort_env, args)
                && sort_expr_ok(old_s.ctx.sort_env, ret, Seq::empty())))
            &&& res is Ok ==> (res matches Ok(Outcome::Done)
                && new_s.stack == old_s.stack
                && new_s.ctx.ctor_selectors == old_s.ctx.ctor_selectors
                && new_s.ctx.ctor_to_dt == old_s.ctx.ctor_to_dt
                && new_s.ctx.ctor_arities == old_s.ctx.ctor_arities
                && new_s.ctx.sort_env == (if args.len() == 0 {
                    SortEnvV {
                        const_sorts: old_s.ctx.sort_env.const_sorts.insert(name, sort_of_expr(ret, Seq::empty())),
                        ..old_s.ctx.sort_env
                    }
                } else {
                    SortEnvV {
                        fun_sigs: old_s.ctx.sort_env.fun_sigs.insert(name, FunSigV {
                            args: crate::sorts::sorts_of_exprs(args, args.len() as int, Seq::empty()),
                            ret: sort_of_expr(ret, Seq::empty()),
                        }),
                        ..old_s.ctx.sort_env
                    }
                }))
            &&& res is Err ==> new_s == old_s
            &&& first_error(fun_decl_check(old_s.ctx.sort_env, args, ret), res)
        },
        CommandV::DeclareDatatypes(ds) => {
            &&& (res is Ok <==> datatypes_compile(ds))
            &&& res is Ok ==> (res matches Ok(Outcome::Done)
                && new_s == (SessionV { ctx: with_declared_datatypes(old_s.ctx, ds), ..old_s }))
            &&& res matches Err(e) ==> e@ == datatypes_refusal(ds)
        },
        CommandV::GetModel => if answer_queries {
            res matches Ok(Outcome::Model(r)) && model_answer(old_s.ctx, r) && new_s == old_s
        } else {
            res matches Ok(Outcome::Done) && new_s == old_s
        },
        CommandV::GetValue(ts) => if answer_queries {
            res matches Ok(Outcome::Values(r)) && new_s.stack == old_s.stack
                && values_answer(old_s.ctx, new_s.ctx, ts, r)
        } else {
            res matches Ok(Outcome::Done) && new_s == old_s
        },
    }
    &&& res is Ok && !(cmd is Push) && !(cmd is Pop) ==> advances(old_s.ctx, new_s.ctx)
}

impl Session {
    /// Runs one command. `get-model` and `get-value` are answered only when
    /// `answer_queries` holds; otherwise they, like `set-logic` and the informational
    /// commands, change nothing.
    #[verifier::loop_isolation(false)]
    #[verifier::rlimit(60)]
    pub fn run_command(&mut self, cmd: &Command, answer_queries: bool) -> (res: Result<Outcome, String>)
        requires session_wf(old(self)@),
        ensures
            session_wf(final(self)@),
            command_effect(old(self)@, cmd@, answer_queries, res, final(self)@),
    {
        let ghost start = self@;
        proof { lemma_same_core_advances(start.ctx, start.ctx); }
        match cmd {
            Command::SetLogic(_) => Ok(Outcome::Done),
            Command::Skip(_) => Ok(Outcome::Done),
            Command::Exit => Ok(Outcome::Exit),
            Command::Push(n) => {
                self.push(*n);
                Ok(Outcome::Done)
            },
            Command::Pop(n) => {
                match self.pop(*n) {
                    Ok(()) => Ok(Outcome::Done),
                    Err(e) => Err(e),
                }
            },
            Command::CheckSat => {
                let r = self.ctx.check_sat();
                Ok(Outcome::Answer(r))
            },
            Command::Assert(f) => {
                let scope: StrMap<Sort> = StrMap::new();
                match self.ctx.sort_env.check_formula(f, &scope) {
                    Ok(()) => {},
                    Err(e) => { return Err(e); },
                }
                match self.ctx.process_assertion(f) {
                    Ok(()) => Ok(Outcome::Done),
                    Err(e) => Err(e),
                }
            },
            Command::DeclareSort(name, arity) => {
                if !crate::sorts::names_contain(&self.ctx.known_sorts, name) {
                    let ghost before = self.ctx.known_sorts@;
                    self.ctx.known_sorts.push(name.clone());
                    assert(strs_v(self.ctx.known_sorts@) =~= strs_v(before).push(name@));
                }
                self.ctx.sort_env.register_sort_with_arity(name.as_str(), *arity);
                assert(self@.stack == start.stack);
                proof { lemma_same_core_advances(start.ctx, self@.ctx); }
                Ok(Outcome::Done)
            },
            Command::DeclareConst(name, sort_expr) => {
                let no_params: Vec<String> = Vec::new();
                assert(strs_v(no_params@) =~= Seq::<Seq<char>>::empty());
                match self.ctx.sort_env.check_sort_expr(sort_expr, &no_params) {
                    Ok(()) => {},
                    Err(e) => { return Err(e); },
                }
                let sort = sort_expr_to_sort(sort_expr, &no_params);
                self.ctx.sort_env.register_const(name.as_str(), sort);
                let sort_str = sort_expr_to_text(sort_expr);
                self.ctx.process_declare_const(name.as_str(), sort_str.as_str());
                assert(self@.stack == start.stack);
                proof {
                    lemma_grows_coarsens(uf_of(start.ctx.egraph), uf_of(self.ctx.egraph));
                    assert(self@.ctx.disequalities.subrange(0, start.ctx.disequalities.len() as int) =~= start.ctx.disequalities);
                }
                Ok(Outcome::Done)
            },
            Command::DeclareFun(name, arg_exprs, ret_expr) => {
                let no_params: Vec<String> = Vec::new();
                assert(strs_v(no_params@) =~= Seq::<Seq<char>>::empty());
                proof { lemma_sort_exprs_v(arg_exprs@); }
                let ghost av = sort_exprs_v(arg_exprs@);
                let mut i: usize = 0;
                while i < arg_exprs.len()
                    invariant
                        i <= arg_exprs.len(),
                        self@ == start,
                        av == sort_exprs_v(arg_exprs@),
                        av.len() == arg_exprs.len(),
                        sort_exprs_check(start.ctx.sort_env, av, i as int, Seq::empty()) is Ok,
                    decreases arg_exprs.len() - i,
                {
                    assert(av[i as int] == arg_exprs@[i as int]@);
                    match self.ctx.sort_env.check_sort_expr(&arg_exprs[i], &no_params) {
                        Ok(()) => {},
                        Err(e) => {
                            proof {
                                crate::typing::lemma_sort_exprs_stop(start.ctx.sort_env, av, i as int + 1,
                                    av.len() as int, Seq::empty());
                            }
                            return Err(e);
                        },
                    }
                    i += 1;
                }
                match self.ctx.sort_env.check_sort_expr(ret_expr, &no_params) {
                    Ok(()) => {},
                    Err(e) => { return Err(e); },
                }
                let mut arg_sorts: Vec<Sort> = Vec::new();
                let mut arg_strs: Vec<String> = Vec::new();
                let mut k: usize = 0;
                while k < arg_exprs.len()
                    invariant
                        k <= arg_exprs.len(),
                        av == sort_exprs_v(arg_exprs@),
                        arg_strs.len() == k,
                        sorts_v(arg_sorts@) == crate::sorts::sorts_of_exprs(av, k as int, Seq::empty()),
                    decreases arg_exprs.len() - k,
                {
                    assert(av[k as int] == arg_exprs@[k as int]@);
                    let ghost old_sorts = arg_sorts@;
                    arg_sorts.push(sort_expr_to_sort(&arg_exprs[k], &no_params));
                    assert(arg_sorts@.drop_last() == old_sorts);
                    arg_strs.push(sort_expr_to_text(&arg_exprs[k]));
                    k += 1;
                }
                let ret_sort = sort_expr_to_sort(ret_expr, &no_params);
                if arg_sorts.len() == 0 {
                    self.ctx.sort_env.register_const(name.as_str(), ret_sort);
                } else {
                    self.ctx.sort_env.register_fun(name.as_str(), arg_sorts, ret_sort);
                }
                let ret_str = sort_expr_to_text(ret_expr);
                self.ctx.process_declare_fun(name.as_str(), &arg_strs, ret_str.as_str());
                assert(self@.stack == start.stack);
                proof {
                    lemma_grows_coarsens(uf_of(start.ctx.egraph), uf_of(self.ctx.egraph));
                    assert(self@.ctx.disequalities.subrange(0, start.ctx.disequalities.len() as int) =~= start.ctx.disequalities);
                }
                Ok(Outcome::Done)
            },
            Command::DeclareDatatypes(dts) => {
                let ghost ds = datatypes_v(dts@);
                let mut i: usize = 0;
                while i < dts.len()
                    invariant
                        i <= dts.len(),
                        ds == datatypes_v(dts@),
                        session_wf(self@),
                        self@ == (SessionV {
                            ctx: CtxV { sort_env: with_datatypes_env(start.ctx.sort_env, ds, i as int), ..start.ctx },
                            ..start
                        }),
                    decreases dts.len() - i,
                {
                    assert(ds[i as int] == datatype_v(dts@[i as int]));
                    self.ctx.sort_env.register_datatype(&dts[i]);
                    i += 1;
                }
                match self.ctx.generate_datatype_rules(dts) {
                    Ok(()) => {
                        assert(self@.stack == start.stack);
                        proof {
                            let c1 = CtxV { sort_env: with_datatypes_env(start.ctx.sort_env, ds, ds.len() as int), ..start.ctx };
                            lemma_datatypes_rules_core(c1, ds, ds.len() as int);
                            lemma_same_core_advances(start.ctx, self@.ctx);
                        }
                        Ok(Outcome::Done)
                    },
                    Err(e) => Err(e),
                }
            },
            Command::GetModel => {
                if answer_queries {
                    Ok(Outcome::Model(self.ctx.get_model()))
                } else {
                    Ok(Outcome::Done)
                }
            },
            Command::GetValue(terms) => {
                if answer_queries {
                    let r = self.ctx.get_value(terms);
                    Ok(Outcome::Values(r))
                } else {
                    Ok(Outcome::Done)
                }
            },
        }
    }
}

/// The number of `check-sat` commands before the first `exit`.
pub open spec fn checks_before_exit(cs: Seq<CommandV>) -> nat
    decreases cs.len(),
{
    if cs.len() == 0 {
        0
    } else if cs[0] is Exit {
        0
    } else if cs[0] is CheckSat {
        1 + checks_before_exit(cs.subrange(1, cs.len() as int))
    } else {
        checks_before_exit(cs.subrange(1, cs.len() as int))
    }
}

/// The answers among the results `outs`, in order: one for each `check-sat`.
pub open spec fn answers(outs: Seq<Result<Outcome, String>>) -> Seq<Seq<char>>
    decreases outs.len(),
{
    if outs.len() == 0 {
        Seq::empty()
    } else {
        let rest = answers(outs.drop_last());
        match outs.last() {
            Ok(Outcome::Answer(r)) => rest.push(r@),
            _ => rest,
        }
    }
}

/// A run of the commands `cs` from a fresh session, up to `exit`: `ss[k]` is the session
/// before `cs[k]` and `ss[k + 1]` the one after it, `outs[k]` what `cs[k]` gave back, each
/// command as `Session::run_command` states it, queries left unanswered; every command ran
/// and succeeded.
pub open spec fn run_trace(cs: Seq<CommandV>, ss: Seq<SessionV>, outs: Seq<Result<Outcome, String>>) -> bool {
    &&& outs.len() <= cs.len()
    &&& ss.len() == outs.len() + 1
    &&& fresh_session(ss[0])
    &&& forall|k: int| 0 <= k < outs.len() ==> command_effect(ss[k], cs[k], false, #[trigger] outs[k], ss[k + 1])
        && outs[k] is Ok && session_wf(ss[k + 1])
    &&& forall|k: int| 0 <= k < outs.len() - 1 ==> !(#[trigger] cs[k] is Exit)
    &&& outs.len() < cs.len() ==> outs.len() > 0 && cs[outs.len() - 1] is Exit
}

/// No `push`, `pop` or datatype declaration among `cs[j..k]`.
pub open spec fn plain_segment(cs: Seq<CommandV>, j: int, k: int) -> bool {
    forall|i: int| j <= i < k ==> !(#[trigger] cs[i] is Push) && !(cs[i] is Pop) && !(cs[i] is DeclareDatatypes)
}

/// Every session of a run is well formed.
proof fn lemma_run_wf(cs: Seq<CommandV>, ss: Seq<SessionV>, outs: Seq<Result<Outcome, String>>, i: int)
    requires run_trace(cs, ss, outs), 0 <= i <= outs.len(),
    ensures session_wf(ss[i]), ctx_wf(ss[i].ctx),
{
    if i > 0 {
        assert(outs[i - 1] is Ok);
    }
}

/// Along a run, between two points with no `push`, `pop` or datatype declaration between
/// them, the state only goes forward and keeps its constructors.
pub proof fn lemma_run_advances(cs: Seq<CommandV>, ss: Seq<SessionV>, outs: Seq<Result<Outcome, String>>, j: int, k: int)
    requires run_trace(cs, ss, outs), 0 <= j <= k <= outs.len(), plain_segment(cs, j, k),
    ensures advances(ss[j].ctx, ss[k].ctx), ss[k].ctx.ctor_arities == ss[j].ctx.ctor_arities,
    decreases k - j,
{
    if j == k {
        lemma_same_core_advances(ss[j].ctx, ss[j].ctx);
    } else {
        lemma_run_advances(cs, ss, outs, j, k - 1);
        let i = k - 1;
        assert(command_effect(ss[i], cs[i], false, outs[i], ss[i + 1]) && outs[i] is Ok && session_wf(ss[i + 1]));
        assert(!(cs[i] is Push) && !(cs[i] is Pop) && !(cs[i] is DeclareDatatypes));
        lemma_run_wf(cs, ss, outs, i);
        lemma_run_wf(cs, ss, outs, j);
        lemma_advances_trans(ss[j].ctx, ss[i].ctx, ss[k].ctx);
    }
}

/// In a run, a `check-sat` answers `unsat` when, since a point with no `push`, `pop` or
/// datatype declaration after it, the state held two terms built by different
/// constructors equal.
pub proof fn lemma_run_clash_unsat(cs: Seq<CommandV>, ss: Seq<SessionV>, outs: Seq<Result<Outcome, String>>,
    j: int, k: int, a: TermV, b: TermV)
    requires
        run_trace(cs, ss, outs), 0 <= j <= k < outs.len(), plain_segment(cs, j, k), cs[k] is CheckSat,
        ctor_term(ss[j].ctx, a), ctor_term(ss[j].ctx, b), ctor_head(a) != ctor_head(b),
        holds_eq(ss[j].ctx, a, b),
    ensures outs[k] matches Ok(Outcome::Answer(r)) && r@ == "unsat"@,
{
    lemma_run_advances(cs, ss, outs, j, k);
    assert(command_effect(ss[k], cs[k], false, outs[k], ss[k + 1]) && session_wf(ss[k + 1]));
    lemma_run_wf(cs, ss, outs, j);
    lemma_run_wf(cs, ss, outs, k);
    lemma_run_wf(cs, ss, outs, k + 1);
    lemma_advances_trans(ss[j].ctx, ss[k].ctx, ss[k + 1].ctx);
    lemma_clash_refuted(ss[j].ctx, ss[k + 1].ctx, a, b);
}

/// In a run, a `check-sat` answers `unsat` when, since a point with no `push`, `pop` or
/// datatype declaration after it, the state held an equation and its negation (in either
/// order).
pub proof fn lemma_run_refuted(cs: Seq<CommandV>, ss: Seq<SessionV>, outs: Seq<Result<Outcome, String>>,
    j: int, m: int, k: int, a: TermV, b: TermV)
    requires
        run_trace(cs, ss, outs), 0 <= j <= m <= k < outs.len(), plain_segment(cs, j, k), cs[k] is CheckSat,
        (holds_eq(ss[j].ctx, a, b) && holds_neq(ss[m].ctx, a, b)) || (holds_neq(ss[j].ctx, a, b) && holds_eq(ss[m].ctx, a, b)),
    ensures outs[k] matches Ok(Outcome::Answer(r)) && r@ == "unsat"@,
{
    lemma_run_advances(cs, ss, outs, j, m);
    assert(plain_segment(cs, m, k));
    lemma_run_advances(cs, ss, outs, m, k);
    assert(command_effect(ss[k], cs[k], false, outs[k], ss[k + 1]));
    lemma_run_wf(cs, ss, outs, j);
    lemma_run_wf(cs, ss, outs, m);
    lemma_run_wf(cs, ss, outs, k);
    lemma_refuted(ss[j].ctx, ss[m].ctx, a, b);
    lemma_unsat_persists(ss[m].ctx, ss[k].ctx);
}

/// No `push` or `pop` among `cs[j..k]`.
pub open spec fn no_stack_ops(cs: Seq<CommandV>, j: int, k: int) -> bool {
    forall|i: int| j <= i < k ==> !(#[trigger] cs[i] is Push) && !(cs[i] is Pop)
}

/// Along a run, between two points with no `push` or `pop` between them, the saved states
/// stay as they are and the state only goes forward.
pub proof fn lemma_run_keeps_stack(cs: Seq<CommandV>, ss: Seq<SessionV>, outs: Seq<Result<Outcome, String>>, j: int, k: int)
    requires run_trace(cs, ss, outs), 0 <= j <= k <= outs.len(), no_stack_ops(cs, j, k),
    ensures ss[k].stack == ss[j].stack, advances(ss[j].ctx, ss[k].ctx),
    decreases k - j,
{
    if j == k {
        lemma_run_wf(cs, ss, outs, j);
        lemma_same_core_advances(ss[j].ctx, ss[j].ctx);
    } else {
        lemma_run_keeps_stack(cs, ss, outs, j, k - 1);
        let i = k - 1;
        assert(command_effect(ss[i], cs[i], false, outs[i], ss[i + 1]) && outs[i] is Ok && session_wf(ss[i + 1]));
        assert(!(cs[i] is Push) && !(cs[i] is Pop));
        lemma_run_wf(cs, ss, outs, i);
        lemma_run_wf(cs, ss, outs, j);
        lemma_advances_trans(ss[j].ctx, ss[i].ctx, ss[k].ctx);
    }
}

/// `(pop n)` undoes all since the matching `(push n)`: in a run, when `cs[j]` is
/// `(push n)` with `n` at least 1, `cs[k]` is `(pop n)`, and no `push` or `pop` stands
/// between them, the session after the pop is the session before the push: the same
/// declarations, assertions, e-graph, clash flag and saved states.
pub proof fn lemma_run_push_pop(cs: Seq<CommandV>, ss: Seq<SessionV>, outs: Seq<Result<Outcome, String>>,
    j: int, k: int, n: nat)
    requires
        run_trace(cs, ss, outs), 0 <= j < k < outs.len(), n >= 1,
        cs[j] == CommandV::Push(n), cs[k] == CommandV::Pop(n), no_stack_ops(cs, j + 1, k),
    ensures ss[k + 1] == ss[j],
{
    assert(command_effect(ss[j], cs[j], false, outs[j], ss[j + 1]));
    assert(command_effect(ss[k], cs[k], false, outs[k], ss[k + 1]));
    lemma_run_keeps_stack(cs, ss, outs, j + 1, k);
    let s = ss[j];
    let p = push_spec(s, n);
    assert(ss[j + 1] == p);
    assert(ss[k].stack == p.stack);
    assert(p.stack.len() == s.stack.len() + n);
    assert(p.stack[p.stack.len() - n] == s.ctx);
    assert(p.stack.take(p.stack.len() - n) =~= s.stack);
    assert(pop_spec(ss[k], n) == Some(s));
}

/// An unsatisfiable state stays so: in a run, once a `check-sat` has answered `unsat`, a
/// later `check-sat` with no `push` or `pop` between them answers `unsat` too, whatever was
/// declared or asserted in between.
pub proof fn lemma_run_unsat_stays(cs: Seq<CommandV>, ss: Seq<SessionV>, outs: Seq<Result<Outcome, String>>,
    j: int, k: int)
    requires
        run_trace(cs, ss, outs), 0 <= j < k < outs.len(), cs[j] is CheckSat, cs[k] is CheckSat,
        outs[j] matches Ok(Outcome::Answer(r)) && r@ == "unsat"@,
        no_stack_ops(cs, j + 1, k),
    ensures outs[k] matches Ok(Outcome::Answer(r)) && r@ == "unsat"@,
{
    assert(command_effect(ss[j], cs[j], false, outs[j], ss[j + 1]));
    assert(command_effect(ss[k], cs[k], false, outs[k], ss[k + 1]));
    lemma_run_keeps_stack(cs, ss, outs, j + 1, k);
    lemma_run_wf(cs, ss, outs, j + 1);
    lemma_run_wf(cs, ss, outs, k);
    reveal_strlit("unsat");
    reveal_strlit("sat");
    let r = outs[j]->Ok_0->Answer_0;
    assert(r@ == verdict_text(ss[j + 1].ctx));
    assert("unsat"@ != "sat"@) by { assert("unsat"@.len() != "sat"@.len()); }
    assert(is_unsat(ss[j + 1].ctx));
    lemma_unsat_persists(ss[j + 1].ctx, ss[k].ctx);
}

/// An unsatisfiable state stays so, as a law of the state: along states each going forward
/// from the one before (as `process_declare_const`, `process_declare_fun`,
/// `generate_datatype_rules`, `process_assertion` and `check_sat` each state of their
/// result), once the verdict is `unsat`, every later verdict is `unsat`; so `check_sat`
/// answers `unsat` on each later state.
pub proof fn lemma_unsat_stays_along(cs: Seq<CtxV>, j: int, k: int)
    requires
        forall|i: int| 0 <= i < cs.len() ==> ctx_wf(#[trigger] cs[i]),
        forall|i: int| 0 <= i < cs.len() - 1 ==> advances(#[trigger] cs[i], cs[i + 1]),
        0 <= j <= k < cs.len(),
        verdict_text(cs[j]) == "unsat"@,
    ensures verdict_text(cs[k]) == "unsat"@, is_unsat(cs[k]),
    decreases k - j,
{
    reveal_strlit("unsat");
    reveal_strlit("sat");
    assert("unsat"@ != "sat"@) by { assert("unsat"@.len() != "sat"@.len()); }
    if j < k {
        lemma_unsat_stays_along(cs, j, k - 1);
        assert(advances(cs[k - 1], cs[k]));
        lemma_unsat_persists(cs[k - 1], cs[k]);
    }
}

/// Runs a script from a fresh session and collects the answers of its `check-sat`
/// commands, up to `exit`; the first command that fails ends it with its error. The answers
/// are those the session gave, command by command, as `Session::run_command` states it.
#[verifier::rlimit(40)]
pub fn process_program_collect(program: &Program) -> (res: Result<Vec<String>, String>)
    ensures
        res is Ok <==> abs_run(abs_initial(), program@),
        res matches Ok(rs) ==> exists|ss: Seq<SessionV>, outs: Seq<Result<Outcome, String>>|
            #[trigger] run_trace(program@, ss, outs) && answers(outs) == rs@.map_values(|r: String| r@),
        res matches Err(m) ==> run_refusal(abs_initial(), program@) == Some(m@),
        res matches Ok(rs) ==> (rs.len() == checks_before_exit(program@)
            && forall|i: int| 0 <= i < rs.len() ==> (#[trigger] rs@[i])@ == "sat"@ || rs@[i]@ == "unsat"@),
{
    let mut session = Session::new();
    let mut results: Vec<String> = Vec::new();
    let ghost cs = program@;
    assert(cs.subrange(0, cs.len() as int) =~= cs);
    assert(abs_session(session@) == abs_initial()) by {
        assert(session@.stack.map_values(|c: CtxV| abs_of(c)) =~= Seq::<Abs>::empty());
    }
    let ghost mut ss: Seq<SessionV> = seq![session@];
    let ghost mut outs: Seq<Result<Outcome, String>> = Seq::empty();
    assert(results@.map_values(|r: String| r@) =~= Seq::<Seq<char>>::empty());
    let mut i: usize = 0;
    while i < program.commands.len()
        invariant
            i <= program.commands.len(),
            cs == program@,
            cs.len() == program.commands.len(),
            session_wf(session@),
            ss.len() == i + 1,
            outs.len() == i,
            ss[i as int] == session@,
            fresh_session(ss[0]),
            forall|k: int| 0 <= k < outs.len() ==> command_effect(ss[k], cs[k], false, #[trigger] outs[k], ss[k + 1])
                && outs[k] is Ok && session_wf(ss[k + 1]),
            forall|k: int| 0 <= k < i ==> !(#[trigger] cs[k] is Exit),
            answers(outs) == results@.map_values(|r: String| r@),
            results.len() + checks_before_exit(cs.subrange(i as int, cs.len() as int)) == checks_before_exit(cs),
            forall|q: int| 0 <= q < results.len() ==> (#[trigger] results@[q])@ == "sat"@ || results@[q]@ == "unsat"@,
            abs_run(abs_session(session@), cs.subrange(i as int, cs.len() as int)) == abs_run(abs_initial(), cs),
            run_refusal(abs_session(session@), cs.subrange(i as int, cs.len() as int)) == run_refusal(abs_initial(), cs),
        decreases program.commands.len() - i,
    {
        let cmd = &program.commands[i];
        assert(cs[i as int] == cmd@);
        let ghost rest = cs.subrange(i as int, cs.len() as int);
        let ghost before = session@;
        assert(rest[0] == cmd@);
        assert(rest.subrange(1, rest.len() as int) =~= cs.subrange(i + 1, cs.len() as int));
        let r = session.run_command(cmd, false);
        proof {
            if !(cmd@ is Exit) {
                lemma_step_abs(before, session@, cmd@, r is Ok, false);
            }
        }
        let ghost ss0 = ss;
        let ghost outs0 = outs;
        proof {
            if r is Ok {
                ss = ss.push(session@);
                outs = outs.push(r);
                assert(outs.drop_last() == outs0);
                assert forall|k: int| 0 <= k < outs.len() implies command_effect(ss[k], cs[k], false, #[trigger] outs[k], ss[k + 1])
                    && outs[k] is Ok && session_wf(ss[k + 1]) by {
                    if k < i {
                        assert(outs[k] == outs0[k]);
                        assert(ss[k] == ss0[k] && ss[k + 1] == ss0[k + 1]);
                    } else {
                        assert(outs[k] == r && ss[k] == before && ss[k + 1] == session@);
                    }
                }
            }
        }
        match r {
            Err(e) => {
                proof {
                    let a = abs_session(before);
                    assert(a.stack.len() == before.stack.len());
                    assert(a.cur.env == before.ctx.sort_env);
                    assert(run_refusal(a, rest) == refusal_message(a, cmd@));
                }
                return Err(e);
            },
            Ok(Outcome::Answer(a)) => {
                assert(cmd@ is CheckSat);
                let ghost before_rs = results@;
                results.push(a);
                assert(results@.map_values(|r: String| r@) =~= before_rs.map_values(|r: String| r@).push(a@));
            },
            Ok(Outcome::Exit) => {
                assert(cmd@ is Exit);
                proof {
                    assert(answers(outs) == answers(outs0));
                    assert(run_trace(cs, ss, outs));
                }
                return Ok(results);
            },
            Ok(_) => {
                assert(!(cmd@ is CheckSat) && !(cmd@ is Exit));
            },
        }
        i += 1;
    }
    assert(cs.subrange(cs.len() as int, cs.len() as int).len() == 0);
    assert(run_trace(cs, ss, outs));
    Ok(results)
}

// ---------------------------------------------------------------------------
// When a script is accepted
// ---------------------------------------------------------------------------

/// The part of a state that decides whether commands are accepted: the sort environment
/// and the constructor tables used to desugar `match`.
pub struct Abs {
    pub env: SortEnvV,
    pub sels: Map<Seq<char>, Seq<Seq<char>>>,
    pub dts: Map<Seq<char>, Seq<char>>,
}

pub struct AbsSession {
    pub cur: Abs,
    pub stack: Seq<Abs>,
}

pub open spec fn abs_of(c: CtxV) -> Abs {
    Abs { env: c.sort_env, sels: c.ctor_selectors, dts: c.ctor_to_dt }
}

pub open spec fn abs_session(s: SessionV) -> AbsSession {
    AbsSession { cur: abs_of(s.ctx), stack: s.stack.map_values(|c: CtxV| abs_of(c)) }
}

/// The constructor tables after the constructors `0..n` of `d`.
pub open spec fn abs_ctors(a: Abs, d: DatatypeDeclV, n: int) -> Abs
    decreases n,
{
    if n <= 0 || n > d.constructors.len() {
        a
    } else {
        let e = abs_ctors(a, d, n - 1);
        let k = d.constructors[n - 1];
        Abs { sels: e.sels.insert(k.name, selector_names(k)), dts: e.dts.insert(k.name, d.name), ..e }
    }
}

pub open spec fn abs_datatypes(a: Abs, ds: Seq<DatatypeDeclV>, n: int) -> Abs
    decreases n,
{
    if n <= 0 || n > ds.len() { a } else { abs_ctors(abs_datatypes(a, ds, n - 1), ds[n - 1], ds[n - 1].constructors.len() as int) }
}

/// One command on the deciding part of a session; `None` when the command is refused.
pub open spec fn abs_step(a: AbsSession, cmd: CommandV) -> Option<AbsSession> {
    let env = a.cur.env;
    match cmd {
        CommandV::Push(n) => Some(AbsSession { cur: a.cur, stack: a.stack + Seq::new(n, |i: int| a.cur) }),
        CommandV::Pop(n) => {
            if n == 0 {
                Some(a)
            } else if a.stack.len() < n {
                None
            } else {
                Some(AbsSession { cur: a.stack[a.stack.len() - n], stack: a.stack.take(a.stack.len() - n) })
            }
        },
        CommandV::Assert(f) => {
            if formula_ok(env, f, Map::empty()) && desugar_formula_spec(f, a.cur.sels, a.cur.dts) is Some {
                Some(a)
            } else {
                None
            }
        },
        CommandV::DeclareSort(name, arity) => Some(AbsSession { cur: Abs { env: with_sort_arity(env, name, arity as usize), ..a.cur }, ..a }),
        CommandV::DeclareConst(name, se) => {
            if sort_expr_ok(env, se, Seq::empty()) {
                Some(AbsSession {
                    cur: Abs { env: SortEnvV { const_sorts: env.const_sorts.insert(name, sort_of_expr(se, Seq::empty())), ..env }, ..a.cur },
                    ..a
                })
            } else {
                None
            }
        },
        CommandV::DeclareFun(name, args, ret) => {
            if sort_exprs_all_ok(env, args) && sort_expr_ok(env, ret, Seq::empty()) {
                let env2 = if args.len() == 0 {
                    SortEnvV { const_sorts: env.const_sorts.insert(name, sort_of_expr(ret, Seq::empty())), ..env }
                } else {
                    SortEnvV {
                        fun_sigs: env.fun_sigs.insert(name, FunSigV {
                            args: crate::sorts::sorts_of_exprs(args, args.len() as int, Seq::empty()),
                            ret: sort_of_expr(ret, Seq::empty()),
                        }),
                        ..env
                    }
                };
                Some(AbsSession { cur: Abs { env: env2, ..a.cur }, ..a })
            } else {
                None
            }
        },
        CommandV::DeclareDatatypes(ds) => {
            if datatypes_compile(ds) {
                let t = abs_datatypes(a.cur, ds, ds.len() as int);
                Some(AbsSession { cur: Abs { env: with_datatypes_env(env, ds, ds.len() as int), ..t }, ..a })
            } else {
                None
            }
        },
        _ => Some(a),
    }
}

/// Whether every command up to `exit` is accepted.
pub open spec fn abs_run(a: AbsSession, cs: Seq<CommandV>) -> bool
    decreases cs.len(),
{
    if cs.len() == 0 {
        true
    } else if cs[0] is Exit {
        true
    } else {
        match abs_step(a, cs[0]) {
            Some(a2) => abs_run(a2, cs.subrange(1, cs.len() as int)),
            None => false,
        }
    }
}

/// The message a refused command is answered with: a sort error, a `match` that cannot be
/// desugared, a rule that `egg` does not accept, or a `pop` past the saved states.
pub open spec fn refusal_message(a: AbsSession, cmd: CommandV) -> Option<Seq<char>> {
    match cmd {
        CommandV::Pop(n) => Some(pop_message(n, a.stack.len())),
        CommandV::Assert(f) => match formula_check(a.cur.env, f, Map::empty()) {
            Err(m) => Some(m),
            Ok(_) => Some(formula_fault(f, a.cur.sels, a.cur.dts)),
        },
        CommandV::DeclareConst(_, se) => match sort_expr_check(a.cur.env, se, Seq::empty()) {
            Err(m) => Some(m),
            Ok(_) => None,
        },
        CommandV::DeclareFun(_, args, ret) => match fun_decl_check(a.cur.env, args, ret) {
            Err(m) => Some(m),
            Ok(_) => None,
        },
        CommandV::DeclareDatatypes(ds) => Some(datatypes_refusal(ds)),
        _ => None,
    }
}

/// The message of the first command refused before `exit`; `None` when none is.
pub open spec fn run_refusal(a: AbsSession, cs: Seq<CommandV>) -> Option<Seq<char>>
    decreases cs.len(),
{
    if cs.len() == 0 || cs[0] is Exit {
        None
    } else {
        match abs_step(a, cs[0]) {
            Some(a2) => run_refusal(a2, cs.subrange(1, cs.len() as int)),
            None => refusal_message(a, cs[0]),
        }
    }
}

pub open spec fn abs_initial() -> AbsSession {
    AbsSession {
        cur: Abs { env: crate::typing::initial_env(), sels: Map::empty(), dts: Map::empty() },
        stack: Seq::empty(),
    }
}

proof fn lemma_ctor_tables_abs(c: CtxV, d: DatatypeDeclV, n: int)
    ensures
        abs_of(with_ctor_tables(c, d, n)) == abs_ctors(abs_of(c), d, n),
        with_ctor_tables(c, d, n).rules == c.rules,
    decreases n,
{
    if !(n <= 0 || n > d.constructors.len()) {
        lemma_ctor_tables_abs(c, d, n - 1);
    }
}

proof fn lemma_datatypes_rules_abs(c: CtxV, ds: Seq<DatatypeDeclV>, n: int)
    ensures abs_of(with_datatypes_rules(c, ds, n)) == abs_datatypes(abs_of(c), ds, n),
    decreases n,
{
    if !(n <= 0 || n > ds.len()) {
        lemma_datatypes_rules_abs(c, ds, n - 1);
        let p = with_datatypes_rules(c, ds, n - 1);
        let d = ds[n - 1];
        let e = if p.known_sorts.contains(d.name) { p } else { CtxV { known_sorts: p.known_sorts.push(d.name), ..p } };
        assert(abs_of(e) == abs_of(p));
        lemma_ctor_tables_abs(e, d, d.constructors.len() as int);
    }
}

/// One command of a session, seen on its deciding part.
proof fn lemma_step_abs(old_s: SessionV, new_s: SessionV, cmd: CommandV, ok: bool, answer_queries: bool)
    requires
        !(cmd is Exit),
        !answer_queries,
        match cmd {
            CommandV::SetLogic(_) => ok && new_s == old_s,
            CommandV::Skip(_) => ok && new_s == old_s,
            CommandV::Push(n) => ok && new_s == push_spec(old_s, n),
            CommandV::Pop(n) => match pop_spec(old_s, n) {
                Some(s2) => ok && new_s == s2,
                None => !ok,
            },
            CommandV::CheckSat => ok && new_s.stack == old_s.stack && abs_of(new_s.ctx) == abs_of(old_s.ctx),
            CommandV::Assert(f) => (ok <==> (formula_ok(old_s.ctx.sort_env, f, Map::empty())
                && desugar_formula_spec(f, old_s.ctx.ctor_selectors, old_s.ctx.ctor_to_dt) is Some))
                && (ok ==> new_s.stack == old_s.stack && abs_of(new_s.ctx) == abs_of(old_s.ctx)),
            CommandV::DeclareSort(name, arity) => ok && new_s == (SessionV { ctx: with_declared_sort(old_s.ctx, name, arity), ..old_s }),
            CommandV::DeclareConst(name, se) => (ok <==> sort_expr_ok(old_s.ctx.sort_env, se, Seq::empty()))
                && (ok ==> new_s.stack == old_s.stack
                    && new_s.ctx.ctor_selectors == old_s.ctx.ctor_selectors
                    && new_s.ctx.ctor_to_dt == old_s.ctx.ctor_to_dt
                && new_s.ctx.ctor_arities == old_s.ctx.ctor_arities
                    && new_s.ctx.sort_env == (SortEnvV {
                        const_sorts: old_s.ctx.sort_env.const_sorts.insert(name, sort_of_expr(se, Seq::empty())),
                        ..old_s.ctx.sort_env
                    })),
            CommandV::DeclareFun(name, args, ret) => (ok <==> (sort_exprs_all_ok(old_s.ctx.sort_env, args)
                    && sort_expr_ok(old_s.ctx.sort_env, ret, Seq::empty())))
                && (ok ==> new_s.stack == old_s.stack
                    && new_s.ctx.ctor_selectors == old_s.ctx.ctor_selectors
                    && new_s.ctx.ctor_to_dt == old_s.ctx.ctor_to_dt
                && new_s.ctx.ctor_arities == old_s.ctx.ctor_arities
                    && new_s.ctx.sort_env == (if args.len() == 0 {
                        SortEnvV {
                            const_sorts: old_s.ctx.sort_env.const_sorts.insert(name, sort_of_expr(ret, Seq::empty())),
                            ..old_s.ctx.sort_env
                        }
                    } else {
                        SortEnvV {
                            fun_sigs: old_s.ctx.sort_env.fun_sigs.insert(name, FunSigV {
                                args: crate::sorts::sorts_of_exprs(args, args.len() as int, Seq::empty()),
                                ret: sort_of_expr(ret, Seq::empty()),
                            }),
                            ..old_s.ctx.sort_env
                        }
                    })),
            CommandV::DeclareDatatypes(ds) => (ok <==> datatypes_compile(ds))
                && (ok ==> new_s == (SessionV { ctx: with_declared_datatypes(old_s.ctx, ds), ..old_s })),
            CommandV::GetModel => ok && new_s == old_s,
            CommandV::GetValue(_) => ok && new_s == old_s,
            CommandV::Exit => true,
        },
    ensures
        ok ==> abs_step(abs_session(old_s), cmd) == Some(abs_session(new_s)),
        !ok ==> abs_step(abs_session(old_s), cmd) is None,
{
    let a = abs_session(old_s);
    match cmd {
        CommandV::Push(n) => {
            if ok {
                assert(new_s.ctx == old_s.ctx);
                assert(abs_session(new_s).cur == a.cur);
                assert(abs_session(new_s).stack =~= a.stack + Seq::new(n, |i: int| a.cur));
            }
        },
        CommandV::Pop(n) => {
            if ok {
                let s2 = pop_spec(old_s, n)->Some_0;
                assert(abs_session(new_s).stack =~= a.stack.take(a.stack.len() - n));
            }
        },
        CommandV::DeclareDatatypes(ds) => {
            if ok {
                let c0 = CtxV { sort_env: with_datatypes_env(old_s.ctx.sort_env, ds, ds.len() as int), ..old_s.ctx };
                lemma_datatypes_rules_abs(c0, ds, ds.len() as int);
                lemma_datatypes_rules_env(c0, ds, ds.len() as int);
                lemma_abs_datatypes_env(a.cur, c0.sort_env, ds, ds.len() as int);
                assert(abs_session(new_s).stack =~= a.stack);
            }
        },
        _ => {},
    }
}

proof fn lemma_datatypes_rules_env(c: CtxV, ds: Seq<DatatypeDeclV>, n: int)
    ensures with_datatypes_rules(c, ds, n).sort_env == c.sort_env,
    decreases n,
{
    if !(n <= 0 || n > ds.len()) {
        lemma_datatypes_rules_env(c, ds, n - 1);
        let p = with_datatypes_rules(c, ds, n - 1);
        let d = ds[n - 1];
        let e = if p.known_sorts.contains(d.name) { p } else { CtxV { known_sorts: p.known_sorts.push(d.name), ..p } };
        lemma_ctor_tables_abs(e, d, d.constructors.len() as int);
        lemma_abs_ctors_env(abs_of(e), d, d.constructors.len() as int);
    }
}

proof fn lemma_abs_ctors_env(a: Abs, d: DatatypeDeclV, n: int)
    ensures abs_ctors(a, d, n).env == a.env,
    decreases n,
{
    if !(n <= 0 || n > d.constructors.len()) {
        lemma_abs_ctors_env(a, d, n - 1);
    }
}

proof fn lemma_abs_ctors_with_env(a: Abs, e: SortEnvV, d: DatatypeDeclV, n: int)
    ensures abs_ctors(Abs { env: e, ..a }, d, n) == (Abs { env: e, ..abs_ctors(a, d, n) }),
    decreases n,
{
    if !(n <= 0 || n > d.constructors.len()) {
        lemma_abs_ctors_with_env(a, e, d, n - 1);
    }
}

proof fn lemma_abs_datatypes_env(a: Abs, e: SortEnvV, ds: Seq<DatatypeDeclV>, n: int)
    ensures abs_datatypes(Abs { env: e, ..a }, ds, n) == (Abs { env: e, ..abs_datatypes(a, ds, n) }),
    decreases n,
{
    if !(n <= 0 || n > ds.len()) {
        lemma_abs_datatypes_env(a, e, ds, n - 1);
        lemma_abs_ctors_with_env(abs_datatypes(a, ds, n - 1), e, ds[n - 1], ds[n - 1].constructors.len() as int);
    }
}

} // verus!
