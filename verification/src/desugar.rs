//! Removing `match` from terms: each match becomes nested `ite`s over constructor testers,
//! with pattern variables replaced by selector applications on the scrutinee.
use vstd::prelude::*;
use vstd::string::StringExecFns;
use crate::ast::{
    Term, TermV, Formula, FormulaV, MatchCase, MatchCaseV, MatchPattern, MatchPatternV, terms_v,
    lemma_terms_v, formulas_v, lemma_formulas_v, case_v, cases_v, lemma_cases_v, strs_v,
    clone_term, clone_sort_expr,
};
use crate::sorts::StrMap;
use crate::subst::{
    subst_term, subst_term_spec, subst_terms, subst_formula_spec, subst_formulas,
};
use crate::subst_all::{subst_all_term, subst_all_in_term, lemma_subst_all_flat};
use crate::text::{nat_text, concat2, join7, usize_to_text};

verus! {

/// A list of names (the selectors of a constructor, in field order).
pub struct Names {
    pub names: Vec<String>,
}

impl View for Names {
    type V = Seq<Seq<char>>;
    open spec fn view(&self) -> Seq<Seq<char>> { strs_v(self.names@) }
}

/// A term without `match`.
pub open spec fn term_flat(t: TermV) -> bool
    decreases t, 0int,
{
    match t {
        TermV::Var(_) => true,
        TermV::Int(_) => true,
        TermV::App(_, args) => terms_flat(args, args.len() as int),
        TermV::Ite(c, a, b) => formula_flat(*c) && term_flat(*a) && term_flat(*b),
        TermV::Match(_, _) => false,
        TermV::As(i, _) => term_flat(*i),
    }
}

pub open spec fn terms_flat(ts: Seq<TermV>, n: int) -> bool
    decreases ts, n,
{
    if n <= 0 || n > ts.len() { true } else { terms_flat(ts, n - 1) && term_flat(ts[n - 1]) }
}

/// A formula without `match` in its terms.
pub open spec fn formula_flat(f: FormulaV) -> bool
    decreases f, 0int,
{
    match f {
        FormulaV::True => true,
        FormulaV::False => true,
        FormulaV::Eq(a, b) => term_flat(a) && term_flat(b),
        FormulaV::Not(g) => formula_flat(*g),
        FormulaV::And(fs) => formulas_flat(fs, fs.len() as int),
        FormulaV::Or(fs) => formulas_flat(fs, fs.len() as int),
        FormulaV::Implies(a, b) => formula_flat(*a) && formula_flat(*b),
        FormulaV::Ite(c, a, b) => formula_flat(*c) && formula_flat(*a) && formula_flat(*b),
        FormulaV::IsTester(_, t) => term_flat(t),
    }
}

pub open spec fn formulas_flat(fs: Seq<FormulaV>, n: int) -> bool
    decreases fs, n,
{
    if n <= 0 || n > fs.len() { true } else { formulas_flat(fs, n - 1) && formula_flat(fs[n - 1]) }
}

/// The selectors `sels` applied to `s`, one term for each.
pub open spec fn selector_apps(sels: Seq<Seq<char>>, s: TermV) -> Seq<TermV> {
    Seq::new(sels.len(), |i: int| TermV::App(sels[i], seq![s]))
}

/// A case body with the pattern's variables replaced: a constructor pattern's variables by
/// selector applications, a variable pattern by the scrutinee. `None` for a constructor
/// without known selectors or with the wrong number of variables.
pub open spec fn pattern_body(s: TermV, p: MatchPatternV, body: TermV,
    sels: Map<Seq<char>, Seq<Seq<char>>>, dts: Map<Seq<char>, Seq<char>>) -> Option<TermV>
{
    match p {
        MatchPatternV::Constructor(c, vars) => {
            if !sels.contains_key(c) || vars.len() != sels[c].len() {
                None
            } else {
                Some(subst_all_term(body, vars, selector_apps(sels[c], s), Seq::empty()))
            }
        },
        MatchPatternV::Atom(n) => {
            if dts.contains_key(n) { Some(body) } else { Some(subst_term_spec(body, n, s)) }
        },
    }
}

/// A match as nested `ite`s: each case but the last is guarded by its constructor's tester;
/// a variable pattern catches everything and ends the chain; the last case is the final else.
pub open spec fn desugar_match_spec(s: TermV, cases: Seq<MatchCaseV>,
    sels: Map<Seq<char>, Seq<Seq<char>>>, dts: Map<Seq<char>, Seq<char>>) -> Option<TermV>
    decreases cases.len(),
{
    if cases.len() == 0 {
        None
    } else {
        match pattern_body(s, cases[0].pattern, cases[0].body, sels, dts) {
            None => None,
            Some(body) => {
                if cases.len() == 1 {
                    Some(body)
                } else {
                    match desugar_match_spec(s, cases.subrange(1, cases.len() as int), sels, dts) {
                        None => None,
                        Some(rest) => match cases[0].pattern {
                            MatchPatternV::Constructor(c, _) =>
                                Some(TermV::Ite(Box::new(FormulaV::IsTester(c, s)), Box::new(body), Box::new(rest))),
                            MatchPatternV::Atom(n) => {
                                if dts.contains_key(n) {
                                    Some(TermV::Ite(Box::new(FormulaV::IsTester(n, s)), Box::new(body), Box::new(rest)))
                                } else {
                                    Some(body)
                                }
                            },
                        },
                    }
                }
            },
        }
    }
}

/// Substitution keeps a term free of `match` when what is put in is free of it.
pub proof fn lemma_subst_flat(t: TermV, v: Seq<char>, r: TermV)
    requires term_flat(t), term_flat(r),
    ensures term_flat(subst_term_spec(t, v, r)),
    decreases t, 0int,
{
    match t {
        TermV::App(f, args) => { lemma_subst_terms_flat(args, args.len() as int, v, r); },
        TermV::Ite(c, a, b) => {
            lemma_subst_formula_flat(*c, v, r);
            lemma_subst_flat(*a, v, r);
            lemma_subst_flat(*b, v, r);
        },
        TermV::As(i, _) => { lemma_subst_flat(*i, v, r); },
        _ => {},
    }
}

pub proof fn lemma_subst_terms_flat(ts: Seq<TermV>, n: int, v: Seq<char>, r: TermV)
    requires terms_flat(ts, n), term_flat(r), 0 <= n <= ts.len(),
    ensures
        terms_flat(subst_terms(ts, n, v, r), n),
        subst_terms(ts, n, v, r).len() == n,
    decreases ts, n,
{
    if n > 0 {
        lemma_subst_terms_flat(ts, n - 1, v, r);
        lemma_subst_flat(ts[n - 1], v, r);
        let p = subst_terms(ts, n - 1, v, r);
        let q = subst_terms(ts, n, v, r);
        lemma_terms_flat_prefix(q, n - 1, p);
    }
}

/// `terms_flat` of the first `n` elements only looks at those elements.
pub proof fn lemma_terms_flat_prefix(q: Seq<TermV>, n: int, p: Seq<TermV>)
    requires 0 <= n <= p.len(), n < q.len(), forall|i: int| 0 <= i < n ==> q[i] == p[i],
    ensures terms_flat(q, n) == terms_flat(p, n),
    decreases n,
{
    if n > 0 { lemma_terms_flat_prefix(q, n - 1, p); }
}

pub proof fn lemma_formulas_flat_prefix(q: Seq<FormulaV>, n: int, p: Seq<FormulaV>)
    requires 0 <= n <= p.len(), n < q.len(), forall|i: int| 0 <= i < n ==> q[i] == p[i],
    ensures formulas_flat(q, n) == formulas_flat(p, n),
    decreases n,
{
    if n > 0 { lemma_formulas_flat_prefix(q, n - 1, p); }
}

pub proof fn lemma_subst_formula_flat(f: FormulaV, v: Seq<char>, r: TermV)
    requires formula_flat(f), term_flat(r),
    ensures formula_flat(subst_formula_spec(f, v, r)),
    decreases f, 0int,
{
    match f {
        FormulaV::Eq(a, b) => { lemma_subst_flat(a, v, r); lemma_subst_flat(b, v, r); },
        FormulaV::Not(g) => { lemma_subst_formula_flat(*g, v, r); },
        FormulaV::And(fs) => { lemma_subst_formulas_flat(fs, fs.len() as int, v, r); },
        FormulaV::Or(fs) => { lemma_subst_formulas_flat(fs, fs.len() as int, v, r); },
        FormulaV::Implies(a, b) => { lemma_subst_formula_flat(*a, v, r); lemma_subst_formula_flat(*b, v, r); },
        FormulaV::Ite(c, a, b) => {
            lemma_subst_formula_flat(*c, v, r);
            lemma_subst_formula_flat(*a, v, r);
            lemma_subst_formula_flat(*b, v, r);
        },
        FormulaV::IsTester(_, t) => { lemma_subst_flat(t, v, r); },
        _ => {},
    }
}

pub proof fn lemma_subst_formulas_flat(fs: Seq<FormulaV>, n: int, v: Seq<char>, r: TermV)
    requires formulas_flat(fs, n), term_flat(r), 0 <= n <= fs.len(),
    ensures
        formulas_flat(subst_formulas(fs, n, v, r), n),
        subst_formulas(fs, n, v, r).len() == n,
    decreases fs, n,
{
    if n > 0 {
        lemma_subst_formulas_flat(fs, n - 1, v, r);
        lemma_subst_formula_flat(fs[n - 1], v, r);
        let p = subst_formulas(fs, n - 1, v, r);
        let q = subst_formulas(fs, n, v, r);
        lemma_formulas_flat_prefix(q, n - 1, p);
    }
}

/// Desugaring a match whose scrutinee and case bodies are free of `match` gives a term free
/// of `match`.
pub proof fn lemma_desugar_match_flat(s: TermV, cases: Seq<MatchCaseV>,
    sels: Map<Seq<char>, Seq<Seq<char>>>, dts: Map<Seq<char>, Seq<char>>)
    requires
        term_flat(s),
        forall|i: int| 0 <= i < cases.len() ==> term_flat(#[trigger] cases[i].body),
        desugar_match_spec(s, cases, sels, dts) is Some,
    ensures term_flat(desugar_match_spec(s, cases, sels, dts)->Some_0),
    decreases cases.len(),
{
    let c0 = cases[0];
    assert(term_flat(c0.body));
    assert(formula_flat(FormulaV::IsTester(Seq::empty(), s)));
    match c0.pattern {
        MatchPatternV::Constructor(c, vars) => {
            let reps = selector_apps(sels[c], s);
            assert forall|j: int| 0 <= j < reps.len() implies term_flat(#[trigger] reps[j]) by {
                assert(seq![s][0] == s);
                assert(terms_flat(seq![s], 0));
                assert(terms_flat(seq![s], 1));
            }
            lemma_subst_all_flat(c0.body, vars, reps, Seq::empty());
        },
        MatchPatternV::Atom(n) => {
            if !dts.contains_key(n) { lemma_subst_flat(c0.body, n, s); }
        },
    }
    if cases.len() > 1 {
        let rest = cases.subrange(1, cases.len() as int);
        assert forall|i: int| 0 <= i < rest.len() implies term_flat(#[trigger] rest[i].body) by {
            assert(rest[i] == cases[i + 1]);
        }
        lemma_desugar_match_flat(s, rest, sels, dts);
        match c0.pattern {
            MatchPatternV::Constructor(c, _) => { assert(formula_flat(FormulaV::IsTester(c, s))); },
            MatchPatternV::Atom(n) => { assert(formula_flat(FormulaV::IsTester(n, s))); },
        }
    }
}

/// A term with every `match` desugared, innermost first.
pub open spec fn desugar_term_spec(t: TermV, sels: Map<Seq<char>, Seq<Seq<char>>>, dts: Map<Seq<char>, Seq<char>>) -> Option<TermV>
    decreases t, 0int,
{
    match t {
        TermV::Var(_) => Some(t),
        TermV::Int(_) => Some(t),
        TermV::App(f, args) => match desugar_terms(args, args.len() as int, sels, dts) {
            Some(a) => Some(TermV::App(f, a)),
            None => None,
        },
        TermV::Ite(c, a, b) => match (desugar_formula_spec(*c, sels, dts), desugar_term_spec(*a, sels, dts), desugar_term_spec(*b, sels, dts)) {
            (Some(c2), Some(a2), Some(b2)) => Some(TermV::Ite(Box::new(c2), Box::new(a2), Box::new(b2))),
            _ => None,
        },
        TermV::Match(sc, cases) => match (desugar_term_spec(*sc, sels, dts), desugar_cases(cases, cases.len() as int, sels, dts)) {
            (Some(s2), Some(cs2)) => desugar_match_spec(s2, cs2, sels, dts),
            _ => None,
        },
        TermV::As(i, se) => match desugar_term_spec(*i, sels, dts) {
            Some(i2) => Some(TermV::As(Box::new(i2), se)),
            None => None,
        },
    }
}

pub open spec fn desugar_terms(ts: Seq<TermV>, n: int, sels: Map<Seq<char>, Seq<Seq<char>>>, dts: Map<Seq<char>, Seq<char>>) -> Option<Seq<TermV>>
    decreases ts, n,
{
    if n <= 0 || n > ts.len() {
        Some(Seq::empty())
    } else {
        match (desugar_terms(ts, n - 1, sels, dts), desugar_term_spec(ts[n - 1], sels, dts)) {
            (Some(r), Some(x)) => Some(r.push(x)),
            _ => None,
        }
    }
}

/// The cases `cs[0..n]` with their bodies desugared.
pub open spec fn desugar_cases(cs: Seq<MatchCaseV>, n: int, sels: Map<Seq<char>, Seq<Seq<char>>>, dts: Map<Seq<char>, Seq<char>>) -> Option<Seq<MatchCaseV>>
    decreases cs, n,
{
    if n <= 0 || n > cs.len() {
        Some(Seq::empty())
    } else {
        match (desugar_cases(cs, n - 1, sels, dts), desugar_case(cs[n - 1], sels, dts)) {
            (Some(r), Some(x)) => Some(r.push(x)),
            _ => None,
        }
    }
}

pub open spec fn desugar_case(c: MatchCaseV, sels: Map<Seq<char>, Seq<Seq<char>>>, dts: Map<Seq<char>, Seq<char>>) -> Option<MatchCaseV>
    decreases c, 0int,
{
    match desugar_term_spec(c.body, sels, dts) {
        Some(b) => Some(MatchCaseV { pattern: c.pattern, body: b }),
        None => None,
    }
}

/// A formula with every `match` in its terms desugared.
pub open spec fn desugar_formula_spec(f: FormulaV, sels: Map<Seq<char>, Seq<Seq<char>>>, dts: Map<Seq<char>, Seq<char>>) -> Option<FormulaV>
    decreases f, 0int,
{
    match f {
        FormulaV::True => Some(f),
        FormulaV::False => Some(f),
        FormulaV::Eq(a, b) => match (desugar_term_spec(a, sels, dts), desugar_term_spec(b, sels, dts)) {
            (Some(a2), Some(b2)) => Some(FormulaV::Eq(a2, b2)),
            _ => None,
        },
        FormulaV::Not(g) => match desugar_formula_spec(*g, sels, dts) {
            Some(g2) => Some(FormulaV::Not(Box::new(g2))),
            None => None,
        },
        FormulaV::And(fs) => match desugar_formulas(fs, fs.len() as int, sels, dts) {
            Some(f2) => Some(FormulaV::And(f2)),
            None => None,
        },
        FormulaV::Or(fs) => match desugar_formulas(fs, fs.len() as int, sels, dts) {
            Some(f2) => Some(FormulaV::Or(f2)),
            None => None,
        },
        FormulaV::Implies(a, b) => match (desugar_formula_spec(*a, sels, dts), desugar_formula_spec(*b, sels, dts)) {
            (Some(a2), Some(b2)) => Some(FormulaV::Implies(Box::new(a2), Box::new(b2))),
            _ => None,
        },
        FormulaV::Ite(c, a, b) => match (desugar_formula_spec(*c, sels, dts), desugar_formula_spec(*a, sels, dts), desugar_formula_spec(*b, sels, dts)) {
            (Some(c2), Some(a2), Some(b2)) => Some(FormulaV::Ite(Box::new(c2), Box::new(a2), Box::new(b2))),
            _ => None,
        },
        FormulaV::IsTester(c, t) => match desugar_term_spec(t, sels, dts) {
            Some(t2) => Some(FormulaV::IsTester(c, t2)),
            None => None,
        },
    }
}

pub open spec fn desugar_formulas(fs: Seq<FormulaV>, n: int, sels: Map<Seq<char>, Seq<Seq<char>>>, dts: Map<Seq<char>, Seq<char>>) -> Option<Seq<FormulaV>>
    decreases fs, n,
{
    if n <= 0 || n > fs.len() {
        Some(Seq::empty())
    } else {
        match (desugar_formulas(fs, n - 1, sels, dts), desugar_formula_spec(fs[n - 1], sels, dts)) {
            (Some(r), Some(x)) => Some(r.push(x)),
            _ => None,
        }
    }
}

/// The message of a pattern that does not fit: a constructor that is not known, or one given
/// another number of variables than it has fields.
pub open spec fn pattern_fault(p: MatchPatternV, sels: Map<Seq<char>, Seq<Seq<char>>>) -> Seq<char> {
    match p {
        MatchPatternV::Constructor(c, vars) => if !sels.contains_key(c) {
            "match 中遇到未知构造器: "@ + c
        } else {
            "构造器 "@ + c + " 的 pattern 参数数量 ("@ + nat_text(vars.len()) + ") 与 field 数量 ("@
                + nat_text(sels[c].len()) + ") 不匹配"@
        },
        MatchPatternV::Atom(_) => Seq::empty(),
    }
}

/// The message of a match that cannot be desugared: it has no case, or the first case whose
/// pattern does not fit.
pub open spec fn match_fault(s: TermV, cases: Seq<MatchCaseV>,
    sels: Map<Seq<char>, Seq<Seq<char>>>, dts: Map<Seq<char>, Seq<char>>) -> Seq<char>
    decreases cases.len(),
{
    if cases.len() == 0 {
        "match 至少需要一个 case"@
    } else if pattern_body(s, cases[0].pattern, cases[0].body, sels, dts) is None {
        pattern_fault(cases[0].pattern, sels)
    } else {
        match_fault(s, cases.subrange(1, cases.len() as int), sels, dts)
    }
}

/// The message of a term that cannot be desugared: that of its first part, in reading order,
/// that cannot.
pub open spec fn term_fault(t: TermV, sels: Map<Seq<char>, Seq<Seq<char>>>, dts: Map<Seq<char>, Seq<char>>) -> Seq<char>
    decreases t, 0int,
{
    match t {
        TermV::App(_, args) => terms_fault(args, args.len() as int, sels, dts),
        TermV::Ite(c, a, b) => {
            if desugar_formula_spec(*c, sels, dts) is None {
                formula_fault(*c, sels, dts)
            } else if desugar_term_spec(*a, sels, dts) is None {
                term_fault(*a, sels, dts)
            } else {
                term_fault(*b, sels, dts)
            }
        },
        TermV::Match(sc, cases) => {
            if desugar_term_spec(*sc, sels, dts) is None {
                term_fault(*sc, sels, dts)
            } else if desugar_cases(cases, cases.len() as int, sels, dts) is None {
                cases_fault(cases, cases.len() as int, sels, dts)
            } else {
                match_fault(desugar_term_spec(*sc, sels, dts)->Some_0,
                    desugar_cases(cases, cases.len() as int, sels, dts)->Some_0, sels, dts)
            }
        },
        TermV::As(i, _) => term_fault(*i, sels, dts),
        _ => Seq::empty(),
    }
}

pub open spec fn terms_fault(ts: Seq<TermV>, n: int, sels: Map<Seq<char>, Seq<Seq<char>>>, dts: Map<Seq<char>, Seq<char>>) -> Seq<char>
    decreases ts, n,
{
    if n <= 0 || n > ts.len() {
        Seq::empty()
    } else if desugar_terms(ts, n - 1, sels, dts) is None {
        terms_fault(ts, n - 1, sels, dts)
    } else {
        term_fault(ts[n - 1], sels, dts)
    }
}

pub open spec fn cases_fault(cs: Seq<MatchCaseV>, n: int, sels: Map<Seq<char>, Seq<Seq<char>>>, dts: Map<Seq<char>, Seq<char>>) -> Seq<char>
    decreases cs, n,
{
    if n <= 0 || n > cs.len() {
        Seq::empty()
    } else if desugar_cases(cs, n - 1, sels, dts) is None {
        cases_fault(cs, n - 1, sels, dts)
    } else {
        case_fault(cs[n - 1], sels, dts)
    }
}

pub open spec fn case_fault(c: MatchCaseV, sels: Map<Seq<char>, Seq<Seq<char>>>, dts: Map<Seq<char>, Seq<char>>) -> Seq<char>
    decreases c, 0int,
{
    term_fault(c.body, sels, dts)
}

/// The message of a formula whose terms cannot be desugared: that of its first part, in
/// reading order, that cannot.
pub open spec fn formula_fault(f: FormulaV, sels: Map<Seq<char>, Seq<Seq<char>>>, dts: Map<Seq<char>, Seq<char>>) -> Seq<char>
    decreases f, 0int,
{
    match f {
        FormulaV::Eq(a, b) => {
            if desugar_term_spec(a, sels, dts) is None { term_fault(a, sels, dts) } else { term_fault(b, sels, dts) }
        },
        FormulaV::Not(g) => formula_fault(*g, sels, dts),
        FormulaV::And(fs) => formulas_fault(fs, fs.len() as int, sels, dts),
        FormulaV::Or(fs) => formulas_fault(fs, fs.len() as int, sels, dts),
        FormulaV::Implies(a, b) => {
            if desugar_formula_spec(*a, sels, dts) is None { formula_fault(*a, sels, dts) } else { formula_fault(*b, sels, dts) }
        },
        FormulaV::Ite(c, a, b) => {
            if desugar_formula_spec(*c, sels, dts) is None {
                formula_fault(*c, sels, dts)
            } else if desugar_formula_spec(*a, sels, dts) is None {
                formula_fault(*a, sels, dts)
            } else {
                formula_fault(*b, sels, dts)
            }
        },
        FormulaV::IsTester(_, t) => term_fault(t, sels, dts),
        _ => Seq::empty(),
    }
}

pub open spec fn formulas_fault(fs: Seq<FormulaV>, n: int, sels: Map<Seq<char>, Seq<Seq<char>>>, dts: Map<Seq<char>, Seq<char>>) -> Seq<char>
    decreases fs, n,
{
    if n <= 0 || n > fs.len() {
        Seq::empty()
    } else if desugar_formulas(fs, n - 1, sels, dts) is None {
        formulas_fault(fs, n - 1, sels, dts)
    } else {
        formula_fault(fs[n - 1], sels, dts)
    }
}

/// The first of `ts` that cannot be desugared gives the message of the whole list.
pub proof fn lemma_terms_fault_first(ts: Seq<TermV>, i: int, n: int, sels: Map<Seq<char>, Seq<Seq<char>>>, dts: Map<Seq<char>, Seq<char>>)
    requires
        0 <= i < n <= ts.len(),
        desugar_terms(ts, i, sels, dts) is Some,
        desugar_term_spec(ts[i], sels, dts) is None,
    ensures
        desugar_terms(ts, n, sels, dts) is None,
        terms_fault(ts, n, sels, dts) == term_fault(ts[i], sels, dts),
    decreases n,
{
    if n > i + 1 { lemma_terms_fault_first(ts, i, n - 1, sels, dts); }
}

pub proof fn lemma_cases_fault_first(cs: Seq<MatchCaseV>, i: int, n: int, sels: Map<Seq<char>, Seq<Seq<char>>>, dts: Map<Seq<char>, Seq<char>>)
    requires
        0 <= i < n <= cs.len(),
        desugar_cases(cs, i, sels, dts) is Some,
        desugar_term_spec(cs[i].body, sels, dts) is None,
    ensures
        desugar_cases(cs, n, sels, dts) is None,
        cases_fault(cs, n, sels, dts) == term_fault(cs[i].body, sels, dts),
    decreases n,
{
    assert(desugar_case(cs[i], sels, dts) is None);
    assert(case_fault(cs[i], sels, dts) == term_fault(cs[i].body, sels, dts));
    if n > i + 1 { lemma_cases_fault_first(cs, i, n - 1, sels, dts); }
}

pub proof fn lemma_formulas_fault_first(fs: Seq<FormulaV>, i: int, n: int, sels: Map<Seq<char>, Seq<Seq<char>>>, dts: Map<Seq<char>, Seq<char>>)
    requires
        0 <= i < n <= fs.len(),
        desugar_formulas(fs, i, sels, dts) is Some,
        desugar_formula_spec(fs[i], sels, dts) is None,
    ensures
        desugar_formulas(fs, n, sels, dts) is None,
        formulas_fault(fs, n, sels, dts) == formula_fault(fs[i], sels, dts),
    decreases n,
{
    if n > i + 1 { lemma_formulas_fault_first(fs, i, n - 1, sels, dts); }
}

/// A term without `match` is its own desugaring.
pub proof fn lemma_desugar_term_id(t: TermV, sels: Map<Seq<char>, Seq<Seq<char>>>, dts: Map<Seq<char>, Seq<char>>)
    requires term_flat(t),
    ensures desugar_term_spec(t, sels, dts) == Some(t),
    decreases t, 0int,
{
    match t {
        TermV::App(f, args) => {
            lemma_desugar_terms_id(args, args.len() as int, sels, dts);
            assert(args.take(args.len() as int) =~= args);
        },
        TermV::Ite(c, a, b) => {
            lemma_desugar_formula_id(*c, sels, dts);
            lemma_desugar_term_id(*a, sels, dts);
            lemma_desugar_term_id(*b, sels, dts);
        },
        TermV::As(i, _) => lemma_desugar_term_id(*i, sels, dts),
        _ => {},
    }
}

pub proof fn lemma_desugar_terms_id(ts: Seq<TermV>, n: int, sels: Map<Seq<char>, Seq<Seq<char>>>, dts: Map<Seq<char>, Seq<char>>)
    requires terms_flat(ts, n), 0 <= n <= ts.len(),
    ensures desugar_terms(ts, n, sels, dts) == Some(ts.take(n)),
    decreases ts, n,
{
    if n > 0 {
        lemma_desugar_terms_id(ts, n - 1, sels, dts);
        lemma_desugar_term_id(ts[n - 1], sels, dts);
        assert(ts.take(n - 1).push(ts[n - 1]) =~= ts.take(n));
    } else {
        assert(ts.take(0) =~= Seq::<TermV>::empty());
    }
}

/// A formula without `match` is its own desugaring.
pub proof fn lemma_desugar_formula_id(f: FormulaV, sels: Map<Seq<char>, Seq<Seq<char>>>, dts: Map<Seq<char>, Seq<char>>)
    requires formula_flat(f),
    ensures desugar_formula_spec(f, sels, dts) == Some(f),
    decreases f, 0int,
{
    match f {
        FormulaV::Eq(a, b) => {
            lemma_desugar_term_id(a, sels, dts);
            lemma_desugar_term_id(b, sels, dts);
        },
        FormulaV::Not(g) => lemma_desugar_formula_id(*g, sels, dts),
        FormulaV::And(fs) => {
            lemma_desugar_formulas_id(fs, fs.len() as int, sels, dts);
            assert(fs.take(fs.len() as int) =~= fs);
        },
        FormulaV::Or(fs) => {
            lemma_desugar_formulas_id(fs, fs.len() as int, sels, dts);
            assert(fs.take(fs.len() as int) =~= fs);
        },
        FormulaV::Implies(a, b) => {
            lemma_desugar_formula_id(*a, sels, dts);
            lemma_desugar_formula_id(*b, sels, dts);
        },
        FormulaV::Ite(c, a, b) => {
            lemma_desugar_formula_id(*c, sels, dts);
            lemma_desugar_formula_id(*a, sels, dts);
            lemma_desugar_formula_id(*b, sels, dts);
        },
        FormulaV::IsTester(_, t) => lemma_desugar_term_id(t, sels, dts),
        _ => {},
    }
}

pub proof fn lemma_desugar_formulas_id(fs: Seq<FormulaV>, n: int, sels: Map<Seq<char>, Seq<Seq<char>>>, dts: Map<Seq<char>, Seq<char>>)
    requires formulas_flat(fs, n), 0 <= n <= fs.len(),
    ensures desugar_formulas(fs, n, sels, dts) == Some(fs.take(n)),
    decreases fs, n,
{
    if n > 0 {
        lemma_desugar_formulas_id(fs, n - 1, sels, dts);
        lemma_desugar_formula_id(fs[n - 1], sels, dts);
        assert(fs.take(n - 1).push(fs[n - 1]) =~= fs.take(n));
    } else {
        assert(fs.take(0) =~= Seq::<FormulaV>::empty());
    }
}

/// What desugaring gives is free of `match`.
pub proof fn lemma_desugar_flat(t: TermV, sels: Map<Seq<char>, Seq<Seq<char>>>, dts: Map<Seq<char>, Seq<char>>)
    requires desugar_term_spec(t, sels, dts) is Some,
    ensures term_flat(desugar_term_spec(t, sels, dts)->Some_0),
    decreases t, 0int,
{
    match t {
        TermV::App(f, args) => { lemma_desugar_terms_flat(args, args.len() as int, sels, dts); },
        TermV::Ite(c, a, b) => {
            lemma_desugar_formula_flat(*c, sels, dts);
            lemma_desugar_flat(*a, sels, dts);
            lemma_desugar_flat(*b, sels, dts);
        },
        TermV::Match(sc, cases) => {
            lemma_desugar_flat(*sc, sels, dts);
            lemma_desugar_cases_flat(cases, cases.len() as int, sels, dts);
            let cs2 = desugar_cases(cases, cases.len() as int, sels, dts)->Some_0;
            lemma_desugar_match_flat(desugar_term_spec(*sc, sels, dts)->Some_0, cs2, sels, dts);
        },
        TermV::As(i, _) => { lemma_desugar_flat(*i, sels, dts); },
        _ => {},
    }
}

pub proof fn lemma_desugar_terms_flat(ts: Seq<TermV>, n: int, sels: Map<Seq<char>, Seq<Seq<char>>>, dts: Map<Seq<char>, Seq<char>>)
    requires desugar_terms(ts, n, sels, dts) is Some, 0 <= n <= ts.len(),
    ensures
        terms_flat(desugar_terms(ts, n, sels, dts)->Some_0, n),
        desugar_terms(ts, n, sels, dts)->Some_0.len() == n,
    decreases ts, n,
{
    if n > 0 {
        lemma_desugar_terms_flat(ts, n - 1, sels, dts);
        lemma_desugar_flat(ts[n - 1], sels, dts);
        let p = desugar_terms(ts, n - 1, sels, dts)->Some_0;
        let q = desugar_terms(ts, n, sels, dts)->Some_0;
        lemma_terms_flat_prefix(q, n - 1, p);
    }
}

pub proof fn lemma_desugar_cases_flat(cs: Seq<MatchCaseV>, n: int, sels: Map<Seq<char>, Seq<Seq<char>>>, dts: Map<Seq<char>, Seq<char>>)
    requires desugar_cases(cs, n, sels, dts) is Some, 0 <= n <= cs.len(),
    ensures
        desugar_cases(cs, n, sels, dts)->Some_0.len() == n,
        forall|i: int| 0 <= i < n ==> term_flat(#[trigger] desugar_cases(cs, n, sels, dts)->Some_0[i].body),
    decreases cs, n,
{
    if n > 0 {
        lemma_desugar_cases_flat(cs, n - 1, sels, dts);
        assert(desugar_case(cs[n - 1], sels, dts) is Some);
        assert(desugar_term_spec(cs[n - 1].body, sels, dts) is Some);
        lemma_desugar_flat(cs[n - 1].body, sels, dts);
        let p = desugar_cases(cs, n - 1, sels, dts)->Some_0;
        let q = desugar_cases(cs, n, sels, dts)->Some_0;
        assert forall|i: int| 0 <= i < n implies term_flat(#[trigger] q[i].body) by {
            if i < n - 1 { assert(q[i] == p[i]); }
        }
    }
}

pub proof fn lemma_desugar_formula_flat(f: FormulaV, sels: Map<Seq<char>, Seq<Seq<char>>>, dts: Map<Seq<char>, Seq<char>>)
    requires desugar_formula_spec(f, sels, dts) is Some,
    ensures formula_flat(desugar_formula_spec(f, sels, dts)->Some_0),
    decreases f, 0int,
{
    match f {
        FormulaV::Eq(a, b) => { lemma_desugar_flat(a, sels, dts); lemma_desugar_flat(b, sels, dts); },
        FormulaV::Not(g) => { lemma_desugar_formula_flat(*g, sels, dts); },
        FormulaV::And(fs) => { lemma_desugar_formulas_flat(fs, fs.len() as int, sels, dts); },
        FormulaV::Or(fs) => { lemma_desugar_formulas_flat(fs, fs.len() as int, sels, dts); },
        FormulaV::Implies(a, b) => { lemma_desugar_formula_flat(*a, sels, dts); lemma_desugar_formula_flat(*b, sels, dts); },
        FormulaV::Ite(c, a, b) => {
            lemma_desugar_formula_flat(*c, sels, dts);
            lemma_desugar_formula_flat(*a, sels, dts);
            lemma_desugar_formula_flat(*b, sels, dts);
        },
        FormulaV::IsTester(_, t) => { lemma_desugar_flat(t, sels, dts); },
        _ => {},
    }
}

pub proof fn lemma_desugar_formulas_flat(fs: Seq<FormulaV>, n: int, sels: Map<Seq<char>, Seq<Seq<char>>>, dts: Map<Seq<char>, Seq<char>>)
    requires desugar_formulas(fs, n, sels, dts) is Some, 0 <= n <= fs.len(),
    ensures
        formulas_flat(desugar_formulas(fs, n, sels, dts)->Some_0, n),
        desugar_formulas(fs, n, sels, dts)->Some_0.len() == n,
    decreases fs, n,
{
    if n > 0 {
        lemma_desugar_formulas_flat(fs, n - 1, sels, dts);
        lemma_desugar_formula_flat(fs[n - 1], sels, dts);
        let p = desugar_formulas(fs, n - 1, sels, dts)->Some_0;
        let q = desugar_formulas(fs, n, sels, dts)->Some_0;
        lemma_formulas_flat_prefix(q, n - 1, p);
    }
}

// ---------------------------------------------------------------------------
// Desugaring, executably
// ---------------------------------------------------------------------------

/// A case body with its pattern's variables replaced (by selector applications on the
/// scrutinee, or by the scrutinee itself).
#[verifier::loop_isolation(false)]
pub fn substitute_pattern_in(sels: &StrMap<Names>, dts: &StrMap<String>, scrutinee: &Term,
    pattern: &MatchPattern, body: &Term) -> (res: Result<Term, String>)
    ensures
        match pattern_body(scrutinee@, pattern@, body@, sels@, dts@) {
            Some(v) => res matches Ok(r) && r@ == v,
            None => res matches Err(e) && e@ == pattern_fault(pattern@, sels@),
        },
{
    match pattern {
        MatchPattern::Constructor(ctor_name, vars) => {
            let selectors = match sels.get(ctor_name.as_str()) {
                Some(s) => s,
                None => {
                    return Err(concat2("match 中遇到未知构造器: ", ctor_name.as_str()));
                },
            };
            if vars.len() != selectors.names.len() {
                let a = usize_to_text(vars.len());
                let b = usize_to_text(selectors.names.len());
                return Err(join7("构造器 ", ctor_name.as_str(), " 的 pattern 参数数量 (", a.as_str(),
                    ") 与 field 数量 (", b.as_str(), ") 不匹配"));
            }
            let ghost ss = strs_v(selectors.names@);
            let mut reps: Vec<Term> = Vec::new();
            let mut i: usize = 0;
            while i < vars.len()
                invariant
                    i <= vars.len(),
                    vars.len() == selectors.names.len(),
                    ss == strs_v(selectors.names@),
                    ss == sels@[ctor_name@],
                    reps.len() == i,
                    terms_v(reps@) == selector_apps(ss, scrutinee@).take(i as int),
                decreases vars.len() - i,
            {
                let mut args: Vec<Term> = Vec::new();
                args.push(clone_term(scrutinee));
                proof { lemma_terms_v(args@); }
                assert(terms_v(args@) =~= seq![scrutinee@]);
                let replacement = Term::App(selectors.names[i].clone(), args);
                let ghost before = reps@;
                reps.push(replacement);
                proof { lemma_terms_v(reps@); lemma_terms_v(before); }
                assert(terms_v(reps@) =~= selector_apps(ss, scrutinee@).take(i + 1));
                i += 1;
            }
            assert(selector_apps(ss, scrutinee@).take(vars.len() as int) =~= selector_apps(ss, scrutinee@));
            let no_names: Vec<String> = Vec::new();
            assert(strs_v(no_names@) =~= Seq::<Seq<char>>::empty());
            let result = subst_all_in_term(body, vars, &reps, &no_names);
            Ok(result)
        },
        MatchPattern::Atom(name) => {
            if dts.contains_key(name.as_str()) {
                Ok(clone_term(body))
            } else {
                Ok(subst_term(body, name.as_str(), scrutinee))
            }
        },
    }
}

/// Desugars the match of `scrutinee` over `cases[start..]`.
pub fn desugar_match_in(sels: &StrMap<Names>, dts: &StrMap<String>, scrutinee: &Term,
    cases: &Vec<MatchCase>, start: usize) -> (res: Result<Term, String>)
    requires start <= cases.len(),
    ensures
        match desugar_match_spec(scrutinee@, cases_v(cases@).subrange(start as int, cases.len() as int), sels@, dts@) {
            Some(v) => res matches Ok(r) && r@ == v,
            None => res matches Err(e)
                && e@ == match_fault(scrutinee@, cases_v(cases@).subrange(start as int, cases.len() as int), sels@, dts@),
        },
    decreases cases.len() - start,
{
    proof { lemma_cases_v(cases@); }
    let ghost cs = cases_v(cases@).subrange(start as int, cases.len() as int);
    if start == cases.len() {
        return Err(String::from_str("match 至少需要一个 case"));
    }
    let case = &cases[start];
    assert(cs[0] == case@);
    let body = match substitute_pattern_in(sels, dts, scrutinee, &case.pattern, &case.body) {
        Ok(b) => b,
        Err(e) => { return Err(e); },
    };
    if start + 1 == cases.len() {
        return Ok(body);
    }
    assert(cs.subrange(1, cs.len() as int) =~= cases_v(cases@).subrange(start + 1, cases.len() as int));
    let else_body = match desugar_match_in(sels, dts, scrutinee, cases, start + 1) {
        Ok(b) => b,
        Err(e) => { return Err(e); },
    };
    match &case.pattern {
        MatchPattern::Constructor(ctor_name, _) => {
            let tester = Formula::IsTester(ctor_name.clone(), clone_term(scrutinee));
            let ghost tv = tester@;
            assert(tv == FormulaV::IsTester(ctor_name@, scrutinee@));
            let ghost (bv, ev) = (body@, else_body@);
            let r = Term::Ite(Box::new(tester), Box::new(body), Box::new(else_body));
            assert(r@ == TermV::Ite(Box::new(tv), Box::new(bv), Box::new(ev)));
            Ok(r)
        },
        MatchPattern::Atom(name) => {
            if dts.contains_key(name.as_str()) {
                let tester = Formula::IsTester(name.clone(), clone_term(scrutinee));
                let ghost tv = tester@;
                assert(tv == FormulaV::IsTester(name@, scrutinee@));
                let ghost (bv, ev) = (body@, else_body@);
                let r = Term::Ite(Box::new(tester), Box::new(body), Box::new(else_body));
                assert(r@ == TermV::Ite(Box::new(tv), Box::new(bv), Box::new(ev)));
                Ok(r)
            } else {
                Ok(body)
            }
        },
    }
}

/// A term with every `match` desugared.
#[verifier::loop_isolation(false)]
pub fn desugar_term(sels: &StrMap<Names>, dts: &StrMap<String>, t: &Term) -> (res: Result<Term, String>)
    ensures
        match desugar_term_spec(t@, sels@, dts@) {
            Some(v) => res matches Ok(r) && r@ == v,
            None => res matches Err(e) && e@ == term_fault(t@, sels@, dts@),
        },
    decreases t, 0int,
{
    match t {
        Term::Var(_) => Ok(clone_term(t)),
        Term::Int(_) => Ok(clone_term(t)),
        Term::App(f, args) => {
            proof { lemma_terms_v(args@); }
            let ghost av = terms_v(args@);
            let mut out: Vec<Term> = Vec::new();
            let mut i: usize = 0;
            while i < args.len()
                invariant
                    i <= args.len(),
                    av == terms_v(args@),
                    desugar_terms(av, i as int, sels@, dts@) == Some(terms_v(out@)),
                decreases args.len() - i,
            {
                assert(av[i as int] == args@[i as int]@);
                match desugar_term(sels, dts, &args[i]) {
                    Ok(x) => {
                        let ghost old_out = out@;
                        out.push(x);
                        assert(out@.drop_last() == old_out);
                    },
                    Err(e) => {
                        proof { lemma_terms_fault_first(av, i as int, av.len() as int, sels@, dts@); }
                        return Err(e);
                    },
                }
                i += 1;
            }
            Ok(Term::App(f.clone(), out))
        },
        Term::Ite(c, a, b) => {
            let c2 = match desugar_formula(sels, dts, c) { Ok(x) => x, Err(e) => { return Err(e); } };
            let a2 = match desugar_term(sels, dts, a) { Ok(x) => x, Err(e) => { return Err(e); } };
            let b2 = match desugar_term(sels, dts, b) { Ok(x) => x, Err(e) => { return Err(e); } };
            Ok(Term::Ite(Box::new(c2), Box::new(a2), Box::new(b2)))
        },
        Term::Match(sc, cases) => {
            let s2 = match desugar_term(sels, dts, sc) { Ok(x) => x, Err(e) => { return Err(e); } };
            proof { lemma_cases_v(cases@); }
            let ghost cv = cases_v(cases@);
            let mut out: Vec<MatchCase> = Vec::new();
            let mut i: usize = 0;
            while i < cases.len()
                invariant
                    i <= cases.len(),
                    cv == cases_v(cases@),
                    desugar_cases(cv, i as int, sels@, dts@) == Some(cases_v(out@)),
                decreases cases.len() - i,
            {
                let c = &cases[i];
                assert(cv[i as int] == c@);
                match desugar_term(sels, dts, &c.body) {
                    Ok(b) => {
                        let ghost bv = b@;
                        let nc = MatchCase { pattern: crate::ast::clone_pattern(&c.pattern), body: b };
                        assert(case_v(nc) == MatchCaseV { pattern: cv[i as int].pattern, body: bv });
                        assert(desugar_case(cv[i as int], sels@, dts@) == Some(case_v(nc)));
                        let ghost old_out = out@;
                        out.push(nc);
                        assert(out@.drop_last() == old_out);
                    },
                    Err(e) => {
                        proof { lemma_cases_fault_first(cv, i as int, cv.len() as int, sels@, dts@); }
                        return Err(e);
                    },
                }
                i += 1;
            }
            proof { lemma_cases_v(out@); }
            assert(cases_v(out@).subrange(0, out.len() as int) == cases_v(out@));
            desugar_match_in(sels, dts, &s2, &out, 0)
        },
        Term::As(i, se) => {
            let i2 = match desugar_term(sels, dts, i) { Ok(x) => x, Err(e) => { return Err(e); } };
            Ok(Term::As(Box::new(i2), clone_sort_expr(se)))
        },
    }
}

/// A formula with every `match` in its terms desugared.
#[verifier::loop_isolation(false)]
pub fn desugar_formula(sels: &StrMap<Names>, dts: &StrMap<String>, f: &Formula) -> (res: Result<Formula, String>)
    ensures
        match desugar_formula_spec(f@, sels@, dts@) {
            Some(v) => res matches Ok(r) && r@ == v,
            None => res matches Err(e) && e@ == formula_fault(f@, sels@, dts@),
        },
    decreases f, 0int,
{
    match f {
        Formula::True => Ok(Formula::True),
        Formula::False => Ok(Formula::False),
        Formula::Eq(a, b) => {
            let a2 = match desugar_term(sels, dts, a) { Ok(x) => x, Err(e) => { return Err(e); } };
            let b2 = match desugar_term(sels, dts, b) { Ok(x) => x, Err(e) => { return Err(e); } };
            Ok(Formula::Eq(a2, b2))
        },
        Formula::Not(g) => {
            let g2 = match desugar_formula(sels, dts, g) { Ok(x) => x, Err(e) => { return Err(e); } };
            Ok(Formula::Not(Box::new(g2)))
        },
        Formula::And(fs) | Formula::Or(fs) => {
            proof { lemma_formulas_v(fs@); }
            let ghost fv = formulas_v(fs@);
            let mut out: Vec<Formula> = Vec::new();
            let mut i: usize = 0;
            while i < fs.len()
                invariant
                    i <= fs.len(),
                    fv == formulas_v(fs@),
                    desugar_formulas(fv, i as int, sels@, dts@) == Some(formulas_v(out@)),
                decreases fs.len() - i,
            {
                assert(fv[i as int] == fs@[i as int]@);
                match desugar_formula(sels, dts, &fs[i]) {
                    Ok(x) => {
                        let ghost old_out = out@;
                        out.push(x);
                        assert(out@.drop_last() == old_out);
                    },
                    Err(e) => {
                        proof { lemma_formulas_fault_first(fv, i as int, fv.len() as int, sels@, dts@); }
                        return Err(e);
                    },
                }
                i += 1;
            }
            match f {
                Formula::And(_) => Ok(Formula::And(out)),
                _ => Ok(Formula::Or(out)),
            }
        },
        Formula::Implies(a, b) => {
            let a2 = match desugar_formula(sels, dts, a) { Ok(x) => x, Err(e) => { return Err(e); } };
            let b2 = match desugar_formula(sels, dts, b) { Ok(x) => x, Err(e) => { return Err(e); } };
            Ok(Formula::Implies(Box::new(a2), Box::new(b2)))
        },
        Formula::Ite(c, a, b) => {
            let c2 = match desugar_formula(sels, dts, c) { Ok(x) => x, Err(e) => { return Err(e); } };
            let a2 = match desugar_formula(sels, dts, a) { Ok(x) => x, Err(e) => { return Err(e); } };
            let b2 = match desugar_formula(sels, dts, b) { Ok(x) => x, Err(e) => { return Err(e); } };
            Ok(Formula::Ite(Box::new(c2), Box::new(a2), Box::new(b2)))
        },
        Formula::IsTester(c, t) => {
            let t2 = match desugar_term(sels, dts, t) { Ok(x) => x, Err(e) => { return Err(e); } };
            Ok(Formula::IsTester(c.clone(), t2))
        },
    }
}

} // verus!
