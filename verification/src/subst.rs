//! Replacing a variable by a term, and printing terms and formulas as S-expressions.
use vstd::prelude::*;
use vstd::string::StringExecFns;
use crate::ast::{
    Term, TermV, Formula, FormulaV, MatchCase, MatchCaseV, MatchPattern, MatchPatternV, terms_v,
    lemma_terms_v, formulas_v, lemma_formulas_v, case_v, cases_v, lemma_cases_v, clone_term,
    clone_pattern, clone_sort_expr,
};

verus! {

/// Whether a match pattern binds the name `v`.
pub open spec fn pattern_binds(p: MatchPatternV, v: Seq<char>) -> bool {
    match p {
        MatchPatternV::Constructor(_, vars) => vars.contains(v),
        MatchPatternV::Atom(n) => n == v,
    }
}

/// The term with every free occurrence of the variable `v` replaced by `r`; a match case whose
/// pattern binds `v` is left as it is.
pub open spec fn subst_term_spec(t: TermV, v: Seq<char>, r: TermV) -> TermV
    decreases t, 0int,
{
    match t {
        TermV::Var(n) => if n == v { r } else { t },
        TermV::Int(_) => t,
        TermV::App(f, args) => TermV::App(f, subst_terms(args, args.len() as int, v, r)),
        TermV::Ite(c, a, b) => TermV::Ite(
            Box::new(subst_formula_spec(*c, v, r)),
            Box::new(subst_term_spec(*a, v, r)),
            Box::new(subst_term_spec(*b, v, r)),
        ),
        TermV::Match(s, cases) => TermV::Match(
            Box::new(subst_term_spec(*s, v, r)),
            subst_cases(cases, cases.len() as int, v, r),
        ),
        TermV::As(i, se) => TermV::As(Box::new(subst_term_spec(*i, v, r)), se),
    }
}

pub open spec fn subst_terms(ts: Seq<TermV>, n: int, v: Seq<char>, r: TermV) -> Seq<TermV>
    decreases ts, n,
{
    if n <= 0 || n > ts.len() {
        Seq::empty()
    } else {
        subst_terms(ts, n - 1, v, r).push(subst_term_spec(ts[n - 1], v, r))
    }
}

pub open spec fn subst_case(c: MatchCaseV, v: Seq<char>, r: TermV) -> MatchCaseV
    decreases c, 0int,
{
    if pattern_binds(c.pattern, v) {
        c
    } else {
        MatchCaseV { pattern: c.pattern, body: subst_term_spec(c.body, v, r) }
    }
}

pub open spec fn subst_cases(cs: Seq<MatchCaseV>, n: int, v: Seq<char>, r: TermV) -> Seq<MatchCaseV>
    decreases cs, n,
{
    if n <= 0 || n > cs.len() {
        Seq::empty()
    } else {
        subst_cases(cs, n - 1, v, r).push(subst_case(cs[n - 1], v, r))
    }
}

/// The formula with every free occurrence of the variable `v` replaced by `r`.
pub open spec fn subst_formula_spec(f: FormulaV, v: Seq<char>, r: TermV) -> FormulaV
    decreases f, 0int,
{
    match f {
        FormulaV::True => f,
        FormulaV::False => f,
        FormulaV::Eq(a, b) => FormulaV::Eq(subst_term_spec(a, v, r), subst_term_spec(b, v, r)),
        FormulaV::Not(g) => FormulaV::Not(Box::new(subst_formula_spec(*g, v, r))),
        FormulaV::And(fs) => FormulaV::And(subst_formulas(fs, fs.len() as int, v, r)),
        FormulaV::Or(fs) => FormulaV::Or(subst_formulas(fs, fs.len() as int, v, r)),
        FormulaV::Implies(a, b) => FormulaV::Implies(Box::new(subst_formula_spec(*a, v, r)), Box::new(subst_formula_spec(*b, v, r))),
        FormulaV::Ite(c, a, b) => FormulaV::Ite(
            Box::new(subst_formula_spec(*c, v, r)),
            Box::new(subst_formula_spec(*a, v, r)),
            Box::new(subst_formula_spec(*b, v, r)),
        ),
        FormulaV::IsTester(c, t) => FormulaV::IsTester(c, subst_term_spec(t, v, r)),
    }
}

pub open spec fn subst_formulas(fs: Seq<FormulaV>, n: int, v: Seq<char>, r: TermV) -> Seq<FormulaV>
    decreases fs, n,
{
    if n <= 0 || n > fs.len() {
        Seq::empty()
    } else {
        subst_formulas(fs, n - 1, v, r).push(subst_formula_spec(fs[n - 1], v, r))
    }
}

/// Whether a match pattern binds the variable `var`.
pub fn match_pattern_binds(pattern: &MatchPattern, var: &str) -> (r: bool)
    ensures r == pattern_binds(pattern@, var@),
{
    let v = String::from_str(var);
    match pattern {
        MatchPattern::Constructor(_, vars) => crate::sorts::names_contain(vars, &v),
        MatchPattern::Atom(name) => name.eq(&v),
    }
}

/// Replaces the variable `var` by `replacement` in a term.
#[verifier::loop_isolation(false)]
pub fn subst_term(term: &Term, var: &str, replacement: &Term) -> (r: Term)
    ensures r@ == subst_term_spec(term@, var@, replacement@),
    decreases term, 0int,
{
    match term {
        Term::Var(name) => {
            let v = String::from_str(var);
            if name.eq(&v) { clone_term(replacement) } else { clone_term(term) }
        },
        Term::Int(_) => clone_term(term),
        Term::App(f, args) => {
            proof { lemma_terms_v(args@); }
            let ghost av = terms_v(args@);
            let mut out: Vec<Term> = Vec::new();
            let mut i: usize = 0;
            while i < args.len()
                invariant
                    i <= args.len(),
                    av == terms_v(args@),
                    terms_v(out@) == subst_terms(av, i as int, var@, replacement@),
                decreases args.len() - i,
            {
                let ghost old_out = out@;
                assert(av[i as int] == args@[i as int]@);
                out.push(subst_term(&args[i], var, replacement));
                assert(out@.drop_last() == old_out);
                i += 1;
            }
            Term::App(f.clone(), out)
        },
        Term::Ite(c, a, b) => {
            let c2 = subst_formula(c, var, replacement);
            let a2 = subst_term(a, var, replacement);
            let b2 = subst_term(b, var, replacement);
            Term::Ite(Box::new(c2), Box::new(a2), Box::new(b2))
        },
        Term::Match(s, cases) => {
            let s2 = subst_term(s, var, replacement);
            proof { lemma_cases_v(cases@); }
            let ghost cv = cases_v(cases@);
            let mut out: Vec<MatchCase> = Vec::new();
            let mut i: usize = 0;
            while i < cases.len()
                invariant
                    i <= cases.len(),
                    cv == cases_v(cases@),
                    cases_v(out@) == subst_cases(cv, i as int, var@, replacement@),
                decreases cases.len() - i,
            {
                let ghost old_out = out@;
                let c = &cases[i];
                assert(cv[i as int] == c@);
                let nc = if match_pattern_binds(&c.pattern, var) {
                    MatchCase { pattern: clone_pattern(&c.pattern), body: clone_term(&c.body) }
                } else {
                    MatchCase { pattern: clone_pattern(&c.pattern), body: subst_term(&c.body, var, replacement) }
                };
                assert(case_v(nc) == subst_case(cv[i as int], var@, replacement@));
                out.push(nc);
                assert(out@.drop_last() == old_out);
                i += 1;
            }
            Term::Match(Box::new(s2), out)
        },
        Term::As(inner, se) => {
            let i2 = subst_term(inner, var, replacement);
            Term::As(Box::new(i2), clone_sort_expr(se))
        },
    }
}

/// Replaces the variable `var` by `replacement` in a formula.
#[verifier::loop_isolation(false)]
pub fn subst_formula(formula: &Formula, var: &str, replacement: &Term) -> (r: Formula)
    ensures r@ == subst_formula_spec(formula@, var@, replacement@),
    decreases formula, 0int,
{
    match formula {
        Formula::True => Formula::True,
        Formula::False => Formula::False,
        Formula::Eq(a, b) => Formula::Eq(subst_term(a, var, replacement), subst_term(b, var, replacement)),
        Formula::Not(g) => Formula::Not(Box::new(subst_formula(g, var, replacement))),
        Formula::And(fs) | Formula::Or(fs) => {
            proof { lemma_formulas_v(fs@); }
            let ghost fv = formulas_v(fs@);
            let mut out: Vec<Formula> = Vec::new();
            let mut i: usize = 0;
            while i < fs.len()
                invariant
                    i <= fs.len(),
                    fv == formulas_v(fs@),
                    formulas_v(out@) == subst_formulas(fv, i as int, var@, replacement@),
                decreases fs.len() - i,
            {
                let ghost old_out = out@;
                assert(fv[i as int] == fs@[i as int]@);
                out.push(subst_formula(&fs[i], var, replacement));
                assert(out@.drop_last() == old_out);
                i += 1;
            }
            match formula {
                Formula::And(_) => Formula::And(out),
                _ => Formula::Or(out),
            }
        },
        Formula::Implies(a, b) => Formula::Implies(
            Box::new(subst_formula(a, var, replacement)),
            Box::new(subst_formula(b, var, replacement)),
        ),
        Formula::Ite(c, a, b) => Formula::Ite(
            Box::new(subst_formula(c, var, replacement)),
            Box::new(subst_formula(a, var, replacement)),
            Box::new(subst_formula(b, var, replacement)),
        ),
        Formula::IsTester(c, t) => Formula::IsTester(c.clone(), subst_term(t, var, replacement)),
    }
}

// ---------------------------------------------------------------------------
// Laws
// ---------------------------------------------------------------------------

/// Replacing a variable by itself leaves a term unchanged.
pub proof fn lemma_subst_term_self(t: TermV, v: Seq<char>)
    ensures subst_term_spec(t, v, TermV::Var(v)) == t,
    decreases t, 0int,
{
    match t {
        TermV::App(f, args) => {
            lemma_subst_terms_self(args, args.len() as int, v);
            assert(subst_terms(args, args.len() as int, v, TermV::Var(v)) =~= args);
        },
        TermV::Ite(c, a, b) => {
            lemma_subst_formula_self(*c, v);
            lemma_subst_term_self(*a, v);
            lemma_subst_term_self(*b, v);
        },
        TermV::Match(s, cases) => {
            lemma_subst_term_self(*s, v);
            lemma_subst_cases_self(cases, cases.len() as int, v);
            assert(subst_cases(cases, cases.len() as int, v, TermV::Var(v)) =~= cases);
        },
        TermV::As(i, se) => {
            lemma_subst_term_self(*i, v);
        },
        _ => {},
    }
}

pub proof fn lemma_subst_terms_self(ts: Seq<TermV>, n: int, v: Seq<char>)
    requires 0 <= n <= ts.len(),
    ensures subst_terms(ts, n, v, TermV::Var(v)) =~= ts.take(n),
    decreases ts, n,
{
    if n > 0 {
        lemma_subst_terms_self(ts, n - 1, v);
        lemma_subst_term_self(ts[n - 1], v);
        assert(ts.take(n) =~= ts.take(n - 1).push(ts[n - 1]));
    }
}

pub proof fn lemma_subst_cases_self(cs: Seq<MatchCaseV>, n: int, v: Seq<char>)
    requires 0 <= n <= cs.len(),
    ensures subst_cases(cs, n, v, TermV::Var(v)) =~= cs.take(n),
    decreases cs, n,
{
    if n > 0 {
        lemma_subst_cases_self(cs, n - 1, v);
        lemma_subst_term_self(cs[n - 1].body, v);
        let c = cs[n - 1];
        assert(subst_case(c, v, TermV::Var(v)) == c);
        assert(cs.take(n) =~= cs.take(n - 1).push(cs[n - 1]));
    }
}

/// Replacing a variable by itself leaves a formula unchanged.
pub proof fn lemma_subst_formula_self(f: FormulaV, v: Seq<char>)
    ensures subst_formula_spec(f, v, TermV::Var(v)) == f,
    decreases f, 0int,
{
    match f {
        FormulaV::Eq(a, b) => {
            lemma_subst_term_self(a, v);
            lemma_subst_term_self(b, v);
        },
        FormulaV::Not(g) => {
            lemma_subst_formula_self(*g, v);
        },
        FormulaV::And(fs) => {
            lemma_subst_formulas_self(fs, fs.len() as int, v);
            assert(subst_formulas(fs, fs.len() as int, v, TermV::Var(v)) =~= fs);
        },
        FormulaV::Or(fs) => {
            lemma_subst_formulas_self(fs, fs.len() as int, v);
            assert(subst_formulas(fs, fs.len() as int, v, TermV::Var(v)) =~= fs);
        },
        FormulaV::Implies(a, b) => {
            lemma_subst_formula_self(*a, v);
            lemma_subst_formula_self(*b, v);
        },
        FormulaV::Ite(c, a, b) => {
            lemma_subst_formula_self(*c, v);
            lemma_subst_formula_self(*a, v);
            lemma_subst_formula_self(*b, v);
        },
        FormulaV::IsTester(c, t) => {
            lemma_subst_term_self(t, v);
        },
        _ => {},
    }
}

pub proof fn lemma_subst_formulas_self(fs: Seq<FormulaV>, n: int, v: Seq<char>)
    requires 0 <= n <= fs.len(),
    ensures subst_formulas(fs, n, v, TermV::Var(v)) =~= fs.take(n),
    decreases fs, n,
{
    if n > 0 {
        lemma_subst_formulas_self(fs, n - 1, v);
        lemma_subst_formula_self(fs[n - 1], v);
        assert(fs.take(n) =~= fs.take(n - 1).push(fs[n - 1]));
    }
}

} // verus!
