//! Replacing several variables at once, each by its own term: the replacements are not
//! themselves searched for the other variables.
use vstd::prelude::*;
use vstd::string::StringExecFns;
use crate::ast::{
    Term, TermV, Formula, FormulaV, MatchCase, MatchCaseV, MatchPattern, MatchPatternV, terms_v,
    lemma_terms_v, formulas_v, lemma_formulas_v, case_v, cases_v, lemma_cases_v, clone_term,
    clone_pattern, clone_sort_expr, strs_v, clone_strings,
};
use crate::sorts::names_contain;
use crate::desugar::{term_flat, terms_flat, formula_flat, formulas_flat, lemma_terms_flat_prefix, lemma_formulas_flat_prefix};

verus! {

/// The names a match pattern binds.
pub open spec fn pattern_names(p: MatchPatternV) -> Seq<Seq<char>> {
    match p {
        MatchPatternV::Constructor(_, vars) => vars,
        MatchPatternV::Atom(n) => seq![n],
    }
}

/// The term given for `x` by the first of `vars[0..n]` that is `x`.
pub open spec fn lookup(vars: Seq<Seq<char>>, reps: Seq<TermV>, x: Seq<char>, n: int) -> Option<TermV>
    decreases n,
{
    if n <= 0 || n > vars.len() {
        None
    } else {
        match lookup(vars, reps, x, n - 1) {
            Some(r) => Some(r),
            None => if vars[n - 1] == x && n - 1 < reps.len() { Some(reps[n - 1]) } else { None },
        }
    }
}

/// The term with every free occurrence of `vars[j]` replaced by `reps[j]`, all at once; names
/// in `blocked` (bound by an enclosing match case) are left alone.
pub open spec fn subst_all_term(t: TermV, vars: Seq<Seq<char>>, reps: Seq<TermV>, blocked: Seq<Seq<char>>) -> TermV
    decreases t, 0int,
{
    match t {
        TermV::Var(n) => {
            if !blocked.contains(n) && lookup(vars, reps, n, vars.len() as int) is Some {
                lookup(vars, reps, n, vars.len() as int)->Some_0
            } else {
                t
            }
        },
        TermV::Int(_) => t,
        TermV::App(f, args) => TermV::App(f, subst_all_terms(args, args.len() as int, vars, reps, blocked)),
        TermV::Ite(c, a, b) => TermV::Ite(
            Box::new(subst_all_formula(*c, vars, reps, blocked)),
            Box::new(subst_all_term(*a, vars, reps, blocked)),
            Box::new(subst_all_term(*b, vars, reps, blocked)),
        ),
        TermV::Match(s, cases) => TermV::Match(
            Box::new(subst_all_term(*s, vars, reps, blocked)),
            subst_all_cases(cases, cases.len() as int, vars, reps, blocked),
        ),
        TermV::As(i, se) => TermV::As(Box::new(subst_all_term(*i, vars, reps, blocked)), se),
    }
}

pub open spec fn subst_all_terms(ts: Seq<TermV>, n: int, vars: Seq<Seq<char>>, reps: Seq<TermV>, blocked: Seq<Seq<char>>) -> Seq<TermV>
    decreases ts, n,
{
    if n <= 0 || n > ts.len() {
        Seq::empty()
    } else {
        subst_all_terms(ts, n - 1, vars, reps, blocked).push(subst_all_term(ts[n - 1], vars, reps, blocked))
    }
}

/// A case keeps its pattern; in its body the pattern's names are bound.
pub open spec fn subst_all_case(c: MatchCaseV, vars: Seq<Seq<char>>, reps: Seq<TermV>, blocked: Seq<Seq<char>>) -> MatchCaseV
    decreases c, 0int,
{
    MatchCaseV { pattern: c.pattern, body: subst_all_term(c.body, vars, reps, blocked + pattern_names(c.pattern)) }
}

pub open spec fn subst_all_cases(cs: Seq<MatchCaseV>, n: int, vars: Seq<Seq<char>>, reps: Seq<TermV>, blocked: Seq<Seq<char>>) -> Seq<MatchCaseV>
    decreases cs, n,
{
    if n <= 0 || n > cs.len() {
        Seq::empty()
    } else {
        subst_all_cases(cs, n - 1, vars, reps, blocked).push(subst_all_case(cs[n - 1], vars, reps, blocked))
    }
}

pub open spec fn subst_all_formula(f: FormulaV, vars: Seq<Seq<char>>, reps: Seq<TermV>, blocked: Seq<Seq<char>>) -> FormulaV
    decreases f, 0int,
{
    match f {
        FormulaV::True => f,
        FormulaV::False => f,
        FormulaV::Eq(a, b) => FormulaV::Eq(subst_all_term(a, vars, reps, blocked), subst_all_term(b, vars, reps, blocked)),
        FormulaV::Not(g) => FormulaV::Not(Box::new(subst_all_formula(*g, vars, reps, blocked))),
        FormulaV::And(fs) => FormulaV::And(subst_all_formulas(fs, fs.len() as int, vars, reps, blocked)),
        FormulaV::Or(fs) => FormulaV::Or(subst_all_formulas(fs, fs.len() as int, vars, reps, blocked)),
        FormulaV::Implies(a, b) => FormulaV::Implies(
            Box::new(subst_all_formula(*a, vars, reps, blocked)),
            Box::new(subst_all_formula(*b, vars, reps, blocked)),
        ),
        FormulaV::Ite(c, a, b) => FormulaV::Ite(
            Box::new(subst_all_formula(*c, vars, reps, blocked)),
            Box::new(subst_all_formula(*a, vars, reps, blocked)),
            Box::new(subst_all_formula(*b, vars, reps, blocked)),
        ),
        FormulaV::IsTester(c, t) => FormulaV::IsTester(c, subst_all_term(t, vars, reps, blocked)),
    }
}

pub open spec fn subst_all_formulas(fs: Seq<FormulaV>, n: int, vars: Seq<Seq<char>>, reps: Seq<TermV>, blocked: Seq<Seq<char>>) -> Seq<FormulaV>
    decreases fs, n,
{
    if n <= 0 || n > fs.len() {
        Seq::empty()
    } else {
        subst_all_formulas(fs, n - 1, vars, reps, blocked).push(subst_all_formula(fs[n - 1], vars, reps, blocked))
    }
}

/// The replacement for `x`: that of the first of `vars` that is `x`.
fn find_replacement(vars: &Vec<String>, reps: &Vec<Term>, x: &String) -> (r: Option<Term>)
    requires vars.len() == reps.len(),
    ensures
        match lookup(strs_v(vars@), terms_v(reps@), x@, vars.len() as int) {
            Some(t) => r matches Some(u) && u@ == t,
            None => r is None,
        },
{
    proof { lemma_terms_v(reps@); }
    let ghost vs = strs_v(vars@);
    let ghost rs = terms_v(reps@);
    let mut i: usize = 0;
    while i < vars.len()
        invariant
            i <= vars.len(),
            vars.len() == reps.len(),
            vs == strs_v(vars@),
            rs == terms_v(reps@),
            rs.len() == reps.len(),
            lookup(vs, rs, x@, i as int) is None,
        decreases vars.len() - i,
    {
        assert(vs[i as int] == vars@[i as int]@);
        proof { lemma_terms_v(reps@); }
        if vars[i].eq(x) {
            assert(rs[i as int] == reps@[i as int]@);
            proof { lemma_lookup_found(vs, rs, x@, i as int + 1, vs.len() as int); }
            return Some(clone_term(&reps[i]));
        }
        i += 1;
    }
    None
}

proof fn lemma_lookup_found(vars: Seq<Seq<char>>, reps: Seq<TermV>, x: Seq<char>, k: int, n: int)
    requires 0 < k <= n <= vars.len(), lookup(vars, reps, x, k) is Some,
    ensures lookup(vars, reps, x, n) == lookup(vars, reps, x, k),
    decreases n - k,
{
    if k < n { lemma_lookup_found(vars, reps, x, k, n - 1); }
}

/// The names a match pattern binds.
fn pattern_name_list(p: &MatchPattern) -> (r: Vec<String>)
    ensures strs_v(r@) == pattern_names(p@),
{
    match p {
        MatchPattern::Constructor(_, vars) => clone_strings(vars),
        MatchPattern::Atom(n) => {
            let mut v: Vec<String> = Vec::new();
            v.push(n.clone());
            assert(strs_v(v@) =~= seq![n@]);
            v
        },
    }
}

/// `a` followed by `b`.
fn names_concat(a: &Vec<String>, b: &Vec<String>) -> (r: Vec<String>)
    ensures strs_v(r@) == strs_v(a@) + strs_v(b@),
{
    let mut r = clone_strings(a);
    let mut i: usize = 0;
    while i < b.len()
        invariant
            i <= b.len(),
            strs_v(r@) == strs_v(a@) + strs_v(b@).take(i as int),
        decreases b.len() - i,
    {
        let ghost before = r@;
        r.push(b[i].clone());
        assert(strs_v(b@).take(i + 1) =~= strs_v(b@).take(i as int).push(b@[i as int]@));
        assert(strs_v(r@) =~= strs_v(before).push(b@[i as int]@));
        i += 1;
    }
    assert(strs_v(b@).take(b.len() as int) =~= strs_v(b@));
    r
}

/// Replaces each `vars[j]` by `reps[j]` in a term, all at once; names in `blocked` are left
/// alone.
#[verifier::loop_isolation(false)]
pub fn subst_all_in_term(term: &Term, vars: &Vec<String>, reps: &Vec<Term>, blocked: &Vec<String>) -> (r: Term)
    requires vars.len() == reps.len(),
    ensures r@ == subst_all_term(term@, strs_v(vars@), terms_v(reps@), strs_v(blocked@)),
    decreases term, 0int,
{
    let ghost (vs, rs, bs) = (strs_v(vars@), terms_v(reps@), strs_v(blocked@));
    proof { lemma_terms_v(reps@); }
    match term {
        Term::Var(name) => {
            if names_contain(blocked, name) {
                clone_term(term)
            } else {
                match find_replacement(vars, reps, name) {
                    Some(t) => t,
                    None => clone_term(term),
                }
            }
        },
        Term::Int(_) => clone_term(term),
        Term::App(f, args) => {
            proof { lemma_terms_v(args@); }
            let ghost av = terms_v(args@);
            let mut out: Vec<Term> = Vec::new();
            let mut i: usize = 0;
            while i < args.len()
                invariant
                    i <= args.len(),
                    av == terms_v(args@),
                    terms_v(out@) == subst_all_terms(av, i as int, vs, rs, bs),
                decreases args.len() - i,
            {
                let ghost old_out = out@;
                assert(av[i as int] == args@[i as int]@);
                out.push(subst_all_in_term(&args[i], vars, reps, blocked));
                assert(out@.drop_last() == old_out);
                i += 1;
            }
            Term::App(f.clone(), out)
        },
        Term::Ite(c, a, b) => {
            let c2 = subst_all_in_formula(c, vars, reps, blocked);
            let a2 = subst_all_in_term(a, vars, reps, blocked);
            let b2 = subst_all_in_term(b, vars, reps, blocked);
            Term::Ite(Box::new(c2), Box::new(a2), Box::new(b2))
        },
        Term::Match(s, cases) => {
            let s2 = subst_all_in_term(s, vars, reps, blocked);
            proof { lemma_cases_v(cases@); }
            let ghost cv = cases_v(cases@);
            let mut out: Vec<MatchCase> = Vec::new();
            let mut i: usize = 0;
            while i < cases.len()
                invariant
                    i <= cases.len(),
                    cv == cases_v(cases@),
                    cases_v(out@) == subst_all_cases(cv, i as int, vs, rs, bs),
                decreases cases.len() - i,
            {
                let ghost old_out = out@;
                let c = &cases[i];
                assert(cv[i as int] == c@);
                let bound = pattern_name_list(&c.pattern);
                let inner = names_concat(blocked, &bound);
                let nc = MatchCase { pattern: clone_pattern(&c.pattern), body: subst_all_in_term(&c.body, vars, reps, &inner) };
                assert(case_v(nc) == subst_all_case(cv[i as int], vs, rs, bs));
                out.push(nc);
                assert(out@.drop_last() == old_out);
                i += 1;
            }
            Term::Match(Box::new(s2), out)
        },
        Term::As(inner, se) => {
            let i2 = subst_all_in_term(inner, vars, reps, blocked);
            Term::As(Box::new(i2), clone_sort_expr(se))
        },
    }
}

/// Replaces each `vars[j]` by `reps[j]` in a formula, all at once; names in `blocked` are left
/// alone.
#[verifier::loop_isolation(false)]
pub fn subst_all_in_formula(formula: &Formula, vars: &Vec<String>, reps: &Vec<Term>, blocked: &Vec<String>) -> (r: Formula)
    requires vars.len() == reps.len(),
    ensures r@ == subst_all_formula(formula@, strs_v(vars@), terms_v(reps@), strs_v(blocked@)),
    decreases formula, 0int,
{
    let ghost (vs, rs, bs) = (strs_v(vars@), terms_v(reps@), strs_v(blocked@));
    match formula {
        Formula::True => Formula::True,
        Formula::False => Formula::False,
        Formula::Eq(a, b) => Formula::Eq(subst_all_in_term(a, vars, reps, blocked), subst_all_in_term(b, vars, reps, blocked)),
        Formula::Not(g) => Formula::Not(Box::new(subst_all_in_formula(g, vars, reps, blocked))),
        Formula::And(fs) | Formula::Or(fs) => {
            proof { lemma_formulas_v(fs@); }
            let ghost fv = formulas_v(fs@);
            let mut out: Vec<Formula> = Vec::new();
            let mut i: usize = 0;
            while i < fs.len()
                invariant
                    i <= fs.len(),
                    fv == formulas_v(fs@),
                    formulas_v(out@) == subst_all_formulas(fv, i as int, vs, rs, bs),
                decreases fs.len() - i,
            {
                let ghost old_out = out@;
                assert(fv[i as int] == fs@[i as int]@);
                out.push(subst_all_in_formula(&fs[i], vars, reps, blocked));
                assert(out@.drop_last() == old_out);
                i += 1;
            }
            match formula {
                Formula::And(_) => Formula::And(out),
                _ => Formula::Or(out),
            }
        },
        Formula::Implies(a, b) => Formula::Implies(
            Box::new(subst_all_in_formula(a, vars, reps, blocked)),
            Box::new(subst_all_in_formula(b, vars, reps, blocked)),
        ),
        Formula::Ite(c, a, b) => Formula::Ite(
            Box::new(subst_all_in_formula(c, vars, reps, blocked)),
            Box::new(subst_all_in_formula(a, vars, reps, blocked)),
            Box::new(subst_all_in_formula(b, vars, reps, blocked)),
        ),
        Formula::IsTester(c, t) => Formula::IsTester(c.clone(), subst_all_in_term(t, vars, reps, blocked)),
    }
}

/// What a lookup finds is one of the replacements.
pub proof fn lemma_lookup_in(vars: Seq<Seq<char>>, reps: Seq<TermV>, x: Seq<char>, n: int)
    requires lookup(vars, reps, x, n) is Some,
    ensures exists|j: int| 0 <= j < reps.len() && reps[j] == lookup(vars, reps, x, n)->Some_0,
    decreases n,
{
    if lookup(vars, reps, x, n - 1) is Some {
        lemma_lookup_in(vars, reps, x, n - 1);
    } else {
        let j = n - 1;
        assert(reps[j] == lookup(vars, reps, x, n)->Some_0);
    }
}

/// Replacing variables by terms free of `match` keeps a term free of `match`.
pub proof fn lemma_subst_all_flat(t: TermV, vars: Seq<Seq<char>>, reps: Seq<TermV>, blocked: Seq<Seq<char>>)
    requires term_flat(t), forall|j: int| 0 <= j < reps.len() ==> term_flat(#[trigger] reps[j]),
    ensures term_flat(subst_all_term(t, vars, reps, blocked)),
    decreases t, 0int,
{
    match t {
        TermV::Var(n) => {
            if lookup(vars, reps, n, vars.len() as int) is Some {
                lemma_lookup_in(vars, reps, n, vars.len() as int);
            }
        },
        TermV::App(f, args) => lemma_subst_all_terms_flat(args, args.len() as int, vars, reps, blocked),
        TermV::Ite(c, a, b) => {
            lemma_subst_all_formula_flat(*c, vars, reps, blocked);
            lemma_subst_all_flat(*a, vars, reps, blocked);
            lemma_subst_all_flat(*b, vars, reps, blocked);
        },
        TermV::As(i, _) => lemma_subst_all_flat(*i, vars, reps, blocked),
        _ => {},
    }
}

pub proof fn lemma_subst_all_terms_flat(ts: Seq<TermV>, n: int, vars: Seq<Seq<char>>, reps: Seq<TermV>, blocked: Seq<Seq<char>>)
    requires terms_flat(ts, n), 0 <= n <= ts.len(), forall|j: int| 0 <= j < reps.len() ==> term_flat(#[trigger] reps[j]),
    ensures
        terms_flat(subst_all_terms(ts, n, vars, reps, blocked), n),
        subst_all_terms(ts, n, vars, reps, blocked).len() == n,
    decreases ts, n,
{
    if n > 0 {
        lemma_subst_all_terms_flat(ts, n - 1, vars, reps, blocked);
        lemma_subst_all_flat(ts[n - 1], vars, reps, blocked);
        let p = subst_all_terms(ts, n - 1, vars, reps, blocked);
        let q = subst_all_terms(ts, n, vars, reps, blocked);
        lemma_terms_flat_prefix(q, n - 1, p);
    }
}

pub proof fn lemma_subst_all_formula_flat(f: FormulaV, vars: Seq<Seq<char>>, reps: Seq<TermV>, blocked: Seq<Seq<char>>)
    requires formula_flat(f), forall|j: int| 0 <= j < reps.len() ==> term_flat(#[trigger] reps[j]),
    ensures formula_flat(subst_all_formula(f, vars, reps, blocked)),
    decreases f, 0int,
{
    match f {
        FormulaV::Eq(a, b) => { lemma_subst_all_flat(a, vars, reps, blocked); lemma_subst_all_flat(b, vars, reps, blocked); },
        FormulaV::Not(g) => lemma_subst_all_formula_flat(*g, vars, reps, blocked),
        FormulaV::And(fs) => lemma_subst_all_formulas_flat(fs, fs.len() as int, vars, reps, blocked),
        FormulaV::Or(fs) => lemma_subst_all_formulas_flat(fs, fs.len() as int, vars, reps, blocked),
        FormulaV::Implies(a, b) => {
            lemma_subst_all_formula_flat(*a, vars, reps, blocked);
            lemma_subst_all_formula_flat(*b, vars, reps, blocked);
        },
        FormulaV::Ite(c, a, b) => {
            lemma_subst_all_formula_flat(*c, vars, reps, blocked);
            lemma_subst_all_formula_flat(*a, vars, reps, blocked);
            lemma_subst_all_formula_flat(*b, vars, reps, blocked);
        },
        FormulaV::IsTester(_, t) => lemma_subst_all_flat(t, vars, reps, blocked),
        _ => {},
    }
}

pub proof fn lemma_subst_all_formulas_flat(fs: Seq<FormulaV>, n: int, vars: Seq<Seq<char>>, reps: Seq<TermV>, blocked: Seq<Seq<char>>)
    requires formulas_flat(fs, n), 0 <= n <= fs.len(), forall|j: int| 0 <= j < reps.len() ==> term_flat(#[trigger] reps[j]),
    ensures
        formulas_flat(subst_all_formulas(fs, n, vars, reps, blocked), n),
        subst_all_formulas(fs, n, vars, reps, blocked).len() == n,
    decreases fs, n,
{
    if n > 0 {
        lemma_subst_all_formulas_flat(fs, n - 1, vars, reps, blocked);
        lemma_subst_all_formula_flat(fs[n - 1], vars, reps, blocked);
        let p = subst_all_formulas(fs, n - 1, vars, reps, blocked);
        let q = subst_all_formulas(fs, n, vars, reps, blocked);
        lemma_formulas_flat_prefix(q, n - 1, p);
    }
}

} // verus!
