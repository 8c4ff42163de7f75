//! Terms and formulas written back as S-expressions.
use vstd::prelude::*;
use vstd::string::StringExecFns;
use crate::ast::{
    Term, TermV, Formula, FormulaV, terms_v, lemma_terms_v, formulas_v, lemma_formulas_v,
};
use crate::sorts::{sort_expr_text, sort_expr_to_text};
use crate::text::{int_text, int_to_text};

verus! {

/// How a term is written: `f` for an application without arguments, `(f a b)`, `(ite c t e)`,
/// `(match s ...)` (cases left out), `(as t S)`.
pub open spec fn term_text(t: TermV) -> Seq<char>
    decreases t, 0int,
{
    match t {
        TermV::Var(n) => n,
        TermV::Int(i) => int_text(i),
        TermV::App(f, args) => {
            if args.len() == 0 {
                f
            } else {
                "("@ + f + " "@ + terms_text(args, args.len() as int) + ")"@
            }
        },
        TermV::Ite(c, a, b) => "(ite "@ + formula_text(*c) + " "@ + term_text(*a) + " "@ + term_text(*b) + ")"@,
        TermV::Match(s, _) => "(match "@ + term_text(*s) + " ...)"@,
        TermV::As(i, se) => "(as "@ + term_text(*i) + " "@ + sort_expr_text(se) + ")"@,
    }
}

/// The texts of `ts[0..n]`, separated by single spaces.
pub open spec fn terms_text(ts: Seq<TermV>, n: int) -> Seq<char>
    decreases ts, n,
{
    if n <= 0 || n > ts.len() {
        Seq::empty()
    } else if n == 1 {
        term_text(ts[0])
    } else {
        terms_text(ts, n - 1) + " "@ + term_text(ts[n - 1])
    }
}

/// How a formula is written.
pub open spec fn formula_text(f: FormulaV) -> Seq<char>
    decreases f, 0int,
{
    match f {
        FormulaV::True => "true"@,
        FormulaV::False => "false"@,
        FormulaV::Eq(a, b) => "(= "@ + term_text(a) + " "@ + term_text(b) + ")"@,
        FormulaV::Not(g) => "(not "@ + formula_text(*g) + ")"@,
        FormulaV::And(fs) => "(and "@ + formulas_text(fs, fs.len() as int) + ")"@,
        FormulaV::Or(fs) => "(or "@ + formulas_text(fs, fs.len() as int) + ")"@,
        FormulaV::Implies(a, b) => "(=> "@ + formula_text(*a) + " "@ + formula_text(*b) + ")"@,
        FormulaV::Ite(c, a, b) => "(ite "@ + formula_text(*c) + " "@ + formula_text(*a) + " "@ + formula_text(*b) + ")"@,
        FormulaV::IsTester(c, t) => "(is-"@ + c + " "@ + term_text(t) + ")"@,
    }
}

pub open spec fn formulas_text(fs: Seq<FormulaV>, n: int) -> Seq<char>
    decreases fs, n,
{
    if n <= 0 || n > fs.len() {
        Seq::empty()
    } else if n == 1 {
        formula_text(fs[0])
    } else {
        formulas_text(fs, n - 1) + " "@ + formula_text(fs[n - 1])
    }
}

/// Writes a term as an S-expression.
#[verifier::loop_isolation(false)]
pub fn format_term(term: &Term) -> (r: String)
    ensures r@ == term_text(term@),
    decreases term, 0int,
{
    match term {
        Term::Var(n) => n.clone(),
        Term::Int(i) => int_to_text(*i),
        Term::App(f, args) => {
            proof { lemma_terms_v(args@); }
            let ghost av = terms_v(args@);
            if args.len() == 0 {
                return f.clone();
            }
            let mut out = String::from_str("(");
            out.append(f.as_str());
            out.append(" ");
            let ghost head = out@;
            let mut i: usize = 0;
            while i < args.len()
                invariant
                    i <= args.len(),
                    av == terms_v(args@),
                    out@ == head + terms_text(av, i as int),
                decreases args.len() - i,
            {
                assert(av[i as int] == args@[i as int]@);
                let t = format_term(&args[i]);
                if i > 0 {
                    out.append(" ");
                }
                out.append(t.as_str());
                i += 1;
            }
            out.append(")");
            out
        },
        Term::Ite(c, a, b) => {
            let cs = format_formula(c);
            let at = format_term(a);
            let bt = format_term(b);
            let mut out = String::from_str("(ite ");
            out.append(cs.as_str());
            out.append(" ");
            out.append(at.as_str());
            out.append(" ");
            out.append(bt.as_str());
            out.append(")");
            out
        },
        Term::Match(s, _) => {
            let st = format_term(s);
            let mut out = String::from_str("(match ");
            out.append(st.as_str());
            out.append(" ...)");
            out
        },
        Term::As(inner, se) => {
            let it = format_term(inner);
            let sst = sort_expr_to_text(se);
            let mut out = String::from_str("(as ");
            out.append(it.as_str());
            out.append(" ");
            out.append(sst.as_str());
            out.append(")");
            out
        },
    }
}

/// Writes a formula as an S-expression.
#[verifier::loop_isolation(false)]
pub fn format_formula(f: &Formula) -> (r: String)
    ensures r@ == formula_text(f@),
    decreases f, 0int,
{
    match f {
        Formula::True => String::from_str("true"),
        Formula::False => String::from_str("false"),
        Formula::Eq(a, b) => {
            let at = format_term(a);
            let bt = format_term(b);
            let mut out = String::from_str("(= ");
            out.append(at.as_str());
            out.append(" ");
            out.append(bt.as_str());
            out.append(")");
            out
        },
        Formula::Not(g) => {
            let gt = format_formula(g);
            let mut out = String::from_str("(not ");
            out.append(gt.as_str());
            out.append(")");
            out
        },
        Formula::And(fs) | Formula::Or(fs) => {
            proof { lemma_formulas_v(fs@); }
            let ghost fv = formulas_v(fs@);
            let mut out = match f {
                Formula::And(_) => String::from_str("(and "),
                _ => String::from_str("(or "),
            };
            let ghost head = out@;
            let mut i: usize = 0;
            while i < fs.len()
                invariant
                    i <= fs.len(),
                    fv == formulas_v(fs@),
                    out@ == head + formulas_text(fv, i as int),
                decreases fs.len() - i,
            {
                assert(fv[i as int] == fs@[i as int]@);
                let t = format_formula(&fs[i]);
                if i > 0 {
                    out.append(" ");
                }
                out.append(t.as_str());
                i += 1;
            }
            out.append(")");
            out
        },
        Formula::Implies(a, b) => {
            let at = format_formula(a);
            let bt = format_formula(b);
            let mut out = String::from_str("(=> ");
            out.append(at.as_str());
            out.append(" ");
            out.append(bt.as_str());
            out.append(")");
            out
        },
        Formula::Ite(c, a, b) => {
            let ct = format_formula(c);
            let at = format_formula(a);
            let bt = format_formula(b);
            let mut out = String::from_str("(ite ");
            out.append(ct.as_str());
            out.append(" ");
            out.append(at.as_str());
            out.append(" ");
            out.append(bt.as_str());
            out.append(")");
            out
        },
        Formula::IsTester(c, t) => {
            let tt = format_term(t);
            let mut out = String::from_str("(is-");
            out.append(c.as_str());
            out.append(" ");
            out.append(tt.as_str());
            out.append(")");
            out
        },
    }
}

} // verus!
