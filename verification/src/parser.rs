//! From S-expressions to commands, formulas and terms.
use vstd::prelude::*;
use vstd::string::StringExecFns;
use crate::sexp::{SExp, SExpV, sexps_v, lemma_sexps_v, parse_all_sexps};
use crate::ast::{
    SortExpr, FieldDecl, ConstructorDecl, Term, Formula, MatchCase, MatchPattern, TermV, FormulaV,
    sort_exprs_v, field_v, fields_v, ctor_v, ctors_v, strs_v, terms_v, formula_v, formulas_v,
    cases_v, clone_term, Command, DatatypeDecl, Program, CommandV, datatype_v, datatypes_v,
    command_v, commands_v,
};
use crate::ast::{SortExprV, FieldDeclV, ConstructorDeclV, DatatypeDeclV, MatchCaseV};
use crate::grammar::{
    sexp_debug_text, atom_spec, sort_spec, sorts_from, field_spec, fields_from, constructor_spec,
    ctors_from, constructors_spec, atoms_from, datatype_body_spec, sort_decl_spec, pairs_from,
    term_spec, formula_spec, match_case_spec, match_pattern_spec, terms_from, formulas_from,
    cases_from, distinct_spec, distinct_rows, distinct_row, declare_datatypes_spec,
    declare_datatype_spec, declare_const_spec, declare_fun_spec, command_spec, commands_from,
    program_spec, count_arg_spec, lemma_sorts_from_stop, lemma_fields_from_stop,
    lemma_ctors_from_stop, lemma_atoms_from_stop, lemma_pairs_from_stop, lemma_terms_from_stop,
    lemma_formulas_from_stop, lemma_cases_from_stop, lemma_commands_from_stop,
    lemma_terms_from_len, bool_term_formula, known_command, acted_names, skipped_names,
};
use crate::text::{concat2, join6, text_is, parse_usize_text, parse_i64_text, chars_of, string_of_chars, usize_to_text};

verus! {

/// The derived `Debug` text of an S-expression, used in error messages.
#[verifier::external_body]
fn debug_text(e: &SExp) -> (r: String)
    ensures r@ == sexp_debug_text(e@),
{
    format!("{:?}", e)
}

/// An error message made of a fixed prefix and the `Debug` text of the offending expression.
fn err_with(prefix: &str, e: &SExp) -> (r: String)
    ensures r@ == prefix@ + sexp_debug_text(e@),
{
    let d = debug_text(e);
    concat2(prefix, d.as_str())
}

/// The text of an atom.
pub fn atom(sexp: &SExp) -> (res: Result<&str, String>)
    ensures
        match atom_spec(sexp@) {
            Ok(s) => res matches Ok(r) && r@ == s,
            Err(m) => res matches Err(e) && e@ == m,
        },
{
    match sexp {
        SExp::Atom(s) => Ok(s.as_str()),
        SExp::List(_) => Err(err_with("expected atom, got ", sexp)),
    }
}

/// The atoms `xs[start..]`.
#[verifier::loop_isolation(false)]
fn parse_atoms(xs: &Vec<SExp>, start: usize) -> (res: Result<Vec<String>, String>)
    requires start <= xs.len(),
    ensures
        match atoms_from(sexps_v(xs@), start as int, xs.len() as int) {
            Ok(v) => res matches Ok(r) && strs_v(r@) == v,
            Err(m) => res matches Err(e) && e@ == m,
        },
{
    proof { lemma_sexps_v(xs@); }
    let ghost xv = sexps_v(xs@);
    let mut out: Vec<String> = Vec::new();
    assert(strs_v(out@) =~= Seq::<Seq<char>>::empty());
    let mut i: usize = start;
    while i < xs.len()
        invariant
            start <= i <= xs.len(),
            xv == sexps_v(xs@),
            xv.len() == xs.len(),
            atoms_from(xv, start as int, i as int) == Ok::<Seq<Seq<char>>, Seq<char>>(strs_v(out@)),
        decreases xs.len() - i,
    {
        assert(xv[i as int] == xs@[i as int]@);
        match atom(&xs[i]) {
            Ok(a) => {
                let ghost old_out = out@;
                out.push(a.to_owned());
                assert(strs_v(out@) =~= strs_v(old_out).push(a@));
            },
            Err(e) => {
                proof { lemma_atoms_from_stop(xv, start as int, i + 1, xv.len() as int); }
                return Err(e);
            },
        }
        i += 1;
    }
    Ok(out)
}

/// A sort expression: an atom, or `(Name Sort ...)`.
#[verifier::loop_isolation(false)]
pub fn parse_sort(sexp: &SExp) -> (res: Result<SortExpr, String>)
    ensures
        match sort_spec(sexp@) {
            Ok(v) => res matches Ok(r) && r@ == v,
            Err(m) => res matches Err(e) && e@ == m,
        },
    decreases sexp,
{
    match sexp {
        SExp::Atom(s) => Ok(SortExpr::Simple(s.clone())),
        SExp::List(xs) => {
            proof { lemma_sexps_v(xs@); }
            let ghost xv = sexps_v(xs@);
            assert(sexp@ == SExpV::List(xv));
            if xs.len() == 0 {
                return Err(err_with("invalid sort expression: ", sexp));
            }
            assert(xv[0] == xs@[0]@);
            let name = match atom(&xs[0]) {
                Ok(n) => n.to_owned(),
                Err(e) => { return Err(e); },
            };
            let mut args: Vec<SortExpr> = Vec::new();
            let mut i: usize = 1;
            while i < xs.len()
                invariant
                    1 <= i <= xs.len(),
                    xv == sexps_v(xs@),
                    xv.len() == xs.len(),
                    sorts_from(xv, 1, i as int) == Ok::<Seq<SortExprV>, Seq<char>>(sort_exprs_v(args@)),
                decreases xs.len() - i,
            {
                assert(xv[i as int] == xs@[i as int]@);
                match parse_sort(&xs[i]) {
                    Ok(a) => {
                        let ghost old_args = args@;
                        args.push(a);
                        assert(args@.drop_last() == old_args);
                    },
                    Err(e) => {
                        proof { lemma_sorts_from_stop(xv, 1, i + 1, xv.len() as int); }
                        return Err(e);
                    },
                }
                i += 1;
            }
            Ok(SortExpr::Parametric(name, args))
        },
    }
}

/// A field `(selector Sort)`.
pub fn parse_field(sexp: &SExp) -> (res: Result<FieldDecl, String>)
    ensures
        match field_spec(sexp@) {
            Ok(v) => res matches Ok(r) && field_v(r) == v,
            Err(m) => res matches Err(e) && e@ == m,
        },
{
    match sexp {
        SExp::List(xs) => {
            proof { lemma_sexps_v(xs@); }
            if xs.len() != 2 {
                return Err(String::from_str("invalid field declaration"));
            }
            assert(sexps_v(xs@)[0] == xs@[0]@);
            assert(sexps_v(xs@)[1] == xs@[1]@);
            let sel = match atom(&xs[0]) {
                Ok(n) => n.to_owned(),
                Err(e) => { return Err(e); },
            };
            let sort = match parse_sort(&xs[1]) {
                Ok(s) => s,
                Err(e) => { return Err(e); },
            };
            Ok(FieldDecl { selector: sel, sort })
        },
        SExp::Atom(_) => Err(String::from_str("invalid field declaration")),
    }
}

/// A constructor `(Name field ...)`.
#[verifier::loop_isolation(false)]
pub fn parse_constructor(sexp: &SExp) -> (res: Result<ConstructorDecl, String>)
    ensures
        match constructor_spec(sexp@) {
            Ok(v) => res matches Ok(r) && ctor_v(r) == v,
            Err(m) => res matches Err(e) && e@ == m,
        },
{
    match sexp {
        SExp::List(xs) => {
            proof { lemma_sexps_v(xs@); }
            let ghost xv = sexps_v(xs@);
            assert(sexp@ == SExpV::List(xv));
            if xs.len() == 0 {
                return Err(String::from_str("invalid constructor declaration"));
            }
            assert(xv[0] == xs@[0]@);
            let name = match atom(&xs[0]) {
                Ok(n) => n.to_owned(),
                Err(e) => { return Err(e); },
            };
            let mut fields: Vec<FieldDecl> = Vec::new();
            assert(fields_v(fields@) =~= Seq::<FieldDeclV>::empty());
            let mut i: usize = 1;
            while i < xs.len()
                invariant
                    1 <= i <= xs.len(),
                    xv == sexps_v(xs@),
                    xv.len() == xs.len(),
                    fields_from(xv, 1, i as int) == Ok::<Seq<FieldDeclV>, Seq<char>>(fields_v(fields@)),
                decreases xs.len() - i,
            {
                assert(xv[i as int] == xs@[i as int]@);
                match parse_field(&xs[i]) {
                    Ok(f) => {
                        let ghost old_fields = fields@;
                        fields.push(f);
                        assert(fields_v(fields@) =~= fields_v(old_fields).push(field_v(f)));
                    },
                    Err(e) => {
                        proof { lemma_fields_from_stop(xv, 1, i + 1, xv.len() as int); }
                        return Err(e);
                    },
                }
                i += 1;
            }
            Ok(ConstructorDecl { name, fields })
        },
        SExp::Atom(_) => Err(String::from_str("invalid constructor declaration")),
    }
}

/// A list of constructors.
#[verifier::loop_isolation(false)]
pub fn parse_constructors(sexp: &SExp) -> (res: Result<Vec<ConstructorDecl>, String>)
    ensures
        match constructors_spec(sexp@) {
            Ok(v) => res matches Ok(r) && ctors_v(r@) == v,
            Err(m) => res matches Err(e) && e@ == m,
        },
{
    match sexp {
        SExp::List(xs) => {
            proof { lemma_sexps_v(xs@); }
            let ghost xv = sexps_v(xs@);
            assert(sexp@ == SExpV::List(xv));
            let mut ctors: Vec<ConstructorDecl> = Vec::new();
            assert(ctors_v(ctors@) =~= Seq::<ConstructorDeclV>::empty());
            let mut i: usize = 0;
            while i < xs.len()
                invariant
                    0 <= i <= xs.len(),
                    xv == sexps_v(xs@),
                    xv.len() == xs.len(),
                    ctors_from(xv, i as int) == Ok::<Seq<ConstructorDeclV>, Seq<char>>(ctors_v(ctors@)),
                decreases xs.len() - i,
            {
                assert(xv[i as int] == xs@[i as int]@);
                match parse_constructor(&xs[i]) {
                    Ok(c) => {
                        let ghost old_ctors = ctors@;
                        let ghost cv = ctor_v(c);
                        ctors.push(c);
                        assert(ctors_v(ctors@) =~= ctors_v(old_ctors).push(cv));
                    },
                    Err(e) => {
                        proof { lemma_ctors_from_stop(xv, i + 1, xv.len() as int); }
                        return Err(e);
                    },
                }
                i += 1;
            }
            Ok(ctors)
        },
        SExp::Atom(_) => Err(String::from_str("expected constructor list")),
    }
}

/// A datatype body: `(par (T ...) (ctors))` or `(ctors)`.
pub fn parse_datatype_body(sexp: &SExp) -> (res: Result<(Vec<String>, Vec<ConstructorDecl>), String>)
    ensures
        match datatype_body_spec(sexp@) {
            Ok((tps, cs)) => res matches Ok(r) && strs_v(r.0@) == tps && ctors_v(r.1@) == cs,
            Err(m) => res matches Err(e) && e@ == m,
        },
{
    match sexp {
        SExp::List(xs) => {
            proof { lemma_sexps_v(xs@); }
            let ghost xv = sexps_v(xs@);
            assert(sexp@ == SExpV::List(xv));
            if xs.len() == 0 {
                return Err(String::from_str("invalid datatype body"));
            }
            assert(xv[0] == xs@[0]@);
            let is_par = match &xs[0] {
                SExp::Atom(s) => text_is(s, "par"),
                SExp::List(_) => false,
            };
            if is_par {
                if xs.len() != 3 {
                    return Err(String::from_str("par expects 2 arguments: type params and constructor list"));
                }
                assert(xv[1] == xs@[1]@);
                assert(xv[2] == xs@[2]@);
                let params = match &xs[1] {
                    SExp::List(ps) => {
                        proof { lemma_sexps_v(ps@); }
                        match parse_atoms(ps, 0) {
                            Ok(v) => v,
                            Err(e) => { return Err(e); },
                        }
                    },
                    SExp::Atom(_) => {
                        return Err(String::from_str("par: expected list of type parameters"));
                    },
                };
                let ctors = match parse_constructors(&xs[2]) {
                    Ok(c) => c,
                    Err(e) => { return Err(e); },
                };
                return Ok((params, ctors));
            }
            let ctors = match parse_constructors(sexp) {
                Ok(c) => c,
                Err(e) => { return Err(e); },
            };
            let no_params: Vec<String> = Vec::new();
            assert(strs_v(no_params@) =~= Seq::<Seq<char>>::empty());
            Ok((no_params, ctors))
        },
        SExp::Atom(_) => Err(String::from_str("invalid datatype body")),
    }
}

/// `(Name arity)` of `declare-datatypes`.
pub fn parse_sort_decl(sexp: &SExp) -> (res: Result<(String, usize), String>)
    ensures
        match sort_decl_spec(sexp@) {
            Ok((n, a)) => res matches Ok(r) && r.0@ == n && r.1 as nat == a,
            Err(m) => res matches Err(e) && e@ == m,
        },
{
    match sexp {
        SExp::List(xs) => {
            proof { lemma_sexps_v(xs@); }
            let ghost xv = sexps_v(xs@);
            if xs.len() != 2 {
                return Err(String::from_str("invalid sort declaration"));
            }
            assert(xv[0] == xs@[0]@);
            assert(xv[1] == xs@[1]@);
            let name = match atom(&xs[0]) {
                Ok(n) => n.to_owned(),
                Err(e) => { return Err(e); },
            };
            let a = match atom(&xs[1]) {
                Ok(a) => a.to_owned(),
                Err(e) => { return Err(e); },
            };
            match parse_usize_text(&a) {
                Some(n) => Ok((name, n)),
                None => Err(String::from_str("invalid datatype arity")),
            }
        },
        SExp::Atom(_) => Err(String::from_str("invalid sort declaration")),
    }
}

/// A match pattern: an atom, or `(Ctor var ...)`.
pub fn parse_match_pattern(sexp: &SExp) -> (res: Result<MatchPattern, String>)
    ensures
        match match_pattern_spec(sexp@) {
            Ok(v) => res matches Ok(r) && r@ == v,
            Err(m) => res matches Err(e) && e@ == m,
        },
{
    match sexp {
        SExp::Atom(name) => Ok(MatchPattern::Atom(name.clone())),
        SExp::List(xs) => {
            proof { lemma_sexps_v(xs@); }
            let ghost xv = sexps_v(xs@);
            assert(sexp@ == SExpV::List(xv));
            if xs.len() == 0 {
                return Err(err_with("invalid match pattern: ", sexp));
            }
            assert(xv[0] == xs@[0]@);
            let ctor = match atom(&xs[0]) {
                Ok(n) => n.to_owned(),
                Err(e) => { return Err(e); },
            };
            let vars = match parse_atoms(xs, 1) {
                Ok(v) => v,
                Err(e) => { return Err(e); },
            };
            Ok(MatchPattern::Constructor(ctor, vars))
        },
    }
}

/// A match case `(pattern body)`.
pub fn parse_match_case(sexp: &SExp) -> (res: Result<MatchCase, String>)
    ensures
        match match_case_spec(sexp@) {
            Ok(v) => res matches Ok(r) && r@ == v,
            Err(m) => res matches Err(e) && e@ == m,
        },
    decreases sexp, 0int,
{
    match sexp {
        SExp::List(xs) => {
            proof { lemma_sexps_v(xs@); }
            let ghost xv = sexps_v(xs@);
            assert(sexp@ == SExpV::List(xv));
            if xs.len() != 2 {
                return Err(err_with("invalid match case (expected 2-element list): ", sexp));
            }
            assert(xv[0] == xs@[0]@);
            assert(xv[1] == xs@[1]@);
            let pattern = match parse_match_pattern(&xs[0]) {
                Ok(p) => p,
                Err(e) => { return Err(e); },
            };
            let body = match parse_term(&xs[1]) {
                Ok(b) => b,
                Err(e) => { return Err(e); },
            };
            Ok(MatchCase { pattern, body })
        },
        SExp::Atom(_) => Err(err_with("invalid match case (expected 2-element list): ", sexp)),
    }
}

/// The text after a leading `is-`, when there is one.
fn strip_tester_prefix(op: &String) -> (r: Option<String>)
    ensures
        match r {
            Some(c) => op@.len() >= 3 && op@.take(3) == "is-"@ && c@ == op@.skip(3),
            None => !(op@.len() >= 3 && op@.take(3) == "is-"@),
        },
{
    proof { reveal_strlit("is-"); }
    let cs = chars_of(op.as_str());
    if cs.len() >= 3 && cs[0] == 'i' && cs[1] == 's' && cs[2] == '-' {
        assert(cs@.take(3) =~= "is-"@);
        let mut rest: Vec<char> = Vec::new();
        let mut i: usize = 3;
        while i < cs.len()
            invariant
                3 <= i <= cs.len(),
                rest@ == cs@.subrange(3, i as int),
            decreases cs.len() - i,
        {
            rest.push(cs[i]);
            i += 1;
        }
        assert(rest@ =~= cs@.skip(3));
        Some(string_of_chars(&rest))
    } else {
        proof {
            if op@.len() >= 3 && op@.take(3) == "is-"@ {
                assert(op@.take(3)[0] == 'i');
                assert(op@.take(3)[1] == 's');
                assert(op@.take(3)[2] == '-');
            }
        }
        None
    }
}

/// The terms `xs[start..]`.
#[verifier::loop_isolation(false)]
fn parse_terms_from(xs: &Vec<SExp>, start: usize) -> (res: Result<Vec<Term>, String>)
    requires 1 <= start <= xs.len(),
    ensures
        match terms_from(sexps_v(xs@), start as int, xs.len() as int) {
            Ok(v) => res matches Ok(r) && terms_v(r@) == v,
            Err(m) => res matches Err(e) && e@ == m,
        },
    decreases xs, 0int,
{
    proof { lemma_sexps_v(xs@); }
    let ghost xv = sexps_v(xs@);
    let mut args: Vec<Term> = Vec::new();
    let mut i: usize = start;
    while i < xs.len()
        invariant
            start <= i <= xs.len(),
            xv == sexps_v(xs@),
            xv.len() == xs.len(),
            terms_from(xv, start as int, i as int) == Ok::<Seq<TermV>, Seq<char>>(terms_v(args@)),
        decreases xs.len() - i,
    {
        assert(xv[i as int] == xs@[i as int]@);
        assert(decreases_to!(xs => xs@[i as int]));
        match parse_term(&xs[i]) {
            Ok(a) => {
                let ghost old_args = args@;
                args.push(a);
                assert(args@.drop_last() == old_args);
            },
            Err(e) => {
                proof { lemma_terms_from_stop(xv, start as int, i + 1, xv.len() as int); }
                return Err(e);
            },
        }
        i += 1;
    }
    Ok(args)
}

/// A term.
#[verifier::loop_isolation(false)]
#[verifier::rlimit(40)]
pub fn parse_term(sexp: &SExp) -> (res: Result<Term, String>)
    ensures
        match term_spec(sexp@) {
            Ok(v) => res matches Ok(r) && r@ == v,
            Err(m) => res matches Err(e) && e@ == m,
        },
    decreases sexp, 1int,
{
    match sexp {
        SExp::Atom(s) => {
            match parse_i64_text(s) {
                Some(n) => Ok(Term::Int(n)),
                None => Ok(Term::Var(s.clone())),
            }
        },
        SExp::List(xs) => {
            proof { lemma_sexps_v(xs@); }
            let ghost xv = sexps_v(xs@);
            assert(sexp@ == SExpV::List(xv));
            if xs.len() == 0 {
                return Err(err_with("invalid term: ", sexp));
            }
            assert(xv[0] == xs@[0]@);
            match &xs[0] {
                SExp::List(inner) => {
                    proof { lemma_sexps_v(inner@); }
                    let ghost iv = sexps_v(inner@);
                    assert(xv[0] == SExpV::List(iv));
                    if inner.len() == 3 {
                        assert(iv[0] == inner@[0]@);
                        assert(iv[1] == inner@[1]@);
                        assert(iv[2] == inner@[2]@);
                        let is_as = match &inner[0] {
                            SExp::Atom(a) => text_is(a, "as"),
                            SExp::List(_) => false,
                        };
                        if is_as {
                            let func_name = match atom(&inner[1]) {
                                Ok(n) => n.to_owned(),
                                Err(e) => { return Err(e); },
                            };
                            let sort = match parse_sort(&inner[2]) {
                                Ok(s) => s,
                                Err(e) => { return Err(e); },
                            };
                            let args = match parse_terms_from(xs, 1) {
                                Ok(a) => a,
                                Err(e) => { return Err(e); },
                            };
                            proof { lemma_terms_from_len(xv, 1, xv.len() as int); }
                            let head = if args.len() == 0 {
                                Term::Var(func_name)
                            } else {
                                Term::App(func_name, args)
                            };
                            let ghost hv = head@;
                            let r = Term::As(Box::new(head), sort);
                            assert(r@ == TermV::As(Box::new(hv), sort@));
                            return Ok(r);
                        }
                    }
                    Err(err_with("invalid term: ", sexp))
                },
                SExp::Atom(f) => {
                    if text_is(f, "as") {
                        if xs.len() != 3 {
                            return Err(String::from_str("as expects exactly 2 arguments: term and sort"));
                        }
                        assert(xv[1] == xs@[1]@);
                        assert(xv[2] == xs@[2]@);
                        let inner = match parse_term(&xs[1]) {
                            Ok(t) => t,
                            Err(e) => { return Err(e); },
                        };
                        let sort = match parse_sort(&xs[2]) {
                            Ok(s) => s,
                            Err(e) => { return Err(e); },
                        };
                        return Ok(Term::As(Box::new(inner), sort));
                    }
                    if text_is(f, "ite") {
                        if xs.len() != 4 {
                            return Err(String::from_str("ite expects exactly 3 arguments"));
                        }
                        assert(xv[1] == xs@[1]@);
                        assert(xv[2] == xs@[2]@);
                        assert(xv[3] == xs@[3]@);
                        let c = match parse_formula(&xs[1]) {
                            Ok(c) => c,
                            Err(e) => { return Err(e); },
                        };
                        let t = match parse_term(&xs[2]) {
                            Ok(t) => t,
                            Err(e) => { return Err(e); },
                        };
                        let el = match parse_term(&xs[3]) {
                            Ok(t) => t,
                            Err(e) => { return Err(e); },
                        };
                        return Ok(Term::Ite(Box::new(c), Box::new(t), Box::new(el)));
                    }
                    if text_is(f, "match") {
                        if xs.len() < 3 {
                            return Err(String::from_str("match expects a scrutinee and at least one case"));
                        }
                        assert(xv[1] == xs@[1]@);
                        let scrutinee = match parse_term(&xs[1]) {
                            Ok(t) => t,
                            Err(e) => { return Err(e); },
                        };
                        let mut cases: Vec<MatchCase> = Vec::new();
                        let mut i: usize = 2;
                        while i < xs.len()
                            invariant
                                2 <= i <= xs.len(),
                                cases_from(xv, 2, i as int) == Ok::<Seq<MatchCaseV>, Seq<char>>(cases_v(cases@)),
                            decreases xs.len() - i,
                        {
                            assert(xv[i as int] == xs@[i as int]@);
                            match parse_match_case(&xs[i]) {
                                Ok(c) => {
                                    let ghost old_cases = cases@;
                                    cases.push(c);
                                    assert(cases@.drop_last() == old_cases);
                                },
                                Err(e) => {
                                    proof { lemma_cases_from_stop(xv, 2, i + 1, xv.len() as int); }
                                    return Err(e);
                                },
                            }
                            i += 1;
                        }
                        return Ok(Term::Match(Box::new(scrutinee), cases));
                    }
                    let args = match parse_terms_from(xs, 1) {
                        Ok(a) => a,
                        Err(e) => { return Err(e); },
                    };
                    Ok(Term::App(f.clone(), args))
                },
            }
        },
    }
}

/// The term `true`, which a Boolean term is equated with when it stands as a formula.
fn var_true_term() -> (t: Term)
    ensures t@ == TermV::Var("true"@),
{
    Term::Var(String::from_str("true"))
}

/// The pairwise disequalities of `(distinct t1 ... tn)`.
fn distinct_formula(ts: &Vec<Term>) -> (f: Formula)
    requires ts.len() >= 2,
    ensures f@ == distinct_spec(terms_v(ts@)),
{
    let ghost tv = terms_v(ts@);
    proof { crate::ast::lemma_terms_v(ts@); }
    let mut neqs: Vec<Formula> = Vec::new();
    let n = ts.len();
    let mut i: usize = 0;
    while i < n
        invariant
            0 <= i <= n,
            n == ts.len(),
            tv == terms_v(ts@),
            tv.len() == n,
            forall|j: int| 0 <= j < n ==> #[trigger] tv[j] == ts@[j]@,
            formulas_v(neqs@) == distinct_rows(tv, i as int),
        decreases n - i,
    {
        let mut j: usize = i + 1;
        while j < n
            invariant
                i < n,
                i + 1 <= j <= n,
                n == ts.len(),
                tv == terms_v(ts@),
                tv.len() == n,
                forall|k: int| 0 <= k < n ==> #[trigger] tv[k] == ts@[k]@,
                formulas_v(neqs@) == distinct_rows(tv, i as int) + distinct_row(tv, i as int).take(j - i - 1),
            decreases n - j,
        {
            let a = clone_term(&ts[i]);
            let b = clone_term(&ts[j]);
            let ghost old_neqs = neqs@;
            let eq = Formula::Eq(a, b);
            assert(eq@ == FormulaV::Eq(tv[i as int], tv[j as int]));
            let ghost eqv = eq@;
            let nf = Formula::Not(Box::new(eq));
            assert(nf@ == FormulaV::Not(Box::new(eqv)));
            neqs.push(nf);
            assert(neqs@.drop_last() == old_neqs);
            assert(formulas_v(neqs@) == formulas_v(old_neqs).push(formula_v(neqs@.last())));
            assert(distinct_row(tv, i as int).take(j - i) == distinct_row(tv, i as int).take(j - i - 1).push(
                FormulaV::Not(Box::new(FormulaV::Eq(tv[i as int], tv[j as int])))));
            assert(formulas_v(neqs@) =~= distinct_rows(tv, i as int) + distinct_row(tv, i as int).take(j - i));
            j += 1;
        }
        assert(distinct_row(tv, i as int).take(n - i - 1) == distinct_row(tv, i as int));
        i += 1;
    }
    proof { crate::ast::lemma_formulas_v(neqs@); }
    if neqs.len() == 1 {
        let f = neqs.pop().unwrap();
        f
    } else {
        Formula::And(neqs)
    }
}

/// A formula.
#[verifier::loop_isolation(false)]
#[verifier::rlimit(40)]
pub fn parse_formula(sexp: &SExp) -> (res: Result<Formula, String>)
    ensures
        match formula_spec(sexp@) {
            Ok(v) => res matches Ok(r) && r@ == v,
            Err(m) => res matches Err(e) && e@ == m,
        },
    decreases sexp, 2int,
{
    match sexp {
        SExp::Atom(s) => {
            if text_is(s, "true") {
                Ok(Formula::True)
            } else if text_is(s, "false") {
                Ok(Formula::False)
            } else {
                assert(formula_spec(sexp@) == bool_term_formula(sexp@));
                match parse_term(sexp) {
                    Ok(t) => Ok(Formula::Eq(t, var_true_term())),
                    Err(e) => Err(e),
                }
            }
        },
        SExp::List(xs) => {
            proof { lemma_sexps_v(xs@); }
            let ghost xv = sexps_v(xs@);
            assert(sexp@ == SExpV::List(xv));
            if xs.len() == 0 {
                return Err(err_with("invalid formula: ", sexp));
            }
            assert(xv[0] == xs@[0]@);
            let op = match &xs[0] {
                SExp::Atom(op) => op,
                SExp::List(_) => {
                    return Err(err_with("invalid formula: expected operator, got ", sexp));
                },
            };
            if text_is(op, "=") {
                if xs.len() != 3 {
                    return Err(String::from_str("= expects exactly 2 arguments"));
                }
                assert(xv[1] == xs@[1]@);
                assert(xv[2] == xs@[2]@);
                let a = match parse_term(&xs[1]) {
                    Ok(t) => t,
                    Err(e) => { return Err(e); },
                };
                let b = match parse_term(&xs[2]) {
                    Ok(t) => t,
                    Err(e) => { return Err(e); },
                };
                return Ok(Formula::Eq(a, b));
            }
            if text_is(op, "distinct") {
                if xs.len() < 3 {
                    return Err(String::from_str("distinct expects at least 2 arguments"));
                }
                let ts = match parse_terms_from(xs, 1) {
                    Ok(a) => a,
                    Err(e) => { return Err(e); },
                };
                proof {
                    lemma_terms_from_len(xv, 1, xv.len() as int);
                    crate::ast::lemma_terms_v(ts@);
                }
                return Ok(distinct_formula(&ts));
            }
            if text_is(op, "not") {
                if xs.len() != 2 {
                    return Err(String::from_str("not expects exactly 1 argument"));
                }
                assert(xv[1] == xs@[1]@);
                let f = match parse_formula(&xs[1]) {
                    Ok(f) => f,
                    Err(e) => { return Err(e); },
                };
                return Ok(Formula::Not(Box::new(f)));
            }
            let is_and = text_is(op, "and");
            let is_or = text_is(op, "or");
            if is_and || is_or {
                if xs.len() < 3 {
                    if is_and {
                        return Err(String::from_str("and expects at least 2 arguments"));
                    } else {
                        return Err(String::from_str("or expects at least 2 arguments"));
                    }
                }
                let mut fs: Vec<Formula> = Vec::new();
                let mut i: usize = 1;
                while i < xs.len()
                    invariant
                        1 <= i <= xs.len(),
                        formulas_from(xv, 1, i as int) == Ok::<Seq<FormulaV>, Seq<char>>(formulas_v(fs@)),
                    decreases xs.len() - i,
                {
                    assert(xv[i as int] == xs@[i as int]@);
                    match parse_formula(&xs[i]) {
                        Ok(a) => {
                            let ghost old_fs = fs@;
                            fs.push(a);
                            assert(fs@.drop_last() == old_fs);
                        },
                        Err(e) => {
                            proof { lemma_formulas_from_stop(xv, 1, i + 1, xv.len() as int); }
                            return Err(e);
                        },
                    }
                    i += 1;
                }
                if is_and {
                    return Ok(Formula::And(fs));
                } else {
                    return Ok(Formula::Or(fs));
                }
            }
            if text_is(op, "=>") {
                if xs.len() != 3 {
                    return Err(String::from_str("=> expects exactly 2 arguments"));
                }
                assert(xv[1] == xs@[1]@);
                assert(xv[2] == xs@[2]@);
                let a = match parse_formula(&xs[1]) {
                    Ok(f) => f,
                    Err(e) => { return Err(e); },
                };
                let b = match parse_formula(&xs[2]) {
                    Ok(f) => f,
                    Err(e) => { return Err(e); },
                };
                return Ok(Formula::Implies(Box::new(a), Box::new(b)));
            }
            if text_is(op, "ite") {
                if xs.len() != 4 {
                    return Err(String::from_str("ite expects exactly 3 arguments"));
                }
                assert(xv[1] == xs@[1]@);
                assert(xv[2] == xs@[2]@);
                assert(xv[3] == xs@[3]@);
                let c = match parse_formula(&xs[1]) {
                    Ok(f) => f,
                    Err(e) => { return Err(e); },
                };
                let t = match parse_formula(&xs[2]) {
                    Ok(f) => f,
                    Err(e) => { return Err(e); },
                };
                let el = match parse_formula(&xs[3]) {
                    Ok(f) => f,
                    Err(e) => { return Err(e); },
                };
                return Ok(Formula::Ite(Box::new(c), Box::new(t), Box::new(el)));
            }
            if xs.len() == 2 {
                match strip_tester_prefix(op) {
                    Some(ctor_name) => {
                        assert(xv[1] == xs@[1]@);
                        let t = match parse_term(&xs[1]) {
                            Ok(t) => t,
                            Err(e) => { return Err(e); },
                        };
                        return Ok(Formula::IsTester(ctor_name, t));
                    },
                    None => {},
                }
            }
            assert(formula_spec(sexp@) == bool_term_formula(sexp@));
            match parse_term(sexp) {
                Ok(t) => Ok(Formula::Eq(t, var_true_term())),
                Err(e) => Err(e),
            }
        },
    }
}

/// `(declare-datatypes ((Name arity) ...) (body ...))`.
#[verifier::loop_isolation(false)]
pub fn parse_declare_datatypes(items: &[SExp]) -> (res: Result<Command, String>)
    ensures
        match declare_datatypes_spec(sexps_v(items@)) {
            Ok(v) => res matches Ok(r) && r@ == v,
            Err(m) => res matches Err(e) && e@ == m,
        },
{
    proof { lemma_sexps_v(items@); }
    let ghost iv = sexps_v(items@);
    if items.len() != 3 {
        return Err(String::from_str("declare-datatypes expects 2 arguments"));
    }
    assert(iv[1] == items@[1]@);
    assert(iv[2] == items@[2]@);
    let sort_decls = match &items[1] {
        SExp::List(xs) => xs,
        SExp::Atom(_) => { return Err(String::from_str("expected sort declaration list")); },
    };
    let bodies = match &items[2] {
        SExp::List(xs) => xs,
        SExp::Atom(_) => { return Err(String::from_str("expected datatype body list")); },
    };
    proof { lemma_sexps_v(sort_decls@); lemma_sexps_v(bodies@); }
    let ghost sv = sexps_v(sort_decls@);
    let ghost bv = sexps_v(bodies@);
    if sort_decls.len() != bodies.len() {
        return Err(String::from_str("sort decl count != datatype body count"));
    }
    let mut dts: Vec<DatatypeDecl> = Vec::new();
    assert(datatypes_v(dts@) =~= Seq::<DatatypeDeclV>::empty());
    let mut i: usize = 0;
    while i < sort_decls.len()
        invariant
            0 <= i <= sort_decls.len(),
            sort_decls.len() == bodies.len(),
            sv == sexps_v(sort_decls@),
            bv == sexps_v(bodies@),
            sv.len() == sort_decls.len(),
            bv.len() == bodies.len(),
            pairs_from(sv, bv, i as int) == Ok::<Seq<DatatypeDeclV>, Seq<char>>(datatypes_v(dts@)),
        decreases sort_decls.len() - i,
    {
        assert(sv[i as int] == sort_decls@[i as int]@);
        assert(bv[i as int] == bodies@[i as int]@);
        let (name, arity) = match parse_sort_decl(&sort_decls[i]) {
            Ok(p) => p,
            Err(e) => {
                proof { lemma_pairs_from_stop(sv, bv, i + 1, sv.len() as int); }
                return Err(e);
            },
        };
        let (type_params, constructors) = match parse_datatype_body(&bodies[i]) {
            Ok(p) => p,
            Err(e) => {
                proof { lemma_pairs_from_stop(sv, bv, i + 1, sv.len() as int); }
                return Err(e);
            },
        };
        if type_params.len() != 0 && type_params.len() != arity {
            let a = usize_to_text(type_params.len());
            let b = usize_to_text(arity);
            let m = join6("par 参数数量 (", a.as_str(), ") 与声明的 arity (", b.as_str(), ") 不匹配: ", name.as_str());
            proof { lemma_pairs_from_stop(sv, bv, i + 1, sv.len() as int); }
            return Err(m);
        }
        let ghost old_dts = dts@;
        let d = DatatypeDecl { name, arity, type_params, constructors };
        let ghost dv = datatype_v(d);
        dts.push(d);
        assert(datatypes_v(dts@) =~= datatypes_v(old_dts).push(dv));
        i += 1;
    }
    Ok(Command::DeclareDatatypes(dts))
}

/// `(declare-datatype Name body)`.
pub fn parse_declare_datatype(items: &[SExp]) -> (res: Result<Command, String>)
    ensures
        match declare_datatype_spec(sexps_v(items@)) {
            Ok(v) => res matches Ok(r) && r@ == v,
            Err(m) => res matches Err(e) && e@ == m,
        },
{
    proof { lemma_sexps_v(items@); }
    let ghost iv = sexps_v(items@);
    if items.len() != 3 {
        return Err(String::from_str("declare-datatype expects 2 arguments: name and constructor list"));
    }
    assert(iv[1] == items@[1]@);
    assert(iv[2] == items@[2]@);
    let name = match atom(&items[1]) {
        Ok(n) => n.to_owned(),
        Err(e) => { return Err(e); },
    };
    let (type_params, constructors) = match parse_datatype_body(&items[2]) {
        Ok(p) => p,
        Err(e) => { return Err(e); },
    };
    let arity = type_params.len();
    let mut dts: Vec<DatatypeDecl> = Vec::new();
    dts.push(DatatypeDecl { name, arity, type_params, constructors });
    assert(datatypes_v(dts@) =~= seq![datatype_v(dts@[0])]);
    Ok(Command::DeclareDatatypes(dts))
}

/// `(declare-const name Sort)`.
pub fn parse_declare_const(items: &[SExp]) -> (res: Result<Command, String>)
    ensures
        match declare_const_spec(sexps_v(items@)) {
            Ok(v) => res matches Ok(r) && r@ == v,
            Err(m) => res matches Err(e) && e@ == m,
        },
{
    proof { lemma_sexps_v(items@); }
    let ghost iv = sexps_v(items@);
    if items.len() != 3 {
        return Err(String::from_str("declare-const expects 2 arguments: name and sort"));
    }
    assert(iv[1] == items@[1]@);
    assert(iv[2] == items@[2]@);
    let name = match atom(&items[1]) {
        Ok(n) => n.to_owned(),
        Err(e) => { return Err(e); },
    };
    let sort = match parse_sort(&items[2]) {
        Ok(s) => s,
        Err(e) => { return Err(e); },
    };
    Ok(Command::DeclareConst(name, sort))
}

/// `(declare-fun name (Sort ...) Sort)`.
#[verifier::loop_isolation(false)]
pub fn parse_declare_fun(items: &[SExp]) -> (res: Result<Command, String>)
    ensures
        match declare_fun_spec(sexps_v(items@)) {
            Ok(v) => res matches Ok(r) && r@ == v,
            Err(m) => res matches Err(e) && e@ == m,
        },
{
    proof { lemma_sexps_v(items@); }
    let ghost iv = sexps_v(items@);
    if items.len() != 4 {
        return Err(String::from_str("declare-fun expects 3 arguments: name, arg sorts, and return sort"));
    }
    assert(iv[1] == items@[1]@);
    assert(iv[2] == items@[2]@);
    assert(iv[3] == items@[3]@);
    let name = match atom(&items[1]) {
        Ok(n) => n.to_owned(),
        Err(e) => { return Err(e); },
    };
    let arg_sorts = match &items[2] {
        SExp::List(xs) => {
            proof { lemma_sexps_v(xs@); }
            let ghost xv = sexps_v(xs@);
            let mut sorts: Vec<SortExpr> = Vec::new();
            let mut i: usize = 0;
            while i < xs.len()
                invariant
                    0 <= i <= xs.len(),
                    xv == sexps_v(xs@),
                    xv.len() == xs.len(),
                    sorts_from(xv, 0, i as int) == Ok::<Seq<SortExprV>, Seq<char>>(sort_exprs_v(sorts@)),
                decreases xs.len() - i,
            {
                assert(xv[i as int] == xs@[i as int]@);
                match parse_sort(&xs[i]) {
                    Ok(srt) => {
                        let ghost old_sorts = sorts@;
                        sorts.push(srt);
                        assert(sorts@.drop_last() == old_sorts);
                    },
                    Err(e) => {
                        proof { lemma_sorts_from_stop(xv, 0, i + 1, xv.len() as int); }
                        return Err(e);
                    },
                }
                i += 1;
            }
            sorts
        },
        SExp::Atom(_) => {
            return Err(String::from_str("declare-fun: expected a list of argument sorts"));
        },
    };
    let ret_sort = match parse_sort(&items[3]) {
        Ok(s) => s,
        Err(e) => { return Err(e); },
    };
    Ok(Command::DeclareFun(name, arg_sorts, ret_sort))
}

/// The count argument of `push` / `pop`: the numeral after the name, 1 when there is none.
fn parse_count(items: &Vec<SExp>, msg: &str) -> (res: Result<usize, String>)
    ensures
        match count_arg_spec(sexps_v(items@), msg@) {
            Ok(n) => res matches Ok(r) && r as nat == n,
            Err(m) => res matches Err(e) && e@ == m,
        },
{
    proof { lemma_sexps_v(items@); }
    if items.len() > 1 {
        assert(sexps_v(items@)[1] == items@[1]@);
        let a = match atom(&items[1]) {
            Ok(a) => a.to_owned(),
            Err(e) => { return Err(e); },
        };
        match parse_usize_text(&a) {
            Some(n) => Ok(n),
            None => Err(String::from_str(msg)),
        }
    } else {
        Ok(1)
    }
}

/// One command.
#[verifier::loop_isolation(false)]
pub fn parse_command(sexp: &SExp) -> (res: Result<Command, String>)
    ensures
        match command_spec(sexp@) {
            Ok(v) => res matches Ok(r) && r@ == v,
            Err(m) => res matches Err(e) && e@ == m,
        },
{
    let items = match sexp {
        SExp::List(items) => items,
        SExp::Atom(_) => { return Err(err_with("expected command, got ", sexp)); },
    };
    proof { lemma_sexps_v(items@); }
    let ghost iv = sexps_v(items@);
    assert(sexp@ == SExpV::List(iv));
    if items.len() == 0 {
        return Err(err_with("expected command, got ", sexp));
    }
    assert(iv[0] == items@[0]@);
    let cmd_name = match &items[0] {
        SExp::Atom(s) => s,
        SExp::List(_) => { return Err(err_with("expected command name, got ", &items[0])); },
    };
    if text_is(cmd_name, "set-logic") {
        if items.len() != 2 {
            return Err(String::from_str("set-logic expects 1 argument"));
        }
        assert(iv[1] == items@[1]@);
        return match atom(&items[1]) {
            Ok(a) => Ok(Command::SetLogic(a.to_owned())),
            Err(e) => Err(e),
        };
    }
    if text_is(cmd_name, "declare-datatypes") {
        return parse_declare_datatypes(items.as_slice());
    }
    if text_is(cmd_name, "declare-datatype") {
        return parse_declare_datatype(items.as_slice());
    }
    if text_is(cmd_name, "declare-sort") {
        if items.len() != 3 {
            return Err(String::from_str("declare-sort expects 2 arguments: name and arity"));
        }
        assert(iv[1] == items@[1]@);
        assert(iv[2] == items@[2]@);
        let name = match atom(&items[1]) {
            Ok(n) => n.to_owned(),
            Err(e) => { return Err(e); },
        };
        let a = match atom(&items[2]) {
            Ok(a) => a.to_owned(),
            Err(e) => { return Err(e); },
        };
        return match parse_usize_text(&a) {
            Some(n) => Ok(Command::DeclareSort(name, n)),
            None => Err(String::from_str("invalid sort arity")),
        };
    }
    if text_is(cmd_name, "declare-const") {
        return parse_declare_const(items.as_slice());
    }
    if text_is(cmd_name, "declare-fun") {
        return parse_declare_fun(items.as_slice());
    }
    if text_is(cmd_name, "assert") {
        if items.len() != 2 {
            return Err(String::from_str("assert expects 1 argument"));
        }
        assert(iv[1] == items@[1]@);
        return match parse_formula(&items[1]) {
            Ok(f) => Ok(Command::Assert(f)),
            Err(e) => Err(e),
        };
    }
    if text_is(cmd_name, "check-sat") {
        return Ok(Command::CheckSat);
    }
    if text_is(cmd_name, "exit") {
        return Ok(Command::Exit);
    }
    if text_is(cmd_name, "push") {
        return match parse_count(items, "push: invalid numeric argument") {
            Ok(n) => Ok(Command::Push(n)),
            Err(e) => Err(e),
        };
    }
    if text_is(cmd_name, "pop") {
        return match parse_count(items, "pop: invalid numeric argument") {
            Ok(n) => Ok(Command::Pop(n)),
            Err(e) => Err(e),
        };
    }
    if text_is(cmd_name, "get-model") {
        return Ok(Command::GetModel);
    }
    if text_is(cmd_name, "get-value") {
        if items.len() != 2 {
            return Err(String::from_str("get-value expects 1 argument: a list of terms"));
        }
        assert(iv[1] == items@[1]@);
        let term_sexps = match &items[1] {
            SExp::List(ts) => ts,
            SExp::Atom(_) => { return Err(String::from_str("get-value: expected a list of terms")); },
        };
        proof { lemma_sexps_v(term_sexps@); }
        let ghost tv = sexps_v(term_sexps@);
        let mut terms: Vec<Term> = Vec::new();
        let mut i: usize = 0;
        while i < term_sexps.len()
            invariant
                0 <= i <= term_sexps.len(),
                tv == sexps_v(term_sexps@),
                tv.len() == term_sexps.len(),
                terms_from(tv, 0, i as int) == Ok::<Seq<TermV>, Seq<char>>(terms_v(terms@)),
            decreases term_sexps.len() - i,
        {
            assert(tv[i as int] == term_sexps@[i as int]@);
            match parse_term(&term_sexps[i]) {
                Ok(t) => {
                    let ghost old_terms = terms@;
                    terms.push(t);
                    assert(terms@.drop_last() == old_terms);
                },
                Err(e) => {
                    proof { lemma_terms_from_stop(tv, 0, i + 1, tv.len() as int); }
                    return Err(e);
                },
            }
            i += 1;
        }
        return Ok(Command::GetValue(terms));
    }
    Ok(Command::Skip(cmd_name.clone()))
}

/// Whether `h` is a command name the reader knows, acted on or skipped; `parse_command`
/// skips the others too, and a caller warns of them.
pub fn is_known_command(h: &str) -> (r: bool)
    ensures r == known_command(h@),
{
    let names = [
        "set-logic", "declare-datatypes", "declare-datatype", "declare-sort", "declare-const",
        "declare-fun", "assert", "check-sat", "exit", "push", "pop", "get-model", "get-value",
        "set-info", "set-option", "get-info", "get-option", "get-unsat-core", "get-proof",
        "get-assertions", "get-assignment", "echo", "reset", "reset-assertions", "define-sort",
        "define-fun", "define-fun-rec", "define-funs-rec", "check-sat-assuming",
    ];
    let ghost all = acted_names() + skipped_names();
    proof {
        reveal_strlit("set-logic"); reveal_strlit("declare-datatypes"); reveal_strlit("declare-datatype");
        reveal_strlit("declare-sort"); reveal_strlit("declare-const"); reveal_strlit("declare-fun");
        reveal_strlit("assert"); reveal_strlit("check-sat"); reveal_strlit("exit"); reveal_strlit("push");
        reveal_strlit("pop"); reveal_strlit("get-model"); reveal_strlit("get-value");
        reveal_strlit("set-info"); reveal_strlit("set-option"); reveal_strlit("get-info");
        reveal_strlit("get-option"); reveal_strlit("get-unsat-core"); reveal_strlit("get-proof");
        reveal_strlit("get-assertions"); reveal_strlit("get-assignment"); reveal_strlit("echo");
        reveal_strlit("reset"); reveal_strlit("reset-assertions"); reveal_strlit("define-sort");
        reveal_strlit("define-fun"); reveal_strlit("define-fun-rec"); reveal_strlit("define-funs-rec");
        reveal_strlit("check-sat-assuming");
        assert(names@.map_values(|n: &str| n@) =~= all);
    }
    let hs = String::from_str(h);
    let mut i: usize = 0;
    while i < names.len()
        invariant
            i <= names.len(),
            names@.map_values(|n: &str| n@) == all,
            names@.len() == all.len(),
            all == acted_names() + skipped_names(),
            hs@ == h@,
            forall|j: int| 0 <= j < i ==> all[j] != h@,
        decreases names.len() - i,
    {
        assert(all[i as int] == names@[i as int]@);
        if text_is(&hs, names[i]) {
            proof {
                let a = acted_names();
                let k = skipped_names();
                assert(all[i as int] == h@);
                assert(all.len() == a.len() + k.len());
                assert(all == a + k);
                if (i as int) < a.len() {
                    assert((a + k)[i as int] == a[i as int]);
                    assert(a.contains(h@));
                } else {
                    assert((a + k)[i as int] == k[i - a.len()]);
                    assert(k.contains(h@));
                }
            }
            return true;
        }
        i += 1;
    }
    proof {
        let a = acted_names();
        let k = skipped_names();
        assert forall|j: int| 0 <= j < a.len() implies a[j] != h@ by { assert(all[j] == a[j]); }
        assert forall|j: int| 0 <= j < k.len() implies k[j] != h@ by { assert(all[a.len() + j] == k[j]); }
    }
    false
}

/// Reads a whole script.
pub fn parse_program(input: &str) -> (res: Result<Program, String>)
    ensures
        match program_spec(input@) {
            Ok(v) => res matches Ok(r) && r@ == v,
            Err(m) => res matches Err(e) && e@ == m,
        },
{
    let sexps = match parse_all_sexps(input) {
        Ok(v) => v,
        Err(e) => { return Err(e); },
    };
    proof { lemma_sexps_v(sexps@); }
    let ghost ev = sexps_v(sexps@);
    let mut commands: Vec<Command> = Vec::new();
    assert(commands_v(commands@) =~= Seq::<CommandV>::empty());
    let mut i: usize = 0;
    while i < sexps.len()
        invariant
            0 <= i <= sexps.len(),
            ev == sexps_v(sexps@),
            ev.len() == sexps.len(),
            forall|j: int| 0 <= j < sexps.len() ==> #[trigger] ev[j] == sexps@[j]@,
            crate::sexp::parse_all_spec(input@) == Ok::<Seq<SExpV>, Seq<char>>(ev),
            commands_from(ev, i as int) == Ok::<Seq<CommandV>, Seq<char>>(commands_v(commands@)),
        decreases sexps.len() - i,
    {
        assert(ev[i as int] == sexps@[i as int]@);
        match parse_command(&sexps[i]) {
            Ok(c) => {
                let ghost old_commands = commands@;
                let ghost cv = command_v(c);
                commands.push(c);
                assert(commands_v(commands@) =~= commands_v(old_commands).push(cv));
            },
            Err(e) => {
                proof { lemma_commands_from_stop(ev, i + 1, ev.len() as int); }
                return Err(e);
            },
        }
        i += 1;
    }
    Ok(Program { commands })
}

} // verus!
