//! The grammar of the supported SMT-LIB commands, as functions from S-expressions to
//! syntax trees. Where the input is rejected, the result is the message of the first fault
//! met, reading left to right.
use vstd::prelude::*;
use crate::ast::{SortExprV, FieldDeclV, ConstructorDeclV, DatatypeDeclV, CommandV, TermV, FormulaV, MatchCaseV, MatchPatternV};
use crate::sexp::{SExpV, parse_all_spec};
use crate::text::{parse_i64_spec, parse_usize_spec, nat_text, all_digits, digits_value};

verus! {

/// A parse result: the value read, or the message of the fault.
pub type Parsed<T> = Result<T, Seq<char>>;

/// What `{:?}` writes for an S-expression.
pub uninterp spec fn sexp_debug_text(e: SExpV) -> Seq<char>;

pub open spec fn atom_spec(e: SExpV) -> Parsed<Seq<char>> {
    match e {
        SExpV::Atom(s) => Ok(s),
        _ => Err("expected atom, got "@ + sexp_debug_text(e)),
    }
}

pub open spec fn is_atom_text(e: SExpV, t: Seq<char>) -> bool {
    e matches SExpV::Atom(s) && s == t
}

/// `Int` or `(List Int)`.
pub open spec fn sort_spec(e: SExpV) -> Parsed<SortExprV>
    decreases e, 0int,
{
    match e {
        SExpV::Atom(s) => Ok(SortExprV::Simple(s)),
        SExpV::List(xs) => {
            if xs.len() == 0 {
                Err("invalid sort expression: "@ + sexp_debug_text(e))
            } else {
                match atom_spec(xs[0]) {
                    Ok(name) => match sorts_from(xs, 1, xs.len() as int) {
                        Ok(args) => Ok(SortExprV::Parametric(name, args)),
                        Err(m) => Err(m),
                    },
                    Err(m) => Err(m),
                }
            }
        },
    }
}

/// The sorts `xs[start..n]`, left to right.
pub open spec fn sorts_from(xs: Seq<SExpV>, start: int, n: int) -> Parsed<Seq<SortExprV>>
    decreases xs, n,
{
    if start < 0 || n <= start || n > xs.len() {
        Ok(Seq::empty())
    } else {
        match sorts_from(xs, start, n - 1) {
            Ok(r) => match sort_spec(xs[n - 1]) {
                Ok(a) => Ok(r.push(a)),
                Err(m) => Err(m),
            },
            Err(m) => Err(m),
        }
    }
}

/// `(sel Sort)`.
pub open spec fn field_spec(e: SExpV) -> Parsed<FieldDeclV> {
    match e {
        SExpV::List(xs) => {
            if xs.len() == 2 {
                match atom_spec(xs[0]) {
                    Ok(sel) => match sort_spec(xs[1]) {
                        Ok(s) => Ok(FieldDeclV { selector: sel, sort: s }),
                        Err(m) => Err(m),
                    },
                    Err(m) => Err(m),
                }
            } else {
                Err("invalid field declaration"@)
            }
        },
        _ => Err("invalid field declaration"@),
    }
}

/// The fields `xs[start..n]`, left to right.
pub open spec fn fields_from(xs: Seq<SExpV>, start: int, n: int) -> Parsed<Seq<FieldDeclV>>
    decreases n,
{
    if start < 0 || n <= start || n > xs.len() {
        Ok(Seq::empty())
    } else {
        match fields_from(xs, start, n - 1) {
            Ok(r) => match field_spec(xs[n - 1]) {
                Ok(a) => Ok(r.push(a)),
                Err(m) => Err(m),
            },
            Err(m) => Err(m),
        }
    }
}

/// `(Ctor (sel Sort) ...)`.
pub open spec fn constructor_spec(e: SExpV) -> Parsed<ConstructorDeclV> {
    match e {
        SExpV::List(xs) => {
            if xs.len() == 0 {
                Err("invalid constructor declaration"@)
            } else {
                match atom_spec(xs[0]) {
                    Ok(name) => match fields_from(xs, 1, xs.len() as int) {
                        Ok(fs) => Ok(ConstructorDeclV { name, fields: fs }),
                        Err(m) => Err(m),
                    },
                    Err(m) => Err(m),
                }
            }
        },
        _ => Err("invalid constructor declaration"@),
    }
}

/// The constructors `xs[0..n]`, left to right.
pub open spec fn ctors_from(xs: Seq<SExpV>, n: int) -> Parsed<Seq<ConstructorDeclV>>
    decreases n,
{
    if n <= 0 || n > xs.len() {
        Ok(Seq::empty())
    } else {
        match ctors_from(xs, n - 1) {
            Ok(r) => match constructor_spec(xs[n - 1]) {
                Ok(a) => Ok(r.push(a)),
                Err(m) => Err(m),
            },
            Err(m) => Err(m),
        }
    }
}

/// `((Ctor ...) ...)`.
pub open spec fn constructors_spec(e: SExpV) -> Parsed<Seq<ConstructorDeclV>> {
    match e {
        SExpV::List(xs) => ctors_from(xs, xs.len() as int),
        _ => Err("expected constructor list"@),
    }
}

/// The atoms `xs[start..n]`, left to right.
pub open spec fn atoms_from(xs: Seq<SExpV>, start: int, n: int) -> Parsed<Seq<Seq<char>>>
    decreases n,
{
    if start < 0 || n <= start || n > xs.len() {
        Ok(Seq::empty())
    } else {
        match atoms_from(xs, start, n - 1) {
            Ok(r) => match atom_spec(xs[n - 1]) {
                Ok(a) => Ok(r.push(a)),
                Err(m) => Err(m),
            },
            Err(m) => Err(m),
        }
    }
}

/// `(par (T ...) (ctors))` or `(ctors)`: the type parameters and the constructors.
pub open spec fn datatype_body_spec(e: SExpV) -> Parsed<(Seq<Seq<char>>, Seq<ConstructorDeclV>)> {
    match e {
        SExpV::List(xs) => {
            if xs.len() == 0 {
                Err("invalid datatype body"@)
            } else if is_atom_text(xs[0], "par"@) {
                if xs.len() != 3 {
                    Err("par expects 2 arguments: type params and constructor list"@)
                } else {
                    match xs[1] {
                        SExpV::List(ps) => match atoms_from(ps, 0, ps.len() as int) {
                            Ok(tps) => match constructors_spec(xs[2]) {
                                Ok(cs) => Ok((tps, cs)),
                                Err(m) => Err(m),
                            },
                            Err(m) => Err(m),
                        },
                        _ => Err("par: expected list of type parameters"@),
                    }
                }
            } else {
                match constructors_spec(e) {
                    Ok(cs) => Ok((Seq::empty(), cs)),
                    Err(m) => Err(m),
                }
            }
        },
        _ => Err("invalid datatype body"@),
    }
}

/// `(Name arity)`.
pub open spec fn sort_decl_spec(e: SExpV) -> Parsed<(Seq<char>, nat)> {
    match e {
        SExpV::List(xs) => {
            if xs.len() == 2 {
                match atom_spec(xs[0]) {
                    Ok(name) => match atom_spec(xs[1]) {
                        Ok(a) => match parse_usize_spec(a) {
                            Some(k) => Ok((name, k as nat)),
                            None => Err("invalid datatype arity"@),
                        },
                        Err(m) => Err(m),
                    },
                    Err(m) => Err(m),
                }
            } else {
                Err("invalid sort declaration"@)
            }
        },
        _ => Err("invalid sort declaration"@),
    }
}

/// One declared datatype from its `(Name arity)` and its body.
pub open spec fn datatype_pair_spec(sd: SExpV, body: SExpV) -> Parsed<DatatypeDeclV> {
    match sort_decl_spec(sd) {
        Ok((name, arity)) => match datatype_body_spec(body) {
            Ok((tps, ctors)) => {
                if tps.len() != 0 && tps.len() != arity {
                    Err("par 参数数量 ("@ + nat_text(tps.len()) + ") 与声明的 arity ("@ + nat_text(arity)
                        + ") 不匹配: "@ + name)
                } else {
                    Ok(DatatypeDeclV { name, arity, type_params: tps, constructors: ctors })
                }
            },
            Err(m) => Err(m),
        },
        Err(m) => Err(m),
    }
}

/// The datatypes of the pairs `(sds[i], bodies[i])` for `i < n`, left to right.
pub open spec fn pairs_from(sds: Seq<SExpV>, bodies: Seq<SExpV>, n: int) -> Parsed<Seq<DatatypeDeclV>>
    decreases n,
{
    if n <= 0 || n > sds.len() || n > bodies.len() {
        Ok(Seq::empty())
    } else {
        match pairs_from(sds, bodies, n - 1) {
            Ok(r) => match datatype_pair_spec(sds[n - 1], bodies[n - 1]) {
                Ok(a) => Ok(r.push(a)),
                Err(m) => Err(m),
            },
            Err(m) => Err(m),
        }
    }
}

/// `(declare-datatypes ((Name arity) ...) (body ...))`.
pub open spec fn declare_datatypes_spec(items: Seq<SExpV>) -> Parsed<CommandV> {
    if items.len() != 3 {
        Err("declare-datatypes expects 2 arguments"@)
    } else {
        match items[1] {
            SExpV::List(sds) => match items[2] {
                SExpV::List(bodies) => {
                    if sds.len() != bodies.len() {
                        Err("sort decl count != datatype body count"@)
                    } else {
                        match pairs_from(sds, bodies, sds.len() as int) {
                            Ok(ds) => Ok(CommandV::DeclareDatatypes(ds)),
                            Err(m) => Err(m),
                        }
                    }
                },
                _ => Err("expected datatype body list"@),
            },
            _ => Err("expected sort declaration list"@),
        }
    }
}

/// `(declare-datatype Name body)`, arity taken from the `par` parameters.
pub open spec fn declare_datatype_spec(items: Seq<SExpV>) -> Parsed<CommandV> {
    if items.len() != 3 {
        Err("declare-datatype expects 2 arguments: name and constructor list"@)
    } else {
        match atom_spec(items[1]) {
            Ok(name) => match datatype_body_spec(items[2]) {
                Ok((tps, ctors)) => Ok(CommandV::DeclareDatatypes(seq![DatatypeDeclV {
                    name,
                    arity: tps.len(),
                    type_params: tps,
                    constructors: ctors,
                }])),
                Err(m) => Err(m),
            },
            Err(m) => Err(m),
        }
    }
}

/// `(declare-const name Sort)`.
pub open spec fn declare_const_spec(items: Seq<SExpV>) -> Parsed<CommandV> {
    if items.len() != 3 {
        Err("declare-const expects 2 arguments: name and sort"@)
    } else {
        match atom_spec(items[1]) {
            Ok(name) => match sort_spec(items[2]) {
                Ok(s) => Ok(CommandV::DeclareConst(name, s)),
                Err(m) => Err(m),
            },
            Err(m) => Err(m),
        }
    }
}

/// `(declare-fun name (Sort ...) Sort)`.
pub open spec fn declare_fun_spec(items: Seq<SExpV>) -> Parsed<CommandV> {
    if items.len() != 4 {
        Err("declare-fun expects 3 arguments: name, arg sorts, and return sort"@)
    } else {
        match atom_spec(items[1]) {
            Ok(name) => match items[2] {
                SExpV::List(xs) => match sorts_from(xs, 0, xs.len() as int) {
                    Ok(args) => match sort_spec(items[3]) {
                        Ok(ret) => Ok(CommandV::DeclareFun(name, args, ret)),
                        Err(m) => Err(m),
                    },
                    Err(m) => Err(m),
                },
                _ => Err("declare-fun: expected a list of argument sorts"@),
            },
            Err(m) => Err(m),
        }
    }
}

/// A pattern of a `match` case: a symbol, or `(Ctor var ...)`.
pub open spec fn match_pattern_spec(e: SExpV) -> Parsed<MatchPatternV> {
    match e {
        SExpV::Atom(n) => Ok(MatchPatternV::Atom(n)),
        SExpV::List(xs) => {
            if xs.len() == 0 {
                Err("invalid match pattern: "@ + sexp_debug_text(e))
            } else {
                match atom_spec(xs[0]) {
                    Ok(c) => match atoms_from(xs, 1, xs.len() as int) {
                        Ok(vs) => Ok(MatchPatternV::Constructor(c, vs)),
                        Err(m) => Err(m),
                    },
                    Err(m) => Err(m),
                }
            }
        },
    }
}

pub open spec fn var_true() -> TermV {
    TermV::Var("true"@)
}

/// The pairwise disequalities of `distinct`, row by row.
pub open spec fn distinct_row(ts: Seq<TermV>, i: int) -> Seq<FormulaV> {
    Seq::new((ts.len() - 1 - i) as nat, |k: int| FormulaV::Not(Box::new(FormulaV::Eq(ts[i], ts[i + 1 + k]))))
}

pub open spec fn distinct_rows(ts: Seq<TermV>, n: int) -> Seq<FormulaV>
    decreases n,
{
    if n <= 0 { Seq::empty() } else { distinct_rows(ts, n - 1) + distinct_row(ts, n - 1) }
}

pub open spec fn distinct_spec(ts: Seq<TermV>) -> FormulaV {
    let neqs = distinct_rows(ts, ts.len() as int);
    if neqs.len() == 1 { neqs[0] } else { FormulaV::And(neqs) }
}

pub open spec fn invalid_term_msg(e: SExpV) -> Seq<char> {
    "invalid term: "@ + sexp_debug_text(e)
}

/// Terms: numerals, symbols, applications, `ite`, `match`, `as`.
pub open spec fn term_spec(e: SExpV) -> Parsed<TermV>
    decreases e, 0int,
{
    match e {
        SExpV::Atom(s) => match parse_i64_spec(s) {
            Some(n) => Ok(TermV::Int(n as int)),
            None => Ok(TermV::Var(s)),
        },
        SExpV::List(xs) => {
            if xs.len() == 0 {
                Err(invalid_term_msg(e))
            } else if xs[0] is List {
                let inner = xs[0]->List_0;
                if inner.len() == 3 && is_atom_text(inner[0], "as"@) {
                    match atom_spec(inner[1]) {
                        Ok(f) => match sort_spec(inner[2]) {
                            Ok(srt) => match terms_from(xs, 1, xs.len() as int) {
                                Ok(args) => {
                                    if xs.len() == 1 {
                                        Ok(TermV::As(Box::new(TermV::Var(f)), srt))
                                    } else {
                                        Ok(TermV::As(Box::new(TermV::App(f, args)), srt))
                                    }
                                },
                                Err(m) => Err(m),
                            },
                            Err(m) => Err(m),
                        },
                        Err(m) => Err(m),
                    }
                } else {
                    Err(invalid_term_msg(e))
                }
            } else {
                let f = xs[0]->Atom_0;
                if f == "as"@ {
                    if xs.len() != 3 {
                        Err("as expects exactly 2 arguments: term and sort"@)
                    } else {
                        match term_spec(xs[1]) {
                            Ok(t) => match sort_spec(xs[2]) {
                                Ok(s) => Ok(TermV::As(Box::new(t), s)),
                                Err(m) => Err(m),
                            },
                            Err(m) => Err(m),
                        }
                    }
                } else if f == "ite"@ {
                    if xs.len() != 4 {
                        Err("ite expects exactly 3 arguments"@)
                    } else {
                        match formula_spec(xs[1]) {
                            Ok(c) => match term_spec(xs[2]) {
                                Ok(a) => match term_spec(xs[3]) {
                                    Ok(b) => Ok(TermV::Ite(Box::new(c), Box::new(a), Box::new(b))),
                                    Err(m) => Err(m),
                                },
                                Err(m) => Err(m),
                            },
                            Err(m) => Err(m),
                        }
                    }
                } else if f == "match"@ {
                    if xs.len() < 3 {
                        Err("match expects a scrutinee and at least one case"@)
                    } else {
                        match term_spec(xs[1]) {
                            Ok(s) => match cases_from(xs, 2, xs.len() as int) {
                                Ok(cs) => Ok(TermV::Match(Box::new(s), cs)),
                                Err(m) => Err(m),
                            },
                            Err(m) => Err(m),
                        }
                    }
                } else {
                    match terms_from(xs, 1, xs.len() as int) {
                        Ok(args) => Ok(TermV::App(f, args)),
                        Err(m) => Err(m),
                    }
                }
            }
        },
    }
}

/// The terms `xs[start..n]`, left to right.
pub open spec fn terms_from(xs: Seq<SExpV>, start: int, n: int) -> Parsed<Seq<TermV>>
    decreases xs, n,
{
    if start < 0 || n <= start || n > xs.len() {
        Ok(Seq::empty())
    } else {
        match terms_from(xs, start, n - 1) {
            Ok(r) => match term_spec(xs[n - 1]) {
                Ok(a) => Ok(r.push(a)),
                Err(m) => Err(m),
            },
            Err(m) => Err(m),
        }
    }
}

/// The formulas `xs[start..n]`, left to right.
pub open spec fn formulas_from(xs: Seq<SExpV>, start: int, n: int) -> Parsed<Seq<FormulaV>>
    decreases xs, n,
{
    if start < 0 || n <= start || n > xs.len() {
        Ok(Seq::empty())
    } else {
        match formulas_from(xs, start, n - 1) {
            Ok(r) => match formula_spec(xs[n - 1]) {
                Ok(a) => Ok(r.push(a)),
                Err(m) => Err(m),
            },
            Err(m) => Err(m),
        }
    }
}

/// The match cases `xs[start..n]`, left to right.
pub open spec fn cases_from(xs: Seq<SExpV>, start: int, n: int) -> Parsed<Seq<MatchCaseV>>
    decreases xs, n,
{
    if start < 0 || n <= start || n > xs.len() {
        Ok(Seq::empty())
    } else {
        match cases_from(xs, start, n - 1) {
            Ok(r) => match match_case_spec(xs[n - 1]) {
                Ok(a) => Ok(r.push(a)),
                Err(m) => Err(m),
            },
            Err(m) => Err(m),
        }
    }
}

/// `(pattern body)` of a `match`.
pub open spec fn match_case_spec(e: SExpV) -> Parsed<MatchCaseV>
    decreases e, 0int,
{
    match e {
        SExpV::List(xs) => {
            if xs.len() == 2 {
                match match_pattern_spec(xs[0]) {
                    Ok(p) => match term_spec(xs[1]) {
                        Ok(b) => Ok(MatchCaseV { pattern: p, body: b }),
                        Err(m) => Err(m),
                    },
                    Err(m) => Err(m),
                }
            } else {
                Err("invalid match case (expected 2-element list): "@ + sexp_debug_text(e))
            }
        },
        _ => Err("invalid match case (expected 2-element list): "@ + sexp_debug_text(e)),
    }
}

/// A Boolean term `t` standing as a formula: `(= t true)`.
pub open spec fn bool_term_formula(e: SExpV) -> Parsed<FormulaV>
    decreases e, 1int,
{
    match term_spec(e) {
        Ok(t) => Ok(FormulaV::Eq(t, var_true())),
        Err(m) => Err(m),
    }
}

/// Formulas: `true`, `false`, `=`, `distinct`, `not`, `and`, `or`, `=>`, `ite`, `is-C`, and
/// any other Boolean term `t`, read as `(= t true)`.
pub open spec fn formula_spec(e: SExpV) -> Parsed<FormulaV>
    decreases e, 2int,
{
    match e {
        SExpV::Atom(s) => {
            if s == "true"@ {
                Ok(FormulaV::True)
            } else if s == "false"@ {
                Ok(FormulaV::False)
            } else {
                bool_term_formula(e)
            }
        },
        SExpV::List(xs) => {
            if xs.len() == 0 {
                Err("invalid formula: "@ + sexp_debug_text(e))
            } else if !(xs[0] is Atom) {
                Err("invalid formula: expected operator, got "@ + sexp_debug_text(e))
            } else {
                let op = xs[0]->Atom_0;
                if op == "="@ {
                    if xs.len() != 3 {
                        Err("= expects exactly 2 arguments"@)
                    } else {
                        match term_spec(xs[1]) {
                            Ok(a) => match term_spec(xs[2]) {
                                Ok(b) => Ok(FormulaV::Eq(a, b)),
                                Err(m) => Err(m),
                            },
                            Err(m) => Err(m),
                        }
                    }
                } else if op == "distinct"@ {
                    if xs.len() < 3 {
                        Err("distinct expects at least 2 arguments"@)
                    } else {
                        match terms_from(xs, 1, xs.len() as int) {
                            Ok(ts) => Ok(distinct_spec(ts)),
                            Err(m) => Err(m),
                        }
                    }
                } else if op == "not"@ {
                    if xs.len() != 2 {
                        Err("not expects exactly 1 argument"@)
                    } else {
                        match formula_spec(xs[1]) {
                            Ok(f) => Ok(FormulaV::Not(Box::new(f))),
                            Err(m) => Err(m),
                        }
                    }
                } else if op == "and"@ || op == "or"@ {
                    if xs.len() < 3 {
                        if op == "and"@ {
                            Err("and expects at least 2 arguments"@)
                        } else {
                            Err("or expects at least 2 arguments"@)
                        }
                    } else {
                        match formulas_from(xs, 1, xs.len() as int) {
                            Ok(fs) => if op == "and"@ { Ok(FormulaV::And(fs)) } else { Ok(FormulaV::Or(fs)) },
                            Err(m) => Err(m),
                        }
                    }
                } else if op == "=>"@ {
                    if xs.len() != 3 {
                        Err("=> expects exactly 2 arguments"@)
                    } else {
                        match formula_spec(xs[1]) {
                            Ok(a) => match formula_spec(xs[2]) {
                                Ok(b) => Ok(FormulaV::Implies(Box::new(a), Box::new(b))),
                                Err(m) => Err(m),
                            },
                            Err(m) => Err(m),
                        }
                    }
                } else if op == "ite"@ {
                    if xs.len() != 4 {
                        Err("ite expects exactly 3 arguments"@)
                    } else {
                        match formula_spec(xs[1]) {
                            Ok(c) => match formula_spec(xs[2]) {
                                Ok(a) => match formula_spec(xs[3]) {
                                    Ok(b) => Ok(FormulaV::Ite(Box::new(c), Box::new(a), Box::new(b))),
                                    Err(m) => Err(m),
                                },
                                Err(m) => Err(m),
                            },
                            Err(m) => Err(m),
                        }
                    }
                } else if op.len() >= 3 && op.take(3) == "is-"@ && xs.len() == 2 {
                    match term_spec(xs[1]) {
                        Ok(t) => Ok(FormulaV::IsTester(op.skip(3), t)),
                        Err(m) => Err(m),
                    }
                } else {
                    bool_term_formula(e)
                }
            }
        },
    }
}

/// Optional numeric argument of `push` / `pop`, 1 when absent; `msg` when it is not a
/// numeral.
pub open spec fn count_arg_spec(items: Seq<SExpV>, msg: Seq<char>) -> Parsed<nat> {
    if items.len() > 1 {
        match atom_spec(items[1]) {
            Ok(a) => match parse_usize_spec(a) {
                Some(k) => Ok(k as nat),
                None => Err(msg),
            },
            Err(m) => Err(m),
        }
    } else {
        Ok(1)
    }
}

/// The command names the reader acts on.
pub open spec fn acted_names() -> Seq<Seq<char>> {
    seq!["set-logic"@, "declare-datatypes"@, "declare-datatype"@, "declare-sort"@,
        "declare-const"@, "declare-fun"@, "assert"@, "check-sat"@, "exit"@, "push"@, "pop"@,
        "get-model"@, "get-value"@]
}

/// The command names the reader knows and skips: they change nothing here.
pub open spec fn skipped_names() -> Seq<Seq<char>> {
    seq!["set-info"@, "set-option"@, "get-info"@, "get-option"@, "get-unsat-core"@,
        "get-proof"@, "get-assertions"@, "get-assignment"@, "echo"@, "reset"@,
        "reset-assertions"@, "define-sort"@, "define-fun"@, "define-fun-rec"@,
        "define-funs-rec"@, "check-sat-assuming"@]
}

/// A command name the reader knows; a script's other command names are skipped with a
/// warning.
pub open spec fn known_command(h: Seq<char>) -> bool {
    acted_names().contains(h) || skipped_names().contains(h)
}

/// One command. Unknown command names are skipped, as are the informational ones.
pub open spec fn command_spec(e: SExpV) -> Parsed<CommandV> {
    match e {
        SExpV::List(items) => {
            if items.len() == 0 {
                Err("expected command, got "@ + sexp_debug_text(e))
            } else if !(items[0] is Atom) {
                Err("expected command name, got "@ + sexp_debug_text(items[0]))
            } else {
                let n = items[0]->Atom_0;
                if n == "set-logic"@ {
                    if items.len() != 2 {
                        Err("set-logic expects 1 argument"@)
                    } else {
                        match atom_spec(items[1]) {
                            Ok(l) => Ok(CommandV::SetLogic(l)),
                            Err(m) => Err(m),
                        }
                    }
                } else if n == "declare-datatypes"@ {
                    declare_datatypes_spec(items)
                } else if n == "declare-datatype"@ {
                    declare_datatype_spec(items)
                } else if n == "declare-sort"@ {
                    if items.len() != 3 {
                        Err("declare-sort expects 2 arguments: name and arity"@)
                    } else {
                        match atom_spec(items[1]) {
                            Ok(name) => match atom_spec(items[2]) {
                                Ok(a) => match parse_usize_spec(a) {
                                    Some(k) => Ok(CommandV::DeclareSort(name, k as nat)),
                                    None => Err("invalid sort arity"@),
                                },
                                Err(m) => Err(m),
                            },
                            Err(m) => Err(m),
                        }
                    }
                } else if n == "declare-const"@ {
                    declare_const_spec(items)
                } else if n == "declare-fun"@ {
                    declare_fun_spec(items)
                } else if n == "assert"@ {
                    if items.len() != 2 {
                        Err("assert expects 1 argument"@)
                    } else {
                        match formula_spec(items[1]) {
                            Ok(f) => Ok(CommandV::Assert(f)),
                            Err(m) => Err(m),
                        }
                    }
                } else if n == "check-sat"@ {
                    Ok(CommandV::CheckSat)
                } else if n == "exit"@ {
                    Ok(CommandV::Exit)
                } else if n == "push"@ {
                    match count_arg_spec(items, "push: invalid numeric argument"@) {
                        Ok(k) => Ok(CommandV::Push(k)),
                        Err(m) => Err(m),
                    }
                } else if n == "pop"@ {
                    match count_arg_spec(items, "pop: invalid numeric argument"@) {
                        Ok(k) => Ok(CommandV::Pop(k)),
                        Err(m) => Err(m),
                    }
                } else if n == "get-model"@ {
                    Ok(CommandV::GetModel)
                } else if n == "get-value"@ {
                    if items.len() != 2 {
                        Err("get-value expects 1 argument: a list of terms"@)
                    } else {
                        match items[1] {
                            SExpV::List(ts) => match terms_from(ts, 0, ts.len() as int) {
                                Ok(vs) => Ok(CommandV::GetValue(vs)),
                                Err(m) => Err(m),
                            },
                            _ => Err("get-value: expected a list of terms"@),
                        }
                    }
                } else {
                    Ok(CommandV::Skip(n))
                }
            }
        },
        _ => Err("expected command, got "@ + sexp_debug_text(e)),
    }
}

/// The commands `es[0..n]`, left to right.
pub open spec fn commands_from(es: Seq<SExpV>, n: int) -> Parsed<Seq<CommandV>>
    decreases n,
{
    if n <= 0 || n > es.len() {
        Ok(Seq::empty())
    } else {
        match commands_from(es, n - 1) {
            Ok(r) => match command_spec(es[n - 1]) {
                Ok(a) => Ok(r.push(a)),
                Err(m) => Err(m),
            },
            Err(m) => Err(m),
        }
    }
}

/// A whole script: every S-expression of the text, each read as a command.
pub open spec fn program_spec(cs: Seq<char>) -> Parsed<Seq<CommandV>> {
    match parse_all_spec(cs) {
        Ok(es) => commands_from(es, es.len() as int),
        Err(m) => Err(m),
    }
}

/// A script is its S-expressions read as commands one by one: when each of the first `n`
/// reads as a command, the commands are those, in order.
pub proof fn lemma_commands_each(es: Seq<SExpV>, n: int)
    requires
        0 <= n <= es.len(),
        forall|i: int| 0 <= i < n ==> (#[trigger] command_spec(es[i])) is Ok,
    ensures commands_from(es, n) == Ok::<Seq<CommandV>, Seq<char>>(Seq::new(n as nat, |i: int| command_spec(es[i])->Ok_0)),
    decreases n,
{
    if n > 0 {
        lemma_commands_each(es, n - 1);
        assert(command_spec(es[n - 1]) is Ok);
        assert(Seq::new((n - 1) as nat, |i: int| command_spec(es[i])->Ok_0).push(command_spec(es[n - 1])->Ok_0)
            =~= Seq::new(n as nat, |i: int| command_spec(es[i])->Ok_0));
    } else {
        assert(Seq::new(0, |i: int| command_spec(es[i])->Ok_0) =~= Seq::<CommandV>::empty());
    }
}

/// The first `n` S-expressions read as commands exactly when each of them does.
pub proof fn lemma_commands_ok(es: Seq<SExpV>, n: int)
    requires 0 <= n <= es.len(),
    ensures
        commands_from(es, n) is Ok <==> forall|i: int| 0 <= i < n ==> (#[trigger] command_spec(es[i])) is Ok,
    decreases n,
{
    if n > 0 {
        lemma_commands_ok(es, n - 1);
        if commands_from(es, n) is Ok {
            assert forall|i: int| 0 <= i < n implies (#[trigger] command_spec(es[i])) is Ok by {
                if i < n - 1 {
                    assert(commands_from(es, n - 1) is Ok);
                }
            }
        }
        if forall|i: int| 0 <= i < n ==> (#[trigger] command_spec(es[i])) is Ok {
            assert(commands_from(es, n - 1) is Ok);
            assert(command_spec(es[n - 1]) is Ok);
        }
    }
}

/// A script is read exactly when its text splits into S-expressions and each of them reads
/// as a command; then the script is those commands, in order.
pub proof fn lemma_program_iff_commands(cs: Seq<char>)
    ensures
        program_spec(cs) is Ok <==> (parse_all_spec(cs) is Ok
            && forall|i: int| 0 <= i < parse_all_spec(cs)->Ok_0.len()
                ==> (#[trigger] command_spec(parse_all_spec(cs)->Ok_0[i])) is Ok),
        program_spec(cs) is Ok ==> program_spec(cs) == Ok::<Seq<CommandV>, Seq<char>>(
            Seq::new(parse_all_spec(cs)->Ok_0.len(), |i: int| command_spec(parse_all_spec(cs)->Ok_0[i])->Ok_0)),
{
    if parse_all_spec(cs) is Ok {
        let es = parse_all_spec(cs)->Ok_0;
        lemma_commands_ok(es, es.len() as int);
        if program_spec(cs) is Ok {
            lemma_commands_each(es, es.len() as int);
        }
    }
}

// ---------------------------------------------------------------------------
// Lists: once an element is refused, the later ones are not read
// ---------------------------------------------------------------------------

pub proof fn lemma_sorts_from_stop(xs: Seq<SExpV>, start: int, k: int, n: int)
    requires 0 <= start < k <= n <= xs.len(), sorts_from(xs, start, k) is Err,
    ensures sorts_from(xs, start, n) == sorts_from(xs, start, k),
    decreases n - k,
{
    if k < n { lemma_sorts_from_stop(xs, start, k, n - 1); }
}

pub proof fn lemma_fields_from_stop(xs: Seq<SExpV>, start: int, k: int, n: int)
    requires 0 <= start < k <= n <= xs.len(), fields_from(xs, start, k) is Err,
    ensures fields_from(xs, start, n) == fields_from(xs, start, k),
    decreases n - k,
{
    if k < n { lemma_fields_from_stop(xs, start, k, n - 1); }
}

pub proof fn lemma_ctors_from_stop(xs: Seq<SExpV>, k: int, n: int)
    requires 0 < k <= n <= xs.len(), ctors_from(xs, k) is Err,
    ensures ctors_from(xs, n) == ctors_from(xs, k),
    decreases n - k,
{
    if k < n { lemma_ctors_from_stop(xs, k, n - 1); }
}

pub proof fn lemma_atoms_from_stop(xs: Seq<SExpV>, start: int, k: int, n: int)
    requires 0 <= start < k <= n <= xs.len(), atoms_from(xs, start, k) is Err,
    ensures atoms_from(xs, start, n) == atoms_from(xs, start, k),
    decreases n - k,
{
    if k < n { lemma_atoms_from_stop(xs, start, k, n - 1); }
}

pub proof fn lemma_pairs_from_stop(sds: Seq<SExpV>, bodies: Seq<SExpV>, k: int, n: int)
    requires 0 < k <= n <= sds.len(), n <= bodies.len(), pairs_from(sds, bodies, k) is Err,
    ensures pairs_from(sds, bodies, n) == pairs_from(sds, bodies, k),
    decreases n - k,
{
    if k < n { lemma_pairs_from_stop(sds, bodies, k, n - 1); }
}

pub proof fn lemma_terms_from_stop(xs: Seq<SExpV>, start: int, k: int, n: int)
    requires 0 <= start < k <= n <= xs.len(), terms_from(xs, start, k) is Err,
    ensures terms_from(xs, start, n) == terms_from(xs, start, k),
    decreases n - k,
{
    if k < n { lemma_terms_from_stop(xs, start, k, n - 1); }
}

pub proof fn lemma_formulas_from_stop(xs: Seq<SExpV>, start: int, k: int, n: int)
    requires 0 <= start < k <= n <= xs.len(), formulas_from(xs, start, k) is Err,
    ensures formulas_from(xs, start, n) == formulas_from(xs, start, k),
    decreases n - k,
{
    if k < n { lemma_formulas_from_stop(xs, start, k, n - 1); }
}

pub proof fn lemma_cases_from_stop(xs: Seq<SExpV>, start: int, k: int, n: int)
    requires 0 <= start < k <= n <= xs.len(), cases_from(xs, start, k) is Err,
    ensures cases_from(xs, start, n) == cases_from(xs, start, k),
    decreases n - k,
{
    if k < n { lemma_cases_from_stop(xs, start, k, n - 1); }
}

pub proof fn lemma_commands_from_stop(es: Seq<SExpV>, k: int, n: int)
    requires 0 < k <= n <= es.len(), commands_from(es, k) is Err,
    ensures commands_from(es, n) == commands_from(es, k),
    decreases n - k,
{
    if k < n { lemma_commands_from_stop(es, k, n - 1); }
}

pub proof fn lemma_terms_from_len(xs: Seq<SExpV>, start: int, n: int)
    requires 0 <= start <= n <= xs.len(), terms_from(xs, start, n) is Ok,
    ensures terms_from(xs, start, n)->Ok_0.len() == n - start,
    decreases n,
{
    if n > start { lemma_terms_from_len(xs, start, n - 1); }
}


/// The datatypes read from pairs, when all are read, are those of the pairs in order.
proof fn lemma_pairs_each(sds: Seq<SExpV>, bodies: Seq<SExpV>, n: int)
    requires 0 <= n <= sds.len(), n <= bodies.len(), pairs_from(sds, bodies, n) is Ok,
    ensures
        pairs_from(sds, bodies, n)->Ok_0.len() == n,
        forall|i: int| 0 <= i < n ==> datatype_pair_spec(sds[i], bodies[i])
            == Ok::<DatatypeDeclV, Seq<char>>(#[trigger] pairs_from(sds, bodies, n)->Ok_0[i]),
    decreases n,
{
    if n > 0 {
        lemma_pairs_each(sds, bodies, n - 1);
    }
}

/// `(declare-datatypes ((N1 a1) ... (Nk ak)) (B1 ... Bk))` pairs declarations and bodies in
/// order: the `i`-th datatype read has the name and arity of the `i`-th declaration and
/// exactly the parameters and constructors read from the `i`-th body.
pub proof fn lemma_datatypes_paired_in_order(items: Seq<SExpV>, ds: Seq<DatatypeDeclV>)
    requires
        items.len() > 0, items[0] == SExpV::Atom("declare-datatypes"@),
        command_spec(SExpV::List(items)) == Ok::<CommandV, Seq<char>>(CommandV::DeclareDatatypes(ds)),
    ensures
        items.len() == 3, items[1] is List, items[2] is List,
        ds.len() == items[1]->List_0.len(), ds.len() == items[2]->List_0.len(),
        forall|i: int| 0 <= i < ds.len() ==> sort_decl_spec(items[1]->List_0[i])
            == Ok::<(Seq<char>, nat), Seq<char>>((#[trigger] ds[i].name, ds[i].arity))
            && datatype_body_spec(items[2]->List_0[i])
                == Ok::<(Seq<Seq<char>>, Seq<ConstructorDeclV>), Seq<char>>((ds[i].type_params, ds[i].constructors)),
{
    reveal_strlit("declare-datatypes");
    reveal_strlit("set-logic");
    assert("declare-datatypes"@ != "set-logic"@) by { assert("declare-datatypes"@[0] != "set-logic"@[0]); }
    assert(command_spec(SExpV::List(items)) == declare_datatypes_spec(items));
    let sds = items[1]->List_0;
    let bodies = items[2]->List_0;
    lemma_pairs_each(sds, bodies, sds.len() as int);
    assert forall|i: int| 0 <= i < ds.len() implies sort_decl_spec(sds[i])
        == Ok::<(Seq<char>, nat), Seq<char>>((#[trigger] ds[i].name, ds[i].arity))
        && datatype_body_spec(bodies[i])
            == Ok::<(Seq<Seq<char>>, Seq<ConstructorDeclV>), Seq<char>>((ds[i].type_params, ds[i].constructors)) by {
        assert(datatype_pair_spec(sds[i], bodies[i]) == Ok::<DatatypeDeclV, Seq<char>>(ds[i]));
    }
}

/// The count of `(push ...)` and `(pop ...)`: the numeral's value when one is given, and 1
/// when none is; so `(push)` reads as `(push 1)` and `(pop)` as `(pop 1)`.
pub proof fn lemma_stack_counts(items: Seq<SExpV>, k: Seq<char>)
    requires items.len() > 0, items[0] == SExpV::Atom("push"@) || items[0] == SExpV::Atom("pop"@),
    ensures
        items.len() == 1 ==> command_spec(SExpV::List(items))
            == Ok::<CommandV, Seq<char>>(if items[0] == SExpV::Atom("push"@) { CommandV::Push(1) } else { CommandV::Pop(1) }),
        items.len() > 1 && items[1] == SExpV::Atom(k) && parse_usize_spec(k) is Some ==> command_spec(SExpV::List(items))
            == Ok::<CommandV, Seq<char>>(if items[0] == SExpV::Atom("push"@) {
                CommandV::Push(parse_usize_spec(k)->Some_0 as nat)
            } else {
                CommandV::Pop(parse_usize_spec(k)->Some_0 as nat)
            }),
        command_spec(SExpV::List(seq![items[0]])) == command_spec(SExpV::List(seq![items[0], SExpV::Atom("1"@)])),
{
    reveal_strlit("push"); reveal_strlit("pop"); reveal_strlit("set-logic");
    reveal_strlit("declare-datatypes"); reveal_strlit("declare-datatype"); reveal_strlit("declare-sort");
    reveal_strlit("declare-const"); reveal_strlit("declare-fun"); reveal_strlit("assert");
    reveal_strlit("check-sat"); reveal_strlit("exit"); reveal_strlit("1");
    let n = items[0]->Atom_0;
    assert(n != "set-logic"@ && n != "declare-datatypes"@ && n != "declare-datatype"@
        && n != "declare-sort"@ && n != "declare-const"@ && n != "declare-fun"@
        && n != "assert"@ && n != "check-sat"@ && n != "exit"@) by {
        assert(n.len() <= 4);
        assert(n[0] == 'p');
    }
    assert("push"@ != "pop"@) by { assert("push"@.len() != "pop"@.len()); }
    let one = "1"@;
    assert(one.len() == 1 && one[0] == '1');
    assert(all_digits(one));
    assert(one.drop_last() =~= Seq::<char>::empty());
    assert(one.last() == '1');
    assert(digits_value(Seq::<char>::empty()) == 0);
    assert(crate::text::digit_val('1') == 1);
    assert(digits_value(one) == 1);
    assert(parse_usize_spec(one) == Some(1usize));
    let l2 = seq![items[0], SExpV::Atom(one)];
    assert(l2[1] == SExpV::Atom(one));
    assert(count_arg_spec(l2, "push: invalid numeric argument"@) == Ok::<nat, Seq<char>>(1));
    assert(count_arg_spec(l2, "pop: invalid numeric argument"@) == Ok::<nat, Seq<char>>(1));
    assert(seq![items[0]][0] == items[0]);
}

} // verus!
