//! The sort environment built from declarations, and sort inference for terms and formulas.
use vstd::prelude::*;
use vstd::string::StringExecFns;
use crate::ast::{
    SortExpr, SortExprV, Term, TermV, Formula, FormulaV, MatchCase, MatchCaseV, MatchPattern,
    MatchPatternV, DatatypeDecl, DatatypeDeclV, ConstructorDeclV, FieldDeclV, strs_v, sort_exprs_v,
    lemma_sort_exprs_v, terms_v, lemma_terms_v, formulas_v, lemma_formulas_v, cases_v,
    lemma_cases_v, datatype_v,
};
use crate::sorts::{
    Sort, SortV, StrMap, sort_v, sorts_v, lemma_sorts_v, sort_of_expr, unify_spec, unifies,
    subst_spec, clone_sort, clone_sorts, sort_text, clone_sort_map, sort_eq, sort_expr_to_sort,
    unify_sorts, substitute_sort, sort_to_text, names_contain,
};
use crate::text::{usize_to_text, nat_text, join3, join4, join5, join6, join7, join8};

verus! {

/// Signature of a constructor: its datatype's parameters, its field sorts and its result sort.
pub struct CtorSig {
    pub type_params: Vec<String>,
    pub field_sorts: Vec<Sort>,
    pub result_sort: Sort,
}

pub struct CtorSigV {
    pub type_params: Seq<Seq<char>>,
    pub field_sorts: Seq<SortV>,
    pub result_sort: SortV,
}

impl View for CtorSig {
    type V = CtorSigV;
    open spec fn view(&self) -> CtorSigV {
        CtorSigV {
            type_params: strs_v(self.type_params@),
            field_sorts: sorts_v(self.field_sorts@),
            result_sort: self.result_sort@,
        }
    }
}

/// Signature of a selector: its datatype's parameters, the datatype's sort and the field sort.
pub struct SelectorSig {
    pub type_params: Vec<String>,
    pub input_sort: Sort,
    pub output_sort: Sort,
}

pub struct SelectorSigV {
    pub type_params: Seq<Seq<char>>,
    pub input_sort: SortV,
    pub output_sort: SortV,
}

impl View for SelectorSig {
    type V = SelectorSigV;
    open spec fn view(&self) -> SelectorSigV {
        SelectorSigV {
            type_params: strs_v(self.type_params@),
            input_sort: self.input_sort@,
            output_sort: self.output_sort@,
        }
    }
}

/// Signature of a declared function: argument sorts and result sort.
pub struct FunSig {
    pub args: Vec<Sort>,
    pub ret: Sort,
}

pub struct FunSigV {
    pub args: Seq<SortV>,
    pub ret: SortV,
}

impl View for FunSig {
    type V = FunSigV;
    open spec fn view(&self) -> FunSigV {
        FunSigV { args: sorts_v(self.args@), ret: self.ret@ }
    }
}

/// What the declarations so far say about sorts, constants, functions, constructors and
/// selectors.
pub struct SortEnv {
    pub known_sorts: Vec<String>,
    pub sort_arities: StrMap<usize>,
    pub const_sorts: StrMap<Sort>,
    pub fun_sigs: StrMap<FunSig>,
    pub ctor_sigs: StrMap<CtorSig>,
    pub selector_sigs: StrMap<SelectorSig>,
}

pub struct SortEnvV {
    pub known_sorts: Seq<Seq<char>>,
    pub sort_arities: Map<Seq<char>, usize>,
    pub const_sorts: Map<Seq<char>, SortV>,
    pub fun_sigs: Map<Seq<char>, FunSigV>,
    pub ctor_sigs: Map<Seq<char>, CtorSigV>,
    pub selector_sigs: Map<Seq<char>, SelectorSigV>,
}

impl View for SortEnv {
    type V = SortEnvV;
    open spec fn view(&self) -> SortEnvV {
        SortEnvV {
            known_sorts: strs_v(self.known_sorts@),
            sort_arities: self.sort_arities@,
            const_sorts: self.const_sorts@,
            fun_sigs: self.fun_sigs@,
            ctor_sigs: self.ctor_sigs@,
            selector_sigs: self.selector_sigs@,
        }
    }
}

/// Local sorts of match-bound variables.
pub type Scope = StrMap<Sort>;

// ---------------------------------------------------------------------------
// The environment as declarations build it
// ---------------------------------------------------------------------------

/// The environment before any declaration: `Bool` and `Int`, and the constants `true`, `false`.
pub open spec fn initial_env() -> SortEnvV {
    SortEnvV {
        known_sorts: seq!["Bool"@, "Int"@],
        sort_arities: Map::empty().insert("Bool"@, 0usize).insert("Int"@, 0usize),
        const_sorts: Map::empty().insert("true"@, SortV::Bool).insert("false"@, SortV::Bool),
        fun_sigs: Map::empty(),
        ctor_sigs: Map::empty(),
        selector_sigs: Map::empty(),
    }
}

pub open spec fn with_sort(env: SortEnvV, n: Seq<char>) -> SortEnvV {
    if env.known_sorts.contains(n) { env } else { SortEnvV { known_sorts: env.known_sorts.push(n), ..env } }
}

pub open spec fn with_sort_arity(env: SortEnvV, n: Seq<char>, a: usize) -> SortEnvV {
    let e = with_sort(env, n);
    SortEnvV { sort_arities: e.sort_arities.insert(n, a), ..e }
}

/// The sort of a datatype's values: its name, or its name applied to its parameters.
pub open spec fn datatype_sort(d: DatatypeDeclV) -> SortV {
    if d.type_params.len() == 0 {
        SortV::Named(d.name)
    } else {
        SortV::App(d.name, d.type_params.map_values(|p: Seq<char>| SortV::Param(p)))
    }
}

pub open spec fn field_sorts_of(c: ConstructorDeclV, tps: Seq<Seq<char>>) -> Seq<SortV> {
    c.fields.map_values(|f: FieldDeclV| sort_of_expr(f.sort, tps))
}

/// Registers the selectors of the fields `c.fields[0..n]`.
pub open spec fn with_selectors(env: SortEnvV, d: DatatypeDeclV, c: ConstructorDeclV, n: int) -> SortEnvV
    decreases n,
{
    if n <= 0 || n > c.fields.len() {
        env
    } else {
        let e = with_selectors(env, d, c, n - 1);
        SortEnvV {
            selector_sigs: e.selector_sigs.insert(c.fields[n - 1].selector, SelectorSigV {
                type_params: d.type_params,
                input_sort: datatype_sort(d),
                output_sort: field_sorts_of(c, d.type_params)[n - 1],
            }),
            ..e
        }
    }
}

pub open spec fn with_ctor(env: SortEnvV, d: DatatypeDeclV, c: ConstructorDeclV) -> SortEnvV {
    let e = SortEnvV {
        ctor_sigs: env.ctor_sigs.insert(c.name, CtorSigV {
            type_params: d.type_params,
            field_sorts: field_sorts_of(c, d.type_params),
            result_sort: datatype_sort(d),
        }),
        ..env
    };
    with_selectors(e, d, c, c.fields.len() as int)
}

/// Registers the constructors `d.constructors[0..n]`.
pub open spec fn with_ctors(env: SortEnvV, d: DatatypeDeclV, n: int) -> SortEnvV
    decreases n,
{
    if n <= 0 || n > d.constructors.len() {
        env
    } else {
        with_ctor(with_ctors(env, d, n - 1), d, d.constructors[n - 1])
    }
}

/// The environment after a datatype declaration.
pub open spec fn with_datatype(env: SortEnvV, d: DatatypeDeclV) -> SortEnvV {
    with_ctors(with_sort_arity(env, d.name, d.arity as usize), d, d.constructors.len() as int)
}

// ---------------------------------------------------------------------------
// Sort rules
// ---------------------------------------------------------------------------

/// Checks a written sort: every name in it is a known sort or a type parameter, and each
/// sort of known arity gets that many arguments; the first fault gives the message.
pub open spec fn sort_expr_check(env: SortEnvV, e: SortExprV, tps: Seq<Seq<char>>) -> Result<(), Seq<char>>
    decreases e, 0int,
{
    match e {
        SortExprV::Simple(n) => {
            if tps.contains(n) {
                Ok(())
            } else if !env.known_sorts.contains(n) {
                Err(unknown_sort_msg(n))
            } else if env.sort_arities.contains_key(n) && env.sort_arities[n] > 0 {
                Err("类型错误: sort '"@ + n + "' 需要 "@ + nat_text(env.sort_arities[n] as nat) + " 个类型参数"@)
            } else {
                Ok(())
            }
        },
        SortExprV::Parametric(n, args) => {
            if !env.known_sorts.contains(n) {
                Err(unknown_sort_msg(n))
            } else if env.sort_arities.contains_key(n) && args.len() != env.sort_arities[n] {
                Err("类型错误: sort '"@ + n + "' 期望 "@ + nat_text(env.sort_arities[n] as nat) + " 个类型参数, 实际 "@
                    + nat_text(args.len()))
            } else {
                sort_exprs_check(env, args, args.len() as int, tps)
            }
        },
    }
}

pub open spec fn unknown_sort_msg(n: Seq<char>) -> Seq<char> {
    "类型错误: 未知的 sort '"@ + n + "'"@
}

/// Checks the written sorts `es[0..n]`, left to right.
pub open spec fn sort_exprs_check(env: SortEnvV, es: Seq<SortExprV>, n: int, tps: Seq<Seq<char>>) -> Result<(), Seq<char>>
    decreases es, n,
{
    if n <= 0 || n > es.len() {
        Ok(())
    } else {
        match sort_exprs_check(env, es, n - 1, tps) {
            Ok(_) => sort_expr_check(env, es[n - 1], tps),
            Err(m) => Err(m),
        }
    }
}

/// A written sort is well formed.
pub open spec fn sort_expr_ok(env: SortEnvV, e: SortExprV, tps: Seq<Seq<char>>) -> bool {
    sort_expr_check(env, e, tps) is Ok
}

/// The sort of a symbol: a match-bound variable, a constant, or a constructor without
/// fields of a datatype without parameters.
pub open spec fn var_sort(env: SortEnvV, n: Seq<char>, sc: Map<Seq<char>, SortV>) -> Result<SortV, Seq<char>> {
    if sc.contains_key(n) {
        Ok(sc[n])
    } else if env.const_sorts.contains_key(n) {
        Ok(env.const_sorts[n])
    } else if env.ctor_sigs.contains_key(n) {
        let sig = env.ctor_sigs[n];
        if sig.field_sorts.len() == 0 {
            if sig.type_params.len() == 0 {
                Ok(sig.result_sort)
            } else {
                Err("类型错误: 多态构造器 '"@ + n + "' 需要 (as "@ + n + " <sort>) 消歧"@)
            }
        } else {
            Err("类型错误: 构造器 '"@ + n + "' 需要 "@ + nat_text(sig.field_sorts.len()) + " 个参数"@)
        }
    } else {
        Err("类型错误: 未声明的符号 '"@ + n + "'"@)
    }
}

/// A constructor given the wrong number of arguments.
pub open spec fn ctor_arity_msg(f: Seq<char>, want: nat, got: nat) -> Seq<char> {
    "类型错误: 构造器 '"@ + f + "' 期望 "@ + nat_text(want) + " 个参数, 实际 "@ + nat_text(got)
}

/// The bindings after unifying the field sorts `fs[0..n]` of constructor `f` with the
/// argument sorts `ss[0..n]`, left to right; an argument that does not fit gives the
/// message, which shows its field sort under the bindings that its own attempt left.
pub open spec fn ctor_args_bind(f: Seq<char>, fs: Seq<SortV>, ss: Seq<SortV>, n: int) -> Result<Map<Seq<char>, SortV>, Seq<char>>
    decreases n,
{
    if n <= 0 || n > fs.len() || n > ss.len() {
        Ok(Map::empty())
    } else {
        match ctor_args_bind(f, fs, ss, n - 1) {
            Ok(b) => {
                let r = unify_spec(fs[n - 1], ss[n - 1], b);
                if r.1 is Some {
                    Err("类型错误: 构造器 '"@ + f + "' 第 "@ + nat_text(n as nat) + " 个参数: 期望 sort "@
                        + sort_text(subst_spec(fs[n - 1], r.0)) + ", 实际 sort "@ + sort_text(ss[n - 1]))
                } else {
                    Ok(r.0)
                }
            },
            Err(m) => Err(m),
        }
    }
}

/// Compares the argument sorts `ss[0..n]` with the parameter sorts `es[0..n]` of function `f`.
pub open spec fn fun_args_check(f: Seq<char>, es: Seq<SortV>, ss: Seq<SortV>, n: int) -> Result<(), Seq<char>>
    decreases n,
{
    if n <= 0 || n > es.len() || n > ss.len() {
        Ok(())
    } else {
        match fun_args_check(f, es, ss, n - 1) {
            Ok(_) => {
                if ss[n - 1] == es[n - 1] {
                    Ok(())
                } else {
                    Err("类型错误: 函数 '"@ + f + "' 第 "@ + nat_text(n as nat) + " 个参数: 期望 "@
                        + sort_text(es[n - 1]) + ", 实际 "@ + sort_text(ss[n - 1]))
                }
            },
            Err(m) => Err(m),
        }
    }
}

/// The sort of `f` applied to arguments of the given sorts: a constructor (its parameters
/// found by unifying each field sort with its argument), a selector, or a declared function.
pub open spec fn app_sort(env: SortEnvV, f: Seq<char>, ss: Seq<SortV>) -> Result<SortV, Seq<char>> {
    if env.ctor_sigs.contains_key(f) {
        let sig = env.ctor_sigs[f];
        if ss.len() != sig.field_sorts.len() {
            Err(ctor_arity_msg(f, sig.field_sorts.len(), ss.len()))
        } else {
            match ctor_args_bind(f, sig.field_sorts, ss, ss.len() as int) {
                Ok(b) => Ok(subst_spec(sig.result_sort, b)),
                Err(m) => Err(m),
            }
        }
    } else if env.selector_sigs.contains_key(f) {
        let sig = env.selector_sigs[f];
        if ss.len() != 1 {
            Err("类型错误: selector '"@ + f + "' 期望 1 个参数, 实际 "@ + nat_text(ss.len()))
        } else {
            let r = unify_spec(sig.input_sort, ss[0], Map::empty());
            if r.1 is Some {
                Err("类型错误: selector '"@ + f + "' 期望参数 sort "@ + sort_text(sig.input_sort) + ", 实际 "@
                    + sort_text(ss[0]))
            } else {
                Ok(subst_spec(sig.output_sort, r.0))
            }
        }
    } else if env.fun_sigs.contains_key(f) {
        let sig = env.fun_sigs[f];
        if ss.len() != sig.args.len() {
            Err("类型错误: 函数 '"@ + f + "' 期望 "@ + nat_text(sig.args.len()) + " 个参数, 实际 "@ + nat_text(ss.len()))
        } else {
            match fun_args_check(f, sig.args, ss, ss.len() as int) {
                Ok(_) => Ok(sig.ret),
                Err(m) => Err(m),
            }
        }
    } else {
        Err("类型错误: 未声明的函数/构造器 '"@ + f + "'"@)
    }
}

/// The sort of a term under the local sorts `sc`, or the message of its first sort error.
pub open spec fn term_sort(env: SortEnvV, t: TermV, sc: Map<Seq<char>, SortV>) -> Result<SortV, Seq<char>>
    decreases t, 0int,
{
    match t {
        TermV::Var(n) => var_sort(env, n, sc),
        TermV::Int(_) => Ok(SortV::Int),
        TermV::App(f, args) => match term_sorts(env, args, args.len() as int, sc) {
            Ok(ss) => app_sort(env, f, ss),
            Err(m) => Err(m),
        },
        TermV::Ite(c, a, b) => match formula_check(env, *c, sc) {
            Ok(_) => match term_sort(env, *a, sc) {
                Ok(x) => match term_sort(env, *b, sc) {
                    Ok(y) => if x == y {
                        Ok(x)
                    } else {
                        Err("类型错误: ite 两分支 sort 不一致: "@ + sort_text(x) + "  vs "@ + sort_text(y))
                    },
                    Err(m) => Err(m),
                },
                Err(m) => Err(m),
            },
            Err(m) => Err(m),
        },
        TermV::Match(s, cases) => match term_sort(env, *s, sc) {
            Ok(ss) => cases_sort(env, ss, cases, cases.len() as int, sc),
            Err(m) => Err(m),
        },
        TermV::As(inner, se) => as_sort(env, *inner, sort_of_expr(se, Seq::empty()), sc),
    }
}

/// The sorts of `ts[0..n]`, left to right.
pub open spec fn term_sorts(env: SortEnvV, ts: Seq<TermV>, n: int, sc: Map<Seq<char>, SortV>) -> Result<Seq<SortV>, Seq<char>>
    decreases ts, n,
{
    if n <= 0 || n > ts.len() {
        Ok(Seq::empty())
    } else {
        match term_sorts(env, ts, n - 1, sc) {
            Ok(r) => match term_sort(env, ts[n - 1], sc) {
                Ok(s) => Ok(r.push(s)),
                Err(m) => Err(m),
            },
            Err(m) => Err(m),
        }
    }
}

/// An `(as ...)` annotation that differs from the inferred sort.
pub open spec fn as_mismatch_msg(target: SortV, inferred: SortV) -> Seq<char> {
    "类型错误: (as ...) 标注 "@ + sort_text(target) + " 与推断 "@ + sort_text(inferred) + " 不一致"@
}

/// `s` must be the annotated sort.
pub open spec fn as_target(s: Result<SortV, Seq<char>>, target: SortV) -> Result<SortV, Seq<char>> {
    match s {
        Ok(x) => if x == target { Ok(target) } else { Err(as_mismatch_msg(target, x)) },
        Err(m) => Err(m),
    }
}

/// A constructor's result sort that cannot be instantiated at the annotated sort.
pub open spec fn as_unify_msg(n: Seq<char>, target: SortV, e: Seq<char>) -> Seq<char> {
    "类型错误: (as "@ + n + " "@ + sort_text(target) + ") — "@ + e
}

/// The first argument `k < n` whose sort differs from its field sort under `b`.
pub open spec fn as_args_check(f: Seq<char>, fs: Seq<SortV>, ss: Seq<SortV>, b: Map<Seq<char>, SortV>, n: int) -> Result<(), Seq<char>>
    decreases n,
{
    if n <= 0 || n > fs.len() || n > ss.len() {
        Ok(())
    } else {
        match as_args_check(f, fs, ss, b, n - 1) {
            Ok(_) => {
                if ss[n - 1] == subst_spec(fs[n - 1], b) {
                    Ok(())
                } else {
                    Err("类型错误: 构造器 '"@ + f + "' 第 "@ + nat_text(n as nat) + " 个参数: 期望 "@
                        + sort_text(subst_spec(fs[n - 1], b)) + ", 实际 "@ + sort_text(ss[n - 1]))
                }
            },
            Err(m) => Err(m),
        }
    }
}

/// The sort of `(as inner target)`: a constructor is instantiated at the target sort;
/// anything else must already have the target sort.
pub open spec fn as_sort(env: SortEnvV, inner: TermV, target: SortV, sc: Map<Seq<char>, SortV>) -> Result<SortV, Seq<char>>
    decreases inner, 1int,
{
    match inner {
        TermV::Var(n) => {
            if env.ctor_sigs.contains_key(n) {
                let sig = env.ctor_sigs[n];
                if sig.field_sorts.len() != 0 {
                    Err("类型错误: 构造器 '"@ + n + "' 期望 "@ + nat_text(sig.field_sorts.len()) + " 个参数"@)
                } else {
                    let r = unify_spec(sig.result_sort, target, Map::empty());
                    match r.1 {
                        Some(e) => Err(as_unify_msg(n, target, e)),
                        None => Ok(target),
                    }
                }
            } else {
                as_target(term_sort(env, inner, sc), target)
            }
        },
        TermV::App(f, args) => match term_sorts(env, args, args.len() as int, sc) {
            Ok(ss) => {
                if env.ctor_sigs.contains_key(f) {
                    let sig = env.ctor_sigs[f];
                    if ss.len() != sig.field_sorts.len() {
                        Err(ctor_arity_msg(f, sig.field_sorts.len(), ss.len()))
                    } else {
                        let r = unify_spec(sig.result_sort, target, Map::empty());
                        match r.1 {
                            Some(e) => Err(as_unify_msg(f, target, e)),
                            None => match as_args_check(f, sig.field_sorts, ss, r.0, ss.len() as int) {
                                Ok(_) => Ok(target),
                                Err(m) => Err(m),
                            },
                        }
                    }
                } else {
                    as_target(app_sort(env, f, ss), target)
                }
            },
            Err(m) => Err(m),
        },
        _ => as_target(term_sort(env, inner, sc), target),
    }
}

/// The sort shared by the bodies of `cases[0..n]` (at least one), each checked against a
/// scrutinee of sort `ss`, left to right.
pub open spec fn cases_sort(env: SortEnvV, ss: SortV, cases: Seq<MatchCaseV>, n: int, sc: Map<Seq<char>, SortV>) -> Result<SortV, Seq<char>>
    decreases cases, n,
{
    if n <= 0 || n > cases.len() {
        Err("类型错误: match 至少需要一个 case"@)
    } else if n == 1 {
        case_sort(env, ss, cases[0], sc)
    } else {
        match cases_sort(env, ss, cases, n - 1, sc) {
            Ok(r) => match case_sort(env, ss, cases[n - 1], sc) {
                Ok(c) => if c == r {
                    Ok(r)
                } else {
                    Err("类型错误: match case sort 不一致: "@ + sort_text(r) + " vs "@ + sort_text(c))
                },
                Err(m) => Err(m),
            },
            Err(m) => Err(m),
        }
    }
}

/// The local sorts after binding `vars[0..n]` to the instantiated field sorts.
pub open spec fn bind_vars(sc: Map<Seq<char>, SortV>, vars: Seq<Seq<char>>, fs: Seq<SortV>, b: Map<Seq<char>, SortV>, n: int) -> Map<Seq<char>, SortV>
    decreases n,
{
    if n <= 0 || n > vars.len() || n > fs.len() {
        sc
    } else {
        bind_vars(sc, vars, fs, b, n - 1).insert(vars[n - 1], subst_spec(fs[n - 1], b))
    }
}

/// The sort of one case's body: a constructor pattern must fit the scrutinee's sort and
/// binds its variables to the field sorts; any other symbol binds the whole scrutinee.
pub open spec fn case_sort(env: SortEnvV, ss: SortV, c: MatchCaseV, sc: Map<Seq<char>, SortV>) -> Result<SortV, Seq<char>>
    decreases c, 0int,
{
    match c.pattern {
        MatchPatternV::Constructor(cn, vars) => {
            if env.ctor_sigs.contains_key(cn) {
                let sig = env.ctor_sigs[cn];
                let r = unify_spec(sig.result_sort, ss, Map::empty());
                if r.1 is Some {
                    Err("类型错误: match 构造器 '"@ + cn + "' sort "@ + sort_text(sig.result_sort)
                        + " 与 scrutinee sort "@ + sort_text(ss) + " 不匹配"@)
                } else if vars.len() != sig.field_sorts.len() {
                    Err("类型错误: 构造器 '"@ + cn + "' pattern 变量数 ("@ + nat_text(vars.len())
                        + ") 与 field 数 ("@ + nat_text(sig.field_sorts.len()) + ") 不匹配"@)
                } else {
                    term_sort(env, c.body, bind_vars(sc, vars, sig.field_sorts, r.0, vars.len() as int))
                }
            } else {
                Err("类型错误: match 中未知构造器 '"@ + cn + "'"@)
            }
        },
        MatchPatternV::Atom(n) => {
            if env.ctor_sigs.contains_key(n) {
                if unifies(env.ctor_sigs[n].result_sort, ss, Map::empty()) {
                    term_sort(env, c.body, sc)
                } else {
                    Err("类型错误: match pattern '"@ + n + "' sort "@ + sort_text(env.ctor_sigs[n].result_sort)
                        + " 与 scrutinee "@ + sort_text(ss) + " 不匹配"@)
                }
            } else {
                term_sort(env, c.body, sc.insert(n, ss))
            }
        },
    }
}

/// Checks a formula: both sides of `=` have one sort, and a tester's argument fits its
/// constructor's datatype; the first fault, left to right, gives the message.
pub open spec fn formula_check(env: SortEnvV, f: FormulaV, sc: Map<Seq<char>, SortV>) -> Result<(), Seq<char>>
    decreases f, 0int,
{
    match f {
        FormulaV::True => Ok(()),
        FormulaV::False => Ok(()),
        FormulaV::Eq(a, b) => match term_sort(env, a, sc) {
            Ok(x) => match term_sort(env, b, sc) {
                Ok(y) => if x == y {
                    Ok(())
                } else {
                    Err("类型错误: '=' 两侧 sort 不一致: "@ + sort_text(x) + " vs "@ + sort_text(y))
                },
                Err(m) => Err(m),
            },
            Err(m) => Err(m),
        },
        FormulaV::Not(g) => formula_check(env, *g, sc),
        FormulaV::And(fs) => formulas_check(env, fs, fs.len() as int, sc),
        FormulaV::Or(fs) => formulas_check(env, fs, fs.len() as int, sc),
        FormulaV::Implies(a, b) => match formula_check(env, *a, sc) {
            Ok(_) => formula_check(env, *b, sc),
            Err(m) => Err(m),
        },
        FormulaV::Ite(c, a, b) => match formula_check(env, *c, sc) {
            Ok(_) => match formula_check(env, *a, sc) {
                Ok(_) => formula_check(env, *b, sc),
                Err(m) => Err(m),
            },
            Err(m) => Err(m),
        },
        FormulaV::IsTester(cn, t) => match term_sort(env, t, sc) {
            Ok(s) => {
                if !env.ctor_sigs.contains_key(cn) {
                    Err("类型错误: 未知构造器 '"@ + cn + "'"@)
                } else if unifies(env.ctor_sigs[cn].result_sort, s, Map::empty()) {
                    Ok(())
                } else {
                    Err("类型错误: (is-"@ + cn + ") 期望 ADT sort "@ + sort_text(env.ctor_sigs[cn].result_sort)
                        + ", 实际 "@ + sort_text(s))
                }
            },
            Err(m) => Err(m),
        },
    }
}

/// Checks the formulas `fs[0..n]`, left to right.
pub open spec fn formulas_check(env: SortEnvV, fs: Seq<FormulaV>, n: int, sc: Map<Seq<char>, SortV>) -> Result<(), Seq<char>>
    decreases fs, n,
{
    if n <= 0 || n > fs.len() {
        Ok(())
    } else {
        match formulas_check(env, fs, n - 1, sc) {
            Ok(_) => formula_check(env, fs[n - 1], sc),
            Err(m) => Err(m),
        }
    }
}

/// A formula is well sorted.
pub open spec fn formula_ok(env: SortEnvV, f: FormulaV, sc: Map<Seq<char>, SortV>) -> bool {
    formula_check(env, f, sc) is Ok
}

// ---------------------------------------------------------------------------
// Building the environment
// ---------------------------------------------------------------------------

fn name_list_push(v: &mut Vec<String>, n: String)
    ensures strs_v(final(v)@) == strs_v(old(v)@).push(n@),
{
    let ghost old_v = v@;
    v.push(n);
    assert(strs_v(v@) =~= strs_v(old_v).push(v@.last()@));
}

fn clone_names(v: &Vec<String>) -> (r: Vec<String>)
    ensures strs_v(r@) == strs_v(v@),
{
    crate::ast::clone_strings(v)
}

impl SortEnv {
    /// The environment before any declaration.
    pub fn new() -> (env: Self)
        ensures env@ == initial_env(),
    {
        let mut known: Vec<String> = Vec::new();
        name_list_push(&mut known, String::from_str("Bool"));
        name_list_push(&mut known, String::from_str("Int"));
        let mut env = SortEnv {
            known_sorts: known,
            sort_arities: StrMap::new(),
            const_sorts: StrMap::new(),
            fun_sigs: StrMap::new(),
            ctor_sigs: StrMap::new(),
            selector_sigs: StrMap::new(),
        };
        env.sort_arities.insert(String::from_str("Bool"), 0);
        env.sort_arities.insert(String::from_str("Int"), 0);
        env.const_sorts.insert(String::from_str("true"), Sort::Bool);
        env.const_sorts.insert(String::from_str("false"), Sort::Bool);
        assert(env@.known_sorts =~= seq!["Bool"@, "Int"@]);
        env
    }

    /// Adds a sort name, once.
    pub fn register_sort(&mut self, name: &str)
        ensures final(self)@ == with_sort(old(self)@, name@),
    {
        let n = String::from_str(name);
        if !names_contain(&self.known_sorts, &n) {
            name_list_push(&mut self.known_sorts, n);
        }
    }

    /// Adds a sort name with its arity.
    pub fn register_sort_with_arity(&mut self, name: &str, arity: usize)
        ensures final(self)@ == with_sort_arity(old(self)@, name@, arity),
    {
        self.register_sort(name);
        self.sort_arities.insert(String::from_str(name), arity);
    }

    /// Checks that a written sort is well formed.
    #[verifier::loop_isolation(false)]
    pub fn check_sort_expr(&self, expr: &SortExpr, type_params: &Vec<String>) -> (res: Result<(), String>)
        ensures
            match sort_expr_check(self@, expr@, strs_v(type_params@)) {
                Ok(_) => res is Ok,
                Err(m) => res matches Err(e) && e@ == m,
            },
        decreases expr,
    {
        match expr {
            SortExpr::Simple(name) => {
                if names_contain(type_params, name) {
                    return Ok(());
                }
                if !names_contain(&self.known_sorts, name) {
                    return Err(join3("类型错误: 未知的 sort '", name.as_str(), "'"));
                }
                match self.sort_arities.get(name.as_str()) {
                    Some(a) => {
                        if *a > 0 {
                            let at = usize_to_text(*a);
                            return Err(join5("类型错误: sort '", name.as_str(), "' 需要 ", at.as_str(), " 个类型参数"));
                        }
                    },
                    None => {},
                }
                Ok(())
            },
            SortExpr::Parametric(name, args) => {
                proof { lemma_sort_exprs_v(args@); }
                if !names_contain(&self.known_sorts, name) {
                    return Err(join3("类型错误: 未知的 sort '", name.as_str(), "'"));
                }
                match self.sort_arities.get(name.as_str()) {
                    Some(a) => {
                        if args.len() != *a {
                            let at = usize_to_text(*a);
                            let nt = usize_to_text(args.len());
                            return Err(join6("类型错误: sort '", name.as_str(), "' 期望 ", at.as_str(),
                                " 个类型参数, 实际 ", nt.as_str()));
                        }
                    },
                    None => {},
                }
                let ghost av = sort_exprs_v(args@);
                let ghost tps = strs_v(type_params@);
                let mut i: usize = 0;
                while i < args.len()
                    invariant
                        i <= args.len(),
                        av == sort_exprs_v(args@),
                        av.len() == args.len(),
                        tps == strs_v(type_params@),
                        sort_exprs_check(self@, av, i as int, tps) is Ok,
                    decreases args.len() - i,
                {
                    assert(av[i as int] == args@[i as int]@);
                    match self.check_sort_expr(&args[i], type_params) {
                        Ok(()) => {},
                        Err(e) => {
                            proof { lemma_sort_exprs_stop(self@, av, i as int + 1, av.len() as int, tps); }
                            return Err(e);
                        },
                    }
                    i += 1;
                }
                Ok(())
            },
        }
    }

    /// Adds a datatype: its sort with its arity, a signature for each constructor and one for
    /// each selector.
    #[verifier::loop_isolation(false)]
    pub fn register_datatype(&mut self, dt: &DatatypeDecl)
        ensures final(self)@ == with_datatype(old(self)@, datatype_v(*dt)),
    {
        let ghost d = datatype_v(*dt);
        self.register_sort_with_arity(dt.name.as_str(), dt.arity);
        let ghost e1 = self@;
        let result_sort = datatype_sort_exec(dt);
        let mut i: usize = 0;
        while i < dt.constructors.len()
            invariant
                i <= dt.constructors.len(),
                d == datatype_v(*dt),
                self@ == with_ctors(e1, d, i as int),
                result_sort@ == datatype_sort(d),
            decreases dt.constructors.len() - i,
        {
            let ctor = &dt.constructors[i];
            let ghost c = d.constructors[i as int];
            assert(c == crate::ast::ctor_v(*ctor));
            let mut field_sorts: Vec<Sort> = Vec::new();
            let mut j: usize = 0;
            while j < ctor.fields.len()
                invariant
                    j <= ctor.fields.len(),
                    c == crate::ast::ctor_v(*ctor),
                    field_sorts.len() == j,
                    forall|k: int| 0 <= k < j ==> sort_v(#[trigger] field_sorts@[k]) == field_sorts_of(c, d.type_params)[k],
                decreases ctor.fields.len() - j,
            {
                field_sorts.push(sort_expr_to_sort(&ctor.fields[j].sort, &dt.type_params));
                j += 1;
            }
            proof {
                lemma_sorts_v(field_sorts@);
                assert(sorts_v(field_sorts@) =~= field_sorts_of(c, d.type_params));
            }
            let ghost before = self@;
            self.ctor_sigs.insert(ctor.name.clone(), CtorSig {
                type_params: clone_names(&dt.type_params),
                field_sorts: clone_sorts(&field_sorts),
                result_sort: clone_sort(&result_sort),
            });
            let ghost e2 = self@;
            assert(e2 == SortEnvV {
                ctor_sigs: before.ctor_sigs.insert(c.name, CtorSigV {
                    type_params: d.type_params,
                    field_sorts: field_sorts_of(c, d.type_params),
                    result_sort: datatype_sort(d),
                }),
                ..before
            });
            let mut k: usize = 0;
            while k < ctor.fields.len()
                invariant
                    k <= ctor.fields.len(),
                    c == crate::ast::ctor_v(*ctor),
                    c.fields.len() == ctor.fields.len(),
                    self@ == with_selectors(e2, d, c, k as int),
                    sorts_v(field_sorts@) == field_sorts_of(c, d.type_params),
                    field_sorts.len() == ctor.fields.len(),
                decreases ctor.fields.len() - k,
            {
                proof { lemma_sorts_v(field_sorts@); }
                self.selector_sigs.insert(ctor.fields[k].selector.clone(), SelectorSig {
                    type_params: clone_names(&dt.type_params),
                    input_sort: clone_sort(&result_sort),
                    output_sort: clone_sort(&field_sorts[k]),
                });
                k += 1;
            }
            i += 1;
        }
    }

    /// Declares a constant's sort.
    pub fn register_const(&mut self, name: &str, sort: Sort)
        ensures final(self)@ == (SortEnvV { const_sorts: old(self)@.const_sorts.insert(name@, sort@), ..old(self)@ }),
    {
        self.const_sorts.insert(String::from_str(name), sort);
    }

    /// Declares a function's signature.
    pub fn register_fun(&mut self, name: &str, arg_sorts: Vec<Sort>, ret_sort: Sort)
        ensures
            final(self)@ == (SortEnvV {
                fun_sigs: old(self)@.fun_sigs.insert(name@, FunSigV { args: sorts_v(arg_sorts@), ret: ret_sort@ }),
                ..old(self)@
            }),
    {
        self.fun_sigs.insert(String::from_str(name), FunSig { args: arg_sorts, ret: ret_sort });
    }
}

/// Once a written sort is refused, the later ones are not checked.
pub proof fn lemma_sort_exprs_stop(env: SortEnvV, es: Seq<SortExprV>, k: int, n: int, tps: Seq<Seq<char>>)
    requires 0 < k <= n <= es.len(), sort_exprs_check(env, es, k, tps) is Err,
    ensures sort_exprs_check(env, es, n, tps) == sort_exprs_check(env, es, k, tps),
    decreases n - k,
{
    if k < n { lemma_sort_exprs_stop(env, es, k, n - 1, tps); }
}

/// The sort of a datatype's values.
fn datatype_sort_exec(dt: &DatatypeDecl) -> (r: Sort)
    ensures r@ == datatype_sort(datatype_v(*dt)),
{
    if dt.type_params.len() == 0 {
        Sort::Named(dt.name.clone())
    } else {
        let mut ps: Vec<Sort> = Vec::new();
        let mut i: usize = 0;
        while i < dt.type_params.len()
            invariant
                i <= dt.type_params.len(),
                ps.len() == i,
                forall|k: int| 0 <= k < i ==> sort_v(#[trigger] ps@[k]) == SortV::Param(dt.type_params@[k]@),
            decreases dt.type_params.len() - i,
        {
            ps.push(Sort::Param(dt.type_params[i].clone()));
            i += 1;
        }
        proof {
            lemma_sorts_v(ps@);
            assert(sorts_v(ps@) =~= strs_v(dt.type_params@).map_values(|p: Seq<char>| SortV::Param(p)));
        }
        Sort::App(dt.name.clone(), ps)
    }
}

pub proof fn lemma_term_sorts_stop(env: SortEnvV, ts: Seq<TermV>, k: int, n: int, sc: Map<Seq<char>, SortV>)
    requires 0 < k <= n <= ts.len(), term_sorts(env, ts, k, sc) is Err,
    ensures term_sorts(env, ts, n, sc) == term_sorts(env, ts, k, sc),
    decreases n - k,
{
    if k < n { lemma_term_sorts_stop(env, ts, k, n - 1, sc); }
}

pub proof fn lemma_term_sorts_len(env: SortEnvV, ts: Seq<TermV>, n: int, sc: Map<Seq<char>, SortV>)
    requires 0 <= n <= ts.len(), term_sorts(env, ts, n, sc) is Ok,
    ensures term_sorts(env, ts, n, sc)->Ok_0.len() == n,
    decreases n,
{
    if n > 0 { lemma_term_sorts_len(env, ts, n - 1, sc); }
}

pub proof fn lemma_formulas_stop(env: SortEnvV, fs: Seq<FormulaV>, k: int, n: int, sc: Map<Seq<char>, SortV>)
    requires 0 < k <= n <= fs.len(), formulas_check(env, fs, k, sc) is Err,
    ensures formulas_check(env, fs, n, sc) == formulas_check(env, fs, k, sc),
    decreases n - k,
{
    if k < n { lemma_formulas_stop(env, fs, k, n - 1, sc); }
}

pub proof fn lemma_cases_sort_stop(env: SortEnvV, ss: SortV, cs: Seq<MatchCaseV>, k: int, n: int, sc: Map<Seq<char>, SortV>)
    requires 0 < k <= n <= cs.len(), cases_sort(env, ss, cs, k, sc) is Err,
    ensures cases_sort(env, ss, cs, n, sc) == cases_sort(env, ss, cs, k, sc),
    decreases n - k,
{
    if k < n { lemma_cases_sort_stop(env, ss, cs, k, n - 1, sc); }
}

pub proof fn lemma_ctor_args_stop(f: Seq<char>, fs: Seq<SortV>, ss: Seq<SortV>, k: int, n: int)
    requires 0 < k <= n <= fs.len(), n <= ss.len(), ctor_args_bind(f, fs, ss, k) is Err,
    ensures ctor_args_bind(f, fs, ss, n) == ctor_args_bind(f, fs, ss, k),
    decreases n - k,
{
    if k < n { lemma_ctor_args_stop(f, fs, ss, k, n - 1); }
}

pub proof fn lemma_fun_args_stop(f: Seq<char>, es: Seq<SortV>, ss: Seq<SortV>, k: int, n: int)
    requires 0 < k <= n <= es.len(), n <= ss.len(), fun_args_check(f, es, ss, k) is Err,
    ensures fun_args_check(f, es, ss, n) == fun_args_check(f, es, ss, k),
    decreases n - k,
{
    if k < n { lemma_fun_args_stop(f, es, ss, k, n - 1); }
}

pub proof fn lemma_as_args_stop(f: Seq<char>, fs: Seq<SortV>, ss: Seq<SortV>, b: Map<Seq<char>, SortV>, k: int, n: int)
    requires 0 < k <= n <= fs.len(), n <= ss.len(), as_args_check(f, fs, ss, b, k) is Err,
    ensures as_args_check(f, fs, ss, b, n) == as_args_check(f, fs, ss, b, k),
    decreases n - k,
{
    if k < n { lemma_as_args_stop(f, fs, ss, b, k, n - 1); }
}

impl SortEnv {
    /// The sort of a term under the local sorts of match-bound variables.
    #[verifier::loop_isolation(false)]
    #[verifier::rlimit(40)]
    pub fn infer_term_sort(&self, term: &Term, local_scope: &StrMap<Sort>) -> (res: Result<Sort, String>)
        ensures
            match term_sort(self@, term@, local_scope@) {
                Ok(s) => res matches Ok(r) && r@ == s,
                Err(m) => res matches Err(e) && e@ == m,
            },
        decreases term, 0int,
    {
        match term {
            Term::Var(name) => {
                match local_scope.get(name.as_str()) {
                    Some(s) => { return Ok(clone_sort(s)); },
                    None => {},
                }
                match self.const_sorts.get(name.as_str()) {
                    Some(s) => { return Ok(clone_sort(s)); },
                    None => {},
                }
                match self.ctor_sigs.get(name.as_str()) {
                    Some(sig) => {
                        proof { lemma_sorts_v(sig.field_sorts@); }
                        if sig.field_sorts.len() == 0 {
                            if sig.type_params.len() == 0 {
                                Ok(clone_sort(&sig.result_sort))
                            } else {
                                Err(join5("类型错误: 多态构造器 '", name.as_str(), "' 需要 (as ", name.as_str(), " <sort>) 消歧"))
                            }
                        } else {
                            let n = usize_to_text(sig.field_sorts.len());
                            Err(join5("类型错误: 构造器 '", name.as_str(), "' 需要 ", n.as_str(), " 个参数"))
                        }
                    },
                    None => Err(join3("类型错误: 未声明的符号 '", name.as_str(), "'")),
                }
            },
            Term::Int(_) => Ok(Sort::Int),
            Term::App(func, args) => {
                proof { lemma_terms_v(args@); }
                let arg_sorts = match self.infer_arg_sorts(args, local_scope) {
                    Ok(v) => v,
                    Err(e) => { return Err(e); },
                };
                self.infer_app_sort(func.as_str(), arg_sorts.as_slice())
            },
            Term::Ite(cond, then_t, else_t) => {
                match self.check_formula(cond, local_scope) {
                    Ok(()) => {},
                    Err(e) => { return Err(e); },
                }
                let ts = match self.infer_term_sort(then_t, local_scope) {
                    Ok(s) => s,
                    Err(e) => { return Err(e); },
                };
                let es = match self.infer_term_sort(else_t, local_scope) {
                    Ok(s) => s,
                    Err(e) => { return Err(e); },
                };
                if !sort_eq(&ts, &es) {
                    let a = sort_to_text(&ts);
                    let b = sort_to_text(&es);
                    return Err(join4("类型错误: ite 两分支 sort 不一致: ", a.as_str(), "  vs ", b.as_str()));
                }
                Ok(ts)
            },
            Term::Match(scrut, cases) => {
                let scrut_sort = match self.infer_term_sort(scrut, local_scope) {
                    Ok(s) => s,
                    Err(e) => { return Err(e); },
                };
                proof { lemma_cases_v(cases@); }
                let ghost cv = cases_v(cases@);
                if cases.len() == 0 {
                    let e = String::from_str("类型错误: match 至少需要一个 case");
                    assert(cv.len() == 0);
                    assert(cases_sort(self@, scrut_sort@, cv, cv.len() as int, local_scope@)
                        == Err::<SortV, Seq<char>>(e@));
                    return Err(e);
                }
                let mut result_sort: Option<Sort> = None;
                let mut i: usize = 0;
                while i < cases.len()
                    invariant
                        i <= cases.len(),
                        cv == cases_v(cases@),
                        cv.len() == cases.len(),
                        i == 0 ==> result_sort is None,
                        i > 0 ==> (result_sort matches Some(r)
                            && cases_sort(self@, scrut_sort@, cv, i as int, local_scope@) == Ok::<SortV, Seq<char>>(r@)),
                    decreases cases.len() - i,
                {
                    assert(cv[i as int] == cases@[i as int]@);
                    let cs = match self.infer_match_case_sort(&scrut_sort, &cases[i], local_scope) {
                        Ok(s) => s,
                        Err(e) => {
                            proof { lemma_cases_sort_stop(self@, scrut_sort@, cv, i as int + 1, cv.len() as int, local_scope@); }
                            return Err(e);
                        },
                    };
                    match &result_sort {
                        Some(rs) => {
                            if !sort_eq(&cs, rs) {
                                let a = sort_to_text(rs);
                                let b = sort_to_text(&cs);
                                let e = join4("类型错误: match case sort 不一致: ", a.as_str(), " vs ", b.as_str());
                                proof { lemma_cases_sort_stop(self@, scrut_sort@, cv, i as int + 1, cv.len() as int, local_scope@); }
                                return Err(e);
                            }
                        },
                        None => {},
                    }
                    if i == 0 {
                        result_sort = Some(cs);
                    }
                    i += 1;
                }
                match result_sort {
                    Some(r) => Ok(r),
                    None => Err(String::from_str("类型错误: match 至少需要一个 case")),
                }
            },
            Term::As(inner, sort_expr) => {
                let no_params: Vec<String> = Vec::new();
                let target = sort_expr_to_sort(sort_expr, &no_params);
                assert(strs_v(no_params@) =~= Seq::<Seq<char>>::empty());
                self.infer_as_sort(inner, &target, local_scope)
            },
        }
    }

    /// The sorts of some arguments, left to right; the first that is ill-sorted ends it.
    #[verifier::loop_isolation(false)]
    fn infer_arg_sorts(&self, args: &Vec<Term>, local_scope: &StrMap<Sort>) -> (res: Result<Vec<Sort>, String>)
        ensures
            match term_sorts(self@, terms_v(args@), args.len() as int, local_scope@) {
                Ok(ss) => res matches Ok(r) && sorts_v(r@) == ss,
                Err(m) => res matches Err(e) && e@ == m,
            },
        decreases args, 0int,
    {
        proof { lemma_terms_v(args@); }
        let ghost av = terms_v(args@);
        let mut arg_sorts: Vec<Sort> = Vec::new();
        let mut i: usize = 0;
        while i < args.len()
            invariant
                i <= args.len(),
                av == terms_v(args@),
                av.len() == args.len(),
                term_sorts(self@, av, i as int, local_scope@) == Ok::<Seq<SortV>, Seq<char>>(sorts_v(arg_sorts@)),
            decreases args.len() - i,
        {
            assert(av[i as int] == args@[i as int]@);
            assert(decreases_to!(args => args@[i as int]));
            match self.infer_term_sort(&args[i], local_scope) {
                Ok(srt) => {
                    let ghost old_sorts = arg_sorts@;
                    arg_sorts.push(srt);
                    assert(arg_sorts@.drop_last() == old_sorts);
                },
                Err(e) => {
                    proof { lemma_term_sorts_stop(self@, av, i as int + 1, av.len() as int, local_scope@); }
                    return Err(e);
                },
            }
            i += 1;
        }
        Ok(arg_sorts)
    }

    /// The sort of `(as inner target)`.
    #[verifier::loop_isolation(false)]
    #[verifier::rlimit(40)]
    pub fn infer_as_sort(&self, inner: &Term, target: &Sort, local_scope: &StrMap<Sort>) -> (res: Result<Sort, String>)
        ensures
            match as_sort(self@, inner@, target@, local_scope@) {
                Ok(s) => res matches Ok(r) && r@ == s,
                Err(m) => res matches Err(e) && e@ == m,
            },
        decreases inner, 1int,
    {
        match inner {
            Term::Var(name) => {
                match self.ctor_sigs.get(name.as_str()) {
                    Some(sig) => {
                        proof { lemma_sorts_v(sig.field_sorts@); }
                        if sig.field_sorts.len() != 0 {
                            let n = usize_to_text(sig.field_sorts.len());
                            return Err(join5("类型错误: 构造器 '", name.as_str(), "' 期望 ", n.as_str(), " 个参数"));
                        }
                        let mut bindings: StrMap<Sort> = StrMap::new();
                        match unify_sorts(&sig.result_sort, target, &mut bindings) {
                            Ok(()) => {},
                            Err(e) => {
                                let t = sort_to_text(target);
                                return Err(join6("类型错误: (as ", name.as_str(), " ", t.as_str(), ") — ", e.as_str()));
                            },
                        }
                        return Ok(clone_sort(target));
                    },
                    None => {},
                }
                let inner_sort = match self.infer_term_sort(inner, local_scope) {
                    Ok(s) => s,
                    Err(e) => { return Err(e); },
                };
                if !sort_eq(&inner_sort, target) {
                    return Err(as_mismatch(target, &inner_sort));
                }
                Ok(clone_sort(target))
            },
            Term::App(func, args) => {
                proof { lemma_terms_v(args@); }
                let arg_sorts = match self.infer_arg_sorts(args, local_scope) {
                    Ok(v) => v,
                    Err(e) => { return Err(e); },
                };
                proof {
                    lemma_sorts_v(arg_sorts@);
                    lemma_terms_v(args@);
                    lemma_term_sorts_len(self@, terms_v(args@), args.len() as int, local_scope@);
                }
                let ghost ss = sorts_v(arg_sorts@);
                match self.ctor_sigs.get(func.as_str()) {
                    Some(sig) => {
                        proof { lemma_sorts_v(sig.field_sorts@); }
                        let ghost fs = sorts_v(sig.field_sorts@);
                        if arg_sorts.len() != sig.field_sorts.len() {
                            let a = usize_to_text(sig.field_sorts.len());
                            let b = usize_to_text(arg_sorts.len());
                            return Err(join6("类型错误: 构造器 '", func.as_str(), "' 期望 ", a.as_str(), " 个参数, 实际 ", b.as_str()));
                        }
                        let mut bindings: StrMap<Sort> = StrMap::new();
                        match unify_sorts(&sig.result_sort, target, &mut bindings) {
                            Ok(()) => {},
                            Err(e) => {
                                let t = sort_to_text(target);
                                return Err(join6("类型错误: (as ", func.as_str(), " ", t.as_str(), ") — ", e.as_str()));
                            },
                        }
                        let mut k: usize = 0;
                        while k < arg_sorts.len()
                            invariant
                                k <= arg_sorts.len(),
                                arg_sorts.len() == sig.field_sorts.len(),
                                ss == sorts_v(arg_sorts@),
                                fs == sorts_v(sig.field_sorts@),
                                ss.len() == fs.len(),
                                as_args_check(func@, fs, ss, bindings@, k as int) is Ok,
                            decreases arg_sorts.len() - k,
                        {
                            let exp_inst = substitute_sort(&sig.field_sorts[k], &bindings);
                            if !sort_eq(&arg_sorts[k], &exp_inst) {
                                let ktext = usize_to_text(k + 1);
                                let a = sort_to_text(&exp_inst);
                                let b = sort_to_text(&arg_sorts[k]);
                                let e = join8("类型错误: 构造器 '", func.as_str(), "' 第 ", ktext.as_str(),
                                    " 个参数: 期望 ", a.as_str(), ", 实际 ", b.as_str());
                                proof { lemma_as_args_stop(func@, fs, ss, bindings@, k as int + 1, fs.len() as int); }
                                return Err(e);
                            }
                            k += 1;
                        }
                        return Ok(clone_sort(target));
                    },
                    None => {},
                }
                let inner_sort = match self.infer_app_sort(func.as_str(), arg_sorts.as_slice()) {
                    Ok(s) => s,
                    Err(e) => { return Err(e); },
                };
                if !sort_eq(&inner_sort, target) {
                    return Err(as_mismatch(target, &inner_sort));
                }
                Ok(clone_sort(target))
            },
            _ => {
                let inner_sort = match self.infer_term_sort(inner, local_scope) {
                    Ok(s) => s,
                    Err(e) => { return Err(e); },
                };
                if !sort_eq(&inner_sort, target) {
                    return Err(as_mismatch(target, &inner_sort));
                }
                Ok(clone_sort(target))
            },
        }
    }

    /// The sort of `func` applied to arguments of the given sorts.
    #[verifier::loop_isolation(false)]
    pub fn infer_app_sort(&self, func: &str, arg_sorts: &[Sort]) -> (res: Result<Sort, String>)
        ensures
            match app_sort(self@, func@, sorts_v(arg_sorts@)) {
                Ok(s) => res matches Ok(r) && r@ == s,
                Err(m) => res matches Err(e) && e@ == m,
            },
    {
        proof { lemma_sorts_v(arg_sorts@); }
        let ghost ss = sorts_v(arg_sorts@);
        match self.ctor_sigs.get(func) {
            Some(sig) => {
                proof { lemma_sorts_v(sig.field_sorts@); }
                let ghost fs = sorts_v(sig.field_sorts@);
                if arg_sorts.len() != sig.field_sorts.len() {
                    let a = usize_to_text(sig.field_sorts.len());
                    let b = usize_to_text(arg_sorts.len());
                    return Err(join6("类型错误: 构造器 '", func, "' 期望 ", a.as_str(), " 个参数, 实际 ", b.as_str()));
                }
                let mut bindings: StrMap<Sort> = StrMap::new();
                let mut i: usize = 0;
                while i < arg_sorts.len()
                    invariant
                        i <= arg_sorts.len(),
                        arg_sorts.len() == sig.field_sorts.len(),
                        ss == sorts_v(arg_sorts@),
                        fs == sorts_v(sig.field_sorts@),
                        ctor_args_bind(func@, fs, ss, i as int) == Ok::<Map<Seq<char>, SortV>, Seq<char>>(bindings@),
                    decreases arg_sorts.len() - i,
                {
                    assert(fs[i as int] == sig.field_sorts@[i as int]@);
                    assert(ss[i as int] == arg_sorts@[i as int]@);
                    match unify_sorts(&sig.field_sorts[i], &arg_sorts[i], &mut bindings) {
                        Ok(()) => {},
                        Err(_) => {
                            let ktext = usize_to_text(i + 1);
                            let e = substitute_sort(&sig.field_sorts[i], &bindings);
                            let a = sort_to_text(&e);
                            let b = sort_to_text(&arg_sorts[i]);
                            let m = join8("类型错误: 构造器 '", func, "' 第 ", ktext.as_str(),
                                " 个参数: 期望 sort ", a.as_str(), ", 实际 sort ", b.as_str());
                            proof { lemma_ctor_args_stop(func@, fs, ss, i as int + 1, fs.len() as int); }
                            return Err(m);
                        },
                    }
                    i += 1;
                }
                return Ok(substitute_sort(&sig.result_sort, &bindings));
            },
            None => {},
        }
        match self.selector_sigs.get(func) {
            Some(sig) => {
                if arg_sorts.len() != 1 {
                    let n = usize_to_text(arg_sorts.len());
                    return Err(join4("类型错误: selector '", func, "' 期望 1 个参数, 实际 ", n.as_str()));
                }
                let mut bindings: StrMap<Sort> = StrMap::new();
                match unify_sorts(&sig.input_sort, &arg_sorts[0], &mut bindings) {
                    Ok(()) => {},
                    Err(_) => {
                        let a = sort_to_text(&sig.input_sort);
                        let b = sort_to_text(&arg_sorts[0]);
                        return Err(join6("类型错误: selector '", func, "' 期望参数 sort ", a.as_str(), ", 实际 ", b.as_str()));
                    },
                }
                return Ok(substitute_sort(&sig.output_sort, &bindings));
            },
            None => {},
        }
        match self.fun_sigs.get(func) {
            Some(sig) => {
                proof { lemma_sorts_v(sig.args@); }
                let ghost es = sorts_v(sig.args@);
                if arg_sorts.len() != sig.args.len() {
                    let a = usize_to_text(sig.args.len());
                    let b = usize_to_text(arg_sorts.len());
                    return Err(join6("类型错误: 函数 '", func, "' 期望 ", a.as_str(), " 个参数, 实际 ", b.as_str()));
                }
                let mut i: usize = 0;
                while i < arg_sorts.len()
                    invariant
                        i <= arg_sorts.len(),
                        arg_sorts.len() == sig.args.len(),
                        ss == sorts_v(arg_sorts@),
                        es == sorts_v(sig.args@),
                        fun_args_check(func@, es, ss, i as int) is Ok,
                    decreases arg_sorts.len() - i,
                {
                    if !sort_eq(&arg_sorts[i], &sig.args[i]) {
                        let ktext = usize_to_text(i + 1);
                        let a = sort_to_text(&sig.args[i]);
                        let b = sort_to_text(&arg_sorts[i]);
                        let m = join8("类型错误: 函数 '", func, "' 第 ", ktext.as_str(),
                            " 个参数: 期望 ", a.as_str(), ", 实际 ", b.as_str());
                        proof { lemma_fun_args_stop(func@, es, ss, i as int + 1, es.len() as int); }
                        return Err(m);
                    }
                    i += 1;
                }
                return Ok(clone_sort(&sig.ret));
            },
            None => {},
        }
        Err(join3("类型错误: 未声明的函数/构造器 '", func, "'"))
    }

    /// The sort of one match case's body, with the pattern's variables bound.
    #[verifier::loop_isolation(false)]
    pub fn infer_match_case_sort(&self, scrut_sort: &Sort, case: &MatchCase, outer_scope: &StrMap<Sort>) -> (res: Result<Sort, String>)
        ensures
            match case_sort(self@, scrut_sort@, case@, outer_scope@) {
                Ok(s) => res matches Ok(r) && r@ == s,
                Err(m) => res matches Err(e) && e@ == m,
            },
        decreases case, 0int,
    {
        let mut local_scope = clone_sort_map(outer_scope);
        match &case.pattern {
            MatchPattern::Constructor(ctor_name, vars) => {
                match self.ctor_sigs.get(ctor_name.as_str()) {
                    Some(sig) => {
                        proof { lemma_sorts_v(sig.field_sorts@); }
                        let ghost fs = sorts_v(sig.field_sorts@);
                        let ghost vs = strs_v(vars@);
                        let mut bindings: StrMap<Sort> = StrMap::new();
                        match unify_sorts(&sig.result_sort, scrut_sort, &mut bindings) {
                            Ok(()) => {},
                            Err(_) => {
                                let a = sort_to_text(&sig.result_sort);
                                let b = sort_to_text(scrut_sort);
                                return Err(join7("类型错误: match 构造器 '", ctor_name.as_str(), "' sort ", a.as_str(),
                                    " 与 scrutinee sort ", b.as_str(), " 不匹配"));
                            },
                        }
                        if vars.len() != sig.field_sorts.len() {
                            let a = usize_to_text(vars.len());
                            let b = usize_to_text(sig.field_sorts.len());
                            return Err(join7("类型错误: 构造器 '", ctor_name.as_str(), "' pattern 变量数 (", a.as_str(),
                                ") 与 field 数 (", b.as_str(), ") 不匹配"));
                        }
                        let mut i: usize = 0;
                        while i < vars.len()
                            invariant
                                i <= vars.len(),
                                vars.len() == sig.field_sorts.len(),
                                fs == sorts_v(sig.field_sorts@),
                                vs == strs_v(vars@),
                                local_scope@ == bind_vars(outer_scope@, vs, fs, bindings@, i as int),
                            decreases vars.len() - i,
                        {
                            let st = substitute_sort(&sig.field_sorts[i], &bindings);
                            local_scope.insert(vars[i].clone(), st);
                            i += 1;
                        }
                    },
                    None => {
                        return Err(join3("类型错误: match 中未知构造器 '", ctor_name.as_str(), "'"));
                    },
                }
            },
            MatchPattern::Atom(name) => {
                match self.ctor_sigs.get(name.as_str()) {
                    Some(sig) => {
                        let mut bindings: StrMap<Sort> = StrMap::new();
                        match unify_sorts(&sig.result_sort, scrut_sort, &mut bindings) {
                            Ok(()) => {},
                            Err(_) => {
                                let a = sort_to_text(&sig.result_sort);
                                let b = sort_to_text(scrut_sort);
                                return Err(join7("类型错误: match pattern '", name.as_str(), "' sort ", a.as_str(),
                                    " 与 scrutinee ", b.as_str(), " 不匹配"));
                            },
                        }
                    },
                    None => {
                        local_scope.insert(name.clone(), clone_sort(scrut_sort));
                    },
                }
            },
        }
        self.infer_term_sort(&case.body, &local_scope)
    }

    /// Checks that a formula is well sorted.
    #[verifier::loop_isolation(false)]
    pub fn check_formula(&self, formula: &Formula, local_scope: &StrMap<Sort>) -> (res: Result<(), String>)
        ensures
            match formula_check(self@, formula@, local_scope@) {
                Ok(_) => res is Ok,
                Err(m) => res matches Err(e) && e@ == m,
            },
        decreases formula, 0int,
    {
        match formula {
            Formula::True => Ok(()),
            Formula::False => Ok(()),
            Formula::Eq(t1, t2) => {
                let s1 = match self.infer_term_sort(t1, local_scope) {
                    Ok(s) => s,
                    Err(e) => { return Err(e); },
                };
                let s2 = match self.infer_term_sort(t2, local_scope) {
                    Ok(s) => s,
                    Err(e) => { return Err(e); },
                };
                if !sort_eq(&s1, &s2) {
                    let a = sort_to_text(&s1);
                    let b = sort_to_text(&s2);
                    return Err(join4("类型错误: '=' 两侧 sort 不一致: ", a.as_str(), " vs ", b.as_str()));
                }
                Ok(())
            },
            Formula::Not(f) => self.check_formula(f, local_scope),
            Formula::And(fs) | Formula::Or(fs) => {
                proof { lemma_formulas_v(fs@); }
                let ghost fv = formulas_v(fs@);
                let mut i: usize = 0;
                while i < fs.len()
                    invariant
                        i <= fs.len(),
                        fv == formulas_v(fs@),
                        fv.len() == fs.len(),
                        formulas_check(self@, fv, i as int, local_scope@) is Ok,
                    decreases fs.len() - i,
                {
                    assert(fv[i as int] == fs@[i as int]@);
                    match self.check_formula(&fs[i], local_scope) {
                        Ok(()) => {},
                        Err(e) => {
                            proof { lemma_formulas_stop(self@, fv, i as int + 1, fv.len() as int, local_scope@); }
                            return Err(e);
                        },
                    }
                    i += 1;
                }
                Ok(())
            },
            Formula::Implies(l, r) => {
                match self.check_formula(l, local_scope) {
                    Ok(()) => {},
                    Err(e) => { return Err(e); },
                }
                self.check_formula(r, local_scope)
            },
            Formula::Ite(c, t, e) => {
                match self.check_formula(c, local_scope) {
                    Ok(()) => {},
                    Err(err) => { return Err(err); },
                }
                match self.check_formula(t, local_scope) {
                    Ok(()) => {},
                    Err(err) => { return Err(err); },
                }
                self.check_formula(e, local_scope)
            },
            Formula::IsTester(ctor_name, term) => {
                let ts = match self.infer_term_sort(term, local_scope) {
                    Ok(s) => s,
                    Err(e) => { return Err(e); },
                };
                match self.ctor_sigs.get(ctor_name.as_str()) {
                    Some(sig) => {
                        let mut bindings: StrMap<Sort> = StrMap::new();
                        match unify_sorts(&sig.result_sort, &ts, &mut bindings) {
                            Ok(()) => Ok(()),
                            Err(_) => {
                                let a = sort_to_text(&sig.result_sort);
                                let b = sort_to_text(&ts);
                                Err(join6("类型错误: (is-", ctor_name.as_str(), ") 期望 ADT sort ", a.as_str(), ", 实际 ", b.as_str()))
                            },
                        }
                    },
                    None => Err(join3("类型错误: 未知构造器 '", ctor_name.as_str(), "'")),
                }
            },
        }
    }
}

/// `(as ...)` whose annotation differs from the inferred sort.
fn as_mismatch(target: &Sort, inferred: &Sort) -> (m: String)
    ensures m@ == as_mismatch_msg(target@, inferred@),
{
    let a = sort_to_text(target);
    let b = sort_to_text(inferred);
    join5("类型错误: (as ...) 标注 ", a.as_str(), " 与推断 ", b.as_str(), " 不一致")
}


/// The argument check of a declared function passes exactly when each of the first `n`
/// argument sorts is the parameter sort at its position.
proof fn lemma_fun_args_check_ok(f: Seq<char>, es: Seq<SortV>, ss: Seq<SortV>, n: int)
    requires 0 <= n <= es.len(), n <= ss.len(),
    ensures fun_args_check(f, es, ss, n) is Ok <==> forall|i: int| 0 <= i < n ==> #[trigger] ss[i] == es[i],
    decreases n,
{
    if n > 0 {
        lemma_fun_args_check_ok(f, es, ss, n - 1);
    }
}

/// An application of a declared function (not a constructor or a selector) with parameter
/// sorts `S1 ... Sn` has a sort exactly when its arguments have the sorts `S1 ... Sn`, in
/// order; that sort is the declared result sort. Any other argument sorts are an error.
pub proof fn lemma_declared_fun_app(env: SortEnvV, f: Seq<char>, ss: Seq<SortV>)
    requires
        !env.ctor_sigs.contains_key(f), !env.selector_sigs.contains_key(f), env.fun_sigs.contains_key(f),
    ensures
        app_sort(env, f, ss) is Ok <==> ss == env.fun_sigs[f].args,
        app_sort(env, f, ss) is Ok ==> app_sort(env, f, ss) == Ok::<SortV, Seq<char>>(env.fun_sigs[f].ret),
{
    let es = env.fun_sigs[f].args;
    if ss.len() == es.len() {
        lemma_fun_args_check_ok(f, es, ss, ss.len() as int);
        if app_sort(env, f, ss) is Ok {
            assert(ss =~= es);
        }
    }
}

/// The sorts of `ts[0..n]`, when found, are the sorts of the terms one by one.
proof fn lemma_term_sorts_each(env: SortEnvV, ts: Seq<TermV>, n: int, sc: Map<Seq<char>, SortV>)
    requires 0 <= n <= ts.len(), term_sorts(env, ts, n, sc) is Ok,
    ensures
        term_sorts(env, ts, n, sc)->Ok_0.len() == n,
        forall|i: int| 0 <= i < n ==> term_sort(env, ts[i], sc)
            == Ok::<SortV, Seq<char>>(#[trigger] term_sorts(env, ts, n, sc)->Ok_0[i]),
    decreases n,
{
    if n > 0 {
        lemma_term_sorts_each(env, ts, n - 1, sc);
    }
}

/// A term applying a declared function (not a constructor or a selector) has a sort only
/// when every argument has the parameter sort at its position; its sort is then the
/// declared result sort.
pub proof fn lemma_declared_fun_term(env: SortEnvV, f: Seq<char>, args: Seq<TermV>, sc: Map<Seq<char>, SortV>)
    requires
        !env.ctor_sigs.contains_key(f), !env.selector_sigs.contains_key(f), env.fun_sigs.contains_key(f),
        term_sort(env, TermV::App(f, args), sc) is Ok,
    ensures
        args.len() == env.fun_sigs[f].args.len(),
        forall|i: int| 0 <= i < args.len() ==> #[trigger] term_sort(env, args[i], sc)
            == Ok::<SortV, Seq<char>>(env.fun_sigs[f].args[i]),
        term_sort(env, TermV::App(f, args), sc) == Ok::<SortV, Seq<char>>(env.fun_sigs[f].ret),
{
    let ss = term_sorts(env, args, args.len() as int, sc)->Ok_0;
    lemma_term_sorts_each(env, args, args.len() as int, sc);
    lemma_declared_fun_app(env, f, ss);
    assert forall|i: int| 0 <= i < args.len() implies #[trigger] term_sort(env, args[i], sc)
        == Ok::<SortV, Seq<char>>(env.fun_sigs[f].args[i]) by {
        assert(term_sort(env, args[i], sc) == Ok::<SortV, Seq<char>>(ss[i]));
    }
}

} // verus!
