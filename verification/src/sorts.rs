//! Sorts, sort substitutions, and unification of a sort pattern with a concrete sort.
use vstd::prelude::*;
use vstd::string::StringExecFns;
use crate::ast::{SortExpr, SortExprV, sort_exprs_v, lemma_sort_exprs_v, strs_v};
use crate::text::{text_is};

verus! {

/// A sort: `Bool`, `Int`, a sort name, a type parameter, or an instance `(Name Sort ...)`.
pub enum Sort {
    Bool,
    Int,
    Named(String),
    Param(String),
    App(String, Vec<Sort>),
}

pub enum SortV {
    Bool,
    Int,
    Named(Seq<char>),
    Param(Seq<char>),
    App(Seq<char>, Seq<SortV>),
}

pub open spec fn sort_v(s: Sort) -> SortV
    decreases s,
{
    match s {
        Sort::Bool => SortV::Bool,
        Sort::Int => SortV::Int,
        Sort::Named(n) => SortV::Named(n@),
        Sort::Param(n) => SortV::Param(n@),
        Sort::App(n, args) => SortV::App(n@, sorts_v(args@)),
    }
}

pub open spec fn sorts_v(s: Seq<Sort>) -> Seq<SortV>
    decreases s,
{
    if s.len() == 0 { Seq::empty() } else { sorts_v(s.drop_last()).push(sort_v(s.last())) }
}

impl View for Sort {
    type V = SortV;
    open spec fn view(&self) -> SortV { sort_v(*self) }
}

pub proof fn lemma_sorts_v(s: Seq<Sort>)
    ensures
        sorts_v(s).len() == s.len(),
        forall|j: int| 0 <= j < s.len() ==> #[trigger] sorts_v(s)[j] == sort_v(s[j]),
    decreases s.len(),
{
    if s.len() > 0 { lemma_sorts_v(s.drop_last()); }
}

// ---------------------------------------------------------------------------
// Maps keyed by names
// ---------------------------------------------------------------------------

/// A finite map from names to values; a later entry for a name hides the earlier ones.
pub struct StrMap<V> {
    pub entries: Vec<(String, V)>,
}

pub open spec fn str_map_v<V: View>(s: Seq<(String, V)>) -> Map<Seq<char>, V::V>
    decreases s.len(),
{
    if s.len() == 0 {
        Map::empty()
    } else {
        str_map_v(s.drop_last()).insert(s.last().0@, s.last().1@)
    }
}

impl<V: View> View for StrMap<V> {
    type V = Map<Seq<char>, V::V>;
    open spec fn view(&self) -> Map<Seq<char>, V::V> { str_map_v(self.entries@) }
}

pub proof fn lemma_str_map_absent<V: View>(s: Seq<(String, V)>, k: Seq<char>)
    requires forall|i: int| 0 <= i < s.len() ==> (#[trigger] s[i]).0@ != k,
    ensures !str_map_v(s).contains_key(k),
    decreases s.len(),
{
    if s.len() > 0 {
        let t = s.drop_last();
        assert forall|i: int| 0 <= i < t.len() implies (#[trigger] t[i]).0@ != k by {
            assert(t[i] == s[i]);
        }
        lemma_str_map_absent(t, k);
    }
}

pub proof fn lemma_str_map_last<V: View>(s: Seq<(String, V)>, k: Seq<char>, j: int)
    requires
        0 <= j < s.len(),
        s[j].0@ == k,
        forall|i: int| j < i < s.len() ==> (#[trigger] s[i]).0@ != k,
    ensures
        str_map_v(s).contains_key(k),
        str_map_v(s)[k] == s[j].1@,
    decreases s.len(),
{
    if j < s.len() - 1 {
        let t = s.drop_last();
        assert(t[j] == s[j]);
        assert forall|i: int| j < i < t.len() implies (#[trigger] t[i]).0@ != k by {
            assert(t[i] == s[i]);
        }
        lemma_str_map_last(t, k, j);
    }
}

impl<V: View> StrMap<V> {
    pub fn new() -> (m: Self)
        ensures m@ == Map::<Seq<char>, V::V>::empty(),
    {
        StrMap { entries: Vec::new() }
    }

    /// The value of a name.
    pub fn get(&self, k: &str) -> (r: Option<&V>)
        ensures
            match r {
                Some(v) => self@.contains_key(k@) && self@[k@] == v@,
                None => !self@.contains_key(k@),
            },
    {
        let mut i: usize = self.entries.len();
        while i > 0
            invariant
                i <= self.entries.len(),
                forall|j: int| i <= j < self.entries.len() ==> (#[trigger] self.entries@[j]).0@ != k@,
            decreases i,
        {
            i -= 1;
            let t = String::from_str(k);
            if self.entries[i].0.eq(&t) {
                proof { lemma_str_map_last(self.entries@, k@, i as int); }
                return Some(&self.entries[i].1);
            }
        }
        proof { lemma_str_map_absent(self.entries@, k@); }
        None
    }

    pub fn contains_key(&self, k: &str) -> (r: bool)
        ensures r == self@.contains_key(k@),
    {
        match self.get(k) {
            Some(_) => true,
            None => false,
        }
    }

    /// Binds a name, hiding any earlier binding of it.
    pub fn insert(&mut self, k: String, v: V)
        ensures final(self)@ == old(self)@.insert(k@, v@),
    {
        let ghost old_entries = self.entries@;
        self.entries.push((k, v));
        assert(self.entries@.drop_last() == old_entries);
    }
}

/// A substitution of sorts for type parameters.
pub type SortBindings = StrMap<Sort>;

// ---------------------------------------------------------------------------
// Copies and comparison
// ---------------------------------------------------------------------------

#[verifier::loop_isolation(false)]
pub fn clone_sort(s: &Sort) -> (r: Sort)
    ensures r@ == s@,
    decreases s,
{
    match s {
        Sort::Bool => Sort::Bool,
        Sort::Int => Sort::Int,
        Sort::Named(n) => Sort::Named(n.clone()),
        Sort::Param(n) => Sort::Param(n.clone()),
        Sort::App(n, args) => {
            let mut out: Vec<Sort> = Vec::new();
            let mut i: usize = 0;
            while i < args.len()
                invariant
                    i <= args.len(),
                    out.len() == i,
                    forall|j: int| 0 <= j < i ==> sort_v(#[trigger] out@[j]) == sort_v(args@[j]),
                decreases args.len() - i,
            {
                out.push(clone_sort(&args[i]));
                i += 1;
            }
            proof {
                lemma_sorts_v(out@);
                lemma_sorts_v(args@);
                assert(sorts_v(out@) =~= sorts_v(args@));
            }
            Sort::App(n.clone(), out)
        },
    }
}

pub fn clone_sorts(v: &Vec<Sort>) -> (r: Vec<Sort>)
    ensures sorts_v(r@) == sorts_v(v@),
{
    let mut out: Vec<Sort> = Vec::new();
    let mut i: usize = 0;
    while i < v.len()
        invariant
            i <= v.len(),
            out.len() == i,
            forall|j: int| 0 <= j < i ==> sort_v(#[trigger] out@[j]) == sort_v(v@[j]),
        decreases v.len() - i,
    {
        out.push(clone_sort(&v[i]));
        i += 1;
    }
    proof {
        lemma_sorts_v(out@);
        lemma_sorts_v(v@);
        assert(sorts_v(out@) =~= sorts_v(v@));
    }
    out
}

pub fn clone_sort_map(m: &StrMap<Sort>) -> (r: StrMap<Sort>)
    ensures r@ == m@,
{
    let mut out: Vec<(String, Sort)> = Vec::new();
    let mut i: usize = 0;
    while i < m.entries.len()
        invariant
            i <= m.entries.len(),
            out.len() == i,
            forall|j: int| 0 <= j < i ==> (#[trigger] out@[j]).0@ == m.entries@[j].0@
                && out@[j].1@ == m.entries@[j].1@,
        decreases m.entries.len() - i,
    {
        let e = &m.entries[i];
        out.push((e.0.clone(), clone_sort(&e.1)));
        i += 1;
    }
    proof { lemma_str_map_same(out@, m.entries@); }
    StrMap { entries: out }
}

/// Two entry lists with the same names and values, entry by entry, give the same map.
pub proof fn lemma_str_map_same<V: View>(a: Seq<(String, V)>, b: Seq<(String, V)>)
    requires
        a.len() == b.len(),
        forall|j: int| 0 <= j < a.len() ==> (#[trigger] a[j]).0@ == b[j].0@ && a[j].1@ == b[j].1@,
    ensures str_map_v(a) == str_map_v(b),
    decreases a.len(),
{
    if a.len() > 0 {
        let (ta, tb) = (a.drop_last(), b.drop_last());
        assert forall|j: int| 0 <= j < ta.len() implies (#[trigger] ta[j]).0@ == tb[j].0@ && ta[j].1@ == tb[j].1@ by {
            assert(ta[j] == a[j]);
            assert(tb[j] == b[j]);
        }
        lemma_str_map_same(ta, tb);
    }
}

/// Structural equality of two sorts.
#[verifier::loop_isolation(false)]
pub fn sort_eq(a: &Sort, b: &Sort) -> (r: bool)
    ensures r == (a@ == b@),
    decreases a,
{
    match (a, b) {
        (Sort::Bool, Sort::Bool) => true,
        (Sort::Int, Sort::Int) => true,
        (Sort::Named(x), Sort::Named(y)) => x.eq(y),
        (Sort::Param(x), Sort::Param(y)) => x.eq(y),
        (Sort::App(x, xs), Sort::App(y, ys)) => {
            if !x.eq(y) || xs.len() != ys.len() {
                proof {
                    lemma_sorts_v(xs@);
                    lemma_sorts_v(ys@);
                }
                return false;
            }
            proof {
                lemma_sorts_v(xs@);
                lemma_sorts_v(ys@);
            }
            let mut i: usize = 0;
            while i < xs.len()
                invariant
                    i <= xs.len(),
                    xs.len() == ys.len(),
                    forall|j: int| 0 <= j < i ==> sort_v(#[trigger] xs@[j]) == sort_v(ys@[j]),
                decreases xs.len() - i,
            {
                if !sort_eq(&xs[i], &ys[i]) {
                    assert(sorts_v(xs@)[i as int] != sorts_v(ys@)[i as int]);
                    return false;
                }
                i += 1;
            }
            assert(sorts_v(xs@) =~= sorts_v(ys@));
            true
        },
        _ => false,
    }
}

// ---------------------------------------------------------------------------
// From written sorts to sorts
// ---------------------------------------------------------------------------

/// A name as a sort: `Bool`, `Int`, or a sort name.
pub open spec fn sort_name_spec(n: Seq<char>) -> SortV {
    if n == "Bool"@ { SortV::Bool } else if n == "Int"@ { SortV::Int } else { SortV::Named(n) }
}

pub fn parse_sort_name(name: &str) -> (r: Sort)
    ensures r@ == sort_name_spec(name@),
{
    let s = String::from_str(name);
    if text_is(&s, "Bool") {
        Sort::Bool
    } else if text_is(&s, "Int") {
        Sort::Int
    } else {
        Sort::Named(s)
    }
}

/// A written sort as a sort; the names in `tps` are type parameters.
pub open spec fn sort_of_expr(e: SortExprV, tps: Seq<Seq<char>>) -> SortV
    decreases e, 0int,
{
    match e {
        SortExprV::Simple(n) => if tps.contains(n) { SortV::Param(n) } else { sort_name_spec(n) },
        SortExprV::Parametric(n, args) => SortV::App(n, sorts_of_exprs(args, args.len() as int, tps)),
    }
}

/// The sorts of the written sorts `es[0..n]`.
pub open spec fn sorts_of_exprs(es: Seq<SortExprV>, n: int, tps: Seq<Seq<char>>) -> Seq<SortV>
    decreases es, n,
{
    if n <= 0 || n > es.len() {
        Seq::empty()
    } else {
        sorts_of_exprs(es, n - 1, tps).push(sort_of_expr(es[n - 1], tps))
    }
}

/// Whether a list of names holds a name.
pub fn names_contain(names: &Vec<String>, n: &String) -> (r: bool)
    ensures r == strs_v(names@).contains(n@),
{
    let mut i: usize = 0;
    while i < names.len()
        invariant
            i <= names.len(),
            forall|j: int| 0 <= j < i ==> (#[trigger] names@[j])@ != n@,
        decreases names.len() - i,
    {
        if names[i].eq(n) {
            assert(strs_v(names@)[i as int] == n@);
            return true;
        }
        i += 1;
    }
    proof {
        if strs_v(names@).contains(n@) {
            let j = choose|j: int| 0 <= j < strs_v(names@).len() && strs_v(names@)[j] == n@;
            assert(names@[j]@ == n@);
        }
    }
    false
}

#[verifier::loop_isolation(false)]
pub fn sort_expr_to_sort(expr: &SortExpr, type_params: &Vec<String>) -> (r: Sort)
    ensures r@ == sort_of_expr(expr@, strs_v(type_params@)),
    decreases expr,
{
    match expr {
        SortExpr::Simple(name) => {
            if names_contain(type_params, name) {
                Sort::Param(name.clone())
            } else {
                parse_sort_name(name.as_str())
            }
        },
        SortExpr::Parametric(name, args) => {
            proof { lemma_sort_exprs_v(args@); }
            let mut out: Vec<Sort> = Vec::new();
            let mut i: usize = 0;
            let ghost av = sort_exprs_v(args@);
            while i < args.len()
                invariant
                    i <= args.len(),
                    av == sort_exprs_v(args@),
                    sorts_v(out@) == sorts_of_exprs(av, i as int, strs_v(type_params@)),
                decreases args.len() - i,
            {
                let ghost old_out = out@;
                assert(av[i as int] == args@[i as int]@);
                out.push(sort_expr_to_sort(&args[i], type_params));
                assert(out@.drop_last() == old_out);
                i += 1;
            }
            Sort::App(name.clone(), out)
        },
    }
}

// ---------------------------------------------------------------------------
// Text of sorts
// ---------------------------------------------------------------------------

/// How a sort is written: `Bool`, `Int`, its name, or `(Name arg ...)`.
pub open spec fn sort_text(s: SortV) -> Seq<char>
    decreases s, 0int,
{
    match s {
        SortV::Bool => "Bool"@,
        SortV::Int => "Int"@,
        SortV::Named(n) => n,
        SortV::Param(n) => n,
        SortV::App(n, args) => "("@ + n + sorts_text(args, args.len() as int) + ")"@,
    }
}

/// ` a1 a2 ...` for the sorts `args[0..n]`.
pub open spec fn sorts_text(args: Seq<SortV>, n: int) -> Seq<char>
    decreases args, n,
{
    if n <= 0 || n > args.len() {
        Seq::empty()
    } else {
        sorts_text(args, n - 1) + " "@ + sort_text(args[n - 1])
    }
}

/// How a written sort is printed: its name, or `(Name arg ...)`.
pub open spec fn sort_expr_text(e: SortExprV) -> Seq<char>
    decreases e, 0int,
{
    match e {
        SortExprV::Simple(n) => n,
        SortExprV::Parametric(n, args) => "("@ + n + sort_exprs_text(args, args.len() as int) + ")"@,
    }
}

pub open spec fn sort_exprs_text(args: Seq<SortExprV>, n: int) -> Seq<char>
    decreases args, n,
{
    if n <= 0 || n > args.len() {
        Seq::empty()
    } else {
        sort_exprs_text(args, n - 1) + " "@ + sort_expr_text(args[n - 1])
    }
}

#[verifier::loop_isolation(false)]
pub fn sort_to_text(s: &Sort) -> (r: String)
    ensures r@ == sort_text(s@),
    decreases s,
{
    match s {
        Sort::Bool => String::from_str("Bool"),
        Sort::Int => String::from_str("Int"),
        Sort::Named(n) => n.clone(),
        Sort::Param(n) => n.clone(),
        Sort::App(n, args) => {
            proof { lemma_sorts_v(args@); }
            let ghost av = sorts_v(args@);
            let mut out = String::from_str("(");
            out.append(n.as_str());
            let ghost head = out@;
            let mut i: usize = 0;
            while i < args.len()
                invariant
                    i <= args.len(),
                    av == sorts_v(args@),
                    out@ == head + sorts_text(av, i as int),
                decreases args.len() - i,
            {
                let t = sort_to_text(&args[i]);
                out.append(" ");
                out.append(t.as_str());
                assert(av[i as int] == args@[i as int]@);
                i += 1;
            }
            out.append(")");
            out
        },
    }
}

#[verifier::loop_isolation(false)]
pub fn sort_expr_to_text(e: &SortExpr) -> (r: String)
    ensures r@ == sort_expr_text(e@),
    decreases e,
{
    match e {
        SortExpr::Simple(n) => n.clone(),
        SortExpr::Parametric(n, args) => {
            proof { lemma_sort_exprs_v(args@); }
            let ghost av = sort_exprs_v(args@);
            let mut out = String::from_str("(");
            out.append(n.as_str());
            let ghost head = out@;
            let mut i: usize = 0;
            while i < args.len()
                invariant
                    i <= args.len(),
                    av == sort_exprs_v(args@),
                    out@ == head + sort_exprs_text(av, i as int),
                decreases args.len() - i,
            {
                let t = sort_expr_to_text(&args[i]);
                out.append(" ");
                out.append(t.as_str());
                assert(av[i as int] == args@[i as int]@);
                i += 1;
            }
            out.append(")");
            out
        },
    }
}

// ---------------------------------------------------------------------------
// Unification and substitution
// ---------------------------------------------------------------------------

/// The message for a type parameter bound to `e` that would also need to be `c`.
pub open spec fn conflict_msg(n: Seq<char>, e: SortV, c: SortV) -> Seq<char> {
    "类型参数 '"@ + n + "' 绑定冲突: "@ + sort_text(e) + " vs "@ + sort_text(c)
}

/// The message for a pattern and a concrete sort that do not fit.
pub open spec fn mismatch_msg(p: SortV, c: SortV) -> Seq<char> {
    "sort 不匹配: "@ + sort_text(p) + " vs "@ + sort_text(c)
}

/// Unifies a sort pattern with a concrete sort under the bindings `b`: the bindings after
/// the attempt (each type parameter met bound to the matching part of the concrete sort,
/// left to right) and, when the two do not fit or a parameter would need two values, the
/// message of the first failure, which ends the attempt.
pub open spec fn unify_spec(p: SortV, c: SortV, b: Map<Seq<char>, SortV>) -> (Map<Seq<char>, SortV>, Option<Seq<char>>)
    decreases p, 0int,
{
    match p {
        SortV::Param(n) => {
            if b.contains_key(n) {
                if b[n] == c { (b, None) } else { (b, Some(conflict_msg(n, b[n], c))) }
            } else {
                (b.insert(n, c), None)
            }
        },
        SortV::Bool => if c is Bool { (b, None) } else { (b, Some(mismatch_msg(p, c))) },
        SortV::Int => if c is Int { (b, None) } else { (b, Some(mismatch_msg(p, c))) },
        SortV::Named(a) => if c is Named && c->Named_0 == a { (b, None) } else { (b, Some(mismatch_msg(p, c))) },
        SortV::App(a, ps) => {
            if c is App && c->App_0 == a && c->App_1.len() == ps.len() {
                unify_args(ps, c->App_1, ps.len() as int, b)
            } else {
                (b, Some(mismatch_msg(p, c)))
            }
        },
    }
}

/// Unifies `ps[0..n]` with `cs[0..n]`, left to right, stopping at the first failure.
pub open spec fn unify_args(ps: Seq<SortV>, cs: Seq<SortV>, n: int, b: Map<Seq<char>, SortV>) -> (Map<Seq<char>, SortV>, Option<Seq<char>>)
    decreases ps, n,
{
    if n <= 0 || n > ps.len() || n > cs.len() {
        (b, None)
    } else {
        let r = unify_args(ps, cs, n - 1, b);
        if r.1 is Some { r } else { unify_spec(ps[n - 1], cs[n - 1], r.0) }
    }
}

/// Whether unification succeeds.
pub open spec fn unifies(p: SortV, c: SortV, b: Map<Seq<char>, SortV>) -> bool {
    unify_spec(p, c, b).1 is None
}

/// A sort with its type parameters replaced by their bindings; unbound ones stay.
pub open spec fn subst_spec(s: SortV, b: Map<Seq<char>, SortV>) -> SortV
    decreases s, 0int,
{
    match s {
        SortV::Param(n) => if b.contains_key(n) { b[n] } else { s },
        SortV::App(n, args) => SortV::App(n, subst_args(args, args.len() as int, b)),
        _ => s,
    }
}

pub open spec fn subst_args(args: Seq<SortV>, n: int, b: Map<Seq<char>, SortV>) -> Seq<SortV>
    decreases args, n,
{
    if n <= 0 || n > args.len() {
        Seq::empty()
    } else {
        subst_args(args, n - 1, b).push(subst_spec(args[n - 1], b))
    }
}

pub proof fn lemma_subst_args_len(args: Seq<SortV>, n: int, b: Map<Seq<char>, SortV>)
    requires 0 <= n <= args.len(),
    ensures
        subst_args(args, n, b).len() == n,
        forall|i: int| 0 <= i < n ==> #[trigger] subst_args(args, n, b)[i] == subst_spec(args[i], b),
    decreases n,
{
    if n > 0 { lemma_subst_args_len(args, n - 1, b); }
}

/// Unification is sound: it only adds bindings, and once its bindings are in force (in
/// any extension of them), the pattern with its parameters replaced is the concrete sort.
pub proof fn lemma_unify_sound(p: SortV, c: SortV, b: Map<Seq<char>, SortV>)
    requires unifies(p, c, b),
    ensures
        b.submap_of(unify_spec(p, c, b).0),
        forall|b3: Map<Seq<char>, SortV>| unify_spec(p, c, b).0.submap_of(b3)
            ==> #[trigger] subst_spec(p, b3) == c,
    decreases p, 0int,
{
    match p {
        SortV::App(a, ps) => {
            let cs = c->App_1;
            lemma_unify_args_sound(ps, cs, ps.len() as int, b);
            let b2 = unify_spec(p, c, b).0;
            assert forall|b3: Map<Seq<char>, SortV>| b2.submap_of(b3) implies #[trigger] subst_spec(p, b3) == c by {
                lemma_subst_args_len(ps, ps.len() as int, b3);
                assert forall|i: int| 0 <= i < ps.len() implies subst_args(ps, ps.len() as int, b3)[i] == cs[i] by {
                    assert(subst_spec(ps[i], b3) == cs[i]);
                }
                assert(subst_args(ps, ps.len() as int, b3) =~= cs);
            }
        },
        SortV::Param(n) => {
            let b2 = unify_spec(p, c, b).0;
            assert(b2.contains_key(n) && b2[n] == c);
            assert forall|b3: Map<Seq<char>, SortV>| b2.submap_of(b3) implies #[trigger] subst_spec(p, b3) == c by {
                assert(b3.contains_key(n) && b3[n] == b2[n]);
            }
        },
        _ => {},
    }
}

pub proof fn lemma_unify_args_sound(ps: Seq<SortV>, cs: Seq<SortV>, n: int, b: Map<Seq<char>, SortV>)
    requires unify_args(ps, cs, n, b).1 is None, 0 <= n <= ps.len(), n <= cs.len(),
    ensures
        b.submap_of(unify_args(ps, cs, n, b).0),
        forall|b3: Map<Seq<char>, SortV>, i: int| 0 <= i < n && unify_args(ps, cs, n, b).0.submap_of(b3)
            ==> #[trigger] subst_spec(ps[i], b3) == cs[i],
    decreases ps, n,
{
    if n > 0 {
        lemma_unify_args_sound(ps, cs, n - 1, b);
        let b1 = unify_args(ps, cs, n - 1, b).0;
        lemma_unify_sound(ps[n - 1], cs[n - 1], b1);
        let b2 = unify_args(ps, cs, n, b).0;
        vstd::map_lib::lemma_submap_of_trans(b, b1, b2);
        assert forall|b3: Map<Seq<char>, SortV>, i: int| 0 <= i < n && b2.submap_of(b3)
            implies #[trigger] subst_spec(ps[i], b3) == cs[i] by {
            if i < n - 1 {
                vstd::map_lib::lemma_submap_of_trans(b1, b2, b3);
            }
        }
    }
}

/// A conflict between a parameter's binding and a new sort for it.
fn conflict_message(name: &String, existing: &Sort, concrete: &Sort) -> (m: String)
    ensures m@ == conflict_msg(name@, existing@, concrete@),
{
    let mut m = String::from_str("类型参数 '");
    m.append(name.as_str());
    m.append("' 绑定冲突: ");
    let a = sort_to_text(existing);
    m.append(a.as_str());
    m.append(" vs ");
    let b = sort_to_text(concrete);
    m.append(b.as_str());
    m
}

fn mismatch_message(pattern: &Sort, concrete: &Sort) -> (m: String)
    ensures m@ == mismatch_msg(pattern@, concrete@),
{
    let mut m = String::from_str("sort 不匹配: ");
    let a = sort_to_text(pattern);
    m.append(a.as_str());
    m.append(" vs ");
    let b = sort_to_text(concrete);
    m.append(b.as_str());
    m
}

/// Unifies `pattern` with `concrete`, extending `bindings`.
#[verifier::loop_isolation(false)]
pub fn unify_sorts(pattern: &Sort, concrete: &Sort, bindings: &mut StrMap<Sort>) -> (res: Result<(), String>)
    ensures
        final(bindings)@ == unify_spec(pattern@, concrete@, old(bindings)@).0,
        match unify_spec(pattern@, concrete@, old(bindings)@).1 {
            None => res is Ok,
            Some(m) => res matches Err(e) && e@ == m,
        },
    decreases pattern,
{
    match pattern {
        Sort::Param(name) => {
            match bindings.get(name.as_str()) {
                Some(existing) => {
                    if !sort_eq(existing, concrete) {
                        return Err(conflict_message(name, existing, concrete));
                    }
                    return Ok(());
                },
                None => {},
            }
            bindings.insert(name.clone(), clone_sort(concrete));
            Ok(())
        },
        Sort::Bool => {
            match concrete {
                Sort::Bool => Ok(()),
                _ => Err(mismatch_message(pattern, concrete)),
            }
        },
        Sort::Int => {
            match concrete {
                Sort::Int => Ok(()),
                _ => Err(mismatch_message(pattern, concrete)),
            }
        },
        Sort::Named(a) => {
            match concrete {
                Sort::Named(b) => {
                    if a.eq(b) { Ok(()) } else { Err(mismatch_message(pattern, concrete)) }
                },
                _ => Err(mismatch_message(pattern, concrete)),
            }
        },
        Sort::App(a, xs) => {
            match concrete {
                Sort::App(b, ys) => {
                    if !a.eq(b) || xs.len() != ys.len() {
                        proof { lemma_sorts_v(xs@); lemma_sorts_v(ys@); }
                        return Err(mismatch_message(pattern, concrete));
                    }
                    proof { lemma_sorts_v(xs@); lemma_sorts_v(ys@); }
                    let ghost xv = sorts_v(xs@);
                    let ghost yv = sorts_v(ys@);
                    let ghost b0 = bindings@;
                    let mut i: usize = 0;
                    while i < xs.len()
                        invariant
                            i <= xs.len(),
                            xs.len() == ys.len(),
                            xv == sorts_v(xs@),
                            yv == sorts_v(ys@),
                            unify_args(xv, yv, i as int, b0) == (bindings@, None::<Seq<char>>),
                        decreases xs.len() - i,
                    {
                        assert(xv[i as int] == xs@[i as int]@);
                        assert(yv[i as int] == ys@[i as int]@);
                        match unify_sorts(&xs[i], &ys[i], bindings) {
                            Ok(()) => {},
                            Err(e) => {
                                proof { lemma_unify_args_stop(xv, yv, i as int + 1, xv.len() as int, b0); }
                                return Err(e);
                            },
                        }
                        i += 1;
                    }
                    Ok(())
                },
                _ => Err(mismatch_message(pattern, concrete)),
            }
        },
    }
}

/// Once an argument fails, the later ones are not tried.
pub proof fn lemma_unify_args_stop(ps: Seq<SortV>, cs: Seq<SortV>, k: int, n: int, b: Map<Seq<char>, SortV>)
    requires 0 < k <= n <= ps.len(), n <= cs.len(), unify_args(ps, cs, k, b).1 is Some,
    ensures unify_args(ps, cs, n, b) == unify_args(ps, cs, k, b),
    decreases n - k,
{
    if k < n { lemma_unify_args_stop(ps, cs, k, n - 1, b); }
}

/// Replaces the type parameters of a sort by their bindings.
#[verifier::loop_isolation(false)]
pub fn substitute_sort(sort: &Sort, bindings: &StrMap<Sort>) -> (r: Sort)
    ensures r@ == subst_spec(sort@, bindings@),
    decreases sort,
{
    match sort {
        Sort::Param(name) => {
            match bindings.get(name.as_str()) {
                Some(s) => clone_sort(s),
                None => clone_sort(sort),
            }
        },
        Sort::App(name, args) => {
            proof { lemma_sorts_v(args@); }
            let ghost av = sorts_v(args@);
            let mut out: Vec<Sort> = Vec::new();
            let mut i: usize = 0;
            while i < args.len()
                invariant
                    i <= args.len(),
                    av == sorts_v(args@),
                    sorts_v(out@) == subst_args(av, i as int, bindings@),
                decreases args.len() - i,
            {
                let ghost old_out = out@;
                assert(av[i as int] == args@[i as int]@);
                out.push(substitute_sort(&args[i], bindings));
                assert(out@.drop_last() == old_out);
                i += 1;
            }
            Sort::App(name.clone(), out)
        },
        _ => clone_sort(sort),
    }
}

} // verus!
