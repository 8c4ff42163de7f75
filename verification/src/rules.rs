//! The rewrite rules of the theory, as text: Boolean simplification, selectors applied to
//! constructors, and testers applied to constructors.
use vstd::prelude::*;
use vstd::string::StringExecFns;
use crate::ast::{DatatypeDecl, DatatypeDeclV, ConstructorDecl, ConstructorDeclV, datatype_v, ctor_v};
use crate::text::{nat_text, usize_to_text};

verus! {

/// A rewrite rule `lhs => rhs` with its name, patterns written in `egg`'s syntax.
pub struct RuleText {
    pub name: String,
    pub lhs: String,
    pub rhs: String,
}

pub struct RuleTextV {
    pub name: Seq<char>,
    pub lhs: Seq<char>,
    pub rhs: Seq<char>,
}

impl View for RuleText {
    type V = RuleTextV;
    open spec fn view(&self) -> RuleTextV {
        RuleTextV { name: self.name@, lhs: self.lhs@, rhs: self.rhs@ }
    }
}

pub open spec fn rules_v(rs: Seq<RuleText>) -> Seq<RuleTextV> {
    rs.map_values(|r: RuleText| r@)
}

pub open spec fn rule(name: Seq<char>, lhs: Seq<char>, rhs: Seq<char>) -> RuleTextV {
    RuleTextV { name, lhs, rhs }
}

/// The Boolean simplifications: `not`, `and`, `or`, `=>` and `ite` on constants, double
/// negation, and `(= x x) => true`.
pub open spec fn boolean_rules() -> Seq<RuleTextV> {
    seq![
        rule("not-true"@, "(not true)"@, "false"@),
        rule("not-false"@, "(not false)"@, "true"@),
        rule("not-not"@, "(not (not ?x))"@, "?x"@),
        rule("and-true-l"@, "(and true ?x)"@, "?x"@),
        rule("and-true-r"@, "(and ?x true)"@, "?x"@),
        rule("and-false-l"@, "(and false ?x)"@, "false"@),
        rule("and-false-r"@, "(and ?x false)"@, "false"@),
        rule("or-false-l"@, "(or false ?x)"@, "?x"@),
        rule("or-false-r"@, "(or ?x false)"@, "?x"@),
        rule("or-true-l"@, "(or true ?x)"@, "true"@),
        rule("or-true-r"@, "(or ?x true)"@, "true"@),
        rule("imp-true"@, "(=> true ?x)"@, "?x"@),
        rule("imp-false"@, "(=> false ?x)"@, "true"@),
        rule("imp-to-true"@, "(=> ?x true)"@, "true"@),
        rule("ite-true"@, "(ite true ?x ?y)"@, "?x"@),
        rule("ite-false"@, "(ite false ?x ?y)"@, "?y"@),
        rule("eq-refl"@, "(= ?x ?x)"@, "true"@),
    ]
}

fn mk_rule(name: &str, lhs: &str, rhs: &str) -> (r: RuleText)
    ensures r@ == rule(name@, lhs@, rhs@),
{
    RuleText { name: String::from_str(name), lhs: String::from_str(lhs), rhs: String::from_str(rhs) }
}

/// The Boolean simplification rules.
pub fn boolean_rule_texts() -> (rs: Vec<RuleText>)
    ensures rules_v(rs@) == boolean_rules(),
{
    let mut rs: Vec<RuleText> = Vec::new();
    rs.push(mk_rule("not-true", "(not true)", "false"));
    rs.push(mk_rule("not-false", "(not false)", "true"));
    rs.push(mk_rule("not-not", "(not (not ?x))", "?x"));
    rs.push(mk_rule("and-true-l", "(and true ?x)", "?x"));
    rs.push(mk_rule("and-true-r", "(and ?x true)", "?x"));
    rs.push(mk_rule("and-false-l", "(and false ?x)", "false"));
    rs.push(mk_rule("and-false-r", "(and ?x false)", "false"));
    rs.push(mk_rule("or-false-l", "(or false ?x)", "?x"));
    rs.push(mk_rule("or-false-r", "(or ?x false)", "?x"));
    rs.push(mk_rule("or-true-l", "(or true ?x)", "true"));
    rs.push(mk_rule("or-true-r", "(or ?x true)", "true"));
    rs.push(mk_rule("imp-true", "(=> true ?x)", "?x"));
    rs.push(mk_rule("imp-false", "(=> false ?x)", "true"));
    rs.push(mk_rule("imp-to-true", "(=> ?x true)", "true"));
    rs.push(mk_rule("ite-true", "(ite true ?x ?y)", "?x"));
    rs.push(mk_rule("ite-false", "(ite false ?x ?y)", "?y"));
    rs.push(mk_rule("eq-refl", "(= ?x ?x)", "true"));
    assert(rules_v(rs@) =~= boolean_rules());
    rs
}

// ---------------------------------------------------------------------------
// Datatype rules
// ---------------------------------------------------------------------------

/// `p0 p1 ... p{n-1}` for the variable prefix `p`.
pub open spec fn var_list(p: Seq<char>, n: nat) -> Seq<char>
    decreases n,
{
    if n == 0 {
        Seq::empty()
    } else if n == 1 {
        p + nat_text(0)
    } else {
        var_list(p, (n - 1) as nat) + " "@ + p + nat_text((n - 1) as nat)
    }
}

/// `(C p0 p1 ...)`: the constructor applied to one variable per field.
pub open spec fn ctor_pattern(c: ConstructorDeclV, p: Seq<char>) -> Seq<char> {
    "("@ + c.name + " "@ + var_list(p, c.fields.len()) + ")"@
}

/// `(sel (C ?x0 ?x1 ...)) => ?xi` for the `i`-th field of `C`.
pub open spec fn selector_rule(c: ConstructorDeclV, i: int) -> RuleTextV {
    rule(
        c.fields[i].selector + "_"@ + c.name,
        "("@ + c.fields[i].selector + " "@ + ctor_pattern(c, "?x"@) + ")"@,
        "?x"@ + nat_text(i as nat),
    )
}

/// The selector rules of `C`'s fields `0..n`.
pub open spec fn selector_rules(c: ConstructorDeclV, n: int) -> Seq<RuleTextV>
    decreases n,
{
    if n <= 0 || n > c.fields.len() {
        Seq::empty()
    } else {
        selector_rules(c, n - 1).push(selector_rule(c, n - 1))
    }
}

/// The pattern a tester is tried on: `C` without fields, `(C ?v0 ...)` with fields.
pub open spec fn tester_pattern(c: ConstructorDeclV) -> Seq<char> {
    if c.fields.len() == 0 { c.name } else { ctor_pattern(c, "?v"@) }
}

/// `(is-Ci Ci-pattern) => true`.
pub open spec fn tester_pos(ci: ConstructorDeclV) -> RuleTextV {
    rule("tester-pos-"@ + ci.name, "(is-"@ + ci.name + " "@ + tester_pattern(ci) + ")"@, "true"@)
}

/// `(is-Ci Cj-pattern) => false`.
pub open spec fn tester_neg(ci: ConstructorDeclV, cj: ConstructorDeclV) -> RuleTextV {
    rule("tester-neg-"@ + ci.name + "-"@ + cj.name, "(is-"@ + ci.name + " "@ + tester_pattern(cj) + ")"@, "false"@)
}

/// The negative tester rules of constructor `i` against constructors `0..m` other than `i`.
pub open spec fn tester_negs(cs: Seq<ConstructorDeclV>, i: int, m: int) -> Seq<RuleTextV>
    decreases m,
{
    if m <= 0 || m > cs.len() {
        Seq::empty()
    } else if m - 1 == i {
        tester_negs(cs, i, m - 1)
    } else {
        tester_negs(cs, i, m - 1).push(tester_neg(cs[i], cs[m - 1]))
    }
}

/// The tester rules of constructors `0..n`, each positive rule followed by its negatives.
pub open spec fn tester_rules(cs: Seq<ConstructorDeclV>, n: int) -> Seq<RuleTextV>
    decreases n,
{
    if n <= 0 || n > cs.len() {
        Seq::empty()
    } else {
        tester_rules(cs, n - 1).push(tester_pos(cs[n - 1])) + tester_negs(cs, n - 1, cs.len() as int)
    }
}

/// The selector rules of constructors `0..n`.
pub open spec fn all_selector_rules(cs: Seq<ConstructorDeclV>, n: int) -> Seq<RuleTextV>
    decreases n,
{
    if n <= 0 || n > cs.len() {
        Seq::empty()
    } else {
        all_selector_rules(cs, n - 1) + selector_rules(cs[n - 1], cs[n - 1].fields.len() as int)
    }
}

/// The rules of one datatype: all selector rules, then all tester rules.
pub open spec fn datatype_rules(d: DatatypeDeclV) -> Seq<RuleTextV> {
    all_selector_rules(d.constructors, d.constructors.len() as int)
        + tester_rules(d.constructors, d.constructors.len() as int)
}

/// Appends `p0 p1 ... p{n-1}` to `out`.
fn push_var_list(out: &mut String, p: &str, n: usize)
    ensures final(out)@ == old(out)@ + var_list(p@, n as nat),
{
    let mut i: usize = 0;
    while i < n
        invariant
            i <= n,
            out@ == old(out)@ + var_list(p@, i as nat),
        decreases n - i,
    {
        if i > 0 {
            out.append(" ");
        }
        out.append(p);
        let t = usize_to_text(i);
        out.append(t.as_str());
        i += 1;
    }
}

fn ctor_pattern_text(c: &ConstructorDecl, p: &str) -> (r: String)
    ensures r@ == ctor_pattern(ctor_v(*c), p@),
{
    let mut out = String::from_str("(");
    out.append(c.name.as_str());
    out.append(" ");
    push_var_list(&mut out, p, c.fields.len());
    out.append(")");
    out
}

fn tester_pattern_text(c: &ConstructorDecl) -> (r: String)
    ensures r@ == tester_pattern(ctor_v(*c)),
{
    if c.fields.len() == 0 { c.name.clone() } else { ctor_pattern_text(c, "?v") }
}

/// The selector rules of a constructor's fields.
pub fn selector_rule_texts(c: &ConstructorDecl) -> (rs: Vec<RuleText>)
    ensures rules_v(rs@) == selector_rules(ctor_v(*c), c.fields.len() as int),
{
    let ghost cv = ctor_v(*c);
    let pat = ctor_pattern_text(c, "?x");
    let mut rs: Vec<RuleText> = Vec::new();
    let mut i: usize = 0;
    while i < c.fields.len()
        invariant
            i <= c.fields.len(),
            cv == ctor_v(*c),
            pat@ == ctor_pattern(cv, "?x"@),
            rules_v(rs@) == selector_rules(cv, i as int),
        decreases c.fields.len() - i,
    {
        let sel = &c.fields[i].selector;
        let mut name = sel.clone();
        name.append("_");
        name.append(c.name.as_str());
        let mut lhs = String::from_str("(");
        lhs.append(sel.as_str());
        lhs.append(" ");
        lhs.append(pat.as_str());
        lhs.append(")");
        let mut rhs = String::from_str("?x");
        let t = usize_to_text(i);
        rhs.append(t.as_str());
        let ghost old_rs = rs@;
        rs.push(RuleText { name, lhs, rhs });
        assert(rules_v(rs@) =~= rules_v(old_rs).push(selector_rule(cv, i as int)));
        i += 1;
    }
    rs
}

/// The rules of one datatype.
pub fn datatype_rule_texts(dt: &DatatypeDecl) -> (rs: Vec<RuleText>)
    ensures rules_v(rs@) == datatype_rules(datatype_v(*dt)),
{
    let ghost d = datatype_v(*dt);
    let ghost cs = d.constructors;
    let n = dt.constructors.len();
    let mut rs: Vec<RuleText> = Vec::new();
    let mut i: usize = 0;
    while i < n
        invariant
            i <= n,
            n == dt.constructors.len(),
            d == datatype_v(*dt),
            cs == d.constructors,
            cs.len() == n,
            rules_v(rs@) == all_selector_rules(cs, i as int),
        decreases n - i,
    {
        let mut sr = selector_rule_texts(&dt.constructors[i]);
        assert(cs[i as int] == ctor_v(dt.constructors@[i as int]));
        let ghost old_rs = rs@;
        let ghost srv = sr@;
        rs.append(&mut sr);
        assert(rules_v(rs@) =~= rules_v(old_rs) + rules_v(srv));
        i += 1;
    }
    let ghost sel_part = rules_v(rs@);
    let mut t: Vec<RuleText> = Vec::new();
    let mut i: usize = 0;
    while i < n
        invariant
            i <= n,
            n == dt.constructors.len(),
            d == datatype_v(*dt),
            cs == d.constructors,
            cs.len() == n,
            rules_v(t@) == tester_rules(cs, i as int),
        decreases n - i,
    {
        let ci = &dt.constructors[i];
        assert(cs[i as int] == ctor_v(*ci));
        let mut name = String::from_str("tester-pos-");
        name.append(ci.name.as_str());
        let mut lhs = String::from_str("(is-");
        lhs.append(ci.name.as_str());
        lhs.append(" ");
        let pat = tester_pattern_text(ci);
        lhs.append(pat.as_str());
        lhs.append(")");
        let ghost old_t = t@;
        t.push(RuleText { name, lhs, rhs: String::from_str("true") });
        assert(rules_v(t@) =~= rules_v(old_t).push(tester_pos(cs[i as int])));
        let ghost with_pos = rules_v(t@);
        let mut j: usize = 0;
        while j < n
            invariant
                i < n,
                j <= n,
                n == dt.constructors.len(),
                d == datatype_v(*dt),
                cs == d.constructors,
                cs.len() == n,
                cs[i as int] == ctor_v(*ci),
                rules_v(t@) == with_pos + tester_negs(cs, i as int, j as int),
            decreases n - j,
        {
            if j != i {
                let cj = &dt.constructors[j];
                assert(cs[j as int] == ctor_v(*cj));
                let mut name = String::from_str("tester-neg-");
                name.append(ci.name.as_str());
                name.append("-");
                name.append(cj.name.as_str());
                let mut lhs = String::from_str("(is-");
                lhs.append(ci.name.as_str());
                lhs.append(" ");
                let pat = tester_pattern_text(cj);
                lhs.append(pat.as_str());
                lhs.append(")");
                let ghost old_t = t@;
                t.push(RuleText { name, lhs, rhs: String::from_str("false") });
                assert(rules_v(t@) =~= rules_v(old_t).push(tester_neg(cs[i as int], cs[j as int])));
                assert(tester_negs(cs, i as int, j as int + 1) == tester_negs(cs, i as int, j as int).push(tester_neg(cs[i as int], cs[j as int])));
            }
            j += 1;
        }
        i += 1;
    }
    let ghost old_rs = rs@;
    let ghost tv = t@;
    rs.append(&mut t);
    assert(rules_v(rs@) =~= rules_v(old_rs) + rules_v(tv));
    rs
}


// ---------------------------------------------------------------------------
// Laws
// ---------------------------------------------------------------------------

/// There are 17 Boolean simplification rules, reflexivity of `=` among them.
pub proof fn lemma_boolean_rules()
    ensures
        boolean_rules().len() == 17,
        boolean_rules().contains(rule("eq-refl"@, "(= ?x ?x)"@, "true"@)),
{
    assert(boolean_rules()[16] == rule("eq-refl"@, "(= ?x ?x)"@, "true"@));
}

proof fn lemma_selector_rules_has(c: ConstructorDeclV, n: int, i: int)
    requires 0 <= i < n <= c.fields.len(),
    ensures selector_rules(c, n).contains(selector_rule(c, i)),
    decreases n,
{
    if i < n - 1 {
        lemma_selector_rules_has(c, n - 1, i);
        let s = selector_rules(c, n - 1);
        let k = choose|k: int| 0 <= k < s.len() && s[k] == selector_rule(c, i);
        assert(selector_rules(c, n)[k] == selector_rule(c, i));
    } else {
        let s = selector_rules(c, n);
        assert(s[s.len() - 1] == selector_rule(c, i));
    }
}

proof fn lemma_all_selector_rules_has(cs: Seq<ConstructorDeclV>, n: int, j: int, i: int)
    requires 0 <= j < n <= cs.len(), 0 <= i < cs[j].fields.len(),
    ensures all_selector_rules(cs, n).contains(selector_rule(cs[j], i)),
    decreases n,
{
    let whole = all_selector_rules(cs, n);
    if j < n - 1 {
        lemma_all_selector_rules_has(cs, n - 1, j, i);
        let s = all_selector_rules(cs, n - 1);
        let k = choose|k: int| 0 <= k < s.len() && s[k] == selector_rule(cs[j], i);
        assert(whole[k] == selector_rule(cs[j], i));
    } else {
        let s = all_selector_rules(cs, n - 1);
        let t = selector_rules(cs[n - 1], cs[n - 1].fields.len() as int);
        lemma_selector_rules_has(cs[n - 1], cs[n - 1].fields.len() as int, i);
        let k = choose|k: int| 0 <= k < t.len() && t[k] == selector_rule(cs[j], i);
        assert(whole[s.len() + k] == selector_rule(cs[j], i));
    }
}

proof fn lemma_tester_negs_has(cs: Seq<ConstructorDeclV>, i: int, m: int, j: int)
    requires 0 <= j < m <= cs.len(), j != i,
    ensures tester_negs(cs, i, m).contains(tester_neg(cs[i], cs[j])),
    decreases m,
{
    if j < m - 1 {
        lemma_tester_negs_has(cs, i, m - 1, j);
        let s = tester_negs(cs, i, m - 1);
        let k = choose|k: int| 0 <= k < s.len() && s[k] == tester_neg(cs[i], cs[j]);
        if m - 1 != i {
            assert(tester_negs(cs, i, m)[k] == tester_neg(cs[i], cs[j]));
        }
    } else {
        let s = tester_negs(cs, i, m);
        assert(s[s.len() - 1] == tester_neg(cs[i], cs[j]));
    }
}

proof fn lemma_tester_rules_has(cs: Seq<ConstructorDeclV>, n: int, i: int, j: int)
    requires 0 <= i < n <= cs.len(), 0 <= j < cs.len(),
    ensures
        tester_rules(cs, n).contains(tester_pos(cs[i])),
        j != i ==> tester_rules(cs, n).contains(tester_neg(cs[i], cs[j])),
    decreases n,
{
    let whole = tester_rules(cs, n);
    let prev = tester_rules(cs, n - 1);
    if i < n - 1 {
        lemma_tester_rules_has(cs, n - 1, i, j);
        let k = choose|k: int| 0 <= k < prev.len() && prev[k] == tester_pos(cs[i]);
        assert(whole[k] == tester_pos(cs[i]));
        if j != i {
            let k2 = choose|k: int| 0 <= k < prev.len() && prev[k] == tester_neg(cs[i], cs[j]);
            assert(whole[k2] == tester_neg(cs[i], cs[j]));
        }
    } else {
        assert(whole[prev.len() as int] == tester_pos(cs[i]));
        if j != i {
            lemma_tester_negs_has(cs, i, cs.len() as int, j);
            let t = tester_negs(cs, i, cs.len() as int);
            let k = choose|k: int| 0 <= k < t.len() && t[k] == tester_neg(cs[i], cs[j]);
            assert(whole[prev.len() + 1 + k] == tester_neg(cs[i], cs[j]));
        }
    }
}

/// The rules of a datatype hold, for every constructor `C` and field `i`, the selector rule
/// `(sel_i (C ?x0 ...)) => ?xi`; for every constructor, the positive tester rule; and for
/// every two different positions of constructors, the negative tester rule.
pub proof fn lemma_datatype_rules_complete(d: DatatypeDeclV)
    ensures
        forall|j: int, i: int| 0 <= j < d.constructors.len() && 0 <= i < d.constructors[j].fields.len()
            ==> datatype_rules(d).contains(#[trigger] selector_rule(d.constructors[j], i)),
        forall|i: int| 0 <= i < d.constructors.len()
            ==> datatype_rules(d).contains(#[trigger] tester_pos(d.constructors[i])),
        forall|i: int, j: int| 0 <= i < d.constructors.len() && 0 <= j < d.constructors.len() && i != j
            ==> datatype_rules(d).contains(#[trigger] tester_neg(d.constructors[i], d.constructors[j])),
{
    let cs = d.constructors;
    let n = cs.len() as int;
    let sel = all_selector_rules(cs, n);
    let tst = tester_rules(cs, n);
    assert forall|j: int, i: int| 0 <= j < cs.len() && 0 <= i < cs[j].fields.len()
        implies datatype_rules(d).contains(#[trigger] selector_rule(cs[j], i)) by {
        lemma_all_selector_rules_has(cs, n, j, i);
        let k = choose|k: int| 0 <= k < sel.len() && sel[k] == selector_rule(cs[j], i);
        assert(datatype_rules(d)[k] == selector_rule(cs[j], i));
    }
    assert forall|i: int| 0 <= i < cs.len() implies datatype_rules(d).contains(#[trigger] tester_pos(cs[i])) by {
        lemma_tester_rules_has(cs, n, i, i);
        let k = choose|k: int| 0 <= k < tst.len() && tst[k] == tester_pos(cs[i]);
        assert(datatype_rules(d)[sel.len() + k] == tester_pos(cs[i]));
    }
    assert forall|i: int, j: int| 0 <= i < cs.len() && 0 <= j < cs.len() && i != j
        implies datatype_rules(d).contains(#[trigger] tester_neg(cs[i], cs[j])) by {
        lemma_tester_rules_has(cs, n, i, j);
        let k = choose|k: int| 0 <= k < tst.len() && tst[k] == tester_neg(cs[i], cs[j]);
        assert(datatype_rules(d)[sel.len() + k] == tester_neg(cs[i], cs[j]));
    }
}

} // verus!
