//! The meaning of the Boolean simplification rules: each rule's two sides, read as `egg`
//! reads them, have the same truth value under the truth tables of the connectives.
use vstd::prelude::*;
use crate::ast::TermV;
use crate::sexp::{SExpV, read_sexp, tokenize_spec};
use crate::print::{term_text, terms_text};
use crate::reread::{symbolic, all_symbolic, plain_symbol, sexp_of, sexps_of, lemma_text_reads_as};
use crate::rules::boolean_rules;

verus! {

/// The truth value of a Boolean S-expression under the truth tables of `not`, `and`, `or`,
/// `=>`, `ite` and `=`, with `true` and `false` as constants and every other atom given its
/// value by `env`.
pub open spec fn bool_val(e: SExpV, env: spec_fn(Seq<char>) -> bool) -> bool
    decreases e,
{
    match e {
        SExpV::Atom(a) => if a == "true"@ { true } else if a == "false"@ { false } else { env(a) },
        SExpV::List(xs) => {
            if xs.len() == 2 && xs[0] == SExpV::Atom("not"@) {
                !bool_val(xs[1], env)
            } else if xs.len() == 3 && xs[0] == SExpV::Atom("and"@) {
                bool_val(xs[1], env) && bool_val(xs[2], env)
            } else if xs.len() == 3 && xs[0] == SExpV::Atom("or"@) {
                bool_val(xs[1], env) || bool_val(xs[2], env)
            } else if xs.len() == 3 && xs[0] == SExpV::Atom("=>"@) {
                !bool_val(xs[1], env) || bool_val(xs[2], env)
            } else if xs.len() == 3 && xs[0] == SExpV::Atom("="@) {
                bool_val(xs[1], env) == bool_val(xs[2], env)
            } else if xs.len() == 4 && xs[0] == SExpV::Atom("ite"@) {
                if bool_val(xs[1], env) { bool_val(xs[2], env) } else { bool_val(xs[3], env) }
            } else {
                false
            }
        },
    }
}

/// A pattern text read as `egg` reads it: tokenized, then one S-expression from the first
/// token.
pub open spec fn read_text(t: Seq<char>) -> Result<(SExpV, int), Seq<char>> {
    read_sexp(tokenize_spec(t), 0)
}

proof fn lemma_literals()
    ensures
        "false"@ != "true"@,
        "false"@ != "not"@,
        "false"@ != "or"@,
        "false"@ != "ite"@,
        "not"@ != "true"@,
        "not"@ != "or"@,
        "and"@ != "true"@,
        "and"@ != "false"@,
        "and"@ != "not"@,
        "and"@ != "or"@,
        "and"@ != "ite"@,
        "or"@ != "true"@,
        "=>"@ != "true"@,
        "=>"@ != "false"@,
        "=>"@ != "not"@,
        "=>"@ != "and"@,
        "=>"@ != "or"@,
        "=>"@ != "ite"@,
        "=>"@ != "?x"@,
        "=>"@ != "?y"@,
        "="@ != "true"@,
        "="@ != "false"@,
        "="@ != "not"@,
        "="@ != "and"@,
        "="@ != "or"@,
        "="@ != "=>"@,
        "="@ != "ite"@,
        "="@ != "?x"@,
        "="@ != "?y"@,
        "ite"@ != "true"@,
        "ite"@ != "not"@,
        "ite"@ != "or"@,
        "?x"@ != "true"@,
        "?x"@ != "false"@,
        "?x"@ != "not"@,
        "?x"@ != "and"@,
        "?x"@ != "or"@,
        "?x"@ != "ite"@,
        "?x"@ != "?y"@,
        "?y"@ != "true"@,
        "?y"@ != "false"@,
        "?y"@ != "not"@,
        "?y"@ != "and"@,
        "?y"@ != "or"@,
        "?y"@ != "ite"@,
        plain_symbol("true"@),
        plain_symbol("false"@),
        plain_symbol("not"@),
        plain_symbol("and"@),
        plain_symbol("or"@),
        plain_symbol("=>"@),
        plain_symbol("="@),
        plain_symbol("ite"@),
        plain_symbol("?x"@),
        plain_symbol("?y"@),
{
    reveal_strlit("true");
    reveal_strlit("false");
    reveal_strlit("not");
    reveal_strlit("and");
    reveal_strlit("or");
    reveal_strlit("=>");
    reveal_strlit("=");
    reveal_strlit("ite");
    reveal_strlit("?x");
    reveal_strlit("?y");
    assert("false"@.len() != "true"@.len());
    assert("false"@.len() != "not"@.len());
    assert("false"@.len() != "or"@.len());
    assert("false"@.len() != "ite"@.len());
    assert("not"@.len() != "true"@.len());
    assert("not"@.len() != "or"@.len());
    assert("and"@.len() != "true"@.len());
    assert("and"@.len() != "false"@.len());
    assert("and"@[0] != "not"@[0]);
    assert("and"@.len() != "or"@.len());
    assert("and"@[0] != "ite"@[0]);
    assert("or"@.len() != "true"@.len());
    assert("=>"@.len() != "true"@.len());
    assert("=>"@.len() != "false"@.len());
    assert("=>"@.len() != "not"@.len());
    assert("=>"@.len() != "and"@.len());
    assert("=>"@[0] != "or"@[0]);
    assert("=>"@.len() != "ite"@.len());
    assert("=>"@[0] != "?x"@[0]);
    assert("=>"@[0] != "?y"@[0]);
    assert("="@.len() != "true"@.len());
    assert("="@.len() != "false"@.len());
    assert("="@.len() != "not"@.len());
    assert("="@.len() != "and"@.len());
    assert("="@.len() != "or"@.len());
    assert("="@.len() != "=>"@.len());
    assert("="@.len() != "ite"@.len());
    assert("="@.len() != "?x"@.len());
    assert("="@.len() != "?y"@.len());
    assert("ite"@.len() != "true"@.len());
    assert("ite"@[0] != "not"@[0]);
    assert("ite"@.len() != "or"@.len());
    assert("?x"@.len() != "true"@.len());
    assert("?x"@.len() != "false"@.len());
    assert("?x"@.len() != "not"@.len());
    assert("?x"@.len() != "and"@.len());
    assert("?x"@[0] != "or"@[0]);
    assert("?x"@.len() != "ite"@.len());
    assert("?x"@[1] != "?y"@[1]);
    assert("?y"@.len() != "true"@.len());
    assert("?y"@.len() != "false"@.len());
    assert("?y"@.len() != "not"@.len());
    assert("?y"@.len() != "and"@.len());
    assert("?y"@[0] != "or"@[0]);
    assert("?y"@.len() != "ite"@.len());
}

proof fn lemma_rule_sound_0(env: spec_fn(Seq<char>) -> bool)
    ensures
        read_text("(not true)"@) matches Ok((l, _)) && read_text("false"@) matches Ok((r, _))
            && bool_val(l, env) == bool_val(r, env),
{
    lemma_literals();
    reveal_strlit("not"); reveal_strlit("and"); reveal_strlit("or"); reveal_strlit("=>"); reveal_strlit("ite"); reveal_strlit("=");
    reveal_strlit(" ");
    reveal_strlit("(");
    reveal_strlit("(not true)");
    reveal_strlit(")");
    reveal_strlit("false");
    reveal_strlit("true");
    let tl = TermV::App("not"@, seq![TermV::Var("true"@)]);
    let tr = TermV::Var("false"@);
    assert(term_text(TermV::Var("true"@)) == "true"@);
    assert(terms_text(seq![TermV::Var("true"@)], 1) == term_text(TermV::Var("true"@)));
    assert(all_symbolic(seq![TermV::Var("true"@)], 1) == (all_symbolic(seq![TermV::Var("true"@)], 0) && symbolic(TermV::Var("true"@))));
    assert(terms_text(seq![TermV::Var("true"@)], 1) =~= "true"@);
    assert(term_text(TermV::App("not"@, seq![TermV::Var("true"@)])) =~= "(not true)"@);
    assert(symbolic(TermV::App("not"@, seq![TermV::Var("true"@)])));
    assert(term_text(TermV::Var("false"@)) == "false"@);
    assert(sexp_of(TermV::Var("true"@)) == SExpV::Atom("true"@));
    assert(sexps_of(seq![TermV::Var("true"@)], 1) == sexps_of(seq![TermV::Var("true"@)], 0).push(sexp_of(TermV::Var("true"@))));
    assert(sexps_of(seq![TermV::Var("true"@)], 1) =~= seq![SExpV::Atom("true"@)]);
    assert(sexp_of(TermV::App("not"@, seq![TermV::Var("true"@)])) == SExpV::List(seq![SExpV::Atom("not"@), SExpV::Atom("true"@)])) by {
        assert(seq![SExpV::Atom("not"@)] + seq![SExpV::Atom("true"@)] =~= seq![SExpV::Atom("not"@), SExpV::Atom("true"@)]);
    }
    assert(sexp_of(TermV::Var("false"@)) == SExpV::Atom("false"@));
    let sl = SExpV::List(seq![SExpV::Atom("not"@), SExpV::Atom("true"@)]);
    let sr = SExpV::Atom("false"@);
    assert(bool_val(SExpV::Atom("true"@), env) == true);
    assert(bool_val(SExpV::List(seq![SExpV::Atom("not"@), SExpV::Atom("true"@)]), env) == !(true));
    assert(bool_val(SExpV::Atom("false"@), env) == false);
    assert(bool_val(sl, env) == bool_val(sr, env));
    lemma_text_reads_as(tl);
    lemma_text_reads_as(tr);
}

proof fn lemma_rule_sound_1(env: spec_fn(Seq<char>) -> bool)
    ensures
        read_text("(not false)"@) matches Ok((l, _)) && read_text("true"@) matches Ok((r, _))
            && bool_val(l, env) == bool_val(r, env),
{
    lemma_literals();
    reveal_strlit("not"); reveal_strlit("and"); reveal_strlit("or"); reveal_strlit("=>"); reveal_strlit("ite"); reveal_strlit("=");
    reveal_strlit(" ");
    reveal_strlit("(");
    reveal_strlit("(not false)");
    reveal_strlit(")");
    reveal_strlit("false");
    reveal_strlit("true");
    let tl = TermV::App("not"@, seq![TermV::Var("false"@)]);
    let tr = TermV::Var("true"@);
    assert(term_text(TermV::Var("false"@)) == "false"@);
    assert(terms_text(seq![TermV::Var("false"@)], 1) == term_text(TermV::Var("false"@)));
    assert(all_symbolic(seq![TermV::Var("false"@)], 1) == (all_symbolic(seq![TermV::Var("false"@)], 0) && symbolic(TermV::Var("false"@))));
    assert(terms_text(seq![TermV::Var("false"@)], 1) =~= "false"@);
    assert(term_text(TermV::App("not"@, seq![TermV::Var("false"@)])) =~= "(not false)"@);
    assert(symbolic(TermV::App("not"@, seq![TermV::Var("false"@)])));
    assert(term_text(TermV::Var("true"@)) == "true"@);
    assert(sexp_of(TermV::Var("false"@)) == SExpV::Atom("false"@));
    assert(sexps_of(seq![TermV::Var("false"@)], 1) == sexps_of(seq![TermV::Var("false"@)], 0).push(sexp_of(TermV::Var("false"@))));
    assert(sexps_of(seq![TermV::Var("false"@)], 1) =~= seq![SExpV::Atom("false"@)]);
    assert(sexp_of(TermV::App("not"@, seq![TermV::Var("false"@)])) == SExpV::List(seq![SExpV::Atom("not"@), SExpV::Atom("false"@)])) by {
        assert(seq![SExpV::Atom("not"@)] + seq![SExpV::Atom("false"@)] =~= seq![SExpV::Atom("not"@), SExpV::Atom("false"@)]);
    }
    assert(sexp_of(TermV::Var("true"@)) == SExpV::Atom("true"@));
    let sl = SExpV::List(seq![SExpV::Atom("not"@), SExpV::Atom("false"@)]);
    let sr = SExpV::Atom("true"@);
    assert(bool_val(SExpV::Atom("false"@), env) == false);
    assert(bool_val(SExpV::List(seq![SExpV::Atom("not"@), SExpV::Atom("false"@)]), env) == !(false));
    assert(bool_val(SExpV::Atom("true"@), env) == true);
    assert(bool_val(sl, env) == bool_val(sr, env));
    lemma_text_reads_as(tl);
    lemma_text_reads_as(tr);
}

proof fn lemma_rule_sound_2(env: spec_fn(Seq<char>) -> bool)
    ensures
        read_text("(not (not ?x))"@) matches Ok((l, _)) && read_text("?x"@) matches Ok((r, _))
            && bool_val(l, env) == bool_val(r, env),
{
    lemma_literals();
    reveal_strlit("not"); reveal_strlit("and"); reveal_strlit("or"); reveal_strlit("=>"); reveal_strlit("ite"); reveal_strlit("=");
    reveal_strlit(" ");
    reveal_strlit("(");
    reveal_strlit("(not (not ?x))");
    reveal_strlit("(not ?x)");
    reveal_strlit(")");
    reveal_strlit("?x");
    let tl = TermV::App("not"@, seq![TermV::App("not"@, seq![TermV::Var("?x"@)])]);
    let tr = TermV::Var("?x"@);
    assert(term_text(TermV::Var("?x"@)) == "?x"@);
    assert(terms_text(seq![TermV::Var("?x"@)], 1) == term_text(TermV::Var("?x"@)));
    assert(all_symbolic(seq![TermV::Var("?x"@)], 1) == (all_symbolic(seq![TermV::Var("?x"@)], 0) && symbolic(TermV::Var("?x"@))));
    assert(terms_text(seq![TermV::Var("?x"@)], 1) =~= "?x"@);
    assert(term_text(TermV::App("not"@, seq![TermV::Var("?x"@)])) =~= "(not ?x)"@);
    assert(symbolic(TermV::App("not"@, seq![TermV::Var("?x"@)])));
    assert(terms_text(seq![TermV::App("not"@, seq![TermV::Var("?x"@)])], 1) == term_text(TermV::App("not"@, seq![TermV::Var("?x"@)])));
    assert(all_symbolic(seq![TermV::App("not"@, seq![TermV::Var("?x"@)])], 1) == (all_symbolic(seq![TermV::App("not"@, seq![TermV::Var("?x"@)])], 0) && symbolic(TermV::App("not"@, seq![TermV::Var("?x"@)]))));
    assert(terms_text(seq![TermV::App("not"@, seq![TermV::Var("?x"@)])], 1) =~= "(not ?x)"@);
    assert(term_text(TermV::App("not"@, seq![TermV::App("not"@, seq![TermV::Var("?x"@)])])) =~= "(not (not ?x))"@);
    assert(symbolic(TermV::App("not"@, seq![TermV::App("not"@, seq![TermV::Var("?x"@)])])));
    assert(term_text(TermV::Var("?x"@)) == "?x"@);
    assert(sexp_of(TermV::Var("?x"@)) == SExpV::Atom("?x"@));
    assert(sexps_of(seq![TermV::Var("?x"@)], 1) == sexps_of(seq![TermV::Var("?x"@)], 0).push(sexp_of(TermV::Var("?x"@))));
    assert(sexps_of(seq![TermV::Var("?x"@)], 1) =~= seq![SExpV::Atom("?x"@)]);
    assert(sexp_of(TermV::App("not"@, seq![TermV::Var("?x"@)])) == SExpV::List(seq![SExpV::Atom("not"@), SExpV::Atom("?x"@)])) by {
        assert(seq![SExpV::Atom("not"@)] + seq![SExpV::Atom("?x"@)] =~= seq![SExpV::Atom("not"@), SExpV::Atom("?x"@)]);
    }
    assert(sexps_of(seq![TermV::App("not"@, seq![TermV::Var("?x"@)])], 1) == sexps_of(seq![TermV::App("not"@, seq![TermV::Var("?x"@)])], 0).push(sexp_of(TermV::App("not"@, seq![TermV::Var("?x"@)]))));
    assert(sexps_of(seq![TermV::App("not"@, seq![TermV::Var("?x"@)])], 1) =~= seq![SExpV::List(seq![SExpV::Atom("not"@), SExpV::Atom("?x"@)])]);
    assert(sexp_of(TermV::App("not"@, seq![TermV::App("not"@, seq![TermV::Var("?x"@)])])) == SExpV::List(seq![SExpV::Atom("not"@), SExpV::List(seq![SExpV::Atom("not"@), SExpV::Atom("?x"@)])])) by {
        assert(seq![SExpV::Atom("not"@)] + seq![SExpV::List(seq![SExpV::Atom("not"@), SExpV::Atom("?x"@)])] =~= seq![SExpV::Atom("not"@), SExpV::List(seq![SExpV::Atom("not"@), SExpV::Atom("?x"@)])]);
    }
    assert(sexp_of(TermV::Var("?x"@)) == SExpV::Atom("?x"@));
    let sl = SExpV::List(seq![SExpV::Atom("not"@), SExpV::List(seq![SExpV::Atom("not"@), SExpV::Atom("?x"@)])]);
    let sr = SExpV::Atom("?x"@);
    assert(bool_val(SExpV::Atom("?x"@), env) == env("?x"@));
    assert(bool_val(SExpV::List(seq![SExpV::Atom("not"@), SExpV::Atom("?x"@)]), env) == !(env("?x"@)));
    assert(bool_val(SExpV::List(seq![SExpV::Atom("not"@), SExpV::List(seq![SExpV::Atom("not"@), SExpV::Atom("?x"@)])]), env) == !(!(env("?x"@))));
    assert(bool_val(SExpV::Atom("?x"@), env) == env("?x"@));
    assert(bool_val(sl, env) == bool_val(sr, env));
    lemma_text_reads_as(tl);
    lemma_text_reads_as(tr);
}

proof fn lemma_rule_sound_3(env: spec_fn(Seq<char>) -> bool)
    ensures
        read_text("(and true ?x)"@) matches Ok((l, _)) && read_text("?x"@) matches Ok((r, _))
            && bool_val(l, env) == bool_val(r, env),
{
    lemma_literals();
    reveal_strlit("not"); reveal_strlit("and"); reveal_strlit("or"); reveal_strlit("=>"); reveal_strlit("ite"); reveal_strlit("=");
    reveal_strlit(" ");
    reveal_strlit("(");
    reveal_strlit("(and true ?x)");
    reveal_strlit(")");
    reveal_strlit("?x");
    reveal_strlit("true");
    reveal_strlit("true ?x");
    let tl = TermV::App("and"@, seq![TermV::Var("true"@), TermV::Var("?x"@)]);
    let tr = TermV::Var("?x"@);
    assert(term_text(TermV::Var("true"@)) == "true"@);
    assert(term_text(TermV::Var("?x"@)) == "?x"@);
    assert(terms_text(seq![TermV::Var("true"@), TermV::Var("?x"@)], 1) == term_text(TermV::Var("true"@)));
    assert(all_symbolic(seq![TermV::Var("true"@), TermV::Var("?x"@)], 1) == (all_symbolic(seq![TermV::Var("true"@), TermV::Var("?x"@)], 0) && symbolic(TermV::Var("true"@))));
    assert(terms_text(seq![TermV::Var("true"@), TermV::Var("?x"@)], 2) == terms_text(seq![TermV::Var("true"@), TermV::Var("?x"@)], 1) + " "@ + term_text(TermV::Var("?x"@)));
    assert(all_symbolic(seq![TermV::Var("true"@), TermV::Var("?x"@)], 2) == (all_symbolic(seq![TermV::Var("true"@), TermV::Var("?x"@)], 1) && symbolic(TermV::Var("?x"@))));
    assert(terms_text(seq![TermV::Var("true"@), TermV::Var("?x"@)], 2) =~= "true ?x"@);
    assert(term_text(TermV::App("and"@, seq![TermV::Var("true"@), TermV::Var("?x"@)])) =~= "(and true ?x)"@);
    assert(symbolic(TermV::App("and"@, seq![TermV::Var("true"@), TermV::Var("?x"@)])));
    assert(term_text(TermV::Var("?x"@)) == "?x"@);
    assert(sexp_of(TermV::Var("true"@)) == SExpV::Atom("true"@));
    assert(sexp_of(TermV::Var("?x"@)) == SExpV::Atom("?x"@));
    assert(sexps_of(seq![TermV::Var("true"@), TermV::Var("?x"@)], 1) == sexps_of(seq![TermV::Var("true"@), TermV::Var("?x"@)], 0).push(sexp_of(TermV::Var("true"@))));
    assert(sexps_of(seq![TermV::Var("true"@), TermV::Var("?x"@)], 2) == sexps_of(seq![TermV::Var("true"@), TermV::Var("?x"@)], 1).push(sexp_of(TermV::Var("?x"@))));
    assert(sexps_of(seq![TermV::Var("true"@), TermV::Var("?x"@)], 2) =~= seq![SExpV::Atom("true"@), SExpV::Atom("?x"@)]);
    assert(sexp_of(TermV::App("and"@, seq![TermV::Var("true"@), TermV::Var("?x"@)])) == SExpV::List(seq![SExpV::Atom("and"@), SExpV::Atom("true"@), SExpV::Atom("?x"@)])) by {
        assert(seq![SExpV::Atom("and"@)] + seq![SExpV::Atom("true"@), SExpV::Atom("?x"@)] =~= seq![SExpV::Atom("and"@), SExpV::Atom("true"@), SExpV::Atom("?x"@)]);
    }
    assert(sexp_of(TermV::Var("?x"@)) == SExpV::Atom("?x"@));
    let sl = SExpV::List(seq![SExpV::Atom("and"@), SExpV::Atom("true"@), SExpV::Atom("?x"@)]);
    let sr = SExpV::Atom("?x"@);
    assert(bool_val(SExpV::Atom("true"@), env) == true);
    assert(bool_val(SExpV::Atom("?x"@), env) == env("?x"@));
    assert(bool_val(SExpV::List(seq![SExpV::Atom("and"@), SExpV::Atom("true"@), SExpV::Atom("?x"@)]), env) == ((true) && (env("?x"@))));
    assert(bool_val(SExpV::Atom("?x"@), env) == env("?x"@));
    assert(bool_val(sl, env) == bool_val(sr, env));
    lemma_text_reads_as(tl);
    lemma_text_reads_as(tr);
}

proof fn lemma_rule_sound_4(env: spec_fn(Seq<char>) -> bool)
    ensures
        read_text("(and ?x true)"@) matches Ok((l, _)) && read_text("?x"@) matches Ok((r, _))
            && bool_val(l, env) == bool_val(r, env),
{
    lemma_literals();
    reveal_strlit("not"); reveal_strlit("and"); reveal_strlit("or"); reveal_strlit("=>"); reveal_strlit("ite"); reveal_strlit("=");
    reveal_strlit(" ");
    reveal_strlit("(");
    reveal_strlit("(and ?x true)");
    reveal_strlit(")");
    reveal_strlit("?x");
    reveal_strlit("?x true");
    reveal_strlit("true");
    let tl = TermV::App("and"@, seq![TermV::Var("?x"@), TermV::Var("true"@)]);
    let tr = TermV::Var("?x"@);
    assert(term_text(TermV::Var("?x"@)) == "?x"@);
    assert(term_text(TermV::Var("true"@)) == "true"@);
    assert(terms_text(seq![TermV::Var("?x"@), TermV::Var("true"@)], 1) == term_text(TermV::Var("?x"@)));
    assert(all_symbolic(seq![TermV::Var("?x"@), TermV::Var("true"@)], 1) == (all_symbolic(seq![TermV::Var("?x"@), TermV::Var("true"@)], 0) && symbolic(TermV::Var("?x"@))));
    assert(terms_text(seq![TermV::Var("?x"@), TermV::Var("true"@)], 2) == terms_text(seq![TermV::Var("?x"@), TermV::Var("true"@)], 1) + " "@ + term_text(TermV::Var("true"@)));
    assert(all_symbolic(seq![TermV::Var("?x"@), TermV::Var("true"@)], 2) == (all_symbolic(seq![TermV::Var("?x"@), TermV::Var("true"@)], 1) && symbolic(TermV::Var("true"@))));
    assert(terms_text(seq![TermV::Var("?x"@), TermV::Var("true"@)], 2) =~= "?x true"@);
    assert(term_text(TermV::App("and"@, seq![TermV::Var("?x"@), TermV::Var("true"@)])) =~= "(and ?x true)"@);
    assert(symbolic(TermV::App("and"@, seq![TermV::Var("?x"@), TermV::Var("true"@)])));
    assert(term_text(TermV::Var("?x"@)) == "?x"@);
    assert(sexp_of(TermV::Var("?x"@)) == SExpV::Atom("?x"@));
    assert(sexp_of(TermV::Var("true"@)) == SExpV::Atom("true"@));
    assert(sexps_of(seq![TermV::Var("?x"@), TermV::Var("true"@)], 1) == sexps_of(seq![TermV::Var("?x"@), TermV::Var("true"@)], 0).push(sexp_of(TermV::Var("?x"@))));
    assert(sexps_of(seq![TermV::Var("?x"@), TermV::Var("true"@)], 2) == sexps_of(seq![TermV::Var("?x"@), TermV::Var("true"@)], 1).push(sexp_of(TermV::Var("true"@))));
    assert(sexps_of(seq![TermV::Var("?x"@), TermV::Var("true"@)], 2) =~= seq![SExpV::Atom("?x"@), SExpV::Atom("true"@)]);
    assert(sexp_of(TermV::App("and"@, seq![TermV::Var("?x"@), TermV::Var("true"@)])) == SExpV::List(seq![SExpV::Atom("and"@), SExpV::Atom("?x"@), SExpV::Atom("true"@)])) by {
        assert(seq![SExpV::Atom("and"@)] + seq![SExpV::Atom("?x"@), SExpV::Atom("true"@)] =~= seq![SExpV::Atom("and"@), SExpV::Atom("?x"@), SExpV::Atom("true"@)]);
    }
    assert(sexp_of(TermV::Var("?x"@)) == SExpV::Atom("?x"@));
    let sl = SExpV::List(seq![SExpV::Atom("and"@), SExpV::Atom("?x"@), SExpV::Atom("true"@)]);
    let sr = SExpV::Atom("?x"@);
    assert(bool_val(SExpV::Atom("?x"@), env) == env("?x"@));
    assert(bool_val(SExpV::Atom("true"@), env) == true);
    assert(bool_val(SExpV::List(seq![SExpV::Atom("and"@), SExpV::Atom("?x"@), SExpV::Atom("true"@)]), env) == ((env("?x"@)) && (true)));
    assert(bool_val(SExpV::Atom("?x"@), env) == env("?x"@));
    assert(bool_val(sl, env) == bool_val(sr, env));
    lemma_text_reads_as(tl);
    lemma_text_reads_as(tr);
}

proof fn lemma_rule_sound_5(env: spec_fn(Seq<char>) -> bool)
    ensures
        read_text("(and false ?x)"@) matches Ok((l, _)) && read_text("false"@) matches Ok((r, _))
            && bool_val(l, env) == bool_val(r, env),
{
    lemma_literals();
    reveal_strlit("not"); reveal_strlit("and"); reveal_strlit("or"); reveal_strlit("=>"); reveal_strlit("ite"); reveal_strlit("=");
    reveal_strlit(" ");
    reveal_strlit("(");
    reveal_strlit("(and false ?x)");
    reveal_strlit(")");
    reveal_strlit("?x");
    reveal_strlit("false");
    reveal_strlit("false ?x");
    let tl = TermV::App("and"@, seq![TermV::Var("false"@), TermV::Var("?x"@)]);
    let tr = TermV::Var("false"@);
    assert(term_text(TermV::Var("false"@)) == "false"@);
    assert(term_text(TermV::Var("?x"@)) == "?x"@);
    assert(terms_text(seq![TermV::Var("false"@), TermV::Var("?x"@)], 1) == term_text(TermV::Var("false"@)));
    assert(all_symbolic(seq![TermV::Var("false"@), TermV::Var("?x"@)], 1) == (all_symbolic(seq![TermV::Var("false"@), TermV::Var("?x"@)], 0) && symbolic(TermV::Var("false"@))));
    assert(terms_text(seq![TermV::Var("false"@), TermV::Var("?x"@)], 2) == terms_text(seq![TermV::Var("false"@), TermV::Var("?x"@)], 1) + " "@ + term_text(TermV::Var("?x"@)));
    assert(all_symbolic(seq![TermV::Var("false"@), TermV::Var("?x"@)], 2) == (all_symbolic(seq![TermV::Var("false"@), TermV::Var("?x"@)], 1) && symbolic(TermV::Var("?x"@))));
    assert(terms_text(seq![TermV::Var("false"@), TermV::Var("?x"@)], 2) =~= "false ?x"@);
    assert(term_text(TermV::App("and"@, seq![TermV::Var("false"@), TermV::Var("?x"@)])) =~= "(and false ?x)"@);
    assert(symbolic(TermV::App("and"@, seq![TermV::Var("false"@), TermV::Var("?x"@)])));
    assert(term_text(TermV::Var("false"@)) == "false"@);
    assert(sexp_of(TermV::Var("false"@)) == SExpV::Atom("false"@));
    assert(sexp_of(TermV::Var("?x"@)) == SExpV::Atom("?x"@));
    assert(sexps_of(seq![TermV::Var("false"@), TermV::Var("?x"@)], 1) == sexps_of(seq![TermV::Var("false"@), TermV::Var("?x"@)], 0).push(sexp_of(TermV::Var("false"@))));
    assert(sexps_of(seq![TermV::Var("false"@), TermV::Var("?x"@)], 2) == sexps_of(seq![TermV::Var("false"@), TermV::Var("?x"@)], 1).push(sexp_of(TermV::Var("?x"@))));
    assert(sexps_of(seq![TermV::Var("false"@), TermV::Var("?x"@)], 2) =~= seq![SExpV::Atom("false"@), SExpV::Atom("?x"@)]);
    assert(sexp_of(TermV::App("and"@, seq![TermV::Var("false"@), TermV::Var("?x"@)])) == SExpV::List(seq![SExpV::Atom("and"@), SExpV::Atom("false"@), SExpV::Atom("?x"@)])) by {
        assert(seq![SExpV::Atom("and"@)] + seq![SExpV::Atom("false"@), SExpV::Atom("?x"@)] =~= seq![SExpV::Atom("and"@), SExpV::Atom("false"@), SExpV::Atom("?x"@)]);
    }
    assert(sexp_of(TermV::Var("false"@)) == SExpV::Atom("false"@));
    let sl = SExpV::List(seq![SExpV::Atom("and"@), SExpV::Atom("false"@), SExpV::Atom("?x"@)]);
    let sr = SExpV::Atom("false"@);
    assert(bool_val(SExpV::Atom("false"@), env) == false);
    assert(bool_val(SExpV::Atom("?x"@), env) == env("?x"@));
    assert(bool_val(SExpV::List(seq![SExpV::Atom("and"@), SExpV::Atom("false"@), SExpV::Atom("?x"@)]), env) == ((false) && (env("?x"@))));
    assert(bool_val(SExpV::Atom("false"@), env) == false);
    assert(bool_val(sl, env) == bool_val(sr, env));
    lemma_text_reads_as(tl);
    lemma_text_reads_as(tr);
}

proof fn lemma_rule_sound_6(env: spec_fn(Seq<char>) -> bool)
    ensures
        read_text("(and ?x false)"@) matches Ok((l, _)) && read_text("false"@) matches Ok((r, _))
            && bool_val(l, env) == bool_val(r, env),
{
    lemma_literals();
    reveal_strlit("not"); reveal_strlit("and"); reveal_strlit("or"); reveal_strlit("=>"); reveal_strlit("ite"); reveal_strlit("=");
    reveal_strlit(" ");
    reveal_strlit("(");
    reveal_strlit("(and ?x false)");
    reveal_strlit(")");
    reveal_strlit("?x");
    reveal_strlit("?x false");
    reveal_strlit("false");
    let tl = TermV::App("and"@, seq![TermV::Var("?x"@), TermV::Var("false"@)]);
    let tr = TermV::Var("false"@);
    assert(term_text(TermV::Var("?x"@)) == "?x"@);
    assert(term_text(TermV::Var("false"@)) == "false"@);
    assert(terms_text(seq![TermV::Var("?x"@), TermV::Var("false"@)], 1) == term_text(TermV::Var("?x"@)));
    assert(all_symbolic(seq![TermV::Var("?x"@), TermV::Var("false"@)], 1) == (all_symbolic(seq![TermV::Var("?x"@), TermV::Var("false"@)], 0) && symbolic(TermV::Var("?x"@))));
    assert(terms_text(seq![TermV::Var("?x"@), TermV::Var("false"@)], 2) == terms_text(seq![TermV::Var("?x"@), TermV::Var("false"@)], 1) + " "@ + term_text(TermV::Var("false"@)));
    assert(all_symbolic(seq![TermV::Var("?x"@), TermV::Var("false"@)], 2) == (all_symbolic(seq![TermV::Var("?x"@), TermV::Var("false"@)], 1) && symbolic(TermV::Var("false"@))));
    assert(terms_text(seq![TermV::Var("?x"@), TermV::Var("false"@)], 2) =~= "?x false"@);
    assert(term_text(TermV::App("and"@, seq![TermV::Var("?x"@), TermV::Var("false"@)])) =~= "(and ?x false)"@);
    assert(symbolic(TermV::App("and"@, seq![TermV::Var("?x"@), TermV::Var("false"@)])));
    assert(term_text(TermV::Var("false"@)) == "false"@);
    assert(sexp_of(TermV::Var("?x"@)) == SExpV::Atom("?x"@));
    assert(sexp_of(TermV::Var("false"@)) == SExpV::Atom("false"@));
    assert(sexps_of(seq![TermV::Var("?x"@), TermV::Var("false"@)], 1) == sexps_of(seq![TermV::Var("?x"@), TermV::Var("false"@)], 0).push(sexp_of(TermV::Var("?x"@))));
    assert(sexps_of(seq![TermV::Var("?x"@), TermV::Var("false"@)], 2) == sexps_of(seq![TermV::Var("?x"@), TermV::Var("false"@)], 1).push(sexp_of(TermV::Var("false"@))));
    assert(sexps_of(seq![TermV::Var("?x"@), TermV::Var("false"@)], 2) =~= seq![SExpV::Atom("?x"@), SExpV::Atom("false"@)]);
    assert(sexp_of(TermV::App("and"@, seq![TermV::Var("?x"@), TermV::Var("false"@)])) == SExpV::List(seq![SExpV::Atom("and"@), SExpV::Atom("?x"@), SExpV::Atom("false"@)])) by {
        assert(seq![SExpV::Atom("and"@)] + seq![SExpV::Atom("?x"@), SExpV::Atom("false"@)] =~= seq![SExpV::Atom("and"@), SExpV::Atom("?x"@), SExpV::Atom("false"@)]);
    }
    assert(sexp_of(TermV::Var("false"@)) == SExpV::Atom("false"@));
    let sl = SExpV::List(seq![SExpV::Atom("and"@), SExpV::Atom("?x"@), SExpV::Atom("false"@)]);
    let sr = SExpV::Atom("false"@);
    assert(bool_val(SExpV::Atom("?x"@), env) == env("?x"@));
    assert(bool_val(SExpV::Atom("false"@), env) == false);
    assert(bool_val(SExpV::List(seq![SExpV::Atom("and"@), SExpV::Atom("?x"@), SExpV::Atom("false"@)]), env) == ((env("?x"@)) && (false)));
    assert(bool_val(SExpV::Atom("false"@), env) == false);
    assert(bool_val(sl, env) == bool_val(sr, env));
    lemma_text_reads_as(tl);
    lemma_text_reads_as(tr);
}

proof fn lemma_rule_sound_7(env: spec_fn(Seq<char>) -> bool)
    ensures
        read_text("(or false ?x)"@) matches Ok((l, _)) && read_text("?x"@) matches Ok((r, _))
            && bool_val(l, env) == bool_val(r, env),
{
    lemma_literals();
    reveal_strlit("not"); reveal_strlit("and"); reveal_strlit("or"); reveal_strlit("=>"); reveal_strlit("ite"); reveal_strlit("=");
    reveal_strlit(" ");
    reveal_strlit("(");
    reveal_strlit("(or false ?x)");
    reveal_strlit(")");
    reveal_strlit("?x");
    reveal_strlit("false");
    reveal_strlit("false ?x");
    let tl = TermV::App("or"@, seq![TermV::Var("false"@), TermV::Var("?x"@)]);
    let tr = TermV::Var("?x"@);
    assert(term_text(TermV::Var("false"@)) == "false"@);
    assert(term_text(TermV::Var("?x"@)) == "?x"@);
    assert(terms_text(seq![TermV::Var("false"@), TermV::Var("?x"@)], 1) == term_text(TermV::Var("false"@)));
    assert(all_symbolic(seq![TermV::Var("false"@), TermV::Var("?x"@)], 1) == (all_symbolic(seq![TermV::Var("false"@), TermV::Var("?x"@)], 0) && symbolic(TermV::Var("false"@))));
    assert(terms_text(seq![TermV::Var("false"@), TermV::Var("?x"@)], 2) == terms_text(seq![TermV::Var("false"@), TermV::Var("?x"@)], 1) + " "@ + term_text(TermV::Var("?x"@)));
    assert(all_symbolic(seq![TermV::Var("false"@), TermV::Var("?x"@)], 2) == (all_symbolic(seq![TermV::Var("false"@), TermV::Var("?x"@)], 1) && symbolic(TermV::Var("?x"@))));
    assert(terms_text(seq![TermV::Var("false"@), TermV::Var("?x"@)], 2) =~= "false ?x"@);
    assert(term_text(TermV::App("or"@, seq![TermV::Var("false"@), TermV::Var("?x"@)])) =~= "(or false ?x)"@);
    assert(symbolic(TermV::App("or"@, seq![TermV::Var("false"@), TermV::Var("?x"@)])));
    assert(term_text(TermV::Var("?x"@)) == "?x"@);
    assert(sexp_of(TermV::Var("false"@)) == SExpV::Atom("false"@));
    assert(sexp_of(TermV::Var("?x"@)) == SExpV::Atom("?x"@));
    assert(sexps_of(seq![TermV::Var("false"@), TermV::Var("?x"@)], 1) == sexps_of(seq![TermV::Var("false"@), TermV::Var("?x"@)], 0).push(sexp_of(TermV::Var("false"@))));
    assert(sexps_of(seq![TermV::Var("false"@), TermV::Var("?x"@)], 2) == sexps_of(seq![TermV::Var("false"@), TermV::Var("?x"@)], 1).push(sexp_of(TermV::Var("?x"@))));
    assert(sexps_of(seq![TermV::Var("false"@), TermV::Var("?x"@)], 2) =~= seq![SExpV::Atom("false"@), SExpV::Atom("?x"@)]);
    assert(sexp_of(TermV::App("or"@, seq![TermV::Var("false"@), TermV::Var("?x"@)])) == SExpV::List(seq![SExpV::Atom("or"@), SExpV::Atom("false"@), SExpV::Atom("?x"@)])) by {
        assert(seq![SExpV::Atom("or"@)] + seq![SExpV::Atom("false"@), SExpV::Atom("?x"@)] =~= seq![SExpV::Atom("or"@), SExpV::Atom("false"@), SExpV::Atom("?x"@)]);
    }
    assert(sexp_of(TermV::Var("?x"@)) == SExpV::Atom("?x"@));
    let sl = SExpV::List(seq![SExpV::Atom("or"@), SExpV::Atom("false"@), SExpV::Atom("?x"@)]);
    let sr = SExpV::Atom("?x"@);
    assert(bool_val(SExpV::Atom("false"@), env) == false);
    assert(bool_val(SExpV::Atom("?x"@), env) == env("?x"@));
    assert(bool_val(SExpV::List(seq![SExpV::Atom("or"@), SExpV::Atom("false"@), SExpV::Atom("?x"@)]), env) == ((false) || (env("?x"@))));
    assert(bool_val(SExpV::Atom("?x"@), env) == env("?x"@));
    assert(bool_val(sl, env) == bool_val(sr, env));
    lemma_text_reads_as(tl);
    lemma_text_reads_as(tr);
}

proof fn lemma_rule_sound_8(env: spec_fn(Seq<char>) -> bool)
    ensures
        read_text("(or ?x false)"@) matches Ok((l, _)) && read_text("?x"@) matches Ok((r, _))
            && bool_val(l, env) == bool_val(r, env),
{
    lemma_literals();
    reveal_strlit("not"); reveal_strlit("and"); reveal_strlit("or"); reveal_strlit("=>"); reveal_strlit("ite"); reveal_strlit("=");
    reveal_strlit(" ");
    reveal_strlit("(");
    reveal_strlit("(or ?x false)");
    reveal_strlit(")");
    reveal_strlit("?x");
    reveal_strlit("?x false");
    reveal_strlit("false");
    let tl = TermV::App("or"@, seq![TermV::Var("?x"@), TermV::Var("false"@)]);
    let tr = TermV::Var("?x"@);
    assert(term_text(TermV::Var("?x"@)) == "?x"@);
    assert(term_text(TermV::Var("false"@)) == "false"@);
    assert(terms_text(seq![TermV::Var("?x"@), TermV::Var("false"@)], 1) == term_text(TermV::Var("?x"@)));
    assert(all_symbolic(seq![TermV::Var("?x"@), TermV::Var("false"@)], 1) == (all_symbolic(seq![TermV::Var("?x"@), TermV::Var("false"@)], 0) && symbolic(TermV::Var("?x"@))));
    assert(terms_text(seq![TermV::Var("?x"@), TermV::Var("false"@)], 2) == terms_text(seq![TermV::Var("?x"@), TermV::Var("false"@)], 1) + " "@ + term_text(TermV::Var("false"@)));
    assert(all_symbolic(seq![TermV::Var("?x"@), TermV::Var("false"@)], 2) == (all_symbolic(seq![TermV::Var("?x"@), TermV::Var("false"@)], 1) && symbolic(TermV::Var("false"@))));
    assert(terms_text(seq![TermV::Var("?x"@), TermV::Var("false"@)], 2) =~= "?x false"@);
    assert(term_text(TermV::App("or"@, seq![TermV::Var("?x"@), TermV::Var("false"@)])) =~= "(or ?x false)"@);
    assert(symbolic(TermV::App("or"@, seq![TermV::Var("?x"@), TermV::Var("false"@)])));
    assert(term_text(TermV::Var("?x"@)) == "?x"@);
    assert(sexp_of(TermV::Var("?x"@)) == SExpV::Atom("?x"@));
    assert(sexp_of(TermV::Var("false"@)) == SExpV::Atom("false"@));
    assert(sexps_of(seq![TermV::Var("?x"@), TermV::Var("false"@)], 1) == sexps_of(seq![TermV::Var("?x"@), TermV::Var("false"@)], 0).push(sexp_of(TermV::Var("?x"@))));
    assert(sexps_of(seq![TermV::Var("?x"@), TermV::Var("false"@)], 2) == sexps_of(seq![TermV::Var("?x"@), TermV::Var("false"@)], 1).push(sexp_of(TermV::Var("false"@))));
    assert(sexps_of(seq![TermV::Var("?x"@), TermV::Var("false"@)], 2) =~= seq![SExpV::Atom("?x"@), SExpV::Atom("false"@)]);
    assert(sexp_of(TermV::App("or"@, seq![TermV::Var("?x"@), TermV::Var("false"@)])) == SExpV::List(seq![SExpV::Atom("or"@), SExpV::Atom("?x"@), SExpV::Atom("false"@)])) by {
        assert(seq![SExpV::Atom("or"@)] + seq![SExpV::Atom("?x"@), SExpV::Atom("false"@)] =~= seq![SExpV::Atom("or"@), SExpV::Atom("?x"@), SExpV::Atom("false"@)]);
    }
    assert(sexp_of(TermV::Var("?x"@)) == SExpV::Atom("?x"@));
    let sl = SExpV::List(seq![SExpV::Atom("or"@), SExpV::Atom("?x"@), SExpV::Atom("false"@)]);
    let sr = SExpV::Atom("?x"@);
    assert(bool_val(SExpV::Atom("?x"@), env) == env("?x"@));
    assert(bool_val(SExpV::Atom("false"@), env) == false);
    assert(bool_val(SExpV::List(seq![SExpV::Atom("or"@), SExpV::Atom("?x"@), SExpV::Atom("false"@)]), env) == ((env("?x"@)) || (false)));
    assert(bool_val(SExpV::Atom("?x"@), env) == env("?x"@));
    assert(bool_val(sl, env) == bool_val(sr, env));
    lemma_text_reads_as(tl);
    lemma_text_reads_as(tr);
}

proof fn lemma_rule_sound_9(env: spec_fn(Seq<char>) -> bool)
    ensures
        read_text("(or true ?x)"@) matches Ok((l, _)) && read_text("true"@) matches Ok((r, _))
            && bool_val(l, env) == bool_val(r, env),
{
    lemma_literals();
    reveal_strlit("not"); reveal_strlit("and"); reveal_strlit("or"); reveal_strlit("=>"); reveal_strlit("ite"); reveal_strlit("=");
    reveal_strlit(" ");
    reveal_strlit("(");
    reveal_strlit("(or true ?x)");
    reveal_strlit(")");
    reveal_strlit("?x");
    reveal_strlit("true");
    reveal_strlit("true ?x");
    let tl = TermV::App("or"@, seq![TermV::Var("true"@), TermV::Var("?x"@)]);
    let tr = TermV::Var("true"@);
    assert(term_text(TermV::Var("true"@)) == "true"@);
    assert(term_text(TermV::Var("?x"@)) == "?x"@);
    assert(terms_text(seq![TermV::Var("true"@), TermV::Var("?x"@)], 1) == term_text(TermV::Var("true"@)));
    assert(all_symbolic(seq![TermV::Var("true"@), TermV::Var("?x"@)], 1) == (all_symbolic(seq![TermV::Var("true"@), TermV::Var("?x"@)], 0) && symbolic(TermV::Var("true"@))));
    assert(terms_text(seq![TermV::Var("true"@), TermV::Var("?x"@)], 2) == terms_text(seq![TermV::Var("true"@), TermV::Var("?x"@)], 1) + " "@ + term_text(TermV::Var("?x"@)));
    assert(all_symbolic(seq![TermV::Var("true"@), TermV::Var("?x"@)], 2) == (all_symbolic(seq![TermV::Var("true"@), TermV::Var("?x"@)], 1) && symbolic(TermV::Var("?x"@))));
    assert(terms_text(seq![TermV::Var("true"@), TermV::Var("?x"@)], 2) =~= "true ?x"@);
    assert(term_text(TermV::App("or"@, seq![TermV::Var("true"@), TermV::Var("?x"@)])) =~= "(or true ?x)"@);
    assert(symbolic(TermV::App("or"@, seq![TermV::Var("true"@), TermV::Var("?x"@)])));
    assert(term_text(TermV::Var("true"@)) == "true"@);
    assert(sexp_of(TermV::Var("true"@)) == SExpV::Atom("true"@));
    assert(sexp_of(TermV::Var("?x"@)) == SExpV::Atom("?x"@));
    assert(sexps_of(seq![TermV::Var("true"@), TermV::Var("?x"@)], 1) == sexps_of(seq![TermV::Var("true"@), TermV::Var("?x"@)], 0).push(sexp_of(TermV::Var("true"@))));
    assert(sexps_of(seq![TermV::Var("true"@), TermV::Var("?x"@)], 2) == sexps_of(seq![TermV::Var("true"@), TermV::Var("?x"@)], 1).push(sexp_of(TermV::Var("?x"@))));
    assert(sexps_of(seq![TermV::Var("true"@), TermV::Var("?x"@)], 2) =~= seq![SExpV::Atom("true"@), SExpV::Atom("?x"@)]);
    assert(sexp_of(TermV::App("or"@, seq![TermV::Var("true"@), TermV::Var("?x"@)])) == SExpV::List(seq![SExpV::Atom("or"@), SExpV::Atom("true"@), SExpV::Atom("?x"@)])) by {
        assert(seq![SExpV::Atom("or"@)] + seq![SExpV::Atom("true"@), SExpV::Atom("?x"@)] =~= seq![SExpV::Atom("or"@), SExpV::Atom("true"@), SExpV::Atom("?x"@)]);
    }
    assert(sexp_of(TermV::Var("true"@)) == SExpV::Atom("true"@));
    let sl = SExpV::List(seq![SExpV::Atom("or"@), SExpV::Atom("true"@), SExpV::Atom("?x"@)]);
    let sr = SExpV::Atom("true"@);
    assert(bool_val(SExpV::Atom("true"@), env) == true);
    assert(bool_val(SExpV::Atom("?x"@), env) == env("?x"@));
    assert(bool_val(SExpV::List(seq![SExpV::Atom("or"@), SExpV::Atom("true"@), SExpV::Atom("?x"@)]), env) == ((true) || (env("?x"@))));
    assert(bool_val(SExpV::Atom("true"@), env) == true);
    assert(bool_val(sl, env) == bool_val(sr, env));
    lemma_text_reads_as(tl);
    lemma_text_reads_as(tr);
}

proof fn lemma_rule_sound_10(env: spec_fn(Seq<char>) -> bool)
    ensures
        read_text("(or ?x true)"@) matches Ok((l, _)) && read_text("true"@) matches Ok((r, _))
            && bool_val(l, env) == bool_val(r, env),
{
    lemma_literals();
    reveal_strlit("not"); reveal_strlit("and"); reveal_strlit("or"); reveal_strlit("=>"); reveal_strlit("ite"); reveal_strlit("=");
    reveal_strlit(" ");
    reveal_strlit("(");
    reveal_strlit("(or ?x true)");
    reveal_strlit(")");
    reveal_strlit("?x");
    reveal_strlit("?x true");
    reveal_strlit("true");
    let tl = TermV::App("or"@, seq![TermV::Var("?x"@), TermV::Var("true"@)]);
    let tr = TermV::Var("true"@);
    assert(term_text(TermV::Var("?x"@)) == "?x"@);
    assert(term_text(TermV::Var("true"@)) == "true"@);
    assert(terms_text(seq![TermV::Var("?x"@), TermV::Var("true"@)], 1) == term_text(TermV::Var("?x"@)));
    assert(all_symbolic(seq![TermV::Var("?x"@), TermV::Var("true"@)], 1) == (all_symbolic(seq![TermV::Var("?x"@), TermV::Var("true"@)], 0) && symbolic(TermV::Var("?x"@))));
    assert(terms_text(seq![TermV::Var("?x"@), TermV::Var("true"@)], 2) == terms_text(seq![TermV::Var("?x"@), TermV::Var("true"@)], 1) + " "@ + term_text(TermV::Var("true"@)));
    assert(all_symbolic(seq![TermV::Var("?x"@), TermV::Var("true"@)], 2) == (all_symbolic(seq![TermV::Var("?x"@), TermV::Var("true"@)], 1) && symbolic(TermV::Var("true"@))));
    assert(terms_text(seq![TermV::Var("?x"@), TermV::Var("true"@)], 2) =~= "?x true"@);
    assert(term_text(TermV::App("or"@, seq![TermV::Var("?x"@), TermV::Var("true"@)])) =~= "(or ?x true)"@);
    assert(symbolic(TermV::App("or"@, seq![TermV::Var("?x"@), TermV::Var("true"@)])));
    assert(term_text(TermV::Var("true"@)) == "true"@);
    assert(sexp_of(TermV::Var("?x"@)) == SExpV::Atom("?x"@));
    assert(sexp_of(TermV::Var("true"@)) == SExpV::Atom("true"@));
    assert(sexps_of(seq![TermV::Var("?x"@), TermV::Var("true"@)], 1) == sexps_of(seq![TermV::Var("?x"@), TermV::Var("true"@)], 0).push(sexp_of(TermV::Var("?x"@))));
    assert(sexps_of(seq![TermV::Var("?x"@), TermV::Var("true"@)], 2) == sexps_of(seq![TermV::Var("?x"@), TermV::Var("true"@)], 1).push(sexp_of(TermV::Var("true"@))));
    assert(sexps_of(seq![TermV::Var("?x"@), TermV::Var("true"@)], 2) =~= seq![SExpV::Atom("?x"@), SExpV::Atom("true"@)]);
    assert(sexp_of(TermV::App("or"@, seq![TermV::Var("?x"@), TermV::Var("true"@)])) == SExpV::List(seq![SExpV::Atom("or"@), SExpV::Atom("?x"@), SExpV::Atom("true"@)])) by {
        assert(seq![SExpV::Atom("or"@)] + seq![SExpV::Atom("?x"@), SExpV::Atom("true"@)] =~= seq![SExpV::Atom("or"@), SExpV::Atom("?x"@), SExpV::Atom("true"@)]);
    }
    assert(sexp_of(TermV::Var("true"@)) == SExpV::Atom("true"@));
    let sl = SExpV::List(seq![SExpV::Atom("or"@), SExpV::Atom("?x"@), SExpV::Atom("true"@)]);
    let sr = SExpV::Atom("true"@);
    assert(bool_val(SExpV::Atom("?x"@), env) == env("?x"@));
    assert(bool_val(SExpV::Atom("true"@), env) == true);
    assert(bool_val(SExpV::List(seq![SExpV::Atom("or"@), SExpV::Atom("?x"@), SExpV::Atom("true"@)]), env) == ((env("?x"@)) || (true)));
    assert(bool_val(SExpV::Atom("true"@), env) == true);
    assert(bool_val(sl, env) == bool_val(sr, env));
    lemma_text_reads_as(tl);
    lemma_text_reads_as(tr);
}

proof fn lemma_rule_sound_11(env: spec_fn(Seq<char>) -> bool)
    ensures
        read_text("(=> true ?x)"@) matches Ok((l, _)) && read_text("?x"@) matches Ok((r, _))
            && bool_val(l, env) == bool_val(r, env),
{
    lemma_literals();
    reveal_strlit("not"); reveal_strlit("and"); reveal_strlit("or"); reveal_strlit("=>"); reveal_strlit("ite"); reveal_strlit("=");
    reveal_strlit(" ");
    reveal_strlit("(");
    reveal_strlit("(=> true ?x)");
    reveal_strlit(")");
    reveal_strlit("?x");
    reveal_strlit("true");
    reveal_strlit("true ?x");
    let tl = TermV::App("=>"@, seq![TermV::Var("true"@), TermV::Var("?x"@)]);
    let tr = TermV::Var("?x"@);
    assert(term_text(TermV::Var("true"@)) == "true"@);
    assert(term_text(TermV::Var("?x"@)) == "?x"@);
    assert(terms_text(seq![TermV::Var("true"@), TermV::Var("?x"@)], 1) == term_text(TermV::Var("true"@)));
    assert(all_symbolic(seq![TermV::Var("true"@), TermV::Var("?x"@)], 1) == (all_symbolic(seq![TermV::Var("true"@), TermV::Var("?x"@)], 0) && symbolic(TermV::Var("true"@))));
    assert(terms_text(seq![TermV::Var("true"@), TermV::Var("?x"@)], 2) == terms_text(seq![TermV::Var("true"@), TermV::Var("?x"@)], 1) + " "@ + term_text(TermV::Var("?x"@)));
    assert(all_symbolic(seq![TermV::Var("true"@), TermV::Var("?x"@)], 2) == (all_symbolic(seq![TermV::Var("true"@), TermV::Var("?x"@)], 1) && symbolic(TermV::Var("?x"@))));
    assert(terms_text(seq![TermV::Var("true"@), TermV::Var("?x"@)], 2) =~= "true ?x"@);
    assert(term_text(TermV::App("=>"@, seq![TermV::Var("true"@), TermV::Var("?x"@)])) =~= "(=> true ?x)"@);
    assert(symbolic(TermV::App("=>"@, seq![TermV::Var("true"@), TermV::Var("?x"@)])));
    assert(term_text(TermV::Var("?x"@)) == "?x"@);
    assert(sexp_of(TermV::Var("true"@)) == SExpV::Atom("true"@));
    assert(sexp_of(TermV::Var("?x"@)) == SExpV::Atom("?x"@));
    assert(sexps_of(seq![TermV::Var("true"@), TermV::Var("?x"@)], 1) == sexps_of(seq![TermV::Var("true"@), TermV::Var("?x"@)], 0).push(sexp_of(TermV::Var("true"@))));
    assert(sexps_of(seq![TermV::Var("true"@), TermV::Var("?x"@)], 2) == sexps_of(seq![TermV::Var("true"@), TermV::Var("?x"@)], 1).push(sexp_of(TermV::Var("?x"@))));
    assert(sexps_of(seq![TermV::Var("true"@), TermV::Var("?x"@)], 2) =~= seq![SExpV::Atom("true"@), SExpV::Atom("?x"@)]);
    assert(sexp_of(TermV::App("=>"@, seq![TermV::Var("true"@), TermV::Var("?x"@)])) == SExpV::List(seq![SExpV::Atom("=>"@), SExpV::Atom("true"@), SExpV::Atom("?x"@)])) by {
        assert(seq![SExpV::Atom("=>"@)] + seq![SExpV::Atom("true"@), SExpV::Atom("?x"@)] =~= seq![SExpV::Atom("=>"@), SExpV::Atom("true"@), SExpV::Atom("?x"@)]);
    }
    assert(sexp_of(TermV::Var("?x"@)) == SExpV::Atom("?x"@));
    let sl = SExpV::List(seq![SExpV::Atom("=>"@), SExpV::Atom("true"@), SExpV::Atom("?x"@)]);
    let sr = SExpV::Atom("?x"@);
    assert(bool_val(SExpV::Atom("true"@), env) == true);
    assert(bool_val(SExpV::Atom("?x"@), env) == env("?x"@));
    assert(bool_val(SExpV::List(seq![SExpV::Atom("=>"@), SExpV::Atom("true"@), SExpV::Atom("?x"@)]), env) == (!(true) || (env("?x"@))));
    assert(bool_val(SExpV::Atom("?x"@), env) == env("?x"@));
    assert(bool_val(sl, env) == bool_val(sr, env));
    lemma_text_reads_as(tl);
    lemma_text_reads_as(tr);
}

proof fn lemma_rule_sound_12(env: spec_fn(Seq<char>) -> bool)
    ensures
        read_text("(=> false ?x)"@) matches Ok((l, _)) && read_text("true"@) matches Ok((r, _))
            && bool_val(l, env) == bool_val(r, env),
{
    lemma_literals();
    reveal_strlit("not"); reveal_strlit("and"); reveal_strlit("or"); reveal_strlit("=>"); reveal_strlit("ite"); reveal_strlit("=");
    reveal_strlit(" ");
    reveal_strlit("(");
    reveal_strlit("(=> false ?x)");
    reveal_strlit(")");
    reveal_strlit("?x");
    reveal_strlit("false");
    reveal_strlit("false ?x");
    reveal_strlit("true");
    let tl = TermV::App("=>"@, seq![TermV::Var("false"@), TermV::Var("?x"@)]);
    let tr = TermV::Var("true"@);
    assert(term_text(TermV::Var("false"@)) == "false"@);
    assert(term_text(TermV::Var("?x"@)) == "?x"@);
    assert(terms_text(seq![TermV::Var("false"@), TermV::Var("?x"@)], 1) == term_text(TermV::Var("false"@)));
    assert(all_symbolic(seq![TermV::Var("false"@), TermV::Var("?x"@)], 1) == (all_symbolic(seq![TermV::Var("false"@), TermV::Var("?x"@)], 0) && symbolic(TermV::Var("false"@))));
    assert(terms_text(seq![TermV::Var("false"@), TermV::Var("?x"@)], 2) == terms_text(seq![TermV::Var("false"@), TermV::Var("?x"@)], 1) + " "@ + term_text(TermV::Var("?x"@)));
    assert(all_symbolic(seq![TermV::Var("false"@), TermV::Var("?x"@)], 2) == (all_symbolic(seq![TermV::Var("false"@), TermV::Var("?x"@)], 1) && symbolic(TermV::Var("?x"@))));
    assert(terms_text(seq![TermV::Var("false"@), TermV::Var("?x"@)], 2) =~= "false ?x"@);
    assert(term_text(TermV::App("=>"@, seq![TermV::Var("false"@), TermV::Var("?x"@)])) =~= "(=> false ?x)"@);
    assert(symbolic(TermV::App("=>"@, seq![TermV::Var("false"@), TermV::Var("?x"@)])));
    assert(term_text(TermV::Var("true"@)) == "true"@);
    assert(sexp_of(TermV::Var("false"@)) == SExpV::Atom("false"@));
    assert(sexp_of(TermV::Var("?x"@)) == SExpV::Atom("?x"@));
    assert(sexps_of(seq![TermV::Var("false"@), TermV::Var("?x"@)], 1) == sexps_of(seq![TermV::Var("false"@), TermV::Var("?x"@)], 0).push(sexp_of(TermV::Var("false"@))));
    assert(sexps_of(seq![TermV::Var("false"@), TermV::Var("?x"@)], 2) == sexps_of(seq![TermV::Var("false"@), TermV::Var("?x"@)], 1).push(sexp_of(TermV::Var("?x"@))));
    assert(sexps_of(seq![TermV::Var("false"@), TermV::Var("?x"@)], 2) =~= seq![SExpV::Atom("false"@), SExpV::Atom("?x"@)]);
    assert(sexp_of(TermV::App("=>"@, seq![TermV::Var("false"@), TermV::Var("?x"@)])) == SExpV::List(seq![SExpV::Atom("=>"@), SExpV::Atom("false"@), SExpV::Atom("?x"@)])) by {
        assert(seq![SExpV::Atom("=>"@)] + seq![SExpV::Atom("false"@), SExpV::Atom("?x"@)] =~= seq![SExpV::Atom("=>"@), SExpV::Atom("false"@), SExpV::Atom("?x"@)]);
    }
    assert(sexp_of(TermV::Var("true"@)) == SExpV::Atom("true"@));
    let sl = SExpV::List(seq![SExpV::Atom("=>"@), SExpV::Atom("false"@), SExpV::Atom("?x"@)]);
    let sr = SExpV::Atom("true"@);
    assert(bool_val(SExpV::Atom("false"@), env) == false);
    assert(bool_val(SExpV::Atom("?x"@), env) == env("?x"@));
    assert(bool_val(SExpV::List(seq![SExpV::Atom("=>"@), SExpV::Atom("false"@), SExpV::Atom("?x"@)]), env) == (!(false) || (env("?x"@))));
    assert(bool_val(SExpV::Atom("true"@), env) == true);
    assert(bool_val(sl, env) == bool_val(sr, env));
    lemma_text_reads_as(tl);
    lemma_text_reads_as(tr);
}

proof fn lemma_rule_sound_13(env: spec_fn(Seq<char>) -> bool)
    ensures
        read_text("(=> ?x true)"@) matches Ok((l, _)) && read_text("true"@) matches Ok((r, _))
            && bool_val(l, env) == bool_val(r, env),
{
    lemma_literals();
    reveal_strlit("not"); reveal_strlit("and"); reveal_strlit("or"); reveal_strlit("=>"); reveal_strlit("ite"); reveal_strlit("=");
    reveal_strlit(" ");
    reveal_strlit("(");
    reveal_strlit("(=> ?x true)");
    reveal_strlit(")");
    reveal_strlit("?x");
    reveal_strlit("?x true");
    reveal_strlit("true");
    let tl = TermV::App("=>"@, seq![TermV::Var("?x"@), TermV::Var("true"@)]);
    let tr = TermV::Var("true"@);
    assert(term_text(TermV::Var("?x"@)) == "?x"@);
    assert(term_text(TermV::Var("true"@)) == "true"@);
    assert(terms_text(seq![TermV::Var("?x"@), TermV::Var("true"@)], 1) == term_text(TermV::Var("?x"@)));
    assert(all_symbolic(seq![TermV::Var("?x"@), TermV::Var("true"@)], 1) == (all_symbolic(seq![TermV::Var("?x"@), TermV::Var("true"@)], 0) && symbolic(TermV::Var("?x"@))));
    assert(terms_text(seq![TermV::Var("?x"@), TermV::Var("true"@)], 2) == terms_text(seq![TermV::Var("?x"@), TermV::Var("true"@)], 1) + " "@ + term_text(TermV::Var("true"@)));
    assert(all_symbolic(seq![TermV::Var("?x"@), TermV::Var("true"@)], 2) == (all_symbolic(seq![TermV::Var("?x"@), TermV::Var("true"@)], 1) && symbolic(TermV::Var("true"@))));
    assert(terms_text(seq![TermV::Var("?x"@), TermV::Var("true"@)], 2) =~= "?x true"@);
    assert(term_text(TermV::App("=>"@, seq![TermV::Var("?x"@), TermV::Var("true"@)])) =~= "(=> ?x true)"@);
    assert(symbolic(TermV::App("=>"@, seq![TermV::Var("?x"@), TermV::Var("true"@)])));
    assert(term_text(TermV::Var("true"@)) == "true"@);
    assert(sexp_of(TermV::Var("?x"@)) == SExpV::Atom("?x"@));
    assert(sexp_of(TermV::Var("true"@)) == SExpV::Atom("true"@));
    assert(sexps_of(seq![TermV::Var("?x"@), TermV::Var("true"@)], 1) == sexps_of(seq![TermV::Var("?x"@), TermV::Var("true"@)], 0).push(sexp_of(TermV::Var("?x"@))));
    assert(sexps_of(seq![TermV::Var("?x"@), TermV::Var("true"@)], 2) == sexps_of(seq![TermV::Var("?x"@), TermV::Var("true"@)], 1).push(sexp_of(TermV::Var("true"@))));
    assert(sexps_of(seq![TermV::Var("?x"@), TermV::Var("true"@)], 2) =~= seq![SExpV::Atom("?x"@), SExpV::Atom("true"@)]);
    assert(sexp_of(TermV::App("=>"@, seq![TermV::Var("?x"@), TermV::Var("true"@)])) == SExpV::List(seq![SExpV::Atom("=>"@), SExpV::Atom("?x"@), SExpV::Atom("true"@)])) by {
        assert(seq![SExpV::Atom("=>"@)] + seq![SExpV::Atom("?x"@), SExpV::Atom("true"@)] =~= seq![SExpV::Atom("=>"@), SExpV::Atom("?x"@), SExpV::Atom("true"@)]);
    }
    assert(sexp_of(TermV::Var("true"@)) == SExpV::Atom("true"@));
    let sl = SExpV::List(seq![SExpV::Atom("=>"@), SExpV::Atom("?x"@), SExpV::Atom("true"@)]);
    let sr = SExpV::Atom("true"@);
    assert(bool_val(SExpV::Atom("?x"@), env) == env("?x"@));
    assert(bool_val(SExpV::Atom("true"@), env) == true);
    assert(bool_val(SExpV::List(seq![SExpV::Atom("=>"@), SExpV::Atom("?x"@), SExpV::Atom("true"@)]), env) == (!(env("?x"@)) || (true)));
    assert(bool_val(SExpV::Atom("true"@), env) == true);
    assert(bool_val(sl, env) == bool_val(sr, env));
    lemma_text_reads_as(tl);
    lemma_text_reads_as(tr);
}

proof fn lemma_rule_sound_14(env: spec_fn(Seq<char>) -> bool)
    ensures
        read_text("(ite true ?x ?y)"@) matches Ok((l, _)) && read_text("?x"@) matches Ok((r, _))
            && bool_val(l, env) == bool_val(r, env),
{
    lemma_literals();
    reveal_strlit("not"); reveal_strlit("and"); reveal_strlit("or"); reveal_strlit("=>"); reveal_strlit("ite"); reveal_strlit("=");
    reveal_strlit(" ");
    reveal_strlit("(");
    reveal_strlit("(ite true ?x ?y)");
    reveal_strlit(")");
    reveal_strlit("?x");
    reveal_strlit("?y");
    reveal_strlit("true");
    reveal_strlit("true ?x ?y");
    let tl = TermV::App("ite"@, seq![TermV::Var("true"@), TermV::Var("?x"@), TermV::Var("?y"@)]);
    let tr = TermV::Var("?x"@);
    assert(term_text(TermV::Var("true"@)) == "true"@);
    assert(term_text(TermV::Var("?x"@)) == "?x"@);
    assert(term_text(TermV::Var("?y"@)) == "?y"@);
    assert(terms_text(seq![TermV::Var("true"@), TermV::Var("?x"@), TermV::Var("?y"@)], 1) == term_text(TermV::Var("true"@)));
    assert(all_symbolic(seq![TermV::Var("true"@), TermV::Var("?x"@), TermV::Var("?y"@)], 1) == (all_symbolic(seq![TermV::Var("true"@), TermV::Var("?x"@), TermV::Var("?y"@)], 0) && symbolic(TermV::Var("true"@))));
    assert(terms_text(seq![TermV::Var("true"@), TermV::Var("?x"@), TermV::Var("?y"@)], 2) == terms_text(seq![TermV::Var("true"@), TermV::Var("?x"@), TermV::Var("?y"@)], 1) + " "@ + term_text(TermV::Var("?x"@)));
    assert(all_symbolic(seq![TermV::Var("true"@), TermV::Var("?x"@), TermV::Var("?y"@)], 2) == (all_symbolic(seq![TermV::Var("true"@), TermV::Var("?x"@), TermV::Var("?y"@)], 1) && symbolic(TermV::Var("?x"@))));
    assert(terms_text(seq![TermV::Var("true"@), TermV::Var("?x"@), TermV::Var("?y"@)], 3) == terms_text(seq![TermV::Var("true"@), TermV::Var("?x"@), TermV::Var("?y"@)], 2) + " "@ + term_text(TermV::Var("?y"@)));
    assert(all_symbolic(seq![TermV::Var("true"@), TermV::Var("?x"@), TermV::Var("?y"@)], 3) == (all_symbolic(seq![TermV::Var("true"@), TermV::Var("?x"@), TermV::Var("?y"@)], 2) && symbolic(TermV::Var("?y"@))));
    assert(terms_text(seq![TermV::Var("true"@), TermV::Var("?x"@), TermV::Var("?y"@)], 3) =~= "true ?x ?y"@);
    assert(term_text(TermV::App("ite"@, seq![TermV::Var("true"@), TermV::Var("?x"@), TermV::Var("?y"@)])) =~= "(ite true ?x ?y)"@);
    assert(symbolic(TermV::App("ite"@, seq![TermV::Var("true"@), TermV::Var("?x"@), TermV::Var("?y"@)])));
    assert(term_text(TermV::Var("?x"@)) == "?x"@);
    assert(sexp_of(TermV::Var("true"@)) == SExpV::Atom("true"@));
    assert(sexp_of(TermV::Var("?x"@)) == SExpV::Atom("?x"@));
    assert(sexp_of(TermV::Var("?y"@)) == SExpV::Atom("?y"@));
    assert(sexps_of(seq![TermV::Var("true"@), TermV::Var("?x"@), TermV::Var("?y"@)], 1) == sexps_of(seq![TermV::Var("true"@), TermV::Var("?x"@), TermV::Var("?y"@)], 0).push(sexp_of(TermV::Var("true"@))));
    assert(sexps_of(seq![TermV::Var("true"@), TermV::Var("?x"@), TermV::Var("?y"@)], 2) == sexps_of(seq![TermV::Var("true"@), TermV::Var("?x"@), TermV::Var("?y"@)], 1).push(sexp_of(TermV::Var("?x"@))));
    assert(sexps_of(seq![TermV::Var("true"@), TermV::Var("?x"@), TermV::Var("?y"@)], 3) == sexps_of(seq![TermV::Var("true"@), TermV::Var("?x"@), TermV::Var("?y"@)], 2).push(sexp_of(TermV::Var("?y"@))));
    assert(sexps_of(seq![TermV::Var("true"@), TermV::Var("?x"@), TermV::Var("?y"@)], 3) =~= seq![SExpV::Atom("true"@), SExpV::Atom("?x"@), SExpV::Atom("?y"@)]);
    assert(sexp_of(TermV::App("ite"@, seq![TermV::Var("true"@), TermV::Var("?x"@), TermV::Var("?y"@)])) == SExpV::List(seq![SExpV::Atom("ite"@), SExpV::Atom("true"@), SExpV::Atom("?x"@), SExpV::Atom("?y"@)])) by {
        assert(seq![SExpV::Atom("ite"@)] + seq![SExpV::Atom("true"@), SExpV::Atom("?x"@), SExpV::Atom("?y"@)] =~= seq![SExpV::Atom("ite"@), SExpV::Atom("true"@), SExpV::Atom("?x"@), SExpV::Atom("?y"@)]);
    }
    assert(sexp_of(TermV::Var("?x"@)) == SExpV::Atom("?x"@));
    let sl = SExpV::List(seq![SExpV::Atom("ite"@), SExpV::Atom("true"@), SExpV::Atom("?x"@), SExpV::Atom("?y"@)]);
    let sr = SExpV::Atom("?x"@);
    assert(bool_val(SExpV::Atom("true"@), env) == true);
    assert(bool_val(SExpV::Atom("?x"@), env) == env("?x"@));
    assert(bool_val(SExpV::Atom("?y"@), env) == env("?y"@));
    assert(bool_val(SExpV::List(seq![SExpV::Atom("ite"@), SExpV::Atom("true"@), SExpV::Atom("?x"@), SExpV::Atom("?y"@)]), env) == (if true { env("?x"@) } else { env("?y"@) }));
    assert(bool_val(SExpV::Atom("?x"@), env) == env("?x"@));
    assert(bool_val(sl, env) == bool_val(sr, env));
    lemma_text_reads_as(tl);
    lemma_text_reads_as(tr);
}

proof fn lemma_rule_sound_15(env: spec_fn(Seq<char>) -> bool)
    ensures
        read_text("(ite false ?x ?y)"@) matches Ok((l, _)) && read_text("?y"@) matches Ok((r, _))
            && bool_val(l, env) == bool_val(r, env),
{
    lemma_literals();
    reveal_strlit("not"); reveal_strlit("and"); reveal_strlit("or"); reveal_strlit("=>"); reveal_strlit("ite"); reveal_strlit("=");
    reveal_strlit(" ");
    reveal_strlit("(");
    reveal_strlit("(ite false ?x ?y)");
    reveal_strlit(")");
    reveal_strlit("?x");
    reveal_strlit("?y");
    reveal_strlit("false");
    reveal_strlit("false ?x ?y");
    let tl = TermV::App("ite"@, seq![TermV::Var("false"@), TermV::Var("?x"@), TermV::Var("?y"@)]);
    let tr = TermV::Var("?y"@);
    assert(term_text(TermV::Var("false"@)) == "false"@);
    assert(term_text(TermV::Var("?x"@)) == "?x"@);
    assert(term_text(TermV::Var("?y"@)) == "?y"@);
    assert(terms_text(seq![TermV::Var("false"@), TermV::Var("?x"@), TermV::Var("?y"@)], 1) == term_text(TermV::Var("false"@)));
    assert(all_symbolic(seq![TermV::Var("false"@), TermV::Var("?x"@), TermV::Var("?y"@)], 1) == (all_symbolic(seq![TermV::Var("false"@), TermV::Var("?x"@), TermV::Var("?y"@)], 0) && symbolic(TermV::Var("false"@))));
    assert(terms_text(seq![TermV::Var("false"@), TermV::Var("?x"@), TermV::Var("?y"@)], 2) == terms_text(seq![TermV::Var("false"@), TermV::Var("?x"@), TermV::Var("?y"@)], 1) + " "@ + term_text(TermV::Var("?x"@)));
    assert(all_symbolic(seq![TermV::Var("false"@), TermV::Var("?x"@), TermV::Var("?y"@)], 2) == (all_symbolic(seq![TermV::Var("false"@), TermV::Var("?x"@), TermV::Var("?y"@)], 1) && symbolic(TermV::Var("?x"@))));
    assert(terms_text(seq![TermV::Var("false"@), TermV::Var("?x"@), TermV::Var("?y"@)], 3) == terms_text(seq![TermV::Var("false"@), TermV::Var("?x"@), TermV::Var("?y"@)], 2) + " "@ + term_text(TermV::Var("?y"@)));
    assert(all_symbolic(seq![TermV::Var("false"@), TermV::Var("?x"@), TermV::Var("?y"@)], 3) == (all_symbolic(seq![TermV::Var("false"@), TermV::Var("?x"@), TermV::Var("?y"@)], 2) && symbolic(TermV::Var("?y"@))));
    assert(terms_text(seq![TermV::Var("false"@), TermV::Var("?x"@), TermV::Var("?y"@)], 3) =~= "false ?x ?y"@);
    assert(term_text(TermV::App("ite"@, seq![TermV::Var("false"@), TermV::Var("?x"@), TermV::Var("?y"@)])) =~= "(ite false ?x ?y)"@);
    assert(symbolic(TermV::App("ite"@, seq![TermV::Var("false"@), TermV::Var("?x"@), TermV::Var("?y"@)])));
    assert(term_text(TermV::Var("?y"@)) == "?y"@);
    assert(sexp_of(TermV::Var("false"@)) == SExpV::Atom("false"@));
    assert(sexp_of(TermV::Var("?x"@)) == SExpV::Atom("?x"@));
    assert(sexp_of(TermV::Var("?y"@)) == SExpV::Atom("?y"@));
    assert(sexps_of(seq![TermV::Var("false"@), TermV::Var("?x"@), TermV::Var("?y"@)], 1) == sexps_of(seq![TermV::Var("false"@), TermV::Var("?x"@), TermV::Var("?y"@)], 0).push(sexp_of(TermV::Var("false"@))));
    assert(sexps_of(seq![TermV::Var("false"@), TermV::Var("?x"@), TermV::Var("?y"@)], 2) == sexps_of(seq![TermV::Var("false"@), TermV::Var("?x"@), TermV::Var("?y"@)], 1).push(sexp_of(TermV::Var("?x"@))));
    assert(sexps_of(seq![TermV::Var("false"@), TermV::Var("?x"@), TermV::Var("?y"@)], 3) == sexps_of(seq![TermV::Var("false"@), TermV::Var("?x"@), TermV::Var("?y"@)], 2).push(sexp_of(TermV::Var("?y"@))));
    assert(sexps_of(seq![TermV::Var("false"@), TermV::Var("?x"@), TermV::Var("?y"@)], 3) =~= seq![SExpV::Atom("false"@), SExpV::Atom("?x"@), SExpV::Atom("?y"@)]);
    assert(sexp_of(TermV::App("ite"@, seq![TermV::Var("false"@), TermV::Var("?x"@), TermV::Var("?y"@)])) == SExpV::List(seq![SExpV::Atom("ite"@), SExpV::Atom("false"@), SExpV::Atom("?x"@), SExpV::Atom("?y"@)])) by {
        assert(seq![SExpV::Atom("ite"@)] + seq![SExpV::Atom("false"@), SExpV::Atom("?x"@), SExpV::Atom("?y"@)] =~= seq![SExpV::Atom("ite"@), SExpV::Atom("false"@), SExpV::Atom("?x"@), SExpV::Atom("?y"@)]);
    }
    assert(sexp_of(TermV::Var("?y"@)) == SExpV::Atom("?y"@));
    let sl = SExpV::List(seq![SExpV::Atom("ite"@), SExpV::Atom("false"@), SExpV::Atom("?x"@), SExpV::Atom("?y"@)]);
    let sr = SExpV::Atom("?y"@);
    assert(bool_val(SExpV::Atom("false"@), env) == false);
    assert(bool_val(SExpV::Atom("?x"@), env) == env("?x"@));
    assert(bool_val(SExpV::Atom("?y"@), env) == env("?y"@));
    assert(bool_val(SExpV::List(seq![SExpV::Atom("ite"@), SExpV::Atom("false"@), SExpV::Atom("?x"@), SExpV::Atom("?y"@)]), env) == (if false { env("?x"@) } else { env("?y"@) }));
    assert(bool_val(SExpV::Atom("?y"@), env) == env("?y"@));
    assert(bool_val(sl, env) == bool_val(sr, env));
    lemma_text_reads_as(tl);
    lemma_text_reads_as(tr);
}

proof fn lemma_rule_sound_16(env: spec_fn(Seq<char>) -> bool)
    ensures
        read_text("(= ?x ?x)"@) matches Ok((l, _)) && read_text("true"@) matches Ok((r, _))
            && bool_val(l, env) == bool_val(r, env),
{
    lemma_literals();
    reveal_strlit("not"); reveal_strlit("and"); reveal_strlit("or"); reveal_strlit("=>"); reveal_strlit("ite"); reveal_strlit("=");
    reveal_strlit(" ");
    reveal_strlit("(");
    reveal_strlit("(= ?x ?x)");
    reveal_strlit(")");
    reveal_strlit("?x");
    reveal_strlit("?x ?x");
    reveal_strlit("true");
    let tl = TermV::App("="@, seq![TermV::Var("?x"@), TermV::Var("?x"@)]);
    let tr = TermV::Var("true"@);
    assert(term_text(TermV::Var("?x"@)) == "?x"@);
    assert(term_text(TermV::Var("?x"@)) == "?x"@);
    assert(terms_text(seq![TermV::Var("?x"@), TermV::Var("?x"@)], 1) == term_text(TermV::Var("?x"@)));
    assert(all_symbolic(seq![TermV::Var("?x"@), TermV::Var("?x"@)], 1) == (all_symbolic(seq![TermV::Var("?x"@), TermV::Var("?x"@)], 0) && symbolic(TermV::Var("?x"@))));
    assert(terms_text(seq![TermV::Var("?x"@), TermV::Var("?x"@)], 2) == terms_text(seq![TermV::Var("?x"@), TermV::Var("?x"@)], 1) + " "@ + term_text(TermV::Var("?x"@)));
    assert(all_symbolic(seq![TermV::Var("?x"@), TermV::Var("?x"@)], 2) == (all_symbolic(seq![TermV::Var("?x"@), TermV::Var("?x"@)], 1) && symbolic(TermV::Var("?x"@))));
    assert(terms_text(seq![TermV::Var("?x"@), TermV::Var("?x"@)], 2) =~= "?x ?x"@);
    assert(term_text(TermV::App("="@, seq![TermV::Var("?x"@), TermV::Var("?x"@)])) =~= "(= ?x ?x)"@);
    assert(symbolic(TermV::App("="@, seq![TermV::Var("?x"@), TermV::Var("?x"@)])));
    assert(term_text(TermV::Var("true"@)) == "true"@);
    assert(sexp_of(TermV::Var("?x"@)) == SExpV::Atom("?x"@));
    assert(sexp_of(TermV::Var("?x"@)) == SExpV::Atom("?x"@));
    assert(sexps_of(seq![TermV::Var("?x"@), TermV::Var("?x"@)], 1) == sexps_of(seq![TermV::Var("?x"@), TermV::Var("?x"@)], 0).push(sexp_of(TermV::Var("?x"@))));
    assert(sexps_of(seq![TermV::Var("?x"@), TermV::Var("?x"@)], 2) == sexps_of(seq![TermV::Var("?x"@), TermV::Var("?x"@)], 1).push(sexp_of(TermV::Var("?x"@))));
    assert(sexps_of(seq![TermV::Var("?x"@), TermV::Var("?x"@)], 2) =~= seq![SExpV::Atom("?x"@), SExpV::Atom("?x"@)]);
    assert(sexp_of(TermV::App("="@, seq![TermV::Var("?x"@), TermV::Var("?x"@)])) == SExpV::List(seq![SExpV::Atom("="@), SExpV::Atom("?x"@), SExpV::Atom("?x"@)])) by {
        assert(seq![SExpV::Atom("="@)] + seq![SExpV::Atom("?x"@), SExpV::Atom("?x"@)] =~= seq![SExpV::Atom("="@), SExpV::Atom("?x"@), SExpV::Atom("?x"@)]);
    }
    assert(sexp_of(TermV::Var("true"@)) == SExpV::Atom("true"@));
    let sl = SExpV::List(seq![SExpV::Atom("="@), SExpV::Atom("?x"@), SExpV::Atom("?x"@)]);
    let sr = SExpV::Atom("true"@);
    assert(bool_val(SExpV::Atom("?x"@), env) == env("?x"@));
    assert(bool_val(SExpV::Atom("?x"@), env) == env("?x"@));
    assert(bool_val(SExpV::List(seq![SExpV::Atom("="@), SExpV::Atom("?x"@), SExpV::Atom("?x"@)]), env) == ((env("?x"@)) == (env("?x"@))));
    assert(bool_val(SExpV::Atom("true"@), env) == true);
    assert(bool_val(sl, env) == bool_val(sr, env));
    lemma_text_reads_as(tl);
    lemma_text_reads_as(tr);
}

/// Every Boolean simplification rule is sound: its two sides, read as `egg` reads them,
/// have the same truth value for every value of the variables. In particular `(=> false p)`
/// is true whatever `p` is, so no rule makes a state unsatisfiable by itself.
pub proof fn lemma_boolean_rules_sound(i: int, env: spec_fn(Seq<char>) -> bool)
    requires 0 <= i < boolean_rules().len(),
    ensures
        read_text(boolean_rules()[i].lhs) matches Ok((l, _))
            && read_text(boolean_rules()[i].rhs) matches Ok((r, _))
            && bool_val(l, env) == bool_val(r, env),
{
    if i == 0 { lemma_rule_sound_0(env); }
    else if i == 1 { lemma_rule_sound_1(env); }
    else if i == 2 { lemma_rule_sound_2(env); }
    else if i == 3 { lemma_rule_sound_3(env); }
    else if i == 4 { lemma_rule_sound_4(env); }
    else if i == 5 { lemma_rule_sound_5(env); }
    else if i == 6 { lemma_rule_sound_6(env); }
    else if i == 7 { lemma_rule_sound_7(env); }
    else if i == 8 { lemma_rule_sound_8(env); }
    else if i == 9 { lemma_rule_sound_9(env); }
    else if i == 10 { lemma_rule_sound_10(env); }
    else if i == 11 { lemma_rule_sound_11(env); }
    else if i == 12 { lemma_rule_sound_12(env); }
    else if i == 13 { lemma_rule_sound_13(env); }
    else if i == 14 { lemma_rule_sound_14(env); }
    else if i == 15 { lemma_rule_sound_15(env); }
    else if i == 16 { lemma_rule_sound_16(env); }
}

} // verus!
