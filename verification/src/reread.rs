//! Reading back what the printer writes: a term made of symbols and applications, written
//! with `term_text`, tokenized and read again, is the same term.
use vstd::prelude::*;
use crate::ast::TermV;
use crate::sexp::{SExpV, read_sexp, read_items, TokSt, TokMode, tok_step, tok_flush, tok_run, tok_init, tokenize_spec};
use crate::grammar::{term_spec, terms_from};
use crate::print::{term_text, terms_text};
use crate::text::{is_ws, is_blank, parse_i64_spec, int_text, nat_text, digits_value, all_digits, is_digit, digit_val, digit_char};

verus! {

/// A symbol the reader reads back as itself: not empty, and without whitespace, `(`, `)`,
/// `;`, `"` or `|`.
pub open spec fn plain_symbol(s: Seq<char>) -> bool {
    &&& s.len() > 0
    &&& forall|i: int| 0 <= i < s.len() ==> !is_ws(#[trigger] s[i]) && s[i] != '(' && s[i] != ')'
        && s[i] != ';' && s[i] != '"' && s[i] != '|'
}

/// A term the printer writes so that the reader gives it back: a variable whose name is a
/// plain symbol that is no integer, or a function of plain name (other than `as`, `ite`
/// and `match`) applied to at least one such term.
pub open spec fn rereadable(t: TermV) -> bool
    decreases t, 0int,
{
    match t {
        TermV::Var(s) => plain_symbol(s) && parse_i64_spec(s) is None,
        TermV::Int(n) => i64::MIN <= n <= i64::MAX,
        TermV::App(f, args) => plain_symbol(f) && f != "as"@ && f != "ite"@ && f != "match"@
            && args.len() > 0 && all_rereadable(args, args.len() as int),
        _ => false,
    }
}

/// `ts[0..n]` are rereadable.
pub open spec fn all_rereadable(ts: Seq<TermV>, n: int) -> bool
    decreases ts, n,
{
    if n <= 0 || n > ts.len() {
        true
    } else {
        all_rereadable(ts, n - 1) && rereadable(ts[n - 1])
    }
}

/// A term of plain symbols: a variable of plain name, an `i64` numeral, or a function of
/// plain name applied to at least one such term; the reader gives back its shape.
pub open spec fn symbolic(t: TermV) -> bool
    decreases t, 0int,
{
    match t {
        TermV::Var(s) => plain_symbol(s),
        TermV::Int(n) => i64::MIN <= n <= i64::MAX,
        TermV::App(f, args) => plain_symbol(f) && args.len() > 0 && all_symbolic(args, args.len() as int),
        _ => false,
    }
}

/// `ts[0..n]` are made of plain symbols.
pub open spec fn all_symbolic(ts: Seq<TermV>, n: int) -> bool
    decreases ts, n,
{
    if n <= 0 || n > ts.len() {
        true
    } else {
        all_symbolic(ts, n - 1) && symbolic(ts[n - 1])
    }
}

proof fn lemma_all_symbolic_at(ts: Seq<TermV>, n: int, i: int)
    requires all_symbolic(ts, n), 0 <= i < n <= ts.len(),
    ensures symbolic(ts[i]),
    decreases n,
{
    if i < n - 1 { lemma_all_symbolic_at(ts, n - 1, i); }
}

/// A rereadable term is made of plain symbols.
proof fn lemma_rereadable_symbolic(t: TermV)
    requires rereadable(t),
    ensures symbolic(t),
    decreases t, 0int,
{
    if let TermV::App(f, args) = t {
        lemma_all_rereadable_symbolic(args, args.len() as int);
    }
}

proof fn lemma_all_rereadable_symbolic(ts: Seq<TermV>, n: int)
    requires all_rereadable(ts, n), 0 <= n <= ts.len(),
    ensures all_symbolic(ts, n),
    decreases ts, n,
{
    if n > 0 {
        lemma_all_rereadable_symbolic(ts, n - 1);
        lemma_rereadable_symbolic(ts[n - 1]);
    }
}

/// The S-expression of a term: a symbol as an atom, an application as a list.
pub open spec fn sexp_of(t: TermV) -> SExpV
    decreases t, 0int,
{
    match t {
        TermV::App(f, args) => SExpV::List(seq![SExpV::Atom(f)] + sexps_of(args, args.len() as int)),
        TermV::Var(s) => SExpV::Atom(s),
        TermV::Int(n) => SExpV::Atom(int_text(n)),
        _ => SExpV::List(Seq::empty()),
    }
}

/// The S-expressions of `ts[0..n]`.
pub open spec fn sexps_of(ts: Seq<TermV>, n: int) -> Seq<SExpV>
    decreases ts, n,
{
    if n <= 0 || n > ts.len() {
        Seq::empty()
    } else {
        sexps_of(ts, n - 1).push(sexp_of(ts[n - 1]))
    }
}

/// The tokens of a term's text.
pub open spec fn toks(t: TermV) -> Seq<Seq<char>>
    decreases t, 0int,
{
    match t {
        TermV::App(f, args) => seq!["("@, f] + toks_all(args, args.len() as int) + seq![")"@],
        TermV::Var(s) => seq![s],
        TermV::Int(n) => seq![int_text(n)],
        _ => Seq::empty(),
    }
}

/// The tokens of `ts[0..n]`, one after the other.
pub open spec fn toks_all(ts: Seq<TermV>, n: int) -> Seq<Seq<char>>
    decreases ts, n,
{
    if n <= 0 || n > ts.len() {
        Seq::empty()
    } else {
        toks_all(ts, n - 1) + toks(ts[n - 1])
    }
}

proof fn lemma_all_rereadable_at(ts: Seq<TermV>, n: int, i: int)
    requires all_rereadable(ts, n), 0 <= i < n <= ts.len(),
    ensures rereadable(ts[i]),
    decreases n,
{
    if i < n - 1 { lemma_all_rereadable_at(ts, n - 1, i); }
}

proof fn lemma_sexps_of_len(ts: Seq<TermV>, n: int)
    requires 0 <= n <= ts.len(),
    ensures sexps_of(ts, n).len() == n,
    decreases n,
{
    if n > 0 { lemma_sexps_of_len(ts, n - 1); }
}

/// A rereadable term's S-expression is read as the term.
proof fn lemma_term_of_sexp(t: TermV)
    requires rereadable(t),
    ensures term_spec(sexp_of(t)) == Ok::<TermV, Seq<char>>(t),
    decreases t, 0int,
{
    match t {
        TermV::Var(s) => {},
        TermV::Int(n) => { lemma_int_text(n); },
        TermV::App(f, args) => {
            let xs = seq![SExpV::Atom(f)] + sexps_of(args, args.len() as int);
            lemma_sexps_of_len(args, args.len() as int);
            lemma_terms_of_sexps(args, f, args.len() as int);
            assert(xs[0] == SExpV::Atom(f));
            assert(args.take(args.len() as int) =~= args);
        },
        _ => {},
    }
}

/// The list of a head and the S-expressions of `ts[0..n]` reads its elements after the
/// head as `ts[0..n]`.
proof fn lemma_terms_of_sexps(ts: Seq<TermV>, f: Seq<char>, n: int)
    requires all_rereadable(ts, ts.len() as int), 0 <= n <= ts.len(),
    ensures
        terms_from(seq![SExpV::Atom(f)] + sexps_of(ts, ts.len() as int), 1, n + 1)
            == Ok::<Seq<TermV>, Seq<char>>(ts.take(n)),
    decreases ts, n,
{
    let xs = seq![SExpV::Atom(f)] + sexps_of(ts, ts.len() as int);
    lemma_sexps_of_len(ts, ts.len() as int);
    if n > 0 {
        lemma_terms_of_sexps(ts, f, n - 1);
        lemma_sexps_at(ts, ts.len() as int, n - 1);
        assert(xs[n] == sexp_of(ts[n - 1]));
        lemma_all_rereadable_at(ts, ts.len() as int, n - 1);
        lemma_term_of_sexp(ts[n - 1]);
        assert(ts.take(n - 1).push(ts[n - 1]) =~= ts.take(n));
    } else {
        assert(ts.take(0) =~= Seq::<TermV>::empty());
    }
}

proof fn lemma_sexps_at(ts: Seq<TermV>, n: int, i: int)
    requires 0 <= i < n <= ts.len(),
    ensures sexps_of(ts, n)[i] == sexp_of(ts[i]),
    decreases n,
{
    lemma_sexps_of_len(ts, n - 1);
    if i < n - 1 { lemma_sexps_at(ts, n - 1, i); }
}


proof fn lemma_toks_all_step(ts: Seq<TermV>, k: int)
    requires 0 <= k < ts.len(),
    ensures toks_all(ts, k + 1) == toks_all(ts, k) + toks(ts[k]),
{
}

/// The tokens of `ts[0..k]` begin those of `ts[0..n]`.
proof fn lemma_toks_all_prefix(ts: Seq<TermV>, k: int, n: int)
    requires 0 <= k <= n <= ts.len(),
    ensures
        toks_all(ts, k).len() <= toks_all(ts, n).len(),
        forall|j: int| 0 <= j < toks_all(ts, k).len() ==> #[trigger] toks_all(ts, n)[j] == toks_all(ts, k)[j],
    decreases n - k,
{
    if k < n {
        lemma_toks_all_prefix(ts, k, n - 1);
        lemma_toks_all_step(ts, n - 1);
    }
}

/// A symbolic term's first token is no closing parenthesis, and it has one at least.
proof fn lemma_first_tok(t: TermV)
    requires symbolic(t),
    ensures toks(t).len() > 0, toks(t)[0] != ")"@,
{
    reveal_strlit("(");
    reveal_strlit(")");
    match t {
        TermV::Var(s) => { assert(s[0] != ')'); assert(")"@[0] == ')'); },
        TermV::Int(n) => { lemma_int_text(n); assert(int_text(n)[0] != ')'); assert(")"@[0] == ')'); },
        TermV::App(f, args) => { assert("("@ != ")"@) by { assert("("@[0] != ")"@[0]); } },
        _ => {},
    }
}

/// The tokens of a symbolic term, found at `pos`, are read as its S-expression.
proof fn lemma_read_term(tk: Seq<Seq<char>>, pos: int, t: TermV)
    requires
        symbolic(t), 0 <= pos, pos + toks(t).len() <= tk.len(),
        forall|j: int| 0 <= j < toks(t).len() ==> tk[pos + j] == #[trigger] toks(t)[j],
    ensures read_sexp(tk, pos) == Ok::<(SExpV, int), Seq<char>>((sexp_of(t), pos + toks(t).len())),
    decreases t, 0int,
{
    reveal_strlit("(");
    reveal_strlit(")");
    assert(tk[pos + 0] == toks(t)[0]);
    match t {
        TermV::Var(s) => {
            assert(s[0] != ')' && s[0] != '(');
            assert(")"@[0] == ')' && "("@[0] == '(');
        },
        TermV::Int(n) => {
            lemma_int_text(n);
            let s = int_text(n);
            assert(s[0] != ')' && s[0] != '(');
            assert(")"@[0] == ')' && "("@[0] == '(');
        },
        TermV::App(f, args) => {
            let n = args.len() as int;
            let ta = toks_all(args, n);
            assert(toks(t) == seq!["("@, f] + ta + seq![")"@]);
            assert(toks(t)[0] == "("@);
            assert(tk[pos] == "("@);
            assert(toks(t)[1] == f);
            assert(tk[pos + 1] == toks(t)[1]);
            assert(f[0] != ')');
            assert(f != ")"@) by { assert(")"@[0] == ')'); }
            assert(read_sexp(tk, pos + 1) == Ok::<(SExpV, int), Seq<char>>((SExpV::Atom(f), pos + 2))) by {
                assert(f != "("@) by { assert("("@[0] == '('); }
            }
            assert forall|j: int| 0 <= j < ta.len() implies tk[pos + 2 + j] == #[trigger] ta[j] by {
                assert(toks(t)[2 + j] == ta[j]);
            }
            assert(tk[pos + 2 + ta.len()] == ")"@) by {
                assert(toks(t)[2 + ta.len() as int] == ")"@);
            }
            lemma_read_items(tk, pos + 2, args, seq![SExpV::Atom(f)], 0);
            assert(toks_all(args, 0).len() == 0);
            assert(seq![SExpV::Atom(f)] + sexps_of(args, 0) =~= seq![SExpV::Atom(f)]);
            lemma_items_after_open(tk, pos, f);
        },
        _ => {},
    }
}

/// After `(` and a head atom, the list is read from the position after the head.
proof fn lemma_items_after_open(tk: Seq<Seq<char>>, pos: int, f: Seq<char>)
    requires
        0 <= pos, pos + 2 <= tk.len(), tk[pos] == "("@,
        read_sexp(tk, pos + 1) == Ok::<(SExpV, int), Seq<char>>((SExpV::Atom(f), pos + 2)),
        tk[pos + 1] != ")"@,
    ensures read_sexp(tk, pos) == (match read_items(tk, pos + 2, seq![SExpV::Atom(f)]) {
        Ok((items, p)) => Ok((SExpV::List(items), p)),
        Err(e) => Err(e),
    }),
{
    assert(Seq::<SExpV>::empty().push(SExpV::Atom(f)) =~= seq![SExpV::Atom(f)]);
}

/// The tokens of symbolic `ts[k..n]` found at `base` after those of `ts[0..k]`, then `)`,
/// are read as their S-expressions after those in `hd` and those of `ts[0..k]`.
proof fn lemma_read_items(tk: Seq<Seq<char>>, base: int, ts: Seq<TermV>, hd: Seq<SExpV>, k: int)
    requires
        all_symbolic(ts, ts.len() as int), 0 <= k <= ts.len(), 0 <= base,
        base + toks_all(ts, ts.len() as int).len() < tk.len(),
        forall|j: int| 0 <= j < toks_all(ts, ts.len() as int).len()
            ==> tk[base + j] == #[trigger] toks_all(ts, ts.len() as int)[j],
        tk[base + toks_all(ts, ts.len() as int).len()] == ")"@,
    ensures
        read_items(tk, base + toks_all(ts, k).len(), hd + sexps_of(ts, k))
            == Ok::<(Seq<SExpV>, int), Seq<char>>((hd + sexps_of(ts, ts.len() as int),
                base + toks_all(ts, ts.len() as int).len() + 1)),
    decreases ts, ts.len() - k,
{
    let n = ts.len() as int;
    let ta = toks_all(ts, n);
    lemma_toks_all_prefix(ts, k, n);
    if k == n {
    } else {
        lemma_toks_all_prefix(ts, k + 1, n);
        lemma_toks_all_step(ts, k);
        let pos = base + toks_all(ts, k).len();
        let t = ts[k];
        lemma_all_symbolic_at(ts, n, k);
        assert forall|j: int| 0 <= j < toks(t).len() implies tk[pos + j] == #[trigger] toks(t)[j] by {
            let a = toks_all(ts, k).len() + j;
            assert(toks_all(ts, k + 1)[a] == toks(t)[j]);
            assert(ta[a] == toks_all(ts, k + 1)[a]);
            assert(tk[base + a] == ta[a]);
        }
        lemma_read_term(tk, pos, t);
        lemma_first_tok(t);
        assert(tk[pos + 0] == toks(t)[0]);
        assert(hd + sexps_of(ts, k + 1) =~= (hd + sexps_of(ts, k)).push(sexp_of(t)));
        lemma_read_items(tk, base, ts, hd, k + 1);
    }
}


/// The tokenizer's state after the characters `cs`, from the state `st`.
pub open spec fn tok_steps(st: TokSt, cs: Seq<char>) -> TokSt
    decreases cs.len(),
{
    if cs.len() == 0 { st } else { tok_step(tok_steps(st, cs.drop_last()), cs.last()) }
}

/// A state between tokens, with the tokens `t` read.
pub open spec fn clean_st(t: Seq<Seq<char>>) -> TokSt {
    TokSt { tokens: t, cur: Seq::empty(), mode: TokMode::Normal }
}

proof fn lemma_run_steps(cs: Seq<char>)
    ensures tok_run(cs) == tok_steps(tok_init(), cs),
    decreases cs.len(),
{
    if cs.len() > 0 { lemma_run_steps(cs.drop_last()); }
}

proof fn lemma_steps_concat(st: TokSt, a: Seq<char>, b: Seq<char>)
    ensures tok_steps(st, a + b) == tok_steps(tok_steps(st, a), b),
    decreases b.len(),
{
    if b.len() == 0 {
        assert(a + b =~= a);
    } else {
        assert((a + b).drop_last() =~= a + b.drop_last());
        assert((a + b).last() == b.last());
        lemma_steps_concat(st, a, b.drop_last());
    }
}

/// The characters of a plain symbol are added to the pending text.
proof fn lemma_steps_symbol(t: Seq<Seq<char>>, c: Seq<char>, s: Seq<char>)
    requires
        forall|i: int| 0 <= i < s.len() ==> !is_ws(#[trigger] s[i]) && s[i] != '(' && s[i] != ')'
            && s[i] != ';' && s[i] != '"' && s[i] != '|',
    ensures tok_steps(TokSt { tokens: t, cur: c, mode: TokMode::Normal }, s)
        == (TokSt { tokens: t, cur: c + s, mode: TokMode::Normal }),
    decreases s.len(),
{
    if s.len() == 0 {
        assert(c + s =~= c);
    } else {
        lemma_steps_symbol(t, c, s.drop_last());
        assert((c + s.drop_last()).push(s.last()) =~= c + s);
    }
}

proof fn lemma_flush_clean(t: Seq<Seq<char>>)
    ensures tok_flush(clean_st(t)) == clean_st(t),
{
}

/// The text of a symbolic term, tokenized from a state between tokens, leaves its tokens
/// pending or read.
proof fn lemma_tok_term(tk: Seq<Seq<char>>, t: TermV)
    requires symbolic(t),
    ensures
        tok_steps(clean_st(tk), term_text(t)).mode is Normal,
        tok_flush(tok_steps(clean_st(tk), term_text(t))) == clean_st(tk + toks(t)),
    decreases t, 0int,
{
    reveal_strlit("(");
    reveal_strlit(")");
    reveal_strlit(" ");
    match t {
        TermV::Var(x) => {
            lemma_steps_symbol(tk, Seq::empty(), x);
            assert(Seq::<char>::empty() + x =~= x);
            assert(!is_blank(x)) by { assert(!is_ws(x[0])); }
            assert(tk.push(x) =~= tk + seq![x]);
        },
        TermV::Int(n) => {
            lemma_int_text(n);
            let x = int_text(n);
            lemma_steps_symbol(tk, Seq::empty(), x);
            assert(Seq::<char>::empty() + x =~= x);
            assert(!is_blank(x)) by { assert(!is_ws(x[0])); }
            assert(tk.push(x) =~= tk + seq![x]);
        },
        TermV::App(f, args) => {
            let n = args.len() as int;
            let a = "("@;
            let b = a + f;
            let c = b + " "@;
            let d = c + terms_text(args, n);
            assert(term_text(t) == d + ")"@);
            lemma_steps_concat(clean_st(tk), d, ")"@);
            lemma_steps_concat(clean_st(tk), c, terms_text(args, n));
            lemma_steps_concat(clean_st(tk), b, " "@);
            lemma_steps_concat(clean_st(tk), a, f);
            let s1 = tok_steps(clean_st(tk), a);
            assert(tok_steps(clean_st(tk), a) == tok_step(tok_steps(clean_st(tk), a.drop_last()), a.last()));
            assert(a.drop_last() =~= Seq::<char>::empty());
            lemma_flush_clean(tk);
            assert(s1 == clean_st(tk.push(seq!['('])));
            lemma_steps_symbol(tk.push(seq!['(']), Seq::empty(), f);
            let s2 = tok_steps(s1, f);
            assert(Seq::<char>::empty() + f =~= f);
            assert(s2 == TokSt { tokens: tk.push(seq!['(']), cur: f, mode: TokMode::Normal });
            assert(!is_blank(f)) by { assert(!is_ws(f[0])); }
            let s3 = tok_steps(s2, " "@);
            assert(s3 == tok_step(tok_steps(s2, " "@.drop_last()), ' '));
            assert(" "@.drop_last() =~= Seq::<char>::empty());
            let u = tk.push(seq!['(']).push(f);
            assert(s3 == clean_st(u));
            lemma_tok_terms(u, args, n);
            let s4 = tok_steps(s3, terms_text(args, n));
            let s5 = tok_steps(s4, ")"@);
            assert(s5 == tok_step(tok_steps(s4, ")"@.drop_last()), ')'));
            assert(")"@.drop_last() =~= Seq::<char>::empty());
            assert(s5 == clean_st((u + toks_all(args, n)).push(seq![')'])));
            assert("("@ =~= seq!['(']);
            assert(")"@ =~= seq![')']);
            assert((u + toks_all(args, n)).push(seq![')']) =~= tk + toks(t));
            lemma_flush_clean(tk + toks(t));
        },
        _ => {},
    }
}

/// The texts of symbolic `ts[0..k]`, separated by spaces, tokenized from a state between
/// tokens, leave their tokens pending or read.
proof fn lemma_tok_terms(tk: Seq<Seq<char>>, ts: Seq<TermV>, k: int)
    requires all_symbolic(ts, ts.len() as int), 1 <= k <= ts.len(),
    ensures
        tok_steps(clean_st(tk), terms_text(ts, k)).mode is Normal,
        tok_flush(tok_steps(clean_st(tk), terms_text(ts, k))) == clean_st(tk + toks_all(ts, k)),
    decreases ts, k,
{
    reveal_strlit(" ");
    lemma_all_symbolic_at(ts, ts.len() as int, k - 1);
    if k == 1 {
        lemma_tok_term(tk, ts[0]);
        assert(toks_all(ts, 0) =~= Seq::<Seq<char>>::empty());
        assert(toks_all(ts, 1) =~= toks(ts[0]));
    } else {
        lemma_tok_terms(tk, ts, k - 1);
        let a = terms_text(ts, k - 1);
        let b = a + " "@;
        lemma_steps_concat(clean_st(tk), b, term_text(ts[k - 1]));
        lemma_steps_concat(clean_st(tk), a, " "@);
        let s1 = tok_steps(clean_st(tk), a);
        let s2 = tok_steps(s1, " "@);
        assert(s2 == tok_step(tok_steps(s1, " "@.drop_last()), ' '));
        assert(" "@.drop_last() =~= Seq::<char>::empty());
        let u = tk + toks_all(ts, k - 1);
        assert(s2 == clean_st(u));
        lemma_tok_term(u, ts[k - 1]);
        assert(u + toks(ts[k - 1]) =~= tk + toks_all(ts, k));
    }
}

/// Printing and reading back: a term made of `i64` numerals, variables and applications of
/// plain names (no integer among the variables, no `as`, `ite` or `match` among the
/// functions, every application with an argument), written with `term_text` (as `format_term` writes it),
/// tokenized (`tokenize`), read as an S-expression (`parse_sexp`, from the first token, up to
/// the last) and read as a term (`parse_term`), is the term again.
pub proof fn lemma_term_text_reads_back(t: TermV)
    requires rereadable(t),
    ensures
        read_sexp(tokenize_spec(term_text(t)), 0)
            == Ok::<(SExpV, int), Seq<char>>((sexp_of(t), tokenize_spec(term_text(t)).len() as int)),
        term_spec(sexp_of(t)) == Ok::<TermV, Seq<char>>(t),
{
    lemma_rereadable_symbolic(t);
    lemma_text_reads_as(t);
    lemma_term_of_sexp(t);
}

/// The text of a term of plain symbols, tokenized and read, is one S-expression: the
/// term's shape, with the symbols as atoms.
pub proof fn lemma_text_reads_as(t: TermV)
    requires symbolic(t),
    ensures
        read_sexp(tokenize_spec(term_text(t)), 0)
            == Ok::<(SExpV, int), Seq<char>>((sexp_of(t), tokenize_spec(term_text(t)).len() as int)),
{
    lemma_run_steps(term_text(t));
    lemma_tok_term(Seq::empty(), t);
    assert(Seq::<Seq<char>>::empty() + toks(t) =~= toks(t));
    assert(tokenize_spec(term_text(t)) == toks(t));
    lemma_read_term(toks(t), 0, t);
}


/// The decimal text of a natural number is made of digits and has its value.
proof fn lemma_nat_text(n: nat)
    ensures nat_text(n).len() > 0, all_digits(nat_text(n)), digits_value(nat_text(n)) == n,
    decreases n,
{
    let d = n % 10;
    assert(digit_val(digit_char(d)) == d);
    assert(is_digit(digit_char(d)));
    if n >= 10 {
        lemma_nat_text(n / 10);
        let s = nat_text(n);
        assert(s.drop_last() =~= nat_text(n / 10));
        assert(s.last() == digit_char(d));
        assert(digits_value(s) == digits_value(nat_text(n / 10)) * 10 + digit_val(digit_char(d)));
        vstd::arithmetic::div_mod::lemma_fundamental_div_mod(n as int, 10);
        assert(10 * (n as int / 10) + (n as int % 10) == n);
        assert forall|i: int| 0 <= i < s.len() implies is_digit(#[trigger] s[i]) by {
            if i < s.len() - 1 { assert(s[i] == nat_text(n / 10)[i]); }
        }
    } else {
        let s = nat_text(n);
        assert(s.drop_last() =~= Seq::<char>::empty());
        assert(digits_value(s.drop_last()) == 0);
        assert(d == n);
    }
}

/// The text of an `i64` is a plain symbol read back as the number.
proof fn lemma_int_text(n: int)
    requires i64::MIN <= n <= i64::MAX,
    ensures plain_symbol(int_text(n)), parse_i64_spec(int_text(n)) == Some(n as i64),
{
    let s = int_text(n);
    if n < 0 {
        let m = (0 - n) as nat;
        lemma_nat_text(m);
        assert(s.drop_first() =~= nat_text(m));
        assert forall|i: int| 0 <= i < s.len() implies !is_ws(#[trigger] s[i]) && s[i] != '(' && s[i] != ')'
            && s[i] != ';' && s[i] != '"' && s[i] != '|' by {
            if i > 0 { assert(s[i] == nat_text(m)[i - 1]); assert(is_digit(nat_text(m)[i - 1])); }
        }
    } else {
        lemma_nat_text(n as nat);
        assert(is_digit(s[0]));
        assert forall|i: int| 0 <= i < s.len() implies !is_ws(#[trigger] s[i]) && s[i] != '(' && s[i] != ')'
            && s[i] != ';' && s[i] != '"' && s[i] != '|' by {
            assert(is_digit(s[i]));
        }
    }
}

} // verus!
