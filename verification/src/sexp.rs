//! Tokenizer and S-expression reader.
use vstd::prelude::*;
use vstd::string::StringExecFns;
use crate::text::{text_is, is_blank, is_ws, chars_of, string_of_chars, text_is_blank, is_whitespace_char};

verus! {

/// An S-expression: an atom or a parenthesized list.
#[derive(Debug)]
pub enum SExp {
    Atom(String),
    List(Vec<SExp>),
}

/// The mathematical value of an [`SExp`].
pub enum SExpV {
    Atom(Seq<char>),
    List(Seq<SExpV>),
}

pub open spec fn sexp_v(e: SExp) -> SExpV
    decreases e,
{
    match e {
        SExp::Atom(s) => SExpV::Atom(s@),
        SExp::List(xs) => SExpV::List(sexps_v(xs@)),
    }
}

pub open spec fn sexps_v(s: Seq<SExp>) -> Seq<SExpV>
    decreases s,
{
    if s.len() == 0 {
        Seq::empty()
    } else {
        sexps_v(s.drop_last()).push(sexp_v(s.last()))
    }
}

pub proof fn lemma_sexps_v(s: Seq<SExp>)
    ensures
        sexps_v(s).len() == s.len(),
        forall|j: int| 0 <= j < s.len() ==> #[trigger] sexps_v(s)[j] == sexp_v(s[j]),
    decreases s.len(),
{
    if s.len() > 0 {
        lemma_sexps_v(s.drop_last());
    }
}

impl View for SExp {
    type V = SExpV;

    open spec fn view(&self) -> SExpV {
        sexp_v(*self)
    }
}

pub open spec fn strings_v(v: Seq<String>) -> Seq<Seq<char>> {
    v.map_values(|s: String| s@)
}

// ---------------------------------------------------------------------------
// Tokenizer
// ---------------------------------------------------------------------------

pub enum TokMode {
    Normal,
    Comment,
    Str,
    Quoted,
}

/// State of the tokenizer between two characters.
pub struct TokSt {
    pub tokens: Seq<Seq<char>>,
    pub cur: Seq<char>,
    pub mode: TokMode,
}

/// Emits the pending text as a token when it is not blank.
pub open spec fn tok_flush(st: TokSt) -> TokSt {
    if !is_blank(st.cur) {
        TokSt { tokens: st.tokens.push(st.cur), cur: Seq::empty(), mode: st.mode }
    } else {
        st
    }
}

/// One character of input: `;` starts a comment up to the end of the line, `"..."` and
/// `|...|` are single tokens, parentheses are tokens of their own, whitespace separates.
pub open spec fn tok_step(st: TokSt, c: char) -> TokSt {
    match st.mode {
        TokMode::Comment => {
            if c == '\n' { TokSt { mode: TokMode::Normal, ..st } } else { st }
        },
        TokMode::Str => {
            let cur = st.cur.push(c);
            if c == '"' {
                TokSt { tokens: st.tokens.push(cur), cur: Seq::empty(), mode: TokMode::Normal }
            } else {
                TokSt { cur, ..st }
            }
        },
        TokMode::Quoted => {
            let cur = st.cur.push(c);
            if c == '|' {
                TokSt { tokens: st.tokens.push(cur), cur: Seq::empty(), mode: TokMode::Normal }
            } else {
                TokSt { cur, ..st }
            }
        },
        TokMode::Normal => {
            if c == ';' {
                TokSt { mode: TokMode::Comment, ..tok_flush(st) }
            } else if c == '"' {
                let f = tok_flush(st);
                TokSt { tokens: f.tokens, cur: f.cur.push('"'), mode: TokMode::Str }
            } else if c == '|' {
                let f = tok_flush(st);
                TokSt { tokens: f.tokens, cur: f.cur.push('|'), mode: TokMode::Quoted }
            } else if c == '(' || c == ')' {
                let f = tok_flush(st);
                TokSt { tokens: f.tokens.push(seq![c]), cur: Seq::empty(), mode: f.mode }
            } else if is_ws(c) {
                tok_flush(st)
            } else {
                TokSt { cur: st.cur.push(c), ..st }
            }
        },
    }
}

pub open spec fn tok_init() -> TokSt {
    TokSt { tokens: Seq::empty(), cur: Seq::empty(), mode: TokMode::Normal }
}

pub open spec fn tok_run(cs: Seq<char>) -> TokSt
    decreases cs.len(),
{
    if cs.len() == 0 {
        tok_init()
    } else {
        tok_step(tok_run(cs.drop_last()), cs.last())
    }
}

/// The tokens of a text.
pub open spec fn tokenize_spec(cs: Seq<char>) -> Seq<Seq<char>> {
    tok_flush(tok_run(cs)).tokens
}

/// What the tokenizer keeps between characters: no token is blank; outside strings and
/// quoted symbols the pending text holds no whitespace; inside them it starts with the
/// opening quote.
pub open spec fn tok_inv(st: TokSt) -> bool {
    &&& forall|i: int| 0 <= i < st.tokens.len() ==> !is_blank(#[trigger] st.tokens[i])
    &&& (st.mode is Normal || st.mode is Comment) ==> forall|i: int| 0 <= i < st.cur.len() ==> !is_ws(#[trigger] st.cur[i])
    &&& (st.mode is Str || st.mode is Quoted) ==> st.cur.len() > 0 && !is_ws(st.cur[0])
}

proof fn lemma_flush_inv(st: TokSt)
    requires tok_inv(st), st.mode is Normal || st.mode is Comment,
    ensures
        tok_inv(tok_flush(st)),
        tok_flush(st).cur.len() == 0,
        tok_flush(st).mode == st.mode,
{
    if is_blank(st.cur) {
        if st.cur.len() > 0 {
            assert(is_ws(st.cur[0]));
        }
    } else {
        let t = tok_flush(st).tokens;
        assert forall|i: int| 0 <= i < t.len() implies !is_blank(#[trigger] t[i]) by {
            if i < st.tokens.len() { assert(t[i] == st.tokens[i]); }
        }
    }
}

proof fn lemma_step_inv(st: TokSt, c: char)
    requires tok_inv(st),
    ensures tok_inv(tok_step(st, c)),
{
    let r = tok_step(st, c);
    match st.mode {
        TokMode::Comment => {},
        TokMode::Str | TokMode::Quoted => {
            let cur = st.cur.push(c);
            assert(cur[0] == st.cur[0]);
            assert(!is_blank(cur));
            assert forall|i: int| 0 <= i < r.tokens.len() implies !is_blank(#[trigger] r.tokens[i]) by {
                if i < st.tokens.len() { assert(r.tokens[i] == st.tokens[i]); }
            }
        },
        TokMode::Normal => {
            lemma_flush_inv(st);
            let f = tok_flush(st);
            if c == ';' {
            } else if c == '"' || c == '|' {
                assert(f.cur.push(c)[0] == c);
            } else if c == '(' || c == ')' {
                let one = seq![c];
                assert(!is_ws(one[0]));
                assert forall|i: int| 0 <= i < r.tokens.len() implies !is_blank(#[trigger] r.tokens[i]) by {
                    if i < f.tokens.len() { assert(r.tokens[i] == f.tokens[i]); } else { assert(r.tokens[i] == one); }
                }
            } else if is_ws(c) {
            } else {
                assert forall|i: int| 0 <= i < r.cur.len() implies !is_ws(#[trigger] r.cur[i]) by {
                    if i < st.cur.len() { assert(r.cur[i] == st.cur[i]); }
                }
            }
        },
    }
}

proof fn lemma_run_inv(cs: Seq<char>)
    ensures tok_inv(tok_run(cs)),
    decreases cs.len(),
{
    if cs.len() > 0 {
        lemma_run_inv(cs.drop_last());
        lemma_step_inv(tok_run(cs.drop_last()), cs.last());
    }
}

/// No token is empty or made of whitespace only.
pub proof fn lemma_tokens_not_blank(cs: Seq<char>)
    ensures forall|i: int| 0 <= i < tokenize_spec(cs).len() ==> !is_blank(#[trigger] tokenize_spec(cs)[i]),
{
    lemma_run_inv(cs);
    let st = tok_run(cs);
    if st.mode is Normal || st.mode is Comment {
        lemma_flush_inv(st);
    } else {
        let t = tok_flush(st).tokens;
        assert(!is_blank(st.cur)) by { assert(!is_ws(st.cur[0])); }
        assert forall|i: int| 0 <= i < t.len() implies !is_blank(#[trigger] t[i]) by {
            if i < st.tokens.len() { assert(t[i] == st.tokens[i]); }
        }
    }
}

/// Splits SMT-LIB text into tokens.
pub fn tokenize(input: &str) -> (tokens: Vec<String>)
    ensures strings_v(tokens@) == tokenize_spec(input@),
{
    let cs = chars_of(input);
    let mut tokens: Vec<String> = Vec::new();
    let mut cur: Vec<char> = Vec::new();
    let mut in_comment = false;
    let mut in_string = false;
    let mut in_quoted = false;
    let mut i: usize = 0;
    while i < cs.len()
        invariant
            i <= cs.len(),
            cs@ == input@,
            ({
                let st = tok_run(cs@.take(i as int));
                &&& strings_v(tokens@) == st.tokens
                &&& cur@ == st.cur
                &&& in_comment == (st.mode is Comment)
                &&& in_string == (st.mode is Str)
                &&& in_quoted == (st.mode is Quoted)
            }),
        decreases cs.len() - i,
    {
        let ch = cs[i];
        proof {
            assert(cs@.take(i + 1).drop_last() == cs@.take(i as int));
            assert(cs@.take(i + 1).last() == ch);
        }
        let ghost st = tok_run(cs@.take(i as int));
        let ghost old_tokens = tokens@;
        i += 1;
        if in_comment {
            if ch == '\n' {
                in_comment = false;
            }
            continue;
        }
        if in_string {
            cur.push(ch);
            if ch == '"' {
                tokens.push(string_of_chars(&cur));
                cur = Vec::new();
                in_string = false;
                assert(strings_v(tokens@) == strings_v(old_tokens).push(st.cur.push(ch)));
            }
            continue;
        }
        if in_quoted {
            cur.push(ch);
            if ch == '|' {
                tokens.push(string_of_chars(&cur));
                cur = Vec::new();
                in_quoted = false;
                assert(strings_v(tokens@) == strings_v(old_tokens).push(st.cur.push(ch)));
            }
            continue;
        }
        if ch == ';' {
            flush(&mut tokens, &mut cur);
            in_comment = true;
        } else if ch == '"' {
            flush(&mut tokens, &mut cur);
            cur.push('"');
            in_string = true;
        } else if ch == '|' {
            flush(&mut tokens, &mut cur);
            cur.push('|');
            in_quoted = true;
        } else if ch == '(' || ch == ')' {
            if !text_is_blank(&cur) {
                tokens.push(string_of_chars(&cur));
            }
            cur = Vec::new();
            let ghost mid = tokens@;
            let mut one: Vec<char> = Vec::new();
            one.push(ch);
            tokens.push(string_of_chars(&one));
            assert(one@ == seq![ch]);
            assert(strings_v(tokens@) == strings_v(mid).push(seq![ch]));
        } else if is_whitespace_char(ch) {
            flush(&mut tokens, &mut cur);
        } else {
            cur.push(ch);
        }
    }
    assert(cs@.take(cs.len() as int) == cs@);
    flush(&mut tokens, &mut cur);
    tokens
}

/// Emits `cur` as a token when it is not blank.
fn flush(tokens: &mut Vec<String>, cur: &mut Vec<char>)
    ensures
        ({
            let f = tok_flush(TokSt { tokens: strings_v(old(tokens)@), cur: old(cur)@, mode: TokMode::Normal });
            strings_v(final(tokens)@) == f.tokens && final(cur)@ == f.cur
        }),
{
    if !text_is_blank(cur) {
        let ghost old_tokens = tokens@;
        tokens.push(string_of_chars(cur));
        *cur = Vec::new();
        assert(strings_v(tokens@) == strings_v(old_tokens).push(old(cur)@));
    }
}

// ---------------------------------------------------------------------------
// Reader
// ---------------------------------------------------------------------------

pub open spec fn msg_end_of_input() -> Seq<char> { "unexpected end of input"@ }
pub open spec fn msg_missing_close() -> Seq<char> { "missing ')'"@ }
pub open spec fn msg_unexpected_close() -> Seq<char> { "unexpected ')'"@ }

/// Reads one S-expression starting at token `pos`; gives it with the position after it.
pub open spec fn read_sexp(t: Seq<Seq<char>>, pos: int) -> Result<(SExpV, int), Seq<char>>
    decreases t.len() - pos, 0int,
{
    if pos < 0 || pos >= t.len() {
        Err(msg_end_of_input())
    } else if t[pos] == "("@ {
        match read_items(t, pos + 1, Seq::empty()) {
            Ok((items, p)) => Ok((SExpV::List(items), p)),
            Err(e) => Err(e),
        }
    } else if t[pos] == ")"@ {
        Err(msg_unexpected_close())
    } else {
        Ok((SExpV::Atom(t[pos]), pos + 1))
    }
}

/// Reads the elements of a list up to its closing parenthesis, after the ones in `acc`.
pub open spec fn read_items(t: Seq<Seq<char>>, pos: int, acc: Seq<SExpV>) -> Result<(Seq<SExpV>, int), Seq<char>>
    decreases t.len() - pos, 1int,
{
    if 0 <= pos < t.len() && t[pos] != ")"@ {
        match read_sexp(t, pos) {
            Ok((e, p)) => if pos < p <= t.len() { read_items(t, p, acc.push(e)) } else { Err(msg_end_of_input()) },
            Err(m) => Err(m),
        }
    } else if pos < 0 || pos >= t.len() {
        Err(msg_missing_close())
    } else {
        Ok((acc, pos + 1))
    }
}

pub proof fn lemma_read_advances(t: Seq<Seq<char>>, pos: int)
    ensures
        read_sexp(t, pos) matches Ok((_, p)) ==> pos < p <= t.len(),
    decreases t.len() - pos, 0int,
{
    if 0 <= pos < t.len() && t[pos] == "("@ {
        lemma_items_advance(t, pos + 1, Seq::empty());
    }
}

pub proof fn lemma_items_advance(t: Seq<Seq<char>>, pos: int, acc: Seq<SExpV>)
    ensures
        read_items(t, pos, acc) matches Ok((_, p)) ==> pos < p <= t.len(),
    decreases t.len() - pos, 1int,
{
    if 0 <= pos < t.len() && t[pos] != ")"@ {
        lemma_read_advances(t, pos);
        if let Ok((e, p)) = read_sexp(t, pos) {
            if pos < p <= t.len() {
                lemma_items_advance(t, p, acc.push(e));
            }
        }
    }
}

/// Reads one S-expression from the tokens at `*pos` and moves `*pos` past it.
pub fn parse_sexp(tokens: &Vec<String>, pos: &mut usize) -> (res: Result<SExp, String>)
    ensures
        match read_sexp(strings_v(tokens@), *old(pos) as int) {
            Ok((e, p)) => res matches Ok(r) && r@ == e && *final(pos) as int == p,
            Err(m) => res matches Err(msg) && msg@ == m,
        },
    decreases tokens.len() - *old(pos),
{
    let ghost t = strings_v(tokens@);
    let ghost start = *pos as int;
    if *pos >= tokens.len() {
        return Err(String::from_str("unexpected end of input"));
    }
    if text_is(&tokens[*pos], "(") {
        *pos += 1;
        let mut items: Vec<SExp> = Vec::new();
        proof { lemma_sexps_v(items@); }
        while *pos < tokens.len() && !text_is(&tokens[*pos], ")")
            invariant
                t == strings_v(tokens@),
                start < *pos <= tokens.len(),
                start == *old(pos) as int,
                0 <= start < tokens.len(),
                t[start] == "("@,
                read_items(t, start + 1, Seq::empty()) == read_items(t, *pos as int, sexps_v(items@)),
            decreases tokens.len() - *pos,
        {
            let ghost before = *pos as int;
            proof { lemma_read_advances(t, before); }
            let e = parse_sexp(tokens, pos);
            match e {
                Ok(e) => {
                    proof {
                        lemma_sexps_v(items@);
                    }
                    let ghost old_items = items@;
                    items.push(e);
                    proof {
                        lemma_sexps_v(items@);
                        assert(sexps_v(items@) =~= sexps_v(old_items).push(e@));
                    }
                }
                Err(m) => {
                    assert(read_items(t, before, sexps_v(items@)) == Err::<(Seq<SExpV>, int), Seq<char>>(m@));
                    return Err(m);
                }
            }
        }
        if *pos >= tokens.len() {
            return Err(String::from_str("missing ')'"));
        }
        *pos += 1;
        return Ok(SExp::List(items));
    }
    if text_is(&tokens[*pos], ")") {
        return Err(String::from_str("unexpected ')'"));
    }
    let a = tokens[*pos].clone();
    *pos += 1;
    Ok(SExp::Atom(a))
}

/// Reads the S-expressions that follow position `pos`, after the ones in `acc`.
pub open spec fn read_all(t: Seq<Seq<char>>, pos: int, acc: Seq<SExpV>) -> Result<Seq<SExpV>, Seq<char>>
    decreases t.len() - pos,
{
    if 0 <= pos < t.len() {
        match read_sexp(t, pos) {
            Ok((e, p)) => if pos < p <= t.len() { read_all(t, p, acc.push(e)) } else { Err(msg_end_of_input()) },
            Err(m) => Err(m),
        }
    } else {
        Ok(acc)
    }
}

/// All S-expressions of a text.
pub open spec fn parse_all_spec(cs: Seq<char>) -> Result<Seq<SExpV>, Seq<char>> {
    read_all(tokenize_spec(cs), 0, Seq::empty())
}

/// Tokenizes a text and reads every S-expression in it.
pub fn parse_all_sexps(input: &str) -> (res: Result<Vec<SExp>, String>)
    ensures
        match parse_all_spec(input@) {
            Ok(es) => res matches Ok(v) && sexps_v(v@) == es,
            Err(m) => res matches Err(msg) && msg@ == m,
        },
{
    let tokens = tokenize(input);
    let ghost t = strings_v(tokens@);
    let mut pos: usize = 0;
    let mut res: Vec<SExp> = Vec::new();
    proof { lemma_sexps_v(res@); }
    while pos < tokens.len()
        invariant
            t == strings_v(tokens@),
            t == tokenize_spec(input@),
            pos <= tokens.len(),
            read_all(t, 0, Seq::empty()) == read_all(t, pos as int, sexps_v(res@)),
        decreases tokens.len() - pos,
    {
        proof { lemma_read_advances(t, pos as int); }
        match parse_sexp(&tokens, &mut pos) {
            Ok(e) => {
                let ghost old_res = res@;
                res.push(e);
                proof {
                    lemma_sexps_v(res@);
                    lemma_sexps_v(old_res);
                    assert(sexps_v(res@) =~= sexps_v(old_res).push(e@));
                }
            }
            Err(m) => {
                return Err(m);
            }
        }
    }
    Ok(res)
}

} // verus!
