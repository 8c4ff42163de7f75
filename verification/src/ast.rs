//! The syntax tree of SMT-LIB commands, formulas and terms, and its mathematical value.
use vstd::prelude::*;

verus! {

/// A parsed script.
pub struct Program {
    pub commands: Vec<Command>,
}

/// One SMT-LIB command.
pub enum Command {
    SetLogic(String),
    DeclareDatatypes(Vec<DatatypeDecl>),
    DeclareSort(String, usize),
    DeclareConst(String, SortExpr),
    DeclareFun(String, Vec<SortExpr>, SortExpr),
    Assert(Formula),
    CheckSat,
    Push(usize),
    Pop(usize),
    GetModel,
    GetValue(Vec<Term>),
    Exit,
    Skip(String),
}

/// A datatype declaration: name, arity, `par` parameters and constructors.
pub struct DatatypeDecl {
    pub name: String,
    pub arity: usize,
    pub type_params: Vec<String>,
    pub constructors: Vec<ConstructorDecl>,
}

pub struct ConstructorDecl {
    pub name: String,
    pub fields: Vec<FieldDecl>,
}

pub struct FieldDecl {
    pub selector: String,
    pub sort: SortExpr,
}

/// A sort as written: `Int`, `T`, `(List Int)`.
pub enum SortExpr {
    Simple(String),
    Parametric(String, Vec<SortExpr>),
}

pub enum Formula {
    Eq(Term, Term),
    Not(Box<Formula>),
    And(Vec<Formula>),
    Or(Vec<Formula>),
    Implies(Box<Formula>, Box<Formula>),
    Ite(Box<Formula>, Box<Formula>, Box<Formula>),
    IsTester(String, Term),
    True,
    False,
}

pub enum Term {
    Var(String),
    Int(i64),
    App(String, Vec<Term>),
    Ite(Box<Formula>, Box<Term>, Box<Term>),
    Match(Box<Term>, Vec<MatchCase>),
    As(Box<Term>, SortExpr),
}

pub struct MatchCase {
    pub pattern: MatchPattern,
    pub body: Term,
}

pub enum MatchPattern {
    Constructor(String, Vec<String>),
    Atom(String),
}

// ---------------------------------------------------------------------------
// Mathematical values
// ---------------------------------------------------------------------------

pub enum SortExprV {
    Simple(Seq<char>),
    Parametric(Seq<char>, Seq<SortExprV>),
}

pub enum FormulaV {
    Eq(TermV, TermV),
    Not(Box<FormulaV>),
    And(Seq<FormulaV>),
    Or(Seq<FormulaV>),
    Implies(Box<FormulaV>, Box<FormulaV>),
    Ite(Box<FormulaV>, Box<FormulaV>, Box<FormulaV>),
    IsTester(Seq<char>, TermV),
    True,
    False,
}

pub enum TermV {
    Var(Seq<char>),
    Int(int),
    App(Seq<char>, Seq<TermV>),
    Ite(Box<FormulaV>, Box<TermV>, Box<TermV>),
    Match(Box<TermV>, Seq<MatchCaseV>),
    As(Box<TermV>, SortExprV),
}

pub struct MatchCaseV {
    pub pattern: MatchPatternV,
    pub body: TermV,
}

pub enum MatchPatternV {
    Constructor(Seq<char>, Seq<Seq<char>>),
    Atom(Seq<char>),
}

pub struct FieldDeclV {
    pub selector: Seq<char>,
    pub sort: SortExprV,
}

pub struct ConstructorDeclV {
    pub name: Seq<char>,
    pub fields: Seq<FieldDeclV>,
}

pub struct DatatypeDeclV {
    pub name: Seq<char>,
    pub arity: nat,
    pub type_params: Seq<Seq<char>>,
    pub constructors: Seq<ConstructorDeclV>,
}

pub enum CommandV {
    SetLogic(Seq<char>),
    DeclareDatatypes(Seq<DatatypeDeclV>),
    DeclareSort(Seq<char>, nat),
    DeclareConst(Seq<char>, SortExprV),
    DeclareFun(Seq<char>, Seq<SortExprV>, SortExprV),
    Assert(FormulaV),
    CheckSat,
    Push(nat),
    Pop(nat),
    GetModel,
    GetValue(Seq<TermV>),
    Exit,
    Skip(Seq<char>),
}

pub open spec fn strs_v(s: Seq<String>) -> Seq<Seq<char>> {
    s.map_values(|x: String| x@)
}

pub open spec fn sort_expr_v(e: SortExpr) -> SortExprV
    decreases e,
{
    match e {
        SortExpr::Simple(s) => SortExprV::Simple(s@),
        SortExpr::Parametric(s, args) => SortExprV::Parametric(s@, sort_exprs_v(args@)),
    }
}

pub open spec fn sort_exprs_v(s: Seq<SortExpr>) -> Seq<SortExprV>
    decreases s,
{
    if s.len() == 0 { Seq::empty() } else { sort_exprs_v(s.drop_last()).push(sort_expr_v(s.last())) }
}

pub open spec fn formula_v(f: Formula) -> FormulaV
    decreases f,
{
    match f {
        Formula::Eq(a, b) => FormulaV::Eq(term_v(a), term_v(b)),
        Formula::Not(g) => FormulaV::Not(Box::new(formula_v(*g))),
        Formula::And(fs) => FormulaV::And(formulas_v(fs@)),
        Formula::Or(fs) => FormulaV::Or(formulas_v(fs@)),
        Formula::Implies(a, b) => FormulaV::Implies(Box::new(formula_v(*a)), Box::new(formula_v(*b))),
        Formula::Ite(c, a, b) => FormulaV::Ite(Box::new(formula_v(*c)), Box::new(formula_v(*a)), Box::new(formula_v(*b))),
        Formula::IsTester(c, t) => FormulaV::IsTester(c@, term_v(t)),
        Formula::True => FormulaV::True,
        Formula::False => FormulaV::False,
    }
}

pub open spec fn formulas_v(s: Seq<Formula>) -> Seq<FormulaV>
    decreases s,
{
    if s.len() == 0 { Seq::empty() } else { formulas_v(s.drop_last()).push(formula_v(s.last())) }
}

pub open spec fn term_v(t: Term) -> TermV
    decreases t,
{
    match t {
        Term::Var(s) => TermV::Var(s@),
        Term::Int(n) => TermV::Int(n as int),
        Term::App(f, args) => TermV::App(f@, terms_v(args@)),
        Term::Ite(c, a, b) => TermV::Ite(Box::new(formula_v(*c)), Box::new(term_v(*a)), Box::new(term_v(*b))),
        Term::Match(s, cases) => TermV::Match(Box::new(term_v(*s)), cases_v(cases@)),
        Term::As(a, se) => TermV::As(Box::new(term_v(*a)), sort_expr_v(se)),
    }
}

pub open spec fn terms_v(s: Seq<Term>) -> Seq<TermV>
    decreases s,
{
    if s.len() == 0 { Seq::empty() } else { terms_v(s.drop_last()).push(term_v(s.last())) }
}

pub open spec fn pattern_v(p: MatchPattern) -> MatchPatternV {
    match p {
        MatchPattern::Constructor(c, vs) => MatchPatternV::Constructor(c@, strs_v(vs@)),
        MatchPattern::Atom(a) => MatchPatternV::Atom(a@),
    }
}

pub open spec fn case_v(c: MatchCase) -> MatchCaseV
    decreases c,
{
    MatchCaseV { pattern: pattern_v(c.pattern), body: term_v(c.body) }
}

pub open spec fn cases_v(s: Seq<MatchCase>) -> Seq<MatchCaseV>
    decreases s,
{
    if s.len() == 0 { Seq::empty() } else { cases_v(s.drop_last()).push(case_v(s.last())) }
}

pub open spec fn field_v(f: FieldDecl) -> FieldDeclV {
    FieldDeclV { selector: f.selector@, sort: sort_expr_v(f.sort) }
}

pub open spec fn fields_v(s: Seq<FieldDecl>) -> Seq<FieldDeclV> {
    s.map_values(|f: FieldDecl| field_v(f))
}

pub open spec fn ctor_v(c: ConstructorDecl) -> ConstructorDeclV {
    ConstructorDeclV { name: c.name@, fields: fields_v(c.fields@) }
}

pub open spec fn ctors_v(s: Seq<ConstructorDecl>) -> Seq<ConstructorDeclV> {
    s.map_values(|c: ConstructorDecl| ctor_v(c))
}

pub open spec fn datatype_v(d: DatatypeDecl) -> DatatypeDeclV {
    DatatypeDeclV {
        name: d.name@,
        arity: d.arity as nat,
        type_params: strs_v(d.type_params@),
        constructors: ctors_v(d.constructors@),
    }
}

pub open spec fn datatypes_v(s: Seq<DatatypeDecl>) -> Seq<DatatypeDeclV> {
    s.map_values(|d: DatatypeDecl| datatype_v(d))
}

pub open spec fn command_v(c: Command) -> CommandV {
    match c {
        Command::SetLogic(s) => CommandV::SetLogic(s@),
        Command::DeclareDatatypes(ds) => CommandV::DeclareDatatypes(datatypes_v(ds@)),
        Command::DeclareSort(s, n) => CommandV::DeclareSort(s@, n as nat),
        Command::DeclareConst(s, e) => CommandV::DeclareConst(s@, sort_expr_v(e)),
        Command::DeclareFun(s, args, r) => CommandV::DeclareFun(s@, sort_exprs_v(args@), sort_expr_v(r)),
        Command::Assert(f) => CommandV::Assert(formula_v(f)),
        Command::CheckSat => CommandV::CheckSat,
        Command::Push(n) => CommandV::Push(n as nat),
        Command::Pop(n) => CommandV::Pop(n as nat),
        Command::GetModel => CommandV::GetModel,
        Command::GetValue(ts) => CommandV::GetValue(terms_v(ts@)),
        Command::Exit => CommandV::Exit,
        Command::Skip(s) => CommandV::Skip(s@),
    }
}

pub open spec fn commands_v(s: Seq<Command>) -> Seq<CommandV> {
    s.map_values(|c: Command| command_v(c))
}

impl View for SortExpr {
    type V = SortExprV;
    open spec fn view(&self) -> SortExprV { sort_expr_v(*self) }
}

impl View for Term {
    type V = TermV;
    open spec fn view(&self) -> TermV { term_v(*self) }
}

impl View for Formula {
    type V = FormulaV;
    open spec fn view(&self) -> FormulaV { formula_v(*self) }
}

impl View for MatchCase {
    type V = MatchCaseV;
    open spec fn view(&self) -> MatchCaseV { case_v(*self) }
}

impl View for MatchPattern {
    type V = MatchPatternV;
    open spec fn view(&self) -> MatchPatternV { pattern_v(*self) }
}

impl View for Command {
    type V = CommandV;
    open spec fn view(&self) -> CommandV { command_v(*self) }
}

impl View for Program {
    type V = Seq<CommandV>;
    open spec fn view(&self) -> Seq<CommandV> { commands_v(self.commands@) }
}

pub proof fn lemma_sort_exprs_v(s: Seq<SortExpr>)
    ensures
        sort_exprs_v(s).len() == s.len(),
        forall|j: int| 0 <= j < s.len() ==> #[trigger] sort_exprs_v(s)[j] == sort_expr_v(s[j]),
    decreases s.len(),
{
    if s.len() > 0 { lemma_sort_exprs_v(s.drop_last()); }
}

pub proof fn lemma_terms_v(s: Seq<Term>)
    ensures
        terms_v(s).len() == s.len(),
        forall|j: int| 0 <= j < s.len() ==> #[trigger] terms_v(s)[j] == term_v(s[j]),
    decreases s.len(),
{
    if s.len() > 0 { lemma_terms_v(s.drop_last()); }
}

pub proof fn lemma_formulas_v(s: Seq<Formula>)
    ensures
        formulas_v(s).len() == s.len(),
        forall|j: int| 0 <= j < s.len() ==> #[trigger] formulas_v(s)[j] == formula_v(s[j]),
    decreases s.len(),
{
    if s.len() > 0 { lemma_formulas_v(s.drop_last()); }
}

pub proof fn lemma_cases_v(s: Seq<MatchCase>)
    ensures
        cases_v(s).len() == s.len(),
        forall|j: int| 0 <= j < s.len() ==> #[trigger] cases_v(s)[j] == case_v(s[j]),
    decreases s.len(),
{
    if s.len() > 0 { lemma_cases_v(s.drop_last()); }
}

// ---------------------------------------------------------------------------
// Copies
// ---------------------------------------------------------------------------

pub fn clone_strings(v: &Vec<String>) -> (r: Vec<String>)
    ensures strs_v(r@) == strs_v(v@),
{
    let mut out: Vec<String> = Vec::new();
    let mut i: usize = 0;
    while i < v.len()
        invariant i <= v.len(), out.len() == i, forall|j: int| 0 <= j < i ==> out@[j]@ == v@[j]@,
        decreases v.len() - i,
    {
        out.push(v[i].clone());
        i += 1;
    }
    assert(strs_v(out@) =~= strs_v(v@));
    out
}

#[verifier::loop_isolation(false)]
pub fn clone_sort_expr(e: &SortExpr) -> (r: SortExpr)
    ensures r@ == e@,
    decreases e,
{
    match e {
        SortExpr::Simple(s) => SortExpr::Simple(s.clone()),
        SortExpr::Parametric(s, args) => {
            let mut out: Vec<SortExpr> = Vec::new();
            let mut i: usize = 0;
            while i < args.len()
                invariant i <= args.len(), out.len() == i,
                    forall|j: int| 0 <= j < i ==> sort_expr_v(out@[j]) == sort_expr_v(args@[j]),
                decreases args.len() - i,
            {
                out.push(clone_sort_expr(&args[i]));
                i += 1;
            }
            proof {
                lemma_sort_exprs_v(out@);
                lemma_sort_exprs_v(args@);
                assert(sort_exprs_v(out@) =~= sort_exprs_v(args@));
            }
            SortExpr::Parametric(s.clone(), out)
        },
    }
}

#[verifier::loop_isolation(false)]
pub fn clone_term(t: &Term) -> (r: Term)
    ensures r@ == t@,
    decreases t,
{
    match t {
        Term::Var(s) => Term::Var(s.clone()),
        Term::Int(n) => Term::Int(*n),
        Term::App(f, args) => {
            let mut out: Vec<Term> = Vec::new();
            let mut i: usize = 0;
            while i < args.len()
                invariant i <= args.len(), out.len() == i,
                    forall|j: int| 0 <= j < i ==> term_v(out@[j]) == term_v(args@[j]),
                decreases args.len() - i,
            {
                out.push(clone_term(&args[i]));
                i += 1;
            }
            proof {
                lemma_terms_v(out@);
                lemma_terms_v(args@);
                assert(terms_v(out@) =~= terms_v(args@));
            }
            Term::App(f.clone(), out)
        },
        Term::Ite(c, a, b) => Term::Ite(Box::new(clone_formula(c)), Box::new(clone_term(a)), Box::new(clone_term(b))),
        Term::Match(s, cases) => {
            let mut out: Vec<MatchCase> = Vec::new();
            let mut i: usize = 0;
            while i < cases.len()
                invariant i <= cases.len(), out.len() == i,
                    forall|j: int| 0 <= j < i ==> case_v(out@[j]) == case_v(cases@[j]),
                decreases cases.len() - i,
            {
                let c = &cases[i];
                let p = clone_pattern(&c.pattern);
                let b = clone_term(&c.body);
                out.push(MatchCase { pattern: p, body: b });
                i += 1;
            }
            proof {
                lemma_cases_v(out@);
                lemma_cases_v(cases@);
                assert(cases_v(out@) =~= cases_v(cases@));
            }
            Term::Match(Box::new(clone_term(s)), out)
        },
        Term::As(a, se) => Term::As(Box::new(clone_term(a)), clone_sort_expr(se)),
    }
}

pub fn clone_pattern(p: &MatchPattern) -> (r: MatchPattern)
    ensures r@ == p@,
{
    match p {
        MatchPattern::Constructor(c, vs) => MatchPattern::Constructor(c.clone(), clone_strings(vs)),
        MatchPattern::Atom(a) => MatchPattern::Atom(a.clone()),
    }
}

#[verifier::loop_isolation(false)]
pub fn clone_formula(f: &Formula) -> (r: Formula)
    ensures r@ == f@,
    decreases f,
{
    match f {
        Formula::Eq(a, b) => Formula::Eq(clone_term(a), clone_term(b)),
        Formula::Not(g) => Formula::Not(Box::new(clone_formula(g))),
        Formula::And(fs) => Formula::And(clone_formulas(fs)),
        Formula::Or(fs) => Formula::Or(clone_formulas(fs)),
        Formula::Implies(a, b) => Formula::Implies(Box::new(clone_formula(a)), Box::new(clone_formula(b))),
        Formula::Ite(c, a, b) => Formula::Ite(Box::new(clone_formula(c)), Box::new(clone_formula(a)), Box::new(clone_formula(b))),
        Formula::IsTester(c, t) => Formula::IsTester(c.clone(), clone_term(t)),
        Formula::True => Formula::True,
        Formula::False => Formula::False,
    }
}

#[verifier::loop_isolation(false)]
pub fn clone_formulas(fs: &Vec<Formula>) -> (r: Vec<Formula>)
    ensures formulas_v(r@) == formulas_v(fs@),
    decreases fs, 0int,
{
    let mut out: Vec<Formula> = Vec::new();
    let mut i: usize = 0;
    while i < fs.len()
        invariant i <= fs.len(), out.len() == i,
            forall|j: int| 0 <= j < i ==> formula_v(out@[j]) == formula_v(fs@[j]),
        decreases fs.len() - i,
    {
        out.push(clone_formula(&fs[i]));
        i += 1;
    }
    proof {
        lemma_formulas_v(out@);
        lemma_formulas_v(fs@);
        assert(formulas_v(out@) =~= formulas_v(fs@));
    }
    out
}

} // verus!
