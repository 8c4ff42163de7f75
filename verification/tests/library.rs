//! Tests of the library's parts on concrete values: the reader, the parser, the printer,
//! sort unification, substitution, match desugaring, the rewrite rules, sessions.
use qf_adt::ast::{Command, Term};
use qf_adt::parser::{is_known_command, parse_formula, parse_program, parse_term};
use qf_adt::print::{format_formula, format_term};
use qf_adt::rules::{boolean_rule_texts, datatype_rule_texts};
use qf_adt::sexp::{parse_all_sexps, parse_sexp, tokenize};
use qf_adt::solver::{process_program_collect, Outcome, Session};
use qf_adt::sorts::{parse_sort_name, sort_to_text, substitute_sort, unify_sorts, Sort, StrMap};
use qf_adt::subst::subst_term;
use qf_adt::text::{int_to_text, parse_i64_text, usize_to_text};

fn run(input: &str) -> Result<Vec<String>, String> {
    let program = parse_program(input)?;
    process_program_collect(&program)
}

fn term_of(text: &str) -> Term {
    let sexps = parse_all_sexps(text).unwrap();
    parse_term(&sexps[0]).unwrap()
}

fn strings(xs: &[&str]) -> Vec<String> {
    xs.iter().map(|s| s.to_string()).collect()
}

/// Runs the commands of a script in one session, answering queries, and gives back the
/// outcome of each.
fn session_outcomes(input: &str) -> Vec<Result<Outcome, String>> {
    let program = parse_program(input).unwrap();
    let mut session = Session::new();
    let mut out = Vec::new();
    for cmd in &program.commands {
        out.push(session.run_command(cmd, true));
    }
    out
}

const LIST: &str = "(declare-datatype List ((Nil) (Cons (head Int) (tail List))))";

// --------------------------------------------------------------------------
// Reader
// --------------------------------------------------------------------------

#[test]
fn tokenize_splits_parentheses_and_words() {
    assert_eq!(
        tokenize("(assert (= x 1))"),
        strings(&["(", "assert", "(", "=", "x", "1", ")", ")"])
    );
}

#[test]
fn tokenize_skips_line_comments() {
    assert_eq!(
        tokenize("(check-sat) ; the rest is ignored ( )\n(exit)"),
        strings(&["(", "check-sat", ")", "(", "exit", ")"])
    );
}

#[test]
fn tokenize_keeps_strings_and_quoted_symbols_whole() {
    assert_eq!(
        tokenize("(echo \"a b\" |x y|)"),
        strings(&["(", "echo", "\"a b\"", "|x y|", ")"])
    );
}

#[test]
fn tokens_are_never_blank() {
    let tokens = tokenize("  (\ta \n b ) ;c\n\r\n  ");
    assert_eq!(tokens, strings(&["(", "a", "b", ")"]));
    assert!(tokens.iter().all(|t| !t.trim().is_empty()));
}

#[test]
fn reading_reports_unbalanced_parentheses() {
    assert_eq!(parse_all_sexps("(a (b c)").map(|v| v.len()), Err("missing ')'".to_string()));
    assert_eq!(parse_all_sexps(")").map(|v| v.len()), Err("unexpected ')'".to_string()));
}

#[test]
fn reading_past_the_end_is_refused() {
    let tokens: Vec<String> = Vec::new();
    let mut pos: usize = 0;
    assert_eq!(parse_sexp(&tokens, &mut pos).map(|_| ()), Err("unexpected end of input".to_string()));
}

#[test]
fn reading_gives_one_expression_per_top_level_list() {
    assert_eq!(parse_all_sexps("(a) b (c (d))").unwrap().len(), 3);
}

// --------------------------------------------------------------------------
// Parser
// --------------------------------------------------------------------------

#[test]
fn parser_refuses_bad_arities() {
    assert_eq!(parse_program("(assert (= x))").map(|_| ()), Err("= expects exactly 2 arguments".to_string()));
    assert_eq!(
        parse_program("(assert (and (= x y)))").map(|_| ()),
        Err("and expects at least 2 arguments".to_string())
    );
    assert_eq!(
        parse_program("(declare-const x)").map(|_| ()),
        Err("declare-const expects 2 arguments: name and sort".to_string())
    );
    assert_eq!(
        parse_program("(assert (distinct x))").map(|_| ()),
        Err("distinct expects at least 2 arguments".to_string())
    );
}

#[test]
fn parser_errors_show_the_offending_expression() {
    let sexps = parse_all_sexps("(x (y))").unwrap();
    assert_eq!(
        qf_adt::parser::atom(&sexps[0]).map(|s| s.to_string()),
        Err("expected atom, got List([Atom(\"x\"), List([Atom(\"y\")])])".to_string())
    );
    assert_eq!(parse_program("check-sat").map(|_| ()), Err("expected command, got Atom(\"check-sat\")".to_string()));
}

#[test]
fn parser_reads_numerals_as_integers() {
    match term_of("-42") {
        Term::Int(n) => assert_eq!(n, -42),
        _ => panic!("expected an integer"),
    }
    match term_of("x1") {
        Term::Var(v) => assert_eq!(v, "x1"),
        _ => panic!("expected a variable"),
    }
}

#[test]
fn parser_reads_push_and_pop_counts() {
    let p = parse_program("(push 2) (pop 1) (check-sat) (exit)").unwrap();
    assert_eq!(p.commands.len(), 4);
    assert!(matches!(p.commands[0], Command::Push(2)));
    assert!(matches!(p.commands[1], Command::Pop(1)));
    assert!(matches!(p.commands[2], Command::CheckSat));
    assert!(matches!(p.commands[3], Command::Exit));
}

// --------------------------------------------------------------------------
// Printer
// --------------------------------------------------------------------------

#[test]
fn terms_print_back_as_written() {
    let t = term_of("(ite (= x 1) (f x 2) (as nil (List Int)))");
    assert_eq!(format_term(&t), "(ite (= x 1) (f x 2) (as nil (List Int)))");
    assert_eq!(format_term(&term_of("(match l (Nil 0) ((Cons h t) h))")), "(match l ...)");
}

#[test]
fn distinct_prints_as_pairwise_disequalities() {
    let e = parse_all_sexps("(distinct a b c)").unwrap();
    let f = parse_formula(&e[0]).unwrap();
    assert_eq!(format_formula(&f), "(and (not (= a b)) (not (= a c)) (not (= b c)))");
    let e2 = parse_all_sexps("(distinct a b)").unwrap();
    assert_eq!(format_formula(&parse_formula(&e2[0]).unwrap()), "(not (= a b))");
}

#[test]
fn formulas_print_with_their_connectives() {
    let e = parse_all_sexps("(=> (is-Cons l) (or true (ite false true (not (= a b)))))").unwrap();
    let f = parse_formula(&e[0]).unwrap();
    assert_eq!(format_formula(&f), "(=> (is-Cons l) (or true (ite false true (not (= a b)))))");
}

// --------------------------------------------------------------------------
// Sorts
// --------------------------------------------------------------------------

#[test]
fn built_in_sort_names() {
    assert!(matches!(parse_sort_name("Int"), Sort::Int));
    assert!(matches!(parse_sort_name("Bool"), Sort::Bool));
    match parse_sort_name("Tree") {
        Sort::Named(n) => assert_eq!(n, "Tree"),
        _ => panic!("expected a named sort"),
    }
}

#[test]
fn sorts_print_in_prefix_form() {
    let s = Sort::App("Pair".to_string(), vec![Sort::Int, Sort::App("List".to_string(), vec![Sort::Bool])]);
    assert_eq!(sort_to_text(&s), "(Pair Int (List Bool))");
    assert_eq!(sort_to_text(&Sort::Param("T".to_string())), "T");
}

#[test]
fn unification_binds_parameters_and_substitution_uses_them() {
    let pattern = Sort::App("List".to_string(), vec![Sort::Param("T".to_string())]);
    let concrete = Sort::App("List".to_string(), vec![Sort::Int]);
    let mut bindings: StrMap<Sort> = StrMap::new();
    assert_eq!(unify_sorts(&pattern, &concrete, &mut bindings), Ok(()));
    assert!(matches!(bindings.get("T"), Some(Sort::Int)));
    // what unification solved makes the pattern equal to the concrete sort
    assert_eq!(sort_to_text(&substitute_sort(&pattern, &bindings)), "(List Int)");
}

#[test]
fn unification_reports_conflicts_and_mismatches() {
    let pair = Sort::App("Pair".to_string(), vec![Sort::Param("T".to_string()), Sort::Param("T".to_string())]);
    let concrete = Sort::App("Pair".to_string(), vec![Sort::Int, Sort::Bool]);
    let mut bindings: StrMap<Sort> = StrMap::new();
    assert_eq!(
        unify_sorts(&pair, &concrete, &mut bindings),
        Err("类型参数 'T' 绑定冲突: Int vs Bool".to_string())
    );
    let mut empty: StrMap<Sort> = StrMap::new();
    assert_eq!(unify_sorts(&Sort::Int, &Sort::Bool, &mut empty), Err("sort 不匹配: Int vs Bool".to_string()));
}

#[test]
fn substitution_leaves_unbound_parameters() {
    let bindings: StrMap<Sort> = StrMap::new();
    assert_eq!(sort_to_text(&substitute_sort(&Sort::Param("U".to_string()), &bindings)), "U");
}

// --------------------------------------------------------------------------
// Substitution and match desugaring
// --------------------------------------------------------------------------

#[test]
fn substitution_replaces_free_occurrences() {
    let t = term_of("(f x (g y x))");
    let r = subst_term(&t, "x", &term_of("3"));
    assert_eq!(format_term(&r), "(f 3 (g y 3))");
}

#[test]
fn substituting_a_variable_by_itself_changes_nothing() {
    let t = term_of("(ite (= x 1) (f x) (as x Int))");
    let r = subst_term(&t, "x", &term_of("x"));
    assert_eq!(format_term(&r), format_term(&t));
}

#[test]
fn match_desugars_to_testers_and_selectors() {
    let program = parse_program(LIST).unwrap();
    let mut session = Session::new();
    assert!(session.run_command(&program.commands[0], false).is_ok());
    match term_of("(match x (Nil 0) ((Cons h t) h))") {
        Term::Match(scrutinee, cases) => {
            let d = session.ctx.desugar_match(&scrutinee, &cases).unwrap();
            assert_eq!(format_term(&d), "(ite (is-Nil x) 0 (head x))");
        }
        _ => panic!("expected a match"),
    }
}

#[test]
fn match_with_a_catch_all_variable() {
    let program = parse_program(LIST).unwrap();
    let mut session = Session::new();
    assert!(session.run_command(&program.commands[0], false).is_ok());
    match term_of("(match x ((Cons h t) (f h t)) (other other))") {
        Term::Match(scrutinee, cases) => {
            let d = session.ctx.desugar_match(&scrutinee, &cases).unwrap();
            assert_eq!(format_term(&d), "(ite (is-Cons x) (f (head x) (tail x)) x)");
        }
        _ => panic!("expected a match"),
    }
}

#[test]
fn match_on_an_unknown_constructor_is_refused() {
    let session = Session::new();
    match term_of("(match x ((Foo a) a))") {
        Term::Match(scrutinee, cases) => {
            assert_eq!(
                session.ctx.desugar_match(&scrutinee, &cases).map(|_| ()),
                Err("match 中遇到未知构造器: Foo".to_string())
            );
        }
        _ => panic!("expected a match"),
    }
}

#[test]
fn a_pattern_with_the_wrong_number_of_variables_is_refused() {
    let mut session = Session::new();
    let program = parse_program(LIST).unwrap();
    assert!(session.run_command(&program.commands[0], true).is_ok());
    match term_of("(match x ((Cons h) h) (Nil 0))") {
        Term::Match(scrutinee, cases) => {
            assert_eq!(
                session.ctx.desugar_match(&scrutinee, &cases).map(|_| ()),
                Err("构造器 Cons 的 pattern 参数数量 (1) 与 field 数量 (2) 不匹配".to_string())
            );
        }
        _ => panic!("expected a match"),
    }
}

#[test]
fn a_pattern_binds_its_variables_to_selectors() {
    let mut session = Session::new();
    let program = parse_program(LIST).unwrap();
    assert!(session.run_command(&program.commands[0], true).is_ok());
    match term_of("(match x ((Cons h t) (f h t)) (Nil x))") {
        Term::Match(scrutinee, cases) => {
            let body = session.ctx.substitute_pattern(&scrutinee, &cases[0].pattern, &cases[0].body).unwrap();
            assert_eq!(format_term(&body), "(f (head x) (tail x))");
            let nil = session.ctx.substitute_pattern(&scrutinee, &cases[1].pattern, &cases[1].body).unwrap();
            assert_eq!(format_term(&nil), "x");
        }
        _ => panic!("expected a match"),
    }
}

#[test]
fn pattern_variables_are_bound_all_at_once() {
    let mut session = Session::new();
    let program = parse_program(LIST).unwrap();
    assert!(session.run_command(&program.commands[0], true).is_ok());
    match term_of("(match t ((Cons h t) (f h t)) (Nil t))") {
        Term::Match(scrutinee, cases) => {
            let body = session.ctx.substitute_pattern(&scrutinee, &cases[0].pattern, &cases[0].body).unwrap();
            assert_eq!(format_term(&body), "(f (head t) (tail t))");
            let d = session.ctx.desugar_match(&scrutinee, &cases).unwrap();
            assert_eq!(format_term(&d), "(ite (is-Cons t) (f (head t) (tail t)) t)");
        }
        _ => panic!("expected a match"),
    }
}

#[test]
fn the_same_formula_added_twice_gets_one_class() {
    let mut session = Session::new();
    let sexps = parse_all_sexps("(and (= a b) (not c))").unwrap();
    let f = parse_formula(&sexps[0]).unwrap();
    let first = session.ctx.add_formula(&f).unwrap();
    let second = session.ctx.add_formula(&f).unwrap();
    assert_eq!(first, second);
    let t = term_of("(g a b)");
    assert_eq!(session.ctx.add_term(&t), session.ctx.add_term(&t));
}

#[test]
fn a_script_stops_at_a_match_on_an_unknown_constructor() {
    let script = format!(
        "{} (declare-const l List) (assert (= 0 (match l ((Foo a) a) (Nil 0)))) (check-sat)",
        LIST
    );
    assert_eq!(run(&script), Err("类型错误: match 中未知构造器 'Foo'".to_string()));
}

// --------------------------------------------------------------------------
// Rewrite rules
// --------------------------------------------------------------------------

#[test]
fn there_are_seventeen_boolean_rules_with_reflexivity() {
    let rs = boolean_rule_texts();
    assert_eq!(rs.len(), 17);
    assert!(rs.iter().any(|r| r.name == "eq-refl" && r.lhs == "(= ?x ?x)" && r.rhs == "true"));
    assert!(rs.iter().any(|r| r.name == "not-not" && r.lhs == "(not (not ?x))" && r.rhs == "?x"));
}

#[test]
fn list_gets_selector_and_tester_rules() {
    let program = parse_program(LIST).unwrap();
    let dts = match &program.commands[0] {
        Command::DeclareDatatypes(dts) => dts,
        _ => panic!("expected a datatype declaration"),
    };
    let rs: Vec<(String, String, String)> = datatype_rule_texts(&dts[0])
        .into_iter()
        .map(|r| (r.name, r.lhs, r.rhs))
        .collect();
    let expect = |n: &str, l: &str, r: &str| (n.to_string(), l.to_string(), r.to_string());
    assert_eq!(
        rs,
        vec![
            expect("head_Cons", "(head (Cons ?x0 ?x1))", "?x0"),
            expect("tail_Cons", "(tail (Cons ?x0 ?x1))", "?x1"),
            expect("tester-pos-Nil", "(is-Nil Nil)", "true"),
            expect("tester-neg-Nil-Cons", "(is-Nil (Cons ?v0 ?v1))", "false"),
            expect("tester-pos-Cons", "(is-Cons (Cons ?v0 ?v1))", "true"),
            expect("tester-neg-Cons-Nil", "(is-Cons Nil)", "false"),
        ]
    );
}

#[test]
fn a_rule_that_egg_cannot_read_is_reported() {
    // a constructor named like a pattern variable cannot head a pattern
    assert_eq!(run("(declare-datatype T ((?c (f Int))))"), Err("无法创建 rewrite rule: f_?c".to_string()));
}

// --------------------------------------------------------------------------
// Type errors
// --------------------------------------------------------------------------

#[test]
fn unknown_sorts_and_symbols_are_type_errors() {
    assert_eq!(run("(declare-const x Foo)"), Err("类型错误: 未知的 sort 'Foo'".to_string()));
    assert_eq!(run("(assert (= y 1))"), Err("类型错误: 未声明的符号 'y'".to_string()));
}

#[test]
fn equating_different_sorts_is_a_type_error() {
    assert_eq!(
        run("(declare-const x Int) (assert (= x true))"),
        Err("类型错误: '=' 两侧 sort 不一致: Int vs Bool".to_string())
    );
}

// --------------------------------------------------------------------------
// Sessions
// --------------------------------------------------------------------------

#[test]
fn answers_stop_at_exit() {
    assert_eq!(run("(check-sat) (exit) (check-sat)"), Ok(strings(&["sat"])));
    assert_eq!(run("(set-logic QF_DT) (check-sat) (check-sat)"), Ok(strings(&["sat", "sat"])));
}

#[test]
fn different_constructors_are_unequal() {
    let script = format!(
        "{} (declare-const l List) (assert (= l Nil)) (assert (= l (Cons 1 Nil))) (check-sat)",
        LIST
    );
    assert_eq!(run(&script), Ok(strings(&["unsat"])));
}

#[test]
fn unsat_stays_unsat_as_assertions_are_added() {
    let script = format!(
        "{} (declare-const l List) (assert (= l Nil)) (assert (= l (Cons 1 Nil))) (check-sat) \
         (declare-const y Int) (assert (= y 3)) (check-sat)",
        LIST
    );
    assert_eq!(run(&script), Ok(strings(&["unsat", "unsat"])));
}

#[test]
fn disequality_on_uninterpreted_sort() {
    let script = "(declare-sort U 0) (declare-const a U) (declare-const b U) \
                  (assert (not (= a b))) (check-sat) (assert (= a b)) (check-sat)";
    assert_eq!(run(script), Ok(strings(&["sat", "unsat"])));
}

#[test]
fn an_equation_and_its_negation_are_refuted_in_either_order() {
    let eq_first = "(declare-sort U 0) (declare-const a U) (declare-const b U) \
                    (assert (= a b)) (declare-const c U) (check-sat) (assert (not (= a b))) (check-sat)";
    assert_eq!(run(eq_first), Ok(strings(&["sat", "unsat"])));
    let neq_first = "(declare-sort U 0) (declare-const a U) (declare-const b U) \
                     (assert (not (= b a))) (declare-fun f (U) U) (assert (= b a)) (check-sat)";
    assert_eq!(run(neq_first), Ok(strings(&["unsat"])));
}

#[test]
fn a_conjunction_is_asserted_part_by_part() {
    let script = "(declare-sort U 0) (declare-const a U) (declare-const b U) (declare-const c U) \
                  (assert (and (= a b) (= b c))) (check-sat) (assert (not (= a c))) (check-sat)";
    assert_eq!(run(script), Ok(strings(&["sat", "unsat"])));
}

#[test]
fn asserting_false_is_unsatisfiable() {
    assert_eq!(run("(assert false) (check-sat)"), Ok(strings(&["unsat"])));
    assert_eq!(run("(assert true) (check-sat)"), Ok(strings(&["sat"])));
}

#[test]
fn equal_arguments_give_equal_applications() {
    let script = "(declare-sort U 0) (declare-fun f (U) U) (declare-const a U) (declare-const b U) \
                  (assert (= a b)) (assert (not (= (f a) (f b)))) (check-sat)";
    assert_eq!(run(script), Ok(strings(&["unsat"])));
}

#[test]
fn pop_restores_the_state_before_push() {
    let script = format!(
        "{} (declare-const l List) (assert (= l Nil)) (push 2) (assert (= l (Cons 1 Nil))) (check-sat) \
         (pop 2) (check-sat)",
        LIST
    );
    assert_eq!(run(&script), Ok(strings(&["unsat", "sat"])));
}

#[test]
fn popping_more_than_was_pushed_is_refused() {
    assert_eq!(run("(push 1) (pop 2)"), Err("pop 2: 断言栈只有 1 层".to_string()));
}

#[test]
fn popping_zero_levels_changes_nothing() {
    assert_eq!(run("(pop 0) (check-sat)"), Ok(strings(&["sat"])));
    assert_eq!(run("(push 1) (pop 0) (check-sat) (pop 1) (check-sat)"), Ok(strings(&["sat", "sat"])));
}

#[test]
fn a_declared_sort_keeps_its_arity() {
    assert_eq!(
        run("(declare-sort S 1) (declare-const x S)"),
        Err("类型错误: sort 'S' 需要 1 个类型参数".to_string())
    );
    assert_eq!(run("(declare-sort S 1) (declare-const x (S Int)) (check-sat)"), Ok(strings(&["sat"])));
    assert_eq!(run("(declare-sort U 0) (declare-const x U) (check-sat)"), Ok(strings(&["sat"])));
}

#[test]
fn push_and_pop_on_a_session() {
    let mut session = Session::new();
    session.push(3);
    assert_eq!(session.stack.len(), 3);
    assert_eq!(session.pop(2), Ok(()));
    assert_eq!(session.stack.len(), 1);
    assert_eq!(session.pop(2), Err("pop 2: 断言栈只有 1 层".to_string()));
    assert_eq!(session.stack.len(), 1);
}

#[test]
fn models_need_a_satisfiable_answer_first() {
    let outcomes = session_outcomes("(declare-const x Int) (get-model)");
    match &outcomes[1] {
        Ok(Outcome::Model(m)) => assert_eq!(m, &Err("get-model: 尚未执行 check-sat".to_string())),
        _ => panic!("expected a model answer"),
    }
    let script = format!(
        "{} (declare-const l List) (assert (= l Nil)) (assert (= l (Cons 1 Nil))) (check-sat) (get-value (l))",
        LIST
    );
    let outcomes = session_outcomes(&script);
    match &outcomes[5] {
        Ok(Outcome::Values(v)) => assert_eq!(v, &Err("get-value: 最近 check-sat 返回 unsat, 非 sat".to_string())),
        _ => panic!("expected a value answer"),
    }
}

#[test]
fn a_model_lists_each_constant_with_a_value_of_its_class() {
    let outcomes = session_outcomes("(declare-const y Int) (declare-const x Int) (assert (= x 5)) (check-sat) (get-model)");
    match &outcomes[3] {
        Ok(Outcome::Answer(a)) => assert_eq!(a, "sat"),
        _ => panic!("expected an answer"),
    }
    match &outcomes[4] {
        Ok(Outcome::Model(Ok(m))) => {
            let ok_x = m == "(\n  (define-fun x () Int 5)\n  (define-fun y () Int y)\n)"
                || m == "(\n  (define-fun x () Int x)\n  (define-fun y () Int y)\n)";
            assert!(ok_x, "unexpected model {}", m);
        }
        _ => panic!("expected a model"),
    }
}

#[test]
fn a_value_is_the_smallest_term_of_its_class() {
    // `(head l)` is in the e-graph before saturation, which makes it equal to 1
    let script = format!(
        "{} (declare-const l List) (assert (= l (Cons 1 Nil))) (assert (= (head l) (head l))) (check-sat) \
         (get-value ((head l)))",
        LIST
    );
    let outcomes = session_outcomes(&script);
    match &outcomes[5] {
        Ok(Outcome::Values(Ok(v))) => assert_eq!(v, "(\n  ((head l) 1)\n)"),
        _ => panic!("expected values"),
    }
}

// --------------------------------------------------------------------------
// Numerals
// --------------------------------------------------------------------------

#[test]
fn numerals_read_and_write() {
    assert_eq!(parse_i64_text(&"-42".to_string()), Some(-42));
    assert_eq!(parse_i64_text(&"+7".to_string()), Some(7));
    assert_eq!(parse_i64_text(&"12a".to_string()), None);
    assert_eq!(parse_i64_text(&"".to_string()), None);
    assert_eq!(parse_i64_text(&"9223372036854775808".to_string()), None);
    assert_eq!(int_to_text(-7), "-7");
    assert_eq!(int_to_text(i64::MIN), "-9223372036854775808");
    assert_eq!(usize_to_text(0), "0");
    assert_eq!(usize_to_text(120), "120");
}

#[test]
fn known_and_unknown_command_names() {
    assert!(is_known_command("check-sat"));
    assert!(is_known_command("set-info"));
    assert!(is_known_command("define-fun"));
    assert!(is_known_command("check-sat-assuming"));
    assert!(!is_known_command("frobnicate"));
    assert!(!is_known_command(""));
    let program = parse_program("(frobnicate 1) (set-info :x y)").unwrap();
    match (&program.commands[0], &program.commands[1]) {
        (Command::Skip(a), Command::Skip(b)) => {
            assert_eq!(a, "frobnicate");
            assert_eq!(b, "set-info");
        }
        _ => panic!("both commands are skipped"),
    }
}

#[test]
fn pop_restores_the_session_before_push() {
    let program = parse_program(
        "(declare-datatype Color ((Red) (Green))) (declare-const c Color) (assert (= c Red)) \
         (push 1) (declare-const d Color) (assert (not (= c Red))) (assert (distinct c d)) (check-sat) (pop 1)",
    )
    .unwrap();
    let mut session = Session::new();
    for cmd in &program.commands[..3] {
        assert!(session.run_command(cmd, false).is_ok());
    }
    let diseq_before = session.ctx.disequalities.clone();
    let consts_before = session.ctx.declared_consts.entries.len();
    let flag_before = session.ctx.contradiction;
    let depth_before = session.stack.len();
    for cmd in &program.commands[3..8] {
        assert!(session.run_command(cmd, false).is_ok());
    }
    assert_eq!(session.stack.len(), depth_before + 1);
    assert!(session.ctx.disequalities.len() > diseq_before.len());
    assert!(session.run_command(&program.commands[8], false).is_ok());
    assert_eq!(session.ctx.disequalities, diseq_before);
    assert_eq!(session.ctx.declared_consts.entries.len(), consts_before);
    assert_eq!(session.ctx.contradiction, flag_before);
    assert_eq!(session.stack.len(), depth_before);
}

#[test]
fn unsat_stays_unsat_after_more_declarations_and_assertions() {
    let answers = run(
        "(declare-datatype Color ((Red) (Green))) (declare-const c Color) \
         (assert (= c Red)) (assert (= c Green)) (check-sat) \
         (declare-const d Color) (assert (= d Red)) (check-sat) \
         (declare-datatype Box ((box (unbox Color)))) (check-sat)",
    )
    .unwrap();
    assert_eq!(answers, vec!["unsat", "unsat", "unsat"]);
}

#[test]
fn printed_term_reads_back_as_itself() {
    let t = Term::App(
        "Cons".to_string(),
        vec![Term::Var("x".to_string()), Term::App("f".to_string(), vec![Term::Var("y".to_string())])],
    );
    let text = format_term(&t);
    assert_eq!(text, "(Cons x (f y))");
    let tokens = tokenize(&text);
    let mut pos = 0;
    let sexp = parse_sexp(&tokens, &mut pos).unwrap();
    assert_eq!(pos, tokens.len());
    let back = parse_term(&sexp).unwrap();
    match back {
        Term::App(f, args) => {
            assert_eq!(f, "Cons");
            assert_eq!(args.len(), 2);
            assert!(matches!(&args[0], Term::Var(x) if x == "x"));
            match &args[1] {
                Term::App(g, inner) => {
                    assert_eq!(g, "f");
                    assert_eq!(inner.len(), 1);
                    assert!(matches!(&inner[0], Term::Var(y) if y == "y"));
                }
                _ => panic!("the second argument is an application"),
            }
        }
        _ => panic!("the term is an application"),
    }
    assert_eq!(format_term(&parse_term(&sexp).unwrap()), text);
}

#[test]
fn printed_numeral_reads_back_as_itself() {
    let t = Term::App("Cons".to_string(), vec![Term::Int(-1), Term::Var("Nil".to_string())]);
    let text = format_term(&t);
    assert_eq!(text, "(Cons -1 Nil)");
    let tokens = tokenize(&text);
    let mut pos = 0;
    let back = parse_term(&parse_sexp(&tokens, &mut pos).unwrap()).unwrap();
    assert_eq!(pos, tokens.len());
    match back {
        Term::App(f, args) => {
            assert_eq!(f, "Cons");
            assert!(matches!(args[0], Term::Int(-1)));
            assert!(matches!(&args[1], Term::Var(n) if n == "Nil"));
        }
        _ => panic!("the term is an application"),
    }
}
