//! The scenarios of the solver: each runs a whole SMT-LIB script and checks the answers.
use qf_adt::parser::parse_program;
use qf_adt::solver::process_program_collect;
/// 辅助函数: 运行 SMT-LIB 脚本，返回所有 check-sat 结果
fn run(input: &str) -> Result<Vec<String>, String> {
    let program = parse_program(input)?;
    process_program_collect(&program)
}

/// 辅助函数: 运行脚本并断言恰好有一个 check-sat 结果
fn run_expect_one(input: &str) -> Result<String, String> {
    let results = run(input)?;
    assert_eq!(results.len(), 1, "期望恰好 1 个 check-sat 结果，实际有 {}", results.len());
    Ok(results.into_iter().next().unwrap())
}

// ====================================================================
// 1. Selector-Constructor 公理: sel_i(C(x1,...,xn)) = x_i
// ====================================================================

#[test]
fn test_selector_head_of_cons() {
    // head(Cons(42, Nil)) = 42 应该可满足
    let r = run_expect_one(r#"
        (set-logic QF_DT)
        (declare-datatype List ((Nil) (Cons (head Int) (tail List))))
        (assert (= (head (Cons 42 Nil)) 42))
        (check-sat)
    "#).unwrap();
    assert_eq!(r, "sat", "head(Cons(42, Nil)) = 42 应为 sat");
}

#[test]
fn test_selector_head_of_cons_unsat() {
    // head(Cons(42, Nil)) ≠ 42 应该不可满足
    let r = run_expect_one(r#"
        (set-logic QF_DT)
        (declare-datatype List ((Nil) (Cons (head Int) (tail List))))
        (assert (not (= (head (Cons 42 Nil)) 42)))
        (check-sat)
    "#).unwrap();
    assert_eq!(r, "unsat", "head(Cons(42, Nil)) ≠ 42 应为 unsat");
}

#[test]
fn test_selector_tail_of_cons() {
    // tail(Cons(1, Nil)) = Nil 应该可满足
    let r = run_expect_one(r#"
        (set-logic QF_DT)
        (declare-datatype List ((Nil) (Cons (head Int) (tail List))))
        (assert (= (tail (Cons 1 Nil)) Nil))
        (check-sat)
    "#).unwrap();
    assert_eq!(r, "sat", "tail(Cons(1, Nil)) = Nil 应为 sat");
}

#[test]
fn test_selector_tail_not_nil_unsat() {
    // tail(Cons(1, Nil)) ≠ Nil 应该不可满足
    let r = run_expect_one(r#"
        (set-logic QF_DT)
        (declare-datatype List ((Nil) (Cons (head Int) (tail List))))
        (assert (not (= (tail (Cons 1 Nil)) Nil)))
        (check-sat)
    "#).unwrap();
    assert_eq!(r, "unsat", "tail(Cons(1, Nil)) ≠ Nil 应为 unsat");
}

#[test]
fn test_selector_chained() {
    // head(tail(Cons(1, Cons(2, Nil)))) = 2
    // 需要两步 rewrite: tail(Cons(1, Cons(2, Nil))) => Cons(2, Nil)
    //                   head(Cons(2, Nil)) => 2
    let r = run_expect_one(r#"
        (set-logic QF_DT)
        (declare-datatype List ((Nil) (Cons (head Int) (tail List))))
        (assert (not (= (head (tail (Cons 1 (Cons 2 Nil)))) 2)))
        (check-sat)
    "#).unwrap();
    assert_eq!(r, "unsat", "head(tail(Cons(1, Cons(2, Nil)))) ≠ 2 应为 unsat");
}

// ====================================================================
// 2. Constructor Disjointness 公理: C_i ≠ C_j
// ====================================================================

#[test]
fn test_disjoint_nil_cons() {
    // Nil ≠ Cons(1, Nil) — 不同构造子产生不同值
    // 这通过 tester 规则间接验证:
    // is-Nil(Nil)=true, is-Nil(Cons(...))=false,
    // 若 Nil = Cons(...) 则 true = false → unsat
    let r = run_expect_one(r#"
        (set-logic QF_DT)
        (declare-datatype List ((Nil) (Cons (head Int) (tail List))))
        (declare-const x List)
        (assert (= x Nil))
        (assert (= x (Cons 1 Nil)))
        (check-sat)
    "#).unwrap();
    assert_eq!(r, "unsat", "x = Nil ∧ x = Cons(1, Nil) 应为 unsat (构造子互斥)");
}

#[test]
fn test_disjoint_enum_constructors() {
    // 枚举类型: 三个不同构造子
    let r = run_expect_one(r#"
        (set-logic QF_DT)
        (declare-datatype Color ((Red) (Green) (Blue)))
        (declare-const c Color)
        (assert (= c Red))
        (assert (= c Green))
        (check-sat)
    "#).unwrap();
    assert_eq!(r, "unsat", "c = Red ∧ c = Green 应为 unsat (枚举构造子互斥)");
}

#[test]
fn test_disjoint_three_way() {
    // 同时断言三种不同构造子
    let r = run_expect_one(r#"
        (set-logic QF_DT)
        (declare-datatype Color ((Red) (Green) (Blue)))
        (declare-const c Color)
        (assert (= c Red))
        (assert (not (= c Green)))
        (check-sat)
    "#).unwrap();
    assert_eq!(r, "sat", "c = Red ∧ c ≠ Green 应为 sat");
}

// ====================================================================
// 3. Tester 语义: is-C(C(...)) = true, is-C(D(...)) = false
// ====================================================================

#[test]
fn test_tester_positive_nullary() {
    // is-Nil(Nil) = true
    let r = run_expect_one(r#"
        (set-logic QF_DT)
        (declare-datatype List ((Nil) (Cons (head Int) (tail List))))
        (assert (not (is-Nil Nil)))
        (check-sat)
    "#).unwrap();
    assert_eq!(r, "unsat", "¬is-Nil(Nil) 应为 unsat (正向 tester)");
}

#[test]
fn test_tester_positive_nary() {
    // is-Cons(Cons(1, Nil)) = true
    let r = run_expect_one(r#"
        (set-logic QF_DT)
        (declare-datatype List ((Nil) (Cons (head Int) (tail List))))
        (assert (not (is-Cons (Cons 1 Nil))))
        (check-sat)
    "#).unwrap();
    assert_eq!(r, "unsat", "¬is-Cons(Cons(1,Nil)) 应为 unsat (正向 tester)");
}

#[test]
fn test_tester_negative() {
    // is-Nil(Cons(1, Nil)) = false
    let r = run_expect_one(r#"
        (set-logic QF_DT)
        (declare-datatype List ((Nil) (Cons (head Int) (tail List))))
        (assert (is-Nil (Cons 1 Nil)))
        (check-sat)
    "#).unwrap();
    assert_eq!(r, "unsat", "is-Nil(Cons(1,Nil)) 应为 unsat (反向 tester)");
}

#[test]
fn test_tester_negative_reverse() {
    // is-Cons(Nil) = false
    let r = run_expect_one(r#"
        (set-logic QF_DT)
        (declare-datatype List ((Nil) (Cons (head Int) (tail List))))
        (assert (is-Cons Nil))
        (check-sat)
    "#).unwrap();
    assert_eq!(r, "unsat", "is-Cons(Nil) 应为 unsat (反向 tester)");
}

#[test]
fn test_tester_with_variable() {
    // x = Cons(1, Nil) → is-Cons(x) 应为 true
    let r = run_expect_one(r#"
        (set-logic QF_DT)
        (declare-datatype List ((Nil) (Cons (head Int) (tail List))))
        (declare-const x List)
        (assert (= x (Cons 1 Nil)))
        (assert (not (is-Cons x)))
        (check-sat)
    "#).unwrap();
    assert_eq!(r, "unsat", "x = Cons(1,Nil) ∧ ¬is-Cons(x) 应为 unsat");
}

// ====================================================================
// 4. Constructor Injectivity: C(a,b) = C(c,d) → a=c ∧ b=d
// ====================================================================

#[test]
fn test_injectivity_via_selector() {
    // Cons(a, Nil) = Cons(b, Nil) 且 a ≠ b → unsat
    // 经过 selector rewrite:
    //   head(Cons(a, Nil)) = a, head(Cons(b, Nil)) = b
    //   Cons(a, Nil) = Cons(b, Nil) → head 相同 → a = b
    //   但 a ≠ b → 矛盾
    let r = run_expect_one(r#"
        (set-logic QF_DT)
        (declare-datatype List ((Nil) (Cons (head Int) (tail List))))
        (declare-const a Int)
        (declare-const b Int)
        (assert (= (Cons a Nil) (Cons b Nil)))
        (assert (not (= a b)))
        (check-sat)
    "#).unwrap();
    assert_eq!(r, "unsat", "Cons(a,Nil)=Cons(b,Nil) ∧ a≠b 应为 unsat (单射性)");
}

#[test]
fn test_injectivity_second_field() {
    // Cons(1, xs) = Cons(1, ys) 且 xs ≠ ys → unsat
    let r = run_expect_one(r#"
        (set-logic QF_DT)
        (declare-datatype List ((Nil) (Cons (head Int) (tail List))))
        (declare-const xs List)
        (declare-const ys List)
        (assert (= (Cons 1 xs) (Cons 1 ys)))
        (assert (not (= xs ys)))
        (check-sat)
    "#).unwrap();
    assert_eq!(r, "unsat", "Cons(1,xs)=Cons(1,ys) ∧ xs≠ys 应为 unsat (第二字段单射)");
}

// ====================================================================
// 5. Match 表达式脱糖
// ====================================================================

#[test]
fn test_match_basic() {
    // match x { Nil => 0, Cons(h,t) => h } 当 x = Cons(1, Nil)
    // 应该得到 1，断言 ≠ 1 → unsat
    let r = run_expect_one(r#"
        (set-logic QF_DT)
        (declare-datatype List ((Nil) (Cons (head Int) (tail List))))
        (declare-const x List)
        (assert (= x (Cons 1 Nil)))
        (assert (not (= (match x (Nil 0) ((Cons h t) h)) 1)))
        (check-sat)
    "#).unwrap();
    assert_eq!(r, "unsat", "match Cons(1,Nil) 取 head 应得 1");
}

#[test]
fn test_match_nil_branch() {
    // match x { Nil => 0, Cons(h,t) => h } 当 x = Nil
    // 应该得到 0，断言 ≠ 0 → unsat
    let r = run_expect_one(r#"
        (set-logic QF_DT)
        (declare-datatype List ((Nil) (Cons (head Int) (tail List))))
        (declare-const x List)
        (assert (= x Nil))
        (assert (not (= (match x (Nil 0) ((Cons h t) h)) 0)))
        (check-sat)
    "#).unwrap();
    assert_eq!(r, "unsat", "match Nil 应走 Nil 分支得 0");
}

#[test]
fn test_match_sat() {
    // match 结果 = 1 且 x = Cons(1, Nil): 一致 → sat
    let r = run_expect_one(r#"
        (set-logic QF_DT)
        (declare-datatype List ((Nil) (Cons (head Int) (tail List))))
        (declare-const x List)
        (assert (= x (Cons 1 Nil)))
        (assert (= (match x (Nil 0) ((Cons h t) h)) 1))
        (check-sat)
    "#).unwrap();
    assert_eq!(r, "sat", "match 结果 = 1 且 x = Cons(1,Nil) 应为 sat");
}

// ====================================================================
// 6. 参数化数据类型 (par + as)
// ====================================================================

#[test]
fn test_parametric_selector() {
    // 参数化 List: hd(cons(1, nil)) = 1
    let r = run_expect_one(r#"
        (set-logic QF_DT)
        (declare-datatypes ((List 1))
          ((par (T) ((nil) (cons (hd T) (tl (List T)))))))
        (declare-const xs (List Int))
        (assert (= xs (as nil (List Int))))
        (assert (not (= (hd (cons 1 xs)) 1)))
        (check-sat)
    "#).unwrap();
    assert_eq!(r, "unsat", "hd(cons(1, nil)) ≠ 1 应为 unsat (参数化 ADT)");
}

#[test]
fn test_parametric_sat() {
    // 参数化 List: hd(cons(1, nil)) = 1 — sat 方向
    let r = run_expect_one(r#"
        (set-logic QF_DT)
        (declare-datatypes ((List 1))
          ((par (T) ((nil) (cons (hd T) (tl (List T)))))))
        (declare-const xs (List Int))
        (assert (= xs (cons 1 (as nil (List Int)))))
        (assert (= (hd xs) 1))
        (check-sat)
    "#).unwrap();
    assert_eq!(r, "sat", "hd(cons(1, nil)) = 1 应为 sat (参数化 ADT)");
}

// ====================================================================
// 7. 类型检查 — 拒绝类型不一致的程序
// ====================================================================

#[test]
fn test_type_error_sort_mismatch() {
    // x: List, n: Int, (= x n) 应被类型检查拒绝
    let result = run(r#"
        (set-logic QF_DT)
        (declare-datatype List ((Nil) (Cons (head Int) (tail List))))
        (declare-const x List)
        (declare-const n Int)
        (assert (= x n))
        (check-sat)
    "#);
    assert!(result.is_err(), "(= x:List n:Int) 应触发类型错误");
}

#[test]
fn test_type_error_ctor_arg() {
    // Cons 第一个参数期望 Int，给了 Nil (List)
    let result = run(r#"
        (set-logic QF_DT)
        (declare-datatype List ((Nil) (Cons (head Int) (tail List))))
        (declare-const x List)
        (assert (= x (Cons Nil Nil)))
        (check-sat)
    "#);
    assert!(result.is_err(), "Cons(Nil, Nil) 应触发类型错误: 第一参数类型不匹配");
}

#[test]
fn test_type_error_parametric_mismatch() {
    // xs: (List Int), ys: (List Bool), (= xs ys) 类型不匹配
    let result = run(r#"
        (set-logic QF_DT)
        (declare-datatypes ((List 1))
          ((par (T) ((nil) (cons (hd T) (tl (List T)))))))
        (declare-const xs (List Int))
        (declare-const ys (List Bool))
        (assert (= xs ys))
        (check-sat)
    "#);
    assert!(result.is_err(), "(= xs:(List Int) ys:(List Bool)) 应触发类型错误");
}

// ====================================================================
// 8. Push/Pop 断言栈
// ====================================================================

#[test]
fn test_push_pop_basic() {
    // sat → push → 追加矛盾 → unsat → pop → sat
    let results = run(r#"
        (set-logic QF_DT)
        (declare-datatype List ((Nil) (Cons (head Int) (tail List))))
        (declare-const x List)
        (assert (= x (Cons 1 Nil)))
        (check-sat)
        (push 1)
        (assert (= x Nil))
        (check-sat)
        (pop 1)
        (check-sat)
    "#).unwrap();
    assert_eq!(results, vec!["sat", "unsat", "sat"],
        "push/pop 应正确保存和恢复状态");
}

#[test]
fn test_push_pop_nested() {
    // 多层 push/pop
    let results = run(r#"
        (set-logic QF_DT)
        (declare-datatype Color ((Red) (Green) (Blue)))
        (declare-const c Color)
        (assert (= c Red))
        (check-sat)
        (push 1)
        (assert (not (= c Red)))
        (check-sat)
        (push 1)
        (pop 2)
        (check-sat)
    "#).unwrap();
    assert_eq!(results, vec!["sat", "unsat", "sat"],
        "多层 push/pop 应正确恢复");
}

// ====================================================================
// 9. 布尔推理
// ====================================================================

#[test]
fn test_boolean_not_not() {
    // not(not(= x Nil)) 等价于 (= x Nil)
    // 断言 x = Nil 且 not(not(x = Nil)) 为假 → unsat
    let r = run_expect_one(r#"
        (set-logic QF_DT)
        (declare-datatype List ((Nil) (Cons (head Int) (tail List))))
        (declare-const x List)
        (assert (= x Nil))
        (assert (not (not (not (= x Nil)))))
        (check-sat)
    "#).unwrap();
    assert_eq!(r, "unsat", "x=Nil ∧ ¬¬¬(x=Nil) 应为 unsat (双重否定消除)");
}

#[test]
fn test_boolean_and_propagation() {
    // and(x=Nil, x=Cons(1,Nil)) → 两个都为 true → x 同时是 Nil 和 Cons → unsat
    let r = run_expect_one(r#"
        (set-logic QF_DT)
        (declare-datatype List ((Nil) (Cons (head Int) (tail List))))
        (declare-const x List)
        (assert (and (= x Nil) (= x (Cons 1 Nil))))
        (check-sat)
    "#).unwrap();
    assert_eq!(r, "unsat", "x=Nil ∧ x=Cons(1,Nil) 应为 unsat (and + 构造子互斥)");
}

#[test]
fn test_boolean_implies() {
    // x = Cons(1, Nil) → head(x) = 1 应恒成立
    // 断言蕴含为假 → unsat
    let r = run_expect_one(r#"
        (set-logic QF_DT)
        (declare-datatype List ((Nil) (Cons (head Int) (tail List))))
        (declare-const x List)
        (assert (= x (Cons 1 Nil)))
        (assert (not (=> (= x (Cons 1 Nil)) (= (head x) 1))))
        (check-sat)
    "#).unwrap();
    assert_eq!(r, "unsat", "x=Cons(1,Nil) → head(x)=1 的否定应为 unsat");
}

// ====================================================================
// 10. 复合推理: 多个公理协同工作
// ====================================================================

#[test]
fn test_composite_selector_plus_disjoint() {
    // x = Cons(1, Nil)
    // head(x) = 1 (selector) 且 x ≠ Nil (disjoint) 且 is-Cons(x) (tester)
    // 全部一致 → sat
    let r = run_expect_one(r#"
        (set-logic QF_DT)
        (declare-datatype List ((Nil) (Cons (head Int) (tail List))))
        (declare-const x List)
        (assert (= x (Cons 1 Nil)))
        (assert (= (head x) 1))
        (assert (not (= x Nil)))
        (assert (is-Cons x))
        (check-sat)
    "#).unwrap();
    assert_eq!(r, "sat", "selector + disjoint + tester 综合应为 sat");
}

#[test]
fn test_composite_multi_constructor_adt() {
    // 多构造子 ADT: Tree = Leaf(Int) | Node(Tree, Tree)
    let r = run_expect_one(r#"
        (set-logic QF_DT)
        (declare-datatype Tree
          ((Leaf (val Int))
           (Node (left Tree) (right Tree))))
        (declare-const t Tree)
        (assert (= t (Node (Leaf 1) (Leaf 2))))
        (assert (not (= (val (left t)) 1)))
        (check-sat)
    "#).unwrap();
    assert_eq!(r, "unsat", "val(left(Node(Leaf(1), Leaf(2)))) ≠ 1 应为 unsat");
}

#[test]
fn test_composite_tree_right_branch() {
    // val(right(Node(Leaf(1), Leaf(2)))) = 2
    let r = run_expect_one(r#"
        (set-logic QF_DT)
        (declare-datatype Tree
          ((Leaf (val Int))
           (Node (left Tree) (right Tree))))
        (declare-const t Tree)
        (assert (= t (Node (Leaf 1) (Leaf 2))))
        (assert (not (= (val (right t)) 2)))
        (check-sat)
    "#).unwrap();
    assert_eq!(r, "unsat", "val(right(Node(Leaf(1),Leaf(2)))) ≠ 2 应为 unsat");
}

#[test]
fn test_composite_enum_exhaustive() {
    // 枚举类型 Day，验证多重不等式
    let r = run_expect_one(r#"
        (set-logic QF_DT)
        (declare-datatype Day
          ((Mon) (Tue) (Wed) (Thu) (Fri) (Sat) (Sun)))
        (declare-const d Day)
        (assert (= d Mon))
        (assert (not (= d Tue)))
        (assert (not (= d Wed)))
        (check-sat)
    "#).unwrap();
    assert_eq!(r, "sat", "d=Mon ∧ d≠Tue ∧ d≠Wed 应为 sat");
}

#[test]
fn test_composite_pair_adt() {
    // Pair ADT with two fields
    let r = run_expect_one(r#"
        (set-logic QF_DT)
        (declare-datatype Pair
          ((MkPair (fst Int) (snd Int))))
        (declare-const p Pair)
        (assert (= p (MkPair 3 4)))
        (assert (not (= (fst p) 3)))
        (check-sat)
    "#).unwrap();
    assert_eq!(r, "unsat", "fst(MkPair(3,4)) ≠ 3 应为 unsat");
}

#[test]
fn test_composite_ite_term() {
    // term-level ite: (ite (is-Nil x) 0 (head x))
    // x = Cons(5, Nil) → is-Nil(x) = false → ite 选 else 分支 → head(x) = 5
    let r = run_expect_one(r#"
        (set-logic QF_DT)
        (declare-datatype List ((Nil) (Cons (head Int) (tail List))))
        (declare-const x List)
        (assert (= x (Cons 5 Nil)))
        (assert (not (= (ite (is-Nil x) 0 (head x)) 5)))
        (check-sat)
    "#).unwrap();
    assert_eq!(r, "unsat", "ite(is-Nil(Cons(5,Nil)), 0, head(Cons(5,Nil))) ≠ 5 应为 unsat");
}

// ====================================================================
// 11. 边界情况
// ====================================================================

#[test]
fn test_trivial_sat() {
    // 空断言集 → sat
    let r = run_expect_one(r#"
        (set-logic QF_DT)
        (declare-datatype Unit ((MkUnit)))
        (check-sat)
    "#).unwrap();
    assert_eq!(r, "sat", "空断言集应为 sat");
}

#[test]
fn test_trivial_unsat_false() {
    // 直接断言 false
    let r = run_expect_one(r#"
        (set-logic QF_DT)
        (declare-datatype Unit ((MkUnit)))
        (assert (not (= MkUnit MkUnit)))
        (check-sat)
    "#).unwrap();
    assert_eq!(r, "unsat", "断言 MkUnit ≠ MkUnit 应为 unsat");
}

#[test]
fn test_single_constructor_adt() {
    // 只有一个构造子的 ADT
    let r = run_expect_one(r#"
        (set-logic QF_DT)
        (declare-datatype Wrapper ((Wrap (unwrap Int))))
        (declare-const w Wrapper)
        (assert (= w (Wrap 10)))
        (assert (not (= (unwrap w) 10)))
        (check-sat)
    "#).unwrap();
    assert_eq!(r, "unsat", "unwrap(Wrap(10)) ≠ 10 应为 unsat");
}

#[test]
fn test_multiple_check_sat() {
    // 多次 check-sat（不用 push/pop）
    let results = run(r#"
        (set-logic QF_DT)
        (declare-datatype List ((Nil) (Cons (head Int) (tail List))))
        (declare-const x List)
        (assert (= x Nil))
        (check-sat)
        (assert (= x (Cons 1 Nil)))
        (check-sat)
    "#).unwrap();
    assert_eq!(results[0], "sat", "第一次 check-sat: x=Nil 应为 sat");
    assert_eq!(results[1], "unsat", "第二次 check-sat: x=Nil ∧ x=Cons(1,Nil) 应为 unsat");
}
