# qf_adt

Parsing, sort checking and e-graph encoding of the QF_ADT fragment of SMT-LIB 2.6,
with satisfiability checking by equality saturation in `egg`. The library is written in
Verus: each function carries a contract over a mathematical model of its data, and Verus
proves the code against it.

## Layout

- `src/text.rs`, `src/sexp.rs`: characters, numerals, the tokenizer and the S-expression reader.
- `src/ast.rs`, `src/grammar.rs`, `src/parser.rs`: the syntax tree, the grammar as functions
  from S-expressions to results (with the exact message of each rejection), and the parser
  that computes them.
- `src/sorts.rs`, `src/typing.rs`: sorts, unification of sort patterns, and sort inference.
- `src/subst.rs`, `src/desugar.rs`, `src/print.rs`: substitution, `match` desugaring, printing.
- `src/egraph.rs`: the calls into `egg`, with what each is trusted to do.
- `src/rules.rs`, `src/adt.rs`, `src/classes.rs`: the rewrite rules, the datatype laws on an
  e-graph (constructor clash and injectivity), and the class an e-graph gives a term.
- `src/solver.rs`: the solver state, assertions, `check-sat`, models, the assertion stack and
  the command loop.
- `src/reread.rs`: printing and reading back a term.
- `app/main.rs`: the demonstration program (printing).
- `tests/`: scenario tests of whole scripts and tests of the parts.

## Proved properties

Among others: an asserted equation puts its sides in one class and an asserted negated
equation records a disequality, and both held make the state unsatisfiable; what a state
holds stays held as the solver goes forward; terms built by different constructors held
equal make the state unsatisfiable after `check-sat`, and equal terms built by one
constructor have equal arguments; an unsatisfiable state stays so; `pop n` undoes `push n`;
a script is accepted exactly when its commands are accepted one by one by the abstract
session model. In a run, the session after `(pop n)` is the one before the matching
`(push n)`, and an `unsat` answer stays `unsat` until the next `push` or `pop`. The datatype
closure reports a constructor clash exactly when one is in the e-graph, and merges only
what congruence and injectivity force; rebuilding merges only what congruence forces. Model
values are smallest terms of their classes. Equality saturation is handed the rule texts
that compile, and every merge it makes is an instance of one of them or follows by
congruence; which merges it makes within its time limit is not stated, so a `sat` answer is
not derived. A term of variables and applications, printed and read back, is the same term.
