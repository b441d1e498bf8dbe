use loki::assignment::Assignment;
use loki::expr::LinearizedExpr;
use loki::expression_utils::{constant, reg};
use loki::ssa::SSA;

fn add(x: LinearizedExpr, y: LinearizedExpr) -> LinearizedExpr {
    loki::expression_utils::add(x, y, 8)
}

fn texts(v: &Vec<Assignment>) -> Vec<String> {
    v.iter().map(|a| a.to_string()).collect()
}

#[test]
fn shared_subexpressions_are_computed_once() {
    let ab = add(reg("a", 8), reg("b", 8));
    let input = vec![Assignment::new(reg("x", 8), add(ab.clone(), ab))];
    let out = SSA::from_assignments(&input);
    assert_eq!(
        texts(&out),
        vec!["T1 = a", "T2 = b", "T3 = (T1 + T2)", "T4 = (T3 + T3)", "x1 = T4"]
    );
}

#[test]
fn later_uses_read_the_latest_version() {
    let input = vec![
        Assignment::new(reg("x", 8), add(reg("a", 8), constant(1, 8))),
        Assignment::new(reg("x", 8), add(reg("x", 8), reg("x", 8))),
    ];
    let out = SSA::from_assignments(&input);
    assert_eq!(
        texts(&out),
        vec![
            "T1 = a",
            "T2 = 0x1",
            "T3 = (T1 + T2)",
            "x1 = T3",
            "T4 = x1",
            "T5 = (T4 + T4)",
            "x2 = T5",
        ]
    );
}

#[test]
fn sharing_does_not_cross_assignments() {
    let input = vec![
        Assignment::new(reg("x", 8), reg("a", 8)),
        Assignment::new(reg("y", 8), reg("a", 8)),
    ];
    let out = SSA::from_assignments(&input);
    assert_eq!(texts(&out), vec!["T1 = a", "x1 = T1", "T2 = a", "y1 = T2"]);
}

fn mul(x: LinearizedExpr, y: LinearizedExpr) -> LinearizedExpr {
    loki::expression_utils::mul(x, y, 8)
}

fn run(assignments: &Vec<Assignment>, out: &str) -> LinearizedExpr {
    let mut ev = loki::symbolic::SemanticFormulaEvaluator::new(vec![]);
    ev.eval_assignment(&Assignment::new(reg("a", 8), constant(3, 8)));
    ev.eval_assignment(&Assignment::new(reg("b", 8), constant(4, 8)));
    for a in assignments {
        ev.eval_assignment(a);
    }
    ev.symbolic_state.get_var(&reg(out, 8)).unwrap()
}

#[test]
fn flattened_form_computes_the_same_value() {
    let input = vec![
        Assignment::new(reg("x", 8), add(reg("a", 8), reg("b", 8))),
        Assignment::new(reg("x", 8), mul(reg("x", 8), reg("x", 8))),
        Assignment::new(reg("y", 8), add(reg("x", 8), add(reg("a", 8), reg("b", 8)))),
    ];
    let out = SSA::from_assignments(&input);
    assert_eq!(run(&input, "y"), constant(56, 8));
    assert_eq!(run(&out, "y1"), constant(56, 8));
}

#[test]
fn evaluation_keeps_unbound_registers_symbolic() {
    let ev = loki::symbolic::SemanticFormulaEvaluator::new(vec![]);
    let e = add(reg("z", 8), constant(0, 8));
    assert_eq!(ev.eval_expression(&e), reg("z", 8));
}

#[test]
fn memory_destination_goes_to_memory() {
    let mut ev = loki::symbolic::SemanticFormulaEvaluator::new(vec![]);
    ev.eval_assignment(&Assignment::new(loki::expression_utils::mem(reg("p", 64), 8), constant(5, 8)));
    assert_eq!(ev.symbolic_state.memory.len(), 1);
    assert_eq!(ev.symbolic_state.variables.len(), 0);
    assert_eq!(ev.symbolic_state.memory[0].0, reg("p", 64));
}

#[test]
fn memory_loads_join_bound_bytes() {
    let mut ev = loki::symbolic::SemanticFormulaEvaluator::new(vec![]);
    ev.eval_assignment(&Assignment::new(reg("p", 64), constant(0x100, 64)));
    ev.eval_assignment(&Assignment::new(loki::expression_utils::mem(constant(0x100, 64), 8), constant(0x34, 8)));
    ev.eval_assignment(&Assignment::new(loki::expression_utils::mem(constant(0x101, 64), 8), constant(0x12, 8)));
    let load = loki::expression_utils::mem(reg("p", 64), 16);
    assert_eq!(ev.eval_expression(&load), constant(0x1234, 16));
    let unbound = loki::expression_utils::mem(reg("q", 64), 16);
    assert_eq!(ev.eval_expression(&unbound), unbound);
}

#[test]
fn rule_parameters_bound_by_inputs() {
    let e = loki::expression_utils::add(reg("p0", 8), reg("p1", 8), 8);
    let inputs = vec![
        Assignment::new(reg("p0", 8), constant(3, 8)),
        Assignment::new(reg("p1", 8), constant(4, 8)),
    ];
    assert_eq!(loki::symbolic::symbolic_execute_with_inputs(&e, &inputs), constant(7, 8));
    assert_eq!(loki::symbolic::symbolic_execute_with_inputs(&e, &vec![]), e);
}

#[test]
fn dereference_is_kept_by_plain_simplification() {
    let e = loki::expression_utils::mem(add(reg("p", 8), constant(0, 8)), 8);
    assert_eq!(e.simplify(), loki::expression_utils::mem(reg("p", 8), 8));
}
