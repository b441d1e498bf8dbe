use loki::semantics::SemanticsBuilder;
use loki::assignment::Assignment;
use loki::expr::LinearizedExpr;
use loki::expression_utils::{constant, load, reg};
use loki::superoptimizer::{
    check_expr_constraints, derive_random_variable, eliminate_dead_code, gen_ssa_map,
    replace_expr_var, superoptimize_assignments,
};

fn add(x: LinearizedExpr, y: LinearizedExpr) -> LinearizedExpr {
    loki::expression_utils::add(x, y, 64)
}

#[test]
fn inlining_replaces_every_use() {
    let e = add(reg("t", 64), reg("t", 64));
    let r = replace_expr_var(&e, &reg("t", 64), &add(reg("a", 64), reg("b", 64)));
    assert_eq!(r.to_string(), "((a + b) + (a + b))");
    let m = replace_expr_var(&e, &reg("t", 64), &load(reg("p", 64), 64));
    assert_eq!(m, e);
}

#[test]
fn limits_on_derived_expressions() {
    let e = add(add(reg("a", 64), reg("b", 64)), constant(1, 64));
    assert!(check_expr_constraints(&e, 3, 12));
    assert!(!check_expr_constraints(&e, 3, 4));
    let three = add(add(reg("a", 64), reg("b", 64)), reg("c", 64));
    assert!(!check_expr_constraints(&three, 3, 12));
}

#[test]
fn derivation_uses_definitions() {
    let program = vec![
        Assignment::new(reg("t", 64), add(reg("a", 64), reg("b", 64))),
        Assignment::new(reg("u", 64), add(reg("t", 64), constant(1, 64))),
    ];
    let map = gen_ssa_map(&program);
    let d = derive_random_variable(program[1].rhs.clone(), &map, 0);
    assert_eq!(d.to_string(), "((a + b) + 0x1)");
}

#[test]
fn dead_definitions_are_dropped() {
    let program = vec![
        Assignment::new(reg("t", 64), add(reg("a", 64), reg("b", 64))),
        Assignment::new(reg("dead", 64), add(reg("a", 64), constant(3, 64))),
        Assignment::new(reg("v", 64), load(reg("p", 64), 64)),
        Assignment::new(reg("out_reg", 64), add(reg("t", 64), constant(1, 64))),
    ];
    let kept = eliminate_dead_code(&program);
    let names: Vec<String> = kept.iter().map(|a| a.lhs.to_string()).collect();
    assert_eq!(names, vec!["t", "v", "out_reg"]);
}

#[test]
fn superoptimization_keeps_needed_output() {
    let program = vec![
        Assignment::new(reg("t", 64), add(reg("a", 64), reg("b", 64))),
        Assignment::new(reg("out_reg", 64), add(reg("t", 64), constant(1, 64))),
    ];
    let draws = vec![vec![9, 1, 0], vec![9, 1, 0]];
    let out = superoptimize_assignments(&program, &draws, 3, 12);
    assert_eq!(out.last().unwrap().lhs, reg("out_reg", 64));
    assert_eq!(out.last().unwrap().rhs.to_string(), "((a + b) + 0x1)");
    assert_eq!(out.len(), 1);
}

#[test]
fn decoys_are_complete_expressions() {
    let draws: Vec<u64> = (0..200u64).map(|i| i.wrapping_mul(0x9e37_79b9_7f4a_7c15) >> 7).collect();
    let decoys = SemanticsBuilder::gen_semantics(5, &draws);
    assert_eq!(decoys.len(), 5);
    for d in &decoys {
        assert!(!d.is_non_terminal());
        assert!(d.len() >= 1);
        let _ = d.to_string();
    }
}

#[test]
fn decoy_templates() {
    let e = SemanticsBuilder::gen_expr(64, 0, 0);
    assert_eq!(e.to_string(), "(NT + NT)");
    assert_eq!(SemanticsBuilder::get_non_terminal_var_indices(&e), vec![0, 1]);
    let (full, _) = SemanticsBuilder::gen_expr_with_depth(0, 64, &vec![0, 0, 0, 1], 0);
    assert_eq!(full.to_string(), "(x + y)");
}
