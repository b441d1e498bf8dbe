use loki::assignment::{Assignment, SemanticFormula};
use loki::expr::LinearizedExpr;
use loki::expression_utils::{constant, ite, mem, neg, reg, zero_extend};
use loki::scheduler::{schedule_keys_non_deterministic, Config, SemanticsBlock};

fn add(x: LinearizedExpr, y: LinearizedExpr, size: usize) -> LinearizedExpr {
    loki::expression_utils::add(x, y, size)
}

#[test]
fn infix_text() {
    let e = add(reg("a", 8), constant(0x1f, 8), 8);
    assert_eq!(e.to_string(), "(a + 0x1f)");
    assert_eq!(neg(reg("b", 16), 16).to_infix(), "(- b)");
    assert_eq!(zero_extend(reg("b", 8), 32).to_infix(), "ZeroExtend(b, 32)");
    assert_eq!(mem(reg("p", 64), 32).to_infix(), "@32[p]");
    assert_eq!(
        ite(reg("c", 8), reg("a", 8), constant(0, 8), 8).to_infix(),
        "(c ? a : 0x0)"
    );
}

#[test]
fn assignment_and_formula_text() {
    let a = Assignment::new(reg("x", 8), add(reg("a", 8), reg("b", 8), 8));
    assert_eq!(a.to_string(), "x = (a + b)");
    let f = SemanticFormula::new(vec![
        Assignment::new(reg("x", 8), reg("a", 8)),
        Assignment::new(reg("y", 8), constant(10, 8)),
    ]);
    assert_eq!(f.to_string(), "{ x = a ; y = 0xa }");
    let single = SemanticFormula::new(vec![Assignment::new(reg("x", 8), reg("a", 8))]);
    assert_eq!(single.to_string(), "{ x = a }");
}

#[test]
fn depth_and_subtree_sizes() {
    let e = add(add(reg("a", 8), reg("b", 8), 8), neg(reg("c", 8), 8), 8);
    assert_eq!(e.depth(), 3);
    assert_eq!(e.get_sizes(), vec![1, 1, 3, 1, 2, 6]);
    assert_eq!(reg("a", 8).depth(), 1);
}

fn config(duplication: bool) -> Config {
    Config {
        rewrite_mba: false,
        superoptimization: false,
        schedule_non_deterministic: true,
        handler_duplication: duplication,
        reuse_numerator: 2,
        reuse_denominator: 3,
        num_alus: 64,
        min_semantics_per_alu: 1,
        max_semantics_per_alu: 8,
        min_superhandler_depth: 3,
        max_superhandler_depth: 12,
        num_reserved_alu_handler: 2,
        verification_iterations: 1,
        num_instances: 1,
    }
}

fn draws(seed: u64, n: usize) -> Vec<u64> {
    let mut state = seed;
    (0..n)
        .map(|_| {
            state = state.wrapping_mul(6364136223846793005).wrapping_add(1442695040888963407);
            state >> 11
        })
        .collect()
}

#[test]
fn repeated_blocks_reuse_about_two_thirds() {
    let blocks: Vec<SemanticsBlock> = (0..300)
        .map(|_| SemanticsBlock {
            output_variable: reg("o", 64),
            input_variables: vec![],
            immediate: None,
            expr: add(reg("x", 64), reg("y", 64), 64),
        })
        .collect();
    let (map, _) = schedule_keys_non_deterministic(&blocks, &config(true), &draws(7, 4000)).unwrap();
    let mut reused = 0;
    for i in 1..map.map.len() {
        if (0..i).any(|j| map.map[j] == map.map[i]) {
            reused += 1;
        }
    }
    let ratio = reused as f64 / 299.0;
    assert!(ratio > 0.55 && ratio < 0.78, "reuse ratio {}", ratio);
}

#[test]
fn without_duplication_repeats_always_reuse() {
    let blocks: Vec<SemanticsBlock> = (0..10)
        .map(|_| SemanticsBlock {
            output_variable: reg("o", 64),
            input_variables: vec![],
            immediate: None,
            expr: add(reg("x", 64), reg("y", 64), 64),
        })
        .collect();
    let (map, _) = schedule_keys_non_deterministic(&blocks, &config(false), &draws(3, 100)).unwrap();
    for i in 1..10 {
        assert_eq!(map.map[i], map.map[0]);
    }
}

#[test]
fn randomized_schedule_needs_draws() {
    let blocks = vec![SemanticsBlock {
        output_variable: reg("o", 64),
        input_variables: vec![],
        immediate: None,
        expr: add(reg("x", 64), reg("y", 64), 64),
    }];
    assert!(schedule_keys_non_deterministic(&blocks, &config(true), &vec![]).is_err());
}
