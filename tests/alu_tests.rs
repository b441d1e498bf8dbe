use loki::alu::ALU;
use loki::expr::LinearizedExpr;
use loki::expression_utils::reg;
use loki::keys::ALUKeys;
use loki::scheduler::{ALUSemanticsMapEntry, Config, SemanticsBlock};

fn config() -> Config {
    Config {
        rewrite_mba: false,
        superoptimization: false,
        schedule_non_deterministic: false,
        handler_duplication: false,
        reuse_numerator: 2,
        reuse_denominator: 3,
        num_alus: 8,
        min_semantics_per_alu: 2,
        max_semantics_per_alu: 4,
        min_superhandler_depth: 3,
        max_superhandler_depth: 12,
        num_reserved_alu_handler: 2,
        verification_iterations: 1,
        num_instances: 1,
    }
}

fn add(x: LinearizedExpr, y: LinearizedExpr) -> LinearizedExpr {
    loki::expression_utils::add(x, y, 64)
}

#[test]
fn memory_handler_keys() {
    let mut keys = ALUKeys::new();
    let a = ALU::memory_dummy(&mut keys);
    assert_eq!(keys.len(), 3);
    assert_eq!((keys.get(0), keys.get(1), keys.get(2)), (0, 1, 2));
    assert!(a.rhs.is_nop());
}

#[test]
fn slot_count_covers_scheduled_slots() {
    let alive = vec![ALUSemanticsMapEntry::new(3, add(reg("x", 64), reg("y", 64)))];
    for d in 0..10 {
        let n = ALU::num_instructions(&alive, &config(), d);
        assert_eq!(n, 4);
    }
    let n = ALU::num_instructions(&vec![], &config(), 1);
    assert!(n > 2 && n <= 4);
}

#[test]
fn handler_selects_scheduled_semantics() {
    let alive = vec![ALUSemanticsMapEntry::new(1, add(reg("x", 64), reg("c", 64)))];
    let mut draws = Vec::new();
    let mut state = 42u64;
    for _ in 0..6000 {
        state = state.wrapping_mul(6364136223846793005).wrapping_add(1442695040888963407);
        draws.push(state >> 5);
    }
    let alu = ALU::thwart_smt(2, &alive, &config(), &draws, 2).unwrap();
    assert_eq!(alu.index, 2);
    let k = alu.keys.get(1);
    let v = loki::emulator::eval_alu(&alu.assignment.rhs, 3, 4, 5, k);
    assert_eq!(v, Some(8));
    assert!(alu.verify());
}

#[test]
fn handlers_are_built_for_every_index() {
    let blocks = vec![SemanticsBlock {
        output_variable: reg("o", 64),
        input_variables: vec![reg("a", 64), reg("b", 64)],
        immediate: None,
        expr: add(reg("x", 64), reg("y", 64)),
    }];
    let mut cfg = config();
    cfg.num_alus = 2;
    let mut stream = Vec::new();
    let mut state = 7u64;
    for _ in 0..6000 {
        state = state.wrapping_mul(6364136223846793005).wrapping_add(1442695040888963407);
        stream.push(state >> 5);
    }
    let attempts = vec![vec![], vec![], vec![stream]];
    let (map, keys, sems) = loki::alu::build_handlers(&blocks, &cfg, &attempts, 2).unwrap();
    assert_eq!(map.map.len(), 1);
    assert_eq!(sems.len(), 2);
    assert_eq!(sems[0].0, 1);
    assert!(sems[0].1.is_nop());
    assert_eq!(sems[1].0, 2);
    let k = keys.get(&2).unwrap().get(map.map[0].key_index);
    assert_eq!(loki::emulator::eval_alu(&sems[1].1, 3, 4, 0, k), Some(7));
    assert!(loki::alu::build_handlers(&blocks, &cfg, &vec![], 2).is_none());
}

#[test]
fn handler_without_attempts_is_not_built() {
    let blocks = vec![SemanticsBlock {
        output_variable: reg("o", 64),
        input_variables: vec![reg("a", 64), reg("b", 64)],
        immediate: None,
        expr: add(reg("x", 64), reg("y", 64)),
    }];
    let mut cfg = config();
    cfg.num_alus = 2;
    let attempts: Vec<Vec<Vec<u64>>> = vec![vec![], vec![], vec![]];
    assert!(loki::alu::build_handlers(&blocks, &cfg, &attempts, 2).is_none());
    let short: Vec<Vec<Vec<u64>>> = vec![vec![vec![1, 2, 3]], vec![vec![1, 2, 3]]];
    assert!(loki::alu::build_handlers(&blocks, &cfg, &short, 2).is_none());
}
