use loki::bytecode::encode_instruction;
use loki::emulator::{emulate, eval_alu};
use loki::expr::LinearizedExpr;
use loki::expression_utils::{constant, reg};
use loki::keys::ALUKeys;
use loki::scheduler::{schedule_keys_deterministic, Config, SchedulerIndex, SemanticsBlock};
use loki::thwart::{constraint_key_with_multiple_roots, key_slice, thwart_recursive, verify_constraints};
use std::collections::HashMap;

fn add64(x: LinearizedExpr, y: LinearizedExpr) -> LinearizedExpr {
    loki::expression_utils::add(x, y, 64)
}

fn config() -> Config {
    Config {
        rewrite_mba: false,
        superoptimization: false,
        schedule_non_deterministic: false,
        handler_duplication: false,
        reuse_numerator: 2,
        reuse_denominator: 3,
        num_alus: 3,
        min_semantics_per_alu: 1,
        max_semantics_per_alu: 2,
        min_superhandler_depth: 3,
        max_superhandler_depth: 12,
        num_reserved_alu_handler: 2,
        verification_iterations: 1,
        num_instances: 1,
    }
}

fn block(expr: LinearizedExpr) -> SemanticsBlock {
    SemanticsBlock {
        output_variable: reg("o", 64),
        input_variables: vec![],
        immediate: None,
        expr,
    }
}

#[test]
fn identical_blocks_get_distinct_slots() {
    let blocks: Vec<SemanticsBlock> = (0..4).map(|_| block(add64(reg("x", 64), reg("y", 64)))).collect();
    let (map, alus) = schedule_keys_deterministic(&blocks, &config());
    assert_eq!(map.map.len(), 4);
    assert_eq!(map.map[0], SchedulerIndex::new(2, 0));
    assert_eq!(map.map[1], SchedulerIndex::new(2, 1));
    assert_eq!(map.map[2], SchedulerIndex::new(3, 0));
    assert_eq!(map.map[3], SchedulerIndex::new(3, 1));
    for i in 0..4 {
        for j in 0..i {
            assert_ne!(map.map[i], map.map[j]);
        }
    }
    assert_eq!(alus.map.len(), 4);
    assert_eq!(alus.map[2].0, 3);
}

#[test]
fn memory_blocks_use_reserved_handler() {
    let load = loki::expression_utils::load(reg("x", 64), 64);
    let blocks = vec![block(load), block(add64(reg("x", 64), reg("y", 64)))];
    let (map, _) = schedule_keys_deterministic(&blocks, &config());
    assert_eq!(map.map[0], SchedulerIndex::new(1, 0));
    assert_eq!(map.map[1], SchedulerIndex::new(2, 0));
}

#[test]
fn handler_evaluates_on_operands() {
    let h = add64(add64(reg("x", 64), reg("y", 64)), reg("c", 64));
    assert_eq!(eval_alu(&h, 1, 2, 3, 0), Some(6));
}

#[test]
fn vm_runs_arithmetic_and_memory() {
    let mut handlers = HashMap::new();
    handlers.insert(2usize, add64(reg("x", 64), reg("c", 64)));
    let mut code = Vec::new();
    // r3 = r2 + 5
    code.extend(encode_instruction((2, 3, 2, 1, 5, 0)));
    // r4 = alloc(16)
    code.extend(encode_instruction((1, 4, 1, 1, 16, 2)));
    // store 8 bytes of r3 at r4
    code.extend(encode_instruction((1, 5, 4, 3, 64, 1)));
    // r0 = load 8 bytes at r4
    code.extend(encode_instruction((1, 0, 4, 1, 64, 0)));
    let args = vec![(2u16, 10u64)];
    let mut mem = HashMap::new();
    mem.insert(0usize, vec![0u64; 4]);
    assert_eq!(emulate(&handlers, &code, &args, &mem), Some(15));
}

#[test]
fn vm_stops_on_missing_register() {
    let handlers: HashMap<usize, LinearizedExpr> = HashMap::new();
    let code = encode_instruction((1, 0, 9, 1, 64, 0));
    let args = vec![(2u16, 10u64)];
    let mut mem = HashMap::new();
    mem.insert(0usize, vec![]);
    assert_eq!(emulate(&handlers, &code, &args, &mem), None);
}

#[test]
fn key_slice_checks_one_byte() {
    let check = key_slice(0x1234, 8, 15);
    let mut hit = check.clone();
    hit.replace_subexpr(&reg("k", 64), &constant(0x1200, 64));
    assert_eq!(hit.simplify(), constant(1, 64));
    let mut miss = check;
    miss.replace_subexpr(&reg("k", 64), &constant(0x1300, 64));
    assert_eq!(miss.simplify(), constant(0, 64));
}

#[test]
fn multiple_roots_is_a_point_function() {
    let mut keys = ALUKeys::new();
    keys.push(0xdead_beef_0123_4567);
    keys.push(0x1111_2222_3333_4444);
    let check = constraint_key_with_multiple_roots(&keys, 0, 0);
    assert!(verify_constraints(&check, &keys, 0));
    assert!(!verify_constraints(&check, &keys, 1));
}

#[test]
fn gated_handler_selects_slot() {
    let mut keys = ALUKeys::new();
    keys.push(0x0102_0304_0506_0708);
    keys.push(0x1112_1314_1516_1718);
    let checks = vec![
        constraint_key_with_multiple_roots(&keys, 0, 0),
        constraint_key_with_multiple_roots(&keys, 1, 1),
    ];
    let instructions = vec![add64(reg("x", 64), reg("y", 64)), add64(reg("x", 64), reg("c", 64))];
    let handler = thwart_recursive(&instructions, &checks, 0);
    assert_eq!(eval_alu(&handler, 2, 3, 7, keys.get(0)), Some(5));
    assert_eq!(eval_alu(&handler, 2, 3, 7, keys.get(1)), Some(9));
}
