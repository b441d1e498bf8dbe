use loki::assignment::Assignment;
use loki::bytecode::encode_instruction;
use loki::concrete::{verify_once, InputEmulator};
use loki::expr::LinearizedExpr;
use loki::expression_utils::{alloc_expr, constant, mem, reg};
use std::collections::HashMap;

fn add(x: LinearizedExpr, y: LinearizedExpr, size: usize) -> LinearizedExpr {
    loki::expression_utils::add(x, y, size)
}

#[test]
fn input_emulator_runs_registers() {
    let program = vec![
        Assignment::new(reg("t", 64), add(reg("a", 64), constant(5, 64), 64)),
        Assignment::new(reg("out_reg", 64), reg("t", 64)),
    ];
    let inputs = vec![Assignment::new(reg("a", 64), constant(10, 64))];
    assert_eq!(InputEmulator::emulate(&program, &inputs), Some(15));
}

#[test]
fn input_emulator_reads_and_writes_memory() {
    let inputs = vec![
        Assignment::new(reg("p", 64), constant(0x100, 64)),
        Assignment::new(mem(constant(0x100, 64), 8), constant(0x34, 8)),
        Assignment::new(mem(constant(0x101, 64), 8), constant(0x12, 8)),
    ];
    let program = vec![
        Assignment::new(reg("v", 16), mem(reg("p", 64), 16)),
        Assignment::new(reg("q", 64), alloc_expr(8, 64)),
        Assignment::new(mem(reg("q", 64), 16), reg("v", 16)),
        Assignment::new(reg("out_reg", 16), mem(reg("q", 64), 16)),
    ];
    assert_eq!(InputEmulator::emulate(&program, &inputs), Some(0x1234));
}

#[test]
fn input_emulator_needs_bound_inputs() {
    let program = vec![Assignment::new(reg("out_reg", 64), reg("a", 64))];
    assert_eq!(InputEmulator::emulate(&program, &vec![]), None);
}

#[test]
fn both_executors_agree() {
    let program = vec![
        Assignment::new(reg("t", 64), add(reg("a", 64), constant(5, 64), 64)),
        Assignment::new(reg("out_reg", 64), reg("t", 64)),
    ];
    let inputs = vec![Assignment::new(reg("a", 64), constant(10, 64))];
    let mut handlers = HashMap::new();
    handlers.insert(2usize, add(reg("x", 64), reg("c", 64), 64));
    let code = encode_instruction((2, 0, 2, 1, 5, 0));
    let mut memory = HashMap::new();
    memory.insert(0usize, vec![]);
    assert!(verify_once(&handlers, &code, &vec![(2, 10)], &memory, &program, &inputs));
    let wrong = encode_instruction((2, 0, 2, 1, 6, 0));
    assert!(!verify_once(&handlers, &wrong, &vec![(2, 10)], &memory, &program, &inputs));
}
