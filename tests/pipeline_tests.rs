use loki::assignment::Assignment;
use loki::bytecode::{decode_instruction, ByteCodeTranslator};
use loki::expr::LinearizedExpr;
use loki::expression_utils::{constant, load, reg};
use loki::keys::{ALUKeys, MetaALUKeys};
use loki::scheduler::{SchedulerIndex, SchedulerMap, SemanticsBlock};
use loki::semantics::{ALUPostProcessor, SemanticRewriter};

fn add(x: LinearizedExpr, y: LinearizedExpr, size: usize) -> LinearizedExpr {
    loki::expression_utils::add(x, y, size)
}

#[test]
fn block_renames_inputs_and_constant() {
    let a = Assignment::new(
        reg("r", 32),
        add(add(reg("p", 32), reg("q", 32), 32), constant(7, 32), 32),
    );
    let b = SemanticsBlock::from_assignment(&a);
    assert_eq!(b.output_variable, reg("r", 32));
    assert_eq!(b.input_variables, vec![reg("p", 32), reg("q", 32)]);
    assert_eq!(b.immediate, Some(7));
    assert_eq!(
        b.expr.to_string(),
        "((((x + y) & 0xffffffff) + c) & 0xffffffff)"
    );
}

#[test]
fn memory_block_carries_its_width() {
    let a = Assignment::new(reg("r", 32), load(reg("p", 64), 32));
    let b = SemanticsBlock::from_assignment(&a);
    assert_eq!(b.immediate, Some(32));
    assert_eq!(b.expr.to_string(), "Load(x, 32)");
}

#[test]
fn widening_keeps_64_bit_operations() {
    let e = add(reg("a", 64), reg("b", 64), 64);
    assert_eq!(SemanticRewriter::rewrite(&e), e);
}

#[test]
fn translation_numbers_registers_in_first_use_order() {
    let blocks = vec![
        SemanticsBlock {
            output_variable: reg("t", 64),
            input_variables: vec![reg("a", 64), reg("b", 64)],
            immediate: None,
            expr: add(reg("x", 64), reg("y", 64), 64),
        },
        SemanticsBlock {
            output_variable: reg("out_reg", 64),
            input_variables: vec![reg("t", 64)],
            immediate: Some(5),
            expr: add(reg("x", 64), reg("c", 64), 64),
        },
    ];
    let mut k2 = ALUKeys::new();
    k2.push(0xaa);
    k2.push(0xbb);
    let mut keys = MetaALUKeys::new();
    keys.insert(2, k2);
    let map = SchedulerMap {
        map: vec![SchedulerIndex::new(2, 0), SchedulerIndex::new(2, 1)],
    };
    let mut t = ByteCodeTranslator::new();
    let code = t.translate_to_bytecode(&blocks, &keys, &map);
    assert_eq!(code.len(), 48);
    assert_eq!(decode_instruction(&code[0..24]), (2, 2, 3, 4, 0, 0xaa));
    assert_eq!(decode_instruction(&code[24..48]), (2, 0, 2, 1, 5, 0xbb));
}

#[test]
fn lowering_removes_nand_and_masks_shifts() {
    let e = loki::expression_utils::nand(reg("a", 64), reg("b", 64), 64);
    assert_eq!(ALUPostProcessor::rewrite_expression(&e).to_string(), "(~ (a & b))");
    let s = loki::expression_utils::shl_plain(reg("a", 64), reg("b", 64), 64);
    assert_eq!(ALUPostProcessor::rewrite_expression(&s).to_string(), "(a << (b & 0x3f))");
    let a = Assignment::new(reg("r", 64), loki::expression_utils::nor(reg("a", 64), reg("b", 64), 64));
    assert_eq!(ALUPostProcessor::rewrite_assignment(&a).to_string(), "r = (~ (a | b))");
}

#[test]
fn bytecode_listing_text() {
    let blocks = vec![SemanticsBlock {
        output_variable: reg("t", 64),
        input_variables: vec![reg("a", 64), reg("b", 64)],
        immediate: None,
        expr: add(reg("x", 64), reg("y", 64), 64),
    }];
    let mut k2 = ALUKeys::new();
    k2.push(0xaa);
    let mut keys = MetaALUKeys::new();
    keys.insert(2, k2);
    let map = SchedulerMap { map: vec![SchedulerIndex::new(2, 0)] };
    let mut t = ByteCodeTranslator::new();
    let code = t.translate_to_bytecode(&blocks, &keys, &map);
    let program = vec![Assignment::new(reg("t", 64), add(reg("a", 64), reg("b", 64), 64))];
    assert_eq!(
        t.to_string(&program, &code),
        "t = (a + b)\n0200 0200 0300 0400 0000000000000000 aa00000000000000\n\n\nvariable map:\nt: 0002\na: 0003\nb: 0004\n"
    );
}
