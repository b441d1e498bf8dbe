use loki::emulator::eval_alu;
use loki::expr::{LinearExpr, LinearExprOp, LinearizedExpr};
use loki::expression_utils::{constant, reg};
use loki::term_rewriter::{rewrite_to_equivalent_mba, rewrite_to_equivalent_mba_top_level, TermRewriter};

fn add(x: LinearizedExpr, y: LinearizedExpr) -> LinearizedExpr {
    loki::expression_utils::add(x, y, 64)
}

fn xor(x: LinearizedExpr, y: LinearizedExpr) -> LinearizedExpr {
    loki::expression_utils::xor(x, y, 64)
}

fn and(x: LinearizedExpr, y: LinearizedExpr) -> LinearizedExpr {
    loki::expression_utils::and(x, y, 64)
}

// x + y == (x ^ y) + 2 * (x & y)
fn rules() -> TermRewriter {
    let mba = add(
        xor(reg("p0", 64), reg("p1", 64)),
        loki::expression_utils::mul(constant(2, 64), and(reg("p0", 64), reg("p1", 64)), 64),
    );
    TermRewriter::new(vec![(LinearExpr::new(LinearExprOp::Add, 64), vec![mba])])
}

#[test]
fn top_level_rewrite_keeps_semantics() {
    let e = add(reg("x", 64), reg("y", 64));
    let r = rewrite_to_equivalent_mba_top_level(e.clone(), &rules(), true, &vec![0, 0, 0]);
    assert_ne!(r, e);
    for (x, y) in [(1u64, 2u64), (u64::MAX, 5), (0x1234, 0xff00)] {
        assert_eq!(eval_alu(&r, x, y, 0, 0), eval_alu(&e, x, y, 0, 0));
    }
}

#[test]
fn disabled_rewrite_is_identity() {
    let e = add(reg("x", 64), reg("y", 64));
    assert_eq!(rewrite_to_equivalent_mba(e.clone(), &rules(), false, &vec![1, 2, 3]), e);
}

#[test]
fn rounds_keep_semantics() {
    let e = add(add(reg("x", 64), reg("y", 64)), reg("c", 64));
    let draws: Vec<u64> = (0..400u64).map(|i| i.wrapping_mul(0x9e37_79b9_7f4a_7c15) >> 9).collect();
    let r = rewrite_to_equivalent_mba(e.clone(), &rules(), true, &draws);
    for (x, y, c) in [(1u64, 2u64, 3u64), (u64::MAX, 5, 7), (0x1234, 0xff00, 0)] {
        assert_eq!(eval_alu(&r, x, y, c, 0), eval_alu(&e, x, y, c, 0));
    }
}
