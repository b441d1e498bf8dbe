use loki::bit_vecs::{ashr, mask_to_size, sdiv, sign_extend, sle, slt, srem};
use loki::expr::LinearizedExpr;
use loki::expression_utils::{constant, neg, not, reg, udiv};

fn sub(x: LinearizedExpr, y: LinearizedExpr, size: usize) -> LinearizedExpr {
    loki::expression_utils::sub(x, y, size)
}

fn add(x: LinearizedExpr, y: LinearizedExpr, size: usize) -> LinearizedExpr {
    loki::expression_utils::add(x, y, size)
}

#[test]
fn sub_of_itself_is_zero() {
    let x = reg("x", 64);
    assert_eq!(sub(x.clone(), x, 64).simplify(), constant(0, 64));
    let y = add(reg("a", 64), reg("b", 64), 64);
    assert_eq!(sub(y.clone(), y, 64).simplify(), constant(0, 64));
}

#[test]
fn add_zero_is_identity() {
    assert_eq!(add(reg("p0", 8), constant(0, 8), 8).simplify(), reg("p0", 8));
}

#[test]
fn simplify_is_idempotent() {
    let e = sub(
        add(constant(3, 32), reg("a", 32), 32),
        not(not(reg("b", 32), 32), 32),
        32,
    );
    let once = e.simplify();
    assert_eq!(once.simplify(), once);
}

#[test]
fn constants_fold_with_wrapping() {
    assert_eq!(add(constant(200, 8), constant(100, 8), 8).simplify(), constant(44, 8));
    assert_eq!(sub(constant(1, 16), constant(2, 16), 16).simplify(), constant(0xffff, 16));
}

#[test]
fn unsigned_division_by_zero_is_all_ones() {
    assert_eq!(udiv(constant(5, 8), constant(0, 8), 8).simplify(), constant(0xff, 8));
}

#[test]
fn double_negation_cancels() {
    assert_eq!(neg(neg(reg("a", 8), 8), 8).simplify(), reg("a", 8));
    assert_eq!(not(not(reg("a", 8), 8), 8).simplify(), reg("a", 8));
}

#[test]
fn constant_goes_right() {
    assert_eq!(
        add(constant(3, 8), reg("a", 8), 8).simplify(),
        add(reg("a", 8), constant(3, 8), 8)
    );
}

#[test]
fn constants_reassociate() {
    let e = add(add(reg("a", 8), constant(1, 8), 8), constant(2, 8), 8);
    assert_eq!(e.simplify(), add(reg("a", 8), constant(3, 8), 8));
}

#[test]
fn subtraction_becomes_addition_of_negation() {
    let e = sub(reg("a", 8), reg("b", 8), 8);
    assert_eq!(e.simplify(), add(reg("a", 8), neg(reg("b", 8), 8), 8));
}

#[test]
fn signed_division_conventions() {
    assert_eq!(sdiv(0x80, 0, 8), 1);
    assert_eq!(sdiv(5, 0, 8), 0xff);
    assert_eq!(sdiv(0xf9, 2, 8), 0xfd);
    assert_eq!(sdiv(0x80, 0xff, 8), 0x80);
    assert_eq!(sdiv(0x8000_0000_0000_0000, u64::MAX, 64), 0x8000_0000_0000_0000);
    assert_eq!(srem(7, 0, 8), 7);
    assert_eq!(srem(0xf9, 2, 8), 0xff);
    assert_eq!(srem(7, 0xfe, 8), 1);
}

#[test]
fn signed_comparisons_and_shift() {
    assert_eq!(slt(0xff, 1, 8), 1);
    assert_eq!(slt(1, 0xff, 8), 0);
    assert_eq!(sle(0x80, 0x80, 8), 1);
    assert_eq!(ashr(0x80, 3, 8), 0xf0);
    assert_eq!(ashr(0x80, 100, 8), 0xff);
    assert_eq!(ashr(0x40, 3, 8), 0x08);
    assert_eq!(sign_extend(0x80, 8, 16), 0xff80);
    assert_eq!(mask_to_size(0x1234, 8), 0x34);
}

#[test]
fn equality_with_itself_is_one() {
    let a = reg("a", 64);
    let e = loki::expression_utils::equal(a.clone(), a, 64);
    assert_eq!(e.simplify(), constant(1, 64));
}

#[test]
fn constant_concatenation_puts_low_part_low() {
    let e = loki::expression_utils::concat(constant(1, 8), constant(0, 16));
    assert_eq!(e.simplify(), constant(0x10000, 24));
}

#[test]
fn self_comparisons_reduce() {
    let x = loki::expression_utils::add(reg("p", 32), reg("q", 32), 32);
    assert_eq!(loki::expression_utils::ult(x.clone(), x.clone(), 32).simplify(), constant(0, 32));
    assert_eq!(loki::expression_utils::ule(x.clone(), x.clone(), 32).simplify(), constant(1, 32));
    assert_eq!(loki::expression_utils::xor(x.clone(), x.clone(), 32).simplify(), constant(0, 32));
    assert_eq!(loki::expression_utils::or(x.clone(), x.clone(), 32).simplify(), x.simplify());
}
