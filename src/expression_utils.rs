//! Constructors of postfix expressions, one per operator and width.
use crate::bit_vecs::{mask, mask_to_size};
use vstd::arithmetic::power2::{lemma2_to64, pow2};
use vstd::bits::{lemma_u64_pow2_no_overflow, lemma_u64_shl_is_mul};
use crate::expr::{
    lemma_leaf_wf, lemma_postfix1_wf, lemma_postfix2_wf, lemma_postfix3_wf, node, op_arity, postfix1,
    postfix2, postfix3, well_formed, width, LinearExpr, LinearExprOp, LinearizedExpr, NodeView, OpView,
};
use vstd::prelude::*;

verus! {

/// A constant leaf of width `size`, its value reduced to that width.
pub open spec fn const_leaf(v: u64, size: usize) -> Seq<NodeView> {
    seq![node(OpView::Const(mask(v, size as nat)), size)]
}

/// Operands of a binary operator other than concatenation or store: equal widths,
/// which are the operator's width.
pub open spec fn binary_operands(x: Seq<NodeView>, y: Seq<NodeView>, size: usize) -> bool {
    &&& x.len() > 0
    &&& y.len() > 0
    &&& width(x) == size
    &&& width(y) == size
}

/// Largest shift amount kept by the masking shift constructors.
pub open spec fn shift_bound(size: usize) -> u64 {
    if size == 64 {
        63
    } else {
        31
    }
}

/// The shift amount `y` masked with [`shift_bound`].
pub open spec fn reduced_shift(y: Seq<NodeView>, size: usize) -> Seq<NodeView> {
    postfix2(y, const_leaf(shift_bound(size), size), OpView::And, size)
}

pub fn op0(op: LinearExprOp, size: usize) -> (r: LinearizedExpr)
    requires
        size > 0,
    ensures
        r@ == seq![node(op@, size)],
        op_arity(op@) == 0 ==> well_formed(r@),
{
    proof {
        if op_arity(op@) == 0 {
            lemma_leaf_wf(op@, size);
        }
    }
    LinearizedExpr::from_linear_expr(LinearExpr { op, size })
}

pub fn op1(x: LinearizedExpr, op: LinearExprOp, size: usize) -> (r: LinearizedExpr)
    requires
        size > 0,
    ensures
        r@ == postfix1(x@, op@, size),
        well_formed(x@) && op_arity(op@) == 1 ==> well_formed(r@),
{
    proof {
        if well_formed(x@) && op_arity(op@) == 1 {
            lemma_postfix1_wf(x@, op@, size);
        }
    }
    let mut ret = LinearizedExpr::new(vec![]);
    assert(ret@ =~= Seq::<NodeView>::empty());
    ret.extend(x);
    ret.push(LinearExpr::new(op, size));
    assert(ret@ =~= postfix1(x@, op@, size));
    ret
}

pub fn op2(x: LinearizedExpr, y: LinearizedExpr, op: LinearExprOp, size: usize) -> (r: LinearizedExpr)
    requires
        size > 0,
        !(op@ is Concat || op@ is Store) ==> binary_operands(x@, y@, size),
    ensures
        r@ == postfix2(x@, y@, op@, size),
        well_formed(x@) && well_formed(y@) && op_arity(op@) == 2 ==> well_formed(r@),
{
    proof {
        if well_formed(x@) && well_formed(y@) && op_arity(op@) == 2 {
            lemma_postfix2_wf(x@, y@, op@, size);
        }
    }
    let mut ret = LinearizedExpr::new(vec![]);
    assert(ret@ =~= Seq::<NodeView>::empty());
    ret.extend(x);
    ret.extend(y);
    ret.push(LinearExpr::new(op, size));
    assert(ret@ =~= postfix2(x@, y@, op@, size));
    ret
}

pub fn op3(
    x: LinearizedExpr,
    y: LinearizedExpr,
    z: LinearizedExpr,
    op: LinearExprOp,
    size: usize,
) -> (r: LinearizedExpr)
    requires
        size > 0,
    ensures
        r@ == postfix3(x@, y@, z@, op@, size),
        well_formed(x@) && well_formed(y@) && well_formed(z@) && op_arity(op@) == 3 ==> well_formed(r@),
{
    proof {
        if well_formed(x@) && well_formed(y@) && well_formed(z@) && op_arity(op@) == 3 {
            lemma_postfix3_wf(x@, y@, z@, op@, size);
        }
    }
    let mut ret = LinearizedExpr::new(vec![]);
    assert(ret@ =~= Seq::<NodeView>::empty());
    ret.extend(x);
    ret.extend(y);
    ret.extend(z);
    ret.push(LinearExpr::new(op, size));
    assert(ret@ =~= postfix3(x@, y@, z@, op@, size));
    ret
}

/// `lhs = rhs`; both sides have the same width.
pub fn assignment(lhs: LinearizedExpr, rhs: LinearizedExpr) -> (r: LinearizedExpr)
    requires
        lhs@.len() > 0,
        rhs@.len() > 0,
        width(lhs@) == width(rhs@),
        width(lhs@) > 0,
    ensures
        r@ == postfix2(lhs@, rhs@, OpView::Assign, width(lhs@)),
        well_formed(lhs@) && well_formed(rhs@) ==> well_formed(r@),
{
    let size = lhs.size();
    op2(lhs, rhs, LinearExprOp::Assign, size)
}

/// The register named `s`.
pub fn reg(s: &str, size: usize) -> (r: LinearizedExpr)
    requires
        size > 0,
    ensures
        r@ == seq![node(OpView::Reg(s@), size)],
        well_formed(r@),
{
    op0(LinearExprOp::Reg(s.to_owned()), size)
}

pub fn reg_slice(start: u8, end: u8, size: usize) -> (r: LinearizedExpr)
    requires
        size > 0,
    ensures
        r@ == seq![node(OpView::RegSlice(start, end), size)],
        well_formed(r@),
{
    op0(LinearExprOp::RegSlice(start, end), size)
}

pub fn const_slice(start: u8, end: u8, size: usize) -> (r: LinearizedExpr)
    requires
        size > 0,
    ensures
        r@ == seq![node(OpView::ConstSlice(start, end), size)],
        well_formed(r@),
{
    op0(LinearExprOp::ConstSlice(start, end), size)
}

/// The constant `x` reduced to `size` bits.
pub fn constant(x: u64, size: usize) -> (r: LinearizedExpr)
    requires
        size > 0,
    ensures
        r@ == const_leaf(x, size),
        well_formed(r@),
{
    op0(LinearExprOp::Const(mask_to_size(x, size)), size)
}

/// An allocation of `c` bytes (reduced to `size` bits).
pub fn alloc_expr(c: u64, size: usize) -> (r: LinearizedExpr)
    requires
        size > 0,
    ensures
        r@ == seq![node(OpView::Alloc(mask(c, size as nat)), size)],
        well_formed(r@),
{
    op0(LinearExprOp::Alloc(mask_to_size(c, size)), size)
}

pub fn nop(size: usize) -> (r: LinearizedExpr)
    requires
        size > 0,
    ensures
        r@ == seq![node(OpView::Nop, size)],
        well_formed(r@),
{
    op0(LinearExprOp::Nop, size)
}

fn reduce_shift_op(y: LinearizedExpr, size: usize) -> (r: LinearizedExpr)
    requires
        binary_operands(y@, y@, size),
        size > 0,
    ensures
        r@ == reduced_shift(y@, size),
        well_formed(y@) ==> well_formed(r@),
{
    let shift_size: u64 = if size == 64 {
        63
    } else {
        31
    };
    let c = constant(shift_size, size);
    op2(y, c, LinearExprOp::And, size)
}

pub fn reg_slice8(start: u8, end: u8) -> (r: LinearizedExpr)
    ensures
        r@ == seq![node(OpView::RegSlice(start, end), 8)],
        well_formed(r@),
{
    reg_slice(start, end, 8)
}

pub fn reg_slice16(start: u8, end: u8) -> (r: LinearizedExpr)
    ensures
        r@ == seq![node(OpView::RegSlice(start, end), 16)],
        well_formed(r@),
{
    reg_slice(start, end, 16)
}

pub fn reg_slice32(start: u8, end: u8) -> (r: LinearizedExpr)
    ensures
        r@ == seq![node(OpView::RegSlice(start, end), 32)],
        well_formed(r@),
{
    reg_slice(start, end, 32)
}

pub fn reg_slice64(start: u8, end: u8) -> (r: LinearizedExpr)
    ensures
        r@ == seq![node(OpView::RegSlice(start, end), 64)],
        well_formed(r@),
{
    reg_slice(start, end, 64)
}

pub fn const_slice5(start: u8, end: u8) -> (r: LinearizedExpr)
    ensures
        r@ == seq![node(OpView::ConstSlice(start, end), 5)],
        well_formed(r@),
{
    const_slice(start, end, 5)
}

pub fn const_slice8(start: u8, end: u8) -> (r: LinearizedExpr)
    ensures
        r@ == seq![node(OpView::ConstSlice(start, end), 8)],
        well_formed(r@),
{
    const_slice(start, end, 8)
}

pub fn const_slice16(start: u8, end: u8) -> (r: LinearizedExpr)
    ensures
        r@ == seq![node(OpView::ConstSlice(start, end), 16)],
        well_formed(r@),
{
    const_slice(start, end, 16)
}

pub fn const_slice26(start: u8, end: u8) -> (r: LinearizedExpr)
    ensures
        r@ == seq![node(OpView::ConstSlice(start, end), 26)],
        well_formed(r@),
{
    const_slice(start, end, 26)
}

pub fn const_slice32(start: u8, end: u8) -> (r: LinearizedExpr)
    ensures
        r@ == seq![node(OpView::ConstSlice(start, end), 32)],
        well_formed(r@),
{
    const_slice(start, end, 32)
}

pub fn const_slice64(start: u8, end: u8) -> (r: LinearizedExpr)
    ensures
        r@ == seq![node(OpView::ConstSlice(start, end), 64)],
        well_formed(r@),
{
    const_slice(start, end, 64)
}

pub fn constant8(x: u64) -> (r: LinearizedExpr)
    ensures
        r@ == const_leaf(x, 8),
        well_formed(r@),
{
    constant(x, 8)
}

pub fn constant16(x: u64) -> (r: LinearizedExpr)
    ensures
        r@ == const_leaf(x, 16),
        well_formed(r@),
{
    constant(x, 16)
}

pub fn constant32(x: u64) -> (r: LinearizedExpr)
    ensures
        r@ == const_leaf(x, 32),
        well_formed(r@),
{
    constant(x, 32)
}

pub fn constant64(x: u64) -> (r: LinearizedExpr)
    ensures
        r@ == const_leaf(x, 64),
        well_formed(r@),
{
    constant(x, 64)
}

pub fn mem(x: LinearizedExpr, size: usize) -> (r: LinearizedExpr)
    requires
        size > 0,
    ensures
        r@ == postfix1(x@, OpView::Mem, size),
        well_formed(x@) ==> well_formed(r@),
{
    op1(x, LinearExprOp::Mem, size)
}

pub fn mem8(x: LinearizedExpr) -> (r: LinearizedExpr)
    ensures
        r@ == postfix1(x@, OpView::Mem, 8),
        well_formed(x@) ==> well_formed(r@),
{
    mem(x, 8)
}

pub fn mem16(x: LinearizedExpr) -> (r: LinearizedExpr)
    ensures
        r@ == postfix1(x@, OpView::Mem, 16),
        well_formed(x@) ==> well_formed(r@),
{
    mem(x, 16)
}

pub fn mem32(x: LinearizedExpr) -> (r: LinearizedExpr)
    ensures
        r@ == postfix1(x@, OpView::Mem, 32),
        well_formed(x@) ==> well_formed(r@),
{
    mem(x, 32)
}

pub fn load(x: LinearizedExpr, size: usize) -> (r: LinearizedExpr)
    requires
        size > 0,
    ensures
        r@ == postfix1(x@, OpView::Load, size),
        well_formed(x@) ==> well_formed(r@),
{
    op1(x, LinearExprOp::Load, size)
}

pub fn not(x: LinearizedExpr, size: usize) -> (r: LinearizedExpr)
    requires
        size > 0,
    ensures
        r@ == postfix1(x@, OpView::Not, size),
        well_formed(x@) ==> well_formed(r@),
{
    op1(x, LinearExprOp::Not, size)
}

pub fn not8(x: LinearizedExpr) -> (r: LinearizedExpr)
    ensures
        r@ == postfix1(x@, OpView::Not, 8),
        well_formed(x@) ==> well_formed(r@),
{
    not(x, 8)
}

pub fn not16(x: LinearizedExpr) -> (r: LinearizedExpr)
    ensures
        r@ == postfix1(x@, OpView::Not, 16),
        well_formed(x@) ==> well_formed(r@),
{
    not(x, 16)
}

pub fn not32(x: LinearizedExpr) -> (r: LinearizedExpr)
    ensures
        r@ == postfix1(x@, OpView::Not, 32),
        well_formed(x@) ==> well_formed(r@),
{
    not(x, 32)
}

pub fn not64(x: LinearizedExpr) -> (r: LinearizedExpr)
    ensures
        r@ == postfix1(x@, OpView::Not, 64),
        well_formed(x@) ==> well_formed(r@),
{
    not(x, 64)
}

pub fn neg(x: LinearizedExpr, size: usize) -> (r: LinearizedExpr)
    requires
        size > 0,
    ensures
        r@ == postfix1(x@, OpView::Neg, size),
        well_formed(x@) ==> well_formed(r@),
{
    op1(x, LinearExprOp::Neg, size)
}

pub fn neg8(x: LinearizedExpr) -> (r: LinearizedExpr)
    ensures
        r@ == postfix1(x@, OpView::Neg, 8),
        well_formed(x@) ==> well_formed(r@),
{
    neg(x, 8)
}

pub fn neg16(x: LinearizedExpr) -> (r: LinearizedExpr)
    ensures
        r@ == postfix1(x@, OpView::Neg, 16),
        well_formed(x@) ==> well_formed(r@),
{
    neg(x, 16)
}

pub fn neg32(x: LinearizedExpr) -> (r: LinearizedExpr)
    ensures
        r@ == postfix1(x@, OpView::Neg, 32),
        well_formed(x@) ==> well_formed(r@),
{
    neg(x, 32)
}

pub fn neg64(x: LinearizedExpr) -> (r: LinearizedExpr)
    ensures
        r@ == postfix1(x@, OpView::Neg, 64),
        well_formed(x@) ==> well_formed(r@),
{
    neg(x, 64)
}

/// Stores `y` at address `x`.
pub fn store(x: LinearizedExpr, y: LinearizedExpr, size: usize) -> (r: LinearizedExpr)
    requires
        size > 0,
    ensures
        r@ == postfix2(x@, y@, OpView::Store, size),
        well_formed(x@) && well_formed(y@) ==> well_formed(r@),
{
    op2(x, y, LinearExprOp::Store, size)
}

pub fn sign_extend(x: LinearizedExpr, size: usize) -> (r: LinearizedExpr)
    requires
        x@.len() > 0,
        width(x@) <= size,
        size > 0,
    ensures
        r@ == postfix1(x@, OpView::SignExtend, size),
        well_formed(x@) ==> well_formed(r@),
{
    op1(x, LinearExprOp::SignExtend, size)
}

pub fn zero_extend(x: LinearizedExpr, size: usize) -> (r: LinearizedExpr)
    requires
        x@.len() > 0,
        width(x@) <= size,
        size > 0,
    ensures
        r@ == postfix1(x@, OpView::ZeroExtend, size),
        well_formed(x@) ==> well_formed(r@),
{
    op1(x, LinearExprOp::ZeroExtend, size)
}

/// Bits `start..=end` of `x`.
pub fn slice(x: LinearizedExpr, start: u8, end: u8) -> (r: LinearizedExpr)
    requires
        start <= end,
    ensures
        r@ == postfix1(x@, OpView::Slice(start, end), (end - start + 1) as usize),
        well_formed(x@) ==> well_formed(r@),
{
    let size = (end - start) as usize + 1;
    op1(x, LinearExprOp::Slice(start, end), size)
}

/// The least significant bit of `x`.
pub fn lsb(x: LinearizedExpr) -> (r: LinearizedExpr)
    ensures
        r@ == postfix1(x@, OpView::Slice(0, 0), 1),
        well_formed(x@) ==> well_formed(r@),
{
    slice(x, 0, 0)
}

/// `x ++ y`: the width is the sum of the operands' widths.
pub fn concat(x: LinearizedExpr, y: LinearizedExpr) -> (r: LinearizedExpr)
    requires
        x@.len() > 0,
        y@.len() > 0,
        0 < width(x@) + width(y@) <= usize::MAX,
    ensures
        r@ == postfix2(x@, y@, OpView::Concat, (width(x@) + width(y@)) as usize),
        well_formed(x@) && well_formed(y@) ==> well_formed(r@),
{
    let size = x.size() + y.size();
    op2(x, y, LinearExprOp::Concat, size)
}

pub fn add(x: LinearizedExpr, y: LinearizedExpr, size: usize) -> (r: LinearizedExpr)
    requires
        binary_operands(x@, y@, size),
        size > 0,
    ensures
        r@ == postfix2(x@, y@, OpView::Add, size),
        well_formed(x@) && well_formed(y@) ==> well_formed(r@),
{
    op2(x, y, LinearExprOp::Add, size)
}

pub fn add8(x: LinearizedExpr, y: LinearizedExpr) -> (r: LinearizedExpr)
    requires
        binary_operands(x@, y@, 8),
    ensures
        r@ == postfix2(x@, y@, OpView::Add, 8),
        well_formed(x@) && well_formed(y@) ==> well_formed(r@),
{
    crate::expression_utils::add(x, y, 8)
}

pub fn add16(x: LinearizedExpr, y: LinearizedExpr) -> (r: LinearizedExpr)
    requires
        binary_operands(x@, y@, 16),
    ensures
        r@ == postfix2(x@, y@, OpView::Add, 16),
        well_formed(x@) && well_formed(y@) ==> well_formed(r@),
{
    crate::expression_utils::add(x, y, 16)
}

pub fn add32(x: LinearizedExpr, y: LinearizedExpr) -> (r: LinearizedExpr)
    requires
        binary_operands(x@, y@, 32),
    ensures
        r@ == postfix2(x@, y@, OpView::Add, 32),
        well_formed(x@) && well_formed(y@) ==> well_formed(r@),
{
    crate::expression_utils::add(x, y, 32)
}

pub fn add64(x: LinearizedExpr, y: LinearizedExpr) -> (r: LinearizedExpr)
    requires
        binary_operands(x@, y@, 64),
    ensures
        r@ == postfix2(x@, y@, OpView::Add, 64),
        well_formed(x@) && well_formed(y@) ==> well_formed(r@),
{
    crate::expression_utils::add(x, y, 64)
}

pub fn mul(x: LinearizedExpr, y: LinearizedExpr, size: usize) -> (r: LinearizedExpr)
    requires
        binary_operands(x@, y@, size),
        size > 0,
    ensures
        r@ == postfix2(x@, y@, OpView::Mul, size),
        well_formed(x@) && well_formed(y@) ==> well_formed(r@),
{
    op2(x, y, LinearExprOp::Mul, size)
}

pub fn mul8(x: LinearizedExpr, y: LinearizedExpr) -> (r: LinearizedExpr)
    requires
        binary_operands(x@, y@, 8),
    ensures
        r@ == postfix2(x@, y@, OpView::Mul, 8),
        well_formed(x@) && well_formed(y@) ==> well_formed(r@),
{
    crate::expression_utils::mul(x, y, 8)
}

pub fn mul16(x: LinearizedExpr, y: LinearizedExpr) -> (r: LinearizedExpr)
    requires
        binary_operands(x@, y@, 16),
    ensures
        r@ == postfix2(x@, y@, OpView::Mul, 16),
        well_formed(x@) && well_formed(y@) ==> well_formed(r@),
{
    crate::expression_utils::mul(x, y, 16)
}

pub fn mul32(x: LinearizedExpr, y: LinearizedExpr) -> (r: LinearizedExpr)
    requires
        binary_operands(x@, y@, 32),
    ensures
        r@ == postfix2(x@, y@, OpView::Mul, 32),
        well_formed(x@) && well_formed(y@) ==> well_formed(r@),
{
    crate::expression_utils::mul(x, y, 32)
}

pub fn mul64(x: LinearizedExpr, y: LinearizedExpr) -> (r: LinearizedExpr)
    requires
        binary_operands(x@, y@, 64),
    ensures
        r@ == postfix2(x@, y@, OpView::Mul, 64),
        well_formed(x@) && well_formed(y@) ==> well_formed(r@),
{
    crate::expression_utils::mul(x, y, 64)
}

pub fn udiv(x: LinearizedExpr, y: LinearizedExpr, size: usize) -> (r: LinearizedExpr)
    requires
        binary_operands(x@, y@, size),
        size > 0,
    ensures
        r@ == postfix2(x@, y@, OpView::Udiv, size),
        well_formed(x@) && well_formed(y@) ==> well_formed(r@),
{
    op2(x, y, LinearExprOp::Udiv, size)
}

pub fn udiv8(x: LinearizedExpr, y: LinearizedExpr) -> (r: LinearizedExpr)
    requires
        binary_operands(x@, y@, 8),
    ensures
        r@ == postfix2(x@, y@, OpView::Udiv, 8),
        well_formed(x@) && well_formed(y@) ==> well_formed(r@),
{
    udiv(x, y, 8)
}

pub fn udiv16(x: LinearizedExpr, y: LinearizedExpr) -> (r: LinearizedExpr)
    requires
        binary_operands(x@, y@, 16),
    ensures
        r@ == postfix2(x@, y@, OpView::Udiv, 16),
        well_formed(x@) && well_formed(y@) ==> well_formed(r@),
{
    udiv(x, y, 16)
}

pub fn udiv32(x: LinearizedExpr, y: LinearizedExpr) -> (r: LinearizedExpr)
    requires
        binary_operands(x@, y@, 32),
    ensures
        r@ == postfix2(x@, y@, OpView::Udiv, 32),
        well_formed(x@) && well_formed(y@) ==> well_formed(r@),
{
    udiv(x, y, 32)
}

pub fn udiv64(x: LinearizedExpr, y: LinearizedExpr) -> (r: LinearizedExpr)
    requires
        binary_operands(x@, y@, 64),
    ensures
        r@ == postfix2(x@, y@, OpView::Udiv, 64),
        well_formed(x@) && well_formed(y@) ==> well_formed(r@),
{
    udiv(x, y, 64)
}

pub fn sdiv(x: LinearizedExpr, y: LinearizedExpr, size: usize) -> (r: LinearizedExpr)
    requires
        binary_operands(x@, y@, size),
        size > 0,
    ensures
        r@ == postfix2(x@, y@, OpView::Sdiv, size),
        well_formed(x@) && well_formed(y@) ==> well_formed(r@),
{
    op2(x, y, LinearExprOp::Sdiv, size)
}

pub fn sdiv8(x: LinearizedExpr, y: LinearizedExpr) -> (r: LinearizedExpr)
    requires
        binary_operands(x@, y@, 8),
    ensures
        r@ == postfix2(x@, y@, OpView::Sdiv, 8),
        well_formed(x@) && well_formed(y@) ==> well_formed(r@),
{
    sdiv(x, y, 8)
}

pub fn sdiv16(x: LinearizedExpr, y: LinearizedExpr) -> (r: LinearizedExpr)
    requires
        binary_operands(x@, y@, 16),
    ensures
        r@ == postfix2(x@, y@, OpView::Sdiv, 16),
        well_formed(x@) && well_formed(y@) ==> well_formed(r@),
{
    sdiv(x, y, 16)
}

pub fn sdiv32(x: LinearizedExpr, y: LinearizedExpr) -> (r: LinearizedExpr)
    requires
        binary_operands(x@, y@, 32),
    ensures
        r@ == postfix2(x@, y@, OpView::Sdiv, 32),
        well_formed(x@) && well_formed(y@) ==> well_formed(r@),
{
    sdiv(x, y, 32)
}

pub fn sdiv64(x: LinearizedExpr, y: LinearizedExpr) -> (r: LinearizedExpr)
    requires
        binary_operands(x@, y@, 64),
    ensures
        r@ == postfix2(x@, y@, OpView::Sdiv, 64),
        well_formed(x@) && well_formed(y@) ==> well_formed(r@),
{
    sdiv(x, y, 64)
}

pub fn urem(x: LinearizedExpr, y: LinearizedExpr, size: usize) -> (r: LinearizedExpr)
    requires
        binary_operands(x@, y@, size),
        size > 0,
    ensures
        r@ == postfix2(x@, y@, OpView::Urem, size),
        well_formed(x@) && well_formed(y@) ==> well_formed(r@),
{
    op2(x, y, LinearExprOp::Urem, size)
}

pub fn urem8(x: LinearizedExpr, y: LinearizedExpr) -> (r: LinearizedExpr)
    requires
        binary_operands(x@, y@, 8),
    ensures
        r@ == postfix2(x@, y@, OpView::Urem, 8),
        well_formed(x@) && well_formed(y@) ==> well_formed(r@),
{
    urem(x, y, 8)
}

pub fn urem16(x: LinearizedExpr, y: LinearizedExpr) -> (r: LinearizedExpr)
    requires
        binary_operands(x@, y@, 16),
    ensures
        r@ == postfix2(x@, y@, OpView::Urem, 16),
        well_formed(x@) && well_formed(y@) ==> well_formed(r@),
{
    urem(x, y, 16)
}

pub fn urem32(x: LinearizedExpr, y: LinearizedExpr) -> (r: LinearizedExpr)
    requires
        binary_operands(x@, y@, 32),
    ensures
        r@ == postfix2(x@, y@, OpView::Urem, 32),
        well_formed(x@) && well_formed(y@) ==> well_formed(r@),
{
    urem(x, y, 32)
}

pub fn urem64(x: LinearizedExpr, y: LinearizedExpr) -> (r: LinearizedExpr)
    requires
        binary_operands(x@, y@, 64),
    ensures
        r@ == postfix2(x@, y@, OpView::Urem, 64),
        well_formed(x@) && well_formed(y@) ==> well_formed(r@),
{
    urem(x, y, 64)
}

pub fn srem(x: LinearizedExpr, y: LinearizedExpr, size: usize) -> (r: LinearizedExpr)
    requires
        binary_operands(x@, y@, size),
        size > 0,
    ensures
        r@ == postfix2(x@, y@, OpView::Srem, size),
        well_formed(x@) && well_formed(y@) ==> well_formed(r@),
{
    op2(x, y, LinearExprOp::Srem, size)
}

pub fn srem8(x: LinearizedExpr, y: LinearizedExpr) -> (r: LinearizedExpr)
    requires
        binary_operands(x@, y@, 8),
    ensures
        r@ == postfix2(x@, y@, OpView::Srem, 8),
        well_formed(x@) && well_formed(y@) ==> well_formed(r@),
{
    srem(x, y, 8)
}

pub fn srem16(x: LinearizedExpr, y: LinearizedExpr) -> (r: LinearizedExpr)
    requires
        binary_operands(x@, y@, 16),
    ensures
        r@ == postfix2(x@, y@, OpView::Srem, 16),
        well_formed(x@) && well_formed(y@) ==> well_formed(r@),
{
    srem(x, y, 16)
}

pub fn srem32(x: LinearizedExpr, y: LinearizedExpr) -> (r: LinearizedExpr)
    requires
        binary_operands(x@, y@, 32),
    ensures
        r@ == postfix2(x@, y@, OpView::Srem, 32),
        well_formed(x@) && well_formed(y@) ==> well_formed(r@),
{
    srem(x, y, 32)
}

pub fn srem64(x: LinearizedExpr, y: LinearizedExpr) -> (r: LinearizedExpr)
    requires
        binary_operands(x@, y@, 64),
    ensures
        r@ == postfix2(x@, y@, OpView::Srem, 64),
        well_formed(x@) && well_formed(y@) ==> well_formed(r@),
{
    srem(x, y, 64)
}

pub fn sub(x: LinearizedExpr, y: LinearizedExpr, size: usize) -> (r: LinearizedExpr)
    requires
        binary_operands(x@, y@, size),
        size > 0,
    ensures
        r@ == postfix2(x@, y@, OpView::Sub, size),
        well_formed(x@) && well_formed(y@) ==> well_formed(r@),
{
    op2(x, y, LinearExprOp::Sub, size)
}

pub fn sub8(x: LinearizedExpr, y: LinearizedExpr) -> (r: LinearizedExpr)
    requires
        binary_operands(x@, y@, 8),
    ensures
        r@ == postfix2(x@, y@, OpView::Sub, 8),
        well_formed(x@) && well_formed(y@) ==> well_formed(r@),
{
    crate::expression_utils::sub(x, y, 8)
}

pub fn sub16(x: LinearizedExpr, y: LinearizedExpr) -> (r: LinearizedExpr)
    requires
        binary_operands(x@, y@, 16),
    ensures
        r@ == postfix2(x@, y@, OpView::Sub, 16),
        well_formed(x@) && well_formed(y@) ==> well_formed(r@),
{
    crate::expression_utils::sub(x, y, 16)
}

pub fn sub32(x: LinearizedExpr, y: LinearizedExpr) -> (r: LinearizedExpr)
    requires
        binary_operands(x@, y@, 32),
    ensures
        r@ == postfix2(x@, y@, OpView::Sub, 32),
        well_formed(x@) && well_formed(y@) ==> well_formed(r@),
{
    crate::expression_utils::sub(x, y, 32)
}

pub fn sub64(x: LinearizedExpr, y: LinearizedExpr) -> (r: LinearizedExpr)
    requires
        binary_operands(x@, y@, 64),
    ensures
        r@ == postfix2(x@, y@, OpView::Sub, 64),
        well_formed(x@) && well_formed(y@) ==> well_formed(r@),
{
    crate::expression_utils::sub(x, y, 64)
}

pub fn and(x: LinearizedExpr, y: LinearizedExpr, size: usize) -> (r: LinearizedExpr)
    requires
        binary_operands(x@, y@, size),
        size > 0,
    ensures
        r@ == postfix2(x@, y@, OpView::And, size),
        well_formed(x@) && well_formed(y@) ==> well_formed(r@),
{
    op2(x, y, LinearExprOp::And, size)
}

pub fn and8(x: LinearizedExpr, y: LinearizedExpr) -> (r: LinearizedExpr)
    requires
        binary_operands(x@, y@, 8),
    ensures
        r@ == postfix2(x@, y@, OpView::And, 8),
        well_formed(x@) && well_formed(y@) ==> well_formed(r@),
{
    and(x, y, 8)
}

pub fn and16(x: LinearizedExpr, y: LinearizedExpr) -> (r: LinearizedExpr)
    requires
        binary_operands(x@, y@, 16),
    ensures
        r@ == postfix2(x@, y@, OpView::And, 16),
        well_formed(x@) && well_formed(y@) ==> well_formed(r@),
{
    and(x, y, 16)
}

pub fn and32(x: LinearizedExpr, y: LinearizedExpr) -> (r: LinearizedExpr)
    requires
        binary_operands(x@, y@, 32),
    ensures
        r@ == postfix2(x@, y@, OpView::And, 32),
        well_formed(x@) && well_formed(y@) ==> well_formed(r@),
{
    and(x, y, 32)
}

pub fn and64(x: LinearizedExpr, y: LinearizedExpr) -> (r: LinearizedExpr)
    requires
        binary_operands(x@, y@, 64),
    ensures
        r@ == postfix2(x@, y@, OpView::And, 64),
        well_formed(x@) && well_formed(y@) ==> well_formed(r@),
{
    and(x, y, 64)
}

pub fn or(x: LinearizedExpr, y: LinearizedExpr, size: usize) -> (r: LinearizedExpr)
    requires
        binary_operands(x@, y@, size),
        size > 0,
    ensures
        r@ == postfix2(x@, y@, OpView::Or, size),
        well_formed(x@) && well_formed(y@) ==> well_formed(r@),
{
    op2(x, y, LinearExprOp::Or, size)
}

pub fn or8(x: LinearizedExpr, y: LinearizedExpr) -> (r: LinearizedExpr)
    requires
        binary_operands(x@, y@, 8),
    ensures
        r@ == postfix2(x@, y@, OpView::Or, 8),
        well_formed(x@) && well_formed(y@) ==> well_formed(r@),
{
    or(x, y, 8)
}

pub fn or16(x: LinearizedExpr, y: LinearizedExpr) -> (r: LinearizedExpr)
    requires
        binary_operands(x@, y@, 16),
    ensures
        r@ == postfix2(x@, y@, OpView::Or, 16),
        well_formed(x@) && well_formed(y@) ==> well_formed(r@),
{
    or(x, y, 16)
}

pub fn or32(x: LinearizedExpr, y: LinearizedExpr) -> (r: LinearizedExpr)
    requires
        binary_operands(x@, y@, 32),
    ensures
        r@ == postfix2(x@, y@, OpView::Or, 32),
        well_formed(x@) && well_formed(y@) ==> well_formed(r@),
{
    or(x, y, 32)
}

pub fn or64(x: LinearizedExpr, y: LinearizedExpr) -> (r: LinearizedExpr)
    requires
        binary_operands(x@, y@, 64),
    ensures
        r@ == postfix2(x@, y@, OpView::Or, 64),
        well_formed(x@) && well_formed(y@) ==> well_formed(r@),
{
    or(x, y, 64)
}

pub fn xor(x: LinearizedExpr, y: LinearizedExpr, size: usize) -> (r: LinearizedExpr)
    requires
        binary_operands(x@, y@, size),
        size > 0,
    ensures
        r@ == postfix2(x@, y@, OpView::Xor, size),
        well_formed(x@) && well_formed(y@) ==> well_formed(r@),
{
    op2(x, y, LinearExprOp::Xor, size)
}

pub fn xor8(x: LinearizedExpr, y: LinearizedExpr) -> (r: LinearizedExpr)
    requires
        binary_operands(x@, y@, 8),
    ensures
        r@ == postfix2(x@, y@, OpView::Xor, 8),
        well_formed(x@) && well_formed(y@) ==> well_formed(r@),
{
    xor(x, y, 8)
}

pub fn xor16(x: LinearizedExpr, y: LinearizedExpr) -> (r: LinearizedExpr)
    requires
        binary_operands(x@, y@, 16),
    ensures
        r@ == postfix2(x@, y@, OpView::Xor, 16),
        well_formed(x@) && well_formed(y@) ==> well_formed(r@),
{
    xor(x, y, 16)
}

pub fn xor32(x: LinearizedExpr, y: LinearizedExpr) -> (r: LinearizedExpr)
    requires
        binary_operands(x@, y@, 32),
    ensures
        r@ == postfix2(x@, y@, OpView::Xor, 32),
        well_formed(x@) && well_formed(y@) ==> well_formed(r@),
{
    xor(x, y, 32)
}

pub fn xor64(x: LinearizedExpr, y: LinearizedExpr) -> (r: LinearizedExpr)
    requires
        binary_operands(x@, y@, 64),
    ensures
        r@ == postfix2(x@, y@, OpView::Xor, 64),
        well_formed(x@) && well_formed(y@) ==> well_formed(r@),
{
    xor(x, y, 64)
}

pub fn nand(x: LinearizedExpr, y: LinearizedExpr, size: usize) -> (r: LinearizedExpr)
    requires
        binary_operands(x@, y@, size),
        size > 0,
    ensures
        r@ == postfix2(x@, y@, OpView::Nand, size),
        well_formed(x@) && well_formed(y@) ==> well_formed(r@),
{
    op2(x, y, LinearExprOp::Nand, size)
}

pub fn nand8(x: LinearizedExpr, y: LinearizedExpr) -> (r: LinearizedExpr)
    requires
        binary_operands(x@, y@, 8),
    ensures
        r@ == postfix2(x@, y@, OpView::Nand, 8),
        well_formed(x@) && well_formed(y@) ==> well_formed(r@),
{
    nand(x, y, 8)
}

pub fn nand16(x: LinearizedExpr, y: LinearizedExpr) -> (r: LinearizedExpr)
    requires
        binary_operands(x@, y@, 16),
    ensures
        r@ == postfix2(x@, y@, OpView::Nand, 16),
        well_formed(x@) && well_formed(y@) ==> well_formed(r@),
{
    nand(x, y, 16)
}

pub fn nand32(x: LinearizedExpr, y: LinearizedExpr) -> (r: LinearizedExpr)
    requires
        binary_operands(x@, y@, 32),
    ensures
        r@ == postfix2(x@, y@, OpView::Nand, 32),
        well_formed(x@) && well_formed(y@) ==> well_formed(r@),
{
    nand(x, y, 32)
}

pub fn nand64(x: LinearizedExpr, y: LinearizedExpr) -> (r: LinearizedExpr)
    requires
        binary_operands(x@, y@, 64),
    ensures
        r@ == postfix2(x@, y@, OpView::Nand, 64),
        well_formed(x@) && well_formed(y@) ==> well_formed(r@),
{
    nand(x, y, 64)
}

pub fn nor(x: LinearizedExpr, y: LinearizedExpr, size: usize) -> (r: LinearizedExpr)
    requires
        binary_operands(x@, y@, size),
        size > 0,
    ensures
        r@ == postfix2(x@, y@, OpView::Nor, size),
        well_formed(x@) && well_formed(y@) ==> well_formed(r@),
{
    op2(x, y, LinearExprOp::Nor, size)
}

pub fn nor8(x: LinearizedExpr, y: LinearizedExpr) -> (r: LinearizedExpr)
    requires
        binary_operands(x@, y@, 8),
    ensures
        r@ == postfix2(x@, y@, OpView::Nor, 8),
        well_formed(x@) && well_formed(y@) ==> well_formed(r@),
{
    nor(x, y, 8)
}

pub fn nor16(x: LinearizedExpr, y: LinearizedExpr) -> (r: LinearizedExpr)
    requires
        binary_operands(x@, y@, 16),
    ensures
        r@ == postfix2(x@, y@, OpView::Nor, 16),
        well_formed(x@) && well_formed(y@) ==> well_formed(r@),
{
    nor(x, y, 16)
}

pub fn nor32(x: LinearizedExpr, y: LinearizedExpr) -> (r: LinearizedExpr)
    requires
        binary_operands(x@, y@, 32),
    ensures
        r@ == postfix2(x@, y@, OpView::Nor, 32),
        well_formed(x@) && well_formed(y@) ==> well_formed(r@),
{
    nor(x, y, 32)
}

pub fn nor64(x: LinearizedExpr, y: LinearizedExpr) -> (r: LinearizedExpr)
    requires
        binary_operands(x@, y@, 64),
    ensures
        r@ == postfix2(x@, y@, OpView::Nor, 64),
        well_formed(x@) && well_formed(y@) ==> well_formed(r@),
{
    nor(x, y, 64)
}

pub fn ult(x: LinearizedExpr, y: LinearizedExpr, size: usize) -> (r: LinearizedExpr)
    requires
        binary_operands(x@, y@, size),
        size > 0,
    ensures
        r@ == postfix2(x@, y@, OpView::Ult, size),
        well_formed(x@) && well_formed(y@) ==> well_formed(r@),
{
    op2(x, y, LinearExprOp::Ult, size)
}

pub fn ult8(x: LinearizedExpr, y: LinearizedExpr) -> (r: LinearizedExpr)
    requires
        binary_operands(x@, y@, 8),
    ensures
        r@ == postfix2(x@, y@, OpView::Ult, 8),
        well_formed(x@) && well_formed(y@) ==> well_formed(r@),
{
    ult(x, y, 8)
}

pub fn ult16(x: LinearizedExpr, y: LinearizedExpr) -> (r: LinearizedExpr)
    requires
        binary_operands(x@, y@, 16),
    ensures
        r@ == postfix2(x@, y@, OpView::Ult, 16),
        well_formed(x@) && well_formed(y@) ==> well_formed(r@),
{
    ult(x, y, 16)
}

pub fn ult32(x: LinearizedExpr, y: LinearizedExpr) -> (r: LinearizedExpr)
    requires
        binary_operands(x@, y@, 32),
    ensures
        r@ == postfix2(x@, y@, OpView::Ult, 32),
        well_formed(x@) && well_formed(y@) ==> well_formed(r@),
{
    ult(x, y, 32)
}

pub fn ult64(x: LinearizedExpr, y: LinearizedExpr) -> (r: LinearizedExpr)
    requires
        binary_operands(x@, y@, 64),
    ensures
        r@ == postfix2(x@, y@, OpView::Ult, 64),
        well_formed(x@) && well_formed(y@) ==> well_formed(r@),
{
    ult(x, y, 64)
}

pub fn slt(x: LinearizedExpr, y: LinearizedExpr, size: usize) -> (r: LinearizedExpr)
    requires
        binary_operands(x@, y@, size),
        size > 0,
    ensures
        r@ == postfix2(x@, y@, OpView::Slt, size),
        well_formed(x@) && well_formed(y@) ==> well_formed(r@),
{
    op2(x, y, LinearExprOp::Slt, size)
}

pub fn slt8(x: LinearizedExpr, y: LinearizedExpr) -> (r: LinearizedExpr)
    requires
        binary_operands(x@, y@, 8),
    ensures
        r@ == postfix2(x@, y@, OpView::Slt, 8),
        well_formed(x@) && well_formed(y@) ==> well_formed(r@),
{
    slt(x, y, 8)
}

pub fn slt16(x: LinearizedExpr, y: LinearizedExpr) -> (r: LinearizedExpr)
    requires
        binary_operands(x@, y@, 16),
    ensures
        r@ == postfix2(x@, y@, OpView::Slt, 16),
        well_formed(x@) && well_formed(y@) ==> well_formed(r@),
{
    slt(x, y, 16)
}

pub fn slt32(x: LinearizedExpr, y: LinearizedExpr) -> (r: LinearizedExpr)
    requires
        binary_operands(x@, y@, 32),
    ensures
        r@ == postfix2(x@, y@, OpView::Slt, 32),
        well_formed(x@) && well_formed(y@) ==> well_formed(r@),
{
    slt(x, y, 32)
}

pub fn slt64(x: LinearizedExpr, y: LinearizedExpr) -> (r: LinearizedExpr)
    requires
        binary_operands(x@, y@, 64),
    ensures
        r@ == postfix2(x@, y@, OpView::Slt, 64),
        well_formed(x@) && well_formed(y@) ==> well_formed(r@),
{
    slt(x, y, 64)
}

pub fn ule(x: LinearizedExpr, y: LinearizedExpr, size: usize) -> (r: LinearizedExpr)
    requires
        binary_operands(x@, y@, size),
        size > 0,
    ensures
        r@ == postfix2(x@, y@, OpView::Ule, size),
        well_formed(x@) && well_formed(y@) ==> well_formed(r@),
{
    op2(x, y, LinearExprOp::Ule, size)
}

pub fn ule8(x: LinearizedExpr, y: LinearizedExpr) -> (r: LinearizedExpr)
    requires
        binary_operands(x@, y@, 8),
    ensures
        r@ == postfix2(x@, y@, OpView::Ule, 8),
        well_formed(x@) && well_formed(y@) ==> well_formed(r@),
{
    ule(x, y, 8)
}

pub fn ule16(x: LinearizedExpr, y: LinearizedExpr) -> (r: LinearizedExpr)
    requires
        binary_operands(x@, y@, 16),
    ensures
        r@ == postfix2(x@, y@, OpView::Ule, 16),
        well_formed(x@) && well_formed(y@) ==> well_formed(r@),
{
    ule(x, y, 16)
}

pub fn ule32(x: LinearizedExpr, y: LinearizedExpr) -> (r: LinearizedExpr)
    requires
        binary_operands(x@, y@, 32),
    ensures
        r@ == postfix2(x@, y@, OpView::Ule, 32),
        well_formed(x@) && well_formed(y@) ==> well_formed(r@),
{
    ule(x, y, 32)
}

pub fn ule64(x: LinearizedExpr, y: LinearizedExpr) -> (r: LinearizedExpr)
    requires
        binary_operands(x@, y@, 64),
    ensures
        r@ == postfix2(x@, y@, OpView::Ule, 64),
        well_formed(x@) && well_formed(y@) ==> well_formed(r@),
{
    ule(x, y, 64)
}

pub fn sle(x: LinearizedExpr, y: LinearizedExpr, size: usize) -> (r: LinearizedExpr)
    requires
        binary_operands(x@, y@, size),
        size > 0,
    ensures
        r@ == postfix2(x@, y@, OpView::Sle, size),
        well_formed(x@) && well_formed(y@) ==> well_formed(r@),
{
    op2(x, y, LinearExprOp::Sle, size)
}

pub fn sle8(x: LinearizedExpr, y: LinearizedExpr) -> (r: LinearizedExpr)
    requires
        binary_operands(x@, y@, 8),
    ensures
        r@ == postfix2(x@, y@, OpView::Sle, 8),
        well_formed(x@) && well_formed(y@) ==> well_formed(r@),
{
    sle(x, y, 8)
}

pub fn sle16(x: LinearizedExpr, y: LinearizedExpr) -> (r: LinearizedExpr)
    requires
        binary_operands(x@, y@, 16),
    ensures
        r@ == postfix2(x@, y@, OpView::Sle, 16),
        well_formed(x@) && well_formed(y@) ==> well_formed(r@),
{
    sle(x, y, 16)
}

pub fn sle32(x: LinearizedExpr, y: LinearizedExpr) -> (r: LinearizedExpr)
    requires
        binary_operands(x@, y@, 32),
    ensures
        r@ == postfix2(x@, y@, OpView::Sle, 32),
        well_formed(x@) && well_formed(y@) ==> well_formed(r@),
{
    sle(x, y, 32)
}

pub fn sle64(x: LinearizedExpr, y: LinearizedExpr) -> (r: LinearizedExpr)
    requires
        binary_operands(x@, y@, 64),
    ensures
        r@ == postfix2(x@, y@, OpView::Sle, 64),
        well_formed(x@) && well_formed(y@) ==> well_formed(r@),
{
    sle(x, y, 64)
}

pub fn equal(x: LinearizedExpr, y: LinearizedExpr, size: usize) -> (r: LinearizedExpr)
    requires
        binary_operands(x@, y@, size),
        size > 0,
    ensures
        r@ == postfix2(x@, y@, OpView::Equal, size),
        well_formed(x@) && well_formed(y@) ==> well_formed(r@),
{
    op2(x, y, LinearExprOp::Equal, size)
}

pub fn equal8(x: LinearizedExpr, y: LinearizedExpr) -> (r: LinearizedExpr)
    requires
        binary_operands(x@, y@, 8),
    ensures
        r@ == postfix2(x@, y@, OpView::Equal, 8),
        well_formed(x@) && well_formed(y@) ==> well_formed(r@),
{
    equal(x, y, 8)
}

pub fn equal16(x: LinearizedExpr, y: LinearizedExpr) -> (r: LinearizedExpr)
    requires
        binary_operands(x@, y@, 16),
    ensures
        r@ == postfix2(x@, y@, OpView::Equal, 16),
        well_formed(x@) && well_formed(y@) ==> well_formed(r@),
{
    equal(x, y, 16)
}

pub fn equal32(x: LinearizedExpr, y: LinearizedExpr) -> (r: LinearizedExpr)
    requires
        binary_operands(x@, y@, 32),
    ensures
        r@ == postfix2(x@, y@, OpView::Equal, 32),
        well_formed(x@) && well_formed(y@) ==> well_formed(r@),
{
    equal(x, y, 32)
}

pub fn equal64(x: LinearizedExpr, y: LinearizedExpr) -> (r: LinearizedExpr)
    requires
        binary_operands(x@, y@, 64),
    ensures
        r@ == postfix2(x@, y@, OpView::Equal, 64),
        well_formed(x@) && well_formed(y@) ==> well_formed(r@),
{
    equal(x, y, 64)
}

pub fn shl_plain(x: LinearizedExpr, y: LinearizedExpr, size: usize) -> (r: LinearizedExpr)
    requires
        binary_operands(x@, y@, size),
        size > 0,
    ensures
        r@ == postfix2(x@, y@, OpView::Shl, size),
        well_formed(x@) && well_formed(y@) ==> well_formed(r@),
{
    op2(x, y, LinearExprOp::Shl, size)
}

pub fn shl8_plain(x: LinearizedExpr, y: LinearizedExpr) -> (r: LinearizedExpr)
    requires
        binary_operands(x@, y@, 8),
    ensures
        r@ == postfix2(x@, y@, OpView::Shl, 8),
        well_formed(x@) && well_formed(y@) ==> well_formed(r@),
{
    shl_plain(x, y, 8)
}

pub fn shl16_plain(x: LinearizedExpr, y: LinearizedExpr) -> (r: LinearizedExpr)
    requires
        binary_operands(x@, y@, 16),
    ensures
        r@ == postfix2(x@, y@, OpView::Shl, 16),
        well_formed(x@) && well_formed(y@) ==> well_formed(r@),
{
    shl_plain(x, y, 16)
}

pub fn shl32_plain(x: LinearizedExpr, y: LinearizedExpr) -> (r: LinearizedExpr)
    requires
        binary_operands(x@, y@, 32),
    ensures
        r@ == postfix2(x@, y@, OpView::Shl, 32),
        well_formed(x@) && well_formed(y@) ==> well_formed(r@),
{
    shl_plain(x, y, 32)
}

pub fn shl64_plain(x: LinearizedExpr, y: LinearizedExpr) -> (r: LinearizedExpr)
    requires
        binary_operands(x@, y@, 64),
    ensures
        r@ == postfix2(x@, y@, OpView::Shl, 64),
        well_formed(x@) && well_formed(y@) ==> well_formed(r@),
{
    shl_plain(x, y, 64)
}

pub fn lshr_plain(x: LinearizedExpr, y: LinearizedExpr, size: usize) -> (r: LinearizedExpr)
    requires
        binary_operands(x@, y@, size),
        size > 0,
    ensures
        r@ == postfix2(x@, y@, OpView::Lshr, size),
        well_formed(x@) && well_formed(y@) ==> well_formed(r@),
{
    op2(x, y, LinearExprOp::Lshr, size)
}

pub fn lshr8_plain(x: LinearizedExpr, y: LinearizedExpr) -> (r: LinearizedExpr)
    requires
        binary_operands(x@, y@, 8),
    ensures
        r@ == postfix2(x@, y@, OpView::Lshr, 8),
        well_formed(x@) && well_formed(y@) ==> well_formed(r@),
{
    lshr_plain(x, y, 8)
}

pub fn lshr16_plain(x: LinearizedExpr, y: LinearizedExpr) -> (r: LinearizedExpr)
    requires
        binary_operands(x@, y@, 16),
    ensures
        r@ == postfix2(x@, y@, OpView::Lshr, 16),
        well_formed(x@) && well_formed(y@) ==> well_formed(r@),
{
    lshr_plain(x, y, 16)
}

pub fn lshr32_plain(x: LinearizedExpr, y: LinearizedExpr) -> (r: LinearizedExpr)
    requires
        binary_operands(x@, y@, 32),
    ensures
        r@ == postfix2(x@, y@, OpView::Lshr, 32),
        well_formed(x@) && well_formed(y@) ==> well_formed(r@),
{
    lshr_plain(x, y, 32)
}

pub fn lshr64_plain(x: LinearizedExpr, y: LinearizedExpr) -> (r: LinearizedExpr)
    requires
        binary_operands(x@, y@, 64),
    ensures
        r@ == postfix2(x@, y@, OpView::Lshr, 64),
        well_formed(x@) && well_formed(y@) ==> well_formed(r@),
{
    lshr_plain(x, y, 64)
}

pub fn ashr_plain(x: LinearizedExpr, y: LinearizedExpr, size: usize) -> (r: LinearizedExpr)
    requires
        binary_operands(x@, y@, size),
        size > 0,
    ensures
        r@ == postfix2(x@, y@, OpView::Ashr, size),
        well_formed(x@) && well_formed(y@) ==> well_formed(r@),
{
    op2(x, y, LinearExprOp::Ashr, size)
}

pub fn ashr8_plain(x: LinearizedExpr, y: LinearizedExpr) -> (r: LinearizedExpr)
    requires
        binary_operands(x@, y@, 8),
    ensures
        r@ == postfix2(x@, y@, OpView::Ashr, 8),
        well_formed(x@) && well_formed(y@) ==> well_formed(r@),
{
    ashr_plain(x, y, 8)
}

pub fn ashr16_plain(x: LinearizedExpr, y: LinearizedExpr) -> (r: LinearizedExpr)
    requires
        binary_operands(x@, y@, 16),
    ensures
        r@ == postfix2(x@, y@, OpView::Ashr, 16),
        well_formed(x@) && well_formed(y@) ==> well_formed(r@),
{
    ashr_plain(x, y, 16)
}

pub fn ashr32_plain(x: LinearizedExpr, y: LinearizedExpr) -> (r: LinearizedExpr)
    requires
        binary_operands(x@, y@, 32),
    ensures
        r@ == postfix2(x@, y@, OpView::Ashr, 32),
        well_formed(x@) && well_formed(y@) ==> well_formed(r@),
{
    ashr_plain(x, y, 32)
}

pub fn ashr64_plain(x: LinearizedExpr, y: LinearizedExpr) -> (r: LinearizedExpr)
    requires
        binary_operands(x@, y@, 64),
    ensures
        r@ == postfix2(x@, y@, OpView::Ashr, 64),
        well_formed(x@) && well_formed(y@) ==> well_formed(r@),
{
    ashr_plain(x, y, 64)
}

pub fn ugt(x: LinearizedExpr, y: LinearizedExpr, size: usize) -> (r: LinearizedExpr)
    requires
        binary_operands(x@, y@, size),
        size > 0,
    ensures
        r@ == postfix2(y@, x@, OpView::Ult, size),
        well_formed(x@) && well_formed(y@) ==> well_formed(r@),
{
    op2(y, x, LinearExprOp::Ult, size)
}

pub fn ugt8(x: LinearizedExpr, y: LinearizedExpr) -> (r: LinearizedExpr)
    requires
        binary_operands(x@, y@, 8),
    ensures
        r@ == postfix2(y@, x@, OpView::Ult, 8),
        well_formed(x@) && well_formed(y@) ==> well_formed(r@),
{
    ugt(x, y, 8)
}

pub fn ugt16(x: LinearizedExpr, y: LinearizedExpr) -> (r: LinearizedExpr)
    requires
        binary_operands(x@, y@, 16),
    ensures
        r@ == postfix2(y@, x@, OpView::Ult, 16),
        well_formed(x@) && well_formed(y@) ==> well_formed(r@),
{
    ugt(x, y, 16)
}

pub fn ugt32(x: LinearizedExpr, y: LinearizedExpr) -> (r: LinearizedExpr)
    requires
        binary_operands(x@, y@, 32),
    ensures
        r@ == postfix2(y@, x@, OpView::Ult, 32),
        well_formed(x@) && well_formed(y@) ==> well_formed(r@),
{
    ugt(x, y, 32)
}

pub fn ugt64(x: LinearizedExpr, y: LinearizedExpr) -> (r: LinearizedExpr)
    requires
        binary_operands(x@, y@, 64),
    ensures
        r@ == postfix2(y@, x@, OpView::Ult, 64),
        well_formed(x@) && well_formed(y@) ==> well_formed(r@),
{
    ugt(x, y, 64)
}

pub fn sgt(x: LinearizedExpr, y: LinearizedExpr, size: usize) -> (r: LinearizedExpr)
    requires
        binary_operands(x@, y@, size),
        size > 0,
    ensures
        r@ == postfix2(y@, x@, OpView::Slt, size),
        well_formed(x@) && well_formed(y@) ==> well_formed(r@),
{
    op2(y, x, LinearExprOp::Slt, size)
}

pub fn sgt8(x: LinearizedExpr, y: LinearizedExpr) -> (r: LinearizedExpr)
    requires
        binary_operands(x@, y@, 8),
    ensures
        r@ == postfix2(y@, x@, OpView::Slt, 8),
        well_formed(x@) && well_formed(y@) ==> well_formed(r@),
{
    sgt(x, y, 8)
}

pub fn sgt16(x: LinearizedExpr, y: LinearizedExpr) -> (r: LinearizedExpr)
    requires
        binary_operands(x@, y@, 16),
    ensures
        r@ == postfix2(y@, x@, OpView::Slt, 16),
        well_formed(x@) && well_formed(y@) ==> well_formed(r@),
{
    sgt(x, y, 16)
}

pub fn sgt32(x: LinearizedExpr, y: LinearizedExpr) -> (r: LinearizedExpr)
    requires
        binary_operands(x@, y@, 32),
    ensures
        r@ == postfix2(y@, x@, OpView::Slt, 32),
        well_formed(x@) && well_formed(y@) ==> well_formed(r@),
{
    sgt(x, y, 32)
}

pub fn sgt64(x: LinearizedExpr, y: LinearizedExpr) -> (r: LinearizedExpr)
    requires
        binary_operands(x@, y@, 64),
    ensures
        r@ == postfix2(y@, x@, OpView::Slt, 64),
        well_formed(x@) && well_formed(y@) ==> well_formed(r@),
{
    sgt(x, y, 64)
}

pub fn uge(x: LinearizedExpr, y: LinearizedExpr, size: usize) -> (r: LinearizedExpr)
    requires
        binary_operands(x@, y@, size),
        size > 0,
    ensures
        r@ == postfix2(y@, x@, OpView::Ule, size),
        well_formed(x@) && well_formed(y@) ==> well_formed(r@),
{
    ule(y, x, size)
}

pub fn uge8(x: LinearizedExpr, y: LinearizedExpr) -> (r: LinearizedExpr)
    requires
        binary_operands(x@, y@, 8),
    ensures
        r@ == postfix2(y@, x@, OpView::Ule, 8),
        well_formed(x@) && well_formed(y@) ==> well_formed(r@),
{
    uge(x, y, 8)
}

pub fn uge16(x: LinearizedExpr, y: LinearizedExpr) -> (r: LinearizedExpr)
    requires
        binary_operands(x@, y@, 16),
    ensures
        r@ == postfix2(y@, x@, OpView::Ule, 16),
        well_formed(x@) && well_formed(y@) ==> well_formed(r@),
{
    uge(x, y, 16)
}

pub fn uge32(x: LinearizedExpr, y: LinearizedExpr) -> (r: LinearizedExpr)
    requires
        binary_operands(x@, y@, 32),
    ensures
        r@ == postfix2(y@, x@, OpView::Ule, 32),
        well_formed(x@) && well_formed(y@) ==> well_formed(r@),
{
    uge(x, y, 32)
}

pub fn uge64(x: LinearizedExpr, y: LinearizedExpr) -> (r: LinearizedExpr)
    requires
        binary_operands(x@, y@, 64),
    ensures
        r@ == postfix2(y@, x@, OpView::Ule, 64),
        well_formed(x@) && well_formed(y@) ==> well_formed(r@),
{
    uge(x, y, 64)
}

pub fn sge(x: LinearizedExpr, y: LinearizedExpr, size: usize) -> (r: LinearizedExpr)
    requires
        binary_operands(x@, y@, size),
        size > 0,
    ensures
        r@ == postfix2(y@, x@, OpView::Sle, size),
        well_formed(x@) && well_formed(y@) ==> well_formed(r@),
{
    sle(y, x, size)
}

pub fn sge8(x: LinearizedExpr, y: LinearizedExpr) -> (r: LinearizedExpr)
    requires
        binary_operands(x@, y@, 8),
    ensures
        r@ == postfix2(y@, x@, OpView::Sle, 8),
        well_formed(x@) && well_formed(y@) ==> well_formed(r@),
{
    sge(x, y, 8)
}

pub fn sge16(x: LinearizedExpr, y: LinearizedExpr) -> (r: LinearizedExpr)
    requires
        binary_operands(x@, y@, 16),
    ensures
        r@ == postfix2(y@, x@, OpView::Sle, 16),
        well_formed(x@) && well_formed(y@) ==> well_formed(r@),
{
    sge(x, y, 16)
}

pub fn sge32(x: LinearizedExpr, y: LinearizedExpr) -> (r: LinearizedExpr)
    requires
        binary_operands(x@, y@, 32),
    ensures
        r@ == postfix2(y@, x@, OpView::Sle, 32),
        well_formed(x@) && well_formed(y@) ==> well_formed(r@),
{
    sge(x, y, 32)
}

pub fn sge64(x: LinearizedExpr, y: LinearizedExpr) -> (r: LinearizedExpr)
    requires
        binary_operands(x@, y@, 64),
    ensures
        r@ == postfix2(y@, x@, OpView::Sle, 64),
        well_formed(x@) && well_formed(y@) ==> well_formed(r@),
{
    sge(x, y, 64)
}

pub fn shl(x: LinearizedExpr, y: LinearizedExpr, size: usize) -> (r: LinearizedExpr)
    requires
        binary_operands(x@, y@, size),
        size > 0,
    ensures
        r@ == postfix2(x@, reduced_shift(y@, size), OpView::Shl, size),
        well_formed(x@) && well_formed(y@) ==> well_formed(r@),
{
    let y = reduce_shift_op(y, size);
    op2(x, y, LinearExprOp::Shl, size)
}

pub fn shl8(x: LinearizedExpr, y: LinearizedExpr) -> (r: LinearizedExpr)
    requires
        binary_operands(x@, y@, 8),
    ensures
        r@ == postfix2(x@, reduced_shift(y@, 8), OpView::Shl, 8),
        well_formed(x@) && well_formed(y@) ==> well_formed(r@),
{
    shl(x, y, 8)
}

pub fn shl16(x: LinearizedExpr, y: LinearizedExpr) -> (r: LinearizedExpr)
    requires
        binary_operands(x@, y@, 16),
    ensures
        r@ == postfix2(x@, reduced_shift(y@, 16), OpView::Shl, 16),
        well_formed(x@) && well_formed(y@) ==> well_formed(r@),
{
    shl(x, y, 16)
}

pub fn shl32(x: LinearizedExpr, y: LinearizedExpr) -> (r: LinearizedExpr)
    requires
        binary_operands(x@, y@, 32),
    ensures
        r@ == postfix2(x@, reduced_shift(y@, 32), OpView::Shl, 32),
        well_formed(x@) && well_formed(y@) ==> well_formed(r@),
{
    shl(x, y, 32)
}

pub fn shl64(x: LinearizedExpr, y: LinearizedExpr) -> (r: LinearizedExpr)
    requires
        binary_operands(x@, y@, 64),
    ensures
        r@ == postfix2(x@, reduced_shift(y@, 64), OpView::Shl, 64),
        well_formed(x@) && well_formed(y@) ==> well_formed(r@),
{
    shl(x, y, 64)
}

pub fn lshr(x: LinearizedExpr, y: LinearizedExpr, size: usize) -> (r: LinearizedExpr)
    requires
        binary_operands(x@, y@, size),
        size > 0,
    ensures
        r@ == postfix2(x@, reduced_shift(y@, size), OpView::Lshr, size),
        well_formed(x@) && well_formed(y@) ==> well_formed(r@),
{
    let y = reduce_shift_op(y, size);
    op2(x, y, LinearExprOp::Lshr, size)
}

pub fn lshr8(x: LinearizedExpr, y: LinearizedExpr) -> (r: LinearizedExpr)
    requires
        binary_operands(x@, y@, 8),
    ensures
        r@ == postfix2(x@, reduced_shift(y@, 8), OpView::Lshr, 8),
        well_formed(x@) && well_formed(y@) ==> well_formed(r@),
{
    lshr(x, y, 8)
}

pub fn lshr16(x: LinearizedExpr, y: LinearizedExpr) -> (r: LinearizedExpr)
    requires
        binary_operands(x@, y@, 16),
    ensures
        r@ == postfix2(x@, reduced_shift(y@, 16), OpView::Lshr, 16),
        well_formed(x@) && well_formed(y@) ==> well_formed(r@),
{
    lshr(x, y, 16)
}

pub fn lshr32(x: LinearizedExpr, y: LinearizedExpr) -> (r: LinearizedExpr)
    requires
        binary_operands(x@, y@, 32),
    ensures
        r@ == postfix2(x@, reduced_shift(y@, 32), OpView::Lshr, 32),
        well_formed(x@) && well_formed(y@) ==> well_formed(r@),
{
    lshr(x, y, 32)
}

pub fn lshr64(x: LinearizedExpr, y: LinearizedExpr) -> (r: LinearizedExpr)
    requires
        binary_operands(x@, y@, 64),
    ensures
        r@ == postfix2(x@, reduced_shift(y@, 64), OpView::Lshr, 64),
        well_formed(x@) && well_formed(y@) ==> well_formed(r@),
{
    lshr(x, y, 64)
}

pub fn ashr(x: LinearizedExpr, y: LinearizedExpr, size: usize) -> (r: LinearizedExpr)
    requires
        binary_operands(x@, y@, size),
        size > 0,
    ensures
        r@ == postfix2(x@, reduced_shift(y@, size), OpView::Ashr, size),
        well_formed(x@) && well_formed(y@) ==> well_formed(r@),
{
    let y = reduce_shift_op(y, size);
    op2(x, y, LinearExprOp::Ashr, size)
}

pub fn ashr8(x: LinearizedExpr, y: LinearizedExpr) -> (r: LinearizedExpr)
    requires
        binary_operands(x@, y@, 8),
    ensures
        r@ == postfix2(x@, reduced_shift(y@, 8), OpView::Ashr, 8),
        well_formed(x@) && well_formed(y@) ==> well_formed(r@),
{
    ashr(x, y, 8)
}

pub fn ashr16(x: LinearizedExpr, y: LinearizedExpr) -> (r: LinearizedExpr)
    requires
        binary_operands(x@, y@, 16),
    ensures
        r@ == postfix2(x@, reduced_shift(y@, 16), OpView::Ashr, 16),
        well_formed(x@) && well_formed(y@) ==> well_formed(r@),
{
    ashr(x, y, 16)
}

pub fn ashr32(x: LinearizedExpr, y: LinearizedExpr) -> (r: LinearizedExpr)
    requires
        binary_operands(x@, y@, 32),
    ensures
        r@ == postfix2(x@, reduced_shift(y@, 32), OpView::Ashr, 32),
        well_formed(x@) && well_formed(y@) ==> well_formed(r@),
{
    ashr(x, y, 32)
}

pub fn ashr64(x: LinearizedExpr, y: LinearizedExpr) -> (r: LinearizedExpr)
    requires
        binary_operands(x@, y@, 64),
    ensures
        r@ == postfix2(x@, reduced_shift(y@, 64), OpView::Ashr, 64),
        well_formed(x@) && well_formed(y@) ==> well_formed(r@),
{
    ashr(x, y, 64)
}

/// `x ? y : z`.
pub fn ite(x: LinearizedExpr, y: LinearizedExpr, z: LinearizedExpr, size: usize) -> (r: LinearizedExpr)
    requires
        y@.len() > 0,
        z@.len() > 0,
        width(y@) == width(z@),
        width(z@) == size,
        size > 0,
    ensures
        r@ == postfix3(x@, y@, z@, OpView::Ite, size),
        well_formed(x@) && well_formed(y@) && well_formed(z@) ==> well_formed(r@),
{
    op3(x, y, z, LinearExprOp::Ite, size)
}

pub fn ite8(x: LinearizedExpr, y: LinearizedExpr, z: LinearizedExpr) -> (r: LinearizedExpr)
    requires
        y@.len() > 0,
        z@.len() > 0,
        width(y@) == 8,
        width(z@) == 8,
    ensures
        r@ == postfix3(x@, y@, z@, OpView::Ite, 8),
        well_formed(x@) && well_formed(y@) && well_formed(z@) ==> well_formed(r@),
{
    ite(x, y, z, 8)
}

pub fn ite16(x: LinearizedExpr, y: LinearizedExpr, z: LinearizedExpr) -> (r: LinearizedExpr)
    requires
        y@.len() > 0,
        z@.len() > 0,
        width(y@) == 16,
        width(z@) == 16,
    ensures
        r@ == postfix3(x@, y@, z@, OpView::Ite, 16),
        well_formed(x@) && well_formed(y@) && well_formed(z@) ==> well_formed(r@),
{
    ite(x, y, z, 16)
}

pub fn ite32(x: LinearizedExpr, y: LinearizedExpr, z: LinearizedExpr) -> (r: LinearizedExpr)
    requires
        y@.len() > 0,
        z@.len() > 0,
        width(y@) == 32,
        width(z@) == 32,
    ensures
        r@ == postfix3(x@, y@, z@, OpView::Ite, 32),
        well_formed(x@) && well_formed(y@) && well_formed(z@) ==> well_formed(r@),
{
    ite(x, y, z, 32)
}

pub fn ite64(x: LinearizedExpr, y: LinearizedExpr, z: LinearizedExpr) -> (r: LinearizedExpr)
    requires
        y@.len() > 0,
        z@.len() > 0,
        width(y@) == 64,
        width(z@) == 64,
    ensures
        r@ == postfix3(x@, y@, z@, OpView::Ite, 64),
        well_formed(x@) && well_formed(y@) && well_formed(z@) ==> well_formed(r@),
{
    ite(x, y, z, 64)
}

/// Bits `start..=end` of `x`, computed with shifts and a mask so that the bounds may
/// themselves be expressions.
pub open spec fn semantics_slice_spec(
    x: Seq<NodeView>,
    start: Seq<NodeView>,
    end: Seq<NodeView>,
    size: usize,
) -> Seq<NodeView> {
    let one = const_leaf(1, size);
    let shift = postfix2(postfix2(end, start, OpView::Sub, size), one, OpView::Add, size);
    let m = postfix2(postfix2(one, shift, OpView::Shl, size), one, OpView::Sub, size);
    postfix2(m, postfix2(x, start, OpView::Lshr, size), OpView::And, size)
}

pub fn semantics_slice(
    x: LinearizedExpr,
    start: LinearizedExpr,
    end: LinearizedExpr,
    size: usize,
) -> (r: LinearizedExpr)
    requires
        binary_operands(x@, start@, size),
        binary_operands(end@, start@, size),
        size > 0,
    ensures
        r@ == semantics_slice_spec(x@, start@, end@, size),
        well_formed(x@) && well_formed(start@) && well_formed(end@) ==> well_formed(r@),
{
    let d = crate::expression_utils::sub(end, start.clone(), size);
    let shift = crate::expression_utils::add(d, constant(1, size), size);
    let m = crate::expression_utils::sub(
        shl_plain(constant(1, size), shift, size),
        constant(1, size),
        size,
    );
    and(m, lshr_plain(x, start, size), size)
}

/// One exactly when `x` is zero, else zero, without a comparison operator.
pub open spec fn check_if_zero_spec(x: Seq<NodeView>, size: usize) -> Seq<NodeView> {
    let low = postfix2(
        postfix1(x, OpView::Not, size),
        postfix2(x, const_leaf(1, size), OpView::Sub, size),
        OpView::And,
        size,
    );
    let sign = postfix2(low, reduced_shift(const_leaf(63, size), size), OpView::Ashr, size);
    postfix2(postfix1(sign, OpView::Not, size), const_leaf(1, size), OpView::Add, size)
}

pub fn check_if_zero(x: LinearizedExpr, size: usize) -> (r: LinearizedExpr)
    requires
        binary_operands(x@, x@, size),
        size > 0,
    ensures
        r@ == check_if_zero_spec(x@, size),
        well_formed(x@) ==> well_formed(r@),
{
    let low = and(
        not(x.clone(), size),
        crate::expression_utils::sub(x, constant(1, size), size),
        size,
    );
    let sign = ashr(low, constant(63, size), size);
    crate::expression_utils::add(not(sign, size), constant(1, size), size)
}

/// Widths to which [`semantic_downcast`] can reduce.
pub open spec fn downcast_width(size: usize) -> bool {
    size == 1 || size == 8 || size == 16 || size == 32 || size == 64
}

/// `e` with all but its low `size` bits cleared, keeping its width.
pub open spec fn downcast_spec(e: Seq<NodeView>, size: usize) -> Seq<NodeView> {
    if size == 64 {
        e
    } else {
        postfix2(e, const_leaf((pow2(size as nat) - 1) as u64, width(e)), OpView::And, width(e))
    }
}

pub fn semantic_downcast(expr: LinearizedExpr, size: usize) -> (r: LinearizedExpr)
    requires
        expr@.len() > 0,
        width(expr@) > 0,
        downcast_width(size),
    ensures
        r@ == downcast_spec(expr@, size),
        well_formed(expr@) ==> well_formed(r@),
{
    let expr_size = expr.size();
    proof {
        lemma2_to64();
    }
    let m: u64 = match size {
        1 => 1,
        8 => 0xff,
        16 => 0xffff,
        32 => 0xffff_ffff,
        _ => {
            return expr;
        },
    };
    and(expr, constant(m, expr_size), expr_size)
}

/// Sign extension of `e` to `size` bits written with xor, zero extension and subtraction.
pub open spec fn sign_extension_spec(e: Seq<NodeView>, size: usize) -> Seq<NodeView> {
    let w = width(e);
    let m = const_leaf(pow2((w - 1) as nat) as u64, w);
    postfix2(
        postfix1(postfix2(e, m, OpView::Xor, w), OpView::ZeroExtend, size),
        postfix1(m, OpView::ZeroExtend, size),
        OpView::Sub,
        size,
    )
}

pub fn semantic_sign_extension(expr: LinearizedExpr, size: usize) -> (r: LinearizedExpr)
    requires
        expr@.len() > 0,
        1 <= width(expr@) <= 64,
        width(expr@) <= size,
    ensures
        r@ == sign_extension_spec(expr@, size),
        well_formed(expr@) ==> well_formed(r@),
{
    let expr_size = expr.size();
    let s = (expr_size - 1) as u64;
    proof {
        lemma_u64_pow2_no_overflow(s as nat);
        lemma_u64_shl_is_mul(1, s);
    }
    let m = constant(1u64 << s, expr_size);
    crate::expression_utils::sub(
        zero_extend(xor(expr, m.clone(), expr_size), size),
        zero_extend(m, size),
        size,
    )
}

/// `x ? y : z` written with arithmetic: the operands are weighted by the truth of `x`.
pub open spec fn semantics_ite_spec(x: Seq<NodeView>, y: Seq<NodeView>, z: Seq<NodeView>) -> Seq<
    NodeView,
> {
    let wx = width(x);
    let size = width(z);
    let is_zero = postfix2(x, const_leaf(0, wx), OpView::Equal, wx);
    let cond = downcast_spec(postfix1(downcast_spec(is_zero, 1), OpView::Not, wx), 1);
    let other = downcast_spec(postfix1(cond, OpView::Not, wx), 1);
    postfix2(
        postfix2(postfix1(cond, OpView::ZeroExtend, width(y)), y, OpView::Mul, size),
        postfix2(postfix1(other, OpView::ZeroExtend, size), z, OpView::Mul, size),
        OpView::Add,
        size,
    )
}

pub fn semantics_ite(x: LinearizedExpr, y: LinearizedExpr, z: LinearizedExpr) -> (r: LinearizedExpr)
    requires
        x@.len() > 0,
        y@.len() > 0,
        z@.len() > 0,
        width(y@) == width(z@),
        0 < width(x@) <= width(y@),
    ensures
        r@ == semantics_ite_spec(x@, y@, z@),
        well_formed(x@) && well_formed(y@) && well_formed(z@) ==> well_formed(r@),
{
    let size = z.size();
    let wx = x.size();
    let wy = y.size();
    let is_zero = equal(x, constant(0, wx), wx);
    let cond = semantic_downcast(not(semantic_downcast(is_zero, 1), wx), 1);
    let other = semantic_downcast(not(cond.clone(), wx), 1);
    crate::expression_utils::add(
        crate::expression_utils::mul(zero_extend(cond, wy), y, size),
        crate::expression_utils::mul(zero_extend(other, size), z, size),
        size,
    )
}

} // verus!
