//! Algebraic simplification: constant folding and identities applied bottom-up by the
//! stack machine, repeated until the expression stops changing.
use crate::bit_vecs::{
    all_ones, ashr, ashr_spec, concat_val, mask, mask_to_size, sdiv, sdiv_spec, shl, shl_spec,
    shr, shr_spec, sign_extend, sign_extend_spec, slice_val, slice_val_spec, sle, sle_spec, slt,
    slt_spec, srem, srem_spec, word_width,
};
use crate::evaluator::{
    args_of, evaluate, tree_builder, tree_step, lemma_args_of_wf, lemma_concat_small, lemma_run_stack_append,
    lemma_run_stack_inv, lemma_run_stack_len, lemma_run_stack_prefix, pop_args, run_stack, split_into_args,
};
use crate::expr::{
    expr_cmp, exprs_view, height, is_associative_op, is_nt_node, lemma_leaf_wf, lemma_postfix1_wf,
    lemma_postfix2_wf, lemma_postfix3_wf, node, op_arity, postfix1, postfix2,
    postfix3, well_formed, width, LinearExpr, LinearExprOp, LinearizedExpr, NodeView,
    OpView,
};
use crate::expression_utils::const_leaf;
use vstd::prelude::*;

verus! {

/// A single constant element.
pub open spec fn is_const(x: Seq<NodeView>) -> bool {
    x.len() == 1 && x[0].op is Const
}

/// The value of a single constant element.
pub open spec fn cval(x: Seq<NodeView>) -> u64 {
    x[0].op->Const_0
}

/// Exactly the constant `v`, of any width.
pub open spec fn is_const_val(x: Seq<NodeView>, v: u64) -> bool {
    x.len() == 1 && x[0].op == OpView::Const(v)
}

/// Whether a placeholder register occurs in `x`.
pub open spec fn has_nt(x: Seq<NodeView>) -> bool {
    exists|i: int| 0 <= i < x.len() && is_nt_node(#[trigger] x[i])
}

/// The constant element `v` of width `size`, taken as it is.
pub open spec fn cnode(v: u64, size: usize) -> Seq<NodeView> {
    seq![node(OpView::Const(v), size)]
}

/// Operators whose constant folding depends on a word width.
pub open spec fn width_dependent(op: OpView) -> bool {
    op is Srem || op is Sdiv || op is Slt || op is Sle || op is Ashr || op is Lshr || op is Shl
}

/// Operators the simplifier evaluates.
pub open spec fn simplifiable_op(op: OpView) -> bool {
    match op {
        OpView::Const(_) | OpView::Reg(_) | OpView::RegSlice(..) | OpView::ConstSlice(..) => true,
        OpView::Not | OpView::Neg | OpView::ZeroExtend | OpView::SignExtend | OpView::Slice(
            ..,
        ) | OpView::Mem => true,
        OpView::Add | OpView::Sub | OpView::Or | OpView::And | OpView::Xor | OpView::Nand
        | OpView::Nor | OpView::Mul | OpView::Udiv | OpView::Sdiv | OpView::Urem | OpView::Srem
        | OpView::Ult | OpView::Slt | OpView::Ule | OpView::Sle | OpView::Equal | OpView::Ashr
        | OpView::Lshr | OpView::Shl | OpView::Concat => true,
        OpView::Ite => true,
        _ => false,
    }
}

/// An element the simplifier accepts; with `nt_free`, it is also no placeholder.
pub open spec fn good_node(e: NodeView, nt_free: bool) -> bool {
    simplifiable_op(e.op) && (nt_free ==> !is_nt_node(e))
}

/// A well-formed expression of accepted elements.
pub open spec fn good(s: Seq<NodeView>, nt_free: bool) -> bool {
    well_formed(s) && forall|i: int| 0 <= i < s.len() ==> #[trigger] good_node(s[i], nt_free)
}

/// Constant folding of a unary operator at width `w`.
pub open spec fn fold1(op: OpView, v: u64, w: usize) -> u64 {
    let a = mask(v, w as nat);
    mask(
        if op is Not {
            !a
        } else {
            0u64.wrapping_sub(a)
        },
        w as nat,
    )
}

/// Constant folding of a binary operator on operands already reduced to their width.
pub open spec fn fold2(op: OpView, a: u64, b: u64, size: usize) -> u64 {
    let s = size as u64;
    match op {
        OpView::Add => a.wrapping_add(b),
        OpView::Sub => a.wrapping_sub(b),
        OpView::Or => a | b,
        OpView::And => a & b,
        OpView::Xor => a ^ b,
        OpView::Nand => !(a & b),
        OpView::Nor => !(a | b),
        OpView::Mul => a.wrapping_mul(b),
        OpView::Urem => if b == 0 {
            a
        } else {
            a % b
        },
        OpView::Srem => srem_spec(a, b, s),
        OpView::Udiv => if b == 0 {
            all_ones(size as nat)
        } else {
            a / b
        },
        OpView::Sdiv => sdiv_spec(a, b, s),
        OpView::Ult => if a < b {
            1
        } else {
            0
        },
        OpView::Slt => slt_spec(a, b, s),
        OpView::Ule => if a <= b {
            1
        } else {
            0
        },
        OpView::Sle => sle_spec(a, b, s),
        OpView::Equal => if a == b {
            1
        } else {
            0
        },
        OpView::Ashr => ashr_spec(a, b, s),
        OpView::Lshr => shr_spec(a, b, s),
        OpView::Shl => shl_spec(a, b, s),
        _ => 0,
    }
}

/// Folding two constants at the width of the first one.
pub open spec fn fold_consts(x: Seq<NodeView>, y: Seq<NodeView>, op: OpView, size: usize) -> Seq<
    NodeView,
> {
    let w = width(x);
    cnode(mask(fold2(op, mask(cval(x), w as nat), mask(cval(y), w as nat), size), w as nat), w)
}

/// Two constants of the operator's width, which folding accepts.
pub open spec fn can_fold(x: Seq<NodeView>, y: Seq<NodeView>, e: NodeView) -> bool {
    &&& is_const(x)
    &&& is_const(y)
    &&& width(x) == e.size
    &&& width(y) == e.size
    &&& width_dependent(e.op) ==> word_width(e.size as u64)
}

/// Not, negation: folding and double-application removal.
pub open spec fn unary_rule(x: Seq<NodeView>, e: NodeView) -> Seq<NodeView> {
    if is_const(x) {
        cnode(fold1(e.op, cval(x), width(x)), width(x))
    } else if e.op is Neg && x.last().op is Neg {
        x.drop_last()
    } else if e.op is Not && x.last().op is Not {
        x.drop_last()
    } else {
        postfix1(x, e.op, e.size)
    }
}

pub open spec fn zero_extend_rule(x: Seq<NodeView>, e: NodeView) -> Seq<NodeView> {
    if is_const(x) {
        cnode(mask(cval(x), width(x) as nat), e.size)
    } else if width(x) == e.size {
        x
    } else {
        postfix1(x, e.op, e.size)
    }
}

pub open spec fn sign_extend_rule(x: Seq<NodeView>, e: NodeView) -> Seq<NodeView> {
    if is_const(x) && 1 <= width(x) <= 64 {
        cnode(sign_extend_spec(cval(x), width(x), e.size), e.size)
    } else if width(x) == e.size {
        x
    } else {
        postfix1(x, e.op, e.size)
    }
}

pub open spec fn slice_rule(x: Seq<NodeView>, e: NodeView) -> Seq<NodeView> {
    let start = e.op->Slice_0;
    let end = e.op->Slice_1;
    if is_const(x) && start <= end && start < 64 {
        cnode(slice_val_spec(cval(x), start, end), e.size)
    } else {
        postfix1(x, e.op, e.size)
    }
}

/// Non-commutative binary operators.
pub open spec fn binary_rule(x: Seq<NodeView>, y: Seq<NodeView>, e: NodeView) -> Seq<NodeView> {
    let op = e.op;
    let size = e.size;
    if can_fold(x, y, e) {
        fold_consts(x, y, op, size)
    } else if op is Sub && x == y && !has_nt(x) {
        const_leaf(0, size)
    } else if op is Sub && is_const_val(y, 0) {
        x
    } else if op is Sub && is_const_val(x, 0) {
        postfix1(y, OpView::Neg, width(y))
    } else if op is Sub && y.last().op is Neg {
        postfix2(x, y.drop_last(), OpView::Add, size)
    } else if op is Sub {
        postfix2(x, postfix1(y, OpView::Neg, size), OpView::Add, size)
    } else if op is Shl && is_const_val(y, 0) {
        x
    } else if op is Shl && is_const_val(x, 0) {
        const_leaf(0, size)
    } else if op is Lshr && is_const_val(x, 0) {
        const_leaf(0, size)
    } else if op is Lshr && is_const_val(y, 0) {
        x
    } else if (op is Ult || op is Slt) && !has_nt(x) && x == y {
        const_leaf(0, size)
    } else if (op is Ule || op is Sle || op is Equal) && !has_nt(x) && x == y {
        const_leaf(1, size)
    } else {
        postfix2(x, y, op, size)
    }
}

/// Canonical operand order of a commutative operator: constant right, otherwise ascending,
/// unless a placeholder occurs.
pub open spec fn ordered(x: Seq<NodeView>, y: Seq<NodeView>) -> (Seq<NodeView>, Seq<NodeView>) {
    if has_nt(x) || has_nt(y) {
        (x, y)
    } else if !is_const(x) && is_const(y) {
        (x, y)
    } else if is_const(x) && !is_const(y) {
        (y, x)
    } else if expr_cmp(x, y, 0) <= 0 {
        (x, y)
    } else {
        (y, x)
    }
}

/// `(u op c1) op c2` with `u` not constant: the two constants can be folded.
pub open spec fn reassociable(x: Seq<NodeView>, y: Seq<NodeView>, e: NodeView) -> bool {
    let a = args_of(x);
    &&& !is_const(x)
    &&& is_const(y)
    &&& x.last() == e
    &&& is_associative_op(e.op)
    &&& a.len() == 2
    &&& !is_const(ordered(a[0], a[1]).0)
    &&& is_const(ordered(a[0], a[1]).1)
}

/// `u op (c2 op c1)`.
pub open spec fn reassociate(x: Seq<NodeView>, y: Seq<NodeView>, e: NodeView) -> Seq<NodeView> {
    let a = args_of(x);
    let p = ordered(a[0], a[1]);
    postfix2(p.0, fold_consts(y, p.1, e.op, e.size), e.op, e.size)
}

/// Commutative operators (and equality) after ordering their operands.
pub open spec fn commutative_rule(x0: Seq<NodeView>, y0: Seq<NodeView>, e: NodeView) -> Seq<
    NodeView,
> {
    let p = ordered(x0, y0);
    let x = p.0;
    let y = p.1;
    let op = e.op;
    let size = e.size;
    let cx = is_const(x);
    let cy = is_const(y);
    if can_fold(x, y, e) {
        fold_consts(x, y, op, size)
    } else if op is Add && !cx && cy && cval(y) == 0 {
        x
    } else if op is Add && !has_nt(x) && y.last().op is Neg && x == y.drop_last() {
        const_leaf(0, size)
    } else if op is Mul && !cx && cy && cval(y) == 0 {
        const_leaf(0, size)
    } else if op is Mul && !cx && cy && cval(y) == 1 {
        x
    } else if op is Or && !cx && !cy && x == y && !has_nt(x) {
        x
    } else if op is Or && !cx && cy && cval(y) == 0 {
        x
    } else if op is And && !cx && !cy && x == y && !has_nt(x) {
        x
    } else if op is And && !cx && cy && cval(y) == 0 {
        const_leaf(0, size)
    } else if op is Xor && !cx && !cy && x == y && !has_nt(x) {
        const_leaf(0, size)
    } else if op is Xor && !cx && cy && cval(y) == 0 {
        x
    } else if op is Nand && !cx && cy && cval(y) == 0 {
        postfix1(const_leaf(1, size), OpView::Neg, size)
    } else if op is Nand && !cx && !cy && !has_nt(x) && x == y {
        postfix1(x, OpView::Not, size)
    } else if op is Nor && !cx && cy && cval(y) == 0 {
        postfix1(x, OpView::Not, size)
    } else if op is Nor && !cx && !cy && !has_nt(x) && x == y {
        postfix1(x, OpView::Not, size)
    } else if op is Equal && !cx && !cy && !has_nt(x) && x == y {
        const_leaf(1, size)
    } else if reassociable(x, y, e) {
        reassociate(x, y, e)
    } else {
        postfix2(x, y, op, size)
    }
}

pub open spec fn concat_rule(x: Seq<NodeView>, y: Seq<NodeView>, e: NodeView) -> Seq<NodeView> {
    if is_const(x) && is_const(y) && width(y) < 64 {
        cnode((cval(x) << width(y)) | cval(y), e.size)
    } else {
        postfix2(x, y, e.op, e.size)
    }
}

/// `x ? y : z`: a constant condition picks a branch; equal branches need no condition.
pub open spec fn ite_rule(x: Seq<NodeView>, y: Seq<NodeView>, z: Seq<NodeView>, e: NodeView) -> Seq<
    NodeView,
> {
    if is_const(x) {
        if cval(x) != 0 {
            y
        } else {
            z
        }
    } else if y == z && !has_nt(y) {
        y
    } else {
        postfix3(x, y, z, e.op, e.size)
    }
}

/// Operators routed to [`commutative_rule`].
pub open spec fn commutative_route(op: OpView) -> bool {
    op is Add || op is Or || op is And || op is Xor || op is Nand || op is Nor || op is Mul
        || op is Equal
}

/// One step of the simplifying stack machine: the simplified operands are combined under
/// the element `e`.
pub open spec fn simp_step(args: Seq<Seq<NodeView>>, e: NodeView) -> Seq<NodeView> {
    if op_arity(e.op) == 0 {
        seq![e]
    } else if op_arity(e.op) == 1 {
        if e.op is ZeroExtend {
            zero_extend_rule(args[0], e)
        } else if e.op is SignExtend {
            sign_extend_rule(args[0], e)
        } else if e.op is Slice {
            slice_rule(args[0], e)
        } else if e.op is Mem {
            postfix1(args[0], e.op, e.size)
        } else {
            unary_rule(args[0], e)
        }
    } else if op_arity(e.op) == 2 {
        if commutative_route(e.op) {
            commutative_rule(args[0], args[1], e)
        } else if e.op is Concat {
            concat_rule(args[0], args[1], e)
        } else {
            binary_rule(args[0], args[1], e)
        }
    } else {
        ite_rule(args[0], args[1], args[2], e)
    }
}

/// [`simp_step`] as a function value.
pub open spec fn simp_builder() -> spec_fn(Seq<Seq<NodeView>>, NodeView) -> Seq<NodeView> {
    |a: Seq<Seq<NodeView>>, e: NodeView| simp_step(a, e)
}

/// One bottom-up simplification pass.
pub open spec fn pass(s: Seq<NodeView>) -> Seq<NodeView> {
    evaluate(s, simp_builder())
}

/// Repeats passes while the last one changed the expression, at most `rounds` more times;
/// `current` is the pass of `before`.
pub open spec fn settle(before: Seq<NodeView>, current: Seq<NodeView>, rounds: nat) -> Seq<
    NodeView,
>
    decreases rounds,
{
    if rounds == 0 || before == current {
        current
    } else {
        settle(current, pass(current), (rounds - 1) as nat)
    }
}

/// Upper bound on the passes of [`LinearizedExpr::simplify`].
pub const MAX_SIMPLIFY_ROUNDS: usize = 64;

/// The result of [`LinearizedExpr::simplify`].
pub open spec fn simplified(s: Seq<NodeView>) -> Seq<NodeView> {
    settle(s, pass(s), MAX_SIMPLIFY_ROUNDS as nat)
}

fn leaf(v: u64, size: usize) -> (r: LinearizedExpr)
    ensures
        r@ == cnode(v, size),
        well_formed(r@),
{
    proof {
        lemma_leaf_wf(OpView::Const(v), size);
    }
    LinearizedExpr::from_linear_expr(LinearExpr::new(LinearExprOp::Const(v), size))
}

pub(crate) fn masked_leaf(v: u64, size: usize) -> (r: LinearizedExpr)
    ensures
        r@ == const_leaf(v, size),
        well_formed(r@),
{
    leaf(mask_to_size(v, size), size)
}

fn raw1(x: LinearizedExpr, op: LinearExprOp, size: usize) -> (r: LinearizedExpr)
    ensures
        r@ == postfix1(x@, op@, size),
{
    let mut r = x;
    r.push(LinearExpr::new(op, size));
    r
}

fn raw2(x: LinearizedExpr, y: LinearizedExpr, op: LinearExprOp, size: usize) -> (r: LinearizedExpr)
    ensures
        r@ == postfix2(x@, y@, op@, size),
{
    let mut r = x;
    r.extend(y);
    r.push(LinearExpr::new(op, size));
    r
}

fn raw3(
    x: LinearizedExpr,
    y: LinearizedExpr,
    z: LinearizedExpr,
    op: LinearExprOp,
    size: usize,
) -> (r: LinearizedExpr)
    ensures
        r@ == postfix3(x@, y@, z@, op@, size),
{
    let mut r = x;
    r.extend(y);
    r.extend(z);
    r.push(LinearExpr::new(op, size));
    r
}

/// `x` under the operator `op`, unchanged.
pub fn no_simplification_op_1(x: &LinearizedExpr, op: &LinearExpr) -> (r: LinearizedExpr)
    ensures
        r@ == postfix1(x@, op@.op, op@.size),
{
    raw1(x.clone(), op.op.clone(), op.size)
}

/// `x` and `y` under the operator `op`, unchanged.
pub fn no_simplification_op_2(x: &LinearizedExpr, y: &LinearizedExpr, op: &LinearExpr) -> (r:
    LinearizedExpr)
    ensures
        r@ == postfix2(x@, y@, op@.op, op@.size),
{
    raw2(x.clone(), y.clone(), op.op.clone(), op.size)
}

/// `x`, `y` and `z` under the operator `op`, unchanged.
pub fn no_simplification_op_3(
    x: &LinearizedExpr,
    y: &LinearizedExpr,
    z: &LinearizedExpr,
    op: &LinearExpr,
) -> (r: LinearizedExpr)
    ensures
        r@ == postfix3(x@, y@, z@, op@.op, op@.size),
{
    raw3(x.clone(), y.clone(), z.clone(), op.op.clone(), op.size)
}

fn without_root(x: &LinearizedExpr) -> (r: LinearizedExpr)
    requires
        x@.len() > 0,
    ensures
        r@ == x@.drop_last(),
{
    let r = x.get_expression_slice(0, x.len() - 1);
    assert(r@ =~= x@.drop_last());
    r
}

fn root_is_neg(x: &LinearizedExpr) -> (r: bool)
    requires
        x@.len() > 0,
    ensures
        r == x@.last().op is Neg,
{
    matches!(x.op().op, LinearExprOp::Neg)
}

fn root_is_not(x: &LinearizedExpr) -> (r: bool)
    requires
        x@.len() > 0,
    ensures
        r == x@.last().op is Not,
{
    matches!(x.op().op, LinearExprOp::Not)
}

fn fold1_exec(op: &LinearExprOp, v: u64, w: usize) -> (r: u64)
    ensures
        r == fold1(op@, v, w),
{
    let a = mask_to_size(v, w);
    let f = if matches!(op, LinearExprOp::Not) {
        !a
    } else {
        0u64.wrapping_sub(a)
    };
    mask_to_size(f, w)
}

pub(crate) fn fold2_exec(op: &LinearExprOp, a: u64, b: u64, size: usize) -> (r: u64)
    requires
        width_dependent(op@) ==> word_width(size as u64),
        op@ is Srem ==> (b == 0 || mask(b, size as nat) != 0),
    ensures
        r == fold2(op@, a, b, size),
{
    let s = size as u64;
    match op {
        LinearExprOp::Add => a.wrapping_add(b),
        LinearExprOp::Sub => a.wrapping_sub(b),
        LinearExprOp::Or => a | b,
        LinearExprOp::And => a & b,
        LinearExprOp::Xor => a ^ b,
        LinearExprOp::Nand => !(a & b),
        LinearExprOp::Nor => !(a | b),
        LinearExprOp::Mul => a.wrapping_mul(b),
        LinearExprOp::Urem => if b == 0 {
            a
        } else {
            a % b
        },
        LinearExprOp::Srem => srem(a, b, s),
        LinearExprOp::Udiv => if b == 0 {
            mask_to_size(0xffff_ffff_ffff_ffff, size)
        } else {
            a / b
        },
        LinearExprOp::Sdiv => sdiv(a, b, s),
        LinearExprOp::Ult => if a < b {
            1
        } else {
            0
        },
        LinearExprOp::Slt => slt(a, b, s),
        LinearExprOp::Ule => if a <= b {
            1
        } else {
            0
        },
        LinearExprOp::Sle => sle(a, b, s),
        LinearExprOp::Equal => if a == b {
            1
        } else {
            0
        },
        LinearExprOp::Ashr => ashr(a, b, s),
        LinearExprOp::Lshr => shr(a, b, s),
        LinearExprOp::Shl => shl(a, b, s),
        _ => 0,
    }
}

fn fold_consts_exec(x: &LinearizedExpr, y: &LinearizedExpr, op: &LinearExprOp, size: usize) -> (r:
    LinearizedExpr)
    requires
        is_const(x@),
        is_const(y@),
        width_dependent(op@) ==> word_width(size as u64),
        op@ is Srem ==> width(x@) == size,
    ensures
        r@ == fold_consts(x@, y@, op@, size),
{
    let w = x.size();
    let a = mask_to_size(x.get_constant_val(), w);
    let b = mask_to_size(y.get_constant_val(), w);
    proof {
        crate::bit_vecs::lemma_mask_idempotent(y@[0].op->Const_0, w as nat);
    }
    let v = fold2_exec(op, a, b, size);
    leaf(mask_to_size(v, w), w)
}

fn can_fold_exec(x: &LinearizedExpr, y: &LinearizedExpr, e: &LinearExpr) -> (r: bool)
    ensures
        r == can_fold(x@, y@, e@),
{
    if !(x.is_constant() && y.is_constant()) {
        return false;
    }
    if x.size() != e.size || y.size() != e.size {
        return false;
    }
    match e.op {
        LinearExprOp::Srem | LinearExprOp::Sdiv | LinearExprOp::Slt | LinearExprOp::Sle
        | LinearExprOp::Ashr | LinearExprOp::Lshr | LinearExprOp::Shl => e.size == 8 || e.size
            == 16 || e.size == 32 || e.size == 64,
        _ => true,
    }
}

pub fn simplify_op_1(x: LinearizedExpr, e: &LinearExpr) -> (r: LinearizedExpr)
    requires
        x@.len() > 0,
    ensures
        r@ == unary_rule(x@, e@),
{
    if x.is_constant() {
        let w = x.size();
        return leaf(fold1_exec(&e.op, x.get_constant_val(), w), w);
    }
    let neg = matches!(e.op, LinearExprOp::Neg);
    let not = matches!(e.op, LinearExprOp::Not);
    if (neg && root_is_neg(&x)) || (not && root_is_not(&x)) {
        return without_root(&x);
    }
    raw1(x, e.op.clone(), e.size)
}

pub fn simplify_zero_extend(x: LinearizedExpr, e: &LinearExpr) -> (r: LinearizedExpr)
    requires
        x@.len() > 0,
        e@.op is ZeroExtend,
    ensures
        r@ == zero_extend_rule(x@, e@),
{
    if x.is_constant() {
        return leaf(mask_to_size(x.get_constant_val(), x.size()), e.size);
    }
    if x.size() == e.size {
        return x;
    }
    raw1(x, e.op.clone(), e.size)
}

pub fn simplify_sign_extend(x: LinearizedExpr, e: &LinearExpr) -> (r: LinearizedExpr)
    requires
        x@.len() > 0,
        e@.op is SignExtend,
    ensures
        r@ == sign_extend_rule(x@, e@),
{
    if x.is_constant() && 1 <= x.size() && x.size() <= 64 {
        return leaf(sign_extend(x.get_constant_val(), x.size(), e.size), e.size);
    }
    if x.size() == e.size {
        return x;
    }
    raw1(x, e.op.clone(), e.size)
}

pub fn simplify_slice(x: LinearizedExpr, e: &LinearExpr) -> (r: LinearizedExpr)
    requires
        x@.len() > 0,
        e@.op is Slice,
    ensures
        r@ == slice_rule(x@, e@),
{
    if let LinearExprOp::Slice(start, end) = e.op {
        if x.is_constant() && start <= end && start < 64 {
            return leaf(slice_val(x.get_constant_val(), start, end), e.size);
        }
    }
    raw1(x, e.op.clone(), e.size)
}

pub fn simplify_op_2(x: LinearizedExpr, y: LinearizedExpr, e: &LinearExpr) -> (r: LinearizedExpr)
    requires
        x@.len() > 0,
        y@.len() > 0,
    ensures
        r@ == binary_rule(x@, y@, e@),
{
    let size = e.size;
    if can_fold_exec(&x, &y, e) {
        return fold_consts_exec(&x, &y, &e.op, size);
    }
    match e.op {
        LinearExprOp::Sub => {
            if x.same_as(&y) && !x.is_non_terminal() {
                return masked_leaf(0, size);
            }
            if y.check_constant_val(0) {
                return x;
            }
            if x.check_constant_val(0) {
                let w = y.size();
                return raw1(y, LinearExprOp::Neg, w);
            }
            if root_is_neg(&y) {
                return raw2(x, without_root(&y), LinearExprOp::Add, size);
            }
            return raw2(x, raw1(y, LinearExprOp::Neg, size), LinearExprOp::Add, size);
        },
        LinearExprOp::Shl => {
            if y.check_constant_val(0) {
                return x;
            }
            if x.check_constant_val(0) {
                return masked_leaf(0, size);
            }
        },
        LinearExprOp::Lshr => {
            if x.check_constant_val(0) {
                return masked_leaf(0, size);
            }
            if y.check_constant_val(0) {
                return x;
            }
        },
        LinearExprOp::Ult | LinearExprOp::Slt => {
            if !x.is_non_terminal() && x.same_as(&y) {
                return masked_leaf(0, size);
            }
        },
        LinearExprOp::Ule | LinearExprOp::Sle | LinearExprOp::Equal => {
            if !x.is_non_terminal() && x.same_as(&y) {
                return masked_leaf(1, size);
            }
        },
        _ => {},
    }
    raw2(x, y, e.op.clone(), size)
}

/// Puts the operands of a commutative operator in canonical order.
pub fn normalize(x: LinearizedExpr, y: LinearizedExpr) -> (r: (LinearizedExpr, LinearizedExpr))
    ensures
        (r.0@, r.1@) == ordered(x@, y@),
{
    if x.is_non_terminal() || y.is_non_terminal() {
        return (x, y);
    }
    let cx = x.is_constant();
    let cy = y.is_constant();
    if !cx && cy {
        (x, y)
    } else if cx && !cy {
        (y, x)
    } else if x.compare_to(&y) <= 0 {
        (x, y)
    } else {
        (y, x)
    }
}

pub fn simplify_commutative_op_2(x0: LinearizedExpr, y0: LinearizedExpr, e: &LinearExpr) -> (r:
    LinearizedExpr)
    requires
        well_formed(x0@),
        well_formed(y0@),
    ensures
        r@ == commutative_rule(x0@, y0@, e@),
{
    let (x, y) = normalize(x0, y0);
    let size = e.size;
    if can_fold_exec(&x, &y, e) {
        return fold_consts_exec(&x, &y, &e.op, size);
    }
    let cx = x.is_constant();
    let cy = y.is_constant();
    let y_zero = cy && y.get_constant_val() == 0;
    let y_one = cy && y.get_constant_val() == 1;
    let twins = x.same_as(&y) && !x.is_non_terminal();
    match e.op {
        LinearExprOp::Add => {
            if !cx && y_zero {
                return x;
            }
            if !x.is_non_terminal() && root_is_neg(&y) {
                let inner = without_root(&y);
                if x.same_as(&inner) {
                    return masked_leaf(0, size);
                }
            }
        },
        LinearExprOp::Mul => {
            if !cx && y_zero {
                return masked_leaf(0, size);
            }
            if !cx && y_one {
                return x;
            }
        },
        LinearExprOp::Or => {
            if !cx && !cy && twins {
                return x;
            }
            if !cx && y_zero {
                return x;
            }
        },
        LinearExprOp::And => {
            if !cx && !cy && twins {
                return x;
            }
            if !cx && y_zero {
                return masked_leaf(0, size);
            }
        },
        LinearExprOp::Xor => {
            if !cx && !cy && twins {
                return masked_leaf(0, size);
            }
            if !cx && y_zero {
                return x;
            }
        },
        LinearExprOp::Nand => {
            if !cx && y_zero {
                return raw1(masked_leaf(1, size), LinearExprOp::Neg, size);
            }
            if !cx && !cy && twins {
                return raw1(x, LinearExprOp::Not, size);
            }
        },
        LinearExprOp::Nor => {
            if !cx && y_zero {
                return raw1(x, LinearExprOp::Not, size);
            }
            if !cx && !cy && twins {
                return raw1(x, LinearExprOp::Not, size);
            }
        },
        LinearExprOp::Equal => {
            if !cx && !cy && twins {
                return masked_leaf(1, size);
            }
        },
        _ => {},
    }
    if !cx && cy && x.op().same_as(e) && e.is_associative() {
        let args = split_into_args(&x);
        if args.len() == 2 {
            let a0 = args[0].clone();
            let a1 = args[1].clone();
            let (v, w) = normalize(a0, a1);
            if !v.is_constant() && w.is_constant() {
                let c = fold_consts_exec(&y, &w, &e.op, size);
                return raw2(v, c, e.op.clone(), size);
            }
        }
    }
    raw2(x, y, e.op.clone(), size)
}

pub fn simplify_concat(x: LinearizedExpr, y: LinearizedExpr, e: &LinearExpr) -> (r: LinearizedExpr)
    requires
        x@.len() > 0,
    ensures
        r@ == concat_rule(x@, y@, e@),
{
    if x.is_constant() && y.is_constant() && y.size() < 64 {
        return leaf(concat_val(x.get_constant_val(), y.get_constant_val(), y.size()), e.size);
    }
    raw2(x, y, e.op.clone(), e.size)
}

pub fn simplify_cond(x: LinearizedExpr, y: LinearizedExpr, z: LinearizedExpr, e: &LinearExpr) -> (r:
    LinearizedExpr)
    ensures
        r@ == ite_rule(x@, y@, z@, e@),
{
    if x.is_constant() {
        if x.get_constant_val() != 0 {
            return y;
        } else {
            return z;
        }
    }
    if y.same_as(&z) && !y.is_non_terminal() {
        return y;
    }
    raw3(x, y, z, e.op.clone(), e.size)
}

/// One step of the simplifying stack machine.
fn simp_step_exec(args: Vec<LinearizedExpr>, e: &LinearExpr) -> (r: LinearizedExpr)
    requires
        args@.len() == op_arity(e@.op),
        forall|j: int| 0 <= j < args@.len() ==> #[trigger] well_formed(args@[j]@),
    ensures
        r@ == simp_step(exprs_view(args@), e@),
{
    let k = e.arity();
    let ghost a = exprs_view(args@);
    if k == 0 {
        return LinearizedExpr::from_linear_expr(e.clone());
    }
    let mut args = args;
    if k == 1 {
        let x = args.pop().unwrap();
        assert(x@ == a[0] && well_formed(x@));
        return match e.op {
            LinearExprOp::ZeroExtend => simplify_zero_extend(x, e),
            LinearExprOp::SignExtend => simplify_sign_extend(x, e),
            LinearExprOp::Slice(..) => simplify_slice(x, e),
            LinearExprOp::Mem => raw1(x, e.op.clone(), e.size),
            _ => simplify_op_1(x, e),
        };
    }
    if k == 2 {
        let y = args.pop().unwrap();
        let x = args.pop().unwrap();
        assert(x@ == a[0] && well_formed(x@));
        assert(y@ == a[1] && well_formed(y@));
        return match e.op {
            LinearExprOp::Add | LinearExprOp::Or | LinearExprOp::And | LinearExprOp::Xor
            | LinearExprOp::Nand | LinearExprOp::Nor | LinearExprOp::Mul
            | LinearExprOp::Equal => simplify_commutative_op_2(x, y, e),
            LinearExprOp::Concat => simplify_concat(x, y, e),
            _ => simplify_op_2(x, y, e),
        };
    }
    let z = args.pop().unwrap();
    let y = args.pop().unwrap();
    let x = args.pop().unwrap();
    assert(x@ == a[0] && y@ == a[1] && z@ == a[2]);
    simplify_cond(x, y, z, e)
}

pub proof fn lemma_good_leaf(v: u64, size: usize, nt: bool)
    ensures
        good(cnode(v, size), nt),
{
    lemma_leaf_wf(OpView::Const(v), size);
    assert(cnode(v, size)[0] == node(OpView::Const(v), size));
}

pub proof fn lemma_good_postfix1(x: Seq<NodeView>, op: OpView, size: usize, nt: bool)
    requires
        good(x, nt),
        op_arity(op) == 1,
        good_node(node(op, size), nt),
    ensures
        good(postfix1(x, op, size), nt),
{
    lemma_postfix1_wf(x, op, size);
    let r = postfix1(x, op, size);
    assert forall|i: int| 0 <= i < r.len() implies #[trigger] good_node(r[i], nt) by {
        if i < x.len() {
            assert(r[i] == x[i]);
        }
    }
}

pub proof fn lemma_good_postfix2(x: Seq<NodeView>, y: Seq<NodeView>, op: OpView, size: usize, nt: bool)
    requires
        good(x, nt),
        good(y, nt),
        op_arity(op) == 2,
        good_node(node(op, size), nt),
    ensures
        good(postfix2(x, y, op, size), nt),
{
    lemma_postfix2_wf(x, y, op, size);
    let r = postfix2(x, y, op, size);
    assert forall|i: int| 0 <= i < r.len() implies #[trigger] good_node(r[i], nt) by {
        if i < x.len() {
            assert(r[i] == x[i]);
        } else if i < x.len() + y.len() {
            assert(r[i] == y[i - x.len()]);
        }
    }
}

pub proof fn lemma_good_postfix3(
    x: Seq<NodeView>,
    y: Seq<NodeView>,
    z: Seq<NodeView>,
    op: OpView,
    size: usize,
    nt: bool,
)
    requires
        good(x, nt),
        good(y, nt),
        good(z, nt),
        op_arity(op) == 3,
        good_node(node(op, size), nt),
    ensures
        good(postfix3(x, y, z, op, size), nt),
{
    lemma_postfix3_wf(x, y, z, op, size);
    let r = postfix3(x, y, z, op, size);
    assert forall|i: int| 0 <= i < r.len() implies #[trigger] good_node(r[i], nt) by {
        if i < x.len() {
            assert(r[i] == x[i]);
        } else if i < x.len() + y.len() {
            assert(r[i] == y[i - x.len()]);
        } else if i < x.len() + y.len() + z.len() {
            assert(r[i] == z[i - x.len() - y.len()]);
        }
    }
}

/// The operand of a well-formed unary root is well formed.
pub proof fn lemma_good_drop_last(x: Seq<NodeView>, nt: bool)
    requires
        good(x, nt),
        op_arity(x.last().op) == 1,
    ensures
        good(x.drop_last(), nt),
{
    let d = x.drop_last();
    assert(x == d.push(x.last()));
    let n = d.len();
    assert forall|i: int| 0 <= i < n implies #[trigger] height(d, i as nat) >= op_arity(d[i].op) by {
        crate::expr::lemma_height_prefix(d, seq![x.last()], i as nat);
        assert(d + seq![x.last()] == x);
        assert(height(x, i as nat) >= op_arity(x[i].op));
    }
    crate::expr::lemma_height_prefix(d, seq![x.last()], n);
    assert(d + seq![x.last()] == x);
    assert(height(x, x.len()) == height(x, n) - 1 + 1);
    if n == 0 {
        assert(height(x, 0) == 0);
    }
    assert forall|i: int| 0 <= i < n implies #[trigger] good_node(d[i], nt) by {
        assert(d[i] == x[i]);
    }
}

pub proof fn lemma_tree_step_good(args: Seq<Seq<NodeView>>, e: NodeView, nt: bool)
    requires
        args.len() == op_arity(e.op),
        good_node(e, nt),
        forall|j: int| 0 <= j < args.len() ==> #[trigger] good(args[j], nt),
    ensures
        good(tree_step(args, e), nt),
{
    lemma_concat_small(args);
    if args.len() == 0 {
        assert(tree_step(args, e) =~= seq![e]);
        lemma_leaf_wf(e.op, e.size);
        assert(seq![e] == seq![node(e.op, e.size)]);
    } else if args.len() == 1 {
        assert(good(args[0], nt));
        lemma_good_postfix1(args[0], e.op, e.size, nt);
    } else if args.len() == 2 {
        assert(good(args[0], nt));
        assert(good(args[1], nt));
        lemma_good_postfix2(args[0], args[1], e.op, e.size, nt);
    } else {
        assert(good(args[0], nt));
        assert(good(args[1], nt));
        assert(good(args[2], nt));
        lemma_good_postfix3(args[0], args[1], args[2], e.op, e.size, nt);
    }
}

/// The operands of a good expression are good.
pub proof fn lemma_args_of_good(x: Seq<NodeView>, nt: bool)
    requires
        good(x, nt),
    ensures
        args_of(x).len() == op_arity(x.last().op),
        forall|j: int| 0 <= j < args_of(x).len() ==> #[trigger] good(args_of(x)[j], nt),
{
    lemma_args_of_wf(x);
    let step = tree_builder();
    let n = (x.len() - 1) as nat;
    let pre = |e: NodeView| good_node(e, nt);
    let inv = |s: Seq<NodeView>| good(s, nt);
    assert forall|args: Seq<Seq<NodeView>>, e: NodeView|
        pre(e) && args.len() == op_arity(e.op) && (forall|j: int|
            0 <= j < args.len() ==> #[trigger] inv(args[j])) implies #[trigger] inv(
        step(args, e),
    ) by {
        assert forall|j: int| 0 <= j < args.len() implies #[trigger] good(args[j], nt) by {
            assert(inv(args[j]));
        }
        lemma_tree_step_good(args, e, nt);
    }
    assert forall|i: int| 0 <= i < x.len() implies #[trigger] pre(x[i]) by {
        assert(good_node(x[i], nt));
    }
    lemma_run_stack_inv(x, n, step, pre, inv);
    assert forall|j: int| 0 <= j < args_of(x).len() implies #[trigger] good(args_of(x)[j], nt) by {
        assert(inv(args_of(x)[j]));
    }
}

proof fn lemma_ordered_good(x: Seq<NodeView>, y: Seq<NodeView>, nt: bool)
    requires
        good(x, nt),
        good(y, nt),
    ensures
        good(ordered(x, y).0, nt),
        good(ordered(x, y).1, nt),
{
}

/// Every simplification step keeps expressions good.
pub proof fn lemma_simp_step_good(args: Seq<Seq<NodeView>>, e: NodeView, nt: bool)
    requires
        args.len() == op_arity(e.op),
        good_node(e, nt),
        forall|j: int| 0 <= j < args.len() ==> #[trigger] good(args[j], nt),
    ensures
        good(simp_step(args, e), nt),
{
    let r = simp_step(args, e);
    let size = e.size;
    lemma_good_leaf(mask(0, size as nat), size, nt);
    lemma_good_leaf(mask(1, size as nat), size, nt);
    if op_arity(e.op) == 0 {
        lemma_leaf_wf(e.op, e.size);
        assert(seq![e] == seq![node(e.op, e.size)]);
        assert(seq![e][0] == e);
    } else if op_arity(e.op) == 1 {
        let x = args[0];
        assert(good(x, nt));
        assert(e == node(e.op, e.size));
        lemma_good_postfix1(x, e.op, e.size, nt);
        if is_const(x) {
            lemma_good_leaf(fold1(e.op, cval(x), width(x)), width(x), nt);
            lemma_good_leaf(mask(cval(x), width(x) as nat), e.size, nt);
            if 1 <= width(x) <= 64 {
                lemma_good_leaf(sign_extend_spec(cval(x), width(x), e.size), e.size, nt);
            }
            if e.op is Slice && e.op->Slice_0 <= e.op->Slice_1 && e.op->Slice_0 < 64 {
                lemma_good_leaf(slice_val_spec(cval(x), e.op->Slice_0, e.op->Slice_1), e.size, nt);
            }
        } else if (e.op is Neg && x.last().op is Neg) || (e.op is Not && x.last().op is Not) {
            lemma_good_drop_last(x, nt);
        }
    } else if op_arity(e.op) == 2 {
        let x0 = args[0];
        let y0 = args[1];
        assert(good(x0, nt));
        assert(good(y0, nt));
        assert(e == node(e.op, e.size));
        lemma_good_postfix2(x0, y0, e.op, e.size, nt);
        if commutative_route(e.op) {
            let p = ordered(x0, y0);
            let x = p.0;
            let y = p.1;
            lemma_ordered_good(x0, y0, nt);
            lemma_good_postfix2(x, y, e.op, e.size, nt);
            if is_const(x) && is_const(y) {
                lemma_good_leaf(
                    mask(
                        fold2(e.op, mask(cval(x), width(x) as nat), mask(cval(y), width(x) as nat), size),
                        width(x) as nat,
                    ),
                    width(x),
                    nt,
                );
            }
            lemma_good_postfix1(const_leaf(1, size), OpView::Neg, size, nt);
            lemma_good_postfix1(x, OpView::Not, size, nt);
            if reassociable(x, y, e) {
                lemma_args_of_good(x, nt);
                let a = args_of(x);
                assert(good(a[0], nt));
                assert(good(a[1], nt));
                lemma_ordered_good(a[0], a[1], nt);
                let q = ordered(a[0], a[1]);
                let w = width(y);
                lemma_good_leaf(
                    mask(fold2(e.op, mask(cval(y), w as nat), mask(cval(q.1), w as nat), size), w as nat),
                    w,
                    nt,
                );
                lemma_good_postfix2(q.0, fold_consts(y, q.1, e.op, e.size), e.op, e.size, nt);
            }
        } else if e.op is Concat {
            if is_const(x0) && is_const(y0) && width(y0) < 64 {
                lemma_good_leaf((cval(x0) << width(y0)) | cval(y0), e.size, nt);
            }
        } else {
            let x = x0;
            let y = y0;
            if is_const(x) && is_const(y) {
                lemma_good_leaf(
                    mask(
                        fold2(e.op, mask(cval(x), width(x) as nat), mask(cval(y), width(x) as nat), size),
                        width(x) as nat,
                    ),
                    width(x),
                    nt,
                );
            }
            lemma_good_postfix1(y, OpView::Neg, width(y), nt);
            lemma_good_postfix1(y, OpView::Neg, size, nt);
            lemma_good_postfix2(x, postfix1(y, OpView::Neg, size), OpView::Add, size, nt);
            if y.last().op is Neg {
                lemma_good_drop_last(y, nt);
                lemma_good_postfix2(x, y.drop_last(), OpView::Add, size, nt);
            }
        }
    } else {
        assert(good(args[0], nt));
        assert(good(args[1], nt));
        assert(good(args[2], nt));
        assert(e == node(e.op, e.size));
        lemma_good_postfix3(args[0], args[1], args[2], e.op, e.size, nt);
    }
}

/// Every value on the simplifier's stack is good.
pub proof fn lemma_run_good(s: Seq<NodeView>, n: nat, nt: bool)
    requires
        good(s, nt),
        n <= s.len(),
    ensures
        forall|j: int|
            0 <= j < run_stack(s, n, simp_builder()).len() ==> #[trigger] good(
                run_stack(s, n, simp_builder())[j],
                nt,
            ),
{
    let step = simp_builder();
    let pre = |e: NodeView| good_node(e, nt);
    let inv = |x: Seq<NodeView>| good(x, nt);
    assert forall|args: Seq<Seq<NodeView>>, e: NodeView|
        pre(e) && args.len() == op_arity(e.op) && (forall|j: int|
            0 <= j < args.len() ==> #[trigger] inv(args[j])) implies #[trigger] inv(
        step(args, e),
    ) by {
        assert forall|j: int| 0 <= j < args.len() implies #[trigger] good(args[j], nt) by {
            assert(inv(args[j]));
        }
        lemma_simp_step_good(args, e, nt);
    }
    assert forall|i: int| 0 <= i < s.len() implies #[trigger] pre(s[i]) by {
        assert(good_node(s[i], nt));
    }
    lemma_run_stack_inv(s, n, step, pre, inv);
    assert forall|j: int|
        0 <= j < run_stack(s, n, step).len() implies #[trigger] good(run_stack(s, n, step)[j], nt) by {
        assert(inv(run_stack(s, n, step)[j]));
    }
}

/// A pass keeps an expression good, and placeholder-free if it was.
pub proof fn lemma_pass_good(s: Seq<NodeView>, nt: bool)
    requires
        good(s, nt),
    ensures
        good(pass(s), nt),
        run_stack(s, s.len(), simp_builder()).len() == 1,
{
    lemma_run_good(s, s.len(), nt);
    lemma_run_stack_len(s, s.len(), simp_builder());
    assert(good(run_stack(s, s.len(), simp_builder())[0], nt));
}

/// One simplification pass.
pub fn simplify_pass(expr: &LinearizedExpr) -> (r: LinearizedExpr)
    requires
        good(expr@, false),
    ensures
        r@ == pass(expr@),
        good(r@, false),
{
    let ghost step = simp_builder();
    let mut stack: Vec<LinearizedExpr> = Vec::new();
    let n = expr.0.len();
    let mut i: usize = 0;
    assert(exprs_view(stack@) =~= run_stack(expr@, 0, step));
    while i < n
        invariant
            n == expr@.len(),
            i <= n,
            good(expr@, false),
            step == simp_builder(),
            exprs_view(stack@) == run_stack(expr@, i as nat, step),
        decreases n - i,
    {
        proof {
            lemma_run_stack_len(expr@, i as nat, step);
            lemma_run_good(expr@, i as nat, false);
            let ii = i as int;
            assert(height(expr@, ii as nat) >= op_arity(expr@[ii].op));
        }
        let e = &expr.0[i];
        assert(e@ == expr@[i as int]);
        let k = e.arity();
        let ghost st = exprs_view(stack@);
        assert(st.len() == height(expr@, i as nat));
        assert(st.len() >= k);
        let args = pop_args(&mut stack, k);
        let ghost base = exprs_view(stack@);
        assert(exprs_view(args@).len() == args@.len());
        assert(args@.len() == k);
        proof {
            assert forall|j: int| 0 <= j < args@.len() implies #[trigger] well_formed(args@[j]@) by {
                assert(exprs_view(args@).len() == args@.len());
                assert(exprs_view(args@) == st.subrange(st.len() - k, st.len() as int));
                assert(args@.len() == k);
                assert(exprs_view(args@)[j] == args@[j]@);
                assert(st.subrange(st.len() - k, st.len() as int)[j] == st[st.len() - k + j]);
                assert(args@[j]@ == st[st.len() - k + j]);
                assert(good(st[st.len() - k + j], false));
            }
        }
        assert(e@ == expr@[i as int]);
        let res = simp_step_exec(args, e);
        stack.push(res);
        proof {
            assert(exprs_view(stack@) =~= base.push(res@));
            let a = st.subrange(st.len() - op_arity(expr@[i as int].op), st.len() as int);
            assert(step(a, expr@[i as int]) == simp_step(a, expr@[i as int]));
            assert(exprs_view(stack@) == run_stack(expr@, (i + 1) as nat, step));
        }
        i += 1;
    }
    proof {
        lemma_pass_good(expr@, false);
    }
    let r = stack.pop().unwrap();
    r
}

impl LinearizedExpr {
    /// Simplifies until a pass changes nothing (or the round bound is reached).
    pub fn simplify(&self) -> (r: LinearizedExpr)
        requires
            good(self@, false),
        ensures
            r@ == simplified(self@),
            good(r@, false),
    {
        let mut before = self.clone();
        let mut current = simplify_pass(self);
        let mut rounds: usize = MAX_SIMPLIFY_ROUNDS;
        while rounds > 0 && !before.same_as(&current)
            invariant
                settle(before@, current@, rounds as nat) == simplified(self@),
                current@ == pass(before@),
                good(before@, false),
                good(current@, false),
            decreases rounds,
        {
            before = current;
            current = simplify_pass(&before);
            rounds -= 1;
        }
        current
    }
}

/// Simplification is idempotent: once its passes have settled on a fixed point,
/// simplifying the result again returns it unchanged.
pub proof fn lemma_simplify_idempotent(s: Seq<NodeView>)
    requires
        good(s, false),
        pass(simplified(s)) == simplified(s),
    ensures
        simplified(simplified(s)) == simplified(s),
{
}

/// The stack of an operator applied to two well-formed operands, just before the operator.
proof fn lemma_run_binary(x: Seq<NodeView>, y: Seq<NodeView>, e: NodeView)
    requires
        well_formed(x),
        well_formed(y),
        op_arity(e.op) == 2,
    ensures
        pass(postfix2(x, y, e.op, e.size)) == simp_step(seq![pass(x), pass(y)], e),
{
    let step = simp_builder();
    let s = postfix2(x, y, e.op, e.size);
    let xy = x + y;
    lemma_run_stack_append(x, y, y.len(), step);
    lemma_run_stack_len(x, x.len(), step);
    lemma_run_stack_len(y, y.len(), step);
    assert(s == xy + seq![node(e.op, e.size)]);
    lemma_run_stack_prefix(xy, seq![node(e.op, e.size)], xy.len(), step);
    let st = run_stack(xy, xy.len(), step);
    assert(st == run_stack(x, x.len(), step) + run_stack(y, y.len(), step));
    assert(st =~= seq![pass(x), pass(y)]);
    assert(s[s.len() - 1] == node(e.op, e.size));
    assert(node(e.op, e.size) == e);
    assert(st.subrange(0, 0).push(step(st.subrange(0, 2), e)) =~= seq![simp_step(st, e)]);
}

/// `x - x` simplifies to the constant 0 when `x` holds no placeholder.
pub proof fn lemma_sub_self_is_zero(x: Seq<NodeView>)
    requires
        good(x, true),
    ensures
        simplified(postfix2(x, x, OpView::Sub, 64)) == const_leaf(0, 64),
{
    let e = node(OpView::Sub, 64);
    let s = postfix2(x, x, OpView::Sub, 64);
    lemma_run_binary(x, x, e);
    lemma_pass_good(x, true);
    let xp = pass(x);
    assert(!has_nt(xp)) by {
        if has_nt(xp) {
            let i = choose|i: int| 0 <= i < xp.len() && is_nt_node(#[trigger] xp[i]);
            assert(good_node(xp[i], true));
        }
    }
    assert(seq![xp, xp][0] == xp && seq![xp, xp][1] == xp);
    let c = const_leaf(0, 64);
    if can_fold(xp, xp, e) {
        let a = mask(cval(xp), 64);
        assert(fold2(OpView::Sub, a, a, 64) == 0);
        assert(mask(0, 64) == 0);
    }
    assert(pass(s) == c);
    let step = simp_builder();
    assert(run_stack(c, 0, step) =~= Seq::<Seq<NodeView>>::empty());
    assert(run_stack(c, 1, step) =~= seq![simp_step(Seq::<Seq<NodeView>>::empty(), c[0])]);
    assert(pass(c) == c);
    assert(s.len() > 1);
    assert(s != c);
    assert(settle(c, c, 63) == c);
    assert(settle(s, c, 64) == settle(c, pass(c), 63));
}

/// Whether `s` is accepted by the simplifier: well formed, of accepted operators.
pub fn is_good(s: &LinearizedExpr) -> (r: bool)
    ensures
        r == good(s@, false),
{
    let n = s.0.len();
    let mut h: usize = 0;
    let mut i: usize = 0;
    while i < n
        invariant
            n == s@.len(),
            i <= n,
            h as int == height(s@, i as nat),
            h <= i,
            forall|j: int| 0 <= j < i ==> #[trigger] height(s@, j as nat) >= op_arity(s@[j].op),
            forall|j: int| 0 <= j < i ==> #[trigger] good_node(s@[j], false),
        decreases n - i,
    {
        let e = &s.0[i];
        assert(e@ == s@[i as int]);
        let k = e.arity();
        if h < k || !simplifiable_exec(e) {
            proof {
                if h < k {
                    let ii = i as int;
                    assert(!(height(s@, ii as nat) >= op_arity(s@[ii].op)));
                    assert(!crate::expr::reduces(s@));
                } else {
                    assert(!good_node(s@[i as int], false));
                }
            }
            return false;
        }
        h = h - k + 1;
        i += 1;
    }
    proof {
        if n > 0 && h == 1 {
            assert(crate::expr::reduces(s@));
        }
    }
    n > 0 && h == 1
}

fn simplifiable_exec(e: &LinearExpr) -> (r: bool)
    ensures
        r == good_node(e@, false),
{
    match e.op {
        LinearExprOp::Const(_) | LinearExprOp::Reg(_) | LinearExprOp::RegSlice(..)
        | LinearExprOp::ConstSlice(..) | LinearExprOp::Not | LinearExprOp::Neg
        | LinearExprOp::ZeroExtend | LinearExprOp::SignExtend | LinearExprOp::Slice(..)
        | LinearExprOp::Mem
        | LinearExprOp::Add | LinearExprOp::Sub | LinearExprOp::Or | LinearExprOp::And
        | LinearExprOp::Xor | LinearExprOp::Nand | LinearExprOp::Nor | LinearExprOp::Mul
        | LinearExprOp::Udiv | LinearExprOp::Sdiv | LinearExprOp::Urem | LinearExprOp::Srem
        | LinearExprOp::Ult | LinearExprOp::Slt | LinearExprOp::Ule | LinearExprOp::Sle
        | LinearExprOp::Equal | LinearExprOp::Ashr | LinearExprOp::Lshr | LinearExprOp::Shl
        | LinearExprOp::Concat | LinearExprOp::Ite => true,
        _ => false,
    }
}

} // verus!
