//! Semantics blocks: an assignment's source with its operands renamed to the handler's
//! fixed names and widened to 64 bits.
use crate::assignment::Assignment;
use crate::bit_vecs::{mask, mask_to_size};
use crate::evaluator::{
    build_op_1, build_op_2, evaluate, lemma_run_stack_inv, lemma_run_stack_len, pop_args,
    run_stack,
};
use crate::expr::{
    const_nodes, dedup, exprs_view, height, node, op_arity, postfix1, postfix2, rename_node,
    singletons, var_nodes, well_formed, width, LinearExpr, LinearExprOp, LinearizedExpr, NodeView, OpView,
};
use crate::expression_utils::{const_leaf, downcast_spec, downcast_width, semantic_downcast};
use crate::scheduler::SemanticsBlock;
use crate::expr::is_nt_node;
use vstd::prelude::*;

verus! {

/// Operators the widening rewrite handles, at widths it can narrow back to.
pub open spec fn rewritable(e: NodeView) -> bool {
    &&& e.size > 0
    &&& match e.op {
        OpView::Reg(_) | OpView::Const(_) | OpView::Alloc(_) => true,
        OpView::Load | OpView::Mem | OpView::Store => true,
        OpView::Not | OpView::Neg | OpView::ZeroExtend | OpView::Slice(..) => downcast_width(e.size),
        OpView::Add | OpView::Sub | OpView::Mul | OpView::Udiv | OpView::Sdiv | OpView::Urem
        | OpView::Srem | OpView::Shl | OpView::Lshr | OpView::Ashr | OpView::And | OpView::Or
        | OpView::Xor | OpView::Ult | OpView::Slt | OpView::Ule | OpView::Sle
        | OpView::Equal => downcast_width(e.size),
        _ => false,
    }
}

/// The element computed at 64 bits, then narrowed back to its own width.
pub open spec fn widen_step(a: Seq<Seq<NodeView>>, e: NodeView) -> Seq<NodeView> {
    match e.op {
        OpView::Reg(s) => seq![node(OpView::Reg(s), 64)],
        OpView::Const(x) => const_leaf(x, 64),
        OpView::Alloc(c) => seq![node(OpView::Alloc(mask(c, e.size as nat)), e.size)],
        OpView::Load | OpView::Mem => postfix1(a[0], e.op, e.size),
        OpView::Store => postfix2(a[0], a[1], e.op, e.size),
        OpView::Slice(..) => downcast_spec(a[0], e.size),
        _ => if op_arity(e.op) == 1 {
            downcast_spec(postfix1(a[0], e.op, 64), e.size)
        } else {
            downcast_spec(postfix2(a[0], a[1], e.op, 64), e.size)
        },
    }
}

pub open spec fn widen_builder() -> spec_fn(Seq<Seq<NodeView>>, NodeView) -> Seq<NodeView> {
    |a: Seq<Seq<NodeView>>, e: NodeView| widen_step(a, e)
}

/// The widened form of an expression.
pub open spec fn widened(s: Seq<NodeView>) -> Seq<NodeView> {
    evaluate(s, widen_builder())
}

/// A non-empty expression of positive width.
pub open spec fn sized(x: Seq<NodeView>) -> bool {
    x.len() > 0 && width(x) > 0
}

proof fn lemma_widen_sized(s: Seq<NodeView>, n: nat)
    requires
        well_formed(s),
        n <= s.len(),
        forall|i: int| 0 <= i < s.len() ==> #[trigger] rewritable(s[i]),
    ensures
        forall|j: int|
            0 <= j < run_stack(s, n, widen_builder()).len() ==> #[trigger] sized(
                run_stack(s, n, widen_builder())[j],
            ),
{
    let step = widen_builder();
    let pre = |e: NodeView| rewritable(e);
    let inv = |x: Seq<NodeView>| sized(x);
    assert forall|args: Seq<Seq<NodeView>>, e: NodeView|
        pre(e) && args.len() == op_arity(e.op) && (forall|j: int|
            0 <= j < args.len() ==> #[trigger] inv(args[j])) implies #[trigger] inv(step(args, e)) by {
        if args.len() >= 1 {
            assert(inv(args[0]));
        }
    }
    assert forall|i: int| 0 <= i < s.len() implies #[trigger] pre(s[i]) by {
        assert(rewritable(s[i]));
    }
    lemma_run_stack_inv(s, n, step, pre, inv);
    assert forall|j: int|
        0 <= j < run_stack(s, n, step).len() implies #[trigger] sized(run_stack(s, n, step)[j]) by {
        assert(inv(run_stack(s, n, step)[j]));
    }
}

/// Widening of expressions to 64-bit arithmetic.
pub struct SemanticRewriter {}

impl SemanticRewriter {
    fn widen_one(args: Vec<LinearizedExpr>, e: &LinearExpr) -> (r: LinearizedExpr)
        requires
            args@.len() == op_arity(e@.op),
            rewritable(e@),
            forall|j: int| 0 <= j < args@.len() ==> #[trigger] sized(args@[j]@),
        ensures
            r@ == widen_step(exprs_view(args@), e@),
    {
        let ghost a = exprs_view(args@);
        assert(args@.len() >= 1 ==> a[0] == args@[0]@ && sized(args@[0]@));
        assert(args@.len() >= 2 ==> a[1] == args@[1]@);
        match &e.op {
            LinearExprOp::Reg(s) => {
                let r = LinearizedExpr::from_linear_expr(
                    LinearExpr::new(LinearExprOp::Reg(s.clone()), 64),
                );
                r
            },
            LinearExprOp::Const(x) => LinearizedExpr::from_linear_expr(
                LinearExpr::new(LinearExprOp::Const(mask_to_size(*x, 64)), 64),
            ),
            LinearExprOp::Alloc(c) => LinearizedExpr::from_linear_expr(
                LinearExpr::new(LinearExprOp::Alloc(mask_to_size(*c, e.size)), e.size),
            ),
            LinearExprOp::Load | LinearExprOp::Mem => build_op_1(&args[0], e),
            LinearExprOp::Store => build_op_2(&args[0], &args[1], e),
            LinearExprOp::Slice(..) => semantic_downcast(args[0].clone(), e.size),
            _ => {
                let wide = LinearExpr::new(e.op.clone(), 64);
                if e.arity() == 1 {
                    semantic_downcast(build_op_1(&args[0], &wide), e.size)
                } else {
                    semantic_downcast(build_op_2(&args[0], &args[1], &wide), e.size)
                }
            },
        }
    }

    /// The expression computed at 64 bits, each result narrowed back to its width.
    pub fn rewrite(expr: &LinearizedExpr) -> (r: LinearizedExpr)
        requires
            well_formed(expr@),
            forall|i: int| 0 <= i < expr@.len() ==> #[trigger] rewritable(expr@[i]),
        ensures
            r@ == widened(expr@),
    {
        let ghost step = widen_builder();
        let mut stack: Vec<LinearizedExpr> = Vec::new();
        let n = expr.0.len();
        let mut i: usize = 0;
        assert(exprs_view(stack@) =~= run_stack(expr@, 0, step));
        while i < n
            invariant
                n == expr@.len(),
                i <= n,
                well_formed(expr@),
                forall|t: int| 0 <= t < expr@.len() ==> #[trigger] rewritable(expr@[t]),
                step == widen_builder(),
                exprs_view(stack@) == run_stack(expr@, i as nat, step),
            decreases n - i,
        {
            proof {
                lemma_run_stack_len(expr@, i as nat, step);
                lemma_widen_sized(expr@, i as nat);
                let ii = i as int;
                assert(height(expr@, ii as nat) >= op_arity(expr@[ii].op));
            }
            let e = &expr.0[i];
            assert(e@ == expr@[i as int]);
            let k = e.arity();
            let ghost st = exprs_view(stack@);
            let args = pop_args(&mut stack, k);
            let ghost base = exprs_view(stack@);
            assert(exprs_view(args@).len() == args@.len());
            proof {
                assert forall|j: int| 0 <= j < args@.len() implies #[trigger] sized(args@[j]@) by {
                    assert(exprs_view(args@)[j] == args@[j]@);
                    assert(st.subrange(st.len() - k, st.len() as int)[j] == st[st.len() - k + j]);
                    assert(sized(st[st.len() - k + j]));
                }
            }
            let res = SemanticRewriter::widen_one(args, e);
            stack.push(res);
            proof {
                assert(exprs_view(stack@) =~= base.push(res@));
                let a = st.subrange(st.len() - op_arity(expr@[i as int].op), st.len() as int);
                assert(step(a, expr@[i as int]) == res@);
            }
            i += 1;
        }
        proof {
            lemma_run_stack_len(expr@, n as nat, step);
        }
        stack.pop().unwrap()
    }
}

/// Same length and the same arity at every position.
pub open spec fn same_shape(s: Seq<NodeView>, t: Seq<NodeView>) -> bool {
    s.len() == t.len() && forall|i: int| 0 <= i < s.len() ==> op_arity(#[trigger] s[i].op) == op_arity(t[i].op)
}

proof fn lemma_same_shape_height(s: Seq<NodeView>, t: Seq<NodeView>, n: nat)
    requires
        same_shape(s, t),
        n <= s.len(),
    ensures
        height(s, n) == height(t, n),
    decreases n,
{
    if n > 0 {
        lemma_same_shape_height(s, t, (n - 1) as nat);
        assert(op_arity(s[n - 1].op) == op_arity(t[n - 1].op));
    }
}

/// Expressions of the same shape are well formed together.
pub proof fn lemma_same_shape_wf(s: Seq<NodeView>, t: Seq<NodeView>)
    requires
        same_shape(s, t),
        well_formed(s),
    ensures
        well_formed(t),
{
    lemma_same_shape_height(s, t, s.len());
    assert forall|i: int| 0 <= i < t.len() implies #[trigger] height(t, i as nat) >= op_arity(t[i].op) by {
        lemma_same_shape_height(s, t, i as nat);
        assert(height(s, i as nat) >= op_arity(s[i].op));
    }
}

/// `e` with inputs renamed: the first to `x`, then the second to `y`.
pub open spec fn rename_inputs(e: Seq<NodeView>, ins: Seq<NodeView>) -> Seq<NodeView> {
    let once = if ins.len() >= 1 {
        e.map_values(|n: NodeView| rename_node(n, ins[0].op->Reg_0, OpView::Reg(seq!['x']), ins[0].size))
    } else {
        e
    };
    if ins.len() >= 2 {
        once.map_values(|n: NodeView| rename_node(n, ins[1].op->Reg_0, OpView::Reg(seq!['y']), ins[1].size))
    } else {
        once
    }
}

/// Position of the first constant of `s`, from `i` on.
pub open spec fn first_const_from(s: Seq<NodeView>, i: int) -> int
    decreases s.len() - i,
{
    if i >= s.len() {
        s.len() as int
    } else if s[i].op is Const {
        i
    } else {
        first_const_from(s, i + 1)
    }
}

/// All constants of `s` have one value.
pub open spec fn one_constant_value(s: Seq<NodeView>) -> bool {
    forall|i: int, j: int|
        0 <= i < s.len() && 0 <= j < s.len() && s[i].op is Const && s[j].op is Const
            ==> #[trigger] s[i].op == #[trigger] s[j].op
}

/// `e` with its first constant replaced by the register `c`.
pub open spec fn replace_first_constant(e: Seq<NodeView>) -> Seq<NodeView> {
    let p = first_const_from(e, 0);
    if p < e.len() {
        e.subrange(0, p) + seq![node(OpView::Reg(seq!['c']), e[p].size)] + e.subrange(p + 1, e.len() as int)
    } else {
        e
    }
}

/// The immediate a block carries: a memory operation's width or allocation size,
/// otherwise its constant.
pub open spec fn block_immediate(e: Seq<NodeView>, constant: Option<u64>) -> Option<u64> {
    match e.last().op {
        OpView::Load | OpView::Store => Some(e.last().size as u64),
        OpView::Alloc(c) => Some(c),
        _ => constant,
    }
}

/// The block of an assignment's source, before widening.
pub open spec fn block_expr(rhs: Seq<NodeView>) -> Seq<NodeView> {
    let renamed = rename_inputs(rhs, dedup(var_nodes(rhs)));
    if const_nodes(rhs).len() > 0 {
        replace_first_constant(renamed)
    } else {
        renamed
    }
}

proof fn lemma_first_const(s: Seq<NodeView>, i: int)
    requires
        0 <= i <= s.len(),
    ensures
        i <= first_const_from(s, i) <= s.len(),
        first_const_from(s, i) < s.len() ==> s[first_const_from(s, i)].op is Const,
        forall|j: int| i <= j < first_const_from(s, i) ==> !(#[trigger] s[j].op is Const),
    decreases s.len() - i,
{
    if i < s.len() && !(s[i].op is Const) {
        lemma_first_const(s, i + 1);
    }
}

proof fn lemma_var_nodes_from(s: Seq<NodeView>)
    ensures
        forall|i: int|
            0 <= i < var_nodes(s).len() ==> (#[trigger] var_nodes(s)[i]).op is Reg && s.contains(
                var_nodes(s)[i],
            ),
    decreases s.len(),
{
    if s.len() > 0 {
        lemma_var_nodes_from(s.drop_last());
        let d = s.drop_last();
        assert forall|i: int| 0 <= i < var_nodes(s).len() implies (#[trigger] var_nodes(s)[i]).op is Reg
            && s.contains(var_nodes(s)[i]) by {
            if i < var_nodes(d).len() {
                assert(var_nodes(s)[i] == var_nodes(d)[i]);
                let k = choose|k: int| 0 <= k < d.len() && d[k] == var_nodes(d)[i];
                assert(s[k] == d[k]);
            } else {
                assert(var_nodes(s)[i] == s.last());
                assert(s[s.len() - 1] == s.last());
            }
        }
    }
}

proof fn lemma_const_nodes_consts(s: Seq<NodeView>)
    ensures
        forall|i: int| 0 <= i < const_nodes(s).len() ==> (#[trigger] const_nodes(s)[i]).op is Const,
    decreases s.len(),
{
    if s.len() > 0 {
        lemma_const_nodes_consts(s.drop_last());
        let d = s.drop_last();
        assert forall|i: int| 0 <= i < const_nodes(s).len() implies (#[trigger] const_nodes(s)[i]).op is Const by {
            if i < const_nodes(d).len() {
                assert(const_nodes(s)[i] == const_nodes(d)[i]);
            }
        }
    }
}

proof fn lemma_dedup_from(s: Seq<NodeView>)
    ensures
        forall|i: int| 0 <= i < dedup(s).len() ==> s.contains(#[trigger] dedup(s)[i]),
    decreases s.len(),
{
    if s.len() > 0 {
        lemma_dedup_from(s.drop_last());
        let d = s.drop_last();
        assert forall|i: int| 0 <= i < dedup(s).len() implies s.contains(#[trigger] dedup(s)[i]) by {
            if i < dedup(d).len() {
                assert(dedup(s)[i] == dedup(d)[i]);
                let k = choose|k: int| 0 <= k < d.len() && d[k] == dedup(d)[i];
                assert(s[k] == d[k]);
            } else {
                assert(dedup(s)[i] == s.last());
                assert(s[s.len() - 1] == s.last());
            }
        }
    }
}

/// The inputs of an assignment's source are registers of positive width.
proof fn lemma_inputs_registers(rhs: Seq<NodeView>)
    requires
        forall|i: int| 0 <= i < rhs.len() ==> #[trigger] rewritable(rhs[i]),
    ensures
        forall|i: int|
            0 <= i < dedup(var_nodes(rhs)).len() ==> (#[trigger] dedup(var_nodes(rhs))[i]).op is Reg
                && dedup(var_nodes(rhs))[i].size > 0,
{
    lemma_var_nodes_from(rhs);
    lemma_dedup_from(var_nodes(rhs));
    let v = var_nodes(rhs);
    assert forall|i: int| 0 <= i < dedup(v).len() implies (#[trigger] dedup(v)[i]).op is Reg
        && dedup(v)[i].size > 0 by {
        let k = choose|k: int| 0 <= k < v.len() && v[k] == dedup(v)[i];
        assert(v[k].op is Reg);
        let m = choose|m: int| 0 <= m < rhs.len() && rhs[m] == v[k];
        assert(rewritable(rhs[m]));
    }
}

impl SemanticsBlock {
    /// Replaces the first constant by the register `c`.
    pub fn replace_constant(expr: &mut LinearizedExpr)
        ensures
            final(expr)@ == replace_first_constant(old(expr)@),
    {
        proof {
            reveal_strlit("c");
            lemma_first_const(expr@, 0);
        }
        let mut pos: usize = 0;
        while pos < expr.len() && !expr.0[pos].is_constant()
            invariant
                pos <= expr@.len(),
                expr@ == old(expr)@,
                first_const_from(expr@, 0) == first_const_from(expr@, pos as int),
            decreases expr@.len() - pos,
        {
            pos += 1;
        }
        if pos < expr.len() {
            let size = expr.0[pos].size;
            let c = LinearizedExpr::from_linear_expr(
                LinearExpr::new(LinearExprOp::Reg(String::from_str("c")), size),
            );
            assert("c"@ =~= seq!['c']);
            assert(c@ =~= seq![node(OpView::Reg(seq!['c']), expr@[pos as int].size)]);
            expr.replace_at_pos(pos, &c);
        }
    }

    /// The immediate of a memory block is its width or allocation size.
    pub fn set_memory_constant(expr: &LinearizedExpr, immediate: Option<u64>) -> (r: Option<u64>)
        requires
            expr@.len() > 0,
        ensures
            r == block_immediate(expr@, immediate),
    {
        match expr.op().op {
            LinearExprOp::Load | LinearExprOp::Store => Some(expr.size() as u64),
            LinearExprOp::Alloc(c) => Some(c),
            _ => immediate,
        }
    }

    /// The block of `assignment`: its destination, its distinct source registers (at
    /// most two, renamed `x` and `y`), its single constant value (renamed `c` at its
    /// first position) and the widened expression.
    pub fn from_assignment(assignment: &Assignment) -> (r: SemanticsBlock)
        requires
            well_formed(assignment.rhs@),
            forall|i: int| 0 <= i < assignment.rhs@.len() ==> #[trigger] rewritable(assignment.rhs@[i]),
            dedup(var_nodes(assignment.rhs@)).len() <= 2,
            one_constant_value(assignment.rhs@),
        ensures
            r.output_variable@ == assignment.lhs@,
            exprs_view(r.input_variables@) == singletons(dedup(var_nodes(assignment.rhs@))),
            r.immediate == block_immediate(
                block_expr(assignment.rhs@),
                if const_nodes(assignment.rhs@).len() > 0 {
                    Some(const_nodes(assignment.rhs@)[0].op->Const_0)
                } else {
                    None
                },
            ),
            r.expr@ == widened(block_expr(assignment.rhs@)),
    {
        let ghost rhs = assignment.rhs@;
        let ghost ins = dedup(var_nodes(rhs));
        proof {
            reveal_strlit("x");
            reveal_strlit("y");
            lemma_inputs_registers(rhs);
        }
        let input_variables = assignment.rhs.get_unique_vars();
        let output_variable = assignment.lhs.clone();
        let mut expr = assignment.rhs.clone();
        assert(exprs_view(input_variables@).len() == input_variables@.len());
        if input_variables.len() >= 1 {
            assert(exprs_view(input_variables@)[0] == input_variables@[0]@);
            assert(input_variables@[0]@ == seq![ins[0]]);
            let v0 = &input_variables[0];
            let x = crate::expression_utils::reg("x", v0.size());
            assert("x"@ =~= seq!['x']);
            expr.replace_var(v0, &x);
        }
        if input_variables.len() >= 2 {
            assert(exprs_view(input_variables@)[1] == input_variables@[1]@);
            assert(input_variables@[1]@ == seq![ins[1]]);
            let v1 = &input_variables[1];
            let y = crate::expression_utils::reg("y", v1.size());
            assert("y"@ =~= seq!['y']);
            expr.replace_var(v1, &y);
        }
        assert(expr@ == rename_inputs(rhs, ins));
        let constants = assignment.rhs.get_constants();
        assert(exprs_view(constants@).len() == constants@.len());
        let mut immediate: Option<u64> = None;
        if constants.len() > 0 {
            assert(exprs_view(constants@)[0] == constants@[0]@);
            proof {
                lemma_const_nodes_consts(rhs);
                assert(singletons(const_nodes(rhs))[0] == seq![const_nodes(rhs)[0]]);
                assert(const_nodes(rhs)[0].op is Const);
            }
            let v = constants[0].get_constant_val();
            SemanticsBlock::replace_constant(&mut expr);
            immediate = Some(v);
        }
        assert(expr@ == block_expr(rhs));
        proof {
            lemma_block_expr_ok(rhs);
        }
        let immediate = SemanticsBlock::set_memory_constant(&expr, immediate);
        let expr = SemanticRewriter::rewrite(&expr);
        SemanticsBlock { output_variable, input_variables, immediate, expr }
    }
}

/// Renaming inputs and the constant keeps the shape and the accepted elements.
proof fn lemma_block_expr_ok(rhs: Seq<NodeView>)
    requires
        well_formed(rhs),
        forall|i: int| 0 <= i < rhs.len() ==> #[trigger] rewritable(rhs[i]),
    ensures
        well_formed(block_expr(rhs)),
        forall|i: int| 0 <= i < block_expr(rhs).len() ==> #[trigger] rewritable(block_expr(rhs)[i]),
        block_expr(rhs).len() > 0,
{
    lemma_inputs_registers(rhs);
    let ins = dedup(var_nodes(rhs));
    let t = block_expr(rhs);
    let renamed = rename_inputs(rhs, ins);
    assert(renamed.len() == rhs.len());
    assert forall|i: int| 0 <= i < rhs.len() implies op_arity(#[trigger] renamed[i].op) == op_arity(rhs[i].op)
        && rewritable(renamed[i]) by {
        assert(rewritable(rhs[i]));
        if ins.len() >= 1 {
            assert(ins[0].size > 0);
        }
        if ins.len() >= 2 {
            assert(ins[1].size > 0);
        }
    }
    lemma_first_const(renamed, 0);
    assert(t.len() == rhs.len());
    assert forall|i: int| 0 <= i < t.len() implies op_arity(#[trigger] rhs[i].op) == op_arity(t[i].op)
        && rewritable(t[i]) by {
        assert(op_arity(renamed[i].op) == op_arity(rhs[i].op) && rewritable(renamed[i]));
        let p = first_const_from(renamed, 0);
        if const_nodes(rhs).len() > 0 && p < renamed.len() {
            if i < p {
                assert(t[i] == renamed[i]);
            } else if i == p {
                assert(rewritable(renamed[p]));
            } else {
                assert(t[i] == renamed[i]);
            }
        }
    }
    lemma_same_shape_wf(rhs, t);
}

/// The draw `k` places after `c`, or zero past the end of the draws.
pub open spec fn spec_draw(draws: Seq<u64>, c: int, k: int) -> u64 {
    if c < draws.len() && k < draws.len() - c {
        draws[c + k]
    } else {
        0
    }
}

/// `c` moved on by `k` draws, at most to the end `len`.
pub open spec fn spec_advance(c: int, k: int, len: int) -> int {
    if k < len - c {
        c + k
    } else {
        len
    }
}

fn draw_at(draws: &Vec<u64>, c: usize, k: usize) -> (r: u64)
    ensures
        r == spec_draw(draws@, c as int, k as int),
{
    if c < draws.len() && k < draws.len() - c {
        draws[c + k]
    } else {
        0
    }
}

fn advance(c: usize, k: usize, len: usize) -> (r: usize)
    requires
        c <= len,
    ensures
        c <= r <= len,
        r as int == spec_advance(c as int, k as int, len as int),
{
    if k < len - c {
        c + k
    } else {
        len
    }
}

/// The operand a draw picks: register `x`, `y`, `c` or `k`, or the constant 0 or 1.
pub open spec fn operand_leaf(t: u64, size: usize) -> Seq<NodeView> {
    if t == 0 {
        seq![crate::expr::node(OpView::Reg(seq!['x']), size)]
    } else if t == 1 {
        seq![crate::expr::node(OpView::Reg(seq!['y']), size)]
    } else if t == 2 {
        seq![crate::expr::node(OpView::Reg(seq!['c']), size)]
    } else if t == 3 {
        seq![crate::expr::node(OpView::Reg(seq!['k']), size)]
    } else if t == 4 {
        const_leaf(0, size)
    } else {
        const_leaf(1, size)
    }
}

/// A 64-bit placeholder register.
pub open spec fn nt_leaf() -> Seq<NodeView> {
    seq![crate::expr::node(OpView::Reg(crate::expr::nt_name()), 64)]
}

/// The decoy template number `t` over placeholders; `e` is the constant of a key check.
pub open spec fn template(t: u64, e: u64) -> Seq<NodeView> {
    let x = nt_leaf();
    if t == 0 {
        postfix2(x, x, OpView::Add, 64)
    } else if t == 1 {
        postfix2(x, x, OpView::Sub, 64)
    } else if t == 2 {
        postfix2(x, x, OpView::Mul, 64)
    } else if t == 3 {
        postfix2(x, x, OpView::Shl, 64)
    } else if t == 4 {
        postfix2(x, x, OpView::And, 64)
    } else if t == 5 {
        postfix2(x, x, OpView::Or, 64)
    } else if t == 6 {
        postfix2(x, x, OpView::Xor, 64)
    } else if t == 7 {
        postfix2(x, x, OpView::Nand, 64)
    } else if t == 8 {
        postfix2(x, x, OpView::Nor, 64)
    } else if t == 9 {
        postfix1(x, OpView::Not, 64)
    } else if t == 10 {
        postfix1(x, OpView::Neg, 64)
    } else if t == 11 {
        crate::expression_utils::semantics_ite_spec(x, x, x)
    } else if t == 12 {
        crate::expression_utils::check_if_zero_spec(
            postfix2(
                const_leaf(e, 64),
                postfix2(crate::thwart::key_reg(), const_leaf(0xffff_ffff, 64), OpView::And, 64),
                OpView::Urem,
                64,
            ),
            64,
        )
    } else {
        crate::simplify::simplified(crate::thwart::slice_check(e, 0, 15))
    }
}

/// Positions of the placeholders among the first `n` elements of `s`.
pub open spec fn nt_positions(s: Seq<NodeView>, n: nat) -> Seq<int>
    decreases n,
{
    if n == 0 {
        Seq::empty()
    } else if is_nt_node(s[n - 1]) {
        nt_positions(s, (n - 1) as nat).push(n - 1)
    } else {
        nt_positions(s, (n - 1) as nat)
    }
}

/// `steps` expansion rounds: a draw picks a placeholder, two more draws the template
/// that replaces it; the rounds stop early when no placeholder is left.
pub open spec fn expand(e: Seq<NodeView>, steps: nat, draws: Seq<u64>, c: int) -> (Seq<NodeView>, int)
    decreases steps,
{
    let p = nt_positions(e, e.len());
    if steps == 0 || p.len() == 0 {
        (e, c)
    } else {
        let pick = p[(spec_draw(draws, c, 0) % (p.len() as u64)) as int];
        let t = template(spec_draw(draws, c, 1) % 14, spec_draw(draws, c, 2));
        expand(
            e.subrange(0, pick) + t + e.subrange(pick + 1, e.len() as int),
            (steps - 1) as nat,
            draws,
            spec_advance(c, 3, draws.len() as int),
        )
    }
}

/// Replaces the placeholders at positions `p[t..]` by operands picked by draws.
pub open spec fn fill(e: Seq<NodeView>, p: Seq<int>, t: nat, draws: Seq<u64>, c: int) -> (Seq<NodeView>, int)
    decreases p.len() - t,
{
    if t >= p.len() {
        (e, c)
    } else {
        let q = p[t as int];
        fill(
            e.subrange(0, q) + operand_leaf(spec_draw(draws, c, 0) % 6, 64) + e.subrange(q + 1, e.len() as int),
            p,
            t + 1,
            draws,
            spec_advance(c, 1, draws.len() as int),
        )
    }
}

/// The random expression of [`SemanticsBuilder::gen_expr_with_depth`] and the position
/// of the next unused draw.
pub open spec fn depth_expr(n: nat, draws: Seq<u64>, cursor: int) -> (Seq<NodeView>, int) {
    let e0 = template(spec_draw(draws, cursor, 0) % 14, spec_draw(draws, cursor, 1));
    let x = expand(e0, n, draws, spec_advance(cursor, 2, draws.len() as int));
    fill(x.0, nt_positions(x.0, x.0.len()), 0, draws, x.1)
}

/// The decoy of [`SemanticsBuilder::gen_random_semantics`]: one to three expansion
/// rounds, as the first draw picks.
pub open spec fn random_semantics(draws: Seq<u64>, cursor: int) -> (Seq<NodeView>, int) {
    depth_expr(
        (spec_draw(draws, cursor, 0) % 3 + 1) as nat,
        draws,
        spec_advance(cursor, 1, draws.len() as int),
    )
}

/// The first `n` decoys drawn one after the other, and the next unused draw.
pub open spec fn decoys(draws: Seq<u64>, n: nat) -> (Seq<Seq<NodeView>>, int)
    decreases n,
{
    if n == 0 {
        (Seq::empty(), 0)
    } else {
        let prev = decoys(draws, (n - 1) as nat);
        let next = random_semantics(draws, prev.1);
        (prev.0.push(next.0), next.1)
    }
}

/// Generation of decoy semantics from random draws.
pub struct SemanticsBuilder {}

/// An expression without placeholder registers.
pub open spec fn nt_free(s: Seq<NodeView>) -> bool {
    forall|i: int| 0 <= i < s.len() ==> !is_nt_node(#[trigger] s[i])
}

impl SemanticsBuilder {
    pub fn new() -> SemanticsBuilder {
        SemanticsBuilder {}
    }

    /// The positions of placeholder registers, in order.
    pub fn get_non_terminal_var_indices(expr: &LinearizedExpr) -> (r: Vec<usize>)
        ensures
            forall|t: int| 0 <= t < r@.len() ==> r@[t] < expr@.len() && is_nt_node(expr@[r@[t] as int]),
            forall|t: int, u: int| 0 <= t < u < r@.len() ==> r@[t] < r@[u],
            forall|i: int| 0 <= i < expr@.len() && is_nt_node(#[trigger] expr@[i]) ==> r@.contains(i as usize),
            r@.map_values(|x: usize| x as int) == nt_positions(expr@, expr@.len()),
    {
        let mut r: Vec<usize> = Vec::new();
        let mut i: usize = 0;
        while i < expr.len()
            invariant
                i <= expr@.len(),
                forall|t: int| 0 <= t < r@.len() ==> r@[t] < i && is_nt_node(expr@[r@[t] as int]),
                forall|t: int, u: int| 0 <= t < u < r@.len() ==> r@[t] < r@[u],
                forall|j: int| 0 <= j < i && is_nt_node(#[trigger] expr@[j]) ==> r@.contains(j as usize),
                r@.map_values(|x: usize| x as int) == nt_positions(expr@, i as nat),
            decreases expr@.len() - i,
        {
            let ghost before = r@;
            if expr.0[i].is_non_terminal() {
                r.push(i);
                assert(r@[r@.len() - 1] == i);
                assert(r@.map_values(|x: usize| x as int) =~= before.map_values(|x: usize| x as int).push(i as int));
            }
            proof {
                assert forall|j: int| 0 <= j < i + 1 && is_nt_node(#[trigger] expr@[j]) implies r@.contains(
                    j as usize,
                ) by {
                    if j < i {
                        let w = choose|w: int| 0 <= w < before.len() && before[w] == j as usize;
                        assert(r@[w] == j as usize);
                    } else {
                        assert(r@[r@.len() - 1] == i);
                    }
                }
            }
            i += 1;
        }
        r
    }

    /// An operand picked by a draw: `x`, `y`, `c`, `k`, or the constant 0 or 1.
    pub fn rand_var(size: usize, d: u64) -> (r: LinearizedExpr)
        requires
            size > 0,
        ensures
            well_formed(r@),
            nt_free(r@),
            r@.len() == 1,
            r@ == operand_leaf(d % 6, size),
    {
        proof {
            reveal_strlit("x");
            reveal_strlit("y");
            reveal_strlit("c");
            reveal_strlit("k");
        }
        let r = match d % 6 {
            0 => crate::expression_utils::reg("x", size),
            1 => crate::expression_utils::reg("y", size),
            2 => crate::expression_utils::reg("c", size),
            3 => crate::expression_utils::reg("k", size),
            4 => crate::expression_utils::constant(0, size),
            _ => crate::expression_utils::constant(1, size),
        };
        assert(r@.len() == 1);
        assert("x"@ =~= seq!['x']);
        assert("y"@ =~= seq!['y']);
        assert("c"@ =~= seq!['c']);
        assert("k"@ =~= seq!['k']);
        assert(r@ =~= operand_leaf(d % 6, size));
        assert(!is_nt_node(r@[0])) by {
            if r@[0].op is Reg {
                assert(r@[0].op->Reg_0.len() == 1);
            }
        }
        r
    }

    fn placeholder() -> (x: LinearizedExpr)
        ensures
            x@ == nt_leaf(),
            well_formed(x@),
            crate::expression_utils::binary_operands(x@, x@, 64),
    {
        let x = LinearizedExpr::from_linear_expr(LinearizedExpr::gen_non_terminal(64));
        proof {
            crate::expr::lemma_leaf_wf(x@[0].op, 64);
            assert(x@ == seq![crate::expr::node(x@[0].op, 64)]);
        }
        x
    }

    /// One random operator template over placeholder registers (`d` picks the operator,
    /// `e` the constant of a key check).
    pub fn gen_expr(size: usize, d: u64, e: u64) -> (r: LinearizedExpr)
        requires
            size == 64,
        ensures
            well_formed(r@),
            r@ == template(d % 14, e),
    {
        let nt = || -> (x: LinearizedExpr)
            ensures
                x@ == nt_leaf(),
                well_formed(x@),
                crate::expression_utils::binary_operands(x@, x@, 64),
            { SemanticsBuilder::placeholder() };
        match d % 14 {
            0 => crate::expression_utils::add(nt(), nt(), size),
            1 => crate::expression_utils::sub(nt(), nt(), size),
            2 => crate::expression_utils::mul(nt(), nt(), size),
            3 => crate::expression_utils::shl_plain(nt(), nt(), size),
            4 => crate::expression_utils::and(nt(), nt(), size),
            5 => crate::expression_utils::or(nt(), nt(), size),
            6 => crate::expression_utils::xor(nt(), nt(), size),
            7 => crate::expression_utils::nand(nt(), nt(), size),
            8 => crate::expression_utils::nor(nt(), nt(), size),
            9 => crate::expression_utils::not(nt(), size),
            10 => crate::expression_utils::neg(nt(), size),
            11 => crate::expression_utils::semantics_ite(nt(), nt(), nt()),
            12 => crate::expression_utils::check_if_zero(
                crate::expression_utils::urem(
                    crate::expression_utils::constant(e, size),
                    crate::expression_utils::and(
                        crate::thwart::key_register(),
                        crate::expression_utils::constant(0xffff_ffff, size),
                        size,
                    ),
                    size,
                ),
                64,
            ),
            _ => crate::thwart::key_slice(e, 0, 15),
        }
    }
}

impl SemanticsBuilder {
    /// A random expression: a template, up to `n` placeholders expanded by further
    /// templates, then every placeholder left replaced by a random operand. Draws are
    /// taken from `draws[cursor..]`; returns the position of the next unused draw.
    pub fn gen_expr_with_depth(n: usize, size: usize, draws: &Vec<u64>, cursor: usize) -> (r: (
        LinearizedExpr,
        usize,
    ))
        requires
            size == 64,
            cursor <= draws@.len(),
        ensures
            well_formed(r.0@),
            nt_free(r.0@),
            cursor <= r.1 <= draws@.len(),
            (r.0@, r.1 as int) == depth_expr(n as nat, draws@, cursor as int),
    {
        let mut c = cursor;
        let mut expr = SemanticsBuilder::gen_expr(size, draw_at(draws, c, 0), draw_at(draws, c, 1));
        c = advance(c, 2, draws.len());
        let ghost e0 = expr@;
        let ghost c0 = c as int;
        let mut step: usize = 0;
        let mut done = false;
        while step < n && !done
            invariant
                well_formed(expr@),
                size == 64,
                cursor <= c <= draws@.len(),
                step <= n,
                done ==> nt_positions(expr@, expr@.len()).len() == 0,
                done ==> step < n,
                expand(expr@, (n - step) as nat, draws@, c as int) == expand(e0, n as nat, draws@, c0),
            decreases n - step + if done { 0int } else { 1int },
        {
            let indices = SemanticsBuilder::get_non_terminal_var_indices(&expr);
            assert(indices@.map_values(|x: usize| x as int).len() == indices@.len());
            if indices.len() == 0 {
                done = true;
                continue;
            }
            let k = (draw_at(draws, c, 0) % (indices.len() as u64)) as usize;
            let pick = indices[k];
            let rand_expr = SemanticsBuilder::gen_expr(size, draw_at(draws, c, 1), draw_at(draws, c, 2));
            proof {
                let p = nt_positions(expr@, expr@.len());
                assert(p[k as int] == pick as int);
            }
            c = advance(c, 3, draws.len());
            assert(crate::expr::is_nt_node(expr@[pick as int]));
            expr.splice_leaf(pick, &rand_expr);
            step += 1;
        }
        let indices = SemanticsBuilder::get_non_terminal_var_indices(&expr);
        let ghost e1 = expr@;
        let ghost c1 = c as int;
        assert(expand(e1, (n - step) as nat, draws@, c1) == (e1, c1));
        assert(expand(e0, n as nat, draws@, c0) == (e1, c1));
        let ghost pv = indices@.map_values(|x: usize| x as int);
        let ghost start = expr@;
        let elen = expr.len();
        let mut t: usize = 0;
        while t < indices.len()
            invariant
                t <= indices@.len(),
                expr@.len() == start.len(),
                start.len() == elen,
                well_formed(expr@),
                size == 64,
                cursor <= c <= draws@.len(),
                forall|q: int| 0 <= q < indices@.len() ==> indices@[q] < start.len() && is_nt_node(start[indices@[q] as int]),
                forall|q: int, u: int| 0 <= q < u < indices@.len() ==> indices@[q] < indices@[u],
                forall|i: int| 0 <= i < start.len() && is_nt_node(#[trigger] start[i]) ==> indices@.contains(i as usize),
                forall|i: int|
                    0 <= i < expr@.len() && is_nt_node(#[trigger] expr@[i]) ==> exists|q: int|
                        t <= q < indices@.len() && indices@[q] == i as usize,
                forall|q: int| t <= q < indices@.len() ==> #[trigger] expr@[indices@[q] as int] == start[indices@[q] as int],
                pv == nt_positions(e1, e1.len()),
                pv == indices@.map_values(|x: usize| x as int),
                start == e1,
                fill(expr@, pv, t as nat, draws@, c as int) == fill(e1, pv, 0, draws@, c1),
            decreases indices@.len() - t,
        {
            let pos = indices[t];
            let v = SemanticsBuilder::rand_var(size, draw_at(draws, c, 0));
            assert(pv[t as int] == pos as int);
            c = advance(c, 1, draws.len());
            let ghost before = expr@;
            assert(is_nt_node(start[pos as int]));
            assert(expr@[pos as int] == start[pos as int]);
            expr.splice_leaf(pos, &v);
            proof {
                assert(expr@ =~= before.update(pos as int, v@[0]));
                assert forall|i: int|
                    0 <= i < expr@.len() && is_nt_node(#[trigger] expr@[i]) implies exists|q: int|
                        t + 1 <= q < indices@.len() && indices@[q] == i as usize by {
                    assert(i != pos as int);
                    assert(expr@[i] == before[i]);
                    let q = choose|q: int| t <= q < indices@.len() && indices@[q] == i as usize;
                    assert(indices@[t as int] == pos);
                    assert((i as usize) as int == i);
                    assert(q != t as int);
                }
                assert forall|q: int| t + 1 <= q < indices@.len() implies #[trigger] expr@[indices@[q] as int]
                    == start[indices@[q] as int] by {
                    assert(indices@[q] != pos);
                }
            }
            t += 1;
        }
        (expr, c)
    }
}

impl SemanticsBuilder {
    /// A random expression of one to three expansion rounds.
    pub fn gen_random_semantics(draws: &Vec<u64>, cursor: usize) -> (r: (LinearizedExpr, usize))
        requires
            cursor <= draws@.len(),
        ensures
            well_formed(r.0@),
            nt_free(r.0@),
            cursor <= r.1 <= draws@.len(),
            (r.0@, r.1 as int) == random_semantics(draws@, cursor as int),
    {
        let depth = (draw_at(draws, cursor, 0) % 3 + 1) as usize;
        let c = advance(cursor, 1, draws.len());
        SemanticsBuilder::gen_expr_with_depth(depth, 64, draws, c)
    }

    /// `n` random decoy semantics.
    pub fn gen_semantics(n: usize, draws: &Vec<u64>) -> (r: Vec<LinearizedExpr>)
        ensures
            r@.len() == n,
            forall|i: int| 0 <= i < n ==> well_formed(#[trigger] r@[i]@) && nt_free(r@[i]@),
            r@.map_values(|e: LinearizedExpr| e@) == decoys(draws@, n as nat).0,
    {
        let mut r: Vec<LinearizedExpr> = Vec::new();
        let mut c: usize = 0;
        let mut i: usize = 0;
        while i < n
            invariant
                i <= n,
                r@.len() == i,
                c <= draws@.len(),
                forall|t: int| 0 <= t < i ==> well_formed(#[trigger] r@[t]@) && nt_free(r@[t]@),
                (r@.map_values(|e: LinearizedExpr| e@), c as int) == decoys(draws@, i as nat),
            decreases n - i,
        {
            let (e, next) = SemanticsBuilder::gen_random_semantics(draws, c);
            let ghost before = r@;
            c = next;
            r.push(e);
            assert(r@.map_values(|e: LinearizedExpr| e@) =~= before.map_values(|e: LinearizedExpr| e@).push(e@));
            i += 1;
        }
        r
    }
}

/// Lowering of one element: NAND and NOR become a negated AND and OR, a left shift
/// masks its amount, constants are reduced to their width.
pub open spec fn lower_step(a: Seq<Seq<NodeView>>, e: NodeView) -> Seq<NodeView> {
    let size = e.size;
    match e.op {
        OpView::Const(x) => const_leaf(x, size),
        OpView::Nand => postfix1(postfix2(a[0], a[1], OpView::And, size), OpView::Not, size),
        OpView::Nor => postfix1(postfix2(a[0], a[1], OpView::Or, size), OpView::Not, size),
        OpView::Shl => postfix2(a[0], crate::expression_utils::reduced_shift(a[1], size), OpView::Shl, size),
        _ => crate::evaluator::tree_step(a, e),
    }
}

pub open spec fn lower_builder() -> spec_fn(Seq<Seq<NodeView>>, NodeView) -> Seq<NodeView> {
    |a: Seq<Seq<NodeView>>, e: NodeView| lower_step(a, e)
}

/// Rewriting of handler expressions into the operators the code generator emits.
pub struct ALUPostProcessor {}

impl ALUPostProcessor {
    fn lower_one(args: Vec<LinearizedExpr>, e: &LinearExpr) -> (r: LinearizedExpr)
        requires
            args@.len() == op_arity(e@.op),
        ensures
            r@ == lower_step(exprs_view(args@), e@),
    {
        let ghost a = exprs_view(args@);
        assert(args@.len() >= 1 ==> a[0] == args@[0]@);
        assert(args@.len() >= 2 ==> a[1] == args@[1]@);
        let size = e.size;
        match e.op {
            LinearExprOp::Const(x) => LinearizedExpr::from_linear_expr(
                LinearExpr::new(LinearExprOp::Const(mask_to_size(x, size)), size),
            ),
            LinearExprOp::Nand | LinearExprOp::Nor => {
                let inner = if matches!(e.op, LinearExprOp::Nand) {
                    LinearExprOp::And
                } else {
                    LinearExprOp::Or
                };
                let b = build_op_2(&args[0], &args[1], &LinearExpr::new(inner, size));
                build_op_1(&b, &LinearExpr::new(LinearExprOp::Not, size))
            },
            LinearExprOp::Shl => {
                let bound: u64 = if size == 64 {
                    63
                } else {
                    31
                };
                let c = LinearizedExpr::from_linear_expr(
                    LinearExpr::new(LinearExprOp::Const(mask_to_size(bound, size)), size),
                );
                let amount = build_op_2(&args[1], &c, &LinearExpr::new(LinearExprOp::And, size));
                build_op_2(&args[0], &amount, e)
            },
            _ => crate::evaluator::build_from_args(args, e.clone()),
        }
    }

    /// The expression lowered for code emission.
    pub fn rewrite_expression(expr: &LinearizedExpr) -> (r: LinearizedExpr)
        requires
            well_formed(expr@),
        ensures
            r@ == evaluate(expr@, lower_builder()),
    {
        let ghost step = lower_builder();
        let mut stack: Vec<LinearizedExpr> = Vec::new();
        let n = expr.0.len();
        let mut i: usize = 0;
        assert(exprs_view(stack@) =~= run_stack(expr@, 0, step));
        while i < n
            invariant
                n == expr@.len(),
                i <= n,
                well_formed(expr@),
                step == lower_builder(),
                exprs_view(stack@) == run_stack(expr@, i as nat, step),
            decreases n - i,
        {
            proof {
                lemma_run_stack_len(expr@, i as nat, step);
                let ii = i as int;
                assert(height(expr@, ii as nat) >= op_arity(expr@[ii].op));
            }
            let e = &expr.0[i];
            assert(e@ == expr@[i as int]);
            let k = e.arity();
            let ghost st = exprs_view(stack@);
            let args = pop_args(&mut stack, k);
            let ghost base = exprs_view(stack@);
            assert(exprs_view(args@).len() == args@.len());
            let res = ALUPostProcessor::lower_one(args, e);
            stack.push(res);
            proof {
                assert(exprs_view(stack@) =~= base.push(res@));
                let a = st.subrange(st.len() - op_arity(expr@[i as int].op), st.len() as int);
                assert(step(a, expr@[i as int]) == res@);
            }
            i += 1;
        }
        proof {
            lemma_run_stack_len(expr@, n as nat, step);
        }
        stack.pop().unwrap()
    }

    /// The assignment with its source lowered.
    pub fn rewrite_assignment(assignment: &Assignment) -> (r: Assignment)
        requires
            well_formed(assignment.rhs@),
        ensures
            r.lhs@ == assignment.lhs@,
            r.rhs@ == evaluate(assignment.rhs@, lower_builder()),
            r.size == assignment.size,
    {
        Assignment {
            lhs: assignment.lhs.clone(),
            rhs: ALUPostProcessor::rewrite_expression(&assignment.rhs),
            size: assignment.size,
        }
    }
}

/// A lifted function: its argument names (which fix the register order), its
/// assignments, the assignments the input emulator runs, and its semantics blocks.
pub struct LLVMInputData {
    pub arguments: Vec<String>,
    pub instructions: Vec<Assignment>,
    pub instructions_emulator: Vec<Assignment>,
    pub blocks: Vec<SemanticsBlock>,
}

} // verus!
