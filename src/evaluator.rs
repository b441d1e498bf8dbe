//! The stack machine that evaluates postfix expressions, shared by every interpretation.
use crate::expr::{
    exprs_view, height, postfix1, postfix2, seq_view, lemma_postfix1_wf,
    lemma_postfix2_wf, lemma_postfix3_wf, op_arity, reduces,
    well_formed, LinearExpr, LinearExprOp, LinearizedExpr, NodeView,
};
use vstd::prelude::*;

verus! {

/// The stack after evaluating the first `n` elements of `s`: each element pops as many
/// values as its arity (the first operand deepest) and pushes what `step` makes of them.
pub open spec fn run_stack<D>(s: Seq<NodeView>, n: nat, step: spec_fn(Seq<D>, NodeView) -> D) -> Seq<D>
    decreases n,
{
    if n == 0 {
        Seq::empty()
    } else {
        let st = run_stack(s, (n - 1) as nat, step);
        let base = st.len() - op_arity(s[n - 1].op);
        st.subrange(0, base).push(step(st.subrange(base, st.len() as int), s[n - 1]))
    }
}

/// The value of a whole expression under `step`.
pub open spec fn evaluate<D>(s: Seq<NodeView>, step: spec_fn(Seq<D>, NodeView) -> D) -> D {
    run_stack(s, s.len(), step).last()
}

pub proof fn lemma_run_stack_len<D>(s: Seq<NodeView>, n: nat, step: spec_fn(Seq<D>, NodeView) -> D)
    requires
        reduces(s),
        n <= s.len(),
    ensures
        run_stack(s, n, step).len() == height(s, n),
    decreases n,
{
    if n > 0 {
        lemma_run_stack_len(s, (n - 1) as nat, step);
        assert(height(s, (n - 1) as nat) >= op_arity(s[n - 1].op));
    }
}

pub proof fn lemma_run_stack_prefix<D>(
    a: Seq<NodeView>,
    b: Seq<NodeView>,
    i: nat,
    step: spec_fn(Seq<D>, NodeView) -> D,
)
    requires
        i <= a.len(),
    ensures
        run_stack(a + b, i, step) == run_stack(a, i, step),
    decreases i,
{
    if i > 0 {
        lemma_run_stack_prefix(a, b, (i - 1) as nat, step);
        assert((a + b)[i - 1] == a[i - 1]);
    }
}

/// Evaluating a concatenation whose second part reduces on its own stacks the values of
/// the second part above those of the first.
pub proof fn lemma_run_stack_append<D>(
    a: Seq<NodeView>,
    b: Seq<NodeView>,
    k: nat,
    step: spec_fn(Seq<D>, NodeView) -> D,
)
    requires
        reduces(b),
        k <= b.len(),
    ensures
        run_stack(a + b, a.len() + k, step) == run_stack(a, a.len(), step) + run_stack(b, k, step),
    decreases k,
{
    if k == 0 {
        lemma_run_stack_prefix(a, b, a.len(), step);
        assert(run_stack(a, a.len(), step) + run_stack(b, 0, step) =~= run_stack(a, a.len(), step));
    } else {
        lemma_run_stack_append(a, b, (k - 1) as nat, step);
        lemma_run_stack_len(b, (k - 1) as nat, step);
        assert(height(b, (k - 1) as nat) >= op_arity(b[k - 1].op));
        let n = (a.len() + k) as nat;
        assert((n - 1) as nat == a.len() + (k - 1) as nat);
        assert((a + b)[n - 1] == b[k - 1]);
        let big = run_stack(a + b, (n - 1) as nat, step);
        let left = run_stack(a, a.len(), step);
        let right = run_stack(b, (k - 1) as nat, step);
        let ar = op_arity(b[k - 1].op) as int;
        assert(big == left + right);
        let base = big.len() - ar;
        let rbase = right.len() - ar;
        assert(big.subrange(base, big.len() as int) =~= right.subrange(rbase, right.len() as int));
        assert(big.subrange(0, base).push(step(big.subrange(base, big.len() as int), b[k - 1]))
            =~= left + right.subrange(0, rbase).push(
            step(right.subrange(rbase, right.len() as int), b[k - 1]),
        ));
    }
}

/// A property of values that every step keeps gives the property to every stacked value.
pub proof fn lemma_run_stack_inv<D>(
    s: Seq<NodeView>,
    n: nat,
    step: spec_fn(Seq<D>, NodeView) -> D,
    pre: spec_fn(NodeView) -> bool,
    inv: spec_fn(D) -> bool,
)
    requires
        reduces(s),
        n <= s.len(),
        forall|i: int| 0 <= i < s.len() ==> #[trigger] pre(s[i]),
        forall|args: Seq<D>, e: NodeView|
            pre(e) && args.len() == op_arity(e.op) && (forall|j: int|
                0 <= j < args.len() ==> #[trigger] inv(args[j])) ==> #[trigger] inv(step(args, e)),
    ensures
        forall|j: int|
            0 <= j < run_stack(s, n, step).len() ==> #[trigger] inv(run_stack(s, n, step)[j]),
    decreases n,
{
    if n > 0 {
        lemma_run_stack_inv(s, (n - 1) as nat, step, pre, inv);
        lemma_run_stack_len(s, (n - 1) as nat, step);
        assert(height(s, (n - 1) as nat) >= op_arity(s[n - 1].op));
        let st = run_stack(s, (n - 1) as nat, step);
        let base = st.len() - op_arity(s[n - 1].op);
        let args = st.subrange(base, st.len() as int);
        assert(pre(s[n - 1]));
        assert forall|j: int| 0 <= j < args.len() implies #[trigger] inv(args[j]) by {
            assert(args[j] == st[base + j]);
        }
        assert(inv(step(args, s[n - 1])));
        let r = run_stack(s, n, step);
        assert forall|j: int| 0 <= j < r.len() implies #[trigger] inv(r[j]) by {
            if j < base {
                assert(r[j] == st[j]);
            }
        }
    }
}

/// The concatenation of a sequence of expressions.
pub open spec fn concat_all(args: Seq<Seq<NodeView>>) -> Seq<NodeView>
    decreases args.len(),
{
    if args.len() == 0 {
        Seq::empty()
    } else {
        concat_all(args.drop_last()) + args.last()
    }
}

/// Rebuilds the sub-expression rooted at `e` from its operands.
pub open spec fn tree_step(args: Seq<Seq<NodeView>>, e: NodeView) -> Seq<NodeView> {
    concat_all(args).push(e)
}

/// [`tree_step`] as a function value.
pub open spec fn tree_builder() -> spec_fn(Seq<Seq<NodeView>>, NodeView) -> Seq<NodeView> {
    |a: Seq<Seq<NodeView>>, e: NodeView| tree_step(a, e)
}

/// The operand sub-expressions of the root of `s`.
pub open spec fn args_of(s: Seq<NodeView>) -> Seq<Seq<NodeView>> {
    if s.len() == 0 {
        Seq::empty()
    } else {
        run_stack(s, (s.len() - 1) as nat, tree_builder())
    }
}

pub proof fn lemma_concat_small(args: Seq<Seq<NodeView>>)
    ensures
        args.len() == 0 ==> concat_all(args) == Seq::<NodeView>::empty(),
        args.len() == 1 ==> concat_all(args) == args[0],
        args.len() == 2 ==> concat_all(args) == args[0] + args[1],
        args.len() == 3 ==> concat_all(args) == args[0] + args[1] + args[2],
{
    if 1 <= args.len() <= 3 {
        let a1 = args.drop_last();
        assert(concat_all(args) == concat_all(a1) + args.last());
        if args.len() == 1 {
            assert(concat_all(a1) =~= Seq::<NodeView>::empty());
            assert(concat_all(args) =~= args[0]);
        } else {
            let a2 = a1.drop_last();
            assert(concat_all(a1) == concat_all(a2) + a1.last());
            if args.len() == 2 {
                assert(concat_all(a2) =~= Seq::<NodeView>::empty());
                assert(concat_all(a1) =~= args[0]);
            } else {
                let a3 = a2.drop_last();
                assert(concat_all(a2) == concat_all(a3) + a2.last());
                assert(concat_all(a3) =~= Seq::<NodeView>::empty());
                assert(concat_all(a2) =~= args[0]);
                assert(concat_all(a1) =~= args[0] + args[1]);
            }
        }
    }
}

/// The operands of a well-formed expression are well formed.
pub proof fn lemma_tree_step_wf(args: Seq<Seq<NodeView>>, e: NodeView)
    requires
        args.len() == op_arity(e.op),
        forall|j: int| 0 <= j < args.len() ==> #[trigger] well_formed(args[j]),
    ensures
        well_formed(tree_step(args, e)),
{
    lemma_concat_small(args);
    if args.len() == 0 {
        assert(tree_step(args, e) =~= seq![e]);
        assert(height(seq![e], 0) == 0);
        assert(height(seq![e], 1) == 1);
    } else if args.len() == 1 {
        assert(well_formed(args[0]));
        lemma_postfix1_wf(args[0], e.op, e.size);
    } else if args.len() == 2 {
        assert(well_formed(args[0]));
        assert(well_formed(args[1]));
        lemma_postfix2_wf(args[0], args[1], e.op, e.size);
    } else {
        assert(well_formed(args[0]));
        assert(well_formed(args[1]));
        assert(well_formed(args[2]));
        lemma_postfix3_wf(args[0], args[1], args[2], e.op, e.size);
    }
}

pub proof fn lemma_args_of_wf(s: Seq<NodeView>)
    requires
        well_formed(s),
    ensures
        args_of(s).len() == op_arity(s.last().op),
        forall|j: int| 0 <= j < args_of(s).len() ==> #[trigger] well_formed(args_of(s)[j]),
{
    let step = tree_builder();
    let n = (s.len() - 1) as nat;
    lemma_run_stack_len(s, n, step);
    assert(height(s, s.len()) == height(s, n) - op_arity(s[n as int].op) + 1);
    let pre = |e: NodeView| true;
    let inv = |x: Seq<NodeView>| well_formed(x);
    assert forall|args: Seq<Seq<NodeView>>, e: NodeView|
        pre(e) && args.len() == op_arity(e.op) && (forall|j: int|
            0 <= j < args.len() ==> #[trigger] inv(args[j])) implies #[trigger] inv(
        step(args, e),
    ) by {
        assert forall|j: int| 0 <= j < args.len() implies #[trigger] well_formed(args[j]) by {
            assert(inv(args[j]));
        }
        lemma_tree_step_wf(args, e);
    }
    lemma_run_stack_inv(s, n, step, pre, inv);
    assert forall|j: int| 0 <= j < args_of(s).len() implies #[trigger] well_formed(args_of(s)[j]) by {
        assert(inv(args_of(s)[j]));
    }
}

/// Removes the top `k` values of the stack and returns them, deepest first.
pub fn pop_args(stack: &mut Vec<LinearizedExpr>, k: usize) -> (r: Vec<LinearizedExpr>)
    requires
        k <= 3,
        k <= old(stack)@.len(),
    ensures
        exprs_view(r@) == exprs_view(old(stack)@).subrange(
            old(stack)@.len() - k,
            old(stack)@.len() as int,
        ),
        exprs_view(final(stack)@) == exprs_view(old(stack)@).subrange(
            0,
            old(stack)@.len() - k,
        ),
{
    let ghost all = exprs_view(stack@);
    let ghost n = stack@.len() as int;
    let r = if k == 0 {
        Vec::new()
    } else if k == 1 {
        let x = stack.pop().unwrap();
        vec![x]
    } else if k == 2 {
        let y = stack.pop().unwrap();
        let x = stack.pop().unwrap();
        vec![x, y]
    } else {
        let z = stack.pop().unwrap();
        let y = stack.pop().unwrap();
        let x = stack.pop().unwrap();
        vec![x, y, z]
    };
    assert(stack@ =~= old(stack)@.subrange(0, n - k));
    assert(exprs_view(stack@) =~= all.subrange(0, n - k));
    assert(exprs_view(r@) =~= all.subrange(n - k, n));
    r
}

/// The concatenation of the given expressions followed by `e`.
pub fn build_from_args(args: Vec<LinearizedExpr>, e: LinearExpr) -> (r: LinearizedExpr)
    ensures
        r@ == tree_step(exprs_view(args@), e@),
{
    let ghost all = exprs_view(args@);
    let mut ret = LinearizedExpr::new(Vec::new());
    assert(ret@ =~= concat_all(all.subrange(0, 0)));
    let mut i: usize = 0;
    while i < args.len()
        invariant
            i <= args@.len(),
            all == exprs_view(args@),
            ret@ == concat_all(all.subrange(0, i as int)),
        decreases args@.len() - i,
    {
        proof {
            let t = all.subrange(0, i + 1);
            assert(t.drop_last() =~= all.subrange(0, i as int));
            assert(t.last() == args@[i as int]@);
        }
        ret.extend(args[i].clone());
        i += 1;
    }
    assert(all.subrange(0, all.len() as int) =~= all);
    ret.push(e);
    ret
}

/// The operand sub-expressions of the root of `expr`, first operand first.
pub fn split_into_args(expr: &LinearizedExpr) -> (r: Vec<LinearizedExpr>)
    requires
        reduces(expr@),
    ensures
        exprs_view(r@) == args_of(expr@),
{
    let ghost step = tree_builder();
    let mut stack: Vec<LinearizedExpr> = Vec::new();
    if expr.0.len() == 0 {
        return stack;
    }
    let last = expr.0.len() - 1;
    let mut i: usize = 0;
    assert(exprs_view(stack@) =~= run_stack(expr@, 0, step));
    while i < last
        invariant
            last == expr@.len() - 1,
            i <= last,
            reduces(expr@),
            step == tree_builder(),
            exprs_view(stack@) == run_stack(expr@, i as nat, step),
        decreases last - i,
    {
        proof {
            lemma_run_stack_len(expr@, i as nat, step);
            let ii = i as int;
            assert(height(expr@, ii as nat) >= op_arity(expr@[ii].op));
        }
        let e = &expr.0[i];
        let k = e.arity();
        let ghost st = exprs_view(stack@);
        let args = pop_args(&mut stack, k);
        let ghost base = exprs_view(stack@);
        let res = build_from_args(args, e.clone());
        assert(e@ == expr@[i as int]);
        stack.push(res);
        proof {
            assert(exprs_view(stack@) =~= base.push(res@));
            assert(run_stack(expr@, (i + 1) as nat, step) == st.subrange(
                0,
                st.len() - op_arity(expr@[i as int].op),
            ).push(step(st.subrange(st.len() - op_arity(expr@[i as int].op), st.len() as int), expr@[i as int])));
            let a = st.subrange(st.len() - op_arity(expr@[i as int].op), st.len() as int);
            assert(step(a, expr@[i as int]) == tree_step(a, expr@[i as int]));
            assert(res@ == tree_step(a, expr@[i as int]));
            assert(exprs_view(stack@) == run_stack(expr@, (i + 1) as nat, step));
        }
        i += 1;
    }
    stack
}

/// `x` under the operator `op`.
pub fn build_op_1(x: &LinearizedExpr, op: &LinearExpr) -> (r: LinearizedExpr)
    ensures
        r@ == postfix1(x@, op@.op, op@.size),
{
    LinearizedExpr::new(build_args_op_1(x.to_vec(), op.clone()))
}

/// `x` and `y` under the operator `op`.
pub fn build_op_2(x: &LinearizedExpr, y: &LinearizedExpr, op: &LinearExpr) -> (r: LinearizedExpr)
    ensures
        r@ == postfix2(x@, y@, op@.op, op@.size),
{
    LinearizedExpr::new(build_args_op_2(x.to_vec(), y.to_vec(), op.clone()))
}

pub fn build_args_op_1(x: Vec<LinearExpr>, expr: LinearExpr) -> (r: Vec<LinearExpr>)
    ensures
        seq_view(r@) == seq_view(x@).push(expr@),
{
    let mut ret = x;
    ret.push(expr);
    assert(seq_view(ret@) =~= seq_view(x@).push(expr@));
    ret
}

pub fn build_args_op_2(x: Vec<LinearExpr>, y: Vec<LinearExpr>, expr: LinearExpr) -> (r: Vec<
    LinearExpr,
>)
    ensures
        seq_view(r@) == (seq_view(x@) + seq_view(y@)).push(expr@),
{
    let ghost old_y = y@;
    let mut ret = x;
    let mut y = y;
    ret.append(&mut y);
    ret.push(expr);
    assert(seq_view(ret@) =~= (seq_view(x@) + seq_view(old_y)).push(expr@));
    ret
}

pub fn build_args_op_3(
    x: Vec<LinearExpr>,
    y: Vec<LinearExpr>,
    z: Vec<LinearExpr>,
    expr: LinearExpr,
) -> (r: Vec<LinearExpr>)
    ensures
        seq_view(r@) == (seq_view(x@) + seq_view(y@) + seq_view(z@)).push(expr@),
{
    let ghost vy = y@;
    let ghost vz = z@;
    let mut ret = x;
    let mut y = y;
    let mut z = z;
    ret.append(&mut y);
    ret.append(&mut z);
    ret.push(expr);
    assert(seq_view(ret@) =~= (seq_view(x@) + seq_view(vy) + seq_view(vz)).push(expr@));
    ret
}

/// The concatenation of all operand sequences followed by `expr`.
pub fn build_args_op_n(v: Vec<Vec<LinearExpr>>, expr: LinearExpr) -> (r: Vec<LinearExpr>)
    ensures
        seq_view(r@) == concat_all(v@.map_values(|a: Vec<LinearExpr>| seq_view(a@))).push(expr@),
{
    let ghost all = v@.map_values(|a: Vec<LinearExpr>| seq_view(a@));
    let mut res: Vec<LinearExpr> = Vec::new();
    let mut i: usize = 0;
    assert(seq_view(res@) =~= concat_all(all.subrange(0, 0)));
    while i < v.len()
        invariant
            i <= v@.len(),
            all == v@.map_values(|a: Vec<LinearExpr>| seq_view(a@)),
            seq_view(res@) == concat_all(all.subrange(0, i as int)),
        decreases v@.len() - i,
    {
        let ghost before = res@;
        let mut part = v[i].clone();
        let ghost pv = part@;
        res.append(&mut part);
        proof {
            let t = all.subrange(0, i + 1);
            assert(t.drop_last() =~= all.subrange(0, i as int));
            assert(t.last() == seq_view(v@[i as int]@));
            assert(seq_view(res@) =~= seq_view(before) + seq_view(pv));
        }
        i += 1;
    }
    assert(all.subrange(0, v@.len() as int) =~= all);
    let ghost before = res@;
    res.push(expr);
    assert(seq_view(res@) =~= seq_view(before).push(expr@));
    res
}

/// Rebuilding step that puts `repl` in place of every sub-expression equal to `sub`.
pub open spec fn replace_builder(sub: Seq<NodeView>, repl: Seq<NodeView>) -> spec_fn(
    Seq<Seq<NodeView>>,
    NodeView,
) -> Seq<NodeView> {
    |a: Seq<Seq<NodeView>>, e: NodeView|
        if tree_step(a, e) == sub {
            repl
        } else {
            tree_step(a, e)
        }
}

/// `s` with every sub-expression equal to `sub` replaced by `repl`, bottom-up.
pub open spec fn replaced(s: Seq<NodeView>, sub: Seq<NodeView>, repl: Seq<NodeView>) -> Seq<
    NodeView,
> {
    evaluate(s, replace_builder(sub, repl))
}

/// Whole-subtree substitution.
pub struct ExprReplacer {}

impl ExprReplacer {
    /// Replaces every sub-expression of `expr` equal to `sub_expr` by `repl`.
    pub fn replace(expr: LinearizedExpr, sub_expr: &LinearizedExpr, repl: &LinearizedExpr) -> (r:
        LinearizedExpr)
        requires
            well_formed(expr@),
        ensures
            r@ == replaced(expr@, sub_expr@, repl@),
    {
        let ghost step = replace_builder(sub_expr@, repl@);
        let mut stack: Vec<LinearizedExpr> = Vec::new();
        let n = expr.0.len();
        let mut i: usize = 0;
        assert(exprs_view(stack@) =~= run_stack(expr@, 0, step));
        while i < n
            invariant
                n == expr@.len(),
                i <= n,
                well_formed(expr@),
                step == replace_builder(sub_expr@, repl@),
                exprs_view(stack@) == run_stack(expr@, i as nat, step),
            decreases n - i,
        {
            proof {
                lemma_run_stack_len(expr@, i as nat, step);
                let ii = i as int;
                assert(height(expr@, ii as nat) >= op_arity(expr@[ii].op));
            }
            let e = &expr.0[i];
            assert(e@ == expr@[i as int]);
            let k = e.arity();
            let ghost st = exprs_view(stack@);
            let args = pop_args(&mut stack, k);
            let ghost base = exprs_view(stack@);
            let t = build_from_args(args, e.clone());
            let res = if t.same_as(sub_expr) {
                repl.clone()
            } else {
                t
            };
            stack.push(res);
            proof {
                assert(exprs_view(stack@) =~= base.push(res@));
                let a = st.subrange(st.len() - op_arity(expr@[i as int].op), st.len() as int);
                assert(step(a, expr@[i as int]) == res@);
                assert(exprs_view(stack@) == run_stack(expr@, (i + 1) as nat, step));
            }
            i += 1;
        }
        proof {
            lemma_run_stack_len(expr@, n as nat, step);
        }
        stack.pop().unwrap()
    }
}

impl LinearizedExpr {
    /// Replaces every occurrence of the sub-expression `sub_expr` by `replacement`.
    pub fn replace_subexpr(&mut self, sub_expr: &LinearizedExpr, replacement: &LinearizedExpr)
        requires
            well_formed(old(self)@),
        ensures
            final(self)@ == replaced(old(self)@, sub_expr@, replacement@),
    {
        let e = self.clone();
        *self = ExprReplacer::replace(e, sub_expr, replacement);
    }
}

/// Replacing sub-expressions by a value with a property that rebuilt expressions keep
/// gives a value with that property.
pub proof fn lemma_replaced_inv(
    s: Seq<NodeView>,
    sub: Seq<NodeView>,
    repl: Seq<NodeView>,
    pre: spec_fn(NodeView) -> bool,
    inv: spec_fn(Seq<NodeView>) -> bool,
)
    requires
        well_formed(s),
        inv(repl),
        forall|i: int| 0 <= i < s.len() ==> #[trigger] pre(s[i]),
        forall|args: Seq<Seq<NodeView>>, e: NodeView|
            pre(e) && args.len() == op_arity(e.op) && (forall|j: int|
                0 <= j < args.len() ==> #[trigger] inv(args[j])) ==> #[trigger] inv(
                tree_step(args, e),
            ),
    ensures
        inv(replaced(s, sub, repl)),
{
    let step = replace_builder(sub, repl);
    assert forall|args: Seq<Seq<NodeView>>, e: NodeView|
        pre(e) && args.len() == op_arity(e.op) && (forall|j: int|
            0 <= j < args.len() ==> #[trigger] inv(args[j])) implies #[trigger] inv(
        step(args, e),
    ) by {
        assert(inv(tree_step(args, e)));
    }
    lemma_run_stack_inv(s, s.len(), step, pre, inv);
    lemma_run_stack_len(s, s.len(), step);
    assert(inv(run_stack(s, s.len(), step)[0]));
}

/// Largest of a sequence of depths (0 when empty).
pub open spec fn max_of(a: Seq<nat>) -> nat
    decreases a.len(),
{
    if a.len() == 0 {
        0
    } else {
        let m = max_of(a.drop_last());
        if a.last() > m {
            a.last()
        } else {
            m
        }
    }
}

/// Depth of the tree rooted at `e`: leaves count one, placeholders zero.
pub open spec fn depth_step(a: Seq<nat>, e: NodeView) -> nat {
    if a.len() > 0 {
        max_of(a) + 1
    } else if e.op is E {
        0
    } else {
        1
    }
}

pub open spec fn depth_builder() -> spec_fn(Seq<nat>, NodeView) -> nat {
    |a: Seq<nat>, e: NodeView| depth_step(a, e)
}

/// Sum of a sequence of lengths.
pub open spec fn sum_of(a: Seq<nat>) -> nat
    decreases a.len(),
{
    if a.len() == 0 {
        0
    } else {
        sum_of(a.drop_last()) + a.last()
    }
}

/// Length of the sub-expression rooted at `e`.
pub open spec fn size_step(a: Seq<nat>, e: NodeView) -> nat {
    sum_of(a) + 1
}

pub open spec fn size_builder() -> spec_fn(Seq<nat>, NodeView) -> nat {
    |a: Seq<nat>, e: NodeView| size_step(a, e)
}

/// Length of the sub-expression that ends at position `i`.
pub open spec fn subtree_len(s: Seq<NodeView>, i: int) -> nat {
    run_stack(s, (i + 1) as nat, size_builder()).last()
}

pub open spec fn nat_view(v: Seq<usize>) -> Seq<nat> {
    v.map_values(|x: usize| x as nat)
}

proof fn lemma_sum_split(a: Seq<nat>, k: int)
    requires
        0 <= k <= a.len(),
    ensures
        sum_of(a) == sum_of(a.subrange(0, k)) + sum_of(a.subrange(k, a.len() as int)),
    decreases a.len(),
{
    if k < a.len() {
        lemma_sum_split(a.drop_last(), k);
        assert(a.drop_last().subrange(0, k) =~= a.subrange(0, k));
        assert(a.subrange(k, a.len() as int).drop_last() =~= a.drop_last().subrange(k, a.drop_last().len() as int));
    } else {
        assert(a.subrange(0, k) =~= a);
        assert(a.subrange(k, a.len() as int) =~= Seq::<nat>::empty());
    }
}

proof fn lemma_sum_bound(a: Seq<nat>, j: int)
    requires
        0 <= j < a.len(),
    ensures
        a[j] <= sum_of(a),
    decreases a.len(),
{
    if j < a.len() - 1 {
        lemma_sum_bound(a.drop_last(), j);
    }
}

fn pop_nats(stack: &mut Vec<usize>, k: usize) -> (r: Vec<usize>)
    requires
        k <= 3,
        k <= old(stack)@.len(),
    ensures
        nat_view(r@) == nat_view(old(stack)@).subrange(old(stack)@.len() - k, old(stack)@.len() as int),
        nat_view(final(stack)@) == nat_view(old(stack)@).subrange(0, old(stack)@.len() - k),
{
    let ghost all = nat_view(stack@);
    let ghost n = stack@.len() as int;
    let r = if k == 0 {
        Vec::new()
    } else if k == 1 {
        let x = stack.pop().unwrap();
        vec![x]
    } else if k == 2 {
        let y = stack.pop().unwrap();
        let x = stack.pop().unwrap();
        vec![x, y]
    } else {
        let z = stack.pop().unwrap();
        let y = stack.pop().unwrap();
        let x = stack.pop().unwrap();
        vec![x, y, z]
    };
    assert(stack@ =~= old(stack)@.subrange(0, n - k));
    assert(nat_view(stack@) =~= all.subrange(0, n - k));
    assert(nat_view(r@) =~= all.subrange(n - k, n));
    r
}

impl LinearizedExpr {
    /// Depth of the expression tree.
    pub fn depth(&self) -> (r: usize)
        requires
            well_formed(self@),
        ensures
            r as nat == evaluate(self@, depth_builder()),
    {
        let ghost step = depth_builder();
        let mut stack: Vec<usize> = Vec::new();
        let n = self.0.len();
        let mut i: usize = 0;
        assert(nat_view(stack@) =~= run_stack(self@, 0, step));
        while i < n
            invariant
                n == self@.len(),
                i <= n,
                well_formed(self@),
                step == depth_builder(),
                nat_view(stack@) == run_stack(self@, i as nat, step),
                forall|j: int| 0 <= j < stack@.len() ==> #[trigger] stack@[j] <= i,
            decreases n - i,
        {
            proof {
                lemma_run_stack_len(self@, i as nat, step);
                let ii = i as int;
                assert(height(self@, ii as nat) >= op_arity(self@[ii].op));
            }
            let e = &self.0[i];
            assert(e@ == self@[i as int]);
            let k = e.arity();
            let ghost st = nat_view(stack@);
            let ghost old_stack = stack@;
            let args = pop_nats(&mut stack, k);
            let ghost base = nat_view(stack@);
            let ghost a = nat_view(args@);
            proof {
                assert(nat_view(stack@).len() == stack@.len());
                assert(st.len() == old_stack.len());
                assert(nat_view(args@).len() == args@.len());
                assert(stack@.len() + k == old_stack.len());
                assert forall|j: int| 0 <= j < stack@.len() implies #[trigger] stack@[j] <= i by {
                    assert(nat_view(stack@)[j] == stack@[j] as nat);
                    assert(st[j] == old_stack[j] as nat);
                }
                assert forall|t: int| 0 <= t < args@.len() implies #[trigger] args@[t] <= i by {
                    assert(a[t] == args@[t] as nat);
                    assert(st[st.len() - k + t] == old_stack[st.len() - k + t] as nat);
                }
            }
            let res: usize = if k == 0 {
                if matches!(e.op, LinearExprOp::E) {
                    0
                } else {
                    1
                }
            } else {
                let mut m: usize = 0;
                let mut j: usize = 0;
                assert(a.subrange(0, 0) =~= Seq::<nat>::empty());
                while j < args.len()
                    invariant
                        j <= args@.len(),
                        a == nat_view(args@),
                        m as nat == max_of(a.subrange(0, j as int)),
                        m <= i,
                        forall|t: int| 0 <= t < args@.len() ==> #[trigger] args@[t] <= i,
                    decreases args@.len() - j,
                {
                    proof {
                        assert(a.subrange(0, j + 1).drop_last() =~= a.subrange(0, j as int));
                    }
                    if args[j] > m {
                        m = args[j];
                    }
                    j += 1;
                }
                assert(a.subrange(0, args@.len() as int) =~= a);
                m + 1
            };
            stack.push(res);
            proof {
                assert(nat_view(stack@) =~= base.push(res as nat));
                let aa = st.subrange(st.len() - op_arity(self@[i as int].op), st.len() as int);
                assert(aa == a);
                assert(step(aa, self@[i as int]) == res as nat);
            }
            i += 1;
        }
        proof {
            lemma_run_stack_len(self@, n as nat, step);
        }
        stack.pop().unwrap()
    }

    /// For each position, the length of the sub-expression that ends there.
    pub fn get_sizes(&self) -> (r: Vec<usize>)
        requires
            reduces(self@),
        ensures
            r@.len() == self@.len(),
            forall|i: int| 0 <= i < self@.len() ==> #[trigger] r@[i] as nat == subtree_len(self@, i),
    {
        let ghost step = size_builder();
        let mut stack: Vec<usize> = Vec::new();
        let mut ret: Vec<usize> = Vec::new();
        let n = self.0.len();
        let mut i: usize = 0;
        assert(nat_view(stack@) =~= run_stack(self@, 0, step));
        while i < n
            invariant
                n == self@.len(),
                i <= n,
                reduces(self@),
                step == size_builder(),
                nat_view(stack@) == run_stack(self@, i as nat, step),
                sum_of(nat_view(stack@)) == i,
                ret@.len() == i,
                forall|j: int| 0 <= j < i ==> #[trigger] ret@[j] as nat == subtree_len(self@, j),
            decreases n - i,
        {
            proof {
                lemma_run_stack_len(self@, i as nat, step);
                let ii = i as int;
                assert(height(self@, ii as nat) >= op_arity(self@[ii].op));
            }
            let e = &self.0[i];
            assert(e@ == self@[i as int]);
            let k = e.arity();
            let ghost st = nat_view(stack@);
            let args = pop_nats(&mut stack, k);
            let ghost base = nat_view(stack@);
            let ghost a = nat_view(args@);
            proof {
                lemma_sum_split(st, st.len() - k);
            }
            let mut total: usize = 0;
            let mut j: usize = 0;
            assert(a.subrange(0, 0) =~= Seq::<nat>::empty());
            while j < args.len()
                invariant
                    j <= args@.len(),
                    a == nat_view(args@),
                    total as nat == sum_of(a.subrange(0, j as int)),
                    sum_of(a) <= i,
                decreases args@.len() - j,
            {
                proof {
                    assert(a.subrange(0, j + 1).drop_last() =~= a.subrange(0, j as int));
                    lemma_sum_split(a, j + 1);
                }
                total = total + args[j];
                j += 1;
            }
            assert(a.subrange(0, args@.len() as int) =~= a);
            let res = total + 1;
            stack.push(res);
            ret.push(res);
            proof {
                assert(nat_view(stack@) =~= base.push(res as nat));
                let aa = st.subrange(st.len() - op_arity(self@[i as int].op), st.len() as int);
                assert(aa == a);
                assert(step(aa, self@[i as int]) == res as nat);
                assert(nat_view(stack@).drop_last() =~= base);
                assert(subtree_len(self@, i as int) == res as nat);
            }
            i += 1;
        }
        ret
    }
}

} // verus!
