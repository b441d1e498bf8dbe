//! Symbolic state and evaluation of assignments: registers bound to expressions, each
//! source evaluated under the bindings and simplified.
use crate::assignment::Assignment;
use crate::evaluator::{evaluate, lemma_run_stack_inv, lemma_run_stack_len, pop_args, run_stack, tree_step};
use crate::expr::{width, OpView};
use crate::expr::{
    exprs_view, height, is_nt_node, op_arity, well_formed, LinearExpr, LinearExprOp, LinearizedExpr,
    NodeView,
};
use crate::simplify::{good, good_node, lemma_tree_step_good, simplified};
use vstd::prelude::*;
use vstd::string::StringExecFns;

verus! {

/// Bindings as pairs of models.
pub open spec fn bindings_view(v: Seq<(LinearizedExpr, LinearizedExpr)>) -> Seq<(Seq<NodeView>, Seq<NodeView>)> {
    v.map_values(|p: (LinearizedExpr, LinearizedExpr)| (p.0@, p.1@))
}

/// The value bound to `k`: the last binding of `k`, if any.
pub open spec fn lookup(b: Seq<(Seq<NodeView>, Seq<NodeView>)>, k: Seq<NodeView>) -> Option<Seq<NodeView>>
    decreases b.len(),
{
    if b.len() == 0 {
        None
    } else if b.last().0 == k {
        Some(b.last().1)
    } else {
        lookup(b.drop_last(), k)
    }
}

/// A register leaf that evaluation replaces by its binding.
pub open spec fn bound_leaf(e: NodeView) -> bool {
    e.op is Reg && !is_nt_node(e)
}


/// Rebuilds `e` over its operands, putting the bound value in place of a register.
pub open spec fn subst_step(b: Seq<(Seq<NodeView>, Seq<NodeView>)>, a: Seq<Seq<NodeView>>, e: NodeView) -> Seq<NodeView> {
    if bound_leaf(e) && lookup(b, seq![e]) is Some {
        lookup(b, seq![e])->Some_0
    } else {
        tree_step(a, e)
    }
}

pub open spec fn subst_builder(b: Seq<(Seq<NodeView>, Seq<NodeView>)>) -> spec_fn(Seq<Seq<NodeView>>, NodeView) -> Seq<NodeView> {
    |a: Seq<Seq<NodeView>>, e: NodeView| subst_step(b, a, e)
}

/// `s` with every bound register replaced by its value at once.
pub open spec fn substituted(b: Seq<(Seq<NodeView>, Seq<NodeView>)>, s: Seq<NodeView>) -> Seq<NodeView> {
    evaluate(s, subst_builder(b))
}


/// Every bound value is good for simplification.
pub open spec fn good_values(b: Seq<(Seq<NodeView>, Seq<NodeView>)>) -> bool {
    forall|i: int| 0 <= i < b.len() ==> good(#[trigger] b[i].1, false)
}

proof fn lemma_lookup_good(b: Seq<(Seq<NodeView>, Seq<NodeView>)>, k: Seq<NodeView>)
    requires
        good_values(b),
    ensures
        lookup(b, k) matches Some(v) ==> good(v, false),
    decreases b.len(),
{
    if b.len() > 0 {
        assert(good(b[b.len() - 1].1, false));
        let d = b.drop_last();
        assert forall|i: int| 0 <= i < d.len() implies good(#[trigger] d[i].1, false) by {
            assert(d[i] == b[i]);
        }
        lemma_lookup_good(d, k);
    }
}

proof fn lemma_substituted_good(b: Seq<(Seq<NodeView>, Seq<NodeView>)>, s: Seq<NodeView>)
    requires
        good(s, false),
        good_values(b),
    ensures
        good(substituted(b, s), false),
{
    let step = subst_builder(b);
    let pre = |e: NodeView| good_node(e, false);
    let inv = |x: Seq<NodeView>| good(x, false);
    assert forall|args: Seq<Seq<NodeView>>, e: NodeView|
        pre(e) && args.len() == op_arity(e.op) && (forall|j: int|
            0 <= j < args.len() ==> #[trigger] inv(args[j])) implies #[trigger] inv(step(args, e)) by {
        lemma_lookup_good(b, seq![e]);
        assert forall|j: int| 0 <= j < args.len() implies #[trigger] good(args[j], false) by {
            assert(inv(args[j]));
        }
        lemma_tree_step_good(args, e, false);
    }
    assert forall|i: int| 0 <= i < s.len() implies #[trigger] pre(s[i]) by {
        assert(good_node(s[i], false));
    }
    lemma_run_stack_inv(s, s.len(), step, pre, inv);
    lemma_run_stack_len(s, s.len(), step);
    assert(inv(run_stack(s, s.len(), step)[0]));
}

/// Byte `i` of a memory load from `addr`: the value bound to the address (for `i > 0`,
/// to the simplified address `addr + i`).
pub open spec fn byte_at(mem: Seq<(Seq<NodeView>, Seq<NodeView>)>, addr: Seq<NodeView>, i: nat) -> Option<Seq<NodeView>> {
    if i == 0 {
        lookup(mem, addr)
    } else {
        let k = crate::expr::postfix2(
            addr,
            crate::expression_utils::const_leaf(i as u64, width(addr)),
            OpView::Add,
            width(addr),
        );
        if good(k, false) {
            lookup(mem, simplified(k))
        } else {
            None
        }
    }
}

/// A load of `n` bytes (at least one) from `addr`: the bound bytes joined with the lowest
/// address least significant.
pub open spec fn load_bytes(mem: Seq<(Seq<NodeView>, Seq<NodeView>)>, addr: Seq<NodeView>, n: nat) -> Option<Seq<NodeView>>
    decreases n,
{
    if n <= 1 {
        byte_at(mem, addr, 0)
    } else {
        match (load_bytes(mem, addr, (n - 1) as nat), byte_at(mem, addr, (n - 1) as nat)) {
            (Some(v), Some(b)) => if b.len() > 0 && v.len() > 0 && width(b) + width(v) <= usize::MAX {
                Some(crate::expr::postfix2(b, v, OpView::Concat, (width(b) + width(v)) as usize))
            } else {
                None
            },
            _ => None,
        }
    }
}

/// Rebuilds `e` over its operands, replacing a memory dereference whose bytes are all bound
/// by their joined value.
pub open spec fn load_step(mem: Seq<(Seq<NodeView>, Seq<NodeView>)>, a: Seq<Seq<NodeView>>, e: NodeView) -> Seq<NodeView> {
    if e.op is Mem && a.len() == 1 && load_bytes(mem, a[0], (e.size / 8) as nat) is Some {
        load_bytes(mem, a[0], (e.size / 8) as nat)->Some_0
    } else {
        tree_step(a, e)
    }
}

pub open spec fn load_builder(mem: Seq<(Seq<NodeView>, Seq<NodeView>)>) -> spec_fn(Seq<Seq<NodeView>>, NodeView) -> Seq<NodeView> {
    |a: Seq<Seq<NodeView>>, e: NodeView| load_step(mem, a, e)
}

/// `s` with its memory loads resolved against the bindings `mem`.
pub open spec fn loads_resolved(mem: Seq<(Seq<NodeView>, Seq<NodeView>)>, s: Seq<NodeView>) -> Seq<NodeView> {
    evaluate(s, load_builder(mem))
}

/// The value of `s` under register bindings `b` and memory bindings `mem`: registers
/// substituted and the result simplified, then loads resolved and simplified again.
pub open spec fn evaluated_with_memory(
    b: Seq<(Seq<NodeView>, Seq<NodeView>)>,
    mem: Seq<(Seq<NodeView>, Seq<NodeView>)>,
    s: Seq<NodeView>,
) -> Seq<NodeView> {
    simplified(loads_resolved(mem, simplified(substituted(b, s))))
}

proof fn lemma_load_bytes_good(mem: Seq<(Seq<NodeView>, Seq<NodeView>)>, addr: Seq<NodeView>, n: nat)
    requires
        good_values(mem),
    ensures
        load_bytes(mem, addr, n) matches Some(v) ==> good(v, false),
    decreases n,
{
    if n <= 1 {
        lemma_lookup_good(mem, addr);
    } else {
        lemma_load_bytes_good(mem, addr, (n - 1) as nat);
        let i = (n - 1) as nat;
        let k = crate::expr::postfix2(addr, crate::expression_utils::const_leaf(i as u64, width(addr)), OpView::Add, width(addr));
        lemma_lookup_good(mem, simplified(k));
        match (load_bytes(mem, addr, (n - 1) as nat), byte_at(mem, addr, i)) {
            (Some(v), Some(b)) => {
                if b.len() > 0 && v.len() > 0 && width(b) + width(v) <= usize::MAX {
                    crate::simplify::lemma_good_postfix2(b, v, OpView::Concat, (width(b) + width(v)) as usize, false);
                }
            },
            _ => {},
        }
    }
}

proof fn lemma_load_none(mem: Seq<(Seq<NodeView>, Seq<NodeView>)>, addr: Seq<NodeView>, i: nat, n: nat)
    requires
        1 <= i <= n,
        load_bytes(mem, addr, i) is None,
    ensures
        load_bytes(mem, addr, n) is None,
    decreases n - i,
{
    if i < n {
        lemma_load_none(mem, addr, i, (n - 1) as nat);
    }
}

/// Every value on the stack of load resolution is good.
proof fn lemma_resolved_inv(mem: Seq<(Seq<NodeView>, Seq<NodeView>)>, s: Seq<NodeView>, n: nat)
    requires
        good(s, false),
        good_values(mem),
        n <= s.len(),
    ensures
        forall|j: int|
            0 <= j < run_stack(s, n, load_builder(mem)).len() ==> #[trigger] good(
                run_stack(s, n, load_builder(mem))[j],
                false,
            ),
{
    let step = load_builder(mem);
    let pre = |e: NodeView| good_node(e, false);
    let inv = |x: Seq<NodeView>| good(x, false);
    assert forall|args: Seq<Seq<NodeView>>, e: NodeView|
        pre(e) && args.len() == op_arity(e.op) && (forall|j: int|
            0 <= j < args.len() ==> #[trigger] inv(args[j])) implies #[trigger] inv(step(args, e)) by {
        assert forall|j: int| 0 <= j < args.len() implies #[trigger] good(args[j], false) by {
            assert(inv(args[j]));
        }
        lemma_tree_step_good(args, e, false);
        if args.len() == 1 {
            lemma_load_bytes_good(mem, args[0], (e.size / 8) as nat);
        }
    }
    assert forall|i: int| 0 <= i < s.len() implies #[trigger] pre(s[i]) by {
        assert(good_node(s[i], false));
    }
    lemma_run_stack_inv(s, n, step, pre, inv);
    assert forall|j: int|
        0 <= j < run_stack(s, n, step).len() implies #[trigger] good(run_stack(s, n, step)[j], false) by {
        assert(inv(run_stack(s, n, step)[j]));
    }
}

proof fn lemma_resolved_good(mem: Seq<(Seq<NodeView>, Seq<NodeView>)>, s: Seq<NodeView>)
    requires
        good(s, false),
        good_values(mem),
    ensures
        good(loads_resolved(mem, s), false),
{
    let step = load_builder(mem);
    let pre = |e: NodeView| good_node(e, false);
    let inv = |x: Seq<NodeView>| good(x, false);
    assert forall|args: Seq<Seq<NodeView>>, e: NodeView|
        pre(e) && args.len() == op_arity(e.op) && (forall|j: int|
            0 <= j < args.len() ==> #[trigger] inv(args[j])) implies #[trigger] inv(step(args, e)) by {
        assert forall|j: int| 0 <= j < args.len() implies #[trigger] good(args[j], false) by {
            assert(inv(args[j]));
        }
        lemma_tree_step_good(args, e, false);
        if args.len() == 1 {
            lemma_load_bytes_good(mem, args[0], (e.size / 8) as nat);
        }
    }
    assert forall|i: int| 0 <= i < s.len() implies #[trigger] pre(s[i]) by {
        assert(good_node(s[i], false));
    }
    lemma_run_stack_inv(s, s.len(), step, pre, inv);
    lemma_run_stack_len(s, s.len(), step);
    assert(inv(run_stack(s, s.len(), step)[0]));
}

/// The value bound to `k` among `v`, if any.
fn lookup_exec(v: &Vec<(LinearizedExpr, LinearizedExpr)>, k: &LinearizedExpr) -> (r: Option<LinearizedExpr>)
    ensures
        r matches Some(x) ==> lookup(bindings_view(v@), k@) == Some(x@),
        r is None ==> lookup(bindings_view(v@), k@) is None,
{
    let ghost b = bindings_view(v@);
    let mut i: usize = v.len();
    assert(b.subrange(0, i as int) =~= b);
    while i > 0
        invariant
            i <= v@.len(),
            b == bindings_view(v@),
            lookup(b, k@) == lookup(b.subrange(0, i as int), k@),
        decreases i,
    {
        let ghost pre = b.subrange(0, i as int);
        assert(pre.drop_last() =~= b.subrange(0, i - 1));
        assert(pre.last() == (v@[i - 1].0@, v@[i - 1].1@));
        if v[i - 1].0.same_as(k) {
            return Some(v[i - 1].1.clone());
        }
        i -= 1;
    }
    None
}

/// Register bindings and byte-addressed memory of a symbolic execution.
pub struct SymbolicState {
    pub variables: Vec<(LinearizedExpr, LinearizedExpr)>,
    pub memory: Vec<(LinearizedExpr, LinearizedExpr)>,
}

impl SymbolicState {
    /// Every symbol bound to itself.
    pub fn new(symbols: Vec<LinearExpr>) -> (r: SymbolicState)
        ensures
            bindings_view(r.variables@) == symbols@.map_values(|e: LinearExpr| (seq![e@], seq![e@])),
            r.memory@.len() == 0,
    {
        let mut variables: Vec<(LinearizedExpr, LinearizedExpr)> = Vec::new();
        let mut i: usize = 0;
        while i < symbols.len()
            invariant
                i <= symbols@.len(),
                bindings_view(variables@) == symbols@.subrange(0, i as int).map_values(
                    |e: LinearExpr| (seq![e@], seq![e@]),
                ),
            decreases symbols@.len() - i,
        {
            let k = LinearizedExpr::from_linear_expr(symbols[i].clone());
            let v = LinearizedExpr::from_linear_expr(symbols[i].clone());
            let ghost before = variables@;
            variables.push((k, v));
            proof {
                assert(bindings_view(variables@) =~= bindings_view(before).push((k@, v@)));
                assert(symbols@.subrange(0, i + 1) =~= symbols@.subrange(0, i as int).push(symbols@[i as int]));
            }
            i += 1;
            assert(bindings_view(variables@) =~= symbols@.subrange(0, i as int).map_values(
                |e: LinearExpr| (seq![e@], seq![e@]),
            ));
        }
        assert(symbols@.subrange(0, symbols@.len() as int) =~= symbols@);
        SymbolicState { variables, memory: Vec::new() }
    }

    /// Forgets every binding.
    pub fn reset(&mut self)
        ensures
            final(self).variables@.len() == 0,
            final(self).memory@.len() == 0,
    {
        self.variables = Vec::new();
        self.memory = Vec::new();
    }

    /// Binds `k` to `v`, replacing an earlier binding.
    pub fn set_var(&mut self, k: &LinearizedExpr, v: LinearizedExpr)
        ensures
            bindings_view(final(self).variables@) == bindings_view(old(self).variables@).push((k@, v@)),
            final(self).memory == old(self).memory,
    {
        let ghost before = self.variables@;
        self.variables.push((k.clone(), v));
        assert(bindings_view(self.variables@) =~= bindings_view(before).push((k@, v@)));
    }

    /// The value bound to `k`, if any.
    pub fn get_var(&self, k: &LinearizedExpr) -> (r: Option<LinearizedExpr>)
        ensures
            r matches Some(v) ==> lookup(bindings_view(self.variables@), k@) == Some(v@),
            r is None ==> lookup(bindings_view(self.variables@), k@) is None,
    {
        let ghost b = bindings_view(self.variables@);
        let mut i: usize = self.variables.len();
        assert(b.subrange(0, i as int) =~= b);
        while i > 0
            invariant
                i <= self.variables@.len(),
                b == bindings_view(self.variables@),
                lookup(b, k@) == lookup(b.subrange(0, i as int), k@),
            decreases i,
        {
            let ghost pre = b.subrange(0, i as int);
            assert(pre.drop_last() =~= b.subrange(0, i - 1));
            assert(pre.last() == (self.variables@[i - 1].0@, self.variables@[i - 1].1@));
            if self.variables[i - 1].0.same_as(k) {
                return Some(self.variables[i - 1].1.clone());
            }
            i -= 1;
        }
        None
    }

    fn subst_one(&self, a: Vec<LinearizedExpr>, e: &LinearExpr) -> (r: LinearizedExpr)
        ensures
            r@ == subst_step(bindings_view(self.variables@), exprs_view(a@), e@),
    {
        if matches!(e.op, LinearExprOp::Reg(_)) && !e.is_non_terminal() {
            let k = LinearizedExpr::from_linear_expr(e.clone());
            if let Some(v) = self.get_var(&k) {
                return v;
            }
        }
        crate::evaluator::build_from_args(a, e.clone())
    }

    /// `expr` with every bound register replaced by its value.
    pub fn substitute(&self, expr: &LinearizedExpr) -> (r: LinearizedExpr)
        requires
            well_formed(expr@),
        ensures
            r@ == substituted(bindings_view(self.variables@), expr@),
    {
        let ghost step = subst_builder(bindings_view(self.variables@));
        let mut stack: Vec<LinearizedExpr> = Vec::new();
        let n = expr.0.len();
        let mut i: usize = 0;
        assert(exprs_view(stack@) =~= run_stack(expr@, 0, step));
        while i < n
            invariant
                n == expr@.len(),
                i <= n,
                well_formed(expr@),
                step == subst_builder(bindings_view(self.variables@)),
                exprs_view(stack@) == run_stack(expr@, i as nat, step),
            decreases n - i,
        {
            proof {
                lemma_run_stack_len(expr@, i as nat, step);
                let ii = i as int;
                assert(height(expr@, ii as nat) >= op_arity(expr@[ii].op));
            }
            let e = &expr.0[i];
            assert(e@ == expr@[i as int]);
            let k = e.arity();
            let ghost st = exprs_view(stack@);
            let args = pop_args(&mut stack, k);
            let ghost base = exprs_view(stack@);
            let res = self.subst_one(args, e);
            stack.push(res);
            proof {
                assert(exprs_view(stack@) =~= base.push(res@));
                let a = st.subrange(st.len() - op_arity(expr@[i as int].op), st.len() as int);
                assert(step(a, expr@[i as int]) == res@);
            }
            i += 1;
        }
        proof {
            lemma_run_stack_len(expr@, n as nat, step);
        }
        stack.pop().unwrap()
    }

    fn byte_exec(&self, addr: &LinearizedExpr, i: u64) -> (r: Option<LinearizedExpr>)
        requires
            addr@.len() > 0,
        ensures
            r matches Some(x) ==> byte_at(bindings_view(self.memory@), addr@, i as nat) == Some(x@),
            r is None ==> byte_at(bindings_view(self.memory@), addr@, i as nat) is None,
    {
        if i == 0 {
            return lookup_exec(&self.memory, addr);
        }
        let w = addr.size();
        let c = crate::simplify::masked_leaf(i, w);
        let k = crate::evaluator::build_op_2(addr, &c, &LinearExpr::new(LinearExprOp::Add, w));
        if !crate::simplify::is_good(&k) {
            return None;
        }
        let ks = k.simplify();
        lookup_exec(&self.memory, &ks)
    }

    /// The value of a load of `n` bytes from `addr`, when all its bytes are bound.
    pub fn load_exec(&self, addr: &LinearizedExpr, n: u64) -> (r: Option<LinearizedExpr>)
        requires
            addr@.len() > 0,
        ensures
            r matches Some(x) ==> load_bytes(bindings_view(self.memory@), addr@, n as nat) == Some(x@),
            r is None ==> load_bytes(bindings_view(self.memory@), addr@, n as nat) is None,
    {
        let ghost mem = bindings_view(self.memory@);
        let mut v = match self.byte_exec(addr, 0) {
            Some(b) => b,
            None => {
                proof {
                    if n >= 1 {
                        lemma_load_none(mem, addr@, 1, n as nat);
                    }
                }
                return None;
            },
        };
        let mut i: u64 = 1;
        while i < n
            invariant
                1 <= i,
                i <= n || n <= 1,
                n <= 1 ==> i == 1,
                addr@.len() > 0,
                mem == bindings_view(self.memory@),
                load_bytes(mem, addr@, i as nat) == Some(v@),
            decreases n - i,
        {
            let b = match self.byte_exec(addr, i) {
                Some(b) => b,
                None => {
                    proof {
                        lemma_load_none(mem, addr@, (i + 1) as nat, n as nat);
                    }
                    return None;
                },
            };
            if b.len() == 0 || v.len() == 0 || b.size() > usize::MAX - v.size() {
                proof {
                    lemma_load_none(mem, addr@, (i + 1) as nat, n as nat);
                }
                return None;
            }
            let w = b.size() + v.size();
            v = crate::evaluator::build_op_2(&b, &v, &LinearExpr::new(LinearExprOp::Concat, w));
            i += 1;
        }
        assert(load_bytes(mem, addr@, 0) == load_bytes(mem, addr@, 1));
        Some(v)
    }

    fn load_one(&self, a: Vec<LinearizedExpr>, e: &LinearExpr) -> (r: LinearizedExpr)
        requires
            forall|j: int| 0 <= j < a@.len() ==> (#[trigger] a@[j])@.len() > 0,
        ensures
            r@ == load_step(bindings_view(self.memory@), exprs_view(a@), e@),
    {
        assert(a@.len() == 1 ==> exprs_view(a@)[0] == a@[0]@);
        if matches!(e.op, LinearExprOp::Mem) && a.len() == 1 {
            if let Some(v) = self.load_exec(&a[0], (e.size / 8) as u64) {
                return v;
            }
        }
        crate::evaluator::build_from_args(a, e.clone())
    }

    /// `expr` with its memory loads resolved against the memory bindings.
    pub fn resolve_loads(&self, expr: &LinearizedExpr) -> (r: LinearizedExpr)
        requires
            good(expr@, false),
            good_values(bindings_view(self.memory@)),
        ensures
            r@ == loads_resolved(bindings_view(self.memory@), expr@),
    {
        let ghost mem = bindings_view(self.memory@);
        let ghost step = load_builder(mem);
        let mut stack: Vec<LinearizedExpr> = Vec::new();
        let n = expr.0.len();
        let mut i: usize = 0;
        assert(exprs_view(stack@) =~= run_stack(expr@, 0, step));
        while i < n
            invariant
                n == expr@.len(),
                i <= n,
                good(expr@, false),
                good_values(mem),
                mem == bindings_view(self.memory@),
                step == load_builder(mem),
                exprs_view(stack@) == run_stack(expr@, i as nat, step),
            decreases n - i,
        {
            proof {
                lemma_run_stack_len(expr@, i as nat, step);
                lemma_resolved_inv(mem, expr@, i as nat);
                let ii = i as int;
                assert(height(expr@, ii as nat) >= op_arity(expr@[ii].op));
            }
            let e = &expr.0[i];
            assert(e@ == expr@[i as int]);
            let k = e.arity();
            let ghost st = exprs_view(stack@);
            let args = pop_args(&mut stack, k);
            let ghost base = exprs_view(stack@);
            proof {
                assert(exprs_view(args@).len() == args@.len());
                assert forall|j: int| 0 <= j < args@.len() implies (#[trigger] args@[j])@.len() > 0 by {
                    assert(exprs_view(args@)[j] == args@[j]@);
                    assert(st.subrange(st.len() - k, st.len() as int)[j] == st[st.len() - k + j]);
                    assert(good(st[st.len() - k + j], false));
                }
            }
            let res = self.load_one(args, e);
            stack.push(res);
            proof {
                assert(exprs_view(stack@) =~= base.push(res@));
                let a = st.subrange(st.len() - op_arity(expr@[i as int].op), st.len() as int);
                assert(step(a, expr@[i as int]) == res@);
            }
            i += 1;
        }
        proof {
            lemma_run_stack_len(expr@, n as nat, step);
        }
        stack.pop().unwrap()
    }

    /// The simplified value of `expr` under the register and memory bindings.
    pub fn evaluate(&self, expr: &LinearizedExpr) -> (r: LinearizedExpr)
        requires
            good(expr@, false),
            good_values(bindings_view(self.variables@)),
            good_values(bindings_view(self.memory@)),
        ensures
            r@ == evaluated_with_memory(bindings_view(self.variables@), bindings_view(self.memory@), expr@),
            good(r@, false),
    {
        let s = self.substitute(expr);
        proof {
            lemma_substituted_good(bindings_view(self.variables@), expr@);
        }
        let s = s.simplify();
        let s = self.resolve_loads(&s);
        proof {
            lemma_resolved_good(bindings_view(self.memory@), simplified(substituted(bindings_view(self.variables@), expr@)));
        }
        s.simplify()
    }
}

/// Evaluates assignments one after the other, binding each destination register to the
/// simplified value of its source.
pub struct SemanticFormulaEvaluator {
    pub symbolic_state: SymbolicState,
}

impl SemanticFormulaEvaluator {
    pub fn new(symbols: Vec<LinearExpr>) -> (r: SemanticFormulaEvaluator)
        ensures
            bindings_view(r.symbolic_state.variables@) == symbols@.map_values(
                |e: LinearExpr| (seq![e@], seq![e@]),
            ),
    {
        SemanticFormulaEvaluator { symbolic_state: SymbolicState::new(symbols) }
    }

    /// The simplified value of `expr` under the current bindings.
    pub fn eval_expression(&self, expr: &LinearizedExpr) -> (r: LinearizedExpr)
        requires
            good(expr@, false),
            good_values(bindings_view(self.symbolic_state.variables@)),
            good_values(bindings_view(self.symbolic_state.memory@)),
        ensures
            r@ == evaluated_with_memory(
                bindings_view(self.symbolic_state.variables@),
                bindings_view(self.symbolic_state.memory@),
                expr@,
            ),
            good(r@, false),
    {
        self.symbolic_state.evaluate(expr)
    }

    /// Binds the destination of `assignment` to the value of its source: a register
    /// among the registers, a memory dereference in memory under the value of its address.
    pub fn eval_assignment(&mut self, assignment: &Assignment)
        requires
            good(assignment.rhs@, false),
            good_values(bindings_view(old(self).symbolic_state.variables@)),
            good_values(bindings_view(old(self).symbolic_state.memory@)),
            assignment.lhs@.len() > 0 && assignment.lhs@.last().op is Mem ==> good(
                assignment.lhs@.drop_last(),
                false,
            ),
        ensures
            ({
                let v = evaluated_with_memory(
                    bindings_view(old(self).symbolic_state.variables@),
                    bindings_view(old(self).symbolic_state.memory@),
                    assignment.rhs@,
                );
                let lhs = assignment.lhs@;
                if lhs.len() > 0 && lhs.last().op is Mem {
                    &&& bindings_view(final(self).symbolic_state.memory@) == bindings_view(
                        old(self).symbolic_state.memory@,
                    ).push(
                        (
                            evaluated_with_memory(
                                bindings_view(old(self).symbolic_state.variables@),
                                bindings_view(old(self).symbolic_state.memory@),
                                lhs.drop_last(),
                            ),
                            v,
                        ),
                    )
                    &&& final(self).symbolic_state.variables == old(self).symbolic_state.variables
                } else {
                    &&& bindings_view(final(self).symbolic_state.variables@) == bindings_view(
                        old(self).symbolic_state.variables@,
                    ).push((lhs, v))
                    &&& final(self).symbolic_state.memory == old(self).symbolic_state.memory
                }
            }),
            good_values(bindings_view(final(self).symbolic_state.variables@)),
            good_values(bindings_view(final(self).symbolic_state.memory@)),
    {
        let v = self.eval_expression(&assignment.rhs);
        if assignment.lhs.len() > 0 && matches!(assignment.lhs.op().op, LinearExprOp::Mem) {
            let address = assignment.lhs.get_expression_slice(0, assignment.lhs.len() - 1);
            assert(address@ =~= assignment.lhs@.drop_last());
            let at = self.eval_expression(&address);
            let ghost before = self.symbolic_state.memory@;
            self.symbolic_state.memory.push((at, v));
            assert(bindings_view(self.symbolic_state.memory@) =~= bindings_view(before).push((at@, v@)));
            proof {
                let after = bindings_view(self.symbolic_state.memory@);
                assert forall|i: int| 0 <= i < after.len() implies good(#[trigger] after[i].1, false) by {
                    if i < before.len() {
                        assert(after[i] == bindings_view(before)[i]);
                    }
                }
            }
            return;
        }
        let ghost before = bindings_view(self.symbolic_state.variables@);
        self.symbolic_state.set_var(&assignment.lhs, v);
        proof {
            let after = bindings_view(self.symbolic_state.variables@);
            assert forall|i: int| 0 <= i < after.len() implies good(#[trigger] after[i].1, false) by {
                if i < before.len() {
                    assert(after[i] == before[i]);
                }
            }
        }
    }
}

/// The four parameter registers of rule expressions, `p0`, `p1`, `p2` and the
/// placeholder, of width `w`.
pub open spec fn parameter_nodes(w: usize) -> Seq<NodeView> {
    seq![
        crate::expr::node(OpView::Reg(seq!['p', '0']), w),
        crate::expr::node(OpView::Reg(seq!['p', '1']), w),
        crate::expr::node(OpView::Reg(seq!['p', '2']), w),
        crate::expr::node(OpView::Reg(crate::expr::nt_name()), w),
    ]
}

/// A destination that is one of the parameter registers of width `w`.
pub open spec fn parameter_register(l: Seq<NodeView>, w: usize) -> bool {
    l.len() == 1 && parameter_nodes(w).contains(l[0])
}

/// The value of a rule expression with its parameters bound by `inputs` (each parameter
/// otherwise stands for itself).
pub fn symbolic_execute_with_inputs(expr: &LinearizedExpr, inputs: &Vec<Assignment>) -> (r: LinearizedExpr)
    requires
        good(expr@, false),
        forall|i: int| 0 <= i < inputs@.len() ==> parameter_register((#[trigger] inputs@[i]).lhs@, width(expr@)),
        forall|i: int| 0 <= i < inputs@.len() ==> good((#[trigger] inputs@[i]).rhs@, false),
    ensures
        r@ == evaluated_with_memory(
            parameter_nodes(width(expr@)).map_values(|e: NodeView| (seq![e], seq![e])) + inputs@.map_values(
                |a: Assignment| (a.lhs@, a.rhs@),
            ),
            Seq::empty(),
            expr@,
        ),
{
    let w = expr.size();
    proof {
        reveal_strlit("p0");
        reveal_strlit("p1");
        reveal_strlit("p2");
        assert("p0"@ =~= seq!['p', '0']);
        assert("p1"@ =~= seq!['p', '1']);
        assert("p2"@ =~= seq!['p', '2']);
    }
    let symbols = vec![
        LinearExpr::new(LinearExprOp::Reg(String::from_str("p0")), w),
        LinearExpr::new(LinearExprOp::Reg(String::from_str("p1")), w),
        LinearExpr::new(LinearExprOp::Reg(String::from_str("p2")), w),
        LinearizedExpr::gen_non_terminal(w),
    ];
    let mut state = SymbolicState::new(symbols);
    let ghost init = bindings_view(state.variables@);
    assert(init =~= parameter_nodes(w).map_values(|e: NodeView| (seq![e], seq![e])));
    let mut i: usize = 0;
    while i < inputs.len()
        invariant
            i <= inputs@.len(),
            init == parameter_nodes(w).map_values(|e: NodeView| (seq![e], seq![e])),
            bindings_view(state.variables@) == init + inputs@.subrange(0, i as int).map_values(
                |a: Assignment| (a.lhs@, a.rhs@),
            ),
            state.memory@.len() == 0,
            forall|t: int| 0 <= t < inputs@.len() ==> good((#[trigger] inputs@[t]).rhs@, false),
        decreases inputs@.len() - i,
    {
        state.set_var(&inputs[i].lhs, inputs[i].rhs.clone());
        i += 1;
        assert(bindings_view(state.variables@) =~= init + inputs@.subrange(0, i as int).map_values(
            |a: Assignment| (a.lhs@, a.rhs@),
        ));
    }
    assert(inputs@.subrange(0, inputs@.len() as int) =~= inputs@);
    proof {
        let b = bindings_view(state.variables@);
        assert forall|t: int| 0 <= t < b.len() implies good(#[trigger] b[t].1, false) by {
            if t < 4 {
                let e = parameter_nodes(w)[t];
                crate::expr::lemma_leaf_wf(e.op, w);
                assert(b[t].1 == seq![e]);
                assert(seq![e] == seq![crate::expr::node(e.op, w)]);
                assert(seq![e][0] == e);
            } else {
                assert(b[t].1 == inputs@[t - 4].rhs@);
            }
        }
        assert(bindings_view(state.memory@) =~= Seq::<(Seq<NodeView>, Seq<NodeView>)>::empty());
    }
    state.evaluate(expr)
}

} // verus!
