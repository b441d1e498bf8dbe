//! Single-assignment form: each assignment is split into one operator per temporary,
//! with repeated sub-expressions of one assignment computed once.
use crate::assignment::Assignment;
use crate::bit_vecs::mask_to_size;
use crate::expr::{
    height, node, op_arity, str_eq, width, LinearExpr, LinearExprOp, LinearizedExpr,
    NodeView, OpView,
};
use crate::render::{digits, push_digits};
use vstd::prelude::*;
use vstd::string::StringExecFns;

verus! {

/// A single element without operands.
pub open spec fn is_leaf(x: Seq<NodeView>) -> bool {
    x.len() == 1 && op_arity(x[0].op) == 0
}

/// One operator applied to leaves, or a single leaf.
pub open spec fn is_flat(x: Seq<NodeView>) -> bool {
    &&& x.len() >= 1
    &&& x.len() == op_arity(x.last().op) + 1
    &&& forall|i: int| 0 <= i < x.len() - 1 ==> op_arity(#[trigger] x[i].op) == 0
}

/// A single register element.
pub open spec fn is_register(x: Seq<NodeView>) -> bool {
    x.len() == 1 && x[0].op is Reg
}

/// Operators the single-assignment form handles.
pub open spec fn ssa_op(op: OpView) -> bool {
    match op {
        OpView::Reg(_) | OpView::Const(_) | OpView::Nop | OpView::Alloc(_) => true,
        OpView::Not | OpView::Neg | OpView::Slice(..) | OpView::ZeroExtend | OpView::SignExtend
        | OpView::Load | OpView::Mem => true,
        OpView::Add | OpView::Sub | OpView::Mul | OpView::Udiv | OpView::Sdiv | OpView::Urem
        | OpView::Srem | OpView::Shl | OpView::Lshr | OpView::Ashr | OpView::And | OpView::Or
        | OpView::Xor | OpView::Nand | OpView::Nor | OpView::Ult | OpView::Slt | OpView::Ule
        | OpView::Sle | OpView::Equal | OpView::Concat | OpView::Store => true,
        OpView::Ite => true,
        _ => false,
    }
}

/// The counter of the first entry named `name` from position `i` on.
pub open spec fn version_from(vs: Seq<(String, u64)>, name: Seq<char>, i: int) -> Option<u64>
    decreases vs.len() - i,
{
    if i >= vs.len() || i < 0 {
        None
    } else if vs[i].0@ == name {
        Some(vs[i].1)
    } else {
        version_from(vs, name, i + 1)
    }
}

/// The current version of `name`, if it has been assigned.
pub open spec fn version(vs: Seq<(String, u64)>, name: Seq<char>) -> Option<u64> {
    version_from(vs, name, 0)
}

/// The version after one more assignment.
pub open spec fn next_version(v: Option<u64>) -> u64 {
    match v {
        None => 1,
        Some(c) => if c < u64::MAX {
            (c + 1) as u64
        } else {
            c
        },
    }
}

/// The version after `k` more assignments.
pub open spec fn bumped(v: Option<u64>, k: nat) -> u64
    decreases k,
{
    if k <= 1 {
        next_version(v)
    } else {
        next_version(Some(bumped(v, (k - 1) as nat)))
    }
}

/// The register `name` at version `c`.
pub open spec fn versioned_reg(name: Seq<char>, c: u64, size: usize) -> Seq<NodeView> {
    seq![node(OpView::Reg(name + digits(c as nat, false)), size)]
}

proof fn lemma_version_set(vs: Seq<(String, u64)>, i: int, name: Seq<char>, e: (String, u64), j: int)
    requires
        0 <= j <= i < vs.len(),
        vs[i].0@ == name,
        e.0@ == name,
        forall|q: int| j <= q < i ==> #[trigger] vs[q].0@ != name,
    ensures
        version_from(vs.update(i, e), name, j) == Some(e.1),
        forall|n: Seq<char>| n != name ==> #[trigger] version_from(vs.update(i, e), n, j) == version_from(vs, n, j),
    decreases i - j,
{
    let ws = vs.update(i, e);
    if j < i {
        lemma_version_set(vs, i, name, e, j + 1);
        assert(ws[j] == vs[j]);
    }
    assert forall|n: Seq<char>| n != name implies #[trigger] version_from(ws, n, j) == version_from(vs, n, j) by {
        lemma_version_other(vs, i, e, n, j);
    }
}

proof fn lemma_version_other(vs: Seq<(String, u64)>, i: int, e: (String, u64), n: Seq<char>, j: int)
    requires
        0 <= j,
        0 <= i < vs.len(),
        vs[i].0@ != n,
        e.0@ != n,
    ensures
        version_from(vs.update(i, e), n, j) == version_from(vs, n, j),
    decreases vs.len() - j,
{
    let ws = vs.update(i, e);
    if j < vs.len() {
        lemma_version_other(vs, i, e, n, j + 1);
        if j != i {
            assert(ws[j] == vs[j]);
        }
    }
}

proof fn lemma_version_push(vs: Seq<(String, u64)>, e: (String, u64), n: Seq<char>, j: int)
    requires
        0 <= j <= vs.len(),
        e.0@ == n ==> forall|q: int| j <= q < vs.len() ==> #[trigger] vs[q].0@ != n,
    ensures
        version_from(vs.push(e), n, j) == if version_from(vs, n, j) is Some {
            version_from(vs, n, j)
        } else if e.0@ == n {
            Some(e.1)
        } else {
            None
        },
    decreases vs.len() - j,
{
    let ws = vs.push(e);
    if j < vs.len() {
        lemma_version_push(vs, e, n, j + 1);
        assert(ws[j] == vs[j]);
    } else {
        assert(ws[j] == e);
        assert(version_from(ws, n, j + 1) is None);
        assert(version_from(vs, n, j) is None);
    }
}

proof fn lemma_version_found(vs: Seq<(String, u64)>, name: Seq<char>, i: int, j: int)
    requires
        0 <= j <= i < vs.len(),
        vs[i].0@ == name,
        forall|q: int| 0 <= q < i ==> #[trigger] vs[q].0@ != name,
    ensures
        version_from(vs, name, j) == Some(vs[i].1),
    decreases i - j,
{
    if j < i {
        lemma_version_found(vs, name, i, j + 1);
    }
}

proof fn lemma_version_absent(vs: Seq<(String, u64)>, name: Seq<char>, j: int)
    requires
        0 <= j,
        forall|q: int| 0 <= q < vs.len() ==> #[trigger] vs[q].0@ != name,
    ensures
        version_from(vs, name, j) is None,
    decreases vs.len() - j,
{
    if j < vs.len() {
        lemma_version_absent(vs, name, j + 1);
    }
}

/// Assignments as (destination, source) pairs of models.
pub open spec fn pairs(v: Seq<Assignment>) -> Seq<(Seq<NodeView>, Seq<NodeView>)> {
    v.map_values(|a: Assignment| (a.lhs@, a.rhs@))
}

/// The register name of a single-register destination.
pub open spec fn dest_name(a: Assignment) -> Seq<char> {
    a.lhs@[0].op->Reg_0
}

/// The versions after one assignment to `name` whose source used `nt` temporaries,
/// starting from `vs`.
pub open spec fn versions_after(vs: Seq<(String, u64)>, name: Seq<char>, nt: nat, n: Seq<char>) -> Option<u64> {
    let t = version(vs, seq!['T']);
    let mid = if name == seq!['T'] {
        Some(bumped(t, nt))
    } else {
        version(vs, name)
    };
    if n == name {
        Some(next_version(mid))
    } else if n == seq!['T'] {
        Some(bumped(t, nt))
    } else {
        version(vs, n)
    }
}

/// The single-assignment form of `a` under the versions `vs`: the source flattened into
/// temporaries `T` numbered on from `T`'s version, each an operator over leaves and no two
/// alike, then the last temporary copied into the destination's next version.
pub open spec fn ssa_segment(seg: Seq<(Seq<NodeView>, Seq<NodeView>)>, a: Assignment, vs: Seq<(String, u64)>) -> bool {
    let f = seg.drop_last();
    let t = version(vs, seq!['T']);
    let nt = f.len();
    &&& seg.len() >= 2
    &&& forall|k: int|
        0 <= k < nt ==> is_flat((#[trigger] f[k]).1) && f[k].0 == versioned_reg(
            seq!['T'],
            bumped(t, (k + 1) as nat),
            width(f[k].1),
        )
    &&& forall|x: int, y: int| 0 <= x < y < nt ==> #[trigger] f[x].1 != #[trigger] f[y].1
    &&& seg.last().0 == versioned_reg(
        dest_name(a),
        next_version(
            if dest_name(a) == seq!['T'] {
                Some(bumped(t, nt as nat))
            } else {
                version(vs, dest_name(a))
            },
        ),
        a.size,
    )
    &&& seg.last().1 == versioned_reg(
        seq!['T'],
        if dest_name(a) == seq!['T'] {
            next_version(Some(bumped(t, nt as nat)))
        } else {
            bumped(t, nt as nat)
        },
        width(a.lhs@),
    )
}

/// `r` is the single-assignment form of `v`: consecutive segments, one per assignment, each
/// the form of its assignment under the versions the earlier ones leave.
pub open spec fn ssa_form(v: Seq<Assignment>, r: Seq<(Seq<NodeView>, Seq<NodeView>)>) -> bool {
    exists|bounds: Seq<int>, tables: Seq<Seq<(String, u64)>>|
        #![trigger bounds.len(), tables.len()]
        {
            &&& bounds.len() == v.len() + 1
            &&& tables.len() == v.len() + 1
            &&& bounds[0] == 0
            &&& bounds[v.len() as int] == r.len()
            &&& forall|n: Seq<char>| #[trigger] version(tables[0], n) is None
            &&& forall|j: int|
                0 <= j < v.len() ==> #[trigger] ssa_segment(
                    r.subrange(bounds[j], bounds[j + 1]),
                    v[j],
                    tables[j],
                ) && bounds[j] <= bounds[j + 1]
            &&& forall|j: int, n: Seq<char>|
                0 <= j < v.len() ==> #[trigger] version(tables[j + 1], n) == versions_after(
                    tables[j],
                    dest_name(v[j]),
                    (bounds[j + 1] - bounds[j] - 1) as nat,
                    n,
                )
        }
}

/// Version counters of variable names.
pub struct SSA {
    pub var_stack: Vec<(String, u64)>,
}


impl SSA {
    pub fn new() -> (r: SSA)
        ensures
            r.var_stack@.len() == 0,
    {
        SSA { var_stack: Vec::new() }
    }

    fn find(&self, var_name: &str) -> (r: Option<usize>)
        ensures
            r matches Some(i) ==> i < self.var_stack@.len() && self.var_stack@[i as int].0@ == var_name@
                && forall|q: int| 0 <= q < i ==> #[trigger] self.var_stack@[q].0@ != var_name@,
            r is None ==> forall|i: int|
                0 <= i < self.var_stack@.len() ==> #[trigger] self.var_stack@[i].0@ != var_name@,
    {
        let mut i: usize = 0;
        while i < self.var_stack.len()
            invariant
                i <= self.var_stack@.len(),
                forall|j: int| 0 <= j < i ==> #[trigger] self.var_stack@[j].0@ != var_name@,
            decreases self.var_stack@.len() - i,
        {
            if str_eq(self.var_stack[i].0.as_str(), var_name) {
                return Some(i);
            }
            i += 1;
        }
        None
    }

    fn versioned(var_name: &str, count: u64, size: usize) -> (r: LinearizedExpr)
        ensures
            r@ == seq![node(OpView::Reg(var_name@ + digits(count as nat, false)), size)],
    {
        let mut s = String::from_str(var_name);
        push_digits(&mut s, count, false);
        let r = LinearizedExpr::from_linear_expr(LinearExpr::new(LinearExprOp::Reg(s), size));
        r
    }

    /// A fresh version of `var_name`, as the destination of an assignment.
    pub fn var_lhs(&mut self, var_name: &str, size: usize) -> (r: LinearizedExpr)
        ensures
            is_register(r@),
            width(r@) == size,
            version(final(self).var_stack@, var_name@) == Some(next_version(version(old(self).var_stack@, var_name@))),
            r@ == versioned_reg(var_name@, next_version(version(old(self).var_stack@, var_name@)), size),
            forall|n: Seq<char>|
                n != var_name@ ==> #[trigger] version(final(self).var_stack@, n) == version(old(self).var_stack@, n),
    {
        let ghost old_vs = self.var_stack@;
        let count = match self.find(var_name) {
            Some(i) => {
                let c = self.var_stack[i].1;
                proof {
                    lemma_version_found(old_vs, var_name@, i as int, 0);
                }
                let c = if c < u64::MAX {
                    c + 1
                } else {
                    c
                };
                let e = (String::from_str(var_name), c);
                proof {
                    lemma_version_set(old_vs, i as int, var_name@, e, 0);
                }
                self.var_stack.set(i, e);
                c
            },
            None => {
                proof {
                    lemma_version_absent(old_vs, var_name@, 0);
                }
                let e = (String::from_str(var_name), 1u64);
                proof {
                    lemma_version_push(old_vs, e, var_name@, 0);
                    assert forall|n: Seq<char>| n != var_name@ implies #[trigger] version(old_vs.push(e), n)
                        == version(old_vs, n) by {
                        lemma_version_push(old_vs, e, n, 0);
                    }
                }
                self.var_stack.push(e);
                1
            },
        };
        SSA::versioned(var_name, count, size)
    }

    /// The current version of `var_name`, as an operand.
    pub fn var_rhs(&self, var_name: &str, size: usize) -> (r: LinearizedExpr)
        ensures
            is_register(r@),
            width(r@) == size,
            r@ == match version(self.var_stack@, var_name@) {
                Some(c) => versioned_reg(var_name@, c, size),
                None => seq![node(OpView::Reg(var_name@), size)],
            },
    {
        match self.find(var_name) {
            Some(i) => {
                proof {
                    lemma_version_found(self.var_stack@, var_name@, i as int, 0);
                }
                SSA::versioned(var_name, self.var_stack[i].1, size)
            },
            None => {
                proof {
                    lemma_version_absent(self.var_stack@, var_name@, 0);
                }
                let r = LinearizedExpr::from_linear_expr(
                    LinearExpr::new(LinearExprOp::Reg(String::from_str(var_name)), size),
                );
                r
            },
        }
    }

    fn temp_var_lhs(&mut self, size: usize) -> (r: LinearizedExpr)
        ensures
            is_register(r@),
            width(r@) == size,
            version(final(self).var_stack@, seq!['T']) == Some(next_version(version(old(self).var_stack@, seq!['T']))),
            r@ == versioned_reg(seq!['T'], next_version(version(old(self).var_stack@, seq!['T'])), size),
            forall|n: Seq<char>|
                n != seq!['T'] ==> #[trigger] version(final(self).var_stack@, n) == version(old(self).var_stack@, n),
    {
        proof {
            reveal_strlit("T");
            assert("T"@ =~= seq!['T']);
        }
        self.var_lhs("T", size)
    }

    fn temp_var_rhs(&self, size: usize) -> (r: LinearizedExpr)
        ensures
            is_register(r@),
            width(r@) == size,
            r@ == match version(self.var_stack@, seq!['T']) {
                Some(c) => versioned_reg(seq!['T'], c, size),
                None => seq![node(OpView::Reg(seq!['T']), size)],
            },
    {
        proof {
            reveal_strlit("T");
            assert("T"@ =~= seq!['T']);
        }
        self.var_rhs("T", size)
    }

    /// The element `e` over the given leaves (first operand first), with the current
    /// versions of registers.
    fn eval_op(&self, args: &Vec<LinearizedExpr>, e: &LinearExpr) -> (r: LinearizedExpr)
        requires
            args@.len() == op_arity(e@.op),
            forall|j: int| 0 <= j < args@.len() ==> #[trigger] is_leaf(args@[j]@),
            ssa_op(e@.op),
        ensures
            is_flat(r@),
    {
        let k = e.arity();
        if k == 0 {
            return match &e.op {
                LinearExprOp::Reg(s) => self.var_rhs(s.as_str(), e.size),
                LinearExprOp::Const(x) => LinearizedExpr::from_linear_expr(
                    LinearExpr::new(LinearExprOp::Const(mask_to_size(*x, e.size)), e.size),
                ),
                LinearExprOp::Alloc(c) => LinearizedExpr::from_linear_expr(
                    LinearExpr::new(LinearExprOp::Alloc(mask_to_size(*c, e.size)), e.size),
                ),
                _ => LinearizedExpr::from_linear_expr(LinearExpr::new(LinearExprOp::Nop, e.size)),
            };
        }
        let size = match e.op {
            LinearExprOp::Slice(start, end) => {
                if end >= start {
                    (end - start) as usize + 1
                } else {
                    e.size
                }
            },
            LinearExprOp::Concat => {
                assert(is_leaf(args@[0]@) && is_leaf(args@[1]@));
                if args[0].size() <= usize::MAX - args[1].size() {
                    args[0].size() + args[1].size()
                } else {
                    e.size
                }
            },
            _ => e.size,
        };
        let mut r = LinearizedExpr::new(Vec::new());
        let mut j: usize = 0;
        assert(r@ =~= Seq::<NodeView>::empty());
        while j < args.len()
            invariant
                j <= args@.len(),
                args@.len() == k,
                k <= 3,
                r@.len() == j,
                forall|t: int| 0 <= t < j ==> op_arity(#[trigger] r@[t].op) == 0,
                forall|t: int| 0 <= t < args@.len() ==> #[trigger] is_leaf(args@[t]@),
            decreases args@.len() - j,
        {
            assert(is_leaf(args@[j as int]@));
            let ghost before = r@;
            r.extend(args[j].clone());
            assert(r@ == before + args@[j as int]@);
            assert(r@[j as int] == args@[j as int]@[0]);
            j += 1;
        }
        let ghost before = r@;
        r.push(LinearExpr::new(e.op.clone(), size));
        assert(r@.last().op == e@.op);
        assert(forall|t: int| 0 <= t < r@.len() - 1 ==> r@[t] == before[t]);
        r
    }
}

/// Assignments whose destinations are registers and whose sources are flat.
pub open spec fn all_flat(v: Seq<Assignment>) -> bool {
    forall|i: int|
        0 <= i < v.len() ==> is_register(#[trigger] v[i].lhs@) && is_flat(v[i].rhs@) && width(
            v[i].lhs@,
        ) == width(v[i].rhs@)
}

/// No two assignments compute the same source.
pub open spec fn distinct_sources(v: Seq<Assignment>) -> bool {
    forall|i: int, j: int| 0 <= i < j < v.len() ==> #[trigger] v[i].rhs@ != #[trigger] v[j].rhs@
}

/// An assignment list that single-assignment form accepts.
pub open spec fn ssa_input(v: Seq<Assignment>) -> bool {
    forall|i: int|
        0 <= i < v.len() ==> {
            &&& is_register(#[trigger] v[i].lhs@)
            &&& v[i].size == width(v[i].lhs@)
            &&& crate::expr::well_formed(v[i].rhs@)
            &&& forall|k: int| 0 <= k < v[i].rhs@.len() ==> ssa_op(#[trigger] v[i].rhs@[k].op)
        }
}

impl SSA {
    /// One temporary per operator of `expr`, bottom-up; an operator over operands already
    /// computed in this call reuses that temporary.
    pub fn flatten_expr(&mut self, expr: &LinearizedExpr) -> (r: Vec<Assignment>)
        requires
            crate::expr::well_formed(expr@),
            forall|k: int| 0 <= k < expr@.len() ==> ssa_op(#[trigger] expr@[k].op),
        ensures
            all_flat(r@),
            distinct_sources(r@),
            r@.len() > 0,
            forall|t: int|
                0 <= t < r@.len() ==> (#[trigger] r@[t]).lhs@ == versioned_reg(
                    seq!['T'],
                    bumped(version(old(self).var_stack@, seq!['T']), (t + 1) as nat),
                    width(r@[t].rhs@),
                ),
            version(final(self).var_stack@, seq!['T']) == Some(
                bumped(version(old(self).var_stack@, seq!['T']), r@.len() as nat),
            ),
            forall|n: Seq<char>|
                n != seq!['T'] ==> #[trigger] version(final(self).var_stack@, n) == version(old(self).var_stack@, n),
    {
        let ghost v0 = version(self.var_stack@, seq!['T']);
        let mut replacements: Vec<(LinearizedExpr, LinearizedExpr)> = Vec::new();
        let mut stack: Vec<LinearizedExpr> = Vec::new();
        let mut res: Vec<Assignment> = Vec::new();
        let n = expr.0.len();
        let mut i: usize = 0;
        while i < n
            invariant
                n == expr@.len(),
                i <= n,
                crate::expr::well_formed(expr@),
                forall|k: int| 0 <= k < expr@.len() ==> ssa_op(#[trigger] expr@[k].op),
                stack@.len() == height(expr@, i as nat),
                forall|t: int| 0 <= t < stack@.len() ==> #[trigger] is_leaf(stack@[t]@),
                forall|t: int| 0 <= t < replacements@.len() ==> #[trigger] is_leaf(replacements@[t].1@),
                replacements@.len() == res@.len(),
                i > 0 ==> res@.len() > 0,
                v0 == version(old(self).var_stack@, seq!['T']),
                forall|n: Seq<char>|
                    n != seq!['T'] ==> #[trigger] version(self.var_stack@, n) == version(old(self).var_stack@, n),
                res@.len() == 0 ==> version(self.var_stack@, seq!['T']) == v0,
                res@.len() > 0 ==> version(self.var_stack@, seq!['T']) == Some(bumped(v0, res@.len() as nat)),
                forall|t: int|
                    0 <= t < res@.len() ==> (#[trigger] res@[t]).lhs@ == versioned_reg(
                        seq!['T'],
                        bumped(v0, (t + 1) as nat),
                        width(res@[t].rhs@),
                    ),
                forall|t: int| 0 <= t < res@.len() ==> #[trigger] res@[t].rhs@ == replacements@[t].0@,
                all_flat(res@),
                distinct_sources(res@),
            decreases n - i,
        {
            proof {
                let ii = i as int;
                assert(height(expr@, ii as nat) >= op_arity(expr@[ii].op));
            }
            let e = &expr.0[i];
            assert(e@ == expr@[i as int]);
            let k = e.arity();
            let ghost old_stack = stack@;
            let mut args: Vec<LinearizedExpr> = Vec::new();
            let mut t: usize = 0;
            while t < k
                invariant
                    t <= k,
                    k <= 3,
                    k <= old_stack.len(),
                    stack@ == old_stack.subrange(0, old_stack.len() - t),
                    args@.len() == t,
                    forall|q: int| 0 <= q < old_stack.len() ==> #[trigger] is_leaf(old_stack[q]@),
                    forall|q: int| 0 <= q < t ==> #[trigger] args@[q] == old_stack[old_stack.len() - 1 - q],
                decreases k - t,
            {
                let x = stack.pop().unwrap();
                args.push(x);
                t += 1;
            }
            // operands in evaluation order
            let mut ordered: Vec<LinearizedExpr> = Vec::new();
            let mut q: usize = k;
            while q > 0
                invariant
                    q <= k,
                    args@.len() == k,
                    ordered@.len() == k - q,
                    forall|w: int| 0 <= w < k ==> #[trigger] is_leaf(args@[w]@),
                    forall|w: int| 0 <= w < ordered@.len() ==> #[trigger] is_leaf(ordered@[w]@),
                    forall|w: int| 0 <= w < args@.len() ==> args@[w] == old_stack[old_stack.len() - 1 - w],
                    forall|q2: int| 0 <= q2 < old_stack.len() ==> #[trigger] is_leaf(old_stack[q2]@),
                decreases q,
            {
                q -= 1;
                assert(is_leaf(args@[q as int]@));
                ordered.push(args[q].clone());
            }
            let rhs = self.eval_op(&ordered, e);
            let mut found: Option<usize> = None;
            let mut w: usize = 0;
            while w < replacements.len() && found.is_none()
                invariant
                    w <= replacements@.len(),
                    found matches Some(f) ==> f < replacements@.len() && replacements@[f as int].0@ == rhs@,
                    found is None ==> forall|v: int| 0 <= v < w ==> #[trigger] replacements@[v].0@ != rhs@,
                decreases replacements@.len() - w,
            {
                if replacements[w].0.same_as(&rhs) {
                    found = Some(w);
                }
                w += 1;
            }
            match found {
                Some(f) => {
                    assert(is_leaf(replacements@[f as int].1@));
                    stack.push(replacements[f].1.clone());
                },
                None => {
                    let size = rhs.size();
                    let ghost vb = version(self.var_stack@, seq!['T']);
                    let ghost k = res@.len();
                    let lhs = self.temp_var_lhs(size);
                    proof {
                        if k == 0 {
                            assert(bumped(v0, 1) == next_version(v0));
                        } else {
                            assert(bumped(v0, (k + 1) as nat) == next_version(Some(bumped(v0, k as nat))));
                        }
                    }
                    let a = Assignment::new(lhs, rhs);
                    let top = self.temp_var_rhs(size);
                    stack.push(top);
                    replacements.push((a.rhs.clone(), a.lhs.clone()));
                    let ghost before = res@;
                    res.push(a);
                    proof {
                        assert forall|x: int, y: int| 0 <= x < y < res@.len() implies #[trigger] res@[x].rhs@
                            != #[trigger] res@[y].rhs@ by {
                            if y == res@.len() - 1 {
                                assert(res@[x].rhs@ == replacements@[x].0@);
                            } else {
                                assert(res@[x] == before[x] && res@[y] == before[y]);
                            }
                        }
                        assert forall|x: int| 0 <= x < res@.len() implies #[trigger] res@[x].rhs@
                            == replacements@[x].0@ by {
                        }
                    }
                },
            }
            proof {
                assert forall|x: int| 0 <= x < stack@.len() implies #[trigger] is_leaf(stack@[x]@) by {
                    if x < stack@.len() - 1 {
                        assert(stack@[x] == old_stack[x]);
                    }
                }
            }
            i += 1;
        }
        res
    }

    /// The single-assignment form of a list of assignments: each source flattened into
    /// temporaries, then its destination given a fresh version.
    #[verifier::rlimit(40)]
    pub fn from_assignments(assignments: &Vec<Assignment>) -> (r: Vec<Assignment>)
        requires
            ssa_input(assignments@),
        ensures
            all_flat(r@),
            ssa_form(assignments@, pairs(r@)),
    {
        let mut ssa = SSA::new();
        let mut ret: Vec<Assignment> = Vec::new();
        let mut i: usize = 0;
        let ghost mut bounds: Seq<int> = seq![0];
        let ghost mut tables: Seq<Seq<(String, u64)>> = seq![ssa.var_stack@];
        proof {
            assert forall|n: Seq<char>| #[trigger] version(tables[0], n) is None by {
                assert(ssa.var_stack@.len() == 0);
            }
        }
        while i < assignments.len()
            invariant
                i <= assignments@.len(),
                ssa_input(assignments@),
                all_flat(ret@),
                bounds.len() == i + 1,
                tables.len() == i + 1,
                bounds[0] == 0,
                bounds[i as int] == ret@.len(),
                tables[i as int] == ssa.var_stack@,
                forall|n: Seq<char>| #[trigger] version(tables[0], n) is None,
                forall|j: int| 0 <= j <= i ==> 0 <= #[trigger] bounds[j] <= ret@.len(),
                forall|j: int|
                    0 <= j < i ==> #[trigger] ssa_segment(
                        pairs(ret@).subrange(bounds[j], bounds[j + 1]),
                        assignments@[j],
                        tables[j],
                    ) && bounds[j] <= bounds[j + 1],
                forall|j: int, n: Seq<char>|
                    0 <= j < i ==> #[trigger] version(tables[j + 1], n) == versions_after(
                        tables[j],
                        dest_name(assignments@[j]),
                        (bounds[j + 1] - bounds[j] - 1) as nat,
                        n,
                    ),
            decreases assignments@.len() - i,
        {
            let a = &assignments[i];
            assert(is_register(a.lhs@) && a.size == width(a.lhs@));
            let ghost vs0 = ssa.var_stack@;
            let ghost start = ret@;
            let flattened = ssa.flatten_expr(&a.rhs);
            let ghost vs1 = ssa.var_stack@;
            let mut j: usize = 0;
            while j < flattened.len()
                invariant
                    j <= flattened@.len(),
                    all_flat(ret@),
                    all_flat(flattened@),
                    ret@.len() == start.len() + j,
                    ret@.subrange(0, start.len() as int) == start,
                    forall|k: int| 0 <= k < j ==> pairs(ret@)[start.len() + k] == pairs(flattened@)[k],
                    forall|k: int| 0 <= k <= i ==> 0 <= #[trigger] bounds[k] <= start.len(),
                    i < assignments@.len(),
                    bounds.len() == i + 1,
                    tables.len() == i + 1,
                    bounds[0] == 0,
                    bounds[i as int] == start.len(),
                    tables[i as int] == vs0,
                    forall|n: Seq<char>| #[trigger] version(tables[0], n) is None,
                    forall|k: int|
                        0 <= k < i ==> #[trigger] ssa_segment(
                            pairs(start).subrange(bounds[k], bounds[k + 1]),
                            assignments@[k],
                            tables[k],
                        ) && bounds[k] <= bounds[k + 1],
                    forall|k: int, n: Seq<char>|
                        0 <= k < i ==> #[trigger] version(tables[k + 1], n) == versions_after(
                            tables[k],
                            dest_name(assignments@[k]),
                            (bounds[k + 1] - bounds[k] - 1) as nat,
                            n,
                        ),
                decreases flattened@.len() - j,
            {
                let ghost before = ret@;
                let f = &flattened[j];
                assert(flattened@[j as int] == *f);
                assert(is_register(f.lhs@) && is_flat(f.rhs@) && width(f.lhs@) == width(f.rhs@));
                ret.push(Assignment { lhs: f.lhs.clone(), rhs: f.rhs.clone(), size: f.size });
                proof {
                    assert forall|x: int| 0 <= x < ret@.len() implies is_register(#[trigger] ret@[x].lhs@)
                        && is_flat(ret@[x].rhs@) && width(ret@[x].lhs@) == width(ret@[x].rhs@) by {
                        if x < before.len() {
                            assert(ret@[x] == before[x]);
                        }
                    }
                    assert(ret@.subrange(0, start.len() as int) =~= before.subrange(0, start.len() as int));
                    assert forall|k: int| 0 <= k < j + 1 implies pairs(ret@)[start.len() + k] == pairs(flattened@)[k] by {
                        if k < j {
                            assert(ret@[start.len() + k] == before[start.len() + k]);
                        }
                    }
                }
                j += 1;
            }
            proof {
                reveal_strlit("T");
            }
            let lhs = ssa.var_lhs(a.lhs.get_var_name(), a.size);
            let ghost vs2 = ssa.var_stack@;
            let rhs = ssa.temp_var_rhs(a.lhs.size());
            let ghost before = ret@;
            ret.push(Assignment::new(lhs, rhs));
            proof {
                assert forall|x: int| 0 <= x < ret@.len() implies is_register(#[trigger] ret@[x].lhs@)
                    && is_flat(ret@[x].rhs@) && width(ret@[x].lhs@) == width(ret@[x].rhs@) by {
                    if x < before.len() {
                        assert(ret@[x] == before[x]);
                    } else {
                        let v = ret@[x].rhs@;
                        assert(is_register(v));
                        assert(op_arity(v.last().op) == 0);
                    }
                }
                let nb = ret@.len() as int;
                let seg = pairs(ret@).subrange(bounds[i as int], nb);
                let f = pairs(flattened@);
                assert(seg.drop_last() =~= f);
                assert(dest_name(*a) == a.lhs@[0].op->Reg_0);
                assert(seg.last() == (ret@[nb - 1].lhs@, ret@[nb - 1].rhs@));
                assert forall|k: int|
                    0 <= k < f.len() implies is_flat((#[trigger] f[k]).1) && f[k].0 == versioned_reg(
                        seq!['T'],
                        bumped(version(vs0, seq!['T']), (k + 1) as nat),
                        width(f[k].1),
                    ) by {
                    assert(f[k] == (flattened@[k].lhs@, flattened@[k].rhs@));
                }
                assert forall|x: int, y: int| 0 <= x < y < f.len() implies #[trigger] f[x].1 != #[trigger] f[y].1 by {
                    assert(f[x].1 == flattened@[x].rhs@);
                    assert(f[y].1 == flattened@[y].rhs@);
                }
                assert(version(vs1, seq!['T']) == Some(bumped(version(vs0, seq!['T']), f.len() as nat)));
                if dest_name(*a) != seq!['T'] {
                    assert(version(vs2, seq!['T']) == version(vs1, seq!['T']));
                }
                assert(ssa_segment(seg, *a, vs0));
                assert forall|x: int| 0 <= x < start.len() implies pairs(ret@)[x] == pairs(start)[x] by {
                    assert(before.subrange(0, start.len() as int)[x] == before[x]);
                    assert(ret@[x] == before[x]);
                }
                let tables2 = tables.push(ssa.var_stack@);
                let bounds2 = bounds.push(nb);
                assert forall|j: int|
                    0 <= j < i + 1 implies #[trigger] ssa_segment(
                        pairs(ret@).subrange(bounds2[j], bounds2[j + 1]),
                        assignments@[j],
                        tables2[j],
                    ) && bounds2[j] <= bounds2[j + 1] by {
                    if j < i {
                        assert(bounds2[j] == bounds[j] && bounds2[j + 1] == bounds[j + 1]);
                        assert(tables2[j] == tables[j]);
                        assert(ssa_segment(pairs(start).subrange(bounds[j], bounds[j + 1]), assignments@[j], tables[j]));
                        assert(0 <= bounds[j] <= bounds[j + 1]);
                        assert(bounds[j + 1] <= start.len());
                        assert(pairs(ret@).subrange(bounds[j], bounds[j + 1]) =~= pairs(start).subrange(bounds[j], bounds[j + 1]));
                    }
                }
                assert forall|j: int, n: Seq<char>|
                    0 <= j < i + 1 implies #[trigger] version(tables2[j + 1], n) == versions_after(
                        tables2[j],
                        dest_name(assignments@[j]),
                        (bounds2[j + 1] - bounds2[j] - 1) as nat,
                        n,
                    ) by {
                    if j == i {
                        if n != dest_name(*a) && n != seq!['T'] {
                            assert(version(vs2, n) == version(vs1, n));
                            assert(version(vs1, n) == version(vs0, n));
                        }
                    }
                }
                bounds = bounds2;
                tables = tables2;
            }
            i += 1;
        }
        proof {
            assert(bounds.len() == assignments@.len() + 1 && tables.len() == assignments@.len() + 1);
            assert(ssa_form(assignments@, pairs(ret@)));
        }
        ret
    }
}

} // verus!
