//! Concrete execution of the lifted assignments on input values and memory, the
//! second executor of the dual-path check.
use crate::assignment::Assignment;
use crate::bit_vecs::{mask, mask_to_size, sign_extend, sign_extend_spec, slice_val, slice_val_spec, word_width};
use crate::evaluator::{evaluate, lemma_run_stack_len, run_stack};
use crate::expr::{height, op_arity, str_eq, well_formed, LinearExpr, LinearExprOp, LinearizedExpr, NodeView, OpView};
use crate::simplify::{fold1, fold2, width_dependent};
use std::collections::HashMap;
use vstd::prelude::*;

verus! {

broadcast use vstd::std_specs::hash::group_hash_axioms;

/// Register values by name and byte-addressed memory.
pub struct ConcreteState {
    pub regs: Map<Seq<char>, u64>,
    pub mem: Map<u64, u8>,
}

/// Little-endian value of `max(n, 1)` bytes from `a`.
pub open spec fn read_bytes(mem: Map<u64, u8>, a: u64, n: nat) -> Option<u64>
    decreases n,
{
    if n <= 1 {
        if mem.contains_key(a) {
            Some(mem[a] as u64)
        } else {
            None
        }
    } else {
        match read_bytes(mem, a, (n - 1) as nat) {
            None => None,
            Some(v) => {
                let i = (n - 1) as nat;
                if i >= 8 || a + i > u64::MAX || !mem.contains_key((a + i) as u64) {
                    None
                } else {
                    Some(((mem[(a + i) as u64] as u64) << ((i * 8) as u64)) | v)
                }
            },
        }
    }
}

/// Constant folding of a binary operator where it is defined: the operands and result
/// are reduced to the first operand's width.
pub open spec fn binary_value(op: OpView, x: (u64, usize), y: (u64, usize), size: usize) -> Option<(u64, usize)> {
    let w = x.1;
    if op is Concat {
        if y.1 < 64 {
            Some(((x.0 << (y.1 as u64)) | y.0, size))
        } else {
            None
        }
    } else if width_dependent(op) && !(word_width(size as u64) && w == size) {
        None
    } else {
        Some((mask(fold2(op, mask(x.0, w as nat), mask(y.0, w as nat), size), w as nat), w))
    }
}

/// Operators concrete execution evaluates.
pub open spec fn concrete_op(op: OpView) -> bool {
    match op {
        OpView::Const(_) | OpView::Reg(_) | OpView::Not | OpView::Neg | OpView::ZeroExtend
        | OpView::SignExtend | OpView::Slice(..) | OpView::Mem | OpView::Ite => true,
        OpView::Add | OpView::Sub | OpView::Or | OpView::And | OpView::Xor | OpView::Nand
        | OpView::Nor | OpView::Mul | OpView::Udiv | OpView::Sdiv | OpView::Urem | OpView::Srem
        | OpView::Ult | OpView::Slt | OpView::Ule | OpView::Sle | OpView::Equal | OpView::Ashr
        | OpView::Lshr | OpView::Shl | OpView::Concat => true,
        _ => false,
    }
}

/// Value of one element on concrete operand values, with its width.
pub open spec fn concrete_step(st: ConcreteState, a: Seq<Option<(u64, usize)>>, e: NodeView) -> Option<(u64, usize)> {
    let size = e.size;
    if op_arity(e.op) == 0 {
        match e.op {
            OpView::Const(x) => Some((mask(x, size as nat), size)),
            OpView::Reg(n) => if st.regs.contains_key(n) {
                Some((mask(st.regs[n], size as nat), size))
            } else {
                None
            },
            _ => None,
        }
    } else if op_arity(e.op) == 1 {
        match a[0] {
            None => None,
            Some(x) => match e.op {
                OpView::Not | OpView::Neg => Some((fold1(e.op, x.0, x.1), x.1)),
                OpView::ZeroExtend => Some((x.0, size)),
                OpView::SignExtend => if 1 <= x.1 <= 64 {
                    Some((sign_extend_spec(x.0, x.1, size), size))
                } else {
                    None
                },
                OpView::Slice(s, t) => if s <= t && s < 64 {
                    Some((slice_val_spec(x.0, s, t), size))
                } else {
                    None
                },
                OpView::Mem => match read_bytes(st.mem, x.0, (size / 8) as nat) {
                    Some(v) => Some((v, size)),
                    None => None,
                },
                _ => None,
            },
        }
    } else if op_arity(e.op) == 2 {
        match (a[0], a[1]) {
            (Some(x), Some(y)) => if concrete_op(e.op) {
                binary_value(e.op, x, y, size)
            } else {
                None
            },
            _ => None,
        }
    } else {
        match (a[0], a[1], a[2]) {
            (Some(c), Some(y), Some(z)) => if e.op is Ite {
                if c.0 != 0 {
                    Some(y)
                } else {
                    Some(z)
                }
            } else {
                None
            },
            _ => None,
        }
    }
}

pub open spec fn concrete_builder(st: ConcreteState) -> spec_fn(Seq<Option<(u64, usize)>>, NodeView) -> Option<(u64, usize)> {
    |a: Seq<Option<(u64, usize)>>, e: NodeView| concrete_step(st, a, e)
}

/// The value of an expression in a concrete state, if every operation is defined.
pub open spec fn concrete_value(st: ConcreteState, s: Seq<NodeView>) -> Option<(u64, usize)> {
    evaluate(s, concrete_builder(st))
}

/// Register bindings in order; a later binding of a name hides earlier ones.
pub open spec fn regs_map(v: Seq<(String, u64)>) -> Map<Seq<char>, u64>
    decreases v.len(),
{
    if v.len() == 0 {
        Map::empty()
    } else {
        regs_map(v.drop_last()).insert(v.last().0@, v.last().1)
    }
}

/// Executable state of concrete execution.
pub struct ConcreteMachine {
    pub regs: Vec<(String, u64)>,
    pub mem: HashMap<u64, u8>,
    pub alloc_base: u64,
}

impl ConcreteMachine {
    pub open spec fn state(&self) -> ConcreteState {
        ConcreteState { regs: regs_map(self.regs@), mem: self.mem@ }
    }

    pub fn new() -> (r: ConcreteMachine)
        ensures
            r.state() == (ConcreteState { regs: Map::empty(), mem: Map::empty() }),
            r.alloc_base == crate::emulator::ALLOC_BASE,
    {
        let r = ConcreteMachine { regs: Vec::new(), mem: HashMap::new(), alloc_base: crate::emulator::ALLOC_BASE };
        assert(r.mem@ =~= Map::<u64, u8>::empty());
        r
    }

    fn get_reg(&self, name: &str) -> (r: Option<u64>)
        ensures
            r == (if regs_map(self.regs@).contains_key(name@) {
                Some(regs_map(self.regs@)[name@])
            } else {
                None::<u64>
            }),
    {
        let mut i: usize = self.regs.len();
        assert(self.regs@.subrange(0, i as int) =~= self.regs@);
        while i > 0
            invariant
                i <= self.regs@.len(),
                regs_map(self.regs@).contains_key(name@) == regs_map(self.regs@.subrange(0, i as int)).contains_key(name@),
                regs_map(self.regs@).contains_key(name@) ==> regs_map(self.regs@)[name@] == regs_map(
                    self.regs@.subrange(0, i as int),
                )[name@],
            decreases i,
        {
            let ghost pre = self.regs@.subrange(0, i as int);
            assert(pre.drop_last() =~= self.regs@.subrange(0, i - 1));
            assert(pre.last() == self.regs@[i - 1]);
            if str_eq(self.regs[i - 1].0.as_str(), name) {
                return Some(self.regs[i - 1].1);
            }
            i -= 1;
        }
        assert(regs_map(self.regs@.subrange(0, 0)) == Map::<Seq<char>, u64>::empty());
        None
    }

    /// Binds register `name` to `v`.
    pub fn set_reg(&mut self, name: &str, v: u64)
        ensures
            final(self).state() == (ConcreteState { regs: old(self).state().regs.insert(name@, v), ..old(self).state() }),
            final(self).alloc_base == old(self).alloc_base,
    {
        let ghost before = self.regs@;
        self.regs.push((name.to_owned(), v));
        assert(self.regs@.drop_last() =~= before);
    }

    fn read_exec(&self, a: u64, count: u64) -> (r: Option<u64>)
        ensures
            r == read_bytes(self.mem@, a, count as nat),
    {
        let mut v: u64 = match self.mem.get(&a) {
            Some(b) => *b as u64,
            None => {
                proof {
                    if count >= 1 {
                        lemma_read_none(self.mem@, a, 1, count as nat);
                    }
                }
                return None;
            },
        };
        let mut i: u64 = 1;
        while i < count
            invariant
                1 <= i,
                i <= count || count <= 1,
                count <= 1 ==> i == 1,
                read_bytes(self.mem@, a, i as nat) == Some(v),
            decreases count - i,
        {
            if i >= 8 || a > u64::MAX - i {
                proof {
                    lemma_read_none(self.mem@, a, (i + 1) as nat, count as nat);
                }
                return None;
            }
            let b = match self.mem.get(&(a + i)) {
                Some(b) => *b,
                None => {
                    proof {
                        lemma_read_none(self.mem@, a, (i + 1) as nat, count as nat);
                    }
                    return None;
                },
            };
            v = ((b as u64) << (i * 8)) | v;
            i += 1;
        }
        assert(read_bytes(self.mem@, a, 0) == read_bytes(self.mem@, a, 1));
        Some(v)
    }

    fn step(&self, a: &Vec<Option<(u64, usize)>>, e: &LinearExpr) -> (r: Option<(u64, usize)>)
        requires
            a@.len() == op_arity(e@.op),
        ensures
            r == concrete_step(self.state(), a@, e@),
    {
        let size = e.size;
        let k = e.arity();
        if k == 0 {
            return match &e.op {
                LinearExprOp::Const(x) => Some((mask_to_size(*x, size), size)),
                LinearExprOp::Reg(n) => match self.get_reg(n.as_str()) {
                    Some(v) => Some((mask_to_size(v, size), size)),
                    None => None,
                },
                _ => None,
            };
        }
        if k == 1 {
            let x = match a[0] {
                Some(x) => x,
                None => {
                    return None;
                },
            };
            return match e.op {
                LinearExprOp::Not => {
                    let w = mask_to_size(x.0, x.1);
                    Some((mask_to_size(!w, x.1), x.1))
                },
                LinearExprOp::Neg => {
                    let w = mask_to_size(x.0, x.1);
                    Some((mask_to_size(0u64.wrapping_sub(w), x.1), x.1))
                },
                LinearExprOp::ZeroExtend => Some((x.0, size)),
                LinearExprOp::SignExtend => if 1 <= x.1 && x.1 <= 64 {
                    Some((sign_extend(x.0, x.1, size), size))
                } else {
                    None
                },
                LinearExprOp::Slice(s, t) => if s <= t && s < 64 {
                    Some((slice_val(x.0, s, t), size))
                } else {
                    None
                },
                LinearExprOp::Mem => match self.read_exec(x.0, (size / 8) as u64) {
                    Some(v) => Some((v, size)),
                    None => None,
                },
                _ => None,
            };
        }
        if k == 2 {
            return match (a[0], a[1]) {
                (Some(x), Some(y)) => binary_exec(&e.op, x, y, size),
                _ => None,
            };
        }
        match (a[0], a[1], a[2]) {
            (Some(c), Some(y), Some(z)) => if matches!(e.op, LinearExprOp::Ite) {
                if c.0 != 0 {
                    Some(y)
                } else {
                    Some(z)
                }
            } else {
                None
            },
            _ => None,
        }
    }

    /// The value of `expr` and its width, if every operation is defined.
    pub fn value_of(&self, expr: &LinearizedExpr) -> (r: Option<(u64, usize)>)
        requires
            well_formed(expr@),
        ensures
            r == concrete_value(self.state(), expr@),
    {
        let ghost step = concrete_builder(self.state());
        let mut stack: Vec<Option<(u64, usize)>> = Vec::new();
        let n = expr.0.len();
        let mut i: usize = 0;
        assert(stack@ =~= run_stack(expr@, 0, step));
        while i < n
            invariant
                n == expr@.len(),
                i <= n,
                well_formed(expr@),
                step == concrete_builder(self.state()),
                stack@ == run_stack(expr@, i as nat, step),
            decreases n - i,
        {
            proof {
                lemma_run_stack_len(expr@, i as nat, step);
                let ii = i as int;
                assert(height(expr@, ii as nat) >= op_arity(expr@[ii].op));
            }
            let e = &expr.0[i];
            assert(e@ == expr@[i as int]);
            let k = e.arity();
            let ghost st = stack@;
            let mut args: Vec<Option<(u64, usize)>> = Vec::new();
            let mut t: usize = 0;
            while t < k
                invariant
                    t <= k,
                    k <= st.len(),
                    stack@ == st.subrange(0, st.len() - t),
                    args@ == st.subrange(st.len() - t, st.len() as int).reverse(),
                decreases k - t,
            {
                let x = stack.pop().unwrap();
                args.push(x);
                t += 1;
                assert(stack@ =~= st.subrange(0, st.len() - t));
                assert(args@ =~= st.subrange(st.len() - t, st.len() as int).reverse());
            }
            let mut ordered: Vec<Option<(u64, usize)>> = Vec::new();
            let mut q: usize = k;
            while q > 0
                invariant
                    q <= k,
                    args@.len() == k,
                    ordered@ == args@.subrange(q as int, k as int).reverse(),
                decreases q,
            {
                q -= 1;
                ordered.push(args[q]);
                assert(ordered@ =~= args@.subrange(q as int, k as int).reverse());
            }
            assert(ordered@ =~= st.subrange(st.len() - k, st.len() as int));
            let res = self.step(&ordered, e);
            stack.push(res);
            proof {
                assert(stack@ =~= st.subrange(0, st.len() - k).push(res));
            }
            i += 1;
        }
        proof {
            lemma_run_stack_len(expr@, n as nat, step);
        }
        stack.pop().unwrap()
    }
}

proof fn lemma_read_none(mem: Map<u64, u8>, a: u64, i: nat, n: nat)
    requires
        1 <= i <= n,
        read_bytes(mem, a, i) is None,
    ensures
        read_bytes(mem, a, n) is None,
    decreases n - i,
{
    if i < n {
        lemma_read_none(mem, a, i, (n - 1) as nat);
    }
}

fn binary_exec(op: &LinearExprOp, x: (u64, usize), y: (u64, usize), size: usize) -> (r: Option<(u64, usize)>)
    requires
        op_arity(op@) == 2,
    ensures
        r == (if concrete_op(op@) {
            binary_value(op@, x, y, size)
        } else {
            None
        }),
{
    if !matches!(op, LinearExprOp::Add | LinearExprOp::Sub | LinearExprOp::Or | LinearExprOp::And
        | LinearExprOp::Xor | LinearExprOp::Nand | LinearExprOp::Nor | LinearExprOp::Mul
        | LinearExprOp::Udiv | LinearExprOp::Sdiv | LinearExprOp::Urem | LinearExprOp::Srem
        | LinearExprOp::Ult | LinearExprOp::Slt | LinearExprOp::Ule | LinearExprOp::Sle
        | LinearExprOp::Equal | LinearExprOp::Ashr | LinearExprOp::Lshr | LinearExprOp::Shl
        | LinearExprOp::Concat) {
        return None;
    }
    if matches!(op, LinearExprOp::Concat) {
        if y.1 < 64 {
            return Some(((x.0 << (y.1 as u64)) | y.0, size));
        }
        return None;
    }
    let w = x.1;
    let dependent = matches!(op, LinearExprOp::Srem | LinearExprOp::Sdiv | LinearExprOp::Slt
        | LinearExprOp::Sle | LinearExprOp::Ashr | LinearExprOp::Lshr | LinearExprOp::Shl);
    if dependent && !((size == 8 || size == 16 || size == 32 || size == 64) && w == size) {
        return None;
    }
    let a = mask_to_size(x.0, w);
    let b = mask_to_size(y.0, w);
    proof {
        crate::bit_vecs::lemma_mask_idempotent(y.0, w as nat);
    }
    let v = crate::simplify::fold2_exec(op, a, b, size);
    Some((mask_to_size(v, w), w))
}

/// One lifted assignment: an allocation binds its destination to the
/// next allocation address after zeroing the bytes; a store to memory writes the low bytes
/// of the value from the evaluated address on; otherwise the destination register gets
/// the value. `None` where a value is undefined.
pub open spec fn exec_assignment(st: ConcreteState, base: u64, a: Assignment) -> Option<(ConcreteState, u64)> {
    let lhs = a.lhs@;
    let rhs = a.rhs@;
    if rhs.len() > 0 && rhs.last().op is Alloc {
        let c = rhs.last().op->Alloc_0;
        if lhs.len() == 1 && lhs[0].op is Reg && base + c <= u64::MAX {
            match crate::emulator::alloc_fill(st.mem, base, c as nat) {
                Some(m) => Some((
                    ConcreteState { regs: st.regs.insert(lhs[0].op->Reg_0, mask(base, a.size as nat)), mem: m },
                    (base + c) as u64,
                )),
                None => None,
            }
        } else {
            None
        }
    } else if lhs.len() > 0 && lhs.last().op is Mem {
        match (concrete_value(st, lhs.drop_last()), concrete_value(st, rhs)) {
            (Some(ad), Some(v)) => match crate::emulator::store_bytes(st.mem, ad.0, v.0, (a.size / 8) as nat) {
                Some(m) => Some((ConcreteState { mem: m, ..st }, base)),
                None => None,
            },
            _ => None,
        }
    } else if lhs.len() == 1 && lhs[0].op is Reg {
        match concrete_value(st, rhs) {
            Some(v) => Some((ConcreteState { regs: st.regs.insert(lhs[0].op->Reg_0, v.0), ..st }, base)),
            None => None,
        }
    } else {
        None
    }
}

/// The state after the first `n` assignments.
pub open spec fn exec_all(st: ConcreteState, base: u64, v: Seq<Assignment>, n: nat) -> Option<(ConcreteState, u64)>
    decreases n,
{
    if n == 0 {
        Some((st, base))
    } else {
        match exec_all(st, base, v, (n - 1) as nat) {
            None => None,
            Some((s, b)) => exec_assignment(s, b, v[n - 1]),
        }
    }
}

/// Assignments whose expressions are well formed.
pub open spec fn runnable(v: Seq<Assignment>) -> bool {
    forall|i: int|
        0 <= i < v.len() ==> well_formed(#[trigger] v[i].rhs@) && (v[i].lhs@.len() > 0 && v[i].lhs@.last().op is Mem
            ==> well_formed(v[i].lhs@.drop_last()))
}

/// The output of running `constraints` then `assignments` from an empty machine: the
/// value of the last assignment's destination register.
pub open spec fn emulation_result(assignments: Seq<Assignment>, constraints: Seq<Assignment>) -> Option<u64> {
    let start = ConcreteState { regs: Map::empty(), mem: Map::empty() };
    match exec_all(start, crate::emulator::ALLOC_BASE, constraints + assignments, (constraints + assignments).len()) {
        None => None,
        Some((s, _)) => {
            let out = assignments.last().lhs@;
            if assignments.len() > 0 && out.len() == 1 && out[0].op is Reg && s.regs.contains_key(out[0].op->Reg_0) {
                Some(s.regs[out[0].op->Reg_0])
            } else {
                None
            }
        },
    }
}

proof fn lemma_exec_none(st: ConcreteState, base: u64, v: Seq<Assignment>, i: nat, n: nat)
    requires
        i <= n,
        exec_all(st, base, v, i) is None,
    ensures
        exec_all(st, base, v, n) is None,
    decreases n - i,
{
    if i < n {
        lemma_exec_none(st, base, v, i, (n - 1) as nat);
    }
}

impl ConcreteMachine {
    /// Executes one assignment; `false` where a value is undefined.
    pub fn exec_assignment(&mut self, a: &Assignment) -> (ok: bool)
        requires
            well_formed(a.rhs@),
            a.lhs@.len() > 0 && a.lhs@.last().op is Mem ==> well_formed(a.lhs@.drop_last()),
        ensures
            ok == exec_assignment(old(self).state(), old(self).alloc_base, *a) is Some,
            ok ==> exec_assignment(old(self).state(), old(self).alloc_base, *a) == Some(
                (final(self).state(), final(self).alloc_base),
            ),
    {
        if a.rhs.len() > 0 {
            if let LinearExprOp::Alloc(c) = a.rhs.op().op {
                if !(a.lhs.len() == 1 && a.lhs.is_var()) || self.alloc_base > u64::MAX - c {
                    return false;
                }
                if !crate::emulator::alloc_exec(&mut self.mem, self.alloc_base, c) {
                    return false;
                }
                let v = mask_to_size(self.alloc_base, a.size);
                self.set_reg(a.lhs.get_var_name(), v);
                self.alloc_base = self.alloc_base + c;
                return true;
            }
        }
        if a.lhs.len() > 0 && matches!(a.lhs.op().op, LinearExprOp::Mem) {
            let address = a.lhs.get_expression_slice(0, a.lhs.len() - 1);
            assert(address@ =~= a.lhs@.drop_last());
            let ad = self.value_of(&address);
            let v = self.value_of(&a.rhs);
            return match (ad, v) {
                (Some(ad), Some(v)) => crate::emulator::store_exec(&mut self.mem, ad.0, v.0, (a.size / 8) as u64),
                _ => false,
            };
        }
        if a.lhs.len() == 1 && a.lhs.is_var() {
            return match self.value_of(&a.rhs) {
                Some(v) => {
                    self.set_reg(a.lhs.get_var_name(), v.0);
                    true
                },
                None => false,
            };
        }
        false
    }
}

/// The second executor: runs the lifted assignments on the inputs that `constraints`
/// bind (registers and memory) and returns the output register's value.
pub struct InputEmulator {}

impl InputEmulator {
    pub fn emulate(assignments: &Vec<Assignment>, constraints: &Vec<Assignment>) -> (r: Option<u64>)
        requires
            constraints@.len() + assignments@.len() <= usize::MAX,
            runnable(assignments@),
            runnable(constraints@),
        ensures
            r == emulation_result(assignments@, constraints@),
    {
        let ghost all = constraints@ + assignments@;
        let mut m = ConcreteMachine::new();
        let ghost start = m.state();
        let n = constraints.len() + assignments.len();
        let mut i: usize = 0;
        while i < n
            invariant
                all == constraints@ + assignments@,
                n == all.len(),
                i <= n,
                runnable(assignments@),
                runnable(constraints@),
                start == (ConcreteState { regs: Map::empty(), mem: Map::empty() }),
                exec_all(start, crate::emulator::ALLOC_BASE, all, i as nat) == Some((m.state(), m.alloc_base)),
            decreases n - i,
        {
            let a = if i < constraints.len() {
                &constraints[i]
            } else {
                &assignments[i - constraints.len()]
            };
            assert(*a == all[i as int]);
            if !m.exec_assignment(a) {
                proof {
                    lemma_exec_none(start, crate::emulator::ALLOC_BASE, all, (i + 1) as nat, n as nat);
                }
                return None;
            }
            i += 1;
        }
        if assignments.len() == 0 {
            return None;
        }
        let out = &assignments[assignments.len() - 1].lhs;
        if !(out.len() == 1 && out.is_var()) {
            return None;
        }
        m.get_reg(out.get_var_name())
    }
}

/// Runs both executors on one input and compares their outputs.
pub fn verify_once(
    alu_semantics: &HashMap<usize, LinearizedExpr>,
    bytecode: &[u8],
    vm_arguments: &Vec<(u16, u64)>,
    memory_bytes: &HashMap<usize, Vec<u64>>,
    assignments: &Vec<Assignment>,
    constraints: &Vec<Assignment>,
) -> (r: bool)
    requires
        forall|k: usize| #[trigger] alu_semantics@.contains_key(k) ==> crate::simplify::good(alu_semantics@[k]@, false),
        bytecode@.len() % 24 == 0,
        constraints@.len() + assignments@.len() <= usize::MAX,
        runnable(assignments@),
        runnable(constraints@),
    ensures
        r == (emulation_result(assignments@, constraints@) == crate::emulator::emulation(
            crate::emulator::handler_view(alu_semantics@),
            bytecode@,
            vm_arguments@,
            crate::emulator::bytes_view(memory_bytes@),
        )),
{
    let input = InputEmulator::emulate(assignments, constraints);
    let vm = crate::emulator::emulate(alu_semantics, bytecode, vm_arguments, memory_bytes);
    input == vm
}

/// The verification protocol: for every input (argument registers, memory contents and
/// the matching bindings of the lifted program), both executors agree.
pub fn verify_transformation(
    alu_semantics: &HashMap<usize, LinearizedExpr>,
    bytecode: &[u8],
    vm_arguments: &Vec<Vec<(u16, u64)>>,
    memory_bytes: &Vec<HashMap<usize, Vec<u64>>>,
    assignments: &Vec<Assignment>,
    constraints: &Vec<Vec<Assignment>>,
) -> (r: bool)
    requires
        forall|k: usize| #[trigger] alu_semantics@.contains_key(k) ==> crate::simplify::good(alu_semantics@[k]@, false),
        bytecode@.len() % 24 == 0,
        vm_arguments@.len() == memory_bytes@.len(),
        vm_arguments@.len() == constraints@.len(),
        runnable(assignments@),
        forall|i: int| 0 <= i < constraints@.len() ==> runnable(#[trigger] constraints@[i]@),
        forall|i: int| 0 <= i < constraints@.len() ==> (#[trigger] constraints@[i]@).len() + assignments@.len() <= usize::MAX,
    ensures
        r == forall|i: int|
            0 <= i < constraints@.len() ==> emulation_result(assignments@, #[trigger] constraints@[i]@)
                == crate::emulator::emulation(
                crate::emulator::handler_view(alu_semantics@),
                bytecode@,
                vm_arguments@[i]@,
                crate::emulator::bytes_view(memory_bytes@[i]@),
            ),
{
    let mut i: usize = 0;
    while i < constraints.len()
        invariant
            i <= constraints@.len(),
            bytecode@.len() % 24 == 0,
            runnable(assignments@),
            forall|k: usize| #[trigger] alu_semantics@.contains_key(k) ==> crate::simplify::good(alu_semantics@[k]@, false),
            vm_arguments@.len() == constraints@.len(),
            vm_arguments@.len() == memory_bytes@.len(),
            forall|t: int| 0 <= t < constraints@.len() ==> runnable(#[trigger] constraints@[t]@),
            forall|t: int| 0 <= t < constraints@.len() ==> (#[trigger] constraints@[t]@).len() + assignments@.len() <= usize::MAX,
            forall|t: int|
                0 <= t < i ==> emulation_result(assignments@, #[trigger] constraints@[t]@)
                    == crate::emulator::emulation(
                    crate::emulator::handler_view(alu_semantics@),
                    bytecode@,
                    vm_arguments@[t]@,
                    crate::emulator::bytes_view(memory_bytes@[t]@),
                ),
        decreases constraints@.len() - i,
    {
        assert(runnable(constraints@[i as int]@));
        assert(constraints@[i as int]@.len() + assignments@.len() <= usize::MAX);
        if !verify_once(alu_semantics, bytecode, &vm_arguments[i], &memory_bytes[i], assignments, &constraints[i]) {
            return false;
        }
        i += 1;
    }
    true
}

} // verus!
