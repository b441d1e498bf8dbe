//! Concrete execution of bytecode: registers, byte-addressed memory, the memory handler
//! and the arithmetic handlers evaluated on constants.
use crate::bit_vecs::{slice_val, slice_val_spec};
use crate::bytecode::{decode_instruction, decoding, InstructionFields, INSTRUCTION_LEN};
use crate::evaluator::replaced;
use crate::expr::{node, LinearizedExpr, NodeView, OpView};
use crate::expression_utils::{const_leaf, constant64, reg};
use crate::simplify::{cval, good, is_const, simplified};
use crate::thwart::lemma_good_replaced;
use std::collections::HashMap;
use vstd::slice::slice_subrange;
use vstd::prelude::*;

verus! {

broadcast use vstd::std_specs::hash::group_hash_axioms;

/// Registers, memory and the next allocation address of the virtual machine.
pub struct VmState {
    pub regs: Map<u16, u64>,
    pub mem: Map<u64, u8>,
    pub alloc_base: u64,
}

/// First address handed out by allocations.
pub const ALLOC_BASE: u64 = 0x800;

/// A 64-bit register leaf named by one character.
pub open spec fn operand_reg(c: char) -> Seq<NodeView> {
    seq![node(OpView::Reg(seq![c]), 64)]
}

/// `h` with its operands `x`, `y`, the immediate `c` and the key `k` bound to constants.
pub open spec fn bind_operands(h: Seq<NodeView>, x: u64, y: u64, c: u64, k: u64) -> Seq<NodeView> {
    replaced(
        replaced(
            replaced(replaced(h, operand_reg('x'), const_leaf(x, 64)), operand_reg('y'), const_leaf(y, 64)),
            operand_reg('c'),
            const_leaf(c, 64),
        ),
        operand_reg('k'),
        const_leaf(k, 64),
    )
}

/// The value of a handler on concrete operands, when it simplifies to a constant.
pub open spec fn eval_handler(h: Seq<NodeView>, x: u64, y: u64, c: u64, k: u64) -> Option<u64> {
    let s = simplified(bind_operands(h, x, y, c, k));
    if is_const(s) {
        Some(cval(s))
    } else {
        None
    }
}

/// The little-endian value of bytes `a .. a + max(count, 1)`.
pub open spec fn load_value(mem: Map<u64, u8>, a: u64, count: nat) -> Option<u64>
    decreases count,
{
    if count <= 1 {
        if mem.contains_key(a) {
            Some(mem[a] as u64)
        } else {
            None
        }
    } else {
        match load_value(mem, a, (count - 1) as nat) {
            None => None,
            Some(v) => {
                let i = (count - 1) as nat;
                if i >= 8 || a + i > u64::MAX || !mem.contains_key((a + i) as u64) {
                    None
                } else {
                    Some(((mem[(a + i) as u64] as u64) << ((i * 8) as u64)) | v)
                }
            },
        }
    }
}

/// Memory after storing the `count` low bytes of `v` from address `a` on.
pub open spec fn store_bytes(mem: Map<u64, u8>, a: u64, v: u64, count: nat) -> Option<Map<u64, u8>>
    decreases count,
{
    if count == 0 {
        Some(mem)
    } else {
        match store_bytes(mem, a, v, (count - 1) as nat) {
            None => None,
            Some(m) => {
                let i = (count - 1) as nat;
                if i >= 8 || a + i > u64::MAX {
                    None
                } else {
                    Some(m.insert((a + i) as u64, slice_val_spec(v, (i * 8) as u8, (i * 8 + 7) as u8) as u8))
                }
            },
        }
    }
}

/// Memory after zeroing `count` bytes from `base` on.
pub open spec fn alloc_fill(mem: Map<u64, u8>, base: u64, count: nat) -> Option<Map<u64, u8>>
    decreases count,
{
    if count == 0 {
        Some(mem)
    } else {
        match alloc_fill(mem, base, (count - 1) as nat) {
            None => None,
            Some(m) => if base + (count - 1) > u64::MAX {
                None
            } else {
                Some(m.insert((base + (count - 1)) as u64, 0u8))
            },
        }
    }
}

/// The operand values an instruction reads: register 1 stands for "no operand".
pub open spec fn operands(regs: Map<u16, u64>, r1: u16, r2: u16) -> Option<(u64, u64)> {
    if r1 == 1 && r2 == 1 {
        Some((0, 0))
    } else if r2 == 1 {
        if regs.contains_key(r1) {
            Some((regs[r1], 0))
        } else {
            None
        }
    } else if regs.contains_key(r1) && regs.contains_key(r2) {
        Some((regs[r1], regs[r2]))
    } else {
        None
    }
}

/// One instruction; `None` where the machine cannot go on.
pub open spec fn vm_step(st: VmState, f: InstructionFields, handlers: Map<usize, Seq<NodeView>>) -> Option<
    VmState,
> {
    let (alu, r0, r1, r2, c, key) = f;
    match operands(st.regs, r1, r2) {
        None => None,
        Some(ops) => if alu == 0 {
            None
        } else if alu == 1 {
            if key == 0 {
                if !st.regs.contains_key(r1) {
                    None
                } else {
                    match load_value(st.mem, st.regs[r1], (c / 8) as nat) {
                        None => None,
                        Some(v) => Some(VmState { regs: st.regs.insert(r0, v), ..st }),
                    }
                }
            } else if key == 1 {
                if !st.regs.contains_key(r1) || !st.regs.contains_key(r2) {
                    None
                } else {
                    match store_bytes(st.mem, st.regs[r1], st.regs[r2], (c / 8) as nat) {
                        None => None,
                        Some(m) => Some(VmState { regs: st.regs.insert(r0, st.regs[r2]), mem: m, ..st }),
                    }
                }
            } else if key == 2 {
                match alloc_fill(st.mem, st.alloc_base, c as nat) {
                    None => None,
                    Some(m) => if st.alloc_base + c > u64::MAX {
                        None
                    } else {
                        Some(
                            VmState {
                                regs: st.regs.insert(r0, st.alloc_base),
                                mem: m,
                                alloc_base: (st.alloc_base + c) as u64,
                            },
                        )
                    },
                }
            } else {
                None
            }
        } else if !handlers.contains_key(alu as usize) {
            None
        } else {
            match eval_handler(handlers[alu as usize], ops.0, ops.1, c, key) {
                None => None,
                Some(v) => Some(VmState { regs: st.regs.insert(r0, v), ..st }),
            }
        },
    }
}

/// The state after the first `n` records of `code`.
pub open spec fn vm_run(st: VmState, code: Seq<u8>, n: nat, handlers: Map<usize, Seq<NodeView>>) -> Option<
    VmState,
>
    decreases n,
{
    if n == 0 {
        Some(st)
    } else {
        match vm_run(st, code, (n - 1) as nat, handlers) {
            None => None,
            Some(s) => vm_step(
                s,
                decoding(code.subrange((n - 1) * 24, (n * 24) as int)),
                handlers,
            ),
        }
    }
}

/// Memory with the bytes of `bytes` (truncated to 8 bits) stored from `base` on.
pub open spec fn init_mem(mem: Map<u64, u8>, base: u64, bytes: Seq<u64>, k: nat) -> Option<
    Map<u64, u8>,
>
    decreases k,
{
    if k == 0 {
        Some(mem)
    } else {
        match init_mem(mem, base, bytes, (k - 1) as nat) {
            None => None,
            Some(m) => if base + (k - 1) > u64::MAX {
                None
            } else {
                Some(m.insert((base + (k - 1)) as u64, bytes[k - 1] as u8))
            },
        }
    }
}

/// The machine after loading the first `n` arguments: each argument's register gets its
/// value, and the memory it points to gets the argument's bytes.
pub open spec fn init_state(args: Seq<(u16, u64)>, mb: Map<usize, Seq<u64>>, n: nat) -> Option<
    VmState,
>
    decreases n,
{
    if n == 0 {
        Some(VmState { regs: Map::empty(), mem: Map::empty(), alloc_base: ALLOC_BASE })
    } else {
        match init_state(args, mb, (n - 1) as nat) {
            None => None,
            Some(st) => {
                let r = args[n - 1].0;
                let v = args[n - 1].1;
                let i = (n - 1) as usize;
                if !mb.contains_key(i) {
                    None
                } else {
                    match init_mem(st.mem, v, mb[i], mb[i].len()) {
                        None => None,
                        Some(m) => Some(VmState { regs: st.regs.insert(r, v), mem: m, ..st }),
                    }
                }
            },
        }
    }
}

/// The handler table as expressions of the model.
pub open spec fn handler_view(h: Map<usize, LinearizedExpr>) -> Map<usize, Seq<NodeView>> {
    h.map_values(|e: LinearizedExpr| e@)
}

/// The output register after running the whole program, when the run completes.
pub open spec fn emulation(
    handlers: Map<usize, Seq<NodeView>>,
    code: Seq<u8>,
    args: Seq<(u16, u64)>,
    mb: Map<usize, Seq<u64>>,
) -> Option<u64> {
    match init_state(args, mb, args.len()) {
        None => None,
        Some(st) => match vm_run(st, code, code.len() / 24, handlers) {
            None => None,
            Some(f) => if f.regs.contains_key(0) {
                Some(f.regs[0])
            } else {
                None
            },
        },
    }
}

/// The register leaf `name` of width 64.
fn operand_register(name: &str, c: char) -> (r: LinearizedExpr)
    requires
        name@ == seq![c],
    ensures
        r@ == operand_reg(c),
{
    let r = reg(name, 64);
    assert(r@ =~= operand_reg(c));
    r
}

fn bind_one(e: LinearizedExpr, name: &str, c: char, v: u64) -> (r: LinearizedExpr)
    requires
        name@ == seq![c],
        good(e@, false),
    ensures
        r@ == replaced(e@, operand_reg(c), const_leaf(v, 64)),
        good(r@, false),
{
    let mut e = e;
    proof {
        lemma_good_replaced(e@, operand_reg(c), v);
    }
    e.replace_subexpr(&operand_register(name, c), &constant64(v));
    e
}

/// Evaluates a handler on concrete operands, immediate and key.
pub fn eval_alu(expr: &LinearizedExpr, x: u64, y: u64, c: u64, k: u64) -> (r: Option<u64>)
    requires
        good(expr@, false),
    ensures
        r == eval_handler(expr@, x, y, c, k),
{
    proof {
        reveal_strlit("x");
        reveal_strlit("y");
        reveal_strlit("c");
        reveal_strlit("k");
        assert("x"@ =~= seq!['x']);
        assert("y"@ =~= seq!['y']);
        assert("c"@ =~= seq!['c']);
        assert("k"@ =~= seq!['k']);
    }
    let e = bind_one(expr.clone(), "x", 'x', x);
    let e = bind_one(e, "y", 'y', y);
    let e = bind_one(e, "c", 'c', c);
    let e = bind_one(e, "k", 'k', k);
    let s = e.simplify();
    if s.is_constant() {
        Some(s.get_constant_val())
    } else {
        None
    }
}

proof fn lemma_load_none(mem: Map<u64, u8>, a: u64, i: nat, n: nat)
    requires
        1 <= i <= n,
        load_value(mem, a, i) is None,
    ensures
        load_value(mem, a, n) is None,
    decreases n - i,
{
    if i < n {
        lemma_load_none(mem, a, i, (n - 1) as nat);
    }
}

proof fn lemma_store_none(mem: Map<u64, u8>, a: u64, v: u64, i: nat, n: nat)
    requires
        i <= n,
        store_bytes(mem, a, v, i) is None,
    ensures
        store_bytes(mem, a, v, n) is None,
    decreases n - i,
{
    if i < n {
        lemma_store_none(mem, a, v, i, (n - 1) as nat);
    }
}

proof fn lemma_alloc_none(mem: Map<u64, u8>, base: u64, i: nat, n: nat)
    requires
        i <= n,
        alloc_fill(mem, base, i) is None,
    ensures
        alloc_fill(mem, base, n) is None,
    decreases n - i,
{
    if i < n {
        lemma_alloc_none(mem, base, i, (n - 1) as nat);
    }
}

fn load_exec(mem: &HashMap<u64, u8>, a: u64, count: u64) -> (r: Option<u64>)
    ensures
        r == load_value(mem@, a, count as nat),
{
    let mut v: u64 = match mem.get(&a) {
        Some(b) => *b as u64,
        None => {
            proof {
                if count >= 1 {
                    lemma_load_none(mem@, a, 1, count as nat);
                }
            }
            return None;
        },
    };
    let mut i: u64 = 1;
    while i < count
        invariant
            1 <= i,
            i <= count || count <= 1,
            count <= 1 ==> i == 1,
            load_value(mem@, a, i as nat) == Some(v),
        decreases count - i,
    {
        if i >= 8 || a > u64::MAX - i {
            proof {
                lemma_load_none(mem@, a, (i + 1) as nat, count as nat);
            }
            return None;
        }
        let b = match mem.get(&(a + i)) {
            Some(b) => *b,
            None => {
                proof {
                    lemma_load_none(mem@, a, (i + 1) as nat, count as nat);
                }
                return None;
            },
        };
        v = ((b as u64) << (i * 8)) | v;
        i += 1;
    }
    assert(load_value(mem@, a, 0) == load_value(mem@, a, 1));
    Some(v)
}

pub(crate) fn store_exec(mem: &mut HashMap<u64, u8>, a: u64, v: u64, count: u64) -> (r: bool)
    ensures
        r == store_bytes(old(mem)@, a, v, count as nat) is Some,
        r ==> final(mem)@ == store_bytes(old(mem)@, a, v, count as nat)->Some_0,
{
    let mut i: u64 = 0;
    while i < count
        invariant
            i <= count,
            store_bytes(old(mem)@, a, v, i as nat) == Some(mem@),
        decreases count - i,
    {
        if i >= 8 || a > u64::MAX - i {
            proof {
                lemma_store_none(old(mem)@, a, v, (i + 1) as nat, count as nat);
            }
            return false;
        }
        let byte = slice_val(v, (i * 8) as u8, (i * 8 + 7) as u8) as u8;
        mem.insert(a + i, byte);
        i += 1;
    }
    true
}

pub(crate) fn alloc_exec(mem: &mut HashMap<u64, u8>, base: u64, count: u64) -> (r: bool)
    ensures
        r == alloc_fill(old(mem)@, base, count as nat) is Some,
        r ==> final(mem)@ == alloc_fill(old(mem)@, base, count as nat)->Some_0,
{
    let mut i: u64 = 0;
    while i < count
        invariant
            i <= count,
            alloc_fill(old(mem)@, base, i as nat) == Some(mem@),
        decreases count - i,
    {
        if base > u64::MAX - i {
            proof {
                lemma_alloc_none(old(mem)@, base, (i + 1) as nat, count as nat);
            }
            return false;
        }
        mem.insert(base + i, 0);
        i += 1;
    }
    true
}

fn get_reg(regs: &HashMap<u16, u64>, r: u16) -> (o: Option<u64>)
    ensures
        o == if regs@.contains_key(r) {
            Some(regs@[r])
        } else {
            None::<u64>
        },
{
    match regs.get(&r) {
        Some(v) => Some(*v),
        None => None,
    }
}

fn operands_exec(regs: &HashMap<u16, u64>, r1: u16, r2: u16) -> (o: Option<(u64, u64)>)
    ensures
        o == operands(regs@, r1, r2),
{
    if r1 == 1 && r2 == 1 {
        return Some((0, 0));
    }
    let a = get_reg(regs, r1);
    if r2 == 1 {
        return match a {
            Some(v) => Some((v, 0)),
            None => None,
        };
    }
    let b = get_reg(regs, r2);
    match (a, b) {
        (Some(v), Some(w)) => Some((v, w)),
        _ => None,
    }
}

/// Executes one record; `false` where the machine cannot go on.
fn step_exec(
    regs: &mut HashMap<u16, u64>,
    mem: &mut HashMap<u64, u8>,
    alloc_base: &mut u64,
    f: InstructionFields,
    handlers: &HashMap<usize, LinearizedExpr>,
) -> (ok: bool)
    requires
        forall|k: usize| #[trigger] handlers@.contains_key(k) ==> good(handlers@[k]@, false),
    ensures
        ok == vm_step(
            VmState { regs: old(regs)@, mem: old(mem)@, alloc_base: *old(alloc_base) },
            f,
            handler_view(handlers@),
        ) is Some,
        ok ==> vm_step(
            VmState { regs: old(regs)@, mem: old(mem)@, alloc_base: *old(alloc_base) },
            f,
            handler_view(handlers@),
        ) == Some(VmState { regs: final(regs)@, mem: final(mem)@, alloc_base: *final(alloc_base) }),
{
    let (alu, r0, r1, r2, c, key) = f;
    let ops = match operands_exec(regs, r1, r2) {
        Some(o) => o,
        None => {
            return false;
        },
    };
    if alu == 0 {
        return false;
    }
    if alu == 1 {
        if key == 0 {
            let a = match get_reg(regs, r1) {
                Some(a) => a,
                None => {
                    return false;
                },
            };
            match load_exec(mem, a, c / 8) {
                Some(v) => {
                    regs.insert(r0, v);
                    return true;
                },
                None => {
                    return false;
                },
            }
        } else if key == 1 {
            let (a, v) = match (get_reg(regs, r1), get_reg(regs, r2)) {
                (Some(a), Some(v)) => (a, v),
                _ => {
                    return false;
                },
            };
            if !store_exec(mem, a, v, c / 8) {
                return false;
            }
            regs.insert(r0, v);
            return true;
        } else if key == 2 {
            if !alloc_exec(mem, *alloc_base, c) {
                return false;
            }
            if *alloc_base > u64::MAX - c {
                return false;
            }
            regs.insert(r0, *alloc_base);
            *alloc_base = *alloc_base + c;
            return true;
        } else {
            return false;
        }
    }
    let h = match handlers.get(&(alu as usize)) {
        Some(h) => h,
        None => {
            assert(!handler_view(handlers@).contains_key(alu as usize));
            return false;
        },
    };
    assert(handlers@.contains_key(alu as usize));
    assert(handler_view(handlers@)[alu as usize] == h@);
    match eval_alu(h, ops.0, ops.1, c, key) {
        Some(v) => {
            regs.insert(r0, v);
            true
        },
        None => false,
    }
}

fn init_mem_exec(mem: &mut HashMap<u64, u8>, base: u64, bytes: &Vec<u64>) -> (ok: bool)
    ensures
        ok == init_mem(old(mem)@, base, bytes@, bytes@.len()) is Some,
        ok ==> final(mem)@ == init_mem(old(mem)@, base, bytes@, bytes@.len())->Some_0,
{
    let n = bytes.len();
    let mut i: usize = 0;
    while i < n
        invariant
            n == bytes@.len(),
            i <= n,
            init_mem(old(mem)@, base, bytes@, i as nat) == Some(mem@),
        decreases n - i,
    {
        if base > u64::MAX - (i as u64) {
            proof {
                lemma_init_mem_none(old(mem)@, base, bytes@, (i + 1) as nat, n as nat);
            }
            return false;
        }
        mem.insert(base + i as u64, bytes[i] as u8);
        i += 1;
    }
    true
}

proof fn lemma_init_mem_none(mem: Map<u64, u8>, base: u64, bytes: Seq<u64>, i: nat, n: nat)
    requires
        i <= n,
        init_mem(mem, base, bytes, i) is None,
    ensures
        init_mem(mem, base, bytes, n) is None,
    decreases n - i,
{
    if i < n {
        lemma_init_mem_none(mem, base, bytes, i, (n - 1) as nat);
    }
}

proof fn lemma_init_none(args: Seq<(u16, u64)>, mb: Map<usize, Seq<u64>>, i: nat, n: nat)
    requires
        i <= n,
        init_state(args, mb, i) is None,
    ensures
        init_state(args, mb, n) is None,
    decreases n - i,
{
    if i < n {
        lemma_init_none(args, mb, i, (n - 1) as nat);
    }
}

proof fn lemma_run_none(
    st: VmState,
    code: Seq<u8>,
    i: nat,
    n: nat,
    handlers: Map<usize, Seq<NodeView>>,
)
    requires
        i <= n,
        vm_run(st, code, i, handlers) is None,
    ensures
        vm_run(st, code, n, handlers) is None,
    decreases n - i,
{
    if i < n {
        lemma_run_none(st, code, i, (n - 1) as nat, handlers);
    }
}

/// The models of the memory contents handed to the arguments.
pub open spec fn bytes_view(m: Map<usize, Vec<u64>>) -> Map<usize, Seq<u64>> {
    m.map_values(|v: Vec<u64>| v@)
}

/// Runs the program on the given argument registers and memory; `None` where the
/// machine cannot go on (a missing register, handler or memory byte, an unknown memory
/// operation, an address that overflows, a handler that does not reduce to a constant).
pub fn emulate(
    alu_semantics: &HashMap<usize, LinearizedExpr>,
    bytecode: &[u8],
    arguments: &Vec<(u16, u64)>,
    memory_bytes: &HashMap<usize, Vec<u64>>,
) -> (r: Option<u64>)
    requires
        forall|k: usize| #[trigger] alu_semantics@.contains_key(k) ==> good(alu_semantics@[k]@, false),
        bytecode@.len() % 24 == 0,
    ensures
        r == emulation(handler_view(alu_semantics@), bytecode@, arguments@, bytes_view(memory_bytes@)),
{
    let ghost mb = bytes_view(memory_bytes@);
    let ghost hv = handler_view(alu_semantics@);
    let mut regs: HashMap<u16, u64> = HashMap::new();
    let mut mem: HashMap<u64, u8> = HashMap::new();
    let mut alloc_base: u64 = ALLOC_BASE;
    let n = arguments.len();
    let mut i: usize = 0;
    proof {
        assert(regs@ =~= Map::<u16, u64>::empty());
        assert(mem@ =~= Map::<u64, u8>::empty());
    }
    while i < n
        invariant
            n == arguments@.len(),
            i <= n,
            mb == bytes_view(memory_bytes@),
            init_state(arguments@, mb, i as nat) == Some(
                VmState { regs: regs@, mem: mem@, alloc_base },
            ),
        decreases n - i,
    {
        let (r, v) = arguments[i];
        let bytes = match memory_bytes.get(&i) {
            Some(b) => b,
            None => {
                proof {
                    assert(!mb.contains_key(i));
                    lemma_init_none(arguments@, mb, (i + 1) as nat, n as nat);
                }
                return None;
            },
        };
        assert(mb.contains_key(i) && mb[i] == bytes@);
        regs.insert(r, v);
        if !init_mem_exec(&mut mem, v, bytes) {
            proof {
                lemma_init_none(arguments@, mb, (i + 1) as nat, n as nat);
            }
            return None;
        }
        i += 1;
    }
    let ghost start = VmState { regs: regs@, mem: mem@, alloc_base };
    let len = bytecode.len();
    let count = len / INSTRUCTION_LEN;
    proof {
        vstd::arithmetic::div_mod::lemma_fundamental_div_mod(bytecode@.len() as int, 24);
    }
    assert(bytecode@.len() == count * 24);
    let mut j: usize = 0;
    while j < count
        invariant
            count == bytecode@.len() / 24,
            bytecode@.len() == count * 24,
            len == bytecode@.len(),
            init_state(arguments@, bytes_view(memory_bytes@), arguments@.len() as nat) == Some(start),
            j <= count,
            hv == handler_view(alu_semantics@),
            forall|k: usize| #[trigger] alu_semantics@.contains_key(k) ==> good(alu_semantics@[k]@, false),
            vm_run(start, bytecode@, j as nat, hv) == Some(VmState { regs: regs@, mem: mem@, alloc_base }),
        decreases count - j,
    {
        assert(j * 24 + 24 <= count * 24) by (nonlinear_arith)
            requires
                j < count,
        ;
        let chunk = slice_subrange(bytecode, j * INSTRUCTION_LEN, j * INSTRUCTION_LEN + INSTRUCTION_LEN);
        let f = decode_instruction(chunk);
        let ghost before = VmState { regs: regs@, mem: mem@, alloc_base };
        assert(chunk@ == bytecode@.subrange(((j + 1) as nat - 1) * 24, ((j + 1) as nat * 24) as int));
        assert(vm_run(start, bytecode@, (j + 1) as nat, hv) == vm_step(before, f, hv));
        if !step_exec(&mut regs, &mut mem, &mut alloc_base, f, alu_semantics) {
            proof {
                lemma_run_none(start, bytecode@, (j + 1) as nat, count as nat, hv);
            }
            return None;
        }
        j += 1;
    }
    get_reg(&regs, 0)
}

} // verus!
