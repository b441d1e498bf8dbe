//! Key gating: each handler adds up its slots' semantics, each multiplied by a check that
//! is one exactly for the slot's key.
use crate::bit_vecs::{mask, slice_val, slice_val_spec};
use crate::evaluator::{replaced, lemma_replaced_inv, tree_step};
use crate::expr::{node, op_arity, postfix1, postfix2, well_formed, LinearizedExpr, NodeView, OpView};
use crate::expression_utils::{
    and64, check_if_zero, check_if_zero_spec, const_leaf, constant, constant64, reg,
    reduced_shift, semantics_slice, semantics_slice_spec, sub64, urem64,
};
use crate::keys::ALUKeys;
use crate::simplify::{
    good, good_node, is_const_val, lemma_good_leaf, lemma_good_postfix1, lemma_good_postfix2,
    lemma_tree_step_good, simplified,
};
use vstd::prelude::*;

verus! {

/// The register that holds the key inside a handler.
pub open spec fn key_reg() -> Seq<NodeView> {
    seq![node(OpView::Reg(seq!['k']), 64)]
}

/// The 64-bit key register.
pub fn key_register() -> (r: LinearizedExpr)
    ensures
        r@ == key_reg(),
        well_formed(r@),
{
    proof {
        reveal_strlit("k");
        assert("k"@ =~= seq!['k']);
    }
    let r = reg("k", 64);
    assert(r@ =~= key_reg());
    r
}

/// The key check of the factorization kind: one exactly when the low 32 bits of the key
/// divide `semiprime`.
pub open spec fn primes_check(semiprime: u64) -> Seq<NodeView> {
    check_if_zero_spec(
        postfix2(
            const_leaf(semiprime, 64),
            postfix2(key_reg(), const_leaf(0xffff_ffff, 64), OpView::And, 64),
            OpView::Urem,
            64,
        ),
        64,
    )
}

/// The product of the primary and secondary key of slot `index`.
pub fn gen_semiprime(keys: &ALUKeys, index: usize) -> (r: u64)
    requires
        index < keys.keys@.len(),
        keys.additional_keys@.contains_key(index),
        keys.keys@[index as int] * keys.additional_keys@[index] <= u64::MAX,
    ensures
        r == keys.keys@[index as int] * keys.additional_keys@[index],
{
    keys.get(index) * keys.get_additional_key(index)
}

/// The factorization check of slot `index`.
pub fn constraint_key_with_primes(keys: &ALUKeys, index: usize) -> (r: LinearizedExpr)
    requires
        index < keys.keys@.len(),
        keys.additional_keys@.contains_key(index),
        keys.keys@[index as int] * keys.additional_keys@[index] <= u64::MAX,
    ensures
        r@ == primes_check((keys.keys@[index as int] * keys.additional_keys@[index]) as u64),
{
    let p = gen_semiprime(keys, index);
    check_if_zero(
        urem64(constant64(p), and64(key_register(), constant64(0xffff_ffff))),
        64,
    )
}

/// One when bits `start..=end` of the key equal those of `key`, else zero (before
/// simplification).
pub open spec fn slice_check(key: u64, start: u64, end: u64) -> Seq<NodeView> {
    check_if_zero_spec(
        postfix2(
            semantics_slice_spec(key_reg(), const_leaf(start, 64), const_leaf(end, 64), 64),
            const_leaf(slice_val_spec(key, start as u8, end as u8), 64),
            OpView::Sub,
            64,
        ),
        64,
    )
}

proof fn lemma_good_key_reg()
    ensures
        good(key_reg(), false),
{
    crate::expr::lemma_leaf_wf(OpView::Reg(seq!['k']), 64);
}

proof fn lemma_good_const(v: u64)
    ensures
        good(const_leaf(v, 64), false),
{
    lemma_good_leaf(mask(v, 64), 64, false);
}

proof fn lemma_good_check_if_zero(x: Seq<NodeView>)
    requires
        good(x, false),
    ensures
        good(check_if_zero_spec(x, 64), false),
{
    lemma_good_const(1);
    lemma_good_const(63);
    lemma_good_const(31);
    lemma_good_postfix1(x, OpView::Not, 64, false);
    lemma_good_postfix2(x, const_leaf(1, 64), OpView::Sub, 64, false);
    let low = postfix2(
        postfix1(x, OpView::Not, 64),
        postfix2(x, const_leaf(1, 64), OpView::Sub, 64),
        OpView::And,
        64,
    );
    lemma_good_postfix2(
        postfix1(x, OpView::Not, 64),
        postfix2(x, const_leaf(1, 64), OpView::Sub, 64),
        OpView::And,
        64,
        false,
    );
    lemma_good_postfix2(const_leaf(63, 64), const_leaf(63, 64), OpView::And, 64, false);
    let sh = reduced_shift(const_leaf(63, 64), 64);
    lemma_good_postfix2(low, sh, OpView::Ashr, 64, false);
    let sign = postfix2(low, sh, OpView::Ashr, 64);
    lemma_good_postfix1(sign, OpView::Not, 64, false);
    lemma_good_postfix2(postfix1(sign, OpView::Not, 64), const_leaf(1, 64), OpView::Add, 64, false);
}

proof fn lemma_good_slice_check(key: u64, start: u64, end: u64)
    ensures
        good(slice_check(key, start, end), false),
{
    lemma_good_key_reg();
    lemma_good_const(1);
    lemma_good_const(start);
    lemma_good_const(end);
    let k = key_reg();
    let one = const_leaf(1, 64);
    let s = const_leaf(start, 64);
    let e = const_leaf(end, 64);
    lemma_good_postfix2(e, s, OpView::Sub, 64, false);
    let d = postfix2(e, s, OpView::Sub, 64);
    lemma_good_postfix2(d, one, OpView::Add, 64, false);
    let shift = postfix2(d, one, OpView::Add, 64);
    lemma_good_postfix2(one, shift, OpView::Shl, 64, false);
    lemma_good_postfix2(postfix2(one, shift, OpView::Shl, 64), one, OpView::Sub, 64, false);
    let m = postfix2(postfix2(one, shift, OpView::Shl, 64), one, OpView::Sub, 64);
    lemma_good_postfix2(k, s, OpView::Lshr, 64, false);
    lemma_good_postfix2(m, postfix2(k, s, OpView::Lshr, 64), OpView::And, 64, false);
    let sl = semantics_slice_spec(k, s, e, 64);
    let v = const_leaf(slice_val_spec(key, start as u8, end as u8), 64);
    lemma_good_const(slice_val_spec(key, start as u8, end as u8));
    lemma_good_postfix2(sl, v, OpView::Sub, 64, false);
    lemma_good_check_if_zero(postfix2(sl, v, OpView::Sub, 64));
}

/// The simplified check that bits `start..=end` of the key match those of `key`.
pub fn key_slice(key: u64, start: u64, end: u64) -> (r: LinearizedExpr)
    requires
        start <= end < 64,
    ensures
        r@ == simplified(slice_check(key, start, end)),
        good(r@, false),
{
    let sl = semantics_slice(key_register(), constant64(start), constant64(end), 64);
    let v = constant64(slice_val(key, start as u8, end as u8));
    let e = check_if_zero(sub64(sl, v), 64);
    proof {
        lemma_good_slice_check(key, start, end);
    }
    e.simplify()
}

/// Number of independent byte-slice checks for a choice among 2, 4 and 8.
pub open spec fn roots_count(choice: u64) -> u64 {
    if choice % 3 == 0 {
        2
    } else if choice % 3 == 1 {
        4
    } else {
        8
    }
}

/// Product of the slice checks of the first `j + 1` of `num` equal parts of the key.
pub open spec fn roots_product(key: u64, num: u64, j: nat) -> Seq<NodeView>
    decreases j,
{
    let w = (64u64 / num) as u64;
    if j == 0 {
        simplified(slice_check(key, 0, (w - 1) as u64))
    } else {
        postfix2(
            roots_product(key, num, (j - 1) as nat),
            simplified(slice_check(key, (w * j) as u64, (w * (j + 1) - 1) as u64)),
            OpView::Mul,
            64,
        )
    }
}

/// The deterministic fallback check of slot `index`: every one of 2, 4 or 8 parts of the
/// key (as `choice` picks) must match.
pub fn constraint_key_with_multiple_roots(keys: &ALUKeys, index: usize, choice: u64) -> (r:
    LinearizedExpr)
    requires
        index < keys.keys@.len(),
    ensures
        r@ == roots_product(keys.keys@[index as int], roots_count(choice), (roots_count(choice) - 1) as nat),
{
    let key = keys.get(index);
    let num: u64 = if choice % 3 == 0 {
        2
    } else if choice % 3 == 1 {
        4
    } else {
        8
    };
    let w = 64 / num;
    let mut ret = key_slice(key, 0, w - 1);
    let mut j: u64 = 1;
    while j < num
        invariant
            num == roots_count(choice),
            w == 64u64 / num,
            1 <= j <= num,
            ret@ == roots_product(key, num, (j - 1) as nat),
            key == keys.keys@[index as int],
        decreases num - j,
    {
        assert(w * (j + 1) <= 64) by (nonlinear_arith)
            requires
                w == 64u64 / num,
                j < num,
                num == 2 || num == 4 || num == 8,
        ;
        let part = key_slice(key, w * j, w * (j + 1) - 1);
        ret = crate::evaluator::build_op_2(
            &ret,
            &part,
            &crate::expr::LinearExpr::new(crate::expr::LinearExprOp::Mul, 64),
        );
        j += 1;
    }
    ret
}

/// Substituting the constant `v` for the key and simplifying gives exactly the 64-bit
/// constant `want`.
pub open spec fn selects(expr: Seq<NodeView>, v: u64, want: u64) -> bool {
    simplified(replaced(expr, key_reg(), const_leaf(v, 64))) == const_leaf(want, 64)
}

/// The value a point function for slot `set_index` takes on the key of slot `i`.
pub open spec fn slot_flag(i: int, set_index: int) -> u64 {
    if i == set_index {
        1
    } else {
        0
    }
}

/// `expr` is one for the primary key of slot `set_index` and zero for every other
/// primary or secondary key of the handler.
pub open spec fn is_point_function(expr: Seq<NodeView>, keys: ALUKeys, set_index: int) -> bool {
    &&& forall|i: int|
        0 <= i < keys.keys@.len() ==> selects(expr, #[trigger] keys.keys@[i], slot_flag(i, set_index))
    &&& forall|i: usize| #[trigger]
        keys.additional_keys@.contains_key(i) ==> selects(expr, keys.additional_keys@[i], 0)
}

/// Replacing a sub-expression by a 64-bit constant keeps an expression good.
pub proof fn lemma_good_replaced(expr: Seq<NodeView>, sub: Seq<NodeView>, v: u64)
    requires
        good(expr, false),
    ensures
        good(replaced(expr, sub, const_leaf(v, 64)), false),
{
    let pre = |e: NodeView| good_node(e, false);
    let inv = |x: Seq<NodeView>| good(x, false);
    lemma_good_const(v);
    assert forall|args: Seq<Seq<NodeView>>, e: NodeView|
        pre(e) && args.len() == op_arity(e.op) && (forall|j: int|
            0 <= j < args.len() ==> #[trigger] inv(args[j])) implies #[trigger] inv(
        tree_step(args, e),
    ) by {
        assert forall|j: int| 0 <= j < args.len() implies #[trigger] good(args[j], false) by {
            assert(inv(args[j]));
        }
        lemma_tree_step_good(args, e, false);
    }
    assert forall|i: int| 0 <= i < expr.len() implies #[trigger] pre(expr[i]) by {
        assert(good_node(expr[i], false));
    }
    lemma_replaced_inv(expr, sub, const_leaf(v, 64), pre, inv);
}

fn check_key(expr: &LinearizedExpr, v: u64, want: u64) -> (r: bool)
    requires
        good(expr@, false),
    ensures
        r == selects(expr@, v, want),
{
    let mut e = expr.clone();
    e.replace_subexpr(&key_register(), &constant64(v));
    proof {
        lemma_good_replaced(expr@, key_reg(), v);
    }
    let s = e.simplify();
    proof {
        assert(crate::bit_vecs::mask(want, 64) == want);
    }
    let r = s.check_constant_val(want) && s.size() == 64;
    proof {
        if r {
            assert(s@ =~= const_leaf(want, 64));
        }
    }
    r
}

/// Whether `expr` is a point function for slot `set_index`.
pub fn verify_constraints(expr: &LinearizedExpr, keys: &ALUKeys, set_index: usize) -> (r: bool)
    requires
        good(expr@, false),
        forall|i: usize| #[trigger] keys.additional_keys@.contains_key(i) ==> i < keys.keys@.len(),
    ensures
        r == is_point_function(expr@, *keys, set_index as int),
{
    let n = keys.len();
    let mut i: usize = 0;
    while i < n
        invariant
            n == keys.keys@.len(),
            i <= n,
            good(expr@, false),
            forall|j: int|
                0 <= j < i ==> selects(expr@, #[trigger] keys.keys@[j], slot_flag(j, set_index as int)),
            forall|j: usize|
                j < i && #[trigger] keys.additional_keys@.contains_key(j) ==> selects(
                    expr@,
                    keys.additional_keys@[j],
                    0,
                ),
        decreases n - i,
    {
        let want: u64 = if i == set_index {
            1
        } else {
            0
        };
        if !check_key(expr, keys.get(i), want) {
            return false;
        }
        if keys.contains_additional_key(i) {
            if !check_key(expr, keys.get_additional_key(i), 0) {
                return false;
            }
        }
        i += 1;
    }
    true
}

/// The first candidate that is a point function for slot `set_index`, if any.
pub fn synthesize_point_function(
    keys: &ALUKeys,
    set_index: usize,
    candidates: &Vec<LinearizedExpr>,
) -> (r: Option<LinearizedExpr>)
    requires
        forall|i: usize| #[trigger] keys.additional_keys@.contains_key(i) ==> i < keys.keys@.len(),
        forall|j: int| 0 <= j < candidates@.len() ==> #[trigger] good(candidates@[j]@, false),
    ensures
        r matches Some(e) ==> exists|j: int|
            0 <= j < candidates@.len() && #[trigger] candidates@[j]@ == e@ && is_point_function(
                e@,
                *keys,
                set_index as int,
            ),
        r is None ==> forall|j: int|
            0 <= j < candidates@.len() ==> !is_point_function(
                #[trigger] candidates@[j]@,
                *keys,
                set_index as int,
            ),
{
    let mut j: usize = 0;
    while j < candidates.len()
        invariant
            j <= candidates@.len(),
            forall|i: usize| #[trigger] keys.additional_keys@.contains_key(i) ==> i < keys.keys@.len(),
            forall|k: int| 0 <= k < candidates@.len() ==> #[trigger] good(candidates@[k]@, false),
            forall|k: int|
                0 <= k < j ==> !is_point_function(#[trigger] candidates@[k]@, *keys, set_index as int),
        decreases candidates@.len() - j,
    {
        assert(good(candidates@[j as int]@, false));
        if verify_constraints(&candidates[j], keys, set_index) {
            let e = candidates[j].clone();
            assert(candidates@[j as int]@ == e@);
            return Some(e);
        }
        j += 1;
    }
    None
}

/// The handler semantics `Σ checks[i] * instructions[i]`, nested to the right.
pub open spec fn weighted_sum(checks: Seq<Seq<NodeView>>, instructions: Seq<Seq<NodeView>>, i: int) -> Seq<
    NodeView,
>
    decreases instructions.len() - i,
{
    let term = postfix2(checks[i], instructions[i], OpView::Mul, 64);
    if i + 2 >= instructions.len() {
        postfix2(term, postfix2(checks[i + 1], instructions[i + 1], OpView::Mul, 64), OpView::Add, 64)
    } else {
        postfix2(term, weighted_sum(checks, instructions, i + 1), OpView::Add, 64)
    }
}

/// The gated sum is a 64-bit addition at the root.
pub proof fn lemma_weighted_sum_root(checks: Seq<Seq<NodeView>>, instructions: Seq<Seq<NodeView>>, i: int)
    ensures
        weighted_sum(checks, instructions, i).len() > 0,
        weighted_sum(checks, instructions, i).last() == node(OpView::Add, 64),
{
}

/// Gates each slot's semantics by its key check and adds the products.
pub fn thwart_recursive(
    instructions: &[LinearizedExpr],
    checks: &[LinearizedExpr],
    index: usize,
) -> (r: LinearizedExpr)
    requires
        index + 2 <= instructions@.len(),
        checks@.len() == instructions@.len(),
    ensures
        r@ == weighted_sum(
            checks@.map_values(|e: LinearizedExpr| e@),
            instructions@.map_values(|e: LinearizedExpr| e@),
            index as int,
        ),
    decreases instructions@.len() - index,
{
    let mul = crate::expr::LinearExpr::new(crate::expr::LinearExprOp::Mul, 64);
    let add = crate::expr::LinearExpr::new(crate::expr::LinearExprOp::Add, 64);
    let term = crate::evaluator::build_op_2(&checks[index], &instructions[index], &mul);
    if index + 2 >= instructions.len() {
        let last = crate::evaluator::build_op_2(&checks[index + 1], &instructions[index + 1], &mul);
        crate::evaluator::build_op_2(&term, &last, &add)
    } else {
        let rest = thwart_recursive(instructions, checks, index + 1);
        crate::evaluator::build_op_2(&term, &rest, &add)
    }
}

/// `n` is a prime number.
pub open spec fn prime(n: nat) -> bool {
    n >= 2 && forall|d: nat| 2 <= d < n ==> #[trigger] (n % d) != 0
}

/// Relies on primal_check::miller_rabin: a deterministic Miller-Rabin test whose witness
/// sets cover all of `u64`, so it decides primality exactly.
#[verifier::external_body]
fn is_prime(n: u64) -> (r: bool)
    ensures
        r == prime(n as nat),
{
    primal_check::miller_rabin(n)
}

/// An odd candidate of at most `size` bits made from a random draw.
pub fn gen_prime_candidate(draw: u64, size: u64) -> (r: u64)
    requires
        size < 64,
    ensures
        r == (mask(draw, size as nat) | 1u64),
{
    crate::bit_vecs::mask_to_size(draw, size as usize) | 1
}

/// Smallest prime accepted as a key.
pub const MIN_KEY_PRIME: u64 = 0x2000_0000;

/// A prime large enough to serve as a key.
pub open spec fn accepted_prime(p: u64) -> bool {
    p >= MIN_KEY_PRIME && prime(p as nat)
}

/// A prime of at most `size` bits and at least [`MIN_KEY_PRIME`], from draws
/// `draws[cursor..]`; with the position of the next unused draw.
pub fn gen_rand_prime(size: u64, draws: &Vec<u64>, cursor: usize) -> (r: Option<(u64, usize)>)
    requires
        size < 64,
        cursor <= draws@.len(),
    ensures
        r matches Some((p, c)) ==> prime(p as nat) && p >= MIN_KEY_PRIME && cursor < c <= draws@.len()
            && p == (mask(draws@[c - 1], size as nat) | 1u64),
        r is None ==> forall|j: int|
            cursor <= j < draws@.len() ==> !accepted_prime(#[trigger] (mask(draws@[j], size as nat) | 1u64)),
{
    let mut c = cursor;
    while c < draws.len()
        invariant
            cursor <= c <= draws@.len(),
            size < 64,
            forall|j: int|
                cursor <= j < c ==> !accepted_prime(#[trigger] (mask(draws@[j], size as nat) | 1u64)),
        decreases draws@.len() - c,
    {
        let candidate = gen_prime_candidate(draws[c], size);
        c += 1;
        if candidate >= MIN_KEY_PRIME && is_prime(candidate) {
            return Some((candidate, c));
        }
    }
    None
}

/// The prime candidate of a draw: its low 32 bits, made odd.
pub open spec fn prime_candidate(d: u64) -> u64 {
    mask(d, 32) | 1u64
}

/// The key a draw offers: its prime candidate for a factorization slot, else the draw.
pub open spec fn offered_key(d: u64, prime_slot: bool) -> u64 {
    if prime_slot {
        prime_candidate(d)
    } else {
        d
    }
}

/// The draw offers a usable key: fresh (not in `used`), and an accepted prime for a
/// factorization slot.
pub open spec fn usable(d: u64, prime_slot: bool, used: Set<u64>) -> bool {
    &&& !used.contains(offered_key(d, prime_slot))
    &&& prime_slot ==> accepted_prime(prime_candidate(d))
}

/// Position of the first draw from `c` on that offers a usable key (the length if none).
pub open spec fn first_usable(draws: Seq<u64>, c: int, prime_slot: bool, used: Set<u64>) -> int
    decreases draws.len() - c,
{
    if c >= draws.len() {
        draws.len() as int
    } else if usable(draws[c], prime_slot, used) {
        c
    } else {
        first_usable(draws, c + 1, prime_slot, used)
    }
}

proof fn lemma_first_usable(draws: Seq<u64>, c: int, prime_slot: bool, used: Set<u64>)
    requires
        0 <= c <= draws.len(),
    ensures
        c <= first_usable(draws, c, prime_slot, used) <= draws.len(),
        first_usable(draws, c, prime_slot, used) < draws.len() ==> usable(
            draws[first_usable(draws, c, prime_slot, used)],
            prime_slot,
            used,
        ),
    decreases draws.len() - c,
{
    if c < draws.len() && !usable(draws[c], prime_slot, used) {
        lemma_first_usable(draws, c + 1, prime_slot, used);
    }
}

/// Finds the first usable draw from `c` on.
fn find_usable(keys: &ALUKeys, draws: &Vec<u64>, c: usize, prime_slot: bool, extra: Option<u64>) -> (r: usize)
    requires
        c <= draws@.len(),
    ensures
        r as int == first_usable(
            draws@,
            c as int,
            prime_slot,
            match extra {
                Some(k) => keys.used_keys@.insert(k),
                None => keys.used_keys@,
            },
        ),
{
    let ghost used = match extra {
        Some(k) => keys.used_keys@.insert(k),
        None => keys.used_keys@,
    };
    let mut i = c;
    while i < draws.len()
        invariant
            c <= i <= draws@.len(),
            used == match extra {
                Some(k) => keys.used_keys@.insert(k),
                None => keys.used_keys@,
            },
            first_usable(draws@, c as int, prime_slot, used) == first_usable(draws@, i as int, prime_slot, used),
        decreases draws@.len() - i,
    {
        let d = draws[i];
        let k = if prime_slot {
            gen_prime_candidate(d, 32)
        } else {
            d
        };
        let fresh = !keys.contains(k) && match extra {
            Some(x) => x != k,
            None => true,
        };
        let ok = fresh && (!prime_slot || (k >= MIN_KEY_PRIME && is_prime(k)));
        proof {
            assert(k == offered_key(draws@[i as int], prime_slot));
            assert(fresh == !used.contains(k));
            assert(ok == usable(draws@[i as int], prime_slot, used));
        }
        if ok {
            return i;
        }
        i += 1;
    }
    i
}

/// Adds the primary key of a new slot: the first usable draw from `cursor` on; for a
/// factorization slot also a secondary prime from the first later draw usable besides
/// the new key. Returns the position after the last draw used; `None` (keys unchanged)
/// exactly when no such draw is left.
pub fn gen_rand_key(keys: &mut ALUKeys, prime_slot: bool, draws: &Vec<u64>, cursor: usize) -> (r:
    Option<usize>)
    requires
        old(keys).wf(),
        !old(keys).additional_keys@.contains_key(old(keys).keys@.len() as usize),
        cursor <= draws@.len(),
        old(keys).keys@.len() < usize::MAX,
    ensures
        ({
            let used = old(keys).used_keys@;
            let i = first_usable(draws@, cursor as int, prime_slot, used);
            let key = offered_key(draws@[i], prime_slot);
            let j = first_usable(draws@, i + 1, true, used.insert(key));
            let n = old(keys).keys@.len();
            &&& r is None <==> (i == draws@.len() || (prime_slot && j == draws@.len()))
            &&& r is None ==> *final(keys) == *old(keys)
            &&& r matches Some(c) ==> {
                &&& c <= draws@.len()
                &&& final(keys).wf()
                &&& final(keys).keys@ == old(keys).keys@.push(key)
                &&& prime_slot ==> final(keys).additional_keys@ == old(keys).additional_keys@.insert(
                    n as usize,
                    prime_candidate(draws@[j]),
                ) && c == j + 1
                &&& !prime_slot ==> final(keys).additional_keys@ == old(keys).additional_keys@ && c == i + 1
            }
        }),
{
    proof {
        lemma_first_usable(draws@, cursor as int, prime_slot, keys.used_keys@);
    }
    let i = find_usable(keys, draws, cursor, prime_slot, None);
    if i >= draws.len() {
        return None;
    }
    let key = if prime_slot {
        gen_prime_candidate(draws[i], 32)
    } else {
        draws[i]
    };
    let mut c = i + 1;
    let mut second: u64 = 0;
    if prime_slot {
        proof {
            lemma_first_usable(draws@, i + 1, true, keys.used_keys@.insert(key));
        }
        let j = find_usable(keys, draws, i + 1, true, Some(key));
        if j >= draws.len() {
            return None;
        }
        second = gen_prime_candidate(draws[j], 32);
        c = j + 1;
    }
    let index = keys.len();
    keys.push(key);
    if prime_slot {
        keys.insert_additional_key(index, second);
    }
    Some(c)
}

/// With the key of each slot substituted and everything simplified, the handler equals
/// that slot's semantics under the same key.
pub open spec fn selects_slots(handler: Seq<NodeView>, keys: Seq<u64>, semantics: Seq<Seq<NodeView>>) -> bool {
    forall|i: int|
        0 <= i < semantics.len() ==> simplified(replaced(handler, key_reg(), const_leaf(keys[i], 64)))
            == simplified(replaced(#[trigger] semantics[i], key_reg(), const_leaf(keys[i], 64)))
}

/// The acceptance check of a handler: each slot's key selects exactly that slot's semantics.
pub fn verify_handler(handler: &LinearizedExpr, keys: &ALUKeys, semantics: &Vec<LinearizedExpr>) -> (r:
    bool)
    requires
        good(handler@, false),
        forall|i: int| 0 <= i < semantics@.len() ==> good(#[trigger] semantics@[i]@, false),
        semantics@.len() <= keys.keys@.len(),
    ensures
        r == selects_slots(handler@, keys.keys@, semantics@.map_values(|e: LinearizedExpr| e@)),
{
    let ghost sv = semantics@.map_values(|e: LinearizedExpr| e@);
    let mut i: usize = 0;
    while i < semantics.len()
        invariant
            i <= semantics@.len(),
            sv == semantics@.map_values(|e: LinearizedExpr| e@),
            semantics@.len() <= keys.keys@.len(),
            good(handler@, false),
            forall|t: int| 0 <= t < semantics@.len() ==> good(#[trigger] semantics@[t]@, false),
            forall|t: int|
                0 <= t < i ==> simplified(replaced(handler@, key_reg(), const_leaf(keys.keys@[t], 64)))
                    == simplified(replaced(#[trigger] sv[t], key_reg(), const_leaf(keys.keys@[t], 64))),
        decreases semantics@.len() - i,
    {
        let mut e = handler.clone();
        e.replace_subexpr(&key_register(), &constant64(keys.get(i)));
        proof {
            lemma_good_replaced(handler@, key_reg(), keys.keys@[i as int]);
        }
        let got = e.simplify();
        assert(good(semantics@[i as int]@, false));
        let mut w = semantics[i].clone();
        w.replace_subexpr(&key_register(), &constant64(keys.get(i)));
        proof {
            lemma_good_replaced(semantics@[i as int]@, key_reg(), keys.keys@[i as int]);
        }
        let want = w.simplify();
        if !got.same_as(&want) {
            assert(sv[i as int] == semantics@[i as int]@);
            return false;
        }
        assert(sv[i as int] == semantics@[i as int]@);
        i += 1;
    }
    true
}

/// The key check of slot `index`: the factorization check where the slot has a secondary
/// key, else the first candidate that is a point function, else the multiple-root check
/// that `choice` sizes.
pub fn constraint_with_key(keys: &ALUKeys, index: usize, candidates: &Vec<LinearizedExpr>, choice: u64) -> (r:
    LinearizedExpr)
    requires
        index < keys.keys@.len(),
        forall|i: usize| #[trigger] keys.additional_keys@.contains_key(i) ==> i < keys.keys@.len(),
        keys.additional_keys@.contains_key(index) ==> keys.keys@[index as int] * keys.additional_keys@[index]
            <= u64::MAX,
        forall|j: int| 0 <= j < candidates@.len() ==> #[trigger] good(candidates@[j]@, false),
    ensures
        keys.additional_keys@.contains_key(index) ==> r@ == primes_check(
            (keys.keys@[index as int] * keys.additional_keys@[index]) as u64,
        ),
        !keys.additional_keys@.contains_key(index) ==> (is_point_function(r@, *keys, index as int)
            && exists|j: int| 0 <= j < candidates@.len() && #[trigger] candidates@[j]@ == r@) || (r@
            == roots_product(
            keys.keys@[index as int],
            roots_count(choice),
            (roots_count(choice) - 1) as nat,
        ) && forall|j: int|
            0 <= j < candidates@.len() ==> !is_point_function(#[trigger] candidates@[j]@, *keys, index as int)),
{
    if keys.contains_additional_key(index) {
        return constraint_key_with_primes(keys, index);
    }
    match synthesize_point_function(keys, index, candidates) {
        Some(e) => e,
        None => constraint_key_with_multiple_roots(keys, index, choice),
    }
}

/// The slot semantics `instruction` gated by the key check of slot `index`.
pub fn constraint_operation(instruction: &LinearizedExpr, check: &LinearizedExpr) -> (r: LinearizedExpr)
    ensures
        r@ == postfix2(check@, instruction@, OpView::Mul, 64),
{
    crate::evaluator::build_op_2(
        check,
        instruction,
        &crate::expr::LinearExpr::new(crate::expr::LinearExprOp::Mul, 64),
    )
}

/// The draw `k` places after `c`, or zero past the end of the draws.
fn draw_at(draws: &Vec<u64>, c: usize, k: usize) -> (r: u64)
    ensures
        r == crate::semantics::spec_draw(draws@, c as int, k as int),
{
    if c < draws.len() && k < draws.len() - c {
        draws[c + k]
    } else {
        0
    }
}

/// An operand of a point-function candidate: one byte of the key or a constant.
pub fn rand_var(d: u64, e: u64) -> (r: LinearizedExpr)
    ensures
        well_formed(r@),
        crate::expression_utils::binary_operands(r@, r@, 64),
        r@ == if d % 9 == 8 {
            const_leaf(e, 64)
        } else {
            semantics_slice_spec(
                key_reg(),
                const_leaf(((d % 9) * 8) as u64, 64),
                const_leaf(((d % 9) * 8 + 7) as u64, 64),
                64,
            )
        },
{
    let i = d % 9;
    if i == 8 {
        return constant(e, 64);
    }
    semantics_slice(key_register(), constant64(i * 8), constant64(i * 8 + 7), 64)
}

/// A random point-function candidate grown from key bytes and constants by five to
/// fourteen operators, simplified when the simplifier accepts it.
pub fn gen_expr(draws: &Vec<u64>, cursor: usize) -> (r: LinearizedExpr)
    ensures
        well_formed(r@),
        r@ == candidate_expr(draws@, cursor as int),
{
    let mut c = cursor;
    let mut expr = rand_var(draw_at(draws, c, 0), draw_at(draws, c, 1));
    let steps = (draw_at(draws, c, 2) % 10 + 5) as usize;
    c = if c < usize::MAX - 3 { c + 3 } else { c };
    let ghost e0 = expr@;
    let ghost c0 = c as int;
    let mut t: usize = 0;
    while t < steps
        invariant
            well_formed(expr@),
            crate::expression_utils::binary_operands(expr@, expr@, 64),
            t <= steps,
            grow(expr@, (steps - t) as nat, draws@, c as int) == grow(e0, steps as nat, draws@, c0),
        decreases steps - t,
    {
        let v = rand_var(draw_at(draws, c, 1), draw_at(draws, c, 2));
        let sel = draw_at(draws, c, 0) % 11;
        c = if c < usize::MAX - 3 { c + 3 } else { c };
        expr = match sel {
            0 => crate::expression_utils::add(expr, v, 64),
            1 => crate::expression_utils::sub(expr, v, 64),
            2 => crate::expression_utils::mul(expr, v, 64),
            3 => crate::expression_utils::and(expr, v, 64),
            4 => crate::expression_utils::or(expr, v, 64),
            5 => crate::expression_utils::xor(expr, v, 64),
            6 => crate::expression_utils::nand(expr, v, 64),
            7 => crate::expression_utils::nor(expr, v, 64),
            8 => crate::expression_utils::not(expr, 64),
            9 => crate::expression_utils::neg(expr, 64),
            _ => crate::expression_utils::mul(expr.clone(), expr, 64),
        };
        t += 1;
    }
    assert(grow(expr@, 0, draws@, c as int) == expr@);
    if crate::simplify::is_good(&expr) {
        expr.simplify()
    } else {
        expr
    }
}

/// The operand a pair of draws picks: a key byte or a constant.
pub open spec fn operand_of(d: u64, e: u64) -> Seq<NodeView> {
    if d % 9 == 8 {
        const_leaf(e, 64)
    } else {
        semantics_slice_spec(
            key_reg(),
            const_leaf(((d % 9) * 8) as u64, 64),
            const_leaf(((d % 9) * 8 + 7) as u64, 64),
            64,
        )
    }
}

/// One growth step of a candidate: operator `sel` applied to it (and to `v`).
pub open spec fn grow_step(e: Seq<NodeView>, sel: u64, v: Seq<NodeView>) -> Seq<NodeView> {
    if sel == 0 {
        postfix2(e, v, OpView::Add, 64)
    } else if sel == 1 {
        postfix2(e, v, OpView::Sub, 64)
    } else if sel == 2 {
        postfix2(e, v, OpView::Mul, 64)
    } else if sel == 3 {
        postfix2(e, v, OpView::And, 64)
    } else if sel == 4 {
        postfix2(e, v, OpView::Or, 64)
    } else if sel == 5 {
        postfix2(e, v, OpView::Xor, 64)
    } else if sel == 6 {
        postfix2(e, v, OpView::Nand, 64)
    } else if sel == 7 {
        postfix2(e, v, OpView::Nor, 64)
    } else if sel == 8 {
        postfix1(e, OpView::Not, 64)
    } else if sel == 9 {
        postfix1(e, OpView::Neg, 64)
    } else {
        postfix2(e, e, OpView::Mul, 64)
    }
}

/// Cursor after three draws (it stays put at the top of the index range).
pub open spec fn bump(c: int) -> int {
    if c < usize::MAX - 3 {
        c + 3
    } else {
        c
    }
}

/// `k` growth steps, each taking three draws.
pub open spec fn grow(e: Seq<NodeView>, k: nat, draws: Seq<u64>, c: int) -> Seq<NodeView>
    decreases k,
{
    if k == 0 {
        e
    } else {
        let d = |i: int| crate::semantics::spec_draw(draws, c, i);
        grow(grow_step(e, d(0) % 11, operand_of(d(1), d(2))), (k - 1) as nat, draws, bump(c))
    }
}

/// The point-function candidate drawn from `draws[cursor..]`: an operand grown by five
/// to fourteen steps, simplified when the simplifier accepts it.
pub open spec fn candidate_expr(draws: Seq<u64>, cursor: int) -> Seq<NodeView> {
    let d = |i: int| crate::semantics::spec_draw(draws, cursor, i);
    let e = grow(operand_of(d(0), d(1)), (d(2) % 10 + 5) as nat, draws, bump(cursor));
    if crate::simplify::good(e, false) {
        crate::simplify::simplified(e)
    } else {
        e
    }
}

/// `c` is a key check for slot `i`: the factorization check where the slot has a
/// secondary key, otherwise a verified point function or a multiple-root check of the
/// slot's key.
pub open spec fn key_check(keys: ALUKeys, i: int, c: Seq<NodeView>) -> bool {
    if keys.additional_keys@.contains_key(i as usize) {
        c == primes_check((keys.keys@[i] * keys.additional_keys@[i as usize]) as u64)
    } else {
        is_point_function(c, keys, i) || exists|ch: u64|
            c == roots_product(keys.keys@[i], roots_count(ch), (roots_count(ch) - 1) as nat)
    }
}

/// The models of a sequence of expressions.
pub open spec fn views(v: Seq<LinearizedExpr>) -> Seq<Seq<NodeView>> {
    v.map_values(|e: LinearizedExpr| e@)
}

/// One slot's key drawn from `draws[c..]` (as [`thwart`] draws it) against the keys in
/// use: a draw decides whether the slot is a factorization slot, then [`gen_rand_key`]
/// takes the key (and the secondary prime). The key, the secondary key and the next
/// position, or `None` when the draws run out.
pub open spec fn key_round(used: Set<u64>, draws: Seq<u64>, c: int) -> Option<(u64, Option<u64>, int)> {
    let prime = crate::semantics::spec_draw(draws, c, 0) % 2 == 0;
    let start = if c < draws.len() {
        c + 1
    } else {
        c
    };
    let i = first_usable(draws, start, prime, used);
    if i >= draws.len() {
        None
    } else {
        let key = offered_key(draws[i], prime);
        if prime {
            let j = first_usable(draws, i + 1, true, used.insert(key));
            if j >= draws.len() {
                None
            } else {
                Some((key, Some(prime_candidate(draws[j])), j + 1))
            }
        } else {
            Some((key, None, i + 1))
        }
    }
}

/// The keys of the first `n` slots: primary keys, secondary keys by slot, and the next
/// draw; `None` when the draws run out.
pub open spec fn gen_all_keys(draws: Seq<u64>, n: nat) -> Option<(Seq<u64>, Map<usize, u64>, int)>
    decreases n,
{
    if n == 0 {
        Some((Seq::empty(), Map::empty(), 0))
    } else {
        match gen_all_keys(draws, (n - 1) as nat) {
            None => None,
            Some(prev) => match key_round(prev.0.to_set() + prev.1.values(), draws, prev.2) {
                None => None,
                Some(k) => Some((
                    prev.0.push(k.0),
                    match k.1 {
                        Some(b) => prev.1.insert((n - 1) as usize, b),
                        None => prev.1,
                    },
                    k.2,
                )),
            },
        }
    }
}

proof fn lemma_gen_all_none(draws: Seq<u64>, i: nat, n: nat)
    requires
        i <= n,
        gen_all_keys(draws, i) is None,
    ensures
        gen_all_keys(draws, n) is None,
    decreases n - i,
{
    if i < n {
        lemma_gen_all_none(draws, i, (n - 1) as nat);
    }
}

proof fn lemma_prime_candidate_small(d: u64)
    ensures
        prime_candidate(d) < 0x1_0000_0000,
{
    crate::bit_vecs::lemma_mask_idempotent(d, 32);
    vstd::arithmetic::power2::lemma2_to64();
    let m = mask(d, 32);
    assert(m < 0x1_0000_0000);
    assert(m < 0x1_0000_0000u64 ==> (m | 1u64) < 0x1_0000_0000u64) by (bit_vector);
}

/// Builds the handler of `instructions`: a fresh key per slot (a pair of primes where a
/// draw asks for the factorization check), then each slot's semantics gated by its key
/// check, a point function found among `candidate_count` random candidates or the
/// multiple-root fallback. `None` when the draws run out.
pub fn thwart(
    instructions: &Vec<LinearizedExpr>,
    keys: &mut ALUKeys,
    draws: &Vec<u64>,
    candidate_count: usize,
) -> (r: Option<LinearizedExpr>)
    requires
        instructions@.len() >= 2,
        old(keys).keys@.len() == 0,
        old(keys).additional_keys@ == Map::<usize, u64>::empty(),
        old(keys).wf(),
    ensures
        r is None <==> gen_all_keys(draws@, instructions@.len() as nat) is None,
        r matches Some(h) ==> {
            &&& gen_all_keys(draws@, instructions@.len() as nat) == Some((
                final(keys).keys@,
                final(keys).additional_keys@,
                gen_all_keys(draws@, instructions@.len() as nat)->Some_0.2,
            ))
            &&& final(keys).keys@.len() == instructions@.len()
            &&& exists|checks: Seq<Seq<NodeView>>|
                #![trigger weighted_sum(checks, views(instructions@), 0)]
                checks.len() == instructions@.len() && (forall|i: int|
                    0 <= i < checks.len() ==> key_check(*final(keys), i, #[trigger] checks[i]))
                    && h@ == weighted_sum(checks, views(instructions@), 0)
        },
{
    let n = instructions.len();
    let mut c: usize = 0;
    let mut i: usize = 0;
    while i < n
        invariant
            n == instructions@.len(),
            i <= n,
            keys.keys@.len() == i,
            keys.wf(),
            forall|j: usize| #[trigger] keys.additional_keys@.contains_key(j) ==> j < keys.keys@.len(),
            forall|j: usize| #[trigger] keys.additional_keys@.contains_key(j) ==> keys.keys@[j as int]
                < 0x1_0000_0000 && keys.additional_keys@[j] < 0x1_0000_0000,
            c <= draws@.len(),
            gen_all_keys(draws@, i as nat) == Some((keys.keys@, keys.additional_keys@, c as int)),
        decreases n - i,
    {
        let prime = draw_at(draws, c, 0) % 2 == 0;
        let start = if c < draws.len() { c + 1 } else { c };
        let ghost before = *keys;
        let ghost used = before.used_keys@;
        assert(used == before.keys@.to_set() + before.additional_keys@.values());
        match gen_rand_key(keys, prime, draws, start) {
            Some(next) => {
                c = next;
            },
            None => {
                proof {
                    assert(key_round(used, draws@, c as int) is None);
                    lemma_gen_all_none(draws@, (i + 1) as nat, n as nat);
                }
                return None;
            },
        }
        proof {
            let fi = first_usable(draws@, start as int, prime, used);
            let key = offered_key(draws@[fi], prime);
            if prime {
                let fj = first_usable(draws@, fi + 1, true, used.insert(key));
                lemma_prime_candidate_small(draws@[fi]);
                lemma_prime_candidate_small(draws@[fj]);
            }
            assert forall|j: usize| #[trigger] keys.additional_keys@.contains_key(j) implies j < keys.keys@.len() by {
                if !before.additional_keys@.contains_key(j) {
                    assert(prime);
                }
            }
            assert forall|j: usize| #[trigger] keys.additional_keys@.contains_key(j) implies keys.keys@[j as int]
                < 0x1_0000_0000 && keys.additional_keys@[j] < 0x1_0000_0000 by {
                if before.additional_keys@.contains_key(j) {
                    assert(keys.keys@[j as int] == before.keys@[j as int]);
                } else {
                    assert(prime);
                    assert(j == i);
                }
            }
            assert(gen_all_keys(draws@, (i + 1) as nat) == Some((keys.keys@, keys.additional_keys@, c as int)));
        }
        i += 1;
    }
    let mut checks: Vec<LinearizedExpr> = Vec::new();
    let mut i: usize = 0;
    while i < n
        invariant
            n == instructions@.len(),
            i <= n,
            checks@.len() == i,
            forall|t: int| 0 <= t < i ==> key_check(*keys, t, #[trigger] views(checks@)[t]),
            keys.keys@.len() == n,
            forall|j: usize| #[trigger] keys.additional_keys@.contains_key(j) ==> j < keys.keys@.len(),
            forall|j: usize| #[trigger] keys.additional_keys@.contains_key(j) ==> keys.keys@[j as int]
                < 0x1_0000_0000 && keys.additional_keys@[j] < 0x1_0000_0000,
            gen_all_keys(draws@, n as nat) == Some((keys.keys@, keys.additional_keys@, gen_all_keys(draws@, n as nat)->Some_0.2)),
            c <= draws@.len(),
        decreases n - i,
    {
        let mut candidates: Vec<LinearizedExpr> = Vec::new();
        let mut t: usize = 0;
        while t < candidate_count
            invariant
                forall|j: int| 0 <= j < candidates@.len() ==> #[trigger] good(candidates@[j]@, false),
                c <= draws@.len(),
            decreases candidate_count - t,
        {
            let e = gen_expr(draws, c);
            c = if draws.len() - c > 16 { c + 16 } else { draws.len() };
            if crate::simplify::is_good(&e) {
                candidates.push(e);
            }
            t += 1;
        }
        if keys.contains_additional_key(i) {
            let a = keys.get(i);
            let b = keys.get_additional_key(i);
            assert(a < 0x1_0000_0000 && b < 0x1_0000_0000);
            assert(a * b <= u64::MAX) by (nonlinear_arith)
                requires
                    a < 0x1_0000_0000,
                    b < 0x1_0000_0000,
            ;
        }
        let ch = draw_at(draws, c, 0);
        let check = constraint_with_key(keys, i, &candidates, ch);
        let ghost before = checks@;
        checks.push(check);
        proof {
            assert(views(checks@) =~= views(before).push(check@));
            if !keys.additional_keys@.contains_key(i) {
                if !is_point_function(check@, *keys, i as int) {
                    assert(check@ == roots_product(keys.keys@[i as int], roots_count(ch), (roots_count(ch) - 1) as nat));
                }
            }
            assert(key_check(*keys, i as int, views(checks@)[i as int]));
        }
        i += 1;
    }
    let h = thwart_recursive(instructions.as_slice(), checks.as_slice(), 0);
    proof {
        let cv = views(checks@);
        assert(checks@.map_values(|e: LinearizedExpr| e@) == cv);
        assert(h@ == weighted_sum(cv, views(instructions@), 0));
    }
    Some(h)
}

} // verus!
