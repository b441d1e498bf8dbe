//! Fixed-width arithmetic on 64-bit words.
use vstd::arithmetic::div_mod::{lemma_fundamental_div_mod, lemma_mod_mod, lemma_mod_twice};
use vstd::arithmetic::power2::*;
use vstd::bits::*;
use vstd::prelude::*;

verus! {

/// `x` reduced to its low `size` bits.
pub open spec fn mask(x: u64, size: nat) -> u64 {
    if size >= 64 {
        x
    } else {
        (x as nat % pow2(size)) as u64
    }
}

proof fn lemma_low_mask(x: u64, s: u64)
    requires
        s < 64,
    ensures
        x & (((1u64 << s) - 1) as u64) == (x as nat % pow2(s as nat)) as u64,
        (1u64 << s) as nat == pow2(s as nat),
        1u64 << s >= 1,
{
    lemma_u64_pow2_no_overflow(s as nat);
    lemma_u64_shl_is_mul(1, s);
    lemma_pow2_pos(s as nat);
    lemma_u64_low_bits_mask_is_mod(x, s as nat);
    assert(((1u64 << s) - 1) as u64 == low_bits_mask(s as nat) as u64);
}

/// Reducing twice to the same width changes nothing more.
pub proof fn lemma_mask_idempotent(x: u64, size: nat)
    ensures
        mask(mask(x, size), size) == mask(x, size),
{
    if size < 64 {
        lemma_pow2_pos(size);
        lemma_mod_twice(x as int, pow2(size) as int);
        let m = x as nat % pow2(size);
        assert(m < pow2(size));
        assert(m <= x) by {
            vstd::arithmetic::div_mod::lemma_mod_decreases(x as nat, pow2(size));
        }
        assert(mask(x, size) as nat == m);
    }
}

/// Keeps the low `size` bits of `x`.
pub fn mask_to_size(x: u64, size: usize) -> (r: u64)
    ensures
        r == mask(x, size as nat),
{
    if size >= 64 {
        return x;
    }
    proof {
        lemma_low_mask(x, size as u64);
    }
    x & ((1u64 << size as u64) - 1)
}

/// The widths on which signed operations and shifts are defined.
pub open spec fn word_width(size: u64) -> bool {
    size == 8 || size == 16 || size == 32 || size == 64
}

/// The two's-complement value of the low `size` bits of `x`.
pub open spec fn signed(x: u64, size: nat) -> int {
    let v = mask(x, size) as int;
    if size > 0 && v >= pow2((size - 1) as nat) {
        v - pow2(size)
    } else {
        v
    }
}

/// The integer `v` as a `size`-bit word.
pub open spec fn to_width(v: int, size: nat) -> u64 {
    let m = if size >= 64 {
        pow2(64)
    } else {
        pow2(size)
    };
    (v % (m as int)) as u64
}

/// Division rounding toward zero.
pub open spec fn trunc_div(a: int, b: int) -> int {
    let q = abs(a) / abs(b);
    if (a < 0) == (b < 0) {
        q
    } else {
        -q
    }
}

/// Remainder of [`trunc_div`]: it takes the sign of the dividend.
pub open spec fn trunc_rem(a: int, b: int) -> int {
    let r = abs(a) % abs(b);
    if a < 0 {
        -r
    } else {
        r
    }
}

pub open spec fn abs(a: int) -> int {
    if a < 0 {
        -a
    } else {
        a
    }
}

/// All `size` low bits set.
pub open spec fn all_ones(size: nat) -> u64 {
    mask(0xffff_ffff_ffff_ffff, size)
}

/// Whether bit `pos` of `x` is set.
pub fn is_bit_set(pos: u8, x: u32) -> (r: bool)
    requires
        pos < 32,
    ensures
        r == ((x >> pos) & 1u32 == 1u32),
{
    let p = pos as u32;
    assert((x & (1u32 << p) != 0) == ((x >> p) & 1u32 == 1u32)) by (bit_vector)
        requires
            p < 32,
    ;
    x & (1u32 << p) != 0
}

/// The bits of a 32-bit word, least significant first, as 0 or 1.
pub fn u32_to_bit_vec(instruction_bytes: u32) -> (r: Vec<u8>)
    ensures
        r@.len() == 32,
        forall|i: int|
            0 <= i < 32 ==> #[trigger] r@[i] == (if (instruction_bytes >> (i as u32)) & 1u32 == 1u32 {
                1u8
            } else {
                0u8
            }),
{
    let mut ret: Vec<u8> = Vec::with_capacity(32);
    let mut index: u8 = 0;
    while index < 32
        invariant
            index <= 32,
            ret@.len() == index,
            forall|i: int|
                0 <= i < index ==> #[trigger] ret@[i] == (if (instruction_bytes >> (i as u32)) & 1u32
                    == 1u32 {
                    1u8
                } else {
                    0u8
                }),
        decreases 32 - index,
    {
        if is_bit_set(index, instruction_bytes) {
            ret.push(1);
        } else {
            ret.push(0);
        }
        index += 1;
    }
    ret
}

/// The value computed by [`slice_val`].
pub open spec fn slice_val_spec(v: u64, start: u8, end: u8) -> u64 {
    mask(
        v >> start,
        if end - start + 1 > 63 {
            63
        } else {
            (end - start + 1) as nat
        },
    )
}

/// The value computed by [`sign_extend`]: flipping the sign bit and subtracting its
/// weight (modulo `2^64`) extends the sign, then the result is kept to `size` bits.
pub open spec fn sign_extend_spec(x: u64, size_x: usize, size: usize) -> u64 {
    let m = pow2((size_x - 1) as nat) as u64;
    mask(sub_wrap(x ^ m, m), size as nat)
}

/// Bits `start..=end` of `v`; at most 63 of them are kept.
pub fn slice_val(v: u64, start: u8, end: u8) -> (r: u64)
    requires
        start <= end,
        start < 64,
    ensures
        r == slice_val_spec(v, start, end),
{
    let w: u64 = (end - start) as u64 + 1;
    let shift: usize = if w > 63 {
        63
    } else {
        w as usize
    };
    mask_to_size(v >> start, shift)
}

/// `x` followed by the `size`-bit word `y`.
pub fn concat_val(x: u64, y: u64, size: usize) -> (r: u64)
    requires
        size < 64,
    ensures
        r == (x << size) | y,
{
    (x << size) | y
}

/// All-ones word of `size` bits.
pub fn get_minus_one(size: usize) -> (r: u64)
    ensures
        r == all_ones(size as nat),
{
    mask_to_size(0xffff_ffff_ffff_ffff, size)
}

/// Whether the sign bit of a `size`-bit word is set.
pub fn is_negative(x: u64, size: usize) -> (r: bool)
    requires
        1 <= size <= 64,
    ensures
        r == ((x >> ((size - 1) as u64)) != 0),
{
    (x >> ((size - 1) as u64)) != 0
}

/// Clamps `x` to the range of `u32`.
pub fn saturating_cast(x: u64) -> (r: u32)
    ensures
        r == if x > u32::MAX {
            u32::MAX
        } else {
            x as u32
        },
{
    if x > 0xffff_ffff {
        0xffff_ffff
    } else {
        x as u32
    }
}

/// Logical left shift; shifting by 64 or more gives zero.
pub fn shl(x: u64, y: u64, size: u64) -> (r: u64)
    requires
        word_width(size),
    ensures
        r == shl_spec(x, y, size),
{
    let s = saturating_cast(y);
    if s < 64 {
        x << s
    } else {
        0
    }
}

/// Logical right shift; shifting by 64 or more gives zero.
pub fn shr(x: u64, y: u64, size: u64) -> (r: u64)
    requires
        word_width(size),
    ensures
        r == shr_spec(x, y, size),
{
    let s = saturating_cast(y);
    if s < 64 {
        x >> s
    } else {
        0
    }
}

/// `2^(size - 1)`, the weight of the sign bit.
fn sign_weight(size: u64) -> (r: u64)
    requires
        word_width(size),
    ensures
        r as nat == pow2((size - 1) as nat),
        size < 64 ==> 2 * (r as nat) == pow2(size as nat),
        size == 64 ==> 2 * (r as nat) == pow2(64),
        size < 64 ==> r <= 0x8000_0000,
        size == 64 ==> r == 0x8000_0000_0000_0000,
{
    proof {
        lemma2_to64();
        lemma2_to64_rest();
    }
    match size {
        8 => 0x80,
        16 => 0x8000,
        32 => 0x8000_0000,
        _ => 0x8000_0000_0000_0000,
    }
}

/// The two's-complement value of the low `size` bits of `x`.
fn to_signed(x: u64, size: u64) -> (r: i64)
    requires
        word_width(size),
    ensures
        r as int == signed(x, size as nat),
        -(pow2((size - 1) as nat) as int) <= r < pow2((size - 1) as nat),
        size < 64 ==> -0x8000_0000 <= r < 0x8000_0000,
{
    let v = mask_to_size(x, size as usize);
    let h = sign_weight(size);
    proof {
        lemma2_to64();
        lemma2_to64_rest();
        lemma_pow2_pos(size as nat);
        if size < 64 {
            assert(v < pow2(size as nat));
        }
    }
    if v < h {
        v as i64
    } else if size == 64 {
        assert(!v == 0xffff_ffff_ffff_ffffu64 - v) by (bit_vector);
        let n = !v;
        proof {
            lemma2_to64_rest();
        }
        -(n as i64) - 1
    } else {
        assert(h <= 0x8000_0000);
        (v as i64) - (2 * h) as i64
    }
}

/// The integer `q` as a `size`-bit word.
fn from_signed(q: i64, size: u64) -> (r: u64)
    requires
        word_width(size),
    ensures
        r == to_width(q as int, size as nat),
{
    proof {
        lemma2_to64();
        lemma2_to64_rest();
    }
    let w: u64 = if q >= 0 {
        q as u64
    } else {
        let m = (-(q + 1)) as u64;
        assert(!m == 0xffff_ffff_ffff_ffffu64 - m) by (bit_vector);
        !m
    };
    assert(w as int == (q as int) % (pow2(64) as int));
    if size == 64 {
        return w;
    }
    let r = mask_to_size(w, size as usize);
    proof {
        lemma_pow2_pos(size as nat);
        lemma_pow2_pos((64 - size) as nat);
        lemma_pow2_adds(size as nat, (64 - size) as nat);
        lemma_mod_mod(q as int, pow2(size as nat) as int, pow2((64 - size) as nat) as int);
    }
    r
}

/// Signed less-than of `size`-bit words, as 1 or 0.
pub fn slt(x: u64, y: u64, size: u64) -> (r: u64)
    requires
        word_width(size),
    ensures
        r == slt_spec(x, y, size),
{
    if to_signed(x, size) < to_signed(y, size) {
        1
    } else {
        0
    }
}

/// Signed less-or-equal of `size`-bit words, as 1 or 0.
pub fn sle(x: u64, y: u64, size: u64) -> (r: u64)
    requires
        word_width(size),
    ensures
        r == sle_spec(x, y, size),
{
    if to_signed(x, size) <= to_signed(y, size) {
        1
    } else {
        0
    }
}

/// The magnitude of `a`.
fn magnitude(a: i64) -> (r: u64)
    ensures
        r as int == abs(a as int),
        r <= 0x8000_0000_0000_0000,
{
    if a >= 0 {
        a as u64
    } else if a == i64::MIN {
        0x8000_0000_0000_0000
    } else {
        (-a) as u64
    }
}

/// The `size`-bit word of the integer with sign `neg` and magnitude `m`.
fn from_sign_magnitude(neg: bool, m: u64, size: u64) -> (r: u64)
    requires
        word_width(size),
        m <= 0x8000_0000_0000_0000,
    ensures
        r == to_width(
            if neg {
                -(m as int)
            } else {
                m as int
            },
            size as nat,
        ),
{
    proof {
        lemma2_to64();
        lemma2_to64_rest();
    }
    if !neg {
        let r = mask_to_size(m, size as usize);
        proof {
            if size == 64 {
                assert((m as int) % (pow2(64) as int) == m as int);
            } else {
                assert(r == ((m as int) % (pow2(size as nat) as int)) as u64);
            }
        }
        return r;
    }
    if m == 0x8000_0000_0000_0000 {
        from_signed(i64::MIN, size)
    } else {
        from_signed(-(m as i64), size)
    }
}

/// Signed division of `size`-bit words rounding toward zero; division by zero gives 1
/// for a negative dividend and all ones otherwise.
pub fn sdiv(x: u64, y: u64, size: u64) -> (r: u64)
    requires
        word_width(size),
    ensures
        r == sdiv_spec(x, y, size),
{
    let a = to_signed(x, size);
    let b = to_signed(y, size);
    if b == 0 {
        if a < 0 {
            return 1;
        }
        return get_minus_one(size as usize);
    }
    let ua = magnitude(a);
    let ub = magnitude(b);
    let q = ua / ub;
    assert(q <= ua) by (nonlinear_arith)
        requires
            ub >= 1,
            q == ua / ub,
    ;
    from_sign_magnitude((a < 0) != (b < 0), q, size)
}

/// Signed remainder of `size`-bit words, with the sign of the dividend; the remainder by
/// zero (a divisor whose low `size` bits are zero) is the dividend.
pub fn srem(x: u64, y: u64, size: u64) -> (r: u64)
    requires
        word_width(size),
    ensures
        r == srem_spec(x, y, size),
{
    if mask_to_size(y, size as usize) == 0 {
        return x;
    }
    let a = to_signed(x, size);
    let b = to_signed(y, size);
    proof {
        lemma_pow2_pos(size as nat);
        lemma_pow2_pos((size - 1) as nat);
        lemma2_to64_rest();
        if size < 64 {
            assert(mask(y, size as nat) < pow2(size as nat));
        } else {
            assert(mask(y, 64) == y);
            assert((y as int) < pow2(64));
        }
        assert(signed(y, size as nat) != 0);
    }
    let ua = magnitude(a);
    let ub = magnitude(b);
    let m = ua % ub;
    from_sign_magnitude(a < 0, m, size)
}

/// The shift amount of [`ashr`]: at most `size - 1`.
pub open spec fn shift_amount(y: u64, size: u64) -> nat {
    if y >= size {
        (size - 1) as nat
    } else {
        y as nat
    }
}

/// Arithmetic right shift of a `size`-bit word; amounts from `size - 1` up fill the word
/// with its sign.
pub fn ashr(x: u64, y: u64, size: u64) -> (r: u64)
    requires
        word_width(size),
    ensures
        r == ashr_spec(x, y, size),
{
    let s: u64 = if y >= size {
        size - 1
    } else {
        y
    };
    let a = to_signed(x, size);
    proof {
        lemma_u64_pow2_no_overflow(s as nat);
        lemma_u64_shl_is_mul(1, s);
        lemma_pow2_pos(s as nat);
    }
    let d: u64 = 1u64 << s;
    let q: i64 = if a >= 0 {
        ((a as u64) / d) as i64
    } else {
        let m = (-(a + 1)) as u64;
        proof {
            let mi = m as int;
            let di = d as int;
            lemma_fundamental_div_mod(mi, di);
            lemma_fundamental_div_mod(a as int, di);
            assert((a as int) / di == -(mi / di) - 1) by (nonlinear_arith)
                requires
                    a as int == -(mi + 1),
                    mi == di * (mi / di) + mi % di,
                    0 <= mi % di < di,
                    a as int == di * ((a as int) / di) + (a as int) % di,
                    0 <= (a as int) % di < di,
                    di > 0,
            ;
        }
        -((m / d) as i64) - 1
    };
    from_signed(q, size)
}

/// Sign extension of the low `size_x` bits of `x`, kept to `size` bits.
pub fn sign_extend(x: u64, size_x: usize, size: usize) -> (r: u64)
    requires
        1 <= size_x <= 64,
    ensures
        r == sign_extend_spec(x, size_x, size),
{
    let s = (size_x - 1) as u64;
    proof {
        lemma_u64_pow2_no_overflow(s as nat);
        lemma_u64_shl_is_mul(1, s);
    }
    let m: u64 = 1u64 << s;
    mask_to_size((x ^ m).wrapping_sub(m), size)
}

/// Subtraction modulo `2^64`.
pub open spec fn sub_wrap(a: u64, b: u64) -> u64 {
    if a >= b {
        (a - b) as u64
    } else {
        (a + 0x1_0000_0000_0000_0000 - b) as u64
    }
}

/// The value computed by [`shl`].
pub open spec fn shl_spec(x: u64, y: u64, size: u64) -> u64 {
    if y < 64 {
            x << y
        } else {
            0
        }
}

/// The value computed by [`shr`].
pub open spec fn shr_spec(x: u64, y: u64, size: u64) -> u64 {
    if y < 64 {
            x >> y
        } else {
            0
        }
}

/// The value computed by [`slt`].
pub open spec fn slt_spec(x: u64, y: u64, size: u64) -> u64 {
    if signed(x, size as nat) < signed(y, size as nat) {
            1u64
        } else {
            0u64
        }
}

/// The value computed by [`sle`].
pub open spec fn sle_spec(x: u64, y: u64, size: u64) -> u64 {
    if signed(x, size as nat) <= signed(y, size as nat) {
            1u64
        } else {
            0u64
        }
}

/// The value computed by [`sdiv`].
pub open spec fn sdiv_spec(x: u64, y: u64, size: u64) -> u64 {
    if signed(y, size as nat) == 0 {
            if signed(x, size as nat) < 0 {
                1
            } else {
                all_ones(size as nat)
            }
        } else {
            to_width(trunc_div(signed(x, size as nat), signed(y, size as nat)), size as nat)
        }
}

/// The value computed by [`srem`].
pub open spec fn srem_spec(x: u64, y: u64, size: u64) -> u64 {
    if mask(y, size as nat) == 0 {
            x
        } else {
            to_width(trunc_rem(signed(x, size as nat), signed(y, size as nat)), size as nat)
        }
}

/// The value computed by [`ashr`].
pub open spec fn ashr_spec(x: u64, y: u64, size: u64) -> u64 {
    to_width(signed(x, size as nat) / pow2(shift_amount(y, size)) as int, size as nat)
}

} // verus!
