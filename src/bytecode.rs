//! Fixed-width instruction records of the virtual machine and register numbering.
use crate::expr::str_eq;
use vstd::string::StringExecFns;
use crate::keys::MetaALUKeys;
use crate::scheduler::{SchedulerIndex, SchedulerMap, SemanticsBlock};
use vstd::prelude::*;

verus! {

/// Length in bytes of one instruction record.
pub const INSTRUCTION_LEN: usize = 24;

/// The fields of one record: handler, destination register, two source registers,
/// immediate and key.
pub type InstructionFields = (u16, u16, u16, u16, u64, u64);

/// Little-endian bytes of a 16-bit word.
pub open spec fn le_bytes16(x: u16) -> Seq<u8> {
    seq![x as u8, (x >> 8u16) as u8]
}

/// Little-endian bytes of a 64-bit word.
pub open spec fn le_bytes64(x: u64) -> Seq<u8> {
    seq![
        x as u8,
        (x >> 8u64) as u8,
        (x >> 16u64) as u8,
        (x >> 24u64) as u8,
        (x >> 32u64) as u8,
        (x >> 40u64) as u8,
        (x >> 48u64) as u8,
        (x >> 56u64) as u8,
    ]
}

/// The record of `f`: its fields in order, each little-endian.
pub open spec fn encoding(f: InstructionFields) -> Seq<u8> {
    le_bytes16(f.0) + le_bytes16(f.1) + le_bytes16(f.2) + le_bytes16(f.3) + le_bytes64(f.4)
        + le_bytes64(f.5)
}

/// The 16-bit word whose little-endian bytes are `b`.
pub open spec fn word16(b0: u8, b1: u8) -> u16 {
    (b0 as u16 | ((b1 as u16) << 8u16)) as u16
}

/// The 64-bit word whose little-endian bytes are `b[at..at + 8]`.
pub open spec fn word64(b: Seq<u8>, at: int) -> u64 {
    (b[at] as u64 | ((b[at + 1] as u64) << 8u64) | ((b[at + 2] as u64) << 16u64) | ((b[at
        + 3] as u64) << 24u64) | ((b[at + 4] as u64) << 32u64) | ((b[at + 5] as u64) << 40u64)
        | ((b[at + 6] as u64) << 48u64) | ((b[at + 7] as u64) << 56u64)) as u64
}

/// The fields read back from a 24-byte record.
pub open spec fn decoding(b: Seq<u8>) -> InstructionFields {
    (
        word16(b[0], b[1]),
        word16(b[2], b[3]),
        word16(b[4], b[5]),
        word16(b[6], b[7]),
        word64(b, 8),
        word64(b, 16),
    )
}

fn push_u16(out: &mut Vec<u8>, x: u16)
    ensures
        final(out)@ == old(out)@ + le_bytes16(x),
{
    out.push(x as u8);
    out.push((x >> 8u16) as u8);
    assert(final(out)@ =~= old(out)@ + le_bytes16(x));
}

fn push_u64(out: &mut Vec<u8>, x: u64)
    ensures
        final(out)@ == old(out)@ + le_bytes64(x),
{
    out.push(x as u8);
    out.push((x >> 8u64) as u8);
    out.push((x >> 16u64) as u8);
    out.push((x >> 24u64) as u8);
    out.push((x >> 32u64) as u8);
    out.push((x >> 40u64) as u8);
    out.push((x >> 48u64) as u8);
    out.push((x >> 56u64) as u8);
    assert(final(out)@ =~= old(out)@ + le_bytes64(x));
}

/// Writes one record.
pub fn encode_instruction(f: InstructionFields) -> (r: Vec<u8>)
    ensures
        r@ == encoding(f),
        r@.len() == INSTRUCTION_LEN,
{
    let mut out: Vec<u8> = Vec::with_capacity(INSTRUCTION_LEN);
    push_u16(&mut out, f.0);
    push_u16(&mut out, f.1);
    push_u16(&mut out, f.2);
    push_u16(&mut out, f.3);
    push_u64(&mut out, f.4);
    push_u64(&mut out, f.5);
    assert(out@ =~= encoding(f));
    out
}

fn read_u16(b: &[u8], at: usize) -> (r: u16)
    requires
        at + 2 <= b@.len(),
    ensures
        r == word16(b@[at as int], b@[at + 1]),
{
    (b[at] as u16) | ((b[at + 1] as u16) << 8u16)
}

fn read_u64(b: &[u8], at: usize) -> (r: u64)
    requires
        at + 8 <= b@.len(),
    ensures
        r == word64(b@, at as int),
{
    (b[at] as u64) | ((b[at + 1] as u64) << 8u64) | ((b[at + 2] as u64) << 16u64) | ((b[at
        + 3] as u64) << 24u64) | ((b[at + 4] as u64) << 32u64) | ((b[at + 5] as u64) << 40u64)
        | ((b[at + 6] as u64) << 48u64) | ((b[at + 7] as u64) << 56u64)
}

/// Reads the fields of one 24-byte record.
pub fn decode_instruction(instr_bytes: &[u8]) -> (r: InstructionFields)
    requires
        instr_bytes@.len() == INSTRUCTION_LEN,
    ensures
        r == decoding(instr_bytes@),
{
    (
        read_u16(instr_bytes, 0),
        read_u16(instr_bytes, 2),
        read_u16(instr_bytes, 4),
        read_u16(instr_bytes, 6),
        read_u64(instr_bytes, 8),
        read_u64(instr_bytes, 16),
    )
}

proof fn lemma_word16_round_trip(x: u16)
    ensures
        word16(x as u8, (x >> 8u16) as u8) == x,
{
    assert(((x as u8) as u16 | ((((x >> 8u16) as u8) as u16) << 8u16)) as u16 == x)
        by (bit_vector);
}

proof fn lemma_word64_round_trip(x: u64)
    ensures
        word64(le_bytes64(x), 0) == x,
{
    let b = le_bytes64(x);
    assert(((x as u8) as u64 | ((((x >> 8u64) as u8) as u64) << 8u64) | ((((x >> 16u64) as u8)
        as u64) << 16u64) | ((((x >> 24u64) as u8) as u64) << 24u64) | ((((x >> 32u64) as u8)
        as u64) << 32u64) | ((((x >> 40u64) as u8) as u64) << 40u64) | ((((x >> 48u64) as u8)
        as u64) << 48u64) | ((((x >> 56u64) as u8) as u64) << 56u64)) as u64 == x)
        by (bit_vector);
}

proof fn lemma_word64_at(b: Seq<u8>, at: int, x: u64)
    requires
        0 <= at,
        at + 8 <= b.len(),
        b.subrange(at, at + 8) == le_bytes64(x),
    ensures
        word64(b, at) == x,
{
    let l = le_bytes64(x);
    assert(b[at] == l[0]);
    assert(b[at + 1] == l[1]);
    assert(b[at + 2] == l[2]);
    assert(b[at + 3] == l[3]);
    assert(b[at + 4] == l[4]);
    assert(b[at + 5] == l[5]);
    assert(b[at + 6] == l[6]);
    assert(b[at + 7] == l[7]);
    lemma_word64_round_trip(x);
}

/// Reading a written record gives back its fields.
pub proof fn lemma_decode_encode(f: InstructionFields)
    ensures
        decoding(encoding(f)) == f,
{
    let b = encoding(f);
    lemma_word16_round_trip(f.0);
    lemma_word16_round_trip(f.1);
    lemma_word16_round_trip(f.2);
    lemma_word16_round_trip(f.3);
    assert(b.subrange(8, 16) =~= le_bytes64(f.4));
    assert(b.subrange(16, 24) =~= le_bytes64(f.5));
    lemma_word64_at(b, 8, f.4);
    lemma_word64_at(b, 16, f.5);
    assert(b[0] == f.0 as u8 && b[1] == (f.0 >> 8u16) as u8);
    assert(b[2] == f.1 as u8 && b[3] == (f.1 >> 8u16) as u8);
    assert(b[4] == f.2 as u8 && b[5] == (f.2 >> 8u16) as u8);
    assert(b[6] == f.3 as u8 && b[7] == (f.3 >> 8u16) as u8);
}

/// Register number of the output variable.
pub const OUTPUT_REGISTER: u16 = 0;

/// Register number of the operand that stands for "no operand".
pub const NO_OPERAND_REGISTER: u16 = 1;

/// Name of the output variable, which always gets register 0.
pub open spec fn output_name() -> Seq<char> {
    seq!['o', 'u', 't', '_', 'r', 'e', 'g']
}

/// Assigns virtual registers to variable names: the output is 0, 1 stands for
/// "no operand", every other name is numbered from 2 in order of first use.
pub struct RegisterAllocator {
    pub names: Vec<String>,
}

/// `r` is the register of `name` once `names` (without repetitions) have been numbered.
pub open spec fn is_register_of(names: Seq<Seq<char>>, name: Seq<char>, r: int) -> bool {
    if name == output_name() {
        r == 0
    } else if names.contains(name) {
        2 <= r < names.len() + 2 && names[r - 2] == name
    } else {
        r == names.len() + 2
    }
}

/// Register `r` is given to `name` by the numbering `names`.
pub open spec fn assigned(names: Seq<Seq<char>>, name: Seq<char>, r: int) -> bool {
    ||| name == output_name() && r == 0
    ||| 2 <= r < names.len() + 2 && names[r - 2] == name
}

/// A numbering only grows: names keep their registers.
pub proof fn lemma_assigned_grows(a: Seq<Seq<char>>, b: Seq<Seq<char>>, name: Seq<char>, r: int)
    requires
        assigned(a, name, r),
        a.len() <= b.len(),
        b.subrange(0, a.len() as int) == a,
    ensures
        assigned(b, name, r),
{
    if 2 <= r < a.len() + 2 && a[r - 2] == name {
        assert(b[r - 2] == b.subrange(0, a.len() as int)[r - 2]);
    }
}

impl RegisterAllocator {
    pub open spec fn names_view(&self) -> Seq<Seq<char>> {
        self.names@.map_values(|s: String| s@)
    }

    pub fn new() -> (r: RegisterAllocator)
        ensures
            r.names_view() == Seq::<Seq<char>>::empty(),
    {
        let r = RegisterAllocator { names: Vec::new() };
        assert(r.names_view() =~= Seq::<Seq<char>>::empty());
        r
    }

    /// The register of `name`, numbering it if it is new.
    pub fn get_mut_var_index(&mut self, name: &str) -> (r: usize)
        requires
            old(self).names_view().no_duplicates(),
            !old(self).names_view().contains(output_name()),
            old(self).names@.len() + 2 < usize::MAX,
        ensures
            is_register_of(old(self).names_view(), name@, r as int),
            assigned(final(self).names_view(), name@, r as int),
            final(self).names_view().no_duplicates(),
            !final(self).names_view().contains(output_name()),
            name@ == output_name() || old(self).names_view().contains(name@)
                ==> final(self).names_view() == old(self).names_view(),
            !(name@ == output_name() || old(self).names_view().contains(name@))
                ==> final(self).names_view() == old(self).names_view().push(name@),
    {
        proof {
            reveal_strlit("out_reg");
        }
        if str_eq(name, "out_reg") {
            assert("out_reg"@ =~= output_name());
            assert(name@ == output_name());
            return 0;
        }
        assert("out_reg"@ =~= output_name());
        let mut i: usize = 0;
        let mut found = false;
        while i < self.names.len() && !found
            invariant
                i <= self.names@.len(),
                self.names@.len() + 2 < usize::MAX,
                !found ==> forall|j: int| 0 <= j < i ==> self.names_view()[j] != name@,
                found ==> 0 < i && self.names_view()[i - 1] == name@,
            decreases self.names@.len() - i,
        {
            if str_eq(self.names[i].as_str(), name) {
                found = true;
            }
            i += 1;
        }
        if found {
            assert(self.names_view()[i - 1] == name@);
            assert(self.names_view() == old(self).names_view());
            assert(self.names_view().contains(name@));
            return i + 1;
        }
        assert(!self.names_view().contains(name@));
        let index = self.names.len() + 2;
        let ghost before = self.names_view();
        self.names.push(name.to_owned());
        assert(self.names_view() =~= before.push(name@));
        assert(self.names_view()[index - 2] == name@);
        index
    }
}

/// The register field `field` names the register of `name`.
pub open spec fn reg_field(names: Seq<Seq<char>>, name: Seq<char>, field: u16) -> bool {
    exists|r: int| assigned(names, name, r) && field == r as u16
}

/// The name of a single-register expression.
pub open spec fn var_name_of(e: crate::expr::LinearizedExpr) -> Seq<char> {
    e@[0].op->Reg_0
}

/// A block that can be translated: its output and inputs are registers, at most two inputs.
pub open spec fn translatable(b: SemanticsBlock) -> bool {
    &&& b.output_variable@.len() == 1
    &&& b.output_variable@[0].op is Reg
    &&& b.input_variables@.len() <= 2
    &&& forall|j: int|
        0 <= j < b.input_variables@.len() ==> (#[trigger] b.input_variables@[j])@.len() == 1
            && b.input_variables@[j]@[0].op is Reg
}

/// The record `f` encodes block `b` scheduled at `s`, with registers numbered by `names`.
pub open spec fn record_ok(
    names: Seq<Seq<char>>,
    b: SemanticsBlock,
    s: SchedulerIndex,
    keys: MetaALUKeys,
    f: InstructionFields,
) -> bool {
    let ins = b.input_variables@;
    &&& f.0 == s.alu_index as u16
    &&& reg_field(names, var_name_of(b.output_variable), f.1)
    &&& ins.len() == 0 ==> f.2 == 1 && f.3 == 1
    &&& ins.len() == 1 ==> reg_field(names, var_name_of(ins[0]), f.2) && f.3 == 1
    &&& ins.len() == 2 ==> reg_field(names, var_name_of(ins[0]), f.2) && reg_field(
        names,
        var_name_of(ins[1]),
        f.3,
    )
    &&& f.4 == match b.immediate {
        Some(v) => v,
        None => 0,
    }
    &&& f.5 == keys.0@[s.alu_index].keys@[s.key_index as int]
}

/// `a` is a prefix of `b`.
pub open spec fn extends(a: Seq<Seq<char>>, b: Seq<Seq<char>>) -> bool {
    a.len() <= b.len() && b.subrange(0, a.len() as int) == a
}

proof fn lemma_extends_trans(a: Seq<Seq<char>>, b: Seq<Seq<char>>, c: Seq<Seq<char>>)
    requires
        extends(a, b),
        extends(b, c),
    ensures
        extends(a, c),
{
    assert(c.subrange(0, a.len() as int) =~= b.subrange(0, a.len() as int));
}

proof fn lemma_reg_field_grows(a: Seq<Seq<char>>, b: Seq<Seq<char>>, name: Seq<char>, field: u16)
    requires
        reg_field(a, name, field),
        extends(a, b),
    ensures
        reg_field(b, name, field),
{
    let r = choose|r: int| assigned(a, name, r) && field == r as u16;
    lemma_assigned_grows(a, b, name, r);
}

proof fn lemma_record_grows(
    a: Seq<Seq<char>>,
    b: Seq<Seq<char>>,
    blk: SemanticsBlock,
    s: SchedulerIndex,
    keys: MetaALUKeys,
    f: InstructionFields,
)
    requires
        record_ok(a, blk, s, keys, f),
        extends(a, b),
    ensures
        record_ok(b, blk, s, keys, f),
{
    let ins = blk.input_variables@;
    lemma_reg_field_grows(a, b, var_name_of(blk.output_variable), f.1);
    if ins.len() == 1 || ins.len() == 2 {
        lemma_reg_field_grows(a, b, var_name_of(ins[0]), f.2);
    }
    if ins.len() == 2 {
        lemma_reg_field_grows(a, b, var_name_of(ins[1]), f.3);
    }
}

/// Lowers scheduled blocks to instruction records.
pub struct ByteCodeTranslator {
    pub variable_map: RegisterAllocator,
}

impl ByteCodeTranslator {
    pub fn new() -> (r: ByteCodeTranslator)
        ensures
            r.variable_map.names_view() == Seq::<Seq<char>>::empty(),
    {
        ByteCodeTranslator { variable_map: RegisterAllocator::new() }
    }

    fn index_of(&mut self, e: &crate::expr::LinearizedExpr) -> (r: u16)
        requires
            e@.len() == 1,
            e@[0].op is Reg,
            old(self).variable_map.names_view().no_duplicates(),
            !old(self).variable_map.names_view().contains(output_name()),
            old(self).variable_map.names@.len() + 3 < usize::MAX,
        ensures
            reg_field(final(self).variable_map.names_view(), e@[0].op->Reg_0, r),
            final(self).variable_map.names_view().no_duplicates(),
            !final(self).variable_map.names_view().contains(output_name()),
            final(self).variable_map.names@.len() <= old(self).variable_map.names@.len() + 1,
            extends(old(self).variable_map.names_view(), final(self).variable_map.names_view()),
    {
        let ghost before = self.variable_map.names_view();
        let i = self.variable_map.get_mut_var_index(e.get_var_name());
        assert(self.variable_map.names_view().subrange(0, before.len() as int) =~= before);
        i as u16
    }

    /// One 24-byte record per block, in block order.
    pub fn translate_to_bytecode(
        &mut self,
        blocks: &Vec<SemanticsBlock>,
        keys: &MetaALUKeys,
        scheduler_map: &SchedulerMap,
    ) -> (r: Vec<u8>)
        requires
            old(self).variable_map.names_view().no_duplicates(),
            !old(self).variable_map.names_view().contains(output_name()),
            old(self).variable_map.names@.len() + 3 * blocks@.len() + 3 < usize::MAX,
            scheduler_map.map@.len() == blocks@.len(),
            forall|i: int| 0 <= i < blocks@.len() ==> translatable(#[trigger] blocks@[i]),
            forall|i: int|
                0 <= i < blocks@.len() ==> keys.0@.contains_key(
                    (#[trigger] scheduler_map.map@[i]).alu_index,
                ) && scheduler_map.map@[i].key_index < keys.0@[scheduler_map.map@[i].alu_index].keys@.len(),
        ensures
            r@.len() == INSTRUCTION_LEN * blocks@.len(),
            forall|i: int|
                0 <= i < blocks@.len() ==> record_ok(
                    final(self).variable_map.names_view(),
                    blocks@[i],
                    scheduler_map.map@[i],
                    *keys,
                    #[trigger] decoding(r@.subrange(i * 24, i * 24 + 24)),
                ),
    {
        let mut ret: Vec<u8> = Vec::new();
        let mut i: usize = 0;
        let ghost start_len = self.variable_map.names@.len();
        while i < blocks.len()
            invariant
                i <= blocks@.len(),
                scheduler_map.map@.len() == blocks@.len(),
                forall|t: int| 0 <= t < blocks@.len() ==> translatable(#[trigger] blocks@[t]),
                forall|t: int|
                    0 <= t < blocks@.len() ==> keys.0@.contains_key(
                        (#[trigger] scheduler_map.map@[t]).alu_index,
                    ) && scheduler_map.map@[t].key_index < keys.0@[scheduler_map.map@[t].alu_index].keys@.len(),
                self.variable_map.names_view().no_duplicates(),
                !self.variable_map.names_view().contains(output_name()),
                self.variable_map.names@.len() <= start_len + 3 * i,
                start_len + 3 * blocks@.len() + 3 < usize::MAX,
                ret@.len() == 24 * i,
                forall|t: int|
                    0 <= t < i ==> record_ok(
                        self.variable_map.names_view(),
                        blocks@[t],
                        scheduler_map.map@[t],
                        *keys,
                        #[trigger] decoding(ret@.subrange(t * 24, t * 24 + 24)),
                    ),
            decreases blocks@.len() - i,
        {
            let block = &blocks[i];
            let entry = scheduler_map.map[i];
            assert(translatable(blocks@[i as int]));
            let ghost names0 = self.variable_map.names_view();
            let r0 = self.index_of(&block.output_variable);
            let ghost names_a = self.variable_map.names_view();
            let n_in = block.input_variables.len();
            let (r1, r2) = if n_in == 0 {
                (1u16, 1u16)
            } else if n_in == 1 {
                assert(block.input_variables@[0]@.len() == 1);
                let a = self.index_of(&block.input_variables[0]);
                proof {
                    lemma_reg_field_grows(names_a, self.variable_map.names_view(), var_name_of(block.output_variable), r0);
                }
                (a, 1u16)
            } else {
                assert(block.input_variables@[0]@.len() == 1);
                assert(block.input_variables@[1]@.len() == 1);
                let a = self.index_of(&block.input_variables[0]);
                let ghost names_b = self.variable_map.names_view();
                let b = self.index_of(&block.input_variables[1]);
                proof {
                    let nc = self.variable_map.names_view();
                    lemma_extends_trans(names_a, names_b, nc);
                    lemma_reg_field_grows(names_a, nc, var_name_of(block.output_variable), r0);
                    lemma_reg_field_grows(names_b, nc, var_name_of(block.input_variables@[0]), a);
                }
                (a, b)
            };
            let ghost names1 = self.variable_map.names_view();
            proof {
                assert(names1.subrange(0, names1.len() as int) =~= names1);
                lemma_extends_trans(names0, names_a, names1);
            }
            let imm: u64 = match block.immediate {
                Some(v) => v,
                None => 0,
            };
            let alu_keys = keys.get(&entry.alu_index).unwrap();
            let key = alu_keys.get(entry.key_index);
            let f: InstructionFields = (#[verifier::truncate] (entry.alu_index as u16), r0, r1, r2, imm, key);
            let rec = encode_instruction(f);
            let ghost before = ret@;
            let mut rec = rec;
            ret.append(&mut rec);
            proof {
                lemma_decode_encode(f);
                assert(ret@.subrange(i * 24, i * 24 + 24) =~= encoding(f));
                assert(record_ok(names1, blocks@[i as int], scheduler_map.map@[i as int], *keys, f));
                assert forall|t: int|
                    0 <= t < i + 1 implies record_ok(
                        self.variable_map.names_view(),
                        blocks@[t],
                        scheduler_map.map@[t],
                        *keys,
                        #[trigger] decoding(ret@.subrange(t * 24, t * 24 + 24)),
                    ) by {
                    if t < i {
                        assert(ret@.subrange(t * 24, t * 24 + 24) =~= before.subrange(t * 24, t * 24 + 24));
                        lemma_record_grows(names0, names1, blocks@[t], scheduler_map.map@[t], *keys, decoding(before.subrange(t * 24, t * 24 + 24)));
                    }
                }
            }
            i += 1;
        }
        ret
    }
}

/// Hexadecimal text of `v`, padded with zeros to at least `w` digits.
pub open spec fn hex_padded(v: nat, w: nat) -> Seq<char> {
    let d = crate::render::digits(v, true);
    if d.len() < w {
        Seq::new((w - d.len()) as nat, |i: int| '0') + d
    } else {
        d
    }
}

fn push_hex_padded(out: &mut String, v: u64, w: usize)
    ensures
        final(out)@ == old(out)@ + hex_padded(v as nat, w as nat),
{
    let mut d = String::new();
    crate::render::push_digits(&mut d, v, true);
    assert(d@ =~= crate::render::digits(v as nat, true));
    let n = d.unicode_len();
    let ghost start = out@;
    if n < w {
        let mut k: usize = 0;
        while k < w - n
            invariant
                k <= w - n,
                n < w,
                out@ == start + Seq::new(k as nat, |i: int| '0'),
            decreases w - n - k,
        {
            proof {
                reveal_strlit("0");
            }
            out.append("0");
            k += 1;
            assert(out@ =~= start + Seq::new(k as nat, |i: int| '0'));
        }
    }
    out.append(d.as_str());
    assert(final(out)@ =~= old(out)@ + hex_padded(v as nat, w as nat));
}

/// The text of one record: its fields as groups of two-digit bytes.
pub open spec fn record_text(b: Seq<u8>) -> Seq<char> {
    let h = |i: int| hex_padded(b[i] as nat, 2);
    h(0) + h(1) + " "@ + h(2) + h(3) + " "@ + h(4) + h(5) + " "@ + h(6) + h(7) + " "@ + h(8) + h(9)
        + h(10) + h(11) + h(12) + h(13) + h(14) + h(15) + " "@ + h(16) + h(17) + h(18) + h(19)
        + h(20) + h(21) + h(22) + h(23) + "\n"@
}

/// Assignments whose sides can be rendered.
pub open spec fn printable(a: Seq<crate::assignment::Assignment>) -> bool {
    forall|i: int|
        0 <= i < a.len() ==> crate::expr::well_formed(#[trigger] a[i].lhs@) && crate::expr::well_formed(a[i].rhs@)
}

/// The text of the first `n` records, each after its assignment.
pub open spec fn listing(a: Seq<crate::assignment::Assignment>, code: Seq<u8>, n: nat) -> Seq<char>
    decreases n,
{
    if n == 0 {
        Seq::empty()
    } else {
        listing(a, code, (n - 1) as nat) + crate::assignment::assignment_text(&a[n - 1]) + "\n"@
            + record_text(code.subrange((n - 1) * 24, (n * 24) as int))
    }
}

/// The text of the numbering of the first `n` names.
pub open spec fn names_text(names: Seq<Seq<char>>, n: nat) -> Seq<char>
    decreases n,
{
    if n == 0 {
        Seq::empty()
    } else {
        names_text(names, (n - 1) as nat) + names[n - 1] + ": "@ + hex_padded((n - 1 + 2) as nat, 4) + "\n"@
    }
}

fn push_record(ret: &mut String, bytecode: &Vec<u8>, base: usize)
    requires
        base + 24 <= bytecode@.len(),
    ensures
        final(ret)@ == old(ret)@ + record_text(bytecode@.subrange(base as int, base + 24)),
{
    let ghost b = bytecode@.subrange(base as int, base + 24);
    let n = bytecode.len();
    let mut k: usize = 0;
    while k < 24
        invariant
            k <= 24,
            n == bytecode@.len(),
            base + 24 <= bytecode@.len(),
            b == bytecode@.subrange(base as int, base + 24),
            ret@ == old(ret)@ + record_prefix(b, k as int),
        decreases 24 - k,
    {
        let ghost before = ret@;
        if k == 2 || k == 4 || k == 6 || k == 8 || k == 16 {
            proof {
                reveal_strlit(" ");
            }
            ret.append(" ");
        }
        assert(b[k as int] == bytecode@[base + k]);
        push_hex_padded(ret, bytecode[base + k] as u64, 2);
        k += 1;
        assert(ret@ =~= old(ret)@ + record_prefix(b, k as int));
    }
    ret.append("\n");
    proof {
        lemma_record_prefix(b);
    }
    assert(ret@ =~= old(ret)@ + record_text(b));
}

impl ByteCodeTranslator {
    /// Each record after the assignment it encodes, then the register numbering.
    pub fn to_string(&self, assignments: &Vec<crate::assignment::Assignment>, bytecode: &Vec<u8>) -> (r: String)
        requires
            bytecode@.len() % 24 == 0,
            bytecode@.len() / 24 <= assignments@.len(),
            self.variable_map.names@.len() + 2 < usize::MAX,
            printable(assignments@),
        ensures
            r@ == listing(assignments@, bytecode@, (bytecode@.len() / 24) as nat) + "\n\nvariable map:\n"@
                + names_text(self.variable_map.names_view(), self.variable_map.names@.len() as nat),
    {
        let mut ret = String::new();
        let len = bytecode.len();
        let count = len / 24;
        proof {
            vstd::arithmetic::div_mod::lemma_fundamental_div_mod(bytecode@.len() as int, 24);
        }
        let mut i: usize = 0;
        assert(ret@ =~= listing(assignments@, bytecode@, 0));
        while i < count
            invariant
                i <= count,
                count == bytecode@.len() / 24,
                bytecode@.len() == count * 24,
                len == bytecode@.len(),
                count <= assignments@.len(),
                printable(assignments@),
                ret@ == listing(assignments@, bytecode@, i as nat),
            decreases count - i,
        {
            assert(crate::expr::well_formed(assignments@[i as int].lhs@) && crate::expr::well_formed(
                assignments@[i as int].rhs@,
            ));
            let t = assignments[i].to_string();
            ret.append(t.as_str());
            ret.append("\n");
            assert(i * 24 + 24 <= count * 24) by (nonlinear_arith)
                requires
                    i < count,
            ;
            let base = i * 24;
            push_record(&mut ret, bytecode, base);
            proof {
                let bb = bytecode@.subrange(base as int, base + 24);
                assert(bytecode@.subrange(((i + 1) as nat - 1) * 24, ((i + 1) as nat * 24) as int) == bb);
            }
            i += 1;
        }
        ret.append("\n\nvariable map:\n");
        let ghost head = ret@;
        let names = &self.variable_map.names;
        let mut j: usize = 0;
        assert(head =~= head + names_text(self.variable_map.names_view(), 0));
        while j < names.len()
            invariant
                j <= names@.len(),
                names == &self.variable_map.names,
                names@.len() + 2 < usize::MAX,
                ret@ == head + names_text(self.variable_map.names_view(), j as nat),
            decreases names@.len() - j,
        {
            assert(self.variable_map.names_view()[j as int] == names@[j as int]@);
            ret.append(names[j].as_str());
            ret.append(": ");
            let idx: u64 = (j as u64) + 2;
            push_hex_padded(&mut ret, idx, 4);
            ret.append("\n");
            j += 1;
            assert(ret@ =~= head + names_text(self.variable_map.names_view(), j as nat));
        }
        ret
    }
}

/// The text of the first `k` bytes of a record, with the group separators.
pub open spec fn record_prefix(b: Seq<u8>, k: int) -> Seq<char>
    decreases k,
{
    if k <= 0 {
        Seq::empty()
    } else {
        record_prefix(b, k - 1) + (if k - 1 == 2 || k - 1 == 4 || k - 1 == 6 || k - 1 == 8 || k - 1 == 16 {
            " "@
        } else {
            Seq::empty()
        }) + hex_padded(b[k - 1] as nat, 2)
    }
}

proof fn lemma_record_prefix(b: Seq<u8>)
    requires
        b.len() == 24,
    ensures
        record_prefix(b, 24) + "\n"@ == record_text(b),
{
    reveal_with_fuel(record_prefix, 25);
    assert(record_prefix(b, 24) + "\n"@ =~= record_text(b));
}

} // verus!
