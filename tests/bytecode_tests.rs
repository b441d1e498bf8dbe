use loki::bytecode::{decode_instruction, encode_instruction, RegisterAllocator};

#[test]
fn record_round_trip() {
    let fields = (5u16, 2u16, 3u16, 1u16, 0x10u64, 0xdeadbeefu64);
    let bytes = encode_instruction(fields);
    assert_eq!(bytes.len(), 24);
    assert_eq!(decode_instruction(&bytes), fields);
}

#[test]
fn record_is_little_endian() {
    let bytes = encode_instruction((0x0102, 0, 0, 0, 0x1122334455667788, 0xff));
    assert_eq!(bytes[0], 0x02);
    assert_eq!(bytes[1], 0x01);
    assert_eq!(bytes[8], 0x88);
    assert_eq!(bytes[15], 0x11);
    assert_eq!(bytes[16], 0xff);
    assert_eq!(bytes[23], 0x00);
}

#[test]
fn record_extreme_values() {
    let fields = (u16::MAX, 0, u16::MAX, 7, u64::MAX, 0);
    assert_eq!(decode_instruction(&encode_instruction(fields)), fields);
}

#[test]
fn registers_in_first_use_order() {
    let mut a = RegisterAllocator::new();
    assert_eq!(a.get_mut_var_index("out_reg"), 0);
    assert_eq!(a.get_mut_var_index("a"), 2);
    assert_eq!(a.get_mut_var_index("b"), 3);
    assert_eq!(a.get_mut_var_index("a"), 2);
    assert_eq!(a.get_mut_var_index("out_reg"), 0);
    assert_eq!(a.get_mut_var_index("c"), 4);
}
