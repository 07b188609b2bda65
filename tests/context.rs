use rmodbus::context::{
    get, get_bools_as_bytes, get_bulk, get_u32, get_words_as_bytes, set_bools_from_bytes,
    set_bulk, set_u32, set_words_from_bytes, ContextError, ModbusContext,
};

#[test]
fn set_then_get_within_size() {
    let mut ctx = ModbusContext::new(10, 10, 10, 10);
    assert_eq!(rmodbus::context::set(9, 1234u16, &mut ctx.holdings), Ok(()));
    assert_eq!(get(9, &ctx.holdings), Ok(1234));
    assert_eq!(rmodbus::context::set(0, true, &mut ctx.coils), Ok(()));
    assert_eq!(get(0, &ctx.coils), Ok(true));
    assert_eq!(get(1, &ctx.coils), Ok(false));
}

#[test]
fn set_and_get_fail_at_size() {
    let mut ctx = ModbusContext::new(10, 10, 10, 10);
    assert_eq!(rmodbus::context::set(10, 1u16, &mut ctx.inputs), Err(ContextError::OutOfRange));
    assert_eq!(get(10, &ctx.inputs), Err(ContextError::OutOfRange));
    assert_eq!(rmodbus::context::set(65535, true, &mut ctx.discretes), Err(ContextError::OutOfRange));
    assert_eq!(get(65535, &ctx.discretes), Err(ContextError::OutOfRange));
    assert_eq!(ctx.inputs, vec![0u16; 10]);
}

#[test]
fn full_address_space_bank() {
    let mut ctx = ModbusContext::new(0, 0, 65536, 0);
    assert_eq!(rmodbus::context::set(65535, 7u16, &mut ctx.holdings), Ok(()));
    assert_eq!(get(65535, &ctx.holdings), Ok(7));
}

#[test]
fn bulk_keeps_address_order() {
    let mut ctx = ModbusContext::new(0, 0, 20, 0);
    assert_eq!(set_bulk(10, &vec![10u16, 20, 30], &mut ctx.holdings), Ok(()));
    assert_eq!(get_bulk(9, 5, &ctx.holdings), Ok(vec![0, 10, 20, 30, 0]));
}

#[test]
fn bulk_out_of_range_writes_nothing() {
    let mut ctx = ModbusContext::new(0, 0, 20, 0);
    assert_eq!(set_bulk(18, &vec![1u16, 2, 3], &mut ctx.holdings), Err(ContextError::OutOfRange));
    assert_eq!(ctx.holdings, vec![0u16; 20]);
    assert_eq!(get_bulk(18, 3, &ctx.holdings), Err(ContextError::OutOfRange));
}

#[test]
fn u32_high_word_first() {
    let mut ctx = ModbusContext::new(0, 0, 4, 0);
    assert_eq!(set_u32(1, 0x1234_5678, &mut ctx.holdings), Ok(()));
    assert_eq!(ctx.holdings, vec![0, 0x1234, 0x5678, 0]);
    assert_eq!(get_u32(1, &ctx.holdings), Ok(0x1234_5678));
    assert_eq!(set_u32(3, 1, &mut ctx.holdings), Err(ContextError::OutOfRange));
    assert_eq!(get_u32(3, &ctx.holdings), Err(ContextError::OutOfRange));
    assert_eq!(ctx.holdings, vec![0, 0x1234, 0x5678, 0]);
}

#[test]
fn f32_bits_round_trip_through_words() {
    let mut ctx = ModbusContext::new(0, 0, 2, 0);
    assert_eq!(set_u32(0, 935.77f32.to_bits(), &mut ctx.holdings), Ok(()));
    assert_eq!(f32::from_bits(get_u32(0, &ctx.holdings).unwrap()), 935.77f32);
}

#[test]
fn bools_pack_low_bit_first() {
    let mut ctx = ModbusContext::new(16, 0, 0, 0);
    let values = vec![true, false, true, true, false, false, false, false, true];
    assert_eq!(set_bulk(1, &values, &mut ctx.coils), Ok(()));
    assert_eq!(get_bools_as_bytes(1, 9, &ctx.coils), Ok(vec![0x0D, 0x01]));
    assert_eq!(get_bools_as_bytes(0, 0, &ctx.coils), Ok(vec![]));
    assert_eq!(get_bools_as_bytes(10, 7, &ctx.coils), Err(ContextError::OutOfRange));
}

#[test]
fn bools_unpack_low_bit_first() {
    let mut ctx = ModbusContext::new(12, 0, 0, 0);
    assert_eq!(set_bools_from_bytes(2, 10, &vec![0xCD, 0x01], &mut ctx.coils), Ok(()));
    let expected = vec![
        false, false, true, false, true, true, false, false, true, true, true, false,
    ];
    assert_eq!(ctx.coils, expected);
}

#[test]
fn bools_unpack_errors() {
    let mut ctx = ModbusContext::new(12, 0, 0, 0);
    assert_eq!(set_bools_from_bytes(5, 8, &vec![0xFF], &mut ctx.coils), Err(ContextError::OutOfRange));
    assert_eq!(set_bools_from_bytes(0, 9, &vec![0xFF], &mut ctx.coils), Err(ContextError::Format));
    assert_eq!(ctx.coils, vec![false; 12]);
}

#[test]
fn words_pack_and_unpack_big_endian() {
    let mut ctx = ModbusContext::new(0, 0, 4, 0);
    assert_eq!(set_words_from_bytes(1, &vec![0x12, 0x34, 0xAB, 0xCD], &mut ctx.holdings), Ok(()));
    assert_eq!(ctx.holdings, vec![0, 0x1234, 0xABCD, 0]);
    assert_eq!(get_words_as_bytes(1, 2, &ctx.holdings), Ok(vec![0x12, 0x34, 0xAB, 0xCD]));
    assert_eq!(get_words_as_bytes(3, 2, &ctx.holdings), Err(ContextError::OutOfRange));
}

#[test]
fn words_unpack_errors() {
    let mut ctx = ModbusContext::new(0, 0, 4, 0);
    assert_eq!(set_words_from_bytes(0, &vec![1, 2, 3], &mut ctx.holdings), Err(ContextError::Format));
    assert_eq!(set_words_from_bytes(3, &vec![1, 2, 3, 4], &mut ctx.holdings), Err(ContextError::OutOfRange));
    assert_eq!(ctx.holdings, vec![0u16; 4]);
}

#[test]
fn dump_layout() {
    let mut ctx = ModbusContext::new(2, 1, 1, 2);
    ctx.coils[1] = true;
    ctx.discretes[0] = true;
    ctx.holdings[0] = 0x0102;
    ctx.inputs[1] = 0xFFFE;
    assert_eq!(ctx.dump(), vec![0, 1, 1, 0x01, 0x02, 0, 0, 0xFF, 0xFE]);
}

#[test]
fn dump_then_restore_into_fresh_context() {
    let mut a = ModbusContext::new(5, 3, 4, 2);
    a.coils[4] = true;
    a.discretes[0] = true;
    a.holdings = vec![1, 2, 65535, 256];
    a.inputs = vec![42, 0x8000];
    let bytes = a.dump();
    let mut b = ModbusContext::new(5, 3, 4, 2);
    assert_eq!(b.restore(&bytes), Ok(()));
    assert_eq!(b.coils, a.coils);
    assert_eq!(b.discretes, a.discretes);
    assert_eq!(b.holdings, a.holdings);
    assert_eq!(b.inputs, a.inputs);
}

#[test]
fn restore_rejects_bad_snapshots() {
    let mut ctx = ModbusContext::new(2, 1, 1, 0);
    ctx.holdings[0] = 9;
    assert_eq!(ctx.restore(&vec![0, 1, 0, 0]), Err(ContextError::Format));
    assert_eq!(ctx.restore(&vec![0, 2, 0, 0, 1]), Err(ContextError::Format));
    assert_eq!(ctx.holdings, vec![9]);
    assert_eq!(ctx.coils, vec![false, false]);
    assert_eq!(ctx.restore(&vec![1, 0, 1, 0, 5]), Ok(()));
    assert_eq!(ctx.coils, vec![true, false]);
    assert_eq!(ctx.discretes, vec![true]);
    assert_eq!(ctx.holdings, vec![5]);
}
