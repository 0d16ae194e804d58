use scapy_core::integer::Int;

#[test]
fn u8_and_i8_bytes() {
    assert_eq!(<u8 as Int>::to_be_bytes(0xab), [0xab]);
    assert_eq!(<u8 as Int>::to_le_bytes(0xab), [0xab]);
    assert_eq!(<u8 as Int>::from_be_bytes([0xab]), 0xab);
    assert_eq!(<i8 as Int>::to_be_bytes(-1), [0xff]);
    assert_eq!(<i8 as Int>::to_le_bytes(-128), [0x80]);
    assert_eq!(<i8 as Int>::from_le_bytes([0x80]), -128);
    assert_eq!(<i8 as Int>::from_be_bytes([0x7f]), 127);
}

#[test]
fn u16_bytes_in_both_orders() {
    assert_eq!(<u16 as Int>::to_be_bytes(0x1234), [0x12, 0x34]);
    assert_eq!(<u16 as Int>::to_le_bytes(0x1234), [0x34, 0x12]);
    assert_eq!(<u16 as Int>::from_be_bytes([0x12, 0x34]), 0x1234);
    assert_eq!(<u16 as Int>::from_le_bytes([0x12, 0x34]), 0x3412);
}

#[test]
fn i16_is_twos_complement() {
    assert_eq!(<i16 as Int>::to_be_bytes(-2), [0xff, 0xfe]);
    assert_eq!(<i16 as Int>::to_le_bytes(-2), [0xfe, 0xff]);
    assert_eq!(<i16 as Int>::from_be_bytes([0x80, 0x00]), i16::MIN);
    assert_eq!(<i16 as Int>::from_le_bytes([0xff, 0x7f]), i16::MAX);
}

#[test]
fn unsigned_agree_with_the_primitive_conversions() {
    for x in [0u16, 1, 0x00ff, 0x0100, 0x1234, u16::MAX] {
        assert_eq!(<u16 as Int>::to_be_bytes(x), x.to_be_bytes());
        assert_eq!(<u16 as Int>::to_le_bytes(x), x.to_le_bytes());
        assert_eq!(<u16 as Int>::from_be_bytes(x.to_be_bytes()), x);
        assert_eq!(<u16 as Int>::from_le_bytes(x.to_le_bytes()), x);
    }
    for x in [0u32, 1, 0xdead_beef, u32::MAX] {
        assert_eq!(<u32 as Int>::to_be_bytes(x), x.to_be_bytes());
        assert_eq!(<u32 as Int>::to_le_bytes(x), x.to_le_bytes());
        assert_eq!(<u32 as Int>::from_be_bytes(x.to_be_bytes()), x);
        assert_eq!(<u32 as Int>::from_le_bytes(x.to_le_bytes()), x);
    }
    for x in [0u64, 1, 0x0123_4567_89ab_cdef, u64::MAX] {
        assert_eq!(<u64 as Int>::to_be_bytes(x), x.to_be_bytes());
        assert_eq!(<u64 as Int>::to_le_bytes(x), x.to_le_bytes());
        assert_eq!(<u64 as Int>::from_be_bytes(x.to_be_bytes()), x);
        assert_eq!(<u64 as Int>::from_le_bytes(x.to_le_bytes()), x);
    }
    for x in [0u128, 1, 0x0123_4567_89ab_cdef_fedc_ba98_7654_3210, u128::MAX] {
        assert_eq!(<u128 as Int>::to_be_bytes(x), x.to_be_bytes());
        assert_eq!(<u128 as Int>::to_le_bytes(x), x.to_le_bytes());
        assert_eq!(<u128 as Int>::from_be_bytes(x.to_be_bytes()), x);
        assert_eq!(<u128 as Int>::from_le_bytes(x.to_le_bytes()), x);
    }
}

#[test]
fn signed_agree_with_the_primitive_conversions() {
    for x in [0i8, 1, -1, i8::MIN, i8::MAX] {
        assert_eq!(<i8 as Int>::to_be_bytes(x), x.to_be_bytes());
        assert_eq!(<i8 as Int>::from_le_bytes(x.to_le_bytes()), x);
    }
    for x in [0i16, 1, -1, -256, 255, i16::MIN, i16::MAX] {
        assert_eq!(<i16 as Int>::to_be_bytes(x), x.to_be_bytes());
        assert_eq!(<i16 as Int>::to_le_bytes(x), x.to_le_bytes());
        assert_eq!(<i16 as Int>::from_be_bytes(x.to_be_bytes()), x);
        assert_eq!(<i16 as Int>::from_le_bytes(x.to_le_bytes()), x);
    }
    for x in [0i32, 1, -1, -123_456_789, i32::MIN, i32::MAX] {
        assert_eq!(<i32 as Int>::to_be_bytes(x), x.to_be_bytes());
        assert_eq!(<i32 as Int>::to_le_bytes(x), x.to_le_bytes());
        assert_eq!(<i32 as Int>::from_be_bytes(x.to_be_bytes()), x);
        assert_eq!(<i32 as Int>::from_le_bytes(x.to_le_bytes()), x);
    }
    for x in [0i64, 1, -1, -1_234_567_890_123, i64::MIN, i64::MAX] {
        assert_eq!(<i64 as Int>::to_be_bytes(x), x.to_be_bytes());
        assert_eq!(<i64 as Int>::to_le_bytes(x), x.to_le_bytes());
        assert_eq!(<i64 as Int>::from_be_bytes(x.to_be_bytes()), x);
        assert_eq!(<i64 as Int>::from_le_bytes(x.to_le_bytes()), x);
    }
    for x in [0i128, 1, -1, i128::MIN, i128::MAX, -0x0123_4567_89ab_cdef_0123] {
        assert_eq!(<i128 as Int>::to_be_bytes(x), x.to_be_bytes());
        assert_eq!(<i128 as Int>::to_le_bytes(x), x.to_le_bytes());
        assert_eq!(<i128 as Int>::from_be_bytes(x.to_be_bytes()), x);
        assert_eq!(<i128 as Int>::from_le_bytes(x.to_le_bytes()), x);
    }
}
