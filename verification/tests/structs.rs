use scapy_core::structs::{calcsize, pack, NativeSizes, StructOrder, StructValue};

const LP64: NativeSizes = NativeSizes { short: 2, int: 4, long: 8, longlong: 8 };

#[test]
fn standard_sizes() {
    assert_eq!(calcsize("<c", &LP64), Ok(1));
    assert_eq!(calcsize("<bB?", &LP64), Ok(3));
    assert_eq!(calcsize("<hH", &LP64), Ok(4));
    assert_eq!(calcsize("<iIf", &LP64), Ok(12));
    assert_eq!(calcsize("<lL", &LP64), Ok(8));
    assert_eq!(calcsize("<qQd", &LP64), Ok(24));
    assert_eq!(calcsize(">hiq", &LP64), Ok(14));
    assert_eq!(calcsize("!cbB?hHiIlLqQfd", &LP64), Ok(1 + 1 + 1 + 1 + 2 + 2 + 4 + 4 + 4 + 4 + 8 + 8 + 4 + 8));
}

#[test]
fn native_sizes_are_the_machines() {
    assert_eq!(calcsize("@l", &LP64), Ok(8));
    assert_eq!(calcsize("@hil", &LP64), Ok(14));
    assert_eq!(calcsize("@cq", &LP64), Ok(9));
    assert_eq!(calcsize("@f", &LP64), Ok(4));
    let odd = NativeSizes { short: 3, int: 5, long: 7, longlong: 11 };
    assert_eq!(calcsize("@hHiIflLqQd", &odd), Ok(3 + 3 + 5 + 5 + 5 + 7 + 7 + 11 + 11 + 11));
    assert_eq!(calcsize("=hHiIflLqQd", &odd), Ok(2 + 2 + 4 + 4 + 4 + 4 + 4 + 8 + 8 + 8));
}

#[test]
fn the_first_character_is_the_byte_order() {
    assert_eq!(calcsize("", &LP64), Ok(0));
    assert_eq!(calcsize("<", &LP64), Ok(0));
    assert_eq!(calcsize("@", &LP64), Ok(0));
    assert_eq!(calcsize("hh", &LP64), Ok(2));
    assert_eq!(calcsize("xh", &LP64), Ok(2));
}

#[test]
fn bad_characters() {
    assert_eq!(calcsize("<x", &LP64), Err("bad char in struct format"));
    assert_eq!(calcsize("<hhz", &LP64), Err("bad char in struct format"));
    assert_eq!(calcsize("@h h", &LP64), Err("bad char in struct format"));
    assert_eq!(calcsize("<<", &LP64), Err("bad char in struct format"));
    assert_eq!(calcsize("<é", &LP64), Err("bad char in struct format"));
}

#[test]
fn a_size_that_cannot_be_counted() {
    let huge = NativeSizes { short: usize::MAX, int: 4, long: 8, longlong: 8 };
    assert_eq!(calcsize("@h", &huge), Ok(usize::MAX));
    assert_eq!(calcsize("@hc", &huge), Err("size too large"));
    assert_eq!(calcsize("@hhx", &huge), Err("bad char in struct format"));
    assert_eq!(calcsize("=hh", &huge), Ok(4));
}

const ILP32: NativeSizes = NativeSizes { short: 2, int: 4, long: 4, longlong: 8 };

fn every_value() -> Vec<(StructValue, Vec<u8>)> {
    vec![
        (StructValue::Char(0x41), vec![0x41]),
        (StructValue::SignedByte(-2), (-2i8).to_be_bytes().to_vec()),
        (StructValue::UnsignedByte(200), vec![200]),
        (StructValue::Short(-300), (-300i16).to_be_bytes().to_vec()),
        (StructValue::UnsignedShort(60000), 60000u16.to_be_bytes().to_vec()),
        (StructValue::Int(i32::MIN), i32::MIN.to_be_bytes().to_vec()),
        (StructValue::UnsignedInt(u32::MAX), u32::MAX.to_be_bytes().to_vec()),
        (StructValue::Long(-5), (-5i64).to_be_bytes().to_vec()),
        (StructValue::UnsignedLong(u64::MAX - 1), (u64::MAX - 1).to_be_bytes().to_vec()),
        (StructValue::LongLong(i128::MIN), i128::MIN.to_be_bytes().to_vec()),
        (StructValue::UnsignedLongLong(u128::MAX), u128::MAX.to_be_bytes().to_vec()),
        (StructValue::Float(1.5f32.to_bits()), 1.5f32.to_be_bytes().to_vec()),
        (StructValue::Double((-0.1f64).to_bits()), (-0.1f64).to_be_bytes().to_vec()),
    ]
}

#[test]
fn to_bytes_big_endian() {
    for (v, be) in every_value() {
        assert!(v.can_be_written(StructOrder::BigEndianStandard, &LP64));
        assert_eq!(v.to_bytes(StructOrder::BigEndianStandard, &LP64, true), be);
        assert_eq!(v.to_bytes(StructOrder::BigEndianStandard, &LP64, false), be);
    }
}

#[test]
fn to_bytes_little_endian() {
    for (v, mut be) in every_value() {
        be.reverse();
        assert_eq!(v.to_bytes(StructOrder::LittleEndianStandard, &LP64, true), be);
        assert_eq!(v.to_bytes(StructOrder::LittleEndianStandard, &LP64, false), be);
    }
}

#[test]
fn to_bytes_in_the_machines_order() {
    for (v, be) in every_value() {
        let mut le = be.clone();
        le.reverse();
        assert_eq!(v.to_bytes(StructOrder::NativeOrderStandard, &LP64, true), le);
        assert_eq!(v.to_bytes(StructOrder::NativeOrderStandard, &LP64, false), be);
    }
}

#[test]
fn to_bytes_in_the_machines_sizes() {
    assert_eq!(
        StructValue::Long(-2).to_bytes(StructOrder::NativeOrderNative, &ILP32, false),
        vec![0xff, 0xff, 0xff, 0xfe]
    );
    assert_eq!(
        StructValue::Long(-2).to_bytes(StructOrder::NativeOrderNative, &ILP32, true),
        vec![0xfe, 0xff, 0xff, 0xff]
    );
    assert_eq!(
        StructValue::Long(-2).to_bytes(StructOrder::NativeOrderNative, &LP64, false),
        vec![0xff, 0xff, 0xff, 0xff, 0xff, 0xff, 0xff, 0xfe]
    );
    assert_eq!(
        StructValue::LongLong(258).to_bytes(StructOrder::NativeOrderNative, &LP64, false),
        vec![0, 0, 0, 0, 0, 0, 1, 2]
    );
    assert_eq!(
        StructValue::UnsignedLong(7).to_bytes(StructOrder::NativeOrderNative, &ILP32, true),
        vec![7, 0, 0, 0]
    );
    assert_eq!(
        StructValue::Float(1.5f32.to_bits()).to_bytes(StructOrder::NativeOrderNative, &ILP32, false),
        1.5f32.to_be_bytes().to_vec()
    );
    assert_eq!(StructValue::Char(255).to_bytes(StructOrder::NativeOrderNative, &LP64, true), vec![255]);
}

#[test]
fn sizes_signs_and_characters() {
    let codes = ['c', 'b', 'B', 'h', 'H', 'i', 'I', 'l', 'L', 'q', 'Q', 'f', 'd'];
    let signed = [false, true, false, true, false, true, false, true, false, true, false, false, false];
    let sizes = [1, 1, 1, 2, 2, 4, 4, 8, 8, 16, 16, 4, 8];
    let native = [1, 1, 1, 2, 2, 4, 4, 4, 4, 8, 8, 4, 8];
    for (i, (v, _)) in every_value().into_iter().enumerate() {
        assert_eq!(v.format_char(), codes[i]);
        assert_eq!(v.is_signed(), signed[i]);
        assert_eq!(v.size(StructOrder::BigEndianStandard, &ILP32), sizes[i]);
        assert_eq!(v.size(StructOrder::NativeOrderStandard, &ILP32), sizes[i]);
        assert_eq!(v.size(StructOrder::NativeOrderNative, &ILP32), native[i]);
    }
}

#[test]
fn what_can_be_written() {
    let n = StructOrder::NativeOrderNative;
    assert!(StructValue::Long(i32::MAX as i64).can_be_written(n, &ILP32));
    assert!(StructValue::Long(i32::MIN as i64).can_be_written(n, &ILP32));
    assert!(!StructValue::Long(i32::MAX as i64 + 1).can_be_written(n, &ILP32));
    assert!(!StructValue::Long(i32::MIN as i64 - 1).can_be_written(n, &ILP32));
    assert!(StructValue::UnsignedLong(u32::MAX as u64).can_be_written(n, &ILP32));
    assert!(!StructValue::UnsignedLong(u32::MAX as u64 + 1).can_be_written(n, &ILP32));
    assert!(StructValue::LongLong(i64::MIN as i128).can_be_written(n, &LP64));
    assert!(!StructValue::LongLong(i64::MIN as i128 - 1).can_be_written(n, &LP64));
    assert!(!StructValue::UnsignedLongLong(u128::MAX).can_be_written(n, &LP64));
    assert!(StructValue::UnsignedLongLong(u128::MAX).can_be_written(StructOrder::LittleEndianStandard, &LP64));
    let none = NativeSizes { short: 0, int: 4, long: 17, longlong: 16 };
    assert!(!StructValue::Short(0).can_be_written(n, &none));
    assert!(!StructValue::Long(0).can_be_written(n, &none));
    assert!(StructValue::LongLong(i128::MIN).can_be_written(n, &none));
    assert!(StructValue::UnsignedLongLong(u128::MAX).can_be_written(n, &none));
    assert!(StructValue::Short(0).can_be_written(StructOrder::NativeOrderStandard, &none));
}

#[test]
fn orders() {
    assert_eq!(StructOrder::from_char('@'), Some(StructOrder::NativeOrderNative));
    assert_eq!(StructOrder::from_char('='), Some(StructOrder::NativeOrderStandard));
    assert_eq!(StructOrder::from_char('<'), Some(StructOrder::LittleEndianStandard));
    assert_eq!(StructOrder::from_char('>'), Some(StructOrder::BigEndianStandard));
    assert_eq!(StructOrder::from_char('!'), Some(StructOrder::BigEndianStandard));
    assert_eq!(StructOrder::from_char('h'), None);
    assert!(StructOrder::NativeOrderNative.is_little(true));
    assert!(!StructOrder::NativeOrderStandard.is_little(false));
    assert!(StructOrder::LittleEndianStandard.is_little(false));
    assert!(!StructOrder::BigEndianStandard.is_little(true));
}

#[test]
fn pack_puts_the_items_one_after_the_other() {
    let vals = [StructValue::Short(1), StructValue::UnsignedInt(0x0102_0304), StructValue::Char(9)];
    assert_eq!(pack(">hIc", &vals, &LP64, true), Ok(vec![0, 1, 1, 2, 3, 4, 9]));
    assert_eq!(pack("!hIc", &vals, &LP64, true), Ok(vec![0, 1, 1, 2, 3, 4, 9]));
    assert_eq!(pack("<hIc", &vals, &LP64, false), Ok(vec![1, 0, 4, 3, 2, 1, 9]));
    assert_eq!(pack("=hIc", &vals, &LP64, true), Ok(vec![1, 0, 4, 3, 2, 1, 9]));
    assert_eq!(pack("=hIc", &vals, &LP64, false), Ok(vec![0, 1, 1, 2, 3, 4, 9]));
    assert_eq!(pack("@l", &[StructValue::Long(1)], &ILP32, false), Ok(vec![0, 0, 0, 1]));
    assert_eq!(pack("<", &[], &LP64, true), Ok(vec![]));
    assert_eq!(
        pack(">fd", &[StructValue::Float(0.5f32.to_bits()), StructValue::Double(2.0f64.to_bits())], &LP64, true),
        Ok([0.5f32.to_be_bytes().to_vec(), 2.0f64.to_be_bytes().to_vec()].concat())
    );
}

#[test]
fn pack_refuses_what_does_not_match() {
    let bad = Err("bad char in struct format");
    assert_eq!(pack("", &[], &LP64, true), bad);
    assert_eq!(pack("h", &[], &LP64, true), bad);
    assert_eq!(pack(">h", &[], &LP64, true), bad);
    assert_eq!(pack(">h", &[StructValue::UnsignedShort(1)], &LP64, true), bad);
    assert_eq!(pack(">x", &[StructValue::Short(1)], &LP64, true), bad);
    assert_eq!(pack(">h", &[StructValue::Short(1), StructValue::Short(2)], &LP64, true), bad);
    assert_eq!(pack(">", &[StructValue::Short(1)], &LP64, true), bad);
    assert_eq!(
        pack("@l", &[StructValue::Long(1 << 40)], &ILP32, true),
        Err("argument out of range")
    );
    assert_eq!(
        pack("@lx", &[StructValue::Long(1 << 40), StructValue::Short(1)], &ILP32, true),
        Err("argument out of range")
    );
    assert_eq!(
        pack("@hl", &[StructValue::Int(1), StructValue::Long(1 << 40)], &ILP32, true),
        bad
    );
}
