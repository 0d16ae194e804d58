use scapy_core::error::PacketError;
use scapy_core::types::{bytes_eq, HostValue, InternalType, MachineType};
use scapy_core::wire::IntKind;

fn every_internal() -> Vec<InternalType> {
    vec![
        InternalType::Byte(200),
        InternalType::SignedByte(-100),
        InternalType::Short(60000),
        InternalType::SignedShort(-30000),
        InternalType::Int(4_000_000_000),
        InternalType::SignedInt(-2_000_000_000),
        InternalType::Long(u64::MAX),
        InternalType::SignedLong(i64::MIN),
        InternalType::LongLong(u128::MAX),
        InternalType::SignedLongLong(i128::MIN),
        InternalType::String("héllo".to_string()),
        InternalType::Bytes(vec![1, 2, 3]),
        InternalType::PythonFieldValue(vec![9, 8]),
    ]
}

#[test]
fn as_machine_keeps_integers_and_bytes() {
    assert_eq!(InternalType::Byte(200).as_machine(), MachineType::Byte(200));
    assert_eq!(InternalType::SignedByte(-100).as_machine(), MachineType::SignedByte(-100));
    assert_eq!(InternalType::Short(60000).as_machine(), MachineType::Short(60000));
    assert_eq!(InternalType::SignedShort(-3).as_machine(), MachineType::SignedShort(-3));
    assert_eq!(InternalType::Int(7).as_machine(), MachineType::Int(7));
    assert_eq!(InternalType::SignedInt(-7).as_machine(), MachineType::SignedInt(-7));
    assert_eq!(InternalType::Long(u64::MAX).as_machine(), MachineType::Long(u64::MAX));
    assert_eq!(InternalType::SignedLong(i64::MIN).as_machine(), MachineType::SignedLong(i64::MIN));
    assert_eq!(InternalType::LongLong(u128::MAX).as_machine(), MachineType::LongLong(u128::MAX));
    assert_eq!(
        InternalType::SignedLongLong(i128::MIN).as_machine(),
        MachineType::SignedLongLong(i128::MIN)
    );
    assert_eq!(InternalType::Bytes(vec![1, 2, 3]).as_machine(), MachineType::Bytes(vec![1, 2, 3]));
    assert_eq!(
        InternalType::PythonFieldValue(vec![9, 8]).as_machine(),
        MachineType::Bytes(vec![9, 8])
    );
}

#[test]
fn as_machine_writes_text_as_utf8() {
    assert_eq!(
        InternalType::String("héllo".to_string()).as_machine(),
        MachineType::Bytes(vec![0x68, 0xc3, 0xa9, 0x6c, 0x6c, 0x6f])
    );
    assert_eq!(InternalType::String(String::new()).as_machine(), MachineType::Bytes(vec![]));
}

#[test]
fn as_internal_mirrors_every_variant() {
    assert_eq!(MachineType::Byte(1).as_internal(), InternalType::Byte(1));
    assert_eq!(MachineType::SignedByte(-1).as_internal(), InternalType::SignedByte(-1));
    assert_eq!(MachineType::Short(2).as_internal(), InternalType::Short(2));
    assert_eq!(MachineType::SignedShort(-2).as_internal(), InternalType::SignedShort(-2));
    assert_eq!(MachineType::Int(3).as_internal(), InternalType::Int(3));
    assert_eq!(MachineType::SignedInt(-3).as_internal(), InternalType::SignedInt(-3));
    assert_eq!(MachineType::Long(4).as_internal(), InternalType::Long(4));
    assert_eq!(MachineType::SignedLong(-4).as_internal(), InternalType::SignedLong(-4));
    assert_eq!(MachineType::LongLong(5).as_internal(), InternalType::LongLong(5));
    assert_eq!(MachineType::SignedLongLong(-5).as_internal(), InternalType::SignedLongLong(-5));
    assert_eq!(MachineType::Bytes(vec![6, 7]).as_internal(), InternalType::Bytes(vec![6, 7]));
}

#[test]
fn machine_to_internal_and_back_loses_nothing() {
    for v in every_internal() {
        let m = v.as_machine();
        assert_eq!(m.as_internal().as_machine(), m);
    }
}

#[test]
fn internal_to_machine_and_back_keeps_integers_and_bytes() {
    for v in every_internal() {
        let back = v.as_machine().as_internal();
        match v {
            InternalType::String(_) | InternalType::PythonFieldValue(_) => {
                assert!(matches!(back, InternalType::Bytes(_)))
            }
            _ => assert_eq!(back, v),
        }
    }
}

#[test]
fn equality_is_by_variant_and_content() {
    let all = every_internal();
    for (i, a) in all.iter().enumerate() {
        for (j, b) in all.iter().enumerate() {
            assert_eq!(a == b, i == j);
        }
    }
    assert_ne!(InternalType::Byte(1), InternalType::Short(1));
    assert_ne!(InternalType::Byte(1), InternalType::SignedByte(1));
    assert_ne!(InternalType::Bytes(vec![1]), InternalType::Bytes(vec![1, 2]));
    assert_ne!(InternalType::Bytes(vec![1]), InternalType::PythonFieldValue(vec![1]));
    assert_ne!(
        InternalType::String("a".to_string()),
        InternalType::Bytes(vec![0x61])
    );
    assert_eq!(InternalType::String("a".to_string()), InternalType::String("a".to_string()));
}

#[test]
fn bytes_eq_compares_content() {
    assert!(bytes_eq(&vec![], &vec![]));
    assert!(bytes_eq(&vec![1, 2, 3], &vec![1, 2, 3]));
    assert!(!bytes_eq(&vec![1, 2, 3], &vec![1, 2, 4]));
    assert!(!bytes_eq(&vec![1, 2, 3], &vec![1, 2]));
    assert!(!bytes_eq(&vec![0, 2, 3], &vec![1, 2, 3]));
}

#[test]
fn clone_is_equal() {
    for v in every_internal() {
        assert_eq!(v.clone(), v);
        assert_eq!(v.as_machine().clone(), v.as_machine());
    }
}

#[test]
fn zero_values() {
    assert_eq!(InternalType::zero(IntKind::Byte), InternalType::Byte(0));
    assert_eq!(InternalType::zero(IntKind::SignedByte), InternalType::SignedByte(0));
    assert_eq!(InternalType::zero(IntKind::Short), InternalType::Short(0));
    assert_eq!(InternalType::zero(IntKind::SignedShort), InternalType::SignedShort(0));
    assert_eq!(InternalType::zero(IntKind::Int), InternalType::Int(0));
    assert_eq!(InternalType::zero(IntKind::SignedInt), InternalType::SignedInt(0));
    assert_eq!(InternalType::zero(IntKind::Long), InternalType::Long(0));
    assert_eq!(InternalType::zero(IntKind::SignedLong), InternalType::SignedLong(0));
    assert_eq!(InternalType::zero(IntKind::LongLong), InternalType::LongLong(0));
    assert_eq!(InternalType::zero(IntKind::SignedLongLong), InternalType::SignedLongLong(0));
    assert_eq!(MachineType::zero(IntKind::Short), MachineType::Short(0));
    assert_eq!(MachineType::zero(IntKind::SignedLongLong), MachineType::SignedLongLong(0));
}

#[test]
fn from_host_takes_integers_in_range() {
    assert_eq!(
        InternalType::from_host(IntKind::Byte, &HostValue::Int(255)),
        Ok(InternalType::Byte(255))
    );
    assert_eq!(
        InternalType::from_host(IntKind::SignedByte, &HostValue::Int(-128)),
        Ok(InternalType::SignedByte(-128))
    );
    assert_eq!(
        InternalType::from_host(IntKind::Short, &HostValue::UInt(65535)),
        Ok(InternalType::Short(65535))
    );
    assert_eq!(
        InternalType::from_host(IntKind::SignedShort, &HostValue::Int(-32768)),
        Ok(InternalType::SignedShort(-32768))
    );
    assert_eq!(
        InternalType::from_host(IntKind::Int, &HostValue::Int(0xffff_ffff)),
        Ok(InternalType::Int(u32::MAX))
    );
    assert_eq!(
        InternalType::from_host(IntKind::SignedInt, &HostValue::Int(i32::MIN as i128)),
        Ok(InternalType::SignedInt(i32::MIN))
    );
    assert_eq!(
        InternalType::from_host(IntKind::Long, &HostValue::Int(u64::MAX as i128)),
        Ok(InternalType::Long(u64::MAX))
    );
    assert_eq!(
        InternalType::from_host(IntKind::SignedLong, &HostValue::Int(i64::MIN as i128)),
        Ok(InternalType::SignedLong(i64::MIN))
    );
    assert_eq!(
        InternalType::from_host(IntKind::LongLong, &HostValue::UInt(u128::MAX)),
        Ok(InternalType::LongLong(u128::MAX))
    );
    assert_eq!(
        InternalType::from_host(IntKind::SignedLongLong, &HostValue::Int(i128::MIN)),
        Ok(InternalType::SignedLongLong(i128::MIN))
    );
    assert_eq!(
        InternalType::from_host(IntKind::SignedLongLong, &HostValue::UInt(i128::MAX as u128)),
        Ok(InternalType::SignedLongLong(i128::MAX))
    );
}

#[test]
fn from_host_refuses_integers_out_of_range() {
    let cases = [
        (IntKind::Byte, HostValue::Int(256)),
        (IntKind::Byte, HostValue::Int(-1)),
        (IntKind::Byte, HostValue::UInt(256)),
        (IntKind::SignedByte, HostValue::Int(128)),
        (IntKind::SignedByte, HostValue::Int(-129)),
        (IntKind::SignedByte, HostValue::UInt(128)),
        (IntKind::Short, HostValue::Int(65536)),
        (IntKind::SignedShort, HostValue::Int(32768)),
        (IntKind::Int, HostValue::Int(1 << 32)),
        (IntKind::SignedInt, HostValue::Int(1 << 31)),
        (IntKind::Long, HostValue::Int(1 << 64)),
        (IntKind::Long, HostValue::UInt(1 << 64)),
        (IntKind::SignedLong, HostValue::Int(1 << 63)),
        (IntKind::SignedLong, HostValue::Int(-(1 << 63) - 1)),
        (IntKind::LongLong, HostValue::Int(-1)),
        (IntKind::SignedLongLong, HostValue::UInt(1 << 127)),
    ];
    for (kind, value) in cases {
        assert_eq!(InternalType::from_host(kind, &value), Err(PacketError::TypeConversion));
    }
}

#[test]
fn from_host_refuses_what_is_no_integer() {
    for kind in [IntKind::Byte, IntKind::SignedLong, IntKind::LongLong] {
        assert_eq!(
            InternalType::from_host(kind, &HostValue::Bytes(vec![1])),
            Err(PacketError::TypeConversion)
        );
        assert_eq!(
            InternalType::from_host(kind, &HostValue::Text("1".to_string())),
            Err(PacketError::TypeConversion)
        );
        assert_eq!(
            InternalType::from_host(kind, &HostValue::Other),
            Err(PacketError::TypeConversion)
        );
    }
}

#[test]
fn to_host_values() {
    assert_eq!(InternalType::Byte(5).to_host(), HostValue::Int(5));
    assert_eq!(InternalType::SignedByte(-5).to_host(), HostValue::Int(-5));
    assert_eq!(InternalType::Short(5).to_host(), HostValue::Int(5));
    assert_eq!(InternalType::SignedShort(-5).to_host(), HostValue::Int(-5));
    assert_eq!(InternalType::Int(5).to_host(), HostValue::Int(5));
    assert_eq!(InternalType::SignedInt(-5).to_host(), HostValue::Int(-5));
    assert_eq!(InternalType::Long(u64::MAX).to_host(), HostValue::Int(u64::MAX as i128));
    assert_eq!(InternalType::SignedLong(i64::MIN).to_host(), HostValue::Int(i64::MIN as i128));
    assert_eq!(InternalType::LongLong(u128::MAX).to_host(), HostValue::UInt(u128::MAX));
    assert_eq!(InternalType::SignedLongLong(i128::MIN).to_host(), HostValue::Int(i128::MIN));
    assert_eq!(
        InternalType::String("abc".to_string()).to_host(),
        HostValue::Text("abc".to_string())
    );
    assert_eq!(InternalType::Bytes(vec![1, 2]).to_host(), HostValue::Bytes(vec![1, 2]));
    assert_eq!(InternalType::PythonFieldValue(vec![3]).to_host(), HostValue::Bytes(vec![3]));
}

#[test]
fn host_and_back_gives_the_value() {
    let kinds = [
        (IntKind::Byte, InternalType::Byte(9)),
        (IntKind::SignedShort, InternalType::SignedShort(-9)),
        (IntKind::Long, InternalType::Long(u64::MAX)),
        (IntKind::LongLong, InternalType::LongLong(u128::MAX)),
        (IntKind::SignedLongLong, InternalType::SignedLongLong(i128::MIN)),
    ];
    for (kind, value) in kinds {
        assert_eq!(InternalType::from_host(kind, &value.to_host()), Ok(value));
    }
}

#[test]
fn try_into_usize_takes_counts() {
    assert_eq!(InternalType::Byte(7).try_into_usize(), Ok(7));
    assert_eq!(InternalType::SignedByte(7).try_into_usize(), Ok(7));
    assert_eq!(InternalType::Short(700).try_into_usize(), Ok(700));
    assert_eq!(InternalType::SignedShort(700).try_into_usize(), Ok(700));
    assert_eq!(InternalType::Int(70000).try_into_usize(), Ok(70000));
    assert_eq!(InternalType::SignedInt(70000).try_into_usize(), Ok(70000));
    assert_eq!(InternalType::Long(12).try_into_usize(), Ok(12));
    assert_eq!(InternalType::SignedLong(12).try_into_usize(), Ok(12));
    assert_eq!(InternalType::LongLong(12).try_into_usize(), Ok(12));
    assert_eq!(InternalType::SignedLongLong(12).try_into_usize(), Ok(12));
    assert_eq!(InternalType::Long(usize::MAX as u64).try_into_usize(), Ok(usize::MAX));
}

#[test]
fn try_into_usize_refuses_the_rest() {
    let refused = [
        InternalType::SignedByte(-1),
        InternalType::SignedShort(-1),
        InternalType::SignedInt(-1),
        InternalType::SignedLong(-1),
        InternalType::SignedLongLong(-1),
        InternalType::LongLong(u128::MAX),
        InternalType::SignedLongLong(i128::MAX),
        InternalType::String("3".to_string()),
        InternalType::Bytes(vec![3]),
        InternalType::PythonFieldValue(vec![3]),
    ];
    for v in refused {
        assert_eq!(v.try_into_usize(), Err(PacketError::TypeConversion));
    }
}

#[test]
fn to_string_names_variant_and_content() {
    assert_eq!(InternalType::Byte(5).to_string(), "Byte(5)");
    assert_eq!(InternalType::SignedByte(-128).to_string(), "SignedByte(-128)");
    assert_eq!(InternalType::Short(0).to_string(), "Short(0)");
    assert_eq!(InternalType::SignedShort(-10).to_string(), "SignedShort(-10)");
    assert_eq!(InternalType::Int(4294967295).to_string(), "Int(4294967295)");
    assert_eq!(InternalType::SignedInt(-2147483648).to_string(), "SignedInt(-2147483648)");
    assert_eq!(InternalType::Long(u64::MAX).to_string(), format!("Long({})", u64::MAX));
    assert_eq!(InternalType::SignedLong(i64::MIN).to_string(), format!("SignedLong({})", i64::MIN));
    assert_eq!(InternalType::LongLong(u128::MAX).to_string(), format!("LongLong({})", u128::MAX));
    assert_eq!(
        InternalType::SignedLongLong(i128::MIN).to_string(),
        format!("SignedLongLong({})", i128::MIN)
    );
    assert_eq!(InternalType::String("abc".to_string()).to_string(), "String(abc)");
    assert_eq!(InternalType::Bytes(vec![1, 20, 255]).to_string(), "Bytes([1, 20, 255])");
    assert_eq!(InternalType::Bytes(vec![]).to_string(), "Bytes([])");
    assert_eq!(InternalType::Bytes(vec![7]).to_string(), "Bytes([7])");
    assert_eq!(
        InternalType::PythonFieldValue(vec![0, 1]).to_string(),
        "PythonFieldValue([0, 1])"
    );
}

#[test]
fn try_into_kind_casts_integers_in_range() {
    assert_eq!(InternalType::Int(200).try_into_kind(IntKind::Byte), Ok(InternalType::Byte(200)));
    assert_eq!(
        InternalType::SignedByte(-1).try_into_kind(IntKind::SignedLongLong),
        Ok(InternalType::SignedLongLong(-1))
    );
    assert_eq!(
        InternalType::LongLong(u128::MAX).try_into_kind(IntKind::LongLong),
        Ok(InternalType::LongLong(u128::MAX))
    );
    assert_eq!(
        InternalType::Long(65535).try_into_kind(IntKind::Short),
        Ok(InternalType::Short(65535))
    );
    assert_eq!(
        InternalType::SignedLongLong(i128::MIN).try_into_kind(IntKind::SignedLongLong),
        Ok(InternalType::SignedLongLong(i128::MIN))
    );
}

#[test]
fn try_into_kind_refuses_what_does_not_fit() {
    assert_eq!(
        InternalType::Int(256).try_into_kind(IntKind::Byte),
        Err(PacketError::TypeConversion)
    );
    assert_eq!(
        InternalType::SignedByte(-1).try_into_kind(IntKind::Long),
        Err(PacketError::TypeConversion)
    );
    assert_eq!(
        InternalType::LongLong(u128::MAX).try_into_kind(IntKind::SignedLongLong),
        Err(PacketError::TypeConversion)
    );
    assert_eq!(
        InternalType::Bytes(vec![1]).try_into_kind(IntKind::Byte),
        Err(PacketError::TypeConversion)
    );
    assert_eq!(
        InternalType::String("1".to_string()).try_into_kind(IntKind::Byte),
        Err(PacketError::TypeConversion)
    );
    assert_eq!(
        InternalType::PythonFieldValue(vec![1]).try_into_kind(IntKind::Byte),
        Err(PacketError::TypeConversion)
    );
}
