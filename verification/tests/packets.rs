use scapy_core::error::PacketError;
use scapy_core::fields::{
    ByteField, FieldProxy, FieldType, IntField, LEShortField, NoExtension, ShortField,
    SignedShortField, StrField,
};
use scapy_core::namemap::NameMap;
use scapy_core::packet::{Packet, PacketClassProxy, Registry, MAX_LAYERS, RAW};
use scapy_core::types::{HostValue, InternalType};

type Reg = Registry<NoExtension>;

fn values(pairs: &[(&str, HostValue)]) -> NameMap<HostValue> {
    let mut m = NameMap::new();
    for (k, v) in pairs {
        let v = match v {
            HostValue::Int(n) => HostValue::Int(*n),
            HostValue::UInt(n) => HostValue::UInt(*n),
            HostValue::Bytes(b) => HostValue::Bytes(b.clone()),
            HostValue::Text(t) => HostValue::Text(t.clone()),
            HostValue::Other => HostValue::Other,
        };
        m.insert(k.to_string(), v);
    }
    m
}

fn type_and_payload(reg: &mut Reg) -> PacketClassProxy {
    let kind = ShortField::new("type".to_string(), Some(&HostValue::Int(0)), None).unwrap();
    let payload = StrField::new("payload".to_string(), None, None).unwrap();
    PacketClassProxy::new(reg, "Sample", vec![kind, payload])
}

fn chain(p: &Packet) -> Vec<usize> {
    let mut ids = vec![p.proxy().index()];
    let mut cur = p;
    while let Some(next) = cur.payload() {
        ids.push(next.proxy().index());
        cur = next;
    }
    ids
}

#[test]
fn a_new_registry_holds_the_raw_class() {
    let reg: Reg = Registry::new();
    assert_eq!(reg.len(), 1);
    assert_eq!(reg.raw().index(), RAW);
    assert!(reg.contains(&reg.raw()));
    let raw = reg.raw().get_class(&reg);
    assert_eq!(raw.name(), "Raw");
    assert_eq!(raw.fields_desc().len(), 1);
    assert_eq!(raw.fields_desc()[0].name, "load");
    assert_eq!(raw.fields_desc()[0].default, Some(InternalType::Bytes(vec![])));
    assert!(matches!(raw.fields_desc()[0].fieldtype, FieldType::StrField(_)));
    assert!(raw.payload_guess().is_empty());
    assert!(raw.overload_fields().is_empty());
}

#[test]
fn registering_gives_fresh_identifiers() {
    let mut reg: Reg = Registry::new();
    let a = PacketClassProxy::new(&mut reg, "A", vec![]);
    let b = PacketClassProxy::new(&mut reg, "B", vec![]);
    assert_eq!(a.index(), 1);
    assert_eq!(b.index(), 2);
    assert_ne!(a, b);
    assert_eq!(reg.len(), 3);
    assert_eq!(a.get_class(&reg).name(), "A");
    assert_eq!(b.get_class(&reg).name(), "B");
    assert!(a.get_class(&reg).uuid().starts_with("5059"));
    let copy = a;
    assert_eq!(copy, a);
    assert!(reg.contains(&b));
}

#[test]
fn get_field_finds_by_exact_name() {
    let mut reg: Reg = Registry::new();
    let cls = type_and_payload(&mut reg);
    let class = cls.get_class(&reg);
    assert_eq!(class.get_field(&"type".to_string()).unwrap().sz, 2);
    assert_eq!(class.get_field(&"payload".to_string()).unwrap().sz, 0);
    assert_eq!(class.get_field(&"Type".to_string()).err(), Some(PacketError::UnknownField));
    assert_eq!(class.get_field(&"typ".to_string()).err(), Some(PacketError::UnknownField));
    let p = cls.instantiate(&reg, None, None).unwrap();
    assert_eq!(p.get_field(&reg, "type".to_string()).unwrap().name, "type");
    assert_eq!(p.get_field(&reg, "nope".to_string()).err(), Some(PacketError::UnknownField));
}

#[test]
fn dissect_type_and_payload() {
    let mut reg: Reg = Registry::new();
    let cls = type_and_payload(&mut reg);
    let p = cls.instantiate(&reg, Some(&[0x00, 0x07, 0x41, 0x42]), None).unwrap();
    assert_eq!(p.getfieldval("type".to_string()), Ok(Some(&InternalType::Short(7))));
    assert_eq!(
        p.getfieldval("payload".to_string()),
        Ok(Some(&InternalType::Bytes(b"AB".to_vec())))
    );
    assert!(p.payload().is_none());
    assert_eq!(p.proxy(), cls);
}

#[test]
fn build_type_and_payload() {
    let mut reg: Reg = Registry::new();
    let cls = type_and_payload(&mut reg);
    let kw = values(&[("type", HostValue::Int(7)), ("payload", HostValue::Bytes(b"AB".to_vec()))]);
    let p = cls.instantiate(&reg, None, Some(&kw)).unwrap();
    assert_eq!(p.build(&reg), Ok(vec![0x00, 0x07, 0x41, 0x42]));
    assert_eq!(p.do_build(&reg), Ok(vec![0x00, 0x07, 0x41, 0x42]));
    assert_eq!(p.self_build(&reg), Ok(vec![0x00, 0x07, 0x41, 0x42]));
}

#[test]
fn unset_fields_read_as_their_defaults() {
    let mut reg: Reg = Registry::new();
    let a = ShortField::new("a".to_string(), Some(&HostValue::Int(513)), None).unwrap();
    let b = ByteField::new("b".to_string(), None, None).unwrap();
    let cls = PacketClassProxy::new(&mut reg, "D", vec![a, b]);
    let p = cls.instantiate(&reg, None, None).unwrap();
    assert_eq!(p.getfieldval("a".to_string()), Ok(Some(&InternalType::Short(513))));
    assert_eq!(p.getfieldval("b".to_string()), Ok(None));
    assert_eq!(p.getfieldval("c".to_string()), Err(PacketError::UnknownField));
    assert_eq!(p.fields().len(), 0);
    assert_eq!(p.default_fields().len(), 2);
    assert_eq!(p.overloaded_fields().len(), 0);
    assert_eq!(p.build(&reg), Ok(vec![0x02, 0x01, 0x00]));
}

#[test]
fn setfieldval_converts_through_the_field() {
    let mut reg: Reg = Registry::new();
    let cls = type_and_payload(&mut reg);
    let mut p = cls.instantiate(&reg, None, None).unwrap();
    assert_eq!(p.setfieldval(&reg, "type".to_string(), Some(&HostValue::Int(9))), Ok(()));
    assert_eq!(p.getfieldval("type".to_string()), Ok(Some(&InternalType::Short(9))));
    assert_eq!(p.setfieldval(&reg, "type".to_string(), Some(&HostValue::Int(10))), Ok(()));
    assert_eq!(p.getfieldval("type".to_string()), Ok(Some(&InternalType::Short(10))));
    assert_eq!(p.fields().len(), 1);
}

#[test]
fn setfieldval_of_nothing_hides_the_default() {
    let mut reg: Reg = Registry::new();
    let cls = type_and_payload(&mut reg);
    let mut p = cls.instantiate(&reg, None, None).unwrap();
    assert_eq!(p.getfieldval("type".to_string()), Ok(Some(&InternalType::Short(0))));
    assert_eq!(p.setfieldval(&reg, "type".to_string(), None), Ok(()));
    assert_eq!(p.getfieldval("type".to_string()), Ok(None));
    assert_eq!(p.build(&reg), Ok(vec![0, 0]));
}

#[test]
fn setfieldval_of_nothing_needs_a_declared_name() {
    let mut reg: Reg = Registry::new();
    let cls = type_and_payload(&mut reg);
    let mut p = cls.instantiate(&reg, None, None).unwrap();
    assert_eq!(
        p.setfieldval(&reg, "undeclared".to_string(), None),
        Err(PacketError::UnknownField)
    );
    assert_eq!(p.fields().len(), 0);
    assert_eq!(p.getfieldval("undeclared".to_string()), Err(PacketError::UnknownField));
}

#[test]
fn setfieldval_errors() {
    let mut reg: Reg = Registry::new();
    let cls = type_and_payload(&mut reg);
    let mut p = cls.instantiate(&reg, None, None).unwrap();
    assert_eq!(
        p.setfieldval(&reg, "nope".to_string(), Some(&HostValue::Int(1))),
        Err(PacketError::UnknownField)
    );
    assert_eq!(
        p.setfieldval(&reg, "type".to_string(), Some(&HostValue::Int(65536))),
        Err(PacketError::TypeConversion)
    );
    assert_eq!(
        p.setfieldval(&reg, "type".to_string(), Some(&HostValue::Bytes(vec![1]))),
        Err(PacketError::TypeConversion)
    );
    assert_eq!(
        p.setfieldval(&reg, "payload".to_string(), Some(&HostValue::Int(1))),
        Err(PacketError::TypeConversion)
    );
    assert_eq!(p.fields().len(), 0);
    assert_eq!(p.getfieldval("type".to_string()), Ok(Some(&InternalType::Short(0))));
}

#[test]
fn instantiate_with_values_reports_the_first_failure() {
    let mut reg: Reg = Registry::new();
    let cls = type_and_payload(&mut reg);
    let kw = values(&[("type", HostValue::Int(70000)), ("nope", HostValue::Int(1))]);
    assert_eq!(cls.instantiate(&reg, None, Some(&kw)).err(), Some(PacketError::TypeConversion));
    let kw = values(&[("nope", HostValue::Int(1)), ("type", HostValue::Int(70000))]);
    assert_eq!(cls.instantiate(&reg, None, Some(&kw)).err(), Some(PacketError::UnknownField));
}

#[test]
fn bytes_win_over_values() {
    let mut reg: Reg = Registry::new();
    let cls = type_and_payload(&mut reg);
    let kw = values(&[("type", HostValue::Int(9))]);
    let p = cls.instantiate(&reg, Some(&[0, 1]), Some(&kw)).unwrap();
    assert_eq!(p.getfieldval("type".to_string()), Ok(Some(&InternalType::Short(1))));
}

#[test]
fn dissect_fails_on_a_truncated_layer() {
    let mut reg: Reg = Registry::new();
    let cls = type_and_payload(&mut reg);
    assert_eq!(cls.instantiate(&reg, Some(&[0x00]), None).err(), Some(PacketError::TruncatedInput));
    assert_eq!(cls.instantiate(&reg, Some(&[]), None).err(), Some(PacketError::TruncatedInput));
    let only: FieldProxy<NoExtension> = IntField::new("n".to_string(), None, None).unwrap();
    let four = PacketClassProxy::new(&mut reg, "Four", vec![only]);
    assert_eq!(
        four.instantiate(&reg, Some(&[1, 2, 3]), None).err(),
        Some(PacketError::TruncatedInput)
    );
    let p = four.instantiate(&reg, Some(&[1, 2, 3, 4]), None).unwrap();
    assert_eq!(p.getfieldval("n".to_string()), Ok(Some(&InternalType::Int(0x0102_0304))));
    assert!(p.payload().is_none());
}

#[test]
fn unmatched_trailing_bytes_become_raw() {
    let mut reg: Reg = Registry::new();
    let only: FieldProxy<NoExtension> = ByteField::new("n".to_string(), None, None).unwrap();
    let one = PacketClassProxy::new(&mut reg, "One", vec![only]);
    let p = one.instantiate(&reg, Some(&[1, 2, 3]), None).unwrap();
    assert_eq!(chain(&p), vec![one.index(), RAW]);
    let raw = p.payload().unwrap();
    assert_eq!(raw.getfieldval("load".to_string()), Ok(Some(&InternalType::Bytes(vec![2, 3]))));
    assert!(raw.payload().is_none());
    assert_eq!(p.build(&reg), Ok(vec![1, 2, 3]));
}

#[test]
fn raw_instance_holds_bytes_as_they_are() {
    let reg: Reg = Registry::new();
    let direct = Packet::raw(&[9, 8, 7]);
    assert_eq!(direct.proxy().index(), RAW);
    assert_eq!(direct.getfieldval("load".to_string()), Ok(Some(&InternalType::Bytes(vec![9, 8, 7]))));
    let read = reg.raw().instantiate(&reg, Some(&[9, 8, 7]), None).unwrap();
    assert_eq!(read.getfieldval("load".to_string()), Ok(Some(&InternalType::Bytes(vec![9, 8, 7]))));
    assert!(read.payload().is_none());
    assert_eq!(read.build(&reg), Ok(vec![9, 8, 7]));
    let empty = reg.raw().instantiate(&reg, None, None).unwrap();
    assert_eq!(empty.getfieldval("load".to_string()), Ok(Some(&InternalType::Bytes(vec![]))));
    assert_eq!(empty.build(&reg), Ok(vec![]));
}

#[test]
fn lookup_goes_explicit_forced_default_payload() {
    let mut reg: Reg = Registry::new();
    let lower_f: FieldProxy<NoExtension> = ByteField::new("kind".to_string(), None, None).unwrap();
    let lower = PacketClassProxy::new(&mut reg, "Lower", vec![lower_f]);
    let upper_f = ByteField::new("length".to_string(), Some(&HostValue::Int(1)), None).unwrap();
    let extra = ByteField::new("extra".to_string(), Some(&HostValue::Int(2)), None).unwrap();
    let upper = PacketClassProxy::new(&mut reg, "Upper", vec![upper_f, extra]);
    let forced = values(&[("length", HostValue::Int(4))]);
    assert_eq!(scapy_core::packet::bind_top_down(&mut reg, &lower, &upper, Some(&forced)), Ok(()));

    let mut l = lower.instantiate(&reg, None, None).unwrap();
    let u = upper.instantiate(&reg, None, None).unwrap();
    assert_eq!(u.getfieldval("length".to_string()), Ok(Some(&InternalType::Byte(1))));
    l.add_payload(&reg, u);
    let u = l.payload().unwrap();
    assert_eq!(u.getfieldval("length".to_string()), Ok(Some(&InternalType::Byte(4))));
    assert_eq!(u.getfieldval("extra".to_string()), Ok(Some(&InternalType::Byte(2))));
    assert_eq!(u.overloaded_fields().get(&"length".to_string()), Some(&InternalType::Byte(4)));
    // the lower layer does not know `length`: the payload chain answers
    assert_eq!(l.getfieldval("length".to_string()), Ok(Some(&InternalType::Byte(4))));
    assert_eq!(l.getfieldval("kind".to_string()), Ok(None));
    assert_eq!(l.getfieldval("missing".to_string()), Err(PacketError::UnknownField));

    let mut u = l.take_payload().unwrap();
    assert_eq!(u.getfieldval("length".to_string()), Ok(Some(&InternalType::Byte(1))));
    assert_eq!(u.setfieldval(&reg, "length".to_string(), Some(&HostValue::Int(9))), Ok(()));
    l.add_payload(&reg, u);
    let u = l.payload().unwrap();
    assert_eq!(u.overloaded_fields().get(&"length".to_string()), Some(&InternalType::Byte(4)));
    assert_eq!(u.getfieldval("length".to_string()), Ok(Some(&InternalType::Byte(9))));
}

#[test]
fn forced_values_show_in_the_built_bytes() {
    let mut reg: Reg = Registry::new();
    let lower_f: FieldProxy<NoExtension> =
        ByteField::new("kind".to_string(), Some(&HostValue::Int(7)), None).unwrap();
    let lower = PacketClassProxy::new(&mut reg, "Lower", vec![lower_f]);
    let upper_f = ShortField::new("length".to_string(), Some(&HostValue::Int(1)), None).unwrap();
    let upper = PacketClassProxy::new(&mut reg, "Upper", vec![upper_f]);
    let forced = values(&[("length", HostValue::Int(4))]);
    scapy_core::packet::bind_top_down(&mut reg, &lower, &upper, Some(&forced)).unwrap();
    let mut l = lower.instantiate(&reg, None, None).unwrap();
    let u = upper.instantiate(&reg, None, None).unwrap();
    assert_eq!(u.build(&reg), Ok(vec![0, 1]));
    l.add_payload(&reg, u);
    assert_eq!(l.build(&reg), Ok(vec![7, 0, 4]));
}

#[test]
fn dissection_keeps_what_it_read_under_a_forced_value() {
    let mut reg: Reg = Registry::new();
    let lower_f: FieldProxy<NoExtension> = ByteField::new("kind".to_string(), None, None).unwrap();
    let lower = PacketClassProxy::new(&mut reg, "Lower", vec![lower_f]);
    let upper_f = ByteField::new("length".to_string(), None, None).unwrap();
    let upper = PacketClassProxy::new(&mut reg, "Upper", vec![upper_f]);
    let kw = values(&[("kind", HostValue::Int(1))]);
    scapy_core::packet::bind_bottom_up(&mut reg, &lower, &upper, Some(&kw)).unwrap();
    let forced = values(&[("length", HostValue::Int(4))]);
    scapy_core::packet::bind_top_down(&mut reg, &lower, &upper, Some(&forced)).unwrap();
    let p = lower.instantiate(&reg, Some(&[1, 9]), None).unwrap();
    let u = p.payload().unwrap();
    assert_eq!(u.proxy(), upper);
    assert_eq!(u.fields().get(&"length".to_string()), Some(&Some(InternalType::Byte(9))));
    assert_eq!(u.overloaded_fields().get(&"length".to_string()), Some(&InternalType::Byte(4)));
    assert_eq!(u.getfieldval("length".to_string()), Ok(Some(&InternalType::Byte(9))));
    assert_eq!(p.build(&reg), Ok(vec![1, 9]));
}

#[test]
fn add_payload_goes_to_the_end_of_the_chain() {
    let mut reg: Reg = Registry::new();
    let a = PacketClassProxy::new(&mut reg, "A", vec![]);
    let b = PacketClassProxy::new(&mut reg, "B", vec![]);
    let c = PacketClassProxy::new(&mut reg, "C", vec![]);
    let mut p = a.instantiate(&reg, None, None).unwrap();
    p.add_payload(&reg, b.instantiate(&reg, None, None).unwrap());
    p.add_payload(&reg, c.instantiate(&reg, None, None).unwrap());
    assert_eq!(chain(&p), vec![a.index(), b.index(), c.index()]);
    assert!(p.known_to(&reg));
}

#[test]
fn forced_values_are_those_bound_for_the_layer_directly_above() {
    let mut reg: Reg = Registry::new();
    let a = PacketClassProxy::new(&mut reg, "A", vec![]);
    let b = PacketClassProxy::new(&mut reg, "B", vec![]);
    let leaf_f: FieldProxy<NoExtension> = ByteField::new("v".to_string(), None, None).unwrap();
    let c = PacketClassProxy::new(&mut reg, "C", vec![leaf_f]);
    scapy_core::packet::bind_top_down(&mut reg, &a, &c, Some(&values(&[("v", HostValue::Int(1))])))
        .unwrap();
    scapy_core::packet::bind_top_down(&mut reg, &b, &c, Some(&values(&[("v", HostValue::Int(2))])))
        .unwrap();
    let mut p = a.instantiate(&reg, None, None).unwrap();
    p.add_payload(&reg, b.instantiate(&reg, None, None).unwrap());
    p.add_payload(&reg, c.instantiate(&reg, None, None).unwrap());
    assert_eq!(p.getfieldval("v".to_string()), Ok(Some(&InternalType::Byte(2))));
    let mut q = a.instantiate(&reg, None, None).unwrap();
    q.add_payload(&reg, c.instantiate(&reg, None, None).unwrap());
    assert_eq!(q.getfieldval("v".to_string()), Ok(Some(&InternalType::Byte(1))));
}

#[test]
fn payload_can_be_replaced_and_removed() {
    let mut reg: Reg = Registry::new();
    let a = PacketClassProxy::new(&mut reg, "A", vec![]);
    let b = PacketClassProxy::new(&mut reg, "B", vec![]);
    let c = PacketClassProxy::new(&mut reg, "C", vec![]);
    let mut p = a.instantiate(&reg, None, None).unwrap();
    assert!(p.get_payload().is_none());
    assert!(p.take_payload().is_none());
    p.set_payload(&reg, Some(b.instantiate(&reg, None, None).unwrap()));
    assert_eq!(chain(&p), vec![a.index(), b.index()]);
    p.set_payload(&reg, Some(c.instantiate(&reg, None, None).unwrap()));
    assert_eq!(chain(&p), vec![a.index(), c.index()]);
    let copy = p.get_payload().unwrap();
    assert_eq!(copy.proxy(), c);
    assert_eq!(chain(&p), vec![a.index(), c.index()]);
    p.set_payload(&reg, None);
    assert_eq!(chain(&p), vec![a.index()]);
    p.add_payload(&reg, b.instantiate(&reg, None, None).unwrap());
    p.remove_payload();
    assert_eq!(chain(&p), vec![a.index()]);
    p.remove_payload();
    assert!(p.payload().is_none());
}

#[test]
fn clone_is_a_deep_copy() {
    let mut reg: Reg = Registry::new();
    let cls = type_and_payload(&mut reg);
    let mut p = cls.instantiate(&reg, Some(&[0, 7, 1, 2]), None).unwrap();
    p.add_payload(&reg, Packet::raw(&[5]));
    let q = p.clone();
    p.setfieldval(&reg, "type".to_string(), Some(&HostValue::Int(8))).unwrap();
    p.remove_payload();
    assert_eq!(q.getfieldval("type".to_string()), Ok(Some(&InternalType::Short(7))));
    assert_eq!(chain(&q), vec![cls.index(), RAW]);
    assert_eq!(q.build(&reg), Ok(vec![0, 7, 1, 2, 5]));
    assert_eq!(p.build(&reg), Ok(vec![0, 8, 1, 2]));
}

#[test]
fn build_puts_the_payload_after_the_layer_once() {
    let mut reg: Reg = Registry::new();
    let lower_f: FieldProxy<NoExtension> = LEShortField::new("a".to_string(), None, None).unwrap();
    let lower = PacketClassProxy::new(&mut reg, "Lower", vec![lower_f]);
    let upper_f: FieldProxy<NoExtension> = SignedShortField::new("b".to_string(), None, None).unwrap();
    let upper = PacketClassProxy::new(&mut reg, "Upper", vec![upper_f]);
    let mut l = lower.instantiate(&reg, None, Some(&values(&[("a", HostValue::Int(0x0102))]))).unwrap();
    let mut u = upper.instantiate(&reg, None, Some(&values(&[("b", HostValue::Int(-2))]))).unwrap();
    u.add_payload(&reg, Packet::raw(&[0xaa, 0xbb]));
    l.add_payload(&reg, u);
    assert_eq!(l.self_build(&reg), Ok(vec![0x02, 0x01]));
    assert_eq!(l.do_build_payload(&reg), Ok(Some(vec![0xff, 0xfe, 0xaa, 0xbb])));
    assert_eq!(l.build_padding(), Ok(None));
    assert_eq!(l.build(&reg), Ok(vec![0x02, 0x01, 0xff, 0xfe, 0xaa, 0xbb]));
    let alone = lower.instantiate(&reg, None, None).unwrap();
    assert_eq!(alone.do_build_payload(&reg), Ok(None));
}

#[test]
fn post_build_concatenates() {
    let p = Packet::raw(&[]);
    assert_eq!(p.post_build(vec![1, 2], Some(vec![3])), Ok(vec![1, 2, 3]));
    assert_eq!(p.post_build(vec![1, 2], None), Ok(vec![1, 2]));
    assert_eq!(p.post_build(vec![], Some(vec![])), Ok(vec![]));
}

#[test]
fn build_refuses_a_value_of_another_kind() {
    let mut reg: Reg = Registry::new();
    // two fields of one name: what the second read is what the first finds
    let a: FieldProxy<NoExtension> = ByteField::new("x".to_string(), None, None).unwrap();
    let b: FieldProxy<NoExtension> = ShortField::new("x".to_string(), None, None).unwrap();
    let cls = PacketClassProxy::new(&mut reg, "Twice", vec![a, b]);
    let p = cls.instantiate(&reg, Some(&[1, 0, 2]), None).unwrap();
    assert_eq!(p.getfieldval("x".to_string()), Ok(Some(&InternalType::Short(2))));
    assert_eq!(p.build(&reg), Err(PacketError::TypeConversion));
    assert_eq!(cls.get_class(&reg).get_field(&"x".to_string()).unwrap().sz, 1);
}

#[test]
fn a_layer_reads_its_own_default_before_the_payload() {
    let mut reg: Reg = Registry::new();
    let a: FieldProxy<NoExtension> = ShortField::new("x".to_string(), None, None).unwrap();
    let short = PacketClassProxy::new(&mut reg, "Short", vec![a]);
    let b: FieldProxy<NoExtension> = ByteField::new("x".to_string(), None, None).unwrap();
    let byte = PacketClassProxy::new(&mut reg, "Byte", vec![b]);
    let mut l = Packet::fresh(&short, &reg);
    assert_eq!(l.build(&reg), Ok(vec![0, 0]));
    let u = byte.instantiate(&reg, None, Some(&values(&[("x", HostValue::Int(3))]))).unwrap();
    l.add_payload(&reg, u);
    assert_eq!(l.getfieldval("x".to_string()), Ok(None));
    assert_eq!(l.build(&reg), Ok(vec![0, 0, 3]));
}

#[test]
fn dissect_then_build_gives_the_bytes_back() {
    let mut reg: Reg = Registry::new();
    let cls = type_and_payload(&mut reg);
    for bytes in [vec![0u8, 0], vec![0xff, 0xfe, 1, 2, 3], vec![1, 2, 0]] {
        let p = cls.instantiate(&reg, Some(&bytes), None).unwrap();
        assert_eq!(p.build(&reg), Ok(bytes));
    }
}

#[test]
fn build_then_dissect_gives_the_values_back() {
    let mut reg: Reg = Registry::new();
    let cls = type_and_payload(&mut reg);
    let kw = values(&[("type", HostValue::Int(515)), ("payload", HostValue::Bytes(vec![4, 5]))]);
    let p = cls.instantiate(&reg, None, Some(&kw)).unwrap();
    let q = cls.instantiate(&reg, Some(&p.build(&reg).unwrap()), None).unwrap();
    for name in ["type", "payload"] {
        assert_eq!(q.getfieldval(name.to_string()), p.getfieldval(name.to_string()));
    }
}

#[test]
fn dissect_into_an_existing_instance() {
    let mut reg: Reg = Registry::new();
    let cls = type_and_payload(&mut reg);
    let mut p = cls.instantiate(&reg, None, Some(&values(&[("type", HostValue::Int(1))]))).unwrap();
    assert_eq!(p.dissect(&reg, &[0, 2, 7]), Ok(()));
    assert_eq!(p.getfieldval("type".to_string()), Ok(Some(&InternalType::Short(2))));
    assert_eq!(p.getfieldval("payload".to_string()), Ok(Some(&InternalType::Bytes(vec![7]))));
    assert_eq!(p.dissect(&reg, &[0]), Err(PacketError::TruncatedInput));
    assert_eq!(p.getfieldval("type".to_string()), Ok(Some(&InternalType::Short(2))));
}

#[test]
fn an_outside_field_that_fails_stops_its_own_layer() {
    let mut reg: Reg = Registry::new();
    let broken = FieldProxy {
        name: "x".to_string(),
        default: None,
        sz: 1,
        fieldtype: FieldType::PythonField(NoExtension),
    };
    let cls = PacketClassProxy::new(&mut reg, "Broken", vec![broken]);
    assert_eq!(cls.instantiate(&reg, Some(&[1]), None).err(), Some(PacketError::ExtensionField));
    let p = cls.instantiate(&reg, None, None).unwrap();
    assert_eq!(p.build(&reg), Err(PacketError::ExtensionField));
    assert_eq!(
        cls.instantiate(&reg, None, Some(&values(&[("x", HostValue::Int(1))]))).err(),
        Some(PacketError::ExtensionField)
    );
}

#[test]
fn a_payload_that_cannot_be_read_is_kept_raw() {
    let mut reg: Reg = Registry::new();
    let kind: FieldProxy<NoExtension> = ByteField::new("kind".to_string(), None, None).unwrap();
    let lower = PacketClassProxy::new(&mut reg, "Lower", vec![kind]);
    let broken = FieldProxy {
        name: "x".to_string(),
        default: None,
        sz: 1,
        fieldtype: FieldType::PythonField(NoExtension),
    };
    let ext = PacketClassProxy::new(&mut reg, "Broken", vec![broken]);
    let wide: FieldProxy<NoExtension> = IntField::new("n".to_string(), None, None).unwrap();
    let four = PacketClassProxy::new(&mut reg, "Four", vec![wide]);
    scapy_core::packet::bind_bottom_up(
        &mut reg,
        &lower,
        &ext,
        Some(&values(&[("kind", HostValue::Int(3))])),
    )
    .unwrap();
    scapy_core::packet::bind_bottom_up(
        &mut reg,
        &lower,
        &four,
        Some(&values(&[("kind", HostValue::Int(4))])),
    )
    .unwrap();
    let p = lower.instantiate(&reg, Some(&[3, 0xaa]), None).unwrap();
    assert_eq!(chain(&p), vec![lower.index(), RAW]);
    assert_eq!(
        p.payload().unwrap().getfieldval("load".to_string()),
        Ok(Some(&InternalType::Bytes(vec![0xaa])))
    );
    // too short for the selected class: kept raw as well
    let p = lower.instantiate(&reg, Some(&[4, 1, 2]), None).unwrap();
    assert_eq!(chain(&p), vec![lower.index(), RAW]);
    assert_eq!(
        p.payload().unwrap().getfieldval("load".to_string()),
        Ok(Some(&InternalType::Bytes(vec![1, 2])))
    );
    let p = lower.instantiate(&reg, Some(&[4, 1, 2, 3, 4]), None).unwrap();
    assert_eq!(chain(&p), vec![lower.index(), four.index()]);
}

#[test]
fn a_binding_cycle_ends_in_raw() {
    let mut reg: Reg = Registry::new();
    let looped = PacketClassProxy::new(&mut reg, "Loop", vec![]);
    scapy_core::packet::bind_bottom_up(&mut reg, &looped, &looped, None).unwrap();
    let p = looped.instantiate(&reg, Some(&[1, 2, 3]), None).unwrap();
    let ids = chain(&p);
    assert_eq!(ids.len(), MAX_LAYERS + 2);
    assert!(ids[..MAX_LAYERS + 1].iter().all(|id| *id == looped.index()));
    assert_eq!(ids[MAX_LAYERS + 1], RAW);
    let mut last = &p;
    while let Some(next) = last.payload() {
        last = next;
    }
    assert_eq!(last.getfieldval("load".to_string()), Ok(Some(&InternalType::Bytes(vec![1, 2, 3]))));
    assert_eq!(p.build(&reg), Ok(vec![1, 2, 3]));
    let empty = looped.instantiate(&reg, Some(&[]), None).unwrap();
    assert_eq!(chain(&empty), vec![looped.index()]);
}

#[test]
fn known_to_checks_every_layer() {
    let mut small: Reg = Registry::new();
    let mut large: Reg = Registry::new();
    let _a = PacketClassProxy::new(&mut large, "A", vec![]);
    let b = PacketClassProxy::new(&mut large, "B", vec![]);
    let s = PacketClassProxy::new(&mut small, "S", vec![]);
    let mut p = s.instantiate(&small, None, None).unwrap();
    assert!(p.known_to(&small));
    p.add_payload(&large, b.instantiate(&large, None, None).unwrap());
    assert!(p.known_to(&large));
    assert!(!p.known_to(&small));
    assert!(!small.contains(&b));
}

#[test]
fn a_failed_dissection_keeps_what_was_read_before() {
    let mut reg: Reg = Registry::new();
    let a: FieldProxy<NoExtension> = ByteField::new("a".to_string(), None, None).unwrap();
    let b: FieldProxy<NoExtension> = ShortField::new("b".to_string(), None, None).unwrap();
    let c: FieldProxy<NoExtension> = ByteField::new("c".to_string(), None, None).unwrap();
    let cls = PacketClassProxy::new(&mut reg, "Abc", vec![a, b, c]);
    let mut p = cls.instantiate(&reg, None, None).unwrap();
    assert_eq!(p.dissect(&reg, &[5, 1]), Err(PacketError::TruncatedInput));
    assert_eq!(p.fields().len(), 1);
    assert_eq!(p.fields().get(&"a".to_string()), Some(&Some(InternalType::Byte(5))));
    assert!(p.payload().is_none());
    assert_eq!(p.dissect(&reg, &[6, 0, 7]), Err(PacketError::TruncatedInput));
    assert_eq!(p.fields().len(), 2);
    assert_eq!(p.getfieldval("a".to_string()), Ok(Some(&InternalType::Byte(6))));
    assert_eq!(p.getfieldval("b".to_string()), Ok(Some(&InternalType::Short(7))));
    assert_eq!(p.getfieldval("c".to_string()), Ok(None));
}

#[test]
fn the_registry_is_well_formed_throughout() {
    let mut reg: Reg = Registry::new();
    assert!(reg.is_well_formed());
    let a = PacketClassProxy::new(&mut reg, "A", vec![]);
    let b = type_and_payload(&mut reg);
    assert!(reg.is_well_formed());
    scapy_core::packet::bind_layers(&mut reg, &a, &b, None).unwrap();
    scapy_core::packet::bind_bottom_up(&mut reg, &b, &a, Some(&values(&[("type", HostValue::Int(1))])))
        .unwrap();
    let raw = reg.raw();
    scapy_core::packet::bind_bottom_up(&mut reg, &raw, &a, None).unwrap();
    assert!(reg.is_well_formed());
}

#[test]
fn handles_by_identifier() {
    let mut reg: Reg = Registry::new();
    let a = PacketClassProxy::new(&mut reg, "A", vec![]);
    assert_eq!(reg.proxy(0), Some(reg.raw()));
    assert_eq!(reg.proxy(1), Some(a));
    assert_eq!(reg.proxy(2), None);
    assert_eq!(reg.proxy(usize::MAX), None);
}

#[test]
fn a_layered_packet_comes_back_from_its_bytes() {
    let mut reg: Reg = Registry::new();
    let kind: FieldProxy<NoExtension> = ByteField::new("kind".to_string(), None, None).unwrap();
    let len: FieldProxy<NoExtension> = LEShortField::new("len".to_string(), None, None).unwrap();
    let lower = PacketClassProxy::new(&mut reg, "Lower", vec![kind, len]);
    let seq: FieldProxy<NoExtension> = IntField::new("seq".to_string(), None, None).unwrap();
    let middle = PacketClassProxy::new(&mut reg, "Middle", vec![seq]);
    let n: FieldProxy<NoExtension> = SignedShortField::new("n".to_string(), None, None).unwrap();
    let data: FieldProxy<NoExtension> = StrField::new("data".to_string(), None, None).unwrap();
    let upper = PacketClassProxy::new(&mut reg, "Upper", vec![n, data]);
    scapy_core::packet::bind_bottom_up(
        &mut reg,
        &lower,
        &middle,
        Some(&values(&[("kind", HostValue::Int(2))])),
    )
    .unwrap();
    scapy_core::packet::bind_bottom_up(&mut reg, &middle, &upper, None).unwrap();

    let mut p = lower
        .instantiate(
            &reg,
            None,
            Some(&values(&[("kind", HostValue::Int(2)), ("len", HostValue::Int(0x0102))])),
        )
        .unwrap();
    p.add_payload(
        &reg,
        middle.instantiate(&reg, None, Some(&values(&[("seq", HostValue::Int(7))]))).unwrap(),
    );
    p.add_payload(
        &reg,
        upper
            .instantiate(
                &reg,
                None,
                Some(&values(&[("n", HostValue::Int(-2)), ("data", HostValue::Bytes(vec![9, 9]))])),
            )
            .unwrap(),
    );
    let bytes = p.build(&reg).unwrap();
    assert_eq!(bytes, vec![2, 0x02, 0x01, 0, 0, 0, 7, 0xff, 0xfe, 9, 9]);
    let q = lower.instantiate(&reg, Some(&bytes), None).unwrap();
    assert_eq!(chain(&q), chain(&p));
    for name in ["kind", "len", "seq", "n", "data"] {
        assert_eq!(q.getfieldval(name.to_string()), p.getfieldval(name.to_string()));
    }
    let mut a = &p;
    let mut b = &q;
    loop {
        assert_eq!(a.fields().len(), b.fields().len());
        assert_eq!(a.default_fields().len(), b.default_fields().len());
        assert_eq!(a.overloaded_fields().len(), b.overloaded_fields().len());
        match (a.payload(), b.payload()) {
            (Some(x), Some(y)) => {
                a = x;
                b = y;
            }
            (None, None) => break,
            _ => panic!("the chains differ in length"),
        }
    }
    assert_eq!(q.build(&reg), Ok(bytes));
}
