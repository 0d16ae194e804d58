//! Fields: the named, typed units of a packet's layout, and the five
//! operations that carry a value between the caller, the application and
//! the wire.

use std::borrow::Cow;
use vstd::prelude::*;
use vstd::slice::{slice_subrange, slice_to_vec};

use crate::error::PacketError;
use crate::integer::Int;
use crate::namemap::NameMap;
use crate::packet::Packet;
use crate::types::{
    view_opt, view_opt_host, view_opt_ref, HostModel, HostValue, InternalType, MachineType,
    MachineValue, SemanticValue,
};
use crate::wire::{decode_int, encode_int, extend_bytes, IntKind};

verus! {

/// What a field type reads and writes.
pub enum FieldKind {
    /// A fixed-width integer of the given kind, in the given byte order.
    Scalar { kind: IntKind, little: bool },
    /// A byte string that takes all the bytes that remain.
    Str,
    /// A field whose behaviour is supplied from outside.
    Extension,
}

impl FieldKind {
    /// The declared size in bytes: the width of an integer kind, 0 for a
    /// field whose length is known only when it is read.
    pub open spec fn size(self) -> nat {
        match self {
            FieldKind::Scalar { kind, .. } => kind.width(),
            _ => 0,
        }
    }

    /// The value that stands for "nothing given": zero, or no bytes.
    pub open spec fn zero(self) -> SemanticValue {
        match self {
            FieldKind::Scalar { kind, .. } => SemanticValue::Scalar(kind, 0),
            _ => SemanticValue::Bytes(Seq::empty()),
        }
    }
}

/// The semantic value that a built-in field makes of a caller's value: the
/// kind's zero where none is given, the value itself where it is of the
/// field's kind and in its range, an error otherwise.
pub open spec fn any2i_spec(kind: FieldKind, x: Option<HostModel>) -> Result<
    SemanticValue,
    PacketError,
> {
    match x {
        None => Ok(kind.zero()),
        Some(h) => match (kind, h) {
            (FieldKind::Scalar { kind: k, .. }, HostModel::Int(v)) => if k.contains(v) {
                Ok(SemanticValue::Scalar(k, v))
            } else {
                Err(PacketError::TypeConversion)
            },
            (FieldKind::Str, HostModel::Bytes(b)) => Ok(SemanticValue::Bytes(b)),
            _ => Err(PacketError::TypeConversion),
        },
    }
}

/// The wire value that a built-in field makes of a semantic value: the
/// value's own wire form, or the kind's zero where none is given.
pub open spec fn i2m_spec(kind: FieldKind, x: Option<SemanticValue>) -> MachineValue {
    match x {
        Some(v) => v.to_machine(),
        None => kind.zero().to_machine(),
    }
}

/// The bytes that a built-in field writes for a wire value, or an error
/// where the value is not of the field's kind.
pub open spec fn wire_bytes(kind: FieldKind, m: MachineValue) -> Result<Seq<u8>, PacketError> {
    match (kind, m) {
        (FieldKind::Scalar { kind: k, little }, MachineValue::Scalar(k2, v)) => if k == k2 {
            Ok(encode_int(k, little, v))
        } else {
            Err(PacketError::TypeConversion)
        },
        (FieldKind::Str, MachineValue::Bytes(b)) => Ok(b),
        _ => Err(PacketError::TypeConversion),
    }
}

/// The buffer `s` after a built-in field has appended a value to it.
pub open spec fn addfield_spec(kind: FieldKind, s: Seq<u8>, x: Option<SemanticValue>) -> Result<
    Seq<u8>,
    PacketError,
> {
    match wire_bytes(kind, i2m_spec(kind, x)) {
        Ok(b) => Ok(s + b),
        Err(e) => Err(e),
    }
}

/// What a built-in field takes from the front of `x`: the bytes that are
/// left, and the value it read.
pub open spec fn getfield_spec(kind: FieldKind, x: Seq<u8>) -> Result<
    (Seq<u8>, SemanticValue),
    PacketError,
> {
    match kind {
        FieldKind::Scalar { kind: k, little } => if x.len() < k.width() {
            Err(PacketError::TruncatedInput)
        } else {
            Ok(
                (
                    x.skip(k.width() as int),
                    SemanticValue::Scalar(k, decode_int(k, little, x.take(k.width() as int))),
                ),
            )
        },
        _ => Ok((Seq::empty(), SemanticValue::Bytes(x))),
    }
}

/// A field descriptor as mathematics sees it.
pub struct FieldSpec {
    pub name: Seq<char>,
    pub default: Option<SemanticValue>,
    pub sz: nat,
    pub kind: FieldKind,
    /// The count that a string field was declared with under the option
    /// `remain`; none for every other field.
    pub remain: Option<usize>,
}

/// The descriptor that a built-in field type makes of a name, a declared
/// default and, for a string field, the count it was declared with.
pub open spec fn descriptor_spec(
    kind: FieldKind,
    name: Seq<char>,
    default: Option<HostModel>,
    remain: Option<usize>,
) -> Result<FieldSpec, PacketError> {
    match default {
        None => Ok(FieldSpec { name, default: None, sz: kind.size(), kind, remain }),
        Some(h) => match any2i_spec(kind, Some(h)) {
            Ok(v) => Ok(FieldSpec { name, default: Some(v), sz: kind.size(), kind, remain }),
            Err(e) => Err(e),
        },
    }
}

pub open spec fn view_value(r: Result<InternalType, PacketError>) -> Result<
    SemanticValue,
    PacketError,
> {
    match r {
        Ok(v) => Ok(v@),
        Err(e) => Err(e),
    }
}

pub open spec fn view_machine(r: Result<MachineType, PacketError>) -> Result<
    MachineValue,
    PacketError,
> {
    match r {
        Ok(v) => Ok(v@),
        Err(e) => Err(e),
    }
}

pub open spec fn view_bytes(r: Result<Vec<u8>, PacketError>) -> Result<Seq<u8>, PacketError> {
    match r {
        Ok(v) => Ok(v@),
        Err(e) => Err(e),
    }
}

pub open spec fn view_taken(r: Result<(Cow<'_, [u8]>, InternalType), PacketError>) -> Result<
    (Seq<u8>, SemanticValue),
    PacketError,
> {
    match r {
        Ok((rest, v)) => Ok((rest@, v@)),
        Err(e) => Err(e),
    }
}

pub open spec fn view_descriptor<E>(r: Result<FieldProxy<E>, PacketError>) -> Result<
    FieldSpec,
    PacketError,
> {
    match r {
        Ok(f) => Ok(f@),
        Err(e) => Err(e),
    }
}

/// The five operations of a field, and its set-up. The built-in field types
/// say exactly what each returns; an externally defined field type is free
/// in what it does.
pub trait FieldTrait {
    /// Sets the field up from the options it was declared with.
    fn init(&mut self, kwargs: Option<&NameMap<InternalType>>) -> Result<(), PacketError>;

    /// Converts a caller's value into the field's semantic value.
    fn any2i(&self, pkt: Option<&Packet>, x: Option<&HostValue>) -> Result<
        InternalType,
        PacketError,
    >;

    /// Converts a wire value into the field's semantic value.
    fn m2i(&self, pkt: &Packet, x: MachineType) -> Result<InternalType, PacketError>;

    /// Converts a semantic value into its wire value.
    fn i2m(&self, pkt: &Packet, x: Option<&InternalType>) -> Result<MachineType, PacketError>;

    /// Appends the bytes of a value to `s`.
    fn addfield(&self, pkt: &Packet, s: Vec<u8>, val: Option<&InternalType>) -> Result<
        Vec<u8>,
        PacketError,
    >;

    /// Takes the field's bytes from the front of `x`; gives back what is
    /// left and the value read.
    fn getfield<'a>(&self, pkt: &Packet, x: Cow<'a, [u8]>) -> Result<
        (Cow<'a, [u8]>, InternalType),
        PacketError,
    >;
}

/// The bytes that `x` holds, borrowed or owned.
pub fn cow_bytes<'b, 'a>(x: &'b Cow<'a, [u8]>) -> (s: &'b [u8])
    ensures
        s@ == x@,
{
    match x {
        Cow::Borrowed(b) => b,
        Cow::Owned(v) => v.as_slice(),
    }
}

/// What is left of `x` after its first `n` bytes: borrowed where `x` is,
/// a copy where `x` owns its bytes.
pub fn cow_skip<'a>(x: Cow<'a, [u8]>, n: usize) -> (r: Cow<'a, [u8]>)
    requires
        n <= x@.len(),
    ensures
        r@ == x@.skip(n as int),
        x is Borrowed <==> r is Borrowed,
{
    match x {
        Cow::Borrowed(b) => {
            let rest = slice_subrange(b, n, b.len());
            assert(rest@ =~= b@.skip(n as int));
            Cow::Borrowed(rest)
        },
        Cow::Owned(v) => {
            let rest = slice_to_vec(slice_subrange(v.as_slice(), n, v.len()));
            assert(rest@ =~= v@.skip(n as int));
            Cow::Owned(rest)
        },
    }
}

/// A one-byte unsigned integer.
#[derive(Debug)]
pub struct ByteField {
    sz: usize,
}

impl Clone for ByteField {
    fn clone(&self) -> (r: Self)
        ensures
            r == *self,
    {
        proof {
            use_type_invariant(self);
        }
        ByteField { sz: self.sz }
    }
}

impl ByteField {
    #[verifier::type_invariant]
    spec fn sized(self) -> bool {
        self.sz == 1
    }

    /// What this field type reads and writes.
    pub open spec fn kind() -> FieldKind {
        FieldKind::Scalar { kind: IntKind::Byte, little: false }
    }

    /// The size in bytes that the field is set up to take on the wire.
    pub closed spec fn size(&self) -> nat {
        self.sz as nat
    }

    /// A field of this type under the name `name`, with the declared
    /// default `default` where one is given. Fails where the default is not
    /// an integer in range.
    pub fn new<E>(
        name: String,
        default: Option<&HostValue>,
        kwargs: Option<&NameMap<InternalType>>,
    ) -> (r: Result<FieldProxy<E>, PacketError>)
        ensures
            view_descriptor(r) == descriptor_spec(
                Self::kind(),
                name@,
                view_opt_host(default),
                None,
            ),
            r matches Ok(f) ==> f.fieldtype is ByteField,
    {
        let mut x = ByteField { sz: 1 };
        let _ = x.init(kwargs);
        let default = match default {
            Some(d) => Some(InternalType::from_host(IntKind::Byte, d)?),
            None => None,
        };
        Ok(FieldProxy { name, default, sz: x.sz, fieldtype: FieldType::ByteField(x) })
    }

    /// The name of this field type.
    pub fn name(&self) -> (r: &'static str)
        ensures
            r@ == "ByteField"@,
    {
        "ByteField"
    }
}

impl FieldTrait for ByteField {
    fn init(&mut self, _kwargs: Option<&NameMap<InternalType>>) -> (r: Result<(), PacketError>)
        ensures
            r is Ok,
            final(self).size() == 1,
    {
        self.sz = 1;
        Ok(())
    }

    fn any2i(&self, _pkt: Option<&Packet>, x: Option<&HostValue>) -> (r: Result<
        InternalType,
        PacketError,
    >)
        ensures
            view_value(r) == any2i_spec(Self::kind(), view_opt_host(x)),
    {
        match x {
            Some(h) => InternalType::from_host(IntKind::Byte, h),
            None => Ok(InternalType::Byte(0)),
        }
    }

    fn m2i(&self, _pkt: &Packet, x: MachineType) -> (r: Result<InternalType, PacketError>)
        ensures
            view_value(r) == Ok::<SemanticValue, PacketError>(x@.to_semantic()),
    {
        Ok(x.as_internal())
    }

    fn i2m(&self, _pkt: &Packet, x: Option<&InternalType>) -> (r: Result<MachineType, PacketError>)
        ensures
            view_machine(r) == Ok::<MachineValue, PacketError>(
                i2m_spec(Self::kind(), view_opt_ref(x)),
            ),
    {
        match x {
            Some(val) => Ok(val.as_machine()),
            None => Ok(InternalType::Byte(0).as_machine()),
        }
    }

    fn addfield(&self, pkt: &Packet, s: Vec<u8>, val: Option<&InternalType>) -> (r: Result<
        Vec<u8>,
        PacketError,
    >)
        ensures
            view_bytes(r) == addfield_spec(Self::kind(), s@, view_opt_ref(val)),
    {
        let mut s = s;
        let mval = self.i2m(pkt, val)?;
        match mval {
            MachineType::Byte(x) => {
                let bytes = <u8 as Int>::to_be_bytes(x);
                extend_bytes(&mut s, bytes.as_slice());
                Ok(s)
            },
            _ => Err(PacketError::TypeConversion),
        }
    }

    fn getfield<'a>(&self, pkt: &Packet, x: Cow<'a, [u8]>) -> (r: Result<
        (Cow<'a, [u8]>, InternalType),
        PacketError,
    >)
        ensures
            view_taken(r) == getfield_spec(Self::kind(), x@),
    {
        proof {
            use_type_invariant(self);
        }
        let given = cow_bytes(&x);
        if given.len() < self.sz {
            return Err(PacketError::TruncatedInput);
        }
        let head = slice_subrange(given, 0, self.sz);
        let bytes: [u8; 1] = [head[0]];
        assert(bytes@ =~= x@.take(1));
        let val = self.m2i(pkt, MachineType::Byte(<u8 as Int>::from_be_bytes(bytes)))?;
        Ok((cow_skip(x, self.sz), val))
    }
}

/// A two-byte unsigned integer, most significant byte first.
#[derive(Debug)]
pub struct ShortField {
    sz: usize,
}

impl Clone for ShortField {
    fn clone(&self) -> (r: Self)
        ensures
            r == *self,
    {
        proof {
            use_type_invariant(self);
        }
        ShortField { sz: self.sz }
    }
}

impl ShortField {
    #[verifier::type_invariant]
    spec fn sized(self) -> bool {
        self.sz == 2
    }

    /// What this field type reads and writes.
    pub open spec fn kind() -> FieldKind {
        FieldKind::Scalar { kind: IntKind::Short, little: false }
    }

    /// The size in bytes that the field is set up to take on the wire.
    pub closed spec fn size(&self) -> nat {
        self.sz as nat
    }

    /// A field of this type under the name `name`, with the declared
    /// default `default` where one is given. Fails where the default is not
    /// an integer in range.
    pub fn new<E>(
        name: String,
        default: Option<&HostValue>,
        kwargs: Option<&NameMap<InternalType>>,
    ) -> (r: Result<FieldProxy<E>, PacketError>)
        ensures
            view_descriptor(r) == descriptor_spec(
                Self::kind(),
                name@,
                view_opt_host(default),
                None,
            ),
            r matches Ok(f) ==> f.fieldtype is ShortField,
    {
        let mut x = ShortField { sz: 2 };
        let _ = x.init(kwargs);
        let default = match default {
            Some(d) => Some(InternalType::from_host(IntKind::Short, d)?),
            None => None,
        };
        Ok(FieldProxy { name, default, sz: x.sz, fieldtype: FieldType::ShortField(x) })
    }

    /// The name of this field type.
    pub fn name(&self) -> (r: &'static str)
        ensures
            r@ == "ShortField"@,
    {
        "ShortField"
    }
}

impl FieldTrait for ShortField {
    fn init(&mut self, _kwargs: Option<&NameMap<InternalType>>) -> (r: Result<(), PacketError>)
        ensures
            r is Ok,
            final(self).size() == 2,
    {
        self.sz = 2;
        Ok(())
    }

    fn any2i(&self, _pkt: Option<&Packet>, x: Option<&HostValue>) -> (r: Result<
        InternalType,
        PacketError,
    >)
        ensures
            view_value(r) == any2i_spec(Self::kind(), view_opt_host(x)),
    {
        match x {
            Some(h) => InternalType::from_host(IntKind::Short, h),
            None => Ok(InternalType::Short(0)),
        }
    }

    fn m2i(&self, _pkt: &Packet, x: MachineType) -> (r: Result<InternalType, PacketError>)
        ensures
            view_value(r) == Ok::<SemanticValue, PacketError>(x@.to_semantic()),
    {
        Ok(x.as_internal())
    }

    fn i2m(&self, _pkt: &Packet, x: Option<&InternalType>) -> (r: Result<MachineType, PacketError>)
        ensures
            view_machine(r) == Ok::<MachineValue, PacketError>(
                i2m_spec(Self::kind(), view_opt_ref(x)),
            ),
    {
        match x {
            Some(val) => Ok(val.as_machine()),
            None => Ok(InternalType::Short(0).as_machine()),
        }
    }

    fn addfield(&self, pkt: &Packet, s: Vec<u8>, val: Option<&InternalType>) -> (r: Result<
        Vec<u8>,
        PacketError,
    >)
        ensures
            view_bytes(r) == addfield_spec(Self::kind(), s@, view_opt_ref(val)),
    {
        let mut s = s;
        let mval = self.i2m(pkt, val)?;
        match mval {
            MachineType::Short(x) => {
                let bytes = <u16 as Int>::to_be_bytes(x);
                extend_bytes(&mut s, bytes.as_slice());
                Ok(s)
            },
            _ => Err(PacketError::TypeConversion),
        }
    }

    fn getfield<'a>(&self, pkt: &Packet, x: Cow<'a, [u8]>) -> (r: Result<
        (Cow<'a, [u8]>, InternalType),
        PacketError,
    >)
        ensures
            view_taken(r) == getfield_spec(Self::kind(), x@),
    {
        proof {
            use_type_invariant(self);
        }
        let given = cow_bytes(&x);
        if given.len() < self.sz {
            return Err(PacketError::TruncatedInput);
        }
        let head = slice_subrange(given, 0, self.sz);
        let bytes: [u8; 2] = [head[0], head[1]];
        assert(bytes@ =~= x@.take(2));
        let val = self.m2i(pkt, MachineType::Short(<u16 as Int>::from_be_bytes(bytes)))?;
        Ok((cow_skip(x, self.sz), val))
    }
}

/// A four-byte unsigned integer, most significant byte first.
#[derive(Debug)]
pub struct IntField {
    sz: usize,
}

impl Clone for IntField {
    fn clone(&self) -> (r: Self)
        ensures
            r == *self,
    {
        proof {
            use_type_invariant(self);
        }
        IntField { sz: self.sz }
    }
}

impl IntField {
    #[verifier::type_invariant]
    spec fn sized(self) -> bool {
        self.sz == 4
    }

    /// What this field type reads and writes.
    pub open spec fn kind() -> FieldKind {
        FieldKind::Scalar { kind: IntKind::Int, little: false }
    }

    /// The size in bytes that the field is set up to take on the wire.
    pub closed spec fn size(&self) -> nat {
        self.sz as nat
    }

    /// A field of this type under the name `name`, with the declared
    /// default `default` where one is given. Fails where the default is not
    /// an integer in range.
    pub fn new<E>(
        name: String,
        default: Option<&HostValue>,
        kwargs: Option<&NameMap<InternalType>>,
    ) -> (r: Result<FieldProxy<E>, PacketError>)
        ensures
            view_descriptor(r) == descriptor_spec(
                Self::kind(),
                name@,
                view_opt_host(default),
                None,
            ),
            r matches Ok(f) ==> f.fieldtype is IntField,
    {
        let mut x = IntField { sz: 4 };
        let _ = x.init(kwargs);
        let default = match default {
            Some(d) => Some(InternalType::from_host(IntKind::Int, d)?),
            None => None,
        };
        Ok(FieldProxy { name, default, sz: x.sz, fieldtype: FieldType::IntField(x) })
    }

    /// The name of this field type.
    pub fn name(&self) -> (r: &'static str)
        ensures
            r@ == "IntField"@,
    {
        "IntField"
    }
}

impl FieldTrait for IntField {
    fn init(&mut self, _kwargs: Option<&NameMap<InternalType>>) -> (r: Result<(), PacketError>)
        ensures
            r is Ok,
            final(self).size() == 4,
    {
        self.sz = 4;
        Ok(())
    }

    fn any2i(&self, _pkt: Option<&Packet>, x: Option<&HostValue>) -> (r: Result<
        InternalType,
        PacketError,
    >)
        ensures
            view_value(r) == any2i_spec(Self::kind(), view_opt_host(x)),
    {
        match x {
            Some(h) => InternalType::from_host(IntKind::Int, h),
            None => Ok(InternalType::Int(0)),
        }
    }

    fn m2i(&self, _pkt: &Packet, x: MachineType) -> (r: Result<InternalType, PacketError>)
        ensures
            view_value(r) == Ok::<SemanticValue, PacketError>(x@.to_semantic()),
    {
        Ok(x.as_internal())
    }

    fn i2m(&self, _pkt: &Packet, x: Option<&InternalType>) -> (r: Result<MachineType, PacketError>)
        ensures
            view_machine(r) == Ok::<MachineValue, PacketError>(
                i2m_spec(Self::kind(), view_opt_ref(x)),
            ),
    {
        match x {
            Some(val) => Ok(val.as_machine()),
            None => Ok(InternalType::Int(0).as_machine()),
        }
    }

    fn addfield(&self, pkt: &Packet, s: Vec<u8>, val: Option<&InternalType>) -> (r: Result<
        Vec<u8>,
        PacketError,
    >)
        ensures
            view_bytes(r) == addfield_spec(Self::kind(), s@, view_opt_ref(val)),
    {
        let mut s = s;
        let mval = self.i2m(pkt, val)?;
        match mval {
            MachineType::Int(x) => {
                let bytes = <u32 as Int>::to_be_bytes(x);
                extend_bytes(&mut s, bytes.as_slice());
                Ok(s)
            },
            _ => Err(PacketError::TypeConversion),
        }
    }

    fn getfield<'a>(&self, pkt: &Packet, x: Cow<'a, [u8]>) -> (r: Result<
        (Cow<'a, [u8]>, InternalType),
        PacketError,
    >)
        ensures
            view_taken(r) == getfield_spec(Self::kind(), x@),
    {
        proof {
            use_type_invariant(self);
        }
        let given = cow_bytes(&x);
        if given.len() < self.sz {
            return Err(PacketError::TruncatedInput);
        }
        let head = slice_subrange(given, 0, self.sz);
        let bytes: [u8; 4] = [head[0], head[1], head[2], head[3]];
        assert(bytes@ =~= x@.take(4));
        let val = self.m2i(pkt, MachineType::Int(<u32 as Int>::from_be_bytes(bytes)))?;
        Ok((cow_skip(x, self.sz), val))
    }
}

/// An eight-byte unsigned integer, most significant byte first.
#[derive(Debug)]
pub struct LongField {
    sz: usize,
}

impl Clone for LongField {
    fn clone(&self) -> (r: Self)
        ensures
            r == *self,
    {
        proof {
            use_type_invariant(self);
        }
        LongField { sz: self.sz }
    }
}

impl LongField {
    #[verifier::type_invariant]
    spec fn sized(self) -> bool {
        self.sz == 8
    }

    /// What this field type reads and writes.
    pub open spec fn kind() -> FieldKind {
        FieldKind::Scalar { kind: IntKind::Long, little: false }
    }

    /// The size in bytes that the field is set up to take on the wire.
    pub closed spec fn size(&self) -> nat {
        self.sz as nat
    }

    /// A field of this type under the name `name`, with the declared
    /// default `default` where one is given. Fails where the default is not
    /// an integer in range.
    pub fn new<E>(
        name: String,
        default: Option<&HostValue>,
        kwargs: Option<&NameMap<InternalType>>,
    ) -> (r: Result<FieldProxy<E>, PacketError>)
        ensures
            view_descriptor(r) == descriptor_spec(
                Self::kind(),
                name@,
                view_opt_host(default),
                None,
            ),
            r matches Ok(f) ==> f.fieldtype is LongField,
    {
        let mut x = LongField { sz: 8 };
        let _ = x.init(kwargs);
        let default = match default {
            Some(d) => Some(InternalType::from_host(IntKind::Long, d)?),
            None => None,
        };
        Ok(FieldProxy { name, default, sz: x.sz, fieldtype: FieldType::LongField(x) })
    }

    /// The name of this field type.
    pub fn name(&self) -> (r: &'static str)
        ensures
            r@ == "LongField"@,
    {
        "LongField"
    }
}

impl FieldTrait for LongField {
    fn init(&mut self, _kwargs: Option<&NameMap<InternalType>>) -> (r: Result<(), PacketError>)
        ensures
            r is Ok,
            final(self).size() == 8,
    {
        self.sz = 8;
        Ok(())
    }

    fn any2i(&self, _pkt: Option<&Packet>, x: Option<&HostValue>) -> (r: Result<
        InternalType,
        PacketError,
    >)
        ensures
            view_value(r) == any2i_spec(Self::kind(), view_opt_host(x)),
    {
        match x {
            Some(h) => InternalType::from_host(IntKind::Long, h),
            None => Ok(InternalType::Long(0)),
        }
    }

    fn m2i(&self, _pkt: &Packet, x: MachineType) -> (r: Result<InternalType, PacketError>)
        ensures
            view_value(r) == Ok::<SemanticValue, PacketError>(x@.to_semantic()),
    {
        Ok(x.as_internal())
    }

    fn i2m(&self, _pkt: &Packet, x: Option<&InternalType>) -> (r: Result<MachineType, PacketError>)
        ensures
            view_machine(r) == Ok::<MachineValue, PacketError>(
                i2m_spec(Self::kind(), view_opt_ref(x)),
            ),
    {
        match x {
            Some(val) => Ok(val.as_machine()),
            None => Ok(InternalType::Long(0).as_machine()),
        }
    }

    fn addfield(&self, pkt: &Packet, s: Vec<u8>, val: Option<&InternalType>) -> (r: Result<
        Vec<u8>,
        PacketError,
    >)
        ensures
            view_bytes(r) == addfield_spec(Self::kind(), s@, view_opt_ref(val)),
    {
        let mut s = s;
        let mval = self.i2m(pkt, val)?;
        match mval {
            MachineType::Long(x) => {
                let bytes = <u64 as Int>::to_be_bytes(x);
                extend_bytes(&mut s, bytes.as_slice());
                Ok(s)
            },
            _ => Err(PacketError::TypeConversion),
        }
    }

    fn getfield<'a>(&self, pkt: &Packet, x: Cow<'a, [u8]>) -> (r: Result<
        (Cow<'a, [u8]>, InternalType),
        PacketError,
    >)
        ensures
            view_taken(r) == getfield_spec(Self::kind(), x@),
    {
        proof {
            use_type_invariant(self);
        }
        let given = cow_bytes(&x);
        if given.len() < self.sz {
            return Err(PacketError::TruncatedInput);
        }
        let head = slice_subrange(given, 0, self.sz);
        let bytes: [u8; 8] = [head[0], head[1], head[2], head[3], head[4], head[5], head[6], head[7]];
        assert(bytes@ =~= x@.take(8));
        let val = self.m2i(pkt, MachineType::Long(<u64 as Int>::from_be_bytes(bytes)))?;
        Ok((cow_skip(x, self.sz), val))
    }
}

/// A two-byte unsigned integer, least significant byte first.
#[derive(Debug)]
pub struct LEShortField {
    sz: usize,
}

impl Clone for LEShortField {
    fn clone(&self) -> (r: Self)
        ensures
            r == *self,
    {
        proof {
            use_type_invariant(self);
        }
        LEShortField { sz: self.sz }
    }
}

impl LEShortField {
    #[verifier::type_invariant]
    spec fn sized(self) -> bool {
        self.sz == 2
    }

    /// What this field type reads and writes.
    pub open spec fn kind() -> FieldKind {
        FieldKind::Scalar { kind: IntKind::Short, little: true }
    }

    /// The size in bytes that the field is set up to take on the wire.
    pub closed spec fn size(&self) -> nat {
        self.sz as nat
    }

    /// A field of this type under the name `name`, with the declared
    /// default `default` where one is given. Fails where the default is not
    /// an integer in range.
    pub fn new<E>(
        name: String,
        default: Option<&HostValue>,
        kwargs: Option<&NameMap<InternalType>>,
    ) -> (r: Result<FieldProxy<E>, PacketError>)
        ensures
            view_descriptor(r) == descriptor_spec(
                Self::kind(),
                name@,
                view_opt_host(default),
                None,
            ),
            r matches Ok(f) ==> f.fieldtype is LEShortField,
    {
        let mut x = LEShortField { sz: 2 };
        let _ = x.init(kwargs);
        let default = match default {
            Some(d) => Some(InternalType::from_host(IntKind::Short, d)?),
            None => None,
        };
        Ok(FieldProxy { name, default, sz: x.sz, fieldtype: FieldType::LEShortField(x) })
    }

    /// The name of this field type.
    pub fn name(&self) -> (r: &'static str)
        ensures
            r@ == "LEShortField"@,
    {
        "LEShortField"
    }
}

impl FieldTrait for LEShortField {
    fn init(&mut self, _kwargs: Option<&NameMap<InternalType>>) -> (r: Result<(), PacketError>)
        ensures
            r is Ok,
            final(self).size() == 2,
    {
        self.sz = 2;
        Ok(())
    }

    fn any2i(&self, _pkt: Option<&Packet>, x: Option<&HostValue>) -> (r: Result<
        InternalType,
        PacketError,
    >)
        ensures
            view_value(r) == any2i_spec(Self::kind(), view_opt_host(x)),
    {
        match x {
            Some(h) => InternalType::from_host(IntKind::Short, h),
            None => Ok(InternalType::Short(0)),
        }
    }

    fn m2i(&self, _pkt: &Packet, x: MachineType) -> (r: Result<InternalType, PacketError>)
        ensures
            view_value(r) == Ok::<SemanticValue, PacketError>(x@.to_semantic()),
    {
        Ok(x.as_internal())
    }

    fn i2m(&self, _pkt: &Packet, x: Option<&InternalType>) -> (r: Result<MachineType, PacketError>)
        ensures
            view_machine(r) == Ok::<MachineValue, PacketError>(
                i2m_spec(Self::kind(), view_opt_ref(x)),
            ),
    {
        match x {
            Some(val) => Ok(val.as_machine()),
            None => Ok(InternalType::Short(0).as_machine()),
        }
    }

    fn addfield(&self, pkt: &Packet, s: Vec<u8>, val: Option<&InternalType>) -> (r: Result<
        Vec<u8>,
        PacketError,
    >)
        ensures
            view_bytes(r) == addfield_spec(Self::kind(), s@, view_opt_ref(val)),
    {
        let mut s = s;
        let mval = self.i2m(pkt, val)?;
        match mval {
            MachineType::Short(x) => {
                let bytes = <u16 as Int>::to_le_bytes(x);
                extend_bytes(&mut s, bytes.as_slice());
                Ok(s)
            },
            _ => Err(PacketError::TypeConversion),
        }
    }

    fn getfield<'a>(&self, pkt: &Packet, x: Cow<'a, [u8]>) -> (r: Result<
        (Cow<'a, [u8]>, InternalType),
        PacketError,
    >)
        ensures
            view_taken(r) == getfield_spec(Self::kind(), x@),
    {
        proof {
            use_type_invariant(self);
        }
        let given = cow_bytes(&x);
        if given.len() < self.sz {
            return Err(PacketError::TruncatedInput);
        }
        let head = slice_subrange(given, 0, self.sz);
        let bytes: [u8; 2] = [head[0], head[1]];
        assert(bytes@ =~= x@.take(2));
        let val = self.m2i(pkt, MachineType::Short(<u16 as Int>::from_le_bytes(bytes)))?;
        Ok((cow_skip(x, self.sz), val))
    }
}

/// A four-byte unsigned integer, least significant byte first.
#[derive(Debug)]
pub struct LEIntField {
    sz: usize,
}

impl Clone for LEIntField {
    fn clone(&self) -> (r: Self)
        ensures
            r == *self,
    {
        proof {
            use_type_invariant(self);
        }
        LEIntField { sz: self.sz }
    }
}

impl LEIntField {
    #[verifier::type_invariant]
    spec fn sized(self) -> bool {
        self.sz == 4
    }

    /// What this field type reads and writes.
    pub open spec fn kind() -> FieldKind {
        FieldKind::Scalar { kind: IntKind::Int, little: true }
    }

    /// The size in bytes that the field is set up to take on the wire.
    pub closed spec fn size(&self) -> nat {
        self.sz as nat
    }

    /// A field of this type under the name `name`, with the declared
    /// default `default` where one is given. Fails where the default is not
    /// an integer in range.
    pub fn new<E>(
        name: String,
        default: Option<&HostValue>,
        kwargs: Option<&NameMap<InternalType>>,
    ) -> (r: Result<FieldProxy<E>, PacketError>)
        ensures
            view_descriptor(r) == descriptor_spec(
                Self::kind(),
                name@,
                view_opt_host(default),
                None,
            ),
            r matches Ok(f) ==> f.fieldtype is LEIntField,
    {
        let mut x = LEIntField { sz: 4 };
        let _ = x.init(kwargs);
        let default = match default {
            Some(d) => Some(InternalType::from_host(IntKind::Int, d)?),
            None => None,
        };
        Ok(FieldProxy { name, default, sz: x.sz, fieldtype: FieldType::LEIntField(x) })
    }

    /// The name of this field type.
    pub fn name(&self) -> (r: &'static str)
        ensures
            r@ == "LEIntField"@,
    {
        "LEIntField"
    }
}

impl FieldTrait for LEIntField {
    fn init(&mut self, _kwargs: Option<&NameMap<InternalType>>) -> (r: Result<(), PacketError>)
        ensures
            r is Ok,
            final(self).size() == 4,
    {
        self.sz = 4;
        Ok(())
    }

    fn any2i(&self, _pkt: Option<&Packet>, x: Option<&HostValue>) -> (r: Result<
        InternalType,
        PacketError,
    >)
        ensures
            view_value(r) == any2i_spec(Self::kind(), view_opt_host(x)),
    {
        match x {
            Some(h) => InternalType::from_host(IntKind::Int, h),
            None => Ok(InternalType::Int(0)),
        }
    }

    fn m2i(&self, _pkt: &Packet, x: MachineType) -> (r: Result<InternalType, PacketError>)
        ensures
            view_value(r) == Ok::<SemanticValue, PacketError>(x@.to_semantic()),
    {
        Ok(x.as_internal())
    }

    fn i2m(&self, _pkt: &Packet, x: Option<&InternalType>) -> (r: Result<MachineType, PacketError>)
        ensures
            view_machine(r) == Ok::<MachineValue, PacketError>(
                i2m_spec(Self::kind(), view_opt_ref(x)),
            ),
    {
        match x {
            Some(val) => Ok(val.as_machine()),
            None => Ok(InternalType::Int(0).as_machine()),
        }
    }

    fn addfield(&self, pkt: &Packet, s: Vec<u8>, val: Option<&InternalType>) -> (r: Result<
        Vec<u8>,
        PacketError,
    >)
        ensures
            view_bytes(r) == addfield_spec(Self::kind(), s@, view_opt_ref(val)),
    {
        let mut s = s;
        let mval = self.i2m(pkt, val)?;
        match mval {
            MachineType::Int(x) => {
                let bytes = <u32 as Int>::to_le_bytes(x);
                extend_bytes(&mut s, bytes.as_slice());
                Ok(s)
            },
            _ => Err(PacketError::TypeConversion),
        }
    }

    fn getfield<'a>(&self, pkt: &Packet, x: Cow<'a, [u8]>) -> (r: Result<
        (Cow<'a, [u8]>, InternalType),
        PacketError,
    >)
        ensures
            view_taken(r) == getfield_spec(Self::kind(), x@),
    {
        proof {
            use_type_invariant(self);
        }
        let given = cow_bytes(&x);
        if given.len() < self.sz {
            return Err(PacketError::TruncatedInput);
        }
        let head = slice_subrange(given, 0, self.sz);
        let bytes: [u8; 4] = [head[0], head[1], head[2], head[3]];
        assert(bytes@ =~= x@.take(4));
        let val = self.m2i(pkt, MachineType::Int(<u32 as Int>::from_le_bytes(bytes)))?;
        Ok((cow_skip(x, self.sz), val))
    }
}

/// An eight-byte unsigned integer, least significant byte first.
#[derive(Debug)]
pub struct LELongField {
    sz: usize,
}

impl Clone for LELongField {
    fn clone(&self) -> (r: Self)
        ensures
            r == *self,
    {
        proof {
            use_type_invariant(self);
        }
        LELongField { sz: self.sz }
    }
}

impl LELongField {
    #[verifier::type_invariant]
    spec fn sized(self) -> bool {
        self.sz == 8
    }

    /// What this field type reads and writes.
    pub open spec fn kind() -> FieldKind {
        FieldKind::Scalar { kind: IntKind::Long, little: true }
    }

    /// The size in bytes that the field is set up to take on the wire.
    pub closed spec fn size(&self) -> nat {
        self.sz as nat
    }

    /// A field of this type under the name `name`, with the declared
    /// default `default` where one is given. Fails where the default is not
    /// an integer in range.
    pub fn new<E>(
        name: String,
        default: Option<&HostValue>,
        kwargs: Option<&NameMap<InternalType>>,
    ) -> (r: Result<FieldProxy<E>, PacketError>)
        ensures
            view_descriptor(r) == descriptor_spec(
                Self::kind(),
                name@,
                view_opt_host(default),
                None,
            ),
            r matches Ok(f) ==> f.fieldtype is LELongField,
    {
        let mut x = LELongField { sz: 8 };
        let _ = x.init(kwargs);
        let default = match default {
            Some(d) => Some(InternalType::from_host(IntKind::Long, d)?),
            None => None,
        };
        Ok(FieldProxy { name, default, sz: x.sz, fieldtype: FieldType::LELongField(x) })
    }

    /// The name of this field type.
    pub fn name(&self) -> (r: &'static str)
        ensures
            r@ == "LELongField"@,
    {
        "LELongField"
    }
}

impl FieldTrait for LELongField {
    fn init(&mut self, _kwargs: Option<&NameMap<InternalType>>) -> (r: Result<(), PacketError>)
        ensures
            r is Ok,
            final(self).size() == 8,
    {
        self.sz = 8;
        Ok(())
    }

    fn any2i(&self, _pkt: Option<&Packet>, x: Option<&HostValue>) -> (r: Result<
        InternalType,
        PacketError,
    >)
        ensures
            view_value(r) == any2i_spec(Self::kind(), view_opt_host(x)),
    {
        match x {
            Some(h) => InternalType::from_host(IntKind::Long, h),
            None => Ok(InternalType::Long(0)),
        }
    }

    fn m2i(&self, _pkt: &Packet, x: MachineType) -> (r: Result<InternalType, PacketError>)
        ensures
            view_value(r) == Ok::<SemanticValue, PacketError>(x@.to_semantic()),
    {
        Ok(x.as_internal())
    }

    fn i2m(&self, _pkt: &Packet, x: Option<&InternalType>) -> (r: Result<MachineType, PacketError>)
        ensures
            view_machine(r) == Ok::<MachineValue, PacketError>(
                i2m_spec(Self::kind(), view_opt_ref(x)),
            ),
    {
        match x {
            Some(val) => Ok(val.as_machine()),
            None => Ok(InternalType::Long(0).as_machine()),
        }
    }

    fn addfield(&self, pkt: &Packet, s: Vec<u8>, val: Option<&InternalType>) -> (r: Result<
        Vec<u8>,
        PacketError,
    >)
        ensures
            view_bytes(r) == addfield_spec(Self::kind(), s@, view_opt_ref(val)),
    {
        let mut s = s;
        let mval = self.i2m(pkt, val)?;
        match mval {
            MachineType::Long(x) => {
                let bytes = <u64 as Int>::to_le_bytes(x);
                extend_bytes(&mut s, bytes.as_slice());
                Ok(s)
            },
            _ => Err(PacketError::TypeConversion),
        }
    }

    fn getfield<'a>(&self, pkt: &Packet, x: Cow<'a, [u8]>) -> (r: Result<
        (Cow<'a, [u8]>, InternalType),
        PacketError,
    >)
        ensures
            view_taken(r) == getfield_spec(Self::kind(), x@),
    {
        proof {
            use_type_invariant(self);
        }
        let given = cow_bytes(&x);
        if given.len() < self.sz {
            return Err(PacketError::TruncatedInput);
        }
        let head = slice_subrange(given, 0, self.sz);
        let bytes: [u8; 8] = [head[0], head[1], head[2], head[3], head[4], head[5], head[6], head[7]];
        assert(bytes@ =~= x@.take(8));
        let val = self.m2i(pkt, MachineType::Long(<u64 as Int>::from_le_bytes(bytes)))?;
        Ok((cow_skip(x, self.sz), val))
    }
}

/// A one-byte signed integer.
#[derive(Debug)]
pub struct SignedByteField {
    sz: usize,
}

impl Clone for SignedByteField {
    fn clone(&self) -> (r: Self)
        ensures
            r == *self,
    {
        proof {
            use_type_invariant(self);
        }
        SignedByteField { sz: self.sz }
    }
}

impl SignedByteField {
    #[verifier::type_invariant]
    spec fn sized(self) -> bool {
        self.sz == 1
    }

    /// What this field type reads and writes.
    pub open spec fn kind() -> FieldKind {
        FieldKind::Scalar { kind: IntKind::SignedByte, little: false }
    }

    /// The size in bytes that the field is set up to take on the wire.
    pub closed spec fn size(&self) -> nat {
        self.sz as nat
    }

    /// A field of this type under the name `name`, with the declared
    /// default `default` where one is given. Fails where the default is not
    /// an integer in range.
    pub fn new<E>(
        name: String,
        default: Option<&HostValue>,
        kwargs: Option<&NameMap<InternalType>>,
    ) -> (r: Result<FieldProxy<E>, PacketError>)
        ensures
            view_descriptor(r) == descriptor_spec(
                Self::kind(),
                name@,
                view_opt_host(default),
                None,
            ),
            r matches Ok(f) ==> f.fieldtype is SignedByteField,
    {
        let mut x = SignedByteField { sz: 1 };
        let _ = x.init(kwargs);
        let default = match default {
            Some(d) => Some(InternalType::from_host(IntKind::SignedByte, d)?),
            None => None,
        };
        Ok(FieldProxy { name, default, sz: x.sz, fieldtype: FieldType::SignedByteField(x) })
    }

    /// The name of this field type.
    pub fn name(&self) -> (r: &'static str)
        ensures
            r@ == "SignedByteField"@,
    {
        "SignedByteField"
    }
}

impl FieldTrait for SignedByteField {
    fn init(&mut self, _kwargs: Option<&NameMap<InternalType>>) -> (r: Result<(), PacketError>)
        ensures
            r is Ok,
            final(self).size() == 1,
    {
        self.sz = 1;
        Ok(())
    }

    fn any2i(&self, _pkt: Option<&Packet>, x: Option<&HostValue>) -> (r: Result<
        InternalType,
        PacketError,
    >)
        ensures
            view_value(r) == any2i_spec(Self::kind(), view_opt_host(x)),
    {
        match x {
            Some(h) => InternalType::from_host(IntKind::SignedByte, h),
            None => Ok(InternalType::SignedByte(0)),
        }
    }

    fn m2i(&self, _pkt: &Packet, x: MachineType) -> (r: Result<InternalType, PacketError>)
        ensures
            view_value(r) == Ok::<SemanticValue, PacketError>(x@.to_semantic()),
    {
        Ok(x.as_internal())
    }

    fn i2m(&self, _pkt: &Packet, x: Option<&InternalType>) -> (r: Result<MachineType, PacketError>)
        ensures
            view_machine(r) == Ok::<MachineValue, PacketError>(
                i2m_spec(Self::kind(), view_opt_ref(x)),
            ),
    {
        match x {
            Some(val) => Ok(val.as_machine()),
            None => Ok(InternalType::SignedByte(0).as_machine()),
        }
    }

    fn addfield(&self, pkt: &Packet, s: Vec<u8>, val: Option<&InternalType>) -> (r: Result<
        Vec<u8>,
        PacketError,
    >)
        ensures
            view_bytes(r) == addfield_spec(Self::kind(), s@, view_opt_ref(val)),
    {
        let mut s = s;
        let mval = self.i2m(pkt, val)?;
        match mval {
            MachineType::SignedByte(x) => {
                let bytes = <i8 as Int>::to_be_bytes(x);
                extend_bytes(&mut s, bytes.as_slice());
                Ok(s)
            },
            _ => Err(PacketError::TypeConversion),
        }
    }

    fn getfield<'a>(&self, pkt: &Packet, x: Cow<'a, [u8]>) -> (r: Result<
        (Cow<'a, [u8]>, InternalType),
        PacketError,
    >)
        ensures
            view_taken(r) == getfield_spec(Self::kind(), x@),
    {
        proof {
            use_type_invariant(self);
        }
        let given = cow_bytes(&x);
        if given.len() < self.sz {
            return Err(PacketError::TruncatedInput);
        }
        let head = slice_subrange(given, 0, self.sz);
        let bytes: [u8; 1] = [head[0]];
        assert(bytes@ =~= x@.take(1));
        let val = self.m2i(pkt, MachineType::SignedByte(<i8 as Int>::from_be_bytes(bytes)))?;
        Ok((cow_skip(x, self.sz), val))
    }
}

/// A two-byte signed integer, most significant byte first.
#[derive(Debug)]
pub struct SignedShortField {
    sz: usize,
}

impl Clone for SignedShortField {
    fn clone(&self) -> (r: Self)
        ensures
            r == *self,
    {
        proof {
            use_type_invariant(self);
        }
        SignedShortField { sz: self.sz }
    }
}

impl SignedShortField {
    #[verifier::type_invariant]
    spec fn sized(self) -> bool {
        self.sz == 2
    }

    /// What this field type reads and writes.
    pub open spec fn kind() -> FieldKind {
        FieldKind::Scalar { kind: IntKind::SignedShort, little: false }
    }

    /// The size in bytes that the field is set up to take on the wire.
    pub closed spec fn size(&self) -> nat {
        self.sz as nat
    }

    /// A field of this type under the name `name`, with the declared
    /// default `default` where one is given. Fails where the default is not
    /// an integer in range.
    pub fn new<E>(
        name: String,
        default: Option<&HostValue>,
        kwargs: Option<&NameMap<InternalType>>,
    ) -> (r: Result<FieldProxy<E>, PacketError>)
        ensures
            view_descriptor(r) == descriptor_spec(
                Self::kind(),
                name@,
                view_opt_host(default),
                None,
            ),
            r matches Ok(f) ==> f.fieldtype is SignedShortField,
    {
        let mut x = SignedShortField { sz: 2 };
        let _ = x.init(kwargs);
        let default = match default {
            Some(d) => Some(InternalType::from_host(IntKind::SignedShort, d)?),
            None => None,
        };
        Ok(FieldProxy { name, default, sz: x.sz, fieldtype: FieldType::SignedShortField(x) })
    }

    /// The name of this field type.
    pub fn name(&self) -> (r: &'static str)
        ensures
            r@ == "SignedShortField"@,
    {
        "SignedShortField"
    }
}

impl FieldTrait for SignedShortField {
    fn init(&mut self, _kwargs: Option<&NameMap<InternalType>>) -> (r: Result<(), PacketError>)
        ensures
            r is Ok,
            final(self).size() == 2,
    {
        self.sz = 2;
        Ok(())
    }

    fn any2i(&self, _pkt: Option<&Packet>, x: Option<&HostValue>) -> (r: Result<
        InternalType,
        PacketError,
    >)
        ensures
            view_value(r) == any2i_spec(Self::kind(), view_opt_host(x)),
    {
        match x {
            Some(h) => InternalType::from_host(IntKind::SignedShort, h),
            None => Ok(InternalType::SignedShort(0)),
        }
    }

    fn m2i(&self, _pkt: &Packet, x: MachineType) -> (r: Result<InternalType, PacketError>)
        ensures
            view_value(r) == Ok::<SemanticValue, PacketError>(x@.to_semantic()),
    {
        Ok(x.as_internal())
    }

    fn i2m(&self, _pkt: &Packet, x: Option<&InternalType>) -> (r: Result<MachineType, PacketError>)
        ensures
            view_machine(r) == Ok::<MachineValue, PacketError>(
                i2m_spec(Self::kind(), view_opt_ref(x)),
            ),
    {
        match x {
            Some(val) => Ok(val.as_machine()),
            None => Ok(InternalType::SignedShort(0).as_machine()),
        }
    }

    fn addfield(&self, pkt: &Packet, s: Vec<u8>, val: Option<&InternalType>) -> (r: Result<
        Vec<u8>,
        PacketError,
    >)
        ensures
            view_bytes(r) == addfield_spec(Self::kind(), s@, view_opt_ref(val)),
    {
        let mut s = s;
        let mval = self.i2m(pkt, val)?;
        match mval {
            MachineType::SignedShort(x) => {
                let bytes = <i16 as Int>::to_be_bytes(x);
                extend_bytes(&mut s, bytes.as_slice());
                Ok(s)
            },
            _ => Err(PacketError::TypeConversion),
        }
    }

    fn getfield<'a>(&self, pkt: &Packet, x: Cow<'a, [u8]>) -> (r: Result<
        (Cow<'a, [u8]>, InternalType),
        PacketError,
    >)
        ensures
            view_taken(r) == getfield_spec(Self::kind(), x@),
    {
        proof {
            use_type_invariant(self);
        }
        let given = cow_bytes(&x);
        if given.len() < self.sz {
            return Err(PacketError::TruncatedInput);
        }
        let head = slice_subrange(given, 0, self.sz);
        let bytes: [u8; 2] = [head[0], head[1]];
        assert(bytes@ =~= x@.take(2));
        let val = self.m2i(pkt, MachineType::SignedShort(<i16 as Int>::from_be_bytes(bytes)))?;
        Ok((cow_skip(x, self.sz), val))
    }
}

/// A four-byte signed integer, most significant byte first.
#[derive(Debug)]
pub struct SignedIntField {
    sz: usize,
}

impl Clone for SignedIntField {
    fn clone(&self) -> (r: Self)
        ensures
            r == *self,
    {
        proof {
            use_type_invariant(self);
        }
        SignedIntField { sz: self.sz }
    }
}

impl SignedIntField {
    #[verifier::type_invariant]
    spec fn sized(self) -> bool {
        self.sz == 4
    }

    /// What this field type reads and writes.
    pub open spec fn kind() -> FieldKind {
        FieldKind::Scalar { kind: IntKind::SignedInt, little: false }
    }

    /// The size in bytes that the field is set up to take on the wire.
    pub closed spec fn size(&self) -> nat {
        self.sz as nat
    }

    /// A field of this type under the name `name`, with the declared
    /// default `default` where one is given. Fails where the default is not
    /// an integer in range.
    pub fn new<E>(
        name: String,
        default: Option<&HostValue>,
        kwargs: Option<&NameMap<InternalType>>,
    ) -> (r: Result<FieldProxy<E>, PacketError>)
        ensures
            view_descriptor(r) == descriptor_spec(
                Self::kind(),
                name@,
                view_opt_host(default),
                None,
            ),
            r matches Ok(f) ==> f.fieldtype is SignedIntField,
    {
        let mut x = SignedIntField { sz: 4 };
        let _ = x.init(kwargs);
        let default = match default {
            Some(d) => Some(InternalType::from_host(IntKind::SignedInt, d)?),
            None => None,
        };
        Ok(FieldProxy { name, default, sz: x.sz, fieldtype: FieldType::SignedIntField(x) })
    }

    /// The name of this field type.
    pub fn name(&self) -> (r: &'static str)
        ensures
            r@ == "SignedIntField"@,
    {
        "SignedIntField"
    }
}

impl FieldTrait for SignedIntField {
    fn init(&mut self, _kwargs: Option<&NameMap<InternalType>>) -> (r: Result<(), PacketError>)
        ensures
            r is Ok,
            final(self).size() == 4,
    {
        self.sz = 4;
        Ok(())
    }

    fn any2i(&self, _pkt: Option<&Packet>, x: Option<&HostValue>) -> (r: Result<
        InternalType,
        PacketError,
    >)
        ensures
            view_value(r) == any2i_spec(Self::kind(), view_opt_host(x)),
    {
        match x {
            Some(h) => InternalType::from_host(IntKind::SignedInt, h),
            None => Ok(InternalType::SignedInt(0)),
        }
    }

    fn m2i(&self, _pkt: &Packet, x: MachineType) -> (r: Result<InternalType, PacketError>)
        ensures
            view_value(r) == Ok::<SemanticValue, PacketError>(x@.to_semantic()),
    {
        Ok(x.as_internal())
    }

    fn i2m(&self, _pkt: &Packet, x: Option<&InternalType>) -> (r: Result<MachineType, PacketError>)
        ensures
            view_machine(r) == Ok::<MachineValue, PacketError>(
                i2m_spec(Self::kind(), view_opt_ref(x)),
            ),
    {
        match x {
            Some(val) => Ok(val.as_machine()),
            None => Ok(InternalType::SignedInt(0).as_machine()),
        }
    }

    fn addfield(&self, pkt: &Packet, s: Vec<u8>, val: Option<&InternalType>) -> (r: Result<
        Vec<u8>,
        PacketError,
    >)
        ensures
            view_bytes(r) == addfield_spec(Self::kind(), s@, view_opt_ref(val)),
    {
        let mut s = s;
        let mval = self.i2m(pkt, val)?;
        match mval {
            MachineType::SignedInt(x) => {
                let bytes = <i32 as Int>::to_be_bytes(x);
                extend_bytes(&mut s, bytes.as_slice());
                Ok(s)
            },
            _ => Err(PacketError::TypeConversion),
        }
    }

    fn getfield<'a>(&self, pkt: &Packet, x: Cow<'a, [u8]>) -> (r: Result<
        (Cow<'a, [u8]>, InternalType),
        PacketError,
    >)
        ensures
            view_taken(r) == getfield_spec(Self::kind(), x@),
    {
        proof {
            use_type_invariant(self);
        }
        let given = cow_bytes(&x);
        if given.len() < self.sz {
            return Err(PacketError::TruncatedInput);
        }
        let head = slice_subrange(given, 0, self.sz);
        let bytes: [u8; 4] = [head[0], head[1], head[2], head[3]];
        assert(bytes@ =~= x@.take(4));
        let val = self.m2i(pkt, MachineType::SignedInt(<i32 as Int>::from_be_bytes(bytes)))?;
        Ok((cow_skip(x, self.sz), val))
    }
}

/// An eight-byte signed integer, most significant byte first.
#[derive(Debug)]
pub struct SignedLongField {
    sz: usize,
}

impl Clone for SignedLongField {
    fn clone(&self) -> (r: Self)
        ensures
            r == *self,
    {
        proof {
            use_type_invariant(self);
        }
        SignedLongField { sz: self.sz }
    }
}

impl SignedLongField {
    #[verifier::type_invariant]
    spec fn sized(self) -> bool {
        self.sz == 8
    }

    /// What this field type reads and writes.
    pub open spec fn kind() -> FieldKind {
        FieldKind::Scalar { kind: IntKind::SignedLong, little: false }
    }

    /// The size in bytes that the field is set up to take on the wire.
    pub closed spec fn size(&self) -> nat {
        self.sz as nat
    }

    /// A field of this type under the name `name`, with the declared
    /// default `default` where one is given. Fails where the default is not
    /// an integer in range.
    pub fn new<E>(
        name: String,
        default: Option<&HostValue>,
        kwargs: Option<&NameMap<InternalType>>,
    ) -> (r: Result<FieldProxy<E>, PacketError>)
        ensures
            view_descriptor(r) == descriptor_spec(
                Self::kind(),
                name@,
                view_opt_host(default),
                None,
            ),
            r matches Ok(f) ==> f.fieldtype is SignedLongField,
    {
        let mut x = SignedLongField { sz: 8 };
        let _ = x.init(kwargs);
        let default = match default {
            Some(d) => Some(InternalType::from_host(IntKind::SignedLong, d)?),
            None => None,
        };
        Ok(FieldProxy { name, default, sz: x.sz, fieldtype: FieldType::SignedLongField(x) })
    }

    /// The name of this field type.
    pub fn name(&self) -> (r: &'static str)
        ensures
            r@ == "SignedLongField"@,
    {
        "SignedLongField"
    }
}

impl FieldTrait for SignedLongField {
    fn init(&mut self, _kwargs: Option<&NameMap<InternalType>>) -> (r: Result<(), PacketError>)
        ensures
            r is Ok,
            final(self).size() == 8,
    {
        self.sz = 8;
        Ok(())
    }

    fn any2i(&self, _pkt: Option<&Packet>, x: Option<&HostValue>) -> (r: Result<
        InternalType,
        PacketError,
    >)
        ensures
            view_value(r) == any2i_spec(Self::kind(), view_opt_host(x)),
    {
        match x {
            Some(h) => InternalType::from_host(IntKind::SignedLong, h),
            None => Ok(InternalType::SignedLong(0)),
        }
    }

    fn m2i(&self, _pkt: &Packet, x: MachineType) -> (r: Result<InternalType, PacketError>)
        ensures
            view_value(r) == Ok::<SemanticValue, PacketError>(x@.to_semantic()),
    {
        Ok(x.as_internal())
    }

    fn i2m(&self, _pkt: &Packet, x: Option<&InternalType>) -> (r: Result<MachineType, PacketError>)
        ensures
            view_machine(r) == Ok::<MachineValue, PacketError>(
                i2m_spec(Self::kind(), view_opt_ref(x)),
            ),
    {
        match x {
            Some(val) => Ok(val.as_machine()),
            None => Ok(InternalType::SignedLong(0).as_machine()),
        }
    }

    fn addfield(&self, pkt: &Packet, s: Vec<u8>, val: Option<&InternalType>) -> (r: Result<
        Vec<u8>,
        PacketError,
    >)
        ensures
            view_bytes(r) == addfield_spec(Self::kind(), s@, view_opt_ref(val)),
    {
        let mut s = s;
        let mval = self.i2m(pkt, val)?;
        match mval {
            MachineType::SignedLong(x) => {
                let bytes = <i64 as Int>::to_be_bytes(x);
                extend_bytes(&mut s, bytes.as_slice());
                Ok(s)
            },
            _ => Err(PacketError::TypeConversion),
        }
    }

    fn getfield<'a>(&self, pkt: &Packet, x: Cow<'a, [u8]>) -> (r: Result<
        (Cow<'a, [u8]>, InternalType),
        PacketError,
    >)
        ensures
            view_taken(r) == getfield_spec(Self::kind(), x@),
    {
        proof {
            use_type_invariant(self);
        }
        let given = cow_bytes(&x);
        if given.len() < self.sz {
            return Err(PacketError::TruncatedInput);
        }
        let head = slice_subrange(given, 0, self.sz);
        let bytes: [u8; 8] = [head[0], head[1], head[2], head[3], head[4], head[5], head[6], head[7]];
        assert(bytes@ =~= x@.take(8));
        let val = self.m2i(pkt, MachineType::SignedLong(<i64 as Int>::from_be_bytes(bytes)))?;
        Ok((cow_skip(x, self.sz), val))
    }
}

/// A two-byte signed integer, least significant byte first.
#[derive(Debug)]
pub struct LESignedShortField {
    sz: usize,
}

impl Clone for LESignedShortField {
    fn clone(&self) -> (r: Self)
        ensures
            r == *self,
    {
        proof {
            use_type_invariant(self);
        }
        LESignedShortField { sz: self.sz }
    }
}

impl LESignedShortField {
    #[verifier::type_invariant]
    spec fn sized(self) -> bool {
        self.sz == 2
    }

    /// What this field type reads and writes.
    pub open spec fn kind() -> FieldKind {
        FieldKind::Scalar { kind: IntKind::SignedShort, little: true }
    }

    /// The size in bytes that the field is set up to take on the wire.
    pub closed spec fn size(&self) -> nat {
        self.sz as nat
    }

    /// A field of this type under the name `name`, with the declared
    /// default `default` where one is given. Fails where the default is not
    /// an integer in range.
    pub fn new<E>(
        name: String,
        default: Option<&HostValue>,
        kwargs: Option<&NameMap<InternalType>>,
    ) -> (r: Result<FieldProxy<E>, PacketError>)
        ensures
            view_descriptor(r) == descriptor_spec(
                Self::kind(),
                name@,
                view_opt_host(default),
                None,
            ),
            r matches Ok(f) ==> f.fieldtype is LESignedShortField,
    {
        let mut x = LESignedShortField { sz: 2 };
        let _ = x.init(kwargs);
        let default = match default {
            Some(d) => Some(InternalType::from_host(IntKind::SignedShort, d)?),
            None => None,
        };
        Ok(FieldProxy { name, default, sz: x.sz, fieldtype: FieldType::LESignedShortField(x) })
    }

    /// The name of this field type.
    pub fn name(&self) -> (r: &'static str)
        ensures
            r@ == "LESignedShortField"@,
    {
        "LESignedShortField"
    }
}

impl FieldTrait for LESignedShortField {
    fn init(&mut self, _kwargs: Option<&NameMap<InternalType>>) -> (r: Result<(), PacketError>)
        ensures
            r is Ok,
            final(self).size() == 2,
    {
        self.sz = 2;
        Ok(())
    }

    fn any2i(&self, _pkt: Option<&Packet>, x: Option<&HostValue>) -> (r: Result<
        InternalType,
        PacketError,
    >)
        ensures
            view_value(r) == any2i_spec(Self::kind(), view_opt_host(x)),
    {
        match x {
            Some(h) => InternalType::from_host(IntKind::SignedShort, h),
            None => Ok(InternalType::SignedShort(0)),
        }
    }

    fn m2i(&self, _pkt: &Packet, x: MachineType) -> (r: Result<InternalType, PacketError>)
        ensures
            view_value(r) == Ok::<SemanticValue, PacketError>(x@.to_semantic()),
    {
        Ok(x.as_internal())
    }

    fn i2m(&self, _pkt: &Packet, x: Option<&InternalType>) -> (r: Result<MachineType, PacketError>)
        ensures
            view_machine(r) == Ok::<MachineValue, PacketError>(
                i2m_spec(Self::kind(), view_opt_ref(x)),
            ),
    {
        match x {
            Some(val) => Ok(val.as_machine()),
            None => Ok(InternalType::SignedShort(0).as_machine()),
        }
    }

    fn addfield(&self, pkt: &Packet, s: Vec<u8>, val: Option<&InternalType>) -> (r: Result<
        Vec<u8>,
        PacketError,
    >)
        ensures
            view_bytes(r) == addfield_spec(Self::kind(), s@, view_opt_ref(val)),
    {
        let mut s = s;
        let mval = self.i2m(pkt, val)?;
        match mval {
            MachineType::SignedShort(x) => {
                let bytes = <i16 as Int>::to_le_bytes(x);
                extend_bytes(&mut s, bytes.as_slice());
                Ok(s)
            },
            _ => Err(PacketError::TypeConversion),
        }
    }

    fn getfield<'a>(&self, pkt: &Packet, x: Cow<'a, [u8]>) -> (r: Result<
        (Cow<'a, [u8]>, InternalType),
        PacketError,
    >)
        ensures
            view_taken(r) == getfield_spec(Self::kind(), x@),
    {
        proof {
            use_type_invariant(self);
        }
        let given = cow_bytes(&x);
        if given.len() < self.sz {
            return Err(PacketError::TruncatedInput);
        }
        let head = slice_subrange(given, 0, self.sz);
        let bytes: [u8; 2] = [head[0], head[1]];
        assert(bytes@ =~= x@.take(2));
        let val = self.m2i(pkt, MachineType::SignedShort(<i16 as Int>::from_le_bytes(bytes)))?;
        Ok((cow_skip(x, self.sz), val))
    }
}

/// A four-byte signed integer, least significant byte first.
#[derive(Debug)]
pub struct LESignedIntField {
    sz: usize,
}

impl Clone for LESignedIntField {
    fn clone(&self) -> (r: Self)
        ensures
            r == *self,
    {
        proof {
            use_type_invariant(self);
        }
        LESignedIntField { sz: self.sz }
    }
}

impl LESignedIntField {
    #[verifier::type_invariant]
    spec fn sized(self) -> bool {
        self.sz == 4
    }

    /// What this field type reads and writes.
    pub open spec fn kind() -> FieldKind {
        FieldKind::Scalar { kind: IntKind::SignedInt, little: true }
    }

    /// The size in bytes that the field is set up to take on the wire.
    pub closed spec fn size(&self) -> nat {
        self.sz as nat
    }

    /// A field of this type under the name `name`, with the declared
    /// default `default` where one is given. Fails where the default is not
    /// an integer in range.
    pub fn new<E>(
        name: String,
        default: Option<&HostValue>,
        kwargs: Option<&NameMap<InternalType>>,
    ) -> (r: Result<FieldProxy<E>, PacketError>)
        ensures
            view_descriptor(r) == descriptor_spec(
                Self::kind(),
                name@,
                view_opt_host(default),
                None,
            ),
            r matches Ok(f) ==> f.fieldtype is LESignedIntField,
    {
        let mut x = LESignedIntField { sz: 4 };
        let _ = x.init(kwargs);
        let default = match default {
            Some(d) => Some(InternalType::from_host(IntKind::SignedInt, d)?),
            None => None,
        };
        Ok(FieldProxy { name, default, sz: x.sz, fieldtype: FieldType::LESignedIntField(x) })
    }

    /// The name of this field type.
    pub fn name(&self) -> (r: &'static str)
        ensures
            r@ == "LESignedIntField"@,
    {
        "LESignedIntField"
    }
}

impl FieldTrait for LESignedIntField {
    fn init(&mut self, _kwargs: Option<&NameMap<InternalType>>) -> (r: Result<(), PacketError>)
        ensures
            r is Ok,
            final(self).size() == 4,
    {
        self.sz = 4;
        Ok(())
    }

    fn any2i(&self, _pkt: Option<&Packet>, x: Option<&HostValue>) -> (r: Result<
        InternalType,
        PacketError,
    >)
        ensures
            view_value(r) == any2i_spec(Self::kind(), view_opt_host(x)),
    {
        match x {
            Some(h) => InternalType::from_host(IntKind::SignedInt, h),
            None => Ok(InternalType::SignedInt(0)),
        }
    }

    fn m2i(&self, _pkt: &Packet, x: MachineType) -> (r: Result<InternalType, PacketError>)
        ensures
            view_value(r) == Ok::<SemanticValue, PacketError>(x@.to_semantic()),
    {
        Ok(x.as_internal())
    }

    fn i2m(&self, _pkt: &Packet, x: Option<&InternalType>) -> (r: Result<MachineType, PacketError>)
        ensures
            view_machine(r) == Ok::<MachineValue, PacketError>(
                i2m_spec(Self::kind(), view_opt_ref(x)),
            ),
    {
        match x {
            Some(val) => Ok(val.as_machine()),
            None => Ok(InternalType::SignedInt(0).as_machine()),
        }
    }

    fn addfield(&self, pkt: &Packet, s: Vec<u8>, val: Option<&InternalType>) -> (r: Result<
        Vec<u8>,
        PacketError,
    >)
        ensures
            view_bytes(r) == addfield_spec(Self::kind(), s@, view_opt_ref(val)),
    {
        let mut s = s;
        let mval = self.i2m(pkt, val)?;
        match mval {
            MachineType::SignedInt(x) => {
                let bytes = <i32 as Int>::to_le_bytes(x);
                extend_bytes(&mut s, bytes.as_slice());
                Ok(s)
            },
            _ => Err(PacketError::TypeConversion),
        }
    }

    fn getfield<'a>(&self, pkt: &Packet, x: Cow<'a, [u8]>) -> (r: Result<
        (Cow<'a, [u8]>, InternalType),
        PacketError,
    >)
        ensures
            view_taken(r) == getfield_spec(Self::kind(), x@),
    {
        proof {
            use_type_invariant(self);
        }
        let given = cow_bytes(&x);
        if given.len() < self.sz {
            return Err(PacketError::TruncatedInput);
        }
        let head = slice_subrange(given, 0, self.sz);
        let bytes: [u8; 4] = [head[0], head[1], head[2], head[3]];
        assert(bytes@ =~= x@.take(4));
        let val = self.m2i(pkt, MachineType::SignedInt(<i32 as Int>::from_le_bytes(bytes)))?;
        Ok((cow_skip(x, self.sz), val))
    }
}

/// An eight-byte signed integer, least significant byte first.
#[derive(Debug)]
pub struct LESignedLongField {
    sz: usize,
}

impl Clone for LESignedLongField {
    fn clone(&self) -> (r: Self)
        ensures
            r == *self,
    {
        proof {
            use_type_invariant(self);
        }
        LESignedLongField { sz: self.sz }
    }
}

impl LESignedLongField {
    #[verifier::type_invariant]
    spec fn sized(self) -> bool {
        self.sz == 8
    }

    /// What this field type reads and writes.
    pub open spec fn kind() -> FieldKind {
        FieldKind::Scalar { kind: IntKind::SignedLong, little: true }
    }

    /// The size in bytes that the field is set up to take on the wire.
    pub closed spec fn size(&self) -> nat {
        self.sz as nat
    }

    /// A field of this type under the name `name`, with the declared
    /// default `default` where one is given. Fails where the default is not
    /// an integer in range.
    pub fn new<E>(
        name: String,
        default: Option<&HostValue>,
        kwargs: Option<&NameMap<InternalType>>,
    ) -> (r: Result<FieldProxy<E>, PacketError>)
        ensures
            view_descriptor(r) == descriptor_spec(
                Self::kind(),
                name@,
                view_opt_host(default),
                None,
            ),
            r matches Ok(f) ==> f.fieldtype is LESignedLongField,
    {
        let mut x = LESignedLongField { sz: 8 };
        let _ = x.init(kwargs);
        let default = match default {
            Some(d) => Some(InternalType::from_host(IntKind::SignedLong, d)?),
            None => None,
        };
        Ok(FieldProxy { name, default, sz: x.sz, fieldtype: FieldType::LESignedLongField(x) })
    }

    /// The name of this field type.
    pub fn name(&self) -> (r: &'static str)
        ensures
            r@ == "LESignedLongField"@,
    {
        "LESignedLongField"
    }
}

impl FieldTrait for LESignedLongField {
    fn init(&mut self, _kwargs: Option<&NameMap<InternalType>>) -> (r: Result<(), PacketError>)
        ensures
            r is Ok,
            final(self).size() == 8,
    {
        self.sz = 8;
        Ok(())
    }

    fn any2i(&self, _pkt: Option<&Packet>, x: Option<&HostValue>) -> (r: Result<
        InternalType,
        PacketError,
    >)
        ensures
            view_value(r) == any2i_spec(Self::kind(), view_opt_host(x)),
    {
        match x {
            Some(h) => InternalType::from_host(IntKind::SignedLong, h),
            None => Ok(InternalType::SignedLong(0)),
        }
    }

    fn m2i(&self, _pkt: &Packet, x: MachineType) -> (r: Result<InternalType, PacketError>)
        ensures
            view_value(r) == Ok::<SemanticValue, PacketError>(x@.to_semantic()),
    {
        Ok(x.as_internal())
    }

    fn i2m(&self, _pkt: &Packet, x: Option<&InternalType>) -> (r: Result<MachineType, PacketError>)
        ensures
            view_machine(r) == Ok::<MachineValue, PacketError>(
                i2m_spec(Self::kind(), view_opt_ref(x)),
            ),
    {
        match x {
            Some(val) => Ok(val.as_machine()),
            None => Ok(InternalType::SignedLong(0).as_machine()),
        }
    }

    fn addfield(&self, pkt: &Packet, s: Vec<u8>, val: Option<&InternalType>) -> (r: Result<
        Vec<u8>,
        PacketError,
    >)
        ensures
            view_bytes(r) == addfield_spec(Self::kind(), s@, view_opt_ref(val)),
    {
        let mut s = s;
        let mval = self.i2m(pkt, val)?;
        match mval {
            MachineType::SignedLong(x) => {
                let bytes = <i64 as Int>::to_le_bytes(x);
                extend_bytes(&mut s, bytes.as_slice());
                Ok(s)
            },
            _ => Err(PacketError::TypeConversion),
        }
    }

    fn getfield<'a>(&self, pkt: &Packet, x: Cow<'a, [u8]>) -> (r: Result<
        (Cow<'a, [u8]>, InternalType),
        PacketError,
    >)
        ensures
            view_taken(r) == getfield_spec(Self::kind(), x@),
    {
        proof {
            use_type_invariant(self);
        }
        let given = cow_bytes(&x);
        if given.len() < self.sz {
            return Err(PacketError::TruncatedInput);
        }
        let head = slice_subrange(given, 0, self.sz);
        let bytes: [u8; 8] = [head[0], head[1], head[2], head[3], head[4], head[5], head[6], head[7]];
        assert(bytes@ =~= x@.take(8));
        let val = self.m2i(pkt, MachineType::SignedLong(<i64 as Int>::from_le_bytes(bytes)))?;
        Ok((cow_skip(x, self.sz), val))
    }
}

/// The option of a string field, read from the options it was declared
/// with: how many trailing bytes the caller sets aside. An error where the
/// option is there and is no count.
pub open spec fn remain_spec(kwargs: Option<Map<Seq<char>, InternalType>>, before: Option<usize>)
    -> Result<Option<usize>, PacketError> {
    match kwargs {
        Some(m) => if m.contains_key("remain"@) {
            match m["remain"@]@ {
                SemanticValue::Scalar(_, v) => if 0 <= v <= usize::MAX {
                    Ok(Some(v as usize))
                } else {
                    Err(PacketError::TypeConversion)
                },
                _ => Err(PacketError::TypeConversion),
            }
        } else {
            Ok(before)
        },
        None => Ok(before),
    }
}

pub open spec fn view_kwargs(kwargs: Option<&NameMap<InternalType>>) -> Option<
    Map<Seq<char>, InternalType>,
> {
    match kwargs {
        Some(m) => Some(m@),
        None => None,
    }
}

/// A byte string that takes all the bytes that remain.
#[derive(Debug)]
pub struct StrField {
    sz: usize,
    remain: Option<usize>,
}

impl Clone for StrField {
    fn clone(&self) -> (r: Self)
        ensures
            r == *self,
    {
        proof {
            use_type_invariant(self);
        }
        StrField { sz: self.sz, remain: self.remain }
    }
}

impl StrField {
    #[verifier::type_invariant]
    spec fn sized(self) -> bool {
        self.sz == 0
    }

    /// What this field type reads and writes.
    pub open spec fn kind() -> FieldKind {
        FieldKind::Str
    }

    /// The count that the field was declared with under the option
    /// `remain`. It is kept for the caller; reading and writing the field
    /// do not look at it.
    pub closed spec fn remain_view(&self) -> Option<usize> {
        self.remain
    }

    pub fn remain(&self) -> (r: Option<usize>)
        ensures
            r == self.remain_view(),
    {
        self.remain
    }

    /// A field of this type under the name `name`, with the declared
    /// default `default` where one is given. Fails where the option
    /// `remain` is no count, or the default is no byte string.
    pub fn new<E>(
        name: String,
        default: Option<&HostValue>,
        kwargs: Option<&NameMap<InternalType>>,
    ) -> (r: Result<FieldProxy<E>, PacketError>)
        ensures
            view_descriptor(r) == (match remain_spec(view_kwargs(kwargs), None) {
                Ok(n) => descriptor_spec(Self::kind(), name@, view_opt_host(default), n),
                Err(e) => Err(e),
            }),
            r matches Ok(f) ==> f.fieldtype is StrField,
    {
        let mut x = StrField { sz: 0, remain: None };
        x.init(kwargs)?;
        let default = match default {
            Some(d) => Some(x.any2i(None, Some(d))?),
            None => None,
        };
        proof {
            use_type_invariant(&x);
        }
        Ok(FieldProxy { name, default, sz: x.sz, fieldtype: FieldType::StrField(x) })
    }

    /// The name of this field type.
    pub fn name(&self) -> (r: &'static str)
        ensures
            r@ == "StrField"@,
    {
        "StrField"
    }
}

impl FieldTrait for StrField {
    fn init(&mut self, kwargs: Option<&NameMap<InternalType>>) -> (r: Result<(), PacketError>)
        ensures
            match remain_spec(view_kwargs(kwargs), old(self).remain_view()) {
                Ok(n) => r is Ok && final(self).remain_view() == n,
                Err(e) => r == Err::<(), PacketError>(e) && final(self).remain_view() == old(
                    self,
                ).remain_view(),
            },
    {
        self.sz = 0;
        if let Some(options) = kwargs {
            let key = String::from_str("remain");
            if let Some(remain) = options.get(&key) {
                self.remain = Some(remain.try_into_usize()?);
            }
        }
        Ok(())
    }

    fn any2i(&self, _pkt: Option<&Packet>, x: Option<&HostValue>) -> (r: Result<
        InternalType,
        PacketError,
    >)
        ensures
            view_value(r) == any2i_spec(Self::kind(), view_opt_host(x)),
    {
        match x {
            Some(HostValue::Bytes(b)) => Ok(InternalType::Bytes(slice_to_vec(b.as_slice()))),
            Some(_) => Err(PacketError::TypeConversion),
            None => Ok(InternalType::Bytes(Vec::new())),
        }
    }

    fn m2i(&self, _pkt: &Packet, x: MachineType) -> (r: Result<InternalType, PacketError>)
        ensures
            view_value(r) == Ok::<SemanticValue, PacketError>(x@.to_semantic()),
    {
        Ok(x.as_internal())
    }

    fn i2m(&self, _pkt: &Packet, x: Option<&InternalType>) -> (r: Result<MachineType, PacketError>)
        ensures
            view_machine(r) == Ok::<MachineValue, PacketError>(
                i2m_spec(Self::kind(), view_opt_ref(x)),
            ),
    {
        match x {
            Some(val) => Ok(val.as_machine()),
            None => Ok(MachineType::Bytes(Vec::new())),
        }
    }

    fn addfield(&self, pkt: &Packet, s: Vec<u8>, val: Option<&InternalType>) -> (r: Result<
        Vec<u8>,
        PacketError,
    >)
        ensures
            view_bytes(r) == addfield_spec(Self::kind(), s@, view_opt_ref(val)),
    {
        let mut s = s;
        let mval = self.i2m(pkt, val)?;
        match mval {
            MachineType::Bytes(x) => {
                extend_bytes(&mut s, x.as_slice());
                Ok(s)
            },
            _ => Err(PacketError::TypeConversion),
        }
    }

    fn getfield<'a>(&self, pkt: &Packet, x: Cow<'a, [u8]>) -> (r: Result<
        (Cow<'a, [u8]>, InternalType),
        PacketError,
    >)
        ensures
            view_taken(r) == getfield_spec(Self::kind(), x@),
    {
        let val = self.m2i(pkt, MachineType::Bytes(slice_to_vec(cow_bytes(&x))))?;
        let rest: Cow<'a, [u8]> = Cow::Owned(Vec::new());
        assert(rest@ =~= Seq::<u8>::empty());
        Ok((rest, val))
    }
}

/// The field type to name where no field types are defined outside. It is
/// no field: each of its operations fails.
#[derive(Clone, Copy, Debug)]
pub struct NoExtension;

impl FieldTrait for NoExtension {
    fn init(&mut self, _kwargs: Option<&NameMap<InternalType>>) -> (r: Result<(), PacketError>)
        ensures
            r == Err::<(), PacketError>(PacketError::ExtensionField),
    {
        Err(PacketError::ExtensionField)
    }

    fn any2i(&self, _pkt: Option<&Packet>, _x: Option<&HostValue>) -> (r: Result<
        InternalType,
        PacketError,
    >)
        ensures
            r matches Err(e) && e == PacketError::ExtensionField,
    {
        Err(PacketError::ExtensionField)
    }

    fn m2i(&self, _pkt: &Packet, _x: MachineType) -> (r: Result<InternalType, PacketError>)
        ensures
            r matches Err(e) && e == PacketError::ExtensionField,
    {
        Err(PacketError::ExtensionField)
    }

    fn i2m(&self, _pkt: &Packet, _x: Option<&InternalType>) -> (r: Result<MachineType, PacketError>)
        ensures
            r matches Err(e) && e == PacketError::ExtensionField,
    {
        Err(PacketError::ExtensionField)
    }

    fn addfield(&self, _pkt: &Packet, _s: Vec<u8>, _val: Option<&InternalType>) -> (r: Result<
        Vec<u8>,
        PacketError,
    >)
        ensures
            r matches Err(e) && e == PacketError::ExtensionField,
    {
        Err(PacketError::ExtensionField)
    }

    fn getfield<'a>(&self, _pkt: &Packet, _x: Cow<'a, [u8]>) -> (r: Result<
        (Cow<'a, [u8]>, InternalType),
        PacketError,
    >)
        ensures
            r matches Err(e) && e == PacketError::ExtensionField,
    {
        Err(PacketError::ExtensionField)
    }
}

/// Every field type there is: the built-in ones, and one that stands for a
/// field type defined outside, which answers the same five operations.
#[derive(Debug)]
pub enum FieldType<E> {
    ByteField(ByteField),
    ShortField(ShortField),
    IntField(IntField),
    LongField(LongField),
    LEShortField(LEShortField),
    LEIntField(LEIntField),
    LELongField(LELongField),
    SignedByteField(SignedByteField),
    SignedShortField(SignedShortField),
    SignedIntField(SignedIntField),
    SignedLongField(SignedLongField),
    LESignedShortField(LESignedShortField),
    LESignedIntField(LESignedIntField),
    LESignedLongField(LESignedLongField),
    StrField(StrField),
    PythonField(E),
}

impl<E: Clone> Clone for FieldType<E> {
    fn clone(&self) -> (r: Self)
        ensures
            r.kind() == self.kind(),
            r.remain() == self.remain(),
            self.builtin() ==> r == *self,
    {
        match self {
            FieldType::ByteField(f) => FieldType::ByteField(f.clone()),
            FieldType::ShortField(f) => FieldType::ShortField(f.clone()),
            FieldType::IntField(f) => FieldType::IntField(f.clone()),
            FieldType::LongField(f) => FieldType::LongField(f.clone()),
            FieldType::LEShortField(f) => FieldType::LEShortField(f.clone()),
            FieldType::LEIntField(f) => FieldType::LEIntField(f.clone()),
            FieldType::LELongField(f) => FieldType::LELongField(f.clone()),
            FieldType::SignedByteField(f) => FieldType::SignedByteField(f.clone()),
            FieldType::SignedShortField(f) => FieldType::SignedShortField(f.clone()),
            FieldType::SignedIntField(f) => FieldType::SignedIntField(f.clone()),
            FieldType::SignedLongField(f) => FieldType::SignedLongField(f.clone()),
            FieldType::LESignedShortField(f) => FieldType::LESignedShortField(f.clone()),
            FieldType::LESignedIntField(f) => FieldType::LESignedIntField(f.clone()),
            FieldType::LESignedLongField(f) => FieldType::LESignedLongField(f.clone()),
            FieldType::StrField(f) => FieldType::StrField(f.clone()),
            FieldType::PythonField(f) => FieldType::PythonField(f.clone()),
        }
    }
}

impl<E> FieldType<E> {
    /// What this field type reads and writes.
    pub open spec fn kind(&self) -> FieldKind {
        match self {
            FieldType::ByteField(_) => ByteField::kind(),
            FieldType::ShortField(_) => ShortField::kind(),
            FieldType::IntField(_) => IntField::kind(),
            FieldType::LongField(_) => LongField::kind(),
            FieldType::LEShortField(_) => LEShortField::kind(),
            FieldType::LEIntField(_) => LEIntField::kind(),
            FieldType::LELongField(_) => LELongField::kind(),
            FieldType::SignedByteField(_) => SignedByteField::kind(),
            FieldType::SignedShortField(_) => SignedShortField::kind(),
            FieldType::SignedIntField(_) => SignedIntField::kind(),
            FieldType::SignedLongField(_) => SignedLongField::kind(),
            FieldType::LESignedShortField(_) => LESignedShortField::kind(),
            FieldType::LESignedIntField(_) => LESignedIntField::kind(),
            FieldType::LESignedLongField(_) => LESignedLongField::kind(),
            FieldType::StrField(_) => StrField::kind(),
            FieldType::PythonField(_) => FieldKind::Extension,
        }
    }

    /// The count that a string field was declared with under the option
    /// `remain`; none for every other field type.
    pub open spec fn remain(&self) -> Option<usize> {
        match self {
            FieldType::StrField(f) => f.remain_view(),
            _ => None,
        }
    }

    /// Whether this is one of the built-in field types.
    pub open spec fn builtin(&self) -> bool {
        self.kind() != FieldKind::Extension
    }

    /// This field type, as the thing that answers the five operations.
    pub fn as_trait(&self) -> (r: &Self)
        ensures
            r == self,
    {
        self
    }
}

/// What the library makes of the answer of a field type defined outside:
/// a value is taken as it is, and a failure, whatever it is, becomes an
/// `ExtensionField` error.
pub fn outside_answer<T>(r: Result<T, PacketError>) -> (out: Result<T, PacketError>)
    ensures
        out == (match r {
            Ok(v) => Ok::<T, PacketError>(v),
            Err(_) => Err(PacketError::ExtensionField),
        }),
{
    match r {
        Ok(v) => Ok(v),
        Err(_) => Err(PacketError::ExtensionField),
    }
}

impl<E: FieldTrait> FieldTrait for FieldType<E> {
    fn init(&mut self, kwargs: Option<&NameMap<InternalType>>) -> (r: Result<(), PacketError>)
        ensures
            final(self).kind() == old(self).kind(),
            old(self).kind() is Scalar ==> r is Ok && final(self).remain() is None,
            old(self).kind() is Str ==> match remain_spec(view_kwargs(kwargs), old(self).remain()) {
                Ok(n) => r is Ok && final(self).remain() == n,
                Err(e) => r == Err::<(), PacketError>(e) && final(self).remain() == old(
                    self,
                ).remain(),
            },
            !old(self).builtin() ==> (r matches Err(e) ==> e == PacketError::ExtensionField),
    {
        match self {
            FieldType::ByteField(f) => f.init(kwargs),
            FieldType::ShortField(f) => f.init(kwargs),
            FieldType::IntField(f) => f.init(kwargs),
            FieldType::LongField(f) => f.init(kwargs),
            FieldType::LEShortField(f) => f.init(kwargs),
            FieldType::LEIntField(f) => f.init(kwargs),
            FieldType::LELongField(f) => f.init(kwargs),
            FieldType::SignedByteField(f) => f.init(kwargs),
            FieldType::SignedShortField(f) => f.init(kwargs),
            FieldType::SignedIntField(f) => f.init(kwargs),
            FieldType::SignedLongField(f) => f.init(kwargs),
            FieldType::LESignedShortField(f) => f.init(kwargs),
            FieldType::LESignedIntField(f) => f.init(kwargs),
            FieldType::LESignedLongField(f) => f.init(kwargs),
            FieldType::StrField(f) => f.init(kwargs),
            FieldType::PythonField(f) => outside_answer(f.init(kwargs)),
        }
    }

    fn any2i(&self, pkt: Option<&Packet>, x: Option<&HostValue>) -> (r: Result<
        InternalType,
        PacketError,
    >)
        ensures
            self.builtin() ==> view_value(r) == any2i_spec(self.kind(), view_opt_host(x)),
            !self.builtin() ==> (r matches Err(e) ==> e == PacketError::ExtensionField),
    {
        match self {
            FieldType::ByteField(f) => f.any2i(pkt, x),
            FieldType::ShortField(f) => f.any2i(pkt, x),
            FieldType::IntField(f) => f.any2i(pkt, x),
            FieldType::LongField(f) => f.any2i(pkt, x),
            FieldType::LEShortField(f) => f.any2i(pkt, x),
            FieldType::LEIntField(f) => f.any2i(pkt, x),
            FieldType::LELongField(f) => f.any2i(pkt, x),
            FieldType::SignedByteField(f) => f.any2i(pkt, x),
            FieldType::SignedShortField(f) => f.any2i(pkt, x),
            FieldType::SignedIntField(f) => f.any2i(pkt, x),
            FieldType::SignedLongField(f) => f.any2i(pkt, x),
            FieldType::LESignedShortField(f) => f.any2i(pkt, x),
            FieldType::LESignedIntField(f) => f.any2i(pkt, x),
            FieldType::LESignedLongField(f) => f.any2i(pkt, x),
            FieldType::StrField(f) => f.any2i(pkt, x),
            FieldType::PythonField(f) => outside_answer(f.any2i(pkt, x)),
        }
    }

    fn m2i(&self, pkt: &Packet, x: MachineType) -> (r: Result<InternalType, PacketError>)
        ensures
            self.builtin() ==> view_value(r) == Ok::<SemanticValue, PacketError>(
                x@.to_semantic(),
            ),
            !self.builtin() ==> (r matches Err(e) ==> e == PacketError::ExtensionField),
    {
        match self {
            FieldType::ByteField(f) => f.m2i(pkt, x),
            FieldType::ShortField(f) => f.m2i(pkt, x),
            FieldType::IntField(f) => f.m2i(pkt, x),
            FieldType::LongField(f) => f.m2i(pkt, x),
            FieldType::LEShortField(f) => f.m2i(pkt, x),
            FieldType::LEIntField(f) => f.m2i(pkt, x),
            FieldType::LELongField(f) => f.m2i(pkt, x),
            FieldType::SignedByteField(f) => f.m2i(pkt, x),
            FieldType::SignedShortField(f) => f.m2i(pkt, x),
            FieldType::SignedIntField(f) => f.m2i(pkt, x),
            FieldType::SignedLongField(f) => f.m2i(pkt, x),
            FieldType::LESignedShortField(f) => f.m2i(pkt, x),
            FieldType::LESignedIntField(f) => f.m2i(pkt, x),
            FieldType::LESignedLongField(f) => f.m2i(pkt, x),
            FieldType::StrField(f) => f.m2i(pkt, x),
            FieldType::PythonField(f) => outside_answer(f.m2i(pkt, x)),
        }
    }

    fn i2m(&self, pkt: &Packet, x: Option<&InternalType>) -> (r: Result<MachineType, PacketError>)
        ensures
            self.builtin() ==> view_machine(r) == Ok::<MachineValue, PacketError>(
                i2m_spec(self.kind(), view_opt_ref(x)),
            ),
            !self.builtin() ==> (r matches Err(e) ==> e == PacketError::ExtensionField),
    {
        match self {
            FieldType::ByteField(f) => f.i2m(pkt, x),
            FieldType::ShortField(f) => f.i2m(pkt, x),
            FieldType::IntField(f) => f.i2m(pkt, x),
            FieldType::LongField(f) => f.i2m(pkt, x),
            FieldType::LEShortField(f) => f.i2m(pkt, x),
            FieldType::LEIntField(f) => f.i2m(pkt, x),
            FieldType::LELongField(f) => f.i2m(pkt, x),
            FieldType::SignedByteField(f) => f.i2m(pkt, x),
            FieldType::SignedShortField(f) => f.i2m(pkt, x),
            FieldType::SignedIntField(f) => f.i2m(pkt, x),
            FieldType::SignedLongField(f) => f.i2m(pkt, x),
            FieldType::LESignedShortField(f) => f.i2m(pkt, x),
            FieldType::LESignedIntField(f) => f.i2m(pkt, x),
            FieldType::LESignedLongField(f) => f.i2m(pkt, x),
            FieldType::StrField(f) => f.i2m(pkt, x),
            FieldType::PythonField(f) => outside_answer(f.i2m(pkt, x)),
        }
    }

    fn addfield(&self, pkt: &Packet, s: Vec<u8>, val: Option<&InternalType>) -> (r: Result<
        Vec<u8>,
        PacketError,
    >)
        ensures
            self.builtin() ==> view_bytes(r) == addfield_spec(self.kind(), s@, view_opt_ref(val)),
            !self.builtin() ==> (r matches Err(e) ==> e == PacketError::ExtensionField),
    {
        match self {
            FieldType::ByteField(f) => f.addfield(pkt, s, val),
            FieldType::ShortField(f) => f.addfield(pkt, s, val),
            FieldType::IntField(f) => f.addfield(pkt, s, val),
            FieldType::LongField(f) => f.addfield(pkt, s, val),
            FieldType::LEShortField(f) => f.addfield(pkt, s, val),
            FieldType::LEIntField(f) => f.addfield(pkt, s, val),
            FieldType::LELongField(f) => f.addfield(pkt, s, val),
            FieldType::SignedByteField(f) => f.addfield(pkt, s, val),
            FieldType::SignedShortField(f) => f.addfield(pkt, s, val),
            FieldType::SignedIntField(f) => f.addfield(pkt, s, val),
            FieldType::SignedLongField(f) => f.addfield(pkt, s, val),
            FieldType::LESignedShortField(f) => f.addfield(pkt, s, val),
            FieldType::LESignedIntField(f) => f.addfield(pkt, s, val),
            FieldType::LESignedLongField(f) => f.addfield(pkt, s, val),
            FieldType::StrField(f) => f.addfield(pkt, s, val),
            FieldType::PythonField(f) => outside_answer(f.addfield(pkt, s, val)),
        }
    }

    fn getfield<'a>(&self, pkt: &Packet, x: Cow<'a, [u8]>) -> (r: Result<
        (Cow<'a, [u8]>, InternalType),
        PacketError,
    >)
        ensures
            self.builtin() ==> view_taken(r) == getfield_spec(self.kind(), x@),
            !self.builtin() ==> (r matches Err(e) ==> e == PacketError::ExtensionField),
    {
        match self {
            FieldType::ByteField(f) => f.getfield(pkt, x),
            FieldType::ShortField(f) => f.getfield(pkt, x),
            FieldType::IntField(f) => f.getfield(pkt, x),
            FieldType::LongField(f) => f.getfield(pkt, x),
            FieldType::LEShortField(f) => f.getfield(pkt, x),
            FieldType::LEIntField(f) => f.getfield(pkt, x),
            FieldType::LELongField(f) => f.getfield(pkt, x),
            FieldType::SignedByteField(f) => f.getfield(pkt, x),
            FieldType::SignedShortField(f) => f.getfield(pkt, x),
            FieldType::SignedIntField(f) => f.getfield(pkt, x),
            FieldType::SignedLongField(f) => f.getfield(pkt, x),
            FieldType::LESignedShortField(f) => f.getfield(pkt, x),
            FieldType::LESignedIntField(f) => f.getfield(pkt, x),
            FieldType::LESignedLongField(f) => f.getfield(pkt, x),
            FieldType::StrField(f) => f.getfield(pkt, x),
            FieldType::PythonField(f) => outside_answer(f.getfield(pkt, x)),
        }
    }
}

/// A field descriptor: a field type under a name, with its declared
/// default and its size on the wire.
#[derive(Debug)]
pub struct FieldProxy<E> {
    pub name: String,
    pub default: Option<InternalType>,
    pub sz: usize,
    pub fieldtype: FieldType<E>,
}

impl<E: Clone> Clone for FieldProxy<E> {
    fn clone(&self) -> (r: Self)
        ensures
            r@ == self@,
            r.name == self.name,
            r.sz == self.sz,
            self.fieldtype.builtin() ==> r.fieldtype == self.fieldtype,
    {
        FieldProxy {
            name: self.name.clone(),
            default: match &self.default {
                Some(v) => Some(v.clone()),
                None => None,
            },
            sz: self.sz,
            fieldtype: self.fieldtype.clone(),
        }
    }
}

impl<E> View for FieldProxy<E> {
    type V = FieldSpec;

    open spec fn view(&self) -> FieldSpec {
        FieldSpec {
            name: self.name@,
            default: view_opt(self.default),
            sz: self.sz as nat,
            kind: self.fieldtype.kind(),
            remain: self.fieldtype.remain(),
        }
    }
}

impl<E: FieldTrait> FieldProxy<E> {
    /// The value as the caller sees it, of a semantic value of this field.
    pub fn i2h(&self, _pkt: &Packet, x: Option<&InternalType>) -> (r: Option<HostValue>)
        ensures
            match r {
                Some(h) => x matches Some(v) && h@ == v@.to_host(),
                None => x is None,
            },
    {
        match x {
            Some(x) => Some(x.to_host()),
            None => None,
        }
    }

    /// The semantic value of this field, of a value that a caller hands in.
    pub fn h2i(&self, pkt: Option<&Packet>, x: Option<&HostValue>) -> (r: Result<
        InternalType,
        PacketError,
    >)
        ensures
            self.fieldtype.builtin() ==> view_value(r) == any2i_spec(
                self.fieldtype.kind(),
                view_opt_host(x),
            ),
            !self.fieldtype.builtin() ==> (r matches Err(e) ==> e == PacketError::ExtensionField),
    {
        self.fieldtype.as_trait().any2i(pkt, x)
    }
}

/// The layout of a packet class: its fields, in wire order.
pub type FieldList<E> = Vec<FieldProxy<E>>;

/// Round trip of the integer fields: what a field of integer kind appends
/// for a value of its kind, it reads back as that value, in either byte
/// order, and it leaves the bytes that come after untouched.
pub proof fn lemma_scalar_round_trip(
    kind: IntKind,
    little: bool,
    buffer: Seq<u8>,
    v: int,
    after: Seq<u8>,
)
    requires
        kind.contains(v),
    ensures
        addfield_spec(
            FieldKind::Scalar { kind, little },
            buffer,
            Some(SemanticValue::Scalar(kind, v)),
        ) == Ok::<Seq<u8>, PacketError>(buffer + encode_int(kind, little, v)),
        encode_int(kind, little, v).len() == kind.width(),
        getfield_spec(FieldKind::Scalar { kind, little }, encode_int(kind, little, v) + after)
            == Ok::<(Seq<u8>, SemanticValue), PacketError>((after, SemanticValue::Scalar(kind, v))),
{
    let bytes = encode_int(kind, little, v);
    crate::wire::lemma_decode_encode(kind, little, v);
    assert((bytes + after).take(kind.width() as int) =~= bytes);
    assert((bytes + after).skip(kind.width() as int) =~= after);
}

/// Round trip of the string field: the bytes it appends for a byte string,
/// it reads back as that byte string, and it leaves nothing.
pub proof fn lemma_str_round_trip(buffer: Seq<u8>, b: Seq<u8>)
    ensures
        addfield_spec(FieldKind::Str, buffer, Some(SemanticValue::Bytes(b))) == Ok::<
            Seq<u8>,
            PacketError,
        >(buffer + b),
        getfield_spec(FieldKind::Str, b) == Ok::<(Seq<u8>, SemanticValue), PacketError>(
            (Seq::empty(), SemanticValue::Bytes(b)),
        ),
{
}

/// Where no value is given, a field writes the zero of its kind: the
/// integer 0 in as many bytes as the kind is wide, or no bytes.
pub proof fn lemma_zero_value(kind: FieldKind)
    ensures
        kind matches FieldKind::Scalar { kind: k, .. } ==> i2m_spec(kind, None)
            == MachineValue::Scalar(k, 0),
        kind is Str ==> i2m_spec(kind, None) == MachineValue::Bytes(Seq::empty()),
        kind matches FieldKind::Scalar { kind: k, little } ==> addfield_spec(
            kind,
            Seq::empty(),
            None,
        ) == Ok::<Seq<u8>, PacketError>(Seq::new(k.width(), |i: int| 0u8)),
        kind is Str ==> addfield_spec(kind, Seq::empty(), None) == Ok::<Seq<u8>, PacketError>(
            Seq::empty(),
        ),
{
    if let FieldKind::Scalar { kind: k, little } = kind {
        crate::wire::lemma_zero_bytes(k.width());
        assert(Seq::<u8>::empty() + encode_int(k, little, 0) =~= Seq::new(
            k.width(),
            |i: int| 0u8,
        ));
    } else {
        assert(Seq::<u8>::empty() + Seq::<u8>::empty() =~= Seq::<u8>::empty());
    }
}

/// An integer field fails on fewer bytes than it is wide; on exactly as
/// many it succeeds and leaves nothing.
pub proof fn lemma_truncation(kind: IntKind, little: bool, s: Seq<u8>)
    ensures
        s.len() < kind.width() ==> getfield_spec(FieldKind::Scalar { kind, little }, s) == Err::<
            (Seq<u8>, SemanticValue),
            PacketError,
        >(PacketError::TruncatedInput),
        s.len() >= kind.width() ==> getfield_spec(FieldKind::Scalar { kind, little }, s) is Ok,
        s.len() == kind.width() ==> getfield_spec(FieldKind::Scalar { kind, little }, s) == Ok::<
            (Seq<u8>, SemanticValue),
            PacketError,
        >((Seq::empty(), SemanticValue::Scalar(kind, decode_int(kind, little, s)))),
{
    if s.len() == kind.width() {
        assert(s.skip(kind.width() as int) =~= Seq::<u8>::empty());
        assert(s.take(kind.width() as int) =~= s);
    }
}

} // verus!
