//! The value model: what a field holds on the wire, what it holds for the
//! application, and what a caller may hand in.

use vstd::prelude::*;
use vstd::slice::slice_to_vec;
use vstd::std_specs::cmp::PartialEqSpecImpl;
use vstd::utf8::encode_utf8;

use crate::error::PacketError;
use crate::text::{bytes_text, dec_int, push_bytes_text, push_dec, push_dec_int, push_text};
use crate::wire::IntKind;

verus! {

/// A wire-level value as mathematics sees it.
pub enum MachineValue {
    /// An integer of the given kind.
    Scalar(IntKind, int),
    /// A raw byte string.
    Bytes(Seq<u8>),
}

/// An application-facing value as mathematics sees it.
pub enum SemanticValue {
    /// An integer of the given kind.
    Scalar(IntKind, int),
    /// A text string.
    String(Seq<char>),
    /// A raw byte string.
    Bytes(Seq<u8>),
    /// The bytes that an externally defined field stands by; their meaning
    /// is the field's own.
    Extension(Seq<u8>),
}

impl MachineValue {
    /// The one semantic value that stands for this wire value.
    pub open spec fn to_semantic(self) -> SemanticValue {
        match self {
            MachineValue::Scalar(k, v) => SemanticValue::Scalar(k, v),
            MachineValue::Bytes(b) => SemanticValue::Bytes(b),
        }
    }

    /// Integers lie in the range of their kind.
    pub open spec fn well_formed(self) -> bool {
        self matches MachineValue::Scalar(k, v) ==> k.contains(v)
    }
}

impl SemanticValue {
    /// The wire value of this semantic value: integers as they are, text as
    /// its UTF-8 bytes, byte strings as they are.
    pub open spec fn to_machine(self) -> MachineValue {
        match self {
            SemanticValue::Scalar(k, v) => MachineValue::Scalar(k, v),
            SemanticValue::String(s) => MachineValue::Bytes(encode_utf8(s)),
            SemanticValue::Bytes(b) => MachineValue::Bytes(b),
            SemanticValue::Extension(b) => MachineValue::Bytes(b),
        }
    }

    /// Integers lie in the range of their kind.
    pub open spec fn well_formed(self) -> bool {
        self matches SemanticValue::Scalar(k, v) ==> k.contains(v)
    }

    /// This value as a caller sees it.
    pub open spec fn to_host(self) -> HostModel {
        match self {
            SemanticValue::Scalar(_, v) => HostModel::Int(v),
            SemanticValue::String(s) => HostModel::Text(s),
            SemanticValue::Bytes(b) => HostModel::Bytes(b),
            SemanticValue::Extension(b) => HostModel::Bytes(b),
        }
    }

    /// This value as text: the name of its variant, and in brackets the
    /// number in decimal, the text as it is, or the bytes as a list.
    pub open spec fn text(self) -> Seq<char> {
        match self {
            SemanticValue::Scalar(k, v) => k.name() + "("@ + dec_int(v) + ")"@,
            SemanticValue::String(s) => "String("@ + s + ")"@,
            SemanticValue::Bytes(b) => "Bytes("@ + bytes_text(b) + ")"@,
            SemanticValue::Extension(b) => "PythonFieldValue("@ + bytes_text(b) + ")"@,
        }
    }

    /// The zero of an integer kind.
    pub open spec fn zero(kind: IntKind) -> SemanticValue {
        SemanticValue::Scalar(kind, 0)
    }
}

/// A value as it travels on the wire.
#[derive(Debug, PartialEq, Eq)]
pub enum MachineType {
    Byte(u8),
    SignedByte(i8),
    Short(u16),
    SignedShort(i16),
    Int(u32),
    SignedInt(i32),
    Long(u64),
    SignedLong(i64),
    LongLong(u128),
    SignedLongLong(i128),
    Bytes(Vec<u8>),
}

/// A value as the application reads and writes it.
#[derive(Debug)]
pub enum InternalType {
    Byte(u8),
    SignedByte(i8),
    Short(u16),
    SignedShort(i16),
    Int(u32),
    SignedInt(i32),
    Long(u64),
    SignedLong(i64),
    LongLong(u128),
    SignedLongLong(i128),
    String(String),
    Bytes(Vec<u8>),
    /// The value of an externally defined field, kept as the bytes that the
    /// field's implementation gave for it.
    PythonFieldValue(Vec<u8>),
}

/// A value that a caller hands in, before any field has looked at it.
#[derive(Debug, PartialEq, Eq)]
pub enum HostValue {
    /// An integer.
    Int(i128),
    /// An integer too large for `Int`.
    UInt(u128),
    /// A byte string, or a sequence of small integers.
    Bytes(Vec<u8>),
    /// A text string.
    Text(String),
    /// Anything that is none of the above.
    Other,
}

impl View for MachineType {
    type V = MachineValue;

    open spec fn view(&self) -> MachineValue {
        match self {
            MachineType::Byte(x) => MachineValue::Scalar(IntKind::Byte, *x as int),
            MachineType::SignedByte(x) => MachineValue::Scalar(IntKind::SignedByte, *x as int),
            MachineType::Short(x) => MachineValue::Scalar(IntKind::Short, *x as int),
            MachineType::SignedShort(x) => MachineValue::Scalar(IntKind::SignedShort, *x as int),
            MachineType::Int(x) => MachineValue::Scalar(IntKind::Int, *x as int),
            MachineType::SignedInt(x) => MachineValue::Scalar(IntKind::SignedInt, *x as int),
            MachineType::Long(x) => MachineValue::Scalar(IntKind::Long, *x as int),
            MachineType::SignedLong(x) => MachineValue::Scalar(IntKind::SignedLong, *x as int),
            MachineType::LongLong(x) => MachineValue::Scalar(IntKind::LongLong, *x as int),
            MachineType::SignedLongLong(x) => MachineValue::Scalar(
                IntKind::SignedLongLong,
                *x as int,
            ),
            MachineType::Bytes(b) => MachineValue::Bytes(b@),
        }
    }
}

impl View for InternalType {
    type V = SemanticValue;

    open spec fn view(&self) -> SemanticValue {
        match self {
            InternalType::Byte(x) => SemanticValue::Scalar(IntKind::Byte, *x as int),
            InternalType::SignedByte(x) => SemanticValue::Scalar(IntKind::SignedByte, *x as int),
            InternalType::Short(x) => SemanticValue::Scalar(IntKind::Short, *x as int),
            InternalType::SignedShort(x) => SemanticValue::Scalar(IntKind::SignedShort, *x as int),
            InternalType::Int(x) => SemanticValue::Scalar(IntKind::Int, *x as int),
            InternalType::SignedInt(x) => SemanticValue::Scalar(IntKind::SignedInt, *x as int),
            InternalType::Long(x) => SemanticValue::Scalar(IntKind::Long, *x as int),
            InternalType::SignedLong(x) => SemanticValue::Scalar(IntKind::SignedLong, *x as int),
            InternalType::LongLong(x) => SemanticValue::Scalar(IntKind::LongLong, *x as int),
            InternalType::SignedLongLong(x) => SemanticValue::Scalar(
                IntKind::SignedLongLong,
                *x as int,
            ),
            InternalType::String(s) => SemanticValue::String(s@),
            InternalType::Bytes(b) => SemanticValue::Bytes(b@),
            InternalType::PythonFieldValue(b) => SemanticValue::Extension(b@),
        }
    }
}

/// What a caller's value is, as mathematics sees it.
pub enum HostModel {
    Int(int),
    Bytes(Seq<u8>),
    Text(Seq<char>),
    Other,
}

impl View for HostValue {
    type V = HostModel;

    open spec fn view(&self) -> HostModel {
        match self {
            HostValue::Int(v) => HostModel::Int(*v as int),
            HostValue::UInt(v) => HostModel::Int(*v as int),
            HostValue::Bytes(b) => HostModel::Bytes(b@),
            HostValue::Text(s) => HostModel::Text(s@),
            HostValue::Other => HostModel::Other,
        }
    }
}

/// The view of a caller's value that may be absent.
pub open spec fn view_opt_host(v: Option<&HostValue>) -> Option<HostModel> {
    match v {
        Some(x) => Some(x@),
        None => None,
    }
}

/// The view of a value that may be absent.
pub open spec fn view_opt(v: Option<InternalType>) -> Option<SemanticValue> {
    match v {
        Some(x) => Some(x@),
        None => None,
    }
}

/// The view of a reference that may be absent.
pub open spec fn view_opt_ref(v: Option<&InternalType>) -> Option<SemanticValue> {
    match v {
        Some(x) => Some(x@),
        None => None,
    }
}

/// Whether two byte strings hold the same bytes.
pub fn bytes_eq(a: &Vec<u8>, b: &Vec<u8>) -> (r: bool)
    ensures
        r == (a@ == b@),
{
    if a.len() != b.len() {
        return false;
    }
    let mut i: usize = 0;
    while i < a.len()
        invariant
            i <= a@.len() == b@.len(),
            forall|j: int| 0 <= j < i ==> a@[j] == b@[j],
        decreases a@.len() - i,
    {
        if a[i] != b[i] {
            return false;
        }
        i = i + 1;
    }
    assert(a@ =~= b@);
    true
}

impl MachineType {
    /// The semantic value that stands for this wire value. Every wire value
    /// has exactly one.
    pub fn as_internal(&self) -> (r: InternalType)
        ensures
            r@ == self@.to_semantic(),
    {
        match self {
            MachineType::Byte(x) => InternalType::Byte(*x),
            MachineType::SignedByte(x) => InternalType::SignedByte(*x),
            MachineType::Short(x) => InternalType::Short(*x),
            MachineType::SignedShort(x) => InternalType::SignedShort(*x),
            MachineType::Int(x) => InternalType::Int(*x),
            MachineType::SignedInt(x) => InternalType::SignedInt(*x),
            MachineType::Long(x) => InternalType::Long(*x),
            MachineType::SignedLong(x) => InternalType::SignedLong(*x),
            MachineType::LongLong(x) => InternalType::LongLong(*x),
            MachineType::SignedLongLong(x) => InternalType::SignedLongLong(*x),
            MachineType::Bytes(x) => InternalType::Bytes(slice_to_vec(x.as_slice())),
        }
    }

    /// The wire value of an integer kind that stands for zero.
    pub fn zero(kind: IntKind) -> (r: MachineType)
        ensures
            r@ == MachineValue::Scalar(kind, 0),
    {
        match kind {
            IntKind::Byte => MachineType::Byte(0),
            IntKind::SignedByte => MachineType::SignedByte(0),
            IntKind::Short => MachineType::Short(0),
            IntKind::SignedShort => MachineType::SignedShort(0),
            IntKind::Int => MachineType::Int(0),
            IntKind::SignedInt => MachineType::SignedInt(0),
            IntKind::Long => MachineType::Long(0),
            IntKind::SignedLong => MachineType::SignedLong(0),
            IntKind::LongLong => MachineType::LongLong(0),
            IntKind::SignedLongLong => MachineType::SignedLongLong(0),
        }
    }
}

impl Clone for MachineType {
    fn clone(&self) -> (r: Self)
        ensures
            r@ == self@,
    {
        match self {
            MachineType::Byte(x) => MachineType::Byte(*x),
            MachineType::SignedByte(x) => MachineType::SignedByte(*x),
            MachineType::Short(x) => MachineType::Short(*x),
            MachineType::SignedShort(x) => MachineType::SignedShort(*x),
            MachineType::Int(x) => MachineType::Int(*x),
            MachineType::SignedInt(x) => MachineType::SignedInt(*x),
            MachineType::Long(x) => MachineType::Long(*x),
            MachineType::SignedLong(x) => MachineType::SignedLong(*x),
            MachineType::LongLong(x) => MachineType::LongLong(*x),
            MachineType::SignedLongLong(x) => MachineType::SignedLongLong(*x),
            MachineType::Bytes(x) => MachineType::Bytes(slice_to_vec(x.as_slice())),
        }
    }
}

impl InternalType {
    /// The wire value of this semantic value: integers as they are, text as
    /// its UTF-8 bytes, byte strings as they are.
    pub fn as_machine(&self) -> (r: MachineType)
        ensures
            r@ == self@.to_machine(),
    {
        match self {
            InternalType::Byte(x) => MachineType::Byte(*x),
            InternalType::SignedByte(x) => MachineType::SignedByte(*x),
            InternalType::Short(x) => MachineType::Short(*x),
            InternalType::SignedShort(x) => MachineType::SignedShort(*x),
            InternalType::Int(x) => MachineType::Int(*x),
            InternalType::SignedInt(x) => MachineType::SignedInt(*x),
            InternalType::Long(x) => MachineType::Long(*x),
            InternalType::SignedLong(x) => MachineType::SignedLong(*x),
            InternalType::LongLong(x) => MachineType::LongLong(*x),
            InternalType::SignedLongLong(x) => MachineType::SignedLongLong(*x),
            InternalType::String(x) => MachineType::Bytes(slice_to_vec(x.as_str().as_bytes())),
            InternalType::Bytes(x) => MachineType::Bytes(slice_to_vec(x.as_slice())),
            InternalType::PythonFieldValue(x) => MachineType::Bytes(slice_to_vec(x.as_slice())),
        }
    }

    /// The value of integer kind `kind` that holds the caller's integer `h`,
    /// where `h` is an integer in the range of `kind`.
    pub fn from_host(kind: IntKind, h: &HostValue) -> (r: Result<InternalType, PacketError>)
        ensures
            match r {
                Ok(v) => h@ matches HostModel::Int(n) && kind.contains(n) && v@
                    == SemanticValue::Scalar(kind, n),
                Err(e) => e == PacketError::TypeConversion && !(h@ matches HostModel::Int(n)
                    && kind.contains(n)),
            },
    {
        match h {
            HostValue::Int(v) => {
                let v: i128 = *v;
                match kind {
                    IntKind::Byte => if 0 <= v && v <= 0xff {
                        Ok(InternalType::Byte(v as u8))
                    } else {
                        Err(PacketError::TypeConversion)
                    },
                    IntKind::SignedByte => if -0x80 <= v && v <= 0x7f {
                        Ok(InternalType::SignedByte(v as i8))
                    } else {
                        Err(PacketError::TypeConversion)
                    },
                    IntKind::Short => if 0 <= v && v <= 0xffff {
                        Ok(InternalType::Short(v as u16))
                    } else {
                        Err(PacketError::TypeConversion)
                    },
                    IntKind::SignedShort => if -0x8000 <= v && v <= 0x7fff {
                        Ok(InternalType::SignedShort(v as i16))
                    } else {
                        Err(PacketError::TypeConversion)
                    },
                    IntKind::Int => if 0 <= v && v <= 0xffff_ffff {
                        Ok(InternalType::Int(v as u32))
                    } else {
                        Err(PacketError::TypeConversion)
                    },
                    IntKind::SignedInt => if -0x8000_0000 <= v && v <= 0x7fff_ffff {
                        Ok(InternalType::SignedInt(v as i32))
                    } else {
                        Err(PacketError::TypeConversion)
                    },
                    IntKind::Long => if 0 <= v && v <= 0xffff_ffff_ffff_ffff {
                        Ok(InternalType::Long(v as u64))
                    } else {
                        Err(PacketError::TypeConversion)
                    },
                    IntKind::SignedLong => if -0x8000_0000_0000_0000 <= v && v
                        <= 0x7fff_ffff_ffff_ffff {
                        Ok(InternalType::SignedLong(v as i64))
                    } else {
                        Err(PacketError::TypeConversion)
                    },
                    IntKind::LongLong => if 0 <= v {
                        Ok(InternalType::LongLong(v as u128))
                    } else {
                        Err(PacketError::TypeConversion)
                    },
                    IntKind::SignedLongLong => Ok(InternalType::SignedLongLong(v)),
                }
            },
            HostValue::UInt(v) => {
                let v: u128 = *v;
                match kind {
                    IntKind::Byte => if v <= 0xff {
                        Ok(InternalType::Byte(v as u8))
                    } else {
                        Err(PacketError::TypeConversion)
                    },
                    IntKind::SignedByte => if v <= 0x7f {
                        Ok(InternalType::SignedByte(v as i8))
                    } else {
                        Err(PacketError::TypeConversion)
                    },
                    IntKind::Short => if v <= 0xffff {
                        Ok(InternalType::Short(v as u16))
                    } else {
                        Err(PacketError::TypeConversion)
                    },
                    IntKind::SignedShort => if v <= 0x7fff {
                        Ok(InternalType::SignedShort(v as i16))
                    } else {
                        Err(PacketError::TypeConversion)
                    },
                    IntKind::Int => if v <= 0xffff_ffff {
                        Ok(InternalType::Int(v as u32))
                    } else {
                        Err(PacketError::TypeConversion)
                    },
                    IntKind::SignedInt => if v <= 0x7fff_ffff {
                        Ok(InternalType::SignedInt(v as i32))
                    } else {
                        Err(PacketError::TypeConversion)
                    },
                    IntKind::Long => if v <= 0xffff_ffff_ffff_ffff {
                        Ok(InternalType::Long(v as u64))
                    } else {
                        Err(PacketError::TypeConversion)
                    },
                    IntKind::SignedLong => if v <= 0x7fff_ffff_ffff_ffff {
                        Ok(InternalType::SignedLong(v as i64))
                    } else {
                        Err(PacketError::TypeConversion)
                    },
                    IntKind::LongLong => Ok(InternalType::LongLong(v)),
                    IntKind::SignedLongLong => if v <= 0x7fff_ffff_ffff_ffff_ffff_ffff_ffff_ffff {
                        Ok(InternalType::SignedLongLong(v as i128))
                    } else {
                        Err(PacketError::TypeConversion)
                    },
                }
            },
            _ => Err(PacketError::TypeConversion),
        }
    }

    /// This value as the caller sees it: an integer for the integer kinds,
    /// text for text, bytes for the rest.
    pub fn to_host(&self) -> (h: HostValue)
        ensures
            h@ == self@.to_host(),
    {
        match self {
            InternalType::Byte(x) => HostValue::Int(*x as i128),
            InternalType::SignedByte(x) => HostValue::Int(*x as i128),
            InternalType::Short(x) => HostValue::Int(*x as i128),
            InternalType::SignedShort(x) => HostValue::Int(*x as i128),
            InternalType::Int(x) => HostValue::Int(*x as i128),
            InternalType::SignedInt(x) => HostValue::Int(*x as i128),
            InternalType::Long(x) => HostValue::Int(*x as i128),
            InternalType::SignedLong(x) => HostValue::Int(*x as i128),
            InternalType::LongLong(x) => HostValue::UInt(*x),
            InternalType::SignedLongLong(x) => HostValue::Int(*x),
            InternalType::String(x) => HostValue::Text(x.clone()),
            InternalType::Bytes(x) => HostValue::Bytes(slice_to_vec(x.as_slice())),
            InternalType::PythonFieldValue(x) => HostValue::Bytes(slice_to_vec(x.as_slice())),
        }
    }

    /// This value as text.
    pub fn to_string(&self) -> (s: String)
        ensures
            s@ == self@.text(),
    {
        let mut s = String::new();
        let ghost start = s@;
        match self {
            InternalType::Byte(x) => {
                push_text(&mut s, "Byte");
                push_text(&mut s, "(");
                push_dec_int(&mut s, *x as i128);
            },
            InternalType::SignedByte(x) => {
                push_text(&mut s, "SignedByte");
                push_text(&mut s, "(");
                push_dec_int(&mut s, *x as i128);
            },
            InternalType::Short(x) => {
                push_text(&mut s, "Short");
                push_text(&mut s, "(");
                push_dec_int(&mut s, *x as i128);
            },
            InternalType::SignedShort(x) => {
                push_text(&mut s, "SignedShort");
                push_text(&mut s, "(");
                push_dec_int(&mut s, *x as i128);
            },
            InternalType::Int(x) => {
                push_text(&mut s, "Int");
                push_text(&mut s, "(");
                push_dec_int(&mut s, *x as i128);
            },
            InternalType::SignedInt(x) => {
                push_text(&mut s, "SignedInt");
                push_text(&mut s, "(");
                push_dec_int(&mut s, *x as i128);
            },
            InternalType::Long(x) => {
                push_text(&mut s, "Long");
                push_text(&mut s, "(");
                push_dec_int(&mut s, *x as i128);
            },
            InternalType::SignedLong(x) => {
                push_text(&mut s, "SignedLong");
                push_text(&mut s, "(");
                push_dec_int(&mut s, *x as i128);
            },
            InternalType::LongLong(x) => {
                push_text(&mut s, "LongLong");
                push_text(&mut s, "(");
                push_dec(&mut s, *x);
            },
            InternalType::SignedLongLong(x) => {
                push_text(&mut s, "SignedLongLong");
                push_text(&mut s, "(");
                push_dec_int(&mut s, *x);
            },
            InternalType::String(x) => {
                push_text(&mut s, "String(");
                push_text(&mut s, x.as_str());
            },
            InternalType::Bytes(x) => {
                push_text(&mut s, "Bytes(");
                push_bytes_text(&mut s, x);
            },
            InternalType::PythonFieldValue(x) => {
                push_text(&mut s, "PythonFieldValue(");
                push_bytes_text(&mut s, x);
            },
        }
        push_text(&mut s, ")");
        assert(s@ =~= self@.text());
        s
    }

    /// The integer that this value holds, as a value of the kind `kind`.
    /// Fails where this value holds no integer, or one that is not in the
    /// range of `kind`.
    pub fn try_into_kind(&self, kind: IntKind) -> (r: Result<InternalType, PacketError>)
        ensures
            match r {
                Ok(v) => self@ matches SemanticValue::Scalar(_, n) && kind.contains(n) && v@
                    == SemanticValue::Scalar(kind, n),
                Err(e) => e == PacketError::TypeConversion && !(self@ matches SemanticValue::Scalar(
                    _,
                    n,
                ) && kind.contains(n)),
            },
    {
        match self {
            InternalType::String(_) | InternalType::Bytes(_) | InternalType::PythonFieldValue(_) => {
                Err(PacketError::TypeConversion)
            },
            _ => InternalType::from_host(kind, &self.to_host()),
        }
    }

    /// This value as a length or a count: the integer it holds, where that
    /// is an integer and fits.
    pub fn try_into_usize(&self) -> (r: Result<usize, PacketError>)
        ensures
            match r {
                Ok(n) => self@ matches SemanticValue::Scalar(_, v) && v == n,
                Err(e) => e == PacketError::TypeConversion && !(self@ matches SemanticValue::Scalar(
                    _,
                    v,
                ) && 0 <= v <= usize::MAX),
            },
    {
        match self {
            InternalType::Byte(x) => Ok(*x as usize),
            InternalType::SignedByte(x) => if *x >= 0 {
                Ok(*x as usize)
            } else {
                Err(PacketError::TypeConversion)
            },
            InternalType::Short(x) => Ok(*x as usize),
            InternalType::SignedShort(x) => if *x >= 0 {
                Ok(*x as usize)
            } else {
                Err(PacketError::TypeConversion)
            },
            InternalType::Int(x) => Ok(*x as usize),
            InternalType::SignedInt(x) => if *x >= 0 {
                Ok(*x as usize)
            } else {
                Err(PacketError::TypeConversion)
            },
            InternalType::Long(x) => if *x as u128 <= usize::MAX as u128 {
                Ok(*x as usize)
            } else {
                Err(PacketError::TypeConversion)
            },
            InternalType::SignedLong(x) => if *x >= 0 && *x as u128 <= usize::MAX as u128 {
                Ok(*x as usize)
            } else {
                Err(PacketError::TypeConversion)
            },
            InternalType::LongLong(x) => if *x <= usize::MAX as u128 {
                Ok(*x as usize)
            } else {
                Err(PacketError::TypeConversion)
            },
            InternalType::SignedLongLong(x) => if *x >= 0 && *x as u128 <= usize::MAX as u128 {
                Ok(*x as usize)
            } else {
                Err(PacketError::TypeConversion)
            },
            _ => Err(PacketError::TypeConversion),
        }
    }

    /// The semantic value of an integer kind that stands for zero.
    pub fn zero(kind: IntKind) -> (r: InternalType)
        ensures
            r@ == SemanticValue::zero(kind),
    {
        match kind {
            IntKind::Byte => InternalType::Byte(0),
            IntKind::SignedByte => InternalType::SignedByte(0),
            IntKind::Short => InternalType::Short(0),
            IntKind::SignedShort => InternalType::SignedShort(0),
            IntKind::Int => InternalType::Int(0),
            IntKind::SignedInt => InternalType::SignedInt(0),
            IntKind::Long => InternalType::Long(0),
            IntKind::SignedLong => InternalType::SignedLong(0),
            IntKind::LongLong => InternalType::LongLong(0),
            IntKind::SignedLongLong => InternalType::SignedLongLong(0),
        }
    }
}

impl Clone for InternalType {
    fn clone(&self) -> (r: Self)
        ensures
            r@ == self@,
    {
        match self {
            InternalType::Byte(x) => InternalType::Byte(*x),
            InternalType::SignedByte(x) => InternalType::SignedByte(*x),
            InternalType::Short(x) => InternalType::Short(*x),
            InternalType::SignedShort(x) => InternalType::SignedShort(*x),
            InternalType::Int(x) => InternalType::Int(*x),
            InternalType::SignedInt(x) => InternalType::SignedInt(*x),
            InternalType::Long(x) => InternalType::Long(*x),
            InternalType::SignedLong(x) => InternalType::SignedLong(*x),
            InternalType::LongLong(x) => InternalType::LongLong(*x),
            InternalType::SignedLongLong(x) => InternalType::SignedLongLong(*x),
            InternalType::String(x) => InternalType::String(x.clone()),
            InternalType::Bytes(x) => InternalType::Bytes(slice_to_vec(x.as_slice())),
            InternalType::PythonFieldValue(x) => InternalType::PythonFieldValue(
                slice_to_vec(x.as_slice()),
            ),
        }
    }
}

impl PartialEq for InternalType {
    fn eq(&self, other: &Self) -> (r: bool) {
        match (self, other) {
            (InternalType::Byte(a), InternalType::Byte(b)) => *a == *b,
            (InternalType::SignedByte(a), InternalType::SignedByte(b)) => *a == *b,
            (InternalType::Short(a), InternalType::Short(b)) => *a == *b,
            (InternalType::SignedShort(a), InternalType::SignedShort(b)) => *a == *b,
            (InternalType::Int(a), InternalType::Int(b)) => *a == *b,
            (InternalType::SignedInt(a), InternalType::SignedInt(b)) => *a == *b,
            (InternalType::Long(a), InternalType::Long(b)) => *a == *b,
            (InternalType::SignedLong(a), InternalType::SignedLong(b)) => *a == *b,
            (InternalType::LongLong(a), InternalType::LongLong(b)) => *a == *b,
            (InternalType::SignedLongLong(a), InternalType::SignedLongLong(b)) => *a == *b,
            (InternalType::String(a), InternalType::String(b)) => *a == *b,
            (InternalType::Bytes(a), InternalType::Bytes(b)) => bytes_eq(a, b),
            (InternalType::PythonFieldValue(a), InternalType::PythonFieldValue(b)) => bytes_eq(
                a,
                b,
            ),
            _ => false,
        }
    }
}

impl PartialEqSpecImpl for InternalType {
    open spec fn obeys_eq_spec() -> bool {
        true
    }

    /// Two values are equal when they are of the same variant and hold the
    /// same number, text or bytes.
    open spec fn eq_spec(&self, other: &Self) -> bool {
        self@ == other@
    }
}

/// Every value that the program can hold is well formed: its integer lies
/// in the range of its kind.
pub proof fn lemma_internal_well_formed(v: InternalType)
    ensures
        v@.well_formed(),
{
}

/// Every wire value that the program can hold is well formed.
pub proof fn lemma_machine_well_formed(v: MachineType)
    ensures
        v@.well_formed(),
{
}

/// From the wire to the application and back loses nothing.
pub proof fn lemma_machine_round_trip(m: MachineValue)
    ensures
        m.to_semantic().to_machine() == m,
{
}

/// From the application to the wire and back loses nothing, for every
/// value that the wire can stand for: all but text and extension values,
/// which come back as the byte strings they were written as.
pub proof fn lemma_semantic_round_trip(v: SemanticValue)
    ensures
        v is Scalar || v is Bytes ==> v.to_machine().to_semantic() == v,
        v matches SemanticValue::String(s) ==> v.to_machine().to_semantic()
            == SemanticValue::Bytes(encode_utf8(s)),
        v matches SemanticValue::Extension(b) ==> v.to_machine().to_semantic()
            == SemanticValue::Bytes(b),
{
}

} // verus!
