//! Packed records, described by a format of one character for the byte
//! order and one for each item: their sizes, and their bytes.

use vstd::prelude::*;
use vstd::string::StrSliceExecFns;

use crate::wire::{
    be_bytes, le_bytes, lemma_pow256_monotonic, lemma_pow256_values, pow256, push_be, push_le,
    unsigned_image,
};

verus! {

/// The sizes in bytes that the machine gives the C integer types.
#[derive(Clone, Copy, Debug, PartialEq, Eq, Structural)]
pub struct NativeSizes {
    pub short: usize,
    pub int: usize,
    pub long: usize,
    pub longlong: usize,
}

/// The size of the item that the character `c` stands for: by the table of
/// standard sizes, or by the machine's sizes where the format is native.
/// No size where `c` stands for no item.
pub open spec fn item_size(c: char, native: Option<NativeSizes>) -> Option<nat> {
    if c == 'c' || c == 'b' || c == 'B' || c == '?' {
        Some(1)
    } else if c == 'h' || c == 'H' {
        Some(
            match native {
                Some(n) => n.short as nat,
                None => 2,
            },
        )
    } else if c == 'i' || c == 'I' || c == 'f' {
        Some(
            match native {
                Some(n) => n.int as nat,
                None => 4,
            },
        )
    } else if c == 'l' || c == 'L' {
        Some(
            match native {
                Some(n) => n.long as nat,
                None => 4,
            },
        )
    } else if c == 'q' || c == 'Q' || c == 'd' {
        Some(
            match native {
                Some(n) => n.longlong as nat,
                None => 8,
            },
        )
    } else {
        None
    }
}

/// The sizes of the items of `s` added up, or none where a character of `s`
/// stands for no item.
pub open spec fn items_size(s: Seq<char>, native: Option<NativeSizes>) -> Option<nat>
    decreases s.len(),
{
    if s.len() == 0 {
        Some(0)
    } else {
        match (items_size(s.drop_last(), native), item_size(s.last(), native)) {
            (Some(a), Some(b)) => Some(a + b),
            _ => None,
        }
    }
}

/// The size of the record that `format` describes. The first character
/// gives the byte order; `@` asks for the machine's sizes, any other for
/// the standard ones. The characters after it are the items.
pub open spec fn calcsize_spec(format: Seq<char>, native: NativeSizes) -> Option<nat> {
    if format.len() == 0 {
        Some(0)
    } else {
        items_size(
            format.drop_first(),
            if format[0] == '@' {
                Some(native)
            } else {
                None
            },
        )
    }
}

/// The size of one item.
fn size_of_item(c: char, native: Option<NativeSizes>) -> (r: Option<usize>)
    ensures
        match r {
            Some(n) => item_size(c, native) == Some(n as nat),
            None => item_size(c, native) is None,
        },
{
    if c == 'c' || c == 'b' || c == 'B' || c == '?' {
        Some(1)
    } else if c == 'h' || c == 'H' {
        Some(
            match native {
                Some(n) => n.short,
                None => 2,
            },
        )
    } else if c == 'i' || c == 'I' || c == 'f' {
        Some(
            match native {
                Some(n) => n.int,
                None => 4,
            },
        )
    } else if c == 'l' || c == 'L' {
        Some(
            match native {
                Some(n) => n.long,
                None => 4,
            },
        )
    } else if c == 'q' || c == 'Q' || c == 'd' {
        Some(
            match native {
                Some(n) => n.longlong,
                None => 8,
            },
        )
    } else {
        None
    }
}

proof fn lemma_items_size_prefix(s: Seq<char>, native: Option<NativeSizes>, n: int)
    requires
        0 <= n <= s.len(),
        items_size(s.take(n), native) is None,
    ensures
        items_size(s, native) is None,
    decreases s.len() - n,
{
    if n < s.len() {
        assert(s.take(n + 1).drop_last() =~= s.take(n));
        lemma_items_size_prefix(s, native, n + 1);
    } else {
        assert(s.take(n) =~= s);
    }
}

/// The size in bytes of the record that `format` describes, with `native`
/// for the sizes of the machine. Fails where a character stands for no
/// item, and where the size is more than the machine can count.
pub fn calcsize(format: &str, native: &NativeSizes) -> (r: Result<usize, &'static str>)
    ensures
        match calcsize_spec(format@, *native) {
            Some(n) => if n <= usize::MAX {
                r == Ok::<usize, &'static str>(n as usize)
            } else {
                r matches Err(e) && e@ == "size too large"@
            },
            None => r matches Err(e) && e@ == "bad char in struct format"@,
        },
{
    let len = format.unicode_len();
    if len == 0 {
        return Ok(0);
    }
    let sizes = if format.get_char(0) == '@' {
        Some(*native)
    } else {
        None
    };
    let ghost items = format@.drop_first();
    let mut acc: Option<usize> = Some(0);
    let mut i: usize = 1;
    proof {
        assert(items.take(0) =~= Seq::<char>::empty());
    }
    while i < len
        invariant
            1 <= i <= len,
            len == format@.len(),
            items == format@.drop_first(),
            sizes == (if format@[0] == '@' {
                Some(*native)
            } else {
                None
            }),
            items_size(items.take(i - 1), sizes) matches Some(total) && match acc {
                Some(a) => total == a,
                None => total > usize::MAX,
            },
        decreases len - i,
    {
        let c = format.get_char(i);
        proof {
            assert(items.take(i as int).drop_last() =~= items.take(i - 1));
            assert(items.take(i as int).last() == c);
        }
        match size_of_item(c, sizes) {
            Some(n) => {
                acc = match acc {
                    Some(a) => a.checked_add(n),
                    None => None,
                };
            },
            None => {
                proof {
                    lemma_items_size_prefix(items, sizes, i as int);
                }
                return Err("bad char in struct format");
            },
        }
        i = i + 1;
    }
    proof {
        assert(items.take(len - 1) =~= items);
    }
    match acc {
        Some(a) => Ok(a),
        None => Err("size too large"),
    }
}

/// The byte order and the sizes that a format asks for.
#[derive(Clone, Copy, Debug, PartialEq, Eq, Structural)]
pub enum StructOrder {
    /// The machine's byte order, the machine's sizes.
    NativeOrderNative,
    /// The machine's byte order, the standard sizes.
    NativeOrderStandard,
    /// Least significant byte first, the standard sizes.
    LittleEndianStandard,
    /// Most significant byte first, the standard sizes.
    BigEndianStandard,
}

/// One item of a record. The two floating-point items hold the bits of
/// their number.
#[derive(Clone, Copy, Debug, PartialEq, Eq, Structural)]
pub enum StructValue {
    Char(u8),
    SignedByte(i8),
    UnsignedByte(u8),
    Short(i16),
    UnsignedShort(u16),
    Int(i32),
    UnsignedInt(u32),
    Long(i64),
    UnsignedLong(u64),
    LongLong(i128),
    UnsignedLongLong(u128),
    Float(u32),
    Double(u64),
}

impl StructOrder {
    /// Whether the order puts the least significant byte first, on a
    /// machine that does so or does not.
    pub open spec fn little(self, little_machine: bool) -> bool {
        match self {
            StructOrder::NativeOrderNative | StructOrder::NativeOrderStandard => little_machine,
            StructOrder::LittleEndianStandard => true,
            StructOrder::BigEndianStandard => false,
        }
    }

    /// The order that the first character of a format asks for.
    pub open spec fn of(c: char) -> Option<StructOrder> {
        if c == '@' {
            Some(StructOrder::NativeOrderNative)
        } else if c == '=' {
            Some(StructOrder::NativeOrderStandard)
        } else if c == '<' {
            Some(StructOrder::LittleEndianStandard)
        } else if c == '>' || c == '!' {
            Some(StructOrder::BigEndianStandard)
        } else {
            None
        }
    }
}

impl StructValue {
    /// The number that the item holds: its integer, or the bits of its
    /// floating-point number.
    pub open spec fn number(self) -> int {
        match self {
            StructValue::Char(x) => x as int,
            StructValue::SignedByte(x) => x as int,
            StructValue::UnsignedByte(x) => x as int,
            StructValue::Short(x) => x as int,
            StructValue::UnsignedShort(x) => x as int,
            StructValue::Int(x) => x as int,
            StructValue::UnsignedInt(x) => x as int,
            StructValue::Long(x) => x as int,
            StructValue::UnsignedLong(x) => x as int,
            StructValue::LongLong(x) => x as int,
            StructValue::UnsignedLongLong(x) => x as int,
            StructValue::Float(x) => x as int,
            StructValue::Double(x) => x as int,
        }
    }

    /// Whether the item is a signed integer.
    pub open spec fn signed(self) -> bool {
        self is SignedByte || self is Short || self is Int || self is Long || self is LongLong
    }

    /// The character that stands for an item of this variant in a format.
    pub open spec fn code(self) -> char {
        match self {
            StructValue::Char(_) => 'c',
            StructValue::SignedByte(_) => 'b',
            StructValue::UnsignedByte(_) => 'B',
            StructValue::Short(_) => 'h',
            StructValue::UnsignedShort(_) => 'H',
            StructValue::Int(_) => 'i',
            StructValue::UnsignedInt(_) => 'I',
            StructValue::Long(_) => 'l',
            StructValue::UnsignedLong(_) => 'L',
            StructValue::LongLong(_) => 'q',
            StructValue::UnsignedLongLong(_) => 'Q',
            StructValue::Float(_) => 'f',
            StructValue::Double(_) => 'd',
        }
    }

    /// The size in bytes of the item as it is held.
    pub open spec fn standard_width(self) -> nat {
        match self {
            StructValue::Char(_) | StructValue::SignedByte(_) | StructValue::UnsignedByte(_) => 1,
            StructValue::Short(_) | StructValue::UnsignedShort(_) => 2,
            StructValue::Int(_) | StructValue::UnsignedInt(_) | StructValue::Float(_) => 4,
            StructValue::Long(_) | StructValue::UnsignedLong(_) | StructValue::Double(_) => 8,
            StructValue::LongLong(_) | StructValue::UnsignedLongLong(_) => 16,
        }
    }

    /// The size in bytes that the item takes in the order `order`: that of
    /// the machine's C type where the order asks for the machine's sizes,
    /// else the size of the item as it is held.
    pub open spec fn width(self, order: StructOrder, native: NativeSizes) -> nat {
        if order is NativeOrderNative {
            match self {
                StructValue::Short(_) | StructValue::UnsignedShort(_) => native.short as nat,
                StructValue::Int(_) | StructValue::UnsignedInt(_) => native.int as nat,
                StructValue::Long(_) | StructValue::UnsignedLong(_) => native.long as nat,
                StructValue::LongLong(_) | StructValue::UnsignedLongLong(_) => native.longlong
                    as nat,
                _ => self.standard_width(),
            }
        } else {
            self.standard_width()
        }
    }

    /// Whether the item can be written in the order `order`: its size is
    /// between 1 and 16 bytes, and its number is one that so many bytes can
    /// hold.
    pub open spec fn fits(self, order: StructOrder, native: NativeSizes) -> bool {
        let w = self.width(order, native);
        &&& 1 <= w <= 16
        &&& if self.signed() {
            -pow256(w) <= 2 * self.number() < pow256(w)
        } else {
            0 <= self.number() < pow256(w)
        }
    }
}

/// The bytes of an item: its number in as many bytes as the item takes, in
/// two's complement where it is negative, in the byte order asked for.
pub open spec fn struct_bytes(
    v: StructValue,
    order: StructOrder,
    native: NativeSizes,
    little_machine: bool,
) -> Seq<u8> {
    let w = v.width(order, native);
    let u = unsigned_image(v.number(), w);
    if order.little(little_machine) {
        le_bytes(u, w)
    } else {
        be_bytes(u, w)
    }
}

/// The bytes of the first `n` items of a record, where each of them has a
/// value of the variant that its character stands for, and the value can
/// be written; else what is wrong with the first that has not.
pub open spec fn pack_items(
    items: Seq<char>,
    vals: Seq<StructValue>,
    n: nat,
    order: StructOrder,
    native: NativeSizes,
    little_machine: bool,
) -> Result<Seq<u8>, Seq<char>>
    decreases n,
{
    if n == 0 {
        Ok(Seq::empty())
    } else {
        match pack_items(items, vals, (n - 1) as nat, order, native, little_machine) {
            Err(e) => Err(e),
            Ok(b) => if n > vals.len() || vals[n - 1].code() != items[n - 1] {
                Err("bad char in struct format"@)
            } else if !vals[n - 1].fits(order, native) {
                Err("argument out of range"@)
            } else {
                Ok(b + struct_bytes(vals[n - 1], order, native, little_machine))
            },
        }
    }
}

/// The bytes of the record that `format` describes, made of the values
/// `vals`, or what is wrong. The first character of the format gives the
/// order; each character after it stands for one value, and each value
/// has to have its character.
pub open spec fn pack_spec(
    format: Seq<char>,
    vals: Seq<StructValue>,
    native: NativeSizes,
    little_machine: bool,
) -> Result<Seq<u8>, Seq<char>> {
    if format.len() == 0 {
        Err("bad char in struct format"@)
    } else {
        match StructOrder::of(format[0]) {
            None => Err("bad char in struct format"@),
            Some(order) => match pack_items(
                format.drop_first(),
                vals,
                (format.len() - 1) as nat,
                order,
                native,
                little_machine,
            ) {
                Err(e) => Err(e),
                Ok(b) => if vals.len() > format.len() - 1 {
                    Err("bad char in struct format"@)
                } else {
                    Ok(b)
                },
            },
        }
    }
}

/// 256 to the power `w`.
fn power_of_256(w: usize) -> (p: u128)
    requires
        w <= 15,
    ensures
        p == pow256(w as nat),
{
    let mut p: u128 = 1;
    let mut i: usize = 0;
    while i < w
        invariant
            i <= w <= 15,
            p == pow256(i as nat),
        decreases w - i,
    {
        proof {
            lemma_pow256_monotonic(i as nat, 14);
            lemma_pow256_values();
            reveal_with_fuel(pow256, 16);
        }
        p = p * 256;
        i = i + 1;
    }
    p
}

impl StructOrder {
    /// Whether the order puts the least significant byte first.
    pub fn is_little(self, little_machine: bool) -> (b: bool)
        ensures
            b == self.little(little_machine),
    {
        match self {
            StructOrder::NativeOrderNative | StructOrder::NativeOrderStandard => little_machine,
            StructOrder::LittleEndianStandard => true,
            StructOrder::BigEndianStandard => false,
        }
    }

    /// The order that the first character of a format asks for.
    pub fn from_char(c: char) -> (r: Option<StructOrder>)
        ensures
            r == StructOrder::of(c),
    {
        if c == '@' {
            Some(StructOrder::NativeOrderNative)
        } else if c == '=' {
            Some(StructOrder::NativeOrderStandard)
        } else if c == '<' {
            Some(StructOrder::LittleEndianStandard)
        } else if c == '>' || c == '!' {
            Some(StructOrder::BigEndianStandard)
        } else {
            None
        }
    }
}

impl StructValue {
    /// Whether the number is negative, and how large it is.
    fn sign_and_size(&self) -> (r: (bool, u128))
        ensures
            self.number() == (if r.0 {
                -(r.1 as int)
            } else {
                r.1 as int
            }),
            r.0 ==> r.1 > 0 && self.signed(),
    {
        let x: i128 = match self {
            StructValue::Char(x) => *x as i128,
            StructValue::SignedByte(x) => *x as i128,
            StructValue::UnsignedByte(x) => *x as i128,
            StructValue::Short(x) => *x as i128,
            StructValue::UnsignedShort(x) => *x as i128,
            StructValue::Int(x) => *x as i128,
            StructValue::UnsignedInt(x) => *x as i128,
            StructValue::Long(x) => *x as i128,
            StructValue::UnsignedLong(x) => *x as i128,
            StructValue::LongLong(x) => *x,
            StructValue::UnsignedLongLong(x) => {
                return (false, *x);
            },
            StructValue::Float(x) => *x as i128,
            StructValue::Double(x) => *x as i128,
        };
        if x >= 0 {
            (false, x as u128)
        } else if x == i128::MIN {
            (true, 0x8000_0000_0000_0000_0000_0000_0000_0000)
        } else {
            (true, (-x) as u128)
        }
    }

    /// Whether the item is a signed integer.
    pub fn is_signed(&self) -> (b: bool)
        ensures
            b == self.signed(),
    {
        match self {
            StructValue::SignedByte(_)
            | StructValue::Short(_)
            | StructValue::Int(_)
            | StructValue::Long(_)
            | StructValue::LongLong(_) => true,
            _ => false,
        }
    }

    /// The character that stands for an item of this variant in a format.
    pub fn format_char(&self) -> (c: char)
        ensures
            c == self.code(),
    {
        match self {
            StructValue::Char(_) => 'c',
            StructValue::SignedByte(_) => 'b',
            StructValue::UnsignedByte(_) => 'B',
            StructValue::Short(_) => 'h',
            StructValue::UnsignedShort(_) => 'H',
            StructValue::Int(_) => 'i',
            StructValue::UnsignedInt(_) => 'I',
            StructValue::Long(_) => 'l',
            StructValue::UnsignedLong(_) => 'L',
            StructValue::LongLong(_) => 'q',
            StructValue::UnsignedLongLong(_) => 'Q',
            StructValue::Float(_) => 'f',
            StructValue::Double(_) => 'd',
        }
    }

    /// The size in bytes that the item takes in the order `order`.
    pub fn size(&self, order: StructOrder, native: &NativeSizes) -> (w: usize)
        ensures
            w == self.width(order, *native),
    {
        let standard: usize = match self {
            StructValue::Char(_) | StructValue::SignedByte(_) | StructValue::UnsignedByte(_) => 1,
            StructValue::Short(_) | StructValue::UnsignedShort(_) => 2,
            StructValue::Int(_) | StructValue::UnsignedInt(_) | StructValue::Float(_) => 4,
            StructValue::Long(_) | StructValue::UnsignedLong(_) | StructValue::Double(_) => 8,
            StructValue::LongLong(_) | StructValue::UnsignedLongLong(_) => 16,
        };
        match order {
            StructOrder::NativeOrderNative => match self {
                StructValue::Short(_) | StructValue::UnsignedShort(_) => native.short,
                StructValue::Int(_) | StructValue::UnsignedInt(_) => native.int,
                StructValue::Long(_) | StructValue::UnsignedLong(_) => native.long,
                StructValue::LongLong(_) | StructValue::UnsignedLongLong(_) => native.longlong,
                _ => standard,
            },
            _ => standard,
        }
    }

    /// Whether the item can be written in the order `order`.
    pub fn can_be_written(&self, order: StructOrder, native: &NativeSizes) -> (b: bool)
        ensures
            b == self.fits(order, *native),
    {
        let w = self.size(order, native);
        if w < 1 || w > 16 {
            return false;
        }
        let (negative, size) = self.sign_and_size();
        proof {
            lemma_pow256_values();
        }
        if w == 16 {
            if self.is_signed() {
                if negative {
                    size <= 0x8000_0000_0000_0000_0000_0000_0000_0000
                } else {
                    size < 0x8000_0000_0000_0000_0000_0000_0000_0000
                }
            } else {
                true
            }
        } else {
            let all = power_of_256(w);
            if self.is_signed() {
                if negative {
                    size <= all / 2
                } else {
                    size < all / 2
                }
            } else {
                size < all
            }
        }
    }

    /// The bytes of the item in the order `order`, on a machine with the
    /// sizes `native` that puts the least significant byte first or does
    /// not.
    pub fn to_bytes(&self, order: StructOrder, native: &NativeSizes, little_machine: bool) -> (r:
        Vec<u8>)
        requires
            self.fits(order, *native),
        ensures
            r@ == struct_bytes(*self, order, *native, little_machine),
    {
        let w = self.size(order, native);
        let (negative, size) = self.sign_and_size();
        proof {
            lemma_pow256_values();
        }
        let image: u128 = if !negative {
            size
        } else if w == 16 {
            (u128::MAX - size) + 1
        } else {
            power_of_256(w) - size
        };
        let mut r: Vec<u8> = Vec::new();
        if order.is_little(little_machine) {
            push_le(&mut r, image, w);
        } else {
            push_be(&mut r, image, w);
        }
        assert(r@ =~= struct_bytes(*self, order, *native, little_machine));
        r
    }
}

proof fn lemma_pack_items_fails(
    items: Seq<char>,
    vals: Seq<StructValue>,
    n: nat,
    m: nat,
    order: StructOrder,
    native: NativeSizes,
    little_machine: bool,
)
    requires
        n <= m,
        pack_items(items, vals, n, order, native, little_machine) is Err,
    ensures
        pack_items(items, vals, m, order, native, little_machine) == pack_items(
            items,
            vals,
            n,
            order,
            native,
            little_machine,
        ),
    decreases m,
{
    if n < m {
        lemma_pack_items_fails(items, vals, n, (m - 1) as nat, order, native, little_machine);
    }
}

/// The bytes of the record that `format` describes, made of the values
/// `val`, on a machine with the sizes `native` that puts the least
/// significant byte first or does not. Fails where the format names no
/// order, where a value is not of the variant that its character stands
/// for, where there are more or fewer values than characters, and where a
/// value cannot be written in the size that the order gives it.
pub fn pack(format: &str, val: &[StructValue], native: &NativeSizes, little_machine: bool) -> (r:
    Result<Vec<u8>, &'static str>)
    ensures
        match pack_spec(format@, val@, *native, little_machine) {
            Ok(b) => r matches Ok(v) && v@ == b,
            Err(m) => r matches Err(e) && e@ == m,
        },
{
    let len = format.unicode_len();
    if len == 0 {
        return Err("bad char in struct format");
    }
    let order = match StructOrder::from_char(format.get_char(0)) {
        Some(order) => order,
        None => {
            return Err("bad char in struct format");
        },
    };
    let ghost items = format@.drop_first();
    let mut out: Vec<u8> = Vec::new();
    let mut i: usize = 1;
    while i < len
        invariant
            1 <= i <= len,
            len == format@.len(),
            items == format@.drop_first(),
            StructOrder::of(format@[0]) == Some(order),
            pack_items(items, val@, (i - 1) as nat, order, *native, little_machine) == Ok::<
                Seq<u8>,
                Seq<char>,
            >(out@),
        decreases len - i,
    {
        let c = format.get_char(i);
        assert(items[i - 1] == c);
        if i - 1 >= val.len() || val[i - 1].format_char() != c {
            proof {
                lemma_pack_items_fails(
                    items,
                    val@,
                    i as nat,
                    (len - 1) as nat,
                    order,
                    *native,
                    little_machine,
                );
            }
            return Err("bad char in struct format");
        }
        if !val[i - 1].can_be_written(order, native) {
            proof {
                lemma_pack_items_fails(
                    items,
                    val@,
                    i as nat,
                    (len - 1) as nat,
                    order,
                    *native,
                    little_machine,
                );
            }
            return Err("argument out of range");
        }
        let mut bytes = val[i - 1].to_bytes(order, native, little_machine);
        out.append(&mut bytes);
        i = i + 1;
    }
    if val.len() > len - 1 {
        return Err("bad char in struct format");
    }
    Ok(out)
}

} // verus!
