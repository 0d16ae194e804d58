//! Fixed-width integers on the wire: base-256 digits in either byte order,
//! two's complement for the signed kinds.

use vstd::prelude::*;

verus! {

/// The integer kinds a value can take: unsigned and signed, at 1, 2, 4, 8
/// and 16 bytes.
#[derive(Clone, Copy, Debug, PartialEq, Eq, Structural)]
pub enum IntKind {
    Byte,
    SignedByte,
    Short,
    SignedShort,
    Int,
    SignedInt,
    Long,
    SignedLong,
    LongLong,
    SignedLongLong,
}

impl IntKind {
    /// Number of bytes a value of this kind occupies.
    pub open spec fn width(self) -> nat {
        match self {
            IntKind::Byte | IntKind::SignedByte => 1,
            IntKind::Short | IntKind::SignedShort => 2,
            IntKind::Int | IntKind::SignedInt => 4,
            IntKind::Long | IntKind::SignedLong => 8,
            IntKind::LongLong | IntKind::SignedLongLong => 16,
        }
    }

    pub open spec fn signed(self) -> bool {
        match self {
            IntKind::SignedByte
            | IntKind::SignedShort
            | IntKind::SignedInt
            | IntKind::SignedLong
            | IntKind::SignedLongLong => true,
            _ => false,
        }
    }

    /// Smallest value of this kind.
    pub open spec fn min(self) -> int {
        match self {
            IntKind::SignedByte => i8::MIN as int,
            IntKind::SignedShort => i16::MIN as int,
            IntKind::SignedInt => i32::MIN as int,
            IntKind::SignedLong => i64::MIN as int,
            IntKind::SignedLongLong => i128::MIN as int,
            _ => 0,
        }
    }

    /// Largest value of this kind.
    pub open spec fn max(self) -> int {
        match self {
            IntKind::Byte => u8::MAX as int,
            IntKind::SignedByte => i8::MAX as int,
            IntKind::Short => u16::MAX as int,
            IntKind::SignedShort => i16::MAX as int,
            IntKind::Int => u32::MAX as int,
            IntKind::SignedInt => i32::MAX as int,
            IntKind::Long => u64::MAX as int,
            IntKind::SignedLong => i64::MAX as int,
            IntKind::LongLong => u128::MAX as int,
            IntKind::SignedLongLong => i128::MAX as int,
        }
    }

    /// The name of the kind.
    pub open spec fn name(self) -> Seq<char> {
        match self {
            IntKind::Byte => "Byte"@,
            IntKind::SignedByte => "SignedByte"@,
            IntKind::Short => "Short"@,
            IntKind::SignedShort => "SignedShort"@,
            IntKind::Int => "Int"@,
            IntKind::SignedInt => "SignedInt"@,
            IntKind::Long => "Long"@,
            IntKind::SignedLong => "SignedLong"@,
            IntKind::LongLong => "LongLong"@,
            IntKind::SignedLongLong => "SignedLongLong"@,
        }
    }

    /// Whether `v` is representable in this kind.
    pub open spec fn contains(self, v: int) -> bool {
        self.min() <= v <= self.max()
    }

    pub fn size(self) -> (n: usize)
        ensures
            n == self.width(),
    {
        match self {
            IntKind::Byte | IntKind::SignedByte => 1,
            IntKind::Short | IntKind::SignedShort => 2,
            IntKind::Int | IntKind::SignedInt => 4,
            IntKind::Long | IntKind::SignedLong => 8,
            IntKind::LongLong | IntKind::SignedLongLong => 16,
        }
    }

    pub fn is_signed(self) -> (b: bool)
        ensures
            b == self.signed(),
    {
        match self {
            IntKind::SignedByte
            | IntKind::SignedShort
            | IntKind::SignedInt
            | IntKind::SignedLong
            | IntKind::SignedLongLong => true,
            _ => false,
        }
    }
}

/// 256 to the power `n`: the number of values that `n` bytes can hold.
pub open spec fn pow256(n: nat) -> nat
    decreases n,
{
    if n == 0 {
        1
    } else {
        256 * pow256((n - 1) as nat)
    }
}

/// The `n` low base-256 digits of `v`, least significant first.
pub open spec fn le_bytes(v: nat, n: nat) -> Seq<u8>
    decreases n,
{
    if n == 0 {
        Seq::empty()
    } else {
        seq![(v % 256) as u8] + le_bytes(v / 256, (n - 1) as nat)
    }
}

/// The `n` low base-256 digits of `v`, most significant first.
pub open spec fn be_bytes(v: nat, n: nat) -> Seq<u8>
    decreases n,
{
    if n == 0 {
        Seq::empty()
    } else {
        be_bytes(v / 256, (n - 1) as nat).push((v % 256) as u8)
    }
}

/// The number whose base-256 digits, least significant first, are `s`.
pub open spec fn le_value(s: Seq<u8>) -> nat
    decreases s.len(),
{
    if s.len() == 0 {
        0
    } else {
        s[0] as nat + 256 * le_value(s.drop_first())
    }
}

/// The number whose base-256 digits, most significant first, are `s`.
pub open spec fn be_value(s: Seq<u8>) -> nat
    decreases s.len(),
{
    if s.len() == 0 {
        0
    } else {
        256 * be_value(s.drop_last()) + s.last() as nat
    }
}

/// The unsigned number that stands for `v` in `n` bytes: `v` itself, or its
/// two's complement when `v` is negative.
pub open spec fn unsigned_image(v: int, n: nat) -> nat {
    if v >= 0 {
        v as nat
    } else {
        (v + pow256(n)) as nat
    }
}

/// The signed number that the unsigned `u` stands for in `n` bytes.
pub open spec fn signed_value(u: nat, n: nat) -> int {
    if 2 * u < pow256(n) {
        u as int
    } else {
        u - pow256(n)
    }
}

/// The bytes of `v` as a value of `kind`, in the given byte order.
pub open spec fn encode_int(kind: IntKind, little: bool, v: int) -> Seq<u8> {
    let u = unsigned_image(v, kind.width());
    if little {
        le_bytes(u, kind.width())
    } else {
        be_bytes(u, kind.width())
    }
}

/// The value of `kind` that the bytes `s` hold in the given byte order.
pub open spec fn decode_int(kind: IntKind, little: bool, s: Seq<u8>) -> int {
    let u = if little {
        le_value(s)
    } else {
        be_value(s)
    };
    if kind.signed() {
        signed_value(u, kind.width())
    } else {
        u as int
    }
}

pub proof fn lemma_pow256_values()
    ensures
        pow256(0) == 1,
        pow256(1) == 0x100,
        pow256(2) == 0x1_0000,
        pow256(4) == 0x1_0000_0000,
        pow256(8) == 0x1_0000_0000_0000_0000,
        pow256(16) == 0x1_0000_0000_0000_0000_0000_0000_0000_0000,
{
    reveal_with_fuel(pow256, 17);
}

pub proof fn lemma_pow256_monotonic(a: nat, b: nat)
    requires
        a <= b,
    ensures
        0 < pow256(a) <= pow256(b),
    decreases b,
{
    if b == 0 {
    } else if a == b {
        lemma_pow256_monotonic((a - 1) as nat, (b - 1) as nat);
    } else {
        lemma_pow256_monotonic(a, (b - 1) as nat);
    }
}

/// A kind holds exactly as many values as its width in bytes allows.
pub proof fn lemma_kind_range(kind: IntKind)
    ensures
        kind.max() - kind.min() + 1 == pow256(kind.width()),
        kind.signed() ==> kind.min() == -kind.max() - 1,
        !kind.signed() ==> kind.min() == 0,
{
    lemma_pow256_values();
}

pub proof fn lemma_le_bytes_len(v: nat, n: nat)
    ensures
        le_bytes(v, n).len() == n,
    decreases n,
{
    if n > 0 {
        lemma_le_bytes_len(v / 256, (n - 1) as nat);
    }
}

pub proof fn lemma_be_bytes_len(v: nat, n: nat)
    ensures
        be_bytes(v, n).len() == n,
    decreases n,
{
    if n > 0 {
        lemma_be_bytes_len(v / 256, (n - 1) as nat);
    }
}

pub proof fn lemma_le_value_bound(s: Seq<u8>)
    ensures
        le_value(s) < pow256(s.len()),
    decreases s.len(),
{
    if s.len() > 0 {
        lemma_le_value_bound(s.drop_first());
    }
}

pub proof fn lemma_be_value_bound(s: Seq<u8>)
    ensures
        be_value(s) < pow256(s.len()),
    decreases s.len(),
{
    if s.len() > 0 {
        lemma_be_value_bound(s.drop_last());
    }
}

/// Reading back the little-endian digits of `v` gives `v`, when `v` fits.
pub proof fn lemma_le_value_of_bytes(v: nat, n: nat)
    requires
        v < pow256(n),
    ensures
        le_value(le_bytes(v, n)) == v,
    decreases n,
{
    if n > 0 {
        let rest = le_bytes(v / 256, (n - 1) as nat);
        let s = le_bytes(v, n);
        lemma_le_value_of_bytes(v / 256, (n - 1) as nat);
        assert(s.drop_first() =~= rest);
        assert(s[0] == (v % 256) as u8);
    }
}

/// Writing the value of `s` back as little-endian digits gives `s`.
pub proof fn lemma_le_bytes_of_value(s: Seq<u8>)
    ensures
        le_bytes(le_value(s), s.len()) == s,
    decreases s.len(),
{
    if s.len() > 0 {
        let v = le_value(s);
        lemma_le_bytes_of_value(s.drop_first());
        assert(v % 256 == s[0] as nat);
        assert(v / 256 == le_value(s.drop_first()));
        assert(le_bytes(v, s.len()) =~= s);
    }
}

/// Reading back the big-endian digits of `v` gives `v`, when `v` fits.
pub proof fn lemma_be_value_of_bytes(v: nat, n: nat)
    requires
        v < pow256(n),
    ensures
        be_value(be_bytes(v, n)) == v,
    decreases n,
{
    if n > 0 {
        let rest = be_bytes(v / 256, (n - 1) as nat);
        let s = be_bytes(v, n);
        lemma_be_value_of_bytes(v / 256, (n - 1) as nat);
        assert(s.drop_last() =~= rest);
        assert(s.last() == (v % 256) as u8);
    }
}

/// Writing the value of `s` back as big-endian digits gives `s`.
pub proof fn lemma_be_bytes_of_value(s: Seq<u8>)
    ensures
        be_bytes(be_value(s), s.len()) == s,
    decreases s.len(),
{
    if s.len() > 0 {
        let v = be_value(s);
        lemma_be_bytes_of_value(s.drop_last());
        assert(v % 256 == s.last() as nat);
        assert(v / 256 == be_value(s.drop_last()));
        assert(be_bytes(v, s.len()) =~= s);
    }
}

/// The two byte orders are mirror images of each other.
pub proof fn lemma_be_is_le_reversed(v: nat, n: nat)
    ensures
        be_bytes(v, n) == le_bytes(v, n).reverse(),
    decreases n,
{
    if n > 0 {
        lemma_be_is_le_reversed(v / 256, (n - 1) as nat);
        lemma_le_bytes_len(v / 256, (n - 1) as nat);
        lemma_be_bytes_len(v / 256, (n - 1) as nat);
        assert(be_bytes(v, n) =~= le_bytes(v, n).reverse());
    } else {
        assert(be_bytes(v, n) =~= le_bytes(v, n).reverse());
    }
}

/// A value in range of its kind is stood for by a number that fits the
/// kind's width, and reading that number as the kind gives the value back.
pub proof fn lemma_image_round_trip(kind: IntKind, v: int)
    requires
        kind.contains(v),
    ensures
        unsigned_image(v, kind.width()) < pow256(kind.width()),
        kind.signed() ==> signed_value(unsigned_image(v, kind.width()), kind.width()) == v,
        !kind.signed() ==> unsigned_image(v, kind.width()) == v,
{
    lemma_pow256_values();
}

/// Decoding the encoding of a value gives the value back, in both byte
/// orders and for every kind.
pub proof fn lemma_decode_encode(kind: IntKind, little: bool, v: int)
    requires
        kind.contains(v),
    ensures
        encode_int(kind, little, v).len() == kind.width(),
        decode_int(kind, little, encode_int(kind, little, v)) == v,
{
    let n = kind.width();
    let u = unsigned_image(v, n);
    lemma_image_round_trip(kind, v);
    if little {
        lemma_le_bytes_len(u, n);
        lemma_le_value_of_bytes(u, n);
    } else {
        lemma_be_bytes_len(u, n);
        lemma_be_value_of_bytes(u, n);
    }
}

/// Decoding `width` bytes gives a value of the kind, and encoding it gives
/// the same bytes back.
pub proof fn lemma_encode_decode(kind: IntKind, little: bool, s: Seq<u8>)
    requires
        s.len() == kind.width(),
    ensures
        kind.contains(decode_int(kind, little, s)),
        encode_int(kind, little, decode_int(kind, little, s)) == s,
{
    lemma_pow256_values();
    if little {
        lemma_le_value_bound(s);
        lemma_le_bytes_of_value(s);
    } else {
        lemma_be_value_bound(s);
        lemma_be_bytes_of_value(s);
    }
}

/// Appends the `n` low base-256 digits of `v` to `out`, least significant
/// first.
pub fn push_le(out: &mut Vec<u8>, v: u128, n: usize)
    ensures
        final(out)@ == old(out)@ + le_bytes(v as nat, n as nat),
    decreases n,
{
    if n > 0 {
        let ghost before = out@;
        out.push((v % 256) as u8);
        push_le(out, v / 256, n - 1);
        assert(out@ =~= before + le_bytes(v as nat, n as nat));
    } else {
        assert(out@ =~= old(out)@ + le_bytes(v as nat, n as nat));
    }
}

/// Appends the `n` low base-256 digits of `v` to `out`, most significant
/// first.
pub fn push_be(out: &mut Vec<u8>, v: u128, n: usize)
    ensures
        final(out)@ == old(out)@ + be_bytes(v as nat, n as nat),
    decreases n,
{
    if n > 0 {
        let ghost before = out@;
        push_be(out, v / 256, n - 1);
        out.push((v % 256) as u8);
        assert(out@ =~= before + be_bytes(v as nat, n as nat));
    } else {
        assert(out@ =~= old(out)@ + be_bytes(v as nat, n as nat));
    }
}

/// The number that the bytes of `s` hold, least significant byte first.
pub fn read_le(s: &[u8]) -> (v: u128)
    requires
        s@.len() <= 16,
    ensures
        v == le_value(s@),
{
    let mut v: u128 = 0;
    let mut i: usize = s.len();
    proof {
        assert(s@.skip(i as int) =~= Seq::<u8>::empty());
    }
    while i > 0
        invariant
            i <= s@.len() <= 16,
            v == le_value(s@.skip(i as int)),
        decreases i,
    {
        i = i - 1;
        proof {
            let tail = s@.skip(i as int);
            assert(tail.drop_first() =~= s@.skip(i + 1));
            lemma_le_value_bound(s@.skip(i + 1));
            lemma_pow256_monotonic((s@.len() - i - 1) as nat, 15);
            lemma_pow256_values();
            reveal_with_fuel(pow256, 16);
        }
        v = v * 256 + s[i] as u128;
    }
    proof {
        assert(s@.skip(0) =~= s@);
    }
    v
}

/// The number that the bytes of `s` hold, most significant byte first.
pub fn read_be(s: &[u8]) -> (v: u128)
    requires
        s@.len() <= 16,
    ensures
        v == be_value(s@),
{
    let mut v: u128 = 0;
    let mut i: usize = 0;
    proof {
        assert(s@.take(0) =~= Seq::<u8>::empty());
    }
    while i < s.len()
        invariant
            i <= s@.len() <= 16,
            v == be_value(s@.take(i as int)),
        decreases s@.len() - i,
    {
        proof {
            let head = s@.take(i + 1);
            assert(head.drop_last() =~= s@.take(i as int));
            lemma_be_value_bound(s@.take(i as int));
            lemma_pow256_monotonic(i as nat, 15);
            lemma_pow256_values();
            reveal_with_fuel(pow256, 16);
        }
        v = v * 256 + s[i] as u128;
        i = i + 1;
    }
    proof {
        assert(s@.take(s@.len() as int) =~= s@);
    }
    v
}

/// Appends the bytes of `s` to `out`.
pub fn extend_bytes(out: &mut Vec<u8>, s: &[u8])
    ensures
        final(out)@ == old(out)@ + s@,
{
    let mut i: usize = 0;
    while i < s.len()
        invariant
            i <= s@.len(),
            out@ == old(out)@ + s@.take(i as int),
        decreases s@.len() - i,
    {
        out.push(s[i]);
        i = i + 1;
        assert(out@ =~= old(out)@ + s@.take(i as int));
    }
    assert(s@.take(s@.len() as int) =~= s@);
}

/// The digits of zero are zeros, in either byte order.
pub proof fn lemma_zero_bytes(n: nat)
    ensures
        le_bytes(0, n) == Seq::new(n, |i: int| 0u8),
        be_bytes(0, n) == Seq::new(n, |i: int| 0u8),
    decreases n,
{
    if n > 0 {
        lemma_zero_bytes((n - 1) as nat);
        lemma_le_bytes_len(0, (n - 1) as nat);
        lemma_be_bytes_len(0, (n - 1) as nat);
    }
    assert(le_bytes(0, n) =~= Seq::new(n, |i: int| 0u8));
    assert(be_bytes(0, n) =~= Seq::new(n, |i: int| 0u8));
}

} // verus!
