//! A common interface to the byte conversions of the primitive integers.

use vstd::prelude::*;

use crate::wire::{
    decode_int, encode_int, lemma_be_bytes_len, lemma_be_value_bound, lemma_le_bytes_len,
    lemma_le_value_bound, lemma_pow256_values, pow256, push_be, push_le, read_be, read_le,
    signed_value, unsigned_image, IntKind,
};

verus! {

/// An integer type that converts to and from an array of as many bytes as it
/// is wide, in either byte order.
pub trait Int: Sized {
    type U8Array;

    /// Which of the integer kinds this type is.
    spec fn kind() -> IntKind;

    /// The number this value stands for.
    spec fn value(self) -> int;

    /// The bytes that an array holds, first to last.
    spec fn bytes(a: Self::U8Array) -> Seq<u8>;

    fn from_le_bytes(bytes: Self::U8Array) -> (x: Self)
        ensures
            x.value() == decode_int(Self::kind(), true, Self::bytes(bytes)),
    ;

    fn from_be_bytes(bytes: Self::U8Array) -> (x: Self)
        ensures
            x.value() == decode_int(Self::kind(), false, Self::bytes(bytes)),
    ;

    fn to_le_bytes(x: Self) -> (bytes: Self::U8Array)
        ensures
            Self::bytes(bytes) == encode_int(Self::kind(), true, x.value()),
    ;

    fn to_be_bytes(x: Self) -> (bytes: Self::U8Array)
        ensures
            Self::bytes(bytes) == encode_int(Self::kind(), false, x.value()),
    ;
}

/// The number that stands for `x` on the wire.
fn image_u8(x: u8) -> (u: u128)
    ensures
        u == unsigned_image(x as int, 1),
{
    x as u128
}

/// The value that the wire number `u` stands for.
fn value_u8(u: u128) -> (x: u8)
    requires
        u < pow256(1),
    ensures
        x == u,
{
    proof {
        lemma_pow256_values();
    }
    u as u8
}

impl Int for u8 {
    type U8Array = [u8; 1];

    open spec fn kind() -> IntKind {
        IntKind::Byte
    }

    open spec fn value(self) -> int {
        self as int
    }

    open spec fn bytes(a: [u8; 1]) -> Seq<u8> {
        a@
    }

    fn from_le_bytes(bytes: [u8; 1]) -> (x: u8) {
        let u = read_le(bytes.as_slice());
        proof {
            lemma_le_value_bound(bytes@);
        }
        value_u8(u)
    }

    fn from_be_bytes(bytes: [u8; 1]) -> (x: u8) {
        let u = read_be(bytes.as_slice());
        proof {
            lemma_be_value_bound(bytes@);
        }
        value_u8(u)
    }

    fn to_le_bytes(x: u8) -> (bytes: [u8; 1]) {
        let mut v: Vec<u8> = Vec::new();
        let u = image_u8(x);
        push_le(&mut v, u, 1);
        proof {
            lemma_le_bytes_len(u as nat, 1);
        }
        let bytes = [v[0]];
        assert(bytes@ =~= v@);
        bytes
    }

    fn to_be_bytes(x: u8) -> (bytes: [u8; 1]) {
        let mut v: Vec<u8> = Vec::new();
        let u = image_u8(x);
        push_be(&mut v, u, 1);
        proof {
            lemma_be_bytes_len(u as nat, 1);
        }
        let bytes = [v[0]];
        assert(bytes@ =~= v@);
        bytes
    }
}

/// The number that stands for `x` on the wire: its two's complement.
fn image_i8(x: i8) -> (u: u128)
    ensures
        u == unsigned_image(x as int, 1),
        u < pow256(1),
{
    proof {
        lemma_pow256_values();
    }
    if x >= 0 {
        x as u128
    } else {
        (x as i128 + 0x100) as u128
    }
}

/// The value that the wire number `u` stands for.
fn value_i8(u: u128) -> (x: i8)
    requires
        u < pow256(1),
    ensures
        x == signed_value(u as nat, 1),
{
    proof {
        lemma_pow256_values();
    }
    if u < 0x80 {
        u as i8
    } else {
        (u as i128 - 0x100) as i8
    }
}

impl Int for i8 {
    type U8Array = [u8; 1];

    open spec fn kind() -> IntKind {
        IntKind::SignedByte
    }

    open spec fn value(self) -> int {
        self as int
    }

    open spec fn bytes(a: [u8; 1]) -> Seq<u8> {
        a@
    }

    fn from_le_bytes(bytes: [u8; 1]) -> (x: i8) {
        let u = read_le(bytes.as_slice());
        proof {
            lemma_le_value_bound(bytes@);
        }
        value_i8(u)
    }

    fn from_be_bytes(bytes: [u8; 1]) -> (x: i8) {
        let u = read_be(bytes.as_slice());
        proof {
            lemma_be_value_bound(bytes@);
        }
        value_i8(u)
    }

    fn to_le_bytes(x: i8) -> (bytes: [u8; 1]) {
        let mut v: Vec<u8> = Vec::new();
        let u = image_i8(x);
        push_le(&mut v, u, 1);
        proof {
            lemma_le_bytes_len(u as nat, 1);
        }
        let bytes = [v[0]];
        assert(bytes@ =~= v@);
        bytes
    }

    fn to_be_bytes(x: i8) -> (bytes: [u8; 1]) {
        let mut v: Vec<u8> = Vec::new();
        let u = image_i8(x);
        push_be(&mut v, u, 1);
        proof {
            lemma_be_bytes_len(u as nat, 1);
        }
        let bytes = [v[0]];
        assert(bytes@ =~= v@);
        bytes
    }
}

/// The number that stands for `x` on the wire.
fn image_u16(x: u16) -> (u: u128)
    ensures
        u == unsigned_image(x as int, 2),
{
    x as u128
}

/// The value that the wire number `u` stands for.
fn value_u16(u: u128) -> (x: u16)
    requires
        u < pow256(2),
    ensures
        x == u,
{
    proof {
        lemma_pow256_values();
    }
    u as u16
}

impl Int for u16 {
    type U8Array = [u8; 2];

    open spec fn kind() -> IntKind {
        IntKind::Short
    }

    open spec fn value(self) -> int {
        self as int
    }

    open spec fn bytes(a: [u8; 2]) -> Seq<u8> {
        a@
    }

    fn from_le_bytes(bytes: [u8; 2]) -> (x: u16) {
        let u = read_le(bytes.as_slice());
        proof {
            lemma_le_value_bound(bytes@);
        }
        value_u16(u)
    }

    fn from_be_bytes(bytes: [u8; 2]) -> (x: u16) {
        let u = read_be(bytes.as_slice());
        proof {
            lemma_be_value_bound(bytes@);
        }
        value_u16(u)
    }

    fn to_le_bytes(x: u16) -> (bytes: [u8; 2]) {
        let mut v: Vec<u8> = Vec::new();
        let u = image_u16(x);
        push_le(&mut v, u, 2);
        proof {
            lemma_le_bytes_len(u as nat, 2);
        }
        let bytes = [v[0], v[1]];
        assert(bytes@ =~= v@);
        bytes
    }

    fn to_be_bytes(x: u16) -> (bytes: [u8; 2]) {
        let mut v: Vec<u8> = Vec::new();
        let u = image_u16(x);
        push_be(&mut v, u, 2);
        proof {
            lemma_be_bytes_len(u as nat, 2);
        }
        let bytes = [v[0], v[1]];
        assert(bytes@ =~= v@);
        bytes
    }
}

/// The number that stands for `x` on the wire: its two's complement.
fn image_i16(x: i16) -> (u: u128)
    ensures
        u == unsigned_image(x as int, 2),
        u < pow256(2),
{
    proof {
        lemma_pow256_values();
    }
    if x >= 0 {
        x as u128
    } else {
        (x as i128 + 0x1_0000) as u128
    }
}

/// The value that the wire number `u` stands for.
fn value_i16(u: u128) -> (x: i16)
    requires
        u < pow256(2),
    ensures
        x == signed_value(u as nat, 2),
{
    proof {
        lemma_pow256_values();
    }
    if u < 0x8000 {
        u as i16
    } else {
        (u as i128 - 0x1_0000) as i16
    }
}

impl Int for i16 {
    type U8Array = [u8; 2];

    open spec fn kind() -> IntKind {
        IntKind::SignedShort
    }

    open spec fn value(self) -> int {
        self as int
    }

    open spec fn bytes(a: [u8; 2]) -> Seq<u8> {
        a@
    }

    fn from_le_bytes(bytes: [u8; 2]) -> (x: i16) {
        let u = read_le(bytes.as_slice());
        proof {
            lemma_le_value_bound(bytes@);
        }
        value_i16(u)
    }

    fn from_be_bytes(bytes: [u8; 2]) -> (x: i16) {
        let u = read_be(bytes.as_slice());
        proof {
            lemma_be_value_bound(bytes@);
        }
        value_i16(u)
    }

    fn to_le_bytes(x: i16) -> (bytes: [u8; 2]) {
        let mut v: Vec<u8> = Vec::new();
        let u = image_i16(x);
        push_le(&mut v, u, 2);
        proof {
            lemma_le_bytes_len(u as nat, 2);
        }
        let bytes = [v[0], v[1]];
        assert(bytes@ =~= v@);
        bytes
    }

    fn to_be_bytes(x: i16) -> (bytes: [u8; 2]) {
        let mut v: Vec<u8> = Vec::new();
        let u = image_i16(x);
        push_be(&mut v, u, 2);
        proof {
            lemma_be_bytes_len(u as nat, 2);
        }
        let bytes = [v[0], v[1]];
        assert(bytes@ =~= v@);
        bytes
    }
}

/// The number that stands for `x` on the wire.
fn image_u32(x: u32) -> (u: u128)
    ensures
        u == unsigned_image(x as int, 4),
{
    x as u128
}

/// The value that the wire number `u` stands for.
fn value_u32(u: u128) -> (x: u32)
    requires
        u < pow256(4),
    ensures
        x == u,
{
    proof {
        lemma_pow256_values();
    }
    u as u32
}

impl Int for u32 {
    type U8Array = [u8; 4];

    open spec fn kind() -> IntKind {
        IntKind::Int
    }

    open spec fn value(self) -> int {
        self as int
    }

    open spec fn bytes(a: [u8; 4]) -> Seq<u8> {
        a@
    }

    fn from_le_bytes(bytes: [u8; 4]) -> (x: u32) {
        let u = read_le(bytes.as_slice());
        proof {
            lemma_le_value_bound(bytes@);
        }
        value_u32(u)
    }

    fn from_be_bytes(bytes: [u8; 4]) -> (x: u32) {
        let u = read_be(bytes.as_slice());
        proof {
            lemma_be_value_bound(bytes@);
        }
        value_u32(u)
    }

    fn to_le_bytes(x: u32) -> (bytes: [u8; 4]) {
        let mut v: Vec<u8> = Vec::new();
        let u = image_u32(x);
        push_le(&mut v, u, 4);
        proof {
            lemma_le_bytes_len(u as nat, 4);
        }
        let bytes = [v[0], v[1], v[2], v[3]];
        assert(bytes@ =~= v@);
        bytes
    }

    fn to_be_bytes(x: u32) -> (bytes: [u8; 4]) {
        let mut v: Vec<u8> = Vec::new();
        let u = image_u32(x);
        push_be(&mut v, u, 4);
        proof {
            lemma_be_bytes_len(u as nat, 4);
        }
        let bytes = [v[0], v[1], v[2], v[3]];
        assert(bytes@ =~= v@);
        bytes
    }
}

/// The number that stands for `x` on the wire: its two's complement.
fn image_i32(x: i32) -> (u: u128)
    ensures
        u == unsigned_image(x as int, 4),
        u < pow256(4),
{
    proof {
        lemma_pow256_values();
    }
    if x >= 0 {
        x as u128
    } else {
        (x as i128 + 0x1_0000_0000) as u128
    }
}

/// The value that the wire number `u` stands for.
fn value_i32(u: u128) -> (x: i32)
    requires
        u < pow256(4),
    ensures
        x == signed_value(u as nat, 4),
{
    proof {
        lemma_pow256_values();
    }
    if u < 0x8000_0000 {
        u as i32
    } else {
        (u as i128 - 0x1_0000_0000) as i32
    }
}

impl Int for i32 {
    type U8Array = [u8; 4];

    open spec fn kind() -> IntKind {
        IntKind::SignedInt
    }

    open spec fn value(self) -> int {
        self as int
    }

    open spec fn bytes(a: [u8; 4]) -> Seq<u8> {
        a@
    }

    fn from_le_bytes(bytes: [u8; 4]) -> (x: i32) {
        let u = read_le(bytes.as_slice());
        proof {
            lemma_le_value_bound(bytes@);
        }
        value_i32(u)
    }

    fn from_be_bytes(bytes: [u8; 4]) -> (x: i32) {
        let u = read_be(bytes.as_slice());
        proof {
            lemma_be_value_bound(bytes@);
        }
        value_i32(u)
    }

    fn to_le_bytes(x: i32) -> (bytes: [u8; 4]) {
        let mut v: Vec<u8> = Vec::new();
        let u = image_i32(x);
        push_le(&mut v, u, 4);
        proof {
            lemma_le_bytes_len(u as nat, 4);
        }
        let bytes = [v[0], v[1], v[2], v[3]];
        assert(bytes@ =~= v@);
        bytes
    }

    fn to_be_bytes(x: i32) -> (bytes: [u8; 4]) {
        let mut v: Vec<u8> = Vec::new();
        let u = image_i32(x);
        push_be(&mut v, u, 4);
        proof {
            lemma_be_bytes_len(u as nat, 4);
        }
        let bytes = [v[0], v[1], v[2], v[3]];
        assert(bytes@ =~= v@);
        bytes
    }
}

/// The number that stands for `x` on the wire.
fn image_u64(x: u64) -> (u: u128)
    ensures
        u == unsigned_image(x as int, 8),
{
    x as u128
}

/// The value that the wire number `u` stands for.
fn value_u64(u: u128) -> (x: u64)
    requires
        u < pow256(8),
    ensures
        x == u,
{
    proof {
        lemma_pow256_values();
    }
    u as u64
}

impl Int for u64 {
    type U8Array = [u8; 8];

    open spec fn kind() -> IntKind {
        IntKind::Long
    }

    open spec fn value(self) -> int {
        self as int
    }

    open spec fn bytes(a: [u8; 8]) -> Seq<u8> {
        a@
    }

    fn from_le_bytes(bytes: [u8; 8]) -> (x: u64) {
        let u = read_le(bytes.as_slice());
        proof {
            lemma_le_value_bound(bytes@);
        }
        value_u64(u)
    }

    fn from_be_bytes(bytes: [u8; 8]) -> (x: u64) {
        let u = read_be(bytes.as_slice());
        proof {
            lemma_be_value_bound(bytes@);
        }
        value_u64(u)
    }

    fn to_le_bytes(x: u64) -> (bytes: [u8; 8]) {
        let mut v: Vec<u8> = Vec::new();
        let u = image_u64(x);
        push_le(&mut v, u, 8);
        proof {
            lemma_le_bytes_len(u as nat, 8);
        }
        let bytes = [v[0], v[1], v[2], v[3], v[4], v[5], v[6], v[7]];
        assert(bytes@ =~= v@);
        bytes
    }

    fn to_be_bytes(x: u64) -> (bytes: [u8; 8]) {
        let mut v: Vec<u8> = Vec::new();
        let u = image_u64(x);
        push_be(&mut v, u, 8);
        proof {
            lemma_be_bytes_len(u as nat, 8);
        }
        let bytes = [v[0], v[1], v[2], v[3], v[4], v[5], v[6], v[7]];
        assert(bytes@ =~= v@);
        bytes
    }
}

/// The number that stands for `x` on the wire: its two's complement.
fn image_i64(x: i64) -> (u: u128)
    ensures
        u == unsigned_image(x as int, 8),
        u < pow256(8),
{
    proof {
        lemma_pow256_values();
    }
    if x >= 0 {
        x as u128
    } else {
        (x as i128 + 0x1_0000_0000_0000_0000) as u128
    }
}

/// The value that the wire number `u` stands for.
fn value_i64(u: u128) -> (x: i64)
    requires
        u < pow256(8),
    ensures
        x == signed_value(u as nat, 8),
{
    proof {
        lemma_pow256_values();
    }
    if u < 0x8000_0000_0000_0000 {
        u as i64
    } else {
        (u as i128 - 0x1_0000_0000_0000_0000) as i64
    }
}

impl Int for i64 {
    type U8Array = [u8; 8];

    open spec fn kind() -> IntKind {
        IntKind::SignedLong
    }

    open spec fn value(self) -> int {
        self as int
    }

    open spec fn bytes(a: [u8; 8]) -> Seq<u8> {
        a@
    }

    fn from_le_bytes(bytes: [u8; 8]) -> (x: i64) {
        let u = read_le(bytes.as_slice());
        proof {
            lemma_le_value_bound(bytes@);
        }
        value_i64(u)
    }

    fn from_be_bytes(bytes: [u8; 8]) -> (x: i64) {
        let u = read_be(bytes.as_slice());
        proof {
            lemma_be_value_bound(bytes@);
        }
        value_i64(u)
    }

    fn to_le_bytes(x: i64) -> (bytes: [u8; 8]) {
        let mut v: Vec<u8> = Vec::new();
        let u = image_i64(x);
        push_le(&mut v, u, 8);
        proof {
            lemma_le_bytes_len(u as nat, 8);
        }
        let bytes = [v[0], v[1], v[2], v[3], v[4], v[5], v[6], v[7]];
        assert(bytes@ =~= v@);
        bytes
    }

    fn to_be_bytes(x: i64) -> (bytes: [u8; 8]) {
        let mut v: Vec<u8> = Vec::new();
        let u = image_i64(x);
        push_be(&mut v, u, 8);
        proof {
            lemma_be_bytes_len(u as nat, 8);
        }
        let bytes = [v[0], v[1], v[2], v[3], v[4], v[5], v[6], v[7]];
        assert(bytes@ =~= v@);
        bytes
    }
}

/// The number that stands for `x` on the wire.
fn image_u128(x: u128) -> (u: u128)
    ensures
        u == unsigned_image(x as int, 16),
{
    x as u128
}

/// The value that the wire number `u` stands for.
fn value_u128(u: u128) -> (x: u128)
    requires
        u < pow256(16),
    ensures
        x == u,
{
    proof {
        lemma_pow256_values();
    }
    u as u128
}

impl Int for u128 {
    type U8Array = [u8; 16];

    open spec fn kind() -> IntKind {
        IntKind::LongLong
    }

    open spec fn value(self) -> int {
        self as int
    }

    open spec fn bytes(a: [u8; 16]) -> Seq<u8> {
        a@
    }

    fn from_le_bytes(bytes: [u8; 16]) -> (x: u128) {
        let u = read_le(bytes.as_slice());
        proof {
            lemma_le_value_bound(bytes@);
        }
        value_u128(u)
    }

    fn from_be_bytes(bytes: [u8; 16]) -> (x: u128) {
        let u = read_be(bytes.as_slice());
        proof {
            lemma_be_value_bound(bytes@);
        }
        value_u128(u)
    }

    fn to_le_bytes(x: u128) -> (bytes: [u8; 16]) {
        let mut v: Vec<u8> = Vec::new();
        let u = image_u128(x);
        push_le(&mut v, u, 16);
        proof {
            lemma_le_bytes_len(u as nat, 16);
        }
        let bytes = [v[0], v[1], v[2], v[3], v[4], v[5], v[6], v[7], v[8], v[9], v[10], v[11], v[12], v[13], v[14], v[15]];
        assert(bytes@ =~= v@);
        bytes
    }

    fn to_be_bytes(x: u128) -> (bytes: [u8; 16]) {
        let mut v: Vec<u8> = Vec::new();
        let u = image_u128(x);
        push_be(&mut v, u, 16);
        proof {
            lemma_be_bytes_len(u as nat, 16);
        }
        let bytes = [v[0], v[1], v[2], v[3], v[4], v[5], v[6], v[7], v[8], v[9], v[10], v[11], v[12], v[13], v[14], v[15]];
        assert(bytes@ =~= v@);
        bytes
    }
}

/// The number that stands for `x` on the wire: its two's complement.
fn image_i128(x: i128) -> (u: u128)
    ensures
        u == unsigned_image(x as int, 16),
{
    proof {
        lemma_pow256_values();
    }
    if x >= 0 {
        x as u128
    } else {
        ((x - i128::MIN) as u128) + 0x8000_0000_0000_0000_0000_0000_0000_0000
    }
}

/// The value that the wire number `u` stands for.
fn value_i128(u: u128) -> (x: i128)
    ensures
        x == signed_value(u as nat, 16),
{
    proof {
        lemma_pow256_values();
    }
    if u < 0x8000_0000_0000_0000_0000_0000_0000_0000 {
        u as i128
    } else {
        ((u - 0x8000_0000_0000_0000_0000_0000_0000_0000) as i128) + i128::MIN
    }
}

impl Int for i128 {
    type U8Array = [u8; 16];

    open spec fn kind() -> IntKind {
        IntKind::SignedLongLong
    }

    open spec fn value(self) -> int {
        self as int
    }

    open spec fn bytes(a: [u8; 16]) -> Seq<u8> {
        a@
    }

    fn from_le_bytes(bytes: [u8; 16]) -> (x: i128) {
        let u = read_le(bytes.as_slice());
        proof {
            lemma_le_value_bound(bytes@);
        }
        value_i128(u)
    }

    fn from_be_bytes(bytes: [u8; 16]) -> (x: i128) {
        let u = read_be(bytes.as_slice());
        proof {
            lemma_be_value_bound(bytes@);
        }
        value_i128(u)
    }

    fn to_le_bytes(x: i128) -> (bytes: [u8; 16]) {
        let mut v: Vec<u8> = Vec::new();
        let u = image_i128(x);
        push_le(&mut v, u, 16);
        proof {
            lemma_le_bytes_len(u as nat, 16);
        }
        let bytes = [v[0], v[1], v[2], v[3], v[4], v[5], v[6], v[7], v[8], v[9], v[10], v[11], v[12], v[13], v[14], v[15]];
        assert(bytes@ =~= v@);
        bytes
    }

    fn to_be_bytes(x: i128) -> (bytes: [u8; 16]) {
        let mut v: Vec<u8> = Vec::new();
        let u = image_i128(x);
        push_be(&mut v, u, 16);
        proof {
            lemma_be_bytes_len(u as nat, 16);
        }
        let bytes = [v[0], v[1], v[2], v[3], v[4], v[5], v[6], v[7], v[8], v[9], v[10], v[11], v[12], v[13], v[14], v[15]];
        assert(bytes@ =~= v@);
        bytes
    }
}

} // verus!
