//! Identifiers for packet classes, made from the clock.

use std::time::{Duration, SystemTime, SystemTimeError, UNIX_EPOCH};
use vstd::prelude::*;

use crate::text::{hex, hex_value, lemma_hex_len, lemma_hex_value, pow16, push_hex, push_text};

verus! {

/// `std::time::SystemTime`: a reading of the system clock. It is carried
/// from one call to the next; nothing is known of what it holds.
#[verifier::external_type_specification]
#[verifier::external_body]
pub struct ExSystemTime(SystemTime);

/// `std::time::SystemTimeError`: what `duration_since` gives where the
/// clock reads earlier than the instant it is compared with. Nothing is
/// known of what it holds.
#[verifier::external_type_specification]
#[verifier::external_body]
pub struct ExSystemTimeError(SystemTimeError);

/// `SystemTime::now`: what the system clock reads at the moment of the
/// call. Nothing is claimed of the reading.
#[verifier::external_body]
fn clock_now() -> SystemTime {
    SystemTime::now()
}

/// `SystemTime::duration_since`, taken from the Unix epoch: the time that
/// lies between the epoch and `t`, or an error where `t` is earlier than
/// the epoch. Nothing is claimed of either.
#[verifier::external_body]
fn since_epoch(t: &SystemTime) -> Result<Duration, SystemTimeError> {
    t.duration_since(UNIX_EPOCH)
}

/// `Duration::as_nanos`: the whole of the duration in nanoseconds. Nothing
/// is claimed of the number.
#[verifier::external_body]
fn whole_nanos(d: &Duration) -> u128 {
    d.as_nanos()
}

/// The identifier made of a count of nanoseconds: the two bytes `50 59`
/// and the sixteen bytes of the count, most significant first, written as
/// five groups of hexadecimal digits with hyphens between them. The groups
/// hold 4, 2, 2, 2 and 8 of the bytes; the last has at least twelve digits.
pub open spec fn uuid_text(nanos: u128) -> Seq<char> {
    let n = nanos as nat;
    hex(0x5059_0000 + n / 0x1_0000_0000_0000_0000_0000_0000_0000, 8) + "-"@ + hex(
        n / 0x1_0000_0000_0000_0000_0000_0000 % 0x1_0000,
        4,
    ) + "-"@ + hex(n / 0x1_0000_0000_0000_0000_0000 % 0x1_0000, 4) + "-"@ + hex(
        n / 0x1_0000_0000_0000_0000 % 0x1_0000,
        4,
    ) + "-"@ + hex(n % 0x1_0000_0000_0000_0000, 12)
}

/// The identifier made of a count of nanoseconds.
pub fn uuid_from_nanos(nanos: u128) -> (s: String)
    ensures
        s@ == uuid_text(nanos),
{
    let g1: u64 = (0x5059_0000 + nanos / 0x1_0000_0000_0000_0000_0000_0000_0000) as u64;
    let g2: u64 = (nanos / 0x1_0000_0000_0000_0000_0000_0000 % 0x1_0000) as u64;
    let g3: u64 = (nanos / 0x1_0000_0000_0000_0000_0000 % 0x1_0000) as u64;
    let g4: u64 = (nanos / 0x1_0000_0000_0000_0000 % 0x1_0000) as u64;
    let g5: u64 = (nanos % 0x1_0000_0000_0000_0000) as u64;
    let mut s = String::new();
    push_hex(&mut s, g1, 8);
    push_text(&mut s, "-");
    push_hex(&mut s, g2, 4);
    push_text(&mut s, "-");
    push_hex(&mut s, g3, 4);
    push_text(&mut s, "-");
    push_hex(&mut s, g4, 4);
    push_text(&mut s, "-");
    push_hex(&mut s, g5, 12);
    assert(s@ =~= uuid_text(nanos));
    s
}

/// An identifier made of the time that the system clock reads, counted in
/// nanoseconds from the Unix epoch. A clock that reads earlier than the
/// epoch counts as reading the epoch.
pub fn generate_uuid() -> (s: String)
    ensures
        exists|nanos: u128| s@ == uuid_text(nanos),
{
    let start = clock_now();
    let nanos = match since_epoch(&start) {
        Ok(since_the_epoch) => whole_nanos(&since_the_epoch),
        Err(_) => 0,
    };
    uuid_from_nanos(nanos)
}

/// The five groups of an identifier: the numbers that its hexadecimal
/// groups stand for.
pub open spec fn uuid_groups(nanos: u128) -> (nat, nat, nat, nat, nat) {
    let n = nanos as nat;
    (
        0x5059_0000 + n / 0x1_0000_0000_0000_0000_0000_0000_0000,
        n / 0x1_0000_0000_0000_0000_0000_0000 % 0x1_0000,
        n / 0x1_0000_0000_0000_0000_0000 % 0x1_0000,
        n / 0x1_0000_0000_0000_0000 % 0x1_0000,
        n % 0x1_0000_0000_0000_0000,
    )
}

proof fn lemma_uuid_parts(nanos: u128)
    ensures
        ({
            let t = uuid_text(nanos);
            let g = uuid_groups(nanos);
            &&& t.len() >= 25
            &&& hex_value(t.subrange(0, 8)) == g.0
            &&& hex_value(t.subrange(9, 13)) == g.1
            &&& hex_value(t.subrange(14, 18)) == g.2
            &&& hex_value(t.subrange(19, 23)) == g.3
            &&& hex_value(t.skip(24)) == g.4
        }),
{
    let g = uuid_groups(nanos);
    let a = hex(g.0, 8);
    let b = hex(g.1, 4);
    let c = hex(g.2, 4);
    let d = hex(g.3, 4);
    let e = hex(g.4, 12);
    reveal_strlit("-");
    reveal_with_fuel(pow16, 9);
    lemma_hex_len(g.0, 8);
    lemma_hex_len(g.1, 4);
    lemma_hex_len(g.2, 4);
    lemma_hex_len(g.3, 4);
    lemma_hex_value(g.0, 8);
    lemma_hex_value(g.1, 4);
    lemma_hex_value(g.2, 4);
    lemma_hex_value(g.3, 4);
    lemma_hex_value(g.4, 12);
    let t = uuid_text(nanos);
    assert(t == a + "-"@ + b + "-"@ + c + "-"@ + d + "-"@ + e);
    assert(e.len() >= 1) by {
        if e.len() == 0 {
            assert(hex_value(e) == 0);
            assert(hex(g.4, 12).len() >= 1);
        }
    }
    assert(t.subrange(0, 8) =~= a);
    assert(t.subrange(9, 13) =~= b);
    assert(t.subrange(14, 18) =~= c);
    assert(t.subrange(19, 23) =~= d);
    assert(t.skip(24) =~= e);
}

/// Two counts of nanoseconds give two identifiers: the text of one is
/// never that of another.
pub proof fn lemma_uuid_distinct(a: u128, b: u128)
    requires
        a != b,
    ensures
        uuid_text(a) != uuid_text(b),
{
    lemma_uuid_parts(a);
    lemma_uuid_parts(b);
    if uuid_text(a) == uuid_text(b) {
        assert(uuid_groups(a) == uuid_groups(b));
        lemma_groups_decide(a, b);
    }
}

proof fn lemma_groups_decide(a: u128, b: u128)
    requires
        uuid_groups(a) == uuid_groups(b),
    ensures
        a == b,
{
    assert(a / 0x1_0000_0000_0000_0000_0000_0000_0000 == b / 0x1_0000_0000_0000_0000_0000_0000_0000);
    assert(a / 0x1_0000_0000_0000_0000_0000_0000 % 0x1_0000 == b
        / 0x1_0000_0000_0000_0000_0000_0000 % 0x1_0000);
    assert(a / 0x1_0000_0000_0000_0000_0000 % 0x1_0000 == b / 0x1_0000_0000_0000_0000_0000
        % 0x1_0000);
    assert(a / 0x1_0000_0000_0000_0000 % 0x1_0000 == b / 0x1_0000_0000_0000_0000 % 0x1_0000);
    assert(a % 0x1_0000_0000_0000_0000 == b % 0x1_0000_0000_0000_0000);
    assert(a == b) by (bit_vector)
        requires
            a / 0x1_0000_0000_0000_0000_0000_0000_0000u128 == b
                / 0x1_0000_0000_0000_0000_0000_0000_0000u128,
            a / 0x1_0000_0000_0000_0000_0000_0000u128 % 0x1_0000u128 == b
                / 0x1_0000_0000_0000_0000_0000_0000u128 % 0x1_0000u128,
            a / 0x1_0000_0000_0000_0000_0000u128 % 0x1_0000u128 == b
                / 0x1_0000_0000_0000_0000_0000u128 % 0x1_0000u128,
            a / 0x1_0000_0000_0000_0000u128 % 0x1_0000u128 == b / 0x1_0000_0000_0000_0000u128
                % 0x1_0000u128,
            a % 0x1_0000_0000_0000_0000u128 == b % 0x1_0000_0000_0000_0000u128,
    ;
}

} // verus!
