//! Numbers and byte strings as text.

use vstd::prelude::*;
use vstd::string::StringExecFns;

verus! {

/// The character for the digit `d`: `0` to `9`, then `a` to `f`.
pub open spec fn digit_char(d: nat) -> char {
    if d == 0 {
        '0'
    } else if d == 1 {
        '1'
    } else if d == 2 {
        '2'
    } else if d == 3 {
        '3'
    } else if d == 4 {
        '4'
    } else if d == 5 {
        '5'
    } else if d == 6 {
        '6'
    } else if d == 7 {
        '7'
    } else if d == 8 {
        '8'
    } else if d == 9 {
        '9'
    } else if d == 10 {
        'a'
    } else if d == 11 {
        'b'
    } else if d == 12 {
        'c'
    } else if d == 13 {
        'd'
    } else if d == 14 {
        'e'
    } else {
        'f'
    }
}

/// `v` in lower-case hexadecimal, with zeros in front up to `width` digits
/// and never fewer than one digit.
pub open spec fn hex(v: nat, width: nat) -> Seq<char>
    decreases v, width,
{
    if v < 16 && width <= 1 {
        seq![digit_char(v)]
    } else {
        hex(v / 16, if width > 0 {
            (width - 1) as nat
        } else {
            0
        }).push(digit_char(v % 16))
    }
}

/// `v` in decimal.
pub open spec fn dec(v: nat) -> Seq<char>
    decreases v,
{
    if v < 10 {
        seq![digit_char(v)]
    } else {
        dec(v / 10).push(digit_char(v % 10))
    }
}

/// `v` in decimal, with a minus sign where it is negative.
pub open spec fn dec_int(v: int) -> Seq<char> {
    if v < 0 {
        seq!['-'] + dec((-v) as nat)
    } else {
        dec(v as nat)
    }
}

/// The first `n` bytes of `b` in decimal, with a comma and a space between
/// one and the next.
pub open spec fn dec_list(b: Seq<u8>, n: nat) -> Seq<char>
    decreases n,
{
    if n == 0 {
        Seq::empty()
    } else if n == 1 {
        dec(b[0] as nat)
    } else {
        dec_list(b, (n - 1) as nat) + seq![',', ' '] + dec(b[n - 1] as nat)
    }
}

/// The bytes of `b` as a list in square brackets.
pub open spec fn bytes_text(b: Seq<u8>) -> Seq<char> {
    seq!['['] + dec_list(b, b.len()) + seq![']']
}

/// The text of one digit.
fn digit_text(d: u64) -> (s: &'static str)
    requires
        d < 16,
    ensures
        s@ == seq![digit_char(d as nat)],
{
    proof {
        reveal_strlit("0");
        reveal_strlit("1");
        reveal_strlit("2");
        reveal_strlit("3");
        reveal_strlit("4");
        reveal_strlit("5");
        reveal_strlit("6");
        reveal_strlit("7");
        reveal_strlit("8");
        reveal_strlit("9");
        reveal_strlit("a");
        reveal_strlit("b");
        reveal_strlit("c");
        reveal_strlit("d");
        reveal_strlit("e");
        reveal_strlit("f");
    }
    let s = if d == 0 {
        "0"
    } else if d == 1 {
        "1"
    } else if d == 2 {
        "2"
    } else if d == 3 {
        "3"
    } else if d == 4 {
        "4"
    } else if d == 5 {
        "5"
    } else if d == 6 {
        "6"
    } else if d == 7 {
        "7"
    } else if d == 8 {
        "8"
    } else if d == 9 {
        "9"
    } else if d == 10 {
        "a"
    } else if d == 11 {
        "b"
    } else if d == 12 {
        "c"
    } else if d == 13 {
        "d"
    } else if d == 14 {
        "e"
    } else {
        "f"
    };
    assert(s@ =~= seq![digit_char(d as nat)]);
    s
}

/// Appends `v` in hexadecimal to `out`, at least `width` digits wide.
pub fn push_hex(out: &mut String, v: u64, width: usize)
    ensures
        final(out)@ == old(out)@ + hex(v as nat, width as nat),
    decreases v, width,
{
    if v < 16 && width <= 1 {
        out.append(digit_text(v));
    } else {
        let ghost before = out@;
        push_hex(out, v / 16, if width > 0 {
            width - 1
        } else {
            0
        });
        out.append(digit_text(v % 16));
        assert(out@ =~= before + hex(v as nat, width as nat));
    }
}

/// Appends `v` in decimal to `out`.
pub fn push_dec(out: &mut String, v: u128)
    ensures
        final(out)@ == old(out)@ + dec(v as nat),
    decreases v,
{
    if v < 10 {
        out.append(digit_text(v as u64));
    } else {
        let ghost before = out@;
        push_dec(out, v / 10);
        out.append(digit_text((v % 10) as u64));
        assert(out@ =~= before + dec(v as nat));
    }
}

/// Appends `v` in decimal to `out`, with a minus sign where it is negative.
pub fn push_dec_int(out: &mut String, v: i128)
    ensures
        final(out)@ == old(out)@ + dec_int(v as int),
{
    if v < 0 {
        proof {
            reveal_strlit("-");
        }
        out.append("-");
        let ghost before = out@;
        let magnitude: u128 = if v == i128::MIN {
            0x8000_0000_0000_0000_0000_0000_0000_0000
        } else {
            (-v) as u128
        };
        push_dec(out, magnitude);
        assert(out@ =~= old(out)@ + dec_int(v as int));
    } else {
        push_dec(out, v as u128);
    }
}

/// Appends the text `t` to `out`.
pub fn push_text(out: &mut String, t: &str)
    ensures
        final(out)@ == old(out)@ + t@,
{
    out.append(t);
}

/// Appends the bytes of `b` to `out`, as a list in square brackets.
pub fn push_bytes_text(out: &mut String, b: &Vec<u8>)
    ensures
        final(out)@ == old(out)@ + bytes_text(b@),
{
    proof {
        reveal_strlit("[");
        reveal_strlit("]");
        reveal_strlit(", ");
    }
    out.append("[");
    let ghost opened = out@;
    let mut i: usize = 0;
    while i < b.len()
        invariant
            i <= b@.len(),
            out@ == opened + dec_list(b@, i as nat),
        decreases b@.len() - i,
    {
        proof {
            reveal_strlit(", ");
            assert(", "@ =~= seq![',', ' ']);
        }
        if i > 0 {
            out.append(", ");
        }
        push_dec(out, b[i] as u128);
        i = i + 1;
        assert(out@ =~= opened + dec_list(b@, i as nat));
    }
    out.append("]");
    assert(out@ =~= old(out)@ + bytes_text(b@));
}

/// The digit that the character `c` stands for; 0 for a character that is
/// no digit.
pub open spec fn digit_value(c: char) -> nat {
    if c == '1' {
        1
    } else if c == '2' {
        2
    } else if c == '3' {
        3
    } else if c == '4' {
        4
    } else if c == '5' {
        5
    } else if c == '6' {
        6
    } else if c == '7' {
        7
    } else if c == '8' {
        8
    } else if c == '9' {
        9
    } else if c == 'a' {
        10
    } else if c == 'b' {
        11
    } else if c == 'c' {
        12
    } else if c == 'd' {
        13
    } else if c == 'e' {
        14
    } else if c == 'f' {
        15
    } else {
        0
    }
}

/// The number that the hexadecimal digits of `s` stand for.
pub open spec fn hex_value(s: Seq<char>) -> nat
    decreases s.len(),
{
    if s.len() == 0 {
        0
    } else {
        16 * hex_value(s.drop_last()) + digit_value(s.last())
    }
}

/// 16 to the power `n`.
pub open spec fn pow16(n: nat) -> nat
    decreases n,
{
    if n == 0 {
        1
    } else {
        16 * pow16((n - 1) as nat)
    }
}

/// Reading the hexadecimal text of a number gives the number back.
pub proof fn lemma_hex_value(v: nat, width: nat)
    ensures
        hex_value(hex(v, width)) == v,
    decreases v, width,
{
    if v < 16 && width <= 1 {
        assert(seq![digit_char(v)].drop_last() =~= Seq::<char>::empty());
        assert(hex_value(Seq::<char>::empty()) == 0);
    } else {
        let rest = hex(
            v / 16,
            if width > 0 {
                (width - 1) as nat
            } else {
                0
            },
        );
        lemma_hex_value(
            v / 16,
            if width > 0 {
                (width - 1) as nat
            } else {
                0
            },
        );
        assert(hex(v, width).drop_last() =~= rest);
    }
}

/// A number that `width` digits can hold is written in exactly so many.
pub proof fn lemma_hex_len(v: nat, width: nat)
    requires
        width >= 1,
        v < pow16(width),
    ensures
        hex(v, width).len() == width,
    decreases width,
{
    reveal_with_fuel(pow16, 2);
    if v < 16 && width <= 1 {
    } else {
        lemma_hex_len(v / 16, (width - 1) as nat);
    }
}

} // verus!
