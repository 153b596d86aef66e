//! Text forms of node addresses.

use vstd::prelude::*;
use vstd::string::StringExecFns;

use crate::wire::NodeAddress;

verus! {

/// The upper-case hexadecimal digit of `d`.
pub open spec fn hex_char(d: u8) -> char {
    if d < 10 {
        ((d + 48) as u8) as char
    } else {
        ((d + 55) as u8) as char
    }
}

/// A byte as `{:#02X}` writes it: `0x`, then its upper-case hexadecimal
/// digits without leading zeros (the width of 2 is taken by the prefix).
pub open spec fn byte_text(b: u8) -> Seq<char> {
    if b < 16 {
        seq!['0', 'x', hex_char(b)]
    } else {
        seq!['0', 'x', hex_char(b / 16), hex_char(b % 16)]
    }
}

/// An address as six such bytes separated by colons.
pub open spec fn address_text(a: Seq<u8>) -> Seq<char> {
    byte_text(a[0]) + seq![':'] + byte_text(a[1]) + seq![':'] + byte_text(a[2]) + seq![':']
        + byte_text(a[3]) + seq![':'] + byte_text(a[4]) + seq![':'] + byte_text(a[5])
}

fn hex_digit_str(d: u8) -> (r: &'static str)
    requires
        d < 16,
    ensures
        r@ == seq![hex_char(d)],
{
    proof {
        reveal_strlit("0");
        reveal_strlit("1");
        reveal_strlit("2");
        reveal_strlit("3");
        reveal_strlit("4");
        reveal_strlit("5");
        reveal_strlit("6");
        reveal_strlit("7");
        reveal_strlit("8");
        reveal_strlit("9");
        reveal_strlit("A");
        reveal_strlit("B");
        reveal_strlit("C");
        reveal_strlit("D");
        reveal_strlit("E");
        reveal_strlit("F");
    }
    match d {
        0 => "0",
        1 => "1",
        2 => "2",
        3 => "3",
        4 => "4",
        5 => "5",
        6 => "6",
        7 => "7",
        8 => "8",
        9 => "9",
        10 => "A",
        11 => "B",
        12 => "C",
        13 => "D",
        14 => "E",
        _ => "F",
    }
}

fn append_byte_text(s: &mut String, b: u8)
    ensures
        final(s)@ == old(s)@ + byte_text(b),
{
    proof {
        reveal_strlit("0x");
    }
    s.append("0x");
    if b >= 16 {
        s.append(hex_digit_str(b / 16));
        s.append(hex_digit_str(b % 16));
        proof {
            assert(s@ =~= old(s)@ + byte_text(b));
        }
    } else {
        s.append(hex_digit_str(b));
        proof {
            assert(s@ =~= old(s)@ + byte_text(b));
        }
    }
}

/// The address as text: `0xFE:0xED:...`, each byte as `{:#02X}` writes it.
pub fn node_address_to_string(a: &NodeAddress) -> (r: String)
    ensures
        r@ == address_text(a@),
{
    proof {
        reveal_strlit(":");
    }
    let mut s = String::new();
    append_byte_text(&mut s, a[0]);
    s.append(":");
    append_byte_text(&mut s, a[1]);
    s.append(":");
    append_byte_text(&mut s, a[2]);
    s.append(":");
    append_byte_text(&mut s, a[3]);
    s.append(":");
    append_byte_text(&mut s, a[4]);
    s.append(":");
    append_byte_text(&mut s, a[5]);
    proof {
        assert(s@ =~= address_text(a@));
    }
    s
}

} // verus!
