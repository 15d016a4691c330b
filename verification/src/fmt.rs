//! Exact specifications and renderers for the pieces of text the
//! library produces: decimal numbers, booleans, and hexadecimal bytes.

use vstd::prelude::*;
use vstd::string::StringExecFns;

verus! {

/// The character for one decimal digit.
pub open spec fn digit_char(d: nat) -> char
    recommends
        d < 10,
{
    ((48 + d) as u8) as char
}

/// The decimal rendering of a number, most significant digit first.
pub open spec fn dec_str(n: nat) -> Seq<char>
    decreases n,
{
    if n < 10 {
        seq![digit_char(n)]
    } else {
        dec_str(n / 10).push(digit_char(n % 10))
    }
}

/// The character for one hexadecimal digit, upper case.
pub open spec fn hex_char_upper(d: nat) -> char
    recommends
        d < 16,
{
    if d < 10 {
        digit_char(d)
    } else {
        ((55 + d) as u8) as char
    }
}

/// The character for one hexadecimal digit, lower case.
pub open spec fn hex_char_lower(d: nat) -> char
    recommends
        d < 16,
{
    if d < 10 {
        digit_char(d)
    } else {
        ((87 + d) as u8) as char
    }
}

/// Two upper-case hexadecimal digits of a byte.
pub open spec fn hex_byte_upper(b: u8) -> Seq<char> {
    seq![hex_char_upper((b / 16) as nat), hex_char_upper((b % 16) as nat)]
}

/// Two lower-case hexadecimal digits of a byte.
pub open spec fn hex_byte_lower(b: u8) -> Seq<char> {
    seq![hex_char_lower((b / 16) as nat), hex_char_lower((b % 16) as nat)]
}

/// The first `i` bytes rendered as upper-case hex, separated by
/// commas.
pub open spec fn hex_items(bs: Seq<u8>, i: int) -> Seq<char>
    decreases i,
{
    if i <= 0 {
        Seq::empty()
    } else if i == 1 {
        hex_byte_upper(bs[0])
    } else {
        hex_items(bs, i - 1) + seq![',', ' '] + hex_byte_upper(bs[i - 1])
    }
}

/// A byte sequence rendered as a bracketed, comma-separated list of
/// upper-case hex bytes.
pub open spec fn hex_list(bs: Seq<u8>) -> Seq<char> {
    seq!['['] + hex_items(bs, bs.len() as int) + seq![']']
}

/// Append one upper-case hex digit.
fn push_hex_digit_upper(s: &mut String, d: u8)
    requires
        d < 16,
    ensures
        final(s)@ == old(s)@ + seq![hex_char_upper(d as nat)],
{
    let p: &str = match d {
        0 => "0",
        1 => "1",
        2 => "2",
        3 => "3",
        4 => "4",
        5 => "5",
        6 => "6",
        7 => "7",
        8 => "8",
        9 => "9",
        10 => "A",
        11 => "B",
        12 => "C",
        13 => "D",
        14 => "E",
        _ => "F",
    };
    proof {
        reveal_strlit("0");
        reveal_strlit("1");
        reveal_strlit("2");
        reveal_strlit("3");
        reveal_strlit("4");
        reveal_strlit("5");
        reveal_strlit("6");
        reveal_strlit("7");
        reveal_strlit("8");
        reveal_strlit("9");
        reveal_strlit("A");
        reveal_strlit("B");
        reveal_strlit("C");
        reveal_strlit("D");
        reveal_strlit("E");
        reveal_strlit("F");
        assert(p@ =~= seq![hex_char_upper(d as nat)]);
    }
    s.append(p);
}

/// Append one lower-case hex digit.
fn push_hex_digit_lower(s: &mut String, d: u8)
    requires
        d < 16,
    ensures
        final(s)@ == old(s)@ + seq![hex_char_lower(d as nat)],
{
    let p: &str = match d {
        0 => "0",
        1 => "1",
        2 => "2",
        3 => "3",
        4 => "4",
        5 => "5",
        6 => "6",
        7 => "7",
        8 => "8",
        9 => "9",
        10 => "a",
        11 => "b",
        12 => "c",
        13 => "d",
        14 => "e",
        _ => "f",
    };
    proof {
        reveal_strlit("0");
        reveal_strlit("1");
        reveal_strlit("2");
        reveal_strlit("3");
        reveal_strlit("4");
        reveal_strlit("5");
        reveal_strlit("6");
        reveal_strlit("7");
        reveal_strlit("8");
        reveal_strlit("9");
        reveal_strlit("a");
        reveal_strlit("b");
        reveal_strlit("c");
        reveal_strlit("d");
        reveal_strlit("e");
        reveal_strlit("f");
        assert(p@ =~= seq![hex_char_lower(d as nat)]);
    }
    s.append(p);
}

/// Append a byte as two upper-case hex digits.
pub fn push_hex_byte_upper(s: &mut String, b: u8)
    ensures
        final(s)@ == old(s)@ + hex_byte_upper(b),
{
    push_hex_digit_upper(s, b / 16);
    push_hex_digit_upper(s, b % 16);
    proof {
        assert(old(s)@ + hex_byte_upper(b) =~= (old(s)@ + seq![hex_char_upper((b / 16) as nat)])
            + seq![hex_char_upper((b % 16) as nat)]);
    }
}

/// Append a byte as two lower-case hex digits.
pub fn push_hex_byte_lower(s: &mut String, b: u8)
    ensures
        final(s)@ == old(s)@ + hex_byte_lower(b),
{
    push_hex_digit_lower(s, b / 16);
    push_hex_digit_lower(s, b % 16);
    proof {
        assert(old(s)@ + hex_byte_lower(b) =~= (old(s)@ + seq![hex_char_lower((b / 16) as nat)])
            + seq![hex_char_lower((b % 16) as nat)]);
    }
}

/// Render a byte sequence the way a debug dump shows it: bracketed,
/// comma-separated, two upper-case digits per byte.
pub fn hex_dump(bs: &Vec<u8>) -> (r: String)
    ensures
        r@ == hex_list(bs@),
{
    let mut s = String::new();
    proof {
        reveal_strlit("[");
        reveal_strlit("]");
        reveal_strlit(", ");
    }
    s.append("[");
    proof {
        assert(s@ =~= seq!['[']);
    }
    let mut i: usize = 0;
    while i < bs.len()
        invariant
            i <= bs@.len(),
            s@ == seq!['['] + hex_items(bs@, i as int),
        decreases bs@.len() - i,
    {
        let ghost before = s@;
        if i > 0 {
            s.append(", ");
            proof {
                reveal_strlit(", ");
                assert(", "@ =~= seq![',', ' ']);
            }
        }
        push_hex_byte_upper(&mut s, bs[i]);
        i = i + 1;
        proof {
            if i == 1 {
                assert(s@ =~= seq!['['] + hex_items(bs@, 1));
            } else {
                assert(s@ =~= seq!['['] + ((hex_items(bs@, i as int - 1) + seq![',', ' '])
                    + hex_byte_upper(bs@[i as int - 1])));
                assert(seq!['['] + hex_items(bs@, i as int) =~= seq!['['] + ((hex_items(
                    bs@,
                    i as int - 1,
                ) + seq![',', ' ']) + hex_byte_upper(bs@[i as int - 1])));
            }
        }
    }
    s.append("]");
    proof {
        assert(s@ =~= hex_list(bs@));
    }
    s
}

/// Whether two strings are equal, decided byte by byte.
pub fn str_eq(a: &str, b: &str) -> (r: bool)
    ensures
        r == (a@ == b@),
{
    let ab = a.as_bytes();
    let bb = b.as_bytes();
    proof {
        vstd::utf8::encode_utf8_decode_utf8(a@);
        vstd::utf8::encode_utf8_decode_utf8(b@);
    }
    if ab.len() != bb.len() {
        return false;
    }
    let n = ab.len();
    let mut i: usize = 0;
    while i < n
        invariant
            n == ab@.len() == bb@.len(),
            i <= n,
            ab@ == vstd::utf8::encode_utf8(a@),
            bb@ == vstd::utf8::encode_utf8(b@),
            vstd::utf8::decode_utf8(vstd::utf8::encode_utf8(a@)) == a@,
            vstd::utf8::decode_utf8(vstd::utf8::encode_utf8(b@)) == b@,
            forall|k: int| 0 <= k < i ==> ab@[k] == bb@[k],
        decreases n - i,
    {
        if *vstd::slice::slice_index_get(ab, i) != *vstd::slice::slice_index_get(bb, i) {
            return false;
        }
        i = i + 1;
    }
    proof {
        assert(ab@ =~= bb@);
    }
    true
}

/// One decimal digit as text.
fn dec_digit_str(d: u64) -> (r: &'static str)
    requires
        d < 10,
    ensures
        r@ == seq![digit_char(d as nat)],
{
    let p: &str = match d {
        0 => "0",
        1 => "1",
        2 => "2",
        3 => "3",
        4 => "4",
        5 => "5",
        6 => "6",
        7 => "7",
        8 => "8",
        _ => "9",
    };
    proof {
        reveal_strlit("0");
        reveal_strlit("1");
        reveal_strlit("2");
        reveal_strlit("3");
        reveal_strlit("4");
        reveal_strlit("5");
        reveal_strlit("6");
        reveal_strlit("7");
        reveal_strlit("8");
        reveal_strlit("9");
        assert(p@ =~= seq![digit_char(d as nat)]);
    }
    p
}

/// Render a number in decimal.
pub fn u64_to_dec(n: u64) -> (r: String)
    ensures
        r@ == dec_str(n as nat),
    decreases n,
{
    if n < 10 {
        let mut s = String::new();
        s.append(dec_digit_str(n));
        proof {
            assert(s@ =~= dec_str(n as nat));
        }
        s
    } else {
        let mut s = u64_to_dec(n / 10);
        s.append(dec_digit_str(n % 10));
        proof {
            assert(s@ =~= dec_str(n as nat));
        }
        s
    }
}

/// Render a boolean as `true` or `false`.
pub fn bool_to_text(b: bool) -> (r: String)
    ensures
        b ==> r@ == "true"@,
        !b ==> r@ == "false"@,
{
    if b {
        String::from_str("true")
    } else {
        String::from_str("false")
    }
}

} // verus!
