//! Canonical text form of a 16-byte identifier: 32 lower-case hex
//! digits with hyphens after the 8th, 12th, 16th and 20th.

use vstd::prelude::*;
use vstd::string::StringExecFns;
use crate::fmt::{hex_byte_lower, hex_char_lower, push_hex_byte_lower};

verus! {

/// The character position at which byte `i` of the identifier is
/// rendered, accounting for the hyphens before bytes 4, 6, 8 and 10.
pub open spec fn uuid_char_pos(i: int) -> int {
    2 * i + (if i >= 4 {
        1int
    } else {
        0int
    }) + (if i >= 6 {
        1int
    } else {
        0int
    }) + (if i >= 8 {
        1int
    } else {
        0int
    }) + (if i >= 10 {
        1int
    } else {
        0int
    })
}

/// The first `i` bytes rendered, hyphens included.
pub open spec fn uuid_prefix(b: Seq<u8>, i: int) -> Seq<char>
    decreases i,
{
    if i <= 0 {
        Seq::empty()
    } else {
        uuid_prefix(b, i - 1) + (if i - 1 == 4 || i - 1 == 6 || i - 1 == 8 || i - 1 == 10 {
            seq!['-']
        } else {
            Seq::empty()
        }) + hex_byte_lower(b[i - 1])
    }
}

/// The canonical hyphenated text of a 16-byte identifier.
pub open spec fn uuid_text_spec(b: Seq<u8>) -> Seq<char>
    recommends
        b.len() == 16,
{
    uuid_prefix(b, 16)
}

/// The value of one hex digit character, either case.
pub open spec fn hex_val(c: char) -> Option<u8> {
    let u = c as u32;
    if 48 <= u <= 57 {
        Option::Some((u - 48) as u8)
    } else if 97 <= u <= 102 {
        Option::Some((u - 87) as u8)
    } else if 65 <= u <= 70 {
        Option::Some((u - 55) as u8)
    } else {
        Option::None
    }
}

/// The first `i` bytes parsed back out of a 36-character text.
pub open spec fn uuid_parse_bytes(s: Seq<char>, i: int) -> Option<Seq<u8>>
    decreases i,
{
    if i <= 0 {
        Option::Some(Seq::empty())
    } else {
        match uuid_parse_bytes(s, i - 1) {
            Option::None => Option::None,
            Option::Some(prefix) => match (
                hex_val(s[uuid_char_pos(i - 1)]),
                hex_val(s[uuid_char_pos(i - 1) + 1]),
            ) {
                (Option::Some(hi), Option::Some(lo)) => Option::Some(
                    prefix.push((hi * 16 + lo) as u8),
                ),
                _ => Option::None,
            },
        }
    }
}

/// Parse the canonical hyphenated form: 36 characters, hyphens at
/// positions 8, 13, 18 and 23, hex digits of either case elsewhere.
pub open spec fn uuid_parse_spec(s: Seq<char>) -> Option<Seq<u8>> {
    if s.len() != 36 {
        Option::None
    } else if s[8] != '-' || s[13] != '-' || s[18] != '-' || s[23] != '-' {
        Option::None
    } else {
        uuid_parse_bytes(s, 16)
    }
}

/// Render a 16-byte identifier in its canonical hyphenated form.
pub fn uuid_text(b: &Vec<u8>) -> (r: String)
    requires
        b@.len() == 16,
    ensures
        r@ == uuid_text_spec(b@),
{
    let mut s = String::new();
    let mut i: usize = 0;
    proof {
        assert(s@ =~= uuid_prefix(b@, 0));
    }
    while i < 16
        invariant
            b@.len() == 16,
            i <= 16,
            s@ == uuid_prefix(b@, i as int),
        decreases 16 - i,
    {
        let ghost before = s@;
        if i == 4 || i == 6 || i == 8 || i == 10 {
            s.append("-");
            proof {
                reveal_strlit("-");
                assert(s@ =~= before + seq!['-']);
            }
        }
        push_hex_byte_lower(&mut s, b[i]);
        i = i + 1;
        proof {
            if i as int - 1 == 4 || i as int - 1 == 6 || i as int - 1 == 8 || i as int - 1 == 10 {
                assert(s@ =~= uuid_prefix(b@, i as int));
            } else {
                assert(before + Seq::<char>::empty() =~= before);
                assert(s@ =~= uuid_prefix(b@, i as int));
            }
        }
    }
    s
}

/// The value of one hex digit character, or nothing.
fn hex_val_exec(c: char) -> (r: Option<u8>)
    ensures
        r == hex_val(c),
{
    let u = c as u32;
    if 48 <= u && u <= 57 {
        Option::Some((u - 48) as u8)
    } else if 97 <= u && u <= 102 {
        Option::Some((u - 87) as u8)
    } else if 65 <= u && u <= 70 {
        Option::Some((u - 55) as u8)
    } else {
        Option::None
    }
}

/// Parse the canonical hyphenated form into 16 bytes. Succeeds exactly
/// when the text has the canonical shape.
pub fn uuid_parse(s: &str) -> (r: Option<Vec<u8>>)
    ensures
        match r {
            Option::Some(v) => uuid_parse_spec(s@) == Option::Some(v@) && v@.len() == 16,
            Option::None => uuid_parse_spec(s@) is None,
        },
{
    let n = s.unicode_len();
    if n != 36 {
        return Option::None;
    }
    if s.get_char(8) != '-' || s.get_char(13) != '-' || s.get_char(18) != '-' || s.get_char(23)
        != '-' {
        return Option::None;
    }
    let mut out: Vec<u8> = Vec::new();
    let mut i: usize = 0;
    proof {
        assert(uuid_parse_bytes(s@, 0) == Option::Some(out@));
        assert(out@ =~= Seq::<u8>::empty());
    }
    while i < 16
        invariant
            s@.len() == 36,
            i <= 16,
            out@.len() == i,
            uuid_parse_bytes(s@, i as int) == Option::Some(out@),
        decreases 16 - i,
    {
        let pos = 2 * i + (if i >= 4 {
            1usize
        } else {
            0usize
        }) + (if i >= 6 {
            1usize
        } else {
            0usize
        }) + (if i >= 8 {
            1usize
        } else {
            0usize
        }) + (if i >= 10 {
            1usize
        } else {
            0usize
        });
        proof {
            assert(pos as int == uuid_char_pos(i as int));
        }
        let hi = match hex_val_exec(s.get_char(pos)) {
            Option::Some(d) => d,
            Option::None => {
                proof {
                    lemma_uuid_parse_bytes_none(s@, i as int + 1, 16);
                }
                return Option::None;
            },
        };
        let lo = match hex_val_exec(s.get_char(pos + 1)) {
            Option::Some(d) => d,
            Option::None => {
                proof {
                    lemma_uuid_parse_bytes_none(s@, i as int + 1, 16);
                }
                return Option::None;
            },
        };
        out.push(hi * 16 + lo);
        i = i + 1;
    }
    Option::Some(out)
}

/// A failed byte makes every longer parse fail.
proof fn lemma_uuid_parse_bytes_none(s: Seq<char>, i: int, j: int)
    requires
        0 <= i <= j,
        uuid_parse_bytes(s, i) is None,
    ensures
        uuid_parse_bytes(s, j) is None,
    decreases j - i,
{
    if i < j {
        lemma_uuid_parse_bytes_none(s, i, j - 1);
    }
}

/// A hex digit character maps back to its value.
proof fn lemma_hex_val_of_digit(d: u8)
    requires
        d < 16,
    ensures
        hex_val(hex_char_lower(d as nat)) == Option::Some(d),
{
}

/// The length of a rendered prefix: two digits per byte plus the
/// hyphens already emitted.
proof fn lemma_uuid_prefix_len(b: Seq<u8>, i: int)
    requires
        0 <= i,
    ensures
        uuid_prefix(b, i).len() == 2 * i + (if i > 4 {
            1int
        } else {
            0int
        }) + (if i > 6 {
            1int
        } else {
            0int
        }) + (if i > 8 {
            1int
        } else {
            0int
        }) + (if i > 10 {
            1int
        } else {
            0int
        }),
    decreases i,
{
    if i > 0 {
        lemma_uuid_prefix_len(b, i - 1);
    }
}

/// Characters of the rendered text, seen from any longer prefix: the
/// two digits of each byte, and the hyphens.
proof fn lemma_uuid_prefix_index(b: Seq<u8>, i: int, j: int)
    requires
        0 <= j < i <= 16,
        b.len() == 16,
    ensures
        uuid_prefix(b, i)[uuid_char_pos(j)] == hex_char_lower((b[j] / 16) as nat),
        uuid_prefix(b, i)[uuid_char_pos(j) + 1] == hex_char_lower((b[j] % 16) as nat),
        (j == 4 || j == 6 || j == 8 || j == 10) ==> uuid_prefix(b, i)[uuid_char_pos(j) - 1] == '-',
    decreases i,
{
    lemma_uuid_prefix_len(b, i - 1);
    if j == i - 1 {
    } else {
        lemma_uuid_prefix_index(b, i - 1, j);
        lemma_uuid_prefix_len(b, i);
    }
}

/// Parsing the canonical text of an identifier gives the identifier
/// back.
pub proof fn lemma_uuid_round_trip(b: Seq<u8>)
    requires
        b.len() == 16,
    ensures
        uuid_parse_spec(uuid_text_spec(b)) == Option::Some(b),
{
    let s = uuid_text_spec(b);
    lemma_uuid_prefix_len(b, 16);
    assert(s.len() == 36);
    lemma_uuid_prefix_index(b, 16, 4);
    lemma_uuid_prefix_index(b, 16, 6);
    lemma_uuid_prefix_index(b, 16, 8);
    lemma_uuid_prefix_index(b, 16, 10);
    assert(s[8] == '-' && s[13] == '-' && s[18] == '-' && s[23] == '-');
    assert forall|m: int| 0 <= m <= 16 implies uuid_parse_bytes(s, m) == Option::Some(
        b.take(m),
    ) by {
        lemma_uuid_parse_prefix(b, m);
    }
    assert(b.take(16) =~= b);
}

/// Each parsed prefix of the canonical text recovers the bytes.
proof fn lemma_uuid_parse_prefix(b: Seq<u8>, m: int)
    requires
        b.len() == 16,
        0 <= m <= 16,
    ensures
        uuid_parse_bytes(uuid_text_spec(b), m) == Option::Some(b.take(m)),
    decreases m,
{
    let s = uuid_text_spec(b);
    if m == 0 {
        assert(b.take(0) =~= Seq::<u8>::empty());
    } else {
        lemma_uuid_parse_prefix(b, m - 1);
        lemma_uuid_prefix_index(b, 16, m - 1);
        lemma_hex_val_of_digit(b[m - 1] / 16);
        lemma_hex_val_of_digit(b[m - 1] % 16);
        assert(hex_val(s[uuid_char_pos(m - 1)]) == Option::Some(b[m - 1] / 16));
        assert(hex_val(s[uuid_char_pos(m - 1) + 1]) == Option::Some(b[m - 1] % 16));
        assert((b[m - 1] / 16) * 16 + (b[m - 1] % 16) == b[m - 1]) by (nonlinear_arith);
        assert(b.take(m) =~= b.take(m - 1).push(b[m - 1]));
    }
}

} // verus!
