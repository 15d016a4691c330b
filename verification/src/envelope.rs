//! The schema-framed message shared by both per-request envelopes.
//!
//! A `ConnectRequest` and a `ConnectResponse` have the same shape on
//! the wire: one root struct with up to one data word (the request's
//! type tag) and two pointer fields — a text (the request's
//! destination, the response's error) and a composite list of metadata
//! entries. This module defines the byte-level encoding of that shape,
//! a parser for it, and the proof that parsing inverts encoding.
//!
//! A message is a segment table (one segment) followed by the segment:
//! the root pointer, the struct, and the objects it points at.

use vstd::prelude::*;
use vstd::bytes::{
    lemma_auto_spec_u32_to_from_le_bytes, spec_u32_from_le_bytes, spec_u32_to_le_bytes,
    u32_from_le_bytes, u32_to_le_bytes,
};
use vstd::utf8::{decode_utf8, encode_utf8, valid_utf8};
use vstd::string::StringSliceAdditionalSpecFns;
use vstd::slice::slice_subrange;
use crate::metadata;
use crate::metadata::EntryView;
use crate::wire::{
    le64, lemma_list_ptr_fields, lemma_ptr_field_ranges, lemma_struct_ptr_fields,
    lemma_text_block_len, lemma_text_words_bounds, list_elem_code, list_elem_count, list_ptr,
    ptr_kind, ptr_off, push_u32, push_word, push_text_block, read_word, struct_data_words,
    struct_ptr, struct_ptr_words, text_block, text_words, word_at, zeros,
};

verus! {

/// The mathematical value of an envelope message.
pub struct EnvelopeView {
    /// The low 16 bits of the first data word; 0 when the struct has no
    /// data section.
    pub typ: u16,
    /// The first pointer field: a text, or absent.
    pub text: Option<Seq<char>>,
    /// The second pointer field: a list of metadata entries, or absent.
    pub entries: Option<Seq<EntryView>>,
}

// ---------------------------------------------------------------------
// Sizes
// ---------------------------------------------------------------------
/// Words occupied by an optional text block; 0 when absent.
pub open spec fn opt_words(t: Option<Seq<char>>) -> int {
    match t {
        Option::Some(s) => text_words(encode_utf8(s).len() as int),
        Option::None => 0,
    }
}

/// The wire block of an optional text; empty when absent.
pub open spec fn opt_block(t: Option<Seq<char>>) -> Seq<u8> {
    match t {
        Option::Some(s) => text_block(encode_utf8(s)),
        Option::None => Seq::empty(),
    }
}

/// An individual text must keep its byte count (plus terminator) within
/// the 29-bit element-count field of a list pointer.
pub open spec fn text_wf(t: Option<Seq<char>>) -> bool {
    match t {
        Option::Some(s) => encode_utf8(s).len() <= 0x0FFF_FFFF,
        Option::None => true,
    }
}

/// Words occupied by the texts of one entry.
pub open spec fn entry_words(e: EntryView) -> int {
    opt_words(e.key) + opt_words(e.val)
}

pub open spec fn entry_wf(e: EntryView) -> bool {
    text_wf(e.key) && text_wf(e.val)
}

/// Words occupied by the texts of the first `i` entries.
pub open spec fn entries_words_to(es: Seq<EntryView>, i: int) -> int
    decreases i,
{
    if i <= 0 {
        0
    } else {
        entries_words_to(es, i - 1) + entry_words(es[i - 1])
    }
}

pub proof fn lemma_opt_words_nonneg(t: Option<Seq<char>>)
    ensures
        opt_words(t) >= 0,
{
    match t {
        Option::Some(s) => lemma_text_words_bounds(encode_utf8(s).len() as int),
        Option::None => {},
    }
}

pub proof fn lemma_entries_words_nonneg(es: Seq<EntryView>, i: int)
    ensures
        entries_words_to(es, i) >= 0,
    decreases i,
{
    if i > 0 {
        lemma_entries_words_nonneg(es, i - 1);
        lemma_opt_words_nonneg(es[i - 1].key);
        lemma_opt_words_nonneg(es[i - 1].val);
    }
}

/// The word count of a prefix never exceeds that of a longer prefix.
pub proof fn lemma_entries_words_mono(es: Seq<EntryView>, i: int, j: int)
    requires
        i <= j,
    ensures
        entries_words_to(es, i) <= entries_words_to(es, j),
    decreases j - i,
{
    if i < j {
        lemma_entries_words_mono(es, i, j - 1);
        lemma_opt_words_nonneg(es[j - 1].key);
        lemma_opt_words_nonneg(es[j - 1].val);
    }
}

/// Words occupied by the whole entry list: the tag, the entries' two
/// pointer words each, and their texts.
pub open spec fn list_words(es: Seq<EntryView>) -> int {
    1 + 2 * es.len() + entries_words_to(es, es.len() as int)
}

/// Total words of the segment: root pointer, data section, two pointer
/// fields, the text block, and the entry list.
pub open spec fn env_words(d: int, v: EnvelopeView) -> int {
    3 + d + opt_words(v.text) + match v.entries {
        Option::Some(es) => list_words(es),
        Option::None => 0,
    }
}

/// Well-formedness of an envelope for encoding with `d` data words:
/// every text fits its count field and the whole segment fits the
/// 29-bit offset fields.
pub open spec fn env_wf(d: int, v: EnvelopeView) -> bool {
    &&& text_wf(v.text)
    &&& match v.entries {
        Option::Some(es) => {
            &&& es.len() <= 0xFFFF
            &&& forall|i: int| 0 <= i < es.len() ==> entry_wf(#[trigger] es[i])
        },
        Option::None => true,
    }
    &&& env_words(d, v) < 0x1000_0000
}

// ---------------------------------------------------------------------
// Encoding
// ---------------------------------------------------------------------
/// The pointer word for the key text of entry `i` of `n`, placed after
/// the texts of the earlier entries.
pub open spec fn key_ptr(es: Seq<EntryView>, n: int, i: int) -> u64 {
    match es[i].key {
        Option::None => 0,
        Option::Some(s) => list_ptr(
            (2 * (n - i) + entries_words_to(es, i) - 1) as u64,
            2,
            (encode_utf8(s).len() + 1) as u64,
        ),
    }
}

/// The pointer word for the value text of entry `i` of `n`.
pub open spec fn val_ptr(es: Seq<EntryView>, n: int, i: int) -> u64 {
    match es[i].val {
        Option::None => 0,
        Option::Some(s) => list_ptr(
            (2 * (n - i) + entries_words_to(es, i) + opt_words(es[i].key) - 2) as u64,
            2,
            (encode_utf8(s).len() + 1) as u64,
        ),
    }
}

/// The pointer words of the first `i` entries, in order.
pub open spec fn entry_pairs(es: Seq<EntryView>, n: int, i: int) -> Seq<u8>
    decreases i,
{
    if i <= 0 {
        Seq::empty()
    } else {
        entry_pairs(es, n, i - 1) + le64(key_ptr(es, n, i - 1)) + le64(val_ptr(es, n, i - 1))
    }
}

/// The text blocks of the first `i` entries, in order.
pub open spec fn entry_texts(es: Seq<EntryView>, i: int) -> Seq<u8>
    decreases i,
{
    if i <= 0 {
        Seq::empty()
    } else {
        entry_texts(es, i - 1) + opt_block(es[i - 1].key) + opt_block(es[i - 1].val)
    }
}

/// The wire form of the entry list: tag word, pointer pairs, texts.
pub open spec fn list_region(es: Seq<EntryView>) -> Seq<u8> {
    le64(struct_ptr(es.len() as u64, 0, 2)) + entry_pairs(es, es.len() as int, es.len() as int)
        + entry_texts(es, es.len() as int)
}

/// The pointer word for the envelope's text field. The text, when
/// present, starts right after the struct's pointer section.
pub open spec fn text0_ptr(v: EnvelopeView) -> u64 {
    match v.text {
        Option::None => 0,
        Option::Some(s) => list_ptr(1, 2, (encode_utf8(s).len() + 1) as u64),
    }
}

/// The pointer word for the envelope's entry list, which starts after
/// the text block.
pub open spec fn list0_ptr(v: EnvelopeView) -> u64 {
    match v.entries {
        Option::None => 0,
        Option::Some(es) => list_ptr(opt_words(v.text) as u64, 7, (2 * es.len()) as u64),
    }
}

/// The complete encoded message: segment table, root pointer, data
/// word (when `d` is 1), the two pointer fields, and the pointed-to
/// objects.
pub open spec fn enc_envelope(d: int, v: EnvelopeView) -> Seq<u8> {
    spec_u32_to_le_bytes(0u32) + spec_u32_to_le_bytes(env_words(d, v) as u32) + le64(
        struct_ptr(0, d as u64, 2),
    ) + (if d == 1 {
        le64(v.typ as u64)
    } else {
        Seq::empty()
    }) + le64(text0_ptr(v)) + le64(list0_ptr(v)) + opt_block(v.text) + (match v.entries {
        Option::Some(es) => list_region(es),
        Option::None => Seq::empty(),
    })
}

/// Data-section size selected by the encoder's `with_data` flag.
pub open spec fn data_words(with_data: bool) -> int {
    if with_data {
        1
    } else {
        0
    }
}

/// The view of an optional borrowed text.
pub open spec fn ref_text_view(o: Option<&String>) -> Option<Seq<char>> {
    match o {
        Option::Some(s) => Option::Some(s@),
        Option::None => Option::None,
    }
}

/// The view of an optional borrowed entry vector.
pub open spec fn ref_entries_view(o: Option<&Vec<metadata::Builder>>) -> Option<Seq<EntryView>> {
    match o {
        Option::Some(v) => Option::Some(entries_view(v@)),
        Option::None => Option::None,
    }
}

/// The view assembled from the encoder's arguments.
pub open spec fn arg_view(
    typ: u16,
    text: Option<&String>,
    entries: Option<&Vec<metadata::Builder>>,
) -> EnvelopeView {
    EnvelopeView { typ, text: ref_text_view(text), entries: ref_entries_view(entries) }
}

/// The views of a vector of entry builders.
pub open spec fn entries_view(s: Seq<metadata::Builder>) -> Seq<EntryView> {
    Seq::new(s.len(), |i: int| s[i]@)
}

/// The view assembled from the encoder's arguments.
pub open spec fn parts_view(
    typ: u16,
    text: Option<String>,
    entries: Option<Vec<metadata::Builder>>,
) -> EnvelopeView {
    EnvelopeView {
        typ,
        text: metadata::text_view(text),
        entries: match entries {
            Option::Some(v) => Option::Some(entries_view(v@)),
            Option::None => Option::None,
        },
    }
}

// ---------------------------------------------------------------------
// Parsing
// ---------------------------------------------------------------------
/// The single segment of a message: everything after the 8-byte
/// segment table.
pub open spec fn seg_of(b: Seq<u8>) -> Seq<u8> {
    b.subrange(8, b.len() as int)
}

/// Parse a text pointer `w` that stands at word `pos` of the segment.
/// A null word is an absent text; a malformed pointer, an out-of-bounds
/// target, a missing NUL terminator or invalid UTF-8 fail the parse.
pub open spec fn parse_text(seg: Seq<u8>, w: u64, pos: int) -> Option<Option<Seq<char>>> {
    if w == 0 {
        Option::Some(Option::None)
    } else if ptr_kind(w) != 1 || list_elem_code(w) != 2 || ptr_off(w) >= 0x2000_0000 {
        Option::None
    } else {
        let start = pos + 1 + ptr_off(w) as int;
        let count = list_elem_count(w) as int;
        if count < 1 {
            Option::None
        } else if 8 * (start + text_words(count - 1)) > seg.len() {
            Option::None
        } else if seg[8 * start + count - 1] != 0 {
            Option::None
        } else {
            let bytes = seg.subrange(8 * start, 8 * start + count - 1);
            if valid_utf8(bytes) {
                Option::Some(Option::Some(decode_utf8(bytes)))
            } else {
                Option::None
            }
        }
    }
}

/// Parse one list element as an entry: a struct of `dw` data words and
/// `pw` pointer words standing at word `epos`, whose first two pointers
/// are the key and value texts.
pub open spec fn parse_entry(seg: Seq<u8>, epos: int, dw: int, pw: int) -> Option<EntryView> {
    let p0 = if pw >= 1 {
        word_at(seg, epos + dw)
    } else {
        0
    };
    let p1 = if pw >= 2 {
        word_at(seg, epos + dw + 1)
    } else {
        0
    };
    match (parse_text(seg, p0, epos + dw), parse_text(seg, p1, epos + dw + 1)) {
        (Option::Some(k), Option::Some(v)) => Option::Some(EntryView { key: k, val: v }),
        _ => Option::None,
    }
}

/// Parse the first `n` elements of a composite list whose elements
/// start at word `base` and span `dw + pw` words each.
pub open spec fn parse_entries(seg: Seq<u8>, base: int, n: int, dw: int, pw: int) -> Option<
    Seq<EntryView>,
>
    decreases n,
{
    if n <= 0 {
        Option::Some(Seq::empty())
    } else {
        match parse_entries(seg, base, n - 1, dw, pw) {
            Option::None => Option::None,
            Option::Some(prefix) => match parse_entry(seg, base + (n - 1) * (dw + pw), dw, pw) {
                Option::None => Option::None,
                Option::Some(e) => Option::Some(prefix.push(e)),
            },
        }
    }
}

/// Parse a composite-list pointer `w` standing at word `pos`.
pub open spec fn parse_list(seg: Seq<u8>, w: u64, pos: int) -> Option<Option<Seq<EntryView>>> {
    if w == 0 {
        Option::Some(Option::None)
    } else if ptr_kind(w) != 1 || list_elem_code(w) != 7 || ptr_off(w) >= 0x2000_0000 {
        Option::None
    } else {
        let lpos = pos + 1 + ptr_off(w) as int;
        let words = list_elem_count(w) as int;
        if 8 * (lpos + 1 + words) > seg.len() {
            Option::None
        } else {
            let tag = word_at(seg, lpos);
            if ptr_kind(tag) != 0 || ptr_off(tag) >= 0x2000_0000 {
                Option::None
            } else {
                let n = ptr_off(tag) as int;
                let dw = struct_data_words(tag) as int;
                let pw = struct_ptr_words(tag) as int;
                if n * (dw + pw) != words {
                    Option::None
                } else {
                    match parse_entries(seg, lpos + 1, n, dw, pw) {
                        Option::Some(es) => Option::Some(Option::Some(es)),
                        Option::None => Option::None,
                    }
                }
            }
        }
    }
}

/// Parse the root struct of the segment.
pub open spec fn parse_root(seg: Seq<u8>) -> Option<EnvelopeView> {
    let w = word_at(seg, 0);
    if w == 0 {
        Option::Some(EnvelopeView { typ: 0, text: Option::None, entries: Option::None })
    } else if ptr_kind(w) != 0 || ptr_off(w) >= 0x2000_0000 {
        Option::None
    } else {
        let base = 1 + ptr_off(w) as int;
        let dw = struct_data_words(w) as int;
        let pw = struct_ptr_words(w) as int;
        if 8 * (base + dw + pw) > seg.len() {
            Option::None
        } else {
            let typ = if dw >= 1 {
                (word_at(seg, base) & 0xFFFF) as u16
            } else {
                0u16
            };
            let p0 = if pw >= 1 {
                word_at(seg, base + dw)
            } else {
                0
            };
            let p1 = if pw >= 2 {
                word_at(seg, base + dw + 1)
            } else {
                0
            };
            match (parse_text(seg, p0, base + dw), parse_list(seg, p1, base + dw + 1)) {
                (Option::Some(t), Option::Some(es)) => Option::Some(
                    EnvelopeView { typ, text: t, entries: es },
                ),
                _ => Option::None,
            }
        }
    }
}

/// Parse a complete message: a single-segment table whose length
/// matches the byte count exactly, then the root struct.
pub open spec fn parse_envelope(b: Seq<u8>) -> Option<EnvelopeView> {
    if b.len() < 16 || b.len() % 8 != 0 {
        Option::None
    } else if spec_u32_from_le_bytes(b.subrange(0, 4)) != 0 {
        Option::None
    } else if (spec_u32_from_le_bytes(b.subrange(4, 8)) as int) * 8 + 8 != b.len() {
        Option::None
    } else {
        parse_root(seg_of(b))
    }
}

// ---------------------------------------------------------------------
// The encoder
// ---------------------------------------------------------------------
/// Words occupied by the texts of all entries of `v`.
fn entries_size(v: &Vec<metadata::Builder>) -> (r: u64)
    requires
        v@.len() <= 0xFFFF,
        forall|i: int| 0 <= i < v@.len() ==> entry_wf(#[trigger] entries_view(v@)[i]),
    ensures
        r == entries_words_to(entries_view(v@), v@.len() as int),
        r <= 0x0400_0000 * v@.len(),
{
    let ghost es = entries_view(v@);
    let mut ew: u64 = 0;
    let mut i: usize = 0;
    while i < v.len()
        invariant
            es == entries_view(v@),
            v@.len() <= 0xFFFF,
            forall|k: int| 0 <= k < v@.len() ==> entry_wf(#[trigger] es[k]),
            i <= v@.len(),
            ew == entries_words_to(es, i as int),
            ew <= 0x0400_0000 * (i as int),
        decreases v@.len() - i,
    {
        let kw: u64 = match v[i].key_ref() {
            Option::Some(s) => (s.as_str().len() as u64 + 8) / 8,
            Option::None => 0,
        };
        let vw: u64 = match v[i].val_ref() {
            Option::Some(s) => (s.as_str().len() as u64 + 8) / 8,
            Option::None => 0,
        };
        proof {
            assert(es[i as int] == v@[i as int]@);
            assert(kw == opt_words(es[i as int].key));
            assert(vw == opt_words(es[i as int].val));
            assert(kw <= 0x0200_0000 && vw <= 0x0200_0000);
        }
        ew = ew + kw + vw;
        i = i + 1;
    }
    ew
}

/// Relies on `str::len`: it returns the byte length of the string,
/// which always fits in `usize`.
#[verifier::external_body]
pub fn str_byte_len(s: &str) -> (r: usize)
    ensures
        r == s.spec_bytes().len(),
{
    s.len()
}

/// Decide whether an envelope is small enough to encode: every text
/// must fit its count field and the whole segment its offset fields.
pub fn check_env_wf(
    with_data: bool,
    typ: u16,
    text: Option<&String>,
    entries: Option<&Vec<metadata::Builder>>,
) -> (r: bool)
    ensures
        r == env_wf(data_words(with_data), arg_view(typ, text, entries)),
{
    let ghost v = arg_view(typ, text, entries);
    let ghost d = data_words(with_data);
    let mut total: u64 = 3 + (if with_data {
        1
    } else {
        0
    });
    match text {
        Option::Some(s) => {
            proof {
                assert(v.text == Option::Some(s@));
            }
            if str_byte_len(s.as_str()) > 0x0FFF_FFFF {
                proof {
                    assert(!text_wf(v.text));
                }
                return false;
            }
            total = total + (str_byte_len(s.as_str()) as u64 + 8) / 8;
            proof {
                assert(text_wf(v.text));
                assert(total as int == 3 + d + opt_words(v.text));
            }
        },
        Option::None => {
            proof {
                assert(text_wf(v.text));
                assert(total as int == 3 + d + opt_words(v.text));
            }
        },
    }
    assert(text_wf(v.text));
    assert(total as int == 3 + d + opt_words(v.text));
    match entries {
        Option::Some(ev) => {
            let ghost es = entries_view(ev@);
            proof {
                assert(v.entries == Option::Some(es));
            }
            if ev.len() > 0xFFFF {
                return false;
            }
            let mut ew: u64 = 0;
            let mut i: usize = 0;
            while i < ev.len()
                invariant
                    es == entries_view(ev@),
                    v == arg_view(typ, text, entries),
                    d == data_words(with_data),
                    v.entries == Option::Some(es),
                    text_wf(v.text),
                    ev@.len() <= 0xFFFF,
                    i <= ev@.len(),
                    ew == entries_words_to(es, i as int),
                    ew <= 0x0400_0000 * (i as int),
                    forall|k: int| 0 <= k < i ==> entry_wf(#[trigger] es[k]),
                decreases ev@.len() - i,
            {
                proof {
                    assert(es[i as int] == ev@[i as int]@);
                }
                let kw: u64 = match ev[i].key_ref() {
                    Option::Some(s) => {
                        if str_byte_len(s.as_str()) > 0x0FFF_FFFF {
                            proof {
                                assert(!entry_wf(es[i as int]));
                                assert(!env_wf(d, v));
                            }
                            return false;
                        }
                        (str_byte_len(s.as_str()) as u64 + 8) / 8
                    },
                    Option::None => 0,
                };
                let vw: u64 = match ev[i].val_ref() {
                    Option::Some(s) => {
                        if str_byte_len(s.as_str()) > 0x0FFF_FFFF {
                            proof {
                                assert(!entry_wf(es[i as int]));
                                assert(!env_wf(d, v));
                            }
                            return false;
                        }
                        (str_byte_len(s.as_str()) as u64 + 8) / 8
                    },
                    Option::None => 0,
                };
                proof {
                    assert(kw == opt_words(es[i as int].key));
                    assert(vw == opt_words(es[i as int].val));
                    assert(kw <= 0x0200_0000 && vw <= 0x0200_0000);
                    assert(entry_wf(es[i as int]));
                }
                ew = ew + kw + vw;
                i = i + 1;
            }
            total = total + 1 + 2 * (ev.len() as u64) + ew;
            proof {
                assert(total as int == env_words(d, v));
            }
            let fits = total < 0x1000_0000;
            proof {
                assert(fits == env_wf(d, v));
            }
            return fits;
        },
        Option::None => {
            proof {
                assert(v.entries is None);
                assert(total as int == env_words(d, v));
            }
            let fits = total < 0x1000_0000;
            proof {
                assert(fits == env_wf(d, v));
            }
            return fits;
        },
    }
}

/// Encode an envelope. `with_data` selects whether the root struct
/// carries a data word (the request form) or none (the response form).
pub fn encode_envelope(
    with_data: bool,
    typ: u16,
    text: Option<&String>,
    entries: Option<&Vec<metadata::Builder>>,
) -> (r: Vec<u8>)
    requires
        env_wf(data_words(with_data), arg_view(typ, text, entries)),
        !with_data ==> typ == 0,
    ensures
        r@ == enc_envelope(data_words(with_data), arg_view(typ, text, entries)),
{
    let ghost v = arg_view(typ, text, entries);
    let ghost d = data_words(with_data);
    // Sizes.
    let twords: u64 = match text {
        Option::Some(s) => (s.as_str().len() as u64 + 8) / 8,
        Option::None => 0,
    };
    proof {
        assert(twords == opt_words(v.text));
        assert(twords <= 0x0200_0000);
    }
    let mut total: u64 = 3 + (if with_data {
        1
    } else {
        0
    }) + twords;
    let n: u64;
    let etw: u64;
    match entries {
        Option::Some(ev) => {
            proof {
                assert(v.entries == Option::Some(entries_view(ev@)));
            }
            n = ev.len() as u64;
            etw = entries_size(ev);
            total = total + 1 + 2 * n + etw;
        },
        Option::None => {
            n = 0;
            etw = 0;
        },
    }
    proof {
        assert(total as int == env_words(d, v));
        assert(total < 0x1000_0000);
    }
    let mut out: Vec<u8> = Vec::new();
    push_u32(&mut out, 0);
    push_u32(&mut out, total as u32);
    proof {
        assert(total as u32 == env_words(d, v) as u32);
        assert(out@ =~= spec_u32_to_le_bytes(0u32) + spec_u32_to_le_bytes(env_words(d, v) as u32));
    }
    // Root pointer.
    let root: u64 = (0u64 << 2) | ((if with_data {
        1u64
    } else {
        0u64
    }) << 32) | (2u64 << 48);
    proof {
        assert(root == struct_ptr(0, d as u64, 2));
    }
    push_word(&mut out, root);
    // Data section.
    if with_data {
        push_word(&mut out, typ as u64);
    }
    proof {
        assert(out@ =~= spec_u32_to_le_bytes(0u32) + spec_u32_to_le_bytes(env_words(d, v) as u32)
            + le64(struct_ptr(0, d as u64, 2)) + (if d == 1 {
            le64(v.typ as u64)
        } else {
            Seq::empty()
        }));
    }
    // Pointer section.
    match text {
        Option::Some(s) => {
            let cnt = s.as_str().len() as u64 + 1;
            let w = 1u64 | (1u64 << 2) | (2u64 << 32) | (cnt << 35);
            proof {
                assert(w == text0_ptr(v));
            }
            push_word(&mut out, w);
        },
        Option::None => {
            push_word(&mut out, 0u64);
            proof {
                assert(0u64 == text0_ptr(v));
            }
        },
    }
    match entries {
        Option::Some(ev) => {
            let w = 1u64 | (twords << 2) | (7u64 << 32) | ((2 * n) << 35);
            proof {
                assert(w == list0_ptr(v));
            }
            push_word(&mut out, w);
        },
        Option::None => {
            push_word(&mut out, 0u64);
            proof {
                assert(0u64 == list0_ptr(v));
            }
        },
    }
    // Text object.
    match text {
        Option::Some(s) => {
            push_text_block(&mut out, s.as_str().as_bytes());
        },
        Option::None => {},
    }
    let ghost prefix6 = spec_u32_to_le_bytes(0u32) + spec_u32_to_le_bytes(env_words(d, v) as u32)
        + le64(struct_ptr(0, d as u64, 2)) + (if d == 1 {
        le64(v.typ as u64)
    } else {
        Seq::empty()
    }) + le64(text0_ptr(v)) + le64(list0_ptr(v)) + opt_block(v.text);
    proof {
        assert(out@ =~= prefix6);
    }
    // List object.
    match entries {
        Option::Some(ev) => {
            let ghost es = entries_view(ev@);
            let tag: u64 = (n << 2) | (0u64 << 32) | (2u64 << 48);
            proof {
                assert(tag == struct_ptr(es.len() as u64, 0, 2));
            }
            push_word(&mut out, tag);
            let ghost base = out@;
            // Entry pointer pairs.
            let mut ew: u64 = 0;
            let mut i: usize = 0;
            while i < ev.len()
                invariant
                    es == entries_view(ev@),
                    n == ev@.len(),
                    n <= 0xFFFF,
                    forall|k: int| 0 <= k < es.len() ==> entry_wf(#[trigger] es[k]),
                    i <= ev@.len(),
                    ew == entries_words_to(es, i as int),
                    1 + 2 * n + entries_words_to(es, n as int) <= total < 0x1000_0000,
                    etw == entries_words_to(es, n as int),
                    out@ == base + entry_pairs(es, n as int, i as int),
                decreases ev@.len() - i,
            {
                proof {
                    lemma_entries_words_mono(es, i as int, n as int);
                    lemma_entries_words_mono(es, i as int + 1, n as int);
                    lemma_entries_words_nonneg(es, i as int);
                    assert(es[i as int] == ev@[i as int]@);
                }
                let kw: u64;
                let kp: u64;
                match ev[i].key_ref() {
                    Option::Some(s) => {
                        let klen = s.as_str().len() as u64;
                        kw = (klen + 8) / 8;
                        let off = 2 * (n - i as u64) + ew - 1;
                        kp = 1u64 | (off << 2) | (2u64 << 32) | ((klen + 1) << 35);
                        proof {
                            assert(off == (2 * (n as int - i as int) + entries_words_to(
                                es,
                                i as int,
                            ) - 1) as u64);
                            assert(kp == key_ptr(es, n as int, i as int));
                            assert(kw == opt_words(es[i as int].key));
                        }
                    },
                    Option::None => {
                        kw = 0;
                        kp = 0;
                        proof {
                            assert(kp == key_ptr(es, n as int, i as int));
                        }
                    },
                }
                push_word(&mut out, kp);
                let vw: u64;
                let vp: u64;
                match ev[i].val_ref() {
                    Option::Some(s) => {
                        let vlen = s.as_str().len() as u64;
                        vw = (vlen + 8) / 8;
                        let off = 2 * (n - i as u64) + ew + kw - 2;
                        vp = 1u64 | (off << 2) | (2u64 << 32) | ((vlen + 1) << 35);
                        proof {
                            assert(off == (2 * (n as int - i as int) + entries_words_to(
                                es,
                                i as int,
                            ) + opt_words(es[i as int].key) - 2) as u64);
                            assert(vp == val_ptr(es, n as int, i as int));
                            assert(vw == opt_words(es[i as int].val));
                        }
                    },
                    Option::None => {
                        vw = 0;
                        vp = 0;
                        proof {
                            assert(vp == val_ptr(es, n as int, i as int));
                        }
                    },
                }
                push_word(&mut out, vp);
                ew = ew + kw + vw;
                i = i + 1;
                proof {
                    assert(base + entry_pairs(es, n as int, i as int) =~= ((base + entry_pairs(
                        es,
                        n as int,
                        i as int - 1,
                    )) + le64(key_ptr(es, n as int, i as int - 1))) + le64(
                        val_ptr(es, n as int, i as int - 1),
                    ));
                }
            }
            // Entry texts.
            let ghost base2 = out@;
            let mut j: usize = 0;
            while j < ev.len()
                invariant
                    es == entries_view(ev@),
                    j <= ev@.len(),
                    out@ == base2 + entry_texts(es, j as int),
                decreases ev@.len() - j,
            {
                proof {
                    assert(es[j as int] == ev@[j as int]@);
                }
                let ghost before = out@;
                match ev[j].key_ref() {
                    Option::Some(s) => {
                        push_text_block(&mut out, s.as_str().as_bytes());
                    },
                    Option::None => {},
                }
                proof {
                    assert(out@ =~= before + opt_block(es[j as int].key));
                }
                let ghost mid = out@;
                match ev[j].val_ref() {
                    Option::Some(s) => {
                        push_text_block(&mut out, s.as_str().as_bytes());
                    },
                    Option::None => {},
                }
                j = j + 1;
                proof {
                    assert(out@ =~= mid + opt_block(es[j as int - 1].val));
                    assert(base2 + entry_texts(es, j as int) =~= ((base2 + entry_texts(
                        es,
                        j as int - 1,
                    )) + opt_block(es[j as int - 1].key)) + opt_block(es[j as int - 1].val));
                }
            }
            proof {
                assert(out@ =~= prefix6 + list_region(es));
                assert(out@ =~= enc_envelope(d, v));
            }
        },
        Option::None => {
            proof {
                assert(out@ =~= enc_envelope(d, v));
            }
        },
    }
    out
}

// ---------------------------------------------------------------------
// Round trip: parsing inverts encoding
// ---------------------------------------------------------------------
/// The pointer pairs of entries `i` to `j`.
pub open spec fn entry_pairs_range(es: Seq<EntryView>, n: int, i: int, j: int) -> Seq<u8>
    decreases j - i,
{
    if j <= i {
        Seq::empty()
    } else {
        entry_pairs_range(es, n, i, j - 1) + le64(key_ptr(es, n, j - 1)) + le64(
            val_ptr(es, n, j - 1),
        )
    }
}

/// The text blocks of entries `i` to `j`.
pub open spec fn entry_texts_range(es: Seq<EntryView>, i: int, j: int) -> Seq<u8>
    decreases j - i,
{
    if j <= i {
        Seq::empty()
    } else {
        entry_texts_range(es, i, j - 1) + opt_block(es[j - 1].key) + opt_block(es[j - 1].val)
    }
}

proof fn lemma_pairs_is_range(es: Seq<EntryView>, n: int, i: int)
    ensures
        entry_pairs(es, n, i) == entry_pairs_range(es, n, 0, i),
    decreases i,
{
    if i > 0 {
        lemma_pairs_is_range(es, n, i - 1);
    }
}

proof fn lemma_texts_is_range(es: Seq<EntryView>, i: int)
    ensures
        entry_texts(es, i) == entry_texts_range(es, 0, i),
    decreases i,
{
    if i > 0 {
        lemma_texts_is_range(es, i - 1);
    }
}

proof fn lemma_pairs_range_split(es: Seq<EntryView>, n: int, i: int, k: int, j: int)
    requires
        i <= k <= j,
    ensures
        entry_pairs_range(es, n, i, j) == entry_pairs_range(es, n, i, k) + entry_pairs_range(
            es,
            n,
            k,
            j,
        ),
    decreases j - k,
{
    if j == k {
        assert(entry_pairs_range(es, n, i, k) + entry_pairs_range(es, n, k, j) =~= entry_pairs_range(
            es,
            n,
            i,
            j,
        ));
    } else {
        lemma_pairs_range_split(es, n, i, k, j - 1);
        assert(entry_pairs_range(es, n, i, k) + entry_pairs_range(es, n, k, j) =~= entry_pairs_range(
            es,
            n,
            i,
            j,
        ));
    }
}

proof fn lemma_texts_range_split(es: Seq<EntryView>, i: int, k: int, j: int)
    requires
        i <= k <= j,
    ensures
        entry_texts_range(es, i, j) == entry_texts_range(es, i, k) + entry_texts_range(es, k, j),
    decreases j - k,
{
    if j == k {
        assert(entry_texts_range(es, i, k) + entry_texts_range(es, k, j) =~= entry_texts_range(
            es,
            i,
            j,
        ));
    } else {
        lemma_texts_range_split(es, i, k, j - 1);
        assert(entry_texts_range(es, i, k) + entry_texts_range(es, k, j) =~= entry_texts_range(
            es,
            i,
            j,
        ));
    }
}

proof fn lemma_le64_len(x: u64)
    ensures
        le64(x).len() == 8,
{
    vstd::bytes::lemma_auto_spec_u64_to_from_le_bytes();
}

proof fn lemma_opt_block_len(t: Option<Seq<char>>)
    ensures
        opt_block(t).len() == 8 * opt_words(t),
{
    match t {
        Option::Some(s) => lemma_text_block_len(encode_utf8(s)),
        Option::None => {},
    }
}

proof fn lemma_pairs_range_len(es: Seq<EntryView>, n: int, i: int, j: int)
    requires
        i <= j,
    ensures
        entry_pairs_range(es, n, i, j).len() == 16 * (j - i),
    decreases j - i,
{
    if i < j {
        lemma_pairs_range_len(es, n, i, j - 1);
        lemma_le64_len(key_ptr(es, n, j - 1));
        lemma_le64_len(val_ptr(es, n, j - 1));
    }
}

proof fn lemma_texts_range_len(es: Seq<EntryView>, i: int, j: int)
    requires
        0 <= i <= j,
    ensures
        entry_texts_range(es, i, j).len() == 8 * (entries_words_to(es, j) - entries_words_to(
            es,
            i,
        )),
    decreases j - i,
{
    if i < j {
        lemma_texts_range_len(es, i, j - 1);
        lemma_opt_block_len(es[j - 1].key);
        lemma_opt_block_len(es[j - 1].val);
        assert(entries_words_to(es, j) == entries_words_to(es, j - 1) + entry_words(es[j - 1]));
    }
}

/// A text block whose position and pointer agree parses back to the
/// characters it encodes.
proof fn lemma_parse_text_at(seg: Seq<u8>, pre: Seq<u8>, s: Seq<char>, post: Seq<u8>, pos: int, w: u64)
    requires
        seg == pre + text_block(encode_utf8(s)) + post,
        pre.len() % 8 == 0,
        encode_utf8(s).len() <= 0x0FFF_FFFF,
        0 <= pos,
        pos + 1 <= pre.len() as int / 8,
        pre.len() as int / 8 - pos - 1 < 0x2000_0000,
        w == list_ptr(
            (pre.len() as int / 8 - pos - 1) as u64,
            2,
            (encode_utf8(s).len() + 1) as u64,
        ),
    ensures
        parse_text(seg, w, pos) == Option::Some(Option::Some(s)),
{
    broadcast use vstd::utf8::encode_utf8_valid_utf8;

    let bytes = encode_utf8(s);
    let len = bytes.len() as int;
    let off = pre.len() as int / 8 - pos - 1;
    lemma_list_ptr_fields(off as u64, 2, (len + 1) as u64);
    lemma_text_block_len(bytes);
    lemma_text_words_bounds(len);
    let start = pos + 1 + off;
    assert(8 * start == pre.len());
    assert(text_words((len + 1) - 1) == text_words(len));
    assert(seg.len() == pre.len() + text_block(bytes).len() + post.len());
    // The NUL terminator sits right after the bytes.
    assert(seg[8 * start + len] == text_block(bytes)[len]);
    assert(text_block(bytes)[len] == 0) by {
        assert(text_block(bytes) == bytes + seq![0u8] + zeros(
            8 * text_words(len) - len - 1,
        ));
    }
    // The bytes read back intact.
    assert(seg.subrange(8 * start, 8 * start + len) =~= bytes);
    vstd::utf8::encode_utf8_decode_utf8(s);
}

/// One entry of a canonically encoded list parses back intact.
#[verifier::rlimit(100)]
#[verifier::spinoff_prover]
proof fn lemma_parse_entry_of_enc(seg: Seq<u8>, pre: Seq<u8>, es: Seq<EntryView>, n: int, i: int)
    requires
        n == es.len(),
        0 <= i < n,
        n <= 0xFFFF,
        forall|k: int| 0 <= k < n ==> entry_wf(#[trigger] es[k]),
        entries_words_to(es, n) + 2 * n < 0x1000_0000,
        seg == pre + entry_pairs_range(es, n, 0, n) + entry_texts_range(es, 0, n),
        pre.len() % 8 == 0,
    ensures
        parse_entry(seg, pre.len() as int / 8 + 2 * i, 0, 2) == Option::Some(es[i]),
{
    let base = pre.len() as int / 8;
    let e = es[i];
    let ewi = entries_words_to(es, i);
    lemma_entries_words_nonneg(es, i);
    lemma_entries_words_mono(es, i, n);
    lemma_entries_words_mono(es, i + 1, n);
    lemma_opt_words_nonneg(e.key);
    lemma_opt_words_nonneg(e.val);
    // Decompose the pairs region around entry i.
    lemma_pairs_range_split(es, n, 0, i, n);
    lemma_pairs_range_split(es, n, i, i + 1, n);
    lemma_pairs_range_len(es, n, 0, i);
    lemma_pairs_range_len(es, n, 0, n);
    lemma_le64_len(key_ptr(es, n, i));
    lemma_le64_len(val_ptr(es, n, i));
    let kp = key_ptr(es, n, i);
    let vp = val_ptr(es, n, i);
    let pairs_before = entry_pairs_range(es, n, 0, i);
    let pairs_after = entry_pairs_range(es, n, i + 1, n);
    let texts_all = entry_texts_range(es, 0, n);
    assert(entry_pairs_range(es, n, i, i + 1) =~= le64(kp) + le64(vp)) by {
        assert(entry_pairs_range(es, n, i, i) =~= Seq::<u8>::empty());
        assert(Seq::<u8>::empty() + le64(kp) + le64(vp) =~= le64(kp) + le64(vp));
    }
    assert(seg =~= (pre + pairs_before) + le64(kp) + (le64(vp) + pairs_after + texts_all));
    crate::wire::lemma_word_mid(pre + pairs_before, kp, le64(vp) + pairs_after + texts_all);
    assert(seg =~= ((pre + pairs_before) + le64(kp)) + le64(vp) + (pairs_after + texts_all));
    crate::wire::lemma_word_mid((pre + pairs_before) + le64(kp), vp, pairs_after + texts_all);
    let epos = base + 2 * i;
    assert(word_at(seg, epos) == kp);
    assert(word_at(seg, epos + 1) == vp);
    // Decompose the texts region around entry i.
    lemma_texts_range_split(es, 0, i, n);
    lemma_texts_range_split(es, i, i + 1, n);
    lemma_texts_range_len(es, 0, i);
    lemma_texts_range_len(es, 0, n);
    lemma_entries_words_nonneg(es, n);
    lemma_opt_block_len(e.key);
    lemma_opt_block_len(e.val);
    let texts_before = entry_texts_range(es, 0, i);
    let texts_after = entry_texts_range(es, i + 1, n);
    assert(entry_texts_range(es, i, i + 1) =~= opt_block(e.key) + opt_block(e.val)) by {
        assert(entry_texts_range(es, i, i) =~= Seq::<u8>::empty());
        assert(Seq::<u8>::empty() + opt_block(e.key) + opt_block(e.val) =~= opt_block(e.key)
            + opt_block(e.val));
    }
    let pre_k = pre + entry_pairs_range(es, n, 0, n) + texts_before;
    assert(pre_k.len() == pre.len() + 16 * n + 8 * ewi);
    // Key text.
    match e.key {
        Option::None => {
            assert(kp == 0);
            assert(parse_text(seg, kp, epos) == Option::Some(Option::None::<Seq<char>>));
        },
        Option::Some(s) => {
            assert(seg =~= pre_k + text_block(encode_utf8(s)) + (opt_block(e.val) + texts_after));
            assert(pre_k.len() as int / 8 - epos - 1 == 2 * (n - i) + ewi - 1);
            lemma_parse_text_at(seg, pre_k, s, opt_block(e.val) + texts_after, epos, kp);
        },
    }
    // Value text.
    let pre_v = pre_k + opt_block(e.key);
    assert(pre_v.len() == pre.len() + 16 * n + 8 * (ewi + opt_words(e.key)));
    match e.val {
        Option::None => {
            assert(vp == 0);
            assert(parse_text(seg, vp, epos + 1) == Option::Some(Option::None::<Seq<char>>));
        },
        Option::Some(s) => {
            assert(seg =~= pre_v + text_block(encode_utf8(s)) + texts_after);
            assert(pre_v.len() as int / 8 - (epos + 1) - 1 == 2 * (n - i) + ewi + opt_words(e.key)
                - 2);
            lemma_parse_text_at(seg, pre_v, s, texts_after, epos + 1, vp);
        },
    }
    assert(parse_entry(seg, epos, 0, 2) == Option::Some(e)) by {
        assert(parse_text(seg, word_at(seg, epos), epos) == Option::Some(e.key));
        assert(parse_text(seg, word_at(seg, epos + 1), epos + 1) == Option::Some(e.val));
        assert((EntryView { key: e.key, val: e.val }) == e);
    }
}

/// The entries of a canonically encoded list parse back intact.
proof fn lemma_parse_entries_of_enc(seg: Seq<u8>, pre: Seq<u8>, es: Seq<EntryView>, n: int, m: int)
    requires
        n == es.len(),
        0 <= m <= n,
        n <= 0xFFFF,
        forall|i: int| 0 <= i < n ==> entry_wf(#[trigger] es[i]),
        entries_words_to(es, n) + 2 * n < 0x1000_0000,
        seg == pre + entry_pairs_range(es, n, 0, n) + entry_texts_range(es, 0, n),
        pre.len() % 8 == 0,
    ensures
        parse_entries(seg, pre.len() as int / 8, m, 0, 2) == Option::Some(es.take(m)),
    decreases m,
{
    if m == 0 {
        assert(es.take(0) =~= Seq::<EntryView>::empty());
    } else {
        let base = pre.len() as int / 8;
        lemma_parse_entries_of_enc(seg, pre, es, n, m - 1);
        lemma_parse_entry_of_enc(seg, pre, es, n, m - 1);
        assert(base + (m - 1) * (0 + 2) == base + 2 * (m - 1)) by (nonlinear_arith);
        assert(parse_entry(seg, base + 2 * (m - 1), 0, 2) == Option::Some(es[m - 1]));
        assert(es.take(m) =~= es.take(m - 1).push(es[m - 1]));
    }
}

/// A canonically encoded entry list behind its pointer parses back
/// intact.
#[verifier::rlimit(100)]
#[verifier::spinoff_prover]
proof fn lemma_parse_list_of_enc(seg: Seq<u8>, pre: Seq<u8>, es: Seq<EntryView>, pos: int, w: u64)
    requires
        seg == pre + list_region(es),
        pre.len() % 8 == 0,
        es.len() <= 0xFFFF,
        forall|i: int| 0 <= i < es.len() ==> entry_wf(#[trigger] es[i]),
        entries_words_to(es, es.len() as int) + 2 * es.len() < 0x1000_0000,
        0 <= pos,
        pos + 1 <= pre.len() as int / 8,
        pre.len() as int / 8 - pos - 1 < 0x2000_0000,
        w == list_ptr((pre.len() as int / 8 - pos - 1) as u64, 7, (2 * es.len()) as u64),
    ensures
        parse_list(seg, w, pos) == Option::Some(Option::Some(es)),
{
    let n = es.len() as int;
    let off = pre.len() as int / 8 - pos - 1;
    lemma_list_ptr_fields(off as u64, 7, (2 * es.len()) as u64);
    let lpos = pos + 1 + off;
    assert(8 * lpos == pre.len());
    let tag = struct_ptr(es.len() as u64, 0, 2);
    lemma_le64_len(tag);
    lemma_pairs_is_range(es, n, n);
    lemma_texts_is_range(es, n);
    lemma_pairs_range_len(es, n, 0, n);
    lemma_texts_range_len(es, 0, n);
    lemma_entries_words_nonneg(es, n);
    let pairs = entry_pairs_range(es, n, 0, n);
    let texts = entry_texts_range(es, 0, n);
    assert(list_region(es) == le64(tag) + pairs + texts);
    assert(seg.len() == pre.len() + 8 + 16 * n + 8 * entries_words_to(es, n));
    assert(seg =~= pre + le64(tag) + (pairs + texts));
    crate::wire::lemma_word_mid(pre, tag, pairs + texts);
    assert(word_at(seg, lpos) == tag);
    lemma_struct_ptr_fields(es.len() as u64, 0, 2);
    assert(n * (0 + 2) == 2 * n) by (nonlinear_arith);
    let pre_entries = pre + le64(tag);
    assert(seg =~= pre_entries + pairs + texts);
    lemma_parse_entries_of_enc(seg, pre_entries, es, n, n);
    assert(pre_entries.len() as int / 8 == lpos + 1);
    assert(es.take(n) =~= es);
    assert(parse_entries(seg, lpos + 1, n, 0, 2) == Option::Some(es));
}

/// The segment of an encoded envelope: everything after the segment
/// table.
pub open spec fn enc_segment(d: int, v: EnvelopeView) -> Seq<u8> {
    le64(struct_ptr(0, d as u64, 2)) + (if d == 1 {
        le64(v.typ as u64)
    } else {
        Seq::empty()
    }) + le64(text0_ptr(v)) + le64(list0_ptr(v)) + opt_block(v.text) + (match v.entries {
        Option::Some(es) => list_region(es),
        Option::None => Seq::empty(),
    })
}

/// Lengths of the pieces of an encoded envelope, and the fact that the
/// message is the segment table followed by the segment.
proof fn lemma_enc_shape(d: int, v: EnvelopeView)
    requires
        d == 0 || d == 1,
    ensures
        enc_segment(d, v).len() == 8 * env_words(d, v),
        enc_envelope(d, v).len() == 8 + 8 * env_words(d, v),
        seg_of(enc_envelope(d, v)) == enc_segment(d, v),
        env_words(d, v) >= 3 + d,
        opt_words(v.text) >= 0,
{
    lemma_auto_spec_u32_to_from_le_bytes();
    lemma_le64_len(struct_ptr(0, d as u64, 2));
    lemma_le64_len(v.typ as u64);
    lemma_le64_len(text0_ptr(v));
    lemma_le64_len(list0_ptr(v));
    lemma_opt_words_nonneg(v.text);
    lemma_opt_block_len(v.text);
    match v.entries {
        Option::Some(es) => {
            let n = es.len() as int;
            lemma_pairs_is_range(es, n, n);
            lemma_texts_is_range(es, n);
            lemma_pairs_range_len(es, n, 0, n);
            lemma_texts_range_len(es, 0, n);
            lemma_le64_len(struct_ptr(es.len() as u64, 0, 2));
            lemma_entries_words_nonneg(es, n);
        },
        Option::None => {},
    }
    assert(seg_of(enc_envelope(d, v)) =~= enc_segment(d, v));
}

/// The fixed words of the segment read back as written.
#[verifier::spinoff_prover]
proof fn lemma_segment_words(d: int, v: EnvelopeView)
    requires
        d == 0 || d == 1,
    ensures
        word_at(enc_segment(d, v), 0) == struct_ptr(0, d as u64, 2),
        d == 1 ==> word_at(enc_segment(d, v), 1) == v.typ as u64,
        word_at(enc_segment(d, v), 1 + d) == text0_ptr(v),
        word_at(enc_segment(d, v), 2 + d) == list0_ptr(v),
{
    let seg = enc_segment(d, v);
    let rw = le64(struct_ptr(0, d as u64, 2));
    let dwb: Seq<u8> = if d == 1 {
        le64(v.typ as u64)
    } else {
        Seq::empty()
    };
    let p0b = le64(text0_ptr(v));
    let p1b = le64(list0_ptr(v));
    let tb = opt_block(v.text);
    let lr: Seq<u8> = match v.entries {
        Option::Some(es) => list_region(es),
        Option::None => Seq::empty(),
    };
    lemma_le64_len(struct_ptr(0, d as u64, 2));
    lemma_le64_len(v.typ as u64);
    lemma_le64_len(text0_ptr(v));
    lemma_le64_len(list0_ptr(v));
    assert(seg =~= Seq::<u8>::empty() + rw + (dwb + p0b + p1b + tb + lr));
    crate::wire::lemma_word_mid(Seq::<u8>::empty(), struct_ptr(0, d as u64, 2), dwb + p0b + p1b
        + tb + lr);
    if d == 1 {
        assert(seg =~= rw + le64(v.typ as u64) + (p0b + p1b + tb + lr));
        crate::wire::lemma_word_mid(rw, v.typ as u64, p0b + p1b + tb + lr);
    }
    assert(seg =~= (rw + dwb) + p0b + (p1b + tb + lr));
    crate::wire::lemma_word_mid(rw + dwb, text0_ptr(v), p1b + tb + lr);
    assert(seg =~= (rw + dwb + p0b) + p1b + (tb + lr));
    crate::wire::lemma_word_mid(rw + dwb + p0b, list0_ptr(v), tb + lr);
}

/// The text field of the segment parses back.
#[verifier::spinoff_prover]
proof fn lemma_segment_text(d: int, v: EnvelopeView)
    requires
        d == 0 || d == 1,
        text_wf(v.text),
    ensures
        parse_text(enc_segment(d, v), text0_ptr(v), 1 + d) == Option::Some(v.text),
{
    let seg = enc_segment(d, v);
    match v.text {
        Option::None => {
            assert(text0_ptr(v) == 0);
        },
        Option::Some(s) => {
            let rw = le64(struct_ptr(0, d as u64, 2));
            let dwb: Seq<u8> = if d == 1 {
                le64(v.typ as u64)
            } else {
                Seq::empty()
            };
            let p0b = le64(text0_ptr(v));
            let p1b = le64(list0_ptr(v));
            let lr: Seq<u8> = match v.entries {
                Option::Some(es) => list_region(es),
                Option::None => Seq::empty(),
            };
            lemma_le64_len(struct_ptr(0, d as u64, 2));
            lemma_le64_len(v.typ as u64);
            lemma_le64_len(text0_ptr(v));
            lemma_le64_len(list0_ptr(v));
            let pre = rw + dwb + p0b + p1b;
            assert(pre.len() == 8 * (3 + d));
            assert(seg =~= pre + text_block(encode_utf8(s)) + lr);
            assert(pre.len() as int / 8 - (1 + d) - 1 == 1);
            lemma_parse_text_at(seg, pre, s, lr, 1 + d, text0_ptr(v));
        },
    }
}

/// The entry list of the segment parses back.
#[verifier::spinoff_prover]
proof fn lemma_segment_list(d: int, v: EnvelopeView)
    requires
        d == 0 || d == 1,
        env_wf(d, v),
    ensures
        parse_list(enc_segment(d, v), list0_ptr(v), 2 + d) == Option::Some(v.entries),
{
    let seg = enc_segment(d, v);
    let tw = opt_words(v.text);
    lemma_opt_words_nonneg(v.text);
    match v.entries {
        Option::None => {
            assert(list0_ptr(v) == 0);
        },
        Option::Some(es) => {
            let rw = le64(struct_ptr(0, d as u64, 2));
            let dwb: Seq<u8> = if d == 1 {
                le64(v.typ as u64)
            } else {
                Seq::empty()
            };
            let p0b = le64(text0_ptr(v));
            let p1b = le64(list0_ptr(v));
            let tb = opt_block(v.text);
            lemma_le64_len(struct_ptr(0, d as u64, 2));
            lemma_le64_len(v.typ as u64);
            lemma_le64_len(text0_ptr(v));
            lemma_le64_len(list0_ptr(v));
            lemma_opt_block_len(v.text);
            let pre = rw + dwb + p0b + p1b + tb;
            assert(pre.len() == 8 * (3 + d + tw));
            assert(seg =~= pre + list_region(es));
            assert(pre.len() as int / 8 - (2 + d) - 1 == tw);
            lemma_entries_words_nonneg(es, es.len() as int);
            assert(entries_words_to(es, es.len() as int) + 2 * es.len() < 0x1000_0000);
            lemma_parse_list_of_enc(seg, pre, es, 2 + d, list0_ptr(v));
        },
    }
}

/// Parsing inverts encoding: every well-formed envelope is recovered
/// exactly from its encoded bytes.
#[verifier::rlimit(100)]
#[verifier::spinoff_prover]
pub proof fn lemma_envelope_round_trip(d: int, v: EnvelopeView)
    requires
        d == 0 || d == 1,
        d == 0 ==> v.typ == 0,
        env_wf(d, v),
    ensures
        parse_envelope(enc_envelope(d, v)) == Option::Some(v),
{
    lemma_auto_spec_u32_to_from_le_bytes();
    let b = enc_envelope(d, v);
    let total = env_words(d, v);
    lemma_enc_shape(d, v);
    // The header parses: one segment of exactly the remaining words.
    assert(b.subrange(0, 4) =~= spec_u32_to_le_bytes(0u32));
    assert(b.subrange(4, 8) =~= spec_u32_to_le_bytes(total as u32));
    assert(spec_u32_from_le_bytes(b.subrange(0, 4)) == 0);
    assert(spec_u32_from_le_bytes(b.subrange(4, 8)) == total as u32);
    assert((total as u32) as int == total);
    let seg = seg_of(b);
    assert(seg == enc_segment(d, v));
    // The root pointer and the struct's words.
    lemma_segment_words(d, v);
    let root = struct_ptr(0, d as u64, 2);
    lemma_struct_ptr_fields(0, d as u64, 2);
    assert(root != 0);
    // The fields parse back.
    lemma_segment_text(d, v);
    lemma_segment_list(d, v);
    if d == 1 {
        let t = v.typ as u64;
        assert(t < 0x1_0000 ==> (t & 0xFFFF) == t) by (bit_vector);
        assert(((word_at(seg, 1) & 0xFFFF) as u16) == v.typ);
    }
    assert(8 * (1 + d + 2) <= seg.len());
    assert(parse_root(seg) == Option::Some(v)) by {
        assert(ptr_kind(root) == 0 && ptr_off(root) == 0);
        assert(struct_data_words(root) == d as u64);
        assert(struct_ptr_words(root) == 2);
        assert((EnvelopeView { typ: v.typ, text: v.text, entries: v.entries }) == v);
    }
}

// ---------------------------------------------------------------------
// The decoder
// ---------------------------------------------------------------------
/// Reading a word of the segment reads the next word of the message.
proof fn lemma_seg_word(b: Seq<u8>, w: int)
    requires
        0 <= w,
        8 * w + 8 <= b.len() - 8,
    ensures
        word_at(seg_of(b), w) == word_at(b, w + 1),
{
    assert(seg_of(b).subrange(8 * w, 8 * w + 8) =~= b.subrange(8 * (w + 1), 8 * (w + 1) + 8));
}

/// A byte of the segment is the byte 8 places later in the message.
proof fn lemma_seg_index(b: Seq<u8>, k: int)
    requires
        0 <= k,
        k < b.len() - 8,
    ensures
        seg_of(b)[k] == b[k + 8],
{
}

/// A range of the segment is the range 8 places later in the message.
proof fn lemma_seg_subrange(b: Seq<u8>, x: int, y: int)
    requires
        0 <= x <= y,
        y <= b.len() - 8,
    ensures
        seg_of(b).subrange(x, y) == b.subrange(x + 8, y + 8),
{
    assert(seg_of(b).subrange(x, y) =~= b.subrange(x + 8, y + 8));
}

/// Relies on `String::from_utf8`: it returns the string made of the
/// given bytes exactly when they are valid UTF-8, and an error
/// otherwise.
#[verifier::external_body]
fn bytes_to_string(v: Vec<u8>) -> (r: Option<String>)
    ensures
        r matches Option::Some(s) ==> encode_utf8(s@) == v@ && valid_utf8(v@),
        valid_utf8(v@) ==> r is Some,
{
    match String::from_utf8(v) {
        Ok(s) => Option::Some(s),
        Err(_) => Option::None,
    }
}

/// Decode the text behind pointer word `w` standing at segment word
/// `pos`.
fn decode_text(b: &[u8], seg_words: u64, w: u64, pos: u64) -> (r: Option<Option<String>>)
    requires
        b@.len() % 8 == 0,
        b@.len() >= 8,
        8 * seg_words == b@.len() - 8,
        seg_words < 0x1_0000_0000,
        pos <= seg_words + 2,
    ensures
        match r {
            Option::Some(t) => parse_text(seg_of(b@), w, pos as int) == Option::Some(
                metadata::text_view(t),
            ),
            Option::None => parse_text(seg_of(b@), w, pos as int) is None,
        },
{
    let blen = b.len();
    proof {
        lemma_ptr_field_ranges(w);
    }
    if w == 0 {
        return Option::Some(Option::None);
    }
    if w & 3 != 1 {
        return Option::None;
    }
    if (w >> 32) & 7 != 2 {
        return Option::None;
    }
    let off = (w >> 2) & 0x3FFF_FFFF;
    if off >= 0x2000_0000 {
        return Option::None;
    }
    let start = pos + 1 + off;
    let count = (w >> 35) & 0x1FFF_FFFF;
    if count < 1 {
        return Option::None;
    }
    let bwords = (count - 1 + 8) / 8;
    if start > seg_words || bwords > seg_words - start {
        return Option::None;
    }
    let ghost seg = seg_of(b@);
    proof {
        assert(8 * (start as int + text_words(count as int - 1)) <= seg.len());
        lemma_text_words_bounds(count as int - 1);
    }
    let nul_idx = 8 * start + count + 7;
    proof {
        lemma_seg_index(b@, 8 * (start as int) + count as int - 1);
    }
    if *vstd::slice::slice_index_get(b, nul_idx as usize) != 0 {
        return Option::None;
    }
    let s_lo = (8 * start + 8) as usize;
    let s_hi = (8 * start + 8 + count - 1) as usize;
    let bytes = vstd::slice::slice_to_vec(slice_subrange(b, s_lo, s_hi));
    proof {
        lemma_seg_subrange(b@, 8 * (start as int), 8 * (start as int) + count as int - 1);
        assert(bytes@ == seg.subrange(8 * (start as int), 8 * (start as int) + count as int - 1));
    }
    match bytes_to_string(bytes) {
        Option::Some(s) => {
            proof {
                vstd::utf8::encode_utf8_decode_utf8(s@);
            }
            Option::Some(Option::Some(s))
        },
        Option::None => Option::None,
    }
}

/// Once a prefix of the list fails to parse, every longer prefix
/// fails too.
proof fn lemma_parse_entries_none(seg: Seq<u8>, base: int, i: int, j: int, dw: int, pw: int)
    requires
        0 <= i <= j,
        parse_entries(seg, base, i, dw, pw) is None,
    ensures
        parse_entries(seg, base, j, dw, pw) is None,
    decreases j - i,
{
    if i < j {
        lemma_parse_entries_none(seg, base, i, j - 1, dw, pw);
    }
}

/// Decode `n` list elements of `dw + pw` words each, starting at
/// segment word `base`.
fn decode_entries(b: &[u8], seg_words: u64, base: u64, n: u64, dw: u64, pw: u64) -> (r: Option<
    Vec<metadata::Reader>,
>)
    requires
        b@.len() % 8 == 0,
        b@.len() >= 8,
        8 * seg_words == b@.len() - 8,
        seg_words < 0x1_0000_0000,
        n < 0x2000_0000,
        dw < 0x1_0000,
        pw < 0x1_0000,
        base + n * (dw + pw) <= seg_words,
    ensures
        match r {
            Option::Some(v) => parse_entries(seg_of(b@), base as int, n as int, dw as int, pw as int)
                == Option::Some(readers_view(v@)),
            Option::None => parse_entries(seg_of(b@), base as int, n as int, dw as int, pw as int)
                is None,
        },
{
    let blen = b.len();
    let ghost seg = seg_of(b@);
    let mut acc: Vec<metadata::Reader> = Vec::new();
    let mut i: u64 = 0;
    proof {
        assert(readers_view(acc@) =~= Seq::<EntryView>::empty());
    }
    while i < n
        invariant
            b@.len() % 8 == 0,
            b@.len() >= 8,
            8 * seg_words == b@.len() - 8,
            seg_words < 0x1_0000_0000,
            blen == b@.len(),
            seg == seg_of(b@),
            n < 0x2000_0000,
            dw < 0x1_0000,
            pw < 0x1_0000,
            base + n * (dw + pw) <= seg_words,
            i <= n,
            parse_entries(seg, base as int, i as int, dw as int, pw as int) == Option::Some(
                readers_view(acc@),
            ),
        decreases n - i,
    {
        proof {
            assert((i as int) * ((dw + pw) as int) <= (n as int) * ((dw + pw) as int)) by (
            nonlinear_arith)
                requires
                    i <= n,
                    dw + pw >= 0,
            ;
            assert((i as int + 1) * ((dw + pw) as int) <= (n as int) * ((dw + pw) as int)) by (
            nonlinear_arith)
                requires
                    i < n,
                    dw + pw >= 0,
            ;
            assert((n as int) * ((dw + pw) as int) < 0x2000_0000 * 0x2_0000) by (nonlinear_arith)
                requires
                    0 <= n < 0x2000_0000,
                    0 <= dw < 0x1_0000,
                    0 <= pw < 0x1_0000,
            ;
            assert((i as int + 1) * ((dw + pw) as int) == (i as int) * ((dw + pw) as int) + (
            dw as int) + (pw as int)) by (nonlinear_arith);
        }
        let epos = base + i * (dw + pw);
        proof {
            assert(epos + dw + pw <= seg_words);
        }
        let p0 = if pw >= 1 {
            proof {
                lemma_seg_word(b@, epos as int + dw as int);
            }
            read_word(b, (epos + dw + 1) as usize)
        } else {
            0
        };
        let p1 = if pw >= 2 {
            proof {
                lemma_seg_word(b@, epos as int + dw as int + 1);
            }
            read_word(b, (epos + dw + 2) as usize)
        } else {
            0
        };
        let k = match decode_text(b, seg_words, p0, epos + dw) {
            Option::Some(t) => t,
            Option::None => {
                proof {
                    assert(parse_entry(seg, epos as int, dw as int, pw as int) is None);
                    assert(parse_entries(seg, base as int, i as int + 1, dw as int, pw as int)
                        is None);
                    lemma_parse_entries_none(
                        seg,
                        base as int,
                        i as int + 1,
                        n as int,
                        dw as int,
                        pw as int,
                    );
                }
                return Option::None;
            },
        };
        let v = match decode_text(b, seg_words, p1, epos + dw + 1) {
            Option::Some(t) => t,
            Option::None => {
                proof {
                    assert(parse_entry(seg, epos as int, dw as int, pw as int) is None);
                    assert(parse_entries(seg, base as int, i as int + 1, dw as int, pw as int)
                        is None);
                    lemma_parse_entries_none(
                        seg,
                        base as int,
                        i as int + 1,
                        n as int,
                        dw as int,
                        pw as int,
                    );
                }
                return Option::None;
            },
        };
        let ghost old_acc = acc@;
        acc.push(metadata::Reader::from_texts(k, v));
        i = i + 1;
        proof {
            assert(readers_view(acc@) =~= readers_view(old_acc).push(acc@[acc@.len() - 1]@));
        }
    }
    Option::Some(acc)
}

/// Decode the entry list behind pointer word `w` standing at segment
/// word `pos`.
fn decode_list(b: &[u8], seg_words: u64, w: u64, pos: u64) -> (r: Option<
    Option<Vec<metadata::Reader>>,
>)
    requires
        b@.len() % 8 == 0,
        b@.len() >= 8,
        8 * seg_words == b@.len() - 8,
        seg_words < 0x1_0000_0000,
        pos <= seg_words + 2,
    ensures
        match r {
            Option::Some(t) => parse_list(seg_of(b@), w, pos as int) == Option::Some(
                match t {
                    Option::Some(v) => Option::Some(readers_view(v@)),
                    Option::None => Option::None,
                },
            ),
            Option::None => parse_list(seg_of(b@), w, pos as int) is None,
        },
{
    let blen = b.len();
    proof {
        lemma_ptr_field_ranges(w);
    }
    if w == 0 {
        return Option::Some(Option::None);
    }
    if w & 3 != 1 {
        return Option::None;
    }
    if (w >> 32) & 7 != 7 {
        return Option::None;
    }
    let off = (w >> 2) & 0x3FFF_FFFF;
    if off >= 0x2000_0000 {
        return Option::None;
    }
    let lpos = pos + 1 + off;
    let words = (w >> 35) & 0x1FFF_FFFF;
    if lpos > seg_words || 1 + words > seg_words - lpos {
        return Option::None;
    }
    proof {
        assert(8 * (lpos as int + 1 + words as int) <= seg_of(b@).len());
        lemma_seg_word(b@, lpos as int);
    }
    let tag = read_word(b, (lpos + 1) as usize);
    proof {
        lemma_ptr_field_ranges(tag);
    }
    if tag & 3 != 0 {
        return Option::None;
    }
    let n = (tag >> 2) & 0x3FFF_FFFF;
    if n >= 0x2000_0000 {
        return Option::None;
    }
    let dw = (tag >> 32) & 0xFFFF;
    let pw = (tag >> 48) & 0xFFFF;
    proof {
        assert((n as int) * ((dw + pw) as int) < 0x2000_0000 * 0x2_0000) by (nonlinear_arith)
            requires
                0 <= n < 0x2000_0000,
                0 <= dw < 0x1_0000,
                0 <= pw < 0x1_0000,
        ;
    }
    if n * (dw + pw) != words {
        return Option::None;
    }
    match decode_entries(b, seg_words, lpos + 1, n, dw, pw) {
        Option::Some(v) => Option::Some(Option::Some(v)),
        Option::None => Option::None,
    }
}

/// A decoded envelope.
pub struct Decoded {
    pub typ: u16,
    pub text: Option<String>,
    pub entries: Option<Vec<metadata::Reader>>,
}

/// The views of a vector of decoded entries.
pub open spec fn readers_view(s: Seq<metadata::Reader>) -> Seq<EntryView> {
    Seq::new(s.len(), |i: int| s[i]@)
}

impl View for Decoded {
    type V = EnvelopeView;

    open spec fn view(&self) -> EnvelopeView {
        EnvelopeView {
            typ: self.typ,
            text: metadata::text_view(self.text),
            entries: match self.entries {
                Option::Some(v) => Option::Some(readers_view(v@)),
                Option::None => Option::None,
            },
        }
    }
}

/// Decode a complete message. Succeeds exactly when the parser
/// accepts the bytes, and then returns the parsed value.
pub fn decode_envelope(b: &[u8]) -> (r: Option<Decoded>)
    ensures
        match r {
            Option::Some(dec) => parse_envelope(b@) == Option::Some(dec@),
            Option::None => parse_envelope(b@) is None,
        },
{
    let blen = b.len();
    if blen < 16 || blen % 8 != 0 {
        return Option::None;
    }
    let seg_count = u32_from_le_bytes(slice_subrange(b, 0, 4));
    if seg_count != 0 {
        return Option::None;
    }
    let seg_len = u32_from_le_bytes(slice_subrange(b, 4, 8));
    if (seg_len as u64) * 8 + 8 != blen as u64 {
        return Option::None;
    }
    let seg_words = seg_len as u64;
    let ghost seg = seg_of(b@);
    proof {
        assert(seg.len() == 8 * seg_words);
        lemma_seg_word(b@, 0);
    }
    let w = read_word(b, 1);
    proof {
        lemma_ptr_field_ranges(w);
    }
    if w == 0 {
        return Option::Some(
            Decoded { typ: 0, text: Option::None, entries: Option::None },
        );
    }
    if w & 3 != 0 {
        return Option::None;
    }
    let off = (w >> 2) & 0x3FFF_FFFF;
    if off >= 0x2000_0000 {
        return Option::None;
    }
    let base = 1 + off;
    let dw = (w >> 32) & 0xFFFF;
    let pw = (w >> 48) & 0xFFFF;
    if base > seg_words || dw + pw > seg_words - base {
        return Option::None;
    }
    proof {
        assert(8 * (base as int + dw as int + pw as int) <= seg.len());
    }
    let typ: u16 = if dw >= 1 {
        proof {
            lemma_seg_word(b@, base as int);
        }
        (read_word(b, (base + 1) as usize) & 0xFFFF) as u16
    } else {
        0u16
    };
    let p0 = if pw >= 1 {
        proof {
            lemma_seg_word(b@, base as int + dw as int);
        }
        read_word(b, (base + dw + 1) as usize)
    } else {
        0
    };
    let p1 = if pw >= 2 {
        proof {
            lemma_seg_word(b@, base as int + dw as int + 1);
        }
        read_word(b, (base + dw + 2) as usize)
    } else {
        0
    };
    let text = match decode_text(b, seg_words, p0, base + dw) {
        Option::Some(t) => t,
        Option::None => {
            return Option::None;
        },
    };
    let entries = match decode_list(b, seg_words, p1, base + dw + 1) {
        Option::Some(t) => t,
        Option::None => {
            return Option::None;
        },
    };
    Option::Some(Decoded { typ, text, entries })
}

} // verus!
