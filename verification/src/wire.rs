//! Word-level building blocks of the envelope encoding.
//!
//! Messages are framed as a sequence of 8-byte little-endian words.
//! A word is either raw data, a struct pointer (kind 0), or a list
//! pointer (kind 1). Text is stored as a list of bytes with a
//! terminating NUL, padded with zeros to a whole number of words.

use vstd::prelude::*;
use vstd::bytes::{
    lemma_auto_spec_u32_to_from_le_bytes, lemma_auto_spec_u64_to_from_le_bytes,
    spec_u32_to_le_bytes, spec_u64_from_le_bytes, spec_u64_to_le_bytes, u32_to_le_bytes,
    u64_from_le_bytes, u64_to_le_bytes,
};
use vstd::slice::slice_subrange;

verus! {

/// The 8 little-endian bytes of a word.
pub open spec fn le64(v: u64) -> Seq<u8> {
    spec_u64_to_le_bytes(v)
}

/// The word stored at word index `w` of a byte sequence.
pub open spec fn word_at(b: Seq<u8>, w: int) -> u64
    recommends
        0 <= w,
        8 * w + 8 <= b.len(),
{
    spec_u64_from_le_bytes(b.subrange(8 * w, 8 * w + 8))
}

/// A run of `n` zero bytes.
pub open spec fn zeros(n: int) -> Seq<u8> {
    Seq::new(if n >= 0 {
        n as nat
    } else {
        0
    }, |i: int| 0u8)
}

/// Number of words occupied by a text of `len` bytes plus its NUL
/// terminator, rounded up to whole words.
pub open spec fn text_words(len: int) -> int {
    (len + 8) / 8
}

/// A text of `len` bytes occupies between `len + 1` and `len + 8` bytes
/// once the terminator and padding are added.
pub proof fn lemma_text_words_bounds(len: int)
    requires
        len >= 0,
    ensures
        8 * text_words(len) >= len + 1,
        8 * text_words(len) <= len + 8,
        text_words(len) >= 1,
{
}

/// The wire form of a text: the bytes, a NUL terminator, and zero
/// padding up to a word boundary.
pub open spec fn text_block(b: Seq<u8>) -> Seq<u8> {
    b + seq![0u8] + zeros(8 * text_words(b.len() as int) - b.len() - 1)
}

pub proof fn lemma_text_block_len(b: Seq<u8>)
    ensures
        text_block(b).len() == 8 * text_words(b.len() as int),
{
    lemma_text_words_bounds(b.len() as int);
}

/// A struct pointer: kind 0, a word offset, and the sizes of the data
/// and pointer sections in words.
pub open spec fn struct_ptr(off: u64, data: u64, ptrs: u64) -> u64
    recommends
        off < 0x2000_0000,
        data < 0x1_0000,
        ptrs < 0x1_0000,
{
    (off << 2) | (data << 32) | (ptrs << 48)
}

/// A list pointer: kind 1, a word offset, an element-size code, and an
/// element count (for composite lists, the content size in words).
pub open spec fn list_ptr(off: u64, code: u64, count: u64) -> u64
    recommends
        off < 0x2000_0000,
        code < 8,
        count < 0x2000_0000,
{
    1u64 | (off << 2) | (code << 32) | (count << 35)
}

/// Pointer kind: 0 for struct, 1 for list.
pub open spec fn ptr_kind(w: u64) -> u64 {
    w & 3
}

/// The offset field shared by struct and list pointers. Offsets of
/// 0x2000_0000 and above encode negative values and are rejected by the
/// parser.
pub open spec fn ptr_off(w: u64) -> u64 {
    (w >> 2) & 0x3FFF_FFFF
}

/// Data-section size of a struct pointer, in words.
pub open spec fn struct_data_words(w: u64) -> u64 {
    (w >> 32) & 0xFFFF
}

/// Pointer-section size of a struct pointer, in words.
pub open spec fn struct_ptr_words(w: u64) -> u64 {
    (w >> 48) & 0xFFFF
}

/// Element-size code of a list pointer.
pub open spec fn list_elem_code(w: u64) -> u64 {
    (w >> 32) & 7
}

/// Element count of a list pointer.
pub open spec fn list_elem_count(w: u64) -> u64 {
    (w >> 35) & 0x1FFF_FFFF
}

/// A struct pointer decomposes into the fields it was composed from.
pub proof fn lemma_struct_ptr_fields(off: u64, data: u64, ptrs: u64)
    requires
        off < 0x2000_0000,
        data < 0x1_0000,
        ptrs < 0x1_0000,
    ensures
        ptr_kind(struct_ptr(off, data, ptrs)) == 0,
        ptr_off(struct_ptr(off, data, ptrs)) == off,
        struct_data_words(struct_ptr(off, data, ptrs)) == data,
        struct_ptr_words(struct_ptr(off, data, ptrs)) == ptrs,
        (data != 0 || ptrs != 0 || off != 0) ==> struct_ptr(off, data, ptrs) != 0,
{
    let w = struct_ptr(off, data, ptrs);
    assert(off < 0x2000_0000 && data < 0x1_0000 && ptrs < 0x1_0000 ==> {
        let w = (off << 2) | (data << 32) | (ptrs << 48);
        (w & 3) == 0 && ((w >> 2) & 0x3FFF_FFFF) == off && ((w >> 32) & 0xFFFF) == data && ((w
            >> 48) & 0xFFFF) == ptrs && ((data != 0 || ptrs != 0 || off != 0) ==> w != 0)
    }) by (bit_vector);
}

/// A list pointer decomposes into the fields it was composed from.
pub proof fn lemma_list_ptr_fields(off: u64, code: u64, count: u64)
    requires
        off < 0x2000_0000,
        code < 8,
        count < 0x2000_0000,
    ensures
        ptr_kind(list_ptr(off, code, count)) == 1,
        ptr_off(list_ptr(off, code, count)) == off,
        list_elem_code(list_ptr(off, code, count)) == code,
        list_elem_count(list_ptr(off, code, count)) == count,
        list_ptr(off, code, count) != 0,
{
    assert(off < 0x2000_0000 && code < 8 && count < 0x2000_0000 ==> {
        let w = 1u64 | (off << 2) | (code << 32) | (count << 35);
        (w & 3) == 1 && ((w >> 2) & 0x3FFF_FFFF) == off && ((w >> 32) & 7) == code && ((w >> 35)
            & 0x1FFF_FFFF) == count && w != 0
    }) by (bit_vector);
}

/// The extracted fields of any word are within their field widths.
pub proof fn lemma_ptr_field_ranges(w: u64)
    ensures
        ptr_kind(w) < 4,
        ptr_off(w) < 0x4000_0000,
        struct_data_words(w) < 0x1_0000,
        struct_ptr_words(w) < 0x1_0000,
        list_elem_code(w) < 8,
        list_elem_count(w) < 0x2000_0000,
{
    assert((w & 3) < 4 && ((w >> 2) & 0x3FFF_FFFF) < 0x4000_0000 && ((w >> 32) & 0xFFFF)
        < 0x1_0000 && ((w >> 48) & 0xFFFF) < 0x1_0000 && ((w >> 32) & 7) < 8 && ((w >> 35)
        & 0x1FFF_FFFF) < 0x2000_0000) by (bit_vector);
}

/// Reading word 0 of a single encoded word gives the word back.
pub proof fn lemma_word_at_single(v: u64)
    ensures
        le64(v).len() == 8,
        word_at(le64(v), 0) == v,
{
    lemma_auto_spec_u64_to_from_le_bytes();
    assert(le64(v).subrange(0, 8) =~= le64(v));
}

/// Reading a word that lies wholly inside the left part of a
/// concatenation reads from the left part.
pub proof fn lemma_word_at_prefix(a: Seq<u8>, b: Seq<u8>, w: int)
    requires
        0 <= w,
        8 * w + 8 <= a.len(),
    ensures
        word_at(a + b, w) == word_at(a, w),
{
    assert((a + b).subrange(8 * w, 8 * w + 8) =~= a.subrange(8 * w, 8 * w + 8));
}

/// Reading a word past a whole-word left part reads from the right part.
pub proof fn lemma_word_at_suffix(a: Seq<u8>, b: Seq<u8>, w: int)
    requires
        a.len() % 8 == 0,
        8 * w >= a.len(),
        8 * w + 8 <= a.len() + b.len(),
    ensures
        word_at(a + b, w) == word_at(b, w - a.len() / 8),
{
    let k = w - a.len() / 8;
    assert(8 * k == 8 * w - a.len());
    assert((a + b).subrange(8 * w, 8 * w + 8) =~= b.subrange(8 * k, 8 * k + 8));
}

/// A word sandwiched between two byte sequences is read back intact
/// when the prefix is whole words.
pub proof fn lemma_word_mid(pre: Seq<u8>, x: u64, post: Seq<u8>)
    requires
        pre.len() % 8 == 0,
    ensures
        word_at(pre + le64(x) + post, pre.len() as int / 8) == x,
{
    lemma_word_at_single(x);
    lemma_word_at_prefix(pre + le64(x), post, pre.len() as int / 8);
    lemma_word_at_suffix(pre, le64(x), pre.len() as int / 8);
}

/// Read the word at word index `w`.
pub fn read_word(b: &[u8], w: usize) -> (r: u64)
    requires
        8 * (w as int) + 8 <= b@.len(),
    ensures
        r == word_at(b@, w as int),
{
    let n = b.len();
    assert(8 * (w as int) + 8 <= n);
    let s = slice_subrange(b, 8 * w, 8 * w + 8);
    u64_from_le_bytes(s)
}

/// Append the 8 little-endian bytes of a word.
pub fn push_word(out: &mut Vec<u8>, v: u64)
    ensures
        final(out)@ == old(out)@ + le64(v),
{
    let bytes = u64_to_le_bytes(v);
    let ghost prefix = out@;
    let mut i: usize = 0;
    proof {
        lemma_auto_spec_u64_to_from_le_bytes();
    }
    while i < bytes.len()
        invariant
            bytes@ == le64(v),
            bytes@.len() == 8,
            i <= 8,
            out@ == prefix + bytes@.subrange(0, i as int),
        decreases 8 - i,
    {
        out.push(bytes[i]);
        i = i + 1;
        proof {
            assert(prefix + bytes@.subrange(0, i as int) =~= (prefix + bytes@.subrange(
                0,
                i as int - 1,
            )).push(bytes@[i as int - 1]));
        }
    }
    proof {
        assert(bytes@.subrange(0, 8) =~= bytes@);
    }
}

/// Append the 4 little-endian bytes of a half-word, as used by the
/// segment table.
pub fn push_u32(out: &mut Vec<u8>, v: u32)
    ensures
        final(out)@ == old(out)@ + spec_u32_to_le_bytes(v),
{
    let bytes = u32_to_le_bytes(v);
    let ghost prefix = out@;
    let mut i: usize = 0;
    proof {
        lemma_auto_spec_u32_to_from_le_bytes();
    }
    while i < bytes.len()
        invariant
            bytes@ == spec_u32_to_le_bytes(v),
            bytes@.len() == 4,
            i <= 4,
            out@ == prefix + bytes@.subrange(0, i as int),
        decreases 4 - i,
    {
        out.push(bytes[i]);
        i = i + 1;
        proof {
            assert(prefix + bytes@.subrange(0, i as int) =~= (prefix + bytes@.subrange(
                0,
                i as int - 1,
            )).push(bytes@[i as int - 1]));
        }
    }
    proof {
        assert(bytes@.subrange(0, 4) =~= bytes@);
    }
}

/// Append a text block: the bytes, a NUL terminator, and zero padding
/// to the next word boundary.
pub fn push_text_block(out: &mut Vec<u8>, t: &[u8])
    ensures
        final(out)@ == old(out)@ + text_block(t@),
{
    let ghost prefix = out@;
    let len = t.len();
    let mut i: usize = 0;
    while i < len
        invariant
            len == t@.len(),
            i <= len,
            out@ == prefix + t@.subrange(0, i as int),
        decreases len - i,
    {
        out.push(t[i]);
        i = i + 1;
        proof {
            assert(prefix + t@.subrange(0, i as int) =~= (prefix + t@.subrange(0, i as int - 1)).push(
                t@[i as int - 1],
            ));
        }
    }
    proof {
        assert(t@.subrange(0, len as int) =~= t@);
        lemma_text_words_bounds(len as int);
    }
    // NUL terminator and padding: together they bring the total to a
    // whole number of words.
    let pad = 8 - (len % 8);
    let ghost mid = out@;
    let mut j: usize = 0;
    while j < pad
        invariant
            pad == 8 - (len as int % 8),
            j <= pad,
            out@ == mid + zeros(j as int),
        decreases pad - j,
    {
        out.push(0u8);
        j = j + 1;
        proof {
            assert(mid + zeros(j as int) =~= (mid + zeros(j as int - 1)).push(0u8));
        }
    }
    proof {
        lemma_text_words_bounds(len as int);
        assert(pad == 8 * text_words(len as int) - len) by {
            assert(8 * ((len as int + 8) / 8) - len as int == 8 - (len as int % 8));
        }
        assert(prefix + text_block(t@) =~= mid + zeros(pad as int)) by {
            assert(text_block(t@) =~= t@ + seq![0u8] + zeros(pad as int - 1));
            assert(zeros(pad as int) =~= seq![0u8] + zeros(pad as int - 1));
            assert(prefix + (t@ + seq![0u8] + zeros(pad as int - 1)) =~= (prefix + t@) + (seq![0u8]
                + zeros(pad as int - 1)));
        }
    }
}

} // verus!
