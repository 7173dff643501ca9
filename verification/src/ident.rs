//! Recovery of track name and chunk suffix from the packed identifier field
//! of an index record.
//!
//! The identifier is ASCII, NUL-padded, and carries no delimiter between the
//! track name and the ordering suffix. Where it starts with `m`, the name is
//! everything before the first `a`; otherwise the name is the leading run of
//! ASCII letters. The suffix is what follows, up to the first NUL.

use vstd::prelude::*;
use vstd::slice::slice_subrange;
use vstd::utf8::{
    decode_utf8, encode_utf8, encode_utf8_decode_utf8, encode_utf8_valid_utf8, is_ascii_chars,
    is_ascii_chars_encode_utf8, valid_utf8,
};

verus! {

/// Whether `b` is an ASCII letter.
pub open spec fn is_alpha(b: u8) -> bool {
    (0x41 <= b <= 0x5a) || (0x61 <= b <= 0x7a)
}

/// Whether the identifier falls under the rule for a leading `m`.
pub open spec fn uses_m_rule(ident: Seq<u8>) -> bool {
    ident.len() > 0 && ident[0] == 0x6d
}

/// Whether a byte can belong to the track name.
pub open spec fn in_name(b: u8, m_rule: bool) -> bool {
    if m_rule {
        b != 0x61
    } else {
        is_alpha(b)
    }
}

/// The end of the run of name bytes that starts at `from`.
pub open spec fn name_end(ident: Seq<u8>, m_rule: bool, from: int) -> int
    decreases ident.len() - from,
{
    if from < 0 || from >= ident.len() || !in_name(ident[from], m_rule) {
        from
    } else {
        name_end(ident, m_rule, from + 1)
    }
}

/// The position of the first NUL at or after `from`, or the length if there
/// is none.
pub open spec fn nul_or_end(ident: Seq<u8>, from: int) -> int
    decreases ident.len() - from,
{
    if from < 0 || from >= ident.len() || ident[from] == 0 {
        from
    } else {
        nul_or_end(ident, from + 1)
    }
}

/// Where the track name ends and the suffix begins.
pub open spec fn split_point(ident: Seq<u8>) -> int {
    name_end(ident, uses_m_rule(ident), 0)
}

/// Where the suffix ends.
pub open spec fn suffix_end(ident: Seq<u8>) -> int {
    nul_or_end(ident, split_point(ident))
}

/// The bytes of the track name.
pub open spec fn name_bytes(ident: Seq<u8>) -> Seq<u8> {
    ident.subrange(0, split_point(ident))
}

/// The bytes of the suffix.
pub open spec fn suffix_bytes(ident: Seq<u8>) -> Seq<u8> {
    ident.subrange(split_point(ident), suffix_end(ident))
}

/// Whether every byte is an ASCII code.
pub open spec fn is_ascii_bytes(bytes: Seq<u8>) -> bool {
    forall|i: int| 0 <= i < bytes.len() ==> bytes[i] < 128
}

/// The characters of a sequence of ASCII codes.
pub open spec fn ascii_chars(bytes: Seq<u8>) -> Seq<char> {
    Seq::new(bytes.len(), |i: int| bytes[i] as char)
}

/// The text that lossy UTF-8 decoding gives for `bytes`: where the bytes
/// are valid UTF-8, the text that they encode; elsewhere a text in which each
/// invalid sequence is replaced by U+FFFD.
pub uninterp spec fn lossy_utf8(bytes: Seq<u8>) -> Seq<char>;

/// Whether `text` is what `bytes` read as.
pub open spec fn reads_as(bytes: Seq<u8>, text: Seq<char>) -> bool {
    &&& text == lossy_utf8(bytes)
    &&& valid_utf8(bytes) ==> text == decode_utf8(bytes)
}

/// The track name that an identifier field carries.
pub open spec fn track_name(ident: Seq<u8>) -> Seq<char> {
    lossy_utf8(name_bytes(ident))
}

/// The chunk suffix that an identifier field carries.
pub open spec fn chunk_suffix(ident: Seq<u8>) -> Seq<char> {
    lossy_utf8(suffix_bytes(ident))
}

/// The split lies inside the identifier, and the suffix after the name.
pub proof fn lemma_split_bounds(ident: Seq<u8>)
    ensures
        0 <= split_point(ident) <= suffix_end(ident) <= ident.len(),
{
    lemma_name_end_bounds(ident, uses_m_rule(ident), 0);
    lemma_nul_or_end_bounds(ident, split_point(ident));
}

/// A run of name bytes ends inside the identifier.
proof fn lemma_name_end_bounds(ident: Seq<u8>, m_rule: bool, from: int)
    requires
        0 <= from <= ident.len(),
    ensures
        from <= name_end(ident, m_rule, from) <= ident.len(),
    decreases ident.len() - from,
{
    if from < ident.len() && in_name(ident[from], m_rule) {
        lemma_name_end_bounds(ident, m_rule, from + 1);
    }
}

/// The search for a NUL ends inside the identifier.
proof fn lemma_nul_or_end_bounds(ident: Seq<u8>, from: int)
    requires
        0 <= from <= ident.len(),
    ensures
        from <= nul_or_end(ident, from) <= ident.len(),
    decreases ident.len() - from,
{
    if from < ident.len() && ident[from] != 0 {
        lemma_nul_or_end_bounds(ident, from + 1);
    }
}

/// ASCII codes are valid UTF-8 and encode one character each.
pub proof fn lemma_ascii_is_utf8(bytes: Seq<u8>)
    requires
        is_ascii_bytes(bytes),
    ensures
        valid_utf8(bytes),
        decode_utf8(bytes) == ascii_chars(bytes),
{
    let chars = ascii_chars(bytes);
    assert(is_ascii_chars(chars));
    is_ascii_chars_encode_utf8(chars);
    assert(encode_utf8(chars) =~= bytes);
    encode_utf8_valid_utf8(chars);
    encode_utf8_decode_utf8(chars);
}

/// A part of an ASCII identifier reads as its codes.
pub proof fn lemma_ascii_part(ident: Seq<u8>, from: int, to: int, text: Seq<char>)
    requires
        is_ascii_bytes(ident),
        0 <= from <= to <= ident.len(),
        reads_as(ident.subrange(from, to), text),
    ensures
        text == ascii_chars(ident.subrange(from, to)),
{
    lemma_ascii_is_utf8(ident.subrange(from, to));
}

/// `String::from_utf8_lossy`: the text of `bytes`. Valid UTF-8 comes out as
/// the text that it encodes; in other input each invalid sequence is replaced
/// by U+FFFD. The result depends on the bytes alone.
#[verifier::external_body]
fn lossy_string(bytes: &[u8]) -> (s: String)
    ensures
        s@ == lossy_utf8(bytes@),
        valid_utf8(bytes@) ==> s@ == decode_utf8(bytes@),
{
    String::from_utf8_lossy(bytes).into_owned()
}

/// Whether a byte can belong to the track name.
fn byte_in_name(b: u8, m_rule: bool) -> (r: bool)
    ensures
        r == in_name(b, m_rule),
{
    if m_rule {
        b != 0x61
    } else {
        (0x41 <= b && b <= 0x5a) || (0x61 <= b && b <= 0x7a)
    }
}

/// Finds where the track name ends and where the suffix ends.
pub fn split_positions(ident: &[u8]) -> (r: (usize, usize))
    ensures
        r.0 as int == split_point(ident@),
        r.1 as int == suffix_end(ident@),
        r.0 <= r.1 <= ident@.len(),
{
    let n = ident.len();
    let m_rule = n > 0 && ident[0] == 0x6d;
    let mut split: usize = 0;
    while split < n && byte_in_name(ident[split], m_rule)
        invariant
            split <= n == ident@.len(),
            m_rule == uses_m_rule(ident@),
            name_end(ident@, m_rule, split as int) == split_point(ident@),
        decreases n - split,
    {
        split = split + 1;
    }
    let mut end: usize = split;
    while end < n && ident[end] != 0
        invariant
            split <= end <= n == ident@.len(),
            nul_or_end(ident@, end as int) == nul_or_end(ident@, split as int),
        decreases n - end,
    {
        end = end + 1;
    }
    (split, end)
}

/// Splits an identifier field into track name and chunk suffix.
pub fn split_ident(ident: &[u8]) -> (r: (String, String))
    ensures
        r.0@ == track_name(ident@),
        r.1@ == chunk_suffix(ident@),
        reads_as(name_bytes(ident@), r.0@),
        reads_as(suffix_bytes(ident@), r.1@),
{
    let (split, end) = split_positions(ident);
    let name = lossy_string(slice_subrange(ident, 0, split));
    let suffix = lossy_string(slice_subrange(ident, split, end));
    (name, suffix)
}

} // verus!
