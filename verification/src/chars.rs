//! Byte and UTF-16 widths of characters, and byte offsets into a text viewed
//! as a sequence of characters. Document ranges in this crate are expressed
//! as UTF-8 byte offsets, while the editor protocol counts UTF-16 code units;
//! both measures are defined here once.
use vstd::prelude::*;

verus! {

/// Number of bytes the UTF-8 encoding of `c` takes.
pub open spec fn u8len(c: char) -> int {
    let v = c as u32;
    if v < 0x80 {
        1
    } else if v < 0x800 {
        2
    } else if v < 0x10000 {
        3
    } else {
        4
    }
}

/// Number of UTF-16 code units the encoding of `c` takes.
pub open spec fn u16len(c: char) -> int {
    if (c as u32) < 0x10000 {
        1
    } else {
        2
    }
}

/// `u8len` agrees with the UTF-8 encoding model of vstd.
pub proof fn lemma_u8len_is_encoding_width(c: char)
    ensures
        u8len(c) == vstd::utf8::encode_scalar(c as u32).len(),
{
    broadcast use vstd::utf8::char_is_scalar;

}

/// A character never takes more UTF-16 code units than UTF-8 bytes.
pub proof fn lemma_u16len_le_u8len(c: char)
    ensures
        1 <= u16len(c) <= u8len(c),
        1 <= u8len(c) <= 4,
{
    broadcast use vstd::utf8::char_is_scalar;

}

/// Byte offset of the char index `k` in `s`: the length in bytes of the
/// UTF-8 encoding of the first `k` characters.
pub open spec fn boff_at(s: Seq<char>, k: int) -> int
    decreases k,
{
    if k <= 0 {
        0
    } else {
        boff_at(s, k - 1) + u8len(s[k - 1])
    }
}

/// Byte offsets strictly grow along the text.
pub proof fn lemma_boff_strict(s: Seq<char>, k1: int, k2: int)
    requires
        0 <= k1 < k2,
    ensures
        boff_at(s, k1) < boff_at(s, k2),
        boff_at(s, k2) - boff_at(s, k1) >= k2 - k1,
    decreases k2,
{
    lemma_u16len_le_u8len(s[k2 - 1]);
    if k1 < k2 - 1 {
        lemma_boff_strict(s, k1, k2 - 1);
    }
}

/// Byte offsets are non-negative.
pub proof fn lemma_boff_nonneg(s: Seq<char>, k: int)
    ensures
        boff_at(s, k) >= 0,
        k >= 1 ==> boff_at(s, k) >= boff_at(s, 0),
    decreases k,
{
    if k > 0 {
        lemma_boff_nonneg(s, k - 1);
        lemma_u16len_le_u8len(s[k - 1]);
    }
}

/// `boff_at` at the end of the text is the length of its UTF-8 encoding,
/// which is what `str::len` returns for the same text.
pub proof fn lemma_boff_is_utf8_len(s: Seq<char>, k: int)
    requires
        0 <= k <= s.len(),
    ensures
        boff_at(s, k) == vstd::utf8::encode_utf8(s.take(k)).len(),
    decreases k,
{
    if k == 0 {
        assert(s.take(0) =~= Seq::<char>::empty());
    } else {
        lemma_boff_is_utf8_len(s, k - 1);
        lemma_encode_len_push(s.take(k - 1), s[k - 1]);
        assert(s.take(k) =~= s.take(k - 1).push(s[k - 1]));
        lemma_u8len_is_encoding_width(s[k - 1]);
    }
}

proof fn lemma_encode_len_push(s: Seq<char>, c: char)
    ensures
        vstd::utf8::encode_utf8(s.push(c)).len() == vstd::utf8::encode_utf8(s).len()
            + vstd::utf8::encode_scalar(c as u32).len(),
    decreases s.len(),
{
    if s.len() == 0 {
        assert(s.push(c).drop_first() =~= Seq::<char>::empty());
        assert(vstd::utf8::encode_utf8(Seq::<char>::empty()).len() == 0);
    } else {
        assert(s.push(c).drop_first() =~= s.drop_first().push(c));
        lemma_encode_len_push(s.drop_first(), c);
    }
}

/// Byte offsets never decrease along the text.
pub proof fn lemma_boff_mono(s: Seq<char>, k1: int, k2: int)
    requires
        0 <= k1 <= k2,
    ensures
        boff_at(s, k1) <= boff_at(s, k2),
{
    if k1 < k2 {
        lemma_boff_strict(s, k1, k2);
    }
}

/// The byte length of a text, as `str::len` reports it; it equals the byte
/// offset of the text's end.
pub fn text_byte_len(text: &str) -> (r: usize)
    ensures
        r == boff_at(text@, text@.len() as int),
{
    proof {
        lemma_boff_is_utf8_len(text@, text@.len() as int);
        assert(text@.take(text@.len() as int) =~= text@);
    }
    let bytes = text.as_bytes();
    bytes.len()
}

/// The UTF-8 byte width of `c`, computed from its scalar value.
pub fn utf8_len(c: char) -> (r: usize)
    ensures
        r == u8len(c),
{
    let v = c as u32;
    if v < 0x80 {
        1
    } else if v < 0x800 {
        2
    } else if v < 0x10000 {
        3
    } else {
        4
    }
}

/// The UTF-16 width of `c`, computed from its scalar value.
pub fn utf16_len(c: char) -> (r: usize)
    ensures
        r == u16len(c),
{
    if (c as u32) < 0x10000 {
        1
    } else {
        2
    }
}

} // verus!
