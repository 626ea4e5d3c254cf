//! UTF-16 little-endian: code units of a byte sequence, surrogate pairs, and
//! the encoding of characters, stated as spec functions.
use vstd::prelude::*;

verus! {

/// The 16-bit little-endian code units of `b`, two bytes each; a final odd
/// byte is not part of any unit.
pub open spec fn le_units(b: Seq<u8>) -> Seq<u16>
    decreases b.len(),
{
    if b.len() < 2 {
        seq![]
    } else {
        seq![(b[0] as int + b[1] as int * 256) as u16] + le_units(b.subrange(2, b.len() as int))
    }
}

/// The little-endian bytes of the code units `u`.
pub open spec fn le_bytes(u: Seq<u16>) -> Seq<u8>
    decreases u.len(),
{
    if u.len() == 0 {
        seq![]
    } else {
        seq![(u[0] % 256) as u8, (u[0] / 256) as u8] + le_bytes(u.drop_first())
    }
}

pub open spec fn is_high_surrogate(u: u16) -> bool {
    0xD800 <= u && u <= 0xDBFF
}

pub open spec fn is_low_surrogate(u: u16) -> bool {
    0xDC00 <= u && u <= 0xDFFF
}

/// The scalar value that the surrogate pair `hi`, `lo` encodes.
pub open spec fn pair_value(hi: u16, lo: u16) -> int {
    (hi - 0xD800) * 0x400 + (lo - 0xDC00) + 0x10000
}

/// `Some(p + r)` for `Some(r)`, `None` for `None`.
pub open spec fn prepend(p: Seq<char>, o: Option<Seq<char>>) -> Option<Seq<char>> {
    match o {
        Some(r) => Some(p + r),
        None => None,
    }
}

/// Strict UTF-16 decoding of `u` (`char::decode_utf16`, all results kept):
/// a unit outside the surrogate range is its own character, a high surrogate
/// followed by a low one is one character, and any other surrogate fails.
pub open spec fn decode_units(u: Seq<u16>) -> Option<Seq<char>>
    decreases u.len(),
{
    if u.len() == 0 {
        Some(seq![])
    } else if !is_high_surrogate(u[0]) && !is_low_surrogate(u[0]) {
        prepend(seq![u[0] as char], decode_units(u.drop_first()))
    } else if is_high_surrogate(u[0]) && u.len() >= 2 && is_low_surrogate(u[1]) {
        prepend(seq![pair_value(u[0], u[1]) as char], decode_units(u.subrange(2, u.len() as int)))
    } else {
        None
    }
}

/// `u` without a leading byte-order mark U+FEFF.
pub open spec fn strip_bom(u: Seq<u16>) -> Seq<u16> {
    if u.len() > 0 && u[0] == 0xFEFF {
        u.drop_first()
    } else {
        u
    }
}

/// `u` without a leading unpaired low surrogate.
pub open spec fn strip_leading_low(u: Seq<u16>) -> Seq<u16> {
    if u.len() > 0 && is_low_surrogate(u[0]) {
        u.drop_first()
    } else {
        u
    }
}

/// `u` without a trailing unpaired high surrogate.
pub open spec fn strip_trailing_high(u: Seq<u16>) -> Seq<u16> {
    if u.len() > 0 && is_high_surrogate(u.last()) {
        u.drop_last()
    } else {
        u
    }
}

/// The code units of a tail-read log: BOM, then a leading low surrogate, then
/// a trailing high surrogate removed, in that order.
pub open spec fn tail_units(b: Seq<u8>) -> Seq<u16> {
    strip_trailing_high(strip_leading_low(strip_bom(le_units(b))))
}

/// The text that UTF-16LE bytes `b` hold: none for an odd length or an
/// interior unpaired surrogate, else the decoding of `tail_units(b)`.
pub open spec fn spec_decode_utf16le(b: Seq<u8>) -> Option<Seq<char>> {
    if b.len() % 2 != 0 {
        None
    } else {
        decode_units(tail_units(b))
    }
}

/// The UTF-16 code units of one character (`char::encode_utf16`).
pub open spec fn char_units(c: char) -> Seq<u16> {
    if (c as int) < 0x10000 {
        seq![c as u16]
    } else {
        seq![
            (0xD800 + (c as int - 0x10000) / 0x400) as u16,
            (0xDC00 + (c as int - 0x10000) % 0x400) as u16,
        ]
    }
}

/// The UTF-16 code units of `s` (`str::encode_utf16`).
pub open spec fn utf16_units(s: Seq<char>) -> Seq<u16>
    decreases s.len(),
{
    if s.len() == 0 {
        seq![]
    } else {
        char_units(s[0]) + utf16_units(s.drop_first())
    }
}

/// The UTF-16LE bytes of `s`, after a byte-order mark when `bom` holds.
pub open spec fn encode_utf16le(s: Seq<char>, bom: bool) -> Seq<u8> {
    le_bytes(if bom { seq![0xFEFFu16] + utf16_units(s) } else { utf16_units(s) })
}

/// `char::from_u32`: the character with scalar value `x`, if `x` is one
/// (below 0xD800, or from 0xE000 up to 0x10FFFF).
#[verifier::external_body]
pub fn char_from_u32(x: u32) -> (r: Option<char>)
    ensures
        (r is Some) <==> (x < 0xD800 || (0xE000 <= x && x <= 0x10FFFF)),
        r matches Some(c) ==> c as u32 == x && c == x as char,
{
    char::from_u32(x)
}

proof fn lemma_le_units_of_bytes(u: Seq<u16>)
    ensures
        le_units(le_bytes(u)) == u,
        le_bytes(u).len() == 2 * u.len(),
    decreases u.len(),
{
    if u.len() > 0 {
        lemma_le_units_of_bytes(u.drop_first());
        let b = le_bytes(u);
        assert(b.subrange(2, b.len() as int) =~= le_bytes(u.drop_first()));
        assert(((u[0] % 256) as u8) as int + ((u[0] / 256) as u8) as int * 256 == u[0]);
        assert(le_units(b) =~= u);
    }
}

proof fn lemma_char_units(c: char)
    ensures
        char_units(c).len() >= 1,
        !is_low_surrogate(char_units(c)[0]),
        char_units(c)[0] != 0xFEFF || c == '\u{FEFF}',
        !is_high_surrogate(char_units(c).last()),
        forall|r: Seq<u16>| #[trigger]
            decode_units(char_units(c) + r) == prepend(seq![c], decode_units(r)),
{
    let v = c as int - 0x10000;
    if (c as int) < 0x10000 {
        assert forall|r: Seq<u16>| #[trigger]
            decode_units(char_units(c) + r) == prepend(seq![c], decode_units(r)) by {
            let u = char_units(c) + r;
            assert(u.drop_first() =~= r);
            assert((u[0] as char) == c);
        }
    } else {
        assert(0 <= v / 0x400 < 0x400);
        assert(0 <= v % 0x400 < 0x400);
        let hi = (0xD800 + v / 0x400) as u16;
        let lo = (0xDC00 + v % 0x400) as u16;
        assert(pair_value(hi, lo) == c as int);
        assert forall|r: Seq<u16>| #[trigger]
            decode_units(char_units(c) + r) == prepend(seq![c], decode_units(r)) by {
            let u = char_units(c) + r;
            assert(u.subrange(2, u.len() as int) =~= r);
            assert((pair_value(u[0], u[1]) as char) == c);
        }
    }
}

proof fn lemma_utf16_units(s: Seq<char>)
    ensures
        decode_units(utf16_units(s)) == Some(s),
        s.len() > 0 ==> {
            &&& !is_low_surrogate(utf16_units(s)[0])
            &&& !is_high_surrogate(utf16_units(s).last())
            &&& (utf16_units(s)[0] == 0xFEFF ==> s[0] == '\u{FEFF}')
        },
        s.len() == 0 ==> utf16_units(s).len() == 0,
    decreases s.len(),
{
    if s.len() > 0 {
        lemma_utf16_units(s.drop_first());
        lemma_char_units(s[0]);
        let rest = utf16_units(s.drop_first());
        assert(decode_units(char_units(s[0]) + rest) == prepend(seq![s[0]], decode_units(rest)));
        assert(seq![s[0]] + s.drop_first() =~= s);
        if s.drop_first().len() > 0 {
            assert((char_units(s[0]) + rest).last() == rest.last());
        }
    }
}

/// Decoding the UTF-16LE bytes of any text, written after a byte-order mark,
/// gives that text back.
pub proof fn lemma_decode_encode_with_bom(s: Seq<char>)
    ensures
        spec_decode_utf16le(encode_utf16le(s, true)) == Some(s),
{
    let u = seq![0xFEFFu16] + utf16_units(s);
    lemma_le_units_of_bytes(u);
    lemma_utf16_units(s);
    assert(encode_utf16le(s, true).len() % 2 == 0);
    assert(strip_bom(u) =~= utf16_units(s));
    if s.len() > 0 {
        assert(strip_trailing_high(strip_leading_low(utf16_units(s))) == utf16_units(s));
    }
}

/// Decoding the UTF-16LE bytes of a text that does not start with U+FEFF,
/// written without a byte-order mark, gives that text back.
pub proof fn lemma_decode_encode_without_bom(s: Seq<char>)
    requires
        s.len() == 0 || s[0] != '\u{FEFF}',
    ensures
        spec_decode_utf16le(encode_utf16le(s, false)) == Some(s),
{
    let u = utf16_units(s);
    lemma_le_units_of_bytes(u);
    lemma_utf16_units(s);
    assert(encode_utf16le(s, false).len() % 2 == 0);
    if s.len() > 0 {
        assert(strip_bom(u) == u);
        assert(strip_trailing_high(strip_leading_low(u)) == u);
    }
}

} // verus!
