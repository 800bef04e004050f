//! Text as bytes: UTF-16 and UTF-8.

use vstd::prelude::*;
use vstd::utf8::{decode_utf8, encode_utf8, valid_utf8};

use crate::wire::{le16, le16_at, put_u16};

verus! {

// ---- UTF-16 -----------------------------------------------------------------

/// The code units of one character.
pub open spec fn char_units(c: char) -> Seq<u16> {
    let code = c as u32;
    if code < 0x1_0000 {
        seq![code as u16]
    } else {
        seq![
            (0xD800 + (code - 0x1_0000) / 0x400) as u16,
            (0xDC00 + (code - 0x1_0000) % 0x400) as u16,
        ]
    }
}

/// The code units of `s`.
pub open spec fn utf16(s: Seq<char>) -> Seq<u16>
    decreases s.len(),
{
    if s.len() == 0 {
        Seq::empty()
    } else {
        char_units(s[0]) + utf16(s.skip(1))
    }
}

/// The bytes of code units, low byte first.
pub open spec fn unit_bytes(units: Seq<u16>) -> Seq<u8>
    decreases units.len(),
{
    if units.len() == 0 {
        Seq::empty()
    } else {
        unit_bytes(units.drop_last()) + le16(units.last())
    }
}

/// `s` in UTF-16, low byte first.
pub open spec fn utf16_bytes(s: Seq<char>) -> Seq<u8> {
    unit_bytes(utf16(s))
}

/// The code units that `data` holds; a last odd byte is left out.
pub open spec fn byte_units(data: Seq<u8>) -> Seq<u16> {
    Seq::new(data.len() / 2, |i: int| le16_at(data, 2 * i))
}

/// The code units before the first that is zero.
pub open spec fn until_zero(units: Seq<u16>) -> Seq<u16>
    decreases units.len(),
{
    if units.len() == 0 || units[0] == 0 {
        Seq::empty()
    } else {
        seq![units[0]] + until_zero(units.skip(1))
    }
}

pub open spec fn is_high_surrogate(unit: u16) -> bool {
    0xD800 <= unit < 0xDC00
}

pub open spec fn is_low_surrogate(unit: u16) -> bool {
    0xDC00 <= unit < 0xE000
}

/// The character of a pair of surrogates.
pub open spec fn paired(high: u16, low: u16) -> char {
    ((0x1_0000 + (high - 0xD800) * 0x400 + (low - 0xDC00)) as u32) as char
}

/// The text of code units; none where a surrogate has no partner.
pub open spec fn utf16_text(units: Seq<u16>) -> Option<Seq<char>>
    decreases units.len(),
{
    if units.len() == 0 {
        Some(Seq::empty())
    } else if !is_high_surrogate(units[0]) && !is_low_surrogate(units[0]) {
        match utf16_text(units.skip(1)) {
            Some(rest) => Some(seq![units[0] as char] + rest),
            None => None,
        }
    } else if is_high_surrogate(units[0]) && units.len() > 1 && is_low_surrogate(units[1]) {
        match utf16_text(units.skip(2)) {
            Some(rest) => Some(seq![paired(units[0], units[1])] + rest),
            None => None,
        }
    } else {
        None
    }
}

/// The code units of a character tell which it is.
proof fn lemma_char_units(c: char)
    ensures
        ({
            let units = char_units(c);
            if units.len() == 1 {
                &&& !is_high_surrogate(units[0]) && !is_low_surrogate(units[0])
                &&& units[0] as char == c
                &&& c != '\0' ==> units[0] != 0
            } else {
                &&& units.len() == 2
                &&& is_high_surrogate(units[0]) && is_low_surrogate(units[1])
                &&& paired(units[0], units[1]) == c
            }
        }),
        c != '\0' ==> c as u32 > 0,
        vstd::utf8::is_scalar(c as u32),
{
}

/// Text in UTF-16 code units reads as the same text.
pub proof fn utf16_round_trip(s: Seq<char>)
    ensures
        utf16_text(utf16(s)) == Some(s),
    decreases s.len(),
{
    if s.len() == 0 {
        assert(s =~= Seq::<char>::empty());
    } else {
        let rest = s.skip(1);
        utf16_round_trip(rest);
        lemma_char_units(s[0]);
        let units = utf16(s);
        let first = char_units(s[0]);
        assert(units.skip(first.len() as int) =~= utf16(rest));
        assert(seq![s[0]] + rest =~= s);
        assert(units[0] == first[0]);
        if first.len() == 2 {
            assert(units[1] == first[1]);
        }
    }
}

/// Code units read back from the bytes that they were written to.
pub proof fn unit_bytes_round_trip(units: Seq<u16>)
    ensures
        unit_bytes(units).len() == 2 * units.len(),
        byte_units(unit_bytes(units)) == units,
    decreases units.len(),
{
    if units.len() > 0 {
        let rest = units.drop_last();
        let n = units.len() as int - 1;
        unit_bytes_round_trip(rest);
        let bytes = unit_bytes(units);
        assert forall|i: int| 0 <= i < units.len() implies byte_units(bytes)[i] == units[i] by {
            if i < n {
                assert(byte_units(unit_bytes(rest))[i] == rest[i]);
                assert(bytes[2 * i] == unit_bytes(rest)[2 * i]);
                assert(bytes[2 * i + 1] == unit_bytes(rest)[2 * i + 1]);
            } else {
                assert(bytes[2 * n] == le16(units[n])[0]);
                assert(bytes[2 * n + 1] == le16(units[n])[1]);
            }
        }
        assert(byte_units(bytes) =~= units);
    } else {
        assert(byte_units(unit_bytes(units)) =~= units);
    }
}

/// Code units of which none is zero stand before the zero that ends them.
pub proof fn lemma_until_zero(units: Seq<u16>, rest: Seq<u16>)
    requires
        forall|i: int| 0 <= i < units.len() ==> units[i] != 0,
        rest.len() > 0 ==> rest[0] == 0,
    ensures
        until_zero(units + rest) == units,
    decreases units.len(),
{
    let all = units + rest;
    if units.len() > 0 {
        assert(all.skip(1) =~= units.skip(1) + rest);
        lemma_until_zero(units.skip(1), rest);
        assert(seq![units[0]] + units.skip(1) =~= units);
    } else {
        assert(until_zero(all) =~= units);
    }
}

/// Text without the character zero has no code unit that is zero.
pub proof fn lemma_utf16_nonzero(s: Seq<char>)
    requires
        forall|i: int| 0 <= i < s.len() ==> s[i] != '\0',
    ensures
        forall|i: int| 0 <= i < utf16(s).len() ==> utf16(s)[i] != 0,
    decreases s.len(),
{
    if s.len() > 0 {
        lemma_utf16_nonzero(s.skip(1));
        lemma_char_units(s[0]);
        let first = char_units(s[0]);
        assert forall|i: int| 0 <= i < utf16(s).len() implies utf16(s)[i] != 0 by {
            if i >= first.len() {
                assert(utf16(s)[i] == utf16(s.skip(1))[i - first.len()]);
            }
        }
    }
}

/// `char::from_u32` gives the character of a Unicode scalar value, and nothing
/// for any other number.
pub assume_specification[ char::from_u32 ](code: u32) -> (res: Option<char>)
    ensures
        res == (if code < 0xD800 || 0xE000 <= code < 0x11_0000 {
            Some(code as char)
        } else {
            None
        }),
;

/// The code units of `s`.
pub fn encode_utf16(s: &str) -> (units: Vec<u16>)
    ensures
        units@ == utf16(s@),
{
    let chars = crate::text::chars_of(s);
    let mut units: Vec<u16> = Vec::new();
    let mut i: usize = 0;
    assert(chars@.skip(0) =~= s@);
    assert(units@ + utf16(s@) =~= utf16(s@));
    while i < chars.len()
        invariant
            i <= chars@.len(),
            units@ + utf16(chars@.skip(i as int)) == utf16(s@),
        decreases chars@.len() - i,
    {
        let ghost before = units@;
        let code = chars[i] as u32;
        if code < 0x1_0000 {
            units.push(code as u16);
        } else {
            units.push((0xD800 + (code - 0x1_0000) / 0x400) as u16);
            units.push((0xDC00 + (code - 0x1_0000) % 0x400) as u16);
        }
        proof {
            assert(units@ =~= before + char_units(chars@[i as int]));
            assert(chars@.skip(i as int).skip(1) =~= chars@.skip(i + 1));
            assert(units@ + utf16(chars@.skip(i + 1)) =~= before + utf16(chars@.skip(i as int)));
        }
        i += 1;
    }
    assert(units@ + Seq::<u16>::empty() =~= units@);
    units
}

/// Appends code units, low byte first.
pub fn put_units(out: &mut Vec<u8>, units: &Vec<u16>)
    ensures
        final(out)@ == old(out)@ + unit_bytes(units@),
{
    let mut i: usize = 0;
    assert(units@.take(0) =~= Seq::<u16>::empty());
    assert(out@ + Seq::<u8>::empty() =~= out@);
    while i < units.len()
        invariant
            i <= units@.len(),
            out@ == old(out)@ + unit_bytes(units@.take(i as int)),
        decreases units@.len() - i,
    {
        put_u16(out, units[i]);
        proof {
            assert(units@.take(i + 1).drop_last() =~= units@.take(i as int));
            assert(out@ =~= old(out)@ + unit_bytes(units@.take(i + 1)));
        }
        i += 1;
    }
    assert(units@.take(i as int) =~= units@);
}

/// `s` in UTF-16, low byte first.
pub fn encode_utf16_bytes(s: &str) -> (data: Vec<u8>)
    ensures
        data@ == utf16_bytes(s@),
{
    let units = encode_utf16(s);
    let mut data: Vec<u8> = Vec::new();
    put_units(&mut data, &units);
    assert(data@ =~= utf16_bytes(s@));
    data
}

/// The code units of `data` before the first that is zero.
pub fn units_until_zero(data: &[u8]) -> (units: Vec<u16>)
    ensures
        units@ == until_zero(byte_units(data@)),
{
    let mut units: Vec<u16> = Vec::new();
    let size = data.len();
    let count = size / 2;
    let mut i: usize = 0;
    let ghost all = byte_units(data@);
    assert(all.skip(0) =~= all);
    assert(units@ + until_zero(all) =~= until_zero(all));
    while i < count
        invariant
            size == data@.len(),
            count == size / 2,
            i <= count,
            all == byte_units(data@),
            units@ + until_zero(all.skip(i as int)) == until_zero(all),
        decreases count - i,
    {
        let unit = data[2 * i] as u16 + 256 * data[2 * i + 1] as u16;
        assert(all.skip(i as int)[0] == unit);
        if unit == 0 {
            assert(units@ + Seq::<u16>::empty() =~= units@);
            return units;
        }
        let ghost before = units@;
        units.push(unit);
        proof {
            assert(all.skip(i as int).skip(1) =~= all.skip(i + 1));
            assert(before + (seq![unit] + until_zero(all.skip(i + 1))) =~= units@ + until_zero(
                all.skip(i + 1),
            ));
        }
        i += 1;
    }
    assert(units@ + Seq::<u16>::empty() =~= units@);
    units
}

/// The text of code units; none where a surrogate has no partner.
pub fn decode_utf16(units: &Vec<u16>) -> (res: Option<String>)
    ensures
        match res {
            Some(text) => utf16_text(units@) == Some(text@),
            None => utf16_text(units@) is None,
        },
{
    let mut text = String::new();
    let mut i: usize = 0;
    assert(units@.skip(0) =~= units@);
    proof {
        if let Some(rest) = utf16_text(units@) {
            assert(text@ + rest =~= rest);
        }
    }
    while i < units.len()
        invariant
            i <= units@.len(),
            match utf16_text(units@.skip(i as int)) {
                Some(rest) => utf16_text(units@) == Some(text@ + rest),
                None => utf16_text(units@) is None,
            },
        decreases units@.len() - i,
    {
        let unit = units[i];
        let ghost before = text@;
        let ghost left = units@.skip(i as int);
        if unit < 0xD800 || unit >= 0xE000 {
            match char::from_u32(unit as u32) {
                Some(c) => text.push(c),
                None => return None,
            }
            proof {
                assert(left.skip(1) =~= units@.skip(i + 1));
                if let Some(rest) = utf16_text(units@.skip(i + 1)) {
                    assert(before + (seq![unit as char] + rest) =~= text@ + rest);
                }
            }
            i += 1;
        } else if unit < 0xDC00 && units.len() - i > 1 && 0xDC00 <= units[i + 1] && units[i + 1]
            < 0xE000 {
            let low = units[i + 1];
            let code = 0x1_0000 + (unit as u32 - 0xD800) * 0x400 + (low as u32 - 0xDC00);
            match char::from_u32(code) {
                Some(c) => text.push(c),
                None => return None,
            }
            proof {
                assert(left[1] == low);
                assert(left.skip(2) =~= units@.skip(i + 2));
                if let Some(rest) = utf16_text(units@.skip(i + 2)) {
                    assert(before + (seq![paired(unit, low)] + rest) =~= text@ + rest);
                }
            }
            i += 2;
        } else {
            return None;
        }
    }
    assert(text@ + Seq::<char>::empty() =~= text@);
    Some(text)
}

// ---- UTF-8 ------------------------------------------------------------------

/// What `String::from_utf8_lossy` makes of bytes.
pub uninterp spec fn repaired_text(data: Seq<u8>) -> Seq<char>;

/// Calls `String::from_utf8_lossy`, whose result depends on the bytes alone.
/// Bytes that are UTF-8 throughout give the text that they encode. Where
/// replacement characters stand in other text is not said here.
#[verifier::external_body]
fn repair_utf8(data: &[u8]) -> (text: String)
    ensures
        text@ == repaired_text(data@),
        valid_utf8(data@) ==> text@ == decode_utf8(data@),
{
    String::from_utf8_lossy(data).into_owned()
}

/// The text of `data`, in which replacement characters stand for what is not
/// UTF-8.
pub open spec fn utf8_text(data: Seq<u8>) -> Seq<char> {
    if valid_utf8(data) {
        decode_utf8(data)
    } else {
        repaired_text(data)
    }
}

/// The text of `data`.
pub fn decode_utf8_lossy(data: &[u8]) -> (text: String)
    ensures
        text@ == utf8_text(data@),
{
    repair_utf8(data)
}

/// Text in UTF-8 reads as the same text.
pub proof fn utf8_round_trip(s: Seq<char>)
    ensures
        utf8_text(encode_utf8(s)) == s,
{
    vstd::utf8::encode_utf8_valid_utf8(s);
    vstd::utf8::encode_utf8_decode_utf8(s);
}

/// Text without the character zero has no byte that is zero.
pub proof fn lemma_utf8_nonzero(s: Seq<char>)
    requires
        forall|i: int| 0 <= i < s.len() ==> s[i] != '\0',
    ensures
        forall|i: int| 0 <= i < encode_utf8(s).len() ==> encode_utf8(s)[i] != 0,
    decreases s.len(),
{
    if s.len() > 0 {
        let rest = s.drop_first();
        lemma_utf8_nonzero(rest);
        let code = s[0] as u32;
        let first = vstd::utf8::encode_scalar(code);
        lemma_char_units(s[0]);
        assert(code > 0);
        assert(code <= 0x7F ==> (code & 0x7F) as u8 != 0) by (bit_vector)
            requires
                code > 0,
        ;
        assert(0xC0u8 | ((code >> 6) & 0x1F) as u8 != 0) by (bit_vector);
        assert(0xE0u8 | ((code >> 12) & 0x0F) as u8 != 0) by (bit_vector);
        assert(0xF0u8 | ((code >> 18) & 0x7) as u8 != 0) by (bit_vector);
        assert(0x80u8 | (code & 0x3F) as u8 != 0) by (bit_vector);
        assert(0x80u8 | ((code >> 6) & 0x3F) as u8 != 0) by (bit_vector);
        assert(0x80u8 | ((code >> 12) & 0x3F) as u8 != 0) by (bit_vector);
        assert(encode_utf8(s) == first + encode_utf8(rest));
        assert forall|i: int| 0 <= i < encode_utf8(s).len() implies encode_utf8(s)[i] != 0 by {
            if i >= first.len() {
                assert(encode_utf8(s)[i] == encode_utf8(rest)[i - first.len()]);
            } else {
                assert(encode_utf8(s)[i] == first[i]);
            }
        }
    }
}

// ---- What the units are -----------------------------------------------------

/// A character below 10000 is one unit, its own number; any other is two, a high
/// and a low one, that hold ten bits each of its number less 10000.
pub proof fn characters_are_units(c: char)
    ensures
        ({
            let units = char_units(c);
            let code = c as u32 as int;
            &&& code < 0x1_0000 ==> units.len() == 1 && units[0] == code
            &&& code >= 0x1_0000 ==> units.len() == 2 && 0xD800 <= units[0] < 0xDC00 && 0xDC00
                <= units[1] < 0xE000 && (units[0] - 0xD800) * 1024 + (units[1] - 0xDC00) + 0x1_0000
                == code
        }),
{
    broadcast use vstd::utf8::char_is_scalar;
    assert(vstd::utf8::is_scalar(c as u32));
}

/// The units of two texts in a row are those of the first and those of the second.
pub proof fn units_come_in_order(a: Seq<char>, b: Seq<char>)
    ensures
        utf16(a + b) == utf16(a) + utf16(b),
    decreases a.len(),
{
    if a.len() == 0 {
        assert(a + b =~= b);
        assert(utf16(a) + utf16(b) =~= utf16(b));
    } else {
        units_come_in_order(a.skip(1), b);
        assert((a + b).skip(1) =~= a.skip(1) + b);
        assert(char_units(a[0]) + (utf16(a.skip(1)) + utf16(b)) =~= utf16(a) + utf16(b));
    }
}

/// Each unit takes two bytes, low byte first.
pub proof fn units_take_two_bytes(units: Seq<u16>, i: int)
    requires
        0 <= i < units.len(),
    ensures
        unit_bytes(units).len() == 2 * units.len(),
        unit_bytes(units)[2 * i] + 256 * unit_bytes(units)[2 * i + 1] == units[i],
{
    unit_bytes_round_trip(units);
    assert(byte_units(unit_bytes(units))[i] == units[i]);
}

/// Bytes are read as units two by two, low byte first; one that is left over is
/// not read.
pub proof fn bytes_are_read_as_units(data: Seq<u8>, i: int)
    ensures
        byte_units(data).len() == data.len() / 2,
        0 <= i < data.len() / 2 ==> byte_units(data)[i] == data[2 * i] + 256 * data[2 * i + 1],
{
}

/// What stands before the first zero holds none, and a zero or nothing follows.
pub proof fn zeros_end_text(units: Seq<u16>)
    ensures
        ({
            let text = until_zero(units);
            &&& text.len() <= units.len()
            &&& text == units.take(text.len() as int)
            &&& text.len() < units.len() ==> units[text.len() as int] == 0
            &&& forall|i: int| 0 <= i < text.len() ==> #[trigger] text[i] != 0
        }),
    decreases units.len(),
{
    let text = until_zero(units);
    if units.len() > 0 && units[0] != 0 {
        let rest = units.skip(1);
        zeros_end_text(rest);
        let inner = until_zero(rest);
        assert(text == seq![units[0]] + inner);
        assert forall|i: int| 0 <= i < text.len() implies text[i] == units[i] && #[trigger] text[i]
            != 0 by {
            if i > 0 {
                assert(inner[i - 1] == rest.take(inner.len() as int)[i - 1]);
            }
        }
        assert(text =~= units.take(text.len() as int));
    } else {
        assert(text =~= units.take(0));
    }
}

/// Half of a pair without the other is no text.
pub proof fn broken_pairs_are_no_text(units: Seq<u16>)
    requires
        units.len() > 0,
        0xD800 <= units[0] < 0xE000,
        units[0] >= 0xDC00 || units.len() == 1 || !(0xDC00 <= units[1] < 0xE000),
    ensures
        utf16_text(units) is None,
{
}

} // verus!
