//! Bytes as text of 64 characters.

use base64::engine::general_purpose::STANDARD;
use base64::Engine;
use vstd::prelude::*;

verus! {

/// The character for a value below 64.
pub open spec fn sextet(v: int) -> char {
    if v < 26 {
        (('A' as u32 + v) as u32) as char
    } else if v < 52 {
        (('a' as u32 + v - 26) as u32) as char
    } else if v < 62 {
        (('0' as u32 + v - 52) as u32) as char
    } else if v == 62 {
        '+'
    } else {
        '/'
    }
}

/// `data` as text: four characters for three bytes, and padding where bytes are
/// missing from the last three.
pub open spec fn base64(data: Seq<u8>) -> Seq<char>
    decreases data.len(),
{
    if data.len() == 0 {
        Seq::empty()
    } else if data.len() == 1 {
        seq![sextet(data[0] as int / 4), sextet(data[0] as int % 4 * 16), '=', '=']
    } else if data.len() == 2 {
        seq![
            sextet(data[0] as int / 4),
            sextet(data[0] as int % 4 * 16 + data[1] as int / 16),
            sextet(data[1] as int % 16 * 4),
            '=',
        ]
    } else {
        seq![
            sextet(data[0] as int / 4),
            sextet(data[0] as int % 4 * 16 + data[1] as int / 16),
            sextet(data[1] as int % 16 * 4 + data[2] as int / 64),
            sextet(data[2] as int % 64),
        ] + base64(data.skip(3))
    }
}

/// Calls `Engine::encode` of the `STANDARD` engine, which writes bytes with the
/// standard alphabet and with padding.
#[verifier::external_body]
pub(crate) fn encode_base64(data: &[u8]) -> (text: String)
    requires
        data@.len() <= usize::MAX / 4,
    ensures
        text@ == base64(data@),
{
    STANDARD.encode(data)
}

/// Calls `Engine::decode` of the `STANDARD` engine, which accepts the text that
/// bytes are written as, with its padding, and nothing else.
#[verifier::external_body]
pub(crate) fn decode_base64(text: &str) -> (res: Option<Vec<u8>>)
    ensures
        match res {
            Some(data) => base64(data@) == text@,
            None => forall|data: Seq<u8>| #[trigger] base64(data) != text@,
        },
{
    STANDARD.decode(text).ok()
}

proof fn lemma_sextet(a: int, b: int)
    requires
        0 <= a < 64,
        0 <= b < 64,
        sextet(a) == sextet(b),
    ensures
        a == b,
{
}

proof fn lemma_sextet_not_padding(a: int)
    requires
        0 <= a < 64,
    ensures
        sextet(a) != '=',
{
}

/// Different bytes are written as different text.
pub proof fn base64_injective(a: Seq<u8>, b: Seq<u8>)
    requires
        base64(a) == base64(b),
    ensures
        a == b,
    decreases a.len(),
{
    let s = base64(a);
    let t = base64(b);
    if a.len() == 0 {
        assert(s.len() == 0);
        assert(b.len() == 0);
        assert(a =~= b);
    } else if b.len() == 0 {
        assert(t.len() == 0);
    } else {
        lemma_group(a);
        lemma_group(b);
        assert(s[0] == t[0] && s[1] == t[1] && s[2] == t[2] && s[3] == t[3]);
        lemma_sextet(a[0] as int / 4, b[0] as int / 4);
        if a.len() >= 3 && b.len() >= 3 {
            lemma_sextet(
                a[0] as int % 4 * 16 + a[1] as int / 16,
                b[0] as int % 4 * 16 + b[1] as int / 16,
            );
            lemma_sextet(
                a[1] as int % 16 * 4 + a[2] as int / 64,
                b[1] as int % 16 * 4 + b[2] as int / 64,
            );
            lemma_sextet(a[2] as int % 64, b[2] as int % 64);
            assert(s.skip(4) =~= base64(a.skip(3)));
            assert(t.skip(4) =~= base64(b.skip(3)));
            base64_injective(a.skip(3), b.skip(3));
            assert(a =~= seq![a[0], a[1], a[2]] + a.skip(3));
            assert(b =~= seq![b[0], b[1], b[2]] + b.skip(3));
        } else if a.len() == 2 && b.len() == 2 {
            lemma_sextet(
                a[0] as int % 4 * 16 + a[1] as int / 16,
                b[0] as int % 4 * 16 + b[1] as int / 16,
            );
            lemma_sextet(a[1] as int % 16 * 4, b[1] as int % 16 * 4);
            assert(a =~= b);
        } else if a.len() == 1 && b.len() == 1 {
            lemma_sextet(a[0] as int % 4 * 16, b[0] as int % 4 * 16);
            assert(a =~= b);
        }
    }
}

/// Padding stands in the third and fourth place of the first group just where
/// bytes are missing.
proof fn lemma_group(data: Seq<u8>)
    requires
        data.len() > 0,
    ensures
        base64(data).len() >= 4,
        (base64(data)[2] == '=') == (data.len() == 1),
        (base64(data)[3] == '=') == (data.len() <= 2),
        data.len() <= 2 ==> base64(data).len() == 4,
{
    if data.len() >= 2 {
        lemma_sextet_not_padding(data[1] as int % 16 * 4);
        if data.len() >= 3 {
            lemma_sextet_not_padding(data[1] as int % 16 * 4 + data[2] as int / 64);
            lemma_sextet_not_padding(data[2] as int % 64);
        }
    }
}

/// Whether `c` occurs in text of 64 characters.
pub open spec fn base64_char(c: char) -> bool {
    ('A' <= c && c <= 'Z') || ('a' <= c && c <= 'z') || ('0' <= c && c <= '9') || c == '+' || c
        == '/' || c == '='
}

/// Bytes are written with letters, digits, `+`, `/` and `=` alone.
pub proof fn base64_alphabet(data: Seq<u8>)
    ensures
        forall|i: int| 0 <= i < base64(data).len() ==> base64_char(#[trigger] base64(data)[i]),
    decreases data.len(),
{
    if data.len() >= 3 {
        base64_alphabet(data.skip(3));
        let rest = base64(data.skip(3));
        assert forall|i: int| 0 <= i < base64(data).len() implies base64_char(
            #[trigger] base64(data)[i],
        ) by {
            if i >= 4 {
                assert(base64(data)[i] == rest[i - 4]);
            }
        }
    }
}

} // verus!
