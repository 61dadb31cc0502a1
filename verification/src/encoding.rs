//! Base64 (standard alphabet, padded) and lossy UTF-8 decoding, as the
//! advertisement of a device uses them.

use base64::Engine;
use vstd::prelude::*;
use vstd::utf8::{decode_utf8, encode_utf8, valid_utf8};

verus! {

/// The character of a 6-bit value in the standard base64 alphabet of RFC 4648.
pub open spec fn base64_char(v: int) -> char {
    if v < 26 {
        ((v + 65) as u8) as char
    } else if v < 52 {
        ((v + 71) as u8) as char
    } else if v < 62 {
        ((v - 4) as u8) as char
    } else if v == 62 {
        '+'
    } else {
        '/'
    }
}

/// Standard base64 with `=` padding: every group of three bytes becomes four
/// characters, and a final group of one or two bytes is padded to four.
pub open spec fn base64_encode_spec(data: Seq<u8>) -> Seq<char>
    decreases data.len(),
{
    if data.len() == 0 {
        seq![]
    } else if data.len() == 1 {
        let b0 = data[0] as int;
        seq![base64_char(b0 / 4), base64_char((b0 % 4) * 16), '=', '=']
    } else if data.len() == 2 {
        let b0 = data[0] as int;
        let b1 = data[1] as int;
        seq![
            base64_char(b0 / 4),
            base64_char((b0 % 4) * 16 + b1 / 16),
            base64_char((b1 % 16) * 4),
            '=',
        ]
    } else {
        let b0 = data[0] as int;
        let b1 = data[1] as int;
        let b2 = data[2] as int;
        seq![
            base64_char(b0 / 4),
            base64_char((b0 % 4) * 16 + b1 / 16),
            base64_char((b1 % 16) * 4 + b2 / 64),
            base64_char(b2 % 64),
        ] + base64_encode_spec(data.subrange(3, data.len() as int))
    }
}

/// Whether `text` is the standard padded base64 encoding of `data`, as bytes.
pub open spec fn is_base64_of(text: Seq<u8>, data: Seq<u8>) -> bool {
    encode_utf8(base64_encode_spec(data)) == text
}

/// Standard padded base64 decoding as `BASE64_STANDARD.decode` of the
/// `base64` crate does it, which requires canonical padding and no stray
/// trailing bits: the bytes whose encoding `text` is, and `None` where `text`
/// is the encoding of no bytes.
pub open spec fn base64_standard_decode(text: Seq<u8>) -> Option<Seq<u8>> {
    if exists|d: Seq<u8>| is_base64_of(text, d) {
        Some(choose|d: Seq<u8>| is_base64_of(text, d))
    } else {
        None
    }
}

proof fn lemma_base64_char_facts(a: int, b: int)
    requires
        0 <= a < 64,
        0 <= b < 64,
    ensures
        base64_char(a) == base64_char(b) ==> a == b,
        base64_char(a) != '=',
{
}

proof fn lemma_group_bytes(a0: u8, a1: u8, a2: u8, c0: u8, c1: u8, c2: u8)
    requires
        a0 / 4 == c0 / 4,
        (a0 % 4) * 16 + a1 / 16 == (c0 % 4) * 16 + c1 / 16,
        (a1 % 16) * 4 + a2 / 64 == (c1 % 16) * 4 + c2 / 64,
        a2 % 64 == c2 % 64,
    ensures
        a0 == c0 && a1 == c1 && a2 == c2,
{
    assert(a0 == c0 && a1 == c1 && a2 == c2) by (bit_vector)
        requires
            a0 / 4 == c0 / 4,
            (a0 % 4) * 16 + a1 / 16 == (c0 % 4) * 16 + c1 / 16,
            (a1 % 16) * 4 + a2 / 64 == (c1 % 16) * 4 + c2 / 64,
            a2 % 64 == c2 % 64,
    ;
}

proof fn lemma_group_ranges(b0: u8, b1: u8, b2: u8)
    ensures
        0 <= b0 / 4 < 64,
        0 <= (b0 % 4) * 16 + b1 / 16 < 64,
        0 <= (b1 % 16) * 4 + b2 / 64 < 64,
        0 <= b2 % 64 < 64,
        0 <= (b0 % 4) * 16 < 64,
        0 <= (b1 % 16) * 4 < 64,
{
}

/// Different bytes have different encodings.
proof fn lemma_base64_encode_injective(d1: Seq<u8>, d2: Seq<u8>)
    requires
        base64_encode_spec(d1) == base64_encode_spec(d2),
    ensures
        d1 == d2,
    decreases d1.len(),
{
    let e = base64_encode_spec(d1);
    if d1.len() > 0 {
        lemma_group_ranges(d1[0], if d1.len() > 1 { d1[1] } else { 0 }, if d1.len() > 2 { d1[2] } else { 0 });
    }
    if d2.len() > 0 {
        lemma_group_ranges(d2[0], if d2.len() > 1 { d2[1] } else { 0 }, if d2.len() > 2 { d2[2] } else { 0 });
    }
    if d1.len() == 0 || d2.len() == 0 {
        assert(d1.len() == 0 && d2.len() == 0) by {
            if d1.len() > 0 {
                assert(e.len() >= 4);
            }
            if d2.len() > 0 {
                assert(base64_encode_spec(d2).len() >= 4);
            }
        }
        assert(d1 =~= d2);
        return;
    }
    let a0 = d1[0] as int;
    let c0 = d2[0] as int;
    assert(e[0] == base64_char(a0 / 4));
    assert(base64_encode_spec(d2)[0] == base64_char(c0 / 4));
    lemma_base64_char_facts(a0 / 4, c0 / 4);
    if d1.len() == 1 || d2.len() == 1 {
        if d1.len() == 1 && d2.len() == 1 {
            lemma_base64_char_facts(a0 % 4 * 16, c0 % 4 * 16);
            assert(d1[0] == d2[0]) by (nonlinear_arith)
                requires
                    a0 / 4 == c0 / 4,
                    a0 % 4 * 16 == c0 % 4 * 16,
                    a0 == d1[0],
                    c0 == d2[0],
                    0 <= a0 < 256,
                    0 <= c0 < 256,
            ;
            assert(d1 =~= d2);
        } else if d1.len() == 1 {
            let x = base64_encode_spec(d2)[2];
            assert(e[2] == '=');
            let v = (d2[1] as int % 16) * 4 + if d2.len() > 2 { d2[2] as int / 64 } else { 0 };
            assert(x == base64_char(v));
            lemma_base64_char_facts(v, v);
        } else {
            let v = (d1[1] as int % 16) * 4 + if d1.len() > 2 { d1[2] as int / 64 } else { 0 };
            assert(e[2] == base64_char(v));
            lemma_base64_char_facts(v, v);
        }
        return;
    }
    let a1 = d1[1] as int;
    let c1 = d2[1] as int;
    if d1.len() == 2 || d2.len() == 2 {
        if d1.len() == 2 && d2.len() == 2 {
            lemma_base64_char_facts(a0 % 4 * 16 + a1 / 16, c0 % 4 * 16 + c1 / 16);
            lemma_base64_char_facts(a1 % 16 * 4, c1 % 16 * 4);
            lemma_group_bytes(d1[0], d1[1], 0, d2[0], d2[1], 0);
            assert(d1 =~= d2);
        } else if d1.len() == 2 {
            assert(e[3] == '=');
            lemma_base64_char_facts(d2[2] as int % 64, 0);
        } else {
            lemma_base64_char_facts(d1[2] as int % 64, 0);
        }
        return;
    }
    let a2 = d1[2] as int;
    let c2 = d2[2] as int;
    let f = base64_encode_spec(d2);
    assert(e[1] == base64_char(a0 % 4 * 16 + a1 / 16));
    assert(f[1] == base64_char(c0 % 4 * 16 + c1 / 16));
    assert(e[2] == base64_char(a1 % 16 * 4 + a2 / 64));
    assert(f[2] == base64_char(c1 % 16 * 4 + c2 / 64));
    assert(e[3] == base64_char(a2 % 64));
    assert(f[3] == base64_char(c2 % 64));
    lemma_base64_char_facts(a0 % 4 * 16 + a1 / 16, c0 % 4 * 16 + c1 / 16);
    lemma_base64_char_facts(a1 % 16 * 4 + a2 / 64, c1 % 16 * 4 + c2 / 64);
    lemma_base64_char_facts(a2 % 64, c2 % 64);
    lemma_group_bytes(d1[0], d1[1], d1[2], d2[0], d2[1], d2[2]);
    let r1 = d1.subrange(3, d1.len() as int);
    let r2 = d2.subrange(3, d2.len() as int);
    assert(base64_encode_spec(r1) =~= e.skip(4));
    assert(base64_encode_spec(r2) =~= base64_encode_spec(d2).skip(4));
    lemma_base64_encode_injective(r1, r2);
    assert(d1 =~= d2) by {
        assert forall|i: int| 0 <= i < d1.len() implies d1[i] == d2[i] by {
            if i >= 3 {
                assert(d1[i] == r1[i - 3]);
                assert(d2[i] == r2[i - 3]);
            }
        }
    }
}

/// Decoding gives back what encoding was given: the base64 decoder undoes the
/// encoding a device advertises its fingerprint in, for bytes of any length.
pub proof fn lemma_base64_roundtrip(data: Seq<u8>)
    ensures
        base64_standard_decode(encode_utf8(base64_encode_spec(data))) == Some(data),
{
    let text = encode_utf8(base64_encode_spec(data));
    assert(is_base64_of(text, data));
    let d = choose|d: Seq<u8>| is_base64_of(text, d);
    assert(is_base64_of(text, d));
    vstd::utf8::encode_utf8_decode_utf8(base64_encode_spec(d));
    vstd::utf8::encode_utf8_decode_utf8(base64_encode_spec(data));
    lemma_base64_encode_injective(d, data);
}

/// What `String::from_utf8_lossy` returns for the given bytes.
pub uninterp spec fn utf8_lossy(bytes: Seq<u8>) -> Seq<char>;

/// The text of some bytes read lossily: their UTF-8 decoding, where they are
/// not valid UTF-8 with replacement characters as `from_utf8_lossy` inserts
/// them.
pub open spec fn lossy_text(bytes: Seq<u8>) -> Seq<char> {
    if valid_utf8(bytes) {
        decode_utf8(bytes)
    } else {
        utf8_lossy(bytes)
    }
}

/// Calls `BASE64_STANDARD.encode` of the `base64` crate. The contract claims
/// the RFC 4648 standard encoding with padding. The crate panics where the
/// encoded length overflows `usize`, which `requires` leaves out.
#[verifier::external_body]
pub(crate) fn base64_encode(data: &[u8]) -> (res: String)
    requires
        (data@.len() + 2) / 3 * 4 <= usize::MAX,
    ensures
        res@ == base64_encode_spec(data@),
{
    base64::prelude::BASE64_STANDARD.encode(data)
}

/// Calls `BASE64_STANDARD.decode` of the `base64` crate on the bytes of
/// `text`; an error of the crate becomes `None`. The contract claims that it
/// accepts exactly the canonical padded encodings of byte strings, and gives
/// back those bytes.
#[verifier::external_body]
pub(crate) fn base64_decode(text: &str) -> (res: Option<Vec<u8>>)
    ensures
        match res {
            Some(v) => base64_standard_decode(encode_utf8(text@)) == Some(v@),
            None => base64_standard_decode(encode_utf8(text@)) is None,
        },
{
    base64::prelude::BASE64_STANDARD.decode(text).ok()
}

/// Calls `String::from_utf8_lossy` and turns the result into a `String`.
/// Valid UTF-8 comes back unchanged; what replaces invalid sequences is left to
/// the name `utf8_lossy`.
#[verifier::external_body]
pub(crate) fn utf8_lossy_string(bytes: &[u8]) -> (res: String)
    ensures
        res@ == utf8_lossy(bytes@),
        valid_utf8(bytes@) ==> res@ == decode_utf8(bytes@),
{
    String::from_utf8_lossy(bytes).to_string()
}

} // verus!
