use base64::Engine;
use vstd::prelude::*;
use vstd::utf8::{decode_utf8, valid_utf8};

verus! {

/// The character for a 6-bit value in the standard base64 alphabet of
/// RFC 4648: `A`-`Z`, `a`-`z`, `0`-`9`, `+`, `/`.
pub open spec fn b64_digit(v: int) -> char {
    if v < 26 {
        (65 + v) as char
    } else if v < 52 {
        (71 + v) as char
    } else if v < 62 {
        (v - 4) as char
    } else if v == 62 {
        '+'
    } else {
        '/'
    }
}

/// The four characters that encode three bytes.
pub open spec fn b64_quad(b0: u8, b1: u8, b2: u8) -> Seq<char> {
    seq![
        b64_digit((b0 >> 2u8) as int),
        b64_digit((((b0 & 3u8) << 4u8) | (b1 >> 4u8)) as int),
        b64_digit((((b1 & 15u8) << 2u8) | (b2 >> 6u8)) as int),
        b64_digit((b2 & 63u8) as int),
    ]
}

/// Base64 encoding of `b` in the standard alphabet; with `pad`, a final group
/// of one or two bytes is completed with `=` to four characters (RFC 4648,
/// section 4), without it the `=` are left out.
pub open spec fn b64_encode(b: Seq<u8>, pad: bool) -> Seq<char>
    decreases b.len(),
{
    if b.len() == 0 {
        seq![]
    } else if b.len() == 1 {
        let q = b64_quad(b[0], 0, 0);
        if pad {
            seq![q[0], q[1], '=', '=']
        } else {
            seq![q[0], q[1]]
        }
    } else if b.len() == 2 {
        let q = b64_quad(b[0], b[1], 0);
        if pad {
            seq![q[0], q[1], q[2], '=']
        } else {
            seq![q[0], q[1], q[2]]
        }
    } else {
        b64_quad(b[0], b[1], b[2]) + b64_encode(b.skip(3), pad)
    }
}

proof fn lemma_digit_injective(v: int, w: int)
    requires
        0 <= v < 64,
        0 <= w < 64,
        b64_digit(v) == b64_digit(w),
    ensures
        v == w,
{
    assert(b64_digit(v) as int == b64_digit(w) as int);
}

proof fn lemma_digit_not_pad(v: int)
    requires
        0 <= v < 64,
    ensures
        b64_digit(v) != '=',
{
    assert(b64_digit(v) as int != '=' as int);
}


proof fn lemma_sextets(a0: u8, a1: u8, a2: u8)
    ensures
        0 <= (a0 >> 2u8) < 64,
        0 <= (((a0 & 3u8) << 4u8) | (a1 >> 4u8)) < 64,
        0 <= (((a1 & 15u8) << 2u8) | (a2 >> 6u8)) < 64,
        0 <= (a2 & 63u8) < 64,
{
    assert((a0 >> 2u8) < 64) by (bit_vector);
    assert((((a0 & 3u8) << 4u8) | (a1 >> 4u8)) < 64) by (bit_vector);
    assert((((a1 & 15u8) << 2u8) | (a2 >> 6u8)) < 64) by (bit_vector);
    assert((a2 & 63u8) < 64) by (bit_vector);
}

/// Equal characters at position `i` of two quads mean equal sextets there.
proof fn lemma_quads_agree(a0: u8, a1: u8, a2: u8, b0: u8, b1: u8, b2: u8, i: int)
    requires
        0 <= i < 4,
        b64_quad(a0, a1, a2)[i] == b64_quad(b0, b1, b2)[i],
    ensures
        i == 0 ==> (a0 >> 2u8) == (b0 >> 2u8),
        i == 1 ==> (((a0 & 3u8) << 4u8) | (a1 >> 4u8)) == (((b0 & 3u8) << 4u8) | (b1 >> 4u8)),
        i == 2 ==> (((a1 & 15u8) << 2u8) | (a2 >> 6u8)) == (((b1 & 15u8) << 2u8) | (b2 >> 6u8)),
        i == 3 ==> (a2 & 63u8) == (b2 & 63u8),
{
    lemma_sextets(a0, a1, a2);
    lemma_sextets(b0, b1, b2);
    if i == 0 {
        lemma_digit_injective((a0 >> 2u8) as int, (b0 >> 2u8) as int);
    } else if i == 1 {
        lemma_digit_injective(
            (((a0 & 3u8) << 4u8) | (a1 >> 4u8)) as int,
            (((b0 & 3u8) << 4u8) | (b1 >> 4u8)) as int,
        );
    } else if i == 2 {
        lemma_digit_injective(
            (((a1 & 15u8) << 2u8) | (a2 >> 6u8)) as int,
            (((b1 & 15u8) << 2u8) | (b2 >> 6u8)) as int,
        );
    } else {
        lemma_digit_injective((a2 & 63u8) as int, (b2 & 63u8) as int);
    }
}

proof fn lemma_quad_injective(a0: u8, a1: u8, a2: u8, b0: u8, b1: u8, b2: u8)
    requires
        b64_quad(a0, a1, a2) == b64_quad(b0, b1, b2),
    ensures
        a0 == b0,
        a1 == b1,
        a2 == b2,
{
    lemma_quads_agree(a0, a1, a2, b0, b1, b2, 0);
    lemma_quads_agree(a0, a1, a2, b0, b1, b2, 1);
    lemma_quads_agree(a0, a1, a2, b0, b1, b2, 2);
    lemma_quads_agree(a0, a1, a2, b0, b1, b2, 3);
    assert(a0 == b0 && a1 == b1 && a2 == b2) by (bit_vector)
        requires
            (a0 >> 2u8) == (b0 >> 2u8),
            (((a0 & 3u8) << 4u8) | (a1 >> 4u8)) == (((b0 & 3u8) << 4u8) | (b1 >> 4u8)),
            (((a1 & 15u8) << 2u8) | (a2 >> 6u8)) == (((b1 & 15u8) << 2u8) | (b2 >> 6u8)),
            (a2 & 63u8) == (b2 & 63u8),
    ;
}

/// A lone final byte is determined by its first two characters.
proof fn lemma_tail1_injective(a0: u8, b0: u8)
    requires
        b64_quad(a0, 0, 0)[0] == b64_quad(b0, 0, 0)[0],
        b64_quad(a0, 0, 0)[1] == b64_quad(b0, 0, 0)[1],
    ensures
        a0 == b0,
{
    lemma_quads_agree(a0, 0, 0, b0, 0, 0, 0);
    lemma_quads_agree(a0, 0, 0, b0, 0, 0, 1);
    let z: u8 = 0;
    assert(a0 == b0) by (bit_vector)
        requires
            (a0 >> 2u8) == (b0 >> 2u8),
            (((a0 & 3u8) << 4u8) | (z >> 4u8)) == (((b0 & 3u8) << 4u8) | (z >> 4u8)),
    ;
}

/// Two final bytes are determined by their first three characters.
proof fn lemma_tail2_injective(a0: u8, a1: u8, b0: u8, b1: u8)
    requires
        b64_quad(a0, a1, 0)[0] == b64_quad(b0, b1, 0)[0],
        b64_quad(a0, a1, 0)[1] == b64_quad(b0, b1, 0)[1],
        b64_quad(a0, a1, 0)[2] == b64_quad(b0, b1, 0)[2],
    ensures
        a0 == b0,
        a1 == b1,
{
    lemma_quads_agree(a0, a1, 0, b0, b1, 0, 0);
    lemma_quads_agree(a0, a1, 0, b0, b1, 0, 1);
    lemma_quads_agree(a0, a1, 0, b0, b1, 0, 2);
    let z: u8 = 0;
    assert(a0 == b0 && a1 == b1) by (bit_vector)
        requires
            (a0 >> 2u8) == (b0 >> 2u8),
            (((a0 & 3u8) << 4u8) | (a1 >> 4u8)) == (((b0 & 3u8) << 4u8) | (b1 >> 4u8)),
            (((a1 & 15u8) << 2u8) | (z >> 6u8)) == (((b1 & 15u8) << 2u8) | (z >> 6u8)),
    ;
}

/// The length of an encoding: four characters per full group of three bytes,
/// and for a final group of one or two bytes four characters with padding,
/// two or three without.
pub open spec fn b64_len(n: nat, pad: bool) -> nat {
    if n % 3 == 0 {
        4 * (n / 3)
    } else if pad {
        4 * (n / 3) + 4
    } else {
        4 * (n / 3) + n % 3 + 1
    }
}

pub proof fn lemma_b64_len(b: Seq<u8>, pad: bool)
    ensures
        b64_encode(b, pad).len() == b64_len(b.len(), pad),
    decreases b.len(),
{
    if b.len() >= 3 {
        lemma_b64_len(b.skip(3), pad);
    }
}

/// A quad holds no padding character.
proof fn lemma_quad_no_pad(a0: u8, a1: u8, a2: u8, i: int)
    requires
        0 <= i < 4,
    ensures
        b64_quad(a0, a1, a2)[i] != '=',
{
    lemma_sextets(a0, a1, a2);
    if i == 0 {
        lemma_digit_not_pad((a0 >> 2u8) as int);
    } else if i == 1 {
        lemma_digit_not_pad((((a0 & 3u8) << 4u8) | (a1 >> 4u8)) as int);
    } else if i == 2 {
        lemma_digit_not_pad((((a1 & 15u8) << 2u8) | (a2 >> 6u8)) as int);
    } else {
        lemma_digit_not_pad((a2 & 63u8) as int);
    }
}

/// Law: base64 encoding (with or without padding) never maps two different
/// byte sequences to the same text.
pub proof fn lemma_b64_injective(x: Seq<u8>, y: Seq<u8>, pad: bool)
    requires
        b64_encode(x, pad) == b64_encode(y, pad),
    ensures
        x == y,
    decreases x.len(),
{
    let ex = b64_encode(x, pad);
    let ey = b64_encode(y, pad);
    lemma_b64_len(x, pad);
    lemma_b64_len(y, pad);
    if x.len() >= 3 && y.len() >= 3 {
        let qx = b64_quad(x[0], x[1], x[2]);
        let qy = b64_quad(y[0], y[1], y[2]);
        assert(ex.take(4) =~= qx);
        assert(ey.take(4) =~= qy);
        lemma_quad_injective(x[0], x[1], x[2], y[0], y[1], y[2]);
        assert(ex.skip(4) =~= b64_encode(x.skip(3), pad));
        assert(ey.skip(4) =~= b64_encode(y.skip(3), pad));
        lemma_b64_injective(x.skip(3), y.skip(3), pad);
        assert(x =~= seq![x[0], x[1], x[2]] + x.skip(3));
        assert(y =~= seq![y[0], y[1], y[2]] + y.skip(3));
    } else if x.len() >= 3 {
        lemma_short_vs_long(y, x, pad);
    } else if y.len() >= 3 {
        lemma_short_vs_long(x, y, pad);
    } else {
        if x.len() == 0 || y.len() == 0 {
        } else if x.len() == 1 && y.len() == 1 {
            lemma_tail1_injective(x[0], y[0]);
            assert(x =~= y);
        } else if x.len() == 2 && y.len() == 2 {
            lemma_tail2_injective(x[0], x[1], y[0], y[1]);
            assert(x =~= y);
        } else if x.len() == 1 {
            // y has two bytes: its third character is a digit, x's is padding
            lemma_quad_no_pad(y[0], y[1], 0, 2);
            assert(ey[2] != '=');
        } else {
            lemma_quad_no_pad(x[0], x[1], 0, 2);
            assert(ex[2] != '=');
        }
    }
}

/// An encoding of fewer than three bytes never equals one of three or more.
proof fn lemma_short_vs_long(s: Seq<u8>, l: Seq<u8>, pad: bool)
    requires
        s.len() < 3,
        l.len() >= 3,
    ensures
        b64_encode(s, pad) != b64_encode(l, pad),
{
    lemma_b64_len(s, pad);
    lemma_b64_len(l, pad);
    lemma_b64_len(l.skip(3), pad);
    let es = b64_encode(s, pad);
    let el = b64_encode(l, pad);
    if pad && s.len() > 0 && l.len() == 3 {
        assert(el == b64_quad(l[0], l[1], l[2]) + b64_encode(l.skip(3), pad));
        assert(l.skip(3).len() == 0);
        lemma_quad_no_pad(l[0], l[1], l[2], 3);
        assert(el[3] != '=');
        assert(es[3] == '=');
    }
}


/// A character of the standard base64 alphabet.
pub open spec fn b64_alphabet(c: char) -> bool {
    let v = c as u32;
    ||| 65 <= v <= 90
    ||| 97 <= v <= 122
    ||| 48 <= v <= 57
    ||| c == '+'
    ||| c == '/'
}

proof fn lemma_quad_alphabet(a0: u8, a1: u8, a2: u8, i: int)
    requires
        0 <= i < 4,
    ensures
        b64_alphabet(b64_quad(a0, a1, a2)[i]),
{
    lemma_sextets(a0, a1, a2);
}

/// Every character of an unpadded encoding is in the base64 alphabet.
pub proof fn lemma_b64_unpadded_alphabet(b: Seq<u8>)
    ensures
        forall|i: int|
            0 <= i < b64_encode(b, false).len() ==> b64_alphabet(#[trigger] b64_encode(b, false)[i]),
    decreases b.len(),
{
    let e = b64_encode(b, false);
    if b.len() >= 3 {
        lemma_b64_unpadded_alphabet(b.skip(3));
        assert forall|i: int| 0 <= i < e.len() implies b64_alphabet(#[trigger] e[i]) by {
            if i < 4 {
                lemma_quad_alphabet(b[0], b[1], b[2], i);
            } else {
                assert(e[i] == b64_encode(b.skip(3), false)[i - 4]);
            }
        }
    } else if b.len() == 1 {
        lemma_quad_alphabet(b[0], 0, 0, 0);
        lemma_quad_alphabet(b[0], 0, 0, 1);
    } else if b.len() == 2 {
        lemma_quad_alphabet(b[0], b[1], 0, 0);
        lemma_quad_alphabet(b[0], b[1], 0, 1);
        lemma_quad_alphabet(b[0], b[1], 0, 2);
    }
}

/// Whether `s` is the base64 encoding of some byte sequence.
pub open spec fn b64_decodable(s: Seq<char>, pad: bool) -> bool {
    exists|b: Seq<u8>| #[trigger] b64_encode(b, pad) == s
}

/// The bytes whose base64 encoding is `s` (meaningful when `s` is decodable).
pub open spec fn b64_decode(s: Seq<char>, pad: bool) -> Seq<u8> {
    choose|b: Seq<u8>| #[trigger] b64_encode(b, pad) == s
}

/// Law: decoding gives back exactly the bytes that were encoded.
pub proof fn lemma_b64_round_trip(b: Seq<u8>, pad: bool)
    ensures
        b64_decodable(b64_encode(b, pad), pad),
        b64_decode(b64_encode(b, pad), pad) == b,
{
    let s = b64_encode(b, pad);
    assert(b64_decodable(s, pad));
    let c = b64_decode(s, pad);
    lemma_b64_injective(c, b, pad);
}

/// The error type of base64 decoding, carried through opaquely.
#[verifier::external_type_specification]
#[verifier::external_body]
pub struct ExDecodeError(base64::DecodeError);

/// `Engine::encode` of the base64 crate with the `STANDARD` engine: the
/// RFC 4648 standard alphabet with `=` padding. It panics only when the length
/// of the text would overflow `usize`.
#[verifier::external_body]
fn b64_standard_encode(bytes: &[u8]) -> (res: String)
    requires
        b64_len(bytes@.len(), true) <= usize::MAX,
    ensures
        res@ == b64_encode(bytes@, true),
{
    base64::prelude::BASE64_STANDARD.encode(bytes)
}

/// `Engine::decode` of the base64 crate with the `STANDARD` engine. That
/// engine requires canonical padding and rejects nonzero trailing bits, so it
/// accepts exactly the texts that its encoder produces, and returns the bytes
/// they encode.
#[verifier::external_body]
fn b64_standard_decode(s: &str) -> (res: Result<Vec<u8>, base64::DecodeError>)
    ensures
        match res {
            Ok(b) => b64_encode(b@, true) == s@,
            Err(_) => !b64_decodable(s@, true),
        },
{
    base64::prelude::BASE64_STANDARD.decode(s)
}

/// `Engine::decode` of the base64 crate with the `STANDARD_NO_PAD` engine:
/// the standard alphabet, no padding allowed, nonzero trailing bits rejected,
/// so it accepts exactly the unpadded encodings and returns the bytes they
/// encode.
#[verifier::external_body]
fn b64_unpadded_decode(s: &str) -> (res: Result<Vec<u8>, base64::DecodeError>)
    ensures
        match res {
            Ok(b) => b64_encode(b@, false) == s@,
            Err(_) => !b64_decodable(s@, false),
        },
{
    base64::prelude::BASE64_STANDARD_NO_PAD.decode(s)
}

/// Decodes unpadded base64 into raw bytes, or `None` when it is not that.
pub fn try_decode_unpadded_base64(s: &str) -> (res: Option<Vec<u8>>)
    ensures
        res is Some <==> b64_decodable(s@, false),
        res matches Some(b) ==> b64_encode(b@, false) == s@,
{
    match b64_unpadded_decode(s) {
        Ok(b) => Some(b),
        Err(_) => None,
    }
}

/// Encodes raw bytes as a base64 string.
pub fn encode_base64(ba: Vec<u8>) -> (res: String)
    requires
        b64_len(ba@.len(), true) <= usize::MAX,
    ensures
        res@ == b64_encode(ba@, true),
{
    b64_standard_encode(ba.as_slice())
}

/// Decodes a base64 string into raw bytes, or `None` when it is not base64.
pub fn try_decode_base64(s: &String) -> (res: Option<Vec<u8>>)
    ensures
        res is Some <==> b64_decodable(s@, true),
        res matches Some(b) ==> b@ == b64_decode(s@, true),
{
    match b64_standard_decode(s.as_str()) {
        Ok(b) => {
            proof {
                lemma_b64_round_trip(b@, true);
            }
            Some(b)
        },
        Err(_) => None,
    }
}

/// Decodes a base64 string back into raw bytes.
pub fn decode_base64(s: &String) -> (res: Vec<u8>)
    requires
        b64_decodable(s@, true),
    ensures
        res@ == b64_decode(s@, true),
        b64_encode(res@, true) == s@,
{
    match try_decode_base64(s) {
        Some(b) => {
            proof {
                lemma_b64_round_trip(b@, true);
            }
            b
        },
        None => Vec::new(),
    }
}

/// `String::from_utf8` of std: the string when the bytes are valid UTF-8.
#[verifier::external_body]
pub(crate) fn string_from_utf8(bytes: Vec<u8>) -> (res: Option<String>)
    ensures
        match res {
            Some(s) => valid_utf8(bytes@) && s@ == decode_utf8(bytes@),
            None => !valid_utf8(bytes@),
        },
{
    String::from_utf8(bytes).ok()
}

} // verus!
