//! Base64 (standard alphabet, padded) as the wire protocol uses it.
//!
//! The encoding is pinned down by the spec function [`b64_encode`]; the
//! executable encoder and decoder call into the `base64` crate through trusted
//! wrappers whose contracts state exactly that correspondence. Injectivity of
//! the encoding, proved here, makes the decoder's result unique — the heart of
//! the round-trip law of the frame codec.

use vstd::prelude::*;

verus! {

/// ASCII code of the padding character `=`.
pub const PAD: u8 = 61;

/// The standard alphabet: the ASCII code of the digit for a six-bit value.
pub open spec fn b64_char(v: u8) -> u8 {
    if v < 26 {
        (65 + v) as u8  // 'A'..='Z'
    } else if v < 52 {
        (71 + v) as u8  // 'a'..='z'
    } else if v < 62 {
        (v - 4) as u8  // '0'..='9'
    } else if v == 62 {
        43  // '+'
    } else {
        47  // '/'
    }
}

/// Four digits for three bytes.
pub open spec fn b64_group3(b0: u8, b1: u8, b2: u8) -> Seq<u8> {
    seq![
        b64_char(b0 >> 2),
        b64_char((b0 & 3) << 4 | (b1 >> 4)),
        b64_char((b1 & 15) << 2 | (b2 >> 6)),
        b64_char(b2 & 63),
    ]
}

/// The final group when one byte remains: two digits and two pads.
pub open spec fn b64_tail1(b0: u8) -> Seq<u8> {
    seq![b64_char(b0 >> 2), b64_char((b0 & 3) << 4), PAD, PAD]
}

/// The final group when two bytes remain: three digits and one pad.
pub open spec fn b64_tail2(b0: u8, b1: u8) -> Seq<u8> {
    seq![b64_char(b0 >> 2), b64_char((b0 & 3) << 4 | (b1 >> 4)), b64_char((b1 & 15) << 2), PAD]
}

/// The canonical padded base64 encoding of a byte sequence, per the standard
/// alphabet: groups of three bytes become four digits; a final partial group
/// is padded with `=`.
pub open spec fn b64_encode(s: Seq<u8>) -> Seq<u8>
    decreases s.len(),
{
    if s.len() == 0 {
        seq![]
    } else if s.len() == 1 {
        b64_tail1(s[0])
    } else if s.len() == 2 {
        b64_tail2(s[0], s[1])
    } else {
        b64_group3(s[0], s[1], s[2]) + b64_encode(s.skip(3))
    }
}

/// Relies on `base64::engine::general_purpose::STANDARD` via
/// `base64::Engine::encode`: the canonical padded RFC 4648 encoding with the
/// standard alphabet, which is exactly [`b64_encode`].
#[verifier::external_body]
pub fn b64_encode_bytes(b: &Vec<u8>) -> (r: Vec<u8>)
    ensures
        r@ == b64_encode(b@),
{
    base64::Engine::encode(&base64::engine::general_purpose::STANDARD, b).into_bytes()
}

/// Relies on `base64::engine::general_purpose::STANDARD` via
/// `base64::Engine::decode`: it succeeds exactly on canonical padded
/// encodings (its config requires canonical padding and rejects set trailing
/// bits), and then returns the bytes whose encoding the input is.
#[verifier::external_body]
pub fn b64_decode_bytes(s: &Vec<u8>) -> (r: Option<Vec<u8>>)
    ensures
        r matches Some(d) ==> s@ == b64_encode(d@),
        r is None ==> forall|d: Seq<u8>| s@ != b64_encode(d),
{
    match base64::Engine::decode(&base64::engine::general_purpose::STANDARD, s) {
        Ok(d) => Some(d),
        Err(_) => None,
    }
}

/// No digit of the alphabet is the padding character.
proof fn lemma_b64_char_ne_pad(v: u8)
    ensures
        b64_char(v) != PAD,
{
}

/// The alphabet maps distinct six-bit values to distinct digits.
proof fn lemma_b64_char_injective(x: u8, y: u8)
    requires
        x < 64,
        y < 64,
        b64_char(x) == b64_char(y),
    ensures
        x == y,
{
}

/// The six-bit values fed to the alphabet are below 64.
proof fn lemma_six_bits(b0: u8, b1: u8, b2: u8)
    ensures
        b0 >> 2 < 64,
        (b0 & 3) << 4 | (b1 >> 4) < 64,
        (b1 & 15) << 2 | (b2 >> 6) < 64,
        b2 & 63 < 64,
        (b0 & 3) << 4 < 64,
        (b1 & 15) << 2 < 64,
{
    assert(b0 >> 2 < 64 && ((b0 & 3) << 4 | (b1 >> 4)) < 64 && ((b1 & 15) << 2 | (b2 >> 6)) < 64
        && (b2 & 63) < 64 && ((b0 & 3) << 4) < 64 && ((b1 & 15) << 2) < 64) by (bit_vector);
}

/// The length of the encoding: four digits for every started group of three.
pub proof fn lemma_b64_encode_len(s: Seq<u8>)
    ensures
        b64_encode(s).len() == 4 * ((s.len() + 2) / 3),
    decreases s.len(),
{
    if s.len() >= 3 {
        lemma_b64_encode_len(s.skip(3));
    }
}

/// Two bytes are equal when their first two six-bit digits agree.
proof fn lemma_recover1(a0: u8, b0: u8)
    requires
        a0 >> 2 == b0 >> 2,
        (a0 & 3) << 4 == (b0 & 3) << 4,
    ensures
        a0 == b0,
{
    assert(a0 >> 2 == b0 >> 2 && (a0 & 3) << 4 == (b0 & 3) << 4 ==> a0 == b0) by (bit_vector);
}

/// Two byte pairs are equal when their three six-bit digits agree.
proof fn lemma_recover2(a0: u8, a1: u8, b0: u8, b1: u8)
    requires
        a0 >> 2 == b0 >> 2,
        (a0 & 3) << 4 | (a1 >> 4) == (b0 & 3) << 4 | (b1 >> 4),
        (a1 & 15) << 2 == (b1 & 15) << 2,
    ensures
        a0 == b0,
        a1 == b1,
{
    assert((a0 >> 2 == b0 >> 2 && ((a0 & 3) << 4 | (a1 >> 4)) == ((b0 & 3) << 4 | (b1 >> 4))
        && (a1 & 15) << 2 == (b1 & 15) << 2) ==> a0 == b0 && a1 == b1) by (bit_vector);
}

/// Two byte triples are equal when their four six-bit digits agree.
proof fn lemma_recover3(a0: u8, a1: u8, a2: u8, b0: u8, b1: u8, b2: u8)
    requires
        a0 >> 2 == b0 >> 2,
        (a0 & 3) << 4 | (a1 >> 4) == (b0 & 3) << 4 | (b1 >> 4),
        (a1 & 15) << 2 | (a2 >> 6) == (b1 & 15) << 2 | (b2 >> 6),
        a2 & 63 == b2 & 63,
    ensures
        a0 == b0,
        a1 == b1,
        a2 == b2,
{
    assert((a0 >> 2 == b0 >> 2 && ((a0 & 3) << 4 | (a1 >> 4)) == ((b0 & 3) << 4 | (b1 >> 4))
        && ((a1 & 15) << 2 | (a2 >> 6)) == ((b1 & 15) << 2 | (b2 >> 6)) && a2 & 63 == b2 & 63)
        ==> a0 == b0 && a1 == b1 && a2 == b2) by (bit_vector);
}

/// The digit at offset 3 of the encoding tells a full first group (a digit)
/// from a padded tail (`=`); offset 2 tells one remaining byte from two.
proof fn lemma_b64_tail_shape(s: Seq<u8>)
    requires
        s.len() > 0,
    ensures
        s.len() == 1 ==> b64_encode(s)[2] == PAD && b64_encode(s)[3] == PAD,
        s.len() == 2 ==> b64_encode(s)[2] != PAD && b64_encode(s)[3] == PAD,
        s.len() >= 3 ==> b64_encode(s)[3] != PAD,
{
    if s.len() == 2 {
        lemma_six_bits(s[0], s[1], 0);
        lemma_b64_char_ne_pad((s[1] & 15) << 2);
    } else if s.len() >= 3 {
        lemma_six_bits(s[0], s[1], s[2]);
        lemma_b64_char_ne_pad(s[2] & 63);
        assert(b64_encode(s)[3] == b64_group3(s[0], s[1], s[2])[3]);
    }
}

/// The encoding is injective: equal encodings come from equal byte sequences.
pub proof fn lemma_b64_encode_injective(a: Seq<u8>, b: Seq<u8>)
    requires
        b64_encode(a) == b64_encode(b),
    ensures
        a == b,
    decreases a.len(),
{
    lemma_b64_encode_len(a);
    lemma_b64_encode_len(b);
    if a.len() == 0 {
        assert(b.len() == 0);
        assert(a =~= b);
    } else if b.len() == 0 {
        assert(a.len() == 0);
        assert(a =~= b);
    } else {
        lemma_b64_tail_shape(a);
        lemma_b64_tail_shape(b);
        lemma_six_bits(a[0], if a.len() >= 2 { a[1] } else { 0 }, if a.len() >= 3 { a[2] } else { 0 });
        lemma_six_bits(b[0], if b.len() >= 2 { b[1] } else { 0 }, if b.len() >= 3 { b[2] } else { 0 });
        if a.len() == 1 {
            // b64_encode(b)[3] == PAD and [2] == PAD force b.len() == 1.
            assert(b.len() == 1);
            lemma_b64_char_injective(a[0] >> 2, b[0] >> 2);
            lemma_b64_char_injective((a[0] & 3) << 4, (b[0] & 3) << 4);
            lemma_recover1(a[0], b[0]);
            assert(a =~= b);
        } else if a.len() == 2 {
            assert(b.len() == 2);
            lemma_b64_char_injective(a[0] >> 2, b[0] >> 2);
            lemma_b64_char_injective((a[0] & 3) << 4 | (a[1] >> 4), (b[0] & 3) << 4 | (b[1] >> 4));
            lemma_b64_char_injective((a[1] & 15) << 2, (b[1] & 15) << 2);
            lemma_recover2(a[0], a[1], b[0], b[1]);
            assert(a =~= b);
        } else {
            assert(b.len() >= 3);
            let ga = b64_group3(a[0], a[1], a[2]);
            let gb = b64_group3(b[0], b[1], b[2]);
            assert(forall|i: int| 0 <= i < 4 ==> b64_encode(a)[i] == ga[i]);
            assert(forall|i: int| 0 <= i < 4 ==> b64_encode(b)[i] == gb[i]);
            lemma_b64_char_injective(a[0] >> 2, b[0] >> 2);
            lemma_b64_char_injective((a[0] & 3) << 4 | (a[1] >> 4), (b[0] & 3) << 4 | (b[1] >> 4));
            lemma_b64_char_injective((a[1] & 15) << 2 | (a[2] >> 6), (b[1] & 15) << 2 | (b[2] >> 6));
            lemma_b64_char_injective(a[2] & 63, b[2] & 63);
            lemma_recover3(a[0], a[1], a[2], b[0], b[1], b[2]);
            assert(b64_encode(a.skip(3)) =~= b64_encode(b.skip(3))) by {
                assert(forall|i: int| 0 <= i < b64_encode(a.skip(3)).len()
                    ==> b64_encode(a.skip(3))[i] == b64_encode(a)[i + 4]
                        && b64_encode(b.skip(3))[i] == b64_encode(b)[i + 4]);
            }
            lemma_b64_encode_injective(a.skip(3), b.skip(3));
            assert(a.len() == b.len());
            assert forall|i: int| 3 <= i < a.len() implies #[trigger] a[i] == b[i] by {
                assert(a[i] == a.skip(3)[i - 3]);
                assert(b[i] == b.skip(3)[i - 3]);
            }
            assert(a =~= b);
        }
    }
}

/// The alphabet never emits a quote or a backslash, so base64 output can
/// stand unescaped inside a JSON string.
proof fn lemma_b64_char_range(v: u8)
    ensures
        b64_char(v) != 34,
        b64_char(v) != 92,
{
}

/// No byte of an encoding is a quote or a backslash.
pub proof fn lemma_b64_chars(s: Seq<u8>)
    ensures
        forall|i: int| 0 <= i < b64_encode(s).len()
            ==> #[trigger] b64_encode(s)[i] != 34 && b64_encode(s)[i] != 92,
    decreases s.len(),
{
    if s.len() == 0 {
    } else if s.len() == 1 {
        lemma_b64_char_range(s[0] >> 2);
        lemma_b64_char_range((s[0] & 3) << 4);
    } else if s.len() == 2 {
        lemma_b64_char_range(s[0] >> 2);
        lemma_b64_char_range((s[0] & 3) << 4 | (s[1] >> 4));
        lemma_b64_char_range((s[1] & 15) << 2);
    } else {
        lemma_b64_char_range(s[0] >> 2);
        lemma_b64_char_range((s[0] & 3) << 4 | (s[1] >> 4));
        lemma_b64_char_range((s[1] & 15) << 2 | (s[2] >> 6));
        lemma_b64_char_range(s[2] & 63);
        lemma_b64_chars(s.skip(3));
        assert forall|i: int| 0 <= i < b64_encode(s).len()
            implies #[trigger] b64_encode(s)[i] != 34 && b64_encode(s)[i] != 92 by {
            if i < 4 {
                assert(b64_encode(s)[i] == b64_group3(s[0], s[1], s[2])[i]);
            } else {
                assert(b64_encode(s)[i] == b64_encode(s.skip(3))[i - 4]);
            }
        }
    }
}

/// Decoding as a mathematical function: the unique preimage under
/// [`b64_encode`] when one exists.
pub open spec fn b64_decode_spec(s: Seq<u8>) -> Option<Seq<u8>> {
    if exists|d: Seq<u8>| s == b64_encode(d) {
        Some(choose|d: Seq<u8>| s == b64_encode(d))
    } else {
        None
    }
}

/// Round trip at the byte level: decoding an encoding gives the bytes back.
pub proof fn lemma_b64_round_trip(x: Seq<u8>)
    ensures
        b64_decode_spec(b64_encode(x)) == Some(x),
{
    let s = b64_encode(x);
    assert(exists|d: Seq<u8>| s == b64_encode(d));
    let d = choose|d: Seq<u8>| s == b64_encode(d);
    lemma_b64_encode_injective(d, x);
}

/// What the trusted decoder returns is the mathematical decode: `Some`
/// exactly on encodings, and then the unique preimage.
pub fn b64_decode_checked(s: &Vec<u8>) -> (r: Option<Vec<u8>>)
    ensures
        (match r {
            Some(d) => Some(d@),
            None => None,
        }) == b64_decode_spec(s@),
{
    let r = b64_decode_bytes(s);
    proof {
        match &r {
            Some(d) => {
                assert(exists|x: Seq<u8>| s@ == b64_encode(x));
                let x = choose|x: Seq<u8>| s@ == b64_encode(x);
                lemma_b64_encode_injective(x, d@);
            },
            None => {},
        }
    }
    r
}

} // verus!
