//! The credentials that a pusher shows and a puller types in: the pusher's
//! address `ip:port`, encoded in standard Base64.
use vstd::prelude::*;
use vstd::utf8::{decode_utf8, encode_utf8, valid_utf8};

use base64::engine::general_purpose;

use crate::text::{append_bytes, lemma_encode_utf8_concat, string_from_utf8};
use base64::Engine;

verus! {

broadcast use vstd::utf8::group_utf8_lib;

/// The character of a 6-bit value in the standard Base64 alphabet
/// (`A`-`Z`, `a`-`z`, `0`-`9`, `+`, `/`).
pub open spec fn base64_char(v: int) -> char {
    if v < 26 {
        (65 + v) as char
    } else if v < 52 {
        (97 + (v - 26)) as char
    } else if v < 62 {
        (48 + (v - 52)) as char
    } else if v == 62 {
        '+'
    } else {
        '/'
    }
}

/// Standard padded Base64 (RFC 4648, section 4): each group of three bytes
/// becomes four characters of six bits each, high bits first; a last group
/// of one or two bytes is filled with zero bits and padded with `=` to four
/// characters.
pub open spec fn spec_base64_encode(bytes: Seq<u8>) -> Seq<char>
    decreases bytes.len(),
{
    if bytes.len() == 0 {
        Seq::empty()
    } else if bytes.len() == 1 {
        let b0 = bytes[0] as int;
        seq![base64_char(b0 / 4), base64_char((b0 % 4) * 16), '=', '=']
    } else if bytes.len() == 2 {
        let b0 = bytes[0] as int;
        let b1 = bytes[1] as int;
        seq![
            base64_char(b0 / 4),
            base64_char((b0 % 4) * 16 + b1 / 16),
            base64_char((b1 % 16) * 4),
            '=',
        ]
    } else {
        let b0 = bytes[0] as int;
        let b1 = bytes[1] as int;
        let b2 = bytes[2] as int;
        seq![
            base64_char(b0 / 4),
            base64_char((b0 % 4) * 16 + b1 / 16),
            base64_char((b1 % 16) * 4 + b2 / 64),
            base64_char(b2 % 64),
        ] + spec_base64_encode(bytes.skip(3))
    }
}

/// The bytes whose standard padded Base64 is `text`, or `None` where `text`
/// is no such encoding. No two byte sequences have the same encoding
/// (`lemma_base64_injective`), so the bytes are unique.
pub open spec fn spec_base64_decode(text: Seq<char>) -> Option<Seq<u8>> {
    if exists|b: Seq<u8>| #[trigger] spec_base64_encode(b) == text {
        Some(choose|b: Seq<u8>| #[trigger] spec_base64_encode(b) == text)
    } else {
        None
    }
}

/// The Base64 characters of distinct 6-bit values differ, and none is the
/// padding character `=`.
proof fn lemma_base64_char(v: int, w: int)
    requires
        0 <= v < 64,
        0 <= w < 64,
    ensures
        base64_char(v) == base64_char(w) ==> v == w,
        base64_char(v) != '=',
{
}

/// The first character of a non-empty encoding, and the third and fourth
/// where at least two and three bytes are encoded, are not padding.
proof fn lemma_base64_shape(b: Seq<u8>)
    ensures
        b.len() == 0 <==> spec_base64_encode(b).len() == 0,
        b.len() > 0 ==> spec_base64_encode(b).len() >= 4,
        b.len() >= 2 ==> spec_base64_encode(b)[2] != '=',
        b.len() >= 3 ==> spec_base64_encode(b)[3] != '=',
        b.len() == 1 ==> spec_base64_encode(b)[2] == '=',
        b.len() == 2 ==> spec_base64_encode(b)[3] == '=',
{
    if b.len() >= 3 {
        lemma_base64_char((b[1] as int % 16) * 4 + b[2] as int / 64, 0);
        lemma_base64_char(b[2] as int % 64, 0);
    } else if b.len() == 2 {
        lemma_base64_char((b[1] as int % 16) * 4, 0);
    }
}

/// No two byte sequences have the same standard Base64 encoding.
pub proof fn lemma_base64_injective(b1: Seq<u8>, b2: Seq<u8>)
    requires
        spec_base64_encode(b1) == spec_base64_encode(b2),
    ensures
        b1 == b2,
    decreases b1.len(),
{
    let e = spec_base64_encode(b1);
    lemma_base64_shape(b1);
    lemma_base64_shape(b2);
    if b1.len() == 0 {
        assert(b2.len() == 0);
        assert(b1 =~= b2);
    } else {
        assert(b1.len() == 1 <==> b2.len() == 1);
        assert(b1.len() == 2 <==> b2.len() == 2);
        let x0 = b1[0] as int;
        let y0 = b2[0] as int;
        lemma_base64_char(x0 / 4, y0 / 4);
        if b1.len() == 1 {
            lemma_base64_char((x0 % 4) * 16, (y0 % 4) * 16);
            assert(b1 =~= b2);
        } else {
            let x1 = b1[1] as int;
            let y1 = b2[1] as int;
            lemma_base64_char((x0 % 4) * 16 + x1 / 16, (y0 % 4) * 16 + y1 / 16);
            if b1.len() == 2 {
                lemma_base64_char((x1 % 16) * 4, (y1 % 16) * 4);
                assert(b1 =~= b2);
            } else {
                let x2 = b1[2] as int;
                let y2 = b2[2] as int;
                lemma_base64_char((x1 % 16) * 4 + x2 / 64, (y1 % 16) * 4 + y2 / 64);
                lemma_base64_char(x2 % 64, y2 % 64);
                let e2 = spec_base64_encode(b2);
                assert(e[0] == base64_char(x0 / 4) && e2[0] == base64_char(y0 / 4));
                assert(e[1] == base64_char((x0 % 4) * 16 + x1 / 16) && e2[1] == base64_char(
                    (y0 % 4) * 16 + y1 / 16,
                ));
                assert(e[2] == base64_char((x1 % 16) * 4 + x2 / 64) && e2[2] == base64_char(
                    (y1 % 16) * 4 + y2 / 64,
                ));
                assert(e[3] == base64_char(x2 % 64) && e2[3] == base64_char(y2 % 64));
                assert(x0 == y0 && x1 == y1 && x2 == y2);
                assert(spec_base64_encode(b1.skip(3)) =~= e.skip(4));
                assert(spec_base64_encode(b2.skip(3)) =~= e.skip(4));
                lemma_base64_injective(b1.skip(3), b2.skip(3));
                assert(b1 =~= b1.take(3) + b1.skip(3));
                assert(b2 =~= b2.take(3) + b2.skip(3));
                assert(b1.take(3) =~= b2.take(3));
            }
        }
    }
}

/// Decoding the encoding of `b` gives `b` back.
pub proof fn lemma_base64_round_trip(b: Seq<u8>)
    ensures
        spec_base64_decode(spec_base64_encode(b)) == Some(b),
{
    let t = spec_base64_encode(b);
    assert(exists|c: Seq<u8>| #[trigger] spec_base64_encode(c) == t);
    let c = choose|c: Seq<u8>| #[trigger] spec_base64_encode(c) == t;
    lemma_base64_injective(c, b);
}

#[verifier::external_type_specification]
#[verifier::external_body]
pub struct ExDecodeError(base64::DecodeError);

/// `base64::engine::general_purpose::STANDARD.encode`: the padded standard
/// Base64 text of `bytes` (`spec_base64_encode`). The encoder panics where the length of its
/// output overflows a `usize`, which cannot happen below `isize::MAX` input
/// bytes; allocating an output of more than `isize::MAX` bytes fails too,
/// which only memory limits reach.
#[verifier::external_body]
fn base64_encode(bytes: &[u8]) -> (r: String)
    requires
        bytes@.len() <= isize::MAX,
    ensures
        r@ == spec_base64_encode(bytes@),
{
    general_purpose::STANDARD.encode(bytes)
}

/// `base64::engine::general_purpose::STANDARD.decode` on the bytes of
/// `text`: bytes whose padded standard Base64 (`spec_base64_encode`) is
/// `text`, or the engine's error where no bytes have that encoding. The
/// engine requires canonical padding and rejects trailing bits, so it
/// accepts exactly the texts that its encoder makes.
#[verifier::external_body]
fn base64_decode(text: &str) -> (r: Result<Vec<u8>, base64::DecodeError>)
    ensures
        match r {
            Ok(v) => spec_base64_encode(v@) == text@,
            Err(_) => forall|b: Seq<u8>| #[trigger] spec_base64_encode(b) != text@,
        },
{
    general_purpose::STANDARD.decode(text)
}

/// The text of an address: `ip:port`.
pub open spec fn addr_text(ip: Seq<char>, port: Seq<char>) -> Seq<char> {
    ip + seq![':'] + port
}

/// What `decode_addr` makes of a text: the UTF-8 text of its Base64
/// decoding, where both steps succeed.
pub open spec fn spec_decode_addr(encoded: Seq<char>) -> Option<Seq<char>> {
    match spec_base64_decode(encoded) {
        Some(bytes) => if valid_utf8(bytes) {
            Some(decode_utf8(bytes))
        } else {
            None
        },
        None => None,
    }
}

/// The credentials of the address `ip:port`: its UTF-8 bytes in standard
/// Base64. Decoding them gives the address back.
pub fn encode_addr(ip: &str, port: &str) -> (r: String)
    requires
        encode_utf8(ip@).len() + encode_utf8(port@).len() < isize::MAX,
    ensures
        r@ == spec_base64_encode(encode_utf8(addr_text(ip@, port@))),
        spec_decode_addr(r@) == Some(addr_text(ip@, port@)),
{
    let mut bytes: Vec<u8> = Vec::new();
    append_bytes(&mut bytes, ip.as_bytes());
    bytes.push(58u8);
    append_bytes(&mut bytes, port.as_bytes());
    proof {
        let colon = seq![':'];
        assert(encode_utf8(colon.drop_first()) == Seq::<u8>::empty());
        assert(encode_utf8(colon) =~= seq![58u8]) by {
            assert((':' as u32) == 58u32);
            assert((58u32 & 0x7F) as u8 == 58u8) by (bit_vector);
        }
        lemma_encode_utf8_concat(ip@, colon);
        lemma_encode_utf8_concat(ip@ + colon, port@);
        assert(bytes@ =~= encode_utf8(addr_text(ip@, port@)));
        lemma_base64_round_trip(bytes@);
    }
    base64_encode(bytes.as_slice())
}

/// The credentials of an address given as one text: its UTF-8 bytes in
/// standard Base64. Decoding them gives the text back.
pub fn encode_addr_text(addr: &str) -> (r: String)
    requires
        encode_utf8(addr@).len() <= isize::MAX,
    ensures
        r@ == spec_base64_encode(encode_utf8(addr@)),
        spec_decode_addr(r@) == Some(addr@),
{
    proof {
        lemma_base64_round_trip(encode_utf8(addr@));
    }
    base64_encode(addr.as_bytes())
}

/// The address that the credentials `encoded` hold.
pub fn decode_addr(encoded: &str) -> (r: String)
    requires
        spec_decode_addr(encoded@) is Some,
    ensures
        Some(r@) == spec_decode_addr(encoded@),
{
    match base64_decode(encoded) {
        Ok(bytes) => {
            proof {
                lemma_base64_round_trip(bytes@);
            }
            match string_from_utf8(bytes) {
            Some(s) => s,
                None => {
                    assert(false);
                    String::new()
                },
            }
        },
        Err(_) => {
            assert(false);
            String::new()
        },
    }
}

/// The address that the credentials `encoded` hold, or `None` where they
/// are not Base64 or do not decode to UTF-8 text.
pub fn try_decode_addr(encoded: &str) -> (r: Option<String>)
    ensures
        r is Some <==> spec_decode_addr(encoded@) is Some,
        r matches Some(s) ==> Some(s@) == spec_decode_addr(encoded@),
{
    match base64_decode(encoded) {
        Ok(bytes) => {
            proof {
                lemma_base64_round_trip(bytes@);
            }
            if string_from_utf8(bytes).is_some() {
                Some(decode_addr(encoded))
            } else {
                None
            }
        },
        Err(_) => None,
    }
}

} // verus!
