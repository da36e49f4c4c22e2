//! Colours given as hexadecimal strings such as `"#ff8800"` or `"0xff8800"`.
use vstd::prelude::*;
use vstd::utf8::*;
use vstd::string::StrSliceExecFns;
use vstd::string::StringSliceAdditionalSpecFns;
use easy_hex::FromHexError;

verus! {

/// A colour by its red, green and blue parts.
#[derive(Debug, Clone, Copy, PartialEq, Eq)]
pub struct Rgb {
    pub r: u8,
    pub g: u8,
    pub b: u8,
}

impl Rgb {
    pub fn new(r: u8, g: u8, b: u8) -> (c: Self)
        ensures
            c.r == r,
            c.g == g,
            c.b == b,
    {
        Rgb { r, g, b }
    }
}

/// `b` is an ASCII hexadecimal digit, in either case.
pub open spec fn is_hex_digit(b: u8) -> bool {
    ||| 0x30 <= b <= 0x39
    ||| 0x41 <= b <= 0x46
    ||| 0x61 <= b <= 0x66
}

/// The value of the hexadecimal digit `b`.
pub open spec fn hex_value(b: u8) -> int {
    if 0x30 <= b <= 0x39 {
        b - 0x30
    } else if 0x41 <= b <= 0x46 {
        b - 0x41 + 10
    } else {
        b - 0x61 + 10
    }
}

/// `s` is an even number of hexadecimal digits.
pub open spec fn hex_decodable(s: Seq<u8>) -> bool {
    &&& s.len() % 2 == 0
    &&& forall|i: int| 0 <= i < s.len() ==> is_hex_digit(#[trigger] s[i])
}

/// The bytes that the digit pairs of `s` spell, high digit first.
pub open spec fn hex_decode(s: Seq<u8>) -> Seq<u8> {
    Seq::new(
        s.len() / 2,
        |i: int| (hex_value(s[2 * i]) * 16 + hex_value(s[2 * i + 1])) as u8,
    )
}

#[verifier::external_type_specification]
#[verifier::external_body]
pub struct ExFromHexError(FromHexError);

fn copy_bytes(a: &[u8]) -> (v: Vec<u8>)
    ensures
        v@ == a@,
{
    let mut v: Vec<u8> = Vec::new();
    let mut i: usize = 0;
    while i < a.len()
        invariant
            i <= a.len(),
            v@ == a@.subrange(0, i as int),
        decreases a.len() - i,
    {
        v.push(a[i]);
        i = i + 1;
    }
    v
}

/// `easy_hex::decode`: it fails unless the string's bytes are an even number
/// of hexadecimal digits (either case), and otherwise hands the decoded
/// bytes, high digit first, to the closure, here one that copies them.
#[verifier::external_body]
fn decode_hex(v: &str) -> (r: Result<Vec<u8>, FromHexError>)
    ensures
        r is Ok <==> hex_decodable(v.spec_bytes()),
        r matches Ok(bytes) ==> bytes@ == hex_decode(v.spec_bytes()),
{
    easy_hex::decode(v, copy_bytes)
}

/// The bytes of the hexadecimal part of `from`: everything from the byte
/// whose index is the number of characters less six.
pub open spec fn hex_tail(from: Seq<char>) -> Seq<u8> {
    encode_utf8(from).subrange(from.len() - 6, encode_utf8(from).len() as int)
}

/// `to_rgb` accepts `from`: it has at least six characters, the cut lands on
/// a character boundary and what follows it is hexadecimal.
pub open spec fn rgb_parsable(from: Seq<char>) -> bool {
    &&& from.len() >= 6
    &&& is_char_boundary(encode_utf8(from), from.len() - 6)
    &&& hex_decodable(hex_tail(from))
}

/// The colour `to_rgb` reads from `from`: the first three decoded bytes.
pub open spec fn rgb_of(from: Seq<char>) -> Rgb {
    let bytes = hex_decode(hex_tail(from));
    Rgb { r: bytes[0], g: bytes[1], b: bytes[2] }
}

/// The lower-case hexadecimal digit of `n`, for `n` below sixteen.
pub open spec fn hex_char(n: int) -> char {
    if n < 10 {
        (n + 48) as char
    } else {
        (n + 87) as char
    }
}

/// The six lower-case hexadecimal digits of a colour, high digit first.
pub open spec fn hex_colour(r: u8, g: u8, b: u8) -> Seq<char> {
    seq![
        hex_char(r as int / 16),
        hex_char(r as int % 16),
        hex_char(g as int / 16),
        hex_char(g as int % 16),
        hex_char(b as int / 16),
        hex_char(b as int % 16),
    ]
}

proof fn lemma_hex_char(n: int)
    requires
        0 <= n < 16,
    ensures
        (hex_char(n) as u8) as int == (if n < 10 { n + 48 } else { n + 87 }),
        is_hex_digit(hex_char(n) as u8),
        hex_value(hex_char(n) as u8) == n,
        '\0' <= hex_char(n) <= '\u{7f}',
{
}

/// Law: a colour written in ASCII that ends in the six hexadecimal digits of
/// `r`, `g` and `b` (as in `"#ff00ff"` or `"0xff00ff"`) is read back as that
/// colour.
pub proof fn lemma_rgb_round_trip(prefix: Seq<char>, r: u8, g: u8, b: u8)
    requires
        is_ascii_chars(prefix),
    ensures
        rgb_parsable(prefix + hex_colour(r, g, b)),
        rgb_of(prefix + hex_colour(r, g, b)) == (Rgb { r, g, b }),
{
    let h = hex_colour(r, g, b);
    let s = prefix + h;
    lemma_hex_char(r as int / 16);
    lemma_hex_char(r as int % 16);
    lemma_hex_char(g as int / 16);
    lemma_hex_char(g as int % 16);
    lemma_hex_char(b as int / 16);
    lemma_hex_char(b as int % 16);
    assert(is_ascii_chars(h));
    is_ascii_chars_concat(s, prefix, h);
    is_ascii_chars_encode_utf8(s);
    encode_utf8_valid_utf8(s);
    let enc = encode_utf8(s);
    let n = s.len() as int;
    assert(forall|j: int| 0 <= j < 6 ==> s[n - 6 + j] == h[j]);
    is_char_boundary_iff_not_is_continuation_byte(enc, n - 6);
    assert(enc[n - 6] == s[n - 6] as u8);
    let t = hex_tail(s);
    assert(t.len() == 6);
    assert forall|j: int| 0 <= j < 6 implies t[j] == h[j] as u8 by {
        assert(t[j] == enc[n - 6 + j]);
        assert(enc[n - 6 + j] == s[n - 6 + j] as u8);
    }
    assert(hex_decodable(t));
    let bytes = hex_decode(t);
    assert(bytes[0] == r);
    assert(bytes[1] == g);
    assert(bytes[2] == b);
}

proof fn lemma_encode_utf8_len(chars: Seq<char>)
    ensures
        encode_utf8(chars).len() >= chars.len(),
    decreases chars.len(),
{
    if chars.len() > 0 {
        lemma_encode_utf8_len(chars.drop_first());
    }
}

/// Whether `to_rgb` accepts `from`.
pub fn rgb_parsable_exec(from: &str) -> (b: bool)
    ensures
        b == rgb_parsable(from@),
{
    let count = from.unicode_len();
    if count < 6 {
        return false;
    }
    proof {
        lemma_encode_utf8_len(from@);
    }
    if !from.is_char_boundary(count - 6) {
        return false;
    }
    let (_, tail) = from.split_at(count - 6);
    assert(tail.spec_bytes() == hex_tail(from@));
    let bytes = tail.as_bytes_vec();
    if bytes.len() % 2 != 0 {
        return false;
    }
    let mut i: usize = 0;
    while i < bytes.len()
        invariant
            i <= bytes@.len(),
            bytes@ == hex_tail(from@),
            forall|j: int| 0 <= j < i ==> is_hex_digit(#[trigger] bytes@[j]),
        decreases bytes@.len() - i,
    {
        let c = bytes[i];
        if !((0x30 <= c && c <= 0x39) || (0x41 <= c && c <= 0x46) || (0x61 <= c && c <= 0x66)) {
            assert(!is_hex_digit(bytes@[i as int]));
            return false;
        }
        i = i + 1;
    }
    true
}

/// Reads a colour from the last six hexadecimal digits of `from`, as in
/// `"0xff00ff"` or `"#ff00ff"`.
pub fn to_rgb(from: &str) -> (c: Rgb)
    requires
        rgb_parsable(from@),
    ensures
        c == rgb_of(from@),
{
    let count = from.unicode_len();
    proof {
        lemma_encode_utf8_len(from@);
    }
    let (_, slice) = from.split_at(count - 6);
    assert(slice.spec_bytes() == hex_tail(from@));
    match decode_hex(slice) {
        Ok(bytes) => {
            let r = bytes[0];
            let g = bytes[1];
            let b = bytes[2];
            Rgb { r, g, b }
        },
        Err(_) => {
            proof {
                assert(false);
            }
            Rgb { r: 0, g: 0, b: 0 }
        },
    }
}

} // verus!
