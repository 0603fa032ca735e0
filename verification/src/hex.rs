//! Hexadecimal notation of info hashes.
use vstd::prelude::*;
use vstd::string::StringSliceAdditionalSpecFns;
use crate::text;

verus! {

/// Why a text is not the hexadecimal notation of a 20-byte hash.
#[derive(Clone, Copy, Debug, PartialEq, Eq, Structural)]
pub enum HexError {
    /// The text is not 40 bytes long; its length is given.
    Length(usize),
    /// This byte is not a hexadecimal digit.
    Digit(u8),
}

/// The value of a hexadecimal digit, in either case.
pub open spec fn digit_value(b: u8) -> Option<u8> {
    if 0x30 <= b <= 0x39 {
        Some((b - 0x30) as u8)
    } else if 0x61 <= b <= 0x66 {
        Some((b - 0x61 + 10) as u8)
    } else if 0x41 <= b <= 0x46 {
        Some((b - 0x41 + 10) as u8)
    } else {
        None
    }
}

/// The lower-case digit with the given value.
pub open spec fn digit_char(v: int) -> char {
    if v < 10 {
        (0x30 + v) as char
    } else {
        (0x61 + v - 10) as char
    }
}

/// Two lower-case digits for each byte, the high half first.
pub open spec fn encoded(bytes: Seq<u8>) -> Seq<char> {
    Seq::new(
        2 * bytes.len(),
        |i: int|
            digit_char(
                if i % 2 == 0 {
                    bytes[i / 2] as int / 16
                } else {
                    bytes[i / 2] as int % 16
                },
            ),
    )
}

/// Every byte is a hexadecimal digit.
pub open spec fn all_digits(t: Seq<u8>) -> bool {
    forall|i: int| 0 <= i < t.len() ==> digit_value(#[trigger] t[i]) is Some
}

/// The bytes that pairs of digits stand for.
pub open spec fn decoded(t: Seq<u8>) -> Seq<u8> {
    Seq::new(
        t.len() / 2,
        |i: int| (16 * digit_value(t[2 * i])->0 + digit_value(t[2 * i + 1])->0) as u8,
    )
}

/// What decoding the bytes of a text gives: the hash, or what is wrong first.
pub open spec fn decode_result(t: Seq<u8>) -> Result<Seq<u8>, HexError> {
    if t.len() != 40 {
        Err(HexError::Length(t.len() as usize))
    } else if all_digits(t) {
        Ok(decoded(t))
    } else {
        Err(HexError::Digit(t[first_non_digit(t)]))
    }
}

/// The position of the first byte that is no digit.
pub open spec fn first_non_digit(t: Seq<u8>) -> int {
    choose|i: int|
        0 <= i < t.len() && digit_value(#[trigger] t[i]) is None && all_digits(t.take(i))
}

/// Exactly 40 lower-case hexadecimal characters.
pub open spec fn is_infohash(s: Seq<char>) -> bool {
    s.len() == 40 && forall|i: int|
        0 <= i < 40 ==> is_lower_hex(#[trigger] s[i])
}

/// A lower-case hexadecimal character.
pub open spec fn is_lower_hex(c: char) -> bool {
    '0' <= c <= '9' || 'a' <= c <= 'f'
}

/// The value of a hexadecimal digit, in either case.
pub fn hex_val(b: u8) -> (r: Result<u8, HexError>)
    ensures
        match digit_value(b) {
            Some(v) => r == Ok::<u8, HexError>(v),
            None => r == Err::<u8, HexError>(HexError::Digit(b)),
        },
        r matches Ok(v) ==> v < 16,
{
    if 0x30 <= b && b <= 0x39 {
        Ok(b - 0x30)
    } else if 0x61 <= b && b <= 0x66 {
        Ok(b - 0x61 + 10)
    } else if 0x41 <= b && b <= 0x46 {
        Ok(b - 0x41 + 10)
    } else {
        Err(HexError::Digit(b))
    }
}

fn hex_digit(v: u8) -> (r: char)
    requires
        v < 16,
    ensures
        r == digit_char(v as int),
{
    if v < 10 {
        (0x30 + v) as char
    } else {
        (0x61 + (v - 10)) as char
    }
}

/// Writes bytes as lower-case hexadecimal.
pub fn hex_encode(bytes: &[u8]) -> (r: String)
    ensures
        r@ == encoded(bytes@),
{
    let mut out = String::new();
    let mut i: usize = 0;
    while i < bytes.len()
        invariant
            i <= bytes@.len(),
            out@.len() == 2 * i,
            forall|j: int| 0 <= j < 2 * i ==> #[trigger] out@[j] == encoded(bytes@)[j],
        decreases bytes@.len() - i,
    {
        let b = bytes[i];
        out.push(hex_digit(b / 16));
        out.push(hex_digit(b % 16));
        i += 1;
    }
    out
}

/// Reads a 20-byte hash from 40 hexadecimal digits.
pub fn hex_decode(s: &str) -> (r: Result<[u8; 20], HexError>)
    ensures
        match r {
            Ok(h) => decode_result(s.spec_bytes()) == Ok::<Seq<u8>, HexError>(h@),
            Err(e) => decode_result(s.spec_bytes()) == Err::<Seq<u8>, HexError>(e),
        },
{
    let t = s.as_bytes();
    if t.len() != 40 {
        return Err(HexError::Length(t.len()));
    }
    let mut out: [u8; 20] = [0u8; 20];
    let mut i: usize = 0;
    while i < 20
        invariant
            i <= 20,
            t@.len() == 40,
            t@ == s.spec_bytes(),
            forall|j: int| 0 <= j < 2 * i ==> digit_value(#[trigger] t@[j]) is Some,
            forall|j: int| 0 <= j < i ==> #[trigger] out@[j] == decoded(t@)[j],
        decreases 20 - i,
    {
        let hi = match hex_val(t[2 * i]) {
            Ok(v) => v,
            Err(e) => {
                proof {
                    lemma_first_non_digit(t@, 2 * i as int);
                }
                return Err(e);
            },
        };
        let lo = match hex_val(t[2 * i + 1]) {
            Ok(v) => v,
            Err(e) => {
                proof {
                    lemma_first_non_digit(t@, 2 * i as int + 1);
                }
                return Err(e);
            },
        };
        out[i] = hi * 16 + lo;
        i += 1;
    }
    assert(out@ =~= decoded(t@));
    Ok(out)
}

/// Whether `s` is exactly 40 lower-case hexadecimal characters, the form of a v1 info hash.
pub fn is_valid_infohash_v1(s: &str) -> (r: bool)
    ensures
        r == is_infohash(s@),
{
    let chars = text::chars_of(s);
    if chars.len() != 40 {
        return false;
    }
    let mut i: usize = 0;
    while i < 40
        invariant
            i <= 40,
            chars@ == s@,
            chars@.len() == 40,
            forall|j: int| 0 <= j < i ==> is_lower_hex(#[trigger] s@[j]),
        decreases 40 - i,
    {
        let c = chars[i];
        if !(('0' <= c && c <= '9') || ('a' <= c && c <= 'f')) {
            return false;
        }
        i += 1;
    }
    true
}

proof fn lemma_first_non_digit(t: Seq<u8>, i: int)
    requires
        0 <= i < t.len(),
        digit_value(t[i]) is None,
        forall|j: int| 0 <= j < i ==> digit_value(#[trigger] t[j]) is Some,
    ensures
        first_non_digit(t) == i,
        !all_digits(t),
{
    let k = first_non_digit(t);
    if i < k {
        assert(t.take(k)[i] == t[i]);
    }
}

/// The bytes of an encoding are its characters, one byte each.
proof fn lemma_encoded_bytes(bytes: Seq<u8>)
    ensures
        vstd::utf8::encode_utf8(encoded(bytes)).len() == 2 * bytes.len(),
        forall|i: int|
            0 <= i < 2 * bytes.len() ==> #[trigger] vstd::utf8::encode_utf8(encoded(bytes))[i]
                == encoded(bytes)[i] as u8,
{
    let e = encoded(bytes);
    vstd::utf8::is_ascii_chars_encode_utf8(e);
}

/// Decoding undoes encoding: a 20-byte hash written in hexadecimal reads back as itself.
pub proof fn decode_undoes_encode(hash: Seq<u8>)
    requires
        hash.len() == 20,
    ensures
        decode_result(vstd::utf8::encode_utf8(encoded(hash))) == Ok::<Seq<u8>, HexError>(hash),
{
    lemma_encoded_bytes(hash);
    let t = vstd::utf8::encode_utf8(encoded(hash));
    assert(decoded(t) =~= hash);
}

/// What encoding a 20-byte hash writes is accepted as an info hash.
pub proof fn encoded_is_infohash(hash: Seq<u8>)
    requires
        hash.len() == 20,
    ensures
        is_infohash(encoded(hash)),
{
}

/// Every text accepted as an info hash decodes, and the hash it decodes to is written as that text.
pub proof fn infohash_decodes(s: Seq<char>)
    requires
        is_infohash(s),
    ensures
        decode_result(vstd::utf8::encode_utf8(s)) is Ok,
        encoded(decode_result(vstd::utf8::encode_utf8(s))->Ok_0) == s,
{
    vstd::utf8::is_ascii_chars_encode_utf8(s);
}

/// Digits count up from `0` to `9` and on from `a` to `f`; capitals count as small letters do, and
/// no other byte is a digit.
pub proof fn digits_count_up(v: int, b: u8)
    ensures
        0 <= v < 10 ==> digit_char(v) as int == '0' as int + v && digit_value(
            digit_char(v) as u8,
        ) == Some(v as u8),
        10 <= v < 16 ==> digit_char(v) as int == 'a' as int + (v - 10) && digit_value(
            digit_char(v) as u8,
        ) == Some(v as u8) && digit_value((digit_char(v) as u8 - 32) as u8) == Some(v as u8),
        digit_value(b) matches Some(w) ==> w < 16 && (b == digit_char(w as int) as u8 || (w >= 10
            && b + 32 == digit_char(w as int) as u8)),
{
}

/// Bytes are written one after the other, each as the digit of its sixteens and that of what is
/// left.
pub proof fn bytes_are_written_in_order(a: Seq<u8>, b: Seq<u8>, byte: u8)
    ensures
        encoded(a + b) == encoded(a) + encoded(b),
        encoded(seq![byte]).len() == 2,
        exists|hi: u8, lo: u8|
            hi < 16 && lo < 16 && 16 * hi + lo == byte && #[trigger] digit_char(hi as int)
                == encoded(seq![byte])[0] && #[trigger] digit_char(lo as int) == encoded(
                seq![byte],
            )[1],
{
    assert forall|i: int| 0 <= i < 2 * (a + b).len() implies #[trigger] encoded(a + b)[i] == (
    encoded(a) + encoded(b))[i] by {
        if i >= 2 * a.len() {
            assert((a + b)[i / 2] == b[(i - 2 * a.len()) / 2]);
        }
    }
    assert(encoded(a + b) =~= encoded(a) + encoded(b));
    let hi = byte / 16;
    let lo = byte % 16;
    assert(digit_char(hi as int) == encoded(seq![byte])[0]);
    assert(digit_char(lo as int) == encoded(seq![byte])[1]);
}

/// Forty digits stand for twenty bytes, the first of each two digits counting sixteen times the
/// second. A text of any other length is refused with its length, and one with another byte with
/// the first such byte.
pub proof fn digit_pairs_stand_for_bytes(t: Seq<u8>, i: int)
    requires
        t.len() <= usize::MAX,
    ensures
        t.len() != 40 ==> (decode_result(t) matches Err(HexError::Length(n)) && n == t.len()),
        t.len() == 40 && 0 <= i < 40 && digit_value(t[i]) is None && (forall|j: int|
            0 <= j < i ==> digit_value(#[trigger] t[j]) is Some) ==> decode_result(t) == Err::<
            Seq<u8>,
            HexError,
        >(HexError::Digit(t[i])),
        t.len() == 40 && (forall|j: int| 0 <= j < 40 ==> digit_value(#[trigger] t[j]) is Some)
            ==> decode_result(t) is Ok && decode_result(t)->Ok_0.len() == 20 && (0 <= i < 20
            ==> decode_result(t)->Ok_0[i] == 16 * digit_value(t[2 * i])->0 + digit_value(
            t[2 * i + 1],
        )->0),
{
    if t.len() == 40 && 0 <= i < 40 && digit_value(t[i]) is None && (forall|j: int|
        0 <= j < i ==> digit_value(#[trigger] t[j]) is Some) {
        lemma_first_non_digit(t, i);
    }
}

/// A text is taken for an info hash exactly if it is how some 20-byte hash is written.
pub proof fn infohashes_are_written_hashes(s: Seq<char>)
    ensures
        is_infohash(s) <==> exists|hash: Seq<u8>| hash.len() == 20 && #[trigger] encoded(hash) == s,
{
    if is_infohash(s) {
        infohash_decodes(s);
        vstd::utf8::is_ascii_chars_encode_utf8(s);
        let hash = decode_result(vstd::utf8::encode_utf8(s))->Ok_0;
        assert(hash.len() == 20 && encoded(hash) == s);
    }
}

} // verus!
