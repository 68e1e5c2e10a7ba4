//! Building `String`s out of ASCII bytes, and decimal rendering of integers.
//!
//! Every user-facing message of the front end is ASCII apart from the pieces
//! it copies out of the source file, so messages are assembled here from
//! byte buffers and literal fragments.

use vstd::prelude::*;
use vstd::utf8::{decode_utf8, valid_utf8};
use vstd::string::*;

verus! {

/// The characters that ASCII bytes stand for.
pub open spec fn ascii_chars(b: Seq<u8>) -> Seq<char> {
    b.map_values(|x: u8| x as char)
}

/// Every byte is below `0x80`.
pub open spec fn all_ascii(b: Seq<u8>) -> bool {
    forall|i: int| 0 <= i < b.len() ==> #[trigger] b[i] < 0x80
}

/// The ASCII digit byte for `d` (`0 <= d < 10`).
pub open spec fn digit_byte(d: nat) -> u8 {
    (d + 0x30) as u8
}

/// Decimal rendering of a natural number, most significant digit first,
/// with no leading zeros (`0` renders as `"0"`).
pub open spec fn decimal_bytes(n: nat) -> Seq<u8>
    decreases n,
{
    if n < 10 {
        seq![digit_byte(n)]
    } else {
        decimal_bytes(n / 10).push(digit_byte(n % 10))
    }
}

/// Decimal rendering of a natural number as characters.
pub open spec fn decimal(n: nat) -> Seq<char> {
    ascii_chars(decimal_bytes(n))
}

proof fn lemma_ascii_byte(x: u8)
    requires
        x < 0x80,
    ensures
        (x & 0x7F) == x,
{
    assert((x & 0x7F) == x) by (bit_vector)
        requires
            x < 0x80,
    ;
}

/// ASCII bytes are valid UTF-8 and decode byte-for-byte.
pub proof fn lemma_ascii_decode(b: Seq<u8>)
    requires
        all_ascii(b),
    ensures
        valid_utf8(b),
        decode_utf8(b) == ascii_chars(b),
    decreases b.len(),
{
    if b.len() != 0 {
        lemma_ascii_byte(b[0]);
        let rest = b.subrange(1, b.len() as int);
        assert(vstd::utf8::pop_first_scalar(b) == rest);
        assert(all_ascii(rest)) by {
            assert forall|i: int| 0 <= i < rest.len() implies #[trigger] rest[i] < 0x80 by {
                assert(rest[i] == b[i + 1]);
            }
        }
        lemma_ascii_decode(rest);
        assert(decode_utf8(b) == ascii_chars(b));
    } else {
        assert(decode_utf8(b) =~= ascii_chars(b));
    }
}

proof fn lemma_decimal_bytes_ascii(n: nat)
    ensures
        all_ascii(decimal_bytes(n)),
        decimal_bytes(n).len() >= 1,
    decreases n,
{
    if n >= 10 {
        lemma_decimal_bytes_ascii(n / 10);
        let s = decimal_bytes(n / 10);
        assert forall|i: int| 0 <= i < s.push(digit_byte(n % 10)).len() implies #[trigger] s.push(
            digit_byte(n % 10),
        )[i] < 0x80 by {
            if i < s.len() {
                assert(s.push(digit_byte(n % 10))[i] == s[i]);
            }
        }
    }
}

/// `String::from_utf8`, seen through `Option`.
#[verifier::external_body]
fn string_from_utf8(bytes: Vec<u8>) -> (res: Option<String>)
    ensures
        res is Some <==> valid_utf8(bytes@),
        res matches Some(s) ==> s@ == decode_utf8(bytes@),
{
    String::from_utf8(bytes).ok()
}

/// Decode a byte buffer as UTF-8; `None` when it is not valid UTF-8.
pub fn utf8_string(bytes: Vec<u8>) -> (res: Option<String>)
    ensures
        res is Some <==> valid_utf8(bytes@),
        res matches Some(s) ==> s@ == decode_utf8(bytes@),
{
    string_from_utf8(bytes)
}

/// A `String` holding the characters of ASCII bytes.
pub fn ascii_string(bytes: Vec<u8>) -> (s: String)
    requires
        all_ascii(bytes@),
    ensures
        s@ == ascii_chars(bytes@),
{
    proof {
        lemma_ascii_decode(bytes@);
    }
    let r = string_from_utf8(bytes);
    match r {
        Some(s) => s,
        None => String::new(),
    }
}

/// A `String` holding the ASCII bytes `src[start..end]`.
pub fn ascii_substring(src: &[u8], start: usize, end: usize) -> (s: String)
    requires
        start <= end <= src@.len(),
        all_ascii(src@.subrange(start as int, end as int)),
    ensures
        s@ == ascii_chars(src@.subrange(start as int, end as int)),
{
    let mut v: Vec<u8> = Vec::new();
    let mut i = start;
    while i < end
        invariant
            start <= i <= end <= src@.len(),
            v@ == src@.subrange(start as int, i as int),
        decreases end - i,
    {
        v.push(src[i]);
        i = i + 1;
        assert(v@ =~= src@.subrange(start as int, i as int));
    }
    ascii_string(v)
}

/// The decimal digits of `n`, as ASCII bytes.
pub fn decimal_digits(n: u64) -> (v: Vec<u8>)
    ensures
        v@ == decimal_bytes(n as nat),
    decreases n,
{
    if n < 10 {
        let mut v: Vec<u8> = Vec::new();
        v.push((n as u8) + 0x30);
        assert(v@ =~= seq![digit_byte(n as nat)]);
        v
    } else {
        let mut v = decimal_digits(n / 10);
        v.push(((n % 10) as u8) + 0x30);
        v
    }
}

/// Decimal rendering of `n`.
pub fn decimal_string(n: u64) -> (s: String)
    ensures
        s@ == decimal(n as nat),
{
    proof {
        lemma_decimal_bytes_ascii(n as nat);
    }
    let v = decimal_digits(n);
    ascii_string(v)
}

/// The decimal digits of a 128-bit `n`, as ASCII bytes.
fn decimal_digits_wide(n: u128) -> (v: Vec<u8>)
    ensures
        v@ == decimal_bytes(n as nat),
    decreases n,
{
    if n < 10 {
        let mut v: Vec<u8> = Vec::new();
        v.push((n as u8) + 0x30);
        assert(v@ =~= seq![digit_byte(n as nat)]);
        v
    } else {
        let mut v = decimal_digits_wide(n / 10);
        v.push(((n % 10) as u8) + 0x30);
        v
    }
}

/// Decimal rendering of an integer, with a leading `-` when negative.
pub open spec fn signed_decimal(i: int) -> Seq<char> {
    if i < 0 {
        "-"@ + decimal((-i) as nat)
    } else {
        decimal(i as nat)
    }
}

/// Decimal rendering of a signed 128-bit integer.
pub fn signed_decimal_string(i: i128) -> (s: String)
    ensures
        s@ == signed_decimal(i as int),
{
    let mag: u128 = if i < 0 {
        ((-(i + 1)) as u128) + 1
    } else {
        i as u128
    };
    proof {
        lemma_decimal_bytes_ascii(mag as nat);
    }
    let digits = ascii_string(decimal_digits_wide(mag));
    if i < 0 {
        concat_str(String::from_str("-"), digits.as_str())
    } else {
        digits
    }
}

/// Whether two texts are equal, compared byte by byte.
pub fn str_eq(a: &str, b: &str) -> (r: bool)
    ensures
        r == (a@ == b@),
{
    let x = a.as_bytes();
    let y = b.as_bytes();
    proof {
        vstd::utf8::encode_utf8_decode_utf8(a@);
        vstd::utf8::encode_utf8_decode_utf8(b@);
        assert(x@ == vstd::utf8::encode_utf8(a@));
        assert(y@ == vstd::utf8::encode_utf8(b@));
    }
    if x.len() != y.len() {
        return false;
    }
    let mut i: usize = 0;
    while i < x.len()
        invariant
            x@.len() == y@.len(),
            x@ == vstd::utf8::encode_utf8(a@),
            y@ == vstd::utf8::encode_utf8(b@),
            i <= x@.len(),
            forall|j: int| 0 <= j < i ==> x@[j] == y@[j],
        decreases x@.len() - i,
    {
        if x[i] != y[i] {
            assert(x@[i as int] != y@[i as int]);
            assert(x@ != y@);
            return false;
        }
        i = i + 1;
    }
    assert(x@ =~= y@);
    true
}

/// `a` followed by `b`.
pub fn concat_str(a: String, b: &str) -> (s: String)
    ensures
        s@ == a@ + b@,
{
    a.concat(b)
}

} // verus!
