//! Encodings of bytes as text: hexadecimal, base64, percent-encoding, and the
//! fingerprints made of them.

use vstd::prelude::*;
use vstd::string::*;
use vstd::utf8::encode_utf8;
use crate::text::{chars_of, text_of};

verus! {

/// A hexadecimal digit, in lower case.
pub open spec fn hex_digit(d: int) -> char {
    if d < 10 {
        (48 + d) as char
    } else {
        (87 + d) as char
    }
}

/// Two lower-case hexadecimal digits for every byte.
pub open spec fn hex_of(b: Seq<u8>) -> Seq<char>
    decreases b.len(),
{
    if b.len() == 0 {
        Seq::empty()
    } else {
        hex_of(b.drop_last()).push(hex_digit(b.last() as int / 16)).push(
            hex_digit(b.last() as int % 16),
        )
    }
}

/// The SHA-256 hash of bytes.
pub uninterp spec fn sha256(bytes: Seq<u8>) -> Seq<u8>;

/// `sha2::Sha256`: the 32 bytes of the SHA-256 hash.
#[verifier::external_body]
fn sha256_bytes(bytes: &[u8]) -> (r: Vec<u8>)
    ensures
        r@ == sha256(bytes@),
        r@.len() == 32,
{
    let mut h = <sha2::Sha256 as sha2::Digest>::new();
    sha2::Digest::update(&mut h, bytes);
    sha2::Digest::finalize(h).to_vec()
}

/// `hex::encode`: two lower-case hexadecimal digits for every byte.
#[verifier::external_body]
fn hex_encode(bytes: &Vec<u8>) -> (r: String)
    ensures
        r@ == hex_of(bytes@),
{
    hex::encode(bytes)
}

/// Whether a character is a hexadecimal digit in lower case.
pub open spec fn is_hex_digit(c: char) -> bool {
    ('0' <= c <= '9') || ('a' <= c <= 'f')
}

/// Whether a text is made of lower-case hexadecimal digits.
pub open spec fn hex_digits(s: Seq<char>) -> bool {
    forall|i: int| 0 <= i < s.len() ==> is_hex_digit(#[trigger] s[i])
}

/// Whether a text is a mark followed by `n` lower-case hexadecimal digits.
pub open spec fn marked_hex(s: Seq<char>, mark: Seq<char>, n: int) -> bool {
    &&& s.len() == mark.len() + n
    &&& s.take(mark.len() as int) == mark
    &&& hex_digits(s.skip(mark.len() as int))
}

/// A mark in front of hexadecimal digits.
pub proof fn lemma_marked_hex(mark: Seq<char>, h: Seq<char>)
    requires
        hex_digits(h),
    ensures
        marked_hex(mark + h, mark, h.len() as int),
{
    let s = mark + h;
    assert(s.take(mark.len() as int) =~= mark);
    assert(s.skip(mark.len() as int) =~= h);
}

proof fn lemma_hex(b: Seq<u8>)
    ensures
        hex_of(b).len() == 2 * b.len(),
        hex_digits(hex_of(b)),
    decreases b.len(),
{
    if b.len() > 0 {
        lemma_hex(b.drop_last());
        let h = hex_of(b);
        assert forall|i: int| 0 <= i < h.len() implies is_hex_digit(#[trigger] h[i]) by {
            if i < h.len() - 2 {
                assert(h[i] == hex_of(b.drop_last())[i]);
            }
        }
    }
}

/// The first `n` hexadecimal digits of the hash of a text.
pub open spec fn fingerprint_of(s: Seq<char>, n: int) -> Seq<char> {
    hex_of(sha256(encode_utf8(s))).take(n)
}

/// The first `n` hexadecimal digits of bytes.
pub fn hex_prefix(bytes: &Vec<u8>, n: usize) -> (r: String)
    requires
        n <= 2 * bytes@.len(),
    ensures
        r@ == hex_of(bytes@).take(n as int),
        r@.len() == n,
        hex_digits(r@),
{
    let x = hex_encode(bytes);
    proof {
        lemma_hex(bytes@);
    }
    let v = chars_of(x.as_str());
    assert(v@.subrange(0, n as int) == v@.take(n as int));
    text_of(&v, 0, n)
}

/// The first `n` hexadecimal digits of the hash of a text.
pub fn fingerprint(s: &str, n: usize) -> (r: String)
    requires
        n <= 64,
    ensures
        r@ == fingerprint_of(s@, n as int),
        sha256(encode_utf8(s@)).len() == 32,
        r@.len() == n,
        hex_digits(r@),
{
    hex_prefix(&sha256_bytes(s.as_bytes()), n)
}

/// The character of six bits in the standard base64 alphabet.
pub open spec fn base64_char(v: int) -> char {
    if v < 26 {
        (65 + v) as char
    } else if v < 52 {
        (71 + v) as char
    } else if v < 62 {
        (v - 4) as char
    } else if v == 62 {
        '+'
    } else {
        '/'
    }
}

/// The base64 text of bytes, in the standard alphabet and with padding: four
/// characters for every three bytes, and for what is left.
pub open spec fn base64_of(b: Seq<u8>) -> Seq<char>
    decreases b.len(),
{
    if b.len() == 0 {
        Seq::empty()
    } else if b.len() == 1 {
        let n = b[0] as int * 0x10000;
        seq![base64_char(n / 0x40000), base64_char(n / 0x1000 % 64), '=', '=']
    } else if b.len() == 2 {
        let n = b[0] as int * 0x10000 + b[1] as int * 0x100;
        seq![
            base64_char(n / 0x40000),
            base64_char(n / 0x1000 % 64),
            base64_char(n / 0x40 % 64),
            '=',
        ]
    } else {
        let n = b[0] as int * 0x10000 + b[1] as int * 0x100 + b[2] as int;
        seq![
            base64_char(n / 0x40000),
            base64_char(n / 0x1000 % 64),
            base64_char(n / 0x40 % 64),
            base64_char(n % 64),
        ] + base64_of(b.skip(3))
    }
}

/// `base64::engine::general_purpose::STANDARD.encode`: the text in the standard
/// alphabet, padded.
#[verifier::external_body]
pub(crate) fn base64_encode(s: &str) -> (r: String)
    ensures
        r@ == base64_of(encode_utf8(s@)),
{
    base64::Engine::encode(&base64::engine::general_purpose::STANDARD, s)
}

/// A hexadecimal digit, in upper case.
pub open spec fn hex_upper(d: int) -> char {
    if d < 10 {
        (48 + d) as char
    } else {
        (55 + d) as char
    }
}

/// A byte as itself, where it may stand, or percent-encoded.
pub open spec fn percent_byte(b: u8, kept: bool) -> Seq<char> {
    if kept {
        seq![b as char]
    } else {
        seq!['%', hex_upper(b as int / 16), hex_upper(b as int % 16)]
    }
}

/// Bytes that need no encoding in any part of a URL.
pub open spec fn unreserved(b: u8) -> bool {
    ||| 65 <= b <= 90
    ||| 97 <= b <= 122
    ||| 48 <= b <= 57
    ||| b == 45
    ||| b == 95
    ||| b == 46
    ||| b == 126
}

/// Bytes that stand as they are inside a key predicate: the unreserved ones and
/// the quote.
pub open spec fn kept_in_key(b: u8) -> bool {
    unreserved(b) || b == 39
}

/// Bytes that stand as they are inside a query: the unreserved ones and
/// `$ ' ( ) , =`.
pub open spec fn kept_in_query(b: u8) -> bool {
    unreserved(b) || b == 36 || b == 39 || b == 40 || b == 41 || b == 44 || b == 61
}

/// Bytes percent-encoded for a key predicate.
pub open spec fn key_encoded(b: Seq<u8>) -> Seq<char>
    decreases b.len(),
{
    if b.len() == 0 {
        Seq::empty()
    } else {
        key_encoded(b.drop_last()) + percent_byte(b.last(), kept_in_key(b.last()))
    }
}

/// Bytes percent-encoded for a query.
pub open spec fn query_encoded(b: Seq<u8>) -> Seq<char>
    decreases b.len(),
{
    if b.len() == 0 {
        Seq::empty()
    } else {
        query_encoded(b.drop_last()) + percent_byte(b.last(), kept_in_query(b.last()))
    }
}

fn upper_digit(d: u8) -> (r: char)
    requires
        d < 16,
    ensures
        r == hex_upper(d as int),
{
    if d < 10 {
        (48 + d) as char
    } else {
        (55 + d) as char
    }
}

fn is_unreserved(b: u8) -> (r: bool)
    ensures
        r == unreserved(b),
{
    (65 <= b && b <= 90) || (97 <= b && b <= 122) || (48 <= b && b <= 57) || b == 45 || b == 95
        || b == 46 || b == 126
}

/// Appends a byte, percent-encoded unless it is kept.
fn push_byte(out: &mut String, b: u8, kept: bool)
    ensures
        final(out)@ == old(out)@ + percent_byte(b, kept),
{
    if kept {
        out.push(b as char);
        assert(out@ =~= old(out)@ + percent_byte(b, kept));
    } else {
        out.push('%');
        out.push(upper_digit(b / 16));
        out.push(upper_digit(b % 16));
        assert(out@ =~= old(out)@ + percent_byte(b, kept));
    }
}

/// Percent-encodes a text for a place inside a key predicate.
pub fn encode_for_key(s: &str) -> (r: String)
    ensures
        r@ == key_encoded(encode_utf8(s@)),
{
    let bytes = s.as_bytes();
    let mut out = String::new();
    let mut i: usize = 0;
    while i < bytes.len()
        invariant
            i <= bytes@.len(),
            out@ == key_encoded(bytes@.take(i as int)),
        decreases bytes@.len() - i,
    {
        let b = bytes[i];
        assert(bytes@.take(i + 1).drop_last() == bytes@.take(i as int));
        push_byte(&mut out, b, is_unreserved(b) || b == 39);
        i = i + 1;
    }
    assert(bytes@.take(i as int) == bytes@);
    out
}

/// Percent-encodes a text for a place inside a query.
pub fn encode_for_query(s: &str) -> (r: String)
    ensures
        r@ == query_encoded(encode_utf8(s@)),
{
    let bytes = s.as_bytes();
    let mut out = String::new();
    let mut i: usize = 0;
    while i < bytes.len()
        invariant
            i <= bytes@.len(),
            out@ == query_encoded(bytes@.take(i as int)),
        decreases bytes@.len() - i,
    {
        let b = bytes[i];
        assert(bytes@.take(i + 1).drop_last() == bytes@.take(i as int));
        push_byte(
            &mut out,
            b,
            is_unreserved(b) || b == 36 || b == 39 || b == 40 || b == 41 || b == 44 || b == 61,
        );
        i = i + 1;
    }
    assert(bytes@.take(i as int) == bytes@);
    out
}

/// Whether a character may stand in an encoded key: a letter or digit of ASCII, one
/// of `- _ . ~ '`, or the percent sign.
pub open spec fn key_char(c: char) -> bool {
    ||| 'a' <= c <= 'z'
    ||| 'A' <= c <= 'Z'
    ||| '0' <= c <= '9'
    ||| c == '-'
    ||| c == '_'
    ||| c == '.'
    ||| c == '~'
    ||| c == '\''
    ||| c == '%'
}

/// An encoded key never leaves its path segment: no slash, blank, bracket, question
/// mark or any other character that could end the key predicate stands in it.
pub proof fn key_encoding_is_path_safe(b: Seq<u8>)
    ensures
        forall|i: int| 0 <= i < key_encoded(b).len() ==> key_char(#[trigger] key_encoded(b)[i]),
    decreases b.len(),
{
    if b.len() > 0 {
        key_encoding_is_path_safe(b.drop_last());
        let head = key_encoded(b.drop_last());
        let tail = percent_byte(b.last(), kept_in_key(b.last()));
        assert forall|i: int| 0 <= i < key_encoded(b).len() implies key_char(#[trigger] key_encoded(b)[i]) by {
            if i < head.len() {
                assert(key_encoded(b)[i] == head[i]);
            } else {
                assert(key_encoded(b)[i] == tail[i - head.len()]);
            }
        }
    }
}

/// The number that a hexadecimal digit in upper case stands for.
pub open spec fn hex_value(c: char) -> int {
    if '0' <= c <= '9' {
        c as int - 48
    } else {
        c as int - 55
    }
}

/// The bytes that a percent-encoded text stands for.
pub open spec fn percent_decoded(s: Seq<char>) -> Seq<u8>
    decreases s.len(),
{
    if s.len() == 0 {
        Seq::empty()
    } else if s[0] == '%' && s.len() >= 3 {
        seq![(hex_value(s[1]) * 16 + hex_value(s[2])) as u8] + percent_decoded(s.skip(3))
    } else {
        seq![s[0] as u8] + percent_decoded(s.skip(1))
    }
}

proof fn lemma_byte_decoded(b: u8, kept: bool, t: Seq<char>)
    requires
        kept ==> b != 37 && b < 128,
    ensures
        percent_decoded(percent_byte(b, kept) + t) == seq![b] + percent_decoded(t),
{
    let p = percent_byte(b, kept);
    let s = p + t;
    if kept {
        assert(s.skip(1) =~= t);
        assert(s[0] == b as char);
    } else {
        assert(s.skip(3) =~= t);
        let h = b as int / 16;
        let l = b as int % 16;
        assert(hex_value(hex_upper(h)) == h && hex_value(hex_upper(l)) == l);
        assert(h * 16 + l == b);
        assert(s[0] == '%' && s[1] == hex_upper(h) && s[2] == hex_upper(l));
    }
}

proof fn lemma_key_decoded(b: Seq<u8>, t: Seq<char>)
    ensures
        percent_decoded(key_encoded(b) + t) == b + percent_decoded(t),
    decreases b.len(),
{
    if b.len() == 0 {
        assert(key_encoded(b) + t =~= t);
        assert(b + percent_decoded(t) =~= percent_decoded(t));
    } else {
        let p = percent_byte(b.last(), kept_in_key(b.last()));
        let head = key_encoded(b.drop_last());
        assert(key_encoded(b) + t =~= head + (p + t));
        lemma_key_decoded(b.drop_last(), p + t);
        lemma_byte_decoded(b.last(), kept_in_key(b.last()), t);
        assert(b.drop_last() + (seq![b.last()] + percent_decoded(t)) =~= b + percent_decoded(t));
    }
}

proof fn lemma_query_decoded(b: Seq<u8>, t: Seq<char>)
    ensures
        percent_decoded(query_encoded(b) + t) == b + percent_decoded(t),
    decreases b.len(),
{
    if b.len() == 0 {
        assert(query_encoded(b) + t =~= t);
        assert(b + percent_decoded(t) =~= percent_decoded(t));
    } else {
        let p = percent_byte(b.last(), kept_in_query(b.last()));
        let head = query_encoded(b.drop_last());
        assert(query_encoded(b) + t =~= head + (p + t));
        lemma_query_decoded(b.drop_last(), p + t);
        lemma_byte_decoded(b.last(), kept_in_query(b.last()), t);
        assert(b.drop_last() + (seq![b.last()] + percent_decoded(t)) =~= b + percent_decoded(t));
    }
}

/// What is percent-encoded, for a key or for a query, is read back as it was.
pub proof fn encoded_bytes_are_read_back(b: Seq<u8>)
    ensures
        percent_decoded(key_encoded(b)) == b,
        percent_decoded(query_encoded(b)) == b,
{
    lemma_key_decoded(b, Seq::empty());
    lemma_query_decoded(b, Seq::empty());
    assert(percent_decoded(Seq::<char>::empty()) =~= Seq::<u8>::empty());
    assert(key_encoded(b) + Seq::<char>::empty() =~= key_encoded(b));
    assert(query_encoded(b) + Seq::<char>::empty() =~= query_encoded(b));
    assert(b + Seq::<u8>::empty() =~= b);
}

/// Whether a character may stand in an encoded part of a query.
pub open spec fn query_char(c: char) -> bool {
    key_char(c) || c == '$' || c == '(' || c == ')' || c == ',' || c == '='
}

/// An encoded part of a query stays one: no ampersand, number sign, question mark, plus sign,
/// slash or blank stands in it.
pub proof fn query_encoding_is_safe(b: Seq<u8>)
    ensures
        forall|i: int| 0 <= i < query_encoded(b).len() ==> query_char(#[trigger] query_encoded(b)[i]),
    decreases b.len(),
{
    if b.len() > 0 {
        query_encoding_is_safe(b.drop_last());
        let head = query_encoded(b.drop_last());
        let tail = percent_byte(b.last(), kept_in_query(b.last()));
        assert forall|i: int| 0 <= i < query_encoded(b).len() implies query_char(
            #[trigger] query_encoded(b)[i],
        ) by {
            if i < head.len() {
                assert(query_encoded(b)[i] == head[i]);
            } else {
                assert(query_encoded(b)[i] == tail[i - head.len()]);
            }
        }
    }
}

/// Letters, digits and `- _ . ~` stand in an address as they are.
pub proof fn plain_bytes_stand_as_they_are(b: Seq<u8>)
    requires
        forall|i: int| 0 <= i < b.len() ==> unreserved(#[trigger] b[i]),
    ensures
        key_encoded(b) == Seq::new(b.len(), |i: int| b[i] as char),
        query_encoded(b) == Seq::new(b.len(), |i: int| b[i] as char),
    decreases b.len(),
{
    if b.len() > 0 {
        let c = b.drop_last();
        assert forall|i: int| 0 <= i < c.len() implies unreserved(#[trigger] c[i]) by {
            assert(c[i] == b[i]);
        }
        plain_bytes_stand_as_they_are(c);
        assert(unreserved(b[b.len() - 1]));
    }
    assert(key_encoded(b) =~= Seq::new(b.len(), |i: int| b[i] as char));
    assert(query_encoded(b) =~= Seq::new(b.len(), |i: int| b[i] as char));
}

/// The value of a digit in base 64.
pub open spec fn base64_value(c: char) -> int {
    if 'A' <= c <= 'Z' {
        c as int - 65
    } else if 'a' <= c <= 'z' {
        c as int - 71
    } else if '0' <= c <= '9' {
        c as int + 4
    } else if c == '+' {
        62
    } else {
        63
    }
}

/// The bytes that a text in base 64 stands for.
pub open spec fn base64_decoded(s: Seq<char>) -> Seq<u8>
    decreases s.len(),
{
    if s.len() < 4 {
        Seq::empty()
    } else {
        let high = base64_value(s[0]) * 0x40000 + base64_value(s[1]) * 0x1000;
        if s[2] == '=' {
            seq![(high / 0x10000) as u8]
        } else if s[3] == '=' {
            let n = high + base64_value(s[2]) * 0x40;
            seq![(n / 0x10000) as u8, (n / 0x100 % 0x100) as u8]
        } else {
            let n = high + base64_value(s[2]) * 0x40 + base64_value(s[3]);
            seq![(n / 0x10000) as u8, (n / 0x100 % 0x100) as u8, (n % 0x100) as u8]
                + base64_decoded(s.skip(4))
        }
    }
}

proof fn lemma_base64_char(v: int)
    requires
        0 <= v < 64,
    ensures
        base64_value(base64_char(v)) == v,
        base64_char(v) != '=',
{
}

proof fn lemma_base64_digits(n: int)
    requires
        0 <= n < 0x1000000,
    ensures
        0 <= n / 0x40000 < 64,
        0 <= n / 0x1000 % 64 < 64,
        0 <= n / 0x40 % 64 < 64,
        0 <= n % 64 < 64,
        (n / 0x40000) * 0x40000 + (n / 0x1000 % 64) * 0x1000 + (n / 0x40 % 64) * 0x40 + n % 64 == n,
{
}

proof fn lemma_base64_bytes(a: u8, b: u8, c: u8)
    ensures
        ({
            let n = a as int * 0x10000 + b as int * 0x100 + c as int;
            &&& 0 <= n < 0x1000000
            &&& (n / 0x10000) as u8 == a
            &&& (n / 0x100 % 0x100) as u8 == b
            &&& (n % 0x100) as u8 == c
        }),
{
    let n = a as int * 0x10000 + b as int * 0x100 + c as int;
    assert(n / 0x10000 == a);
    assert(n / 0x100 == a as int * 0x100 + b as int);
    assert(n / 0x100 % 0x100 == b);
    assert(n % 0x100 == c);
}

proof fn lemma_base64_group(b: Seq<u8>)
    requires
        0 < b.len() <= 3,
    ensures
        base64_of(b).len() == 4,
        base64_decoded(base64_of(b)) == b,
        b.len() == 3 ==> base64_of(b)[2] != '=' && base64_of(b)[3] != '=',
{
    let s = base64_of(b);
    let x = b[0];
    let y = if b.len() > 1 {
        b[1]
    } else {
        0u8
    };
    let z = if b.len() > 2 {
        b[2]
    } else {
        0u8
    };
    let n = x as int * 0x10000 + y as int * 0x100 + z as int;
    lemma_base64_bytes(x, y, z);
    lemma_base64_digits(n);
    lemma_base64_char(n / 0x40000);
    lemma_base64_char(n / 0x1000 % 64);
    lemma_base64_char(n / 0x40 % 64);
    lemma_base64_char(n % 64);
    assert(s[0] == base64_char(n / 0x40000));
    assert(s[1] == base64_char(n / 0x1000 % 64));
    if b.len() == 1 {
        assert(s[2] == '=');
        assert(n / 0x40 % 64 == 0 && n % 64 == 0);
        assert(base64_decoded(s) =~= b);
    } else if b.len() == 2 {
        assert(s[2] == base64_char(n / 0x40 % 64));
        assert(s[3] == '=');
        assert(n % 64 == 0);
        assert(base64_decoded(s) =~= b);
    } else {
        assert(base64_of(b.skip(3)).len() == 0);
        assert(s.len() == 4);
        assert(s[2] == base64_char(n / 0x40 % 64));
        assert(s[3] == base64_char(n % 64));
        assert(base64_decoded(s.skip(4)).len() == 0);
        assert(base64_decoded(s) =~= b);
    }
}

/// Bytes in base 64 are read back as they were.
pub proof fn base64_is_read_back(b: Seq<u8>)
    ensures
        base64_decoded(base64_of(b)) == b,
    decreases b.len(),
{
    let s = base64_of(b);
    if b.len() == 0 {
        assert(base64_decoded(s) =~= b);
    } else if b.len() <= 3 {
        lemma_base64_group(b);
    } else {
        let head = b.take(3);
        let tail = b.skip(3);
        lemma_base64_group(head);
        base64_is_read_back(tail);
        assert(head.skip(3) =~= Seq::<u8>::empty());
        let h = base64_of(head);
        assert(h =~= s.take(4));
        assert(s.skip(4) =~= base64_of(tail));
        assert(s[0] == h[0] && s[1] == h[1] && s[2] == h[2] && s[3] == h[3]);
        assert(h.skip(4) =~= Seq::<char>::empty());
        assert(base64_decoded(s) =~= base64_decoded(h) + tail);
        assert(head + tail =~= b);
    }
}

/// The value of a small hexadecimal digit.
pub open spec fn small_hex_value(c: char) -> int {
    if '0' <= c <= '9' {
        c as int - 48
    } else {
        c as int - 87
    }
}

/// Each byte is written as two hexadecimal digits, in its place.
pub proof fn hex_digits_are_read_back(b: Seq<u8>, i: int)
    requires
        0 <= i < b.len(),
    ensures
        hex_of(b).len() == 2 * b.len(),
        small_hex_value(hex_of(b)[2 * i]) * 16 + small_hex_value(hex_of(b)[2 * i + 1]) == b[i],
        is_hex_digit(hex_of(b)[2 * i]) && is_hex_digit(hex_of(b)[2 * i + 1]),
    decreases b.len(),
{
    let t = b.drop_last();
    if t.len() > 0 {
        hex_digits_are_read_back(t, if i < t.len() {
            i
        } else {
            0
        });
    } else {
        assert(hex_of(t).len() == 0);
    }
}

/// A fingerprint is made of the first bytes of the digest of the text.
pub proof fn fingerprints_are_the_digest(s: Seq<char>, n: int, i: int)
    requires
        0 <= 2 * i,
        2 * i + 1 < n <= 2 * sha256(encode_utf8(s)).len(),
    ensures
        fingerprint_of(s, n).len() == n,
        small_hex_value(fingerprint_of(s, n)[2 * i]) * 16 + small_hex_value(
            fingerprint_of(s, n)[2 * i + 1],
        ) == sha256(encode_utf8(s))[i],
{
    hex_digits_are_read_back(sha256(encode_utf8(s)), i);
}

/// The marks of queries stand as they are in a query, and the quote in a key.
pub proof fn marks_stand_as_they_are(b: u8)
    ensures
        b == 36 || b == 39 || b == 40 || b == 41 || b == 44 || b == 61 ==> query_encoded(seq![b])
            == seq![b as char],
        b == 39 ==> key_encoded(seq![b]) == seq![b as char],
{
    assert(seq![b].drop_last() =~= Seq::<u8>::empty());
    assert(query_encoded(Seq::<u8>::empty()) + seq![b as char] =~= seq![b as char]);
    assert(key_encoded(Seq::<u8>::empty()) + seq![b as char] =~= seq![b as char]);
}

} // verus!
