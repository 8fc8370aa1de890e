//! Numbers as text: writing them in decimal, and reading them back.

use vstd::prelude::*;
use vstd::string::*;
use crate::text::{ascii_lower, chars_of};

verus! {

/// The decimal digit of `d`.
pub open spec fn digit(d: nat) -> char {
    (48 + d) as char
}

/// The decimal text of a natural number.
pub open spec fn dec(n: nat) -> Seq<char>
    decreases n,
{
    if n < 10 {
        seq![digit(n)]
    } else {
        dec(n / 10).push(digit(n % 10))
    }
}

/// The decimal text of an integer.
pub open spec fn dec_int(n: int) -> Seq<char> {
    if n < 0 {
        seq!['-'] + dec((-n) as nat)
    } else {
        dec(n as nat)
    }
}

/// Writes a number in decimal.
pub fn dec_u64(n: u64) -> (r: String)
    ensures
        r@ == dec(n as nat),
    decreases n,
{
    let c: char = (48u8 + (n % 10) as u8) as char;
    if n < 10 {
        let mut s = String::new();
        s.push(c);
        s
    } else {
        let mut s = dec_u64(n / 10);
        s.push(c);
        s
    }
}

/// Writes a signed number in decimal.
pub fn dec_i64(n: i64) -> (r: String)
    ensures
        r@ == dec_int(n as int),
{
    if n < 0 {
        let m: u64 = if n == i64::MIN {
            0x8000_0000_0000_0000u64
        } else {
            (-n) as u64
        };
        let digits = dec_u64(m);
        let mut s = String::new();
        s.push('-');
        s.append(digits.as_str());
        assert(s@ =~= seq!['-'] + dec((-n) as nat));
        s
    } else {
        dec_u64(n as u64)
    }
}

/// Whether a character is a decimal digit.
pub open spec fn is_digit(c: char) -> bool {
    '0' <= c && c <= '9'
}

/// Whether a text is made of digits only.
pub open spec fn digits(s: Seq<char>) -> bool {
    forall|i: int| 0 <= i < s.len() ==> is_digit(#[trigger] s[i])
}

/// The number that digits write.
pub open spec fn digits_value(s: Seq<char>) -> nat
    decreases s.len(),
{
    if s.len() == 0 {
        0
    } else {
        digits_value(s.drop_last()) * 10 + ((s.last() as u32) - 48) as nat
    }
}

/// The number from 0 to `max` that a text writes: digits, after an optional `+`.
pub open spec fn unsigned_of(s: Seq<char>, max: nat) -> Option<nat> {
    let d = if s.len() > 0 && s[0] == '+' {
        s.drop_first()
    } else {
        s
    };
    if d.len() > 0 && digits(d) && digits_value(d) <= max {
        Some(digits_value(d))
    } else {
        None
    }
}

/// The signed 64-bit number that a text writes: digits, after an optional sign.
pub open spec fn signed_of(s: Seq<char>) -> Option<int> {
    if s.len() > 0 && s[0] == '-' {
        let d = s.drop_first();
        if d.len() > 0 && digits(d) && digits_value(d) <= 0x8000_0000_0000_0000 {
            Some(-(digits_value(d) as int))
        } else {
            None
        }
    } else {
        match unsigned_of(s, i64::MAX as nat) {
            Some(n) => Some(n as int),
            None => None,
        }
    }
}

proof fn lemma_value_grows(s: Seq<char>, k: int)
    requires
        0 <= k <= s.len(),
        digits(s),
    ensures
        digits_value(s.take(k)) <= digits_value(s),
    decreases s.len(),
{
    if k == s.len() {
        assert(s.take(k) == s);
    } else {
        assert(s.drop_last().take(k) == s.take(k));
        lemma_value_grows(s.drop_last(), k);
    }
}

/// Reads the digits of `v` from position `from` on.
fn read_digits(v: &Vec<char>, from: usize, max: u64) -> (r: Option<u64>)
    requires
        from <= v@.len(),
    ensures
        r == (if from < v@.len() && digits(v@.skip(from as int)) && digits_value(
            v@.skip(from as int),
        ) <= max {
            Some(digits_value(v@.skip(from as int)) as u64)
        } else {
            None
        }),
{
    if from == v.len() {
        return None;
    }
    let ghost all = v@.skip(from as int);
    let mut bad: bool = false;
    let mut i: usize = from;
    while i < v.len()
        invariant
            from <= i <= v@.len(),
            all == v@.skip(from as int),
            bad == !digits(all.take(i - from)),
        decreases v@.len() - i,
    {
        let c = v[i];
        if !('0' <= c && c <= '9') {
            bad = true;
            assert(!is_digit(all.take(i + 1 - from)[i - from]));
        }
        proof {
            if bad && digits(all.take(i + 1 - from)) {
                assert forall|k: int| 0 <= k < i - from implies is_digit(#[trigger] all.take(i - from)[k]) by {
                    assert(is_digit(all.take(i + 1 - from)[k]));
                }
            }
            if !bad {
                assert forall|k: int| 0 <= k < i + 1 - from implies is_digit(#[trigger] all.take(i + 1 - from)[k]) by {
                    if k < i - from {
                        assert(is_digit(all.take(i - from)[k]));
                    }
                }
            }
        }
        i = i + 1;
    }
    assert(all.take(i - from) == all);
    if bad {
        return None;
    }
    let mut acc: u64 = 0;
    let mut j: usize = from;
    while j < v.len()
        invariant
            from <= j <= v@.len(),
            all == v@.skip(from as int),
            digits(all),
            acc == digits_value(all.take(j - from)),
            acc <= max,
        decreases v@.len() - j,
    {
        let c = v[j];
        proof {
            assert(is_digit(all[j - from]));
            assert(all.take(j + 1 - from).drop_last() == all.take(j - from));
            lemma_value_grows(all, j + 1 - from);
        }
        let d: u64 = (c as u32 - 48) as u64;
        if d > max || acc > (max / 10) || acc * 10 > max - d {
            return None;
        }
        acc = acc * 10 + d;
        j = j + 1;
    }
    assert(all.take(j - from) == all);
    Some(acc)
}

/// Reads an unsigned number that is at most `max`.
pub fn parse_unsigned(s: &str, max: u64) -> (r: Option<u64>)
    ensures
        r == (match unsigned_of(s@, max as nat) {
            Some(n) => Some(n as u64),
            None => None,
        }),
{
    let v = chars_of(s);
    if v.len() > 0 && v[0] == '+' {
        assert(v@.skip(1) == s@.drop_first());
        read_digits(&v, 1, max)
    } else {
        assert(v@.skip(0) == s@);
        read_digits(&v, 0, max)
    }
}

/// Reads a signed number.
pub fn parse_i64(s: &str) -> (r: Option<i64>)
    ensures
        r == (match signed_of(s@) {
            Some(n) => Some(n as i64),
            None => None,
        }),
{
    let v = chars_of(s);
    if v.len() > 0 && v[0] == '-' {
        assert(v@.skip(1) == s@.drop_first());
        match read_digits(&v, 1, 0x8000_0000_0000_0000u64) {
            Some(n) => if n == 0x8000_0000_0000_0000u64 {
                Some(i64::MIN)
            } else {
                Some(-(n as i64))
            },
            None => None,
        }
    } else {
        match parse_unsigned(s, i64::MAX as u64) {
            Some(n) => Some(n as i64),
            None => None,
        }
    }
}

/// Whether a text is the mantissa of a decimal fraction: digits with at most one
/// point among them, and at least one digit.
pub open spec fn mantissa(s: Seq<char>) -> bool {
    ||| s.len() > 0 && digits(s)
    ||| s.len() > 1 && exists|k: int| #[trigger] splits_at_point(s, k)
}

/// Whether `s` is digits, a point at position `k`, and digits.
pub open spec fn splits_at_point(s: Seq<char>, k: int) -> bool {
    0 <= k < s.len() && s[k] == '.' && digits(s.take(k)) && digits(s.skip(k + 1))
}

/// A text without one sign at its start.
pub open spec fn unsigned_part(s: Seq<char>) -> Seq<char> {
    if s.len() > 0 && (s[0] == '+' || s[0] == '-') {
        s.drop_first()
    } else {
        s
    }
}

/// Whether `s` is a mantissa, an exponent mark at position `k`, and an exponent.
pub open spec fn splits_at_exponent(s: Seq<char>, k: int) -> bool {
    &&& 0 <= k < s.len()
    &&& s[k] == 'e' || s[k] == 'E'
    &&& mantissa(s.take(k))
    &&& unsigned_part(s.skip(k + 1)).len() > 0
    &&& digits(unsigned_part(s.skip(k + 1)))
}

/// Whether `s` is the word `w`, with ASCII capitals for some of its letters.
pub open spec fn folds_to(s: Seq<char>, w: Seq<char>) -> bool {
    s.map_values(|c: char| ascii_lower(c)) == w
}

/// Whether a text writes a floating-point number: an optional sign, then `inf`,
/// `infinity` or `nan` in any case, or a mantissa with an optional exponent.
pub open spec fn float_literal(s: Seq<char>) -> bool {
    let u = unsigned_part(s);
    ||| folds_to(u, "inf"@)
    ||| folds_to(u, "infinity"@)
    ||| folds_to(u, "nan"@)
    ||| mantissa(u)
    ||| exists|k: int| #[trigger] splits_at_exponent(u, k)
}

/// Whether `v[from..to]` is made of digits.
fn all_digits(v: &Vec<char>, from: usize, to: usize) -> (r: bool)
    requires
        from <= to <= v@.len(),
    ensures
        r == digits(v@.subrange(from as int, to as int)),
{
    let ghost part = v@.subrange(from as int, to as int);
    let mut i: usize = from;
    while i < to
        invariant
            from <= i <= to <= v@.len(),
            part == v@.subrange(from as int, to as int),
            forall|k: int| 0 <= k < i - from ==> is_digit(#[trigger] part[k]),
        decreases to - i,
    {
        let c = v[i];
        if !('0' <= c && c <= '9') {
            assert(!is_digit(part[i - from]));
            return false;
        }
        i = i + 1;
    }
    true
}

/// Whether `v[from..to]` is a mantissa.
fn is_mantissa(v: &Vec<char>, from: usize, to: usize) -> (r: bool)
    requires
        from <= to <= v@.len(),
    ensures
        r == mantissa(v@.subrange(from as int, to as int)),
{
    let ghost part = v@.subrange(from as int, to as int);
    let mut p: usize = from;
    while p < to && v[p] != '.'
        invariant
            from <= p <= to <= v@.len(),
            part == v@.subrange(from as int, to as int),
            forall|k: int| 0 <= k < p - from ==> part[k] != '.',
        decreases to - p,
    {
        p = p + 1;
    }
    if p == to {
        assert(forall|k: int| !splits_at_point(part, k));
        return from < to && all_digits(v, from, to);
    }
    assert(part[p - from] == '.');
    assert(!is_digit(part[p - from]));
    assert(!digits(part));
    assert(part.take(p - from) == v@.subrange(from as int, p as int));
    assert(part.skip(p - from + 1) == v@.subrange(p + 1, to as int));
    let r = to - from > 1 && all_digits(v, from, p) && all_digits(v, p + 1, to);
    proof {
        if r {
            assert(splits_at_point(part, p - from));
        } else if mantissa(part) {
            let k = choose|k: int| #[trigger] splits_at_point(part, k);
            if k < p - from {
            } else if k > p - from {
                assert(is_digit(part.take(k)[p - from]));
            }
        }
    }
    r
}

/// Whether `v[from..to]` is an exponent: digits after an optional sign.
fn is_exponent(v: &Vec<char>, from: usize, to: usize) -> (r: bool)
    requires
        from <= to <= v@.len(),
    ensures
        r == ({
            let u = unsigned_part(v@.subrange(from as int, to as int));
            u.len() > 0 && digits(u)
        }),
{
    let ghost part = v@.subrange(from as int, to as int);
    if from < to && (v[from] == '+' || v[from] == '-') {
        assert(part.drop_first() == v@.subrange(from + 1, to as int));
        from + 1 < to && all_digits(v, from + 1, to)
    } else {
        from < to && all_digits(v, from, to)
    }
}

/// Whether `v[from..]` is the word `w`, in any case.
fn is_word(v: &Vec<char>, from: usize, w: &str) -> (r: bool)
    requires
        from <= v@.len(),
    ensures
        r == folds_to(v@.skip(from as int), w@),
{
    let x = chars_of(w);
    let ghost part = v@.skip(from as int).map_values(|c: char| ascii_lower(c));
    let n: usize = v.len();
    if n - from != x.len() {
        return false;
    }
    let mut i: usize = 0;
    while i < x.len()
        invariant
            i <= x@.len(),
            x@ == w@,
            from + x@.len() == v@.len(),
            n == v@.len(),
            part == v@.skip(from as int).map_values(|c: char| ascii_lower(c)),
            forall|k: int| 0 <= k < i ==> part[k] == w@[k],
        decreases x@.len() - i,
    {
        let c = v[from + i];
        let d: char = if 'A' <= c && c <= 'Z' {
            (c as u8 + 32) as char
        } else {
            c
        };
        assert(part[i as int] == d);
        if d != x[i] {
            return false;
        }
        i = i + 1;
    }
    assert(part =~= w@);
    true
}

proof fn lemma_mantissa_has_no_mark(s: Seq<char>, i: int)
    requires
        mantissa(s),
        0 <= i < s.len(),
    ensures
        s[i] != 'e' && s[i] != 'E',
{
    if digits(s) {
        assert(is_digit(s[i]));
    } else {
        let k = choose|k: int| #[trigger] splits_at_point(s, k);
        if i < k {
            assert(is_digit(s.take(k)[i]));
        } else if i > k {
            assert(is_digit(s.skip(k + 1)[i - k - 1]));
        }
    }
}

/// Whether a text writes a floating-point number, as `str::parse` reads one.
pub fn is_float_literal(s: &str) -> (r: bool)
    ensures
        r == float_literal(s@),
{
    let v = chars_of(s);
    let from: usize = if v.len() > 0 && (v[0] == '+' || v[0] == '-') {
        1
    } else {
        0
    };
    let ghost u = unsigned_part(s@);
    assert(v@.skip(from as int) =~= u);
    if is_word(&v, from, "inf") || is_word(&v, from, "infinity") || is_word(&v, from, "nan") {
        return true;
    }
    let mut e: usize = from;
    while e < v.len() && v[e] != 'e' && v[e] != 'E'
        invariant
            from <= e <= v@.len(),
            v@.skip(from as int) == u,
            forall|k: int| 0 <= k < e - from ==> u[k] != 'e' && u[k] != 'E',
        decreases v@.len() - e,
    {
        e = e + 1;
    }
    if e == v.len() {
        assert(v@.subrange(from as int, e as int) == u);
        assert(forall|k: int| !splits_at_exponent(u, k));
        return is_mantissa(&v, from, e);
    }
    assert(u[e - from] == v@[e as int]);
    assert(v@.subrange(from as int, e as int) == u.take(e - from));
    assert(v@.subrange(e + 1, v@.len() as int) == u.skip(e - from + 1));
    let r = is_mantissa(&v, from, e) && is_exponent(&v, e + 1, v.len());
    proof {
        if mantissa(u) {
            lemma_mantissa_has_no_mark(u, e - from);
        }
        if r {
            assert(splits_at_exponent(u, e - from));
        } else if exists|k: int| #[trigger] splits_at_exponent(u, k) {
            let k = choose|k: int| #[trigger] splits_at_exponent(u, k);
            if k > e - from {
                lemma_mantissa_has_no_mark(u.take(k), e - from);
            }
        }
    }
    r
}

/// Whether a character may stand in a number: a digit, a letter, a point or a sign.
pub open spec fn number_char(c: char) -> bool {
    is_digit(c) || ('a' <= c <= 'z') || ('A' <= c <= 'Z') || c == '.' || c == '+' || c == '-'
}

proof fn lemma_unsigned_part(s: Seq<char>)
    requires
        forall|i: int| 0 <= i < unsigned_part(s).len() ==> number_char(#[trigger] unsigned_part(s)[i]),
    ensures
        forall|i: int| 0 <= i < s.len() ==> number_char(#[trigger] s[i]),
{
    let u = unsigned_part(s);
    assert forall|i: int| 0 <= i < s.len() implies number_char(#[trigger] s[i]) by {
        if u.len() == s.len() {
            assert(u[i] == s[i]);
        } else if i > 0 {
            assert(u[i - 1] == s[i]);
        }
    }
}

proof fn lemma_mantissa_chars(s: Seq<char>)
    requires
        mantissa(s),
    ensures
        forall|i: int| 0 <= i < s.len() ==> number_char(#[trigger] s[i]),
{
    if !(s.len() > 0 && digits(s)) {
        let k = choose|k: int| #[trigger] splits_at_point(s, k);
        assert forall|i: int| 0 <= i < s.len() implies number_char(#[trigger] s[i]) by {
            if i < k {
                assert(s.take(k)[i] == s[i]);
            } else if i > k {
                assert(s.skip(k + 1)[i - k - 1] == s[i]);
            }
        }
    }
}

proof fn lemma_word_chars(s: Seq<char>, w: Seq<char>)
    requires
        folds_to(s, w),
        forall|i: int| 0 <= i < w.len() ==> 'a' <= #[trigger] w[i] <= 'z',
    ensures
        forall|i: int| 0 <= i < s.len() ==> number_char(#[trigger] s[i]),
{
    let m = s.map_values(|c: char| ascii_lower(c));
    assert forall|i: int| 0 <= i < s.len() implies number_char(#[trigger] s[i]) by {
        assert(m[i] == w[i]);
        assert(ascii_lower(s[i]) == w[i]);
    }
}

/// A text that writes a number is made of digits, letters, points and signs.
pub proof fn lemma_number_chars(s: Seq<char>)
    requires
        signed_of(s) is Some || float_literal(s) || s == "true"@ || s == "false"@,
    ensures
        forall|i: int| 0 <= i < s.len() ==> number_char(#[trigger] s[i]),
{
    reveal_strlit("true");
    reveal_strlit("false");
    reveal_strlit("inf");
    reveal_strlit("infinity");
    reveal_strlit("nan");
    if signed_of(s) is Some {
        let u = unsigned_part(s);
        assert forall|i: int| 0 <= i < u.len() implies number_char(#[trigger] u[i]) by {
            assert(digits(u));
        }
        lemma_unsigned_part(s);
    } else if float_literal(s) {
        let u = unsigned_part(s);
        if folds_to(u, "inf"@) {
            lemma_word_chars(u, "inf"@);
        } else if folds_to(u, "infinity"@) {
            lemma_word_chars(u, "infinity"@);
        } else if folds_to(u, "nan"@) {
            lemma_word_chars(u, "nan"@);
        } else if mantissa(u) {
            lemma_mantissa_chars(u);
        } else {
            let k = choose|k: int| #[trigger] splits_at_exponent(u, k);
            let e = u.skip(k + 1);
            lemma_mantissa_chars(u.take(k));
            assert forall|i: int| 0 <= i < unsigned_part(e).len() implies number_char(
                #[trigger] unsigned_part(e)[i],
            ) by {}
            lemma_unsigned_part(e);
            assert forall|i: int| 0 <= i < u.len() implies number_char(#[trigger] u[i]) by {
                if i < k {
                    assert(u.take(k)[i] == u[i]);
                } else if i > k {
                    assert(e[i - k - 1] == u[i]);
                }
            }
        }
        lemma_unsigned_part(s);
    }
}

/// The decimal text of a number is made of digits, and they write the number.
pub proof fn lemma_dec(n: nat)
    ensures
        dec(n).len() > 0,
        digits(dec(n)),
        digits_value(dec(n)) == n,
    decreases n,
{
    let d = dec(n);
    if n >= 10 {
        lemma_dec(n / 10);
        assert(d.drop_last() =~= dec(n / 10));
        assert forall|i: int| 0 <= i < d.len() implies is_digit(#[trigger] d[i]) by {
            if i < d.len() - 1 {
                assert(is_digit(dec(n / 10)[i]));
            }
        }
        assert(digits_value(d) == digits_value(dec(n / 10)) * 10 + n % 10);
    } else {
        assert(d.drop_last() =~= Seq::<char>::empty());
        assert(digits_value(Seq::<char>::empty()) == 0);
    }
}

/// A number that is written in decimal is read back as it was.
pub proof fn numbers_are_read_back(n: int)
    requires
        i64::MIN <= n <= i64::MAX,
    ensures
        signed_of(dec_int(n)) == Some(n),
{
    if n < 0 {
        let d = dec((-n) as nat);
        lemma_dec((-n) as nat);
        assert((seq!['-'] + d).drop_first() =~= d);
    } else {
        lemma_dec(n as nat);
        let d = dec(n as nat);
        assert(is_digit(d[0]));
    }
}

/// So is one without a sign, where it is not too large.
pub proof fn naturals_are_read_back(n: nat, max: nat)
    ensures
        n <= max ==> unsigned_of(dec(n), max) == Some(n),
        n > max ==> unsigned_of(dec(n), max) is None,
{
    lemma_dec(n);
    let d = dec(n);
    assert(is_digit(d[0]));
}

} // verus!
