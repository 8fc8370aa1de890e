//! JSON values: what they are, how they are read and written, and what can be
//! asked of them.

use vstd::prelude::*;
use vstd::string::*;
use vstd::arithmetic::power2::{lemma_pow2_adds, lemma_pow2_pos, lemma2_to64, pow2};
use crate::numeral::{dec, dec_int};
use crate::strmap::{each, find, lemma_each_find, lemma_each_put, lemma_each_without, lemma_put_commutes, lemma_put_sorted, lemma_same_names, lemma_without_at, pairs, place_of, put, sorted_keys, without};
use crate::text::{lex_lt, same, texts};

verus! {

/// What a JSON number is: a whole number that fits 64 bits, or a floating-point
/// number given by its bits.
pub enum NumV {
    Pos(u64),
    Neg(i64),
    Float(u64),
}

/// What a JSON value is. The members of an object stand in the order of their
/// names.
#[verifier::ext_equal]
pub enum JsonV {
    Null,
    Bool(bool),
    Num(NumV),
    Str(Seq<char>),
    Arr(Seq<JsonV>),
    Obj(Seq<(Seq<char>, JsonV)>),
}

/// The members of an object.
pub type Members = Seq<(Seq<char>, JsonV)>;

/// No members.
pub open spec fn no_members() -> Members {
    Seq::empty()
}

impl JsonV {
    /// The member of an object.
    pub open spec fn get(self, k: Seq<char>) -> Option<JsonV> {
        match self {
            JsonV::Obj(o) => find(o, k),
            _ => None,
        }
    }

    /// The text of a string.
    pub open spec fn text(self) -> Option<Seq<char>> {
        match self {
            JsonV::Str(s) => Some(s),
            _ => None,
        }
    }

    /// The elements of an array.
    pub open spec fn elements(self) -> Option<Seq<JsonV>> {
        match self {
            JsonV::Arr(a) => Some(a),
            _ => None,
        }
    }

    /// The members of an object.
    pub open spec fn members(self) -> Option<Members> {
        match self {
            JsonV::Obj(o) => Some(o),
            _ => None,
        }
    }

    /// The truth value.
    pub open spec fn boolean(self) -> Option<bool> {
        match self {
            JsonV::Bool(b) => Some(b),
            _ => None,
        }
    }

    /// The whole number, where it fits a signed 64-bit number.
    pub open spec fn whole(self) -> Option<int> {
        match self {
            JsonV::Num(NumV::Pos(n)) => if n <= i64::MAX {
                Some(n as int)
            } else {
                None
            },
            JsonV::Num(NumV::Neg(n)) => Some(n as int),
            _ => None,
        }
    }

    /// The whole number, where it fits an unsigned 64-bit number.
    pub open spec fn natural(self) -> Option<int> {
        match self {
            JsonV::Num(NumV::Pos(n)) => Some(n as int),
            _ => None,
        }
    }

    /// The text of the member `k`, where it is a string.
    pub open spec fn text_at(self, k: Seq<char>) -> Option<Seq<char>> {
        match self.get(k) {
            Some(v) => v.text(),
            None => None,
        }
    }
}

/// Whether the bits of a floating-point number are those of a finite one.
pub open spec fn float_finite(bits: u64) -> bool {
    (bits / 0x10_0000_0000_0000) % 0x800 != 0x7ff
}

/// The text in which a floating-point number with these bits is written.
pub uninterp spec fn float_text(bits: u64) -> Seq<char>;

/// Whether a character may stand in the text of a floating-point number: a digit, a
/// point, a sign, or the letter before an exponent.
pub open spec fn float_char(c: char) -> bool {
    ('0' <= c <= '9') || c == '.' || c == '+' || c == '-' || c == 'e'
}

/// Whether a text holds nothing but such characters.
pub open spec fn float_chars(s: Seq<char>) -> bool {
    forall|i: int| 0 <= i < s.len() ==> float_char(#[trigger] s[i])
}

/// Whether a value, where it is a floating-point number, is written with such
/// characters. It holds of every value that is read or written.
pub open spec fn plainly_written(v: JsonV) -> bool {
    v matches JsonV::Num(NumV::Float(b)) ==> float_chars(float_text(b))
}

/// Whether the floating-point number is negative (or the negative zero).
pub open spec fn float_negative(bits: u64) -> bool {
    bits >= 0x8000_0000_0000_0000
}

/// The significand: the number is the significand times a power of two.
pub open spec fn float_significand(bits: u64) -> nat {
    let e = (bits / 0x10_0000_0000_0000) % 0x800;
    let m = bits % 0x10_0000_0000_0000;
    if e == 0 {
        m as nat
    } else {
        (m + 0x10_0000_0000_0000) as nat
    }
}

/// The exponent of the power of two.
pub open spec fn float_exponent(bits: u64) -> int {
    let e = (bits / 0x10_0000_0000_0000) % 0x800;
    (if e == 0 {
        1
    } else {
        e as int
    }) - 1075
}

/// The magnitude of the number, without its fraction.
pub open spec fn float_magnitude(bits: u64) -> nat {
    let x = float_exponent(bits);
    if x >= 0 {
        float_significand(bits) * pow2(x as nat)
    } else {
        float_significand(bits) / pow2((-x) as nat)
    }
}

/// Whether the number has no fraction.
pub open spec fn float_integral(bits: u64) -> bool {
    let x = float_exponent(bits);
    x >= 0 || float_significand(bits) % pow2((-x) as nat) == 0
}

/// The whole part of the number, held to the range of a signed 64-bit number.
pub open spec fn float_trunc(bits: u64) -> int {
    let m = float_magnitude(bits);
    if float_negative(bits) {
        if m > 0x8000_0000_0000_0000 {
            i64::MIN as int
        } else {
            -(m as int)
        }
    } else if m > i64::MAX {
        i64::MAX as int
    } else {
        m as int
    }
}

/// Whether two floating-point numbers are equal: the same bits, or both zero.
pub open spec fn float_eq(a: u64, b: u64) -> bool {
    a == b || (a % 0x8000_0000_0000_0000 == 0 && b % 0x8000_0000_0000_0000 == 0)
}

/// Splits the bits of a floating-point number: its magnitude without the fraction,
/// held to 2^63, and whether it has no fraction.
fn split_float(bits: u64) -> (r: (u64, bool))
    ensures
        r.0 == (if float_magnitude(bits) > 0x8000_0000_0000_0000 {
            0x8000_0000_0000_0000
        } else {
            float_magnitude(bits) as u64
        }),
        r.1 == float_integral(bits),
{
    let e: u64 = (bits / 0x10_0000_0000_0000) % 0x800;
    let m: u64 = bits % 0x10_0000_0000_0000;
    let sig: u64 = if e == 0 {
        m
    } else {
        m + 0x10_0000_0000_0000
    };
    let biased: u64 = if e == 0 {
        1
    } else {
        e
    };
    if biased >= 1075 {
        let mut x: u64 = biased - 1075;
        let mut v: u64 = sig;
        let ghost full = (biased - 1075) as nat;
        proof {
            lemma2_to64();
            let p = pow2(0);
            assert(sig as nat * p == sig) by (nonlinear_arith)
                requires
                    p == 1,
            ;
        }
        while x > 0 && v < 0x8000_0000_0000_0000
            invariant
                x <= full,
                full == float_exponent(bits),
                sig == float_significand(bits),
                v <= 0x8000_0000_0000_0000,
                v as nat == sig as nat * pow2((full - x) as nat),
            decreases x,
        {
            if v >= 0x4000_0000_0000_0000 {
                proof {
                    lemma_at_least_double(sig as nat, full, (full - x) as nat, 0x4000_0000_0000_0000);
                }
                return (0x8000_0000_0000_0000, true);
            }
            proof {
                lemma_next_power(sig as nat, (full - x) as nat);
            }
            v = v * 2;
            x = x - 1;
        }
        proof {
            lemma_grows(sig as nat, full, (full - x) as nat);
        }
        (v, true)
    } else {
        let mut x: u64 = 1075 - biased;
        let mut v: u64 = sig;
        let mut whole: bool = true;
        let ghost full = (1075 - biased) as nat;
        proof {
            lemma2_to64();
            let p = pow2(0) as int;
            let n = sig as int;
            assert(n / p == n && n % p == 0) by (nonlinear_arith)
                requires
                    p == 1,
            ;
        }
        while x > 0
            invariant
                x <= full,
                full == -float_exponent(bits),
                sig == float_significand(bits),
                v <= 0x20_0000_0000_0000,
                v as nat == sig as nat / pow2((full - x) as nat),
                whole == (sig as nat % pow2((full - x) as nat) == 0),
            decreases x,
        {
            proof {
                lemma_next_half(sig as nat, (full - x) as nat);
            }
            whole = whole && v % 2 == 0;
            v = v / 2;
            x = x - 1;
        }
        (v, whole)
    }
}

proof fn lemma_next_power(s: nat, k: nat)
    ensures
        s * pow2(k + 1) == s * pow2(k) * 2,
{
    lemma_pow2_adds(k, 1);
    lemma2_to64();
    assert(s * (pow2(k) * 2) == s * pow2(k) * 2) by (nonlinear_arith);
}

proof fn lemma_grows(s: nat, full: nat, k: nat)
    requires
        k <= full,
    ensures
        s * pow2(k) <= s * pow2(full),
    decreases full - k,
{
    if k < full {
        lemma_next_power(s, k);
        assert(s * pow2(k) >= 0) by (nonlinear_arith);
        lemma_grows(s, full, k + 1);
    }
}

proof fn lemma_at_least_double(s: nat, full: nat, k: nat, m: nat)
    requires
        k < full,
        s * pow2(k) >= m,
    ensures
        s * pow2(full) >= 2 * m,
{
    lemma_next_power(s, k);
    lemma_grows(s, full, k + 1);
}

proof fn lemma_next_half(s: nat, k: nat)
    ensures
        s / pow2(k + 1) == s / pow2(k) / 2,
        (s % pow2(k + 1) == 0) == (s % pow2(k) == 0 && (s / pow2(k)) % 2 == 0),
{
    lemma_pow2_adds(k, 1);
    lemma_pow2_pos(k);
    lemma2_to64();
    let p = pow2(k) as int;
    let n = s as int;
    vstd::arithmetic::div_mod::lemma_div_denominator(n, p, 2);
    vstd::arithmetic::div_mod::lemma_mod_breakdown(n, p, 2);
    assert(n % (p * 2) == p * ((n / p) % 2) + n % p);
    assert(0 <= n % p < p) by (nonlinear_arith)
        requires
            p > 0,
    ;
    let q = (n / p) % 2;
    assert(q == 0 || q == 1);
    assert(p * q == (if q == 0 { 0 } else { p })) by (nonlinear_arith)
        requires
            q == 0 || q == 1,
    ;
}

/// A finite floating-point number, with the text in which it is written.
pub struct Float {
    bits: u64,
    text: String,
}

impl Float {
    /// The bits of the number.
    pub closed spec fn view(&self) -> u64 {
        self.bits
    }

    #[verifier::type_invariant]
    spec fn inv(self) -> bool {
        float_finite(self.bits) && self.text@ == float_text(self.bits) && float_chars(self.text@)
    }

    /// The text of the number.
    pub fn text(&self) -> (r: &String)
        ensures
            r@ == float_text(self@),
    {
        proof {
            use_type_invariant(self);
        }
        &self.text
    }

    /// The bits of the number.
    pub fn bits(&self) -> (r: u64)
        ensures
            r == self@,
    {
        self.bits
    }

    /// A copy.
    pub fn copy(&self) -> (r: Float)
        ensures
            r@ == self@,
    {
        proof {
            use_type_invariant(self);
        }
        Float { bits: self.bits, text: self.text.clone() }
    }

    /// The whole part of the number, held to the range of a signed 64-bit number.
    pub fn trunc(&self) -> (r: i64)
        ensures
            r == float_trunc(self@),
    {
        let (m, _whole) = split_float(self.bits);
        if self.bits >= 0x8000_0000_0000_0000 {
            if m == 0x8000_0000_0000_0000 {
                i64::MIN
            } else {
                -(m as i64)
            }
        } else if m > i64::MAX as u64 {
            i64::MAX
        } else {
            m as i64
        }
    }

    /// Whether the number has no fraction and a magnitude below `limit`.
    pub fn is_whole_below(&self, limit: u64) -> (r: bool)
        requires
            limit < 0x8000_0000_0000_0000,
        ensures
            r == (float_integral(self@) && float_magnitude(self@) < limit),
    {
        let (m, whole) = split_float(self.bits);
        whole && m < limit
    }
}

/// A JSON number. A whole number that is not negative is the same number in either form.
pub enum Number {
    PosInt(u64),
    NegInt(i64),
    Float(Float),
}

impl Number {
    /// The number.
    pub open spec fn view(&self) -> NumV {
        match self {
            Number::PosInt(n) => NumV::Pos(*n),
            Number::NegInt(n) => number_of(*n as int),
            Number::Float(f) => NumV::Float(f@),
        }
    }

    /// A copy.
    pub fn copy(&self) -> (r: Number)
        ensures
            r@ == self@,
    {
        match self {
            Number::PosInt(n) => Number::PosInt(*n),
            Number::NegInt(n) => Number::NegInt(*n),
            Number::Float(f) => Number::Float(f.copy()),
        }
    }
}

/// A JSON value.
pub enum Json {
    Null,
    Bool(bool),
    Number(Number),
    Str(String),
    Array(Vec<Json>),
    Object(Object),
}

/// A JSON object: its members in the order of their names.
pub struct Object {
    entries: Vec<(String, Json)>,
}

/// The values of a list of JSON values.
pub open spec fn values(a: Seq<Json>) -> Seq<JsonV>
    decreases a,
{
    Seq::new(
        a.len(),
        |i: int|
            if 0 <= i < a.len() {
                a[i].view()
            } else {
                JsonV::Null
            },
    )
}

impl Json {
    /// The value.
    pub open spec fn view(&self) -> JsonV
        decreases self,
    {
        match self {
            Json::Null => JsonV::Null,
            Json::Bool(b) => JsonV::Bool(*b),
            Json::Number(n) => JsonV::Num(n@),
            Json::Str(s) => JsonV::Str(s@),
            Json::Array(a) => JsonV::Arr(values(a@)),
            Json::Object(o) => JsonV::Obj(o.view()),
        }
    }
}

/// The values of a list, one by one.
pub proof fn lemma_values(a: Seq<Json>)
    ensures
        values(a).len() == a.len(),
        forall|i: int| 0 <= i < a.len() ==> #[trigger] values(a)[i] == a[i]@,
{
}

impl Object {
    /// The members.
    pub closed spec fn view(&self) -> Members
        decreases self,
    {
        Seq::new(
            self.entries@.len(),
            |i: int|
                if 0 <= i < self.entries@.len() {
                    (self.entries@[i].0@, self.entries@[i].1.view())
                } else {
                    (Seq::empty(), JsonV::Null)
                },
        )
    }

    #[verifier::type_invariant]
    spec fn inv(self) -> bool {
        sorted_keys(pairs(self.entries@))
    }

    proof fn lemma_view(self)
        ensures
            self@ == each(pairs(self.entries@), |j: Json| j@),
            sorted_keys(pairs(self.entries@)) ==> sorted_keys(self@),
    {
        assert(self@ =~= each(pairs(self.entries@), |j: Json| j@));
        if sorted_keys(pairs(self.entries@)) {
            let p = pairs(self.entries@);
            assert forall|i: int, j: int| 0 <= i < j < self@.len() implies lex_lt(#[trigger] self@[i].0, #[trigger] self@[j].0) by {
                assert(p[i].0 == self@[i].0 && p[j].0 == self@[j].0);
            }
        }
    }

    /// An object without members.
    pub fn new() -> (r: Object)
        ensures
            r@ == no_members(),
    {
        let r = Object { entries: Vec::new() };
        assert(r@ =~= no_members());
        r
    }

    /// The number of members.
    pub fn len(&self) -> (r: usize)
        ensures
            r == self@.len(),
    {
        self.entries.len()
    }

    /// The name of the member at a position.
    pub fn key_at(&self, i: usize) -> (r: &String)
        requires
            i < self@.len(),
        ensures
            r@ == self@[i as int].0,
    {
        &self.entries[i].0
    }

    /// The value of the member at a position.
    pub fn value_at(&self, i: usize) -> (r: &Json)
        requires
            i < self@.len(),
        ensures
            r@ == self@[i as int].1,
    {
        &self.entries[i].1
    }

    /// The value of a member.
    pub fn get(&self, key: &str) -> (r: Option<&Json>)
        ensures
            (match r {
                Some(v) => find(self@, key@) == Some(v@),
                None => find(self@, key@) is None,
            }),
    {
        proof {
            use_type_invariant(self);
            self.lemma_view();
            lemma_each_find(pairs(self.entries@), |j: Json| j@, key@);
        }
        let (found, i) = place_of(&self.entries, key);
        if found {
            Some(&self.entries[i].1)
        } else {
            None
        }
    }

    /// Sets a member.
    pub fn set(&mut self, key: &str, value: Json)
        ensures
            final(self)@ == put(old(self)@, key@, value@),
    {
        proof {
            use_type_invariant(&*self);
            self.lemma_view();
        }
        let mut entries: Vec<(String, Json)> = Vec::new();
        assert(pairs(entries@) =~= Seq::<(Seq<char>, Json)>::empty());
        std::mem::swap(&mut entries, &mut self.entries);
        let ghost p = pairs(entries@);
        let (found, i) = place_of(&entries, key);
        proof {
            lemma_put_sorted(p, key@, value);
            lemma_each_put(p, |j: Json| j@, key@, value);
        }
        if found {
            entries.set(i, (key.to_owned(), value));
            assert(pairs(entries@) =~= p.update(i as int, (key@, value)));
        } else {
            entries.insert(i, (key.to_owned(), value));
            assert(pairs(entries@) =~= p.insert(i as int, (key@, value)));
        }
        self.entries = entries;
        proof {
            self.lemma_view();
        }
    }

    /// A copy.
    pub fn copy(&self) -> (r: Object)
        ensures
            r@ == self@,
        decreases self,
    {
        proof {
            use_type_invariant(self);
        }
        let mut out: Vec<(String, Json)> = Vec::new();
        for i in 0..self.entries.len()
            invariant
                out@.len() == i,
                forall|k: int|
                    0 <= k < i ==> (#[trigger] out@[k]).0@ == self.entries@[k].0@ && out@[k].1@
                        == self.entries@[k].1@,
        {
            out.push((self.entries[i].0.clone(), self.entries[i].1.copy()));
        }
        proof {
            let p = pairs(self.entries@);
            let q = pairs(out@);
            assert forall|i: int, j: int| 0 <= i < j < q.len() implies lex_lt(#[trigger] q[i].0, #[trigger] q[j].0) by {
                assert(p[i].0 == q[i].0 && p[j].0 == q[j].0);
            }
        }
        let r = Object { entries: out };
        assert(r@ =~= self@);
        r
    }
}

impl Json {
    /// A copy.
    pub fn copy(&self) -> (r: Json)
        ensures
            r@ == self@,
        decreases self,
    {
        match self {
            Json::Null => Json::Null,
            Json::Bool(b) => Json::Bool(*b),
            Json::Number(n) => Json::Number(n.copy()),
            Json::Str(s) => Json::Str(s.clone()),
            Json::Array(a) => {
                let mut out: Vec<Json> = Vec::new();
                for i in 0..a.len()
                    invariant
                        out@.len() == i,
                        forall|k: int| 0 <= k < i ==> #[trigger] out@[k]@ == a@[k]@,
                        *self == Json::Array(*a),
                {
                    assert(decreases_to!(self => self->Array_0));
                    assert(decreases_to!(a => a@));
                    assert(decreases_to!(a@ => a@[i as int]));
                    out.push(a[i].copy());
                }
                proof {
                    lemma_values(out@);
                    lemma_values(a@);
                }
                assert(values(out@) =~= values(a@));
                Json::Array(out)
            },
            Json::Object(o) => Json::Object(o.copy()),
        }
    }

    /// A string value.
    pub fn str(s: &str) -> (r: Json)
        ensures
            r@ == JsonV::Str(s@),
    {
        Json::Str(s.to_owned())
    }

    /// An unsigned number.
    pub fn num(n: u64) -> (r: Json)
        ensures
            r@ == JsonV::Num(NumV::Pos(n)),
    {
        Json::Number(Number::PosInt(n))
    }

    /// The optional text as a string, or null.
    pub fn opt_str(o: &Option<String>) -> (r: Json)
        ensures
            r@ == opt_str_v(crate::text::opt_text(*o)),
    {
        match o {
            Some(s) => Json::Str(s.clone()),
            None => Json::Null,
        }
    }

    /// Whether the value is null.
    pub fn is_null(&self) -> (r: bool)
        ensures
            r == (self@ is Null),
    {
        match self {
            Json::Null => true,
            _ => false,
        }
    }

    /// The member of an object.
    pub fn get(&self, key: &str) -> (r: Option<&Json>)
        ensures
            (match r {
                Some(v) => self@.get(key@) == Some(v@),
                None => self@.get(key@) is None,
            }),
    {
        match self {
            Json::Object(o) => o.get(key),
            _ => None,
        }
    }

    /// The text of a string.
    pub fn as_str(&self) -> (r: Option<&String>)
        ensures
            (match r {
                Some(s) => self@.text() == Some(s@),
                None => self@.text() is None,
            }),
    {
        match self {
            Json::Str(s) => Some(s),
            _ => None,
        }
    }

    /// The elements of an array.
    pub fn as_array(&self) -> (r: Option<&Vec<Json>>)
        ensures
            (match r {
                Some(a) => self@.elements() == Some(values(a@)),
                None => self@.elements() is None,
            }),
    {
        match self {
            Json::Array(a) => Some(a),
            _ => None,
        }
    }

    /// The members of an object.
    pub fn as_object(&self) -> (r: Option<&Object>)
        ensures
            (match r {
                Some(o) => self@.members() == Some(o@),
                None => self@.members() is None,
            }),
    {
        match self {
            Json::Object(o) => Some(o),
            _ => None,
        }
    }

    /// The truth value.
    pub fn as_bool(&self) -> (r: Option<bool>)
        ensures
            r == self@.boolean(),
    {
        match self {
            Json::Bool(b) => Some(*b),
            _ => None,
        }
    }

    /// The whole number, where it fits.
    pub fn as_i64(&self) -> (r: Option<i64>)
        ensures
            (match r {
                Some(n) => self@.whole() == Some(n as int),
                None => self@.whole() is None,
            }),
    {
        match self {
            Json::Number(Number::PosInt(n)) => if *n <= i64::MAX as u64 {
                Some(*n as i64)
            } else {
                None
            },
            Json::Number(Number::NegInt(n)) => Some(*n),
            _ => None,
        }
    }

    /// The whole number, where it is not negative.
    pub fn as_u64(&self) -> (r: Option<u64>)
        ensures
            (match r {
                Some(n) => self@.natural() == Some(n as int),
                None => self@.natural() is None,
            }),
    {
        match self {
            Json::Number(Number::PosInt(n)) => Some(*n),
            Json::Number(Number::NegInt(n)) => if *n >= 0 {
                Some(*n as u64)
            } else {
                None
            },
            _ => None,
        }
    }

    /// The text of the member `key`, where it is a string.
    pub fn str_at(&self, key: &str) -> (r: Option<&String>)
        ensures
            (match r {
                Some(s) => self@.text_at(key@) == Some(s@),
                None => self@.text_at(key@) is None,
            }),
    {
        match self.get(key) {
            Some(v) => v.as_str(),
            None => None,
        }
    }
}

/// Texts as JSON strings.
pub open spec fn str_values(v: Seq<Seq<char>>) -> Seq<JsonV> {
    Seq::new(v.len(), |i: int| JsonV::Str(v[i]))
}

/// A JSON array of strings.
pub fn strings(v: &Vec<String>) -> (r: Json)
    ensures
        r@ == JsonV::Arr(str_values(texts(v@))),
{
    let mut out: Vec<Json> = Vec::new();
    for i in 0..v.len()
        invariant
            out@.len() == i,
            forall|k: int| 0 <= k < i ==> #[trigger] out@[k]@ == JsonV::Str(v@[k]@),
    {
        out.push(Json::Str(v[i].clone()));
    }
    proof {
        lemma_values(out@);
    }
    assert(values(out@) =~= str_values(texts(v@)));
    Json::Array(out)
}

/// A copy of a list of JSON values.
pub fn copy_values(v: &Vec<Json>) -> (r: Vec<Json>)
    ensures
        values(r@) == values(v@),
{
    let mut out: Vec<Json> = Vec::new();
    for i in 0..v.len()
        invariant
            out@.len() == i,
            forall|k: int| 0 <= k < i ==> #[trigger] out@[k]@ == v@[k]@,
    {
        out.push(v[i].copy());
    }
    proof {
        lemma_values(out@);
        lemma_values(v@);
    }
    assert(values(out@) =~= values(v@));
    out
}

/// Adds a value to a list.
pub fn push_value(v: &mut Vec<Json>, x: Json)
    ensures
        values(final(v)@) == values(old(v)@).push(x@),
{
    proof {
        lemma_values(v@);
    }
    let ghost before_push = values(v@);
    v.push(x);
    proof {
        lemma_values(v@);
    }
    assert(values(v@) =~= before_push.push(x@));
}

/// The optional text as a string, or null.
pub open spec fn opt_str_v(o: Option<Seq<char>>) -> JsonV {
    match o {
        Some(s) => JsonV::Str(s),
        None => JsonV::Null,
    }
}

/// The optional value, or null.
pub open spec fn opt_json_v(o: Option<JsonV>) -> JsonV {
    match o {
        Some(v) => v,
        None => JsonV::Null,
    }
}

/// Whether two values are equal: the same structure, with floating-point numbers
/// compared as numbers.
pub open spec fn json_eq(a: JsonV, b: JsonV) -> bool
    decreases a,
{
    match (a, b) {
        (JsonV::Null, JsonV::Null) => true,
        (JsonV::Bool(x), JsonV::Bool(y)) => x == y,
        (JsonV::Num(NumV::Pos(x)), JsonV::Num(NumV::Pos(y))) => x == y,
        (JsonV::Num(NumV::Neg(x)), JsonV::Num(NumV::Neg(y))) => x == y,
        (JsonV::Num(NumV::Float(x)), JsonV::Num(NumV::Float(y))) => float_eq(x, y),
        (JsonV::Str(x), JsonV::Str(y)) => x == y,
        (JsonV::Arr(x), JsonV::Arr(y)) => x.len() == y.len() && forall|i: int|
            0 <= i < x.len() ==> json_eq(#[trigger] x[i], y[i]),
        (JsonV::Obj(x), JsonV::Obj(y)) => x.len() == y.len() && forall|i: int|
            0 <= i < x.len() ==> (#[trigger] x[i]).0 == y[i].0 && json_eq(x[i].1, y[i].1),
        _ => false,
    }
}

impl Json {
    /// Whether two values are equal.
    pub fn equals(&self, other: &Json) -> (r: bool)
        ensures
            r == json_eq(self@, other@),
        decreases self,
    {
        match (self, other) {
            (Json::Null, Json::Null) => true,
            (Json::Bool(x), Json::Bool(y)) => *x == *y,
            (Json::Number(Number::PosInt(x)), Json::Number(Number::PosInt(y))) => *x == *y,
            (Json::Number(Number::NegInt(x)), Json::Number(Number::NegInt(y))) => *x == *y,
            (Json::Number(Number::PosInt(x)), Json::Number(Number::NegInt(y))) => *y >= 0 && *x
                == *y as u64,
            (Json::Number(Number::NegInt(x)), Json::Number(Number::PosInt(y))) => *x >= 0 && *x as u64
                == *y,
            (Json::Number(Number::Float(x)), Json::Number(Number::Float(y))) => {
                let a: u64 = x.bits();
                let b: u64 = y.bits();
                a == b || (a % 0x8000_0000_0000_0000 == 0 && b % 0x8000_0000_0000_0000 == 0)
            },
            (Json::Str(x), Json::Str(y)) => *x == *y,
            (Json::Array(x), Json::Array(y)) => {
                proof {
                    lemma_values(x@);
                    lemma_values(y@);
                }
                if x.len() != y.len() {
                    return false;
                }
                for i in 0..x.len()
                    invariant
                        x@.len() == y@.len(),
                        *self == Json::Array(*x),
                        *other == Json::Array(*y),
                        forall|k: int| 0 <= k < i ==> json_eq(#[trigger] x@[k]@, y@[k]@),
                {
                    assert(decreases_to!(self => self->Array_0));
                    assert(decreases_to!(x => x@));
                    assert(decreases_to!(x@ => x@[i as int]));
                    if !x[i].equals(&y[i]) {
                        proof {
                            lemma_values(x@);
                            lemma_values(y@);
                            assert(!json_eq(values(x@)[i as int], values(y@)[i as int]));
                        }
                        return false;
                    }
                }
                assert forall|i: int| 0 <= i < x@.len() implies json_eq(#[trigger] values(x@)[i], values(y@)[i]) by {
                    assert(json_eq(x@[i]@, y@[i]@));
                }
                true
            },
            (Json::Object(x), Json::Object(y)) => x.equals(y),
            _ => false,
        }
    }
}

impl Object {
    /// Whether two objects are equal.
    pub fn equals(&self, other: &Object) -> (r: bool)
        ensures
            r == json_eq(JsonV::Obj(self@), JsonV::Obj(other@)),
        decreases self,
    {
        if self.entries.len() != other.entries.len() {
            return false;
        }
        for i in 0..self.entries.len()
            invariant
                self.entries@.len() == other.entries@.len(),
                forall|k: int|
                    0 <= k < i ==> (#[trigger] self@[k]).0 == other@[k].0 && json_eq(
                        self@[k].1,
                        other@[k].1,
                    ),
        {
            if !same(self.entries[i].0.as_str(), other.entries[i].0.as_str()) {
                assert(self@[i as int].0 != other@[i as int].0);
                return false;
            }
            if !self.entries[i].1.equals(&other.entries[i].1) {
                assert(!json_eq(self@[i as int].1, other@[i as int].1));
                return false;
            }
        }
        true
    }
}

/// A value equals itself.
pub proof fn lemma_json_eq_reflexive(a: JsonV)
    ensures
        json_eq(a, a),
    decreases a,
{
    match a {
        JsonV::Arr(x) => {
            assert forall|i: int| 0 <= i < x.len() implies json_eq(#[trigger] x[i], x[i]) by {
                lemma_json_eq_reflexive(x[i]);
            }
        },
        JsonV::Obj(x) => {
            assert forall|i: int|
                0 <= i < x.len() implies (#[trigger] x[i]).0 == x[i].0 && json_eq(x[i].1, x[i].1) by {
                lemma_json_eq_reflexive(x[i].1);
            }
        },
        _ => {},
    }
}

/// The JSON number that a whole number is.
pub open spec fn number_of(n: int) -> NumV {
    if n >= 0 {
        NumV::Pos(n as u64)
    } else {
        NumV::Neg(n as i64)
    }
}

/// Whether the members of every object in a value stand in the order of their names. It
/// holds of every value, in whatever order its members were set.
pub open spec fn ordered(v: JsonV) -> bool
    decreases v,
{
    match v {
        JsonV::Arr(a) => forall|i: int| 0 <= i < a.len() ==> ordered(#[trigger] a[i]),
        JsonV::Obj(m) => sorted_keys(m) && forall|i: int|
            0 <= i < m.len() ==> ordered((#[trigger] m[i]).1),
        _ => true,
    }
}

/// The whole number that a number is, where it is written as one or is a floating-point
/// number without a fraction and below nine quadrillions.
pub open spec fn whole_value(n: NumV) -> Option<int> {
    match n {
        NumV::Pos(k) => Some(k as int),
        NumV::Neg(k) => if k < 0 {
            Some(k as int)
        } else {
            None
        },
        NumV::Float(b) => if float_integral(b) && float_magnitude(b) < 9_000_000_000_000_000 {
            Some(float_trunc(b))
        } else {
            None
        },
    }
}

/// Whether two values differ in no more than the order of members and in how whole
/// numbers are written (`3` or `3.0`), at any depth.
pub open spec fn alike(a: JsonV, b: JsonV) -> bool
    decreases a,
{
    match (a, b) {
        (JsonV::Num(x), JsonV::Num(y)) => x == y || (whole_value(x) is Some && whole_value(x)
            == whole_value(y)),
        (JsonV::Arr(x), JsonV::Arr(y)) => x.len() == y.len() && forall|i: int|
            0 <= i < x.len() ==> alike(#[trigger] x[i], y[i]),
        (JsonV::Obj(x), JsonV::Obj(y)) => x.len() == y.len() && forall|i: int|
            0 <= i < x.len() ==> match find(y, (#[trigger] x[i]).0) {
                Some(v) => alike(x[i].1, v),
                None => false,
            },
        _ => a == b,
    }
}

/// The canonical form: floating-point numbers that are whole, and below
/// nine quadrillions, are written as whole numbers.
pub open spec fn canon(v: JsonV) -> JsonV
    decreases v,
{
    match v {
        JsonV::Num(NumV::Float(b)) => if float_integral(b) && float_magnitude(b)
            < 9_000_000_000_000_000 {
            JsonV::Num(number_of(float_trunc(b)))
        } else {
            v
        },
        JsonV::Arr(a) => JsonV::Arr(
            Seq::new(
                a.len(),
                |i: int|
                    if 0 <= i < a.len() {
                        canon(a[i])
                    } else {
                        JsonV::Null
                    },
            ),
        ),
        JsonV::Obj(m) => JsonV::Obj(
            Seq::new(
                m.len(),
                |i: int|
                    if 0 <= i < m.len() {
                        (m[i].0, canon(m[i].1))
                    } else {
                        (Seq::empty(), JsonV::Null)
                    },
            ),
        ),
        _ => v,
    }
}

impl Json {
    /// The canonical form.
    pub fn canonical(&self) -> (r: Json)
        ensures
            r@ == canon(self@),
            ordered(self@),
        decreases self,
    {
        match self {
            Json::Number(Number::Float(f)) => if f.is_whole_below(9_000_000_000_000_000) {
                let n = f.trunc();
                if n >= 0 {
                    Json::Number(Number::PosInt(n as u64))
                } else {
                    Json::Number(Number::NegInt(n))
                }
            } else {
                Json::Number(Number::Float(f.copy()))
            },
            Json::Array(a) => {
                let mut out: Vec<Json> = Vec::new();
                for i in 0..a.len()
                    invariant
                        out@.len() == i,
                        forall|k: int|
                            0 <= k < i ==> #[trigger] out@[k]@ == canon(a@[k]@) && ordered(a@[k]@),
                        *self == Json::Array(*a),
                {
                    assert(decreases_to!(self => self->Array_0));
                    assert(decreases_to!(a => a@));
                    assert(decreases_to!(a@ => a@[i as int]));
                    out.push(a[i].canonical());
                }
                proof {
                    lemma_values(out@);
                    lemma_values(a@);
                }
                assert(values(out@) =~= canon(self@)->Arr_0);
                assert forall|i: int| 0 <= i < values(a@).len() implies ordered(
                    #[trigger] values(a@)[i],
                ) by {
                    assert(ordered(a@[i]@) && out@[i]@ == canon(a@[i]@));
                }
                Json::Array(out)
            },
            Json::Object(o) => Json::Object(o.canonical()),
            _ => self.copy(),
        }
    }
}

impl Object {
    /// The canonical form of every member.
    pub fn canonical(&self) -> (r: Object)
        ensures
            JsonV::Obj(r@) == canon(JsonV::Obj(self@)),
            ordered(JsonV::Obj(self@)),
        decreases self,
    {
        proof {
            use_type_invariant(self);
        }
        let mut out: Vec<(String, Json)> = Vec::new();
        for i in 0..self.entries.len()
            invariant
                out@.len() == i,
                forall|k: int|
                    0 <= k < i ==> (#[trigger] out@[k]).0@ == self.entries@[k].0@ && out@[k].1@
                        == canon(self.entries@[k].1@) && ordered(self.entries@[k].1@),
        {
            out.push((self.entries[i].0.clone(), self.entries[i].1.canonical()));
        }
        proof {
            let p = pairs(self.entries@);
            let q = pairs(out@);
            assert forall|i: int, j: int| 0 <= i < j < q.len() implies lex_lt(#[trigger] q[i].0, #[trigger] q[j].0) by {
                assert(p[i].0 == q[i].0 && p[j].0 == q[j].0);
            }
            self.lemma_view();
            assert forall|i: int| 0 <= i < self@.len() implies ordered((#[trigger] self@[i]).1) by {
                assert(out@[i].0@ == self.entries@[i].0@);
            }
        }
        let r = Object { entries: out };
        assert(r@ =~= canon(JsonV::Obj(self@))->Obj_0);
        r
    }

    /// Removes the member at a position.
    pub fn remove_at(&mut self, i: usize)
        requires
            i < old(self)@.len(),
        ensures
            final(self)@ == old(self)@.remove(i as int),
    {
        proof {
            use_type_invariant(&*self);
        }
        let ghost before_view = self@;
        let mut entries: Vec<(String, Json)> = Vec::new();
        assert(pairs(entries@) =~= Seq::<(Seq<char>, Json)>::empty());
        std::mem::swap(&mut entries, &mut self.entries);
        let ghost p = pairs(entries@);
        entries.remove(i);
        proof {
            let q = pairs(entries@);
            assert forall|a: int, b: int| 0 <= a < b < q.len() implies lex_lt(#[trigger] q[a].0, #[trigger] q[b].0) by {
                let a2 = if a >= i { a + 1 } else { a };
                let b2 = if b >= i { b + 1 } else { b };
                assert(q[a] == p[a2] && q[b] == p[b2]);
            }
        }
        self.entries = entries;
        assert(self@ =~= before_view.remove(i as int));
    }

    /// Removes a member, if it is there.
    pub fn remove(&mut self, key: &str)
        ensures
            final(self)@ == without(old(self)@, key@),
    {
        proof {
            use_type_invariant(&*self);
            self.lemma_view();
        }
        let mut entries: Vec<(String, Json)> = Vec::new();
        assert(pairs(entries@) =~= Seq::<(Seq<char>, Json)>::empty());
        std::mem::swap(&mut entries, &mut self.entries);
        let ghost p = pairs(entries@);
        let (found, i) = place_of(&entries, key);
        if found {
            entries.remove(i);
            assert(pairs(entries@) =~= p.remove(i as int));
        }
        proof {
            lemma_without_at(p, key@, if found { i as int } else { p.len() as int });
            lemma_each_without(p, |j: Json| j@, key@);
            let q = pairs(entries@);
            assert forall|a: int, b: int| 0 <= a < b < q.len() implies lex_lt(#[trigger] q[a].0, #[trigger] q[b].0) by {
                let a2 = if found && a >= i { a + 1 } else { a };
                let b2 = if found && b >= i { b + 1 } else { b };
                assert(q[a] == p[a2] && q[b] == p[b2]);
            }
        }
        self.entries = entries;
        proof {
            self.lemma_view();
        }
    }
}

/// The canonical form of a canonical form is itself.
pub proof fn canonical_form_is_stable(v: JsonV)
    ensures
        canon(canon(v)) == canon(v),
    decreases v,
{
    match v {
        JsonV::Arr(a) => {
            let c = canon(v)->Arr_0;
            assert forall|i: int| 0 <= i < a.len() implies canon(#[trigger] c[i]) == c[i] by {
                canonical_form_is_stable(a[i]);
            }
            assert(canon(canon(v))->Arr_0 =~= c);
        },
        JsonV::Obj(m) => {
            let c = canon(v)->Obj_0;
            assert forall|i: int| 0 <= i < m.len() implies canon((#[trigger] c[i]).1) == c[i].1 by {
                canonical_form_is_stable(m[i].1);
            }
            assert(canon(canon(v))->Obj_0 =~= c);
        },
        _ => {},
    }
}

/// Values that differ in no more than the order of members and in how whole numbers are
/// written have the same canonical form.
pub proof fn alike_values_have_one_form(a: JsonV, b: JsonV)
    requires
        ordered(a),
        ordered(b),
        alike(a, b),
    ensures
        canon(a) == canon(b),
    decreases a,
{
    match (a, b) {
        (JsonV::Arr(x), JsonV::Arr(y)) => {
            assert forall|i: int| 0 <= i < x.len() implies canon(#[trigger] x[i]) == canon(y[i]) by {
                alike_values_have_one_form(x[i], y[i]);
            }
            assert(canon(a)->Arr_0 =~= canon(b)->Arr_0);
        },
        (JsonV::Obj(x), JsonV::Obj(y)) => {
            assert forall|i: int| 0 <= i < x.len() implies find(y, (#[trigger] x[i]).0) is Some by {}
            lemma_same_names(x, y);
            assert forall|i: int| 0 <= i < x.len() implies (#[trigger] x[i]).0 == y[i].0 && canon(
                x[i].1,
            ) == canon(y[i].1) by {
                assert(find(y, x[i].0) == Some(y[i].1));
                alike_values_have_one_form(x[i].1, y[i].1);
            }
            assert(canon(a)->Obj_0 =~= canon(b)->Obj_0);
        },
        _ => {},
    }
}

/// The order in which members are set does not matter.
pub proof fn member_order_does_not_matter(
    m: Members,
    a: Seq<char>,
    x: JsonV,
    b: Seq<char>,
    y: JsonV,
)
    requires
        sorted_keys(m),
        a != b,
    ensures
        put(put(m, a, x), b, y) == put(put(m, b, y), a, x),
{
    lemma_put_commutes(m, a, x, b, y);
}

/// `serde_json::Value`, a JSON value of the outside library.
#[verifier::external_type_specification]
#[verifier::external_body]
pub struct ExValue(serde_json::Value);

/// What a `serde_json::Value` holds.
pub uninterp spec fn content(v: serde_json::Value) -> JsonV;

/// What `serde_json` reads a text as: a value, or the message of its error.
pub uninterp spec fn json_parse(text: Seq<char>) -> Result<JsonV, Seq<char>>;

/// The compact text in which `serde_json` writes a string, an array or an object.
pub uninterp spec fn structured_text(v: JsonV) -> Seq<char>;

/// The compact text of a value.
pub open spec fn json_text(v: JsonV) -> Seq<char> {
    match v {
        JsonV::Null => "null"@,
        JsonV::Bool(true) => "true"@,
        JsonV::Bool(false) => "false"@,
        JsonV::Num(NumV::Pos(n)) => dec(n as nat),
        JsonV::Num(NumV::Neg(n)) => dec_int(n as int),
        JsonV::Num(NumV::Float(b)) => float_text(b),
        _ => structured_text(v),
    }
}

/// One layer of a `serde_json::Value`.
enum Parts {
    Null,
    Bool(bool),
    PosInt(u64),
    NegInt(i64),
    Float(u64, String),
    Str(String),
    Array(Vec<serde_json::Value>),
    Object(Vec<(String, serde_json::Value)>),
}

spec fn contents(a: Seq<serde_json::Value>) -> Seq<JsonV> {
    Seq::new(a.len(), |i: int| content(a[i]))
}

spec fn member_contents(o: Seq<(String, serde_json::Value)>) -> Members {
    Seq::new(o.len(), |i: int| (o[i].0@, content(o[i].1)))
}

spec fn parts_content(p: Parts) -> JsonV {
    match p {
        Parts::Null => JsonV::Null,
        Parts::Bool(b) => JsonV::Bool(b),
        Parts::PosInt(n) => JsonV::Num(NumV::Pos(n)),
        Parts::NegInt(n) => JsonV::Num(number_of(n as int)),
        Parts::Float(b, t) => JsonV::Num(NumV::Float(b)),
        Parts::Str(s) => JsonV::Str(s@),
        Parts::Array(a) => JsonV::Arr(contents(a@)),
        Parts::Object(o) => JsonV::Obj(member_contents(o@)),
    }
}

/// Whether the parts are those of a value: a floating-point number is finite and
/// comes with its text, which is made of digits, a point, signs and the letter before an
/// exponent; the members of an object stand in the order of their names.
spec fn parts_valid(p: Parts) -> bool {
    match p {
        Parts::Float(b, t) => float_finite(b) && t@ == float_text(b) && float_chars(t@),
        Parts::Object(o) => sorted_keys(member_contents(o@)),
        _ => true,
    }
}

/// Takes a `serde_json::Value` apart: the variants of its enum, the three kinds of
/// `serde_json::Number` (a float with its bits and its `Display` text, in which there are
/// digits, a point, signs and an `e`), and the entries of a `serde_json::Map`, which a
/// B-tree keeps in the order of the keys.
#[verifier::external_body]
fn take_apart(v: serde_json::Value) -> (p: Parts)
    ensures
        parts_content(p) == content(v),
        (p matches Parts::Float(bits, text) ==> text@ == float_text(bits)),
        parts_valid(p),
{
    match v {
        serde_json::Value::Null => Parts::Null,
        serde_json::Value::Bool(b) => Parts::Bool(b),
        serde_json::Value::Number(n) => match (n.as_u64(), n.as_i64()) {
            (Some(u), _) => Parts::PosInt(u),
            (None, Some(i)) => Parts::NegInt(i),
            _ => Parts::Float(n.as_f64().unwrap_or_default().to_bits(), n.to_string()),
        },
        serde_json::Value::String(s) => Parts::Str(s),
        serde_json::Value::Array(a) => Parts::Array(a),
        serde_json::Value::Object(m) => Parts::Object(m.into_iter().collect()),
    }
}

/// Makes a `serde_json::Value` of its parts: its variants, numbers through the
/// `From` impls of `serde_json`, a float by reading its text back (the text that
/// `serde_json` writes gives back the same float), an object by collecting a
/// `serde_json::Map`.
#[verifier::external_body]
fn put_together(p: Parts) -> (v: serde_json::Value)
    requires
        parts_valid(p),
    ensures
        content(v) == parts_content(p),
{
    match p {
        Parts::Null => serde_json::Value::Null,
        Parts::Bool(b) => serde_json::Value::Bool(b),
        Parts::PosInt(n) => serde_json::Value::from(n),
        Parts::NegInt(n) => serde_json::Value::from(n),
        Parts::Float(_, t) => serde_json::Value::from(t.parse().ok().and_then(serde_json::Number::from_f64)),
        Parts::Str(s) => serde_json::Value::String(s),
        Parts::Array(a) => serde_json::Value::Array(a),
        Parts::Object(o) => serde_json::Value::Object(o.into_iter().collect()),
    }
}

/// `serde_json::from_str`: the value that a text writes, or the error's message.
#[verifier::external_body]
fn read_text(text: &str) -> (r: Result<serde_json::Value, String>)
    ensures
        (match (r, json_parse(text@)) {
            (Ok(v), Ok(j)) => content(v) == j,
            (Err(e), Err(m)) => e@ == m,
            _ => false,
        }),
{
    serde_json::from_str(text).map_err(|e| e.to_string())
}

/// `Display` of `serde_json::Value`: the compact text of a value. Whole numbers are in
/// decimal, floating-point numbers as `serde_json::Number` writes them.
#[verifier::external_body]
fn write_text(v: &serde_json::Value) -> (r: String)
    ensures
        r@ == json_text(content(*v)),
        (content(*v) is Str || content(*v) is Arr || content(*v) is Obj) ==> r@
            == structured_text(content(*v)),
{
    v.to_string()
}

/// Reads an outside value.
fn from_value(v: serde_json::Value) -> (r: Json)
    ensures
        r@ == content(v),
    decreases content(v),
{
    match take_apart(v) {
        Parts::Null => Json::Null,
        Parts::Bool(b) => Json::Bool(b),
        Parts::PosInt(n) => Json::Number(Number::PosInt(n)),
        Parts::NegInt(n) => Json::Number(Number::NegInt(n)),
        Parts::Float(bits, text) => Json::Number(Number::Float(Float { bits, text })),
        Parts::Str(s) => Json::Str(s),
        Parts::Array(a) => {
            let ghost all = a@;
            let mut rest = a;
            let mut out: Vec<Json> = Vec::new();
            while rest.len() > 0
                invariant
                    rest@ == all.take(rest@.len() as int),
                    rest@.len() + out@.len() == all.len(),
                    content(v) == JsonV::Arr(contents(all)),
                    forall|k: int|
                        0 <= k < out@.len() ==> #[trigger] out@[k]@ == content(all[rest@.len() + k]),
                decreases rest@.len(),
            {
                let ghost n = rest@.len() - 1;
                let last = rest.pop().unwrap();
                proof {
                    assert(contents(all)[n] == content(last));
                    assert(decreases_to!(content(v) => content(v)->Arr_0));
                    assert(decreases_to!(contents(all) => contents(all)[n]));
                }
                let j = from_value(last);
                out.insert(0, j);
            }
            proof {
                lemma_values(out@);
            }
            assert(values(out@) =~= contents(all));
            Json::Array(out)
        },
        Parts::Object(o) => {
            let ghost all = o@;
            let mut rest = o;
            let mut out: Vec<(String, Json)> = Vec::new();
            while rest.len() > 0
                invariant
                    rest@ == all.take(rest@.len() as int),
                    rest@.len() + out@.len() == all.len(),
                    content(v) == JsonV::Obj(member_contents(all)),
                    forall|k: int|
                        0 <= k < out@.len() ==> (#[trigger] out@[k]).1@ == content(
                            all[rest@.len() + k].1,
                        ) && out@[k].0@ == all[rest@.len() + k].0@,
                decreases rest@.len(),
            {
                let ghost n = rest@.len() - 1;
                let (name, last) = rest.pop().unwrap();
                proof {
                    assert(member_contents(all)[n].1 == content(last));
                    assert(decreases_to!(content(v) => content(v)->Obj_0));
                    assert(decreases_to!(member_contents(all) => member_contents(all)[n]));
                    assert(decreases_to!(member_contents(all)[n] => member_contents(all)[n].1));
                }
                let j = from_value(last);
                out.insert(0, (name, j));
            }
            proof {
                let p = pairs(out@);
                let q = member_contents(all);
                assert forall|i: int, j: int| 0 <= i < j < p.len() implies lex_lt(#[trigger] p[i].0, #[trigger] p[j].0) by {
                    assert(p[i].0 == q[i].0 && p[j].0 == q[j].0);
                }
            }
            let r = Object { entries: out };
            assert(r@ =~= member_contents(all));
            Json::Object(r)
        },
    }
}

/// Makes an outside value.
fn to_value(j: &Json) -> (r: serde_json::Value)
    ensures
        content(r) == j@,
    decreases j,
{
    match j {
        Json::Null => put_together(Parts::Null),
        Json::Bool(b) => put_together(Parts::Bool(*b)),
        Json::Number(Number::PosInt(n)) => put_together(Parts::PosInt(*n)),
        Json::Number(Number::NegInt(n)) => put_together(Parts::NegInt(*n)),
        Json::Number(Number::Float(f)) => {
            proof {
                use_type_invariant(f);
            }
            put_together(Parts::Float(f.bits, f.text.clone()))
        },
        Json::Str(s) => put_together(Parts::Str(s.clone())),
        Json::Array(a) => {
            let mut out: Vec<serde_json::Value> = Vec::new();
            for i in 0..a.len()
                invariant
                    out@.len() == i,
                    *j == Json::Array(*a),
                    forall|k: int| 0 <= k < i ==> content(#[trigger] out@[k]) == a@[k]@,
            {
                assert(decreases_to!(j => j->Array_0));
                assert(decreases_to!(a => a@));
                assert(decreases_to!(a@ => a@[i as int]));
                out.push(to_value(&a[i]));
            }
            assert(contents(out@) =~= values(a@));
            put_together(Parts::Array(out))
        },
        Json::Object(o) => to_value_object(o),
    }
}

/// Makes an outside object.
fn to_value_object(o: &Object) -> (r: serde_json::Value)
    ensures
        content(r) == JsonV::Obj(o@),
    decreases o,
{
    proof {
        use_type_invariant(o);
    }
    let mut out: Vec<(String, serde_json::Value)> = Vec::new();
    for i in 0..o.entries.len()
        invariant
            out@.len() == i,
            forall|k: int|
                0 <= k < i ==> content((#[trigger] out@[k]).1) == o.entries@[k].1@ && out@[k].0@
                    == o.entries@[k].0@,
    {
        out.push((o.entries[i].0.clone(), to_value(&o.entries[i].1)));
    }
    proof {
        o.lemma_view();
        assert(member_contents(out@) =~= o@);
    }
    put_together(Parts::Object(out))
}

impl Json {
    /// Reads a JSON text.
    pub fn parse(text: &str) -> (r: Result<Json, String>)
        ensures
            (match (r, json_parse(text@)) {
                (Ok(v), Ok(j)) => v@ == j,
                (Err(e), Err(m)) => e@ == m,
                _ => false,
            }),
    {
        match read_text(text) {
            Ok(v) => Ok(from_value(v)),
            Err(e) => Err(e),
        }
    }

    /// Writes the value as compact JSON text.
    pub fn to_text(&self) -> (r: String)
        ensures
            r@ == json_text(self@),
            plainly_written(self@),
    {
        if let Json::Number(Number::Float(f)) = self {
            proof {
                use_type_invariant(f);
            }
        }
        let v = to_value(self);
        write_text(&v)
    }
}

/// Values that are not alike do not share a form: what is written canonically is still told
/// apart.
pub proof fn unlike_values_have_unlike_forms(a: JsonV, b: JsonV)
    requires
        ordered(a),
        ordered(b),
        canon(a) == canon(b),
    ensures
        alike(a, b),
    decreases a,
{
    match (a, b) {
        (JsonV::Arr(x), JsonV::Arr(y)) => {
            let c = canon(a)->Arr_0;
            let d = canon(b)->Arr_0;
            assert(c.len() == x.len() && d.len() == y.len());
            assert forall|i: int| 0 <= i < x.len() implies alike(#[trigger] x[i], y[i]) by {
                assert(c[i] == canon(x[i]) && d[i] == canon(y[i]));
                unlike_values_have_unlike_forms(x[i], y[i]);
            }
        },
        (JsonV::Obj(x), JsonV::Obj(y)) => {
            let c = canon(a)->Obj_0;
            let d = canon(b)->Obj_0;
            assert(c.len() == x.len() && d.len() == y.len());
            assert forall|i: int| 0 <= i < x.len() implies (find(y, (#[trigger] x[i]).0) matches Some(
                v,
            ) && alike(x[i].1, v)) by {
                assert(c[i] == (x[i].0, canon(x[i].1)) && d[i] == (y[i].0, canon(y[i].1)));
                assert forall|j: int| 0 <= j < i implies (#[trigger] y[j]).0 != y[i].0 by {
                    assert(lex_lt(y[j].0, y[i].0));
                    crate::text::lemma_lex_irreflexive(y[i].0);
                }
                crate::strmap::lemma_find_at(y, y[i].0, i);
                unlike_values_have_unlike_forms(x[i].1, y[i].1);
            }
        },
        _ => {},
    }
}

/// Values that differ anywhere are not equal.
pub proof fn different_values_are_told_apart(
    x: Seq<JsonV>,
    y: Seq<JsonV>,
    m: Members,
    n: Members,
    s: Seq<char>,
    t: Seq<char>,
    p: u64,
    q: u64,
    i: int,
)
    ensures
        json_eq(JsonV::Str(s), JsonV::Str(t)) <==> s == t,
        json_eq(JsonV::Num(NumV::Pos(p)), JsonV::Num(NumV::Pos(q))) <==> p == q,
        !json_eq(JsonV::Bool(true), JsonV::Bool(false)),
        !json_eq(JsonV::Null, JsonV::Str(s)) && !json_eq(JsonV::Null, JsonV::Obj(m)),
        x.len() != y.len() ==> !json_eq(JsonV::Arr(x), JsonV::Arr(y)),
        0 <= i < x.len() && x.len() == y.len() && !json_eq(x[i], y[i]) ==> !json_eq(
            JsonV::Arr(x),
            JsonV::Arr(y),
        ),
        m.len() != n.len() ==> !json_eq(JsonV::Obj(m), JsonV::Obj(n)),
        0 <= i < m.len() && m.len() == n.len() && (m[i].0 != n[i].0 || !json_eq(m[i].1, n[i].1))
            ==> !json_eq(JsonV::Obj(m), JsonV::Obj(n)),
{
}

/// A floating-point number is cut to the whole number towards zero, and to the ends of the
/// range where it lies beyond them.
pub proof fn floats_are_cut_towards_zero(bits: u64)
    ensures
        ({
            let x = float_exponent(bits);
            let s = float_significand(bits);
            let m = float_magnitude(bits);
            &&& x >= 0 ==> m == s * pow2(x as nat) && float_integral(bits)
            &&& x < 0 ==> m * pow2((-x) as nat) <= s < (m + 1) * pow2((-x) as nat)
            &&& x < 0 ==> (float_integral(bits) <==> m * pow2((-x) as nat) == s)
            &&& m <= i64::MAX && float_negative(bits) ==> float_trunc(bits) == -(m as int)
            &&& m <= i64::MAX && !float_negative(bits) ==> float_trunc(bits) == m
            &&& m > i64::MAX && !float_negative(bits) ==> float_trunc(bits) == i64::MAX
            &&& m > i64::MAX && float_negative(bits) ==> float_trunc(bits) == i64::MIN
        }),
{
    let x = float_exponent(bits);
    let s = float_significand(bits);
    let m = float_magnitude(bits);
    if x < 0 {
        let p = pow2((-x) as nat);
        lemma_pow2_pos((-x) as nat);
        vstd::arithmetic::div_mod::lemma_fundamental_div_mod(s as int, p as int);
        vstd::arithmetic::div_mod::lemma_mod_division_less_than_divisor(s as int, p as int);
        assert(m == s / p);
        assert(p * m == m * p) by (nonlinear_arith);
        assert((m + 1) * p == m * p + p) by (nonlinear_arith);
    }
}

/// What a value is read as is what it holds, and nothing where it is of another kind.
pub proof fn values_are_read_as_they_are(
    s: Seq<char>,
    a: Seq<JsonV>,
    m: Members,
    b: bool,
    n: u64,
    z: i64,
    k: Seq<char>,
)
    ensures
        JsonV::Str(s).text() == Some(s),
        JsonV::Arr(a).elements() == Some(a),
        JsonV::Obj(m).members() == Some(m),
        JsonV::Bool(b).boolean() == Some(b),
        JsonV::Num(NumV::Pos(n)).natural() == Some(n as int),
        n <= i64::MAX ==> JsonV::Num(NumV::Pos(n)).whole() == Some(n as int),
        JsonV::Num(NumV::Neg(z)).whole() == Some(z as int),
        n > i64::MAX ==> JsonV::Num(NumV::Pos(n)).whole() is None,
        JsonV::Num(NumV::Neg(z)).natural() is None,
        JsonV::Obj(m).get(k) == find(m, k),
        JsonV::Arr(a).get(k) is None && JsonV::Str(s).get(k) is None && JsonV::Null.get(k) is None,
        JsonV::Null.text() is None && JsonV::Bool(b).text() is None && JsonV::Obj(m).text() is None,
        JsonV::Obj(m).elements() is None && JsonV::Arr(a).members() is None && JsonV::Str(
            s,
        ).boolean() is None && JsonV::Str(s).natural() is None && JsonV::Str(s).whole() is None,
        find(m, k) == Some(JsonV::Str(s)) ==> JsonV::Obj(m).text_at(k) == Some(s),
        find(m, k) is None ==> JsonV::Obj(m).text_at(k) is None,
{
}

} // verus!
