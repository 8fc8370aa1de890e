//! How OData services are addressed, and how their answers are read.

use vstd::prelude::*;
use vstd::string::*;
use vstd::utf8::{encode_scalar, encode_utf8};
use crate::codec::{base64_encode, base64_of, encode_for_query, query_encoded, query_encoding_is_safe};
use crate::config::{ConfigV, SapInstanceConfig};
use crate::json::{copy_values, json_parse, json_text, no_members, Members, number_of, push_value, values, Json, JsonV, NumV, Number, Object};
use crate::numeral::{dec_int, numbers_are_read_back, parse_i64, signed_of};
use crate::strmap::{find, put, put_is_found};
use crate::text::{cat2, cat3, chars_of, has_prefix, join, joined, joined_pieces_come_back, lower, lowercase, opt_text, same, split, text_of, texts, trim, trimmed};

verus! {

/// Pairs of texts.
pub type Pairs = Seq<(Seq<char>, Seq<char>)>;

/// What pairs of strings are.
pub open spec fn pairs_of(v: Seq<(String, String)>) -> Pairs {
    Seq::new(v.len(), |i: int| (v[i].0@, v[i].1@))
}

/// Adds a pair to a list.
pub fn push_pair(v: &mut Vec<(String, String)>, a: &str, b: &str)
    ensures
        pairs_of(final(v)@) == pairs_of(old(v)@).push((a@, b@)),
{
    let ghost before_push = pairs_of(v@);
    v.push((a.to_owned(), b.to_owned()));
    assert(pairs_of(v@) =~= before_push.push((a@, b@)));
}

/// No pairs.
pub fn no_pairs() -> (r: Vec<(String, String)>)
    ensures
        pairs_of(r@) == Seq::<(Seq<char>, Seq<char>)>::empty(),
{
    let r: Vec<(String, String)> = Vec::new();
    assert(pairs_of(r@) =~= Seq::<(Seq<char>, Seq<char>)>::empty());
    r
}

/// A copy of pairs.
pub fn copy_pairs(v: &Vec<(String, String)>) -> (r: Vec<(String, String)>)
    ensures
        pairs_of(r@) == pairs_of(v@),
{
    let mut r = no_pairs();
    let ghost all = pairs_of(v@);
    let mut i: usize = 0;
    while i < v.len()
        invariant
            i <= v@.len(),
            all == pairs_of(v@),
            pairs_of(r@) == all.take(i as int),
        decreases v@.len() - i,
    {
        push_pair(&mut r, v[i].0.as_str(), v[i].1.as_str());
        assert(all.take(i + 1) =~= all.take(i as int).push(all[i as int]));
        i = i + 1;
    }
    assert(all.take(i as int) =~= all);
    r
}

/// A text as part of a query: what could end a name or a value is percent-encoded.
pub fn url_encode(s: &str) -> (r: String)
    ensures
        r@ == query_encoded(encode_utf8(s@)),
{
    encode_for_query(s)
}

/// A pair as part of a query.
pub open spec fn query_pair(p: (Seq<char>, Seq<char>)) -> Seq<char> {
    query_encoded(encode_utf8(p.0)) + "="@ + query_encoded(encode_utf8(p.1))
}

/// The pairs of a query: the SAP client, where one is set; the format, in the second
/// version of the protocol; and those that a request adds.
pub open spec fn all_params(cfg: ConfigV, extra: Pairs) -> Pairs {
    let client = match cfg.client {
        Some(c) => if trimmed(c).len() > 0 {
            seq![("sap-client"@, c)]
        } else {
            Seq::empty()
        },
        None => Seq::empty(),
    };
    let format = if cfg.v4() {
        Seq::empty()
    } else {
        seq![("$format"@, "json"@)]
    };
    client + format + extra
}

/// The pairs of a query, as texts.
pub open spec fn query_pairs(q: Pairs) -> Seq<Seq<char>> {
    Seq::new(q.len(), |i: int| query_pair(q[i]))
}

/// An address with the pairs of its query.
pub open spec fn url_of(cfg: ConfigV, base: Seq<char>, extra: Pairs) -> Seq<char> {
    let q = all_params(cfg, extra);
    if q.len() == 0 {
        base
    } else {
        base + "?"@ + joined(query_pairs(q), "&"@)
    }
}

/// An address with the pairs of its query.
pub fn url_with_params(cfg: &SapInstanceConfig, base: &str, extra: &Vec<(String, String)>) -> (r:
    String)
    ensures
        r@ == url_of(cfg@, base@, pairs_of(extra@)),
{
    let mut q = no_pairs();
    if let Some(c) = &cfg.client {
        if !trim(c.as_str()).as_str().is_empty() {
            push_pair(&mut q, "sap-client", c.as_str());
        }
    }
    if !cfg.is_v4() {
        push_pair(&mut q, "$format", "json");
    }
    let mut more = copy_pairs(extra);
    let ghost a = pairs_of(q@);
    let ghost b = pairs_of(more@);
    q.append(&mut more);
    assert(pairs_of(q@) =~= a + b);
    assert(pairs_of(q@) =~= all_params(cfg@, pairs_of(extra@)));
    let ghost all = pairs_of(q@);
    if q.len() == 0 {
        return base.to_owned();
    }
    let mut qs: Vec<String> = Vec::new();
    let mut i: usize = 0;
    while i < q.len()
        invariant
            i <= q@.len(),
            all == pairs_of(q@),
            qs@.len() == i,
            forall|k: int| 0 <= k < i ==> #[trigger] qs@[k]@ == query_pair(all[k]),
        decreases q@.len() - i,
    {
        let t = cat3(
            url_encode(q[i].0.as_str()).as_str(),
            "=",
            url_encode(q[i].1.as_str()).as_str(),
        );
        qs.push(t);
        i = i + 1;
    }
    assert(texts(qs@) =~= query_pairs(all));
    cat3(base, "?", join(&qs, "&").as_str())
}

/// The value of the authorization header where a system is reached by name and password.
pub open spec fn basic_auth(cfg: ConfigV) -> Option<Seq<char>> {
    let u = match cfg.username {
        Some(s) => s,
        None => ""@,
    };
    let p = match cfg.password {
        Some(s) => s,
        None => ""@,
    };
    if lowercase(cfg.auth_type) != "basic"@ || u.len() == 0 {
        None
    } else {
        Some("Basic "@ + base64_of(encode_utf8(u + ":"@ + p)))
    }
}

/// The value of the authorization header where a system is reached by name and password.
pub fn basic_header(cfg: &SapInstanceConfig) -> (r: Option<String>)
    ensures
        opt_text(r) == basic_auth(cfg@),
{
    if !same(lower(cfg.auth_type.as_str()).as_str(), "basic") {
        return None;
    }
    let u: String = match &cfg.username {
        Some(s) => s.clone(),
        None => "".to_owned(),
    };
    let p: String = match &cfg.password {
        Some(s) => s.clone(),
        None => "".to_owned(),
    };
    if u.as_str().is_empty() {
        return None;
    }
    let both = cat3(u.as_str(), ":", p.as_str());
    Some(cat2("Basic ", base64_encode(both.as_str()).as_str()))
}

/// The start of a text that takes exactly `n` bytes, if no character stands across the
/// `n`th.
pub open spec fn byte_prefix(s: Seq<char>, n: int) -> Option<Seq<char>>
    decreases s.len(),
{
    if n == 0 {
        Some(Seq::empty())
    } else if n < 0 || s.len() == 0 {
        None
    } else {
        match byte_prefix(s.drop_first(), n - encode_scalar(s[0] as u32).len()) {
            Some(p) => Some(seq![s[0]] + p),
            None => None,
        }
    }
}

/// A text of at most `n` bytes, or its first `n` bytes and an ellipsis. There is none
/// where a character stands across the `n`th byte.
pub open spec fn truncated(s: Seq<char>, n: int) -> Option<Seq<char>> {
    if encode_utf8(s).len() <= n {
        Some(s)
    } else {
        match byte_prefix(s, n) {
            Some(p) => Some(p + "…"@),
            None => None,
        }
    }
}

/// A text of at most `n` bytes, or its first `n` bytes and an ellipsis. There is none
/// where a character stands across the `n`th byte.
pub fn truncate(s: &str, n: usize) -> (r: Option<String>)
    ensures
        opt_text(r) == truncated(s@, n as int),
{
    if crate::config::byte_len(s) <= n {
        return Some(s.to_owned());
    }
    let v = chars_of(s);
    let mut i: usize = 0;
    let mut left: usize = n;
    assert(s@.skip(0) =~= s@);
    assert(s@.take(0) =~= Seq::<char>::empty());
    proof {
        if let Some(p) = byte_prefix(s@, n as int) {
            assert(s@.take(0) + p =~= p);
        }
    }
    while left > 0 && i < v.len()
        invariant
            i <= v@.len(),
            v@ == s@,
            byte_prefix(s@, n as int) == (match byte_prefix(s@.skip(i as int), left as int) {
                Some(p) => Some(s@.take(i as int) + p),
                None => None,
            }),
            truncated(s@, n as int) == (match byte_prefix(s@, n as int) {
                Some(p) => Some(p + "…"@),
                None => None,
            }),
        decreases v@.len() - i,
    {
        let c = v[i];
        let u: u32 = c as u32;
        let w: usize = if u < 0x80 {
            1
        } else if u < 0x800 {
            2
        } else if u < 0x10000 {
            3
        } else {
            4
        };
        let ghost rest = s@.skip(i as int);
        proof {
            vstd::utf8::char_u32_cast(c, u);
            assert(w == encode_scalar(c as u32).len());
            assert(rest[0] == c);
            assert(rest.drop_first() =~= s@.skip(i + 1));
            if let Some(p) = byte_prefix(s@.skip(i + 1), left - w) {
                assert(s@.take(i as int) + (seq![c] + p) =~= s@.take(i + 1) + p);
            }
        }
        if w > left {
            return None;
        }
        left = left - w;
        i = i + 1;
    }
    if left > 0 {
        None
    } else {
        let mut t = text_of(&v, 0, i);
        proof {
            assert(t@ =~= s@.take(i as int));
            assert(t@ + Seq::<char>::empty() =~= t@);
        }
        t.append("…");
        Some(t)
    }
}

/// The member of an optional value.
pub open spec fn member(v: Option<JsonV>, k: Seq<char>) -> Option<JsonV> {
    match v {
        Some(x) => x.get(k),
        None => None,
    }
}

/// The text of an optional value.
pub open spec fn member_text(v: Option<JsonV>) -> Option<Seq<char>> {
    match v {
        Some(x) => x.text(),
        None => None,
    }
}

/// What an answer says of an error.
pub open spec fn reported_error(v: JsonV) -> Option<Seq<char>> {
    match member_text(member(member(v.get("error"@), "message"@), "value"@)) {
        Some(msg) => Some("sap error: "@ + msg),
        None => match v.get("error"@) {
            Some(e) => Some("sap error: "@ + json_text(e)),
            None => None,
        },
    }
}

/// What an answer says of an error.
pub fn error_in(v: &Json) -> (r: Option<String>)
    ensures
        opt_text(r) == reported_error(v@),
{
    match v.get("error") {
        Some(e) => {
            if let Some(m) = e.get("message") {
                if let Some(x) = m.get("value") {
                    if let Some(msg) = x.as_str() {
                        return Some(cat2("sap error: ", msg.as_str()));
                    }
                }
            }
            Some(cat2("sap error: ", e.to_text().as_str()))
        },
        None => None,
    }
}

/// The message for an answer that is no JSON or reports no error: the answer itself, cut
/// at 400 bytes. There is none where a character stands across that byte.
pub open spec fn plain_error(txt: Seq<char>) -> Option<Seq<char>> {
    match truncated(txt, 400) {
        Some(t) => Some("sap http error: "@ + t),
        None => None,
    }
}

/// The message for an answer that reports a failure.
pub open spec fn odata_message(txt: Seq<char>) -> Option<Seq<char>> {
    match json_parse(txt) {
        Ok(v) => match reported_error(v) {
            Some(m) => Some(m),
            None => plain_error(txt),
        },
        Err(_) => plain_error(txt),
    }
}

/// The message for an answer that reports a failure. There is none where the answer has
/// to be cut and a character stands across the place.
pub fn odata_error(txt: &str) -> (r: Option<String>)
    ensures
        opt_text(r) == odata_message(txt@),
{
    if let Ok(v) = Json::parse(txt) {
        if let Some(m) = error_in(&v) {
            return Some(m);
        }
    }
    match truncate(txt, 400) {
        Some(t) => Some(cat2("sap http error: ", t.as_str())),
        None => None,
    }
}

/// The number that a count is: a whole number, or a text that writes one.
pub open spec fn count_of(v: JsonV) -> Option<int> {
    match v {
        JsonV::Str(s) => signed_of(s),
        _ => v.whole(),
    }
}

/// Records with their count and, where it is known, the total.
pub open spec fn collection(records: Seq<JsonV>, total: Option<int>) -> JsonV {
    let o = put(no_members(), "records"@, JsonV::Arr(records));
    let o = put(o, "count"@, JsonV::Num(NumV::Pos(records.len() as u64)));
    JsonV::Obj(
        match total {
            Some(t) => put(o, "total"@, JsonV::Num(number_of(t))),
            None => o,
        },
    )
}

/// What an answer holds under `d`, where it holds nothing else.
pub open spec fn wrapped(v: JsonV) -> Option<JsonV> {
    match v {
        JsonV::Obj(o) => if o.len() == 1 {
            find(o, "d"@)
        } else {
            None
        },
        _ => None,
    }
}

fn inner_of(v: &Json) -> (r: Option<&Json>)
    ensures
        (match r {
            Some(d) => wrapped(v@) == Some(d@),
            None => wrapped(v@) is None,
        }),
{
    match v {
        Json::Object(o) => if o.len() == 1 {
            o.get("d")
        } else {
            None
        },
        _ => None,
    }
}

/// The records of an answer, whatever envelope they came in.
pub open spec fn normalized(v: JsonV) -> JsonV {
    match member(v.get("d"@), "results"@) {
        Some(JsonV::Arr(a)) => collection(
            a,
            match member(v.get("d"@), "__count"@) {
                Some(c) => count_of(c),
                None => None,
            },
        ),
        _ => match v.get("value"@) {
            Some(JsonV::Arr(a)) => collection(
                a,
                match v.get("@odata.count"@) {
                    Some(c) => c.whole(),
                    None => None,
                },
            ),
            _ => match wrapped(v) {
                Some(JsonV::Obj(m)) => collection(seq![JsonV::Obj(m)], None),
                Some(JsonV::Arr(a)) => collection(a, None),
                _ => match v {
                    JsonV::Arr(a) => collection(a, None),
                    _ => collection(seq![v], None),
                },
            },
        },
    }
}

fn number_json(n: i64) -> (r: Json)
    ensures
        r@ == JsonV::Num(number_of(n as int)),
{
    if n >= 0 {
        Json::Number(Number::PosInt(n as u64))
    } else {
        Json::Number(Number::NegInt(n))
    }
}

fn collection_json(records: Vec<Json>, total: Option<i64>) -> (r: Json)
    ensures
        r@ == collection(
            values(records@),
            match total {
                Some(t) => Some(t as int),
                None => None,
            },
        ),
{
    let n: usize = records.len();
    proof {
        crate::json::lemma_values(records@);
    }
    let mut o = Object::new();
    o.set("records", Json::Array(records));
    o.set("count", Json::num(n as u64));
    if let Some(t) = total {
        o.set("total", number_json(t));
    }
    Json::Object(o)
}

fn count_in(v: &Json) -> (r: Option<i64>)
    ensures
        (match r {
            Some(n) => count_of(v@) == Some(n as int),
            None => count_of(v@) is None,
        }),
{
    match v {
        Json::Str(s) => parse_i64(s.as_str()),
        _ => v.as_i64(),
    }
}

/// The records of an answer, whatever envelope they came in: that of the second version
/// of the protocol, around entities or a single one, that of the fourth, a bare array, or a
/// single entity. An entity that has a member `d` among others is taken whole.
pub fn normalize_collection(v: &Json) -> (r: Json)
    ensures
        r@ == normalized(v@),
{
    if let Some(d) = v.get("d") {
        if let Some(Json::Array(a)) = d.get("results") {
            let total = match d.get("__count") {
                Some(c) => count_in(c),
                None => None,
            };
            return collection_json(copy_values(a), total);
        }
    }
    if let Some(Json::Array(a)) = v.get("value") {
        let total = match v.get("@odata.count") {
            Some(c) => c.as_i64(),
            None => None,
        };
        return collection_json(copy_values(a), total);
    }
    match inner_of(v) {
        Some(Json::Object(m)) => {
            return single_json(Json::Object(m.copy()));
        },
        Some(Json::Array(a)) => {
            return collection_json(copy_values(a), None);
        },
        _ => {},
    }
    match v {
        Json::Array(a) => collection_json(copy_values(a), None),
        _ => single_json(v.copy()),
    }
}

fn single_json(v: Json) -> (r: Json)
    ensures
        r@ == collection(seq![v@], None),
{
    let mut one: Vec<Json> = Vec::new();
    assert(values(one@) =~= Seq::<JsonV>::empty());
    push_value(&mut one, v);
    assert(values(one@) =~= seq![v@]);
    collection_json(one, None)
}

/// The records that an answer was normalized to.
pub open spec fn records_of(v: JsonV) -> Seq<JsonV> {
    match v.get("records"@) {
        Some(JsonV::Arr(a)) => a,
        _ => Seq::empty(),
    }
}

proof fn lemma_collection(records: Seq<JsonV>, total: Option<int>)
    ensures
        collection(records, total).get("records"@) == Some(JsonV::Arr(records)),
        collection(records, total).get("count"@) == Some(
            JsonV::Num(NumV::Pos(records.len() as u64)),
        ),
{
    reveal_strlit("records");
    reveal_strlit("count");
    reveal_strlit("total");
    assert("records"@.len() == 7 && "count"@.len() == 5 && "total"@.len() == 5);
    assert("total"@[0] == 't' && "count"@[0] == 'c');
    let a = put(no_members(), "records"@, JsonV::Arr(records));
    let n = JsonV::Num(NumV::Pos(records.len() as u64));
    let b = put(a, "count"@, n);
    crate::strmap::lemma_put_find(no_members(), "records"@, JsonV::Arr(records), "records"@);
    crate::strmap::lemma_put_find(a, "count"@, n, "records"@);
    crate::strmap::lemma_put_find(a, "count"@, n, "count"@);
    if let Some(t) = total {
        let x = JsonV::Num(number_of(t));
        crate::strmap::lemma_put_find(b, "total"@, x, "records"@);
        crate::strmap::lemma_put_find(b, "total"@, x, "count"@);
    }
}

/// Every answer is normalized to records, and their count is how many there are.
pub proof fn normalized_answers_count_their_records(v: JsonV)
    ensures
        normalized(v).get("records"@) == Some(JsonV::Arr(records_of(normalized(v)))),
        normalized(v).get("count"@) == Some(
            JsonV::Num(NumV::Pos(records_of(normalized(v)).len() as u64)),
        ),
{
    match member(v.get("d"@), "results"@) {
        Some(JsonV::Arr(a)) => {
            lemma_collection(
                a,
                match member(v.get("d"@), "__count"@) {
                    Some(c) => count_of(c),
                    None => None,
                },
            );
        },
        _ => match v.get("value"@) {
            Some(JsonV::Arr(a)) => {
                lemma_collection(
                    a,
                    match v.get("@odata.count"@) {
                        Some(c) => c.whole(),
                        None => None,
                    },
                );
            },
            _ => match wrapped(v) {
                Some(JsonV::Obj(m)) => {
                    lemma_collection(seq![JsonV::Obj(m)], None);
                },
                Some(JsonV::Arr(a)) => {
                    lemma_collection(a, None);
                },
                _ => match v {
                    JsonV::Arr(a) => {
                        lemma_collection(a, None);
                    },
                    _ => {
                        lemma_collection(seq![v], None);
                    },
                },
            },
        },
    }
}

/// A single entity in the envelope of the second version of the protocol is the record.
pub proof fn single_entities_are_unwrapped(v: JsonV, m: Members)
    requires
        v == JsonV::Obj(seq![("d"@, JsonV::Obj(m))]),
        find(m, "results"@) is None,
    ensures
        records_of(normalized(v)) == seq![JsonV::Obj(m)],
{
    let o = seq![("d"@, JsonV::Obj(m))];
    reveal_strlit("d");
    reveal_strlit("value");
    assert("d"@.len() == 1 && "value"@.len() == 5);
    assert(o[0].0 == "d"@);
    crate::strmap::lemma_find_none(o, "value"@);
    lemma_collection(seq![JsonV::Obj(m)], None);
}

/// An entity that has further members beside `d` is the record, whole.
pub proof fn single_entities_stay_whole(v: JsonV, o: Members)
    requires
        v == JsonV::Obj(o),
        o.len() != 1,
        member(find(o, "d"@), "results"@) is None,
        find(o, "value"@) is None,
    ensures
        records_of(normalized(v)) == seq![v],
{
    lemma_collection(seq![v], None);
}

proof fn lemma_envelope_names()
    ensures
        "records"@ != "count"@,
        "records"@ != "total"@,
        "records"@ != "d"@,
        "records"@ != "results"@,
        "records"@ != "value"@,
        "records"@ != "__count"@,
        "records"@ != "@odata.count"@,
        "count"@ != "total"@,
        "count"@ != "d"@,
        "count"@ != "results"@,
        "count"@ != "value"@,
        "count"@ != "__count"@,
        "count"@ != "@odata.count"@,
        "total"@ != "d"@,
        "total"@ != "results"@,
        "total"@ != "value"@,
        "total"@ != "__count"@,
        "total"@ != "@odata.count"@,
        "d"@ != "results"@,
        "d"@ != "value"@,
        "d"@ != "__count"@,
        "d"@ != "@odata.count"@,
        "results"@ != "value"@,
        "results"@ != "__count"@,
        "results"@ != "@odata.count"@,
        "value"@ != "__count"@,
        "value"@ != "@odata.count"@,
        "__count"@ != "@odata.count"@,
{
    reveal_strlit("records");
    reveal_strlit("count");
    reveal_strlit("total");
    reveal_strlit("d");
    reveal_strlit("results");
    reveal_strlit("value");
    reveal_strlit("__count");
    reveal_strlit("@odata.count");
    assert("records"@.len() == 7);
    assert("count"@.len() == 5);
    assert("total"@.len() == 5);
    assert("d"@.len() == 1);
    assert("results"@.len() == 7);
    assert("value"@.len() == 5);
    assert("__count"@.len() == 7);
    assert("@odata.count"@.len() == 12);
    assert("records"@[2] != "results"@[2]);
    assert("records"@[0] != "__count"@[0]);
    assert("count"@[0] != "total"@[0]);
    assert("count"@[0] != "value"@[0]);
    assert("total"@[0] != "value"@[0]);
    assert("results"@[0] != "__count"@[0]);
}

/// The answer of a system of the second version comes to its results: all of them, in their
/// order, with how many there are, and the total where the answer tells it.
pub proof fn second_version_answers_keep_their_records(v: JsonV, d: JsonV, a: Seq<JsonV>, n: int)
    requires
        v.get("d"@) == Some(d),
        d.get("results"@) == Some(JsonV::Arr(a)),
        i64::MIN <= n <= i64::MAX,
    ensures
        normalized(v).get("records"@) == Some(JsonV::Arr(a)),
        normalized(v).get("count"@) == Some(JsonV::Num(NumV::Pos(a.len() as u64))),
        d.get("__count"@) == Some(JsonV::Str(dec_int(n))) ==> normalized(v).get("total"@) == Some(
            JsonV::Num(number_of(n)),
        ),
        d.get("__count"@) == Some(JsonV::Num(number_of(n))) ==> normalized(v).get("total"@) == Some(
            JsonV::Num(number_of(n)),
        ),
        d.get("__count"@) is None ==> normalized(v).get("total"@) is None,
{
    broadcast use put_is_found;

    lemma_envelope_names();
    numbers_are_read_back(n);
}

/// The answer of a system of the fourth version comes to what stands under `value`: all of
/// it, in its order, with how many there are, and the total where the answer tells it.
pub proof fn fourth_version_answers_keep_their_records(v: JsonV, a: Seq<JsonV>, n: int)
    requires
        v.get("value"@) == Some(JsonV::Arr(a)),
        v.get("d"@) is None || !(member(v.get("d"@), "results"@) matches Some(JsonV::Arr(_))),
        i64::MIN <= n <= i64::MAX,
    ensures
        normalized(v).get("records"@) == Some(JsonV::Arr(a)),
        normalized(v).get("count"@) == Some(JsonV::Num(NumV::Pos(a.len() as u64))),
        v.get("@odata.count"@) == Some(JsonV::Num(number_of(n))) ==> normalized(v).get("total"@)
            == Some(JsonV::Num(number_of(n))),
        v.get("@odata.count"@) is None ==> normalized(v).get("total"@) is None,
{
    broadcast use put_is_found;

    lemma_envelope_names();
}

/// An array comes to its elements; a value that is no object to itself, as the one record.
pub proof fn bare_answers_keep_their_records(v: JsonV)
    requires
        !(v is Obj),
    ensures
        v matches JsonV::Arr(a) ==> normalized(v).get("records"@) == Some(JsonV::Arr(a))
            && normalized(v).get("count"@) == Some(JsonV::Num(NumV::Pos(a.len() as u64))),
        !(v is Arr) ==> normalized(v).get("records"@) == Some(JsonV::Arr(seq![v])) && normalized(
            v,
        ).get("count"@) == Some(JsonV::Num(NumV::Pos(1))),
        normalized(v).get("total"@) is None,
{
    broadcast use put_is_found;

    lemma_envelope_names();
}

/// An entity of the fourth version, and one of the second in its envelope, is the one record.
pub proof fn single_answers_are_one_record(o: Members, m: Members)
    requires
        find(o, "d"@) is None,
        !(find(o, "value"@) matches Some(JsonV::Arr(_))),
        !(find(m, "results"@) matches Some(JsonV::Arr(_))),
    ensures
        normalized(JsonV::Obj(o)).get("records"@) == Some(JsonV::Arr(seq![JsonV::Obj(o)])),
        normalized(JsonV::Obj(o)).get("count"@) == Some(JsonV::Num(NumV::Pos(1))),
        normalized(JsonV::Obj(seq![("d"@, JsonV::Obj(m))])).get("records"@) == Some(
            JsonV::Arr(seq![JsonV::Obj(m)]),
        ),
        normalized(JsonV::Obj(seq![("d"@, JsonV::Obj(m))])).get("count"@) == Some(
            JsonV::Num(NumV::Pos(1)),
        ),
{
    broadcast use put_is_found;

    lemma_envelope_names();
    let w = seq![("d"@, JsonV::Obj(m))];
    assert(w[0].0 == "d"@);
    crate::strmap::lemma_find_none(w, "value"@);
    crate::strmap::lemma_find_none(w, "@odata.count"@);
}

/// Every pair that a request adds is in its query, behind the SAP client, where one is set,
/// and the format, in the second version of the protocol; and nothing else is.
pub proof fn queries_hold_every_pair(cfg: ConfigV, extra: Pairs, i: int)
    requires
        0 <= i < extra.len(),
    ensures
        all_params(cfg, extra).contains(extra[i]),
        cfg.client matches Some(c) ==> (trimmed(c).len() > 0 ==> all_params(cfg, extra).contains(
            ("sap-client"@, c),
        )),
        !cfg.v4() ==> all_params(cfg, extra).contains(("$format"@, "json"@)),
        all_params(cfg, extra).len() == extra.len() + (if cfg.client is Some && trimmed(
            cfg.client->0,
        ).len() > 0 {
            1int
        } else {
            0
        }) + (if cfg.v4() {
            0int
        } else {
            1
        }),
{
    let q = all_params(cfg, extra);
    let n = q.len() - extra.len();
    assert(q[n + i] == extra[i]);
    if let Some(c) = cfg.client {
        if trimmed(c).len() > 0 {
            assert(q[0] == ("sap-client"@, c));
        }
    }
    if !cfg.v4() {
        assert(q[n - 1] == ("$format"@, "json"@));
    }
}

/// The query of an address is read back pair by pair: what stands behind the question mark,
/// cut at the ampersands, is the names and values of the pairs, encoded, in their order.
pub proof fn addresses_carry_their_query(cfg: ConfigV, base: Seq<char>, extra: Pairs) -> (rest: Seq<
    char,
>)
    ensures
        ({
            let q = all_params(cfg, extra);
            let u = url_of(cfg, base, extra);
            &&& q.len() == 0 ==> u == base
            &&& q.len() > 0 ==> u == base + seq!['?'] + rest && split(rest, '&').len() == q.len()
                && forall|i: int|
                    0 <= i < q.len() ==> #[trigger] split(rest, '&')[i] == query_encoded(
                        encode_utf8(q[i].0),
                    ) + seq!['='] + query_encoded(encode_utf8(q[i].1))
        }),
{
    let q = all_params(cfg, extra);
    let p = query_pairs(q);
    reveal_strlit("?");
    reveal_strlit("&");
    reveal_strlit("=");
    assert("?"@ =~= seq!['?']);
    assert("&"@ =~= seq!['&']);
    assert("="@ =~= seq!['=']);
    let rest = joined(p, "&"@);
    if q.len() > 0 {
        assert forall|i: int| 0 <= i < p.len() implies !(#[trigger] p[i]).contains('&') by {
            let a = query_encoded(encode_utf8(q[i].0));
            let b = query_encoded(encode_utf8(q[i].1));
            query_encoding_is_safe(encode_utf8(q[i].0));
            query_encoding_is_safe(encode_utf8(q[i].1));
            let x = p[i];
            assert forall|k: int| 0 <= k < x.len() implies x[k] != '&' by {
                if k < a.len() {
                    assert(x[k] == a[k]);
                } else if k > a.len() {
                    assert(x[k] == b[k - a.len() - 1]);
                }
            }
        }
        joined_pieces_come_back(p, '&');
    }
    rest
}

/// The message of an error is the one that SAP gives; an error without one is shown whole; an
/// answer that reports none is shown itself where it is short.
pub proof fn errors_are_shown_as_sap_gives_them(
    txt: Seq<char>,
    v: JsonV,
    e: JsonV,
    m: JsonV,
    msg: Seq<char>,
)
    ensures
        json_parse(txt) == Ok::<JsonV, Seq<char>>(v) && v.get("error"@) == Some(e) && e.get(
            "message"@,
        ) == Some(m) && m.get("value"@) == Some(JsonV::Str(msg)) ==> odata_message(txt) == Some(
            "sap error: "@ + msg,
        ),
        json_parse(txt) == Ok::<JsonV, Seq<char>>(v) && v.get("error"@) == Some(e) && e.get(
            "message"@,
        ) is None ==> odata_message(txt) == Some("sap error: "@ + json_text(e)),
        (json_parse(txt) is Err || (json_parse(txt) == Ok::<JsonV, Seq<char>>(v) && v.get(
            "error"@,
        ) is None)) && encode_utf8(txt).len() <= 400 ==> odata_message(txt) == Some(
            "sap http error: "@ + txt,
        ),
{
}

/// What a long text is cut to is its beginning, of exactly as many bytes as are asked for.
pub proof fn cut_texts_are_beginnings(s: Seq<char>, n: int)
    requires
        n >= 0,
    ensures
        byte_prefix(s, n) matches Some(p) ==> has_prefix(s, p) && encode_utf8(p).len() == n,
        encode_utf8(s).len() <= n ==> truncated(s, n) == Some(s),
        encode_utf8(s).len() > n ==> (truncated(s, n) matches Some(t) ==> byte_prefix(s, n) is Some
            && t == byte_prefix(s, n)->0 + "…"@),
    decreases s.len(),
{
    if n > 0 && s.len() > 0 {
        let k = encode_scalar(s[0] as u32).len();
        let t = s.drop_first();
        if n - k >= 0 {
            cut_texts_are_beginnings(t, n - k);
            if let Some(p) = byte_prefix(t, n - k) {
                let q = seq![s[0]] + p;
                assert(q.drop_first() =~= p);
                assert(q[0] == s[0]);
                assert(s.take(q.len() as int) =~= seq![s[0]] + t.take(p.len() as int));
                assert(encode_utf8(q).len() == k + encode_utf8(p).len()) by {
                    reveal_with_fuel(encode_utf8, 2);
                }
            }
        }
    }
    if n == 0 {
        assert(s.take(0) =~= Seq::<char>::empty());
        assert(encode_utf8(Seq::<char>::empty()).len() == 0);
    }
}

/// A system that is reached by name and password is sent both, and one that is not is sent
/// neither.
pub proof fn names_and_passwords_are_sent_together(cfg: ConfigV, u: Seq<char>, p: Seq<char>)
    ensures
        lowercase(cfg.auth_type) == "basic"@ && cfg.username == Some(u) && cfg.password == Some(p)
            && u.len() > 0 ==> basic_auth(cfg) == Some(
            "Basic "@ + base64_of(encode_utf8(u + seq![':'] + p)),
        ),
        lowercase(cfg.auth_type) != "basic"@ ==> basic_auth(cfg) is None,
        cfg.username is None ==> basic_auth(cfg) is None,
{
    reveal_strlit(":");
    reveal_strlit("");
    assert(":"@ =~= seq![':']);
    assert(""@.len() == 0);
}

} // verus!
