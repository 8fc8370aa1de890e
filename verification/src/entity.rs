//! What the operations on entities share: metadata of one entity, keys in addresses,
//! limits on queries, and the removal of hidden fields.

use vstd::prelude::*;
use vstd::string::*;
use vstd::utf8::encode_utf8;
use crate::codec::{encoded_bytes_are_read_back, fingerprint, fingerprint_of, key_char, key_encoded, key_encoding_is_path_safe, lemma_marked_hex, marked_hex, percent_decoded};
use crate::config::{odata_name, odata_path_encode, opt_slice, text_result, valid_odata_name, MAX_EXPAND_ITEMS, MAX_FILTER_CHARS, MAX_SELECT_FIELDS};
use crate::field_acl::{denied, redacted_all, redaction_removes_what_is_hidden, FieldPolicy, PolicyV};
use crate::json::{copy_values, float_char, float_text, json_text, lemma_values, plainly_written, values, Json, JsonV, Members, NumV, Object};
use crate::numeral::{dec, dec_int, digits, float_literal, is_digit, is_float_literal, parse_i64, signed_of};
use crate::registry::strings_of_map;
use crate::strmap::{find, lemma_each_find, lemma_each_put, lemma_put_find, put, put_is_found, StrMap};
use crate::text::{alnum, cat2, cat3, chars_of, items_of, join, joined, list_items, opt_text, same, texts};

verus! {

/// The first entity set with a name.
pub open spec fn set_named(sets: Seq<JsonV>, name: Seq<char>) -> Option<JsonV>
    decreases sets.len(),
{
    if sets.len() == 0 {
        None
    } else if sets[0].text_at("name"@) == Some(name) {
        Some(sets[0])
    } else {
        set_named(sets.drop_first(), name)
    }
}

/// The elements of the array under a key, none where there is no array.
pub open spec fn array_at(v: JsonV, key: Seq<char>) -> Seq<JsonV> {
    match v.get(key) {
        Some(JsonV::Arr(a)) => a,
        _ => Seq::empty(),
    }
}

/// The entity set with a name, in a metadata document.
pub open spec fn set_in(md: JsonV, name: Seq<char>) -> Option<JsonV> {
    set_named(array_at(md, "entity_sets"@), name)
}

/// The entity set with a name, in a metadata document.
pub fn find_set<'a>(md: &'a Json, name: &str) -> (r: Option<&'a Json>)
    ensures
        (match r {
            Some(s) => set_in(md@, name@) == Some(s@),
            None => set_in(md@, name@) is None,
        }),
{
    if let Some(Json::Array(sets)) = md.get("entity_sets") {
        let ghost all = values(sets@);
        let mut i: usize = 0;
        proof {
            lemma_values(sets@);
            assert(all.skip(0) =~= all);
        }
        while i < sets.len()
            invariant
                i <= sets@.len(),
                all == values(sets@),
                all == array_at(md@, "entity_sets"@),
                set_named(all, name@) == set_named(all.skip(i as int), name@),
            decreases sets@.len() - i,
        {
            let ghost rest = all.skip(i as int);
            proof {
                lemma_values(sets@);
                assert(rest[0] == sets@[i as int]@);
                assert(rest.drop_first() =~= all.skip(i + 1));
            }
            if let Some(n) = sets[i].str_at("name") {
                if same(n.as_str(), name) {
                    return Some(&sets[i]);
                }
            }
            i = i + 1;
        }
        proof {
            lemma_values(sets@);
        }
    }
    None
}

/// The name of the type of an entity set: the one that the set names, or that of the set.
pub open spec fn named_type(md: JsonV, entity_set: Seq<char>) -> Seq<char> {
    match set_in(md, entity_set) {
        Some(s) => match s.text_at("entity_type"@) {
            Some(t) => t,
            None => entity_set,
        },
        None => entity_set,
    }
}

/// The metadata of one entity, null where there is none.
pub open spec fn meta_of(md: JsonV, entity_set: Seq<char>) -> JsonV {
    match md.get("entity_types"@) {
        Some(JsonV::Obj(types)) => match find(types, named_type(md, entity_set)) {
            Some(t) => t,
            None => match find(types, entity_set) {
                Some(t) => t,
                None => JsonV::Null,
            },
        },
        _ => JsonV::Null,
    }
}

/// The metadata of one entity, null where there is none.
pub fn entity_meta(md: &Json, entity_set: &str) -> (r: Json)
    ensures
        r@ == meta_of(md@, entity_set@),
{
    let et: String = match find_set(md, entity_set) {
        Some(s) => match s.str_at("entity_type") {
            Some(t) => t.clone(),
            None => entity_set.to_owned(),
        },
        None => entity_set.to_owned(),
    };
    if let Some(Json::Object(types)) = md.get("entity_types") {
        if let Some(t) = types.get(et.as_str()) {
            return t.copy();
        }
        if let Some(t) = types.get(entity_set) {
            return t.copy();
        }
    }
    Json::Null
}

/// The types of the properties that name one. Of two properties with one name, the
/// later counts.
pub open spec fn types_in(a: Seq<JsonV>) -> Seq<(Seq<char>, Seq<char>)>
    decreases a.len(),
{
    if a.len() == 0 {
        Seq::empty()
    } else {
        let head = types_in(a.drop_last());
        match (a.last().text_at("name"@), a.last().text_at("type"@)) {
            (Some(n), Some(t)) => put(head, n, t),
            _ => head,
        }
    }
}

/// The types of the properties of one entity.
pub fn prop_types(meta: &Json) -> (r: StrMap<String>)
    ensures
        strings_of_map(r@) == types_in(array_at(meta@, "properties"@)),
{
    let mut out: StrMap<String> = StrMap::new();
    assert(strings_of_map(out@) =~= Seq::<(Seq<char>, Seq<char>)>::empty());
    if let Some(Json::Array(a)) = meta.get("properties") {
        let ghost all = values(a@);
        let mut i: usize = 0;
        proof {
            lemma_values(a@);
        }
        while i < a.len()
            invariant
                i <= a@.len(),
                all == values(a@),
                strings_of_map(out@) == types_in(all.take(i as int)),
            decreases a@.len() - i,
        {
            proof {
                lemma_values(a@);
                assert(all.take(i + 1).drop_last() =~= all.take(i as int));
                assert(all.take(i + 1).last() == a@[i as int]@);
            }
            if let Some(n) = a[i].str_at("name") {
                if let Some(t) = a[i].str_at("type") {
                    let t2 = t.clone();
                    proof {
                        lemma_each_put(out@, |s: String| s@, n@, t2);
                    }
                    out.insert(n.clone(), t2);
                }
            }
            i = i + 1;
        }
        proof {
            lemma_values(a@);
            assert(all.take(i as int) =~= all);
        }
    }
    out
}

/// A text with every quote doubled.
pub open spec fn doubled(s: Seq<char>) -> Seq<char>
    decreases s.len(),
{
    if s.len() == 0 {
        s
    } else {
        let head = doubled(s.drop_last());
        if s.last() == '\'' {
            head + seq!['\'', '\'']
        } else {
            head.push(s.last())
        }
    }
}

fn double_quotes(s: &str) -> (r: String)
    ensures
        r@ == doubled(s@),
{
    let v = chars_of(s);
    let mut out = String::new();
    assert(out@ =~= Seq::<char>::empty());
    let mut i: usize = 0;
    while i < v.len()
        invariant
            i <= v@.len(),
            v@ == s@,
            out@ == doubled(s@.take(i as int)),
        decreases v@.len() - i,
    {
        assert(s@.take(i + 1).drop_last() =~= s@.take(i as int));
        let ghost prev = out@;
        if v[i] == '\'' {
            out.push('\'');
            out.push('\'');
            assert(out@ =~= prev + seq!['\'', '\'']);
        } else {
            out.push(v[i]);
        }
        i = i + 1;
    }
    assert(s@.take(i as int) =~= s@);
    out
}

/// A text as a literal between quotes.
pub open spec fn quoted(s: Seq<char>) -> Seq<char> {
    "'"@ + key_encoded(encode_utf8(doubled(s))) + "'"@
}

fn quote(s: &str) -> (r: String)
    ensures
        r@ == quoted(s@),
{
    cat3("'", odata_path_encode(double_quotes(s).as_str()).as_str(), "'")
}

/// Whether values of a type stand between quotes.
pub open spec fn quoted_type(t: Seq<char>) -> bool {
    t == "String"@ || t == "Guid"@ || t == "Date"@ || t == "DateTime"@ || t == "DateTimeOffset"@ || t
        == "Time"@ || t == "Binary"@ || t == "Stream"@
}

/// Whether values of a type stand as they are.
pub open spec fn raw_type(t: Seq<char>) -> bool {
    t == "Boolean"@ || t == "Byte"@ || t == "SByte"@ || t == "Int16"@ || t == "Int32"@ || t
        == "Int64"@
}

fn is_quoted_type(t: &str) -> (r: bool)
    ensures
        r == quoted_type(t@),
{
    same(t, "String") || same(t, "Guid") || same(t, "Date") || same(t, "DateTime") || same(
        t,
        "DateTimeOffset",
    ) || same(t, "Time") || same(t, "Binary") || same(t, "Stream")
}

fn is_raw_type(t: &str) -> (r: bool)
    ensures
        r == raw_type(t@),
{
    same(t, "Boolean") || same(t, "Byte") || same(t, "SByte") || same(t, "Int16") || same(
        t,
        "Int32",
    ) || same(t, "Int64")
}

/// Whether a text writes a number or a truth value.
pub open spec fn raw_text(s: Seq<char>) -> bool {
    signed_of(s) is Some || float_literal(s) || s == "true"@ || s == "false"@
}

fn is_raw_text(s: &str) -> (r: bool)
    ensures
        r == raw_text(s@),
{
    parse_i64(s).is_some() || is_float_literal(s) || same(s, "true") || same(s, "false")
}

/// A number with the suffix of its type. A text that writes no number stands between
/// quotes, and so do arrays and objects.
pub open spec fn suffixed(v: JsonV, suffix: Seq<char>) -> Seq<char> {
    match v {
        JsonV::Str(s) => if float_literal(s) {
            s + suffix
        } else {
            quoted(s)
        },
        JsonV::Num(_) => json_text(v) + suffix,
        JsonV::Bool(_) => json_text(v) + suffix,
        JsonV::Null => json_text(v) + suffix,
        _ => quoted(json_text(v)),
    }
}

fn suffix_of(v: &Json, suffix: &str) -> (r: String)
    ensures
        r@ == suffixed(v@, suffix@),
        plainly_written(v@),
{
    match v {
        Json::Str(s) => if is_float_literal(s.as_str()) {
            cat2(s.as_str(), suffix)
        } else {
            quote(s.as_str())
        },
        Json::Number(_) => cat2(v.to_text().as_str(), suffix),
        Json::Bool(_) => cat2(v.to_text().as_str(), suffix),
        Json::Null => cat2(v.to_text().as_str(), suffix),
        _ => quote(v.to_text().as_str()),
    }
}

/// The value of a key, as it stands in an address. How it is written depends on the type
/// of the property; where that is not known, texts stand between quotes, and numbers
/// and truth values as they are. Arrays and objects stand between quotes, whatever the
/// type.
pub open spec fn key_literal(ty: Option<Seq<char>>, v: JsonV) -> Seq<char> {
    let t = match ty {
        Some(x) => x,
        None => ""@,
    };
    if quoted_type(t) {
        match v {
            JsonV::Str(s) => quoted(s),
            _ => quoted(json_text(v)),
        }
    } else if raw_type(t) {
        match v {
            JsonV::Str(s) => if raw_text(s) {
                s
            } else {
                quoted(s)
            },
            JsonV::Num(_) => json_text(v),
            JsonV::Bool(_) => json_text(v),
            JsonV::Null => json_text(v),
            _ => quoted(json_text(v)),
        }
    } else if t == "Decimal"@ {
        suffixed(v, "M"@)
    } else if t == "Double"@ || t == "Single"@ {
        suffixed(v, "d"@)
    } else {
        match v {
            JsonV::Str(s) => quoted(s),
            JsonV::Num(_) => json_text(v),
            JsonV::Bool(_) => json_text(v),
            _ => quoted(json_text(v)),
        }
    }
}

fn literal(ty: Option<&String>, v: &Json) -> (r: String)
    ensures
        r@ == key_literal(
            match ty {
                Some(t) => Some(t@),
                None => None,
            },
            v@,
        ),
        literal_chars(r@),
{
    let t: &str = match ty {
        Some(x) => x.as_str(),
        None => "",
    };
    let r = if is_quoted_type(t) {
        match v {
            Json::Str(s) => quote(s.as_str()),
            _ => quote(v.to_text().as_str()),
        }
    } else if is_raw_type(t) {
        match v {
            Json::Str(s) => if is_raw_text(s.as_str()) {
                s.clone()
            } else {
                quote(s.as_str())
            },
            Json::Number(_) => v.to_text(),
            Json::Bool(_) => v.to_text(),
            Json::Null => v.to_text(),
            _ => quote(v.to_text().as_str()),
        }
    } else if same(t, "Decimal") {
        suffix_of(v, "M")
    } else if same(t, "Double") || same(t, "Single") {
        suffix_of(v, "d")
    } else {
        match v {
            Json::Str(s) => quote(s.as_str()),
            Json::Number(_) => v.to_text(),
            Json::Bool(_) => v.to_text(),
            _ => quote(v.to_text().as_str()),
        }
    };
    proof {
        key_values_stay_in_place(
            match ty {
                Some(x) => Some(x@),
                None => None,
            },
            v@,
        );
    }
    r
}

/// The first name among members that is no name of a key.
pub open spec fn bad_key_name(m: Members) -> Option<Seq<char>>
    decreases m.len(),
{
    if m.len() == 0 {
        None
    } else if !odata_name(m[0].0) {
        Some(m[0].0)
    } else {
        bad_key_name(m.drop_first())
    }
}

/// The parts of a key segment.
pub open spec fn key_parts(m: Members, types: Seq<(Seq<char>, Seq<char>)>) -> Seq<Seq<char>> {
    Seq::new(m.len(), |i: int| m[i].0 + "="@ + key_literal(find(types, m[i].0), m[i].1))
}

/// The key segment of an address, or what is wrong with the keys.
pub open spec fn key_text(keys: JsonV, types: Seq<(Seq<char>, Seq<char>)>) -> Result<
    Seq<char>,
    Seq<char>,
> {
    match keys {
        JsonV::Obj(m) => if m.len() == 0 {
            Err("'keys' must not be empty"@)
        } else {
            match bad_key_name(m) {
                Some(k) => Err("invalid key name '"@ + k + "'"@),
                None => Ok(joined(key_parts(m, types), ","@)),
            }
        },
        _ => Err("'keys' must be an object"@),
    }
}

fn find_bad_key(o: &Object) -> (r: Option<String>)
    ensures
        opt_text(r) == bad_key_name(o@),
{
    let n: usize = o.len();
    let mut i: usize = 0;
    assert(o@.skip(0) =~= o@);
    while i < n
        invariant
            i <= n,
            n == o@.len(),
            bad_key_name(o@) == bad_key_name(o@.skip(i as int)),
        decreases n - i,
    {
        let ghost rest = o@.skip(i as int);
        assert(rest[0] == o@[i as int]);
        assert(rest.drop_first() =~= o@.skip(i + 1));
        if !valid_odata_name(o.key_at(i).as_str()) {
            return Some(o.key_at(i).clone());
        }
        i = i + 1;
    }
    None
}

/// The key segment of an address, given the types of the properties.
pub fn key_segment_typed(keys: &Json, types: &StrMap<String>) -> (r: Result<String, String>)
    ensures
        text_result(r) == key_text(keys@, strings_of_map(types@)),
        (r matches Ok(s) ==> segment_chars(s@)),
{
    let o: &Object = match keys {
        Json::Object(o) => o,
        _ => {
            return Err("'keys' must be an object".to_owned());
        },
    };
    let n: usize = o.len();
    if n == 0 {
        return Err("'keys' must not be empty".to_owned());
    }
    if let Some(k) = find_bad_key(o) {
        return Err(cat3("invalid key name '", k.as_str(), "'"));
    }
    proof {
        lemma_good_key_names(o@);
    }
    let ghost tm = strings_of_map(types@);
    let mut parts: Vec<String> = Vec::new();
    let mut i: usize = 0;
    while i < n
        invariant
            i <= n,
            n == o@.len(),
            tm == strings_of_map(types@),
            parts@.len() == i,
            forall|k: int| 0 <= k < n ==> odata_name((#[trigger] o@[k]).0),
            forall|k: int| 0 <= k < i ==> #[trigger] parts@[k]@ == key_parts(o@, tm)[k],
            forall|k: int| 0 <= k < i ==> segment_chars(#[trigger] key_parts(o@, tm)[k]),
        decreases n - i,
    {
        proof {
            lemma_each_find(types@, |s: String| s@, o@[i as int].0);
        }
        let k = o.key_at(i);
        let v = literal(types.get(k.as_str()), o.value_at(i));
        parts.push(cat3(k.as_str(), "=", v.as_str()));
        proof {
            lemma_part_chars(k@, v@);
        }
        i = i + 1;
    }
    assert(texts(parts@) =~= key_parts(o@, tm));
    proof {
        lemma_joined_chars(key_parts(o@, tm));
    }
    Ok(join(&parts, ","))
}

/// The key segment of an address where no types are known.
pub fn key_segment(keys: &Json) -> (r: Result<String, String>)
    ensures
        text_result(r) == key_text(keys@, Seq::empty()),
        (r matches Ok(s) ==> segment_chars(s@)),
{
    let none: StrMap<String> = StrMap::new();
    assert(strings_of_map(none@) =~= Seq::<(Seq<char>, Seq<char>)>::empty());
    key_segment_typed(keys, &none)
}

/// Whether a character may stand in the value of a key.
pub open spec fn literal_char(c: char) -> bool {
    key_char(c) || c == '+'
}

/// Whether every character of a text may stand in the value of a key.
pub open spec fn literal_chars(s: Seq<char>) -> bool {
    forall|i: int| 0 <= i < s.len() ==> literal_char(#[trigger] s[i])
}

/// What is used as the value of a key cannot leave its place in the address: no slash,
/// blank, bracket, comma, equals sign, question mark or number sign stands in what is
/// written, whatever the type and whatever the value.
pub proof fn key_values_stay_in_place(ty: Option<Seq<char>>, v: JsonV)
    requires
        plainly_written(v),
    ensures
        literal_chars(key_literal(ty, v)),
{
    reveal_strlit("true");
    reveal_strlit("false");
    reveal_strlit("null");
    match v {
        JsonV::Str(s) => {
            lemma_quoted_chars(s);
            if raw_text(s) {
                crate::numeral::lemma_number_chars(s);
                assert forall|i: int| 0 <= i < s.len() implies literal_char(#[trigger] s[i]) by {}
                lemma_suffixed_chars(s);
            }
        },
        JsonV::Num(n) => {
            lemma_number_text(n);
            lemma_suffixed_chars(json_text(v));
            lemma_quoted_chars(json_text(v));
        },
        JsonV::Bool(_) => {
            lemma_suffixed_chars(json_text(v));
            lemma_quoted_chars(json_text(v));
        },
        JsonV::Null => {
            lemma_suffixed_chars(json_text(v));
            lemma_quoted_chars(json_text(v));
        },
        _ => {
            lemma_quoted_chars(json_text(v));
        },
    }
}

proof fn lemma_number_text(n: NumV)
    requires
        plainly_written(JsonV::Num(n)),
    ensures
        literal_chars(json_text(JsonV::Num(n))),
{
    let t = json_text(JsonV::Num(n));
    match n {
        NumV::Pos(k) => {
            lemma_dec_digits(k as nat);
        },
        NumV::Neg(k) => {
            lemma_dec_digits((if k < 0 {
                -k
            } else {
                k as int
            }) as nat);
        },
        NumV::Float(_) => {},
    }
    assert forall|i: int| 0 <= i < t.len() implies literal_char(#[trigger] t[i]) by {
        match n {
            NumV::Pos(k) => {
                assert(is_digit(dec(k as nat)[i]));
            },
            NumV::Neg(k) => {
                if k >= 0 {
                    assert(is_digit(dec(k as nat)[i]));
                } else if i > 0 {
                    assert(is_digit(dec((-k) as nat)[i - 1]));
                }
            },
            NumV::Float(b) => {
                assert(float_char(float_text(b)[i]));
            },
        }
    }
}

/// Whether a character may stand in the key segment of an address: one of a name or of a
/// value, or what stands between them.
pub open spec fn segment_char(c: char) -> bool {
    literal_char(c) || alnum(c) || c == '=' || c == ','
}

/// Whether every character of a text may stand in the key segment of an address.
pub open spec fn segment_chars(s: Seq<char>) -> bool {
    forall|i: int| 0 <= i < s.len() ==> segment_char(#[trigger] s[i])
}

/// Keys cannot leave the segment of the address that is theirs: of the characters of ASCII,
/// no slash, bracket, blank, question mark, number sign, ampersand or other separator
/// stands in it.
pub proof fn key_segments_stay_in_place(
    m: Members,
    types: Seq<(Seq<char>, Seq<char>)>,
    segment: Seq<char>,
    c: char,
)
    requires
        key_text(JsonV::Obj(m), types) == Ok::<Seq<char>, Seq<char>>(segment),
        forall|i: int| 0 <= i < m.len() ==> plainly_written((#[trigger] m[i]).1),
        c <= '\u{7f}',
        !key_char(c),
        c != '+' && c != '=' && c != ',',
    ensures
        segment_chars(segment),
        !segment.contains(c),
{
    let parts = key_parts(m, types);
    lemma_good_key_names(m);
    assert forall|k: int| 0 <= k < parts.len() implies segment_chars(#[trigger] parts[k]) by {
        key_values_stay_in_place(find(types, m[k].0), m[k].1);
        lemma_part_chars(m[k].0, key_literal(find(types, m[k].0), m[k].1));
    }
    lemma_joined_chars(parts);
    if segment.contains(c) {
        let i = choose|i: int| 0 <= i < segment.len() && segment[i] == c;
        assert(segment_char(segment[i]));
    }
}

proof fn lemma_good_key_names(m: Members)
    requires
        bad_key_name(m) is None,
    ensures
        forall|i: int| 0 <= i < m.len() ==> odata_name((#[trigger] m[i]).0),
    decreases m.len(),
{
    if m.len() > 0 {
        lemma_good_key_names(m.drop_first());
        assert forall|i: int| 0 <= i < m.len() implies odata_name((#[trigger] m[i]).0) by {
            if i > 0 {
                assert(m.drop_first()[i - 1] == m[i]);
            }
        }
    }
}

proof fn lemma_part_chars(name: Seq<char>, value: Seq<char>)
    requires
        odata_name(name),
        literal_chars(value),
    ensures
        segment_chars(name + "="@ + value),
{
    reveal_strlit("=");
    let s = name + "="@ + value;
    assert forall|i: int| 0 <= i < s.len() implies segment_char(#[trigger] s[i]) by {
        if i < name.len() {
            assert(s[i] == name[i]);
        } else if i > name.len() {
            assert(s[i] == value[i - name.len() - 1]);
        }
    }
}

proof fn lemma_joined_chars(parts: Seq<Seq<char>>)
    requires
        forall|k: int| 0 <= k < parts.len() ==> segment_chars(#[trigger] parts[k]),
    ensures
        segment_chars(joined(parts, ","@)),
    decreases parts.len(),
{
    reveal_strlit(",");
    if parts.len() > 1 {
        let head = joined(parts.drop_last(), ","@);
        let last = parts.last();
        let s = joined(parts, ","@);
        assert(segment_chars(last));
        lemma_joined_chars(parts.drop_last());
        assert forall|i: int| 0 <= i < s.len() implies segment_char(#[trigger] s[i]) by {
            if i < head.len() {
                assert(s[i] == head[i]);
            } else if i > head.len() {
                assert(s[i] == last[i - head.len() - 1]);
            }
        }
    }
}

proof fn lemma_dec_digits(n: nat)
    ensures
        digits(dec(n)),
    decreases n,
{
    if n >= 10 {
        lemma_dec_digits(n / 10);
        let d = dec(n);
        assert forall|i: int| 0 <= i < d.len() implies is_digit(#[trigger] d[i]) by {
            if i < d.len() - 1 {
                assert(is_digit(dec(n / 10)[i]));
            }
        }
    }
}

proof fn lemma_suffixed_chars(s: Seq<char>)
    requires
        literal_chars(s),
    ensures
        literal_chars(s + "M"@),
        literal_chars(s + "d"@),
{
    reveal_strlit("M");
    reveal_strlit("d");
    assert forall|i: int| 0 <= i < (s + "M"@).len() implies literal_char(
        #[trigger] (s + "M"@)[i],
    ) by {
        if i < s.len() {
            assert(literal_char(s[i]));
        }
    }
    assert forall|i: int| 0 <= i < (s + "d"@).len() implies literal_char(
        #[trigger] (s + "d"@)[i],
    ) by {
        if i < s.len() {
            assert(literal_char(s[i]));
        }
    }
}

proof fn lemma_quoted_chars(s: Seq<char>)
    ensures
        literal_chars(quoted(s)),
{
    reveal_strlit("'");
    let b = encode_utf8(doubled(s));
    key_encoding_is_path_safe(b);
    let e = key_encoded(b);
    let q = quoted(s);
    assert forall|i: int| 0 <= i < q.len() implies literal_char(#[trigger] q[i]) by {
        if 0 < i < q.len() - 1 {
            assert(q[i] == e[i - 1]);
        }
    }
}

/// What a call's own SAP credentials are known by: `none`, or a part of a digest.
pub open spec fn credential_mark(args: JsonV) -> Seq<char> {
    let u = text_member(args, "auth_username"@);
    let p = text_member(args, "auth_password"@);
    let t = text_member(args, "auth_token"@);
    if u.len() == 0 && p.len() == 0 && t.len() == 0 {
        "none"@
    } else {
        "ovr-"@ + fingerprint_of(u + "\u{1f}"@ + p + "\u{1f}"@ + t, 16)
    }
}

/// The text of a member, empty where there is none.
pub open spec fn text_member(v: JsonV, k: Seq<char>) -> Seq<char> {
    match v.text_at(k) {
        Some(s) => s,
        None => ""@,
    }
}

/// The text of a member, empty where there is none.
pub fn text_of_member(v: &Json, k: &str) -> (r: String)
    ensures
        r@ == text_member(v@, k@),
{
    match v.str_at(k) {
        Some(s) => s.clone(),
        None => "".to_owned(),
    }
}

/// What a call's own SAP credentials are known by. The credentials themselves do not
/// stand in it: it is `none`, or `ovr-` and 16 lower-case hexadecimal digits.
pub fn auth_fp(args: &Json) -> (r: String)
    ensures
        r@ == credential_mark(args@),
        r@ == "none"@ || marked_hex(r@, "ovr-"@, 16),
{
    let u = text_of_member(args, "auth_username");
    let p = text_of_member(args, "auth_password");
    let t = text_of_member(args, "auth_token");
    if u.as_str().is_empty() && p.as_str().is_empty() && t.as_str().is_empty() {
        return "none".to_owned();
    }
    let all = crate::text::cat5(u.as_str(), "\u{1f}", p.as_str(), "\u{1f}", t.as_str());
    let h = fingerprint(all.as_str(), 16);
    proof {
        lemma_marked_hex("ovr-"@, h@);
    }
    cat2("ovr-", h.as_str())
}

/// What is wrong with a query that asks for too much.
pub open spec fn cap_error(
    filter: Option<Seq<char>>,
    select: Option<Seq<char>>,
    expand: Option<Seq<char>>,
) -> Option<Seq<char>> {
    if filter matches Some(f) && f.len() > MAX_FILTER_CHARS {
        Some("$filter too long (max 2000 chars)"@)
    } else if select matches Some(s) && list_items(s).len() > MAX_SELECT_FIELDS {
        Some("$select too broad (max 50 fields)"@)
    } else if expand matches Some(e) && list_items(e).len() > MAX_EXPAND_ITEMS {
        Some("$expand too broad (max 5 items)"@)
    } else {
        None
    }
}

/// Refuses a query that asks for too much: a filter of too many characters, or too many
/// fields or items.
pub fn check_query_caps(filter: Option<&str>, select: Option<&str>, expand: Option<&str>) -> (r:
    Result<(), String>)
    ensures
        (match r {
            Ok(_) => cap_error(opt_slice(filter), opt_slice(select), opt_slice(expand)) is None,
            Err(e) => cap_error(opt_slice(filter), opt_slice(select), opt_slice(expand)) == Some(
                e@,
            ),
        }),
{
    if let Some(f) = filter {
        if chars_of(f).len() > MAX_FILTER_CHARS {
            return Err("$filter too long (max 2000 chars)".to_owned());
        }
    }
    if let Some(s) = select {
        let items = items_of(s);
        assert(texts(items@).len() == items@.len());
        if items.len() > MAX_SELECT_FIELDS {
            return Err("$select too broad (max 50 fields)".to_owned());
        }
    }
    if let Some(e) = expand {
        let items = items_of(e);
        assert(texts(items@).len() == items@.len());
        if items.len() > MAX_EXPAND_ITEMS {
            return Err("$expand too broad (max 5 items)".to_owned());
        }
    }
    Ok(())
}

/// The answer of a read without what is hidden.
pub open spec fn redacted_answer(
    p: PolicyV,
    instance: Seq<char>,
    entity: Seq<char>,
    res: JsonV,
) -> JsonV {
    match res {
        JsonV::Obj(m) => match find(m, "records"@) {
            Some(JsonV::Arr(a)) => JsonV::Obj(
                put(m, "records"@, JsonV::Arr(redacted_all(p, instance, entity, a))),
            ),
            _ => res,
        },
        _ => res,
    }
}

/// The answer of a read without what is hidden.
pub fn redact_collection(acl: &FieldPolicy, instance: &str, entity: &str, res: Json) -> (r: Json)
    ensures
        r@ == redacted_answer(acl@.rules, instance@, entity@, res@),
{
    match res {
        Json::Object(o) => {
            let mut o = o;
            let records: Option<Vec<Json>> = match o.get("records") {
                Some(Json::Array(a)) => Some(copy_values(a)),
                _ => None,
            };
            if let Some(a) = records {
                let mut a = a;
                let _n = acl.redact_records(instance, entity, &mut a);
                o.set("records", Json::Array(a));
            }
            Json::Object(o)
        },
        other => other,
    }
}

/// No record of an answer holds a hidden field, and every other field stays.
pub proof fn answers_hold_nothing_hidden(
    p: PolicyV,
    instance: Seq<char>,
    entity: Seq<char>,
    m: Members,
    a: Seq<JsonV>,
    i: int,
    rec: Members,
    field: Seq<char>,
)
    requires
        find(m, "records"@) == Some(JsonV::Arr(a)),
        0 <= i < a.len(),
        a[i] == JsonV::Obj(rec),
    ensures
        redacted_answer(p, instance, entity, JsonV::Obj(m)).get("records"@) == Some(
            JsonV::Arr(redacted_all(p, instance, entity, a)),
        ),
        redacted_all(p, instance, entity, a)[i].get(field) == (if denied(
            p,
            instance,
            entity,
            field,
        ) {
            None
        } else {
            find(rec, field)
        }),
{
    lemma_put_find(
        m,
        "records"@,
        JsonV::Arr(redacted_all(p, instance, entity, a)),
        "records"@,
    );
    redaction_removes_what_is_hidden(p, instance, entity, rec, field);
}

/// A property, marked where it is hidden.
pub open spec fn marked(
    p: PolicyV,
    instance: Seq<char>,
    entity: Seq<char>,
    v: JsonV,
) -> JsonV {
    match v {
        JsonV::Obj(m) => match v.text_at("name"@) {
            Some(n) => if denied(p, instance, entity, n) {
                JsonV::Obj(put(m, "access"@, JsonV::Str("restricted"@)))
            } else {
                v
            },
            None => v,
        },
        _ => v,
    }
}

/// Metadata in which the properties that are hidden are marked.
pub open spec fn annotated(
    p: PolicyV,
    instance: Seq<char>,
    entity: Seq<char>,
    meta: JsonV,
) -> JsonV {
    match meta {
        JsonV::Obj(m) => match find(m, "properties"@) {
            Some(JsonV::Arr(a)) => JsonV::Obj(
                put(
                    m,
                    "properties"@,
                    JsonV::Arr(Seq::new(a.len(), |i: int| marked(p, instance, entity, a[i]))),
                ),
            ),
            _ => meta,
        },
        _ => meta,
    }
}

fn mark(acl: &FieldPolicy, instance: &str, entity: &str, v: &Json) -> (r: Json)
    ensures
        r@ == marked(acl@.rules, instance@, entity@, v@),
{
    if let Json::Object(o) = v {
        if let Some(n) = v.str_at("name") {
            if acl.is_denied(instance, entity, n.as_str()) {
                let mut o2 = o.copy();
                o2.set("access", Json::str("restricted"));
                return Json::Object(o2);
            }
        }
    }
    v.copy()
}

/// Marks the properties that are hidden in the metadata of an entity.
pub fn annotate_acl(acl: &FieldPolicy, instance: &str, entity: &str, meta: Json) -> (r: Json)
    ensures
        r@ == annotated(acl@.rules, instance@, entity@, meta@),
{
    match meta {
        Json::Object(o) => {
            let mut o = o;
            let ghost m = o@;
            let mut props: Option<Vec<Json>> = None;
            if let Some(Json::Array(a)) = o.get("properties") {
                let ghost all = values(a@);
                let mut out: Vec<Json> = Vec::new();
                let mut i: usize = 0;
                while i < a.len()
                    invariant
                        i <= a@.len(),
                        all == values(a@),
                        out@.len() == i,
                        forall|k: int|
                            0 <= k < i ==> #[trigger] out@[k]@ == marked(
                                acl@.rules,
                                instance@,
                                entity@,
                                all[k],
                            ),
                    decreases a@.len() - i,
                {
                    proof {
                        lemma_values(a@);
                    }
                    out.push(mark(acl, instance, entity, &a[i]));
                    i = i + 1;
                }
                proof {
                    lemma_values(a@);
                    lemma_values(out@);
                    assert(values(out@) =~= Seq::new(
                        all.len(),
                        |i: int| marked(acl@.rules, instance@, entity@, all[i]),
                    ));
                }
                props = Some(out);
            }
            if let Some(p) = props {
                o.set("properties", Json::Array(p));
            }
            Json::Object(o)
        },
        other => other,
    }
}

proof fn lemma_type_names()
    ensures
        "String"@ != "Guid"@,
        "String"@ != "Date"@,
        "String"@ != "DateTime"@,
        "String"@ != "DateTimeOffset"@,
        "String"@ != "Time"@,
        "String"@ != "Binary"@,
        "String"@ != "Stream"@,
        "String"@ != "Boolean"@,
        "String"@ != "Byte"@,
        "String"@ != "SByte"@,
        "String"@ != "Int16"@,
        "String"@ != "Int32"@,
        "String"@ != "Int64"@,
        "String"@ != "Decimal"@,
        "String"@ != "Double"@,
        "String"@ != "Single"@,
        "Guid"@ != "Date"@,
        "Guid"@ != "DateTime"@,
        "Guid"@ != "DateTimeOffset"@,
        "Guid"@ != "Time"@,
        "Guid"@ != "Binary"@,
        "Guid"@ != "Stream"@,
        "Guid"@ != "Boolean"@,
        "Guid"@ != "Byte"@,
        "Guid"@ != "SByte"@,
        "Guid"@ != "Int16"@,
        "Guid"@ != "Int32"@,
        "Guid"@ != "Int64"@,
        "Guid"@ != "Decimal"@,
        "Guid"@ != "Double"@,
        "Guid"@ != "Single"@,
        "Date"@ != "DateTime"@,
        "Date"@ != "DateTimeOffset"@,
        "Date"@ != "Time"@,
        "Date"@ != "Binary"@,
        "Date"@ != "Stream"@,
        "Date"@ != "Boolean"@,
        "Date"@ != "Byte"@,
        "Date"@ != "SByte"@,
        "Date"@ != "Int16"@,
        "Date"@ != "Int32"@,
        "Date"@ != "Int64"@,
        "Date"@ != "Decimal"@,
        "Date"@ != "Double"@,
        "Date"@ != "Single"@,
        "DateTime"@ != "DateTimeOffset"@,
        "DateTime"@ != "Time"@,
        "DateTime"@ != "Binary"@,
        "DateTime"@ != "Stream"@,
        "DateTime"@ != "Boolean"@,
        "DateTime"@ != "Byte"@,
        "DateTime"@ != "SByte"@,
        "DateTime"@ != "Int16"@,
        "DateTime"@ != "Int32"@,
        "DateTime"@ != "Int64"@,
        "DateTime"@ != "Decimal"@,
        "DateTime"@ != "Double"@,
        "DateTime"@ != "Single"@,
        "DateTimeOffset"@ != "Time"@,
        "DateTimeOffset"@ != "Binary"@,
        "DateTimeOffset"@ != "Stream"@,
        "DateTimeOffset"@ != "Boolean"@,
        "DateTimeOffset"@ != "Byte"@,
        "DateTimeOffset"@ != "SByte"@,
        "DateTimeOffset"@ != "Int16"@,
        "DateTimeOffset"@ != "Int32"@,
        "DateTimeOffset"@ != "Int64"@,
        "DateTimeOffset"@ != "Decimal"@,
        "DateTimeOffset"@ != "Double"@,
        "DateTimeOffset"@ != "Single"@,
        "Time"@ != "Binary"@,
        "Time"@ != "Stream"@,
        "Time"@ != "Boolean"@,
        "Time"@ != "Byte"@,
        "Time"@ != "SByte"@,
        "Time"@ != "Int16"@,
        "Time"@ != "Int32"@,
        "Time"@ != "Int64"@,
        "Time"@ != "Decimal"@,
        "Time"@ != "Double"@,
        "Time"@ != "Single"@,
        "Binary"@ != "Stream"@,
        "Binary"@ != "Boolean"@,
        "Binary"@ != "Byte"@,
        "Binary"@ != "SByte"@,
        "Binary"@ != "Int16"@,
        "Binary"@ != "Int32"@,
        "Binary"@ != "Int64"@,
        "Binary"@ != "Decimal"@,
        "Binary"@ != "Double"@,
        "Binary"@ != "Single"@,
        "Stream"@ != "Boolean"@,
        "Stream"@ != "Byte"@,
        "Stream"@ != "SByte"@,
        "Stream"@ != "Int16"@,
        "Stream"@ != "Int32"@,
        "Stream"@ != "Int64"@,
        "Stream"@ != "Decimal"@,
        "Stream"@ != "Double"@,
        "Stream"@ != "Single"@,
        "Boolean"@ != "Byte"@,
        "Boolean"@ != "SByte"@,
        "Boolean"@ != "Int16"@,
        "Boolean"@ != "Int32"@,
        "Boolean"@ != "Int64"@,
        "Boolean"@ != "Decimal"@,
        "Boolean"@ != "Double"@,
        "Boolean"@ != "Single"@,
        "Byte"@ != "SByte"@,
        "Byte"@ != "Int16"@,
        "Byte"@ != "Int32"@,
        "Byte"@ != "Int64"@,
        "Byte"@ != "Decimal"@,
        "Byte"@ != "Double"@,
        "Byte"@ != "Single"@,
        "SByte"@ != "Int16"@,
        "SByte"@ != "Int32"@,
        "SByte"@ != "Int64"@,
        "SByte"@ != "Decimal"@,
        "SByte"@ != "Double"@,
        "SByte"@ != "Single"@,
        "Int16"@ != "Int32"@,
        "Int16"@ != "Int64"@,
        "Int16"@ != "Decimal"@,
        "Int16"@ != "Double"@,
        "Int16"@ != "Single"@,
        "Int32"@ != "Int64"@,
        "Int32"@ != "Decimal"@,
        "Int32"@ != "Double"@,
        "Int32"@ != "Single"@,
        "Int64"@ != "Decimal"@,
        "Int64"@ != "Double"@,
        "Int64"@ != "Single"@,
        "Decimal"@ != "Double"@,
        "Decimal"@ != "Single"@,
        "Double"@ != "Single"@,
{
    reveal_strlit("String");
    reveal_strlit("Guid");
    reveal_strlit("Date");
    reveal_strlit("DateTime");
    reveal_strlit("DateTimeOffset");
    reveal_strlit("Time");
    reveal_strlit("Binary");
    reveal_strlit("Stream");
    reveal_strlit("Boolean");
    reveal_strlit("Byte");
    reveal_strlit("SByte");
    reveal_strlit("Int16");
    reveal_strlit("Int32");
    reveal_strlit("Int64");
    reveal_strlit("Decimal");
    reveal_strlit("Double");
    reveal_strlit("Single");
    assert("String"@.len() == 6);
    assert("Guid"@.len() == 4);
    assert("Date"@.len() == 4);
    assert("DateTime"@.len() == 8);
    assert("DateTimeOffset"@.len() == 14);
    assert("Time"@.len() == 4);
    assert("Binary"@.len() == 6);
    assert("Stream"@.len() == 6);
    assert("Boolean"@.len() == 7);
    assert("Byte"@.len() == 4);
    assert("SByte"@.len() == 5);
    assert("Int16"@.len() == 5);
    assert("Int32"@.len() == 5);
    assert("Int64"@.len() == 5);
    assert("Decimal"@.len() == 7);
    assert("Double"@.len() == 6);
    assert("Single"@.len() == 6);
    assert("String"@[0] != "Binary"@[0]);
    assert("String"@[3] != "Stream"@[3]);
    assert("String"@[0] != "Double"@[0]);
    assert("String"@[1] != "Single"@[1]);
    assert("Guid"@[0] != "Date"@[0]);
    assert("Guid"@[0] != "Time"@[0]);
    assert("Guid"@[0] != "Byte"@[0]);
    assert("Date"@[0] != "Time"@[0]);
    assert("Date"@[0] != "Byte"@[0]);
    assert("Time"@[0] != "Byte"@[0]);
    assert("Binary"@[0] != "Stream"@[0]);
    assert("Binary"@[0] != "Double"@[0]);
    assert("Binary"@[0] != "Single"@[0]);
    assert("Stream"@[0] != "Double"@[0]);
    assert("Stream"@[1] != "Single"@[1]);
    assert("Boolean"@[0] != "Decimal"@[0]);
    assert("SByte"@[0] != "Int16"@[0]);
    assert("SByte"@[0] != "Int32"@[0]);
    assert("SByte"@[0] != "Int64"@[0]);
    assert("Int16"@[3] != "Int32"@[3]);
    assert("Int16"@[3] != "Int64"@[3]);
    assert("Int32"@[3] != "Int64"@[3]);
    assert("Double"@[0] != "Single"@[0]);
}

/// A number in the key of a property of a whole-number or truth type is written as it is, in
/// decimal, without quotes and without a suffix; a truth value as `true` or `false`.
pub proof fn numbers_in_keys_are_raw(ty: Seq<char>, v: JsonV)
    requires
        ty == "Boolean"@ || ty == "Byte"@ || ty == "SByte"@ || ty == "Int16"@ || ty == "Int32"@
            || ty == "Int64"@,
    ensures
        v matches JsonV::Num(_) ==> key_literal(Some(ty), v) == json_text(v),
        v matches JsonV::Num(NumV::Pos(n)) ==> key_literal(Some(ty), v) == dec_int(n as int),
        v matches JsonV::Num(NumV::Neg(n)) ==> key_literal(Some(ty), v) == dec_int(n as int),
        v == JsonV::Bool(true) ==> key_literal(Some(ty), v) == "true"@,
        v == JsonV::Bool(false) ==> key_literal(Some(ty), v) == "false"@,
        v matches JsonV::Str(s) ==> (signed_of(s) is Some || float_literal(s) ==> key_literal(
            Some(ty),
            v,
        ) == s),
        v == JsonV::Str("true"@) ==> key_literal(Some(ty), v) == "true"@,
        v == JsonV::Str("false"@) ==> key_literal(Some(ty), v) == "false"@,
{
    lemma_type_names();
}

/// A text that writes no number stands between quotes, whatever the type of its property.
pub proof fn other_texts_in_keys_are_quoted(ty: Option<Seq<char>>, s: Seq<char>)
    requires
        signed_of(s) is None,
        !float_literal(s),
        s != "true"@,
        s != "false"@,
    ensures
        key_literal(ty, JsonV::Str(s)) == quoted(s),
{
}

/// In the key of a text, a moment, a GUID or bytes, everything stands between quotes.
pub proof fn texts_in_keys_are_quoted(ty: Seq<char>, s: Seq<char>, v: JsonV)
    requires
        ty == "String"@ || ty == "Guid"@ || ty == "Date"@ || ty == "DateTime"@ || ty
            == "DateTimeOffset"@ || ty == "Time"@ || ty == "Binary"@ || ty == "Stream"@,
        !(v is Str),
    ensures
        key_literal(Some(ty), JsonV::Str(s)) == quoted(s),
        key_literal(Some(ty), v) == quoted(json_text(v)),
{
}

/// Decimal numbers carry an `M`, floating-point numbers a `d`, as numbers and as texts.
pub proof fn fractions_in_keys_carry_a_suffix(ty: Seq<char>, v: JsonV, s: Seq<char>)
    requires
        ty == "Decimal"@ || ty == "Double"@ || ty == "Single"@,
        v is Num,
        float_literal(s),
    ensures
        ty == "Decimal"@ ==> key_literal(Some(ty), v) == json_text(v) + seq!['M'] && key_literal(
            Some(ty),
            JsonV::Str(s),
        ) == s + seq!['M'],
        ty != "Decimal"@ ==> key_literal(Some(ty), v) == json_text(v) + seq!['d'] && key_literal(
            Some(ty),
            JsonV::Str(s),
        ) == s + seq!['d'],
{
    lemma_type_names();
    reveal_strlit("M");
    reveal_strlit("d");
    assert("M"@ =~= seq!['M']);
    assert("d"@ =~= seq!['d']);
}

/// Whether keys of properties of a type are written in a way of their own.
pub open spec fn known_type(t: Seq<char>) -> bool {
    t == "String"@
        || t == "Guid"@
        || t == "Date"@
        || t == "DateTime"@
        || t == "DateTimeOffset"@
        || t == "Time"@
        || t == "Binary"@
        || t == "Stream"@
        || t == "Boolean"@
        || t == "Byte"@
        || t == "SByte"@
        || t == "Int16"@
        || t == "Int32"@
        || t == "Int64"@
        || t == "Decimal"@
        || t == "Double"@
        || t == "Single"@
}

/// Where the type of a property is not known, texts stand between quotes, and numbers and
/// truth values as they are.
pub proof fn keys_of_unknown_types_go_by_the_value(ty: Option<Seq<char>>, v: JsonV)
    requires
        ty matches Some(t) ==> !known_type(t),
    ensures
        v matches JsonV::Str(s) ==> key_literal(ty, v) == quoted(s),
        v is Num ==> key_literal(ty, v) == json_text(v),
        v == JsonV::Bool(true) ==> key_literal(ty, v) == "true"@,
        v == JsonV::Bool(false) ==> key_literal(ty, v) == "false"@,
{
    reveal_strlit("");
    reveal_strlit("String");
    reveal_strlit("Guid");
    reveal_strlit("Date");
    reveal_strlit("DateTime");
    reveal_strlit("DateTimeOffset");
    reveal_strlit("Time");
    reveal_strlit("Binary");
    reveal_strlit("Stream");
    reveal_strlit("Boolean");
    reveal_strlit("Byte");
    reveal_strlit("SByte");
    reveal_strlit("Int16");
    reveal_strlit("Int32");
    reveal_strlit("Int64");
    reveal_strlit("Decimal");
    reveal_strlit("Double");
    reveal_strlit("Single");
    assert(!known_type(""@)) by {
        assert("String"@.len() > 0);
        assert("Guid"@.len() > 0);
        assert("Date"@.len() > 0);
        assert("DateTime"@.len() > 0);
        assert("DateTimeOffset"@.len() > 0);
        assert("Time"@.len() > 0);
        assert("Binary"@.len() > 0);
        assert("Stream"@.len() > 0);
        assert("Boolean"@.len() > 0);
        assert("Byte"@.len() > 0);
        assert("SByte"@.len() > 0);
        assert("Int16"@.len() > 0);
        assert("Int32"@.len() > 0);
        assert("Int64"@.len() > 0);
        assert("Decimal"@.len() > 0);
        assert("Double"@.len() > 0);
        assert("Single"@.len() > 0);
    }
}

/// A text with every pair of quotes made one.
pub open spec fn halved(s: Seq<char>) -> Seq<char>
    decreases s.len(),
{
    if s.len() == 0 {
        s
    } else if s.len() >= 2 && s[0] == '\'' && s[1] == '\'' {
        seq!['\''] + halved(s.skip(2))
    } else {
        seq![s[0]] + halved(s.skip(1))
    }
}

proof fn lemma_halved(s: Seq<char>, t: Seq<char>)
    ensures
        halved(doubled(s) + t) == s + halved(t),
    decreases s.len(),
{
    if s.len() == 0 {
        assert(doubled(s) + t =~= t);
        assert(s + halved(t) =~= halved(t));
    } else {
        let c = s.last();
        let p = if c == '\'' {
            seq!['\'', '\'']
        } else {
            seq![c]
        };
        assert(doubled(s) + t =~= doubled(s.drop_last()) + (p + t));
        lemma_halved(s.drop_last(), p + t);
        assert(halved(p + t) == seq![c] + halved(t)) by {
            if c == '\'' {
                assert((p + t).skip(2) =~= t);
            } else {
                assert((p + t).skip(1) =~= t);
            }
        }
        assert(s.drop_last() + (seq![c] + halved(t)) =~= s + halved(t));
    }
}

/// A text between quotes is read back as it was: what stands between them, decoded and with
/// every pair of quotes made one, is the text.
pub proof fn quoted_texts_are_read_back(s: Seq<char>)
    ensures
        ({
            let q = quoted(s);
            &&& q.len() >= 2
            &&& q[0] == '\''
            &&& q.last() == '\''
            &&& percent_decoded(q.subrange(1, q.len() - 1)) == encode_utf8(doubled(s))
            &&& halved(doubled(s)) == s
        }),
{
    reveal_strlit("'");
    let e = key_encoded(encode_utf8(doubled(s)));
    let q = quoted(s);
    assert(q.subrange(1, q.len() - 1) =~= e);
    encoded_bytes_are_read_back(encode_utf8(doubled(s)));
    lemma_halved(s, Seq::empty());
    assert(doubled(s) + Seq::<char>::empty() =~= doubled(s));
    assert(halved(Seq::<char>::empty()) =~= Seq::<char>::empty());
    assert(s + Seq::<char>::empty() =~= s);
}

/// The key segment of one key is its name, an equals sign and its value; each further key adds
/// a comma and its own part.
pub proof fn segments_hold_every_key(
    m: Members,
    types: Seq<(Seq<char>, Seq<char>)>,
    name: Seq<char>,
    v: JsonV,
)
    requires
        forall|i: int| 0 <= i < m.len() ==> odata_name((#[trigger] m[i]).0),
        odata_name(name),
    ensures
        key_text(JsonV::Obj(seq![(name, v)]), types) == Ok::<Seq<char>, Seq<char>>(
            name + seq!['='] + key_literal(find(types, name), v),
        ),
        m.len() > 0 ==> (key_text(JsonV::Obj(m), types) matches Ok(s) && key_text(
            JsonV::Obj(m.push((name, v))),
            types,
        ) == Ok::<Seq<char>, Seq<char>>(
            s + seq![','] + name + seq!['='] + key_literal(find(types, name), v),
        )),
{
    reveal_strlit("=");
    reveal_strlit(",");
    assert("="@ =~= seq!['=']);
    assert(","@ =~= seq![',']);
    let one = seq![(name, v)];
    lemma_names_are_good(one);
    lemma_names_are_good(m);
    let p = key_parts(one, types);
    assert(p[0] == name + seq!['='] + key_literal(find(types, name), v));
    assert(joined(p, ","@) == p[0]);
    if m.len() > 0 {
        let more = m.push((name, v));
        assert forall|i: int| 0 <= i < more.len() implies odata_name((#[trigger] more[i]).0) by {
            if i < m.len() {
                assert(more[i] == m[i]);
            }
        }
        lemma_names_are_good(more);
        let a = key_parts(m, types);
        let b = key_parts(more, types);
        assert(b.drop_last() =~= a);
        assert(b.last() == p[0]);
        assert(joined(b, ","@) =~= joined(a, ","@) + seq![','] + name + seq!['='] + key_literal(
            find(types, name),
            v,
        ));
    }
}

proof fn lemma_names_are_good(m: Members)
    requires
        forall|i: int| 0 <= i < m.len() ==> odata_name((#[trigger] m[i]).0),
    ensures
        bad_key_name(m) is None,
    decreases m.len(),
{
    if m.len() > 0 {
        assert(odata_name(m[0].0));
        let t = m.drop_first();
        assert forall|i: int| 0 <= i < t.len() implies odata_name((#[trigger] t[i]).0) by {
            assert(t[i] == m[i + 1]);
        }
        lemma_names_are_good(t);
    }
}

/// Keys that are no object, an empty one, or one with a name that is none are refused.
pub proof fn wrong_keys_are_refused(keys: JsonV, types: Seq<(Seq<char>, Seq<char>)>, i: int)
    requires
        keys matches JsonV::Obj(m) ==> m.len() == 0 || (0 <= i < m.len() && !odata_name(m[i].0)),
    ensures
        key_text(keys, types) is Err,
{
    if let JsonV::Obj(m) = keys {
        if bad_key_name(m) is None {
            lemma_good_key_names(m);
        }
    }
}

/// The type of a property is the one that the metadata gives it; where it is given more than
/// once, the last counts.
pub proof fn properties_have_their_types(a: Seq<JsonV>, i: int, name: Seq<char>, ty: Seq<char>)
    requires
        0 <= i < a.len(),
        a[i].get("name"@) == Some(JsonV::Str(name)),
        a[i].get("type"@) == Some(JsonV::Str(ty)),
        forall|j: int|
            i < j < a.len() ==> (#[trigger] a[j]).get("name"@) != Some(JsonV::Str(name)),
    ensures
        find(types_in(a), name) == Some(ty),
    decreases a.len(),
{
    broadcast use put_is_found;

    let b = a.drop_last();
    if i < b.len() {
        assert(a[a.len() - 1].get("name"@) != Some(JsonV::Str(name)));
        assert(b[i] == a[i]);
        assert forall|j: int| i < j < b.len() implies (#[trigger] b[j]).get("name"@) != Some(
            JsonV::Str(name),
        ) by {
            assert(b[j] == a[j]);
        }
        properties_have_their_types(b, i, name, ty);
    }
}

/// A property that the metadata does not name has no type.
pub proof fn unnamed_properties_have_no_type(a: Seq<JsonV>, name: Seq<char>)
    requires
        forall|j: int|
            0 <= j < a.len() ==> (#[trigger] a[j]).get("name"@) != Some(JsonV::Str(name)),
    ensures
        find(types_in(a), name) is None,
    decreases a.len(),
{
    broadcast use put_is_found;

    if a.len() > 0 {
        let b = a.drop_last();
        assert(a[a.len() - 1].get("name"@) != Some(JsonV::Str(name)));
        assert forall|j: int| 0 <= j < b.len() implies (#[trigger] b[j]).get("name"@) != Some(
            JsonV::Str(name),
        ) by {
            assert(b[j] == a[j]);
        }
        unnamed_properties_have_no_type(b, name);
    }
}

/// The metadata of an entity set is that of the type that the first set with its name names;
/// a type of the set's own name stands in where there is no such.
pub proof fn sets_have_the_metadata_of_their_type(
    md: JsonV,
    sets: Seq<JsonV>,
    types: Members,
    i: int,
    set: Seq<char>,
    ty: Seq<char>,
    meta: JsonV,
)
    requires
        md.get("entity_sets"@) == Some(JsonV::Arr(sets)),
        md.get("entity_types"@) == Some(JsonV::Obj(types)),
        0 <= i < sets.len(),
        sets[i].get("name"@) == Some(JsonV::Str(set)),
        sets[i].get("entity_type"@) == Some(JsonV::Str(ty)),
        forall|j: int| 0 <= j < i ==> (#[trigger] sets[j]).get("name"@) != Some(JsonV::Str(set)),
    ensures
        find(types, ty) == Some(meta) ==> meta_of(md, set) == meta,
        find(types, ty) is None && find(types, set) == Some(meta) ==> meta_of(md, set) == meta,
        find(types, ty) is None && find(types, set) is None ==> meta_of(md, set) == JsonV::Null,
        set_in(md, set) == Some(sets[i]),
{
    lemma_first_named(sets, i, set);
}

proof fn lemma_first_named(sets: Seq<JsonV>, i: int, set: Seq<char>)
    requires
        0 <= i < sets.len(),
        sets[i].get("name"@) == Some(JsonV::Str(set)),
        forall|j: int| 0 <= j < i ==> (#[trigger] sets[j]).get("name"@) != Some(JsonV::Str(set)),
    ensures
        set_named(sets, set) == Some(sets[i]),
    decreases sets.len(),
{
    if i > 0 {
        assert(sets[0].get("name"@) != Some(JsonV::Str(set)));
        let t = sets.drop_first();
        assert forall|j: int| 0 <= j < i - 1 implies (#[trigger] t[j]).get("name"@) != Some(
            JsonV::Str(set),
        ) by {
            assert(t[j] == sets[j + 1]);
        }
        lemma_first_named(t, i - 1, set);
    }
}

/// Marking what is hidden changes no more than that: every property is there, as it was, and
/// carries `restricted` if and only if it is hidden.
pub proof fn metadata_marks_what_is_hidden(
    p: PolicyV,
    instance: Seq<char>,
    entity: Seq<char>,
    m: Members,
    a: Seq<JsonV>,
    i: int,
    f: Members,
    name: Seq<char>,
    k: Seq<char>,
)
    requires
        find(m, "properties"@) == Some(JsonV::Arr(a)),
        0 <= i < a.len(),
        a[i] == JsonV::Obj(f),
        find(f, "name"@) == Some(JsonV::Str(name)),
        find(f, "access"@) is None,
        k != "access"@,
    ensures
        annotated(p, instance, entity, JsonV::Obj(m)).get("properties"@) matches Some(JsonV::Arr(b))
            && b.len() == a.len() && b[i].get(k) == a[i].get(k) && (denied(p, instance, entity, name)
            ==> b[i].get("access"@) == Some(JsonV::Str("restricted"@))) && (!denied(
            p,
            instance,
            entity,
            name,
        ) ==> b[i] == a[i]),
        k != "properties"@ ==> annotated(p, instance, entity, JsonV::Obj(m)).get(k) == find(m, k),
{
    broadcast use put_is_found;

}

/// A read shows every record, in its order, with every field that is not hidden as it was;
/// what stands beside the records stays.
pub proof fn reads_show_what_is_not_hidden(
    p: PolicyV,
    instance: Seq<char>,
    entity: Seq<char>,
    m: Members,
    a: Seq<JsonV>,
    i: int,
    k: Seq<char>,
)
    requires
        find(m, "records"@) == Some(JsonV::Arr(a)),
        0 <= i < a.len(),
    ensures
        redacted_answer(p, instance, entity, JsonV::Obj(m)).get("records"@) matches Some(
            JsonV::Arr(b),
        ) && b.len() == a.len() && (!denied(p, instance, entity, k) ==> b[i].get(k) == a[i].get(k))
            && (!(a[i] is Obj) ==> b[i] == a[i]),
        k != "records"@ ==> redacted_answer(p, instance, entity, JsonV::Obj(m)).get(k) == find(m, k),
{
    broadcast use put_is_found;

    if let JsonV::Obj(r) = a[i] {
        redaction_removes_what_is_hidden(p, instance, entity, r, k);
    }
}

/// A query is within the limits if and only if its filter has at most 2000 characters, and it
/// names at most 50 fields and at most 5 items to expand.
pub proof fn limits_are_kept_exactly(
    filter: Option<Seq<char>>,
    select: Option<Seq<char>>,
    expand: Option<Seq<char>>,
)
    ensures
        cap_error(filter, select, expand) is None <==> (filter matches Some(f) ==> f.len() <= 2000)
            && (select matches Some(s) ==> list_items(s).len() <= 50) && (expand matches Some(e)
            ==> list_items(e).len() <= 5),
        filter matches Some(f) && f.len() > 2000 ==> cap_error(filter, select, expand) == Some(
            "$filter too long (max 2000 chars)"@,
        ),
{
}

/// A call without credentials of its own is marked `none`; the mark of others tells which
/// name, password and token they are.
pub proof fn marks_go_by_the_credentials(args: JsonV, u: Seq<char>, p: Seq<char>, t: Seq<char>)
    requires
        args.text_at("auth_username"@) == Some(u) || (args.text_at("auth_username"@) is None && u
            == ""@),
        args.text_at("auth_password"@) == Some(p) || (args.text_at("auth_password"@) is None && p
            == ""@),
        args.text_at("auth_token"@) == Some(t) || (args.text_at("auth_token"@) is None && t == ""@),
    ensures
        u.len() == 0 && p.len() == 0 && t.len() == 0 ==> credential_mark(args) == "none"@,
        u.len() > 0 || p.len() > 0 || t.len() > 0 ==> credential_mark(args) == "ovr-"@
            + fingerprint_of(u + seq!['\u{1f}'] + p + seq!['\u{1f}'] + t, 16),
{
    reveal_strlit("\u{1f}");
    assert("\u{1f}"@ =~= seq!['\u{1f}']);
}

} // verus!
