use sa_mcp::codec::{encode_for_key, encode_for_query, fingerprint, hex_prefix};
use sa_mcp::json::{Json, Number, Object};
use sa_mcp::numeral::{dec_i64, dec_u64, is_float_literal, parse_i64, parse_unsigned};
use sa_mcp::strmap::StrMap;
use sa_mcp::table::{key2, Table};
use sa_mcp::text::{
    contains_char, cut_at_char, items_of, join, list_has, split_at_char, strip_prefix, trim,
    trim_end_char, trim_start_char,
};

fn parsed(text: &str) -> Json {
    match Json::parse(text) {
        Ok(v) => v,
        Err(e) => panic!("{}", e),
    }
}

#[test]
fn json_reads_and_writes() {
    let t = "{\"b\":[1,-2,3.5,true,null,\"x\\n\"],\"a\":{}}";
    let v = parsed(t);
    assert_eq!(v.to_text(), "{\"a\":{},\"b\":[1,-2,3.5,true,null,\"x\\n\"]}");
    assert!(parsed(&v.to_text()).equals(&v));
}

#[test]
fn json_errors_are_texts() {
    match Json::parse("{\"a\":") {
        Err(e) => assert_eq!(e, "EOF while parsing a value at line 1 column 5"),
        Ok(_) => panic!("error expected"),
    }
    match Json::parse("1e400") {
        Err(e) => assert_eq!(e, "number out of range at line 1 column 5"),
        Ok(_) => panic!("error expected"),
    }
}

#[test]
fn json_members_are_found() {
    let v = parsed("{\"s\":\"t\",\"n\":5,\"b\":false,\"l\":[1],\"o\":{\"k\":1},\"z\":null}");
    assert_eq!(v.str_at("s").unwrap(), "t");
    assert!(v.str_at("n").is_none());
    assert_eq!(v.get("n").unwrap().as_i64(), Some(5));
    assert_eq!(v.get("n").unwrap().as_u64(), Some(5));
    assert_eq!(parsed("-5").as_u64(), None);
    assert_eq!(parsed("-5").as_i64(), Some(-5));
    assert_eq!(parsed("18446744073709551615").as_i64(), None);
    assert_eq!(v.get("b").unwrap().as_bool(), Some(false));
    assert_eq!(v.get("l").unwrap().as_array().unwrap().len(), 1);
    assert_eq!(v.get("o").unwrap().as_object().unwrap().len(), 1);
    assert!(v.get("z").unwrap().is_null());
    assert!(v.get("missing").is_none());
    assert!(parsed("[1]").get("0").is_none());
}

#[test]
fn json_equality_goes_by_numbers() {
    assert!(parsed("{\"a\":1,\"b\":[0.0]}").equals(&parsed("{\"b\":[-0.0],\"a\":1}")));
    assert!(!parsed("1").equals(&parsed("1.0")));
    assert!(!parsed("{\"a\":1}").equals(&parsed("{\"a\":1,\"b\":1}")));
    assert!(!parsed("[1]").equals(&parsed("[2]")));
    assert!(!parsed("1").equals(&parsed("-1")));
}

#[test]
fn numbers_are_written_in_decimal() {
    assert_eq!(Json::Null.to_text(), "null");
    assert_eq!(Json::Bool(true).to_text(), "true");
    assert_eq!(Json::num(u64::MAX).to_text(), "18446744073709551615");
    assert_eq!(Json::Number(Number::NegInt(i64::MIN)).to_text(), "-9223372036854775808");
    // A number that is not negative is the same in either form.
    let five = Json::Number(Number::NegInt(5));
    assert_eq!(five.to_text(), "5");
    assert_eq!((five.as_u64(), five.as_i64()), (Some(5), Some(5)));
    assert!(five.equals(&Json::num(5)) && Json::num(5).equals(&five));
    assert!(!five.equals(&Json::num(6)));
}

#[test]
fn canonical_values_are_whole_where_they_can_be() {
    assert_eq!(parsed("[3.0,-2.0,-0.0,1e3,2.5]").canonical().to_text(), "[3,-2,0,1000,2.5]");
    assert_eq!(parsed("8e15").canonical().to_text(), "8000000000000000");
    assert_eq!(parsed("-8e15").canonical().to_text(), "-8000000000000000");
    assert_eq!(parsed("9e15").canonical().to_text(), "9000000000000000.0");
    assert_eq!(parsed("1e-7").canonical().to_text(), "1e-7");
    let v = parsed("{\"b\":{\"d\":4.0,\"c\":1},\"a\":2.0}");
    assert_eq!(v.canonical().to_text(), "{\"a\":2,\"b\":{\"c\":1,\"d\":4}}");
    assert!(v.canonical().canonical().equals(&v.canonical()));
}

#[test]
fn floats_are_taken_apart() {
    match parsed("-2.75") {
        Json::Number(Number::Float(f)) => {
            assert_eq!(f.trunc(), -2);
            assert_eq!(f.text(), "-2.75");
            assert!(!f.is_whole_below(100));
        }
        _ => panic!("number expected"),
    }
    match parsed("1e18") {
        Json::Number(Number::Float(f)) => {
            assert_eq!(f.trunc(), 1_000_000_000_000_000_000);
            assert!(f.is_whole_below(1_000_000_000_000_000_001));
            assert!(!f.is_whole_below(1_000_000_000_000_000_000));
        }
        _ => panic!("number expected"),
    }
    match parsed("-1e19") {
        Json::Number(Number::Float(f)) => assert_eq!(f.trunc(), i64::MIN),
        _ => panic!("number expected"),
    }
    match parsed("5e-324") {
        Json::Number(Number::Float(f)) => assert_eq!(f.trunc(), 0),
        _ => panic!("number expected"),
    }
}

#[test]
fn objects_keep_their_order() {
    let mut o = Object::new();
    o.set("b", Json::num(1));
    o.set("a", Json::num(2));
    o.set("c", Json::num(3));
    o.set("b", Json::num(4));
    assert_eq!(o.len(), 3);
    assert_eq!(o.key_at(1), "b");
    o.remove("a");
    o.remove("x");
    assert_eq!(Json::Object(o).to_text(), "{\"b\":4,\"c\":3}");
}

#[test]
fn fingerprints_are_digests() {
    assert_eq!(fingerprint("abc", 16), "ba7816bf8f01cfea");
    assert_eq!(fingerprint("", 8), "e3b0c442");
    assert_eq!(hex_prefix(&vec![0xba, 0x78, 0x0f], 5), "ba780");
}

#[test]
fn percent_encoding() {
    assert_eq!(encode_for_query("$filter=a eq 'b'&x"), "$filter=a%20eq%20'b'%26x");
    assert_eq!(encode_for_query("(1,2)+"), "(1,2)%2B");
    assert_eq!(encode_for_key("(1,2)=$"), "%281%2C2%29%3D%24");
}

#[test]
fn numerals() {
    assert_eq!(dec_u64(0), "0");
    assert_eq!(dec_u64(u64::MAX), "18446744073709551615");
    assert_eq!(dec_i64(i64::MIN), "-9223372036854775808");
    assert_eq!(dec_i64(42), "42");
    assert_eq!(parse_unsigned("007", 10), Some(7));
    assert_eq!(parse_unsigned("11", 10), None);
    assert_eq!(parse_unsigned("", 10), None);
    assert_eq!(parse_unsigned("+", 10), None);
    assert_eq!(parse_unsigned("99999999999999999999", u64::MAX), None);
    assert_eq!(parse_i64("-9223372036854775808"), Some(i64::MIN));
    assert_eq!(parse_i64("9223372036854775808"), None);
    assert_eq!(parse_i64("-"), None);
    assert_eq!(parse_i64("1 "), None);
}

#[test]
fn float_literals_are_those_of_the_language() {
    for t in [
        "1", "-1.5", ".5", "5.", "+1e10", "1E-3", "inf", "-Infinity", "NaN", "1.e5", "007",
    ] {
        assert!(is_float_literal(t), "{}", t);
        assert!(t.parse::<f64>().is_ok(), "{}", t);
    }
    for t in ["", ".", "e5", "1e", "1e+", "0x1", "1_0", " 1", "in", "--1", "1.2.3", "1)/Evil("] {
        assert!(!is_float_literal(t), "{}", t);
        assert!(t.parse::<f64>().is_err(), "{}", t);
    }
}

#[test]
fn texts_are_cut_and_joined() {
    assert_eq!(trim("\u{a0} x\ty \n"), "x\ty");
    for c in "\t\n\u{b}\u{c}\r \u{85}\u{a0}\u{1680}\u{2000}\u{200a}\u{2028}\u{2029}\u{202f}\u{205f}\u{3000}".chars() {
        assert_eq!(trim(&format!("{}x{}", c, c)), "x");
    }
    for c in "\u{8}\u{e}\u{1f}\u{200b}\u{2060}\u{180e}\u{feff}".chars() {
        assert_eq!(trim(&c.to_string()), c.to_string());
    }
    assert_eq!(trim_end_char("a//", '/'), "a");
    assert_eq!(trim_start_char("..a.", '.'), "a.");
    assert_eq!(split_at_char(",a,", ','), vec!["", "a", ""]);
    assert_eq!(items_of(" a , ,b,"), vec!["a", "b"]);
    assert_eq!(join(&vec!["a".to_string(), "b".to_string()], ", "), "a, b");
    assert_eq!(join(&vec![], ","), "");
    assert_eq!(cut_at_char("k=v=w", '='), Some(("k".to_string(), "v=w".to_string())));
    assert_eq!(cut_at_char("k", '='), None);
    assert_eq!(strip_prefix("abc", "ab").unwrap(), "c");
    assert!(strip_prefix("abc", "b").is_none());
    assert!(contains_char("abc", 'b'));
    assert!(!list_has(&vec!["a".to_string()], "b"));
}

#[test]
fn maps_and_tables_keep_what_is_set() {
    let mut m: StrMap<u32> = StrMap::new();
    m.insert("b".to_string(), 1);
    m.insert("a".to_string(), 2);
    m.insert("b".to_string(), 3);
    assert_eq!(m.len(), 2);
    assert_eq!(m.key_at(0), "a");
    assert_eq!(m.get("b"), Some(&3));
    assert_eq!(m.remove("a"), Some(2));
    assert_eq!(m.remove("a"), None);
    m.clear();
    assert_eq!(m.len(), 0);
    let mut t: Table<u32> = Table::new();
    t.set(key2("a", "b"), 1);
    t.set(key2("ab", ""), 2);
    t.set(key2("a", "b"), 3);
    assert_eq!(t.len(), 2);
    assert_eq!(t.get(&key2("a", "b")), Some(&3));
    assert_eq!(t.get(&key2("ab", "")), Some(&2));
    assert_eq!(t.get(&key2("", "ab")), None);
}
