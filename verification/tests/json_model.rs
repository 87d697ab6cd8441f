use remine_client::json::{find_insert_pos, find_key, key_precedes, FloatText, Json, JsonNumber};
use remine_client::json_text::{to_compact_string, to_pretty_string};
use remine_client::text::{contains_text, decimal_string, parse_unsigned, trim_white};

fn from_value(v: &serde_json::Value) -> Json {
    match v {
        serde_json::Value::Null => Json::Null,
        serde_json::Value::Bool(b) => Json::Bool(*b),
        serde_json::Value::Number(n) => {
            if let Some(u) = n.as_u64() {
                Json::Number(JsonNumber::PosInt(u))
            } else if let Some(i) = n.as_i64() {
                Json::Number(JsonNumber::NegInt(i))
            } else {
                Json::Number(JsonNumber::Float(FloatText::new(n.to_string()).unwrap()))
            }
        }
        serde_json::Value::String(s) => Json::Str(s.clone()),
        serde_json::Value::Array(a) => Json::Array(a.iter().map(from_value).collect()),
        serde_json::Value::Object(m) => {
            let mut j = Json::Null;
            for (k, x) in m {
                j.set(k, from_value(x));
            }
            if m.is_empty() {
                j = Json::Object(Vec::new());
            }
            j
        }
    }
}

fn sample() -> serde_json::Value {
    serde_json::from_str(
        r#"{"zeta": [1, -2, 2.5, true, null, "a\"b\\c\nd\u0001"], "alpha": {"x": {}, "y": []},
            "mid": "tab\there", "n": 18446744073709551615, "neg": -9223372036854775808}"#,
    )
    .unwrap()
}

#[test]
fn compact_text_matches_serde_json() {
    let v = sample();
    let j = from_value(&v);
    assert_eq!(to_compact_string(&j), serde_json::to_string(&v).unwrap());
}

#[test]
fn pretty_text_matches_serde_json() {
    let v = sample();
    let j = from_value(&v);
    assert_eq!(to_pretty_string(&j), serde_json::to_string_pretty(&v).unwrap());
}

#[test]
fn pretty_text_of_scalars_and_empties() {
    assert_eq!(to_pretty_string(&Json::Array(Vec::new())), "[]");
    assert_eq!(to_pretty_string(&Json::Object(Vec::new())), "{}");
    assert_eq!(to_pretty_string(&Json::Str("x".to_string())), "\"x\"");
    assert_eq!(to_pretty_string(&Json::Null), "null");
}

#[test]
fn set_inserts_keys_in_order_and_replaces() {
    let mut j = Json::Null;
    j.set("url", Json::Str("u".to_string()));
    j.set("apikey", Json::Str("k".to_string()));
    j.set("b", Json::Bool(false));
    assert_eq!(to_compact_string(&j), r#"{"apikey":"k","b":false,"url":"u"}"#);
    j.set("b", Json::Bool(true));
    assert_eq!(to_compact_string(&j), r#"{"apikey":"k","b":true,"url":"u"}"#);
    assert!(matches!(j.field("b"), Some(Json::Bool(true))));
    assert!(j.field("missing").is_none());
}

#[test]
fn set_in_creates_nested_objects() {
    let mut j = Json::Null;
    j.set_in("issue", "notes", Json::Str("hi".to_string()));
    assert_eq!(to_compact_string(&j), r#"{"issue":{"notes":"hi"}}"#);
    j.set_in("issue", "status_id", Json::Number(JsonNumber::PosInt(3)));
    assert_eq!(to_compact_string(&j), r#"{"issue":{"notes":"hi","status_id":3}}"#);
}

#[test]
fn float_text_must_look_like_a_number() {
    assert!(FloatText::new("2.5".to_string()).is_some());
    assert!(FloatText::new("-0.0".to_string()).is_some());
    assert!(FloatText::new("\"".to_string()).is_none());
    assert!(FloatText::new(String::new()).is_none());
}

#[test]
fn deep_clone_keeps_the_document() {
    let j = from_value(&sample());
    assert_eq!(to_compact_string(&j.deep_clone()), to_compact_string(&j));
}

#[test]
fn trim_removes_unicode_white_space() {
    assert_eq!(trim_white("  http://x \n"), "http://x");
    assert_eq!(trim_white("\u{3000}key\u{a0}"), "key");
    assert_eq!(trim_white(" \t "), "");
    assert_eq!(trim_white("a b"), "a b");
    assert_eq!(trim_white(&trim_white(" a ")), trim_white(" a "));
}

#[test]
fn contains_finds_partial_names() {
    assert!(contains_text("report.pdf", "port"));
    assert!(contains_text("report.pdf", ""));
    assert!(!contains_text("report.pdf", "xls"));
    assert!(!contains_text("a", "abc"));
}

#[test]
fn decimal_and_parse_agree() {
    assert_eq!(decimal_string(0), "0");
    assert_eq!(decimal_string(18446744073709551615), "18446744073709551615");
    let c: Vec<char> = "12345".chars().collect();
    assert_eq!(parse_unsigned(&c, u64::MAX), Some(12345));
    let c: Vec<char> = "+7".chars().collect();
    assert_eq!(parse_unsigned(&c, u64::MAX), Some(7));
    let c: Vec<char> = "+".chars().collect();
    assert_eq!(parse_unsigned(&c, u64::MAX), None);
    let c: Vec<char> = "-1".chars().collect();
    assert_eq!(parse_unsigned(&c, u64::MAX), None);
    let c: Vec<char> = "18446744073709551616".chars().collect();
    assert_eq!(parse_unsigned(&c, u64::MAX), None);
    let c: Vec<char> = "fF".chars().collect();
    assert_eq!(parse_unsigned(&c, u64::MAX), None);
    let c: Vec<char> = "".chars().collect();
    assert_eq!(parse_unsigned(&c, u64::MAX), None);
}

#[test]
fn key_order_and_lookup() {
    assert!(key_precedes(&"apikey".to_string(), &"url".to_string()));
    assert!(key_precedes(&"ab".to_string(), &"abc".to_string()));
    assert!(!key_precedes(&"abc".to_string(), &"abc".to_string()));
    assert!(key_precedes(&"Z".to_string(), &"a".to_string()));
    let m = vec![("a".to_string(), Json::Null), ("c".to_string(), Json::Null)];
    assert_eq!(find_key(&m, &"c".to_string()), Some(1));
    assert_eq!(find_key(&m, &"b".to_string()), None);
    assert_eq!(find_insert_pos(&m, &"b".to_string()), 1);
    assert_eq!(find_insert_pos(&m, &"d".to_string()), 2);
}

#[test]
fn reading_a_member_after_assigning_it() {
    let mut j = Json::Null;
    j.set("k", Json::Bool(true));
    j.set("other", Json::Null);
    assert!(matches!(j.field("k"), Some(Json::Bool(true))));
    assert!(j.as_u64().is_none());
    assert!(Json::Number(JsonNumber::PosInt(3)).as_u64() == Some(3));
    assert!(Json::Number(JsonNumber::NegInt(-3)).as_u64().is_none());
}
