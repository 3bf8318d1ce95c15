use ecobee::binary64::Binary64;
use ecobee::json::{Json, Number, Object};

/// A library value out of JSON text.
fn json(text: &str) -> Json {
    convert(&serde_json::from_str(text).unwrap())
}

fn convert(value: &serde_json::Value) -> Json {
    match value {
        serde_json::Value::Null => Json::Null,
        serde_json::Value::Bool(b) => Json::Bool(*b),
        serde_json::Value::Number(n) => Json::Number(match (n.as_u64(), n.as_i64()) {
            (Some(u), _) => Number::PosInt(u),
            (None, Some(i)) => Number::NegInt(i),
            (None, None) => Number::Float(number(n.as_f64().unwrap())),
        }),
        serde_json::Value::String(s) => Json::Str(s.clone()),
        serde_json::Value::Array(items) => Json::Array(items.iter().map(convert).collect()),
        serde_json::Value::Object(o) => Json::Object(members(o)),
    }
}

fn members(o: &serde_json::Map<String, serde_json::Value>) -> Object {
    let mut out = Object::new();
    for (name, value) in o {
        out.insert(name, convert(value));
    }
    out
}

fn object(text: &str) -> Object {
    match json(text) {
        Json::Object(o) => o,
        _ => panic!("not an object: {}", text),
    }
}

fn number(x: f64) -> Binary64 {
    Binary64::from_bits(x.to_bits()).unwrap()
}

/// JSON text out of a library value.
fn text(value: &Json) -> String {
    back(value).to_string()
}

fn back(value: &Json) -> serde_json::Value {
    match value {
        Json::Null => serde_json::Value::Null,
        Json::Bool(b) => serde_json::Value::from(*b),
        Json::Number(Number::PosInt(n)) => serde_json::Value::from(*n),
        Json::Number(Number::NegInt(n)) => serde_json::Value::from(*n),
        Json::Number(Number::Float(x)) => serde_json::Value::from(f64::from_bits(x.to_bits())),
        Json::Str(s) => serde_json::Value::from(s.as_str()),
        Json::Array(items) => serde_json::Value::Array(items.iter().map(back).collect()),
        Json::Object(o) => back_object(o),
    }
}

fn back_object(o: &Object) -> serde_json::Value {
    let mut out = serde_json::Map::new();
    for (name, value) in o.entries() {
        out.insert(name.clone(), back(value));
    }
    serde_json::Value::Object(out)
}

#[test]
fn objects_keep_one_value_for_each_name() {
    let mut o = Object::new();
    o.insert("a", json("1"));
    o.insert("b", json("2"));
    o.insert("a", json("3"));
    assert_eq!(o.entries().len(), 2);
    assert_eq!(back_object(&o).to_string(), r#"{"a":3,"b":2}"#);
    assert_eq!(text(&o.remove("a").unwrap()), "3");
    assert!(o.remove("a").is_none());
    assert!(o.get("a").is_none());
    assert_eq!(back_object(&o).to_string(), r#"{"b":2}"#);
}

#[test]
fn removing_the_first_member_keeps_the_others() {
    let mut o = object(r#"{"a":1,"b":2,"c":3}"#);
    assert_eq!(text(&o.remove("a").unwrap()), "1");
    assert_eq!(o.i64_at("b"), Some(2));
    assert_eq!(o.i64_at("c"), Some(3));
}

#[test]
fn values_are_read_by_their_kind() {
    let v = json(r#"{"s":"x","t":true,"i":-4,"f":1.5,"a":[1],"n":null,"o":{"k":"v"}}"#);
    assert_eq!(v.str_at("s"), Some("x"));
    assert_eq!(v.str_at("t"), None);
    assert_eq!(v.get("t").unwrap().as_bool(), Some(true));
    assert_eq!(v.get("s").unwrap().as_bool(), None);
    assert_eq!(v.i64_at("i"), Some(-4));
    assert_eq!(v.i64_at("f"), None);
    assert_eq!(v.i64_at("missing"), None);
    assert_eq!(v.array_at("a").unwrap().len(), 1);
    assert!(v.array_at("o").is_none());
    assert_eq!(v.str_under("o", "k"), Some("v"));
    assert_eq!(v.str_under("s", "k"), None);
    assert_eq!(v.i64_under("o", "k"), None);
    assert!(v.get("o").unwrap().as_object().is_some());
    assert!(v.get("n").unwrap().as_object().is_none());
    assert!(json("[1]").get("s").is_none());
}

#[test]
fn integers_past_i64_are_not_i64() {
    assert_eq!(json("9223372036854775807").as_i64(), Some(i64::MAX));
    assert_eq!(json("9223372036854775808").as_i64(), None);
    assert_eq!(json("-9223372036854775808").as_i64(), Some(i64::MIN));
}

#[test]
fn numbers_are_read_as_the_nearest_double() {
    for written in ["21", "-7", "21.25", "18446744073709551615", "9007199254740993", "-9007199254740993", "0.1"] {
        let value: serde_json::Value = serde_json::from_str(written).unwrap();
        let x = json(written).as_double().unwrap();
        assert_eq!(f64::from_bits(x.to_bits()), value.as_f64().unwrap(), "{}", written);
    }
    assert!(json("\"21\"").as_double().is_none());
}

#[test]
fn integers_are_written_by_sign() {
    assert_eq!(text(&Json::integer(-3)), "-3");
    assert_eq!(text(&Json::integer(0)), "0");
    assert_eq!(text(&Json::integer(i64::MAX)), "9223372036854775807");
    assert_eq!(text(&Json::null()), "null");
    assert_eq!(text(&Json::boolean(true)), "true");
    assert_eq!(text(&Json::text("a\"b")), r#""a\"b""#);
    assert_eq!(text(&Json::double(number(2.5))), "2.5");
}

#[test]
fn copies_are_equal_all_the_way_down() {
    let written = r#"{"a":[1,-2,{"b":[null,true,"x",2.5]}],"c":{}}"#;
    assert_eq!(text(&json(written).copy()), text(&json(written)));
}

#[test]
fn the_first_item_that_matches_is_found() {
    let items = json(r#"[{"type":"a","n":1},{"n":2},{"type":"b","n":3},{"type":"b","n":4}]"#);
    let list = items.as_array().unwrap();
    assert_eq!(ecobee::json::find_with(list, "type", "b").unwrap().i64_at("n"), Some(3));
    assert!(ecobee::json::find_with(list, "type", "c").is_none());
}

#[test]
fn infinities_and_nan_are_no_numbers() {
    assert!(Binary64::from_bits(f64::INFINITY.to_bits()).is_none());
    assert!(Binary64::from_bits(f64::NEG_INFINITY.to_bits()).is_none());
    assert!(Binary64::from_bits(f64::NAN.to_bits()).is_none());
    for x in [0.0, -0.0, 1.0, -1.5, f64::MAX, f64::MIN_POSITIVE, 5e-324] {
        assert_eq!(number(x).to_bits(), x.to_bits());
    }
}

#[test]
fn numbers_are_ordered_by_value() {
    let values = [f64::MIN, -2.5, -2.0, -5e-324, 0.0, 5e-324, 1.0, 1.5, 2.0, f64::MAX];
    for a in values {
        for b in values {
            assert_eq!(number(a).less_than(&number(b)), a < b, "{} {}", a, b);
        }
    }
    assert!(!number(-0.0).less_than(&number(0.0)));
}
