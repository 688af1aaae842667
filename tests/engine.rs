use mqtt2influxdb::config::{
    Configuration, DstVariant, Entry, ExtractError, Fields, JsonField, Record,
};
use mqtt2influxdb::json::{coerce, resolve_path, JsonValue, TypedValue};
use mqtt2influxdb::text::split_string;
use mqtt2influxdb::topic::topic_matches;

fn doc(text: &str) -> JsonValue {
    JsonValue::parse(text.as_bytes()).expect("valid JSON")
}

fn float_of(v: &TypedValue) -> f64 {
    match v {
        TypedValue::Float(n) => n.as_f64().expect("finite"),
        other => panic!("not a float: {:?}", other),
    }
}

fn text_of(v: &TypedValue) -> String {
    match v {
        TypedValue::Text(s) => s.clone(),
        other => panic!("not text: {:?}", other),
    }
}

fn field(src_path: &str, dst_variant: DstVariant, dst_name: Option<&str>) -> JsonField {
    JsonField {
        src_path: src_path.to_string(),
        dst_variant,
        dst_name: dst_name.map(|s| s.to_string()),
    }
}

fn entry(src_topic: &str, dst_name: &str, fields: Fields) -> Entry {
    Entry { src_topic: src_topic.to_string(), dst_name: dst_name.to_string(), fields }
}

fn text_entry(src_topic: &str, dst_name: &str) -> Entry {
    entry(
        src_topic,
        dst_name,
        Fields::SingleText { dst_variant: DstVariant::Field, dst_name: "value".to_string() },
    )
}

#[test]
fn single_wildcard_takes_one_segment() {
    assert!(topic_matches("a/x/c", "a/+/c"));
    assert!(topic_matches("a//c", "a/+/c"));
    assert!(!topic_matches("a/x/y/c", "a/+/c"));
    assert!(!topic_matches("a/c", "a/+/c"));
    assert!(topic_matches("sensors/room1/temp", "sensors/+/temp"));
}

#[test]
fn multi_wildcard_takes_any_tail() {
    assert!(topic_matches("a/b", "a/b/#"));
    assert!(topic_matches("a/b/c", "a/b/#"));
    assert!(topic_matches("a/b/c/d/e", "a/b/#"));
    assert!(topic_matches("anything/at/all", "#"));
    assert!(!topic_matches("a/x", "a/b/#"));
}

#[test]
fn literal_patterns_and_special_topics() {
    assert!(topic_matches("a/b", "a/b"));
    assert!(!topic_matches("a/b", "a/c"));
    assert!(!topic_matches("a/b/c", "a/b"));
    assert!(topic_matches("$SYS/x", "#"));
    assert!(topic_matches("$/x", "$/+"));
    assert!(topic_matches("$/x", "$/#"));
    assert!(topic_matches("$", "$"));
    assert!(!topic_matches("$/x", "a/+"));
    assert!(!topic_matches("$/x/y", "$/+"));
    assert!(topic_matches("\u{e9}/x", "#"));
    assert!(topic_matches("\u{e9}/x", "\u{e9}/+"));
    assert!(topic_matches("\u{e9}t\u{e9}", "+"));
    assert!(!topic_matches("\u{e9}/x", "a/+"));
    assert!(!topic_matches("\u{e9}/x/y", "+/x"));
}

#[test]
fn first_matching_entry_wins() {
    let config = Configuration {
        entries: vec![text_entry("a/+", "first"), text_entry("a/b", "second")],
    };
    assert_eq!(config.find_entry("a/b"), Some(0));
    assert_eq!(config.find_entry("c/d"), None);
    let (i, res) = config.handle("a/b", b"on").expect("an entry matches");
    assert_eq!(i, 0);
    assert_eq!(res.expect("text payload").record.name, "first");
}

#[test]
fn unmatched_topic_is_dropped() {
    let config = Configuration { entries: vec![text_entry("a/b", "x")] };
    assert!(config.handle("z", b"1").is_none());
}

#[test]
fn numbers_coerce_to_floats_strings_stay_strings() {
    let five = coerce(&doc("5")).expect("a number");
    let five_point_zero = coerce(&doc("5.0")).expect("a number");
    let five_text = coerce(&doc("\"5\"")).expect("a string");
    assert_eq!(float_of(&five), 5.0);
    assert_eq!(float_of(&five_point_zero), 5.0);
    assert_eq!(text_of(&five_text), "5");
    assert!(matches!(coerce(&doc("true")), Some(TypedValue::Boolean(true))));
    assert!(coerce(&doc("null")).is_none());
}

#[test]
fn arrays_coerce_to_canonical_json() {
    let v = coerce(&doc("[1, 2, 3]")).expect("an array");
    let text = text_of(&v);
    assert_eq!(text, "[1,2,3]");
    let back = doc(&text);
    match back {
        JsonValue::Array(items) => {
            assert_eq!(items.len(), 3);
            for (k, item) in items.iter().enumerate() {
                match item {
                    JsonValue::Number(n) => assert_eq!(n.as_u64(), Some(k as u64 + 1)),
                    other => panic!("not a number: {:?}", other),
                }
            }
        }
        other => panic!("not an array: {:?}", other),
    }
}

#[test]
fn objects_coerce_to_canonical_json() {
    let v = coerce(&doc("{ \"b\": [1, 2], \"a\": \"x\" }")).expect("an object");
    assert_eq!(text_of(&v), "{\"a\":\"x\",\"b\":[1,2]}");
}

#[test]
fn path_resolution_is_lenient() {
    let d = doc("{\"a\":{\"b\":[10,20]}}");
    match resolve_path(&d, "a.b.0") {
        JsonValue::Number(n) => assert_eq!(n.as_u64(), Some(10)),
        other => panic!("unexpected {:?}", other),
    }
    match resolve_path(&d, "a.b.1") {
        JsonValue::Number(n) => assert_eq!(n.as_u64(), Some(20)),
        other => panic!("unexpected {:?}", other),
    }
    let unresolved = resolve_path(&d, "a.x");
    assert_eq!(text_of(&coerce(unresolved).unwrap()), "{\"b\":[10,20]}");
    let out_of_range = resolve_path(&d, "a.b.7");
    assert_eq!(text_of(&coerce(out_of_range).unwrap()), "[10,20]");
    let not_index = resolve_path(&d, "a.b.x.1");
    match not_index {
        JsonValue::Number(n) => assert_eq!(n.as_u64(), Some(20)),
        other => panic!("unexpected {:?}", other),
    }
    let plus_index = resolve_path(&d, "a.b.+1");
    match plus_index {
        JsonValue::Number(n) => assert_eq!(n.as_u64(), Some(20)),
        other => panic!("unexpected {:?}", other),
    }
    let empty = resolve_path(&d, "");
    assert_eq!(text_of(&coerce(empty).unwrap()), "{\"a\":{\"b\":[10,20]}}");
    let scalar = resolve_path(&d, "a.b.0.deeper");
    match scalar {
        JsonValue::Number(n) => assert_eq!(n.as_u64(), Some(10)),
        other => panic!("unexpected {:?}", other),
    }
}

#[test]
fn empty_segment_is_skipped_even_with_empty_key() {
    let d = doc("{\"\": 1, \"a\": {\"b\": true}}");
    let v = resolve_path(&d, ".a..b");
    assert!(matches!(v, JsonValue::Bool(true)));
}

#[test]
fn path_splits_at_dots() {
    assert_eq!(split_string("a.b.0", '.'), vec!["a", "b", "0"]);
    assert_eq!(split_string("", '.'), vec![""]);
    assert_eq!(split_string("a..b.", '.'), vec!["a", "", "b", ""]);
    let f = field("x.y", DstVariant::Field, None);
    assert_eq!(f.src_path_parts(), vec!["x", "y"]);
}

#[test]
fn json_field_name_defaults_to_path() {
    let spec = Fields::Json { fields: vec![field("temp", DstVariant::Field, None)] };
    let x = spec.extract(b"{\"temp\": 3}").expect("valid JSON");
    assert_eq!(x.emitted.len(), 1);
    assert_eq!(x.emitted[0].name, "temp");
    assert_eq!(x.emitted[0].variant, DstVariant::Field);
    assert_eq!(float_of(&x.emitted[0].value), 3.0);
}

#[test]
fn invalid_utf8_is_a_decode_error_and_handling_goes_on() {
    let config = Configuration { entries: vec![text_entry("t", "m")] };
    let (_, res) = config.handle("t", &[0xff, 0xfe, 0x41]).expect("entry matches");
    assert!(matches!(res, Err(ExtractError::PayloadDecode)));
    let (_, next) = config.handle("t", "h\u{e9}llo".as_bytes()).expect("entry matches");
    let h = next.expect("valid text");
    assert_eq!(h.record.fields.len(), 1);
    assert_eq!(h.record.fields[0].0, "value");
    assert_eq!(text_of(&h.record.fields[0].1), "h\u{e9}llo");
}

#[test]
fn invalid_json_is_a_decode_error() {
    let spec = Fields::Json { fields: vec![field("a", DstVariant::Field, None)] };
    assert!(matches!(spec.extract(b"{not json"), Err(ExtractError::PayloadDecode)));
}

#[test]
fn null_field_is_skipped_others_kept() {
    let spec = Fields::Json {
        fields: vec![
            field("a", DstVariant::Field, None),
            field("b", DstVariant::Tag, Some("bee")),
            field("c", DstVariant::Field, None),
        ],
    };
    let x = spec.extract(b"{\"a\": 1, \"b\": null, \"c\": \"z\"}").expect("valid JSON");
    assert_eq!(x.skipped, vec!["bee".to_string()]);
    assert_eq!(x.emitted.len(), 2);
    assert_eq!(x.emitted[0].name, "a");
    assert_eq!(x.emitted[1].name, "c");
    assert_eq!(text_of(&x.emitted[1].value), "z");
}

#[test]
fn later_duplicate_name_overwrites() {
    let spec = Fields::Json {
        fields: vec![
            field("a", DstVariant::Field, Some("v")),
            field("b", DstVariant::Field, Some("v")),
            field("c", DstVariant::Tag, Some("v")),
        ],
    };
    let config = Configuration { entries: vec![entry("#", "m", spec)] };
    let (_, res) = config.handle("x", b"{\"a\": 1, \"b\": 2, \"c\": true}").unwrap();
    let h = res.unwrap();
    assert_eq!(h.record.fields.len(), 1);
    assert_eq!(float_of(&h.record.fields[0].1), 2.0);
    assert_eq!(h.record.tags.len(), 1);
    assert!(matches!(h.record.tags[0].1, TypedValue::Boolean(true)));
}

#[test]
fn write_to_targets_fields_or_tags() {
    let r = Record::new("m".to_string());
    let r = DstVariant::Field.write_to("f".to_string(), TypedValue::Boolean(false), r);
    let r = DstVariant::Tag.write_to("t".to_string(), TypedValue::Text("x".to_string()), r);
    let r = DstVariant::Tag.write_to("t".to_string(), TypedValue::Text("y".to_string()), r);
    assert_eq!(r.name, "m");
    assert_eq!(r.fields.len(), 1);
    assert_eq!(r.fields[0].0, "f");
    assert_eq!(r.tags.len(), 1);
    assert_eq!(text_of(&r.tags[0].1), "y");
    assert_eq!(DstVariant::default(), DstVariant::Field);
}

#[test]
fn end_to_end_sensor_reading() {
    let spec = Fields::Json {
        fields: vec![
            field("value", DstVariant::Field, Some("celsius")),
            field("unit", DstVariant::Tag, None),
        ],
    };
    let config = Configuration { entries: vec![entry("sensors/+/temp", "temperature", spec)] };
    let (i, res) = config
        .handle("sensors/room1/temp", b"{\"value\": 21.5, \"unit\": \"C\"}")
        .expect("entry matches");
    assert_eq!(i, 0);
    let h = res.expect("valid JSON");
    assert!(h.skipped.is_empty());
    assert_eq!(h.record.name, "temperature");
    assert_eq!(h.record.fields.len(), 1);
    assert_eq!(h.record.fields[0].0, "celsius");
    assert_eq!(float_of(&h.record.fields[0].1), 21.5);
    assert_eq!(h.record.tags.len(), 1);
    assert_eq!(h.record.tags[0].0, "unit");
    assert_eq!(text_of(&h.record.tags[0].1), "C");
}
