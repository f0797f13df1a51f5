use webhook_server_lib::config::Args;
use webhook_server_lib::json;
use webhook_server_lib::json::JsonNumber;
use webhook_server_lib::json::JsonValue;
use webhook_server_lib::resource::ObjectMeta;
use webhook_server_lib::resource::Resource;
use webhook_server_lib::resource::StringMap;
use webhook_server_lib::resource::merge_maps;
use webhook_server_lib::text;
use webhook_server_lib::yaml;
use webhook_server_lib::yaml::YamlNumber;
use webhook_server_lib::yaml::YamlValue;

fn txt(s: &str) -> String {
    String::from(s)
}

fn jtxt(s: &str) -> JsonValue {
    JsonValue::Text(txt(s))
}

fn jobj(entries: Vec<(&str, JsonValue)>) -> JsonValue {
    JsonValue::Object(entries.into_iter().map(|(k, v)| (txt(k), v)).collect())
}

fn string_map(pairs: &[(&str, &str)]) -> StringMap {
    let mut entries: Vec<(String, String)> = Vec::new();
    for (k, v) in pairs {
        entries.push((txt(k), txt(v)));
    }
    StringMap::from_entries(entries)
}

#[test]
fn merging_with_null_returns_the_other_side() {
    let value = jobj(vec![("a", jtxt("x")), ("list", JsonValue::Array(vec![jtxt("y")]))]);
    assert_eq!(value, json::merge_values(&JsonValue::Null, &value));
    assert_eq!(value, json::merge_values(&value, &JsonValue::Null));
    assert_eq!(JsonValue::Null, json::merge_values(&JsonValue::Null, &JsonValue::Null));
}

#[test]
fn scalar_conflicts_keep_the_first_operand() {
    assert_eq!(jtxt("left"), json::merge_values(&jtxt("left"), &jtxt("right")));
    assert_eq!(
        JsonValue::Bool(false),
        json::merge_values(&JsonValue::Bool(false), &JsonValue::Bool(true))
    );
    assert_eq!(
        JsonValue::Num(JsonNumber::Unsigned(1)),
        json::merge_values(
            &JsonValue::Num(JsonNumber::Unsigned(1)),
            &JsonValue::Num(JsonNumber::Signed(-2))
        )
    );
}

#[test]
fn sequences_concatenate_without_element_merging() {
    let first = JsonValue::Array(vec![jtxt("1"), jtxt("2")]);
    let second = JsonValue::Array(vec![jtxt("3"), jtxt("4")]);
    let merged = json::merge_values(&first, &second);
    let expected =
        JsonValue::Array(vec![jtxt("1"), jtxt("2"), jtxt("3"), jtxt("4")]);
    assert_eq!(expected, merged);
    match merged {
        JsonValue::Array(items) => assert_eq!(4, items.len()),
        _ => panic!("expected a sequence"),
    }
}

#[test]
fn broadcast_merges_the_overlay_into_every_element() {
    let first = JsonValue::Array(vec![
        jobj(vec![("a", jtxt("1"))]),
        jobj(vec![("b", jtxt("2"))]),
    ]);
    let overlay = jobj(vec![("extra", jtxt("value"))]);
    let merged = json::merge_values(&first, &overlay);
    let expected = JsonValue::Array(vec![
        jobj(vec![("a", jtxt("1")), ("extra", jtxt("value"))]),
        jobj(vec![("b", jtxt("2")), ("extra", jtxt("value"))]),
    ]);
    assert_eq!(expected, merged);
}

#[test]
fn a_sequence_overlay_on_a_scalar_target_is_dropped() {
    let first = jtxt("target");
    let second = JsonValue::Array(vec![jtxt("overlay")]);
    assert_eq!(jtxt("target"), json::merge_values(&first, &second));
}

#[test]
fn mapping_merge_takes_the_key_union() {
    let first = jobj(vec![("only-first", jtxt("1")), ("both", jtxt("first"))]);
    let second = jobj(vec![("both", jtxt("second")), ("only-second", jtxt("2"))]);
    let expected = jobj(vec![
        ("only-first", jtxt("1")),
        ("both", jtxt("first")),
        ("only-second", jtxt("2")),
    ]);
    assert_eq!(expected, json::merge_values(&first, &second));
}

#[test]
fn empty_mappings_merge_to_an_empty_mapping() {
    let empty = jobj(vec![]);
    let merged = json::merge_values(&empty, &jobj(vec![]));
    assert_eq!(jobj(vec![]), merged);
}

#[test]
fn merge_of_spec_less_resource_with_itself_is_identity() {
    let r: Resource<JsonValue> = Resource::new("v1", "Pod");
    let copy: Resource<JsonValue> = Resource::new("v1", "Pod");
    let merged = r.merge(&copy);
    assert_eq!(r, merged);
}

#[test]
fn metadata_map_merge_prefers_the_first_side() {
    let first = Some(string_map(&[("shared", "first"), ("only-first", "f")]));
    let second = Some(string_map(&[("shared", "second"), ("only-second", "s")]));
    let merged = merge_maps(&first, &second).expect("both sides present");
    let expected = string_map(&[
        ("shared", "first"),
        ("only-first", "f"),
        ("only-second", "s"),
    ]);
    assert_eq!(expected, merged);
    assert_eq!(Some(txt("first")), merged.get(&txt("shared")).cloned());
}

#[test]
fn one_sided_metadata_is_used_verbatim() {
    let meta = ObjectMeta {
        name: Some(txt("n")),
        namespace: None,
        labels: Some(string_map(&[("k", "v")])),
        annotations: None,
    };
    let first: Resource<JsonValue> = Resource {
        api_version: txt("v1"),
        kind: txt("Pod"),
        metadata: None,
        spec: None,
    };
    let second = Resource {
        api_version: txt("v1"),
        kind: txt("Pod"),
        metadata: Some(meta),
        spec: None,
    };
    let merged = first.merge(&second);
    assert_eq!(second.metadata, merged.metadata);
}

#[test]
fn tagged_values_merge_to_the_first_operand() {
    let first = YamlValue::Tagged(txt("!A"), Box::new(YamlValue::Bool(true)));
    let second = YamlValue::Tagged(txt("!B"), Box::new(YamlValue::Bool(false)));
    let merged = yaml::merge_values(&first, &second);
    assert_eq!(first, merged);
}

#[test]
fn tagged_values_never_convert_to_json() {
    let tagged = YamlValue::Tagged(txt("!T"), Box::new(YamlValue::Bool(true)));
    assert!(yaml::convert_value_to_json(&tagged).is_none());
}

#[test]
fn sequence_conversion_drops_elements_that_fail() {
    let sequence = YamlValue::Sequence(vec![
        YamlValue::Text(txt("keep")),
        YamlValue::Tagged(txt("!T"), Box::new(YamlValue::Null)),
        YamlValue::Bool(true),
    ]);
    let converted = yaml::convert_value_to_json(&sequence).expect("sequences convert");
    let expected = JsonValue::Array(vec![jtxt("keep"), JsonValue::Bool(true)]);
    assert_eq!(expected, converted);
}

#[test]
fn numbers_convert_unsigned_then_signed_then_float() {
    assert_eq!(
        Some(JsonNumber::Unsigned(7)),
        yaml::convert_number_to_json(&YamlNumber::Unsigned(7))
    );
    assert_eq!(
        Some(JsonNumber::Unsigned(7)),
        yaml::convert_number_to_json(&YamlNumber::Signed(7))
    );
    assert_eq!(
        Some(JsonNumber::Signed(-7)),
        yaml::convert_number_to_json(&YamlNumber::Signed(-7))
    );
    let half = 0.5f64;
    assert_eq!(
        Some(JsonNumber::Float(half.to_bits())),
        yaml::convert_number_to_json(&YamlNumber::Float(half.to_bits(), txt("0.5")))
    );
}

#[test]
fn non_finite_numbers_do_not_convert() {
    let nan = f64::NAN.to_bits();
    let inf = f64::INFINITY.to_bits();
    assert_eq!(None, yaml::convert_number_to_json(&YamlNumber::Float(nan, txt(".nan"))));
    assert_eq!(None, yaml::convert_number_to_json(&YamlNumber::Float(inf, txt(".inf"))));
}

#[test]
fn mapping_keys_render_to_their_canonical_text() {
    let mapping = YamlValue::Mapping(vec![
        (YamlValue::Num(YamlNumber::Unsigned(42)), YamlValue::Text(txt("u"))),
        (YamlValue::Num(YamlNumber::Signed(-7)), YamlValue::Text(txt("i"))),
        (YamlValue::Bool(true), YamlValue::Text(txt("b"))),
        (
            YamlValue::Num(YamlNumber::Float(2.5f64.to_bits(), txt("2.5"))),
            YamlValue::Text(txt("f")),
        ),
    ]);
    let converted = yaml::convert_value_to_json(&mapping).expect("mappings convert");
    let expected = jobj(vec![
        ("42", jtxt("u")),
        ("-7", jtxt("i")),
        ("true", jtxt("b")),
        ("2.5", jtxt("f")),
    ]);
    assert_eq!(expected, converted);
}

#[test]
fn unconvertible_mapping_keys_drop_the_whole_entry() {
    let mapping = YamlValue::Mapping(vec![
        (YamlValue::Text(txt("keep")), YamlValue::Bool(true)),
        (YamlValue::Sequence(vec![]), YamlValue::Bool(false)),
    ]);
    let converted = yaml::convert_value_to_json(&mapping).expect("mappings convert");
    assert_eq!(jobj(vec![("keep", JsonValue::Bool(true))]), converted);
}

#[test]
fn decimal_renderings_are_exact() {
    assert_eq!("0", text::unsigned_text(0).as_str());
    assert_eq!("1234567890", text::unsigned_text(1234567890).as_str());
    assert_eq!("18446744073709551615", text::unsigned_text(u64::MAX).as_str());
    assert_eq!("-1", text::signed_text(-1).as_str());
    assert_eq!("-9223372036854775808", text::signed_text(i64::MIN).as_str());
    assert_eq!("true", text::boolean_text(true).as_str());
    assert_eq!("false", text::boolean_text(false).as_str());
}

#[test]
fn default_arguments_hold_the_stock_configuration() {
    let args = Args::default();
    assert_eq!("log4rs.yml", args.log_file.as_str());
    assert_eq!("127.0.0.1", args.address.as_str());
    assert_eq!(3000, args.port);
    assert_eq!("templates.yaml", args.templates_file.as_str());
}
