use webhook_server_lib::json::JsonValue;
use webhook_server_lib::resource::ObjectMeta;
use webhook_server_lib::resource::Resource;
use webhook_server_lib::resource::StringMap;
use webhook_server_lib::yaml::YamlValue;

fn text(s: &str) -> String {
    String::from(s)
}

fn string_map(pairs: &[(&str, &str)]) -> StringMap {
    let mut entries: Vec<(String, String)> = Vec::new();
    for (k, v) in pairs {
        entries.push((text(k), text(v)));
    }
    StringMap::from_entries(entries)
}

fn jtext(s: &str) -> JsonValue {
    JsonValue::Text(text(s))
}

fn jobj(entries: Vec<(&str, JsonValue)>) -> JsonValue {
    JsonValue::Object(entries.into_iter().map(|(k, v)| (text(k), v)).collect())
}

fn ytext(s: &str) -> YamlValue {
    YamlValue::Text(text(s))
}

fn ymap(entries: Vec<(&str, YamlValue)>) -> YamlValue {
    YamlValue::Mapping(entries.into_iter().map(|(k, v)| (ytext(k), v)).collect())
}

#[test]
fn merge_combines_both_no_labels_in_first_no_annotations_in_second_no_spec() {
    let first: Resource<JsonValue> = Resource {
        api_version: text("v1"),
        kind: text("Pod"),
        spec: None,
        metadata: Some(ObjectMeta {
            name: Some(text("my-pod")),
            namespace: Some(text("my-namespace")),
            labels: None,
            annotations: Some(string_map(&[
                ("annot_1", "1_annot"),
                ("annot_1_other", "1_other_annot"),
            ])),
        }),
    };
    let second = Resource {
        api_version: text("v1"),
        kind: text("Pod"),
        spec: None,
        metadata: Some(ObjectMeta {
            name: Some(text("my-pod")),
            namespace: Some(text("my-namespace")),
            labels: Some(string_map(&[("in_2", "2_value"), ("in_2_other", "other_in_2")])),
            annotations: None,
        }),
    };
    let merged = first.merge(&second);
    let expected = Resource {
        api_version: text("v1"),
        kind: text("Pod"),
        spec: None,
        metadata: Some(ObjectMeta {
            name: Some(text("my-pod")),
            namespace: Some(text("my-namespace")),
            labels: Some(string_map(&[("in_2", "2_value"), ("in_2_other", "other_in_2")])),
            annotations: Some(string_map(&[
                ("annot_1", "1_annot"),
                ("annot_1_other", "1_other_annot"),
            ])),
        }),
    };
    assert_eq!(expected, merged);
}

#[test]
fn merge_combines_both_meta_and_annotations_in_both_no_spec() {
    let first: Resource<JsonValue> = Resource {
        api_version: text("v1"),
        kind: text("Pod"),
        spec: None,
        metadata: Some(ObjectMeta {
            name: Some(text("my-pod")),
            namespace: Some(text("my-namespace")),
            labels: Some(string_map(&[("in_1", "1_value"), ("in_both", "1_both_value")])),
            annotations: Some(string_map(&[
                ("annot_1", "1_annot"),
                ("annot_in_both", "1_both_annot"),
            ])),
        }),
    };
    let second = Resource {
        api_version: text("v1"),
        kind: text("Pod"),
        spec: None,
        metadata: Some(ObjectMeta {
            name: Some(text("my-pod")),
            namespace: Some(text("my-namespace")),
            labels: Some(string_map(&[("in_2", "2_value"), ("in_both", "2_both_value")])),
            annotations: Some(string_map(&[
                ("annot_2", "2_annot"),
                ("annot_in_both", "2_both_annot"),
            ])),
        }),
    };
    let merged = first.merge(&second);
    let expected = Resource {
        api_version: text("v1"),
        kind: text("Pod"),
        spec: None,
        metadata: Some(ObjectMeta {
            name: Some(text("my-pod")),
            namespace: Some(text("my-namespace")),
            labels: Some(string_map(&[
                ("in_1", "1_value"),
                ("in_both", "1_both_value"),
                ("in_2", "2_value"),
            ])),
            annotations: Some(string_map(&[
                ("annot_1", "1_annot"),
                ("annot_in_both", "1_both_annot"),
                ("annot_2", "2_annot"),
            ])),
        }),
    };
    assert_eq!(expected, merged);
}

#[test]
fn merge_combine_json_both_specs() {
    let first = Resource {
        api_version: text("v1"),
        kind: text("Pod"),
        metadata: None,
        spec: Some(jobj(vec![
            ("first", jtext("firstValue")),
            (
                "both-list",
                JsonValue::Array(vec![jtext("one"), jtext("two"), jtext("three")]),
            ),
            (
                "both-obj",
                jobj(vec![
                    ("first-attr", jtext("attr1")),
                    ("both-attr", jtext("first-both-attr")),
                ]),
            ),
        ])),
    };
    let second = Resource {
        api_version: text("v1"),
        kind: text("Pod"),
        metadata: None,
        spec: Some(jobj(vec![
            ("second", jtext("secondValue")),
            ("both-list", JsonValue::Array(vec![jtext("four"), jtext("five")])),
            (
                "both-obj",
                jobj(vec![
                    ("second-attr", jtext("attr2")),
                    ("both-attr", jtext("second-both-attr")),
                ]),
            ),
        ])),
    };
    let merged = first.merge(&second);
    let expected = Resource {
        api_version: text("v1"),
        kind: text("Pod"),
        metadata: None,
        spec: Some(jobj(vec![
            ("first", jtext("firstValue")),
            ("second", jtext("secondValue")),
            (
                "both-list",
                JsonValue::Array(vec![
                    jtext("one"),
                    jtext("two"),
                    jtext("three"),
                    jtext("four"),
                    jtext("five"),
                ]),
            ),
            (
                "both-obj",
                jobj(vec![
                    ("first-attr", jtext("attr1")),
                    ("second-attr", jtext("attr2")),
                    ("both-attr", jtext("first-both-attr")),
                ]),
            ),
        ])),
    };
    assert_eq!(expected, merged);
}

#[test]
fn merge_single_to_multiple_json() {
    let first = Resource {
        api_version: text("v1"),
        kind: text("Pod"),
        metadata: None,
        spec: Some(jobj(vec![(
            "containers",
            JsonValue::Array(vec![
                jobj(vec![("name", jtext("zippy"))]),
                jobj(vec![("name", jtext("bungle"))]),
            ]),
        )])),
    };
    let second = Resource {
        api_version: text("v1"),
        kind: text("Pod"),
        metadata: None,
        spec: Some(jobj(vec![(
            "containers",
            jobj(vec![("smells", jtext("terrible"))]),
        )])),
    };
    let actual = first.merge(&second);
    let expected = Resource {
        api_version: text("v1"),
        kind: text("Pod"),
        metadata: None,
        spec: Some(jobj(vec![(
            "containers",
            JsonValue::Array(vec![
                jobj(vec![("name", jtext("zippy")), ("smells", jtext("terrible"))]),
                jobj(vec![("name", jtext("bungle")), ("smells", jtext("terrible"))]),
            ]),
        )])),
    };
    assert_eq!(expected, actual);
}

#[test]
fn merge_combine_yaml_both_specs() {
    let first: Resource<YamlValue> = Resource {
        api_version: text("v1"),
        kind: text("Pod"),
        metadata: None,
        spec: Some(ymap(vec![
            ("first", ytext("firstValue")),
            (
                "both-list",
                YamlValue::Sequence(vec![ytext("one"), ytext("two"), ytext("three")]),
            ),
            (
                "both-obj",
                ymap(vec![
                    ("first-attr", ytext("attr1")),
                    ("both-attr", ytext("first-both-attr")),
                ]),
            ),
        ])),
    };
    let second = Resource {
        api_version: text("v1"),
        kind: text("Pod"),
        metadata: None,
        spec: Some(ymap(vec![
            ("second", ytext("secondValue")),
            ("both-list", YamlValue::Sequence(vec![ytext("four"), ytext("five")])),
            (
                "both-obj",
                ymap(vec![
                    ("second-attr", ytext("attr2")),
                    ("both-attr", ytext("second-both-attr")),
                ]),
            ),
        ])),
    };
    let merged = first.merge(&second);
    let expected = Resource {
        api_version: text("v1"),
        kind: text("Pod"),
        metadata: None,
        spec: Some(ymap(vec![
            ("first", ytext("firstValue")),
            ("second", ytext("secondValue")),
            (
                "both-list",
                YamlValue::Sequence(vec![
                    ytext("one"),
                    ytext("two"),
                    ytext("three"),
                    ytext("four"),
                    ytext("five"),
                ]),
            ),
            (
                "both-obj",
                ymap(vec![
                    ("first-attr", ytext("attr1")),
                    ("second-attr", ytext("attr2")),
                    ("both-attr", ytext("first-both-attr")),
                ]),
            ),
        ])),
    };
    assert_eq!(expected, merged);
}

#[test]
fn convert_yaml_to_json() {
    let create_meta = || ObjectMeta {
        name: Some(text("Bob")),
        namespace: Some(text("Home")),
        annotations: Some(string_map(&[("annot1", "value1")])),
        labels: Some(string_map(&[("label1", "labelvalue1")])),
    };
    let yaml_based: Resource<YamlValue> = Resource {
        api_version: text("v1"),
        kind: text("Pod"),
        metadata: Some(create_meta()),
        spec: Some(ymap(vec![
            ("first", ytext("firstValue")),
            ("second", ytext("secondValue")),
            (
                "both-list",
                YamlValue::Sequence(vec![
                    ytext("one"),
                    ytext("two"),
                    ytext("three"),
                    ytext("four"),
                    ytext("five"),
                ]),
            ),
            (
                "both-obj",
                ymap(vec![
                    ("first-attr", ytext("attr1")),
                    ("second-attr", ytext("attr2")),
                    ("both-attr", ytext("first-both-attr")),
                ]),
            ),
        ])),
    };
    let expected = Resource {
        api_version: text("v1"),
        kind: text("Pod"),
        metadata: Some(create_meta()),
        spec: Some(jobj(vec![
            ("first", jtext("firstValue")),
            ("second", jtext("secondValue")),
            (
                "both-list",
                JsonValue::Array(vec![
                    jtext("one"),
                    jtext("two"),
                    jtext("three"),
                    jtext("four"),
                    jtext("five"),
                ]),
            ),
            (
                "both-obj",
                jobj(vec![
                    ("first-attr", jtext("attr1")),
                    ("second-attr", jtext("attr2")),
                    ("both-attr", jtext("first-both-attr")),
                ]),
            ),
        ])),
    };
    let actual = yaml_based.convert_to_json();
    assert_eq!(expected, actual);
}
