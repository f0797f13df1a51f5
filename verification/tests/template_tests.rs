use webhook_server_lib::resource::ObjectMeta;
use webhook_server_lib::resource::Resource;
use webhook_server_lib::resource::StringMap;
use webhook_server_lib::templates::Templates;
use webhook_server_lib::yaml::YamlValue;

fn text(s: &str) -> String {
    String::from(s)
}

fn string_map(pairs: &[(&str, &str)]) -> StringMap {
    let mut entries: Vec<(String, String)> = Vec::new();
    for (k, v) in pairs {
        entries.push((text(k), text(v)));
    }
    StringMap::from_entries(entries)
}

fn ytext(s: &str) -> YamlValue {
    YamlValue::Text(text(s))
}

fn ymap(entries: Vec<(&str, YamlValue)>) -> YamlValue {
    YamlValue::Mapping(
        entries
            .into_iter()
            .map(|(k, v)| (ytext(k), v))
            .collect(),
    )
}

fn ynum(n: u64) -> YamlValue {
    YamlValue::Num(webhook_server_lib::yaml::YamlNumber::Unsigned(n))
}

/// The template set the selection tests run against: an environment
/// override for pods, and a port list for services.
fn create_test_templates() -> Templates {
    let pod_template: Resource<YamlValue> = Resource {
        api_version: text("v1"),
        kind: text("Pod"),
        metadata: None,
        spec: Some(ymap(vec![(
            "containers",
            ymap(vec![(
                "env",
                YamlValue::Sequence(vec![ymap(vec![
                    ("name", ytext("BOB")),
                    ("value", ytext("A_JOB")),
                ])]),
            )]),
        )])),
    };
    let service_template: Resource<YamlValue> = Resource {
        api_version: text("v1"),
        kind: text("Service"),
        metadata: None,
        spec: Some(ymap(vec![(
            "ports",
            YamlValue::Sequence(vec![ymap(vec![
                ("port", ynum(19999)),
                ("targetPort", ynum(9999)),
                ("protocl", ytext("TCP")),
                ("name", ytext("admin")),
            ])]),
        )])),
    };
    Templates::from_resources(vec![pod_template, service_template])
}

fn container(name: &str, image: &str) -> YamlValue {
    ymap(vec![("name", ytext(name)), ("image", ytext(image))])
}

fn container_with_env(name: &str, image: &str) -> YamlValue {
    ymap(vec![
        ("name", ytext(name)),
        ("image", ytext(image)),
        (
            "env",
            YamlValue::Sequence(vec![ymap(vec![
                ("name", ytext("BOB")),
                ("value", ytext("A_JOB")),
            ])]),
        ),
    ])
}

#[test]
fn load_and_apply_config() {
    let templates = create_test_templates();
    assert_eq!(2, templates.len(), "length was unexpected");
    let pod = Resource {
        api_version: text("v1"),
        kind: text("Pod"),
        metadata: None,
        spec: Some(ymap(vec![(
            "containers",
            YamlValue::Sequence(vec![
                container("BOB", "docker.hub/bob"),
                container("TOM", "docker.hub/tom"),
            ]),
        )])),
    }
    .convert_to_json();
    let expected = Resource {
        api_version: text("v1"),
        kind: text("Pod"),
        metadata: None,
        spec: Some(ymap(vec![(
            "containers",
            YamlValue::Sequence(vec![
                container_with_env("BOB", "docker.hub/bob"),
                container_with_env("TOM", "docker.hub/tom"),
            ]),
        )])),
    }
    .convert_to_json();
    let actual = templates.apply_to(&pod);
    assert_eq!(Some(expected), actual, "actual didn't match expected");
}

#[test]
fn no_matches() {
    let templates = create_test_templates();
    assert_eq!(2, templates.len());
    let pod = Resource {
        api_version: text("v1"),
        kind: text("Deployment"),
        metadata: None,
        spec: Some(ymap(vec![(
            "containers",
            YamlValue::Sequence(vec![
                container("BOB", "docker.hub/bob"),
                container("TOM", "docker.hub/tom"),
            ]),
        )])),
    }
    .convert_to_json();
    let actual = templates.apply_to(&pod);
    assert_eq!(None, actual);
}

#[test]
fn filters_by_namespace() {
    let template: Resource<YamlValue> = Resource {
        api_version: text("v1"),
        kind: text("Pod"),
        metadata: Some(ObjectMeta {
            name: None,
            namespace: Some(text("tv")),
            labels: None,
            annotations: None,
        }),
        spec: None,
    };
    let templates = Templates::from_resources(vec![template]);
    let matching = Resource {
        api_version: text("v1"),
        kind: text("Pod"),
        metadata: Some(ObjectMeta {
            name: Some(text("my-pod")),
            namespace: Some(text("tv")),
            labels: None,
            annotations: None,
        }),
        spec: None,
    }
    .convert_to_json();
    let non_matching = Resource {
        api_version: text("v1"),
        kind: text("Pod"),
        metadata: Some(ObjectMeta {
            name: Some(text("my-pod")),
            namespace: Some(text("radio")),
            labels: None,
            annotations: None,
        }),
        spec: None,
    }
    .convert_to_json();
    assert_eq!(true, templates.apply_to(&matching).is_some());
    assert_eq!(true, templates.apply_to(&non_matching).is_none());
}

#[test]
fn filters_by_annotation() {
    let template: Resource<YamlValue> = Resource {
        api_version: text("v1"),
        kind: text("Pod"),
        metadata: Some(ObjectMeta {
            name: None,
            namespace: None,
            labels: None,
            annotations: Some(string_map(&[("type", "server")])),
        }),
        spec: None,
    };
    let templates = Templates::from_resources(vec![template]);
    let with_annotations = |pairs: &[(&str, &str)]| {
        Resource::<YamlValue> {
            api_version: text("v1"),
            kind: text("Pod"),
            metadata: Some(ObjectMeta {
                name: None,
                namespace: None,
                labels: None,
                annotations: Some(string_map(pairs)),
            }),
            spec: None,
        }
        .convert_to_json()
    };
    let matching = with_annotations(&[("type", "server")]);
    let non_matching1 = with_annotations(&[("type", "client")]);
    let non_matching2 = with_annotations(&[("something_else", "thing")]);
    assert_eq!(true, templates.apply_to(&matching).is_some());
    assert_eq!(true, templates.apply_to(&non_matching1).is_none());
    assert_eq!(true, templates.apply_to(&non_matching2).is_none());
}

#[test]
fn filters_by_label() {
    let template: Resource<YamlValue> = Resource {
        api_version: text("v1"),
        kind: text("Pod"),
        metadata: Some(ObjectMeta {
            name: None,
            namespace: None,
            labels: Some(string_map(&[("app", "web-server")])),
            annotations: None,
        }),
        spec: None,
    };
    let templates = Templates::from_resources(vec![template]);
    let with_labels = |pairs: &[(&str, &str)]| {
        Resource::<YamlValue> {
            api_version: text("v1"),
            kind: text("Pod"),
            metadata: Some(ObjectMeta {
                name: None,
                namespace: None,
                labels: Some(string_map(pairs)),
                annotations: None,
            }),
            spec: None,
        }
        .convert_to_json()
    };
    let matching = with_labels(&[("app", "web-server")]);
    let non_matching1 = with_labels(&[("app", "database")]);
    let non_matching2 = with_labels(&[("application", "messaging")]);
    assert_eq!(true, templates.apply_to(&matching).is_some());
    assert_eq!(true, templates.apply_to(&non_matching1).is_none());
    assert_eq!(true, templates.apply_to(&non_matching2).is_none());
}
