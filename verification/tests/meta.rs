use rapr::RaprMode;
use rapr::component::Auth;
use rapr::component::Component;
use rapr::component::ComponentSpec;
use rapr::component::ObjectMeta;
use rapr::component::TypeMeta;
use rapr::json::DynamicValue;
use rapr::meta::Meta;
use rapr::meta::MetaBase;
use rapr::meta::MetaError;
use rapr::meta::Options;
use rapr::meta::contains_namespace;
use rapr::meta::is_wasm_component_type;
use rapr::name_value::NameValuePair;
use rapr::scoped::Scoped;

fn string_value(text: &str) -> DynamicValue {
    let mut bytes = Vec::new();
    bytes.push(b'"');
    bytes.extend_from_slice(text.as_bytes());
    bytes.push(b'"');
    DynamicValue::from_bytes(&bytes).unwrap()
}

fn entry(name: &str, text: &str) -> NameValuePair {
    NameValuePair {
        name: name.to_string(),
        value: Some(string_value(text)),
        secret_key_ref: None,
        env_ref: None,
    }
}

fn component(cmpt_type: &str, metadata: Vec<NameValuePair>) -> Component {
    Component {
        type_meta: TypeMeta {
            kind: "Component".to_string(),
            api_version: "rapr.io/v1alpha1".to_string(),
        },
        metadata: Some(ObjectMeta {
            name: Some("test_component".to_string()),
            namespace: None,
        }),
        spec: Some(ComponentSpec {
            cmpt_type: cmpt_type.to_string(),
            version: "v1".to_string(),
            ignore_errors: false,
            metadata,
            init_timeout: None,
        }),
        auth: None,
        scoped: Scoped::new(),
    }
}

fn runtime_meta(id: &str, namespace: &str, pod_name: &str, strict_sandbox: bool) -> Meta {
    Meta::new(Options {
        id: id.to_string(),
        pod_name: pod_name.to_string(),
        namespace: namespace.to_string(),
        strict_sandbox,
        mode: RaprMode::Standalone,
    })
}

#[test]
fn test_get_property_case_insensitive() {
    let properties = vec![
        ("TestKey".to_string(), "test_value".to_string()),
        ("AnotherKey".to_string(), "another_value".to_string()),
    ];

    let base = MetaBase::new("test_component".to_string(), properties);

    // Test case insensitive lookup
    assert_eq!(
        base.get_property(&["testkey"]),
        Some("test_value".to_string())
    );
    assert_eq!(
        base.get_property(&["TESTKEY"]),
        Some("test_value".to_string())
    );
    assert_eq!(
        base.get_property(&["TestKey"]),
        Some("test_value".to_string())
    );

    // Test multiple names (priority order)
    assert_eq!(
        base.get_property(&["nonexistent", "testkey"]),
        Some("test_value".to_string())
    );

    // Test non-existent key
    assert_eq!(base.get_property(&["nonexistent"]), None);
}

#[test]
fn test_get_single_property() {
    let properties = vec![("Key1".to_string(), "value1".to_string())];

    let base = MetaBase::new("test".to_string(), properties);

    assert_eq!(base.get_single_property("key1"), Some("value1".to_string()));
    assert_eq!(base.get_single_property("nonexistent"), None);
}

#[test]
fn test_get_property_priority_over_candidates() {
    let properties = vec![("Foo".to_string(), "1".to_string())];
    let base = MetaBase::new("c".to_string(), properties);

    assert_eq!(base.get_property(&["foo"]), Some("1".to_string()));
    assert_eq!(base.get_property(&["bar", "FOO"]), Some("1".to_string()));
    assert_eq!(base.get_property(&["bar"]), None);
}

#[test]
fn test_get_property_collision_first_declared_wins() {
    // Two keys that fold alike: the first declared property wins,
    // deterministically.
    let properties = vec![
        ("Foo".to_string(), "1".to_string()),
        ("FOO".to_string(), "2".to_string()),
    ];
    let base = MetaBase::new("c".to_string(), properties);
    assert_eq!(base.get_property(&["foo"]), Some("1".to_string()));
}

#[test]
fn test_with_name_empty_properties() {
    let base = MetaBase::with_name("c".to_string());
    assert_eq!(base.name, "c");
    assert!(base.properties.is_empty());
    assert_eq!(base.get_single_property("anything"), None);
}

#[test]
fn test_resolve_app_id_and_namespace() {
    // Context id=app1, namespace=ns1, no pod name; the namespace placeholder
    // expands to "<namespace>.<appID>", and {appID} is applied last.
    let m = runtime_meta("app1", "ns1", "", false);
    let comp = component("state.redis", vec![entry("connection", "{appID}-{namespace}")]);

    let base = m.to_base_metadata(comp).unwrap();
    assert_eq!(base.name, "test_component");
    assert_eq!(
        base.get_single_property("connection"),
        Some("app1-ns1.app1".to_string())
    );
}

#[test]
fn test_resolve_pod_name() {
    let m = runtime_meta("app1", "ns1", "pod-7", false);
    let comp = component("state.redis", vec![entry("consumer", "{podName}-x")]);

    let base = m.to_base_metadata(comp).unwrap();
    assert_eq!(
        base.get_single_property("consumer"),
        Some("pod-7-x".to_string())
    );
}

#[test]
fn test_resolve_pod_name_not_set_fails() {
    // The whole activation fails fast; no partial map is returned.
    let m = runtime_meta("app1", "ns1", "", false);
    let comp = component(
        "state.redis",
        vec![
            entry("first", "plain"),
            entry("consumer", "{podName}-x"),
            entry("later", "also plain"),
        ],
    );

    let result = m.to_base_metadata(comp);
    match result {
        Err(MetaError::PodNameNotSet { property_name }) => {
            assert_eq!(property_name, "consumer");
        }
        Ok(_) => panic!("expected the activation to fail"),
    }
}

#[test]
fn test_resolve_uuid() {
    let m = runtime_meta("app1", "ns1", "", false);
    let comp = component("state.redis", vec![entry("id", "{uuid}")]);
    let base = m.to_base_metadata(comp).unwrap();
    let v = base.get_single_property("id").unwrap();

    assert_eq!(v.len(), 36);
    assert!(!v.contains("{uuid}"));
    assert!(v
        .chars()
        .all(|c| c == '-' || c.is_ascii_hexdigit()));
}

#[test]
fn test_resolve_uuid_distinct_occurrences() {
    let m = runtime_meta("app1", "ns1", "", false);
    let comp = component("state.redis", vec![entry("id", "{uuid}/{uuid}")]);
    let base = m.to_base_metadata(comp).unwrap();
    let v = base.get_single_property("id").unwrap();

    assert_eq!(v.len(), 73);
    assert!(!v.contains("{uuid}"));
    let halves: Vec<&str> = v.split('/').collect();
    assert_eq!(halves.len(), 2);
    assert_ne!(halves[0], halves[1]);
}

#[test]
fn test_resolve_unknown_placeholder_untouched() {
    let m = runtime_meta("app1", "ns1", "", false);
    let comp = component("state.redis", vec![entry("x", "{unknown}-{appID}")]);
    let base = m.to_base_metadata(comp).unwrap();
    assert_eq!(
        base.get_single_property("x"),
        Some("{unknown}-app1".to_string())
    );
}

#[test]
fn test_resolve_duplicate_names_last_wins() {
    let m = runtime_meta("app1", "ns1", "", false);
    let comp = component(
        "state.redis",
        vec![entry("k", "first"), entry("k", "second")],
    );
    let base = m.to_base_metadata(comp).unwrap();
    assert_eq!(base.properties.len(), 1);
    assert_eq!(base.get_single_property("k"), Some("second".to_string()));
}

#[test]
fn test_resolve_missing_spec_gives_empty_map() {
    // Missing optional structure degrades gracefully.
    let m = runtime_meta("app1", "ns1", "", false);
    let comp = Component {
        type_meta: TypeMeta {
            kind: "Component".to_string(),
            api_version: "rapr.io/v1alpha1".to_string(),
        },
        metadata: None,
        spec: None,
        auth: None,
        scoped: Scoped::new(),
    };
    let base = m.to_base_metadata(comp).unwrap();
    assert_eq!(base.name, "");
    assert!(base.properties.is_empty());
}

#[test]
fn test_resolve_reference_entries_project_empty() {
    // An entry backed only by a secret reference projects to empty text.
    let m = runtime_meta("app1", "ns1", "", false);
    let comp = component(
        "state.redis",
        vec![NameValuePair {
            name: "password".to_string(),
            value: None,
            secret_key_ref: None,
            env_ref: Some("PASSWORD".to_string()),
        }],
    );
    let base = m.to_base_metadata(comp).unwrap();
    assert_eq!(base.get_single_property("password"), Some("".to_string()));
}

#[test]
fn test_is_wasm_component_type() {
    assert!(is_wasm_component_type("my.wasm"));
    assert!(is_wasm_component_type("wasm"));
    assert!(is_wasm_component_type("middleware.http.wasmbasic"));
    assert!(!is_wasm_component_type("state.redis"));
    assert!(!is_wasm_component_type(""));
    assert!(!is_wasm_component_type("WASM"));
}

#[test]
fn test_add_wasm_strict_sandbox_appends_entry() {
    let m = runtime_meta("app1", "ns1", "", true);
    let comp = component("my.wasm", vec![entry("path", "/srv/mod.wasm")]);

    let base = m.to_base_metadata(comp).unwrap();
    assert_eq!(
        base.get_single_property("strictSandbox"),
        Some("true".to_string())
    );
    assert_eq!(base.get_single_property("path"), Some("/srv/mod.wasm".to_string()));
}

#[test]
fn test_add_wasm_strict_sandbox_overrides_user_entry() {
    let m = runtime_meta("app1", "ns1", "", true);
    let comp = component("my.wasm", vec![entry("STRICTsandbox", "false")]);

    let base = m.to_base_metadata(comp).unwrap();
    // The entry keeps its declared casing and is forced to true.
    assert_eq!(base.properties.len(), 1);
    assert_eq!(base.properties[0].0, "STRICTsandbox");
    assert_eq!(
        base.get_single_property("strictsandbox"),
        Some("true".to_string())
    );
}

#[test]
fn test_add_wasm_strict_sandbox_disabled_leaves_component() {
    // With the global flag unset the metadata is unchanged, whatever the type.
    let m = runtime_meta("app1", "ns1", "", false);
    let comp = component("my.wasm", vec![entry("strictSandbox", "false")]);

    let base = m.to_base_metadata(comp).unwrap();
    assert_eq!(
        base.get_single_property("strictSandbox"),
        Some("false".to_string())
    );
    assert_eq!(base.properties.len(), 1);
}

#[test]
fn test_add_wasm_strict_sandbox_ignores_other_types() {
    let m = runtime_meta("app1", "ns1", "", true);
    let comp = component("state.redis", vec![entry("k", "v")]);

    let base = m.to_base_metadata(comp).unwrap();
    assert_eq!(base.get_single_property("strictSandbox"), None);
}

#[test]
fn test_add_wasm_strict_sandbox_direct_call() {
    let m = runtime_meta("app1", "ns1", "", true);
    let mut comp = component("my.wasm", vec![entry("path", "x")]);
    m.add_wasm_strict_sandbox(&mut comp);

    let items = comp.name_value_pairs();
    assert_eq!(items.len(), 2);
    assert_eq!(items[1].name, "strictSandbox");
    assert_eq!(items[1].value.as_ref().unwrap().to_str(), "true");
}

#[test]
fn test_contains_namespace() {
    let with = vec![entry("a", "x"), entry("b", "pre-{namespace}-post")];
    let without = vec![entry("a", "x"), entry("b", "{appID}")];
    assert!(contains_namespace(&with));
    assert!(!contains_namespace(&without));
    assert!(!contains_namespace(&[]));
}

#[test]
fn test_auth_secret_store_or_default() {
    let kubernetes = Meta::new(Options {
        id: "app1".to_string(),
        pod_name: "".to_string(),
        namespace: "ns1".to_string(),
        strict_sandbox: false,
        mode: RaprMode::Kubernetes,
    });
    let standalone = runtime_meta("app1", "ns1", "", false);

    let mut with_auth = component("state.redis", vec![]);
    with_auth.auth = Some(Auth {
        secret_store: "vault".to_string(),
    });
    let without_auth = component("state.redis", vec![]);

    assert_eq!(kubernetes.auth_secret_store_or_default(&with_auth), "vault");
    assert_eq!(
        kubernetes.auth_secret_store_or_default(&without_auth),
        "kubernetes"
    );
    assert_eq!(standalone.auth_secret_store_or_default(&with_auth), "vault");
    assert_eq!(standalone.auth_secret_store_or_default(&without_auth), "");
}

#[test]
fn test_meta_new_copies_options() {
    let m = Meta::new(Options {
        id: "a".to_string(),
        pod_name: "p".to_string(),
        namespace: "n".to_string(),
        strict_sandbox: true,
        mode: RaprMode::Kubernetes,
    });
    assert_eq!(m.id, "a");
    assert_eq!(m.pod_name, "p");
    assert_eq!(m.namespace, "n");
    assert!(m.strict_sandbox);
    assert_eq!(m.mode, RaprMode::Kubernetes);
}

#[test]
fn test_add_wasm_strict_sandbox_idempotent() {
    // A second enforcement changes nothing that resolution observes.
    let m = runtime_meta("app1", "ns1", "", true);
    let mut comp = component("my.wasm", vec![entry("path", "x")]);
    m.add_wasm_strict_sandbox(&mut comp);
    let once: Vec<(String, String)> = comp
        .name_value_pairs()
        .iter()
        .map(|p| (p.name.clone(), p.value.as_ref().unwrap().to_str()))
        .collect();
    m.add_wasm_strict_sandbox(&mut comp);
    let twice: Vec<(String, String)> = comp
        .name_value_pairs()
        .iter()
        .map(|p| (p.name.clone(), p.value.as_ref().unwrap().to_str()))
        .collect();
    assert_eq!(once, twice);
}

#[test]
fn test_to_base_metadata_deterministic_without_uuid() {
    // Without identifier placeholders, activation is pure: equal inputs give
    // equal property maps, sandbox enforcement included.
    let m = runtime_meta("app1", "ns1", "pod-1", true);
    let build = || component(
        "my.wasm",
        vec![entry("a", "{appID}-{namespace}"), entry("b", "{podName}")],
    );
    let first = m.to_base_metadata(build()).unwrap();
    let second = m.to_base_metadata(build()).unwrap();
    assert_eq!(first.name, second.name);
    assert_eq!(first.properties, second.properties);
    assert_eq!(
        first.get_single_property("strictSandbox"),
        Some("true".to_string())
    );
}
