use rapr::component::Auth;
use rapr::component::Component;
use rapr::component::ComponentSpec;
use rapr::component::ObjectMeta;
use rapr::component::Resource;
use rapr::component::TypeMeta;
use rapr::scoped::Scoped;

fn sample_component() -> Component {
    Component {
        type_meta: TypeMeta {
            kind: "Component".to_string(),
            api_version: "rapr.io/v1alpha1".to_string(),
        },
        metadata: Some(ObjectMeta {
            name: Some("redis".to_string()),
            namespace: Some("ns1".to_string()),
        }),
        spec: Some(ComponentSpec {
            cmpt_type: "state.redis".to_string(),
            version: "v1".to_string(),
            ignore_errors: false,
            metadata: vec![],
            init_timeout: None,
        }),
        auth: Some(Auth {
            secret_store: "vault".to_string(),
        }),
        scoped: Scoped::with_scopes(vec!["app1".to_string()]),
    }
}

#[test]
fn test_component_kind_and_api_version() {
    let c = sample_component();
    assert_eq!(c.kind(), "Component");
    assert_eq!(c.api_version(), "rapr.io/v1alpha1");
}

#[test]
fn test_component_names() {
    let c = sample_component();
    assert_eq!(c.get_name(), "redis");
    assert_eq!(c.get_namespace(), "ns1");
    assert_eq!(c.get_secret_store(), "vault");
    assert_eq!(c.get_scopes(), ["app1".to_string()]);
}

#[test]
fn test_component_names_default_empty() {
    let mut c = sample_component();
    c.metadata = None;
    c.auth = None;
    c.spec = None;
    assert_eq!(c.get_name(), "");
    assert_eq!(c.get_namespace(), "");
    assert_eq!(c.get_secret_store(), "");
    assert!(c.name_value_pairs().is_empty());
}

#[test]
fn test_component_log_name_with_version() {
    let c = sample_component();
    assert_eq!(c.log_name(), "redis (state.redis/v1)");
}

#[test]
fn test_component_log_name_without_version() {
    let mut c = sample_component();
    if let Some(spec) = c.spec.as_mut() {
        spec.version = String::new();
    }
    assert_eq!(c.log_name(), "redis (state.redis)");
}

#[test]
fn test_empty_meta_deep_copy() {
    let c = sample_component();
    let copy = c.empty_meta_deep_copy();

    assert_eq!(copy.type_meta.kind, "Component");
    assert_eq!(copy.type_meta.api_version, "rapr.io/v1alpha1");
    assert_eq!(copy.get_name(), "redis");
    // Only the name survives in the object metadata.
    assert_eq!(copy.get_namespace(), "");
    // The rest of the component is a deep copy.
    assert_eq!(copy.spec.as_ref().unwrap().cmpt_type, "state.redis");
    assert_eq!(copy.get_secret_store(), "vault");
    assert!(copy.scoped.is_app_scoped("app1"));
}

#[test]
fn test_resource_trait_on_component() {
    let c = sample_component();
    assert_eq!(Resource::kind(&c), "Component".to_string());
    assert_eq!(Resource::api_version(&c), "rapr.io/v1alpha1".to_string());
    assert_eq!(Resource::get_name(&c), "redis".to_string());
    assert_eq!(Resource::get_namespace(&c), "ns1".to_string());
    assert_eq!(Resource::log_name(&c), "redis (state.redis/v1)".to_string());
    assert_eq!(Resource::get_secret_store(&c), "vault".to_string());
    assert_eq!(Resource::get_scopes(&c), vec!["app1".to_string()]);
    assert!(Resource::name_value_pairs(&c).is_empty());
}

#[test]
fn test_component_clone() {
    let c = sample_component();
    let copy = c.clone();
    assert_eq!(copy.get_name(), "redis");
    assert_eq!(copy.get_namespace(), "ns1");
    assert_eq!(copy.get_secret_store(), "vault");
    assert_eq!(copy.log_name(), "redis (state.redis/v1)");
}
