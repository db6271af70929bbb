use rapr::utils::component_log_name;
use rapr::utils::contains;
use rapr::utils::contains_prefixed;
use rapr::utils::filter;
use rapr::utils::get_int_val_or_default;
use rapr::utils::map_to_slice;
use rapr::utils::parse_service_addr;
use rapr::utils::populate_metadata_for_bulk_publish_entry;

#[derive(Debug, PartialEq, Clone)]
struct CustomType {
    v1: String,
    v2: i32,
}

#[test]
fn test_contains() {
    // Test finding an item
    assert!(contains(&["item-1", "item"], &"item"));
    assert!(contains(&[1, 2, 3], &1));
    assert!(contains(
        &[
            CustomType {
                v1: "first".to_string(),
                v2: 1
            },
            CustomType {
                v1: "second".to_string(),
                v2: 2
            }
        ],
        &CustomType {
            v1: "second".to_string(),
            v2: 2
        }
    ));

    // Test not finding an item
    assert!(!contains(&["item-1", "item"], &"not-in-item"));
    assert!(!contains(&[] as &[&str], &"not-in-item"));
    assert!(!contains(&[1, 2, 3], &100));
    assert!(!contains(&[] as &[i32], &100));
    assert!(!contains(
        &[
            CustomType {
                v1: "first".to_string(),
                v2: 1
            },
            CustomType {
                v1: "second".to_string(),
                v2: 2
            }
        ],
        &CustomType {
            v1: "foo".to_string(),
            v2: 100
        }
    ));
    assert!(!contains(
        &[] as &[CustomType],
        &CustomType {
            v1: "foo".to_string(),
            v2: 100
        }
    ));
}

#[test]
fn test_get_int_val_or_default() {
    struct TestCase {
        name: &'static str,
        val: i32,
        def: i32,
        expected: i32,
    }

    let test_cases = vec![
        TestCase {
            name: "value is not provided by user, default value is used",
            val: 0,
            def: 5,
            expected: 5,
        },
        TestCase {
            name: "val is provided by user",
            val: 91,
            def: 5,
            expected: 91,
        },
    ];

    for tc in test_cases {
        let actual = get_int_val_or_default(tc.val, tc.def);
        assert_eq!(actual, tc.expected, "Test case: {}", tc.name);
    }
}

fn get_value<'a>(m: &'a [(String, String)], key: &str) -> Option<&'a str> {
    m.iter().find(|p| p.0 == key).map(|p| p.1.as_str())
}

#[test]
fn test_populate_metadata_for_bulk_publish_entry() {
    let entry_meta = vec![
        ("key1".to_string(), "val1".to_string()),
        ("ttl".to_string(), "22s".to_string()),
    ];

    // Test req Meta does not contain any key present in entryMeta
    let req_meta = vec![
        ("rawPayload".to_string(), "true".to_string()),
        ("key2".to_string(), "val2".to_string()),
    ];

    let res_meta = populate_metadata_for_bulk_publish_entry(&req_meta, &entry_meta);
    assert_eq!(res_meta.len(), 4, "expected length to match");
    assert!(get_value(&res_meta, "key1").is_some(), "expected key to be present");
    assert_eq!(get_value(&res_meta, "key1"), Some("val1"), "expected val to be equal");
    assert!(get_value(&res_meta, "key2").is_some(), "expected key to be present");
    assert_eq!(get_value(&res_meta, "key2"), Some("val2"), "expected val to be equal");
    assert!(get_value(&res_meta, "ttl").is_some(), "expected key to be present");
    assert_eq!(get_value(&res_meta, "ttl"), Some("22s"), "expected val to be equal");
    assert!(
        get_value(&res_meta, "rawPayload").is_some(),
        "expected key to be present"
    );
    assert_eq!(
        get_value(&res_meta, "rawPayload"),
        Some("true"),
        "expected val to be equal"
    );

    // Test req Meta contains key present in entryMeta
    let req_meta = vec![
        ("ttl".to_string(), "1m".to_string()),
        ("key2".to_string(), "val2".to_string()),
    ];

    let res_meta = populate_metadata_for_bulk_publish_entry(&req_meta, &entry_meta);
    assert_eq!(res_meta.len(), 3, "expected length to match");
    assert!(get_value(&res_meta, "key1").is_some(), "expected key to be present");
    assert_eq!(get_value(&res_meta, "key1"), Some("val1"), "expected val to be equal");
    assert!(get_value(&res_meta, "key2").is_some(), "expected key to be present");
    assert_eq!(get_value(&res_meta, "key2"), Some("val2"), "expected val to be equal");
    assert!(get_value(&res_meta, "ttl").is_some(), "expected key to be present");
    assert_eq!(get_value(&res_meta, "ttl"), Some("22s"), "expected val to be equal");
}

#[test]
fn test_filter() {
    // Test filtering out empty values
    let input = vec!["", "a", "", "b", "", "c"];
    let output = filter(&input, |s| !s.is_empty());
    assert_eq!(input.len(), 6);
    assert_eq!(output.len(), 3);
    assert_eq!(output, vec!["a", "b", "c"]);

    // Test filtering out empty values and return empty collection if all values are filtered out
    let input = vec!["", "", ""];
    let output = filter(&input, |s| !s.is_empty());
    assert_eq!(input.len(), 3);
    assert!(output.is_empty());
}

#[test]
fn test_contains_prefixed() {
    struct TestCase {
        name: String,
        prefixes: Vec<String>,
        v: String,
        want: bool,
    }

    let test_cases = vec![
        TestCase {
            name: "empty".to_string(),
            prefixes: vec![],
            v: "some-service-account-name".to_string(),
            want: false,
        },
        TestCase {
            name: "notFound".to_string(),
            prefixes: vec![
                "service-account-name".to_string(),
                "other-service-account-name".to_string(),
            ],
            v: "some-service-account-name".to_string(),
            want: false,
        },
        TestCase {
            name: "one".to_string(),
            prefixes: vec![
                "service-account-name".to_string(),
                "some-service-account-name".to_string(),
            ],
            v: "some-service-account-name".to_string(),
            want: true,
        },
    ];

    for tc in test_cases {
        let result = contains_prefixed(&tc.prefixes, tc.v.as_str());
        assert_eq!(
            result, tc.want,
            "Test case: {} - contains_prefixed({:?}, {})",
            tc.name, tc.prefixes, tc.v
        );
    }
}

#[test]
fn test_map_to_slice() {
    // Test pairs of string to string
    let m = vec![
        ("a".to_string(), "b".to_string()),
        ("c".to_string(), "d".to_string()),
        ("e".to_string(), "f".to_string()),
    ];

    let mut got = map_to_slice(&m);
    got.sort();
    let mut expected = vec!["a".to_string(), "c".to_string(), "e".to_string()];
    expected.sort();
    assert_eq!(got, expected);

    // Test pairs of string to unit
    let m = vec![
        ("a".to_string(), ()),
        ("c".to_string(), ()),
        ("e".to_string(), ()),
    ];

    let mut got = map_to_slice(&m);
    got.sort();
    let mut expected = vec!["a".to_string(), "c".to_string(), "e".to_string()];
    expected.sort();
    assert_eq!(got, expected);

    // Test pairs of int to unit
    let m = vec![(1, ()), (2, ()), (3, ())];

    let mut got = map_to_slice(&m);
    got.sort();
    let mut expected = vec![1, 2, 3];
    expected.sort();
    assert_eq!(got, expected);
}

#[test]
fn test_component_log_name() {
    assert_eq!(component_log_name("redis", "state.redis", ""), "redis (state.redis)");
    assert_eq!(
        component_log_name("redis", "state.redis", "v1"),
        "redis (state.redis/v1)"
    );
}

#[test]
fn test_parse_service_addr() {
    struct TestCase {
        addr: &'static str,
        out: Vec<&'static str>,
    }

    let test_cases = vec![
        TestCase {
            addr: "localhost:1020",
            out: vec!["localhost:1020"],
        },
        TestCase {
            addr: "placement1:50005,placement2:50005,placement3:50005",
            out: vec!["placement1:50005", "placement2:50005", "placement3:50005"],
        },
        TestCase {
            addr: "placement1:50005, placement2:50005, placement3:50005",
            out: vec!["placement1:50005", "placement2:50005", "placement3:50005"],
        },
    ];

    for tc in test_cases {
        let result = parse_service_addr(tc.addr);
        assert_eq!(result, tc.out, "Test case: {}", tc.addr);
    }
}

#[test]
fn test_parse_service_addr_trims_tabs_and_empty_fields() {
    assert_eq!(parse_service_addr("\ta:1 ,, b:2\n"), vec!["a:1", "", "b:2"]);
}

#[test]
fn test_parse_service_addr_trims_unicode_whitespace() {
    // str::trim semantics: every Unicode White_Space character goes.
    assert_eq!(
        parse_service_addr("\u{000C}a:1,\u{00A0}b:2\u{3000}"),
        vec!["a:1", "b:2"]
    );
}
