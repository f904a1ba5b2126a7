use chart_resolver::descriptor::{chart_from_trees, decode_chart, Chart, DecodeError, Dependency, Maintainer};
use chart_resolver::tree::{merge, Value};
use chart_resolver::version::Version;

fn text(x: &str) -> Value {
    Value::Str(x.to_string())
}

fn num(x: &str) -> Value {
    Value::Number(x.to_string())
}

fn map(entries: Vec<(&str, Value)>) -> Value {
    Value::Mapping(entries.into_iter().map(|(k, v)| (k.to_string(), v)).collect())
}

fn seq(items: Vec<Value>) -> Value {
    Value::Sequence(items)
}

fn version(major: i32, minor: i32, bugfix: i32, slug: &str) -> Version {
    Version { major, minor, bugfix, slug: slug.to_string() }
}

fn base_chart() -> Value {
    map(vec![
        ("apiVersion", text("v2")),
        ("name", text("test-chart-1")),
        ("description", text("A Helm chart for Kubernetes")),
        ("type", text("application")),
        ("version", text("0.1.0-slug")),
        ("appVersion", text("1.16.0")),
    ])
}

#[test]
fn test_deserialize_chart_yaml_with_slug() {
    let chart = decode_chart(&base_chart()).unwrap();

    let expected_output = Chart {
        api_version: String::from("v2"),
        name: String::from("test-chart-1"),
        description: String::from("A Helm chart for Kubernetes"),
        type_: String::from("application"),
        version: Version { major: 0, minor: 1, bugfix: 0, slug: "slug".to_string() },
        app_version: String::from("1.16.0"),
        ..Default::default()
    };

    assert_eq!(chart, expected_output);
}

#[test]
fn merge_mapping_disjoint_and_conflicting_keys() {
    let base = map(vec![("a", num("1")), ("b", num("2"))]);
    let over = map(vec![("b", num("3")), ("c", num("4"))]);
    let merged = merge(over, base);
    assert_eq!(merged, map(vec![("a", num("1")), ("b", num("3")), ("c", num("4"))]));
}

#[test]
fn merge_sequences_concatenate() {
    let base = seq(vec![text("x"), text("y")]);
    let over = seq(vec![text("z")]);
    assert_eq!(merge(over, base), seq(vec![text("x"), text("y"), text("z")]));
}

#[test]
fn merge_sequences_keep_duplicates() {
    let base = seq(vec![text("x")]);
    let over = seq(vec![text("x")]);
    assert_eq!(merge(over, base), seq(vec![text("x"), text("x")]));
}

#[test]
fn merge_scalar_replaces_mapping() {
    let base = map(vec![("a", map(vec![("nested", num("1"))]))]);
    let over = map(vec![("a", text("flat"))]);
    assert_eq!(merge(over, base), map(vec![("a", text("flat"))]));
}

#[test]
fn merge_nested_mappings_recursively() {
    let base = map(vec![("a", map(vec![("x", num("1")), ("y", num("2"))]))]);
    let over = map(vec![("a", map(vec![("y", num("5")), ("z", Value::Bool(true))]))]);
    let expected = map(vec![(
        "a",
        map(vec![("x", num("1")), ("y", num("5")), ("z", Value::Bool(true))]),
    )]);
    assert_eq!(merge(over, base), expected);
}

#[test]
fn merge_null_override_replaces() {
    let base = map(vec![("a", num("1"))]);
    assert_eq!(merge(Value::Null, base), Value::Null);
}

#[test]
fn absent_override_decodes_base() {
    let alone = decode_chart(&base_chart());
    let resolved = chart_from_trees(base_chart(), None);
    let with_empty = chart_from_trees(base_chart(), Some(map(vec![])));
    assert_eq!(alone, resolved);
    assert_eq!(alone, with_empty);
}

#[test]
fn missing_name_fails() {
    let tree = map(vec![
        ("apiVersion", text("v2")),
        ("description", text("d")),
        ("type", text("application")),
        ("version", text("1.0.0")),
    ]);
    assert_eq!(decode_chart(&tree), Err(DecodeError::MissingField("name".to_string())));
}

#[test]
fn wrong_kind_fails() {
    let tree = map(vec![
        ("apiVersion", text("v2")),
        ("name", seq(vec![])),
        ("description", text("d")),
        ("type", text("application")),
        ("version", text("1.0.0")),
    ]);
    assert_eq!(
        decode_chart(&tree),
        Err(DecodeError::TypeMismatch(
            "name".to_string(),
            "string".to_string(),
            "sequence".to_string()
        ))
    );
}

#[test]
fn non_mapping_chart_fails() {
    assert_eq!(
        decode_chart(&text("chart")),
        Err(DecodeError::TypeMismatch(
            "chart".to_string(),
            "mapping".to_string(),
            "string".to_string()
        ))
    );
}

#[test]
fn invalid_version_fails() {
    let tree = map(vec![
        ("apiVersion", text("v2")),
        ("name", text("n")),
        ("version", text("1.2")),
        ("description", text("d")),
        ("type", text("application")),
    ]);
    assert_eq!(decode_chart(&tree), Err(DecodeError::InvalidVersion("1.2".to_string())));
}

#[test]
fn keyword_of_wrong_kind_fails() {
    let tree = map(vec![
        ("apiVersion", text("v2")),
        ("name", text("n")),
        ("version", text("1.2.3")),
        ("description", text("d")),
        ("type", text("application")),
        ("keywords", seq(vec![text("a"), num("7")])),
    ]);
    assert_eq!(
        decode_chart(&tree),
        Err(DecodeError::TypeMismatch(
            "keywords".to_string(),
            "string".to_string(),
            "number".to_string()
        ))
    );
}

#[test]
fn dependencies_and_maintainers_decode() {
    let tree = map(vec![
        ("apiVersion", text("v2")),
        ("name", text("n")),
        ("version", text("1.2.3")),
        ("description", text("d")),
        ("type", text("library")),
        ("deprecated", Value::Bool(true)),
        (
            "dependencies",
            seq(vec![map(vec![
                ("name", text("common")),
                ("version", text("2.0.1")),
                ("import-values", seq(vec![text("defaults")])),
            ])]),
        ),
        ("maintainers", seq(vec![map(vec![("name", text("ann")), ("url", text("u"))])])),
    ]);
    let chart = decode_chart(&tree).unwrap();
    assert!(chart.deprecated);
    assert_eq!(
        chart.dependencies,
        vec![Dependency {
            name: "common".to_string(),
            version: version(2, 0, 1, ""),
            import_values: vec!["defaults".to_string()],
            ..Default::default()
        }]
    );
    assert_eq!(
        chart.maintainers,
        vec![Maintainer { name: "ann".to_string(), email: String::new(), url: "u".to_string() }]
    );
}

#[test]
fn maintainer_without_url_fails() {
    let tree = map(vec![
        ("apiVersion", text("v2")),
        ("name", text("n")),
        ("version", text("1.2.3")),
        ("description", text("d")),
        ("type", text("library")),
        ("maintainers", seq(vec![map(vec![("name", text("ann"))])])),
    ]);
    assert_eq!(decode_chart(&tree), Err(DecodeError::MissingField("url".to_string())));
}

#[test]
fn override_extends_and_wins_end_to_end() {
    let base = map(vec![
        ("apiVersion", text("v2")),
        ("name", text("n")),
        ("version", text("1.0.0")),
        ("description", text("d")),
        ("type", text("application")),
        ("keywords", seq(vec![text("a")])),
    ]);
    let over = map(vec![("version", text("1.0.0-beta")), ("keywords", seq(vec![text("b")]))]);
    let chart = chart_from_trees(base, Some(over)).unwrap();
    assert_eq!(chart.version, version(1, 0, 0, "beta"));
    assert_eq!(chart.keywords, vec!["a".to_string(), "b".to_string()]);
    assert_eq!(chart.name, "n");
}
