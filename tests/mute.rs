use chart_resolver::mute::mute_values;
use chart_resolver::tree::Value;

fn text(x: &str) -> Value {
    Value::Str(x.to_string())
}

fn map(entries: Vec<(&str, Value)>) -> Value {
    Value::Mapping(entries.into_iter().map(|(k, v)| (k.to_string(), v)).collect())
}

fn pairs(rs: &[(&str, &str)]) -> Vec<(String, String)> {
    rs.iter().map(|(a, b)| (a.to_string(), b.to_string())).collect()
}

fn header(spec: Value) -> Value {
    map(vec![
        ("api_version", text("some.kubernetes.crd/v1alpha1")),
        ("kind", text("Object")),
        ("metadata", map(vec![("name", text("test"))])),
        ("spec", spec),
    ])
}

#[test]
fn test_object() {
    let have = header(map(vec![
        (
            "values",
            map(vec![
                ("valuesInside1", text("${env_var1}")),
                ("valuesInside2", text("${env_var2}")),
                ("${env_var1}", text("Do not scape me")),
                ("${env_var2}", text("Do not scape me")),
            ]),
        ),
        ("string", text("env_var1-env_var1-env_var2-env_var2-env_var1-env_var2")),
    ]));
    let want = header(map(vec![
        (
            "values",
            map(vec![
                ("valuesInside1", text("${OBJECTS-1}")),
                ("valuesInside2", text("${OBJECTS-2}")),
                ("${env_var1}", text("Do not scape me")),
                ("${env_var2}", text("Do not scape me")),
            ]),
        ),
        ("string", text("OBJECTS-1-OBJECTS-1-OBJECTS-2-OBJECTS-2-OBJECTS-1-OBJECTS-2")),
    ]));
    let replacements = pairs(&[("env_var1", "OBJECTS-1"), ("env_var2", "OBJECTS-2")]);
    let muted = mute_values(have, &replacements);
    assert_eq!(muted, want);
}

#[test]
fn test_mapping() {
    let have = header(Value::Sequence(vec![
        text("${env_var1}"),
        text("${env_var2}"),
        text("env_var1-env_var1-env_var2-env_var2-env_var1-env_var2"),
    ]));
    let want = header(Value::Sequence(vec![
        text("${MAPPING-1}"),
        text("${MAPPING-2}"),
        text("MAPPING-1-MAPPING-1-MAPPING-2-MAPPING-2-MAPPING-1-MAPPING-2"),
    ]));
    let replacements = pairs(&[("env_var1", "MAPPING-1"), ("env_var2", "MAPPING-2")]);
    let muted = mute_values(have, &replacements);
    assert_eq!(muted, want);
}

#[test]
fn test_mixed() {
    let have = header(Value::Sequence(vec![
        map(vec![("valuesInside1", text("${env_var1}"))]),
        map(vec![("valuesInside2", text("${env_var2}"))]),
        map(vec![("${env_var1}", text("Do not scape me"))]),
        map(vec![("${env_var2}", text("Do not scape me"))]),
        map(vec![("string", text("env_var1-env_var1-env_var2-env_var2-env_var1-env_var2"))]),
    ]));
    let want = header(Value::Sequence(vec![
        map(vec![("valuesInside1", text("${MIXED-1}"))]),
        map(vec![("valuesInside2", text("${MIXED-2}"))]),
        map(vec![("${env_var1}", text("Do not scape me"))]),
        map(vec![("${env_var2}", text("Do not scape me"))]),
        map(vec![("string", text("MIXED-1-MIXED-1-MIXED-2-MIXED-2-MIXED-1-MIXED-2"))]),
    ]));
    let replacements = pairs(&[("env_var1", "MIXED-1"), ("env_var2", "MIXED-2")]);
    let muted = mute_values(have, &replacements);
    assert_eq!(muted, want);
}

#[test]
fn mute_leaves_other_scalars() {
    let have = Value::Sequence(vec![Value::Null, Value::Bool(true), Value::Number("7".to_string())]);
    let want = Value::Sequence(vec![Value::Null, Value::Bool(true), Value::Number("7".to_string())]);
    assert_eq!(mute_values(have, &pairs(&[("7", "x")])), want);
}
