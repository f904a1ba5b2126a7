use chart_resolver::secrets::{censor_line, delete_secret, insert_secret, template_replacements, Secrets};

#[test]
fn insert_twice_holds_once() {
    let mut s = Secrets::new();
    insert_secret(&mut s, "key");
    insert_secret(&mut s, "key");
    insert_secret(&mut s, "other");
    assert_eq!(s.len(), 2);
    assert_eq!(s.get(0), "key");
    assert_eq!(s.get(1), "other");
}

#[test]
fn delete_removes_and_ignores_absent() {
    let mut s = Secrets::new();
    insert_secret(&mut s, "a");
    insert_secret(&mut s, "b");
    delete_secret(&mut s, "a");
    delete_secret(&mut s, "zzz");
    assert_eq!(s.len(), 1);
    assert_eq!(s.get(0), "b");
}

#[test]
fn censors_held_secrets() {
    let mut s = Secrets::new();
    insert_secret(&mut s, "secretize-me-please");
    let line = censor_line("value: secretize-me-please!".to_string(), &s);
    assert_eq!(line, "value: SENSITIVE DATA!");
    delete_secret(&mut s, "secretize-me-please");
    let line = censor_line("value: secretize-me-please!".to_string(), &s);
    assert_eq!(line, "value: secretize-me-please!");
}

#[test]
fn replacements_apply_in_order() {
    let rs = vec![
        ("env_var1".to_string(), "REPLACED-1".to_string()),
        ("env_var2".to_string(), "REPLACED-2".to_string()),
    ];
    let out = template_replacements("env_var1-env_var2-env_var1".to_string(), &rs);
    assert_eq!(out, "REPLACED-1-REPLACED-2-REPLACED-1");
    let chained = vec![("a".to_string(), "b".to_string()), ("b".to_string(), "c".to_string())];
    assert_eq!(template_replacements("ab".to_string(), &chained), "cc");
}
