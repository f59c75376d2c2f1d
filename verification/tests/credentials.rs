use dsh_harness::credentials::{extract_yaml_value, has_key, remove_credential, upsert_credential};

#[test]
fn key_goes_under_the_first_line_of_keys() {
    assert_eq!(
        upsert_credential("version: 1\nrefs:\n  DEEPSEEK_API_KEY: sk-test\n"),
        "version: 1\nrefs:\n  AIS_CODEX_API_KEY: local\n  DEEPSEEK_API_KEY: sk-test\n"
    );
    assert_eq!(upsert_credential("refs: \nrefs:\n"), "refs: \n  AIS_CODEX_API_KEY: local\nrefs:\n");
    assert_eq!(upsert_credential("refs:\n  a: 1"), "refs:\n  AIS_CODEX_API_KEY: local\n  a: 1\n");
}

#[test]
fn key_goes_to_the_end_without_such_a_line() {
    assert_eq!(upsert_credential("a: 1\n\n"), "a: 1\nAIS_CODEX_API_KEY: local\n");
    assert_eq!(upsert_credential(" \n"), "version: 1\nrefs:\n  AIS_CODEX_API_KEY: local\n");
}

#[test]
fn key_is_written_once() {
    let once = upsert_credential("version: 1\nrefs:\n");
    assert!(has_key(&once));
    assert_eq!(upsert_credential(&once), once);
    assert_eq!(upsert_credential("  AIS_CODEX_API_KEY: x"), "  AIS_CODEX_API_KEY: x\n");
}

#[test]
fn removing_the_key_undoes_writing_it() {
    for s in ["version: 1\nrefs:\n", "refs:\n  a: 1\n", "a: 1\n"] {
        assert!(!has_key(s));
        assert_eq!(remove_credential(&upsert_credential(s)), s);
    }
    assert_eq!(remove_credential(&upsert_credential("")), "version: 1\nrefs:\n");
    assert_eq!(remove_credential("AIS_CODEX_API_KEY: a\nb: 1\n  AIS_CODEX_API_KEY: c"), "b: 1\n");
    assert_eq!(remove_credential("b: 1"), "b: 1\n");
}

#[test]
fn last_line_of_keys_without_newline_is_written_onto() {
    assert_eq!(upsert_credential("refs:"), "refs:  AIS_CODEX_API_KEY: local\n");
    assert!(!has_key(&upsert_credential("refs:")));
}

#[test]
fn values_are_read_without_quotes() {
    let c = "version: 1\nrefs:\n  A: \"sk-1\"\n  B: 'x:y' \n  C:\n  A: other\n";
    assert_eq!(extract_yaml_value(c, "A"), Some("sk-1".to_string()));
    assert_eq!(extract_yaml_value(c, "B"), Some("x:y".to_string()));
    assert_eq!(extract_yaml_value(c, "C"), None);
    assert_eq!(extract_yaml_value(c, "D"), None);
    assert_eq!(extract_yaml_value("A: \"'q'\"\r\n", "A"), Some("q".to_string()));
}
