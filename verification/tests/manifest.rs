use dsh_desktop::manifest::{manifest_status, plugin_status, Json};

#[test]
fn status_of_a_full_manifest() {
    let text = r#"{
        "name": "web-profile",
        "dependencies": { "zeta-plugin": "^1.0.0", "alpha-plugin": "git+https://x" },
        "dsh": { "profile": { "bundles": ["base", 3, "extra", null] } }
    }"#;
    let st = plugin_status("/D/dsh", Some(text));
    assert_eq!(st.profile_dir, "/D/dsh/profiles/web");
    assert_eq!(st.dependencies, vec!["alpha-plugin", "zeta-plugin"]);
    assert_eq!(st.bundles, vec!["base", "extra"]);
}

#[test]
fn status_without_manifest() {
    let st = plugin_status("/D/dsh", None);
    assert_eq!(st.profile_dir, "/D/dsh/profiles/web");
    assert!(st.dependencies.is_empty());
    assert!(st.bundles.is_empty());
}

#[test]
fn status_of_invalid_json() {
    let st = plugin_status("/h", Some("{ not json"));
    assert!(st.dependencies.is_empty());
    assert!(st.bundles.is_empty());
}

#[test]
fn status_with_wrong_shapes() {
    let st = plugin_status("/h", Some(r#"{"dependencies": ["a"], "dsh": {"profile": {"bundles": "base"}}}"#));
    assert!(st.dependencies.is_empty());
    assert!(st.bundles.is_empty());
    let st = plugin_status("/h", Some(r#"[1, 2]"#));
    assert!(st.dependencies.is_empty());
    assert!(st.bundles.is_empty());
}

#[test]
fn status_with_empty_sections() {
    let st = plugin_status("/h", Some(r#"{"dependencies": {}, "dsh": {"profile": {"bundles": []}}}"#));
    assert!(st.dependencies.is_empty());
    assert!(st.bundles.is_empty());
}

#[test]
fn status_of_a_parsed_manifest() {
    let root = Json::Object(vec![
        (
            "dependencies".to_string(),
            Json::Object(vec![("b".to_string(), Json::Str("1".to_string())), ("a".to_string(), Json::Null)]),
        ),
        (
            "dsh".to_string(),
            Json::Object(vec![(
                "profile".to_string(),
                Json::Object(vec![(
                    "bundles".to_string(),
                    Json::Array(vec![Json::Str("x".to_string()), Json::Number, Json::Bool(true), Json::Str("y".to_string())]),
                )]),
            )]),
        ),
    ]);
    let st = manifest_status("/h", Some(&root));
    assert_eq!(st.profile_dir, "/h/profiles/web");
    assert_eq!(st.dependencies, vec!["b", "a"]);
    assert_eq!(st.bundles, vec!["x", "y"]);
    let none = manifest_status("/h", None);
    assert!(none.dependencies.is_empty() && none.bundles.is_empty());
}

#[test]
fn members_are_looked_up_by_name() {
    let root = Json::Object(vec![("k".to_string(), Json::Number), ("s".to_string(), Json::Str("v".to_string()))]);
    assert!(matches!(root.member("k"), Some(Json::Number)));
    assert!(matches!(root.member("s"), Some(Json::Str(s)) if s == "v"));
    assert!(root.member("z").is_none());
    assert!(Json::Array(vec![]).member("k").is_none());
}
