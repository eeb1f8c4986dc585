use bondar::config::{DevContainerConfig, MountObject, MountValue};
use bondar::features::{
    apply_feature_container_properties, cached_properties, collect_feature_container_properties,
    collect_feature_customizations, collect_feature_lifecycle_hooks, effective_feature_opts,
    feature_ids_in_order, feature_ids_sorted, feature_lifecycle_hooks, features_for_ordering,
    invalid_feature_option_values, list_texts, merge_customization_values,
    merge_feature_container_properties,
    merge_feature_option_defaults, mount_from_json, next_to_look_up, option_env_name,
    option_value_string, read_feature_metadata, sanitize_id, sort_by_installs_after,
    FeatureContainerProperties,
};
use bondar::json::Json;
use bondar::maps::EnvMap;
use bondar::notes::{Note, Notes};
use bondar::provision::handle_features_with_container;
use bondar::texts::Texts;

fn json(text: &str) -> Json {
    Json::parse(text).unwrap()
}

fn list(items: &[&str]) -> Texts {
    Texts { items: items.iter().map(|s| s.to_string()).collect() }
}

fn features(entries: &[(&str, &str)]) -> Vec<(String, Json)> {
    entries.iter().map(|(id, opts)| (id.to_string(), json(opts))).collect()
}

fn sorted(entries: &[(&str, &str)]) -> Vec<String> {
    sort_by_installs_after(&features(entries), &mut Notes::new()).items
}

#[test]
fn test_handle_empty() {
    let mut notes = Notes::new();
    assert!(handle_features_with_container(None, None, true, &vec![], &mut notes).is_empty());
    let empty: Vec<(String, Json)> = vec![];
    assert!(
        handle_features_with_container(Some(&empty), None, true, &vec![], &mut notes).is_empty()
    );
    assert!(notes.items.is_empty());
}

#[test]
fn test_option_env_name() {
    assert_eq!(option_env_name("installZsh"), "INSTALLZSH");
    assert_eq!(option_env_name("version"), "VERSION");
    assert_eq!(option_env_name("foo-bar"), "FOO_BAR");
    assert_eq!(option_env_name("foo.bar"), "FOO_BAR");
    assert_eq!(option_env_name("1abc"), "_ABC");
    assert_eq!(option_env_name("_x"), "_X");
    assert_eq!(option_env_name("123"), "_");
    assert_eq!(option_env_name(""), "");
}

#[test]
fn test_effective_feature_opts() {
    let effective =
        |opts: &str| effective_feature_opts("ghcr.io/a/b", &json(opts), &mut Notes::new());
    // String option values are shorthand for the `version` option
    assert_eq!(effective(r#""18""#), json(r#"{"version": "18"}"#));
    assert_eq!(effective(r#"{"a": 1}"#), json(r#"{"a": 1}"#));
    assert_eq!(effective("null"), Json::Null);
}

#[test]
fn test_sanitize_id() {
    let id = "ghcr.io/devcontainers/features/common-utils:2";
    let sanitized = sanitize_id(id);
    assert!(sanitized.starts_with("ghcr_io-devcontainers-features-common_utils_2-"));
    // Stable for the same id
    assert_eq!(sanitized, sanitize_id(id));
}

#[test]
fn test_sanitize_id_special_and_unicode() {
    assert!(sanitize_id("a b@c").starts_with("a_b_c-"));
    // Unicode alphanumerics are preserved in the readable part
    assert!(sanitize_id("日本語").starts_with("日本語-"));
    assert!(sanitize_id("").starts_with('-'));
}

#[test]
fn test_sanitize_id_no_collision() {
    assert_ne!(sanitize_id("ghcr.io/a/b"), sanitize_id("ghcr.io/a-b"));
    // Separators that previously sanitized to the same string
    assert_ne!(sanitize_id("ghcr.io/a-b"), sanitize_id("ghcr.io/a_b"));
    assert_ne!(sanitize_id("ghcr.io/a/b"), sanitize_id("ghcr.io/a_b"));
}

#[test]
fn test_read_feature_metadata_singular_and_plural() {
    // Singular form (spec) takes precedence
    let meta = read_feature_metadata(
        Some(r#"{"name": "x", "installsAfter": ["ghcr.io/a/y"]}"#),
        Some(r#"{"name": "x", "installsAfter": ["ghcr.io/a/z"]}"#),
    )
    .unwrap();
    assert_eq!(meta.get("installsAfter"), Some(&json(r#"["ghcr.io/a/y"]"#)));

    // Plural-only fallback
    assert!(read_feature_metadata(None, Some(r#"{"name": "y"}"#)).is_some());

    // Missing -> None
    assert!(read_feature_metadata(None, None).is_none());

    // Invalid JSON -> None
    assert!(read_feature_metadata(Some("not json"), None).is_none());
}

#[test]
fn test_merge_feature_option_defaults() {
    let meta = json(
        r#"{"id":"x","version":"1.0.0","name":"x","options":{"installZsh":{"type":"boolean","default":true},"version":{"type":"string","default":"latest"},"noDefault":{"type":"string"}}}"#,
    );

    // User values win; missing options get their declared defaults
    let merged = merge_feature_option_defaults(&json(r#"{"version": "18"}"#), Some(&meta));
    assert_eq!(merged.get("version"), Some(&json(r#""18""#)));
    assert_eq!(merged.get("installZsh"), Some(&Json::Bool(true)));
    assert!(merged.get("noDefault").is_none());

    // No user options -> all defaults; non-object opts are replaced
    let merged2 = merge_feature_option_defaults(&Json::Null, Some(&meta));
    assert_eq!(merged2.get("installZsh"), Some(&Json::Bool(true)));
    assert_eq!(merged2.get("version"), Some(&json(r#""latest""#)));

    // Missing metadata -> unchanged
    let unchanged = merge_feature_option_defaults(&json(r#"{"a": 1}"#), None);
    assert_eq!(unchanged, json(r#"{"a": 1}"#));
}

#[test]
fn test_collect_feature_customizations_unions_arrays() {
    let id_a = "ghcr.io/test/feature-union-a";
    let id_b = "ghcr.io/test/feature-union-b";
    let catalog = features(&[
        (id_a, r#"{"customizations":{"vscode":{"extensions":["a"],"settings":{"a":1}}}}"#),
        (id_b, r#"{"customizations":{"vscode":{"extensions":["b"],"settings":{"b":1}}}}"#),
    ]);
    let requested = features(&[(id_a, "{}"), (id_b, "{}")]);
    let order = feature_ids_sorted(Some(&requested), &catalog);
    let merged = collect_feature_customizations(&requested, &order, &catalog);
    let vscode = merged.get("vscode").unwrap();
    assert_eq!(vscode.get("extensions"), Some(&json(r#"["a", "b"]"#)));
    assert_eq!(vscode.get("settings").unwrap().get("a"), Some(&json("1")));
    assert_eq!(vscode.get("settings").unwrap().get("b"), Some(&json("1")));
}

#[test]
fn test_collect_feature_lifecycle_hooks() {
    let id = "ghcr.io/test/feature-hooks";
    let catalog = features(&[(
        id,
        r#"{"postCreateCommand": "echo feature", "postStartCommand": ["echo", "start"]}"#,
    )]);
    let requested = features(&[(id, "{}")]);
    let order = feature_ids_sorted(Some(&requested), &catalog);
    let hooks = collect_feature_lifecycle_hooks(&requested, &order, &catalog);
    assert_eq!(hooks.len(), 2);
    assert_eq!(hooks[0].0, "postCreateCommand");
    assert_eq!(hooks[0].1, json(r#""echo feature""#));
    assert_eq!(hooks[1].0, "postStartCommand");
    assert_eq!(
        collect_feature_lifecycle_hooks(&vec![], &list(&[]), &catalog).len(),
        0
    );
}

#[test]
fn test_feature_hooks_and_customizations_follow_install_order() {
    let id_a = "ghcr.io/test/order-a";
    let id_b = "ghcr.io/test/order-b";
    let catalog = features(&[
        (id_a, r#"{"postCreateCommand": "echo a", "customizations": {"vscode": {"x": "a"}}}"#),
        (id_b, r#"{"postCreateCommand": "echo b", "customizations": {"vscode": {"x": "b"}}}"#),
    ]);
    let requested = features(&[(id_a, "{}"), (id_b, "{}")]);
    let order = list(&[id_b, id_a]);
    let hooks = collect_feature_lifecycle_hooks(&requested, &order, &catalog);
    assert_eq!(hooks.len(), 2);
    assert_eq!(hooks[0].1, json(r#""echo b""#));
    assert_eq!(hooks[1].1, json(r#""echo a""#));
    // Later features in install order override earlier values
    let merged = collect_feature_customizations(&requested, &order, &catalog);
    assert_eq!(merged.get("vscode").unwrap().get("x"), Some(&json(r#""a""#)));
}

#[test]
fn test_feature_ids_sorted_includes_cached_dependencies() {
    let dep = "ghcr.io/test/restart-dep";
    let main = "ghcr.io/test/restart-main";
    let catalog = features(&[
        (dep, r#"{"id":"restart-dep","version":"1.0.0","name":"dep"}"#),
        (
            main,
            r#"{"id":"restart-main","version":"1.0.0","name":"main","dependsOn":{"ghcr.io/test/restart-dep":{}}}"#,
        ),
    ]);
    let requested = features(&[(main, "{}")]);
    assert_eq!(
        feature_ids_sorted(Some(&requested), &catalog).items,
        vec![dep.to_string(), main.to_string()]
    );
    // Missing cache metadata still yields the requested id
    let uncached = "ghcr.io/test/restart-uncached";
    let requested2 = features(&[(uncached, "{}")]);
    assert_eq!(
        feature_ids_sorted(Some(&requested2), &vec![]).items,
        vec![uncached.to_string()]
    );
}

#[test]
fn test_invalid_feature_option_values() {
    let meta = json(
        r#"{"options":{"version":{"type":"string","enum":["18","20"]},"flag":{"type":"boolean","enum":[true,false]}}}"#,
    );
    let messages = |opts: &str| {
        invalid_feature_option_values("ghcr.io/a/b", &json(opts), Some(&meta)).items
    };
    // Valid values produce no messages (boolean compared as string)
    assert!(messages(r#"{"version": "18", "flag": true}"#).is_empty());
    // Invalid values are reported
    let found = messages(r#"{"version": "19", "flag": "maybe"}"#);
    assert_eq!(found.len(), 2);
    assert!(found[0].contains("version"));
    assert!(found[1].contains("flag"));
    // Unknown option names are ignored
    assert!(messages(r#"{"other": "x"}"#).is_empty());
}

#[test]
fn test_sort_by_installs_after_orders_dependencies() {
    let order = sorted(&[
        ("ghcr.io/a/child", r#"{ "installsAfter": ["ghcr.io/a/base"] }"#),
        ("ghcr.io/a/base", "{}"),
    ]);
    let base_pos = order.iter().position(|x| x == "ghcr.io/a/base").unwrap();
    let child_pos = order.iter().position(|x| x == "ghcr.io/a/child").unwrap();
    assert!(base_pos < child_pos);
}

#[test]
fn test_sort_by_installs_after_no_circular_hang() {
    let order = sorted(&[
        ("ghcr.io/a/x", r#"{ "installsAfter": ["ghcr.io/a/y"] }"#),
        ("ghcr.io/a/y", r#"{ "installsAfter": ["ghcr.io/a/x"] }"#),
    ]);
    assert_eq!(order.len(), 2);
}

#[test]
fn test_sort_by_installs_after_unknown_dependency() {
    // Unknown dependency is skipped (a warning is emitted), no hang
    let mut notes = Notes::new();
    let requested =
        features(&[("ghcr.io/a/only", r#"{ "installsAfter": ["ghcr.io/a/missing"] }"#)]);
    let order = sort_by_installs_after(&requested, &mut notes);
    assert_eq!(order.items, vec!["ghcr.io/a/only"]);
    assert_eq!(notes.items.len(), 1);
}

#[test]
fn test_sort_by_installs_after_non_array() {
    // Non-array installsAfter is warned and ignored
    let order = sorted(&[("ghcr.io/a/x", r#"{ "installsAfter": "not-an-array" }"#)]);
    assert_eq!(order.len(), 1);
}

#[test]
fn test_sort_by_installs_after_deterministic() {
    let entries = [("ghcr.io/a/b", "{}"), ("ghcr.io/a/a", "{}")];
    let sorted1 = sorted(&entries);
    let sorted2 = sorted(&[entries[1], entries[0]]);
    assert_eq!(sorted1, sorted2);
    assert_eq!(sorted1, vec!["ghcr.io/a/a", "ghcr.io/a/b"]);
}

#[test]
fn test_sort_by_installs_after_empty() {
    assert!(sorted(&[]).is_empty());
}

#[test]
fn test_collect_and_apply_feature_container_properties() {
    let meta = json(
        r#"{
                "containerEnv": {"FEATURE_VAR": "fv", "NUM": 1},
                "mounts": ["type=volume,source=fvol,target=/fdata", {"type": "bind", "source": "/host", "target": "/in", "readonly": true}],
                "privileged": true,
                "init": true,
                "capAdd": ["SYS_PTRACE"],
                "securityOpt": ["seccomp=unconfined"]
            }"#,
    );
    let props =
        collect_feature_container_properties("ghcr.io/a/b", Some(&meta), &mut Notes::new());
    assert_eq!(props.container_env.get("FEATURE_VAR"), Some("fv"));
    assert_eq!(props.container_env.get("NUM"), Some("1"));
    assert_eq!(props.mounts.len(), 2);
    assert!(props.privileged);
    assert!(props.init);
    assert_eq!(props.cap_add, vec!["SYS_PTRACE".to_string()]);
    assert_eq!(props.security_opt, vec!["seccomp=unconfined".to_string()]);

    // Applying merges without overriding user values
    let mut own = EnvMap::new();
    own.insert("FEATURE_VAR", "user");
    let mut cfg = DevContainerConfig {
        container_env: own,
        cap_add: vec!["NET_ADMIN".to_string()],
        ..Default::default()
    };
    apply_feature_container_properties(&mut cfg, &props);
    assert_eq!(cfg.container_env.get("FEATURE_VAR").unwrap(), "user");
    assert_eq!(cfg.container_env.get("NUM").unwrap(), "1");
    assert_eq!(cfg.mounts.len(), 2);
    assert_eq!(cfg.privileged, Some(true));
    assert_eq!(cfg.init, Some(true));
    assert_eq!(
        cfg.cap_add,
        vec!["NET_ADMIN".to_string(), "SYS_PTRACE".to_string()]
    );
    assert_eq!(cfg.security_opt, vec!["seccomp=unconfined".to_string()]);
}

#[test]
fn test_collect_feature_customizations() {
    let id = "ghcr.io/test/feature";
    let catalog = features(&[(id, r#"{"customizations": {"vscode": {"settings": {"a": 1}}}}"#)]);
    for opts in ["{}", r#""1""#] {
        let requested = features(&[(id, opts)]);
        let order = feature_ids_sorted(Some(&requested), &catalog);
        let merged = collect_feature_customizations(&requested, &order, &catalog);
        let settings = merged.get("vscode").unwrap().get("settings").unwrap();
        assert_eq!(settings.get("a"), Some(&json("1")));
    }

    // No features -> empty object
    assert_eq!(
        collect_feature_customizations(&vec![], &list(&[]), &catalog),
        json("{}")
    );
}

#[test]
fn directory_names_end_in_a_hash() {
    let mut hash: u64 = 14695981039346656037;
    for b in "ghcr.io/a/b".bytes() {
        hash ^= u64::from(b);
        hash = hash.wrapping_mul(1099511628211);
    }
    let name = sanitize_id("ghcr.io/a/b");
    let (readable, suffix) = name.rsplit_once('-').unwrap();
    assert_eq!(readable, "ghcr_io-a-b");
    assert_eq!(suffix, format!("{:08x}", hash as u32));
}

#[test]
fn options_as_texts() {
    assert_eq!(option_value_string(&json("true")), "true");
    assert_eq!(option_value_string(&json(r#""a b""#)), "a b");
    assert_eq!(option_value_string(&json("18")), "18");
    assert_eq!(list_texts(&list(&["a", "b\"c"])), r#"["a", "b\"c"]"#);
}

#[test]
fn mounts_of_features() {
    assert_eq!(
        mount_from_json(&json(r#"{"type": "volume", "target": "/d"}"#)),
        Some(MountValue::Object(MountObject {
            source: None,
            target: Some("/d".to_string()),
            mount_type: Some("volume".to_string()),
            readonly: None,
        }))
    );
    assert_eq!(mount_from_json(&json(r#"{"target": 5}"#)), None);
    assert_eq!(mount_from_json(&json("5")), None);
    let mut notes = Notes::new();
    let meta = json(r#"{"mounts": [5]}"#);
    let props = collect_feature_container_properties("f", Some(&meta), &mut notes);
    assert!(props.mounts.is_empty());
    assert_eq!(notes.items.len(), 1);
}

#[test]
fn properties_of_features_add_up() {
    let first = json(r#"{"containerEnv": {"A": "1", "B": "1"}, "capAdd": ["X"]}"#);
    let second = json(r#"{"containerEnv": {"A": "2"}, "capAdd": ["X", "Y"], "init": true}"#);
    let mut notes = Notes::new();
    let mut all = collect_feature_container_properties("a", Some(&first), &mut notes);
    let next = collect_feature_container_properties("b", Some(&second), &mut notes);
    merge_feature_container_properties(&mut all, next);
    assert_eq!(all.container_env.get("A"), Some("2"));
    assert_eq!(all.container_env.get("B"), Some("1"));
    assert_eq!(all.cap_add, vec!["X".to_string(), "Y".to_string()]);
    assert!(all.init);
    assert!(!all.privileged);
}

#[test]
fn orders_of_features() {
    let requested = features(&[("a", "{}"), ("b", "{}"), ("c", "{}")]);
    assert_eq!(
        feature_ids_in_order(&requested, &list(&["c", "x"])).items[0],
        "c"
    );
    assert_eq!(feature_lifecycle_hooks().items.len(), 5);
    let catalog = features(&[("a", r#"{"dependsOn": {"d": {}}}"#)]);
    let only_a = features(&[("a", "{}")]);
    assert_eq!(
        next_to_look_up(Some(&only_a), &vec![], &list(&[])),
        Some("a".to_string())
    );
    assert_eq!(
        next_to_look_up(Some(&only_a), &catalog, &list(&["a"])),
        Some("d".to_string())
    );
    assert_eq!(next_to_look_up(Some(&only_a), &catalog, &list(&["a", "d"])), None);
    let described = features(&[("a", r#"{"installsAfter": ["b"]}"#)]);
    let ordering = features_for_ordering(&requested, &described);
    assert_eq!(sort_by_installs_after(&ordering, &mut Notes::new()).items, vec!["b", "a", "c"]);
}

#[test]
fn options_that_are_no_object_are_warned_of() {
    let mut notes = Notes::new();
    effective_feature_opts("f", &json("5"), &mut notes);
    assert_eq!(
        notes.items,
        vec![Note::Warning(
            "Warning: feature 'f' options must be an object, got 5; ignoring options".to_string()
        )]
    );
}

#[test]
fn merging_twice_changes_nothing() {
    let Json::Object(incoming) = json(r#"{"a": [1, 2], "b": {"c": [3, 3], "d": 1}, "e": 5}"#) else {
        panic!("not an object")
    };
    let Json::Object(mut merged) = json(r#"{"a": [2, 0], "b": {"d": 2, "f": 1}, "g": 6}"#) else {
        panic!("not an object")
    };
    merge_customization_values(&mut merged, &incoming);
    let once = Json::Object(merged);
    assert_eq!(
        once,
        json(r#"{"a": [2, 0, 1], "b": {"d": 1, "f": 1, "c": [3, 3]}, "g": 6, "e": 5}"#)
    );
    let Json::Object(mut again) = once.copy() else { panic!("not an object") };
    merge_customization_values(&mut again, &incoming);
    assert_eq!(Json::Object(again), once);
}

#[test]
fn properties_of_cached_features() {
    let requested = features(&[("ghcr.io/a/b", "{}")]);
    let catalog = features(&[
        (
            "ghcr.io/a/b",
            r#"{"dependsOn": {"ghcr.io/a/c": {}}, "containerEnv": {"A": "b"}, "mounts": [5]}"#,
        ),
        ("ghcr.io/a/c", r#"{"containerEnv": {"A": "c", "C": "1"}, "init": true}"#),
        ("ghcr.io/a/d", r#"{"privileged": true}"#),
    ]);
    let mut notes = Notes::new();
    let props = cached_properties(Some(&requested), &catalog, &mut notes);
    assert_eq!(props.container_env.get("A"), Some("b"));
    assert_eq!(props.container_env.get("C"), Some("1"));
    assert!(props.init);
    assert!(!props.privileged);
    assert_eq!(notes.items.len(), 1);
    let none = cached_properties(None, &catalog, &mut Notes::new());
    assert_eq!(none, FeatureContainerProperties::default());
}

#[test]
fn properties_apply_once_but_for_mounts() {
    let meta = json(
        r#"{"containerEnv": {"A": "1"}, "capAdd": ["X"], "init": true, "mounts": ["type=tmpfs,target=/t"]}"#,
    );
    let props = collect_feature_container_properties("f", Some(&meta), &mut Notes::new());
    let mut cfg = DevContainerConfig::default();
    apply_feature_container_properties(&mut cfg, &props);
    apply_feature_container_properties(&mut cfg, &props);
    assert_eq!(cfg.container_env.len(), 1);
    assert_eq!(cfg.cap_add, vec!["X".to_string()]);
    assert_eq!(cfg.init, Some(true));
    assert_eq!(cfg.mounts.len(), 2);
}

#[test]
fn circular_dependencies_are_all_there() {
    let requested = features(&[("ghcr.io/a/b", "{}")]);
    let catalog = features(&[
        ("ghcr.io/a/b", r#"{"dependsOn": {"ghcr.io/a/c": {}}}"#),
        ("ghcr.io/a/c", r#"{"dependsOn": {"ghcr.io/a/b": {}, "ghcr.io/a/d": {}}}"#),
    ]);
    let order = feature_ids_sorted(Some(&requested), &catalog);
    assert_eq!(order.items, vec!["ghcr.io/a/d", "ghcr.io/a/c", "ghcr.io/a/b"]);
}

#[test]
fn variables_of_options_stay() {
    for name in ["installZsh", "foo-bar", "1abc", "_x", "123", "", "__9", "a_1"] {
        let variable = option_env_name(name);
        assert_eq!(option_env_name(&variable), variable);
    }
}
