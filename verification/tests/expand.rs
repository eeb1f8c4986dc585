use bondar::expand::{
    compose_project_name, devcontainer_id_for, expand_container_env_from_map,
    expand_container_env_vars, expand_devcontainer_id, expand_env_vars, expand_local_env_vars,
    expand_vars_for_container, expand_vars_for_host, expand_vars_for_host_with_target,
    resolve_container_env_value, Workspace,
};
use bondar::maps::EnvMap;
use bondar::notes::{Note, Notes};

fn workspace(folder: &str) -> Workspace {
    Workspace {
        folder: folder.to_string(),
        basename: folder.rsplit('/').next().map(|s| s.to_string()),
    }
}

fn env(entries: &[(&str, &str)]) -> EnvMap {
    let mut map = EnvMap::new();
    for (key, value) in entries {
        map.insert(key, value);
    }
    map
}

fn local(input: &str, host: &EnvMap) -> String {
    expand_local_env_vars(input, host, &mut Notes::new())
}

fn container(input: &str, host: &EnvMap) -> String {
    expand_container_env_vars(input, host, &mut Notes::new())
}

fn for_host(input: &str, ws: &Workspace, target: &str) -> String {
    expand_vars_for_host_with_target(input, ws, target, &EnvMap::new(), &mut Notes::new())
}

#[test]
fn test_resolve_container_env_value() {
    let raw = env(&[("A", "x"), ("B", "${containerEnv:A}-y")]);
    assert_eq!(resolve_container_env_value("${containerEnv:A}", &raw), "x");
    assert_eq!(resolve_container_env_value("${containerEnv:B}", &raw), "x-y");
    // Default form resolves against the map value, not the default
    assert_eq!(resolve_container_env_value("${containerEnv:A:fallback}", &raw), "x");
    // Unmatched keys keep the default for the generic expansion
    assert_eq!(
        resolve_container_env_value("${containerEnv:C:fallback}", &raw),
        "${containerEnv:C:fallback}"
    );
    // Self-reference is left untouched (falls through to host env)
    assert_eq!(resolve_container_env_value("${containerEnv:C}", &raw), "${containerEnv:C}");
    // Cycle is bounded, no hang
    let cyclic = env(&[("X", "${containerEnv:Y}"), ("Y", "${containerEnv:X}")]);
    let _ = resolve_container_env_value("${containerEnv:X}", &cyclic);
}

#[test]
fn test_compose_project_name() {
    let ws = workspace("/home/user/proj");
    let a = compose_project_name(&ws);
    let b = compose_project_name(&ws);
    assert_eq!(a, b);
    assert_eq!(a.len(), 15);
    let other = compose_project_name(&workspace("/home/user/other"));
    assert_ne!(a, other);
}

#[test]
fn test_expand_vars_for_host_with_target() {
    let ws = workspace("/home/user/proj");
    let expanded = for_host(
        "${localWorkspaceFolder}|${localWorkspaceFolderBasename}|${containerWorkspaceFolder}|${containerWorkspaceFolderBasename}",
        &ws,
        "/myws",
    );
    assert_eq!(expanded, "/home/user/proj|proj|/myws|myws");
}

#[test]
fn test_devcontainer_id_for_stable() {
    let ws = workspace("/home/user/proj");
    let a = devcontainer_id_for(&ws);
    let b = devcontainer_id_for(&ws);
    assert_eq!(a, b);
    assert_eq!(a.len(), 16);
    let other = devcontainer_id_for(&workspace("/home/user/other"));
    assert_ne!(a, other);
}

#[test]
fn test_expand_vars_devcontainer_id() {
    let ws = workspace("/home/user/proj");
    let id = devcontainer_id_for(&ws);
    let expanded = for_host("id=${devcontainerId}", &ws, "/workspace");
    assert_eq!(expanded, format!("id={id}"));
}

#[test]
fn test_expand_vars_for_host_default_target() {
    let ws = workspace("/home/user/proj");
    let expanded =
        for_host("${localWorkspaceFolder}|${containerWorkspaceFolder}", &ws, "/workspace");
    assert_eq!(expanded, "/home/user/proj|/workspace");
}

#[test]
fn test_expand_devcontainer_id_pass_through() {
    let ws = workspace("/home/user/proj");
    assert_eq!(expand_devcontainer_id("no id here", &ws), "no id here");
}

#[test]
fn test_expand_local_env_vars_default() {
    let host = EnvMap::new();
    assert_eq!(local("${localEnv:UNSET_VAR_XYZ_123:fallback}", &host), "fallback");
    assert_eq!(local("${localEnv:UNSET_VAR_XYZ_123}", &host), "");
    assert_eq!(local("pre${localEnv:UNSET_VAR_XYZ_123:def}post", &host), "predefpost");
}

#[test]
fn test_expand_container_env_vars_default() {
    let host = EnvMap::new();
    assert_eq!(container("${containerEnv:UNSET_VAR_XYZ_123:fallback}", &host), "fallback");
    assert_eq!(container("${containerEnv:UNSET_VAR_XYZ_123}", &host), "");
    assert_eq!(container("${containerEnv:UNSET_VAR_XYZ_123:}", &host), "");
}

#[test]
fn test_expand_container_env_from_map() {
    let map = env(&[("A", "x")]);
    assert_eq!(expand_container_env_from_map("${containerEnv:A}-y", &map, None), "x-y");
    // Default form resolves against the map value, not the default
    assert_eq!(expand_container_env_from_map("${containerEnv:A:fb}", &map, None), "x");
    // Unmatched keys fall through untouched (resolved later from host)
    assert_eq!(
        expand_container_env_from_map("${containerEnv:UNSET:fb}", &map, None),
        "${containerEnv:UNSET:fb}"
    );
}

#[test]
fn test_expand_env_vars_empty_default() {
    let host = EnvMap::new();
    assert_eq!(local("${localEnv:UNSET_VAR_XYZ_123:}", &host), "");
    assert_eq!(container("${containerEnv:UNSET_VAR_XYZ_123:}", &host), "");
}

#[test]
fn test_expand_vars_complex() {
    let ws = workspace("/home/user/proj");
    let expanded = for_host("ws=${localWorkspaceFolder};id=${devcontainerId}", &ws, "/myws");
    let id = devcontainer_id_for(&ws);
    assert_eq!(expanded, format!("ws=/home/user/proj;id={id}"));
}

#[test]
fn test_expand_local_env_vars_real_env() {
    let host = env(&[("BONDAR_TEST_ENV_VAR", "real-value")]);
    assert_eq!(local("${localEnv:BONDAR_TEST_ENV_VAR}", &host), "real-value");
}

#[test]
fn test_expand_container_env_vars_real_env() {
    let host = env(&[("BONDAR_TEST_CENV", "cv")]);
    assert_eq!(container("${containerEnv:BONDAR_TEST_CENV}", &host), "cv");
}

#[test]
fn test_expand_vars_for_container() {
    let ws = workspace("/home/user/proj");
    let expanded = expand_vars_for_container(
        "${localWorkspaceFolder}|${localWorkspaceFolderBasename}|${containerWorkspaceFolder}|${containerWorkspaceFolderBasename}",
        &ws,
        "/myws",
        &EnvMap::new(),
        &mut Notes::new(),
    );
    assert_eq!(expanded, "/home/user/proj|proj|/myws|myws");
}

#[test]
fn identifiers_are_hashes_of_the_folder() {
    // The FNV-1a hash of the path
    let mut hash: u64 = 14695981039346656037;
    for b in "/home/user/proj".bytes() {
        hash ^= u64::from(b);
        hash = hash.wrapping_mul(1099511628211);
    }
    let id = format!("{hash:016x}");
    assert_eq!(devcontainer_id_for(&workspace("/home/user/proj")), id);
    assert_eq!(compose_project_name(&workspace("/home/user/proj")), format!("bondar-{}", &id[..8]));
    assert_eq!(devcontainer_id_for(&workspace("")), "cbf29ce484222325");
    assert_eq!(devcontainer_id_for(&workspace("a")), "af63dc4c8601ec8c");
}

#[test]
fn default_target_is_the_standard_workspace() {
    let ws = workspace("/home/user/proj");
    let expanded =
        expand_vars_for_host("${containerWorkspaceFolder}", &ws, &EnvMap::new(), &mut Notes::new());
    assert_eq!(expanded, "/workspace");
}

#[test]
fn plain_texts_stay() {
    let ws = workspace("/home/user/proj");
    for text in ["", "plain", "a $b {c}", "costs 5$", "} ${"] {
        assert_eq!(for_host(text, &ws, "/myws"), text);
    }
}

#[test]
fn empty_names_are_warned_of() {
    let mut notes = Notes::new();
    let expanded = expand_env_vars("a${localEnv:}b", "localEnv", &EnvMap::new(), &mut notes);
    assert_eq!(expanded, "ab");
    assert_eq!(notes.items.len(), 1);
    assert!(matches!(&notes.items[0], Note::Warning(line) if line.contains("localEnv")));
}

#[test]
fn references_without_an_end_stay() {
    let host = env(&[("A", "x")]);
    assert_eq!(local("a${localEnv:A", &host), "a${localEnv:A");
    assert_eq!(local("${localEnv:A}${localEnv:A}", &host), "xx");
}

#[test]
fn host_variables_reach_every_reference() {
    let ws = workspace("/home/user/proj");
    let host = env(&[("HOME", "/home/user")]);
    let expanded = expand_vars_for_host_with_target(
        "${localEnv:HOME}:${containerEnv:HOME}:${localEnv:NONE:d}",
        &ws,
        "/myws",
        &host,
        &mut Notes::new(),
    );
    assert_eq!(expanded, "/home/user:/home/user:d");
}

#[test]
fn lone_references_are_replaced() {
    let ws = workspace("/home/user/proj");
    let host = env(&[("HOME", "/home/user")]);
    let expand = |input: &str| {
        expand_vars_for_host_with_target(input, &ws, "/myws", &host, &mut Notes::new())
    };
    assert_eq!(expand("${devcontainerId}"), devcontainer_id_for(&ws));
    assert_eq!(expand("${localEnv:HOME}"), "/home/user");
    assert_eq!(expand("${localEnv:HOME:d}"), "/home/user");
    assert_eq!(expand("${localEnv:NONE:d}"), "d");
    assert_eq!(expand("${containerEnv:NONE}"), "");
    assert_eq!(expand("${containerEnv:NONE:a:b}"), "a:b");
}

#[test]
fn entries_that_refer_to_themselves_stay() {
    let raw = env(&[("A", "x${containerEnv:A}"), ("B", "${containerEnv:B:d}"), ("C", "c")]);
    let resolve = |input: &str| resolve_container_env_value(input, &raw);
    assert_eq!(resolve("${containerEnv:A}"), "${containerEnv:A}");
    assert_eq!(resolve("${containerEnv:A:y}"), "${containerEnv:A:y}");
    assert_eq!(resolve("${containerEnv:B}-${containerEnv:C}"), "${containerEnv:B}-c");
    assert_eq!(resolve("x${containerEnv:A}"), "x${containerEnv:A}");
}

#[test]
fn lone_dollar_signs_stay() {
    let ws = workspace("/home/a$b");
    let host = env(&[("PRICE", "5$"), ("A$B", "x")]);
    let expand = |input: &str| {
        expand_vars_for_host_with_target(input, &ws, "/my$ws", &host, &mut Notes::new())
    };
    assert_eq!(expand("costs $5 or {5}$"), "costs $5 or {5}$");
    assert_eq!(expand("${localWorkspaceFolder}"), "/home/a$b");
    assert_eq!(expand("${localWorkspaceFolderBasename}"), "a$b");
    assert_eq!(expand("${containerWorkspaceFolder}"), "/my$ws");
    assert_eq!(expand("${containerWorkspaceFolderBasename}"), "my$ws");
    assert_eq!(expand("${localEnv:PRICE}"), "5$");
    assert_eq!(expand("${localEnv:A$B}"), "x");
    assert_eq!(expand("${containerEnv:NONE:$d}"), "$d");
}
