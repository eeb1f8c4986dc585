use bondar::config::{BuildConfig, CacheFromValue, DevContainerConfig, ForwardPort, MountObject, MountValue};
use bondar::docker::{
    build_context, build_dockerfile, build_image, check_docker_available,
    container_exists_and_running, container_listed, container_workspace,
    create_and_start_container, ensure_container_matches_workspace, exec_in_container,
    find_containers_for_workspace, join, missing_workspace, not_running, resolve_image_name,
    resolve_secrets, split_lines, start_action, start_message, workspace_filter, Scope,
    StartAction,
};
use bondar::expand::Workspace;
use bondar::json::Json;
use bondar::maps::EnvMap;
use bondar::notes::{Note, Notes};
use bondar::texts::Texts;

fn workspace(folder: &str) -> Workspace {
    Workspace {
        folder: folder.to_string(),
        basename: folder.rsplit('/').next().map(|s| s.to_string()),
    }
}

fn env(entries: &[(&str, &str)]) -> EnvMap {
    let mut map = EnvMap::new();
    for (key, value) in entries {
        map.insert(key, value);
    }
    map
}

fn list(items: &[&str]) -> Texts {
    Texts { items: items.iter().map(|s| s.to_string()).collect() }
}

fn json(text: &str) -> Json {
    Json::parse(text).unwrap()
}

fn build(dockerfile: Option<&str>) -> BuildConfig {
    BuildConfig {
        dockerfile: dockerfile.map(|s| s.to_string()),
        context: None,
        args: EnvMap::new(),
        options: vec![],
        target: None,
        cache_from: None,
    }
}

fn secrets(entries: &[(&str, &str)]) -> Option<Vec<(String, Json)>> {
    Some(entries.iter().map(|(k, v)| (k.to_string(), json(v))).collect())
}

#[test]
fn test_resolve_secrets() {
    let cfg = DevContainerConfig {
        secrets: secrets(&[
            ("MY_SECRET", r#"{"localEnv": "BONDAR_TEST_SECRET_VAR"}"#),
            ("FILE_SECRET", r#""/run/secrets/x""#),
        ]),
        ..Default::default()
    };
    let host = env(&[("BONDAR_TEST_SECRET_VAR", "secret-value")]);
    let mut notes = Notes::new();
    let resolved = resolve_secrets(&cfg, &host, &mut notes);
    // FILE_SECRET (file path form) is skipped with a warning
    assert_eq!(
        resolved,
        vec![("MY_SECRET".to_string(), "secret-value".to_string())]
    );
    assert_eq!(notes.items.len(), 1);
}

#[test]
fn test_resolve_secrets_unset() {
    let cfg = DevContainerConfig {
        secrets: secrets(&[("MISSING", r#"{"localEnv": "BONDAR_TEST_UNSET_VAR"}"#)]),
        ..Default::default()
    };
    let resolved = resolve_secrets(&cfg, &EnvMap::new(), &mut Notes::new());
    assert!(resolved.is_empty());
}

#[test]
fn test_resolve_image_name() {
    // Build with name -> bondar-{sanitized-lowercase}
    let build_cfg = DevContainerConfig {
        name: Some("My Dev".to_string()),
        build: Some(build(Some("Dockerfile"))),
        ..Default::default()
    };
    assert_eq!(
        resolve_image_name(&build_cfg, &workspace("/tmp/x")).unwrap(),
        "bondar-my-dev"
    );

    // Build without name -> bondar-{basename}
    let build_unnamed = DevContainerConfig {
        build: Some(build(Some("Dockerfile"))),
        ..Default::default()
    };
    assert_eq!(
        resolve_image_name(&build_unnamed, &workspace("/tmp/my-proj")).unwrap(),
        "bondar-my-proj"
    );

    // Image -> as-is
    let image_cfg = DevContainerConfig {
        image: Some("ubuntu:22.04".to_string()),
        ..Default::default()
    };
    assert_eq!(
        resolve_image_name(&image_cfg, &workspace("/tmp/x")).unwrap(),
        "ubuntu:22.04"
    );

    // Neither -> error
    let empty = DevContainerConfig::default();
    assert!(resolve_image_name(&empty, &workspace("/tmp/x")).is_err());
}

#[test]
fn test_get_workspace_folder() {
    assert_eq!(
        missing_workspace("/nowhere").message(),
        "Not found: Workspace folder not found or not a directory: /nowhere"
    );
}

#[test]
fn docker_that_is_not_there() {
    assert!(check_docker_available(true, true, "").is_ok());
    assert_eq!(
        check_docker_available(false, true, "").unwrap_err().message(),
        "Docker error: Docker CLI not found in PATH; install Docker to use bondar"
    );
    assert_eq!(
        check_docker_available(true, false, "down").unwrap_err().message(),
        "Docker error: Docker daemon not reachable: down"
    );
}

#[test]
fn image_builds() {
    let ws = workspace("/home/user/proj");
    let host = env(&[("V", "3.1")]);
    let scope = Scope { workspace: &ws, target: "/ws", host: &host };
    let mut args = EnvMap::new();
    args.insert("VARIANT", "${localEnv:V}");
    let spec = BuildConfig {
        dockerfile: None,
        context: Some("${localWorkspaceFolder}".to_string()),
        args,
        options: vec!["--add-host=h:${localEnv:V}".to_string()],
        target: Some("dev".to_string()),
        cache_from: Some(CacheFromValue::Multiple(vec!["a".to_string(), "b".to_string()])),
    };
    let mut notes = Notes::new();
    assert_eq!(build_dockerfile(&spec, &scope, &mut notes), "Dockerfile");
    assert_eq!(build_context(&spec, &scope, &mut notes).unwrap(), "/home/user/proj");
    assert_eq!(build_context(&build(None), &scope, &mut notes), None);
    let plan = build_image(&spec, &scope, "/c/Dockerfile", "/c", "bondar-x", true);
    assert_eq!(
        plan.args.items,
        vec![
            "build",
            "-f",
            "/c/Dockerfile",
            "-t",
            "bondar-x",
            "--build-arg",
            "VARIANT=3.1",
            "--target",
            "dev",
            "--add-host=h:3.1",
            "--cache-from",
            "a",
            "--cache-from",
            "b",
            "--no-cache",
            "/c"
        ]
    );
}

#[test]
fn container_creation() {
    let ws = workspace("/home/user/proj");
    let host = EnvMap::new();
    let scope = Scope { workspace: &ws, target: "/workspace", host: &host };
    let cfg = DevContainerConfig {
        image: Some("ubuntu".to_string()),
        init: Some(true),
        privileged: Some(true),
        cap_add: vec!["SYS_PTRACE".to_string()],
        security_opt: vec!["seccomp=unconfined".to_string()],
        run_args: vec!["--hostname=${localWorkspaceFolderBasename}".to_string()],
        container_env: env(&[("A", "1"), ("B", "${containerEnv:A}2")]),
        forward_ports: vec![ForwardPort::Number(3000)],
        mounts: vec![MountValue::Object(MountObject {
            source: Some("v".to_string()),
            target: Some("/v".to_string()),
            mount_type: Some("volume".to_string()),
            readonly: Some(true),
        })],
        container_user: Some("me".to_string()),
        ..Default::default()
    };
    let file = "/home/user/proj/.devcontainer.json";
    let plan = create_and_start_container(&cfg, &scope, file, &json("{}"), "c", "ubuntu");
    let id = bondar::expand::devcontainer_id_for(&ws);
    assert_eq!(
        plan.args.items,
        vec![
            "run".to_string(),
            "-d".to_string(),
            "--name".to_string(),
            "c".to_string(),
            "--init".to_string(),
            "--privileged".to_string(),
            "--cap-add".to_string(),
            "SYS_PTRACE".to_string(),
            "--security-opt".to_string(),
            "seccomp=unconfined".to_string(),
            "--hostname=proj".to_string(),
            "--label".to_string(),
            "devcontainer.local_folder=/home/user/proj".to_string(),
            "--label".to_string(),
            "devcontainer.config_file=/home/user/proj/.devcontainer.json".to_string(),
            "--label".to_string(),
            format!("devcontainer.id={id}"),
            "--mount".to_string(),
            "type=bind,source=/home/user/proj,target=/workspace,consistency=cached".to_string(),
            "-w".to_string(),
            "/workspace".to_string(),
            "--mount".to_string(),
            "type=volume,source=v,target=/v,readonly".to_string(),
            "-e".to_string(),
            "A=1".to_string(),
            "-e".to_string(),
            "B=12".to_string(),
            "-p".to_string(),
            "0.0.0.0:3000:3000".to_string(),
            "--user".to_string(),
            "me".to_string(),
            "ubuntu".to_string(),
            "sh".to_string(),
            "-c".to_string(),
            "while sleep 1000; do :; done".to_string()
        ]
    );
    assert_eq!(
        plan.notes.items,
        vec![Note::Info("Creating container c from ubuntu...".to_string())]
    );
}

#[test]
fn port_attributes_become_labels() {
    let ws = workspace("/w");
    let host = EnvMap::new();
    let scope = Scope { workspace: &ws, target: "/workspace", host: &host };
    let cfg = DevContainerConfig {
        ports_attributes: Some(json(r#"{ "3000": { "onAutoForward": "ignore" } }"#)),
        forward_ports: vec![ForwardPort::Number(3000), ForwardPort::Text("db:5432".to_string())],
        ..Default::default()
    };
    let plan = create_and_start_container(&cfg, &scope, "/w/c", &json("{}"), "c", "i");
    assert!(plan.args.items.contains(
        &r#"devcontainer.ports_attributes={"3000":{"onAutoForward":"ignore"}}"#.to_string()
    ));
    assert!(!plan.args.items.contains(&"-p".to_string()));
    assert!(plan.notes.items.contains(&Note::Info(
        "Skipping forwardPorts '3000' (onAutoForward: ignore)".to_string()
    )));
    assert!(plan.notes.items.contains(&Note::Warning(
        "Warning: forwardPorts 'db:5432' references a service host, cannot publish with docker run"
            .to_string()
    )));
}

#[test]
fn states_of_containers() {
    let ps = "one\tUp 3 minutes\ntwo\tExited (0)\nthree\tRestarting (1)\nfour\n";
    assert_eq!(container_exists_and_running(ps, "one"), (true, true));
    assert_eq!(container_exists_and_running(ps, "two"), (true, false));
    assert_eq!(container_exists_and_running(ps, "three"), (true, true));
    assert_eq!(container_exists_and_running(ps, "four"), (true, false));
    assert_eq!(container_exists_and_running(ps, "on"), (false, false));
    assert!(container_listed("a\n b \r\n", "b"));
    assert!(!container_listed("ab\n", "a"));
}

#[test]
fn what_becomes_of_a_container() {
    assert_eq!(start_action(false, false, false), StartAction::Create);
    assert_eq!(start_action(false, false, true), StartAction::Create);
    assert_eq!(start_action(true, true, true), StartAction::Recreate);
    assert_eq!(start_action(true, true, false), StartAction::Keep);
    assert_eq!(start_action(true, false, false), StartAction::Start);
    assert_eq!(start_message(StartAction::Create, "c"), None);
    assert_eq!(
        start_message(StartAction::Start, "c").unwrap(),
        "Starting existing container c..."
    );
}

#[test]
fn test_same_basename_workspace_isolation() {
    let ws_b = workspace("/tmp/b/collide");
    let mut notes = Notes::new();
    let refused =
        ensure_container_matches_workspace("bondar-collide", Some("/tmp/a/collide"), &ws_b, &mut notes);
    assert!(refused.unwrap_err().message().contains("already exists for workspace"));
    assert!(notes.items.is_empty());
    let ws_a = workspace("/tmp/a/collide");
    assert!(
        ensure_container_matches_workspace("bondar-collide", Some("/tmp/a/collide"), &ws_a, &mut notes)
            .is_ok()
    );
    assert!(notes.items.is_empty());
    assert!(ensure_container_matches_workspace("bondar-collide", None, &ws_a, &mut notes).is_ok());
    assert_eq!(notes.items.len(), 1);
}

#[test]
fn labels_and_filters() {
    assert_eq!(container_workspace(true, " /w \n"), Some("/w".to_string()));
    assert_eq!(container_workspace(true, "\n"), None);
    assert_eq!(container_workspace(false, "/w"), None);
    let mut notes = Notes::new();
    assert_eq!(
        workspace_filter(&workspace("/w"), &mut notes),
        Some("label=devcontainer.local_folder=/w".to_string())
    );
    assert_eq!(workspace_filter(&workspace("/a,b"), &mut notes), None);
    assert_eq!(workspace_filter(&workspace("/a=b"), &mut notes), None);
    assert_eq!(notes.items.len(), 2);
    assert_eq!(find_containers_for_workspace("a\n\n b\n").items, vec!["a", "b"]);
}

#[test]
fn commands_in_containers() {
    let ws = workspace("/home/user/proj");
    let host = EnvMap::new();
    let scope = Scope { workspace: &ws, target: "/workspace", host: &host };
    let vars = env(&[("WS", "${containerWorkspaceFolder}"), ("P", "${containerEnv:A}:b")]);
    let own = env(&[("A", "a")]);
    let plan = exec_in_container(
        "c",
        true,
        Some("me"),
        Some("/tmp"),
        &list(&["sh", "-c", "pwd"]),
        Some(&vars),
        Some(&own),
        &scope,
    );
    assert_eq!(
        plan.args.items,
        vec![
            "exec", "-it", "--user", "me", "-w", "/tmp", "-e", "WS=/workspace", "-e", "P=a:b", "c",
            "sh", "-c", "pwd"
        ]
    );
    assert_eq!(
        not_running("c").message(),
        "Docker error: Container c is not running; run 'bondar up' first"
    );
}

#[test]
fn lines_and_lists() {
    assert_eq!(split_lines("a\r\nb\n\nc").items, vec!["a", "b", "", "c"]);
    assert!(split_lines("").items.is_empty());
    assert_eq!(join(&list(&["a", "b"]), ", "), "a, b");
    assert_eq!(join(&list(&[]), ", "), "");
}

#[test]
fn customizations_become_a_label() {
    let ws = workspace("/w");
    let host = EnvMap::new();
    let scope = Scope { workspace: &ws, target: "/workspace", host: &host };
    let cfg = DevContainerConfig::default();
    let tools = json(r#"{ "vscode": { "extensions": ["a"] } }"#);
    let plan = create_and_start_container(&cfg, &scope, "/w/c", &tools, "c", "i");
    let label = r#"devcontainer.customizations={"vscode":{"extensions":["a"]}}"#.to_string();
    assert!(plan.args.items.contains(&label));
    let plan = create_and_start_container(&cfg, &scope, "/w/c", &json("{}"), "c", "i");
    assert!(!plan.args.items.iter().any(|a| a.starts_with("devcontainer.customizations")));
}
