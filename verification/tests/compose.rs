use bondar::compose::{
    check_compose_available, compose_base_command, compose_build_args, compose_down,
    compose_down_args, compose_exec, compose_file_paths, compose_files_args_for_build,
    compose_logs_args, compose_up, escape_yaml_key, escape_yaml_value, get_service_container_id,
    get_service_container_name, missing_compose_file, mount_string_to_compose_volume,
    override_file_name, service_container_args, service_container_state, write_compose_override,
    ComposeDown,
};
use bondar::config::{ComposeFileValue, DevContainerConfig, ForwardPort, MountObject, MountValue};
use bondar::docker::Scope;
use bondar::expand::Workspace;
use bondar::json::Json;
use bondar::maps::EnvMap;
use bondar::metadata::apply_image_metadata;
use bondar::notes::{Note, Notes};
use bondar::texts::Texts;

fn env(entries: &[(&str, &str)]) -> EnvMap {
    let mut map = EnvMap::new();
    for (key, value) in entries {
        map.insert(key, value);
    }
    map
}

fn list(items: &[&str]) -> Texts {
    Texts { items: items.iter().map(|s| s.to_string()).collect() }
}

fn volume(mount: &str) -> Option<String> {
    mount_string_to_compose_volume(mount, &mut Notes::new())
}

fn overridden(config: &DevContainerConfig, host: &EnvMap, notes: &mut Notes) -> Option<String> {
    let workspace = Workspace {
        folder: "/home/user/proj".to_string(),
        basename: Some("proj".to_string()),
    };
    let scope = Scope { workspace: &workspace, target: "/workspace", host };
    write_compose_override(config, &scope, notes).unwrap()
}

fn app() -> DevContainerConfig {
    DevContainerConfig { service: Some("app".to_string()), ..Default::default() }
}

#[test]
fn test_mount_string_to_compose_volume_basic() {
    assert_eq!(
        volume("type=bind,source=/host,target=/container,readonly"),
        Some("/host:/container:ro".to_string())
    );
}

#[test]
fn test_mount_string_to_compose_volume_volume() {
    assert_eq!(
        volume("type=volume,source=myvol,target=/data"),
        Some("myvol:/data".to_string())
    );
}

#[test]
fn test_mount_string_to_compose_volume_ro_flag() {
    assert_eq!(volume("type=bind,source=/a,target=/b,ro"), Some("/a:/b:ro".to_string()));
    assert_eq!(volume("type=bind,source=/a,target=/b"), Some("/a:/b".to_string()));
}

#[test]
fn test_mount_string_missing_target() {
    assert_eq!(volume("type=bind,source=/a"), None);
}

#[test]
fn test_mount_string_anonymous_volume() {
    // source-less volume mount -> target only (anonymous volume)
    assert_eq!(volume("type=volume,target=/data"), Some("/data".to_string()));
    assert_eq!(volume("type=volume,target=/data,ro"), Some("/data:ro".to_string()));
}

#[test]
fn test_mount_string_tmpfs_not_supported() {
    assert_eq!(volume("type=tmpfs,target=/data"), None);
}

#[test]
fn test_mount_string_relative_bind_source() {
    // Conversion still succeeds for relative sources (a warning is
    // emitted about the named-volume interpretation)
    assert_eq!(
        volume("type=bind,source=data,target=/data"),
        Some("data:/data".to_string())
    );
    assert_eq!(
        volume("type=bind,source=./data,target=/data"),
        Some("./data:/data".to_string())
    );
    let mut notes = Notes::new();
    mount_string_to_compose_volume("type=bind,source=data,target=/data", &mut notes);
    assert_eq!(notes.items.len(), 1);
}

#[test]
fn test_escape_yaml_value() {
    assert_eq!(escape_yaml_value("a\"b\\c\nd"), "a\\\"b\\\\c\\nd");
    assert_eq!(escape_yaml_value("plain"), "plain");
    assert_eq!(escape_yaml_value("a\tb\rc"), "a\\tb\\rc");
    assert_eq!(escape_yaml_value(""), "");
    assert_eq!(escape_yaml_value("a$b"), "a$$b");
}

#[test]
fn test_escape_yaml_key() {
    assert_eq!(escape_yaml_key("MY_VAR-1"), "MY_VAR-1");
    assert_eq!(escape_yaml_key("weird key"), "\"weird key\"");
    assert_eq!(escape_yaml_key(""), "\"\"");
    assert_eq!(escape_yaml_key("123"), "123");
    assert_eq!(escape_yaml_key("key:with:colon"), "\"key:with:colon\"");
}

#[test]
fn test_escape_yaml_value_dollar() {
    assert_eq!(escape_yaml_value("a${VAR}b"), "a$${VAR}b");
    assert_eq!(escape_yaml_value("plain"), "plain");
    assert_eq!(escape_yaml_value("a\"b$"), "a\\\"b$$");
}

#[test]
fn test_tmpfs_object_mount_skipped_in_override() {
    let cfg = DevContainerConfig {
        mounts: vec![MountValue::Object(MountObject {
            source: None,
            target: Some("/tmp".to_string()),
            mount_type: Some("tmpfs".to_string()),
            readonly: None,
        })],
        ..app()
    };
    assert_eq!(overridden(&cfg, &EnvMap::new(), &mut Notes::new()), None);
}

#[test]
fn test_write_compose_override_ports_and_volumes() {
    let cfg = DevContainerConfig {
        forward_ports: vec![ForwardPort::Number(8080)],
        mounts: vec![MountValue::Object(MountObject {
            source: Some("/host".to_string()),
            target: Some("/data".to_string()),
            mount_type: Some("bind".to_string()),
            readonly: Some(true),
        })],
        ..app()
    };
    let content = overridden(&cfg, &EnvMap::new(), &mut Notes::new()).unwrap();
    assert!(content.contains("- \"0.0.0.0:8080:8080\""));
    assert!(content.contains("- \"/host:/data:ro\""));
}

#[test]
fn test_write_compose_override_secrets() {
    let cfg = DevContainerConfig {
        secrets: Some(vec![(
            "SEC".to_string(),
            Json::parse(r#"{"localEnv": "BONDAR_TEST_OVR_SECRET"}"#).unwrap(),
        )]),
        ..app()
    };
    let host = env(&[("BONDAR_TEST_OVR_SECRET", "sv")]);
    let content = overridden(&cfg, &host, &mut Notes::new()).unwrap();
    assert!(content.contains("SEC: \"sv\""));
}

#[test]
fn test_write_compose_override_env() {
    let cfg = DevContainerConfig {
        container_env: env(&[("FOO", "bar")]),
        forward_ports: vec![ForwardPort::Number(8080)],
        ..app()
    };
    let content = overridden(&cfg, &EnvMap::new(), &mut Notes::new()).unwrap();
    assert!(content.contains("  app:"));
    assert!(content.contains("FOO: \"bar\""));
    assert!(content.contains("- \"0.0.0.0:8080:8080\""));
}

#[test]
fn test_write_compose_override_empty() {
    assert_eq!(overridden(&app(), &EnvMap::new(), &mut Notes::new()), None);
}

fn file_args(file: ComposeFileValue, folder: &str) -> Vec<String> {
    let cfg = DevContainerConfig { docker_compose_file: Some(file), ..Default::default() };
    let workspace = Workspace { folder: folder.to_string(), basename: None };
    let host = EnvMap::new();
    let scope = Scope { workspace: &workspace, target: "/workspace", host: &host };
    let paths = compose_file_paths(&cfg, &scope, &mut Notes::new()).unwrap();
    compose_files_args_for_build(&paths).items
}

#[test]
fn test_compose_files_args_expansion() {
    let args = file_args(
        ComposeFileValue::Single("${localWorkspaceFolder}/docker-compose.yml".to_string()),
        "/tmp/bondar-compose-files",
    );
    assert_eq!(args.len(), 2);
    assert_eq!(args[0], "-f");
    // ${localWorkspaceFolder} expands to the workspace root
    assert!(args[1].ends_with("docker-compose.yml"));
    assert!(args[1].starts_with("/tmp/bondar-compose-files"));
}

#[test]
fn test_compose_files_args_multiple() {
    let args = file_args(
        ComposeFileValue::Multiple(vec!["a.yml".to_string(), "b.yml".to_string()]),
        "/tmp/bondar-compose-multi",
    );
    assert_eq!(args.len(), 4);
    assert_eq!(args[0], "-f");
    assert!(args[1].ends_with("a.yml"));
    assert_eq!(args[2], "-f");
    assert!(args[3].ends_with("b.yml"));
}

#[test]
fn test_compose_files_args_for_build() {
    let args = file_args(
        ComposeFileValue::Single("docker-compose.yml".to_string()),
        "/tmp/bondar-compose-build",
    );
    assert_eq!(args.len(), 2);
    assert!(args[1].ends_with("docker-compose.yml"));
}

#[test]
fn compose_files_are_needed() {
    let workspace = Workspace { folder: "/w".to_string(), basename: None };
    let host = EnvMap::new();
    let scope = Scope { workspace: &workspace, target: "/workspace", host: &host };
    let failed = compose_file_paths(&DevContainerConfig::default(), &scope, &mut Notes::new());
    assert!(failed.is_err());
    assert!(missing_compose_file("/w/c.yml").contains("/w/c.yml"));
}

#[test]
fn the_whole_override() {
    let cfg = DevContainerConfig {
        container_env: env(&[("B", "2"), ("A", "${containerEnv:B}")]),
        forward_ports: vec![ForwardPort::Number(80), ForwardPort::Number(80)],
        mounts: vec![MountValue::String("type=volume,source=v,target=/d".to_string())],
        ..app()
    };
    let mut notes = Notes::new();
    let content = overridden(&cfg, &EnvMap::new(), &mut notes).unwrap();
    assert_eq!(
        content,
        "services:\n  app:\n    environment:\n      A: \"2\"\n      B: \"2\"\n    ports:\n      - \"0.0.0.0:80:80\"\n    volumes:\n      - \"v:/d\"\n"
    );
}

#[test]
fn overrides_need_a_service() {
    let cfg = DevContainerConfig { container_env: env(&[("A", "1")]), ..Default::default() };
    let workspace = Workspace { folder: "/w".to_string(), basename: None };
    let host = EnvMap::new();
    let scope = Scope { workspace: &workspace, target: "/workspace", host: &host };
    assert!(write_compose_override(&cfg, &scope, &mut Notes::new()).is_err());
}

#[test]
fn base_of_the_command_line() {
    assert_eq!(override_file_name("bondar-12345678"), "bondar-12345678-override.yml");
    let plan = compose_base_command("p", &list(&["a.yml"]), Some("o.yml"));
    assert_eq!(
        plan.args.items,
        vec!["compose", "--project-name", "p", "-f", "a.yml", "-f", "o.yml"]
    );
}

#[test]
fn services_that_are_started() {
    let cfg = DevContainerConfig {
        run_services: vec!["db".to_string(), "db".to_string()],
        ..app()
    };
    let plan = compose_up(&cfg, true, true);
    assert_eq!(
        plan.args.items,
        vec!["up", "-d", "--force-recreate", "--no-build", "db", "app"]
    );
    assert_eq!(plan.notes.items.len(), 1);
    assert_eq!(compose_up(&app(), false, false).args.items, vec!["up", "-d"]);
}

#[test]
fn what_down_does() {
    let with = |action: &str| DevContainerConfig {
        shutdown_action: Some(action.to_string()),
        ..app()
    };
    assert_eq!(compose_down(&app()), ComposeDown::Remove);
    assert_eq!(compose_down(&with("none")), ComposeDown::Keep);
    assert_eq!(compose_down(&with("stopCompose")), ComposeDown::Stop);
    assert_eq!(compose_down(&with("stopContainer")), ComposeDown::StopPrimary);
    assert_eq!(
        compose_down_args(&ComposeDown::Remove, Some("app")).args.items,
        vec!["down", "--remove-orphans"]
    );
    assert_eq!(compose_down_args(&ComposeDown::Stop, Some("app")).args.items, vec!["stop"]);
    assert_eq!(
        compose_down_args(&ComposeDown::StopPrimary, Some("app")).args.items,
        vec!["stop", "app"]
    );
    let keep = compose_down_args(&ComposeDown::Keep, Some("app"));
    assert!(keep.args.items.is_empty());
    assert_eq!(
        keep.notes.items,
        vec![Note::Info("shutdownAction is 'none', skipping compose down".to_string())]
    );
}

#[test]
fn containers_of_services() {
    let args = service_container_args("p", "app").items;
    assert!(args.contains(&"label=com.docker.compose.project=p".to_string()));
    assert!(args.contains(&"label=com.docker.compose.service=app".to_string()));
    assert_eq!(get_service_container_id(Some("app"), "abc\ndef\n").unwrap(), "abc");
    assert!(get_service_container_id(Some("app"), "").is_err());
    assert!(get_service_container_id(None, "abc").is_err());
    assert_eq!(get_service_container_name("abc", true, "/proj-app-1\n"), "proj-app-1");
    assert_eq!(get_service_container_name("abc", false, "/proj-app-1\n"), "abc");
    assert_eq!(service_container_state(true, true, "true\n"), (true, true));
    assert_eq!(service_container_state(true, true, "false\n"), (true, false));
    assert_eq!(service_container_state(false, false, ""), (false, false));
}

#[test]
fn commands_in_services() {
    let cfg = DevContainerConfig { container_env: env(&[("A", "x")]), ..app() };
    let workspace = Workspace { folder: "/w".to_string(), basename: None };
    let host = EnvMap::new();
    let scope = Scope { workspace: &workspace, target: "/ws", host: &host };
    let vars = env(&[("B", "${containerEnv:A}"), ("WS", "${containerWorkspaceFolder}")]);
    let plan = compose_exec(
        &cfg,
        &scope,
        false,
        Some("me"),
        Some("/tmp"),
        Some(&vars),
        &list(&["ls", "-l"]),
    )
    .unwrap();
    assert_eq!(
        plan.args.items,
        vec![
            "exec", "--user", "me", "-w", "/tmp", "-e", "B=x", "-e", "WS=/ws", "-T", "app", "ls",
            "-l"
        ]
    );
    let none = DevContainerConfig::default();
    assert!(compose_exec(&none, &scope, true, None, None, None, &list(&["ls"])).is_err());
}

#[test]
fn other_command_lines() {
    assert_eq!(compose_build_args(true).args.items, vec!["build", "--no-cache"]);
    assert_eq!(compose_build_args(false).args.items, vec!["build"]);
    assert_eq!(
        compose_logs_args(true, Some("5"), Some("app")).args.items,
        vec!["logs", "-f", "--tail", "5", "app"]
    );
    assert!(check_compose_available(true).is_ok());
    assert_eq!(
        check_compose_available(false).unwrap_err().message(),
        "Docker error: docker compose not available"
    );
}

#[test]
fn test_compose_build_metadata_container_properties() {
    let mut cfg = app();
    let label = r#"[{"containerEnv":{"META_ENV":"from-meta"},"privileged":true}]"#;
    apply_image_metadata(&mut cfg, label, &mut Notes::new());
    let content = overridden(&cfg, &EnvMap::new(), &mut Notes::new()).unwrap();
    assert_eq!(
        content,
        "services:\n  app:\n    privileged: true\n    environment:\n      META_ENV: \"from-meta\"\n"
    );
}

#[test]
fn rights_of_the_service() {
    let cfg = DevContainerConfig {
        init: Some(true),
        privileged: Some(false),
        cap_add: vec!["SYS_PTRACE".to_string()],
        security_opt: vec!["seccomp=unconfined".to_string()],
        ..app()
    };
    let content = overridden(&cfg, &EnvMap::new(), &mut Notes::new()).unwrap();
    assert_eq!(
        content,
        "services:\n  app:\n    init: true\n    cap_add:\n      - \"SYS_PTRACE\"\n    security_opt:\n      - \"seccomp=unconfined\"\n"
    );
}

fn down_line(action: Option<&str>) -> Vec<String> {
    let cfg = DevContainerConfig { shutdown_action: action.map(|s| s.to_string()), ..app() };
    compose_down_args(&compose_down(&cfg), Some("app")).args.items
}

#[test]
fn test_compose_stop_action() {
    assert_eq!(down_line(Some("stopCompose")), vec!["stop"]);
}

#[test]
fn test_compose_stop_container_only_primary() {
    assert_eq!(down_line(Some("stopContainer")), vec!["stop", "app"]);
}

#[test]
fn test_compose_down_removes_orphans() {
    assert_eq!(down_line(None), vec!["down", "--remove-orphans"]);
}

#[test]
fn test_compose_run_services_includes_primary() {
    let cfg = DevContainerConfig { run_services: vec!["db".to_string()], ..app() };
    assert_eq!(compose_up(&cfg, false, false).args.items, vec!["up", "-d", "db", "app"]);
}

#[test]
fn test_compose_one_off_container_is_ignored() {
    let args = service_container_args("p", "app").items;
    assert!(args.contains(&"label=com.docker.compose.oneoff=False".to_string()));
    assert_eq!(service_container_state(false, false, ""), (false, false));
}

#[test]
fn ignored_ports_stay_out_of_the_override() {
    let cfg = DevContainerConfig {
        forward_ports: vec![ForwardPort::Number(80), ForwardPort::Number(81)],
        ports_attributes: Json::parse(r#"{"80": {"onAutoForward": "ignore"}}"#),
        ..app()
    };
    let content = overridden(&cfg, &EnvMap::new(), &mut Notes::new()).unwrap();
    assert_eq!(content, "services:\n  app:\n    ports:\n      - \"0.0.0.0:81:81\"\n");
}

#[test]
fn secrets_override_variables() {
    let cfg = DevContainerConfig {
        container_env: env(&[("A", "plain"), ("B", "2")]),
        secrets: Some(vec![(
            "A".to_string(),
            Json::parse(r#"{"localEnv": "TOKEN"}"#).unwrap(),
        )]),
        ..app()
    };
    let mut notes = Notes::new();
    let content = overridden(&cfg, &env(&[("TOKEN", "hidden")]), &mut notes).unwrap();
    assert_eq!(
        content,
        "services:\n  app:\n    environment:\n      A: \"hidden\"\n      B: \"2\"\n"
    );
    assert!(matches!(&notes.items[0], Note::Warning(line) if line.contains("secret key 'A' conflicts")));
}

#[test]
fn variables_refer_to_each_other() {
    let vars = env(&[("A", "${containerEnv:B}"), ("B", "${containerEnv:C}"), ("C", "x")]);
    let cfg = DevContainerConfig { container_env: vars, ..app() };
    let content = overridden(&cfg, &EnvMap::new(), &mut Notes::new()).unwrap();
    assert!(content.contains("      A: \"x\"\n      B: \"x\"\n      C: \"x\"\n"));
}

#[test]
fn overrides_of_workspaces_with_the_same_name() {
    let name = |folder: &str| {
        let workspace = Workspace { folder: folder.to_string(), basename: Some("p".to_string()) };
        override_file_name(&bondar::expand::compose_project_name(&workspace))
    };
    assert_eq!(name("/a/p"), name("/a/p"));
    assert_ne!(name("/a/p"), name("/b/p"));
}
