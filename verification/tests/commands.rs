use bondar::cli::{parse_tail, Commands};
use bondar::command::down::{self, done_message, shutdown_action, touches_container, DownAction};
use bondar::command::exec::{
    self, check_options, compose_exec_env, effective_probe, exec_user, exec_workdir,
    expand_exec_env, is_known_probe, merged_exec_env, wanted_probe,
};
use bondar::command::images::{self, BuildAction};
use bondar::command::logs;
use bondar::command::read_configuration::{self, check, config_problems, merged_configuration};
use bondar::command::shell;
use bondar::command::up::{
    self, announce, check_config_file, compose_builds, compose_starts_again, finish, lifecycle_phases, lifecycle_script, phase_message,
    probed_message, wait_count,
};
use bondar::config::{
    BuildConfig, ComposeFileValue, DevContainerConfig, ForwardPort, MountObject, MountValue,
};
use bondar::docker::{Scope, StartAction};
use bondar::expand::Workspace;
use bondar::json::Json;
use bondar::lifecycle::Turn;
use bondar::maps::EnvMap;
use bondar::metadata::{
    apply_image_metadata, image_metadata_hooks, image_metadata_shutdown_action, metadata_entries,
};
use bondar::notes::{Note, Notes};
use bondar::texts::Texts;

fn json(text: &str) -> Json {
    Json::parse(text).unwrap()
}

fn text(s: &str) -> Option<String> {
    Some(s.to_string())
}

fn env(entries: &[(&str, &str)]) -> EnvMap {
    let mut map = EnvMap::new();
    for (key, value) in entries {
        map.insert(key, value);
    }
    map
}

fn list(items: &[&str]) -> Texts {
    Texts { items: items.iter().map(|s| s.to_string()).collect() }
}

fn info(line: &str) -> Note {
    Note::Info(line.to_string())
}

fn warning(line: &str) -> Note {
    Note::Warning(line.to_string())
}

fn build() -> Option<BuildConfig> {
    Some(BuildConfig {
        dockerfile: None,
        context: None,
        args: EnvMap::new(),
        options: vec![],
        target: None,
        cache_from: None,
    })
}

fn compose() -> DevContainerConfig {
    DevContainerConfig {
        docker_compose_file: Some(ComposeFileValue::Single("c.yml".to_string())),
        service: text("app"),
        ..Default::default()
    }
}

fn proj() -> Workspace {
    Workspace { folder: "/home/user/proj".to_string(), basename: text("proj") }
}

#[test]
fn test_merged_exec_env_without_probe() {
    let cfg = DevContainerConfig {
        remote_env: vec![("A".to_string(), text("1"))],
        ..Default::default()
    };
    let env = merged_exec_env(&cfg, None, &mut Notes::new()).unwrap();
    assert_eq!(env.get("A").unwrap(), "1");
    assert_eq!(env.len(), 1);
}

#[test]
fn test_merged_exec_env_empty() {
    let cfg = DevContainerConfig::default();
    assert!(merged_exec_env(&cfg, None, &mut Notes::new()).is_none());
}

#[test]
fn probed_variables_come_last() {
    let cfg = DevContainerConfig {
        remote_env: vec![("A".to_string(), text("1"))],
        ..Default::default()
    };
    let probed = env(&[("A", "2"), ("B", "3")]);
    let merged = merged_exec_env(&cfg, Some(&probed), &mut Notes::new()).unwrap();
    assert_eq!(merged.get("A"), Some("1"));
    assert_eq!(merged.get("B"), Some("3"));

    let none = DevContainerConfig { user_env_probe: text("none"), ..Default::default() };
    assert!(merged_exec_env(&none, Some(&probed), &mut Notes::new()).is_none());
    assert_eq!(wanted_probe(&none), None);

    let unknown = DevContainerConfig { user_env_probe: text("bogus"), ..Default::default() };
    let mut notes = Notes::new();
    assert!(merged_exec_env(&unknown, Some(&probed), &mut notes).is_none());
    assert_eq!(notes.items, vec![warning("Warning: unknown userEnvProbe 'bogus'")]);
    assert_eq!(wanted_probe(&unknown), None);
    assert!(!is_known_probe("bogus"));

    let plain = DevContainerConfig::default();
    assert_eq!(effective_probe(&plain), "loginInteractiveShell");
    assert_eq!(wanted_probe(&plain), text("loginInteractiveShell"));
}

#[test]
fn variables_of_services() {
    let cfg = DevContainerConfig {
        remote_env: vec![("A".to_string(), text("1"))],
        ..compose()
    };
    let probed = env(&[("B", "2")]);
    let mut notes = Notes::new();
    assert_eq!(compose_exec_env(&cfg, true, Some(&probed), &mut notes).unwrap().len(), 2);
    assert_eq!(compose_exec_env(&cfg, false, Some(&probed), &mut notes).unwrap().len(), 1);
    assert!(compose_exec_env(&compose(), false, Some(&probed), &mut notes).is_none());
}

#[test]
fn users_and_directories() {
    let cfg = DevContainerConfig {
        remote_user: text("remote"),
        container_user: text("own"),
        ..Default::default()
    };
    assert_eq!(exec_user(Some("me"), &cfg), text("me"));
    assert_eq!(exec_user(Some(""), &cfg), text("remote"));
    assert_eq!(exec_user(None, &DevContainerConfig::default()), None);
    assert_eq!(exec_workdir(Some("/tmp"), &cfg), text("/tmp"));
    assert_eq!(exec_workdir(None, &cfg), text("/workspace"));
    assert_eq!(exec_workdir(None, &compose()), None);
    let mut notes = Notes::new();
    check_options(Some(""), Some(""), &mut notes);
    assert_eq!(
        notes.items,
        vec![
            warning("Warning: --user is empty; ignoring it"),
            warning("Warning: --workdir is empty; ignoring it"),
        ]
    );
}

#[test]
fn test_exec_with_user_and_workdir() {
    // `--workdir` must not change what ${containerWorkspaceFolder} expands to
    let cfg = DevContainerConfig {
        workspace_folder: text("/workspace"),
        remote_env: vec![
            ("WS".to_string(), text("${containerWorkspaceFolder}")),
            ("WB".to_string(), text("${containerWorkspaceFolderBasename}")),
        ],
        container_env: env(&[("A", "1")]),
        ..Default::default()
    };
    let (workspace, host) = (proj(), EnvMap::new());
    let target = cfg.workspace_folder_or_default();
    let scope = Scope { workspace: &workspace, target: &target, host: &host };
    let vars = merged_exec_env(&cfg, None, &mut Notes::new());
    let plan = exec::run(
        &cfg,
        &scope,
        "c",
        false,
        Some("root"),
        Some("/tmp"),
        vars.as_ref(),
        &list(&["pwd"]),
    )
    .unwrap();
    assert_eq!(
        plan.args.items,
        vec![
            "exec",
            "-i",
            "--user",
            "root",
            "-w",
            "/tmp",
            "-e",
            "WS=/workspace",
            "-e",
            "WB=workspace",
            "c",
            "pwd"
        ]
    );
}

#[test]
fn test_shell_command() {
    let cfg = DevContainerConfig { container_user: text("me"), ..Default::default() };
    let (workspace, host) = (proj(), EnvMap::new());
    let scope = Scope { workspace: &workspace, target: "/workspace", host: &host };
    let plan = shell::run(&cfg, &scope, "c", true, None).unwrap();
    assert_eq!(
        plan.args.items,
        vec![
            "exec",
            "-it",
            "--user",
            "me",
            "c",
            "sh",
            "-c",
            "if command -v bash >/dev/null 2>&1; then exec bash; else exec sh; fi"
        ]
    );
    let service = shell::run(&compose(), &scope, "", true, None).unwrap();
    assert_eq!(service.args.items[..2], ["exec", "app"]);
}

#[test]
fn test_logs() {
    let cfg = DevContainerConfig::default();
    assert_eq!(
        logs::run(&cfg, "c", true, true, Some("5")).unwrap().args.items,
        vec!["logs", "-f", "--tail", "5", "c"]
    );
    assert_eq!(
        logs::run(&cfg, "c", false, false, None).unwrap_err().message(),
        "Not found: Container c does not exist"
    );
    assert_eq!(
        logs::run(&compose(), "", false, false, None).unwrap().args.items,
        vec!["logs", "app"]
    );
}

#[test]
fn test_shutdown_action_stop() {
    let cfg = DevContainerConfig { shutdown_action: text("stopContainer"), ..Default::default() };
    let mut notes = Notes::new();
    let shutdown = shutdown_action(&cfg, None);
    assert!(touches_container(&shutdown, true));
    assert_eq!(down::run(&shutdown, true, "c", &mut notes), DownAction::Stop);
    assert_eq!(
        done_message(DownAction::Stop, "c").unwrap(),
        "Container c stopped (kept for reuse)"
    );
}

#[test]
fn test_down_default_has_no_unknown_action_warning() {
    let mut notes = Notes::new();
    let shutdown = shutdown_action(&DevContainerConfig::default(), None);
    assert_eq!(shutdown, "remove");
    assert_eq!(down::run(&shutdown, false, "c", &mut notes), DownAction::Missing);
    assert_eq!(notes.items, vec![info("Container c does not exist")]);
    assert_eq!(done_message(DownAction::Missing, "c"), None);
}

#[test]
fn other_shutdown_actions() {
    let mut notes = Notes::new();
    assert_eq!(down::run("none", true, "c", &mut notes), DownAction::Keep);
    assert!(!touches_container("none", true));
    assert_eq!(down::run("stopCompose", true, "c", &mut notes), DownAction::Remove);
    assert_eq!(down::run("bogus", true, "c", &mut notes), DownAction::Remove);
    assert_eq!(
        notes.items,
        vec![
            info("shutdownAction is 'none', skipping down (container kept)"),
            warning(
                "Warning: shutdownAction 'stopCompose' requires dockerComposeFile; treating as remove"
            ),
            info("Removing container c..."),
            warning("Warning: unknown shutdownAction 'bogus'; treating as remove"),
            info("Removing container c..."),
        ]
    );
}

#[test]
fn test_shutdown_action_from_image_metadata() {
    let label = r#"[{"shutdownAction":"stopContainer"}]"#;
    assert_eq!(image_metadata_shutdown_action(label), text("stopContainer"));
    let cfg = DevContainerConfig::default();
    assert_eq!(shutdown_action(&cfg, Some(label)), "stopContainer");
    assert_eq!(shutdown_action(&cfg, Some("no json")), "remove");
    let own = DevContainerConfig { shutdown_action: text("none"), ..Default::default() };
    assert_eq!(shutdown_action(&own, Some(label)), "none");
}

#[test]
fn test_image_metadata_remote_user() {
    let label = r#"[{"remoteUser":"vscode","containerEnv":{"META_ENV":"1"},"privileged":true,"postCreateCommand":"echo meta-hook > /tmp/meta-hook.txt"}]"#;
    let mut cfg = DevContainerConfig::default();
    let mut notes = Notes::new();
    apply_image_metadata(&mut cfg, label, &mut notes);
    assert_eq!(cfg.remote_user, text("vscode"));
    assert_eq!(cfg.container_env.get("META_ENV"), Some("1"));
    assert_eq!(cfg.privileged, Some(true));
    let hooks = image_metadata_hooks(label);
    assert_eq!(hooks.len(), 1);
    assert_eq!(hooks[0].0, "postCreateCommand");

    let mut own = DevContainerConfig {
        remote_user: text("me"),
        container_env: env(&[("META_ENV", "mine")]),
        ..Default::default()
    };
    apply_image_metadata(&mut own, label, &mut notes);
    assert_eq!(own.remote_user, text("me"));
    assert_eq!(own.container_env.get("META_ENV"), Some("mine"));
}

#[test]
fn entries_of_labels() {
    assert_eq!(metadata_entries(r#"[{}, {}]"#).len(), 2);
    assert_eq!(metadata_entries(r#"{"remoteUser": "me"}"#).len(), 1);
    assert!(metadata_entries("5").is_empty());
    let both = r#"[{"remoteUser":"a"},{"remoteUser":"b"},{"remoteUser":5}]"#;
    let mut cfg = DevContainerConfig::default();
    apply_image_metadata(&mut cfg, both, &mut Notes::new());
    assert_eq!(cfg.remote_user, text("b"));
}

#[test]
fn test_build_no_cache_without_build_warns() {
    let cfg = DevContainerConfig { image: text("ubuntu:22.04"), ..Default::default() };
    let mut notes = Notes::new();
    assert_eq!(images::run(&cfg, true, &mut notes), BuildAction::Nothing);
    assert!(matches!(&notes.items[0], Note::Warning(w) if w.contains("--no-cache has no effect")));
    assert_eq!(
        notes.items[1],
        info("No build configured, image: Some(\"ubuntu:22.04\")")
    );
}

#[test]
fn what_is_built() {
    let mut notes = Notes::new();
    let own = DevContainerConfig { build: build(), ..Default::default() };
    assert_eq!(images::run(&own, true, &mut notes), BuildAction::Image);
    assert_eq!(images::run(&compose(), true, &mut notes), BuildAction::Compose);
    assert!(notes.items.is_empty());
    assert_eq!(images::done_message("i"), "Build completed: i");
}

#[test]
fn test_remove_existing_container() {
    let cfg = DevContainerConfig {
        on_create_command: Some(json(r#""echo c""#)),
        ..Default::default()
    };
    let first = up::run(&cfg, false, false, false, false);
    assert!(first.created);
    let second = up::run(&cfg, true, true, true, false);
    assert_eq!(second.action, StartAction::Recreate);
    let phases = lifecycle_phases(&cfg, &vec![], second.created, true);
    assert_eq!(phases.len(), 1);
    assert_eq!(phases[0].name, "onCreateCommand");
    assert_eq!(phase_message(&phases[0].name, false), "Running onCreateCommand...");
}

#[test]
fn test_compose_restart_skips_create_lifecycle() {
    let cfg = DevContainerConfig {
        on_create_command: Some(json(r#""a""#)),
        post_create_command: Some(json(r#""b""#)),
        post_start_command: Some(json(r#""c""#)),
        post_attach_command: Some(json(r#""d""#)),
        ..Default::default()
    };
    let names = |created: bool, running: bool| -> Vec<String> {
        lifecycle_phases(&cfg, &vec![], created, running).into_iter().map(|p| p.name).collect()
    };
    assert_eq!(names(false, false), vec!["postStartCommand", "postAttachCommand"]);
    assert_eq!(names(false, true), vec!["postAttachCommand"]);
    assert_eq!(
        names(true, false),
        vec!["onCreateCommand", "postCreateCommand", "postStartCommand", "postAttachCommand"]
    );
}

#[test]
fn test_start_existing_container() {
    let cfg = DevContainerConfig { build: build(), ..Default::default() };
    let plan = up::run(&cfg, true, false, false, true);
    assert_eq!(plan.action, StartAction::Start);
    assert!(!plan.created);
    assert!(!plan.build);
}

#[test]
fn test_wait_for_background() {
    let cfg = DevContainerConfig {
        wait_for: text("initializeCommand"),
        on_create_command: Some(json(r#""echo created""#)),
        post_attach_command: Some(json(r#""echo attached""#)),
        ..Default::default()
    };
    let phases = lifecycle_phases(&cfg, &vec![], true, false);
    assert_eq!(phases.len(), 2);
    assert!(phases.iter().all(|p| p.background));
    assert!(phase_message("onCreateCommand", true).contains("in background"));
    assert_eq!(wait_count(&cfg), 0);
    let later = DevContainerConfig { wait_for: text("onCreateCommand"), ..cfg };
    let phases = lifecycle_phases(&later, &vec![], true, false);
    assert_eq!(phases.iter().map(|p| p.background).collect::<Vec<_>>(), vec![false, true]);
}

#[test]
fn hooks_come_before_own_commands() {
    let cfg = DevContainerConfig {
        post_create_command: Some(json(r#""own""#)),
        ..Default::default()
    };
    let hooks = vec![
        ("postCreateCommand".to_string(), json(r#""first""#)),
        ("postStartCommand".to_string(), json(r#""start""#)),
        ("postCreateCommand".to_string(), json(r#""second""#)),
    ];
    let phases = lifecycle_phases(&cfg, &hooks, true, false);
    assert_eq!(phases.len(), 2);
    let texts: Vec<String> = phases[0].commands.iter().map(|c| c.plain()).collect();
    assert_eq!(texts, vec!["first", "second", "own"]);
}

#[test]
fn test_stale_container_config_warning() {
    let mut notes = Notes::new();
    check_config_file("c", Some("/w/.devcontainer/devcontainer.json"), "/w/alt.json", &mut notes);
    assert!(matches!(&notes.items[0], Note::Warning(w) if w.contains("different config file")));
    let mut none = Notes::new();
    check_config_file("c", Some("/w/alt.json"), "/w/alt.json", &mut none);
    check_config_file("c", Some(""), "/w/alt.json", &mut none);
    check_config_file("c", None, "/w/alt.json", &mut none);
    assert!(none.items.is_empty());
}

#[test]
fn test_container_exiting_immediately_warns() {
    let mut notes = Notes::new();
    finish("c", false, "i", "/w", &mut notes);
    assert!(matches!(&notes.items[0], Note::Warning(w) if w.contains("is not running")));
    let mut up = Notes::new();
    finish("c", true, "i", "/w", &mut up);
    assert_eq!(up.items.len(), 6);
    assert_eq!(up.items[0], info("Container c is up"));
}

#[test]
fn test_user_env_probe() {
    assert!(probed_message(3, "interactiveShell").contains("Probed 3"));
    let cfg = DevContainerConfig {
        initialize_command: Some(json(r#""a""#)),
        post_start_command: Some(json(r#""b""#)),
        ..Default::default()
    };
    let mut notes = Notes::new();
    announce(&cfg, &mut notes);
    assert_eq!(
        notes.items,
        vec![info("Detected lifecycle: initializeCommand, postStartCommand")]
    );
}

#[test]
fn test_read_configuration() {
    let image = || DevContainerConfig { image: text("ubuntu:22.04"), ..Default::default() };
    let mut notes = Notes::new();
    assert!(check(&image(), &mut notes));
    assert!(matches!(&notes.items[0], Note::Info(line) if line.contains("valid")));
    assert!(config_problems(&compose()).items.is_empty());

    // A port attribute may ask for "udp"
    let udp = DevContainerConfig {
        ports_attributes: Some(json(r#"{"9090": {"protocol": "udp"}}"#)),
        ..image()
    };
    assert!(check(&udp, &mut Notes::new()));

    // An object mount may be a tmpfs
    let tmpfs = DevContainerConfig {
        mounts: vec![MountValue::Object(MountObject {
            source: None,
            target: text("/tmp-data"),
            mount_type: text("tmpfs"),
            readonly: None,
        })],
        ..image()
    };
    assert!(check(&tmpfs, &mut Notes::new()));

    // Invalid config (waitFor out of enum)
    let invalid = DevContainerConfig { wait_for: text("bogus"), ..image() };
    let mut said = Notes::new();
    assert!(!check(&invalid, &mut said));
    assert!(matches!(&said.items[0], Note::Warning(line) if line.contains("INVALID")));

    let worse = DevContainerConfig {
        shutdown_action: text("explode"),
        user_env_probe: text("bogus"),
        ..Default::default()
    };
    assert_eq!(config_problems(&worse).items.len(), 3);
}

#[test]
fn the_configuration_as_lines() {
    let cfg = DevContainerConfig {
        image: text("ubuntu"),
        initialize_command: Some(json(r#""a""#)),
        host_requirements: Some(json(r#"{"cpus": 2}"#)),
        ..Default::default()
    };
    let mut notes = Notes::new();
    read_configuration::run(&cfg, "/w/c.json", "/w", "{}", &mut notes);
    assert_eq!(
        notes.items,
        vec![
            info("Config file: /w/c.json"),
            info("Workspace: /w"),
            info(""),
            info("{}"),
            info(""),
            info("Lifecycle: initializeCommand"),
            info(r#"Host requirements: {"cpus":2}"#),
            info("Mode: Image (ubuntu)"),
        ]
    );
}

#[test]
fn test_read_configuration_merged() {
    let cfg = DevContainerConfig {
        name: text("int-merged"),
        image: text("ubuntu:22.04"),
        workspace_folder: text("/workspace"),
        container_env: env(&[("FOO", "bar")]),
        forward_ports: vec![ForwardPort::Number(80)],
        secrets: Some(vec![("S".to_string(), json(r#"{"localEnv": "V"}"#))]),
        ..Default::default()
    };
    let (workspace, host) = (proj(), env(&[("V", "hidden")]));
    let scope = Scope { workspace: &workspace, target: "/workspace", host: &host };
    let mut notes = Notes::new();
    merged_configuration(&cfg, &scope, &mut notes);
    assert_eq!(
        notes.items,
        vec![
            info("Merged configuration:"),
            info("  containerName: bondar-int-merged"),
            info("  workspaceFolder: /workspace"),
            info("  containerEnv: FOO=bar"),
            info("  secret: S"),
            info("  port: 0.0.0.0:80:80"),
        ]
    );
}

#[test]
fn numbers_of_lines() {
    assert_eq!(parse_tail("100"), Ok("100".to_string()));
    assert_eq!(parse_tail("all"), Err("'all' is not a number of lines".to_string()));
    assert!(parse_tail("").is_err());
    assert!(parse_tail("+5").is_err());
    assert!(Commands::Down.needs_docker());
    assert!(!Commands::ReadConfiguration { include_merged_configuration: false }.needs_docker());
}

#[test]
fn phases_become_a_script() {
    let cfg = DevContainerConfig {
        on_create_command: Some(json(r#""a""#)),
        post_start_command: Some(json(r#"{"x": ["b", "c"]}"#)),
        wait_for: text("onCreateCommand"),
        ..Default::default()
    };
    let mut script = lifecycle_script(&lifecycle_phases(&cfg, &vec![], true, false));
    assert!(matches!(script.next(Ok(())), Turn::Say(l) if l == "Running onCreateCommand..."));
    assert!(matches!(script.next(Ok(())), Turn::Run(c, false) if c.program == "a"));
    assert!(
        matches!(script.next(Ok(())), Turn::Say(l) if l == "Running postStartCommand in background...")
    );
    assert!(
        matches!(script.next(Ok(())), Turn::Say(l) if l == "Spawning lifecycle 'x' in background...")
    );
    assert!(matches!(script.next(Ok(())), Turn::Run(c, true) if c.program == "b"));
    assert!(matches!(script.next(Ok(())), Turn::Done));
}

#[test]
fn variables_of_lifecycle_commands_are_expanded() {
    let own = env(&[("A", "${containerEnv:B}!"), ("B", "x")]);
    let cfg = DevContainerConfig { container_env: own, ..Default::default() };
    let given = env(&[("WS", "${containerWorkspaceFolder}"), ("REF", "${containerEnv:A}")]);
    let ws = Workspace { folder: "/w".to_string(), basename: None };
    let host = EnvMap::new();
    let scope = Scope { workspace: &ws, target: "/workspace", host: &host };
    let expanded = expand_exec_env(&cfg, &given, &scope, &mut Notes::new());
    assert_eq!(expanded.get("WS"), Some("/workspace"));
    assert_eq!(expanded.get("REF"), Some("x!"));
}

#[test]
fn how_services_are_brought_up() {
    assert!(compose_builds(false, true));
    assert!(!compose_builds(true, true));
    assert!(!compose_builds(false, false));
    assert!(compose_starts_again(Some("[]")));
    assert!(!compose_starts_again(None));
}
