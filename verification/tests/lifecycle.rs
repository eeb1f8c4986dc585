use bondar::config::DevContainerConfig;
use bondar::docker::Scope;
use bondar::expand::Workspace;
use bondar::json::Json;
use bondar::lifecycle::{
    begin_message, build_container_command, container_command_failed, execute_on_host,
    host_command_failed, lifecycle_steps, lifecycle_summary, spawn_message, Command, LifecycleStep,
    Script, Turn,
};
use bondar::maps::EnvMap;
use bondar::texts::Texts;

fn json(text: &str) -> Json {
    Json::parse(text).unwrap()
}

fn commands(value: &str) -> Vec<Command> {
    lifecycle_steps(&json(value))
        .into_iter()
        .filter_map(|s| match s {
            LifecycleStep::Run(c) => Some(c),
            _ => None,
        })
        .collect()
}

fn list(items: &[&str]) -> Texts {
    Texts { items: items.iter().map(|s| s.to_string()).collect() }
}

#[test]
fn test_lifecycle_summary() {
    let cfg = DevContainerConfig {
        initialize_command: Some(json(r#""echo hi""#)),
        post_create_command: Some(json(r#"["echo", "hi"]"#)),
        ..Default::default()
    };
    let summary = lifecycle_summary(&cfg);
    assert_eq!(summary.len(), 2);
    assert!(summary.contains(&"initializeCommand".to_string()));
}

#[test]
fn strings_run_in_a_shell() {
    let found = commands(r#""npm run dev""#);
    assert_eq!(found.len(), 1);
    assert_eq!(found[0].program, "npm run dev");
    assert!(found[0].shell);
    assert!(found[0].args.items.is_empty());
}

#[test]
fn lists_run_as_they_are() {
    let found = commands(r#"["git", "pull"]"#);
    assert_eq!(found.len(), 1);
    assert_eq!(found[0].program, "git");
    assert_eq!(found[0].args.items, vec!["pull"]);
    assert!(!found[0].shell);
}

#[test]
fn objects_run_in_their_order() {
    let steps = lifecycle_steps(&json(r#"{"step1": "echo hello", "step2": ["echo", "world"]}"#));
    assert_eq!(steps.len(), 4);
    assert!(matches!(&steps[0], LifecycleStep::Begin(k) if k == "step1"));
    assert!(matches!(&steps[1], LifecycleStep::Run(c) if c.program == "echo hello"));
    assert!(matches!(&steps[2], LifecycleStep::Begin(k) if k == "step2"));
    assert!(matches!(&steps[3], LifecycleStep::Run(c) if c.args.items == vec!["world"]));
}

#[test]
fn other_values_are_no_commands() {
    let steps = lifecycle_steps(&json("5"));
    assert_eq!(steps.len(), 1);
    assert!(matches!(
        &steps[0],
        LifecycleStep::Fail(e) if e.message() == "Config error: Invalid lifecycle command type: 5"
    ));
}

#[test]
fn command_lines() {
    let workspace = Workspace {
        folder: "/home/user/proj".to_string(),
        basename: Some("proj".to_string()),
    };
    let host = EnvMap::new();
    let scope = Scope { workspace: &workspace, target: "/ws", host: &host };
    let shell = Command {
        program: "echo ${localWorkspaceFolderBasename}".to_string(),
        args: list(&[]),
        shell: true,
    };
    let direct = Command {
        program: "ls".to_string(),
        args: list(&["${containerWorkspaceFolder}"]),
        shell: false,
    };
    assert_eq!(
        execute_on_host(&shell, &scope, false).args.items,
        vec!["sh", "-c", "echo proj"]
    );
    assert_eq!(
        execute_on_host(&shell, &scope, true).args.items,
        vec!["cmd", "/C", "echo proj"]
    );
    assert_eq!(execute_on_host(&direct, &scope, false).args.items, vec!["ls", "/ws"]);
    let mut env = EnvMap::new();
    env.insert("A", "1");
    assert_eq!(
        build_container_command(&direct, "c", Some("me"), Some(&env), &scope).args.items,
        vec!["exec", "--user", "me", "-w", "/ws", "-e", "A=1", "c", "ls", "/ws"]
    );
}

#[test]
fn messages() {
    assert_eq!(begin_message("a", false), "Running lifecycle 'a'...");
    assert_eq!(begin_message("a", true), "Spawning lifecycle 'a' in background...");
    let command = Command { program: "ls".to_string(), args: list(&["-l"]), shell: false };
    assert_eq!(
        spawn_message(&command, "c"),
        "Spawning in container c (background): ls -l"
    );
    assert!(host_command_failed("ls", "exit status: 1").message().contains("ls"));
    assert!(container_command_failed("ls", "exit status: 1").message().contains("exit status: 1"));
}

#[test]
fn failures_stop_the_script() {
    let mut script = Script::new();
    script.add_command(&json(r#"["a"]"#), false);
    script.add_command(&json(r#"["b"]"#), false);
    assert!(matches!(script.next(Ok(())), Turn::Run(c, false) if c.program == "a"));
    let failed = Err(container_command_failed("a", "1"));
    assert!(
        matches!(script.next(failed), Turn::Stop(e) if e.message() == container_command_failed("a", "1").message())
    );
    assert!(matches!(script.next(Ok(())), Turn::Done));

    let mut wrong = Script::new();
    wrong.add_command(&json("5"), false);
    wrong.add_command(&json(r#"["b"]"#), false);
    assert!(matches!(wrong.next(Ok(())), Turn::Stop(_)));
    assert!(matches!(wrong.next(Ok(())), Turn::Done));
}
