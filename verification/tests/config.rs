use bondar::config::{
    find_config_path, missing_config, prepare_config_text, strip_json_comments,
    unresolved_config, BuildConfig, ComposeFileValue, DevContainerConfig,
};
use bondar::error::BondarError;
use bondar::expand::Workspace;
use bondar::maps::EnvMap;
use bondar::notes::{Note, Notes};
use bondar::warnings::config_warnings;

fn workspace(folder: &str) -> Workspace {
    Workspace {
        folder: folder.to_string(),
        basename: folder.rsplit('/').next().map(|s| s.to_string()),
    }
}

fn text(s: &str) -> Option<String> {
    Some(s.to_string())
}

fn build(dockerfile: &str) -> Option<BuildConfig> {
    Some(BuildConfig {
        dockerfile: text(dockerfile),
        context: None,
        args: EnvMap::new(),
        options: vec![],
        target: None,
        cache_from: None,
    })
}

fn compose(file: &str) -> Option<ComposeFileValue> {
    Some(ComposeFileValue::Single(file.to_string()))
}

fn member(document: &str, key: &str) -> String {
    let value: serde_json::Value = serde_json::from_str(document).unwrap();
    value[key].as_str().unwrap().to_string()
}

fn error_of(config: &DevContainerConfig) -> String {
    match config.validate() {
        Err(BondarError::Config(message)) => message,
        other => panic!("{other:?}"),
    }
}

#[test]
fn test_strip_line_comments() {
    let input = r#"{
            // comment
            "image": "ubuntu:22.04" // trailing
        }"#;
    let stripped = strip_json_comments(input);
    assert_eq!(member(&stripped, "image"), "ubuntu:22.04");
}

#[test]
fn test_strip_block_comments() {
    let input = r#"{
            /* block */
            "image": "ubuntu:22.04"
        }"#;
    let stripped = strip_json_comments(input);
    assert_eq!(member(&stripped, "image"), "ubuntu:22.04");
}

#[test]
fn test_preserve_string_with_slashes() {
    let input = r#"{"image": "http://example.com"}"#;
    let stripped = strip_json_comments(input);
    assert_eq!(member(&stripped, "image"), "http://example.com");
}

#[test]
fn test_preserve_double_slash_in_string() {
    let input = r#"{"url": "http://example.com/path//double"}"#;
    let stripped = strip_json_comments(input);
    assert_eq!(member(&stripped, "url"), "http://example.com/path//double");
}

#[test]
fn test_preserve_comment_markers_in_string() {
    let input = r#"{"text": "a /* not a comment */ b // also not"}"#;
    let stripped = strip_json_comments(input);
    assert_eq!(member(&stripped, "text"), "a /* not a comment */ b // also not");
}

#[test]
fn test_preserve_escaped_quotes_in_string() {
    let input = r#"{"text": "say \"hello\" // not a comment"}"#;
    let stripped = strip_json_comments(input);
    assert_eq!(member(&stripped, "text"), "say \"hello\" // not a comment");
}

#[test]
fn test_validate_image_build_conflict() {
    let cfg = DevContainerConfig {
        image: text("ubuntu:22.04"),
        build: build("Dockerfile"),
        ..Default::default()
    };
    assert!(cfg.validate().is_err());
}

#[test]
fn test_validate_workspace_mount_requires_folder() {
    let cfg = DevContainerConfig {
        image: text("ubuntu:22.04"),
        workspace_mount: text("type=bind,source=.,target=/x"),
        ..Default::default()
    };
    assert!(cfg.validate().is_err());

    let ok = DevContainerConfig {
        image: text("ubuntu:22.04"),
        workspace_mount: text("type=bind,source=.,target=/x"),
        workspace_folder: text("/x"),
        ..Default::default()
    };
    assert!(ok.validate().is_ok());
}

#[test]
fn test_validate_compose_conflicts() {
    let cfg = DevContainerConfig {
        docker_compose_file: compose("docker-compose.yml"),
        service: text("app"),
        image: text("ubuntu"),
        ..Default::default()
    };
    assert!(cfg.validate().is_err());

    let no_service = DevContainerConfig {
        docker_compose_file: compose("docker-compose.yml"),
        ..Default::default()
    };
    assert!(no_service.validate().is_err());
}

#[test]
fn test_container_name() {
    let named = DevContainerConfig { name: text("My Dev"), ..Default::default() };
    assert_eq!(named.container_name(&workspace("/tmp/x")), "bondar-My-Dev");

    let default = DevContainerConfig::default();
    assert_eq!(default.container_name(&workspace("/tmp/my-workspace")), "bondar-my-workspace");
}

#[test]
fn test_find_config_path() {
    assert!(find_config_path(false, false).is_none());
    assert!(find_config_path(true, false).is_some());
    let found = find_config_path(false, true).unwrap();
    assert_eq!(found, ".devcontainer.json");
    assert_eq!(find_config_path(true, true).unwrap(), ".devcontainer/devcontainer.json");
}

#[test]
fn test_validate_empty_strings() {
    let empty_image = DevContainerConfig { image: text(""), ..Default::default() };
    assert!(empty_image.validate().is_err());

    let empty_dockerfile = DevContainerConfig { build: build(""), ..Default::default() };
    assert!(empty_dockerfile.validate().is_err());

    let empty_ws = DevContainerConfig {
        image: text("ubuntu"),
        workspace_folder: text(""),
        ..Default::default()
    };
    assert!(empty_ws.validate().is_err());

    let empty_compose = DevContainerConfig {
        docker_compose_file: compose(""),
        service: text("app"),
        ..Default::default()
    };
    assert!(empty_compose.validate().is_err());

    let empty_service = DevContainerConfig {
        docker_compose_file: compose("c.yml"),
        service: text(""),
        ..Default::default()
    };
    assert!(empty_service.validate().is_err());
}

#[test]
fn test_validate_empty_env_keys() {
    let mut env = EnvMap::new();
    env.insert("", "value");
    let cfg = DevContainerConfig {
        image: text("ubuntu"),
        container_env: env,
        ..Default::default()
    };
    assert!(cfg.validate().is_err());

    let cfg2 = DevContainerConfig {
        image: text("ubuntu"),
        remote_env: vec![("".to_string(), text("value"))],
        ..Default::default()
    };
    assert!(cfg2.validate().is_err());
}

#[test]
fn test_validate_empty_name() {
    let cfg = DevContainerConfig {
        image: text("ubuntu"),
        name: text(""),
        ..Default::default()
    };
    assert!(cfg.validate().is_err());
}

#[test]
fn test_validate_symbolic_name() {
    let cfg = DevContainerConfig {
        image: text("ubuntu"),
        name: text("!!!"),
        ..Default::default()
    };
    assert!(cfg.validate().is_err());

    let ok = DevContainerConfig {
        image: text("ubuntu"),
        name: text("my-dev"),
        ..Default::default()
    };
    assert!(ok.validate().is_ok());
}

#[test]
fn messages_of_invalid_configurations() {
    assert_eq!(
        error_of(&DevContainerConfig::default()),
        "Either 'image', 'build' or 'dockerComposeFile' must be specified"
    );
    let both = DevContainerConfig {
        image: text("ubuntu"),
        build: build("Dockerfile"),
        ..Default::default()
    };
    assert_eq!(error_of(&both), "'image' and 'build' cannot both be specified");
    let blank = DevContainerConfig { image: text("a"), name: text(" "), ..Default::default() };
    assert_eq!(error_of(&blank), "'name' must not be empty");
    let symbols = DevContainerConfig { image: text("a"), name: text("--"), ..Default::default() };
    assert_eq!(
        error_of(&symbols),
        "'name' must contain at least one alphanumeric character"
    );
    let no_files = DevContainerConfig {
        docker_compose_file: Some(ComposeFileValue::Multiple(vec![])),
        service: text("app"),
        ..Default::default()
    };
    assert_eq!(error_of(&no_files), "'dockerComposeFile' must not be empty");
}

#[test]
fn letters_of_any_script_count_in_names() {
    let cfg = DevContainerConfig {
        image: text("ubuntu"),
        name: text("\u{65e5}\u{672c}"),
        ..Default::default()
    };
    assert!(cfg.validate().is_ok());
    assert_eq!(
        cfg.container_name(&workspace("/tmp/x")),
        "bondar-\u{65e5}\u{672c}"
    );
}

#[test]
fn a_root_has_no_name() {
    let cfg = DevContainerConfig::default();
    let root = Workspace { folder: "/".to_string(), basename: None };
    assert_eq!(cfg.container_name(&root), "bondar-workspace");
}

#[test]
fn comments_go_and_line_ends_stay() {
    assert_eq!(strip_json_comments("a// b\nc"), "a\nc");
    assert_eq!(strip_json_comments("a/* b\n */c"), "ac");
    assert_eq!(strip_json_comments("a/* open"), "a");
    assert_eq!(strip_json_comments("1 / 2"), "1 / 2");
    assert_eq!(strip_json_comments(r#""\\"// x"#), r#""\\""#);
}

#[test]
fn byte_order_marks_go() {
    assert_eq!(prepare_config_text("\u{feff}{} // c"), "{} ");
    assert_eq!(prepare_config_text("{}"), "{}");
}

#[test]
fn configurations_that_are_not_found() {
    assert_eq!(missing_config("/w").message(), "Not found: devcontainer.json not found in /w");
    assert_eq!(
        unresolved_config("/w/x.json", "no such file").message(),
        "Not found: Cannot resolve config path /w/x.json: no such file"
    );
}

#[test]
fn unset_variables_are_left_out() {
    let cfg = DevContainerConfig {
        remote_env: vec![
            ("A".to_string(), text("1")),
            ("B".to_string(), None),
            ("A".to_string(), text("2")),
        ],
        ..Default::default()
    };
    let env = cfg.remote_env_resolved();
    assert_eq!(env.len(), 1);
    assert_eq!(env.get("A"), Some("2"));
}

#[test]
fn test_name_and_container_name_warning() {
    let cfg = DevContainerConfig {
        name: text("my-name"),
        image: text("ubuntu:22.04"),
        extra: vec![(
            "containerName".to_string(),
            bondar::json::Json::String("my-container".to_string()),
        )],
        ..Default::default()
    };
    let mut notes = Notes::new();
    config_warnings(&cfg, &mut notes);
    assert_eq!(notes.items.len(), 1);
    assert!(matches!(&notes.items[0], Note::Warning(w) if w.contains("both 'name' and 'containerName'")));
}

#[test]
fn test_workspace_mount_folder_mismatch_warning() {
    let mut cfg = DevContainerConfig {
        name: text("int-mount-mismatch"),
        image: text("ubuntu:22.04"),
        workspace_folder: text("/workspace"),
        workspace_mount: text("type=bind,source=/tmp,target=/other"),
        ..Default::default()
    };
    let mut notes = Notes::new();
    config_warnings(&cfg, &mut notes);
    assert_eq!(notes.items.len(), 1);
    assert!(matches!(&notes.items[0], Note::Warning(w) if w.contains("differs from workspaceFolder")));

    cfg.workspace_mount = text("type=bind,source=/tmp,dst=/workspace");
    let mut none = Notes::new();
    config_warnings(&cfg, &mut none);
    assert!(none.items.is_empty());
}

#[test]
fn test_stopcompose_without_compose_warns() {
    let cfg = DevContainerConfig {
        name: text("int-stopcompose-image"),
        image: text("ubuntu:22.04"),
        shutdown_action: text("stopCompose"),
        ..Default::default()
    };
    let mut notes = Notes::new();
    config_warnings(&cfg, &mut notes);
    assert_eq!(notes.items.len(), 1);
    assert!(matches!(&notes.items[0], Note::Warning(w) if w.contains("requires dockerComposeFile")));
}
