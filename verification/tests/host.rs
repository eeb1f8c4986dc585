use bondar::config::{ComposeFileValue, DevContainerConfig};
use bondar::host::{
    available_memory_bytes, available_storage_bytes, check_host_requirements,
    fallback_probe_args, format_bytes, memory_size, parse_env_output, parse_host_id,
    parse_id_output, probe_args, probe_plain_env, probe_user_env, resolve_primary_group,
    update_remote_user, HostFacts, Outcome, Probed, RequiredSizes, Size, UidJob, UidStep,
};
use bondar::json::Json;
use bondar::notes::{Note, Notes};

/// The size in bytes: the number in front of a unit counts as a floating-point number.
fn parse_size(s: &str) -> Option<u64> {
    match bondar::host::parse_size(s)? {
        Size::Bytes(n) => Some(n),
        Size::Scaled(number, unit) => {
            let number: f64 = number.parse().ok()?;
            Some((number * unit as f64) as u64)
        }
    }
}

fn facts() -> HostFacts {
    HostFacts { cpus: 4, memory: Some(8 << 30), storage: Some(100 << 30), gpu: false }
}

fn warnings(req: &str) -> Vec<String> {
    let req = Json::parse(req).unwrap();
    let size = |key: &str| match req.get(key) {
        Some(Json::String(s)) => parse_size(s),
        _ => None,
    };
    let gpu_memory = match req.get("gpu").and_then(|g| g.get("memory")) {
        Some(Json::String(s)) => parse_size(s),
        _ => None,
    };
    let sizes = RequiredSizes { memory: size("memory"), storage: size("storage"), gpu_memory };
    let mut notes = Notes::new();
    check_host_requirements(&req, &facts(), &sizes, &mut notes);
    notes
        .items
        .into_iter()
        .map(|n| match n {
            Note::Info(line) | Note::Warning(line) => line,
        })
        .collect()
}

#[test]
fn test_parse_size() {
    assert_eq!(parse_size("4gb"), Some(4 * 1024 * 1024 * 1024));
    assert_eq!(parse_size("512mb"), Some(512 * 1024 * 1024));
    assert_eq!(
        parse_size("1.5gb"),
        Some((1.5 * 1024.0 * 1024.0 * 1024.0) as u64)
    );
    assert_eq!(parse_size("invalid"), None);
}

#[test]
fn test_format_bytes() {
    assert_eq!(format_bytes(1024 * 1024 * 1024), "1.0gb");
}

#[test]
fn test_parse_id() {
    assert_eq!(
        parse_id_output("uid=1000(vscode) gid=1000", "uid="),
        Some(1000)
    );
    assert_eq!(parse_id_output("uid=0(root) gid=0", "gid="), Some(0));
}

#[test]
fn test_format_bytes_boundaries() {
    assert_eq!(format_bytes(1023), "1023b");
    assert_eq!(format_bytes(1024), "1.0kb");
    assert_eq!(format_bytes(1024 * 1024), "1.0mb");
    assert_eq!(format_bytes(5 * 1024 * 1024 * 1024), "5.0gb");
    assert_eq!(format_bytes(2 * 1024u64.pow(4)), "2.0tb");
    assert_eq!(format_bytes(0), "0b");
}

#[test]
fn test_parse_size_case_insensitive() {
    assert_eq!(parse_size("4GB"), parse_size("4gb"));
    assert_eq!(parse_size("512MB"), Some(512 * 1024 * 1024));
    assert_eq!(parse_size("2TB"), Some(2 * 1024u64.pow(4)));
}

#[test]
fn test_parse_size_edge() {
    assert_eq!(
        parse_size("0.5gb"),
        Some((0.5 * 1024.0 * 1024.0 * 1024.0) as u64)
    );
    assert_eq!(parse_size("1kb"), Some(1024));
    assert_eq!(parse_size("10b"), None);
    assert_eq!(parse_size("gb"), None);
    assert_eq!(parse_size(""), None);
    assert_eq!(parse_size("1.5"), None);
    // Unitless values are bytes (schema pattern allows them)
    assert_eq!(parse_size("0"), Some(0));
    assert_eq!(parse_size("1024"), Some(1024));
    assert_eq!(parse_size("2TB"), Some(2 * 1024u64.pow(4)));
}

#[test]
fn test_parse_id_output_empty() {
    assert_eq!(parse_id_output("", "uid="), None);
    assert_eq!(parse_id_output("uid=", "uid="), None);
    assert_eq!(parse_id_output("gid=123", "uid="), None);
}

#[test]
fn test_get_host_uid() {
    assert!(parse_host_id("1000\n") > 0);
    assert_eq!(parse_host_id(" 501 \n"), 501);
    assert_eq!(parse_host_id(""), 1000);
    assert_eq!(parse_host_id("4294967296"), 1000);
}

#[test]
fn test_check_host_requirements_no_req() {
    // No requirements -> nothing is warned of
    assert!(warnings("{}").is_empty());
    assert!(warnings(r#"{"cpus": 1}"#).is_empty());
}

#[test]
fn requirements_that_are_not_met() {
    assert_eq!(
        warnings(r#"{"cpus": 8, "memory": "16gb", "storage": "1tb", "gpu": true}"#),
        vec![
            "Warning: hostRequirements.cpus 8 required but only 4 available",
            "Warning: hostRequirements.memory 16gb required but only 8.0gb available",
            "Warning: hostRequirements.storage 1tb required but only 100.0gb available",
            "Warning: hostRequirements.gpu required but no GPU detected",
        ]
    );
    assert!(warnings(r#"{"cpus": 4, "memory": "8gb", "gpu": "optional"}"#).is_empty());
}

#[test]
fn requirements_of_the_wrong_kind() {
    assert_eq!(
        warnings(r#"{"cpus": 0, "memory": "lots", "storage": 5, "gpu": true}"#),
        vec![
            "Warning: hostRequirements.cpus must be at least 1, got 0",
            "Warning: invalid hostRequirements.memory format: lots",
            "Warning: hostRequirements.storage must be a string, got 5",
        ]
    );
    assert_eq!(
        warnings(r#"{"cpus": "2", "gpu": {"cores": -1, "memory": "x"}}"#),
        vec![
            "Warning: hostRequirements.cpus must be an integer, got \"2\"",
            "Warning: hostRequirements.gpu object required but no GPU detected",
            "Warning: hostRequirements.gpu.cores must be a non-negative integer, got -1",
            "Warning: invalid hostRequirements.gpu.memory format: x",
        ]
    );
}

#[test]
fn bytes_are_written_as_floating_point_numbers_are() {
    let units = [
        (1u64 << 40, "tb"),
        (1 << 30, "gb"),
        (1 << 20, "mb"),
        (1 << 10, "kb"),
    ];
    let reference = |bytes: u64| {
        for (unit, name) in units {
            if bytes >= unit {
                return format!("{:.1}{}", bytes as f64 / unit as f64, name);
            }
        }
        format!("{bytes}b")
    };
    let mut samples = vec![0, 1, 1023, 1024, 1075, 1076, 1126, 1127, 1128, 1536, u64::MAX];
    for shift in 0..64 {
        let base = 1u64 << shift;
        for delta in 0..40 {
            samples.push(base.wrapping_add(delta * base / 20));
            samples.push(base.wrapping_sub(delta));
            samples.push(base.wrapping_add(delta));
        }
    }
    let mut state: u64 = 1;
    for _ in 0..2000 {
        state = state.wrapping_mul(6364136223846793005).wrapping_add(1442695040888963407);
        samples.push(state);
        samples.push(state >> (state % 60));
    }
    for bytes in samples {
        assert_eq!(format_bytes(bytes), reference(bytes), "{}", bytes);
    }
}

#[test]
fn what_the_host_reports() {
    let meminfo = "MemTotal:       16384 kB\nMemFree: 1 kB\nMemAvailable:    8192 kB\n";
    assert_eq!(available_memory_bytes(meminfo), Some(8192 * 1024));
    assert_eq!(available_memory_bytes("MemTotal: 10 kB\n"), Some(10240));
    assert_eq!(available_memory_bytes("MemAvailable: x kB\nMemTotal: 10 kB\n"), Some(10240));
    assert_eq!(available_memory_bytes(""), None);
    assert_eq!(memory_size("17179869184\n"), Some(17179869184));
    let df = "Filesystem 1024-blocks Used Available Capacity Mounted on\n/dev/sda1 100 40 60 40% /\n";
    assert_eq!(available_storage_bytes(df), Some(60 * 1024));
    assert_eq!(available_storage_bytes("only a heading 1 2 3\n"), None);
    assert_eq!(available_storage_bytes("h\nshort 1\nx 1 2 3 y\n"), Some(3 * 1024));
}

fn job<'a>(config: &'a DevContainerConfig) -> UidJob<'a> {
    UidJob { config, container: "c", user: "vscode", uid: 1000, gid: 1001 }
}

#[test]
fn users_that_are_changed() {
    let with = |remote: Option<&str>, own: Option<&str>, on: Option<bool>| {
        update_remote_user(&DevContainerConfig {
            remote_user: remote.map(|s| s.to_string()),
            container_user: own.map(|s| s.to_string()),
            update_remote_user_uid: on,
            ..Default::default()
        })
    };
    assert_eq!(with(Some("a"), Some("b"), None), Some("a".to_string()));
    assert_eq!(with(None, Some("b"), Some(true)), Some("b".to_string()));
    assert_eq!(with(Some("a"), None, Some(false)), None);
    assert_eq!(with(Some("root"), Some("b"), None), None);
    assert_eq!(with(None, None, None), None);
}

#[test]
fn changing_an_existing_user() {
    let config = DevContainerConfig::default();
    let job = job(&config);
    let mut notes = Notes::new();
    assert!(job.begin(false, &mut notes));
    assert_eq!(job.args(&UidStep::CheckUser).items, vec!["exec", "c", "id", "vscode"]);
    let same = Outcome::Succeeded("uid=1000(vscode) gid=1001(vscode)".to_string());
    assert_eq!(job.advance(&UidStep::CheckUser, &same, &mut notes), UidStep::Done);
    let other = Outcome::Succeeded("uid=1005(vscode) groups=1".to_string());
    let step = job.advance(&UidStep::CheckUser, &other, &mut notes);
    assert_eq!(step, UidStep::ChangeUser);
    assert_eq!(
        job.args(&step).items,
        vec!["exec", "--user", "root", "c", "usermod", "-u", "1000", "vscode"]
    );
    let ok = Outcome::Succeeded(String::new());
    let step = job.advance(&step, &ok, &mut notes);
    assert_eq!(step, UidStep::FindGroup);
    let step = job.advance(&step, &Outcome::Succeeded("users\n".to_string()), &mut notes);
    assert_eq!(step, UidStep::ChangeGroup("users".to_string()));
    let missing = Outcome::Failed("No such group".to_string());
    let step = job.advance(&step, &missing, &mut notes);
    assert_eq!(step, UidStep::FindOwner);
    let step = job.advance(&step, &Outcome::Failed(String::new()), &mut notes);
    assert_eq!(step, UidStep::ChangeOwner("vscode".to_string()));
    assert_eq!(
        job.args(&step).items,
        vec!["exec", "--user", "root", "c", "chown", "-R", "vscode:vscode", "/workspace"]
    );
    assert_eq!(job.advance(&step, &ok, &mut notes), UidStep::Done);
    assert_eq!(
        notes.items,
        vec![
            Note::Info(
                "Updating UID/GID for user vscode to 1000:1001 (updateRemoteUserUID)".to_string()
            ),
            Note::Warning("Updating UID for vscode from Some(1005) to 1000".to_string()),
            Note::Warning("Updating GID for vscode from None to 1001".to_string()),
            Note::Info("Updated UID for vscode".to_string()),
            Note::Info("Chowned /workspace to vscode".to_string()),
        ]
    );
}

#[test]
fn test_update_remote_user_uid() {
    // A user that the container does not know is created
    let config = DevContainerConfig::default();
    let job = job(&config);
    let mut notes = Notes::new();
    let step = job.advance(
        &UidStep::CheckUser,
        &Outcome::Failed("no such user".to_string()),
        &mut notes,
    );
    assert_eq!(step, UidStep::AddGroup);
    let step = job.advance(&step, &Outcome::Failed(String::new()), &mut notes);
    assert_eq!(step, UidStep::AddUser);
    assert_eq!(
        job.args(&step).items,
        vec![
            "exec", "--user", "root", "c", "useradd", "-m", "-u", "1000", "-g", "vscode", "vscode"
        ]
    );
    let created = job.advance(&step, &Outcome::Succeeded(String::new()), &mut notes);
    assert_eq!(created, UidStep::FindOwner);
    let failed = job.advance(&step, &Outcome::Failed("x".to_string()), &mut notes);
    assert_eq!(failed, UidStep::Done);
    // Docker that cannot be asked creates nobody
    let asked = Outcome::NotRun("not found".to_string());
    assert_eq!(job.advance(&UidStep::CheckUser, &asked, &mut notes), UidStep::Done);
}

#[test]
fn users_that_are_left_alone() {
    let config = DevContainerConfig::default();
    let root = UidJob { uid: 0, ..job(&config) };
    let mut notes = Notes::new();
    assert!(!root.begin(false, &mut notes));
    assert!(!root.begin(true, &mut notes));
    assert_eq!(notes.items.len(), 2);
}

#[test]
fn the_root_directory_is_not_handed_over() {
    let config = DevContainerConfig {
        docker_compose_file: Some(ComposeFileValue::Single("c.yml".to_string())),
        ..Default::default()
    };
    let job = job(&config);
    let mut notes = Notes::new();
    let step = job.advance(
        &UidStep::ChangeGroup("g".to_string()),
        &Outcome::Succeeded(String::new()),
        &mut notes,
    );
    assert_eq!(step, UidStep::Done);
    assert!(matches!(&notes.items[1], Note::Warning(w) if w.contains("skipping chown of '/'")));
}

#[test]
fn groups_of_users() {
    let answer = Outcome::Succeeded(" staff \n".to_string());
    assert_eq!(resolve_primary_group(&answer, "me"), "staff");
    assert_eq!(resolve_primary_group(&Outcome::Succeeded("\n".to_string()), "me"), "me");
    assert_eq!(resolve_primary_group(&Outcome::NotRun(String::new()), "me"), "me");
}

#[test]
fn probes_of_the_environment() {
    assert_eq!(
        probe_args("c", Some("me"), "loginInteractiveShell").items,
        vec!["exec", "--user", "me", "c", "bash", "-l", "-i", "-c", "env"]
    );
    assert_eq!(
        probe_args("c", None, "interactiveShell").items,
        vec!["exec", "c", "bash", "-i", "-c", "env"]
    );
    assert_eq!(
        probe_args("c", None, "loginShell").items,
        vec!["exec", "c", "bash", "-l", "-c", "env"]
    );
    assert_eq!(probe_args("c", None, "x").items, vec!["exec", "c", "sh", "-c", "env"]);
    assert_eq!(
        fallback_probe_args("c", Some("me")).items,
        vec!["exec", "--user", "me", "c", "sh", "-c", "env"]
    );
    let env = parse_env_output("A=1\nB=2=3\nnothing\nA=4\n").unwrap();
    assert_eq!(env.len(), 2);
    assert_eq!(env.get("A"), Some("4"));
    assert_eq!(env.get("B"), Some("2=3"));
    assert!(parse_env_output("nothing\n").is_none());
    let failed = Outcome::Failed("no bash".to_string());
    assert!(matches!(probe_user_env(&failed), Probed::TryPlain));
    assert!(probe_plain_env(&failed).is_none());
    let answer = Outcome::Succeeded("A=1".to_string());
    assert!(matches!(probe_user_env(&answer), Probed::Env(Some(m)) if m.get("A") == Some("1")));
    assert!(probe_plain_env(&answer).is_some());
    let gone = Outcome::NotRun("gone".to_string());
    assert!(matches!(probe_user_env(&gone), Probed::Env(None)));
}
