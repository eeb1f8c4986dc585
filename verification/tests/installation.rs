use bondar::install::{Action, FeatureInstaller};
use bondar::json::Json;
use bondar::notes::{Note, Notes};
use bondar::provision::{
    announce_installer, begin_installation, cleanup_args, copy_feature_into_container,
    declared_dependencies, effective_users, expansion_note, extraction_container,
    feature_container_path, fetch_args, fetch_feature, handle_features_with_container,
    install_fetched_feature, install_in_container, installer_check_args, installer_outcome,
    is_archive, make_directory_args, may_expand, metadata_copy_args,
    prefetch_feature_container_properties, prefetch_one_feature, resolve_container_user,
    resolve_user_home, reuses_prefetched, FetchEvent, FetchStep,
};
use bondar::texts::Texts;
use bondar::walk::{Step, Table};

fn json(text: &str) -> Json {
    Json::parse(text).unwrap()
}

fn list(items: &[&str]) -> Texts {
    Texts { items: items.iter().map(|s| s.to_string()).collect() }
}

fn features(entries: &[(&str, &str)]) -> Vec<(String, Json)> {
    entries.iter().map(|(id, opts)| (id.to_string(), json(opts))).collect()
}

/// Installs everything, where each feature depends on those that `deps` lists for it.
fn install(roots: &[&str], deps: &[(&str, &[&str])]) -> (Vec<String>, Vec<String>, Notes) {
    let roots = roots.iter().map(|id| (id.to_string(), json("{}"))).collect();
    let mut installer = FeatureInstaller::new(roots);
    let mut notes = Notes::new();
    let mut fetched = vec![];
    let mut installed = vec![];
    loop {
        match installer.advance(&mut notes) {
            Action::Fetch(id, opts) => {
                let needed = deps
                    .iter()
                    .filter(|(name, _)| *name == id)
                    .flat_map(|(_, v)| v.iter())
                    .map(|d| (d.to_string(), json("{}")))
                    .collect();
                fetched.push(id);
                installer.fetched(opts, needed);
            }
            Action::Finish(id, _) => {
                installed.push(id);
                installer.finish();
            }
            Action::Done => return (fetched, installed, notes),
        }
    }
}

#[test]
fn dependencies_come_first() {
    let (fetched, installed, _) =
        install(&["a/x", "a/z"], &[("a/x", &["a/y", "a/z"]), ("a/y", &["a/z"])]);
    assert_eq!(installed, vec!["a/z", "a/y", "a/x"]);
    assert_eq!(fetched.len(), 3);
}

#[test]
fn circles_end() {
    let (_, installed, notes) = install(&["a/x"], &[("a/x", &["a/y"]), ("a/y", &["a/x"])]);
    assert_eq!(installed, vec!["a/y", "a/x"]);
    assert!(!notes.items.is_empty());
    let (_, alone, _) = install(&["a/x"], &[("a/x", &["a/x"])]);
    assert_eq!(alone, vec!["a/x"]);
}

#[test]
fn features_that_cannot_be_fetched_are_left_out() {
    let mut installer = FeatureInstaller::new(features(&[("a/x", "{}"), ("a/y", "{}")]));
    let mut notes = Notes::new();
    assert_eq!(
        installer.advance(&mut notes),
        Action::Fetch("a/x".to_string(), json("{}"))
    );
    installer.skip();
    assert_eq!(
        installer.advance(&mut notes),
        Action::Fetch("a/y".to_string(), json("{}"))
    );
    installer.fetched(json("{}"), vec![]);
    assert_eq!(
        installer.advance(&mut notes),
        Action::Finish("a/y".to_string(), json("{}"))
    );
    installer.finish();
    assert_eq!(installer.advance(&mut notes), Action::Done);
}

#[test]
fn walks_finish_each_once() {
    let visit = |id: &str| Step::Visit(id.to_string());
    let table = Table {
        entries: vec![
            ("a".to_string(), vec![visit("b"), visit("c")]),
            ("b".to_string(), vec![visit("c")]),
            ("c".to_string(), vec![Step::Say(Note::Info("at c".to_string()))]),
        ],
    };
    let mut notes = Notes::new();
    let order = table.walk(Some("circular: "), &list(&["a", "b", "c"]), &mut notes);
    assert_eq!(order.items, vec!["c", "b", "a"]);
    assert_eq!(notes.items, vec![Note::Info("at c".to_string())]);
}

#[test]
fn walks_in_circles_are_warned_of() {
    let visit = |id: &str| Step::Visit(id.to_string());
    let table = Table {
        entries: vec![("a".to_string(), vec![visit("b")]), ("b".to_string(), vec![visit("a")])],
    };
    let mut notes = Notes::new();
    let order = table.walk(Some("circular: "), &list(&["a"]), &mut notes);
    assert_eq!(order.items, vec!["b", "a"]);
    assert_eq!(notes.items.len(), 1);
    let mut silent = Notes::new();
    table.walk(None, &list(&["a"]), &mut silent);
    assert!(silent.items.is_empty());
}

fn step(id: &str, event: FetchEvent) -> FetchStep {
    fetch_feature(id, &event, &mut Notes::new())
}

#[test]
fn fetching_with_oras() {
    assert!(matches!(step("a/x", FetchEvent::Started(true)), FetchStep::PullWithOras));
    let pulled = FetchEvent::OrasPulled(true, String::new());
    assert!(matches!(step("a/x", pulled), FetchStep::Unpack));
    let failed = FetchEvent::OrasPulled(false, "denied".to_string());
    assert!(matches!(step("a/x", failed), FetchStep::PullImage));
    let args = fetch_args(&FetchStep::PullWithOras, "a/x", "/d", "c").items;
    assert_eq!(args[0], "pull");
    assert!(args.contains(&"a/x".to_string()));
}

#[test]
fn fetching_without_oras() {
    assert!(matches!(step("a/x", FetchEvent::Started(false)), FetchStep::PullImage));
    assert!(matches!(step("-x", FetchEvent::Started(false)), FetchStep::Fail(_)));
    let pulled = FetchEvent::ImagePulled(true, String::new());
    assert!(matches!(step("a/x", pulled), FetchStep::CreateContainer));
    let failed = FetchEvent::ImagePulled(false, "gone".to_string());
    assert!(matches!(step("a/x", failed), FetchStep::Fail(_)));
    assert!(matches!(step("a/x", FetchEvent::Created(true)), FetchStep::CopyInstaller));
    assert!(matches!(step("a/x", FetchEvent::InstallerCopied(true)), FetchStep::CopyMetadata));
    assert!(matches!(step("a/x", FetchEvent::InstallerCopied(false)), FetchStep::CopyAll));
    assert!(matches!(step("a/x", FetchEvent::MetadataCopied), FetchStep::RemoveContainer(true)));
    assert!(matches!(step("a/x", FetchEvent::Removed(true)), FetchStep::Unpack));
    assert!(matches!(step("a/x", FetchEvent::Removed(false)), FetchStep::Fail(_)));
}

#[test]
fn archives() {
    assert!(is_archive("x.TGZ"));
    assert!(is_archive("x.tar.gz"));
    assert!(!is_archive("x.sh"));
    let mut notes = Notes::new();
    assert!(may_expand("x.tgz", Some("./install.sh\n"), Some("-rw-r--r-- x\n"), &mut notes));
    assert_eq!(notes.items, vec![Note::Info("  Expanding archive x.tgz...".to_string())]);
    assert!(!may_expand("x.tgz", Some("../etc/passwd\n"), Some("-rw-r--r-- x\n"), &mut notes));
    assert!(!may_expand("x.tgz", Some("/etc/passwd\n"), Some("-rw-r--r-- x\n"), &mut notes));
    assert!(!may_expand("x.tgz", None, Some("lrwxrwxrwx a -> b\n"), &mut notes));
    assert_eq!(notes.items.len(), 4);
    assert!(matches!(expansion_note("x.tgz", false, "1"), Note::Warning(_)));
}

#[test]
fn command_lines_of_an_installation() {
    let path = feature_container_path("ghcr.io/a/b");
    assert!(path.contains(&bondar::features::sanitize_id("ghcr.io/a/b")));
    assert!(extraction_container("12", "ghcr.io/a/b").contains("12"));
    assert!(make_directory_args("c", "/p").items.contains(&"c".to_string()));
    assert!(copy_feature_into_container("/h", "c", "/p").items.iter().any(|a| a.starts_with("c:")));
    assert!(installer_check_args("c", "/p").items.iter().any(|a| a.contains("/p/install.sh")));
    assert!(cleanup_args("c", "/p").items.iter().any(|a| a.contains("/p")));
    assert!(!metadata_copy_args("c", "devcontainer-feature.json", "/d").items.is_empty());
    let plan = install_in_container(
        &json(r#"{"installZsh": true, "version": "18", "installsAfter": ["x"]}"#),
        "c",
        "/p",
        "root",
        "/root",
        "me",
        "/home/me",
    );
    let args = &plan.args.items;
    assert!(args.contains(&"INSTALLZSH=true".to_string()));
    assert!(args.contains(&"VERSION=18".to_string()));
    assert!(!args.iter().any(|a| a.starts_with("INSTALLSAFTER")));
    assert!(args.contains(&"_REMOTE_USER=me".to_string()));
    assert!(args.contains(&"_REMOTE_USER_HOME=/home/me".to_string()));
}

#[test]
fn users_of_an_installation() {
    assert_eq!(resolve_container_user(true, "me\n"), "me");
    assert_eq!(resolve_container_user(true, "\n"), "root");
    assert_eq!(resolve_container_user(false, "me"), "root");
    assert_eq!(
        resolve_user_home("me", true, "me:x:1000:1000::/users/me:/bin/sh\n"),
        "/users/me"
    );
    assert_eq!(resolve_user_home("me", true, "me:x:1000:1000:::/bin/sh\n"), "/home/me");
    assert_eq!(resolve_user_home("me", false, ""), "/home/me");
    assert_eq!(
        effective_users(Some("r"), Some("c"), "o"),
        ("c".to_string(), "r".to_string())
    );
    assert_eq!(effective_users(None, None, "o"), ("o".to_string(), "o".to_string()));
}

#[test]
fn what_is_said_of_an_installation() {
    let mut notes = Notes::new();
    assert!(!announce_installer(false, "c", "/p", &mut notes));
    assert!(matches!(&notes.items[0], Note::Warning(_)));
    assert!(installer_outcome("f", true, "", &mut notes).is_ok());
    assert_eq!(
        installer_outcome("f", false, "boom", &mut notes).unwrap_err().message(),
        "Docker error: install.sh failed for f: boom"
    );
}

#[test]
fn options_of_an_installation() {
    let meta = json(r#"{"options": {"version": {"default": "latest"}}, "dependsOn": {"a/y": {"z": 1}}}"#);
    let mut notes = Notes::new();
    let opts = begin_installation("a/x", &json("{}"), &mut notes);
    let opts = install_fetched_feature("a/x", &opts, Some(&meta), &mut notes);
    assert_eq!(opts, json(r#"{"version": "latest"}"#));
    assert_eq!(
        declared_dependencies(Some(&meta)),
        vec![("a/y".to_string(), json(r#"{"z": 1}"#))]
    );
    assert!(declared_dependencies(None).is_empty());
    assert_eq!(prefetch_one_feature("a/x", Some(&meta), &mut notes).len(), 1);
}

#[test]
fn requests_in_order() {
    let mut notes = Notes::new();
    let requested = features(&[("a/b", "{}"), ("a/a", r#"{"installsAfter": ["a/b"]}"#)]);
    let sorted = handle_features_with_container(Some(&requested), None, true, &vec![], &mut notes);
    let ids: Vec<&str> = sorted.iter().map(|(id, _)| id.as_str()).collect();
    assert_eq!(ids, vec!["a/b", "a/a"]);
    let order = list(&["a/a", "a/b", "a/a"]);
    let mut said = Notes::new();
    let ordered =
        handle_features_with_container(Some(&requested), Some(&order), true, &vec![], &mut said);
    let ids: Vec<&str> = ordered.iter().map(|(id, _)| id.as_str()).collect();
    assert_eq!(ids, vec!["a/a", "a/b"]);
    assert!(
        !prefetch_feature_container_properties(Some(&requested), true, &mut notes).is_empty()
    );
    assert!(prefetch_feature_container_properties(None, true, &mut notes).is_empty());
}

#[test]
fn fetched_files_are_used_again() {
    let prefetched = list(&["ghcr.io/a/b"]);
    assert!(reuses_prefetched("ghcr.io/a/b", &prefetched, true));
    assert!(!reuses_prefetched("ghcr.io/a/b", &prefetched, false));
    assert!(!reuses_prefetched("ghcr.io/a/c", &prefetched, true));
}
