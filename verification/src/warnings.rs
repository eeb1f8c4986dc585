//! Warnings about configurations that are valid but unlikely to be meant.

use vstd::prelude::*;
use vstd::string::*;

use crate::compose::{lemma_mount_read, mount_read, mount_text, mount_value};
use crate::config::DevContainerConfig;
use crate::json::{find_member, members};
use crate::maps::has_key;
use crate::notes::{no_notes, NoteView, Notes};
use crate::text::{contains, occurs, opt_text, pieces, same_text, split, split_once, trim};

verus! {

pub open spec fn warning(line: Seq<char>) -> Seq<NoteView> {
    seq![NoteView::Warning(line)]
}

/// The target of a mount in Docker's `--mount` syntax.
pub open spec fn mount_target(mount: Seq<char>) -> Option<Seq<char>> {
    mount_read(pieces(mount, ',')).target
}

fn read_target(mount: &str) -> (res: Option<String>)
    ensures
        opt_text(res) == mount_target(mount@),
{
    let parts = split(mount, ',');
    let mut target: Option<String> = None;
    let mut i: usize = 0;
    assert(parts@.take(0) =~= Seq::empty());
    while i < parts.len()
        invariant
            i <= parts@.len(),
            opt_text(target) == mount_read(parts@.take(i as int)).target,
        decreases parts@.len() - i,
    {
        assert(parts@.take(i + 1).drop_last() =~= parts@.take(i as int));
        let part = trim(parts.get(i));
        if let Some((key, value)) = split_once(part.as_str(), '=') {
            let k = key.as_str();
            proof {
                lemma_target_keys();
            }
            if same_text(k, "target") || same_text(k, "dst") || same_text(k, "destination") {
                target = Some(value);
            }
        }
        i = i + 1;
    }
    assert(parts@.take(i as int) =~= parts@);
    target
}

/// The keys of a target are none of the other keys.
proof fn lemma_target_keys()
    ensures
        "target"@ != "type"@ && "target"@ != "source"@ && "target"@ != "src"@,
        "dst"@ != "type"@ && "dst"@ != "source"@ && "dst"@ != "src"@,
        "destination"@ != "type"@ && "destination"@ != "source"@ && "destination"@ != "src"@,
{
    reveal_strlit("target");
    reveal_strlit("dst");
    reveal_strlit("destination");
    reveal_strlit("type");
    reveal_strlit("source");
    reveal_strlit("src");
    assert("target"@[0] == 't' && "source"@[0] == 's');
    assert("dst"@[0] == 'd' && "src"@[0] == 's');
    assert("target"@.len() == 6 && "type"@.len() == 4 && "destination"@.len() == 11);
    assert("dst"@.len() == 3 && "src"@.len() == 3 && "source"@.len() == 6);
}

pub open spec fn name_notes(c: DevContainerConfig) -> Seq<NoteView> {
    if c.name is Some && has_key(members(c.extra@), "containerName"@) {
        warning("Warning: both 'name' and 'containerName' are set; 'name' takes precedence"@)
    } else {
        no_notes()
    }
}

/// A target with a reference in it is not looked at.
pub open spec fn mount_notes(c: DevContainerConfig) -> Seq<NoteView> {
    match (c.workspace_mount, c.workspace_folder) {
        (Some(mount), Some(folder)) => match mount_target(mount@) {
            Some(t) => if t == folder@ || occurs(t, "${"@) {
                no_notes()
            } else {
                warning(
                    "Warning: workspaceMount target '"@ + t + "' differs from workspaceFolder '"@
                        + folder@ + "'"@,
                )
            },
            None => no_notes(),
        },
        _ => no_notes(),
    }
}

pub open spec fn shutdown_notes(c: DevContainerConfig) -> Seq<NoteView> {
    if c.docker_compose_file is None && opt_text(c.shutdown_action) == Some("stopCompose"@) {
        warning("Warning: shutdownAction 'stopCompose' requires dockerComposeFile"@)
    } else {
        no_notes()
    }
}

/// Warns of members that do not go together: a container name beside a name, a workspace mount that
/// is not at the workspace folder, and a compose action without compose.
pub fn config_warnings(config: &DevContainerConfig, notes: &mut Notes)
    ensures
        final(notes)@ == old(notes)@ + name_notes(*config) + mount_notes(*config) + shutdown_notes(
            *config,
        ),
{
    let ghost start = notes@;
    if config.name.is_some() {
        let at: usize = find_member(&config.extra, "containerName");
        if at < config.extra.len() {
            notes.warn(
                "Warning: both 'name' and 'containerName' are set; 'name' takes precedence".to_owned(),
            );
        }
    }
    assert(notes@ =~= start + name_notes(*config));
    if let (Some(mount), Some(folder)) = (&config.workspace_mount, &config.workspace_folder) {
        if let Some(t) = read_target(mount.as_str()) {
            if !same_text(t.as_str(), folder.as_str()) && !contains(t.as_str(), "${") {
                notes.warn(
                    "Warning: workspaceMount target '".to_owned().concat(t.as_str()).concat(
                        "' differs from workspaceFolder '",
                    ).concat(folder.as_str()).concat("'"),
                );
            }
        }
    }
    assert(notes@ =~= start + name_notes(*config) + mount_notes(*config));
    if config.docker_compose_file.is_none() {
        if let Some(action) = &config.shutdown_action {
            if same_text(action.as_str(), "stopCompose") {
                notes.warn(
                    "Warning: shutdownAction 'stopCompose' requires dockerComposeFile".to_owned(),
                );
            }
        }
    }
    assert(notes@ =~= start + name_notes(*config) + mount_notes(*config) + shutdown_notes(*config));
}

/// A workspace mount is warned about if and only if its target is another directory than the workspace
/// folder, unless a reference stands in it.
pub proof fn law_mount_warnings(
    c: DevContainerConfig,
    kind: Seq<char>,
    source: Seq<char>,
    target: Seq<char>,
    mount: String,
    folder: String,
)
    requires
        mount_value(kind),
        mount_value(source),
        mount_value(target),
        mount@ == mount_text(kind, source, target, false),
        c.workspace_mount == Some(mount),
        c.workspace_folder == Some(folder),
    ensures
        mount_notes(c).len() == 0 <==> target == folder@ || occurs(target, "${"@),
{
    lemma_mount_read(kind, source, target, false);
}

/// A second name is warned about if and only if there is a first, and a compose action if and only if
/// there is no compose file.
pub proof fn law_other_warnings(c: DevContainerConfig)
    ensures
        name_notes(c).len() == 0 <==> c.name is None || !has_key(members(c.extra@), "containerName"@),
        shutdown_notes(c).len() == 0 <==> c.docker_compose_file is Some || opt_text(
            c.shutdown_action,
        ) != Some("stopCompose"@),
{
}

} // verus!
