//! `bondar down`: stops and removes the container.

use vstd::prelude::*;
use vstd::string::*;

use crate::config::DevContainerConfig;

use crate::metadata::{image_metadata_shutdown_action, label_entries, last_string};
use crate::notes::{no_notes, NoteView, Notes};
use crate::text::{opt_str, opt_text, same_text};

verus! {

/// What becomes of the container.
#[derive(Debug, Clone, Copy, PartialEq, Eq, Structural)]
pub enum DownAction {
    /// It is kept as it is.
    Keep,
    /// It is not there.
    Missing,
    /// It is stopped and kept.
    Stop,
    /// It is removed.
    Remove,
}

pub open spec fn shutdown_for(c: DevContainerConfig, label: Option<Seq<char>>) -> Seq<char> {
    match c.shutdown_action {
        Some(s) => s@,
        None => match label {
            Some(raw) => match last_string(label_entries(raw), "shutdownAction"@) {
                Some(s) => s,
                None => "remove"@,
            },
            None => "remove"@,
        },
    }
}

/// The shutdown action: that of the configuration, or else that of the image's metadata label, or
/// else to remove the container.
pub fn shutdown_action(config: &DevContainerConfig, label: Option<&str>) -> (res: String)
    ensures
        res@ == shutdown_for(*config, opt_str(label)),
{
    match &config.shutdown_action {
        Some(s) => s.clone(),
        None => match label {
            Some(raw) => match image_metadata_shutdown_action(raw) {
                Some(s) => s,
                None => "remove".to_owned(),
            },
            None => "remove".to_owned(),
        },
    }
}

/// Whether the container has to belong to the workspace: wherever it is touched.
pub fn touches_container(shutdown: &str, found: bool) -> (res: bool)
    ensures
        res == (found && action_for(shutdown@, found) != DownAction::Keep),
{
    found && !same_text(shutdown, "none")
}

pub open spec fn action_for(shutdown: Seq<char>, found: bool) -> DownAction {
    if shutdown == "none"@ {
        DownAction::Keep
    } else if !found {
        DownAction::Missing
    } else if shutdown == "stopContainer"@ {
        DownAction::Stop
    } else {
        DownAction::Remove
    }
}

/// What is said of a shutdown action that a single container cannot have.
pub open spec fn shutdown_notes(shutdown: Seq<char>) -> Seq<NoteView> {
    if shutdown == "stopCompose"@ {
        seq![
            NoteView::Warning(
                "Warning: shutdownAction 'stopCompose' requires dockerComposeFile; treating as remove"@,
            ),
        ]
    } else if shutdown == "none"@ || shutdown == "stopContainer"@ || shutdown == "remove"@ {
        no_notes()
    } else {
        seq![
            NoteView::Warning(
                "Warning: unknown shutdownAction '"@ + shutdown + "'; treating as remove"@,
            ),
        ]
    }
}

/// The line that announces the action.
pub open spec fn action_line(action: DownAction, container: Seq<char>) -> Seq<char> {
    match action {
        DownAction::Keep => "shutdownAction is 'none', skipping down (container kept)"@,
        DownAction::Missing => "Container "@ + container + " does not exist"@,
        DownAction::Stop => "Stopping container "@ + container
            + " (shutdownAction: stopContainer)..."@,
        DownAction::Remove => "Removing container "@ + container + "..."@,
    }
}

/// Decides what becomes of the container, and says so.
pub fn run(shutdown: &str, found: bool, container: &str, notes: &mut Notes) -> (res: DownAction)
    ensures
        res == action_for(shutdown@, found),
        final(notes)@ == old(notes)@ + shutdown_notes(shutdown@).push(
            NoteView::Info(action_line(action_for(shutdown@, found), container@)),
        ),
{
    let ghost start = notes@;
    let keep = same_text(shutdown, "none");
    let stop = same_text(shutdown, "stopContainer");
    if same_text(shutdown, "stopCompose") {
        notes.warn(
            "Warning: shutdownAction 'stopCompose' requires dockerComposeFile; treating as remove".to_owned(),
        );
    } else if !keep && !stop && !same_text(shutdown, "remove") {
        notes.warn(
            "Warning: unknown shutdownAction '".to_owned().concat(shutdown).concat(
                "'; treating as remove",
            ),
        );
    }
    let action = if keep {
        notes.info("shutdownAction is 'none', skipping down (container kept)".to_owned());
        DownAction::Keep
    } else if !found {
        notes.info("Container ".to_owned().concat(container).concat(" does not exist"));
        DownAction::Missing
    } else if stop {
        notes.info(
            "Stopping container ".to_owned().concat(container).concat(
                " (shutdownAction: stopContainer)...",
            ),
        );
        DownAction::Stop
    } else {
        notes.info("Removing container ".to_owned().concat(container).concat("..."));
        DownAction::Remove
    };
    assert(notes@ =~= start + shutdown_notes(shutdown@).push(
        NoteView::Info(action_line(action_for(shutdown@, found), container@)),
    ));
    action
}

/// The line that ends the command, where the container was touched.
pub fn done_message(action: DownAction, container: &str) -> (res: Option<String>)
    ensures
        opt_text(res) == done_line(action, container@),
{
    match action {
        DownAction::Stop => Some(
            "Container ".to_owned().concat(container).concat(" stopped (kept for reuse)"),
        ),
        DownAction::Remove => Some(
            "Container ".to_owned().concat(container).concat(" removed"),
        ),
        _ => None,
    }
}

/// Without a shutdown action in the configuration and in the image's label, the container is removed
/// where it exists, and nothing is warned of.
pub proof fn law_removal_is_the_default(c: DevContainerConfig, found: bool)
    requires
        c.shutdown_action is None,
    ensures
        action_for(shutdown_for(c, None), found) == (if found {
            DownAction::Remove
        } else {
            DownAction::Missing
        }),
        shutdown_notes(shutdown_for(c, None)) == no_notes(),
{
    reveal_strlit("remove");
    reveal_strlit("none");
    reveal_strlit("stopCompose");
    reveal_strlit("stopContainer");
    assert("remove"@.len() == 6 && "none"@.len() == 4 && "stopCompose"@.len() == 11
        && "stopContainer"@.len() == 13);
}

/// The configuration decides what becomes of the container; the image's label is asked only where it
/// says nothing.
pub proof fn law_configuration_decides(c: DevContainerConfig, label: Option<Seq<char>>, said: Seq<char>)
    ensures
        c.shutdown_action matches Some(s) ==> shutdown_for(c, label) == s@,
        c.shutdown_action is None && (label matches Some(raw) && last_string(
            label_entries(raw),
            "shutdownAction"@,
        ) == Some(said)) ==> shutdown_for(c, label) == said,
{
}

/// What becomes of the container, by the action: `none` keeps it whether or not it is there,
/// `stopContainer` stops it, and everything else removes it; nothing is done to one that is not there.
pub proof fn law_actions(shutdown: Seq<char>, found: bool)
    ensures
        action_for("none"@, found) == DownAction::Keep,
        action_for("stopContainer"@, true) == DownAction::Stop,
        action_for("remove"@, true) == DownAction::Remove,
        action_for("stopCompose"@, true) == DownAction::Remove,
        shutdown != "none"@ ==> action_for(shutdown, false) == DownAction::Missing,
        shutdown != "none"@ && shutdown != "stopContainer"@ ==> action_for(shutdown, true)
            == DownAction::Remove,
        shutdown_notes(shutdown).len() == 0 <==> shutdown == "none"@ || shutdown
            == "stopContainer"@ || shutdown == "remove"@,
{
    reveal_strlit("remove");
    reveal_strlit("none");
    reveal_strlit("stopCompose");
    reveal_strlit("stopContainer");
    assert("remove"@.len() == 6 && "none"@.len() == 4 && "stopCompose"@.len() == 11
        && "stopContainer"@.len() == 13);
}

pub open spec fn done_line(action: DownAction, container: Seq<char>) -> Option<Seq<char>> {
    match action {
        DownAction::Stop => Some("Container "@ + container + " stopped (kept for reuse)"@),
        DownAction::Remove => Some("Container "@ + container + " removed"@),
        _ => None,
    }
}

/// What was done is told with the container's name, and nothing is told where nothing was done.
pub proof fn law_done_lines(action: DownAction, container: Seq<char>)
    ensures
        done_line(action, container) is Some <==> action is Stop || action is Remove,
        done_line(DownAction::Stop, container) == Some(
            "Container "@ + container + " stopped (kept for reuse)"@,
        ),
        done_line(DownAction::Remove, container) == Some("Container "@ + container + " removed"@),
{
}

} // verus!
