//! `bondar build`: builds the image.

use vstd::prelude::*;
use vstd::string::*;

use crate::config::DevContainerConfig;
use crate::features::{quote, quoted};
use crate::notes::{no_notes, NoteView, Notes};

verus! {

/// What is built.
#[derive(Debug, Clone, Copy, PartialEq, Eq, Structural)]
pub enum BuildAction {
    /// Nothing: there is an image already.
    Nothing,
    /// An image of the configuration's own.
    Image,
    /// The images of the compose services.
    Compose,
}

pub open spec fn build_action_of(c: DevContainerConfig) -> BuildAction {
    if c.docker_compose_file is Some {
        BuildAction::Compose
    } else if c.build is Some {
        BuildAction::Image
    } else {
        BuildAction::Nothing
    }
}

/// The image as it stands in a message.
pub open spec fn image_text(image: Option<String>) -> Seq<char> {
    match image {
        Some(i) => "Some("@ + quoted(i@) + ")"@,
        None => "None"@,
    }
}

pub open spec fn build_notes(c: DevContainerConfig, no_cache: bool) -> Seq<NoteView> {
    if build_action_of(c) != BuildAction::Nothing {
        no_notes()
    } else {
        (if no_cache {
            seq![
                NoteView::Warning(
                    "Warning: --no-cache has no effect without a 'build' section"@,
                ),
            ]
        } else {
            no_notes()
        }).push(NoteView::Info("No build configured, image: "@ + image_text(c.image)))
    }
}

/// Decides what is built. Where there is nothing to build, it says so.
pub fn run(config: &DevContainerConfig, no_cache: bool, notes: &mut Notes) -> (res: BuildAction)
    ensures
        res == build_action_of(*config),
        final(notes)@ == old(notes)@ + build_notes(*config, no_cache),
{
    let ghost start = notes@;
    assert(notes@ + no_notes() =~= notes@);
    if config.docker_compose_file.is_some() {
        BuildAction::Compose
    } else if config.build.is_some() {
        BuildAction::Image
    } else {
        if no_cache {
            notes.warn("Warning: --no-cache has no effect without a 'build' section".to_owned());
        }
        let image = match &config.image {
            Some(i) => {
                let q = quote(i.as_str());
                "Some(".to_owned().concat(q.as_str()).concat(")")
            },
            None => "None".to_owned(),
        };
        notes.info("No build configured, image: ".to_owned().concat(image.as_str()));
        assert(notes@ =~= start + build_notes(*config, no_cache));
        BuildAction::Nothing
    }
}

/// The line that ends the command.
pub fn done_message(image: &str) -> (res: String)
    ensures
        res@ == "Build completed: "@ + image@,
{
    "Build completed: ".to_owned().concat(image)
}

/// A compose project builds the images of its services, another configuration its own image where it
/// has a build, and nothing otherwise; only then something is said.
pub proof fn law_what_is_built(c: DevContainerConfig, no_cache: bool)
    ensures
        build_action_of(c) == BuildAction::Compose <==> c.docker_compose_file is Some,
        build_action_of(c) == BuildAction::Image <==> c.docker_compose_file is None && c.build is Some,
        build_action_of(c) == BuildAction::Nothing <==> c.docker_compose_file is None
            && c.build is None,
        build_notes(c, no_cache).len() == (if c.docker_compose_file is Some || c.build is Some {
            0int
        } else if no_cache {
            2int
        } else {
            1int
        }),
{
}

} // verus!
