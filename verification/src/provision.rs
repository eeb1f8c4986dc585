//! What happens to each feature: how it is fetched, unpacked, copied into the container and run.

use vstd::prelude::*;
use vstd::string::*;

use crate::docker::{law_lines, lines, split_lines, without_cr};
use crate::error::{failure, BondarError, ErrorView};
use crate::features::{
    array_of, catalog_view, circular_line, defaults_merged, directory_of, effective_feature_opts,
    effective_opts, env_text, env_value_text, feature_table, features_for_ordering, get_field,
    install_order, invalid_feature_option_values, invalid_options, law_features_are_sorted_once,
    lemma_not_in, list_texts, listed, merge_feature_option_defaults, meta_field, names, names_of,
    not_in, object_of, option_env_name, option_variable, opts_notes, ordering_map, read_strings,
    sanitize_id, sort_by_installs_after,
};
use crate::json::{
    field, find_member, group_json, json_text, members, opt_json, strings_of, Json, JsonView,
};
use crate::maps::{has_key, key_index, lemma_key_index, lookup};
use crate::notes::{
    each, group_plans, has_pair, lemma_and_assoc, lemma_and_nothing, lemma_each_next,
    lemma_each_pair, lemma_each_start, no_notes, nothing, option, pair_at, word, Note, NoteView,
    Notes, Plan, PlanView,
};
use crate::numbers::{decimal, decimal_text};
use crate::order::{lemma_sorted_contains, sort_texts, sorted};
use crate::text::{
    all_white, begins_with, chars_of, ends_with, finishes_with, is_white_space, law_pieces,
    law_trimmed, opt_str, pieces, same_text, split, starts_with, text_of, trim, trimmed,
    trimmed_start,
};
use crate::texts::{law_unrepeated, unrepeated, Texts};
use crate::walk::walk_of;

verus! {

// ---------------------------------------------------------------------------------------------
// Fetching

/// How the last step of fetching a feature went.
#[derive(Debug, PartialEq, Eq)]
pub enum FetchEvent {
    /// Fetching starts, with or without `oras` on the host.
    Started(bool),
    /// `oras pull` is through: whether it succeeded, and its error output.
    OrasPulled(bool, String),
    /// `docker pull` is through: whether it succeeded, and its error output.
    ImagePulled(bool, String),
    /// Whether the container that the files are taken from was created.
    Created(bool),
    /// Whether `install.sh` was copied.
    InstallerCopied(bool),
    /// The metadata files were copied as far as they are there.
    MetadataCopied,
    /// Whether the whole file system was copied.
    AllCopied(bool),
    /// The container is gone; whether the files were taken from it before.
    Removed(bool),
}

/// The next step of fetching a feature.
#[derive(Debug)]
pub enum FetchStep {
    PullWithOras,
    PullImage,
    CreateContainer,
    CopyInstaller,
    CopyMetadata,
    CopyAll,
    RemoveContainer(bool),
    /// The files are there, perhaps still in an archive.
    Unpack,
    Fail(BondarError),
}

#[verifier::ext_equal]
pub enum FetchStepView {
    PullWithOras,
    PullImage,
    CreateContainer,
    CopyInstaller,
    CopyMetadata,
    CopyAll,
    RemoveContainer(bool),
    Unpack,
    Fail(ErrorView),
}

impl View for FetchStep {
    type V = FetchStepView;

    open spec fn view(&self) -> FetchStepView {
        match self {
            FetchStep::PullWithOras => FetchStepView::PullWithOras,
            FetchStep::PullImage => FetchStepView::PullImage,
            FetchStep::CreateContainer => FetchStepView::CreateContainer,
            FetchStep::CopyInstaller => FetchStepView::CopyInstaller,
            FetchStep::CopyMetadata => FetchStepView::CopyMetadata,
            FetchStep::CopyAll => FetchStepView::CopyAll,
            FetchStep::RemoveContainer(b) => FetchStepView::RemoveContainer(*b),
            FetchStep::Unpack => FetchStepView::Unpack,
            FetchStep::Fail(e) => FetchStepView::Fail(e@),
        }
    }
}

/// The fallback without `oras`: the feature's identifier as the name of an image, unless Docker
/// would take it for an option.
pub open spec fn fallback_step(id: Seq<char>) -> FetchStepView {
    if begins_with(id, "-"@) {
        FetchStepView::Fail(
            ErrorView::Config("Feature id '"@ + id + "' must not start with '-'"@),
        )
    } else {
        FetchStepView::PullImage
    }
}

pub open spec fn fallback_notes(id: Seq<char>) -> Seq<NoteView> {
    if begins_with(id, "-"@) {
        no_notes()
    } else {
        seq![NoteView::Info("  Trying 'docker pull "@ + id + "' as fallback"@)]
    }
}

/// The first line of a text, or nothing.
pub open spec fn head_line(s: Seq<char>) -> Seq<char> {
    if lines(s).len() > 0 {
        lines(s)[0]
    } else {
        Seq::empty()
    }
}

pub open spec fn fetch_next(id: Seq<char>, event: FetchEvent) -> FetchStepView {
    match event {
        FetchEvent::Started(oras) => if oras {
            FetchStepView::PullWithOras
        } else {
            fallback_step(id)
        },
        FetchEvent::OrasPulled(ok, _) => if ok {
            FetchStepView::Unpack
        } else {
            fallback_step(id)
        },
        FetchEvent::ImagePulled(ok, _) => if ok {
            FetchStepView::CreateContainer
        } else {
            FetchStepView::Fail(
                ErrorView::Docker(
                    "Unable to fetch feature "@ + id + " (no oras, docker pull failed)"@,
                ),
            )
        },
        FetchEvent::Created(ok) => if ok {
            FetchStepView::CopyInstaller
        } else {
            FetchStepView::RemoveContainer(false)
        },
        FetchEvent::InstallerCopied(ok) => if ok {
            FetchStepView::CopyMetadata
        } else {
            FetchStepView::CopyAll
        },
        FetchEvent::MetadataCopied => FetchStepView::RemoveContainer(true),
        FetchEvent::AllCopied(ok) => FetchStepView::RemoveContainer(ok),
        FetchEvent::Removed(extracted) => if extracted {
            FetchStepView::Unpack
        } else {
            FetchStepView::Fail(
                ErrorView::Docker(
                    "Unable to fetch feature "@ + id
                        + " (no oras, docker pull extraction failed)"@,
                ),
            )
        },
    }
}

pub open spec fn fetch_notes(id: Seq<char>, event: FetchEvent) -> Seq<NoteView> {
    match event {
        FetchEvent::Started(oras) => if oras {
            seq![NoteView::Info("  Using 'oras' to fetch OCI artifact"@)]
        } else {
            fallback_notes(id)
        },
        FetchEvent::OrasPulled(ok, stderr) => if ok {
            seq![NoteView::Info("  Fetched feature "@ + id + " via oras"@)]
        } else {
            seq![NoteView::Warning("  Warning: oras pull failed: "@ + stderr@)] + fallback_notes(id)
        },
        FetchEvent::ImagePulled(ok, stderr) => if ok {
            seq![NoteView::Info(
                "  Pulled feature image "@ + id + "; extracting feature files..."@,
            )]
        } else {
            seq![NoteView::Warning(
                "  Note: docker pull failed for "@ + id + ": "@ + head_line(stderr@),
            )]
        },
        FetchEvent::Removed(extracted) => if extracted {
            seq![NoteView::Info("  Extracted feature files from image"@)]
        } else {
            seq![NoteView::Warning(
                "  Warning: could not extract feature files from pulled image"@,
            )]
        },
        _ => no_notes(),
    }
}

fn fall_back(id: &str, notes: &mut Notes) -> (res: FetchStep)
    ensures
        res@ == fallback_step(id@),
        final(notes)@ == old(notes)@ + fallback_notes(id@),
{
    assert(notes@ + no_notes() =~= notes@);
    if starts_with(id, "-") {
        return FetchStep::Fail(
            BondarError::Config(
                "Feature id '".to_owned().concat(id).concat("' must not start with '-'"),
            ),
        );
    }
    notes.info("  Trying 'docker pull ".to_owned().concat(id).concat("' as fallback"));
    assert(notes@ =~= old(notes)@ + fallback_notes(id@));
    FetchStep::PullImage
}

fn first_line_of(s: &str) -> (res: String)
    ensures
        res@ == head_line(s@),
{
    let all = split_lines(s);
    if all.len() > 0 {
        all.get(0).to_owned()
    } else {
        let none = String::new();
        assert(none@ =~= Seq::empty());
        none
    }
}

/// The next step of fetching a feature, given how the last one went: `oras` first, and otherwise
/// the feature as an image, from which its files are copied.
pub fn fetch_feature(id: &str, event: &FetchEvent, notes: &mut Notes) -> (res: FetchStep)
    ensures
        res@ == fetch_next(id@, *event),
        final(notes)@ == old(notes)@ + fetch_notes(id@, *event),
{
    let ghost goal = old(notes)@ + fetch_notes(id@, *event);
    assert(notes@ + no_notes() =~= notes@);
    match event {
        FetchEvent::Started(oras) => {
            if *oras {
                notes.info("  Using 'oras' to fetch OCI artifact".to_owned());
                assert(notes@ =~= goal);
                FetchStep::PullWithOras
            } else {
                fall_back(id, notes)
            }
        },
        FetchEvent::OrasPulled(ok, stderr) => {
            if *ok {
                notes.info("  Fetched feature ".to_owned().concat(id).concat(" via oras"));
                assert(notes@ =~= goal);
                FetchStep::Unpack
            } else {
                notes.warn("  Warning: oras pull failed: ".to_owned().concat(stderr.as_str()));
                let step = fall_back(id, notes);
                assert(notes@ =~= goal);
                step
            }
        },
        FetchEvent::ImagePulled(ok, stderr) => {
            if *ok {
                notes.info(
                    "  Pulled feature image ".to_owned().concat(id).concat(
                        "; extracting feature files...",
                    ),
                );
                assert(notes@ =~= goal);
                FetchStep::CreateContainer
            } else {
                let first = first_line_of(stderr.as_str());
                notes.warn(
                    "  Note: docker pull failed for ".to_owned().concat(id).concat(": ").concat(
                        first.as_str(),
                    ),
                );
                assert(notes@ =~= goal);
                FetchStep::Fail(
                    BondarError::Docker(
                        "Unable to fetch feature ".to_owned().concat(id).concat(
                            " (no oras, docker pull failed)",
                        ),
                    ),
                )
            }
        },
        FetchEvent::Created(ok) => if *ok {
            FetchStep::CopyInstaller
        } else {
            FetchStep::RemoveContainer(false)
        },
        FetchEvent::InstallerCopied(ok) => if *ok {
            FetchStep::CopyMetadata
        } else {
            FetchStep::CopyAll
        },
        FetchEvent::MetadataCopied => FetchStep::RemoveContainer(true),
        FetchEvent::AllCopied(ok) => FetchStep::RemoveContainer(*ok),
        FetchEvent::Removed(extracted) => {
            if *extracted {
                notes.info("  Extracted feature files from image".to_owned());
                assert(notes@ =~= goal);
                FetchStep::Unpack
            } else {
                notes.warn(
                    "  Warning: could not extract feature files from pulled image".to_owned(),
                );
                assert(notes@ =~= goal);
                FetchStep::Fail(
                    BondarError::Docker(
                        "Unable to fetch feature ".to_owned().concat(id).concat(
                            " (no oras, docker pull extraction failed)",
                        ),
                    ),
                )
            }
        },
    }
}

/// Whether the files of a feature that were fetched before the container was created are used: where
/// the feature is among those that were fetched and its directory is still there.
pub fn reuses_prefetched(id: &str, prefetched: &Texts, is_there: bool) -> (res: bool)
    ensures
        res == (prefetched@.contains(id@) && is_there),
{
    prefetched.contains(id) && is_there
}

/// The name of the container that the files of a feature are taken from.
pub open spec fn extraction_name(process: Seq<char>, id: Seq<char>) -> Seq<char> {
    "bondar-feature-extract-"@ + process + "-"@ + (if directory_of(id).len() > 64 {
        directory_of(id).take(64)
    } else {
        directory_of(id)
    })
}

pub fn extraction_container(process: &str, id: &str) -> (res: String)
    ensures
        res@ == extraction_name(process@, id@),
{
    let name = sanitize_id(id);
    let v = chars_of(name.as_str());
    let short = if v.len() > 64 {
        let s = text_of(&v, 0, 64);
        assert(s@ =~= directory_of(id@).take(64));
        s
    } else {
        name
    };
    "bondar-feature-extract-".to_owned().concat(process).concat("-").concat(short.as_str())
}

/// The arguments of the command of a step: of `oras` for the first one, of `docker` for the others.
/// The files of `CopyMetadata` are copied one by one with `metadata_copy_args`.
pub open spec fn fetch_args_of(
    step: FetchStepView,
    id: Seq<char>,
    dest: Seq<char>,
    container: Seq<char>,
) -> Seq<Seq<char>> {
    match step {
        FetchStepView::PullWithOras => seq!["pull"@, id, "--output"@, dest],
        FetchStepView::PullImage => seq!["pull"@, "--"@, id],
        FetchStepView::CreateContainer => seq!["create"@, "--name"@, container, "--"@, id, "sh"@],
        FetchStepView::CopyInstaller => seq!["cp"@, container + ":/install.sh"@, dest],
        FetchStepView::CopyAll => seq!["cp"@, container + ":/"@, dest],
        FetchStepView::RemoveContainer(_) => seq!["rm"@, "-f"@, container],
        _ => Seq::empty(),
    }
}

pub fn fetch_args(step: &FetchStep, id: &str, dest: &str, container: &str) -> (res: Texts)
    ensures
        res@ == fetch_args_of(step@, id@, dest@, container@),
{
    let mut args = Texts::new();
    match step {
        FetchStep::PullWithOras => {
            args.arg("pull");
            args.arg(id);
            args.arg("--output");
            args.arg(dest);
        },
        FetchStep::PullImage => {
            args.arg("pull");
            args.arg("--");
            args.arg(id);
        },
        FetchStep::CreateContainer => {
            args.arg("create");
            args.arg("--name");
            args.arg(container);
            args.arg("--");
            args.arg(id);
            args.arg("sh");
        },
        FetchStep::CopyInstaller => {
            args.arg("cp");
            args.push(container.to_owned().concat(":/install.sh"));
            args.arg(dest);
        },
        FetchStep::CopyAll => {
            args.arg("cp");
            args.push(container.to_owned().concat(":/"));
            args.arg(dest);
        },
        FetchStep::RemoveContainer(_) => {
            args.arg("rm");
            args.arg("-f");
            args.arg(container);
        },
        _ => {},
    }
    assert(args@ =~= fetch_args_of(step@, id@, dest@, container@));
    args
}

/// The arguments of `docker` that copy one metadata file.
pub open spec fn file_copy_args(container: Seq<char>, file: Seq<char>, dest: Seq<char>) -> Seq<
    Seq<char>,
> {
    seq!["cp"@, container + ":/"@ + file, dest]
}

pub fn metadata_copy_args(container: &str, file: &str, dest: &str) -> (res: Texts)
    ensures
        res@ == file_copy_args(container@, file@, dest@),
{
    let mut args = Texts::new();
    args.arg("cp");
    args.push(container.to_owned().concat(":/").concat(file));
    args.arg(dest);
    assert(args@ =~= seq!["cp"@, container@ + ":/"@ + file@, dest@]);
    args
}

// ---------------------------------------------------------------------------------------------
// Unpacking

pub open spec fn lower_char(c: char) -> char {
    if 'A' <= c <= 'Z' {
        ((c as int) + 32) as char
    } else {
        c
    }
}

pub open spec fn lowered(s: Seq<char>) -> Seq<char> {
    Seq::new(s.len(), |i: int| lower_char(s[i]))
}

fn lower_of(c: char) -> (res: char)
    ensures
        res == lower_char(c),
{
    if 'A' <= c && c <= 'Z' {
        let lower: u8 = (c as u8) + 32;
        lower as char
    } else {
        c
    }
}

pub(crate) fn lower(s: &str) -> (res: String)
    ensures
        res@ == lowered(s@),
{
    let v = chars_of(s);
    let mut out = String::new();
    let mut i: usize = 0;
    while i < v.len()
        invariant
            v@ == s@,
            i <= v@.len(),
            out@ == lowered(s@).take(i as int),
        decreases v@.len() - i,
    {
        out.push(lower_of(v[i]));
        assert(lowered(s@).take(i + 1) =~= lowered(s@).take(i as int).push(lowered(s@)[i as int]));
        i = i + 1;
    }
    assert(lowered(s@).take(i as int) =~= lowered(s@));
    out
}

/// Whether a file is an archive by its name.
pub open spec fn archive_name(name: Seq<char>) -> bool {
    finishes_with(lowered(name), ".tar.gz"@) || finishes_with(lowered(name), ".tgz"@)
        || finishes_with(lowered(name), ".tar"@)
}

pub fn is_archive(name: &str) -> (res: bool)
    ensures
        res == archive_name(name@),
{
    let l = lower(name);
    ends_with(l.as_str(), ".tar.gz") || ends_with(l.as_str(), ".tgz")
        || ends_with(l.as_str(), ".tar")
}

/// Whether a path leads out of the directory that it is meant for.
pub open spec fn escapes(path: Seq<char>) -> bool {
    begins_with(path, "/"@) || pieces(path, '/').contains(".."@)
}

pub open spec fn some_escapes(v: Seq<Seq<char>>) -> bool {
    exists|i: int| 0 <= i < v.len() && escapes(#[trigger] v[i])
}

/// Whether a line of a detailed listing is that of a symbolic link: its first word begins with `l`.
pub open spec fn links(line: Seq<char>) -> bool {
    trimmed_start(line).len() > 0 && trimmed_start(line)[0] == 'l'
}

pub open spec fn some_links(v: Seq<Seq<char>>) -> bool {
    exists|i: int| 0 <= i < v.len() && links(#[trigger] v[i])
}

fn has_escape(listing: &str) -> (res: bool)
    ensures
        res == some_escapes(lines(listing@)),
{
    let all = split_lines(listing);
    let mut i: usize = 0;
    while i < all.len()
        invariant
            i <= all@.len(),
            all@ == lines(listing@),
            forall|k: int| 0 <= k < i ==> !escapes(#[trigger] lines(listing@)[k]),
        decreases all@.len() - i,
    {
        let parts = split(all.get(i), '/');
        if starts_with(all.get(i), "/") || parts.contains("..") {
            assert(escapes(lines(listing@)[i as int]));
            return true;
        }
        assert(!escapes(lines(listing@)[i as int]));
        i = i + 1;
    }
    false
}

fn is_link(line: &str) -> (res: bool)
    ensures
        res == links(line@),
{
    let v = chars_of(line);
    let mut i: usize = 0;
    assert(v@.skip(0) =~= v@);
    while i < v.len() && v[i].is_whitespace()
        invariant
            i <= v@.len(),
            trimmed_start(v@) == trimmed_start(v@.skip(i as int)),
        decreases v@.len() - i,
    {
        assert(v@.skip(i as int).skip(1) =~= v@.skip(i + 1));
        i = i + 1;
    }
    assert(trimmed_start(v@) == v@.skip(i as int));
    i < v.len() && v[i] == 'l'
}

fn has_link(listing: &str) -> (res: bool)
    ensures
        res == some_links(lines(listing@)),
{
    let all = split_lines(listing);
    let mut i: usize = 0;
    while i < all.len()
        invariant
            i <= all@.len(),
            all@ == lines(listing@),
            forall|k: int| 0 <= k < i ==> !links(#[trigger] lines(listing@)[k]),
        decreases all@.len() - i,
    {
        if is_link(all.get(i)) {
            assert(links(lines(listing@)[i as int]));
            return true;
        }
        assert(!links(lines(listing@)[i as int]));
        i = i + 1;
    }
    false
}

pub open spec fn listing_lines(listing: Option<&str>) -> Seq<Seq<char>> {
    match listing {
        Some(s) => lines(s@),
        None => Seq::empty(),
    }
}

/// Whether an archive may be expanded, from its listing and its detailed listing where these could
/// be had: not where a path leads out of the directory or an entry is a symbolic link.
pub open spec fn expandable(paths: Seq<Seq<char>>, details: Seq<Seq<char>>) -> bool {
    !some_escapes(paths) && !some_links(details)
}

/// Whether an archive may be expanded, which is said too.
pub fn may_expand(
    name: &str,
    listing: Option<&str>,
    details: Option<&str>,
    notes: &mut Notes,
) -> (res: bool)
    ensures
        res == expandable(listing_lines(listing), listing_lines(details)),
        final(notes)@ == old(notes)@.push(
            if some_escapes(listing_lines(listing)) {
                NoteView::Warning(
                    "  Warning: archive "@ + name@
                        + " contains unsafe paths; skipping expansion"@,
                )
            } else if some_links(listing_lines(details)) {
                NoteView::Warning(
                    "  Warning: archive "@ + name@ + " contains symlinks; skipping expansion"@,
                )
            } else {
                NoteView::Info("  Expanding archive "@ + name@ + "..."@)
            },
        ),
{
    if let Some(text) = listing {
        if has_escape(text) {
            notes.warn(
                "  Warning: archive ".to_owned().concat(name).concat(
                    " contains unsafe paths; skipping expansion",
                ),
            );
            return false;
        }
    }
    if let Some(text) = details {
        if has_link(text) {
            notes.warn(
                "  Warning: archive ".to_owned().concat(name).concat(
                    " contains symlinks; skipping expansion",
                ),
            );
            return false;
        }
    }
    notes.info("  Expanding archive ".to_owned().concat(name).concat("..."));
    true
}

/// What is said after `tar` ran: the archive is expanded, or it exited with the given code.
pub fn expansion_note(name: &str, ok: bool, code: &str) -> (res: Note)
    ensures
        res@ == (if ok {
            NoteView::Info("  Expanded "@ + name@)
        } else {
            NoteView::Warning(
                "  Warning: failed to expand "@ + name@ + " (tar exit "@ + code@ + ")"@,
            )
        }),
{
    if ok {
        Note::Info("  Expanded ".to_owned().concat(name))
    } else {
        Note::Warning(
            "  Warning: failed to expand ".to_owned().concat(name).concat(" (tar exit ").concat(
                code,
            ).concat(")"),
        )
    }
}

// ---------------------------------------------------------------------------------------------
// Into the container

/// The directory of a feature inside the container.
pub open spec fn feature_path(id: Seq<char>) -> Seq<char> {
    "/tmp/bondar_features/"@ + directory_of(id)
}

pub fn feature_container_path(id: &str) -> (res: String)
    ensures
        res@ == feature_path(id@),
{
    let name = sanitize_id(id);
    "/tmp/bondar_features/".to_owned().concat(name.as_str())
}

pub open spec fn root_shell(container: Seq<char>, command: Seq<char>) -> Seq<Seq<char>> {
    seq!["exec"@, "--user"@, "root"@, container, "sh"@, "-c"@, command]
}

fn root_shell_args(container: &str, command: String) -> (res: Texts)
    ensures
        res@ == root_shell(container@, command@),
{
    let mut args = Texts::new();
    args.arg("exec");
    args.arg("--user");
    args.arg("root");
    args.arg(container);
    args.arg("sh");
    args.arg("-c");
    args.push(command);
    assert(args@ =~= root_shell(container@, command@));
    args
}

/// The arguments of `docker` that make the directory of a feature.
pub open spec fn directory_args(container: Seq<char>, path: Seq<char>) -> Seq<Seq<char>> {
    root_shell(container, "mkdir -p "@ + path)
}

pub fn make_directory_args(container: &str, path: &str) -> (res: Texts)
    ensures
        res@ == directory_args(container@, path@),
{
    root_shell_args(container, "mkdir -p ".to_owned().concat(path))
}

/// The arguments of `docker` that copy the contents of a directory into the container.
pub open spec fn copy_in_args(host_dir: Seq<char>, container: Seq<char>, path: Seq<char>) -> Seq<
    Seq<char>,
> {
    seq!["cp"@, host_dir + "/."@, container + ":"@ + path + "/"@]
}

pub fn copy_feature_into_container(host_dir: &str, container: &str, path: &str) -> (res: Texts)
    ensures
        res@ == copy_in_args(host_dir@, container@, path@),
{
    let mut args = Texts::new();
    args.arg("cp");
    args.push(host_dir.to_owned().concat("/."));
    args.push(container.to_owned().concat(":").concat(path).concat("/"));
    assert(args@ =~= seq!["cp"@, host_dir@ + "/."@, container@ + ":"@ + path@ + "/"@]);
    args
}

/// The arguments of `docker` that look for the feature's `install.sh`.
pub open spec fn installer_check(container: Seq<char>, path: Seq<char>) -> Seq<Seq<char>> {
    seq!["exec"@, container, "sh"@, "-c"@, "test -f "@ + path + "/install.sh && echo yes"@]
}

pub fn installer_check_args(container: &str, path: &str) -> (res: Texts)
    ensures
        res@ == installer_check(container@, path@),
{
    let mut args = Texts::new();
    args.arg("exec");
    args.arg(container);
    args.arg("sh");
    args.arg("-c");
    args.push("test -f ".to_owned().concat(path).concat("/install.sh && echo yes"));
    assert(args@ =~= seq![
        "exec"@,
        container@,
        "sh"@,
        "-c"@,
        "test -f "@ + path@ + "/install.sh && echo yes"@,
    ]);
    args
}

/// The arguments of `docker` that remove the directory of a feature.
pub open spec fn removal_args(container: Seq<char>, path: Seq<char>) -> Seq<Seq<char>> {
    root_shell(container, "rm -rf "@ + path)
}

pub fn cleanup_args(container: &str, path: &str) -> (res: Texts)
    ensures
        res@ == removal_args(container@, path@),
{
    root_shell_args(container, "rm -rf ".to_owned().concat(path))
}

/// The user of a container from the answer of `docker inspect`: the part before a colon, or `root`.
pub open spec fn container_user_of(inspected: bool, stdout: Seq<char>) -> Seq<char> {
    let user = pieces(trimmed(stdout), ':')[0];
    if inspected && user.len() > 0 {
        user
    } else {
        "root"@
    }
}

pub fn resolve_container_user(inspected: bool, stdout: &str) -> (res: String)
    ensures
        res@ == container_user_of(inspected, stdout@),
{
    let answer = trim(stdout);
    let parts = split(answer.as_str(), ':');
    if inspected && parts.get(0).unicode_len() > 0 {
        parts.get(0).to_owned()
    } else {
        "root".to_owned()
    }
}

/// The home directory of a user from the answer of `getent passwd`: the sixth field of the first
/// line, or a directory below `/home`.
pub open spec fn user_home_of(user: Seq<char>, answered: bool, stdout: Seq<char>) -> Seq<char> {
    let fields = pieces(head_line(stdout), ':');
    if answered && fields.len() > 5 && fields[5].len() > 0 {
        fields[5]
    } else {
        "/home/"@ + user
    }
}

pub fn resolve_user_home(user: &str, answered: bool, stdout: &str) -> (res: String)
    ensures
        res@ == user_home_of(user@, answered, stdout@),
{
    let first = first_line_of(stdout);
    let fields = split(first.as_str(), ':');
    if answered && fields.len() > 5 && fields.get(5).unicode_len() > 0 {
        fields.get(5).to_owned()
    } else {
        "/home/".to_owned().concat(user)
    }
}

pub open spec fn either(a: Option<Seq<char>>, b: Option<Seq<char>>, c: Seq<char>) -> Seq<char> {
    match a {
        Some(x) => x,
        None => match b {
            Some(y) => y,
            None => c,
        },
    }
}

/// The container's user and the remote user for `install.sh`: each stands in for the other, and
/// the container's own user for both.
pub open spec fn users_of(
    remote_user: Option<Seq<char>>,
    container_user: Option<Seq<char>>,
    own: Seq<char>,
) -> (Seq<char>, Seq<char>) {
    (either(container_user, remote_user, own), either(remote_user, container_user, own))
}

pub fn effective_users(remote_user: Option<&str>, container_user: Option<&str>, own: &str) -> (res: (
    String,
    String,
))
    ensures
        (res.0@, res.1@) == users_of(opt_str(remote_user), opt_str(container_user), own@),
{
    let a = match container_user {
        Some(u) => u.to_owned(),
        None => match remote_user {
            Some(u) => u.to_owned(),
            None => own.to_owned(),
        },
    };
    let b = match remote_user {
        Some(u) => u.to_owned(),
        None => match container_user {
            Some(u) => u.to_owned(),
            None => own.to_owned(),
        },
    };
    (a, b)
}

/// One option as a variable of `install.sh`. The list `installsAfter` and options that are null are
/// left out.
pub open spec fn option_plan(name: Seq<char>, value: JsonView) -> PlanView {
    if name == "installsAfter"@ || value == JsonView::Null {
        nothing()
    } else {
        option("-e"@, option_variable(name) + "="@ + env_text(value))
    }
}

pub open spec fn options_plan(opts: JsonView) -> PlanView {
    match opts {
        JsonView::Object(m) => each(m, |e: (Seq<char>, JsonView)| option_plan(e.0, e.1)),
        _ => nothing(),
    }
}

fn add_options(plan: &mut Plan, opts: &Json)
    ensures
        final(plan)@ == old(plan)@.and(options_plan(opts@)),
{
    broadcast use group_json;

    proof {
        lemma_and_nothing(plan@);
    }
    if let Json::Object(m) = opts {
        let ghost f = |e: (Seq<char>, JsonView)| option_plan(e.0, e.1);
        let ghost all = members(m@);
        proof {
            lemma_each_start(all, f);
        }
        let mut i: usize = 0;
        while i < m.len()
            invariant
                i <= m@.len(),
                all == members(m@),
                f == (|e: (Seq<char>, JsonView)| option_plan(e.0, e.1)),
                plan@ == old(plan)@.and(each(all.take(i as int), f)),
            decreases m@.len() - i,
        {
            broadcast use group_json;

            let ghost before = plan@;
            assert(all[i as int] == (m@[i as int].0@, m@[i as int].1@));
            let name = m[i].0.as_str();
            let null: bool = match &m[i].1 {
                Json::Null => true,
                _ => false,
            };
            proof {
                lemma_and_nothing(plan@);
            }
            if !same_text(name, "installsAfter") && !null {
                let variable = option_env_name(name);
                let value = env_value_text(&m[i].1);
                plan.flag("-e", variable.concat("=").concat(value.as_str()));
            }
            assert(plan@ == before.and(f(all[i as int])));
            proof {
                lemma_each_next(all, f, i as int);
                lemma_and_assoc(old(plan)@, each(all.take(i as int), f), f(all[i as int]));
            }
            i = i + 1;
        }
        proof {
            lemma_each_start(all, f);
        }
    }
}

/// The shell command that runs `install.sh` after its line ends were made those of Unix.
pub open spec fn installer_command(path: Seq<char>) -> Seq<char> {
    "cd "@ + path
        + " && (sed -i 's/\\r$//' install.sh 2>/dev/null || tr -d '\\r' < install.sh > install.sh.tmp && mv install.sh.tmp install.sh 2>/dev/null || true) && chmod +x install.sh && ./install.sh"@
}

/// The command line of `docker exec` that runs `install.sh` as root; the users, their homes and the
/// options come as variables, before the name of the container.
pub open spec fn install_plan(
    container: Seq<char>,
    path: Seq<char>,
    container_user: Seq<char>,
    container_home: Seq<char>,
    remote_user: Seq<char>,
    remote_home: Seq<char>,
    opts: JsonView,
) -> PlanView {
    nothing().and(word("exec"@)).and(option("--user"@, "root"@)).and(
        option("-e"@, "_CONTAINER_USER="@ + container_user),
    ).and(option("-e"@, "_CONTAINER_USER_HOME="@ + container_home)).and(
        option("-e"@, "_REMOTE_USER="@ + remote_user),
    ).and(option("-e"@, "_REMOTE_USER_HOME="@ + remote_home)).and(
        option("-e"@, "_USERNAME="@ + remote_user),
    ).and(options_plan(opts)).and(word(container)).and(word("sh"@)).and(word("-c"@)).and(
        word(installer_command(path)),
    )
}

pub fn install_in_container(
    opts: &Json,
    container: &str,
    container_path: &str,
    container_user: &str,
    container_home: &str,
    remote_user: &str,
    remote_home: &str,
) -> (res: Plan)
    ensures
        res@ == install_plan(
            container@,
            container_path@,
            container_user@,
            container_home@,
            remote_user@,
            remote_home@,
            opts@,
        ),
{
    let mut plan = Plan::new();
    plan.arg("exec");
    plan.flag("--user", "root".to_owned());
    plan.flag("-e", "_CONTAINER_USER=".to_owned().concat(container_user));
    plan.flag("-e", "_CONTAINER_USER_HOME=".to_owned().concat(container_home));
    plan.flag("-e", "_REMOTE_USER=".to_owned().concat(remote_user));
    plan.flag("-e", "_REMOTE_USER_HOME=".to_owned().concat(remote_home));
    plan.flag("-e", "_USERNAME=".to_owned().concat(remote_user));
    add_options(&mut plan, opts);
    plan.arg(container);
    plan.arg("sh");
    plan.arg("-c");
    plan.push(
        "cd ".to_owned().concat(container_path).concat(
            " && (sed -i 's/\\r$//' install.sh 2>/dev/null || tr -d '\\r' < install.sh > install.sh.tmp && mv install.sh.tmp install.sh 2>/dev/null || true) && chmod +x install.sh && ./install.sh",
        ),
    );
    plan
}

/// Whether `install.sh` is run, given whether it was found.
pub fn announce_installer(found: bool, container: &str, path: &str, notes: &mut Notes) -> (res: bool)
    ensures
        res == found,
        final(notes)@ == old(notes)@.push(
            if found {
                NoteView::Info(
                    "  Found install.sh, executing inside "@ + container@
                        + " (as root, per devcontainer spec)..."@,
                )
            } else {
                NoteView::Warning(
                    "  Warning: install.sh not found at "@ + path@
                        + "/install.sh, skipping execution"@,
                )
            },
        ),
{
    if found {
        notes.info(
            "  Found install.sh, executing inside ".to_owned().concat(container).concat(
                " (as root, per devcontainer spec)...",
            ),
        );
    } else {
        notes.warn(
            "  Warning: install.sh not found at ".to_owned().concat(path).concat(
                "/install.sh, skipping execution",
            ),
        );
    }
    found
}

/// The error where `install.sh` failed.
pub open spec fn installer_error(id: Seq<char>, ok: bool, stderr: Seq<char>) -> Option<ErrorView> {
    if ok {
        None
    } else {
        Some(ErrorView::Docker("install.sh failed for "@ + id + ": "@ + stderr))
    }
}

/// What came of `install.sh`.
pub fn installer_outcome(id: &str, ok: bool, stderr: &str, notes: &mut Notes) -> (res: Result<
    (),
    BondarError,
>)
    ensures
        failure(res) == installer_error(id@, ok, stderr@),
        final(notes)@ == (if ok {
            old(notes)@.push(
                NoteView::Info("  Feature "@ + id@ + " installed successfully"@),
            )
        } else {
            old(notes)@
        }),
{
    if ok {
        notes.info("  Feature ".to_owned().concat(id).concat(" installed successfully"));
        Ok(())
    } else {
        Err(
            BondarError::Docker(
                "install.sh failed for ".to_owned().concat(id).concat(": ").concat(stderr),
            ),
        )
    }
}

// ---------------------------------------------------------------------------------------------
// One feature

/// What is said before the options of a feature are completed.
pub open spec fn installation_notes(id: Seq<char>, opts: JsonView, meta: Option<JsonView>) -> Seq<
    NoteView,
> {
    let after = strings_of(array_of(meta_field(meta, "installsAfter"@)));
    (if after.len() > 0 {
        seq![NoteView::Info("  Feature declares installsAfter: "@ + listed(after))]
    } else {
        no_notes()
    }) + warnings(invalid_options(id, opts, meta))
}

pub open spec fn warnings(v: Seq<Seq<char>>) -> Seq<NoteView> {
    Seq::new(v.len(), |i: int| NoteView::Warning(v[i]))
}

/// The options with which a fetched feature is installed: the given ones, completed by the defaults
/// of its metadata. Says what the feature declares, and warns of values that it does not allow.
pub fn install_fetched_feature(id: &str, opts: &Json, meta: Option<&Json>, notes: &mut Notes) -> (res:
    Json)
    ensures
        res@ == defaults_merged(opts@, opt_json(meta)),
        final(notes)@ == old(notes)@ + installation_notes(id@, opts@, opt_json(meta)),
{
    let after = read_strings(get_field(meta, "installsAfter"));
    assert(notes@ + no_notes() =~= notes@);
    if after.len() > 0 {
        let list = list_texts(&after);
        notes.info("  Feature declares installsAfter: ".to_owned().concat(list.as_str()));
    }
    let ghost told = notes@;
    let messages = invalid_feature_option_values(id, opts, meta);
    let ghost all = warnings(messages@);
    let mut i: usize = 0;
    assert(told + all.take(0) =~= told);
    while i < messages.len()
        invariant
            i <= messages@.len(),
            all == warnings(messages@),
            notes@ == told + all.take(i as int),
        decreases messages@.len() - i,
    {
        notes.warn(messages.get(i).to_owned());
        assert(all.take(i + 1) =~= all.take(i as int).push(all[i as int]));
        i = i + 1;
    }
    assert(all.take(i as int) =~= all);
    assert(notes@ =~= old(notes)@ + installation_notes(id@, opts@, opt_json(meta)));
    merge_feature_option_defaults(opts, meta)
}

/// The options of a feature whose installation begins.
pub fn begin_installation(id: &str, opts: &Json, notes: &mut Notes) -> (res: Json)
    ensures
        res@ == effective_opts(opts@),
        final(notes)@ == old(notes)@ + opts_notes(id@, opts@) + seq![NoteView::Info(
            "Attempting to install feature '"@ + id@ + "' with opts "@ + json_text(
                effective_opts(opts@),
            ) + "..."@,
        )],
{
    let effective = effective_feature_opts(id, opts, notes);
    let ghost told = notes@;
    let text = effective.text();
    notes.info(
        "Attempting to install feature '".to_owned().concat(id).concat("' with opts ").concat(
            text.as_str(),
        ).concat("..."),
    );
    assert(notes@ =~= told + seq![NoteView::Info(
        "Attempting to install feature '"@ + id@ + "' with opts "@ + json_text(
            effective_opts(opts@),
        ) + "..."@,
    )]);
    effective
}

/// The features that a feature depends on, with the options that it asks for.
pub fn declared_dependencies(meta: Option<&Json>) -> (res: Vec<(String, Json)>)
    ensures
        members(res@) == object_of(meta_field(opt_json(meta), "dependsOn"@)),
{
    broadcast use group_json;

    let found = get_field(meta, "dependsOn");
    if let Some(Json::Object(_)) = found {
        if let Some(j) = found {
            if let Json::Object(m) = j.copy() {
                return m;
            }
        }
    }
    let none: Vec<(String, Json)> = Vec::new();
    assert(members(none@) =~= Seq::empty());
    none
}

/// The features as requests without options.
pub open spec fn bare_requests(ids: Seq<Seq<char>>) -> Seq<(Seq<char>, JsonView)> {
    Seq::new(ids.len(), |i: int| (ids[i], JsonView::Null))
}

fn requests(ids: &Texts) -> (res: Vec<(String, Json)>)
    ensures
        members(res@) == bare_requests(ids@),
{
    let ghost goal = bare_requests(ids@);
    let mut out: Vec<(String, Json)> = Vec::new();
    let mut i: usize = 0;
    assert(members(out@) =~= goal.take(0));
    while i < ids.len()
        invariant
            i <= ids@.len(),
            goal == bare_requests(ids@),
            members(out@) == goal.take(i as int),
        decreases ids@.len() - i,
    {
        let ghost before = out@;
        let id = ids.get(i).to_owned();
        out.push((id, Json::Null));
        assert(members(out@) =~= members(before).push((id@, JsonView::Null)));
        assert(goal.take(i + 1) =~= goal.take(i as int).push(goal[i as int]));
        i = i + 1;
    }
    assert(goal.take(i as int) =~= goal);
    out
}

pub open spec fn deprecation_notes(id: Seq<char>, meta: Option<JsonView>) -> Seq<NoteView> {
    if meta_field(meta, "deprecated"@) == Some(JsonView::Bool(true)) {
        seq![NoteView::Warning(
            "Warning: feature '"@ + id + "' is marked as deprecated by its author"@,
        )]
    } else {
        no_notes()
    }
}

/// The features that a feature depends on, in alphabetical order, when only what they ask of the
/// container is of interest. Warns of a deprecated feature.
pub fn prefetch_one_feature(id: &str, meta: Option<&Json>, notes: &mut Notes) -> (res: Vec<
    (String, Json),
>)
    ensures
        members(res@) == dependency_requests(opt_json(meta)),
        final(notes)@ == old(notes)@ + deprecation_notes(id@, opt_json(meta)),
{
    assert(notes@ + no_notes() =~= notes@);
    if let Some(Json::Bool(true)) = get_field(meta, "deprecated") {
        notes.warn(
            "Warning: feature '".to_owned().concat(id).concat(
                "' is marked as deprecated by its author",
            ),
        );
        assert(notes@ =~= old(notes)@ + deprecation_notes(id@, opt_json(meta)));
    }
    let deps = declared_dependencies(meta);
    let all = names(&deps);
    let ids = sort_texts(&all);
    requests(&ids)
}

// ---------------------------------------------------------------------------------------------
// All features

/// The requests for the features that one depends on.
pub open spec fn dependency_requests(meta: Option<JsonView>) -> Seq<(Seq<char>, JsonView)> {
    bare_requests(sorted(names_of(object_of(meta_field(meta, "dependsOn"@)))))
}

/// The requests for the metadata of the features of a configuration.
pub open spec fn metadata_requests(
    features: Option<Seq<(Seq<char>, JsonView)>>,
    has_docker: bool,
) -> Seq<(Seq<char>, JsonView)> {
    match features {
        Some(m) => if m.len() > 0 && has_docker {
            bare_requests(sorted(names_of(m)))
        } else {
            Seq::empty()
        },
        None => Seq::empty(),
    }
}

pub open spec fn opt_members(features: Option<&Vec<(String, Json)>>) -> Option<
    Seq<(Seq<char>, JsonView)>,
> {
    match features {
        Some(f) => Some(members(f@)),
        None => None,
    }
}

/// The features to install, in their order.
pub open spec fn to_install(
    features: Option<Seq<(Seq<char>, JsonView)>>,
    order: Option<Seq<Seq<char>>>,
    has_docker: bool,
    catalog: Seq<(Seq<char>, JsonView)>,
) -> Seq<(Seq<char>, JsonView)> {
    match features {
        Some(m) => if m.len() == 0 || !has_docker {
            Seq::empty()
        } else {
            match order {
                Some(o) => override_sequence(m, o),
                None => sorted_sequence(m, catalog),
            }
        },
        None => Seq::empty(),
    }
}

/// The features whose metadata is fetched before the container is created: all requested ones, in
/// alphabetical order. Without Docker none can be.
pub fn prefetch_feature_container_properties(
    features: Option<&Vec<(String, Json)>>,
    has_docker: bool,
    notes: &mut Notes,
) -> (res: Vec<(String, Json)>)
    ensures
        members(res@) == metadata_requests(opt_members(features), has_docker),
        final(notes)@ == (match features {
            Some(f) => if f@.len() > 0 && !has_docker {
                old(notes)@.push(
                    NoteView::Warning(
                        "Warning: docker not available, cannot read feature metadata"@,
                    ),
                )
            } else {
                old(notes)@
            },
            None => old(notes)@,
        }),
{
    let none: Vec<(String, Json)> = Vec::new();
    assert(members(none@) =~= Seq::empty());
    match features {
        None => none,
        Some(f) => {
            if f.len() == 0 {
                return none;
            }
            if !has_docker {
                notes.warn("Warning: docker not available, cannot read feature metadata".to_owned());
                return none;
            }
            let all = names(f);
            let ids = sort_texts(&all);
            requests(&ids)
        },
    }
}

/// The features of the list that are requested, with their options.
pub open spec fn with_options(ids: Seq<Seq<char>>, features: Seq<(Seq<char>, JsonView)>) -> Seq<
    (Seq<char>, JsonView),
>
    decreases ids.len(),
{
    if ids.len() == 0 {
        Seq::empty()
    } else {
        let before = with_options(ids.drop_last(), features);
        match lookup(features, ids.last()) {
            Some(opts) => before.push((ids.last(), opts)),
            None => before,
        }
    }
}

fn attach_options(ids: &Texts, features: &Vec<(String, Json)>) -> (res: Vec<(String, Json)>)
    ensures
        members(res@) == with_options(ids@, members(features@)),
{
    let mut out: Vec<(String, Json)> = Vec::new();
    let mut i: usize = 0;
    assert(members(out@) =~= Seq::empty());
    assert(ids@.take(0) =~= Seq::empty());
    while i < ids.len()
        invariant
            i <= ids@.len(),
            members(out@) == with_options(ids@.take(i as int), members(features@)),
        decreases ids@.len() - i,
    {
        assert(ids@.take(i + 1).drop_last() =~= ids@.take(i as int));
        let ghost before = out@;
        let at: usize = find_member(features, ids.get(i));
        if at < features.len() {
            assert(members(features@)[at as int].1 == features@[at as int].1@);
            let id = ids.get(i).to_owned();
            let opts = features[at].1.copy();
            out.push((id, opts));
            assert(members(out@) =~= members(before).push((id@, opts@)));
        }
        i = i + 1;
    }
    assert(ids@.take(i as int) =~= ids@);
    out
}

pub open spec fn repetition_notes(v: Seq<Seq<char>>) -> Seq<NoteView>
    decreases v.len(),
{
    if v.len() == 0 {
        Seq::empty()
    } else {
        let before = repetition_notes(v.drop_last());
        if unrepeated(v.drop_last()).contains(v.last()) {
            before.push(
                NoteView::Warning(
                    "Warning: duplicate feature '"@ + v.last()
                        + "' in overrideFeatureInstallOrder, skipping duplicate"@,
                ),
            )
        } else {
            before
        }
    }
}

fn drop_repetitions(v: &Texts, notes: &mut Notes) -> (res: Texts)
    ensures
        res@ == unrepeated(v@),
        final(notes)@ == old(notes)@ + repetition_notes(v@),
{
    let mut out = Texts::new();
    let mut i: usize = 0;
    assert(v@.take(0) =~= Seq::empty());
    assert(notes@ + no_notes() =~= notes@);
    while i < v.len()
        invariant
            i <= v@.len(),
            out@ == unrepeated(v@.take(i as int)),
            notes@ == old(notes)@ + repetition_notes(v@.take(i as int)),
        decreases v@.len() - i,
    {
        assert(v@.take(i + 1).drop_last() =~= v@.take(i as int));
        if out.contains(v.get(i)) {
            notes.warn(
                "Warning: duplicate feature '".to_owned().concat(v.get(i)).concat(
                    "' in overrideFeatureInstallOrder, skipping duplicate",
                ),
            );
        } else {
            out.arg(v.get(i));
        }
        assert(notes@ =~= old(notes)@ + repetition_notes(v@.take(i + 1)));
        i = i + 1;
    }
    assert(v@.take(i as int) =~= v@);
    out
}

/// The list of the requested features.
pub open spec fn request_lines(features: Seq<(Seq<char>, JsonView)>) -> Seq<NoteView> {
    Seq::new(
        features.len(),
        |i: int| NoteView::Info("  - "@ + features[i].0 + ": "@ + json_text(features[i].1)),
    )
}

pub open spec fn request_notes(features: Seq<(Seq<char>, JsonView)>) -> Seq<NoteView> {
    seq![NoteView::Info(
        "Features requested: "@ + decimal_text(features.len()) + " feature(s)"@,
    )] + request_lines(features)
}

fn announce_requests(features: &Vec<(String, Json)>, notes: &mut Notes)
    ensures
        final(notes)@ == old(notes)@ + request_notes(members(features@)),
{
    let count = decimal(features.len() as u64);
    notes.info("Features requested: ".to_owned().concat(count.as_str()).concat(" feature(s)"));
    let ghost told = notes@;
    let ghost all = request_lines(members(features@));
    let mut i: usize = 0;
    assert(told + all.take(0) =~= told);
    while i < features.len()
        invariant
            i <= features@.len(),
            all == request_lines(members(features@)),
            notes@ == told + all.take(i as int),
        decreases features@.len() - i,
    {
        assert(members(features@)[i as int] == (features@[i as int].0@, features@[i as int].1@));
        let text = features[i].1.text();
        notes.info(
            "  - ".to_owned().concat(features[i].0.as_str()).concat(": ").concat(text.as_str()),
        );
        assert(all.take(i + 1) =~= all.take(i as int).push(all[i as int]));
        i = i + 1;
    }
    assert(all.take(i as int) =~= all);
    assert(notes@ =~= old(notes)@ + request_notes(members(features@)));
}

/// The features in the order of `overrideFeatureInstallOrder`, then the others in alphabetical
/// order.
pub open spec fn override_sequence(
    features: Seq<(Seq<char>, JsonView)>,
    order: Seq<Seq<char>>,
) -> Seq<(Seq<char>, JsonView)> {
    with_options(unrepeated(order), features) + with_options(
        sorted(not_in(names_of(features), order)),
        features,
    )
}

pub open spec fn override_notes(features: Seq<(Seq<char>, JsonView)>, order: Seq<Seq<char>>) -> Seq<
    NoteView,
> {
    let missing = not_in(order, names_of(features));
    seq![NoteView::Info("Override feature install order: "@ + listed(order))] + (if missing.len()
        > 0 {
        seq![NoteView::Warning(
            "Warning: overrideFeatureInstallOrder contains unknown features: "@ + listed(missing),
        )]
    } else {
        no_notes()
    }) + seq![NoteView::Info("Installing features in override order:"@)] + repetition_notes(order)
}

fn missing_from(v: &Texts, w: &Texts) -> (res: Texts)
    ensures
        res@ == not_in(v@, w@),
{
    let mut out = Texts::new();
    let mut i: usize = 0;
    assert(v@.take(0) =~= Seq::empty());
    while i < v.len()
        invariant
            i <= v@.len(),
            out@ == not_in(v@.take(i as int), w@),
        decreases v@.len() - i,
    {
        assert(v@.take(i + 1).drop_last() =~= v@.take(i as int));
        if !w.contains(v.get(i)) {
            out.arg(v.get(i));
        }
        i = i + 1;
    }
    assert(v@.take(i as int) =~= v@);
    out
}

fn sequence_by_override(features: &Vec<(String, Json)>, order: &Texts, notes: &mut Notes) -> (res: Vec<
    (String, Json),
>)
    ensures
        members(res@) == override_sequence(members(features@), order@),
        final(notes)@ == old(notes)@ + override_notes(members(features@), order@),
{
    let all = names(features);
    let list = list_texts(order);
    notes.info("Override feature install order: ".to_owned().concat(list.as_str()));
    let missing = missing_from(order, &all);
    if missing.len() > 0 {
        let unknown = list_texts(&missing);
        notes.warn(
            "Warning: overrideFeatureInstallOrder contains unknown features: ".to_owned().concat(
                unknown.as_str(),
            ),
        );
    }
    notes.info("Installing features in override order:".to_owned());
    let first = drop_repetitions(order, notes);
    assert(notes@ =~= old(notes)@ + override_notes(members(features@), order@));
    let mut out = attach_options(&first, features);
    let rest = missing_from(&all, order);
    let in_order = sort_texts(&rest);
    let mut more = attach_options(&in_order, features);
    let ghost a = out@;
    let ghost b = more@;
    out.append(&mut more);
    assert(members(out@) =~= members(a) + members(b));
    out
}

/// The features in the order of their names, each after those that it names in `installsAfter`.
pub open spec fn sorted_sequence(
    features: Seq<(Seq<char>, JsonView)>,
    catalog: Seq<(Seq<char>, JsonView)>,
) -> Seq<(Seq<char>, JsonView)> {
    with_options(install_order(ordering_map(features, catalog)), features)
}

pub open spec fn sorted_notes(
    features: Seq<(Seq<char>, JsonView)>,
    catalog: Seq<(Seq<char>, JsonView)>,
) -> Seq<NoteView> {
    let m = ordering_map(features, catalog);
    walk_of(feature_table(m), Some(circular_line()), sorted(names_of(m))).notes
        + seq![NoteView::Info("Installing features in installsAfter order:"@)]
}

fn sequence_by_installs_after(
    features: &Vec<(String, Json)>,
    catalog: &Vec<(String, Json)>,
    notes: &mut Notes,
) -> (res: Vec<(String, Json)>)
    ensures
        members(res@) == sorted_sequence(members(features@), catalog_view(catalog@)),
        final(notes)@ == old(notes)@ + sorted_notes(members(features@), catalog_view(catalog@)),
{
    let ordered = features_for_ordering(features, catalog);
    let ids = sort_by_installs_after(&ordered, notes);
    notes.info("Installing features in installsAfter order:".to_owned());
    assert(notes@ =~= old(notes)@ + sorted_notes(members(features@), catalog_view(catalog@)));
    attach_options(&ids, features)
}

/// The features to install, in order: by `overrideFeatureInstallOrder` where it is given, otherwise
/// by `installsAfter`. `catalog` holds the metadata that is cached already. Without Docker nothing
/// can be installed.
pub fn handle_features_with_container(
    features: Option<&Vec<(String, Json)>>,
    override_order: Option<&Texts>,
    has_docker: bool,
    catalog: &Vec<(String, Json)>,
    notes: &mut Notes,
) -> (res: Vec<(String, Json)>)
    ensures
        members(res@) == to_install(
            opt_members(features),
            match override_order {
                Some(order) => Some(order@),
                None => None,
            },
            has_docker,
            catalog_view(catalog@),
        ),
        match features {
            Some(f) => if f@.len() == 0 {
                res@.len() == 0 && final(notes)@ == old(notes)@
            } else if !has_docker {
                res@.len() == 0 && final(notes)@ == old(notes)@.push(
                    NoteView::Warning("Warning: docker not available, cannot install features"@),
                )
            } else {
                let m = members(f@);
                let c = catalog_view(catalog@);
                match override_order {
                    Some(order) => members(res@) == override_sequence(m, order@) && final(notes)@
                        == old(notes)@ + request_notes(m) + override_notes(m, order@),
                    None => members(res@) == sorted_sequence(m, c) && final(notes)@ == old(notes)@
                        + request_notes(m) + sorted_notes(m, c),
                }
            },
            None => res@.len() == 0 && final(notes)@ == old(notes)@,
        },
{
    let none: Vec<(String, Json)> = Vec::new();
    assert(members(none@) =~= Seq::empty());
    match features {
        None => none,
        Some(f) => {
            if f.len() == 0 {
                return none;
            }
            if !has_docker {
                notes.warn("Warning: docker not available, cannot install features".to_owned());
                return none;
            }
            announce_requests(f, notes);
            match override_order {
                Some(order) => sequence_by_override(f, order, notes),
                None => sequence_by_installs_after(f, catalog, notes),
            }
        },
    }
}

/// The list `installsAfter` among the options is for the order of the installation alone: `install.sh`
/// is run in the same way without it.
pub proof fn law_installs_after_is_no_variable(
    first: Seq<(Seq<char>, JsonView)>,
    after: JsonView,
    others: Seq<(Seq<char>, JsonView)>,
)
    ensures
        options_plan(JsonView::Object(first.push(("installsAfter"@, after)) + others))
            == options_plan(JsonView::Object(first + others)),
{
    let f = |e: (Seq<char>, JsonView)| option_plan(e.0, e.1);
    lemma_each_and(first.push(("installsAfter"@, after)), others, f);
    lemma_each_and(first, others, f);
    assert(first.push(("installsAfter"@, after)).drop_last() =~= first);
    lemma_and_nothing(each(first, f));
}

proof fn lemma_each_and<T>(a: Seq<T>, b: Seq<T>, f: spec_fn(T) -> PlanView)
    ensures
        each(a + b, f) == each(a, f).and(each(b, f)),
    decreases b.len(),
{
    if b.len() == 0 {
        assert(a + b =~= a);
        lemma_and_nothing(each(a, f));
    } else {
        lemma_each_and(a, b.drop_last(), f);
        assert((a + b).drop_last() =~= a + b.drop_last());
        lemma_and_assoc(each(a, f), each(b.drop_last(), f), f(b.last()));
    }
}

// ---------------------------------------------------------------------------------------------
// How a feature comes

/// The files of a feature are there once `oras` pulled them or they were taken out of an image, and
/// at no other time.
pub proof fn law_files_are_there_once_fetched(id: Seq<char>, event: FetchEvent)
    ensures
        fetch_next(id, event) is Unpack <==> (event matches FetchEvent::OrasPulled(ok, _) && ok) || (
        event matches FetchEvent::Removed(ok) && ok),
{
}

/// `oras` is used if and only if it is there; an image is pulled where `oras` is not there or could
/// not help, but never for an identifier that Docker would take for an option.
pub proof fn law_fallback_to_an_image(id: Seq<char>, event: FetchEvent)
    ensures
        fetch_next(id, event) is PullWithOras <==> (event matches FetchEvent::Started(oras) && oras),
        fetch_next(id, event) is PullImage <==> !(id.len() > 0 && id[0] == '-') && ((event matches
            FetchEvent::Started(oras) && !oras) || (event matches FetchEvent::OrasPulled(ok, _)
            && !ok)),
{
    reveal_strlit("-");
    if id.len() > 0 && id[0] == '-' {
        assert(id.subrange(0, 1) =~= "-"@);
        assert(begins_with(id, "-"@));
    } else if begins_with(id, "-"@) {
        assert(id.subrange(0, 1)[0] == id[0]);
    }
}

/// A feature cannot be had where its identifier would be an option for Docker, where its image cannot
/// be pulled, and where nothing could be taken out of the image; nowhere else.
pub proof fn law_fetching_fails(id: Seq<char>, event: FetchEvent)
    ensures
        fetch_next(id, event) is Fail <==> ((event matches FetchEvent::ImagePulled(ok, _) && !ok)
            || (event matches FetchEvent::Removed(ok) && !ok) || (id.len() > 0 && id[0] == '-' && ((
        event matches FetchEvent::Started(oras) && !oras) || (event matches FetchEvent::OrasPulled(
            ok,
            _,
        ) && !ok)))),
{
    law_fallback_to_an_image(id, event);
}

/// The container that the files are taken from is removed in the end, whether or not they could be
/// taken: it is created after the pull, the installer is copied first, the metadata with it, and
/// everything where there is no installer; the files count as taken where one of these went through.
pub proof fn law_extraction_cleans_up(id: Seq<char>, stderr: String, ok: bool)
    ensures
        fetch_next(id, FetchEvent::ImagePulled(true, stderr)) is CreateContainer,
        fetch_next(id, FetchEvent::Created(true)) is CopyInstaller,
        fetch_next(id, FetchEvent::Created(false)) == FetchStepView::RemoveContainer(false),
        fetch_next(id, FetchEvent::InstallerCopied(true)) is CopyMetadata,
        fetch_next(id, FetchEvent::InstallerCopied(false)) is CopyAll,
        fetch_next(id, FetchEvent::MetadataCopied) == FetchStepView::RemoveContainer(true),
        fetch_next(id, FetchEvent::AllCopied(ok)) == FetchStepView::RemoveContainer(ok),
{
}

/// The commands of fetching: the identifier is never taken for an option by Docker, everything is put
/// into the directory for the feature, and the container that is created is the one that is copied
/// from and removed.
pub proof fn law_fetch_commands(
    id: Seq<char>,
    dest: Seq<char>,
    container: Seq<char>,
    file: Seq<char>,
    taken: bool,
)
    ensures
        ({
            let of = |step: FetchStepView| fetch_args_of(step, id, dest, container);
            let oras = of(FetchStepView::PullWithOras);
            let pull = of(FetchStepView::PullImage);
            let create = of(FetchStepView::CreateContainer);
            let installer = of(FetchStepView::CopyInstaller);
            let all = of(FetchStepView::CopyAll);
            let metadata = file_copy_args(container, file, dest);
            let remove = of(FetchStepView::RemoveContainer(taken));
            &&& oras[0] == "pull"@ && oras[1] == id && pair_at(oras, "--output"@, dest, 2)
            &&& oras.len() == 4
            &&& pull[0] == "pull"@ && pair_at(pull, "--"@, id, 1) && pull.len() == 3
            &&& create[0] == "create"@ && pair_at(create, "--name"@, container, 1)
            &&& pair_at(create, "--"@, id, 3) && create.len() == 6
            &&& installer[0] == "cp"@ && installer[1] == container + ":/install.sh"@
            &&& all[0] == "cp"@ && all[1] == container + ":/"@
            &&& metadata[0] == "cp"@ && metadata[1] == container + ":/"@ + file
            &&& installer.len() == 3 && all.len() == 3 && metadata.len() == 3
            &&& installer[2] == dest && all[2] == dest && metadata[2] == dest
            &&& remove == seq!["rm"@, "-f"@, container]
        }),
{
}

// ---------------------------------------------------------------------------------------------
// What is run for a feature

/// The shell command of the installation begins by changing into the feature's directory and ends by
/// running the installer, whatever the path: in between the line ends are made those of Unix, which
/// may fail, and the installer is made executable.
proof fn lemma_installer_command(path: Seq<char>)
    ensures
        begins_with(installer_command(path), "cd "@ + path + " && ("@),
        finishes_with(
            installer_command(path),
            " || true) && chmod +x install.sh && ./install.sh"@,
        ),
        finishes_with(installer_command(path), " && ./install.sh"@),
{
    let script = installer_command(path);
    reveal_strlit(
        " && (sed -i 's/\\r$//' install.sh 2>/dev/null || tr -d '\\r' < install.sh > install.sh.tmp && mv install.sh.tmp install.sh 2>/dev/null || true) && chmod +x install.sh && ./install.sh",
    );
    reveal_strlit(" && (");
    reveal_strlit(" || true) && chmod +x install.sh && ./install.sh");
    reveal_strlit(" && ./install.sh");
    let start = "cd "@ + path + " && ("@;
    assert(script.subrange(0, start.len() as int) =~= start);
    let end = " || true) && chmod +x install.sh && ./install.sh"@;
    let last = " && ./install.sh"@;
    assert(script.subrange(script.len() - end.len(), script.len() as int) =~= end);
    assert(script.subrange(script.len() - last.len(), script.len() as int) =~= last);
}

/// A feature is installed by `root` in the container, in a shell that changes into the feature's
/// directory first and runs the installer last. Before the name of the container stand the users and
/// their homes, and every option but those that are null and `installsAfter`.
pub proof fn law_installer_runs_in_its_directory(
    container: Seq<char>,
    path: Seq<char>,
    container_user: Seq<char>,
    container_home: Seq<char>,
    remote_user: Seq<char>,
    remote_home: Seq<char>,
    opts: Seq<(Seq<char>, JsonView)>,
)
    ensures
        ({
            let args = install_plan(
                container,
                path,
                container_user,
                container_home,
                remote_user,
                remote_home,
                JsonView::Object(opts),
            ).args;
            let front = args.take(args.len() - 4);
            let script = args.last();
            &&& args.len() >= 17
            &&& args[0] == "exec"@ && pair_at(args, "--user"@, "root"@, 1)
            &&& args.skip(args.len() - 4) == seq![container, "sh"@, "-c"@, script]
            &&& begins_with(script, "cd "@ + path + " && ("@)
            &&& finishes_with(script, " || true) && chmod +x install.sh && ./install.sh"@)
            &&& finishes_with(script, " && ./install.sh"@)
            &&& has_pair(front, "-e"@, "_CONTAINER_USER="@ + container_user)
            &&& has_pair(front, "-e"@, "_CONTAINER_USER_HOME="@ + container_home)
            &&& has_pair(front, "-e"@, "_REMOTE_USER="@ + remote_user)
            &&& has_pair(front, "-e"@, "_REMOTE_USER_HOME="@ + remote_home)
            &&& has_pair(front, "-e"@, "_USERNAME="@ + remote_user)
            &&& forall|i: int|
                0 <= i < opts.len() && (#[trigger] opts[i]).0 != "installsAfter"@ && opts[i].1
                    != JsonView::Null ==> has_pair(
                    front,
                    "-e"@,
                    option_variable(opts[i].0) + "="@ + env_text(opts[i].1),
                )
        }),
{
    broadcast use group_plans;

    lemma_installer_command(path);
    let variables = nothing().and(word("exec"@)).and(option("--user"@, "root"@)).and(
        option("-e"@, "_CONTAINER_USER="@ + container_user),
    ).and(option("-e"@, "_CONTAINER_USER_HOME="@ + container_home)).and(
        option("-e"@, "_REMOTE_USER="@ + remote_user),
    ).and(option("-e"@, "_REMOTE_USER_HOME="@ + remote_home)).and(
        option("-e"@, "_USERNAME="@ + remote_user),
    );
    assert(variables.args[0] == "exec"@);
    assert(variables.args.len() == 13);
    assert(pair_at(variables.args, "--user"@, "root"@, 1));
    let front = variables.and(options_plan(JsonView::Object(opts)));
    let args = install_plan(
        container,
        path,
        container_user,
        container_home,
        remote_user,
        remote_home,
        JsonView::Object(opts),
    ).args;
    assert(args =~= front.args + seq![container, "sh"@, "-c"@, installer_command(path)]);
    assert(args.take(args.len() - 4) =~= front.args);
    assert(args.skip(args.len() - 4) =~= seq![container, "sh"@, "-c"@, installer_command(path)]);
    assert forall|i: int|
        0 <= i < opts.len() && (#[trigger] opts[i]).0 != "installsAfter"@ && opts[i].1
            != JsonView::Null implies has_pair(
        front.args,
        "-e"@,
        option_variable(opts[i].0) + "="@ + env_text(opts[i].1),
    ) by {
        lemma_each_pair(
            opts,
            |e: (Seq<char>, JsonView)| option_plan(e.0, e.1),
            i,
            "-e"@,
            option_variable(opts[i].0) + "="@ + env_text(opts[i].1),
        );
    }
}

/// Nothing but the users, their homes and the options is handed to the installer: without options
/// seventeen words are all there are, and one more option is one more variable before the name of the
/// container.
pub proof fn law_installer_gets_nothing_else(
    container: Seq<char>,
    path: Seq<char>,
    container_user: Seq<char>,
    container_home: Seq<char>,
    remote_user: Seq<char>,
    remote_home: Seq<char>,
    opts: Seq<(Seq<char>, JsonView)>,
    name: Seq<char>,
    value: JsonView,
)
    ensures
        ({
            let with = |o: Seq<(Seq<char>, JsonView)>|
                install_plan(
                    container,
                    path,
                    container_user,
                    container_home,
                    remote_user,
                    remote_home,
                    JsonView::Object(o),
                ).args;
            let before = with(opts);
            let after = with(opts.push((name, value)));
            let k = before.len() - 4;
            &&& with(Seq::empty()).len() == 17
            &&& value == JsonView::Null ==> after == before
            &&& name != "installsAfter"@ && value != JsonView::Null ==> after == before.take(k)
                + seq!["-e"@, option_variable(name) + "="@ + env_text(value)] + before.skip(k)
        }),
{
    let f = |e: (Seq<char>, JsonView)| option_plan(e.0, e.1);
    let more = opts.push((name, value));
    let variables = nothing().and(word("exec"@)).and(option("--user"@, "root"@)).and(
        option("-e"@, "_CONTAINER_USER="@ + container_user),
    ).and(option("-e"@, "_CONTAINER_USER_HOME="@ + container_home)).and(
        option("-e"@, "_REMOTE_USER="@ + remote_user),
    ).and(option("-e"@, "_REMOTE_USER_HOME="@ + remote_home)).and(
        option("-e"@, "_USERNAME="@ + remote_user),
    );
    assert(variables.args.len() == 13);
    let with = |o: Seq<(Seq<char>, JsonView)>|
        install_plan(
            container,
            path,
            container_user,
            container_home,
            remote_user,
            remote_home,
            JsonView::Object(o),
        ).args;
    let end = seq![container, "sh"@, "-c"@, installer_command(path)];
    assert forall|o: Seq<(Seq<char>, JsonView)>| #[trigger]
        with(o) == variables.args + each(o, f).args + end by {
        assert(with(o) =~= variables.args + each(o, f).args + end);
    }
    assert(each(Seq::<(Seq<char>, JsonView)>::empty(), f).args.len() == 0);
    assert(with(Seq::empty()).len() == 17);
    assert(more.drop_last() =~= opts);
    assert(each(more, f).args =~= each(opts, f).args + option_plan(name, value).args);
    let before = with(opts);
    let after = with(more);
    let k = before.len() - 4;
    if value == JsonView::Null {
        assert(after =~= before);
    } else if name != "installsAfter"@ {
        let own = seq!["-e"@, option_variable(name) + "="@ + env_text(value)];
        assert(option_plan(name, value).args =~= own);
        assert(before.take(k) =~= variables.args + each(opts, f).args);
        assert(before.skip(k) =~= end);
        assert(after =~= before.take(k) + own + before.skip(k));
    }
}

/// The directory that is made for a feature is the one that its files are copied into, that the
/// installer is looked for and run in, and that is removed in the end; nothing outside the directory
/// for features is. `root` makes and removes it.
pub proof fn law_feature_has_one_directory(
    host_dir: Seq<char>,
    container: Seq<char>,
    id: Seq<char>,
)
    ensures
        ({
            let path = feature_path(id);
            let make = directory_args(container, path);
            let copy = copy_in_args(host_dir, container, path);
            let check = installer_check(container, path);
            let remove = removal_args(container, path);
            let as_root = seq!["exec"@, "--user"@, "root"@, container, "sh"@, "-c"@];
            &&& begins_with(path, "/tmp/bondar_features/"@)
            &&& path.len() == "/tmp/bondar_features/"@.len() + directory_of(id).len()
            &&& make.drop_last() == as_root && make.last() == "mkdir -p "@ + path
            &&& copy.len() == 3 && copy[0] == "cp"@
            &&& copy[1] == host_dir + "/."@
            &&& copy[2] == container + ":"@ + path + "/"@
            &&& check.drop_last() == seq!["exec"@, container, "sh"@, "-c"@]
            &&& check.last() == "test -f "@ + path + "/install.sh && echo yes"@
            &&& remove.drop_last() == as_root && remove.last() == "rm -rf "@ + path
        }),
{
    let path = feature_path(id);
    let as_root = seq!["exec"@, "--user"@, "root"@, container, "sh"@, "-c"@];
    assert(path.subrange(0, "/tmp/bondar_features/"@.len() as int) =~= "/tmp/bondar_features/"@);
    assert(directory_args(container, path).drop_last() =~= as_root);
    assert(removal_args(container, path).drop_last() =~= as_root);
    assert(installer_check(container, path).drop_last() =~= seq![
        "exec"@,
        container,
        "sh"@,
        "-c"@,
    ]);
}

/// Each of the two users is the one that the configuration names; where it names only one of them that
/// one is both, and where it names none the container's own user is.
pub proof fn law_users_stand_in_for_each_other(a: Seq<char>, b: Seq<char>, own: Seq<char>)
    ensures
        users_of(Some(a), Some(b), own) == (b, a),
        users_of(Some(a), None, own) == (a, a),
        users_of(None, Some(b), own) == (b, b),
        users_of(None, None, own) == (own, own),
{
}

/// The user of a container is what stands before the colon in the answer of `docker inspect`, or the
/// whole of it without one; without an answer it is `root`.
pub proof fn law_container_user(user: Seq<char>, group: Seq<char>)
    requires
        !user.contains(':'),
        user.len() > 0,
        !is_white_space(user[0]),
        !is_white_space(user.last()),
        group.len() > 0,
        !is_white_space(group.last()),
    ensures
        container_user_of(true, user + seq!['\n']) == user,
        container_user_of(true, user + seq![':'] + group + seq!['\n']) == user,
        container_user_of(true, seq!['\n']) == "root"@,
        container_user_of(false, user) == "root"@,
{
    let none = Seq::<char>::empty();
    let end = seq!['\n'];
    assert(all_white(end));
    law_trimmed(none, user, end);
    assert(none + user + end =~= user + end);
    let both = user + seq![':'] + group;
    law_trimmed(none, both, end);
    assert(none + both + end =~= both + end);
    law_trimmed(none, none, end);
    assert(none + none + end =~= end);
    law_pieces(user, group, ':');
    law_pieces(none, none, ':');
}

/// The home of a user is the field before the last of their line in the list of users; without such a
/// line it is the directory of their name below `/home`.
pub proof fn law_user_home(
    user: Seq<char>,
    before: Seq<Seq<char>>,
    home: Seq<char>,
    shell: Seq<char>,
)
    requires
        before.len() == 5,
        forall|i: int|
            0 <= i < 5 ==> !(#[trigger] before[i]).contains(':') && !before[i].contains('\n'),
        !home.contains(':') && !home.contains('\n') && home.len() > 0,
        !shell.contains(':') && !shell.contains('\n') && !shell.contains('\r'),
    ensures
        ({
            let colon = seq![':'];
            let line = before[0] + colon + (before[1] + colon + (before[2] + colon + (before[3]
                + colon + (before[4] + colon + (home + colon + shell)))));
            &&& user_home_of(user, true, line + seq!['\n']) == home
            &&& user_home_of(user, false, line + seq!['\n']) == "/home/"@ + user
            &&& user_home_of(user, true, Seq::empty()) == "/home/"@ + user
        }),
{
    let colon = seq![':'];
    let r5 = home + colon + shell;
    let r4 = before[4] + colon + r5;
    let r3 = before[3] + colon + r4;
    let r2 = before[2] + colon + r3;
    let r1 = before[1] + colon + r2;
    let line = before[0] + colon + r1;
    let none = Seq::<char>::empty();
    lemma_without(home, colon, shell, '\n');
    lemma_without(before[4], colon, r5, '\n');
    lemma_without(before[3], colon, r4, '\n');
    lemma_without(before[2], colon, r3, '\n');
    lemma_without(before[1], colon, r2, '\n');
    lemma_without(before[0], colon, r1, '\n');
    law_lines(line, none);
    assert(line + seq!['\n'] + none =~= line + seq!['\n']);
    if shell.len() > 0 {
        assert(line.last() == shell.last());
        assert(shell.contains(shell.last()));
    } else {
        assert(line.last() == ':');
    }
    assert(without_cr(line) == line);
    assert(head_line(line + seq!['\n']) == line);
    law_pieces(before[0], r1, ':');
    law_pieces(before[1], r2, ':');
    law_pieces(before[2], r3, ':');
    law_pieces(before[3], r4, ':');
    law_pieces(before[4], r5, ':');
    law_pieces(home, shell, ':');
    law_pieces(shell, none, ':');
    assert(pieces(line, ':')[5] == home);
    law_lines(none, none);
    assert(head_line(none) =~= none);
    law_pieces(none, none, ':');
}

proof fn lemma_without(a: Seq<char>, b: Seq<char>, d: Seq<char>, c: char)
    requires
        !a.contains(c),
        !b.contains(c),
        !d.contains(c),
    ensures
        !(a + b + d).contains(c),
{
    let all = a + b + d;
    if all.contains(c) {
        let i = choose|i: int| 0 <= i < all.len() && all[i] == c;
        if i < a.len() {
            assert(a.contains(a[i]));
        } else if i < a.len() + b.len() {
            assert(b.contains(b[i - a.len()]));
        } else {
            assert(d.contains(d[i - a.len() - b.len()]));
        }
    }
}

// ---------------------------------------------------------------------------------------------
// Which features are installed, and what is unpacked

proof fn lemma_options_attached(
    ids: Seq<Seq<char>>,
    features: Seq<(Seq<char>, JsonView)>,
    id: Seq<char>,
    opts: JsonView,
)
    ensures
        with_options(ids, features).contains((id, opts)) <==> ids.contains(id) && lookup(features, id)
            == Some(opts),
        forall|k: int|
            0 <= k < with_options(ids, features).len() ==> ids.contains(
                (#[trigger] with_options(ids, features)[k]).0,
            ),
    decreases ids.len(),
{
    if ids.len() > 0 {
        lemma_options_attached(ids.drop_last(), features, id, opts);
        let first = ids.drop_last();
        let before = with_options(first, features);
        let now = with_options(ids, features);
        let last = ids.last();
        assert(ids[ids.len() - 1] == last);
        if first.contains(id) {
            let k = choose|k: int| 0 <= k < first.len() && first[k] == id;
            assert(ids[k] == id);
        }
        if ids.contains(id) && id != last {
            let k = choose|k: int| 0 <= k < ids.len() && ids[k] == id;
            assert(first[k] == id);
        }
        if before.contains((id, opts)) {
            let k = choose|k: int| 0 <= k < before.len() && before[k] == (id, opts);
            assert(now[k] == (id, opts));
        }
        if id == last && lookup(features, id) == Some(opts) {
            assert(now.last() == (id, opts));
        }
        if now.contains((id, opts)) && !before.contains((id, opts)) {
            let k = choose|k: int| 0 <= k < now.len() && now[k] == (id, opts);
            if k < before.len() {
                assert(before[k] == (id, opts));
            }
        }
        assert forall|k: int| 0 <= k < now.len() implies ids.contains((#[trigger] now[k]).0) by {
            if k < before.len() {
                assert(now[k] == before[k]);
                assert(first.contains(before[k].0));
                let j = choose|j: int| 0 <= j < first.len() && first[j] == before[k].0;
                assert(ids[j] == now[k].0);
            }
        }
    }
}

/// Whatever the order, exactly the requested features are installed, each with its own options.
pub proof fn law_requested_features_are_installed(
    features: Seq<(Seq<char>, JsonView)>,
    catalog: Seq<(Seq<char>, JsonView)>,
    order: Seq<Seq<char>>,
    id: Seq<char>,
    opts: JsonView,
)
    ensures
        override_sequence(features, order).contains((id, opts)) <==> lookup(features, id) == Some(
            opts,
        ),
        sorted_sequence(features, catalog).contains((id, opts)) <==> lookup(features, id) == Some(
            opts,
        ),
{
    let first = unrepeated(order);
    let rest = sorted(not_in(names_of(features), order));
    let a = with_options(first, features);
    let b = with_options(rest, features);
    lemma_options_attached(first, features, id, opts);
    lemma_options_attached(rest, features, id, opts);
    lemma_unrepeated_holds(order, id);
    lemma_sorted_contains(not_in(names_of(features), order), id);
    lemma_not_in(names_of(features), order, id);
    lemma_names_hold(features, id);
    let all = override_sequence(features, order);
    assert(all == a + b);
    if a.contains((id, opts)) {
        let k = choose|k: int| 0 <= k < a.len() && a[k] == (id, opts);
        assert(all[k] == (id, opts));
    }
    if b.contains((id, opts)) {
        let k = choose|k: int| 0 <= k < b.len() && b[k] == (id, opts);
        assert(all[a.len() + k] == (id, opts));
    }
    if all.contains((id, opts)) {
        let k = choose|k: int| 0 <= k < all.len() && all[k] == (id, opts);
        if k < a.len() {
            assert(a[k] == (id, opts));
        } else {
            assert(b[k - a.len()] == (id, opts));
        }
    }
    let m = ordering_map(features, catalog);
    law_features_are_sorted_once(m, id);
    lemma_options_attached(install_order(m), features, id, opts);
    lemma_names_hold(m, id);
    assert(names_of(m) =~= names_of(features));
}

/// Features that the configuration puts in an order come before all others, and these follow in the
/// order of their names.
pub proof fn law_override_order_comes_first(
    features: Seq<(Seq<char>, JsonView)>,
    order: Seq<Seq<char>>,
    i: int,
    j: int,
)
    requires
        0 <= i < override_sequence(features, order).len(),
        0 <= j < override_sequence(features, order).len(),
        order.contains(override_sequence(features, order)[i].0),
        !order.contains(override_sequence(features, order)[j].0),
    ensures
        i < j,
{
    let first = unrepeated(order);
    let rest = sorted(not_in(names_of(features), order));
    let a = with_options(first, features);
    let b = with_options(rest, features);
    let x = override_sequence(features, order)[i];
    let y = override_sequence(features, order)[j];
    lemma_options_attached(first, features, x.0, x.1);
    lemma_options_attached(rest, features, x.0, x.1);
    if j < a.len() {
        assert(a[j] == y);
        lemma_unrepeated_holds(order, y.0);
    }
    if i >= a.len() {
        assert(b[i - a.len()] == x);
        lemma_sorted_contains(not_in(names_of(features), order), x.0);
        lemma_not_in(names_of(features), order, x.0);
    }
}

proof fn lemma_unrepeated_holds(v: Seq<Seq<char>>, s: Seq<char>)
    ensures
        unrepeated(v).contains(s) <==> v.contains(s),
    decreases v.len(),
{
    if v.len() > 0 {
        let before = unrepeated(v.drop_last());
        let now = unrepeated(v);
        lemma_unrepeated_holds(v.drop_last(), s);
        assert(v[v.len() - 1] == v.last());
        if v.drop_last().contains(s) {
            let k = choose|k: int| 0 <= k < v.drop_last().len() && v.drop_last()[k] == s;
            assert(v[k] == s);
        }
        if v.contains(s) && s != v.last() {
            let k = choose|k: int| 0 <= k < v.len() && v[k] == s;
            assert(v.drop_last()[k] == s);
        }
        if before.contains(s) {
            let k = choose|k: int| 0 <= k < before.len() && before[k] == s;
            assert(now[k] == s);
        }
        if s == v.last() && !before.contains(s) {
            assert(now.last() == s);
        }
        if now.contains(s) && !before.contains(s) {
            let k = choose|k: int| 0 <= k < now.len() && now[k] == s;
            if k < before.len() {
                assert(before[k] == s);
            }
        }
    } else {
        assert(unrepeated(v) =~= v);
    }
}

proof fn lemma_names_hold(m: Seq<(Seq<char>, JsonView)>, id: Seq<char>)
    ensures
        names_of(m).contains(id) <==> lookup(m, id) is Some,
        has_key(m, id) <==> lookup(m, id) is Some,
{
    lemma_key_index(m, id, 0);
    let at = key_index(m, id, 0);
    if at < m.len() {
        assert(names_of(m)[at] == id);
    }
    if names_of(m).contains(id) {
        let k = choose|k: int| 0 <= k < names_of(m).len() && names_of(m)[k] == id;
        assert(m[k].0 == id);
    }
}

/// A path leads out of its directory if it is absolute or if one of its parts leads upwards, and
/// otherwise it does not.
pub proof fn law_escaping_paths(part: Seq<char>, rest: Seq<char>)
    requires
        !part.contains('/'),
    ensures
        escapes(seq!['/'] + rest),
        escapes(part) <==> part == ".."@,
        escapes(part + seq!['/'] + rest) <==> part.len() == 0 || part == ".."@ || pieces(
            rest,
            '/',
        ).contains(".."@),
{
    reveal_strlit("/");
    reveal_strlit("..");
    let slash = seq!['/'];
    assert((slash + rest).subrange(0, 1) =~= "/"@);
    law_pieces(part, rest, '/');
    assert(pieces(part, '/').contains(".."@) <==> part == ".."@) by {
        if part == ".."@ {
            assert(pieces(part, '/')[0] == ".."@);
        }
    }
    if begins_with(part, "/"@) {
        assert(part.subrange(0, 1)[0] == part[0]);
        assert(part.contains(part[0]));
    }
    let path = part + slash + rest;
    let all = pieces(path, '/');
    assert(all == seq![part] + pieces(rest, '/'));
    if begins_with(path, "/"@) && part.len() > 0 {
        assert(path.subrange(0, 1)[0] == part[0]);
        assert(part.contains(part[0]));
    }
    if part.len() == 0 {
        assert(path.subrange(0, 1) =~= "/"@);
    }
    if part == ".."@ {
        assert(all[0] == ".."@);
    }
    if pieces(rest, '/').contains(".."@) {
        let k = choose|k: int| 0 <= k < pieces(rest, '/').len() && pieces(rest, '/')[k] == ".."@;
        assert(all[k + 1] == ".."@);
    }
    if all.contains(".."@) && part != ".."@ {
        let k = choose|k: int| 0 <= k < all.len() && all[k] == ".."@;
        assert(pieces(rest, '/')[k - 1] == ".."@);
    }
}

/// One path that leads out of the directory, or one symbolic link, is enough to leave an archive as it
/// is; without either it is expanded.
pub proof fn law_expandable_archives(
    paths: Seq<Seq<char>>,
    details: Seq<Seq<char>>,
    path: Seq<char>,
    line: Seq<char>,
)
    ensures
        expandable(paths.push(path), details) <==> expandable(paths, details) && !escapes(path),
        expandable(paths, details.push(line)) <==> expandable(paths, details) && !links(line),
        expandable(Seq::empty(), Seq::empty()),
        line.len() > 0 && line[0] == 'l' ==> links(line),
        line.len() > 0 && !is_white_space(line[0]) && line[0] != 'l' ==> !links(line),
{
    let more = paths.push(path);
    if some_escapes(paths) {
        let i = choose|i: int| 0 <= i < paths.len() && escapes(#[trigger] paths[i]);
        assert(escapes(more[i]));
    }
    if escapes(path) {
        assert(escapes(more[paths.len() as int]));
    }
    if some_escapes(more) && !escapes(path) {
        let i = choose|i: int| 0 <= i < more.len() && escapes(#[trigger] more[i]);
        assert(escapes(paths[i]));
    }
    let longer = details.push(line);
    if some_links(details) {
        let i = choose|i: int| 0 <= i < details.len() && links(#[trigger] details[i]);
        assert(links(longer[i]));
    }
    if links(line) {
        assert(links(longer[details.len() as int]));
    }
    if some_links(longer) && !links(line) {
        let i = choose|i: int| 0 <= i < longer.len() && links(#[trigger] longer[i]);
        assert(links(details[i]));
    }
}

/// An archive is known by the end of its name, in whatever case, and by nothing else.
pub proof fn law_archive_names(name: Seq<char>)
    ensures
        archive_name(name + ".tar.gz"@),
        archive_name(name + ".tgz"@),
        archive_name(name + ".tar"@),
        archive_name(name + ".TAR"@),
        archive_name(name) ==> name.len() >= 4 && (lower_char(name.last()) == 'z' || lower_char(
            name.last(),
        ) == 'r'),
{
    reveal_strlit(".tar.gz");
    reveal_strlit(".tgz");
    reveal_strlit(".tar");
    reveal_strlit(".TAR");
    assert(lowered(".tar.gz"@) =~= ".tar.gz"@);
    assert(lowered(".tgz"@) =~= ".tgz"@);
    assert(lowered(".tar"@) =~= ".tar"@);
    assert(lowered(".TAR"@) =~= ".tar"@);
    lemma_lowered_end(name, ".tar.gz"@, ".tar.gz"@);
    lemma_lowered_end(name, ".tgz"@, ".tgz"@);
    lemma_lowered_end(name, ".tar"@, ".tar"@);
    lemma_lowered_end(name, ".TAR"@, ".tar"@);
    let low = lowered(name);
    if finishes_with(low, ".tar.gz"@) {
        assert(low.subrange(low.len() - 7, low.len() as int)[6] == low.last());
    }
    if finishes_with(low, ".tgz"@) {
        assert(low.subrange(low.len() - 4, low.len() as int)[3] == low.last());
    }
    if finishes_with(low, ".tar"@) {
        assert(low.subrange(low.len() - 4, low.len() as int)[3] == low.last());
    }
}

proof fn lemma_lowered_end(name: Seq<char>, end: Seq<char>, low: Seq<char>)
    requires
        lowered(end) == low,
    ensures
        finishes_with(lowered(name + end), low),
{
    let all = lowered(name + end);
    assert(all.subrange(all.len() - low.len(), all.len() as int) =~= lowered(end));
}

/// Two processes never take the files of a feature from the same container, nor does a container take
/// its name from more than the first 64 characters of the feature's directory.
pub proof fn law_extraction_names(a: Seq<char>, b: Seq<char>, id: Seq<char>)
    ensures
        a.len() == b.len() && a != b ==> extraction_name(a, id) != extraction_name(b, id),
        begins_with(extraction_name(a, id), "bondar-feature-extract-"@ + a + "-"@),
        extraction_name(a, id).len() <= 88 + a.len(),
        directory_of(id).len() <= 64 ==> finishes_with(extraction_name(a, id), directory_of(id)),
{
    reveal_strlit("bondar-feature-extract-");
    reveal_strlit("-");
    let x = extraction_name(a, id);
    let y = extraction_name(b, id);
    let front = "bondar-feature-extract-"@ + a + "-"@;
    assert(x.subrange(0, front.len() as int) =~= front);
    if a.len() == b.len() && x == y {
        assert(a =~= x.subrange(23, 23 + a.len() as int));
        assert(b =~= y.subrange(23, 23 + b.len() as int));
    }
    if directory_of(id).len() <= 64 {
        let d = directory_of(id);
        assert(x.subrange(x.len() - d.len(), x.len() as int) =~= d);
    }
}

/// A failed step of fetching is warned about and no other; an installer that fails is an error that
/// tells what it said, and one that does not is none.
pub proof fn law_failures_are_told(id: Seq<char>, event: FetchEvent, stderr: Seq<char>)
    ensures
        (exists|i: int| 0 <= i < fetch_notes(id, event).len() && (#[trigger] fetch_notes(id, event)[i])
            is Warning) <==> (event matches FetchEvent::OrasPulled(ok, _) && !ok) || (
        event matches FetchEvent::ImagePulled(ok, _) && !ok) || (event matches FetchEvent::Removed(
            ok,
        ) && !ok),
        installer_error(id, true, stderr) is None,
        installer_error(id, false, stderr) matches Some(ErrorView::Docker(text)) && finishes_with(
            text,
            stderr,
        ),
{
    let text = "install.sh failed for "@ + id + ": "@ + stderr;
    assert(text.subrange(text.len() - stderr.len(), text.len() as int) =~= stderr);
    let v = fetch_notes(id, event);
    if (event matches FetchEvent::OrasPulled(ok, _) && !ok) || (
    event matches FetchEvent::ImagePulled(ok, _) && !ok) || (event matches FetchEvent::Removed(ok)
        && !ok) {
        assert(v[0] is Warning);
    }
}

/// A feature is called deprecated if and only if its metadata says so; an entry of the given order is
/// warned about if and only if it stands there before, and unknown ones are warned about.
pub proof fn law_order_warnings(
    id: Seq<char>,
    meta: Option<JsonView>,
    features: Seq<(Seq<char>, JsonView)>,
    order: Seq<Seq<char>>,
    i: int,
)
    ensures
        deprecation_notes(id, meta).len() > 0 <==> meta_field(meta, "deprecated"@) == Some(
            JsonView::Bool(true),
        ),
        repetition_notes(order.push(id)).len() == repetition_notes(order).len() + (
        if order.contains(id) {
            1int
        } else {
            0int
        }),
        request_notes(features).len() == features.len() + 1,
        0 <= i < features.len() ==> request_notes(features)[i + 1] == NoteView::Info(
            "  - "@ + features[i].0 + ": "@ + json_text(features[i].1),
        ),
        override_notes(features, order).contains(
            NoteView::Info("Installing features in override order:"@),
        ),
{
    assert(order.push(id).drop_last() =~= order);
    law_unrepeated(order, id);
    let notes = override_notes(features, order);
    let missing = not_in(order, names_of(features));
    let at = if missing.len() > 0 {
        2int
    } else {
        1int
    };
    assert(notes[at] == NoteView::Info("Installing features in override order:"@));
}

/// The installer's line ends are mended before it is made executable and run, all in its directory.
pub proof fn law_installer_script(path: Seq<char>)
    ensures
        installer_command(path) == "cd "@ + path
            + " && (sed -i 's/\\r$//' install.sh 2>/dev/null || tr -d '\\r' < install.sh > install.sh.tmp && mv install.sh.tmp install.sh 2>/dev/null || true) && chmod +x install.sh && ./install.sh"@,
{
}

/// Features that are asked for by name alone are asked for without options, in their order.
pub proof fn law_bare_requests(ids: Seq<Seq<char>>, i: int)
    requires
        0 <= i < ids.len(),
    ensures
        bare_requests(ids).len() == ids.len(),
        bare_requests(ids)[i] == (ids[i], JsonView::Null),
{
}

/// With Docker exactly the requested features are installed, with the options that they are requested
/// with, and without it none; those in the given order come first. The metadata of the same features is
/// asked for, and of what one depends on.
pub proof fn law_what_is_installed(
    features: Seq<(Seq<char>, JsonView)>,
    order: Option<Seq<Seq<char>>>,
    catalog: Seq<(Seq<char>, JsonView)>,
    id: Seq<char>,
    opts: JsonView,
    deps: Seq<(Seq<char>, JsonView)>,
    meta: JsonView,
)
    requires
        field(meta, "dependsOn"@) == Some(JsonView::Object(deps)),
    ensures
        to_install(Some(features), order, true, catalog).contains((id, opts)) <==> lookup(
            features,
            id,
        ) == Some(opts),
        to_install(Some(features), order, false, catalog).len() == 0,
        to_install(None, order, true, catalog).len() == 0,
        order matches Some(o) ==> (features.len() > 0 ==> to_install(
            Some(features),
            order,
            true,
            catalog,
        ) == override_sequence(features, o)),
        metadata_requests(Some(features), true).contains((id, JsonView::Null)) <==> has_key(
            features,
            id,
        ),
        metadata_requests(Some(features), false).len() == 0,
        metadata_requests(None, true).len() == 0,
        dependency_requests(Some(meta)).contains((id, JsonView::Null)) <==> has_key(deps, id),
{
    if let Some(o) = order {
        law_requested_features_are_installed(features, catalog, o, id, opts);
    } else {
        law_requested_features_are_installed(features, catalog, Seq::empty(), id, opts);
    }
    if features.len() == 0 {
        lemma_key_index(features, id, 0);
    }
    lemma_bare_requests(features, id);
    lemma_bare_requests(deps, id);
}

proof fn lemma_bare_requests(m: Seq<(Seq<char>, JsonView)>, id: Seq<char>)
    ensures
        bare_requests(sorted(names_of(m))).contains((id, JsonView::Null)) <==> has_key(m, id),
        m.len() == 0 ==> !has_key(m, id),
{
    lemma_key_index(m, id, 0);
    lemma_sorted_contains(names_of(m), id);
    lemma_names_hold(m, id);
    let ids = sorted(names_of(m));
    let all = bare_requests(ids);
    if ids.contains(id) {
        let k = choose|k: int| 0 <= k < ids.len() && ids[k] == id;
        assert(all[k] == (id, JsonView::Null));
    }
    if all.contains((id, JsonView::Null)) {
        let k = choose|k: int| 0 <= k < all.len() && all[k] == (id, JsonView::Null);
        assert(ids[k] == id);
    }
}

/// What is told before features are installed: how many are requested, what a feature is installed
/// after, if it says so, and each option that it does not allow.
pub proof fn law_told_before(
    features: Seq<(Seq<char>, JsonView)>,
    catalog: Seq<(Seq<char>, JsonView)>,
    id: Seq<char>,
    opts: JsonView,
    meta: Option<JsonView>,
)
    ensures
        request_notes(features)[0] == NoteView::Info(
            "Features requested: "@ + decimal_text(features.len()) + " feature(s)"@,
        ),
        sorted_notes(features, catalog).last() == NoteView::Info(
            "Installing features in installsAfter order:"@,
        ),
        installation_notes(id, opts, meta).len() == invalid_options(id, opts, meta).len() + (
        if strings_of(array_of(meta_field(meta, "installsAfter"@))).len() > 0 {
            1int
        } else {
            0int
        }),
{
}

} // verus!
