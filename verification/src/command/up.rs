//! `bondar up`: creates and starts the container.

use vstd::prelude::*;
use vstd::string::*;

use crate::config::DevContainerConfig;
use crate::docker::{join, joined, start_action, StartAction};
use crate::features::{feature_lifecycle_hooks, hook_names};
use crate::json::{elements, members, Json, JsonView};
use crate::lifecycle::{
    command_script, lifecycle_summary, summary_of, CommandView, Script, ScriptStepView,
};
use crate::notes::{no_notes, NoteView, Notes};
use crate::numbers::{decimal, decimal_text};
use crate::text::{opt_str, same_text};
use crate::texts::Texts;

verus! {

/// What is done to bring the container up.
#[derive(Debug, Clone, Copy, PartialEq, Eq, Structural)]
pub struct UpPlan {
    /// Whether the image is built.
    pub build: bool,
    /// What becomes of a container that may exist already.
    pub action: StartAction,
    /// Whether the container is new: features are installed and the commands of its creation run.
    pub created: bool,
}

/// What is done. The image is built where the configuration has one to build, unless that is
/// not wanted; a container is new where there was none or where the old one is removed.
pub open spec fn decision(
    c: DevContainerConfig,
    found: bool,
    running: bool,
    remove_existing: bool,
    no_build: bool,
) -> UpPlan {
    UpPlan {
        build: c.build is Some && !no_build,
        action: if !found {
            StartAction::Create
        } else if remove_existing {
            StartAction::Recreate
        } else if running {
            StartAction::Keep
        } else {
            StartAction::Start
        },
        created: !found || remove_existing,
    }
}

/// Decides what is done.
pub fn run(
    config: &DevContainerConfig,
    found: bool,
    running: bool,
    remove_existing: bool,
    no_build: bool,
) -> (res: UpPlan)
    ensures
        res == decision(*config, found, running, remove_existing, no_build),
{
    UpPlan {
        build: config.build.is_some() && !no_build,
        action: start_action(found, running, remove_existing),
        created: !found || remove_existing,
    }
}

// ---------------------------------------------------------------------------------------------
// Lifecycle commands

/// Whether the images of compose services are built before the services are started: only where the
/// cache is not to be used, since they are otherwise built when they are started.
pub fn compose_builds(no_build: bool, no_cache: bool) -> (res: bool)
    ensures
        res == (no_cache && !no_build),
{
    no_cache && !no_build
}

/// Whether compose services are brought up once more: where the image of the container that is there
/// now brought metadata along, which the override file did not have yet.
pub fn compose_starts_again(label: Option<&str>) -> (res: bool)
    ensures
        res == (label is Some),
{
    label.is_some()
}

/// The commands of one phase of the lifecycle.
#[derive(Debug)]
pub struct Phase {
    pub name: String,
    pub commands: Vec<Json>,
    /// Whether the commands run in the background.
    pub background: bool,
}

#[verifier::ext_equal]
pub struct PhaseView {
    pub name: Seq<char>,
    pub commands: Seq<JsonView>,
    pub background: bool,
}

impl View for Phase {
    type V = PhaseView;

    open spec fn view(&self) -> PhaseView {
        PhaseView {
            name: self.name@,
            commands: elements(self.commands@),
            background: self.background,
        }
    }
}

pub open spec fn phases_view(v: Seq<Phase>) -> Seq<PhaseView> {
    Seq::new(v.len(), |i: int| v[i]@)
}

/// The configuration's own command for a phase, counted from the one of the creation.
pub open spec fn own_command(c: DevContainerConfig, k: int) -> Option<Json> {
    if k == 0 {
        c.on_create_command
    } else if k == 1 {
        c.update_content_command
    } else if k == 2 {
        c.post_create_command
    } else if k == 3 {
        c.post_start_command
    } else {
        c.post_attach_command
    }
}

fn get_own_command(config: &DevContainerConfig, k: usize) -> (res: &Option<Json>)
    ensures
        *res == own_command(*config, k as int),
{
    if k == 0 {
        &config.on_create_command
    } else if k == 1 {
        &config.update_content_command
    } else if k == 2 {
        &config.post_create_command
    } else if k == 3 {
        &config.post_start_command
    } else {
        &config.post_attach_command
    }
}

/// The commands among the hooks that belong to a phase.
pub open spec fn hooks_named(hooks: Seq<(Seq<char>, JsonView)>, name: Seq<char>) -> Seq<JsonView>
    decreases hooks.len(),
{
    if hooks.len() == 0 {
        Seq::empty()
    } else if hooks.last().0 == name {
        hooks_named(hooks.drop_last(), name).push(hooks.last().1)
    } else {
        hooks_named(hooks.drop_last(), name)
    }
}

/// The commands of a phase: those that features and the image bring along, and then the
/// configuration's own.
pub open spec fn phase_commands(
    c: DevContainerConfig,
    hooks: Seq<(Seq<char>, JsonView)>,
    k: int,
) -> Seq<JsonView> {
    hooks_named(hooks, hook_names()[k]) + (match own_command(c, k) {
        Some(j) => seq![j@],
        None => Seq::empty(),
    })
}

/// Whether a phase runs: the first three with a new container, the start with one that was not
/// running, and the last one always.
pub open spec fn phase_runs(k: int, created: bool, was_running: bool) -> bool {
    if k < 3 {
        created
    } else if k == 3 {
        created || !was_running
    } else {
        true
    }
}

/// How many of the five phases have to be over before the command ends; all of them where the
/// configuration does not say.
pub open spec fn phases_waited_for(c: DevContainerConfig) -> int {
    match c.wait_for {
        Some(w) => if w@ == "initializeCommand"@ {
            0
        } else if w@ == "onCreateCommand"@ {
            1
        } else if w@ == "updateContentCommand"@ {
            2
        } else if w@ == "postCreateCommand"@ {
            3
        } else if w@ == "postStartCommand"@ {
            4
        } else {
            5
        },
        None => 5,
    }
}

pub fn wait_count(config: &DevContainerConfig) -> (res: usize)
    ensures
        res == phases_waited_for(*config),
{
    match &config.wait_for {
        Some(w) => {
            let s = w.as_str();
            if same_text(s, "initializeCommand") {
                0
            } else if same_text(s, "onCreateCommand") {
                1
            } else if same_text(s, "updateContentCommand") {
                2
            } else if same_text(s, "postCreateCommand") {
                3
            } else if same_text(s, "postStartCommand") {
                4
            } else {
                5
            }
        },
        None => 5,
    }
}

/// The phases among the first `n` that run and have commands.
pub open spec fn phases_of(
    c: DevContainerConfig,
    hooks: Seq<(Seq<char>, JsonView)>,
    created: bool,
    was_running: bool,
    n: int,
) -> Seq<PhaseView>
    decreases n,
{
    if n <= 0 || n > 5 {
        Seq::empty()
    } else {
        let before = phases_of(c, hooks, created, was_running, n - 1);
        let commands = phase_commands(c, hooks, n - 1);
        if phase_runs(n - 1, created, was_running) && commands.len() > 0 {
            before.push(
                PhaseView {
                    name: hook_names()[n - 1],
                    commands,
                    background: n > phases_waited_for(c),
                },
            )
        } else {
            before
        }
    }
}

fn collect_commands(
    config: &DevContainerConfig,
    hooks: &Vec<(String, Json)>,
    name: &str,
    k: usize,
) -> (res: Vec<Json>)
    requires
        k < 5,
        name@ == hook_names()[k as int],
    ensures
        elements(res@) == phase_commands(*config, members(hooks@), k as int),
{
    let ghost all = members(hooks@);
    let mut out: Vec<Json> = Vec::new();
    let mut i: usize = 0;
    assert(all.take(0) =~= Seq::empty());
    assert(elements(out@) =~= Seq::empty());
    while i < hooks.len()
        invariant
            i <= hooks@.len(),
            all == members(hooks@),
            elements(out@) == hooks_named(all.take(i as int), name@),
        decreases hooks@.len() - i,
    {
        let ghost before = out@;
        assert(all.take(i + 1).drop_last() =~= all.take(i as int));
        assert(all.take(i + 1).last() == (hooks@[i as int].0@, hooks@[i as int].1@));
        if same_text(hooks[i].0.as_str(), name) {
            let value = hooks[i].1.copy();
            out.push(value);
            assert(elements(out@) =~= elements(before).push(value@));
        }
        i = i + 1;
    }
    assert(all.take(i as int) =~= all);
    let ghost before = out@;
    if let Some(j) = get_own_command(config, k) {
        let value = j.copy();
        out.push(value);
        assert(elements(out@) =~= elements(before) + seq![value@]);
    }
    assert(elements(out@) =~= phase_commands(*config, members(hooks@), k as int));
    out
}

/// The phases of the lifecycle that run in the container, in order.
pub fn lifecycle_phases(
    config: &DevContainerConfig,
    hooks: &Vec<(String, Json)>,
    created: bool,
    was_running: bool,
) -> (res: Vec<Phase>)
    ensures
        phases_view(res@) == phases_of(*config, members(hooks@), created, was_running, 5),
{
    let names = feature_lifecycle_hooks();
    let waited: usize = wait_count(config);
    let mut out: Vec<Phase> = Vec::new();
    let mut k: usize = 0;
    assert(phases_view(out@) =~= Seq::empty());
    while k < 5
        invariant
            k <= 5,
            names@ == hook_names(),
            waited == phases_waited_for(*config),
            phases_view(out@) == phases_of(
                *config,
                members(hooks@),
                created,
                was_running,
                k as int,
            ),
        decreases 5 - k,
    {
        let runs: bool = if k < 3 {
            created
        } else if k == 3 {
            created || !was_running
        } else {
            true
        };
        let commands = collect_commands(config, hooks, names.get(k), k);
        assert(elements(commands@).len() == commands@.len());
        if runs && commands.len() > 0 {
            let ghost before = out@;
            let phase = Phase { name: names.get(k).to_owned(), commands, background: k >= waited };
            out.push(phase);
            assert(phases_view(out@) =~= phases_view(before).push(phase@));
        }
        k = k + 1;
    }
    out
}

pub open spec fn phase_text(name: Seq<char>, background: bool) -> Seq<char> {
    if background {
        "Running "@ + name + " in background..."@
    } else {
        "Running "@ + name + "..."@
    }
}

/// The line that announces a phase.
pub fn phase_message(name: &str, background: bool) -> (res: String)
    ensures
        res@ == phase_text(name@, background),
{
    if background {
        "Running ".to_owned().concat(name).concat(" in background...")
    } else {
        "Running ".to_owned().concat(name).concat("...")
    }
}

/// The commands one after the other.
pub open spec fn commands_script(commands: Seq<JsonView>, background: bool) -> Seq<ScriptStepView>
    decreases commands.len(),
{
    if commands.len() == 0 {
        Seq::empty()
    } else {
        commands_script(commands.drop_last(), background) + command_script(
            commands.last(),
            background,
        )
    }
}

/// The phases one after the other, each announced before its commands.
pub open spec fn phases_script(phases: Seq<PhaseView>) -> Seq<ScriptStepView>
    decreases phases.len(),
{
    if phases.len() == 0 {
        Seq::empty()
    } else {
        let p = phases.last();
        phases_script(phases.drop_last()).push(
            ScriptStepView::Say(phase_text(p.name, p.background)),
        ) + commands_script(p.commands, p.background)
    }
}

fn add_commands(script: &mut Script, commands: &Vec<Json>, background: bool)
    ensures
        final(script)@ == old(script)@ + commands_script(elements(commands@), background),
{
    let ghost all = elements(commands@);
    let mut i: usize = 0;
    assert(all.take(0) =~= Seq::empty());
    assert(script@ =~= old(script)@ + commands_script(all.take(0), background));
    while i < commands.len()
        invariant
            i <= commands@.len(),
            all == elements(commands@),
            script@ == old(script)@ + commands_script(all.take(i as int), background),
        decreases commands@.len() - i,
    {
        assert(all.take(i + 1).drop_last() =~= all.take(i as int));
        script.add_command(&commands[i], background);
        assert(script@ =~= old(script)@ + commands_script(all.take(i + 1), background));
        i = i + 1;
    }
    assert(all.take(i as int) =~= all);
}

/// The phases as one script.
pub fn lifecycle_script(phases: &Vec<Phase>) -> (res: Script)
    ensures
        res@ == phases_script(phases_view(phases@)),
{
    let ghost all = phases_view(phases@);
    let mut script = Script::new();
    let mut i: usize = 0;
    assert(all.take(0) =~= Seq::empty());
    while i < phases.len()
        invariant
            i <= phases@.len(),
            all == phases_view(phases@),
            script@ == phases_script(all.take(i as int)),
        decreases phases@.len() - i,
    {
        assert(all.take(i + 1).drop_last() =~= all.take(i as int));
        let phase = &phases[i];
        assert(all.take(i + 1).last() == phase@);
        script.say(phase_message(phase.name.as_str(), phase.background));
        add_commands(&mut script, &phase.commands, phase.background);
        i = i + 1;
    }
    assert(all.take(i as int) =~= all);
    script
}

// ---------------------------------------------------------------------------------------------
// What is said

pub open spec fn detected_notes(c: DevContainerConfig) -> Seq<NoteView> {
    if summary_of(c).len() == 0 {
        no_notes()
    } else {
        seq![NoteView::Info("Detected lifecycle: "@ + joined(summary_of(c), ", "@))]
    }
}

/// Says which lifecycle commands the configuration has.
pub fn announce(config: &DevContainerConfig, notes: &mut Notes)
    ensures
        final(notes)@ == old(notes)@ + detected_notes(*config),
{
    assert(notes@ + no_notes() =~= notes@);
    let summary = Texts { items: lifecycle_summary(config) };
    assert(summary@ == summary_of(*config));
    if summary.len() > 0 {
        let names = join(&summary, ", ");
        notes.info("Detected lifecycle: ".to_owned().concat(names.as_str()));
    }
}

/// Says how many variables a probe of the environment brought.
pub fn probed_message(count: usize, probe: &str) -> (res: String)
    ensures
        res@ == "Probed "@ + decimal_text(count as nat) + " environment variables (userEnvProbe: "@
            + probe@ + ")"@,
{
    let n = decimal(count as u64);
    "Probed ".to_owned().concat(n.as_str()).concat(
        " environment variables (userEnvProbe: ",
    ).concat(probe).concat(")")
}

pub open spec fn stale_notes(container: Seq<char>, label: Option<Seq<char>>, config_file: Seq<char>) -> Seq<
    NoteView,
> {
    match label {
        Some(l) => if l.len() == 0 || l == config_file {
            no_notes()
        } else {
            seq![
                NoteView::Warning(
                    "Warning: container '"@ + container
                        + "' was created from a different config file ('"@ + l
                        + "'); use --remove-existing-container to recreate it"@,
                ),
            ]
        },
        None => no_notes(),
    }
}

/// Warns where an existing container was created from another configuration file.
pub fn check_config_file(container: &str, label: Option<&str>, config_file: &str, notes: &mut Notes)
    ensures
        final(notes)@ == old(notes)@ + stale_notes(container@, opt_str(label), config_file@),
{
    assert(notes@ + no_notes() =~= notes@);
    if let Some(l) = label {
        if l.unicode_len() > 0 && !same_text(l, config_file) {
            notes.warn(
                "Warning: container '".to_owned().concat(container).concat(
                    "' was created from a different config file ('",
                ).concat(l).concat("'); use --remove-existing-container to recreate it"),
            );
        }
    }
}

/// Says that the container is up and what can be done with it, or warns that it does not run.
pub fn finish(container: &str, running: bool, image: &str, workspace: &str, notes: &mut Notes)
    ensures
        final(notes)@ == old(notes)@ + (if running {
            no_notes()
        } else {
            seq![
                NoteView::Warning(
                    "Warning: container '"@ + container@
                        + "' is not running; inspect it with 'bondar logs'"@,
                ),
            ]
        }) + up_lines(container@, image@, workspace@),
{
    let ghost start = notes@;
    if !running {
        notes.warn(
            "Warning: container '".to_owned().concat(container).concat(
                "' is not running; inspect it with 'bondar logs'",
            ),
        );
    }
    let ghost middle = notes@;
    assert(middle =~= start + (if running {
        no_notes()
    } else {
        seq![
            NoteView::Warning(
                "Warning: container '"@ + container@
                    + "' is not running; inspect it with 'bondar logs'"@,
            ),
        ]
    }));
    notes.info("Container ".to_owned().concat(container).concat(" is up"));
    notes.info("  Image: ".to_owned().concat(image));
    notes.info("  Workspace: ".to_owned().concat(workspace));
    notes.info("  Use 'bondar exec -- <command>' to execute commands".to_owned());
    notes.info("  Use 'bondar shell' for interactive shell".to_owned());
    notes.info("  Use 'bondar down' to stop and remove".to_owned());
    assert(notes@ =~= middle + up_lines(container@, image@, workspace@));
}

pub open spec fn up_lines(container: Seq<char>, image: Seq<char>, workspace: Seq<char>) -> Seq<NoteView> {
    seq![
        NoteView::Info("Container "@ + container + " is up"@),
        NoteView::Info("  Image: "@ + image),
        NoteView::Info("  Workspace: "@ + workspace),
        NoteView::Info("  Use 'bondar exec -- <command>' to execute commands"@),
        NoteView::Info("  Use 'bondar shell' for interactive shell"@),
        NoteView::Info("  Use 'bondar down' to stop and remove"@),
    ]
}

// ---------------------------------------------------------------------------------------------
// Laws

/// Without a new container the commands of its creation do not run: `onCreateCommand`,
/// `updateContentCommand` and `postCreateCommand` run once for each container.
pub proof fn law_creation_runs_once(
    c: DevContainerConfig,
    hooks: Seq<(Seq<char>, JsonView)>,
    was_running: bool,
    n: int,
    i: int,
)
    requires
        0 <= n <= 5,
        0 <= i < phases_of(c, hooks, false, was_running, n).len(),
    ensures
        ({
            let name = phases_of(c, hooks, false, was_running, n)[i].name;
            name == "postStartCommand"@ || name == "postAttachCommand"@
        }),
    decreases n,
{
    let before = phases_of(c, hooks, false, was_running, n - 1);
    if i < before.len() {
        law_creation_runs_once(c, hooks, was_running, n - 1, i);
    }
}

/// Where the configuration does not name a command to wait for, nothing runs in the background; and
/// once a phase runs in the background, all later ones do.
pub proof fn law_background_phases_come_last(
    c: DevContainerConfig,
    hooks: Seq<(Seq<char>, JsonView)>,
    created: bool,
    was_running: bool,
    n: int,
    i: int,
    j: int,
)
    requires
        0 <= n <= 5,
        0 <= i <= j < phases_of(c, hooks, created, was_running, n).len(),
    ensures
        ({
            let phases = phases_of(c, hooks, created, was_running, n);
            &&& c.wait_for is None ==> !phases[i].background
            &&& phases[i].background ==> phases[j].background
        }),
    decreases n,
{
    let before = phases_of(c, hooks, created, was_running, n - 1);
    if j < before.len() {
        law_background_phases_come_last(c, hooks, created, was_running, n - 1, i, j);
    } else if i < before.len() {
        lemma_background_bound(c, hooks, created, was_running, n - 1, i);
        law_background_phases_come_last(c, hooks, created, was_running, n - 1, i, i);
    }
}

/// A phase in the background is one behind the last that is waited for.
proof fn lemma_background_bound(
    c: DevContainerConfig,
    hooks: Seq<(Seq<char>, JsonView)>,
    created: bool,
    was_running: bool,
    n: int,
    i: int,
)
    requires
        0 <= n <= 5,
        0 <= i < phases_of(c, hooks, created, was_running, n).len(),
    ensures
        phases_of(c, hooks, created, was_running, n)[i].background ==> n > phases_waited_for(c),
    decreases n,
{
    let before = phases_of(c, hooks, created, was_running, n - 1);
    if i < before.len() {
        lemma_background_bound(c, hooks, created, was_running, n - 1, i);
    }
}

/// Whether there is a container, and whether it runs, after something was done about it.
pub open spec fn runs_after(action: StartAction, found: bool, running: bool) -> (bool, bool) {
    match action {
        StartAction::Create | StartAction::Recreate => (true, true),
        StartAction::Start => (found, found),
        StartAction::Keep => (found, running),
    }
}

/// A container is there and runs once the command is through, whatever there was before. An existing
/// one is removed if and only if that is asked for, and then a new one is created; one that runs
/// already is left alone. The commands of the creation run if and only if the container is new, and
/// what becomes of the container has no say in whether an image is built.
pub proof fn law_up_leaves_a_running_container(
    c: DevContainerConfig,
    found: bool,
    running: bool,
    remove_existing: bool,
    no_build: bool,
)
    ensures
        ({
            let plan = decision(c, found, running, remove_existing, no_build);
            &&& runs_after(plan.action, found, running) == (true, true)
            &&& plan.action is Recreate <==> found && remove_existing
            &&& plan.action is Keep <==> found && running && !remove_existing
            &&& plan.created <==> plan.action is Create || plan.action is Recreate
            &&& !found ==> plan.action is Create
            &&& plan.build <==> c.build is Some && !no_build
            &&& plan.build == decision(c, false, false, false, no_build).build
        }),
{
}

/// The commands of the phases with a given name, one phase after the other.
pub open spec fn commands_in(phases: Seq<PhaseView>, name: Seq<char>) -> Seq<JsonView>
    decreases phases.len(),
{
    if phases.len() == 0 {
        Seq::empty()
    } else if phases.last().name == name {
        commands_in(phases.drop_last(), name) + phases.last().commands
    } else {
        commands_in(phases.drop_last(), name)
    }
}

/// The commands that the hooks of a given name bring along, in their order.
pub open spec fn brought(hooks: Seq<(Seq<char>, JsonView)>, name: Seq<char>) -> Seq<JsonView> {
    hooks.filter(|h: (Seq<char>, JsonView)| h.0 == name).map_values(
        |h: (Seq<char>, JsonView)| h.1,
    )
}

/// A command that the configuration sets, as the last one of its phase.
pub open spec fn followed_by(before: Seq<JsonView>, own: Option<Json>) -> Seq<JsonView> {
    match own {
        Some(j) => before.push(j@),
        None => before,
    }
}

proof fn lemma_hooks_named(hooks: Seq<(Seq<char>, JsonView)>, name: Seq<char>)
    ensures
        hooks_named(hooks, name) == brought(hooks, name),
    decreases hooks.len(),
{
    reveal(Seq::filter);
    let p = |h: (Seq<char>, JsonView)| h.0 == name;
    if hooks.len() == 0 {
        assert(hooks.filter(p) =~= Seq::empty());
        assert(brought(hooks, name) =~= Seq::empty());
    } else {
        lemma_hooks_named(hooks.drop_last(), name);
        let before = hooks.drop_last().filter(p);
        if p(hooks.last()) {
            assert(hooks.filter(p) =~= before.push(hooks.last()));
            assert(brought(hooks, name) =~= brought(hooks.drop_last(), name).push(hooks.last().1));
        } else {
            assert(hooks.filter(p) =~= before);
        }
    }
}

proof fn lemma_hook_names_differ()
    ensures
        forall|i: int, j: int| 0 <= i < j < 5 ==> #[trigger] hook_names()[i] != #[trigger] hook_names()[j],
{
    reveal_strlit("onCreateCommand");
    reveal_strlit("updateContentCommand");
    reveal_strlit("postCreateCommand");
    reveal_strlit("postStartCommand");
    reveal_strlit("postAttachCommand");
    assert("onCreateCommand"@.len() == 15 && "updateContentCommand"@.len() == 20);
    assert("postCreateCommand"@.len() == 17 && "postStartCommand"@.len() == 16);
    assert("postAttachCommand"@.len() == 17);
    assert("postCreateCommand"@[4] == 'C' && "postAttachCommand"@[4] == 'A');
}

proof fn lemma_commands_in(
    c: DevContainerConfig,
    hooks: Seq<(Seq<char>, JsonView)>,
    created: bool,
    was_running: bool,
    n: int,
    k: int,
)
    requires
        0 <= n <= 5,
        0 <= k < 5,
    ensures
        commands_in(phases_of(c, hooks, created, was_running, n), hook_names()[k]) == (if k < n
            && phase_runs(k, created, was_running) {
            phase_commands(c, hooks, k)
        } else {
            Seq::empty()
        }),
    decreases n,
{
    lemma_hook_names_differ();
    if n > 0 {
        lemma_commands_in(c, hooks, created, was_running, n - 1, k);
        let before = phases_of(c, hooks, created, was_running, n - 1);
        let all = phases_of(c, hooks, created, was_running, n);
        let commands = phase_commands(c, hooks, n - 1);
        if phase_runs(n - 1, created, was_running) && commands.len() > 0 {
            assert(all.drop_last() =~= before);
            if k == n - 1 {
                assert(commands_in(before, hook_names()[k]) + commands =~= commands);
            }
        } else if phase_runs(n - 1, created, was_running) {
            assert(commands =~= Seq::empty());
        }
    }
}

/// Each lifecycle command of the configuration is the last one of the phase of its own name, behind
/// those that features and the image bring along for that phase. The phases of the creation run with a
/// new container alone, the start with one that did not run before, and the last one always.
pub proof fn law_commands_run_in_the_phase_of_their_name(
    c: DevContainerConfig,
    hooks: Seq<(Seq<char>, JsonView)>,
    created: bool,
    was_running: bool,
)
    ensures
        ({
            let phases = phases_of(c, hooks, created, was_running, 5);
            let none = Seq::<JsonView>::empty();
            &&& commands_in(phases, "onCreateCommand"@) == if created {
                followed_by(brought(hooks, "onCreateCommand"@), c.on_create_command)
            } else {
                none
            }
            &&& commands_in(phases, "updateContentCommand"@) == if created {
                followed_by(brought(hooks, "updateContentCommand"@), c.update_content_command)
            } else {
                none
            }
            &&& commands_in(phases, "postCreateCommand"@) == if created {
                followed_by(brought(hooks, "postCreateCommand"@), c.post_create_command)
            } else {
                none
            }
            &&& commands_in(phases, "postStartCommand"@) == if created || !was_running {
                followed_by(brought(hooks, "postStartCommand"@), c.post_start_command)
            } else {
                none
            }
            &&& commands_in(phases, "postAttachCommand"@) == followed_by(
                brought(hooks, "postAttachCommand"@),
                c.post_attach_command,
            )
        }),
{
    lemma_commands_in(c, hooks, created, was_running, 5, 0);
    lemma_commands_in(c, hooks, created, was_running, 5, 1);
    lemma_commands_in(c, hooks, created, was_running, 5, 2);
    lemma_commands_in(c, hooks, created, was_running, 5, 3);
    lemma_commands_in(c, hooks, created, was_running, 5, 4);
    lemma_hooks_named(hooks, "onCreateCommand"@);
    lemma_hooks_named(hooks, "updateContentCommand"@);
    lemma_hooks_named(hooks, "postCreateCommand"@);
    lemma_hooks_named(hooks, "postStartCommand"@);
    lemma_hooks_named(hooks, "postAttachCommand"@);
    lemma_own_command(c, hooks, 0, "onCreateCommand"@, c.on_create_command);
    lemma_own_command(c, hooks, 1, "updateContentCommand"@, c.update_content_command);
    lemma_own_command(c, hooks, 2, "postCreateCommand"@, c.post_create_command);
    lemma_own_command(c, hooks, 3, "postStartCommand"@, c.post_start_command);
    lemma_own_command(c, hooks, 4, "postAttachCommand"@, c.post_attach_command);
}

proof fn lemma_own_command(
    c: DevContainerConfig,
    hooks: Seq<(Seq<char>, JsonView)>,
    k: int,
    name: Seq<char>,
    own: Option<Json>,
)
    requires
        0 <= k < 5,
        name == hook_names()[k],
        own == own_command(c, k),
    ensures
        phase_commands(c, hooks, k) == followed_by(brought(hooks, name), own),
{
    lemma_hooks_named(hooks, name);
    assert(phase_commands(c, hooks, k) =~= followed_by(brought(hooks, name), own));
}

/// The command that runs on the host before anything else has no say in what runs in the container.
pub proof fn law_host_command_stays_on_the_host(
    c: DevContainerConfig,
    other: Option<Json>,
    hooks: Seq<(Seq<char>, JsonView)>,
    created: bool,
    was_running: bool,
    n: int,
)
    ensures
        phases_of(c, hooks, created, was_running, n) == phases_of(
            DevContainerConfig { initialize_command: other, ..c },
            hooks,
            created,
            was_running,
            n,
        ),
    decreases n,
{
    if 0 < n <= 5 {
        law_host_command_stays_on_the_host(c, other, hooks, created, was_running, n - 1);
    }
}

/// The place of a lifecycle command among those of the container, by its name; that of the host comes
/// before all of them.
pub open spec fn stage(name: Seq<char>) -> Option<int> {
    if name == "initializeCommand"@ {
        Some(0)
    } else if name == "onCreateCommand"@ {
        Some(1)
    } else if name == "updateContentCommand"@ {
        Some(2)
    } else if name == "postCreateCommand"@ {
        Some(3)
    } else if name == "postStartCommand"@ {
        Some(4)
    } else if name == "postAttachCommand"@ {
        Some(5)
    } else {
        None
    }
}

proof fn lemma_stages()
    ensures
        forall|k: int| 0 <= k < 5 ==> stage(#[trigger] hook_names()[k]) == Some(k + 1),
{
    lemma_hook_names_differ();
    reveal_strlit("initializeCommand");
    reveal_strlit("onCreateCommand");
    reveal_strlit("updateContentCommand");
    reveal_strlit("postCreateCommand");
    reveal_strlit("postStartCommand");
    reveal_strlit("postAttachCommand");
    assert("initializeCommand"@[0] == 'i' && "onCreateCommand"@[0] == 'o');
    assert("updateContentCommand"@[0] == 'u' && "postCreateCommand"@[0] == 'p');
    assert("postStartCommand"@[0] == 'p' && "postAttachCommand"@[0] == 'p');
    assert forall|k: int| 0 <= k < 5 implies stage(#[trigger] hook_names()[k]) == Some(k + 1) by {
        let names = hook_names();
        assert(names[0] != names[1] && names[0] != names[2] && names[0] != names[3]);
        assert(names[0] != names[4] && names[1] != names[2] && names[1] != names[3]);
        assert(names[1] != names[4] && names[2] != names[3] && names[2] != names[4]);
        assert(names[3] != names[4]);
        assert(k == 0 || k == 1 || k == 2 || k == 3 || k == 4);
    }
}

/// The phases run in the order of the lifecycle, each once and none without a command. A phase runs in
/// the background if and only if the configuration waits for an earlier one.
pub proof fn law_phases_run_in_order(
    c: DevContainerConfig,
    hooks: Seq<(Seq<char>, JsonView)>,
    created: bool,
    was_running: bool,
    n: int,
    i: int,
    j: int,
)
    requires
        0 <= n <= 5,
        0 <= i < j < phases_of(c, hooks, created, was_running, n).len() || 0 <= i == j
            < phases_of(c, hooks, created, was_running, n).len(),
    ensures
        ({
            let phases = phases_of(c, hooks, created, was_running, n);
            &&& phases[i].commands.len() > 0
            &&& stage(phases[i].name) is Some && 0 < stage(phases[i].name)->0 <= n
            &&& i < j ==> stage(phases[i].name)->0 < stage(phases[j].name)->0
            &&& phases[i].background <==> (c.wait_for matches Some(w) && stage(w@) is Some
                && stage(w@)->0 < stage(phases[i].name)->0)
        }),
    decreases n,
{
    lemma_stages();
    let before = phases_of(c, hooks, created, was_running, n - 1);
    assert(stage(hook_names()[n - 1]) == Some(n));
    if j < before.len() {
        law_phases_run_in_order(c, hooks, created, was_running, n - 1, i, j);
    } else if i < before.len() {
        law_phases_run_in_order(c, hooks, created, was_running, n - 1, i, i);
    }
}

/// The phases of a script come one after the other: each is announced by its name, and its commands
/// follow in their order, all of them in the background or none.
pub proof fn law_scripts_follow_the_phases(phases: Seq<PhaseView>, phase: PhaseView, command: JsonView)
    ensures
        phases_script(phases.push(phase)) == phases_script(phases) + seq![
            ScriptStepView::Say(phase_text(phase.name, phase.background)),
        ] + commands_script(phase.commands, phase.background),
        commands_script(phase.commands.push(command), phase.background) == commands_script(
            phase.commands,
            phase.background,
        ) + command_script(command, phase.background),
        phases_script(Seq::empty()).len() == 0,
        commands_script(Seq::empty(), phase.background).len() == 0,
        phase_text(phase.name, false) == "Running "@ + phase.name + "..."@,
        phase_text(phase.name, true) == "Running "@ + phase.name + " in background..."@,
{
    assert(phases.push(phase).drop_last() =~= phases);
    assert(phase.commands.push(command).drop_last() =~= phase.commands);
    assert(phases_script(phases.push(phase)) =~= phases_script(phases) + seq![
        ScriptStepView::Say(phase_text(phase.name, phase.background)),
    ] + commands_script(phase.commands, phase.background));
}

/// A command in a script runs as it is, in the background or not as its phase does.
pub proof fn law_commands_keep_their_place(
    command: Seq<char>,
    background: bool,
)
    ensures
        command_script(JsonView::String(command), background) == seq![
            ScriptStepView::Run(
                CommandView { program: command, args: Seq::empty(), shell: true },
                background,
            ),
        ],
{
    assert(command_script(JsonView::String(command), background) =~= seq![
        ScriptStepView::Run(
            CommandView { program: command, args: Seq::empty(), shell: true },
            background,
        ),
    ]);
}

/// A container is warned about if and only if it was created from another configuration file that is
/// known.
pub proof fn law_stale_containers(
    container: Seq<char>,
    label: Seq<char>,
    config_file: Seq<char>,
)
    ensures
        stale_notes(container, None, config_file).len() == 0,
        stale_notes(container, Some(label), config_file).len() == 0 <==> label.len() == 0 || label
            == config_file,
{
}

/// The lifecycle commands of a configuration are listed if and only if it has any, and what is up is
/// told with its image and its workspace.
pub proof fn law_told(c: DevContainerConfig, container: Seq<char>, image: Seq<char>, workspace: Seq<char>)
    ensures
        detected_notes(c).len() == 0 <==> summary_of(c).len() == 0,
        up_lines(container, image, workspace)[0] == NoteView::Info(
            "Container "@ + container + " is up"@,
        ),
        up_lines(container, image, workspace)[1] == NoteView::Info("  Image: "@ + image),
        up_lines(container, image, workspace)[2] == NoteView::Info("  Workspace: "@ + workspace),
{
}

} // verus!
