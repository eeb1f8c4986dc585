//! `bondar read-configuration`: checks the configuration and prints it.

use vstd::prelude::*;
use vstd::string::*;

use crate::command::exec::{is_known_probe, known_probe};
use crate::config::{config_error, container_name_of, set_variables, DevContainerConfig};
use crate::docker::{
    container_env_map, container_values, container_values_notes, join, joined, resolve_secrets,
    secret_entries, secret_specs, secrets_notes, Scope,
};
use crate::error::BondarError;
use crate::json::{json_text, Json};
use crate::lifecycle::{lifecycle_summary, summary_of};
use crate::maps::{entries_view, EnvMap};
use crate::notes::{no_notes, NoteView, Notes};
use crate::ports::{
    app_port_texts, app_ports, attribute_is, forward_port_texts, forward_texts, is_port_ignored,
    publish_for, published_for,
};
use crate::text::same_text;
use crate::texts::Texts;

verus! {

// ---------------------------------------------------------------------------------------------
// Problems

pub open spec fn known_wait_for(s: Seq<char>) -> bool {
    s == "initializeCommand"@ || s == "onCreateCommand"@ || s == "updateContentCommand"@ || s
        == "postCreateCommand"@ || s == "postStartCommand"@
}

fn is_known_wait_for(s: &str) -> (res: bool)
    ensures
        res == known_wait_for(s@),
{
    same_text(s, "initializeCommand") || same_text(s, "onCreateCommand") || same_text(
        s,
        "updateContentCommand",
    ) || same_text(s, "postCreateCommand") || same_text(s, "postStartCommand")
}

pub open spec fn known_shutdown(s: Seq<char>) -> bool {
    s == "none"@ || s == "stopContainer"@ || s == "stopCompose"@
}

fn is_known_shutdown(s: &str) -> (res: bool)
    ensures
        res == known_shutdown(s@),
{
    same_text(s, "none") || same_text(s, "stopContainer") || same_text(s, "stopCompose")
}

pub open spec fn value_problem(name: Seq<char>, value: Seq<char>) -> Seq<char> {
    "'"@ + value + "' is not a valid value for '"@ + name + "'"@
}

fn describe_value(name: &str, value: &str) -> (res: String)
    ensures
        res@ == value_problem(name@, value@),
{
    "'".to_owned().concat(value).concat("' is not a valid value for '").concat(name).concat("'")
}

/// What is wrong with a configuration: a breach of the rules on which members go together, and values
/// that are none of those a member can have.
pub open spec fn problems_of(c: DevContainerConfig) -> Seq<Seq<char>> {
    (match config_error(c) {
        Some(e) => seq![e],
        None => Seq::empty(),
    }) + (match c.wait_for {
        Some(w) => if known_wait_for(w@) {
            Seq::empty()
        } else {
            seq![value_problem("waitFor"@, w@)]
        },
        None => Seq::empty(),
    }) + (match c.shutdown_action {
        Some(a) => if known_shutdown(a@) {
            Seq::empty()
        } else {
            seq![value_problem("shutdownAction"@, a@)]
        },
        None => Seq::empty(),
    }) + (match c.user_env_probe {
        Some(p) => if known_probe(p@) {
            Seq::empty()
        } else {
            seq![value_problem("userEnvProbe"@, p@)]
        },
        None => Seq::empty(),
    })
}

pub fn config_problems(config: &DevContainerConfig) -> (res: Texts)
    ensures
        res@ == problems_of(*config),
{
    let mut out = Texts::new();
    if let Err(BondarError::Config(e)) = config.validate() {
        out.push(e);
    }
    if let Some(w) = &config.wait_for {
        if !is_known_wait_for(w.as_str()) {
            out.push(describe_value("waitFor", w.as_str()));
        }
    }
    if let Some(a) = &config.shutdown_action {
        if !is_known_shutdown(a.as_str()) {
            out.push(describe_value("shutdownAction", a.as_str()));
        }
    }
    if let Some(p) = &config.user_env_probe {
        if !is_known_probe(p.as_str()) {
            out.push(describe_value("userEnvProbe", p.as_str()));
        }
    }
    assert(out@ =~= problems_of(*config));
    out
}

pub open spec fn problem_notes(problems: Seq<Seq<char>>) -> Seq<NoteView> {
    Seq::new(problems.len(), |i: int| NoteView::Warning("INVALID: "@ + problems[i]))
}

/// Says whether a configuration is valid, and what is wrong with it.
pub fn check(config: &DevContainerConfig, notes: &mut Notes) -> (valid: bool)
    ensures
        valid == (problems_of(*config).len() == 0),
        final(notes)@ == old(notes)@ + (if problems_of(*config).len() == 0 {
            seq![NoteView::Info("Configuration is valid"@)]
        } else {
            problem_notes(problems_of(*config))
        }),
{
    let problems = config_problems(config);
    if problems.len() == 0 {
        notes.info("Configuration is valid".to_owned());
        return true;
    }
    let ghost goal = problem_notes(problems@);
    let mut i: usize = 0;
    assert(notes@ =~= notes@ + goal.take(0));
    while i < problems.len()
        invariant
            i <= problems@.len(),
            goal == problem_notes(problems@),
            notes@ == old(notes)@ + goal.take(i as int),
        decreases problems@.len() - i,
    {
        notes.warn("INVALID: ".to_owned().concat(problems.get(i)));
        assert(goal.take(i + 1) =~= goal.take(i as int).push(goal[i as int]));
        assert(notes@ =~= old(notes)@ + goal.take(i + 1));
        i = i + 1;
    }
    assert(goal.take(i as int) =~= goal);
    false
}

// ---------------------------------------------------------------------------------------------
// The configuration

pub open spec fn line(s: Seq<char>) -> Seq<NoteView> {
    seq![NoteView::Info(s)]
}

pub open spec fn json_line(name: Seq<char>, j: Option<Json>) -> Seq<NoteView> {
    match j {
        Some(j) => line(name + json_text(j@)),
        None => no_notes(),
    }
}

pub open spec fn or_unknown(o: Option<String>) -> Seq<char> {
    match o {
        Some(s) => s@,
        None => "unknown"@,
    }
}

fn unless_unknown(o: &Option<String>) -> (res: String)
    ensures
        res@ == or_unknown(*o),
{
    match o {
        Some(s) => s.clone(),
        None => "unknown".to_owned(),
    }
}

/// What the container is made from.
pub open spec fn mode_line(c: DevContainerConfig) -> Seq<char> {
    if c.docker_compose_file is Some {
        "Mode: Docker Compose (service: "@ + or_unknown(c.service) + ")"@
    } else if c.build is Some {
        "Mode: Build"@
    } else {
        "Mode: Image ("@ + or_unknown(c.image) + ")"@
    }
}

pub open spec fn lifecycle_line(c: DevContainerConfig) -> Seq<NoteView> {
    if summary_of(c).len() == 0 {
        no_notes()
    } else {
        line("Lifecycle: "@ + joined(summary_of(c), ", "@))
    }
}

pub open spec fn configuration_lines(
    c: DevContainerConfig,
    config_file: Seq<char>,
    workspace: Seq<char>,
    json: Seq<char>,
) -> Seq<NoteView> {
    line("Config file: "@ + config_file) + line("Workspace: "@ + workspace) + line(Seq::empty())
        + line(json) + line(Seq::empty()) + lifecycle_line(c) + json_line(
        "Host requirements: "@,
        c.host_requirements,
    ) + json_line("Ports attributes: "@, c.ports_attributes) + line(mode_line(c))
}

fn add_json_line(name: &str, j: &Option<Json>, notes: &mut Notes)
    ensures
        final(notes)@ == old(notes)@ + json_line(name@, *j),
{
    assert(notes@ + no_notes() =~= notes@);
    if let Some(j) = j {
        let text = j.text();
        notes.info(name.to_owned().concat(text.as_str()));
    }
}

/// Prints the configuration; `json` is its text.
pub fn run(
    config: &DevContainerConfig,
    config_file: &str,
    workspace: &str,
    json: &str,
    notes: &mut Notes,
)
    ensures
        final(notes)@ == old(notes)@ + configuration_lines(
            *config,
            config_file@,
            workspace@,
            json@,
        ),
{
    let ghost start = notes@;
    notes.info("Config file: ".to_owned().concat(config_file));
    notes.info("Workspace: ".to_owned().concat(workspace));
    let empty = String::new();
    assert(empty@ =~= Seq::empty());
    notes.info(empty);
    notes.info(json.to_owned());
    let empty = String::new();
    assert(empty@ =~= Seq::empty());
    notes.info(empty);
    let summary = Texts { items: lifecycle_summary(config) };
    assert(summary@ == summary_of(*config));
    if summary.len() > 0 {
        let names = join(&summary, ", ");
        notes.info("Lifecycle: ".to_owned().concat(names.as_str()));
    }
    assert(notes@ =~= start + line("Config file: "@ + config_file@) + line(
        "Workspace: "@ + workspace@,
    ) + line(Seq::empty()) + line(json@) + line(Seq::empty()) + lifecycle_line(*config));
    add_json_line("Host requirements: ", &config.host_requirements, notes);
    add_json_line("Ports attributes: ", &config.ports_attributes, notes);
    let mode = if config.docker_compose_file.is_some() {
        let service = unless_unknown(&config.service);
        "Mode: Docker Compose (service: ".to_owned().concat(service.as_str()).concat(")")
    } else if config.build.is_some() {
        "Mode: Build".to_owned()
    } else {
        let image = unless_unknown(&config.image);
        "Mode: Image (".to_owned().concat(image.as_str()).concat(")")
    };
    notes.info(mode);
    assert(notes@ =~= start + configuration_lines(*config, config_file@, workspace@, json@));
}

// ---------------------------------------------------------------------------------------------
// The merged configuration

/// One line for each variable.
pub open spec fn variable_lines(name: Seq<char>, env: Seq<(Seq<char>, Seq<char>)>) -> Seq<NoteView> {
    Seq::new(env.len(), |i: int| NoteView::Info(name + env[i].0 + "="@ + env[i].1))
}

fn add_variables(name: &str, env: &EnvMap, notes: &mut Notes)
    ensures
        final(notes)@ == old(notes)@ + variable_lines(name@, env@),
{
    let ghost goal = variable_lines(name@, env@);
    let mut i: usize = 0;
    assert(notes@ =~= notes@ + goal.take(0));
    while i < env.len()
        invariant
            i <= env@.len(),
            goal == variable_lines(name@, env@),
            notes@ == old(notes)@ + goal.take(i as int),
        decreases env@.len() - i,
    {
        notes.info(name.to_owned().concat(env.key(i)).concat("=").concat(env.value(i)));
        assert(goal.take(i + 1) =~= goal.take(i as int).push(goal[i as int]));
        assert(notes@ =~= old(notes)@ + goal.take(i + 1));
        i = i + 1;
    }
    assert(goal.take(i as int) =~= goal);
}

/// One line for each secret, without its value.
pub open spec fn secret_lines(secrets: Seq<(Seq<char>, Seq<char>)>) -> Seq<NoteView> {
    Seq::new(secrets.len(), |i: int| NoteView::Info("  secret: "@ + secrets[i].0))
}

fn add_secret_lines(secrets: &Vec<(String, String)>, notes: &mut Notes)
    ensures
        final(notes)@ == old(notes)@ + secret_lines(entries_view(secrets@)),
{
    let ghost goal = secret_lines(entries_view(secrets@));
    let mut i: usize = 0;
    assert(notes@ =~= notes@ + goal.take(0));
    while i < secrets.len()
        invariant
            i <= secrets@.len(),
            goal == secret_lines(entries_view(secrets@)),
            notes@ == old(notes)@ + goal.take(i as int),
        decreases secrets@.len() - i,
    {
        notes.info("  secret: ".to_owned().concat(secrets[i].0.as_str()));
        assert(goal.take(i + 1) =~= goal.take(i as int).push(goal[i as int]));
        assert(notes@ =~= old(notes)@ + goal.take(i + 1));
        i = i + 1;
    }
    assert(goal.take(i as int) =~= goal);
}

/// One line for each port that is published.
pub open spec fn published_lines(c: DevContainerConfig, specs: Seq<Seq<char>>) -> Seq<NoteView>
    decreases specs.len(),
{
    if specs.len() == 0 {
        no_notes()
    } else {
        published_lines(c, specs.drop_last()) + (match published_for(c, specs.last()) {
            Some(p) => if attribute_is(c, specs.last(), "onAutoForward"@, "ignore"@) {
                no_notes()
            } else {
                line("  port: "@ + p)
            },
            None => no_notes(),
        })
    }
}

fn add_port_lines(config: &DevContainerConfig, specs: &Texts, notes: &mut Notes)
    ensures
        final(notes)@ == old(notes)@ + published_lines(*config, specs@),
{
    let mut i: usize = 0;
    assert(specs@.take(0) =~= Seq::empty());
    assert(notes@ + no_notes() =~= notes@);
    while i < specs.len()
        invariant
            i <= specs@.len(),
            notes@ == old(notes)@ + published_lines(*config, specs@.take(i as int)),
        decreases specs@.len() - i,
    {
        assert(specs@.take(i + 1).drop_last() =~= specs@.take(i as int));
        if !is_port_ignored(config, specs.get(i)) {
            if let Some(p) = publish_for(config, specs.get(i)) {
                notes.info("  port: ".to_owned().concat(p.as_str()));
            }
        }
        assert(notes@ =~= old(notes)@ + published_lines(*config, specs@.take(i + 1)));
        i = i + 1;
    }
    assert(specs@.take(i as int) =~= specs@);
}

/// What the configuration comes to: names and defaults, the variables with their references
/// replaced, the secrets and the published ports.
pub open spec fn merged_lines(c: DevContainerConfig, scope: Scope) -> Seq<NoteView> {
    container_values_notes(c.container_env@, c.container_env@, scope) + secrets_notes(
        secret_specs(c),
        scope.host@,
    ) + line("Merged configuration:"@) + line(
        "  containerName: "@ + container_name_of(c, *scope.workspace),
    ) + line("  workspaceFolder: "@ + c.target()) + variable_lines(
        "  containerEnv: "@,
        container_values(c.container_env@, c.container_env@, scope),
    ) + variable_lines("  remoteEnv: "@, set_variables(c.remote_env@)) + secret_lines(
        secret_entries(secret_specs(c), scope.host@),
    ) + published_lines(c, forward_texts(c.forward_ports@)) + published_lines(
        c,
        app_ports(c.app_port),
    )
}

pub fn merged_configuration(config: &DevContainerConfig, scope: &Scope, notes: &mut Notes)
    ensures
        final(notes)@ == old(notes)@ + merged_lines(*config, *scope),
{
    let ghost start = notes@;
    let values = container_env_map(&config.container_env, scope, notes);
    let secrets = resolve_secrets(config, scope.host, notes);
    notes.info("Merged configuration:".to_owned());
    let name = config.container_name(scope.workspace);
    notes.info("  containerName: ".to_owned().concat(name.as_str()));
    let folder = config.workspace_folder_or_default();
    notes.info("  workspaceFolder: ".to_owned().concat(folder.as_str()));
    add_variables("  containerEnv: ", &values, notes);
    add_variables("  remoteEnv: ", &config.remote_env_resolved(), notes);
    add_secret_lines(&secrets, notes);
    add_port_lines(config, &forward_port_texts(&config.forward_ports), notes);
    add_port_lines(config, &app_port_texts(&config.app_port), notes);
    assert(notes@ =~= start + merged_lines(*config, *scope));
}

// ---------------------------------------------------------------------------------------------
// Laws

/// A configuration is valid if and only if its members go together and each that has a choice of values
/// has one of them; every value that is none of them is named.
pub proof fn law_problems(c: DevContainerConfig)
    ensures
        ({
            let v = problems_of(c);
            let wait = |s: Seq<char>|
                s == "initializeCommand"@ || s == "onCreateCommand"@ || s == "updateContentCommand"@
                    || s == "postCreateCommand"@ || s == "postStartCommand"@;
            let shutdown = |s: Seq<char>|
                s == "none"@ || s == "stopContainer"@ || s == "stopCompose"@;
            let probe = |s: Seq<char>|
                s == "none"@ || s == "interactiveShell"@ || s == "loginShell"@ || s
                    == "loginInteractiveShell"@;
            &&& v.len() == 0 <==> config_error(c) is None && (c.wait_for matches Some(w) ==> wait(
                w@,
            )) && (c.shutdown_action matches Some(a) ==> shutdown(a@)) && (
            c.user_env_probe matches Some(p) ==> probe(p@))
            &&& config_error(c) matches Some(e) ==> v[0] == e
            &&& c.wait_for matches Some(w) ==> !wait(w@) ==> v.contains(
                "'"@ + w@ + "' is not a valid value for '"@ + "waitFor"@ + "'"@,
            )
            &&& c.shutdown_action matches Some(a) ==> !shutdown(a@) ==> v.contains(
                "'"@ + a@ + "' is not a valid value for '"@ + "shutdownAction"@ + "'"@,
            )
            &&& c.user_env_probe matches Some(p) ==> !probe(p@) ==> v.last() == "'"@ + p@
                + "' is not a valid value for '"@ + "userEnvProbe"@ + "'"@
        }),
{
    let v = problems_of(c);
    let k = (if config_error(c) is Some {
        1int
    } else {
        0int
    });
    let w_bad = c.wait_for matches Some(w) && !known_wait_for(w@);
    if w_bad {
        assert(v[k] == value_problem("waitFor"@, c.wait_for->0@));
    }
    let m = if w_bad {
        k + 1
    } else {
        k
    };
    if c.shutdown_action matches Some(a) && !known_shutdown(a@) {
        assert(v[m] == value_problem("shutdownAction"@, c.shutdown_action->0@));
    }
}

/// Secrets are shown by name; their values have no say in what is shown.
pub proof fn law_secrets_stay_secret(
    a: Seq<(Seq<char>, Seq<char>)>,
    b: Seq<(Seq<char>, Seq<char>)>,
)
    requires
        a.len() == b.len(),
        forall|i: int| 0 <= i < a.len() ==> (#[trigger] a[i]).0 == b[i].0,
    ensures
        secret_lines(a) == secret_lines(b),
        secret_lines(a).len() == a.len(),
        forall|i: int|
            0 <= i < a.len() ==> #[trigger] secret_lines(a)[i] == NoteView::Info(
                "  secret: "@ + a[i].0,
            ),
{
    assert(secret_lines(a) =~= secret_lines(b));
}

/// What is printed of a configuration: its file, the workspace and its text first, and last what the
/// container is made from.
pub proof fn law_configuration_lines(
    c: DevContainerConfig,
    config_file: Seq<char>,
    workspace: Seq<char>,
    json: Seq<char>,
)
    ensures
        ({
            let v = configuration_lines(c, config_file, workspace, json);
            &&& v[0] == NoteView::Info("Config file: "@ + config_file)
            &&& v[1] == NoteView::Info("Workspace: "@ + workspace)
            &&& v[3] == NoteView::Info(json)
            &&& c.docker_compose_file is Some && c.service is Some ==> v.last() == NoteView::Info(
                "Mode: Docker Compose (service: "@ + c.service->0@ + ")"@,
            )
            &&& c.docker_compose_file is None && c.build is Some ==> v.last() == NoteView::Info(
                "Mode: Build"@,
            )
            &&& c.docker_compose_file is None && c.build is None && c.image is Some ==> v.last()
                == NoteView::Info("Mode: Image ("@ + c.image->0@ + ")"@)
            &&& c.host_requirements matches Some(j) ==> v.contains(
                NoteView::Info("Host requirements: "@ + json_text(j@)),
            )
            &&& c.ports_attributes matches Some(j) ==> v.contains(
                NoteView::Info("Ports attributes: "@ + json_text(j@)),
            )
        }),
{
    let v = configuration_lines(c, config_file, workspace, json);
    let k = 5 + lifecycle_line(c).len() as int;
    if let Some(j) = c.host_requirements {
        assert(v[k] == NoteView::Info("Host requirements: "@ + json_text(j@)));
    }
    let m = k + json_line("Host requirements: "@, c.host_requirements).len();
    if let Some(j) = c.ports_attributes {
        assert(v[m] == NoteView::Info("Ports attributes: "@ + json_text(j@)));
    }
}

/// What a configuration comes to: the name of the container, the workspace folder, every variable with
/// its value, the names of the secrets, and the ports that are published and not ignored.
pub proof fn law_merged_lines(c: DevContainerConfig, scope: Scope, spec: Seq<char>)
    ensures
        ({
            let v = merged_lines(c, scope);
            let env = container_values(c.container_env@, c.container_env@, scope);
            let remote = set_variables(c.remote_env@);
            let secrets = secret_entries(secret_specs(c), scope.host@);
            &&& v.contains(
                NoteView::Info("  containerName: "@ + container_name_of(c, *scope.workspace)),
            )
            &&& v.contains(NoteView::Info("  workspaceFolder: "@ + c.target()))
            &&& forall|i: int|
                0 <= i < env.len() ==> v.contains(
                    NoteView::Info(
                        "  containerEnv: "@ + (#[trigger] env[i]).0 + "="@ + env[i].1,
                    ),
                )
            &&& forall|i: int|
                0 <= i < remote.len() ==> v.contains(
                    NoteView::Info(
                        "  remoteEnv: "@ + (#[trigger] remote[i]).0 + "="@ + remote[i].1,
                    ),
                )
            &&& forall|i: int|
                0 <= i < secrets.len() ==> v.contains(
                    NoteView::Info("  secret: "@ + (#[trigger] secrets[i]).0),
                )
            &&& (forward_texts(c.forward_ports@).contains(spec) || app_ports(c.app_port).contains(
                spec,
            )) && !attribute_is(c, spec, "onAutoForward"@, "ignore"@) && published_for(
                c,
                spec,
            ) is Some ==> v.contains(NoteView::Info("  port: "@ + published_for(c, spec)->0))
        }),
{
    let v = merged_lines(c, scope);
    let env = container_values(c.container_env@, c.container_env@, scope);
    let remote = set_variables(c.remote_env@);
    let secrets = secret_entries(secret_specs(c), scope.host@);
    let forwarded = forward_texts(c.forward_ports@);
    let own = app_ports(c.app_port);
    let a = container_values_notes(c.container_env@, c.container_env@, scope);
    let b = secrets_notes(secret_specs(c), scope.host@);
    let at = a.len() as int + b.len() + 1;
    assert(v[at] == NoteView::Info(
        "  containerName: "@ + container_name_of(c, *scope.workspace),
    ));
    assert(v[at + 1] == NoteView::Info("  workspaceFolder: "@ + c.target()));
    let e = variable_lines("  containerEnv: "@, env);
    let r = variable_lines("  remoteEnv: "@, remote);
    let s = secret_lines(secrets);
    let p = published_lines(c, forwarded);
    let q = published_lines(c, own);
    let k = at + 2;
    assert forall|i: int| 0 <= i < env.len() implies v.contains(
        NoteView::Info("  containerEnv: "@ + (#[trigger] env[i]).0 + "="@ + env[i].1),
    ) by {
        assert(v[k + i] == e[i]);
    }
    assert forall|i: int| 0 <= i < remote.len() implies v.contains(
        NoteView::Info("  remoteEnv: "@ + (#[trigger] remote[i]).0 + "="@ + remote[i].1),
    ) by {
        assert(v[k + e.len() + i] == r[i]);
    }
    assert forall|i: int| 0 <= i < secrets.len() implies v.contains(
        NoteView::Info("  secret: "@ + (#[trigger] secrets[i]).0),
    ) by {
        assert(v[k + e.len() + r.len() + i] == s[i]);
    }
    if !attribute_is(c, spec, "onAutoForward"@, "ignore"@) && published_for(c, spec) is Some {
        let note = NoteView::Info("  port: "@ + published_for(c, spec)->0);
        if forwarded.contains(spec) {
            let i = lemma_published_line(c, forwarded, spec);
            assert(v[k + e.len() + r.len() + s.len() + i] == note);
        } else if own.contains(spec) {
            let i = lemma_published_line(c, own, spec);
            assert(v[k + e.len() + r.len() + s.len() + p.len() + i] == note);
        }
    }
}

proof fn lemma_published_line(c: DevContainerConfig, specs: Seq<Seq<char>>, spec: Seq<char>) -> (i: int)
    requires
        specs.contains(spec),
        !attribute_is(c, spec, "onAutoForward"@, "ignore"@),
        published_for(c, spec) is Some,
    ensures
        0 <= i < published_lines(c, specs).len(),
        published_lines(c, specs)[i] == NoteView::Info("  port: "@ + published_for(c, spec)->0),
    decreases specs.len(),
{
    let before = published_lines(c, specs.drop_last());
    if specs.last() == spec {
        before.len() as int
    } else {
        let k = choose|k: int| 0 <= k < specs.len() && specs[k] == spec;
        assert(specs.drop_last()[k] == spec);
        lemma_published_line(c, specs.drop_last(), spec)
    }
}

/// Every problem is told on a line of its own, in order.
pub proof fn law_problems_are_told(problems: Seq<Seq<char>>, i: int)
    requires
        0 <= i < problems.len(),
    ensures
        problem_notes(problems).len() == problems.len(),
        problem_notes(problems)[i] == NoteView::Warning("INVALID: "@ + problems[i]),
{
}

} // verus!
