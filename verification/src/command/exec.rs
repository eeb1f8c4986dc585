//! `bondar exec`: runs a command in the container.

use vstd::prelude::*;
use vstd::string::*;

use crate::compose::{compose_exec, compose_exec_plan};
use crate::config::{set_variables, DevContainerConfig};
use crate::docker::{
    container_env_map, container_values, container_values_notes, exec_in_container, exec_plan,
    exec_value, opt_map, Scope,
};
use crate::error::{failure, BondarError, ErrorView};
use crate::expand::{expand_container_env_from_map, expanded};
use crate::features::lemma_defaulted_all;
use crate::host::opt_env;
use crate::maps::{defaulted_all, has_key, lookup, EnvMap};
use crate::notes::{group_plans, no_notes, told, NoteView, Notes, Plan};
use crate::text::{opt_str, opt_text, same_text};
use crate::texts::Texts;

verus! {

/// What is given, unless it is empty.
pub open spec fn given(o: Option<Seq<char>>) -> Option<Seq<char>> {
    match o {
        Some(s) => if s.len() > 0 {
            Some(s)
        } else {
            None
        },
        None => None,
    }
}

/// The user that the configuration names for processes in the container.
pub open spec fn configured_user(c: DevContainerConfig) -> Option<Seq<char>> {
    match c.remote_user {
        Some(u) => Some(u@),
        None => opt_text(c.container_user),
    }
}

pub open spec fn user_of(requested: Option<Seq<char>>, c: DevContainerConfig) -> Option<Seq<char>> {
    match given(requested) {
        Some(u) => Some(u),
        None => configured_user(c),
    }
}

/// The user that a command runs as: the one asked for, unless that is empty, then the remote user,
/// then the container's.
pub fn exec_user(requested: Option<&str>, config: &DevContainerConfig) -> (res: Option<String>)
    ensures
        opt_text(res) == user_of(opt_str(requested), *config),
{
    if let Some(u) = requested {
        if u.unicode_len() > 0 {
            return Some(u.to_owned());
        }
    }
    match &config.remote_user {
        Some(u) => Some(u.clone()),
        None => match &config.container_user {
            Some(u) => Some(u.clone()),
            None => None,
        },
    }
}

pub open spec fn workdir_of(requested: Option<Seq<char>>, c: DevContainerConfig) -> Option<Seq<char>> {
    match given(requested) {
        Some(w) => Some(w),
        None => if c.docker_compose_file is Some {
            opt_text(c.workspace_folder)
        } else {
            Some(c.target())
        },
    }
}

/// The working directory of a command: the one asked for, unless that is empty, then the workspace
/// folder. A compose service keeps its own where the configuration names none.
pub fn exec_workdir(requested: Option<&str>, config: &DevContainerConfig) -> (res: Option<String>)
    ensures
        opt_text(res) == workdir_of(opt_str(requested), *config),
{
    if let Some(w) = requested {
        if w.unicode_len() > 0 {
            return Some(w.to_owned());
        }
    }
    if config.docker_compose_file.is_some() {
        match &config.workspace_folder {
            Some(f) => Some(f.clone()),
            None => None,
        }
    } else {
        Some(config.workspace_folder_or_default())
    }
}

pub open spec fn empty_option_note(o: Option<Seq<char>>, line: Seq<char>) -> Seq<NoteView> {
    match o {
        Some(s) => if s.len() == 0 {
            seq![NoteView::Warning(line)]
        } else {
            no_notes()
        },
        None => no_notes(),
    }
}

/// Warns of options that are empty.
pub fn check_options(user: Option<&str>, workdir: Option<&str>, notes: &mut Notes)
    ensures
        final(notes)@ == old(notes)@ + empty_option_note(
            opt_str(user),
            "Warning: --user is empty; ignoring it"@,
        ) + empty_option_note(
            opt_str(workdir),
            "Warning: --workdir is empty; ignoring it"@,
        ),
{
    let ghost start = notes@;
    if let Some(u) = user {
        if u.unicode_len() == 0 {
            notes.warn("Warning: --user is empty; ignoring it".to_owned());
        }
    }
    if let Some(w) = workdir {
        if w.unicode_len() == 0 {
            notes.warn("Warning: --workdir is empty; ignoring it".to_owned());
        }
    }
    assert(notes@ =~= start + empty_option_note(
        opt_str(user),
        "Warning: --user is empty; ignoring it"@,
    ) + empty_option_note(opt_str(workdir), "Warning: --workdir is empty; ignoring it"@));
}

// ---------------------------------------------------------------------------------------------
// The environment

/// The probe of the user's environment that a configuration asks for.
pub open spec fn probe_of(c: DevContainerConfig) -> Seq<char> {
    match c.user_env_probe {
        Some(p) => p@,
        None => "loginInteractiveShell"@,
    }
}

pub open spec fn known_probe(probe: Seq<char>) -> bool {
    probe == "none"@ || probe == "interactiveShell"@ || probe == "loginShell"@ || probe
        == "loginInteractiveShell"@
}

/// The probe that a configuration asks for: that of an interactive login shell by default.
pub fn effective_probe(config: &DevContainerConfig) -> (res: String)
    ensures
        res@ == probe_of(*config),
{
    match &config.user_env_probe {
        Some(p) => p.clone(),
        None => "loginInteractiveShell".to_owned(),
    }
}

pub fn is_known_probe(probe: &str) -> (res: bool)
    ensures
        res == known_probe(probe@),
{
    same_text(probe, "none") || same_text(probe, "interactiveShell") || same_text(
        probe,
        "loginShell",
    ) || same_text(probe, "loginInteractiveShell")
}

/// Whether the environment is probed.
pub open spec fn probes(c: DevContainerConfig) -> bool {
    known_probe(probe_of(c)) && probe_of(c) != "none"@
}

/// The probe to make, where one is to be made.
pub open spec fn probe_to_make(c: DevContainerConfig) -> Option<Seq<char>> {
    if probes(c) {
        Some(probe_of(c))
    } else {
        None
    }
}

pub fn wanted_probe(config: &DevContainerConfig) -> (res: Option<String>)
    ensures
        opt_text(res) == probe_to_make(*config),
{
    let probe = effective_probe(config);
    if is_known_probe(probe.as_str()) && !same_text(probe.as_str(), "none") {
        Some(probe)
    } else {
        None
    }
}

pub open spec fn nonempty(env: Seq<(Seq<char>, Seq<char>)>) -> Option<Seq<(Seq<char>, Seq<char>)>> {
    if env.len() == 0 {
        None
    } else {
        Some(env)
    }
}

/// The variables of a process in the container: those of the configuration, and behind them the
/// probed ones.
pub open spec fn merged_env(
    c: DevContainerConfig,
    probed: Option<Seq<(Seq<char>, Seq<char>)>>,
) -> Seq<(Seq<char>, Seq<char>)> {
    match probed {
        Some(m) => if probes(c) {
            defaulted_all(set_variables(c.remote_env@), m)
        } else {
            set_variables(c.remote_env@)
        },
        None => set_variables(c.remote_env@),
    }
}

pub open spec fn probe_notes(c: DevContainerConfig) -> Seq<NoteView> {
    if known_probe(probe_of(c)) {
        no_notes()
    } else {
        seq![NoteView::Warning("Warning: unknown userEnvProbe '"@ + probe_of(c) + "'"@)]
    }
}

/// Merges the probed variables behind those of `remoteEnv`; there is nothing where there are none.
/// A probe of an unknown kind is warned of, and nothing is taken from it.
pub fn merged_exec_env(config: &DevContainerConfig, probed: Option<&EnvMap>, notes: &mut Notes) -> (res:
    Option<EnvMap>)
    ensures
        opt_env(res) == nonempty(merged_env(*config, opt_map(probed))),
        final(notes)@ == old(notes)@ + probe_notes(*config),
{
    assert(notes@ + no_notes() =~= notes@);
    let mut merged = config.remote_env_resolved();
    let probe = effective_probe(config);
    if !is_known_probe(probe.as_str()) {
        notes.warn("Warning: unknown userEnvProbe '".to_owned().concat(probe.as_str()).concat("'"));
    } else if !same_text(probe.as_str(), "none") {
        if let Some(m) = probed {
            let ghost own = merged@;
            let mut i: usize = 0;
            assert(m@.take(0) =~= Seq::empty());
            while i < m.len()
                invariant
                    i <= m@.len(),
                    merged@ == defaulted_all(own, m@.take(i as int)),
                decreases m@.len() - i,
            {
                assert(m@.take(i + 1).drop_last() =~= m@.take(i as int));
                merged.insert_default(m.key(i), m.value(i));
                i = i + 1;
            }
            assert(m@.take(i as int) =~= m@);
        }
    }
    if merged.len() == 0 {
        None
    } else {
        Some(merged)
    }
}

pub open spec fn service_variables(
    c: DevContainerConfig,
    found: bool,
    probed: Option<Seq<(Seq<char>, Seq<char>)>>,
) -> Option<Seq<(Seq<char>, Seq<char>)>> {
    nonempty(
        if found {
            merged_env(c, probed)
        } else {
            set_variables(c.remote_env@)
        },
    )
}

/// The variables of a process in a compose service. Where the service's container is not found,
/// nothing is probed.
pub fn compose_exec_env(
    config: &DevContainerConfig,
    found: bool,
    probed: Option<&EnvMap>,
    notes: &mut Notes,
) -> (res: Option<EnvMap>)
    ensures
        opt_env(res) == service_variables(*config, found, opt_map(probed)),
        final(notes)@ == (if found {
            old(notes)@ + probe_notes(*config)
        } else {
            old(notes)@
        }),
{
    if found {
        merged_exec_env(config, probed, notes)
    } else {
        let own = config.remote_env_resolved();
        if own.len() == 0 {
            None
        } else {
            Some(own)
        }
    }
}

/// The variables of a process in the container, with their references replaced: those to the
/// container's own variables first, the others then.
pub open spec fn expanded_env(
    c: DevContainerConfig,
    env: Seq<(Seq<char>, Seq<char>)>,
    scope: Scope,
) -> Seq<(Seq<char>, Seq<char>)> {
    let own = container_values(c.container_env@, c.container_env@, scope);
    Seq::new(env.len(), |i: int| (env[i].0, scope.value(exec_value(env[i].1, Some(own)))))
}

pub open spec fn expanded_env_notes(
    env: Seq<(Seq<char>, Seq<char>)>,
    own: Seq<(Seq<char>, Seq<char>)>,
    scope: Scope,
) -> Seq<NoteView>
    decreases env.len(),
{
    if env.len() == 0 {
        Seq::empty()
    } else {
        expanded_env_notes(env.drop_last(), own, scope) + scope.notes(
            exec_value(env.last().1, Some(own)),
        )
    }
}

/// Replaces the references in the variables of lifecycle commands, as `bondar exec` does for the
/// commands that it runs.
pub fn expand_exec_env(
    config: &DevContainerConfig,
    env: &EnvMap,
    scope: &Scope,
    notes: &mut Notes,
) -> (res: EnvMap)
    ensures
        res@ == expanded_env(*config, env@, *scope),
        final(notes)@ == old(notes)@ + container_values_notes(
            config.container_env@,
            config.container_env@,
            *scope,
        ) + expanded_env_notes(
            env@,
            container_values(config.container_env@, config.container_env@, *scope),
            *scope,
        ),
{
    let own = container_env_map(&config.container_env, scope, notes);
    let ghost start = notes@;
    let ghost goal = expanded_env(*config, env@, *scope);
    let mut out = EnvMap::new();
    let mut i: usize = 0;
    assert(env@.take(0) =~= Seq::empty());
    assert(out@ =~= goal.take(0));
    assert(start + no_notes() =~= start);
    while i < env.len()
        invariant
            i <= env@.len(),
            own@ == container_values(config.container_env@, config.container_env@, *scope),
            goal == expanded_env(*config, env@, *scope),
            out@ == goal.take(i as int),
            notes@ == start + expanded_env_notes(env@.take(i as int), own@, *scope),
        decreases env@.len() - i,
    {
        assert(env@.take(i + 1).drop_last() =~= env@.take(i as int));
        let resolved = expand_container_env_from_map(env.value(i), &own, None);
        let value = scope.expand(resolved.as_str(), notes);
        let key = env.key(i).to_owned();
        out.entries.push((key, value));
        assert(out@ =~= goal.take(i as int).push((key@, value@)));
        assert(goal.take(i + 1) =~= goal.take(i as int).push(goal[i as int]));
        assert(notes@ =~= start + expanded_env_notes(env@.take(i + 1), own@, *scope));
        i = i + 1;
    }
    assert(env@.take(i as int) =~= env@);
    assert(goal.take(i as int) =~= goal);
    out
}

// ---------------------------------------------------------------------------------------------
// The command line

/// Puts together the command line: of `docker exec` for a container of its own, and what follows
/// the base of `docker compose exec` for a compose service. References to the workspace folder
/// inside the container stand for the configured one, also where another working directory is asked
/// for.
pub fn run(
    config: &DevContainerConfig,
    scope: &Scope,
    container: &str,
    tty: bool,
    user: Option<&str>,
    workdir: Option<&str>,
    env: Option<&EnvMap>,
    command: &Texts,
) -> (res: Result<Plan, BondarError>)
    ensures
        exec_result(
            *config,
            *scope,
            container@,
            tty,
            user_of(opt_str(user), *config),
            workdir_of(opt_str(workdir), *config),
            opt_map(env),
            command@,
            res,
        ),
{
    let exec_as = exec_user(user, config);
    let at = exec_workdir(workdir, config);
    run_as(config, scope, container, tty, as_str_option(&exec_as), as_str_option(&at), env, command)
}

pub(crate) fn as_str_option(o: &Option<String>) -> (res: Option<&str>)
    ensures
        opt_str(res) == opt_text(*o),
{
    match o {
        Some(s) => Some(s.as_str()),
        None => None,
    }
}

/// What comes of a command for a certain user in a certain directory.
pub open spec fn exec_result(
    c: DevContainerConfig,
    scope: Scope,
    container: Seq<char>,
    tty: bool,
    user: Option<Seq<char>>,
    workdir: Option<Seq<char>>,
    env: Option<Seq<(Seq<char>, Seq<char>)>>,
    command: Seq<Seq<char>>,
    res: Result<Plan, BondarError>,
) -> bool {
    if c.docker_compose_file is Some {
        match c.service {
            None => failure(res) == Some(
                ErrorView::Config(
                    "'service' must be specified in devcontainer.json when using dockerComposeFile"@,
                ),
            ),
            Some(service) => res matches Ok(plan) && plan@ == compose_exec_plan(
                c,
                scope,
                tty,
                user,
                workdir,
                env,
                service@,
                command,
            ),
        }
    } else {
        res matches Ok(plan) && plan@ == told(
            container_values_notes(c.container_env@, c.container_env@, scope),
        ).and(
            exec_plan(
                container,
                tty,
                user,
                workdir,
                command,
                env,
                Some(container_values(c.container_env@, c.container_env@, scope)),
                scope,
            ),
        )
    }
}

pub(crate) fn run_as(
    config: &DevContainerConfig,
    scope: &Scope,
    container: &str,
    tty: bool,
    user: Option<&str>,
    workdir: Option<&str>,
    env: Option<&EnvMap>,
    command: &Texts,
) -> (res: Result<Plan, BondarError>)
    ensures
        exec_result(
            *config,
            *scope,
            container@,
            tty,
            opt_str(user),
            opt_str(workdir),
            opt_map(env),
            command@,
            res,
        ),
{
    if config.docker_compose_file.is_some() {
        return compose_exec(config, scope, tty, user, workdir, env, command);
    }
    let mut plan = Plan::new();
    let values = container_env_map(&config.container_env, scope, &mut plan.notes);
    let ghost first = told(
        container_values_notes(config.container_env@, config.container_env@, *scope),
    );
    assert(plan@ =~= first);
    let rest = exec_in_container(container, tty, user, workdir, command, env, Some(&values), scope);
    plan.append(&rest);
    Ok(plan)
}

/// The configuration's own variables are never replaced by probed ones, and every probed variable
/// that it does not set is there.
pub proof fn law_own_variables_come_first(
    c: DevContainerConfig,
    probed: Seq<(Seq<char>, Seq<char>)>,
    name: Seq<char>,
)
    ensures
        has_key(set_variables(c.remote_env@), name) ==> lookup(merged_env(c, Some(probed)), name)
            == lookup(set_variables(c.remote_env@), name),
        probes(c) && has_key(probed, name) ==> has_key(merged_env(c, Some(probed)), name),
{
    lemma_defaulted_all(set_variables(c.remote_env@), probed, name);
}

/// The user that is asked for runs the command, and where none is, or an empty one, the remote user, or
/// else the container's. So it is with the directory: without one the workspace folder, which a compose
/// service has only where the configuration names it.
pub proof fn law_user_and_directory(c: DevContainerConfig, asked: Seq<char>)
    requires
        asked.len() > 0,
    ensures
        user_of(Some(asked), c) == Some(asked),
        user_of(Some(Seq::empty()), c) == user_of(None, c),
        c.remote_user matches Some(u) ==> user_of(None, c) == Some(u@),
        c.remote_user is None ==> user_of(None, c) == opt_text(c.container_user),
        configured_user(c) == user_of(None, c),
        workdir_of(Some(asked), c) == Some(asked),
        workdir_of(Some(Seq::empty()), c) == workdir_of(None, c),
        c.docker_compose_file is Some ==> workdir_of(None, c) == opt_text(c.workspace_folder),
        c.docker_compose_file is None ==> workdir_of(None, c) == Some(c.target()),
{
}

/// The user's environment is probed by an interactive login shell where the configuration says nothing,
/// by the shell that it names otherwise, and not at all where it says so or names none that is known.
pub proof fn law_probes(c: DevContainerConfig)
    ensures
        c.user_env_probe is None ==> probes(c) && probe_of(c) == "loginInteractiveShell"@,
        c.user_env_probe matches Some(p) ==> probe_of(c) == p@ && (probes(c) <==> p@
            == "interactiveShell"@ || p@ == "loginShell"@ || p@ == "loginInteractiveShell"@),
        probe_notes(c).len() == 0 <==> probes(c) || probe_of(c) == "none"@,
{
    reveal_strlit("none");
    reveal_strlit("interactiveShell");
    reveal_strlit("loginShell");
    reveal_strlit("loginInteractiveShell");
    assert("none"@.len() == 4 && "interactiveShell"@.len() == 16 && "loginShell"@.len() == 10);
    assert("loginInteractiveShell"@.len() == 21);
}

/// A variable that the configuration does not set has its probed value, if it was probed; nothing is
/// taken over where nothing is to be probed.
pub proof fn law_probed_variables_come_behind(
    c: DevContainerConfig,
    probed: Seq<(Seq<char>, Seq<char>)>,
    name: Seq<char>,
)
    ensures
        probes(c) && !has_key(set_variables(c.remote_env@), name) ==> lookup(
            merged_env(c, Some(probed)),
            name,
        ) == lookup(probed, name),
        !probes(c) ==> merged_env(c, Some(probed)) == set_variables(c.remote_env@),
        merged_env(c, None) == set_variables(c.remote_env@),
{
    lemma_defaulted_all(set_variables(c.remote_env@), probed, name);
}

/// Replacing the references in variables keeps the variables and their order; the value of each depends
/// on nothing but its own text, the variables of the container and the scope.
pub proof fn law_variables_are_expanded_one_by_one(
    c: DevContainerConfig,
    env: Seq<(Seq<char>, Seq<char>)>,
    scope: Scope,
    i: int,
)
    requires
        0 <= i < env.len(),
    ensures
        ({
            let own = container_values(c.container_env@, c.container_env@, scope);
            let all = expanded_env(c, env, scope);
            &&& all.len() == env.len()
            &&& all[i].0 == env[i].0
            &&& all[i].1 == expanded(
                exec_value(env[i].1, Some(own)),
                *scope.workspace,
                scope.target@,
                scope.host@,
            )
            &&& all[i] == expanded_env(c, seq![env[i]], scope)[0]
        }),
{
}

/// An option is warned about if and only if it is given and empty.
pub proof fn law_empty_options(o: Option<Seq<char>>, line: Seq<char>)
    ensures
        empty_option_note(o, line).len() == 0 <==> (o matches Some(s) ==> s.len() > 0),
        empty_option_note(Some(Seq::empty()), line) == seq![NoteView::Warning(line)],
{
}

/// A command goes to the service of a compose project, which has to be named, and to the container
/// otherwise, which never fails.
pub proof fn law_where_commands_go(
    c: DevContainerConfig,
    scope: Scope,
    container: Seq<char>,
    tty: bool,
    user: Option<Seq<char>>,
    workdir: Option<Seq<char>>,
    env: Option<Seq<(Seq<char>, Seq<char>)>>,
    command: Seq<Seq<char>>,
    res: Result<Plan, BondarError>,
)
    requires
        exec_result(c, scope, container, tty, user, workdir, env, command, res),
    ensures
        res is Err <==> c.docker_compose_file is Some && c.service is None,
        res matches Ok(plan) ==> {
            if c.docker_compose_file is Some {
                plan@ == compose_exec_plan(c, scope, tty, user, workdir, env, c.service->0@, command)
            } else {
                plan@.args == exec_plan(
                    container,
                    tty,
                    user,
                    workdir,
                    command,
                    env,
                    Some(container_values(c.container_env@, c.container_env@, scope)),
                    scope,
                ).args
            }
        },
{
    broadcast use group_plans;

}

/// Variables are handed over if and only if there are any.
pub proof fn law_variables_if_any(env: Seq<(Seq<char>, Seq<char>)>)
    ensures
        nonempty(env) is None <==> env.len() == 0,
        nonempty(env) matches Some(e) ==> e == env,
{
}

/// A probe is made if and only if the configuration asks for one that is known, and the variables of a
/// service are those of its container, or the configured ones alone where it has none.
pub proof fn law_service_variables(
    c: DevContainerConfig,
    probed: Option<Seq<(Seq<char>, Seq<char>)>>,
)
    ensures
        probe_to_make(c) is Some <==> (probe_of(c) == "interactiveShell"@ || probe_of(c)
            == "loginShell"@ || probe_of(c) == "loginInteractiveShell"@),
        probe_to_make(c) matches Some(p) ==> p == probe_of(c),
        set_variables(c.remote_env@).len() > 0 ==> service_variables(c, false, probed) == Some(
            set_variables(c.remote_env@),
        ),
        set_variables(c.remote_env@).len() == 0 ==> service_variables(c, false, probed) is None,
        merged_env(c, probed).len() > 0 ==> service_variables(c, true, probed) == Some(
            merged_env(c, probed),
        ),
        merged_env(c, probed).len() == 0 ==> service_variables(c, true, probed) is None,
{
    reveal_strlit("none");
    reveal_strlit("interactiveShell");
    reveal_strlit("loginShell");
    reveal_strlit("loginInteractiveShell");
    assert("none"@.len() == 4 && "interactiveShell"@.len() == 16 && "loginShell"@.len() == 10);
    assert("loginInteractiveShell"@.len() == 21);
}

} // verus!
