//! Command lines of the Docker CLI, and what its answers mean.

use vstd::prelude::*;
use vstd::string::*;

use crate::config::{
    BuildConfig, CacheFromValue, DevContainerConfig, MountObject, MountValue,
};
use crate::error::{failure, BondarError, ErrorView};
use crate::expand::{
    devcontainer_id_for, env_resolved, expand_container_env_from_map,
    expand_vars_for_host_with_target, expanded, expansion_notes, map_resolved,
    resolve_container_env_value, workspace_id, Workspace,
};
use crate::json::{json_text, members, group_json, Json, JsonView};
use crate::maps::{
    distinct_keys, entries_view, has_key, inserted, key_index, lemma_inserted_distinct,
    lemma_inserted_lookup, lemma_key_index, lookup, EnvMap,
};
use crate::notes::{
    each, group_plans, has_pair, info, lemma_and_assoc, lemma_and_nothing, lemma_each_len,
    lemma_each_next, lemma_each_pair, lemma_each_start, lemma_each_word, lemma_note_and,
    lemma_nothing_and, lemma_tail, no_notes, nothing, opt_flag, option, pair_at, switch, told,
    warning, word, NoteView, Notes, Plan, PlanView,
};
use crate::ports::{
    app_port_texts, app_ports, attribute_is, forward_port_texts, forward_texts, is_port_ignored,
    publish_for, published_for, to_publish,
};
use crate::text::{
    all_white, begins_with, chars_of, has_char, is_ascii_alnum, is_digit, is_white_space,
    law_pieces, law_trimmed, lemma_some_piece, opt_str, opt_text, pieces, same_text, split,
    starts_with, text_of, trim, trimmed,
};
use crate::texts::{texts, Texts};

verus! {

/// Where values are expanded: the workspace, its folder in the container, and the host's
/// environment.
pub struct Scope<'a> {
    pub workspace: &'a Workspace,
    pub target: &'a str,
    pub host: &'a EnvMap,
}

impl<'a> Scope<'a> {
    pub open spec fn value(&self, s: Seq<char>) -> Seq<char> {
        expanded(s, *self.workspace, self.target@, self.host@)
    }

    pub open spec fn notes(&self, s: Seq<char>) -> Seq<NoteView> {
        expansion_notes(s, *self.workspace, self.target@, self.host@)
    }

    pub fn expand(&self, s: &str, notes: &mut Notes) -> (res: String)
        ensures
            res@ == self.value(s@),
            final(notes)@ == old(notes)@ + self.notes(s@),
    {
        expand_vars_for_host_with_target(s, self.workspace, self.target, self.host, notes)
    }
}

/// An argument given by a value that is expanded.
pub open spec fn expanded_word(scope: Scope, s: Seq<char>) -> PlanView {
    PlanView { args: seq![scope.value(s)], notes: scope.notes(s) }
}

/// A flag whose value is expanded.
pub open spec fn expanded_option(scope: Scope, flag: Seq<char>, s: Seq<char>) -> PlanView {
    PlanView { args: seq![flag, scope.value(s)], notes: scope.notes(s) }
}

/// A flag with `key=value`, whose value is expanded.
pub open spec fn expanded_pair(scope: Scope, flag: Seq<char>, key: Seq<char>, s: Seq<char>) -> PlanView {
    PlanView { args: seq![flag, key + "="@ + scope.value(s)], notes: scope.notes(s) }
}

fn push_expanded(plan: &mut Plan, scope: &Scope, s: &str)
    ensures
        final(plan)@ == old(plan)@.and(expanded_word(*scope, s@)),
{
    let value = scope.expand(s, &mut plan.notes);
    plan.args.push(value);
    assert(plan@ =~= old(plan)@.and(expanded_word(*scope, s@)));
}

fn flag_expanded(plan: &mut Plan, scope: &Scope, flag: &str, s: &str)
    ensures
        final(plan)@ == old(plan)@.and(expanded_option(*scope, flag@, s@)),
{
    let value = scope.expand(s, &mut plan.notes);
    plan.args.arg(flag);
    plan.args.push(value);
    assert(plan@ =~= old(plan)@.and(expanded_option(*scope, flag@, s@)));
}

fn pair_expanded(plan: &mut Plan, scope: &Scope, flag: &str, key: &str, s: &str)
    ensures
        final(plan)@ == old(plan)@.and(expanded_pair(*scope, flag@, key@, s@)),
{
    let value = scope.expand(s, &mut plan.notes);
    plan.args.arg(flag);
    plan.args.push(key.to_owned().concat("=").concat(value.as_str()));
    assert(plan@ =~= old(plan)@.and(expanded_pair(*scope, flag@, key@, s@)));
}

/// Gives every value of a list, expanded, as an argument.
pub open spec fn expanded_words(scope: Scope, items: Seq<Seq<char>>) -> PlanView {
    each(items, |s: Seq<char>| expanded_word(scope, s))
}

fn push_expanded_each(plan: &mut Plan, scope: &Scope, values: &Vec<String>)
    ensures
        final(plan)@ == old(plan)@.and(expanded_words(*scope, texts(values@))),
{
    let ghost f = |s: Seq<char>| expanded_word(*scope, s);
    let ghost items = texts(values@);
    let mut i: usize = 0;
    proof {
        lemma_each_start(items, f);
        lemma_and_nothing(plan@);
    }
    while i < values.len()
        invariant
            items == texts(values@),
            f == (|s: Seq<char>| expanded_word(*scope, s)),
            i <= values@.len(),
            plan@ == old(plan)@.and(each(items.take(i as int), f)),
        decreases values@.len() - i,
    {
        push_expanded(plan, scope, values[i].as_str());
        proof {
            lemma_each_next(items, f, i as int);
            lemma_and_assoc(old(plan)@, each(items.take(i as int), f), f(items[i as int]));
        }
        i = i + 1;
    }
    proof {
        lemma_each_start(items, f);
    }
}

pub open spec fn expanded_options(scope: Scope, flag: Seq<char>, items: Seq<Seq<char>>) -> PlanView {
    each(items, |s: Seq<char>| expanded_option(scope, flag, s))
}

fn flag_expanded_each(plan: &mut Plan, scope: &Scope, flag: &str, values: &Vec<String>)
    ensures
        final(plan)@ == old(plan)@.and(expanded_options(*scope, flag@, texts(values@))),
{
    let ghost f = |s: Seq<char>| expanded_option(*scope, flag@, s);
    let ghost items = texts(values@);
    let mut i: usize = 0;
    proof {
        lemma_each_start(items, f);
        lemma_and_nothing(plan@);
    }
    while i < values.len()
        invariant
            items == texts(values@),
            f == (|s: Seq<char>| expanded_option(*scope, flag@, s)),
            i <= values@.len(),
            plan@ == old(plan)@.and(each(items.take(i as int), f)),
        decreases values@.len() - i,
    {
        flag_expanded(plan, scope, flag, values[i].as_str());
        proof {
            lemma_each_next(items, f, i as int);
            lemma_and_assoc(old(plan)@, each(items.take(i as int), f), f(items[i as int]));
        }
        i = i + 1;
    }
    proof {
        lemma_each_start(items, f);
    }
}

// ---------------------------------------------------------------------------------------------
// Building an image

/// The Dockerfile of a build, expanded, relative to the directory of the configuration file.
pub open spec fn dockerfile_of(build: BuildConfig) -> Seq<char> {
    match build.dockerfile {
        Some(s) => s@,
        None => "Dockerfile"@,
    }
}

pub fn build_dockerfile(build: &BuildConfig, scope: &Scope, notes: &mut Notes) -> (res: String)
    ensures
        res@ == scope.value(dockerfile_of(*build)),
        final(notes)@ == old(notes)@ + scope.notes(dockerfile_of(*build)),
{
    match &build.dockerfile {
        Some(s) => scope.expand(s.as_str(), notes),
        None => scope.expand("Dockerfile", notes),
    }
}

/// The build context, expanded, relative to the directory of the configuration file; without one
/// that directory itself is the context.
pub open spec fn context_of(build: BuildConfig, scope: Scope) -> Option<Seq<char>> {
    match build.context {
        Some(s) => Some(scope.value(s@)),
        None => None,
    }
}

pub fn build_context(build: &BuildConfig, scope: &Scope, notes: &mut Notes) -> (res: Option<String>)
    ensures
        opt_text(res) == context_of(*build, *scope),
        final(notes)@ == old(notes)@ + (match build.context {
            Some(s) => scope.notes(s@),
            None => no_notes(),
        }),
{
    match &build.context {
        Some(s) => Some(scope.expand(s.as_str(), notes)),
        None => {
            assert(notes@ + no_notes() =~= notes@);
            None
        },
    }
}

pub open spec fn cache_sources(c: Option<CacheFromValue>) -> Seq<Seq<char>> {
    match c {
        None => Seq::empty(),
        Some(CacheFromValue::Single(s)) => seq![s@],
        Some(CacheFromValue::Multiple(v)) => texts(v@),
    }
}

/// The build arguments, one flag for each.
pub open spec fn pairs_plan(scope: Scope, flag: Seq<char>, m: Seq<(Seq<char>, Seq<char>)>) -> PlanView {
    each(m, |e: (Seq<char>, Seq<char>)| expanded_pair(scope, flag, e.0, e.1))
}

fn pairs_expanded_each(plan: &mut Plan, scope: &Scope, flag: &str, map: &EnvMap)
    ensures
        final(plan)@ == old(plan)@.and(pairs_plan(*scope, flag@, map@)),
{
    let ghost f = |e: (Seq<char>, Seq<char>)| expanded_pair(*scope, flag@, e.0, e.1);
    let mut i: usize = 0;
    proof {
        lemma_each_start(map@, f);
        lemma_and_nothing(plan@);
    }
    while i < map.len()
        invariant
            f == (|e: (Seq<char>, Seq<char>)| expanded_pair(*scope, flag@, e.0, e.1)),
            i <= map@.len(),
            plan@ == old(plan)@.and(each(map@.take(i as int), f)),
        decreases map@.len() - i,
    {
        pair_expanded(plan, scope, flag, map.key(i), map.value(i));
        proof {
            lemma_each_next(map@, f, i as int);
            lemma_and_assoc(old(plan)@, each(map@.take(i as int), f), f(map@[i as int]));
        }
        i = i + 1;
    }
    proof {
        lemma_each_start(map@, f);
    }
}

fn push_opt_flag(plan: &mut Plan, flag: &str, value: &Option<String>)
    ensures
        final(plan)@ == old(plan)@.and(opt_flag(flag@, opt_text(*value))),
{
    match value {
        Some(v) => plan.opt_flag(flag, Some(v.as_str())),
        None => plan.opt_flag(flag, None),
    }
}

/// The command line of `docker build`.
pub open spec fn build_plan(
    build: BuildConfig,
    scope: Scope,
    dockerfile: Seq<char>,
    context: Seq<char>,
    image: Seq<char>,
    no_cache: bool,
) -> PlanView {
    nothing().and(word("build"@)).and(option("-f"@, dockerfile)).and(option("-t"@, image)).and(
        pairs_plan(scope, "--build-arg"@, build.args@),
    ).and(opt_flag("--target"@, opt_text(build.target))).and(
        expanded_words(scope, texts(build.options@)),
    ).and(expanded_options(scope, "--cache-from"@, cache_sources(build.cache_from))).and(
        switch(no_cache, "--no-cache"@),
    ).and(word(context)).and(info("Building image "@ + image + "..."@)).and(
        info("  Dockerfile: "@ + dockerfile),
    ).and(info("  Context: "@ + context))
}

/// Puts together `docker build`: `dockerfile` and `context` are the resolved paths.
pub fn build_image(
    build: &BuildConfig,
    scope: &Scope,
    dockerfile: &str,
    context: &str,
    image_name: &str,
    no_cache: bool,
) -> (res: Plan)
    ensures
        res@ == build_plan(*build, *scope, dockerfile@, context@, image_name@, no_cache),
{
    let mut plan = Plan::new();
    plan.arg("build");
    plan.flag("-f", dockerfile.to_owned());
    plan.flag("-t", image_name.to_owned());
    pairs_expanded_each(&mut plan, scope, "--build-arg", &build.args);
    push_opt_flag(&mut plan, "--target", &build.target);
    push_expanded_each(&mut plan, scope, &build.options);
    let ghost before = plan@;
    match &build.cache_from {
        None => {
            proof {
                lemma_and_nothing(plan@);
            }
        },
        Some(CacheFromValue::Single(s)) => {
            flag_expanded(&mut plan, scope, "--cache-from", s.as_str());
            proof {
                let f = |s: Seq<char>| expanded_option(*scope, "--cache-from"@, s);
                let items = seq![s@];
                lemma_each_next(items, f, 0);
                lemma_each_start(items, f);
                assert(nothing().and(f(s@)) =~= f(s@));
            }
        },
        Some(CacheFromValue::Multiple(v)) => {
            flag_expanded_each(&mut plan, scope, "--cache-from", v);
        },
    }
    assert(plan@ == before.and(
        expanded_options(*scope, "--cache-from"@, cache_sources(build.cache_from)),
    ));
    plan.switch(no_cache, "--no-cache");
    plan.arg(context);
    plan.info("Building image ".to_owned().concat(image_name).concat("..."));
    plan.info("  Dockerfile: ".to_owned().concat(dockerfile));
    plan.info("  Context: ".to_owned().concat(context));
    plan
}

/// The text in lower case with a dash in place of everything but ASCII letters and digits.
pub open spec fn image_slug(s: Seq<char>) -> Seq<char> {
    Seq::new(s.len(), |i: int| slug_char(s[i]))
}

pub open spec fn slug_char(c: char) -> char {
    if !is_ascii_alnum(c) {
        '-'
    } else if 'A' <= c <= 'Z' {
        ((c as int) + 32) as char
    } else {
        c
    }
}

fn slug_of_char(c: char) -> (res: char)
    ensures
        res == slug_char(c),
{
    if 'A' <= c && c <= 'Z' {
        let lower: u8 = (c as u8) + 32;
        lower as char
    } else if ('a' <= c && c <= 'z') || ('0' <= c && c <= '9') {
        c
    } else {
        '-'
    }
}

fn slug(s: &str) -> (res: String)
    ensures
        res@ == image_slug(s@),
{
    let v = chars_of(s);
    let mut out = String::new();
    let mut i: usize = 0;
    while i < v.len()
        invariant
            v@ == s@,
            i <= v@.len(),
            out@ == image_slug(s@).take(i as int),
        decreases v@.len() - i,
    {
        out.push(slug_of_char(v[i]));
        assert(image_slug(s@).take(i + 1) =~= image_slug(s@).take(i as int).push(
            image_slug(s@)[i as int],
        ));
        i = i + 1;
    }
    assert(image_slug(s@).take(i as int) =~= image_slug(s@));
    out
}

/// The name of the image: for a build one made from the configured name or the name of the
/// workspace folder, otherwise the configured image.
pub open spec fn image_name_of(c: DevContainerConfig, workspace: Workspace) -> Option<Seq<char>> {
    if c.build is Some {
        let base = image_slug(
            match c.name {
                Some(name) => name@,
                None => match workspace.basename {
                    Some(b) => b@,
                    None => "workspace"@,
                },
            },
        );
        Some(
            "bondar-"@ + (if base.len() == 0 {
                "workspace"@
            } else {
                base
            }),
        )
    } else {
        opt_text(c.image)
    }
}

pub fn resolve_image_name(config: &DevContainerConfig, workspace: &Workspace) -> (res: Result<
    String,
    BondarError,
>)
    ensures
        match image_name_of(*config, *workspace) {
            Some(name) => res matches Ok(s) && s@ == name,
            None => failure(res) == Some(ErrorView::Config("No image or build specified"@)),
        },
{
    if config.build.is_some() {
        let base = match &config.name {
            Some(name) => slug(name.as_str()),
            None => match &workspace.basename {
                Some(b) => slug(b.as_str()),
                None => slug("workspace"),
            },
        };
        let suffix = if base.as_str().unicode_len() == 0 {
            "workspace".to_owned()
        } else {
            base
        };
        Ok("bondar-".to_owned().concat(suffix.as_str()))
    } else {
        match &config.image {
            Some(image) => Ok(image.clone()),
            None => Err(BondarError::Config("No image or build specified".to_owned())),
        }
    }
}

// ---------------------------------------------------------------------------------------------
// Secrets

/// The host variable that a secret names: its `localEnv` where that is a string, its own name where
/// there is none or it is something else. Only objects name a variable.
pub open spec fn secret_variable(key: Seq<char>, spec: JsonView) -> Option<Seq<char>> {
    match spec {
        JsonView::Object(m) => match lookup(m, "localEnv"@) {
            Some(JsonView::String(s)) => Some(s),
            _ => Some(key),
        },
        _ => None,
    }
}

pub open spec fn secret_value(
    key: Seq<char>,
    spec: JsonView,
    host: Seq<(Seq<char>, Seq<char>)>,
) -> Option<Seq<char>> {
    match secret_variable(key, spec) {
        Some(name) => lookup(host, name),
        None => None,
    }
}

pub open spec fn secret_notes(
    key: Seq<char>,
    spec: JsonView,
    host: Seq<(Seq<char>, Seq<char>)>,
) -> Seq<NoteView> {
    match spec {
        JsonView::Object(m) => (match lookup(m, "localEnv"@) {
            Some(JsonView::String(s)) => no_notes(),
            Some(v) => seq![NoteView::Warning(
                "Warning: secret '"@ + key + "' localEnv must be a string, got "@ + json_text(v)
                    + "; using the secret name as the variable name"@,
            )],
            None => no_notes(),
        }) + (if secret_value(key, spec, host) is None {
            seq![NoteView::Warning(
                "Warning: secret '"@ + key + "' references unset localEnv variable '"@
                    + secret_variable(key, spec)->0 + "'"@,
            )]
        } else {
            no_notes()
        }),
        JsonView::String(path) => seq![NoteView::Warning(
            "Warning: secret '"@ + key + "' uses the file path form '"@ + path
                + "' which is not supported; use {\"localEnv\": \"VAR\"} instead"@,
        )],
        _ => seq![NoteView::Warning(
            "Warning: secret '"@ + key + "' has unsupported format: "@ + json_text(spec),
        )],
    }
}

/// The secrets that have a value, in order.
pub open spec fn secret_entries(
    secrets: Seq<(Seq<char>, JsonView)>,
    host: Seq<(Seq<char>, Seq<char>)>,
) -> Seq<(Seq<char>, Seq<char>)>
    decreases secrets.len(),
{
    if secrets.len() == 0 {
        Seq::empty()
    } else {
        let before = secret_entries(secrets.drop_last(), host);
        match secret_value(secrets.last().0, secrets.last().1, host) {
            Some(v) => before.push((secrets.last().0, v)),
            None => before,
        }
    }
}

pub open spec fn secrets_notes(
    secrets: Seq<(Seq<char>, JsonView)>,
    host: Seq<(Seq<char>, Seq<char>)>,
) -> Seq<NoteView>
    decreases secrets.len(),
{
    if secrets.len() == 0 {
        Seq::empty()
    } else {
        secrets_notes(secrets.drop_last(), host) + secret_notes(
            secrets.last().0,
            secrets.last().1,
            host,
        )
    }
}

pub open spec fn secret_specs(c: DevContainerConfig) -> Seq<(Seq<char>, JsonView)> {
    match c.secrets {
        Some(v) => members(v@),
        None => Seq::empty(),
    }
}

fn resolve_secret(key: &str, spec: &Json, host: &EnvMap, notes: &mut Notes) -> (res: Option<String>)
    ensures
        opt_text(res) == secret_value(key@, spec@, host@),
        final(notes)@ == old(notes)@ + secret_notes(key@, spec@, host@),
{
    broadcast use group_json;

    match spec {
        Json::Object(_) => {
            let name = match spec.get("localEnv") {
                Some(v) => match v {
                    Json::String(s) => s.clone(),
                    _ => {
                        let got = v.text();
                        notes.warn(
                            "Warning: secret '".to_owned().concat(key).concat(
                                "' localEnv must be a string, got ",
                            ).concat(got.as_str()).concat(
                                "; using the secret name as the variable name",
                            ),
                        );
                        key.to_owned()
                    },
                },
                None => key.to_owned(),
            };
            assert(secret_variable(key@, spec@) == Some(name@));
            match host.get(name.as_str()) {
                Some(value) => {
                    assert(notes@ =~= old(notes)@ + secret_notes(key@, spec@, host@));
                    Some(value.to_owned())
                },
                None => {
                    notes.warn(
                        "Warning: secret '".to_owned().concat(key).concat(
                            "' references unset localEnv variable '",
                        ).concat(name.as_str()).concat("'"),
                    );
                    assert(notes@ =~= old(notes)@ + secret_notes(key@, spec@, host@));
                    None
                },
            }
        },
        Json::String(path) => {
            notes.warn(
                "Warning: secret '".to_owned().concat(key).concat(
                    "' uses the file path form '",
                ).concat(path.as_str()).concat(
                    "' which is not supported; use {\"localEnv\": \"VAR\"} instead",
                ),
            );
            assert(notes@ =~= old(notes)@ + secret_notes(key@, spec@, host@));
            None
        },
        other => {
            let text = other.text();
            notes.warn(
                "Warning: secret '".to_owned().concat(key).concat(
                    "' has unsupported format: ",
                ).concat(text.as_str()),
            );
            assert(notes@ =~= old(notes)@ + secret_notes(key@, spec@, host@));
            None
        },
    }
}

/// Resolves the secrets of a configuration from the host's environment. A secret in another form,
/// or one whose variable is not set, is left out with a warning.
pub fn resolve_secrets(config: &DevContainerConfig, host: &EnvMap, notes: &mut Notes) -> (res: Vec<
    (String, String),
>)
    ensures
        entries_view(res@) == secret_entries(secret_specs(*config), host@),
        final(notes)@ == old(notes)@ + secrets_notes(secret_specs(*config), host@),
{
    let mut out: Vec<(String, String)> = Vec::new();
    let ghost specs = secret_specs(*config);
    assert(notes@ + no_notes() =~= notes@);
    assert(entries_view(out@) =~= Seq::empty());
    match &config.secrets {
        None => out,
        Some(v) => {
            let mut i: usize = 0;
            assert(specs.take(0) =~= Seq::empty());
            while i < v.len()
                invariant
                    i <= v@.len(),
                    specs == members(v@),
                    entries_view(out@) == secret_entries(specs.take(i as int), host@),
                    notes@ == old(notes)@ + secrets_notes(specs.take(i as int), host@),
                decreases v@.len() - i,
            {
                let ghost before = out@;
                let ghost done = specs.take(i as int);
                assert(specs.take(i + 1).drop_last() =~= done);
                match resolve_secret(v[i].0.as_str(), &v[i].1, host, notes) {
                    Some(value) => {
                        let key = v[i].0.clone();
                        out.push((key, value));
                        assert(entries_view(out@) =~= entries_view(before).push((key@, value@)));
                    },
                    None => {},
                }
                assert(notes@ =~= old(notes)@ + secrets_notes(specs.take(i + 1), host@));
                i = i + 1;
            }
            assert(specs.take(i as int) =~= specs);
            out
        },
    }
}

// ---------------------------------------------------------------------------------------------
// Creating a container

/// What becomes of a container that may exist already.
#[derive(Debug, Clone, Copy, PartialEq, Eq, Structural)]
pub enum StartAction {
    /// There is none: create it.
    Create,
    /// Remove the existing one and create it anew.
    Recreate,
    /// It is running: leave it.
    Keep,
    /// It is stopped: start it.
    Start,
}

pub open spec fn start_of(exists: bool, running: bool, remove_existing: bool) -> StartAction {
    if !exists {
        StartAction::Create
    } else if remove_existing {
        StartAction::Recreate
    } else if running {
        StartAction::Keep
    } else {
        StartAction::Start
    }
}

pub fn start_action(exists: bool, running: bool, remove_existing: bool) -> (res: StartAction)
    ensures
        res == start_of(exists, running, remove_existing),
{
    if !exists {
        StartAction::Create
    } else if remove_existing {
        StartAction::Recreate
    } else if running {
        StartAction::Keep
    } else {
        StartAction::Start
    }
}

/// The line that announces what becomes of an existing container.
pub open spec fn start_line(action: StartAction, container: Seq<char>) -> Option<Seq<char>> {
    match action {
        StartAction::Create => None,
        StartAction::Recreate => Some("Removing existing container "@ + container + "..."@),
        StartAction::Keep => Some("Container "@ + container + " is already running"@),
        StartAction::Start => Some("Starting existing container "@ + container + "..."@),
    }
}

pub fn start_message(action: StartAction, container: &str) -> (res: Option<String>)
    ensures
        opt_text(res) == start_line(action, container@),
{
    match action {
        StartAction::Create => None,
        StartAction::Recreate => Some(
            "Removing existing container ".to_owned().concat(container).concat("..."),
        ),
        StartAction::Keep => Some(
            "Container ".to_owned().concat(container).concat(" is already running"),
        ),
        StartAction::Start => Some(
            "Starting existing container ".to_owned().concat(container).concat("..."),
        ),
    }
}

pub open spec fn warning_if(on: bool, line: Seq<char>) -> PlanView {
    if on {
        warning(line)
    } else {
        nothing()
    }
}

fn warn_if(plan: &mut Plan, on: bool, line: &str)
    ensures
        final(plan)@ == old(plan)@.and(warning_if(on, line@)),
{
    proof {
        lemma_and_nothing(plan@);
    }
    if on {
        plan.warn(line.to_owned());
    }
}

/// The parts of `--mount` for a mount given as an object.
pub open spec fn mount_parts(m: MountObject, scope: Scope) -> Seq<Seq<char>> {
    (match m.mount_type {
        Some(t) => seq!["type="@ + t@],
        None => Seq::empty(),
    }) + (match m.source {
        Some(s) => seq!["source="@ + scope.value(s@)],
        None => Seq::empty(),
    }) + (match m.target {
        Some(t) => seq!["target="@ + scope.value(t@)],
        None => Seq::empty(),
    }) + (if m.readonly == Some(true) {
        seq!["readonly"@]
    } else {
        Seq::empty()
    })
}

pub open spec fn mount_notes(m: MountObject, scope: Scope) -> Seq<NoteView> {
    (match m.source {
        Some(s) => scope.notes(s@),
        None => no_notes(),
    }) + (match m.target {
        Some(t) => scope.notes(t@),
        None => no_notes(),
    })
}

/// The texts with a separator in between.
pub open spec fn joined(v: Seq<Seq<char>>, by: Seq<char>) -> Seq<char>
    decreases v.len(),
{
    if v.len() == 0 {
        Seq::empty()
    } else if v.len() == 1 {
        v[0]
    } else {
        joined(v.drop_last(), by) + by + v.last()
    }
}

pub fn join(v: &Texts, by: &str) -> (res: String)
    ensures
        res@ == joined(v@, by@),
{
    let mut out = String::new();
    let mut i: usize = 0;
    assert(v@.take(0) =~= Seq::empty());
    assert(out@ =~= Seq::empty());
    while i < v.len()
        invariant
            i <= v@.len(),
            out@ == joined(v@.take(i as int), by@),
        decreases v@.len() - i,
    {
        assert(v@.take(i + 1).drop_last() =~= v@.take(i as int));
        if i > 0 {
            out.append(by);
        }
        out.append(v.get(i));
        assert(out@ =~= joined(v@.take(i + 1), by@));
        i = i + 1;
    }
    assert(v@.take(i as int) =~= v@);
    out
}

/// One additional mount.
pub open spec fn mount_plan(m: MountValue, scope: Scope) -> PlanView {
    match m {
        MountValue::String(s) => expanded_option(scope, "--mount"@, s@),
        MountValue::Object(o) => warning_if(
            o.target matches Some(t) && t@ == scope.target@,
            "Warning: mount target '"@ + scope.target@
                + "' duplicates the workspace mount; docker may reject it"@,
        ).and(told(mount_notes(o, scope))).and(
            if mount_parts(o, scope).len() > 0 {
                option("--mount"@, joined(mount_parts(o, scope), ","@))
            } else {
                nothing()
            },
        ),
    }
}

fn add_object_mount(plan: &mut Plan, scope: &Scope, o: &MountObject)
    ensures
        final(plan)@ == old(plan)@.and(mount_plan(MountValue::Object(*o), *scope)),
{
    let duplicate: bool = match &o.target {
        Some(t) => same_text(t.as_str(), scope.target),
        None => false,
    };
    let line = "Warning: mount target '".to_owned().concat(scope.target).concat(
        "' duplicates the workspace mount; docker may reject it",
    );
    warn_if(plan, duplicate, line.as_str());
    let ghost warned = plan@;
    let mut parts = Texts::new();
    if let Some(t) = &o.mount_type {
        parts.push("type=".to_owned().concat(t.as_str()));
    }
    if let Some(s) = &o.source {
        let value = scope.expand(s.as_str(), &mut plan.notes);
        parts.push("source=".to_owned().concat(value.as_str()));
    }
    if let Some(t) = &o.target {
        let value = scope.expand(t.as_str(), &mut plan.notes);
        parts.push("target=".to_owned().concat(value.as_str()));
    }
    if let Some(true) = o.readonly {
        parts.arg("readonly");
    }
    assert(parts@ =~= mount_parts(*o, *scope));
    assert(plan@ =~= warned.and(told(mount_notes(*o, *scope))));
    let ghost noted = plan@;
    proof {
        lemma_and_nothing(plan@);
    }
    if parts.len() > 0 {
        plan.flag("--mount", join(&parts, ","));
    }
    proof {
        let a = warning_if(duplicate, line@);
        let b = told(mount_notes(*o, *scope));
        lemma_and_assoc(old(plan)@, a, b);
        lemma_and_assoc(
            old(plan)@,
            a.and(b),
            if parts@.len() > 0 {
                option("--mount"@, joined(parts@, ","@))
            } else {
                nothing()
            },
        );
    }
}

pub open spec fn mounts_plan(mounts: Seq<MountValue>, scope: Scope) -> PlanView {
    each(mounts, |m: MountValue| mount_plan(m, scope))
}

fn add_mounts(plan: &mut Plan, scope: &Scope, mounts: &Vec<MountValue>)
    ensures
        final(plan)@ == old(plan)@.and(mounts_plan(mounts@, *scope)),
{
    let ghost f = |m: MountValue| mount_plan(m, *scope);
    let mut i: usize = 0;
    proof {
        lemma_each_start(mounts@, f);
        lemma_and_nothing(plan@);
    }
    while i < mounts.len()
        invariant
            f == (|m: MountValue| mount_plan(m, *scope)),
            i <= mounts@.len(),
            plan@ == old(plan)@.and(each(mounts@.take(i as int), f)),
        decreases mounts@.len() - i,
    {
        match &mounts[i] {
            MountValue::String(s) => flag_expanded(plan, scope, "--mount", s.as_str()),
            MountValue::Object(o) => add_object_mount(plan, scope, o),
        }
        proof {
            lemma_each_next(mounts@, f, i as int);
            lemma_and_assoc(old(plan)@, each(mounts@.take(i as int), f), f(mounts@[i as int]));
        }
        i = i + 1;
    }
    proof {
        lemma_each_start(mounts@, f);
    }
}

/// The variables of the container: references among them are resolved first, the others then.
pub open spec fn container_values(
    env: Seq<(Seq<char>, Seq<char>)>,
    all: Seq<(Seq<char>, Seq<char>)>,
    scope: Scope,
) -> Seq<(Seq<char>, Seq<char>)>
    decreases env.len(),
{
    if env.len() == 0 {
        Seq::empty()
    } else {
        inserted(
            container_values(env.drop_last(), all, scope),
            env.last().0,
            scope.value(env_resolved(env.last().1, all, 10)),
        )
    }
}

pub open spec fn container_values_notes(
    env: Seq<(Seq<char>, Seq<char>)>,
    all: Seq<(Seq<char>, Seq<char>)>,
    scope: Scope,
) -> Seq<NoteView>
    decreases env.len(),
{
    if env.len() == 0 {
        Seq::empty()
    } else {
        container_values_notes(env.drop_last(), all, scope) + scope.notes(
            env_resolved(env.last().1, all, 10),
        )
    }
}

pub(crate) fn container_env_map(env: &EnvMap, scope: &Scope, notes: &mut Notes) -> (res: EnvMap)
    ensures
        res@ == container_values(env@, env@, *scope),
        final(notes)@ == old(notes)@ + container_values_notes(env@, env@, *scope),
{
    let mut out = EnvMap::new();
    let mut i: usize = 0;
    assert(env@.take(0) =~= Seq::empty());
    assert(notes@ + no_notes() =~= notes@);
    while i < env.len()
        invariant
            i <= env@.len(),
            out@ == container_values(env@.take(i as int), env@, *scope),
            notes@ == old(notes)@ + container_values_notes(env@.take(i as int), env@, *scope),
        decreases env@.len() - i,
    {
        assert(env@.take(i + 1).drop_last() =~= env@.take(i as int));
        let resolved = resolve_container_env_value(env.value(i), env);
        let value = scope.expand(resolved.as_str(), notes);
        out.insert(env.key(i), value.as_str());
        assert(notes@ =~= old(notes)@ + container_values_notes(env@.take(i + 1), env@, *scope));
        i = i + 1;
    }
    assert(env@.take(i as int) =~= env@);
    out
}

pub proof fn lemma_container_values_distinct(
    env: Seq<(Seq<char>, Seq<char>)>,
    all: Seq<(Seq<char>, Seq<char>)>,
    scope: Scope,
)
    ensures
        distinct_keys(container_values(env, all, scope)),
    decreases env.len(),
{
    if env.len() > 0 {
        lemma_container_values_distinct(env.drop_last(), all, scope);
        lemma_inserted_distinct(
            container_values(env.drop_last(), all, scope),
            env.last().0,
            scope.value(env_resolved(env.last().1, all, 10)),
        );
    }
}

/// The variables of the container as arguments of `docker run`.
pub open spec fn container_env_plan(env: Seq<(Seq<char>, Seq<char>)>, scope: Scope) -> PlanView {
    each(
        env,
        |e: (Seq<char>, Seq<char>)| expanded_pair(scope, "-e"@, e.0, env_resolved(e.1, env, 10)),
    )
}

fn add_container_env(plan: &mut Plan, scope: &Scope, env: &EnvMap)
    ensures
        final(plan)@ == old(plan)@.and(container_env_plan(env@, *scope)),
{
    let ghost f = |e: (Seq<char>, Seq<char>)|
        expanded_pair(*scope, "-e"@, e.0, env_resolved(e.1, env@, 10));
    let mut i: usize = 0;
    proof {
        lemma_each_start(env@, f);
        lemma_and_nothing(plan@);
    }
    while i < env.len()
        invariant
            f == (|e: (Seq<char>, Seq<char>)|
                expanded_pair(*scope, "-e"@, e.0, env_resolved(e.1, env@, 10))),
            i <= env@.len(),
            plan@ == old(plan)@.and(each(env@.take(i as int), f)),
        decreases env@.len() - i,
    {
        let resolved = resolve_container_env_value(env.value(i), env);
        pair_expanded(plan, scope, "-e", env.key(i), resolved.as_str());
        proof {
            lemma_each_next(env@, f, i as int);
            lemma_and_assoc(old(plan)@, each(env@.take(i as int), f), f(env@[i as int]));
        }
        i = i + 1;
    }
    proof {
        lemma_each_start(env@, f);
    }
}

/// One secret as a variable of the container.
pub open spec fn secret_plan(
    env: Seq<(Seq<char>, Seq<char>)>,
    key: Seq<char>,
    value: Seq<char>,
) -> PlanView {
    warning_if(
        has_key(env, key),
        "Warning: secret key '"@ + key
            + "' conflicts with an existing environment entry and will override it"@,
    ).and(option("-e"@, key + "="@ + value))
}

pub open spec fn secrets_plan(c: DevContainerConfig, host: Seq<(Seq<char>, Seq<char>)>) -> PlanView {
    told(secrets_notes(secret_specs(c), host)).and(
        each(
            secret_entries(secret_specs(c), host),
            |e: (Seq<char>, Seq<char>)| secret_plan(c.container_env@, e.0, e.1),
        ),
    )
}

fn add_secrets(plan: &mut Plan, config: &DevContainerConfig, host: &EnvMap)
    ensures
        final(plan)@ == old(plan)@.and(secrets_plan(*config, host@)),
{
    let secrets = resolve_secrets(config, host, &mut plan.notes);
    let ghost first = told(secrets_notes(secret_specs(*config), host@));
    let ghost items = entries_view(secrets@);
    let ghost f = |e: (Seq<char>, Seq<char>)| secret_plan(config.container_env@, e.0, e.1);
    assert(plan@ =~= old(plan)@.and(first));
    let ghost start = plan@;
    let mut i: usize = 0;
    proof {
        lemma_each_start(items, f);
        lemma_and_nothing(plan@);
    }
    while i < secrets.len()
        invariant
            items == entries_view(secrets@),
            f == (|e: (Seq<char>, Seq<char>)| secret_plan(config.container_env@, e.0, e.1)),
            i <= secrets@.len(),
            plan@ == start.and(each(items.take(i as int), f)),
        decreases secrets@.len() - i,
    {
        let ghost before = plan@;
        let key = secrets[i].0.as_str();
        let line = "Warning: secret key '".to_owned().concat(key).concat(
            "' conflicts with an existing environment entry and will override it",
        );
        warn_if(plan, config.container_env.contains_key(key), line.as_str());
        plan.flag("-e", key.to_owned().concat("=").concat(secrets[i].1.as_str()));
        proof {
            let a = warning_if(has_key(config.container_env@, key@), line@);
            let b = option("-e"@, key@ + "="@ + secrets@[i as int].1@);
            lemma_and_assoc(before, a, b);
            lemma_each_next(items, f, i as int);
            lemma_and_assoc(start, each(items.take(i as int), f), f(items[i as int]));
        }
        i = i + 1;
    }
    proof {
        lemma_each_start(items, f);
        lemma_and_assoc(old(plan)@, first, each(items, f));
    }
}

// ---------------------------------------------------------------------------------------------
// Published ports

/// The arguments published so far, after `spec` was dealt with too.
pub open spec fn seen_after(c: DevContainerConfig, seen: Seq<Seq<char>>, spec: Seq<char>) -> Seq<
    Seq<char>,
> {
    match published_for(c, spec) {
        Some(p) => if attribute_is(c, spec, "onAutoForward"@, "ignore"@) {
            seen
        } else {
            seen.push(p)
        },
        None => seen,
    }
}

/// One port of the list named `kind`.
pub open spec fn port_plan(
    c: DevContainerConfig,
    kind: Seq<char>,
    seen: Seq<Seq<char>>,
    spec: Seq<char>,
) -> PlanView {
    if attribute_is(c, spec, "onAutoForward"@, "ignore"@) {
        info("Skipping "@ + kind + " '"@ + spec + "' (onAutoForward: ignore)"@)
    } else {
        match published_for(c, spec) {
            Some(p) => warning_if(
                seen.contains(p),
                "Warning: port '"@ + p
                    + "' is published more than once; docker will bind it repeatedly"@,
            ).and(option("-p"@, p)),
            None => warning(
                "Warning: "@ + kind + " '"@ + spec
                    + "' references a service host, cannot publish with docker run"@,
            ),
        }
    }
}

pub open spec fn seen_all(
    c: DevContainerConfig,
    seen: Seq<Seq<char>>,
    specs: Seq<Seq<char>>,
) -> Seq<Seq<char>>
    decreases specs.len(),
{
    if specs.len() == 0 {
        seen
    } else {
        seen_after(c, seen_all(c, seen, specs.drop_last()), specs.last())
    }
}

/// The ports of the list named `kind`, after the arguments `seen` were published already.
pub open spec fn ports_plan(
    c: DevContainerConfig,
    kind: Seq<char>,
    seen: Seq<Seq<char>>,
    specs: Seq<Seq<char>>,
) -> PlanView
    decreases specs.len(),
{
    if specs.len() == 0 {
        nothing()
    } else {
        ports_plan(c, kind, seen, specs.drop_last()).and(
            port_plan(c, kind, seen_all(c, seen, specs.drop_last()), specs.last()),
        )
    }
}

fn add_port(
    plan: &mut Plan,
    config: &DevContainerConfig,
    kind: &str,
    seen: &mut Texts,
    spec: &str,
)
    ensures
        final(plan)@ == old(plan)@.and(port_plan(*config, kind@, old(seen)@, spec@)),
        final(seen)@ == seen_after(*config, old(seen)@, spec@),
{
    if is_port_ignored(config, spec) {
        plan.info(
            "Skipping ".to_owned().concat(kind).concat(" '").concat(spec).concat(
                "' (onAutoForward: ignore)",
            ),
        );
        return;
    }
    match publish_for(config, spec) {
        Some(p) => {
            let line = "Warning: port '".to_owned().concat(p.as_str()).concat(
                "' is published more than once; docker will bind it repeatedly",
            );
            warn_if(plan, seen.contains(p.as_str()), line.as_str());
            seen.arg(p.as_str());
            plan.flag("-p", p);
            proof {
                let a = warning_if(old(seen)@.contains(p@), line@);
                lemma_and_assoc(old(plan)@, a, option("-p"@, p@));
            }
        },
        None => {
            plan.warn(
                "Warning: ".to_owned().concat(kind).concat(" '").concat(spec).concat(
                    "' references a service host, cannot publish with docker run",
                ),
            );
        },
    }
}

fn add_ports(
    plan: &mut Plan,
    config: &DevContainerConfig,
    kind: &str,
    seen: &mut Texts,
    specs: &Texts,
)
    ensures
        final(plan)@ == old(plan)@.and(ports_plan(*config, kind@, old(seen)@, specs@)),
        final(seen)@ == seen_all(*config, old(seen)@, specs@),
{
    let mut i: usize = 0;
    let ghost start = seen@;
    proof {
        assert(specs@.take(0) =~= Seq::empty());
        lemma_and_nothing(plan@);
    }
    while i < specs.len()
        invariant
            i <= specs@.len(),
            start == old(seen)@,
            plan@ == old(plan)@.and(ports_plan(*config, kind@, start, specs@.take(i as int))),
            seen@ == seen_all(*config, start, specs@.take(i as int)),
        decreases specs@.len() - i,
    {
        let ghost done = specs@.take(i as int);
        let ghost before = seen@;
        add_port(plan, config, kind, seen, specs.get(i));
        proof {
            assert(specs@.take(i + 1).drop_last() =~= done);
            lemma_and_assoc(
                old(plan)@,
                ports_plan(*config, kind@, start, done),
                port_plan(*config, kind@, before, specs@[i as int]),
            );
        }
        i = i + 1;
    }
    assert(specs@.take(i as int) =~= specs@);
}

// ---------------------------------------------------------------------------------------------
// docker run

/// The labels by which a container is found again, and what the configuration says about its ports.
pub open spec fn labels_plan(c: DevContainerConfig, workspace: Workspace, config_file: Seq<char>) -> PlanView {
    warning_if(
        workspace.folder@.contains('"'),
        "Warning: workspace path contains '\"', which may break docker labels"@,
    ).and(
        warning_if(
            config_file.contains('"'),
            "Warning: config path contains '\"', which may break docker labels"@,
        ),
    ).and(option("--label"@, "devcontainer.local_folder="@ + workspace.folder@)).and(
        option("--label"@, "devcontainer.config_file="@ + config_file),
    ).and(option("--label"@, "devcontainer.id="@ + workspace_id(workspace.folder@))).and(
        match c.ports_attributes {
            Some(attrs) => option("--label"@, "devcontainer.ports_attributes="@ + json_text(attrs@)),
            None => nothing(),
        },
    ).and(
        match c.other_ports_attributes {
            Some(attrs) => option(
                "--label"@,
                "devcontainer.other_ports_attributes="@ + json_text(attrs@),
            ),
            None => nothing(),
        },
    )
}

fn add_labels(
    plan: &mut Plan,
    config: &DevContainerConfig,
    workspace: &Workspace,
    config_file: &str,
)
    ensures
        final(plan)@ == old(plan)@.and(labels_plan(*config, *workspace, config_file@)),
{
    let mut own = Plan::new();
    proof {
        lemma_and_nothing(nothing());
    }
    warn_if(
        &mut own,
        has_char(workspace.folder.as_str(), '"'),
        "Warning: workspace path contains '\"', which may break docker labels",
    );
    warn_if(
        &mut own,
        has_char(config_file, '"'),
        "Warning: config path contains '\"', which may break docker labels",
    );
    own.flag(
        "--label",
        "devcontainer.local_folder=".to_owned().concat(workspace.folder.as_str()),
    );
    own.flag("--label", "devcontainer.config_file=".to_owned().concat(config_file));
    let id = devcontainer_id_for(workspace);
    own.flag("--label", "devcontainer.id=".to_owned().concat(id.as_str()));
    proof {
        lemma_and_nothing(own@);
    }
    if let Some(attrs) = &config.ports_attributes {
        let text = attrs.text();
        own.flag("--label", "devcontainer.ports_attributes=".to_owned().concat(text.as_str()));
    }
    proof {
        lemma_and_nothing(own@);
    }
    if let Some(attrs) = &config.other_ports_attributes {
        let text = attrs.text();
        own.flag(
            "--label",
            "devcontainer.other_ports_attributes=".to_owned().concat(text.as_str()),
        );
    }
    proof {
        lemma_nothing_and(
            warning_if(
                workspace.folder@.contains('"'),
                "Warning: workspace path contains '\"', which may break docker labels"@,
            ),
        );
    }
    plan.append(&own);
}

/// The label that keeps what the features say to the tools; none where they say nothing.
pub open spec fn customizations_plan(customizations: JsonView) -> PlanView {
    match customizations {
        JsonView::Object(tools) => if tools.len() == 0 {
            nothing()
        } else {
            option("--label"@, "devcontainer.customizations="@ + json_text(customizations))
        },
        _ => nothing(),
    }
}

fn add_customizations(plan: &mut Plan, customizations: &Json)
    ensures
        final(plan)@ == old(plan)@.and(customizations_plan(customizations@)),
{
    broadcast use group_json;

    proof {
        lemma_and_nothing(plan@);
    }
    if let Json::Object(tools) = customizations {
        assert(members(tools@).len() == tools@.len());
        if tools.len() > 0 {
            let text = customizations.text();
            plan.flag("--label", "devcontainer.customizations=".to_owned().concat(text.as_str()));
        }
    }
}

/// The mount of the workspace and the working directory.
pub open spec fn workspace_plan(c: DevContainerConfig, scope: Scope) -> PlanView {
    (match c.workspace_mount {
        Some(m) => expanded_option(scope, "--mount"@, m@),
        None => option(
            "--mount"@,
            "type=bind,source="@ + scope.workspace.folder@ + ",target="@ + scope.target@
                + ",consistency=cached"@,
        ),
    }).and(option("-w"@, scope.target@))
}

fn add_workspace(plan: &mut Plan, config: &DevContainerConfig, scope: &Scope)
    ensures
        final(plan)@ == old(plan)@.and(workspace_plan(*config, *scope)),
{
    let ghost start = plan@;
    match &config.workspace_mount {
        Some(m) => flag_expanded(plan, scope, "--mount", m.as_str()),
        None => plan.flag(
            "--mount",
            "type=bind,source=".to_owned().concat(scope.workspace.folder.as_str()).concat(
                ",target=",
            ).concat(scope.target).concat(",consistency=cached"),
        ),
    }
    plan.flag("-w", scope.target.to_owned());
    proof {
        let a = match &config.workspace_mount {
            Some(m) => expanded_option(*scope, "--mount"@, m@),
            None => option(
                "--mount"@,
                "type=bind,source="@ + scope.workspace.folder@ + ",target="@ + scope.target@
                    + ",consistency=cached"@,
            ),
        };
        lemma_and_assoc(start, a, option("-w"@, scope.target@));
    }
}

/// The loop that keeps a container alive.
pub open spec fn idle_plan(c: DevContainerConfig) -> PlanView {
    if c.override_command == Some(false) {
        nothing()
    } else {
        nothing().and(word("sh"@)).and(word("-c"@)).and(word("while sleep 1000; do :; done"@))
    }
}

/// What stands before the image in the command line of `docker run`, with what is printed while it is
/// put together.
pub open spec fn run_options(
    c: DevContainerConfig,
    scope: Scope,
    config_file: Seq<char>,
    customizations: JsonView,
    container: Seq<char>,
) -> PlanView {
    let forwarded = forward_texts(c.forward_ports@);
    nothing().and(
        warning_if(
            scope.workspace.folder@.contains(','),
            "Warning: workspace path contains ',', which breaks docker --mount parsing; the workspace mount will fail"@,
        ),
    ).and(
        warning_if(
            scope.workspace.folder@.contains('='),
            "Warning: workspace path contains '=', which breaks docker label filters"@,
        ),
    ).and(word("run"@)).and(word("-d"@)).and(option("--name"@, container)).and(
        switch(c.init == Some(true), "--init"@),
    ).and(switch(c.privileged == Some(true), "--privileged"@)).and(
        each(texts(c.cap_add@), |v: Seq<char>| option("--cap-add"@, v)),
    ).and(each(texts(c.security_opt@), |v: Seq<char>| option("--security-opt"@, v))).and(
        expanded_words(scope, texts(c.run_args@)),
    ).and(labels_plan(c, *scope.workspace, config_file)).and(
        customizations_plan(customizations),
    ).and(workspace_plan(c, scope)).and(mounts_plan(c.mounts@, scope)).and(
        container_env_plan(c.container_env@, scope),
    ).and(secrets_plan(c, scope.host@)).and(
        ports_plan(c, "forwardPorts"@, Seq::empty(), forwarded),
    ).and(
        ports_plan(
            c,
            "appPort"@,
            seen_all(c, Seq::empty(), forwarded),
            app_ports(c.app_port),
        ),
    ).and(opt_flag("--user"@, opt_text(c.container_user)))
}

/// The command line of `docker run` for a configuration with an image or a build.
pub open spec fn run_plan(
    c: DevContainerConfig,
    scope: Scope,
    config_file: Seq<char>,
    customizations: JsonView,
    container: Seq<char>,
    image: Seq<char>,
) -> PlanView {
    run_options(c, scope, config_file, customizations, container).and(word(image)).and(
        idle_plan(c),
    ).and(info("Creating container "@ + container + " from "@ + image + "..."@))
}

/// Puts together `docker run`. The scope's target is the workspace folder inside the container; the
/// customizations are those of the features.
pub fn create_and_start_container(
    config: &DevContainerConfig,
    scope: &Scope,
    config_file: &str,
    customizations: &Json,
    container_name: &str,
    image_name: &str,
) -> (res: Plan)
    ensures
        res@ == run_plan(
            *config,
            *scope,
            config_file@,
            customizations@,
            container_name@,
            image_name@,
        ),
{
    let folder = scope.workspace.folder.as_str();
    let mut plan = Plan::new();
    warn_if(
        &mut plan,
        has_char(folder, ','),
        "Warning: workspace path contains ',', which breaks docker --mount parsing; the workspace mount will fail",
    );
    warn_if(
        &mut plan,
        has_char(folder, '='),
        "Warning: workspace path contains '=', which breaks docker label filters",
    );
    plan.arg("run");
    plan.arg("-d");
    plan.flag("--name", container_name.to_owned());
    plan.switch(is_true(config.init), "--init");
    plan.switch(is_true(config.privileged), "--privileged");
    plan.flag_each("--cap-add", &config.cap_add);
    plan.flag_each("--security-opt", &config.security_opt);
    push_expanded_each(&mut plan, scope, &config.run_args);
    add_labels(&mut plan, config, scope.workspace, config_file);
    add_customizations(&mut plan, customizations);
    add_workspace(&mut plan, config, scope);
    add_mounts(&mut plan, scope, &config.mounts);
    add_container_env(&mut plan, scope, &config.container_env);
    add_secrets(&mut plan, config, scope.host);
    let mut seen = Texts::new();
    let forwarded = forward_port_texts(&config.forward_ports);
    add_ports(&mut plan, config, "forwardPorts", &mut seen, &forwarded);
    let app = app_port_texts(&config.app_port);
    add_ports(&mut plan, config, "appPort", &mut seen, &app);
    push_opt_flag(&mut plan, "--user", &config.container_user);
    plan.arg(image_name);
    let ghost before = plan@;
    if let Some(false) = config.override_command {
        proof {
            lemma_and_nothing(plan@);
        }
    } else {
        plan.arg("sh");
        plan.arg("-c");
        plan.arg("while sleep 1000; do :; done");
        assert(plan@ =~= before.and(idle_plan(*config)));
    }
    assert(plan@ == before.and(idle_plan(*config)));
    plan.info(
        "Creating container ".to_owned().concat(container_name).concat(" from ").concat(
            image_name,
        ).concat("..."),
    );
    plan
}

fn is_true(o: Option<bool>) -> (res: bool)
    ensures
        res == (o == Some(true)),
{
    match o {
        Some(b) => b,
        None => false,
    }
}

// ---------------------------------------------------------------------------------------------
// docker ps and docker inspect

/// The lines of a text: what stands between line feeds, without a carriage return before one, and
/// without an empty last line.
pub open spec fn lines(s: Seq<char>) -> Seq<Seq<char>> {
    let p = pieces(s, '\n');
    let all = Seq::new(
        p.len(),
        |i: int|
            if i + 1 < p.len() {
                without_cr(p[i])
            } else {
                p[i]
            },
    );
    if all.len() > 0 && all.last().len() == 0 {
        all.drop_last()
    } else {
        all
    }
}

pub open spec fn without_cr(s: Seq<char>) -> Seq<char> {
    if s.len() > 0 && s.last() == '\r' {
        s.drop_last()
    } else {
        s
    }
}

/// A line ends at the first line feed, with or without a carriage return before it; the last line
/// needs none.
pub proof fn law_lines(a: Seq<char>, b: Seq<char>)
    requires
        !a.contains('\n'),
    ensures
        a.len() > 0 ==> lines(a) == seq![a],
        lines(a + seq!['\n'] + b) == seq![without_cr(a)] + lines(b),
        lines(Seq::<char>::empty()) == Seq::<Seq<char>>::empty(),
{
    law_pieces(a, b, '\n');
    law_pieces(Seq::empty(), b, '\n');
    let s = a + seq!['\n'] + b;
    let p = pieces(b, '\n');
    lemma_some_piece(b, '\n', 0);
    let all = seq![a] + p;
    let one = Seq::new(
        all.len(),
        |i: int|
            if i + 1 < all.len() {
                without_cr(all[i])
            } else {
                all[i]
            },
    );
    let other = Seq::new(
        p.len(),
        |i: int|
            if i + 1 < p.len() {
                without_cr(p[i])
            } else {
                p[i]
            },
    );
    assert(one =~= seq![without_cr(a)] + other);
    assert(one.last() == other.last());
    assert(one.drop_last() =~= seq![without_cr(a)] + other.drop_last());
    if a.len() > 0 {
        assert(lines(a) =~= seq![a]);
    }
    assert(lines(Seq::<char>::empty()) =~= Seq::<Seq<char>>::empty());
}

fn drop_cr(s: &str) -> (res: String)
    ensures
        res@ == without_cr(s@),
{
    let v = chars_of(s);
    let n: usize = v.len();
    if n > 0 && v[n - 1] == '\r' {
        let r = text_of(&v, 0, n - 1);
        assert(r@ =~= s@.drop_last());
        r
    } else {
        s.to_owned()
    }
}

pub fn split_lines(s: &str) -> (res: Texts)
    ensures
        res@ == lines(s@),
{
    let parts = split(s, '\n');
    let n: usize = parts.len();
    let mut out = Texts::new();
    let ghost p = pieces(s@, '\n');
    let ghost all = Seq::new(
        p.len(),
        |i: int|
            if i + 1 < p.len() {
                without_cr(p[i])
            } else {
                p[i]
            },
    );
    let mut i: usize = 0;
    while i < n
        invariant
            n == parts@.len(),
            n >= 1,
            p == parts@,
            p == pieces(s@, '\n'),
            all.len() == p.len(),
            forall|k: int|
                0 <= k < p.len() ==> #[trigger] all[k] == (if k + 1 < p.len() {
                    without_cr(p[k])
                } else {
                    p[k]
                }),
            i <= n,
            i < n ==> out@ == all.take(i as int),
            i == n ==> out@ == (if all.last().len() == 0 {
                all.drop_last()
            } else {
                all
            }),
        decreases n - i,
    {
        if i + 1 < n {
            let line = drop_cr(parts.get(i));
            out.push(line);
            assert(all.take(i + 1) =~= all.take(i as int).push(all[i as int]));
        } else {
            if parts.get(i).unicode_len() > 0 {
                out.arg(parts.get(i));
                assert(out@ =~= all);
            } else {
                assert(out@ =~= all.drop_last());
            }
        }
        i = i + 1;
    }
    out
}

/// Whether a list of container names, one on each line, holds `name`.
pub open spec fn lists_name(stdout: Seq<char>, name: Seq<char>) -> bool {
    exists|i: int| 0 <= i < lines(stdout).len() && trimmed(#[trigger] lines(stdout)[i]) == name
}

/// Whether `docker ps` lists a container of that name.
pub fn container_listed(stdout: &str, name: &str) -> (res: bool)
    ensures
        res == lists_name(stdout@, name@),
{
    let all = split_lines(stdout);
    let mut i: usize = 0;
    while i < all.len()
        invariant
            i <= all@.len(),
            all@ == lines(stdout@),
            forall|k: int| 0 <= k < i ==> trimmed(#[trigger] lines(stdout@)[k]) != name@,
        decreases all@.len() - i,
    {
        let line = trim(all.get(i));
        if same_text(line.as_str(), name) {
            assert(trimmed(lines(stdout@)[i as int]) == name@);
            return true;
        }
        i = i + 1;
    }
    false
}

/// Whether the container is there and whether it is running, from the lines `name<TAB>status` from
/// line `i` on: the first line with its name decides.
pub open spec fn state_from(v: Seq<Seq<char>>, name: Seq<char>, i: int) -> (bool, bool)
    decreases v.len() - i,
{
    if i < 0 || i >= v.len() {
        (false, false)
    } else {
        let parts = pieces(v[i], '\t');
        if trimmed(parts[0]) == name {
            let status = if parts.len() > 1 {
                parts[1]
            } else {
                Seq::empty()
            };
            (true, begins_with(status, "Up"@) || begins_with(status, "Restarting"@))
        } else {
            state_from(v, name, i + 1)
        }
    }
}

/// Whether a container is there and whether it is running, from the answer of one `docker ps -a`
/// with names and states.
pub fn container_exists_and_running(stdout: &str, name: &str) -> (res: (bool, bool))
    ensures
        res == state_from(lines(stdout@), name@, 0),
{
    let all = split_lines(stdout);
    let mut i: usize = 0;
    while i < all.len()
        invariant
            i <= all@.len(),
            all@ == lines(stdout@),
            state_from(lines(stdout@), name@, 0) == state_from(all@, name@, i as int),
        decreases all@.len() - i,
    {
        let parts = split(all.get(i), '\t');
        let found = trim(parts.get(0));
        if same_text(found.as_str(), name) {
            let running: bool = if parts.len() > 1 {
                starts_with(parts.get(1), "Up") || starts_with(parts.get(1), "Restarting")
            } else {
                proof {
                    reveal_strlit("Up");
                    reveal_strlit("Restarting");
                }
                false
            };
            return (true, running);
        }
        i = i + 1;
    }
    (false, false)
}

/// The workspace that a container was made for, from the answer of `docker inspect`; nothing where
/// it failed or the container has no such label.
pub open spec fn labelled_workspace(success: bool, stdout: Seq<char>) -> Option<Seq<char>> {
    if success && trimmed(stdout).len() > 0 {
        Some(trimmed(stdout))
    } else {
        None
    }
}

pub fn container_workspace(success: bool, stdout: &str) -> (res: Option<String>)
    ensures
        opt_text(res) == labelled_workspace(success, stdout@),
{
    if !success {
        return None;
    }
    let label = trim(stdout);
    if label.as_str().unicode_len() == 0 {
        None
    } else {
        Some(label)
    }
}

/// The error for a container that was made for another workspace.
pub open spec fn mismatch(
    name: Seq<char>,
    label: Option<Seq<char>>,
    folder: Seq<char>,
) -> Option<ErrorView> {
    match label {
        Some(l) => if l == folder {
            None
        } else {
            Some(
                ErrorView::Docker(
                    "Container '"@ + name + "' already exists for workspace '"@ + l
                        + "' (current: '"@ + folder
                        + "'); set a unique 'name' in devcontainer.json or remove that container first"@,
                ),
            )
        },
        None => None,
    }
}

/// Whether a container may be used for a workspace: not where it was made for another one. A
/// container without a label is taken for one of this workspace, with a warning.
pub fn ensure_container_matches_workspace(
    name: &str,
    label: Option<&str>,
    workspace: &Workspace,
    notes: &mut Notes,
) -> (res: Result<(), BondarError>)
    ensures
        failure(res) == mismatch(name@, opt_str(label), workspace.folder@),
        final(notes)@ == (match label {
            Some(_) => old(notes)@,
            None => old(notes)@.push(
                NoteView::Warning(
                    "Warning: container '"@ + name@
                        + "' has no workspace label; assuming it belongs to this workspace"@,
                ),
            ),
        }),
{
    match label {
        Some(l) => if same_text(l, workspace.folder.as_str()) {
            Ok(())
        } else {
            Err(
                BondarError::Docker(
                    "Container '".to_owned().concat(name).concat(
                        "' already exists for workspace '",
                    ).concat(l).concat("' (current: '").concat(workspace.folder.as_str()).concat(
                        "'); set a unique 'name' in devcontainer.json or remove that container first",
                    ),
                ),
            )
        },
        None => {
            notes.warn(
                "Warning: container '".to_owned().concat(name).concat(
                    "' has no workspace label; assuming it belongs to this workspace",
                ),
            );
            Ok(())
        },
    }
}

/// The filter by which the containers of a workspace are found; nothing for a path that Docker's
/// filters cannot hold.
pub open spec fn filter_of(folder: Seq<char>) -> Option<Seq<char>> {
    if folder.contains(',') || folder.contains('=') {
        None
    } else {
        Some("label=devcontainer.local_folder="@ + folder)
    }
}

/// The filter by which the containers of a workspace are found; a warning where there is none.
pub fn workspace_filter(workspace: &Workspace, notes: &mut Notes) -> (res: Option<String>)
    ensures
        opt_text(res) == filter_of(workspace.folder@),
        final(notes)@ == (if filter_of(workspace.folder@) is None {
            old(notes)@.push(
                NoteView::Warning(
                    "Warning: workspace path contains ',' or '='; cannot search for existing containers by label"@,
                ),
            )
        } else {
            old(notes)@
        }),
{
    let folder = workspace.folder.as_str();
    if has_char(folder, ',') || has_char(folder, '=') {
        notes.warn(
            "Warning: workspace path contains ',' or '='; cannot search for existing containers by label".to_owned(),
        );
        None
    } else {
        Some("label=devcontainer.local_folder=".to_owned().concat(folder))
    }
}

/// The lines without surrounding white space, without those that are then empty.
pub open spec fn named_lines(v: Seq<Seq<char>>) -> Seq<Seq<char>>
    decreases v.len(),
{
    if v.len() == 0 {
        Seq::empty()
    } else {
        let before = named_lines(v.drop_last());
        if trimmed(v.last()).len() == 0 {
            before
        } else {
            before.push(trimmed(v.last()))
        }
    }
}

/// The names that `docker ps` lists, one on each line.
pub fn find_containers_for_workspace(stdout: &str) -> (res: Texts)
    ensures
        res@ == named_lines(lines(stdout@)),
{
    let all = split_lines(stdout);
    let mut out = Texts::new();
    let mut i: usize = 0;
    assert(all@.take(0) =~= Seq::empty());
    while i < all.len()
        invariant
            i <= all@.len(),
            out@ == named_lines(all@.take(i as int)),
        decreases all@.len() - i,
    {
        assert(all@.take(i + 1).drop_last() =~= all@.take(i as int));
        let line = trim(all.get(i));
        if line.as_str().unicode_len() > 0 {
            out.push(line);
        }
        i = i + 1;
    }
    assert(all@.take(i as int) =~= all@);
    out
}

// ---------------------------------------------------------------------------------------------
// docker exec

/// The value of a variable for a process in the container: references to the container's own
/// variables are resolved first.
pub open spec fn exec_value(
    value: Seq<char>,
    container_env: Option<Seq<(Seq<char>, Seq<char>)>>,
) -> Seq<char> {
    match container_env {
        Some(m) => map_resolved(value, m, None, m.len() as int),
        None => value,
    }
}

pub open spec fn opt_map(o: Option<&EnvMap>) -> Option<Seq<(Seq<char>, Seq<char>)>> {
    match o {
        Some(m) => Some(m@),
        None => None,
    }
}

/// The variables of a process in the container.
pub open spec fn exec_env_plan(
    env: Option<Seq<(Seq<char>, Seq<char>)>>,
    container_env: Option<Seq<(Seq<char>, Seq<char>)>>,
    scope: Scope,
) -> PlanView {
    match env {
        Some(m) => each(
            m,
            |e: (Seq<char>, Seq<char>)|
                expanded_pair(scope, "-e"@, e.0, exec_value(e.1, container_env)),
        ),
        None => nothing(),
    }
}

pub(crate) fn add_exec_env(
    plan: &mut Plan,
    env: Option<&EnvMap>,
    container_env: Option<&EnvMap>,
    scope: &Scope,
)
    ensures
        final(plan)@ == old(plan)@.and(
            exec_env_plan(opt_map(env), opt_map(container_env), *scope),
        ),
{
    proof {
        lemma_and_nothing(plan@);
    }
    if let Some(m) = env {
        let ghost f = |e: (Seq<char>, Seq<char>)|
            expanded_pair(*scope, "-e"@, e.0, exec_value(e.1, opt_map(container_env)));
        let mut i: usize = 0;
        proof {
            lemma_each_start(m@, f);
        }
        while i < m.len()
            invariant
                f == (|e: (Seq<char>, Seq<char>)|
                    expanded_pair(*scope, "-e"@, e.0, exec_value(e.1, opt_map(container_env)))),
                i <= m@.len(),
                plan@ == old(plan)@.and(each(m@.take(i as int), f)),
            decreases m@.len() - i,
        {
            let value = match container_env {
                Some(ce) => expand_container_env_from_map(m.value(i), ce, None),
                None => m.value(i).to_owned(),
            };
            pair_expanded(plan, scope, "-e", m.key(i), value.as_str());
            proof {
                lemma_each_next(m@, f, i as int);
                lemma_and_assoc(old(plan)@, each(m@.take(i as int), f), f(m@[i as int]));
            }
            i = i + 1;
        }
        proof {
            lemma_each_start(m@, f);
        }
    }
}

pub open spec fn words(v: Seq<Seq<char>>) -> PlanView {
    PlanView { args: v, notes: Seq::empty() }
}

/// The command line of `docker exec`.
pub open spec fn exec_plan(
    container: Seq<char>,
    tty: bool,
    user: Option<Seq<char>>,
    workdir: Option<Seq<char>>,
    command: Seq<Seq<char>>,
    env: Option<Seq<(Seq<char>, Seq<char>)>>,
    container_env: Option<Seq<(Seq<char>, Seq<char>)>>,
    scope: Scope,
) -> PlanView {
    nothing().and(word("exec"@)).and(
        word(
            if tty {
                "-it"@
            } else {
                "-i"@
            },
        ),
    ).and(opt_flag("--user"@, user)).and(opt_flag("-w"@, workdir)).and(
        exec_env_plan(env, container_env, scope),
    ).and(word(container)).and(words(command))
}

/// Puts together `docker exec`. References to the workspace folder inside the container stand for
/// the scope's target, whatever the working directory is.
pub fn exec_in_container(
    container_name: &str,
    tty: bool,
    user: Option<&str>,
    workdir: Option<&str>,
    command: &Texts,
    env: Option<&EnvMap>,
    container_env: Option<&EnvMap>,
    scope: &Scope,
) -> (res: Plan)
    ensures
        res@ == exec_plan(
            container_name@,
            tty,
            opt_str(user),
            opt_str(workdir),
            command@,
            opt_map(env),
            opt_map(container_env),
            *scope,
        ),
{
    let mut plan = Plan::new();
    plan.arg("exec");
    if tty {
        plan.arg("-it");
    } else {
        plan.arg("-i");
    }
    plan.opt_flag("--user", user);
    plan.opt_flag("-w", workdir);
    add_exec_env(&mut plan, env, container_env, scope);
    plan.arg(container_name);
    plan.args(command);
    plan
}

/// The error for a command in a container that is not running.
pub fn not_running(container_name: &str) -> (res: BondarError)
    ensures
        res@ == ErrorView::Docker(
            "Container "@ + container_name@ + " is not running; run 'bondar up' first"@,
        ),
{
    BondarError::Docker(
        "Container ".to_owned().concat(container_name).concat(
            " is not running; run 'bondar up' first",
        ),
    )
}

/// The error for a workspace folder that is not a directory.
pub fn missing_workspace(path: &str) -> (res: BondarError)
    ensures
        res@ == ErrorView::NotFound("Workspace folder not found or not a directory: "@ + path@),
{
    BondarError::NotFound("Workspace folder not found or not a directory: ".to_owned().concat(path))
}

/// Why Docker cannot be used.
pub open spec fn docker_error(cli_ok: bool, daemon_ok: bool, stderr: Seq<char>) -> Option<ErrorView> {
    if !cli_ok {
        Some(ErrorView::Docker("Docker CLI not found in PATH; install Docker to use bondar"@))
    } else if !daemon_ok {
        Some(ErrorView::Docker("Docker daemon not reachable: "@ + stderr))
    } else {
        None
    }
}

/// What is known of Docker: whether the CLI answers, whether the daemon does, and what it says.
pub fn check_docker_available(cli_ok: bool, daemon_ok: bool, stderr: &str) -> (res: Result<
    (),
    BondarError,
>)
    ensures
        failure(res) == docker_error(cli_ok, daemon_ok, stderr@),
{
    if !cli_ok {
        return Err(
            BondarError::Docker(
                "Docker CLI not found in PATH; install Docker to use bondar".to_owned(),
            ),
        );
    }
    if !daemon_ok {
        return Err(BondarError::Docker("Docker daemon not reachable: ".to_owned().concat(stderr)));
    }
    Ok(())
}

/// `docker run` publishes the ports of a list in their order, and none that is to be ignored.
pub proof fn law_ignored_ports_stay_closed(
    c: DevContainerConfig,
    kind: Seq<char>,
    seen: Seq<Seq<char>>,
    specs: Seq<Seq<char>>,
)
    ensures
        ports_plan(c, kind, seen, specs).args == each(
            to_publish(c, specs),
            |p: Seq<char>| option("-p"@, p),
        ).args,
    decreases specs.len(),
{
    let f = |p: Seq<char>| option("-p"@, p);
    if specs.len() > 0 {
        law_ignored_ports_stay_closed(c, kind, seen, specs.drop_last());
        let before = to_publish(c, specs.drop_last());
        let one = port_plan(c, kind, seen_all(c, seen, specs.drop_last()), specs.last());
        let start = ports_plan(c, kind, seen, specs.drop_last());
        match published_for(c, specs.last()) {
            Some(p) => {
                assert(before.push(p).drop_last() =~= before);
                if !attribute_is(c, specs.last(), "onAutoForward"@, "ignore"@) {
                    assert(one.args =~= seq!["-p"@, p]);
                } else {
                    assert(start.args + one.args =~= start.args);
                }
            },
            None => {
                assert(start.args + one.args =~= start.args);
            },
        }
    }
}

// ---------------------------------------------------------------------------------------------
// What the command lines hold

/// The words of `docker run` before the image: all but the image and the loop that keeps the
/// container alive.
pub open spec fn before_image(
    c: DevContainerConfig,
    args: Seq<Seq<char>>,
) -> Seq<Seq<char>> {
    args.take(
        args.len() - (if c.override_command == Some(false) {
            1int
        } else {
            4int
        }),
    )
}

#[verifier::spinoff_prover]
#[verifier::rlimit(60)]
proof fn lemma_before_image(
    c: DevContainerConfig,
    scope: Scope,
    config_file: Seq<char>,
    customizations: JsonView,
    container: Seq<char>,
    image: Seq<char>,
)
    ensures
        before_image(
            c,
            run_plan(c, scope, config_file, customizations, container, image).args,
        ) == run_options(c, scope, config_file, customizations, container).args,
{
    let options = run_options(c, scope, config_file, customizations, container).args;
    let all = run_plan(c, scope, config_file, customizations, container, image).args;
    assert(all =~= options.push(image) + idle_plan(c).args);
    if c.override_command != Some(false) {
        assert(idle_plan(c).args =~= seq!["sh"@, "-c"@, "while sleep 1000; do :; done"@]);
    }
    assert(before_image(c, all) =~= options);
}

/// `docker run` creates a container of the given name in the background from the given image, and
/// keeps it alive by an endless loop unless the configuration leaves the image its own command.
#[verifier::spinoff_prover]
#[verifier::rlimit(60)]
pub proof fn law_run_creates_the_container(
    c: DevContainerConfig,
    scope: Scope,
    config_file: Seq<char>,
    customizations: JsonView,
    container: Seq<char>,
    image: Seq<char>,
)
    ensures
        ({
            let args = run_plan(c, scope, config_file, customizations, container, image).args;
            let front = before_image(c, args);
            &&& front.len() >= 4
            &&& front[0] == "run"@ && front[1] == "-d"@ && front[2] == "--name"@
            &&& front[3] == container
            &&& c.override_command == Some(false) ==> args == front.push(image)
            &&& c.override_command != Some(false) ==> args == front + seq![
                image,
                "sh"@,
                "-c"@,
                "while sleep 1000; do :; done"@,
            ]
        }),
{
    lemma_before_image(c, scope, config_file, customizations, container, image);
    let options = run_options(c, scope, config_file, customizations, container);
    let args = run_plan(c, scope, config_file, customizations, container, image).args;
    if c.override_command == Some(false) {
        assert(args =~= options.args.push(image));
    } else {
        assert(args =~= options.args + seq![image, "sh"@, "-c"@, "while sleep 1000; do :; done"@]);
    }
    lemma_run_start(c, scope, config_file, customizations, container);
}

#[verifier::spinoff_prover]
#[verifier::rlimit(60)]
proof fn lemma_run_start(
    c: DevContainerConfig,
    scope: Scope,
    config_file: Seq<char>,
    customizations: JsonView,
    container: Seq<char>,
)
    ensures
        ({
            let front = run_options(c, scope, config_file, customizations, container).args;
            &&& front.len() >= 4
            &&& front[0] == "run"@ && front[1] == "-d"@ && front[2] == "--name"@
            &&& front[3] == container
        }),
{
    broadcast use group_plans;

    let a = warning_if(
        scope.workspace.folder@.contains(','),
        "Warning: workspace path contains ',', which breaks docker --mount parsing; the workspace mount will fail"@,
    );
    let b = warning_if(
        scope.workspace.folder@.contains('='),
        "Warning: workspace path contains '=', which breaks docker label filters"@,
    );
    let start = nothing().and(a).and(b).and(word("run"@)).and(word("-d"@)).and(
        option("--name"@, container),
    );
    assert(start.args =~= seq!["run"@, "-d"@, "--name"@, container]);
}

/// What the configuration asks of the container is given to `docker run` before the image, each value
/// by its own flag: capabilities, security options, extra arguments, the two switches and the user.
#[verifier::spinoff_prover]
#[verifier::rlimit(60)]
pub proof fn law_run_gives_rights(
    c: DevContainerConfig,
    scope: Scope,
    config_file: Seq<char>,
    customizations: JsonView,
    container: Seq<char>,
    image: Seq<char>,
)
    ensures
        ({
            let front = before_image(
                c,
                run_plan(c, scope, config_file, customizations, container, image).args,
            );
            &&& forall|i: int|
                0 <= i < c.cap_add@.len() ==> has_pair(front, "--cap-add"@, (#[trigger] c.cap_add@[i])@)
            &&& forall|i: int|
                0 <= i < c.security_opt@.len() ==> has_pair(
                    front,
                    "--security-opt"@,
                    (#[trigger] c.security_opt@[i])@,
                )
            &&& forall|i: int|
                0 <= i < c.run_args@.len() ==> front.contains(
                    expanded(
                        (#[trigger] c.run_args@[i])@,
                        *scope.workspace,
                        scope.target@,
                        scope.host@,
                    ),
                )
            &&& c.init == Some(true) ==> front.contains("--init"@)
            &&& c.privileged == Some(true) ==> front.contains("--privileged"@)
            &&& c.container_user matches Some(u) ==> has_pair(front, "--user"@, u@)
        }),
{
    broadcast use group_plans;

    lemma_before_image(c, scope, config_file, customizations, container, image);
    let front = run_options(c, scope, config_file, customizations, container).args;
    assert forall|i: int| 0 <= i < c.cap_add@.len() implies has_pair(
        front,
        "--cap-add"@,
        (#[trigger] c.cap_add@[i])@,
    ) by {
        lemma_each_pair(
            texts(c.cap_add@),
            |v: Seq<char>| option("--cap-add"@, v),
            i,
            "--cap-add"@,
            c.cap_add@[i]@,
        );
    }
    assert forall|i: int| 0 <= i < c.security_opt@.len() implies has_pair(
        front,
        "--security-opt"@,
        (#[trigger] c.security_opt@[i])@,
    ) by {
        lemma_each_pair(
            texts(c.security_opt@),
            |v: Seq<char>| option("--security-opt"@, v),
            i,
            "--security-opt"@,
            c.security_opt@[i]@,
        );
    }
    assert forall|i: int| 0 <= i < c.run_args@.len() implies front.contains(
        expanded((#[trigger] c.run_args@[i])@, *scope.workspace, scope.target@, scope.host@),
    ) by {
        let s = c.run_args@[i]@;
        let w = expanded(s, *scope.workspace, scope.target@, scope.host@);
        assert(expanded_word(scope, s).args[0] == w);
        lemma_each_word(texts(c.run_args@), |s: Seq<char>| expanded_word(scope, s), i, w);
    }
    assert(word("--init"@).args[0] == "--init"@);
    assert(word("--privileged"@).args[0] == "--privileged"@);
}

/// What stands in `docker run` between the switches and the mount of the workspace.
#[verifier::opaque]
spec fn run_rights(
    c: DevContainerConfig,
    scope: Scope,
    config_file: Seq<char>,
    customizations: JsonView,
) -> PlanView {
    nothing().and(each(texts(c.cap_add@), |v: Seq<char>| option("--cap-add"@, v))).and(
        each(texts(c.security_opt@), |v: Seq<char>| option("--security-opt"@, v)),
    ).and(expanded_words(scope, texts(c.run_args@))).and(
        labels_plan(c, *scope.workspace, config_file),
    ).and(customizations_plan(customizations))
}

/// What follows the mount of the workspace in `docker run`.
#[verifier::opaque]
spec fn run_rest(c: DevContainerConfig, scope: Scope, image: Seq<char>) -> PlanView {
    let forwarded = forward_texts(c.forward_ports@);
    nothing().and(mounts_plan(c.mounts@, scope)).and(
        container_env_plan(c.container_env@, scope),
    ).and(secrets_plan(c, scope.host@)).and(
        ports_plan(c, "forwardPorts"@, Seq::empty(), forwarded),
    ).and(
        ports_plan(
            c,
            "appPort"@,
            seen_all(c, Seq::empty(), forwarded),
            app_ports(c.app_port),
        ),
    ).and(opt_flag("--user"@, opt_text(c.container_user))).and(word(image)).and(idle_plan(c))
}

/// The parts of `docker run`.
#[verifier::spinoff_prover]
#[verifier::rlimit(60)]
proof fn lemma_run_parts(
    c: DevContainerConfig,
    scope: Scope,
    config_file: Seq<char>,
    customizations: JsonView,
    container: Seq<char>,
    image: Seq<char>,
)
    ensures
        run_plan(c, scope, config_file, customizations, container, image).args == seq![
            "run"@,
            "-d"@,
            "--name"@,
            container,
        ] + switch(c.init == Some(true), "--init"@).args + switch(
            c.privileged == Some(true),
            "--privileged"@,
        ).args + run_rights(c, scope, config_file, customizations).args + workspace_plan(
            c,
            scope,
        ).args + run_rest(c, scope, image).args,
{
    reveal(run_rights);
    reveal(run_rest);
    let a = warning_if(
        scope.workspace.folder@.contains(','),
        "Warning: workspace path contains ',', which breaks docker --mount parsing; the workspace mount will fail"@,
    );
    let b = warning_if(
        scope.workspace.folder@.contains('='),
        "Warning: workspace path contains '=', which breaks docker label filters"@,
    );
    let start = nothing().and(a).and(b).and(word("run"@)).and(word("-d"@)).and(
        option("--name"@, container),
    );
    assert(start.args =~= seq!["run"@, "-d"@, "--name"@, container]);
    let x0 = start.and(switch(c.init == Some(true), "--init"@)).and(
        switch(c.privileged == Some(true), "--privileged"@),
    );
    let base = x0.args;
    assert(base + nothing().args =~= base);
    let q = each(texts(c.cap_add@), |v: Seq<char>| option("--cap-add"@, v));
    lemma_tail(base, x0, nothing(), q);
    let (x, r) = (x0.and(q), nothing().and(q));
    let q = each(texts(c.security_opt@), |v: Seq<char>| option("--security-opt"@, v));
    lemma_tail(base, x, r, q);
    let (x, r) = (x.and(q), r.and(q));
    let q = expanded_words(scope, texts(c.run_args@));
    lemma_tail(base, x, r, q);
    let (x, r) = (x.and(q), r.and(q));
    let q = labels_plan(c, *scope.workspace, config_file);
    lemma_tail(base, x, r, q);
    let (x, r) = (x.and(q), r.and(q));
    let q = customizations_plan(customizations);
    lemma_tail(base, x, r, q);
    let (x, r) = (x.and(q), r.and(q));
    assert(r == run_rights(c, scope, config_file, customizations));

    let x = x.and(workspace_plan(c, scope));
    let base = x.args;
    let forwarded = forward_texts(c.forward_ports@);
    assert(base + nothing().args =~= base);
    let q = mounts_plan(c.mounts@, scope);
    lemma_tail(base, x, nothing(), q);
    let (x, r) = (x.and(q), nothing().and(q));
    let q = container_env_plan(c.container_env@, scope);
    lemma_tail(base, x, r, q);
    let (x, r) = (x.and(q), r.and(q));
    let q = secrets_plan(c, scope.host@);
    lemma_tail(base, x, r, q);
    let (x, r) = (x.and(q), r.and(q));
    let q = ports_plan(c, "forwardPorts"@, Seq::empty(), forwarded);
    lemma_tail(base, x, r, q);
    let (x, r) = (x.and(q), r.and(q));
    let q = ports_plan(
        c,
        "appPort"@,
        seen_all(c, Seq::empty(), forwarded),
        app_ports(c.app_port),
    );
    lemma_tail(base, x, r, q);
    let (x, r) = (x.and(q), r.and(q));
    let q = opt_flag("--user"@, opt_text(c.container_user));
    lemma_tail(base, x, r, q);
    let (x, r) = (x.and(q), r.and(q));
    assert(x == run_options(c, scope, config_file, customizations, container));
    lemma_tail(base, x, r, word(image));
    let (x, r) = (x.and(word(image)), r.and(word(image)));
    lemma_tail(base, x, r, idle_plan(c));
    let (x, r) = (x.and(idle_plan(c)), r.and(idle_plan(c)));
    assert(r == run_rest(c, scope, image));
    let q = info("Creating container "@ + container + " from "@ + image + "..."@);
    assert(x.and(q).args =~= x.args);
}

/// The ports depend on their attributes alone.
proof fn lemma_same_ports(
    a: DevContainerConfig,
    b: DevContainerConfig,
    kind: Seq<char>,
    seen: Seq<Seq<char>>,
    specs: Seq<Seq<char>>,
)
    requires
        a.ports_attributes == b.ports_attributes,
        a.other_ports_attributes == b.other_ports_attributes,
    ensures
        ports_plan(a, kind, seen, specs) == ports_plan(b, kind, seen, specs),
        seen_all(a, seen, specs) == seen_all(b, seen, specs),
    decreases specs.len(),
{
    if specs.len() > 0 {
        lemma_same_ports(a, b, kind, seen, specs.drop_last());
    }
}

/// Neither the switches nor the mount of the workspace have a say in the rest.
#[verifier::spinoff_prover]
#[verifier::rlimit(60)]
proof fn lemma_same_rest(
    a: DevContainerConfig,
    b: DevContainerConfig,
    scope: Scope,
    config_file: Seq<char>,
    customizations: JsonView,
    image: Seq<char>,
)
    requires
        b == (DevContainerConfig {
            init: b.init,
            privileged: b.privileged,
            workspace_mount: b.workspace_mount,
            ..a
        }),
    ensures
        run_rights(a, scope, config_file, customizations) == run_rights(
            b,
            scope,
            config_file,
            customizations,
        ),
        run_rest(a, scope, image) == run_rest(b, scope, image),
{
    reveal(run_rights);
    reveal(run_rest);
    let forwarded = forward_texts(a.forward_ports@);
    lemma_same_ports(a, b, "forwardPorts"@, Seq::empty(), forwarded);
    lemma_same_ports(
        a,
        b,
        "appPort"@,
        seen_all(a, Seq::empty(), forwarded),
        app_ports(a.app_port),
    );
}

proof fn lemma_put_in(
    start: Seq<Seq<char>>,
    a: Seq<Seq<char>>,
    b: Seq<Seq<char>>,
    x: Seq<Seq<char>>,
    y: Seq<Seq<char>>,
    z: Seq<Seq<char>>,
)
    requires
        start.len() == 4,
    ensures
        a.len() == 0 && b.len() == 0 ==> start + a + b + x + y + z == start + x + y + z,
        a.len() == 1 && b.len() == 0 ==> start + a + b + x + y + z == (start + x + y + z).insert(
            4,
            a[0],
        ),
        a.len() == 0 && b.len() == 1 ==> start + a + b + x + y + z == (start + x + y + z).insert(
            4,
            b[0],
        ),
{
    let all = start + a + b + x + y + z;
    let rest = start + x + y + z;
    if a.len() == 0 && b.len() == 0 {
        assert(all =~= rest);
    } else if a.len() == 1 && b.len() == 0 {
        assert(all =~= rest.insert(4, a[0]));
    } else if a.len() == 0 && b.len() == 1 {
        assert(all =~= rest.insert(4, b[0]));
    }
}

#[verifier::spinoff_prover]
#[verifier::rlimit(60)]
proof fn lemma_run_switched(
    quiet: DevContainerConfig,
    c: DevContainerConfig,
    scope: Scope,
    config_file: Seq<char>,
    customizations: JsonView,
    container: Seq<char>,
    image: Seq<char>,
)
    requires
        quiet == (DevContainerConfig { init: None, privileged: None, ..c }),
    ensures
        ({
            let a = run_plan(quiet, scope, config_file, customizations, container, image).args;
            let b = run_plan(c, scope, config_file, customizations, container, image).args;
            &&& c.init != Some(true) && c.privileged != Some(true) ==> b == a
            &&& c.init == Some(true) && c.privileged is None ==> b == a.insert(4, "--init"@)
            &&& c.init is None && c.privileged == Some(true) ==> b == a.insert(4, "--privileged"@)
        }),
{
    lemma_run_parts(quiet, scope, config_file, customizations, container, image);
    lemma_run_parts(c, scope, config_file, customizations, container, image);
    lemma_same_rest(quiet, c, scope, config_file, customizations, image);
    let none = nothing().args;
    let start = seq!["run"@, "-d"@, "--name"@, container];
    let a = switch(c.init == Some(true), "--init"@).args;
    let b = switch(c.privileged == Some(true), "--privileged"@).args;
    let x = run_rights(c, scope, config_file, customizations).args;
    let y = workspace_plan(c, scope).args;
    let z = run_rest(c, scope, image).args;
    lemma_put_in(start, a, b, x, y, z);
    lemma_put_in(start, none, none, x, y, z);
}

/// The two switches of `docker run` are given where the configuration switches them on and nowhere
/// else: a switch is one more word, and a setting that is off is like none.
pub proof fn law_run_switches(
    c: DevContainerConfig,
    scope: Scope,
    config_file: Seq<char>,
    customizations: JsonView,
    container: Seq<char>,
    image: Seq<char>,
)
    ensures
        ({
            let plan = |d: DevContainerConfig|
                run_plan(d, scope, config_file, customizations, container, image).args;
            let quiet = DevContainerConfig { init: None, privileged: None, ..c };
            let init = DevContainerConfig { init: Some(true), privileged: None, ..c };
            let privileged = DevContainerConfig { init: None, privileged: Some(true), ..c };
            &&& plan(init) == plan(quiet).insert(4, "--init"@)
            &&& plan(privileged) == plan(quiet).insert(4, "--privileged"@)
            &&& c.init != Some(true) && c.privileged != Some(true) ==> plan(c) == plan(quiet)
        }),
{
    let quiet = DevContainerConfig { init: None, privileged: None, ..c };
    let init = DevContainerConfig { init: Some(true), privileged: None, ..c };
    let privileged = DevContainerConfig { init: None, privileged: Some(true), ..c };
    lemma_run_switched(quiet, c, scope, config_file, customizations, container, image);
    lemma_run_switched(quiet, init, scope, config_file, customizations, container, image);
    lemma_run_switched(quiet, privileged, scope, config_file, customizations, container, image);
}

proof fn lemma_other_mount(
    plain: Seq<Seq<char>>,
    own: Seq<Seq<char>>,
    start: Seq<Seq<char>>,
    rest: Seq<Seq<char>>,
    bound: Seq<char>,
    given: Seq<char>,
    target: Seq<char>,
)
    requires
        plain == start + seq!["--mount"@, bound, "-w"@, target] + rest,
        own == start + seq!["--mount"@, given, "-w"@, target] + rest,
    ensures
        mount_replaced(plain, own, bound, given, target),
{
    let i = start.len() as int;
    assert(pair_at(plain, "--mount"@, bound, i));
    assert(own =~= plain.update(i + 1, given));
}

/// Whether one command line is another with `given` in place of the mount `bound`, followed by the
/// working directory.
pub open spec fn mount_replaced(
    plain: Seq<Seq<char>>,
    own: Seq<Seq<char>>,
    bound: Seq<char>,
    given: Seq<char>,
    target: Seq<char>,
) -> bool {
    exists|i: int| #[trigger]
        pair_at(plain, "--mount"@, bound, i) && pair_at(own, "--mount"@, given, i) && pair_at(
            own,
            "-w"@,
            target,
            i + 2,
        ) && own == plain.update(i + 1, given)
}

/// The workspace is mounted once. Without a `workspaceMount` it is bound from its folder on the host
/// to its folder in the container; one that is given takes the place of that mount, expanded, and
/// nothing else changes. The container starts in the workspace's folder either way.
#[verifier::spinoff_prover]
#[verifier::rlimit(60)]
pub proof fn law_workspace_mount_replaces_the_default(
    c: DevContainerConfig,
    m: String,
    scope: Scope,
    config_file: Seq<char>,
    customizations: JsonView,
    container: Seq<char>,
    image: Seq<char>,
)
    requires
        c.workspace_mount is None,
    ensures
        mount_replaced(
            run_plan(c, scope, config_file, customizations, container, image).args,
            run_plan(
                DevContainerConfig { workspace_mount: Some(m), ..c },
                scope,
                config_file,
                customizations,
                container,
                image,
            ).args,
            "type=bind,source="@ + scope.workspace.folder@ + ",target="@ + scope.target@
                + ",consistency=cached"@,
            expanded(m@, *scope.workspace, scope.target@, scope.host@),
            scope.target@,
        ),
{
    let d = DevContainerConfig { workspace_mount: Some(m), ..c };
    lemma_run_parts(c, scope, config_file, customizations, container, image);
    lemma_run_parts(d, scope, config_file, customizations, container, image);
    lemma_same_rest(c, d, scope, config_file, customizations, image);
    let given = expanded(m@, *scope.workspace, scope.target@, scope.host@);
    let bound = "type=bind,source="@ + scope.workspace.folder@ + ",target="@ + scope.target@
        + ",consistency=cached"@;
    assert(workspace_plan(c, scope).args =~= seq!["--mount"@, bound, "-w"@, scope.target@]);
    assert(workspace_plan(d, scope).args =~= seq!["--mount"@, given, "-w"@, scope.target@]);
    lemma_other_mount(
        run_plan(c, scope, config_file, customizations, container, image).args,
        run_plan(d, scope, config_file, customizations, container, image).args,
        seq!["run"@, "-d"@, "--name"@, container] + switch(c.init == Some(true), "--init"@).args
            + switch(c.privileged == Some(true), "--privileged"@).args + run_rights(
            c,
            scope,
            config_file,
            customizations,
        ).args,
        run_rest(c, scope, image).args,
        bound,
        given,
        scope.target@,
    );
}

/// A `workspaceMount` is handed to `docker run` before the image, expanded; only without one the
/// workspace's folder is bound.
#[verifier::spinoff_prover]
#[verifier::rlimit(60)]
pub proof fn law_run_mounts_the_workspace(
    c: DevContainerConfig,
    scope: Scope,
    config_file: Seq<char>,
    customizations: JsonView,
    container: Seq<char>,
    image: Seq<char>,
)
    ensures
        ({
            let front = before_image(
                c,
                run_plan(c, scope, config_file, customizations, container, image).args,
            );
            &&& c.workspace_mount matches Some(m) ==> has_pair(
                front,
                "--mount"@,
                expanded(m@, *scope.workspace, scope.target@, scope.host@),
            )
            &&& c.workspace_mount is None ==> has_pair(
                front,
                "--mount"@,
                "type=bind,source="@ + scope.workspace.folder@ + ",target="@ + scope.target@
                    + ",consistency=cached"@,
            )
            &&& has_pair(front, "-w"@, scope.target@)
        }),
{
    broadcast use group_plans;

    lemma_before_image(c, scope, config_file, customizations, container, image);
    let mount = workspace_plan(c, scope).args;
    assert(pair_at(mount, "-w"@, scope.target@, 2));
    if let Some(m) = c.workspace_mount {
        let given = expanded(m@, *scope.workspace, scope.target@, scope.host@);
        assert(pair_at(mount, "--mount"@, given, 0));
    } else {
        assert(pair_at(
            mount,
            "--mount"@,
            "type=bind,source="@ + scope.workspace.folder@ + ",target="@ + scope.target@
                + ",consistency=cached"@,
            0,
        ));
    }
}

/// Whether the flags `flag` with the values `first` come before a place in the command line and those
/// with the values `second` after it.
pub open spec fn pairs_in_turn(
    args: Seq<Seq<char>>,
    flag: Seq<char>,
    first: Seq<Seq<char>>,
    second: Seq<Seq<char>>,
    k: int,
) -> bool {
    &&& 0 <= k <= args.len()
    &&& forall|i: int| 0 <= i < first.len() ==> has_pair(args.take(k), flag, #[trigger] first[i])
    &&& forall|i: int| 0 <= i < second.len() ==> has_pair(args.skip(k), flag, #[trigger] second[i])
}

/// The variables of the container as they are handed over: references among them are resolved, and the
/// values then expanded.
pub open spec fn assigned(env: Seq<(Seq<char>, Seq<char>)>, scope: Scope) -> Seq<Seq<char>> {
    Seq::new(
        env.len(),
        |i: int|
            env[i].0 + "="@ + expanded(
                env_resolved(env[i].1, env, 10),
                *scope.workspace,
                scope.target@,
                scope.host@,
            ),
    )
}

/// The secrets as they are handed over.
pub open spec fn assigned_secrets(c: DevContainerConfig, host: Seq<(Seq<char>, Seq<char>)>) -> Seq<
    Seq<char>,
> {
    let secrets = secret_entries(secret_specs(c), host);
    Seq::new(secrets.len(), |i: int| secrets[i].0 + "="@ + secrets[i].1)
}

/// `docker run` hands over every variable of `containerEnv` and every secret that has a value, the
/// secrets behind the variables, so that a secret overrides a variable of its name.
#[verifier::spinoff_prover]
#[verifier::rlimit(60)]
pub proof fn law_run_sets_variables(
    c: DevContainerConfig,
    scope: Scope,
    config_file: Seq<char>,
    customizations: JsonView,
    container: Seq<char>,
    image: Seq<char>,
)
    ensures
        ({
            let front = before_image(
                c,
                run_plan(c, scope, config_file, customizations, container, image).args,
            );
            exists|k: int| #[trigger]
                pairs_in_turn(
                    front,
                    "-e"@,
                    assigned(c.container_env@, scope),
                    assigned_secrets(c, scope.host@),
                    k,
                )
        }),
{
    broadcast use group_plans;

    lemma_before_image(c, scope, config_file, customizations, container, image);
    let whole = run_options(c, scope, config_file, customizations, container);
    let (start, rest) = lemma_split_at_secrets(c, scope, config_file, customizations, container);
    let k = start.args.len() as int;
    let front = whole.args;
    assert(front.take(k) =~= start.args);
    assert(front.skip(k) =~= rest.args);
    let env = c.container_env@;
    let first = assigned(env, scope);
    assert forall|i: int| 0 <= i < first.len() implies has_pair(
        start.args,
        "-e"@,
        #[trigger] first[i],
    ) by {
        let f = |e: (Seq<char>, Seq<char>)|
            expanded_pair(scope, "-e"@, e.0, env_resolved(e.1, env, 10));
        assert(pair_at(f(env[i]).args, "-e"@, first[i], 0));
        lemma_each_pair(env, f, i, "-e"@, first[i]);
    }
    let second = assigned_secrets(c, scope.host@);
    let secrets = secret_entries(secret_specs(c), scope.host@);
    assert forall|i: int| 0 <= i < second.len() implies has_pair(
        rest.args,
        "-e"@,
        #[trigger] second[i],
    ) by {
        let f = |e: (Seq<char>, Seq<char>)| secret_plan(env, e.0, e.1);
        lemma_each_pair(secrets, f, i, "-e"@, second[i]);
    }
    assert(pairs_in_turn(front, "-e"@, first, second, k));
}

#[verifier::spinoff_prover]
#[verifier::rlimit(60)]
proof fn lemma_split_at_secrets(
    c: DevContainerConfig,
    scope: Scope,
    config_file: Seq<char>,
    customizations: JsonView,
    container: Seq<char>,
) -> (res: (PlanView, PlanView))
    ensures
        run_options(c, scope, config_file, customizations, container).args == res.0.args
            + res.1.args,
        forall|v: Seq<char>|
            has_pair(container_env_plan(c.container_env@, scope).args, "-e"@, v) ==> #[trigger] has_pair(
                res.0.args,
                "-e"@,
                v,
            ),
        forall|v: Seq<char>|
            has_pair(
                each(
                    secret_entries(secret_specs(c), scope.host@),
                    |e: (Seq<char>, Seq<char>)| secret_plan(c.container_env@, e.0, e.1),
                ).args,
                "-e"@,
                v,
            ) ==> #[trigger] has_pair(res.1.args, "-e"@, v),
{
    broadcast use group_plans;

    let forwarded = forward_texts(c.forward_ports@);
    let a = warning_if(
        scope.workspace.folder@.contains(','),
        "Warning: workspace path contains ',', which breaks docker --mount parsing; the workspace mount will fail"@,
    );
    let b = warning_if(
        scope.workspace.folder@.contains('='),
        "Warning: workspace path contains '=', which breaks docker label filters"@,
    );
    let start = nothing().and(a).and(b).and(word("run"@)).and(word("-d"@)).and(
        option("--name"@, container),
    ).and(switch(c.init == Some(true), "--init"@)).and(
        switch(c.privileged == Some(true), "--privileged"@),
    ).and(each(texts(c.cap_add@), |v: Seq<char>| option("--cap-add"@, v))).and(
        each(texts(c.security_opt@), |v: Seq<char>| option("--security-opt"@, v)),
    ).and(expanded_words(scope, texts(c.run_args@))).and(
        labels_plan(c, *scope.workspace, config_file),
    ).and(customizations_plan(customizations)).and(workspace_plan(c, scope)).and(
        mounts_plan(c.mounts@, scope),
    ).and(container_env_plan(c.container_env@, scope));
    let base = start.args;
    assert(base + nothing().args =~= base);
    let q = secrets_plan(c, scope.host@);
    lemma_tail(base, start, nothing(), q);
    let (x, r) = (start.and(q), nothing().and(q));
    let q = ports_plan(c, "forwardPorts"@, Seq::empty(), forwarded);
    lemma_tail(base, x, r, q);
    let (x, r) = (x.and(q), r.and(q));
    let q = ports_plan(
        c,
        "appPort"@,
        seen_all(c, Seq::empty(), forwarded),
        app_ports(c.app_port),
    );
    lemma_tail(base, x, r, q);
    let (x, r) = (x.and(q), r.and(q));
    let q = opt_flag("--user"@, opt_text(c.container_user));
    lemma_tail(base, x, r, q);
    let (x, r) = (x.and(q), r.and(q));
    assert(x == run_options(c, scope, config_file, customizations, container));
    (start, r)
}

/// Every port of the two lists that can be published and is not to be ignored is published by `docker
/// run` before the image.
#[verifier::spinoff_prover]
#[verifier::rlimit(60)]
pub proof fn law_run_publishes_ports(
    c: DevContainerConfig,
    scope: Scope,
    config_file: Seq<char>,
    customizations: JsonView,
    container: Seq<char>,
    image: Seq<char>,
    spec: Seq<char>,
)
    requires
        forward_texts(c.forward_ports@).contains(spec) || app_ports(c.app_port).contains(spec),
        !attribute_is(c, spec, "onAutoForward"@, "ignore"@),
        published_for(c, spec) is Some,
    ensures
        has_pair(
            before_image(
                c,
                run_plan(c, scope, config_file, customizations, container, image).args,
            ),
            "-p"@,
            published_for(c, spec)->0,
        ),
{
    broadcast use group_plans;

    lemma_before_image(c, scope, config_file, customizations, container, image);
    let forwarded = forward_texts(c.forward_ports@);
    if forwarded.contains(spec) {
        let i = choose|i: int| 0 <= i < forwarded.len() && forwarded[i] == spec;
        lemma_port_published(c, "forwardPorts"@, Seq::empty(), forwarded, i);
    } else {
        let specs = app_ports(c.app_port);
        let i = choose|i: int| 0 <= i < specs.len() && specs[i] == spec;
        lemma_port_published(
            c,
            "appPort"@,
            seen_all(c, Seq::empty(), forwarded),
            specs,
            i,
        );
    }
}

proof fn lemma_port_published(
    c: DevContainerConfig,
    kind: Seq<char>,
    seen: Seq<Seq<char>>,
    specs: Seq<Seq<char>>,
    i: int,
)
    requires
        0 <= i < specs.len(),
        !attribute_is(c, specs[i], "onAutoForward"@, "ignore"@),
        published_for(c, specs[i]) is Some,
    ensures
        has_pair(ports_plan(c, kind, seen, specs).args, "-p"@, published_for(c, specs[i])->0),
    decreases specs.len(),
{
    broadcast use group_plans;

    if i < specs.len() - 1 {
        assert(specs.drop_last()[i] == specs[i]);
        lemma_port_published(c, kind, seen, specs.drop_last(), i);
    }
}

/// Every additional mount is handed to `docker run` before the image: one in Docker's syntax as it is
/// expanded, one given as an object with its kind, its source and its target, the latter two expanded,
/// and `readonly` where it says so.
#[verifier::spinoff_prover]
#[verifier::rlimit(60)]
pub proof fn law_run_mounts(
    c: DevContainerConfig,
    scope: Scope,
    config_file: Seq<char>,
    customizations: JsonView,
    container: Seq<char>,
    image: Seq<char>,
    i: int,
)
    requires
        0 <= i < c.mounts@.len(),
    ensures
        ({
            let front = before_image(
                c,
                run_plan(c, scope, config_file, customizations, container, image).args,
            );
            let outside = |s: Seq<char>|
                expanded(s, *scope.workspace, scope.target@, scope.host@);
            match c.mounts@[i] {
                MountValue::String(s) => has_pair(front, "--mount"@, outside(s@)),
                MountValue::Object(o) => {
                    let end = if o.readonly == Some(true) {
                        ","@ + "readonly"@
                    } else {
                        Seq::empty()
                    };
                    &&& o.mount_type is Some && o.source is Some && o.target is Some ==> has_pair(
                        front,
                        "--mount"@,
                        "type="@ + o.mount_type->0@ + ","@ + ("source="@ + outside(o.source->0@))
                            + ","@ + ("target="@ + outside(o.target->0@)) + end,
                    )
                    &&& o.mount_type is None && o.source is Some && o.target is Some ==> has_pair(
                        front,
                        "--mount"@,
                        "source="@ + outside(o.source->0@) + ","@ + ("target="@ + outside(
                            o.target->0@,
                        )) + end,
                    )
                    &&& o.mount_type is Some && o.source is None && o.target is Some ==> has_pair(
                        front,
                        "--mount"@,
                        "type="@ + o.mount_type->0@ + ","@ + ("target="@ + outside(o.target->0@))
                            + end,
                    )
                },
            }
        }),
{
    broadcast use group_plans;

    lemma_before_image(c, scope, config_file, customizations, container, image);
    let f = |m: MountValue| mount_plan(m, scope);
    let outside = |s: Seq<char>| expanded(s, *scope.workspace, scope.target@, scope.host@);
    match c.mounts@[i] {
        MountValue::String(s) => {
            assert(pair_at(f(c.mounts@[i]).args, "--mount"@, outside(s@), 0));
            lemma_each_pair(c.mounts@, f, i, "--mount"@, outside(s@));
        },
        MountValue::Object(o) => {
            let v = mount_parts(o, scope);
            let text = joined(v, ","@);
            lemma_joined_parts(o, scope);
            if o.target is Some {
                assert(v.len() > 0);
                lemma_each_pair(c.mounts@, f, i, "--mount"@, text);
            }
        },
    }
}

pub proof fn lemma_joined_parts(o: MountObject, scope: Scope)
    ensures
        ({
            let text = joined(mount_parts(o, scope), ","@);
            let outside = |s: Seq<char>|
                expanded(s, *scope.workspace, scope.target@, scope.host@);
            let end = if o.readonly == Some(true) {
                ","@ + "readonly"@
            } else {
                Seq::empty()
            };
            &&& o.mount_type is Some && o.source is Some && o.target is Some ==> text == "type="@
                + o.mount_type->0@ + ","@ + ("source="@ + outside(o.source->0@)) + ","@ + ("target="@
                + outside(o.target->0@)) + end
            &&& o.mount_type is None && o.source is Some && o.target is Some ==> text == "source="@
                + outside(o.source->0@) + ","@ + ("target="@ + outside(o.target->0@)) + end
            &&& o.mount_type is Some && o.source is None && o.target is Some ==> text == "type="@
                + o.mount_type->0@ + ","@ + ("target="@ + outside(o.target->0@)) + end
        }),
{
    reveal_with_fuel(joined, 5);
    let v = mount_parts(o, scope);
    let a = "type="@ + o.mount_type->0@;
    let b = "source="@ + scope.value(o.source->0@);
    let c = "target="@ + scope.value(o.target->0@);
    let d = "readonly"@;
    let text = joined(v, ","@);
    if o.target is Some {
        if o.readonly == Some(true) {
            let w = v.drop_last();
            if o.mount_type is Some && o.source is Some {
                assert(v =~= seq![a, b, c, d]);
                assert(w =~= seq![a, b, c]);
                assert(w.drop_last() =~= seq![a, b]);
                assert(w.drop_last().drop_last() =~= seq![a]);
                assert(text =~= a + ","@ + b + ","@ + c + (","@ + d));
            } else if o.source is Some {
                assert(v =~= seq![b, c, d]);
                assert(w =~= seq![b, c]);
                assert(w.drop_last() =~= seq![b]);
                assert(text =~= b + ","@ + c + (","@ + d));
            } else if o.mount_type is Some {
                assert(v =~= seq![a, c, d]);
                assert(w =~= seq![a, c]);
                assert(w.drop_last() =~= seq![a]);
                assert(text =~= a + ","@ + c + (","@ + d));
            }
        } else {
            let none = Seq::<char>::empty();
            if o.mount_type is Some && o.source is Some {
                assert(v =~= seq![a, b, c]);
                assert(v.drop_last() =~= seq![a, b]);
                assert(v.drop_last().drop_last() =~= seq![a]);
                assert(text =~= a + ","@ + b + ","@ + c + none);
            } else if o.source is Some {
                assert(v =~= seq![b, c]);
                assert(v.drop_last() =~= seq![b]);
                assert(text =~= b + ","@ + c + none);
            } else if o.mount_type is Some {
                assert(v =~= seq![a, c]);
                assert(v.drop_last() =~= seq![a]);
                assert(text =~= a + ","@ + c + none);
            }
        }
    }
}

/// A container carries the folder of its workspace, the configuration file, the workspace's identifier
/// and what the configuration says about ports as labels, and what features say to the tools.
#[verifier::spinoff_prover]
#[verifier::rlimit(60)]
pub proof fn law_run_labels(
    c: DevContainerConfig,
    scope: Scope,
    config_file: Seq<char>,
    customizations: JsonView,
    container: Seq<char>,
    image: Seq<char>,
)
    ensures
        ({
            let front = before_image(
                c,
                run_plan(c, scope, config_file, customizations, container, image).args,
            );
            let folder = scope.workspace.folder@;
            &&& has_pair(front, "--label"@, "devcontainer.local_folder="@ + folder)
            &&& has_pair(front, "--label"@, "devcontainer.config_file="@ + config_file)
            &&& has_pair(front, "--label"@, "devcontainer.id="@ + workspace_id(folder))
            &&& c.ports_attributes matches Some(j) ==> has_pair(
                front,
                "--label"@,
                "devcontainer.ports_attributes="@ + json_text(j@),
            )
            &&& c.other_ports_attributes matches Some(j) ==> has_pair(
                front,
                "--label"@,
                "devcontainer.other_ports_attributes="@ + json_text(j@),
            )
            &&& (customizations matches JsonView::Object(m) && m.len() > 0) ==> has_pair(
                front,
                "--label"@,
                "devcontainer.customizations="@ + json_text(customizations),
            )
        }),
{
    broadcast use group_plans;

    lemma_before_image(c, scope, config_file, customizations, container, image);
}

/// `docker build` builds the image of the given name from the given Dockerfile and, as its last word,
/// the given context. Build arguments, options and cache sources are expanded; the target is not.
#[verifier::spinoff_prover]
#[verifier::rlimit(60)]
pub proof fn law_build(
    build: BuildConfig,
    scope: Scope,
    dockerfile: Seq<char>,
    context: Seq<char>,
    image: Seq<char>,
    no_cache: bool,
)
    ensures
        ({
            let args = build_plan(build, scope, dockerfile, context, image, no_cache).args;
            let front = args.drop_last();
            let outside = |s: Seq<char>|
                expanded(s, *scope.workspace, scope.target@, scope.host@);
            &&& args.len() >= 6
            &&& args[0] == "build"@
            &&& pair_at(args, "-f"@, dockerfile, 1)
            &&& pair_at(args, "-t"@, image, 3)
            &&& args.last() == context
            &&& forall|i: int|
                0 <= i < build.args@.len() ==> has_pair(
                    front,
                    "--build-arg"@,
                    (#[trigger] build.args@[i]).0 + "="@ + outside(build.args@[i].1),
                )
            &&& build.target matches Some(t) ==> has_pair(front, "--target"@, t@)
            &&& forall|i: int|
                0 <= i < build.options@.len() ==> front.contains(
                    outside((#[trigger] build.options@[i])@),
                )
            &&& build.cache_from matches Some(CacheFromValue::Single(s)) ==> has_pair(
                front,
                "--cache-from"@,
                outside(s@),
            )
            &&& build.cache_from matches Some(CacheFromValue::Multiple(v)) ==> forall|i: int|
                0 <= i < v@.len() ==> has_pair(
                    front,
                    "--cache-from"@,
                    outside((#[trigger] v@[i])@),
                )
            &&& no_cache ==> front.last() == "--no-cache"@
        }),
{
    broadcast use group_plans;

    let outside = |s: Seq<char>| expanded(s, *scope.workspace, scope.target@, scope.host@);
    let start = nothing().and(word("build"@)).and(option("-f"@, dockerfile)).and(
        option("-t"@, image),
    );
    assert(start.args =~= seq!["build"@, "-f"@, dockerfile, "-t"@, image]);
    let whole = build_plan(build, scope, dockerfile, context, image, no_cache).args;
    let front = start.and(pairs_plan(scope, "--build-arg"@, build.args@)).and(
        opt_flag("--target"@, opt_text(build.target)),
    ).and(expanded_words(scope, texts(build.options@))).and(
        expanded_options(scope, "--cache-from"@, cache_sources(build.cache_from)),
    ).and(switch(no_cache, "--no-cache"@));
    assert(whole =~= front.args.push(context));
    assert(whole.drop_last() =~= front.args);
    let m = build.args@;
    assert forall|i: int| 0 <= i < m.len() implies has_pair(
        front.args,
        "--build-arg"@,
        (#[trigger] m[i]).0 + "="@ + outside(m[i].1),
    ) by {
        let f = |e: (Seq<char>, Seq<char>)| expanded_pair(scope, "--build-arg"@, e.0, e.1);
        let v = m[i].0 + "="@ + outside(m[i].1);
        assert(pair_at(f(m[i]).args, "--build-arg"@, v, 0));
        lemma_each_pair(m, f, i, "--build-arg"@, v);
    }
    assert forall|i: int| 0 <= i < build.options@.len() implies front.args.contains(
        outside((#[trigger] build.options@[i])@),
    ) by {
        let s = build.options@[i]@;
        assert(expanded_word(scope, s).args[0] == outside(s));
        lemma_each_word(
            texts(build.options@),
            |s: Seq<char>| expanded_word(scope, s),
            i,
            outside(s),
        );
    }
    let sources = cache_sources(build.cache_from);
    assert forall|i: int| 0 <= i < sources.len() implies has_pair(
        front.args,
        "--cache-from"@,
        outside(#[trigger] sources[i]),
    ) by {
        let f = |s: Seq<char>| expanded_option(scope, "--cache-from"@, s);
        assert(pair_at(f(sources[i]).args, "--cache-from"@, outside(sources[i]), 0));
        lemma_each_pair(sources, f, i, "--cache-from"@, outside(sources[i]));
    }
    if let Some(CacheFromValue::Single(s)) = build.cache_from {
        assert(sources[0] == s@);
    }
    if let Some(CacheFromValue::Multiple(v)) = build.cache_from {
        assert forall|i: int| 0 <= i < v@.len() implies has_pair(
            front.args,
            "--cache-from"@,
            outside((#[trigger] v@[i])@),
        ) by {
            assert(sources[i] == v@[i]@);
        }
    }
    if no_cache {
        assert(front.args.last() == "--no-cache"@);
    }
}

/// Whether the cache is used makes no other difference to `docker build`, and nothing but what the
/// configuration says is handed over.
pub proof fn law_build_without_cache(
    build: BuildConfig,
    scope: Scope,
    dockerfile: Seq<char>,
    context: Seq<char>,
    image: Seq<char>,
)
    ensures
        ({
            let with = build_plan(build, scope, dockerfile, context, image, false).args;
            let without = build_plan(build, scope, dockerfile, context, image, true).args;
            &&& without == with.insert(with.len() - 1, "--no-cache"@)
            &&& with.len() == 6 + 2 * build.args@.len() + (if build.target is Some {
                2int
            } else {
                0int
            }) + build.options@.len() + 2 * (match build.cache_from {
                None => 0,
                Some(CacheFromValue::Single(_)) => 1,
                Some(CacheFromValue::Multiple(v)) => v@.len(),
            })
        }),
{
    let with = build_plan(build, scope, dockerfile, context, image, false).args;
    let without = build_plan(build, scope, dockerfile, context, image, true).args;
    let start = nothing().and(word("build"@)).and(option("-f"@, dockerfile)).and(
        option("-t"@, image),
    );
    let a = pairs_plan(scope, "--build-arg"@, build.args@);
    let b = opt_flag("--target"@, opt_text(build.target));
    let c = expanded_words(scope, texts(build.options@));
    let d = expanded_options(scope, "--cache-from"@, cache_sources(build.cache_from));
    let front = start.and(a).and(b).and(c).and(d).args;
    assert(with =~= front.push(context));
    assert(without =~= front.push("--no-cache"@).push(context));
    assert(without =~= with.insert(with.len() - 1, "--no-cache"@));
    lemma_each_len(
        build.args@,
        |e: (Seq<char>, Seq<char>)| expanded_pair(scope, "--build-arg"@, e.0, e.1),
        2,
    );
    lemma_each_len(texts(build.options@), |s: Seq<char>| expanded_word(scope, s), 1);
    lemma_each_len(
        cache_sources(build.cache_from),
        |s: Seq<char>| expanded_option(scope, "--cache-from"@, s),
        2,
    );
    assert(start.args.len() == 5);
}

/// `docker exec` runs the command, word for word and behind everything else, in the container of the
/// given name: as the given user, in the given directory, with the given variables, and with a terminal
/// where one is wanted.
#[verifier::spinoff_prover]
#[verifier::rlimit(60)]
pub proof fn law_exec(
    container: Seq<char>,
    tty: bool,
    user: Option<Seq<char>>,
    workdir: Option<Seq<char>>,
    command: Seq<Seq<char>>,
    env: Option<Seq<(Seq<char>, Seq<char>)>>,
    container_env: Option<Seq<(Seq<char>, Seq<char>)>>,
    scope: Scope,
)
    ensures
        ({
            let args = exec_plan(
                container,
                tty,
                user,
                workdir,
                command,
                env,
                container_env,
                scope,
            ).args;
            let k = args.len() - command.len();
            let front = args.take(k - 1);
            &&& k >= 3
            &&& args.skip(k) == command
            &&& args[k - 1] == container
            &&& args[0] == "exec"@
            &&& args[1] == (if tty {
                "-it"@
            } else {
                "-i"@
            })
            &&& user matches Some(u) ==> pair_at(args, "--user"@, u, 2)
            &&& workdir matches Some(w) ==> has_pair(front, "-w"@, w)
            &&& env matches Some(m) ==> forall|i: int|
                0 <= i < m.len() ==> has_pair(
                    front,
                    "-e"@,
                    (#[trigger] m[i]).0 + "="@ + expanded(
                        exec_value(m[i].1, container_env),
                        *scope.workspace,
                        scope.target@,
                        scope.host@,
                    ),
                )
            &&& k == 3 + (if user is Some {
                2int
            } else {
                0int
            }) + (if workdir is Some {
                2int
            } else {
                0int
            }) + (match env {
                Some(m) => 2 * m.len() as int,
                None => 0int,
            })
        }),
{
    broadcast use group_plans;

    let args = exec_plan(container, tty, user, workdir, command, env, container_env, scope).args;
    let start = nothing().and(word("exec"@)).and(
        word(
            if tty {
                "-it"@
            } else {
                "-i"@
            },
        ),
    ).and(opt_flag("--user"@, user));
    let front = start.and(opt_flag("-w"@, workdir)).and(
        exec_env_plan(env, container_env, scope),
    );
    assert(args =~= front.args.push(container) + command);
    let k = args.len() - command.len();
    assert(args.skip(k) =~= command);
    assert(args.take(k - 1) =~= front.args);
    assert(start.args[0] == "exec"@);
    if let Some(u) = user {
        assert(pair_at(start.args, "--user"@, u, 2));
    }
    if let Some(m) = env {
        let f = |e: (Seq<char>, Seq<char>)|
            expanded_pair(scope, "-e"@, e.0, exec_value(e.1, container_env));
        lemma_each_len(m, f, 2);
        assert forall|i: int| 0 <= i < m.len() implies has_pair(
            front.args,
            "-e"@,
            (#[trigger] m[i]).0 + "="@ + expanded(
                exec_value(m[i].1, container_env),
                *scope.workspace,
                scope.target@,
                scope.host@,
            ),
        ) by {
            let v = m[i].0 + "="@ + expanded(
                exec_value(m[i].1, container_env),
                *scope.workspace,
                scope.target@,
                scope.host@,
            );
            assert(pair_at(f(m[i]).args, "-e"@, v, 0));
            lemma_each_pair(m, f, i, "-e"@, v);
        }
    }
}

// ---------------------------------------------------------------------------------------------
// What the answers mean

/// A container that was created for a workspace is found by the workspace's filter, which asks for the
/// very label that the container was given; it counts as one of that workspace and of no other.
#[verifier::spinoff_prover]
#[verifier::rlimit(60)]
pub proof fn law_containers_are_found_again(
    c: DevContainerConfig,
    scope: Scope,
    config_file: Seq<char>,
    customizations: JsonView,
    container: Seq<char>,
    image: Seq<char>,
    other: Seq<char>,
)
    requires
        ({
            let folder = scope.workspace.folder@;
            &&& folder.len() > 0
            &&& !is_white_space(folder[0]) && !is_white_space(folder.last())
            &&& !folder.contains(',') && !folder.contains('=')
        }),
    ensures
        ({
            let folder = scope.workspace.folder@;
            let label = "devcontainer.local_folder="@ + folder;
            let front = before_image(
                c,
                run_plan(c, scope, config_file, customizations, container, image).args,
            );
            &&& has_pair(front, "--label"@, label)
            &&& filter_of(folder) == Some("label="@ + label)
            &&& labelled_workspace(true, folder + seq!['\n']) == Some(folder)
            &&& mismatch(container, Some(folder), folder) is None
            &&& other != folder ==> mismatch(container, Some(folder), other) is Some
        }),
{
    let folder = scope.workspace.folder@;
    law_run_labels(c, scope, config_file, customizations, container, image);
    reveal_strlit("label=");
    reveal_strlit("devcontainer.local_folder=");
    reveal_strlit("label=devcontainer.local_folder=");
    assert("label=devcontainer.local_folder="@ + folder =~= "label="@ + (
    "devcontainer.local_folder="@ + folder));
    let none = Seq::<char>::empty();
    assert(all_white(seq!['\n']));
    law_trimmed(none, folder, seq!['\n']);
    assert(none + folder + seq!['\n'] =~= folder + seq!['\n']);
}

/// Paths that Docker's filters cannot hold have no filter, and a container without a label, or about
/// which nothing was answered, belongs to nobody and is not refused.
pub proof fn law_unlabelled_containers(name: Seq<char>, folder: Seq<char>, stdout: Seq<char>)
    ensures
        folder.contains(',') || folder.contains('=') <==> filter_of(folder) is None,
        labelled_workspace(false, stdout) is None,
        labelled_workspace(true, seq!['\n']) is None,
        mismatch(name, None, folder) is None,
{
    let none = Seq::<char>::empty();
    assert(all_white(seq!['\n']));
    law_trimmed(none, none, seq!['\n']);
    assert(none + none + seq!['\n'] =~= seq!['\n']);
}

/// A container runs if and only if the line of its name says that it is up or restarting; a line of
/// another name says nothing about it, and a container without a line is not there.
pub proof fn law_container_state(
    name: Seq<char>,
    other: Seq<char>,
    status: Seq<char>,
    rest: Seq<char>,
)
    requires
        name.len() > 0 && !is_white_space(name[0]) && !is_white_space(name.last()),
        other.len() > 0 && !is_white_space(other[0]) && !is_white_space(other.last()),
        name != other,
        !name.contains('\n') && !name.contains('\t'),
        !other.contains('\n') && !other.contains('\t'),
        !status.contains('\n') && !status.contains('\t') && !status.contains('\r'),
        status.len() > 0,
    ensures
        state_from(lines(name + seq!['\t'] + status + seq!['\n'] + rest), name, 0) == (
            true,
            begins_with(status, "Up"@) || begins_with(status, "Restarting"@),
        ),
        state_from(lines(other + seq!['\t'] + status + seq!['\n'] + rest), name, 0)
            == state_from(lines(rest), name, 0),
        state_from(lines(Seq::empty()), name, 0) == (false, false),
{
    let none = Seq::<char>::empty();
    lemma_state_line(name, status, rest);
    lemma_state_line(other, status, rest);
    law_trimmed(none, name, none);
    assert(none + name + none =~= name);
    law_trimmed(none, other, none);
    assert(none + other + none =~= other);
    let v = lines(other + seq!['\t'] + status + seq!['\n'] + rest);
    assert(v.skip(1) =~= lines(rest));
    lemma_state_shift(v, lines(rest), name, 0);
    law_lines(none, none);
}

proof fn lemma_state_line(name: Seq<char>, status: Seq<char>, rest: Seq<char>)
    requires
        !name.contains('\n') && !name.contains('\t'),
        !status.contains('\n') && !status.contains('\t') && !status.contains('\r'),
        status.len() > 0,
    ensures
        lines(name + seq!['\t'] + status + seq!['\n'] + rest) == seq![name + seq!['\t'] + status]
            + lines(rest),
        pieces(name + seq!['\t'] + status, '\t') == seq![name, status],
{
    let line = name + seq!['\t'] + status;
    if line.contains('\n') {
        let i = choose|i: int| 0 <= i < line.len() && line[i] == '\n';
        if i < name.len() {
            assert(name.contains(name[i]));
        } else if i > name.len() {
            assert(status.contains(status[i - name.len() - 1]));
        }
    }
    assert(line.last() == status.last());
    assert(status.contains(status.last()));
    law_lines(line, rest);
    law_pieces(name, status, '\t');
    law_pieces(status, Seq::empty(), '\t');
    assert(seq![name] + seq![status] =~= seq![name, status]);
}

proof fn lemma_state_shift(v: Seq<Seq<char>>, w: Seq<Seq<char>>, name: Seq<char>, i: int)
    requires
        0 <= i <= w.len(),
        v.len() == w.len() + 1,
        v.skip(1) == w,
    ensures
        state_from(v, name, i + 1) == state_from(w, name, i),
    decreases w.len() - i,
{
    if i < w.len() {
        assert(v.skip(1)[i] == v[i + 1]);
        lemma_state_shift(v, w, name, i + 1);
    }
}

/// Each line of a list of names lists the name on it, whatever white space surrounds it, and nothing
/// else does.
pub proof fn law_listed_names(line: Seq<char>, rest: Seq<char>, name: Seq<char>)
    requires
        !line.contains('\n'),
        !line.contains('\r'),
    ensures
        lists_name(line + seq!['\n'] + rest, name) <==> trimmed(line) == name || lists_name(
            rest,
            name,
        ),
        !lists_name(Seq::empty(), name),
        named_lines(lines(line + seq!['\n'])) == (if trimmed(line).len() == 0 {
            Seq::empty()
        } else {
            seq![trimmed(line)]
        }),
{
    let none = Seq::<char>::empty();
    law_lines(line, rest);
    law_lines(line, none);
    law_lines(none, none);
    assert(line + seq!['\n'] + none =~= line + seq!['\n']);
    if line.len() > 0 {
        assert(line.contains(line.last()));
    }
    assert(without_cr(line) == line);
    let all = lines(line + seq!['\n'] + rest);
    assert(all =~= seq![line] + lines(rest));
    if trimmed(line) == name {
        assert(trimmed(all[0]) == name);
    }
    if lists_name(rest, name) {
        let i = choose|i: int| 0 <= i < lines(rest).len() && trimmed(#[trigger] lines(rest)[i]) == name;
        assert(trimmed(all[i + 1]) == name);
    }
    if lists_name(line + seq!['\n'] + rest, name) && trimmed(line) != name {
        let i = choose|i: int| 0 <= i < all.len() && trimmed(#[trigger] all[i]) == name;
        assert(lines(rest)[i - 1] == all[i]);
    }
    let one = lines(line + seq!['\n']);
    assert(one =~= seq![line]);
    assert(one.drop_last() =~= Seq::empty());
    assert(named_lines(one.drop_last()) =~= Seq::empty());
    assert(named_lines(one) =~= if trimmed(line).len() == 0 {
        Seq::empty()
    } else {
        seq![trimmed(line)]
    });
}

/// A secret has the value of the host's variable that it names, or of the variable of its own name where
/// it names none; nothing but an object is a secret. Exactly the secrets with a value are handed over,
/// in their order.
pub proof fn law_secret_values(
    key: Seq<char>,
    spec: Seq<(Seq<char>, JsonView)>,
    named: Seq<char>,
    other: JsonView,
    host: Seq<(Seq<char>, Seq<char>)>,
    before: Seq<(Seq<char>, JsonView)>,
)
    requires
        other !is Object,
    ensures
        lookup(spec, "localEnv"@) == Some(JsonView::String(named)) ==> secret_value(
            key,
            JsonView::Object(spec),
            host,
        ) == lookup(host, named),
        lookup(spec, "localEnv"@) is None ==> secret_value(key, JsonView::Object(spec), host)
            == lookup(host, key),
        secret_value(key, other, host) is None,
        secret_entries(Seq::empty(), host) == Seq::<(Seq<char>, Seq<char>)>::empty(),
        secret_entries(before.push((key, other)), host) == secret_entries(before, host),
        match secret_value(key, JsonView::Object(spec), host) {
            Some(v) => secret_entries(before.push((key, JsonView::Object(spec))), host)
                == secret_entries(before, host).push((key, v)),
            None => secret_entries(before.push((key, JsonView::Object(spec))), host)
                == secret_entries(before, host),
        },
{
    assert(before.push((key, other)).drop_last() =~= before);
    assert(before.push((key, JsonView::Object(spec))).drop_last() =~= before);
}

/// A secret that is not handed over is warned about.
pub proof fn law_missing_secrets_are_warned_about(
    key: Seq<char>,
    spec: JsonView,
    host: Seq<(Seq<char>, Seq<char>)>,
)
    ensures
        secret_value(key, spec, host) is None ==> secret_notes(key, spec, host).len() > 0
            && secret_notes(key, spec, host).last() is Warning,
{
}

/// The image of a build has a name that Docker accepts: `bondar-` and lower-case letters, digits and
/// dashes, at least one. It comes from the configured name, or else from that of the workspace folder,
/// whatever their case; without a build it is the configured image, as it is.
pub proof fn law_image_names(c: DevContainerConfig, workspace: Workspace)
    ensures
        c.build is None ==> image_name_of(c, workspace) == opt_text(c.image),
        c.build is Some ==> {
            let name = image_name_of(c, workspace)->0;
            let from = match c.name {
                Some(n) => n@,
                None => match workspace.basename {
                    Some(b) => b@,
                    None => "workspace"@,
                },
            };
            &&& image_name_of(c, workspace) is Some
            &&& begins_with(name, "bondar-"@)
            &&& name.len() > 7
            &&& accepted_name(name.skip(7))
            &&& from.len() > 0 ==> kept_in(from, name.skip(7))
        },
{
    reveal_strlit("bondar-");
    reveal_strlit("workspace");
    if c.build is Some {
        let name = image_name_of(c, workspace)->0;
        assert(name.subrange(0, 7) =~= "bondar-"@);
        let from = match c.name {
            Some(n) => n@,
            None => match workspace.basename {
                Some(b) => b@,
                None => "workspace"@,
            },
        };
        if from.len() > 0 {
            assert(name.skip(7) =~= image_slug(from));
            lemma_slug(from);
        } else {
            assert(name.skip(7) =~= "workspace"@);
        }
    }
}

/// Whether a text holds nothing but lower-case letters, digits and dashes.
pub open spec fn accepted_name(s: Seq<char>) -> bool {
    forall|i: int| 0 <= i < s.len() ==> is_digit(#[trigger] s[i]) || 'a' <= s[i] <= 'z' || s[i] == '-'
}

/// Whether the lower-case letters and digits of a text stand in another at the same places, its
/// capitals in lower case.
pub open spec fn kept_in(s: Seq<char>, t: Seq<char>) -> bool {
    &&& t.len() == s.len()
    &&& forall|i: int|
        0 <= i < s.len() && (is_digit(#[trigger] s[i]) || 'a' <= s[i] <= 'z') ==> t[i] == s[i]
    &&& forall|i: int|
        0 <= i < s.len() && 'A' <= #[trigger] s[i] <= 'Z' ==> t[i] as int == s[i] as int + 32
}

proof fn lemma_slug(s: Seq<char>)
    ensures
        accepted_name(image_slug(s)),
        kept_in(s, image_slug(s)),
{
}

/// Every variable of the container has its value: references among the variables are resolved, and then
/// the value is expanded.
pub proof fn law_container_values(
    env: Seq<(Seq<char>, Seq<char>)>,
    all: Seq<(Seq<char>, Seq<char>)>,
    scope: Scope,
    i: int,
)
    requires
        distinct_keys(env),
        0 <= i < env.len(),
    ensures
        lookup(container_values(env, all, scope), env[i].0) == Some(
            expanded(
                env_resolved(env[i].1, all, 10),
                *scope.workspace,
                scope.target@,
                scope.host@,
            ),
        ),
        container_values(env, all, scope).len() == env.len(),
    decreases env.len(),
{
    let before = container_values(env.drop_last(), all, scope);
    let last = env.last();
    lemma_inserted_lookup(
        before,
        last.0,
        scope.value(env_resolved(last.1, all, 10)),
        env[i].0,
    );
    lemma_names_kept(env.drop_last(), all, scope);
    lemma_key_index(before, last.0, 0);
    let at = key_index(before, last.0, 0);
    if at < before.len() {
        assert(before[at].0 == env.drop_last()[at].0);
        assert(env[at].0 != env[env.len() - 1].0);
    }
    if i < env.len() - 1 {
        assert(env.drop_last()[i] == env[i]);
        assert(env[i].0 != env[env.len() - 1].0);
        law_container_values(env.drop_last(), all, scope, i);
    } else if env.len() > 1 {
        law_container_values(env.drop_last(), all, scope, 0);
    }
}

proof fn lemma_names_kept(
    env: Seq<(Seq<char>, Seq<char>)>,
    all: Seq<(Seq<char>, Seq<char>)>,
    scope: Scope,
)
    requires
        distinct_keys(env),
    ensures
        container_values(env, all, scope).len() == env.len(),
        forall|k: int|
            0 <= k < env.len() ==> (#[trigger] container_values(env, all, scope)[k]).0 == env[k].0,
    decreases env.len(),
{
    if env.len() > 0 {
        let before = container_values(env.drop_last(), all, scope);
        lemma_names_kept(env.drop_last(), all, scope);
        lemma_key_index(before, env.last().0, 0);
        let at = key_index(before, env.last().0, 0);
        if at < before.len() {
            assert(before[at].0 == env.drop_last()[at].0);
            assert(env[at].0 != env[env.len() - 1].0);
        }
    }
}

/// What is built from: the configured Dockerfile, or the one of that name, and the configured context, if
/// any.
pub proof fn law_build_inputs(build: BuildConfig, scope: Scope)
    ensures
        build.dockerfile matches Some(s) ==> dockerfile_of(build) == s@,
        build.dockerfile is None ==> dockerfile_of(build) == "Dockerfile"@,
        build.context matches Some(s) ==> context_of(build, scope) == Some(
            expanded(s@, *scope.workspace, scope.target@, scope.host@),
        ),
        build.context is None ==> context_of(build, scope) is None,
{
}

/// What becomes of an existing container is announced with its name; a new one is not announced here.
pub proof fn law_start_lines(container: Seq<char>)
    ensures
        start_line(StartAction::Create, container) is None,
        start_line(StartAction::Recreate, container) == Some(
            "Removing existing container "@ + container + "..."@,
        ),
        start_line(StartAction::Keep, container) == Some(
            "Container "@ + container + " is already running"@,
        ),
        start_line(StartAction::Start, container) == Some(
            "Starting existing container "@ + container + "..."@,
        ),
{
}

/// `docker run` comes with a warning for each character in the workspace's path that Docker cannot take
/// there, and says what it does.
#[verifier::spinoff_prover]
#[verifier::rlimit(60)]
pub proof fn law_run_warns_of_paths(
    c: DevContainerConfig,
    scope: Scope,
    config_file: Seq<char>,
    customizations: JsonView,
    container: Seq<char>,
    image: Seq<char>,
)
    ensures
        ({
            let notes = run_plan(c, scope, config_file, customizations, container, image).notes;
            let folder = scope.workspace.folder@;
            &&& folder.contains(',') ==> notes.contains(
                NoteView::Warning(
                    "Warning: workspace path contains ',', which breaks docker --mount parsing; the workspace mount will fail"@,
                ),
            )
            &&& folder.contains('=') ==> notes.contains(
                NoteView::Warning(
                    "Warning: workspace path contains '=', which breaks docker label filters"@,
                ),
            )
            &&& folder.contains('"') ==> notes.contains(
                NoteView::Warning(
                    "Warning: workspace path contains '\"', which may break docker labels"@,
                ),
            )
            &&& config_file.contains('"') ==> notes.contains(
                NoteView::Warning(
                    "Warning: config path contains '\"', which may break docker labels"@,
                ),
            )
            &&& notes.contains(
                NoteView::Info("Creating container "@ + container + " from "@ + image + "..."@),
            )
        }),
{
    broadcast use lemma_note_and;

    lemma_said(
        scope.workspace.folder@.contains(','),
        "Warning: workspace path contains ',', which breaks docker --mount parsing; the workspace mount will fail"@,
    );
    lemma_said(
        scope.workspace.folder@.contains('='),
        "Warning: workspace path contains '=', which breaks docker label filters"@,
    );
    lemma_said(
        scope.workspace.folder@.contains('"'),
        "Warning: workspace path contains '\"', which may break docker labels"@,
    );
    lemma_said(
        config_file.contains('"'),
        "Warning: config path contains '\"', which may break docker labels"@,
    );
    let line = "Creating container "@ + container + " from "@ + image + "..."@;
    assert(info(line).notes[0] == NoteView::Info(line));
}

proof fn lemma_said(on: bool, line: Seq<char>)
    ensures
        on ==> warning_if(on, line).notes.contains(NoteView::Warning(line)),
        warning_if(on, line).notes.len() == (if on {
            1int
        } else {
            0int
        }),
{
    if on {
        assert(warning_if(on, line).notes[0] == NoteView::Warning(line));
    }
}

/// What is said of ports, secrets and mounts: a port is passed over in silence if and only if it is
/// published for the first time, a secret if and only if no variable has its name, and a mount of an
/// object is warned about if and only if it is at the place of the workspace.
pub proof fn law_run_notes(
    c: DevContainerConfig,
    kind: Seq<char>,
    seen: Seq<Seq<char>>,
    spec: Seq<char>,
    key: Seq<char>,
    value: Seq<char>,
    o: MountObject,
    scope: Scope,
)
    ensures
        port_plan(c, kind, seen, spec).notes.len() == 0 <==> !attribute_is(
            c,
            spec,
            "onAutoForward"@,
            "ignore"@,
        ) && (published_for(c, spec) matches Some(p) && !seen.contains(p)),
        secret_plan(c.container_env@, key, value).notes.len() == 0 <==> !has_key(
            c.container_env@,
            key,
        ),
        mount_plan(MountValue::Object(o), scope).notes.len() == mount_notes(o, scope).len() + (if (
        o.target matches Some(t) && t@ == scope.target@) {
            1int
        } else {
            0int
        }),
{
}

/// The arguments that were published so far are exactly those of the ports that are not to be ignored.
pub proof fn law_seen_ports(c: DevContainerConfig, seen: Seq<Seq<char>>, specs: Seq<Seq<char>>)
    ensures
        seen_all(c, seen, specs) == seen + to_publish(c, specs),
    decreases specs.len(),
{
    if specs.len() > 0 {
        law_seen_ports(c, seen, specs.drop_last());
        let before = to_publish(c, specs.drop_last());
        if let Some(p) = published_for(c, specs.last()) {
            assert(seen + before.push(p) =~= (seen + before).push(p));
        }
    } else {
        assert(seen + to_publish(c, specs) =~= seen);
    }
}

/// A container is created if and only if there is none, and created anew if and only if that is asked
/// for; one that runs is kept, and one that does not is started.
pub proof fn law_start_actions(exists: bool, running: bool, remove_existing: bool)
    ensures
        start_of(exists, running, remove_existing) is Create <==> !exists,
        start_of(exists, running, remove_existing) is Recreate <==> exists && remove_existing,
        start_of(exists, running, remove_existing) is Keep <==> exists && running && !remove_existing,
        start_of(exists, running, remove_existing) is Start <==> exists && !running
            && !remove_existing,
{
}

/// Docker can be used if and only if both its command line and its daemon answer, and what is missing
/// is told: the command line before the daemon.
pub proof fn law_docker_answers(stderr: Seq<char>, daemon_ok: bool)
    ensures
        docker_error(true, true, stderr) is None,
        docker_error(true, false, stderr) == Some(
            ErrorView::Docker("Docker daemon not reachable: "@ + stderr),
        ),
        docker_error(false, daemon_ok, stderr) == Some(
            ErrorView::Docker("Docker CLI not found in PATH; install Docker to use bondar"@),
        ),
{
}

} // verus!
