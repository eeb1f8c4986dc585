//! Docker Compose: the generated override file and the command lines.

use vstd::prelude::*;
use vstd::string::*;

use crate::config::{ComposeFileValue, DevContainerConfig, MountObject, MountValue};
use crate::docker::{
    add_exec_env, container_env_map, container_values, container_values_notes, exec_env_plan,
    exec_value, expanded_pair, joined, law_lines, lemma_container_values_distinct,
    lemma_joined_parts, lines, mount_parts, opt_map, resolve_secrets, secret_entries, secret_specs,
    secrets_notes, split_lines, words, Scope,
};
use crate::error::{failure, BondarError, ErrorView};
use crate::expand::{
    expanded, law_folder_reference_within, law_plain_values_stay, law_workspace_identifiers,
    lemma_no_dollar, lemma_no_reference, project_name, workspace_id, Workspace,
};
use crate::maps::{
    distinct_keys, entries_view, has_key, inserted_all, lemma_inserted_all, lookup, EnvMap,
};
use crate::notes::{
    each, group_plans, has_pair, info, lemma_and_assoc, lemma_and_nothing, lemma_each_len,
    lemma_each_pair, lemma_nothing_and, no_notes, nothing, opt_flag, option, pair_at, switch, told,
    word, NoteView, Notes, Plan, PlanView,
};
use crate::order::{
    law_sorting_is_stable, lemma_sorted_place, positions, ranks_before, sort_positions,
    sorting_order,
};
use crate::ports::{
    app_port_texts, app_ports, attribute_is, forward_port_texts, forward_texts, is_port_ignored,
    publish_for, published_for, to_publish,
};
use crate::text::{
    all_white, begins_with, chars_of, cut_once, is_alnum, is_white_space, law_pieces, law_trimmed,
    lemma_seek, lemma_seek_is, lemma_seek_none, occurs, opt_str, opt_text, pieces, same_text, split,
    split_once, stands_at, starts_with, text_of, trim, trimmed,
};
use crate::texts::{added, added_all, all_distinct, lemma_added_distinct, texts, unrepeated, Texts};

verus! {

// ---------------------------------------------------------------------------------------------
// YAML

/// How a character is written in a quoted scalar. A dollar sign is doubled, so that compose does
/// not take it for a reference.
pub open spec fn yaml_char(c: char) -> Seq<char> {
    if c == '\\' {
        seq!['\\', '\\']
    } else if c == '"' {
        seq!['\\', '"']
    } else if c == '$' {
        seq!['$', '$']
    } else if c == '\n' {
        seq!['\\', 'n']
    } else if c == '\r' {
        seq!['\\', 'r']
    } else if c == '\t' {
        seq!['\\', 't']
    } else {
        seq![c]
    }
}

pub open spec fn yaml_escaped(s: Seq<char>) -> Seq<char>
    decreases s.len(),
{
    if s.len() == 0 {
        Seq::empty()
    } else {
        yaml_escaped(s.drop_last()) + yaml_char(s.last())
    }
}

/// Escapes a text for a quoted scalar.
pub fn escape_yaml_value(input: &str) -> (res: String)
    ensures
        res@ == yaml_escaped(input@),
{
    let v = chars_of(input);
    let mut out = String::new();
    let mut i: usize = 0;
    assert(input@.take(0) =~= Seq::empty());
    while i < v.len()
        invariant
            v@ == input@,
            i <= v@.len(),
            out@ == yaml_escaped(input@.take(i as int)),
        decreases v@.len() - i,
    {
        assert(input@.take(i + 1).drop_last() =~= input@.take(i as int));
        let ghost before = out@;
        let c = v[i];
        if c == '\\' {
            out.push('\\');
            out.push('\\');
        } else if c == '"' {
            out.push('\\');
            out.push('"');
        } else if c == '$' {
            out.push('$');
            out.push('$');
        } else if c == '\n' {
            out.push('\\');
            out.push('n');
        } else if c == '\r' {
            out.push('\\');
            out.push('r');
        } else if c == '\t' {
            out.push('\\');
            out.push('t');
        } else {
            out.push(c);
        }
        assert(out@ =~= before + yaml_char(c));
        i = i + 1;
    }
    assert(input@.take(i as int) =~= input@);
    out
}

/// Whether a key needs no quotes.
pub open spec fn plain_key(s: Seq<char>) -> bool {
    s.len() > 0 && forall|i: int|
        0 <= i < s.len() ==> is_alnum(#[trigger] s[i]) || s[i] == '_' || s[i] == '-'
}

pub open spec fn yaml_key(s: Seq<char>) -> Seq<char> {
    if plain_key(s) {
        s
    } else {
        "\""@ + yaml_escaped(s) + "\""@
    }
}

/// Writes a mapping key, in quotes where it needs them.
pub fn escape_yaml_key(input: &str) -> (res: String)
    ensures
        res@ == yaml_key(input@),
{
    let v = chars_of(input);
    let mut plain: bool = v.len() > 0;
    let mut i: usize = 0;
    while i < v.len()
        invariant
            v@ == input@,
            i <= v@.len(),
            plain == (v@.len() > 0 && forall|k: int|
                0 <= k < i ==> is_alnum(#[trigger] input@[k]) || input@[k] == '_' || input@[k]
                    == '-'),
        decreases v@.len() - i,
    {
        let c = v[i];
        if !(c.is_alphanumeric() || c == '_' || c == '-') {
            assert(!(is_alnum(input@[i as int]) || input@[i as int] == '_' || input@[i as int]
                == '-'));
            plain = false;
        }
        i = i + 1;
    }
    if plain {
        input.to_owned()
    } else {
        let escaped = escape_yaml_value(input);
        "\"".to_owned().concat(escaped.as_str()).concat("\"")
    }
}

// ---------------------------------------------------------------------------------------------
// Mounts

/// What a mount in Docker's `--mount` syntax says.
pub struct MountSpec {
    pub source: Option<Seq<char>>,
    pub target: Option<Seq<char>>,
    pub readonly: bool,
    pub tmpfs: bool,
    pub bind: bool,
}

pub open spec fn no_mount() -> MountSpec {
    MountSpec { source: None, target: None, readonly: false, tmpfs: false, bind: false }
}

/// What is known after one more part.
pub open spec fn mount_with(m: MountSpec, piece: Seq<char>) -> MountSpec {
    let part = trimmed(piece);
    match cut_once(part, '=') {
        Some(p) => if p.0 == "type"@ {
            MountSpec { tmpfs: p.1 == "tmpfs"@, bind: p.1 == "bind"@, ..m }
        } else if p.0 == "source"@ || p.0 == "src"@ {
            MountSpec { source: Some(p.1), ..m }
        } else if p.0 == "target"@ || p.0 == "dst"@ || p.0 == "destination"@ {
            MountSpec { target: Some(p.1), ..m }
        } else if p.0 == "readonly"@ || p.0 == "ro"@ {
            MountSpec { readonly: p.1 == "true"@ || p.1 == "1"@, ..m }
        } else {
            m
        },
        None => if part == "readonly"@ || part == "ro"@ {
            MountSpec { readonly: true, ..m }
        } else {
            m
        },
    }
}

pub open spec fn mount_read(parts: Seq<Seq<char>>) -> MountSpec
    decreases parts.len(),
{
    if parts.len() == 0 {
        no_mount()
    } else {
        mount_with(mount_read(parts.drop_last()), parts.last())
    }
}

/// The mount in compose's short syntax; there is none for a tmpfs mount or without a target.
pub open spec fn compose_volume(mount: Seq<char>) -> Option<Seq<char>> {
    let m = mount_read(pieces(mount, ','));
    let source = match m.source {
        Some(s) => s,
        None => Seq::empty(),
    };
    match m.target {
        Some(t) => if m.tmpfs {
            None
        } else {
            Some(
                (if source.len() > 0 {
                    source + ":"@
                } else {
                    Seq::empty()
                }) + t + (if m.readonly {
                    ":ro"@
                } else {
                    Seq::empty()
                }),
            )
        },
        None => None,
    }
}

pub open spec fn tmpfs_warning() -> Seq<char> {
    "Warning: tmpfs mount is skipped in compose override (no short-syntax equivalent)"@
}

pub open spec fn compose_volume_notes(mount: Seq<char>) -> Seq<NoteView> {
    let m = mount_read(pieces(mount, ','));
    if m.tmpfs {
        seq![NoteView::Warning(tmpfs_warning())]
    } else {
        match m.source {
            Some(s) => if m.bind && s.len() > 0 && !begins_with(s, "/"@) && !begins_with(s, "./"@) {
                seq![NoteView::Warning(
                    "Warning: bind mount source '"@ + s
                        + "' is relative; compose short syntax will treat it as a named volume"@,
                )]
            } else {
                no_notes()
            },
            None => no_notes(),
        }
    }
}

/// Converts a mount from Docker's `--mount` syntax to the short syntax of compose. A tmpfs mount
/// has no such form and is skipped with a warning; a relative source of a bind mount is converted
/// with a warning.
pub fn mount_string_to_compose_volume(mount: &str, notes: &mut Notes) -> (res: Option<String>)
    ensures
        opt_text(res) == compose_volume(mount@),
        final(notes)@ == old(notes)@ + compose_volume_notes(mount@),
{
    let parts = split(mount, ',');
    let mut source: Option<String> = None;
    let mut target: Option<String> = None;
    let mut readonly = false;
    let mut tmpfs = false;
    let mut bind = false;
    let mut i: usize = 0;
    let ghost mut m = no_mount();
    assert(parts@.take(0) =~= Seq::empty());
    while i < parts.len()
        invariant
            i <= parts@.len(),
            m == mount_read(parts@.take(i as int)),
            opt_text(source) == m.source,
            opt_text(target) == m.target,
            readonly == m.readonly,
            tmpfs == m.tmpfs,
            bind == m.bind,
        decreases parts@.len() - i,
    {
        assert(parts@.take(i + 1).drop_last() =~= parts@.take(i as int));
        let part = trim(parts.get(i));
        match split_once(part.as_str(), '=') {
            Some((key, value)) => {
                let k = key.as_str();
                if same_text(k, "type") {
                    tmpfs = same_text(value.as_str(), "tmpfs");
                    bind = same_text(value.as_str(), "bind");
                } else if same_text(k, "source") || same_text(k, "src") {
                    source = Some(value);
                } else if same_text(k, "target") || same_text(k, "dst") || same_text(
                    k,
                    "destination",
                ) {
                    target = Some(value);
                } else if same_text(k, "readonly") || same_text(k, "ro") {
                    readonly = same_text(value.as_str(), "true") || same_text(value.as_str(), "1");
                }
            },
            None => {
                if same_text(part.as_str(), "readonly") || same_text(part.as_str(), "ro") {
                    readonly = true;
                }
            },
        }
        proof {
            m = mount_with(m, parts@[i as int]);
        }
        i = i + 1;
    }
    assert(parts@.take(i as int) =~= parts@);
    assert(notes@ + no_notes() =~= notes@);
    if tmpfs {
        notes.warn(
            "Warning: tmpfs mount is skipped in compose override (no short-syntax equivalent)".to_owned(),
        );
        assert(notes@ =~= old(notes)@ + compose_volume_notes(mount@));
        return None;
    }
    let src = match source {
        Some(s) => s,
        None => String::new(),
    };
    let has_source: bool = src.as_str().unicode_len() > 0;
    if bind && has_source && !starts_with(src.as_str(), "/") && !starts_with(src.as_str(), "./") {
        notes.warn(
            "Warning: bind mount source '".to_owned().concat(src.as_str()).concat(
                "' is relative; compose short syntax will treat it as a named volume",
            ),
        );
    }
    assert(notes@ =~= old(notes)@ + compose_volume_notes(mount@));
    match target {
        None => None,
        Some(t) => {
            let mut vol = String::new();
            if has_source {
                vol.append(src.as_str());
                vol.append(":");
            }
            vol.append(t.as_str());
            if readonly {
                vol.append(":ro");
            }
            assert(Some(vol@) =~= compose_volume(mount@)) by {
                let want = (if src@.len() > 0 {
                    src@ + ":"@
                } else {
                    Seq::empty()
                }) + t@ + (if readonly {
                    ":ro"@
                } else {
                    Seq::empty()
                });
                assert(vol@ =~= want);
            }
            Some(vol)
        },
    }
}

// ---------------------------------------------------------------------------------------------
// The parts of the override file

/// The published ports after one more specification.
pub open spec fn ports_with(c: DevContainerConfig, v: Seq<Seq<char>>, spec: Seq<char>) -> Seq<Seq<char>> {
    match published_for(c, spec) {
        Some(p) => if attribute_is(c, spec, "onAutoForward"@, "ignore"@) {
            v
        } else {
            added(v, "\""@ + p + "\""@)
        },
        None => v,
    }
}

/// What is said about a port of the list named `kind`. A specification in `forwardPorts` that
/// cannot be published is reported as such even where it is to be ignored.
pub open spec fn port_notes(c: DevContainerConfig, forward: bool, spec: Seq<char>) -> Seq<NoteView> {
    let kind = if forward {
        "forwardPorts"@
    } else {
        "appPort"@
    };
    let ignored = attribute_is(c, spec, "onAutoForward"@, "ignore"@);
    let cannot = published_for(c, spec) is None;
    if ignored && !(forward && cannot) {
        seq![NoteView::Info(
            "Skipping "@ + kind + " '"@ + spec + "' in compose override (onAutoForward: ignore)"@,
        )]
    } else if cannot {
        seq![NoteView::Warning(
            "Warning: "@ + kind + " '"@ + spec
                + "' references a service host, cannot publish in compose override"@,
        )]
    } else {
        no_notes()
    }
}

pub open spec fn ports_with_all(
    c: DevContainerConfig,
    v: Seq<Seq<char>>,
    specs: Seq<Seq<char>>,
) -> Seq<Seq<char>>
    decreases specs.len(),
{
    if specs.len() == 0 {
        v
    } else {
        ports_with(c, ports_with_all(c, v, specs.drop_last()), specs.last())
    }
}

pub open spec fn ports_notes(c: DevContainerConfig, forward: bool, specs: Seq<Seq<char>>) -> Seq<
    NoteView,
>
    decreases specs.len(),
{
    if specs.len() == 0 {
        Seq::empty()
    } else {
        ports_notes(c, forward, specs.drop_last()) + port_notes(c, forward, specs.last())
    }
}

fn collect_ports(
    config: &DevContainerConfig,
    forward: bool,
    specs: &Texts,
    out: &mut Texts,
    notes: &mut Notes,
)
    ensures
        final(out)@ == ports_with_all(*config, old(out)@, specs@),
        final(notes)@ == old(notes)@ + ports_notes(*config, forward, specs@),
{
    let kind = if forward {
        "forwardPorts"
    } else {
        "appPort"
    };
    let mut i: usize = 0;
    assert(specs@.take(0) =~= Seq::empty());
    assert(notes@ + no_notes() =~= notes@);
    while i < specs.len()
        invariant
            kind@ == (if forward {
                "forwardPorts"@
            } else {
                "appPort"@
            }),
            i <= specs@.len(),
            out@ == ports_with_all(*config, old(out)@, specs@.take(i as int)),
            notes@ == old(notes)@ + ports_notes(*config, forward, specs@.take(i as int)),
        decreases specs@.len() - i,
    {
        assert(specs@.take(i + 1).drop_last() =~= specs@.take(i as int));
        let ghost told = notes@;
        let spec = specs.get(i);
        let ignored = is_port_ignored(config, spec);
        let publish = publish_for(config, spec);
        if ignored && !(forward && publish.is_none()) {
            notes.info(
                "Skipping ".to_owned().concat(kind).concat(" '").concat(spec).concat(
                    "' in compose override (onAutoForward: ignore)",
                ),
            );
        } else {
            match publish {
                Some(p) => {
                    let entry = "\"".to_owned().concat(p.as_str()).concat("\"");
                    out.add_new(entry);
                },
                None => {
                    notes.warn(
                        "Warning: ".to_owned().concat(kind).concat(" '").concat(spec).concat(
                            "' references a service host, cannot publish in compose override",
                        ),
                    );
                },
            }
        }
        assert(notes@ =~= told + port_notes(*config, forward, specs@[i as int]));
        assert(notes@ =~= old(notes)@ + ports_notes(*config, forward, specs@.take(i + 1)));
        i = i + 1;
    }
    assert(specs@.take(i as int) =~= specs@);
}

/// The volume of a mount given as an object.
pub open spec fn object_volume(o: MountObject, scope: Scope) -> Option<Seq<char>> {
    if o.mount_type matches Some(t) && t@ == "tmpfs"@ {
        None
    } else {
        match o.target {
            Some(t) => Some(
                (match o.source {
                    Some(s) => scope.value(s@) + ":"@,
                    None => Seq::empty(),
                }) + scope.value(t@) + (if o.readonly == Some(true) {
                    ":ro"@
                } else {
                    Seq::empty()
                }),
            ),
            None => None,
        }
    }
}

pub open spec fn object_volume_notes(o: MountObject, scope: Scope) -> Seq<NoteView> {
    if o.mount_type matches Some(t) && t@ == "tmpfs"@ {
        seq![NoteView::Warning(tmpfs_warning())]
    } else {
        match o.target {
            Some(t) => (match o.source {
                Some(s) => scope.notes(s@),
                None => no_notes(),
            }) + scope.notes(t@),
            None => no_notes(),
        }
    }
}

pub open spec fn volume_of(m: MountValue, scope: Scope) -> Option<Seq<char>> {
    match m {
        MountValue::String(s) => compose_volume(scope.value(s@)),
        MountValue::Object(o) => object_volume(o, scope),
    }
}

pub open spec fn volume_notes(m: MountValue, scope: Scope) -> Seq<NoteView> {
    match m {
        MountValue::String(s) => scope.notes(s@) + compose_volume_notes(scope.value(s@)),
        MountValue::Object(o) => object_volume_notes(o, scope),
    }
}

fn object_to_volume(o: &MountObject, scope: &Scope, notes: &mut Notes) -> (res: Option<String>)
    ensures
        opt_text(res) == object_volume(*o, *scope),
        final(notes)@ == old(notes)@ + object_volume_notes(*o, *scope),
{
    let tmpfs: bool = match &o.mount_type {
        Some(t) => same_text(t.as_str(), "tmpfs"),
        None => false,
    };
    assert(notes@ + no_notes() =~= notes@);
    if tmpfs {
        notes.warn(
            "Warning: tmpfs mount is skipped in compose override (no short-syntax equivalent)".to_owned(),
        );
        assert(notes@ =~= old(notes)@ + object_volume_notes(*o, *scope));
        return None;
    }
    match &o.target {
        None => None,
        Some(t) => {
            let mut vol = String::new();
            if let Some(s) = &o.source {
                let source = scope.expand(s.as_str(), notes);
                vol.append(source.as_str());
                vol.append(":");
            }
            let target = scope.expand(t.as_str(), notes);
            vol.append(target.as_str());
            if let Some(true) = o.readonly {
                vol.append(":ro");
            }
            assert(vol@ =~= object_volume(*o, *scope)->0);
            assert(notes@ =~= old(notes)@ + object_volume_notes(*o, *scope));
            Some(vol)
        },
    }
}

/// The volumes after one more mount: a repeated one is left out.
pub open spec fn volumes_with(v: Seq<Seq<char>>, m: MountValue, scope: Scope) -> Seq<Seq<char>> {
    match volume_of(m, scope) {
        Some(vol) => added(v, vol),
        None => v,
    }
}

pub open spec fn repeated_volume_notes(v: Seq<Seq<char>>, m: MountValue, scope: Scope) -> Seq<
    NoteView,
> {
    match volume_of(m, scope) {
        Some(vol) => if v.contains(vol) {
            seq![NoteView::Warning(
                "Warning: mount '"@ + vol + "' is declared more than once; keeping the first entry"@,
            )]
        } else {
            no_notes()
        },
        None => no_notes(),
    }
}

pub open spec fn volumes_of(mounts: Seq<MountValue>, scope: Scope) -> Seq<Seq<char>>
    decreases mounts.len(),
{
    if mounts.len() == 0 {
        Seq::empty()
    } else {
        volumes_with(volumes_of(mounts.drop_last(), scope), mounts.last(), scope)
    }
}

pub open spec fn volumes_notes(mounts: Seq<MountValue>, scope: Scope) -> Seq<NoteView>
    decreases mounts.len(),
{
    if mounts.len() == 0 {
        Seq::empty()
    } else {
        volumes_notes(mounts.drop_last(), scope) + (volume_notes(mounts.last(), scope)
            + repeated_volume_notes(volumes_of(mounts.drop_last(), scope), mounts.last(), scope))
    }
}

fn collect_volumes(mounts: &Vec<MountValue>, scope: &Scope, notes: &mut Notes) -> (res: Texts)
    ensures
        res@ == volumes_of(mounts@, *scope),
        final(notes)@ == old(notes)@ + volumes_notes(mounts@, *scope),
{
    let mut out = Texts::new();
    let mut i: usize = 0;
    assert(mounts@.take(0) =~= Seq::empty());
    assert(notes@ + no_notes() =~= notes@);
    while i < mounts.len()
        invariant
            i <= mounts@.len(),
            out@ == volumes_of(mounts@.take(i as int), *scope),
            notes@ == old(notes)@ + volumes_notes(mounts@.take(i as int), *scope),
        decreases mounts@.len() - i,
    {
        assert(mounts@.take(i + 1).drop_last() =~= mounts@.take(i as int));
        let ghost told = notes@;
        let ghost before = out@;
        let ghost m = mounts@[i as int];
        let volume = match &mounts[i] {
            MountValue::String(s) => {
                let mount = scope.expand(s.as_str(), notes);
                mount_string_to_compose_volume(mount.as_str(), notes)
            },
            MountValue::Object(o) => object_to_volume(o, scope, notes),
        };
        assert(opt_text(volume) == volume_of(m, *scope));
        assert(notes@ =~= told + volume_notes(m, *scope));
        if let Some(vol) = volume {
            if out.contains(vol.as_str()) {
                notes.warn(
                    "Warning: mount '".to_owned().concat(vol.as_str()).concat(
                        "' is declared more than once; keeping the first entry",
                    ),
                );
            } else {
                out.push(vol);
            }
        }
        assert(notes@ =~= told + (volume_notes(m, *scope) + repeated_volume_notes(
            before,
            m,
            *scope,
        )));
        assert(notes@ =~= old(notes)@ + volumes_notes(mounts@.take(i + 1), *scope));
        i = i + 1;
    }
    assert(mounts@.take(i as int) =~= mounts@);
    out
}

/// One warning for each secret whose name is taken already.
pub open spec fn conflict_notes(
    env: Seq<(Seq<char>, Seq<char>)>,
    secrets: Seq<(Seq<char>, Seq<char>)>,
) -> Seq<NoteView>
    decreases secrets.len(),
{
    if secrets.len() == 0 {
        Seq::empty()
    } else {
        conflict_notes(env, secrets.drop_last()) + (if has_key(
            inserted_all(env, secrets.drop_last()),
            secrets.last().0,
        ) {
            seq![NoteView::Warning(
                "Warning: secret key '"@ + secrets.last().0
                    + "' conflicts with an existing environment entry and will override it"@,
            )]
        } else {
            no_notes()
        })
    }
}

/// The variables of the service: those of `containerEnv`, and the secrets, which override them.
pub open spec fn service_env(c: DevContainerConfig, scope: Scope) -> Seq<(Seq<char>, Seq<char>)> {
    inserted_all(
        container_values(c.container_env@, c.container_env@, scope),
        secret_entries(secret_specs(c), scope.host@),
    )
}

pub open spec fn service_env_notes(c: DevContainerConfig, scope: Scope) -> Seq<NoteView> {
    let env = c.container_env@;
    container_values_notes(env, env, scope) + secrets_notes(secret_specs(c), scope.host@)
        + conflict_notes(
        container_values(env, env, scope),
        secret_entries(secret_specs(c), scope.host@),
    )
}

fn collect_env(config: &DevContainerConfig, scope: &Scope, notes: &mut Notes) -> (res: EnvMap)
    ensures
        res@ == service_env(*config, *scope),
        final(notes)@ == old(notes)@ + service_env_notes(*config, *scope),
{
    let mut out = container_env_map(&config.container_env, scope, notes);
    let ghost own = out@;
    let secrets = resolve_secrets(config, scope.host, notes);
    let ghost found = entries_view(secrets@);
    let ghost resolved_notes = notes@;
    let mut j: usize = 0;
    assert(found.take(0) =~= Seq::empty());
    assert(notes@ + no_notes() =~= notes@);
    while j < secrets.len()
        invariant
            j <= secrets@.len(),
            found == entries_view(secrets@),
            out@ == inserted_all(own, found.take(j as int)),
            notes@ == resolved_notes + conflict_notes(own, found.take(j as int)),
        decreases secrets@.len() - j,
    {
        assert(found.take(j + 1).drop_last() =~= found.take(j as int));
        let key = secrets[j].0.as_str();
        if out.contains_key(key) {
            notes.warn(
                "Warning: secret key '".to_owned().concat(key).concat(
                    "' conflicts with an existing environment entry and will override it",
                ),
            );
        }
        out.insert(key, secrets[j].1.as_str());
        assert(notes@ =~= resolved_notes + conflict_notes(own, found.take(j + 1)));
        j = j + 1;
    }
    assert(found.take(j as int) =~= found);
    assert(notes@ =~= old(notes)@ + service_env_notes(*config, *scope));
    out
}

// ---------------------------------------------------------------------------------------------
// The override file

/// The texts one after the other.
pub open spec fn concatenated(v: Seq<Seq<char>>) -> Seq<char>
    decreases v.len(),
{
    if v.len() == 0 {
        Seq::empty()
    } else {
        concatenated(v.drop_last()) + v.last()
    }
}

/// The line of one variable.
pub open spec fn env_line(key: Seq<char>, value: Seq<char>) -> Seq<char> {
    "      "@ + yaml_key(key) + ": \""@ + yaml_escaped(value) + "\"\n"@
}

pub open spec fn keys_of(v: Seq<(Seq<char>, Seq<char>)>) -> Seq<Seq<char>> {
    Seq::new(v.len(), |i: int| v[i].0)
}

/// The lines of the variables, sorted by name.
pub open spec fn env_section_lines(env: Seq<(Seq<char>, Seq<char>)>) -> Seq<Seq<char>> {
    let order = sorting_order(keys_of(env));
    Seq::new(env.len(), |i: int| env_line(env[order[i]].0, env[order[i]].1))
}

pub open spec fn section(title: Seq<char>, lines: Seq<Seq<char>>) -> Seq<char> {
    if lines.len() == 0 {
        Seq::empty()
    } else {
        title + concatenated(lines)
    }
}

pub open spec fn port_lines(ports: Seq<Seq<char>>) -> Seq<Seq<char>> {
    Seq::new(ports.len(), |i: int| "      - "@ + ports[i] + "\n"@)
}

/// The lines of a list of quoted values.
pub open spec fn quoted_lines(items: Seq<Seq<char>>) -> Seq<Seq<char>> {
    Seq::new(items.len(), |i: int| "      - \""@ + yaml_escaped(items[i]) + "\"\n"@)
}

/// A setting that is switched on, or nothing.
pub open spec fn switched_on(setting: Option<bool>, line: Seq<char>) -> Seq<char> {
    if setting == Some(true) {
        line
    } else {
        Seq::empty()
    }
}

/// What the service may do: the init process, the privileges, the capabilities and the security
/// options.
pub open spec fn rights_yaml(c: DevContainerConfig) -> Seq<char> {
    switched_on(c.init, "    init: true\n"@) + switched_on(c.privileged, "    privileged: true\n"@)
        + section("    cap_add:\n"@, quoted_lines(texts(c.cap_add@))) + section(
        "    security_opt:\n"@,
        quoted_lines(texts(c.security_opt@)),
    )
}

/// The text of the override file for one service; nothing where it would say nothing.
pub open spec fn override_yaml(
    service: Seq<char>,
    rights: Seq<char>,
    env: Seq<(Seq<char>, Seq<char>)>,
    ports: Seq<Seq<char>>,
    volumes: Seq<Seq<char>>,
) -> Option<Seq<char>> {
    if rights.len() == 0 && env.len() == 0 && ports.len() == 0 && volumes.len() == 0 {
        None
    } else {
        Some(
            "services:\n"@ + "  "@ + yaml_key(service) + ":\n"@ + rights + section(
                "    environment:\n"@,
                env_section_lines(env),
            ) + section("    ports:\n"@, port_lines(ports)) + section(
                "    volumes:\n"@,
                quoted_lines(volumes),
            ),
        )
    }
}

/// The published ports of the service.
pub open spec fn service_ports(c: DevContainerConfig) -> Seq<Seq<char>> {
    ports_with_all(
        c,
        ports_with_all(c, Seq::empty(), forward_texts(c.forward_ports@)),
        app_ports(c.app_port),
    )
}

pub open spec fn override_notes(c: DevContainerConfig, scope: Scope) -> Seq<NoteView> {
    ports_notes(c, true, forward_texts(c.forward_ports@)) + ports_notes(
        c,
        false,
        app_ports(c.app_port),
    ) + volumes_notes(c.mounts@, scope) + service_env_notes(c, scope)
}

fn render_env(env: &EnvMap) -> (res: String)
    ensures
        res@ == section("    environment:\n"@, env_section_lines(env@)),
{
    let n: usize = env.len();
    let ghost items = env@;
    if n == 0 {
        let out = String::new();
        assert(out@ =~= Seq::empty());
        return out;
    }
    let mut keys = Texts::new();
    let mut i: usize = 0;
    while i < n
        invariant
            n == env@.len(),
            i <= n,
            items == env@,
            keys@ == keys_of(items).take(i as int),
        decreases n - i,
    {
        keys.push(env.key(i).to_owned());
        assert(keys_of(items).take(i + 1) =~= keys_of(items).take(i as int).push(
            keys_of(items)[i as int],
        ));
        i = i + 1;
    }
    assert(keys_of(items).take(n as int) =~= keys_of(items));
    let order = sort_positions(&keys);
    let ghost lines = env_section_lines(items);
    let mut out = "    environment:\n".to_owned();
    let mut k: usize = 0;
    assert(lines.take(0) =~= Seq::empty());
    assert(out@ =~= "    environment:\n"@ + Seq::<char>::empty());
    while k < n
        invariant
            n == env@.len(),
            n == order@.len(),
            forall|j: int| 0 <= j < n ==> (#[trigger] order@[j]) < n,
            positions(order@) == sorting_order(keys_of(items)),
            items == env@,
            lines == env_section_lines(items),
            k <= n,
            out@ == "    environment:\n"@ + concatenated(lines.take(k as int)),
        decreases n - k,
    {
        assert(lines.take(k + 1).drop_last() =~= lines.take(k as int));
        let at: usize = order[k];
        assert(positions(order@)[k as int] == at);
        let ghost before = out@;
        let key = escape_yaml_key(env.key(at));
        let value = escape_yaml_value(env.value(at));
        let line = "      ".to_owned().concat(key.as_str()).concat(": \"").concat(
            value.as_str(),
        ).concat("\"\n");
        assert(line@ == lines[k as int]);
        out.append(line.as_str());
        assert(out@ =~= "    environment:\n"@ + concatenated(lines.take(k + 1)));
        k = k + 1;
    }
    assert(lines.take(n as int) =~= lines);
    out
}

fn render_ports(ports: &Texts) -> (res: String)
    ensures
        res@ == section("    ports:\n"@, port_lines(ports@)),
{
    if ports.len() == 0 {
        let out = String::new();
        assert(out@ =~= Seq::empty());
        return out;
    }
    let ghost lines = port_lines(ports@);
    let mut out = "    ports:\n".to_owned();
    let mut i: usize = 0;
    assert(lines.take(0) =~= Seq::empty());
    assert(out@ =~= "    ports:\n"@ + Seq::<char>::empty());
    while i < ports.len()
        invariant
            i <= ports@.len(),
            lines == port_lines(ports@),
            out@ == "    ports:\n"@ + concatenated(lines.take(i as int)),
        decreases ports@.len() - i,
    {
        assert(lines.take(i + 1).drop_last() =~= lines.take(i as int));
        let line = "      - ".to_owned().concat(ports.get(i)).concat("\n");
        assert(line@ == lines[i as int]);
        out.append(line.as_str());
        assert(out@ =~= "    ports:\n"@ + concatenated(lines.take(i + 1)));
        i = i + 1;
    }
    assert(lines.take(i as int) =~= lines);
    out
}

fn render_quoted(title: &str, items: &Vec<String>) -> (res: String)
    ensures
        res@ == section(title@, quoted_lines(texts(items@))),
{
    if items.len() == 0 {
        let out = String::new();
        assert(out@ =~= Seq::empty());
        return out;
    }
    let ghost lines = quoted_lines(texts(items@));
    let mut out = title.to_owned();
    let mut i: usize = 0;
    assert(lines.take(0) =~= Seq::empty());
    assert(out@ =~= title@ + Seq::<char>::empty());
    while i < items.len()
        invariant
            i <= items@.len(),
            lines == quoted_lines(texts(items@)),
            out@ == title@ + concatenated(lines.take(i as int)),
        decreases items@.len() - i,
    {
        assert(lines.take(i + 1).drop_last() =~= lines.take(i as int));
        let escaped = escape_yaml_value(items[i].as_str());
        let line = "      - \"".to_owned().concat(escaped.as_str()).concat("\"\n");
        assert(line@ == lines[i as int]);
        out.append(line.as_str());
        assert(out@ =~= title@ + concatenated(lines.take(i + 1)));
        i = i + 1;
    }
    assert(lines.take(i as int) =~= lines);
    out
}

fn render_switch(setting: Option<bool>, line: &str) -> (res: String)
    ensures
        res@ == switched_on(setting, line@),
{
    if let Some(true) = setting {
        line.to_owned()
    } else {
        let out = String::new();
        assert(out@ =~= Seq::empty());
        out
    }
}

fn render_rights(config: &DevContainerConfig) -> (res: String)
    ensures
        res@ == rights_yaml(*config),
{
    let init = render_switch(config.init, "    init: true\n");
    let privileged = render_switch(config.privileged, "    privileged: true\n");
    let caps = render_quoted("    cap_add:\n", &config.cap_add);
    let options = render_quoted("    security_opt:\n", &config.security_opt);
    init.concat(privileged.as_str()).concat(caps.as_str()).concat(options.as_str())
}

/// The text of the compose override file, which gives the service its rights, variables, published
/// ports and volumes; `None` where there is nothing to give. The scope's target is the workspace
/// folder inside the container, `/` where none is configured.
pub fn write_compose_override(config: &DevContainerConfig, scope: &Scope, notes: &mut Notes) -> (res:
    Result<Option<String>, BondarError>)
    ensures
        match config.service {
            None => failure(res) == Some(ErrorView::Config("No service specified"@))
                && final(notes)@ == old(notes)@,
            Some(service) => res matches Ok(text) && opt_text(text) == override_yaml(
                service@,
                rights_yaml(*config),
                service_env(*config, *scope),
                service_ports(*config),
                volumes_of(config.mounts@, *scope),
            ) && final(notes)@ == old(notes)@ + override_notes(*config, *scope),
        },
{
    let service = match &config.service {
        Some(s) => s.as_str(),
        None => {
            return Err(BondarError::Config("No service specified".to_owned()));
        },
    };
    let mut ports = Texts::new();
    let forwarded = forward_port_texts(&config.forward_ports);
    collect_ports(config, true, &forwarded, &mut ports, notes);
    let app = app_port_texts(&config.app_port);
    collect_ports(config, false, &app, &mut ports, notes);
    let volumes = collect_volumes(&config.mounts, scope, notes);
    let env = collect_env(config, scope, notes);
    assert(notes@ =~= old(notes)@ + override_notes(*config, *scope));
    let rights = render_rights(config);
    if rights.as_str().unicode_len() == 0 && env.len() == 0 && ports.len() == 0 && volumes.len()
        == 0 {
        return Ok(None);
    }
    let key = escape_yaml_key(service);
    let environment = render_env(&env);
    let published = render_ports(&ports);
    let mounted = render_quoted("    volumes:\n", &volumes.items);
    let yaml = "services:\n".to_owned().concat("  ").concat(key.as_str()).concat(":\n").concat(
        rights.as_str(),
    ).concat(environment.as_str()).concat(published.as_str()).concat(mounted.as_str());
    Ok(Some(yaml))
}

pub open spec fn override_name(project: Seq<char>) -> Seq<char> {
    project + "-override.yml"@
}

/// The name of the override file of a project.
pub fn override_file_name(project: &str) -> (res: String)
    ensures
        res@ == override_name(project@),
{
    project.to_owned().concat("-override.yml")
}

// ---------------------------------------------------------------------------------------------
// Command lines

pub open spec fn compose_files(v: ComposeFileValue) -> Seq<Seq<char>> {
    match v {
        ComposeFileValue::Single(s) => seq![s@],
        ComposeFileValue::Multiple(v) => texts(v@),
    }
}

/// The values, each expanded.
pub open spec fn expanded_all(v: Seq<Seq<char>>, scope: Scope) -> Seq<Seq<char>> {
    Seq::new(v.len(), |i: int| scope.value(v[i]))
}

pub open spec fn expanded_all_notes(v: Seq<Seq<char>>, scope: Scope) -> Seq<NoteView>
    decreases v.len(),
{
    if v.len() == 0 {
        Seq::empty()
    } else {
        expanded_all_notes(v.drop_last(), scope) + scope.notes(v.last())
    }
}

/// The compose files of a configuration, expanded; they are relative to the directory of the
/// configuration file.
pub fn compose_file_paths(config: &DevContainerConfig, scope: &Scope, notes: &mut Notes) -> (res:
    Result<Texts, BondarError>)
    ensures
        match config.docker_compose_file {
            None => failure(res) == Some(ErrorView::Config("No dockerComposeFile"@))
                && final(notes)@ == old(notes)@,
            Some(f) => res matches Ok(paths) && paths@ == expanded_all(compose_files(f), *scope)
                && final(notes)@ == old(notes)@ + expanded_all_notes(compose_files(f), *scope),
        },
{
    assert(notes@ + no_notes() =~= notes@);
    match &config.docker_compose_file {
        None => Err(BondarError::Config("No dockerComposeFile".to_owned())),
        Some(f) => {
            let ghost files = compose_files(*f);
            let mut out = Texts::new();
            match f {
                ComposeFileValue::Single(s) => {
                    out.push(scope.expand(s.as_str(), notes));
                    assert(files.drop_last() =~= Seq::empty());
                    assert(expanded_all_notes(files.drop_last(), *scope) =~= no_notes());
                    assert(files.last() == s@);
                    assert(expanded_all_notes(files, *scope) =~= scope.notes(s@));
                    assert(out@ =~= expanded_all(files, *scope));
                    assert(notes@ =~= old(notes)@ + expanded_all_notes(files, *scope));
                },
                ComposeFileValue::Multiple(v) => {
                    let mut i: usize = 0;
                    assert(files.take(0) =~= Seq::empty());
                    while i < v.len()
                        invariant
                            i <= v@.len(),
                            files == texts(v@),
                            out@ == expanded_all(files, *scope).take(i as int),
                            notes@ == old(notes)@ + expanded_all_notes(
                                files.take(i as int),
                                *scope,
                            ),
                        decreases v@.len() - i,
                    {
                        assert(files.take(i + 1).drop_last() =~= files.take(i as int));
                        out.push(scope.expand(v[i].as_str(), notes));
                        assert(expanded_all(files, *scope).take(i + 1) =~= expanded_all(
                            files,
                            *scope,
                        ).take(i as int).push(scope.value(files[i as int])));
                        assert(notes@ =~= old(notes)@ + expanded_all_notes(
                            files.take(i + 1),
                            *scope,
                        ));
                        i = i + 1;
                    }
                    assert(files.take(i as int) =~= files);
                    assert(expanded_all(files, *scope).take(i as int) =~= expanded_all(
                        files,
                        *scope,
                    ));
                },
            }
            Ok(out)
        },
    }
}

/// The warning on a compose file that does not exist.
pub fn missing_compose_file(path: &str) -> (res: String)
    ensures
        res@ == "Warning: compose file not found: "@ + path@,
{
    "Warning: compose file not found: ".to_owned().concat(path)
}

pub open spec fn file_flags(paths: Seq<Seq<char>>) -> PlanView {
    each(paths, |p: Seq<char>| option("-f"@, p))
}

fn add_file_flags(plan: &mut Plan, paths: &Texts)
    ensures
        final(plan)@ == old(plan)@.and(file_flags(paths@)),
{
    plan.flag_each("-f", &paths.items);
}

/// The beginning of every compose command line: the project and its files.
pub open spec fn base_plan(
    project: Seq<char>,
    paths: Seq<Seq<char>>,
    override_path: Option<Seq<char>>,
) -> PlanView {
    nothing().and(word("compose"@)).and(option("--project-name"@, project)).and(
        file_flags(paths),
    ).and(opt_flag("-f"@, override_path))
}

/// The beginning of a compose command line for a project with its files and, where one was
/// written, the override file.
pub fn compose_base_command(project: &str, paths: &Texts, override_path: Option<&str>) -> (res: Plan)
    ensures
        res@ == base_plan(project@, paths@, opt_str(override_path)),
{
    let mut plan = Plan::new();
    plan.arg("compose");
    plan.flag("--project-name", project.to_owned());
    add_file_flags(&mut plan, paths);
    plan.opt_flag("-f", override_path);
    plan
}

/// The flags that name the compose files, without an override file.
pub fn compose_files_args_for_build(paths: &Texts) -> (res: Texts)
    ensures
        res@ == file_flags(paths@).args,
{
    let mut plan = Plan::new();
    add_file_flags(&mut plan, paths);
    proof {
        lemma_nothing_and(file_flags(paths@));
    }
    plan.args
}

pub open spec fn repeated_service_notes(v: Seq<Seq<char>>) -> Seq<NoteView>
    decreases v.len(),
{
    if v.len() == 0 {
        Seq::empty()
    } else {
        repeated_service_notes(v.drop_last()) + (if unrepeated(v.drop_last()).contains(
            v.last(),
        ) {
            seq![NoteView::Warning(
                "Warning: duplicate runServices entry '"@ + v.last() + "', skipping"@,
            )]
        } else {
            no_notes()
        })
    }
}

/// The services that `docker compose up` starts: those of `runServices`, with the primary service
/// among them; all of them, given by an empty list, where `runServices` is empty.
pub open spec fn started_services(c: DevContainerConfig) -> Seq<Seq<char>> {
    let listed = unrepeated(texts(c.run_services@));
    match c.service {
        Some(s) => if listed.len() == 0 {
            listed
        } else {
            added(listed, s@)
        },
        None => listed,
    }
}

fn services_to_start(config: &DevContainerConfig, notes: &mut Notes) -> (res: Texts)
    ensures
        res@ == started_services(*config),
        final(notes)@ == old(notes)@ + repeated_service_notes(texts(config.run_services@)),
{
    let ghost names = texts(config.run_services@);
    let mut out = Texts::new();
    let mut i: usize = 0;
    assert(names.take(0) =~= Seq::empty());
    assert(notes@ + no_notes() =~= notes@);
    while i < config.run_services.len()
        invariant
            i <= config.run_services@.len(),
            names == texts(config.run_services@),
            out@ == unrepeated(names.take(i as int)),
            notes@ == old(notes)@ + repeated_service_notes(names.take(i as int)),
        decreases config.run_services@.len() - i,
    {
        assert(names.take(i + 1).drop_last() =~= names.take(i as int));
        let name = config.run_services[i].as_str();
        if out.contains(name) {
            notes.warn(
                "Warning: duplicate runServices entry '".to_owned().concat(name).concat(
                    "', skipping",
                ),
            );
        } else {
            out.arg(name);
        }
        assert(notes@ =~= old(notes)@ + repeated_service_notes(names.take(i + 1)));
        i = i + 1;
    }
    assert(names.take(i as int) =~= names);
    if let Some(s) = &config.service {
        if out.len() > 0 && !out.contains(s.as_str()) {
            out.arg(s.as_str());
        }
    }
    out
}

/// The rest of the command line of `docker compose up`.
pub open spec fn up_plan(c: DevContainerConfig, remove_existing: bool, no_build: bool) -> PlanView {
    nothing().and(word("up"@)).and(word("-d"@)).and(
        switch(remove_existing, "--force-recreate"@),
    ).and(switch(no_build, "--no-build"@)).and(
        told(repeated_service_notes(texts(c.run_services@))),
    ).and(words(started_services(c)))
}

/// Puts together what follows the base of `docker compose up`.
pub fn compose_up(config: &DevContainerConfig, remove_existing: bool, no_build: bool) -> (res: Plan)
    ensures
        res@ == up_plan(*config, remove_existing, no_build),
{
    let mut plan = Plan::new();
    plan.arg("up");
    plan.arg("-d");
    plan.switch(remove_existing, "--force-recreate");
    plan.switch(no_build, "--no-build");
    let ghost before = plan@;
    let services = services_to_start(config, &mut plan.notes);
    assert(plan@ =~= before.and(told(repeated_service_notes(texts(config.run_services@)))));
    plan.args(&services);
    plan
}

/// What `bondar down` does to a compose project.
#[derive(Debug, PartialEq, Eq)]
pub enum ComposeDown {
    /// Nothing: the services are kept.
    Keep,
    /// Stop all services and keep them.
    Stop,
    /// Stop the primary service alone.
    StopPrimary,
    /// Remove the services, those that are no longer configured too.
    Remove,
}

pub open spec fn shutdown_of(c: DevContainerConfig) -> Seq<char> {
    match c.shutdown_action {
        Some(s) => s@,
        None => "remove"@,
    }
}

pub open spec fn compose_down_of(c: DevContainerConfig) -> ComposeDown {
    if shutdown_of(c) == "none"@ {
        ComposeDown::Keep
    } else if shutdown_of(c) == "stopCompose"@ {
        ComposeDown::Stop
    } else if shutdown_of(c) == "stopContainer"@ {
        ComposeDown::StopPrimary
    } else {
        ComposeDown::Remove
    }
}

pub fn compose_down(config: &DevContainerConfig) -> (res: ComposeDown)
    ensures
        res == compose_down_of(*config),
{
    match &config.shutdown_action {
        Some(s) => if same_text(s.as_str(), "none") {
            ComposeDown::Keep
        } else if same_text(s.as_str(), "stopCompose") {
            ComposeDown::Stop
        } else if same_text(s.as_str(), "stopContainer") {
            ComposeDown::StopPrimary
        } else {
            ComposeDown::Remove
        },
        None => {
            proof {
                reveal_strlit("remove");
                reveal_strlit("none");
                reveal_strlit("stopCompose");
                reveal_strlit("stopContainer");
                assert("remove"@.len() == 6 && "none"@.len() == 4 && "stopCompose"@.len() == 11
                    && "stopContainer"@.len() == 13);
            }
            ComposeDown::Remove
        },
    }
}

/// What follows the base of the command line for that action.
pub open spec fn down_plan(action: ComposeDown, service: Option<Seq<char>>) -> PlanView {
    match action {
        ComposeDown::Keep => nothing().and(
            info("shutdownAction is 'none', skipping compose down"@),
        ),
        ComposeDown::Stop => nothing().and(info("Running 'docker compose stop'..."@)).and(
            word("stop"@),
        ),
        ComposeDown::StopPrimary => nothing().and(info("Running 'docker compose stop'..."@)).and(
            word("stop"@),
        ).and(
            match service {
                Some(s) => word(s),
                None => nothing(),
            },
        ),
        ComposeDown::Remove => nothing().and(info("Running 'docker compose down'..."@)).and(
            word("down"@),
        ).and(word("--remove-orphans"@)),
    }
}

pub fn compose_down_args(action: &ComposeDown, service: Option<&str>) -> (res: Plan)
    ensures
        res@ == down_plan(*action, opt_str(service)),
{
    let mut plan = Plan::new();
    match action {
        ComposeDown::Keep => {
            plan.info("shutdownAction is 'none', skipping compose down".to_owned());
        },
        ComposeDown::Stop => {
            plan.info("Running 'docker compose stop'...".to_owned());
            plan.arg("stop");
        },
        ComposeDown::StopPrimary => {
            plan.info("Running 'docker compose stop'...".to_owned());
            plan.arg("stop");
            proof {
                lemma_and_nothing(plan@);
            }
            if let Some(s) = service {
                plan.arg(s);
            }
        },
        ComposeDown::Remove => {
            plan.info("Running 'docker compose down'...".to_owned());
            plan.arg("down");
            plan.arg("--remove-orphans");
        },
    }
    plan
}

/// The command line that lists the container of a service, stopped ones too, but none that was
/// started for a single command.
pub open spec fn service_listing(project: Seq<char>, service: Seq<char>) -> Seq<Seq<char>> {
    seq![
        "ps"@,
        "-a"@,
        "-q"@,
        "--no-trunc"@,
        "--filter"@,
        "label=com.docker.compose.project="@ + project,
        "--filter"@,
        "label=com.docker.compose.service="@ + service,
        "--filter"@,
        "label=com.docker.compose.oneoff=False"@,
    ]
}

pub fn service_container_args(project: &str, service: &str) -> (res: Texts)
    ensures
        res@ == service_listing(project@, service@),
{
    let mut args = Texts::new();
    args.arg("ps");
    args.arg("-a");
    args.arg("-q");
    args.arg("--no-trunc");
    args.arg("--filter");
    args.push("label=com.docker.compose.project=".to_owned().concat(project));
    args.arg("--filter");
    args.push("label=com.docker.compose.service=".to_owned().concat(service));
    args.arg("--filter");
    args.arg("label=com.docker.compose.oneoff=False");
    assert(args@ =~= seq![
        "ps"@,
        "-a"@,
        "-q"@,
        "--no-trunc"@,
        "--filter"@,
        "label=com.docker.compose.project="@ + project@,
        "--filter"@,
        "label=com.docker.compose.service="@ + service@,
        "--filter"@,
        "label=com.docker.compose.oneoff=False"@,
    ]);
    args
}

/// The first line of an answer, without surrounding white space.
pub open spec fn first_line(stdout: Seq<char>) -> Seq<char> {
    if lines(stdout).len() > 0 {
        trimmed(lines(stdout)[0])
    } else {
        Seq::empty()
    }
}

/// Why the container of a service is not found.
pub open spec fn service_container_error(service: Option<Seq<char>>, stdout: Seq<char>) -> Option<
    ErrorView,
> {
    match service {
        None => Some(ErrorView::Config("No service specified"@)),
        Some(s) => if first_line(stdout).len() == 0 {
            Some(ErrorView::Docker("Service "@ + s + " container not found"@))
        } else {
            None
        },
    }
}

/// The container of a service: the first one that is listed.
pub fn get_service_container_id(service: Option<&str>, stdout: &str) -> (res: Result<
    String,
    BondarError,
>)
    ensures
        failure(res) == service_container_error(opt_str(service), stdout@),
        res matches Ok(id) ==> id@ == first_line(stdout@),
{
    match service {
        None => Err(BondarError::Config("No service specified".to_owned())),
        Some(s) => {
            let all = split_lines(stdout);
            let id = if all.len() > 0 {
                trim(all.get(0))
            } else {
                String::new()
            };
            if id.as_str().unicode_len() == 0 {
                Err(
                    BondarError::Docker(
                        "Service ".to_owned().concat(s).concat(" container not found"),
                    ),
                )
            } else {
                Ok(id)
            }
        },
    }
}

/// Whether the container of a service is there and whether it is running, from the answer of
/// `docker inspect` on it.
pub open spec fn service_state(found: bool, inspected: bool, stdout: Seq<char>) -> (bool, bool) {
    (found, found && inspected && trimmed(stdout) == "true"@)
}

pub fn service_container_state(found: bool, inspected: bool, stdout: &str) -> (res: (bool, bool))
    ensures
        res == service_state(found, inspected, stdout@),
{
    if !found {
        return (false, false);
    }
    if !inspected {
        return (true, false);
    }
    let answer = trim(stdout);
    (true, same_text(answer.as_str(), "true"))
}

/// The text without its leading slashes.
pub open spec fn without_slashes(s: Seq<char>) -> Seq<char>
    decreases s.len(),
{
    if s.len() > 0 && s[0] == '/' {
        without_slashes(s.skip(1))
    } else {
        s
    }
}

/// The name of a container from the answer of `docker inspect`, or its identifier where there is
/// none.
pub open spec fn service_name(id: Seq<char>, inspected: bool, stdout: Seq<char>) -> Seq<char> {
    if inspected && without_slashes(trimmed(stdout)).len() > 0 {
        without_slashes(trimmed(stdout))
    } else {
        id
    }
}

pub fn get_service_container_name(id: &str, inspected: bool, stdout: &str) -> (res: String)
    ensures
        res@ == service_name(id@, inspected, stdout@),
{
    if !inspected {
        return id.to_owned();
    }
    let answer = trim(stdout);
    let v = chars_of(answer.as_str());
    let mut i: usize = 0;
    assert(v@.skip(0) =~= v@);
    while i < v.len() && v[i] == '/'
        invariant
            i <= v@.len(),
            without_slashes(v@) == without_slashes(v@.skip(i as int)),
        decreases v@.len() - i,
    {
        assert(v@.skip(i as int).skip(1) =~= v@.skip(i + 1));
        i = i + 1;
    }
    let name = text_of(&v, i, v.len());
    assert(name@ =~= v@.skip(i as int));
    if name.as_str().unicode_len() == 0 {
        id.to_owned()
    } else {
        name
    }
}

/// What follows the base of the command line of `docker compose exec`.
pub open spec fn compose_exec_plan(
    c: DevContainerConfig,
    scope: Scope,
    tty: bool,
    user: Option<Seq<char>>,
    workdir: Option<Seq<char>>,
    env: Option<Seq<(Seq<char>, Seq<char>)>>,
    service: Seq<char>,
    command: Seq<Seq<char>>,
) -> PlanView {
    nothing().and(word("exec"@)).and(opt_flag("--user"@, user)).and(opt_flag("-w"@, workdir)).and(
        if env is Some {
            told(container_values_notes(c.container_env@, c.container_env@, scope)).and(
                exec_env_plan(
                    env,
                    Some(container_values(c.container_env@, c.container_env@, scope)),
                    scope,
                ),
            )
        } else {
            nothing()
        },
    ).and(switch(!tty, "-T"@)).and(word(service)).and(words(command))
}

/// Puts together what follows the base of `docker compose exec`. References to the workspace folder
/// inside the container stand for the scope's target, whatever the working directory is.
pub fn compose_exec(
    config: &DevContainerConfig,
    scope: &Scope,
    tty: bool,
    user: Option<&str>,
    workdir: Option<&str>,
    env: Option<&EnvMap>,
    command: &Texts,
) -> (res: Result<Plan, BondarError>)
    ensures
        match config.service {
            None => failure(res) == Some(
                ErrorView::Config(
                    "'service' must be specified in devcontainer.json when using dockerComposeFile"@,
                ),
            ),
            Some(service) => res matches Ok(plan) && plan@ == compose_exec_plan(
                *config,
                *scope,
                tty,
                opt_str(user),
                opt_str(workdir),
                opt_map(env),
                service@,
                command@,
            ),
        },
{
    let service = match &config.service {
        Some(s) => s.as_str(),
        None => {
            return Err(
                BondarError::Config(
                    "'service' must be specified in devcontainer.json when using dockerComposeFile".to_owned(),
                ),
            );
        },
    };
    let mut plan = Plan::new();
    plan.arg("exec");
    plan.opt_flag("--user", user);
    plan.opt_flag("-w", workdir);
    let ghost before = plan@;
    if env.is_some() {
        let values = container_env_map(&config.container_env, scope, &mut plan.notes);
        let ghost first = told(
            container_values_notes(config.container_env@, config.container_env@, *scope),
        );
        assert(plan@ =~= before.and(first));
        add_exec_env(&mut plan, env, Some(&values), scope);
        proof {
            lemma_and_assoc(
                before,
                first,
                exec_env_plan(
                    opt_map(env),
                    Some(container_values(config.container_env@, config.container_env@, *scope)),
                    *scope,
                ),
            );
        }
    } else {
        proof {
            lemma_and_nothing(plan@);
        }
    }
    plan.switch(!tty, "-T");
    plan.arg(service);
    plan.args(command);
    Ok(plan)
}

/// What follows the base of `docker compose build`.
pub open spec fn compose_build_plan(no_cache: bool) -> PlanView {
    nothing().and(word("build"@)).and(switch(no_cache, "--no-cache"@))
}

pub fn compose_build_args(no_cache: bool) -> (res: Plan)
    ensures
        res@ == compose_build_plan(no_cache),
{
    let mut plan = Plan::new();
    plan.arg("build");
    plan.switch(no_cache, "--no-cache");
    plan
}

/// What follows the base of `docker compose logs`.
pub open spec fn compose_logs_plan(
    follow: bool,
    tail: Option<Seq<char>>,
    service: Option<Seq<char>>,
) -> PlanView {
    nothing().and(word("logs"@)).and(switch(follow, "-f"@)).and(opt_flag("--tail"@, tail)).and(
        match service {
            Some(s) => word(s),
            None => nothing(),
        },
    )
}

pub fn compose_logs_args(follow: bool, tail: Option<&str>, service: Option<&str>) -> (res: Plan)
    ensures
        res@ == compose_logs_plan(follow, opt_str(tail), opt_str(service)),
{
    let mut plan = Plan::new();
    plan.arg("logs");
    plan.switch(follow, "-f");
    plan.opt_flag("--tail", tail);
    proof {
        lemma_and_nothing(plan@);
    }
    if let Some(s) = service {
        plan.arg(s);
    }
    plan
}

/// Why compose cannot be used.
pub open spec fn compose_error(answered: bool) -> Option<ErrorView> {
    if answered {
        None
    } else {
        Some(ErrorView::Docker("docker compose not available"@))
    }
}

/// Whether compose can be used.
pub fn check_compose_available(answered: bool) -> (res: Result<(), BondarError>)
    ensures
        failure(res) == compose_error(answered),
{
    if answered {
        Ok(())
    } else {
        Err(BondarError::Docker("docker compose not available".to_owned()))
    }
}

// ---------------------------------------------------------------------------------------------
// Laws

/// What a quoted scalar stands for, from position `i` on.
pub open spec fn yaml_read(t: Seq<char>, i: int) -> Seq<char>
    decreases t.len() - i + 1,
{
    if i < 0 || i >= t.len() {
        Seq::empty()
    } else if t[i] == '\\' && i + 1 < t.len() {
        seq![if t[i + 1] == 'n' {
            '\n'
        } else if t[i + 1] == 'r' {
            '\r'
        } else if t[i + 1] == 't' {
            '\t'
        } else {
            t[i + 1]
        }] + yaml_read(t, i + 2)
    } else if t[i] == '$' && i + 1 < t.len() && t[i + 1] == '$' {
        seq!['$'] + yaml_read(t, i + 2)
    } else {
        seq![t[i]] + yaml_read(t, i + 1)
    }
}

proof fn lemma_escaped_front(s: Seq<char>)
    requires
        s.len() > 0,
    ensures
        yaml_escaped(s) == yaml_char(s[0]) + yaml_escaped(s.skip(1)),
    decreases s.len(),
{
    if s.len() == 1 {
        assert(s.drop_last() =~= Seq::empty());
        assert(s.skip(1) =~= Seq::empty());
        assert(yaml_char(s[0]) + Seq::<char>::empty() =~= Seq::<char>::empty() + yaml_char(s[0]));
    } else {
        lemma_escaped_front(s.drop_last());
        assert(s.drop_last().skip(1) =~= s.skip(1).drop_last());
        assert(yaml_escaped(s) =~= yaml_char(s[0]) + (yaml_escaped(s.skip(1).drop_last())
            + yaml_char(s.skip(1).last())));
    }
}

proof fn lemma_yaml_read_shift(a: Seq<char>, t: Seq<char>, i: int)
    requires
        0 <= i <= t.len(),
    ensures
        yaml_read(a + t, a.len() + i) == yaml_read(t, i),
    decreases t.len() - i,
{
    if i < t.len() {
        let w = a + t;
        assert(w[a.len() + i] == t[i]);
        if i + 1 < t.len() {
            assert(w[a.len() + i + 1] == t[i + 1]);
        }
        if (t[i] == '\\' && i + 1 < t.len()) || (t[i] == '$' && i + 1 < t.len() && t[i + 1] == '$') {
            lemma_yaml_read_shift(a, t, i + 2);
        } else {
            lemma_yaml_read_shift(a, t, i + 1);
        }
    }
}

/// A value written to the override file is read back as it was.
pub proof fn law_yaml_values_read_back(s: Seq<char>)
    ensures
        yaml_read(yaml_escaped(s), 0) == s,
    decreases s.len(),
{
    if s.len() > 0 {
        let c = s[0];
        let rest = yaml_escaped(s.skip(1));
        lemma_escaped_front(s);
        law_yaml_values_read_back(s.skip(1));
        lemma_yaml_read_shift(yaml_char(c), rest, 0);
        let t = yaml_char(c) + rest;
        assert(t[0] == yaml_char(c)[0]);
        if yaml_char(c).len() == 2 {
            assert(t[1] == yaml_char(c)[1]);
        }
        assert(s =~= seq![c] + s.skip(1));
    }
}

proof fn lemma_ports_distinct(c: DevContainerConfig, v: Seq<Seq<char>>, specs: Seq<Seq<char>>)
    requires
        all_distinct(v),
    ensures
        all_distinct(ports_with_all(c, v, specs)),
    decreases specs.len(),
{
    if specs.len() > 0 {
        lemma_ports_distinct(c, v, specs.drop_last());
        let before = ports_with_all(c, v, specs.drop_last());
        if let Some(p) = published_for(c, specs.last()) {
            lemma_added_distinct(before, "\""@ + p + "\""@);
        }
    }
}

/// The override file publishes no port twice and mounts no volume twice.
pub proof fn law_override_has_no_repetitions(c: DevContainerConfig, scope: Scope)
    ensures
        all_distinct(service_ports(c)),
        all_distinct(volumes_of(c.mounts@, scope)),
{
    lemma_ports_distinct(c, Seq::empty(), forward_texts(c.forward_ports@));
    lemma_ports_distinct(
        c,
        ports_with_all(c, Seq::empty(), forward_texts(c.forward_ports@)),
        app_ports(c.app_port),
    );
    lemma_volumes_distinct(c.mounts@, scope);
}

proof fn lemma_volumes_distinct(mounts: Seq<MountValue>, scope: Scope)
    ensures
        all_distinct(volumes_of(mounts, scope)),
    decreases mounts.len(),
{
    if mounts.len() > 0 {
        lemma_volumes_distinct(mounts.drop_last(), scope);
        if let Some(vol) = volume_of(mounts.last(), scope) {
            lemma_added_distinct(volumes_of(mounts.drop_last(), scope), vol);
        }
    }
}

/// The variables of the override file come in the order of their names.
pub proof fn law_override_variables_are_sorted(env: Seq<(Seq<char>, Seq<char>)>)
    ensures
        ({
            let order = sorting_order(keys_of(env));
            &&& env_section_lines(env).len() == env.len()
            &&& forall|i: int, j: int|
                0 <= i < j < env.len() ==> ranks_before(
                    keys_of(env),
                    #[trigger] order[i],
                    #[trigger] order[j],
                )
        }),
{
    law_sorting_is_stable(keys_of(env));
}

proof fn lemma_unrepeated(v: Seq<Seq<char>>)
    ensures
        all_distinct(unrepeated(v)),
        forall|s: Seq<char>| v.contains(s) <==> #[trigger] unrepeated(v).contains(s),
        v.len() > 0 ==> unrepeated(v).len() > 0,
    decreases v.len(),
{
    if v.len() > 0 {
        let before = unrepeated(v.drop_last());
        lemma_unrepeated(v.drop_last());
        lemma_added_distinct(before, v.last());
        assert forall|s: Seq<char>| v.contains(s) <==> #[trigger] unrepeated(v).contains(s) by {
            if v.contains(s) {
                let k = choose|k: int| 0 <= k < v.len() && v[k] == s;
                if k < v.len() - 1 {
                    assert(v.drop_last()[k] == s);
                    assert(v.drop_last().contains(s));
                    assert(before.contains(s));
                    let m = choose|m: int| 0 <= m < before.len() && before[m] == s;
                    assert(unrepeated(v)[m] == s);
                }
            }
            if unrepeated(v).contains(s) {
                let m = choose|m: int| 0 <= m < unrepeated(v).len() && unrepeated(v)[m] == s;
                if m < before.len() {
                    assert(before[m] == s);
                    assert(before.contains(s));
                    let k = choose|k: int| 0 <= k < v.drop_last().len() && v.drop_last()[k] == s;
                    assert(v[k] == s);
                } else {
                    assert(v[v.len() - 1] == s);
                }
            }
        }
    } else {
        assert(unrepeated(v) =~= v);
    }
}

/// Where services are listed, exactly these and the primary service are started, each once.
pub proof fn law_primary_service_is_started(c: DevContainerConfig)
    ensures
        all_distinct(started_services(c)),
        forall|s: Seq<char>|
            #[trigger] started_services(c).contains(s) <==> texts(c.run_services@).contains(s) || (
            c.run_services@.len() > 0 && (c.service matches Some(p) && p@ == s)),
{
    let names = texts(c.run_services@);
    let listed = unrepeated(names);
    lemma_unrepeated(names);
    if let Some(p) = c.service {
        if listed.len() > 0 {
            lemma_added_distinct(listed, p@);
            assert(names.len() > 0) by {
                if names.len() == 0 {
                    assert(listed =~= Seq::empty());
                }
            }
            assert forall|s: Seq<char>|
                #[trigger] started_services(c).contains(s) <==> names.contains(s) || p@ == s by {
                if listed.contains(s) {
                    let k = choose|k: int| 0 <= k < listed.len() && listed[k] == s;
                    assert(started_services(c)[k] == s);
                }
                if started_services(c).contains(s) && s != p@ {
                    let k = choose|k: int|
                        0 <= k < started_services(c).len() && started_services(c)[k] == s;
                    assert(k < listed.len());
                    assert(listed[k] == s);
                    assert(listed.contains(s));
                }
            }
        }
    }
}

/// The values in quotes.
pub open spec fn in_quotes(v: Seq<Seq<char>>) -> Seq<Seq<char>> {
    Seq::new(v.len(), |i: int| "\""@ + v[i] + "\""@)
}

proof fn lemma_ports_with_all(c: DevContainerConfig, v: Seq<Seq<char>>, specs: Seq<Seq<char>>)
    ensures
        ports_with_all(c, v, specs) == added_all(v, in_quotes(to_publish(c, specs))),
    decreases specs.len(),
{
    if specs.len() > 0 {
        lemma_ports_with_all(c, v, specs.drop_last());
        let before = to_publish(c, specs.drop_last());
        if let Some(p) = published_for(c, specs.last()) {
            assert(in_quotes(before.push(p)).drop_last() =~= in_quotes(before));
        }
    }
}

/// The override file publishes the ports of both lists in their order, each once, and none that is
/// to be ignored.
pub proof fn law_override_publishes_what_is_not_ignored(c: DevContainerConfig)
    ensures
        service_ports(c) == added_all(
            added_all(
                Seq::empty(),
                in_quotes(to_publish(c, forward_texts(c.forward_ports@))),
            ),
            in_quotes(to_publish(c, app_ports(c.app_port))),
        ),
{
    let forwarded = forward_texts(c.forward_ports@);
    lemma_ports_with_all(c, Seq::empty(), forwarded);
    lemma_ports_with_all(
        c,
        ports_with_all(c, Seq::empty(), forwarded),
        app_ports(c.app_port),
    );
}

/// Each variable of the service stands once in the override file, and a secret overrides the variable
/// of the same name.
pub proof fn law_secrets_override_variables(c: DevContainerConfig, scope: Scope, name: Seq<char>)
    ensures
        distinct_keys(service_env(c, scope)),
        ({
            let own = container_values(c.container_env@, c.container_env@, scope);
            let secrets = inserted_all(
                Seq::empty(),
                secret_entries(secret_specs(c), scope.host@),
            );
            lookup(service_env(c, scope), name) == (if has_key(secrets, name) {
                lookup(secrets, name)
            } else {
                lookup(own, name)
            })
        }),
{
    let own = container_values(c.container_env@, c.container_env@, scope);
    let secrets = secret_entries(secret_specs(c), scope.host@);
    lemma_container_values_distinct(c.container_env@, c.container_env@, scope);
    lemma_inserted_all(own, secrets, name);
}

/// Two workspaces have the same override file only where the first eight digits of their identifiers
/// are the same, whatever their directories are called.
pub proof fn law_workspaces_have_their_own_override(a: Workspace, b: Workspace)
    requires
        workspace_id(a.folder@).take(8) != workspace_id(b.folder@).take(8),
    ensures
        override_name(project_name(a.folder@)) != override_name(project_name(b.folder@)),
{
    law_workspace_identifiers(a, b);
    law_workspace_identifiers(b, a);
    let p = project_name(a.folder@);
    let q = project_name(b.folder@);
    assert(override_name(p).take(15) =~= p);
    assert(override_name(q).take(15) =~= q);
}

// ---------------------------------------------------------------------------------------------
// Volumes

/// A text that can stand as a value in Docker's `--mount` syntax: it holds no comma and does not end in
/// white space.
pub open spec fn mount_value(s: Seq<char>) -> bool {
    s.len() > 0 && !s.contains(',') && !is_white_space(s.last())
}

/// A mount in Docker's `--mount` syntax.
pub open spec fn mount_text(
    kind: Seq<char>,
    source: Seq<char>,
    target: Seq<char>,
    readonly: bool,
) -> Seq<char> {
    "type="@ + kind + ",source="@ + source + ",target="@ + target + (if readonly {
        ",readonly"@
    } else {
        Seq::empty()
    })
}

/// What a mount is in the short syntax of compose.
pub open spec fn short_syntax(source: Seq<char>, target: Seq<char>, readonly: bool) -> Seq<char> {
    source + ":"@ + target + (if readonly {
        ":ro"@
    } else {
        Seq::empty()
    })
}

proof fn lemma_mount_part(key: Seq<char>, value: Seq<char>)
    requires
        mount_value(value),
        key.len() > 0,
        !is_white_space(key[0]),
        !key.contains('='),
    ensures
        trimmed(key + seq!['='] + value) == key + seq!['='] + value,
        cut_once(key + seq!['='] + value, '=') == Some((key, value)),
{
    let part = key + seq!['='] + value;
    let none = Seq::<char>::empty();
    law_trimmed(none, part, none);
    assert(none + part + none =~= part);
    assert forall|k: int| 0 <= k < key.len() implies part[k] != '=' by {
        assert(key.contains(key[k]));
    }
    lemma_seek_is(part, '=', 0, key.len() as int);
    assert(part.take(key.len() as int) =~= key);
    assert(part.skip(key.len() as int + 1) =~= value);
}

proof fn lemma_mount_keys()
    ensures
        "type="@ =~= "type"@ + seq!['='],
        ",source="@ =~= seq![','] + "source"@ + seq!['='],
        ",target="@ =~= seq![','] + "target"@ + seq!['='],
        ",readonly"@ =~= seq![','] + "readonly"@,
        "source"@ != "type"@ && "target"@ != "type"@ && "target"@ != "source"@,
        "target"@ != "src"@,
        !"type"@.contains('=') && !"source"@.contains('=') && !"target"@.contains('='),
        !"readonly"@.contains('=') && !"readonly"@.contains(','),
        "type"@.len() > 0 && "source"@.len() > 0 && "target"@.len() > 0,
        "type"@[0] == 't' && "source"@[0] == 's' && "target"@[0] == 't',
        "readonly"@.len() > 0 && "readonly"@[0] == 'r' && "readonly"@.last() == 'y',
{
    reveal_strlit("type=");
    reveal_strlit("type");
    reveal_strlit(",source=");
    reveal_strlit("source");
    reveal_strlit(",target=");
    reveal_strlit("target");
    reveal_strlit(",readonly");
    reveal_strlit("readonly");
    reveal_strlit("src");
    assert("source"@.len() == 6 && "type"@.len() == 4 && "target"@.len() == 6 && "src"@.len() == 3);
    assert("target"@[0] == 't' && "source"@[0] == 's');
}

proof fn lemma_comma_free(a: Seq<char>, b: Seq<char>)
    requires
        !a.contains(','),
        !b.contains(','),
    ensures
        !(a + seq!['='] + b).contains(','),
{
    let s = a + seq!['='] + b;
    if s.contains(',') {
        let k = choose|k: int| 0 <= k < s.len() && s[k] == ',';
        if k < a.len() {
            assert(a.contains(a[k]));
        } else if k > a.len() {
            assert(b.contains(b[k - a.len() - 1]));
        }
    }
}

/// What a mount in Docker's syntax says.
pub proof fn lemma_mount_read(
    kind: Seq<char>,
    source: Seq<char>,
    target: Seq<char>,
    readonly: bool,
)
    requires
        mount_value(kind),
        mount_value(source),
        mount_value(target),
    ensures
        mount_read(pieces(mount_text(kind, source, target, readonly), ',')) == (MountSpec {
            source: Some(source),
            target: Some(target),
            readonly,
            tmpfs: kind == "tmpfs"@,
            bind: kind == "bind"@,
        }),
{
    lemma_mount_keys();
    reveal_strlit("type");
    reveal_strlit("source");
    reveal_strlit("target");
    assert(!"type"@.contains(',') && !"source"@.contains(',') && !"target"@.contains(','));
    let a = "type"@ + seq!['='] + kind;
    let b = "source"@ + seq!['='] + source;
    let c = "target"@ + seq!['='] + target;
    let d = "readonly"@;
    let none = Seq::<char>::empty();
    lemma_comma_free("type"@, kind);
    lemma_comma_free("source"@, source);
    lemma_comma_free("target"@, target);
    lemma_mount_part("type"@, kind);
    lemma_mount_part("source"@, source);
    lemma_mount_part("target"@, target);
    let m = mount_text(kind, source, target, readonly);
    let comma = seq![','];
    let m1 = MountSpec { tmpfs: kind == "tmpfs"@, bind: kind == "bind"@, ..no_mount() };
    let m2 = MountSpec { source: Some(source), ..m1 };
    let m3 = MountSpec { target: Some(target), ..m2 };
    assert(mount_with(no_mount(), a) == m1);
    assert(mount_with(m1, b) == m2);
    assert(mount_with(m2, c) == m3);
    let three = seq![a, b, c];
    assert(three.drop_last() =~= seq![a, b]);
    assert(seq![a, b].drop_last() =~= seq![a]);
    assert(seq![a].drop_last() =~= Seq::empty());
    assert(mount_read(seq![a].drop_last()) == no_mount());
    assert(seq![a].last() == a);
    assert(mount_read(seq![a]) == m1);
    assert(mount_read(seq![a, b]) == m2);
    assert(mount_read(three) == m3);
    if readonly {
        let r2 = c + comma + d;
        let r1 = b + comma + r2;
        assert(m =~= a + comma + r1);
        law_pieces(a, r1, ',');
        law_pieces(b, r2, ',');
        law_pieces(c, d, ',');
        law_pieces(d, none, ',');
        assert(pieces(m, ',') =~= seq![a, b, c, d]);
        assert(seq![a, b, c, d].drop_last() =~= three);
        law_trimmed(none, d, none);
        assert(none + d + none =~= d);
        lemma_seek_none(d, '=', 0);
        assert(mount_with(m3, d) == MountSpec { readonly: true, ..m3 });
    } else {
        let r1 = b + comma + c;
        assert(m =~= a + comma + r1);
        law_pieces(a, r1, ',');
        law_pieces(b, c, ',');
        law_pieces(c, none, ',');
        assert(pieces(m, ',') =~= three);
    }
}

/// A mount in Docker's syntax is the volume of its source and its target, for reading only where it
/// says so; a tmpfs mount is none.
pub proof fn law_mount_texts_are_read(
    kind: Seq<char>,
    source: Seq<char>,
    target: Seq<char>,
    readonly: bool,
)
    requires
        mount_value(kind),
        mount_value(source),
        mount_value(target),
    ensures
        compose_volume(mount_text(kind, source, target, readonly)) == (if kind == "tmpfs"@ {
            None
        } else {
            Some(short_syntax(source, target, readonly))
        }),
{
    lemma_mount_read(kind, source, target, readonly);
    let m = mount_text(kind, source, target, readonly);
    if kind != "tmpfs"@ {
        assert(compose_volume(m)->0 =~= short_syntax(source, target, readonly));
    }
}

/// A mount whose source lies below the workspace folder on the host becomes a volume that begins with
/// that folder, whether it is given as an object or in Docker's syntax: the two give the same volume.
pub proof fn law_mounts_of_the_workspace(
    o: MountObject,
    below: Seq<char>,
    target: Seq<char>,
    scope: Scope,
    kind: String,
    source: String,
    place: String,
    text: String,
)
    requires
        kind@ == "bind"@,
        source@ == "${localWorkspaceFolder}"@ + below,
        place@ == target,
        o.mount_type == Some(kind),
        o.source == Some(source),
        o.target == Some(place),
        text@ == mount_text("bind"@, source@, target, o.readonly == Some(true)),
        mount_value(target),
        mount_value(scope.workspace.folder@ + below),
        !below.contains('$'),
        !target.contains('$'),
        !scope.workspace.folder@.contains('$'),
    ensures
        ({
            let volume = short_syntax(
                scope.workspace.folder@ + below,
                target,
                o.readonly == Some(true),
            );
            &&& volume_of(MountValue::Object(o), scope) == Some(volume)
            &&& volume_of(MountValue::String(text), scope) == Some(volume)
            &&& begins_with(volume, scope.workspace.folder@)
        }),
{
    let readonly = o.readonly == Some(true);
    let none = Seq::<char>::empty();
    let folder = scope.workspace.folder@;
    let inner = folder + below;
    lemma_differs();
    law_folder_reference_within(none, below, *scope.workspace, scope.target@, scope.host@);
    assert(none + "${localWorkspaceFolder}"@ + below =~= source@);
    assert(none + folder + below =~= inner);
    lemma_no_reference(target);
    law_plain_values_stay(target, *scope.workspace, scope.target@, scope.host@);
    assert(object_volume(o, scope)->0 =~= short_syntax(inner, target, readonly));

    let front = "type="@ + "bind"@ + ",source="@;
    let back = below + ",target="@ + target + (if readonly {
        ",readonly"@
    } else {
        Seq::empty()
    });
    lemma_plain_words(below, target);
    law_folder_reference_within(front, back, *scope.workspace, scope.target@, scope.host@);
    assert(text@ =~= front + "${localWorkspaceFolder}"@ + back);
    assert(front + folder + back =~= mount_text("bind"@, inner, target, readonly));
    law_mount_texts_are_read("bind"@, inner, target, readonly);
    let volume = short_syntax(inner, target, readonly);
    assert(volume.subrange(0, folder.len() as int) =~= folder);
}

proof fn lemma_differs()
    ensures
        "bind"@ != "tmpfs"@,
        mount_value("bind"@),
{
    reveal_strlit("bind");
    reveal_strlit("tmpfs");
    assert("bind"@.len() == 4 && "tmpfs"@.len() == 5);
    assert("bind"@.last() == 'd');
}

proof fn lemma_plain_words(below: Seq<char>, target: Seq<char>)
    requires
        !below.contains('$'),
        !target.contains('$'),
    ensures
        !("type="@ + "bind"@ + ",source="@).contains('$'),
        !(below + ",target="@ + target + ",readonly"@).contains('$'),
        !(below + ",target="@ + target + Seq::<char>::empty()).contains('$'),
{
    reveal_strlit("type=");
    reveal_strlit("bind");
    reveal_strlit(",source=");
    reveal_strlit(",target=");
    reveal_strlit(",readonly");
    lemma_no_dollar("type="@, "bind"@, ",source="@);
    lemma_no_dollar(below, ",target="@, target);
    lemma_no_dollar(below + ",target="@ + target, ",readonly"@, Seq::empty());
    assert(below + ",target="@ + target + ",readonly"@ + Seq::<char>::empty() =~= below
        + ",target="@ + target + ",readonly"@);
    lemma_no_dollar(below + ",target="@ + target, Seq::empty(), Seq::empty());
    assert(below + ",target="@ + target + Seq::<char>::empty() + Seq::<char>::empty() =~= below
        + ",target="@ + target + Seq::<char>::empty());
}

/// Every mount given as an object, unless it is a tmpfs mount or has no target, is a volume of the
/// service: its source and its target, each expanded, and for reading only where it says so.
pub proof fn law_object_mounts_become_volumes(mounts: Seq<MountValue>, scope: Scope, i: int)
    requires
        0 <= i < mounts.len(),
    ensures
        mounts[i] matches MountValue::Object(o) ==> {
            let tmpfs = o.mount_type matches Some(k) && k@ == "tmpfs"@;
            let end = if o.readonly == Some(true) {
                ":ro"@
            } else {
                Seq::empty()
            };
            let all = volumes_of(mounts, scope);
            let outside = |s: Seq<char>|
                expanded(s, *scope.workspace, scope.target@, scope.host@);
            &&& !tmpfs && o.source is Some && o.target is Some ==> all.contains(
                outside(o.source->0@) + ":"@ + outside(o.target->0@) + end,
            )
            &&& !tmpfs && o.source is None && o.target is Some ==> all.contains(
                outside(o.target->0@) + end,
            )
            &&& tmpfs || o.target is None ==> all == volumes_of(mounts.remove(i), scope)
        },
{
    if let MountValue::Object(o) = mounts[i] {
        let tmpfs = o.mount_type matches Some(k) && k@ == "tmpfs"@;
        let end = if o.readonly == Some(true) {
            ":ro"@
        } else {
            Seq::empty()
        };
        if tmpfs || o.target is None {
            lemma_volumes_without(mounts, scope, i);
        } else {
            lemma_volume_kept(mounts, scope, i);
            let target = expanded(o.target->0@, *scope.workspace, scope.target@, scope.host@);
            assert(o.source is None ==> volume_of(mounts[i], scope)->0 =~= target + end);
        }
    }
}

/// Every mount in Docker's syntax is expanded as a whole, and what it is in compose's syntax is a
/// volume of the service.
pub proof fn law_string_mounts_become_volumes(mounts: Seq<MountValue>, scope: Scope, i: int)
    requires
        0 <= i < mounts.len(),
    ensures
        mounts[i] matches MountValue::String(s) ==> {
            match compose_volume(expanded(s@, *scope.workspace, scope.target@, scope.host@)) {
                Some(v) => volumes_of(mounts, scope).contains(v),
                None => volumes_of(mounts, scope) == volumes_of(mounts.remove(i), scope),
            }
        },
{
    if let MountValue::String(s) = mounts[i] {
        if volume_of(mounts[i], scope) is Some {
            lemma_volume_kept(mounts, scope, i);
        } else {
            lemma_volumes_without(mounts, scope, i);
        }
    }
}

proof fn lemma_added_keeps(v: Seq<Seq<char>>, entry: Seq<char>, old_one: Seq<char>)
    ensures
        added(v, entry).contains(entry),
        v.contains(old_one) ==> added(v, entry).contains(old_one),
{
    if !v.contains(entry) {
        assert(v.push(entry).last() == entry);
    }
    if v.contains(old_one) {
        let k = choose|k: int| 0 <= k < v.len() && v[k] == old_one;
        assert(added(v, entry)[k] == old_one);
    }
}

proof fn lemma_volume_kept(mounts: Seq<MountValue>, scope: Scope, i: int)
    requires
        0 <= i < mounts.len(),
        volume_of(mounts[i], scope) is Some,
    ensures
        volumes_of(mounts, scope).contains(volume_of(mounts[i], scope)->0),
    decreases mounts.len(),
{
    let before = volumes_of(mounts.drop_last(), scope);
    let wanted = volume_of(mounts[i], scope)->0;
    if i < mounts.len() - 1 {
        assert(mounts.drop_last()[i] == mounts[i]);
        lemma_volume_kept(mounts.drop_last(), scope, i);
        if let Some(v) = volume_of(mounts.last(), scope) {
            lemma_added_keeps(before, v, wanted);
        }
    } else {
        lemma_added_keeps(before, wanted, wanted);
    }
}

proof fn lemma_volumes_without(mounts: Seq<MountValue>, scope: Scope, i: int)
    requires
        0 <= i < mounts.len(),
        volume_of(mounts[i], scope) is None,
    ensures
        volumes_of(mounts, scope) == volumes_of(mounts.remove(i), scope),
    decreases mounts.len(),
{
    if i < mounts.len() - 1 {
        assert(mounts.drop_last()[i] == mounts[i]);
        lemma_volumes_without(mounts.drop_last(), scope, i);
        assert(mounts.remove(i).drop_last() =~= mounts.drop_last().remove(i));
        assert(mounts.remove(i).last() == mounts.last());
    } else {
        assert(mounts.remove(i) =~= mounts.drop_last());
    }
}

/// A tmpfs mount is passed over with a warning, however it is given, and nothing else is said of it.
pub proof fn law_tmpfs_mounts_are_passed_over(
    o: MountObject,
    kind: String,
    source: Seq<char>,
    target: Seq<char>,
    readonly: bool,
    scope: Scope,
)
    requires
        kind@ == "tmpfs"@,
        o.mount_type == Some(kind),
        mount_value(source),
        mount_value(target),
    ensures
        volume_of(MountValue::Object(o), scope) is None,
        volume_notes(MountValue::Object(o), scope) == seq![
            NoteView::Warning(
                "Warning: tmpfs mount is skipped in compose override (no short-syntax equivalent)"@,
            ),
        ],
        compose_volume(mount_text("tmpfs"@, source, target, readonly)) is None,
{
    reveal_strlit("tmpfs");
    assert("tmpfs"@.last() == 's');
    law_mount_texts_are_read("tmpfs"@, source, target, readonly);
}

/// A mount given as an object is the same for `docker run` as in the override file: what `docker run`
/// is given, read as Docker reads it, is the volume of the service.
pub proof fn law_mounts_are_the_same_with_compose(o: MountObject, scope: Scope)
    requires
        o.mount_type is Some && o.source is Some && o.target is Some,
        mount_value(o.mount_type->0@),
        mount_value(scope.value(o.source->0@)),
        mount_value(scope.value(o.target->0@)),
    ensures
        compose_volume(joined(mount_parts(o, scope), ","@)) == volume_of(
            MountValue::Object(o),
            scope,
        ),
{
    let kind = o.mount_type->0@;
    let source = scope.value(o.source->0@);
    let target = scope.value(o.target->0@);
    let readonly = o.readonly == Some(true);
    lemma_joined_parts(o, scope);
    reveal_strlit(",");
    reveal_strlit("source=");
    reveal_strlit("target=");
    reveal_strlit("readonly");
    reveal_strlit(",source=");
    reveal_strlit(",target=");
    reveal_strlit(",readonly");
    assert(","@ + "source="@ =~= ",source="@);
    assert(","@ + "target="@ =~= ",target="@);
    assert(","@ + "readonly"@ =~= ",readonly"@);
    assert(joined(mount_parts(o, scope), ","@) =~= mount_text(kind, source, target, readonly));
    law_mount_texts_are_read(kind, source, target, readonly);
    if kind != "tmpfs"@ {
        assert(object_volume(o, scope)->0 =~= short_syntax(source, target, readonly));
    }
}

// ---------------------------------------------------------------------------------------------
// What the override file holds

proof fn lemma_occurs(a: Seq<char>, b: Seq<char>, c: Seq<char>, pat: Seq<char>)
    requires
        occurs(b, pat),
    ensures
        occurs(a + b + c, pat),
{
    let i = choose|i: int| stands_at(b, pat, i);
    let s = a + b + c;
    assert(s.subrange(a.len() + i, a.len() + i + pat.len()) =~= b.subrange(i, i + pat.len()));
    assert(stands_at(s, pat, a.len() + i));
}

proof fn lemma_occurs_itself(s: Seq<char>)
    ensures
        occurs(s, s),
{
    assert(s.subrange(0, s.len() as int) =~= s);
    assert(stands_at(s, s, 0));
}

proof fn lemma_line_occurs(lines: Seq<Seq<char>>, i: int)
    requires
        0 <= i < lines.len(),
    ensures
        occurs(concatenated(lines), lines[i]),
        begins_with(concatenated(lines), lines[0]),
    decreases lines.len(),
{
    let before = concatenated(lines.drop_last());
    let none = Seq::<char>::empty();
    let all = concatenated(lines);
    if lines.len() > 1 {
        let j = if i < lines.len() - 1 {
            i
        } else {
            0
        };
        lemma_line_occurs(lines.drop_last(), j);
        assert(lines.drop_last()[0] == lines[0]);
        assert(all.subrange(0, lines[0].len() as int) =~= before.subrange(
            0,
            lines[0].len() as int,
        ));
    } else {
        assert(before =~= none);
        assert(all =~= lines[0]);
        assert(all.subrange(0, lines[0].len() as int) =~= lines[0]);
    }
    if i < lines.len() - 1 {
        assert(lines.drop_last()[i] == lines[i]);
        lemma_occurs(none, before, lines.last(), lines[i]);
        assert(none + before + lines.last() =~= all);
    } else {
        lemma_occurs_itself(lines.last());
        lemma_occurs(before, lines.last(), none, lines.last());
        assert(before + lines.last() + none =~= all);
    }
}

/// A line of a section stands in it, and the first one right behind the title.
proof fn lemma_section(title: Seq<char>, lines: Seq<Seq<char>>, i: int)
    requires
        0 <= i < lines.len(),
    ensures
        occurs(section(title, lines), lines[i]),
        occurs(section(title, lines), title + lines[0]),
{
    let none = Seq::<char>::empty();
    lemma_line_occurs(lines, i);
    let body = concatenated(lines);
    lemma_occurs(title, body, none, lines[i]);
    assert(title + body + none =~= title + body);
    let all = section(title, lines);
    let first = title + lines[0];
    assert(all.subrange(0, first.len() as int) =~= first) by {
        assert(body.subrange(0, lines[0].len() as int) == lines[0]);
        assert forall|k: int| 0 <= k < first.len() implies all[k] == first[k] by {
            if k >= title.len() {
                assert(body.subrange(0, lines[0].len() as int)[k - title.len()] == body[k
                    - title.len()]);
            }
        }
    }
    assert(stands_at(all, first, 0));
}

/// The override file is for the service, and there is none if and only if nothing is to be said. Every
/// variable, every published port and every volume has its line in it, the first ones right behind the
/// titles of their sections, and every right that the configuration gives.
pub proof fn law_override_text(
    c: DevContainerConfig,
    service: Seq<char>,
    env: Seq<(Seq<char>, Seq<char>)>,
    ports: Seq<Seq<char>>,
    volumes: Seq<Seq<char>>,
)
    ensures
        ({
            let res = override_yaml(service, rights_yaml(c), env, ports, volumes);
            let text = res->0;
            &&& res is None <==> c.init != Some(true) && c.privileged != Some(true)
                && c.cap_add@.len() == 0 && c.security_opt@.len() == 0 && env.len() == 0
                && ports.len() == 0 && volumes.len() == 0
            &&& res is Some ==> {
                &&& begins_with(text, "services:\n"@ + "  "@ + yaml_key(service) + ":\n"@)
                &&& forall|i: int|
                    0 <= i < env.len() ==> occurs(
                        text,
                        "      "@ + yaml_key((#[trigger] env[i]).0) + ": \""@ + yaml_escaped(
                            env[i].1,
                        ) + "\"\n"@,
                    )
                &&& forall|i: int|
                    0 <= i < ports.len() ==> occurs(text, "      - "@ + #[trigger] ports[i] + "\n"@)
                &&& forall|i: int|
                    0 <= i < volumes.len() ==> occurs(
                        text,
                        "      - \""@ + yaml_escaped(#[trigger] volumes[i]) + "\"\n"@,
                    )
                &&& ports.len() > 0 ==> occurs(
                    text,
                    "    ports:\n"@ + ("      - "@ + ports[0] + "\n"@),
                )
                &&& volumes.len() > 0 ==> occurs(
                    text,
                    "    volumes:\n"@ + ("      - \""@ + yaml_escaped(volumes[0]) + "\"\n"@),
                )
                &&& env.len() == 1 ==> occurs(
                    text,
                    "    environment:\n"@ + ("      "@ + yaml_key(env[0].0) + ": \""@
                        + yaml_escaped(env[0].1) + "\"\n"@),
                )
                &&& c.init == Some(true) ==> occurs(text, "    init: true\n"@)
                &&& c.privileged == Some(true) ==> occurs(text, "    privileged: true\n"@)
                &&& forall|i: int|
                    0 <= i < c.cap_add@.len() ==> occurs(
                        text,
                        "      - \""@ + yaml_escaped((#[trigger] c.cap_add@[i])@) + "\"\n"@,
                    )
                &&& c.cap_add@.len() > 0 ==> occurs(
                    text,
                    "    cap_add:\n"@ + ("      - \""@ + yaml_escaped(c.cap_add@[0]@) + "\"\n"@),
                )
                &&& forall|i: int|
                    0 <= i < c.security_opt@.len() ==> occurs(
                        text,
                        "      - \""@ + yaml_escaped((#[trigger] c.security_opt@[i])@) + "\"\n"@,
                    )
                &&& c.security_opt@.len() > 0 ==> occurs(
                    text,
                    "    security_opt:\n"@ + ("      - \""@ + yaml_escaped(c.security_opt@[0]@)
                        + "\"\n"@),
                )
            }
        }),
{
    lemma_no_rights(c);
    let rights = rights_yaml(c);
    let res = override_yaml(service, rights, env, ports, volumes);
    if res is Some {
        let text = res->0;
        let head = "services:\n"@ + "  "@ + yaml_key(service) + ":\n"@;
        let e = section("    environment:\n"@, env_section_lines(env));
        let p = section("    ports:\n"@, port_lines(ports));
        let v = section("    volumes:\n"@, quoted_lines(volumes));
        let none = Seq::<char>::empty();
        assert(text == head + rights + e + p + v);
        assert(text.subrange(0, head.len() as int) =~= head);
        lemma_env_section(env);
        assert forall|x: Seq<char>| #[trigger] occurs(rights, x) implies occurs(text, x) by {
            lemma_occurs(head, rights, e + p + v, x);
            assert(head + rights + (e + p + v) =~= text);
        }
        assert forall|x: Seq<char>| #[trigger] occurs(e, x) implies occurs(text, x) by {
            lemma_occurs(head + rights, e, p + v, x);
            assert(head + rights + e + (p + v) =~= text);
        }
        assert forall|x: Seq<char>| #[trigger] occurs(p, x) implies occurs(text, x) by {
            lemma_occurs(head + rights + e, p, v, x);
        }
        assert forall|x: Seq<char>| #[trigger] occurs(v, x) implies occurs(text, x) by {
            lemma_occurs(head + rights + e + p, v, none, x);
            assert(head + rights + e + p + v + none =~= text);
        }
        assert forall|i: int| 0 <= i < env.len() implies occurs(
            text,
            "      "@ + yaml_key((#[trigger] env[i]).0) + ": \""@ + yaml_escaped(env[i].1) + "\"\n"@,
        ) by {
            assert(occurs(e, env_line(env[i].0, env[i].1)));
        }
        assert forall|i: int| 0 <= i < ports.len() implies occurs(
            text,
            "      - "@ + #[trigger] ports[i] + "\n"@,
        ) by {
            lemma_section("    ports:\n"@, port_lines(ports), i);
        }
        if ports.len() > 0 {
            lemma_section("    ports:\n"@, port_lines(ports), 0);
        }
        assert forall|i: int| 0 <= i < volumes.len() implies occurs(
            text,
            "      - \""@ + yaml_escaped(#[trigger] volumes[i]) + "\"\n"@,
        ) by {
            lemma_section("    volumes:\n"@, quoted_lines(volumes), i);
        }
        if volumes.len() > 0 {
            lemma_section("    volumes:\n"@, quoted_lines(volumes), 0);
        }
        lemma_rights_occur(c);
    }
}

proof fn lemma_env_section(env: Seq<(Seq<char>, Seq<char>)>)
    ensures
        forall|i: int|
            0 <= i < env.len() ==> occurs(
                section("    environment:\n"@, env_section_lines(env)),
                #[trigger] env_line(env[i].0, env[i].1),
            ),
        env.len() == 1 ==> occurs(
            section("    environment:\n"@, env_section_lines(env)),
            "    environment:\n"@ + env_line(env[0].0, env[0].1),
        ),
{
    let order = sorting_order(keys_of(env));
    let lines = env_section_lines(env);
    law_sorting_is_stable(keys_of(env));
    assert forall|i: int| 0 <= i < env.len() implies occurs(
        section("    environment:\n"@, lines),
        #[trigger] env_line(env[i].0, env[i].1),
    ) by {
        let k = lemma_sorted_place(keys_of(env), i);
        lemma_section("    environment:\n"@, lines, k);
    }
    if env.len() == 1 {
        let k = lemma_sorted_place(keys_of(env), 0);
        lemma_section("    environment:\n"@, lines, 0);
    }
}

proof fn lemma_no_rights(c: DevContainerConfig)
    ensures
        rights_yaml(c).len() == 0 <==> c.init != Some(true) && c.privileged != Some(true)
            && c.cap_add@.len() == 0 && c.security_opt@.len() == 0,
{
    reveal_strlit("    init: true\n");
    reveal_strlit("    privileged: true\n");
    reveal_strlit("    cap_add:\n");
    reveal_strlit("    security_opt:\n");
    assert("    init: true\n"@.len() > 0 && "    privileged: true\n"@.len() > 0);
    assert("    cap_add:\n"@.len() > 0 && "    security_opt:\n"@.len() > 0);
}

proof fn lemma_rights_occur(c: DevContainerConfig)
    ensures
        ({
            let text = rights_yaml(c);
            &&& c.init == Some(true) ==> occurs(text, "    init: true\n"@)
            &&& c.privileged == Some(true) ==> occurs(text, "    privileged: true\n"@)
            &&& forall|i: int|
                0 <= i < c.cap_add@.len() ==> occurs(
                    text,
                    "      - \""@ + yaml_escaped((#[trigger] c.cap_add@[i])@) + "\"\n"@,
                )
            &&& c.cap_add@.len() > 0 ==> occurs(
                text,
                "    cap_add:\n"@ + ("      - \""@ + yaml_escaped(c.cap_add@[0]@) + "\"\n"@),
            )
            &&& forall|i: int|
                0 <= i < c.security_opt@.len() ==> occurs(
                    text,
                    "      - \""@ + yaml_escaped((#[trigger] c.security_opt@[i])@) + "\"\n"@,
                )
            &&& c.security_opt@.len() > 0 ==> occurs(
                text,
                "    security_opt:\n"@ + ("      - \""@ + yaml_escaped(c.security_opt@[0]@)
                    + "\"\n"@),
            )
        }),
{
    let text = rights_yaml(c);
    let none = Seq::<char>::empty();
    let a = switched_on(c.init, "    init: true\n"@);
    let b = switched_on(c.privileged, "    privileged: true\n"@);
    let p = section("    cap_add:\n"@, quoted_lines(texts(c.cap_add@)));
    let q = section("    security_opt:\n"@, quoted_lines(texts(c.security_opt@)));
    assert(text == a + b + p + q);
    if c.init == Some(true) {
        lemma_occurs_itself(a);
        lemma_occurs(none, a, b + p + q, a);
        assert(none + a + (b + p + q) =~= text);
    }
    if c.privileged == Some(true) {
        lemma_occurs_itself(b);
        lemma_occurs(a, b, p + q, b);
        assert(a + b + (p + q) =~= text);
    }
    assert forall|x: Seq<char>| #[trigger] occurs(p, x) implies occurs(text, x) by {
        lemma_occurs(a + b, p, q, x);
    }
    assert forall|x: Seq<char>| #[trigger] occurs(q, x) implies occurs(text, x) by {
        lemma_occurs(a + b + p, q, none, x);
        assert(a + b + p + q + none =~= text);
    }
    let caps = quoted_lines(texts(c.cap_add@));
    let opts = quoted_lines(texts(c.security_opt@));
    assert forall|i: int| 0 <= i < c.cap_add@.len() implies occurs(
        text,
        "      - \""@ + yaml_escaped((#[trigger] c.cap_add@[i])@) + "\"\n"@,
    ) by {
        lemma_section("    cap_add:\n"@, caps, i);
    }
    if c.cap_add@.len() > 0 {
        lemma_section("    cap_add:\n"@, caps, 0);
    }
    assert forall|i: int| 0 <= i < c.security_opt@.len() implies occurs(
        text,
        "      - \""@ + yaml_escaped((#[trigger] c.security_opt@[i])@) + "\"\n"@,
    ) by {
        lemma_section("    security_opt:\n"@, opts, i);
    }
    if c.security_opt@.len() > 0 {
        lemma_section("    security_opt:\n"@, opts, 0);
    }
}

// ---------------------------------------------------------------------------------------------
// What the command lines hold

/// Every compose command line names the project and then its files in their order, the override file
/// as the last one where there is one, and nothing else.
pub proof fn law_compose_base(
    project: Seq<char>,
    paths: Seq<Seq<char>>,
    override_path: Option<Seq<char>>,
)
    ensures
        ({
            let args = base_plan(project, paths, override_path).args;
            &&& args.len() == 3 + 2 * paths.len() + (if override_path is Some {
                2int
            } else {
                0int
            })
            &&& args[0] == "compose"@
            &&& pair_at(args, "--project-name"@, project, 1)
            &&& forall|i: int|
                0 <= i < paths.len() ==> pair_at(args, "-f"@, #[trigger] paths[i], 3 + 2 * i)
            &&& override_path matches Some(p) ==> pair_at(args, "-f"@, p, args.len() - 2)
        }),
{
    let start = nothing().and(word("compose"@)).and(option("--project-name"@, project));
    let files = file_flags(paths);
    let args = base_plan(project, paths, override_path).args;
    assert(start.args =~= seq!["compose"@, "--project-name"@, project]);
    lemma_file_flags(paths);
    assert(args =~= start.args + files.args + opt_flag("-f"@, override_path).args);
    assert forall|i: int| 0 <= i < paths.len() implies pair_at(
        args,
        "-f"@,
        #[trigger] paths[i],
        3 + 2 * i,
    ) by {
        assert(pair_at(files.args, "-f"@, paths[i], 2 * i));
    }
}

proof fn lemma_file_flags(paths: Seq<Seq<char>>)
    ensures
        file_flags(paths).args.len() == 2 * paths.len(),
        forall|i: int|
            0 <= i < paths.len() ==> pair_at(
                file_flags(paths).args,
                "-f"@,
                #[trigger] paths[i],
                2 * i,
            ),
    decreases paths.len(),
{
    if paths.len() > 0 {
        let before = file_flags(paths.drop_last()).args;
        let all = file_flags(paths).args;
        lemma_file_flags(paths.drop_last());
        assert(all =~= before + seq!["-f"@, paths.last()]);
        assert forall|i: int| 0 <= i < paths.len() implies pair_at(
            all,
            "-f"@,
            #[trigger] paths[i],
            2 * i,
        ) by {
            if i < paths.len() - 1 {
                assert(paths.drop_last()[i] == paths[i]);
                assert(pair_at(before, "-f"@, paths.drop_last()[i], 2 * i));
            }
        }
    }
}

/// `docker compose up` starts exactly the services that are to be started, in the background and behind
/// everything else. Containers are created anew, and images are left alone, if and only if that is
/// asked for.
pub proof fn law_compose_up(c: DevContainerConfig, remove_existing: bool, no_build: bool)
    ensures
        ({
            let args = up_plan(c, remove_existing, no_build).args;
            let plain = up_plan(c, false, false).args;
            &&& plain == seq!["up"@, "-d"@] + started_services(c)
            &&& up_plan(c, true, false).args == plain.insert(2, "--force-recreate"@)
            &&& up_plan(c, false, true).args == plain.insert(2, "--no-build"@)
            &&& up_plan(c, true, true).args == plain.insert(2, "--no-build"@).insert(
                2,
                "--force-recreate"@,
            )
            &&& args.skip(args.len() - started_services(c).len()) == started_services(c)
        }),
{
    let v = started_services(c);
    let a = "--force-recreate"@;
    let b = "--no-build"@;
    let start = seq!["up"@, "-d"@];
    let plain = up_plan(c, false, false).args;
    assert(plain =~= start + v);
    assert(up_plan(c, true, false).args =~= start + seq![a] + v);
    assert(up_plan(c, false, true).args =~= start + seq![b] + v);
    assert(up_plan(c, true, true).args =~= start + seq![a, b] + v);
    assert(start + seq![a] + v =~= plain.insert(2, a));
    assert(start + seq![b] + v =~= plain.insert(2, b));
    assert(start + seq![a, b] + v =~= plain.insert(2, b).insert(2, a));
    let args = up_plan(c, remove_existing, no_build).args;
    assert(args.skip(args.len() - v.len()) =~= v);
}

/// What is run to shut a project down, from what the configuration says: nothing, a stop of all
/// services or of the primary one, or the removal of everything, which is what happens where it says
/// nothing or something else.
pub proof fn law_compose_shutdown(c: DevContainerConfig, service: Seq<char>)
    ensures
        ({
            let args = down_plan(compose_down_of(c), Some(service)).args;
            let said = opt_text(c.shutdown_action);
            let none = Seq::<Seq<char>>::empty();
            &&& said == Some("none"@) ==> args == none
            &&& said == Some("stopCompose"@) ==> args == seq!["stop"@]
            &&& said == Some("stopContainer"@) ==> args == seq!["stop"@, service]
            &&& said is None ==> args == seq!["down"@, "--remove-orphans"@]
            &&& said is Some && said != Some("none"@) && said != Some("stopCompose"@) && said
                != Some("stopContainer"@) ==> args == seq!["down"@, "--remove-orphans"@]
        }),
{
    reveal_strlit("remove");
    reveal_strlit("none");
    reveal_strlit("stopCompose");
    reveal_strlit("stopContainer");
    assert("remove"@.len() == 6 && "none"@.len() == 4 && "stopCompose"@.len() == 11
        && "stopContainer"@.len() == 13);
    let args = down_plan(compose_down_of(c), Some(service)).args;
    match compose_down_of(c) {
        ComposeDown::Keep => {
            assert(args =~= Seq::empty());
        },
        ComposeDown::Stop => {
            assert(args =~= seq!["stop"@]);
        },
        ComposeDown::StopPrimary => {
            assert(args =~= seq!["stop"@, service]);
        },
        ComposeDown::Remove => {
            assert(args =~= seq!["down"@, "--remove-orphans"@]);
        },
    }
}

/// `docker compose exec` runs the command, word for word and behind everything else, in the service: as
/// the given user, in the given directory, with the given variables, and without a terminal if and only
/// if none is wanted.
pub proof fn law_compose_exec(
    c: DevContainerConfig,
    scope: Scope,
    tty: bool,
    user: Option<Seq<char>>,
    workdir: Option<Seq<char>>,
    env: Option<Seq<(Seq<char>, Seq<char>)>>,
    service: Seq<char>,
    command: Seq<Seq<char>>,
)
    ensures
        ({
            let args = compose_exec_plan(
                c,
                scope,
                tty,
                user,
                workdir,
                env,
                service,
                command,
            ).args;
            let with_tty = compose_exec_plan(
                c,
                scope,
                true,
                user,
                workdir,
                env,
                service,
                command,
            ).args;
            let k = args.len() - command.len();
            let front = args.take(k - 1);
            let values = container_values(c.container_env@, c.container_env@, scope);
            &&& k >= 2
            &&& args.skip(k) == command
            &&& args[k - 1] == service
            &&& args[0] == "exec"@
            &&& !tty ==> args == with_tty.insert(k - 2, "-T"@)
            &&& user matches Some(u) ==> pair_at(args, "--user"@, u, 1)
            &&& workdir matches Some(w) ==> has_pair(front, "-w"@, w)
            &&& env matches Some(m) ==> forall|i: int|
                0 <= i < m.len() ==> has_pair(
                    front,
                    "-e"@,
                    (#[trigger] m[i]).0 + "="@ + expanded(
                        exec_value(m[i].1, Some(values)),
                        *scope.workspace,
                        scope.target@,
                        scope.host@,
                    ),
                )
            &&& with_tty.len() == 2 + command.len() + (if user is Some {
                2int
            } else {
                0int
            }) + (if workdir is Some {
                2int
            } else {
                0int
            }) + (match env {
                Some(m) => 2 * m.len() as int,
                None => 0int,
            })
        }),
{
    broadcast use group_plans;

    let args = compose_exec_plan(c, scope, tty, user, workdir, env, service, command).args;
    let with_tty = compose_exec_plan(c, scope, true, user, workdir, env, service, command).args;
    let values = container_values(c.container_env@, c.container_env@, scope);
    let start = nothing().and(word("exec"@)).and(opt_flag("--user"@, user));
    let variables = if env is Some {
        told(container_values_notes(c.container_env@, c.container_env@, scope)).and(
            exec_env_plan(env, Some(values), scope),
        )
    } else {
        nothing()
    };
    let front = start.and(opt_flag("-w"@, workdir)).and(variables);
    assert(with_tty =~= front.args.push(service) + command);
    assert(args =~= (if tty {
        front.args
    } else {
        front.args.push("-T"@)
    }).push(service) + command);
    let k = args.len() - command.len();
    assert(args.skip(k) =~= command);
    if tty {
        assert(args.take(k - 1) =~= front.args);
    } else {
        assert(args.take(k - 1) =~= front.args.push("-T"@));
        assert(args.take(k - 1) =~= front.and(word("-T"@)).args);
        assert(args =~= with_tty.insert(k - 2, "-T"@));
    }
    if let Some(u) = user {
        assert(pair_at(start.args, "--user"@, u, 1));
    }
    if let Some(m) = env {
        let f = |e: (Seq<char>, Seq<char>)|
            expanded_pair(scope, "-e"@, e.0, exec_value(e.1, Some(values)));
        lemma_each_len(m, f, 2);
        assert forall|i: int| 0 <= i < m.len() implies has_pair(
            front.args,
            "-e"@,
            (#[trigger] m[i]).0 + "="@ + expanded(
                exec_value(m[i].1, Some(values)),
                *scope.workspace,
                scope.target@,
                scope.host@,
            ),
        ) by {
            let v = m[i].0 + "="@ + expanded(
                exec_value(m[i].1, Some(values)),
                *scope.workspace,
                scope.target@,
                scope.host@,
            );
            assert(pair_at(f(m[i]).args, "-e"@, v, 0));
            lemma_each_pair(m, f, i, "-e"@, v);
        }
    }
}

/// The remaining command lines: a build uses the cache unless it is not to, and the logs are those of
/// the service, as many lines as asked for, and followed where that is asked for.
pub proof fn law_compose_build_and_logs(tail: Seq<char>, service: Seq<char>)
    ensures
        compose_build_plan(false).args == seq!["build"@],
        compose_build_plan(true).args == seq!["build"@, "--no-cache"@],
        compose_logs_plan(false, None, None).args == seq!["logs"@],
        compose_logs_plan(true, None, Some(service)).args == seq!["logs"@, "-f"@, service],
        compose_logs_plan(false, Some(tail), Some(service)).args == seq![
            "logs"@,
            "--tail"@,
            tail,
            service,
        ],
        compose_logs_plan(true, Some(tail), Some(service)).args == seq![
            "logs"@,
            "-f"@,
            "--tail"@,
            tail,
            service,
        ],
        compose_logs_plan(false, None, Some(service)).args == seq!["logs"@, service],
{
    assert(compose_build_plan(false).args =~= seq!["build"@]);
    assert(compose_build_plan(true).args =~= seq!["build"@, "--no-cache"@]);
    assert(compose_logs_plan(false, None, None).args =~= seq!["logs"@]);
    assert(compose_logs_plan(true, None, Some(service)).args =~= seq!["logs"@, "-f"@, service]);
    assert(compose_logs_plan(false, Some(tail), Some(service)).args =~= seq![
        "logs"@,
        "--tail"@,
        tail,
        service,
    ]);
    assert(compose_logs_plan(true, Some(tail), Some(service)).args =~= seq![
        "logs"@,
        "-f"@,
        "--tail"@,
        tail,
        service,
    ]);
    assert(compose_logs_plan(false, None, Some(service)).args =~= seq!["logs"@, service]);
}

/// The container of a service is looked for among all containers, stopped ones too, by the labels of
/// its project and of the service, and not among those of single commands; identifiers come in full.
pub proof fn law_service_listing(project: Seq<char>, service: Seq<char>)
    ensures
        ({
            let args = service_listing(project, service);
            &&& args[0] == "ps"@ && args.contains("-a"@) && args.contains("-q"@)
            &&& args.contains("--no-trunc"@)
            &&& has_pair(args, "--filter"@, "label=com.docker.compose.project="@ + project)
            &&& has_pair(args, "--filter"@, "label=com.docker.compose.service="@ + service)
            &&& has_pair(args, "--filter"@, "label=com.docker.compose.oneoff=False"@)
            &&& args.len() == 10
        }),
{
    let args = service_listing(project, service);
    assert(args[1] == "-a"@ && args[2] == "-q"@ && args[3] == "--no-trunc"@);
    assert(pair_at(args, "--filter"@, "label=com.docker.compose.project="@ + project, 4));
    assert(pair_at(args, "--filter"@, "label=com.docker.compose.service="@ + service, 6));
    assert(pair_at(args, "--filter"@, "label=com.docker.compose.oneoff=False"@, 8));
}

/// What Docker answers about the container of a service: its identifier stands on the first line, its
/// name behind a slash, and it runs where the answer is `true`.
pub proof fn law_service_answers(id: Seq<char>, name: Seq<char>, rest: Seq<char>, stdout: Seq<char>)
    requires
        id.len() > 0 && !is_white_space(id[0]) && !is_white_space(id.last()),
        !id.contains('\n'),
        name.len() > 0 && name[0] != '/' && !is_white_space(name.last()),
    ensures
        first_line(id + seq!['\n'] + rest) == id,
        first_line(Seq::empty()).len() == 0,
        service_name(id, true, seq!['/'] + name + seq!['\n']) == name,
        service_name(id, true, seq!['\n']) == id,
        service_name(id, false, stdout) == id,
        service_state(true, true, "true"@ + seq!['\n']) == (true, true),
        service_state(true, true, "false"@ + seq!['\n']) == (true, false),
        service_state(true, false, stdout) == (true, false),
        service_state(false, true, stdout) == (false, false),
{
    let none = Seq::<char>::empty();
    let end = seq!['\n'];
    assert(all_white(end));
    law_lines(id, rest);
    law_lines(none, none);
    law_trimmed(none, id, none);
    assert(none + id + none =~= id);
    assert(is_white_space('\r'));
    let slashed = seq!['/'] + name;
    law_trimmed(none, slashed, end);
    assert(none + slashed + end =~= seq!['/'] + name + end);
    assert(slashed.skip(1) =~= name);
    assert(without_slashes(slashed) == without_slashes(name));
    law_trimmed(none, none, end);
    assert(none + none + end =~= end);
    reveal_strlit("true");
    reveal_strlit("false");
    law_trimmed(none, "true"@, end);
    assert(none + "true"@ + end =~= "true"@ + end);
    law_trimmed(none, "false"@, end);
    assert(none + "false"@ + end =~= "false"@ + end);
    assert("true"@.len() == 4 && "false"@.len() == 5);
}

/// The compose files are those of the configuration, each expanded, in their order.
pub proof fn law_compose_files(s: String, v: Vec<String>, scope: Scope, i: int)
    ensures
        expanded_all(compose_files(ComposeFileValue::Single(s)), scope) == seq![
            expanded(s@, *scope.workspace, scope.target@, scope.host@),
        ],
        expanded_all(compose_files(ComposeFileValue::Multiple(v)), scope).len() == v@.len(),
        0 <= i < v@.len() ==> expanded_all(compose_files(ComposeFileValue::Multiple(v)), scope)[i]
            == expanded(v@[i]@, *scope.workspace, scope.target@, scope.host@),
{
    assert(expanded_all(compose_files(ComposeFileValue::Single(s)), scope) =~= seq![
        expanded(s@, *scope.workspace, scope.target@, scope.host@),
    ]);
}

/// A port is passed over in silence if and only if it is published; a source that is bound from a
/// relative path is warned about, and so is a volume, a service or a secret that is there already.
pub proof fn law_override_notes(
    c: DevContainerConfig,
    forward: bool,
    spec: Seq<char>,
    v: Seq<Seq<char>>,
    m: MountValue,
    scope: Scope,
    env: Seq<(Seq<char>, Seq<char>)>,
    secret: (Seq<char>, Seq<char>),
    services: Seq<Seq<char>>,
    service: Seq<char>,
)
    ensures
        port_notes(c, forward, spec).len() == 0 <==> !attribute_is(
            c,
            spec,
            "onAutoForward"@,
            "ignore"@,
        ) && published_for(c, spec) is Some,
        repeated_volume_notes(v, m, scope).len() == 0 <==> (volume_of(m, scope) matches Some(vol)
            ==> !v.contains(vol)),
        conflict_notes(env, seq![secret]).len() == 0 <==> !has_key(env, secret.0),
        repeated_service_notes(services.push(service)).len() == repeated_service_notes(
            services,
        ).len() + (if services.contains(service) {
            1int
        } else {
            0int
        }),
{
    let one = seq![secret];
    assert(one.drop_last() =~= Seq::empty());
    assert(conflict_notes(env, one.drop_last()) =~= Seq::empty());
    assert(inserted_all(env, one.drop_last()) == env);
    assert(services.push(service).drop_last() =~= services);
    lemma_unrepeated(services);
    assert(services.contains(service) <==> unrepeated(services).contains(service));
}

/// A relative source of a bind mount is warned about if and only if it begins neither with a slash nor
/// with a dot and a slash.
pub proof fn law_relative_sources(
    source: Seq<char>,
    target: Seq<char>,
    readonly: bool,
)
    requires
        mount_value(source),
        mount_value(target),
    ensures
        compose_volume_notes(mount_text("bind"@, source, target, readonly)).len() == 0
            <==> begins_with(source, "/"@) || begins_with(source, "./"@),
        compose_volume_notes(mount_text("volume"@, source, target, readonly)).len() == 0,
{
    lemma_differs();
    reveal_strlit("volume");
    reveal_strlit("tmpfs");
    reveal_strlit("bind");
    assert("volume"@.len() == 6 && "tmpfs"@.len() == 5 && "bind"@.len() == 4);
    assert("volume"@.last() == 'e');
    lemma_mount_read("bind"@, source, target, readonly);
    lemma_mount_read("volume"@, source, target, readonly);
}

/// The parts of a mount may go by their short names: `src` for the source, `dst` or `destination` for
/// the target and `ro` for a mount that is only read, with or without a value.
pub proof fn law_short_names(m: MountSpec, value: Seq<char>)
    requires
        mount_value(value),
    ensures
        mount_with(m, "src="@ + value) == (MountSpec { source: Some(value), ..m }),
        mount_with(m, "source="@ + value) == (MountSpec { source: Some(value), ..m }),
        mount_with(m, "dst="@ + value) == (MountSpec { target: Some(value), ..m }),
        mount_with(m, "destination="@ + value) == (MountSpec { target: Some(value), ..m }),
        mount_with(m, "target="@ + value) == (MountSpec { target: Some(value), ..m }),
        mount_with(m, "ro="@ + value) == (MountSpec {
            readonly: value == "true"@ || value == "1"@,
            ..m
        }),
        mount_with(m, "readonly="@ + value) == (MountSpec {
            readonly: value == "true"@ || value == "1"@,
            ..m
        }),
        mount_with(m, "ro"@) == (MountSpec { readonly: true, ..m }),
        mount_with(m, "readonly"@) == (MountSpec { readonly: true, ..m }),
{
    reveal_strlit("type");
    reveal_strlit("src");
    reveal_strlit("source");
    reveal_strlit("dst");
    reveal_strlit("destination");
    reveal_strlit("target");
    reveal_strlit("ro");
    reveal_strlit("readonly");
    reveal_strlit("src=");
    reveal_strlit("source=");
    reveal_strlit("dst=");
    reveal_strlit("destination=");
    reveal_strlit("target=");
    reveal_strlit("ro=");
    reveal_strlit("readonly=");
    let eq = seq!['='];
    assert("src="@ =~= "src"@ + eq && "source="@ =~= "source"@ + eq && "dst="@ =~= "dst"@ + eq);
    assert("destination="@ =~= "destination"@ + eq && "target="@ =~= "target"@ + eq);
    assert("ro="@ =~= "ro"@ + eq && "readonly="@ =~= "readonly"@ + eq);
    assert("type"@.len() == 4 && "src"@.len() == 3 && "source"@.len() == 6 && "dst"@.len() == 3);
    assert("destination"@.len() == 11 && "target"@.len() == 6 && "ro"@.len() == 2);
    assert("readonly"@.len() == 8);
    assert("src"@[0] == 's' && "dst"@[0] == 'd' && "source"@[0] == 's' && "target"@[0] == 't');
    lemma_mount_part("src"@, value);
    lemma_mount_part("source"@, value);
    lemma_mount_part("dst"@, value);
    lemma_mount_part("destination"@, value);
    lemma_mount_part("target"@, value);
    lemma_mount_part("ro"@, value);
    lemma_mount_part("readonly"@, value);
    let none = Seq::<char>::empty();
    law_trimmed(none, "ro"@, none);
    law_trimmed(none, "readonly"@, none);
    assert(none + "ro"@ + none =~= "ro"@);
    assert(none + "readonly"@ + none =~= "readonly"@);
    lemma_seek("ro"@, '=', 0);
    lemma_seek("readonly"@, '=', 0);
}

/// Whether a text from `i` on can stand in a quoted scalar of one line: no quote ends it, no line does,
/// and no dollar sign starts a reference.
pub open spec fn one_scalar(t: Seq<char>, i: int) -> bool
    decreases t.len() - i + 1,
{
    if i < 0 || i >= t.len() {
        true
    } else if t[i] == '\\' {
        i + 1 < t.len() && one_scalar(t, i + 2)
    } else if t[i] == '$' {
        i + 1 < t.len() && t[i + 1] == '$' && one_scalar(t, i + 2)
    } else {
        t[i] != '"' && t[i] != '\n' && t[i] != '\r' && t[i] != '\t' && one_scalar(t, i + 1)
    }
}

proof fn lemma_one_scalar_shift(a: Seq<char>, t: Seq<char>, i: int)
    requires
        0 <= i,
    ensures
        one_scalar(a + t, a.len() + i) == one_scalar(t, i),
    decreases t.len() - i + 1,
{
    if i < t.len() {
        let w = a + t;
        assert(w[a.len() + i] == t[i]);
        if i + 1 < t.len() {
            assert(w[a.len() + i + 1] == t[i + 1]);
            lemma_one_scalar_shift(a, t, i + 2);
        }
        lemma_one_scalar_shift(a, t, i + 1);
    }
}

/// A value written to the override file stays one scalar on one line, whatever it holds.
pub proof fn law_yaml_values_stay_one(s: Seq<char>)
    ensures
        one_scalar(yaml_escaped(s), 0),
    decreases s.len(),
{
    if s.len() > 0 {
        let c = s[0];
        let rest = yaml_escaped(s.skip(1));
        lemma_escaped_front(s);
        law_yaml_values_stay_one(s.skip(1));
        lemma_one_scalar_shift(yaml_char(c), rest, 0);
        let t = yaml_char(c) + rest;
        assert(t[0] == yaml_char(c)[0]);
        if yaml_char(c).len() == 2 {
            assert(t[1] == yaml_char(c)[1]);
        }
    }
}

/// A key of letters, digits, underscores and hyphens stands as it is, and any other one in quotes,
/// between which it is read back as it was.
pub proof fn law_yaml_keys(s: Seq<char>, c: char)
    ensures
        yaml_key(s) == s || (yaml_key(s).len() >= 2 && yaml_key(s)[0] == '"' && yaml_key(s).last()
            == '"' && yaml_read(yaml_key(s).subrange(1, yaml_key(s).len() - 1), 0) == s && one_scalar(
            yaml_key(s).subrange(1, yaml_key(s).len() - 1),
            0,
        )),
        s.len() == 0 ==> yaml_key(s) != s,
        s.contains(c) && !is_alnum(c) && c != '_' && c != '-' ==> yaml_key(s) != s,
        (forall|i: int| 0 <= i < s.len() ==> is_alnum(#[trigger] s[i]) || s[i] == '_' || s[i] == '-')
            && s.len() > 0 ==> yaml_key(s) == s,
{
    reveal_strlit("\"");
    let t = yaml_escaped(s);
    let k = "\""@ + t + "\""@;
    law_yaml_values_read_back(s);
    law_yaml_values_stay_one(s);
    assert(k.subrange(1, k.len() - 1) =~= t);
    lemma_escaped_len(s);
    assert(k.len() > s.len());
    if s.contains(c) {
        let i = choose|i: int| 0 <= i < s.len() && s[i] == c;
        assert(s[i] == c);
    }
}

proof fn lemma_escaped_len(s: Seq<char>)
    ensures
        yaml_escaped(s).len() >= s.len(),
    decreases s.len(),
{
    if s.len() > 0 {
        lemma_escaped_len(s.drop_last());
    }
}

/// Compose can be used if and only if it answers, and the container of a service is found if and only
/// if the service is named and the first line of the answer is not blank.
pub proof fn law_compose_answers(answered: bool, service: Option<Seq<char>>, stdout: Seq<char>)
    ensures
        compose_error(answered) is None <==> answered,
        service_container_error(service, stdout) is None <==> service is Some && first_line(
            stdout,
        ).len() > 0,
        service is None ==> service_container_error(service, stdout) == Some(
            ErrorView::Config("No service specified"@),
        ),
{
}

/// The override file is named after its project.
pub proof fn law_override_names(project: Seq<char>)
    ensures
        override_name(project) == project + "-override.yml"@,
{
}

} // verus!
