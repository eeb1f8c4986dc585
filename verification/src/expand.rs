//! Expansion of `${...}` references in configuration values.

use vstd::prelude::*;
use vstd::string::*;

use crate::maps::{lookup, EnvMap};
use crate::notes::{no_notes, NoteView, Notes};
use crate::numbers::{fnv1a, hash_text, hex, hex_text, lemma_hex_len};
use crate::text::{
    begins_with, chars_of, contains, cut_once, lemma_seek_is, lemma_seek_none, lemma_seek_pat,
    occurs, opt_str, pieces, replace, replaced, replaced_from, same_text, seek, seek_char,
    seek_match, seek_pat, split, split_once, stands_at, strip_prefix, text_of,
};
use vstd::utf8::encode_utf8;

verus! {

/// The workspace on the host: its path, and the last component of the path where there is one.
#[derive(Debug, Clone, PartialEq, Eq)]
pub struct Workspace {
    pub folder: String,
    pub basename: Option<String>,
}

impl Workspace {
    /// The name of the workspace folder, or nothing for a root.
    pub open spec fn base(&self) -> Seq<char> {
        match self.basename {
            Some(s) => s@,
            None => Seq::empty(),
        }
    }
}

// ---------------------------------------------------------------------------------------------
// References to environment variables

/// The name and the default value of the reference `name[:default]`.
pub open spec fn name_and_default(rest: Seq<char>) -> (Seq<char>, Seq<char>) {
    match cut_once(rest, ':') {
        Some(p) => p,
        None => (rest, Seq::empty()),
    }
}

/// What the reference `name[:default]` stands for.
pub open spec fn env_value(rest: Seq<char>, host: Seq<(Seq<char>, Seq<char>)>) -> Seq<char> {
    let (name, default) = name_and_default(rest);
    match lookup(host, name) {
        Some(v) => v,
        None => default,
    }
}

/// Whether a `${` stands at position `i`.
pub open spec fn opens(s: Seq<char>, i: int) -> bool {
    0 <= i && i + 1 < s.len() && s[i] == '$' && s[i + 1] == '{'
}

/// Whether the reference that opens at `i` is closed and its content begins with `tag`.
pub open spec fn refers(s: Seq<char>, tag: Seq<char>, i: int) -> bool {
    let end = seek(s, '}', i + 2);
    end < s.len() && begins_with(s.subrange(i + 2, end), tag)
}

/// What follows `tag` in the reference that opens at `i`.
pub open spec fn reference(s: Seq<char>, tag: Seq<char>, i: int) -> Seq<char> {
    s.subrange(i + 2, seek(s, '}', i + 2)).skip(tag.len() as int)
}

/// The end of the reference that opens at `i`.
pub open spec fn reference_end(s: Seq<char>, i: int) -> int {
    let end = seek(s, '}', i + 2);
    if end < s.len() {
        end + 1
    } else {
        s.len() as int
    }
}

/// The text from position `i` on, with the references `${tag...}` replaced by their values.
pub open spec fn env_expanded(
    s: Seq<char>,
    tag: Seq<char>,
    host: Seq<(Seq<char>, Seq<char>)>,
    i: int,
) -> Seq<char>
    decreases s.len() - i,
{
    if i < 0 || i >= s.len() {
        Seq::empty()
    } else if opens(s, i) && reference_end(s, i) > i {
        (if refers(s, tag, i) {
            env_value(reference(s, tag, i), host)
        } else {
            s.subrange(i, reference_end(s, i))
        }) + env_expanded(s, tag, host, reference_end(s, i))
    } else {
        seq![s[i]] + env_expanded(s, tag, host, i + 1)
    }
}

/// One warning for each reference `${tag...}` from position `i` on that names no variable.
pub open spec fn env_notes(s: Seq<char>, prefix: Seq<char>, i: int) -> Seq<NoteView>
    decreases s.len() - i,
{
    let tag = prefix + ":"@;
    if i < 0 || i >= s.len() {
        Seq::empty()
    } else if opens(s, i) && reference_end(s, i) > i {
        (if refers(s, tag, i) && name_and_default(reference(s, tag, i)).0.len() == 0 {
            seq![NoteView::Warning(empty_name_warning(prefix))]
        } else {
            Seq::empty()
        }) + env_notes(s, prefix, reference_end(s, i))
    } else {
        env_notes(s, prefix, i + 1)
    }
}

pub open spec fn empty_name_warning(prefix: Seq<char>) -> Seq<char> {
    "Warning: '${"@ + prefix + ":}' has an empty variable name, resolved to empty"@
}

/// Expands `${PREFIX:VAR[:default]}` references from the host environment. Other references and
/// unterminated ones are left as they are.
pub fn expand_env_vars(input: &str, prefix: &str, host: &EnvMap, notes: &mut Notes) -> (res: String)
    ensures
        res@ == env_expanded(input@, prefix@ + ":"@, host@, 0),
        final(notes)@ == old(notes)@ + env_notes(input@, prefix@, 0),
{
    let v = chars_of(input);
    let tag = prefix.to_owned().concat(":");
    let mut out = String::new();
    let mut i: usize = 0;
    assert(old(notes)@ + env_notes(input@, prefix@, 0) == notes@ + env_notes(input@, prefix@, 0));
    while i < v.len()
        invariant
            v@ == input@,
            tag@ == prefix@ + ":"@,
            i <= v@.len(),
            env_expanded(input@, tag@, host@, 0) == out@ + env_expanded(
                input@,
                tag@,
                host@,
                i as int,
            ),
            old(notes)@ + env_notes(input@, prefix@, 0) == notes@ + env_notes(
                input@,
                prefix@,
                i as int,
            ),
        decreases v@.len() - i,
    {
        let ghost before = out@;
        let ghost told = notes@;
        let n: usize = v.len();
        if v[i] == '$' && n - i >= 2 && v[i + 1] == '{' {
            let end: usize = seek_char(&v, '}', i + 2);
            let next: usize = if end < n {
                end + 1
            } else {
                n
            };
            let content = text_of(&v, i + 2, end);
            let rest = if end < n {
                strip_prefix(content.as_str(), tag.as_str())
            } else {
                None
            };
            match rest {
                Some(rest) => {
                    assert(refers(input@, tag@, i as int));
                    assert(rest@ == reference(input@, tag@, i as int));
                    let (name, default) = match split_once(rest.as_str(), ':') {
                        Some((a, b)) => (a, b),
                        None => (rest.clone(), String::new()),
                    };
                    assert((name@, default@) == name_and_default(rest@)) by {
                        assert(cut_once(rest@, ':') is None ==> default@ =~= Seq::empty());
                    }
                    let empty_name: bool = name.as_str().unicode_len() == 0;
                    if empty_name {
                        notes.warn(
                            "Warning: '${".to_owned().concat(prefix).concat(
                                ":}' has an empty variable name, resolved to empty",
                            ),
                        );
                    }
                    match host.get(name.as_str()) {
                        Some(value) => {
                            out.append(value);
                        },
                        None => {
                            out.append(default.as_str());
                        },
                    }
                    assert(out@ =~= before + env_value(rest@, host@));
                },
                None => {
                    let kept = text_of(&v, i, next);
                    out.append(kept.as_str());
                    assert(!refers(input@, tag@, i as int));
                    assert(out@ =~= before + input@.subrange(i as int, next as int));
                },
            }
            proof {
                let tail = env_expanded(input@, tag@, host@, next as int);
                let piece = if refers(input@, tag@, i as int) {
                    env_value(reference(input@, tag@, i as int), host@)
                } else {
                    input@.subrange(i as int, next as int)
                };
                assert(before + (piece + tail) =~= (before + piece) + tail);
                assert(notes@ + env_notes(input@, prefix@, next as int) =~= told + env_notes(
                    input@,
                    prefix@,
                    i as int,
                ));
            }
            i = next;
        } else {
            out.push(v[i]);
            proof {
                let tail = env_expanded(input@, tag@, host@, i + 1);
                assert(before + (seq![input@[i as int]] + tail) =~= out@ + tail);
            }
            i = i + 1;
        }
    }
    assert(out@ + Seq::<char>::empty() =~= out@);
    assert(notes@ + no_notes() =~= notes@);
    out
}

pub open spec fn local_expanded(s: Seq<char>, host: Seq<(Seq<char>, Seq<char>)>) -> Seq<char> {
    env_expanded(s, "localEnv"@ + ":"@, host, 0)
}

pub open spec fn container_expanded(s: Seq<char>, host: Seq<(Seq<char>, Seq<char>)>) -> Seq<char> {
    env_expanded(s, "containerEnv"@ + ":"@, host, 0)
}

pub fn expand_local_env_vars(input: &str, host: &EnvMap, notes: &mut Notes) -> (res: String)
    ensures
        res@ == local_expanded(input@, host@),
        final(notes)@ == old(notes)@ + env_notes(input@, "localEnv"@, 0),
{
    expand_env_vars(input, "localEnv", host, notes)
}

pub fn expand_container_env_vars(input: &str, host: &EnvMap, notes: &mut Notes) -> (res: String)
    ensures
        res@ == container_expanded(input@, host@),
        final(notes)@ == old(notes)@ + env_notes(input@, "containerEnv"@, 0),
{
    expand_env_vars(input, "containerEnv", host, notes)
}

// ---------------------------------------------------------------------------------------------
// The workspace and its identifier

/// The identifier of a workspace: the FNV-1a hash of its path in hexadecimal.
pub open spec fn workspace_id(folder: Seq<char>) -> Seq<char> {
    hex_text(fnv1a(encode_utf8(folder)) as nat, 16)
}

pub fn devcontainer_id_for(workspace: &Workspace) -> (res: String)
    ensures
        res@ == workspace_id(workspace.folder@),
{
    hex(hash_text(workspace.folder.as_str()), 16)
}

pub open spec fn project_name(folder: Seq<char>) -> Seq<char> {
    "bondar-"@ + workspace_id(folder).take(8)
}

/// The compose project name of a workspace. It depends on the whole path, so that workspaces with
/// the same directory name do not share projects.
pub fn compose_project_name(workspace: &Workspace) -> (res: String)
    ensures
        res@ == project_name(workspace.folder@),
{
    let id = devcontainer_id_for(workspace);
    proof {
        lemma_hex_len(fnv1a(encode_utf8(workspace.folder@)) as nat, 16);
    }
    let v = chars_of(id.as_str());
    let short = text_of(&v, 0, 8);
    assert(short@ =~= workspace_id(workspace.folder@).take(8));
    "bondar-".to_owned().concat(short.as_str())
}

/// A text in which `pat` does not occur is not changed by replacing it.
pub proof fn lemma_replaced_absent(s: Seq<char>, pat: Seq<char>, by: Seq<char>, i: int)
    requires
        0 <= i <= s.len(),
        !occurs(s, pat),
    ensures
        replaced_from(s, pat, by, i) == s.skip(i),
    decreases s.len() - i,
{
    if i < s.len() {
        assert(!stands_at(s, pat, i));
        lemma_replaced_absent(s, pat, by, i + 1);
        assert(s.skip(i) =~= seq![s[i]] + s.skip(i + 1));
    } else {
        assert(s.skip(i) =~= Seq::empty());
    }
}

pub open spec fn id_expanded(s: Seq<char>, folder: Seq<char>) -> Seq<char> {
    replaced(s, "${devcontainerId}"@, workspace_id(folder))
}

pub fn expand_devcontainer_id(input: &str, workspace: &Workspace) -> (res: String)
    ensures
        res@ == id_expanded(input@, workspace.folder@),
{
    if !contains(input, "${devcontainerId}") {
        proof {
            lemma_replaced_absent(
                input@,
                "${devcontainerId}"@,
                workspace_id(workspace.folder@),
                0,
            );
            assert(input@.skip(0) =~= input@);
        }
        return input.to_owned();
    }
    let id = devcontainer_id_for(workspace);
    proof {
        reveal_strlit("${devcontainerId}");
    }
    replace(input, "${devcontainerId}", id.as_str())
}

/// What follows the last `/` of a path.
pub open spec fn last_segment(path: Seq<char>) -> Seq<char> {
    pieces(path, '/').last()
}

/// The name of the workspace folder inside the container.
pub open spec fn container_base(target: Seq<char>) -> Seq<char> {
    if last_segment(target).len() == 0 {
        "workspace"@
    } else {
        last_segment(target)
    }
}

fn container_basename(target: &str) -> (res: String)
    ensures
        res@ == container_base(target@),
{
    let parts = split(target, '/');
    let last = parts.get(parts.len() - 1);
    if last.unicode_len() == 0 {
        "workspace".to_owned()
    } else {
        last.to_owned()
    }
}

/// The text with the references to the workspace folders replaced.
pub open spec fn folders_expanded(s: Seq<char>, workspace: Workspace, target: Seq<char>) -> Seq<char> {
    let a = replaced(s, "${localWorkspaceFolder}"@, workspace.folder@);
    let b = replaced(a, "${localWorkspaceFolderBasename}"@, workspace.base());
    let c = replaced(b, "${containerWorkspaceFolder}"@, target);
    replaced(c, "${containerWorkspaceFolderBasename}"@, container_base(target))
}

fn expand_folders(input: &str, workspace: &Workspace, target: &str) -> (res: String)
    ensures
        res@ == folders_expanded(input@, *workspace, target@),
{
    proof {
        reveal_strlit("${localWorkspaceFolder}");
        reveal_strlit("${localWorkspaceFolderBasename}");
        reveal_strlit("${containerWorkspaceFolder}");
        reveal_strlit("${containerWorkspaceFolderBasename}");
    }
    let base = match &workspace.basename {
        Some(s) => s.clone(),
        None => String::new(),
    };
    assert(base@ =~= workspace.base());
    let a = replace(input, "${localWorkspaceFolder}", workspace.folder.as_str());
    let b = replace(a.as_str(), "${localWorkspaceFolderBasename}", base.as_str());
    let c = replace(b.as_str(), "${containerWorkspaceFolder}", target);
    let inner = container_basename(target);
    replace(c.as_str(), "${containerWorkspaceFolderBasename}", inner.as_str())
}

/// The text with every supported reference replaced: the workspace folders first, then `localEnv`
/// and `containerEnv` from the host environment, then the workspace identifier.
pub open spec fn expanded(
    s: Seq<char>,
    workspace: Workspace,
    target: Seq<char>,
    host: Seq<(Seq<char>, Seq<char>)>,
) -> Seq<char> {
    let a = folders_expanded(s, workspace, target);
    let b = local_expanded(a, host);
    let c = container_expanded(b, host);
    id_expanded(c, workspace.folder@)
}

/// The warnings on references without a variable name.
pub open spec fn expansion_notes(
    s: Seq<char>,
    workspace: Workspace,
    target: Seq<char>,
    host: Seq<(Seq<char>, Seq<char>)>,
) -> Seq<NoteView> {
    let a = folders_expanded(s, workspace, target);
    let b = local_expanded(a, host);
    env_notes(a, "localEnv"@, 0) + env_notes(b, "containerEnv"@, 0)
}

/// Expands the references of a value that is used on the host; `container_workspace` is the
/// workspace folder inside the container.
pub fn expand_vars_for_host_with_target(
    input: &str,
    workspace: &Workspace,
    container_workspace: &str,
    host: &EnvMap,
    notes: &mut Notes,
) -> (res: String)
    ensures
        res@ == expanded(input@, *workspace, container_workspace@, host@),
        final(notes)@ == old(notes)@ + expansion_notes(
            input@,
            *workspace,
            container_workspace@,
            host@,
        ),
{
    let a = expand_folders(input, workspace, container_workspace);
    let b = expand_local_env_vars(a.as_str(), host, notes);
    let c = expand_container_env_vars(b.as_str(), host, notes);
    assert(notes@ =~= old(notes)@ + expansion_notes(
        input@,
        *workspace,
        container_workspace@,
        host@,
    ));
    expand_devcontainer_id(c.as_str(), workspace)
}

/// Expands the references of a value that is used before the container's workspace folder is
/// known.
pub fn expand_vars_for_host(
    input: &str,
    workspace: &Workspace,
    host: &EnvMap,
    notes: &mut Notes,
) -> (res: String)
    ensures
        res@ == expanded(input@, *workspace, "/workspace"@, host@),
        final(notes)@ == old(notes)@ + expansion_notes(input@, *workspace, "/workspace"@, host@),
{
    expand_vars_for_host_with_target(input, workspace, "/workspace", host, notes)
}

/// Expands the references of a value that is used inside the container.
pub fn expand_vars_for_container(
    input: &str,
    workspace: &Workspace,
    container_workspace: &str,
    host: &EnvMap,
    notes: &mut Notes,
) -> (res: String)
    ensures
        res@ == expanded(input@, *workspace, container_workspace@, host@),
        final(notes)@ == old(notes)@ + expansion_notes(
            input@,
            *workspace,
            container_workspace@,
            host@,
        ),
{
    expand_vars_for_host_with_target(input, workspace, container_workspace, host, notes)
}

// ---------------------------------------------------------------------------------------------
// References to entries of `containerEnv`

pub open spec fn plain_reference(key: Seq<char>) -> Seq<char> {
    "${containerEnv:"@ + key + "}"@
}

pub open spec fn default_reference(key: Seq<char>) -> Seq<char> {
    "${containerEnv:"@ + key + ":"@
}

/// The text from position `i` on with each closed reference that begins with `prefix` replaced by
/// `value`, up to the first one that is not closed.
pub open spec fn defaults_replaced(s: Seq<char>, prefix: Seq<char>, value: Seq<char>, i: int) -> Seq<
    char,
>
    decreases s.len() - i,
{
    let at = seek_pat(s, prefix, i);
    let end = seek(s, '}', at + prefix.len());
    if 0 <= i <= at && at < s.len() && at + prefix.len() <= end && end < s.len() {
        s.subrange(i, at) + value + defaults_replaced(s, prefix, value, end + 1)
    } else {
        s.skip(i)
    }
}

/// Replaces the references `${containerEnv:KEY:...}` up to their closing brace by the value, so
/// that the entry wins over the default.
fn replace_container_env_default(input: &str, key: &str, value: &str) -> (res: String)
    ensures
        res@ == defaults_replaced(input@, default_reference(key@), value@, 0),
{
    let prefix = "${containerEnv:".to_owned().concat(key).concat(":");
    let v = chars_of(input);
    let p = chars_of(prefix.as_str());
    let mut out = String::new();
    let mut i: usize = 0;
    let ghost goal = defaults_replaced(input@, prefix@, value@, 0);
    loop
        invariant
            v@ == input@,
            p@ == prefix@,
            prefix@ == default_reference(key@),
            i <= v@.len(),
            goal == defaults_replaced(input@, default_reference(key@), value@, 0),
            goal == out@ + defaults_replaced(input@, prefix@, value@, i as int),
        decreases v@.len() - i,
    {
        let n: usize = v.len();
        let at: usize = seek_match(&v, &p, i);
        let end: usize = if at < n {
            seek_char(&v, '}', at + p.len())
        } else {
            n
        };
        if end >= n {
            let tail = text_of(&v, i, n);
            out.append(tail.as_str());
            assert(tail@ =~= input@.skip(i as int));
            return out;
        }
        let ghost before = out@;
        let kept = text_of(&v, i, at);
        out.append(kept.as_str());
        out.append(value);
        proof {
            let tail = defaults_replaced(input@, prefix@, value@, end + 1);
            assert(before + (input@.subrange(i as int, at as int) + value@ + tail) =~= out@ + tail);
        }
        i = end + 1;
    }
}

/// The text with the references to one entry replaced by its value.
pub open spec fn entry_resolved(s: Seq<char>, key: Seq<char>, value: Seq<char>) -> Seq<char> {
    defaults_replaced(
        replaced(s, plain_reference(key), value),
        default_reference(key),
        value,
        0,
    )
}

/// Whether the text refers to the entry, in one form or the other.
pub open spec fn entry_referred(s: Seq<char>, key: Seq<char>, value: Seq<char>) -> bool {
    occurs(s, plain_reference(key)) || occurs(
        replaced(s, plain_reference(key), value),
        default_reference(key),
    )
}

proof fn lemma_defaults_absent(s: Seq<char>, prefix: Seq<char>, value: Seq<char>)
    requires
        !occurs(s, prefix),
    ensures
        defaults_replaced(s, prefix, value, 0) == s,
{
    lemma_seek_pat(s, prefix, 0);
    let at = seek_pat(s, prefix, 0);
    if at < s.len() {
        assert(stands_at(s, prefix, at));
    }
    assert(s.skip(0) =~= s);
}

/// Replaces the references to one entry; the flag says whether there were any.
fn resolve_entry(input: &str, key: &str, value: &str) -> (res: (String, bool))
    ensures
        res.0@ == entry_resolved(input@, key@, value@),
        res.1 == entry_referred(input@, key@, value@),
{
    let pat = "${containerEnv:".to_owned().concat(key).concat("}");
    let pat_default = "${containerEnv:".to_owned().concat(key).concat(":");
    proof {
        reveal_strlit("${containerEnv:");
    }
    let plain: bool = contains(input, pat.as_str());
    let first = if plain {
        replace(input, pat.as_str(), value)
    } else {
        proof {
            lemma_replaced_absent(input@, pat@, value@, 0);
            assert(input@.skip(0) =~= input@);
        }
        input.to_owned()
    };
    let defaulted: bool = contains(first.as_str(), pat_default.as_str());
    let second = if defaulted {
        replace_container_env_default(first.as_str(), key, value)
    } else {
        proof {
            lemma_defaults_absent(first@, pat_default@, value@);
        }
        first
    };
    (second, plain || defaulted)
}

/// Whether an entry refers to itself, in one form or the other.
pub open spec fn self_referential(key: Seq<char>, value: Seq<char>) -> bool {
    occurs(value, plain_reference(key)) || occurs(value, default_reference(key))
}

fn refers_to_itself(key: &str, value: &str) -> (res: bool)
    ensures
        res == self_referential(key@, value@),
{
    let plain = "${containerEnv:".to_owned().concat(key).concat("}");
    let defaulted = "${containerEnv:".to_owned().concat(key).concat(":");
    proof {
        reveal_strlit("${containerEnv:");
    }
    contains(value, plain.as_str()) || contains(value, defaulted.as_str())
}

/// The text after the references to the first `n` entries were replaced in turn. An entry that
/// refers to itself is left out.
pub open spec fn round_resolved(s: Seq<char>, raw: Seq<(Seq<char>, Seq<char>)>, n: int) -> Seq<char>
    decreases n,
{
    if n <= 0 || n > raw.len() {
        s
    } else {
        let before = round_resolved(s, raw, n - 1);
        if self_referential(raw[n - 1].0, raw[n - 1].1) {
            before
        } else {
            entry_resolved(before, raw[n - 1].0, raw[n - 1].1)
        }
    }
}

/// Whether one of the first `n` entries was referred to when its turn came.
pub open spec fn round_changed(s: Seq<char>, raw: Seq<(Seq<char>, Seq<char>)>, n: int) -> bool
    decreases n,
{
    0 < n <= raw.len() && (round_changed(s, raw, n - 1) || (!self_referential(
        raw[n - 1].0,
        raw[n - 1].1,
    ) && entry_referred(round_resolved(s, raw, n - 1), raw[n - 1].0, raw[n - 1].1)))
}

/// The text after at most `rounds` rounds over all entries; a round that replaces nothing is the
/// last one.
pub open spec fn env_resolved(s: Seq<char>, raw: Seq<(Seq<char>, Seq<char>)>, rounds: nat) -> Seq<
    char,
>
    decreases rounds,
{
    if rounds == 0 {
        s
    } else {
        let next = round_resolved(s, raw, raw.len() as int);
        if round_changed(s, raw, raw.len() as int) {
            env_resolved(next, raw, (rounds - 1) as nat)
        } else {
            next
        }
    }
}

/// Resolves `${containerEnv:KEY}` and `${containerEnv:KEY:default}` references against the
/// entries of `containerEnv`, in ten rounds at most: entries that refer to each other in a circle
/// end the rounds as well. References to other names, and to an entry that refers to itself, are left
/// as they are.
pub fn resolve_container_env_value(input: &str, raw: &EnvMap) -> (res: String)
    ensures
        res@ == env_resolved(input@, raw@, 10),
{
    let mut result = input.to_owned();
    let mut left: u64 = 10;
    while left > 0
        invariant
            left <= 10,
            env_resolved(input@, raw@, 10) == env_resolved(result@, raw@, left as nat),
        decreases left,
    {
        let ghost start = result@;
        let mut changed = false;
        let mut i: usize = 0;
        while i < raw.len()
            invariant
                i <= raw@.len(),
                result@ == round_resolved(start, raw@, i as int),
                changed == round_changed(start, raw@, i as int),
            decreases raw@.len() - i,
        {
            if !refers_to_itself(raw.key(i), raw.value(i)) {
                let (next, hit) = resolve_entry(result.as_str(), raw.key(i), raw.value(i));
                result = next;
                if hit {
                    changed = true;
                }
            }
            i = i + 1;
        }
        if !changed {
            return result;
        }
        left = left - 1;
    }
    result
}

/// The text after the references to the first `n` entries other than `skip` were replaced in turn.
pub open spec fn map_resolved(
    s: Seq<char>,
    map: Seq<(Seq<char>, Seq<char>)>,
    skip: Option<Seq<char>>,
    n: int,
) -> Seq<char>
    decreases n,
{
    if n <= 0 || n > map.len() {
        s
    } else {
        let before = map_resolved(s, map, skip, n - 1);
        if skip == Some(map[n - 1].0) {
            before
        } else {
            entry_resolved(before, map[n - 1].0, map[n - 1].1)
        }
    }
}

/// Resolves `${containerEnv:KEY}` and `${containerEnv:KEY:default}` references against a map whose
/// values are already processed, once for each entry. The entry named by `skip` is left out.
pub fn expand_container_env_from_map(
    input: &str,
    env_map: &EnvMap,
    skip: Option<&str>,
) -> (res: String)
    ensures
        res@ == map_resolved(input@, env_map@, opt_str(skip), env_map@.len() as int),
{
    let mut result = input.to_owned();
    let mut i: usize = 0;
    while i < env_map.len()
        invariant
            i <= env_map@.len(),
            result@ == map_resolved(input@, env_map@, opt_str(skip), i as int),
        decreases env_map@.len() - i,
    {
        let skipped: bool = match skip {
            Some(s) => same_text(s, env_map.key(i)),
            None => false,
        };
        if !skipped {
            let (next, _) = resolve_entry(result.as_str(), env_map.key(i), env_map.value(i));
            result = next;
        }
        i = i + 1;
    }
    result
}

// ---------------------------------------------------------------------------------------------
// Laws

/// A text in which no reference opens holds no pattern that begins with one.
proof fn lemma_absent(s: Seq<char>, pat: Seq<char>)
    requires
        !occurs(s, "${"@),
        pat.len() >= 2,
        pat[0] == '$',
        pat[1] == '{',
    ensures
        !occurs(s, pat),
{
    reveal_strlit("${");
    assert("${"@ + pat.skip(2) =~= pat);
    lemma_longer_absent(s, "${"@, pat.skip(2));
}

proof fn lemma_env_plain(
    s: Seq<char>,
    prefix: Seq<char>,
    host: Seq<(Seq<char>, Seq<char>)>,
    i: int,
)
    requires
        !occurs(s, "${"@),
        0 <= i <= s.len(),
    ensures
        env_expanded(s, prefix + ":"@, host, i) == s.skip(i),
        env_notes(s, prefix, i) == no_notes(),
    decreases s.len() - i,
{
    if i < s.len() {
        if opens(s, i) {
            reveal_strlit("${");
            assert(s.subrange(i, i + 2) =~= "${"@);
            assert(stands_at(s, "${"@, i));
        }
        lemma_env_plain(s, prefix, host, i + 1);
        assert(s.skip(i) =~= seq![s[i]] + s.skip(i + 1));
    } else {
        assert(s.skip(i) =~= Seq::empty());
    }
}

/// A value in which no reference opens is its own expansion, and expanding it warns of nothing.
pub proof fn law_plain_values_stay(
    s: Seq<char>,
    workspace: Workspace,
    target: Seq<char>,
    host: Seq<(Seq<char>, Seq<char>)>,
)
    requires
        !occurs(s, "${"@),
    ensures
        expanded(s, workspace, target, host) == s,
        expansion_notes(s, workspace, target, host) == no_notes(),
{
    reveal_strlit("${localWorkspaceFolder}");
    reveal_strlit("${localWorkspaceFolderBasename}");
    reveal_strlit("${containerWorkspaceFolder}");
    reveal_strlit("${containerWorkspaceFolderBasename}");
    reveal_strlit("${devcontainerId}");
    assert(s.skip(0) =~= s);
    lemma_absent(s, "${localWorkspaceFolder}"@);
    lemma_replaced_absent(s, "${localWorkspaceFolder}"@, workspace.folder@, 0);
    lemma_absent(s, "${localWorkspaceFolderBasename}"@);
    lemma_replaced_absent(s, "${localWorkspaceFolderBasename}"@, workspace.base(), 0);
    lemma_absent(s, "${containerWorkspaceFolder}"@);
    lemma_replaced_absent(s, "${containerWorkspaceFolder}"@, target, 0);
    lemma_absent(s, "${containerWorkspaceFolderBasename}"@);
    lemma_replaced_absent(s, "${containerWorkspaceFolderBasename}"@, container_base(target), 0);
    lemma_absent(s, "${devcontainerId}"@);
    lemma_replaced_absent(s, "${devcontainerId}"@, workspace_id(workspace.folder@), 0);
    lemma_env_plain(s, "localEnv"@, host, 0);
    lemma_env_plain(s, "containerEnv"@, host, 0);
    assert(no_notes() + no_notes() =~= no_notes());
}

proof fn lemma_not_referred(s: Seq<char>, key: Seq<char>, value: Seq<char>)
    requires
        !occurs(s, "${containerEnv:"@),
    ensures
        !entry_referred(s, key, value),
{
    lemma_longer_absent(s, "${containerEnv:"@, key + "}"@);
    lemma_longer_absent(s, "${containerEnv:"@, key + ":"@);
    assert("${containerEnv:"@ + (key + "}"@) =~= plain_reference(key));
    assert("${containerEnv:"@ + (key + ":"@) =~= default_reference(key));
    reveal_strlit("${containerEnv:");
    lemma_replaced_absent(s, plain_reference(key), value, 0);
    assert(s.skip(0) =~= s);
}

proof fn lemma_longer_absent(s: Seq<char>, pat: Seq<char>, more: Seq<char>)
    requires
        !occurs(s, pat),
    ensures
        !occurs(s, pat + more),
{
    if occurs(s, pat + more) {
        let k = choose|k: int| stands_at(s, pat + more, k);
        assert(s.subrange(k, k + pat.len()) =~= s.subrange(k, k + (pat + more).len()).take(
            pat.len() as int,
        ));
        assert((pat + more).take(pat.len() as int) =~= pat);
        assert(stands_at(s, pat, k));
    }
}

/// A value that refers to no container variable is not changed by resolving such references.
pub proof fn law_values_without_container_references_stay(
    s: Seq<char>,
    raw: Seq<(Seq<char>, Seq<char>)>,
)
    requires
        !occurs(s, "${containerEnv:"@),
    ensures
        env_resolved(s, raw, 10) == s,
{
    assert forall|i: int| 0 <= i < raw.len() implies self_referential(raw[i].0, #[trigger] raw[i].1)
        || !entry_referred(s, raw[i].0, raw[i].1) by {
        lemma_not_referred(s, raw[i].0, raw[i].1);
    }
    law_unresolved_references_stay(s, raw, 10);
}

proof fn lemma_hex_digits(n: nat, width: nat)
    ensures
        forall|i: int|
            0 <= i < hex_text(n, width).len() ==> is_hex_digit(#[trigger] hex_text(n, width)[i]),
    decreases width,
{
    if width > 0 {
        lemma_hex_digits(n / 16, (width - 1) as nat);
        lemma_hex_len(n / 16, (width - 1) as nat);
    }
}

pub open spec fn is_hex_digit(c: char) -> bool {
    '0' <= c <= '9' || 'a' <= c <= 'f'
}

/// A workspace identifier has sixteen hexadecimal digits, and a project name is `bondar-` followed
/// by the first eight of them; both depend on nothing but the path of the workspace. Two workspaces
/// have the same project name only where these eight digits are the same.
pub proof fn law_workspace_identifiers(a: Workspace, b: Workspace)
    ensures
        workspace_id(a.folder@).len() == 16,
        forall|i: int| 0 <= i < 16 ==> is_hex_digit(#[trigger] workspace_id(a.folder@)[i]),
        project_name(a.folder@).len() == 15,
        a.folder@ == b.folder@ ==> workspace_id(a.folder@) == workspace_id(b.folder@)
            && project_name(a.folder@) == project_name(b.folder@),
        project_name(a.folder@) == project_name(b.folder@) <==> workspace_id(a.folder@).take(8)
            == workspace_id(b.folder@).take(8),
{
    reveal_strlit("bondar-");
    lemma_hex_len(fnv1a(encode_utf8(b.folder@)) as nat, 16);
    assert(project_name(a.folder@).skip(7) =~= workspace_id(a.folder@).take(8));
    assert(project_name(b.folder@).skip(7) =~= workspace_id(b.folder@).take(8));
    lemma_hex_len(fnv1a(encode_utf8(a.folder@)) as nat, 16);
    lemma_hex_digits(fnv1a(encode_utf8(a.folder@)) as nat, 16);
}

/// A reference `${tag rest}` alone is replaced by what `rest` stands for.
proof fn lemma_sole_reference(tag: Seq<char>, rest: Seq<char>, host: Seq<(Seq<char>, Seq<char>)>)
    requires
        !tag.contains('}'),
        !rest.contains('}'),
    ensures
        env_expanded("${"@ + tag + rest + "}"@, tag, host, 0) == env_value(rest, host),
{
    reveal_strlit("${");
    reveal_strlit("}");
    let s = "${"@ + tag + rest + "}"@;
    let end = s.len() - 1;
    assert forall|k: int| 2 <= k < end implies s[k] != '}' by {
        if k < 2 + tag.len() {
            assert(tag.contains(tag[k - 2]));
        } else {
            assert(rest.contains(rest[k - 2 - tag.len()]));
        }
    }
    lemma_seek_is(s, '}', 2, end);
    assert(s.subrange(2, end) =~= tag + rest);
    assert((tag + rest).subrange(0, tag.len() as int) =~= tag);
    assert((tag + rest).skip(tag.len() as int) =~= rest);
    assert(opens(s, 0));
    assert(refers(s, tag, 0));
    assert(reference(s, tag, 0) == rest);
    assert(env_expanded(s, tag, host, s.len() as int) =~= Seq::empty());
    assert(env_value(rest, host) + Seq::<char>::empty() =~= env_value(rest, host));
}

/// A reference to a host variable stands for the variable's value, or for its default where the
/// variable is not set; without a default it then stands for nothing.
pub proof fn law_host_variables(
    prefix: Seq<char>,
    name: Seq<char>,
    default: Seq<char>,
    host: Seq<(Seq<char>, Seq<char>)>,
)
    requires
        !prefix.contains('}'),
        !name.contains(':'),
        !name.contains('}'),
        !default.contains('}'),
    ensures
        env_expanded("${"@ + (prefix + ":"@) + name + "}"@, prefix + ":"@, host, 0) == (match lookup(
            host,
            name,
        ) {
            Some(v) => v,
            None => Seq::empty(),
        }),
        env_expanded(
            "${"@ + (prefix + ":"@) + (name + ":"@ + default) + "}"@,
            prefix + ":"@,
            host,
            0,
        ) == (match lookup(host, name) {
            Some(v) => v,
            None => default,
        }),
{
    reveal_strlit(":");
    let tag = prefix + ":"@;
    assert(!tag.contains('}')) by {
        if tag.contains('}') {
            let k = choose|k: int| 0 <= k < tag.len() && tag[k] == '}';
            assert(prefix.contains(prefix[k]));
        }
    }
    let rest = name + ":"@ + default;
    assert(!rest.contains('}')) by {
        if rest.contains('}') {
            let k = choose|k: int| 0 <= k < rest.len() && rest[k] == '}';
            if k < name.len() {
                assert(name.contains(name[k]));
            } else {
                assert(default.contains(default[k - name.len() - 1]));
            }
        }
    }
    lemma_sole_reference(tag, name, host);
    lemma_sole_reference(tag, rest, host);
    lemma_seek_none(name, ':', 0);
    assert forall|k: int| 0 <= k < name.len() implies rest[k] != ':' by {
        assert(name.contains(name[k]));
    }
    lemma_seek_is(rest, ':', 0, name.len() as int);
    assert(rest.take(name.len() as int) =~= name);
    assert(rest.skip((name.len() + 1) as int) =~= default);
}

/// Where a text has its only `$` at the front, a pattern that begins with one can stand there only.
proof fn lemma_front_only(s: Seq<char>, pat: Seq<char>)
    requires
        pat.len() > 0,
        pat[0] == '$',
        forall|k: int| 1 <= k < s.len() ==> s[k] != '$',
        !begins_with(s, pat),
    ensures
        !occurs(s, pat),
{
    if occurs(s, pat) {
        let k = choose|k: int| stands_at(s, pat, k);
        assert(s.subrange(k, k + pat.len())[0] == s[k]);
        assert(k == 0);
    }
}

proof fn lemma_replaced_whole(pat: Seq<char>, by: Seq<char>)
    requires
        pat.len() > 0,
    ensures
        replaced(pat, pat, by) == by,
{
    assert(pat.subrange(0, pat.len() as int) =~= pat);
    assert(replaced_from(pat, pat, by, pat.len() as int) =~= Seq::empty());
    assert(by + Seq::<char>::empty() =~= by);
}

proof fn lemma_untouched(s: Seq<char>, pat: Seq<char>, by: Seq<char>)
    requires
        !occurs(s, pat),
    ensures
        replaced(s, pat, by) == s,
{
    lemma_replaced_absent(s, pat, by, 0);
    assert(s.skip(0) =~= s);
}

proof fn lemma_folder_patterns()
    ensures
        !occurs("${localWorkspaceFolderBasename}"@, "${localWorkspaceFolder}"@),
        !occurs("${containerWorkspaceFolder}"@, "${localWorkspaceFolder}"@),
        !occurs("${containerWorkspaceFolder}"@, "${localWorkspaceFolderBasename}"@),
        !occurs("${containerWorkspaceFolderBasename}"@, "${localWorkspaceFolder}"@),
        !occurs("${containerWorkspaceFolderBasename}"@, "${localWorkspaceFolderBasename}"@),
        !occurs("${containerWorkspaceFolderBasename}"@, "${containerWorkspaceFolder}"@),
{
    reveal_strlit("${localWorkspaceFolder}");
    reveal_strlit("${localWorkspaceFolderBasename}");
    reveal_strlit("${containerWorkspaceFolder}");
    reveal_strlit("${containerWorkspaceFolderBasename}");
    let a = "${localWorkspaceFolder}"@;
    let b = "${localWorkspaceFolderBasename}"@;
    let c = "${containerWorkspaceFolder}"@;
    let d = "${containerWorkspaceFolderBasename}"@;
    assert(b.subrange(0, a.len() as int)[22] != a[22]);
    lemma_front_only(b, a);
    assert(c.subrange(0, a.len() as int)[2] != a[2]);
    lemma_front_only(c, a);
    lemma_front_only(c, b);
    assert(d.subrange(0, a.len() as int)[2] != a[2]);
    lemma_front_only(d, a);
    assert(d.subrange(0, b.len() as int)[2] != b[2]);
    lemma_front_only(d, b);
    assert(d.subrange(0, c.len() as int)[26] != c[26]);
    lemma_front_only(d, c);
}

/// The references to the workspace folders stand for the folder on the host, the folder in the
/// container and their base names, each where no reference opens in what it stands for.
pub proof fn law_workspace_references(
    workspace: Workspace,
    target: Seq<char>,
    host: Seq<(Seq<char>, Seq<char>)>,
)
    ensures
        !occurs(workspace.folder@, "${"@) ==> expanded(
            "${localWorkspaceFolder}"@,
            workspace,
            target,
            host,
        ) == workspace.folder@,
        !occurs(workspace.base(), "${"@) ==> expanded(
            "${localWorkspaceFolderBasename}"@,
            workspace,
            target,
            host,
        ) == workspace.base(),
        !occurs(target, "${"@) ==> expanded(
            "${containerWorkspaceFolder}"@,
            workspace,
            target,
            host,
        ) == target,
        !occurs(container_base(target), "${"@) ==> expanded(
            "${containerWorkspaceFolderBasename}"@,
            workspace,
            target,
            host,
        ) == container_base(target),
{
    reveal_strlit("${localWorkspaceFolder}");
    reveal_strlit("${localWorkspaceFolderBasename}");
    reveal_strlit("${containerWorkspaceFolder}");
    reveal_strlit("${containerWorkspaceFolderBasename}");
    let a = "${localWorkspaceFolder}"@;
    let b = "${localWorkspaceFolderBasename}"@;
    let c = "${containerWorkspaceFolder}"@;
    let d = "${containerWorkspaceFolderBasename}"@;
    let folder = workspace.folder@;
    let base = workspace.base();
    let inner = container_base(target);
    lemma_folder_patterns();
    lemma_replaced_whole(a, folder);
    lemma_replaced_whole(b, base);
    lemma_replaced_whole(c, target);
    lemma_replaced_whole(d, inner);
    lemma_untouched(b, a, folder);
    lemma_untouched(c, a, folder);
    lemma_untouched(c, b, base);
    lemma_untouched(d, a, folder);
    lemma_untouched(d, b, base);
    lemma_untouched(d, c, target);
    if !occurs(folder, "${"@) {
        lemma_absent(folder, b);
        lemma_untouched(folder, b, base);
        lemma_absent(folder, c);
        lemma_untouched(folder, c, target);
        lemma_absent(folder, d);
        lemma_untouched(folder, d, inner);
        lemma_plain_tail(folder, workspace, host);
    }
    if !occurs(base, "${"@) {
        lemma_absent(base, c);
        lemma_untouched(base, c, target);
        lemma_absent(base, d);
        lemma_untouched(base, d, inner);
        lemma_plain_tail(base, workspace, host);
    }
    if !occurs(target, "${"@) {
        lemma_absent(target, d);
        lemma_untouched(target, d, inner);
        lemma_plain_tail(target, workspace, host);
    }
    if !occurs(inner, "${"@) {
        lemma_plain_tail(inner, workspace, host);
    }
}

proof fn lemma_plain_tail(
    s: Seq<char>,
    workspace: Workspace,
    host: Seq<(Seq<char>, Seq<char>)>,
)
    requires
        !occurs(s, "${"@),
    ensures
        id_expanded(container_expanded(local_expanded(s, host), host), workspace.folder@) == s,
{
    reveal_strlit("${devcontainerId}");
    assert(s.skip(0) =~= s);
    lemma_env_plain(s, "localEnv"@, host, 0);
    lemma_env_plain(s, "containerEnv"@, host, 0);
    lemma_absent(s, "${devcontainerId}"@);
    lemma_untouched(s, "${devcontainerId}"@, workspace_id(workspace.folder@));
}

proof fn lemma_replaced_after(s: Seq<char>, pat: Seq<char>, by: Seq<char>, i: int)
    requires
        0 <= i <= s.len(),
        pat.len() > 0,
        pat[0] == '$',
        forall|k: int| i <= k < s.len() ==> s[k] != '$',
    ensures
        replaced_from(s, pat, by, i) == s.skip(i),
    decreases s.len() - i,
{
    if i < s.len() {
        if stands_at(s, pat, i) {
            assert(s.subrange(i, i + pat.len())[0] == s[i]);
        }
        lemma_replaced_after(s, pat, by, i + 1);
        assert(s.skip(i) =~= seq![s[i]] + s.skip(i + 1));
    } else {
        assert(s.skip(i) =~= Seq::empty());
    }
}

proof fn lemma_replaced_within(
    a: Seq<char>,
    pat: Seq<char>,
    b: Seq<char>,
    by: Seq<char>,
    i: int,
)
    requires
        0 <= i <= a.len(),
        pat.len() > 0,
        pat[0] == '$',
        !a.contains('$'),
        !b.contains('$'),
    ensures
        replaced_from(a + pat + b, pat, by, i) == a.skip(i) + by + b,
    decreases a.len() - i,
{
    let s = a + pat + b;
    if i < a.len() {
        assert(a.contains(a[i]));
        if stands_at(s, pat, i) {
            assert(s.subrange(i, i + pat.len())[0] == s[i]);
        }
        lemma_replaced_within(a, pat, b, by, i + 1);
        assert(a.skip(i) + by + b =~= seq![s[i]] + (a.skip(i + 1) + by + b));
    } else {
        assert(s.subrange(i, i + pat.len()) =~= pat);
        let j = i + pat.len();
        assert forall|k: int| j <= k < s.len() implies s[k] != '$' by {
            assert(b.contains(b[k - j]));
        }
        lemma_replaced_after(s, pat, by, j);
        assert(s.skip(j) =~= b);
        assert(a.skip(i) + by + b =~= by + b);
    }
}

pub proof fn lemma_no_dollar(a: Seq<char>, b: Seq<char>, c: Seq<char>)
    requires
        !a.contains('$'),
        !b.contains('$'),
        !c.contains('$'),
    ensures
        !(a + b + c).contains('$'),
{
    let s = a + b + c;
    if s.contains('$') {
        let k = choose|k: int| 0 <= k < s.len() && s[k] == '$';
        if k < a.len() {
            assert(a.contains(a[k]));
        } else if k < a.len() + b.len() {
            assert(b.contains(b[k - a.len()]));
        } else {
            assert(c.contains(c[k - a.len() - b.len()]));
        }
    }
}

/// A text without a dollar sign holds no reference.
pub proof fn lemma_no_reference(s: Seq<char>)
    requires
        !s.contains('$'),
    ensures
        !occurs(s, "${"@),
{
    reveal_strlit("${");
    if occurs(s, "${"@) {
        let k = choose|k: int| stands_at(s, "${"@, k);
        assert(s.subrange(k, k + 2)[0] == s[k]);
        assert(s.contains(s[k]));
    }
}

/// A reference to the workspace folder on the host is replaced wherever it stands in a value, and the
/// rest of the value stays.
pub proof fn law_folder_reference_within(
    before: Seq<char>,
    after: Seq<char>,
    workspace: Workspace,
    target: Seq<char>,
    host: Seq<(Seq<char>, Seq<char>)>,
)
    requires
        !before.contains('$'),
        !after.contains('$'),
        !workspace.folder@.contains('$'),
    ensures
        expanded(before + "${localWorkspaceFolder}"@ + after, workspace, target, host) == before
            + workspace.folder@ + after,
{
    reveal_strlit("${localWorkspaceFolder}");
    reveal_strlit("${localWorkspaceFolderBasename}");
    reveal_strlit("${containerWorkspaceFolder}");
    reveal_strlit("${containerWorkspaceFolderBasename}");
    let pat = "${localWorkspaceFolder}"@;
    let plain = before + workspace.folder@ + after;
    lemma_replaced_within(before, pat, after, workspace.folder@, 0);
    assert(before.skip(0) =~= before);
    lemma_no_dollar(before, workspace.folder@, after);
    lemma_no_reference(plain);
    lemma_absent(plain, "${localWorkspaceFolderBasename}"@);
    lemma_untouched(plain, "${localWorkspaceFolderBasename}"@, workspace.base());
    lemma_absent(plain, "${containerWorkspaceFolder}"@);
    lemma_untouched(plain, "${containerWorkspaceFolder}"@, target);
    lemma_absent(plain, "${containerWorkspaceFolderBasename}"@);
    lemma_untouched(plain, "${containerWorkspaceFolderBasename}"@, container_base(target));
    lemma_plain_tail(plain, workspace, host);
}

/// A closed reference alone that does not begin with the tag stays.
proof fn lemma_other_reference(
    s: Seq<char>,
    tag: Seq<char>,
    host: Seq<(Seq<char>, Seq<char>)>,
)
    requires
        s.len() > 2,
        opens(s, 0),
        s.last() == '}',
        forall|k: int| 2 <= k < s.len() - 1 ==> s[k] != '}',
        !begins_with(s.subrange(2, s.len() - 1), tag),
    ensures
        env_expanded(s, tag, host, 0) == s,
{
    lemma_seek_is(s, '}', 2, s.len() - 1);
    assert(s.subrange(0, s.len() as int) =~= s);
    assert(env_expanded(s, tag, host, s.len() as int) =~= Seq::empty());
    assert(s + Seq::<char>::empty() =~= s);
}

/// Whether the text holds a reference to one of the workspace folders.
pub open spec fn refers_to_folder(s: Seq<char>) -> bool {
    occurs(s, "${localWorkspaceFolder}"@) || occurs(s, "${localWorkspaceFolderBasename}"@) || occurs(
        s,
        "${containerWorkspaceFolder}"@,
    ) || occurs(s, "${containerWorkspaceFolderBasename}"@)
}

proof fn lemma_no_folder(s: Seq<char>, workspace: Workspace, target: Seq<char>)
    requires
        !refers_to_folder(s),
    ensures
        folders_expanded(s, workspace, target) == s,
{
    lemma_untouched(s, "${localWorkspaceFolder}"@, workspace.folder@);
    lemma_untouched(s, "${localWorkspaceFolderBasename}"@, workspace.base());
    lemma_untouched(s, "${containerWorkspaceFolder}"@, target);
    lemma_untouched(s, "${containerWorkspaceFolderBasename}"@, container_base(target));
}

/// What a reference to a variable stands for: its value on the host, or the default.
pub open spec fn value_or(
    name: Seq<char>,
    default: Seq<char>,
    host: Seq<(Seq<char>, Seq<char>)>,
) -> Seq<char> {
    match lookup(host, name) {
        Some(v) => v,
        None => default,
    }
}

/// A value that is nothing but a reference to a variable, with or without a default, expands to the
/// variable's value on the host, or else to the default. This holds of `${localEnv:...}` where no
/// reference opens in what it stands for, and of `${containerEnv:...}` where that does not refer to
/// the workspace identifier; a reference to a workspace folder within the reference is replaced
/// before it.
pub proof fn law_variable_references(
    name: Seq<char>,
    default: Seq<char>,
    workspace: Workspace,
    target: Seq<char>,
    host: Seq<(Seq<char>, Seq<char>)>,
)
    requires
        !name.contains(':'),
        !name.contains('}'),
    ensures
        ({
            let text = "${localEnv:"@ + name + "}"@;
            let value = value_or(name, Seq::empty(), host);
            !refers_to_folder(text) && !occurs(value, "${"@) ==> expanded(
                text,
                workspace,
                target,
                host,
            ) == value
        }),
        ({
            let text = "${localEnv:"@ + name + ":"@ + default + "}"@;
            let value = value_or(name, default, host);
            !default.contains('}') && !refers_to_folder(text) && !occurs(value, "${"@) ==> expanded(
                text,
                workspace,
                target,
                host,
            ) == value
        }),
        ({
            let text = "${containerEnv:"@ + name + "}"@;
            let value = value_or(name, Seq::empty(), host);
            !refers_to_folder(text) && !occurs(value, "${devcontainerId}"@) ==> expanded(
                text,
                workspace,
                target,
                host,
            ) == value
        }),
        ({
            let text = "${containerEnv:"@ + name + ":"@ + default + "}"@;
            let value = value_or(name, default, host);
            !default.contains('}') && !refers_to_folder(text) && !occurs(
                value,
                "${devcontainerId}"@,
            ) ==> expanded(text, workspace, target, host) == value
        }),
{
    lemma_defaulted(name, default, host);
    lemma_variable_reference(true, name, workspace, target, host);
    lemma_variable_reference(false, name, workspace, target, host);
    let rest = name + ":"@ + default;
    if !default.contains('}') {
        lemma_variable_reference(true, rest, workspace, target, host);
        lemma_variable_reference(false, rest, workspace, target, host);
    }
    assert("${localEnv:"@ + name + ":"@ + default + "}"@ =~= "${localEnv:"@ + rest + "}"@);
    assert("${containerEnv:"@ + name + ":"@ + default + "}"@ =~= "${containerEnv:"@ + rest + "}"@);
}

/// The name and the default are told apart at the colon.
proof fn lemma_defaulted(
    name: Seq<char>,
    default: Seq<char>,
    host: Seq<(Seq<char>, Seq<char>)>,
)
    requires
        !name.contains(':'),
    ensures
        env_value(name, host) == value_or(name, Seq::empty(), host),
        env_value(name + ":"@ + default, host) == value_or(name, default, host),
        forall|c: char|
            c != ':' && !name.contains(c) && !default.contains(c) ==> !#[trigger] (name + ":"@
                + default).contains(c),
{
    reveal_strlit(":");
    let rest = name + ":"@ + default;
    lemma_seek_none(name, ':', 0);
    assert forall|k: int| 0 <= k < name.len() implies rest[k] != ':' by {
        assert(name.contains(name[k]));
    }
    lemma_seek_is(rest, ':', 0, name.len() as int);
    assert(rest.take(name.len() as int) =~= name);
    assert(rest.skip((name.len() + 1) as int) =~= default);
    assert forall|c: char| c != ':' && !name.contains(c) && !default.contains(c) implies !#[trigger] (
    name + ":"@ + default).contains(c) by {
        lemma_no_char(":"@, default, c);
        lemma_no_char(name, ":"@ + default, c);
        assert(rest =~= name + (":"@ + default));
    }
}

proof fn lemma_no_char(a: Seq<char>, b: Seq<char>, c: char)
    requires
        !a.contains(c),
        !b.contains(c),
    ensures
        !(a + b).contains(c),
{
    if (a + b).contains(c) {
        let k = choose|k: int| 0 <= k < (a + b).len() && (a + b)[k] == c;
        if k < a.len() {
            assert(a.contains(a[k]));
        } else {
            assert(b.contains(b[k - a.len()]));
        }
    }
}

/// How a reference to a variable of the host, or of the container, begins.
spec fn reference_start(local: bool) -> Seq<char> {
    if local {
        "${localEnv:"@
    } else {
        "${containerEnv:"@
    }
}

/// What stands between the start and the end of a reference is looked up.
proof fn lemma_variable_reference(
    local: bool,
    rest: Seq<char>,
    workspace: Workspace,
    target: Seq<char>,
    host: Seq<(Seq<char>, Seq<char>)>,
)
    requires
        !rest.contains('}'),
    ensures
        ({
            let text = reference_start(local) + rest + "}"@;
            let value = env_value(rest, host);
            !refers_to_folder(text) && !occurs(
                value,
                if local {
                    "${"@
                } else {
                    "${devcontainerId}"@
                },
            ) ==> expanded(text, workspace, target, host) == value
        }),
{
    reveal_strlit("localEnv");
    reveal_strlit("containerEnv");
    reveal_strlit("${localEnv:");
    reveal_strlit("${containerEnv:");
    reveal_strlit("${");
    reveal_strlit("}");
    reveal_strlit(":");
    let tag = if local {
        "localEnv"@ + ":"@
    } else {
        "containerEnv"@ + ":"@
    };
    let start = reference_start(local);
    let s = start + rest + "}"@;
    assert("${"@ + tag =~= start);
    assert(!tag.contains('}'));
    assert(s[0] == '$' && s[1] == '{');
    assert forall|k: int| 2 <= k < s.len() - 1 implies s[k] != '}' by {
        if k >= start.len() {
            assert(rest.contains(rest[k - start.len()]));
        }
    }
    lemma_sole_reference(tag, rest, host);
    let value = env_value(rest, host);
    assert(value.skip(0) =~= value);
    reveal_strlit("${devcontainerId}");
    if !refers_to_folder(s) {
        lemma_no_folder(s, workspace, target);
        if local {
            if !occurs(value, "${"@) {
                lemma_env_plain(value, "containerEnv"@, host, 0);
                lemma_absent(value, "${devcontainerId}"@);
                lemma_untouched(value, "${devcontainerId}"@, workspace_id(workspace.folder@));
            }
        } else {
            let inner = s.subrange(2, s.len() - 1);
            if begins_with(inner, "localEnv"@ + ":"@) {
                assert(inner.subrange(0, 9)[0] == s[2]);
                assert(("localEnv"@ + ":"@)[0] == 'l');
            }
            lemma_other_reference(s, "localEnv"@ + ":"@, host);
            if !occurs(value, "${devcontainerId}"@) {
                lemma_untouched(value, "${devcontainerId}"@, workspace_id(workspace.folder@));
            }
        }
    }
}

/// The reference to the workspace identifier expands to it.
pub proof fn law_identifier_reference(
    workspace: Workspace,
    target: Seq<char>,
    host: Seq<(Seq<char>, Seq<char>)>,
)
    ensures
        expanded("${devcontainerId}"@, workspace, target, host) == workspace_id(workspace.folder@),
{
    reveal_strlit("${devcontainerId}");
    reveal_strlit("localEnv");
    reveal_strlit("containerEnv");
    reveal_strlit(":");
    let s = "${devcontainerId}"@;
    reveal_strlit("${localWorkspaceFolder}");
    reveal_strlit("${localWorkspaceFolderBasename}");
    reveal_strlit("${containerWorkspaceFolder}");
    reveal_strlit("${containerWorkspaceFolderBasename}");
    lemma_front_only(s, "${localWorkspaceFolder}"@);
    lemma_front_only(s, "${localWorkspaceFolderBasename}"@);
    lemma_front_only(s, "${containerWorkspaceFolder}"@);
    lemma_front_only(s, "${containerWorkspaceFolderBasename}"@);
    lemma_no_folder(s, workspace, target);
    let inner = s.subrange(2, s.len() - 1);
    if begins_with(inner, "localEnv"@ + ":"@) {
        assert(inner.subrange(0, 9)[0] == s[2]);
        assert(("localEnv"@ + ":"@)[0] == 'l');
    }
    if begins_with(inner, "containerEnv"@ + ":"@) {
        assert(inner.subrange(0, 13)[0] == s[2]);
        assert(("containerEnv"@ + ":"@)[0] == 'c');
    }
    lemma_other_reference(s, "localEnv"@ + ":"@, host);
    lemma_other_reference(s, "containerEnv"@ + ":"@, host);
    lemma_replaced_whole(s, workspace_id(workspace.folder@));
}

/// References to the entries of `containerEnv` that refer to themselves, and to names that it does
/// not have, are left as they are.
pub proof fn law_unresolved_references_stay(
    s: Seq<char>,
    raw: Seq<(Seq<char>, Seq<char>)>,
    rounds: nat,
)
    requires
        forall|i: int|
            0 <= i < raw.len() ==> self_referential(raw[i].0, #[trigger] raw[i].1)
                || !entry_referred(s, raw[i].0, raw[i].1),
    ensures
        env_resolved(s, raw, rounds) == s,
{
    if rounds > 0 {
        lemma_round_stays(s, raw, raw.len() as int);
    }
}

proof fn lemma_round_stays(s: Seq<char>, raw: Seq<(Seq<char>, Seq<char>)>, n: int)
    requires
        0 <= n <= raw.len(),
        forall|i: int|
            0 <= i < raw.len() ==> self_referential(raw[i].0, #[trigger] raw[i].1)
                || !entry_referred(s, raw[i].0, raw[i].1),
    ensures
        round_resolved(s, raw, n) == s,
        !round_changed(s, raw, n),
    decreases n,
{
    if n > 0 {
        lemma_round_stays(s, raw, n - 1);
        let (key, value) = raw[n - 1];
        if !self_referential(key, value) {
            assert(!entry_referred(s, key, raw[n - 1].1));
            reveal_strlit("${containerEnv:");
            lemma_replaced_absent(s, plain_reference(key), value, 0);
            assert(s.skip(0) =~= s);
            lemma_defaults_absent(s, default_reference(key), value);
        }
    }
}

/// A text whose only dollar sign stands at a certain place holds a pattern that begins with one there or
/// nowhere.
proof fn lemma_only_at(s: Seq<char>, pat: Seq<char>, at: int)
    requires
        pat.len() > 0,
        pat[0] == '$',
        forall|k: int| 0 <= k < s.len() && k != at ==> s[k] != '$',
        !stands_at(s, pat, at),
    ensures
        !occurs(s, pat),
{
    if occurs(s, pat) {
        let k = choose|k: int| stands_at(s, pat, k);
        assert(s.subrange(k, k + pat.len())[0] == s[k]);
        assert(k == at);
    }
}

proof fn lemma_dollar_free(s: Seq<char>, pat: Seq<char>)
    requires
        !s.contains('$'),
        pat.len() > 0,
        pat[0] == '$',
    ensures
        !occurs(s, pat),
{
    if occurs(s, pat) {
        let k = choose|k: int| stands_at(s, pat, k);
        assert(s.subrange(k, k + pat.len())[0] == s[k]);
        assert(s.contains(s[k]));
    }
}

/// A reference to an entry of `containerEnv` is replaced by the entry's value wherever it stands, with or
/// without a default, and the rest of the text stays.
pub proof fn law_entry_references(
    before: Seq<char>,
    key: Seq<char>,
    default: Seq<char>,
    value: Seq<char>,
    after: Seq<char>,
)
    requires
        !before.contains('$'),
        !after.contains('$'),
        !value.contains('$'),
        !default.contains('$') && !default.contains('}'),
        !key.contains('$') && !key.contains('}'),
    ensures
        ({
            let plain = before + ("${containerEnv:"@ + key + "}"@) + after;
            let defaulted = before + ("${containerEnv:"@ + key + ":"@) + default + "}"@ + after;
            let goal = before + value + after;
            let one = seq![(key, value)];
            &&& entry_resolved(plain, key, value) == goal
            &&& entry_resolved(defaulted, key, value) == goal
            &&& env_resolved(plain, one, 10) == goal
            &&& env_resolved(defaulted, one, 10) == goal
            &&& map_resolved(plain, one, None, 1) == goal
            &&& map_resolved(defaulted, one, None, 1) == goal
            &&& map_resolved(plain, one, Some(key), 1) == plain
        }),
{
    reveal_strlit("${containerEnv:");
    reveal_strlit("}");
    reveal_strlit(":");
    let pat = plain_reference(key);
    let open = default_reference(key);
    let plain = before + pat + after;
    let defaulted = before + open + default + "}"@ + after;
    let goal = before + value + after;
    let one = seq![(key, value)];
    lemma_no_dollar(before, value, after);
    lemma_dollar_free(goal, open);
    lemma_dollar_free(goal, pat);
    lemma_dollar_free(value, open);
    lemma_dollar_free(value, pat);

    lemma_replaced_within(before, pat, after, value, 0);
    assert(before.skip(0) =~= before);
    lemma_defaults_absent(goal, open, value);
    assert(entry_resolved(plain, key, value) == goal);
    assert(plain.subrange(before.len() as int, before.len() as int + pat.len()) =~= pat);
    assert(stands_at(plain, pat, before.len() as int));

    let at = before.len() as int;
    let end = at + open.len() + default.len();
    assert(defaulted.subrange(at, at + open.len()) =~= open);
    assert(stands_at(defaulted, open, at));
    assert forall|k: int| 0 <= k < defaulted.len() && k != at implies defaulted[k] != '$' by {
        if k < at {
            assert(before.contains(before[k]));
        } else if k < at + open.len() {
            let j = k - at;
            if j >= 15 && j < 15 + key.len() {
                assert(open[j] == key[j - 15]);
                assert(key.contains(key[j - 15]));
            }
        } else if k < end {
            assert(default.contains(default[k - at - open.len()]));
        } else if k > end {
            assert(after.contains(after[k - end - 1]));
        }
    }
    if stands_at(defaulted, pat, at) {
        let j = 15 + key.len() as int;
        assert(defaulted.subrange(at, at + pat.len())[j] == pat[j]);
        assert(defaulted[at + j] == open[j]);
    }
    lemma_only_at(defaulted, pat, at);
    lemma_replaced_absent(defaulted, pat, value, 0);
    assert(defaulted.skip(0) =~= defaulted);
    lemma_seek_pat(defaulted, open, 0);
    assert(seek_pat(defaulted, open, 0) == at) by {
        let k = seek_pat(defaulted, open, 0);
        if k < defaulted.len() {
            assert(defaulted.subrange(k, k + open.len())[0] == defaulted[k]);
        }
    }
    assert forall|k: int| at + open.len() <= k < end implies defaulted[k] != '}' by {
        assert(default.contains(default[k - at - open.len()]));
    }
    lemma_seek_is(defaulted, '}', at + open.len(), end);
    lemma_seek_pat(defaulted, open, end + 1);
    assert(seek_pat(defaulted, open, end + 1) == defaulted.len()) by {
        let k = seek_pat(defaulted, open, end + 1);
        if k < defaulted.len() {
            assert(defaulted.subrange(k, k + open.len())[0] == defaulted[k]);
        }
    }
    assert(defaulted.skip(end + 1) =~= after);
    assert(defaulted.subrange(0, at) =~= before);
    assert(defaults_replaced(defaulted, open, value, end + 1) == after);
    assert(defaults_replaced(defaulted, open, value, 0) == before + value + after);
    assert(entry_resolved(defaulted, key, value) == goal);
    lemma_replaced_absent(goal, pat, value, 0);
    assert(goal.skip(0) =~= goal);

    lemma_round_of_one(plain, key, value, goal);
    lemma_round_of_one(defaulted, key, value, goal);
    assert(map_resolved(plain, one, None, 0) == plain);
    assert(map_resolved(defaulted, one, None, 0) == defaulted);
    assert(map_resolved(plain, one, Some(key), 0) == plain);
}

proof fn lemma_round_of_one(s: Seq<char>, key: Seq<char>, value: Seq<char>, goal: Seq<char>)
    requires
        !self_referential(key, value),
        entry_referred(s, key, value),
        entry_resolved(s, key, value) == goal,
        !entry_referred(goal, key, value),
    ensures
        env_resolved(s, seq![(key, value)], 10) == goal,
{
    let one = seq![(key, value)];
    assert(round_resolved(s, one, 0) == s);
    assert(round_resolved(s, one, 1) == goal);
    assert(round_changed(s, one, 1));
    assert forall|i: int| 0 <= i < one.len() implies self_referential(one[i].0, #[trigger] one[i].1)
        || !entry_referred(goal, one[i].0, one[i].1) by {
        assert(i == 0);
    }
    law_unresolved_references_stay(goal, one, 9);
}

proof fn lemma_env_skips(
    s: Seq<char>,
    tag: Seq<char>,
    host: Seq<(Seq<char>, Seq<char>)>,
    i: int,
    j: int,
)
    requires
        0 <= i <= j <= s.len(),
        forall|k: int| i <= k < j ==> s[k] != '$',
    ensures
        env_expanded(s, tag, host, i) == s.subrange(i, j) + env_expanded(s, tag, host, j),
    decreases j - i,
{
    if i < j {
        lemma_env_skips(s, tag, host, i + 1, j);
        assert(s.subrange(i, j) + env_expanded(s, tag, host, j) =~= seq![s[i]] + (s.subrange(
            i + 1,
            j,
        ) + env_expanded(s, tag, host, j)));
    } else {
        assert(s.subrange(i, j) + env_expanded(s, tag, host, j) =~= env_expanded(s, tag, host, j));
    }
}

/// A reference to a variable of the host is replaced by the variable's value wherever it stands, or by
/// nothing where the variable is not set, and the rest of the text stays.
pub proof fn law_variable_reference_within(
    before: Seq<char>,
    name: Seq<char>,
    after: Seq<char>,
    workspace: Workspace,
    target: Seq<char>,
    host: Seq<(Seq<char>, Seq<char>)>,
)
    requires
        !before.contains('$'),
        !after.contains('$'),
        !name.contains('$') && !name.contains('}') && !name.contains(':'),
        !value_or(name, Seq::empty(), host).contains('$'),
    ensures
        expanded(before + ("${localEnv:"@ + name + "}"@) + after, workspace, target, host) == before
            + value_or(name, Seq::empty(), host) + after,
{
    reveal_strlit("${localEnv:");
    reveal_strlit("localEnv");
    reveal_strlit("containerEnv");
    reveal_strlit(":");
    reveal_strlit("}");
    reveal_strlit("${localWorkspaceFolder}");
    reveal_strlit("${localWorkspaceFolderBasename}");
    reveal_strlit("${containerWorkspaceFolder}");
    reveal_strlit("${containerWorkspaceFolderBasename}");
    let inner = "${localEnv:"@ + name + "}"@;
    let s = before + inner + after;
    let at = before.len() as int;
    let end = at + inner.len() - 1;
    let value = value_or(name, Seq::empty(), host);
    let goal = before + value + after;
    let tag = "localEnv"@ + ":"@;
    assert forall|k: int| 0 <= k < s.len() && k != at implies s[k] != '$' by {
        if k < at {
            assert(before.contains(before[k]));
        } else if k <= end {
            let j = k - at;
            if 11 <= j < 11 + name.len() {
                assert(inner[j] == name[j - 11]);
                assert(name.contains(name[j - 11]));
            }
        } else {
            assert(after.contains(after[k - end - 1]));
        }
    }
    lemma_not_there(s, "${localWorkspaceFolder}"@, at, 7);
    lemma_not_there(s, "${localWorkspaceFolderBasename}"@, at, 7);
    lemma_not_there(s, "${containerWorkspaceFolder}"@, at, 2);
    lemma_not_there(s, "${containerWorkspaceFolderBasename}"@, at, 2);
    lemma_no_folder(s, workspace, target);

    lemma_env_skips(s, tag, host, 0, at);
    assert(s.subrange(0, at) =~= before);
    assert forall|k: int| at + 2 <= k < end implies s[k] != '}' by {
        let j = k - at;
        if j >= 11 {
            assert(inner[j] == name[j - 11]);
            assert(name.contains(name[j - 11]));
        }
    }
    assert(s[end] == '}');
    lemma_seek_is(s, '}', at + 2, end);
    let content = s.subrange(at + 2, end);
    assert(content =~= tag + name);
    assert(content.subrange(0, tag.len() as int) =~= tag);
    assert(content.skip(tag.len() as int) =~= name);
    assert(opens(s, at));
    assert(refers(s, tag, at));
    lemma_seek_none(name, ':', 0);
    assert(env_value(name, host) == value);
    lemma_env_skips(s, tag, host, end + 1, s.len() as int);
    assert(s.subrange(end + 1, s.len() as int) =~= after);
    assert(env_expanded(s, tag, host, s.len() as int) =~= Seq::empty());
    assert(local_expanded(s, host) =~= goal);
    lemma_no_dollar(before, value, after);
    lemma_no_reference(goal);
    lemma_after_local(goal, workspace, host);
}

proof fn lemma_not_there(s: Seq<char>, pat: Seq<char>, at: int, j: int)
    requires
        0 <= j < pat.len(),
        pat[0] == '$',
        forall|k: int| 0 <= k < s.len() && k != at ==> s[k] != '$',
        0 <= at && at + j < s.len(),
        s[at + j] != pat[j],
    ensures
        !occurs(s, pat),
{
    if stands_at(s, pat, at) {
        assert(s.subrange(at, at + pat.len())[j] == pat[j]);
    }
    lemma_only_at(s, pat, at);
}

proof fn lemma_after_local(s: Seq<char>, workspace: Workspace, host: Seq<(Seq<char>, Seq<char>)>)
    requires
        !occurs(s, "${"@),
    ensures
        id_expanded(container_expanded(s, host), workspace.folder@) == s,
{
    reveal_strlit("${devcontainerId}");
    assert(s.skip(0) =~= s);
    lemma_env_plain(s, "containerEnv"@, host, 0);
    lemma_absent(s, "${devcontainerId}"@);
    lemma_untouched(s, "${devcontainerId}"@, workspace_id(workspace.folder@));
}

} // verus!
