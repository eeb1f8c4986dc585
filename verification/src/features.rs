//! Features: their options, what they ask of the container, and the order in which they come.

use vstd::prelude::*;
use vstd::string::*;

use crate::config::{DevContainerConfig, MountObject, MountValue};
use crate::docker::{join, joined};
use crate::json::{
    elements, field, find_member, group_json, json_text, members, opt_json, opt_model, parsed_text,
    plain_text, put_member, same_json, scalar_text, string_items, strings_of, well_formed, Json,
    JsonView,
};
use crate::maps::{
    defaulted_all, distinct_keys, has_key, inserted, inserted_all, key_index, lemma_has_key,
    lemma_inserted_all, lemma_inserted_lookup, lemma_key_index, lookup, EnvMap,
};
use crate::notes::{no_notes, Note, NoteView, Notes};
use crate::numbers::{fnv1a, hash_text, hex, hex_text, lemma_hex_len};
use crate::order::{
    lemma_ascending_unique, lemma_sorted_ascending, lemma_sorted_contains, sort_texts, sorted,
};
use crate::text::{chars_of, is_alnum, is_ascii_alnum, is_digit, opt_str, opt_text};
use crate::texts::{added, added_all, all_distinct, lemma_added_all, texts, Texts};
use crate::walk::{
    all_in, depends, law_dependencies_come_first, law_walk_depends_on_entries_only,
    law_walk_finishes_each_once, law_walk_is_closed, law_walk_stays_inside, steps_of, steps_view,
    table_view, targets_in, walk_of, Step, StepView, Table,
};
use vstd::utf8::encode_utf8;

verus! {

// ---------------------------------------------------------------------------------------------
// Names

/// The part of a directory name by which a feature can be recognised.
pub open spec fn readable_id(id: Seq<char>) -> Seq<char> {
    Seq::new(
        id.len(),
        |i: int|
            if is_alnum(id[i]) {
                id[i]
            } else if id[i] == '/' {
                '-'
            } else {
                '_'
            },
    )
}

/// The directory name of a feature: its readable form and half of its hash.
pub open spec fn directory_of(id: Seq<char>) -> Seq<char> {
    readable_id(id) + "-"@ + hex_text(fnv1a(encode_utf8(id)) as nat, 8)
}

pub fn sanitize_id(id: &str) -> (res: String)
    ensures
        res@ == directory_of(id@),
{
    let v = chars_of(id);
    let mut readable = String::new();
    let mut i: usize = 0;
    while i < v.len()
        invariant
            v@ == id@,
            i <= v@.len(),
            readable@ == readable_id(id@).take(i as int),
        decreases v@.len() - i,
    {
        let c = v[i];
        if c.is_alphanumeric() {
            readable.push(c);
        } else if c == '/' {
            readable.push('-');
        } else {
            readable.push('_');
        }
        assert(readable_id(id@).take(i + 1) =~= readable_id(id@).take(i as int).push(
            readable_id(id@)[i as int],
        ));
        i = i + 1;
    }
    assert(readable_id(id@).take(i as int) =~= readable_id(id@));
    let suffix = hex(hash_text(id), 8);
    readable.concat("-").concat(suffix.as_str())
}

pub open spec fn word_char(c: char) -> char {
    if is_ascii_alnum(c) || c == '_' {
        c
    } else {
        '_'
    }
}

pub open spec fn upper_char(c: char) -> char {
    if 'a' <= c <= 'z' {
        ((c as int) - 32) as char
    } else {
        c
    }
}

/// The text without its leading digits and underscores.
pub open spec fn without_lead(s: Seq<char>) -> Seq<char>
    decreases s.len(),
{
    if s.len() > 0 && (is_digit(s[0]) || s[0] == '_') {
        without_lead(s.skip(1))
    } else {
        s
    }
}

/// The environment variable of an option: everything but letters and digits becomes an underscore,
/// a leading run of digits and underscores becomes a single one, and letters become capitals.
pub open spec fn option_variable(name: Seq<char>) -> Seq<char> {
    let mapped = Seq::new(name.len(), |i: int| word_char(name[i]));
    let rest = without_lead(mapped);
    let full = if rest.len() == mapped.len() {
        mapped
    } else {
        "_"@ + rest
    };
    Seq::new(full.len(), |i: int| upper_char(full[i]))
}

fn upper_of(c: char) -> (res: char)
    ensures
        res == upper_char(c),
{
    if 'a' <= c && c <= 'z' {
        let upper: u8 = (c as u8) - 32;
        upper as char
    } else {
        c
    }
}

pub fn option_env_name(name: &str) -> (res: String)
    ensures
        res@ == option_variable(name@),
{
    let v = chars_of(name);
    let ghost mapped = Seq::new(name@.len(), |i: int| word_char(name@[i]));
    let mut words: Vec<char> = Vec::new();
    let mut i: usize = 0;
    while i < v.len()
        invariant
            v@ == name@,
            i <= v@.len(),
            mapped == Seq::new(name@.len(), |i: int| word_char(name@[i])),
            words@ == mapped.take(i as int),
        decreases v@.len() - i,
    {
        let c = v[i];
        if ('a' <= c && c <= 'z') || ('A' <= c && c <= 'Z') || ('0' <= c && c <= '9') || c == '_' {
            words.push(c);
        } else {
            words.push('_');
        }
        assert(mapped.take(i + 1) =~= mapped.take(i as int).push(mapped[i as int]));
        i = i + 1;
    }
    assert(mapped.take(i as int) =~= mapped);
    let mut lead: usize = 0;
    assert(mapped.skip(0) =~= mapped);
    while lead < words.len() && (('0' <= words[lead] && words[lead] <= '9') || words[lead] == '_')
        invariant
            words@ == mapped,
            lead <= words@.len(),
            without_lead(mapped) == without_lead(mapped.skip(lead as int)),
        decreases words@.len() - lead,
    {
        assert(mapped.skip(lead as int).skip(1) =~= mapped.skip(lead + 1));
        lead = lead + 1;
    }
    let ghost rest = mapped.skip(lead as int);
    assert(without_lead(mapped) == rest);
    let ghost full = if rest.len() == mapped.len() {
        mapped
    } else {
        "_"@ + rest
    };
    let ghost goal = Seq::new(full.len(), |i: int| upper_char(full[i]));
    let mut out = String::new();
    proof {
        reveal_strlit("_");
    }
    if lead > 0 {
        out.push('_');
    }
    let ghost extra: int = if lead > 0 {
        1
    } else {
        0
    };
    assert(out@ =~= goal.take(extra));
    assert(full.len() == extra + mapped.len() - lead);
    let mut k: usize = lead;
    while k < words.len()
        invariant
            words@ == mapped,
            lead <= k <= words@.len(),
            extra == (if lead > 0 {
                1int
            } else {
                0int
            }),
            full.len() == extra + mapped.len() - lead,
            forall|j: int| lead <= j < mapped.len() ==> full[extra + j - lead] == #[trigger] mapped[j],
            goal == Seq::new(full.len(), |i: int| upper_char(full[i])),
            out@ == goal.take(extra + k - lead),
        decreases words@.len() - k,
    {
        assert(full[extra + k - lead] == mapped[k as int]);
        out.push(upper_of(words[k]));
        assert(goal.take(extra + k + 1 - lead) =~= goal.take(extra + k - lead).push(
            goal[extra + k - lead],
        ));
        k = k + 1;
    }
    assert(goal.take(extra + k - lead) =~= goal);
    out
}

/// Whether an identifier can be that of a feature.
pub open spec fn plausible_id(id: Seq<char>) -> bool {
    id.contains('/') || id.contains('.')
}

// ---------------------------------------------------------------------------------------------
// Options and metadata

/// The metadata of a feature from the contents of its two possible files: the first one that is
/// there and is a JSON document.
pub open spec fn metadata_of(singular: Option<Seq<char>>, plural: Option<Seq<char>>) -> Option<
    JsonView,
> {
    match singular {
        Some(s) if parsed_text(s) is Some => parsed_text(s),
        _ => match plural {
            Some(p) => parsed_text(p),
            None => None,
        },
    }
}

/// Reads the metadata of a feature from the contents of `devcontainer-feature.json` and of
/// `devcontainer-features.json`, where these can be read.
pub fn read_feature_metadata(singular: Option<&str>, plural: Option<&str>) -> (res: Option<Json>)
    ensures
        opt_model(res) == metadata_of(opt_str(singular), opt_str(plural)),
{
    if let Some(s) = singular {
        let value = Json::parse(s);
        if value.is_some() {
            return value;
        }
    }
    match plural {
        Some(p) => Json::parse(p),
        None => None,
    }
}

/// The options of a feature: a string stands for the option `version`.
pub open spec fn effective_opts(opts: JsonView) -> JsonView {
    match opts {
        JsonView::String(s) => JsonView::Object(seq![("version"@, JsonView::String(s))]),
        _ => opts,
    }
}

pub open spec fn opts_notes(id: Seq<char>, opts: JsonView) -> Seq<NoteView> {
    match opts {
        JsonView::String(_) => no_notes(),
        JsonView::Object(_) => no_notes(),
        JsonView::Null => no_notes(),
        _ => seq![NoteView::Warning(
            "Warning: feature '"@ + id + "' options must be an object, got "@ + json_text(opts)
                + "; ignoring options"@,
        )],
    }
}

pub fn effective_feature_opts(id: &str, opts: &Json, notes: &mut Notes) -> (res: Json)
    ensures
        res@ == effective_opts(opts@),
        final(notes)@ == old(notes)@ + opts_notes(id@, opts@),
{
    broadcast use group_json;

    assert(notes@ + no_notes() =~= notes@);
    match opts {
        Json::String(s) => {
            let mut m: Vec<(String, Json)> = Vec::new();
            m.push(("version".to_owned(), Json::String(s.clone())));
            assert(members(m@) =~= seq![("version"@, JsonView::String(s@))]);
            Json::Object(m)
        },
        Json::Object(_) => opts.copy(),
        Json::Null => Json::Null,
        _ => {
            let text = opts.text();
            notes.warn(
                "Warning: feature '".to_owned().concat(id).concat(
                    "' options must be an object, got ",
                ).concat(text.as_str()).concat("; ignoring options"),
            );
            assert(notes@ =~= old(notes)@ + opts_notes(id@, opts@));
            opts.copy()
        },
    }
}

/// The options that a feature declares in its metadata.
pub open spec fn declared_options(meta: Option<JsonView>) -> Option<Seq<(Seq<char>, JsonView)>> {
    match meta {
        Some(m) => match field(m, "options"@) {
            Some(JsonView::Object(o)) => Some(o),
            _ => None,
        },
        None => None,
    }
}

/// The options after the defaults of the first `n` declared ones were filled in. A given option
/// stays, and one without a default is left unset.
pub open spec fn with_defaults(
    given: Seq<(Seq<char>, JsonView)>,
    declared: Seq<(Seq<char>, JsonView)>,
    n: int,
) -> Seq<(Seq<char>, JsonView)>
    decreases n,
{
    if n <= 0 || n > declared.len() {
        given
    } else {
        let before = with_defaults(given, declared, n - 1);
        let (name, spec) = declared[n - 1];
        match field(spec, "default"@) {
            Some(JsonView::Null) => before,
            Some(default) => if has_key(before, name) {
                before
            } else {
                inserted(before, name, default)
            },
            None => before,
        }
    }
}

pub open spec fn defaults_merged(opts: JsonView, meta: Option<JsonView>) -> JsonView {
    match declared_options(meta) {
        None => opts,
        Some(declared) => JsonView::Object(
            with_defaults(
                match opts {
                    JsonView::Object(m) => m,
                    _ => Seq::empty(),
                },
                declared,
                declared.len() as int,
            ),
        ),
    }
}

/// Fills in the defaults that the metadata declares for options that were not given.
pub fn merge_feature_option_defaults(opts: &Json, meta: Option<&Json>) -> (res: Json)
    ensures
        res@ == defaults_merged(opts@, opt_json(meta)),
{
    broadcast use group_json;

    let options = match meta {
        Some(m) => m.get("options"),
        None => None,
    };
    match options {
        Some(Json::Object(declared)) => {
            let ghost decl = members(declared@);
            assert(declared_options(opt_json(meta)) == Some(decl));
            let mut merged: Vec<(String, Json)> = Vec::new();
            if let Json::Object(_) = opts {
                if let Json::Object(m) = opts.copy() {
                    merged = m;
                }
            }
            let ghost given = match opts@ {
                JsonView::Object(m) => m,
                _ => Seq::empty(),
            };
            assert(members(merged@) =~= given);
            let mut i: usize = 0;
            while i < declared.len()
                invariant
                    i <= declared@.len(),
                    decl == members(declared@),
                    members(merged@) == with_defaults(given, decl, i as int),
                decreases declared@.len() - i,
            {
                let name = declared[i].0.as_str();
                assert(decl[i as int] == (declared@[i as int].0@, declared@[i as int].1@));
                let at: usize = find_member(&merged, name);
                if at >= merged.len() {
                    if let Some(default) = declared[i].1.get("default") {
                        match default {
                            Json::Null => {},
                            _ => {
                                put_member(&mut merged, name, default.copy());
                            },
                        }
                    }
                }
                i = i + 1;
            }
            Json::Object(merged)
        },
        _ => opts.copy(),
    }
}

/// How Rust's `Debug` writes a text: in quotes, with escapes.
pub uninterp spec fn quoted(s: Seq<char>) -> Seq<char>;

/// The `Debug` form of a `str`.
#[verifier::external_body]
pub(crate) fn quote(s: &str) -> (res: String)
    ensures
        res@ == quoted(s@),
{
    format!("{s:?}")
}

/// The texts in quotes, in brackets and with commas in between.
pub open spec fn listed(v: Seq<Seq<char>>) -> Seq<char> {
    "["@ + joined(Seq::new(v.len(), |i: int| quoted(v[i])), ", "@) + "]"@
}

pub fn list_texts(v: &Texts) -> (res: String)
    ensures
        res@ == listed(v@),
{
    let mut out = Texts::new();
    let ghost all = Seq::new(v@.len(), |i: int| quoted(v@[i]));
    let mut i: usize = 0;
    while i < v.len()
        invariant
            i <= v@.len(),
            all == Seq::new(v@.len(), |i: int| quoted(v@[i])),
            out@ == all.take(i as int),
        decreases v@.len() - i,
    {
        out.push(quote(v.get(i)));
        assert(all.take(i + 1) =~= all.take(i as int).push(all[i as int]));
        i = i + 1;
    }
    assert(all.take(i as int) =~= all);
    let inner = join(&out, ", ");
    "[".to_owned().concat(inner.as_str()).concat("]")
}

pub open spec fn plain_texts(v: Seq<JsonView>) -> Seq<Seq<char>> {
    Seq::new(v.len(), |i: int| plain_text(v[i]))
}

/// String form of an option value.
pub fn option_value_string(value: &Json) -> (res: String)
    ensures
        res@ == plain_text(value@),
{
    value.plain()
}

fn plain_values(v: &Vec<Json>) -> (res: Texts)
    ensures
        res@ == plain_texts(elements(v@)),
{
    let mut out = Texts::new();
    let ghost all = plain_texts(elements(v@));
    let mut i: usize = 0;
    while i < v.len()
        invariant
            i <= v@.len(),
            all == plain_texts(elements(v@)),
            out@ == all.take(i as int),
        decreases v@.len() - i,
    {
        out.push(option_value_string(&v[i]));
        assert(all.take(i + 1) =~= all.take(i as int).push(all[i as int]));
        i = i + 1;
    }
    assert(all.take(i as int) =~= all);
    out
}

/// The message on one declared option, where the given value is not among the allowed ones.
pub open spec fn option_message(
    id: Seq<char>,
    given: Seq<(Seq<char>, JsonView)>,
    name: Seq<char>,
    spec: JsonView,
) -> Option<Seq<char>> {
    match (lookup(given, name), field(spec, "enum"@)) {
        (Some(value), Some(JsonView::Array(allowed))) => if plain_texts(allowed).contains(
            plain_text(value),
        ) {
            None
        } else {
            Some(
                "Warning: feature '"@ + id + "' option '"@ + name + "' value '"@ + plain_text(value)
                    + "' is not one of the allowed values "@ + listed(plain_texts(allowed)),
            )
        },
        _ => None,
    }
}

pub open spec fn option_messages(
    id: Seq<char>,
    given: Seq<(Seq<char>, JsonView)>,
    declared: Seq<(Seq<char>, JsonView)>,
    n: int,
) -> Seq<Seq<char>>
    decreases n,
{
    if n <= 0 || n > declared.len() {
        Seq::empty()
    } else {
        let before = option_messages(id, given, declared, n - 1);
        match option_message(id, given, declared[n - 1].0, declared[n - 1].1) {
            Some(m) => before.push(m),
            None => before,
        }
    }
}

pub open spec fn invalid_options(id: Seq<char>, opts: JsonView, meta: Option<JsonView>) -> Seq<
    Seq<char>,
> {
    match (opts, declared_options(meta)) {
        (JsonView::Object(given), Some(declared)) => option_messages(
            id,
            given,
            declared,
            declared.len() as int,
        ),
        _ => Seq::empty(),
    }
}

/// One message for each given option value that the feature's metadata does not allow, in the order
/// in which the options are declared.
pub fn invalid_feature_option_values(id: &str, opts: &Json, meta: Option<&Json>) -> (res: Texts)
    ensures
        res@ == invalid_options(id@, opts@, opt_json(meta)),
{
    broadcast use group_json;

    let mut out = Texts::new();
    let options = match meta {
        Some(m) => m.get("options"),
        None => None,
    };
    if let (Json::Object(given), Some(Json::Object(declared))) = (opts, options) {
        let ghost decl = members(declared@);
        let ghost have = members(given@);
        let mut i: usize = 0;
        while i < declared.len()
            invariant
                i <= declared@.len(),
                decl == members(declared@),
                have == members(given@),
                out@ == option_messages(id@, have, decl, i as int),
            decreases declared@.len() - i,
        {
            broadcast use group_json;

            let name = declared[i].0.as_str();
            assert(decl[i as int] == (declared@[i as int].0@, declared@[i as int].1@));
            let at: usize = find_member(given, name);
            if at < given.len() {
                assert(have[at as int].1 == given@[at as int].1@);
                if let Some(Json::Array(allowed)) = declared[i].1.get("enum") {
                    let value = option_value_string(&given[at].1);
                    let values = plain_values(allowed);
                    if !values.contains(value.as_str()) {
                        let list = list_texts(&values);
                        out.push(
                            "Warning: feature '".to_owned().concat(id).concat("' option '").concat(
                                name,
                            ).concat("' value '").concat(value.as_str()).concat(
                                "' is not one of the allowed values ",
                            ).concat(list.as_str()),
                        );
                    }
                }
            }
            i = i + 1;
        }
    }
    out
}

// ---------------------------------------------------------------------------------------------
// Container properties

/// What a mount says.
#[verifier::ext_equal]
pub enum MountView {
    String(Seq<char>),
    Object(Option<Seq<char>>, Option<Seq<char>>, Option<Seq<char>>, Option<bool>),
}

pub open spec fn mount_view(m: MountValue) -> MountView {
    match m {
        MountValue::String(s) => MountView::String(s@),
        MountValue::Object(o) => MountView::Object(
            opt_text(o.source),
            opt_text(o.target),
            opt_text(o.mount_type),
            o.readonly,
        ),
    }
}

pub open spec fn mounts_view(v: Seq<MountValue>) -> Seq<MountView> {
    Seq::new(v.len(), |i: int| mount_view(v[i]))
}

/// An optional string of a document: absent or null, or a string.
pub open spec fn optional_string(j: Option<JsonView>) -> Option<Option<Seq<char>>> {
    match j {
        None => Some(None),
        Some(JsonView::Null) => Some(None),
        Some(JsonView::String(s)) => Some(Some(s)),
        Some(_) => None,
    }
}

pub open spec fn optional_bool(j: Option<JsonView>) -> Option<Option<bool>> {
    match j {
        None => Some(None),
        Some(JsonView::Null) => Some(None),
        Some(JsonView::Bool(b)) => Some(Some(b)),
        Some(_) => None,
    }
}

pub open spec fn mount_of_parts(
    source: Option<JsonView>,
    target: Option<JsonView>,
    kind: Option<JsonView>,
    readonly: Option<JsonView>,
) -> Option<MountView> {
    match (
        optional_string(source),
        optional_string(target),
        optional_string(kind),
        optional_bool(readonly),
    ) {
        (Some(s), Some(t), Some(k), Some(r)) => Some(MountView::Object(s, t, k, r)),
        _ => None,
    }
}

pub open spec fn item(a: Seq<JsonView>, i: int) -> Option<JsonView> {
    if 0 <= i < a.len() {
        Some(a[i])
    } else {
        None
    }
}

/// The mount that a document stands for: a string, an object with the members `source`, `target`,
/// `type` and `readonly`, or a list of these in that order.
pub open spec fn mount_of_json(j: JsonView) -> Option<MountView> {
    match j {
        JsonView::String(s) => Some(MountView::String(s)),
        JsonView::Object(m) => mount_of_parts(
            lookup(m, "source"@),
            lookup(m, "target"@),
            lookup(m, "type"@),
            lookup(m, "readonly"@),
        ),
        JsonView::Array(a) => if a.len() <= 4 {
            mount_of_parts(item(a, 0), item(a, 1), item(a, 2), item(a, 3))
        } else {
            None
        },
        _ => None,
    }
}

pub open spec fn opt_opt_text(o: Option<Option<String>>) -> Option<Option<Seq<char>>> {
    match o {
        Some(x) => Some(opt_text(x)),
        None => None,
    }
}

fn read_optional_string(j: Option<&Json>) -> (res: Option<Option<String>>)
    ensures
        opt_opt_text(res) == optional_string(opt_json(j)),
{
    match j {
        None => Some(None),
        Some(Json::Null) => Some(None),
        Some(Json::String(s)) => Some(Some(s.clone())),
        Some(_) => None,
    }
}

fn read_optional_bool(j: Option<&Json>) -> (res: Option<Option<bool>>)
    ensures
        res == optional_bool(opt_json(j)),
{
    match j {
        None => Some(None),
        Some(Json::Null) => Some(None),
        Some(Json::Bool(b)) => Some(Some(*b)),
        Some(_) => None,
    }
}

pub open spec fn opt_mount(o: Option<MountValue>) -> Option<MountView> {
    match o {
        Some(m) => Some(mount_view(m)),
        None => None,
    }
}

fn mount_from_parts(
    source: Option<&Json>,
    target: Option<&Json>,
    kind: Option<&Json>,
    readonly: Option<&Json>,
) -> (res: Option<MountValue>)
    ensures
        opt_mount(res) == mount_of_parts(
            opt_json(source),
            opt_json(target),
            opt_json(kind),
            opt_json(readonly),
        ),
{
    match (
        read_optional_string(source),
        read_optional_string(target),
        read_optional_string(kind),
        read_optional_bool(readonly),
    ) {
        (Some(source), Some(target), Some(mount_type), Some(readonly)) => Some(
            MountValue::Object(MountObject { source, target, mount_type, readonly }),
        ),
        _ => None,
    }
}

fn element(v: &Vec<Json>, i: usize) -> (res: Option<&Json>)
    ensures
        opt_json(res) == item(elements(v@), i as int),
{
    if i < v.len() {
        Some(&v[i])
    } else {
        None
    }
}

/// Reads a mount from its document.
pub fn mount_from_json(j: &Json) -> (res: Option<MountValue>)
    ensures
        opt_mount(res) == mount_of_json(j@),
{
    broadcast use group_json;

    match j {
        Json::String(s) => Some(MountValue::String(s.clone())),
        Json::Object(_) => mount_from_parts(
            j.get("source"),
            j.get("target"),
            j.get("type"),
            j.get("readonly"),
        ),
        Json::Array(a) => if a.len() <= 4 {
            mount_from_parts(element(a, 0), element(a, 1), element(a, 2), element(a, 3))
        } else {
            None
        },
        _ => None,
    }
}

/// What features ask of the container before it is created.
#[derive(Debug, PartialEq)]
pub struct FeatureContainerProperties {
    pub container_env: EnvMap,
    pub mounts: Vec<MountValue>,
    pub privileged: bool,
    pub init: bool,
    pub cap_add: Vec<String>,
    pub security_opt: Vec<String>,
}

#[verifier::ext_equal]
pub struct PropertiesView {
    pub container_env: Seq<(Seq<char>, Seq<char>)>,
    pub mounts: Seq<MountView>,
    pub privileged: bool,
    pub init: bool,
    pub cap_add: Seq<Seq<char>>,
    pub security_opt: Seq<Seq<char>>,
}

impl View for FeatureContainerProperties {
    type V = PropertiesView;

    open spec fn view(&self) -> PropertiesView {
        PropertiesView {
            container_env: self.container_env@,
            mounts: mounts_view(self.mounts@),
            privileged: self.privileged,
            init: self.init,
            cap_add: texts(self.cap_add@),
            security_opt: texts(self.security_opt@),
        }
    }
}

pub open spec fn no_properties() -> PropertiesView {
    PropertiesView {
        container_env: Seq::empty(),
        mounts: Seq::empty(),
        privileged: false,
        init: false,
        cap_add: Seq::empty(),
        security_opt: Seq::empty(),
    }
}

impl Default for FeatureContainerProperties {
    fn default() -> (res: FeatureContainerProperties)
        ensures
            res@ == no_properties(),
    {
        let res = FeatureContainerProperties {
            container_env: EnvMap::new(),
            mounts: Vec::new(),
            privileged: false,
            init: false,
            cap_add: Vec::new(),
            security_opt: Vec::new(),
        };
        assert(res@ =~= no_properties());
        res
    }
}

/// The value of a variable: scalars by their text, anything else as JSON.
pub open spec fn env_text(j: JsonView) -> Seq<char> {
    match scalar_text(j) {
        Some(s) => s,
        None => json_text(j),
    }
}

pub(crate) fn env_value_text(j: &Json) -> (res: String)
    ensures
        res@ == env_text(j@),
{
    match j.scalar() {
        Some(s) => s,
        None => j.text(),
    }
}

/// The entries of an object as variables.
pub open spec fn env_entries(m: Seq<(Seq<char>, JsonView)>) -> Seq<(Seq<char>, Seq<char>)> {
    Seq::new(m.len(), |i: int| (m[i].0, env_text(m[i].1)))
}

pub open spec fn object_of(j: Option<JsonView>) -> Seq<(Seq<char>, JsonView)> {
    match j {
        Some(JsonView::Object(m)) => m,
        _ => Seq::empty(),
    }
}

pub open spec fn array_of(j: Option<JsonView>) -> Seq<JsonView> {
    match j {
        Some(JsonView::Array(a)) => a,
        _ => Seq::empty(),
    }
}

/// The mounts among the items.
pub open spec fn valid_mounts(a: Seq<JsonView>) -> Seq<MountView>
    decreases a.len(),
{
    if a.len() == 0 {
        Seq::empty()
    } else {
        let before = valid_mounts(a.drop_last());
        match mount_of_json(a.last()) {
            Some(m) => before.push(m),
            None => before,
        }
    }
}

pub open spec fn invalid_mount_notes(id: Seq<char>, a: Seq<JsonView>) -> Seq<NoteView>
    decreases a.len(),
{
    if a.len() == 0 {
        Seq::empty()
    } else {
        let before = invalid_mount_notes(id, a.drop_last());
        match mount_of_json(a.last()) {
            Some(m) => before,
            None => before.push(
                NoteView::Warning(
                    "  Warning: feature '"@ + id + "' mount "@ + json_text(a.last())
                        + " is invalid and was ignored: data did not match any variant of untagged enum MountValue"@,
                ),
            ),
        }
    }
}

pub open spec fn meta_field(meta: Option<JsonView>, key: Seq<char>) -> Option<JsonView> {
    match meta {
        Some(m) => field(m, key),
        None => None,
    }
}

/// What a feature's metadata asks of the container.
pub open spec fn properties_of(meta: Option<JsonView>) -> PropertiesView {
    PropertiesView {
        container_env: inserted_all(
            Seq::empty(),
            env_entries(object_of(meta_field(meta, "containerEnv"@))),
        ),
        mounts: valid_mounts(array_of(meta_field(meta, "mounts"@))),
        privileged: meta_field(meta, "privileged"@) == Some(JsonView::Bool(true)),
        init: meta_field(meta, "init"@) == Some(JsonView::Bool(true)),
        cap_add: strings_of(array_of(meta_field(meta, "capAdd"@))),
        security_opt: strings_of(array_of(meta_field(meta, "securityOpt"@))),
    }
}

fn read_env(j: Option<&Json>) -> (res: EnvMap)
    ensures
        res@ == inserted_all(Seq::empty(), env_entries(object_of(opt_json(j)))),
        res.wf(),
{
    broadcast use group_json;

    let mut out = EnvMap::new();
    if let Some(Json::Object(m)) = j {
        let ghost all = env_entries(members(m@));
        let mut i: usize = 0;
        assert(all.take(0) =~= Seq::empty());
        while i < m.len()
            invariant
                i <= m@.len(),
                all == env_entries(members(m@)),
                out@ == inserted_all(Seq::empty(), all.take(i as int)),
                out.wf(),
            decreases m@.len() - i,
        {
            assert(all.take(i + 1).drop_last() =~= all.take(i as int));
            let value = env_value_text(&m[i].1);
            out.insert(m[i].0.as_str(), value.as_str());
            i = i + 1;
        }
        assert(all.take(i as int) =~= all);
    } else {
        assert(env_entries(object_of(opt_json(j))) =~= Seq::empty());
    }
    out
}

fn read_mounts(id: &str, j: Option<&Json>, notes: &mut Notes) -> (res: Vec<MountValue>)
    ensures
        mounts_view(res@) == valid_mounts(array_of(opt_json(j))),
        final(notes)@ == old(notes)@ + invalid_mount_notes(id@, array_of(opt_json(j))),
{
    broadcast use group_json;

    let mut out: Vec<MountValue> = Vec::new();
    assert(notes@ + no_notes() =~= notes@);
    assert(mounts_view(out@) =~= Seq::empty());
    if let Some(Json::Array(a)) = j {
        let ghost all = elements(a@);
        let mut i: usize = 0;
        assert(all.take(0) =~= Seq::empty());
        while i < a.len()
            invariant
                i <= a@.len(),
                all == elements(a@),
                mounts_view(out@) == valid_mounts(all.take(i as int)),
                notes@ == old(notes)@ + invalid_mount_notes(id@, all.take(i as int)),
            decreases a@.len() - i,
        {
            assert(all.take(i + 1).drop_last() =~= all.take(i as int));
            let ghost before = out@;
            match mount_from_json(&a[i]) {
                Some(m) => {
                    out.push(m);
                    assert(mounts_view(out@) =~= mounts_view(before).push(mount_view(m)));
                },
                None => {
                    let text = a[i].text();
                    notes.warn(
                        "  Warning: feature '".to_owned().concat(id).concat("' mount ").concat(
                            text.as_str(),
                        ).concat(
                            " is invalid and was ignored: data did not match any variant of untagged enum MountValue",
                        ),
                    );
                },
            }
            assert(notes@ =~= old(notes)@ + invalid_mount_notes(id@, all.take(i + 1)));
            i = i + 1;
        }
        assert(all.take(i as int) =~= all);
    }
    out
}

pub(crate) fn read_strings(j: Option<&Json>) -> (res: Texts)
    ensures
        res@ == strings_of(array_of(opt_json(j))),
{
    broadcast use group_json;

    if let Some(Json::Array(a)) = j {
        string_items(a)
    } else {
        let none = Texts::new();
        assert(strings_of(array_of(opt_json(j))) =~= none@);
        none
    }
}

fn read_flag(j: Option<&Json>) -> (res: bool)
    ensures
        res == (opt_json(j) == Some(JsonView::Bool(true))),
{
    match j {
        Some(Json::Bool(b)) => *b,
        _ => false,
    }
}

/// Reads from a feature's metadata what it asks of the container. A mount that is not valid is left
/// out with a warning.
pub fn collect_feature_container_properties(id: &str, meta: Option<&Json>, notes: &mut Notes) -> (res:
    FeatureContainerProperties)
    ensures
        res@ == properties_of(opt_json(meta)),
        final(notes)@ == old(notes)@ + invalid_mount_notes(
            id@,
            array_of(meta_field(opt_json(meta), "mounts"@)),
        ),
{
    let container_env = read_env(get_field(meta, "containerEnv"));
    let mounts = read_mounts(id, get_field(meta, "mounts"), notes);
    let privileged = read_flag(get_field(meta, "privileged"));
    let init = read_flag(get_field(meta, "init"));
    let cap_add = read_strings(get_field(meta, "capAdd"));
    let security_opt = read_strings(get_field(meta, "securityOpt"));
    FeatureContainerProperties {
        container_env,
        mounts,
        privileged,
        init,
        cap_add: cap_add.items,
        security_opt: security_opt.items,
    }
}

pub(crate) fn get_field<'a>(meta: Option<&'a Json>, key: &str) -> (res: Option<&'a Json>)
    ensures
        opt_json(res) == meta_field(opt_json(meta), key@),
{
    match meta {
        Some(m) => m.get(key),
        None => None,
    }
}

/// What two features ask for together: the later one wins for variables; everything else adds up.
pub open spec fn merged_properties(a: PropertiesView, b: PropertiesView) -> PropertiesView {
    PropertiesView {
        container_env: inserted_all(a.container_env, b.container_env),
        mounts: a.mounts + b.mounts,
        privileged: a.privileged || b.privileged,
        init: a.init || b.init,
        cap_add: added_all(a.cap_add, b.cap_add),
        security_opt: added_all(a.security_opt, b.security_opt),
    }
}

fn insert_all(map: &mut EnvMap, more: &EnvMap)
    ensures
        final(map)@ == inserted_all(old(map)@, more@),
        old(map).wf() ==> final(map).wf(),
{
    let mut i: usize = 0;
    assert(more@.take(0) =~= Seq::empty());
    while i < more.len()
        invariant
            i <= more@.len(),
            map@ == inserted_all(old(map)@, more@.take(i as int)),
            old(map).wf() ==> map.wf(),
        decreases more@.len() - i,
    {
        assert(more@.take(i + 1).drop_last() =~= more@.take(i as int));
        map.insert(more.key(i), more.value(i));
        i = i + 1;
    }
    assert(more@.take(i as int) =~= more@);
}

fn copy_mount(m: &MountValue) -> (res: MountValue)
    ensures
        res == *m,
{
    match m {
        MountValue::String(s) => MountValue::String(s.clone()),
        MountValue::Object(o) => MountValue::Object(
            MountObject {
                source: copy_option(&o.source),
                target: copy_option(&o.target),
                mount_type: copy_option(&o.mount_type),
                readonly: o.readonly,
            },
        ),
    }
}

fn copy_option(o: &Option<String>) -> (res: Option<String>)
    ensures
        res == *o,
{
    match o {
        Some(s) => Some(s.clone()),
        None => None,
    }
}

fn append_mounts(out: &mut Vec<MountValue>, more: &Vec<MountValue>)
    ensures
        final(out)@ == old(out)@ + more@,
{
    let mut i: usize = 0;
    while i < more.len()
        invariant
            i <= more@.len(),
            out@ == old(out)@ + more@.take(i as int),
        decreases more@.len() - i,
    {
        out.push(copy_mount(&more[i]));
        assert(more@.take(i + 1) =~= more@.take(i as int).push(more@[i as int]));
        i = i + 1;
    }
    assert(more@.take(i as int) =~= more@);
}

fn add_new_strings(out: &mut Vec<String>, more: &Vec<String>)
    ensures
        texts(final(out)@) == added_all(texts(old(out)@), texts(more@)),
{
    let mut list = Texts { items: Vec::new() };
    std::mem::swap(&mut list.items, out);
    assert(list@ == texts(old(out)@));
    list.add_all_new(more);
    std::mem::swap(&mut list.items, out);
}

/// Merges what one feature asks for into what the features before it ask for.
pub fn merge_feature_container_properties(
    acc: &mut FeatureContainerProperties,
    next: FeatureContainerProperties,
)
    ensures
        final(acc)@ == merged_properties(old(acc)@, next@),
{
    insert_all(&mut acc.container_env, &next.container_env);
    append_mounts(&mut acc.mounts, &next.mounts);
    acc.privileged = acc.privileged || next.privileged;
    acc.init = acc.init || next.init;
    add_new_strings(&mut acc.cap_add, &next.cap_add);
    add_new_strings(&mut acc.security_opt, &next.security_opt);
    assert(acc@.mounts =~= old(acc)@.mounts + next@.mounts);
}

fn insert_defaults(map: &mut EnvMap, more: &EnvMap)
    ensures
        final(map)@ == defaulted_all(old(map)@, more@),
        old(map).wf() ==> final(map).wf(),
{
    let mut i: usize = 0;
    assert(more@.take(0) =~= Seq::empty());
    while i < more.len()
        invariant
            i <= more@.len(),
            map@ == defaulted_all(old(map)@, more@.take(i as int)),
            old(map).wf() ==> map.wf(),
        decreases more@.len() - i,
    {
        assert(more@.take(i + 1).drop_last() =~= more@.take(i as int));
        map.insert_default(more.key(i), more.value(i));
        i = i + 1;
    }
    assert(more@.take(i as int) =~= more@);
}

/// A setting that features can only switch on.
pub open spec fn switched(setting: Option<bool>, asked: bool) -> Option<bool> {
    if asked {
        Some(true)
    } else {
        setting
    }
}

/// Whether a configuration is another one to which what features ask for was applied: its own
/// variables win, `privileged` and `init` can only be switched on, mounts, capabilities and security
/// options are appended.
pub open spec fn applied(
    before: DevContainerConfig,
    after: DevContainerConfig,
    props: FeatureContainerProperties,
) -> bool {
    &&& after.container_env@ == defaulted_all(before.container_env@, props.container_env@)
    &&& after.mounts@ == before.mounts@ + props.mounts@
    &&& after.privileged == switched(before.privileged, props.privileged)
    &&& after.init == switched(before.init, props.init)
    &&& texts(after.cap_add@) == added_all(texts(before.cap_add@), texts(props.cap_add@))
    &&& texts(after.security_opt@) == added_all(
        texts(before.security_opt@),
        texts(props.security_opt@),
    )
    &&& after == (DevContainerConfig {
        container_env: after.container_env,
        mounts: after.mounts,
        privileged: after.privileged,
        init: after.init,
        cap_add: after.cap_add,
        security_opt: after.security_opt,
        ..before
    })
}

/// Applies what features ask for to the configuration.
pub fn apply_feature_container_properties(
    config: &mut DevContainerConfig,
    props: &FeatureContainerProperties,
)
    ensures
        applied(*old(config), *final(config), *props),
{
    insert_defaults(&mut config.container_env, &props.container_env);
    append_mounts(&mut config.mounts, &props.mounts);
    if props.privileged {
        config.privileged = Some(true);
    }
    if props.init {
        config.init = Some(true);
    }
    add_new_strings(&mut config.cap_add, &props.cap_add);
    add_new_strings(&mut config.security_opt, &props.security_opt);
}

// ---------------------------------------------------------------------------------------------
// Customizations

/// Whether the list holds an equal document.
pub open spec fn holds(v: Seq<JsonView>, j: JsonView) -> bool {
    exists|i: int| 0 <= i < v.len() && same_json(#[trigger] v[i], j)
}

/// The list with the first `n` of the items that it does not hold yet.
pub open spec fn union(v: Seq<JsonView>, more: Seq<JsonView>, n: int) -> Seq<JsonView>
    decreases n,
{
    if n <= 0 || n > more.len() {
        v
    } else {
        let before = union(v, more, n - 1);
        if holds(before, more[n - 1]) {
            before
        } else {
            before.push(more[n - 1])
        }
    }
}

/// The entries after the first `n` of `incoming` were merged in: objects are merged entry by entry,
/// lists are united, anything else is replaced.
pub open spec fn merged_values(
    existing: Seq<(Seq<char>, JsonView)>,
    incoming: Seq<(Seq<char>, JsonView)>,
    n: nat,
) -> Seq<(Seq<char>, JsonView)>
    decreases incoming, n,
{
    if n == 0 || n > incoming.len() {
        existing
    } else {
        let before = merged_values(existing, incoming, (n - 1) as nat);
        let entry = incoming[n - 1];
        inserted(
            before,
            entry.0,
            match (lookup(before, entry.0), entry.1) {
                (Some(JsonView::Object(dest)), JsonView::Object(src)) => JsonView::Object(
                    merged_values(dest, src, src.len()),
                ),
                (Some(JsonView::Array(dest)), JsonView::Array(src)) => JsonView::Array(
                    union(dest, src, src.len() as int),
                ),
                _ => entry.1,
            },
        )
    }
}

fn list_holds(v: &Vec<Json>, j: &Json) -> (res: bool)
    ensures
        res == holds(elements(v@), j@),
{
    let mut i: usize = 0;
    while i < v.len()
        invariant
            i <= v@.len(),
            forall|k: int| 0 <= k < i ==> !same_json(#[trigger] elements(v@)[k], j@),
        decreases v@.len() - i,
    {
        if v[i].same(j) {
            assert(same_json(elements(v@)[i as int], j@));
            return true;
        }
        assert(!same_json(elements(v@)[i as int], j@));
        i = i + 1;
    }
    false
}

fn unite(dest: &mut Vec<Json>, src: &Vec<Json>)
    ensures
        elements(final(dest)@) == union(elements(old(dest)@), elements(src@), src@.len() as int),
{
    let mut i: usize = 0;
    while i < src.len()
        invariant
            i <= src@.len(),
            elements(dest@) == union(elements(old(dest)@), elements(src@), i as int),
        decreases src@.len() - i,
    {
        let ghost before = dest@;
        assert(elements(src@)[i as int] == src@[i as int]@);
        if !list_holds(dest, &src[i]) {
            let entry = src[i].copy();
            dest.push(entry);
            assert(elements(dest@) =~= elements(before).push(entry@));
        }
        i = i + 1;
    }
}

/// Merges one object of customizations into another.
pub fn merge_customization_values(existing: &mut Vec<(String, Json)>, incoming: &Vec<(String, Json)>)
    ensures
        members(final(existing)@) == merged_values(
            members(old(existing)@),
            members(incoming@),
            members(incoming@).len(),
        ),
    decreases incoming,
{
    let ghost start = members(existing@);
    let ghost all = members(incoming@);
    let mut i: usize = 0;
    while i < incoming.len()
        invariant
            i <= incoming@.len(),
            all == members(incoming@),
            start == members(old(existing)@),
            members(existing@) == merged_values(start, all, i as nat),
        decreases incoming@.len() - i,
    {
        broadcast use group_json;

        let ghost before = members(existing@);
        assert(all[i as int] == (incoming@[i as int].0@, incoming@[i as int].1@));
        let key = incoming[i].0.as_str();
        let at: usize = find_member(existing, key);
        let mut merged: Option<Json> = None;
        if at < existing.len() {
            assert(before[at as int].1 == existing@[at as int].1@);
            assert(lookup(before, key@) == Some(existing@[at as int].1@));
            match (&existing[at].1, &incoming[i].1) {
                (Json::Object(_), Json::Object(src)) => {
                    assert(decreases_to!(*incoming => incoming@));
                    assert(decreases_to!(incoming@ => incoming@[i as int]));
                    assert(decreases_to!(incoming@[i as int] => incoming@[i as int].1));
                    assert(decreases_to!(incoming@[i as int].1 => incoming@[i as int].1->Object_0));
                    assert(decreases_to!(*incoming => *src));
                    if let Json::Object(mut dest) = existing[at].1.copy() {
                        merge_customization_values(&mut dest, src);
                        merged = Some(Json::Object(dest));
                    }
                },
                (Json::Array(_), Json::Array(src)) => {
                    if let Json::Array(mut dest) = existing[at].1.copy() {
                        unite(&mut dest, src);
                        merged = Some(Json::Array(dest));
                    }
                },
                _ => {},
            }
        }
        let value = match merged {
            Some(j) => j,
            None => incoming[i].1.copy(),
        };
        put_member(existing, key, value);
        i = i + 1;
    }
}

/// One tool's customizations merged into those of all tools.
pub open spec fn with_tool(
    merged: Seq<(Seq<char>, JsonView)>,
    tool: Seq<char>,
    value: JsonView,
) -> Seq<(Seq<char>, JsonView)> {
    let start = if has_key(merged, tool) {
        merged
    } else {
        merged.push((tool, JsonView::Object(Seq::empty())))
    };
    match (lookup(start, tool), value) {
        (Some(JsonView::Object(existing)), JsonView::Object(incoming)) => inserted(
            start,
            tool,
            JsonView::Object(merged_values(existing, incoming, incoming.len())),
        ),
        _ => start,
    }
}

pub open spec fn with_tools(
    merged: Seq<(Seq<char>, JsonView)>,
    tools: Seq<(Seq<char>, JsonView)>,
    n: int,
) -> Seq<(Seq<char>, JsonView)>
    decreases n,
{
    if n <= 0 || n > tools.len() {
        merged
    } else {
        with_tool(with_tools(merged, tools, n - 1), tools[n - 1].0, tools[n - 1].1)
    }
}

/// The customizations of the features, in order, from their metadata.
pub open spec fn customizations_of(
    ids: Seq<Seq<char>>,
    catalog: Seq<(Seq<char>, JsonView)>,
    n: int,
) -> Seq<(Seq<char>, JsonView)>
    decreases n,
{
    if n <= 0 || n > ids.len() {
        Seq::empty()
    } else {
        let tools = object_of(meta_field(lookup(catalog, ids[n - 1]), "customizations"@));
        with_tools(customizations_of(ids, catalog, n - 1), tools, tools.len() as int)
    }
}

fn merge_tool(merged: &mut Vec<(String, Json)>, tool: &str, value: &Json)
    ensures
        members(final(merged)@) == with_tool(members(old(merged)@), tool@, value@),
{
    broadcast use group_json;

    let ghost given = members(merged@);
    let found: usize = find_member(merged, tool);
    if found >= merged.len() {
        let ghost before = merged@;
        let none: Vec<(String, Json)> = Vec::new();
        assert(members(none@) =~= Seq::empty());
        let entry = Json::Object(none);
        let name = tool.to_owned();
        merged.push((name, entry));
        assert(members(merged@) =~= members(before).push((tool@, entry@)));
    }
    let ghost start = members(merged@);
    let at: usize = find_member(merged, tool);
    if at < merged.len() {
        assert(start[at as int].1 == merged@[at as int].1@);
        if let (Json::Object(_), Json::Object(incoming)) = (&merged[at].1, value) {
            if let Json::Object(mut existing) = merged[at].1.copy() {
                merge_customization_values(&mut existing, incoming);
                put_member(merged, tool, Json::Object(existing));
            }
        }
    }
}

/// The metadata of the features that have any.
pub open spec fn catalog_view(v: Seq<(String, Json)>) -> Seq<(Seq<char>, JsonView)> {
    members(v)
}

/// The features in the order in which they were installed, then the others in alphabetical order.
pub open spec fn ids_in_order(features: Seq<Seq<char>>, order: Seq<Seq<char>>) -> Seq<Seq<char>> {
    order + sorted(not_in(features, order))
}

/// The texts of `v` that are not in `w`.
pub open spec fn not_in(v: Seq<Seq<char>>, w: Seq<Seq<char>>) -> Seq<Seq<char>>
    decreases v.len(),
{
    if v.len() == 0 {
        Seq::empty()
    } else {
        let before = not_in(v.drop_last(), w);
        if w.contains(v.last()) {
            before
        } else {
            before.push(v.last())
        }
    }
}

pub open spec fn names_of(m: Seq<(Seq<char>, JsonView)>) -> Seq<Seq<char>> {
    Seq::new(m.len(), |i: int| m[i].0)
}

pub(crate) fn names(v: &Vec<(String, Json)>) -> (res: Texts)
    ensures
        res@ == names_of(members(v@)),
{
    let mut out = Texts::new();
    let ghost all = names_of(members(v@));
    let mut i: usize = 0;
    while i < v.len()
        invariant
            i <= v@.len(),
            all == names_of(members(v@)),
            out@ == all.take(i as int),
        decreases v@.len() - i,
    {
        out.push(v[i].0.clone());
        assert(all.take(i + 1) =~= all.take(i as int).push(all[i as int]));
        i = i + 1;
    }
    assert(all.take(i as int) =~= all);
    out
}

fn others(v: &Texts, w: &Texts) -> (res: Texts)
    ensures
        res@ == not_in(v@, w@),
{
    let mut out = Texts::new();
    let mut i: usize = 0;
    assert(v@.take(0) =~= Seq::empty());
    while i < v.len()
        invariant
            i <= v@.len(),
            out@ == not_in(v@.take(i as int), w@),
        decreases v@.len() - i,
    {
        assert(v@.take(i + 1).drop_last() =~= v@.take(i as int));
        if !w.contains(v.get(i)) {
            out.arg(v.get(i));
        }
        i = i + 1;
    }
    assert(v@.take(i as int) =~= v@);
    out
}

pub fn feature_ids_in_order(features: &Vec<(String, Json)>, order: &Texts) -> (res: Texts)
    ensures
        res@ == ids_in_order(names_of(members(features@)), order@),
{
    let all = names(features);
    let extra = others(&all, order);
    let rest = sort_texts(&extra);
    let mut out = Texts::new();
    out.extend(order);
    out.extend(&rest);
    assert(out@ =~= ids_in_order(names_of(members(features@)), order@));
    out
}

/// Merges the `customizations` of the features into one object. `catalog` holds the metadata of the
/// features that have any.
pub fn collect_feature_customizations(
    features: &Vec<(String, Json)>,
    order: &Texts,
    catalog: &Vec<(String, Json)>,
) -> (res: Json)
    ensures
        ({
            let ids = ids_in_order(names_of(members(features@)), order@);
            res@ == JsonView::Object(
                customizations_of(ids, catalog_view(catalog@), ids.len() as int),
            )
        }),
{
    broadcast use group_json;

    let ids = feature_ids_in_order(features, order);
    let ghost cat = catalog_view(catalog@);
    let mut merged: Vec<(String, Json)> = Vec::new();
    assert(members(merged@) =~= Seq::empty());
    let mut i: usize = 0;
    while i < ids.len()
        invariant
            i <= ids@.len(),
            cat == members(catalog@),
            members(merged@) == customizations_of(ids@, cat, i as int),
        decreases ids@.len() - i,
    {
        broadcast use group_json;

        let ghost before = members(merged@);
        let found = catalog_entry(catalog, ids.get(i));
        let custom = get_field(found, "customizations");
        let ghost tools = object_of(meta_field(lookup(cat, ids@[i as int]), "customizations"@));
        if let Some(Json::Object(obj)) = custom {
            assert(tools == members(obj@));
            let mut k: usize = 0;
            while k < obj.len()
                invariant
                    k <= obj@.len(),
                    tools == members(obj@),
                    members(merged@) == with_tools(before, tools, k as int),
                decreases obj@.len() - k,
            {
                assert(tools[k as int] == (obj@[k as int].0@, obj@[k as int].1@));
                merge_tool(&mut merged, obj[k].0.as_str(), &obj[k].1);
                k = k + 1;
            }
        } else {
            assert(tools =~= Seq::empty());
        }
        i = i + 1;
    }
    Json::Object(merged)
}

pub(crate) fn catalog_entry<'a>(catalog: &'a Vec<(String, Json)>, id: &str) -> (res: Option<
    &'a Json,
>)
    ensures
        opt_json(res) == lookup(catalog_view(catalog@), id@),
{
    let at: usize = find_member(catalog, id);
    if at < catalog.len() {
        assert(members(catalog@)[at as int].1 == catalog@[at as int].1@);
        Some(&catalog[at].1)
    } else {
        None
    }
}

// ---------------------------------------------------------------------------------------------
// Lifecycle hooks

/// The lifecycle commands that a feature may declare, in the order in which they run.
pub open spec fn hook_names() -> Seq<Seq<char>> {
    seq![
        "onCreateCommand"@,
        "updateContentCommand"@,
        "postCreateCommand"@,
        "postStartCommand"@,
        "postAttachCommand"@,
    ]
}

pub fn feature_lifecycle_hooks() -> (res: Texts)
    ensures
        res@ == hook_names(),
{
    let mut out = Texts::new();
    out.arg("onCreateCommand");
    out.arg("updateContentCommand");
    out.arg("postCreateCommand");
    out.arg("postStartCommand");
    out.arg("postAttachCommand");
    assert(out@ =~= hook_names());
    out
}

/// The commands among the first `n` hooks that the metadata declares.
pub open spec fn hooks_of(meta: Option<JsonView>, n: int) -> Seq<(Seq<char>, JsonView)>
    decreases n,
{
    if n <= 0 || n > hook_names().len() {
        Seq::empty()
    } else {
        let before = hooks_of(meta, n - 1);
        match meta_field(meta, hook_names()[n - 1]) {
            Some(JsonView::Null) => before,
            Some(v) => before.push((hook_names()[n - 1], v)),
            None => before,
        }
    }
}

/// The commands that the features declare, feature by feature.
pub open spec fn all_hooks(
    ids: Seq<Seq<char>>,
    catalog: Seq<(Seq<char>, JsonView)>,
    n: int,
) -> Seq<(Seq<char>, JsonView)>
    decreases n,
{
    if n <= 0 || n > ids.len() {
        Seq::empty()
    } else {
        all_hooks(ids, catalog, n - 1) + hooks_of(lookup(catalog, ids[n - 1]), 5)
    }
}

/// Collects the lifecycle commands that features declare in their metadata, in the order of the
/// features.
pub fn collect_feature_lifecycle_hooks(
    features: &Vec<(String, Json)>,
    order: &Texts,
    catalog: &Vec<(String, Json)>,
) -> (res: Vec<(String, Json)>)
    ensures
        ({
            let ids = ids_in_order(names_of(members(features@)), order@);
            members(res@) == all_hooks(ids, catalog_view(catalog@), ids.len() as int)
        }),
{
    let ids = feature_ids_in_order(features, order);
    let ghost cat = catalog_view(catalog@);
    let mut out: Vec<(String, Json)> = Vec::new();
    assert(members(out@) =~= Seq::empty());
    let mut i: usize = 0;
    while i < ids.len()
        invariant
            i <= ids@.len(),
            cat == catalog_view(catalog@),
            members(out@) == all_hooks(ids@, cat, i as int),
        decreases ids@.len() - i,
    {
        add_hooks(catalog_entry(catalog, ids.get(i)), &mut out);
        i = i + 1;
    }
    out
}

/// Appends the lifecycle commands that metadata declares.
pub(crate) fn add_hooks(meta: Option<&Json>, out: &mut Vec<(String, Json)>)
    ensures
        members(final(out)@) == members(old(out)@) + hooks_of(opt_json(meta), 5),
{
    let hooks = feature_lifecycle_hooks();
    let ghost before = members(out@);
    let ghost m = opt_json(meta);
    assert(before + hooks_of(m, 0) =~= before);
    let mut k: usize = 0;
    while k < hooks.len()
        invariant
            k <= 5,
            hooks@ == hook_names(),
            opt_json(meta) == m,
            members(out@) == before + hooks_of(m, k as int),
        decreases 5 - k,
    {
        let ghost sofar = out@;
        match get_field(meta, hooks.get(k)) {
            Some(Json::Null) => {},
            Some(v) => {
                let name = hooks.get(k).to_owned();
                let value = v.copy();
                out.push((name, value));
                assert(members(out@) =~= members(sofar).push((name@, value@)));
            },
            None => {},
        }
        assert(members(out@) =~= before + hooks_of(m, k + 1));
        k = k + 1;
    }
}

// ---------------------------------------------------------------------------------------------
// Order

/// The steps for the first `n` items of an `installsAfter` list.
pub open spec fn after_steps(
    features: Seq<(Seq<char>, JsonView)>,
    id: Seq<char>,
    after: Seq<JsonView>,
    n: int,
) -> Seq<StepView>
    decreases n,
{
    if n <= 0 || n > after.len() {
        Seq::empty()
    } else {
        let before = after_steps(features, id, after, n - 1);
        match after[n - 1] {
            JsonView::String(dep) => if has_key(features, dep) {
                before.push(StepView::Visit(dep))
            } else {
                before.push(
                    StepView::Say(
                        NoteView::Warning(
                            "Warning: feature '"@ + id
                                + "' installsAfter references unknown feature '"@ + dep + "'"@,
                        ),
                    ),
                )
            },
            _ => before,
        }
    }
}

/// What has to happen before a feature with these options.
pub open spec fn feature_steps(
    features: Seq<(Seq<char>, JsonView)>,
    id: Seq<char>,
    opts: JsonView,
) -> Seq<StepView> {
    match field(opts, "installsAfter"@) {
        None => Seq::empty(),
        Some(JsonView::Array(a)) => after_steps(features, id, a, a.len() as int),
        Some(other) => seq![StepView::Say(
            NoteView::Warning(
                "Warning: feature '"@ + id + "' installsAfter must be an array of strings, got "@
                    + json_text(other),
            ),
        )],
    }
}

pub open spec fn feature_table(features: Seq<(Seq<char>, JsonView)>) -> Seq<
    (Seq<char>, Seq<StepView>),
> {
    Seq::new(
        features.len(),
        |i: int| (features[i].0, feature_steps(features, features[i].0, features[i].1)),
    )
}

fn steps_for(features: &Vec<(String, Json)>, id: &str, opts: &Json) -> (res: Vec<Step>)
    ensures
        steps_view(res@) == feature_steps(members(features@), id@, opts@),
{
    broadcast use group_json;

    let mut out: Vec<Step> = Vec::new();
    assert(steps_view(out@) =~= Seq::empty());
    match opts.get("installsAfter") {
        None => {},
        Some(Json::Array(a)) => {
            let ghost all = elements(a@);
            let mut i: usize = 0;
            while i < a.len()
                invariant
                    i <= a@.len(),
                    all == elements(a@),
                    steps_view(out@) == after_steps(members(features@), id@, all, i as int),
                decreases a@.len() - i,
            {
                let ghost before = out@;
                assert(all[i as int] == a@[i as int]@);
                if let Json::String(dep) = &a[i] {
                    let at: usize = find_member(features, dep.as_str());
                    let step = if at < features.len() {
                        Step::Visit(dep.clone())
                    } else {
                        Step::Say(
                            Note::Warning(
                                "Warning: feature '".to_owned().concat(id).concat(
                                    "' installsAfter references unknown feature '",
                                ).concat(dep.as_str()).concat("'"),
                            ),
                        )
                    };
                    out.push(step);
                    assert(steps_view(out@) =~= steps_view(before).push(step@));
                }
                i = i + 1;
            }
        },
        Some(other) => {
            let text = other.text();
            let step = Step::Say(
                Note::Warning(
                    "Warning: feature '".to_owned().concat(id).concat(
                        "' installsAfter must be an array of strings, got ",
                    ).concat(text.as_str()),
                ),
            );
            out.push(step);
            assert(steps_view(out@) =~= seq![step@]);
        },
    }
    out
}

/// The line on features that come after each other.
pub open spec fn circular_line() -> Seq<char> {
    "Warning: circular installsAfter detected for "@
}

/// The features in the order of their names, but each after those that it names in its
/// `installsAfter`.
pub fn sort_by_installs_after(features: &Vec<(String, Json)>, notes: &mut Notes) -> (res: Texts)
    ensures
        ({
            let m = members(features@);
            let walk = walk_of(feature_table(m), Some(circular_line()), sorted(names_of(m)));
            &&& res@ == walk.order
            &&& final(notes)@ == old(notes)@ + walk.notes
        }),
{
    let ghost m = members(features@);
    let mut entries: Vec<(String, Vec<Step>)> = Vec::new();
    let mut i: usize = 0;
    assert(table_view(entries@) =~= feature_table(m).take(0));
    while i < features.len()
        invariant
            i <= features@.len(),
            m == members(features@),
            table_view(entries@) == feature_table(m).take(i as int),
        decreases features@.len() - i,
    {
        let ghost before = entries@;
        let id = features[i].0.clone();
        let steps = steps_for(features, id.as_str(), &features[i].1);
        assert(m[i as int] == (features@[i as int].0@, features@[i as int].1@));
        entries.push((id, steps));
        assert(table_view(entries@) =~= table_view(before).push((id@, steps_view(steps@))));
        assert(feature_table(m).take(i + 1) =~= feature_table(m).take(i as int).push(
            feature_table(m)[i as int],
        ));
        i = i + 1;
    }
    assert(feature_table(m).take(i as int) =~= feature_table(m));
    let table = Table { entries };
    let all = names(features);
    let ids = sort_texts(&all);
    table.walk(Some("Warning: circular installsAfter detected for "), &ids, notes)
}

/// The features that a feature depends on, in alphabetical order, without itself.
pub open spec fn dependency_ids(id: Seq<char>, meta: JsonView) -> Seq<Seq<char>> {
    not_in(sorted(names_of(object_of(field(meta, "dependsOn"@)))), seq![id])
}

pub open spec fn dependency_steps(id: Seq<char>, meta: JsonView) -> Seq<StepView> {
    let deps = dependency_ids(id, meta);
    Seq::new(deps.len(), |i: int| StepView::Visit(deps[i]))
}

pub open spec fn dependency_table(catalog: Seq<(Seq<char>, JsonView)>) -> Seq<
    (Seq<char>, Seq<StepView>),
> {
    Seq::new(
        catalog.len(),
        |i: int| (catalog[i].0, dependency_steps(catalog[i].0, catalog[i].1)),
    )
}

fn dependencies(id: &str, meta: &Json) -> (res: Texts)
    ensures
        res@ == dependency_ids(id@, meta@),
{
    broadcast use group_json;

    let all = match meta.get("dependsOn") {
        Some(Json::Object(deps)) => names(deps),
        _ => {
            assert(names_of(object_of(field(meta@, "dependsOn"@))) =~= Seq::empty());
            Texts::new()
        },
    };
    let in_order = sort_texts(&all);
    let mut own = Texts::new();
    own.arg(id);
    assert(own@ =~= seq![id@]);
    others(&in_order, &own)
}

/// The requested features in alphabetical order with the features that they depend on, these first,
/// as far as the metadata in `catalog` tells.
pub fn feature_ids_sorted(features: Option<&Vec<(String, Json)>>, catalog: &Vec<(String, Json)>) -> (res:
    Texts)
    ensures
        res@ == sorted_features(requested(features), catalog_view(catalog@)),
{
    let ghost cat = members(catalog@);
    let mut entries: Vec<(String, Vec<Step>)> = Vec::new();
    let mut i: usize = 0;
    assert(table_view(entries@) =~= dependency_table(cat).take(0));
    while i < catalog.len()
        invariant
            i <= catalog@.len(),
            cat == members(catalog@),
            table_view(entries@) == dependency_table(cat).take(i as int),
        decreases catalog@.len() - i,
    {
        let ghost before = entries@;
        let id = catalog[i].0.clone();
        let deps = dependencies(id.as_str(), &catalog[i].1);
        assert(cat[i as int] == (catalog@[i as int].0@, catalog@[i as int].1@));
        let ghost goal = dependency_steps(id@, cat[i as int].1);
        let mut steps: Vec<Step> = Vec::new();
        let mut k: usize = 0;
        assert(steps_view(steps@) =~= goal.take(0));
        while k < deps.len()
            invariant
                k <= deps@.len(),
                deps@ == dependency_ids(id@, cat[i as int].1),
                goal == dependency_steps(id@, cat[i as int].1),
                steps_view(steps@) == goal.take(k as int),
            decreases deps@.len() - k,
        {
            let ghost sofar = steps@;
            let step = Step::Visit(deps.get(k).to_owned());
            steps.push(step);
            assert(steps_view(steps@) =~= steps_view(sofar).push(step@));
            assert(goal.take(k + 1) =~= goal.take(k as int).push(goal[k as int]));
            k = k + 1;
        }
        assert(goal.take(k as int) =~= goal);
        entries.push((id, steps));
        assert(table_view(entries@) =~= table_view(before).push((id@, steps_view(steps@))));
        assert(dependency_table(cat).take(i + 1) =~= dependency_table(cat).take(i as int).push(
            dependency_table(cat)[i as int],
        ));
        i = i + 1;
    }
    assert(dependency_table(cat).take(i as int) =~= dependency_table(cat));
    let table = Table { entries };
    let all = match features {
        Some(f) => names(f),
        None => Texts::new(),
    };
    let ids = sort_texts(&all);
    let mut silent = Notes::new();
    table.walk(None, &ids, &mut silent)
}

pub open spec fn requested(features: Option<&Vec<(String, Json)>>) -> Seq<Seq<char>> {
    match features {
        Some(f) => names_of(members(f@)),
        None => Seq::empty(),
    }
}

/// What the features of a list ask for together, each by its entry in the catalog.
pub open spec fn properties_of_all(
    ids: Seq<Seq<char>>,
    catalog: Seq<(Seq<char>, JsonView)>,
) -> PropertiesView
    decreases ids.len(),
{
    if ids.len() == 0 {
        no_properties()
    } else {
        merged_properties(
            properties_of_all(ids.drop_last(), catalog),
            properties_of(lookup(catalog, ids.last())),
        )
    }
}

pub open spec fn properties_of_all_notes(
    ids: Seq<Seq<char>>,
    catalog: Seq<(Seq<char>, JsonView)>,
) -> Seq<NoteView>
    decreases ids.len(),
{
    if ids.len() == 0 {
        Seq::empty()
    } else {
        properties_of_all_notes(ids.drop_last(), catalog) + invalid_mount_notes(
            ids.last(),
            array_of(meta_field(lookup(catalog, ids.last()), "mounts"@)),
        )
    }
}

/// What the requested features, and those that they depend on, ask of the container, as far as the
/// metadata in `catalog` tells.
pub fn cached_properties(
    features: Option<&Vec<(String, Json)>>,
    catalog: &Vec<(String, Json)>,
    notes: &mut Notes,
) -> (res: FeatureContainerProperties)
    ensures
        ({
            let ids = sorted_features(requested(features), catalog_view(catalog@));
            &&& res@ == properties_of_all(ids, catalog_view(catalog@))
            &&& final(notes)@ == old(notes)@ + properties_of_all_notes(ids, catalog_view(catalog@))
        }),
{
    let ids = feature_ids_sorted(features, catalog);
    let ghost cat = catalog_view(catalog@);
    let mut props = FeatureContainerProperties::default();
    let mut i: usize = 0;
    assert(ids@.take(0) =~= Seq::empty());
    assert(notes@ + no_notes() =~= notes@);
    while i < ids.len()
        invariant
            i <= ids@.len(),
            cat == catalog_view(catalog@),
            props@ == properties_of_all(ids@.take(i as int), cat),
            notes@ == old(notes)@ + properties_of_all_notes(ids@.take(i as int), cat),
        decreases ids@.len() - i,
    {
        assert(ids@.take(i + 1).drop_last() =~= ids@.take(i as int));
        let meta = catalog_entry(catalog, ids.get(i));
        let next = collect_feature_container_properties(ids.get(i), meta, notes);
        merge_feature_container_properties(&mut props, next);
        assert(notes@ =~= old(notes)@ + properties_of_all_notes(ids@.take(i + 1), cat));
        i = i + 1;
    }
    assert(ids@.take(i as int) =~= ids@);
    props
}

/// The first of the texts at or after `i` that is not in `known`.
pub open spec fn first_unknown(v: Seq<Seq<char>>, known: Seq<Seq<char>>, i: int) -> Option<Seq<char>>
    decreases v.len() - i,
{
    if i < 0 || i >= v.len() {
        None
    } else if known.contains(v[i]) {
        first_unknown(v, known, i + 1)
    } else {
        Some(v[i])
    }
}

fn find_unknown(v: &Texts, known: &Texts) -> (res: Option<String>)
    ensures
        opt_text(res) == first_unknown(v@, known@, 0),
{
    let mut i: usize = 0;
    while i < v.len()
        invariant
            i <= v@.len(),
            first_unknown(v@, known@, 0) == first_unknown(v@, known@, i as int),
        decreases v@.len() - i,
    {
        if !known.contains(v.get(i)) {
            return Some(v.get(i).to_owned());
        }
        i = i + 1;
    }
    None
}

/// The first dependency of the features from position `i` on whose metadata was not looked up.
pub open spec fn unknown_dependency(
    catalog: Seq<(Seq<char>, JsonView)>,
    known: Seq<Seq<char>>,
    i: int,
) -> Option<Seq<char>>
    decreases catalog.len() - i,
{
    if i < 0 || i >= catalog.len() {
        None
    } else {
        match first_unknown(dependency_ids(catalog[i].0, catalog[i].1), known, 0) {
            Some(d) => Some(d),
            None => unknown_dependency(catalog, known, i + 1),
        }
    }
}

/// A feature whose metadata is still to be looked up: a requested one, or one that a feature in
/// `catalog` depends on. `known` are the features that were looked up, with or without success.
pub fn next_to_look_up(
    features: Option<&Vec<(String, Json)>>,
    catalog: &Vec<(String, Json)>,
    known: &Texts,
) -> (res: Option<String>)
    ensures
        opt_text(res) == next_unknown(requested(features), catalog_view(catalog@), known@),
{
    let all = match features {
        Some(f) => names(f),
        None => Texts::new(),
    };
    let first = find_unknown(&all, known);
    if first.is_some() {
        return first;
    }
    let ghost cat = members(catalog@);
    let mut i: usize = 0;
    while i < catalog.len()
        invariant
            i <= catalog@.len(),
            cat == members(catalog@),
            first_unknown(requested(features), known@, 0) is None,
            unknown_dependency(cat, known@, 0) == unknown_dependency(cat, known@, i as int),
        decreases catalog@.len() - i,
    {
        assert(cat[i as int] == (catalog@[i as int].0@, catalog@[i as int].1@));
        let deps = dependencies(catalog[i].0.as_str(), &catalog[i].1);
        let found = find_unknown(&deps, known);
        if found.is_some() {
            return found;
        }
        i = i + 1;
    }
    None
}

/// The options of a feature with the `installsAfter` of its metadata, unless they have their own.
pub open spec fn with_installs_after(opts: JsonView, meta: Option<JsonView>) -> JsonView {
    match meta_field(meta, "installsAfter"@) {
        Some(JsonView::Array(a)) => if field(opts, "installsAfter"@) is Some {
            opts
        } else {
            JsonView::Object(
                inserted(
                    match opts {
                        JsonView::Object(m) => m,
                        _ => Seq::empty(),
                    },
                    "installsAfter"@,
                    JsonView::Array(a),
                ),
            )
        },
        _ => opts,
    }
}

pub open spec fn ordering_map(
    features: Seq<(Seq<char>, JsonView)>,
    catalog: Seq<(Seq<char>, JsonView)>,
) -> Seq<(Seq<char>, JsonView)> {
    Seq::new(
        features.len(),
        |i: int|
            (features[i].0, with_installs_after(features[i].1, lookup(catalog, features[i].0))),
    )
}

fn add_installs_after(opts: &Json, meta: Option<&Json>) -> (res: Json)
    ensures
        res@ == with_installs_after(opts@, opt_json(meta)),
{
    broadcast use group_json;

    let after = get_field(meta, "installsAfter");
    if let Some(Json::Array(_)) = after {
        if opts.get("installsAfter").is_none() {
            let mut m: Vec<(String, Json)> = Vec::new();
            if let Json::Object(given) = opts.copy() {
                m = given;
            } else {
                assert(members(m@) =~= Seq::empty());
            }
            if let Some(list) = after {
                put_member(&mut m, "installsAfter", list.copy());
            }
            return Json::Object(m);
        }
    }
    opts.copy()
}

/// The requested features, each with the `installsAfter` list that its cached metadata declares.
pub fn features_for_ordering(features: &Vec<(String, Json)>, catalog: &Vec<(String, Json)>) -> (res:
    Vec<(String, Json)>)
    ensures
        members(res@) == ordering_map(members(features@), catalog_view(catalog@)),
{
    let ghost goal = ordering_map(members(features@), catalog_view(catalog@));
    let mut out: Vec<(String, Json)> = Vec::new();
    let mut i: usize = 0;
    assert(members(out@) =~= goal.take(0));
    while i < features.len()
        invariant
            i <= features@.len(),
            goal == ordering_map(members(features@), catalog_view(catalog@)),
            members(out@) == goal.take(i as int),
        decreases features@.len() - i,
    {
        let ghost before = out@;
        let id = features[i].0.clone();
        let meta = catalog_entry(catalog, id.as_str());
        let opts = add_installs_after(&features[i].1, meta);
        assert(members(features@)[i as int] == (features@[i as int].0@, features@[i as int].1@));
        out.push((id, opts));
        assert(members(out@) =~= members(before).push((id@, opts@)));
        assert(goal.take(i + 1) =~= goal.take(i as int).push(goal[i as int]));
        i = i + 1;
    }
    assert(goal.take(i as int) =~= goal);
    out
}

// ---------------------------------------------------------------------------------------------
// Laws

/// Identifiers with different readable forms have different directories.
pub proof fn law_directories_keep_readable_ids_apart(a: Seq<char>, b: Seq<char>)
    requires
        directory_of(a) == directory_of(b),
    ensures
        readable_id(a) == readable_id(b),
        hex_text(fnv1a(encode_utf8(a)) as nat, 8) == hex_text(fnv1a(encode_utf8(b)) as nat, 8),
{
    let ha = hex_text(fnv1a(encode_utf8(a)) as nat, 8);
    let hb = hex_text(fnv1a(encode_utf8(b)) as nat, 8);
    lemma_hex_len(fnv1a(encode_utf8(a)) as nat, 8);
    lemma_hex_len(fnv1a(encode_utf8(b)) as nat, 8);
    reveal_strlit("-");
    let n = readable_id(a).len() as int;
    assert(directory_of(a).len() == n + 9);
    assert(directory_of(b).len() == readable_id(b).len() + 9);
    assert(readable_id(a) =~= directory_of(a).take(n));
    assert(readable_id(b) =~= directory_of(b).take(n));
    assert(ha =~= directory_of(a).skip(n + 1));
    assert(hb =~= directory_of(b).skip(n + 1));
}

pub proof fn lemma_defaulted_all<V>(m: Seq<(Seq<char>, V)>, more: Seq<(Seq<char>, V)>, key: Seq<char>)
    ensures
        has_key(m, key) ==> lookup(defaulted_all(m, more), key) == lookup(m, key),
        !has_key(m, key) ==> lookup(defaulted_all(m, more), key) == lookup(more, key),
        has_key(defaulted_all(m, more), key) <==> has_key(m, key) || has_key(more, key),
    decreases more.len(),
{
    if more.len() > 0 {
        lemma_defaulted_all(m, more.drop_last(), key);
        lemma_inserted_lookup(
            defaulted_all(m, more.drop_last()),
            more.last().0,
            more.last().1,
            key,
        );
        lemma_has_key_split(more, key);
    }
}

proof fn lemma_has_key_split<V>(more: Seq<(Seq<char>, V)>, key: Seq<char>)
    requires
        more.len() > 0,
    ensures
        has_key(more, key) <==> has_key(more.drop_last(), key) || more.last().0 == key,
        lookup(more, key) == (if has_key(more.drop_last(), key) {
            lookup(more.drop_last(), key)
        } else if more.last().0 == key {
            Some(more.last().1)
        } else {
            None
        }),
{
    lemma_key_index(more, key, 0);
    lemma_key_index(more.drop_last(), key, 0);
    let at = key_index(more, key, 0);
    let before = key_index(more.drop_last(), key, 0);
    if before < more.drop_last().len() {
        assert(more[before].0 == key);
    }
    if at < more.len() - 1 {
        assert(more.drop_last()[at].0 == key);
    }
}

/// Features never change a variable of the configuration; they only add variables, and they add
/// capabilities without repeating one.
pub proof fn law_configuration_wins(
    env: Seq<(Seq<char>, Seq<char>)>,
    caps: Seq<Seq<char>>,
    props: PropertiesView,
    key: Seq<char>,
)
    ensures
        has_key(env, key) ==> lookup(defaulted_all(env, props.container_env), key) == lookup(
            env,
            key,
        ),
        has_key(defaulted_all(env, props.container_env), key) <==> has_key(env, key) || has_key(
            props.container_env,
            key,
        ),
        !has_key(env, key) ==> lookup(defaulted_all(env, props.container_env), key) == lookup(
            props.container_env,
            key,
        ),
        all_distinct(caps) ==> all_distinct(added_all(caps, props.cap_add)),
        added_all(caps, props.cap_add).take(caps.len() as int) == caps,
{
    lemma_defaulted_all(env, props.container_env, key);
    lemma_added_all(caps, props.cap_add);
}

proof fn lemma_with_defaults(
    given: Seq<(Seq<char>, JsonView)>,
    declared: Seq<(Seq<char>, JsonView)>,
    n: int,
    name: Seq<char>,
)
    requires
        0 <= n <= declared.len(),
        has_key(given, name),
    ensures
        lookup(with_defaults(given, declared, n), name) == lookup(given, name),
        has_key(with_defaults(given, declared, n), name),
    decreases n,
{
    if n > 0 {
        lemma_with_defaults(given, declared, n - 1, name);
        let before = with_defaults(given, declared, n - 1);
        if let Some(default) = field(declared[n - 1].1, "default"@) {
            lemma_inserted_lookup(before, declared[n - 1].0, default, name);
        }
    }
}

/// A given option is never replaced by its default.
pub proof fn law_given_options_win(
    given: Seq<(Seq<char>, JsonView)>,
    meta: Option<JsonView>,
    name: Seq<char>,
)
    requires
        has_key(given, name),
    ensures
        field(defaults_merged(JsonView::Object(given), meta), name) == lookup(given, name),
{
    if let Some(declared) = declared_options(meta) {
        lemma_with_defaults(given, declared, declared.len() as int, name);
    }
}

proof fn lemma_table_lookup(features: Seq<(Seq<char>, JsonView)>, id: Seq<char>, i: int)
    requires
        0 <= i <= features.len(),
    ensures
        key_index(feature_table(features), id, i) == key_index(features, id, i),
    decreases features.len() - i,
{
    if i < features.len() && features[i].0 != id {
        lemma_table_lookup(features, id, i + 1);
    }
}

/// The steps of a feature in the table.
proof fn lemma_table_entry(features: Seq<(Seq<char>, JsonView)>, id: Seq<char>)
    ensures
        lookup(feature_table(features), id) == (match lookup(features, id) {
            Some(opts) => Some(feature_steps(features, id, opts)),
            None => None,
        }),
{
    lemma_table_lookup(features, id, 0);
    lemma_key_index(features, id, 0);
}

proof fn lemma_after_targets(
    features: Seq<(Seq<char>, JsonView)>,
    id: Seq<char>,
    after: Seq<JsonView>,
    n: int,
)
    requires
        0 <= n <= after.len(),
    ensures
        forall|k: int|
            0 <= k < after_steps(features, id, after, n).len() ==> (#[trigger] after_steps(
                features,
                id,
                after,
                n,
            )[k] matches StepView::Visit(dep) ==> has_key(features, dep)),
    decreases n,
{
    if n > 0 {
        lemma_after_targets(features, id, after, n - 1);
        let before = after_steps(features, id, after, n - 1);
        let now = after_steps(features, id, after, n);
        assert forall|k: int| 0 <= k < now.len() implies (#[trigger] now[k] matches StepView::Visit(
            dep,
        ) ==> has_key(features, dep)) by {
            if k < before.len() {
                assert(before[k] == now[k]);
            }
        }
    }
}

/// The features that a step of the table asks for are requested ones.
proof fn lemma_targets_requested(features: Seq<(Seq<char>, JsonView)>)
    ensures
        targets_in(feature_table(features), |dep: Seq<char>| has_key(features, dep)),
{
    let p = |dep: Seq<char>| has_key(features, dep);
    assert forall|id: Seq<char>, dep: Seq<char>| #[trigger]
        depends(feature_table(features), id, dep) implies p(dep) by {
        lemma_table_entry(features, id);
        let steps = steps_of(feature_table(features), id);
        let k = choose|k: int| 0 <= k < steps.len() && #[trigger] steps[k] == StepView::Visit(dep);
        assert(steps[k] == StepView::Visit(dep));
        if let Some(opts) = lookup(features, id) {
            if let Some(JsonView::Array(a)) = field(opts, "installsAfter"@) {
                lemma_after_targets(features, id, a, a.len() as int);
            }
        }
    }
}

pub open spec fn install_order(features: Seq<(Seq<char>, JsonView)>) -> Seq<Seq<char>> {
    walk_of(feature_table(features), Some(circular_line()), sorted(names_of(features))).order
}

/// Sorting by `installsAfter` gives every requested feature exactly once and nothing else, whatever
/// the features name in their lists.
pub proof fn law_features_are_sorted_once(features: Seq<(Seq<char>, JsonView)>, id: Seq<char>)
    ensures
        install_order(features).no_duplicates(),
        install_order(features).contains(id) <==> has_key(features, id),
{
    let table = feature_table(features);
    let ids = sorted(names_of(features));
    let order = install_order(features);
    let p = |dep: Seq<char>| has_key(features, dep);
    law_walk_finishes_each_once(table, Some(circular_line()), ids);
    lemma_targets_requested(features);
    assert forall|i: int| 0 <= i < ids.len() implies p(#[trigger] ids[i]) by {
        assert(ids.contains(ids[i]));
        lemma_sorted_contains(names_of(features), ids[i]);
        let k = choose|k: int| 0 <= k < names_of(features).len() && names_of(features)[k] == ids[i];
        lemma_has_key(features, k);
    }
    law_walk_stays_inside(table, Some(circular_line()), ids, ids.len() as int, p);
    if order.contains(id) {
        let i = choose|i: int| 0 <= i < order.len() && order[i] == id;
        assert(p(order[i]));
    }
    if has_key(features, id) {
        lemma_key_index(features, id, 0);
        let at = key_index(features, id, 0);
        assert(names_of(features)[at] == id);
        assert(names_of(features).contains(id));
        lemma_sorted_contains(names_of(features), id);
        let i = choose|i: int| 0 <= i < ids.len() && ids[i] == id;
        assert(order.contains(ids[i]));
    }
}

/// Whether a feature names another requested feature in its `installsAfter`.
pub open spec fn comes_after(
    features: Seq<(Seq<char>, JsonView)>,
    id: Seq<char>,
    dep: Seq<char>,
) -> bool {
    depends(feature_table(features), id, dep)
}

/// Where no feature comes after itself, directly or through others, every feature is sorted behind
/// all requested features that it names in its `installsAfter`.
pub proof fn law_installs_after_is_kept(
    features: Seq<(Seq<char>, JsonView)>,
    rank: spec_fn(Seq<char>) -> nat,
)
    requires
        forall|id: Seq<char>, dep: Seq<char>| #[trigger]
            comes_after(features, id, dep) ==> rank(dep) < rank(id),
    ensures
        forall|p: int, dep: Seq<char>|
            0 <= p < install_order(features).len() && #[trigger] comes_after(
                features,
                install_order(features)[p],
                dep,
            ) ==> install_order(features).take(p).contains(dep),
{
    let table = feature_table(features);
    assert forall|id: Seq<char>, dep: Seq<char>| #[trigger] depends(table, id, dep) implies rank(
        dep,
    ) < rank(id) by {
        assert(comes_after(features, id, dep));
    }
    law_dependencies_come_first(
        table,
        Some(circular_line()),
        sorted(names_of(features)),
        rank,
    );
}

proof fn lemma_same_steps(
    a: Seq<(Seq<char>, JsonView)>,
    b: Seq<(Seq<char>, JsonView)>,
    id: Seq<char>,
    after: Seq<JsonView>,
    n: int,
)
    requires
        forall|k: Seq<char>| #[trigger] lookup(a, k) == lookup(b, k),
    ensures
        after_steps(a, id, after, n) == after_steps(b, id, after, n),
    decreases n,
{
    if 0 < n <= after.len() {
        lemma_same_steps(a, b, id, after, n - 1);
        if let JsonView::String(dep) = after[n - 1] {
            assert(lookup(a, dep) == lookup(b, dep));
            assert(has_key(a, dep) == has_key(b, dep));
        }
    }
}

/// The order does not depend on how the map of the features is walked.
pub proof fn law_install_order_is_deterministic(
    a: Seq<(Seq<char>, JsonView)>,
    b: Seq<(Seq<char>, JsonView)>,
)
    requires
        distinct_keys(a),
        distinct_keys(b),
        a.len() == b.len(),
        forall|k: Seq<char>| #[trigger] lookup(a, k) == lookup(b, k),
    ensures
        install_order(a) == install_order(b),
{
    let na = names_of(a);
    let nb = names_of(b);
    assert forall|k: Seq<char>| #[trigger] lookup(feature_table(a), k) == lookup(
        feature_table(b),
        k,
    ) by {
        lemma_table_entry(a, k);
        lemma_table_entry(b, k);
        assert(lookup(a, k) == lookup(b, k));
        if let Some(opts) = lookup(a, k) {
            if let Some(JsonView::Array(after)) = field(opts, "installsAfter"@) {
                lemma_same_steps(a, b, k, after, after.len() as int);
            }
        }
    }
    lemma_sorted_ascending(na);
    lemma_sorted_ascending(nb);
    assert forall|s: Seq<char>| sorted(na).contains(s) <==> sorted(nb).contains(s) by {
        lemma_sorted_contains(na, s);
        lemma_sorted_contains(nb, s);
        lemma_names_contain(a, s);
        lemma_names_contain(b, s);
        assert(lookup(a, s) == lookup(b, s));
    }
    lemma_ascending_unique(sorted(na), sorted(nb));
    law_walk_depends_on_entries_only(
        feature_table(a),
        feature_table(b),
        Some(circular_line()),
        sorted(na),
        na.len() as int,
    );
}

proof fn lemma_names_contain(m: Seq<(Seq<char>, JsonView)>, s: Seq<char>)
    ensures
        names_of(m).contains(s) <==> lookup(m, s) is Some,
{
    lemma_key_index(m, s, 0);
    let at = key_index(m, s, 0);
    if at < m.len() {
        assert(names_of(m)[at] == s);
    }
    if names_of(m).contains(s) {
        let k = choose|k: int| 0 <= k < names_of(m).len() && names_of(m)[k] == s;
        lemma_has_key(m, k);
    }
}

/// Whether the metadata of a feature says that it depends on another one.
pub open spec fn feature_depends(
    catalog: Seq<(Seq<char>, JsonView)>,
    id: Seq<char>,
    dep: Seq<char>,
) -> bool {
    lookup(catalog, id) matches Some(meta) && dependency_ids(id, meta).contains(dep)
}

/// The features in the order in which they count where none is installed.
pub open spec fn sorted_features(
    ids: Seq<Seq<char>>,
    catalog: Seq<(Seq<char>, JsonView)>,
) -> Seq<Seq<char>> {
    walk_of(dependency_table(catalog), None, sorted(ids)).order
}

proof fn lemma_dependency_index(catalog: Seq<(Seq<char>, JsonView)>, id: Seq<char>, i: int)
    requires
        0 <= i <= catalog.len(),
    ensures
        key_index(dependency_table(catalog), id, i) == key_index(catalog, id, i),
    decreases catalog.len() - i,
{
    if i < catalog.len() && catalog[i].0 != id {
        lemma_dependency_index(catalog, id, i + 1);
    }
}

proof fn lemma_feature_depends(
    catalog: Seq<(Seq<char>, JsonView)>,
    id: Seq<char>,
    dep: Seq<char>,
)
    ensures
        depends(dependency_table(catalog), id, dep) <==> feature_depends(catalog, id, dep),
{
    let table = dependency_table(catalog);
    lemma_dependency_index(catalog, id, 0);
    lemma_key_index(catalog, id, 0);
    let steps = steps_of(table, id);
    if let Some(meta) = lookup(catalog, id) {
        let deps = dependency_ids(id, meta);
        assert(steps == dependency_steps(id, meta));
        if deps.contains(dep) {
            let k = choose|k: int| 0 <= k < deps.len() && deps[k] == dep;
            assert(steps[k] == StepView::Visit(dep));
        }
        if depends(table, id, dep) {
            let k = choose|k: int|
                0 <= k < steps.len() && #[trigger] steps[k] == StepView::Visit(dep);
            assert(deps[k] == dep);
        }
    }
}

/// The sorted features are the requested ones and those that they depend on, directly or through
/// others, each once and no others, also where features depend on each other in a circle: the list
/// holds the requested features and with a feature all that it depends on, and `p` holds of all of
/// it for every `p` of which the same is true.
pub proof fn law_sorted_features_are_closed(
    ids: Seq<Seq<char>>,
    catalog: Seq<(Seq<char>, JsonView)>,
    p: spec_fn(Seq<char>) -> bool,
)
    ensures
        sorted_features(ids, catalog).no_duplicates(),
        forall|id: Seq<char>| #[trigger] ids.contains(id) ==> sorted_features(ids, catalog).contains(id),
        forall|id: Seq<char>, dep: Seq<char>|
            sorted_features(ids, catalog).contains(id) && #[trigger] feature_depends(
                catalog,
                id,
                dep,
            ) ==> sorted_features(ids, catalog).contains(dep),
        (forall|id: Seq<char>| #[trigger] ids.contains(id) ==> p(id)) && (forall|
            id: Seq<char>,
            dep: Seq<char>,
        |
            p(id) && #[trigger] feature_depends(catalog, id, dep) ==> p(dep)) ==> all_in(
            sorted_features(ids, catalog),
            p,
        ),
{
    let table = dependency_table(catalog);
    let roots = sorted(ids);
    let order = sorted_features(ids, catalog);
    law_walk_finishes_each_once(table, None, roots);
    assert forall|id: Seq<char>| #[trigger] ids.contains(id) implies order.contains(id) by {
        lemma_sorted_contains(ids, id);
        let i = choose|i: int| 0 <= i < roots.len() && roots[i] == id;
        assert(order.contains(roots[i]));
    }
    law_walk_is_closed(table, None, roots, roots.len() as int);
    assert forall|id: Seq<char>, dep: Seq<char>|
        order.contains(id) && #[trigger] feature_depends(catalog, id, dep) implies order.contains(
        dep,
    ) by {
        lemma_feature_depends(catalog, id, dep);
        let i = choose|i: int| 0 <= i < order.len() && order[i] == id;
        assert(depends(table, order[i], dep));
    }
    if (forall|id: Seq<char>| #[trigger] ids.contains(id) ==> p(id)) && (forall|
        id: Seq<char>,
        dep: Seq<char>,
    |
        p(id) && #[trigger] feature_depends(catalog, id, dep) ==> p(dep)) {
        assert forall|id: Seq<char>, dep: Seq<char>|
            p(id) && #[trigger] depends(table, id, dep) implies p(dep) by {
            lemma_feature_depends(catalog, id, dep);
        }
        assert forall|i: int| 0 <= i < roots.len() implies p(#[trigger] roots[i]) by {
            assert(roots.contains(roots[i]));
            lemma_sorted_contains(ids, roots[i]);
        }
        law_walk_stays_inside(table, None, roots, roots.len() as int, p);
    }
}

/// Applying what features ask for a second time changes nothing but the mounts, which are appended
/// again.
pub proof fn law_properties_apply_once(
    env: Seq<(Seq<char>, Seq<char>)>,
    caps: Seq<Seq<char>>,
    setting: Option<bool>,
    props: PropertiesView,
)
    ensures
        switched(switched(setting, props.privileged), props.privileged) == switched(
            setting,
            props.privileged,
        ),
        switched(switched(setting, props.init), props.init) == switched(setting, props.init),
        ({
            let once = defaulted_all(env, props.container_env);
            defaulted_all(once, props.container_env) == once
        }),
        ({
            let once = added_all(caps, props.cap_add);
            added_all(once, props.cap_add) == once
        }),
        ({
            let once = added_all(caps, props.security_opt);
            added_all(once, props.security_opt) == once
        }),
{
    lemma_defaulted_again(env, props.container_env, props.container_env.len());
    assert(props.container_env.take(props.container_env.len() as int) =~= props.container_env);
    lemma_added_again(caps, props.cap_add, props.cap_add.len());
    assert(props.cap_add.take(props.cap_add.len() as int) =~= props.cap_add);
    lemma_added_again(caps, props.security_opt, props.security_opt.len());
    assert(props.security_opt.take(props.security_opt.len() as int) =~= props.security_opt);
}

proof fn lemma_defaulted_again(
    env: Seq<(Seq<char>, Seq<char>)>,
    more: Seq<(Seq<char>, Seq<char>)>,
    n: nat,
)
    requires
        n <= more.len(),
    ensures
        defaulted_all(defaulted_all(env, more), more.take(n as int)) == defaulted_all(env, more),
    decreases n,
{
    if n > 0 {
        lemma_defaulted_again(env, more, (n - 1) as nat);
        assert(more.take(n as int).drop_last() =~= more.take(n - 1));
        lemma_has_key(more, n - 1);
        lemma_defaulted_all(env, more, more[n - 1].0);
    } else {
        assert(more.take(0) =~= Seq::empty());
    }
}

proof fn lemma_added_again(v: Seq<Seq<char>>, more: Seq<Seq<char>>, n: nat)
    requires
        n <= more.len(),
    ensures
        added_all(added_all(v, more), more.take(n as int)) == added_all(v, more),
    decreases n,
{
    if n > 0 {
        lemma_added_again(v, more, (n - 1) as nat);
        assert(more.take(n as int).drop_last() =~= more.take(n - 1));
        lemma_added_all(v, more);
        assert(added_all(v, more).contains(more[n - 1]));
    } else {
        assert(more.take(0) =~= Seq::empty());
    }
}

/// The variable of an option is the variable of its own name.
pub proof fn law_option_variables_stay(name: Seq<char>)
    ensures
        option_variable(option_variable(name)) == option_variable(name),
{
    reveal_strlit("_");
    let mapped = Seq::new(name.len(), |i: int| word_char(name[i]));
    let rest = without_lead(mapped);
    lemma_without_lead(mapped);
    let full = if rest.len() == mapped.len() {
        mapped
    } else {
        "_"@ + rest
    };
    let v = option_variable(name);
    assert(v =~= Seq::new(full.len(), |i: int| upper_char(full[i])));
    assert forall|i: int| 0 <= i < full.len() implies word_char(#[trigger] full[i]) == full[i] by {
        if rest.len() != mapped.len() && i > 0 {
            assert(full[i] == rest[i - 1]);
        }
    }
    assert forall|i: int| 0 <= i < v.len() implies word_char(#[trigger] v[i]) == v[i]
        && upper_char(v[i]) == v[i] by {
        assert(word_char(full[i]) == full[i]);
    }
    let again = Seq::new(v.len(), |i: int| word_char(v[i]));
    assert(again =~= v);
    if rest.len() == mapped.len() {
        assert(without_lead(v) == v);
    } else {
        assert(v[0] == '_');
        let tail = v.skip(1);
        assert(tail.len() == rest.len());
        if rest.len() > 0 {
            assert(full[1] == rest[0]);
            assert(tail[0] == upper_char(rest[0]));
        }
        assert(without_lead(tail) == tail);
        assert(without_lead(v) == tail);
        assert("_"@ + tail =~= v);
    }
    assert(option_variable(v) =~= v);
}

/// What is left after the lead was dropped is the end of the text, and has no lead.
proof fn lemma_without_lead(s: Seq<char>)
    ensures
        ({
            let rest = without_lead(s);
            &&& rest.len() <= s.len()
            &&& rest == s.skip(s.len() - rest.len())
            &&& rest.len() > 0 ==> !is_digit(rest[0]) && rest[0] != '_'
        }),
    decreases s.len(),
{
    if s.len() > 0 && (is_digit(s[0]) || s[0] == '_') {
        lemma_without_lead(s.skip(1));
        let rest = without_lead(s);
        assert(rest =~= s.skip(s.len() - rest.len()));
    } else {
        assert(s.skip(0) =~= s);
    }
}

// ---------------------------------------------------------------------------------------------
// Laws on customizations

/// What becomes of one value when another one is merged into it: objects are merged entry by entry,
/// lists are united, anything else is replaced.
pub open spec fn merged_value(existing: Option<JsonView>, incoming: JsonView) -> JsonView {
    match (existing, incoming) {
        (Some(JsonView::Object(dest)), JsonView::Object(src)) => JsonView::Object(
            merged_values(dest, src, src.len()),
        ),
        (Some(JsonView::Array(dest)), JsonView::Array(src)) => JsonView::Array(
            union(dest, src, src.len() as int),
        ),
        _ => incoming,
    }
}

/// Merging customizations concerns the incoming keys only, and each of them by the rule for one
/// value. Merging the same customizations a second time changes nothing.
pub proof fn law_customizations_merge(
    existing: Seq<(Seq<char>, JsonView)>,
    incoming: Seq<(Seq<char>, JsonView)>,
    key: Seq<char>,
)
    requires
        well_formed(JsonView::Object(incoming)),
    ensures
        ({
            let merged = merged_values(existing, incoming, incoming.len());
            &&& lookup(merged, key) == (match lookup(incoming, key) {
                Some(value) => Some(merged_value(lookup(existing, key), value)),
                None => lookup(existing, key),
            })
            &&& merged_values(merged, incoming, incoming.len()) == merged
        }),
{
    lemma_merged_lookup(existing, incoming, incoming.len(), key);
    lemma_merged_again(existing, incoming, incoming.len());
}

proof fn lemma_merged_lookup(
    existing: Seq<(Seq<char>, JsonView)>,
    incoming: Seq<(Seq<char>, JsonView)>,
    n: nat,
    key: Seq<char>,
)
    requires
        distinct_keys(incoming),
        n <= incoming.len(),
    ensures
        lookup(merged_values(existing, incoming, n), key) == (if key_index(incoming, key, 0) < n {
            Some(merged_value(lookup(existing, key), incoming[key_index(incoming, key, 0)].1))
        } else {
            lookup(existing, key)
        }),
    decreases n,
{
    lemma_key_index(incoming, key, 0);
    if n > 0 {
        lemma_merged_lookup(existing, incoming, (n - 1) as nat, key);
        let before = merged_values(existing, incoming, (n - 1) as nat);
        let (k, v) = incoming[n - 1];
        lemma_inserted_lookup(before, k, merged_value(lookup(before, k), v), key);
        if k == key {
            assert(key_index(incoming, key, 0) == n - 1);
        }
    }
}

/// Merging the first `n` entries into the outcome changes nothing.
proof fn lemma_merged_again(
    existing: Seq<(Seq<char>, JsonView)>,
    incoming: Seq<(Seq<char>, JsonView)>,
    n: nat,
)
    requires
        well_formed(JsonView::Object(incoming)),
        n <= incoming.len(),
    ensures
        ({
            let merged = merged_values(existing, incoming, incoming.len());
            merged_values(merged, incoming, n) == merged
        }),
    decreases incoming, n,
{
    if n > 0 {
        let merged = merged_values(existing, incoming, incoming.len());
        lemma_merged_again(existing, incoming, (n - 1) as nat);
        let (k, v) = incoming[n - 1];
        lemma_key_index(incoming, k, 0);
        lemma_merged_lookup(existing, incoming, incoming.len(), k);
        let old = lookup(existing, k);
        assert(well_formed(incoming[n - 1].1));
        match v {
            JsonView::Object(src) => {
                assert(decreases_to!(incoming => incoming[n - 1]));
                assert(decreases_to!(incoming[n - 1] => incoming[n - 1].1));
                assert(decreases_to!(incoming[n - 1].1 => incoming[n - 1].1->Object_0));
                match old {
                    Some(JsonView::Object(dest)) => {
                        lemma_merged_again(dest, src, src.len());
                    },
                    _ => {
                        lemma_merged_into_itself(src, src.len());
                    },
                }
            },
            JsonView::Array(src) => {
                match old {
                    Some(JsonView::Array(dest)) => {
                        lemma_union_again(dest, src, src.len() as int);
                    },
                    _ => {
                        lemma_union_of_itself(src, src.len() as int);
                    },
                }
            },
            _ => {},
        }
        assert(merged_value(lookup(merged, k), v) == merged_value(old, v));
        lemma_inserted_same(merged, k);
    }
}

proof fn lemma_merged_into_itself(m: Seq<(Seq<char>, JsonView)>, n: nat)
    requires
        well_formed(JsonView::Object(m)),
        n <= m.len(),
    ensures
        merged_values(m, m, n) == m,
    decreases m, n,
{
    if n > 0 {
        lemma_merged_into_itself(m, (n - 1) as nat);
        let (k, v) = m[n - 1];
        lemma_key_index(m, k, 0);
        assert(lookup(m, k) == Some(v));
        assert(well_formed(m[n - 1].1));
        match v {
            JsonView::Object(src) => {
                assert(decreases_to!(m => m[n - 1]));
                assert(decreases_to!(m[n - 1] => m[n - 1].1));
                assert(decreases_to!(m[n - 1].1 => m[n - 1].1->Object_0));
                lemma_merged_into_itself(src, src.len());
            },
            JsonView::Array(src) => {
                lemma_union_of_itself(src, src.len() as int);
            },
            _ => {},
        }
        lemma_inserted_same(m, k);
    }
}

/// Binding a key to what it is bound to changes nothing.
proof fn lemma_inserted_same(m: Seq<(Seq<char>, JsonView)>, key: Seq<char>)
    requires
        has_key(m, key),
    ensures
        inserted(m, key, lookup(m, key)->Some_0) == m,
{
    lemma_key_index(m, key, 0);
    assert(inserted(m, key, lookup(m, key)->Some_0) =~= m);
}

/// The union holds what was there and all the items that were added.
proof fn lemma_union_holds(v: Seq<JsonView>, more: Seq<JsonView>, n: int, j: JsonView)
    requires
        0 <= n <= more.len(),
        forall|i: int| 0 <= i < more.len() ==> well_formed(#[trigger] more[i]),
        holds(v, j) || exists|i: int| 0 <= i < n && #[trigger] more[i] == j,
    ensures
        holds(union(v, more, n), j),
    decreases n,
{
    if n > 0 {
        let before = union(v, more, n - 1);
        let after = union(v, more, n);
        if holds(v, j) || exists|i: int| 0 <= i < n - 1 && #[trigger] more[i] == j {
            lemma_union_holds(v, more, n - 1, j);
            let k = choose|k: int| 0 <= k < before.len() && same_json(#[trigger] before[k], j);
            assert(after[k] == before[k]);
        } else if !holds(before, j) {
            lemma_same_json(j);
            assert(after[before.len() as int] == j);
        }
    }
}

proof fn lemma_union_again(v: Seq<JsonView>, more: Seq<JsonView>, n: int)
    requires
        0 <= n <= more.len(),
        forall|i: int| 0 <= i < more.len() ==> well_formed(#[trigger] more[i]),
    ensures
        ({
            let all = union(v, more, more.len() as int);
            union(all, more, n) == all
        }),
    decreases n,
{
    if n > 0 {
        lemma_union_again(v, more, n - 1);
        lemma_union_holds(v, more, more.len() as int, more[n - 1]);
    }
}

proof fn lemma_union_of_itself(v: Seq<JsonView>, n: int)
    requires
        0 <= n <= v.len(),
        forall|i: int| 0 <= i < v.len() ==> well_formed(#[trigger] v[i]),
    ensures
        union(v, v, n) == v,
    decreases n,
{
    if n > 0 {
        lemma_union_of_itself(v, n - 1);
        lemma_same_json(v[n - 1]);
    }
}

/// A document is equal to itself.
proof fn lemma_same_json(j: JsonView)
    requires
        well_formed(j),
    ensures
        same_json(j, j),
    decreases j,
{
    match j {
        JsonView::Array(a) => {
            assert forall|i: int| 0 <= i < a.len() implies same_json(#[trigger] a[i], a[i]) by {
                lemma_same_json(a[i]);
            }
        },
        JsonView::Object(m) => {
            assert forall|i: int| 0 <= i < m.len() implies (lookup(m, (#[trigger] m[i]).0) matches Some(
                v,
            ) && same_json(m[i].1, v)) by {
                lemma_key_index(m, m[i].0, 0);
                lemma_same_json(m[i].1);
            }
        },
        _ => {},
    }
}

// ---------------------------------------------------------------------------------------------
// What features ask for

proof fn lemma_listed_texts(v: Seq<Seq<char>>)
    ensures
        strings_of(Seq::new(v.len(), |i: int| JsonView::String(v[i]))) == v,
    decreases v.len(),
{
    let a = Seq::new(v.len(), |i: int| JsonView::String(v[i]));
    if v.len() > 0 {
        lemma_listed_texts(v.drop_last());
        assert(a.drop_last() =~= Seq::new(
            v.drop_last().len(),
            |i: int| JsonView::String(v.drop_last()[i]),
        ));
    }
    assert(strings_of(a) =~= v);
}

/// What a feature asks of the container is what its metadata says under the names for it: nothing is
/// switched on but by `true`, lists of texts are taken as they are, and each variable has its value.
pub proof fn law_properties_of_metadata(
    m: Seq<(Seq<char>, JsonView)>,
    v: Seq<Seq<char>>,
    env: Seq<(Seq<char>, JsonView)>,
    i: int,
)
    ensures
        ({
            let props = properties_of(Some(JsonView::Object(m)));
            let list = JsonView::Array(Seq::new(v.len(), |i: int| JsonView::String(v[i])));
            &&& props.privileged <==> lookup(m, "privileged"@) == Some(JsonView::Bool(true))
            &&& props.init <==> lookup(m, "init"@) == Some(JsonView::Bool(true))
            &&& lookup(m, "capAdd"@) == Some(list) ==> props.cap_add == v
            &&& lookup(m, "capAdd"@) is None ==> props.cap_add.len() == 0
            &&& lookup(m, "securityOpt"@) == Some(list) ==> props.security_opt == v
            &&& lookup(m, "securityOpt"@) is None ==> props.security_opt.len() == 0
            &&& lookup(m, "mounts"@) == Some(list) ==> props.mounts == Seq::new(
                v.len(),
                |i: int| MountView::String(v[i]),
            )
            &&& lookup(m, "mounts"@) is None ==> props.mounts.len() == 0
            &&& lookup(m, "containerEnv"@) == Some(JsonView::Object(env)) && distinct_keys(env) && 0
                <= i < env.len() ==> lookup(props.container_env, env[i].0) == Some(
                env_text(env[i].1),
            )
            &&& lookup(m, "containerEnv"@) is None ==> props.container_env.len() == 0
        }),
{
    lemma_listed_texts(v);
    lemma_text_mounts(v);
    if distinct_keys(env) && 0 <= i < env.len() {
        lemma_entries_bound(env_entries(env), i);
    }
}

proof fn lemma_text_mounts(v: Seq<Seq<char>>)
    ensures
        valid_mounts(Seq::new(v.len(), |i: int| JsonView::String(v[i]))) == Seq::new(
            v.len(),
            |i: int| MountView::String(v[i]),
        ),
    decreases v.len(),
{
    let a = Seq::new(v.len(), |i: int| JsonView::String(v[i]));
    let b = Seq::new(v.len(), |i: int| MountView::String(v[i]));
    if v.len() > 0 {
        lemma_text_mounts(v.drop_last());
        assert(a.drop_last() =~= Seq::new(
            v.drop_last().len(),
            |i: int| JsonView::String(v.drop_last()[i]),
        ));
    }
    assert(valid_mounts(a) =~= b);
}

proof fn lemma_entries_bound(env: Seq<(Seq<char>, Seq<char>)>, i: int)
    requires
        distinct_keys(env),
        0 <= i < env.len(),
    ensures
        lookup(inserted_all(Seq::empty(), env), env[i].0) == Some(env[i].1),
    decreases env.len(),
{
    let before = inserted_all(Seq::empty(), env.drop_last());
    lemma_inserted_lookup(before, env.last().0, env.last().1, env[i].0);
    if i < env.len() - 1 {
        assert(env.drop_last()[i] == env[i]);
        lemma_entries_bound(env.drop_last(), i);
    }
}

/// A variable has the value that features give it as texts, numbers and truth values say it.
pub proof fn law_variable_texts(s: Seq<char>, b: bool)
    ensures
        env_text(JsonView::String(s)) == s,
        env_text(JsonView::Bool(true)) == "true"@,
        env_text(JsonView::Bool(false)) == "false"@,
{
}

/// What two features ask for together: what one of them switches on is on, mounts come in their order,
/// capabilities and security options are those of both, and a variable has the value of the later one
/// that sets it.
pub proof fn law_properties_merge(a: PropertiesView, b: PropertiesView, key: Seq<char>, s: Seq<char>)
    ensures
        ({
            let both = merged_properties(a, b);
            let later = merged_properties(no_properties(), b);
            &&& both.privileged <==> a.privileged || b.privileged
            &&& both.init <==> a.init || b.init
            &&& both.mounts == a.mounts + b.mounts
            &&& both.cap_add.contains(s) <==> a.cap_add.contains(s) || b.cap_add.contains(s)
            &&& both.security_opt.contains(s) <==> a.security_opt.contains(s)
                || b.security_opt.contains(s)
            &&& has_key(later.container_env, key) ==> lookup(both.container_env, key) == lookup(
                later.container_env,
                key,
            )
            &&& !has_key(later.container_env, key) ==> lookup(both.container_env, key) == lookup(
                a.container_env,
                key,
            )
        }),
{
    lemma_inserted_all(a.container_env, b.container_env, key);
    lemma_added_holds(a.cap_add, b.cap_add, s);
    lemma_added_holds(a.security_opt, b.security_opt, s);
}

proof fn lemma_added_holds(v: Seq<Seq<char>>, more: Seq<Seq<char>>, s: Seq<char>)
    ensures
        added_all(v, more).contains(s) <==> v.contains(s) || more.contains(s),
    decreases more.len(),
{
    if more.len() > 0 {
        let before = added_all(v, more.drop_last());
        let last = more.last();
        lemma_added_holds(v, more.drop_last(), s);
        if more.contains(s) {
            let k = choose|k: int| 0 <= k < more.len() && more[k] == s;
            if k < more.len() - 1 {
                assert(more.drop_last()[k] == s);
            }
        }
        if more.drop_last().contains(s) {
            let k = choose|k: int| 0 <= k < more.drop_last().len() && more.drop_last()[k] == s;
            assert(more[k] == s);
        }
        assert(more[more.len() - 1] == last);
        let now = added(before, last);
        if before.contains(s) {
            let k = choose|k: int| 0 <= k < before.len() && before[k] == s;
            assert(now[k] == s);
        }
        if s == last && !before.contains(last) {
            assert(now[before.len() as int] == s);
        }
        if now.contains(s) && s != last {
            let k = choose|k: int| 0 <= k < now.len() && now[k] == s;
            assert(before[k] == s);
        }
    }
}

/// What features ask for reaches the configuration, member by member: a switch that they do not ask for
/// stays as it was, the configuration's own variables and mounts stay, and nothing but these six members
/// changes.
pub proof fn law_applied_properties(
    before: DevContainerConfig,
    after: DevContainerConfig,
    props: FeatureContainerProperties,
    key: Seq<char>,
    s: Seq<char>,
)
    requires
        applied(before, after, props),
    ensures
        props.privileged ==> after.privileged == Some(true),
        !props.privileged ==> after.privileged == before.privileged,
        props.init ==> after.init == Some(true),
        !props.init ==> after.init == before.init,
        after.mounts@.take(before.mounts@.len() as int) == before.mounts@,
        after.mounts@.skip(before.mounts@.len() as int) == props.mounts@,
        has_key(before.container_env@, key) ==> lookup(after.container_env@, key) == lookup(
            before.container_env@,
            key,
        ),
        !has_key(before.container_env@, key) ==> lookup(after.container_env@, key) == lookup(
            props.container_env@,
            key,
        ),
        texts(after.cap_add@).contains(s) <==> texts(before.cap_add@).contains(s) || texts(
            props.cap_add@,
        ).contains(s),
        texts(after.security_opt@).contains(s) <==> texts(before.security_opt@).contains(s) || texts(
            props.security_opt@,
        ).contains(s),
        after.image == before.image && after.run_args == before.run_args && after.remote_user
            == before.remote_user && after.container_user == before.container_user
            && after.workspace_mount == before.workspace_mount && after.remote_env
            == before.remote_env && after.forward_ports == before.forward_ports,
{
    assert(after.mounts@.take(before.mounts@.len() as int) =~= before.mounts@);
    assert(after.mounts@.skip(before.mounts@.len() as int) =~= props.mounts@);
    lemma_defaulted_all(before.container_env@, props.container_env@, key);
    lemma_added_holds(texts(before.cap_add@), texts(props.cap_add@), s);
    lemma_added_holds(texts(before.security_opt@), texts(props.security_opt@), s);
}

/// A feature brings along the commands that its metadata declares under the names of the lifecycle, and
/// no others; null declares none.
pub proof fn law_hooks_of_metadata(m: Seq<(Seq<char>, JsonView)>, name: Seq<char>, v: JsonView)
    ensures
        hooks_of(Some(JsonView::Object(m)), 5).contains((name, v)) <==> (name == "onCreateCommand"@
            || name == "updateContentCommand"@ || name == "postCreateCommand"@ || name
            == "postStartCommand"@ || name == "postAttachCommand"@) && lookup(m, name) == Some(v) && v
            != JsonView::Null,
        hooks_of(None, 5).len() == 0,
{
    lemma_hooks_hold(m, name, v, 5);
    reveal_with_fuel(hooks_of, 6);
    assert(hook_names()[0] == "onCreateCommand"@);
    assert(hook_names()[1] == "updateContentCommand"@);
    assert(hook_names()[2] == "postCreateCommand"@);
    assert(hook_names()[3] == "postStartCommand"@);
    assert(hook_names()[4] == "postAttachCommand"@);
    if hook_names().contains(name) {
        let k = choose|k: int| 0 <= k < 5 && hook_names()[k] == name;
        assert(k == 0 || k == 1 || k == 2 || k == 3 || k == 4);
    }
    assert(hook_names().take(5) =~= hook_names());
}

proof fn lemma_hooks_hold(m: Seq<(Seq<char>, JsonView)>, name: Seq<char>, v: JsonView, n: int)
    requires
        0 <= n <= 5,
    ensures
        hooks_of(Some(JsonView::Object(m)), n).contains((name, v)) <==> hook_names().take(n).contains(
            name,
        ) && lookup(m, name) == Some(v) && v != JsonView::Null,
    decreases n,
{
    let meta = Some(JsonView::Object(m));
    if n > 0 {
        lemma_hooks_hold(m, name, v, n - 1);
        let before = hooks_of(meta, n - 1);
        let now = hooks_of(meta, n);
        let first = hook_names().take(n - 1);
        let all = hook_names().take(n);
        let last = hook_names()[n - 1];
        assert(all =~= first.push(last));
        if first.contains(name) {
            let k = choose|k: int| 0 <= k < first.len() && first[k] == name;
            assert(all[k] == name);
        }
        assert(all[n - 1] == last);
        if all.contains(name) && name != last {
            let k = choose|k: int| 0 <= k < all.len() && all[k] == name;
            assert(first[k] == name);
        }
        if before.contains((name, v)) {
            let k = choose|k: int| 0 <= k < before.len() && before[k] == (name, v);
            assert(now[k] == (name, v));
        }
        if name == last && lookup(m, name) == Some(v) && v != JsonView::Null {
            assert(now.last() == (name, v));
        }
        if now.contains((name, v)) && !before.contains((name, v)) {
            let k = choose|k: int| 0 <= k < now.len() && now[k] == (name, v);
            if k < before.len() {
                assert(before[k] == (name, v));
            }
        }
    }
}

/// The hooks of several features come feature by feature in the order of the features.
pub proof fn law_hooks_come_feature_by_feature(
    ids: Seq<Seq<char>>,
    id: Seq<char>,
    catalog: Seq<(Seq<char>, JsonView)>,
)
    ensures
        all_hooks(ids.push(id), catalog, ids.len() as int + 1) == all_hooks(ids, catalog, ids.len() as int)
            + hooks_of(lookup(catalog, id), 5),
{
    lemma_hooks_prefix(ids, id, catalog, ids.len() as int);
}

proof fn lemma_hooks_prefix(
    ids: Seq<Seq<char>>,
    id: Seq<char>,
    catalog: Seq<(Seq<char>, JsonView)>,
    n: int,
)
    requires
        0 <= n <= ids.len(),
    ensures
        all_hooks(ids.push(id), catalog, n) == all_hooks(ids, catalog, n),
    decreases n,
{
    if n > 0 {
        lemma_hooks_prefix(ids, id, catalog, n - 1);
        assert(ids.push(id)[n - 1] == ids[n - 1]);
    }
}

/// A text in place of options is the version that is wanted; options are taken as they are.
pub proof fn law_effective_options(s: Seq<char>, m: Seq<(Seq<char>, JsonView)>)
    ensures
        field(effective_opts(JsonView::String(s)), "version"@) == Some(JsonView::String(s)),
        effective_opts(JsonView::Object(m)) == JsonView::Object(m),
        effective_opts(JsonView::Null) == JsonView::Null,
{
    let one = seq![("version"@, JsonView::String(s))];
    lemma_key_index(one, "version"@, 0);
    assert(one[0].0 == "version"@);
}

/// An option that is not given has the default that the feature declares for it, and is left out where it
/// declares none.
pub proof fn law_defaults_fill_in(
    given: Seq<(Seq<char>, JsonView)>,
    declared: Seq<(Seq<char>, JsonView)>,
    meta: JsonView,
    i: int,
)
    requires
        0 <= i < declared.len(),
        distinct_keys(declared),
        field(meta, "options"@) == Some(JsonView::Object(declared)),
        !has_key(given, declared[i].0),
    ensures
        field(defaults_merged(JsonView::Object(given), Some(meta)), declared[i].0) == (match field(
            declared[i].1,
            "default"@,
        ) {
            Some(JsonView::Null) => None,
            other => other,
        }),
{
    lemma_default_filled(given, declared, declared.len() as int, i);
}

proof fn lemma_default_filled(
    given: Seq<(Seq<char>, JsonView)>,
    declared: Seq<(Seq<char>, JsonView)>,
    n: int,
    i: int,
)
    requires
        0 <= i < declared.len(),
        0 <= n <= declared.len(),
        distinct_keys(declared),
        !has_key(given, declared[i].0),
    ensures
        lookup(with_defaults(given, declared, n), declared[i].0) == (if i < n {
            match field(declared[i].1, "default"@) {
                Some(JsonView::Null) => None,
                other => other,
            }
        } else {
            None
        }),
    decreases n,
{
    let name = declared[i].0;
    if n > 0 {
        lemma_default_filled(given, declared, n - 1, i);
        let before = with_defaults(given, declared, n - 1);
        let entry = declared[n - 1];
        lemma_key_index(before, name, 0);
        if let Some(default) = field(entry.1, "default"@) {
            lemma_inserted_lookup(before, entry.0, default, name);
        }
        if i != n - 1 {
            assert(entry.0 != name) by {
                if i < n - 1 {
                    assert(declared[i].0 != declared[n - 1].0);
                } else {
                    assert(declared[n - 1].0 != declared[i].0);
                }
            }
        }
    } else {
        lemma_key_index(given, name, 0);
    }
}

/// A given value is warned about if and only if the feature lists the allowed values of that option and
/// it is none of them.
pub proof fn law_allowed_values(
    id: Seq<char>,
    given: Seq<(Seq<char>, JsonView)>,
    declared: Seq<(Seq<char>, JsonView)>,
    meta: JsonView,
)
    requires
        field(meta, "options"@) == Some(JsonView::Object(declared)),
    ensures
        invalid_options(id, JsonView::Object(given), Some(meta)).len() == 0 <==> (forall|i: int|
            0 <= i < declared.len() ==> value_allowed(given, #[trigger] declared[i])),
{
    lemma_no_messages(id, given, declared, declared.len() as int);
}

/// Whether the value that is given for a declared option, if one is, is among those that are listed, if
/// any are.
pub open spec fn value_allowed(
    given: Seq<(Seq<char>, JsonView)>,
    option: (Seq<char>, JsonView),
) -> bool {
    lookup(given, option.0) matches Some(value) ==> (field(option.1, "enum"@) matches Some(
        JsonView::Array(allowed),
    ) ==> exists|k: int|
        0 <= k < allowed.len() && plain_text(#[trigger] allowed[k]) == plain_text(value))
}

proof fn lemma_no_messages(
    id: Seq<char>,
    given: Seq<(Seq<char>, JsonView)>,
    declared: Seq<(Seq<char>, JsonView)>,
    n: int,
)
    requires
        0 <= n <= declared.len(),
    ensures
        option_messages(id, given, declared, n).len() == 0 <==> (forall|i: int|
            0 <= i < n ==> value_allowed(given, #[trigger] declared[i])),
    decreases n,
{
    if n > 0 {
        lemma_no_messages(id, given, declared, n - 1);
        let option = declared[n - 1];
        let message = option_message(id, given, option.0, option.1);
        assert(message is None <==> value_allowed(given, option)) by {
            if let Some(value) = lookup(given, option.0) {
                if let Some(JsonView::Array(allowed)) = field(option.1, "enum"@) {
                    let list = plain_texts(allowed);
                    let wanted = plain_text(value);
                    if list.contains(wanted) {
                        let k = choose|k: int| 0 <= k < list.len() && list[k] == wanted;
                        assert(plain_text(allowed[k]) == wanted);
                    }
                    if exists|k: int|
                        0 <= k < allowed.len() && plain_text(#[trigger] allowed[k]) == wanted {
                        let k = choose|k: int|
                            0 <= k < allowed.len() && plain_text(#[trigger] allowed[k]) == wanted;
                        assert(list[k] == wanted);
                    }
                }
            }
        }
        if option_messages(id, given, declared, n).len() == 0 {
            assert forall|i: int| 0 <= i < n implies value_allowed(given, #[trigger] declared[i]) by {
                if i == n - 1 {
                    assert(message is None);
                }
            }
        }
    }
}

/// A feature depends on those that its metadata names under `dependsOn`, itself left out.
pub proof fn law_dependencies(id: Seq<char>, m: Seq<(Seq<char>, JsonView)>, dep: Seq<char>)
    ensures
        dependency_ids(id, JsonView::Object(m)).contains(dep) <==> dep != id && (lookup(
            m,
            "dependsOn"@,
        ) matches Some(JsonView::Object(deps)) && has_key(deps, dep)),
{
    let deps = object_of(lookup(m, "dependsOn"@));
    let all = sorted(names_of(deps));
    lemma_sorted_contains(names_of(deps), dep);
    lemma_not_in(all, seq![id], dep);
    lemma_key_index(deps, dep, 0);
    if names_of(deps).contains(dep) {
        let k = choose|k: int| 0 <= k < names_of(deps).len() && names_of(deps)[k] == dep;
        assert(deps[k].0 == dep);
        lemma_has_key(deps, k);
    }
    if has_key(deps, dep) {
        let k = key_index(deps, dep, 0);
        assert(names_of(deps)[k] == dep);
    }
    assert(seq![id].contains(dep) <==> dep == id) by {
        if dep == id {
            assert(seq![id][0] == dep);
        }
    }
}

pub proof fn lemma_not_in(v: Seq<Seq<char>>, w: Seq<Seq<char>>, s: Seq<char>)
    ensures
        not_in(v, w).contains(s) <==> v.contains(s) && !w.contains(s),
    decreases v.len(),
{
    if v.len() > 0 {
        lemma_not_in(v.drop_last(), w, s);
        let before = not_in(v.drop_last(), w);
        let now = not_in(v, w);
        if before.contains(s) {
            let k = choose|k: int| 0 <= k < before.len() && before[k] == s;
            assert(now[k] == s);
        }
        if v.drop_last().contains(s) {
            let k = choose|k: int| 0 <= k < v.drop_last().len() && v.drop_last()[k] == s;
            assert(v[k] == s);
        }
        assert(v[v.len() - 1] == v.last());
        if v.contains(s) && s != v.last() {
            let k = choose|k: int| 0 <= k < v.len() && v[k] == s;
            assert(v.drop_last()[k] == s);
        }
        if s == v.last() && !w.contains(s) {
            assert(now.last() == s);
        }
        if now.contains(s) && !before.contains(s) {
            let k = choose|k: int| 0 <= k < now.len() && now[k] == s;
            if k < before.len() {
                assert(before[k] == s);
            }
        }
    }
}

/// The directory of a feature is a name of its own, not a path: it holds no slash and no dot, and at the
/// place of every ASCII letter and digit of the identifier it holds that letter or digit.
pub proof fn law_directories_are_names(id: Seq<char>)
    ensures
        ({
            let name = directory_of(id);
            &&& name.len() == id.len() + 9
            &&& !name.take(id.len() as int).contains('/') && !name.take(id.len() as int).contains('.')
            &&& forall|i: int| 0 <= i < id.len() && is_ascii_alnum(#[trigger] id[i]) ==> name[i] == id[i]
            &&& name[id.len() as int] == '-'
        }),
{
    let name = directory_of(id);
    lemma_hex_len(fnv1a(encode_utf8(id)) as nat, 8);
    reveal_strlit("-");
    let front = name.take(id.len() as int);
    assert(front =~= readable_id(id));
    if front.contains('/') {
        let k = choose|k: int| 0 <= k < front.len() && front[k] == '/';
        assert(!is_alnum('/'));
    }
    if front.contains('.') {
        let k = choose|k: int| 0 <= k < front.len() && front[k] == '.';
        assert(!is_alnum('.'));
    }
}

/// The variable of an option whose name begins with a letter is that name in capitals, with an underscore
/// in place of everything but letters, digits and underscores.
pub proof fn law_option_variables(name: Seq<char>)
    requires
        name.len() > 0,
        'a' <= name[0] <= 'z' || 'A' <= name[0] <= 'Z',
    ensures
        ({
            let v = option_variable(name);
            &&& v.len() == name.len()
            &&& forall|i: int|
                0 <= i < name.len() && ('A' <= #[trigger] name[i] <= 'Z' || is_digit(name[i]))
                    ==> v[i] == name[i]
            &&& forall|i: int|
                0 <= i < name.len() && 'a' <= #[trigger] name[i] <= 'z' ==> v[i] as int
                    == name[i] as int - 32
            &&& forall|i: int|
                0 <= i < name.len() && !is_ascii_alnum(#[trigger] name[i]) ==> v[i] == '_'
        }),
{
    let mapped = Seq::new(name.len(), |i: int| word_char(name[i]));
    assert(mapped[0] == name[0]);
    assert(without_lead(mapped) == mapped);
}

/// The metadata of a feature is that of the first of its two files that is there and is a document.
pub proof fn law_metadata_files(a: Seq<char>, b: Seq<char>)
    ensures
        parsed_text(a) is Some ==> metadata_of(Some(a), Some(b)) == parsed_text(a),
        parsed_text(a) is None ==> metadata_of(Some(a), Some(b)) == parsed_text(b),
        metadata_of(None, Some(b)) == parsed_text(b),
        metadata_of(Some(a), None) == parsed_text(a),
        metadata_of(None, None) is None,
{
}

/// A mount is read from an object by the names of its members and from a list by their places, and both
/// ways mean the same.
pub proof fn law_mounts_of_documents(
    source: Seq<char>,
    target: Seq<char>,
    kind: Seq<char>,
    readonly: bool,
    m: Seq<(Seq<char>, JsonView)>,
)
    ensures
        ({
            let mount = MountView::Object(Some(source), Some(target), Some(kind), Some(readonly));
            &&& lookup(m, "source"@) == Some(JsonView::String(source)) && lookup(m, "target"@)
                == Some(JsonView::String(target)) && lookup(m, "type"@) == Some(
                JsonView::String(kind),
            ) && lookup(m, "readonly"@) == Some(JsonView::Bool(readonly)) ==> mount_of_json(
                JsonView::Object(m),
            ) == Some(mount)
            &&& mount_of_json(
                JsonView::Array(
                    seq![
                        JsonView::String(source),
                        JsonView::String(target),
                        JsonView::String(kind),
                        JsonView::Bool(readonly),
                    ],
                ),
            ) == Some(mount)
            &&& mount_of_json(JsonView::String(source)) == Some(MountView::String(source))
        }),
{
}

proof fn lemma_after_steps(
    features: Seq<(Seq<char>, JsonView)>,
    id: Seq<char>,
    after: Seq<JsonView>,
    n: int,
    dep: Seq<char>,
)
    requires
        0 <= n <= after.len(),
    ensures
        after_steps(features, id, after, n).contains(StepView::Visit(dep)) <==> has_key(
            features,
            dep,
        ) && after.take(n).contains(JsonView::String(dep)),
    decreases n,
{
    let now = after_steps(features, id, after, n);
    let visit = StepView::Visit(dep);
    let name = JsonView::String(dep);
    if n > 0 {
        lemma_after_steps(features, id, after, n - 1, dep);
        let before = after_steps(features, id, after, n - 1);
        assert(after.take(n) =~= after.take(n - 1).push(after[n - 1]));
        if before.contains(visit) {
            let k = choose|k: int| 0 <= k < before.len() && before[k] == visit;
            assert(now[k] == visit);
        }
        if now.contains(visit) {
            let k = choose|k: int| 0 <= k < now.len() && now[k] == visit;
            if k < before.len() {
                assert(before[k] == visit);
            }
        }
        if after.take(n - 1).contains(name) {
            let early = after.take(n - 1);
            let k = choose|k: int| 0 <= k < early.len() && early[k] == name;
            assert(after.take(n)[k] == name);
        }
        if after.take(n).contains(name) {
            let all = after.take(n);
            let k = choose|k: int| 0 <= k < all.len() && all[k] == name;
            if k < n - 1 {
                assert(after.take(n - 1)[k] == name);
            }
        }
        if after[n - 1] == name {
            assert(after.take(n)[n - 1] == name);
            if has_key(features, dep) {
                assert(now[now.len() - 1] == visit);
            }
        }
    }
}

/// A requested feature comes after another one if and only if that one is requested too and stands in
/// its `installsAfter` list.
pub proof fn law_comes_after(
    features: Seq<(Seq<char>, JsonView)>,
    id: Seq<char>,
    dep: Seq<char>,
    after: Seq<JsonView>,
    other: JsonView,
)
    requires
        lookup(features, id) is Some,
    ensures
        field(lookup(features, id)->0, "installsAfter"@) == Some(JsonView::Array(after)) ==> (
        comes_after(features, id, dep) <==> has_key(features, dep) && after.contains(
            JsonView::String(dep),
        )),
        field(lookup(features, id)->0, "installsAfter"@) is None ==> !comes_after(
            features,
            id,
            dep,
        ),
{
    lemma_table_entry(features, id);
    let opts = lookup(features, id)->0;
    let steps = steps_of(feature_table(features), id);
    if field(opts, "installsAfter"@) == Some(JsonView::Array(after)) {
        lemma_after_steps(features, id, after, after.len() as int, dep);
        assert(after.take(after.len() as int) =~= after);
        assert(steps == after_steps(features, id, after, after.len() as int));
        if steps.contains(StepView::Visit(dep)) {
            let k = choose|k: int| 0 <= k < steps.len() && steps[k] == StepView::Visit(dep);
            assert(steps[k] == StepView::Visit(dep));
        }
    }
}

/// A list that a feature's metadata declares counts where the request has none, and nothing else of
/// the request changes.
pub proof fn law_declared_order(
    m: Seq<(Seq<char>, JsonView)>,
    meta: JsonView,
    a: Seq<JsonView>,
    key: Seq<char>,
)
    requires
        field(meta, "installsAfter"@) == Some(JsonView::Array(a)),
    ensures
        ({
            let now = with_installs_after(JsonView::Object(m), Some(meta));
            &&& lookup(m, "installsAfter"@) is None ==> field(now, "installsAfter"@) == Some(
                JsonView::Array(a),
            )
            &&& lookup(m, "installsAfter"@) is Some ==> now == JsonView::Object(m)
            &&& key != "installsAfter"@ ==> field(now, key) == lookup(m, key)
            &&& with_installs_after(JsonView::Object(m), None) == JsonView::Object(m)
        }),
{
    lemma_inserted_lookup(m, "installsAfter"@, JsonView::Array(a), key);
    lemma_inserted_lookup(m, "installsAfter"@, JsonView::Array(a), "installsAfter"@);
}

/// The features are taken in the given order, and those that it leaves out behind it by name.
pub proof fn law_given_order(features: Seq<Seq<char>>, order: Seq<Seq<char>>, id: Seq<char>)
    ensures
        ids_in_order(features, order).take(order.len() as int) == order,
        ids_in_order(features, order).contains(id) <==> features.contains(id) || order.contains(id),
        ids_in_order(features, order).skip(order.len() as int).contains(id) <==> features.contains(
            id,
        ) && !order.contains(id),
{
    let rest = sorted(not_in(features, order));
    let all = ids_in_order(features, order);
    assert(all.take(order.len() as int) =~= order);
    assert(all.skip(order.len() as int) =~= rest);
    lemma_not_in(features, order, id);
    lemma_sorted_contains(not_in(features, order), id);
    if order.contains(id) {
        let k = choose|k: int| 0 <= k < order.len() && order[k] == id;
        assert(all[k] == id);
    }
    if rest.contains(id) {
        let k = choose|k: int| 0 <= k < rest.len() && rest[k] == id;
        assert(all[order.len() + k] == id);
    }
    if all.contains(id) {
        let k = choose|k: int| 0 <= k < all.len() && all[k] == id;
        if k < order.len() {
            assert(order[k] == id);
        } else {
            assert(rest[k - order.len()] == id);
        }
    }
}

proof fn lemma_first_unknown(v: Seq<Seq<char>>, known: Seq<Seq<char>>, i: int)
    requires
        0 <= i <= v.len(),
    ensures
        first_unknown(v, known, i) is None <==> (forall|k: int|
            i <= k < v.len() ==> known.contains(#[trigger] v[k])),
        first_unknown(v, known, i) matches Some(id) ==> v.contains(id) && !known.contains(id),
    decreases v.len() - i,
{
    if i < v.len() && known.contains(v[i]) {
        lemma_first_unknown(v, known, i + 1);
    }
}

proof fn lemma_unknown_dependency(
    catalog: Seq<(Seq<char>, JsonView)>,
    known: Seq<Seq<char>>,
    i: int,
)
    requires
        0 <= i <= catalog.len(),
    ensures
        unknown_dependency(catalog, known, i) is None <==> (forall|k: int|
            i <= k < catalog.len() ==> #[trigger] all_known(
                dependency_ids(catalog[k].0, catalog[k].1),
                known,
            )),
        unknown_dependency(catalog, known, i) matches Some(id) ==> !known.contains(id),
    decreases catalog.len() - i,
{
    if i < catalog.len() {
        let deps = dependency_ids(catalog[i].0, catalog[i].1);
        lemma_first_unknown(deps, known, 0);
        assert(first_unknown(deps, known, 0) is None <==> all_known(deps, known));
        lemma_unknown_dependency(catalog, known, i + 1);
    }
}

pub open spec fn all_known(v: Seq<Seq<char>>, known: Seq<Seq<char>>) -> bool {
    forall|k: int| 0 <= k < v.len() ==> known.contains(#[trigger] v[k])
}

/// Looking for features to read about ends if and only if all of them, and all that they depend on,
/// are known; until then the next one is one that is not known.
pub proof fn law_lookups(
    ids: Seq<Seq<char>>,
    catalog: Seq<(Seq<char>, JsonView)>,
    known: Seq<Seq<char>>,
)
    ensures
        first_unknown(ids, known, 0) is None <==> all_known(ids, known),
        first_unknown(ids, known, 0) matches Some(id) ==> ids.contains(id) && !known.contains(id),
        unknown_dependency(catalog, known, 0) is None <==> (forall|k: int|
            0 <= k < catalog.len() ==> #[trigger] all_known(
                dependency_ids(catalog[k].0, catalog[k].1),
                known,
            )),
        unknown_dependency(catalog, known, 0) matches Some(id) ==> !known.contains(id),
{
    lemma_first_unknown(ids, known, 0);
    lemma_unknown_dependency(catalog, known, 0);
}

/// Options are warned about if and only if they are neither an object, a string nor nothing, and the
/// entries of a mount list are each taken or warned about.
pub proof fn law_feature_warnings(id: Seq<char>, opts: JsonView, a: Seq<JsonView>)
    ensures
        opts_notes(id, opts).len() == 0 <==> opts is String || opts is Object || opts is Null,
        invalid_mount_notes(id, a).len() + valid_mounts(a).len() == a.len(),
    decreases a.len(),
{
    if a.len() > 0 {
        law_feature_warnings(id, opts, a.drop_last());
    }
}

proof fn lemma_union(v: Seq<JsonView>, more: Seq<JsonView>, n: int, j: JsonView)
    requires
        0 <= n <= more.len(),
        forall|i: int| 0 <= i < more.len() ==> well_formed(#[trigger] more[i]),
    ensures
        union(v, more, n).len() >= v.len(),
        union(v, more, n).take(v.len() as int) == v,
        union(v, more, n).contains(j) ==> v.contains(j) || more.take(n).contains(j),
        forall|i: int| 0 <= i < n ==> holds(union(v, more, n), #[trigger] more[i]),
    decreases n,
{
    let now = union(v, more, n);
    if n > 0 {
        let before = union(v, more, n - 1);
        lemma_union(v, more, n - 1, j);
        lemma_same_json(more[n - 1]);
        assert(now.take(v.len() as int) =~= before.take(v.len() as int));
        assert forall|i: int| 0 <= i < n implies holds(now, #[trigger] more[i]) by {
            if i < n - 1 {
                let k = choose|k: int| 0 <= k < before.len() && same_json(#[trigger] before[k], more[i]);
                assert(now[k] == before[k]);
            } else if !holds(before, more[i]) {
                assert(same_json(now[before.len() as int], more[i]));
            }
        }
        if more.take(n - 1).contains(j) {
            let early = more.take(n - 1);
            let k = choose|k: int| 0 <= k < early.len() && early[k] == j;
            assert(more.take(n)[k] == j);
        }
        if now.contains(j) {
            let k = choose|k: int| 0 <= k < now.len() && now[k] == j;
            if k < before.len() {
                assert(before[k] == j);
            } else {
                assert(more.take(n)[n - 1] == j);
            }
        }
    } else {
        assert(v.take(v.len() as int) =~= v);
    }
}

/// How one value of a customization meets another: two lists become one with the entries of both, the
/// earlier ones first; two objects are merged member by member; otherwise the later value counts.
pub proof fn law_values_meet(v: Seq<JsonView>, more: Seq<JsonView>, j: JsonView, old_value: JsonView)
    requires
        well_formed(JsonView::Array(more)),
    ensures
        merged_value(None, j) == j,
        !(old_value is Array && j is Array) && !(old_value is Object && j is Object)
            ==> merged_value(Some(old_value), j) == j,
        merged_value(Some(JsonView::Array(v)), JsonView::Array(more)) matches JsonView::Array(all)
            && all.len() >= v.len() && all.take(v.len() as int) == v && (all.contains(j)
            ==> v.contains(j) || more.contains(j)) && (forall|i: int|
            0 <= i < more.len() ==> holds(all, #[trigger] more[i])),
{
    lemma_union(v, more, more.len() as int, j);
    assert(more.take(more.len() as int) =~= more);
}

/// The customizations of a tool meet those of the same tool, and no others.
pub proof fn law_tools_are_kept_apart(
    merged: Seq<(Seq<char>, JsonView)>,
    tool: Seq<char>,
    incoming: Seq<(Seq<char>, JsonView)>,
    other: Seq<char>,
)
    ensures
        ({
            let now = with_tool(merged, tool, JsonView::Object(incoming));
            &&& other != tool ==> lookup(now, other) == lookup(merged, other)
            &&& lookup(merged, tool) is None ==> lookup(now, tool) == Some(
                merged_value(Some(JsonView::Object(Seq::empty())), JsonView::Object(incoming)),
            )
            &&& (lookup(merged, tool) matches Some(JsonView::Object(m)) ==> lookup(now, tool) == Some(
                merged_value(Some(JsonView::Object(m)), JsonView::Object(incoming)),
            ))
        }),
{
    let none = JsonView::Object(Seq::empty());
    let start = inserted(merged, tool, none);
    lemma_inserted_lookup(merged, tool, none, other);
    lemma_inserted_lookup(merged, tool, none, tool);
    let used = if has_key(merged, tool) {
        merged
    } else {
        start
    };
    if let Some(JsonView::Object(existing)) = lookup(used, tool) {
        let value = JsonView::Object(merged_values(existing, incoming, incoming.len()));
        lemma_inserted_lookup(used, tool, value, other);
        lemma_inserted_lookup(used, tool, value, tool);
    }
}

/// What features ask for is merged feature by feature, in their order: the properties of a later one
/// come behind, and its customizations meet those of the earlier ones tool by tool.
pub proof fn law_features_are_merged_in_order(
    ids: Seq<Seq<char>>,
    id: Seq<char>,
    catalog: Seq<(Seq<char>, JsonView)>,
    tools: Seq<(Seq<char>, JsonView)>,
)
    requires
        meta_field(lookup(catalog, id), "customizations"@) == Some(JsonView::Object(tools)),
    ensures
        properties_of_all(ids.push(id), catalog) == merged_properties(
            properties_of_all(ids, catalog),
            properties_of(lookup(catalog, id)),
        ),
        customizations_of(ids.push(id), catalog, ids.len() as int + 1) == with_tools(
            customizations_of(ids, catalog, ids.len() as int),
            tools,
            tools.len() as int,
        ),
{
    assert(ids.push(id).drop_last() =~= ids);
    lemma_customizations_prefix(ids, id, catalog, ids.len() as int);
}

proof fn lemma_customizations_prefix(
    ids: Seq<Seq<char>>,
    id: Seq<char>,
    catalog: Seq<(Seq<char>, JsonView)>,
    n: int,
)
    requires
        0 <= n <= ids.len(),
    ensures
        customizations_of(ids.push(id), catalog, n) == customizations_of(ids, catalog, n),
    decreases n,
{
    if n > 0 {
        lemma_customizations_prefix(ids, id, catalog, n - 1);
    }
}

/// The feature to look up next: a requested one that is not known, or one that a known one depends on.
pub open spec fn next_unknown(
    ids: Seq<Seq<char>>,
    catalog: Seq<(Seq<char>, JsonView)>,
    known: Seq<Seq<char>>,
) -> Option<Seq<char>> {
    match first_unknown(ids, known, 0) {
        Some(id) => Some(id),
        None => unknown_dependency(catalog, known, 0),
    }
}

/// The lookups end if and only if all requested features are known and all that the known ones depend
/// on; none is made twice.
pub proof fn law_lookups_end(
    ids: Seq<Seq<char>>,
    catalog: Seq<(Seq<char>, JsonView)>,
    known: Seq<Seq<char>>,
)
    ensures
        next_unknown(ids, catalog, known) is None <==> all_known(ids, known) && (forall|k: int|
            0 <= k < catalog.len() ==> #[trigger] all_known(
                dependency_ids(catalog[k].0, catalog[k].1),
                known,
            )),
        next_unknown(ids, catalog, known) matches Some(id) ==> !known.contains(id),
{
    law_lookups(ids, catalog, known);
}

/// A part of a mount as it stands in a document, where it is given.
pub open spec fn string_part(o: Option<Seq<char>>) -> Option<JsonView> {
    match o {
        Some(s) => Some(JsonView::String(s)),
        None => None,
    }
}

/// A mount is made of the parts that are given, whichever they are; a part of another kind, or more
/// than four in a list, makes it none.
pub proof fn law_parts_of_mounts(
    source: Option<Seq<char>>,
    target: Option<Seq<char>>,
    kind: Option<Seq<char>>,
    readonly: bool,
    m: Seq<(Seq<char>, JsonView)>,
    a: Seq<JsonView>,
    b: bool,
)
    ensures
        lookup(m, "source"@) == string_part(source) && lookup(m, "target"@) == string_part(target)
            && lookup(m, "type"@) == string_part(kind) && lookup(m, "readonly"@) is None
            ==> mount_of_json(JsonView::Object(m)) == Some(
            MountView::Object(source, target, kind, None),
        ),
        lookup(m, "source"@) == string_part(source) && lookup(m, "target"@) == string_part(target)
            && lookup(m, "type"@) == string_part(kind) && lookup(m, "readonly"@) == Some(
            JsonView::Bool(readonly),
        ) ==> mount_of_json(JsonView::Object(m)) == Some(
            MountView::Object(source, target, kind, Some(readonly)),
        ),
        lookup(m, "source"@) == Some(JsonView::Bool(b)) || lookup(m, "target"@) == Some(
            JsonView::Bool(b),
        ) || lookup(m, "type"@) == Some(JsonView::Bool(b)) ==> mount_of_json(
            JsonView::Object(m),
        ) is None,
        lookup(m, "readonly"@) matches Some(j) ==> (j is String ==> mount_of_json(
            JsonView::Object(m),
        ) is None),
        a.len() > 4 ==> mount_of_json(JsonView::Array(a)) is None,
        a.len() == 0 ==> mount_of_json(JsonView::Array(a)) == Some(
            MountView::Object(None, None, None, None),
        ),
        mount_of_json(JsonView::Bool(b)) is None,
        mount_of_json(JsonView::Null) is None,
{
}

/// A name in an `installsAfter` list that is not requested is told about, and any other one is not.
pub proof fn law_unknown_names(
    features: Seq<(Seq<char>, JsonView)>,
    id: Seq<char>,
    after: Seq<JsonView>,
    dep: Seq<char>,
)
    ensures
        after_steps(features, id, after.push(JsonView::String(dep)), after.len() as int + 1)
            == after_steps(features, id, after, after.len() as int).push(
            if has_key(features, dep) {
                StepView::Visit(dep)
            } else {
                StepView::Say(
                    NoteView::Warning(
                        "Warning: feature '"@ + id
                            + "' installsAfter references unknown feature '"@ + dep + "'"@,
                    ),
                )
            },
        ),
        circular_line() == "Warning: circular installsAfter detected for "@,
{
    lemma_after_prefix(features, id, after, JsonView::String(dep), after.len() as int);
}

proof fn lemma_after_prefix(
    features: Seq<(Seq<char>, JsonView)>,
    id: Seq<char>,
    after: Seq<JsonView>,
    j: JsonView,
    n: int,
)
    requires
        0 <= n <= after.len(),
    ensures
        after_steps(features, id, after.push(j), n) == after_steps(features, id, after, n),
    decreases n,
{
    if n > 0 {
        lemma_after_prefix(features, id, after, j, n - 1);
    }
}

/// The mounts of every feature are looked at, and those that are none are told about, one by one.
pub proof fn law_mounts_are_looked_at(
    ids: Seq<Seq<char>>,
    id: Seq<char>,
    catalog: Seq<(Seq<char>, JsonView)>,
    a: Seq<JsonView>,
    j: JsonView,
)
    ensures
        meta_field(lookup(catalog, id), "mounts"@) == Some(JsonView::Array(a))
            ==> properties_of_all_notes(ids.push(id), catalog) == properties_of_all_notes(
            ids,
            catalog,
        ) + invalid_mount_notes(id, a),
        invalid_mount_notes(id, a.push(j)).len() == invalid_mount_notes(id, a).len() + (
        if mount_of_json(j) is Some {
            0int
        } else {
            1int
        }),
{
    assert(ids.push(id).drop_last() =~= ids);
    assert(a.push(j).drop_last() =~= a);
}

} // verus!
