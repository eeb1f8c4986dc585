//! The metadata label of an image: what an image says of the containers made from it.

use vstd::prelude::*;
use vstd::string::*;

use crate::config::DevContainerConfig;
use crate::features::{
    add_hooks, apply_feature_container_properties, array_of, collect_feature_container_properties,
    hooks_of, invalid_mount_notes, law_configuration_wins, merge_feature_container_properties,
    merged_properties, meta_field, mounts_view, no_properties, properties_of, FeatureContainerProperties, PropertiesView,
};
use crate::json::{elements, field, group_json, members, parsed_text, Json, JsonView};
use crate::maps::{defaulted_all, has_key, lookup};
use crate::notes::{no_notes, NoteView, Notes};
use crate::text::opt_text;
use crate::texts::{added_all, texts};

verus! {

/// The entries of the label: a list of them, or a single one by itself. A text that is no JSON has
/// none.
pub open spec fn label_entries(raw: Seq<char>) -> Seq<JsonView> {
    match parsed_text(raw) {
        Some(JsonView::Array(a)) => a,
        Some(JsonView::Object(m)) => seq![JsonView::Object(m)],
        _ => Seq::empty(),
    }
}

pub fn metadata_entries(raw: &str) -> (res: Vec<Json>)
    ensures
        elements(res@) == label_entries(raw@),
{
    broadcast use group_json;

    match Json::parse(raw) {
        Some(Json::Array(a)) => a,
        Some(Json::Object(m)) => {
            let mut out: Vec<Json> = Vec::new();
            out.push(Json::Object(m));
            assert(elements(out@) =~= label_entries(raw@));
            out
        },
        _ => {
            let out: Vec<Json> = Vec::new();
            assert(elements(out@) =~= Seq::empty());
            out
        },
    }
}

/// The string under a key in the last entry that has one.
pub open spec fn last_string(entries: Seq<JsonView>, key: Seq<char>) -> Option<Seq<char>>
    decreases entries.len(),
{
    if entries.len() == 0 {
        None
    } else {
        match field(entries.last(), key) {
            Some(JsonView::String(s)) => Some(s),
            _ => last_string(entries.drop_last(), key),
        }
    }
}

fn find_last_string(entries: &Vec<Json>, key: &str) -> (res: Option<String>)
    ensures
        opt_text(res) == last_string(elements(entries@), key@),
{
    let ghost all = elements(entries@);
    let mut i: usize = entries.len();
    assert(all.take(i as int) =~= all);
    while i > 0
        invariant
            all == elements(entries@),
            i <= entries@.len(),
            last_string(all, key@) == last_string(all.take(i as int), key@),
        decreases i,
    {
        broadcast use group_json;

        i = i - 1;
        assert(all.take(i + 1).last() == entries@[i as int]@);
        assert(all.take(i + 1).drop_last() =~= all.take(i as int));
        if let Some(Json::String(s)) = entries[i].get(key) {
            return Some(s.clone());
        }
    }
    None
}

/// The shutdown action that an image asks for.
pub fn image_metadata_shutdown_action(raw: &str) -> (res: Option<String>)
    ensures
        opt_text(res) == last_string(label_entries(raw@), "shutdownAction"@),
{
    let entries = metadata_entries(raw);
    find_last_string(&entries, "shutdownAction")
}

/// What the entries ask of the container together.
pub open spec fn image_properties(entries: Seq<JsonView>) -> PropertiesView
    decreases entries.len(),
{
    if entries.len() == 0 {
        no_properties()
    } else {
        merged_properties(
            image_properties(entries.drop_last()),
            properties_of(Some(entries.last())),
        )
    }
}

/// What is said of the mounts in the entries.
pub open spec fn image_notes(entries: Seq<JsonView>) -> Seq<NoteView>
    decreases entries.len(),
{
    if entries.len() == 0 {
        no_notes()
    } else {
        image_notes(entries.drop_last()) + invalid_mount_notes(
            "image metadata"@,
            array_of(meta_field(Some(entries.last()), "mounts"@)),
        )
    }
}

fn collect_image_properties(entries: &Vec<Json>, notes: &mut Notes) -> (res:
    FeatureContainerProperties)
    ensures
        res@ == image_properties(elements(entries@)),
        final(notes)@ == old(notes)@ + image_notes(elements(entries@)),
{
    let ghost all = elements(entries@);
    let mut acc = FeatureContainerProperties::default();
    let mut i: usize = 0;
    assert(all.take(0) =~= Seq::empty());
    assert(notes@ + no_notes() =~= notes@);
    while i < entries.len()
        invariant
            all == elements(entries@),
            i <= entries@.len(),
            acc@ == image_properties(all.take(i as int)),
            notes@ == old(notes)@ + image_notes(all.take(i as int)),
        decreases entries@.len() - i,
    {
        broadcast use group_json;

        assert(all.take(i + 1).last() == entries@[i as int]@);
        assert(all.take(i + 1).drop_last() =~= all.take(i as int));
        let next = collect_feature_container_properties("image metadata", Some(&entries[i]), notes);
        merge_feature_container_properties(&mut acc, next);
        assert(notes@ =~= old(notes)@ + image_notes(all.take(i + 1)));
        i = i + 1;
    }
    assert(all.take(i as int) =~= all);
    acc
}

/// The value of the configuration, or else that of the image.
pub open spec fn or_image(own: Option<String>, entries: Seq<JsonView>, key: Seq<char>) -> Option<
    Seq<char>,
> {
    match own {
        Some(s) => Some(s@),
        None => last_string(entries, key),
    }
}

/// Whether a configuration is another one that was completed with the entries of an image's label.
pub open spec fn completed(
    before: DevContainerConfig,
    after: DevContainerConfig,
    entries: Seq<JsonView>,
) -> bool {
    let props = image_properties(entries);
    &&& opt_text(after.remote_user) == or_image(before.remote_user, entries, "remoteUser"@)
    &&& opt_text(after.container_user) == or_image(before.container_user, entries, "containerUser"@)
    &&& after.container_env@ == defaulted_all(before.container_env@, props.container_env)
    &&& mounts_view(after.mounts@) == mounts_view(before.mounts@) + props.mounts
    &&& after.privileged == (if props.privileged {
        Some(true)
    } else {
        before.privileged
    })
    &&& after.init == (if props.init {
        Some(true)
    } else {
        before.init
    })
    &&& texts(after.cap_add@) == added_all(texts(before.cap_add@), props.cap_add)
    &&& texts(after.security_opt@) == added_all(texts(before.security_opt@), props.security_opt)
    &&& after == (DevContainerConfig {
        remote_user: after.remote_user,
        container_user: after.container_user,
        container_env: after.container_env,
        mounts: after.mounts,
        privileged: after.privileged,
        init: after.init,
        cap_add: after.cap_add,
        security_opt: after.security_opt,
        ..before
    })
}

/// Completes a configuration with the metadata of its image: what the configuration says itself
/// comes first.
pub fn apply_image_metadata(config: &mut DevContainerConfig, raw: &str, notes: &mut Notes)
    ensures
        completed(*old(config), *final(config), label_entries(raw@)),
        final(notes)@ == old(notes)@ + image_notes(label_entries(raw@)),
{
    let entries = metadata_entries(raw);
    if config.remote_user.is_none() {
        config.remote_user = find_last_string(&entries, "remoteUser");
    }
    if config.container_user.is_none() {
        config.container_user = find_last_string(&entries, "containerUser");
    }
    let props = collect_image_properties(&entries, notes);
    apply_feature_container_properties(config, &props);
    assert(mounts_view(config.mounts@) =~= mounts_view(old(config).mounts@) + props@.mounts);
}

/// The lifecycle commands of the entries, entry by entry.
pub open spec fn entry_hooks(entries: Seq<JsonView>) -> Seq<(Seq<char>, JsonView)>
    decreases entries.len(),
{
    if entries.len() == 0 {
        Seq::empty()
    } else {
        entry_hooks(entries.drop_last()) + hooks_of(Some(entries.last()), 5)
    }
}

/// The lifecycle commands that an image brings along.
pub fn image_metadata_hooks(raw: &str) -> (res: Vec<(String, Json)>)
    ensures
        members(res@) == entry_hooks(label_entries(raw@)),
{
    let entries = metadata_entries(raw);
    let ghost all = elements(entries@);
    let mut out: Vec<(String, Json)> = Vec::new();
    let mut i: usize = 0;
    assert(all.take(0) =~= Seq::empty());
    assert(members(out@) =~= Seq::empty());
    while i < entries.len()
        invariant
            all == elements(entries@),
            i <= entries@.len(),
            members(out@) == entry_hooks(all.take(i as int)),
        decreases entries@.len() - i,
    {
        broadcast use group_json;

        assert(all.take(i + 1).last() == entries@[i as int]@);
        assert(all.take(i + 1).drop_last() =~= all.take(i as int));
        add_hooks(Some(&entries[i]), &mut out);
        i = i + 1;
    }
    assert(all.take(i as int) =~= all);
    out
}

/// An image cannot change what the configuration says itself: its users stay, and so does every
/// variable that it binds.
pub proof fn law_configuration_comes_before_the_image(
    own: Seq<(Seq<char>, Seq<char>)>,
    user: String,
    entries: Seq<JsonView>,
    name: Seq<char>,
    key: Seq<char>,
)
    requires
        has_key(own, name),
    ensures
        or_image(Some(user), entries, key) == Some(user@),
        lookup(
            defaulted_all(own, image_properties(entries).container_env),
            name,
        ) == lookup(own, name),
{
    law_configuration_wins(own, Seq::empty(), image_properties(entries), name);
}

/// What an image says reaches the configuration, member by member: the users where the configuration
/// names none, the last entry that names one deciding; the switches where an entry switches them on; the
/// variables that the configuration does not set; nothing else changes.
pub proof fn law_completed_configuration(
    before: DevContainerConfig,
    after: DevContainerConfig,
    entries: Seq<JsonView>,
    m: Seq<(Seq<char>, JsonView)>,
    user: Seq<char>,
    name: Seq<char>,
)
    requires
        completed(before, after, entries.push(JsonView::Object(m))),
    ensures
        before.remote_user is Some ==> opt_text(after.remote_user) == opt_text(before.remote_user),
        before.container_user is Some ==> opt_text(after.container_user) == opt_text(
            before.container_user,
        ),
        before.remote_user is None && lookup(m, "remoteUser"@) == Some(JsonView::String(user))
            ==> opt_text(after.remote_user) == Some(user),
        before.container_user is None && lookup(m, "containerUser"@) == Some(JsonView::String(user))
            ==> opt_text(after.container_user) == Some(user),
        lookup(m, "privileged"@) == Some(JsonView::Bool(true)) ==> after.privileged == Some(true),
        lookup(m, "init"@) == Some(JsonView::Bool(true)) ==> after.init == Some(true),
        has_key(before.container_env@, name) ==> lookup(after.container_env@, name) == lookup(
            before.container_env@,
            name,
        ),
        after.image == before.image && after.run_args == before.run_args && after.remote_env
            == before.remote_env && after.workspace_folder == before.workspace_folder
            && after.shutdown_action == before.shutdown_action && after.on_create_command
            == before.on_create_command,
{
    let all = entries.push(JsonView::Object(m));
    assert(all.drop_last() =~= entries);
    law_configuration_wins(before.container_env@, Seq::empty(), image_properties(all), name);
}

/// An image without a label that asks for anything leaves the switches as they are.
pub proof fn law_nothing_is_switched_on_unasked(
    before: DevContainerConfig,
    after: DevContainerConfig,
)
    requires
        completed(before, after, Seq::empty()),
    ensures
        after.privileged == before.privileged && after.init == before.init,
        opt_text(after.remote_user) == opt_text(before.remote_user),
        after.container_env@ == before.container_env@,
        texts(after.cap_add@) == texts(before.cap_add@),
{
}

/// Of several entries the last one that gives a text under a key decides; the commands of all of them
/// come in their order, and what they ask of the container adds up.
pub proof fn law_later_entries_decide(
    entries: Seq<JsonView>,
    m: Seq<(Seq<char>, JsonView)>,
    key: Seq<char>,
    s: Seq<char>,
)
    ensures
        ({
            let all = entries.push(JsonView::Object(m));
            &&& lookup(m, key) == Some(JsonView::String(s)) ==> last_string(all, key) == Some(s)
            &&& lookup(m, key) is None ==> last_string(all, key) == last_string(entries, key)
            &&& entry_hooks(all) == entry_hooks(entries) + hooks_of(Some(JsonView::Object(m)), 5)
            &&& image_properties(all).mounts == image_properties(entries).mounts + properties_of(
                Some(JsonView::Object(m)),
            ).mounts
            &&& image_properties(all).privileged <==> image_properties(entries).privileged || lookup(
                m,
                "privileged"@,
            ) == Some(JsonView::Bool(true))
        }),
{
    let all = entries.push(JsonView::Object(m));
    assert(all.drop_last() =~= entries);
}

/// A label is a list of entries or a single one; anything else says nothing.
pub proof fn law_labels(raw: Seq<char>)
    ensures
        parsed_text(raw) matches Some(JsonView::Array(a)) ==> label_entries(raw) == a,
        parsed_text(raw) matches Some(JsonView::Object(m)) ==> label_entries(raw) == seq![
            JsonView::Object(m),
        ],
        parsed_text(raw) is None ==> label_entries(raw).len() == 0,
{
}

/// The mounts of every entry of the label are looked at, and those that are none are told about.
pub proof fn law_image_warnings(entries: Seq<JsonView>, e: JsonView)
    ensures
        image_notes(entries.push(e)) == image_notes(entries) + invalid_mount_notes(
            "image metadata"@,
            array_of(field(e, "mounts"@)),
        ),
        image_notes(Seq::empty()).len() == 0,
{
    assert(entries.push(e).drop_last() =~= entries);
}

} // verus!
