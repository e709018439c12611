//! What holds of every plugin as it is shown, and of what the registry learns from the profile.

use crate::model;
use crate::plugin::dump::{find_row, rows_of_owner, DumpRow, DumpSection};
use crate::plugin::registry::{lemma_position_found, position, PluginRecord, Registry};
use crate::plugin::service::{
    build_view, build_views, first_record, is_protected, known, prune_registry, rows_for,
    PluginView,
};
use crate::plugin::spec::{classify, full_spec, Origin, SpecKind};
use crate::plugin::state::{
    derive_state, validate, PluginAction, PluginError, PluginState, RowState,
};
use crate::plugin::switch::{bootstrap_registry, missing};
use crate::plugin::switch_laws::{counts, lemma_counting_row, lemma_found_row, lemma_owned, row_at};
use crate::profile::{declares_bundle, package_version, ProfileManifest};
use vstd::prelude::*;

verus! {

// ---- States ----

/// The state of a plugin by the facts: it is off only where it is a bundle in place and every one of
/// its rows is off; a package without a bundle is plain.
pub proof fn law_states_follow_the_facts(
    present: bool,
    in_bundles: bool,
    declares: bool,
    rows: &[RowState],
    r: PluginState,
)
    requires
        call_ensures(derive_state, (present, in_bundles, declares, rows), r),
    ensures
        r is Uninstalled <==> !present,
        r is Plain <==> present && !declares,
        r is Disabled <==> present && declares && in_bundles && rows@.len() > 0 && forall|i: int|
            0 <= i < rows@.len() ==> (#[trigger] rows@[i]) is Disabled,
        r is Enabled <==> present && declares && !(in_bundles && rows@.len() > 0 && forall|i: int|
            0 <= i < rows@.len() ==> (#[trigger] rows@[i]) is Disabled),
{
    if forall|i: int| 0 <= i < rows@.len() ==> (#[trigger] rows@[i]) is Disabled {
        assert(crate::plugin::state::all_are(rows@, RowState::Disabled));
    }
}

/// A plugin can be switched exactly where it is a bundle with at least one row that no expression
/// controls; it can be installed exactly where it is not; the other actions are always legal.
pub proof fn law_when_an_action_is_legal(
    action: PluginAction,
    state: PluginState,
    rows: &[RowState],
    r: Result<(), PluginError>,
)
    requires
        call_ensures(validate, (action, state, rows), r),
    ensures
        action is Enable || action is Disable ==> (r is Ok <==> (state is Enabled || state is Disabled)
            && exists|i: int| 0 <= i < rows@.len() && !((#[trigger] rows@[i]) is Expression)),
        action is Install ==> (r is Ok <==> state is Uninstalled),
        action is Uninstall || action is Repair || action is Quarantine ==> r is Ok,
        r is Err ==> r->Err_0.kind is IllegalTransition,
{
    if rows@.len() > 0 && !(exists|i: int| 0 <= i < rows@.len() && !((#[trigger] rows@[i]) is Expression)) {
        assert(crate::plugin::state::all_are(rows@, RowState::Expression));
    }
    if crate::plugin::state::all_are(rows@, RowState::Expression) {
        assert(forall|i: int| 0 <= i < rows@.len() ==> #[trigger] rows@[i] == RowState::Expression);
    }
}

/// Exactly two packages are protected: those that the profile is made from.
pub proof fn law_which_packages_are_protected(package: &str, b: bool)
    requires
        call_ensures(is_protected, (package,), b),
    ensures
        b <==> package@ == "@deepseek-ai/dsh-base"@ || package@ == "@deepseek-ai/dsh-web-app"@,
{
}

// ---- The composed configuration ----

/// The rows of a package are all those, and only those, that stand in sections that it owns.
pub proof fn law_rows_belong_to_their_owner(
    sections: &Vec<DumpSection>,
    package: &str,
    r: Vec<String>,
    id: Seq<char>,
)
    requires
        call_ensures(rows_of_owner, (sections, package), r),
    ensures
        model::texts(r@).contains(id) <==> exists|s: int, k: int|
            #![trigger sections@[s].rows@[k]]
            row_at(sections@, s, k) && sections@[s].owner@ == package@ && sections@[s].rows@[k].id@
                == id,
{
    lemma_owned(sections@, package@, id);
}

/// The row that is found under an id is the last one that has it.
pub proof fn law_the_last_row_counts(
    sections: &Vec<DumpSection>,
    id: &str,
    r: Option<&DumpRow>,
    s: int,
    k: int,
)
    requires
        call_ensures(find_row, (sections, id), r),
        row_at(sections@, s, k),
        sections@[s].rows@[k].id@ == id@,
    ensures
        r is Some,
        (r->0).id@ == id@,
        counts(sections@, s, k) ==> *r->0 == sections@[s].rows@[k],
{
    lemma_found_row(sections@, id@);
    if counts(sections@, s, k) {
        lemma_counting_row(sections@, s, k);
    }
}

/// Every dependency is shown once, in the order of the names, with its own spec, its rows and what is
/// on record of it; where nothing is on record, its origin is what its spec shows.
pub proof fn law_dependencies_are_shown(
    raws: &Vec<Option<String>>,
    manifest: &ProfileManifest,
    sections: &Vec<DumpSection>,
    registry: &Registry,
    r: Vec<PluginView>,
    i: int,
    spec: &str,
    class: (SpecKind, Origin),
    rows: Vec<String>,
    package: &str,
    j: int,
)
    requires
        manifest.wf(),
        raws@.len() == manifest.dependencies.keys().len(),
        call_ensures(build_views, (raws, manifest, sections, registry), r),
        0 <= i < r@.len(),
        spec@ == manifest.dependencies.values()[i],
        package@ == manifest.dependencies.keys()[i],
        call_ensures(classify, (spec,), class),
        call_ensures(rows_of_owner, (sections, package), rows),
        0 <= j < registry.plugins@.len(),
    ensures
        r@.len() == manifest.dependencies.keys().len(),
        r@[i].package@ == manifest.dependencies.keys()[i],
        r@[i].installed_spec is Some && (r@[i].installed_spec->0)@ == spec@,
        r@[i].rows@.len() == rows@.len(),
        0 <= j < rows@.len() ==> r@[i].rows@[j].id@ == rows@[j]@,
        (forall|k: int|
            0 <= k < registry.plugins@.len() ==> (#[trigger] registry.plugins@[k]).package@
                != package@) ==> r@[i].origin == class.1 && r@[i].source is None,
        registry.plugins@[j].package@ == package@ && (forall|k: int|
            0 <= k < j ==> (#[trigger] registry.plugins@[k]).package@ != package@) ==> {
            &&& r@[i].origin == registry.plugins@[j].origin
            &&& r@[i].source == registry.plugins@[j].source
            &&& r@[i].last_sync == registry.plugins@[j].last_sync
            &&& r@[i].last_error == registry.plugins@[j].last_error
            &&& r@[i].desired == registry.plugins@[j].desired
        },
{
    lemma_position_found(registry.plugins@, package@);
    let ids = crate::plugin::dump::owned_rows(sections@, package@);
    assert(model::texts(rows@).len() == rows@.len());
    let raw = model::text_of(raws@[i]);
    assert(crate::plugin::service::shows(
        r@[i],
        manifest.dependencies.keys()[i],
        manifest.dependencies.values()[i],
        raw,
        *manifest,
        sections@,
        *registry,
    ));
    if 0 <= j < rows@.len() {
        assert(ids[j] == rows@[j]@);
    }
}

// ---- What the registry learns ----

proof fn lemma_missing(keys: Seq<Seq<char>>, plugins: Seq<PluginRecord>, key: Seq<char>)
    ensures
        missing(keys, plugins).contains(key) <==> keys.contains(key) && position(plugins, key) is None,
    decreases keys.len(),
{
    let out = missing(keys, plugins);
    if keys.len() > 0 {
        let init = keys.drop_last();
        let rest = missing(init, plugins);
        let n = keys.len() - 1;
        lemma_missing(init, plugins, key);
        if keys.contains(key) {
            let i = choose|i: int| 0 <= i < keys.len() && keys[i] == key;
            if i < n {
                assert(init[i] == key);
            }
        }
        if init.contains(key) {
            let i = choose|i: int| 0 <= i < init.len() && init[i] == key;
            assert(keys[i] == key);
        }
        if position(plugins, keys.last()) is None {
            assert(out[rest.len() as int] == keys.last());
            if rest.contains(key) {
                let i = choose|i: int| 0 <= i < rest.len() && rest[i] == key;
                assert(out[i] == key);
            }
            if out.contains(key) {
                let i = choose|i: int| 0 <= i < out.len() && out[i] == key;
                if i < rest.len() {
                    assert(rest[i] == key);
                } else {
                    assert(keys[n] == key);
                }
            }
        }
    }
}

/// After the registry was brought up to date it knows every dependency. What it knew stays as it was,
/// but for the protection of a package, and it learns of nothing but dependencies.
pub proof fn law_the_registry_knows_every_dependency(
    registry: &mut Registry,
    manifest: &ProfileManifest,
    sections: &Vec<DumpSection>,
    changed: bool,
    k: int,
    i: int,
)
    requires
        manifest.wf(),
        call_ensures(bootstrap_registry, (registry, manifest, sections), changed),
        0 <= k < manifest.dependencies.keys().len(),
        0 <= i < old(registry).plugins@.len(),
    ensures
        ({
            let was = old(registry).plugins@;
            let now = final(registry).plugins@;
            let key = manifest.dependencies.keys()[k];
            &&& exists|j: int| 0 <= j < now.len() && (#[trigger] now[j]).package@ == key
            &&& now.len() >= was.len()
            &&& now[i].package == was[i].package && now[i].origin == was[i].origin && now[i].source
                == was[i].source && now[i].desired == was[i].desired && now[i].rows == was[i].rows
                && now[i].shadow_restored == was[i].shadow_restored
            &&& now.len() > was.len() ==> changed
        }),
{
    let was = old(registry).plugins@;
    let now = final(registry).plugins@;
    let keys = missing(manifest.dependencies.keys(), was);
    let key = manifest.dependencies.keys()[k];
    lemma_missing(manifest.dependencies.keys(), was, key);
    assert(manifest.dependencies.keys().contains(key));
    lemma_position_found(was, key);
    assert(now[i] == crate::plugin::switch::shielded(was[i]));
    match position(was, key) {
        Some(j) => {
            assert(now[j] == crate::plugin::switch::shielded(was[j]));
            assert(now[j].package@ == key);
        },
        None => {
            let j = choose|j: int| 0 <= j < keys.len() && keys[j] == key;
            assert(now[was.len() + j].package@ == key);
        },
    }
}

/// What a dependency is first recorded with: its own name, where its spec shows that it comes from,
/// and its rows; it has no desired state, no error, and is not in quarantine.
pub proof fn law_first_records(
    package: &str,
    spec: &str,
    sections: &Vec<DumpSection>,
    r: PluginRecord,
    class: (SpecKind, Origin),
    rows: Vec<String>,
    full: String,
)
    requires
        call_ensures(first_record, (package, spec, sections), r),
        call_ensures(classify, (spec,), class),
        call_ensures(rows_of_owner, (sections, package), rows),
        call_ensures(full_spec, (package, spec), full),
    ensures
        r.package@ == package@,
        r.origin == class.1,
        r.source is Some && (r.source->0).kind == class.0 && (r.source->0).spec@ == full@,
        model::texts(r.rows@) == model::texts(rows@),
        r.desired is None && r.last_error is None && !r.quarantine && r.last_sync is None,
        r.protected <==> package@ == "@deepseek-ai/dsh-base"@ || package@
            == "@deepseek-ai/dsh-web-app"@,
{
}

proof fn lemma_known(plugins: Seq<PluginRecord>, manifest: ProfileManifest)
    ensures
        forall|r: PluginRecord| #[trigger]
            known(plugins, manifest).contains(r) <==> plugins.contains(r)
                && manifest.dependencies.lookup(r.package@) is Some,
    decreases plugins.len(),
{
    let all = known(plugins, manifest);
    if plugins.len() > 0 {
        let tail = plugins.skip(1);
        let rest = known(tail, manifest);
        lemma_known(tail, manifest);
        assert forall|r: PluginRecord| #[trigger] all.contains(r) <==> plugins.contains(r)
            && manifest.dependencies.lookup(r.package@) is Some by {
            if plugins.contains(r) {
                let i = choose|i: int| 0 <= i < plugins.len() && plugins[i] == r;
                if i > 0 {
                    assert(tail[i - 1] == r);
                }
            }
            if tail.contains(r) {
                let i = choose|i: int| 0 <= i < tail.len() && tail[i] == r;
                assert(plugins[i + 1] == r);
            }
            if manifest.dependencies.lookup(plugins[0].package@) is Some {
                assert(all == seq![plugins[0]] + rest);
                assert(all[0] == plugins[0]);
                if all.contains(r) {
                    let i = choose|i: int| 0 <= i < all.len() && all[i] == r;
                    if i > 0 {
                        assert(rest[i - 1] == r);
                    } else {
                        assert(plugins[0] == r);
                    }
                }
                if rest.contains(r) {
                    let i = choose|i: int| 0 <= i < rest.len() && rest[i] == r;
                    assert(all[i + 1] == r);
                }
            }
        }
    }
}

/// The registry forgets exactly the packages that are no longer dependencies.
pub proof fn law_the_registry_forgets(
    registry: &mut Registry,
    manifest: &ProfileManifest,
    changed: bool,
    r: PluginRecord,
)
    requires
        manifest.wf(),
        call_ensures(prune_registry, (registry, manifest), changed),
    ensures
        final(registry).plugins@.contains(r) <==> old(registry).plugins@.contains(r)
            && manifest.dependencies.lookup(r.package@) is Some,
{
    lemma_known(old(registry).plugins@, *manifest);
}

/// What a plugin is shown as follows from the facts: its state from its rows and its bundle, whether
/// it has to be reconciled, whether it is protected, and its version from its own manifest.
pub proof fn law_plugins_are_shown_as_they_are(
    package: &str,
    spec: &str,
    raw: Option<&str>,
    manifest: &ProfileManifest,
    sections: &Vec<DumpSection>,
    registry: &Registry,
    r: PluginView,
    rows: (Vec<String>, Vec<RowState>),
    states: &[RowState],
    declares: bool,
    bundled: bool,
    state: PluginState,
    version: Option<String>,
    j: int,
)
    requires
        call_ensures(build_view, (package, spec, raw, manifest, sections, registry), r),
        call_ensures(rows_for, (sections, package), rows),
        states@ == rows.1@,
        call_ensures(declares_bundle, (raw,), declares),
        call_ensures(ProfileManifest::in_bundles, (manifest, package), bundled),
        call_ensures(derive_state, (true, bundled, declares, states), state),
        call_ensures(package_version, (raw,), version),
    ensures
        r.package@ == package@,
        r.state == state,
        r.needs_reconcile <==> declares && !bundled,
        model::text_of(r.version) == model::text_of(version),
        package@ == "@deepseek-ai/dsh-base"@ || package@ == "@deepseek-ai/dsh-web-app"@ ==> r.protected,
        r.rows@.len() == rows.0@.len(),
        0 <= j < rows.0@.len() ==> r.rows@[j].id@ == rows.0@[j]@ && r.rows@[j].state == rows.1@[j],
        bundled <==> exists|i: int|
            0 <= i < manifest.bundles@.len() && (#[trigger] manifest.bundles@[i])@ == package@,
{
    let ids = crate::plugin::dump::owned_rows(sections@, package@);
    assert(model::texts(rows.0@).len() == rows.0@.len());
    if 0 <= j < rows.0@.len() {
        assert(ids[j] == rows.0@[j]@);
    }
    crate::plugin::operation_laws::lemma_named(manifest.bundles@, package@);
}

} // verus!
