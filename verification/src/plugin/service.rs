//! Listing plugins and switching them on and off.

use crate::json;
use crate::model;
use crate::plugin::dump::{find_row, owned_rows, row_with, rows_of_owner, DumpRow, DumpSection};
use crate::plugin::registry::{position, PluginRecord, PluginSource, Registry, SyncRecord};
use crate::plugin::spec;
use crate::plugin::spec::Origin;
use crate::plugin::state::{derive_state, state_of, PluginState, RowState};
use crate::profile::{declares_bundle, package_version, ProfileManifest};
use crate::text;
use vstd::prelude::*;

verus! {

/// Packages of the profile's template, which cannot be uninstalled.
pub open spec fn protected_package(package: Seq<char>) -> bool {
    package == "@deepseek-ai/dsh-base"@ || package == "@deepseek-ai/dsh-web-app"@
}

pub fn is_protected(package: &str) -> (b: bool)
    ensures
        b == protected_package(package@),
{
    text::same(package, "@deepseek-ai/dsh-base") || text::same(package, "@deepseek-ai/dsh-web-app")
}

#[derive(Debug, Clone, Copy, PartialEq, Eq, Structural)]
pub enum OpStatus {
    Changed,
    Unchanged,
}

/// The outcome of an action.
pub struct OpResult {
    pub status: OpStatus,
    pub restarted: bool,
    pub message: String,
    pub package: Option<String>,
}

impl OpResult {
    pub fn unchanged(message: String, package: Option<String>) -> (r: Self)
        ensures
            r.status == OpStatus::Unchanged,
            !r.restarted,
            r.message == message,
            r.package == package,
    {
        Self { status: OpStatus::Unchanged, restarted: false, message, package }
    }

    pub fn changed(message: String, restarted: bool, package: Option<String>) -> (r: Self)
        ensures
            r.status == OpStatus::Changed,
            r.restarted == restarted,
            r.message == message,
            r.package == package,
    {
        Self { status: OpStatus::Changed, restarted, message, package }
    }
}

/// A row as it is shown.
pub struct RowView {
    pub id: String,
    pub name: Option<String>,
    pub state: RowState,
}

/// A plugin as it is shown.
pub struct PluginView {
    pub package: String,
    pub version: Option<String>,
    pub origin: Origin,
    pub state: PluginState,
    pub rows: Vec<RowView>,
    pub source: Option<PluginSource>,
    pub last_sync: Option<SyncRecord>,
    pub protected: bool,
    pub needs_reconcile: bool,
    pub desired: Option<String>,
    pub last_error: Option<String>,
    pub installed_spec: Option<String>,
}

impl PluginView {
    pub fn origin_str(&self) -> (r: &'static str)
        ensures
            r@ == match self.origin {
                Origin::Upstream => "upstream"@,
                Origin::InHouse => "in-house"@,
                Origin::Unknown => "unknown"@,
            },
    {
        match self.origin {
            Origin::Upstream => "upstream",
            Origin::InHouse => "in-house",
            Origin::Unknown => "unknown",
        }
    }
}

/// The plugins of a profile.
pub struct PluginList {
    pub profile: String,
    pub plugins: Vec<PluginView>,
    /// Why the list can only be read, if so.
    pub degraded_reason: Option<String>,
}

pub fn copy_text(o: &Option<String>) -> (r: Option<String>)
    ensures
        r == *o,
{
    match o {
        Some(s) => Some(s.clone()),
        None => None,
    }
}

pub fn copy_source(o: &PluginSource) -> (r: PluginSource)
    ensures
        r == *o,
{
    PluginSource {
        kind: o.kind,
        spec: o.spec.clone(),
        repo: copy_text(&o.repo),
        reference: copy_text(&o.reference),
        commit: copy_text(&o.commit),
    }
}

pub fn copy_sync(o: &SyncRecord) -> (r: SyncRecord)
    ensures
        r == *o,
{
    SyncRecord {
        at: o.at.clone(),
        from: o.from.clone(),
        to: o.to.clone(),
        result: o.result.clone(),
    }
}

/// The states of the rows with the given ids.
pub open spec fn states_of(sections: Seq<DumpSection>, ids: Seq<Seq<char>>) -> Seq<RowState> {
    Seq::new(
        ids.len(),
        |i: int|
            match row_with(sections, ids[i]) {
                Some(row) => row.state(),
                None => RowState::Expression,
            },
    )
}

/// Every row that a package owns is in the index of rows.
proof fn lemma_owned_row_is_found(sections: Seq<DumpSection>, package: Seq<char>, i: int)
    requires
        0 <= i < owned_rows(sections, package).len(),
    ensures
        row_with(sections, owned_rows(sections, package)[i]) is Some,
    decreases sections.len(),
{
    let rest = sections.drop_last();
    let before = owned_rows(rest, package);
    let id = owned_rows(sections, package)[i];
    if i < before.len() {
        lemma_owned_row_is_found(rest, package, i);
    } else {
        let rows = sections.last().rows@;
        let j = i - before.len();
        assert(rows[j].id@ == id);
        lemma_row_among(rows, j);
    }
}

proof fn lemma_row_among(rows: Seq<DumpRow>, j: int)
    requires
        0 <= j < rows.len(),
    ensures
        crate::plugin::dump::row_among(rows, rows[j].id@) is Some,
    decreases rows.len(),
{
    if rows.last().id@ != rows[j].id@ {
        assert(rows.drop_last()[j] == rows[j]);
        lemma_row_among(rows.drop_last(), j);
    }
}

/// The ids and states of the rows that a package owns.
pub fn rows_for(sections: &Vec<DumpSection>, package: &str) -> (r: (Vec<String>, Vec<RowState>))
    ensures
        model::texts(r.0@) == owned_rows(sections@, package@),
        r.1@ == states_of(sections@, owned_rows(sections@, package@)),
        r.0@.len() == r.1@.len(),
{
    let ids = rows_of_owner(sections, package);
    let ghost all = owned_rows(sections@, package@);
    let mut states: Vec<RowState> = Vec::new();
    let mut i: usize = 0;
    while i < ids.len()
        invariant
            all == owned_rows(sections@, package@),
            model::texts(ids@) == all,
            i <= ids.len(),
            states@ == states_of(sections@, all).take(i as int),
        decreases ids.len() - i,
    {
        proof {
            lemma_owned_row_is_found(sections@, package@, i as int);
            assert(all[i as int] == ids@[i as int]@);
        }
        match find_row(sections, ids[i].as_str()) {
            Some(row) => {
                states.push(row.row_state());
            },
            None => {},
        }
        i += 1;
        proof {
            assert(states_of(sections@, all).take(i as int) =~= states_of(sections@, all).take(
                i - 1,
            ).push(states_of(sections@, all)[i - 1]));
        }
    }
    proof {
        assert(all.len() == ids.len());
        assert(states_of(sections@, all).take(all.len() as int) =~= states_of(sections@, all));
    }
    (ids, states)
}

/// The rows of a view are the rows that the package owns.
pub open spec fn rows_shown(rows: Seq<RowView>, sections: Seq<DumpSection>, package: Seq<char>) -> bool {
    let ids = owned_rows(sections, package);
    &&& rows.len() == ids.len()
    &&& forall|i: int|
        0 <= i < ids.len() ==> {
            let row = row_with(sections, #[trigger] ids[i]);
            &&& row is Some
            &&& rows[i].id@ == ids[i]
            &&& model::text_of(rows[i].name) == model::text_of(row->0.name)
            &&& rows[i].state == row->0.state()
        }
}

/// The record of a package.
pub open spec fn record_of(registry: Registry, package: Seq<char>) -> Option<PluginRecord> {
    match position(registry.plugins@, package) {
        Some(i) => Some(registry.plugins@[i]),
        None => None,
    }
}

/// A view shows a package: what its spec, its manifest (`raw`), the profile's manifest, the
/// composed configuration and the registry say of it.
pub open spec fn shows(
    view: PluginView,
    package: Seq<char>,
    spec_value: Seq<char>,
    raw: Option<Seq<char>>,
    manifest: ProfileManifest,
    sections: Seq<DumpSection>,
    registry: Registry,
) -> bool {
    let declares = raw is Some && json::json_present(raw->0, "/dsh/bundle/patch"@);
    let in_bundles = manifest.bundles_have(package);
    let record = record_of(registry, package);
    &&& view.package@ == package
    &&& model::text_of(view.version) == match raw {
        Some(t) => json::json_text(t, "/version"@),
        None => None,
    }
    &&& view.origin == match record {
        Some(r) => r.origin,
        None => spec::classified(spec_value).1,
    }
    &&& view.state == state_of(
        true,
        in_bundles,
        declares,
        states_of(sections, owned_rows(sections, package)),
    )
    &&& rows_shown(view.rows@, sections, package)
    &&& view.source == (match record {
        Some(r) => r.source,
        None => None,
    })
    &&& view.last_sync == (match record {
        Some(r) => r.last_sync,
        None => None,
    })
    &&& view.protected == ((record is Some && record->0.protected) || protected_package(package))
    &&& view.needs_reconcile == (declares && !in_bundles)
    &&& view.desired == (match record {
        Some(r) => r.desired,
        None => None,
    })
    &&& view.last_error == (match record {
        Some(r) => r.last_error,
        None => None,
    })
    &&& view.installed_spec is Some
    &&& (view.installed_spec->0)@ == spec_value
}

fn row_views(sections: &Vec<DumpSection>, package: &str) -> (r: Vec<RowView>)
    ensures
        rows_shown(r@, sections@, package@),
{
    let ids = rows_of_owner(sections, package);
    let ghost all = owned_rows(sections@, package@);
    let mut out: Vec<RowView> = Vec::new();
    let mut i: usize = 0;
    while i < ids.len()
        invariant
            all == owned_rows(sections@, package@),
            model::texts(ids@) == all,
            all.len() == ids.len(),
            i <= ids.len(),
            out.len() == i,
            forall|j: int|
                0 <= j < i ==> {
                    let row = row_with(sections@, #[trigger] all[j]);
                    &&& row is Some
                    &&& out@[j].id@ == all[j]
                    &&& model::text_of(out@[j].name) == model::text_of(row->0.name)
                    &&& out@[j].state == row->0.state()
                },
        decreases ids.len() - i,
    {
        proof {
            lemma_owned_row_is_found(sections@, package@, i as int);
            assert(all[i as int] == ids@[i as int]@);
        }
        match find_row(sections, ids[i].as_str()) {
            Some(row) => {
                let view = RowView {
                    id: ids[i].clone(),
                    name: copy_text(&row.name),
                    state: row.row_state(),
                };
                out.push(view);
            },
            None => {},
        }
        i += 1;
    }
    out
}

/// The view of one package.
pub fn build_view(
    package: &str,
    spec_value: &str,
    raw: Option<&str>,
    manifest: &ProfileManifest,
    sections: &Vec<DumpSection>,
    registry: &Registry,
) -> (r: PluginView)
    ensures
        shows(r, package@, spec_value@, model::slice_of(raw), *manifest, sections@, *registry),
{
    let in_bundles = manifest.in_bundles(package);
    let declares = declares_bundle(raw);
    let version = package_version(raw);
    let (ids, states) = rows_for(sections, package);
    let state = derive_state(true, in_bundles, declares, states.as_slice());
    let rows = row_views(sections, package);
    let shielded = is_protected(package);
    let needs_reconcile = declares && !in_bundles;
    match registry.find(package) {
        Some(record) => {
            let source = match &record.source {
                Some(s) => Some(copy_source(s)),
                None => None,
            };
            let last_sync = match &record.last_sync {
                Some(s) => Some(copy_sync(s)),
                None => None,
            };
            PluginView {
                package: package.to_owned(),
                version,
                origin: record.origin,
                state,
                rows,
                source,
                last_sync,
                protected: record.protected || shielded,
                needs_reconcile,
                desired: copy_text(&record.desired),
                last_error: copy_text(&record.last_error),
                installed_spec: Some(spec_value.to_owned()),
            }
        },
        None => {
            let (kind, origin) = spec::classify(spec_value);
            PluginView {
                package: package.to_owned(),
                version,
                origin,
                state,
                rows,
                source: None,
                last_sync: None,
                protected: shielded,
                needs_reconcile,
                desired: None,
                last_error: None,
                installed_spec: Some(spec_value.to_owned()),
            }
        },
    }
}

/// The views of all dependencies in the order of their names. `raws` holds each package's own
/// manifest, where there is one.
pub fn build_views(
    raws: &Vec<Option<String>>,
    manifest: &ProfileManifest,
    sections: &Vec<DumpSection>,
    registry: &Registry,
) -> (r: Vec<PluginView>)
    requires
        manifest.wf(),
        raws@.len() == manifest.dependencies.keys().len(),
    ensures
        r@.len() == manifest.dependencies.keys().len(),
        forall|i: int|
            0 <= i < r@.len() ==> shows(
                #[trigger] r@[i],
                manifest.dependencies.keys()[i],
                manifest.dependencies.values()[i],
                model::text_of(raws@[i]),
                *manifest,
                sections@,
                *registry,
            ),
{
    let n = manifest.dependencies.len();
    let mut out: Vec<PluginView> = Vec::new();
    let mut i: usize = 0;
    while i < n
        invariant
            manifest.wf(),
            n == manifest.dependencies.keys().len(),
            raws@.len() == n,
            i <= n,
            out@.len() == i,
            forall|j: int|
                0 <= j < i ==> shows(
                    #[trigger] out@[j],
                    manifest.dependencies.keys()[j],
                    manifest.dependencies.values()[j],
                    model::text_of(raws@[j]),
                    *manifest,
                    sections@,
                    *registry,
                ),
        decreases n - i,
    {
        let raw = match &raws[i] {
            Some(s) => Some(s.as_str()),
            None => None,
        };
        let view = build_view(
            manifest.dependencies.key(i),
            manifest.dependencies.value(i),
            raw,
            manifest,
            sections,
            registry,
        );
        out.push(view);
        i += 1;
    }
    out
}

/// The first record of a dependency that the registry does not know yet.
pub open spec fn fresh_record(
    record: PluginRecord,
    package: Seq<char>,
    spec_value: Seq<char>,
    sections: Seq<DumpSection>,
) -> bool {
    &&& record.package@ == package
    &&& record.origin == spec::classified(spec_value).1
    &&& record.source is Some
    &&& record.source->0.kind == spec::classified(spec_value).0
    &&& record.source->0.spec@ == spec::installable(package, spec_value)
    &&& model::text_of(record.source->0.repo) == (match spec::repo_and_ref(spec_value) {
        Some((repo, reference)) => Some(repo),
        None => None,
    })
    &&& model::text_of(record.source->0.reference) == (match spec::repo_and_ref(spec_value) {
        Some((repo, reference)) => reference,
        None => None,
    })
    &&& model::text_of(record.source->0.commit) == spec::pinned(spec_value)
    &&& model::texts(record.rows@) == owned_rows(sections, package)
    &&& record.desired is None
    &&& record.last_sync is None
    &&& record.protected == protected_package(package)
    &&& !record.quarantine
    &&& record.last_error is None
    &&& record.shadow_restored@.len() == 0
}

/// The record with which a dependency enters the registry.
pub fn first_record(package: &str, spec_value: &str, sections: &Vec<DumpSection>) -> (r:
    PluginRecord)
    ensures
        fresh_record(r, package@, spec_value@, sections@),
{
    let (kind, origin) = spec::classify(spec_value);
    let (repo, reference) = match spec::git_repo_and_ref(spec_value) {
        Some((a, b)) => (Some(a), b),
        None => (None, None),
    };
    let mut record = PluginRecord::new(package.to_owned());
    record.origin = origin;
    record.source = Some(
        PluginSource {
            kind,
            spec: spec::full_spec(package, spec_value),
            repo,
            reference,
            commit: spec::pinned_commit(spec_value),
        },
    );
    record.rows = rows_of_owner(sections, package);
    record.protected = is_protected(package);
    record
}

/// Drops the records of packages that are no longer dependencies; tells whether there were any.
pub fn prune_registry(registry: &mut Registry, manifest: &ProfileManifest) -> (changed: bool)
    requires
        manifest.wf(),
    ensures
        final(registry).schema_version == old(registry).schema_version,
        final(registry).profile == old(registry).profile,
        final(registry).plugins@ == known(old(registry).plugins@, *manifest),
        changed == (final(registry).plugins@.len() != old(registry).plugins@.len()),
{
    let before = registry.plugins.len();
    let ghost all = registry.plugins@;
    let mut i: usize = 0;
    proof {
        assert(all.skip(0) =~= all);
        assert(all.take(0) + known(all, *manifest) =~= known(all, *manifest));
    }
    while i < registry.plugins.len()
        invariant
            i <= registry.plugins.len(),
            registry.schema_version == old(registry).schema_version,
            registry.profile == old(registry).profile,
            known(all, *manifest) == registry.plugins@.take(i as int) + known(
                registry.plugins@.skip(i as int),
                *manifest,
            ),
        decreases registry.plugins.len() - i,
    {
        let ghost now = registry.plugins@;
        let ghost rest = now.skip(i as int);
        proof {
            assert(rest[0] == now[i as int]);
        }
        if manifest.dependencies.contains_key(registry.plugins[i].package.as_str()) {
            i += 1;
            proof {
                assert(now.skip(i as int) =~= rest.skip(1));
                let tail = known(rest.skip(1), *manifest);
                assert(now.take(i as int) + tail =~= now.take(i - 1) + (seq![rest[0]] + tail));
            }
        } else {
            registry.plugins.remove(i);
            proof {
                assert(registry.plugins@.take(i as int) =~= now.take(i as int));
                assert(registry.plugins@.skip(i as int) =~= rest.skip(1));
            }
        }
    }
    proof {
        assert(registry.plugins@.take(i as int) + known(registry.plugins@.skip(i as int), *manifest)
            =~= registry.plugins@);
    }
    before != registry.plugins.len()
}

/// The records of packages that are dependencies.
pub open spec fn known(plugins: Seq<PluginRecord>, manifest: ProfileManifest) -> Seq<PluginRecord>
    decreases plugins.len(),
{
    if plugins.len() == 0 {
        seq![]
    } else if manifest.dependencies.lookup(plugins[0].package@) is Some {
        seq![plugins[0]] + known(plugins.skip(1), manifest)
    } else {
        known(plugins.skip(1), manifest)
    }
}

} // verus!
