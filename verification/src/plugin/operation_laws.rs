//! What holds of every installation, removal and repair of a plugin, and of the answers to a start
//! that failed.

use crate::model;
use crate::model::CharSet;
use crate::plugin::guard::{InFlight, OpGuard};
use crate::plugin::lifecycle::{
    attribute_boot_failure, begin_uninstall, check_removal, first_implicated, implicated,
    named_in, prune_rows, quarantine, repair_result, repair_targets, replay_texts,
    uninstall_result, to_replay, BootVerdict, UninstallStart,
};
use crate::plugin::managed::{entry_texts, upserted, BlockEdit, EntryText, ManagedEntry};
use crate::plugin::managed_laws::{last_with, law_upsert};
use crate::plugin::managed_round_trip::{law_rows_are_read_back, single_line};
use crate::plugin::operations::{
    anchor_spec, describe_pnpm_failure, first_new, forward_args, registry_should_apply,
    InstallAction, InstallEvent, InstallRun, InstallStage,
};
use crate::plugin::registry::{lemma_position_found, others, PluginRecord, Registry};
use crate::plugin::spec::{classify, git_repo_and_ref, pinned_commit, Origin, SpecKind};
use crate::plugin::state::PluginError;
use crate::plugin::switch_laws::{lemma_rows_after_from, lemma_says, rows_in, says};
use crate::plugin::service::OpResult;
use crate::profile::ProfileManifest;
use crate::stream::StreamFailure;
use crate::text_lemmas::{lemma_first_in_none, lemma_trim_nothing};
use crate::text_map::TextMap;
use vstd::prelude::*;

verus! {

// ---- Installing ----

/// What is installed is what was asked for: the package manager is handed the very spec, and an
/// installation is refused exactly for an empty one.
pub proof fn law_the_asked_spec_is_installed(
    spec: &str,
    origin: Option<Origin>,
    before: TextMap,
    r: Result<InstallRun, PluginError>,
    run: &InstallRun,
    args: Vec<String>,
)
    requires
        call_ensures(InstallRun::begin, (spec, origin, before), r),
        r == Ok::<InstallRun, PluginError>(*run) || r is Err,
        call_ensures(InstallRun::args, (run,), args),
    ensures
        r is Err <==> spec@.len() == 0,
        r is Ok ==> {
            &&& run.spec@ == spec@
            &&& run.origin_override == origin
            &&& run.before == before
            &&& run.stage is Adding
            &&& model::texts(args@).len() == 2
            &&& model::passes(model::texts(args@), "add"@, spec@)
        },
{
    let a = model::texts(args@);
    assert(a[0] == "add"@ && a[1] == run.spec@);
}

/// An installation that failed is taken back before anything else is done, and its end is a failure;
/// where it held, the manifest is read.
pub proof fn law_failed_installations_are_taken_back(
    run: &mut InstallRun,
    event: InstallEvent,
    r: InstallAction,
)
    requires
        old(run).expects(event),
        event is Manifest && event->Manifest_0 is Ok ==> event->Manifest_0->Ok_0.wf(),
        call_ensures(InstallRun::step, (run, event), r),
    ensures
        old(run).stage is Adding ==> {
            &&& event->Added_0 is Err ==> r is Rollback
            &&& event->Added_0 is Ok ==> r is ReadManifest
        },
        old(run).stage is Undoing || old(run).stage is Withdrawing ==> r is Fail,
        event is Manifest && event->Manifest_0 is Err ==> r is Fail,
        r is Rollback ==> old(run).stage is Adding || old(run).stage is Reconciling,
        r is Record ==> old(run).stage is Checking || old(run).stage is Reconciling,
        r is Done ==> old(run).stage is Recording,
        r is Fail || r is Done ==> final(run).stage is Over,
        final(run).spec == old(run).spec && final(run).origin_override == old(run).origin_override,
{
}

/// A package that declares a bundle counts as installed only once it is one of the profile's bundles;
/// where it does not become one, the installation is taken back. A package that declares none is
/// installed as it is.
pub proof fn law_bundles_are_in_place_when_recorded(
    run: &mut InstallRun,
    event: InstallEvent,
    r: InstallAction,
)
    requires
        old(run).expects(event),
        event is Manifest && event->Manifest_0 is Ok ==> event->Manifest_0->Ok_0.wf(),
        call_ensures(InstallRun::step, (run, event), r),
    ensures
        old(run).stage matches InstallStage::Checking { package, in_bundles } ==> {
            &&& r is Record <==> (event->Declares_0 ==> in_bundles)
            &&& r is Reconcile <==> event->Declares_0 && !in_bundles
        },
        old(run).stage matches InstallStage::Reconciling { package } ==> (event->Manifest_0 is Ok
            ==> {
            let there = exists|i: int|
                0 <= i < event->Manifest_0->Ok_0.bundles@.len() && (
                #[trigger] event->Manifest_0->Ok_0.bundles@[i])@ == package@;
            &&& r is Record <==> there
            &&& r is Rollback <==> !there
        }),
        old(run).stage is Reading && event->Manifest_0 is Ok ==> {
            &&& r is CheckBundle
            &&& final(run).stage is Checking
            &&& final(run).stage->Checking_package@ == r->CheckBundle_0@
            &&& final(run).stage->in_bundles <==> exists|i: int|
                0 <= i < event->Manifest_0->Ok_0.bundles@.len() && (
                #[trigger] event->Manifest_0->Ok_0.bundles@[i])@ == r->CheckBundle_0@
        },
{
    if event is Manifest && event->Manifest_0 is Ok {
        let m = event->Manifest_0->Ok_0;
        let names = model::texts(m.bundles@);
        if old(run).stage is Reconciling {
            lemma_named(m.bundles@, old(run).stage->Reconciling_package@);
        }
        if r is CheckBundle {
            lemma_named(m.bundles@, r->CheckBundle_0@);
        }
    }
}

pub proof fn lemma_named(v: Seq<String>, s: Seq<char>)
    ensures
        model::texts(v).contains(s) <==> exists|i: int| 0 <= i < v.len() && (#[trigger] v[i])@ == s,
{
    let t = model::texts(v);
    assert(t.len() == v.len());
    if t.contains(s) {
        let i = choose|i: int| 0 <= i < t.len() && t[i] == s;
        assert(v[i]@ == s);
    }
    if exists|i: int| 0 <= i < v.len() && (#[trigger] v[i])@ == s {
        let i = choose|i: int| 0 <= i < v.len() && (#[trigger] v[i])@ == s;
        assert(t[i] == s);
    }
}

/// The package that an installation is about is a dependency that was not there before, where there
/// is one.
pub proof fn law_the_new_dependency_is_meant(
    run: &mut InstallRun,
    event: InstallEvent,
    r: InstallAction,
    k: int,
)
    requires
        old(run).expects(event),
        event is Manifest,
        event->Manifest_0 is Ok,
        event->Manifest_0->Ok_0.wf(),
        old(run).stage is Reading,
        call_ensures(InstallRun::step, (run, event), r),
        0 <= k < event->Manifest_0->Ok_0.dependencies.keys().len(),
        old(run).before.lookup(event->Manifest_0->Ok_0.dependencies.keys()[k]) is None,
    ensures
        r is CheckBundle,
        old(run).before.lookup(r->CheckBundle_0@) is None,
        event->Manifest_0->Ok_0.dependencies.keys().contains(r->CheckBundle_0@),
{
    lemma_first_new(event->Manifest_0->Ok_0.dependencies.keys(), old(run).before, 0, k);
}

proof fn lemma_first_new(keys: Seq<Seq<char>>, before: TextMap, i: int, k: int)
    requires
        0 <= i <= k < keys.len(),
        before.lookup(keys[k]) is None,
    ensures
        first_new(keys, before, i) is Some,
        before.lookup(first_new(keys, before, i)->0) is None,
        keys.contains(first_new(keys, before, i)->0),
    decreases keys.len() - i,
{
    if before.lookup(keys[i]) is Some {
        lemma_first_new(keys, before, i + 1, k);
    }
}

/// What is recorded of an installation: the package, the spec that was asked for, where it comes from
/// as the user said or as the spec shows, and the repository and commit that it names.
pub proof fn law_installations_are_recorded(
    run: &mut InstallRun,
    event: InstallEvent,
    r: InstallAction,
    spec: &str,
    class: (SpecKind, Origin),
    parts: Option<(String, Option<String>)>,
    commit: Option<String>,
)
    requires
        old(run).expects(event),
        event is Manifest && event->Manifest_0 is Ok ==> event->Manifest_0->Ok_0.wf(),
        call_ensures(InstallRun::step, (run, event), r),
        r is Record,
        spec@ == old(run).spec@,
        call_ensures(classify, (spec,), class),
        call_ensures(git_repo_and_ref, (spec,), parts),
        call_ensures(pinned_commit, (spec,), commit),
    ensures
        ({
            let record = r->Record_0;
            &&& old(run).stage matches InstallStage::Checking { package, .. } ==> record.package@
                == package@
            &&& old(run).stage matches InstallStage::Reconciling { package } ==> record.package@
                == package@
            &&& old(run).origin_override is Some ==> record.origin == old(run).origin_override->0
            &&& old(run).origin_override is None ==> record.origin == class.1
            &&& record.source is Some
            &&& (record.source->0).spec@ == spec@
            &&& (record.source->0).kind == class.0
            &&& (record.source->0).repo is Some <==> parts is Some
            &&& parts is Some ==> ((record.source->0).repo->0)@ == (parts->0).0@ && model::text_of(
                (record.source->0).reference,
            ) == model::text_of((parts->0).1)
            &&& model::text_of((record.source->0).commit) == model::text_of(commit)
            &&& record.desired is None && record.last_error is None && !record.quarantine
        }),
{
}

/// The end of an installation tells of the package and whether the service was started again.
pub proof fn law_the_end_of_an_installation(
    run: &mut InstallRun,
    event: InstallEvent,
    r: InstallAction,
)
    requires
        old(run).expects(event),
        old(run).stage is Recording,
        call_ensures(InstallRun::step, (run, event), r),
    ensures
        r is Done,
        r->Done_0.status is Changed,
        r->Done_0.restarted == event->Restarted_0,
        r->Done_0.package == Some(old(run).stage->Recording_package),
{
}

/// The package manager is run for the profile, with the arguments as they were given; the registry is
/// named only where one is configured and the command reaches for it.
pub proof fn law_commands_are_forwarded(
    profile: &str,
    args: &Vec<String>,
    registry: Option<&str>,
    r: Vec<String>,
    i: int,
)
    requires
        call_ensures(forward_args, (profile, args, registry), r),
        0 <= i < args@.len(),
    ensures
        ({
            let all = model::texts(r@);
            &&& all[0] == "plugin"@
            &&& model::passes(all, "--profile"@, profile@)
            &&& all[3 + i] == args@[i]@
            &&& registry is None ==> all.len() == 3 + args@.len()
            &&& all.len() == 3 + args@.len() || (all.len() == 5 + args@.len() && registry is Some
                && all[3 + args@.len() as int] == "--registry"@ && all[4 + args@.len() as int] == (
            registry->0)@)
            &&& registry is Some && (args@[0]@ == "install"@ || args@[0]@ == "i"@) ==> all.len() == 5
                + args@.len()
        }),
{
    let all = model::texts(r@);
    let given = model::texts(args@);
    assert(given.len() == args@.len() && given[i] == args@[i]@ && given[0] == args@[0]@);
    assert(all[1] == "--profile"@ && all[2] == profile@);
}

/// The registry is reached for by an install, and by the addition of something that is a package of a
/// registry; by no other command.
pub proof fn law_when_the_registry_counts(args: &[String], b: bool, i: int, arg: &str, class: (SpecKind, Origin))
    requires
        call_ensures(registry_should_apply, (args,), b),
        1 <= i < args@.len(),
        arg@ == args@[i]@,
        call_ensures(classify, (arg,), class),
    ensures
        args@[0]@ == "install"@ || args@[0]@ == "i"@ ==> b,
        b ==> args@[0]@ == "install"@ || args@[0]@ == "i"@ || args@[0]@ == "add"@,
        args@[0]@ == "add"@ && class.0 is Npm && !(arg@.len() > 0 && arg@[0] == '-') ==> b,
        args@[0]@ == "add"@ && args@.len() == 2 && !(class.0 is Npm) ==> !b,
{
    let all = model::texts(args@);
    assert(all.len() == args@.len() && all[0] == args@[0]@ && all[i] == args@[i]@);
    reveal_strlit("add");
    reveal_strlit("install");
    reveal_strlit("i");
    assert("add"@.len() == 3 && "install"@.len() == 7 && "i"@.len() == 1);
    if class.0 is Npm && !(arg@.len() > 0 && arg@[0] == '-') {
        assert(crate::plugin::operations::registry_spec(all[i]));
    }
}

// ---- Removing ----

/// A protected package is never removed; one that is not installed is only tidied up after, and the
/// rows that go are those on record; one that is installed is removed, with the rows that the service
/// shows, or those on record where it shows none.
pub proof fn law_what_a_removal_begins_with(
    profile: &str,
    package: &str,
    manifest: Option<&ProfileManifest>,
    dumped: Vec<String>,
    registry: &Registry,
    r: UninstallStart,
    i: int,
)
    requires
        manifest is Some ==> (manifest->0).wf(),
        call_ensures(begin_uninstall, (profile, package, manifest, dumped, registry), r),
        0 <= i < registry.plugins@.len(),
        registry.plugins@[i].package@ == package@,
        forall|j: int| 0 <= j < i ==> (#[trigger] registry.plugins@[j]).package@ != package@,
    ensures
        r is Refuse <==> package@ == "@deepseek-ai/dsh-base"@ || package@
            == "@deepseek-ai/dsh-web-app"@,
        r is Remove ==> manifest is Some && (manifest->0).dependencies.lookup(package@) is Some,
        !(r is Refuse) && manifest is Some && (manifest->0).dependencies.lookup(package@) is Some
            ==> r is Remove,
        r matches UninstallStart::Clear { rows, result } ==> result.status is Unchanged
            && !result.restarted && (manifest is Some ==> model::texts(rows@) == model::texts(
            registry.plugins@[i].rows@,
        )),
        r matches UninstallStart::Remove { rows } ==> if dumped@.len() > 0 {
            model::texts(rows@) == model::texts(dumped@)
        } else {
            model::texts(rows@) == model::texts(registry.plugins@[i].rows@)
        },
{
    lemma_position_found(registry.plugins@, package@);
    crate::plugin::registry::lemma_position(registry.plugins@, package@, i);
}

/// Once rows are taken out of the managed block, the patch file says nothing of them, and of every
/// other row what it said before.
pub proof fn law_removed_rows_leave_the_file(
    path: &str,
    content: Option<&str>,
    existing: Option<Vec<ManagedEntry>>,
    rows: &Vec<String>,
    edit: BlockEdit,
    id: Seq<char>,
    other: Seq<char>,
)
    requires
        call_ensures(
            prune_rows,
            (path, content, existing, rows),
            Some(Ok::<BlockEdit, String>(edit)),
        ),
        existing is Some,
        forall|k: int| 0 <= k < (existing->0)@.len() ==> (#[trigger] (existing->0)@[k]).package is None,
        last_with(entry_texts((existing->0)@), other) is Some,
        !model::texts(rows@).contains(other),
    ensures
        ({
            let now = rows_in(path@, edit@.content);
            &&& model::texts(rows@).contains(id) ==> says(now, id, None)
            &&& !model::texts(rows@).contains(id) ==> match last_with(
                entry_texts((existing->0)@),
                id,
            ) {
                Some(e) => says(now, id, Some(e.disabled)),
                None => says(now, id, None),
            }
        }),
{
    let start = entry_texts((existing->0)@);
    let gone = model::texts(rows@);
    let none = Seq::<EntryText>::empty();
    let entries = upserted(start, none, gone);
    law_upsert(start, none, gone, id);
    law_upsert(start, none, gone, other);
    assert(last_with(none, id) is None && last_with(none, other) is None);
    assert(entries.len() > 0);
    assert forall|k: int| 0 <= k < entries.len() implies #[trigger] entries[k].package is None
        || single_line(entries[k].package->0) by {
        lemma_rows_after_from(start, none, gone, k);
        assert(start.contains(entries[k]));
        let j = choose|j: int| 0 <= j < start.len() && start[j] == entries[k];
        assert(start[j] == (existing->0)@[j]@);
    }
    law_rows_are_read_back(path@, model::slice_of(content), entries);
    lemma_says(entries, id);
}

/// A removal holds exactly where the package manager succeeded and the package is neither a
/// dependency nor a bundle any more.
pub proof fn law_removals_are_checked(
    package: &str,
    removed: Result<(), PluginError>,
    after: Option<&ProfileManifest>,
    r: Result<(), PluginError>,
)
    requires
        removed is Ok ==> after is Some && (after->0).wf(),
        call_ensures(check_removal, (package, removed, after), r),
    ensures
        r is Ok <==> {
            &&& removed is Ok
            &&& (after->0).dependencies.lookup(package@) is None
            &&& forall|i: int|
                0 <= i < (after->0).bundles@.len() ==> (#[trigger] (after->0).bundles@[i])@
                    != package@
        },
        r is Err ==> r->Err_0.kind is VerificationFailed,
{
    lemma_named((after->0).bundles@, package@);
}

// ---- Repairing ----

/// A repair switches exactly the packages on record that have a desired state, to that state; asked
/// for one package, only that.
pub proof fn law_repairs_apply_what_is_desired(
    registry: &Registry,
    only: Option<&str>,
    r: Vec<(String, bool)>,
    package: Seq<char>,
    on: bool,
)
    requires
        call_ensures(repair_targets, (registry, only), r),
    ensures
        (exists|k: int| 0 <= k < r@.len() && (#[trigger] r@[k]).0@ == package && r@[k].1 == on)
            <==> exists|i: int|
            0 <= i < registry.plugins@.len() && (#[trigger] registry.plugins@[i]).package@ == package
                && registry.plugins@[i].desired is Some && (on <==> (
            registry.plugins@[i].desired->0)@ == "enabled"@) && (only is None || package == (
            only->0)@),
{
    let all = replay_texts(r@);
    let plugins = registry.plugins@;
    lemma_replay(plugins, model::slice_of(only), package, on);
    assert(all.len() == r@.len());
    if all.contains((package, on)) {
        let k = choose|k: int| 0 <= k < all.len() && all[k] == (package, on);
        assert(r@[k].0@ == package);
    }
    if exists|k: int| 0 <= k < r@.len() && (#[trigger] r@[k]).0@ == package && r@[k].1 == on {
        let k = choose|k: int| 0 <= k < r@.len() && (#[trigger] r@[k]).0@ == package && r@[k].1 == on;
        assert(all[k] == (package, on));
    }
}

proof fn lemma_replay(plugins: Seq<PluginRecord>, only: Option<Seq<char>>, package: Seq<char>, on: bool)
    ensures
        to_replay(plugins, only).contains((package, on)) <==> exists|i: int|
            0 <= i < plugins.len() && (#[trigger] plugins[i]).package@ == package
                && plugins[i].desired is Some && (on <==> (plugins[i].desired->0)@ == "enabled"@) && (
            only is None || package == only->0),
    decreases plugins.len(),
{
    let all = to_replay(plugins, only);
    if plugins.len() > 0 {
        let n = plugins.len() - 1;
        let init = plugins.drop_last();
        let rest = to_replay(init, only);
        lemma_replay(init, only, package, on);
        if all.contains((package, on)) {
            let k = choose|k: int| 0 <= k < all.len() && all[k] == (package, on);
            if k < rest.len() {
                assert(rest[k] == (package, on));
                let i = choose|i: int|
                    0 <= i < init.len() && (#[trigger] init[i]).package@ == package
                        && init[i].desired is Some && (on <==> (init[i].desired->0)@ == "enabled"@)
                        && (only is None || package == only->0);
                assert(plugins[i] == init[i]);
            } else {
                assert(plugins[n].package@ == package);
            }
        }
        if exists|i: int|
            0 <= i < plugins.len() && (#[trigger] plugins[i]).package@ == package
                && plugins[i].desired is Some && (on <==> (plugins[i].desired->0)@ == "enabled"@) && (
            only is None || package == only->0) {
            let i = choose|i: int|
                0 <= i < plugins.len() && (#[trigger] plugins[i]).package@ == package
                    && plugins[i].desired is Some && (on <==> (plugins[i].desired->0)@ == "enabled"@)
                    && (only is None || package == only->0);
            if i < n {
                assert(init[i] == plugins[i]);
                let k = choose|k: int| 0 <= k < rest.len() && rest[k] == (package, on);
                assert(all[k] == (package, on));
            } else {
                assert(all[rest.len() as int] == (package, on));
            }
        }
    }
}

// ---- A start that failed ----

/// The output names the text, which is long enough to be told apart.
pub open spec fn tells_of(output: Seq<char>, name: Seq<char>) -> bool {
    model::byte_len(name) >= 4 && exists|at: int| #[trigger] model::matches_at(output, name, at)
}

proof fn lemma_tells(output: Seq<char>, name: Seq<char>)
    ensures
        named_in(output, name) <==> tells_of(output, name),
{
    model::lemma_find_at(output, name, 0);
}

/// A plugin is blamed for a failed start only where it is on record, is not protected, and what the
/// service printed names it or one of its rows; no plugin before it on record is one of those. A
/// configuration that cannot be parsed is no plugin's fault.
pub proof fn law_who_is_blamed(stderr: &str, registry: &Registry, r: BootVerdict)
    requires
        call_ensures(attribute_boot_failure, (stderr, registry), r),
        stderr@.len() <= 32768,
    ensures
        r is Silent <==> model::blank(stderr@),
        r is Blame ==> !model::contains(stderr@, "failed to parse"@) && exists|i: int|
            0 <= i < registry.plugins@.len() && (#[trigger] registry.plugins@[i]).package@
                == r->Blame_0@ && !registry.plugins@[i].protected && (tells_of(
                stderr@,
                r->Blame_0@,
            ) || exists|k: int|
                0 <= k < registry.plugins@[i].rows@.len() && tells_of(
                    stderr@,
                    (#[trigger] registry.plugins@[i].rows@[k])@,
                )),
        !model::blank(stderr@) && model::contains(stderr@, "failed to parse"@) <==> r is BadConfig,
        r is Unattributed ==> forall|i: int|
            0 <= i < registry.plugins@.len() && !(#[trigger] registry.plugins@[i]).protected
                ==> !tells_of(stderr@, registry.plugins@[i].package@),
{
    let plugins = registry.plugins@;
    assert(model::last_of(stderr@, 32768) == stderr@);
    crate::plugin::lifecycle::law_protected_plugins_are_not_blamed(stderr@, plugins);
    match first_implicated(stderr@, plugins) {
        Some(p) => {
            let i = choose|i: int|
                0 <= i < plugins.len() && !(#[trigger] plugins[i]).protected && plugins[i].package@ == p
                    && implicated(stderr@, plugins[i]);
            lemma_tells(stderr@, p);
            if !named_in(stderr@, p) {
                let k = choose|k: int|
                    0 <= k < plugins[i].rows@.len() && named_in(
                        stderr@,
                        #[trigger] plugins[i].rows@[k]@,
                    );
                lemma_tells(stderr@, plugins[i].rows@[k]@);
                assert(tells_of(stderr@, plugins[i].rows@[k]@));
            }
            assert(plugins[i].package@ == p);
        },
        None => {
            assert forall|i: int|
                0 <= i < plugins.len() && !(#[trigger] plugins[i]).protected implies !tells_of(
                stderr@,
                plugins[i].package@,
            ) by {
                lemma_tells(stderr@, plugins[i].package@);
                assert(!implicated(stderr@, plugins[i]));
            }
        },
    }
}

/// Only the package that is named is put in quarantine; the rest of the registry is left alone.
pub proof fn law_quarantine_is_for_one(registry: &mut Registry, package: &str, i: int)
    requires
        call_ensures(quarantine, (registry, package), ()),
        0 <= i < old(registry).plugins@.len(),
    ensures
        final(registry).plugins@.len() == old(registry).plugins@.len(),
        old(registry).plugins@[i].package@ != package@ ==> final(registry).plugins@[i] == old(
            registry,
        ).plugins@[i],
        old(registry).plugins@[i].package@ == package@ && (forall|j: int|
            0 <= j < i ==> (#[trigger] old(registry).plugins@[j]).package@ != package@)
            ==> final(registry).plugins@[i].quarantine && final(registry).plugins@[i].package@
            == package@,
{
    lemma_position_found(old(registry).plugins@, package@);
}

// ---- The registry ----

/// A record that is put in is the one that is found, in place of an earlier one of its package; the
/// records of other packages stay.
pub proof fn law_records_are_found(
    registry: &mut Registry,
    record: PluginRecord,
    package: &str,
    after: &Registry,
    found: Option<&PluginRecord>,
)
    requires
        call_ensures(Registry::upsert, (registry, record), ()),
        *after == *final(registry),
        package@ == record.package@,
        call_ensures(Registry::find, (after, package), found),
    ensures
        found is Some && *found->0 == record,
        forall|i: int|
            0 <= i < old(registry).plugins@.len() && (#[trigger] old(registry).plugins@[i]).package@
                != record.package@ ==> after.plugins@.contains(old(registry).plugins@[i]),
        forall|i: int|
            0 <= i < after.plugins@.len() ==> #[trigger] after.plugins@[i] == record || old(
                registry,
            ).plugins@.contains(after.plugins@[i]),
{
    let was = old(registry).plugins@;
    let now = after.plugins@;
    crate::plugin::registry::law_registry_lookup(was, record);
    lemma_position_found(was, record.package@);
    assert forall|i: int|
        0 <= i < was.len() && (#[trigger] was[i]).package@ != record.package@ implies now.contains(
        was[i],
    ) by {
        assert(now[i] == was[i]);
    }
    assert forall|i: int| 0 <= i < now.len() implies #[trigger] now[i] == record || was.contains(now[i]) by {
        if i < was.len() && now[i] != record {
            assert(now[i] == was[i]);
        }
    }
}

proof fn lemma_others(plugins: Seq<PluginRecord>, package: Seq<char>)
    ensures
        forall|r: PluginRecord| #[trigger]
            others(plugins, package).contains(r) <==> plugins.contains(r) && r.package@ != package,
    decreases plugins.len(),
{
    let all = others(plugins, package);
    if plugins.len() > 0 {
        let tail = plugins.skip(1);
        let rest = others(tail, package);
        lemma_others(tail, package);
        assert forall|r: PluginRecord| #[trigger] all.contains(r) <==> plugins.contains(r)
            && r.package@ != package by {
            if plugins.contains(r) {
                let i = choose|i: int| 0 <= i < plugins.len() && plugins[i] == r;
                if i > 0 {
                    assert(tail[i - 1] == r);
                }
            }
            if tail.contains(r) {
                let i = choose|i: int| 0 <= i < tail.len() && tail[i] == r;
                assert(plugins[i + 1] == r);
            }
            if plugins[0].package@ != package {
                assert(all == seq![plugins[0]] + rest);
                if all.contains(r) {
                    let i = choose|i: int| 0 <= i < all.len() && all[i] == r;
                    if i > 0 {
                        assert(rest[i - 1] == r);
                    } else {
                        assert(plugins[0] == r);
                    }
                }
                if rest.contains(r) {
                    let i = choose|i: int| 0 <= i < rest.len() && rest[i] == r;
                    assert(all[i + 1] == r);
                }
                if r == plugins[0] {
                    assert(all[0] == r);
                }
            }
        }
    }
}

/// Removing a package takes away its records and no other.
pub proof fn law_only_the_named_records_go(registry: &mut Registry, package: &str, b: bool, r: PluginRecord)
    requires
        call_ensures(Registry::remove, (registry, package), b),
    ensures
        final(registry).plugins@.contains(r) <==> old(registry).plugins@.contains(r) && r.package@
            != package@,
{
    lemma_others(old(registry).plugins@, package@);
}

/// The desired state is set for the package that is named, and for it alone.
pub proof fn law_desires_are_for_one(
    registry: &mut Registry,
    package: &str,
    desired: Option<&str>,
    i: int,
)
    requires
        call_ensures(Registry::set_desired, (registry, package, desired), ()),
        0 <= i < old(registry).plugins@.len(),
    ensures
        old(registry).plugins@[i].package@ != package@ ==> final(registry).plugins@[i] == old(
            registry,
        ).plugins@[i],
        old(registry).plugins@[i].package@ == package@ && (forall|j: int|
            0 <= j < i ==> (#[trigger] old(registry).plugins@[j]).package@ != package@)
            ==> model::text_of(final(registry).plugins@[i].desired) == model::slice_of(desired),
{
    lemma_position_found(old(registry).plugins@, package@);
}

// ---- Operations at the same time ----

/// An operation is let in exactly where nothing that excludes it is under way: not while the same one
/// runs, not while the synchronisation runs, and that only alone. While it runs it is counted.
pub proof fn law_who_is_let_in(set: &mut InFlight, key: &str, r: Result<OpGuard, PluginError>)
    requires
        old(set).wf(),
        call_ensures(OpGuard::acquire, (set, key), r),
    ensures
        r is Ok <==> {
            &&& !old(set).running().contains(key@)
            &&& !old(set).running().contains("__sync__"@)
            &&& key@ == "__sync__"@ ==> old(set).running().len() == 0
        },
        r is Ok ==> final(set).running().contains(key@) && r->Ok_0.key() == key@,
        r is Err ==> final(set).running() == old(set).running() && r->Err_0.kind is Busy,
        forall|other: Seq<char>|
            other != key@ ==> (#[trigger] final(set).running().contains(other) <==> old(
                set,
            ).running().contains(other)),
        final(set).wf(),
{
    let was = old(set).running();
    let now = final(set).running();
    if r is Ok {
        assert(now[was.len() as int] == key@);
        assert forall|other: Seq<char>| other != key@ implies (#[trigger] now.contains(other)
            <==> was.contains(other)) by {
            if was.contains(other) {
                let i = choose|i: int| 0 <= i < was.len() && was[i] == other;
                assert(now[i] == other);
            }
            if now.contains(other) {
                let i = choose|i: int| 0 <= i < now.len() && now[i] == other;
                assert(was[i] == other);
            }
        }
    }
    if was.contains(key@) {
        assert(was.len() > 0);
    }
}

/// An operation that is over no longer keeps others out, and lets go of nothing but itself.
pub proof fn law_who_is_let_go(guard: OpGuard, set: &mut InFlight, other: Seq<char>)
    requires
        old(set).wf(),
        call_ensures(OpGuard::release, (guard, set), ()),
    ensures
        !final(set).running().contains(guard.key()),
        other != guard.key() ==> (final(set).running().contains(other) <==> old(
            set,
        ).running().contains(other)),
        final(set).wf(),
{
    if other != guard.key() {
        lemma_dropped_members(old(set).running(), guard.key(), other);
    }
}

proof fn lemma_dropped_members(keys: Seq<Seq<char>>, key: Seq<char>, other: Seq<char>)
    requires
        other != key,
    ensures
        crate::plugin::guard::dropped(keys, key).contains(other) <==> keys.contains(other),
    decreases keys.len(),
{
    let all = crate::plugin::guard::dropped(keys, key);
    if keys.len() > 0 {
        let tail = keys.skip(1);
        if keys.contains(other) {
            let i = choose|i: int| 0 <= i < keys.len() && keys[i] == other;
            if i > 0 {
                assert(tail[i - 1] == other);
            }
        }
        if tail.contains(other) {
            let i = choose|i: int| 0 <= i < tail.len() && tail[i] == other;
            assert(keys[i + 1] == other);
        }
        if keys[0] != key {
            lemma_dropped_members(tail, key, other);
            let rest = crate::plugin::guard::dropped(tail, key);
            if rest.contains(other) {
                let i = choose|i: int| 0 <= i < rest.len() && rest[i] == other;
                assert(all[i + 1] == other);
            }
            if all.contains(other) {
                let i = choose|i: int| 0 <= i < all.len() && all[i] == other;
                if i > 0 {
                    assert(rest[i - 1] == other);
                } else {
                    assert(keys[0] == other);
                }
            }
            if keys[0] == other {
                assert(all[0] == other);
            }
        }
    }
}

/// A spec that names no relative path, or for which no directory is known, is installed as it is.
pub proof fn law_other_specs_stay(spec: &str, joined: Option<&str>, r: String)
    requires
        call_ensures(anchor_spec, (spec, joined), r),
    ensures
        joined is None ==> r@ == spec@,
        joined is Some && r@ != spec@ ==> model::ends_with(r@, (joined->0)@),
{
    if joined is Some {
        let j = (joined->0)@;
        if r@ != spec@ {
            assert(r@.subrange(r@.len() - j.len(), r@.len() as int) =~= j);
        }
    }
}

/// A path that is relative to the working directory is installed by its place from the root, behind
/// the prefix that it had.
pub proof fn law_relative_paths_are_anchored(spec: &str, joined: &str, r: String, rest: Seq<char>)
    requires
        call_ensures(anchor_spec, (spec, Some(joined)), r),
        forall|i: int| 0 <= i < rest.len() ==> #[trigger] rest[i] != ':' && !model::white(rest[i]),
        rest.len() > 0,
    ensures
        spec@ == "./"@ + rest && !model::ends_with(model::lower_ascii(spec@), ".tgz"@)
            && !model::ends_with(model::lower_ascii(spec@), ".tar.gz"@) ==> r@ == joined@,
        spec@ == "file:./"@ + rest ==> r@ == "file:"@ + joined@,
{
    reveal_strlit("./");
    reveal_strlit("file:./");
    reveal_strlit("file:");
    reveal_strlit("link:");
    reveal_strlit("file");
    reveal_strlit("link");
    reveal_strlit("git+");
    reveal_strlit("github:");
    reveal_strlit("gitlab:");
    reveal_strlit("bitbucket:");
    reveal_strlit("git@");
    reveal_strlit("ssh://");
    reveal_strlit("git://");
    reveal_strlit("http");
    reveal_strlit("http://");
    reveal_strlit("https://");
    reveal_strlit(":");
    let s = spec@;
    let k = CharSet::Only(':');
    let n = rest.len() as int;
    assert(!model::white(rest[n - 1]));
    if s == "./"@ + rest {
        assert(s[0] == '.' && s.last() == rest[n - 1]);
        lemma_trim_nothing(s, CharSet::White);
        let low = model::lower_ascii(s);
        assert(low[0] == '.');
        lemma_not_first(low, "link:"@);
        lemma_not_first(low, "file:"@);
        lemma_not_first(low, "git+"@);
        lemma_not_first(low, "github:"@);
        lemma_not_first(low, "gitlab:"@);
        lemma_not_first(low, "bitbucket:"@);
        lemma_not_first(low, "git@"@);
        lemma_not_first(low, "ssh://"@);
        lemma_not_first(low, "git://"@);
        lemma_not_first(low, "http"@);
        lemma_not_first(low, "http://"@);
        lemma_not_first(low, "https://"@);
        assert(s.subrange(0, 2) =~= "./"@);
        assert(model::starts_with(s, "./"@));
        assert forall|i: int| 0 <= i < s.len() implies !k.has(#[trigger] s[i]) by {
            if i >= 2 {
                assert(s[i] == rest[i - 2]);
            }
        }
        lemma_first_in_none(s, k, 0);
    }
    if s == "file:./"@ + rest {
        assert(s[0] == 'f' && s.last() == rest[n - 1]);
        lemma_trim_nothing(s, CharSet::White);
        let low = model::lower_ascii(s);
        assert(s[1] == 'i' && s[2] == 'l' && s[3] == 'e' && s[4] == ':' && s[5] == '.' && s[6] == '/');
        assert(low.subrange(0, 5) =~= "file:"@);
        assert(model::starts_with(low, "file:"@));
        model::lemma_first_in(s, k, 0);
        let at = model::first_in(s, k, 0);
        assert(k.has(s[4]));
        assert(at == 4) by {
            if at < 4 {
                assert(s[at] == ':');
            }
        }
        let head = s.take(4);
        let path = s.skip(5);
        assert(head =~= "file"@);
        assert(path.subrange(0, 2) =~= "./"@);
        assert(model::starts_with(path, "./"@));
        assert("file"@ + ":"@ =~= "file:"@);
    }
}

proof fn lemma_not_first(s: Seq<char>, p: Seq<char>)
    requires
        s.len() > 0,
        p.len() > 0,
        s[0] != p[0],
    ensures
        !model::starts_with(s, p),
{
    if model::starts_with(s, p) {
        assert(s.subrange(0, p.len() as int)[0] == s[0]);
    }
}

/// A failure of the package manager is told in its own words first; hints on known causes follow, and
/// only where the cause shows.
pub proof fn law_failures_keep_their_words(
    failure: &StreamFailure,
    told: String,
    full: String,
    words: String,
)
    requires
        call_ensures(describe_pnpm_failure, (failure,), told),
        call_ensures(StreamFailure::detail, (failure,), full),
        call_ensures(StreamFailure::diagnostics, (failure,), words),
    ensures
        model::starts_with(told@, full@),
        !model::contains(words@, "ERR_PNPM_FETCH_404"@) && !model::contains(
            words@,
            "is not in the npm registry"@,
        ) && !model::contains(words@, "allowBuilds"@) && !model::contains(
            words@,
            "Ignored build scripts"@,
        ) && !model::contains(words@, "PREPARE_NOT_ALLOWED"@) && !model::contains(
            words@,
            "needs to execute build scripts"@,
        ) && !model::contains(words@, "ERR_PNPM_FETCH"@) ==> told@ == full@,
        model::contains(words@, "ERR_PNPM_FETCH_404"@) || model::contains(words@, "allowBuilds"@)
            ==> told@.len() > full@.len(),
{
    assert(told@.subrange(0, full@.len() as int) =~= full@);
    reveal_strlit("\n提示：该 npm 包在 registry 中不存在（或名称拼写有误 / 无访问权限）。\n  ");
    reveal_strlit("\n提示：pnpm 阻止了该依赖的构建脚本（build/prepare），安装未完成。\n  ");
    if !model::contains(words@, "ERR_PNPM_FETCH_404"@) && !model::contains(
        words@,
        "is not in the npm registry"@,
    ) && !model::contains(words@, "allowBuilds"@) && !model::contains(words@, "Ignored build scripts"@)
        && !model::contains(words@, "PREPARE_NOT_ALLOWED"@) && !model::contains(
        words@,
        "needs to execute build scripts"@,
    ) && !model::contains(words@, "ERR_PNPM_FETCH"@) {
        assert(told@ =~= full@);
    }
}

/// A repair is reported as a change exactly where something was switched or the service was started
/// again.
pub proof fn law_repairs_are_reported(changed: usize, restarted: bool, r: OpResult, package: &str, again: bool, gone: OpResult)
    requires
        call_ensures(repair_result, (changed, restarted), r),
        call_ensures(uninstall_result, (package, again), gone),
    ensures
        r.status is Unchanged <==> changed == 0 && !restarted,
        r.restarted == restarted && r.package is None,
        gone.status is Changed && gone.restarted == again && gone.package is Some && (
        gone.package->0)@ == package@,
{
}

} // verus!
