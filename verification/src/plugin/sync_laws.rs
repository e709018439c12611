//! What holds of every synchronisation: which plugins it may touch, what it asks for, and what it
//! leaves on record.

use crate::model;
use crate::model::CharSet;
use crate::plugin::lifecycle::{
    may_restart, runnable, skipped, sync_candidates, sync_preview, SyncItemResult, SyncPlanItem,
    SyncReport, SyncRun, takes_part,
};
use crate::plugin::registry::{lemma_position_found, PluginRecord, Registry};
use crate::plugin::spec::{full_spec, git_repo_and_ref, is_pinned_commit, pinned_commit};
use crate::plugin::state::PluginError;
use crate::plugin::sync_plan::{plan_item, sync_question, Question};
use crate::profile::ProfileManifest;
use crate::text_lemmas::{lemma_strip_prefix, lemma_trim_nothing};
use vstd::prelude::*;

verus! {

// ---- Planning ----

/// Nothing is asked about a plugin that is not from upstream, whatever the kind of its source. About
/// one that is, the question names its own package, or its own repository and the reference that it
/// follows; a pinned commit follows the newest one.
pub proof fn law_only_upstream_plugins_are_asked_about(
    record: &PluginRecord,
    r: Question,
    reference: &str,
    is_pinned: bool,
)
    requires
        call_ensures(sync_question, (record,), r),
        call_ensures(is_pinned_commit, (reference,), is_pinned),
    ensures
        !(record.origin is Upstream) || record.source is None ==> r is Nothing,
        r is Nothing || record.origin is Upstream,
        r matches Question::Package(p) ==> p@ == record.package@ && (record.source->0).kind is Npm,
        r matches Question::Commit { repo, reference: asked } ==> {
            let source = record.source->0;
            &&& source.kind is Git
            &&& source.repo is Some && repo@ == (source.repo->0)@
            &&& source.reference is None ==> asked@ == "HEAD"@
            &&& source.reference is Some && (source.reference->0)@ == reference@ && is_pinned
                ==> asked@ == "HEAD"@
            &&& source.reference is Some && (source.reference->0)@ == reference@ && !is_pinned
                ==> asked@ == reference@
        },
        record.origin is Upstream && record.source is Some && (record.source->0).kind is Npm
            ==> r is Package,
        record.origin is Upstream && record.source is Some && (record.source->0).kind is Git && (
        record.source->0).repo is Some ==> r is Commit,
{
}

/// A plugin that is not from upstream is never changed: there is nothing to do for it, no target and
/// no spec, whatever the kind of its source and whatever is newest.
pub proof fn law_only_upstream_plugins_are_changed(
    record: &PluginRecord,
    installed: Option<String>,
    newest: Option<String>,
    r: SyncPlanItem,
)
    requires
        call_ensures(plan_item, (record, installed, newest), r),
    ensures
        !(record.origin is Upstream) || record.source is None ==> !r.actionable && r.target is None
            && r.new_spec is None && r.reason@ == "非上游来源，跳过"@,
        r.actionable || r.target is Some || r.new_spec is Some ==> record.origin is Upstream,
        r.package@ == record.package@ && r.origin == record.origin,
{
}

/// A plugin from upstream is changed exactly where something newer is known: it is other than what is
/// in place, which is the commit on record of a git source and the installed version of any other.
pub proof fn law_changes_lead_to_the_newest(
    record: &PluginRecord,
    installed: Option<String>,
    newest: Option<String>,
    r: SyncPlanItem,
    package: &str,
    version: &str,
    full: String,
)
    requires
        record.origin is Upstream,
        record.source is Some,
        call_ensures(plan_item, (record, installed, newest), r),
        package@ == record.package@,
        newest is Some ==> version@ == (newest->0)@,
        call_ensures(full_spec, (package, version), full),
    ensures
        ({
            let source = record.source->0;
            let current = if source.kind is Git && source.commit is Some {
                source.commit
            } else {
                installed
            };
            &&& r.actionable <==> newest is Some && (current is None || (current->0)@ != (
            newest->0)@)
            &&& r.target == newest
            &&& model::text_of(r.current) == model::text_of(current)
            &&& newest is None ==> r.new_spec is None
            &&& newest is Some && source.kind is Npm ==> r.new_spec is Some && (r.new_spec->0)@
                == full@
            &&& newest is Some && source.kind is Git && source.repo is Some ==> r.new_spec is Some
                && model::starts_with((r.new_spec->0)@, "git+"@ + (source.repo->0)@)
                && model::ends_with((r.new_spec->0)@, "#"@ + (newest->0)@) && (r.new_spec->0)@.len()
                == 5 + (source.repo->0)@.len() + (newest->0)@.len()
        }),
{
    let source = record.source->0;
    if newest is Some && source.kind is Git && source.repo is Some {
        reveal_strlit("git+");
        reveal_strlit("#");
        let s = (r.new_spec->0)@;
        let a = "git+"@ + (source.repo->0)@;
        let b = "#"@ + (newest->0)@;
        assert(s =~= a + b);
        assert(s.subrange(0, a.len() as int) =~= a);
        assert(s.subrange(s.len() - b.len(), s.len() as int) =~= b);
    }
}

/// The spec that is installed for a git source leads to the repository on record at the newest
/// commit.
pub proof fn law_git_specs_lead_to_the_repository(
    record: &PluginRecord,
    installed: Option<String>,
    newest: Option<String>,
    r: SyncPlanItem,
    spec: &str,
    parts: Option<(String, Option<String>)>,
)
    requires
        record.origin is Upstream,
        record.source is Some,
        (record.source->0).kind is Git,
        (record.source->0).repo is Some,
        newest is Some,
        call_ensures(plan_item, (record, installed, newest), r),
        spec@ == (r.new_spec->0)@,
        call_ensures(git_repo_and_ref, (spec,), parts),
        model::starts_with((record.source->0).repo->0@, "https://"@),
        (newest->0)@.len() > 0,
        forall|i: int|
            0 <= i < (newest->0)@.len() ==> (#[trigger] (newest->0)@[i]) != '#' && !model::white(
                (newest->0)@[i],
            ),
    ensures
        parts is Some,
        (parts->0).0@ == ((record.source->0).repo->0)@,
        model::text_of((parts->0).1) == Some((newest->0)@),
{
    let repo = ((record.source->0).repo->0)@;
    let commit = (newest->0)@;
    let n = commit.len() as int;
    reveal_strlit("git+");
    reveal_strlit("#");
    reveal_strlit("https://");
    reveal_strlit("github:");
    reveal_strlit("gitlab:");
    reveal_strlit("bitbucket:");
    reveal_strlit("git@");
    let head = "https://"@;
    let s = spec@;
    let url = repo + "#"@ + commit;
    assert(s =~= "git+"@ + url);
    assert(repo.subrange(0, 8) == head);
    assert(repo[0] == head[0]);
    assert(repo.subrange(0, 8)[0] == repo[0] && repo.subrange(0, 8)[1] == repo[1]);
    assert(s[0] == 'g' && s.last() == commit[n - 1]);
    lemma_trim_nothing(s, CharSet::White);
    let lower = model::lower_ascii(s);
    assert(lower.subrange(0, 4) =~= "git+"@) by {
        assert(s[0] == 'g' && s[1] == 'i' && s[2] == 't' && s[3] == '+');
    }
    assert(model::starts_with(lower, "git+"@));
    lemma_strip_prefix("git+"@, url);
    assert(url[0] == 'h');
    assert(model::strip_prefix(url, "github:"@) is None) by {
        if model::starts_with(url, "github:"@) {
            assert(url.subrange(0, 7)[0] == url[0]);
        }
    }
    assert(model::strip_prefix(url, "gitlab:"@) is None) by {
        if model::starts_with(url, "gitlab:"@) {
            assert(url.subrange(0, 7)[0] == url[0]);
        }
    }
    assert(model::strip_prefix(url, "bitbucket:"@) is None) by {
        if model::starts_with(url, "bitbucket:"@) {
            assert(url.subrange(0, 10)[0] == url[0]);
        }
    }
    assert(model::strip_prefix(url, "git@"@) is None) by {
        if model::starts_with(url, "git@"@) {
            assert(url.subrange(0, 4)[0] == url[0]);
        }
    }
    lemma_last_hash(repo, commit);
    assert(url.take(repo.len() as int) =~= repo);
    assert(url.skip(repo.len() as int + 1) =~= commit);
    assert(!model::white(commit[0]) && !model::white(commit[n - 1]));
    lemma_trim_nothing(commit, CharSet::White);
}

pub proof fn lemma_last_hash(repo: Seq<char>, commit: Seq<char>)
    requires
        forall|i: int| 0 <= i < commit.len() ==> #[trigger] commit[i] != '#',
    ensures
        model::last_in(repo + "#"@ + commit, CharSet::Only('#'), (repo + "#"@ + commit).len() as int)
            == repo.len(),
{
    reveal_strlit("#");
    let url = repo + "#"@ + commit;
    lemma_last_in(url, '#', repo.len() as int, url.len() as int);
}

proof fn lemma_last_in(s: Seq<char>, c: char, at: int, to: int)
    requires
        0 <= at < to <= s.len(),
        s[at] == c,
        forall|i: int| at < i < to ==> #[trigger] s[i] != c,
    ensures
        model::last_in(s, CharSet::Only(c), to) == at,
    decreases to,
{
    if to - 1 > at {
        lemma_last_in(s, c, at, to - 1);
    }
}

// ---- Carrying out ----

/// A record takes part exactly where its package is a dependency and is not left out by name; the
/// parts are taken in the order of their packages, none twice.
pub proof fn law_who_takes_part(
    registry: &Registry,
    manifest: &ProfileManifest,
    only: Option<&str>,
    r: Vec<usize>,
    i: usize,
)
    requires
        manifest.wf(),
        call_ensures(sync_candidates, (registry, manifest, only), r),
        0 <= i < registry.plugins@.len(),
    ensures
        r@.contains(i) <==> manifest.dependencies.lookup(registry.plugins@[i as int].package@) is Some
            && (only is None || registry.plugins@[i as int].package@ == (only->0)@),
        r@.no_duplicates(),
        forall|a: int, b: int|
            0 <= a < b < r@.len() ==> !model::precedes(
                registry.plugins@[#[trigger] r@[b] as int].package@,
                registry.plugins@[#[trigger] r@[a] as int].package@,
            ),
{
    if r@.contains(i) {
        let k = choose|k: int| 0 <= k < r@.len() && r@[k] == i;
        assert(r@[k] == i);
    }
    let record = registry.plugins@[i as int];
    if takes_part(record, *manifest, model::slice_of(only)) {
        let k = choose|k: int| 0 <= k < r@.len() && #[trigger] r@[k] == i as int;
        assert(r@[k] == i);
    }
    assert forall|a: int, b: int| 0 <= a < b < r@.len() implies !model::precedes(
        registry.plugins@[#[trigger] r@[b] as int].package@,
        registry.plugins@[#[trigger] r@[a] as int].package@,
    ) && r@[a] != r@[b] by {
        crate::text_map::lemma_precedes_total(
            registry.plugins@[r@[a] as int].package@,
            registry.plugins@[r@[b] as int].package@,
        );
    }
}

/// A check changes nothing, and a plan without anything to do is not carried out: the report then
/// says of each item whether something would be done.
pub proof fn law_checks_change_nothing(
    items: &Vec<SyncPlanItem>,
    apply: bool,
    r: Option<SyncReport>,
    i: int,
)
    requires
        call_ensures(sync_preview, (items, apply), r),
        0 <= i < items@.len(),
    ensures
        !apply ==> r is Some,
        apply && items@[i].actionable ==> r is None,
        r is None ==> exists|k: int| 0 <= k < items@.len() && (#[trigger] items@[k]).actionable,
        r is Some ==> {
            &&& !(r->0).applied && !(r->0).restarted
            &&& (r->0).items@.len() == items@.len()
            &&& (r->0).items@[i].package@ == items@[i].package@
            &&& items@[i].actionable ==> (r->0).items@[i].result@ == "pending"@
            &&& !items@[i].actionable ==> (r->0).items@[i].result@ == "skipped"@
            &&& (r->0).items@[i].from == items@[i].current && (r->0).items@[i].to == items@[i].target
        },
{
}

/// The package manager runs only for items that have something to do, with the spec of that very
/// item, and for each of them; the others are reported as skipped.
pub proof fn law_only_planned_changes_are_made(run: &mut SyncRun, r: Option<String>, i: int)
    requires
        old(run).wf(),
        call_ensures(SyncRun::advance, (run,), r),
        old(run).next <= i < old(run).items@.len(),
    ensures
        r is Some ==> {
            let item = old(run).items@[final(run).next as int];
            &&& final(run).next < old(run).items@.len()
            &&& item.actionable
            &&& item.new_spec == r
        },
        i < final(run).next ==> {
            let item = old(run).items@[i];
            &&& !(item.actionable && item.new_spec is Some)
            &&& final(run).results@[i].result@ == "skipped"@
            &&& final(run).results@[i].package@ == item.package@
        },
        r is None ==> i < final(run).next,
        final(run).items == old(run).items,
        old(run).next <= final(run).next,
{
    if i < final(run).next {
        assert(skipped(final(run).results@[i], old(run).items@[i]));
    }
}

/// A change counts as made only where the package manager succeeded and what is then in place is what
/// was aimed at. Only then the record has the new spec; a failure leaves its source as it was and is
/// noted in it. Other records are left alone.
pub proof fn law_changes_are_checked(
    run: &mut SyncRun,
    outcome: Result<(), PluginError>,
    version: Option<String>,
    at: &str,
    registry: &mut Registry,
    spec: &str,
    pinned: Option<String>,
    i: int,
)
    requires
        old(run).wf(),
        old(run).next < old(run).items@.len(),
        runnable(old(run).items@[old(run).next as int]),
        call_ensures(SyncRun::settle, (run, outcome, version, at, registry), ()),
        spec@ == (old(run).items@[old(run).next as int].new_spec->0)@,
        call_ensures(pinned_commit, (spec,), pinned),
        0 <= i < old(registry).plugins@.len(),
    ensures
        ({
            let item = old(run).items@[old(run).next as int];
            let told = final(run).results@.last();
            let was = old(registry).plugins@[i];
            let now = final(registry).plugins@[i];
            let found = if item.kind is Npm {
                model::text_of(version)
            } else {
                model::text_of(pinned)
            };
            let fits = outcome is Ok && found == model::text_of(item.target);
            let first = was.package@ == item.package@ && forall|j: int|
                0 <= j < i ==> (#[trigger] old(registry).plugins@[j]).package@ != item.package@;
            &&& told.package@ == item.package@
            &&& told.from == item.current && told.to == item.target
            &&& fits ==> told.result@ == "ok"@
            &&& !fits ==> told.result@ == "failed"@
            &&& final(registry).plugins@.len() == old(registry).plugins@.len()
            &&& was.package@ != item.package@ ==> now == was
            &&& now.package == was.package && now.origin == was.origin && now.desired == was.desired
                && now.rows == was.rows && now.shadow_restored == was.shadow_restored
            &&& first && !fits ==> now.source == was.source && now.last_error is Some
                && now.last_sync == was.last_sync
            &&& first && fits ==> now.last_error is None && now.last_sync is Some && (
            was.source is Some ==> now.source is Some && Some((now.source->0).spec)
                == item.new_spec && (now.source->0).repo == (was.source->0).repo && (item.kind is Git
                ==> (now.source->0).commit == item.target))
        }),
        final(run).next == old(run).next + 1,
{
    let item = old(run).items@[old(run).next as int];
    lemma_position_found(old(registry).plugins@, item.package@);
    reveal_strlit("ok");
    reveal_strlit("failed");
    reveal_strlit("git+");
}

/// The service is started again after a synchronisation only where it ran before and nothing failed,
/// and the report says whether it came up.
pub proof fn law_no_start_after_a_failure(
    results: &Vec<SyncItemResult>,
    was_running: bool,
    may: bool,
    run: SyncRun,
    started: bool,
    told: SyncReport,
)
    requires
        call_ensures(may_restart, (results, was_running), may),
        call_ensures(SyncRun::report, (run, was_running, started), told),
    ensures
        may ==> was_running && forall|i: int|
            0 <= i < results@.len() ==> (#[trigger] results@[i]).result@ != "failed"@,
        was_running && (forall|i: int|
            0 <= i < results@.len() ==> (#[trigger] results@[i]).result@ != "failed"@) ==> may,
        told.applied && told.items == run.results,
        told.restarted ==> was_running && started && forall|i: int|
            0 <= i < run.results@.len() ==> (#[trigger] run.results@[i]).result@ != "failed"@,
{
}

} // verus!
