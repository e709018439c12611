//! Uninstalling, repairing and synchronising plugins, and finding the plugin that a failed start
//! points to.

use crate::model;
use crate::plugin::managed;
use crate::plugin::managed::{
    block_edited, edit_of, entry_texts, upserted, BlockEdit, ManagedEntry,
};
use crate::plugin::registry::{position, PluginRecord, PluginSource, Registry, SyncRecord};
use crate::plugin::service::{
    copy_text, is_protected, protected_package, record_of, OpResult, OpStatus,
};
use crate::plugin::spec;
use crate::plugin::spec::{Origin, SpecKind};
use crate::plugin::state::{illegal_error, verification_error, PluginError};
use crate::profile::ProfileManifest;
use crate::text;
use crate::text_map;
use vstd::prelude::*;

verus! {

// ---- Uninstalling ----

/// What to do about a request to uninstall.
pub enum UninstallStart {
    /// The package is part of the profile's template.
    Refuse(PluginError),
    /// The package is not installed; only what is left of it is cleared away.
    Clear { rows: Vec<String>, result: OpResult },
    /// The package manager has to remove it; its rows leave the managed block.
    Remove { rows: Vec<String> },
}

/// The rows that the registry remembers of a package.
pub open spec fn recorded_rows(registry: Registry, package: Seq<char>) -> Seq<Seq<char>> {
    match record_of(registry, package) {
        Some(r) => model::texts(r.rows@),
        None => seq![],
    }
}

fn rows_on_record(registry: &Registry, package: &str) -> (r: Vec<String>)
    ensures
        model::texts(r@) == recorded_rows(*registry, package@),
{
    match registry.find(package) {
        Some(record) => text_map::copy_texts(&record.rows),
        None => {
            let none: Vec<String> = Vec::new();
            proof {
                assert(model::texts(none@) =~= seq![]);
            }
            none
        },
    }
}

/// Decides about a request to uninstall a package. `manifest` is `None` where the profile does not
/// exist yet; `dumped` are the package's rows in the composed configuration.
pub fn begin_uninstall(
    profile: &str,
    package: &str,
    manifest: Option<&ProfileManifest>,
    dumped: Vec<String>,
    registry: &Registry,
) -> (r: UninstallStart)
    requires
        manifest is Some ==> (manifest->0).wf(),
    ensures
        if protected_package(package@) {
            r is Refuse && r->Refuse_0@ == illegal_error(
                package@ + " 是 profile 模板层，禁止卸载"@,
            )
        } else if manifest is None {
            &&& r is Clear
            &&& r->Clear_rows@.len() == 0
            &&& r->result.status == OpStatus::Unchanged
            &&& !r->result.restarted
            &&& r->result.message@ == "profile "@ + profile@ + " 未初始化，"@ + package@
                + " 视为未安装"@
            &&& r->result.package is Some && (r->result.package->0)@ == package@
        } else if (manifest->0).dependencies.lookup(package@) is None {
            &&& r is Clear
            &&& model::texts(r->Clear_rows@) == recorded_rows(*registry, package@)
            &&& r->result.status == OpStatus::Unchanged
            &&& !r->result.restarted
            &&& r->result.message@ == package@ + " 已处于未安装状态"@
            &&& r->result.package is Some && (r->result.package->0)@ == package@
        } else {
            &&& r is Remove
            &&& model::texts(r->Remove_rows@) == if dumped@.len() > 0 {
                model::texts(dumped@)
            } else {
                recorded_rows(*registry, package@)
            }
        },
{
    if is_protected(package) {
        return UninstallStart::Refuse(
            PluginError::illegal(text::cat2(package, " 是 profile 模板层，禁止卸载")),
        );
    }
    match manifest {
        None => UninstallStart::Clear {
            rows: Vec::new(),
            result: OpResult::unchanged(
                text::cat5("profile ", profile, " 未初始化，", package, " 视为未安装"),
                Some(package.to_owned()),
            ),
        },
        Some(m) => if !m.dependencies.contains_key(package) {
            UninstallStart::Clear {
                rows: rows_on_record(registry, package),
                result: OpResult::unchanged(
                    text::cat2(package, " 已处于未安装状态"),
                    Some(package.to_owned()),
                ),
            }
        } else if dumped.len() > 0 {
            UninstallStart::Remove { rows: dumped }
        } else {
            UninstallStart::Remove { rows: rows_on_record(registry, package) }
        },
    }
}

/// What the patch file, which holds `content`, becomes once the given rows leave the managed block,
/// which holds `existing`; `None` where there is nothing to take out.
pub fn prune_rows(
    path: &str,
    content: Option<&str>,
    existing: Option<Vec<ManagedEntry>>,
    rows: &Vec<String>,
) -> (r: Option<Result<BlockEdit, String>>)
    ensures
        rows@.len() == 0 <==> r is None,
        r is Some ==> edit_of(r->0) == block_edited(
            path@,
            model::slice_of(content),
            upserted(
                match existing {
                    Some(v) => entry_texts(v@),
                    None => seq![],
                },
                seq![],
                model::texts(rows@),
            ),
        ),
{
    if rows.len() == 0 {
        return None;
    }
    let none: Vec<ManagedEntry> = Vec::new();
    proof {
        assert(entry_texts(none@) =~= seq![]);
    }
    let left = managed::upsert(existing, none.as_slice(), rows.as_slice());
    Some(managed::apply_block(path, content, left.as_slice()))
}

/// Whether a removal has to be taken back, and what is told then. `removed` is what the package
/// manager came to, `after` the manifest that was read once it had succeeded.
pub fn check_removal(
    package: &str,
    removed: Result<(), PluginError>,
    after: Option<&ProfileManifest>,
) -> (r: Result<(), PluginError>)
    requires
        removed is Ok ==> after is Some && (after->0).wf(),
    ensures
        match removed {
            Err(e) => r is Err && r->Err_0@ == verification_error(
                "插件卸载失败（已回滚）: "@ + e.message@,
            ),
            Ok(_) => if (after->0).dependencies.lookup(package@) is Some || (after->0).bundles_have(
                package@,
            ) {
                r is Err && r->Err_0@ == verification_error(
                    package@ + " 仍留在 profile 依赖或 bundles 中（已回滚）"@,
                )
            } else {
                r is Ok
            },
        },
{
    match removed {
        Err(e) => Err(
            PluginError::verification(
                text::cat2("插件卸载失败（已回滚）: ", e.message.as_str()),
            ),
        ),
        Ok(_) => match after {
            Some(m) => if m.dependencies.contains_key(package) || m.in_bundles(package) {
                Err(
                    PluginError::verification(
                        text::cat2(package, " 仍留在 profile 依赖或 bundles 中（已回滚）"),
                    ),
                )
            } else {
                Ok(())
            },
            None => Ok(()),
        },
    }
}

/// What the user is told of a removal that holds.
pub fn uninstall_result(package: &str, restarted: bool) -> (r: OpResult)
    ensures
        r.status == OpStatus::Changed,
        r.restarted == restarted,
        r.message@ == "已卸载 "@ + package@ + (if restarted {
            "；dsh 已重启"@
        } else {
            seq![]
        }),
        r.package is Some && (r.package->0)@ == package@,
{
    let mut message = text::cat2("已卸载 ", package);
    if restarted {
        message.append("；dsh 已重启");
    } else {
        proof {
            assert(message@ + Seq::<char>::empty() =~= message@);
        }
    }
    OpResult::changed(message, restarted, Some(package.to_owned()))
}

// ---- Repairing ----

/// The records whose desired state is to be applied again: all that have one, or only that of one
/// package.
pub open spec fn to_replay(plugins: Seq<PluginRecord>, only: Option<Seq<char>>) -> Seq<
    (Seq<char>, bool),
>
    decreases plugins.len(),
{
    if plugins.len() == 0 {
        seq![]
    } else {
        let rest = to_replay(plugins.drop_last(), only);
        let record = plugins.last();
        if record.desired is Some && (only is None || record.package@ == only->0) {
            rest.push((record.package@, (record.desired->0)@ == "enabled"@))
        } else {
            rest
        }
    }
}

pub open spec fn replay_texts(v: Seq<(String, bool)>) -> Seq<(Seq<char>, bool)> {
    v.map_values(|p: (String, bool)| (p.0@, p.1))
}

/// The packages to switch again, with the state each is to have.
pub fn repair_targets(registry: &Registry, only: Option<&str>) -> (r: Vec<(String, bool)>)
    ensures
        replay_texts(r@) == to_replay(registry.plugins@, model::slice_of(only)),
{
    let mut out: Vec<(String, bool)> = Vec::new();
    let ghost all = registry.plugins@;
    let mut i: usize = 0;
    proof {
        assert(all.take(0) =~= seq![]);
        assert(replay_texts(out@) =~= seq![]);
    }
    while i < registry.plugins.len()
        invariant
            all == registry.plugins@,
            i <= registry.plugins.len(),
            replay_texts(out@) == to_replay(all.take(i as int), model::slice_of(only)),
        decreases registry.plugins.len() - i,
    {
        let record = &registry.plugins[i];
        let ghost before = replay_texts(out@);
        proof {
            assert(all.take(i as int + 1).drop_last() =~= all.take(i as int));
            assert(all.take(i as int + 1).last() == all[i as int]);
        }
        let chosen = match only {
            Some(name) => text::same(record.package.as_str(), name),
            None => true,
        };
        if chosen {
            if let Some(desired) = &record.desired {
                let on = text::same(desired.as_str(), "enabled");
                out.push((record.package.clone(), on));
                proof {
                    assert(replay_texts(out@) =~= before.push((record.package@, on)));
                }
            }
        }
        i += 1;
    }
    proof {
        assert(all.take(all.len() as int) =~= all);
    }
    out
}

/// What the user is told of a repair.
pub fn repair_result(changed: usize, restarted: bool) -> (r: OpResult)
    ensures
        r.message@ == "收敛完成（重放 "@ + model::decimal(changed as nat) + " 个插件的期望态）"@,
        r.package is None,
        r.restarted == restarted,
        r.status == if changed == 0 && !restarted {
            OpStatus::Unchanged
        } else {
            OpStatus::Changed
        },
{
    let message = text::cat3(
        "收敛完成（重放 ",
        text::decimal(changed as u64).as_str(),
        " 个插件的期望态）",
    );
    if changed == 0 && !restarted {
        OpResult::unchanged(message, None)
    } else {
        OpResult::changed(message, restarted, None)
    }
}

// ---- A start that failed ----

/// What a failed start points to.
pub enum BootVerdict {
    /// The service printed nothing.
    Silent,
    /// A configuration file could not be parsed; no plugin is to blame.
    BadConfig,
    /// No plugin is named in what the service printed.
    Unattributed,
    /// The plugin to switch off.
    Blame(String),
}

/// How many characters of the service's output count.
pub const BLAME_TAIL: usize = 32768;

/// A name that is long enough to be told apart and occurs in the output.
pub open spec fn named_in(tail: Seq<char>, name: Seq<char>) -> bool {
    model::byte_len(name) >= 4 && model::contains(tail, name)
}

/// The output names the package or one of its rows.
pub open spec fn implicated(tail: Seq<char>, record: PluginRecord) -> bool {
    named_in(tail, record.package@) || exists|i: int|
        0 <= i < record.rows@.len() && named_in(tail, #[trigger] record.rows@[i]@)
}

/// The first package that is not protected and that the output implicates.
pub open spec fn first_implicated(tail: Seq<char>, plugins: Seq<PluginRecord>) -> Option<Seq<char>>
    decreases plugins.len(),
{
    if plugins.len() == 0 {
        None
    } else if !plugins[0].protected && implicated(tail, plugins[0]) {
        Some(plugins[0].package@)
    } else {
        first_implicated(tail, plugins.skip(1))
    }
}

fn is_implicated(tail: &str, record: &PluginRecord) -> (b: bool)
    ensures
        b == implicated(tail@, *record),
{
    if text::byte_len(record.package.as_str()) >= 4 && text::contains(
        tail,
        record.package.as_str(),
    ) {
        return true;
    }
    let mut i: usize = 0;
    while i < record.rows.len()
        invariant
            i <= record.rows.len(),
            forall|j: int| 0 <= j < i ==> !named_in(tail@, #[trigger] record.rows@[j]@),
        decreases record.rows.len() - i,
    {
        let name = record.rows[i].as_str();
        if text::byte_len(name) >= 4 && text::contains(tail, name) {
            proof {
                assert(named_in(tail@, record.rows@[i as int]@));
            }
            return true;
        }
        i += 1;
    }
    false
}

/// Finds out from the end of what the service printed why a start failed.
pub fn attribute_boot_failure(stderr: &str, registry: &Registry) -> (r: BootVerdict)
    ensures
        ({
            let tail = model::last_of(stderr@, BLAME_TAIL as int);
            if model::blank(tail) {
                r is Silent
            } else if model::contains(tail, "failed to parse"@) {
                r is BadConfig
            } else {
                match first_implicated(tail, registry.plugins@) {
                    Some(p) => r is Blame && r->Blame_0@ == p,
                    None => r is Unattributed,
                }
            }
        }),
{
    let v = text::chars_of(stderr);
    let start: usize = if v.len() > BLAME_TAIL {
        v.len() - BLAME_TAIL
    } else {
        0
    };
    let tail = text::string_of(&v, start, v.len());
    proof {
        assert(tail@ =~= model::last_of(stderr@, BLAME_TAIL as int));
    }
    if text::blank(tail.as_str()) {
        return BootVerdict::Silent;
    }
    if text::contains(tail.as_str(), "failed to parse") {
        return BootVerdict::BadConfig;
    }
    let ghost all = registry.plugins@;
    let mut i: usize = 0;
    proof {
        assert(all.skip(0) =~= all);
    }
    while i < registry.plugins.len()
        invariant
            all == registry.plugins@,
            tail@ == model::last_of(stderr@, BLAME_TAIL as int),
            !model::blank(tail@),
            !model::contains(tail@, "failed to parse"@),
            i <= registry.plugins.len(),
            first_implicated(tail@, all) == first_implicated(tail@, all.skip(i as int)),
        decreases registry.plugins.len() - i,
    {
        let record = &registry.plugins[i];
        proof {
            assert(all.skip(i as int)[0] == all[i as int]);
            assert(all.skip(i as int).skip(1) =~= all.skip(i as int + 1));
        }
        if !record.protected && is_implicated(tail.as_str(), record) {
            return BootVerdict::Blame(record.package.clone());
        }
        i += 1;
    }
    BootVerdict::Unattributed
}

/// Marks a package as quarantined.
pub fn quarantine(registry: &mut Registry, package: &str)
    ensures
        final(registry).schema_version == old(registry).schema_version,
        final(registry).profile == old(registry).profile,
        final(registry).plugins@ == match position(old(registry).plugins@, package@) {
            Some(i) => old(registry).plugins@.update(
                i,
                (PluginRecord { quarantine: true, ..old(registry).plugins@[i] }),
            ),
            None => old(registry).plugins@,
        },
{
    let ghost all = registry.plugins@;
    let mut i: usize = 0;
    while i < registry.plugins.len()
        invariant
            all == registry.plugins@,
            all == old(registry).plugins@,
            registry.schema_version == old(registry).schema_version,
            registry.profile == old(registry).profile,
            i <= registry.plugins.len(),
            forall|j: int| 0 <= j < i ==> #[trigger] all[j].package@ != package@,
        decreases registry.plugins.len() - i,
    {
        if text::same(registry.plugins[i].package.as_str(), package) {
            proof {
                crate::plugin::registry::lemma_position(all, package@, i as int);
            }
            let mut record = registry.plugins.remove(i);
            record.quarantine = true;
            registry.plugins.insert(i, record);
            proof {
                let new = PluginRecord { quarantine: true, ..all[i as int] };
                assert(registry.plugins@ =~= all.update(i as int, new));
            }
            return;
        }
        i += 1;
    }
    proof {
        crate::plugin::registry::lemma_position(all, package@, i as int);
    }
}

/// A plugin that is protected is never blamed for a failed start.
pub proof fn law_protected_plugins_are_not_blamed(tail: Seq<char>, plugins: Seq<PluginRecord>)
    ensures
        match first_implicated(tail, plugins) {
            Some(p) => exists|i: int|
                0 <= i < plugins.len() && !(#[trigger] plugins[i]).protected && plugins[i].package@
                    == p && implicated(tail, plugins[i]),
            None => forall|i: int|
                0 <= i < plugins.len() ==> (#[trigger] plugins[i]).protected || !implicated(
                    tail,
                    plugins[i],
                ),
        },
    decreases plugins.len(),
{
    if plugins.len() > 0 {
        let rest = plugins.skip(1);
        law_protected_plugins_are_not_blamed(tail, rest);
        if plugins[0].protected || !implicated(tail, plugins[0]) {
            match first_implicated(tail, rest) {
                Some(p) => {
                    let i = choose|i: int|
                        0 <= i < rest.len() && !(#[trigger] rest[i]).protected && rest[i].package@
                            == p && implicated(tail, rest[i]);
                    assert(plugins[i + 1] == rest[i]);
                },
                None => {
                    assert forall|i: int| 0 <= i < plugins.len() implies (
                    #[trigger] plugins[i]).protected || !implicated(tail, plugins[i]) by {
                        if i > 0 {
                            assert(plugins[i] == rest[i - 1]);
                        }
                    }
                },
            }
        } else {
            assert(!plugins[0].protected && plugins[0].package@ == plugins[0].package@);
        }
    }
}

// ---- Synchronising ----

/// What is planned for one plugin.
pub struct SyncPlanItem {
    pub package: String,
    pub origin: Origin,
    pub kind: SpecKind,
    pub current: Option<String>,
    pub target: Option<String>,
    pub new_spec: Option<String>,
    pub actionable: bool,
    pub reason: String,
}

/// What came of one plugin.
pub struct SyncItemResult {
    pub package: String,
    pub origin: Origin,
    pub from: Option<String>,
    pub to: Option<String>,
    pub result: String,
    pub message: String,
}

pub struct SyncReport {
    pub applied: bool,
    pub restarted: bool,
    pub items: Vec<SyncItemResult>,
}

/// The result is about the planned item and says so and so.
pub open spec fn reports(r: SyncItemResult, item: SyncPlanItem, result: Seq<char>, message: Seq<char>) -> bool {
    &&& r.package == item.package
    &&& r.origin == item.origin
    &&& r.from == item.current
    &&& r.to == item.target
    &&& r.result@ == result
    &&& r.message@ == message
}

fn report(item: &SyncPlanItem, result: &str, message: &str) -> (r: SyncItemResult)
    ensures
        reports(r, *item, result@, message@),
{
    SyncItemResult {
        package: item.package.clone(),
        origin: item.origin,
        from: copy_text(&item.current),
        to: copy_text(&item.target),
        result: result.to_owned(),
        message: message.to_owned(),
    }
}

/// Something is to be done for some item.
pub open spec fn any_actionable(items: Seq<SyncPlanItem>) -> bool {
    exists|i: int| 0 <= i < items.len() && (#[trigger] items[i]).actionable
}

/// The report where nothing is carried out: because it is only a check, or because there is nothing
/// to do. `None` where the plan is to be carried out.
pub fn sync_preview(items: &Vec<SyncPlanItem>, apply: bool) -> (r: Option<SyncReport>)
    ensures
        r is None <==> apply && any_actionable(items@),
        r is Some ==> {
            &&& !(r->0).applied
            &&& !(r->0).restarted
            &&& (r->0).items@.len() == items@.len()
            &&& forall|i: int|
                0 <= i < items@.len() ==> reports(
                    #[trigger] (r->0).items@[i],
                    items@[i],
                    if items@[i].actionable {
                        "pending"@
                    } else {
                        "skipped"@
                    },
                    items@[i].reason@,
                )
        },
{
    let mut found = false;
    let mut out: Vec<SyncItemResult> = Vec::new();
    let mut i: usize = 0;
    while i < items.len()
        invariant
            i <= items.len(),
            found == exists|j: int| 0 <= j < i && (#[trigger] items@[j]).actionable,
            out@.len() == i,
            forall|j: int|
                0 <= j < i ==> reports(
                    #[trigger] out@[j],
                    items@[j],
                    if items@[j].actionable {
                        "pending"@
                    } else {
                        "skipped"@
                    },
                    items@[j].reason@,
                ),
        decreases items.len() - i,
    {
        let item = &items[i];
        if item.actionable {
            found = true;
        }
        let word = if item.actionable {
            "pending"
        } else {
            "skipped"
        };
        out.push(report(item, word, item.reason.as_str()));
        i += 1;
    }
    if apply && found {
        None
    } else {
        Some(SyncReport { applied: false, restarted: false, items: out })
    }
}

/// The carrying out of a plan.
pub struct SyncRun {
    pub items: Vec<SyncPlanItem>,
    /// The item that comes next.
    pub next: usize,
    pub results: Vec<SyncItemResult>,
}

/// The package manager has to run for the item.
pub open spec fn runnable(item: SyncPlanItem) -> bool {
    item.actionable && item.new_spec is Some
}

/// What is reported of an item for which the package manager does not run.
pub open spec fn skip_reason(item: SyncPlanItem) -> Seq<char> {
    if item.actionable {
        "无可写入的目标 spec"@
    } else {
        item.reason@
    }
}

/// The item was passed over, and the result says so.
pub open spec fn skipped(r: SyncItemResult, item: SyncPlanItem) -> bool {
    !runnable(item) && reports(r, item, "skipped"@, skip_reason(item))
}

/// How std writes an optional text with the format `{:?}`.
pub open spec fn debug_option(o: Option<String>) -> Seq<char> {
    match o {
        Some(s) => "Some("@ + text::debug_form(s@) + ")"@,
        None => "None"@,
    }
}

fn debug_option_text(o: &Option<String>) -> (r: String)
    ensures
        r@ == debug_option(*o),
{
    match o {
        Some(s) => text::cat3("Some(", text::debug_text(s.as_str()).as_str(), ")"),
        None => "None".to_owned(),
    }
}

/// What is found in place after an item was carried out: the installed version of a registry
/// package, the pinned commit of any other.
pub open spec fn found_version(item: SyncPlanItem, version: Option<String>) -> Option<Seq<char>> {
    if item.kind == SpecKind::Npm {
        model::text_of(version)
    } else {
        spec::pinned((item.new_spec->0)@)
    }
}

impl SyncRun {
    pub open spec fn wf(&self) -> bool {
        self.next <= self.items@.len() && self.results@.len() == self.next
    }

    pub fn new(items: Vec<SyncPlanItem>) -> (r: Self)
        ensures
            r.wf(),
            r.items == items,
            r.next == 0,
    {
        SyncRun { items, next: 0, results: Vec::new() }
    }

    /// Goes on to the next item for which the package manager has to run and hands out its spec;
    /// the items before it are reported as skipped.
    pub fn advance(&mut self) -> (r: Option<String>)
        requires
            old(self).wf(),
        ensures
            final(self).wf(),
            final(self).items == old(self).items,
            old(self).next <= final(self).next,
            final(self).results@.take(old(self).next as int) == old(self).results@,
            forall|i: int|
                old(self).next <= i < final(self).next ==> #[trigger] skipped(
                    final(self).results@[i],
                    old(self).items@[i],
                ),
            match r {
                Some(s) => final(self).next < old(self).items@.len() && runnable(
                    old(self).items@[final(self).next as int],
                ) && Some(s) == old(self).items@[final(self).next as int].new_spec,
                None => final(self).next == old(self).items@.len(),
            },
    {
        let ghost first = self.next;
        let ghost done = self.results@;
        while self.next < self.items.len()
            invariant
                self.wf(),
                self.items == old(self).items,
                first == old(self).next,
                done == old(self).results@,
                first <= self.next,
                done.len() == first,
                self.results@.take(first as int) == done,
                forall|i: int|
                    first <= i < self.next ==> #[trigger] skipped(
                        self.results@[i],
                        self.items@[i],
                    ),
            decreases self.items.len() - self.next,
        {
            let item = &self.items[self.next];
            if item.actionable {
                if let Some(s) = &item.new_spec {
                    return Some(s.clone());
                }
            }
            let entry = if item.actionable {
                report(item, "skipped", "无可写入的目标 spec")
            } else {
                report(item, "skipped", item.reason.as_str())
            };
            let ghost before = self.results@;
            self.results.push(entry);
            self.next += 1;
            proof {
                assert(self.results@.take(first as int) =~= before.take(first as int));
                assert forall|i: int| first <= i < self.next implies #[trigger] skipped(
                    self.results@[i],
                    self.items@[i],
                ) by {
                    if i < self.next - 1 {
                        assert(self.results@[i] == before[i]);
                        assert(skipped(before[i], self.items@[i]));
                    } else {
                        assert(self.results@[i] == entry);
                    }
                }
            }
        }
        None
    }

    /// Takes in what came of the current item and records it. `version` is the version of the
    /// package that is then installed; `at` is the time.
    pub fn settle(
        &mut self,
        outcome: Result<(), PluginError>,
        version: Option<String>,
        at: &str,
        registry: &mut Registry,
    )
        requires
            old(self).wf(),
            old(self).next < old(self).items@.len(),
            runnable(old(self).items@[old(self).next as int]),
        ensures
            final(self).wf(),
            final(self).items == old(self).items,
            final(self).next == old(self).next + 1,
            final(self).results@.drop_last() == old(self).results@,
            final(registry).schema_version == old(registry).schema_version,
            final(registry).profile == old(registry).profile,
            ({
                let item = old(self).items@[old(self).next as int];
                let told = final(self).results@.last();
                let found = found_version(item, version);
                let at_index = position(old(registry).plugins@, item.package@);
                let was = old(registry).plugins@;
                let now = final(registry).plugins@;
                match outcome {
                    Err(e) => {
                        &&& reports(told, item, "failed"@, "安装失败: "@ + e.message@)
                        &&& match at_index {
                            Some(i) => now == was.update(
                                i,
                                (PluginRecord { last_error: now[i].last_error, ..was[i] }),
                            ) && now[i].last_error is Some && (now[i].last_error->0)@ == e.message@,
                            None => now == was,
                        }
                    },
                    Ok(_) => if found != model::text_of(item.target) {
                        &&& told.message@ == "校验失败：期望 "@ + debug_option(item.target) + "，实际 "@
                            + (match found {
                            Some(v) => "Some("@ + text::debug_form(v) + ")"@,
                            None => "None"@,
                        })
                        &&& reports(told, item, "failed"@, told.message@)
                        &&& match at_index {
                            Some(i) => now == was.update(
                                i,
                                (PluginRecord { last_error: now[i].last_error, ..was[i] }),
                            ) && now[i].last_error is Some && (now[i].last_error->0)@
                                == told.message@,
                            None => now == was,
                        }
                    } else {
                        &&& reports(told, item, "ok"@, item.reason@)
                        &&& match at_index {
                            Some(i) => synced(was[i], now[i], item, at@) && now == was.update(
                                i,
                                now[i],
                            ),
                            None => now == was,
                        }
                    },
                }
            }),
    {
        let ghost before = self.results@;
        let index = self.next;
        let count = self.items.len();
        let item = &self.items[index];
        match outcome {
            Err(e) => {
                let message = text::cat2("安装失败: ", e.message.as_str());
                let entry = report(item, "failed", message.as_str());
                registry.set_error(item.package.as_str(), Some(e.message));
                self.results.push(entry);
            },
            Ok(_) => {
                let found = if item.kind == SpecKind::Npm {
                    version
                } else {
                    match &item.new_spec {
                        Some(s) => spec::pinned_commit(s.as_str()),
                        None => None,
                    }
                };
                if !same_option(&found, &item.target) {
                    let message = text::cat4(
                        "校验失败：期望 ",
                        debug_option_text(&item.target).as_str(),
                        "，实际 ",
                        debug_option_text(&found).as_str(),
                    );
                    let entry = report(item, "failed", message.as_str());
                    registry.set_error(item.package.as_str(), Some(message));
                    self.results.push(entry);
                } else {
                    record_sync(registry, item, at);
                    let entry = report(item, "ok", item.reason.as_str());
                    self.results.push(entry);
                }
            },
        }
        self.next = index + 1;
        proof {
            assert(self.results@.drop_last() =~= before);
            crate::plugin::registry::lemma_position_found(
                old(registry).plugins@,
                item.package@,
            );
        }
    }
}

fn same_option(a: &Option<String>, b: &Option<String>) -> (r: bool)
    ensures
        r == (model::text_of(*a) == model::text_of(*b)),
{
    match (a, b) {
        (Some(x), Some(y)) => text::same(x.as_str(), y.as_str()),
        (None, None) => true,
        _ => false,
    }
}

/// The record after an item was carried out: its source has the new spec, and for a git source the
/// new commit; the synchronisation is noted and there is no error.
pub open spec fn synced(was: PluginRecord, now: PluginRecord, item: SyncPlanItem, at: Seq<char>) -> bool {
    &&& now == (PluginRecord {
        source: now.source,
        last_sync: now.last_sync,
        last_error: None,
        ..was
    })
    &&& match was.source {
        None => now.source is None,
        Some(s) => now.source is Some && Some(now.source->0.spec) == item.new_spec && now.source->0
            == (PluginSource {
            spec: now.source->0.spec,
            commit: if item.kind == SpecKind::Git {
                item.target
            } else {
                s.commit
            },
            ..s
        }),
    }
    &&& now.last_sync is Some
    &&& now.last_sync->0.at@ == at
    &&& now.last_sync->0.from@ == (match item.current {
        Some(v) => v@,
        None => seq![],
    })
    &&& now.last_sync->0.to@ == (match item.target {
        Some(v) => v@,
        None => seq![],
    })
    &&& now.last_sync->0.result@ == "ok"@
}

fn or_empty(o: &Option<String>) -> (r: String)
    ensures
        r@ == (match *o {
            Some(v) => v@,
            None => seq![],
        }),
{
    match o {
        Some(s) => s.clone(),
        None => {
            let r = String::new();
            proof {
                assert(r@ =~= seq![]);
            }
            r
        },
    }
}

fn record_sync(registry: &mut Registry, item: &SyncPlanItem, at: &str)
    requires
        item.new_spec is Some,
    ensures
        final(registry).schema_version == old(registry).schema_version,
        final(registry).profile == old(registry).profile,
        match position(old(registry).plugins@, item.package@) {
            Some(i) => synced(old(registry).plugins@[i], final(registry).plugins@[i], *item, at@)
                && final(registry).plugins@ == old(registry).plugins@.update(
                i,
                final(registry).plugins@[i],
            ),
            None => final(registry).plugins@ == old(registry).plugins@,
        },
{
    let ghost all = registry.plugins@;
    let mut i: usize = 0;
    while i < registry.plugins.len()
        invariant
            item.new_spec is Some,
            all == registry.plugins@,
            all == old(registry).plugins@,
            registry.schema_version == old(registry).schema_version,
            registry.profile == old(registry).profile,
            i <= registry.plugins.len(),
            forall|j: int| 0 <= j < i ==> #[trigger] all[j].package@ != item.package@,
        decreases registry.plugins.len() - i,
    {
        if text::same(registry.plugins[i].package.as_str(), item.package.as_str()) {
            proof {
                crate::plugin::registry::lemma_position(all, item.package@, i as int);
            }
            let mut record = registry.plugins.remove(i);
            let mut source: Option<PluginSource> = None;
            std::mem::swap(&mut source, &mut record.source);
            record.source = match source {
                Some(s) => {
                    let spec = match &item.new_spec {
                        Some(t) => t.clone(),
                        None => s.spec,
                    };
                    let commit = if item.kind == SpecKind::Git {
                        copy_text(&item.target)
                    } else {
                        s.commit
                    };
                    Some(
                        PluginSource {
                            kind: s.kind,
                            spec,
                            repo: s.repo,
                            reference: s.reference,
                            commit,
                        },
                    )
                },
                None => None,
            };
            record.last_sync = Some(
                SyncRecord {
                    at: at.to_owned(),
                    from: or_empty(&item.current),
                    to: or_empty(&item.target),
                    result: "ok".to_owned(),
                },
            );
            record.last_error = None;
            registry.plugins.insert(i, record);
            proof {
                assert(registry.plugins@ =~= all.update(i as int, registry.plugins@[i as int]));
            }
            return;
        }
        i += 1;
    }
    proof {
        crate::plugin::registry::lemma_position(all, item.package@, i as int);
    }
}

/// Some item failed.
pub open spec fn any_failed(results: Seq<SyncItemResult>) -> bool {
    exists|i: int| 0 <= i < results.len() && (#[trigger] results[i]).result@ == "failed"@
}

/// Whether the service may be started again after a synchronisation: never with a failed item,
/// which would leave it with half of the updates.
pub fn may_restart(results: &Vec<SyncItemResult>, was_running: bool) -> (b: bool)
    ensures
        b == (was_running && !any_failed(results@)),
{
    let mut i: usize = 0;
    while i < results.len()
        invariant
            i <= results.len(),
            forall|j: int| 0 <= j < i ==> (#[trigger] results@[j]).result@ != "failed"@,
        decreases results.len() - i,
    {
        if text::same(results[i].result.as_str(), "failed") {
            proof {
                assert(results@[i as int].result@ == "failed"@);
            }
            return false;
        }
        i += 1;
    }
    was_running
}

impl SyncRun {
    /// The report of a plan that was carried out. `started` tells whether the service came up when
    /// it was started again.
    pub fn report(self, was_running: bool, started: bool) -> (r: SyncReport)
        ensures
            r.applied,
            r.restarted == (was_running && !any_failed(self.results@) && started),
            r.items == self.results,
    {
        let restarted = may_restart(&self.results, was_running) && started;
        SyncReport { applied: true, restarted, items: self.results }
    }
}

/// The record takes part in a synchronisation: it is a dependency, and the one that was asked for.
pub open spec fn takes_part(record: PluginRecord, manifest: ProfileManifest, only: Option<Seq<char>>) -> bool {
    manifest.dependencies.lookup(record.package@) is Some && (only is None || record.package@
        == only->0)
}

/// `i` comes before `j` in a synchronisation: by package name, then by place.
pub open spec fn comes_first(plugins: Seq<PluginRecord>, i: int, j: int) -> bool {
    model::precedes(plugins[i].package@, plugins[j].package@) || (plugins[i].package@
        == plugins[j].package@ && i < j)
}

/// The place of every record that takes part is among the chosen ones.
pub open spec fn all_chosen(
    chosen: Seq<usize>,
    plugins: Seq<PluginRecord>,
    manifest: ProfileManifest,
    only: Option<Seq<char>>,
) -> bool {
    forall|i: int|
        0 <= i < plugins.len() && takes_part(#[trigger] plugins[i], manifest, only) ==> exists|k: int|
            0 <= k < chosen.len() && #[trigger] chosen[k] == i
}

/// The places of the records that take part in a synchronisation, in the order of their packages.
pub fn sync_candidates(registry: &Registry, manifest: &ProfileManifest, only: Option<&str>) -> (r:
    Vec<usize>)
    requires
        manifest.wf(),
    ensures
        forall|k: int|
            0 <= k < r@.len() ==> (#[trigger] r@[k]) < registry.plugins@.len() && takes_part(
                registry.plugins@[r@[k] as int],
                *manifest,
                model::slice_of(only),
            ),
        forall|i: int|
            0 <= i < registry.plugins@.len() && takes_part(
                #[trigger] registry.plugins@[i],
                *manifest,
                model::slice_of(only),
            ) ==> r@.contains(i as usize),
        all_chosen(r@, registry.plugins@, *manifest, model::slice_of(only)),
        forall|a: int, b: int|
            0 <= a < b < r@.len() ==> comes_first(
                registry.plugins@,
                #[trigger] r@[a] as int,
                #[trigger] r@[b] as int,
            ),
{
    let ghost all = registry.plugins@;
    let mut out: Vec<usize> = Vec::new();
    let mut i: usize = 0;
    while i < registry.plugins.len()
        invariant
            all == registry.plugins@,
            manifest.wf(),
            i <= registry.plugins.len(),
            forall|k: int|
                0 <= k < out@.len() ==> (#[trigger] out@[k]) < i && takes_part(
                    all[out@[k] as int],
                    *manifest,
                    model::slice_of(only),
                ),
            forall|j: int|
                0 <= j < i && takes_part(#[trigger] all[j], *manifest, model::slice_of(only))
                    ==> out@.contains(j as usize),
            forall|a: int, b: int|
                0 <= a < b < out@.len() ==> comes_first(
                    all,
                    #[trigger] out@[a] as int,
                    #[trigger] out@[b] as int,
                ),
        decreases registry.plugins.len() - i,
    {
        let name = registry.plugins[i].package.as_str();
        let chosen = match only {
            Some(o) => text::same(name, o),
            None => true,
        };
        if chosen && manifest.dependencies.contains_key(name) {
            let ghost before = out@;
            let mut k: usize = out.len();
            while k > 0 && text::precedes(name, registry.plugins[out[k - 1]].package.as_str())
                invariant
                    all == registry.plugins@,
                    out@ == before,
                    k <= out.len(),
                    i < registry.plugins.len(),
                    name@ == all[i as int].package@,
                    forall|m: int| 0 <= m < out@.len() ==> (#[trigger] out@[m]) < i,
                    forall|m: int|
                        k <= m < out@.len() ==> model::precedes(
                            name@,
                            all[#[trigger] out@[m] as int].package@,
                        ),
                decreases k,
            {
                k -= 1;
            }
            out.insert(k, i);
            proof {
                let now = out@;
                assert(now == before.insert(k as int, i));
                if k > 0 {
                    text_map::lemma_precedes_total(name@, all[before[k - 1] as int].package@);
                }
                assert forall|a: int, b: int| 0 <= a < b < now.len() implies comes_first(
                    all,
                    #[trigger] now[a] as int,
                    #[trigger] now[b] as int,
                ) by {
                    let x = if a < k {
                        a
                    } else {
                        a - 1
                    };
                    let y = if b < k {
                        b
                    } else {
                        b - 1
                    };
                    if a == k {
                        assert(now[b] == before[y]);
                        assert(model::precedes(name@, all[before[y] as int].package@));
                    } else if b == k {
                        assert(now[a] == before[a]);
                        if a < k - 1 {
                            assert(comes_first(all, before[a] as int, before[k - 1] as int));
                            let p = all[before[a] as int].package@;
                            let q = all[before[k - 1] as int].package@;
                            if model::precedes(p, q) && model::precedes(q, name@) {
                                text_map::lemma_precedes_transitive(p, q, name@);
                            }
                        }
                    } else {
                        assert(now[a] == before[x]);
                        assert(now[b] == before[y]);
                    }
                }
                assert forall|m: int| 0 <= m < now.len() implies (#[trigger] now[m]) < i + 1
                    && takes_part(all[now[m] as int], *manifest, model::slice_of(only)) by {
                    if m != k {
                        assert(now[m] == before[if m < k { m } else { m - 1 }]);
                    }
                }
                assert forall|j: int| 0 <= j < i + 1 && takes_part(
                    #[trigger] all[j],
                    *manifest,
                    model::slice_of(only),
                ) implies now.contains(j as usize) by {
                    if j < i {
                        let m = choose|m: int| 0 <= m < before.len() && before[m] == j as usize;
                        assert(now[if m < k { m } else { m + 1 }] == j as usize);
                    } else {
                        assert(now[k as int] == j as usize);
                    }
                }
            }
        }
        i += 1;
    }
    proof {
        assert forall|j: int| 0 <= j < all.len() && #[trigger] takes_part(
            all[j],
            *manifest,
            model::slice_of(only),
        ) implies exists|k: int| 0 <= k < out@.len() && #[trigger] out@[k] == j by {
            assert(all[j] == all[j]);
            assert(out@.contains(j as usize));
            let k = choose|k: int| 0 <= k < out@.len() && out@[k] == j as usize;
            assert(out@[k] == j);
        }
    }
    out
}

} // verus!
