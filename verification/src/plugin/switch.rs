//! Switching a plugin on and off: what is written to the managed block, how it is verified, and
//! what the registry remembers.

use crate::model;
use crate::model::CharSet;
use crate::plugin::dump::{find_row, owned_rows, row_with, DumpRow, DumpSection};
use crate::plugin::managed;
use crate::plugin::managed_laws;
use crate::plugin::managed_laws::last_with;
use crate::plugin::managed::{
    apply_block, block_edited, block_read, edit_of, entry_texts, unchanged, upserted, BlockEdit,
    BlockOutcome, EditText, EntryText, ManagedEntry,
};
use crate::plugin::registry::{position, PluginRecord, Registry};
use crate::plugin::service::{
    first_record, fresh_record, is_protected, protected_package, record_of, rows_for, states_of,
    OpResult, OpStatus,
};
use crate::plugin::state::{
    conflict_error, derive_state, illegal_error, internal_error, objection, state_of, validate,
    verification_error, ErrorText, PluginAction, PluginError, PluginErrorKind, RowState,
};
use crate::profile::ProfileManifest;
use crate::text;
use crate::text_map;
use crate::text_map::{insert_ordered, ordered};
use vstd::prelude::*;

verus! {

// ---- Built-in rows that a plugin replaced ----

/// The layer is a user's own patch file, named by a path.
pub open spec fn user_layer(owner: Seq<char>) -> bool {
    ||| model::first_in(owner, CharSet::Only('\\'), 0) < owner.len()
    ||| owner.len() >= 2 && (owner[0] as u32) < 0x80 && owner[1] == ':'
    ||| owner.len() > 0 && owner[0] == '/'
}

fn is_user_layer(owner: &str) -> (b: bool)
    ensures
        b == user_layer(owner@),
{
    let v = text::chars_of(owner);
    if text::first_in(&v, CharSet::Only('\\'), 0) < v.len() {
        return true;
    }
    (v.len() >= 2 && (v[0] as u32) < 0x80 && v[1] == ':') || (v.len() > 0 && v[0] == '/')
}

/// A section whose rows a package patched, in a layer that is not the user's own.
pub open spec fn patched_section(section: DumpSection, package: Seq<char>) -> bool {
    model::texts(section.patched_by@).contains(package) && !user_layer(section.owner@)
}

/// A row of someone else that a package switched off.
pub open spec fn replaced_row(row: DumpRow, own: Seq<Seq<char>>) -> bool {
    !own.contains(row.id@) && row.enabled() == Some(false)
}

/// The id is that of a row that the package replaced in one of the first `n` sections.
pub open spec fn replaced_in(
    sections: Seq<DumpSection>,
    package: Seq<char>,
    own: Seq<Seq<char>>,
    id: Seq<char>,
    n: int,
) -> bool {
    exists|i: int, j: int|
        0 <= i < n && patched_section(#[trigger] sections[i], package) && 0 <= j
            < sections[i].rows@.len() && replaced_row(#[trigger] sections[i].rows@[j], own)
            && sections[i].rows@[j].id@ == id
}

/// The id is that of a row that the package replaced: it owns rows itself, and it switched the row
/// off in a layer that is neither its own nor the user's.
pub open spec fn replaced(sections: Seq<DumpSection>, package: Seq<char>, id: Seq<char>) -> bool {
    let own = owned_rows(sections, package);
    own.len() > 0 && replaced_in(sections, package, own, id, sections.len() as int)
}

/// The built-in rows that a package replaced, in order, each once.
pub fn shadow_restore_rows(sections: &Vec<DumpSection>, package: &str) -> (r: Vec<String>)
    ensures
        ordered(model::texts(r@)),
        forall|id: Seq<char>| #[trigger]
            model::texts(r@).contains(id) <==> replaced(sections@, package@, id),
{
    let own = crate::plugin::dump::rows_of_owner(sections, package);
    let ghost mine = owned_rows(sections@, package@);
    let mut out: Vec<String> = Vec::new();
    proof {
        assert(model::texts(out@) =~= seq![]);
        assert(mine.len() == own.len());
    }
    if own.len() == 0 {
        return out;
    }
    let mut i: usize = 0;
    while i < sections.len()
        invariant
            mine == owned_rows(sections@, package@),
            model::texts(own@) == mine,
            i <= sections.len(),
            ordered(model::texts(out@)),
            forall|id: Seq<char>| #[trigger]
                model::texts(out@).contains(id) <==> replaced_in(
                    sections@,
                    package@,
                    mine,
                    id,
                    i as int,
                ),
        decreases sections.len() - i,
    {
        let section = &sections[i];
        let ghost earlier = model::texts(out@);
        if text_map::holds(&section.patched_by, package) && !is_user_layer(
            section.owner.as_str(),
        ) {
            let mut j: usize = 0;
            while j < section.rows.len()
                invariant
                    i < sections.len(),
                    *section == sections@[i as int],
                    patched_section(*section, package@),
                    model::texts(own@) == mine,
                    j <= section.rows.len(),
                    ordered(model::texts(out@)),
                    forall|id: Seq<char>| #[trigger]
                        model::texts(out@).contains(id) <==> earlier.contains(id) || exists|k: int|
                            0 <= k < j && replaced_row(#[trigger] section.rows@[k], mine)
                                && section.rows@[k].id@ == id,
                decreases section.rows.len() - j,
            {
                let row = &section.rows[j];
                let ghost before = model::texts(out@);
                if !text_map::holds(&own, row.id.as_str()) && row.effective_enabled() == Some(
                    false,
                ) {
                    insert_ordered(&mut out, row.id.as_str());
                    proof {
                        assert(replaced_row(section.rows@[j as int], mine));
                    }
                }
                j += 1;
            }
            proof {
                assert forall|id: Seq<char>| #[trigger] model::texts(out@).contains(id)
                    <==> replaced_in(sections@, package@, mine, id, i as int + 1) by {
                    if replaced_in(sections@, package@, mine, id, i as int + 1) {
                        let (a, b) = choose|a: int, b: int|
                            0 <= a < i + 1 && patched_section(#[trigger] sections@[a], package@)
                                && 0 <= b < sections@[a].rows@.len() && replaced_row(
                                #[trigger] sections@[a].rows@[b],
                                mine,
                            ) && sections@[a].rows@[b].id@ == id;
                        if a < i {
                            assert(replaced_in(sections@, package@, mine, id, i as int));
                            assert(earlier.contains(id));
                        } else {
                            assert(replaced_row(section.rows@[b], mine));
                        }
                    }
                    if earlier.contains(id) {
                        assert(replaced_in(sections@, package@, mine, id, i as int));
                    }
                }
            }
        } else {
            proof {
                assert forall|id: Seq<char>| #[trigger] model::texts(out@).contains(id)
                    <==> replaced_in(sections@, package@, mine, id, i as int + 1) by {
                    if replaced_in(sections@, package@, mine, id, i as int + 1) {
                        let (a, b) = choose|a: int, b: int|
                            0 <= a < i + 1 && patched_section(#[trigger] sections@[a], package@)
                                && 0 <= b < sections@[a].rows@.len() && replaced_row(
                                #[trigger] sections@[a].rows@[b],
                                mine,
                            ) && sections@[a].rows@[b].id@ == id;
                        assert(a < i);
                    }
                }
            }
        }
        i += 1;
    }
    out
}

// ---- Planning ----

/// The rows to write for a package: each of its rows that no expression controls.
pub open spec fn wanted(
    ids: Seq<Seq<char>>,
    states: Seq<RowState>,
    disabled: bool,
    package: Seq<char>,
) -> Seq<EntryText>
    decreases ids.len(),
{
    if ids.len() == 0 {
        seq![]
    } else {
        let rest = wanted(ids.drop_last(), states.drop_last(), disabled, package);
        if states.last() == RowState::Expression {
            rest
        } else {
            rest.push(EntryText { id: ids.last(), disabled, package: Some(package) })
        }
    }
}

/// The rows that switch built-in rows back on.
pub open spec fn switched_on(ids: Seq<Seq<char>>, package: Seq<char>) -> Seq<EntryText> {
    ids.map_values(
        |id: Seq<char>| EntryText { id, disabled: false, package: Some(package) },
    )
}

fn action_of(enabled: bool) -> (r: PluginAction)
    ensures
        r == action_for(enabled),
{
    if enabled {
        PluginAction::Enable
    } else {
        PluginAction::Disable
    }
}

pub open spec fn action_for(enabled: bool) -> PluginAction {
    if enabled {
        PluginAction::Enable
    } else {
        PluginAction::Disable
    }
}

fn wanted_entries(ids: &Vec<String>, states: &Vec<RowState>, disabled: bool, package: &str) -> (r:
    Vec<ManagedEntry>)
    requires
        ids@.len() == states@.len(),
    ensures
        entry_texts(r@) == wanted(model::texts(ids@), states@, disabled, package@),
{
    let ghost all = model::texts(ids@);
    let mut out: Vec<ManagedEntry> = Vec::new();
    let mut i: usize = 0;
    proof {
        assert(all.take(0) =~= seq![]);
        assert(entry_texts(out@) =~= seq![]);
    }
    while i < ids.len()
        invariant
            all == model::texts(ids@),
            ids@.len() == states@.len(),
            i <= ids.len(),
            entry_texts(out@) == wanted(
                all.take(i as int),
                states@.take(i as int),
                disabled,
                package@,
            ),
        decreases ids.len() - i,
    {
        let ghost before = entry_texts(out@);
        proof {
            assert(all.take(i as int + 1).drop_last() =~= all.take(i as int));
            assert(states@.take(i as int + 1).drop_last() =~= states@.take(i as int));
            assert(all.take(i as int + 1).last() == ids@[i as int]@);
        }
        if states[i] != RowState::Expression {
            let entry = ManagedEntry::new(ids[i].clone(), disabled, Some(package.to_owned()));
            out.push(entry);
            proof {
                assert(entry_texts(out@) =~= before.push(entry@));
            }
        }
        i += 1;
    }
    proof {
        assert(all.take(all.len() as int) =~= all);
        assert(states@.take(states@.len() as int) =~= states@);
    }
    out
}

fn push_switched_on(out: &mut Vec<ManagedEntry>, ids: &Vec<String>, package: &str)
    ensures
        entry_texts(final(out)@) == entry_texts(old(out)@) + switched_on(
            model::texts(ids@),
            package@,
        ),
{
    let ghost start = entry_texts(out@);
    let ghost all = switched_on(model::texts(ids@), package@);
    let mut i: usize = 0;
    proof {
        assert(start + all.take(0) =~= start);
    }
    while i < ids.len()
        invariant
            all == switched_on(model::texts(ids@), package@),
            i <= ids.len(),
            entry_texts(out@) == start + all.take(i as int),
        decreases ids.len() - i,
    {
        let ghost before = entry_texts(out@);
        let entry = ManagedEntry::new(ids[i].clone(), false, Some(package.to_owned()));
        out.push(entry);
        i += 1;
        proof {
            assert(entry_texts(out@) =~= before.push(entry@));
            assert(start + all.take(i as int) =~= before.push(all[i - 1]));
        }
    }
    proof {
        assert(all.take(all.len() as int) =~= all);
    }
}

/// What is to be done to switch a plugin.
pub struct StatePlan {
    pub package: String,
    pub enabled: bool,
    /// The rows that the package owns.
    pub row_ids: Vec<String>,
    /// The package's own rows to write.
    pub updates: Vec<ManagedEntry>,
    /// The built-in rows to switch back on.
    pub shadow: Vec<String>,
    /// The managed rows as they were before.
    pub previous: Option<Vec<ManagedEntry>>,
    /// What the patch file becomes.
    pub edit: BlockEdit,
}

/// The built-in rows that a record remembers as switched back on.
pub open spec fn remembered(registry: Registry, package: Seq<char>) -> Seq<Seq<char>> {
    match record_of(registry, package) {
        Some(r) => model::texts(r.shadow_restored@),
        None => seq![],
    }
}

/// Why a plugin cannot be switched, as far as that can be told without its patch file.
pub open spec fn refusal(
    package: Seq<char>,
    enabled: bool,
    degraded: Option<Seq<char>>,
    manifest: ProfileManifest,
    declares: bool,
    sections: Seq<DumpSection>,
) -> Option<ErrorText> {
    let states = states_of(sections, owned_rows(sections, package));
    let current = state_of(true, manifest.bundles_have(package), declares, states);
    if degraded is Some {
        Some(internal_error("无法解析 dsh 配置树（"@ + degraded->0 + "），启停已禁用"@))
    } else if manifest.dependencies.lookup(package) is None {
        Some(
            illegal_error(
                "插件 "@ + package + " 未安装，无法执行 "@ + action_for(enabled).name(),
            ),
        )
    } else {
        match objection(action_for(enabled), current, states) {
            Some(m) => Some(illegal_error(m)),
            None => None,
        }
    }
}

/// The rows that a package's own part of the block is to hold.
pub open spec fn own_updates(
    package: Seq<char>,
    enabled: bool,
    sections: Seq<DumpSection>,
) -> Seq<EntryText> {
    let ids = owned_rows(sections, package);
    wanted(ids, states_of(sections, ids), !enabled, package)
}

/// The managed rows once the plugin is switched: its own rows as wanted; on disabling, the
/// built-in rows in `shadow` on; on enabling, the remembered ones gone.
pub open spec fn rows_after(
    existing: Option<Seq<EntryText>>,
    package: Seq<char>,
    enabled: bool,
    sections: Seq<DumpSection>,
    shadow: Seq<Seq<char>>,
    remembered: Seq<Seq<char>>,
) -> Seq<EntryText> {
    upserted(
        match existing {
            Some(rows) => rows,
            None => seq![],
        },
        own_updates(package, enabled, sections) + switched_on(shadow, package),
        if enabled {
            remembered
        } else {
            seq![]
        },
    )
}

/// The ids are those of the built-in rows to switch back on when a plugin is disabled, in order:
/// those that it replaces now and those that were remembered.
pub open spec fn to_restore(
    ids: Seq<Seq<char>>,
    sections: Seq<DumpSection>,
    package: Seq<char>,
    registry: Registry,
) -> bool {
    &&& ordered(ids)
    &&& forall|id: Seq<char>| #[trigger]
        ids.contains(id) <==> replaced(sections, package, id) || remembered(
            registry,
            package,
        ).contains(id)
}

/// The built-in rows that a switch turns on: on enabling none.
pub open spec fn shadow_ids(
    sections: Seq<DumpSection>,
    package: Seq<char>,
    enabled: bool,
    registry: Registry,
) -> Seq<Seq<char>> {
    if enabled {
        seq![]
    } else {
        choose|ids: Seq<Seq<char>>| to_restore(ids, sections, package, registry)
    }
}

impl StatePlan {
    /// The plan switches the package as asked: its rows are written as wanted; on disabling every
    /// built-in row that it replaced now or before is switched on and remembered, on enabling none.
    pub open spec fn switches(
        &self,
        package: Seq<char>,
        enabled: bool,
        sections: Seq<DumpSection>,
        registry: Registry,
        path: Seq<char>,
        content: Option<Seq<char>>,
    ) -> bool {
        let before = block_read(path, content);
        &&& self.package@ == package
        &&& self.enabled == enabled
        &&& model::texts(self.row_ids@) == owned_rows(sections, package)
        &&& entry_texts(self.updates@) == own_updates(package, enabled, sections)
        &&& self.updates@.len() > 0
        &&& model::texts(self.shadow@) == shadow_ids(sections, package, enabled, registry)
        &&& !enabled ==> to_restore(model::texts(self.shadow@), sections, package, registry)
        &&& before is Ok
        &&& match self.previous {
            Some(v) => before->Ok_0 == Some(entry_texts(v@)),
            None => before->Ok_0 is None,
        }
        &&& Ok::<EditText, Seq<char>>(self.edit@) == block_edited(
            path,
            content,
            rows_after(
                before->Ok_0,
                package,
                enabled,
                sections,
                shadow_ids(sections, package, enabled, registry),
                remembered(registry, package),
            ),
        )
    }
}

/// The built-in rows to switch back on when a plugin is disabled.
fn shadow_union(sections: &Vec<DumpSection>, package: &str, registry: &Registry) -> (r: Vec<String>)
    ensures
        to_restore(model::texts(r@), sections@, package@, *registry),
        model::texts(r@) == shadow_ids(sections@, package@, false, *registry),
{
    let mut ids = shadow_restore_rows(sections, package);
    let ghost scanned = model::texts(ids@);
    match registry.find(package) {
        Some(record) => {
            let ghost all = model::texts(record.shadow_restored@);
            let mut i: usize = 0;
            while i < record.shadow_restored.len()
                invariant
                    all == model::texts(record.shadow_restored@),
                    i <= record.shadow_restored.len(),
                    ordered(model::texts(ids@)),
                    forall|id: Seq<char>| #[trigger]
                        model::texts(ids@).contains(id) <==> scanned.contains(id) || all.take(
                            i as int,
                        ).contains(id),
                decreases record.shadow_restored.len() - i,
            {
                let ghost before = model::texts(ids@);
                let s = record.shadow_restored[i].as_str();
                insert_ordered(&mut ids, s);
                proof {
                    let now = all.take(i as int + 1);
                    assert(now =~= all.take(i as int).push(s@));
                    assert forall|id: Seq<char>| #[trigger] model::texts(ids@).contains(id)
                        <==> scanned.contains(id) || now.contains(id) by {
                        if all.take(i as int).contains(id) {
                            let k = choose|k: int|
                                0 <= k < i && all.take(i as int)[k] == id;
                            assert(now[k] == id);
                        }
                        if id == s@ {
                            assert(now[i as int] == id);
                        }
                        if now.contains(id) && id != s@ {
                            let k = choose|k: int| 0 <= k < now.len() && now[k] == id;
                            assert(all.take(i as int)[k] == id);
                        }
                    }
                }
                i += 1;
            }
            proof {
                assert(all.take(all.len() as int) =~= all);
            }
        },
        None => {},
    }
    proof {
        let mine = model::texts(ids@);
        assert(to_restore(mine, sections@, package@, *registry));
        let named = shadow_ids(sections@, package@, false, *registry);
        assert(to_restore(named, sections@, package@, *registry));
        text_map::lemma_ordered_unique(mine, named);
    }
    ids
}

/// Plans to switch a plugin. `patch` is what the patch file holds, or why it could not be read.
pub fn plan_state(
    package: &str,
    enabled: bool,
    degraded: Option<&str>,
    manifest: &ProfileManifest,
    declares: bool,
    sections: &Vec<DumpSection>,
    registry: &Registry,
    path: &str,
    patch: Result<Option<String>, String>,
) -> (r: Result<StatePlan, PluginError>)
    requires
        manifest.wf(),
    ensures
        match refusal(package@, enabled, model::slice_of(degraded), *manifest, declares, sections@) {
            Some(e) => r is Err && r->Err_0@ == e,
            None => match patch {
                Err(m) => r is Err && r->Err_0@ == conflict_error(m@),
                Ok(content) => {
                    let before = block_read(path@, model::text_of(content));
                    if before is Err {
                        r is Err && r->Err_0@ == conflict_error(before->Err_0)
                    } else if own_updates(package@, enabled, sections@).len() == 0 {
                        r is Err && r->Err_0@ == illegal_error(
                            "插件 "@ + package@ + " 的行全部由表达式控制，启动器拒绝覆盖"@,
                        )
                    } else {
                        match r {
                            Ok(plan) => plan.switches(
                                package@,
                                enabled,
                                sections@,
                                *registry,
                                path@,
                                model::text_of(content),
                            ),
                            Err(e) => {
                                let out = block_edited(
                                    path@,
                                    model::text_of(content),
                                    rows_after(
                                        before->Ok_0,
                                        package@,
                                        enabled,
                                        sections@,
                                        shadow_ids(sections@, package@, enabled, *registry),
                                        remembered(*registry, package@),
                                    ),
                                );
                                out is Err && e@ == conflict_error(out->Err_0)
                            },
                        }
                    }
                },
            },
        },
{
    let action = action_of(enabled);
    if let Some(reason) = degraded {
        return Err(
            PluginError::internal(
                text::cat3("无法解析 dsh 配置树（", reason, "），启停已禁用"),
            ),
        );
    }
    if !manifest.dependencies.contains_key(package) {
        return Err(
            PluginError::illegal(
                text::cat4("插件 ", package, " 未安装，无法执行 ", action.as_str()),
            ),
        );
    }
    let in_bundles = manifest.in_bundles(package);
    let (row_ids, row_states) = rows_for(sections, package);
    let current = derive_state(true, in_bundles, declares, row_states.as_slice());
    match validate(action, current, row_states.as_slice()) {
        Ok(_) => {},
        Err(e) => {
            return Err(e);
        },
    }
    let content = match patch {
        Ok(c) => c,
        Err(m) => {
            return Err(PluginError::new(PluginErrorKind::ManagedBlockConflict, m));
        },
    };
    let held = match &content {
        Some(s) => Some(s.as_str()),
        None => None,
    };
    let previous = match managed::read_block(path, held) {
        Ok(p) => p,
        Err(m) => {
            return Err(PluginError::new(PluginErrorKind::ManagedBlockConflict, m));
        },
    };
    let updates = wanted_entries(&row_ids, &row_states, !enabled, package);
    proof {
        assert(entry_texts(updates@).len() == updates.len());
    }
    if updates.len() == 0 {
        return Err(
            PluginError::illegal(
                text::cat3("插件 ", package, " 的行全部由表达式控制，启动器拒绝覆盖"),
            ),
        );
    }
    let shadow: Vec<String> = if enabled {
        Vec::new()
    } else {
        shadow_union(sections, package, registry)
    };
    proof {
        if enabled {
            assert(model::texts(shadow@) =~= seq![]);
        }
    }
    let remove_ids: Vec<String> = if enabled {
        match registry.find(package) {
            Some(record) => text_map::copy_texts(&record.shadow_restored),
            None => Vec::new(),
        }
    } else {
        Vec::new()
    };
    let ghost old_ids = if enabled {
        remembered(*registry, package@)
    } else {
        seq![]
    };
    proof {
        assert(model::texts(remove_ids@) =~= old_ids);
    }
    let mut all_updates: Vec<ManagedEntry> = Vec::new();
    let mut i: usize = 0;
    while i < updates.len()
        invariant
            i <= updates.len(),
            entry_texts(all_updates@) == entry_texts(updates@).take(i as int),
        decreases updates.len() - i,
    {
        let ghost before = entry_texts(all_updates@);
        all_updates.push(updates[i].copy());
        i += 1;
        proof {
            assert(entry_texts(all_updates@) =~= before.push(updates@[i - 1]@));
            assert(entry_texts(updates@).take(i as int) =~= before.push(updates@[i - 1]@));
        }
    }
    proof {
        assert(entry_texts(updates@).take(updates.len() as int) =~= entry_texts(updates@));
    }
    push_switched_on(&mut all_updates, &shadow, package);
    let existing = match &previous {
        Some(v) => Some(copy_entries(v)),
        None => None,
    };
    let rows = managed::upsert(existing, all_updates.as_slice(), remove_ids.as_slice());
    match apply_block(path, held, rows.as_slice()) {
        Ok(edit) => Ok(
            StatePlan {
                package: package.to_owned(),
                enabled,
                row_ids,
                updates,
                shadow,
                previous,
                edit,
            },
        ),
        Err(m) => Err(PluginError::new(PluginErrorKind::ManagedBlockConflict, m)),
    }
}

fn copy_entries(v: &Vec<ManagedEntry>) -> (r: Vec<ManagedEntry>)
    ensures
        entry_texts(r@) == entry_texts(v@),
{
    let mut out: Vec<ManagedEntry> = Vec::new();
    let mut i: usize = 0;
    while i < v.len()
        invariant
            i <= v.len(),
            entry_texts(out@) == entry_texts(v@).take(i as int),
        decreases v.len() - i,
    {
        let ghost before = entry_texts(out@);
        out.push(v[i].copy());
        i += 1;
        proof {
            assert(entry_texts(out@) =~= before.push(v@[i - 1]@));
            assert(entry_texts(v@).take(i as int) =~= before.push(v@[i - 1]@));
        }
    }
    proof {
        assert(entry_texts(v@).take(v.len() as int) =~= entry_texts(v@));
    }
    out
}

// ---- After the write ----

/// What is wrong with the composed configuration after a switch: the first of the given rows that
/// is missing or not in the wanted state.
pub open spec fn first_unmet(
    sections: Seq<DumpSection>,
    ids: Seq<Seq<char>>,
    on: bool,
    missing: Seq<char>,
    unmet: Seq<char>,
    i: int,
) -> Option<Seq<char>>
    decreases ids.len() - i,
{
    if i < 0 || i >= ids.len() {
        None
    } else {
        match row_with(sections, ids[i]) {
            None => Some("校验失败："@ + missing + ids[i] + " 在 dump 中不存在"@),
            Some(row) => if row.enabled() == Some(on) {
                first_unmet(sections, ids, on, missing, unmet, i + 1)
            } else {
                Some("校验失败："@ + missing + ids[i] + unmet)
            },
        }
    }
}

pub open spec fn entry_ids(entries: Seq<ManagedEntry>) -> Seq<Seq<char>> {
    entries.map_values(|e: ManagedEntry| e.id@)
}

impl StatePlan {
    /// Why the composed configuration does not show what was written.
    pub open spec fn failure(&self, sections: Seq<DumpSection>) -> Option<Seq<char>> {
        match first_unmet(
            sections,
            entry_ids(self.updates@),
            self.enabled,
            "行 "@,
            " 的 disabled 未按期望生效"@,
            0,
        ) {
            Some(m) => Some(m),
            None => first_unmet(
                sections,
                model::texts(self.shadow@),
                true,
                "影子恢复行 "@,
                " 未恢复启用"@,
                0,
            ),
        }
    }

    /// Checks the composed configuration that the service shows after the write.
    pub fn verify(&self, sections: &Vec<DumpSection>) -> (r: Result<(), PluginError>)
        ensures
            match self.failure(sections@) {
                Some(m) => r is Err && r->Err_0@ == verification_error(m),
                None => r is Ok,
            },
    {
        let mut i: usize = 0;
        let ghost ids = entry_ids(self.updates@);
        while i < self.updates.len()
            invariant
                ids == entry_ids(self.updates@),
                i <= self.updates.len(),
                first_unmet(
                    sections@,
                    ids,
                    self.enabled,
                    "行 "@,
                    " 的 disabled 未按期望生效"@,
                    0,
                ) == first_unmet(
                    sections@,
                    ids,
                    self.enabled,
                    "行 "@,
                    " 的 disabled 未按期望生效"@,
                    i as int,
                ),
            decreases self.updates.len() - i,
        {
            let id = self.updates[i].id.as_str();
            proof {
                assert(ids[i as int] == id@);
            }
            match find_row(sections, id) {
                None => {
                    return Err(
                        PluginError::verification(
                            text::cat4("校验失败：", "行 ", id, " 在 dump 中不存在"),
                        ),
                    );
                },
                Some(row) => {
                    if row.effective_enabled() != Some(self.enabled) {
                        return Err(
                            PluginError::verification(
                                text::cat4("校验失败：", "行 ", id, " 的 disabled 未按期望生效"),
                            ),
                        );
                    }
                },
            }
            i += 1;
        }
        let mut j: usize = 0;
        let ghost shadow = model::texts(self.shadow@);
        while j < self.shadow.len()
            invariant
                shadow == model::texts(self.shadow@),
                j <= self.shadow.len(),
                first_unmet(sections@, shadow, true, "影子恢复行 "@, " 未恢复启用"@, 0)
                    == first_unmet(
                    sections@,
                    shadow,
                    true,
                    "影子恢复行 "@,
                    " 未恢复启用"@,
                    j as int,
                ),
                first_unmet(
                    sections@,
                    entry_ids(self.updates@),
                    self.enabled,
                    "行 "@,
                    " 的 disabled 未按期望生效"@,
                    0,
                ) is None,
            decreases self.shadow.len() - j,
        {
            let id = self.shadow[j].as_str();
            proof {
                assert(shadow[j as int] == id@);
            }
            match find_row(sections, id) {
                None => {
                    return Err(
                        PluginError::verification(
                            text::cat4("校验失败：", "影子恢复行 ", id, " 在 dump 中不存在"),
                        ),
                    );
                },
                Some(row) => {
                    if row.effective_enabled() != Some(true) {
                        return Err(
                            PluginError::verification(
                                text::cat4("校验失败：", "影子恢复行 ", id, " 未恢复启用"),
                            ),
                        );
                    }
                },
            }
            j += 1;
        }
        Ok(())
    }

    /// What the patch file, which holds `content`, becomes when the switch is taken back.
    pub fn rollback(&self, path: &str, content: Option<&str>) -> (r: Result<BlockEdit, String>)
        ensures
            edit_of(r) == block_edited(
                path@,
                model::slice_of(content),
                match self.previous {
                    Some(v) => entry_texts(v@),
                    None => seq![],
                },
            ),
    {
        match &self.previous {
            Some(v) => apply_block(path, content, v.as_slice()),
            None => {
                let none: Vec<ManagedEntry> = Vec::new();
                proof {
                    assert(entry_texts(none@) =~= seq![]);
                }
                apply_block(path, content, none.as_slice())
            },
        }
    }

    /// Whether the patch file has to be written and the result verified.
    pub fn needs_write(&self) -> (b: bool)
        ensures
            b == self.edit@.written,
    {
        self.edit.outcome == BlockOutcome::Written
    }

    /// Enters a switch that holds into the registry: the rows of the package, the built-in rows
    /// that are on because of it, its desired state, and, where something was written, that
    /// there is no error.
    pub fn record(&self, registry: &mut Registry)
        ensures
            final(registry).schema_version == old(registry).schema_version,
            final(registry).profile == old(registry).profile,
            match position(old(registry).plugins@, self.package@) {
                None => final(registry).plugins@ == old(registry).plugins@,
                Some(i) => {
                    let was = old(registry).plugins@[i];
                    let now = final(registry).plugins@[i];
                    &&& final(registry).plugins@ == old(registry).plugins@.update(i, now)
                    &&& model::texts(now.rows@) == model::texts(self.row_ids@)
                    &&& model::texts(now.shadow_restored@) == model::texts(self.shadow@)
                    &&& now.desired is Some
                    &&& (now.desired->0)@ == if self.enabled {
                        "enabled"@
                    } else {
                        "disabled"@
                    }
                    &&& now.last_error == if self.edit@.written {
                        None
                    } else {
                        was.last_error
                    }
                    &&& now.package == was.package
                    &&& now.origin == was.origin
                    &&& now.source == was.source
                    &&& now.last_sync == was.last_sync
                    &&& now.protected == was.protected
                    &&& now.quarantine == was.quarantine
                },
            },
    {
        let ghost all = registry.plugins@;
        let mut i: usize = 0;
        while i < registry.plugins.len()
            invariant
                all == registry.plugins@,
                all == old(registry).plugins@,
                registry.schema_version == old(registry).schema_version,
                registry.profile == old(registry).profile,
                i <= registry.plugins.len(),
                forall|j: int| 0 <= j < i ==> #[trigger] all[j].package@ != self.package@,
            decreases registry.plugins.len() - i,
        {
            if text::same(registry.plugins[i].package.as_str(), self.package.as_str()) {
                proof {
                    crate::plugin::registry::lemma_position(all, self.package@, i as int);
                }
                let mut record = registry.plugins.remove(i);
                record.rows = text_map::copy_texts(&self.row_ids);
                record.shadow_restored = text_map::copy_texts(&self.shadow);
                record.desired = Some(
                    if self.enabled {
                        "enabled".to_owned()
                    } else {
                        "disabled".to_owned()
                    },
                );
                if self.needs_write() {
                    record.last_error = None;
                }
                registry.plugins.insert(i, record);
                proof {
                    assert(registry.plugins@ =~= all.update(i as int, registry.plugins@[i as int]));
                }
                return;
            }
            i += 1;
        }
        proof {
            crate::plugin::registry::lemma_position(all, self.package@, i as int);
        }
    }

    /// What the user is told of a switch that holds.
    pub fn result(&self) -> (r: OpResult)
        ensures
            !r.restarted,
            r.package is Some,
            (r.package->0)@ == self.package@,
            ({
                let word = if self.enabled {
                    "启用"@
                } else {
                    "禁用"@
                };
                if self.edit@.written {
                    &&& r.status == OpStatus::Changed
                    &&& r.message@ == self.package@ + " 已"@ + word + "（"@ + model::decimal(
                        self.updates@.len(),
                    ) + " 行；dsh live 热重载，无需重启）"@
                } else {
                    &&& r.status == OpStatus::Unchanged
                    &&& r.message@ == self.package@ + " 已处于"@ + word + "状态（无变更）"@
                }
            }),
    {
        let word = if self.enabled {
            "启用"
        } else {
            "禁用"
        };
        let package = Some(self.package.clone());
        if self.needs_write() {
            let message = text::cat6(
                self.package.as_str(),
                " 已",
                word,
                "（",
                text::decimal(self.updates.len() as u64).as_str(),
                " 行；dsh live 热重载，无需重启）",
            );
            OpResult::changed(message, false, package)
        } else {
            let message = text::cat4(
                self.package.as_str(),
                " 已处于",
                word,
                "状态（无变更）",
            );
            OpResult::unchanged(message, package)
        }
    }
}

// ---- Laws ----

proof fn lemma_wanted_ids(
    ids: Seq<Seq<char>>,
    states: Seq<RowState>,
    disabled: bool,
    package: Seq<char>,
    id: Seq<char>,
)
    requires
        ids.len() == states.len(),
        !ids.contains(id),
    ensures
        last_with(wanted(ids, states, disabled, package), id) is None,
    decreases ids.len(),
{
    if ids.len() > 0 {
        let rest = ids.drop_last();
        if rest.contains(id) {
            let i = choose|i: int| 0 <= i < rest.len() && rest[i] == id;
            assert(ids[i] == id);
        }
        lemma_wanted_ids(rest, states.drop_last(), disabled, package, id);
        assert(ids[ids.len() - 1] == ids.last());
        let before = wanted(rest, states.drop_last(), disabled, package);
        let last = EntryText { id: ids.last(), disabled, package: Some(package) };
        assert(before.push(last).drop_last() =~= before);
    }
}

/// Enabling a plugin takes back every built-in row that was switched on when it was disabled, but
/// for rows of its own.
pub proof fn law_enabling_takes_rows_back(
    existing: Option<Seq<EntryText>>,
    package: Seq<char>,
    sections: Seq<DumpSection>,
    shadow: Seq<Seq<char>>,
    id: Seq<char>,
)
    requires
        shadow.contains(id),
        !owned_rows(sections, package).contains(id),
    ensures
        managed_laws::row_with(
            rows_after(existing, package, true, sections, seq![], shadow),
            id,
        ) is None,
{
    let own = own_updates(package, true, sections);
    let ids = owned_rows(sections, package);
    lemma_wanted_ids(ids, states_of(sections, ids), false, package, id);
    assert(own + switched_on(seq![], package) =~= own);
    let rows = match existing {
        Some(rows) => rows,
        None => seq![],
    };
    managed_laws::law_upsert(rows, own, shadow, id);
}

/// Disabling a plugin again forgets none of the built-in rows that it switched on before, so that
/// enabling it leaves none of them behind, however often it was disabled.
pub proof fn law_repeated_disabling_leaves_no_residue(
    existing: Option<Seq<EntryText>>,
    package: Seq<char>,
    before: Seq<DumpSection>,
    registry: Registry,
    now: Seq<DumpSection>,
    again: Seq<Seq<char>>,
    id: Seq<char>,
)
    requires
        to_restore(again, before, package, registry),
        remembered(registry, package).contains(id),
        !owned_rows(now, package).contains(id),
    ensures
        again.contains(id),
        managed_laws::row_with(
            rows_after(existing, package, true, now, seq![], again),
            id,
        ) is None,
{
    assert(again.contains(id));
    law_enabling_takes_rows_back(existing, package, now, again, id);
}

// ---- Bringing the registry up to date ----

/// The keys that the registry has no record of.
pub open spec fn missing(keys: Seq<Seq<char>>, plugins: Seq<PluginRecord>) -> Seq<Seq<char>>
    decreases keys.len(),
{
    if keys.len() == 0 {
        seq![]
    } else {
        let rest = missing(keys.drop_last(), plugins);
        if position(plugins, keys.last()) is None {
            rest.push(keys.last())
        } else {
            rest
        }
    }
}

/// A record with the protection of its package.
pub open spec fn shielded(record: PluginRecord) -> PluginRecord {
    PluginRecord { protected: record.protected || protected_package(record.package@), ..record }
}

/// The packages of records.
pub open spec fn packages(plugins: Seq<PluginRecord>) -> Seq<Seq<char>> {
    plugins.map_values(|r: PluginRecord| r.package@)
}

proof fn lemma_position_push(plugins: Seq<PluginRecord>, more: Seq<PluginRecord>, key: Seq<char>)
    requires
        !packages(more).contains(key),
    ensures
        position(plugins + more, key) is None <==> position(plugins, key) is None,
    decreases plugins.len(),
{
    if plugins.len() == 0 {
        assert(plugins + more =~= more);
        assert forall|j: int| 0 <= j < more.len() implies #[trigger] more[j].package@ != key by {
            assert(packages(more)[j] == more[j].package@);
        }
        crate::plugin::registry::lemma_position(more, key, more.len() as int);
    } else if plugins[0].package@ != key {
        lemma_position_push(plugins.skip(1), more, key);
        assert((plugins + more).skip(1) =~= plugins.skip(1) + more);
    }
}

/// Enters every dependency that the registry does not know, and marks the packages that cannot be
/// uninstalled; tells whether anything changed. No file of the profile is touched.
pub fn bootstrap_registry(
    registry: &mut Registry,
    manifest: &ProfileManifest,
    sections: &Vec<DumpSection>,
) -> (changed: bool)
    requires
        manifest.wf(),
    ensures
        final(registry).schema_version == old(registry).schema_version,
        final(registry).profile == old(registry).profile,
        ({
            let was = old(registry).plugins@;
            let now = final(registry).plugins@;
            let keys = missing(manifest.dependencies.keys(), was);
            &&& now.len() == was.len() + keys.len()
            &&& forall|i: int| 0 <= i < was.len() ==> now[i] == shielded(#[trigger] was[i])
            &&& forall|j: int|
                0 <= j < keys.len() ==> fresh_record(
                    now[was.len() + j],
                    #[trigger] keys[j],
                    manifest.dependencies.lookup(keys[j])->0,
                    sections@,
                )
            &&& changed == (keys.len() > 0 || exists|i: int|
                0 <= i < was.len() && #[trigger] was[i] != shielded(was[i]))
        }),
{
    let ghost was = registry.plugins@;
    let ghost all = manifest.dependencies.keys();
    let n = manifest.dependencies.len();
    let mut i: usize = 0;
    let mut changed = false;
    proof {
        assert(all.take(0) =~= seq![]);
    }
    while i < n
        invariant
            manifest.wf(),
            all == manifest.dependencies.keys(),
            n == all.len(),
            i <= n,
            registry.schema_version == old(registry).schema_version,
            registry.profile == old(registry).profile,
            ({
                let keys = missing(all.take(i as int), was);
                let now = registry.plugins@;
                &&& now.len() == was.len() + keys.len()
                &&& now.take(was.len() as int) == was
                &&& packages(now.skip(was.len() as int)) == keys
                &&& forall|j: int|
                    0 <= j < keys.len() ==> fresh_record(
                        now[was.len() + j],
                        #[trigger] keys[j],
                        manifest.dependencies.lookup(keys[j])->0,
                        sections@,
                    )
                &&& changed == (keys.len() > 0)
            }),
        decreases n - i,
    {
        let key = manifest.dependencies.key(i);
        let ghost keys = missing(all.take(i as int), was);
        let ghost now = registry.plugins@;
        proof {
            assert(all.take(i as int + 1).drop_last() =~= all.take(i as int));
            assert(all.take(i as int + 1).last() == key@);
            lemma_missing_subset(all.take(i as int), was);
            if keys.contains(key@) {
                let k = choose|k: int| 0 <= k < all.take(i as int).len() && all.take(i as int)[k]
                    == key@;
                assert(model::precedes(all[k], all[i as int]));
                text_map::lemma_precedes_total(key@, key@);
            }
            lemma_position_push(was, now.skip(was.len() as int), key@);
            assert(now =~= now.take(was.len() as int) + now.skip(was.len() as int));
            text_map::lemma_rank_at(all, i as int);
        }
        if registry.find(key).is_none() {
            let value = manifest.dependencies.value(i);
            let record = first_record(key, value, sections);
            registry.upsert(record);
            changed = true;
            proof {
                let more = registry.plugins@;
                assert(more =~= now.push(record));
                assert(more.take(was.len() as int) =~= was);
                assert(packages(more.skip(was.len() as int)) =~= keys.push(key@));
                let next = keys.push(key@);
                assert forall|j: int| 0 <= j < next.len() implies fresh_record(
                    more[was.len() + j],
                    #[trigger] next[j],
                    manifest.dependencies.lookup(next[j])->0,
                    sections@,
                ) by {
                    if j < keys.len() {
                        assert(next[j] == keys[j]);
                    }
                }
            }
        }
        i += 1;
    }
    proof {
        assert(all.take(n as int) =~= all);
        lemma_missing_subset(all, was);
    }
    let ghost keys = missing(all, was);
    let ghost middle = registry.plugins@;
    let ghost added = changed;
    let mut k: usize = 0;
    while k < registry.plugins.len()
        invariant
            registry.schema_version == old(registry).schema_version,
            registry.profile == old(registry).profile,
            middle.len() == was.len() + keys.len(),
            middle.take(was.len() as int) == was,
            registry.plugins@.len() == middle.len(),
            k <= middle.len(),
            forall|j: int|
                0 <= j < middle.len() ==> #[trigger] registry.plugins@[j] == if j < k {
                    shielded(middle[j])
                } else {
                    middle[j]
                },
            forall|j: int|
                0 <= j < keys.len() ==> fresh_record(
                    middle[was.len() + j],
                    #[trigger] keys[j],
                    manifest.dependencies.lookup(keys[j])->0,
                    sections@,
                ),
            changed == (added || exists|j: int|
                0 <= j < k && j < was.len() && #[trigger] was[j] != shielded(was[j])),
        decreases middle.len() - k,
    {
        let ghost now = registry.plugins@;
        let ghost old_changed = changed;
        proof {
            if k < was.len() {
                assert(middle[k as int] == middle.take(was.len() as int)[k as int]);
            } else {
                assert(keys[k - was.len()] == keys[k - was.len()]);
            }
        }
        if is_protected(registry.plugins[k].package.as_str()) && !registry.plugins[k].protected {
            let mut record = registry.plugins.remove(k);
            record.protected = true;
            registry.plugins.insert(k, record);
            changed = true;
            proof {
                assert(record == shielded(middle[k as int]));
                assert(registry.plugins@ =~= now.update(k as int, record));
                assert(k < was.len());
                assert(was[k as int] != shielded(was[k as int]));
            }
        } else {
            proof {
                assert(middle[k as int] == shielded(middle[k as int]));
            }
        }
        k += 1;
    }
    proof {
        let now = registry.plugins@;
        assert forall|i: int| 0 <= i < was.len() implies now[i] == shielded(#[trigger] was[i]) by {
            assert(middle[i] == middle.take(was.len() as int)[i]);
            assert(now[i] == shielded(middle[i]));
        }
        assert forall|j: int| 0 <= j < keys.len() implies fresh_record(
            now[was.len() + j],
            #[trigger] keys[j],
            manifest.dependencies.lookup(keys[j])->0,
            sections@,
        ) by {
            assert(now[was.len() + j] == shielded(middle[was.len() + j]));
        }
    }
    changed
}

proof fn lemma_missing_subset(keys: Seq<Seq<char>>, plugins: Seq<PluginRecord>)
    ensures
        forall|k: Seq<char>| #[trigger] missing(keys, plugins).contains(k) ==> keys.contains(k),
    decreases keys.len(),
{
    if keys.len() > 0 {
        let rest = keys.drop_last();
        lemma_missing_subset(rest, plugins);
        assert forall|k: Seq<char>| #[trigger]
            missing(keys, plugins).contains(k) implies keys.contains(k) by {
            let m = missing(keys, plugins);
            let before = missing(rest, plugins);
            let i = choose|i: int| 0 <= i < m.len() && m[i] == k;
            if i < before.len() {
                assert(before[i] == k);
                assert(before.contains(k));
                let j = choose|j: int| 0 <= j < rest.len() && rest[j] == k;
                assert(keys[j] == k);
            } else {
                assert(keys[keys.len() - 1] == k);
            }
        }
    }
}

} // verus!
