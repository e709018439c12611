//! What holds of every switch of a plugin, from the rows that the service shows to what stands in
//! the patch file afterwards.

use crate::model;
use crate::model::CharSet;
use crate::plugin::dump::{owned_rows, row_among, row_with, DisabledValue, DumpRow, DumpSection};
use crate::plugin::managed::{block_read, entry_texts, sorted_rows, upserted, BlockEdit, EntryText};
use crate::plugin::managed_laws;
use crate::plugin::managed_laws::{last_with, law_upsert, lemma_sorted_holds, ordered};
use crate::plugin::managed_round_trip::{bare, law_rows_are_read_back, single_line};
use crate::plugin::registry::{lemma_position_found, Registry};
use crate::plugin::service::{states_of, OpResult};
use crate::plugin::state::{PluginError, RowState};
use crate::plugin::switch::{
    first_unmet, own_updates, patched_section, plan_state, remembered, replaced, replaced_row,
    rows_after, shadow_ids, switched_on, wanted, StatePlan,
};
use crate::profile::ProfileManifest;
use vstd::prelude::*;

verus! {

// ---- Rows, by where they stand ----

/// There is a row at a place.
pub open spec fn row_at(sections: Seq<DumpSection>, s: int, k: int) -> bool {
    0 <= s < sections.len() && 0 <= k < sections[s].rows@.len()
}

/// The row at a place counts for its id: no later row has the same one.
pub open spec fn counts(sections: Seq<DumpSection>, s: int, k: int) -> bool {
    &&& row_at(sections, s, k)
    &&& forall|t: int, j: int|
        #![trigger sections[t].rows@[j]]
        row_at(sections, t, j) && (t > s || (t == s && j > k)) ==> sections[t].rows@[j].id@
            != sections[s].rows@[k].id@
}

/// The package owns a row with the given id.
pub open spec fn owns(sections: Seq<DumpSection>, package: Seq<char>, id: Seq<char>) -> bool {
    exists|s: int, k: int|
        #![trigger sections[s].rows@[k]]
        row_at(sections, s, k) && sections[s].owner@ == package && sections[s].rows@[k].id@ == id
}

/// The row is on, off, or neither because an expression decides.
pub open spec fn is_on(row: DumpRow) -> bool {
    row.disabled is None || row.disabled == Some(DisabledValue::Bool(false))
}

pub open spec fn is_off(row: DumpRow) -> bool {
    row.disabled == Some(DisabledValue::Bool(true))
}

/// The row with the given id is on or off.
pub open spec fn settled(sections: Seq<DumpSection>, id: Seq<char>) -> bool {
    exists|s: int, k: int|
        #![trigger sections[s].rows@[k]]
        counts(sections, s, k) && sections[s].rows@[k].id@ == id && (is_on(sections[s].rows@[k])
            || is_off(sections[s].rows@[k]))
}

/// The registry remembers for the package that the row was switched back on.
pub open spec fn remembers(registry: Registry, package: Seq<char>, id: Seq<char>) -> bool {
    exists|i: int|
        0 <= i < registry.plugins@.len() && (#[trigger] registry.plugins@[i]).package@ == package
            && (forall|j: int| 0 <= j < i ==> (#[trigger] registry.plugins@[j]).package@ != package)
            && model::texts(registry.plugins@[i].shadow_restored@).contains(id)
}

/// What rows say of an id: that it is disabled or not, or nothing at all.
pub open spec fn says(rows: Seq<EntryText>, id: Seq<char>, disabled: Option<bool>) -> bool {
    match disabled {
        Some(d) => (exists|i: int| 0 <= i < rows.len() && (#[trigger] rows[i]).id == id) && (
        forall|i: int| 0 <= i < rows.len() && (#[trigger] rows[i]).id == id ==> rows[i].disabled
            == d),
        None => forall|i: int| 0 <= i < rows.len() ==> (#[trigger] rows[i]).id != id,
    }
}

proof fn lemma_row_among(rows: Seq<DumpRow>, k: int)
    requires
        0 <= k < rows.len(),
        forall|j: int| k < j < rows.len() ==> (#[trigger] rows[j]).id@ != rows[k].id@,
    ensures
        row_among(rows, rows[k].id@) == Some(rows[k]),
    decreases rows.len(),
{
    if k < rows.len() - 1 {
        assert(rows[rows.len() - 1].id@ != rows[k].id@);
        lemma_row_among(rows.drop_last(), k);
    }
}

proof fn lemma_row_among_none(rows: Seq<DumpRow>, id: Seq<char>)
    requires
        forall|j: int| 0 <= j < rows.len() ==> (#[trigger] rows[j]).id@ != id,
    ensures
        row_among(rows, id) is None,
    decreases rows.len(),
{
    if rows.len() > 0 {
        assert(rows[rows.len() - 1].id@ != id);
        lemma_row_among_none(rows.drop_last(), id);
    }
}

proof fn lemma_row_among_found(rows: Seq<DumpRow>, id: Seq<char>)
    ensures
        row_among(rows, id) matches Some(row) ==> exists|k: int|
            0 <= k < rows.len() && rows[k] == row && rows[k].id@ == id && (forall|j: int|
                k < j < rows.len() ==> (#[trigger] rows[j]).id@ != id),
        row_among(rows, id) is None ==> forall|j: int|
            0 <= j < rows.len() ==> (#[trigger] rows[j]).id@ != id,
    decreases rows.len(),
{
    if rows.len() > 0 {
        let init = rows.drop_last();
        let n = rows.len() - 1;
        if rows.last().id@ == id {
            assert(rows[n] == rows.last());
        } else {
            lemma_row_among_found(init, id);
            if row_among(rows, id) is Some {
                let k = choose|k: int|
                    0 <= k < init.len() && init[k] == row_among(init, id)->0 && init[k].id@ == id && (
                    forall|j: int| k < j < init.len() ==> (#[trigger] init[j]).id@ != id);
                assert(rows[k] == init[k]);
                assert forall|j: int| k < j < rows.len() implies (#[trigger] rows[j]).id@ != id by {
                    if j < n {
                        assert(rows[j] == init[j]);
                    }
                }
            } else {
                assert forall|j: int| 0 <= j < rows.len() implies (#[trigger] rows[j]).id@ != id by {
                    if j < n {
                        assert(rows[j] == init[j]);
                    }
                }
            }
        }
    }
}

/// The row that counts is the one that is found.
pub proof fn lemma_counting_row(sections: Seq<DumpSection>, s: int, k: int)
    requires
        counts(sections, s, k),
    ensures
        row_with(sections, sections[s].rows@[k].id@) == Some(sections[s].rows@[k]),
    decreases sections.len(),
{
    let id = sections[s].rows@[k].id@;
    let n = sections.len() - 1;
    if s == n {
        assert forall|j: int| k < j < sections[s].rows@.len() implies (
        #[trigger] sections[s].rows@[j]).id@ != id by {
            assert(row_at(sections, s, j));
        }
        lemma_row_among(sections[s].rows@, k);
        assert(sections.last() == sections[s]);
    } else {
        assert forall|j: int| 0 <= j < sections[n].rows@.len() implies (
        #[trigger] sections[n].rows@[j]).id@ != id by {
            assert(row_at(sections, n, j));
        }
        lemma_row_among_none(sections.last().rows@, id);
        let init = sections.drop_last();
        assert forall|t: int, j: int|
            #![trigger init[t].rows@[j]]
            row_at(init, t, j) && (t > s || (t == s && j > k)) implies init[t].rows@[j].id@
            != init[s].rows@[k].id@ by {
            assert(init[t] == sections[t]);
            assert(row_at(sections, t, j));
            assert(sections[t].rows@[j].id@ != id);
        }
        assert(init[s] == sections[s]);
        lemma_counting_row(init, s, k);
    }
}

/// A row that is found stands somewhere and counts.
pub proof fn lemma_found_row(sections: Seq<DumpSection>, id: Seq<char>)
    ensures
        row_with(sections, id) matches Some(row) ==> exists|s: int, k: int|
            #![trigger sections[s].rows@[k]]
            counts(sections, s, k) && sections[s].rows@[k] == row && row.id@ == id,
        row_with(sections, id) is None ==> forall|s: int, k: int|
            #![trigger sections[s].rows@[k]]
            row_at(sections, s, k) ==> sections[s].rows@[k].id@ != id,
    decreases sections.len(),
{
    if sections.len() > 0 {
        let n = sections.len() - 1;
        let rows = sections.last().rows@;
        lemma_row_among_found(rows, id);
        if row_among(rows, id) is Some {
            let k = choose|k: int|
                0 <= k < rows.len() && rows[k] == row_among(rows, id)->0 && rows[k].id@ == id && (
                forall|j: int| k < j < rows.len() ==> (#[trigger] rows[j]).id@ != id);
            assert(sections[n].rows@[k] == rows[k]);
            assert(counts(sections, n, k));
        } else {
            let init = sections.drop_last();
            lemma_found_row(init, id);
            if row_with(sections, id) is Some {
                let (s, k) = choose|s: int, k: int|
                    #![trigger init[s].rows@[k]]
                    counts(init, s, k) && init[s].rows@[k] == row_with(init, id)->0
                        && init[s].rows@[k].id@ == id;
                assert(sections[s] == init[s]);
                assert forall|t: int, j: int|
                    #![trigger sections[t].rows@[j]]
                    row_at(sections, t, j) && (t > s || (t == s && j > k)) implies sections[t].rows@[j].id@
                    != sections[s].rows@[k].id@ by {
                    if t < n {
                        assert(init[t] == sections[t]);
                        assert(init[t].rows@[j].id@ != id);
                    } else {
                        assert(rows[j].id@ != id);
                    }
                }
                assert(counts(sections, s, k));
                assert(sections[s].rows@[k].id@ == id);
            } else {
                assert forall|s: int, k: int|
                    #![trigger sections[s].rows@[k]]
                    row_at(sections, s, k) implies sections[s].rows@[k].id@ != id by {
                    if s < n {
                        assert(init[s] == sections[s]);
                        assert(init[s].rows@[k].id@ != id);
                    } else {
                        assert(rows[k].id@ != id);
                    }
                }
            }
        }
    }
}

/// The rows of a package are those that stand in its sections.
pub proof fn lemma_owned(sections: Seq<DumpSection>, package: Seq<char>, id: Seq<char>)
    ensures
        owned_rows(sections, package).contains(id) <==> owns(sections, package, id),
    decreases sections.len(),
{
    let all = owned_rows(sections, package);
    if sections.len() > 0 {
        let init = sections.drop_last();
        let rest = owned_rows(init, package);
        let n = sections.len() - 1;
        let last = crate::plugin::dump::row_ids(sections.last().rows@);
        lemma_owned(init, package, id);
        if all.contains(id) {
            let i = choose|i: int| 0 <= i < all.len() && all[i] == id;
            if i < rest.len() {
                assert(rest[i] == id);
                let (s, k) = choose|s: int, k: int|
                    #![trigger init[s].rows@[k]]
                    row_at(init, s, k) && init[s].owner@ == package && init[s].rows@[k].id@ == id;
                assert(sections[s] == init[s]);
                assert(sections[s].rows@[k].id@ == id);
            } else {
                let k = i - rest.len();
                assert(last[k] == id);
                assert(sections[n].rows@[k].id@ == id);
            }
        }
        if owns(sections, package, id) {
            let (s, k) = choose|s: int, k: int|
                #![trigger sections[s].rows@[k]]
                row_at(sections, s, k) && sections[s].owner@ == package && sections[s].rows@[k].id@
                    == id;
            if s < n {
                assert(init[s] == sections[s]);
                assert(init[s].rows@[k].id@ == id);
                let i = choose|i: int| 0 <= i < rest.len() && rest[i] == id;
                assert(all[i] == id);
            } else {
                assert(last[k] == id);
                assert(all[rest.len() + k] == id);
            }
        }
    }
}

proof fn lemma_settled(sections: Seq<DumpSection>, id: Seq<char>)
    ensures
        settled(sections, id) <==> row_with(sections, id) is Some && (row_with(
            sections,
            id,
        )->0).state() != RowState::Expression,
{
    lemma_found_row(sections, id);
    if settled(sections, id) {
        let (s, k) = choose|s: int, k: int|
            #![trigger sections[s].rows@[k]]
            counts(sections, s, k) && sections[s].rows@[k].id@ == id && (is_on(
                sections[s].rows@[k],
            ) || is_off(sections[s].rows@[k]));
        lemma_counting_row(sections, s, k);
    }
}

proof fn lemma_wanted(
    ids: Seq<Seq<char>>,
    states: Seq<RowState>,
    disabled: bool,
    package: Seq<char>,
    id: Seq<char>,
)
    requires
        ids.len() == states.len(),
    ensures
        wanted(ids, states, disabled, package).contains(
            EntryText { id, disabled, package: Some(package) },
        ) <==> exists|i: int|
            0 <= i < ids.len() && #[trigger] ids[i] == id && states[i] != RowState::Expression,
        forall|k: int|
            0 <= k < wanted(ids, states, disabled, package).len() ==> (#[trigger] wanted(
                ids,
                states,
                disabled,
                package,
            )[k]).disabled == disabled && wanted(ids, states, disabled, package)[k].package == Some(
                package,
            ),
    decreases ids.len(),
{
    let e = EntryText { id, disabled, package: Some(package) };
    let all = wanted(ids, states, disabled, package);
    if ids.len() > 0 {
        let n = ids.len() - 1;
        let init = ids.drop_last();
        let before = states.drop_last();
        let rest = wanted(init, before, disabled, package);
        lemma_wanted(init, before, disabled, package, id);
        if all.contains(e) {
            let k = choose|k: int| 0 <= k < all.len() && all[k] == e;
            if k < rest.len() {
                assert(rest[k] == e);
                let i = choose|i: int|
                    0 <= i < init.len() && #[trigger] init[i] == id && before[i]
                        != RowState::Expression;
                assert(ids[i] == id && states[i] == before[i]);
            } else {
                assert(ids[n] == id);
            }
        }
        if exists|i: int|
            0 <= i < ids.len() && #[trigger] ids[i] == id && states[i] != RowState::Expression {
            let i = choose|i: int|
                0 <= i < ids.len() && #[trigger] ids[i] == id && states[i] != RowState::Expression;
            if i < n {
                assert(init[i] == id && before[i] == states[i]);
                let k = choose|k: int| 0 <= k < rest.len() && rest[k] == e;
                assert(all[k] == e);
            } else {
                assert(all[rest.len() as int] == e);
            }
        }
    }
}

/// What a switch wants for the package's own rows.
proof fn lemma_own_updates(
    package: Seq<char>,
    enabled: bool,
    sections: Seq<DumpSection>,
    id: Seq<char>,
)
    ensures
        own_updates(package, enabled, sections).contains(
            EntryText { id, disabled: !enabled, package: Some(package) },
        ) <==> owns(sections, package, id) && settled(sections, id),
        forall|k: int|
            0 <= k < own_updates(package, enabled, sections).len() ==> (#[trigger] own_updates(
                package,
                enabled,
                sections,
            )[k]).disabled == !enabled && own_updates(package, enabled, sections)[k].package == Some(
                package,
            ),
{
    let ids = owned_rows(sections, package);
    let states = states_of(sections, ids);
    lemma_wanted(ids, states, !enabled, package, id);
    lemma_owned(sections, package, id);
    lemma_settled(sections, id);
    if owns(sections, package, id) && settled(sections, id) {
        let i = choose|i: int| 0 <= i < ids.len() && ids[i] == id;
        assert(ids[i] == id && states[i] != RowState::Expression);
    }
    if exists|i: int|
        0 <= i < ids.len() && #[trigger] ids[i] == id && states[i] != RowState::Expression {
        let i = choose|i: int|
            0 <= i < ids.len() && #[trigger] ids[i] == id && states[i] != RowState::Expression;
        assert(ids.contains(id));
    }
}

pub proof fn lemma_last_with(s: Seq<EntryText>, id: Seq<char>)
    ensures
        match last_with(s, id) {
            Some(e) => s.contains(e) && e.id == id,
            None => forall|k: int| 0 <= k < s.len() ==> (#[trigger] s[k]).id != id,
        },
    decreases s.len(),
{
    if s.len() > 0 {
        let init = s.drop_last();
        if s.last().id == id {
            assert(s[s.len() - 1] == s.last());
        } else {
            lemma_last_with(init, id);
            match last_with(init, id) {
                Some(e) => {
                    let k = choose|k: int| 0 <= k < init.len() && init[k] == e;
                    assert(s[k] == e);
                },
                None => {
                    assert forall|k: int| 0 <= k < s.len() implies (#[trigger] s[k]).id != id by {
                        if k < init.len() {
                            assert(s[k] == init[k]);
                        }
                    }
                },
            }
        }
    }
}

proof fn lemma_last_of_two(a: Seq<EntryText>, b: Seq<EntryText>, id: Seq<char>)
    ensures
        last_with(a + b, id) == match last_with(b, id) {
            Some(e) => Some(e),
            None => last_with(a, id),
        },
    decreases b.len(),
{
    if b.len() == 0 {
        assert(a + b =~= a);
    } else {
        assert((a + b).drop_last() =~= a + b.drop_last());
        lemma_last_of_two(a, b.drop_last(), id);
    }
}

proof fn lemma_switched_on(ids: Seq<Seq<char>>, package: Seq<char>, id: Seq<char>)
    ensures
        last_with(switched_on(ids, package), id) == if ids.contains(id) {
            Some(EntryText { id, disabled: false, package: Some(package) })
        } else {
            None
        },
{
    let s = switched_on(ids, package);
    lemma_last_with(s, id);
    if ids.contains(id) {
        let i = choose|i: int| 0 <= i < ids.len() && ids[i] == id;
        assert(s[i].id == id);
        let e = last_with(s, id)->0;
        let k = choose|k: int| 0 <= k < s.len() && s[k] == e;
        assert(s[k] == EntryText { id: ids[k], disabled: false, package: Some(package) });
    } else if last_with(s, id) is Some {
        let e = last_with(s, id)->0;
        let k = choose|k: int| 0 <= k < s.len() && s[k] == e;
        assert(ids[k] == id);
    }
}

proof fn lemma_own_last(package: Seq<char>, enabled: bool, sections: Seq<DumpSection>, id: Seq<char>)
    ensures
        last_with(own_updates(package, enabled, sections), id) == if owns(sections, package, id)
            && settled(sections, id) {
            Some(EntryText { id, disabled: !enabled, package: Some(package) })
        } else {
            None
        },
{
    let s = own_updates(package, enabled, sections);
    let e = EntryText { id, disabled: !enabled, package: Some(package) };
    lemma_own_updates(package, enabled, sections, id);
    lemma_last_with(s, id);
    if s.contains(e) {
        let k = choose|k: int| 0 <= k < s.len() && s[k] == e;
        assert(s[k].id == id);
    }
    match last_with(s, id) {
        Some(x) => {
            let k = choose|k: int| 0 <= k < s.len() && s[k] == x;
            assert(s[k].disabled == !enabled);
            assert(x == e);
        },
        None => {},
    }
}

proof fn lemma_remembers(registry: Registry, package: Seq<char>, id: Seq<char>)
    ensures
        remembered(registry, package).contains(id) <==> remembers(registry, package, id),
{
    lemma_position_found(registry.plugins@, package);
}

/// A row that the package replaced: it stands in a section of the bundles that the package patched,
/// it is off, and it is not one of the package's own.
pub open spec fn replaces(sections: Seq<DumpSection>, package: Seq<char>, id: Seq<char>) -> bool {
    &&& !owns(sections, package, id)
    &&& exists|own: Seq<char>| owns(sections, package, own)
    &&& exists|s: int, k: int|
        #![trigger sections[s].rows@[k]]
        row_at(sections, s, k) && sections[s].rows@[k].id@ == id && is_off(sections[s].rows@[k])
            && (exists|p: int|
            0 <= p < sections[s].patched_by@.len() && (#[trigger] sections[s].patched_by@[p])@
                == package) && !of_the_user(sections[s].owner@)
}

/// The layer is a file of the user: its name is a path.
pub open spec fn of_the_user(owner: Seq<char>) -> bool {
    ||| exists|i: int| 0 <= i < owner.len() && #[trigger] owner[i] == '\\'
    ||| owner.len() >= 2 && owner[1] == ':' && (owner[0] as u32) < 0x80
    ||| owner.len() >= 1 && owner[0] == '/'
}

proof fn lemma_user_layer(owner: Seq<char>)
    ensures
        crate::plugin::switch::user_layer(owner) == of_the_user(owner),
{
    let k = CharSet::Only('\\');
    model::lemma_first_in(owner, k, 0);
    if model::first_in(owner, k, 0) < owner.len() {
        assert(owner[model::first_in(owner, k, 0)] == '\\');
    }
}

proof fn lemma_replaces(sections: Seq<DumpSection>, package: Seq<char>, id: Seq<char>)
    ensures
        replaced(sections, package, id) <==> replaces(sections, package, id),
{
    let own = owned_rows(sections, package);
    lemma_owned(sections, package, id);
    if own.len() > 0 {
        lemma_owned(sections, package, own[0]);
        assert(own.contains(own[0]));
    }
    if replaced(sections, package, id) {
        let (s, k) = choose|s: int, k: int|
            0 <= s < sections.len() && patched_section(#[trigger] sections[s], package) && 0 <= k
                < sections[s].rows@.len() && replaced_row(#[trigger] sections[s].rows@[k], own)
                && sections[s].rows@[k].id@ == id;
        lemma_user_layer(sections[s].owner@);
        assert(sections[s].rows@[k].id@ == id);
        let names = model::texts(sections[s].patched_by@);
        let p = choose|p: int| 0 <= p < names.len() && names[p] == package;
        assert(sections[s].patched_by@[p]@ == package);
        assert(is_off(sections[s].rows@[k]));
    }
    if replaces(sections, package, id) {
        let o = choose|o: Seq<char>| owns(sections, package, o);
        lemma_owned(sections, package, o);
        assert(own.len() > 0);
        let (s, k) = choose|s: int, k: int|
            #![trigger sections[s].rows@[k]]
            row_at(sections, s, k) && sections[s].rows@[k].id@ == id && is_off(
                sections[s].rows@[k],
            ) && (exists|p: int|
                0 <= p < sections[s].patched_by@.len() && (#[trigger] sections[s].patched_by@[p])@
                    == package) && !of_the_user(sections[s].owner@);
        lemma_user_layer(sections[s].owner@);
        let p = choose|p: int|
            0 <= p < sections[s].patched_by@.len() && (#[trigger] sections[s].patched_by@[p])@
                == package;
        let names = model::texts(sections[s].patched_by@);
        assert(names[p] == package);
        assert(patched_section(sections[s], package));
        assert(replaced_row(sections[s].rows@[k], own));
    }
}

// ---- The plan ----

/// A switch writes every row that the package owns and that no expression controls, in the wanted
/// state, and no other row of the package.
pub proof fn law_every_own_row_is_switched(
    package: &str,
    enabled: bool,
    degraded: Option<&str>,
    manifest: &ProfileManifest,
    declares: bool,
    sections: &Vec<DumpSection>,
    registry: &Registry,
    path: &str,
    patch: Result<Option<String>, String>,
    plan: StatePlan,
    id: Seq<char>,
)
    requires
        manifest.wf(),
        call_ensures(
            plan_state,
            (package, enabled, degraded, manifest, declares, sections, registry, path, patch),
            Ok::<StatePlan, PluginError>(plan),
        ),
    ensures
        (exists|i: int| 0 <= i < plan.updates@.len() && (#[trigger] plan.updates@[i]).id@ == id)
            <==> owns(sections@, package@, id) && settled(sections@, id),
        forall|i: int| 0 <= i < plan.updates@.len() ==> (#[trigger] plan.updates@[i]).disabled == !enabled,
        plan.updates@.len() > 0,
        plan.package@ == package@ && plan.enabled == enabled,
{
    let all = own_updates(package@, enabled, sections@);
    let e = EntryText { id, disabled: !enabled, package: Some(package@) };
    let told = entry_texts(plan.updates@);
    assert(told == all && told.len() == plan.updates@.len());
    lemma_own_updates(package@, enabled, sections@, id);
    assert forall|i: int| 0 <= i < plan.updates@.len() implies (#[trigger] plan.updates@[i]).disabled
        == !enabled by {
        assert(told[i] == plan.updates@[i]@);
    }
    if all.contains(e) {
        let k = choose|k: int| 0 <= k < all.len() && all[k] == e;
        assert(told[k] == plan.updates@[k]@);
    }
    if exists|i: int| 0 <= i < plan.updates@.len() && (#[trigger] plan.updates@[i]).id@ == id {
        let i = choose|i: int| 0 <= i < plan.updates@.len() && (#[trigger] plan.updates@[i]).id@ == id;
        assert(told[i] == plan.updates@[i]@);
        assert(all[i] == e);
    }
}

/// A plugin can be switched only where the configuration could be read, it is installed, declares a
/// bundle and has a row that no expression controls, and the patch file could be read.
pub proof fn law_when_a_plugin_can_be_switched(
    package: &str,
    enabled: bool,
    degraded: Option<&str>,
    manifest: &ProfileManifest,
    declares: bool,
    sections: &Vec<DumpSection>,
    registry: &Registry,
    path: &str,
    patch: Result<Option<String>, String>,
    r: Result<StatePlan, PluginError>,
)
    requires
        manifest.wf(),
        call_ensures(
            plan_state,
            (package, enabled, degraded, manifest, declares, sections, registry, path, patch),
            r,
        ),
    ensures
        r is Ok ==> {
            &&& degraded is None
            &&& manifest.dependencies.lookup(package@) is Some
            &&& declares
            &&& exists|id: Seq<char>| owns(sections@, package@, id) && settled(sections@, id)
            &&& patch is Ok
        },
        degraded is Some || patch is Err ==> r is Err,
        degraded is None && manifest.dependencies.lookup(package@) is None ==> r is Err
            && r->Err_0.kind is IllegalTransition,
{
    if r is Ok {
        let plan = r->Ok_0;
        let first = plan.updates@[0].id@;
        law_every_own_row_is_switched(
            package,
            enabled,
            degraded,
            manifest,
            declares,
            sections,
            registry,
            path,
            patch,
            plan,
            first,
        );
        assert(plan.updates@[0].id@ == first);
        assert(owns(sections@, package@, first) && settled(sections@, first));
    }
}

/// A plugin that is installed as a bundle with a row that no expression controls can be switched: only
/// a patch file that is damaged stands in the way.
pub proof fn law_installed_plugins_can_be_switched(
    package: &str,
    enabled: bool,
    manifest: &ProfileManifest,
    sections: &Vec<DumpSection>,
    registry: &Registry,
    path: &str,
    r: Result<StatePlan, PluginError>,
    id: Seq<char>,
)
    requires
        manifest.wf(),
        manifest.dependencies.lookup(package@) is Some,
        owns(sections@, package@, id),
        settled(sections@, id),
        call_ensures(
            plan_state,
            (
                package,
                enabled,
                None::<&str>,
                manifest,
                true,
                sections,
                registry,
                path,
                Ok::<Option<String>, String>(None),
            ),
            r,
        ),
    ensures
        r is Err ==> r->Err_0.kind is ManagedBlockConflict,
{
    let ids = owned_rows(sections@, package@);
    let states = states_of(sections@, ids);
    lemma_owned(sections@, package@, id);
    lemma_settled(sections@, id);
    let i = choose|i: int| 0 <= i < ids.len() && ids[i] == id;
    assert(states[i] != RowState::Expression);
    lemma_own_updates(package@, enabled, sections@, id);
    assert(own_updates(package@, enabled, sections@).len() > 0);
    assert(!crate::plugin::state::all_are(states, RowState::Expression));
}

/// On disabling, the rows that are switched back on are those that the package replaced now and those
/// that are remembered; on enabling there are none.
pub proof fn law_replaced_rows_come_back(
    package: &str,
    enabled: bool,
    degraded: Option<&str>,
    manifest: &ProfileManifest,
    declares: bool,
    sections: &Vec<DumpSection>,
    registry: &Registry,
    path: &str,
    patch: Result<Option<String>, String>,
    plan: StatePlan,
    id: Seq<char>,
)
    requires
        manifest.wf(),
        call_ensures(
            plan_state,
            (package, enabled, degraded, manifest, declares, sections, registry, path, patch),
            Ok::<StatePlan, PluginError>(plan),
        ),
    ensures
        model::texts(plan.shadow@).contains(id) <==> !enabled && (replaces(sections@, package@, id)
            || remembers(*registry, package@, id)),
{
    lemma_replaces(sections@, package@, id);
    lemma_remembers(*registry, package@, id);
    if enabled {
        assert(model::texts(plan.shadow@) =~= seq![]);
    }
}

/// The rows that a patch file holds, whether or not it is there.
pub open spec fn rows_in(path: Seq<char>, content: Option<Seq<char>>) -> Seq<EntryText> {
    match block_read(path, content) {
        Ok(Some(rows)) => rows,
        _ => seq![],
    }
}

pub proof fn lemma_says(rows: Seq<EntryText>, id: Seq<char>)
    requires
        ordered(rows),
    ensures
        match managed_laws::row_with(rows, id) {
            Some(e) => says(bare(sorted_rows(rows)), id, Some(e.disabled)),
            None => says(bare(sorted_rows(rows)), id, None),
        },
{
    let sorted = sorted_rows(rows);
    let out = bare(sorted);
    crate::plugin::managed::lemma_rank(rows, id);
    let n = crate::plugin::managed::rank(rows, id);
    assert forall|i: int, j: int| 0 <= i < rows.len() && 0 <= j < rows.len() && rows[i].id == rows[j].id implies i
        == j by {
        if i < j {
            assert(model::precedes(rows[i].id, rows[j].id));
        } else if j < i {
            assert(model::precedes(rows[j].id, rows[i].id));
        }
        crate::text_map::lemma_precedes_total(rows[i].id, rows[j].id);
    }
    assert forall|i: int| 0 <= i < rows.len() && (#[trigger] rows[i]).id == id implies i == n by {
        crate::text_map::lemma_precedes_total(id, id);
        if i < n {
            assert(model::precedes(rows[i].id, id));
        } else if n < i {
            assert(model::precedes(rows[n].id, rows[i].id));
        }
    }
    assert(managed_laws::distinct_ids(rows));
    match managed_laws::row_with(rows, id) {
        Some(e) => {
            assert(rows.contains(e));
            lemma_sorted_holds(rows, e);
            let m = choose|m: int| 0 <= m < sorted.len() && sorted[m] == e;
            assert(out[m].id == id);
            assert forall|i: int| 0 <= i < out.len() && (#[trigger] out[i]).id == id implies out[i].disabled
                == e.disabled by {
                lemma_sorted_holds(rows, sorted[i]);
                assert(sorted.contains(sorted[i]));
                let j = choose|j: int| 0 <= j < rows.len() && rows[j] == sorted[i];
                assert(j == n);
            }
        },
        None => {
            assert forall|i: int| 0 <= i < out.len() implies (#[trigger] out[i]).id != id by {
                lemma_sorted_holds(rows, sorted[i]);
                assert(sorted.contains(sorted[i]));
                let j = choose|j: int| 0 <= j < rows.len() && rows[j] == sorted[i];
                assert(rows[j].id == out[i].id);
            }
        },
    }
}

/// Once a switch is written, the patch file says of every row what the switch is for: the package's
/// own rows are in the wanted state; on disabling, the rows that it replaced are on; on enabling,
/// those that were remembered are gone; and every other row is as it was.
pub proof fn law_a_switch_shows_in_the_file(
    package: &str,
    enabled: bool,
    degraded: Option<&str>,
    manifest: &ProfileManifest,
    declares: bool,
    sections: &Vec<DumpSection>,
    registry: &Registry,
    path: &str,
    content: Option<String>,
    plan: StatePlan,
    id: Seq<char>,
)
    requires
        manifest.wf(),
        single_line(package@),
        call_ensures(
            plan_state,
            (
                package,
                enabled,
                degraded,
                manifest,
                declares,
                sections,
                registry,
                path,
                Ok::<Option<String>, String>(content),
            ),
            Ok::<StatePlan, PluginError>(plan),
        ),
    ensures
        ({
            let was = rows_in(path@, model::text_of(content));
            let now = rows_in(path@, plan.edit@.content);
            let own = owns(sections@, package@, id) && settled(sections@, id);
            let back = replaces(sections@, package@, id) || remembers(*registry, package@, id);
            &&& own && (enabled || !remembers(*registry, package@, id)) ==> says(
                now,
                id,
                Some(!enabled),
            )
            &&& !enabled && back ==> says(now, id, Some(false))
            &&& enabled && !own && remembers(*registry, package@, id) ==> says(now, id, None)
            &&& !own && !back ==> match last_with(was, id) {
                Some(e) => says(now, id, Some(e.disabled)),
                None => says(now, id, None),
            }
        }),
{
    let was = block_read(path@, model::text_of(content))->Ok_0;
    let shadow = shadow_ids(sections@, package@, enabled, *registry);
    let kept = remembered(*registry, package@);
    let own = own_updates(package@, enabled, sections@);
    let entries = rows_after(was, package@, enabled, sections@, shadow, kept);
    let updates = own + switched_on(shadow, package@);
    let gone = if enabled {
        kept
    } else {
        seq![]
    };
    let start = match was {
        Some(rows) => rows,
        None => seq![],
    };
    lemma_own_last(package@, enabled, sections@, id);
    lemma_switched_on(shadow, package@, id);
    lemma_last_of_two(own, switched_on(shadow, package@), id);
    law_upsert(start, updates, gone, id);
    lemma_replaces(sections@, package@, id);
    lemma_remembers(*registry, package@, id);
    assert(own.len() > 0) by {
        assert(entry_texts(plan.updates@).len() == plan.updates@.len());
    }
    // Something is written, and each row keeps to its line.
    let first = own[0];
    lemma_own_updates(package@, enabled, sections@, first.id);
    law_upsert(start, updates, gone, first.id);
    lemma_last_with(updates, first.id);
    assert(updates[0] == first);
    assert(entries.len() > 0);
    lemma_read_rows_are_bare(path@, model::text_of(content));
    assert forall|i: int| 0 <= i < entries.len() implies #[trigger] entries[i].package is None
        || single_line(entries[i].package->0) by {
        lemma_rows_after_from(start, updates, gone, i);
        if updates.contains(entries[i]) {
            let k = choose|k: int| 0 <= k < updates.len() && updates[k] == entries[i];
            if k < own.len() {
                assert(own[k].package == Some(package@));
            } else {
                assert(switched_on(shadow, package@)[k - own.len()] == updates[k]);
            }
        }
    }
    law_rows_are_read_back(path@, model::text_of(content), entries);
    lemma_says(entries, id);
}

/// The rows that are read carry no package.
proof fn lemma_read_rows_are_bare(path: Seq<char>, content: Option<Seq<char>>)
    ensures
        forall|i: int|
            0 <= i < rows_in(path, content).len() ==> (#[trigger] rows_in(path, content)[i]).package
                is None,
{
    if let Some(c) = content {
        let f = crate::plugin::managed::managed_family();
        if let crate::plugin::managed::Place::Block { before, block, after } =
            crate::plugin::managed::place(c, f.begin(), f.end()) {
            lemma_parsed_rows_are_bare(model::lines(block));
        }
    }
}

proof fn lemma_parsed_rows_are_bare(lines: Seq<Seq<char>>)
    ensures
        crate::plugin::managed::parse_rows(lines) matches Ok(rows) ==> forall|i: int|
            0 <= i < rows.len() ==> (#[trigger] rows[i]).package is None,
    decreases lines.len(),
{
    if lines.len() > 0 {
        lemma_parsed_rows_are_bare(lines.drop_last());
        reveal(crate::plugin::managed::parse_row);
    }
}

/// A row that is left after an update was there before or is one of the new ones.
pub proof fn lemma_rows_after_from(
    start: Seq<EntryText>,
    updates: Seq<EntryText>,
    gone: Seq<Seq<char>>,
    i: int,
)
    requires
        0 <= i < upserted(start, updates, gone).len(),
    ensures
        updates.contains(upserted(start, updates, gone)[i]) || start.contains(
            upserted(start, updates, gone)[i],
        ),
{
    let out = upserted(start, updates, gone);
    let id = out[i].id;
    law_upsert(start, updates, gone, id);
    lemma_last_with(updates, id);
    lemma_last_with(start, id);
    crate::plugin::managed::lemma_rank(out, id);
    let n = crate::plugin::managed::rank(out, id);
    crate::text_map::lemma_precedes_total(id, id);
    if i < n {
        assert(model::precedes(out[i].id, id));
    } else if n < i {
        assert(model::precedes(out[n].id, out[i].id));
    }
    assert(managed_laws::row_with(out, id) == Some(out[i]));
}

// ---- After the write ----

proof fn lemma_first_unmet(
    sections: Seq<DumpSection>,
    ids: Seq<Seq<char>>,
    on: bool,
    missing: Seq<char>,
    unmet: Seq<char>,
    i: int,
)
    requires
        0 <= i <= ids.len(),
    ensures
        first_unmet(sections, ids, on, missing, unmet, i) is None <==> forall|k: int|
            i <= k < ids.len() ==> row_with(sections, #[trigger] ids[k]) is Some && (row_with(
                sections,
                ids[k],
            )->0).enabled() == Some(on),
    decreases ids.len() - i,
{
    if i < ids.len() {
        lemma_first_unmet(sections, ids, on, missing, unmet, i + 1);
    }
}

/// The row with the given id is there, and is on or off as asked.
pub open spec fn stands(sections: Seq<DumpSection>, id: Seq<char>, on: bool) -> bool {
    exists|s: int, k: int|
        #![trigger sections[s].rows@[k]]
        counts(sections, s, k) && sections[s].rows@[k].id@ == id && (if on {
            is_on(sections[s].rows@[k])
        } else {
            is_off(sections[s].rows@[k])
        })
}

proof fn lemma_stands(sections: Seq<DumpSection>, id: Seq<char>, on: bool)
    ensures
        stands(sections, id, on) <==> row_with(sections, id) is Some && (row_with(
            sections,
            id,
        )->0).enabled() == Some(on),
{
    lemma_found_row(sections, id);
    if stands(sections, id, on) {
        let (s, k) = choose|s: int, k: int|
            #![trigger sections[s].rows@[k]]
            counts(sections, s, k) && sections[s].rows@[k].id@ == id && (if on {
                is_on(sections[s].rows@[k])
            } else {
                is_off(sections[s].rows@[k])
            });
        lemma_counting_row(sections, s, k);
    }
}

/// A switch counts as done exactly where the service shows every row that was written in the wanted
/// state, and every row that was to come back as on.
pub proof fn law_a_switch_is_verified_by_what_is_shown(
    plan: &StatePlan,
    sections: &Vec<DumpSection>,
    r: Result<(), PluginError>,
)
    requires
        call_ensures(StatePlan::verify, (plan, sections), r),
    ensures
        r is Ok <==> {
            &&& forall|i: int|
                0 <= i < plan.updates@.len() ==> stands(
                    sections@,
                    (#[trigger] plan.updates@[i]).id@,
                    plan.enabled,
                )
            &&& forall|i: int|
                0 <= i < plan.shadow@.len() ==> stands(
                    sections@,
                    (#[trigger] plan.shadow@[i])@,
                    true,
                )
        },
        r is Err ==> r->Err_0.kind is VerificationFailed,
{
    let ids = crate::plugin::switch::entry_ids(plan.updates@);
    let back = model::texts(plan.shadow@);
    lemma_first_unmet(
        sections@,
        ids,
        plan.enabled,
        "行 "@,
        " 的 disabled 未按期望生效"@,
        0,
    );
    lemma_first_unmet(sections@, back, true, "影子恢复行 "@, " 未恢复启用"@, 0);
    assert forall|i: int| 0 <= i < plan.updates@.len() implies (stands(
        sections@,
        (#[trigger] plan.updates@[i]).id@,
        plan.enabled,
    ) <==> row_with(sections@, ids[i]) is Some && (row_with(sections@, ids[i])->0).enabled() == Some(
        plan.enabled,
    )) by {
        lemma_stands(sections@, ids[i], plan.enabled);
    }
    assert forall|i: int| 0 <= i < plan.shadow@.len() implies (stands(
        sections@,
        (#[trigger] plan.shadow@[i])@,
        true,
    ) <==> row_with(sections@, back[i]) is Some && (row_with(sections@, back[i])->0).enabled()
        == Some(true)) by {
        lemma_stands(sections@, back[i], true);
    }
    assert(ids.len() == plan.updates@.len() && back.len() == plan.shadow@.len());
    if r is Ok {
        assert forall|i: int| 0 <= i < plan.updates@.len() implies stands(
            sections@,
            (#[trigger] plan.updates@[i]).id@,
            plan.enabled,
        ) by {
            assert(row_with(sections@, ids[i]) is Some);
        }
        assert forall|i: int| 0 <= i < plan.shadow@.len() implies stands(
            sections@,
            (#[trigger] plan.shadow@[i])@,
            true,
        ) by {
            assert(row_with(sections@, back[i]) is Some);
        }
    } else {
        if first_unmet(sections@, ids, plan.enabled, "行 "@, " 的 disabled 未按期望生效"@, 0) is Some {
            let k = choose|k: int|
                0 <= k < ids.len() && !(row_with(sections@, #[trigger] ids[k]) is Some && (row_with(
                    sections@,
                    ids[k],
                )->0).enabled() == Some(plan.enabled));
            assert(!stands(sections@, plan.updates@[k].id@, plan.enabled));
        } else {
            let k = choose|k: int|
                0 <= k < back.len() && !(row_with(sections@, #[trigger] back[k]) is Some && (row_with(
                    sections@,
                    back[k],
                )->0).enabled() == Some(true));
            assert(!stands(sections@, plan.shadow@[k]@, true));
        }
    }
}

/// Taking a switch back makes the patch file say of every row what it said before.
pub proof fn law_a_switch_can_be_taken_back(
    plan: &StatePlan,
    path: &str,
    content: Option<&str>,
    r: Result<BlockEdit, String>,
    id: Seq<char>,
)
    requires
        call_ensures(StatePlan::rollback, (plan, path, content), r),
        r is Ok,
        plan.previous is Some,
        (plan.previous->0)@.len() > 0,
        ordered(entry_texts((plan.previous->0)@)),
        forall|i: int|
            0 <= i < (plan.previous->0)@.len() ==> (#[trigger] (plan.previous->0)@[i]).package is None,
    ensures
        match last_with(entry_texts((plan.previous->0)@), id) {
            Some(e) => says(rows_in(path@, r->Ok_0@.content), id, Some(e.disabled)),
            None => says(rows_in(path@, r->Ok_0@.content), id, None),
        },
{
    let entries = entry_texts((plan.previous->0)@);
    assert(entries.len() == (plan.previous->0)@.len());
    assert forall|i: int| 0 <= i < entries.len() implies #[trigger] entries[i].package is None
        || single_line(entries[i].package->0) by {
        assert(entries[i] == (plan.previous->0)@[i]@);
    }
    law_rows_are_read_back(path@, model::slice_of(content), entries);
    lemma_says(entries, id);
    lemma_last_with(entries, id);
    crate::plugin::managed::lemma_rank(entries, id);
    let n = crate::plugin::managed::rank(entries, id);
    crate::text_map::lemma_precedes_total(id, id);
    if let Some(e) = last_with(entries, id) {
        let k = choose|k: int| 0 <= k < entries.len() && entries[k] == e;
        if k < n {
            assert(model::precedes(entries[k].id, id));
        } else if n < k {
            assert(model::precedes(entries[n].id, entries[k].id));
        }
    }
}

/// What the registry holds after a switch: the desired state, the package's rows and the rows that
/// came back; all other records are as they were.
pub proof fn law_switches_are_recorded(plan: &StatePlan, registry: &mut Registry, i: int)
    requires
        call_ensures(StatePlan::record, (plan, registry), ()),
        0 <= i < old(registry).plugins@.len(),
    ensures
        final(registry).plugins@.len() == old(registry).plugins@.len(),
        old(registry).plugins@[i].package@ != plan.package@ ==> final(registry).plugins@[i] == old(
            registry,
        ).plugins@[i],
        old(registry).plugins@[i].package@ == plan.package@ && (forall|j: int|
            0 <= j < i ==> (#[trigger] old(registry).plugins@[j]).package@ != plan.package@) ==> {
            let now = final(registry).plugins@[i];
            &&& now.desired is Some
            &&& plan.enabled ==> (now.desired->0)@ == "enabled"@
            &&& !plan.enabled ==> (now.desired->0)@ == "disabled"@
            &&& model::texts(now.shadow_restored@) == model::texts(plan.shadow@)
            &&& model::texts(now.rows@) == model::texts(plan.row_ids@)
            &&& now.origin == old(registry).plugins@[i].origin
            &&& now.source == old(registry).plugins@[i].source
        },
{
    lemma_position_found(old(registry).plugins@, plan.package@);
}

/// The user is told of a change exactly where the file was written, and the service is never
/// restarted for a switch.
pub proof fn law_switches_need_no_restart(plan: &StatePlan, r: OpResult)
    requires
        call_ensures(StatePlan::result, (plan,), r),
    ensures
        !r.restarted,
        r.status is Changed <==> plan.edit@.written,
        r.package is Some && (r.package->0)@ == plan.package@,
{
}

} // verus!
