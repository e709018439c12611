//! What holds of every listing, addition, switch and removal of tool servers.

use crate::mcp::{
    build_views, list, marks_of, name_count, named_count, named_row, shown, shows_at, McpBlock,
    McpDeclare, McpDirective, McpListResult, McpMark, McpRow, McpServerView, McpTransport, before,
    in_order,
};
use crate::mcp_change::{
    check_write, other_declares, other_directives, plan_add_spec, plan_remove, plan_write,
    row_off, set_enabled, write_verdict, Evidence, Expected, FilePlan, McpAddSpec, McpStep,
    McpWrite, check_add_spec, require_prereq, valid_name, validate_server_name,
    validate_transport_required, validate_unique_server_name,
};
use crate::mcp::{fingerprint_outside, mcp_family};
use crate::mcp_laws::lemma_directive;
use crate::mcp_text::{directive_texts, parse_block, render_block};
use crate::mcp_text_laws::{kept_block, law_written_servers_are_read_back};
use crate::model;
use crate::plugin::managed::{apply_family, BlockEdit};
use crate::plugin::state::PluginError;
use crate::yaml_text::value_in;
use vstd::prelude::*;

verus! {

// ---- Rows and entries, by where they stand ----

pub proof fn lemma_named_row(tree: Seq<McpRow>, name: Seq<char>, i: int)
    requires
        0 <= i <= tree.len(),
    ensures
        match named_row(tree, name, i) {
            Some(k) => i <= k < tree.len() && model::text_of(tree[k].server_name) == Some(name) && (
            forall|j: int|
                i <= j < k ==> model::text_of((#[trigger] tree[j]).server_name) != Some(name)),
            None => forall|j: int|
                i <= j < tree.len() ==> model::text_of((#[trigger] tree[j]).server_name) != Some(
                    name,
                ),
        },
    decreases tree.len() - i,
{
    if i < tree.len() && model::text_of(tree[i].server_name) != Some(name) {
        lemma_named_row(tree, name, i + 1);
    }
}

pub proof fn lemma_declaration(block: McpBlock, row_id: Seq<char>, i: int)
    requires
        0 <= i <= block.declares@.len(),
    ensures
        block.declaration(row_id, i) is Some <==> exists|k: int|
            i <= k < block.declares@.len() && (#[trigger] block.declares@[k]).row_id@ == row_id,
    decreases block.declares@.len() - i,
{
    if i < block.declares@.len() && block.declares@[i].row_id@ != row_id {
        lemma_declaration(block, row_id, i + 1);
        if block.declaration(row_id, i) is Some {
            let k = choose|k: int|
                i + 1 <= k < block.declares@.len() && (#[trigger] block.declares@[k]).row_id@ == row_id;
            assert(block.declares@[k].row_id@ == row_id);
        }
    }
}

/// The block declares the row.
pub open spec fn declares_row(block: McpBlock, row_id: Seq<char>) -> bool {
    exists|k: int| 0 <= k < block.declares@.len() && (#[trigger] block.declares@[k]).row_id@ == row_id
}

/// The block switches the row.
pub open spec fn directs_row(block: McpBlock, row_id: Seq<char>) -> bool {
    exists|k: int|
        0 <= k < block.directives@.len() && (#[trigger] block.directives@[k]).row_id@ == row_id
}

proof fn lemma_directs(block: McpBlock, row_id: Seq<char>)
    ensures
        directs_row(block, row_id) <==> block.directive(row_id, 0) is Some,
{
    lemma_directive(block, row_id, 0);
    if directs_row(block, row_id) {
        let k = choose|k: int|
            0 <= k < block.directives@.len() && (#[trigger] block.directives@[k]).row_id@ == row_id;
        assert(block.directives@[k].row_id@ == row_id);
    }
}

// ---- Adding ----

/// A server is added only under a name of 1 to 32 letters, digits, underscores and hyphens that no
/// row of the service has, and for a row that the block does not declare yet. What the block held
/// stays as it was; the new server comes behind it, with the configuration that was asked for, on or
/// off as was asked.
pub proof fn law_what_an_addition_writes(
    spec: &McpAddSpec,
    transport: McpTransport,
    tree: &Vec<McpRow>,
    block: &McpBlock,
    w: McpWrite,
    i: int,
)
    requires
        call_ensures(
            plan_add_spec,
            (spec, transport, tree, block),
            Ok::<McpWrite, PluginError>(w),
        ),
    ensures
        ({
            let name = model::trim(spec.server_name@);
            let n = block.declares@.len() as int;
            let m = block.directives@.len() as int;
            let new = w.next.declares@[n];
            &&& 1 <= name.len() <= 32
            &&& 0 <= i < name.len() ==> model::ascii_alnum(name[i]) || name[i] == '_' || name[i] == '-'
            &&& 0 <= i < tree@.len() ==> model::text_of(tree@[i].server_name) != Some(name)
            &&& !declares_row(*block, new.row_id@)
            &&& w.next.declares@.len() == n + 1
            &&& w.next.directives@.len() == m + 1
            &&& 0 <= i < n ==> w.next.declares@[i] == block.declares@[i]
            &&& 0 <= i < m ==> w.next.directives@[i] == block.directives@[i]
            &&& model::text_of(new.server_name) == Some(name)
            &&& spec.row_id is Some && !model::blank((spec.row_id->0)@) ==> new.row_id@
                == model::trim((spec.row_id->0)@)
            &&& spec.row_id is None || model::blank((spec.row_id->0)@) ==> new.row_id@ == "mcp-"@
                + name
            &&& spec.raw_config is None ==> new.transport == Some(transport)
            &&& w.next.directives@[m].row_id@ == new.row_id@
            &&& w.next.directives@[m].disabled == spec.start_disabled
            &&& w.expected is Some
            &&& w.expected->0 matches Expected::RowDisabled(row, off) && row@ == new.row_id@ && off
                == spec.start_disabled
            &&& !w.done.restarted
        }),
{
    let name = model::trim(spec.server_name@);
    lemma_named_row(tree@, name, 0);
    let n = block.declares@.len() as int;
    let m = block.directives@.len() as int;
    lemma_declaration(*block, w.next.declares@[n].row_id@, 0);
    assert(w.next.declares@[n] == w.next.declares@.last());
    assert(w.next.directives@[m] == w.next.directives@.last());
    if 0 <= i < name.len() {
        assert(crate::mcp_change::name_char(name[i]));
    }
    if 0 <= i < n {
        assert(w.next.declares@.drop_last()[i] == w.next.declares@[i]);
    }
    if 0 <= i < m {
        assert(w.next.directives@.drop_last()[i] == w.next.directives@[i]);
    }
}

/// A configuration that was given as a whole decides for itself: the new server has the transport
/// that it names, its own name, and what that transport needs.
pub proof fn law_given_configurations_decide(
    spec: &McpAddSpec,
    transport: McpTransport,
    tree: &Vec<McpRow>,
    block: &McpBlock,
    w: McpWrite,
)
    requires
        call_ensures(
            plan_add_spec,
            (spec, transport, tree, block),
            Ok::<McpWrite, PluginError>(w),
        ),
        spec.raw_config is Some,
    ensures
        ({
            let new = w.next.declares@.last();
            let named = value_in(new.config_raw@, "transport"@);
            let needed = value_in(
                new.config_raw@,
                if named == Some("stdio"@) {
                    "command"@
                } else {
                    "url"@
                },
            );
            &&& named == Some("stdio"@) || named == Some("streamable-http"@)
            &&& new.transport == Some(McpTransport::Stdio) <==> named == Some("stdio"@)
            &&& new.transport == Some(McpTransport::StreamableHttp) <==> named == Some(
                "streamable-http"@,
            )
            &&& value_in(new.config_raw@, "serverName"@) == Some(model::trim(spec.server_name@))
            &&& needed is Some && !model::blank(needed->0)
        }),
{
    reveal_strlit("stdio");
    reveal_strlit("streamable-http");
    assert("stdio"@.len() != "streamable-http"@.len());
}

/// The configuration of a new server is the one that was asked for: made up of the single options, or
/// given as a whole, but never of both.
pub proof fn law_which_configuration_is_written(
    spec: &McpAddSpec,
    transport: McpTransport,
    tree: &Vec<McpRow>,
    block: &McpBlock,
    w: McpWrite,
    made: String,
    raw: &str,
    given: String,
    checked: Result<McpTransport, PluginError>,
)
    requires
        call_ensures(
            plan_add_spec,
            (spec, transport, tree, block),
            Ok::<McpWrite, PluginError>(w),
        ),
        call_ensures(crate::mcp_change::render_structured_config, (spec, transport), made),
        spec.raw_config is Some ==> raw@ == (spec.raw_config->0)@,
        call_ensures(crate::yaml_text::normalize_config, (raw,), given),
        call_ensures(check_add_spec, (spec,), checked),
    ensures
        spec.raw_config is None ==> w.next.declares@.last().config_raw@ == made@,
        spec.raw_config is Some ==> w.next.declares@.last().config_raw@ == given@,
        checked is Ok && spec.raw_config is Some ==> spec.command is None && spec.url is None
            && spec.args@.len() == 0 && spec.env@.len() == 0 && spec.headers@.len() == 0
            && spec.cwd is None,
        checked is Ok ==> model::trim(spec.transport@) == (if checked->Ok_0 is Stdio {
            "stdio"@
        } else {
            "streamable-http"@
        }),
{
}

// ---- Switching ----

/// A server can be switched exactly where the service has a row of its name whose state no expression
/// decides. Afterwards the block switches that row as asked, and everything else in it is as it was;
/// nothing is written only where the block says so already.
pub proof fn law_what_a_switch_writes(
    server_name: &str,
    enabled: bool,
    tree: &Vec<McpRow>,
    block: &McpBlock,
    r: Result<McpStep, PluginError>,
    at: int,
    i: int,
)
    requires
        call_ensures(set_enabled, (server_name, enabled, tree, block), r),
        0 <= at < tree@.len(),
        model::text_of(tree@[at].server_name) == Some(server_name@),
        forall|j: int|
            0 <= j < at ==> model::text_of((#[trigger] tree@[j]).server_name) != Some(server_name@),
    ensures
        r is Ok <==> tree@[at].disabled is Some,
        r is Ok ==> match r->Ok_0 {
            McpStep::Write(w) => {
                let row = tree@[at].row_id@;
                let k = w.next.directive(row, 0);
                &&& w.next.declares@ == block.declares@
                &&& exists|k: int|
                    0 <= k < w.next.directives@.len() && (#[trigger] w.next.directives@[k]).row_id@ == row
                        && w.next.directives@[k].disabled == !enabled && (forall|j: int|
                        0 <= j < k ==> (#[trigger] w.next.directives@[j]).row_id@ != row)
                &&& 0 <= i < block.directives@.len() && block.directives@[i].row_id@ != row
                    ==> w.next.directives@[i] == block.directives@[i]
                &&& w.next.directives@.len() == block.directives@.len() + (if directs_row(
                    *block,
                    row,
                ) {
                    0int
                } else {
                    1int
                })
                &&& w.expected is Some
                &&& w.expected->0 matches Expected::RowDisabled(id, off) && id@ == row && off
                    == !enabled
                &&& !w.done.restarted
            },
            McpStep::Settled(done) => {
                &&& directs_row(*block, tree@[at].row_id@)
                &&& exists|k: int|
                    0 <= k < block.directives@.len() && (#[trigger] block.directives@[k]).row_id@
                        == tree@[at].row_id@ && block.directives@[k].disabled == !enabled
                &&& !done.restarted
            },
        },
{
    lemma_named_row(tree@, server_name@, 0);
    let found = named_row(tree@, server_name@, 0)->0;
    if at < found {
        assert(model::text_of(tree@[at].server_name) != Some(server_name@));
    } else if found < at {
        assert(model::text_of(tree@[found].server_name) != Some(server_name@));
    }
    let row = tree@[at].row_id@;
    lemma_directive(*block, row, 0);
    lemma_directs(*block, row);
    if r is Ok {
        match r->Ok_0 {
            McpStep::Write(w) => {
                let now = w.next.directives@;
                match block.directive(row, 0) {
                    Some(k) => {
                        assert(now[k].row_id@ == row);
                        assert forall|j: int| 0 <= j < k implies (#[trigger] now[j]).row_id@ != row by {
                            assert(now[j] == block.directives@[j]);
                        }
                    },
                    None => {
                        let k = block.directives@.len() as int;
                        assert(now[k].row_id@ == row);
                        assert forall|j: int| 0 <= j < k implies (#[trigger] now[j]).row_id@ != row by {
                            assert(now[j] == block.directives@[j]);
                        }
                    },
                }
            },
            McpStep::Settled(done) => {
                let k = block.directive(row, 0)->0;
                assert(block.directives@[k].row_id@ == row);
            },
        }
    }
}

/// A server that the service does not have cannot be switched.
pub proof fn law_unknown_servers_are_not_switched(
    server_name: &str,
    enabled: bool,
    tree: &Vec<McpRow>,
    block: &McpBlock,
    r: Result<McpStep, PluginError>,
)
    requires
        call_ensures(set_enabled, (server_name, enabled, tree, block), r),
        forall|j: int|
            0 <= j < tree@.len() ==> model::text_of((#[trigger] tree@[j]).server_name) != Some(
                server_name@,
            ),
    ensures
        r is Err && r->Err_0.kind is NotFound,
{
    lemma_named_row(tree@, server_name@, 0);
}

// ---- Removing ----

proof fn lemma_other_declares(v: Seq<McpDeclare>, row_id: Seq<char>)
    ensures
        forall|d: McpDeclare| #[trigger]
            other_declares(v, row_id).contains(d) <==> v.contains(d) && d.row_id@ != row_id,
    decreases v.len(),
{
    let out = other_declares(v, row_id);
    if v.len() > 0 {
        let init = v.drop_last();
        let rest = other_declares(init, row_id);
        let n = v.len() - 1;
        lemma_other_declares(init, row_id);
        assert forall|d: McpDeclare| #[trigger] out.contains(d) <==> v.contains(d) && d.row_id@
            != row_id by {
            if v.contains(d) {
                let k = choose|k: int| 0 <= k < v.len() && v[k] == d;
                if k < n {
                    assert(init[k] == d);
                }
            }
            if init.contains(d) {
                let k = choose|k: int| 0 <= k < init.len() && init[k] == d;
                assert(v[k] == d);
            }
            if v.last().row_id@ != row_id {
                assert(out[rest.len() as int] == v.last());
                if rest.contains(d) {
                    let k = choose|k: int| 0 <= k < rest.len() && rest[k] == d;
                    assert(out[k] == d);
                }
                if out.contains(d) {
                    let k = choose|k: int| 0 <= k < out.len() && out[k] == d;
                    if k < rest.len() {
                        assert(rest[k] == d);
                    } else {
                        assert(v[n] == d);
                    }
                }
            }
        }
    }
}

proof fn lemma_other_directives(v: Seq<McpDirective>, row_id: Seq<char>)
    ensures
        forall|d: McpDirective| #[trigger]
            other_directives(v, row_id).contains(d) <==> v.contains(d) && d.row_id@ != row_id,
    decreases v.len(),
{
    let out = other_directives(v, row_id);
    if v.len() > 0 {
        let init = v.drop_last();
        let rest = other_directives(init, row_id);
        let n = v.len() - 1;
        lemma_other_directives(init, row_id);
        assert forall|d: McpDirective| #[trigger] out.contains(d) <==> v.contains(d) && d.row_id@
            != row_id by {
            if v.contains(d) {
                let k = choose|k: int| 0 <= k < v.len() && v[k] == d;
                if k < n {
                    assert(init[k] == d);
                }
            }
            if init.contains(d) {
                let k = choose|k: int| 0 <= k < init.len() && init[k] == d;
                assert(v[k] == d);
            }
            if v.last().row_id@ != row_id {
                assert(out[rest.len() as int] == v.last());
                if rest.contains(d) {
                    let k = choose|k: int| 0 <= k < rest.len() && rest[k] == d;
                    assert(out[k] == d);
                }
                if out.contains(d) {
                    let k = choose|k: int| 0 <= k < out.len() && out[k] == d;
                    if k < rest.len() {
                        assert(rest[k] == d);
                    } else {
                        assert(v[n] == d);
                    }
                }
            }
        }
    }
}

/// Removing a server that the block declares takes away its declaration and what switches it;
/// removing another takes away only what switches it. Nothing else leaves the block, and nothing
/// comes into it.
pub proof fn law_what_a_removal_writes(
    server_name: &str,
    row: Option<&McpRow>,
    block: &McpBlock,
    r: Result<McpStep, PluginError>,
    declared: McpDeclare,
    directed: McpDirective,
)
    requires
        call_ensures(plan_remove, (server_name, row, block), r),
    ensures
        r is Ok <==> row is Some,
        r is Ok ==> match r->Ok_0 {
            McpStep::Write(w) => {
                let id = (row->0).row_id@;
                let own = declares_row(*block, id);
                &&& own || directs_row(*block, id)
                &&& w.next.declares@.contains(declared) <==> block.declares@.contains(declared) && !(
                own && declared.row_id@ == id)
                &&& w.next.directives@.contains(directed) <==> block.directives@.contains(directed)
                    && directed.row_id@ != id
                &&& !w.done.restarted
                &&& !own ==> w.expected is Some && w.next.declares@ == block.declares@
            },
            McpStep::Settled(done) => !declares_row(*block, (row->0).row_id@) && !directs_row(
                *block,
                (row->0).row_id@,
            ) && !done.restarted,
        },
{
    if row is Some {
        let id = (row->0).row_id@;
        lemma_declaration(*block, id, 0);
        lemma_directs(*block, id);
        lemma_other_declares(block.declares@, id);
        lemma_other_directives(block.directives@, id);
    }
}

// ---- The block as text ----

/// A block that is written out is read as it was: the same servers with the same configurations, and
/// the same rows switched the same way.
pub proof fn law_blocks_are_read_as_written(
    block: &McpBlock,
    text: String,
    body: &str,
    r: Result<McpBlock, String>,
    i: int,
)
    requires
        kept_block(*block),
        call_ensures(render_block, (block,), Some(text)),
        body@ == text@,
        call_ensures(parse_block, (body,), r),
    ensures
        r is Ok,
        r->Ok_0.declares@.len() == block.declares@.len(),
        r->Ok_0.directives@.len() == block.directives@.len(),
        0 <= i < block.declares@.len() ==> {
            let was = block.declares@[i];
            let now = r->Ok_0.declares@[i];
            &&& now.row_id@ == was.row_id@
            &&& model::text_of(now.server_name) == model::text_of(was.server_name)
            &&& now.transport == was.transport
            &&& now.config_raw@ == was.config_raw@
        },
        0 <= i < block.directives@.len() ==> r->Ok_0.directives@[i].row_id@
            == block.directives@[i].row_id@ && r->Ok_0.directives@[i].disabled
            == block.directives@[i].disabled,
{
    law_written_servers_are_read_back(*block);
    let a = directive_texts(block.directives@);
    let b = directive_texts(r->Ok_0.directives@);
    assert(a == b);
    assert(a.len() == block.directives@.len() && b.len() == r->Ok_0.directives@.len());
    if 0 <= i < block.directives@.len() {
        assert(a[i] == b[i]);
    }
}

/// The block is written away exactly where it says nothing.
pub proof fn law_empty_blocks_are_not_written(block: &McpBlock, r: Option<String>)
    requires
        call_ensures(render_block, (block,), r),
    ensures
        r is None <==> block.declares@.len() == 0 && block.directives@.len() == 0,
{
}

// ---- Checking a write ----

proof fn lemma_row_off(tree: Seq<McpRow>, row_id: Seq<char>, i: int, at: int)
    requires
        0 <= i <= at < tree.len(),
        tree[at].row_id@ == row_id,
        forall|j: int| i <= j < at ==> (#[trigger] tree[j]).row_id@ != row_id,
    ensures
        row_off(tree, row_id, i) == tree[at].disabled,
    decreases at - i,
{
    if i < at {
        lemma_row_off(tree, row_id, i + 1, at);
    }
}

/// A write that does not leave the row as it was meant to be is found out: the service has to show
/// the row in the wanted state.
pub proof fn law_rows_are_checked_after_a_write(
    print: &str,
    after: &str,
    row_id: String,
    off: bool,
    tree: Vec<McpRow>,
    r: Vec<String>,
    at: int,
)
    requires
        call_ensures(
            check_write,
            (
                print,
                after,
                &(Evidence::Tree { row_id, off, tree: Ok::<Vec<McpRow>, PluginError>(tree) }),
            ),
            r,
        ),
        0 <= at < tree@.len(),
        tree@[at].row_id@ == row_id@,
        forall|j: int| 0 <= j < at ==> (#[trigger] tree@[j]).row_id@ != row_id@,
    ensures
        tree@[at].disabled != Some(off) ==> r@.len() > 0,
        r@.len() == 0 ==> tree@[at].disabled == Some(off),
{
    lemma_row_off(tree@, row_id@, 0, at);
    assert(model::texts(r@).len() == r@.len());
}

/// What cannot be read back, and a row that the block still switches, count as failures of the write;
/// and a write holds exactly where there is no failure.
pub proof fn law_writes_hold_without_failures(
    print: &str,
    after: &str,
    row_id: String,
    block: McpBlock,
    error: PluginError,
    left: Vec<String>,
    unread: Vec<String>,
    failures: Vec<String>,
    restore: Option<&str>,
    verdict: Result<(), PluginError>,
)
    requires
        call_ensures(
            check_write,
            (
                print,
                after,
                &(Evidence::Block { row_id, block: Ok::<McpBlock, PluginError>(block) }),
            ),
            left,
        ),
        call_ensures(
            check_write,
            (
                print,
                after,
                &(Evidence::Block { row_id, block: Err::<McpBlock, PluginError>(error) }),
            ),
            unread,
        ),
        call_ensures(write_verdict, (failures, restore), verdict),
    ensures
        directs_row(block, row_id@) ==> left@.len() > 0,
        unread@.len() > 0,
        verdict is Ok <==> failures@.len() == 0,
{
    lemma_directs(block, row_id@);
    assert(model::texts(left@).len() == left@.len());
    assert(model::texts(unread@).len() == unread@.len());
}

// ---- Listing ----

/// Every server that is listed is a row of the service: its name, row, transport, summary and state
/// are shown as they are, it counts as the launcher's own exactly where the block declares it, and the
/// list is in the order of the names.
pub proof fn law_servers_are_listed_as_they_are(
    profile: &str,
    patch_reload: Option<&str>,
    prereq: bool,
    block: &McpBlock,
    tree: &Vec<McpRow>,
    home: &str,
    r: McpListResult,
    k: int,
)
    requires
        call_ensures(list, (profile, patch_reload, prereq, block, tree, home), r),
        0 <= k < r.servers@.len(),
    ensures
        exists|i: int|
            #![trigger tree@[i]]
            0 <= i < tree@.len() && tree@[i].server_name == Some(r.servers@[k].server_name)
                && r.servers@[k].row_id == tree@[i].row_id && r.servers@[k].transport
                == tree@[i].transport && r.servers@[k].disabled == tree@[i].disabled
                && r.servers@[k].summary == tree@[i].summary && (r.servers@[k].origin is Managed
                <==> declares_row(*block, tree@[i].row_id@)) && (r.servers@[k].marks@.contains(
                McpMark::Dangerous,
            ) <==> tree@[i].dangerous) && (r.servers@[k].marks@.contains(McpMark::Expression)
                <==> tree@[i].disabled is None),
        forall|a: int, b: int|
            0 <= a < b < r.servers@.len() ==> !model::precedes(
                (#[trigger] r.servers@[b]).server_name@,
                (#[trigger] r.servers@[a]).server_name@,
            ),
        r.prereq_installed == prereq && r.profile@ == profile@,
        r.reload is Live <==> patch_reload is Some && (patch_reload->0)@ == "live"@,
{
    let views = r.servers@;
    let order = choose|order: Seq<int>|
        #![trigger in_order(views, order)]
        shown(views, order, *block, home@, tree@) && in_order(views, order);
    assert(shows_at(views[k], order[k], *block, home@, tree@));
    let i = order[k];
    lemma_declaration(*block, tree@[i].row_id@, 0);
    let duplicate = name_count(tree@, views[k].server_name@) > 1;
    lemma_marks(tree@[i], duplicate);
    assert(tree@[i].server_name == Some(views[k].server_name));
    assert forall|a: int, b: int| 0 <= a < b < views.len() implies !model::precedes(
        (#[trigger] views[b]).server_name@,
        (#[trigger] views[a]).server_name@,
    ) by {
        assert(before(views[a].server_name@, order[a], views[b].server_name@, order[b]));
        crate::text_map::lemma_precedes_total(views[a].server_name@, views[b].server_name@);
    }
}

proof fn lemma_marks(row: McpRow, duplicate: bool)
    ensures
        marks_of(row, duplicate).contains(McpMark::Dangerous) <==> row.dangerous,
        marks_of(row, duplicate).contains(McpMark::Expression) <==> row.disabled is None,
        marks_of(row, duplicate).contains(McpMark::Conflict) <==> duplicate,
{
    let m = marks_of(row, duplicate);
    let a = one(row.disabled is None);
    let b = one(duplicate);
    if row.disabled is None {
        assert(m[0] == McpMark::Expression);
    }
    if duplicate {
        assert(m[a] == McpMark::Conflict);
    }
    if row.dangerous {
        assert(m[a + b] == McpMark::Dangerous);
    }
    assert forall|i: int| 0 <= i < m.len() implies (#[trigger] m[i] == McpMark::Dangerous ==> row.dangerous) && (
    m[i] == McpMark::Expression ==> row.disabled is None) && (m[i] == McpMark::Conflict ==> duplicate) by {
        if i < a {
        } else if i < a + b {
        } else {
        }
    }
}

spec fn one(b: bool) -> int {
    if b {
        1
    } else {
        0
    }
}

/// No named row of the service is left out of the list.
pub proof fn law_every_named_server_is_listed(
    block: &McpBlock,
    tree: &Vec<McpRow>,
    home: &str,
    r: Vec<McpServerView>,
    i: int,
)
    requires
        call_ensures(build_views, (block, tree, home), r),
        0 <= i < tree@.len(),
        tree@[i].server_name is Some,
    ensures
        exists|k: int|
            0 <= k < r@.len() && (#[trigger] r@[k]).row_id == tree@[i].row_id && r@[k].server_name
                == tree@[i].server_name->0,
{
    let views = r@;
    let order = choose|order: Seq<int>|
        #![trigger in_order(views, order)]
        shown(views, order, *block, home@, tree@) && in_order(views, order);
    // The places of the views are distinct places of named rows, and there are as many of both.
    assert forall|a: int, b: int| 0 <= a < b < order.len() implies order[a] != order[b] by {
        assert(views[a] == views[a] && views[b] == views[b]);
        assert(before(views[a].server_name@, order[a], views[b].server_name@, order[b]));
        if order[a] == order[b] {
            assert(shows_at(views[a], order[a], *block, home@, tree@));
            assert(shows_at(views[b], order[b], *block, home@, tree@));
            crate::text_map::lemma_precedes_total(views[a].server_name@, views[b].server_name@);
        }
    }
    assert forall|a: int| 0 <= a < order.len() implies 0 <= #[trigger] order[a] < tree@.len()
        && tree@[order[a]].server_name is Some by {
        assert(shows_at(views[a], order[a], *block, home@, tree@));
    }
    lemma_all_places(tree@, order, i);
    let k = choose|k: int| 0 <= k < order.len() && order[k] == i;
    assert(shows_at(views[k], order[k], *block, home@, tree@));
}

spec fn named_places(tree: Seq<McpRow>) -> Set<int> {
    Set::new(|i: int| 0 <= i < tree.len() && tree[i].server_name is Some)
}

proof fn lemma_named_places(tree: Seq<McpRow>)
    ensures
        named_places(tree).finite(),
        named_places(tree).len() == named_count(tree),
    decreases tree.len(),
{
    if tree.len() == 0 {
        assert(named_places(tree) =~= Set::empty());
    } else {
        let init = tree.drop_last();
        let n = tree.len() - 1;
        lemma_named_places(init);
        if tree.last().server_name is Some {
            assert(named_places(tree) =~= named_places(init).insert(n));
        } else {
            assert(named_places(tree) =~= named_places(init));
        }
    }
}

proof fn lemma_all_places(tree: Seq<McpRow>, order: Seq<int>, i: int)
    requires
        order.len() == named_count(tree),
        order.no_duplicates(),
        forall|a: int|
            0 <= a < order.len() ==> 0 <= #[trigger] order[a] < tree.len() && tree[order[a]].server_name
                is Some,
        0 <= i < tree.len(),
        tree[i].server_name is Some,
    ensures
        order.contains(i),
{
    lemma_named_places(tree);
    order.unique_seq_to_set();
    let held = order.to_set();
    let all = named_places(tree);
    assert(held.subset_of(all)) by {
        assert forall|x: int| held.contains(x) implies all.contains(x) by {
            assert(order.contains(x));
            let a = choose|a: int| 0 <= a < order.len() && order[a] == x;
            assert(tree[order[a]].server_name is Some);
        }
    }
    vstd::set_lib::lemma_subset_equality(held, all);
    assert(all.contains(i));
    assert(held.contains(i));
}

/// A change of the block is written beside what stands in the file: the edit is that of the block
/// alone, what stands outside is remembered by its fingerprint, and a file with something in it is
/// saved before.
pub proof fn law_writes_are_prepared(
    path: &str,
    existing: &str,
    body: Option<&str>,
    r: Result<FilePlan, PluginError>,
    edit: Result<BlockEdit, String>,
    print: Result<String, PluginError>,
)
    requires
        call_ensures(plan_write, (path, Some(existing), body), r),
        call_ensures(apply_family, (path, Some(existing), mcp_family(), body), edit),
        call_ensures(fingerprint_outside, (existing,), print),
    ensures
        r is Ok <==> edit is Ok && print is Ok,
        r is Ok ==> {
            &&& r->Ok_0.edit@ == edit->Ok_0@
            &&& r->Ok_0.print@ == print->Ok_0@
            &&& r->Ok_0.backup <==> existing@.len() > 0
        },
        r is Err ==> r->Err_0.kind is ManagedBlockConflict,
{
    assert(model::slice_of(Some(existing)) == Some(existing@));
}

/// A server needs what its transport needs: a process its command, a remote server its address; a
/// name is valid exactly where it is made of 1 to 32 letters, digits, underscores and hyphens.
pub proof fn law_what_a_server_needs(
    command: Option<&str>,
    url: Option<&str>,
    process: Result<(), PluginError>,
    remote: Result<(), PluginError>,
    name: &str,
    named: Result<(), PluginError>,
    installed: bool,
    ready: Result<(), PluginError>,
)
    requires
        call_ensures(validate_transport_required, (McpTransport::Stdio, command, url), process),
        call_ensures(validate_transport_required, (McpTransport::StreamableHttp, command, url), remote),
        call_ensures(validate_server_name, (name,), named),
        call_ensures(require_prereq, (installed,), ready),
    ensures
        process is Ok <==> command is Some && !model::blank((command->0)@),
        remote is Ok <==> url is Some && !model::blank((url->0)@),
        named is Ok <==> 1 <= name@.len() <= 32 && forall|i: int|
            0 <= i < name@.len() ==> model::ascii_alnum(#[trigger] name@[i]) || name@[i] == '_' || name@[i]
                == '-',
        ready is Ok <==> installed,
{
    if 1 <= name@.len() <= 32 && forall|i: int|
        0 <= i < name@.len() ==> model::ascii_alnum(#[trigger] name@[i]) || name@[i] == '_' || name@[i]
            == '-' {
        assert forall|i: int| 0 <= i < name@.len() implies crate::mcp_change::name_char(
            #[trigger] name@[i],
        ) by {}
        assert(valid_name(name@));
    }
    if valid_name(name@) {
        assert forall|i: int| 0 <= i < name@.len() implies model::ascii_alnum(#[trigger] name@[i])
            || name@[i] == '_' || name@[i] == '-' by {
            assert(crate::mcp_change::name_char(name@[i]));
        }
    }
}

/// A name that a row of the service has already is refused, and no other.
pub proof fn law_names_are_given_once(name: &str, tree: &Vec<McpRow>, r: Result<(), PluginError>)
    requires
        call_ensures(validate_unique_server_name, (name, tree), r),
    ensures
        r is Ok <==> forall|i: int|
            0 <= i < tree@.len() ==> model::text_of((#[trigger] tree@[i]).server_name) != Some(name@),
{
    lemma_named_row(tree@, name@, 0);
}

} // verus!
