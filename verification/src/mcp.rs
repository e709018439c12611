//! Tool servers in the machine's patch file: adding, switching and removing them, and making sure
//! that a write touched nothing but the launcher's own block.

use crate::model;
use crate::model::CharSet;
use crate::plugin::managed::{outside, split_outside, BlockFamily, MARK_VERSION};
use crate::plugin::state::{conflict_error, PluginError};
use crate::text;
use crate::text_map;
use vstd::prelude::*;

verus! {

pub const MCP_BEGIN_PREFIX: &'static str = "# >>> dsh-launcher mcp ";

pub const MCP_END_PREFIX: &'static str = "# <<< dsh-launcher mcp ";

/// The package that provides tool servers.
pub const REQUIRED_PACKAGE: &'static str = "@deepseek-ai/dsh-mcp-client";

/// The family of tool server blocks.
pub open spec fn mcp_family() -> BlockFamily {
    BlockFamily {
        begin_prefix: MCP_BEGIN_PREFIX,
        end_prefix: MCP_END_PREFIX,
        version: MARK_VERSION,
        description: "MCP 受管区块",
    }
}

/// The family of tool server blocks.
pub fn mcp_block_family() -> (f: BlockFamily)
    ensures
        f == mcp_family(),
{
    BlockFamily {
        begin_prefix: MCP_BEGIN_PREFIX,
        end_prefix: MCP_END_PREFIX,
        version: MARK_VERSION,
        description: "MCP 受管区块",
    }
}

/// How a change to the patch file takes effect.
#[derive(Debug, Clone, Copy, PartialEq, Eq, Structural)]
pub enum ReloadMode {
    /// At once.
    Live,
    /// With the next start of the service.
    RequiresRestart,
}

/// How changes take effect in a profile with the given reload setting.
pub fn reload_mode(patch_reload: Option<&str>) -> (r: ReloadMode)
    ensures
        r == if model::slice_of(patch_reload) == Some("live"@) {
            ReloadMode::Live
        } else {
            ReloadMode::RequiresRestart
        },
{
    match patch_reload {
        Some(s) => if text::same(s, "live") {
            ReloadMode::Live
        } else {
            ReloadMode::RequiresRestart
        },
        None => ReloadMode::RequiresRestart,
    }
}

/// The outcome of an action on a tool server; the service is never restarted for one.
pub struct OpResult {
    pub status: &'static str,
    pub restarted: bool,
    pub message: String,
    pub server_name: Option<String>,
}

impl OpResult {
    pub fn unchanged(message: String, server_name: Option<String>) -> (r: Self)
        ensures
            r.status@ == "unchanged"@,
            !r.restarted,
            r.message == message,
            r.server_name == server_name,
    {
        Self { status: "unchanged", restarted: false, message, server_name }
    }

    pub fn changed(message: String, server_name: Option<String>) -> (r: Self)
        ensures
            r.status@ == "changed"@,
            !r.restarted,
            r.message == message,
            r.server_name == server_name,
    {
        Self { status: "changed", restarted: false, message, server_name }
    }
}

/// How a tool server is reached.
#[derive(Debug, Clone, Copy, PartialEq, Eq, Structural)]
pub enum McpTransport {
    Stdio,
    StreamableHttp,
}

impl McpTransport {
    pub open spec fn name(self) -> Seq<char> {
        match self {
            McpTransport::Stdio => "stdio"@,
            McpTransport::StreamableHttp => "streamable-http"@,
        }
    }

    pub open spec fn named(s: Seq<char>) -> Option<McpTransport> {
        if s == "stdio"@ {
            Some(McpTransport::Stdio)
        } else if s == "streamable-http"@ {
            Some(McpTransport::StreamableHttp)
        } else {
            None
        }
    }

    pub fn as_str(&self) -> (r: &'static str)
        ensures
            r@ == self.name(),
    {
        match self {
            McpTransport::Stdio => "stdio",
            McpTransport::StreamableHttp => "streamable-http",
        }
    }

    pub fn parse(s: &str) -> (r: Option<McpTransport>)
        ensures
            r == McpTransport::named(s@),
    {
        if text::same(s, "stdio") {
            Some(McpTransport::Stdio)
        } else if text::same(s, "streamable-http") {
            Some(McpTransport::StreamableHttp)
        } else {
            None
        }
    }
}

/// What is asked of a tool server.
#[derive(Debug, Clone, Copy, PartialEq, Eq, Structural)]
pub enum McpAction {
    Enable,
    Disable,
}

impl McpAction {
    pub fn desired_disabled(&self) -> (b: bool)
        ensures
            b == (*self == McpAction::Disable),
    {
        match self {
            McpAction::Enable => false,
            McpAction::Disable => true,
        }
    }
}

/// A tool server that the managed block declares.
#[derive(Debug)]
pub struct McpDeclare {
    pub row_id: String,
    pub server_name: Option<String>,
    pub transport: Option<McpTransport>,
    pub config_raw: String,
}

/// A row that the managed block switches on or off.
#[derive(Debug)]
pub struct McpDirective {
    pub row_id: String,
    pub disabled: bool,
}

/// What the managed block holds.
#[derive(Debug)]
pub struct McpBlock {
    pub declares: Vec<McpDeclare>,
    pub directives: Vec<McpDirective>,
}

/// A tool server row of the composed configuration.
#[derive(Debug)]
pub struct McpRow {
    pub row_id: String,
    /// The layer that declares the row.
    pub section_owner: String,
    pub server_name: Option<String>,
    pub transport: Option<McpTransport>,
    /// Whether the row is off; `None` where an expression decides.
    pub disabled: Option<bool>,
    /// The row lets a failed server stop the whole start.
    pub dangerous: bool,
    pub summary: String,
}

/// What is worth knowing of a tool server at a glance.
#[derive(Debug, Clone, Copy, PartialEq, Eq, Structural)]
pub enum McpMark {
    /// An expression decides whether it is on.
    Expression,
    /// Another row has the same server name.
    Conflict,
    /// A failure of this server stops the whole start.
    Dangerous,
}

/// Who declares a tool server.
#[derive(Debug, Clone, Copy, PartialEq, Eq, Structural)]
pub enum McpOrigin {
    /// The launcher's own block.
    Managed,
    /// Another layer.
    External,
}

impl McpBlock {
    /// The first declaration of a row.
    pub open spec fn declaration(&self, row_id: Seq<char>, i: int) -> Option<McpDeclare>
        decreases self.declares@.len() - i,
    {
        if i < 0 || i >= self.declares@.len() {
            None
        } else if self.declares@[i].row_id@ == row_id {
            Some(self.declares@[i])
        } else {
            self.declaration(row_id, i + 1)
        }
    }

    /// The first directive for a row.
    pub open spec fn directive(&self, row_id: Seq<char>, i: int) -> Option<int>
        decreases self.directives@.len() - i,
    {
        if i < 0 || i >= self.directives@.len() {
            None
        } else if self.directives@[i].row_id@ == row_id {
            Some(i)
        } else {
            self.directive(row_id, i + 1)
        }
    }

    pub fn declare_by_row_id(&self, row_id: &str) -> (r: Option<&McpDeclare>)
        ensures
            match r {
                Some(d) => self.declaration(row_id@, 0) == Some(*d),
                None => self.declaration(row_id@, 0) is None,
            },
    {
        let mut i: usize = 0;
        while i < self.declares.len()
            invariant
                i <= self.declares.len(),
                self.declaration(row_id@, 0) == self.declaration(row_id@, i as int),
            decreases self.declares.len() - i,
        {
            if text::same(self.declares[i].row_id.as_str(), row_id) {
                return Some(&self.declares[i]);
            }
            i += 1;
        }
        None
    }

    pub fn directive_index(&self, row_id: &str) -> (r: Option<usize>)
        ensures
            match r {
                Some(i) => i < self.directives.len() && self.directive(row_id@, 0) == Some(
                    i as int,
                ),
                None => self.directive(row_id@, 0) is None,
            },
    {
        let mut i: usize = 0;
        while i < self.directives.len()
            invariant
                i <= self.directives.len(),
                self.directive(row_id@, 0) == self.directive(row_id@, i as int),
            decreases self.directives.len() - i,
        {
            if text::same(self.directives[i].row_id.as_str(), row_id) {
                return Some(i);
            }
            i += 1;
        }
        None
    }

    pub fn directive_by_row_id(&self, row_id: &str) -> (r: Option<&McpDirective>)
        ensures
            match r {
                Some(d) => self.directive(row_id@, 0) is Some && *d
                    == self.directives@[self.directive(row_id@, 0)->0],
                None => self.directive(row_id@, 0) is None,
            },
    {
        match self.directive_index(row_id) {
            Some(i) => Some(&self.directives[i]),
            None => None,
        }
    }

    /// Who declares a row.
    pub open spec fn origin(&self, row_id: Seq<char>) -> McpOrigin {
        if self.declaration(row_id, 0) is Some {
            McpOrigin::Managed
        } else {
            McpOrigin::External
        }
    }

    pub fn derive_origin(&self, row_id: &str) -> (r: McpOrigin)
        ensures
            r == self.origin(row_id@),
    {
        if self.declare_by_row_id(row_id).is_some() {
            McpOrigin::Managed
        } else {
            McpOrigin::External
        }
    }
}

// ---- Listing ----

/// A tool server as it is shown.
pub struct McpServerView {
    pub server_name: String,
    pub row_id: String,
    pub transport: Option<McpTransport>,
    pub origin: McpOrigin,
    /// The layer that declares it.
    pub layer: String,
    pub summary: String,
    pub disabled: Option<bool>,
    pub marks: Vec<McpMark>,
}

/// The tool servers of a profile.
pub struct McpListResult {
    pub profile: String,
    pub reload: ReloadMode,
    /// The package that provides tool servers is installed.
    pub prereq_installed: bool,
    pub servers: Vec<McpServerView>,
}

/// Lists the tool servers. A missing package is no reason not to.
pub fn list(
    profile: &str,
    patch_reload: Option<&str>,
    prereq_installed: bool,
    block: &McpBlock,
    tree: &Vec<McpRow>,
    home_layer: &str,
) -> (r: McpListResult)
    ensures
        r.profile@ == profile@,
        r.reload == if model::slice_of(patch_reload) == Some("live"@) {
            ReloadMode::Live
        } else {
            ReloadMode::RequiresRestart
        },
        r.prereq_installed == prereq_installed,
        listed(r.servers@, *block, home_layer@, tree@),
{
    McpListResult {
        profile: profile.to_owned(),
        reload: reload_mode(patch_reload),
        prereq_installed,
        servers: build_views(block, tree, home_layer),
    }
}

/// What is said where the block cannot be read.
pub fn read_failure(path: &str, reason: &str) -> (e: PluginError)
    ensures
        e@ == conflict_error(path@ + ": "@ + reason@),
{
    PluginError::conflict(text::cat3(path, ": ", reason))
}

/// How many of the rows carry a server name.
pub open spec fn name_count(tree: Seq<McpRow>, name: Seq<char>) -> nat
    decreases tree.len(),
{
    if tree.len() == 0 {
        0
    } else {
        name_count(tree.drop_last(), name) + if model::text_of(tree.last().server_name) == Some(
            name,
        ) {
            1nat
        } else {
            0nat
        }
    }
}

/// How many rows have a server name.
pub open spec fn named_count(tree: Seq<McpRow>) -> nat
    decreases tree.len(),
{
    if tree.len() == 0 {
        0
    } else {
        named_count(tree.drop_last()) + if tree.last().server_name is Some {
            1nat
        } else {
            0nat
        }
    }
}

/// The marks of a row.
pub open spec fn marks_of(row: McpRow, duplicate: bool) -> Seq<McpMark> {
    (if row.disabled is None {
        seq![McpMark::Expression]
    } else {
        seq![]
    }) + (if duplicate {
        seq![McpMark::Conflict]
    } else {
        seq![]
    }) + (if row.dangerous {
        seq![McpMark::Dangerous]
    } else {
        seq![]
    })
}

pub fn derive_marks(row: &McpRow, duplicate: bool) -> (r: Vec<McpMark>)
    ensures
        r@ == marks_of(*row, duplicate),
{
    let mut r: Vec<McpMark> = Vec::new();
    if row.disabled.is_none() {
        r.push(McpMark::Expression);
    }
    if duplicate {
        r.push(McpMark::Conflict);
    }
    if row.dangerous {
        r.push(McpMark::Dangerous);
    }
    proof {
        assert(r@ =~= marks_of(*row, duplicate));
    }
    r
}

/// A view shows a row.
pub open spec fn shows(
    view: McpServerView,
    row: McpRow,
    block: McpBlock,
    home_layer: Seq<char>,
    tree: Seq<McpRow>,
) -> bool {
    &&& row.server_name == Some(view.server_name)
    &&& view.row_id == row.row_id
    &&& view.transport == row.transport
    &&& view.origin == block.origin(row.row_id@)
    &&& view.layer@ == if view.origin == McpOrigin::Managed {
        home_layer
    } else {
        row.section_owner@
    }
    &&& view.summary == row.summary
    &&& view.disabled == row.disabled
    &&& view.marks@ == marks_of(row, name_count(tree, view.server_name@) > 1)
}

/// A view shows the row at a position of the configuration.
pub open spec fn shows_at(
    view: McpServerView,
    i: int,
    block: McpBlock,
    home_layer: Seq<char>,
    tree: Seq<McpRow>,
) -> bool {
    0 <= i < tree.len() && shows(view, tree[i], block, home_layer, tree)
}

/// The views show the rows at the positions of `order`.
pub open spec fn shown(
    views: Seq<McpServerView>,
    order: Seq<int>,
    block: McpBlock,
    home_layer: Seq<char>,
    tree: Seq<McpRow>,
) -> bool {
    &&& order.len() == views.len()
    &&& forall|k: int|
        0 <= k < views.len() ==> #[trigger] shows_at(views[k], order[k], block, home_layer, tree)
}

/// The first view comes before the second: by name, and by position where the names are equal.
pub open spec fn before(a: Seq<char>, i: int, b: Seq<char>, j: int) -> bool {
    model::precedes(a, b) || (a == b && i < j)
}

/// The views stand in order.
pub open spec fn in_order(views: Seq<McpServerView>, order: Seq<int>) -> bool {
    forall|a: int, b: int|
        0 <= a < b < views.len() ==> before(
            (#[trigger] views[a]).server_name@,
            order[a],
            (#[trigger] views[b]).server_name@,
            order[b],
        )
}

/// The views list the named rows of the configuration, each once, by name.
pub open spec fn listed(
    views: Seq<McpServerView>,
    block: McpBlock,
    home_layer: Seq<char>,
    tree: Seq<McpRow>,
) -> bool {
    &&& views.len() == named_count(tree)
    &&& exists|order: Seq<int>|
        #![trigger in_order(views, order)]
        shown(views, order, block, home_layer, tree) && in_order(views, order)
}

fn count_name(tree: &Vec<McpRow>, name: &str) -> (n: usize)
    ensures
        n == name_count(tree@, name@),
{
    let mut n: usize = 0;
    let mut i: usize = 0;
    proof {
        assert(tree@.take(0) =~= seq![]);
    }
    while i < tree.len()
        invariant
            i <= tree.len(),
            n <= i,
            n == name_count(tree@.take(i as int), name@),
        decreases tree.len() - i,
    {
        proof {
            assert(tree@.take(i as int + 1).drop_last() =~= tree@.take(i as int));
            assert(tree@.take(i as int + 1).last() == tree@[i as int]);
        }
        if let Some(s) = &tree[i].server_name {
            if text::same(s.as_str(), name) {
                n += 1;
            }
        }
        i += 1;
    }
    proof {
        assert(tree@.take(tree.len() as int) =~= tree@);
    }
    n
}

/// The position of the first row with a server name.
pub open spec fn named_row(tree: Seq<McpRow>, name: Seq<char>, i: int) -> Option<int>
    decreases tree.len() - i,
{
    if i < 0 || i >= tree.len() {
        None
    } else if model::text_of(tree[i].server_name) == Some(name) {
        Some(i)
    } else {
        named_row(tree, name, i + 1)
    }
}

/// The first row with a server name.
pub fn find_in_tree<'a>(tree: &'a Vec<McpRow>, server_name: &str) -> (r: Option<&'a McpRow>)
    ensures
        match r {
            Some(row) => named_row(tree@, server_name@, 0) is Some && *row == tree@[named_row(
                tree@,
                server_name@,
                0,
            )->0],
            None => named_row(tree@, server_name@, 0) is None,
        },
{
    let mut i: usize = 0;
    while i < tree.len()
        invariant
            i <= tree.len(),
            named_row(tree@, server_name@, 0) == named_row(tree@, server_name@, i as int),
        decreases tree.len() - i,
    {
        if let Some(s) = &tree[i].server_name {
            if text::same(s.as_str(), server_name) {
                return Some(&tree[i]);
            }
        }
        i += 1;
    }
    None
}

/// The views of all rows that have a server name, in the order of the names; rows of one name stay
/// in the order of the configuration.
pub fn build_views(block: &McpBlock, tree: &Vec<McpRow>, home_layer: &str) -> (r: Vec<
    McpServerView,
>)
    ensures
        listed(r@, *block, home_layer@, tree@),
{
    let mut out: Vec<McpServerView> = Vec::new();
    let mut i: usize = 0;
    let ghost mut order = Seq::<int>::empty();
    proof {
        assert(tree@.take(0) =~= seq![]);
    }
    while i < tree.len()
        invariant
            i <= tree.len(),
            out@.len() == named_count(tree@.take(i as int)),
            shown(out@, order, *block, home_layer@, tree@),
            in_order(out@, order),
            forall|k: int| 0 <= k < order.len() ==> #[trigger] order[k] < i,
        decreases tree.len() - i,
    {
        let row = &tree[i];
        proof {
            assert(tree@.take(i as int + 1).drop_last() =~= tree@.take(i as int));
            assert(tree@.take(i as int + 1).last() == tree@[i as int]);
        }
        if let Some(name) = &row.server_name {
            let origin = block.derive_origin(row.row_id.as_str());
            let layer = match origin {
                McpOrigin::Managed => home_layer.to_owned(),
                McpOrigin::External => row.section_owner.clone(),
            };
            let duplicate = count_name(tree, name.as_str()) > 1;
            let view = McpServerView {
                server_name: name.clone(),
                row_id: row.row_id.clone(),
                transport: row.transport,
                origin,
                layer,
                summary: row.summary.clone(),
                disabled: row.disabled,
                marks: derive_marks(row, duplicate),
            };
            let ghost prior = out@;
            let ghost prior_order = order;
            let ghost new = view;
            let mut k: usize = out.len();
            while k > 0 && text::precedes(name.as_str(), out[k - 1].server_name.as_str())
                invariant
                    out@ == prior,
                    k <= out.len(),
                    forall|m: int|
                        k <= m < prior.len() ==> model::precedes(
                            name@,
                            (#[trigger] prior[m]).server_name@,
                        ),
                decreases k,
            {
                k -= 1;
            }
            out.insert(k, view);
            proof {
                order = prior_order.insert(k as int, i as int);
                let now = out@;
                assert(now == prior.insert(k as int, new));
                assert(shows(new, tree@[i as int], *block, home_layer@, tree@));
                assert(order.len() == now.len());
                assert forall|m: int| 0 <= m < now.len() implies #[trigger] shows_at(
                    now[m],
                    order[m],
                    *block,
                    home_layer@,
                    tree@,
                ) by {
                    if m != k {
                        let x = if m < k {
                            m
                        } else {
                            m - 1
                        };
                        assert(now[m] == prior[x]);
                        assert(order[m] == prior_order[x]);
                        assert(shows_at(prior[x], prior_order[x], *block, home_layer@, tree@));
                    } else {
                        assert(now[m] == new && order[m] == i);
                    }
                }
                assert(shown(now, order, *block, home_layer@, tree@));
                assert forall|a: int, b: int| 0 <= a < b < now.len() implies before(
                    (#[trigger] now[a]).server_name@,
                    order[a],
                    (#[trigger] now[b]).server_name@,
                    order[b],
                ) by {
                    if a == k {
                        assert(now[b] == prior[b - 1]);
                    } else if b == k {
                        assert(now[a] == prior[a]);
                        assert(order[a] == prior_order[a]);
                        let p = prior[a].server_name@;
                        let q = prior[k - 1].server_name@;
                        assert(!model::precedes(name@, q));
                        text_map::lemma_precedes_total(name@, q);
                        text_map::lemma_precedes_total(name@, p);
                        if a < k - 1 {
                            assert(before(p, prior_order[a], q, prior_order[k - 1]));
                            if model::precedes(name@, p) && p != q {
                                text_map::lemma_precedes_transitive(name@, p, q);
                            }
                        }
                        assert(order[a] < i);
                    } else {
                        let x = if a < k {
                            a
                        } else {
                            a - 1
                        };
                        let y = if b < k {
                            b
                        } else {
                            b - 1
                        };
                        assert(now[a] == prior[x] && now[b] == prior[y]);
                        assert(order[a] == prior_order[x] && order[b] == prior_order[y]);
                        assert(before(
                            prior[x].server_name@,
                            prior_order[x],
                            prior[y].server_name@,
                            prior_order[y],
                        ));
                    }
                }
            }
        }
        i += 1;
    }
    proof {
        assert(tree@.take(tree.len() as int) =~= tree@);
        assert(in_order(out@, order));
    }
    out
}

// ---- What stands outside the block ----

/// `s` with every CRLF replaced by LF.
pub open spec fn unix_eol(s: Seq<char>) -> Seq<char>
    decreases s.len(),
{
    if s.len() == 0 {
        seq![]
    } else if s.len() > 1 && s[0] == '\r' && s[1] == '\n' {
        seq!['\n'] + unix_eol(s.skip(2))
    } else {
        seq![s[0]] + unix_eol(s.skip(1))
    }
}

pub fn normalize_eol(s: &str) -> (r: String)
    ensures
        r@ == unix_eol(s@),
{
    let v = text::chars_of(s);
    let mut out = String::new();
    let mut i: usize = 0;
    proof {
        assert(s@.skip(0) =~= s@);
        assert(out@ + unix_eol(s@.skip(0)) =~= unix_eol(s@));
    }
    while i < v.len()
        invariant
            v@ == s@,
            i <= v.len(),
            out@ + unix_eol(s@.skip(i as int)) == unix_eol(s@),
        decreases v.len() - i,
    {
        let ghost before = out@;
        let ghost rest = s@.skip(i as int);
        proof {
            assert(rest[0] == s@[i as int]);
        }
        if v[i] == '\r' && v.len() - i > 1 && v[i + 1] == '\n' {
            proof {
                assert(rest[1] == s@[i + 1]);
                assert(rest.skip(2) =~= s@.skip(i + 2));
            }
            out.push('\n');
            proof {
                let tail = unix_eol(rest.skip(2));
                assert(before.push('\n') + tail =~= before + (seq!['\n'] + tail));
            }
            i += 2;
        } else {
            proof {
                if rest.len() > 1 {
                    assert(rest[1] == s@[i + 1]);
                }
                assert(rest.skip(1) =~= s@.skip(i + 1));
            }
            out.push(v[i]);
            proof {
                let tail = unix_eol(rest.skip(1));
                assert(before.push(rest[0]) + tail =~= before + (seq![rest[0]] + tail));
            }
            i += 1;
        }
    }
    proof {
        assert(out@ + unix_eol(s@.skip(i as int)) =~= out@);
    }
    out
}

/// What stands outside the block, in a form that can be compared: line endings do not count, nor
/// do line feeds next to the block. A NUL marks the block's place.
pub open spec fn canonical(content: Seq<char>) -> Result<Seq<char>, Seq<char>> {
    match outside(content, mcp_family()) {
        Ok(None) => Ok(
            model::trim_end(unix_eol(content), CharSet::Only('\n')) + seq!['\0'],
        ),
        Ok(Some((before, after))) => Ok(
            model::trim_end(unix_eol(before), CharSet::Only('\n')) + seq!['\0'] + model::trim_start(
                unix_eol(after),
                CharSet::Only('\n'),
            ),
        ),
        Err(m) => Err(m),
    }
}

pub fn canonical_outside(content: &str) -> (r: Result<String, PluginError>)
    ensures
        match canonical(content@) {
            Ok(t) => r is Ok && r->Ok_0@ == t,
            Err(m) => r is Err && r->Err_0@ == conflict_error(m),
        },
{
    match split_outside(content, mcp_block_family()) {
        Ok(None) => {
            let unix = normalize_eol(content);
            let mut out = text::trim_end(unix.as_str(), CharSet::Only('\n'));
            let ghost head = out@;
            out.push('\0');
            proof {
                assert(head.push('\0') =~= head + seq!['\0']);
            }
            Ok(out)
        },
        Ok(Some((before, after))) => {
            let unix = normalize_eol(before.as_str());
            let mut out = text::trim_end(unix.as_str(), CharSet::Only('\n'));
            let ghost head = out@;
            out.push('\0');
            proof {
                assert(head.push('\0') =~= head + seq!['\0']);
            }
            let rest = normalize_eol(after.as_str());
            out.append(text::trim_start(rest.as_str(), CharSet::Only('\n')).as_str());
            Ok(out)
        },
        Err(m) => Err(PluginError::conflict(m)),
    }
}

/// The FNV-1a hash of bytes.
pub open spec fn fnv_hash(bytes: Seq<u8>) -> u64
    decreases bytes.len(),
{
    if bytes.len() == 0 {
        0xcbf2_9ce4_8422_2325
    } else {
        (fnv_hash(bytes.drop_last()) ^ (bytes.last() as u64)).wrapping_mul(0x0000_0100_0000_01b3)
    }
}

pub open spec fn hex_char(d: nat) -> char {
    if d < 10 {
        ((0x30 + d) as u32) as char
    } else {
        ((0x57 + d) as u32) as char
    }
}

/// The last `width` hexadecimal digits of `n`.
pub open spec fn hex_fixed(n: nat, width: nat) -> Seq<char>
    decreases width,
{
    if width == 0 {
        seq![]
    } else {
        hex_fixed(n / 16, (width - 1) as nat).push(hex_char(n % 16))
    }
}

pub fn hex_digit(d: u64) -> (c: char)
    requires
        d < 16,
    ensures
        c == hex_char(d as nat),
{
    if d < 10 {
        ((0x30 + d) as u8) as char
    } else {
        ((0x57 + d) as u8) as char
    }
}

fn hex_text(n: u64, width: usize) -> (r: String)
    ensures
        r@ == hex_fixed(n as nat, width as nat),
    decreases width,
{
    if width == 0 {
        let r = String::new();
        proof {
            assert(r@ =~= seq![]);
        }
        r
    } else {
        let mut r = hex_text(n / 16, width - 1);
        r.push(hex_digit(n % 16));
        r
    }
}

/// The fingerprint of a text: the FNV-1a hash of its UTF-8 bytes in 16 hexadecimal digits.
pub fn fnv1a(s: &str) -> (r: String)
    ensures
        r@ == hex_fixed(fnv_hash(vstd::utf8::encode_utf8(s@)) as nat, 16),
{
    let bytes = s.as_bytes();
    let mut hash: u64 = 0xcbf2_9ce4_8422_2325;
    let mut i: usize = 0;
    proof {
        assert(bytes@.take(0) =~= seq![]);
    }
    while i < bytes.len()
        invariant
            i <= bytes.len(),
            hash == fnv_hash(bytes@.take(i as int)),
        decreases bytes.len() - i,
    {
        proof {
            assert(bytes@.take(i as int + 1).drop_last() =~= bytes@.take(i as int));
        }
        let mixed: u64 = hash ^ (bytes[i] as u64);
        hash = mixed.wrapping_mul(0x0000_0100_0000_01b3);
        i += 1;
    }
    proof {
        assert(bytes@.take(bytes.len() as int) =~= bytes@);
    }
    hex_text(hash, 16)
}

/// The fingerprint of what stands outside the block.
pub open spec fn outside_print(content: Seq<char>) -> Result<Seq<char>, Seq<char>> {
    match canonical(content) {
        Ok(t) => Ok(hex_fixed(fnv_hash(vstd::utf8::encode_utf8(t)) as nat, 16)),
        Err(m) => Err(m),
    }
}

pub fn fingerprint_outside(content: &str) -> (r: Result<String, PluginError>)
    ensures
        match outside_print(content@) {
            Ok(t) => r is Ok && r->Ok_0@ == t,
            Err(m) => r is Err && r->Err_0@ == conflict_error(m),
        },
{
    match canonical_outside(content) {
        Ok(t) => Ok(fnv1a(t.as_str())),
        Err(e) => Err(e),
    }
}

} // verus!
