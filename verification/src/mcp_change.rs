//! Changing tool servers: what is refused, what the block holds afterwards, and whether a write did
//! what it was meant to do.

use crate::mcp::{
    fingerprint_outside, mcp_block_family, mcp_family, named_row, outside_print, find_in_tree,
    McpAction, McpBlock, McpDeclare, McpDirective, McpOrigin, McpRow, McpTransport, OpResult,
    REQUIRED_PACKAGE,
};
use crate::model;
use crate::model::CharSet;
use crate::plugin::managed::{apply_family, edited, quoted, yaml_quote, BlockEdit};
use crate::plugin::state::{
    conflict_error, illegal_error, not_found_error, verification_error, ErrorText, PluginError,
    PluginErrorKind,
};
use crate::text;
use crate::text::debug_form;
use crate::yaml_text::{config_scalar, normalize_config, normalized, value_in};
use vstd::prelude::*;

verus! {

/// What is asked for in a new tool server.
pub struct McpAddSpec {
    pub server_name: String,
    pub transport: String,
    /// `mcp-` and the server name where nothing is given.
    pub row_id: Option<String>,
    pub start_disabled: bool,
    pub command: Option<String>,
    pub args: Vec<String>,
    pub env: Vec<(String, String)>,
    pub cwd: Option<String>,
    pub url: Option<String>,
    pub headers: Vec<(String, String)>,
    pub tool_call_timeout_ms: Option<u64>,
    pub reconnect_enabled: Option<bool>,
    pub reconnect_initial_delay_ms: Option<u64>,
    pub reconnect_max_delay_ms: Option<u64>,
    pub reconnect_max_attempts: Option<u64>,
    /// The configuration as it is to be written, in place of all the fields above but the names.
    pub raw_config: Option<String>,
}

impl Default for McpAddSpec {
    fn default() -> (r: Self)
        ensures
            r.server_name@ == Seq::<char>::empty(),
            r.transport@ == Seq::<char>::empty(),
            r.row_id is None,
            !r.start_disabled,
            r.command is None,
            r.args@ == Seq::<String>::empty(),
            r.env@ == Seq::<(String, String)>::empty(),
            r.cwd is None,
            r.url is None,
            r.headers@ == Seq::<(String, String)>::empty(),
            r.tool_call_timeout_ms is None,
            r.reconnect_enabled is None,
            r.reconnect_initial_delay_ms is None,
            r.reconnect_max_delay_ms is None,
            r.reconnect_max_attempts is None,
            r.raw_config is None,
    {
        let r = McpAddSpec {
            server_name: String::new(),
            transport: String::new(),
            row_id: None,
            start_disabled: false,
            command: None,
            args: Vec::new(),
            env: Vec::new(),
            cwd: None,
            url: None,
            headers: Vec::new(),
            tool_call_timeout_ms: None,
            reconnect_enabled: None,
            reconnect_initial_delay_ms: None,
            reconnect_max_delay_ms: None,
            reconnect_max_attempts: None,
            raw_config: None,
        };
        proof {
            assert(r.server_name@ =~= Seq::<char>::empty());
            assert(r.transport@ =~= Seq::<char>::empty());
        }
        r
    }
}

impl McpAddSpec {
    /// A field other than the names, the row and the raw configuration is given.
    pub open spec fn structured(&self) -> bool {
        ||| self.command is Some
        ||| self.url is Some
        ||| self.args@.len() > 0
        ||| self.env@.len() > 0
        ||| self.headers@.len() > 0
        ||| self.cwd is Some
        ||| self.tool_call_timeout_ms is Some
        ||| self.reconnects()
    }

    /// A field of the reconnection is given.
    pub open spec fn reconnects(&self) -> bool {
        ||| self.reconnect_enabled is Some
        ||| self.reconnect_initial_delay_ms is Some
        ||| self.reconnect_max_delay_ms is Some
        ||| self.reconnect_max_attempts is Some
    }

    fn has_reconnect(&self) -> (b: bool)
        ensures
            b == self.reconnects(),
    {
        self.reconnect_enabled.is_some() || self.reconnect_initial_delay_ms.is_some()
            || self.reconnect_max_delay_ms.is_some() || self.reconnect_max_attempts.is_some()
    }

    fn has_structured(&self) -> (b: bool)
        ensures
            b == self.structured(),
    {
        self.command.is_some() || self.url.is_some() || self.args.len() > 0 || self.env.len() > 0
            || self.headers.len() > 0 || self.cwd.is_some() || self.tool_call_timeout_ms.is_some()
            || self.has_reconnect()
    }
}

// ---- Rendering ----

pub open spec fn bool_text(b: bool) -> Seq<char> {
    if b {
        "true"@
    } else {
        "false"@
    }
}

pub fn bool_word(b: bool) -> (r: &'static str)
    ensures
        r@ == bool_text(b),
{
    if b {
        "true"
    } else {
        "false"
    }
}

/// The lines of a list of arguments.
pub open spec fn arg_lines(args: Seq<String>) -> Seq<char>
    decreases args.len(),
{
    if args.len() == 0 {
        seq![]
    } else {
        arg_lines(args.drop_last()) + ("    - "@ + quoted(args.last()@) + "\n"@)
    }
}

/// The lines of a list of pairs.
pub open spec fn pair_lines(pairs: Seq<(String, String)>) -> Seq<char>
    decreases pairs.len(),
{
    if pairs.len() == 0 {
        seq![]
    } else {
        pair_lines(pairs.drop_last()) + ("    "@ + quoted(pairs.last().0@) + ": "@ + quoted(
            pairs.last().1@,
        ) + "\n"@)
    }
}

/// The line of a number that may be given.
pub open spec fn number_line(label: Seq<char>, value: Option<u64>) -> Seq<char> {
    match value {
        Some(n) => label + model::decimal(n as nat) + "\n"@,
        None => seq![],
    }
}

/// A text that may be given, trimmed; nothing where it is not given.
pub open spec fn trimmed_or_empty(s: Option<String>) -> Seq<char> {
    match s {
        Some(t) => model::trim(t@),
        None => model::trim(""@),
    }
}

/// The lines on a child process.
pub open spec fn process_lines(spec: McpAddSpec) -> Seq<char> {
    ("  command: "@ + quoted(trimmed_or_empty(spec.command)) + "\n"@) + (if spec.args@.len() == 0 {
        "  args: []\n"@
    } else {
        "  args:\n"@ + arg_lines(spec.args@)
    }) + (if spec.env@.len() == 0 {
        seq![]
    } else {
        "  env:\n"@ + pair_lines(spec.env@)
    }) + (match spec.cwd {
        Some(cwd) => if model::blank(cwd@) {
            seq![]
        } else {
            "  cwd: "@ + quoted(cwd@) + "\n"@
        },
        None => seq![],
    })
}

/// The lines on a remote server.
pub open spec fn remote_lines(spec: McpAddSpec) -> Seq<char> {
    ("  url: "@ + quoted(trimmed_or_empty(spec.url)) + "\n"@) + (if spec.headers@.len() == 0 {
        seq![]
    } else {
        "  headers:\n"@ + pair_lines(spec.headers@)
    })
}

/// The lines on reconnection.
pub open spec fn reconnect_lines(spec: McpAddSpec) -> Seq<char> {
    if spec.reconnects() {
        "  reconnect:\n"@ + (match spec.reconnect_enabled {
            Some(b) => "    enabled: "@ + bool_text(b) + "\n"@,
            None => seq![],
        }) + number_line("    initialDelayMs: "@, spec.reconnect_initial_delay_ms) + number_line(
            "    maxDelayMs: "@,
            spec.reconnect_max_delay_ms,
        ) + number_line("    maxAttempts: "@, spec.reconnect_max_attempts)
    } else {
        seq![]
    }
}

/// The configuration of a server from the given fields, without white space at its end.
pub open spec fn structured_config(spec: McpAddSpec, transport: McpTransport) -> Seq<char> {
    model::trim_end(
        ("  serverName: "@ + quoted(spec.server_name@) + "\n"@) + ("  transport: "@
            + transport.name() + "\n"@) + (match transport {
            McpTransport::Stdio => process_lines(spec),
            McpTransport::StreamableHttp => remote_lines(spec),
        }) + number_line("  toolCallTimeoutMs: "@, spec.tool_call_timeout_ms) + reconnect_lines(
            spec,
        ),
        CharSet::White,
    )
}

fn render_args(args: &Vec<String>) -> (r: String)
    ensures
        r@ == arg_lines(args@),
{
    let mut out = String::new();
    let mut i: usize = 0;
    proof {
        assert(args@.take(0) =~= seq![]);
        assert(out@ =~= seq![]);
    }
    while i < args.len()
        invariant
            i <= args.len(),
            out@ == arg_lines(args@.take(i as int)),
        decreases args.len() - i,
    {
        proof {
            assert(args@.take(i as int + 1).drop_last() =~= args@.take(i as int));
        }
        let line = text::cat3("    - ", yaml_quote(args[i].as_str()).as_str(), "\n");
        out.append(line.as_str());
        i += 1;
    }
    proof {
        assert(args@.take(args.len() as int) =~= args@);
    }
    out
}

fn render_pairs(pairs: &Vec<(String, String)>) -> (r: String)
    ensures
        r@ == pair_lines(pairs@),
{
    let mut out = String::new();
    let mut i: usize = 0;
    proof {
        assert(pairs@.take(0) =~= seq![]);
        assert(out@ =~= seq![]);
    }
    while i < pairs.len()
        invariant
            i <= pairs.len(),
            out@ == pair_lines(pairs@.take(i as int)),
        decreases pairs.len() - i,
    {
        proof {
            assert(pairs@.take(i as int + 1).drop_last() =~= pairs@.take(i as int));
        }
        let line = text::cat5(
            "    ",
            yaml_quote(pairs[i].0.as_str()).as_str(),
            ": ",
            yaml_quote(pairs[i].1.as_str()).as_str(),
            "\n",
        );
        out.append(line.as_str());
        i += 1;
    }
    proof {
        assert(pairs@.take(pairs.len() as int) =~= pairs@);
    }
    out
}

fn render_number(label: &str, value: Option<u64>) -> (r: String)
    ensures
        r@ == number_line(label@, value),
{
    match value {
        Some(n) => text::cat3(label, text::decimal(n).as_str(), "\n"),
        None => {
            let r = String::new();
            proof {
                assert(r@ =~= seq![]);
            }
            r
        },
    }
}

fn render_field(label: &str, value: &Option<String>) -> (r: String)
    ensures
        r@ == label@ + quoted(trimmed_or_empty(*value)) + "\n"@,
{
    let given = match value {
        Some(s) => text::trim(s.as_str()),
        None => text::trim(""),
    };
    text::cat3(label, yaml_quote(given.as_str()).as_str(), "\n")
}

fn render_process(spec: &McpAddSpec) -> (r: String)
    ensures
        r@ == process_lines(*spec),
{
    let mut out = render_field("  command: ", &spec.command);
    if spec.args.len() == 0 {
        out.append("  args: []\n");
    } else {
        out.append(text::cat2("  args:\n", render_args(&spec.args).as_str()).as_str());
    }
    if spec.env.len() > 0 {
        out.append(text::cat2("  env:\n", render_pairs(&spec.env).as_str()).as_str());
    }
    if let Some(cwd) = &spec.cwd {
        if !text::blank(cwd.as_str()) {
            out.append(
                text::cat3("  cwd: ", yaml_quote(cwd.as_str()).as_str(), "\n").as_str(),
            );
        }
    }
    proof {
        assert(out@ =~= process_lines(*spec));
    }
    out
}

fn render_remote(spec: &McpAddSpec) -> (r: String)
    ensures
        r@ == remote_lines(*spec),
{
    let mut out = render_field("  url: ", &spec.url);
    if spec.headers.len() > 0 {
        out.append(text::cat2("  headers:\n", render_pairs(&spec.headers).as_str()).as_str());
    }
    proof {
        assert(out@ =~= remote_lines(*spec));
    }
    out
}

fn render_reconnect(spec: &McpAddSpec) -> (r: String)
    ensures
        r@ == reconnect_lines(*spec),
{
    let mut out = String::new();
    if spec.has_reconnect() {
        out.append("  reconnect:\n");
        if let Some(b) = spec.reconnect_enabled {
            out.append(text::cat3("    enabled: ", bool_word(b), "\n").as_str());
        }
        out.append(
            render_number("    initialDelayMs: ", spec.reconnect_initial_delay_ms).as_str(),
        );
        out.append(render_number("    maxDelayMs: ", spec.reconnect_max_delay_ms).as_str());
        out.append(render_number("    maxAttempts: ", spec.reconnect_max_attempts).as_str());
    }
    proof {
        assert(out@ =~= reconnect_lines(*spec));
    }
    out
}

/// The configuration of a server from the given fields.
pub fn render_structured_config(spec: &McpAddSpec, transport: McpTransport) -> (r: String)
    ensures
        r@ == structured_config(*spec, transport),
{
    let mut out = text::cat3(
        "  serverName: ",
        yaml_quote(spec.server_name.as_str()).as_str(),
        "\n",
    );
    out.append(text::cat3("  transport: ", transport.as_str(), "\n").as_str());
    match transport {
        McpTransport::Stdio => {
            out.append(render_process(spec).as_str());
        },
        McpTransport::StreamableHttp => {
            out.append(render_remote(spec).as_str());
        },
    }
    out.append(render_number("  toolCallTimeoutMs: ", spec.tool_call_timeout_ms).as_str());
    out.append(render_reconnect(spec).as_str());
    text::trim_end(out.as_str(), CharSet::White)
}

// ---- What is refused ----

/// A character of a server name.
pub open spec fn name_char(c: char) -> bool {
    model::ascii_alnum(c) || c == '_' || c == '-'
}

fn is_name_char(c: char) -> (b: bool)
    ensures
        b == name_char(c),
{
    let n: u32 = c as u32;
    (0x30 <= n && n <= 0x39) || (0x41 <= n && n <= 0x5a) || (0x61 <= n && n <= 0x7a) || c == '_'
        || c == '-'
}

/// A server name: 1 to 32 letters, digits, underscores and hyphens.
pub open spec fn valid_name(name: Seq<char>) -> bool {
    &&& 1 <= name.len() <= 32
    &&& forall|i: int| 0 <= i < name.len() ==> name_char(#[trigger] name[i])
}

pub open spec fn name_complaint(name: Seq<char>) -> ErrorText {
    illegal_error("serverName "@ + debug_form(name) + " 不合法（官方要求 ^[A-Za-z0-9_-]{1,32}$）"@)
}

pub fn validate_server_name(name: &str) -> (r: Result<(), PluginError>)
    ensures
        match r {
            Ok(()) => valid_name(name@),
            Err(e) => !valid_name(name@) && e@ == name_complaint(name@),
        },
{
    let v = text::chars_of(name);
    let mut fits = v.len() >= 1 && v.len() <= 32;
    let mut i: usize = 0;
    while fits && i < v.len()
        invariant
            v@ == name@,
            i <= v.len(),
            fits ==> 1 <= v@.len() <= 32,
            fits ==> forall|k: int| 0 <= k < i ==> name_char(#[trigger] name@[k]),
            !fits ==> !valid_name(name@),
        decreases v.len() - i + if fits { 1int } else { 0int },
    {
        if is_name_char(v[i]) {
            i += 1;
        } else {
            proof {
                assert(!name_char(name@[i as int]));
            }
            fits = false;
        }
    }
    if fits {
        Ok(())
    } else {
        Err(
            PluginError::illegal(
                text::cat3(
                    "serverName ",
                    text::debug_text(name).as_str(),
                    " 不合法（官方要求 ^[A-Za-z0-9_-]{1,32}$）",
                ),
            ),
        )
    }
}

/// What a transport needs is not given.
pub open spec fn lacking(
    transport: McpTransport,
    command: Option<Seq<char>>,
    url: Option<Seq<char>>,
) -> Option<ErrorText> {
    match transport {
        McpTransport::Stdio => if command is None || model::blank(command->0) {
            Some(illegal_error("transport stdio 缺少官方必填字段 command"@))
        } else {
            None
        },
        McpTransport::StreamableHttp => if url is None || model::blank(url->0) {
            Some(illegal_error("transport streamable-http 缺少官方必填字段 url"@))
        } else {
            None
        },
    }
}

pub fn validate_transport_required(
    transport: McpTransport,
    command: Option<&str>,
    url: Option<&str>,
) -> (r: Result<(), PluginError>)
    ensures
        match lacking(transport, model::slice_of(command), model::slice_of(url)) {
            Some(e) => r is Err && r->Err_0@ == e,
            None => r is Ok,
        },
{
    match transport {
        McpTransport::Stdio => {
            let given = match command {
                Some(s) => !text::blank(s),
                None => false,
            };
            if given {
                Ok(())
            } else {
                Err(
                    PluginError::illegal("transport stdio 缺少官方必填字段 command".to_owned()),
                )
            }
        },
        McpTransport::StreamableHttp => {
            let given = match url {
                Some(s) => !text::blank(s),
                None => false,
            };
            if given {
                Ok(())
            } else {
                Err(
                    PluginError::illegal(
                        "transport streamable-http 缺少官方必填字段 url".to_owned(),
                    ),
                )
            }
        },
    }
}

pub open spec fn taken_error(name: Seq<char>, row_id: Seq<char>) -> ErrorText {
    illegal_error("serverName "@ + name + " 已被行 "@ + row_id + " 占用"@)
}

/// A server name is free in the composed configuration.
pub fn validate_unique_server_name(name: &str, tree: &Vec<McpRow>) -> (r: Result<(), PluginError>)
    ensures
        match named_row(tree@, name@, 0) {
            Some(i) => r is Err && r->Err_0@ == taken_error(name@, tree@[i].row_id@),
            None => r is Ok,
        },
{
    match find_in_tree(tree, name) {
        Some(row) => Err(
            PluginError::illegal(
                text::cat5("serverName ", name, " 已被行 ", row.row_id.as_str(), " 占用"),
            ),
        ),
        None => Ok(()),
    }
}

pub open spec fn absent_error(server_name: Seq<char>) -> ErrorText {
    not_found_error(
        "MCP server "@ + server_name + " 不存在（合成树中没有该 serverName 的行）"@,
    )
}

fn absent(server_name: &str) -> (e: PluginError)
    ensures
        e@ == absent_error(server_name@),
{
    PluginError::not_found(
        text::cat3("MCP server ", server_name, " 不存在（合成树中没有该 serverName 的行）"),
    )
}

/// Why a server cannot be switched: it does not exist, or an expression decides.
pub open spec fn fixed(server_name: Seq<char>, row: Option<McpRow>) -> Option<ErrorText> {
    match row {
        None => Some(absent_error(server_name)),
        Some(row) => if row.disabled is None {
            Some(
                illegal_error(
                    "MCP server "@ + server_name + " 的 disabled 由表达式控制，无法通过启动器启停"@,
                ),
            )
        } else {
            None
        },
    }
}

/// Whether a server can be switched.
pub fn validate_transition(server_name: &str, row: Option<&McpRow>) -> (r: Result<(), PluginError>)
    ensures
        match fixed(server_name@, row_of(row)) {
            Some(e) => r is Err && r->Err_0@ == e,
            None => r is Ok,
        },
{
    match row {
        None => Err(absent(server_name)),
        Some(row) => if row.disabled.is_none() {
            Err(
                PluginError::illegal(
                    text::cat3(
                        "MCP server ",
                        server_name,
                        " 的 disabled 由表达式控制，无法通过启动器启停",
                    ),
                ),
            )
        } else {
            Ok(())
        },
    }
}

/// The row behind a reference that may be there.
pub open spec fn row_of(row: Option<&McpRow>) -> Option<McpRow> {
    match row {
        Some(r) => Some(*r),
        None => None,
    }
}

// ---- What a change does to the block ----

/// What a write must have brought about.
pub enum Expected {
    /// The row is off or on as given.
    RowDisabled(String, bool),
    /// The block no longer speaks of the row.
    NoDirective(String),
}

/// A write that is to be made.
pub struct McpWrite {
    /// What the block is to hold.
    pub next: McpBlock,
    /// What is checked after the write.
    pub expected: Option<Expected>,
    /// What is reported once the write has been checked.
    pub done: OpResult,
}

/// What an action on a tool server comes to.
pub enum McpStep {
    /// Nothing is written.
    Settled(OpResult),
    Write(McpWrite),
}

fn copy_declare(d: &McpDeclare) -> (r: McpDeclare)
    ensures
        r == *d,
{
    let server_name = match &d.server_name {
        Some(s) => Some(s.clone()),
        None => None,
    };
    McpDeclare {
        row_id: d.row_id.clone(),
        server_name,
        transport: d.transport,
        config_raw: d.config_raw.clone(),
    }
}

fn copy_directive(d: &McpDirective) -> (r: McpDirective)
    ensures
        r == *d,
{
    McpDirective { row_id: d.row_id.clone(), disabled: d.disabled }
}

/// The declarations of rows other than `row_id`.
pub open spec fn other_declares(declares: Seq<McpDeclare>, row_id: Seq<char>) -> Seq<McpDeclare>
    decreases declares.len(),
{
    if declares.len() == 0 {
        seq![]
    } else if declares.last().row_id@ == row_id {
        other_declares(declares.drop_last(), row_id)
    } else {
        other_declares(declares.drop_last(), row_id).push(declares.last())
    }
}

/// The directives for rows other than `row_id`.
pub open spec fn other_directives(directives: Seq<McpDirective>, row_id: Seq<char>) -> Seq<
    McpDirective,
>
    decreases directives.len(),
{
    if directives.len() == 0 {
        seq![]
    } else if directives.last().row_id@ == row_id {
        other_directives(directives.drop_last(), row_id)
    } else {
        other_directives(directives.drop_last(), row_id).push(directives.last())
    }
}

fn copy_declares(declares: &Vec<McpDeclare>) -> (r: Vec<McpDeclare>)
    ensures
        r@ == declares@,
{
    let mut r: Vec<McpDeclare> = Vec::new();
    let mut i: usize = 0;
    while i < declares.len()
        invariant
            i <= declares.len(),
            r@ == declares@.take(i as int),
        decreases declares.len() - i,
    {
        r.push(copy_declare(&declares[i]));
        proof {
            assert(r@ =~= declares@.take(i as int + 1));
        }
        i += 1;
    }
    proof {
        assert(declares@.take(declares.len() as int) =~= declares@);
    }
    r
}

fn copy_directives(directives: &Vec<McpDirective>) -> (r: Vec<McpDirective>)
    ensures
        r@ == directives@,
{
    let mut r: Vec<McpDirective> = Vec::new();
    let mut i: usize = 0;
    while i < directives.len()
        invariant
            i <= directives.len(),
            r@ == directives@.take(i as int),
        decreases directives.len() - i,
    {
        r.push(copy_directive(&directives[i]));
        proof {
            assert(r@ =~= directives@.take(i as int + 1));
        }
        i += 1;
    }
    proof {
        assert(directives@.take(directives.len() as int) =~= directives@);
    }
    r
}

fn keep_other_declares(declares: &Vec<McpDeclare>, row_id: &str) -> (r: Vec<McpDeclare>)
    ensures
        r@ == other_declares(declares@, row_id@),
{
    let mut r: Vec<McpDeclare> = Vec::new();
    let mut i: usize = 0;
    proof {
        assert(declares@.take(0) =~= seq![]);
    }
    while i < declares.len()
        invariant
            i <= declares.len(),
            r@ == other_declares(declares@.take(i as int), row_id@),
        decreases declares.len() - i,
    {
        proof {
            assert(declares@.take(i as int + 1).drop_last() =~= declares@.take(i as int));
        }
        if !text::same(declares[i].row_id.as_str(), row_id) {
            r.push(copy_declare(&declares[i]));
        }
        i += 1;
    }
    proof {
        assert(declares@.take(declares.len() as int) =~= declares@);
    }
    r
}

fn keep_other_directives(directives: &Vec<McpDirective>, row_id: &str) -> (r: Vec<McpDirective>)
    ensures
        r@ == other_directives(directives@, row_id@),
{
    let mut r: Vec<McpDirective> = Vec::new();
    let mut i: usize = 0;
    proof {
        assert(directives@.take(0) =~= seq![]);
    }
    while i < directives.len()
        invariant
            i <= directives.len(),
            r@ == other_directives(directives@.take(i as int), row_id@),
        decreases directives.len() - i,
    {
        proof {
            assert(directives@.take(i as int + 1).drop_last() =~= directives@.take(i as int));
        }
        if !text::same(directives[i].row_id.as_str(), row_id) {
            r.push(copy_directive(&directives[i]));
        }
        i += 1;
    }
    proof {
        assert(directives@.take(directives.len() as int) =~= directives@);
    }
    r
}

// ---- Adding ----

/// What can be told of a new server before anything is read: its transport.
pub open spec fn spec_refusal(spec: McpAddSpec) -> Option<ErrorText> {
    if McpTransport::named(model::trim(spec.transport@)) is None {
        Some(
            illegal_error(
                "未知 transport "@ + debug_form(spec.transport@)
                    + "（官方只有 stdio / streamable-http）"@,
            ),
        )
    } else if spec.raw_config is Some && spec.structured() {
        Some(
            illegal_error(
                "--raw-config 与结构化字段互斥，请只保留一种（原始通道用于 !!js / 未知字段透传）"@,
            ),
        )
    } else {
        None
    }
}

pub fn check_add_spec(spec: &McpAddSpec) -> (r: Result<McpTransport, PluginError>)
    ensures
        match spec_refusal(*spec) {
            Some(e) => r is Err && r->Err_0@ == e,
            None => r is Ok && McpTransport::named(model::trim(spec.transport@)) == Some(r->Ok_0),
        },
{
    let given = text::trim(spec.transport.as_str());
    match McpTransport::parse(given.as_str()) {
        None => Err(
            PluginError::illegal(
                text::cat3(
                    "未知 transport ",
                    text::debug_text(spec.transport.as_str()).as_str(),
                    "（官方只有 stdio / streamable-http）",
                ),
            ),
        ),
        Some(transport) => if spec.raw_config.is_some() && spec.has_structured() {
            Err(
                PluginError::illegal(
                    "--raw-config 与结构化字段互斥，请只保留一种（原始通道用于 !!js / 未知字段透传）".to_owned(),
                ),
            )
        } else {
            Ok(transport)
        },
    }
}

/// Servers can be added only where the package that provides them is installed.
pub fn require_prereq(installed: bool) -> (r: Result<(), PluginError>)
    ensures
        r is Ok == installed,
        r is Err ==> r->Err_0@ == (ErrorText {
            kind: PluginErrorKind::CapabilityMissing,
            message: "缺少前置 "@ + REQUIRED_PACKAGE@ + "（不可解析）；请在插件页安装后再添加 MCP server"@,
        }),
{
    if installed {
        Ok(())
    } else {
        Err(
            PluginError::new(
                PluginErrorKind::CapabilityMissing,
                text::cat3(
                    "缺少前置 ",
                    REQUIRED_PACKAGE,
                    "（不可解析）；请在插件页安装后再添加 MCP server",
                ),
            ),
        )
    }
}

/// The fields that a configuration carries at its top.
pub struct ConfigFields {
    pub command: Option<String>,
    pub url: Option<String>,
    pub transport: Option<String>,
    pub server_name: Option<String>,
}

/// What a `ConfigFields` holds.
pub ghost struct FieldTexts {
    pub command: Option<Seq<char>>,
    pub url: Option<Seq<char>>,
    pub transport: Option<Seq<char>>,
    pub server_name: Option<Seq<char>>,
}

impl View for ConfigFields {
    type V = FieldTexts;

    open spec fn view(&self) -> FieldTexts {
        FieldTexts {
            command: model::text_of(self.command),
            url: model::text_of(self.url),
            transport: model::text_of(self.transport),
            server_name: model::text_of(self.server_name),
        }
    }
}

/// The fields of a configuration.
pub open spec fn fields_in(config: Seq<char>) -> FieldTexts {
    FieldTexts {
        command: value_in(config, "command"@),
        url: value_in(config, "url"@),
        transport: value_in(config, "transport"@),
        server_name: value_in(config, "serverName"@),
    }
}

/// The row of a new server.
pub open spec fn row_for(spec: McpAddSpec) -> Seq<char> {
    match spec.row_id {
        Some(id) => if model::blank(id@) {
            "mcp-"@ + model::trim(spec.server_name@)
        } else {
            model::trim(id@)
        },
        None => "mcp-"@ + model::trim(spec.server_name@),
    }
}

/// The transport of a new server: the one in the configuration where that was given as a whole.
pub open spec fn transport_for(
    spec: McpAddSpec,
    transport: McpTransport,
    fields: FieldTexts,
) -> Option<McpTransport> {
    if spec.raw_config is Some {
        match fields.transport {
            Some(t) => McpTransport::named(t),
            None => None,
        }
    } else {
        Some(transport)
    }
}

/// How a text that may be there is shown for debugging.
pub open spec fn debug_option(s: Option<String>) -> Seq<char> {
    match s {
        Some(t) => "Some("@ + debug_form(t@) + ")"@,
        None => "None"@,
    }
}

/// Why a server cannot be added, in the order in which it is checked.
pub open spec fn add_refusal(
    spec: McpAddSpec,
    transport: McpTransport,
    fields: FieldTexts,
    tree: Seq<McpRow>,
    block: McpBlock,
) -> Option<ErrorText> {
    let name = model::trim(spec.server_name@);
    let row_id = row_for(spec);
    match transport_for(spec, transport, fields) {
        None => Some(
            illegal_error("原始 config 片段缺少官方必填字段 transport（stdio / streamable-http）"@),
        ),
        Some(used) => if !valid_name(name) {
            Some(name_complaint(name))
        } else if lacking(used, fields.command, fields.url) is Some {
            lacking(used, fields.command, fields.url)
        } else if named_row(tree, name, 0) is Some {
            Some(taken_error(name, tree[named_row(tree, name, 0)->0].row_id@))
        } else if block.declaration(row_id, 0) is Some {
            Some(
                illegal_error(
                    "受管区块已存在行 "@ + row_id + "（serverName "@ + debug_option(
                        block.declaration(row_id, 0)->0.server_name,
                    ) + "），不能重复声明"@,
                ),
            )
        } else {
            match fields.server_name {
                None => Some(illegal_error("config 体缺少官方必填字段 serverName"@)),
                Some(given) => if given != name {
                    Some(
                        illegal_error(
                            "config 中的 serverName（"@ + given + "）与目标 serverName（"@ + name
                                + "）不一致"@,
                        ),
                    )
                } else {
                    None
                },
            }
        },
    }
}

fn new_row_id(spec: &McpAddSpec, server_name: &str) -> (r: String)
    requires
        server_name@ == model::trim(spec.server_name@),
    ensures
        r@ == row_for(*spec),
{
    match &spec.row_id {
        Some(id) => if text::blank(id.as_str()) {
            text::cat2("mcp-", server_name)
        } else {
            text::trim(id.as_str())
        },
        None => text::cat2("mcp-", server_name),
    }
}

fn as_slice(s: &Option<String>) -> (r: Option<&str>)
    ensures
        model::slice_of(r) == model::text_of(*s),
{
    match s {
        Some(t) => Some(t.as_str()),
        None => None,
    }
}

fn debug_of(s: &Option<String>) -> (r: String)
    ensures
        r@ == debug_option(*s),
{
    match s {
        Some(t) => text::cat3("Some(", text::debug_text(t.as_str()).as_str(), ")"),
        None => "None".to_owned(),
    }
}

/// What adding a server with a configuration comes to: a refusal, or a block with its declaration
/// and a directive that switches it.
pub open spec fn adds(
    spec: McpAddSpec,
    transport: McpTransport,
    config: Seq<char>,
    fields: FieldTexts,
    tree: Seq<McpRow>,
    block: McpBlock,
    r: Result<McpWrite, PluginError>,
) -> bool {
    match add_refusal(spec, transport, fields, tree, block) {
        Some(e) => r is Err && r->Err_0@ == e,
        None => {
            &&& r is Ok
            &&& {
                let w = r->Ok_0;
                let name = model::trim(spec.server_name@);
                let declares = w.next.declares@;
                let directives = w.next.directives@;
                &&& declares.len() == block.declares@.len() + 1
                &&& declares.drop_last() == block.declares@
                &&& declares.last().row_id@ == row_for(spec)
                &&& model::text_of(declares.last().server_name) == Some(name)
                &&& declares.last().transport == transport_for(spec, transport, fields)
                &&& declares.last().config_raw@ == config
                &&& directives.len() == block.directives@.len() + 1
                &&& directives.drop_last() == block.directives@
                &&& directives.last().row_id@ == row_for(spec)
                &&& directives.last().disabled == spec.start_disabled
                &&& w.expected matches Some(Expected::RowDisabled(id, off)) && id@ == row_for(spec)
                    && off == spec.start_disabled
                &&& w.done.status@ == "changed"@
                &&& !w.done.restarted
                &&& w.done.message@ == "已添加 MCP server "@ + name + "（"@ + (
                if spec.start_disabled {
                    "已禁用"@
                } else {
                    "已启用"@
                }) + "）"@
                &&& model::text_of(w.done.server_name) == Some(name)
            }
        },
    }
}

/// Adds a server to the block: its declaration and a directive that switches it.
pub fn plan_add(
    spec: &McpAddSpec,
    transport: McpTransport,
    config_raw: String,
    fields: &ConfigFields,
    tree: &Vec<McpRow>,
    block: &McpBlock,
) -> (r: Result<McpWrite, PluginError>)
    ensures
        adds(*spec, transport, config_raw@, fields@, tree@, *block, r),
{
    let server_name = text::trim(spec.server_name.as_str());
    let row_id = new_row_id(spec, server_name.as_str());
    let used = if spec.raw_config.is_some() {
        let named = match &fields.transport {
            Some(t) => McpTransport::parse(t.as_str()),
            None => None,
        };
        match named {
            Some(t) => t,
            None => {
                return Err(
                    PluginError::illegal(
                        "原始 config 片段缺少官方必填字段 transport（stdio / streamable-http）".to_owned(),
                    ),
                );
            },
        }
    } else {
        transport
    };
    match validate_server_name(server_name.as_str()) {
        Err(e) => {
            return Err(e);
        },
        Ok(()) => {},
    }
    match validate_transport_required(used, as_slice(&fields.command), as_slice(&fields.url)) {
        Err(e) => {
            return Err(e);
        },
        Ok(()) => {},
    }
    match validate_unique_server_name(server_name.as_str(), tree) {
        Err(e) => {
            return Err(e);
        },
        Ok(()) => {},
    }
    if let Some(existing) = block.declare_by_row_id(row_id.as_str()) {
        return Err(
            PluginError::illegal(
                text::cat5(
                    "受管区块已存在行 ",
                    row_id.as_str(),
                    "（serverName ",
                    debug_of(&existing.server_name).as_str(),
                    "），不能重复声明",
                ),
            ),
        );
    }
    match &fields.server_name {
        None => {
            return Err(
                PluginError::illegal("config 体缺少官方必填字段 serverName".to_owned()),
            );
        },
        Some(given) => {
            if !text::same(given.as_str(), server_name.as_str()) {
                return Err(
                    PluginError::illegal(
                        text::cat5(
                            "config 中的 serverName（",
                            given.as_str(),
                            "）与目标 serverName（",
                            server_name.as_str(),
                            "）不一致",
                        ),
                    ),
                );
            }
        },
    }
    let mut declares = copy_declares(&block.declares);
    let mut directives = copy_directives(&block.directives);
    declares.push(
        McpDeclare {
            row_id: row_id.clone(),
            server_name: Some(server_name.clone()),
            transport: Some(used),
            config_raw,
        },
    );
    directives.push(McpDirective { row_id: row_id.clone(), disabled: spec.start_disabled });
    proof {
        assert(declares@.drop_last() =~= block.declares@);
        assert(directives@.drop_last() =~= block.directives@);
    }
    let state = if spec.start_disabled {
        "已禁用"
    } else {
        "已启用"
    };
    let message = text::cat5("已添加 MCP server ", server_name.as_str(), "（", state, "）");
    Ok(
        McpWrite {
            next: McpBlock { declares, directives },
            expected: Some(Expected::RowDisabled(row_id, spec.start_disabled)),
            done: OpResult::changed(message, Some(server_name)),
        },
    )
}

/// The configuration of a new server: the one that was given as a whole, in the form in which it is
/// kept, or else the one that the single options make up.
pub open spec fn config_for(spec: McpAddSpec, transport: McpTransport) -> Seq<char> {
    match spec.raw_config {
        Some(raw) => normalized(raw@),
        None => structured_config(spec, transport),
    }
}

/// Adds the server that a request asks for.
pub fn plan_add_spec(
    spec: &McpAddSpec,
    transport: McpTransport,
    tree: &Vec<McpRow>,
    block: &McpBlock,
) -> (r: Result<McpWrite, PluginError>)
    ensures
        adds(
            *spec,
            transport,
            config_for(*spec, transport),
            fields_in(config_for(*spec, transport)),
            tree@,
            *block,
            r,
        ),
{
    let config = match &spec.raw_config {
        Some(raw) => normalize_config(raw.as_str()),
        None => render_structured_config(spec, transport),
    };
    let fields = ConfigFields {
        command: config_scalar(config.as_str(), "command"),
        url: config_scalar(config.as_str(), "url"),
        transport: config_scalar(config.as_str(), "transport"),
        server_name: config_scalar(config.as_str(), "serverName"),
    };
    plan_add(spec, transport, config, &fields, tree, block)
}

// ---- Switching ----

pub open spec fn state_word(off: bool) -> Seq<char> {
    if off {
        "禁用"@
    } else {
        "启用"@
    }
}

fn state_name(off: bool) -> (r: &'static str)
    ensures
        r@ == state_word(off),
{
    if off {
        "禁用"
    } else {
        "启用"
    }
}

/// The directives after a row was switched: the first one for the row changes, or one is added.
pub open spec fn switched(block: McpBlock, row_id: String, off: bool) -> Seq<McpDirective> {
    match block.directive(row_id@, 0) {
        Some(i) => block.directives@.update(
            i,
            McpDirective { row_id: block.directives@[i].row_id, disabled: off },
        ),
        None => block.directives@.push(McpDirective { row_id, disabled: off }),
    }
}

/// The block already switches the row as asked.
pub open spec fn same_directive(block: McpBlock, row_id: Seq<char>, off: bool) -> bool {
    match block.directive(row_id, 0) {
        Some(i) => block.directives@[i].disabled == off,
        None => false,
    }
}

/// What switching a server comes to: a refusal, nothing to do, or a block with the directive set.
pub open spec fn switches(
    server_name: Seq<char>,
    row: Option<McpRow>,
    block: McpBlock,
    off: bool,
    r: Result<McpStep, PluginError>,
) -> bool {
    match fixed(server_name, row) {
        Some(e) => r is Err && r->Err_0@ == e,
        None => {
            &&& r is Ok
            &&& row is Some
            &&& if same_directive(block, row->0.row_id@, off) {
                r->Ok_0 matches McpStep::Settled(done) && {
                    &&& done.status@ == "unchanged"@
                    &&& !done.restarted
                    &&& done.message@ == "MCP server "@ + server_name + " 已处于"@ + state_word(off)
                        + "状态，无需变更"@
                    &&& model::text_of(done.server_name) == Some(server_name)
                }
            } else {
                r->Ok_0 matches McpStep::Write(w) && {
                    &&& w.next.declares@ == block.declares@
                    &&& w.next.directives@ == switched(block, row->0.row_id, off)
                    &&& w.expected matches Some(Expected::RowDisabled(id, b)) && id@
                        == row->0.row_id@ && b == off
                    &&& w.done.status@ == "changed"@
                    &&& !w.done.restarted
                    &&& w.done.message@ == "MCP server "@ + server_name + " 已"@ + state_word(off)
                    &&& model::text_of(w.done.server_name) == Some(server_name)
                }
            }
        },
    }
}

/// Switches a server on or off by its directive; its declaration is left alone.
pub fn plan_set_state(
    server_name: &str,
    row: Option<&McpRow>,
    block: &McpBlock,
    action: McpAction,
) -> (r: Result<McpStep, PluginError>)
    ensures
        switches(server_name@, row_of(row), *block, action == McpAction::Disable, r),
{
    match validate_transition(server_name, row) {
        Err(e) => {
            return Err(e);
        },
        Ok(()) => {},
    }
    let row = match row {
        Some(row) => row,
        None => {
            return Err(absent(server_name));
        },
    };
    let off = action.desired_disabled();
    let at = block.directive_index(row.row_id.as_str());
    let already = match at {
        Some(i) => block.directives[i].disabled == off,
        None => false,
    };
    if already {
        let message = text::cat5(
            "MCP server ",
            server_name,
            " 已处于",
            state_name(off),
            "状态，无需变更",
        );
        return Ok(McpStep::Settled(OpResult::unchanged(message, Some(server_name.to_owned()))));
    }
    let declares = copy_declares(&block.declares);
    let mut directives = copy_directives(&block.directives);
    match at {
        Some(i) => {
            let row_id = block.directives[i].row_id.clone();
            directives.set(i, McpDirective { row_id, disabled: off });
        },
        None => {
            directives.push(McpDirective { row_id: row.row_id.clone(), disabled: off });
        },
    }
    let message = text::cat4("MCP server ", server_name, " 已", state_name(off));
    Ok(
        McpStep::Write(
            McpWrite {
                next: McpBlock { declares, directives },
                expected: Some(Expected::RowDisabled(row.row_id.clone(), off)),
                done: OpResult::changed(message, Some(server_name.to_owned())),
            },
        ),
    )
}

/// Switches a server on or off.
pub fn set_enabled(
    server_name: &str,
    enabled: bool,
    tree: &Vec<McpRow>,
    block: &McpBlock,
) -> (r: Result<McpStep, PluginError>)
    ensures
        switches(
            server_name@,
            match named_row(tree@, server_name@, 0) {
                Some(i) => Some(tree@[i]),
                None => None,
            },
            *block,
            !enabled,
            r,
        ),
{
    let action = if enabled {
        McpAction::Enable
    } else {
        McpAction::Disable
    };
    plan_set_state(server_name, find_in_tree(tree, server_name), block, action)
}

// ---- Removing ----

/// Removes a server. One that the block declares is gone afterwards; of any other only the
/// directive is taken back.
pub fn plan_remove(server_name: &str, row: Option<&McpRow>, block: &McpBlock) -> (r: Result<
    McpStep,
    PluginError,
>)
    ensures
        match row {
            None => r is Err && r->Err_0@ == absent_error(server_name@),
            Some(row) => {
                &&& r is Ok
                &&& if block.origin(row.row_id@) == McpOrigin::Managed {
                    r->Ok_0 matches McpStep::Write(w) && {
                        &&& w.next.declares@ == other_declares(block.declares@, row.row_id@)
                        &&& w.next.directives@ == other_directives(block.directives@, row.row_id@)
                        &&& w.expected is None
                        &&& w.done.status@ == "changed"@
                        &&& !w.done.restarted
                        &&& w.done.message@ == "已删除受管 MCP server "@ + server_name@
                            + "（声明与定向覆盖均已移除）"@
                        &&& model::text_of(w.done.server_name) == Some(server_name@)
                    }
                } else if block.directive(row.row_id@, 0) is None {
                    r->Ok_0 matches McpStep::Settled(done) && {
                        &&& done.status@ == "unchanged"@
                        &&& !done.restarted
                        &&& done.message@ == "MCP server "@ + server_name@
                            + " 没有受管定向覆盖，无需变更"@
                        &&& model::text_of(done.server_name) == Some(server_name@)
                    }
                } else {
                    r->Ok_0 matches McpStep::Write(w) && {
                        &&& w.next.declares@ == block.declares@
                        &&& w.next.directives@ == other_directives(block.directives@, row.row_id@)
                        &&& w.expected matches Some(Expected::NoDirective(id)) && id@ == row.row_id@
                        &&& w.done.status@ == "changed"@
                        &&& !w.done.restarted
                        &&& w.done.message@ == "已撤销 MCP server "@ + server_name@
                            + " 的受管定向覆盖（声明仍由 "@ + row.section_owner@
                            + " 提供，服务器恢复默认启用）"@
                        &&& model::text_of(w.done.server_name) == Some(server_name@)
                    }
                }
            },
        },
{
    let row = match row {
        Some(row) => row,
        None => {
            return Err(absent(server_name));
        },
    };
    match block.derive_origin(row.row_id.as_str()) {
        McpOrigin::Managed => {
            let next = McpBlock {
                declares: keep_other_declares(&block.declares, row.row_id.as_str()),
                directives: keep_other_directives(&block.directives, row.row_id.as_str()),
            };
            let message = text::cat3(
                "已删除受管 MCP server ",
                server_name,
                "（声明与定向覆盖均已移除）",
            );
            Ok(
                McpStep::Write(
                    McpWrite {
                        next,
                        expected: None,
                        done: OpResult::changed(message, Some(server_name.to_owned())),
                    },
                ),
            )
        },
        McpOrigin::External => {
            if block.directive_by_row_id(row.row_id.as_str()).is_none() {
                let message = text::cat3(
                    "MCP server ",
                    server_name,
                    " 没有受管定向覆盖，无需变更",
                );
                return Ok(
                    McpStep::Settled(OpResult::unchanged(message, Some(server_name.to_owned()))),
                );
            }
            let next = McpBlock {
                declares: copy_declares(&block.declares),
                directives: keep_other_directives(&block.directives, row.row_id.as_str()),
            };
            let message = text::cat5(
                "已撤销 MCP server ",
                server_name,
                " 的受管定向覆盖（声明仍由 ",
                row.section_owner.as_str(),
                " 提供，服务器恢复默认启用）",
            );
            Ok(
                McpStep::Write(
                    McpWrite {
                        next,
                        expected: Some(Expected::NoDirective(row.row_id.clone())),
                        done: OpResult::changed(message, Some(server_name.to_owned())),
                    },
                ),
            )
        },
    }
}

// ---- Writing and checking ----

/// A write to the patch file.
pub struct FilePlan {
    pub edit: BlockEdit,
    /// The fingerprint of what must not change.
    pub print: String,
    /// There is something to be saved before the write.
    pub backup: bool,
}

/// The text of a file that may not exist.
pub open spec fn content_of(existing: Option<Seq<char>>) -> Seq<char> {
    match existing {
        Some(s) => s,
        None => ""@,
    }
}

/// Puts the block's new body into the patch file; `None` takes the block away.
pub fn plan_write(path: &str, existing: Option<&str>, body: Option<&str>) -> (r: Result<
    FilePlan,
    PluginError,
>)
    ensures
        ({
            let content = content_of(model::slice_of(existing));
            match outside_print(content) {
                Err(m) => r is Err && r->Err_0@ == conflict_error(m),
                Ok(print) => {
                    match edited(
                        path@,
                        model::slice_of(existing),
                        mcp_family().begin(),
                        mcp_family().end(),
                        model::slice_of(body),
                    ) {
                        Err(m) => r is Err && r->Err_0@ == conflict_error(m),
                        Ok(edit) => {
                            &&& r is Ok
                            &&& r->Ok_0.edit@ == edit
                            &&& r->Ok_0.print@ == print
                            &&& r->Ok_0.backup == (content.len() > 0)
                        },
                    }
                },
            }
        }),
{
    let content = match existing {
        Some(s) => s,
        None => "",
    };
    let print = match fingerprint_outside(content) {
        Ok(print) => print,
        Err(e) => {
            return Err(e);
        },
    };
    match apply_family(path, existing, mcp_block_family(), body) {
        Ok(edit) => Ok(FilePlan { edit, print, backup: !content.is_empty() }),
        Err(m) => Err(PluginError::conflict(m)),
    }
}

/// What was read back after a write.
pub enum Evidence {
    Nothing,
    /// The composed configuration, for a row that must be off or on.
    Tree { row_id: String, off: bool, tree: Result<Vec<McpRow>, PluginError> },
    /// The block, for a row that it must not speak of.
    Block { row_id: String, block: Result<McpBlock, PluginError> },
}

/// Whether the first row with an id is off.
pub open spec fn row_off(tree: Seq<McpRow>, row_id: Seq<char>, i: int) -> Option<bool>
    decreases tree.len() - i,
{
    if i < 0 || i >= tree.len() {
        None
    } else if tree[i].row_id@ == row_id {
        tree[i].disabled
    } else {
        row_off(tree, row_id, i + 1)
    }
}

fn find_row_off(tree: &Vec<McpRow>, row_id: &str) -> (r: Option<bool>)
    ensures
        r == row_off(tree@, row_id@, 0),
{
    let mut i: usize = 0;
    while i < tree.len()
        invariant
            i <= tree.len(),
            row_off(tree@, row_id@, 0) == row_off(tree@, row_id@, i as int),
        decreases tree.len() - i,
    {
        if text::same(tree[i].row_id.as_str(), row_id) {
            return tree[i].disabled;
        }
        i += 1;
    }
    None
}

pub open spec fn debug_flag(b: Option<bool>) -> Seq<char> {
    match b {
        Some(true) => "Some(true)"@,
        Some(false) => "Some(false)"@,
        None => "None"@,
    }
}

/// What the evidence shows to have gone wrong.
pub open spec fn evidence_failure(evidence: Evidence) -> Option<Seq<char>> {
    match evidence {
        Evidence::Nothing => None,
        Evidence::Tree { row_id, off, tree } => match tree {
            Ok(tree) => {
                let actual = row_off(tree@, row_id@, 0);
                if actual == Some(off) {
                    None
                } else {
                    Some(
                        "重新 dump 后行 "@ + row_id@ + " 的 disabled 与期望不一致（期望 "@ + bool_text(off)
                            + "，实际 "@ + debug_flag(actual) + "）"@,
                    )
                }
            },
            Err(e) => Some("写后校验无法读取合成树："@ + e.message@),
        },
        Evidence::Block { row_id, block } => match block {
            Ok(block) => if block.directive(row_id@, 0) is Some {
                Some("受管区块仍残留指向行 "@ + row_id@ + " 的定向覆盖（否则 dsh 每次启动都会 warn）"@)
            } else {
                None
            },
            Err(e) => Some("写后校验无法读取受管区块："@ + e.message@),
        },
    }
}

/// What is wrong with what stands outside the block after the write.
pub open spec fn outside_failures(print: Seq<char>, after: Seq<char>) -> Seq<Seq<char>> {
    match outside_print(after) {
        Ok(p) => if p == print {
            seq![]
        } else {
            seq!["受管 MCP 区块之外的**内容**发生变化（用户手写段 / 其它区块 / 注释被改动）"@]
        },
        Err(m) => seq![
            "写后无法读取受管区块（受管区块 marker 可能已损坏）："@ + m,
            "受管 MCP 区块之外的**内容**发生变化（用户手写段 / 其它区块 / 注释被改动）"@,
        ],
    }
}

/// Everything that is wrong after the write.
pub open spec fn write_failures(
    print: Seq<char>,
    after: Seq<char>,
    evidence: Evidence,
) -> Seq<Seq<char>> {
    outside_failures(print, after) + match evidence_failure(evidence) {
        Some(m) => seq![m],
        None => seq![],
    }
}

fn check_evidence(evidence: &Evidence) -> (r: Option<String>)
    ensures
        model::text_of(r) == evidence_failure(*evidence),
{
    match evidence {
        Evidence::Nothing => None,
        Evidence::Tree { row_id, off, tree } => match tree {
            Ok(tree) => {
                let actual = find_row_off(tree, row_id.as_str());
                let shown = match actual {
                    Some(b) => if b {
                        "Some(true)"
                    } else {
                        "Some(false)"
                    },
                    None => "None",
                };
                let agrees = match actual {
                    Some(b) => b == *off,
                    None => false,
                };
                if agrees {
                    None
                } else {
                    Some(
                        text::cat7(
                            "重新 dump 后行 ",
                            row_id.as_str(),
                            " 的 disabled 与期望不一致（期望 ",
                            bool_word(*off),
                            "，实际 ",
                            shown,
                            "）",
                        ),
                    )
                }
            },
            Err(e) => Some(text::cat2("写后校验无法读取合成树：", e.message.as_str())),
        },
        Evidence::Block { row_id, block } => match block {
            Ok(block) => if block.directive_by_row_id(row_id.as_str()).is_some() {
                Some(
                    text::cat3(
                        "受管区块仍残留指向行 ",
                        row_id.as_str(),
                        " 的定向覆盖（否则 dsh 每次启动都会 warn）",
                    ),
                )
            } else {
                None
            },
            Err(e) => Some(text::cat2("写后校验无法读取受管区块：", e.message.as_str())),
        },
    }
}

/// Holds a write against what it was meant to do: nothing outside the block has changed, and the
/// row is in the state that was asked for.
pub fn check_write(print: &str, after: &str, evidence: &Evidence) -> (r: Vec<String>)
    ensures
        model::texts(r@) == write_failures(print@, after@, *evidence),
{
    let mut failures: Vec<String> = Vec::new();
    match fingerprint_outside(after) {
        Ok(p) => {
            if !text::same(p.as_str(), print) {
                failures.push(
                    "受管 MCP 区块之外的**内容**发生变化（用户手写段 / 其它区块 / 注释被改动）".to_owned(),
                );
            }
        },
        Err(e) => {
            failures.push(
                text::cat2(
                    "写后无法读取受管区块（受管区块 marker 可能已损坏）：",
                    e.message.as_str(),
                ),
            );
            failures.push(
                "受管 MCP 区块之外的**内容**发生变化（用户手写段 / 其它区块 / 注释被改动）".to_owned(),
            );
        },
    }
    proof {
        assert(model::texts(failures@) =~= outside_failures(print@, after@));
    }
    if let Some(m) = check_evidence(evidence) {
        failures.push(m);
    }
    proof {
        assert(model::texts(failures@) =~= write_failures(print@, after@, *evidence));
    }
    failures
}

/// The outcome of a write whose failures led to the file being put back; `restore_error` says why
/// that did not succeed.
pub fn write_verdict(failures: Vec<String>, restore_error: Option<&str>) -> (r: Result<
    (),
    PluginError,
>)
    ensures
        r is Ok == (failures@.len() == 0),
        r is Err ==> r->Err_0@ == verification_error(
            "MCP 变更校验失败（已回滚）："@ + model::join(
                model::texts(failures@) + match restore_error {
                    Some(m) => seq!["回滚失败："@ + m@],
                    None => seq![],
                },
                "；"@,
            ),
        ),
{
    if failures.len() == 0 {
        return Ok(());
    }
    let mut all = failures;
    let ghost before = all@;
    if let Some(m) = restore_error {
        all.push(text::cat2("回滚失败：", m));
    }
    proof {
        assert(model::texts(all@) =~= model::texts(before) + match restore_error {
            Some(m) => seq!["回滚失败："@ + m@],
            None => seq![],
        });
    }
    Err(
        PluginError::verification(
            text::cat2("MCP 变更校验失败（已回滚）：", text::join(&all, "；").as_str()),
        ),
    )
}

/// Whether an error says that the managed block is malformed.
pub fn is_block_conflict(error: &PluginError) -> (b: bool)
    ensures
        b == (error.kind == PluginErrorKind::ManagedBlockConflict),
{
    matches!(error.kind, PluginErrorKind::ManagedBlockConflict)
}

} // verus!
