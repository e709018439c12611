//! Reading the options that describe a new tool server.

use crate::cli::arg_texts;
use crate::mcp_change::McpAddSpec;
use crate::model;
use crate::model::CharSet;
use crate::plugin::state::{illegal_error, ErrorText, PluginError};
use crate::text;
use crate::text::debug_form;
use vstd::prelude::*;

verus! {

/// A place among arguments.
pub struct ArgCursor<'a> {
    pub args: &'a [String],
    pub index: usize,
}

/// An option whose value may start with hyphens.
pub open spec fn takes_anything(flag: Seq<char>) -> bool {
    flag == "--arg"@ || flag == "--env"@ || flag == "--header"@
}

/// The value at a place: not a further option, unless the option takes anything.
pub open spec fn value_at(args: Seq<Seq<char>>, i: int, flag: Seq<char>) -> Result<
    Seq<char>,
    ErrorText,
> {
    if 0 <= i < args.len() && (!model::starts_with(args[i], "--"@) || (takes_anything(flag)
        && args[i] != "--"@)) {
        Ok(args[i])
    } else {
        Err(illegal_error(flag + " 需要一个值"@))
    }
}

impl<'a> ArgCursor<'a> {
    pub open spec fn texts(&self) -> Seq<Seq<char>> {
        arg_texts(self.args@)
    }

    pub fn new(args: &'a [String]) -> (r: Self)
        ensures
            r.args == args,
            r.index == 0,
    {
        ArgCursor { args, index: 0 }
    }

    /// The next argument, if there is one.
    pub fn next(&mut self) -> (r: Option<&'a str>)
        ensures
            final(self).args == old(self).args,
            if old(self).index < old(self).args@.len() {
                &&& r is Some
                &&& r->0@ == old(self).args@[old(self).index as int]@
                &&& final(self).index == old(self).index + 1
            } else {
                r is None && final(self).index == old(self).index
            },
    {
        if self.index < self.args.len() {
            let args = self.args;
            let value = args[self.index].as_str();
            self.index = self.index + 1;
            Some(value)
        } else {
            None
        }
    }

    /// The value of an option.
    pub fn take_value(&mut self, flag: &str) -> (r: Result<String, PluginError>)
        ensures
            final(self).args == old(self).args,
            match value_at(old(self).texts(), old(self).index as int, flag@) {
                Ok(v) => r is Ok && r->Ok_0@ == v && final(self).index == old(self).index + 1,
                Err(e) => r is Err && r->Err_0@ == e,
            },
    {
        proof {
            assert(self.texts().len() == self.args@.len());
            if self.index < self.args@.len() {
                assert(self.texts()[self.index as int] == self.args@[self.index as int]@);
            }
        }
        match self.next() {
            Some(value) => {
                let arbitrary = text::same(flag, "--arg") || text::same(flag, "--env")
                    || text::same(flag, "--header");
                if !text::starts_with(value, "--") || (arbitrary && !text::same(value, "--")) {
                    Ok(value.to_owned())
                } else {
                    Err(PluginError::illegal(text::cat2(flag, " 需要一个值")))
                }
            },
            None => Err(PluginError::illegal(text::cat2(flag, " 需要一个值"))),
        }
    }
}

/// A pair that is written `K=V` or `K: V`.
pub open spec fn pair_in(flag: Seq<char>, raw: Seq<char>) -> Result<
    (Seq<char>, Seq<char>),
    ErrorText,
> {
    let split = match model::split_once(raw, CharSet::Only('=')) {
        Some(p) => Some(p),
        None => model::split_once(raw, CharSet::Only(':')),
    };
    match split {
        Some((key, value)) => if model::blank(key) {
            Err(illegal_error(flag + " 需要 K=V 形态（如 --env FOO=bar）"@))
        } else {
            Ok((model::trim(key), model::trim(value)))
        },
        None => Err(illegal_error(flag + " 需要 K=V 形态（如 --env FOO=bar）"@)),
    }
}

pub fn parse_pair(flag: &str, raw: &str) -> (r: Result<(String, String), PluginError>)
    ensures
        match pair_in(flag@, raw@) {
            Ok((key, value)) => r is Ok && r->Ok_0.0@ == key && r->Ok_0.1@ == value,
            Err(e) => r is Err && r->Err_0@ == e,
        },
{
    let split = match text::split_once(raw, CharSet::Only('=')) {
        Some(p) => Some(p),
        None => text::split_once(raw, CharSet::Only(':')),
    };
    match split {
        Some((key, value)) => if text::blank(key.as_str()) {
            Err(
                PluginError::illegal(
                    text::cat2(flag, " 需要 K=V 形态（如 --env FOO=bar）"),
                ),
            )
        } else {
            Ok((text::trim(key.as_str()), text::trim(value.as_str())))
        },
        None => Err(
            PluginError::illegal(text::cat2(flag, " 需要 K=V 形态（如 --env FOO=bar）")),
        ),
    }
}

/// A truth value that is written `true` or `false`.
pub open spec fn bool_in(flag: Seq<char>, raw: Seq<char>) -> Result<bool, ErrorText> {
    let t = model::trim(raw);
    if t == "true"@ {
        Ok(true)
    } else if t == "false"@ {
        Ok(false)
    } else {
        Err(illegal_error(flag + " 只接受 true/false（收到 "@ + debug_form(t) + "）"@))
    }
}

pub fn parse_bool(flag: &str, raw: &str) -> (r: Result<bool, PluginError>)
    ensures
        match bool_in(flag@, raw@) {
            Ok(b) => r is Ok && r->Ok_0 == b,
            Err(e) => r is Err && r->Err_0@ == e,
        },
{
    let t = text::trim(raw);
    if text::same(t.as_str(), "true") {
        Ok(true)
    } else if text::same(t.as_str(), "false") {
        Ok(false)
    } else {
        Err(
            PluginError::illegal(
                text::cat4(
                    flag,
                    " 只接受 true/false（收到 ",
                    text::debug_text(t.as_str()).as_str(),
                    "）",
                ),
            ),
        )
    }
}

/// A number that is written in digits.
pub open spec fn number_in(flag: Seq<char>, raw: Seq<char>) -> Result<nat, ErrorText> {
    match model::parse_unsigned(model::trim(raw), u64::MAX as nat) {
        Some(n) => Ok(n),
        None => Err(illegal_error(flag + " 需要非负整数（收到 "@ + debug_form(raw) + "）"@)),
    }
}

pub fn parse_u64(flag: &str, raw: &str) -> (r: Result<u64, PluginError>)
    ensures
        match number_in(flag@, raw@) {
            Ok(n) => r is Ok && r->Ok_0 == n,
            Err(e) => r is Err && r->Err_0@ == e,
        },
{
    match text::parse_unsigned(text::trim(raw).as_str(), u64::MAX) {
        Some(n) => Ok(n),
        None => Err(
            PluginError::illegal(
                text::cat4(
                    flag,
                    " 需要非负整数（收到 ",
                    text::debug_text(raw).as_str(),
                    "）",
                ),
            ),
        ),
    }
}

// ---- The options of a new server ----

/// What is asked for in a new tool server, as texts.
pub ghost struct AddText {
    pub server_name: Seq<char>,
    pub transport: Seq<char>,
    pub row_id: Option<Seq<char>>,
    pub start_disabled: bool,
    pub command: Option<Seq<char>>,
    pub args: Seq<Seq<char>>,
    pub env: Seq<(Seq<char>, Seq<char>)>,
    pub cwd: Option<Seq<char>>,
    pub url: Option<Seq<char>>,
    pub headers: Seq<(Seq<char>, Seq<char>)>,
    pub tool_call_timeout_ms: Option<u64>,
    pub reconnect_enabled: Option<bool>,
    pub reconnect_initial_delay_ms: Option<u64>,
    pub reconnect_max_delay_ms: Option<u64>,
    pub reconnect_max_attempts: Option<u64>,
    pub raw_config: Option<Seq<char>>,
}

pub open spec fn pairs_of(v: Seq<(String, String)>) -> Seq<(Seq<char>, Seq<char>)> {
    v.map_values(|p: (String, String)| (p.0@, p.1@))
}

impl View for McpAddSpec {
    type V = AddText;

    open spec fn view(&self) -> AddText {
        AddText {
            server_name: self.server_name@,
            transport: self.transport@,
            row_id: model::text_of(self.row_id),
            start_disabled: self.start_disabled,
            command: model::text_of(self.command),
            args: model::texts(self.args@),
            env: pairs_of(self.env@),
            cwd: model::text_of(self.cwd),
            url: model::text_of(self.url),
            headers: pairs_of(self.headers@),
            tool_call_timeout_ms: self.tool_call_timeout_ms,
            reconnect_enabled: self.reconnect_enabled,
            reconnect_initial_delay_ms: self.reconnect_initial_delay_ms,
            reconnect_max_delay_ms: self.reconnect_max_delay_ms,
            reconnect_max_attempts: self.reconnect_max_attempts,
            raw_config: model::text_of(self.raw_config),
        }
    }
}

/// Nothing is asked for.
pub open spec fn blank_spec() -> AddText {
    AddText {
        server_name: seq![],
        transport: seq![],
        row_id: None,
        start_disabled: false,
        command: None,
        args: seq![],
        env: seq![],
        cwd: None,
        url: None,
        headers: seq![],
        tool_call_timeout_ms: None,
        reconnect_enabled: None,
        reconnect_initial_delay_ms: None,
        reconnect_max_delay_ms: None,
        reconnect_max_attempts: None,
        raw_config: None,
    }
}

/// The name of an option, and the value that is written behind it.
pub open spec fn option_parts(arg: Seq<char>) -> (Seq<char>, Option<Seq<char>>) {
    match model::split_once(arg, CharSet::Only('=')) {
        Some((flag, value)) => if model::starts_with(flag, "--"@) {
            (flag, Some(value))
        } else {
            (arg, None)
        },
        None => (arg, None),
    }
}

/// An option with a value.
pub open spec fn needs_value(flag: Seq<char>) -> bool {
    ||| flag == "--server-name"@
    ||| flag == "--transport"@
    ||| flag == "--id"@
    ||| flag == "--command"@
    ||| flag == "--arg"@
    ||| flag == "--env"@
    ||| flag == "--cwd"@
    ||| flag == "--url"@
    ||| flag == "--header"@
    ||| flag == "--tool-call-timeout-ms"@
    ||| flag == "--reconnect-enabled"@
    ||| flag == "--reconnect-initial-delay-ms"@
    ||| flag == "--reconnect-max-delay-ms"@
    ||| flag == "--reconnect-max-attempts"@
    ||| flag == "--raw-config"@
}

/// What an option with a value adds to what is asked for. The raw configuration, which is read from
/// a file, is not among them.
pub open spec fn with_option(spec: AddText, flag: Seq<char>, value: Seq<char>) -> Result<
    AddText,
    ErrorText,
> {
    if flag == "--server-name"@ {
        Ok(AddText { server_name: value, ..spec })
    } else if flag == "--transport"@ {
        Ok(AddText { transport: value, ..spec })
    } else if flag == "--id"@ {
        Ok(AddText { row_id: Some(value), ..spec })
    } else if flag == "--command"@ {
        Ok(AddText { command: Some(value), ..spec })
    } else if flag == "--arg"@ {
        Ok(AddText { args: spec.args.push(value), ..spec })
    } else if flag == "--env"@ {
        match pair_in(flag, value) {
            Ok(p) => Ok(AddText { env: spec.env.push(p), ..spec }),
            Err(e) => Err(e),
        }
    } else if flag == "--cwd"@ {
        Ok(AddText { cwd: Some(value), ..spec })
    } else if flag == "--url"@ {
        Ok(AddText { url: Some(value), ..spec })
    } else if flag == "--header"@ {
        match pair_in(flag, value) {
            Ok(p) => Ok(AddText { headers: spec.headers.push(p), ..spec }),
            Err(e) => Err(e),
        }
    } else if flag == "--reconnect-enabled"@ {
        match bool_in(flag, value) {
            Ok(b) => Ok(AddText { reconnect_enabled: Some(b), ..spec }),
            Err(e) => Err(e),
        }
    } else if flag == "--tool-call-timeout-ms"@ {
        match number_in(flag, value) {
            Ok(n) => Ok(AddText { tool_call_timeout_ms: Some(n as u64), ..spec }),
            Err(e) => Err(e),
        }
    } else if flag == "--reconnect-initial-delay-ms"@ {
        match number_in(flag, value) {
            Ok(n) => Ok(AddText { reconnect_initial_delay_ms: Some(n as u64), ..spec }),
            Err(e) => Err(e),
        }
    } else if flag == "--reconnect-max-delay-ms"@ {
        match number_in(flag, value) {
            Ok(n) => Ok(AddText { reconnect_max_delay_ms: Some(n as u64), ..spec }),
            Err(e) => Err(e),
        }
    } else {
        match number_in(flag, value) {
            Ok(n) => Ok(AddText { reconnect_max_attempts: Some(n as u64), ..spec }),
            Err(e) => Err(e),
        }
    }
}

/// What reading options comes to.
pub ghost enum Reading {
    /// A file is to be read before the arguments from `next` on.
    File { path: Seq<char>, next: int, spec: AddText },
    Done(AddText),
    Failed(ErrorText),
}

/// What is missing once all options are read.
pub open spec fn completed(spec: AddText) -> Reading {
    if model::blank(spec.server_name) {
        Reading::Failed(
            illegal_error(
                "必须提供 --server-name（面向模型的稳定身份，官方要求 ^[A-Za-z0-9_-]{1,32}$）"@,
            ),
        )
    } else if model::blank(spec.transport) {
        Reading::Failed(illegal_error("必须提供 --transport <stdio|streamable-http>"@))
    } else {
        Reading::Done(spec)
    }
}

/// Reads the options from a place on, up to the next file.
pub open spec fn reading(args: Seq<Seq<char>>, i: int, spec: AddText) -> Reading
    decreases args.len() - i,
{
    if i < 0 || i >= args.len() {
        completed(spec)
    } else {
        let (flag, inline) = option_parts(args[i]);
        if flag == "--start-disabled"@ {
            reading(args, i + 1, AddText { start_disabled: true, ..spec })
        } else if flag == "--json"@ {
            reading(args, i + 1, spec)
        } else if !needs_value(flag) {
            Reading::Failed(illegal_error("未知选项: "@ + flag))
        } else {
            let next = if inline is Some {
                i + 1
            } else {
                i + 2
            };
            let value = match inline {
                Some(v) => Ok(v),
                None => value_at(args, i + 1, flag),
            };
            match value {
                Err(e) => Reading::Failed(e),
                Ok(v) => if flag == "--raw-config"@ {
                    Reading::File { path: v, next, spec }
                } else {
                    match with_option(spec, flag, v) {
                        Err(e) => Reading::Failed(e),
                        Ok(s) => if next <= args.len() {
                            reading(args, next, s)
                        } else {
                            completed(s)
                        },
                    }
                },
            }
        }
    }
}

/// Options that are being read.
pub struct AddOptions<'a> {
    pub cursor: ArgCursor<'a>,
    pub spec: McpAddSpec,
}

/// How the reading goes on.
pub enum AddStep<'a> {
    /// The file with the raw configuration is to be read.
    ReadFile { path: String, rest: AddOptions<'a> },
    Done(McpAddSpec),
    Failed(PluginError),
}

fn apply_option(spec: &mut McpAddSpec, flag: &str, value: String) -> (r: Result<(), PluginError>)
    requires
        needs_value(flag@),
        flag@ != "--raw-config"@,
    ensures
        match with_option(old(spec)@, flag@, value@) {
            Ok(s) => r is Ok && final(spec)@ == s,
            Err(e) => r is Err && r->Err_0@ == e,
        },
{
    let ghost before = spec@;
    if text::same(flag, "--server-name") {
        spec.server_name = value;
    } else if text::same(flag, "--transport") {
        spec.transport = value;
    } else if text::same(flag, "--id") {
        spec.row_id = Some(value);
    } else if text::same(flag, "--command") {
        spec.command = Some(value);
    } else if text::same(flag, "--arg") {
        let ghost added = value@;
        spec.args.push(value);
        proof {
            assert(model::texts(spec.args@) =~= before.args.push(added));
        }
    } else if text::same(flag, "--env") {
        match parse_pair(flag, value.as_str()) {
            Ok(p) => {
                let ghost added = (p.0@, p.1@);
                spec.env.push(p);
                proof {
                    assert(pairs_of(spec.env@) =~= before.env.push(added));
                }
            },
            Err(e) => {
                return Err(e);
            },
        }
    } else if text::same(flag, "--cwd") {
        spec.cwd = Some(value);
    } else if text::same(flag, "--url") {
        spec.url = Some(value);
    } else if text::same(flag, "--header") {
        match parse_pair(flag, value.as_str()) {
            Ok(p) => {
                let ghost added = (p.0@, p.1@);
                spec.headers.push(p);
                proof {
                    assert(pairs_of(spec.headers@) =~= before.headers.push(added));
                }
            },
            Err(e) => {
                return Err(e);
            },
        }
    } else if text::same(flag, "--reconnect-enabled") {
        match parse_bool(flag, value.as_str()) {
            Ok(b) => {
                spec.reconnect_enabled = Some(b);
            },
            Err(e) => {
                return Err(e);
            },
        }
    } else {
        match parse_u64(flag, value.as_str()) {
            Ok(n) => {
                if text::same(flag, "--tool-call-timeout-ms") {
                    spec.tool_call_timeout_ms = Some(n);
                } else if text::same(flag, "--reconnect-initial-delay-ms") {
                    spec.reconnect_initial_delay_ms = Some(n);
                } else if text::same(flag, "--reconnect-max-delay-ms") {
                    spec.reconnect_max_delay_ms = Some(n);
                } else {
                    spec.reconnect_max_attempts = Some(n);
                }
            },
            Err(e) => {
                return Err(e);
            },
        }
    }
    Ok(())
}

fn wants_value(flag: &str) -> (b: bool)
    ensures
        b == needs_value(flag@),
{
    text::same(flag, "--server-name") || text::same(flag, "--transport") || text::same(flag, "--id")
        || text::same(flag, "--command") || text::same(flag, "--arg") || text::same(flag, "--env")
        || text::same(flag, "--cwd") || text::same(flag, "--url") || text::same(flag, "--header")
        || text::same(flag, "--tool-call-timeout-ms") || text::same(flag, "--reconnect-enabled")
        || text::same(flag, "--reconnect-initial-delay-ms") || text::same(
        flag,
        "--reconnect-max-delay-ms",
    ) || text::same(flag, "--reconnect-max-attempts") || text::same(flag, "--raw-config")
}

fn split_option(arg: &str) -> (r: (String, Option<String>))
    ensures
        (r.0@, model::text_of(r.1)) == option_parts(arg@),
{
    match text::split_once(arg, CharSet::Only('=')) {
        Some((flag, value)) => if text::starts_with(flag.as_str(), "--") {
            (flag, Some(value))
        } else {
            (arg.to_owned(), None)
        },
        None => (arg.to_owned(), None),
    }
}

fn complete(spec: McpAddSpec) -> (r: Result<McpAddSpec, PluginError>)
    ensures
        match completed(spec@) {
            Reading::Done(s) => r is Ok && r->Ok_0@ == s,
            Reading::Failed(e) => r is Err && r->Err_0@ == e,
            _ => false,
        },
{
    if text::blank(spec.server_name.as_str()) {
        return Err(
            PluginError::illegal(
                "必须提供 --server-name（面向模型的稳定身份，官方要求 ^[A-Za-z0-9_-]{1,32}$）".to_owned(),
            ),
        );
    }
    if text::blank(spec.transport.as_str()) {
        return Err(
            PluginError::illegal("必须提供 --transport <stdio|streamable-http>".to_owned()),
        );
    }
    Ok(spec)
}

/// Begins to read the options of a new tool server.
pub fn build_add_spec(args: &[String]) -> (r: AddOptions<'_>)
    ensures
        r.cursor.args == args,
        r.cursor.index == 0,
        r.spec@ == blank_spec(),
{
    let spec: McpAddSpec = Default::default();
    proof {
        assert(model::texts(spec.args@) =~= seq![]);
        assert(pairs_of(spec.env@) =~= seq![]);
        assert(pairs_of(spec.headers@) =~= seq![]);
        assert(spec@ == blank_spec());
    }
    AddOptions { cursor: ArgCursor::new(args), spec }
}

impl<'a> AddOptions<'a> {
    /// Reads on, up to the next file or the end.
    pub fn resume(self) -> (r: AddStep<'a>)
        requires
            self.cursor.index <= self.cursor.args@.len(),
        ensures
            match reading(self.cursor.texts(), self.cursor.index as int, self.spec@) {
                Reading::File { path, next, spec } => r matches AddStep::ReadFile { path: p, rest }
                    && p@ == path && rest.cursor.args == self.cursor.args && rest.cursor.index
                    == next && next <= self.cursor.args@.len() && rest.spec@ == spec,
                Reading::Done(spec) => r matches AddStep::Done(s) && s@ == spec,
                Reading::Failed(e) => r matches AddStep::Failed(x) && x@ == e,
            },
    {
        let ghost start = self.cursor.index as int;
        let ghost first = self.spec@;
        let args = self.cursor.args;
        let ghost all = arg_texts(args@);
        let mut cursor = self.cursor;
        let mut spec = self.spec;
        proof {
            assert(all.len() == args@.len());
        }
        while cursor.index < args.len()
            invariant
                cursor.args == args,
                all == arg_texts(args@),
                all.len() == args@.len(),
                all == self.cursor.texts(),
                self.cursor.args == args,
                start == self.cursor.index,
                first == self.spec@,
                cursor.index <= args.len(),
                reading(all, start, first) == reading(all, cursor.index as int, spec@),
            decreases args.len() - cursor.index,
        {
            let ghost at = cursor.index as int;
            let ghost now = spec@;
            proof {
                assert(all[at] == args@[at]@);
            }
            let (flag, inline) = split_option(args[cursor.index].as_str());
            cursor.index = cursor.index + 1;
            if text::same(flag.as_str(), "--start-disabled") {
                spec.start_disabled = true;
                proof {
                    assert(spec@ == (AddText { start_disabled: true, ..now }));
                }
            } else if text::same(flag.as_str(), "--json") {
            } else if !wants_value(flag.as_str()) {
                return AddStep::Failed(
                    PluginError::illegal(text::cat2("未知选项: ", flag.as_str())),
                );
            } else {
                let value = match inline {
                    Some(v) => v,
                    None => match cursor.take_value(flag.as_str()) {
                        Ok(v) => v,
                        Err(e) => {
                            return AddStep::Failed(e);
                        },
                    },
                };
                if text::same(flag.as_str(), "--raw-config") {
                    return AddStep::ReadFile { path: value, rest: AddOptions { cursor, spec } };
                }
                match apply_option(&mut spec, flag.as_str(), value) {
                    Ok(()) => {},
                    Err(e) => {
                        return AddStep::Failed(e);
                    },
                }
            }
        }
        match complete(spec) {
            Ok(s) => AddStep::Done(s),
            Err(e) => AddStep::Failed(e),
        }
    }

    /// Takes the file that was asked for.
    pub fn supply(self, path: &str, content: Result<String, String>) -> (r: Result<
        AddOptions<'a>,
        PluginError,
    >)
        ensures
            match content {
                Ok(raw) => {
                    &&& r is Ok
                    &&& r->Ok_0.cursor == self.cursor
                    &&& r->Ok_0.spec@ == (AddText { raw_config: Some(raw@), ..self.spec@ })
                },
                Err(m) => r is Err && r->Err_0@ == illegal_error(
                    "读取 --raw-config 文件 "@ + path@ + " 失败: "@ + m@,
                ),
            },
    {
        match content {
            Ok(raw) => {
                let mut spec = self.spec;
                spec.raw_config = Some(raw);
                Ok(AddOptions { cursor: self.cursor, spec })
            },
            Err(m) => Err(
                PluginError::illegal(
                    text::cat4("读取 --raw-config 文件 ", path, " 失败: ", m.as_str()),
                ),
            ),
        }
    }
}

} // verus!
