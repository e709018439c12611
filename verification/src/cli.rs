//! The command line: what is asked for, and how results are printed.

use crate::mcp::{McpMark, McpOrigin, McpServerView, ReloadMode};
use crate::model;
use crate::plugin::lifecycle::SyncItemResult;
use crate::plugin::service::PluginView;
use crate::plugin::spec::Origin;
use crate::plugin::state::PluginError;
use crate::text;
use vstd::prelude::*;

verus! {

// ---- Arguments ----

pub open spec fn arg_texts(args: Seq<String>) -> Seq<Seq<char>> {
    model::texts(args)
}

/// The first argument is a subcommand or asks for help or the version.
pub open spec fn for_cli(args: Seq<Seq<char>>) -> bool {
    args.len() > 0 && {
        ||| args[0] == "plugin"@
        ||| args[0] == "skill"@
        ||| args[0] == "mcp"@
        ||| args[0] == "--help"@
        ||| args[0] == "-h"@
        ||| args[0] == "--version"@
        ||| args[0] == "-V"@
    }
}

/// Whether the arguments are for the command line rather than the graphical interface.
pub fn is_cli_invocation(args: &[String]) -> (b: bool)
    ensures
        b == for_cli(arg_texts(args@)),
{
    proof {
        assert(arg_texts(args@).len() == args@.len());
    }
    if args.len() == 0 {
        return false;
    }
    proof {
        assert(arg_texts(args@)[0] == args@[0]@);
    }
    let first = args[0].as_str();
    text::same(first, "plugin") || text::same(first, "skill") || text::same(first, "mcp")
        || text::same(first, "--help") || text::same(first, "-h") || text::same(first, "--version")
        || text::same(first, "-V")
}

/// The first position of a text from `i` on.
pub open spec fn position(args: Seq<Seq<char>>, flag: Seq<char>, i: int) -> Option<int>
    decreases args.len() - i,
{
    if i < 0 || i >= args.len() {
        None
    } else if args[i] == flag {
        Some(i)
    } else {
        position(args, flag, i + 1)
    }
}

fn find_arg(args: &[String], flag: &str) -> (r: Option<usize>)
    ensures
        match r {
            Some(i) => i < args@.len() && position(arg_texts(args@), flag@, 0) == Some(i as int),
            None => position(arg_texts(args@), flag@, 0) is None,
        },
{
    let mut i: usize = 0;
    proof {
        assert(arg_texts(args@).len() == args@.len());
    }
    while i < args.len()
        invariant
            i <= args.len(),
            arg_texts(args@).len() == args@.len(),
            position(arg_texts(args@), flag@, 0) == position(arg_texts(args@), flag@, i as int),
        decreases args.len() - i,
    {
        proof {
            assert(arg_texts(args@)[i as int] == args@[i as int]@);
        }
        if text::same(args[i].as_str(), flag) {
            return Some(i);
        }
        i += 1;
    }
    None
}

pub proof fn lemma_position(args: Seq<Seq<char>>, flag: Seq<char>, i: int)
    requires
        0 <= i <= args.len(),
    ensures
        match position(args, flag, i) {
            Some(k) => i <= k < args.len() && args[k] == flag,
            None => forall|k: int| i <= k < args.len() ==> #[trigger] args[k] != flag,
        },
    decreases args.len() - i,
{
    if i < args.len() && args[i] != flag {
        lemma_position(args, flag, i + 1);
    }
}

/// Whether a flag is given.
pub fn has_flag(args: &[String], flag: &str) -> (b: bool)
    ensures
        b == arg_texts(args@).contains(flag@),
{
    proof {
        lemma_position(arg_texts(args@), flag@, 0);
    }
    find_arg(args, flag).is_some()
}

/// What stands after the first occurrence of a flag.
pub open spec fn value_after(args: Seq<Seq<char>>, flag: Seq<char>) -> Option<Seq<char>> {
    match position(args, flag, 0) {
        Some(i) => if i + 1 < args.len() {
            Some(args[i + 1])
        } else {
            None
        },
        None => None,
    }
}

pub fn flag_value(args: &[String], flag: &str) -> (r: Option<String>)
    ensures
        model::text_of(r) == value_after(arg_texts(args@), flag@),
{
    proof {
        assert(arg_texts(args@).len() == args@.len());
    }
    match find_arg(args, flag) {
        Some(i) => if args.len() - i > 1 {
            proof {
                assert(arg_texts(args@)[i + 1] == args@[i + 1]@);
            }
            Some(args[i + 1].clone())
        } else {
            None
        },
        None => None,
    }
}

/// A flag after which a value stands.
pub open spec fn valued(arg: Seq<char>) -> bool {
    ||| arg == "--origin"@
    ||| arg == "--package"@
    ||| arg == "--mode"@
    ||| arg == "--resource"@
}

/// The arguments from `i` on that are neither flags nor their values.
pub open spec fn positionals(args: Seq<Seq<char>>, i: int) -> Seq<Seq<char>>
    decreases args.len() + 2 - i,
{
    if i < 0 || i >= args.len() {
        seq![]
    } else if model::starts_with(args[i], "--"@) {
        if valued(args[i]) {
            positionals(args, i + 2)
        } else {
            positionals(args, i + 1)
        }
    } else {
        seq![args[i]] + positionals(args, i + 1)
    }
}

/// The argument with the given number among those that are neither flags nor their values.
pub open spec fn positional_of(args: Seq<Seq<char>>, n: int) -> Option<Seq<char>> {
    if 0 <= n < positionals(args, 0).len() {
        Some(positionals(args, 0)[n])
    } else {
        None
    }
}

pub fn positional(args: &[String], n: usize) -> (r: Option<String>)
    ensures
        model::text_of(r) == positional_of(arg_texts(args@), n as int),
{
    let ghost all = arg_texts(args@);
    let ghost mut done = Seq::<Seq<char>>::empty();
    let mut seen: usize = 0;
    let mut i: usize = 0;
    proof {
        assert(all.len() == args@.len());
        assert(done + positionals(all, 0) =~= positionals(all, 0));
    }
    while i < args.len()
        invariant
            all == arg_texts(args@),
            all.len() == args@.len(),
            seen <= n,
            seen <= i,
            done.len() == seen,
            done + positionals(all, i as int) == positionals(all, 0),
        decreases args.len() - i,
    {
        proof {
            assert(all[i as int] == args@[i as int]@);
        }
        let arg = args[i].as_str();
        if text::starts_with(arg, "--") {
            if text::same(arg, "--origin") || text::same(arg, "--package") || text::same(
                arg,
                "--mode",
            ) || text::same(arg, "--resource") {
                if args.len() - i < 2 {
                    proof {
                        assert(positionals(all, i + 2) =~= seq![]);
                        assert(done + positionals(all, i as int) =~= done);
                    }
                    return None;
                }
                i += 2;
            } else {
                i += 1;
            }
        } else {
            let ghost rest = positionals(all, i + 1);
            proof {
                assert(done + (seq![all[i as int]] + rest) =~= done.push(all[i as int]) + rest);
            }
            if seen == n {
                proof {
                    assert(positionals(all, 0)[n as int] == all[i as int]);
                }
                return Some(args[i].clone());
            }
            proof {
                done = done.push(all[i as int]);
            }
            seen += 1;
            i += 1;
        }
    }
    proof {
        assert(done + positionals(all, i as int) =~= done);
    }
    None
}

// ---- What is asked for ----

/// What the command line asks for as a whole.
pub enum TopCommand {
    Help,
    Version,
    Plugin,
    Skill,
    Mcp,
    /// An unknown subcommand.
    Unknown(String),
}

/// Reads the whole command line.
pub fn parse_top(args: &[String]) -> (r: TopCommand)
    ensures
        ({
            let t = arg_texts(args@);
            if t.contains("--help"@) || t.contains("-h"@) {
                r is Help
            } else if t.contains("--version"@) || t.contains("-V"@) {
                r is Version
            } else if t.len() == 0 {
                r is Help
            } else if t[0] == "plugin"@ {
                r is Plugin
            } else if t[0] == "skill"@ {
                r is Skill
            } else if t[0] == "mcp"@ {
                r is Mcp
            } else {
                r matches TopCommand::Unknown(m) && m@ == "未知子命令: "@ + t[0] + "\n"@
            }
        }),
{
    proof {
        assert(arg_texts(args@).len() == args@.len());
    }
    if has_flag(args, "--help") || has_flag(args, "-h") {
        return TopCommand::Help;
    }
    if has_flag(args, "--version") || has_flag(args, "-V") {
        return TopCommand::Version;
    }
    if args.len() == 0 {
        return TopCommand::Help;
    }
    proof {
        assert(arg_texts(args@)[0] == args@[0]@);
    }
    let group = args[0].as_str();
    if text::same(group, "plugin") {
        TopCommand::Plugin
    } else if text::same(group, "skill") {
        TopCommand::Skill
    } else if text::same(group, "mcp") {
        TopCommand::Mcp
    } else {
        TopCommand::Unknown(text::cat3("未知子命令: ", group, "\n"))
    }
}

/// What is asked of plugins.
pub enum PluginCommand {
    List,
    Install { spec: String, origin: Option<Origin> },
    SetState { package: String, enabled: bool },
    Uninstall { package: String },
    Sync { apply: bool, only: Option<String> },
    Repair { only: Option<String> },
}

/// What is asked of plugins, as texts.
pub ghost enum PluginAsk {
    List,
    Install { spec: Seq<char>, origin: Option<Origin> },
    SetState { package: Seq<char>, enabled: bool },
    Uninstall { package: Seq<char> },
    Sync { apply: bool, only: Option<Seq<char>> },
    Repair { only: Option<Seq<char>> },
}

impl View for PluginCommand {
    type V = PluginAsk;

    open spec fn view(&self) -> PluginAsk {
        match self {
            PluginCommand::List => PluginAsk::List,
            PluginCommand::Install { spec, origin } => PluginAsk::Install {
                spec: spec@,
                origin: *origin,
            },
            PluginCommand::SetState { package, enabled } => PluginAsk::SetState {
                package: package@,
                enabled: *enabled,
            },
            PluginCommand::Uninstall { package } => PluginAsk::Uninstall { package: package@ },
            PluginCommand::Sync { apply, only } => PluginAsk::Sync {
                apply: *apply,
                only: model::text_of(*only),
            },
            PluginCommand::Repair { only } => PluginAsk::Repair { only: model::text_of(*only) },
        }
    }
}

/// The origin that a text names; nothing and an empty text name none.
pub open spec fn origin_named(s: Option<Seq<char>>) -> Result<Option<Origin>, Seq<char>> {
    match s {
        None => Ok(None),
        Some(t) => if t.len() == 0 {
            Ok(None)
        } else if t == "upstream"@ {
            Ok(Some(Origin::Upstream))
        } else if t == "in-house"@ {
            Ok(Some(Origin::InHouse))
        } else if t == "unknown"@ {
            Ok(Some(Origin::Unknown))
        } else {
            Err(t)
        },
    }
}

/// The origin that a text names, or the text itself.
pub fn parse_origin(s: Option<&str>) -> (r: Result<Option<Origin>, String>)
    ensures
        match origin_named(model::slice_of(s)) {
            Ok(o) => r == Ok::<Option<Origin>, String>(o),
            Err(t) => r is Err && r->Err_0@ == t,
        },
{
    match s {
        None => Ok(None),
        Some(t) => if t.is_empty() {
            Ok(None)
        } else if text::same(t, "upstream") {
            Ok(Some(Origin::Upstream))
        } else if text::same(t, "in-house") {
            Ok(Some(Origin::InHouse))
        } else if text::same(t, "unknown") {
            Ok(Some(Origin::Unknown))
        } else {
            Err(t.to_owned())
        },
    }
}

/// What the arguments after `plugin` ask for, or what is said of their misuse.
pub open spec fn plugin_ask(args: Seq<Seq<char>>) -> Result<PluginAsk, Seq<char>> {
    if args.len() == 0 {
        Err("plugin 需要动作：list|install|enable|disable|uninstall|sync|repair"@)
    } else if args[0] == "list"@ {
        Ok(PluginAsk::List)
    } else if args[0] == "install"@ {
        match positional_of(args, 1) {
            None => Err("用法: dsh-launcher plugin install <spec> [--origin ...]"@),
            Some(spec) => match origin_named(value_after(args, "--origin"@)) {
                Ok(origin) => Ok(PluginAsk::Install { spec, origin }),
                Err(t) => Err("未知来源: "@ + t),
            },
        }
    } else if args[0] == "enable"@ || args[0] == "disable"@ {
        match positional_of(args, 1) {
            None => Err("用法: dsh-launcher plugin "@ + args[0] + " <package>"@),
            Some(package) => Ok(
                PluginAsk::SetState { package, enabled: args[0] == "enable"@ },
            ),
        }
    } else if args[0] == "uninstall"@ {
        match positional_of(args, 1) {
            None => Err("用法: dsh-launcher plugin uninstall <package>"@),
            Some(package) => Ok(PluginAsk::Uninstall { package }),
        }
    } else if args[0] == "sync"@ {
        Ok(
            PluginAsk::Sync {
                apply: !args.contains("--check"@),
                only: value_after(args, "--package"@),
            },
        )
    } else if args[0] == "repair"@ {
        Ok(PluginAsk::Repair { only: value_after(args, "--package"@) })
    } else {
        Err("未知 plugin 动作: "@ + args[0])
    }
}

/// Reads the arguments after `plugin`.
pub fn parse_plugin(args: &[String]) -> (r: Result<PluginCommand, String>)
    ensures
        match plugin_ask(arg_texts(args@)) {
            Ok(ask) => r is Ok && r->Ok_0@ == ask,
            Err(m) => r is Err && r->Err_0@ == m,
        },
{
    proof {
        assert(arg_texts(args@).len() == args@.len());
    }
    if args.len() == 0 {
        return Err(
            "plugin 需要动作：list|install|enable|disable|uninstall|sync|repair".to_owned(),
        );
    }
    proof {
        assert(arg_texts(args@)[0] == args@[0]@);
    }
    let action = args[0].as_str();
    if text::same(action, "list") {
        Ok(PluginCommand::List)
    } else if text::same(action, "install") {
        match positional(args, 1) {
            None => Err("用法: dsh-launcher plugin install <spec> [--origin ...]".to_owned()),
            Some(spec) => {
                let given = flag_value(args, "--origin");
                let named = match &given {
                    Some(t) => Some(t.as_str()),
                    None => None,
                };
                match parse_origin(named) {
                    Ok(origin) => Ok(PluginCommand::Install { spec, origin }),
                    Err(t) => Err(text::cat2("未知来源: ", t.as_str())),
                }
            },
        }
    } else if text::same(action, "enable") || text::same(action, "disable") {
        match positional(args, 1) {
            None => Err(text::cat3("用法: dsh-launcher plugin ", action, " <package>")),
            Some(package) => Ok(
                PluginCommand::SetState { package, enabled: text::same(action, "enable") },
            ),
        }
    } else if text::same(action, "uninstall") {
        match positional(args, 1) {
            None => Err("用法: dsh-launcher plugin uninstall <package>".to_owned()),
            Some(package) => Ok(PluginCommand::Uninstall { package }),
        }
    } else if text::same(action, "sync") {
        Ok(
            PluginCommand::Sync {
                apply: !has_flag(args, "--check"),
                only: flag_value(args, "--package"),
            },
        )
    } else if text::same(action, "repair") {
        Ok(PluginCommand::Repair { only: flag_value(args, "--package") })
    } else {
        Err(text::cat2("未知 plugin 动作: ", action))
    }
}

/// What is asked of shared skills.
pub enum SkillCommand {
    Status,
    Apply { mode: String, resource: Option<String> },
    Migrate { dry_run: bool },
    RepairLinks,
}

/// What is asked of shared skills, as texts.
pub ghost enum SkillAsk {
    Status,
    Apply { mode: Seq<char>, resource: Option<Seq<char>> },
    Migrate { dry_run: bool },
    RepairLinks,
}

impl View for SkillCommand {
    type V = SkillAsk;

    open spec fn view(&self) -> SkillAsk {
        match self {
            SkillCommand::Status => SkillAsk::Status,
            SkillCommand::Apply { mode, resource } => SkillAsk::Apply {
                mode: mode@,
                resource: model::text_of(*resource),
            },
            SkillCommand::Migrate { dry_run } => SkillAsk::Migrate { dry_run: *dry_run },
            SkillCommand::RepairLinks => SkillAsk::RepairLinks,
        }
    }
}

/// What the arguments after `skill` ask for, or what is said of their misuse.
pub open spec fn skill_ask(args: Seq<Seq<char>>) -> Result<SkillAsk, Seq<char>> {
    if args.len() == 0 {
        Err("skill 需要动作：status|apply|migrate"@)
    } else if args[0] == "status"@ {
        Ok(SkillAsk::Status)
    } else if args[0] == "apply"@ {
        Ok(
            SkillAsk::Apply {
                mode: match value_after(args, "--mode"@) {
                    Some(mode) => mode,
                    None => "auto"@,
                },
                resource: value_after(args, "--resource"@),
            },
        )
    } else if args[0] == "migrate"@ {
        Ok(SkillAsk::Migrate { dry_run: args.contains("--dry-run"@) })
    } else if args[0] == "repair-links"@ {
        Ok(SkillAsk::RepairLinks)
    } else {
        Err("未知 skill 动作: "@ + args[0])
    }
}

/// Reads the arguments after `skill`.
pub fn parse_skill(args: &[String]) -> (r: Result<SkillCommand, String>)
    ensures
        match skill_ask(arg_texts(args@)) {
            Ok(ask) => r is Ok && r->Ok_0@ == ask,
            Err(m) => r is Err && r->Err_0@ == m,
        },
{
    proof {
        assert(arg_texts(args@).len() == args@.len());
    }
    if args.len() == 0 {
        return Err("skill 需要动作：status|apply|migrate".to_owned());
    }
    proof {
        assert(arg_texts(args@)[0] == args@[0]@);
    }
    let action = args[0].as_str();
    if text::same(action, "status") {
        Ok(SkillCommand::Status)
    } else if text::same(action, "apply") {
        let mode = match flag_value(args, "--mode") {
            Some(mode) => mode,
            None => "auto".to_owned(),
        };
        Ok(SkillCommand::Apply { mode, resource: flag_value(args, "--resource") })
    } else if text::same(action, "migrate") {
        Ok(SkillCommand::Migrate { dry_run: has_flag(args, "--dry-run") })
    } else if text::same(action, "repair-links") {
        Ok(SkillCommand::RepairLinks)
    } else {
        Err(text::cat2("未知 skill 动作: ", action))
    }
}

/// What is asked of tool servers.
pub enum McpCommand {
    List,
    /// Add a server; the options follow the action.
    Add,
    Remove { server_name: String },
    SetState { server_name: String, enabled: bool },
}

/// What is asked of tool servers, as texts.
pub ghost enum McpAsk {
    List,
    Add,
    Remove { server_name: Seq<char> },
    SetState { server_name: Seq<char>, enabled: bool },
}

impl View for McpCommand {
    type V = McpAsk;

    open spec fn view(&self) -> McpAsk {
        match self {
            McpCommand::List => McpAsk::List,
            McpCommand::Add => McpAsk::Add,
            McpCommand::Remove { server_name } => McpAsk::Remove { server_name: server_name@ },
            McpCommand::SetState { server_name, enabled } => McpAsk::SetState {
                server_name: server_name@,
                enabled: *enabled,
            },
        }
    }
}

/// What the arguments after `mcp` ask for, or what is said of their misuse.
pub open spec fn mcp_ask(args: Seq<Seq<char>>) -> Result<McpAsk, Seq<char>> {
    if args.len() == 0 {
        Err("mcp 需要动作：list|add|remove|enable|disable"@)
    } else if args[0] == "list"@ {
        Ok(McpAsk::List)
    } else if args[0] == "add"@ {
        Ok(McpAsk::Add)
    } else if args[0] == "remove"@ {
        match positional_of(args, 1) {
            None => Err("用法: dsh-launcher mcp remove <serverName> [--json]"@),
            Some(server_name) => Ok(McpAsk::Remove { server_name }),
        }
    } else if args[0] == "enable"@ || args[0] == "disable"@ {
        match positional_of(args, 1) {
            None => Err("用法: dsh-launcher mcp "@ + args[0] + " <serverName> [--json]"@),
            Some(server_name) => Ok(
                McpAsk::SetState { server_name, enabled: args[0] == "enable"@ },
            ),
        }
    } else {
        Err("未知 mcp 动作: "@ + args[0] + "（可选 list|add|remove|enable|disable）"@)
    }
}

/// Reads the arguments after `mcp`.
pub fn parse_mcp(args: &[String]) -> (r: Result<McpCommand, String>)
    ensures
        match mcp_ask(arg_texts(args@)) {
            Ok(ask) => r is Ok && r->Ok_0@ == ask,
            Err(m) => r is Err && r->Err_0@ == m,
        },
{
    proof {
        assert(arg_texts(args@).len() == args@.len());
    }
    if args.len() == 0 {
        return Err("mcp 需要动作：list|add|remove|enable|disable".to_owned());
    }
    proof {
        assert(arg_texts(args@)[0] == args@[0]@);
    }
    let action = args[0].as_str();
    if text::same(action, "list") {
        Ok(McpCommand::List)
    } else if text::same(action, "add") {
        Ok(McpCommand::Add)
    } else if text::same(action, "remove") {
        match positional(args, 1) {
            None => Err("用法: dsh-launcher mcp remove <serverName> [--json]".to_owned()),
            Some(server_name) => Ok(McpCommand::Remove { server_name }),
        }
    } else if text::same(action, "enable") || text::same(action, "disable") {
        match positional(args, 1) {
            None => Err(text::cat3("用法: dsh-launcher mcp ", action, " <serverName> [--json]")),
            Some(server_name) => Ok(
                McpCommand::SetState { server_name, enabled: text::same(action, "enable") },
            ),
        }
    } else {
        Err(
            text::cat3("未知 mcp 动作: ", action, "（可选 list|add|remove|enable|disable）"),
        )
    }
}

// ---- Printing ----

/// A text with spaces behind it up to a width.
pub open spec fn padded(s: Seq<char>, width: int) -> Seq<char>
    decreases width - s.len(),
{
    if s.len() >= width {
        s
    } else {
        padded(s.push(' '), width)
    }
}

pub fn pad(s: &str, width: usize) -> (r: String)
    ensures
        r@ == padded(s@, width as int),
{
    let mut r = s.to_owned();
    let mut n = text::chars_of(s).len();
    while n < width
        invariant
            n == r@.len(),
            padded(r@, width as int) == padded(s@, width as int),
        decreases width - n,
    {
        r.push(' ');
        n += 1;
    }
    r
}

/// A text, or a hyphen in its place.
pub open spec fn or_hyphen(s: Option<Seq<char>>) -> Seq<char> {
    match s {
        Some(t) => t,
        None => "-"@,
    }
}

fn text_or_hyphen(s: &Option<String>) -> (r: String)
    ensures
        r@ == or_hyphen(model::text_of(*s)),
{
    match s {
        Some(t) => t.clone(),
        None => "-".to_owned(),
    }
}

/// The line on a plugin.
pub fn plugin_line(item: &PluginView) -> (r: String)
    ensures
        r@ == padded(item.package@, 44) + " "@ + padded(item.state.name(), 11) + " "@ + padded(
            match item.origin {
                Origin::Upstream => "upstream"@,
                Origin::InHouse => "in-house"@,
                Origin::Unknown => "unknown"@,
            },
            10,
        ) + " "@ + or_hyphen(model::text_of(item.version)) + if item.protected {
            "  [受保护]"@
        } else {
            ""@
        },
{
    let mut line = text::cat6(
        pad(item.package.as_str(), 44).as_str(),
        " ",
        pad(item.state.as_str(), 11).as_str(),
        " ",
        pad(item.origin_str(), 10).as_str(),
        " ",
    );
    line.append(text_or_hyphen(&item.version).as_str());
    line.append(
        if item.protected {
            "  [受保护]"
        } else {
            ""
        },
    );
    line
}

/// The line on what a synchronisation did to a plugin.
pub fn sync_line(item: &SyncItemResult) -> (r: String)
    ensures
        r@ == padded(item.package@, 44) + " "@ + padded(item.result@, 8) + " "@ + or_hyphen(
            model::text_of(item.from),
        ) + " → "@ + or_hyphen(model::text_of(item.to)) + "  "@ + item.message@,
{
    let mut line = text::cat7(
        pad(item.package.as_str(), 44).as_str(),
        " ",
        pad(item.result.as_str(), 8).as_str(),
        " ",
        text_or_hyphen(&item.from).as_str(),
        " → ",
        text_or_hyphen(&item.to).as_str(),
    );
    line.append("  ");
    line.append(item.message.as_str());
    line
}

/// The line above a list of tool servers.
pub fn mcp_header(profile: &str, reload: ReloadMode, installed: bool) -> (r: String)
    ensures
        r@ == "profile "@ + profile@ + " · 生效方式 "@ + (match reload {
            ReloadMode::Live => "live（改配置就地热重载，不重启 dsh）"@,
            ReloadMode::RequiresRestart => "requires-restart（需重启 dsh）"@,
        }) + " · 前置 "@ + if installed {
            "已就绪"@
        } else {
            "缺失（add 不可用，请到插件页安装）"@
        },
{
    let how = match reload {
        ReloadMode::Live => "live（改配置就地热重载，不重启 dsh）",
        ReloadMode::RequiresRestart => "requires-restart（需重启 dsh）",
    };
    let ready = if installed {
        "已就绪"
    } else {
        "缺失（add 不可用，请到插件页安装）"
    };
    text::cat6("profile ", profile, " · 生效方式 ", how, " · 前置 ", ready)
}

pub open spec fn mark_word(mark: McpMark) -> Seq<char> {
    match mark {
        McpMark::Expression => "表达式"@,
        McpMark::Conflict => "冲突"@,
        McpMark::Dangerous => "危险"@,
    }
}

/// What is printed for the marks of a tool server.
pub open spec fn marks_text(marks: Seq<McpMark>) -> Seq<char> {
    if marks.len() == 0 {
        ""@
    } else {
        "  ["@ + (model::join(marks.map_values(|m: McpMark| mark_word(m)), "/"@) + "]"@)
    }
}

fn print_marks(marks: &Vec<McpMark>) -> (r: String)
    ensures
        r@ == marks_text(marks@),
{
    if marks.len() == 0 {
        return "".to_owned();
    }
    let ghost want = marks@.map_values(|m: McpMark| mark_word(m));
    let mut words: Vec<String> = Vec::new();
    let mut i: usize = 0;
    proof {
        assert(model::texts(words@) =~= want.take(0));
    }
    while i < marks.len()
        invariant
            i <= marks.len(),
            want == marks@.map_values(|m: McpMark| mark_word(m)),
            model::texts(words@) == want.take(i as int),
        decreases marks.len() - i,
    {
        let ghost before = words@;
        let word = match marks[i] {
            McpMark::Expression => "表达式",
            McpMark::Conflict => "冲突",
            McpMark::Dangerous => "危险",
        };
        words.push(word.to_owned());
        proof {
            assert(want[i as int] == mark_word(marks@[i as int]));
            assert(model::texts(words@) =~= model::texts(before).push(want[i as int]));
            assert(want.take(i as int + 1) =~= want.take(i as int).push(want[i as int]));
        }
        i += 1;
    }
    proof {
        assert(want.take(want.len() as int) =~= want);
    }
    text::cat2("  [", text::cat2(text::join(&words, "/").as_str(), "]").as_str())
}

/// The word for the state of a tool server.
pub open spec fn server_state(disabled: Option<bool>) -> Seq<char> {
    match disabled {
        Some(true) => "disabled"@,
        Some(false) => "enabled"@,
        None => "expression"@,
    }
}

/// The line on a tool server.
pub fn mcp_line(server: &McpServerView) -> (r: String)
    ensures
        r@ == padded(server.server_name@, 20) + " "@ + padded(
            match server.transport {
                Some(t) => t.name(),
                None => "-"@,
            },
            16,
        ) + " "@ + padded(server_state(server.disabled), 9) + " "@ + padded(
            match server.origin {
                McpOrigin::Managed => "managed"@,
                McpOrigin::External => "external"@,
            },
            9,
        ) + " "@ + server.summary@ + marks_text(server.marks@),
{
    let transport = match &server.transport {
        Some(t) => t.as_str(),
        None => "-",
    };
    let state = match server.disabled {
        Some(off) => if off {
            "disabled"
        } else {
            "enabled"
        },
        None => "expression",
    };
    let origin = match server.origin {
        McpOrigin::Managed => "managed",
        McpOrigin::External => "external",
    };
    let mut line = text::cat7(
        pad(server.server_name.as_str(), 20).as_str(),
        " ",
        pad(transport, 16).as_str(),
        " ",
        pad(state, 9).as_str(),
        " ",
        pad(origin, 9).as_str(),
    );
    line.append(" ");
    line.append(server.summary.as_str());
    line.append(print_marks(&server.marks).as_str());
    line
}

/// The second line on a tool server: the layer that declares it.
pub fn mcp_layer_line(server: &McpServerView) -> (r: String)
    ensures
        r@ == "  "@ + padded(""@, 17) + " 来源层 "@ + server.layer@,
{
    text::cat4("  ", pad("", 17).as_str(), " 来源层 ", server.layer.as_str())
}

/// A line of three columns: a resource, a word for its state, and details.
pub fn resource_line(resource: &str, word: &str, width: usize, detail: &str) -> (r: String)
    ensures
        r@ == "  "@ + padded(resource@, 12) + " "@ + padded(word@, width as int) + " "@ + detail@,
{
    text::cat6(
        "  ",
        pad(resource, 12).as_str(),
        " ",
        pad(word, width).as_str(),
        " ",
        detail,
    )
}

/// What is printed of an error, and the exit code for it.
pub fn report(error: &PluginError) -> (r: (String, i32))
    ensures
        r.0@ == "错误: "@ + error.message@,
        r.1 == error.kind.code(),
        r.1 != 0,
{
    (text::cat2("错误: ", error.message.as_str()), error.kind.exit_code())
}

} // verus!
