//! What holds of every command line, whatever stands on it.

use crate::cli::{
    flag_value, has_flag, is_cli_invocation, mcp_line, parse_mcp, parse_plugin, parse_skill,
    parse_top, plugin_line, position, positionals, report, sync_line, McpCommand, PluginCommand,
    SkillCommand, TopCommand, padded,
};
use crate::cli_add::{
    build_add_spec, parse_bool, parse_pair, parse_u64, AddOptions, AddStep, AddText, reading,
};
use crate::mcp::McpServerView;
use crate::model;
use crate::model::CharSet;
use crate::plugin::lifecycle::SyncItemResult;
use crate::plugin::service::PluginView;
use crate::plugin::spec::Origin;
use crate::plugin::state::PluginError;
use vstd::prelude::*;

verus! {

// ---- Flags ----

/// The value of a flag is what stands directly behind its first occurrence, and a flag that is not
/// there has none.
pub proof fn law_values_stand_behind_their_flags(
    args: &[String],
    flag: &str,
    r: Option<String>,
    given: bool,
    i: int,
)
    requires
        call_ensures(flag_value, (args, flag), r),
        call_ensures(has_flag, (args, flag), given),
        0 <= i < args@.len(),
    ensures
        args@[i]@ == flag@ ==> given,
        !given ==> r is None,
        args@[i]@ == flag@ && (forall|j: int| 0 <= j < i ==> (#[trigger] args@[j])@ != flag@) ==> {
            &&& i + 1 < args@.len() ==> r is Some && (r->0)@ == args@[i + 1]@
            &&& i + 1 == args@.len() ==> r is None
        },
{
    let t = model::texts(args@);
    assert(t.len() == args@.len());
    lemma_first_position(t, flag@, 0);
    assert(t[i] == args@[i]@);
    if t.contains(flag@) {
    } else {
        if position(t, flag@, 0) is Some {
            assert(t[position(t, flag@, 0)->0] == flag@);
        }
    }
    if args@[i]@ == flag@ {
        let k = position(t, flag@, 0)->0;
        if k < i {
            assert(args@[k]@ == t[k]);
        }
        if i + 1 < args@.len() {
            assert(t[i + 1] == args@[i + 1]@);
        }
    }
}

proof fn lemma_first_position(args: Seq<Seq<char>>, flag: Seq<char>, i: int)
    requires
        0 <= i <= args.len(),
    ensures
        match position(args, flag, i) {
            Some(k) => i <= k < args.len() && args[k] == flag && (forall|j: int|
                i <= j < k ==> #[trigger] args[j] != flag),
            None => forall|k: int| i <= k < args.len() ==> #[trigger] args[k] != flag,
        },
    decreases args.len() - i,
{
    if i < args.len() && args[i] != flag {
        lemma_first_position(args, flag, i + 1);
    }
}

/// Help comes before everything, then the version; else the first argument decides.
pub proof fn law_the_first_argument_decides(args: &[String], r: TopCommand, cli: bool)
    requires
        call_ensures(parse_top, (args,), r),
        call_ensures(is_cli_invocation, (args,), cli),
        args@.len() > 0,
    ensures
        args@[0]@ == "--help"@ || args@[0]@ == "-h"@ ==> r is Help && cli,
        r is Plugin ==> args@[0]@ == "plugin"@,
        r is Skill ==> args@[0]@ == "skill"@,
        r is Mcp ==> args@[0]@ == "mcp"@,
        args@.len() == 1 && args@[0]@ == "plugin"@ ==> r is Plugin && cli,
        args@.len() == 1 && args@[0]@ == "mcp"@ ==> r is Mcp && cli,
        args@.len() == 1 && args@[0]@ == "skill"@ ==> r is Skill && cli,
        args@.len() == 1 && (args@[0]@ == "--version"@ || args@[0]@ == "-V"@) ==> r is Version && cli,
        cli ==> args@[0]@ == "plugin"@ || args@[0]@ == "skill"@ || args@[0]@ == "mcp"@ || args@[0]@
            == "--help"@ || args@[0]@ == "-h"@ || args@[0]@ == "--version"@ || args@[0]@ == "-V"@,
{
    let t = model::texts(args@);
    assert(t.len() == args@.len() && t[0] == args@[0]@);
    lemma_words();
    if args@.len() == 1 {
        assert forall|w: Seq<char>| #[trigger] t.contains(w) implies w == t[0] by {
            let i = choose|i: int| 0 <= i < t.len() && t[i] == w;
        }
    }
}

proof fn lemma_words()
    ensures
        "plugin"@.len() == 6 && "plugin"@[0] == 'p',
        "skill"@.len() == 5 && "skill"@[0] == 's',
        "mcp"@.len() == 3 && "mcp"@[0] == 'm',
        "--help"@.len() == 6 && "--help"@[0] == '-' && "--help"@[2] == 'h',
        "-h"@.len() == 2 && "-h"@[1] == 'h',
        "--version"@.len() == 9 && "--version"@[0] == '-',
        "-V"@.len() == 2 && "-V"@[1] == 'V',
        "list"@.len() == 4 && "list"@[0] == 'l',
        "install"@.len() == 7 && "install"@[0] == 'i',
        "enable"@.len() == 6 && "enable"@[0] == 'e',
        "disable"@.len() == 7 && "disable"@[0] == 'd',
        "uninstall"@.len() == 9 && "uninstall"@[0] == 'u',
        "sync"@.len() == 4 && "sync"@[0] == 's',
        "repair"@.len() == 6 && "repair"@[0] == 'r',
        "add"@.len() == 3 && "add"@[0] == 'a',
        "remove"@.len() == 6 && "remove"@[0] == 'r' && "remove"@[2] == 'm',
        "repair"@[2] == 'p',
        "--"@ =~= seq!['-', '-'],
{
    reveal_strlit("plugin");
    reveal_strlit("skill");
    reveal_strlit("mcp");
    reveal_strlit("--help");
    reveal_strlit("-h");
    reveal_strlit("--version");
    reveal_strlit("-V");
    reveal_strlit("list");
    reveal_strlit("install");
    reveal_strlit("enable");
    reveal_strlit("disable");
    reveal_strlit("uninstall");
    reveal_strlit("sync");
    reveal_strlit("repair");
    reveal_strlit("add");
    reveal_strlit("remove");
    reveal_strlit("--");
}

/// The first two arguments are neither flags nor their values.
pub open spec fn plain_pair(args: Seq<String>) -> bool {
    args.len() >= 2 && !model::starts_with(args[0]@, "--"@) && !model::starts_with(args[1]@, "--"@)
}

proof fn lemma_second(args: Seq<String>)
    requires
        plain_pair(args),
    ensures
        positionals(model::texts(args), 0).len() >= 2,
        positionals(model::texts(args), 0)[1] == args[1]@,
{
    let t = model::texts(args);
    assert(t[0] == args[0]@ && t[1] == args[1]@);
    reveal_with_fuel(positionals, 3);
    let rest = positionals(t, 1);
    assert(rest == seq![t[1]] + positionals(t, 2));
    assert(positionals(t, 0) == seq![t[0]] + rest);
    assert(positionals(t, 0)[1] == rest[0]);
}

// ---- Plugins ----

/// What is asked of a plugin is what was written: the action, the package or spec behind it, and
/// whether a plugin is to be on.
pub proof fn law_plugin_commands_are_read(
    args: &[String],
    r: Result<PluginCommand, String>,
    origin: Option<String>,
    flag: &str,
    only: Option<String>,
    scope: &str,
    check: bool,
    dry: &str,
)
    requires
        call_ensures(parse_plugin, (args,), r),
        plain_pair(args@),
        flag@ == "--origin"@,
        call_ensures(flag_value, (args, flag), origin),
        scope@ == "--package"@,
        call_ensures(flag_value, (args, scope), only),
        dry@ == "--check"@,
        call_ensures(has_flag, (args, dry), check),
    ensures
        args@[0]@ == "enable"@ ==> (r matches Ok(PluginCommand::SetState { package, enabled }) && enabled
            && package@ == args@[1]@),
        args@[0]@ == "disable"@ ==> (r matches Ok(PluginCommand::SetState { package, enabled })
            && !enabled && package@ == args@[1]@),
        args@[0]@ == "uninstall"@ ==> (r matches Ok(PluginCommand::Uninstall { package }) && package@
            == args@[1]@),
        args@[0]@ == "install"@ && origin is None ==> (r matches Ok(
            PluginCommand::Install { spec, origin: o },
        ) && spec@ == args@[1]@ && o is None),
        args@[0]@ == "install"@ && origin is Some && (origin->0)@ == "in-house"@ ==> (r matches Ok(
            PluginCommand::Install { spec, origin: o },
        ) && spec@ == args@[1]@ && o == Some(Origin::InHouse)),
        args@[0]@ == "install"@ && origin is Some && (origin->0)@ == "upstream"@ ==> (r matches Ok(
            PluginCommand::Install { spec, origin: o },
        ) && spec@ == args@[1]@ && o == Some(Origin::Upstream)),
        args@[0]@ == "sync"@ ==> (r matches Ok(PluginCommand::Sync { apply, only: o }) && apply == !check
            && model::text_of(o) == model::text_of(only)),
        args@[0]@ == "repair"@ ==> (r matches Ok(PluginCommand::Repair { only: o }) && model::text_of(o)
            == model::text_of(only)),
        args@[0]@ == "list"@ ==> (r matches Ok(PluginCommand::List)),
{
    lemma_words();
    lemma_second(args@);
    let t = model::texts(args@);
    assert(t[0] == args@[0]@);
    reveal_strlit("in-house");
    reveal_strlit("upstream");
    assert("in-house"@.len() == 8 && "in-house"@[0] == 'i' && "upstream"@[0] == 'u'
        && "upstream"@.len() == 8);
    match r {
        Ok(c) => {
            let view = c@;
        },
        Err(m) => {},
    }
}

// ---- Tool servers ----

/// What is asked of a tool server is what was written.
pub proof fn law_server_commands_are_read(args: &[String], r: Result<McpCommand, String>)
    requires
        call_ensures(parse_mcp, (args,), r),
        plain_pair(args@),
    ensures
        args@[0]@ == "enable"@ ==> (r matches Ok(McpCommand::SetState { server_name, enabled })
            && enabled && server_name@ == args@[1]@),
        args@[0]@ == "disable"@ ==> (r matches Ok(McpCommand::SetState { server_name, enabled })
            && !enabled && server_name@ == args@[1]@),
        args@[0]@ == "remove"@ ==> (r matches Ok(McpCommand::Remove { server_name }) && server_name@
            == args@[1]@),
        args@[0]@ == "add"@ ==> (r matches Ok(McpCommand::Add)),
        args@[0]@ == "list"@ ==> (r matches Ok(McpCommand::List)),
{
    lemma_words();
    lemma_second(args@);
    let t = model::texts(args@);
    assert(t[0] == args@[0]@);
    match r {
        Ok(c) => {
            let view = c@;
        },
        Err(m) => {},
    }
}

/// What is asked of shared skills is what was written.
pub proof fn law_skill_commands_are_read(
    args: &[String],
    r: Result<SkillCommand, String>,
    flag: &str,
    mode: Option<String>,
    dry: &str,
    given: bool,
)
    requires
        call_ensures(parse_skill, (args,), r),
        args@.len() > 0,
        flag@ == "--mode"@,
        call_ensures(flag_value, (args, flag), mode),
        dry@ == "--dry-run"@,
        call_ensures(has_flag, (args, dry), given),
    ensures
        args@[0]@ == "apply"@ ==> (r matches Ok(SkillCommand::Apply { mode: m, .. }) && (mode is Some
            ==> m@ == (mode->0)@) && (mode is None ==> m@ == "auto"@)),
        args@[0]@ == "migrate"@ ==> (r matches Ok(SkillCommand::Migrate { dry_run }) && dry_run == given),
        args@[0]@ == "status"@ ==> (r matches Ok(SkillCommand::Status)),
        args@[0]@ == "repair-links"@ ==> (r matches Ok(SkillCommand::RepairLinks)),
{
    reveal_strlit("apply");
    reveal_strlit("migrate");
    reveal_strlit("status");
    reveal_strlit("repair-links");
    assert("apply"@[0] == 'a' && "migrate"@[0] == 'm' && "status"@[0] == 's' && "repair-links"@[0]
        == 'r');
    let t = model::texts(args@);
    assert(t[0] == args@[0]@);
    match r {
        Ok(c) => {
            let view = c@;
        },
        Err(m) => {},
    }
}

// ---- A new tool server ----

/// A pair is written with an equals sign between its name and its value, in this order.
pub proof fn law_pairs_are_read(
    flag: &str,
    raw: &str,
    r: Result<(String, String), PluginError>,
    name: Seq<char>,
    value: Seq<char>,
)
    requires
        call_ensures(parse_pair, (flag, raw), r),
        forall|i: int| 0 <= i < name.len() ==> #[trigger] name[i] != '=',
        !model::blank(name),
        raw@ == name + seq!['='] + value,
    ensures
        r is Ok,
        r->Ok_0.0@ == model::trim(name),
        r->Ok_0.1@ == model::trim(value),
{
    let k = CharSet::Only('=');
    model::lemma_first_in(raw@, k, 0);
    let n = model::first_in(raw@, k, 0);
    if n < name.len() {
        assert(raw@[n] == name[n]);
    }
    assert(raw@[name.len() as int] == '=');
    assert(n == name.len());
    assert(raw@.take(n) =~= name);
    assert(raw@.skip(n + 1) =~= value);
}

/// Truth values and numbers are read as they are written, and nothing else is.
pub proof fn law_values_are_read(
    flag: &str,
    raw: &str,
    b: Result<bool, PluginError>,
    n: Result<u64, PluginError>,
)
    requires
        call_ensures(parse_bool, (flag, raw), b),
        call_ensures(parse_u64, (flag, raw), n),
    ensures
        model::trim(raw@) == "true"@ <==> b == Ok::<bool, PluginError>(true),
        model::trim(raw@) == "false"@ <==> b == Ok::<bool, PluginError>(false),
        n is Ok <==> model::parse_unsigned(model::trim(raw@), u64::MAX as nat) is Some,
        n is Ok ==> model::parse_unsigned(model::trim(raw@), u64::MAX as nat) == Some(n->Ok_0 as nat),
{
    reveal_strlit("true");
    reveal_strlit("false");
    assert("true"@.len() != "false"@.len());
}

/// What one more option with a value asks for: it sets its own field, or adds to its own list, and
/// leaves all the others as they are.
pub open spec fn asks(flag: Seq<char>, value: Seq<char>, was: AddText, now: AddText) -> bool {
    ||| flag == "--server-name"@ && now == AddText { server_name: value, ..was }
    ||| flag == "--transport"@ && now == AddText { transport: value, ..was }
    ||| flag == "--id"@ && now == AddText { row_id: Some(value), ..was }
    ||| flag == "--command"@ && now == AddText { command: Some(value), ..was }
    ||| flag == "--cwd"@ && now == AddText { cwd: Some(value), ..was }
    ||| flag == "--url"@ && now == AddText { url: Some(value), ..was }
    ||| flag == "--arg"@ && now == AddText { args: was.args.push(value), ..was }
    ||| exists|k: Seq<char>, v: Seq<char>| #[trigger]
        split_pair(value, k, v) && (flag == "--env"@ && now == AddText {
            env: was.env.push((model::trim(k), model::trim(v))),
            ..was
        } || flag == "--header"@ && now == AddText {
            headers: was.headers.push((model::trim(k), model::trim(v))),
            ..was
        })
}

/// A text is a name and a value with an equals sign between them.
pub open spec fn split_pair(raw: Seq<char>, k: Seq<char>, v: Seq<char>) -> bool {
    &&& raw == k + seq!['='] + v
    &&& !model::blank(k)
    &&& forall|i: int| 0 <= i < k.len() ==> #[trigger] k[i] != '='
}

proof fn lemma_flags(flag: Seq<char>)
    requires
        flag == "--server-name"@ || flag == "--transport"@ || flag == "--id"@ || flag == "--command"@
            || flag == "--cwd"@ || flag == "--url"@ || flag == "--arg"@ || flag == "--env"@ || flag
            == "--header"@,
    ensures
        crate::cli_add::option_parts(flag) == (flag, None::<Seq<char>>),
        flag != "--start-disabled"@,
        flag != "--json"@,
        flag != "--raw-config"@,
        flag != "--server-name"@ ==> "--server-name"@ != flag,
{
    reveal_strlit("--server-name");
    reveal_strlit("--transport");
    reveal_strlit("--id");
    reveal_strlit("--command");
    reveal_strlit("--cwd");
    reveal_strlit("--url");
    reveal_strlit("--arg");
    reveal_strlit("--env");
    reveal_strlit("--header");
    reveal_strlit("--start-disabled");
    reveal_strlit("--json");
    reveal_strlit("--raw-config");
    assert("--start-disabled"@.len() == 16 && "--json"@.len() == 6 && "--raw-config"@.len() == 12);
    assert("--server-name"@.len() == 13 && "--transport"@.len() == 11 && "--id"@.len() == 4
        && "--command"@.len() == 9 && "--cwd"@.len() == 5 && "--url"@.len() == 5 && "--arg"@.len() == 5
        && "--env"@.len() == 5 && "--header"@.len() == 8);
    let k = CharSet::Only('=');
    assert forall|i: int| 0 <= i < flag.len() implies !k.has(#[trigger] flag[i]) by {
        assert(flag[i] != '=');
    }
    crate::text_lemmas::lemma_first_in_none(flag, k, 0);
}

proof fn lemma_flags_differ()
    ensures
        "--cwd"@ != "--url"@ && "--cwd"@ != "--arg"@ && "--cwd"@ != "--env"@ && "--url"@ != "--arg"@
            && "--url"@ != "--env"@ && "--arg"@ != "--env"@,
        "--server-name"@.len() == 13 && "--transport"@.len() == 11 && "--id"@.len() == 4
            && "--command"@.len() == 9 && "--cwd"@.len() == 5 && "--url"@.len() == 5
            && "--arg"@.len() == 5 && "--env"@.len() == 5 && "--header"@.len() == 8,
        "--raw-config"@.len() == 12,
{
    reveal_strlit("--server-name");
    reveal_strlit("--transport");
    reveal_strlit("--id");
    reveal_strlit("--command");
    reveal_strlit("--cwd");
    reveal_strlit("--url");
    reveal_strlit("--arg");
    reveal_strlit("--env");
    reveal_strlit("--header");
    reveal_strlit("--raw-config");
    assert("--cwd"@[2] == 'c' && "--url"@[2] == 'u' && "--arg"@[2] == 'a' && "--env"@[2] == 'e');
}

/// An option and its value are read together: to read on from them is to read on from behind them,
/// with what they ask for taken in. So a server is described by exactly the options that are given,
/// each in its own field, and the pairs stand in the order in which they were given.
pub proof fn law_options_ask_for_their_own(
    a: AddOptions,
    b: AddOptions,
    first: AddStep,
    second: AddStep,
    flag: Seq<char>,
    value: Seq<char>,
)
    requires
        a.cursor.index + 1 < a.cursor.args@.len(),
        b.cursor.args == a.cursor.args,
        b.cursor.index == a.cursor.index + 2,
        flag == a.cursor.args@[a.cursor.index as int]@,
        value == a.cursor.args@[a.cursor.index + 1]@,
        !model::starts_with(value, "--"@),
        asks(flag, value, a.spec@, b.spec@),
        call_ensures(AddOptions::resume, (a,), first),
        call_ensures(AddOptions::resume, (b,), second),
    ensures
        match (first, second) {
            (AddStep::Done(x), AddStep::Done(y)) => x@ == y@,
            (AddStep::Failed(x), AddStep::Failed(y)) => x@ == y@,
            (AddStep::ReadFile { path: p, rest: x }, AddStep::ReadFile { path: q, rest: y }) => p@
                == q@ && x.spec@ == y.spec@ && x.cursor.index == y.cursor.index,
            _ => false,
        },
{
    let t = a.cursor.texts();
    let i = a.cursor.index as int;
    assert(t[i] == flag && t[i + 1] == value);
    assert(t.len() == a.cursor.args@.len());
    lemma_flags_differ();
    lemma_flags(flag);
    if flag == "--env"@ || flag == "--header"@ {
        let (k, v) = choose|k: Seq<char>, v: Seq<char>| #[trigger]
            split_pair(value, k, v) && (flag == "--env"@ && b.spec@ == AddText {
                env: a.spec@.env.push((model::trim(k), model::trim(v))),
                ..a.spec@
            } || flag == "--header"@ && b.spec@ == AddText {
                headers: a.spec@.headers.push((model::trim(k), model::trim(v))),
                ..a.spec@
            });
        lemma_pair_split(flag, value, k, v);
    }
    assert(crate::cli_add::value_at(t, i + 1, flag) == Ok::<
        Seq<char>,
        crate::plugin::state::ErrorText,
    >(value));
    assert(crate::cli_add::with_option(a.spec@, flag, value) == Ok::<
        AddText,
        crate::plugin::state::ErrorText,
    >(b.spec@));
    assert(reading(t, i, a.spec@) == reading(t, i + 2, b.spec@));
}

proof fn lemma_pair_split(flag: Seq<char>, raw: Seq<char>, k: Seq<char>, v: Seq<char>)
    requires
        split_pair(raw, k, v),
    ensures
        crate::cli_add::pair_in(flag, raw) == Ok::<
            (Seq<char>, Seq<char>),
            crate::plugin::state::ErrorText,
        >((model::trim(k), model::trim(v))),
{
    let c = CharSet::Only('=');
    model::lemma_first_in(raw, c, 0);
    let n = model::first_in(raw, c, 0);
    if n < k.len() {
        assert(raw[n] == k[n]);
    }
    assert(raw[k.len() as int] == '=');
    assert(n == k.len());
    assert(raw.take(n) =~= k);
    assert(raw.skip(n + 1) =~= v);
}

/// Reading begins with nothing asked for, and ends well only where a name and a transport are given.
pub proof fn law_descriptions_are_complete(args: &[String], fresh: AddOptions, it: AddOptions, r: AddStep)
    requires
        call_ensures(build_add_spec, (args,), fresh),
        it.cursor.index == it.cursor.args@.len(),
        call_ensures(AddOptions::resume, (it,), r),
    ensures
        fresh.cursor.args == args && fresh.cursor.index == 0,
        fresh.spec@.env.len() == 0 && fresh.spec@.args.len() == 0 && fresh.spec@.headers.len() == 0,
        fresh.spec@.command is None && fresh.spec@.url is None && !fresh.spec@.start_disabled,
        model::blank(it.spec@.server_name) || model::blank(it.spec@.transport) ==> r is Failed,
        !model::blank(it.spec@.server_name) && !model::blank(it.spec@.transport) ==> (r matches
            AddStep::Done(s) && s@ == it.spec@),
{
    assert(it.cursor.texts().len() == it.cursor.args@.len());
}

// ---- Printing ----

proof fn lemma_padded(s: Seq<char>, width: int)
    ensures
        padded(s, width).len() >= s.len(),
        padded(s, width).take(s.len() as int) == s,
    decreases width - s.len(),
{
    if s.len() < width {
        lemma_padded(s.push(' '), width);
        let p = padded(s, width);
        assert(p.take(s.len() as int) =~= p.take(s.len() as int + 1).take(s.len() as int));
        assert(s.push(' ').take(s.len() as int) =~= s);
    } else {
        assert(s.take(s.len() as int) =~= s);
    }
}

/// A line on a plugin or a tool server begins with its name, and an error is told with a code of its
/// own.
pub proof fn law_lines_begin_with_names(
    item: &PluginView,
    a: String,
    sync: &SyncItemResult,
    b: String,
    server: &McpServerView,
    c: String,
    error: &PluginError,
    told: (String, i32),
)
    requires
        call_ensures(plugin_line, (item,), a),
        call_ensures(sync_line, (sync,), b),
        call_ensures(mcp_line, (server,), c),
        call_ensures(report, (error,), told),
    ensures
        model::starts_with(a@, item.package@),
        model::starts_with(b@, sync.package@),
        model::ends_with(b@, sync.message@),
        model::starts_with(c@, server.server_name@),
        model::ends_with(told.0@, error.message@),
        told.1 != 0,
{
    lemma_padded(item.package@, 44);
    lemma_padded(sync.package@, 44);
    lemma_padded(server.server_name@, 20);
    assert(a@.take(padded(item.package@, 44).len() as int) =~= padded(item.package@, 44));
    assert(b@.take(padded(sync.package@, 44).len() as int) =~= padded(sync.package@, 44));
    assert(c@.take(padded(server.server_name@, 20).len() as int) =~= padded(
        server.server_name@,
        20,
    ));
    lemma_head(a@, padded(item.package@, 44), item.package@);
    lemma_head(b@, padded(sync.package@, 44), sync.package@);
    lemma_head(c@, padded(server.server_name@, 20), server.server_name@);
    let m = sync.message@;
    assert(b@.subrange(b@.len() - m.len(), b@.len() as int) =~= m);
    let e = error.message@;
    assert(told.0@.subrange(told.0@.len() - e.len(), told.0@.len() as int) =~= e);
}

proof fn lemma_head(s: Seq<char>, p: Seq<char>, name: Seq<char>)
    requires
        p.len() <= s.len(),
        s.take(p.len() as int) == p,
        name.len() <= p.len(),
        p.take(name.len() as int) == name,
    ensures
        model::starts_with(s, name),
{
    assert(s.subrange(0, name.len() as int) =~= s.take(p.len() as int).take(name.len() as int));
}

} // verus!
