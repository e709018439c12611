//! What the configuration of a new tool server says, line by line.

use crate::dates::lemma_decimal;
use crate::mcp::{McpBlock, McpRow, McpTransport};
use crate::mcp_change::{
    arg_lines, bool_text, name_char, number_line, pair_lines, plan_add_spec, process_lines,
    reconnect_lines, remote_lines, render_structured_config, structured_config, trimmed_or_empty,
    valid_name, McpAddSpec, McpWrite,
};
use crate::mcp_text_laws::{
    lemma_depth, lemma_lines_of_join, lemma_not_start, lemma_skip_blank, whole_line, whole_lines,
};
use crate::model;
use crate::model::CharSet;
use crate::plugin::managed::quoted;
use crate::plugin::managed_laws::{law_quoted_values_are_read_back, lemma_trim_set};
use crate::plugin::managed_round_trip::single_line;
use crate::plugin::state::PluginError;
use crate::text_lemmas::{lemma_not_blank, lemma_strip_prefix, lemma_trim_nothing};
use crate::yaml_text::{depth, field_in, level_of, meant, value_from, value_in};
use vstd::prelude::*;

verus! {

/// Every text of the request stands on one line.
pub open spec fn plain_request(spec: McpAddSpec) -> bool {
    &&& single_line(spec.server_name@)
    &&& spec.command is Some ==> single_line((spec.command->0)@)
    &&& spec.url is Some ==> single_line((spec.url->0)@)
    &&& spec.cwd is Some ==> single_line((spec.cwd->0)@)
    &&& forall|i: int| 0 <= i < spec.args@.len() ==> single_line((#[trigger] spec.args@[i])@)
    &&& forall|i: int|
        0 <= i < spec.env@.len() ==> single_line((#[trigger] spec.env@[i]).0@) && single_line(
            spec.env@[i].1@,
        )
    &&& forall|i: int|
        0 <= i < spec.headers@.len() ==> single_line((#[trigger] spec.headers@[i]).0@)
            && single_line(spec.headers@[i].1@)
}

/// Lines, each with a line feed behind it.
spec fn ended(lines: Seq<Seq<char>>) -> Seq<char>
    decreases lines.len(),
{
    if lines.len() == 0 {
        seq![]
    } else {
        ended(lines.drop_last()) + lines.last() + "\n"@
    }
}

proof fn lemma_ended_push(lines: Seq<Seq<char>>, line: Seq<char>)
    ensures
        ended(lines.push(line)) == ended(lines) + line + "\n"@,
{
    assert(lines.push(line).drop_last() =~= lines);
}

proof fn lemma_ended_append(a: Seq<Seq<char>>, b: Seq<Seq<char>>)
    ensures
        ended(a + b) == ended(a) + ended(b),
    decreases b.len(),
{
    if b.len() == 0 {
        assert(a + b =~= a);
        assert(ended(a) + ended(b) =~= ended(a));
    } else {
        assert((a + b).drop_last() =~= a + b.drop_last());
        lemma_ended_append(a, b.drop_last());
        assert(ended(a) + (ended(b.drop_last()) + b.last() + "\n"@) =~= ended(a) + ended(
            b.drop_last(),
        ) + b.last() + "\n"@);
    }
}

proof fn lemma_ended_join(lines: Seq<Seq<char>>)
    requires
        lines.len() > 0,
    ensures
        ended(lines) == model::join(lines, "\n"@) + "\n"@,
    decreases lines.len(),
{
    if lines.len() == 1 {
        assert(ended(lines.drop_last()) =~= seq![]);
        assert(ended(lines) =~= lines[0] + "\n"@);
    } else {
        lemma_ended_join(lines.drop_last());
    }
}

/// A line of the configuration: it stands by itself and has text at its end.
spec fn firm(line: Seq<char>) -> bool {
    whole_line(line) && !model::white(line.last())
}

spec fn all_firm(lines: Seq<Seq<char>>) -> bool {
    forall|i: int| 0 <= i < lines.len() ==> firm(#[trigger] lines[i])
}

proof fn lemma_firm(head: Seq<char>, tail: Seq<char>)
    requires
        single_line(head),
        single_line(tail),
        tail.len() > 0,
        !model::white(tail.last()),
    ensures
        firm(head + tail),
{
    let s = head + tail;
    assert(s.last() == tail[tail.len() - 1]);
    assert forall|i: int| 0 <= i < s.len() implies #[trigger] s[i] != '\n' by {
        if i < head.len() {
            assert(s[i] == head[i]);
        } else {
            assert(s[i] == tail[i - head.len()]);
        }
    }
}

proof fn lemma_replace_single(s: Seq<char>)
    requires
        single_line(s),
    ensures
        single_line(model::replace_char(s, '\'', "''"@)),
    decreases s.len(),
{
    reveal_strlit("''");
    if s.len() > 0 {
        let init = s.drop_last();
        assert forall|i: int| 0 <= i < init.len() implies #[trigger] init[i] != '\r' && init[i] != '\n' by {
            assert(init[i] == s[i]);
        }
        lemma_replace_single(init);
        assert(s[s.len() - 1] == s.last());
        let r = model::replace_char(init, '\'', "''"@);
        let out = model::replace_char(s, '\'', "''"@);
        assert forall|i: int| 0 <= i < out.len() implies #[trigger] out[i] != '\r' && out[i] != '\n' by {
            if i < r.len() {
                assert(out[i] == r[i]);
            }
        }
    }
}

proof fn lemma_quoted_single(s: Seq<char>)
    requires
        single_line(s),
    ensures
        single_line(quoted(s)),
        quoted(s).len() > 0,
        quoted(s).last() == '\'',
{
    reveal_strlit("'");
    lemma_replace_single(s);
    let inner = model::replace_char(s, '\'', "''"@);
    let q = quoted(s);
    assert forall|i: int| 0 <= i < q.len() implies #[trigger] q[i] != '\r' && q[i] != '\n' by {
        if 1 <= i < q.len() - 1 {
            assert(q[i] == inner[i - 1]);
        }
    }
}

proof fn lemma_decimal_single(n: nat)
    ensures
        single_line(model::decimal(n)),
        model::decimal(n).len() > 0,
        !model::white(model::decimal(n).last()),
{
    lemma_decimal(n);
    let d = model::decimal(n);
    assert forall|i: int| 0 <= i < d.len() implies #[trigger] d[i] != '\r' && d[i] != '\n' by {
        assert(model::digit(d[i]));
    }
    assert(model::digit(d[d.len() - 1]));
}

proof fn lemma_trim_single(s: Seq<char>)
    requires
        single_line(s),
    ensures
        single_line(model::trim(s)),
{
    let k = CharSet::White;
    let t = model::trim_start(s, k);
    let out = model::trim(s);
    model::lemma_first_not_in(s, k, 0);
    model::lemma_back_over(t, k, t.len() as int);
    let from = model::first_not_in(s, k, 0);
    assert forall|i: int| 0 <= i < out.len() implies #[trigger] out[i] != '\r' && out[i] != '\n' by {
        assert(out[i] == t[i]);
        assert(t[i] == s[from + i]);
    }
}

/// The line of a quoted value behind its label.
spec fn labelled(label: Seq<char>, value: Seq<char>) -> Seq<char> {
    label + quoted(value)
}

proof fn lemma_labelled(label: Seq<char>, value: Seq<char>)
    requires
        single_line(label),
        single_line(value),
    ensures
        firm(labelled(label, value)),
{
    lemma_quoted_single(value);
    lemma_firm(label, quoted(value));
}

spec fn arg_rows(args: Seq<String>) -> Seq<Seq<char>> {
    args.map_values(|a: String| labelled("    - "@, a@))
}

spec fn pair_row(p: (String, String)) -> Seq<char> {
    "    "@ + quoted(p.0@) + ": "@ + quoted(p.1@)
}

spec fn pair_rows(pairs: Seq<(String, String)>) -> Seq<Seq<char>> {
    pairs.map_values(|p: (String, String)| pair_row(p))
}

proof fn lemma_arg_rows(args: Seq<String>)
    requires
        forall|i: int| 0 <= i < args.len() ==> single_line((#[trigger] args[i])@),
    ensures
        ended(arg_rows(args)) == arg_lines(args),
        all_firm(arg_rows(args)),
    decreases args.len(),
{
    reveal_strlit("    - ");
    let rows = arg_rows(args);
    assert forall|i: int| 0 <= i < rows.len() implies firm(#[trigger] rows[i]) by {
        assert(single_line(args[i]@));
        lemma_labelled("    - "@, args[i]@);
    }
    if args.len() > 0 {
        let init = args.drop_last();
        assert forall|i: int| 0 <= i < init.len() implies single_line((#[trigger] init[i])@) by {
            assert(init[i] == args[i]);
        }
        lemma_arg_rows(init);
        assert(rows.drop_last() =~= arg_rows(init));
        assert(ended(rows) =~= arg_lines(args));
    } else {
        assert(ended(rows) =~= arg_lines(args));
    }
}

proof fn lemma_pair_rows(pairs: Seq<(String, String)>)
    requires
        forall|i: int|
            0 <= i < pairs.len() ==> single_line((#[trigger] pairs[i]).0@) && single_line(pairs[i].1@),
    ensures
        ended(pair_rows(pairs)) == pair_lines(pairs),
        all_firm(pair_rows(pairs)),
    decreases pairs.len(),
{
    reveal_strlit("    ");
    reveal_strlit(": ");
    let rows = pair_rows(pairs);
    assert forall|i: int| 0 <= i < rows.len() implies firm(#[trigger] rows[i]) by {
        let p = pairs[i];
        assert(single_line(p.0@) && single_line(p.1@));
        lemma_quoted_single(p.0@);
        lemma_quoted_single(p.1@);
        let a = quoted(p.0@);
        let head = "    "@ + a + ": "@;
        assert forall|j: int| 0 <= j < head.len() implies #[trigger] head[j] != '\r' && head[j] != '\n' by {
            if 4 <= j < 4 + a.len() {
                assert(head[j] == a[j - 4]);
            }
        }
        lemma_firm(head, quoted(p.1@));
        assert(rows[i] == head + quoted(p.1@));
    }
    if pairs.len() > 0 {
        let init = pairs.drop_last();
        assert forall|i: int| 0 <= i < init.len() implies single_line((#[trigger] init[i]).0@)
            && single_line(init[i].1@) by {
            assert(init[i] == pairs[i]);
        }
        lemma_pair_rows(init);
        assert(rows.drop_last() =~= pair_rows(init));
        assert(ended(rows) =~= pair_lines(pairs));
    } else {
        assert(ended(rows) =~= pair_lines(pairs));
    }
}

spec fn number_rows(label: Seq<char>, value: Option<u64>) -> Seq<Seq<char>> {
    match value {
        Some(n) => seq![label + model::decimal(n as nat)],
        None => seq![],
    }
}

proof fn lemma_one_row(line: Seq<char>)
    ensures
        ended(seq![line]) == line + "\n"@,
{
    assert(seq![line].drop_last() =~= seq![]);
    assert(ended(seq![line].drop_last()) =~= seq![]);
    assert(ended(seq![line]) =~= line + "\n"@);
}

proof fn lemma_number_rows(label: Seq<char>, value: Option<u64>)
    requires
        single_line(label),
    ensures
        ended(number_rows(label, value)) == number_line(label, value),
        all_firm(number_rows(label, value)),
{
    match value {
        Some(n) => {
            lemma_decimal_single(n as nat);
            lemma_firm(label, model::decimal(n as nat));
            lemma_one_row(label + model::decimal(n as nat));
        },
        None => {
            assert(ended(seq![]) =~= seq![]);
        },
    }
}

proof fn lemma_firm_literals()
    ensures
        firm("  args: []"@),
        firm("  args:"@),
        firm("  env:"@),
        firm("  headers:"@),
        firm("  reconnect:"@),
        single_line("  serverName: "@),
        single_line("  transport: "@),
        single_line("  command: "@),
        single_line("  cwd: "@),
        single_line("  url: "@),
        single_line("  toolCallTimeoutMs: "@),
        single_line("    enabled: "@),
        single_line("    initialDelayMs: "@),
        single_line("    maxDelayMs: "@),
        single_line("    maxAttempts: "@),
        "  args: []\n"@ == "  args: []"@ + "\n"@,
        "  args:\n"@ == "  args:"@ + "\n"@,
        "  env:\n"@ == "  env:"@ + "\n"@,
        "  headers:\n"@ == "  headers:"@ + "\n"@,
        "  reconnect:\n"@ == "  reconnect:"@ + "\n"@,
        single_line("stdio"@),
        single_line("streamable-http"@),
        single_line("true"@),
        single_line("false"@),
        !model::white("stdio"@.last()) && "stdio"@.len() > 0,
        !model::white("streamable-http"@.last()) && "streamable-http"@.len() > 0,
        !model::white("true"@.last()) && "true"@.len() > 0,
        !model::white("false"@.last()) && "false"@.len() > 0,
{
    reveal_strlit("  args: []");
    reveal_strlit("  args:");
    reveal_strlit("  env:");
    reveal_strlit("  headers:");
    reveal_strlit("  reconnect:");
    reveal_strlit("  serverName: ");
    reveal_strlit("  transport: ");
    reveal_strlit("  command: ");
    reveal_strlit("  cwd: ");
    reveal_strlit("  url: ");
    reveal_strlit("  toolCallTimeoutMs: ");
    reveal_strlit("    enabled: ");
    reveal_strlit("    initialDelayMs: ");
    reveal_strlit("    maxDelayMs: ");
    reveal_strlit("    maxAttempts: ");
    reveal_strlit("  args: []\n");
    reveal_strlit("  args:\n");
    reveal_strlit("  env:\n");
    reveal_strlit("  headers:\n");
    reveal_strlit("  reconnect:\n");
    reveal_strlit("stdio");
    reveal_strlit("streamable-http");
    reveal_strlit("true");
    reveal_strlit("false");
    reveal_strlit("\n");
    assert("  args: []\n"@ =~= "  args: []"@ + "\n"@);
    assert("  args:\n"@ =~= "  args:"@ + "\n"@);
    assert("  env:\n"@ =~= "  env:"@ + "\n"@);
    assert("  headers:\n"@ =~= "  headers:"@ + "\n"@);
    assert("  reconnect:\n"@ =~= "  reconnect:"@ + "\n"@);
}

/// The rows of a list below its heading; nothing for an empty list.
spec fn headed(head: Seq<char>, rows: Seq<Seq<char>>) -> Seq<Seq<char>> {
    if rows.len() == 0 {
        seq![]
    } else {
        seq![head] + rows
    }
}

proof fn lemma_headed(head: Seq<char>, rows: Seq<Seq<char>>)
    requires
        firm(head),
        all_firm(rows),
        rows.len() > 0,
    ensures
        ended(headed(head, rows)) == head + "\n"@ + ended(rows),
        all_firm(headed(head, rows)),
{
    lemma_one_row(head);
    lemma_ended_append(seq![head], rows);
}

proof fn lemma_firm_append(a: Seq<Seq<char>>, b: Seq<Seq<char>>)
    requires
        all_firm(a),
        all_firm(b),
    ensures
        all_firm(a + b),
        ended(a + b) == ended(a) + ended(b),
{
    lemma_ended_append(a, b);
    let s = a + b;
    assert forall|i: int| 0 <= i < s.len() implies firm(#[trigger] s[i]) by {
        if i < a.len() {
            assert(s[i] == a[i]);
        } else {
            assert(s[i] == b[i - a.len()]);
        }
    }
}

spec fn cwd_rows(spec: McpAddSpec) -> Seq<Seq<char>> {
    if spec.cwd is Some && !model::blank((spec.cwd->0)@) {
        seq![labelled("  cwd: "@, (spec.cwd->0)@)]
    } else {
        seq![]
    }
}

spec fn process_rows(spec: McpAddSpec) -> Seq<Seq<char>> {
    seq![labelled("  command: "@, trimmed_or_empty(spec.command))] + (if spec.args@.len() == 0 {
        seq!["  args: []"@]
    } else {
        headed("  args:"@, arg_rows(spec.args@))
    }) + headed("  env:"@, pair_rows(spec.env@)) + cwd_rows(spec)
}

spec fn remote_rows(spec: McpAddSpec) -> Seq<Seq<char>> {
    seq![labelled("  url: "@, trimmed_or_empty(spec.url))] + headed(
        "  headers:"@,
        pair_rows(spec.headers@),
    )
}

spec fn enabled_rows(spec: McpAddSpec) -> Seq<Seq<char>> {
    match spec.reconnect_enabled {
        Some(b) => seq!["    enabled: "@ + bool_text(b)],
        None => seq![],
    }
}

spec fn reconnect_rows(spec: McpAddSpec) -> Seq<Seq<char>> {
    if spec.reconnects() {
        seq!["  reconnect:"@] + enabled_rows(spec) + number_rows(
            "    initialDelayMs: "@,
            spec.reconnect_initial_delay_ms,
        ) + number_rows("    maxDelayMs: "@, spec.reconnect_max_delay_ms) + number_rows(
            "    maxAttempts: "@,
            spec.reconnect_max_attempts,
        )
    } else {
        seq![]
    }
}

spec fn config_rows(spec: McpAddSpec, transport: McpTransport) -> Seq<Seq<char>> {
    seq![
        labelled("  serverName: "@, spec.server_name@),
        "  transport: "@ + transport.name(),
    ] + (match transport {
        McpTransport::Stdio => process_rows(spec),
        McpTransport::StreamableHttp => remote_rows(spec),
    }) + number_rows("  toolCallTimeoutMs: "@, spec.tool_call_timeout_ms) + reconnect_rows(spec)
}

proof fn lemma_trimmed_single(s: Option<String>)
    requires
        s is Some ==> single_line((s->0)@),
    ensures
        single_line(trimmed_or_empty(s)),
{
    reveal_strlit("");
    match s {
        Some(t) => lemma_trim_single(t@),
        None => {
            assert(single_line(""@));
            lemma_trim_single(""@);
        },
    }
}

proof fn lemma_process_rows(spec: McpAddSpec)
    requires
        plain_request(spec),
    ensures
        ended(process_rows(spec)) == process_lines(spec),
        all_firm(process_rows(spec)),
{
    lemma_firm_literals();
    lemma_trimmed_single(spec.command);
    let first = labelled("  command: "@, trimmed_or_empty(spec.command));
    lemma_labelled("  command: "@, trimmed_or_empty(spec.command));
    lemma_one_row(first);
    let args = if spec.args@.len() == 0 {
        seq!["  args: []"@]
    } else {
        headed("  args:"@, arg_rows(spec.args@))
    };
    lemma_arg_rows(spec.args@);
    lemma_pair_rows(spec.env@);
    assert(arg_rows(spec.args@).len() == spec.args@.len());
    assert(pair_rows(spec.env@).len() == spec.env@.len());
    if spec.args@.len() == 0 {
        lemma_one_row("  args: []"@);
    } else {
        lemma_headed("  args:"@, arg_rows(spec.args@));
    }
    let env = headed("  env:"@, pair_rows(spec.env@));
    if spec.env@.len() == 0 {
        assert(ended(env) =~= seq![]);
    } else {
        lemma_headed("  env:"@, pair_rows(spec.env@));
    }
    let cwd = cwd_rows(spec);
    if spec.cwd is Some && !model::blank((spec.cwd->0)@) {
        lemma_labelled("  cwd: "@, (spec.cwd->0)@);
        lemma_one_row(labelled("  cwd: "@, (spec.cwd->0)@));
    } else {
        assert(ended(cwd) =~= seq![]);
    }
    lemma_firm_append(seq![first], args);
    lemma_firm_append(seq![first] + args, env);
    lemma_firm_append(seq![first] + args + env, cwd);
    assert(ended(process_rows(spec)) =~= process_lines(spec));
}

proof fn lemma_remote_rows(spec: McpAddSpec)
    requires
        plain_request(spec),
    ensures
        ended(remote_rows(spec)) == remote_lines(spec),
        all_firm(remote_rows(spec)),
{
    lemma_firm_literals();
    lemma_trimmed_single(spec.url);
    let first = labelled("  url: "@, trimmed_or_empty(spec.url));
    lemma_labelled("  url: "@, trimmed_or_empty(spec.url));
    lemma_one_row(first);
    lemma_pair_rows(spec.headers@);
    assert(pair_rows(spec.headers@).len() == spec.headers@.len());
    let rest = headed("  headers:"@, pair_rows(spec.headers@));
    if spec.headers@.len() == 0 {
        assert(ended(rest) =~= seq![]);
    } else {
        lemma_headed("  headers:"@, pair_rows(spec.headers@));
    }
    lemma_firm_append(seq![first], rest);
    assert(ended(remote_rows(spec)) =~= remote_lines(spec));
}

proof fn lemma_reconnect_rows(spec: McpAddSpec)
    ensures
        ended(reconnect_rows(spec)) == reconnect_lines(spec),
        all_firm(reconnect_rows(spec)),
{
    lemma_firm_literals();
    if spec.reconnects() {
        let head = seq!["  reconnect:"@];
        lemma_one_row("  reconnect:"@);
        let on = enabled_rows(spec);
        match spec.reconnect_enabled {
            Some(b) => {
                lemma_firm("    enabled: "@, bool_text(b));
                lemma_one_row("    enabled: "@ + bool_text(b));
            },
            None => {
                assert(ended(on) =~= seq![]);
            },
        }
        let a = number_rows("    initialDelayMs: "@, spec.reconnect_initial_delay_ms);
        let b = number_rows("    maxDelayMs: "@, spec.reconnect_max_delay_ms);
        let c = number_rows("    maxAttempts: "@, spec.reconnect_max_attempts);
        lemma_number_rows("    initialDelayMs: "@, spec.reconnect_initial_delay_ms);
        lemma_number_rows("    maxDelayMs: "@, spec.reconnect_max_delay_ms);
        lemma_number_rows("    maxAttempts: "@, spec.reconnect_max_attempts);
        lemma_firm_append(head, on);
        lemma_firm_append(head + on, a);
        lemma_firm_append(head + on + a, b);
        lemma_firm_append(head + on + a + b, c);
        assert(ended(reconnect_rows(spec)) =~= reconnect_lines(spec));
    } else {
        assert(ended(reconnect_rows(spec)) =~= seq![]);
    }
}

/// The text of a configuration before white space at its end is dropped.
spec fn full_config(spec: McpAddSpec, transport: McpTransport) -> Seq<char> {
    ("  serverName: "@ + quoted(spec.server_name@) + "\n"@) + ("  transport: "@ + transport.name()
        + "\n"@) + (match transport {
        McpTransport::Stdio => process_lines(spec),
        McpTransport::StreamableHttp => remote_lines(spec),
    }) + number_line("  toolCallTimeoutMs: "@, spec.tool_call_timeout_ms) + reconnect_lines(spec)
}

spec fn head_rows(spec: McpAddSpec, transport: McpTransport) -> Seq<Seq<char>> {
    seq![
        labelled("  serverName: "@, spec.server_name@),
        "  transport: "@ + transport.name(),
    ]
}

proof fn lemma_head_rows(spec: McpAddSpec, transport: McpTransport)
    requires
        plain_request(spec),
    ensures
        ended(head_rows(spec, transport)) == ("  serverName: "@ + quoted(spec.server_name@)
            + "\n"@) + ("  transport: "@ + transport.name() + "\n"@),
        all_firm(head_rows(spec, transport)),
{
    lemma_firm_literals();
    let first = labelled("  serverName: "@, spec.server_name@);
    let second = "  transport: "@ + transport.name();
    lemma_labelled("  serverName: "@, spec.server_name@);
    lemma_firm("  transport: "@, transport.name());
    assert(head_rows(spec, transport) =~= seq![first].push(second));
    lemma_one_row(first);
    lemma_ended_push(seq![first], second);
    assert(first + "\n"@ + second + "\n"@ =~= ("  serverName: "@ + quoted(spec.server_name@)
        + "\n"@) + ("  transport: "@ + transport.name() + "\n"@));
}

proof fn lemma_all_rows(spec: McpAddSpec, transport: McpTransport)
    requires
        plain_request(spec),
    ensures
        ended(config_rows(spec, transport)) == full_config(spec, transport),
        all_firm(config_rows(spec, transport)),
        config_rows(spec, transport).len() > 0,
{
    lemma_head_rows(spec, transport);
    let head = head_rows(spec, transport);
    let mid = match transport {
        McpTransport::Stdio => process_rows(spec),
        McpTransport::StreamableHttp => remote_rows(spec),
    };
    match transport {
        McpTransport::Stdio => lemma_process_rows(spec),
        McpTransport::StreamableHttp => lemma_remote_rows(spec),
    }
    let limit = number_rows("  toolCallTimeoutMs: "@, spec.tool_call_timeout_ms);
    assert(single_line("  toolCallTimeoutMs: "@)) by {
        lemma_firm_literals();
    }
    lemma_number_rows("  toolCallTimeoutMs: "@, spec.tool_call_timeout_ms);
    let back = reconnect_rows(spec);
    lemma_reconnect_rows(spec);
    lemma_firm_append(head, mid);
    lemma_firm_append(head + mid, limit);
    lemma_firm_append(head + mid + limit, back);
    assert(config_rows(spec, transport) == head + mid + limit + back);
}

/// The configuration is made of the expected lines.
proof fn lemma_config_rows(spec: McpAddSpec, transport: McpTransport)
    requires
        plain_request(spec),
    ensures
        model::lines(structured_config(spec, transport)) == config_rows(spec, transport),
        all_firm(config_rows(spec, transport)),
        structured_config(spec, transport) == model::join(config_rows(spec, transport), "\n"@),
{
    let rows = config_rows(spec, transport);
    lemma_all_rows(spec, transport);
    lemma_ended_join(rows);
    let text = model::join(rows, "\n"@);
    lemma_join_end(rows);
    lemma_trim_feed(text);
    assert(structured_config(spec, transport) == model::trim_end(
        full_config(spec, transport),
        CharSet::White,
    ));
    assert(whole_lines(rows)) by {
        assert forall|i: int| 0 <= i < rows.len() implies whole_line(#[trigger] rows[i]) by {
            assert(firm(rows[i]));
        }
    }
    lemma_lines_of_join(rows);
}

proof fn lemma_join_end(rows: Seq<Seq<char>>)
    requires
        rows.len() > 0,
        all_firm(rows),
    ensures
        model::join(rows, "\n"@).len() > 0,
        !model::white(model::join(rows, "\n"@).last()),
{
    let last = rows[rows.len() - 1];
    assert(firm(last));
}

proof fn lemma_trim_feed(text: Seq<char>)
    requires
        text.len() > 0,
        !model::white(text.last()),
    ensures
        model::trim_end(text + "\n"@, CharSet::White) == text,
{
    reveal_strlit("\n");
    let k = CharSet::White;
    let full = text + "\n"@;
    let n = text.len() as int;
    assert(full[n] == '\n' && full[n - 1] == text.last());
    assert(model::back_over(full, k, n + 1) == model::back_over(full, k, n));
    assert(model::back_over(full, k, n) == n);
    assert(full.take(n) =~= text);
}

pub open spec fn one_if(b: bool) -> int {
    if b {
        1
    } else {
        0
    }
}

/// How many lines a list with a heading takes.
pub open spec fn list_lines(n: nat) -> int {
    if n == 0 {
        0
    } else {
        1 + n as int
    }
}

/// The configuration of a server that is run as a process says, each on its line: its name, its
/// transport, its command, its arguments in order, and below `env` every name with its own value, in
/// order; then its directory. What else it says has to do with limits and reconnection.
pub proof fn law_a_process_is_configured_as_asked(spec: &McpAddSpec, r: String, i: int, j: int)
    requires
        plain_request(*spec),
        call_ensures(render_structured_config, (spec, McpTransport::Stdio), r),
    ensures
        ({
            let lines = model::lines(r@);
            let n = spec.args@.len();
            let m = spec.env@.len();
            let env = 4 + n as int;
            let cwd = env + list_lines(m);
            let placed = spec.cwd is Some && !model::blank((spec.cwd->0)@);
            &&& lines[0] == "  serverName: "@ + quoted(spec.server_name@)
            &&& lines[1] == "  transport: stdio"@
            &&& spec.command is Some ==> lines[2] == "  command: "@ + quoted(
                model::trim((spec.command->0)@),
            )
            &&& n == 0 ==> lines[3] == "  args: []"@
            &&& n > 0 ==> lines[3] == "  args:"@
            &&& 0 <= i < n ==> lines[4 + i] == "    - "@ + quoted(spec.args@[i]@)
            &&& m > 0 ==> lines[env] == "  env:"@
            &&& 0 <= j < m ==> lines[env + 1 + j] == "    "@ + quoted(spec.env@[j].0@) + ": "@
                + quoted(spec.env@[j].1@)
            &&& placed ==> lines[cwd] == "  cwd: "@ + quoted((spec.cwd->0)@)
            &&& settings_follow(*spec, lines, cwd + one_if(placed))
        }),
{
    lemma_config_rows(*spec, McpTransport::Stdio);
    lemma_transport_line(McpTransport::Stdio);
    let rows = config_rows(*spec, McpTransport::Stdio);
    let mid = process_rows(*spec);
    lemma_process_places(*spec, i, j);
    lemma_mid_places(*spec, McpTransport::Stdio, 0);
    lemma_mid_places(*spec, McpTransport::Stdio, 1);
    lemma_mid_places(*spec, McpTransport::Stdio, 2 + i);
    let env = 2 + spec.args@.len() as int;
    lemma_mid_places(*spec, McpTransport::Stdio, env);
    lemma_mid_places(*spec, McpTransport::Stdio, env + 1 + j);
    lemma_mid_places(*spec, McpTransport::Stdio, env + list_lines(spec.env@.len()));
    lemma_settings(*spec, McpTransport::Stdio);
}

proof fn lemma_transport_line(transport: McpTransport)
    ensures
        transport is Stdio ==> "  transport: "@ + transport.name() == "  transport: stdio"@,
        transport is StreamableHttp ==> "  transport: "@ + transport.name()
            == "  transport: streamable-http"@,
{
    reveal_strlit("  transport: stdio");
    reveal_strlit("  transport: streamable-http");
    reveal_strlit("  transport: ");
    reveal_strlit("stdio");
    reveal_strlit("streamable-http");
    match transport {
        McpTransport::Stdio => {
            assert("  transport: "@ + "stdio"@ =~= "  transport: stdio"@);
        },
        McpTransport::StreamableHttp => {
            assert("  transport: "@ + "streamable-http"@ =~= "  transport: streamable-http"@);
        },
    }
}

proof fn lemma_mid_places(spec: McpAddSpec, transport: McpTransport, k: int)
    ensures
        ({
            let mid = match transport {
                McpTransport::Stdio => process_rows(spec),
                McpTransport::StreamableHttp => remote_rows(spec),
            };
            &&& 0 <= k < mid.len() ==> config_rows(spec, transport)[2 + k] == mid[k]
            &&& config_rows(spec, transport)[0] == labelled("  serverName: "@, spec.server_name@)
            &&& config_rows(spec, transport)[1] == "  transport: "@ + transport.name()
        }),
{
}

proof fn lemma_process_places(spec: McpAddSpec, i: int, j: int)
    ensures
        ({
            let mid = process_rows(spec);
            let n = spec.args@.len();
            let m = spec.env@.len();
            let env = 2 + n as int;
            let cwd = env + list_lines(m);
            let placed = spec.cwd is Some && !model::blank((spec.cwd->0)@);
            &&& mid.len() == cwd + one_if(placed)
            &&& mid[0] == labelled("  command: "@, trimmed_or_empty(spec.command))
            &&& n == 0 ==> mid[1] == "  args: []"@
            &&& n > 0 ==> mid[1] == "  args:"@
            &&& 0 <= i < n ==> mid[2 + i] == labelled("    - "@, spec.args@[i]@)
            &&& m > 0 ==> mid[env] == "  env:"@
            &&& 0 <= j < m ==> mid[env + 1 + j] == pair_row(spec.env@[j])
            &&& placed ==> mid[cwd] == labelled("  cwd: "@, (spec.cwd->0)@)
        }),
{
    let n = spec.args@.len() as int;
    let m = spec.env@.len() as int;
    let first = seq![labelled("  command: "@, trimmed_or_empty(spec.command))];
    let args = if spec.args@.len() == 0 {
        seq!["  args: []"@]
    } else {
        headed("  args:"@, arg_rows(spec.args@))
    };
    let env = headed("  env:"@, pair_rows(spec.env@));
    let cwd = cwd_rows(spec);
    assert(arg_rows(spec.args@).len() == n && pair_rows(spec.env@).len() == m);
    assert(args.len() == 1 + n);
    assert(env.len() == list_lines(m as nat));
    assert(cwd.len() == one_if(spec.cwd is Some && !model::blank((spec.cwd->0)@)));
    let mid = process_rows(spec);
    assert(mid == first + args + env + cwd);
    assert(mid[1] == args[0]);
    if 0 <= i < n {
        assert(args[1 + i] == arg_rows(spec.args@)[i]);
        assert(mid[2 + i] == args[1 + i]);
    }
    let at = 2 + n;
    if m > 0 {
        assert(mid[at] == env[0]);
        if 0 <= j < m {
            assert(env[1 + j] == pair_rows(spec.env@)[j]);
            assert(mid[at + 1 + j] == env[1 + j]);
        }
    }
    if spec.cwd is Some && !model::blank((spec.cwd->0)@) {
        assert(mid[at + env.len()] == cwd[0]);
    }
}

/// From a line on, the limit of a call and the reconnection are said, each number as it was given,
/// and nothing else.
pub open spec fn settings_follow(spec: McpAddSpec, lines: Seq<Seq<char>>, at: int) -> bool {
    let back = at + one_if(spec.tool_call_timeout_ms is Some);
    let on = back + one_if(spec.reconnects());
    let first = on + one_if(spec.reconnect_enabled is Some);
    let most = first + one_if(spec.reconnect_initial_delay_ms is Some);
    let tries = most + one_if(spec.reconnect_max_delay_ms is Some);
    &&& spec.tool_call_timeout_ms is Some ==> lines[at] == "  toolCallTimeoutMs: "@ + model::decimal(
        spec.tool_call_timeout_ms->0 as nat,
    )
    &&& spec.reconnects() ==> lines[back] == "  reconnect:"@
    &&& spec.reconnect_enabled == Some(true) ==> lines[on] == "    enabled: "@ + "true"@
    &&& spec.reconnect_enabled == Some(false) ==> lines[on] == "    enabled: "@ + "false"@
    &&& spec.reconnect_initial_delay_ms is Some ==> lines[first] == "    initialDelayMs: "@
        + model::decimal(spec.reconnect_initial_delay_ms->0 as nat)
    &&& spec.reconnect_max_delay_ms is Some ==> lines[most] == "    maxDelayMs: "@ + model::decimal(
        spec.reconnect_max_delay_ms->0 as nat,
    )
    &&& spec.reconnect_max_attempts is Some ==> lines[tries] == "    maxAttempts: "@ + model::decimal(
        spec.reconnect_max_attempts->0 as nat,
    )
    &&& lines.len() == tries + one_if(spec.reconnect_max_attempts is Some)
}

proof fn lemma_settings(spec: McpAddSpec, transport: McpTransport)
    ensures
        settings_follow(
            spec,
            config_rows(spec, transport),
            2 + (match transport {
                McpTransport::Stdio => process_rows(spec),
                McpTransport::StreamableHttp => remote_rows(spec),
            }).len() as int,
        ),
{
    let mid = match transport {
        McpTransport::Stdio => process_rows(spec),
        McpTransport::StreamableHttp => remote_rows(spec),
    };
    let rows = config_rows(spec, transport);
    let limit = number_rows("  toolCallTimeoutMs: "@, spec.tool_call_timeout_ms);
    let rest = reconnect_rows(spec);
    let at = 2 + mid.len() as int;
    if spec.tool_call_timeout_ms is Some {
        assert(rows[at] == limit[0]);
    }
    let back = at + limit.len();
    assert forall|k: int| 0 <= k < rest.len() implies #[trigger] rows[back + k] == rest[k] by {}
    if spec.reconnects() {
        let on = enabled_rows(spec);
        let a = number_rows("    initialDelayMs: "@, spec.reconnect_initial_delay_ms);
        let b = number_rows("    maxDelayMs: "@, spec.reconnect_max_delay_ms);
        let c = number_rows("    maxAttempts: "@, spec.reconnect_max_attempts);
        assert(rest[0] == "  reconnect:"@);
        assert(rows[back + 0] == rest[0]);
        if spec.reconnect_enabled is Some {
            assert(rest[1] == on[0]);
            assert(rows[back + 1] == rest[1]);
        }
        let p = 1 + on.len() as int;
        if spec.reconnect_initial_delay_ms is Some {
            assert(rest[p] == a[0]);
            assert(rows[back + p] == rest[p]);
        }
        let q = p + a.len();
        if spec.reconnect_max_delay_ms is Some {
            assert(rest[q] == b[0]);
            assert(rows[back + q] == rest[q]);
        }
        let t = q + b.len();
        if spec.reconnect_max_attempts is Some {
            assert(rest[t] == c[0]);
            assert(rows[back + t] == rest[t]);
        }
    }
}

/// The configuration of a remote server says, each on its line: its name, its transport, its address,
/// and below `headers` every name with its own value, in order.
pub proof fn law_a_remote_server_is_configured_as_asked(spec: &McpAddSpec, r: String, j: int)
    requires
        plain_request(*spec),
        call_ensures(render_structured_config, (spec, McpTransport::StreamableHttp), r),
    ensures
        ({
            let lines = model::lines(r@);
            let m = spec.headers@.len();
            &&& lines[0] == "  serverName: "@ + quoted(spec.server_name@)
            &&& lines[1] == "  transport: streamable-http"@
            &&& spec.url is Some ==> lines[2] == "  url: "@ + quoted(model::trim((spec.url->0)@))
            &&& m > 0 ==> lines[3] == "  headers:"@
            &&& 0 <= j < m ==> lines[4 + j] == "    "@ + quoted(spec.headers@[j].0@) + ": "@ + quoted(
                spec.headers@[j].1@,
            )
            &&& settings_follow(*spec, lines, 3 + list_lines(m))
        }),
{
    lemma_config_rows(*spec, McpTransport::StreamableHttp);
    reveal_strlit("  transport: streamable-http");
    reveal_strlit("  transport: ");
    reveal_strlit("streamable-http");
    let rows = config_rows(*spec, McpTransport::StreamableHttp);
    assert(rows[1] =~= "  transport: streamable-http"@);
    let mid = remote_rows(*spec);
    let list = headed("  headers:"@, pair_rows(spec.headers@));
    let m = spec.headers@.len() as int;
    assert(pair_rows(spec.headers@).len() == m);
    assert(list.len() == list_lines(m as nat));
    assert(rows[2] == mid[0]);
    if m > 0 {
        assert(mid[1] == list[0]);
        assert(rows[3] == mid[1]);
        if 0 <= j < m {
            assert(list[1 + j] == pair_rows(spec.headers@)[j]);
            assert(mid[2 + j] == list[1 + j]);
            assert(rows[4 + j] == mid[2 + j]);
        }
    }
    lemma_settings(*spec, McpTransport::StreamableHttp);
}

// ---- What is read of a new configuration ----

/// The line of a quoted value reads as the value.
proof fn lemma_labelled_field(line: Seq<char>, key: Seq<char>, value: Seq<char>)
    requires
        key.len() > 0,
        key[0] != ' ',
        line == "  "@ + key + ": "@ + quoted(value),
    ensures
        depth(line) == 2,
        field_in(line, key) is Some,
        meant(field_in(line, key)->0) == value,
{
    reveal_strlit("  ");
    reveal_strlit(": ");
    reveal_strlit(":");
    reveal_strlit("'");
    reveal_strlit("''");
    lemma_depth(line, 2);
    let rest = line.skip(2);
    assert(model::trim_start(line, CharSet::Only(' ')) == rest);
    let q = quoted(value);
    let behind = seq![' '] + q;
    assert(rest =~= (key + ":"@) + behind);
    lemma_strip_prefix(key + ":"@, behind);
    assert(q[0] == '\'' && q.last() == '\'');
    lemma_skip_blank(q);
    law_quoted_values_are_read_back(value);
}

/// A line of another field is passed over.
proof fn lemma_other_field(line: Seq<char>, key: Seq<char>)
    requires
        line.len() > 2,
        line[0] == ' ' && line[1] == ' ' && line[2] != ' ',
        key.len() > 0,
        line[2] != key[0],
    ensures
        field_in(line, key) is None,
{
    reveal_strlit(":");
    lemma_depth(line, 2);
    let rest = line.skip(2);
    assert(model::trim_start(line, CharSet::Only(' ')) == rest);
    lemma_not_start(rest, key + ":"@, 0);
}

/// What the first three lines of a configuration are read as.
proof fn lemma_first_fields(
    config: Seq<char>,
    lines: Seq<Seq<char>>,
    name: Seq<char>,
    transport: Seq<char>,
    key: Seq<char>,
    value: Seq<char>,
)
    requires
        lines == model::lines(config),
        lines.len() >= 3,
        lines[0] == "  serverName: "@ + quoted(name),
        lines[1].len() > 2,
        lines[1][0] == ' ' && lines[1][1] == ' ' && lines[1][2] == 't',
        lines[2] == "  "@ + key + ": "@ + quoted(value),
        key == "command"@ || key == "url"@,
        name.len() > 0,
        value.len() > 0,
    ensures
        value_in(config, "serverName"@) == Some(name),
        value_in(config, key) == Some(value),
{
    reveal_strlit("  serverName: ");
    reveal_strlit("serverName");
    reveal_strlit("  ");
    reveal_strlit(": ");
    reveal_strlit("command");
    reveal_strlit("url");
    assert(lines[0] =~= "  "@ + "serverName"@ + ": "@ + quoted(name));
    lemma_labelled_field(lines[0], "serverName"@, name);
    lemma_labelled_field(lines[2], key, value);
    assert(lines[0][2] == 's');
    assert(!model::white(lines[0][2]));
    lemma_not_blank(lines[0]);
    assert(level_of(lines, 0) == Some(2int));
    assert(value_from(lines, 2, "serverName"@, 0) == Some(name));
    lemma_other_field(lines[0], key);
    lemma_other_field(lines[1], key);
    assert(value_from(lines, 2, key, 0) == value_from(lines, 2, key, 1));
    assert(value_from(lines, 2, key, 1) == value_from(lines, 2, key, 2));
    assert(value_from(lines, 2, key, 2) == Some(value));
}

/// A server is added wherever it can be: its name is valid and free, its row is not declared yet, and
/// its transport has what it needs.
pub proof fn law_valid_servers_are_added(
    spec: &McpAddSpec,
    transport: McpTransport,
    tree: &Vec<McpRow>,
    block: &McpBlock,
    r: Result<McpWrite, PluginError>,
)
    requires
        call_ensures(plan_add_spec, (spec, transport, tree, block), r),
        plain_request(*spec),
        spec.raw_config is None,
        model::trim(spec.server_name@) == spec.server_name@,
        1 <= spec.server_name@.len() <= 32,
        forall|i: int|
            0 <= i < spec.server_name@.len() ==> model::ascii_alnum(#[trigger] spec.server_name@[i])
                || spec.server_name@[i] == '_' || spec.server_name@[i] == '-',
        forall|i: int|
            0 <= i < tree@.len() ==> model::text_of((#[trigger] tree@[i]).server_name) != Some(
                spec.server_name@,
            ),
        spec.row_id is None,
        forall|i: int|
            0 <= i < block.declares@.len() ==> (#[trigger] block.declares@[i]).row_id@ != "mcp-"@
                + spec.server_name@,
        transport is Stdio ==> spec.command is Some && !model::blank((spec.command->0)@),
        transport is StreamableHttp ==> spec.url is Some && !model::blank((spec.url->0)@),
    ensures
        r is Ok,
{
    let config = structured_config(*spec, transport);
    let lines = model::lines(config);
    let rows = config_rows(*spec, transport);
    lemma_config_rows(*spec, transport);
    let name = spec.server_name@;
    let key = if transport is Stdio {
        "command"@
    } else {
        "url"@
    };
    let value = if transport is Stdio {
        model::trim((spec.command->0)@)
    } else {
        model::trim((spec.url->0)@)
    };
    let mid = match transport {
        McpTransport::Stdio => process_rows(*spec),
        McpTransport::StreamableHttp => remote_rows(*spec),
    };
    assert(rows[0] == labelled("  serverName: "@, name));
    assert(rows[1] == "  transport: "@ + transport.name());
    assert(rows[2] == mid[0]);
    reveal_strlit("  transport: ");
    reveal_strlit("  command: ");
    reveal_strlit("  url: ");
    reveal_strlit("  ");
    reveal_strlit(": ");
    reveal_strlit("command");
    reveal_strlit("url");
    assert(rows[2] =~= "  "@ + key + ": "@ + quoted(value));
    assert(rows[1][2] == 't' && rows[1][0] == ' ' && rows[1][1] == ' ');
    lemma_first_fields(config, lines, name, transport.name(), key, value);
    assert(valid_name(name)) by {
        assert forall|i: int| 0 <= i < name.len() implies name_char(#[trigger] name[i]) by {}
    }
    crate::mcp_change_laws::lemma_named_row(tree@, name, 0);
    crate::mcp_change_laws::lemma_declaration(*block, "mcp-"@ + name, 0);
    assert(!model::blank(value)) by {
        if transport is Stdio {
            lemma_trim_twice((spec.command->0)@);
        } else {
            lemma_trim_twice((spec.url->0)@);
        }
    }
}

proof fn lemma_trim_twice(s: Seq<char>)
    ensures
        model::blank(model::trim(s)) == model::blank(s),
{
    let w = CharSet::White;
    lemma_trim_set(s, w);
    let t = model::trim(s);
    if t.len() > 0 {
        let (i, j) = choose|i: int, j: int|
            0 <= i <= j <= s.len() && t == #[trigger] s.subrange(i, j) && (forall|k: int|
                0 <= k < i ==> w.has(#[trigger] s[k])) && (forall|k: int|
                j <= k < s.len() ==> w.has(#[trigger] s[k])) && (i < j ==> !w.has(s[i]) && !w.has(
                s[j - 1],
            ));
        assert(t[0] == s[i]);
        assert(!model::white(t[0]));
        lemma_not_blank(t);
        lemma_not_blank(s);
    } else {
        assert(t =~= seq![]);
        lemma_trim_nothing(t, w);
    }
}

} // verus!
