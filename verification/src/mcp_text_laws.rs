//! Reading the block of tool servers gives back what was written.

use crate::mcp::{mcp_family, McpBlock, McpDeclare, McpDirective, REQUIRED_PACKAGE};
use crate::mcp_change::bool_text;
use crate::mcp_laws::law_server_markers_are_proper;
use crate::mcp_text::{
    all_declare_lines, all_directive_lines, block_from, block_lines, block_said, block_step,
    config_lines, declare_lines, directive_lines, directive_texts, idle, shows_block,
    shows_declare, BlockText, DeclareText, DirectiveText,
};
use crate::model;
use crate::model::CharSet;
use crate::plugin::dump_text::{disabled_by, transport_named, DisabledText};
use crate::plugin::managed::{body_read, edited, quoted, row_id_char, valid_row_id};
use crate::plugin::managed_laws::{file_eol, law_read_gives_back_the_body};
use crate::text_lemmas::{
    lemma_lines_append, lemma_not_blank, lemma_one_line, lemma_strip_prefix, lemma_trim_nothing,
};
use crate::yaml_text::{depth, level_of, meant, normalized, shifted, shifted_lines, value_in};
use vstd::prelude::*;

verus! {

/// A line that can stand by itself: without a line feed, and without a carriage return at its end.
pub open spec fn whole_line(line: Seq<char>) -> bool {
    &&& forall|i: int| 0 <= i < line.len() ==> #[trigger] line[i] != '\n'
    &&& line.len() > 0
    &&& line.last() != '\r'
}

/// A line of a kept configuration: indented by two at least, with text at its end.
pub open spec fn kept_line(line: Seq<char>) -> bool {
    &&& whole_line(line)
    &&& line.len() > 2
    &&& line[0] == ' '
    &&& line[1] == ' '
    &&& !model::white(line.last())
}

/// A configuration in the form in which it is kept: its first line is indented by two.
pub open spec fn kept_config(config: Seq<char>) -> bool {
    let lines = model::lines(config);
    &&& lines.len() > 0
    &&& forall|i: int| 0 <= i < lines.len() ==> kept_line(#[trigger] lines[i])
    &&& lines[0][2] != ' '
    &&& config == model::join(lines, "\n"@)
}

/// A declaration in the form in which it is kept: what it names its server and transport is what
/// its configuration says.
pub open spec fn kept_declare(d: McpDeclare) -> bool {
    &&& valid_row_id(d.row_id@)
    &&& kept_config(d.config_raw@)
    &&& model::text_of(d.server_name) == value_in(d.config_raw@, "serverName"@)
    &&& d.transport == transport_named(value_in(d.config_raw@, "transport"@))
}

/// A block in the form in which it is kept.
pub open spec fn kept_block(block: McpBlock) -> bool {
    &&& forall|i: int| 0 <= i < block.declares@.len() ==> kept_declare(#[trigger] block.declares@[i])
    &&& forall|i: int|
        0 <= i < block.directives@.len() ==> valid_row_id(#[trigger] block.directives@[i].row_id@)
}

pub open spec fn whole_lines(lines: Seq<Seq<char>>) -> bool {
    forall|i: int| 0 <= i < lines.len() ==> whole_line(#[trigger] lines[i])
}

/// Lines that each end in a line feed.
proof fn lemma_lines_ended(lines: Seq<Seq<char>>)
    requires
        lines.len() > 0,
        whole_lines(lines),
    ensures
        model::lines(model::join(lines, seq!['\n']) + seq!['\n']) == lines,
    decreases lines.len(),
{
    let last = lines.last();
    lemma_one_line(last);
    assert(last + seq!['\n'] =~= last.push('\n'));
    if lines.len() == 1 {
        assert(lines =~= seq![last]);
    } else {
        let init = lines.drop_last();
        lemma_lines_ended(init);
        let x = model::join(init, seq!['\n']) + seq!['\n'];
        assert(x.last() == '\n');
        lemma_lines_append(x, last.push('\n'));
        assert(model::join(lines, seq!['\n']) + seq!['\n'] =~= x + last.push('\n'));
        assert(init + seq![last] =~= lines);
    }
}

/// Joined lines come apart again.
pub proof fn lemma_lines_of_join(lines: Seq<Seq<char>>)
    requires
        lines.len() > 0,
        whole_lines(lines),
    ensures
        model::lines(model::join(lines, "\n"@)) == lines,
{
    reveal_strlit("\n");
    assert("\n"@ =~= seq!['\n']);
    let last = lines.last();
    model::lemma_first_in(last, CharSet::Only('\n'), 0);
    assert(last.skip(0) =~= last);
    assert(model::lines(last) =~= seq![last]);
    if lines.len() == 1 {
        assert(lines =~= seq![last]);
    } else {
        let init = lines.drop_last();
        lemma_lines_ended(init);
        let x = model::join(init, seq!['\n']) + seq!['\n'];
        assert(x.last() == '\n');
        lemma_lines_append(x, last);
        assert(init + seq![last] =~= lines);
    }
}

// ---- Scalars ----

pub proof fn lemma_skip_blank(s: Seq<char>)
    requires
        s.len() > 0,
        !model::white(s[0]),
        !model::white(s.last()),
    ensures
        model::trim(seq![' '] + s) == s,
        model::trim(s) == s,
{
    let k = CharSet::White;
    let t = seq![' '] + s;
    lemma_trim_nothing(s, k);
    assert(model::first_not_in(t, k, 0) == model::first_not_in(t, k, 1));
    assert(t[1] == s[0]);
    assert(model::first_not_in(t, k, 1) == 1);
    assert(t.skip(1) =~= s);
    assert(model::first_not_in(s, k, 0) == 0);
    assert(s.skip(0) =~= s);
}

/// A word of characters that mean nothing to the reader stands for itself.
pub proof fn lemma_plain(s: Seq<char>)
    requires
        s.len() > 0,
        forall|i: int| 0 <= i < s.len() ==> row_id_char(#[trigger] s[i]),
    ensures
        meant(seq![' '] + s) == s,
{
    assert(row_id_char(s[0]) && row_id_char(s.last()));
    lemma_skip_blank(s);
    reveal_strlit(" #");
    model::lemma_find_at(s, " #"@, 0);
    if model::find(s, " #"@) is Some {
        let i = model::find(s, " #"@)->0;
        assert(s.subrange(i, i + 2) == " #"@);
        assert(s.subrange(i, i + 2)[0] == s[i]);
        assert(row_id_char(s[i]));
    }
}

proof fn lemma_bool_means(b: bool)
    ensures
        disabled_by(seq![' '] + bool_text(b)) == DisabledText::Bool(b),
{
    reveal_strlit("true");
    reveal_strlit("false");
    lemma_plain(bool_text(b));
}

// ---- Lines of the block ----

proof fn lemma_not_idle(line: Seq<char>, in_config: bool, i: int)
    requires
        0 <= i < line.len(),
        forall|j: int| 0 <= j < i ==> #[trigger] line[j] == ' ',
        !model::white(line[i]),
        line[i] != '#',
    ensures
        !idle(line, in_config),
{
    lemma_not_blank(line);
    reveal_strlit("#");
    let k = CharSet::White;
    model::lemma_first_not_in(line, k, 0);
    let n = model::first_not_in(line, k, 0);
    assert(n == i) by {
        if n < i {
            assert(line[n] == ' ');
        }
    }
    let t = model::trim_start(line, k);
    assert(t[0] == line[i]);
    model::lemma_back_over(t, k, t.len() as int);
    let m = model::back_over(t, k, t.len() as int);
    assert(m > 0) by {
        if m == 0 {
            assert(k.has(t[0]));
        }
    }
    assert(model::trim(line)[0] == line[i]);
    if model::starts_with(model::trim(line), "#"@) {
        assert(model::trim(line).subrange(0, 1)[0] == '#');
    }
}

pub proof fn lemma_depth(line: Seq<char>, n: int)
    requires
        0 <= n < line.len(),
        forall|j: int| 0 <= j < n ==> #[trigger] line[j] == ' ',
        line[n] != ' ',
    ensures
        depth(line) == n,
{
    let k = CharSet::Only(' ');
    model::lemma_first_not_in(line, k, 0);
    let m = model::first_not_in(line, k, 0);
    if m < n {
        assert(line[m] == ' ');
    }
}

pub proof fn lemma_deep(line: Seq<char>, n: int)
    requires
        0 <= n <= line.len(),
        forall|j: int| 0 <= j < n ==> #[trigger] line[j] == ' ',
    ensures
        depth(line) >= n,
{
    let k = CharSet::Only(' ');
    model::lemma_first_not_in(line, k, 0);
    let m = model::first_not_in(line, k, 0);
    if m < n {
        assert(line[m] == ' ');
    }
}

pub proof fn lemma_not_start(s: Seq<char>, p: Seq<char>, i: int)
    requires
        0 <= i < s.len(),
        i < p.len(),
        s[i] != p[i],
    ensures
        !model::starts_with(s, p),
        model::strip_prefix(s, p) is None,
{
    if model::matches_at(s, p, 0) {
        assert(s.subrange(0, p.len() as int)[i] == s[i]);
    }
}

proof fn lemma_directive_step(now: BlockText, d: McpDirective)
    requires
        valid_row_id(d.row_id@),
    ensures
        block_step(now, directive_lines(d)[0]) == Ok::<BlockText, Seq<char>>(
            BlockText {
                directives: now.directives.push(DirectiveText { id: d.row_id@, disabled: false }),
                in_config: false,
                ..now
            },
        ),
{
    let line = directive_lines(d)[0];
    reveal_strlit("- id: ");
    reveal_strlit("- id:");
    reveal_strlit("- insert:");
    lemma_not_idle(line, now.in_config, 0);
    assert(line[3] == 'd');
    lemma_not_start(line, "- insert:"@, 3);
    assert(line =~= "- id:"@ + (seq![' '] + d.row_id@));
    lemma_strip_prefix("- id:"@, seq![' '] + d.row_id@);
    lemma_plain(d.row_id@);
}

proof fn lemma_state_step(now: BlockText, d: McpDirective)
    requires
        !now.in_config,
        now.directives.len() > 0,
    ensures
        block_step(now, directive_lines(d)[1]) == Ok::<BlockText, Seq<char>>(
            BlockText {
                directives: now.directives.drop_last().push(
                    DirectiveText { disabled: d.disabled, ..now.directives.last() },
                ),
                ..now
            },
        ),
{
    let line = directive_lines(d)[1];
    reveal_strlit("  disabled: ");
    reveal_strlit("disabled");
    reveal_strlit(":");
    reveal_strlit("- insert:");
    reveal_strlit("- id:");
    reveal_strlit("    - id:");
    reveal_strlit("      config:");
    assert(line[0] == ' ' && line[1] == ' ' && line[2] == 'd');
    lemma_not_idle(line, now.in_config, 2);
    lemma_not_start(line, "- insert:"@, 0);
    lemma_not_start(line, "- id:"@, 0);
    lemma_not_start(line, "    - id:"@, 2);
    lemma_not_start(line, "      config:"@, 2);
    lemma_depth(line, 2);
    let key = "disabled"@ + ":"@;
    let value = seq![' '] + bool_text(d.disabled);
    let rest = model::trim_start(line, CharSet::Only(' '));
    assert(rest =~= key + value);
    lemma_strip_prefix(key, value);
    lemma_bool_means(d.disabled);
}

proof fn lemma_declare_step(now: BlockText, d: McpDeclare)
    requires
        valid_row_id(d.row_id@),
    ensures
        block_step(now, declare_lines(d)[0]) == Ok::<BlockText, Seq<char>>(
            BlockText {
                declares: now.declares.push(DeclareText { id: d.row_id@, config: seq![] }),
                in_config: false,
                ..now
            },
        ),
{
    let line = declare_lines(d)[0];
    reveal_strlit("    - id: ");
    reveal_strlit("    - id:");
    reveal_strlit("- insert:");
    reveal_strlit("- id:");
    assert(line[0] == ' ' && line[1] == ' ' && line[2] == ' ' && line[3] == ' ' && line[4] == '-');
    lemma_not_idle(line, now.in_config, 4);
    lemma_not_start(line, "- insert:"@, 0);
    lemma_not_start(line, "- id:"@, 0);
    assert(line =~= "    - id:"@ + (seq![' '] + d.row_id@));
    lemma_strip_prefix("    - id:"@, seq![' '] + d.row_id@);
    lemma_plain(d.row_id@);
}

proof fn lemma_head_steps(now: BlockText, d: McpDeclare)
    requires
        !now.in_config,
    ensures
        block_step(now, declare_lines(d)[1]) == Ok::<BlockText, Seq<char>>(now),
        block_step(now, declare_lines(d)[2]) == Ok::<BlockText, Seq<char>>(
            BlockText { in_config: true, ..now },
        ),
        block_step(now, "- insert:"@) == Ok::<BlockText, Seq<char>>(now),
{
    reveal_strlit("      name: ");
    reveal_strlit("      name:");
    reveal_strlit("      config:");
    reveal_strlit("    - id:");
    reveal_strlit("- insert:");
    reveal_strlit("- id:");
    let line = declare_lines(d)[1];
    assert forall|j: int| 0 <= j < 6 implies #[trigger] line[j] == ' ' by {}
    assert(line[6] == 'n');
    lemma_not_idle(line, false, 6);
    lemma_not_start(line, "- insert:"@, 0);
    lemma_not_start(line, "- id:"@, 0);
    lemma_not_start(line, "    - id:"@, 4);
    lemma_not_start(line, "      config:"@, 6);
    lemma_depth(line, 6);
    assert(line.subrange(0, 11) =~= "      name:"@);
    let head = declare_lines(d)[2];
    assert forall|j: int| 0 <= j < 6 implies #[trigger] head[j] == ' ' by {}
    lemma_not_idle(head, false, 6);
    lemma_not_start(head, "- insert:"@, 0);
    lemma_not_start(head, "- id:"@, 0);
    lemma_not_start(head, "    - id:"@, 4);
    assert(head.subrange(0, head.len() as int) =~= head);
    let first = "- insert:"@;
    lemma_not_idle(first, false, 0);
    assert(first.subrange(0, first.len() as int) =~= first);
}

proof fn lemma_config_step(now: BlockText, line: Seq<char>)
    requires
        now.in_config,
        now.declares.len() > 0,
        kept_line(line),
    ensures
        ({
            let last = now.declares.last();
            block_step(now, "      "@ + line) == Ok::<BlockText, Seq<char>>(
                BlockText {
                    declares: now.declares.drop_last().push(
                        DeclareText { config: last.config.push("      "@ + line), ..last },
                    ),
                    ..now
                },
            )
        }),
{
    reveal_strlit("      ");
    reveal_strlit("      config:");
    reveal_strlit("    - id:");
    reveal_strlit("- insert:");
    reveal_strlit("- id:");
    let deep = "      "@ + line;
    assert forall|j: int| 0 <= j < 8 implies #[trigger] deep[j] == ' ' by {
        if j >= 6 {
            assert(deep[j] == line[j - 6]);
        }
    }
    assert(deep.last() == line.last());
    lemma_not_blank(deep);
    lemma_not_start(deep, "- insert:"@, 0);
    lemma_not_start(deep, "- id:"@, 0);
    lemma_not_start(deep, "    - id:"@, 4);
    lemma_not_start(deep, "      config:"@, 6);
    lemma_deep(deep, 8);
}

// ---- Rows of lines ----

/// Lines can be read in two parts.
proof fn lemma_from_append(a: Seq<Seq<char>>, b: Seq<Seq<char>>, i: int, now: BlockText)
    requires
        0 <= i <= a.len(),
        block_from(a, i, now) is Ok,
    ensures
        block_from(a + b, i, now) == block_from(b, 0, block_from(a, i, now)->Ok_0),
    decreases a.len() - i,
{
    if i < a.len() {
        assert((a + b)[i] == a[i]);
        lemma_from_append(a, b, i + 1, block_step(now, a[i])->Ok_0);
    } else {
        lemma_from_shift(a, b, 0, now);
    }
}

proof fn lemma_from_shift(a: Seq<Seq<char>>, b: Seq<Seq<char>>, i: int, now: BlockText)
    requires
        0 <= i <= b.len(),
    ensures
        block_from(a + b, a.len() + i, now) == block_from(b, i, now),
    decreases b.len() - i,
{
    if i < b.len() {
        assert((a + b)[a.len() + i] == b[i]);
        if block_step(now, b[i]) is Ok {
            lemma_from_shift(a, b, i + 1, block_step(now, b[i])->Ok_0);
        }
    }
}

proof fn lemma_read_config(now: BlockText, lines: Seq<Seq<char>>, i: int)
    requires
        now.in_config,
        now.declares.len() > 0,
        forall|k: int| 0 <= k < lines.len() ==> kept_line(#[trigger] lines[k]),
        0 <= i <= lines.len(),
    ensures
        ({
            let deep = lines.map_values(|l: Seq<char>| "      "@ + l);
            let last = now.declares.last();
            block_from(deep, i, now) == Ok::<BlockText, Seq<char>>(
                BlockText {
                    declares: now.declares.drop_last().push(
                        DeclareText { config: last.config + deep.skip(i), ..last },
                    ),
                    ..now
                },
            )
        }),
    decreases lines.len() - i,
{
    let deep = lines.map_values(|l: Seq<char>| "      "@ + l);
    let last = now.declares.last();
    if i < lines.len() {
        lemma_config_step(now, lines[i]);
        let next = block_step(now, deep[i])->Ok_0;
        lemma_read_config(next, lines, i + 1);
        assert(next.declares.drop_last() =~= now.declares.drop_last());
        assert(last.config.push(deep[i]) + deep.skip(i + 1) =~= last.config + deep.skip(i));
    } else {
        assert(last.config + deep.skip(i) =~= last.config);
        assert(now.declares =~= now.declares.drop_last().push(last));
    }
}

/// What is read of a declaration that was written.
pub open spec fn declare_said(d: McpDeclare) -> DeclareText {
    DeclareText { id: d.row_id@, config: config_lines(d.config_raw@) }
}

proof fn lemma_read_declare(now: BlockText, d: McpDeclare)
    requires
        kept_declare(d),
    ensures
        block_from(declare_lines(d), 0, now) == Ok::<BlockText, Seq<char>>(
            BlockText { declares: now.declares.push(declare_said(d)), in_config: true, ..now },
        ),
{
    let lines = declare_lines(d);
    let config = config_lines(d.config_raw@);
    let head = lines.take(3);
    assert(lines =~= head + config);
    assert(head[0] == lines[0] && head[1] == lines[1] && head[2] == lines[2]);
    lemma_declare_step(now, d);
    let one = block_step(now, lines[0])->Ok_0;
    lemma_head_steps(one, d);
    let three = BlockText { in_config: true, ..one };
    assert(block_from(head, 3, three) == Ok::<BlockText, Seq<char>>(three));
    assert(block_from(head, 2, one) == Ok::<BlockText, Seq<char>>(three));
    assert(block_from(head, 1, one) == Ok::<BlockText, Seq<char>>(three));
    assert(block_from(head, 0, now) == Ok::<BlockText, Seq<char>>(three));
    lemma_from_append(head, config, 0, now);
    lemma_read_config(three, model::lines(d.config_raw@), 0);
    assert(three.declares.drop_last() =~= now.declares);
    assert(seq![] + config.skip(0) =~= config);
}

pub open spec fn declares_said(v: Seq<McpDeclare>) -> Seq<DeclareText> {
    v.map_values(|d: McpDeclare| declare_said(d))
}

proof fn lemma_read_declares(now: BlockText, v: Seq<McpDeclare>)
    requires
        forall|i: int| 0 <= i < v.len() ==> kept_declare(#[trigger] v[i]),
    ensures
        ({
            let r = block_from(all_declare_lines(v), 0, now);
            &&& r is Ok
            &&& r->Ok_0.declares == now.declares + declares_said(v)
            &&& r->Ok_0.directives == now.directives
        }),
    decreases v.len(),
{
    if v.len() == 0 {
        assert(now.declares + declares_said(v) =~= now.declares);
    } else {
        let init = v.drop_last();
        lemma_read_declares(now, init);
        let mid = block_from(all_declare_lines(init), 0, now)->Ok_0;
        lemma_from_append(all_declare_lines(init), declare_lines(v.last()), 0, now);
        lemma_read_declare(mid, v.last());
        assert(now.declares + declares_said(v) =~= (now.declares + declares_said(init)).push(
            declare_said(v.last()),
        ));
    }
}

proof fn lemma_read_directives(now: BlockText, v: Seq<McpDirective>)
    requires
        forall|i: int| 0 <= i < v.len() ==> valid_row_id(#[trigger] v[i].row_id@),
    ensures
        ({
            let r = block_from(all_directive_lines(v), 0, now);
            &&& r is Ok
            &&& r->Ok_0.declares == now.declares
            &&& r->Ok_0.directives == now.directives + directive_texts(v)
        }),
    decreases v.len(),
{
    if v.len() == 0 {
        assert(now.directives + directive_texts(v) =~= now.directives);
    } else {
        let init = v.drop_last();
        let d = v.last();
        lemma_read_directives(now, init);
        let mid = block_from(all_directive_lines(init), 0, now)->Ok_0;
        lemma_from_append(all_directive_lines(init), directive_lines(d), 0, now);
        lemma_directive_step(mid, d);
        let one = block_step(mid, directive_lines(d)[0])->Ok_0;
        lemma_state_step(one, d);
        let two = block_step(one, directive_lines(d)[1])->Ok_0;
        let lines = directive_lines(d);
        assert(block_from(lines, 2, two) == Ok::<BlockText, Seq<char>>(two));
        assert(block_from(lines, 1, one) == Ok::<BlockText, Seq<char>>(two));
        assert(block_from(lines, 0, mid) == Ok::<BlockText, Seq<char>>(two));
        let told = DirectiveText { id: d.row_id@, disabled: d.disabled };
        assert(two.directives =~= mid.directives.push(told));
        assert(now.directives + directive_texts(v) =~= (now.directives + directive_texts(
            init,
        )).push(told));
    }
}

// ---- The whole block ----

proof fn lemma_deep_line(line: Seq<char>)
    requires
        kept_line(line),
    ensures
        whole_line("      "@ + line),
        !model::blank("      "@ + line),
        depth("      "@ + line) >= 8,
        shifted("      "@ + line, 8) == line,
{
    reveal_strlit("      ");
    reveal_strlit("  ");
    let deep = "      "@ + line;
    assert forall|j: int| 0 <= j < 8 implies #[trigger] deep[j] == ' ' by {
        if j >= 6 {
            assert(deep[j] == line[j - 6]);
        }
    }
    assert forall|j: int| 0 <= j < deep.len() implies #[trigger] deep[j] != '\n' by {
        if j >= 6 {
            assert(deep[j] == line[j - 6]);
        }
    }
    assert(deep.last() == line.last());
    lemma_not_blank(deep);
    lemma_deep(deep, 8);
    let rest = deep.skip(8);
    assert(rest.last() == line.last());
    assert(model::back_over(rest, CharSet::White, rest.len() as int) == rest.len());
    assert(rest.take(rest.len() as int) =~= rest);
    assert("  "@ + rest =~= line);
}

proof fn lemma_join_end(lines: Seq<Seq<char>>, sep: Seq<char>)
    requires
        lines.len() > 0,
        lines.last().len() > 0,
    ensures
        model::join(lines, sep).len() > 0,
        model::join(lines, sep).last() == lines.last().last(),
{
}

/// A kept configuration comes back from the lines below its declaration.
proof fn lemma_config_returns(config: Seq<char>)
    requires
        kept_config(config),
    ensures
        normalized(model::join(config_lines(config), "\n"@)) == config,
        whole_lines(config_lines(config)),
        config_lines(config).len() > 0,
{
    let lines = model::lines(config);
    let deep = config_lines(config);
    assert forall|i: int| 0 <= i < deep.len() implies whole_line(#[trigger] deep[i]) by {
        lemma_deep_line(lines[i]);
    }
    lemma_lines_of_join(deep);
    lemma_deep_line(lines[0]);
    let first = deep[0];
    reveal_strlit("      ");
    assert(kept_line(lines[0]));
    assert forall|j: int| 0 <= j < 8 implies #[trigger] first[j] == ' ' by {
        if j >= 6 {
            assert(first[j] == lines[0][j - 6]);
        }
    }
    assert(first[8] == lines[0][2]);
    lemma_depth(first, 8);
    assert(level_of(deep, 0) == Some(8int));
    assert(shifted_lines(deep, 8) =~= lines) by {
        assert forall|i: int| 0 <= i < deep.len() implies shifted_lines(deep, 8)[i]
            == lines[i] by {
            lemma_deep_line(lines[i]);
        }
    }
    lemma_join_end(lines, "\n"@);
    assert(kept_line(lines.last()));
    assert(model::back_over(config, CharSet::White, config.len() as int) == config.len());
    assert(config.take(config.len() as int) =~= config);
}

proof fn lemma_id_line(prefix: Seq<char>, id: Seq<char>)
    requires
        valid_row_id(id),
        forall|i: int| 0 <= i < prefix.len() ==> #[trigger] prefix[i] != '\n',
    ensures
        whole_line(prefix + id),
        !model::white((prefix + id).last()),
{
    let line = prefix + id;
    assert forall|j: int| 0 <= j < line.len() implies #[trigger] line[j] != '\n' by {
        if j >= prefix.len() {
            assert(row_id_char(id[j - prefix.len()]));
        }
    }
    assert(row_id_char(id.last()));
}

proof fn lemma_declare_whole(d: McpDeclare)
    requires
        kept_declare(d),
    ensures
        whole_lines(declare_lines(d)),
{
    let lines = declare_lines(d);
    reveal_strlit("    - id: ");
    reveal_strlit("      name: ");
    reveal_strlit("      config:");
    reveal_strlit("'");
    reveal_strlit("@deepseek-ai/dsh-mcp-client");
    lemma_id_line("    - id: "@, d.row_id@);
    lemma_config_returns(d.config_raw@);
    crate::text_lemmas::lemma_replace_none(REQUIRED_PACKAGE@, '\'', "''"@);
    let name = quoted(REQUIRED_PACKAGE@);
    assert(name =~= "'"@ + REQUIRED_PACKAGE@ + "'"@);
    assert forall|i: int| 0 <= i < lines.len() implies whole_line(#[trigger] lines[i]) by {
        if i >= 3 {
            assert(lines[i] == config_lines(d.config_raw@)[i - 3]);
        }
    }
}

proof fn lemma_directive_whole(d: McpDirective)
    requires
        valid_row_id(d.row_id@),
    ensures
        whole_lines(directive_lines(d)),
{
    reveal_strlit("- id: ");
    reveal_strlit("  disabled: ");
    reveal_strlit("true");
    reveal_strlit("false");
    lemma_id_line("- id: "@, d.row_id@);
}

proof fn lemma_block_whole(block: McpBlock)
    requires
        kept_block(block),
    ensures
        whole_lines(block_lines(block)),
{
    reveal_strlit("- insert:");
    lemma_declares_whole(block.declares@);
    lemma_directives_whole(block.directives@);
}

proof fn lemma_declares_whole(v: Seq<McpDeclare>)
    requires
        forall|i: int| 0 <= i < v.len() ==> kept_declare(#[trigger] v[i]),
    ensures
        whole_lines(all_declare_lines(v)),
    decreases v.len(),
{
    if v.len() > 0 {
        lemma_declares_whole(v.drop_last());
        lemma_declare_whole(v.last());
    }
}

proof fn lemma_directives_whole(v: Seq<McpDirective>)
    requires
        forall|i: int| 0 <= i < v.len() ==> valid_row_id(#[trigger] v[i].row_id@),
    ensures
        whole_lines(all_directive_lines(v)),
    decreases v.len(),
{
    if v.len() > 0 {
        lemma_directives_whole(v.drop_last());
        lemma_directive_whole(v.last());
    }
}

/// A block that was written out is read as the block that it was.
pub proof fn law_written_servers_are_read_back(block: McpBlock)
    requires
        kept_block(block),
        block.declares@.len() > 0 || block.directives@.len() > 0,
    ensures
        block_said(model::join(block_lines(block), "\n"@)) is Ok,
        shows_block(block, block_said(model::join(block_lines(block), "\n"@))->Ok_0),
{
    let start = BlockText { declares: seq![], directives: seq![], in_config: false };
    let head = if block.declares@.len() > 0 {
        seq!["- insert:"@]
    } else {
        seq![]
    };
    let declared = all_declare_lines(block.declares@);
    let directed = all_directive_lines(block.directives@);
    let lines = block_lines(block);
    assert(lines =~= head + (declared + directed));
    assert(lines.len() > 0) by {
        if block.declares@.len() == 0 {
            assert(directed.len() >= 2);
        }
    }
    lemma_block_whole(block);
    lemma_lines_of_join(lines);
    if block.declares@.len() > 0 {
        lemma_head_steps(start, block.declares@[0]);
        assert(block_from(head, 1, start) == Ok::<BlockText, Seq<char>>(start));
    }
    assert(block_from(head, 0, start) == Ok::<BlockText, Seq<char>>(start));
    lemma_from_append(head, declared + directed, 0, start);
    lemma_read_declares(start, block.declares@);
    let mid = block_from(declared, 0, start)->Ok_0;
    lemma_from_append(declared, directed, 0, start);
    lemma_read_directives(mid, block.directives@);
    let read = block_said(model::join(lines, "\n"@))->Ok_0;
    assert(read.declares =~= declares_said(block.declares@));
    assert(read.directives =~= directive_texts(block.directives@));
    assert forall|i: int| 0 <= i < read.declares.len() implies shows_declare(
        #[trigger] block.declares@[i],
        read.declares[i],
    ) by {
        lemma_config_returns(block.declares@[i].config_raw@);
    }
}

/// In a file with LF line endings, the tool servers are read back as they were written there.
pub proof fn law_servers_in_a_file_are_read_back(
    path: Seq<char>,
    existing: Option<Seq<char>>,
    block: McpBlock,
)
    requires
        kept_block(block),
        block.declares@.len() > 0 || block.directives@.len() > 0,
        file_eol(existing) == "\n"@,
        ({
            let body = model::join(block_lines(block), "\n"@);
            let r = edited(path, existing, mcp_family().begin(), mcp_family().end(), Some(body));
            r is Ok
        }),
    ensures
        ({
            let body = model::join(block_lines(block), "\n"@);
            let after = edited(
                path,
                existing,
                mcp_family().begin(),
                mcp_family().end(),
                Some(body),
            )->Ok_0.content;
            let read = body_read(path, after, mcp_family());
            &&& read == Ok::<Option<Seq<char>>, Seq<char>>(Some(body))
            &&& block_said(body) is Ok
            &&& shows_block(block, block_said(body)->Ok_0)
        }),
{
    let lines = block_lines(block);
    let body = model::join(lines, "\n"@);
    law_written_servers_are_read_back(block);
    law_server_markers_are_proper();
    lemma_body_edges(block);
    lemma_not_blank(body);
    lemma_trim_nothing(body, CharSet::White);
    law_read_gives_back_the_body(path, existing, mcp_family(), body);
}

proof fn lemma_join_start(lines: Seq<Seq<char>>, sep: Seq<char>)
    requires
        lines.len() > 0,
        lines[0].len() > 0,
    ensures
        model::join(lines, sep).len() > 0,
        model::join(lines, sep)[0] == lines[0][0],
    decreases lines.len(),
{
    if lines.len() > 1 {
        lemma_join_start(lines.drop_last(), sep);
    }
}

/// The body of a block begins with a dash and ends in text.
proof fn lemma_body_edges(block: McpBlock)
    requires
        kept_block(block),
        block.declares@.len() > 0 || block.directives@.len() > 0,
    ensures
        ({
            let body = model::join(block_lines(block), "\n"@);
            &&& body.len() > 0
            &&& body[0] == '-'
            &&& !model::white(body[0])
            &&& !model::white(body.last())
        }),
{
    reveal_strlit("- insert:");
    reveal_strlit("- id: ");
    reveal_strlit("  disabled: ");
    reveal_strlit("true");
    reveal_strlit("false");
    let lines = block_lines(block);
    let declared = all_declare_lines(block.declares@);
    let directed = all_directive_lines(block.directives@);
    if block.directives@.len() > 0 {
        let d = block.directives@.last();
        assert(directed.last() == directive_lines(d)[1]);
        assert(lines.last() == directed.last());
        lemma_directives_start(block.directives@);
    } else {
        let d = block.declares@.last();
        let config = config_lines(d.config_raw@);
        assert(kept_declare(d));
        lemma_config_returns(d.config_raw@);
        assert(declared.last() == config.last());
        assert(directed =~= seq![]);
        assert(lines.last() == config.last());
        lemma_deep_line(model::lines(d.config_raw@).last());
        assert(kept_line(model::lines(d.config_raw@).last()));
        reveal_strlit("      ");
        assert(lines.last().last() == model::lines(d.config_raw@).last().last());
    }
    assert(lines[0].len() > 0 && lines[0][0] == '-');
    lemma_join_start(lines, "\n"@);
    lemma_join_end(lines, "\n"@);
}

proof fn lemma_directives_start(v: Seq<McpDirective>)
    requires
        v.len() > 0,
    ensures
        all_directive_lines(v).len() > 0,
        all_directive_lines(v)[0] == directive_lines(v[0])[0],
    decreases v.len(),
{
    if v.len() > 1 {
        lemma_directives_start(v.drop_last());
    } else {
        assert(all_directive_lines(v.drop_last()) =~= seq![]);
        assert(all_directive_lines(v) =~= directive_lines(v[0]));
    }
}

} // verus!
