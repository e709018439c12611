//! The text of the launcher's block of tool servers.
//!
//! The block first declares servers, as rows to insert with a configuration each, and then directs
//! rows, each to be on or off.

use crate::mcp::{McpBlock, McpDeclare, McpDirective, McpTransport, REQUIRED_PACKAGE};
use crate::mcp_change::{bool_text, bool_word};
use crate::model;
use crate::plugin::dump::DisabledValue;
use crate::plugin::dump_text::{disabled_by, disabled_value, transport_named, DisabledText};
use crate::plugin::managed::{quoted, yaml_quote};
use crate::text;
use crate::yaml_text;
use crate::yaml_text::{depth, field_in, meant, normalized, value_in};
use vstd::prelude::*;

verus! {

/// What was read of a declaration: its row and the lines of its configuration.
pub ghost struct DeclareText {
    pub id: Seq<char>,
    pub config: Seq<Seq<char>>,
}

/// What was read of a directive.
pub ghost struct DirectiveText {
    pub id: Seq<char>,
    pub disabled: bool,
}

/// What the lines so far amount to; the last declaration's configuration may be open.
pub ghost struct BlockText {
    pub declares: Seq<DeclareText>,
    pub directives: Seq<DirectiveText>,
    pub in_config: bool,
}

/// A declaration with the lines of its configuration.
pub struct RawDeclare {
    pub id: String,
    pub config: Vec<String>,
}

impl View for RawDeclare {
    type V = DeclareText;

    open spec fn view(&self) -> DeclareText {
        DeclareText { id: self.id@, config: model::texts(self.config@) }
    }
}

pub open spec fn declare_texts(v: Seq<RawDeclare>) -> Seq<DeclareText> {
    v.map_values(|d: RawDeclare| d@)
}

pub open spec fn directive_texts(v: Seq<McpDirective>) -> Seq<DirectiveText> {
    v.map_values(|d: McpDirective| DirectiveText { id: d.row_id@, disabled: d.disabled })
}

/// A line that says nothing: a blank one, or a comment outside a configuration.
pub open spec fn idle(line: Seq<char>, in_config: bool) -> bool {
    model::blank(line) || (!in_config && model::starts_with(model::trim(line), "#"@))
}

/// What one more line adds; a line that has no place in the block is refused.
pub open spec fn block_step(now: BlockText, line: Seq<char>) -> Result<BlockText, Seq<char>> {
    if idle(line, now.in_config) {
        Ok(now)
    } else if model::starts_with(line, "- insert:"@) {
        Ok(BlockText { in_config: false, ..now })
    } else if model::strip_prefix(line, "- id:"@) is Some {
        Ok(
            BlockText {
                directives: now.directives.push(
                    DirectiveText {
                        id: meant(model::strip_prefix(line, "- id:"@)->0),
                        disabled: false,
                    },
                ),
                in_config: false,
                ..now
            },
        )
    } else if model::strip_prefix(line, "    - id:"@) is Some {
        Ok(
            BlockText {
                declares: now.declares.push(
                    DeclareText {
                        id: meant(model::strip_prefix(line, "    - id:"@)->0),
                        config: seq![],
                    },
                ),
                in_config: false,
                ..now
            },
        )
    } else if model::starts_with(line, "      config:"@) {
        Ok(BlockText { in_config: true, ..now })
    } else if now.in_config && depth(line) >= 8 && now.declares.len() > 0 {
        let last = now.declares.last();
        Ok(
            BlockText {
                declares: now.declares.drop_last().push(
                    DeclareText { config: last.config.push(line), ..last },
                ),
                ..now
            },
        )
    } else if depth(line) == 2 && field_in(line, "disabled"@) is Some {
        match disabled_by(field_in(line, "disabled"@)->0) {
            DisabledText::Bool(b) => if now.directives.len() > 0 {
                let last = now.directives.last();
                Ok(
                    BlockText {
                        directives: now.directives.drop_last().push(
                            DirectiveText { disabled: b, ..last },
                        ),
                        ..now
                    },
                )
            } else {
                Err("无法解析的定向行: "@ + model::trim(line))
            },
            DisabledText::Expression(_) => Err("无法解析的定向行: "@ + model::trim(line)),
        }
    } else if model::starts_with(line, "      name:"@) {
        Ok(now)
    } else {
        Err("无法解析的区块行: "@ + model::trim(line))
    }
}

/// What the lines from position `i` on amount to.
pub open spec fn block_from(lines: Seq<Seq<char>>, i: int, now: BlockText) -> Result<
    BlockText,
    Seq<char>,
>
    decreases lines.len() - i,
{
    if i < 0 || i >= lines.len() {
        Ok(now)
    } else {
        match block_step(now, lines[i]) {
            Err(e) => Err(e),
            Ok(next) => block_from(lines, i + 1, next),
        }
    }
}

/// What the body of a block says.
pub open spec fn block_said(body: Seq<char>) -> Result<BlockText, Seq<char>> {
    block_from(
        model::lines(body),
        0,
        BlockText { declares: seq![], directives: seq![], in_config: false },
    )
}

/// The declaration is the one that was read, with its configuration in the form in which it is
/// kept.
pub open spec fn shows_declare(d: McpDeclare, read: DeclareText) -> bool {
    let config = normalized(model::join(read.config, "\n"@));
    &&& d.row_id@ == read.id
    &&& d.config_raw@ == config
    &&& model::text_of(d.server_name) == value_in(config, "serverName"@)
    &&& d.transport == transport_named(value_in(config, "transport"@))
}

/// The block is the one that was read.
pub open spec fn shows_block(block: McpBlock, read: BlockText) -> bool {
    &&& directive_texts(block.directives@) == read.directives
    &&& block.declares@.len() == read.declares.len()
    &&& forall|i: int|
        0 <= i < read.declares.len() ==> shows_declare(
            #[trigger] block.declares@[i],
            read.declares[i],
        )
}

/// A block while it is read.
struct Reading {
    declares: Vec<RawDeclare>,
    directives: Vec<McpDirective>,
    in_config: bool,
}

impl Reading {
    spec fn text(&self) -> BlockText {
        BlockText {
            declares: declare_texts(self.declares@),
            directives: directive_texts(self.directives@),
            in_config: self.in_config,
        }
    }

    fn add_directive(&mut self, id: String, disabled: bool)
        ensures
            final(self).text() == (BlockText {
                directives: old(self).text().directives.push(DirectiveText { id: id@, disabled }),
                ..old(self).text()
            }),
    {
        let ghost before = self.text();
        self.directives.push(McpDirective { row_id: id, disabled });
        proof {
            assert(self.text().directives =~= before.directives.push(
                DirectiveText { id: id@, disabled },
            ));
        }
    }

    fn add_declare(&mut self, id: String, config: Vec<String>)
        ensures
            final(self).text() == (BlockText {
                declares: old(self).text().declares.push(
                    DeclareText { id: id@, config: model::texts(config@) },
                ),
                ..old(self).text()
            }),
    {
        let ghost before = self.text();
        self.declares.push(RawDeclare { id, config });
        proof {
            assert(self.text().declares =~= before.declares.push(
                DeclareText { id: id@, config: model::texts(config@) },
            ));
        }
    }

    fn add_config_line(&mut self, line: &str)
        requires
            old(self).declares@.len() > 0,
        ensures
            final(self).text() == (BlockText {
                declares: old(self).text().declares.drop_last().push(
                    DeclareText {
                        config: old(self).text().declares.last().config.push(line@),
                        ..old(self).text().declares.last()
                    },
                ),
                ..old(self).text()
            }),
    {
        let ghost before = self.text();
        if let Some(last) = self.declares.pop() {
            let mut config = last.config;
            let ghost had = model::texts(config@);
            config.push(line.to_owned());
            proof {
                assert(before.declares.last().config == had);
                assert(model::texts(config@) =~= had.push(line@));
                assert(self.text().declares =~= before.declares.drop_last());
            }
            self.add_declare(last.id, config);
        }
    }

    fn direct_last(&mut self, disabled: bool)
        requires
            old(self).directives@.len() > 0,
        ensures
            final(self).text() == (BlockText {
                directives: old(self).text().directives.drop_last().push(
                    DirectiveText { disabled, ..old(self).text().directives.last() },
                ),
                ..old(self).text()
            }),
    {
        let ghost before = self.text();
        if let Some(last) = self.directives.pop() {
            proof {
                assert(before.directives.last().id == last.row_id@);
                assert(self.text().directives =~= before.directives.drop_last());
            }
            self.add_directive(last.row_id, disabled);
        }
    }

    fn take_line(&mut self, line: &str) -> (r: Result<(), String>)
        ensures
            match block_step(old(self).text(), line@) {
                Ok(next) => r is Ok && final(self).text() == next,
                Err(e) => r is Err && r->Err_0@ == e,
            },
    {
        proof {
            assert(declare_texts(self.declares@).len() == self.declares@.len());
            assert(directive_texts(self.directives@).len() == self.directives@.len());
        }
        if text::blank(line) || (!self.in_config && text::starts_with(
            text::trim(line).as_str(),
            "#",
        )) {
            return Ok(());
        }
        if text::starts_with(line, "- insert:") {
            self.in_config = false;
            return Ok(());
        }
        if let Some(id) = text::strip_prefix(line, "- id:") {
            self.add_directive(yaml_text::scalar(id.as_str()), false);
            self.in_config = false;
            return Ok(());
        }
        if let Some(id) = text::strip_prefix(line, "    - id:") {
            let none: Vec<String> = Vec::new();
            proof {
                assert(model::texts(none@) =~= seq![]);
            }
            self.add_declare(yaml_text::scalar(id.as_str()), none);
            self.in_config = false;
            return Ok(());
        }
        if text::starts_with(line, "      config:") {
            self.in_config = true;
            return Ok(());
        }
        let deep = yaml_text::indent(line);
        if self.in_config && deep >= 8 && self.declares.len() > 0 {
            self.add_config_line(line);
            return Ok(());
        }
        if deep == 2 {
            if let Some(value) = yaml_text::field(line, "disabled") {
                if let DisabledValue::Bool(b) = disabled_value(value.as_str()) {
                    if self.directives.len() > 0 {
                        self.direct_last(b);
                        return Ok(());
                    }
                }
                return Err(text::cat2("无法解析的定向行: ", text::trim(line).as_str()));
            }
        }
        if text::starts_with(line, "      name:") {
            return Ok(());
        }
        Err(text::cat2("无法解析的区块行: ", text::trim(line).as_str()))
    }
}

fn kept_declare(raw: &RawDeclare) -> (r: McpDeclare)
    ensures
        shows_declare(r, raw@),
{
    let config_raw = yaml_text::normalize_config(text::join(&raw.config, "\n").as_str());
    let server_name = yaml_text::config_scalar(config_raw.as_str(), "serverName");
    let transport = match yaml_text::config_scalar(config_raw.as_str(), "transport") {
        Some(t) => McpTransport::parse(t.as_str()),
        None => None,
    };
    McpDeclare { row_id: raw.id.clone(), server_name, transport, config_raw }
}

pub fn empty_block() -> (r: McpBlock)
    ensures
        r.declares@.len() == 0,
        r.directives@.len() == 0,
{
    McpBlock { declares: Vec::new(), directives: Vec::new() }
}

/// Reads the body of the block.
pub fn parse_block(body: &str) -> (r: Result<McpBlock, String>)
    ensures
        match block_said(body@) {
            Ok(read) => r is Ok && shows_block(r->Ok_0, read),
            Err(e) => r is Err && r->Err_0@ == e,
        },
{
    let lines = text::lines(body);
    let ghost all = model::lines(body@);
    let mut reading = Reading { declares: Vec::new(), directives: Vec::new(), in_config: false };
    let mut i: usize = 0;
    proof {
        assert(declare_texts(reading.declares@) =~= seq![]);
        assert(directive_texts(reading.directives@) =~= seq![]);
        assert(model::texts(lines@).len() == lines@.len());
    }
    while i < lines.len()
        invariant
            all == model::lines(body@),
            model::texts(lines@) == all,
            lines@.len() == all.len(),
            i <= lines.len(),
            block_said(body@) == block_from(all, i as int, reading.text()),
        decreases lines.len() - i,
    {
        proof {
            assert(model::texts(lines@)[i as int] == lines@[i as int]@);
        }
        reading.take_line(lines[i].as_str())?;
        i += 1;
    }
    let ghost read = reading.text();
    let raws = reading.declares;
    let mut declares: Vec<McpDeclare> = Vec::new();
    let mut j: usize = 0;
    while j < raws.len()
        invariant
            read.declares == declare_texts(raws@),
            j <= raws.len(),
            declares@.len() == j,
            forall|k: int|
                0 <= k < j ==> shows_declare(#[trigger] declares@[k], read.declares[k]),
        decreases raws.len() - j,
    {
        declares.push(kept_declare(&raws[j]));
        j += 1;
    }
    Ok(McpBlock { declares, directives: reading.directives })
}

// ---- Writing ----

/// The lines of a kept configuration below a declaration.
pub open spec fn config_lines(config: Seq<char>) -> Seq<Seq<char>> {
    model::lines(config).map_values(|l: Seq<char>| "      "@ + l)
}

pub open spec fn declare_lines(d: McpDeclare) -> Seq<Seq<char>> {
    seq![
        "    - id: "@ + d.row_id@,
        "      name: "@ + quoted(REQUIRED_PACKAGE@),
        "      config:"@,
    ] + config_lines(d.config_raw@)
}

pub open spec fn directive_lines(d: McpDirective) -> Seq<Seq<char>> {
    seq!["- id: "@ + d.row_id@, "  disabled: "@ + bool_text(d.disabled)]
}

pub open spec fn all_declare_lines(v: Seq<McpDeclare>) -> Seq<Seq<char>>
    decreases v.len(),
{
    if v.len() == 0 {
        seq![]
    } else {
        all_declare_lines(v.drop_last()) + declare_lines(v.last())
    }
}

pub open spec fn all_directive_lines(v: Seq<McpDirective>) -> Seq<Seq<char>>
    decreases v.len(),
{
    if v.len() == 0 {
        seq![]
    } else {
        all_directive_lines(v.drop_last()) + directive_lines(v.last())
    }
}

pub open spec fn block_lines(block: McpBlock) -> Seq<Seq<char>> {
    (if block.declares@.len() > 0 {
        seq!["- insert:"@]
    } else {
        seq![]
    }) + all_declare_lines(block.declares@) + all_directive_lines(block.directives@)
}

fn push_declare(out: &mut Vec<String>, d: &McpDeclare)
    ensures
        model::texts(final(out)@) == model::texts(old(out)@) + declare_lines(*d),
{
    let ghost start = model::texts(out@);
    out.push(text::cat2("    - id: ", d.row_id.as_str()));
    out.push(text::cat2("      name: ", yaml_quote(REQUIRED_PACKAGE).as_str()));
    out.push("      config:".to_owned());
    let ghost head = seq![
        "    - id: "@ + d.row_id@,
        "      name: "@ + quoted(REQUIRED_PACKAGE@),
        "      config:"@,
    ];
    let lines = text::lines(d.config_raw.as_str());
    let ghost want = config_lines(d.config_raw@);
    let mut i: usize = 0;
    proof {
        assert(model::texts(lines@).len() == lines@.len());
        assert(model::texts(out@) =~= start + head + want.take(0));
    }
    while i < lines.len()
        invariant
            want == model::texts(lines@).map_values(|l: Seq<char>| "      "@ + l),
            want.len() == lines@.len(),
            i <= lines.len(),
            model::texts(out@) == start + head + want.take(i as int),
        decreases lines.len() - i,
    {
        let ghost before = model::texts(out@);
        proof {
            assert(model::texts(lines@)[i as int] == lines@[i as int]@);
        }
        out.push(text::cat2("      ", lines[i].as_str()));
        i += 1;
        proof {
            assert(model::texts(out@) =~= before.push(want[i - 1]));
            assert(start + head + want.take(i as int) =~= before.push(want[i - 1]));
        }
    }
    proof {
        assert(want.take(want.len() as int) =~= want);
        assert(start + head + want =~= start + (head + want));
    }
}

fn push_directive(out: &mut Vec<String>, d: &McpDirective)
    ensures
        model::texts(final(out)@) == model::texts(old(out)@) + directive_lines(*d),
{
    let ghost start = model::texts(out@);
    out.push(text::cat2("- id: ", d.row_id.as_str()));
    out.push(text::cat2("  disabled: ", bool_word(d.disabled)));
    proof {
        assert(model::texts(out@) =~= start + directive_lines(*d));
    }
}

/// The body of the block; `None` where the block says nothing.
pub fn render_block(block: &McpBlock) -> (r: Option<String>)
    ensures
        if block.declares@.len() == 0 && block.directives@.len() == 0 {
            r is None
        } else {
            r is Some && (r->0)@ == model::join(block_lines(*block), "\n"@)
        },
{
    if block.declares.len() == 0 && block.directives.len() == 0 {
        return None;
    }
    let mut out: Vec<String> = Vec::new();
    if block.declares.len() > 0 {
        out.push("- insert:".to_owned());
    }
    let ghost head = model::texts(out@);
    proof {
        assert(head =~= if block.declares@.len() > 0 {
            seq!["- insert:"@]
        } else {
            seq![]
        });
        assert(block.declares@.take(0) =~= seq![]);
        assert(head =~= head + all_declare_lines(block.declares@.take(0)));
    }
    let mut i: usize = 0;
    while i < block.declares.len()
        invariant
            i <= block.declares.len(),
            model::texts(out@) == head + all_declare_lines(block.declares@.take(i as int)),
        decreases block.declares.len() - i,
    {
        proof {
            assert(block.declares@.take(i as int + 1).drop_last() =~= block.declares@.take(i as int));
        }
        let ghost before = all_declare_lines(block.declares@.take(i as int));
        push_declare(&mut out, &block.declares[i]);
        proof {
            assert(head + before + declare_lines(block.declares@[i as int]) =~= head + (before
                + declare_lines(block.declares@[i as int])));
        }
        i += 1;
    }
    let ghost declared = model::texts(out@);
    proof {
        assert(block.declares@.take(i as int) =~= block.declares@);
        assert(block.directives@.take(0) =~= seq![]);
        assert(declared =~= declared + all_directive_lines(block.directives@.take(0)));
    }
    let mut j: usize = 0;
    while j < block.directives.len()
        invariant
            j <= block.directives.len(),
            model::texts(out@) == declared + all_directive_lines(block.directives@.take(j as int)),
        decreases block.directives.len() - j,
    {
        proof {
            assert(block.directives@.take(j as int + 1).drop_last() =~= block.directives@.take(
                j as int,
            ));
        }
        let ghost before = all_directive_lines(block.directives@.take(j as int));
        push_directive(&mut out, &block.directives[j]);
        proof {
            assert(declared + before + directive_lines(block.directives@[j as int]) =~= declared + (
            before + directive_lines(block.directives@[j as int])));
        }
        j += 1;
    }
    proof {
        assert(block.directives@.take(j as int) =~= block.directives@);
    }
    Some(text::join(&out, "\n"))
}

} // verus!
