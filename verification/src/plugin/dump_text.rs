//! Reading the composed configuration that dsh prints.
//!
//! A line `# == owner, patched by a, b` opens a section, a line `- id: x` a row. Of the lines below
//! a row its name, its `disabled` and the lines of its `config` are read.

use crate::mcp::{McpRow, McpTransport, REQUIRED_PACKAGE};
use crate::model;
use crate::model::CharSet;
use crate::plugin::dump::{DisabledValue, DumpRow, DumpSection};
use crate::text;
use crate::yaml_text;
use crate::yaml_text::{depth, field_in, meant, value_in};
use vstd::prelude::*;

verus! {

/// What a row's `disabled` holds.
pub ghost enum DisabledText {
    Bool(bool),
    Expression(Seq<char>),
}

/// What was read of a row.
pub ghost struct RowText {
    pub id: Seq<char>,
    pub name: Option<Seq<char>>,
    pub disabled: Option<DisabledText>,
    pub config: Seq<Seq<char>>,
}

/// What was read of a section.
pub ghost struct SectionText {
    pub owner: Seq<char>,
    pub patched_by: Seq<Seq<char>>,
    pub rows: Seq<RowText>,
}

/// What the lines so far amount to; the last row's configuration may be open.
pub ghost struct DumpText {
    pub sections: Seq<SectionText>,
    pub in_config: bool,
}

/// A row with the lines of its configuration.
pub struct RawRow {
    pub id: String,
    pub name: Option<String>,
    pub disabled: Option<DisabledValue>,
    pub config: Vec<String>,
}

/// A section with such rows.
pub struct RawSection {
    pub owner: String,
    pub patched_by: Vec<String>,
    pub rows: Vec<RawRow>,
}

pub open spec fn disabled_text(d: Option<DisabledValue>) -> Option<DisabledText> {
    match d {
        None => None,
        Some(DisabledValue::Bool(b)) => Some(DisabledText::Bool(b)),
        Some(DisabledValue::Expression(e)) => Some(DisabledText::Expression(e@)),
    }
}

impl View for RawRow {
    type V = RowText;

    open spec fn view(&self) -> RowText {
        RowText {
            id: self.id@,
            name: model::text_of(self.name),
            disabled: disabled_text(self.disabled),
            config: model::texts(self.config@),
        }
    }
}

pub open spec fn row_texts(rows: Seq<RawRow>) -> Seq<RowText> {
    rows.map_values(|r: RawRow| r@)
}

impl View for RawSection {
    type V = SectionText;

    open spec fn view(&self) -> SectionText {
        SectionText {
            owner: self.owner@,
            patched_by: model::texts(self.patched_by@),
            rows: row_texts(self.rows@),
        }
    }
}

pub open spec fn section_texts(sections: Seq<RawSection>) -> Seq<SectionText> {
    sections.map_values(|s: RawSection| s@)
}

/// The trimmed pieces between commas.
pub open spec fn names_in(list: Seq<char>) -> Seq<Seq<char>> {
    model::split(list, CharSet::Only(',')).map_values(|n: Seq<char>| model::trim(n))
}

fn names(list: &str) -> (r: Vec<String>)
    ensures
        model::texts(r@) == names_in(list@),
{
    let parts = text::split(list, CharSet::Only(','));
    let ghost want = names_in(list@);
    let mut r: Vec<String> = Vec::new();
    let mut i: usize = 0;
    proof {
        assert(model::texts(parts@).len() == parts@.len());
        assert(model::texts(r@) =~= want.take(0));
    }
    while i < parts.len()
        invariant
            want == model::texts(parts@).map_values(|n: Seq<char>| model::trim(n)),
            want.len() == parts@.len(),
            i <= parts.len(),
            model::texts(r@) == want.take(i as int),
        decreases parts.len() - i,
    {
        let ghost before = model::texts(r@);
        proof {
            assert(model::texts(parts@)[i as int] == parts@[i as int]@);
        }
        r.push(text::trim(parts[i].as_str()));
        i += 1;
        proof {
            assert(model::texts(r@) =~= before.push(want[i - 1]));
            assert(want.take(i as int) =~= before.push(want[i - 1]));
        }
    }
    proof {
        assert(want.take(want.len() as int) =~= want);
    }
    r
}

/// The section that a header's text opens.
pub open spec fn opened_by(rest: Seq<char>) -> SectionText {
    let head = model::trim(rest);
    match model::find(head, ", patched by "@) {
        Some(i) => SectionText {
            owner: head.take(i),
            patched_by: names_in(head.skip(i + 13)),
            rows: seq![],
        },
        None => SectionText { owner: head, patched_by: seq![], rows: seq![] },
    }
}

fn open_section(rest: &str) -> (r: RawSection)
    ensures
        r@ == opened_by(rest@),
{
    let head = text::trim(rest);
    proof {
        reveal_strlit(", patched by ");
    }
    let rows: Vec<RawRow> = Vec::new();
    proof {
        assert(row_texts(rows@) =~= seq![]);
    }
    match text::find(head.as_str(), ", patched by ") {
        Some(i) => {
            let v = text::chars_of(head.as_str());
            proof {
                assert(", patched by "@.len() == 13);
                assert(i + 13 <= v@.len() && v@.len() == v.len());
            }
            let owner = text::string_of(&v, 0, i);
            let list = text::string_of(&v, i + 13, v.len());
            proof {
                assert(owner@ =~= head@.take(i as int));
                assert(list@ =~= head@.skip(i + 13));
            }
            RawSection { owner, patched_by: names(list.as_str()), rows }
        },
        None => {
            let patched_by: Vec<String> = Vec::new();
            proof {
                assert(model::texts(patched_by@) =~= seq![]);
            }
            RawSection { owner: head, patched_by, rows }
        },
    }
}

/// What a value of `disabled` means.
pub open spec fn disabled_by(value: Seq<char>) -> DisabledText {
    let s = meant(value);
    if s == "true"@ {
        DisabledText::Bool(true)
    } else if s == "false"@ {
        DisabledText::Bool(false)
    } else {
        DisabledText::Expression(s)
    }
}

pub(crate) fn disabled_value(value: &str) -> (r: DisabledValue)
    ensures
        disabled_text(Some(r)) == Some(disabled_by(value@)),
{
    let s = yaml_text::scalar(value);
    if text::same(s.as_str(), "true") {
        DisabledValue::Bool(true)
    } else if text::same(s.as_str(), "false") {
        DisabledValue::Bool(false)
    } else {
        DisabledValue::Expression(s)
    }
}

/// A row after one more of its lines.
pub open spec fn row_with_line(row: RowText, line: Seq<char>, in_config: bool) -> RowText {
    if depth(line) == 2 {
        match field_in(line, "name"@) {
            Some(v) => RowText { name: Some(meant(v)), ..row },
            None => match field_in(line, "disabled"@) {
                Some(v) => RowText { disabled: Some(disabled_by(v)), ..row },
                None => row,
            },
        }
    } else if in_config {
        RowText { config: row.config.push(line), ..row }
    } else {
        row
    }
}

/// What one more line adds.
pub open spec fn dump_step(now: DumpText, line: Seq<char>) -> DumpText {
    match model::strip_prefix(line, "# == "@) {
        Some(rest) => DumpText { sections: now.sections.push(opened_by(rest)), in_config: false },
        None => if now.sections.len() == 0 {
            now
        } else {
            let section = now.sections.last();
            match model::strip_prefix(line, "- id:"@) {
                Some(id) => DumpText {
                    sections: now.sections.drop_last().push(
                        SectionText {
                            rows: section.rows.push(
                                RowText {
                                    id: meant(id),
                                    name: None,
                                    disabled: None,
                                    config: seq![],
                                },
                            ),
                            ..section
                        },
                    ),
                    in_config: false,
                },
                None => if section.rows.len() == 0 {
                    now
                } else {
                    DumpText {
                        sections: now.sections.drop_last().push(
                            SectionText {
                                rows: section.rows.drop_last().push(
                                    row_with_line(section.rows.last(), line, now.in_config),
                                ),
                                ..section
                            },
                        ),
                        in_config: if depth(line) == 2 {
                            field_in(line, "config"@) is Some
                        } else {
                            now.in_config
                        },
                    }
                },
            }
        },
    }
}

/// What lines amount to.
pub open spec fn dump_of(lines: Seq<Seq<char>>) -> DumpText
    decreases lines.len(),
{
    if lines.len() == 0 {
        DumpText { sections: seq![], in_config: false }
    } else {
        dump_step(dump_of(lines.drop_last()), lines.last())
    }
}

fn extend_row(row: RawRow, line: &str, in_config: bool) -> (r: RawRow)
    ensures
        r@ == row_with_line(row@, line@, in_config),
{
    let mut row = row;
    if yaml_text::indent(line) == 2 {
        if let Some(v) = yaml_text::field(line, "name") {
            row.name = Some(yaml_text::scalar(v.as_str()));
        } else if let Some(v) = yaml_text::field(line, "disabled") {
            row.disabled = Some(disabled_value(v.as_str()));
        }
    } else if in_config {
        let ghost before = model::texts(row.config@);
        row.config.push(line.to_owned());
        proof {
            assert(model::texts(row.config@) =~= before.push(line@));
        }
    }
    row
}

fn take_line(sections: Vec<RawSection>, in_config: bool, line: &str) -> (r: (Vec<RawSection>, bool))
    ensures
        (DumpText { sections: section_texts(r.0@), in_config: r.1 }) == dump_step(
            DumpText { sections: section_texts(sections@), in_config },
            line@,
        ),
{
    let mut sections = sections;
    let ghost all = section_texts(sections@);
    if let Some(rest) = text::strip_prefix(line, "# == ") {
        let section = open_section(rest.as_str());
        sections.push(section);
        proof {
            assert(section_texts(sections@) =~= all.push(section@));
        }
        return (sections, false);
    }
    let mut section = match sections.pop() {
        Some(s) => s,
        None => {
            proof {
                assert(section_texts(sections@) =~= all);
            }
            return (sections, in_config);
        },
    };
    let ghost last = section@;
    proof {
        assert(all.last() == last);
        assert(section_texts(sections@) =~= all.drop_last());
    }
    let mut open = in_config;
    if let Some(id) = text::strip_prefix(line, "- id:") {
        let config: Vec<String> = Vec::new();
        let row = RawRow { id: yaml_text::scalar(id.as_str()), name: None, disabled: None, config };
        proof {
            assert(model::texts(config@) =~= seq![]);
        }
        section.rows.push(row);
        open = false;
        proof {
            assert(row_texts(section.rows@) =~= last.rows.push(row@));
        }
    } else {
        match section.rows.pop() {
            Some(row) => {
                let ghost was = row@;
                proof {
                    assert(last.rows.last() == was);
                    assert(row_texts(section.rows@) =~= last.rows.drop_last());
                }
                let now = extend_row(row, line, in_config);
                section.rows.push(now);
                if yaml_text::indent(line) == 2 {
                    open = yaml_text::field(line, "config").is_some();
                }
                proof {
                    assert(row_texts(section.rows@) =~= last.rows.drop_last().push(now@));
                }
            },
            None => {
                proof {
                    assert(row_texts(section.rows@) =~= last.rows);
                    assert(section@ == last);
                    assert(all =~= all.drop_last().push(last));
                }
            },
        }
    }
    let ghost done = section@;
    sections.push(section);
    proof {
        assert(section_texts(sections@) =~= all.drop_last().push(done));
    }
    (sections, open)
}

/// The sections of a printed configuration, with all that is read of them.
pub fn read_sections(output: &str) -> (r: Vec<RawSection>)
    ensures
        section_texts(r@) == dump_of(model::lines(output@)).sections,
{
    let lines = text::lines(output);
    let ghost all = model::lines(output@);
    let mut sections: Vec<RawSection> = Vec::new();
    let mut in_config = false;
    let mut i: usize = 0;
    proof {
        assert(all.take(0) =~= seq![]);
        assert(section_texts(sections@) =~= seq![]);
        assert(model::texts(lines@).len() == lines@.len());
    }
    while i < lines.len()
        invariant
            model::texts(lines@) == all,
            lines@.len() == all.len(),
            i <= lines.len(),
            (DumpText { sections: section_texts(sections@), in_config }) == dump_of(
                all.take(i as int),
            ),
        decreases lines.len() - i,
    {
        proof {
            assert(model::texts(lines@)[i as int] == lines@[i as int]@);
            assert(all.take(i as int + 1).drop_last() =~= all.take(i as int));
            assert(all.take(i as int + 1).last() == lines@[i as int]@);
        }
        let (next, open) = take_line(sections, in_config, lines[i].as_str());
        sections = next;
        in_config = open;
        i += 1;
    }
    proof {
        assert(all.take(all.len() as int) =~= all);
    }
    sections
}

/// The row is what was read, without its configuration.
pub open spec fn shows_row(row: DumpRow, read: RowText) -> bool {
    &&& row.id@ == read.id
    &&& model::text_of(row.name) == read.name
    &&& disabled_text(row.disabled) == read.disabled
}

/// The section is what was read, without the configurations of its rows.
pub open spec fn shows_section(section: DumpSection, read: SectionText) -> bool {
    &&& section.owner@ == read.owner
    &&& model::texts(section.patched_by@) == read.patched_by
    &&& section.rows@.len() == read.rows.len()
    &&& forall|i: int|
        0 <= i < read.rows.len() ==> shows_row(#[trigger] section.rows@[i], read.rows[i])
}

fn plain_section(raw: RawSection) -> (r: DumpSection)
    ensures
        shows_section(r, raw@),
{
    let ghost read = raw@;
    let mut rest = raw.rows;
    let mut rows: Vec<DumpRow> = Vec::new();
    let ghost all = row_texts(rest@);
    // Taken from the end, so that each row can be moved out; turned round again below.
    while rest.len() > 0
        invariant
            all == read.rows,
            rest@.len() + rows@.len() == all.len(),
            row_texts(rest@) == all.take(rest@.len() as int),
            forall|i: int|
                0 <= i < rows@.len() ==> shows_row(#[trigger] rows@[i], all[all.len() - 1 - i]),
        decreases rest.len(),
    {
        let ghost before = rest@;
        match rest.pop() {
            Some(row) => {
                proof {
                    assert(row_texts(before)[before.len() - 1] == row@);
                    assert(row_texts(rest@) =~= all.take(rest@.len() as int)) by {
                        assert forall|k: int| 0 <= k < rest@.len() implies row_texts(rest@)[k]
                            == all.take(rest@.len() as int)[k] by {
                            assert(row_texts(before)[k] == before[k]@);
                        }
                    }
                }
                rows.push(DumpRow { id: row.id, name: row.name, disabled: row.disabled });
            },
            None => {},
        }
    }
    let mut turned: Vec<DumpRow> = Vec::new();
    while rows.len() > 0
        invariant
            all == read.rows,
            turned@.len() + rows@.len() == all.len(),
            forall|i: int|
                0 <= i < rows@.len() ==> shows_row(#[trigger] rows@[i], all[all.len() - 1 - i]),
            forall|i: int| 0 <= i < turned@.len() ==> shows_row(#[trigger] turned@[i], all[i]),
        decreases rows.len(),
    {
        let ghost before = rows@;
        match rows.pop() {
            Some(row) => {
                proof {
                    assert(shows_row(before[before.len() - 1], all[all.len() - before.len()]));
                }
                turned.push(row);
            },
            None => {},
        }
    }
    DumpSection { owner: raw.owner, patched_by: raw.patched_by, rows: turned }
}

/// The sections of a printed configuration; text without any section is refused.
pub fn parse_dump(output: &str) -> (r: Result<Vec<DumpSection>, String>)
    ensures
        ({
            let read = dump_of(model::lines(output@)).sections;
            if read.len() == 0 && !model::blank(output@) {
                r is Err && r->Err_0@ == "dsh --dump-config 输出中没有段头"@
            } else {
                &&& r is Ok
                &&& r->Ok_0@.len() == read.len()
                &&& forall|i: int|
                    0 <= i < read.len() ==> shows_section(#[trigger] r->Ok_0@[i], read[i])
            }
        }),
{
    let mut raw = read_sections(output);
    let ghost all = section_texts(raw@);
    if raw.len() == 0 && !text::blank(output) {
        return Err("dsh --dump-config 输出中没有段头".to_owned());
    }
    let mut back: Vec<DumpSection> = Vec::new();
    while raw.len() > 0
        invariant
            raw@.len() + back@.len() == all.len(),
            section_texts(raw@) == all.take(raw@.len() as int),
            forall|i: int|
                0 <= i < back@.len() ==> shows_section(#[trigger] back@[i], all[all.len() - 1 - i]),
        decreases raw.len(),
    {
        let ghost before = raw@;
        match raw.pop() {
            Some(section) => {
                proof {
                    assert(section_texts(before)[before.len() - 1] == section@);
                    assert(section_texts(raw@) =~= all.take(raw@.len() as int)) by {
                        assert forall|k: int| 0 <= k < raw@.len() implies section_texts(raw@)[k]
                            == all.take(raw@.len() as int)[k] by {
                            assert(section_texts(before)[k] == before[k]@);
                        }
                    }
                }
                back.push(plain_section(section));
            },
            None => {},
        }
    }
    let mut out: Vec<DumpSection> = Vec::new();
    while back.len() > 0
        invariant
            out@.len() + back@.len() == all.len(),
            forall|i: int|
                0 <= i < back@.len() ==> shows_section(#[trigger] back@[i], all[all.len() - 1 - i]),
            forall|i: int| 0 <= i < out@.len() ==> shows_section(#[trigger] out@[i], all[i]),
        decreases back.len(),
    {
        let ghost before = back@;
        match back.pop() {
            Some(section) => {
                proof {
                    assert(shows_section(before[before.len() - 1], all[all.len() - before.len()]));
                }
                out.push(section);
            },
            None => {},
        }
    }
    Ok(out)
}

// ---- Tool servers ----

/// A tool server among what was read: the layer that it stands in, and its row.
pub ghost struct ServerText {
    pub owner: Seq<char>,
    pub row: RowText,
}

/// The tool servers among rows of one layer.
pub open spec fn servers_among(owner: Seq<char>, rows: Seq<RowText>) -> Seq<ServerText>
    decreases rows.len(),
{
    if rows.len() == 0 {
        seq![]
    } else if rows.last().name == Some(REQUIRED_PACKAGE@) {
        servers_among(owner, rows.drop_last()).push(ServerText { owner, row: rows.last() })
    } else {
        servers_among(owner, rows.drop_last())
    }
}

/// The tool servers among sections.
pub open spec fn servers_in(sections: Seq<SectionText>) -> Seq<ServerText>
    decreases sections.len(),
{
    if sections.len() == 0 {
        seq![]
    } else {
        servers_in(sections.drop_last()) + servers_among(
            sections.last().owner,
            sections.last().rows,
        )
    }
}

pub open spec fn transport_named(s: Option<Seq<char>>) -> Option<McpTransport> {
    match s {
        Some(t) => McpTransport::named(t),
        None => None,
    }
}

/// The row shows a tool server as its configuration has it; its summary is the command or else the
/// address.
pub open spec fn shows_server(row: McpRow, read: ServerText) -> bool {
    let config = model::join(read.row.config, "\n"@);
    &&& row.row_id@ == read.row.id
    &&& row.section_owner@ == read.owner
    &&& model::text_of(row.server_name) == value_in(config, "serverName"@)
    &&& row.transport == transport_named(value_in(config, "transport"@))
    &&& row.disabled == match read.row.disabled {
        None => Some(false),
        Some(DisabledText::Bool(b)) => Some(b),
        Some(DisabledText::Expression(_)) => None,
    }
    &&& row.dangerous == (value_in(config, "failOnStartupError"@) == Some("true"@))
    &&& row.summary@ == match value_in(config, "command"@) {
        Some(c) => c,
        None => match value_in(config, "url"@) {
            Some(u) => u,
            None => seq![],
        },
    }
}

fn server_row(owner: &str, row: &RawRow) -> (r: McpRow)
    ensures
        shows_server(r, (ServerText { owner: owner@, row: row@ })),
{
    let joined = text::join(&row.config, "\n");
    let config = joined.as_str();
    let transport = match yaml_text::config_scalar(config, "transport") {
        Some(t) => McpTransport::parse(t.as_str()),
        None => None,
    };
    let dangerous = match yaml_text::config_scalar(config, "failOnStartupError") {
        Some(t) => text::same(t.as_str(), "true"),
        None => false,
    };
    let summary = match yaml_text::config_scalar(config, "command") {
        Some(c) => c,
        None => match yaml_text::config_scalar(config, "url") {
            Some(u) => u,
            None => {
                let none = String::new();
                proof {
                    assert(none@ =~= seq![]);
                }
                none
            },
        },
    };
    let disabled = match &row.disabled {
        None => Some(false),
        Some(DisabledValue::Bool(b)) => Some(*b),
        Some(DisabledValue::Expression(_)) => None,
    };
    McpRow {
        row_id: row.id.clone(),
        section_owner: owner.to_owned(),
        server_name: yaml_text::config_scalar(config, "serverName"),
        transport,
        disabled,
        dangerous,
        summary,
    }
}

fn is_server(row: &RawRow) -> (b: bool)
    ensures
        b == (row@.name == Some(REQUIRED_PACKAGE@)),
{
    match &row.name {
        Some(name) => text::same(name.as_str(), REQUIRED_PACKAGE),
        None => false,
    }
}

/// The tool servers of a printed configuration, in the order in which they stand there.
pub fn mcp_rows(output: &str) -> (r: Vec<McpRow>)
    ensures
        ({
            let servers = servers_in(dump_of(model::lines(output@)).sections);
            &&& r@.len() == servers.len()
            &&& forall|i: int| 0 <= i < servers.len() ==> shows_server(#[trigger] r@[i], servers[i])
        }),
{
    let sections = read_sections(output);
    let ghost all = section_texts(sections@);
    let mut out: Vec<McpRow> = Vec::new();
    let mut i: usize = 0;
    proof {
        assert(all.take(0) =~= seq![]);
    }
    while i < sections.len()
        invariant
            all == section_texts(sections@),
            i <= sections.len(),
            out@.len() == servers_in(all.take(i as int)).len(),
            forall|k: int|
                0 <= k < out@.len() ==> shows_server(
                    #[trigger] out@[k],
                    servers_in(all.take(i as int))[k],
                ),
        decreases sections.len() - i,
    {
        let section = &sections[i];
        let ghost rows = row_texts(section.rows@);
        let ghost so_far = servers_in(all.take(i as int));
        let mut j: usize = 0;
        proof {
            assert(all.take(i as int + 1).drop_last() =~= all.take(i as int));
            assert(all.take(i as int + 1).last() == section@);
            assert(rows.take(0) =~= seq![]);
            assert(so_far + servers_among(section.owner@, rows.take(0)) =~= so_far);
        }
        while j < section.rows.len()
            invariant
                rows == row_texts(section.rows@),
                j <= section.rows.len(),
                out@.len() == (so_far + servers_among(section.owner@, rows.take(j as int))).len(),
                forall|k: int|
                    0 <= k < out@.len() ==> shows_server(
                        #[trigger] out@[k],
                        (so_far + servers_among(section.owner@, rows.take(j as int)))[k],
                    ),
            decreases section.rows.len() - j,
        {
            let row = &section.rows[j];
            let ghost before = so_far + servers_among(section.owner@, rows.take(j as int));
            let ghost had = out@;
            proof {
                assert(rows.take(j as int + 1).drop_last() =~= rows.take(j as int));
                assert(rows.take(j as int + 1).last() == row@);
            }
            if is_server(row) {
                out.push(server_row(section.owner.as_str(), row));
                proof {
                    let now = so_far + servers_among(section.owner@, rows.take(j as int + 1));
                    assert(now =~= before.push(ServerText { owner: section.owner@, row: row@ }));
                    assert forall|k: int| 0 <= k < out@.len() implies shows_server(
                        #[trigger] out@[k],
                        now[k],
                    ) by {
                        if k < had.len() {
                            assert(shows_server(had[k], before[k]));
                        }
                    }
                }
            }
            j += 1;
        }
        proof {
            assert(rows.take(rows.len() as int) =~= rows);
        }
        i += 1;
    }
    proof {
        assert(all.take(all.len() as int) =~= all);
    }
    out
}

} // verus!
