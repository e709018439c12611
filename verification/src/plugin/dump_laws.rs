//! What each line of the configuration that the service prints adds to what is read of it.

use crate::mcp_text_laws::{lemma_deep, lemma_depth, lemma_not_start, lemma_plain};
use crate::model;
use crate::model::CharSet;
use crate::plugin::dump::{DisabledValue, DumpSection};
use crate::plugin::dump_text::{
    disabled_by, disabled_text, dump_of, dump_step, opened_by, parse_dump, read_sections,
    row_with_line, section_texts, shows_row, shows_section, RawSection, DisabledText, RowText,
    SectionText,
};
use crate::plugin::managed::row_id_char;
use crate::plugin::managed_round_trip::{lemma_add_line, single_line};
use crate::text_lemmas::{lemma_strip_prefix, lemma_trim_nothing};
use crate::yaml_text::{depth, field_in, meant};
use vstd::prelude::*;

verus! {

/// A text that ends with whole lines.
pub open spec fn whole(text: Seq<char>) -> bool {
    text.len() == 0 || text.last() == '\n'
}

/// A word of letters, digits and `._-@/`.
pub open spec fn word(s: Seq<char>) -> bool {
    s.len() > 0 && forall|i: int| 0 <= i < s.len() ==> row_id_char(#[trigger] s[i])
}

proof fn lemma_word_single(s: Seq<char>)
    requires
        word(s),
    ensures
        single_line(s),
        !model::white(s[0]),
        !model::white(s.last()),
{
    assert forall|i: int| 0 <= i < s.len() implies #[trigger] s[i] != '\r' && s[i] != '\n' by {
        assert(row_id_char(s[i]));
    }
    assert(row_id_char(s[0]) && row_id_char(s[s.len() - 1]));
}

/// One more line.
proof fn lemma_one_more(text: Seq<char>, line: Seq<char>)
    requires
        whole(text),
        single_line(line),
        line.len() > 0,
    ensures
        dump_of(model::lines(text + line + "\n"@)) == dump_step(dump_of(model::lines(text)), line),
{
    reveal_strlit("\n");
    assert("\n"@ =~= seq!['\n']);
    lemma_add_line(text, line, "\n"@);
    assert(model::lines(text).push(line).drop_last() =~= model::lines(text));
}

/// Two sections say the same.
pub open spec fn same_section(a: DumpSection, b: DumpSection) -> bool {
    &&& a.owner@ == b.owner@
    &&& model::texts(a.patched_by@) == model::texts(b.patched_by@)
    &&& a.rows@.len() == b.rows@.len()
    &&& forall|k: int| 0 <= k < a.rows@.len() ==> same_row(#[trigger] a.rows@[k], b.rows@[k])
}

pub open spec fn same_row(a: crate::plugin::dump::DumpRow, b: crate::plugin::dump::DumpRow) -> bool {
    &&& a.id@ == b.id@
    &&& model::text_of(a.name) == model::text_of(b.name)
    &&& disabled_text(a.disabled) == disabled_text(b.disabled)
}

proof fn lemma_same(a: DumpSection, b: DumpSection, read: SectionText)
    requires
        shows_section(a, read),
        shows_section(b, read),
    ensures
        same_section(a, b),
{
    assert forall|k: int| 0 <= k < a.rows@.len() implies same_row(#[trigger] a.rows@[k], b.rows@[k]) by {
        assert(shows_row(a.rows@[k], read.rows[k]));
        assert(shows_row(b.rows@[k], read.rows[k]));
    }
}

/// A header opens a section of the layer that it names; the sections before it stay as they are.
pub proof fn law_headers_open_sections(
    text: &str,
    longer: &str,
    a: Vec<DumpSection>,
    b: Vec<DumpSection>,
    owner: Seq<char>,
    i: int,
)
    requires
        whole(text@),
        word(owner),
        longer@ == text@ + ("# == "@ + owner) + "\n"@,
        call_ensures(parse_dump, (text,), Ok::<Vec<DumpSection>, String>(a)),
        call_ensures(parse_dump, (longer,), Ok::<Vec<DumpSection>, String>(b)),
    ensures
        b@.len() == a@.len() + 1,
        b@.last().owner@ == owner,
        b@.last().patched_by@.len() == 0,
        b@.last().rows@.len() == 0,
        0 <= i < a@.len() ==> same_section(a@[i], b@[i]),
{
    let line = "# == "@ + owner;
    reveal_strlit("# == ");
    lemma_word_single(owner);
    assert forall|j: int| 0 <= j < line.len() implies #[trigger] line[j] != '\r' && line[j] != '\n' by {
        if j >= 5 {
            assert(line[j] == owner[j - 5]);
        }
    }
    lemma_one_more(text@, line);
    lemma_strip_prefix("# == "@, owner);
    lemma_trim_nothing(owner, CharSet::White);
    lemma_no_patch(owner);
    let was = dump_of(model::lines(text@)).sections;
    let now = dump_of(model::lines(longer@)).sections;
    assert(now == was.push(opened_by(owner)));
    assert(shows_section(b@[a@.len() as int], now[a@.len() as int]));
    assert(model::texts(b@.last().patched_by@).len() == b@.last().patched_by@.len());
    if 0 <= i < a@.len() {
        assert(shows_section(a@[i], was[i]));
        assert(shows_section(b@[i], now[i]));
        lemma_same(a@[i], b@[i], was[i]);
    }
}

proof fn lemma_no_patch(owner: Seq<char>)
    requires
        word(owner),
    ensures
        model::find(owner, ", patched by "@) is None,
{
    let p = ", patched by "@;
    reveal_strlit(", patched by ");
    assert forall|j: int| 0 <= j implies !#[trigger] model::matches_at(owner, p, j) by {
        if model::matches_at(owner, p, j) {
            assert(owner.subrange(j, j + p.len())[0] == owner[j]);
            assert(row_id_char(owner[j]));
        }
    }
    model::lemma_find_at_none(owner, p, 0);
}

/// A header that names a layer which patched the section says so.
pub proof fn law_headers_name_who_patched(
    text: &str,
    longer: &str,
    a: Vec<DumpSection>,
    b: Vec<DumpSection>,
    owner: Seq<char>,
    by: Seq<char>,
)
    requires
        whole(text@),
        word(owner),
        word(by),
        longer@ == text@ + ("# == "@ + (owner + ", patched by "@ + by)) + "\n"@,
        call_ensures(parse_dump, (text,), Ok::<Vec<DumpSection>, String>(a)),
        call_ensures(parse_dump, (longer,), Ok::<Vec<DumpSection>, String>(b)),
    ensures
        b@.len() == a@.len() + 1,
        b@.last().owner@ == owner,
        b@.last().patched_by@.len() == 1,
        b@.last().patched_by@[0]@ == by,
{
    let p = ", patched by "@;
    let head = owner + p + by;
    let line = "# == "@ + head;
    reveal_strlit("# == ");
    reveal_strlit(", patched by ");
    lemma_word_single(owner);
    lemma_word_single(by);
    assert(p.len() == 13);
    assert forall|j: int| 0 <= j < line.len() implies #[trigger] line[j] != '\r' && line[j] != '\n' by {
        if 5 <= j < 5 + owner.len() {
            assert(line[j] == owner[j - 5]);
        } else if j >= 18 + owner.len() {
            assert(line[j] == by[j - 18 - owner.len()]);
        }
    }
    lemma_one_more(text@, line);
    lemma_strip_prefix("# == "@, head);
    assert(head[0] == owner[0] && head.last() == by.last());
    lemma_trim_nothing(head, CharSet::White);
    let n = owner.len() as int;
    assert(head.subrange(n, n + 13) =~= p);
    assert forall|j: int| 0 <= j < n implies !#[trigger] model::matches_at(head, p, j) by {
        if model::matches_at(head, p, j) {
            assert(head.subrange(j, j + 13)[0] == head[j]);
            assert(row_id_char(owner[j]));
        }
    }
    model::lemma_find_at_is(head, p, 0, n);
    assert(head.take(n) =~= owner);
    assert(head.skip(n + 13) =~= by);
    assert forall|j: int| 0 <= j < by.len() implies #[trigger] by[j] != ',' by {
        assert(row_id_char(by[j]));
    }
    crate::text_lemmas::lemma_split_none(by, ',');
    lemma_trim_nothing(by, CharSet::White);
    let names = crate::plugin::dump_text::names_in(by);
    assert(names =~= seq![by]);
    let was = dump_of(model::lines(text@)).sections;
    let now = dump_of(model::lines(longer@)).sections;
    assert(now == was.push(opened_by(head)));
    assert(shows_section(b@[a@.len() as int], now[a@.len() as int]));
    let t = model::texts(b@.last().patched_by@);
    assert(t.len() == b@.last().patched_by@.len());
    assert(t[0] == b@.last().patched_by@[0]@);
}

/// The last section with one more row, and the sections before it as they were.
proof fn lemma_last_section(
    text: &str,
    longer: &str,
    a: Vec<DumpSection>,
    b: Vec<DumpSection>,
    i: int,
    was: Seq<SectionText>,
    now: Seq<SectionText>,
)
    requires
        was == dump_of(model::lines(text@)).sections,
        now == dump_of(model::lines(longer@)).sections,
        was.len() > 0,
        now.len() == was.len(),
        now.drop_last() == was.drop_last(),
        call_ensures(parse_dump, (text,), Ok::<Vec<DumpSection>, String>(a)),
        call_ensures(parse_dump, (longer,), Ok::<Vec<DumpSection>, String>(b)),
    ensures
        a@.len() == was.len(),
        b@.len() == was.len(),
        0 <= i < a@.len() - 1 ==> same_section(a@[i], b@[i]),
        shows_section(a@.last(), was.last()),
        shows_section(b@.last(), now.last()),
{
    let n = was.len() - 1;
    assert(shows_section(a@[n], was[n]));
    assert(shows_section(b@[n], now[n]));
    if 0 <= i < n {
        assert(shows_section(a@[i], was[i]));
        assert(shows_section(b@[i], now[i]));
        assert(was.drop_last()[i] == was[i] && now.drop_last()[i] == now[i]);
        lemma_same(a@[i], b@[i], was[i]);
    }
}

/// A line with an id opens a row in the last section; nothing is known of its state yet.
pub proof fn law_ids_open_rows(
    text: &str,
    longer: &str,
    a: Vec<DumpSection>,
    b: Vec<DumpSection>,
    id: Seq<char>,
    i: int,
    k: int,
)
    requires
        whole(text@),
        word(id),
        a@.len() > 0,
        longer@ == text@ + ("- id: "@ + id) + "\n"@,
        call_ensures(parse_dump, (text,), Ok::<Vec<DumpSection>, String>(a)),
        call_ensures(parse_dump, (longer,), Ok::<Vec<DumpSection>, String>(b)),
    ensures
        b@.len() == a@.len(),
        0 <= i < a@.len() - 1 ==> same_section(a@[i], b@[i]),
        b@.last().owner@ == a@.last().owner@,
        b@.last().rows@.len() == a@.last().rows@.len() + 1,
        b@.last().rows@.last().id@ == id,
        b@.last().rows@.last().disabled is None,
        0 <= k < a@.last().rows@.len() ==> same_row(a@.last().rows@[k], b@.last().rows@[k]),
{
    let line = "- id: "@ + id;
    reveal_strlit("- id: ");
    reveal_strlit("- id:");
    reveal_strlit("# == ");
    lemma_word_single(id);
    assert forall|j: int| 0 <= j < line.len() implies #[trigger] line[j] != '\r' && line[j] != '\n' by {
        if j >= 6 {
            assert(line[j] == id[j - 6]);
        }
    }
    lemma_one_more(text@, line);
    lemma_not_start(line, "# == "@, 0);
    let value = seq![' '] + id;
    assert(line =~= "- id:"@ + value);
    lemma_strip_prefix("- id:"@, value);
    lemma_plain(id);
    let was = dump_of(model::lines(text@)).sections;
    let now = dump_of(model::lines(longer@)).sections;
    let row = RowText { id, name: None, disabled: None, config: seq![] };
    assert(was.len() == a@.len());
    assert(now == was.drop_last().push(
        SectionText { rows: was.last().rows.push(row), ..was.last() },
    ));
    assert(now.drop_last() =~= was.drop_last());
    lemma_last_section(text, longer, a, b, i, was, now);
    let n = a@.last().rows@.len() as int;
    assert(shows_row(b@.last().rows@[n], now.last().rows[n]));
    if 0 <= k < n {
        assert(shows_row(a@.last().rows@[k], was.last().rows[k]));
        assert(shows_row(b@.last().rows@[k], now.last().rows[k]));
    }
}

/// A line on whether a row is off sets the state of the last row, and of no other.
pub proof fn law_states_are_those_of_the_last_row(
    text: &str,
    longer: &str,
    a: Vec<DumpSection>,
    b: Vec<DumpSection>,
    off: bool,
    i: int,
    k: int,
)
    requires
        whole(text@),
        a@.len() > 0,
        a@.last().rows@.len() > 0,
        longer@ == text@ + (if off {
            "  disabled: true"@
        } else {
            "  disabled: false"@
        }) + "\n"@,
        call_ensures(parse_dump, (text,), Ok::<Vec<DumpSection>, String>(a)),
        call_ensures(parse_dump, (longer,), Ok::<Vec<DumpSection>, String>(b)),
    ensures
        b@.len() == a@.len(),
        0 <= i < a@.len() - 1 ==> same_section(a@[i], b@[i]),
        b@.last().rows@.len() == a@.last().rows@.len(),
        b@.last().rows@.last().disabled == Some(DisabledValue::Bool(off)),
        b@.last().rows@.last().id@ == a@.last().rows@.last().id@,
        0 <= k < a@.last().rows@.len() - 1 ==> same_row(a@.last().rows@[k], b@.last().rows@[k]),
{
    let line = if off {
        "  disabled: true"@
    } else {
        "  disabled: false"@
    };
    lemma_state_line(off);
    lemma_one_more(text@, line);
    let was = dump_of(model::lines(text@)).sections;
    let now = dump_of(model::lines(longer@)).sections;
    assert(was.len() == a@.len());
    let m = was.len() - 1;
    assert(shows_section(a@[m], was[m]));
    let rows = was.last().rows;
    assert(rows.len() > 0);
    let in_config = dump_of(model::lines(text@)).in_config;
    let row = row_with_line(rows.last(), line, in_config);
    assert(now == was.drop_last().push(
        SectionText { rows: rows.drop_last().push(row), ..was.last() },
    ));
    assert(now.drop_last() =~= was.drop_last());
    lemma_last_section(text, longer, a, b, i, was, now);
    let n = rows.len() - 1;
    assert(shows_row(a@.last().rows@[n], was.last().rows[n]));
    assert(shows_row(b@.last().rows@[n], now.last().rows[n]));
    if 0 <= k < n {
        assert(shows_row(a@.last().rows@[k], was.last().rows[k]));
        assert(shows_row(b@.last().rows@[k], now.last().rows[k]));
        assert(now.last().rows[k] == was.last().rows[k]);
    }
}

proof fn lemma_state_line(off: bool)
    ensures
        ({
            let line = if off {
                "  disabled: true"@
            } else {
                "  disabled: false"@
            };
            &&& single_line(line)
            &&& line.len() > 0
            &&& depth(line) == 2
            &&& field_in(line, "name"@) is None
            &&& field_in(line, "disabled"@) is Some
            &&& disabled_by(field_in(line, "disabled"@)->0) == DisabledText::Bool(off)
            &&& model::strip_prefix(line, "# == "@) is None
            &&& model::strip_prefix(line, "- id:"@) is None
        }),
{
    let line = if off {
        "  disabled: true"@
    } else {
        "  disabled: false"@
    };
    let w = if off {
        "true"@
    } else {
        "false"@
    };
    reveal_strlit("  disabled: true");
    reveal_strlit("  disabled: false");
    reveal_strlit("true");
    reveal_strlit("false");
    reveal_strlit("disabled");
    reveal_strlit("name");
    reveal_strlit(":");
    reveal_strlit("# == ");
    reveal_strlit("- id:");
    lemma_depth(line, 2);
    lemma_not_start(line, "# == "@, 0);
    lemma_not_start(line, "- id:"@, 0);
    let bare = line.skip(2);
    assert(model::trim_start(line, CharSet::Only(' ')) == bare);
    assert(bare[0] == 'd');
    lemma_not_start(bare, "name"@ + ":"@, 0);
    let value = seq![' '] + w;
    assert(bare =~= ("disabled"@ + ":"@) + value);
    lemma_strip_prefix("disabled"@ + ":"@, value);
    assert forall|i: int| 0 <= i < w.len() implies row_id_char(#[trigger] w[i]) by {}
    lemma_plain(w);
    assert("true"@.len() != "false"@.len());
}

/// A line with a name names the last row, and no other.
pub proof fn law_names_are_those_of_the_last_row(
    text: &str,
    longer: &str,
    a: Vec<DumpSection>,
    b: Vec<DumpSection>,
    name: Seq<char>,
    i: int,
    k: int,
)
    requires
        whole(text@),
        word(name),
        a@.len() > 0,
        a@.last().rows@.len() > 0,
        longer@ == text@ + ("  name: "@ + name) + "\n"@,
        call_ensures(parse_dump, (text,), Ok::<Vec<DumpSection>, String>(a)),
        call_ensures(parse_dump, (longer,), Ok::<Vec<DumpSection>, String>(b)),
    ensures
        b@.len() == a@.len(),
        0 <= i < a@.len() - 1 ==> same_section(a@[i], b@[i]),
        b@.last().rows@.len() == a@.last().rows@.len(),
        model::text_of(b@.last().rows@.last().name) == Some(name),
        b@.last().rows@.last().id@ == a@.last().rows@.last().id@,
        disabled_text(b@.last().rows@.last().disabled) == disabled_text(
            a@.last().rows@.last().disabled,
        ),
        0 <= k < a@.last().rows@.len() - 1 ==> same_row(a@.last().rows@[k], b@.last().rows@[k]),
{
    let line = "  name: "@ + name;
    lemma_name_line(name);
    lemma_one_more(text@, line);
    let was = dump_of(model::lines(text@)).sections;
    let now = dump_of(model::lines(longer@)).sections;
    assert(was.len() == a@.len());
    let m = was.len() - 1;
    assert(shows_section(a@[m], was[m]));
    let rows = was.last().rows;
    assert(rows.len() > 0);
    let in_config = dump_of(model::lines(text@)).in_config;
    let row = row_with_line(rows.last(), line, in_config);
    assert(row == RowText { name: Some(name), ..rows.last() });
    assert(now == was.drop_last().push(
        SectionText { rows: rows.drop_last().push(row), ..was.last() },
    ));
    assert(now.drop_last() =~= was.drop_last());
    lemma_last_section(text, longer, a, b, i, was, now);
    let n = rows.len() - 1;
    assert(shows_row(a@.last().rows@[n], was.last().rows[n]));
    assert(shows_row(b@.last().rows@[n], now.last().rows[n]));
    if 0 <= k < n {
        assert(shows_row(a@.last().rows@[k], was.last().rows[k]));
        assert(shows_row(b@.last().rows@[k], now.last().rows[k]));
        assert(now.last().rows[k] == was.last().rows[k]);
    }
}

proof fn lemma_name_line(name: Seq<char>)
    requires
        word(name),
    ensures
        ({
            let line = "  name: "@ + name;
            &&& single_line(line)
            &&& line.len() > 0
            &&& depth(line) == 2
            &&& field_in(line, "name"@) is Some
            &&& meant(field_in(line, "name"@)->0) == name
            &&& model::strip_prefix(line, "# == "@) is None
            &&& model::strip_prefix(line, "- id:"@) is None
        }),
{
    let line = "  name: "@ + name;
    reveal_strlit("  name: ");
    reveal_strlit("name");
    reveal_strlit(":");
    reveal_strlit("# == ");
    reveal_strlit("- id:");
    lemma_word_single(name);
    assert forall|j: int| 0 <= j < line.len() implies #[trigger] line[j] != '\r' && line[j] != '\n' by {
        if j >= 8 {
            assert(line[j] == name[j - 8]);
        }
    }
    lemma_depth(line, 2);
    lemma_not_start(line, "# == "@, 0);
    lemma_not_start(line, "- id:"@, 0);
    let bare = line.skip(2);
    assert(model::trim_start(line, CharSet::Only(' ')) == bare);
    let value = seq![' '] + name;
    assert(bare =~= ("name"@ + ":"@) + value);
    lemma_strip_prefix("name"@ + ":"@, value);
    lemma_plain(name);
}

/// The lines of a configuration are those that follow its heading and are indented by more than it:
/// each adds itself to the last row, as it stands.
pub proof fn law_configurations_are_read_line_by_line(
    text: &str,
    longer: &str,
    a: Vec<RawSection>,
    b: Vec<RawSection>,
    line: Seq<char>,
)
    requires
        whole(text@),
        single_line(line),
        line.len() > 4,
        line[0] == ' ' && line[1] == ' ' && line[2] == ' ' && line[3] == ' ',
        text@.len() > 0,
        model::lines(text@).len() > 0,
        model::lines(text@).last() == "  config:"@,
        longer@ == text@ + line + "\n"@,
        call_ensures(read_sections, (text,), a),
        call_ensures(read_sections, (longer,), b),
        a@.len() > 0,
        a@.last().rows@.len() > 0,
    ensures
        b@.len() == a@.len(),
        b@.last().rows@.len() == a@.last().rows@.len(),
        model::texts(b@.last().rows@.last().config@) == model::texts(
            a@.last().rows@.last().config@,
        ).push(line),
        b@.last().rows@.last().id@ == a@.last().rows@.last().id@,
{
    lemma_one_more(text@, line);
    let lines = model::lines(text@);
    let before = dump_of(lines.drop_last());
    let now = dump_of(lines);
    lemma_config_heading();
    assert(now == dump_step(before, "  config:"@));
    let was = now.sections;
    let next = dump_of(model::lines(longer@)).sections;
    let read = section_texts(a@);
    let then = section_texts(b@);
    assert(read == was && then == next);
    assert(read.len() == a@.len() && then.len() == b@.len());
    assert(read.last() == a@.last()@);
    assert(read.last().rows.len() == a@.last().rows@.len());
    assert(read.last().rows.last() == a@.last().rows@.last()@);
    assert(now.in_config) by {
        assert(before.sections.len() > 0);
        assert(before.sections.last().rows.len() > 0);
    }
    reveal_strlit("# == ");
    reveal_strlit("- id:");
    lemma_not_start(line, "# == "@, 0);
    lemma_not_start(line, "- id:"@, 0);
    lemma_deep(line, 4);
    let rows = was.last().rows;
    let row = row_with_line(rows.last(), line, true);
    assert(row == RowText { config: rows.last().config.push(line), ..rows.last() });
    assert(next == was.drop_last().push(
        SectionText { rows: rows.drop_last().push(row), ..was.last() },
    ));
    assert(then.last() == b@.last()@);
    assert(then.last().rows.len() == b@.last().rows@.len());
    assert(then.last().rows.last() == b@.last().rows@.last()@);
}

proof fn lemma_config_heading()
    ensures
        ({
            let line = "  config:"@;
            &&& depth(line) == 2
            &&& field_in(line, "name"@) is None
            &&& field_in(line, "disabled"@) is None
            &&& field_in(line, "config"@) is Some
            &&& model::strip_prefix(line, "# == "@) is None
            &&& model::strip_prefix(line, "- id:"@) is None
        }),
{
    let line = "  config:"@;
    reveal_strlit("  config:");
    reveal_strlit("config");
    reveal_strlit("name");
    reveal_strlit("disabled");
    reveal_strlit(":");
    reveal_strlit("# == ");
    reveal_strlit("- id:");
    lemma_depth(line, 2);
    lemma_not_start(line, "# == "@, 0);
    lemma_not_start(line, "- id:"@, 0);
    let bare = line.skip(2);
    assert(model::trim_start(line, CharSet::Only(' ')) == bare);
    assert(bare[0] == 'c');
    lemma_not_start(bare, "name"@ + ":"@, 0);
    lemma_not_start(bare, "disabled"@ + ":"@, 0);
    let none = Seq::<char>::empty();
    assert(bare =~= ("config"@ + ":"@) + none);
    lemma_strip_prefix("config"@ + ":"@, none);
}

} // verus!
