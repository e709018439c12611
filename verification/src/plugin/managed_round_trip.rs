//! Reading a managed block gives back the rows that were written.

use crate::model;
use crate::model::CharSet;
use crate::plugin::managed::{
    block_edited, block_read, block_text, body_text, first_invalid, managed_body, managed_family, parse_row,
    parse_rows, row_id_char, row_lines, rows_text, sorted_rows, valid_row_id,
    whole_block, without_comment, EntryText,
};
use crate::plugin::managed_laws::{
    file_eol, is_eol, law_block_holds_the_body, law_built_in_markers_are_proper,
    law_rows_are_ordered, lemma_eol,
};
use crate::text_lemmas::{
    lemma_lines_append, lemma_not_blank, lemma_one_line, lemma_replace_concat, lemma_replace_none,
    lemma_strip_prefix, lemma_trim_nothing,
};
use vstd::prelude::*;

verus! {

/// A text on one line.
pub open spec fn single_line(s: Seq<char>) -> bool {
    forall|i: int| 0 <= i < s.len() ==> #[trigger] s[i] != '\r' && s[i] != '\n'
}

/// A row that keeps to its two lines: a valid id, and a package name on one line.
pub open spec fn tidy(e: EntryText) -> bool {
    valid_row_id(e.id) && (e.package is Some ==> single_line(e.package->0))
}

/// The rows as they are read back: the package is only a comment.
pub open spec fn bare(rows: Seq<EntryText>) -> Seq<EntryText> {
    rows.map_values(|e: EntryText| EntryText { package: None, ..e })
}

#[verifier::opaque]
spec fn id_line(e: EntryText) -> Seq<char> {
    "- id: "@ + e.id + match e.package {
        Some(p) => "  # plugin: "@ + p,
        None => seq![],
    }
}

#[verifier::opaque]
spec fn state_line(e: EntryText) -> Seq<char> {
    "  disabled: "@ + (if e.disabled {
        "true"@
    } else {
        "false"@
    })
}

proof fn lemma_literals()
    ensures
        "- id: "@ =~= seq!['-', ' ', 'i', 'd', ':', ' '],
        "  # plugin: "@ =~= seq![' ', ' ', '#', ' ', 'p', 'l', 'u', 'g', 'i', 'n', ':', ' '],
        "  disabled: "@ =~= seq![' ', ' ', 'd', 'i', 's', 'a', 'b', 'l', 'e', 'd', ':', ' '],
        "true"@ =~= seq!['t', 'r', 'u', 'e'],
        "false"@ =~= seq!['f', 'a', 'l', 's', 'e'],
        " # "@ =~= seq![' ', '#', ' '],
        "\n"@ =~= seq!['\n'],
        "\r\n"@ =~= seq!['\r', '\n'],
{
    reveal_strlit("- id: ");
    reveal_strlit("  # plugin: ");
    reveal_strlit("  disabled: ");
    reveal_strlit("true");
    reveal_strlit("false");
    reveal_strlit(" # ");
    reveal_strlit("\n");
    reveal_strlit("\r\n");
}

proof fn lemma_lines_of_row(e: EntryText)
    requires
        tidy(e),
    ensures
        single_line(id_line(e)),
        single_line(state_line(e)),
        id_line(e).len() > 0,
        state_line(e).len() > 0,
        state_line(e).last() == 'e',
{
    reveal(id_line);
    reveal(state_line);
    lemma_literals();
    assert forall|i: int| 0 <= i < id_line(e).len() implies #[trigger] id_line(e)[i] != '\r'
        && id_line(e)[i] != '\n' by {
        let n = (6 + e.id.len()) as int;
        if 6 <= i < n {
            assert(id_line(e)[i] == e.id[i - 6]);
            assert(row_id_char(e.id[i - 6]));
        } else if i >= n + 12 {
            assert(id_line(e)[i] == e.package->0[i - n - 12]);
        }
    }
}

/// Reading a row's first line starts a row.
proof fn lemma_parse_id_line(rows: Seq<EntryText>, e: EntryText, raw: Seq<char>)
    requires
        tidy(e),
        model::drop_cr(raw) == id_line(e),
    ensures
        parse_row(rows, raw) == Ok::<Seq<EntryText>, Seq<char>>(
            rows.push(EntryText { id: e.id, disabled: false, package: None }),
        ),
{
    reveal(id_line);
    reveal(state_line);
    reveal(parse_row);
    lemma_literals();
    let line = id_line(e);
    assert(line[0] == '-');
    assert(!model::white(line[0]));
    lemma_not_blank(line);
    let note = match e.package {
        Some(p) => "  # plugin: "@ + p,
        None => Seq::<char>::empty(),
    };
    let rest = e.id + note;
    assert(line =~= "- id: "@ + rest);
    lemma_strip_prefix("- id: "@, rest);
    assert(row_id_char(e.id[0]) && row_id_char(e.id[e.id.len() - 1]));
    let mark = " # "@;
    match e.package {
        None => {
            assert(rest =~= e.id);
            assert forall|j: int| 0 <= j implies !#[trigger] model::matches_at(rest, mark, j) by {
                if model::matches_at(rest, mark, j) {
                    assert(rest.subrange(j, j + 3)[0] == rest[j]);
                    assert(row_id_char(e.id[j]));
                }
            }
            model::lemma_find_at_none(rest, mark, 0);
            lemma_trim_nothing(e.id, CharSet::White);
        },
        Some(p) => {
            let n = e.id.len() + 1int;
            assert(rest.subrange(n, n + 3) =~= mark);
            assert forall|j: int| 0 <= j < n implies !#[trigger] model::matches_at(rest, mark, j) by {
                if model::matches_at(rest, mark, j) {
                    let w = rest.subrange(j, j + 3);
                    assert(w[0] == rest[j] && w[1] == rest[j + 1]);
                    if j < e.id.len() {
                        assert(rest[j] == e.id[j]);
                        assert(row_id_char(e.id[j]));
                    }
                }
            }
            model::lemma_find_at_is(rest, mark, 0, n);
            let cut = without_comment(rest);
            assert(cut =~= e.id.push(' '));
            let k = CharSet::White;
            assert(cut[0] == e.id[0]);
            assert(model::first_not_in(cut, k, 0) == 0);
            assert(cut.skip(0) =~= cut);
            assert(cut[n - 1] == ' ' && cut[n - 2] == e.id[n - 2]);
            assert(model::back_over(cut, k, n) == model::back_over(cut, k, n - 1));
            assert(model::back_over(cut, k, n - 1) == n - 1);
            assert(cut.take(n - 1) =~= e.id);
        },
    }
    assert(model::trim(without_comment(rest)) == e.id);
}

/// Reading a row's second line sets its state.
proof fn lemma_parse_state_line(rows: Seq<EntryText>, e: EntryText, raw: Seq<char>)
    requires
        rows.len() > 0,
        model::drop_cr(raw) == state_line(e),
    ensures
        parse_row(rows, raw) == Ok::<Seq<EntryText>, Seq<char>>(
            rows.drop_last().push(EntryText { disabled: e.disabled, ..rows.last() }),
        ),
{
    reveal(id_line);
    reveal(state_line);
    reveal(parse_row);
    lemma_literals();
    let line = state_line(e);
    let value = if e.disabled {
        "true"@
    } else {
        "false"@
    };
    assert(line[2] == 'd');
    assert(!model::white(line[2]));
    lemma_not_blank(line);
    assert(model::strip_prefix(line, "- id: "@) is None) by {
        if model::starts_with(line, "- id: "@) {
            assert(line.subrange(0, 6)[0] == line[0]);
        }
    }
    lemma_strip_prefix("  disabled: "@, value);
    let mark = " # "@;
    assert forall|j: int| 0 <= j implies !#[trigger] model::matches_at(value, mark, j) by {
        if model::matches_at(value, mark, j) {
            assert(value.subrange(j, j + 3)[0] == value[j]);
        }
    }
    model::lemma_find_at_none(value, mark, 0);
    assert(value[0] == 't' || value[0] == 'f');
    assert(value.last() == 'e');
    lemma_trim_nothing(value, CharSet::White);
    assert("true"@.len() != "false"@.len());
}

proof fn lemma_one_line_feed(eol: Seq<char>)
    ensures
        model::replace_char("\n"@, '\n', eol) == eol,
{
    lemma_literals();
    reveal_with_fuel(model::replace_char, 2);
    let lf = "\n"@;
    assert(lf.drop_last() =~= seq![]);
    assert(lf.last() == '\n');
    assert(model::replace_char(lf, '\n', eol) =~= eol);
}

proof fn lemma_row_written(e: EntryText, eol: Seq<char>)
    requires
        tidy(e),
    ensures
        model::replace_char(row_lines(e, "\n"@), '\n', eol) == row_lines(e, eol),
        row_lines(e, eol) == id_line(e) + eol + state_line(e) + eol,
        row_lines(e, "\n"@) == id_line(e) + "\n"@ + state_line(e) + "\n"@,
{
    reveal(id_line);
    reveal(state_line);
    lemma_lines_of_row(e);
    lemma_one_line_feed(eol);
    let a = id_line(e);
    let b = state_line(e);
    let lf = "\n"@;
    assert(row_lines(e, eol) =~= a + eol + b + eol);
    assert(row_lines(e, lf) =~= a + lf + b + lf);
    lemma_replace_none(a, '\n', eol);
    lemma_replace_none(b, '\n', eol);
    lemma_replace_concat(a + lf + b, lf, '\n', eol);
    lemma_replace_concat(a + lf, b, '\n', eol);
    lemma_replace_concat(a, lf, '\n', eol);
}

/// Rows with line feeds become rows with the line endings of the file.
proof fn lemma_rows_written(rows: Seq<EntryText>, eol: Seq<char>)
    requires
        is_eol(eol),
        forall|i: int| 0 <= i < rows.len() ==> tidy(#[trigger] rows[i]),
    ensures
        model::replace_char(rows_text(rows, "\n"@), '\n', eol) == rows_text(rows, eol),
        rows_text(rows, eol).len() == 0 || rows_text(rows, eol).last() == '\n',
    decreases rows.len(),
{
    if rows.len() > 0 {
        lemma_rows_written(rows.drop_last(), eol);
        lemma_row_written(rows.last(), eol);
        lemma_replace_concat(
            rows_text(rows.drop_last(), "\n"@),
            row_lines(rows.last(), "\n"@),
            '\n',
            eol,
        );
    } else {
        assert(model::replace_char(rows_text(rows, "\n"@), '\n', eol) =~= seq![]);
    }
}

/// One line, with whatever line ending the file uses, adds one raw line to those before it.
pub proof fn lemma_add_line(x: Seq<char>, a: Seq<char>, ending: Seq<char>)
    requires
        x.len() == 0 || x.last() == '\n',
        single_line(a),
        a.len() > 0,
        is_eol(ending),
    ensures
        model::lines(x + a + ending) == model::lines(x).push(a),
        (x + a + ending).last() == '\n',
{
    let body = a + ending.drop_last();
    assert forall|i: int| 0 <= i < body.len() implies #[trigger] body[i] != '\n' by {
        if i < a.len() {
            assert(body[i] == a[i]);
        }
    }
    lemma_one_line(body);
    assert(body.push('\n') =~= a + ending);
    lemma_lines_append(x, a + ending);
    assert(x + a + ending =~= x + (a + ending));
    assert(a[a.len() - 1] != '\r');
    let raw = model::drop_cr(body);
    if ending.len() == 1 {
        assert(body =~= a);
    } else {
        assert(body =~= a.push('\r'));
        assert(body.drop_last() =~= a);
    }
    assert(model::lines(x) + seq![raw] =~= model::lines(x).push(raw));
}

proof fn lemma_raw(a: Seq<char>)
    requires
        single_line(a),
        a.len() > 0,
    ensures
        model::drop_cr(a) == a,
{
    assert(a[a.len() - 1] != '\r');
}

/// Reading a row adds it to the rows before it.
proof fn lemma_read_row(x: Seq<char>, e: EntryText, eol: Seq<char>, rows: Seq<EntryText>)
    requires
        tidy(e),
        x.len() == 0 || x.last() == '\n',
        is_eol(eol),
        parse_rows(model::lines(x)) == Ok::<Seq<EntryText>, Seq<char>>(rows),
    ensures
        parse_rows(model::lines(x + id_line(e) + eol + state_line(e) + eol)) == Ok::<
            Seq<EntryText>,
            Seq<char>,
        >(rows.push(EntryText { package: None, ..e })),
        (x + id_line(e) + eol + state_line(e) + eol).last() == '\n',
{
    lemma_literals();
    lemma_lines_of_row(e);
    let a = id_line(e);
    let b = state_line(e);
    lemma_raw(a);
    lemma_raw(b);
    lemma_add_line(x, a, eol);
    let y = x + a + eol;
    lemma_add_line(y, b, eol);
    let l0 = model::lines(x);
    let l1 = model::lines(y);
    let l2 = model::lines(y + b + eol);
    assert(l1.drop_last() =~= l0);
    assert(l2.drop_last() =~= l1);
    assert(parse_rows(l1) == parse_row(rows, l1.last()));
    lemma_parse_id_line(rows, e, l1.last());
    let started = rows.push(EntryText { id: e.id, disabled: false, package: None });
    assert(parse_rows(l2) == parse_row(started, l2.last()));
    lemma_parse_state_line(started, e, l2.last());
    assert(started.drop_last().push(EntryText { disabled: e.disabled, ..started.last() })
        =~= rows.push(EntryText { package: None, ..e }));
}

/// A line ending alone reads as no rows.
proof fn lemma_read_nothing(eol: Seq<char>)
    requires
        is_eol(eol),
    ensures
        parse_rows(model::lines(eol)) == Ok::<Seq<EntryText>, Seq<char>>(seq![]),
{
    let body = eol.drop_last();
    lemma_one_line(body);
    assert(body.push('\n') =~= eol);
    assert(model::drop_cr(body) =~= seq![]);
    let ls = model::lines(eol);
    assert(ls.drop_last() =~= seq![]);
    lemma_trim_nothing(seq![], CharSet::White);
    reveal(parse_row);
    assert(ls.last() =~= seq![]);
    assert(parse_rows(ls.drop_last()) == Ok::<Seq<EntryText>, Seq<char>>(seq![]));
    assert(model::drop_cr(ls.last()) =~= seq![]);
    assert(model::blank(seq![]));
    assert(parse_row(seq![], ls.last()) == Ok::<Seq<EntryText>, Seq<char>>(seq![]));
}

proof fn lemma_last_row(rows: Seq<EntryText>, eol: Seq<char>, x: Seq<char>)
    requires
        rows.len() > 0,
        tidy(rows.last()),
        x == eol + rows_text(rows.drop_last(), eol),
    ensures
        eol + rows_text(rows, eol) == x + id_line(rows.last()) + eol + state_line(rows.last()) + eol,
{
    let e = rows.last();
    lemma_row_written(e, eol);
    let a = id_line(e);
    let b = state_line(e);
    assert(eol + (rows_text(rows.drop_last(), eol) + (a + eol + b + eol)) =~= x + a + eol + b
        + eol);
}

proof fn lemma_read_rows(rows: Seq<EntryText>, eol: Seq<char>)
    requires
        is_eol(eol),
        forall|i: int| 0 <= i < rows.len() ==> tidy(#[trigger] rows[i]),
    ensures
        parse_rows(model::lines(eol + rows_text(rows, eol))) == Ok::<
            Seq<EntryText>,
            Seq<char>,
        >(bare(rows)),
    decreases rows.len(),
{
    if rows.len() == 0 {
        assert(eol + rows_text(rows, eol) =~= eol);
        assert(bare(rows) =~= seq![]);
        lemma_read_nothing(eol);
    } else {
        let rest = rows.drop_last();
        lemma_read_rows(rest, eol);
        lemma_rows_written(rest, eol);
        let x = eol + rows_text(rest, eol);
        assert(x.last() == '\n');
        let e = rows.last();
        lemma_read_row(x, e, eol, bare(rest));
        lemma_last_row(rows, eol, x);
        assert(bare(rows) =~= bare(rest).push(EntryText { package: None, ..e }));
    }
}

proof fn lemma_trim_one_ending(t: Seq<char>, eol: Seq<char>)
    requires
        is_eol(eol),
        t.len() > 0,
        t.last() == 'e',
    ensures
        model::trim_end(t + eol, CharSet::LineEnd) == t,
        !model::blank(t + eol),
{
    let full = t + eol;
    let k = CharSet::LineEnd;
    let n = t.len() as int;
    assert(full[n - 1] == 'e');
    if eol.len() == 2 {
        assert(full[n + 1] == '\n' && full[n] == '\r');
        assert(model::back_over(full, k, n + 2) == model::back_over(full, k, n + 1));
    } else {
        assert(full[n] == '\n');
    }
    assert(model::back_over(full, k, n + 1) == model::back_over(full, k, n));
    assert(model::back_over(full, k, n) == n);
    assert(full.take(n) =~= t);
    assert(!model::white(full[n - 1]));
    lemma_not_blank(full);
}

/// The text of rows as it is written between the markers.
proof fn lemma_body_of_rows(rows: Seq<EntryText>, eol: Seq<char>)
    requires
        is_eol(eol),
        rows.len() > 0,
        forall|i: int| 0 <= i < rows.len() ==> tidy(#[trigger] rows[i]),
    ensures
        body_text(rows_text(rows, "\n"@), eol) == rows_text(rows.drop_last(), eol) + id_line(
            rows.last(),
        ) + eol + state_line(rows.last()),
        body_text(rows_text(rows, "\n"@), eol).last() == 'e',
        body_text(rows_text(rows, "\n"@), eol) + eol == rows_text(rows, eol),
        !model::blank(rows_text(rows, "\n"@)),
{
    let rest = rows.drop_last();
    let e = rows.last();
    let a = id_line(e);
    let b = state_line(e);
    lemma_lines_of_row(e);
    lemma_row_written(e, eol);
    lemma_rows_written(rest, eol);
    lemma_one_line_feed(eol);
    lemma_literals();
    let lf = "\n"@;
    let before = rows_text(rest, lf);
    let trimmed = before + a + lf + b;
    assert(rows_text(rows, lf) =~= trimmed + lf);
    assert(trimmed.last() == 'e');
    lemma_trim_one_ending(trimmed, lf);
    lemma_replace_none(a, '\n', eol);
    lemma_replace_none(b, '\n', eol);
    lemma_replace_concat(before + a + lf, b, '\n', eol);
    lemma_replace_concat(before + a, lf, '\n', eol);
    lemma_replace_concat(before, a, '\n', eol);
    assert(rows_text(rest, eol) + a + eol + b + eol =~= rows_text(rows, eol));
}

/// The text of a written block reads as its rows.
proof fn lemma_read_block(rows: Seq<EntryText>, eol: Seq<char>)
    requires
        is_eol(eol),
        rows.len() > 0,
        forall|i: int| 0 <= i < rows.len() ==> tidy(#[trigger] rows[i]),
    ensures
        parse_rows(model::lines(eol + body_text(rows_text(rows, "\n"@), eol) + eol)) == Ok::<
            Seq<EntryText>,
            Seq<char>,
        >(bare(rows)),
{
    lemma_body_of_rows(rows, eol);
    lemma_read_rows(rows, eol);
    assert(eol + body_text(rows_text(rows, "\n"@), eol) + eol =~= eol + rows_text(rows, eol));
}

pub proof fn lemma_none_invalid(entries: Seq<EntryText>)
    requires
        first_invalid(entries) is None,
    ensures
        forall|i: int| 0 <= i < entries.len() ==> valid_row_id(#[trigger] entries[i].id),
    decreases entries.len(),
{
    if entries.len() > 0 {
        lemma_none_invalid(entries.skip(1));
        assert forall|i: int| 0 <= i < entries.len() implies valid_row_id(
            #[trigger] entries[i].id,
        ) by {
            if i > 0 {
                assert(entries[i] == entries.skip(1)[i - 1]);
            }
        }
    }
}

proof fn lemma_tidy_rows(entries: Seq<EntryText>)
    requires
        entries.len() > 0,
        first_invalid(entries) is None,
        forall|i: int|
            0 <= i < entries.len() ==> (#[trigger] entries[i].package is Some ==> single_line(
                entries[i].package->0,
            )),
    ensures
        sorted_rows(entries).len() > 0,
        forall|i: int|
            0 <= i < sorted_rows(entries).len() ==> tidy(#[trigger] sorted_rows(entries)[i]),
{
    lemma_none_invalid(entries);
    law_rows_are_ordered(entries);
    let rows = sorted_rows(entries);
    assert forall|i: int| 0 <= i < rows.len() implies tidy(#[trigger] rows[i]) by {
        assert(entries.contains(rows[i]));
        let k = choose|k: int| 0 <= k < entries.len() && entries[k] == rows[i];
        assert(valid_row_id(entries[k].id));
    }
    assert(rows.len() > 0) by {
        assert(entries[0] == entries[0]);
    }
}

/// Rows that are written into a file are the block that is rendered with the file's line endings:
/// no line of it ends otherwise.
pub proof fn law_rows_take_the_endings_of_the_file(entries: Seq<EntryText>, eol: Seq<char>)
    requires
        is_eol(eol),
        entries.len() > 0,
        first_invalid(entries) is None,
        forall|i: int|
            0 <= i < entries.len() ==> (#[trigger] entries[i].package is Some ==> single_line(
                entries[i].package->0,
            )),
    ensures
        block_text(
            managed_family().begin(),
            managed_family().end(),
            Some(managed_body(entries, "\n"@)),
            eol,
        ) == whole_block(entries, eol),
{
    lemma_tidy_rows(entries);
    let rows = sorted_rows(entries);
    lemma_body_of_rows(rows, eol);
    let t = body_text(rows_text(rows, "\n"@), eol);
    let full = rows_text(rows, eol);
    assert(full == t + eol);
    assert(full.subrange(full.len() - eol.len(), full.len() as int) =~= eol);
    assert(model::ends_with(full, eol));
    assert(full.take(full.len() - eol.len()) =~= t);
    assert(!model::ends_with(t, eol)) by {
        if model::ends_with(t, eol) {
            let tail = t.subrange(t.len() - eol.len(), t.len() as int);
            assert(tail.last() == t.last());
        }
    }
    assert(model::trim_end_text(t, eol) == t);
    assert(model::trim_end_text(full, eol) == t);
}

/// Reading the managed block after writing it gives back the written rows in the order of their
/// ids, each id once; package names, which stand in comments only, are not read.
pub proof fn law_rows_are_read_back(
    path: Seq<char>,
    existing: Option<Seq<char>>,
    entries: Seq<EntryText>,
)
    requires
        entries.len() > 0,
        forall|i: int|
            0 <= i < entries.len() ==> (#[trigger] entries[i].package is Some ==> single_line(
                entries[i].package->0,
            )),
        block_edited(path, existing, entries) is Ok,
    ensures
        block_read(path, block_edited(path, existing, entries)->Ok_0.content) == Ok::<
            Option<Seq<EntryText>>,
            Seq<char>,
        >(Some(bare(sorted_rows(entries)))),
{
    let eol = file_eol(existing);
    match existing {
        None => lemma_eol(seq![]),
        Some(c) => lemma_eol(c),
    }
    lemma_tidy_rows(entries);
    law_built_in_markers_are_proper();
    let rows = sorted_rows(entries);
    lemma_body_of_rows(rows, eol);
    lemma_read_block(rows, eol);
    let f = managed_family();
    law_block_holds_the_body(path, existing, f.begin(), f.end(), managed_body(entries, "\n"@));
}

/// The body of a block with rows is not blank.
pub proof fn lemma_rows_not_blank(entries: Seq<EntryText>, eol: Seq<char>)
    requires
        entries.len() > 0,
    ensures
        !model::blank(managed_body(entries, eol)),
{
    law_rows_are_ordered(entries);
    let rows = sorted_rows(entries);
    assert(rows.len() > 0) by {
        assert(entries[0] == entries[0]);
    }
    let rest = rows_text(rows.drop_last(), eol);
    reveal_strlit("- id: ");
    assert(rows_text(rows, eol)[rest.len() as int] == '-');
    lemma_not_blank(rows_text(rows, eol));
}

} // verus!
