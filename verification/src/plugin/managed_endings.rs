//! Writing a block keeps the line endings of the file, so that a second write has nothing to do.

use crate::model;
use crate::model::CharSet;
use crate::plugin::managed::{
    block_edited, block_text, body_text, edited, empty_array, managed_body, managed_family, place,
    row_id_char, row_lines, rows_text, sorted_rows, unchanged, valid_row_id, EntryText, Place,
};
use crate::plugin::managed_laws::{
    clean_marker, cut_at, file_eol, frame, law_second_write_changes_nothing,
    law_built_in_markers_are_proper, law_rows_are_ordered, law_written_block_is_found,
    lemma_empty_array_parts, lemma_place_block, lemma_replace_same, marker_pair,
};
use crate::plugin::managed_round_trip::{lemma_none_invalid, lemma_rows_not_blank};
use vstd::prelude::*;

verus! {

/// No carriage return stands before a line feed.
spec fn unpaired(s: Seq<char>) -> bool {
    forall|i: int| 0 <= i < s.len() - 1 ==> #[trigger] s[i] == '\r' ==> s[i + 1] != '\n'
}

proof fn lemma_pair()
    ensures
        "\n"@ =~= seq!['\n'],
        "\r\n"@ =~= seq!['\r', '\n'],
{
    reveal_strlit("\n");
    reveal_strlit("\r\n");
}

proof fn lemma_unpaired(s: Seq<char>)
    ensures
        unpaired(s) <==> !model::contains(s, "\r\n"@),
{
    lemma_pair();
    let p = "\r\n"@;
    model::lemma_find_at(s, p, 0);
    if unpaired(s) {
        assert forall|j: int| 0 <= j implies !#[trigger] model::matches_at(s, p, j) by {
            if model::matches_at(s, p, j) {
                let w = s.subrange(j, j + 2);
                assert(w[0] == s[j] && w[1] == s[j + 1]);
            }
        }
    } else {
        let i = choose|i: int| 0 <= i < s.len() - 1 && #[trigger] s[i] == '\r' && s[i + 1] == '\n';
        assert(s.subrange(i, i + 2) =~= p);
        assert(model::matches_at(s, p, i));
    }
}

proof fn lemma_unpaired_join(a: Seq<char>, b: Seq<char>)
    requires
        unpaired(a),
        unpaired(b),
        a.len() == 0 || b.len() == 0 || a.last() != '\r' || b[0] != '\n',
    ensures
        unpaired(a + b),
{
    let s = a + b;
    assert forall|i: int| 0 <= i < s.len() - 1 && #[trigger] s[i] == '\r' implies s[i + 1]
        != '\n' by {
        if i < a.len() - 1 {
            assert(a[i] == s[i] && a[i + 1] == s[i + 1]);
        } else if i >= a.len() {
            assert(b[i - a.len()] == s[i] && b[i + 1 - a.len()] == s[i + 1]);
        }
    }
}

proof fn lemma_unpaired_part(s: Seq<char>, a: int, b: int)
    requires
        unpaired(s),
        0 <= a <= b <= s.len(),
    ensures
        unpaired(s.subrange(a, b)),
{
    let t = s.subrange(a, b);
    assert forall|i: int| 0 <= i < t.len() - 1 && #[trigger] t[i] == '\r' implies t[i + 1]
        != '\n' by {
        assert(s[a + i] == t[i] && s[a + i + 1] == t[i + 1]);
    }
}

/// The parts around a placeholder, and what they make up where they meet.
proof fn lemma_unpaired_placeholder(s: Seq<char>)
    requires
        unpaired(s),
        empty_array(s) is Some,
    ensures
        unpaired((empty_array(s)->0).0),
        unpaired((empty_array(s)->0).1),
        unpaired((empty_array(s)->0).0 + (empty_array(s)->0).1),
{
    lemma_empty_array_parts(s, 0);
    let (a, b) = empty_array(s)->0;
    let (i, j) = choose|i: int, j: int| cut_at(s, a, b, i, j);
    lemma_unpaired_part(s, 0, i);
    lemma_unpaired_part(s, j, s.len() as int);
    assert(s.subrange(0, i) =~= a);
    assert(s.subrange(j, s.len() as int) =~= b);
    if a.len() > 0 {
        assert(a.last() == s[i - 1]);
    }
    lemma_unpaired_join(a, b);
}

/// The file has lines that end in CR LF.
pub open spec fn paired_file(existing: Option<Seq<char>>) -> bool {
    existing is Some && model::contains(existing->0, "\r\n"@)
}

/// A block is appended to the file, which ends in a carriage return.
pub open spec fn ends_open(existing: Option<Seq<char>>, begin: Seq<char>, end: Seq<char>) -> bool {
    &&& existing is Some
    &&& place(existing->0, begin, end) is Absent
    &&& empty_array(existing->0) is None
    &&& (existing->0).len() > 0
    &&& (existing->0).last() == '\r'
}

/// A write that brings no CR LF into a file without: neither does the body hold one, nor does the
/// end of the file make one up with the line feed that follows it.
pub open spec fn keeps_endings(
    existing: Option<Seq<char>>,
    begin: Seq<char>,
    end: Seq<char>,
    body: Seq<char>,
) -> bool {
    paired_file(existing) || (!model::contains(body, "\r\n"@) && !ends_open(existing, begin, end))
}

/// What surrounds a written block in a file without CR LF.
proof fn lemma_unpaired_frame(existing: Option<Seq<char>>, begin: Seq<char>, end: Seq<char>)
    requires
        marker_pair(begin, end),
        existing is Some ==> unpaired(existing->0) && !(place(existing->0, begin, end) is Broken),
        !ends_open(existing, begin, end),
    ensures
        unpaired(frame(existing, begin, end).0),
        unpaired(frame(existing, begin, end).1),
{
    lemma_pair();
    lemma_unpaired(seq![]);
    match existing {
        None => {},
        Some(content) => {
            lemma_unpaired(content);
            let lf = "\n"@;
            match place(content, begin, end) {
                Place::Block { before, block, after } => {
                    lemma_place_block(content, begin, end);
                    let n = content.len() as int;
                    lemma_unpaired_part(content, 0, before.len() as int);
                    lemma_unpaired_part(content, n - after.len(), n);
                    assert(content.subrange(0, before.len() as int) =~= before);
                    assert(content.subrange(n - after.len(), n) =~= after);
                    if empty_array(before) is Some {
                        lemma_unpaired_placeholder(before);
                    }
                },
                Place::Broken(m) => {},
                Place::Absent => match empty_array(content) {
                    Some((head, tail)) => {
                        lemma_unpaired_placeholder(content);
                        let k = CharSet::LineEnd;
                        model::lemma_first_not_in(tail, k, 0);
                        let from = model::first_not_in(tail, k, 0);
                        let n = tail.len() as int;
                        lemma_unpaired_part(tail, from, n);
                        assert(tail.subrange(from, n) =~= model::trim_start(tail, k));
                        lemma_unpaired_join(lf, model::trim_start(tail, k));
                    },
                    None => {
                        if content.len() > 0 {
                            lemma_unpaired_join(content, lf);
                            lemma_unpaired_join(content + lf, lf);
                        }
                    },
                },
            }
        },
    }
}

proof fn lemma_unpaired_marker(m: Seq<char>)
    requires
        clean_marker(m),
    ensures
        unpaired(m),
        m[0] == '#',
        m.last() != '\r',
{
    assert(m[m.len() - 1] != '\r');
}

/// A block that is written with line feeds.
proof fn lemma_unpaired_block(begin: Seq<char>, end: Seq<char>, body: Seq<char>)
    requires
        marker_pair(begin, end),
        unpaired(body),
        !model::blank(body),
    ensures
        ({
            let t = block_text(begin, end, Some(body), "\n"@);
            unpaired(t) && t.len() > 0 && t[0] == '#' && t.last() != '\r'
        }),
{
    lemma_pair();
    lemma_unpaired_marker(begin);
    lemma_unpaired_marker(end);
    let k = CharSet::LineEnd;
    let lf = "\n"@;
    let n = body.len() as int;
    model::lemma_back_over(body, k, n);
    let to = model::back_over(body, k, n);
    let t = model::trim_end(body, k);
    lemma_unpaired_part(body, 0, to);
    assert(body.subrange(0, to) =~= t);
    if t.len() > 0 {
        assert(t.last() == body[to - 1]);
    }
    lemma_replace_same(t, '\n');
    assert(body_text(body, lf) == t);
    lemma_unpaired_join(begin, lf);
    lemma_unpaired_join(begin + lf, t);
    assert((begin + lf + t).last() != '\r');
    lemma_unpaired_join(begin + lf + t, lf);
    lemma_unpaired_join(begin + lf + t + lf, end);
    let all = begin + lf + t + lf + end;
    assert(all[0] == begin[0]);
    assert(all.last() == end.last());
}

/// Writing a block leaves the file with the line endings that it had.
pub proof fn law_written_file_keeps_its_endings(
    path: Seq<char>,
    existing: Option<Seq<char>>,
    begin: Seq<char>,
    end: Seq<char>,
    body: Seq<char>,
)
    requires
        marker_pair(begin, end),
        !model::blank(body),
        edited(path, existing, begin, end, Some(body)) is Ok,
        edited(path, existing, begin, end, Some(body))->Ok_0.written ==> keeps_endings(
            existing,
            begin,
            end,
            body,
        ),
    ensures
        file_eol(edited(path, existing, begin, end, Some(body))->Ok_0.content) == file_eol(existing),
{
    let edit = edited(path, existing, begin, end, Some(body))->Ok_0;
    lemma_pair();
    lemma_unpaired(seq![]);
    if edit.written {
        law_written_block_is_found(path, existing, begin, end, body);
        let (pre, post) = frame(existing, begin, end);
        let eol = file_eol(existing);
        let t = block_text(begin, end, Some(body), eol);
        let now = edit.content->0;
        lemma_unpaired(now);
        if paired_file(existing) {
            let i = (pre.len() + begin.len()) as int;
            assert(now[i] == eol[0] && now[i + 1] == eol[1]);
            assert(!unpaired(now));
        } else {
            if existing is Some {
                lemma_unpaired(existing->0);
            }
            lemma_unpaired(body);
            lemma_unpaired_frame(existing, begin, end);
            lemma_unpaired_block(begin, end, body);
            lemma_unpaired_join(pre, t);
            lemma_unpaired_join(pre + t, post);
            assert(unpaired(now));
        }
    }
}

/// Writing the same body a second time changes nothing. In a file without CR LF this leaves out a
/// body that holds one, and a file that ends in a carriage return where the block is appended.
pub proof fn law_writing_settles(
    path: Seq<char>,
    existing: Option<Seq<char>>,
    begin: Seq<char>,
    end: Seq<char>,
    body: Seq<char>,
)
    requires
        marker_pair(begin, end),
        !model::blank(body),
        edited(path, existing, begin, end, Some(body)) is Ok,
        edited(path, existing, begin, end, Some(body))->Ok_0.written ==> keeps_endings(
            existing,
            begin,
            end,
            body,
        ),
    ensures
        ({
            let after = edited(path, existing, begin, end, Some(body))->Ok_0.content;
            edited(path, after, begin, end, Some(body)) == unchanged(after)
        }),
{
    law_written_file_keeps_its_endings(path, existing, begin, end, body);
    law_second_write_changes_nothing(path, existing, begin, end, body);
}

/// Package names that bring no CR LF into the rows: they hold none, and no carriage return ends one.
pub open spec fn plain_names(entries: Seq<EntryText>) -> bool {
    forall|i: int|
        0 <= i < entries.len() ==> (#[trigger] entries[i].package matches Some(p)
            ==> !model::contains(p, "\r\n"@) && (p.len() > 0 ==> p.last() != '\r'))
}

proof fn lemma_unpaired_row(e: EntryText)
    requires
        valid_row_id(e.id),
        e.package is Some ==> unpaired(e.package->0) && ((e.package->0).len() > 0 ==> (
        e.package->0).last() != '\r'),
    ensures
        unpaired(row_lines(e, "\n"@)),
        row_lines(e, "\n"@).last() == '\n',
        row_lines(e, "\n"@)[0] == '-',
{
    lemma_pair();
    reveal_strlit("- id: ");
    reveal_strlit("  # plugin: ");
    reveal_strlit("  disabled: ");
    reveal_strlit("true");
    reveal_strlit("false");
    let lf = "\n"@;
    let value = if e.disabled {
        "true"@
    } else {
        "false"@
    };
    let note = match e.package {
        Some(p) => "  # plugin: "@ + p,
        None => Seq::<char>::empty(),
    };
    assert forall|i: int| 0 <= i < e.id.len() implies #[trigger] e.id[i] != '\r' by {
        assert(row_id_char(e.id[i]));
    }
    let head = "- id: "@ + e.id;
    lemma_unpaired_join("- id: "@, e.id);
    assert(head.last() != '\r') by {
        assert(e.id[e.id.len() - 1] != '\r');
    }
    if e.package is Some {
        lemma_unpaired_join("  # plugin: "@, e.package->0);
        assert(note.last() != '\r');
    }
    lemma_unpaired_join(head, note);
    let first = head + note;
    assert(first.last() != '\r');
    lemma_unpaired_join(first, lf);
    let second = "  disabled: "@ + value;
    assert(unpaired(second));
    lemma_unpaired_join(first + lf, second);
    lemma_unpaired_join(first + lf + second, lf);
    assert(row_lines(e, lf) =~= first + lf + second + lf);
}

proof fn lemma_unpaired_rows(rows: Seq<EntryText>)
    requires
        plain_names(rows),
        forall|i: int| 0 <= i < rows.len() ==> valid_row_id(#[trigger] rows[i].id),
    ensures
        unpaired(rows_text(rows, "\n"@)),
    decreases rows.len(),
{
    if rows.len() > 0 {
        let init = rows.drop_last();
        let e = rows[rows.len() - 1];
        lemma_unpaired_rows(init);
        if e.package is Some {
            lemma_unpaired(e.package->0);
        }
        lemma_unpaired_row(e);
        lemma_unpaired_join(rows_text(init, "\n"@), row_lines(e, "\n"@));
    }
}

/// Writing the same rows a second time changes nothing. In a file without CR LF this leaves out
/// package names that bring one in, and a file that ends in a carriage return where the block is
/// appended.
pub proof fn law_same_rows_change_nothing(
    path: Seq<char>,
    existing: Option<Seq<char>>,
    entries: Seq<EntryText>,
)
    requires
        entries.len() > 0,
        block_edited(path, existing, entries) is Ok,
        block_edited(path, existing, entries)->Ok_0.written ==> paired_file(existing) || (
        plain_names(entries) && !ends_open(
            existing,
            managed_family().begin(),
            managed_family().end(),
        )),
    ensures
        ({
            let after = block_edited(path, existing, entries)->Ok_0.content;
            block_edited(path, after, entries) == unchanged(after)
        }),
{
    law_built_in_markers_are_proper();
    lemma_rows_not_blank(entries, "\n"@);
    let f = managed_family();
    let body = managed_body(entries, "\n"@);
    if plain_names(entries) {
        let rows = sorted_rows(entries);
        lemma_none_invalid(entries);
        law_rows_are_ordered(entries);
        assert forall|i: int| 0 <= i < rows.len() implies (#[trigger] rows[i].package matches Some(
            p,
        ) ==> !model::contains(p, "\r\n"@) && (p.len() > 0 ==> p.last() != '\r')) by {
            assert(entries.contains(rows[i]));
            let k = choose|k: int| 0 <= k < entries.len() && entries[k] == rows[i];
            assert(entries[k].package == rows[i].package);
        }
        assert forall|i: int| 0 <= i < rows.len() implies valid_row_id(#[trigger] rows[i].id) by {
            assert(entries.contains(rows[i]));
            let k = choose|k: int| 0 <= k < entries.len() && entries[k] == rows[i];
            assert(valid_row_id(entries[k].id));
        }
        lemma_unpaired_rows(rows);
        lemma_unpaired(body);
    }
    law_writing_settles(path, existing, f.begin(), f.end(), body);
}

} // verus!
