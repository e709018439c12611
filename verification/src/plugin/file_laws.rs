//! What holds of the files that the launcher writes into: rows that are read back, rows that are
//! refused, files that are mended, and who may write.

use crate::model;
use crate::model::CharSet;
use crate::plugin::file_lock::{FileLocks, FileWriteGuard};
use crate::plugin::managed::{
    apply_block, apply_family, block_around, block_text, body_text, empty_array_at, entry_texts,
    eol_of, first_invalid, has_significant, is_block_sequence, is_filler, lemma_markers_not_empty,
    line_end, managed_family, opened, place, read_block, read_body, refilled, row_id_char,
    sequence_line, significant, sorted_rows, split_empty_array, split_outside, upsert,
    valid_row_id, validate_row_id, BlockEdit, BlockFamily, BlockOutcome, EntryText, ManagedEntry,
    Place,
};
use crate::plugin::managed_laws::{
    distinct_ids, is_eol, last_with, law_read_gives_back_the_body, law_upsert, lemma_eol,
    lemma_sorted_holds, marker_pair,
};
use crate::plugin::managed_round_trip::{bare, law_rows_are_read_back, lemma_add_line, single_line};
use crate::plugin::patch_file::{
    heal_patch_file, inspect_patch_file, kept_body, law_healing_keeps_rows, lemma_rescued,
    on_lines, outside_lines, rescued, row_line, template_head, Healed,
};
use crate::plugin::switch_laws::says;
use crate::text_lemmas::{lemma_lines_append, lemma_one_line, lemma_trim_nothing};
use vstd::prelude::*;

verus! {

// ---- Rows ----

/// Rows that are written into a file are read from it: each id once, in the state that was written,
/// and no other.
pub proof fn law_written_rows_are_read(
    path: &str,
    existing: Option<&str>,
    entries: &[ManagedEntry],
    edit: BlockEdit,
    content: &str,
    r: Result<Option<Vec<ManagedEntry>>, String>,
    k: int,
)
    requires
        call_ensures(apply_block, (path, existing, entries), Ok::<BlockEdit, String>(edit)),
        entries@.len() > 0,
        distinct_ids(entry_texts(entries@)),
        forall|i: int|
            0 <= i < entries@.len() ==> ((#[trigger] entries@[i]).package is Some ==> single_line(
                entries@[i].package->0@,
            )),
        Some(content@) == edit@.content,
        call_ensures(read_block, (path, Some(content)), r),
    ensures
        r matches Ok(Some(rows)) && {
            &&& 0 <= k < entries@.len() ==> exists|j: int|
                0 <= j < rows@.len() && (#[trigger] rows@[j]).id@ == entries@[k].id@
                    && rows@[j].disabled == entries@[k].disabled
            &&& 0 <= k < rows@.len() ==> exists|j: int|
                0 <= j < entries@.len() && (#[trigger] entries@[j]).id@ == rows@[k].id@
                    && entries@[j].disabled == rows@[k].disabled
        },
{
    let given = entry_texts(entries@);
    assert(given.len() == entries@.len());
    assert forall|i: int| 0 <= i < given.len() implies #[trigger] given[i].package is None
        || single_line(given[i].package->0) by {
        assert(given[i] == entries@[i]@);
    }
    law_rows_are_read_back(path@, model::slice_of(existing), given);
    assert(model::slice_of(Some(content)) == Some(content@));
    let sorted = sorted_rows(given);
    let out = bare(sorted);
    match r {
        Ok(Some(rows)) => {
            let read = entry_texts(rows@);
            assert(read == out && read.len() == rows@.len());
            if 0 <= k < entries@.len() {
                assert(given[k] == entries@[k]@);
                lemma_sorted_holds(given, given[k]);
                assert(given.contains(given[k]));
                let j = choose|j: int| 0 <= j < sorted.len() && sorted[j] == given[k];
                assert(out[j].id == given[k].id);
                assert(read[j] == rows@[j]@);
            }
            if 0 <= k < rows@.len() {
                assert(read[k] == rows@[k]@);
                lemma_sorted_holds(given, sorted[k]);
                assert(sorted.contains(sorted[k]));
                let j = choose|j: int| 0 <= j < given.len() && given[j] == sorted[k];
                assert(given[j] == entries@[j]@);
                assert(entries@[j].id@ == rows@[k].id@);
            }
        },
        _ => {},
    }
}

proof fn lemma_bad_id(entries: Seq<EntryText>, i: int)
    requires
        0 <= i < entries.len(),
        !valid_row_id(entries[i].id),
    ensures
        first_invalid(entries) is Some,
    decreases entries.len(),
{
    if i > 0 && valid_row_id(entries[0].id) {
        assert(entries.skip(1)[i - 1] == entries[i]);
        lemma_bad_id(entries.skip(1), i - 1);
    }
}

/// A row whose id is empty, too long or holds anything but letters, digits and `._-@/` is never
/// written, nor is anything beside it.
pub proof fn law_bad_ids_are_refused(
    path: &str,
    existing: Option<&str>,
    entries: &[ManagedEntry],
    r: Result<BlockEdit, String>,
    i: int,
    j: int,
)
    requires
        call_ensures(apply_block, (path, existing, entries), r),
        0 <= i < entries@.len(),
        entries@[i].id@.len() == 0 || model::byte_len(entries@[i].id@) > 200 || (0 <= j
            < entries@[i].id@.len() && !(model::ascii_alnum(entries@[i].id@[j]) || entries@[i].id@[j]
            == '.' || entries@[i].id@[j] == '_' || entries@[i].id@[j] == '-' || entries@[i].id@[j]
            == '@' || entries@[i].id@[j] == '/')),
    ensures
        r is Err,
{
    let given = entry_texts(entries@);
    assert(given.len() == entries@.len() && given[i] == entries@[i]@);
    if valid_row_id(given[i].id) {
        assert(row_id_char(given[i].id[j]));
    }
    lemma_bad_id(given, i);
}

/// An update replaces the rows that it names, takes away those that are to go, and leaves every other
/// row as it was.
pub proof fn law_updates_change_what_they_name(
    existing: Vec<ManagedEntry>,
    updates: &[ManagedEntry],
    gone: &[String],
    r: Vec<ManagedEntry>,
    id: Seq<char>,
)
    requires
        call_ensures(upsert, (Some(existing), updates, gone), r),
    ensures
        ({
            let now = entry_texts(r@);
            match last_with(entry_texts(updates@), id) {
                Some(e) => says(now, id, Some(e.disabled)),
                None => if model::texts(gone@).contains(id) {
                    says(now, id, None)
                } else {
                    match last_with(entry_texts(existing@), id) {
                        Some(e) => says(now, id, Some(e.disabled)),
                        None => says(now, id, None),
                    }
                },
            }
        }),
{
    let now = entry_texts(r@);
    law_upsert(entry_texts(existing@), entry_texts(updates@), model::texts(gone@), id);
    lemma_in_order(now, id);
}

proof fn lemma_in_order(rows: Seq<EntryText>, id: Seq<char>)
    requires
        crate::plugin::managed_laws::ordered(rows),
    ensures
        match crate::plugin::managed_laws::row_with(rows, id) {
            Some(e) => says(rows, id, Some(e.disabled)),
            None => says(rows, id, None),
        },
{
    crate::plugin::managed::lemma_rank(rows, id);
    let n = crate::plugin::managed::rank(rows, id);
    assert forall|i: int| 0 <= i < rows.len() && (#[trigger] rows[i]).id == id implies i == n by {
        crate::text_map::lemma_precedes_total(id, id);
        if i < n {
            assert(model::precedes(rows[i].id, id));
        } else if n < i {
            assert(model::precedes(rows[n].id, rows[i].id));
        }
    }
}

/// The text that a family of blocks gets is the text that is read of it, without the white space
/// around it.
pub proof fn law_written_texts_are_read(
    path: &str,
    existing: Option<&str>,
    family: BlockFamily,
    body: &str,
    edit: BlockEdit,
    content: &str,
    r: Result<Option<String>, String>,
)
    requires
        marker_pair(family.begin(), family.end()),
        !model::blank(body@),
        crate::plugin::managed_laws::file_eol(model::slice_of(existing)) == "\n"@,
        call_ensures(
            apply_family,
            (path, existing, family, Some(body)),
            Ok::<BlockEdit, String>(edit),
        ),
        edit@.written,
        Some(content@) == edit@.content,
        call_ensures(read_body, (path, Some(content), family), r),
    ensures
        r matches Ok(Some(text)) && text@ == model::trim(body@),
{
    assert(model::slice_of(Some(body)) == Some(body@));
    assert(model::slice_of(Some(content)) == Some(content@));
    law_read_gives_back_the_body(path@, model::slice_of(existing), family, body@);
}

// ---- Mending a file ----

proof fn lemma_rows_on_lines(x: Seq<char>, rows: Seq<Seq<char>>)
    requires
        x.len() == 0 || x.last() == '\n',
        forall|i: int| 0 <= i < rows.len() ==> single_line(#[trigger] rows[i]) && rows[i].len() > 0,
    ensures
        model::lines(x + on_lines(rows)) == model::lines(x) + rows,
        (x + on_lines(rows)).len() == 0 || (x + on_lines(rows)).last() == '\n',
    decreases rows.len(),
{
    reveal_strlit("\n");
    if rows.len() == 0 {
        assert(x + on_lines(rows) =~= x);
        assert(model::lines(x) + rows =~= model::lines(x));
    } else {
        let init = rows.drop_last();
        assert forall|i: int| 0 <= i < init.len() implies single_line(#[trigger] init[i]) && init[i].len()
            > 0 by {
            assert(init[i] == rows[i]);
        }
        lemma_rows_on_lines(x, init);
        let last = rows[rows.len() - 1];
        assert("\n"@ =~= seq!['\n']);
        lemma_add_line(x + on_lines(init), last, "\n"@);
        assert(x + on_lines(rows) =~= x + on_lines(init) + last + "\n"@);
        assert(model::lines(x) + rows =~= (model::lines(x) + init).push(last));
    }
}

/// A file that is mended keeps every row line that stood outside the managed block, as a line of its
/// own, and keeps the managed block with its rows.
pub proof fn law_mended_files_keep_their_rows(content: &str, r: Healed, line: Seq<char>)
    requires
        call_ensures(heal_patch_file, (content,), r),
        forall|i: int|
            0 <= i < outside_lines(content@).len() ==> single_line(
                #[trigger] outside_lines(content@)[i],
            ),
        outside_lines(content@).contains(line),
        row_line(line),
    ensures
        model::lines(r.content@).contains(line),
        r.user_lines > 0,
        kept_body(content@) is Some ==> r.block_kept && model::ends_with(
            r.content@,
            block_around(kept_body(content@)->0) + "\n"@,
        ),
{
    let all = outside_lines(content@);
    let rows = rescued(all);
    law_healing_keeps_rows(content@, line);
    assert forall|i: int| 0 <= i < rows.len() implies single_line(#[trigger] rows[i]) && rows[i].len()
        > 0 by {
        assert(rows.contains(rows[i]));
        lemma_rescued(all, rows[i]);
        let j = choose|j: int| 0 <= j < all.len() && all[j] == rows[i];
        assert(single_line(all[j]));
        lemma_row_line_filled(rows[i]);
    }
    let head = template_head() + "\n"@;
    reveal_strlit("\n");
    assert(head.last() == '\n');
    lemma_rows_on_lines(head, rows);
    let k = choose|k: int| 0 <= k < rows.len() && rows[k] == line;
    let upper = head + on_lines(rows);
    let kept = model::lines(upper);
    assert(kept[model::lines(head).len() + k] == line);
    match kept_body(content@) {
        None => {
            assert(r.content@ == upper);
        },
        Some(body) => {
            let tail = block_around(body) + "\n"@;
            assert(r.content@ =~= upper + tail);
            crate::text_lemmas::lemma_lines_append(upper, tail);
            let out = model::lines(r.content@);
            assert(out[model::lines(head).len() + k] == line);
            assert(r.content@.subrange(r.content@.len() - tail.len(), r.content@.len() as int) =~= tail);
        },
    }
}

proof fn lemma_row_line_filled(line: Seq<char>)
    requires
        row_line(line),
    ensures
        line.len() > 0,
{
    model::lemma_first_not_in(line, CharSet::White, 0);
}

/// A file is found to be damaged exactly where its markers do not make one pair, it is neither an
/// empty array nor a row of items, or it begins more than once; a missing or blank one is sound.
pub proof fn law_damage_is_found(content: &str, r: Option<String>, none: Option<String>)
    requires
        call_ensures(inspect_patch_file, (Some(content),), r),
        call_ensures(inspect_patch_file, (None::<&str>,), none),
    ensures
        none is None,
        model::blank(content@) ==> r is None,
        !model::blank(content@) && model::count(content@, managed_family().begin()) != model::count(
            content@,
            managed_family().end(),
        ) ==> r is Some,
        !model::blank(content@) && model::count(content@, managed_family().begin()) > 1 ==> r is Some,
        !model::blank(content@) && model::count(
            content@,
            "# Your patch layer for this dsh profile"@,
        ) > 1 ==> r is Some,
        r is None && !model::blank(content@) ==> model::count(content@, managed_family().begin())
            == model::count(content@, managed_family().end()) && model::count(
            content@,
            managed_family().begin(),
        ) <= 1,
{
}

// ---- Who may write ----

/// A file is held by one thread at a time: it is given to a thread exactly where no other holds it,
/// and is free again once the thread that got it first has given it back. Other files do not matter.
pub proof fn law_files_have_one_writer(
    locks: &mut FileLocks,
    key: &str,
    thread: u64,
    r: Option<FileWriteGuard>,
    after: &mut FileLocks,
    guard: FileWriteGuard,
    other: Seq<char>,
)
    requires
        call_ensures(FileLocks::file_write_lock, (locks, key, thread), r),
        call_ensures(FileLocks::release, (after, guard), ()),
        other != key@,
        other != guard.file(),
    ensures
        r is Some <==> old(locks).holder(key@) is None || old(locks).holder(key@) == Some(thread),
        r is Some ==> final(locks).holder(key@) == Some(thread) && r->0.file() == key@ && (
        r->0.is_outermost() <==> old(locks).holder(key@) is None),
        r is None ==> final(locks).holder(key@) == old(locks).holder(key@),
        guard.is_outermost() ==> final(after).holder(guard.file()) is None,
        !guard.is_outermost() ==> final(after).holder(guard.file()) == old(after).holder(guard.file()),
        final(locks).holder(other) == old(locks).holder(other),
        final(after).holder(other) == old(after).holder(other),
{
}

/// An id is good exactly where it has between 1 and 200 bytes, all of them letters, digits or one of
/// `._-@/`.
pub proof fn law_which_ids_are_good(id: &str, r: Result<(), String>)
    requires
        call_ensures(validate_row_id, (id,), r),
    ensures
        r is Ok <==> id@.len() > 0 && model::byte_len(id@) <= 200 && forall|i: int|
            0 <= i < id@.len() ==> model::ascii_alnum(#[trigger] id@[i]) || id@[i] == '.' || id@[i] == '_'
                || id@[i] == '-' || id@[i] == '@' || id@[i] == '/',
{
    if r is Ok {
        assert forall|i: int| 0 <= i < id@.len() implies model::ascii_alnum(#[trigger] id@[i]) || id@[i]
            == '.' || id@[i] == '_' || id@[i] == '-' || id@[i] == '@' || id@[i] == '/' by {
            assert(row_id_char(id@[i]));
        }
    }
    if id@.len() > 0 && model::byte_len(id@) <= 200 && forall|i: int|
        0 <= i < id@.len() ==> model::ascii_alnum(#[trigger] id@[i]) || id@[i] == '.' || id@[i] == '_'
            || id@[i] == '-' || id@[i] == '@' || id@[i] == '/' {
        assert forall|i: int| 0 <= i < id@.len() implies row_id_char(#[trigger] id@[i]) by {}
        assert(valid_row_id(id@));
    }
}

/// What belongs to a row: a line that is neither blank nor a comment, and is an item or indented.
pub proof fn law_what_belongs_to_a_row(line: Seq<char>, at: int)
    requires
        0 <= at < line.len(),
        !model::white(line[at]),
        forall|i: int| 0 <= i < at ==> model::white(#[trigger] line[i]),
    ensures
        line[at] == '#' ==> !row_line(line),
        line[at] != '#' && (line[0] == ' ' || line[0] == '\t') ==> row_line(line),
        line[at] == '-' && at + 1 < line.len() && line[at + 1] == ' ' ==> row_line(line),
        at == 0 && line[0] != '-' ==> !row_line(line),
{
    let k = CharSet::White;
    model::lemma_first_not_in(line, k, 0);
    let n = model::first_not_in(line, k, 0);
    if n < at {
        assert(k.has(line[n]));
    }
    if n > at {
        assert(k.has(line[at]));
    }
    let t = model::trim_start(line, k);
    assert(t[0] == line[at]);
    reveal_strlit("- ");
    if at + 1 < line.len() {
        assert(t[1] == line[at + 1]);
        if line[at] == '-' && line[at + 1] == ' ' {
            assert(t.subrange(0, 2) =~= "- "@);
        }
    }
    if model::starts_with(t, "- "@) {
        assert(t.subrange(0, 2)[0] == t[0]);
    }
}

// ---- Placeholders ----

/// A file that lost its block still holds something: rows of its own, or the placeholder.
pub proof fn law_emptied_files_stay_arrays(
    path: &str,
    existing: &str,
    family: BlockFamily,
    edit: BlockEdit,
    content: &str,
    b: bool,
)
    requires
        call_ensures(
            apply_family,
            (path, Some(existing), family, None::<&str>),
            Ok::<BlockEdit, String>(edit),
        ),
        edit.outcome == BlockOutcome::Written,
        edit.content is Some,
        content@ == (edit.content->0)@,
        call_ensures(has_significant, (content,), b),
    ensures
        b,
{
    let eol = eol_of(existing@);
    lemma_eol(existing@);
    match place(existing@, family.begin(), family.end()) {
        Place::Block { before, block, after } => {
            let out = before + model::trim_start(after, CharSet::LineEnd);
            lemma_refilled(out, eol);
        },
        _ => {},
    }
}

proof fn lemma_refilled(out: Seq<char>, eol: Seq<char>)
    requires
        is_eol(eol),
    ensures
        significant(refilled(out, eol)),
{
    let c = refilled(out, eol);
    if !significant(out) {
        reveal_strlit("[]\n");
        reveal_strlit("[]");
        reveal_strlit("\n");
        let x = if out.len() == 0 || model::ends_with(out, "\n"@) {
            out
        } else {
            out + eol
        };
        if out.len() > 0 && model::ends_with(out, "\n"@) {
            assert(out.subrange(out.len() - 1, out.len() as int)[0] == out.last());
        }
        assert(x.len() == 0 || x.last() == '\n');
        assert(c =~= x + "[]\n"@);
        lemma_lines_append(x, "[]\n"@);
        assert("[]\n"@ =~= "[]"@.push('\n'));
        lemma_one_line("[]"@);
        assert(model::drop_cr("[]"@) == "[]"@);
        let n = model::lines(x).len() as int;
        assert(model::lines(c)[n] == "[]"@);
        lemma_trim_nothing("[]"@, CharSet::White);
        assert(!is_filler(model::lines(c)[n]));
    }
}

/// A file holds something exactly where one of its lines is neither blank nor a comment.
pub proof fn law_what_counts_in_a_file(content: &str, b: bool)
    requires
        call_ensures(has_significant, (content,), b),
    ensures
        b <==> exists|i: int|
            0 <= i < model::lines(content@).len() && !model::blank(
                #[trigger] model::lines(content@)[i],
            ) && model::trim(model::lines(content@)[i])[0] != '#',
{
    let lines = model::lines(content@);
    if b {
        let i = choose|i: int| 0 <= i < lines.len() && !is_filler(#[trigger] lines[i]);
        assert(!model::blank(lines[i]));
    }
    if exists|i: int|
        0 <= i < lines.len() && !model::blank(#[trigger] lines[i]) && model::trim(lines[i])[0] != '#' {
        let i = choose|i: int|
            0 <= i < lines.len() && !model::blank(#[trigger] lines[i]) && model::trim(lines[i])[0]
                != '#';
        assert(!is_filler(lines[i]));
    }
}

/// The cut around a placeholder leaves out its line alone.
pub proof fn law_placeholders_are_cut_out(content: &str, r: Option<(String, String)>)
    requires
        call_ensures(split_empty_array, (content,), r),
    ensures
        r is Some ==> exists|line: Seq<char>|
            content@ == #[trigger] ((r->0).0@ + line + (r->0).1@) && model::trim(line) == "[]"@,
        model::starts_with(content@, "[]\n"@) ==> r is Some && (r->0).0@ == Seq::<char>::empty()
            && (r->0).1@ == content@.skip(3),
{
    let s = content@;
    let line = lemma_cut(s, 0);
    if let Some((a, b)) = r {
        assert(s == a@ + line + b@);
    }
    reveal_strlit("[]\n");
    reveal_strlit("[]");
    if model::starts_with(s, "[]\n"@) {
        let k = CharSet::Only('\n');
        let t = s.subrange(0, 3);
        assert(t[0] == s[0] && t[1] == s[1] && t[2] == s[2]);
        model::lemma_first_in(s, k, 0);
        let n = model::first_in(s, k, 0);
        if n < 2 {
            assert(s[n] == '\n');
        }
        if n > 2 {
            assert(!k.has(s[2]));
        }
        lemma_trimmed_placeholder();
        assert(s.subrange(0, 3) =~= "[]\n"@);
        assert(s.take(0) =~= Seq::<char>::empty());
    }
}

proof fn lemma_trimmed_placeholder()
    ensures
        model::trim("[]\n"@) == "[]"@,
{
    reveal_strlit("[]\n");
    reveal_strlit("[]");
    let k = CharSet::White;
    let s = "[]\n"@;
    assert(model::first_not_in(s, k, 0) == 0);
    assert(model::trim_start(s, k) =~= s);
    assert(model::back_over(s, k, 2) == 2);
    assert(model::back_over(s, k, 3) == 2);
    assert(model::trim(s) =~= "[]"@);
}

proof fn lemma_cut(s: Seq<char>, from: int) -> (line: Seq<char>)
    requires
        0 <= from <= s.len(),
    ensures
        empty_array_at(s, from) matches Some((a, b)) ==> s == a + line + b && model::trim(line)
            == "[]"@,
    decreases s.len() - from,
{
    if from < s.len() {
        model::lemma_first_in(s, CharSet::Only('\n'), from);
        let to = line_end(s, from);
        let line = s.subrange(from, to);
        if to > from && is_filler(line) {
            lemma_cut(s, to)
        } else {
            assert(s.take(from) + line + s.skip(to) =~= s);
            line
        }
    } else {
        s
    }
}

/// Where a block is rewritten, what stood before it stays, but for a placeholder that was left there;
/// what stood after it stays.
pub proof fn law_placeholders_give_way(
    path: &str,
    existing: &str,
    family: BlockFamily,
    body: &str,
    edit: BlockEdit,
    around: (String, String),
    before: &str,
    cut: Option<(String, String)>,
)
    requires
        call_ensures(
            apply_family,
            (path, Some(existing), family, Some(body)),
            Ok::<BlockEdit, String>(edit),
        ),
        edit.outcome == BlockOutcome::Written,
        !model::blank(body@),
        call_ensures(
            split_outside,
            (existing, family),
            Ok::<Option<(String, String)>, String>(Some(around)),
        ),
        before@ == around.0@,
        call_ensures(split_empty_array, (before,), cut),
    ensures
        edit.content is Some,
        model::ends_with((edit.content->0)@, family.end() + around.1@),
        cut is None ==> model::starts_with((edit.content->0)@, before@ + family.begin()),
        cut is Some ==> model::starts_with(
            (edit.content->0)@,
            (cut->0).0@ + (cut->0).1@ + family.begin(),
        ),
{
    let eol = eol_of(existing@);
    let rendered = block_text(family.begin(), family.end(), Some(body@), eol);
    lemma_markers_not_empty(family);
    let c = (edit.content->0)@;
    let head = if cut is None {
        before@
    } else {
        (cut->0).0@ + (cut->0).1@
    };
    assert(rendered == family.begin() + eol + body_text(body@, eol) + eol + family.end());
    assert(rendered.len() > 0);
    assert(c == head + rendered + around.1@);
    lemma_framed(c, head, family.begin(), eol, body_text(body@, eol), family.end(), around.1@);
}

proof fn lemma_framed(
    c: Seq<char>,
    head: Seq<char>,
    begin: Seq<char>,
    eol: Seq<char>,
    inner: Seq<char>,
    end: Seq<char>,
    after: Seq<char>,
)
    requires
        c == head + (begin + eol + inner + eol + end) + after,
    ensures
        model::starts_with(c, head + begin),
        model::ends_with(c, end + after),
{
    let first = head + begin;
    let last = end + after;
    assert(c =~= first + (eol + inner + eol + last));
    assert(c.subrange(0, first.len() as int) =~= first);
    assert(c =~= (first + eol + inner + eol) + last);
    assert(c.subrange(c.len() - last.len(), c.len() as int) =~= last);
}

// ---- Where a block can be added ----

/// A document that items can be appended to has only lines that are blank, comments, items or
/// indented.
pub proof fn law_what_can_be_appended_to(content: &str, b: bool)
    requires
        call_ensures(is_block_sequence, (content,), b),
    ensures
        b <==> forall|i: int|
            0 <= i < model::lines(content@).len() ==> {
                let line = #[trigger] model::lines(content@)[i];
                let t = model::trim_start(line, CharSet::White);
                ||| t.len() == 0
                ||| t[0] == '#'
                ||| t.len() >= 2 && t[0] == '-' && t[1] == ' '
                ||| line[0] == ' '
                ||| line[0] == '\t'
            },
{
    let lines = model::lines(content@);
    reveal_strlit("- ");
    assert forall|i: int| 0 <= i < lines.len() implies sequence_line(#[trigger] lines[i]) == {
        let line = lines[i];
        let t = model::trim_start(line, CharSet::White);
        ||| t.len() == 0
        ||| t[0] == '#'
        ||| t.len() >= 2 && t[0] == '-' && t[1] == ' '
        ||| line[0] == ' '
        ||| line[0] == '\t'
    } by {
        let t = model::trim_start(lines[i], CharSet::White);
        if model::starts_with(t, "- "@) {
            assert(t.subrange(0, 2)[0] == t[0] && t.subrange(0, 2)[1] == t[1]);
        }
        if t.len() >= 2 && t[0] == '-' && t[1] == ' ' {
            assert(t.subrange(0, 2) =~= "- "@);
        }
    }
    if b {
        assert forall|i: int| 0 <= i < lines.len() implies {
            let line = #[trigger] lines[i];
            let t = model::trim_start(line, CharSet::White);
            ||| t.len() == 0
            ||| t[0] == '#'
            ||| t.len() >= 2 && t[0] == '-' && t[1] == ' '
            ||| line[0] == ' '
            ||| line[0] == '\t'
        } by {
            assert(sequence_line(lines[i]));
        }
    }
}

/// A file without a block gets one exactly where it is an array: behind all that it holds, or in the
/// place of the placeholder.
pub proof fn law_where_a_block_is_added(
    path: &str,
    existing: &str,
    family: BlockFamily,
    body: &str,
    r: Result<BlockEdit, String>,
    cut: Option<(String, String)>,
    sequence: bool,
)
    requires
        call_ensures(apply_family, (path, Some(existing), family, Some(body)), r),
        call_ensures(
            split_outside,
            (existing, family),
            Ok::<Option<(String, String)>, String>(None),
        ),
        call_ensures(split_empty_array, (existing,), cut),
        call_ensures(is_block_sequence, (existing,), sequence),
        !model::blank(body@),
        !model::contains(body@, family.begin()),
        !model::contains(body@, family.end()),
    ensures
        r is Ok <==> cut is Some || sequence,
        r is Ok ==> r->Ok_0.outcome == BlockOutcome::Written && r->Ok_0.content is Some,
        r is Ok && cut is None ==> model::starts_with((r->Ok_0.content->0)@, existing@),
        r is Ok && cut is Some ==> model::starts_with(
            (r->Ok_0.content->0)@,
            (cut->0).0@ + family.begin(),
        ),
{
    let eol = eol_of(existing@);
    let rendered = block_text(family.begin(), family.end(), Some(body@), eol);
    lemma_markers_not_empty(family);
    if r is Ok {
        let c = (r->Ok_0.content->0)@;
        if cut is None {
            assert(c =~= opened(existing@, eol) + rendered + eol);
            assert(c.subrange(0, existing@.len() as int) =~= existing@);
        } else {
            let first = (cut->0).0@ + family.begin();
            assert(c.subrange(0, first.len() as int) =~= first);
        }
    }
}

} // verus!
