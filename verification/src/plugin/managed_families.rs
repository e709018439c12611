//! Several families of blocks in one file: writing, changing or deleting the block of one leaves
//! what is read of another as it was.

use crate::model;
use crate::model::CharSet;
use crate::plugin::managed::{
    block_edited, block_read, block_text, body_read, body_text, edited, empty_array, eol_of,
    first_invalid, healed, managed_body, managed_family, opened, outside, place, refilled, row_id_char,
    row_lines, rows_text, shared_family, significant, sorted_rows, valid_row_id,
    whole_block, BlockFamily, EntryText, Place,
};
use crate::plugin::managed_laws::{
    apart, clean_marker, cut_at, families_apart, file_eol, free, is_eol,
    law_built_in_markers_are_proper, law_outside_is_kept, law_rows_are_ordered, lemma_around_marker,
    lemma_body_text_free, lemma_count_zero, lemma_empty_array_parts, lemma_eol,
    lemma_eol_around_free, lemma_found, lemma_free_parts, lemma_free_without_head, lemma_join, lemma_join_in,
    lemma_marker_in_marker, lemma_only_one, lemma_place_block, marker_pair, splits,
};
use crate::plugin::managed_round_trip::{lemma_none_invalid, lemma_rows_not_blank};
use vstd::prelude::*;

verus! {

/// Texts that make up no marker where they meet: a line end or a `#` stands at the seam.
pub open spec fn calm(a: Seq<char>, b: Seq<char>) -> bool {
    ||| a.len() == 0
    ||| b.len() == 0
    ||| a.last() == '\n'
    ||| a.last() == '\r'
    ||| b[0] == '\n'
    ||| b[0] == '\r'
    ||| b[0] == '#'
}

proof fn lemma_calm(a: Seq<char>, b: Seq<char>, p: Seq<char>)
    requires
        clean_marker(p),
        calm(a, b),
    ensures
        splits(a, b, p),
{
    lemma_join(a, b, p);
}

/// A marker at the end of a text makes up no other marker with what follows.
proof fn lemma_apart_seam(u: Seq<char>, m: Seq<char>, y: Seq<char>, p: Seq<char>)
    requires
        clean_marker(m),
        clean_marker(p),
        apart(m, p),
    ensures
        splits(u + m, y, p),
{
    lemma_around_marker(u, m, y, p);
    let s = u + m + y;
    assert forall|i: int| #[trigger] model::matches_at(s, p, i) implies model::matches_at(
        u + m,
        p,
        i,
    ) || (i >= (u + m).len() && model::matches_at(y, p, i - (u + m).len())) by {
        if model::matches_at(u, p, i) {
            lemma_join_in(u, m, p, i);
        } else if i == u.len() {
            let w = s.subrange(i, i + p.len());
            if p.len() <= m.len() {
                assert(m.subrange(0, p.len() as int) =~= w);
                assert(model::matches_at(m, p, 0));
            } else {
                assert(p.subrange(0, m.len() as int) =~= m) by {
                    assert forall|k: int| 0 <= k < m.len() implies p[k] == m[k] by {
                        assert(w[k] == s[i + k]);
                    }
                }
                assert(model::matches_at(p, m, 0));
            }
        }
    }
}

/// A block is free of a marker of another family if what stands between its markers is.
proof fn lemma_block_free(begin: Seq<char>, mid: Seq<char>, end: Seq<char>, p: Seq<char>)
    requires
        marker_pair(begin, end),
        clean_marker(p),
        apart(begin, p),
        apart(end, p),
        free(mid, p),
    ensures
        free(begin + mid + end, p),
{
    lemma_marker_in_marker(begin, p);
    lemma_marker_in_marker(end, p);
    lemma_apart_seam(seq![], begin, mid, p);
    assert(Seq::<char>::empty() + begin =~= begin);
    assert(calm(begin + mid, end));
    lemma_calm(begin + mid, end, p);
}

// ---- Counting ----

proof fn lemma_match_shift(a: Seq<char>, b: Seq<char>, p: Seq<char>, i: int)
    ensures
        i >= a.len() ==> model::matches_at(a + b, p, i) == model::matches_at(b, p, i - a.len()),
{
    if i >= a.len() && i + p.len() <= (a + b).len() {
        assert((a + b).subrange(i, i + p.len()) =~= b.subrange(i - a.len(), i - a.len() + p.len()));
    }
}

proof fn lemma_find_shift(a: Seq<char>, b: Seq<char>, p: Seq<char>, from: int)
    requires
        0 <= from,
    ensures
        model::find_at(a + b, p, a.len() + from) == match model::find_at(b, p, from) {
            Some(i) => Some(i + a.len()),
            None => None,
        },
    decreases b.len() + 1 - from,
{
    lemma_match_shift(a, b, p, a.len() + from);
    if from + p.len() <= b.len() && !model::matches_at(b, p, from) {
        lemma_find_shift(a, b, p, from + 1);
    }
}

proof fn lemma_count_shift(a: Seq<char>, b: Seq<char>, p: Seq<char>, from: int)
    requires
        p.len() > 0,
        0 <= from,
    ensures
        model::count_at(a + b, p, a.len() + from) == model::count_at(b, p, from),
    decreases b.len() - from,
{
    lemma_find_shift(a, b, p, from);
    model::lemma_find_at(b, p, from);
    if let Some(i) = model::find_at(b, p, from) {
        lemma_count_shift(a, b, p, i + p.len());
    }
}

proof fn lemma_count_from(a: Seq<char>, b: Seq<char>, p: Seq<char>, from: int)
    requires
        p.len() > 0,
        splits(a, b, p),
        0 <= from <= a.len(),
    ensures
        model::count_at(a + b, p, from) == model::count_at(a, p, from) + model::count(b, p),
    decreases a.len() - from,
{
    let s = a + b;
    model::lemma_find_at(a, p, from);
    match model::find_at(a, p, from) {
        Some(i) => {
            lemma_join_in(a, b, p, i);
            assert forall|j: int| from <= j < i implies !#[trigger] model::matches_at(s, p, j) by {}
            model::lemma_find_at_is(s, p, from, i);
            lemma_count_from(a, b, p, i + p.len());
        },
        None => {
            lemma_count_shift(a, b, p, 0);
            lemma_find_shift(a, b, p, 0);
            model::lemma_find_at(b, p, 0);
            match model::find_at(b, p, 0) {
                Some(k) => {
                    lemma_match_shift(a, b, p, a.len() + k);
                    assert forall|j: int| from <= j < a.len() + k implies !#[trigger] model::matches_at(
                        s,
                        p,
                        j,
                    ) by {
                        if j >= a.len() {
                            assert(!model::matches_at(b, p, j - a.len()));
                            lemma_match_shift(a, b, p, j);
                        }
                    }
                    model::lemma_find_at_is(s, p, from, a.len() + k);
                },
                None => {
                    assert forall|j: int| from <= j implies !#[trigger] model::matches_at(s, p, j) by {
                        if j >= a.len() {
                            lemma_match_shift(a, b, p, j);
                        }
                    }
                    model::lemma_find_at_none(s, p, from);
                },
            }
        },
    }
}

proof fn lemma_count_split(a: Seq<char>, b: Seq<char>, p: Seq<char>)
    requires
        p.len() > 0,
        splits(a, b, p),
    ensures
        model::count(a + b, p) == model::count(a, p) + model::count(b, p),
{
    lemma_count_from(a, b, p, 0);
}

/// `x` stands between `pre` and `post`, holds no `p` and makes up none with them.
pub open spec fn inert(pre: Seq<char>, x: Seq<char>, post: Seq<char>, p: Seq<char>) -> bool {
    free(x, p) && splits(pre, x, p) && splits(pre + x, post, p)
}

proof fn lemma_inert(pre: Seq<char>, x: Seq<char>, post: Seq<char>, p: Seq<char>)
    requires
        p.len() > 0,
        inert(pre, x, post, p),
    ensures
        model::count(pre + x + post, p) == model::count(pre, p) + model::count(post, p),
        forall|i: int| #[trigger]
            model::matches_at(pre + x + post, p, i) ==> model::matches_at(pre, p, i) || (i
                >= pre.len() + x.len() && model::matches_at(post, p, i - pre.len() - x.len())),
        forall|i: int| #[trigger]
            model::matches_at(pre, p, i) ==> model::matches_at(pre + x + post, p, i),
        forall|i: int| #[trigger]
            model::matches_at(post, p, i) ==> model::matches_at(
                pre + x + post,
                p,
                i + pre.len() + x.len(),
            ),
{
    lemma_count_split(pre, x, p);
    lemma_count_split(pre + x, post, p);
    lemma_count_zero(x, p);
    assert forall|i: int| #[trigger] model::matches_at(pre, p, i) implies model::matches_at(
        pre + x + post,
        p,
        i,
    ) by {
        lemma_join_in(pre, x, p, i);
        lemma_join_in(pre + x, post, p, i);
    }
    assert forall|i: int| #[trigger] model::matches_at(post, p, i) implies model::matches_at(
        pre + x + post,
        p,
        i + pre.len() + x.len(),
    ) by {
        lemma_join_in(pre + x, post, p, i);
    }
}

// ---- What is read of a block ----

/// Two files tell the same of a block: there is none, it is broken in the same way, or it holds the
/// same text.
pub open spec fn same_reading(a: Place, b: Place) -> bool {
    match (a, b) {
        (Place::Absent, Place::Absent) => true,
        (Place::Broken(m), Place::Broken(n)) => m == n,
        (Place::Block { block: x, .. }, Place::Block { block: y, .. }) => x == y,
        _ => false,
    }
}

/// With one start marker at `i` and one end marker at `e`, the order of the two decides.
proof fn lemma_place_one(s: Seq<char>, begin: Seq<char>, end: Seq<char>)
    requires
        clean_marker(begin),
        clean_marker(end),
        model::count(s, begin) == 1,
        model::count(s, end) == 1,
    ensures
        model::find(s, begin) is Some,
        model::find(s, end) is Some,
        ({
            let i = model::find(s, begin)->0;
            let e = model::find(s, end)->0;
            &&& model::matches_at(s, begin, i)
            &&& model::matches_at(s, end, e)
            &&& place(s, begin, end) == if e >= i + begin.len() {
                Place::Block {
                    before: s.take(i),
                    block: s.subrange(i + begin.len(), e),
                    after: s.skip(e + end.len()),
                }
            } else {
                Place::Broken("受管区块缺少结束 marker"@)
            }
        }),
{
    lemma_only_one(s, begin);
    lemma_only_one(s, end);
    model::lemma_find_at(s, begin, 0);
    model::lemma_find_at(s, end, 0);
    let i = model::find(s, begin)->0;
    let e = model::find(s, end)->0;
    if e >= i + begin.len() {
        assert forall|j: int| i + begin.len() <= j < e implies !#[trigger] model::matches_at(
            s,
            end,
            j,
        ) by {}
        model::lemma_find_at_is(s, end, i + begin.len(), e);
    } else {
        assert forall|j: int| i + begin.len() <= j implies !#[trigger] model::matches_at(
            s,
            end,
            j,
        ) by {}
        model::lemma_find_at_none(s, end, i + begin.len());
    }
}

/// Where a text between two others gives way to another text, what is read of a block in the two
/// others stays.
proof fn lemma_swap(
    pre: Seq<char>,
    x: Seq<char>,
    y: Seq<char>,
    post: Seq<char>,
    begin: Seq<char>,
    end: Seq<char>,
)
    requires
        marker_pair(begin, end),
        inert(pre, x, post, begin),
        inert(pre, x, post, end),
        inert(pre, y, post, begin),
        inert(pre, y, post, end),
        place(pre + x + post, begin, end) is Block ==> !(model::contains(pre, begin)
            && model::contains(post, end)),
    ensures
        same_reading(place(pre + x + post, begin, end), place(pre + y + post, begin, end)),
{
    let s = pre + x + post;
    let t = pre + y + post;
    lemma_inert(pre, x, post, begin);
    lemma_inert(pre, x, post, end);
    lemma_inert(pre, y, post, begin);
    lemma_inert(pre, y, post, end);
    if model::count(s, begin) == 1 && model::count(s, end) == 1 {
        lemma_place_one(s, begin, end);
        lemma_place_one(t, begin, end);
        lemma_only_one(s, begin);
        lemma_only_one(s, end);
        lemma_only_one(t, begin);
        lemma_only_one(t, end);
        lemma_count_zero(pre, begin);
        lemma_count_zero(post, end);
        let i = model::find(s, begin)->0;
        let e = model::find(s, end)->0;
        let u = model::find(t, begin)->0;
        let v = model::find(t, end)->0;
        let n = (pre.len() + x.len()) as int;
        let m = (pre.len() + y.len()) as int;
        if model::matches_at(pre, begin, i) {
            assert(model::matches_at(t, begin, i));
            assert(u == i);
            if model::matches_at(pre, end, e) {
                assert(model::matches_at(t, end, e));
                assert(v == e);
                if e >= i + begin.len() {
                    assert(s.subrange(i + begin.len(), e) =~= t.subrange(i + begin.len(), e));
                }
            } else {
                assert(model::matches_at(post, end, e - n));
                assert(false);
            }
        } else {
            assert(model::matches_at(post, begin, i - n));
            assert(model::matches_at(t, begin, i - n + pre.len() + y.len()));
            assert(u == i - n + m);
            if model::matches_at(pre, end, e) {
                assert(model::matches_at(t, end, e));
                assert(v == e);
            } else {
                assert(model::matches_at(post, end, e - n));
                assert(model::matches_at(t, end, e - n + pre.len() + y.len()));
                assert(v == e - n + m);
                if e >= i + begin.len() {
                    assert(s.subrange(i + begin.len(), e) =~= t.subrange(u + begin.len(), v));
                }
            }
        }
    }
}

// ---- Edits ----

/// The edit removes the block.
pub open spec fn removes(body: Option<Seq<char>>) -> bool {
    match body {
        None => true,
        Some(t) => model::blank(t),
    }
}

/// A placeholder `[]` stands inside the block with the given markers.
pub open spec fn parted(s: Seq<char>, begin: Seq<char>, end: Seq<char>) -> bool {
    match empty_array(s) {
        Some((head, tail)) => model::contains(head, begin) && model::contains(tail, end),
        None => false,
    }
}

/// The block with the other markers does not reach into the one that is edited, nor around it or
/// around a placeholder that gives way; and where a block is removed, the texts before and behind
/// it make up no marker when they meet.
pub open spec fn clear_of(
    content: Seq<char>,
    begin: Seq<char>,
    end: Seq<char>,
    body: Option<Seq<char>>,
    other_begin: Seq<char>,
    other_end: Seq<char>,
) -> bool {
    match place(content, begin, end) {
        Place::Block { before, block, after } => {
            &&& !model::contains(block, other_begin)
            &&& !model::contains(block, other_end)
            &&& place(content, other_begin, other_end) is Block ==> !(model::contains(
                before,
                other_begin,
            ) && model::contains(after, other_end))
            &&& if removes(body) {
                let rest = model::trim_start(after, CharSet::LineEnd);
                splits(before, rest, other_begin) && splits(before, rest, other_end)
            } else {
                place(content, other_begin, other_end) is Block ==> !parted(
                    before,
                    other_begin,
                    other_end,
                )
            }
        },
        _ => place(content, other_begin, other_end) is Block ==> !parted(
            content,
            other_begin,
            other_end,
        ),
    }
}

/// Neither the body nor the file puts the edit of one block in the way of the other.
pub open spec fn undisturbed(
    existing: Option<Seq<char>>,
    begin: Seq<char>,
    end: Seq<char>,
    body: Option<Seq<char>>,
    other_begin: Seq<char>,
    other_end: Seq<char>,
) -> bool {
    &&& body is Some ==> !model::contains(body->0, other_begin) && !model::contains(
        body->0,
        other_end,
    )
    &&& existing is Some ==> clear_of(existing->0, begin, end, body, other_begin, other_end)
}

proof fn lemma_empty_inert(pre: Seq<char>, post: Seq<char>, p: Seq<char>)
    requires
        clean_marker(p),
        splits(pre, post, p),
    ensures
        inert(pre, seq![], post, p),
{
    let none = Seq::<char>::empty();
    lemma_free_without_head(none, p);
    lemma_calm(pre, none, p);
    assert(pre + none =~= pre);
}

/// A block that is rewritten between two texts.
proof fn lemma_own_inert(
    pre: Seq<char>,
    begin: Seq<char>,
    mid: Seq<char>,
    end: Seq<char>,
    post: Seq<char>,
    p: Seq<char>,
)
    requires
        marker_pair(begin, end),
        clean_marker(p),
        apart(begin, p),
        apart(end, p),
        free(mid, p),
    ensures
        inert(pre, begin + mid + end, post, p),
{
    let x = begin + mid + end;
    lemma_block_free(begin, mid, end, p);
    assert(x[0] == '#');
    lemma_calm(pre, x, p);
    lemma_apart_seam(pre + (begin + mid), end, post, p);
    assert(pre + (begin + mid) + end =~= pre + x);
}

/// Line ends behind a block go with it.
proof fn lemma_tail_cut(after: Seq<char>)
    ensures
        ({
            let n = model::first_not_in(after, CharSet::LineEnd, 0);
            &&& 0 <= n <= after.len()
            &&& after == after.take(n) + model::trim_start(after, CharSet::LineEnd)
            &&& forall|i: int| 0 <= i < n ==> #[trigger] after[i] == '\n' || after[i] == '\r'
        }),
{
    model::lemma_first_not_in(after, CharSet::LineEnd, 0);
    let n = model::first_not_in(after, CharSet::LineEnd, 0);
    assert(after =~= after.take(n) + after.skip(n));
    assert forall|i: int| 0 <= i < n implies #[trigger] after[i] == '\n' || after[i] == '\r' by {
        assert(CharSet::LineEnd.has(after[i]));
    }
}

/// Adding a placeholder where nothing else is left.
proof fn lemma_refill_reads(s: Seq<char>, eol: Seq<char>, begin: Seq<char>, end: Seq<char>)
    requires
        is_eol(eol),
        marker_pair(begin, end),
    ensures
        same_reading(place(s, begin, end), place(refilled(s, eol), begin, end)),
{
    let none = Seq::<char>::empty();
    reveal_strlit("[]\n");
    reveal_strlit("\n");
    if !significant(s) {
        let fill = if s.len() == 0 || model::ends_with(s, "\n"@) {
            "[]\n"@
        } else {
            eol + "[]\n"@
        };
        if s.len() > 0 && model::ends_with(s, "\n"@) {
            assert(s.subrange(s.len() - 1, s.len() as int)[0] == s.last());
            assert("\n"@[0] == '\n');
        }
        assert(calm(s, fill));
        lemma_free_without_head(fill, begin);
        lemma_free_without_head(fill, end);
        lemma_calm(s, fill, begin);
        lemma_calm(s, fill, end);
        lemma_calm(s + fill, none, begin);
        lemma_calm(s + fill, none, end);
        lemma_calm(s, none, begin);
        lemma_calm(s, none, end);
        lemma_empty_inert(s, none, begin);
        lemma_empty_inert(s, none, end);
        lemma_count_zero(none, end);
        lemma_free_without_head(none, end);
        lemma_swap(s, none, fill, none, begin, end);
        assert(s + none + none =~= s);
        assert(refilled(s, eol) =~= s + fill + none);
    }
}

/// The other family's reading after a block was removed.
proof fn lemma_removal_reads(
    content: Seq<char>,
    begin: Seq<char>,
    end: Seq<char>,
    other_begin: Seq<char>,
    other_end: Seq<char>,
)
    requires
        marker_pair(begin, end),
        marker_pair(other_begin, other_end),
        apart(begin, other_begin),
        apart(begin, other_end),
        apart(end, other_begin),
        apart(end, other_end),
        place(content, begin, end) is Block,
        clear_of(content, begin, end, None, other_begin, other_end),
    ensures
        ({
            let joined = place(content, begin, end)->before + model::trim_start(
                place(content, begin, end)->after,
                CharSet::LineEnd,
            );
            same_reading(
                place(content, other_begin, other_end),
                place(refilled(joined, eol_of(content)), other_begin, other_end),
            )
        }),
{
    let before = place(content, begin, end)->before;
    let block = place(content, begin, end)->block;
    let after = place(content, begin, end)->after;
    let rest = model::trim_start(after, CharSet::LineEnd);
    let n = model::first_not_in(after, CharSet::LineEnd, 0);
    let ends = after.take(n);
    lemma_place_block(content, begin, end);
    lemma_tail_cut(after);
    lemma_count_zero(block, other_begin);
    lemma_count_zero(block, other_end);
    let own = begin + block + end;
    let x = own + ends;
    assert(content =~= before + x + rest);
    lemma_gone_inert(before, begin, block, end, ends, rest, other_begin);
    lemma_gone_inert(before, begin, block, end, ends, rest, other_end);
    lemma_empty_inert(before, rest, other_begin);
    lemma_empty_inert(before, rest, other_end);
    lemma_contains_tail(after, n, other_end);
    lemma_swap(before, x, seq![], rest, other_begin, other_end);
    assert(before + Seq::<char>::empty() + rest =~= before + rest);
    lemma_eol(content);
    lemma_refill_reads(before + rest, eol_of(content), other_begin, other_end);
}

proof fn lemma_contains_tail(s: Seq<char>, n: int, p: Seq<char>)
    requires
        p.len() > 0,
        0 <= n <= s.len(),
    ensures
        model::contains(s.skip(n), p) ==> model::contains(s, p),
        model::contains(s.take(n), p) ==> model::contains(s, p),
{
    lemma_count_zero(s, p);
    lemma_count_zero(s.skip(n), p);
    lemma_count_zero(s.take(n), p);
    if free(s, p) {
        lemma_free_parts(s, p, n);
    }
}

/// A block that is removed together with the line ends behind it.
proof fn lemma_gone_inert(
    before: Seq<char>,
    begin: Seq<char>,
    block: Seq<char>,
    end: Seq<char>,
    ends: Seq<char>,
    rest: Seq<char>,
    p: Seq<char>,
)
    requires
        marker_pair(begin, end),
        clean_marker(p),
        apart(begin, p),
        apart(end, p),
        free(block, p),
        forall|i: int| 0 <= i < ends.len() ==> #[trigger] ends[i] == '\n' || ends[i] == '\r',
    ensures
        inert(before, begin + block + end + ends, rest, p),
{
    let own = begin + block + end;
    let x = own + ends;
    lemma_block_free(begin, block, end, p);
    lemma_free_without_head(ends, p);
    assert(calm(own, ends));
    lemma_calm(own, ends, p);
    assert(x[0] == '#');
    lemma_calm(before, x, p);
    if ends.len() > 0 {
        assert((before + x).last() == ends.last());
        lemma_calm(before + x, rest, p);
    } else {
        assert(x =~= own);
        lemma_own_inert(before, begin, block, end, rest, p);
    }
}

/// The other family's reading after a block was rewritten.
proof fn lemma_rewrite_reads(
    content: Seq<char>,
    begin: Seq<char>,
    end: Seq<char>,
    mid: Seq<char>,
    other_begin: Seq<char>,
    other_end: Seq<char>,
)
    requires
        marker_pair(begin, end),
        marker_pair(other_begin, other_end),
        apart(begin, other_begin),
        apart(begin, other_end),
        apart(end, other_begin),
        apart(end, other_end),
        free(mid, other_begin),
        free(mid, other_end),
        ({
            match place(content, begin, end) {
                Place::Block { before, block, after } => {
                    &&& !model::contains(block, other_begin)
                    &&& !model::contains(block, other_end)
                    &&& place(content, other_begin, other_end) is Block ==> !(model::contains(
                        before,
                        other_begin,
                    ) && model::contains(after, other_end))
                    &&& place(content, other_begin, other_end) is Block ==> !parted(
                        before,
                        other_begin,
                        other_end,
                    )
                },
                _ => false,
            }
        }),
    ensures
        same_reading(
            place(content, other_begin, other_end),
            place(
                healed(place(content, begin, end)->before) + (begin + mid + end) + place(
                    content,
                    begin,
                    end,
                )->after,
                other_begin,
                other_end,
            ),
        ),
{
    let before = place(content, begin, end)->before;
    let block = place(content, begin, end)->block;
    let after = place(content, begin, end)->after;
    let x = begin + block + end;
    let y = begin + mid + end;
    lemma_place_block(content, begin, end);
    lemma_count_zero(block, other_begin);
    lemma_count_zero(block, other_end);
    assert(content =~= before + x + after);
    lemma_own_inert(before, begin, block, end, after, other_begin);
    lemma_own_inert(before, begin, block, end, after, other_end);
    lemma_own_inert(before, begin, mid, end, after, other_begin);
    lemma_own_inert(before, begin, mid, end, after, other_end);
    lemma_swap(before, x, y, after, other_begin, other_end);
    if empty_array(before) is Some {
        let (head, tail) = empty_array(before)->0;
        let z = y + after;
        let now = before + y + after;
        assert(now =~= before + z);
        assert(z[0] == '#');
        lemma_no_straddle(before, y, after, begin, mid, end, content, other_begin, other_end);
        lemma_placeholder_reads(before, z, other_begin, other_end);
        assert(head + tail + y + after =~= head + tail + z);
    }
}

/// Another block that starts before the placeholder does not end behind it.
proof fn lemma_no_straddle(
    before: Seq<char>,
    y: Seq<char>,
    after: Seq<char>,
    begin: Seq<char>,
    mid: Seq<char>,
    end: Seq<char>,
    content: Seq<char>,
    other_begin: Seq<char>,
    other_end: Seq<char>,
)
    requires
        marker_pair(begin, end),
        marker_pair(other_begin, other_end),
        apart(begin, other_end),
        apart(end, other_end),
        free(mid, other_end),
        y == begin + mid + end,
        empty_array(before) is Some,
        place(content, other_begin, other_end) is Block ==> !parted(before, other_begin, other_end),
        place(content, other_begin, other_end) is Block ==> !(model::contains(before, other_begin)
            && model::contains(after, other_end)),
    ensures
        ({
            let (head, tail) = empty_array(before)->0;
            place(content, other_begin, other_end) is Block ==> !(model::contains(
                head,
                other_begin,
            ) && model::contains(tail + (y + after), other_end))
        }),
{
    let (head, tail) = empty_array(before)->0;
    lemma_empty_array_parts(before, 0);
    let (i, j) = choose|i: int, j: int| cut_at(before, head, tail, i, j);
    let post = tail + (y + after);
    lemma_contains_tail(before, i, other_begin);
    lemma_own_inert(tail, begin, mid, end, after, other_end);
    lemma_inert(tail, y, after, other_end);
    assert(post =~= tail + y + after);
    lemma_count_zero(post, other_end);
    lemma_count_zero(tail, other_end);
    lemma_count_zero(after, other_end);
    if model::contains(post, other_end) {
        let k = choose|k: int| model::matches_at(post, other_end, k);
        assert(model::matches_at(tail + y + after, other_end, k));
    }
}

/// What is read behind and before a placeholder does not change when it goes.
proof fn lemma_placeholder_reads(
    before: Seq<char>,
    z: Seq<char>,
    begin: Seq<char>,
    end: Seq<char>,
)
    requires
        marker_pair(begin, end),
        empty_array(before) is Some,
        z.len() > 0,
        z[0] == '#',
        ({
            let (head, tail) = empty_array(before)->0;
            place(before + z, begin, end) is Block ==> !(model::contains(head, begin)
                && model::contains(tail + z, end))
        }),
    ensures
        ({
            let (head, tail) = empty_array(before)->0;
            same_reading(place(before + z, begin, end), place(head + tail + z, begin, end))
        }),
{
    let (head, tail) = empty_array(before)->0;
    lemma_empty_array_parts(before, 0);
    let (i, j) = choose|i: int, j: int| cut_at(before, head, tail, i, j);
    let line = before.subrange(i, j);
    let post = tail + z;
    let none = Seq::<char>::empty();
    assert(before + z =~= head + line + post);
    assert(line.last() == before[j - 1]);
    assert((head + line).last() == line.last());
    if tail.len() == 0 {
        assert(post[0] == z[0]);
    }
    if head.len() > 0 {
        assert(head.last() == before[i - 1]);
    }
    assert forall|k: int| 0 <= k < line.len() implies #[trigger] line[k] != '#' by {
        assert(line[k] == before[i + k]);
    }
    lemma_line_inert(head, line, post, begin);
    lemma_line_inert(head, line, post, end);
    lemma_calm(head, post, begin);
    lemma_calm(head, post, end);
    lemma_empty_inert(head, post, begin);
    lemma_empty_inert(head, post, end);
    lemma_swap(head, line, none, post, begin, end);
    assert(head + none + post =~= head + tail + z);
}

/// A line without a `#` that stands between whole lines.
proof fn lemma_line_inert(head: Seq<char>, line: Seq<char>, post: Seq<char>, p: Seq<char>)
    requires
        clean_marker(p),
        head.len() == 0 || head.last() == '\n',
        calm(head + line, post),
        forall|k: int| 0 <= k < line.len() ==> #[trigger] line[k] != '#',
    ensures
        inert(head, line, post, p),
{
    lemma_free_without_head(line, p);
    lemma_calm(head, line, p);
    lemma_calm(head + line, post, p);
}

/// A whole block with the line end behind it.
proof fn lemma_rendered_free(
    begin: Seq<char>,
    end: Seq<char>,
    body: Seq<char>,
    eol: Seq<char>,
    p: Seq<char>,
)
    requires
        is_eol(eol),
        marker_pair(begin, end),
        clean_marker(p),
        apart(begin, p),
        apart(end, p),
        free(body, p),
    ensures
        free(eol + body_text(body, eol) + eol, p),
        free(begin + (eol + body_text(body, eol) + eol) + end, p),
        free(begin + (eol + body_text(body, eol) + eol) + end + eol, p),
{
    let b = body_text(body, eol);
    lemma_body_text_free(body, eol, p);
    lemma_eol_around_free(b, eol, p);
    lemma_block_free(begin, eol + b + eol, end, p);
    lemma_eol_around_free(begin + (eol + b + eol) + end, eol, p);
}

/// The other family's reading after a first block took the place of a placeholder.
proof fn lemma_replacing_reads(content: Seq<char>, y: Seq<char>, begin: Seq<char>, end: Seq<char>)
    requires
        marker_pair(begin, end),
        empty_array(content) is Some,
        place(content, begin, end) is Block ==> !parted(content, begin, end),
        y.len() > 0,
        y[0] == '#',
        y.last() == '\n',
        free(y, begin),
        free(y, end),
    ensures
        ({
            let (head, tail) = empty_array(content)->0;
            same_reading(
                place(content, begin, end),
                place(head + y + model::trim_start(tail, CharSet::LineEnd), begin, end),
            )
        }),
{
    let (head, tail) = empty_array(content)->0;
    lemma_empty_array_parts(content, 0);
    let (i, j) = choose|i: int, j: int| cut_at(content, head, tail, i, j);
    let n = model::first_not_in(tail, CharSet::LineEnd, 0);
    let ends = tail.take(n);
    let rest = model::trim_start(tail, CharSet::LineEnd);
    let line = content.subrange(i, j);
    let x = line + ends;
    lemma_tail_cut(tail);
    assert(content =~= head + x + rest);
    if head.len() > 0 {
        assert(head.last() == content[i - 1]);
    }
    assert forall|k: int| 0 <= k < x.len() implies #[trigger] x[k] != '#' by {
        if k < line.len() {
            assert(x[k] == content[i + k]);
        } else {
            assert(x[k] == tail[k - line.len()]);
        }
    }
    assert(calm(head + x, rest)) by {
        assert((head + x).last() == x.last());
        if ends.len() > 0 {
            assert(x.last() == tail[n - 1]);
        } else {
            assert(x.last() == content[j - 1]);
        }
    }
    lemma_line_inert(head, x, rest, begin);
    lemma_line_inert(head, x, rest, end);
    assert((head + y).last() == y.last());
    lemma_calm(head, y, begin);
    lemma_calm(head, y, end);
    lemma_calm(head + y, rest, begin);
    lemma_calm(head + y, rest, end);
    lemma_contains_tail(tail, n, end);
    lemma_swap(head, x, y, rest, begin, end);
}

/// The other family's reading after text without its markers was added.
proof fn lemma_adding_reads(content: Seq<char>, y: Seq<char>, begin: Seq<char>, end: Seq<char>)
    requires
        marker_pair(begin, end),
        calm(content, y),
        free(y, begin),
        free(y, end),
    ensures
        same_reading(place(content, begin, end), place(content + y, begin, end)),
{
    let none = Seq::<char>::empty();
    lemma_calm(content, none, begin);
    lemma_calm(content, none, end);
    lemma_empty_inert(content, none, begin);
    lemma_empty_inert(content, none, end);
    lemma_calm(content, y, begin);
    lemma_calm(content, y, end);
    lemma_calm(content + y, none, begin);
    lemma_calm(content + y, none, end);
    lemma_count_zero(none, end);
    lemma_free_without_head(none, end);
    lemma_swap(content, none, y, none, begin, end);
    assert(content + none + none =~= content);
    assert(content + y + none =~= content + y);
}

/// The other family's reading after a first block was added at the end.
proof fn lemma_first_reads(
    content: Seq<char>,
    block: Seq<char>,
    eol: Seq<char>,
    begin: Seq<char>,
    end: Seq<char>,
)
    requires
        marker_pair(begin, end),
        is_eol(eol),
        block.len() > 0,
        block[0] == '#',
        free(block + eol, begin),
        free(block + eol, end),
    ensures
        same_reading(
            place(content, begin, end),
            place(opened(content, eol) + block + eol, begin, end),
        ),
{
    let y = block + eol;
    reveal_strlit("\n");
    if content.len() == 0 {
        lemma_adding_reads(content, y, begin, end);
        assert(opened(content, eol) + block + eol =~= content + y);
    } else {
        lemma_eol_around_free(y, eol, begin);
        lemma_eol_around_free(y, eol, end);
        let one = eol + y;
        assert(one[0] == eol[0]);
        if model::ends_with(content, "\n"@) {
            lemma_adding_reads(content, one, begin, end);
            assert(opened(content, eol) + block + eol =~= content + one);
        } else {
            lemma_eol_around_free(one, eol, begin);
            lemma_eol_around_free(one, eol, end);
            let two = eol + one;
            assert(two[0] == eol[0]);
            lemma_adding_reads(content, two, begin, end);
            assert(opened(content, eol) + block + eol =~= content + two);
        }
    }
}

/// Writing a body into a file.
proof fn lemma_write_reads(
    path: Seq<char>,
    content: Seq<char>,
    family: BlockFamily,
    body: Seq<char>,
    other: BlockFamily,
)
    requires
        marker_pair(family.begin(), family.end()),
        marker_pair(other.begin(), other.end()),
        families_apart(family, other),
        !removes(Some(body)),
        edited(path, Some(content), family.begin(), family.end(), Some(body)) is Ok,
        edited(path, Some(content), family.begin(), family.end(), Some(body))->Ok_0.written,
        undisturbed(
            Some(content),
            family.begin(),
            family.end(),
            Some(body),
            other.begin(),
            other.end(),
        ),
    ensures
        same_reading(
            place(content, other.begin(), other.end()),
            place(
                edited(
                    path,
                    Some(content),
                    family.begin(),
                    family.end(),
                    Some(body),
                )->Ok_0.content->0,
                other.begin(),
                other.end(),
            ),
        ),
{
    let (begin, end) = (family.begin(), family.end());
    let (ob, oe) = (other.begin(), other.end());
    let eol = eol_of(content);
    lemma_eol(content);
    let mid = eol + body_text(body, eol) + eol;
    let rendered = begin + mid + end;
    lemma_count_zero(body, ob);
    lemma_count_zero(body, oe);
    lemma_rendered_free(begin, end, body, eol, ob);
    lemma_rendered_free(begin, end, body, eol, oe);
    assert(block_text(begin, end, Some(body), eol) =~= rendered);
    let y = rendered + eol;
    assert(rendered[0] == '#' && y[0] == '#' && y.last() == '\n');
    match place(content, begin, end) {
        Place::Block { before, block, after } => {
            lemma_rewrite_reads(content, begin, end, mid, ob, oe);
        },
        _ => {
            if empty_array(content) is Some {
                let (head, tail) = empty_array(content)->0;
                let rest = model::trim_start(tail, CharSet::LineEnd);
                lemma_replacing_reads(content, y, ob, oe);
                assert(head + rendered + eol + rest =~= head + y + rest);
            } else {
                lemma_first_reads(content, rendered, eol, ob, oe);
            }
        },
    }
}

/// What is read of a family's block does not change when another family's block is written, changed
/// or removed: the block is there as before, with the same text, or is missing or broken as before.
pub proof fn law_families_leave_each_other_alone(
    path: Seq<char>,
    existing: Option<Seq<char>>,
    family: BlockFamily,
    body: Option<Seq<char>>,
    other: BlockFamily,
)
    requires
        marker_pair(family.begin(), family.end()),
        marker_pair(other.begin(), other.end()),
        families_apart(family, other),
        edited(path, existing, family.begin(), family.end(), body) is Ok,
        edited(path, existing, family.begin(), family.end(), body)->Ok_0.written ==> undisturbed(
            existing,
            family.begin(),
            family.end(),
            body,
            other.begin(),
            other.end(),
        ),
    ensures
        ({
            let after = edited(path, existing, family.begin(), family.end(), body)->Ok_0.content;
            &&& body_read(path, after, other) == body_read(path, existing, other)
            &&& existing is Some ==> same_reading(
                place(existing->0, other.begin(), other.end()),
                place(after->0, other.begin(), other.end()),
            )
        }),
{
    let (begin, end) = (family.begin(), family.end());
    let (ob, oe) = (other.begin(), other.end());
    let eol = file_eol(existing);
    let edit = edited(path, existing, begin, end, body)->Ok_0;
    match existing {
        None => lemma_eol(seq![]),
        Some(c) => lemma_eol(c),
    }
    if !edit.written {
    } else if removes(body) {
        let content = existing->0;
        assert(block_text(begin, end, body, eol).len() == 0);
        assert(clear_of(content, begin, end, None, ob, oe));
        lemma_removal_reads(content, begin, end, ob, oe);
    } else {
        let b = body->0;
        let mid = eol + body_text(b, eol) + eol;
        let rendered = begin + mid + end;
        lemma_count_zero(b, ob);
        lemma_count_zero(b, oe);
        lemma_rendered_free(begin, end, b, eol, ob);
        lemma_rendered_free(begin, end, b, eol, oe);
        assert(block_text(begin, end, body, eol) =~= rendered);
        let y = rendered + eol;
        match existing {
            None => {
                lemma_count_zero(y, ob);
                lemma_count_zero(y, oe);
            },
            Some(content) => lemma_write_reads(path, content, family, b, other),
        }
    }
}

/// Removing a family's block succeeds and leaves another family's block, before or behind it, with
/// the same text.
pub proof fn law_removal_keeps_other_blocks(
    path: Seq<char>,
    content: Seq<char>,
    family: BlockFamily,
    other: BlockFamily,
)
    requires
        marker_pair(family.begin(), family.end()),
        marker_pair(other.begin(), other.end()),
        families_apart(family, other),
        place(content, family.begin(), family.end()) is Block,
        place(content, other.begin(), other.end()) is Block,
        clear_of(content, family.begin(), family.end(), None, other.begin(), other.end()),
    ensures
        edited(path, Some(content), family.begin(), family.end(), None) is Ok,
        ({
            let after = edited(
                path,
                Some(content),
                family.begin(),
                family.end(),
                None,
            )->Ok_0.content->0;
            &&& place(after, other.begin(), other.end()) is Block
            &&& place(after, other.begin(), other.end())->block == place(
                content,
                other.begin(),
                other.end(),
            )->block
        }),
{
    law_families_leave_each_other_alone(path, Some(content), family, None, other);
}

// ---- Rows beside the shared block ----

/// The package names of rows hold no marker of the family.
pub open spec fn plain_packages(entries: Seq<EntryText>, family: BlockFamily) -> bool {
    forall|i: int|
        0 <= i < entries.len() && (#[trigger] entries[i]).package is Some ==> !model::contains(
            entries[i].package->0,
            family.begin(),
        ) && !model::contains(entries[i].package->0, family.end())
}

proof fn lemma_row_free(e: EntryText, eol: Seq<char>, p: Seq<char>)
    requires
        is_eol(eol),
        clean_marker(p),
        p[2] == '>' || p[2] == '<',
        valid_row_id(e.id),
        e.package is Some ==> free(e.package->0, p),
    ensures
        free(row_lines(e, eol), p),
        row_lines(e, eol).len() > 0,
        row_lines(e, eol).last() == '\n',
{
    reveal_strlit("- id: ");
    reveal_strlit("  # plugin: ");
    reveal_strlit("  disabled: ");
    reveal_strlit("true");
    reveal_strlit("false");
    let id = "- id: "@ + e.id;
    assert forall|i: int| 0 <= i < id.len() implies #[trigger] id[i] != '#' by {
        if i >= 6 {
            assert(row_id_char(e.id[i - 6]));
        }
    }
    lemma_free_without_head(id, p);
    let note = match e.package {
        Some(n) => "  # plugin: "@ + n,
        None => seq![],
    };
    let head = id + note;
    assert(free(head, p)) by {
        match e.package {
            None => assert(head =~= id),
            Some(n) => {
                let lead = id + "  # plugin: "@;
                assert(head =~= lead + n);
                assert forall|i: int| !#[trigger] model::matches_at(head, p, i) by {
                    if model::matches_at(head, p, i) {
                        let w = head.subrange(i, i + p.len());
                        assert(w[0] == head[i] && w[2] == head[i + 2]);
                        if i >= lead.len() {
                            let k = i - lead.len();
                            assert(n.subrange(k, k + p.len()) =~= w);
                            assert(model::matches_at(n, p, k));
                        } else if i < id.len() {
                            assert(head[i] == id[i]);
                        } else {
                            assert(head[i] == "  # plugin: "@[i - id.len()]);
                            assert(i == id.len() + 2);
                            assert(head[i + 2] == 'p');
                        }
                    }
                }
            },
        }
    }
    lemma_eol_around_free(head, eol, p);
    let state = "  disabled: "@ + (if e.disabled {
        "true"@
    } else {
        "false"@
    });
    lemma_free_without_head(state, p);
    assert(calm(head + eol, state)) by {
        assert((head + eol).last() == '\n');
    }
    lemma_calm(head + eol, state, p);
    lemma_eol_around_free(head + eol + state, eol, p);
    assert(row_lines(e, eol) =~= head + eol + state + eol);
}

proof fn lemma_rows_free(rows: Seq<EntryText>, eol: Seq<char>, p: Seq<char>)
    requires
        is_eol(eol),
        clean_marker(p),
        p[2] == '>' || p[2] == '<',
        forall|i: int|
            0 <= i < rows.len() ==> valid_row_id(#[trigger] rows[i].id) && (rows[i].package is Some
                ==> free(rows[i].package->0, p)),
    ensures
        free(rows_text(rows, eol), p),
        rows.len() > 0 ==> rows_text(rows, eol).last() == '\n',
    decreases rows.len(),
{
    if rows.len() == 0 {
        lemma_free_without_head(rows_text(rows, eol), p);
    } else {
        let init = rows.drop_last();
        lemma_rows_free(init, eol, p);
        lemma_row_free(rows.last(), eol, p);
        let a = rows_text(init, eol);
        let b = row_lines(rows.last(), eol);
        if init.len() == 0 {
            assert(a.len() == 0);
        }
        lemma_calm(a, b, p);
    }
}

/// The text of valid rows is free of another family's markers.
proof fn lemma_managed_body_free(entries: Seq<EntryText>, eol: Seq<char>, family: BlockFamily)
    requires
        is_eol(eol),
        marker_pair(family.begin(), family.end()),
        first_invalid(entries) is None,
        plain_packages(entries, family),
    ensures
        free(managed_body(entries, eol), family.begin()),
        free(managed_body(entries, eol), family.end()),
{
    let rows = sorted_rows(entries);
    lemma_none_invalid(entries);
    law_rows_are_ordered(entries);
    assert forall|i: int| 0 <= i < rows.len() implies valid_row_id(#[trigger] rows[i].id) && (
    rows[i].package is Some ==> free(rows[i].package->0, family.begin()) && free(
        rows[i].package->0,
        family.end(),
    )) by {
        assert(entries.contains(rows[i]));
        let k = choose|k: int| 0 <= k < entries.len() && entries[k] == rows[i];
        assert(valid_row_id(entries[k].id));
        if rows[i].package is Some {
            lemma_count_zero(rows[i].package->0, family.begin());
            lemma_count_zero(rows[i].package->0, family.end());
        }
    }
    lemma_rows_free(rows, eol, family.begin());
    lemma_rows_free(rows, eol, family.end());
}

/// What writing rows hands on as the body of the managed block.
pub open spec fn rows_body(entries: Seq<EntryText>) -> Option<Seq<char>> {
    if entries.len() == 0 {
        None
    } else {
        Some(managed_body(entries, "\n"@))
    }
}

/// Writing, changing or deleting the rows of the managed block leaves what is read of another
/// family's block as it was.
pub proof fn law_rows_leave_other_families_alone(
    path: Seq<char>,
    existing: Option<Seq<char>>,
    entries: Seq<EntryText>,
    other: BlockFamily,
)
    requires
        marker_pair(other.begin(), other.end()),
        families_apart(managed_family(), other),
        plain_packages(entries, other),
        block_edited(path, existing, entries) is Ok,
        block_edited(path, existing, entries)->Ok_0.written && existing is Some ==> clear_of(
            existing->0,
            managed_family().begin(),
            managed_family().end(),
            rows_body(entries),
            other.begin(),
            other.end(),
        ),
    ensures
        body_read(path, block_edited(path, existing, entries)->Ok_0.content, other) == body_read(
            path,
            existing,
            other,
        ),
{
    law_built_in_markers_are_proper();
    if entries.len() > 0 {
        let lf = "\n"@;
        reveal_strlit("\n");
        assert(lf =~= seq!['\n']);
        lemma_managed_body_free(entries, lf, other);
        lemma_count_zero(managed_body(entries, lf), other.begin());
        lemma_count_zero(managed_body(entries, lf), other.end());
    }
    law_families_leave_each_other_alone(
        path,
        existing,
        managed_family(),
        rows_body(entries),
        other,
    );
}

/// Writing, changing or deleting the rows of the managed block neither changes, removes nor breaks
/// the shared block.
pub proof fn law_rows_leave_the_shared_block_alone(
    path: Seq<char>,
    existing: Option<Seq<char>>,
    entries: Seq<EntryText>,
)
    requires
        plain_packages(entries, shared_family()),
        block_edited(path, existing, entries) is Ok,
        block_edited(path, existing, entries)->Ok_0.written && existing is Some ==> clear_of(
            existing->0,
            managed_family().begin(),
            managed_family().end(),
            rows_body(entries),
            shared_family().begin(),
            shared_family().end(),
        ),
    ensures
        body_read(path, block_edited(path, existing, entries)->Ok_0.content, shared_family())
            == body_read(path, existing, shared_family()),
{
    law_built_in_markers_are_proper();
    law_rows_leave_other_families_alone(path, existing, entries, shared_family());
}

/// Writing, changing or deleting another family's block leaves the rows of the managed block as they
/// are read.
pub proof fn law_other_families_leave_the_rows_alone(
    path: Seq<char>,
    existing: Option<Seq<char>>,
    family: BlockFamily,
    body: Option<Seq<char>>,
)
    requires
        marker_pair(family.begin(), family.end()),
        families_apart(family, managed_family()),
        edited(path, existing, family.begin(), family.end(), body) is Ok,
        edited(path, existing, family.begin(), family.end(), body)->Ok_0.written ==> undisturbed(
            existing,
            family.begin(),
            family.end(),
            body,
            managed_family().begin(),
            managed_family().end(),
        ),
    ensures
        block_read(path, edited(path, existing, family.begin(), family.end(), body)->Ok_0.content)
            == block_read(path, existing),
{
    law_built_in_markers_are_proper();
    let g = managed_family();
    law_families_leave_each_other_alone(path, existing, family, body, g);
    let after = edited(path, existing, family.begin(), family.end(), body)->Ok_0.content;
    if existing is None && after is Some {
        assert(body_read(path, after, g) == Ok::<Option<Seq<char>>, Seq<char>>(None));
        assert(place(after->0, g.begin(), g.end()) is Absent);
    }
}

/// Where every block starts on a line of its own, as the launcher writes them, removing one never
/// makes up a marker: the texts around it meet at a line end.
pub proof fn law_whole_lines_meet_calmly(before: Seq<char>, rest: Seq<char>, family: BlockFamily)
    requires
        marker_pair(family.begin(), family.end()),
        before.len() == 0 || before.last() == '\n',
    ensures
        splits(before, rest, family.begin()),
        splits(before, rest, family.end()),
{
    lemma_calm(before, rest, family.begin());
    lemma_calm(before, rest, family.end());
}

// ---- A block by itself ----

proof fn lemma_trim_text_free(s: Seq<char>, t: Seq<char>, p: Seq<char>)
    requires
        free(s, p),
    ensures
        free(model::trim_end_text(s, t), p),
    decreases s.len(),
{
    if t.len() > 0 && model::ends_with(s, t) {
        lemma_free_parts(s, p, s.len() - t.len());
        lemma_trim_text_free(s.take(s.len() - t.len()), t, p);
    }
}

/// A rendered block is whole: its markers stand at its two ends and nowhere else, with the rows
/// between them.
pub proof fn law_rendered_block_is_whole(entries: Seq<EntryText>, eol: Seq<char>)
    requires
        is_eol(eol),
        first_invalid(entries) is None,
        plain_packages(entries, managed_family()),
    ensures
        place(whole_block(entries, eol), managed_family().begin(), managed_family().end()) == (
        Place::Block {
            before: seq![],
            block: eol + model::trim_end_text(managed_body(entries, eol), eol) + eol,
            after: seq![],
        }),
{
    let f = managed_family();
    let none = Seq::<char>::empty();
    let body = managed_body(entries, eol);
    let rows = model::trim_end_text(body, eol);
    law_built_in_markers_are_proper();
    lemma_managed_body_free(entries, eol, f);
    lemma_trim_text_free(body, eol, f.begin());
    lemma_trim_text_free(body, eol, f.end());
    lemma_eol_around_free(rows, eol, f.begin());
    lemma_eol_around_free(rows, eol, f.end());
    lemma_free_without_head(none, f.begin());
    lemma_free_without_head(none, f.end());
    lemma_found(none, f.begin(), eol + rows + eol, f.end(), none);
    assert(none + f.begin() + (eol + rows + eol) + f.end() + none =~= whole_block(entries, eol));
}

/// Writing rows keeps every character outside the two markers of the managed block, where no
/// placeholder `[]` stands before it.
pub proof fn law_rows_leave_the_outside_alone(
    path: Seq<char>,
    content: Seq<char>,
    entries: Seq<EntryText>,
)
    requires
        entries.len() > 0,
        outside(content, managed_family()) matches Ok(Some((before, after))) && empty_array(before)
            is None,
        block_edited(path, Some(content), entries) is Ok,
    ensures
        outside(block_edited(path, Some(content), entries)->Ok_0.content->0, managed_family())
            == outside(content, managed_family()),
{
    law_built_in_markers_are_proper();
    lemma_rows_not_blank(entries, "\n"@);
    law_outside_is_kept(path, content, managed_family(), managed_body(entries, "\n"@));
}

} // verus!
