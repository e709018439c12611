//! What holds of managed blocks across operations: a written block is found again as it was
//! written, writing twice changes nothing, and the rest of the file stays.

use crate::model;
use crate::model::CharSet;
use crate::plugin::managed::{
    block_text, body_read, body_text, edited, empty_array, empty_array_at, eol_of, healed, is_filler,
    lemma_rank, lemma_rank_is, line_end, managed_body, managed_family, opened, outside, place, put,
    put_all, quoted, rank, refilled, shared_family, sorted_rows, unchanged, upserted, without,
    without_all, BlockFamily, EntryText, Place,
};
use crate::text_lemmas::lemma_replace_concat;
use crate::text_map::{lemma_precedes_total, lemma_precedes_transitive};
use vstd::prelude::*;

verus! {

/// `p` does not occur in `s`.
pub open spec fn free(s: Seq<char>, p: Seq<char>) -> bool {
    forall|i: int| !#[trigger] model::matches_at(s, p, i)
}

/// Every occurrence of `p` in `a + b` lies in `a` or in `b`.
pub open spec fn splits(a: Seq<char>, b: Seq<char>, p: Seq<char>) -> bool {
    forall|i: int| #[trigger]
        model::matches_at(a + b, p, i) ==> model::matches_at(a, p, i) || (i >= a.len()
            && model::matches_at(b, p, i - a.len()))
}

/// A text that can serve as a marker: one line whose only `#` is its first character.
pub open spec fn clean_marker(m: Seq<char>) -> bool {
    &&& m.len() >= 3
    &&& m[0] == '#'
    &&& forall|i: int|
        0 <= i < m.len() ==> (#[trigger] m[i] == '#' ==> i == 0) && m[i] != '\r' && m[i] != '\n'
}

/// A start marker and an end marker that cannot be mistaken for each other.
pub open spec fn marker_pair(begin: Seq<char>, end: Seq<char>) -> bool {
    clean_marker(begin) && clean_marker(end) && begin[2] == '>' && end[2] == '<'
}

pub open spec fn is_eol(eol: Seq<char>) -> bool {
    eol == seq!['\n'] || eol == seq!['\r', '\n']
}

pub proof fn lemma_eol(content: Seq<char>)
    ensures
        is_eol(eol_of(content)),
{
    reveal_strlit("\n");
    reveal_strlit("\r\n");
    assert("\n"@ =~= seq!['\n']);
    assert("\r\n"@ =~= seq!['\r', '\n']);
}

/// A match in `x + y` lies in `x` or in `y` where the seam can stand in no match.
pub proof fn lemma_join(x: Seq<char>, y: Seq<char>, p: Seq<char>)
    requires
        p.len() > 0,
        x.len() == 0 || y.len() == 0 || (forall|i: int|
            1 <= i < p.len() ==> #[trigger] p[i] != y[0]) || (forall|i: int|
            0 <= i < p.len() - 1 ==> #[trigger] p[i] != x.last()),
    ensures
        forall|i: int| #[trigger]
            model::matches_at(x + y, p, i) ==> model::matches_at(x, p, i) || (i >= x.len()
                && model::matches_at(y, p, i - x.len())),
{
    assert forall|i: int| #[trigger] model::matches_at(x + y, p, i) implies model::matches_at(
        x,
        p,
        i,
    ) || (i >= x.len() && model::matches_at(y, p, i - x.len())) by {
        let w = (x + y).subrange(i, i + p.len());
        if i + p.len() <= x.len() {
            assert(x.subrange(i, i + p.len()) =~= w);
        } else if i >= x.len() {
            assert(y.subrange(i - x.len(), i - x.len() + p.len()) =~= w);
        } else {
            let k = x.len() - i;
            assert(w[k] == y[0]);
            assert(p[k] == y[0]);
            assert(w[k - 1] == x.last());
            assert(p[k - 1] == x.last());
        }
    }
}

pub proof fn lemma_join_in(x: Seq<char>, y: Seq<char>, p: Seq<char>, i: int)
    ensures
        model::matches_at(x, p, i) ==> model::matches_at(x + y, p, i),
        model::matches_at(y, p, i) ==> model::matches_at(x + y, p, i + x.len()),
{
    if model::matches_at(x, p, i) {
        assert((x + y).subrange(i, i + p.len()) =~= x.subrange(i, i + p.len()));
    }
    if model::matches_at(y, p, i) {
        assert((x + y).subrange(i + x.len(), i + x.len() + p.len()) =~= y.subrange(
            i,
            i + p.len(),
        ));
    }
}

pub proof fn lemma_free_sub(s: Seq<char>, p: Seq<char>, a: int, b: int)
    requires
        free(s, p),
        0 <= a <= b <= s.len(),
    ensures
        free(s.subrange(a, b), p),
{
    assert forall|i: int| !#[trigger] model::matches_at(s.subrange(a, b), p, i) by {
        if model::matches_at(s.subrange(a, b), p, i) {
            assert(s.subrange(a, b).subrange(i, i + p.len()) =~= s.subrange(a + i, a + i + p.len()));
            assert(model::matches_at(s, p, a + i));
        }
    }
}

pub proof fn lemma_free_parts(s: Seq<char>, p: Seq<char>, n: int)
    requires
        free(s, p),
        0 <= n <= s.len(),
    ensures
        free(s.take(n), p),
        free(s.skip(n), p),
{
    lemma_free_sub(s, p, 0, n);
    lemma_free_sub(s, p, n, s.len() as int);
    assert(s.take(n) =~= s.subrange(0, n));
    assert(s.skip(n) =~= s.subrange(n, s.len() as int));
}

/// Texts without the first character of `p` do not hold `p`.
pub proof fn lemma_free_without_head(s: Seq<char>, p: Seq<char>)
    requires
        p.len() > 0,
        forall|i: int| 0 <= i < s.len() ==> #[trigger] s[i] != p[0],
    ensures
        free(s, p),
{
    assert forall|i: int| !#[trigger] model::matches_at(s, p, i) by {
        if model::matches_at(s, p, i) {
            assert(s.subrange(i, i + p.len())[0] == s[i]);
        }
    }
}

pub proof fn lemma_count_zero(s: Seq<char>, p: Seq<char>)
    requires
        p.len() > 0,
    ensures
        model::count(s, p) == 0 <==> free(s, p),
        model::contains(s, p) <==> !free(s, p),
{
    model::lemma_find_at(s, p, 0);
    match model::find_at(s, p, 0) {
        Some(i) => {
            assert(model::matches_at(s, p, i));
        },
        None => {
            assert forall|i: int| !#[trigger] model::matches_at(s, p, i) by {
                if i >= 0 {
                }
            }
        },
    }
}

proof fn lemma_count_one(s: Seq<char>, p: Seq<char>, k: int)
    requires
        p.len() > 0,
        model::matches_at(s, p, k),
        forall|i: int| #[trigger] model::matches_at(s, p, i) ==> i == k,
    ensures
        model::count(s, p) == 1,
        model::find(s, p) == Some(k),
{
    model::lemma_find_at_is(s, p, 0, k);
    model::lemma_find_at_none(s, p, k + p.len());
    assert(model::count_at(s, p, k + p.len()) == 0);
}

/// With a single occurrence counted, nothing occurs anywhere else.
pub proof fn lemma_only_one(s: Seq<char>, p: Seq<char>)
    requires
        clean_marker(p),
        model::count(s, p) == 1,
    ensures
        model::find(s, p) is Some,
        forall|i: int| #[trigger] model::matches_at(s, p, i) ==> Some(i) == model::find(s, p),
{
    model::lemma_find_at(s, p, 0);
    let k = model::find(s, p)->0;
    model::lemma_find_at(s, p, k + p.len());
    assert forall|i: int| #[trigger] model::matches_at(s, p, i) implies i == k by {
        if i > k && i < k + p.len() {
            assert(s.subrange(i, i + p.len())[0] == s[i]);
            assert(s.subrange(k, k + p.len())[i - k] == s[i]);
        }
        if i >= k + p.len() {
            assert(model::count_at(s, p, k + p.len()) > 0) by {
                match model::find_at(s, p, k + p.len()) {
                    Some(j) => {},
                    None => {
                        assert(!model::matches_at(s, p, i));
                    },
                }
            }
        }
    }
}

/// The last `m` characters of a text with its line feeds replaced are those of the text, as long as
/// they hold no line feed.
proof fn lemma_replaced_tail(t: Seq<char>, eol: Seq<char>, m: int)
    requires
        is_eol(eol),
        ({
            let b = model::replace_char(t, '\n', eol);
            0 <= m <= b.len() && forall|i: int|
                b.len() - m <= i < b.len() ==> #[trigger] b[i] != '\n'
        }),
    ensures
        m <= t.len(),
        ({
            let b = model::replace_char(t, '\n', eol);
            b.subrange(b.len() - m, b.len() as int) == t.subrange(t.len() - m, t.len() as int)
        }),
    decreases t.len(),
{
    let b = model::replace_char(t, '\n', eol);
    if m > 0 {
        assert(t.len() > 0);
        let rest = t.drop_last();
        let b1 = model::replace_char(rest, '\n', eol);
        if t.last() == '\n' {
            assert(b == b1 + eol);
            assert(b[b.len() - 1] == '\n');
        } else {
            assert(b == b1.push(t.last()));
            assert forall|i: int| b1.len() - (m - 1) <= i < b1.len() implies #[trigger] b1[i]
                != '\n' by {
                assert(b1[i] == b[i]);
            }
            lemma_replaced_tail(rest, eol, m - 1);
            let x = b.subrange(b.len() - m, b.len() as int);
            let y = t.subrange(t.len() - m, t.len() as int);
            assert(x =~= b1.subrange(b1.len() - (m - 1), b1.len() as int).push(t.last()));
            assert(y =~= rest.subrange(rest.len() - (m - 1), rest.len() as int).push(t.last()));
        }
    } else {
        assert(b.subrange(b.len() - m, b.len() as int) =~= t.subrange(t.len() - m, t.len() as int));
    }
}

/// Changing line endings makes no marker.
pub proof fn lemma_replaced_free(t: Seq<char>, eol: Seq<char>, p: Seq<char>)
    requires
        is_eol(eol),
        clean_marker(p),
        free(t, p),
    ensures
        free(model::replace_char(t, '\n', eol), p),
    decreases t.len(),
{
    let b = model::replace_char(t, '\n', eol);
    if t.len() > 0 {
        let rest = t.drop_last();
        let b1 = model::replace_char(rest, '\n', eol);
        lemma_free_parts(t, p, t.len() - 1);
        assert(t.take(t.len() - 1) =~= rest);
        lemma_replaced_free(rest, eol, p);
        assert forall|i: int| !#[trigger] model::matches_at(b, p, i) by {
            if model::matches_at(b, p, i) {
                let w = b.subrange(i, i + p.len());
                if i + p.len() <= b1.len() {
                    assert(b1.subrange(i, i + p.len()) =~= w);
                    assert(model::matches_at(b1, p, i));
                } else if t.last() == '\n' {
                    assert(w[p.len() - 1] == b[i + p.len() - 1]);
                    assert(p[p.len() - 1] != '\r' && p[p.len() - 1] != '\n');
                } else {
                    assert(i + p.len() == b.len());
                    assert forall|j: int| b.len() - p.len() <= j < b.len() implies #[trigger] b[j]
                        != '\n' by {
                        assert(w[j - i] == b[j]);
                        assert(p[j - i] != '\n');
                    }
                    lemma_replaced_tail(t, eol, p.len() as int);
                    assert(model::matches_at(t, p, t.len() - p.len()));
                }
            }
        }
    } else {
        assert(b =~= seq![]);
    }
}

/// The body as it is written holds no marker if the body holds none.
pub proof fn lemma_body_text_free(body: Seq<char>, eol: Seq<char>, p: Seq<char>)
    requires
        is_eol(eol),
        clean_marker(p),
        free(body, p),
    ensures
        free(body_text(body, eol), p),
{
    model::lemma_back_over(body, CharSet::LineEnd, body.len() as int);
    lemma_free_parts(body, p, model::back_over(body, CharSet::LineEnd, body.len() as int));
    lemma_replaced_free(model::trim_end(body, CharSet::LineEnd), eol, p);
}

pub proof fn lemma_eol_around_free(x: Seq<char>, eol: Seq<char>, p: Seq<char>)
    requires
        is_eol(eol),
        clean_marker(p),
        free(x, p),
    ensures
        free(eol + x, p),
        free(x + eol, p),
        free(eol + x + eol, p),
{
    lemma_free_without_head(eol, p);
    assert(eol[0] == '\r' || eol[0] == '\n');
    assert(eol.last() == '\n');
    lemma_join(eol, x, p);
    lemma_join(x, eol, p);
    lemma_join(eol + x, eol, p);
}

/// A match around a marker lies before it, behind it, or begins where the marker does.
pub proof fn lemma_around_marker(x: Seq<char>, m: Seq<char>, y: Seq<char>, p: Seq<char>)
    requires
        clean_marker(m),
        clean_marker(p),
    ensures
        forall|i: int| #[trigger]
            model::matches_at(x + m + y, p, i) ==> model::matches_at(x, p, i) || i == x.len() || (i
                >= x.len() + m.len() && model::matches_at(y, p, i - x.len() - m.len())),
{
    let s = x + m + y;
    assert forall|i: int| #[trigger] model::matches_at(s, p, i) implies model::matches_at(x, p, i)
        || i == x.len() || (i >= x.len() + m.len() && model::matches_at(
        y,
        p,
        i - x.len() - m.len(),
    )) by {
        let w = s.subrange(i, i + p.len());
        if i + p.len() <= x.len() {
            assert(x.subrange(i, i + p.len()) =~= w);
        } else if i < x.len() {
            assert(w[x.len() - i] == m[0]);
            assert(p[x.len() - i] == '#');
        } else if x.len() < i && i < x.len() + m.len() {
            assert(w[0] == m[i - x.len()]);
        } else if i >= x.len() + m.len() {
            let k = i - x.len() - m.len();
            assert(y.subrange(k, k + p.len()) =~= w);
        }
    }
}

/// A block between texts without its markers is found as it stands.
pub proof fn lemma_found(
    pre: Seq<char>,
    begin: Seq<char>,
    mid: Seq<char>,
    end: Seq<char>,
    post: Seq<char>,
)
    requires
        marker_pair(begin, end),
        free(pre, begin),
        free(pre, end),
        free(mid, begin),
        free(mid, end),
        free(post, begin),
        free(post, end),
    ensures
        place(pre + begin + mid + end + post, begin, end) == (Place::Block {
            before: pre,
            block: mid,
            after: post,
        }),
{
    let s = pre + begin + mid + end + post;
    let n = (pre.len() + begin.len() + mid.len()) as int;
    lemma_unique(pre, begin, mid, end, post, begin);
    lemma_unique(pre, begin, mid, end, post, end);
    assert(s.subrange(pre.len() as int, (pre.len() + begin.len()) as int) =~= begin);
    assert(s.subrange(n, (n + end.len())) =~= end);
    assert(model::matches_at(s, begin, pre.len() as int));
    assert(model::matches_at(s, end, n));
    lemma_count_one(s, begin, pre.len() as int);
    lemma_count_one(s, end, n);
    model::lemma_find_at_is(s, end, (pre.len() + begin.len()) as int, n);
    assert(s.take(pre.len() as int) =~= pre);
    assert(s.subrange((pre.len() + begin.len()) as int, n) =~= mid);
    assert(s.skip(n + end.len()) =~= post);
}

/// Where a marker can occur in a text with one block.
proof fn lemma_unique(
    pre: Seq<char>,
    begin: Seq<char>,
    mid: Seq<char>,
    end: Seq<char>,
    post: Seq<char>,
    p: Seq<char>,
)
    requires
        marker_pair(begin, end),
        p == begin || p == end,
        free(pre, p),
        free(mid, p),
        free(post, p),
    ensures
        forall|i: int| #[trigger]
            model::matches_at(pre + begin + mid + end + post, p, i) ==> i == if p == begin {
                pre.len() as int
            } else {
                (pre.len() + begin.len() + mid.len()) as int
            },
{
    let s = pre + begin + mid + end + post;
    let rest = mid + end + post;
    let n = (pre.len() + begin.len() + mid.len()) as int;
    assert(s =~= pre + begin + rest);
    lemma_around_marker(pre, begin, rest, p);
    lemma_around_marker(mid, end, post, p);
    assert forall|i: int| #[trigger] model::matches_at(s, p, i) implies i == if p == begin {
        pre.len() as int
    } else {
        n
    } by {
        let w = s.subrange(i, i + p.len());
        assert(w[2] == s[i + 2]);
        if i == pre.len() {
            assert(s[i + 2] == begin[2]);
        } else {
            assert(model::matches_at(rest, p, i - pre.len() - begin.len()));
            assert(i == n);
            assert(s[i + 2] == end[2]);
        }
    }
}

/// A marker occurs in a marker only at its start, and only if both are of the same kind.
pub proof fn lemma_marker_in_marker(m: Seq<char>, p: Seq<char>)
    requires
        clean_marker(m),
        clean_marker(p),
    ensures
        forall|i: int| #[trigger] model::matches_at(m, p, i) ==> i == 0 && m[2] == p[2],
{
    assert forall|i: int| #[trigger] model::matches_at(m, p, i) implies i == 0 && m[2] == p[2] by {
        let w = m.subrange(i, i + p.len());
        assert(w[0] == m[i]);
        assert(w[2] == m[i + 2]);
    }
}

/// What surrounds a block once it is written: the texts before its start marker and behind its end
/// marker.
pub open spec fn frame(existing: Option<Seq<char>>, begin: Seq<char>, end: Seq<char>) -> (
    Seq<char>,
    Seq<char>,
) {
    match existing {
        None => (seq![], eol_of(seq![])),
        Some(content) => match place(content, begin, end) {
            Place::Block { before, block, after } => (healed(before), after),
            _ => match empty_array(content) {
                Some((before, after)) => (
                    before,
                    eol_of(content) + model::trim_start(after, CharSet::LineEnd),
                ),
                None => (opened(content, eol_of(content)), eol_of(content)),
            },
        },
    }
}

/// The line ending that a write to the file uses.
pub open spec fn file_eol(existing: Option<Seq<char>>) -> Seq<char> {
    match existing {
        None => eol_of(seq![]),
        Some(content) => eol_of(content),
    }
}

/// The placeholder takes up a line of its own and holds no `#`.
pub proof fn lemma_empty_array_parts(s: Seq<char>, from: int)
    requires
        0 <= from,
        from == 0 || from >= s.len() || s[from - 1] == '\n',
    ensures
        match empty_array_at(s, from) {
            Some((a, b)) => placeholder_cut(s, a, b),
            None => true,
        },
    decreases s.len() - from,
{
    if from < s.len() {
        let to = line_end(s, from);
        model::lemma_first_in(s, CharSet::Only('\n'), from);
        let line = s.subrange(from, to);
        if is_filler(line) {
            lemma_empty_array_parts(s, to);
        } else if model::trim(line) == "[]"@ {
            let k = CharSet::White;
            reveal_strlit("[]");
            lemma_trim_set(line, k);
            let (a, b) = choose|a: int, b: int|
                0 <= a <= b <= line.len() && model::trim(line) == #[trigger] line.subrange(a, b)
                    && (forall|j: int| 0 <= j < a ==> k.has(#[trigger] line[j])) && (forall|j: int|
                    b <= j < line.len() ==> k.has(#[trigger] line[j])) && (a < b ==> !k.has(line[a])
                    && !k.has(line[b - 1]));
            assert forall|j: int| from <= j < to implies #[trigger] s[j] != '#' by {
                assert(line[j - from] == s[j]);
                if a <= j - from < b {
                    assert(line.subrange(a, b)[j - from - a] == s[j]);
                }
            }
            assert(cut_at(s, s.take(from), s.skip(to), from, to));
        }
    }
}

/// `a` and `b` are what `s` holds before position `i` and from position `j` on, and between them
/// stands one line without a `#`.
pub open spec fn cut_at(s: Seq<char>, a: Seq<char>, b: Seq<char>, i: int, j: int) -> bool {
    &&& 0 <= i < j <= s.len()
    &&& a == s.take(i)
    &&& b == s.skip(j)
    &&& i == 0 || s[i - 1] == '\n'
    &&& j == s.len() || s[j - 1] == '\n'
    &&& forall|k: int| i <= k < j ==> #[trigger] s[k] != '#'
}

pub open spec fn placeholder_cut(s: Seq<char>, a: Seq<char>, b: Seq<char>) -> bool {
    exists|i: int, j: int| cut_at(s, a, b, i, j)
}

/// Texts on both sides of a placeholder make up no marker when they meet.
proof fn lemma_around_placeholder(s: Seq<char>, p: Seq<char>)
    requires
        clean_marker(p),
        free(s, p),
        empty_array(s) is Some,
    ensures
        free((empty_array(s)->0).0, p),
        free((empty_array(s)->0).1, p),
        free((empty_array(s)->0).0 + (empty_array(s)->0).1, p),
{
    lemma_empty_array_parts(s, 0);
    let (a, b) = empty_array(s)->0;
    let (i, j) = choose|i: int, j: int| cut_at(s, a, b, i, j);
    lemma_free_parts(s, p, i);
    lemma_free_parts(s, p, j);
    lemma_join(a, b, p);
}

pub proof fn lemma_trim_start_free(s: Seq<char>, p: Seq<char>)
    requires
        free(s, p),
    ensures
        free(model::trim_start(s, CharSet::LineEnd), p),
{
    model::lemma_first_not_in(s, CharSet::LineEnd, 0);
    lemma_free_parts(s, p, model::first_not_in(s, CharSet::LineEnd, 0));
}

/// The parts around a written block hold no marker of it.
proof fn lemma_frame_free(existing: Option<Seq<char>>, begin: Seq<char>, end: Seq<char>)
    requires
        marker_pair(begin, end),
        existing is Some ==> !(place(existing->0, begin, end) is Broken),
    ensures
        free(frame(existing, begin, end).0, begin),
        free(frame(existing, begin, end).0, end),
        free(frame(existing, begin, end).1, begin),
        free(frame(existing, begin, end).1, end),
{
    match existing {
        None => {
            lemma_eol(seq![]);
            lemma_free_without_head(seq![], begin);
            lemma_free_without_head(seq![], end);
            lemma_free_without_head(eol_of(seq![]), begin);
            lemma_free_without_head(eol_of(seq![]), end);
        },
        Some(content) => {
            lemma_eol(content);
            match place(content, begin, end) {
                Place::Block { before, block, after } => {
                    lemma_only_one(content, begin);
                    lemma_only_one(content, end);
                    let i = model::find(content, begin)->0;
                    let j = model::find_at(content, end, i + begin.len())->0;
                    model::lemma_find_at(content, begin, 0);
                    model::lemma_find_at(content, end, i + begin.len());
                    lemma_part_free(content, begin, i, 0, i);
                    lemma_part_free(content, end, j, 0, i);
                    lemma_part_free(content, begin, i, j + end.len(), content.len() as int);
                    lemma_part_free(content, end, j, j + end.len(), content.len() as int);
                    assert(content.take(i) =~= content.subrange(0, i));
                    assert(content.skip(j + end.len()) =~= content.subrange(
                        j + end.len(),
                        content.len() as int,
                    ));
                    if empty_array(before) is Some {
                        lemma_around_placeholder(before, begin);
                        lemma_around_placeholder(before, end);
                    }
                },
                Place::Broken(m) => {},
                Place::Absent => {
                    lemma_count_zero(content, begin);
                    lemma_count_zero(content, end);
                    match empty_array(content) {
                        Some((head, tail)) => {
                            let eol = eol_of(content);
                            lemma_around_placeholder(content, begin);
                            lemma_around_placeholder(content, end);
                            lemma_trim_start_free(tail, begin);
                            lemma_trim_start_free(tail, end);
                            let rest = model::trim_start(tail, CharSet::LineEnd);
                            lemma_eol_around_free(rest, eol, begin);
                            lemma_eol_around_free(rest, eol, end);
                        },
                        None => {
                            let eol = eol_of(content);
                            lemma_eol_around_free(content, eol, begin);
                            lemma_eol_around_free(content, eol, end);
                            lemma_eol_around_free(content + eol, eol, begin);
                            lemma_eol_around_free(content + eol, eol, end);
                            lemma_free_without_head(eol, begin);
                            lemma_free_without_head(eol, end);
                        },
                    }
                },
            }
        },
    }
}

/// A part of a text that leaves out the only occurrence of a marker holds none.
proof fn lemma_part_free(s: Seq<char>, p: Seq<char>, k: int, a: int, b: int)
    requires
        p.len() > 0,
        0 <= a <= b <= s.len(),
        forall|i: int| #[trigger] model::matches_at(s, p, i) ==> i == k,
        k < a || k + p.len() > b,
    ensures
        free(s.subrange(a, b), p),
{
    assert forall|i: int| !#[trigger] model::matches_at(s.subrange(a, b), p, i) by {
        if model::matches_at(s.subrange(a, b), p, i) {
            assert(s.subrange(a, b).subrange(i, i + p.len()) =~= s.subrange(a + i, a + i + p.len()));
            assert(model::matches_at(s, p, a + i));
        }
    }
}

pub proof fn lemma_place_block(content: Seq<char>, begin: Seq<char>, end: Seq<char>)
    requires
        marker_pair(begin, end),
    ensures
        match place(content, begin, end) {
            Place::Block { before, block, after } => content == before + begin + block + end + after
                && free(before, begin) && free(before, end) && free(after, begin) && free(
                after,
                end,
            ),
            _ => true,
        },
{
    if let Place::Block { before, block, after } = place(content, begin, end) {
        lemma_only_one(content, begin);
        lemma_only_one(content, end);
        let i = model::find(content, begin)->0;
        let j = model::find_at(content, end, i + begin.len())->0;
        model::lemma_find_at(content, begin, 0);
        model::lemma_find_at(content, end, i + begin.len());
        lemma_part_free(content, begin, i, 0, i);
        lemma_part_free(content, end, j, 0, i);
        lemma_part_free(content, begin, i, j + end.len(), content.len() as int);
        lemma_part_free(content, end, j, j + end.len(), content.len() as int);
        assert(content.take(i) =~= content.subrange(0, i));
        assert(content.skip(j + end.len()) =~= content.subrange(
            j + end.len(),
            content.len() as int,
        ));
        assert(content.subrange(i, i + begin.len()) == begin);
        assert(content.subrange(j, j + end.len()) == end);
        assert(content =~= before + begin + block + end + after);
    }
}

/// A block that was written is found again: between its markers stands the body with the file's
/// line endings, and around it what the file kept.
pub proof fn law_written_block_is_found(
    path: Seq<char>,
    existing: Option<Seq<char>>,
    begin: Seq<char>,
    end: Seq<char>,
    body: Seq<char>,
)
    requires
        marker_pair(begin, end),
        !model::blank(body),
        edited(path, existing, begin, end, Some(body)) is Ok,
        edited(path, existing, begin, end, Some(body))->Ok_0.written,
    ensures
        ({
            let eol = file_eol(existing);
            let content = edited(path, existing, begin, end, Some(body))->Ok_0.content;
            let (kept_before, kept_after) = frame(existing, begin, end);
            &&& content == Some(
                kept_before + block_text(begin, end, Some(body), eol) + kept_after,
            )
            &&& place(content->0, begin, end) == (Place::Block {
                before: kept_before,
                block: eol + body_text(body, eol) + eol,
                after: kept_after,
            })
        }),
{
    let eol = file_eol(existing);
    let (pre, post) = frame(existing, begin, end);
    let b = body_text(body, eol);
    let rendered = block_text(begin, end, Some(body), eol);
    match existing {
        None => lemma_eol(seq![]),
        Some(c) => lemma_eol(c),
    }
    lemma_count_zero(body, begin);
    lemma_count_zero(body, end);
    lemma_frame_free(existing, begin, end);
    lemma_body_text_free(body, eol, begin);
    lemma_body_text_free(body, eol, end);
    lemma_eol_around_free(b, eol, begin);
    lemma_eol_around_free(b, eol, end);
    let content = edited(path, existing, begin, end, Some(body))->Ok_0.content->0;
    assert(content =~= pre + rendered + post);
    assert(content =~= pre + begin + (eol + b + eol) + end + post);
    lemma_found(pre, begin, eol + b + eol, end, post);
}

/// What is left of a text behind which a marker stands keeps the text.
proof fn lemma_trim_end_marker(u: Seq<char>, m: Seq<char>)
    requires
        clean_marker(m),
    ensures
        model::trim_end(u + m, CharSet::White) == u + model::trim_end(m, CharSet::White),
{
    let k = CharSet::White;
    let s = u + m;
    model::lemma_back_over(m, k, m.len() as int);
    model::lemma_back_over(s, k, s.len() as int);
    let a = model::back_over(m, k, m.len() as int);
    let b = model::back_over(s, k, s.len() as int);
    assert(a > 0) by {
        if a == 0 {
            assert(k.has(m[0]));
        }
    }
    assert(s[u.len() + a - 1] == m[a - 1]);
    assert(b == u.len() + a) by {
        if b < u.len() + a {
            assert(k.has(s[u.len() + a - 1]));
        }
        if b > u.len() + a {
            assert(s[b - 1] == m[b - 1 - u.len()]);
        }
    }
    assert(s.take(b) =~= u + m.take(a));
}

/// After a write, whether it changed the file or not, the block holds the body with the file's line
/// endings.
pub proof fn law_block_holds_the_body(
    path: Seq<char>,
    existing: Option<Seq<char>>,
    begin: Seq<char>,
    end: Seq<char>,
    body: Seq<char>,
)
    requires
        marker_pair(begin, end),
        !model::blank(body),
        edited(path, existing, begin, end, Some(body)) is Ok,
    ensures
        ({
            let eol = file_eol(existing);
            let after = edited(path, existing, begin, end, Some(body))->Ok_0.content;
            &&& after is Some
            &&& place(after->0, begin, end) is Block
            &&& place(after->0, begin, end)->block == eol + body_text(body, eol) + eol
        }),
{
    let eol = file_eol(existing);
    let rendered = block_text(begin, end, Some(body), eol);
    assert(rendered.len() > 0);
    if edited(path, existing, begin, end, Some(body))->Ok_0.written {
        law_written_block_is_found(path, existing, begin, end, body);
    } else {
        let content = existing->0;
        let block = place(content, begin, end)->block;
        let mid = eol + body_text(body, eol) + eol;
        let t = model::trim_end(end, CharSet::White);
        assert(rendered =~= begin + mid + end);
        lemma_trim_end_marker(begin + block, end);
        lemma_trim_end_marker(begin + mid, end);
        let x = begin + block + t;
        let y = begin + mid + t;
        assert(x == y);
        assert(x.subrange(begin.len() as int, x.len() - t.len()) =~= block);
        assert(y.subrange(begin.len() as int, y.len() - t.len()) =~= mid);
    }
}

/// Writing the same body a second time changes nothing, as long as the first write left the file's
/// line ending style as it was.
pub proof fn law_second_write_changes_nothing(
    path: Seq<char>,
    existing: Option<Seq<char>>,
    begin: Seq<char>,
    end: Seq<char>,
    body: Seq<char>,
)
    requires
        marker_pair(begin, end),
        !model::blank(body),
        edited(path, existing, begin, end, Some(body)) is Ok,
        ({
            let after = edited(path, existing, begin, end, Some(body))->Ok_0.content;
            file_eol(after) == file_eol(existing)
        }),
    ensures
        ({
            let after = edited(path, existing, begin, end, Some(body))->Ok_0.content;
            edited(path, after, begin, end, Some(body)) == unchanged(after)
        }),
{
    if edited(path, existing, begin, end, Some(body))->Ok_0.written {
        law_written_block_is_found(path, existing, begin, end, body);
        let eol = file_eol(existing);
        let b = body_text(body, eol);
        match existing {
            None => lemma_eol(seq![]),
            Some(c) => lemma_eol(c),
        }
        let now = begin + (eol + b + eol) + end;
        let rendered = block_text(begin, end, Some(body), eol);
        assert(rendered =~= now);
    } else {
        match existing {
            None => {
                assert(block_text(begin, end, Some(body), eol_of(seq![])).len() > 0);
            },
            Some(content) => {},
        }
    }
}

/// Writing a block leaves every character around it in place, but for a placeholder `[]` that gives
/// way: a block that is there is replaced between the texts before and behind it, and a first block
/// follows all that the file holds.
pub proof fn law_text_around_a_block_is_kept(
    path: Seq<char>,
    content: Seq<char>,
    begin: Seq<char>,
    end: Seq<char>,
    body: Seq<char>,
)
    requires
        marker_pair(begin, end),
        edited(path, Some(content), begin, end, Some(body)) is Ok,
        !model::blank(body),
        match place(content, begin, end) {
            Place::Block { before, block, after } => empty_array(before) is None,
            _ => empty_array(content) is None,
        },
    ensures
        ({
            let now = edited(path, Some(content), begin, end, Some(body))->Ok_0.content->0;
            &&& place(now, begin, end) is Block
            &&& match place(content, begin, end) {
                Place::Block { before, block, after } => place(now, begin, end)->before == before
                    && place(now, begin, end)->after == after,
                _ => model::starts_with(place(now, begin, end)->before, content),
            }
        }),
{
    let eol = eol_of(content);
    let rendered = block_text(begin, end, Some(body), eol);
    let edit = edited(path, Some(content), begin, end, Some(body))->Ok_0;
    assert(rendered.len() > 0);
    if edit.written {
        law_written_block_is_found(path, Some(content), begin, end, body);
        let opened = opened(content, eol);
        assert(opened.subrange(0, content.len() as int) =~= content);
    }
}

/// What stands outside a family's block is the same after a write, where no placeholder `[]` is in
/// the way.
pub proof fn law_outside_is_kept(
    path: Seq<char>,
    content: Seq<char>,
    family: BlockFamily,
    body: Seq<char>,
)
    requires
        marker_pair(family.begin(), family.end()),
        place(content, family.begin(), family.end()) is Block,
        empty_array(place(content, family.begin(), family.end())->before) is None,
        !model::blank(body),
        edited(path, Some(content), family.begin(), family.end(), Some(body)) is Ok,
    ensures
        outside(
            edited(path, Some(content), family.begin(), family.end(), Some(body))->Ok_0.content->0,
            family,
        ) == outside(content, family),
{
    law_text_around_a_block_is_kept(path, content, family.begin(), family.end(), body);
}

/// What is read back after a write is the body with the file's line endings, trimmed.
pub proof fn law_read_after_write(
    path: Seq<char>,
    existing: Option<Seq<char>>,
    family: BlockFamily,
    body: Seq<char>,
)
    requires
        marker_pair(family.begin(), family.end()),
        !model::blank(body),
        edited(path, existing, family.begin(), family.end(), Some(body)) is Ok,
    ensures
        ({
            let eol = file_eol(existing);
            let after = edited(path, existing, family.begin(), family.end(), Some(body))->Ok_0.content;
            body_read(path, after, family) == Ok::<Option<Seq<char>>, Seq<char>>(
                Some(model::trim(eol + body_text(body, eol) + eol)),
            )
        }),
{
    law_block_holds_the_body(path, existing, family.begin(), family.end(), body);
}

/// Neither marker is a beginning of the other.
pub open spec fn apart(m: Seq<char>, n: Seq<char>) -> bool {
    !model::matches_at(m, n, 0) && !model::matches_at(n, m, 0)
}

/// Markers that differ in a character that both have are apart.
pub proof fn lemma_apart(m: Seq<char>, n: Seq<char>, i: int)
    requires
        0 <= i < m.len(),
        i < n.len(),
        m[i] != n[i],
    ensures
        apart(m, n),
        apart(n, m),
{
    if model::matches_at(m, n, 0) {
        assert(m.subrange(0, n.len() as int)[i] == m[i]);
    }
    if model::matches_at(n, m, 0) {
        assert(n.subrange(0, m.len() as int)[i] == n[i]);
    }
}

/// Every marker of one family is apart from every marker of another.
pub open spec fn families_apart(f: BlockFamily, g: BlockFamily) -> bool {
    &&& apart(f.begin(), g.begin())
    &&& apart(f.begin(), g.end())
    &&& apart(f.end(), g.begin())
    &&& apart(f.end(), g.end())
}

/// Every built-in family has a proper pair of markers, apart from those of the other.
pub proof fn law_built_in_markers_are_proper()
    ensures
        marker_pair(managed_family().begin(), managed_family().end()),
        marker_pair(shared_family().begin(), shared_family().end()),
        families_apart(managed_family(), shared_family()),
        families_apart(shared_family(), managed_family()),
{
    reveal_strlit("# >>> dsh-launcher managed ");
    reveal_strlit("# <<< dsh-launcher managed ");
    reveal_strlit("# >>> dsh-launcher shared ");
    reveal_strlit("# <<< dsh-launcher shared ");
    reveal_strlit("v1");
    reveal_strlit(" — 由启动器维护，请勿手工编辑 >>>");
    reveal_strlit(" <<<");
    let f = managed_family();
    let g = shared_family();
    assert(f.begin()[19] == 'm' && f.end()[19] == 'm');
    assert(g.begin()[19] == 's' && g.end()[19] == 's');
    lemma_apart(f.begin(), g.begin(), 19);
    lemma_apart(f.begin(), g.end(), 19);
    lemma_apart(f.end(), g.begin(), 19);
    lemma_apart(f.end(), g.end(), 19);
}

/// In a file with LF line endings a body is read back as it was written, but for white space
/// around it.
pub proof fn law_read_gives_back_the_body(
    path: Seq<char>,
    existing: Option<Seq<char>>,
    family: BlockFamily,
    body: Seq<char>,
)
    requires
        marker_pair(family.begin(), family.end()),
        !model::blank(body),
        file_eol(existing) == "\n"@,
        edited(path, existing, family.begin(), family.end(), Some(body)) is Ok,
    ensures
        ({
            let after = edited(path, existing, family.begin(), family.end(), Some(body))->Ok_0.content;
            body_read(path, after, family) == Ok::<Option<Seq<char>>, Seq<char>>(
                Some(model::trim(body)),
            )
        }),
{
    reveal_strlit("\n");
    assert("\n"@ =~= seq!['\n']);
    let eol = seq!['\n'];
    law_read_after_write(path, existing, family, body);
    let t = model::trim_end(body, CharSet::LineEnd);
    lemma_replace_same(t, '\n');
    lemma_trim_around(t, eol);
    lemma_trim_of_trim_end(body);
}

pub proof fn lemma_replace_same(s: Seq<char>, c: char)
    ensures
        model::replace_char(s, c, seq![c]) == s,
    decreases s.len(),
{
    if s.len() > 0 {
        lemma_replace_same(s.drop_last(), c);
        assert(s.drop_last() + seq![s.last()] =~= s);
        assert(s.drop_last().push(s.last()) =~= s);
    } else {
        assert(model::replace_char(s, c, seq![c]) =~= s);
    }
}

/// What is left after trimming: from the first to the last character outside the set.
pub open spec fn trimmed_to(s: Seq<char>, k: CharSet, t: Seq<char>) -> bool {
    exists|a: int, b: int|
        0 <= a <= b <= s.len() && t == #[trigger] s.subrange(a, b) && (forall|j: int|
            0 <= j < a ==> k.has(#[trigger] s[j])) && (forall|j: int|
            b <= j < s.len() ==> k.has(#[trigger] s[j])) && (a < b ==> !k.has(s[a]) && !k.has(
            s[b - 1],
        ))
}

pub proof fn lemma_trim_set(s: Seq<char>, k: CharSet)
    ensures
        trimmed_to(s, k, model::trim_set(s, k)),
{
    model::lemma_first_not_in(s, k, 0);
    let a = model::first_not_in(s, k, 0);
    let u = model::trim_start(s, k);
    model::lemma_back_over(u, k, u.len() as int);
    let n = model::back_over(u, k, u.len() as int);
    let b = a + n;
    assert(u.take(n) =~= s.subrange(a, b));
    assert forall|j: int| b <= j < s.len() implies k.has(#[trigger] s[j]) by {
        assert(u[j - a] == s[j]);
    }
    if a < b {
        assert(u[n - 1] == s[b - 1]);
    }
}

/// Two ways to drop characters of `k` from both ends leave the same.
proof fn lemma_trimmed_unique(s: Seq<char>, k: CharSet, t: Seq<char>, u: Seq<char>)
    requires
        trimmed_to(s, k, t),
        trimmed_to(s, k, u),
    ensures
        t == u,
{
    let (a, b) = choose|a: int, b: int|
        0 <= a <= b <= s.len() && t == #[trigger] s.subrange(a, b) && (forall|j: int|
            0 <= j < a ==> k.has(#[trigger] s[j])) && (forall|j: int|
            b <= j < s.len() ==> k.has(#[trigger] s[j])) && (a < b ==> !k.has(s[a]) && !k.has(
            s[b - 1],
        ));
    let (c, d) = choose|a: int, b: int|
        0 <= a <= b <= s.len() && u == #[trigger] s.subrange(a, b) && (forall|j: int|
            0 <= j < a ==> k.has(#[trigger] s[j])) && (forall|j: int|
            b <= j < s.len() ==> k.has(#[trigger] s[j])) && (a < b ==> !k.has(s[a]) && !k.has(
            s[b - 1],
        ));
    if a < b && c < d {
        assert(a == c && b == d);
    } else if a < b {
        assert(!k.has(s[a]));
        assert(a < c || a >= d);
    } else if c < d {
        assert(!k.has(s[c]));
        assert(c < a || c >= b);
    } else {
        assert(t =~= u);
    }
}

/// Line endings around a text do not change what is left after trimming white space.
proof fn lemma_trim_around(t: Seq<char>, eol: Seq<char>)
    requires
        is_eol(eol),
    ensures
        model::trim(eol + t + eol) == model::trim(t),
{
    let k = CharSet::White;
    let s = eol + t + eol;
    lemma_trim_set(t, k);
    let (a, b) = choose|a: int, b: int|
        0 <= a <= b <= t.len() && model::trim(t) == #[trigger] t.subrange(a, b) && (forall|j: int|
            0 <= j < a ==> k.has(#[trigger] t[j])) && (forall|j: int|
            b <= j < t.len() ==> k.has(#[trigger] t[j])) && (a < b ==> !k.has(t[a]) && !k.has(
            t[b - 1],
        ));
    let n = eol.len() as int;
    assert(model::white('\n') && model::white('\r'));
    assert(s.subrange(a + n, b + n) =~= t.subrange(a, b));
    assert forall|j: int| 0 <= j < a + n implies k.has(#[trigger] s[j]) by {
        if j >= n {
            assert(s[j] == t[j - n]);
        }
    }
    assert forall|j: int| b + n <= j < s.len() implies k.has(#[trigger] s[j]) by {
        if j < n + t.len() {
            assert(s[j] == t[j - n]);
        }
    }
    if a < b {
        assert(s[a + n] == t[a]);
        assert(s[b + n - 1] == t[b - 1]);
    }
    assert(trimmed_to(s, k, model::trim(t)));
    lemma_trim_set(s, k);
    lemma_trimmed_unique(s, k, model::trim(s), model::trim(t));
}

proof fn lemma_trim_of_trim_end(body: Seq<char>)
    ensures
        model::trim(model::trim_end(body, CharSet::LineEnd)) == model::trim(body),
{
    let k = CharSet::White;
    model::lemma_back_over(body, CharSet::LineEnd, body.len() as int);
    let n = model::back_over(body, CharSet::LineEnd, body.len() as int);
    let t = model::trim_end(body, CharSet::LineEnd);
    lemma_trim_set(t, k);
    let (a, b) = choose|a: int, b: int|
        0 <= a <= b <= t.len() && model::trim(t) == #[trigger] t.subrange(a, b) && (forall|j: int|
            0 <= j < a ==> k.has(#[trigger] t[j])) && (forall|j: int|
            b <= j < t.len() ==> k.has(#[trigger] t[j])) && (a < b ==> !k.has(t[a]) && !k.has(
            t[b - 1],
        ));
    assert(body.subrange(a, b) =~= t.subrange(a, b));
    assert forall|j: int| 0 <= j < a implies k.has(#[trigger] body[j]) by {
        assert(body[j] == t[j]);
    }
    assert forall|j: int| b <= j < body.len() implies k.has(#[trigger] body[j]) by {
        if j < n {
            assert(body[j] == t[j]);
        }
    }
    if a < b {
        assert(body[a] == t[a] && body[b - 1] == t[b - 1]);
    }
    assert(trimmed_to(body, k, model::trim(t)));
    lemma_trim_set(body, k);
    lemma_trimmed_unique(body, k, model::trim(body), model::trim(t));
}

/// Removing a block leaves a file without it, and removing it again changes nothing, unless the
/// text before the block and the text after it make up a marker where they meet.
pub proof fn law_removed_block_is_gone(
    path: Seq<char>,
    content: Seq<char>,
    begin: Seq<char>,
    end: Seq<char>,
)
    requires
        marker_pair(begin, end),
        place(content, begin, end) is Block,
        !model::blank(place(content, begin, end)->block),
        ({
            let before = place(content, begin, end)->before;
            let rest = model::trim_start(place(content, begin, end)->after, CharSet::LineEnd);
            splits(before, rest, begin) && splits(before, rest, end)
        }),
    ensures
        edited(path, Some(content), begin, end, None) is Ok,
        edited(path, Some(content), begin, end, None)->Ok_0.written,
        ({
            let after = edited(path, Some(content), begin, end, None)->Ok_0.content;
            &&& place(after->0, begin, end) is Absent
            &&& edited(path, after, begin, end, None) == unchanged(after)
        }),
{
    let before = place(content, begin, end)->before;
    let behind = place(content, begin, end)->after;
    let joined = before + model::trim_start(behind, CharSet::LineEnd);
    let eol = eol_of(content);
    lemma_eol(content);
    lemma_place_block(content, begin, end);
    lemma_trim_start_free(behind, begin);
    lemma_trim_start_free(behind, end);
    assert(free(joined, begin) && free(joined, end));
    let after = refilled(joined, eol);
    reveal_strlit("[]\n");
    lemma_count_zero(joined, begin);
    lemma_count_zero(joined, end);
    lemma_refilled_free(joined, eol, begin);
    lemma_refilled_free(joined, eol, end);
    lemma_count_zero(after, begin);
    lemma_count_zero(after, end);
}

proof fn lemma_refilled_free(s: Seq<char>, eol: Seq<char>, p: Seq<char>)
    requires
        is_eol(eol),
        clean_marker(p),
        free(s, p),
    ensures
        free(refilled(s, eol), p),
{
    reveal_strlit("[]\n");
    reveal_strlit("\n");
    let fill = "[]\n"@;
    lemma_free_without_head(fill, p);
    lemma_eol_around_free(s, eol, p);
    if s.len() > 0 && model::ends_with(s, "\n"@) {
        assert(s.subrange(s.len() - 1, s.len() as int)[0] == s.last());
        assert("\n"@[0] == '\n');
        lemma_join(s, fill, p);
    }
    assert((s + eol).last() == '\n');
    lemma_join(s + eol, fill, p);
}

/// A body that holds one of its own markers is refused, whatever the file holds.
pub proof fn law_marker_in_body_is_refused(
    path: Seq<char>,
    existing: Option<Seq<char>>,
    begin: Seq<char>,
    end: Seq<char>,
    body: Seq<char>,
)
    requires
        model::contains(body, begin) || model::contains(body, end),
    ensures
        edited(path, existing, begin, end, Some(body)) is Err,
{
}

/// A single-quoted scalar gives its value back once the quotes around it are dropped and the
/// doubled ones inside are halved.
pub proof fn law_quoted_values_are_read_back(a: Seq<char>)
    ensures
        quoted(a).len() >= 2,
        model::replace(quoted(a).subrange(1, quoted(a).len() - 1), "''"@, "'"@) == a,
{
    reveal_strlit("'");
    reveal_strlit("''");
    let q = seq!['\'', '\''];
    assert("''"@ =~= q);
    assert("'"@ =~= seq!['\'']);
    let x = model::replace_char(a, '\'', q);
    assert(quoted(a).subrange(1, quoted(a).len() - 1) =~= x);
    assert(model::replace_char(a.take(0), '\'', q) =~= seq![]) by {
        assert(a.take(0) =~= seq![]);
    }
    lemma_halving(a, 0);
    assert(a.skip(0) =~= a);
}

/// The doubled text of the first `k` characters, where halving has got to.
proof fn lemma_doubled_prefix(a: Seq<char>, k: int)
    requires
        0 <= k < a.len(),
    ensures
        ({
            let q = seq!['\'', '\''];
            let x = model::replace_char(a, '\'', q);
            let n = model::replace_char(a.take(k), '\'', q).len() as int;
            let next = model::replace_char(a.take(k + 1), '\'', q).len() as int;
            &&& next <= x.len()
            &&& next == n + if a[k] == '\'' {
                2int
            } else {
                1int
            }
            &&& x[n] == a[k]
            &&& a[k] == '\'' ==> x[n + 1] == '\''
        }),
{
    let q = seq!['\'', '\''];
    let x = model::replace_char(a, '\'', q);
    let one = a.take(k + 1);
    let head = model::replace_char(one, '\'', q);
    let tail = model::replace_char(a.skip(k + 1), '\'', q);
    assert(one.drop_last() =~= a.take(k));
    assert(a =~= one + a.skip(k + 1));
    lemma_replace_concat(one, a.skip(k + 1), '\'', q);
    assert(x == head + tail);
    let n = model::replace_char(a.take(k), '\'', q).len() as int;
    assert(head[n] == a[k]);
    assert(x[n] == head[n]);
    if a[k] == '\'' {
        assert(head[n + 1] == '\'');
        assert(x[n + 1] == head[n + 1]);
    }
}

/// From where the doubled text of the first `k` characters ends, the first doubled quote is that of
/// the first quote from position `k` on.
proof fn lemma_next_doubled(a: Seq<char>, k: int)
    requires
        0 <= k <= a.len(),
    ensures
        ({
            let q = seq!['\'', '\''];
            let x = model::replace_char(a, '\'', q);
            let n = model::replace_char(a.take(k), '\'', q).len() as int;
            let m = model::first_in(a, CharSet::Only('\''), k);
            &&& k <= m <= a.len()
            &&& n + (m - k) <= x.len()
            &&& x.subrange(n, n + (m - k)) == a.subrange(k, m)
            &&& if m < a.len() {
                &&& model::find_at(x, q, n) == Some(n + (m - k))
                &&& model::replace_char(a.take(m + 1), '\'', q).len() == n + (m - k) + 2
                &&& n + (m - k) + 2 <= x.len()
            } else {
                model::find_at(x, q, n) is None && n + (m - k) == x.len()
            }
        }),
    decreases a.len() - k,
{
    let q = seq!['\'', '\''];
    let x = model::replace_char(a, '\'', q);
    let n = model::replace_char(a.take(k), '\'', q).len() as int;
    if k == a.len() {
        assert(a.take(k) =~= a);
        assert(x.subrange(n, n) =~= a.subrange(k, k));
        model::lemma_find_at_none(x, q, n);
    } else {
        lemma_doubled_prefix(a, k);
        if a[k] == '\'' {
            assert(x.subrange(n, n + 2) =~= q);
            assert(x.subrange(n, n) =~= a.subrange(k, k));
        } else {
            lemma_next_doubled(a, k + 1);
            let m = model::first_in(a, CharSet::Only('\''), k);
            assert(m == model::first_in(a, CharSet::Only('\''), k + 1));
            let rest = x.subrange(n + 1, n + 1 + (m - k - 1));
            assert(x.subrange(n, n + (m - k)) =~= seq![x[n]] + rest);
            assert(a.subrange(k, m) =~= seq![a[k]] + a.subrange(k + 1, m));
            assert(!model::matches_at(x, q, n)) by {
                if model::matches_at(x, q, n) {
                    assert(x.subrange(n, n + 2)[0] == x[n]);
                }
            }
        }
    }
}

proof fn lemma_halving(a: Seq<char>, k: int)
    requires
        0 <= k <= a.len(),
    ensures
        ({
            let q = seq!['\'', '\''];
            model::replace_at(
                model::replace_char(a, '\'', q),
                q,
                seq!['\''],
                model::replace_char(a.take(k), '\'', q).len() as int,
            ) == a.skip(k)
        }),
    decreases a.len() - k,
{
    let q = seq!['\'', '\''];
    let x = model::replace_char(a, '\'', q);
    let n = model::replace_char(a.take(k), '\'', q).len() as int;
    let m = model::first_in(a, CharSet::Only('\''), k);
    lemma_next_doubled(a, k);
    if m < a.len() {
        model::lemma_first_in(a, CharSet::Only('\''), k);
        lemma_halving(a, m + 1);
        assert(a.subrange(k, m) + seq!['\''] + a.skip(m + 1) =~= a.skip(k));
    } else {
        assert(x.skip(n) =~= x.subrange(n, x.len() as int));
        assert(a.subrange(k, m) =~= a.skip(k));
    }
}

/// Two values never look alike once they are quoted.
pub proof fn law_quoting_is_injective(a: Seq<char>, b: Seq<char>)
    requires
        quoted(a) == quoted(b),
    ensures
        a == b,
{
    law_quoted_values_are_read_back(a);
    law_quoted_values_are_read_back(b);
}

// ---- The order of row ids ----

/// The rows stand in strictly ascending order of their ids.
pub open spec fn ordered(rows: Seq<EntryText>) -> bool {
    forall|i: int, j: int|
        0 <= i < j < rows.len() ==> model::precedes(#[trigger] rows[i].id, #[trigger] rows[j].id)
}

/// The row with the given id.
pub open spec fn row_with(rows: Seq<EntryText>, id: Seq<char>) -> Option<EntryText> {
    let i = rank(rows, id);
    if i < rows.len() && rows[i].id == id {
        Some(rows[i])
    } else {
        None
    }
}

/// The last element of `s` with the given id.
pub open spec fn last_with(s: Seq<EntryText>, id: Seq<char>) -> Option<EntryText>
    decreases s.len(),
{
    if s.len() == 0 {
        None
    } else if s.last().id == id {
        Some(s.last())
    } else {
        last_with(s.drop_last(), id)
    }
}

proof fn lemma_rank_at(rows: Seq<EntryText>, i: int)
    requires
        ordered(rows),
        0 <= i < rows.len(),
    ensures
        rank(rows, rows[i].id) == i,
        row_with(rows, rows[i].id) == Some(rows[i]),
{
    lemma_precedes_total(rows[i].id, rows[i].id);
    lemma_rank_is(rows, rows[i].id, i);
}

proof fn lemma_put(rows: Seq<EntryText>, e: EntryText, over: bool)
    requires
        ordered(rows),
    ensures
        ordered(put(rows, e, over)),
        forall|id: Seq<char>| #[trigger]
            row_with(put(rows, e, over), id) == if id == e.id && (over || row_with(rows, id)
                is None) {
                Some(e)
            } else {
                row_with(rows, id)
            },
{
    let n = rank(rows, e.id);
    let out = put(rows, e, over);
    lemma_rank(rows, e.id);
    let known = n < rows.len() && rows[n].id == e.id;
    if !known {
        assert forall|j: int| n <= j < rows.len() implies model::precedes(
            e.id,
            #[trigger] rows[j].id,
        ) by {
            lemma_precedes_total(e.id, rows[n].id);
            if j > n {
                lemma_precedes_transitive(e.id, rows[n].id, rows[j].id);
            }
        }
        assert forall|i: int, j: int| 0 <= i < j < out.len() implies model::precedes(
            #[trigger] out[i].id,
            #[trigger] out[j].id,
        ) by {
            let a = if i < n {
                i
            } else {
                i - 1
            };
            let b = if j < n {
                j
            } else {
                j - 1
            };
            if i != n {
                assert(out[i] == rows[a]);
            }
            if j != n {
                assert(out[j] == rows[b]);
            }
        }
    }
    assert(ordered(out));
    assert forall|id: Seq<char>| #[trigger] row_with(out, id) == if id == e.id && (over || row_with(
        rows,
        id,
    ) is None) {
        Some(e)
    } else {
        row_with(rows, id)
    } by {
        lemma_rank(rows, id);
        lemma_rank(out, id);
        if row_with(rows, id) is Some {
            let i = rank(rows, id);
            let j = if !known && i >= n {
                i + 1
            } else {
                i
            };
            if known && i == n && over {
                assert(out[n] == e);
                lemma_rank_at(out, n);
            } else {
                assert(out[j] == rows[i]);
                lemma_rank_at(out, j);
            }
        } else if id == e.id {
            assert(!known);
            assert(out[n] == e);
            lemma_rank_at(out, n);
        } else if row_with(out, id) is Some {
            let j = rank(out, id);
            let i = if !known && j > n {
                j - 1
            } else {
                j
            };
            assert(j != n || known);
            assert(out[j].id == rows[i].id);
            lemma_rank_at(rows, i);
        }
    }
}

proof fn lemma_without(rows: Seq<EntryText>, gone: Seq<char>)
    requires
        ordered(rows),
    ensures
        ordered(without(rows, gone)),
        forall|id: Seq<char>| #[trigger]
            row_with(without(rows, gone), id) == if id == gone {
                None
            } else {
                row_with(rows, id)
            },
{
    let n = rank(rows, gone);
    let out = without(rows, gone);
    lemma_rank(rows, gone);
    let known = n < rows.len() && rows[n].id == gone;
    if known {
        assert forall|i: int, j: int| 0 <= i < j < out.len() implies model::precedes(
            #[trigger] out[i].id,
            #[trigger] out[j].id,
        ) by {
            assert(out[i] == rows[if i < n { i } else { i + 1 }]);
            assert(out[j] == rows[if j < n { j } else { j + 1 }]);
        }
    }
    assert forall|id: Seq<char>| #[trigger] row_with(out, id) == if id == gone {
        None
    } else {
        row_with(rows, id)
    } by {
        lemma_rank(rows, id);
        lemma_rank(out, id);
        if row_with(out, id) is Some {
            let j = rank(out, id);
            let i = if known && j >= n {
                j + 1
            } else {
                j
            };
            assert(out[j] == rows[i]);
            lemma_rank_at(rows, i);
        } else if row_with(rows, id) is Some && id != gone {
            let i = rank(rows, id);
            let j = if known && i > n {
                i - 1
            } else {
                i
            };
            assert(out[j] == rows[i]);
            lemma_rank_at(out, j);
        }
    }
}

proof fn lemma_put_all(rows: Seq<EntryText>, new: Seq<EntryText>)
    requires
        ordered(rows),
    ensures
        ordered(put_all(rows, new, true)),
        forall|id: Seq<char>| #[trigger]
            row_with(put_all(rows, new, true), id) == match last_with(new, id) {
                Some(e) => Some(e),
                None => row_with(rows, id),
            },
    decreases new.len(),
{
    if new.len() > 0 {
        lemma_put_all(rows, new.drop_last());
        lemma_put(put_all(rows, new.drop_last(), true), new.last(), true);
    }
}

proof fn lemma_without_all(rows: Seq<EntryText>, ids: Seq<Seq<char>>)
    requires
        ordered(rows),
    ensures
        ordered(without_all(rows, ids)),
        forall|id: Seq<char>| #[trigger]
            row_with(without_all(rows, ids), id) == if ids.contains(id) {
                None
            } else {
                row_with(rows, id)
            },
    decreases ids.len(),
{
    if ids.len() > 0 {
        let rest = ids.drop_last();
        lemma_without_all(rows, rest);
        lemma_without(without_all(rows, rest), ids.last());
        assert forall|id: Seq<char>| #[trigger] row_with(without_all(rows, ids), id)
            == if ids.contains(id) {
            None
        } else {
            row_with(rows, id)
        } by {
            let prior = row_with(without_all(rows, rest), id);
            if ids.contains(id) && id != ids.last() {
                let i = choose|i: int| 0 <= i < ids.len() && ids[i] == id;
                assert(rest[i] == id);
            }
            if rest.contains(id) {
                let i = choose|i: int| 0 <= i < rest.len() && rest[i] == id;
                assert(ids[i] == id);
            }
        }
    }
}

/// After an upsert a row that was updated is the last update of its id, a row that was removed and
/// not updated is gone, and every other row is as it was; the rows stand in the order of their ids.
pub proof fn law_upsert(
    existing: Seq<EntryText>,
    updates: Seq<EntryText>,
    remove_ids: Seq<Seq<char>>,
    id: Seq<char>,
)
    ensures
        ordered(upserted(existing, updates, remove_ids)),
        row_with(upserted(existing, updates, remove_ids), id) == match last_with(updates, id) {
            Some(e) => Some(e),
            None => if remove_ids.contains(id) {
                None
            } else {
                last_with(existing, id)
            },
        },
{
    let start = put_all(seq![], existing, true);
    lemma_put_all(seq![], existing);
    lemma_without_all(start, remove_ids);
    lemma_put_all(without_all(start, remove_ids), updates);
    assert(row_with(put_all(seq![], existing, true), id) == match last_with(existing, id) {
        Some(e) => Some(e),
        None => row_with(seq![], id),
    });
    assert(row_with(without_all(start, remove_ids), id) == if remove_ids.contains(id) {
        None
    } else {
        row_with(start, id)
    });
}

/// The rows of a block stand in the order of their ids, each id once, and are those that were
/// given.
pub proof fn law_rows_are_ordered(entries: Seq<EntryText>)
    ensures
        ordered(sorted_rows(entries)),
        forall|i: int| #![trigger sorted_rows(entries)[i]]
            0 <= i < sorted_rows(entries).len() ==> entries.contains(sorted_rows(entries)[i]),
        forall|k: int| #![trigger entries[k]]
            0 <= k < entries.len() ==> row_with(sorted_rows(entries), entries[k].id) is Some,
    decreases entries.len(),
{
    if entries.len() > 0 {
        let rest = entries.drop_last();
        let rows = sorted_rows(rest);
        law_rows_are_ordered(rest);
        lemma_put(rows, entries.last(), false);
        let out = sorted_rows(entries);
        let n = rank(rows, entries.last().id);
        lemma_rank(rows, entries.last().id);
        assert forall|i: int| #![trigger out[i]] 0 <= i < out.len() implies entries.contains(
            out[i],
        ) by {
            if !(n < rows.len() && rows[n].id == entries.last().id) && i == n {
                assert(entries[entries.len() - 1] == out[i]);
            } else {
                let j = if n < rows.len() && rows[n].id == entries.last().id {
                    i
                } else if i < n {
                    i
                } else {
                    i - 1
                };
                assert(out[i] == rows[j]);
                assert(rest.contains(rows[j]));
                let k = choose|k: int| 0 <= k < rest.len() && rest[k] == rows[j];
                assert(entries[k] == out[i]);
            }
        }
        assert forall|k: int| #![trigger entries[k]] 0 <= k < entries.len() implies row_with(
            out,
            entries[k].id,
        ) is Some by {
            if k < rest.len() {
                assert(rest[k] == entries[k]);
            }
        }
    }
}

/// Ascending rows are told by which rows they are.
proof fn lemma_ordered_same(x: Seq<EntryText>, y: Seq<EntryText>)
    requires
        ordered(x),
        ordered(y),
        forall|e: EntryText| x.contains(e) <==> y.contains(e),
    ensures
        x == y,
    decreases x.len(),
{
    if x.len() == 0 {
        if y.len() > 0 {
            assert(y.contains(y[0]));
        }
        assert(x =~= y);
    } else {
        assert(x.contains(x.last()));
        let i = choose|i: int| 0 <= i < y.len() && y[i] == x.last();
        assert(y.contains(y.last()));
        let j = choose|j: int| 0 <= j < x.len() && x[j] == y.last();
        assert(i == y.len() - 1) by {
            if i < y.len() - 1 {
                assert(model::precedes(y[i].id, y[y.len() - 1].id));
                if j < x.len() - 1 {
                    assert(model::precedes(x[j].id, x[x.len() - 1].id));
                    lemma_precedes_transitive(x.last().id, y.last().id, x.last().id);
                }
                lemma_precedes_total(x.last().id, x.last().id);
            }
        }
        let u = x.drop_last();
        let v = y.drop_last();
        assert(ordered(u) && ordered(v));
        lemma_precedes_total(x.last().id, x.last().id);
        assert forall|e: EntryText| u.contains(e) <==> v.contains(e) by {
            if u.contains(e) {
                let k = choose|k: int| 0 <= k < u.len() && u[k] == e;
                assert(x[k] == e && model::precedes(x[k].id, x[x.len() - 1].id));
                assert(x.contains(e));
                let m = choose|m: int| 0 <= m < y.len() && y[m] == e;
                assert(m != y.len() - 1);
                assert(v[m] == e);
            }
            if v.contains(e) {
                let k = choose|k: int| 0 <= k < v.len() && v[k] == e;
                assert(y[k] == e && model::precedes(y[k].id, y[y.len() - 1].id));
                assert(y.contains(e));
                let m = choose|m: int| 0 <= m < x.len() && x[m] == e;
                assert(m != x.len() - 1);
                assert(u[m] == e);
            }
        }
        lemma_ordered_same(u, v);
        assert(x =~= u.push(x.last()));
        assert(y =~= v.push(y.last()));
    }
}

/// No two entries have the same id.
pub open spec fn distinct_ids(entries: Seq<EntryText>) -> bool {
    forall|i: int, j: int|
        0 <= i < entries.len() && 0 <= j < entries.len() && (#[trigger] entries[i]).id == (
        #[trigger] entries[j]).id ==> i == j
}

pub proof fn lemma_sorted_holds(entries: Seq<EntryText>, e: EntryText)
    requires
        distinct_ids(entries),
    ensures
        sorted_rows(entries).contains(e) <==> entries.contains(e),
{
    law_rows_are_ordered(entries);
    let rows = sorted_rows(entries);
    if entries.contains(e) {
        let k = choose|k: int| 0 <= k < entries.len() && entries[k] == e;
        let n = rank(rows, entries[k].id);
        assert(row_with(rows, entries[k].id) is Some);
        lemma_rank(rows, entries[k].id);
        assert(entries.contains(rows[n]));
        let m = choose|m: int| 0 <= m < entries.len() && entries[m] == rows[n];
        assert(entries[m].id == entries[k].id);
        assert(rows[n] == e);
    }
    if rows.contains(e) {
        let n = choose|n: int| 0 <= n < rows.len() && rows[n] == e;
        assert(entries.contains(rows[n]));
    }
}

/// Rendering does not depend on the order in which distinct rows are given.
pub proof fn law_row_order_does_not_count(
    a: Seq<EntryText>,
    b: Seq<EntryText>,
    eol: Seq<char>,
)
    requires
        distinct_ids(a),
        distinct_ids(b),
        forall|e: EntryText| a.contains(e) <==> b.contains(e),
    ensures
        sorted_rows(a) == sorted_rows(b),
        managed_body(a, eol) == managed_body(b, eol),
{
    law_rows_are_ordered(a);
    law_rows_are_ordered(b);
    assert forall|e: EntryText| sorted_rows(a).contains(e) <==> sorted_rows(b).contains(e) by {
        lemma_sorted_holds(a, e);
        lemma_sorted_holds(b, e);
    }
    lemma_ordered_same(sorted_rows(a), sorted_rows(b));
}

} // verus!
