//! Facts about the text operations that proofs elsewhere build on.

use crate::model;
use crate::model::CharSet;
use vstd::prelude::*;

verus! {

pub proof fn lemma_first_in_shift(s: Seq<char>, k: CharSet, by: int, from: int)
    requires
        0 <= by <= s.len(),
        0 <= from <= s.len() - by,
    ensures
        model::first_in(s, k, by + from) == by + model::first_in(s.skip(by), k, from),
    decreases s.len() - by - from,
{
    if by + from < s.len() {
        assert(s.skip(by)[from] == s[by + from]);
        if !k.has(s[by + from]) {
            lemma_first_in_shift(s, k, by, from + 1);
        }
    }
}

/// Lines from a position on are the lines of the rest.
pub proof fn lemma_lines_at(s: Seq<char>, by: int, from: int)
    requires
        0 <= by <= s.len(),
        0 <= from <= s.len() - by,
    ensures
        model::lines_at(s, by + from) == model::lines_at(s.skip(by), from),
    decreases s.len() - by - from,
{
    let k = CharSet::Only('\n');
    if by + from < s.len() {
        lemma_first_in_shift(s, k, by, from);
        model::lemma_first_in(s, k, by + from);
        let n = model::first_in(s, k, by + from);
        assert(s.skip(by).skip(from) =~= s.skip(by + from));
        if n < s.len() {
            assert(s.skip(by).subrange(from, n - by) =~= s.subrange(by + from, n));
            lemma_lines_at(s, by, n - by + 1);
        }
    }
}

/// Where the first text ends in a line feed, the lines of two texts are the lines of the one
/// followed by the lines of the other.
pub proof fn lemma_lines_append(x: Seq<char>, y: Seq<char>)
    requires
        x.len() == 0 || x.last() == '\n',
    ensures
        model::lines(x + y) == model::lines(x) + model::lines(y),
    decreases x.len(),
{
    let k = CharSet::Only('\n');
    if x.len() == 0 {
        assert(x + y =~= y);
        assert(model::lines(x) + model::lines(y) =~= model::lines(y));
    } else {
        model::lemma_first_in(x, k, 0);
        let n = model::first_in(x, k, 0);
        if n == x.len() {
            assert(!k.has(x[x.len() - 1]));
        }
        let s = x + y;
        lemma_first_in_prefix(x, y, k, 0);
        let rest = x.skip(n + 1);
        if rest.len() > 0 {
            assert(rest.last() == x.last());
        }
        lemma_lines_append(rest, y);
        lemma_lines_at(x, n + 1, 0);
        lemma_lines_at(s, n + 1, 0);
        assert(s.skip(n + 1) =~= rest + y);
        assert(s.subrange(0, n) =~= x.subrange(0, n));
        let head = seq![model::drop_cr(x.subrange(0, n))];
        assert(head + (model::lines(rest) + model::lines(y)) =~= (head + model::lines(rest))
            + model::lines(y));
    }
}

/// A set's first character in a text is also the first in any longer text.
pub proof fn lemma_first_in_prefix(x: Seq<char>, y: Seq<char>, k: CharSet, from: int)
    requires
        0 <= from <= x.len(),
        model::first_in(x, k, from) < x.len(),
    ensures
        model::first_in(x + y, k, from) == model::first_in(x, k, from),
    decreases x.len() - from,
{
    if from < x.len() {
        assert((x + y)[from] == x[from]);
        if !k.has(x[from]) {
            lemma_first_in_prefix(x, y, k, from + 1);
        }
    }
}

pub proof fn lemma_first_in_none(s: Seq<char>, k: CharSet, from: int)
    requires
        0 <= from <= s.len(),
        forall|i: int| from <= i < s.len() ==> !k.has(#[trigger] s[i]),
    ensures
        model::first_in(s, k, from) == s.len(),
    decreases s.len() - from,
{
    if from < s.len() {
        lemma_first_in_none(s, k, from + 1);
    }
}

/// A text without line feeds, ended by one, is one line.
pub proof fn lemma_one_line(a: Seq<char>)
    requires
        forall|i: int| 0 <= i < a.len() ==> #[trigger] a[i] != '\n',
    ensures
        model::lines(a.push('\n')) == seq![model::drop_cr(a)],
{
    let k = CharSet::Only('\n');
    let s = a.push('\n');
    model::lemma_first_in(s, k, 0);
    let n = model::first_in(s, k, 0);
    if n < a.len() {
        assert(s[n] == a[n]);
    }
    assert(n == a.len()) by {
        if n == s.len() {
            assert(!k.has(s[a.len() as int]));
        }
    }
    assert(s.subrange(0, n) =~= a);
    assert(model::lines_at(s, n + 1) =~= seq![]);
    assert(seq![model::drop_cr(a)] + model::lines_at(s, n + 1) =~= seq![model::drop_cr(a)]);
}

pub proof fn lemma_replace_concat(x: Seq<char>, y: Seq<char>, c: char, by: Seq<char>)
    ensures
        model::replace_char(x + y, c, by) == model::replace_char(x, c, by) + model::replace_char(
            y,
            c,
            by,
        ),
    decreases y.len(),
{
    let rx = model::replace_char(x, c, by);
    if y.len() == 0 {
        assert(x + y =~= x);
        assert(rx + model::replace_char(y, c, by) =~= rx);
    } else {
        lemma_replace_concat(x, y.drop_last(), c, by);
        assert((x + y).drop_last() =~= x + y.drop_last());
        assert((x + y).last() == y.last());
        let ry = model::replace_char(y.drop_last(), c, by);
        if y.last() == c {
            assert((rx + ry) + by =~= rx + (ry + by));
        } else {
            assert((rx + ry).push(y.last()) =~= rx + ry.push(y.last()));
        }
    }
}

pub proof fn lemma_replace_none(s: Seq<char>, c: char, by: Seq<char>)
    requires
        forall|i: int| 0 <= i < s.len() ==> #[trigger] s[i] != c,
    ensures
        model::replace_char(s, c, by) == s,
    decreases s.len(),
{
    if s.len() == 0 {
        assert(model::replace_char(s, c, by) =~= s);
    } else {
        assert forall|i: int| 0 <= i < s.drop_last().len() implies #[trigger] s.drop_last()[i]
            != c by {
            assert(s.drop_last()[i] == s[i]);
        }
        lemma_replace_none(s.drop_last(), c, by);
        assert(s[s.len() - 1] != c);
        assert(s.drop_last().push(s.last()) =~= s);
    }
}

/// A text with a character outside the set at both ends is left as it is by trimming.
pub proof fn lemma_trim_nothing(s: Seq<char>, k: CharSet)
    requires
        s.len() == 0 || (!k.has(s[0]) && !k.has(s.last())),
    ensures
        model::trim_set(s, k) == s,
{
    if s.len() > 0 {
        assert(model::first_not_in(s, k, 0) == 0);
        assert(s.skip(0) =~= s);
        assert(model::back_over(s, k, s.len() as int) == s.len());
        assert(s.take(s.len() as int) =~= s);
    } else {
        assert(model::trim_start(s, k) =~= s);
        assert(model::trim_end(s, k) =~= s);
    }
}

/// A text that starts with a character other than white space is not blank.
pub proof fn lemma_not_blank(s: Seq<char>)
    requires
        s.len() > 0,
        exists|i: int| 0 <= i < s.len() && !model::white(#[trigger] s[i]),
    ensures
        !model::blank(s),
{
    let k = CharSet::White;
    let i = choose|i: int| 0 <= i < s.len() && !model::white(#[trigger] s[i]);
    model::lemma_first_not_in(s, k, 0);
    let a = model::first_not_in(s, k, 0);
    assert(a <= i) by {
        if a > i {
            assert(k.has(s[i]));
        }
    }
    let u = model::trim_start(s, k);
    model::lemma_back_over(u, k, u.len() as int);
    assert(u[i - a] == s[i]);
    if model::back_over(u, k, u.len() as int) == 0 {
        assert(k.has(u[i - a]));
    }
}

/// A prefix can be stripped off.
pub proof fn lemma_strip_prefix(p: Seq<char>, rest: Seq<char>)
    ensures
        model::strip_prefix(p + rest, p) == Some(rest),
{
    assert((p + rest).subrange(0, p.len() as int) =~= p);
    assert((p + rest).skip(p.len() as int) =~= rest);
}

pub proof fn lemma_split_shift(s: Seq<char>, k: CharSet, by: int, from: int)
    requires
        0 <= by <= s.len(),
        0 <= from <= s.len() - by,
    ensures
        model::split_at(s, k, by + from) == model::split_at(s.skip(by), k, from),
    decreases s.len() - by - from,
{
    lemma_first_in_shift(s, k, by, from);
    model::lemma_first_in(s, k, by + from);
    let n = model::first_in(s, k, by + from);
    assert(s.skip(by).skip(from) =~= s.skip(by + from));
    if n < s.len() {
        assert(s.skip(by).subrange(from, n - by) =~= s.subrange(by + from, n));
        lemma_split_shift(s, k, by, n - by + 1);
    }
}

/// A part without the separator is the first part of a text that starts with it.
pub proof fn lemma_split_first(a: Seq<char>, c: char, rest: Seq<char>)
    requires
        forall|i: int| 0 <= i < a.len() ==> #[trigger] a[i] != c,
    ensures
        model::split(a + seq![c] + rest, CharSet::Only(c)) == seq![a] + model::split(
            rest,
            CharSet::Only(c),
        ),
{
    let k = CharSet::Only(c);
    let s = a + seq![c] + rest;
    model::lemma_first_in(s, k, 0);
    let n = model::first_in(s, k, 0);
    assert(s[a.len() as int] == c);
    if n < a.len() {
        assert(s[n] == a[n]);
    }
    assert(n == a.len());
    assert(s.subrange(0, n) =~= a);
    lemma_split_shift(s, k, n + 1, 0);
    assert(s.skip(n + 1) =~= rest);
}

/// A text without the separator is one part.
pub proof fn lemma_split_none(a: Seq<char>, c: char)
    requires
        forall|i: int| 0 <= i < a.len() ==> #[trigger] a[i] != c,
    ensures
        model::split(a, CharSet::Only(c)) == seq![a],
{
    let k = CharSet::Only(c);
    model::lemma_first_in(a, k, 0);
    assert(model::first_in(a, k, 0) == a.len());
    assert(a.skip(0) =~= a);
}

/// The parts of a text hold no separator.
pub proof fn lemma_split_parts(s: Seq<char>, c: char, from: int)
    requires
        0 <= from <= s.len(),
    ensures
        model::split_at(s, CharSet::Only(c), from).len() >= 1,
        forall|i: int, j: int|
            0 <= i < model::split_at(s, CharSet::Only(c), from).len() && 0 <= j
                < model::split_at(s, CharSet::Only(c), from)[i].len()
                ==> #[trigger] model::split_at(s, CharSet::Only(c), from)[i][j] != c,
    decreases s.len() - from,
{
    let k = CharSet::Only(c);
    let n = model::first_in(s, k, from);
    model::lemma_first_in(s, k, from);
    let parts = model::split_at(s, k, from);
    if n < s.len() {
        lemma_split_parts(s, c, n + 1);
        let rest = model::split_at(s, k, n + 1);
        assert forall|i: int, j: int|
            0 <= i < parts.len() && 0 <= j < parts[i].len() implies #[trigger] parts[i][j] != c by {
            if i > 0 {
                assert(parts[i] == rest[i - 1]);
                assert(rest[i - 1][j] != c);
            } else {
                assert(parts[0][j] == s[from + j]);
            }
        }
    } else {
        assert forall|i: int, j: int|
            0 <= i < parts.len() && 0 <= j < parts[i].len() implies #[trigger] parts[i][j] != c by {
            assert(parts[0][j] == s[from + j]);
        }
    }
}

/// A part without the separator is the last part of a text that ends with it.
pub proof fn lemma_split_last(x: Seq<char>, c: char, y: Seq<char>)
    requires
        forall|i: int| 0 <= i < y.len() ==> #[trigger] y[i] != c,
    ensures
        model::split(x + seq![c] + y, CharSet::Only(c)) == model::split(x, CharSet::Only(c)).push(
            y,
        ),
    decreases x.len(),
{
    let k = CharSet::Only(c);
    model::lemma_first_in(x, k, 0);
    let n = model::first_in(x, k, 0);
    if n == x.len() {
        lemma_split_first(x, c, y);
        lemma_split_none(y, c);
        lemma_split_none(x, c);
        assert(seq![x] + seq![y] =~= seq![x].push(y));
    } else {
        let a = x.take(n);
        let rest = x.skip(n + 1);
        assert(x =~= a + seq![c] + rest);
        assert(x + seq![c] + y =~= a + seq![c] + (rest + seq![c] + y));
        lemma_split_first(a, c, rest + seq![c] + y);
        lemma_split_first(a, c, rest);
        lemma_split_last(rest, c, y);
        let tail = model::split(rest, k);
        assert(seq![a] + tail.push(y) =~= (seq![a] + tail).push(y));
    }
}

/// Parts without the separator are split as they were joined.
pub proof fn lemma_split_join(parts: Seq<Seq<char>>, c: char)
    requires
        parts.len() >= 1,
        forall|i: int, j: int|
            0 <= i < parts.len() && 0 <= j < parts[i].len() ==> #[trigger] parts[i][j] != c,
    ensures
        model::split(model::join(parts, seq![c]), CharSet::Only(c)) == parts,
    decreases parts.len(),
{
    let last = parts.last();
    assert forall|j: int| 0 <= j < last.len() implies #[trigger] last[j] != c by {
        assert(parts[parts.len() - 1][j] != c);
    }
    if parts.len() == 1 {
        lemma_split_none(last, c);
        assert(parts =~= seq![last]);
        assert(model::join(parts, seq![c]) =~= last);
    } else {
        let rest = parts.drop_last();
        assert forall|i: int, j: int|
            0 <= i < rest.len() && 0 <= j < rest[i].len() implies #[trigger] rest[i][j] != c by {
            assert(parts[i][j] != c);
        }
        lemma_split_join(rest, c);
        lemma_split_last(model::join(rest, seq![c]), c, last);
        assert(rest.push(last) =~= parts);
    }
}

} // verus!
