//! What the text operations do, said of their results alone.

use crate::dates::lemma_decimal;
use crate::model;
use crate::model::CharSet;
use crate::plugin::managed_laws::lemma_trim_set;
use crate::text;
use crate::text_lemmas::{lemma_lines_append, lemma_one_line, lemma_split_parts};
use vstd::prelude::*;

verus! {

/// A text is trimmed of white space at both ends and of nothing else, and is blank exactly where
/// nothing else is in it.
pub proof fn law_trimming_takes_the_white_ends(s: &str, r: String, b: bool)
    requires
        call_ensures(text::trim, (s,), r),
        call_ensures(text::blank, (s,), b),
    ensures
        exists|i: int, j: int|
            0 <= i <= j <= s@.len() && r@ == #[trigger] s@.subrange(i, j) && (forall|k: int|
                0 <= k < i ==> model::white(#[trigger] s@[k])) && (forall|k: int|
                j <= k < s@.len() ==> model::white(#[trigger] s@[k])),
        r@.len() > 0 ==> !model::white(r@[0]) && !model::white(r@.last()),
        b <==> forall|k: int| 0 <= k < s@.len() ==> model::white(#[trigger] s@[k]),
{
    let w = CharSet::White;
    lemma_trim_set(s@, w);
    let (i, j) = choose|i: int, j: int|
        0 <= i <= j <= s@.len() && r@ == #[trigger] s@.subrange(i, j) && (forall|k: int|
            0 <= k < i ==> w.has(#[trigger] s@[k])) && (forall|k: int|
            j <= k < s@.len() ==> w.has(#[trigger] s@[k])) && (i < j ==> !w.has(s@[i]) && !w.has(
            s@[j - 1],
        ));
    assert(r@ == s@.subrange(i, j));
    assert(forall|k: int| 0 <= k < i ==> model::white(#[trigger] s@[k])) by {
        assert forall|k: int| 0 <= k < i implies model::white(#[trigger] s@[k]) by {
            assert(w.has(s@[k]));
        }
    }
    assert(forall|k: int| j <= k < s@.len() ==> model::white(#[trigger] s@[k])) by {
        assert forall|k: int| j <= k < s@.len() implies model::white(#[trigger] s@[k]) by {
            assert(w.has(s@[k]));
        }
    }
    if i < j {
        assert(r@[0] == s@[i] && r@.last() == s@[j - 1]);
        assert(!model::white(s@[i]));
    }
}

/// A text is found where it first stands, and contained exactly where it is found.
pub proof fn law_texts_are_found_where_they_stand(s: &str, p: &str, r: Option<usize>, b: bool, i: int)
    requires
        call_ensures(text::find, (s, p), r),
        call_ensures(text::contains, (s, p), b),
    ensures
        b <==> r is Some,
        r is Some ==> model::matches_at(s@, p@, r->0 as int),
        model::matches_at(s@, p@, i) ==> r is Some && r->0 <= i,
{
    model::lemma_find_at(s@, p@, 0);
}

proof fn lemma_rejoin(s: Seq<char>, c: char, from: int)
    requires
        0 <= from <= s.len(),
    ensures
        model::split_at(s, CharSet::Only(c), from).len() >= 1,
        model::join(model::split_at(s, CharSet::Only(c), from), seq![c]) == s.skip(from),
    decreases s.len() - from,
{
    let k = CharSet::Only(c);
    model::lemma_first_in(s, k, from);
    let n = model::first_in(s, k, from);
    let parts = model::split_at(s, k, from);
    if n >= s.len() {
        assert(parts =~= seq![s.skip(from)]);
    } else {
        lemma_rejoin(s, c, n + 1);
        let rest = model::split_at(s, k, n + 1);
        let first = s.subrange(from, n);
        assert(parts == seq![first] + rest);
        lemma_join_head(first, rest, seq![c]);
        assert(first + seq![c] + s.skip(n + 1) =~= s.skip(from));
    }
}

proof fn lemma_join_head(first: Seq<char>, rest: Seq<Seq<char>>, sep: Seq<char>)
    requires
        rest.len() >= 1,
    ensures
        model::join(seq![first] + rest, sep) == first + sep + model::join(rest, sep),
    decreases rest.len(),
{
    let all = seq![first] + rest;
    assert(all.drop_last() =~= seq![first] + rest.drop_last());
    assert(all.last() == rest.last());
    if rest.len() == 1 {
        assert(all.drop_last() =~= seq![first]);
        assert(model::join(all.drop_last(), sep) == first);
        assert(model::join(rest, sep) == rest[0]);
    } else {
        lemma_join_head(first, rest.drop_last(), sep);
        assert(first + sep + model::join(rest.drop_last(), sep) + sep + rest.last() =~= first + sep + (
        model::join(rest.drop_last(), sep) + sep + rest.last()));
    }
}

/// A text that is split at a character is made of its parts again when they are joined by it, and no
/// part holds it.
pub proof fn law_parts_make_up_the_whole(s: &str, c: char, parts: Vec<String>, sep: &str, whole: String, i: int, j: int)
    requires
        call_ensures(text::split, (s, CharSet::Only(c)), parts),
        sep@ == seq![c],
        call_ensures(text::join, (&parts, sep), whole),
        0 <= i < parts@.len(),
        0 <= j < parts@[i]@.len(),
    ensures
        whole@ == s@,
        parts@[i]@[j] != c,
{
    lemma_rejoin(s@, c, 0);
    lemma_split_parts(s@, c, 0);
    assert(s@.skip(0) =~= s@);
    let t = model::texts(parts@);
    assert(t.len() == parts@.len() && t[i] == parts@[i]@);
    assert(t[i][j] != c);
}

/// A text is read line by line: a line ends with its line feed, to which a carriage return belongs.
pub proof fn law_lines_end_with_line_feeds(
    whole: &str,
    first: Seq<char>,
    rest: &str,
    all: Vec<String>,
    behind: Vec<String>,
)
    requires
        forall|i: int| 0 <= i < first.len() ==> #[trigger] first[i] != '\n',
        whole@ == first.push('\n') + rest@,
        call_ensures(text::lines, (whole,), all),
        call_ensures(text::lines, (rest,), behind),
    ensures
        all@.len() == behind@.len() + 1,
        first.len() > 0 && first.last() == '\r' ==> all@[0]@ == first.drop_last(),
        first.len() == 0 || first.last() != '\r' ==> all@[0]@ == first,
        forall|i: int| 0 <= i < behind@.len() ==> (#[trigger] all@[i + 1])@ == behind@[i]@,
{
    lemma_one_line(first);
    lemma_lines_append(first.push('\n'), rest@);
    let t = model::texts(all@);
    let u = model::texts(behind@);
    assert(t.len() == all@.len() && u.len() == behind@.len());
    assert(t == seq![model::drop_cr(first)] + u);
    assert(t[0] == all@[0]@);
    assert forall|i: int| 0 <= i < behind@.len() implies (#[trigger] all@[i + 1])@ == behind@[i]@ by {
        assert(t[i + 1] == all@[i + 1]@);
        assert(u[i] == behind@[i]@);
    }
}

proof fn lemma_words_are_filled(parts: Seq<Seq<char>>, i: int)
    requires
        0 <= i < model::non_empty(parts).len(),
    ensures
        model::non_empty(parts)[i].len() > 0,
        parts.contains(model::non_empty(parts)[i]),
    decreases parts.len(),
{
    if parts.len() > 0 {
        let init = parts.drop_last();
        let rest = model::non_empty(init);
        let out = model::non_empty(parts);
        if i < rest.len() {
            lemma_words_are_filled(init, i);
            let k = choose|k: int| 0 <= k < init.len() && init[k] == rest[i];
            assert(parts[k] == out[i]);
        } else {
            assert(parts[parts.len() - 1] == out[i]);
        }
    }
}

proof fn lemma_split_white(s: Seq<char>, from: int, i: int, j: int)
    requires
        0 <= from <= s.len(),
        0 <= i < model::split_at(s, CharSet::White, from).len(),
        0 <= j < model::split_at(s, CharSet::White, from)[i].len(),
    ensures
        !model::white(model::split_at(s, CharSet::White, from)[i][j]),
    decreases s.len() - from,
{
    let k = CharSet::White;
    model::lemma_first_in(s, k, from);
    let n = model::first_in(s, k, from);
    if n >= s.len() {
        assert(model::split_at(s, k, from)[i][j] == s[from + j]);
        assert(!k.has(s[from + j]));
    } else if i == 0 {
        assert(model::split_at(s, k, from)[0][j] == s[from + j]);
        assert(!k.has(s[from + j]));
    } else {
        lemma_split_white(s, n + 1, i - 1, j);
        assert(model::split_at(s, k, from)[i] == model::split_at(s, k, n + 1)[i - 1]);
    }
}

/// A word is never empty and holds no white space.
pub proof fn law_words_hold_no_white_space(s: &str, r: Vec<String>, i: int, j: int)
    requires
        call_ensures(text::words, (s,), r),
        0 <= i < r@.len(),
        0 <= j < r@[i]@.len(),
    ensures
        r@[i]@.len() > 0,
        !model::white(r@[i]@[j]),
{
    let parts = model::split(s@, CharSet::White);
    let t = model::texts(r@);
    assert(t.len() == r@.len() && t[i] == r@[i]@);
    lemma_words_are_filled(parts, i);
    let k = choose|k: int| 0 <= k < parts.len() && parts[k] == t[i];
    lemma_split_white(s@, 0, k, j);
}

/// A number that is written in digits is read as that number.
pub proof fn law_numbers_survive(n: u64, digits: String, s: &str, max: u64, r: Option<u64>)
    requires
        call_ensures(text::decimal, (n,), digits),
        s@ == digits@,
        call_ensures(text::parse_unsigned, (s, max), r),
    ensures
        n <= max ==> r == Some(n),
        n > max ==> r is None,
{
    lemma_decimal(n as nat);
    assert(model::digit(digits@[0]));
}

/// Only the letters from `A` to `Z` are changed to lower case, each to its own.
pub proof fn law_lower_case_is_for_letters(s: &str, r: String, i: int)
    requires
        call_ensures(text::lower_ascii, (s,), r),
        0 <= i < s@.len(),
    ensures
        r@.len() == s@.len(),
        0x41 <= s@[i] as u32 <= 0x5a ==> r@[i] as u32 == s@[i] as u32 + 32,
        !(0x41 <= s@[i] as u32 <= 0x5a) ==> r@[i] == s@[i],
{
    assert(r@[i] == model::lower_ascii_char(s@[i]));
}

/// Texts are ordered by the first character in which they differ, and a text comes before every
/// longer one that begins with it.
pub proof fn law_the_first_difference_decides(a: &str, b: &str, r: bool, back: bool, i: int)
    requires
        call_ensures(text::precedes, (a, b), r),
        call_ensures(text::precedes, (b, a), back),
        0 <= i <= a@.len(),
        i <= b@.len(),
        forall|j: int| 0 <= j < i ==> a@[j] == b@[j],
    ensures
        i < a@.len() && i < b@.len() && (a@[i] as u32) < (b@[i] as u32) ==> r && !back,
        i == a@.len() && i < b@.len() ==> r && !back,
        i == a@.len() && i == b@.len() ==> !r && !back,
{
    model::lemma_common_prefix(a@, b@, 0);
    model::lemma_common_prefix(b@, a@, 0);
    let x = model::common_prefix(a@, b@, 0);
    let y = model::common_prefix(b@, a@, 0);
    if i < a@.len() && i < b@.len() && (a@[i] as u32) < (b@[i] as u32) {
        if x > i {
            assert(a@[i] == b@[i]);
        }
        if x < i {
            assert(a@[x] == b@[x]);
        }
        if y > i {
            assert(b@[i] == a@[i]);
        }
        if y < i {
            assert(a@[y] == b@[y]);
        }
    }
    if i == a@.len() {
        if x < i {
            assert(a@[x] == b@[x]);
        }
        if y < i {
            assert(a@[y] == b@[y]);
        }
    }
}

} // verus!
