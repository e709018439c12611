//! Which of two versions is the newer.

use crate::dates::lemma_decimal;
use crate::model;
use crate::model::CharSet;
use crate::semver::{
    bare, core_of, number_of, pre_of, pre_release, rank, rank_numbers, rank_pre, rank_pres,
    rank_versions, sort_newest_first, PreText, Rank,
};
use crate::text_lemmas::{lemma_split_first, lemma_split_none, lemma_strip_prefix};
use vstd::prelude::*;

verus! {

/// A version of three numbers.
pub open spec fn version(a: u64, b: u64, c: u64) -> Seq<char> {
    model::decimal(a as nat) + "."@ + model::decimal(b as nat) + "."@ + model::decimal(c as nat)
}

/// The first of three numbers in which two versions differ is smaller.
pub open spec fn smaller(x: (u64, u64, u64), y: (u64, u64, u64)) -> bool {
    ||| x.0 < y.0
    ||| x.0 == y.0 && x.1 < y.1
    ||| x.0 == y.0 && x.1 == y.1 && x.2 < y.2
}

proof fn lemma_digits(n: u64)
    ensures
        forall|i: int|
            0 <= i < model::decimal(n as nat).len() ==> {
                let c = #[trigger] model::decimal(n as nat)[i];
                c != '.' && c != '-' && c != '+' && c != 'd' && c != 'D' && c != 'v' && c != 'V'
            },
        model::decimal(n as nat).len() > 0,
        number_of(model::decimal(n as nat)) == n,
{
    lemma_decimal(n as nat);
    let d = model::decimal(n as nat);
    assert forall|i: int| 0 <= i < d.len() implies {
        let c = #[trigger] d[i];
        c != '.' && c != '-' && c != '+' && c != 'd' && c != 'D' && c != 'v' && c != 'V'
    } by {
        assert(model::digit(d[i]));
    }
    assert(model::digit(d[0]));
}

/// The text of a version, with something behind it, is read without a prefix.
proof fn lemma_bare(a: u64, b: u64, c: u64, tail: Seq<char>)
    ensures
        bare(version(a, b, c) + tail) == version(a, b, c) + tail,
{
    let s = version(a, b, c) + tail;
    lemma_digits(a);
    reveal_strlit("dsh-");
    reveal_strlit("Dsh-");
    reveal_strlit("v");
    reveal_strlit("V");
    assert(s[0] == model::decimal(a as nat)[0]);
    lemma_not_first(s, "dsh-"@);
    lemma_not_first(s, "Dsh-"@);
    lemma_not_first(s, "v"@);
    lemma_not_first(s, "V"@);
}

proof fn lemma_not_first(s: Seq<char>, p: Seq<char>)
    requires
        s.len() > 0,
        p.len() > 0,
        s[0] != p[0],
    ensures
        model::strip_prefix(s, p) is None,
{
    if model::starts_with(s, p) {
        assert(s.subrange(0, p.len() as int)[0] == s[0]);
    }
}

proof fn lemma_parts(a: u64, b: u64, c: u64)
    ensures
        model::split(version(a, b, c), CharSet::Only('.')) == seq![
            model::decimal(a as nat),
            model::decimal(b as nat),
            model::decimal(c as nat),
        ],
        forall|i: int|
            0 <= i < version(a, b, c).len() ==> #[trigger] version(a, b, c)[i] != '-' && version(
                a,
                b,
                c,
            )[i] != '+',
{
    let x = model::decimal(a as nat);
    let y = model::decimal(b as nat);
    let z = model::decimal(c as nat);
    lemma_digits(a);
    lemma_digits(b);
    lemma_digits(c);
    reveal_strlit(".");
    assert("."@ =~= seq!['.']);
    let rest = y + seq!['.'] + z;
    assert(version(a, b, c) =~= x + seq!['.'] + rest);
    lemma_split_first(x, '.', rest);
    lemma_split_first(y, '.', z);
    lemma_split_none(z, '.');
    assert(seq![x] + (seq![y] + seq![z]) =~= seq![x, y, z]);
    let v = version(a, b, c);
    assert forall|i: int| 0 <= i < v.len() implies #[trigger] v[i] != '-' && v[i] != '+' by {
        if i < x.len() {
            assert(v[i] == x[i]);
        } else if i > x.len() && i < x.len() + 1 + y.len() {
            assert(v[i] == y[i - x.len() - 1]);
        } else if i > x.len() + 1 + y.len() {
            assert(v[i] == z[i - x.len() - y.len() - 2]);
        }
    }
}

/// The numbers of a version, whatever follows them.
proof fn lemma_core(a: u64, b: u64, c: u64, tail: Seq<char>)
    requires
        tail.len() == 0 || tail[0] == '-',
    ensures
        core_of(version(a, b, c) + tail) == seq![a as nat, b as nat, c as nat],
        tail.len() == 0 ==> pre_release(version(a, b, c) + tail).len() == 0,
        tail.len() > 0 ==> pre_release(version(a, b, c) + tail) == model::split(
            tail.skip(1),
            CharSet::Only('.'),
        ).map_values(|part: Seq<char>| pre_of(part)),
{
    let v = version(a, b, c);
    let s = v + tail;
    let k = CharSet::Either('-', '+');
    lemma_bare(a, b, c, tail);
    lemma_parts(a, b, c);
    lemma_digits(a);
    lemma_digits(b);
    lemma_digits(c);
    model::lemma_first_in(s, k, 0);
    let n = model::first_in(s, k, 0);
    if n < v.len() {
        assert(s[n] == v[n]);
    }
    if tail.len() > 0 {
        assert(s[v.len() as int] == '-');
        if n > v.len() {
            assert(!k.has(s[v.len() as int]));
        }
    }
    assert(n == v.len());
    assert(s.take(n) =~= v);
    let parts = model::split(v, CharSet::Only('.'));
    assert(parts.map_values(|part: Seq<char>| number_of(part)) =~= seq![
        a as nat,
        b as nat,
        c as nat,
    ]);
    if tail.len() > 0 {
        assert(s.skip(n + 1) =~= tail.skip(1));
    }
}

proof fn lemma_rank_numbers(x: (u64, u64, u64), y: (u64, u64, u64))
    ensures
        ({
            let p = seq![x.0 as nat, x.1 as nat, x.2 as nat];
            let q = seq![y.0 as nat, y.1 as nat, y.2 as nat];
            rank_numbers(p, q, 0) == if smaller(x, y) {
                Rank::Below
            } else if smaller(y, x) {
                Rank::Above
            } else {
                Rank::Same
            }
        }),
{
    reveal_with_fuel(rank_numbers, 5);
}

/// Of two releases the one with the smaller number is the older, the first number in which they
/// differ deciding: as numbers, not as texts.
pub proof fn law_numbers_decide(x: (u64, u64, u64), y: (u64, u64, u64), s: &str, t: &str, r: Rank)
    requires
        s@ == version(x.0, x.1, x.2),
        t@ == version(y.0, y.1, y.2),
        call_ensures(rank_versions, (s, t), r),
    ensures
        r is Below <==> smaller(x, y),
        r is Above <==> smaller(y, x),
        r is Same <==> x == y,
{
    reveal(rank);
    let none = Seq::<char>::empty();
    assert(s@ + none =~= s@ && t@ + none =~= t@);
    lemma_core(x.0, x.1, x.2, none);
    lemma_core(y.0, y.1, y.2, none);
    lemma_rank_numbers(x, y);
}

/// A version with something behind its numbers is older than the release of the same numbers, and
/// newer than every release of smaller ones.
pub proof fn law_candidates_come_before_their_release(
    x: (u64, u64, u64),
    y: (u64, u64, u64),
    pre: Seq<char>,
    s: &str,
    t: &str,
    r: Rank,
)
    requires
        s@ == version(x.0, x.1, x.2) + ("-"@ + pre),
        t@ == version(y.0, y.1, y.2),
        call_ensures(rank_versions, (s, t), r),
    ensures
        x == y || smaller(x, y) ==> r is Below,
        smaller(y, x) ==> r is Above,
{
    reveal(rank);
    reveal_strlit("-");
    let none = Seq::<char>::empty();
    assert(t@ + none =~= t@);
    let tail = "-"@ + pre;
    assert(tail[0] == '-');
    lemma_core(x.0, x.1, x.2, tail);
    lemma_core(y.0, y.1, y.2, none);
    lemma_rank_numbers(x, y);
    let parts = model::split(tail.skip(1), CharSet::Only('.'));
    crate::text_lemmas::lemma_split_parts(tail.skip(1), '.', 0);
    assert(pre_release(s@).len() == parts.len());
}

/// Of two candidates of one release that are counted, the one with the smaller count is the older.
pub proof fn law_candidates_are_counted(
    x: (u64, u64, u64),
    word: Seq<char>,
    i: u64,
    j: u64,
    s: &str,
    t: &str,
    r: Rank,
)
    requires
        forall|k: int| 0 <= k < word.len() ==> #[trigger] word[k] != '.',
        s@ == version(x.0, x.1, x.2) + ("-"@ + (word + seq!['.'] + model::decimal(i as nat))),
        t@ == version(x.0, x.1, x.2) + ("-"@ + (word + seq!['.'] + model::decimal(j as nat))),
        call_ensures(rank_versions, (s, t), r),
    ensures
        r is Below <==> i < j,
        r is Above <==> i > j,
{
    reveal(rank);
    reveal_strlit("-");
    lemma_rank_numbers(x, x);
    lemma_counted(x, word, i);
    lemma_counted(x, word, j);
    let p = pre_release(s@);
    let q = pre_release(t@);
    crate::text_map::lemma_precedes_total(
        match pre_of(word) {
            PreText::Str(w) => w,
            _ => word,
        },
        match pre_of(word) {
            PreText::Str(w) => w,
            _ => word,
        },
    );
    reveal_with_fuel(rank_pres, 4);
    assert(p[0] == q[0] && rank_pre(p[0], q[0]) == Rank::Same);
    assert(p[1] == PreText::Num(i as nat) && q[1] == PreText::Num(j as nat));
}

proof fn lemma_counted(x: (u64, u64, u64), word: Seq<char>, i: u64)
    requires
        forall|k: int| 0 <= k < word.len() ==> #[trigger] word[k] != '.',
    ensures
        ({
            let s = version(x.0, x.1, x.2) + ("-"@ + (word + seq!['.'] + model::decimal(i as nat)));
            &&& core_of(s) == seq![x.0 as nat, x.1 as nat, x.2 as nat]
            &&& pre_release(s) == seq![pre_of(word), PreText::Num(i as nat)]
        }),
{
    reveal_strlit("-");
    let d = model::decimal(i as nat);
    let pre = word + seq!['.'] + d;
    let tail = "-"@ + pre;
    assert(tail[0] == '-');
    lemma_core(x.0, x.1, x.2, tail);
    assert(tail.skip(1) =~= pre);
    lemma_digits(i);
    lemma_decimal(i as nat);
    lemma_split_first(word, '.', d);
    lemma_split_none(d, '.');
    let parts = model::split(pre, CharSet::Only('.'));
    assert(parts =~= seq![word, d]);
    assert(model::digit(d[0]));
    assert(pre_of(d) == PreText::Num(i as nat));
    assert(parts.map_values(|part: Seq<char>| pre_of(part)) =~= seq![pre_of(word), pre_of(d)]);
}

/// The tag of a release is the release.
pub proof fn law_tags_are_their_versions(x: (u64, u64, u64), y: (u64, u64, u64), s: &str, t: &str, r: Rank)
    requires
        s@ == "dsh-v"@ + version(x.0, x.1, x.2),
        t@ == version(y.0, y.1, y.2),
        call_ensures(rank_versions, (s, t), r),
    ensures
        r is Below <==> smaller(x, y),
        r is Above <==> smaller(y, x),
{
    reveal(rank);
    reveal_strlit("dsh-v");
    reveal_strlit("dsh-");
    reveal_strlit("v");
    let v = version(x.0, x.1, x.2);
    let none = Seq::<char>::empty();
    assert(v + none =~= v && t@ + none =~= t@);
    assert(s@ =~= "dsh-"@ + ("v"@ + v));
    lemma_strip_prefix("dsh-"@, "v"@ + v);
    lemma_strip_prefix("v"@, v);
    assert(bare(s@) == v);
    lemma_bare(x.0, x.1, x.2, none);
    assert(core_of(s@) == core_of(v) && pre_release(s@) == pre_release(v));
    lemma_core(x.0, x.1, x.2, none);
    lemma_core(y.0, y.1, y.2, none);
    lemma_rank_numbers(x, y);
}

/// Sorted versions stand with the newer first, and none is lost or added.
pub proof fn law_versions_are_sorted(versions: &Vec<String>, r: Vec<String>, i: int, j: int, s: &str, t: &str, rank: Rank)
    requires
        call_ensures(sort_newest_first, (versions,), r),
        0 <= i < j < r@.len(),
        s@ == r@[i]@,
        t@ == r@[j]@,
        call_ensures(rank_versions, (s, t), rank),
    ensures
        !(rank is Below),
        model::texts(r@).to_multiset() == model::texts(versions@).to_multiset(),
{
    let all = model::texts(versions@);
    let out = model::texts(r@);
    assert(out.len() == r@.len() && out[i] == r@[i]@ && out[j] == r@[j]@);
    crate::semver::law_sorting_puts_the_newest_first(all, i, j);
    crate::semver::law_sorting_keeps_versions(all);
}

} // verus!
