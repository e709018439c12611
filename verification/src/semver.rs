//! The order of versions and release tags.

use crate::model;
use crate::model::CharSet;
use crate::text;
use crate::text_map;
use vstd::prelude::*;

verus! {

/// How one thing stands to another in an order.
#[derive(Debug, Clone, Copy, PartialEq, Eq, Structural)]
pub enum Rank {
    Below,
    Same,
    Above,
}

impl Rank {
    pub open spec fn flip(self) -> Rank {
        match self {
            Rank::Below => Rank::Above,
            Rank::Same => Rank::Same,
            Rank::Above => Rank::Below,
        }
    }

    pub fn flipped(self) -> (r: Rank)
        ensures
            r == self.flip(),
    {
        match self {
            Rank::Below => Rank::Above,
            Rank::Same => Rank::Same,
            Rank::Above => Rank::Below,
        }
    }
}

/// A part of what follows the numbers of a version.
#[derive(Debug)]
pub enum PreId {
    Num(u64),
    Str(String),
}

/// What a part stands for.
pub ghost enum PreText {
    Num(nat),
    Str(Seq<char>),
}

impl View for PreId {
    type V = PreText;

    open spec fn view(&self) -> PreText {
        match self {
            PreId::Num(n) => PreText::Num(*n as nat),
            PreId::Str(s) => PreText::Str(s@),
        }
    }
}

pub open spec fn numbers(v: Seq<u64>) -> Seq<nat> {
    v.map_values(|n: u64| n as nat)
}

pub open spec fn pre_texts(v: Seq<PreId>) -> Seq<PreText> {
    v.map_values(|p: PreId| p@)
}

// ---- Reading a version ----

/// A version without the prefixes of a tag.
pub open spec fn bare(v: Seq<char>) -> Seq<char> {
    let s = match model::strip_prefix(v, "dsh-"@) {
        Some(rest) => rest,
        None => match model::strip_prefix(v, "Dsh-"@) {
            Some(rest) => rest,
            None => v,
        },
    };
    match model::strip_prefix(s, "v"@) {
        Some(rest) => rest,
        None => match model::strip_prefix(s, "V"@) {
            Some(rest) => rest,
            None => s,
        },
    }
}

/// The number that a part spells; one that spells none counts as 0.
pub open spec fn number_of(part: Seq<char>) -> nat {
    match model::parse_unsigned(part, u64::MAX as nat) {
        Some(n) => n,
        None => 0,
    }
}

/// A part after the numbers: a number, or a text in which case does not count.
pub open spec fn pre_of(part: Seq<char>) -> PreText {
    match model::parse_unsigned(part, u64::MAX as nat) {
        Some(n) => PreText::Num(n),
        None => PreText::Str(model::lower_ascii(part)),
    }
}

/// Where the numbers of a bare version end.
pub open spec fn cut_of(core: Seq<char>) -> int {
    model::first_in(core, CharSet::Either('-', '+'), 0)
}

/// The numbers of a version.
pub open spec fn core_of(v: Seq<char>) -> Seq<nat> {
    let core = bare(v);
    model::split(core.take(cut_of(core)), CharSet::Only('.')).map_values(
        |part: Seq<char>| number_of(part),
    )
}

/// What follows the numbers of a version.
pub open spec fn pre_release(v: Seq<char>) -> Seq<PreText> {
    let core = bare(v);
    if cut_of(core) < core.len() {
        model::split(core.skip(cut_of(core) + 1), CharSet::Only('.')).map_values(
            |part: Seq<char>| pre_of(part),
        )
    } else {
        seq![]
    }
}

fn bare_version(v: &str) -> (r: String)
    ensures
        r@ == bare(v@),
{
    let s = match text::strip_prefix(v, "dsh-") {
        Some(rest) => rest,
        None => match text::strip_prefix(v, "Dsh-") {
            Some(rest) => rest,
            None => v.to_owned(),
        },
    };
    match text::strip_prefix(s.as_str(), "v") {
        Some(rest) => rest,
        None => match text::strip_prefix(s.as_str(), "V") {
            Some(rest) => rest,
            None => s,
        },
    }
}

fn parse_numbers(main: &str) -> (r: Vec<u64>)
    ensures
        numbers(r@) == model::split(main@, CharSet::Only('.')).map_values(
            |part: Seq<char>| number_of(part),
        ),
{
    let parts = text::split(main, CharSet::Only('.'));
    let ghost all = model::split(main@, CharSet::Only('.'));
    let ghost want = all.map_values(|part: Seq<char>| number_of(part));
    let mut r: Vec<u64> = Vec::new();
    let mut i: usize = 0;
    proof {
        assert(model::texts(parts@).len() == parts@.len());
        assert(numbers(r@) =~= want.take(0));
    }
    while i < parts.len()
        invariant
            model::texts(parts@) == all,
            parts@.len() == all.len(),
            want == all.map_values(|part: Seq<char>| number_of(part)),
            i <= parts.len(),
            numbers(r@) == want.take(i as int),
        decreases parts.len() - i,
    {
        let ghost before = r@;
        proof {
            assert(model::texts(parts@)[i as int] == parts@[i as int]@);
            assert(want[i as int] == number_of(all[i as int]));
        }
        let n: u64 = match text::parse_unsigned(parts[i].as_str(), u64::MAX) {
            Some(n) => n,
            None => 0,
        };
        r.push(n);
        proof {
            assert(numbers(r@) =~= numbers(before).push(n as nat));
            assert(want.take(i as int + 1) =~= want.take(i as int).push(want[i as int]));
        }
        i += 1;
    }
    proof {
        assert(want.take(want.len() as int) =~= want);
    }
    r
}

fn parse_pre_ids(pre: &str) -> (r: Vec<PreId>)
    ensures
        pre_texts(r@) == model::split(pre@, CharSet::Only('.')).map_values(
            |part: Seq<char>| pre_of(part),
        ),
{
    let parts = text::split(pre, CharSet::Only('.'));
    let ghost all = model::split(pre@, CharSet::Only('.'));
    let ghost want = all.map_values(|part: Seq<char>| pre_of(part));
    let mut r: Vec<PreId> = Vec::new();
    let mut i: usize = 0;
    proof {
        assert(model::texts(parts@).len() == parts@.len());
        assert(pre_texts(r@) =~= want.take(0));
    }
    while i < parts.len()
        invariant
            model::texts(parts@) == all,
            parts@.len() == all.len(),
            want == all.map_values(|part: Seq<char>| pre_of(part)),
            i <= parts.len(),
            pre_texts(r@) == want.take(i as int),
        decreases parts.len() - i,
    {
        let ghost before = r@;
        proof {
            assert(model::texts(parts@)[i as int] == parts@[i as int]@);
            assert(want[i as int] == pre_of(all[i as int]));
        }
        let id = match text::parse_unsigned(parts[i].as_str(), u64::MAX) {
            Some(n) => PreId::Num(n),
            None => PreId::Str(text::lower_ascii(parts[i].as_str())),
        };
        let ghost shown = id@;
        r.push(id);
        proof {
            assert(pre_texts(r@) =~= pre_texts(before).push(shown));
            assert(want.take(i as int + 1) =~= want.take(i as int).push(want[i as int]));
        }
        i += 1;
    }
    proof {
        assert(want.take(want.len() as int) =~= want);
    }
    r
}

/// The numbers of a version and what follows them.
pub fn parse_semver_parts(v: &str) -> (r: (Vec<u64>, Vec<PreId>))
    ensures
        numbers(r.0@) == core_of(v@),
        pre_texts(r.1@) == pre_release(v@),
{
    let core = bare_version(v);
    let chars = text::chars_of(core.as_str());
    let n = text::first_in(&chars, CharSet::Either('-', '+'), 0);
    proof {
        model::lemma_first_in(core@, CharSet::Either('-', '+'), 0);
        assert(core@.subrange(0, n as int) =~= core@.take(n as int));
    }
    let nums = parse_numbers(text::string_of(&chars, 0, n).as_str());
    let pre = if n < chars.len() {
        proof {
            assert(core@.subrange(n as int + 1, core@.len() as int) =~= core@.skip(n as int + 1));
        }
        parse_pre_ids(text::string_of(&chars, n + 1, chars.len()).as_str())
    } else {
        let none: Vec<PreId> = Vec::new();
        proof {
            assert(pre_texts(none@) =~= seq![]);
        }
        none
    };
    (nums, pre)
}

// ---- Ranking ----

pub open spec fn rank_nat(a: nat, b: nat) -> Rank {
    if a < b {
        Rank::Below
    } else if a > b {
        Rank::Above
    } else {
        Rank::Same
    }
}

pub open spec fn rank_text(a: Seq<char>, b: Seq<char>) -> Rank {
    if model::precedes(a, b) {
        Rank::Below
    } else if a == b {
        Rank::Same
    } else {
        Rank::Above
    }
}

/// The number at a place; 0 beyond the last.
pub open spec fn number_at(v: Seq<nat>, i: int) -> nat {
    if 0 <= i < v.len() {
        v[i]
    } else {
        0
    }
}

/// The order of the numbers from a place on.
pub open spec fn rank_numbers(a: Seq<nat>, b: Seq<nat>, i: int) -> Rank
    decreases a.len() + b.len() - i,
{
    if i >= a.len() && i >= b.len() {
        Rank::Same
    } else if number_at(a, i) != number_at(b, i) {
        rank_nat(number_at(a, i), number_at(b, i))
    } else {
        rank_numbers(a, b, i + 1)
    }
}

/// The order of two parts: numbers come before texts.
pub open spec fn rank_pre(a: PreText, b: PreText) -> Rank {
    match (a, b) {
        (PreText::Num(x), PreText::Num(y)) => rank_nat(x, y),
        (PreText::Num(_), PreText::Str(_)) => Rank::Below,
        (PreText::Str(_), PreText::Num(_)) => Rank::Above,
        (PreText::Str(x), PreText::Str(y)) => rank_text(x, y),
    }
}

/// The order of the parts from a place on; of two that agree, the longer is above.
pub open spec fn rank_pres(a: Seq<PreText>, b: Seq<PreText>, i: int) -> Rank
    decreases a.len() - i,
{
    if i < 0 || i >= a.len() || i >= b.len() {
        rank_nat(a.len(), b.len())
    } else if rank_pre(a[i], b[i]) != Rank::Same {
        rank_pre(a[i], b[i])
    } else {
        rank_pres(a, b, i + 1)
    }
}

/// The order of what follows the numbers: a version without anything is above one with something.
pub open spec fn rank_release(a: Seq<PreText>, b: Seq<PreText>) -> Rank {
    if a.len() == 0 && b.len() == 0 {
        Rank::Same
    } else if a.len() == 0 {
        Rank::Above
    } else if b.len() == 0 {
        Rank::Below
    } else {
        rank_pres(a, b, 0)
    }
}

/// The order of two versions: by their numbers, then by what follows them.
#[verifier::opaque]
pub open spec fn rank(a: Seq<char>, b: Seq<char>) -> Rank {
    let by_numbers = rank_numbers(core_of(a), core_of(b), 0);
    if by_numbers != Rank::Same {
        by_numbers
    } else {
        rank_release(pre_release(a), pre_release(b))
    }
}

fn rank_of_numbers(a: &Vec<u64>, b: &Vec<u64>) -> (r: Rank)
    ensures
        r == rank_numbers(numbers(a@), numbers(b@), 0),
{
    let mut i: usize = 0;
    while i < a.len() || i < b.len()
        invariant
            i <= a.len() || i <= b.len(),
            rank_numbers(numbers(a@), numbers(b@), 0) == rank_numbers(
                numbers(a@),
                numbers(b@),
                i as int,
            ),
        decreases a.len() + b.len() - i,
    {
        let x: u64 = if i < a.len() {
            a[i]
        } else {
            0
        };
        let y: u64 = if i < b.len() {
            b[i]
        } else {
            0
        };
        proof {
            assert(number_at(numbers(a@), i as int) == x);
            assert(number_at(numbers(b@), i as int) == y);
        }
        if x < y {
            return Rank::Below;
        }
        if x > y {
            return Rank::Above;
        }
        i += 1;
    }
    Rank::Same
}

fn rank_of_pre(a: &PreId, b: &PreId) -> (r: Rank)
    ensures
        r == rank_pre(a@, b@),
{
    match (a, b) {
        (PreId::Num(x), PreId::Num(y)) => if *x < *y {
            Rank::Below
        } else if *x > *y {
            Rank::Above
        } else {
            Rank::Same
        },
        (PreId::Num(_), PreId::Str(_)) => Rank::Below,
        (PreId::Str(_), PreId::Num(_)) => Rank::Above,
        (PreId::Str(x), PreId::Str(y)) => if text::precedes(x.as_str(), y.as_str()) {
            Rank::Below
        } else if text::same(x.as_str(), y.as_str()) {
            Rank::Same
        } else {
            Rank::Above
        },
    }
}

fn rank_of_pres(a: &Vec<PreId>, b: &Vec<PreId>) -> (r: Rank)
    ensures
        r == rank_pres(pre_texts(a@), pre_texts(b@), 0),
{
    let mut i: usize = 0;
    while i < a.len() && i < b.len()
        invariant
            i <= a.len(),
            i <= b.len(),
            rank_pres(pre_texts(a@), pre_texts(b@), 0) == rank_pres(
                pre_texts(a@),
                pre_texts(b@),
                i as int,
            ),
        decreases a.len() - i,
    {
        proof {
            assert(pre_texts(a@)[i as int] == a@[i as int]@);
            assert(pre_texts(b@)[i as int] == b@[i as int]@);
        }
        let r = rank_of_pre(&a[i], &b[i]);
        if !matches!(r, Rank::Same) {
            return r;
        }
        i += 1;
    }
    if a.len() < b.len() {
        Rank::Below
    } else if a.len() > b.len() {
        Rank::Above
    } else {
        Rank::Same
    }
}

/// The order of two versions.
pub fn rank_versions(a: &str, b: &str) -> (r: Rank)
    ensures
        r == rank(a@, b@),
{
    let (nums_a, pre_a) = parse_semver_parts(a);
    let (nums_b, pre_b) = parse_semver_parts(b);
    proof {
        reveal(rank);
        assert(pre_texts(pre_a@).len() == pre_a@.len());
        assert(pre_texts(pre_b@).len() == pre_b@.len());
    }
    let by_numbers = rank_of_numbers(&nums_a, &nums_b);
    if !matches!(by_numbers, Rank::Same) {
        return by_numbers;
    }
    if pre_a.len() == 0 && pre_b.len() == 0 {
        Rank::Same
    } else if pre_a.len() == 0 {
        Rank::Above
    } else if pre_b.len() == 0 {
        Rank::Below
    } else {
        rank_of_pres(&pre_a, &pre_b)
    }
}

/// The order of two versions, the older first.
pub fn cmp_semver_asc(a: &str, b: &str) -> (r: std::cmp::Ordering)
    ensures
        r == match rank(a@, b@) {
            Rank::Below => std::cmp::Ordering::Less,
            Rank::Same => std::cmp::Ordering::Equal,
            Rank::Above => std::cmp::Ordering::Greater,
        },
{
    match rank_versions(a, b) {
        Rank::Below => std::cmp::Ordering::Less,
        Rank::Same => std::cmp::Ordering::Equal,
        Rank::Above => std::cmp::Ordering::Greater,
    }
}

/// The order of two versions, the newer first.
pub fn cmp_semver_desc(a: &str, b: &str) -> (r: std::cmp::Ordering)
    ensures
        r == match rank(b@, a@) {
            Rank::Below => std::cmp::Ordering::Less,
            Rank::Same => std::cmp::Ordering::Equal,
            Rank::Above => std::cmp::Ordering::Greater,
        },
{
    cmp_semver_asc(b, a)
}

// ---- Sorting ----

/// The place of a version in a row with the newer first: before the first that is older.
pub open spec fn slot(row: Seq<Seq<char>>, v: Seq<char>, i: int) -> int
    decreases row.len() - i,
{
    if i < 0 || i >= row.len() {
        row.len() as int
    } else if rank(row[i], v) == Rank::Below {
        i
    } else {
        slot(row, v, i + 1)
    }
}

/// Versions with the newer first; those of one rank stay in their order.
pub open spec fn newest_first(versions: Seq<Seq<char>>) -> Seq<Seq<char>>
    decreases versions.len(),
{
    if versions.len() == 0 {
        seq![]
    } else {
        let row = newest_first(versions.drop_last());
        row.insert(slot(row, versions.last(), 0), versions.last())
    }
}

pub proof fn lemma_slot(row: Seq<Seq<char>>, v: Seq<char>, i: int)
    requires
        0 <= i <= row.len(),
    ensures
        i <= slot(row, v, i) <= row.len(),
        forall|k: int| i <= k < slot(row, v, i) ==> rank(#[trigger] row[k], v) != Rank::Below,
        slot(row, v, i) < row.len() ==> rank(row[slot(row, v, i)], v) == Rank::Below,
    decreases row.len() - i,
{
    if i < row.len() && rank(row[i], v) != Rank::Below {
        lemma_slot(row, v, i + 1);
    }
}

/// Sorts versions, the newer first.
pub fn sort_newest_first(versions: &Vec<String>) -> (r: Vec<String>)
    ensures
        model::texts(r@) == newest_first(model::texts(versions@)),
{
    let ghost all = model::texts(versions@);
    let mut r: Vec<String> = Vec::new();
    let mut i: usize = 0;
    proof {
        assert(all.take(0) =~= seq![]);
        assert(model::texts(r@) =~= seq![]);
    }
    while i < versions.len()
        invariant
            all == model::texts(versions@),
            i <= versions.len(),
            model::texts(r@) == newest_first(all.take(i as int)),
        decreases versions.len() - i,
    {
        let ghost row = model::texts(r@);
        proof {
            assert(all.take(i as int + 1).drop_last() =~= all.take(i as int));
            assert(all.take(i as int + 1).last() == versions@[i as int]@);
            assert(row.len() == r@.len());
            lemma_slot(row, versions@[i as int]@, 0);
        }
        let mut k: usize = 0;
        while k < r.len() && !matches!(
            rank_versions(r[k].as_str(), versions[i].as_str()),
            Rank::Below
        )
            invariant
                i < versions.len(),
                row == model::texts(r@),
                k <= r.len(),
                slot(row, versions@[i as int]@, 0) == slot(row, versions@[i as int]@, k as int),
            decreases r.len() - k,
        {
            proof {
                assert(row[k as int] == r@[k as int]@);
            }
            k += 1;
        }
        proof {
            if k < r.len() {
                assert(row[k as int] == r@[k as int]@);
            }
        }
        let ghost before = r@;
        r.insert(k, versions[i].clone());
        proof {
            assert(model::texts(r@) =~= row.insert(k as int, versions@[i as int]@));
        }
        i += 1;
    }
    proof {
        assert(all.take(all.len() as int) =~= all);
    }
    r
}

// ---- Laws ----

proof fn lemma_rank_text_flips(a: Seq<char>, b: Seq<char>)
    ensures
        rank_text(b, a) == rank_text(a, b).flip(),
{
    text_map::lemma_precedes_total(a, b);
}

proof fn lemma_rank_text_chains(a: Seq<char>, b: Seq<char>, c: Seq<char>)
    requires
        rank_text(a, b) != Rank::Above,
        rank_text(b, c) != Rank::Above,
    ensures
        rank_text(a, c) != Rank::Above,
        rank_text(a, c) == Rank::Same ==> rank_text(a, b) == Rank::Same && rank_text(b, c)
            == Rank::Same,
{
    text_map::lemma_precedes_total(a, b);
    text_map::lemma_precedes_total(b, c);
    text_map::lemma_precedes_total(a, c);
    if model::precedes(a, b) && model::precedes(b, c) {
        text_map::lemma_precedes_transitive(a, b, c);
    }
}

proof fn lemma_rank_pre(a: PreText, b: PreText, c: PreText)
    ensures
        rank_pre(b, a) == rank_pre(a, b).flip(),
        rank_pre(a, b) != Rank::Above && rank_pre(b, c) != Rank::Above ==> {
            &&& rank_pre(a, c) != Rank::Above
            &&& rank_pre(a, c) == Rank::Same ==> rank_pre(a, b) == Rank::Same && rank_pre(b, c)
                == Rank::Same
        },
        rank_pre(a, b) == Rank::Same ==> a == b,
{
    if let (PreText::Str(x), PreText::Str(y)) = (a, b) {
        lemma_rank_text_flips(x, y);
        if let PreText::Str(z) = c {
            if rank_text(x, y) != Rank::Above && rank_text(y, z) != Rank::Above {
                lemma_rank_text_chains(x, y, z);
            }
        }
    }
}

proof fn lemma_rank_pres_flip(a: Seq<PreText>, b: Seq<PreText>, i: int)
    requires
        0 <= i,
    ensures
        rank_pres(b, a, i) == rank_pres(a, b, i).flip(),
    decreases a.len() - i,
{
    if i < a.len() && i < b.len() {
        lemma_rank_pre(a[i], b[i], b[i]);
        lemma_rank_pres_flip(a, b, i + 1);
    }
}

proof fn lemma_rank_pres_chain(a: Seq<PreText>, b: Seq<PreText>, c: Seq<PreText>, i: int)
    requires
        0 <= i <= a.len(),
        i <= b.len(),
        i <= c.len(),
        rank_pres(a, b, i) != Rank::Above,
        rank_pres(b, c, i) != Rank::Above,
    ensures
        rank_pres(a, c, i) != Rank::Above,
        rank_pres(a, c, i) == Rank::Same ==> rank_pres(a, b, i) == Rank::Same && rank_pres(b, c, i)
            == Rank::Same,
    decreases a.len() - i,
{
    if i < a.len() && i < b.len() && i < c.len() {
        lemma_rank_pre(a[i], b[i], c[i]);
        if rank_pre(a[i], b[i]) == Rank::Same && rank_pre(b[i], c[i]) == Rank::Same {
            lemma_rank_pre(b[i], c[i], c[i]);
            lemma_rank_pres_chain(a, b, c, i + 1);
        }
    }
}

proof fn lemma_rank_numbers_flip(a: Seq<nat>, b: Seq<nat>, i: int)
    requires
        0 <= i,
    ensures
        rank_numbers(b, a, i) == rank_numbers(a, b, i).flip(),
    decreases a.len() + b.len() - i,
{
    if i < a.len() || i < b.len() {
        lemma_rank_numbers_flip(a, b, i + 1);
    }
}

proof fn lemma_rank_numbers_chain(a: Seq<nat>, b: Seq<nat>, c: Seq<nat>, i: int)
    requires
        0 <= i,
        rank_numbers(a, b, i) != Rank::Above,
        rank_numbers(b, c, i) != Rank::Above,
    ensures
        rank_numbers(a, c, i) != Rank::Above,
        rank_numbers(a, c, i) == Rank::Same ==> rank_numbers(a, b, i) == Rank::Same && rank_numbers(
            b,
            c,
            i,
        ) == Rank::Same,
    decreases a.len() + b.len() + c.len() - i,
{
    if i < a.len() || i < b.len() || i < c.len() {
        if number_at(a, i) == number_at(b, i) && number_at(b, i) == number_at(c, i) {
            if i >= a.len() && i >= b.len() {
                assert(rank_numbers(a, b, i + 1) == Rank::Same);
            }
            if i >= b.len() && i >= c.len() {
                assert(rank_numbers(b, c, i + 1) == Rank::Same);
            }
            if i >= a.len() && i >= c.len() {
                assert(rank_numbers(a, c, i + 1) == Rank::Same);
            }
            lemma_rank_numbers_chain(a, b, c, i + 1);
        }
    }
}

/// The order of versions is total: swapping two versions flips their order, and a version is of the
/// same rank as itself.
pub proof fn law_versions_compare_both_ways(a: Seq<char>, b: Seq<char>)
    ensures
        rank(b, a) == rank(a, b).flip(),
        rank(a, a) == Rank::Same,
{
    reveal(rank);
    lemma_rank_numbers_flip(core_of(a), core_of(b), 0);
    lemma_rank_numbers_flip(core_of(a), core_of(a), 0);
    lemma_rank_pres_flip(pre_release(a), pre_release(b), 0);
    lemma_rank_pres_flip(pre_release(a), pre_release(a), 0);
}

/// The order of versions is transitive.
pub proof fn law_versions_form_an_order(a: Seq<char>, b: Seq<char>, c: Seq<char>)
    requires
        rank(a, b) != Rank::Above,
        rank(b, c) != Rank::Above,
    ensures
        rank(a, c) != Rank::Above,
        rank(a, c) == Rank::Same ==> rank(a, b) == Rank::Same && rank(b, c) == Rank::Same,
{
    reveal(rank);
    lemma_rank_numbers_chain(core_of(a), core_of(b), core_of(c), 0);
    let p = pre_release(a);
    let q = pre_release(b);
    let r = pre_release(c);
    if p.len() > 0 && q.len() > 0 && r.len() > 0 && rank_pres(p, q, 0) != Rank::Above && rank_pres(
        q,
        r,
        0,
    ) != Rank::Above {
        lemma_rank_pres_chain(p, q, r, 0);
    }
}

/// A release is above every version with the same numbers that something follows.
pub proof fn law_releases_are_above_their_candidates(release: Seq<char>, candidate: Seq<char>)
    requires
        rank_numbers(core_of(release), core_of(candidate), 0) == Rank::Same,
        pre_release(release).len() == 0,
        pre_release(candidate).len() > 0,
    ensures
        rank(release, candidate) == Rank::Above,
{
    reveal(rank);
}

/// Sorting loses no version and adds none.
pub proof fn law_sorting_keeps_versions(versions: Seq<Seq<char>>)
    ensures
        newest_first(versions).to_multiset() == versions.to_multiset(),
        newest_first(versions).len() == versions.len(),
    decreases versions.len(),
{
    broadcast use vstd::seq_lib::group_to_multiset_ensures;

    if versions.len() > 0 {
        let rest = versions.drop_last();
        law_sorting_keeps_versions(rest);
        let row = newest_first(rest);
        let v = versions.last();
        lemma_slot(row, v, 0);
        vstd::seq_lib::to_multiset_insert(row, slot(row, v, 0), v);
        assert(versions =~= rest.push(v));
    } else {
        assert(newest_first(versions) =~= versions);
    }
}

/// Sorted versions stand with the newer first.
pub proof fn law_sorting_puts_the_newest_first(versions: Seq<Seq<char>>, i: int, j: int)
    requires
        0 <= i < j < newest_first(versions).len(),
    ensures
        rank(newest_first(versions)[i], newest_first(versions)[j]) != Rank::Below,
    decreases versions.len(),
{
    if versions.len() > 0 {
        let row = newest_first(versions.drop_last());
        let v = versions.last();
        let k = slot(row, v, 0);
        lemma_slot(row, v, 0);
        let out = newest_first(versions);
        if j < k {
            law_sorting_puts_the_newest_first(versions.drop_last(), i, j);
        } else if j == k {
            assert(out[i] == row[i]);
        } else if i == k {
            let x = row[j - 1];
            assert(out[j] == x);
            law_versions_compare_both_ways(row[k], v);
            if j - 1 > k {
                law_sorting_puts_the_newest_first(versions.drop_last(), k, j - 1);
                law_versions_compare_both_ways(row[k], x);
                law_versions_compare_both_ways(x, v);
                law_versions_form_an_order(x, row[k], v);
            }
        } else {
            let a = if i < k {
                i
            } else {
                i - 1
            };
            assert(out[i] == row[a] && out[j] == row[j - 1]);
            law_sorting_puts_the_newest_first(versions.drop_last(), a, j - 1);
        }
    }
}

} // verus!
