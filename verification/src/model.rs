//! What the text operations of this crate mean, as functions on character sequences.
//!
//! Positions count characters, never bytes. Where an operation needs the byte length of a
//! text it says so (`byte_len`).

use vstd::prelude::*;

verus! {

/// A set of characters that a scan can stop at or skip over.
#[derive(Clone, Copy)]
pub enum CharSet {
    /// The characters with the Unicode property `White_Space`.
    White,
    /// Carriage return and line feed.
    LineEnd,
    /// The ASCII digits.
    Digit,
    /// A single character.
    Only(char),
    /// One of two characters.
    Either(char, char),
}

/// The Unicode property `White_Space`.
pub open spec fn white(c: char) -> bool {
    let n = c as u32;
    ||| 0x09 <= n <= 0x0d
    ||| n == 0x20
    ||| n == 0x85
    ||| n == 0xa0
    ||| n == 0x1680
    ||| 0x2000 <= n <= 0x200a
    ||| n == 0x2028
    ||| n == 0x2029
    ||| n == 0x202f
    ||| n == 0x205f
    ||| n == 0x3000
}

pub open spec fn digit(c: char) -> bool {
    0x30 <= c as u32 <= 0x39
}

pub open spec fn ascii_upper(c: char) -> bool {
    0x41 <= c as u32 <= 0x5a
}

pub open spec fn ascii_lower(c: char) -> bool {
    0x61 <= c as u32 <= 0x7a
}

pub open spec fn ascii_alnum(c: char) -> bool {
    digit(c) || ascii_upper(c) || ascii_lower(c)
}

impl CharSet {
    pub open spec fn has(self, c: char) -> bool {
        match self {
            CharSet::White => white(c),
            CharSet::LineEnd => c == '\r' || c == '\n',
            CharSet::Digit => digit(c),
            CharSet::Only(a) => c == a,
            CharSet::Either(a, b) => c == a || c == b,
        }
    }
}

/// `p` occurs in `s` at position `i`.
pub open spec fn matches_at(s: Seq<char>, p: Seq<char>, i: int) -> bool {
    &&& 0 <= i
    &&& i + p.len() <= s.len()
    &&& s.subrange(i, i + p.len()) == p
}

/// The first position at or after `from` at which `p` occurs in `s`.
pub open spec fn find_at(s: Seq<char>, p: Seq<char>, from: int) -> Option<int>
    decreases s.len() + 1 - from,
{
    if from < 0 || from + p.len() > s.len() {
        None
    } else if matches_at(s, p, from) {
        Some(from)
    } else {
        find_at(s, p, from + 1)
    }
}

/// The first position at which `p` occurs in `s`.
pub open spec fn find(s: Seq<char>, p: Seq<char>) -> Option<int> {
    find_at(s, p, 0)
}

pub open spec fn contains(s: Seq<char>, p: Seq<char>) -> bool {
    find(s, p) is Some
}

/// How often the non-empty `p` occurs in `s` from `from` on, counted left to right without overlap.
pub open spec fn count_at(s: Seq<char>, p: Seq<char>, from: int) -> nat
    decreases s.len() - from,
{
    if p.len() == 0 || from < 0 {
        0
    } else {
        match find_at(s, p, from) {
            Some(i) => if from <= i && i + p.len() <= s.len() {
                1 + count_at(s, p, i + p.len())
            } else {
                0
            },
            None => 0,
        }
    }
}

pub open spec fn count(s: Seq<char>, p: Seq<char>) -> nat {
    count_at(s, p, 0)
}

pub open spec fn starts_with(s: Seq<char>, p: Seq<char>) -> bool {
    matches_at(s, p, 0)
}

pub open spec fn ends_with(s: Seq<char>, p: Seq<char>) -> bool {
    matches_at(s, p, s.len() - p.len())
}

pub open spec fn strip_prefix(s: Seq<char>, p: Seq<char>) -> Option<Seq<char>> {
    if starts_with(s, p) {
        Some(s.skip(p.len() as int))
    } else {
        None
    }
}

pub open spec fn strip_suffix(s: Seq<char>, p: Seq<char>) -> Option<Seq<char>> {
    if ends_with(s, p) {
        Some(s.take(s.len() - p.len()))
    } else {
        None
    }
}

/// `s` with every trailing copy of the non-empty `p` removed.
pub open spec fn trim_end_text(s: Seq<char>, p: Seq<char>) -> Seq<char>
    decreases s.len(),
{
    if p.len() > 0 && ends_with(s, p) {
        trim_end_text(s.take(s.len() - p.len()), p)
    } else {
        s
    }
}

/// The first position at or after `from` that holds a character of `k`, or the length of `s`.
pub open spec fn first_in(s: Seq<char>, k: CharSet, from: int) -> int
    decreases s.len() - from,
{
    if from < 0 || from >= s.len() {
        s.len() as int
    } else if k.has(s[from]) {
        from
    } else {
        first_in(s, k, from + 1)
    }
}

/// The first position at or after `from` that holds no character of `k`, or the length of `s`.
pub open spec fn first_not_in(s: Seq<char>, k: CharSet, from: int) -> int
    decreases s.len() - from,
{
    if from < 0 || from >= s.len() {
        s.len() as int
    } else if !k.has(s[from]) {
        from
    } else {
        first_not_in(s, k, from + 1)
    }
}

/// The end of what is left of `s[..to]` once trailing characters of `k` are dropped.
pub open spec fn back_over(s: Seq<char>, k: CharSet, to: int) -> int
    decreases to,
{
    if to <= 0 || to > s.len() {
        0
    } else if k.has(s[to - 1]) {
        back_over(s, k, to - 1)
    } else {
        to
    }
}

pub open spec fn trim_start(s: Seq<char>, k: CharSet) -> Seq<char> {
    s.skip(first_not_in(s, k, 0))
}

pub open spec fn trim_end(s: Seq<char>, k: CharSet) -> Seq<char> {
    s.take(back_over(s, k, s.len() as int))
}

/// `s` without leading and trailing characters of `k`.
pub open spec fn trim_set(s: Seq<char>, k: CharSet) -> Seq<char> {
    trim_end(trim_start(s, k), k)
}

/// `s` without leading and trailing white space.
pub open spec fn trim(s: Seq<char>) -> Seq<char> {
    trim_set(s, CharSet::White)
}

/// Nothing but white space.
pub open spec fn blank(s: Seq<char>) -> bool {
    trim(s).len() == 0
}

/// The pieces of `s[from..]` between the characters of `k`.
pub open spec fn split_at(s: Seq<char>, k: CharSet, from: int) -> Seq<Seq<char>>
    decreases s.len() - from,
{
    if from < 0 || from > s.len() {
        seq![]
    } else {
        let n = first_in(s, k, from);
        if n < from || n >= s.len() {
            seq![s.skip(from)]
        } else {
            seq![s.subrange(from, n)] + split_at(s, k, n + 1)
        }
    }
}

pub open spec fn split(s: Seq<char>, k: CharSet) -> Seq<Seq<char>> {
    split_at(s, k, 0)
}

/// The elements of `parts` that are not empty, in order.
pub open spec fn non_empty(parts: Seq<Seq<char>>) -> Seq<Seq<char>>
    decreases parts.len(),
{
    if parts.len() == 0 {
        seq![]
    } else if parts.last().len() == 0 {
        non_empty(parts.drop_last())
    } else {
        non_empty(parts.drop_last()).push(parts.last())
    }
}

/// The maximal runs of `s` free of white space.
pub open spec fn words(s: Seq<char>) -> Seq<Seq<char>> {
    non_empty(split(s, CharSet::White))
}

/// `s` without one trailing carriage return.
pub open spec fn drop_cr(s: Seq<char>) -> Seq<char> {
    if s.len() > 0 && s.last() == '\r' {
        s.drop_last()
    } else {
        s
    }
}

/// The lines of `s[from..]`: each ends at a line feed, which is dropped together with a carriage
/// return right before it; what follows the last line feed is a line only if it is not empty.
pub open spec fn lines_at(s: Seq<char>, from: int) -> Seq<Seq<char>>
    decreases s.len() - from,
{
    if from < 0 || from >= s.len() {
        seq![]
    } else {
        let n = first_in(s, CharSet::Only('\n'), from);
        if n < from || n >= s.len() {
            seq![s.skip(from)]
        } else {
            seq![drop_cr(s.subrange(from, n))] + lines_at(s, n + 1)
        }
    }
}

pub open spec fn lines(s: Seq<char>) -> Seq<Seq<char>> {
    lines_at(s, 0)
}

/// `s` cut at the first character of `k`, which belongs to neither half.
pub open spec fn split_once(s: Seq<char>, k: CharSet) -> Option<(Seq<char>, Seq<char>)> {
    let n = first_in(s, k, 0);
    if n < s.len() {
        Some((s.take(n), s.skip(n + 1)))
    } else {
        None
    }
}

/// What stands before the first character of `k`.
pub open spec fn before_first(s: Seq<char>, k: CharSet) -> Seq<char> {
    s.take(first_in(s, k, 0))
}

/// The last position before `to` that holds a character of `k`, or -1.
pub open spec fn last_in(s: Seq<char>, k: CharSet, to: int) -> int
    decreases to,
{
    if to <= 0 || to > s.len() {
        -1
    } else if k.has(s[to - 1]) {
        to - 1
    } else {
        last_in(s, k, to - 1)
    }
}

/// What stands after the last character of `k`.
pub open spec fn after_last(s: Seq<char>, k: CharSet) -> Seq<char> {
    s.skip(last_in(s, k, s.len() as int) + 1)
}

/// `s` cut at the last character of `k`, which belongs to neither half.
pub open spec fn rsplit_once(s: Seq<char>, k: CharSet) -> Option<(Seq<char>, Seq<char>)> {
    let n = last_in(s, k, s.len() as int);
    if n >= 0 {
        Some((s.take(n), s.skip(n + 1)))
    } else {
        None
    }
}

/// `s` with every character `c` replaced by the text `by`.
pub open spec fn replace_char(s: Seq<char>, c: char, by: Seq<char>) -> Seq<char>
    decreases s.len(),
{
    if s.len() == 0 {
        seq![]
    } else if s.last() == c {
        replace_char(s.drop_last(), c, by) + by
    } else {
        replace_char(s.drop_last(), c, by).push(s.last())
    }
}

/// `s[from..]` with every occurrence of the non-empty `p` replaced by `by`, left to right without
/// overlap.
pub open spec fn replace_at(s: Seq<char>, p: Seq<char>, by: Seq<char>, from: int) -> Seq<char>
    decreases s.len() - from,
{
    if p.len() == 0 || from < 0 || from > s.len() {
        s
    } else {
        match find_at(s, p, from) {
            Some(i) => if from <= i && i + p.len() <= s.len() {
                s.subrange(from, i) + by + replace_at(s, p, by, i + p.len())
            } else {
                s.skip(from)
            },
            None => s.skip(from),
        }
    }
}

pub open spec fn replace(s: Seq<char>, p: Seq<char>, by: Seq<char>) -> Seq<char> {
    replace_at(s, p, by, 0)
}

/// The elements of `parts` one after the other with `sep` between neighbours.
pub open spec fn join(parts: Seq<Seq<char>>, sep: Seq<char>) -> Seq<char>
    decreases parts.len(),
{
    if parts.len() == 0 {
        seq![]
    } else if parts.len() == 1 {
        parts[0]
    } else {
        join(parts.drop_last(), sep) + sep + parts.last()
    }
}

pub open spec fn lower_ascii_char(c: char) -> char {
    if ascii_upper(c) {
        ((c as u32 + 32) as u32) as char
    } else {
        c
    }
}

/// `s` with the letters `A` to `Z` in lower case and everything else as it is.
pub open spec fn lower_ascii(s: Seq<char>) -> Seq<char> {
    s.map_values(|c: char| lower_ascii_char(c))
}

/// `s` and `t` differ at most in the case of ASCII letters.
pub open spec fn same_but_case(s: Seq<char>, t: Seq<char>) -> bool {
    lower_ascii(s) == lower_ascii(t)
}

pub open spec fn digit_char(d: nat) -> char {
    ((0x30 + d) as u32) as char
}

/// The decimal digits of `n`, without leading zeros.
pub open spec fn decimal(n: nat) -> Seq<char>
    decreases n,
{
    if n < 10 {
        seq![digit_char(n)]
    } else {
        decimal(n / 10).push(digit_char(n % 10))
    }
}

/// A whole number in decimal digits, with a minus sign where it is negative.
pub open spec fn signed(n: int) -> Seq<char> {
    if n < 0 {
        "-"@ + decimal((-n) as nat)
    } else {
        decimal(n as nat)
    }
}

pub open spec fn digit_value(c: char) -> nat {
    (c as u32 - 0x30) as nat
}

pub open spec fn all_digits(s: Seq<char>) -> bool {
    forall|i: int| 0 <= i < s.len() ==> digit(#[trigger] s[i])
}

/// The number that a row of decimal digits stands for.
pub open spec fn digits_value(s: Seq<char>) -> nat
    decreases s.len(),
{
    if s.len() == 0 {
        0
    } else {
        digits_value(s.drop_last()) * 10 + digit_value(s.last())
    }
}

/// The unsigned number up to `max` that `s` spells: digits, with an optional plus sign in front.
pub open spec fn parse_unsigned(s: Seq<char>, max: nat) -> Option<nat> {
    let t = if s.len() > 0 && s[0] == '+' {
        s.skip(1)
    } else {
        s
    };
    if t.len() > 0 && all_digits(t) && digits_value(t) <= max {
        Some(digits_value(t))
    } else {
        None
    }
}

/// The number of bytes of `s` in UTF-8.
pub open spec fn byte_len(s: Seq<char>) -> nat {
    vstd::utf8::encode_utf8(s).len()
}

/// The position at which `s` and `t` first differ, or the length of the shorter one.
pub open spec fn common_prefix(s: Seq<char>, t: Seq<char>, from: int) -> int
    decreases s.len() - from,
{
    if from < 0 || from >= s.len() || from >= t.len() || s[from] != t[from] {
        from
    } else {
        common_prefix(s, t, from + 1)
    }
}

/// `s` comes strictly before `t` in the order of code points.
pub open spec fn precedes(s: Seq<char>, t: Seq<char>) -> bool {
    let i = common_prefix(s, t, 0);
    if i >= s.len() {
        s.len() < t.len()
    } else if i >= t.len() {
        false
    } else {
        (s[i] as u32) < (t[i] as u32)
    }
}

/// The last `n` elements of `s`, or all of them.
pub open spec fn last_of<T>(s: Seq<T>, n: int) -> Seq<T> {
    if s.len() > n {
        s.skip(s.len() - n)
    } else {
        s
    }
}

/// The texts that a row of strings holds.
pub open spec fn texts(v: Seq<String>) -> Seq<Seq<char>> {
    v.map_values(|s: String| s@)
}

/// The texts that a pair of strings holds, where there is one.
pub open spec fn pair_of(o: Option<(String, String)>) -> Option<(Seq<char>, Seq<char>)> {
    match o {
        Some((a, b)) => Some((a@, b@)),
        None => None,
    }
}

/// The text that an optional string holds.
pub open spec fn text_of(o: Option<String>) -> Option<Seq<char>> {
    match o {
        Some(s) => Some(s@),
        None => None,
    }
}

/// The text that an optional string slice holds.
pub open spec fn slice_of(o: Option<&str>) -> Option<Seq<char>> {
    match o {
        Some(s) => Some(s@),
        None => None,
    }
}

pub proof fn lemma_find_at(s: Seq<char>, p: Seq<char>, from: int)
    requires
        0 <= from,
    ensures
        match find_at(s, p, from) {
            Some(i) => from <= i && matches_at(s, p, i) && (forall|j: int|
                from <= j < i ==> !#[trigger] matches_at(s, p, j)),
            None => forall|j: int| from <= j ==> !#[trigger] matches_at(s, p, j),
        },
    decreases s.len() + 1 - from,
{
    if from + p.len() > s.len() {
    } else if matches_at(s, p, from) {
    } else {
        lemma_find_at(s, p, from + 1);
    }
}

/// The first occurrence is where an occurrence has none before it.
pub proof fn lemma_find_at_is(s: Seq<char>, p: Seq<char>, from: int, i: int)
    requires
        0 <= from <= i,
        matches_at(s, p, i),
        forall|j: int| from <= j < i ==> !#[trigger] matches_at(s, p, j),
    ensures
        find_at(s, p, from) == Some(i),
{
    lemma_find_at(s, p, from);
    if let Some(k) = find_at(s, p, from) {
        if k < i {
            assert(!matches_at(s, p, k));
        }
    }
}

pub proof fn lemma_find_at_none(s: Seq<char>, p: Seq<char>, from: int)
    requires
        0 <= from,
        forall|j: int| from <= j ==> !#[trigger] matches_at(s, p, j),
    ensures
        find_at(s, p, from) is None,
{
    lemma_find_at(s, p, from);
}

pub proof fn lemma_first_in(s: Seq<char>, k: CharSet, from: int)
    requires
        0 <= from <= s.len(),
    ensures
        from <= first_in(s, k, from) <= s.len(),
        first_in(s, k, from) < s.len() ==> k.has(s[first_in(s, k, from)]),
        forall|j: int| from <= j < first_in(s, k, from) ==> !k.has(#[trigger] s[j]),
    decreases s.len() - from,
{
    if from < s.len() && !k.has(s[from]) {
        lemma_first_in(s, k, from + 1);
    }
}

pub proof fn lemma_first_not_in(s: Seq<char>, k: CharSet, from: int)
    requires
        0 <= from <= s.len(),
    ensures
        from <= first_not_in(s, k, from) <= s.len(),
        first_not_in(s, k, from) < s.len() ==> !k.has(s[first_not_in(s, k, from)]),
        forall|j: int| from <= j < first_not_in(s, k, from) ==> k.has(#[trigger] s[j]),
    decreases s.len() - from,
{
    if from < s.len() && k.has(s[from]) {
        lemma_first_not_in(s, k, from + 1);
    }
}

pub proof fn lemma_back_over(s: Seq<char>, k: CharSet, to: int)
    requires
        0 <= to <= s.len(),
    ensures
        0 <= back_over(s, k, to) <= to,
        back_over(s, k, to) > 0 ==> !k.has(s[back_over(s, k, to) - 1]),
        forall|j: int| back_over(s, k, to) <= j < to ==> k.has(#[trigger] s[j]),
    decreases to,
{
    if to > 0 && k.has(s[to - 1]) {
        lemma_back_over(s, k, to - 1);
    }
}

pub proof fn lemma_common_prefix(s: Seq<char>, t: Seq<char>, from: int)
    requires
        0 <= from <= s.len(),
        from <= t.len(),
        forall|j: int| 0 <= j < from ==> s[j] == t[j],
    ensures
        from <= common_prefix(s, t, from) <= s.len(),
        common_prefix(s, t, from) <= t.len(),
        forall|j: int| 0 <= j < common_prefix(s, t, from) ==> s[j] == t[j],
        ({
            let i = common_prefix(s, t, from);
            i < s.len() && i < t.len() ==> s[i] != t[i]
        }),
    decreases s.len() - from,
{
    if from < s.len() && from < t.len() && s[from] == t[from] {
        lemma_common_prefix(s, t, from + 1);
    }
}

/// Among the arguments of a command, the flag stands directly before the value.
pub open spec fn passes(args: Seq<Seq<char>>, flag: Seq<char>, value: Seq<char>) -> bool {
    exists|i: int| 0 <= i < args.len() - 1 && #[trigger] args[i] == flag && args[i + 1] == value
}

/// `p` stands somewhere in `s`.
pub open spec fn occurs(s: Seq<char>, p: Seq<char>) -> bool {
    exists|at: int| #[trigger] matches_at(s, p, at)
}

pub proof fn lemma_occurs(s: Seq<char>, before: Seq<char>, p: Seq<char>, after: Seq<char>)
    requires
        s == before + p + after,
    ensures
        occurs(s, p),
{
    let at = before.len() as int;
    assert(s.subrange(at, at + p.len()) =~= p);
    assert(matches_at(s, p, at));
}

} // verus!
