//! Text operations, each proved against its meaning in `model`.

use crate::model;
use crate::model::CharSet;
use vstd::prelude::*;

verus! {

/// `String::push` of std: appends the given character to the end of the string.
pub assume_specification[ String::push ](s: &mut String, c: char)
    ensures
        final(s)@ == old(s)@.push(c),
;

/// How std writes a text with the format `{:?}`: in double quotes, with escapes.
pub uninterp spec fn debug_form(s: Seq<char>) -> Seq<char>;

/// Calls `format!("{:?}", s)` of std. The result depends on the text alone; which characters are
/// written as escapes is not stated.
#[verifier::external_body]
pub(crate) fn debug_text(s: &str) -> (r: String)
    ensures
        r@ == debug_form(s@),
{
    format!("{:?}", s)
}

/// A text in lower case, by the rules of Unicode.
pub uninterp spec fn lowercase(s: Seq<char>) -> Seq<char>;

/// Calls `str::to_lowercase` of std. The result depends on the text alone; the table of Unicode
/// that it goes by is not stated.
#[verifier::external_body]
pub(crate) fn lower(s: &str) -> (r: String)
    ensures
        r@ == lowercase(s@),
{
    s.to_lowercase()
}

/// The number of bytes of `s` in UTF-8.
pub fn byte_len(s: &str) -> (n: usize)
    ensures
        n == model::byte_len(s@),
{
    s.as_bytes().len()
}

impl CharSet {
    pub fn test(&self, c: char) -> (b: bool)
        ensures
            b == self.has(c),
    {
        let n: u32 = c as u32;
        match self {
            CharSet::White => {
                (0x09 <= n && n <= 0x0d) || n == 0x20 || n == 0x85 || n == 0xa0 || n == 0x1680 || (
                0x2000 <= n && n <= 0x200a) || n == 0x2028 || n == 0x2029 || n == 0x202f || n
                    == 0x205f || n == 0x3000
            },
            CharSet::LineEnd => c == '\r' || c == '\n',
            CharSet::Digit => 0x30 <= n && n <= 0x39,
            CharSet::Only(a) => c == *a,
            CharSet::Either(a, b) => c == *a || c == *b,
        }
    }
}

/// The characters of `s`.
pub fn chars_of(s: &str) -> (v: Vec<char>)
    ensures
        v@ == s@,
{
    let mut v: Vec<char> = Vec::new();
    for c in iter: s.chars()
        invariant
            iter.seq() == s@,
            v@ == iter.seq().take(iter.index() as int),
    {
        v.push(c);
        proof {
            assert(s@.take(iter.index() as int).push(c) =~= s@.take(iter.index() as int + 1));
        }
    }
    proof {
        assert(s@.take(s@.len() as int) =~= s@);
    }
    v
}

/// The text `v[from..to]`.
pub fn string_of(v: &Vec<char>, from: usize, to: usize) -> (r: String)
    requires
        from <= to <= v.len(),
    ensures
        r@ == v@.subrange(from as int, to as int),
{
    let mut r = String::new();
    let mut i: usize = from;
    proof {
        assert(v@.subrange(from as int, from as int) =~= Seq::<char>::empty());
    }
    while i < to
        invariant
            from <= i <= to <= v.len(),
            r@ == v@.subrange(from as int, i as int),
        decreases to - i,
    {
        r.push(v[i]);
        i += 1;
        proof {
            assert(v@.subrange(from as int, i - 1).push(v[i - 1]) =~= v@.subrange(
                from as int,
                i as int,
            ));
        }
    }
    r
}

/// The two texts are equal.
pub fn same(a: &str, b: &str) -> (r: bool)
    ensures
        r == (a@ == b@),
{
    let x = a.to_owned();
    let y = b.to_owned();
    x == y
}

pub fn cat2(a: &str, b: &str) -> (r: String)
    ensures
        r@ == a@ + b@,
{
    let mut r = a.to_owned();
    r.append(b);
    r
}

pub fn cat3(a: &str, b: &str, c: &str) -> (r: String)
    ensures
        r@ == a@ + b@ + c@,
{
    let mut r = cat2(a, b);
    r.append(c);
    r
}

pub fn cat4(a: &str, b: &str, c: &str, d: &str) -> (r: String)
    ensures
        r@ == a@ + b@ + c@ + d@,
{
    let mut r = cat3(a, b, c);
    r.append(d);
    r
}

pub fn cat5(a: &str, b: &str, c: &str, d: &str, e: &str) -> (r: String)
    ensures
        r@ == a@ + b@ + c@ + d@ + e@,
{
    let mut r = cat4(a, b, c, d);
    r.append(e);
    r
}

pub fn cat6(a: &str, b: &str, c: &str, d: &str, e: &str, f: &str) -> (r: String)
    ensures
        r@ == a@ + b@ + c@ + d@ + e@ + f@,
{
    let mut r = cat5(a, b, c, d, e);
    r.append(f);
    r
}

pub fn cat7(a: &str, b: &str, c: &str, d: &str, e: &str, f: &str, g: &str) -> (r: String)
    ensures
        r@ == a@ + b@ + c@ + d@ + e@ + f@ + g@,
{
    let mut r = cat6(a, b, c, d, e, f);
    r.append(g);
    r
}

/// Whether `p` occurs in `v` at `i`.
fn at(v: &Vec<char>, p: &Vec<char>, i: usize) -> (b: bool)
    ensures
        b == model::matches_at(v@, p@, i as int),
{
    if i > v.len() || v.len() - i < p.len() {
        return false;
    }
    let mut j: usize = 0;
    while j < p.len()
        invariant
            i + p.len() <= v.len(),
            j <= p.len(),
            forall|m: int| 0 <= m < j ==> v[i + m] == p[m],
        decreases p.len() - j,
    {
        if v[i + j] != p[j] {
            proof {
                assert(v@.subrange(i as int, i + p.len())[j as int] != p@[j as int]);
            }
            return false;
        }
        j += 1;
    }
    proof {
        assert(v@.subrange(i as int, i + p.len()) =~= p@);
    }
    true
}

/// The first position at or after `from` at which `p` occurs in `v`.
pub fn find_in(v: &Vec<char>, p: &Vec<char>, from: usize) -> (r: Option<usize>)
    ensures
        match r {
            Some(i) => model::find_at(v@, p@, from as int) == Some(i as int) && from <= i && i
                + p.len() <= v.len(),
            None => model::find_at(v@, p@, from as int) is None,
        },
{
    let mut i: usize = from;
    while i <= v.len() && v.len() - i >= p.len()
        invariant
            from <= i,
            model::find_at(v@, p@, from as int) == model::find_at(v@, p@, i as int),
        decreases v.len() + 1 - i,
    {
        if at(v, p, i) {
            return Some(i);
        }
        if i == usize::MAX {
            proof {
                assert(v.len() == usize::MAX && p.len() == 0);
                assert(v@.subrange(i as int, i as int) =~= p@);
            }
            return None;
        }
        i += 1;
    }
    None
}

/// The first position at which `p` occurs in `s`, counted in characters.
pub fn find(s: &str, p: &str) -> (r: Option<usize>)
    ensures
        match r {
            Some(i) => model::find(s@, p@) == Some(i as int) && i + p@.len() <= s@.len(),
            None => model::find(s@, p@) is None,
        },
{
    find_in(&chars_of(s), &chars_of(p), 0)
}

pub fn contains(s: &str, p: &str) -> (b: bool)
    ensures
        b == model::contains(s@, p@),
{
    find(s, p).is_some()
}

/// How often the non-empty `p` occurs in `s` without overlap.
pub fn count(s: &str, p: &str) -> (n: usize)
    requires
        p@.len() > 0,
    ensures
        n == model::count(s@, p@),
{
    let v = chars_of(s);
    let q = chars_of(p);
    let mut n: usize = 0;
    let mut i: usize = 0;
    loop
        invariant
            v@ == s@,
            q@ == p@,
            p@.len() > 0,
            n <= i <= v.len(),
            model::count(s@, p@) == n + model::count_at(s@, p@, i as int),
        ensures
            n == model::count(s@, p@),
        decreases v.len() - i,
    {
        match find_in(&v, &q, i) {
            Some(j) => {
                n += 1;
                i = j + q.len();
            },
            None => {
                break;
            },
        }
    }
    n
}

pub fn starts_with(s: &str, p: &str) -> (b: bool)
    ensures
        b == model::starts_with(s@, p@),
{
    at(&chars_of(s), &chars_of(p), 0)
}

pub fn ends_with(s: &str, p: &str) -> (b: bool)
    ensures
        b == model::ends_with(s@, p@),
{
    let v = chars_of(s);
    let q = chars_of(p);
    if v.len() < q.len() {
        false
    } else {
        at(&v, &q, v.len() - q.len())
    }
}

pub fn strip_prefix(s: &str, p: &str) -> (r: Option<String>)
    ensures
        model::text_of(r) == model::strip_prefix(s@, p@),
{
    let v = chars_of(s);
    let q = chars_of(p);
    if at(&v, &q, 0) {
        let r = string_of(&v, q.len(), v.len());
        proof {
            assert(r@ =~= s@.skip(p@.len() as int));
        }
        Some(r)
    } else {
        None
    }
}

pub fn strip_suffix(s: &str, p: &str) -> (r: Option<String>)
    ensures
        model::text_of(r) == model::strip_suffix(s@, p@),
{
    let v = chars_of(s);
    let q = chars_of(p);
    if v.len() >= q.len() && at(&v, &q, v.len() - q.len()) {
        let r = string_of(&v, 0, v.len() - q.len());
        proof {
            assert(r@ =~= s@.take(s@.len() - p@.len()));
        }
        Some(r)
    } else {
        None
    }
}

/// `s` with every trailing copy of `p` removed; an empty `p` leaves it as it is.
pub fn trim_end_text(s: &str, p: &str) -> (r: String)
    ensures
        r@ == model::trim_end_text(s@, p@),
{
    let mut r = s.to_owned();
    if p.is_empty() {
        return r;
    }
    loop
        invariant
            p@.len() > 0,
            model::trim_end_text(s@, p@) == model::trim_end_text(r@, p@),
        ensures
            r@ == model::trim_end_text(s@, p@),
        decreases r@.len(),
    {
        match strip_suffix(r.as_str(), p) {
            Some(t) => {
                r = t;
            },
            None => {
                break;
            },
        }
    }
    r
}

/// The first position at or after `from` with a character of `k`, or the length of `v`.
pub fn first_in(v: &Vec<char>, k: CharSet, from: usize) -> (n: usize)
    requires
        from <= v.len(),
    ensures
        n == model::first_in(v@, k, from as int),
        from <= n <= v.len(),
{
    let mut i: usize = from;
    while i < v.len() && !k.test(v[i])
        invariant
            from <= i <= v.len(),
            model::first_in(v@, k, from as int) == model::first_in(v@, k, i as int),
        decreases v.len() - i,
    {
        i += 1;
    }
    i
}

/// The first position at or after `from` without a character of `k`, or the length of `v`.
pub fn first_not_in(v: &Vec<char>, k: CharSet, from: usize) -> (n: usize)
    requires
        from <= v.len(),
    ensures
        n == model::first_not_in(v@, k, from as int),
        from <= n <= v.len(),
{
    let mut i: usize = from;
    while i < v.len() && k.test(v[i])
        invariant
            from <= i <= v.len(),
            model::first_not_in(v@, k, from as int) == model::first_not_in(v@, k, i as int),
        decreases v.len() - i,
    {
        i += 1;
    }
    i
}

fn back_over(v: &Vec<char>, k: CharSet, to: usize) -> (n: usize)
    requires
        to <= v.len(),
    ensures
        n == model::back_over(v@, k, to as int),
        n <= to,
{
    let mut i: usize = to;
    while i > 0 && k.test(v[i - 1])
        invariant
            i <= to <= v.len(),
            model::back_over(v@, k, to as int) == model::back_over(v@, k, i as int),
        decreases i,
    {
        i -= 1;
    }
    i
}

pub fn trim_start(s: &str, k: CharSet) -> (r: String)
    ensures
        r@ == model::trim_start(s@, k),
{
    let v = chars_of(s);
    let n = first_not_in(&v, k, 0);
    let r = string_of(&v, n, v.len());
    proof {
        assert(r@ =~= s@.skip(n as int));
    }
    r
}

pub fn trim_end(s: &str, k: CharSet) -> (r: String)
    ensures
        r@ == model::trim_end(s@, k),
{
    let v = chars_of(s);
    let n = back_over(&v, k, v.len());
    let r = string_of(&v, 0, n);
    proof {
        assert(r@ =~= s@.take(n as int));
    }
    r
}

/// `s` without leading and trailing characters of `k`.
pub fn trim_set(s: &str, k: CharSet) -> (r: String)
    ensures
        r@ == model::trim_set(s@, k),
{
    trim_end(trim_start(s, k).as_str(), k)
}

/// `s` without leading and trailing white space.
pub fn trim(s: &str) -> (r: String)
    ensures
        r@ == model::trim(s@),
{
    trim_set(s, CharSet::White)
}

/// Whether `s` holds nothing but white space.
pub fn blank(s: &str) -> (b: bool)
    ensures
        b == model::blank(s@),
{
    trim(s).as_str().is_empty()
}

/// The pieces of `s` between the characters of `k`.
pub fn split(s: &str, k: CharSet) -> (r: Vec<String>)
    ensures
        model::texts(r@) == model::split(s@, k),
{
    let v = chars_of(s);
    let mut r: Vec<String> = Vec::new();
    let mut from: usize = 0;
    proof {
        assert(model::texts(r@) + model::split_at(s@, k, 0) =~= model::split(s@, k));
    }
    loop
        invariant_except_break
            model::texts(r@) + model::split_at(s@, k, from as int) == model::split(s@, k),
        invariant
            v@ == s@,
            from <= v.len(),
        ensures
            model::texts(r@) == model::split(s@, k),
        decreases v.len() - from,
    {
        let n = first_in(&v, k, from);
        let piece = string_of(&v, from, n);
        let ghost before = model::texts(r@);
        r.push(piece);
        proof {
            assert(model::texts(r@) =~= before.push(piece@));
        }
        if n == v.len() {
            proof {
                assert(piece@ =~= s@.skip(from as int));
                assert(before + seq![piece@] =~= before.push(piece@));
            }
            break;
        }
        proof {
            let rest = model::split_at(s@, k, n + 1);
            assert(before + (seq![piece@] + rest) =~= before.push(piece@) + rest);
        }
        from = n + 1;
    }
    r
}

/// The elements of `parts` that are not empty.
pub fn non_empty(parts: &Vec<String>) -> (r: Vec<String>)
    ensures
        model::texts(r@) == model::non_empty(model::texts(parts@)),
{
    let mut r: Vec<String> = Vec::new();
    let mut i: usize = 0;
    proof {
        assert(model::texts(parts@).take(0) =~= seq![]);
        assert(model::texts(r@) =~= seq![]);
    }
    while i < parts.len()
        invariant
            i <= parts.len(),
            model::texts(r@) == model::non_empty(model::texts(parts@).take(i as int)),
        decreases parts.len() - i,
    {
        let ghost done = model::texts(parts@).take(i as int + 1);
        proof {
            assert(done.drop_last() =~= model::texts(parts@).take(i as int));
            assert(done.last() == parts@[i as int]@);
        }
        if !parts[i].as_str().is_empty() {
            let ghost before = model::texts(r@);
            let piece = parts[i].clone();
            r.push(piece);
            proof {
                assert(model::texts(r@) =~= before.push(parts@[i as int]@));
            }
        }
        i += 1;
    }
    proof {
        assert(model::texts(parts@).take(parts.len() as int) =~= model::texts(parts@));
    }
    r
}

/// The runs of `s` free of white space.
pub fn words(s: &str) -> (r: Vec<String>)
    ensures
        model::texts(r@) == model::words(s@),
{
    non_empty(&split(s, CharSet::White))
}

/// The lines of `s`.
pub fn lines(s: &str) -> (r: Vec<String>)
    ensures
        model::texts(r@) == model::lines(s@),
{
    let v = chars_of(s);
    let k = CharSet::Only('\n');
    let mut r: Vec<String> = Vec::new();
    let mut from: usize = 0;
    proof {
        assert(model::texts(r@) + model::lines_at(s@, 0) =~= model::lines(s@));
    }
    while from < v.len()
        invariant
            v@ == s@,
            k == CharSet::Only('\n'),
            from <= v.len(),
            model::texts(r@) + model::lines_at(s@, from as int) == model::lines(s@),
        decreases v.len() - from,
    {
        let n = first_in(&v, k, from);
        let ghost before = model::texts(r@);
        if n == v.len() {
            let piece = string_of(&v, from, n);
            r.push(piece);
            proof {
                assert(piece@ =~= s@.skip(from as int));
                assert(model::texts(r@) =~= before.push(piece@));
                assert(before.push(piece@) + model::lines_at(s@, n as int) =~= before + seq![
                    piece@,
                ]);
            }
            from = n;
        } else {
            let end: usize = if n > from && v[n - 1] == '\r' {
                n - 1
            } else {
                n
            };
            let piece = string_of(&v, from, end);
            r.push(piece);
            proof {
                let full = s@.subrange(from as int, n as int);
                assert(n > from ==> full.last() == s@[n - 1]);
                assert(piece@ =~= model::drop_cr(full));
                assert(model::texts(r@) =~= before.push(piece@));
                let rest = model::lines_at(s@, n + 1);
                assert(before + (seq![piece@] + rest) =~= before.push(piece@) + rest);
            }
            from = n + 1;
        }
    }
    proof {
        assert(model::texts(r@) + model::lines_at(s@, from as int) =~= model::texts(r@));
    }
    r
}

/// `s` cut at its first character of `k`.
pub fn split_once(s: &str, k: CharSet) -> (r: Option<(String, String)>)
    ensures
        model::pair_of(r) == model::split_once(s@, k),
{
    let v = chars_of(s);
    let n = first_in(&v, k, 0);
    if n < v.len() {
        let a = string_of(&v, 0, n);
        let b = string_of(&v, n + 1, v.len());
        proof {
            assert(a@ =~= s@.take(n as int));
            assert(b@ =~= s@.skip(n + 1));
        }
        Some((a, b))
    } else {
        None
    }
}

/// What stands before the first character of `k`.
pub fn before_first(s: &str, k: CharSet) -> (r: String)
    ensures
        r@ == model::before_first(s@, k),
{
    let v = chars_of(s);
    let n = first_in(&v, k, 0);
    let r = string_of(&v, 0, n);
    proof {
        assert(r@ =~= s@.take(n as int));
    }
    r
}

/// The position right after the last character of `k` before `to`, or 0.
fn past_last_in(v: &Vec<char>, k: CharSet, to: usize) -> (n: usize)
    requires
        to <= v.len(),
    ensures
        n == model::last_in(v@, k, to as int) + 1,
        n <= to,
{
    let mut i: usize = to;
    while i > 0 && !k.test(v[i - 1])
        invariant
            i <= to <= v.len(),
            model::last_in(v@, k, to as int) == model::last_in(v@, k, i as int),
        decreases i,
    {
        i -= 1;
    }
    i
}

/// What stands after the last character of `k`.
pub fn after_last(s: &str, k: CharSet) -> (r: String)
    ensures
        r@ == model::after_last(s@, k),
{
    let v = chars_of(s);
    let n = past_last_in(&v, k, v.len());
    let r = string_of(&v, n, v.len());
    proof {
        assert(r@ =~= s@.skip(n as int));
    }
    r
}

/// `s` cut at its last character of `k`.
pub fn rsplit_once(s: &str, k: CharSet) -> (r: Option<(String, String)>)
    ensures
        model::pair_of(r) == model::rsplit_once(s@, k),
{
    let v = chars_of(s);
    let n = past_last_in(&v, k, v.len());
    if n > 0 {
        let a = string_of(&v, 0, n - 1);
        let b = string_of(&v, n, v.len());
        proof {
            assert(a@ =~= s@.take(n - 1));
            assert(b@ =~= s@.skip(n as int));
        }
        Some((a, b))
    } else {
        None
    }
}

/// `s` with every character `c` replaced by the text `by`.
pub fn replace_char(s: &str, c: char, by: &str) -> (r: String)
    ensures
        r@ == model::replace_char(s@, c, by@),
{
    let v = chars_of(s);
    let mut r = String::new();
    let mut i: usize = 0;
    proof {
        assert(s@.take(0) =~= seq![]);
        assert(r@ =~= seq![]);
    }
    while i < v.len()
        invariant
            v@ == s@,
            i <= v.len(),
            r@ == model::replace_char(s@.take(i as int), c, by@),
        decreases v.len() - i,
    {
        proof {
            assert(s@.take(i as int + 1).drop_last() =~= s@.take(i as int));
        }
        if v[i] == c {
            r.append(by);
        } else {
            r.push(v[i]);
        }
        i += 1;
    }
    proof {
        assert(s@.take(s@.len() as int) =~= s@);
    }
    r
}

/// `s` with every occurrence of the non-empty `p` replaced by `by`.
pub fn replace(s: &str, p: &str, by: &str) -> (r: String)
    requires
        p@.len() > 0,
    ensures
        r@ == model::replace(s@, p@, by@),
{
    let v = chars_of(s);
    let q = chars_of(p);
    let mut r = String::new();
    let mut i: usize = 0;
    proof {
        assert(r@ + model::replace_at(s@, p@, by@, 0) =~= model::replace(s@, p@, by@));
    }
    loop
        invariant_except_break
            r@ + model::replace_at(s@, p@, by@, i as int) == model::replace(s@, p@, by@),
        invariant
            v@ == s@,
            q@ == p@,
            p@.len() > 0,
            i <= v.len(),
        ensures
            r@ == model::replace(s@, p@, by@),
        decreases v.len() - i,
    {
        let ghost before = r@;
        match find_in(&v, &q, i) {
            Some(j) => {
                let piece = string_of(&v, i, j);
                r.append(piece.as_str());
                r.append(by);
                proof {
                    let rest = model::replace_at(s@, p@, by@, j + p@.len());
                    assert(before + (piece@ + by@ + rest) =~= before + piece@ + by@ + rest);
                }
                i = j + q.len();
            },
            None => {
                let piece = string_of(&v, i, v.len());
                r.append(piece.as_str());
                proof {
                    assert(piece@ =~= s@.skip(i as int));
                }
                break;
            },
        }
    }
    r
}

/// The elements of `parts` with `sep` between neighbours.
pub fn join(parts: &Vec<String>, sep: &str) -> (r: String)
    ensures
        r@ == model::join(model::texts(parts@), sep@),
{
    let mut r = String::new();
    let mut i: usize = 0;
    let ghost all = model::texts(parts@);
    proof {
        assert(all.take(0) =~= seq![]);
        assert(r@ =~= seq![]);
    }
    while i < parts.len()
        invariant
            all == model::texts(parts@),
            i <= parts.len(),
            r@ == model::join(all.take(i as int), sep@),
        decreases parts.len() - i,
    {
        proof {
            assert(all.take(i as int + 1).drop_last() =~= all.take(i as int));
            assert(all.take(i as int + 1).last() == parts@[i as int]@);
        }
        if i > 0 {
            r.append(sep);
        }
        r.append(parts[i].as_str());
        proof {
            if i == 0 {
                assert(r@ =~= parts@[0]@);
            }
        }
        i += 1;
    }
    proof {
        assert(all.take(parts.len() as int) =~= all);
    }
    r
}

fn lower_ascii_char(c: char) -> (r: char)
    ensures
        r == model::lower_ascii_char(c),
{
    let n: u32 = c as u32;
    if 0x41 <= n && n <= 0x5a {
        ((n + 32) as u8) as char
    } else {
        c
    }
}

/// `s` with the letters `A` to `Z` in lower case.
pub fn lower_ascii(s: &str) -> (r: String)
    ensures
        r@ == model::lower_ascii(s@),
{
    let v = chars_of(s);
    let mut r = String::new();
    let mut i: usize = 0;
    while i < v.len()
        invariant
            v@ == s@,
            i <= v.len(),
            r@.len() == i,
            forall|j: int| 0 <= j < i ==> r@[j] == model::lower_ascii_char(s@[j]),
        decreases v.len() - i,
    {
        r.push(lower_ascii_char(v[i]));
        i += 1;
    }
    proof {
        assert(r@ =~= model::lower_ascii(s@));
    }
    r
}

/// Whether `a` and `b` differ at most in the case of ASCII letters.
pub fn same_but_case(a: &str, b: &str) -> (r: bool)
    ensures
        r == model::same_but_case(a@, b@),
{
    same(lower_ascii(a).as_str(), lower_ascii(b).as_str())
}

fn digit_char(d: u64) -> (c: char)
    requires
        d < 10,
    ensures
        c == model::digit_char(d as nat),
{
    ((0x30 + d) as u8) as char
}

/// The decimal digits of `n`.
pub fn decimal(n: u64) -> (r: String)
    ensures
        r@ == model::decimal(n as nat),
    decreases n,
{
    if n < 10 {
        let mut r = String::new();
        r.push(digit_char(n));
        proof {
            assert(r@ =~= seq![model::digit_char(n as nat)]);
        }
        r
    } else {
        let mut r = decimal(n / 10);
        r.push(digit_char(n % 10));
        r
    }
}

/// A whole number in decimal digits.
pub fn signed(n: i32) -> (r: String)
    ensures
        r@ == model::signed(n as int),
{
    if n < 0 {
        let size: u64 = (-(n as i64)) as u64;
        cat2("-", decimal(size).as_str())
    } else {
        decimal(n as u64)
    }
}

/// The unsigned number up to `max` that `s` spells.
pub fn parse_unsigned(s: &str, max: u64) -> (r: Option<u64>)
    ensures
        match r {
            Some(n) => model::parse_unsigned(s@, max as nat) == Some(n as nat),
            None => model::parse_unsigned(s@, max as nat) is None,
        },
{
    let v = chars_of(s);
    let start: usize = if v.len() > 0 && v[0] == '+' {
        1
    } else {
        0
    };
    let ghost t = s@.skip(start as int);
    proof {
        assert(start == 0 ==> t =~= s@);
    }
    if start == v.len() {
        return None;
    }
    let mut n: u64 = 0;
    let mut over: bool = false;
    let mut i: usize = start;
    proof {
        assert(t.take(0) =~= seq![]);
    }
    while i < v.len()
        invariant
            v@ == s@,
            start <= i <= v.len(),
            t == s@.skip(start as int),
            t == if s@.len() > 0 && s@[0] == '+' {
                s@.skip(1)
            } else {
                s@
            },
            model::all_digits(t.take(i - start)),
            over ==> model::digits_value(t.take(i - start)) > max,
            !over ==> n == model::digits_value(t.take(i - start)) && n <= max,
        decreases v.len() - i,
    {
        let c = v[i];
        if !CharSet::Digit.test(c) {
            proof {
                assert(t[i - start] == c);
            }
            return None;
        }
        let d: u64 = (c as u32 - 0x30) as u64;
        proof {
            let now = t.take(i - start + 1);
            assert(now.drop_last() =~= t.take(i - start));
            assert(now.last() == c);
            assert(model::all_digits(now)) by {
                assert forall|j: int| 0 <= j < now.len() implies model::digit(#[trigger] now[j]) by {
                    if j < i - start {
                        assert(now[j] == t.take(i - start)[j]);
                    }
                }
            }
        }
        if !over {
            match n.checked_mul(10) {
                Some(m) => match m.checked_add(d) {
                    Some(x) => if x <= max {
                        n = x;
                    } else {
                        over = true;
                    },
                    None => {
                        over = true;
                    },
                },
                None => {
                    over = true;
                },
            }
        }
        i += 1;
    }
    proof {
        assert(t.take(v.len() - start) =~= t);
    }
    if over {
        None
    } else {
        Some(n)
    }
}

/// Whether `a` comes strictly before `b` in the order of code points.
pub fn precedes(a: &str, b: &str) -> (r: bool)
    ensures
        r == model::precedes(a@, b@),
{
    let v = chars_of(a);
    let w = chars_of(b);
    let mut i: usize = 0;
    while i < v.len() && i < w.len() && v[i] == w[i]
        invariant
            v@ == a@,
            w@ == b@,
            i <= v.len(),
            i <= w.len(),
            model::common_prefix(a@, b@, 0) == model::common_prefix(a@, b@, i as int),
        decreases v.len() - i,
    {
        i += 1;
    }
    if i >= v.len() {
        v.len() < w.len()
    } else if i >= w.len() {
        false
    } else {
        (v[i] as u32) < (w[i] as u32)
    }
}

} // verus!
