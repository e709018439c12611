//! Search paths: finding, adding and removing a directory.

use crate::model;
use crate::model::CharSet;
use crate::text;
use crate::text_lemmas::{
    lemma_split_first, lemma_split_join, lemma_split_none, lemma_split_parts, lemma_trim_nothing,
};
use vstd::prelude::*;

verus! {

/// The parts that are not blank, without the white space around them.
pub open spec fn filled(parts: Seq<Seq<char>>) -> Seq<Seq<char>>
    decreases parts.len(),
{
    if parts.len() == 0 {
        seq![]
    } else if model::blank(parts.last()) {
        filled(parts.drop_last())
    } else {
        filled(parts.drop_last()).push(model::trim(parts.last()))
    }
}

/// The directories of a search path.
pub open spec fn entries(path: Seq<char>) -> Seq<Seq<char>> {
    filled(model::split(path, CharSet::Only(';')))
}

/// A directory is among others; case does not count.
pub open spec fn among(dirs: Seq<Seq<char>>, dir: Seq<char>) -> bool {
    exists|i: int| 0 <= i < dirs.len() && model::same_but_case(#[trigger] dirs[i], dir)
}

/// The directories other than the given one.
pub open spec fn others(dirs: Seq<Seq<char>>, dir: Seq<char>) -> Seq<Seq<char>>
    decreases dirs.len(),
{
    if dirs.len() == 0 {
        seq![]
    } else if model::same_but_case(dirs.last(), dir) {
        others(dirs.drop_last(), dir)
    } else {
        others(dirs.drop_last(), dir).push(dirs.last())
    }
}

fn entries_of(path: &str) -> (r: Vec<String>)
    ensures
        model::texts(r@) == entries(path@),
{
    let parts = text::split(path, CharSet::Only(';'));
    let ghost all = model::split(path@, CharSet::Only(';'));
    let mut r: Vec<String> = Vec::new();
    let mut i: usize = 0;
    proof {
        assert(model::texts(parts@).len() == parts@.len());
        assert(all.take(0) =~= seq![]);
        assert(model::texts(r@) =~= seq![]);
    }
    while i < parts.len()
        invariant
            model::texts(parts@) == all,
            parts@.len() == all.len(),
            i <= parts.len(),
            model::texts(r@) == filled(all.take(i as int)),
        decreases parts.len() - i,
    {
        let ghost before = r@;
        proof {
            assert(model::texts(parts@)[i as int] == parts@[i as int]@);
            assert(all.take(i as int + 1).drop_last() =~= all.take(i as int));
            assert(all.take(i as int + 1).last() == parts@[i as int]@);
        }
        if !text::blank(parts[i].as_str()) {
            let part = text::trim(parts[i].as_str());
            let ghost added = part@;
            r.push(part);
            proof {
                assert(model::texts(r@) =~= model::texts(before).push(added));
            }
        }
        i += 1;
    }
    proof {
        assert(all.take(all.len() as int) =~= all);
    }
    r
}

/// Whether a search path holds a directory.
pub fn path_contains(path: &str, dir: &str) -> (b: bool)
    ensures
        b == among(entries(path@), dir@),
{
    let dirs = entries_of(path);
    let ghost all = entries(path@);
    let mut i: usize = 0;
    proof {
        assert(model::texts(dirs@).len() == dirs@.len());
    }
    while i < dirs.len()
        invariant
            all == entries(path@),
            model::texts(dirs@) == all,
            dirs@.len() == all.len(),
            i <= dirs.len(),
            forall|k: int| 0 <= k < i ==> !model::same_but_case(#[trigger] all[k], dir@),
        decreases dirs.len() - i,
    {
        proof {
            assert(model::texts(dirs@)[i as int] == dirs@[i as int]@);
        }
        if text::same_but_case(dirs[i].as_str(), dir) {
            return true;
        }
        i += 1;
    }
    false
}

/// The directory of Node that is to be put on the search path of a command: none where there is a
/// Node already, or none of the user's.
pub fn node_dir_injection(in_system_path: bool, user_installed: bool, dir: &str) -> (r: Option<
    String,
>)
    ensures
        model::text_of(r) == if in_system_path || !user_installed || dir@.len() == 0 {
            None
        } else {
            Some(dir@)
        },
{
    if in_system_path || !user_installed || dir.is_empty() {
        None
    } else {
        Some(dir.to_owned())
    }
}

/// The search path of a command with a directory in front; `None` where it is there already.
pub fn inject_node_path(current: &str, dir: &str) -> (r: Option<String>)
    ensures
        model::text_of(r) == if among(entries(current@), dir@) {
            None
        } else {
            Some(dir@ + ";"@ + current@)
        },
{
    if path_contains(current, dir) {
        None
    } else {
        Some(text::cat3(dir, ";", current))
    }
}

/// A search path with a directory in front, unless it is there already.
pub open spec fn prepended(path: Seq<char>, dir: Seq<char>) -> Seq<char> {
    if among(entries(path), dir) {
        path
    } else if model::blank(path) {
        dir
    } else {
        dir + ";"@ + path
    }
}

/// The user's search path with a directory in front, and whether it has to be stored.
pub fn prepend_user_path_dir(current: &str, dir: &str) -> (r: (String, bool))
    ensures
        r.0@ == prepended(current@, dir@),
        r.1 == !among(entries(current@), dir@),
{
    if path_contains(current, dir) {
        (current.to_owned(), false)
    } else if text::blank(current) {
        (dir.to_owned(), true)
    } else {
        (text::cat3(dir, ";", current), true)
    }
}

/// A search path without a directory.
pub open spec fn without_dir(path: Seq<char>, dir: Seq<char>) -> Seq<char> {
    model::join(others(entries(path), dir), ";"@)
}

/// The user's search path without a directory; `None` where the directory is not on it.
pub fn remove_user_path_dir(current: &str, dir: &str) -> (r: Option<String>)
    ensures
        model::text_of(r) == if among(entries(current@), dir@) {
            Some(without_dir(current@, dir@))
        } else {
            None
        },
{
    if !path_contains(current, dir) {
        return None;
    }
    let dirs = entries_of(current);
    let ghost all = entries(current@);
    let mut kept: Vec<String> = Vec::new();
    let mut i: usize = 0;
    proof {
        assert(model::texts(dirs@).len() == dirs@.len());
        assert(all.take(0) =~= seq![]);
        assert(model::texts(kept@) =~= seq![]);
    }
    while i < dirs.len()
        invariant
            model::texts(dirs@) == all,
            dirs@.len() == all.len(),
            i <= dirs.len(),
            model::texts(kept@) == others(all.take(i as int), dir@),
        decreases dirs.len() - i,
    {
        let ghost before = kept@;
        proof {
            assert(model::texts(dirs@)[i as int] == dirs@[i as int]@);
            assert(all.take(i as int + 1).drop_last() =~= all.take(i as int));
            assert(all.take(i as int + 1).last() == dirs@[i as int]@);
        }
        if !text::same_but_case(dirs[i].as_str(), dir) {
            kept.push(dirs[i].clone());
            proof {
                assert(model::texts(kept@) =~= model::texts(before).push(dirs@[i as int]@));
            }
        }
        i += 1;
    }
    proof {
        assert(all.take(all.len() as int) =~= all);
    }
    Some(text::join(&kept, ";"))
}

/// What is left of a buffer without the zeros at its end.
pub open spec fn without_nuls(buf: Seq<u16>) -> Seq<u16>
    decreases buf.len(),
{
    if buf.len() > 0 && buf.last() == 0 {
        without_nuls(buf.drop_last())
    } else {
        buf
    }
}

/// The length of a buffer without the zeros at its end.
pub fn trim_trailing_nul(buf: &[u16]) -> (n: usize)
    ensures
        n <= buf@.len(),
        buf@.take(n as int) == without_nuls(buf@),
{
    let mut n: usize = buf.len();
    proof {
        assert(buf@.take(n as int) =~= buf@);
    }
    while n > 0 && buf[n - 1] == 0
        invariant
            n <= buf@.len(),
            without_nuls(buf@) == without_nuls(buf@.take(n as int)),
        decreases n,
    {
        proof {
            assert(buf@.take(n as int).drop_last() =~= buf@.take(n - 1));
            assert(buf@.take(n as int).last() == buf@[n - 1]);
        }
        n -= 1;
    }
    proof {
        if n > 0 {
            assert(buf@.take(n as int).last() == buf@[n - 1]);
        }
    }
    n
}

/// The 16-bit units of a row of bytes, the low byte first; a single byte at the end is left out.
pub open spec fn units(bytes: Seq<u8>, n: int) -> Seq<u16>
    decreases n,
{
    if n <= 0 {
        seq![]
    } else {
        units(bytes, n - 1).push(
            (bytes[2 * (n - 1)] as int + 256 * bytes[2 * (n - 1) + 1] as int) as u16,
        )
    }
}

/// The text of a registry value in 16-bit units, without the zeros at its end; `None` where nothing
/// is left.
pub fn registry_units(bytes: &[u8]) -> (r: Option<Vec<u16>>)
    ensures
        ({
            let all = without_nuls(units(bytes@, bytes@.len() as int / 2));
            match r {
                Some(v) => v@ == all && all.len() > 0,
                None => all.len() == 0,
            }
        }),
{
    let count: usize = bytes.len() / 2;
    let mut v: Vec<u16> = Vec::new();
    let mut n: usize = 0;
    while n < count
        invariant
            count == bytes@.len() / 2,
            bytes@.len() <= usize::MAX,
            n <= count,
            v@ == units(bytes@, n as int),
        decreases count - n,
    {
        let i: usize = 2 * n;
        let unit: u16 = bytes[i] as u16 + 256 * (bytes[i + 1] as u16);
        v.push(unit);
        n += 1;
    }
    let len = trim_trailing_nul(v.as_slice());
    v.truncate(len);
    if v.len() == 0 {
        None
    } else {
        Some(v)
    }
}

// ---- Laws ----

proof fn lemma_filled_join(a: Seq<Seq<char>>, b: Seq<Seq<char>>)
    ensures
        filled(a + b) == filled(a) + filled(b),
    decreases b.len(),
{
    if b.len() == 0 {
        assert(a + b =~= a);
        assert(filled(a) + filled(b) =~= filled(a));
    } else {
        lemma_filled_join(a, b.drop_last());
        assert((a + b).drop_last() =~= a + b.drop_last());
        assert((a + b).last() == b.last());
        let x = model::trim(b.last());
        assert(filled(a) + filled(b.drop_last()).push(x) =~= (filled(a) + filled(
            b.drop_last(),
        )).push(x));
    }
}

proof fn lemma_trimmed(s: Seq<char>, c: char)
    ensures
        model::trim(model::trim(s)) == model::trim(s),
        !model::blank(s) ==> !model::blank(model::trim(s)),
        (forall|i: int| 0 <= i < s.len() ==> #[trigger] s[i] != c) ==> (forall|i: int|
            0 <= i < model::trim(s).len() ==> #[trigger] model::trim(s)[i] != c),
{
    let k = CharSet::White;
    model::lemma_first_not_in(s, k, 0);
    let a = model::first_not_in(s, k, 0);
    let u = model::trim_start(s, k);
    model::lemma_back_over(u, k, u.len() as int);
    let b = model::back_over(u, k, u.len() as int);
    let t = model::trim(s);
    assert(t =~= u.take(b));
    if t.len() > 0 {
        assert(u[0] == s[a]);
        assert(t[0] == u[0]);
        assert(t.last() == u[b - 1]);
    }
    lemma_trim_nothing(t, k);
    if forall|i: int| 0 <= i < s.len() ==> #[trigger] s[i] != c {
        assert forall|i: int| 0 <= i < t.len() implies #[trigger] t[i] != c by {
            assert(t[i] == s[a + i]);
        }
    }
}

/// Every directory of a search path is trimmed and not blank, and holds no separator.
proof fn lemma_filled_parts(parts: Seq<Seq<char>>)
    requires
        forall|i: int, j: int|
            0 <= i < parts.len() && 0 <= j < parts[i].len() ==> #[trigger] parts[i][j] != ';',
    ensures
        forall|i: int|
            0 <= i < filled(parts).len() ==> {
                &&& model::trim(#[trigger] filled(parts)[i]) == filled(parts)[i]
                &&& !model::blank(filled(parts)[i])
            },
        forall|i: int, j: int|
            0 <= i < filled(parts).len() && 0 <= j < filled(parts)[i].len()
                ==> #[trigger] filled(parts)[i][j] != ';',
    decreases parts.len(),
{
    if parts.len() > 0 {
        let rest = parts.drop_last();
        assert forall|i: int, j: int|
            0 <= i < rest.len() && 0 <= j < rest[i].len() implies #[trigger] rest[i][j] != ';' by {
            assert(parts[i][j] != ';');
        }
        lemma_filled_parts(rest);
        let last = parts.last();
        assert forall|j: int| 0 <= j < last.len() implies #[trigger] last[j] != ';' by {
            assert(parts[parts.len() - 1][j] != ';');
        }
        lemma_trimmed(last, ';');
        let out = filled(parts);
        let before = filled(rest);
        if !model::blank(last) {
            assert forall|i: int| 0 <= i < out.len() implies {
                &&& model::trim(#[trigger] out[i]) == out[i]
                &&& !model::blank(out[i])
            } by {
                if i < before.len() {
                    assert(out[i] == before[i]);
                }
            }
            assert forall|i: int, j: int|
                0 <= i < out.len() && 0 <= j < out[i].len() implies #[trigger] out[i][j] != ';' by {
                if i < before.len() {
                    assert(out[i] == before[i]);
                    assert(before[i][j] != ';');
                } else {
                    assert(out[i] == model::trim(last));
                }
            }
        }
    }
}

/// A directory that was put in front of a search path is found there, and putting it there again
/// changes nothing.
pub proof fn law_prepended_directory_is_found(path: Seq<char>, dir: Seq<char>)
    requires
        !model::blank(dir),
        model::trim(dir) == dir,
        forall|i: int| 0 <= i < dir.len() ==> #[trigger] dir[i] != ';',
    ensures
        among(entries(prepended(path, dir)), dir),
        prepended(prepended(path, dir), dir) == prepended(path, dir),
{
    let next = prepended(path, dir);
    let one = seq![dir];
    assert(filled(one) =~= one) by {
        assert(one.drop_last() =~= seq![]);
        assert(filled(one.drop_last()) =~= seq![]);
    }
    if !among(entries(path), dir) {
        if model::blank(path) {
            lemma_split_none(dir, ';');
            assert(entries(next)[0] == dir);
        } else {
            reveal_strlit(";");
            assert(";"@ =~= seq![';']);
            lemma_split_first(dir, ';', path);
            lemma_filled_join(one, model::split(path, CharSet::Only(';')));
            assert(entries(next) =~= one + entries(path));
            assert(entries(next)[0] == dir);
        }
    }
}

pub proof fn lemma_others(dirs: Seq<Seq<char>>, dir: Seq<char>)
    ensures
        !among(others(dirs, dir), dir),
        forall|i: int|
            0 <= i < others(dirs, dir).len() ==> dirs.contains(#[trigger] others(dirs, dir)[i]),
    decreases dirs.len(),
{
    if dirs.len() > 0 {
        let rest = dirs.drop_last();
        lemma_others(rest, dir);
        let out = others(dirs, dir);
        let before = others(rest, dir);
        if !model::same_but_case(dirs.last(), dir) {
            assert forall|i: int| 0 <= i < out.len() implies !model::same_but_case(
                #[trigger] out[i],
                dir,
            ) by {
                if i < before.len() {
                    assert(out[i] == before[i]);
                }
            }
        }
        assert forall|i: int| 0 <= i < out.len() implies dirs.contains(#[trigger] out[i]) by {
            if i < before.len() {
                assert(out[i] == before[i]);
                assert(rest.contains(before[i]));
                let k = choose|k: int| 0 <= k < rest.len() && rest[k] == before[i];
                assert(dirs[k] == before[i]);
            } else {
                assert(dirs[dirs.len() - 1] == out[i]);
            }
        }
    }
}

pub proof fn lemma_filled_same(parts: Seq<Seq<char>>)
    requires
        forall|i: int|
            0 <= i < parts.len() ==> {
                &&& model::trim(#[trigger] parts[i]) == parts[i]
                &&& !model::blank(parts[i])
            },
    ensures
        filled(parts) == parts,
    decreases parts.len(),
{
    if parts.len() > 0 {
        let rest = parts.drop_last();
        assert forall|i: int| 0 <= i < rest.len() implies {
            &&& model::trim(#[trigger] rest[i]) == rest[i]
            &&& !model::blank(rest[i])
        } by {
            assert(rest[i] == parts[i]);
        }
        lemma_filled_same(rest);
        let last = parts[parts.len() - 1];
        assert(model::trim(last) == last && !model::blank(last));
        assert(rest.push(parts.last()) =~= parts);
    } else {
        assert(filled(parts) =~= parts);
    }
}

/// A directory that was removed from a search path is not found there any more, and all others are,
/// in their order.
pub proof fn law_removed_directory_is_gone(path: Seq<char>, dir: Seq<char>)
    ensures
        entries(without_dir(path, dir)) == others(entries(path), dir),
        !among(entries(without_dir(path, dir)), dir),
{
    let parts = model::split(path, CharSet::Only(';'));
    lemma_split_parts(path, ';', 0);
    lemma_filled_parts(parts);
    let dirs = entries(path);
    lemma_others(dirs, dir);
    let kept = others(dirs, dir);
    reveal_strlit(";");
    assert(";"@ =~= seq![';']);
    if kept.len() == 0 {
        let none = without_dir(path, dir);
        assert(none =~= seq![]);
        lemma_split_none(none, ';');
        assert(model::blank(none)) by {
            assert(model::trim_start(none, CharSet::White) =~= none);
            assert(model::trim_end(none, CharSet::White) =~= none);
        }
        let one = seq![none];
        assert(one.drop_last() =~= seq![]);
        assert(filled(one.drop_last()) =~= seq![]);
        assert(filled(one) =~= kept);
    } else {
        assert forall|i: int, j: int|
            0 <= i < kept.len() && 0 <= j < kept[i].len() implies #[trigger] kept[i][j] != ';' by {
            assert(dirs.contains(kept[i]));
            let k = choose|k: int| 0 <= k < dirs.len() && dirs[k] == kept[i];
            assert(dirs[k][j] != ';');
        }
        lemma_split_join(kept, ';');
        assert forall|i: int| 0 <= i < kept.len() implies {
            &&& model::trim(#[trigger] kept[i]) == kept[i]
            &&& !model::blank(kept[i])
        } by {
            assert(dirs.contains(kept[i]));
            let k = choose|k: int| 0 <= k < dirs.len() && dirs[k] == kept[i];
            assert(model::trim(dirs[k]) == dirs[k]);
        }
        lemma_filled_same(kept);
    }
}

} // verus!
