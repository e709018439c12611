//! A map from texts to texts that is kept and walked in the order of its keys.

use crate::model;
use crate::text;
use vstd::prelude::*;

verus! {

/// The keys stand in strictly ascending order.
pub open spec fn ordered(keys: Seq<Seq<char>>) -> bool {
    forall|i: int, j: int|
        0 <= i < j < keys.len() ==> model::precedes(#[trigger] keys[i], #[trigger] keys[j])
}

/// How many keys at the front come before `key`.
pub open spec fn rank(keys: Seq<Seq<char>>, key: Seq<char>) -> int
    decreases keys.len(),
{
    if keys.len() == 0 || !model::precedes(keys[0], key) {
        0
    } else {
        1 + rank(keys.skip(1), key)
    }
}

pub struct TextMap {
    rows: Vec<(String, String)>,
}

impl TextMap {
    /// The keys in order.
    pub closed spec fn keys(&self) -> Seq<Seq<char>> {
        self.rows@.map_values(|p: (String, String)| p.0@)
    }

    /// The values, each at the place of its key.
    pub closed spec fn values(&self) -> Seq<Seq<char>> {
        self.rows@.map_values(|p: (String, String)| p.1@)
    }

    pub open spec fn wf(&self) -> bool {
        ordered(self.keys()) && self.keys().len() == self.values().len()
    }

    /// The value of a key.
    pub open spec fn lookup(&self, key: Seq<char>) -> Option<Seq<char>> {
        let i = rank(self.keys(), key);
        if i < self.keys().len() && self.keys()[i] == key {
            Some(self.values()[i])
        } else {
            None
        }
    }

    pub fn new() -> (r: Self)
        ensures
            r.wf(),
            r.keys().len() == 0,
            forall|k: Seq<char>| r.lookup(k) is None,
    {
        TextMap { rows: Vec::new() }
    }

    pub fn len(&self) -> (n: usize)
        ensures
            n == self.keys().len(),
    {
        self.rows.len()
    }

    pub fn key(&self, i: usize) -> (r: &str)
        requires
            i < self.keys().len(),
        ensures
            r@ == self.keys()[i as int],
    {
        self.rows[i].0.as_str()
    }

    pub fn value(&self, i: usize) -> (r: &str)
        requires
            i < self.keys().len(),
        ensures
            r@ == self.values()[i as int],
    {
        self.rows[i].1.as_str()
    }

    fn find_rank(&self, key: &str) -> (i: usize)
        ensures
            i == rank(self.keys(), key@),
            i <= self.rows.len(),
    {
        let mut i: usize = 0;
        while i < self.rows.len() && text::precedes(self.rows[i].0.as_str(), key)
            invariant
                i <= self.rows.len(),
                forall|j: int| 0 <= j < i ==> model::precedes(#[trigger] self.keys()[j], key@),
            decreases self.rows.len() - i,
        {
            i += 1;
        }
        proof {
            lemma_rank_is(self.keys(), key@, i as int);
        }
        i
    }

    pub fn get(&self, key: &str) -> (r: Option<&str>)
        ensures
            model::slice_of(r) == self.lookup(key@),
    {
        let i = self.find_rank(key);
        if i < self.rows.len() && text::same(self.rows[i].0.as_str(), key) {
            Some(self.rows[i].1.as_str())
        } else {
            None
        }
    }

    pub fn contains_key(&self, key: &str) -> (b: bool)
        ensures
            b == (self.lookup(key@) is Some),
    {
        self.get(key).is_some()
    }

    /// Sets the value of a key.
    pub fn insert(&mut self, key: String, value: String)
        requires
            old(self).wf(),
        ensures
            final(self).wf(),
            forall|k: Seq<char>| #[trigger]
                final(self).lookup(k) == if k == key@ {
                    Some(value@)
                } else {
                    old(self).lookup(k)
                },
    {
        let ghost keys = self.keys();
        let ghost values = self.values();
        let ghost before = *self;
        let ghost k0 = key@;
        let ghost v0 = value@;
        let i = self.find_rank(key.as_str());
        if i < self.rows.len() && text::same(self.rows[i].0.as_str(), key.as_str()) {
            self.rows.set(i, (key, value));
            proof {
                assert(self.keys() =~= keys);
                assert(self.values() =~= values.update(i as int, v0));
                assert forall|k: Seq<char>| #[trigger] self.lookup(k) == if k == k0 {
                    Some(v0)
                } else {
                    before.lookup(k)
                } by {
                    lemma_rank(keys, k);
                }
            }
        } else {
            self.rows.insert(i, (key, value));
            proof {
                assert(self.keys() =~= keys.insert(i as int, k0));
                assert(self.values() =~= values.insert(i as int, v0));
                lemma_insert(keys, k0, i as int);
                assert forall|k: Seq<char>| #[trigger] self.lookup(k) == if k == k0 {
                    Some(v0)
                } else {
                    before.lookup(k)
                } by {
                    lemma_rank(keys, k);
                    lemma_rank(self.keys(), k);
                    lemma_insert_rank(keys, k0, i as int, k);
                }
            }
        }
    }
}

/// Puts a text into an ordered row, unless it is there.
pub fn insert_ordered(set: &mut Vec<String>, s: &str)
    requires
        ordered(model::texts(old(set)@)),
    ensures
        ordered(model::texts(final(set)@)),
        forall|k: Seq<char>| #[trigger]
            model::texts(final(set)@).contains(k) <==> model::texts(old(set)@).contains(k) || k
                == s@,
{
    let ghost keys = model::texts(set@);
    let mut i: usize = 0;
    while i < set.len() && text::precedes(set[i].as_str(), s)
        invariant
            keys == model::texts(set@),
            i <= set.len(),
            forall|j: int| 0 <= j < i ==> model::precedes(#[trigger] keys[j], s@),
        decreases set.len() - i,
    {
        i += 1;
    }
    proof {
        lemma_rank_is(keys, s@, i as int);
    }
    if i < set.len() && text::same(set[i].as_str(), s) {
        proof {
            assert(keys[i as int] == s@);
        }
        return;
    }
    set.insert(i, s.to_owned());
    proof {
        let out = model::texts(set@);
        assert(out =~= keys.insert(i as int, s@));
        lemma_insert(keys, s@, i as int);
        assert forall|k: Seq<char>| #[trigger] out.contains(k) <==> keys.contains(k) || k == s@ by {
            if keys.contains(k) {
                let j = choose|j: int| 0 <= j < keys.len() && keys[j] == k;
                assert(out[if j < i { j } else { j + 1 }] == k);
            }
            if k == s@ {
                assert(out[i as int] == k);
            }
            if out.contains(k) && k != s@ {
                let j = choose|j: int| 0 <= j < out.len() && out[j] == k;
                assert(keys[if j < i { j } else { j - 1 }] == k);
            }
        }
    }
}

/// `a` and `b` hold the same texts.
pub open spec fn same_members(a: Seq<Seq<char>>, b: Seq<Seq<char>>) -> bool {
    forall|k: Seq<char>| #[trigger] a.contains(k) <==> b.contains(k)
}

proof fn lemma_drop_last_members(a: Seq<Seq<char>>, k: Seq<char>)
    requires
        ordered(a),
        a.len() > 0,
    ensures
        a.drop_last().contains(k) <==> a.contains(k) && k != a.last(),
{
    let rest = a.drop_last();
    if rest.contains(k) {
        let i = choose|i: int| 0 <= i < rest.len() && rest[i] == k;
        assert(a[i] == k);
        assert(model::precedes(a[i], a[a.len() - 1]));
        lemma_precedes_total(k, a.last());
    }
    if a.contains(k) && k != a.last() {
        let i = choose|i: int| 0 <= i < a.len() && a[i] == k;
        assert(rest[i] == k);
    }
}

/// An ordered row is determined by what it holds.
pub proof fn lemma_ordered_unique(a: Seq<Seq<char>>, b: Seq<Seq<char>>)
    requires
        ordered(a),
        ordered(b),
        same_members(a, b),
    ensures
        a == b,
    decreases a.len(),
{
    if a.len() == 0 {
        if b.len() > 0 {
            assert(b.contains(b[0]));
            assert(a.contains(b[0]));
        }
        assert(a =~= b);
    } else {
        assert(a.contains(a[a.len() - 1]));
        let j = choose|j: int| 0 <= j < b.len() && b[j] == a.last();
        assert(b.contains(b[b.len() - 1]));
        assert(a.contains(b.last()));
        let i = choose|i: int| 0 <= i < a.len() && a[i] == b.last();
        if j < b.len() - 1 {
            assert(model::precedes(b[j], b[b.len() - 1]));
            if i < a.len() - 1 {
                assert(model::precedes(a[i], a[a.len() - 1]));
            }
            lemma_precedes_total(a.last(), b.last());
        }
        assert(a.last() == b.last());
        assert forall|k: Seq<char>| #[trigger] a.drop_last().contains(k)
            <==> b.drop_last().contains(k) by {
            lemma_drop_last_members(a, k);
            lemma_drop_last_members(b, k);
            assert(a.contains(k) <==> b.contains(k));
        }
        lemma_ordered_unique(a.drop_last(), b.drop_last());
        assert(a =~= a.drop_last().push(a.last()));
        assert(b =~= b.drop_last().push(b.last()));
    }
}

/// Whether a text is among the given ones.
pub fn holds(set: &Vec<String>, s: &str) -> (b: bool)
    ensures
        b == model::texts(set@).contains(s@),
{
    let mut i: usize = 0;
    while i < set.len()
        invariant
            i <= set.len(),
            forall|j: int| 0 <= j < i ==> #[trigger] set@[j]@ != s@,
        decreases set.len() - i,
    {
        if text::same(set[i].as_str(), s) {
            proof {
                assert(model::texts(set@)[i as int] == s@);
            }
            return true;
        }
        i += 1;
    }
    proof {
        if model::texts(set@).contains(s@) {
            let j = choose|j: int| 0 <= j < set@.len() && model::texts(set@)[j] == s@;
            assert(set@[j]@ == s@);
        }
    }
    false
}

/// Another row with the same texts.
pub fn copy_texts(v: &Vec<String>) -> (r: Vec<String>)
    ensures
        r@ == v@,
{
    let mut out: Vec<String> = Vec::new();
    let mut i: usize = 0;
    while i < v.len()
        invariant
            i <= v.len(),
            out@ == v@.take(i as int),
        decreases v.len() - i,
    {
        out.push(v[i].clone());
        i += 1;
        proof {
            assert(v@.take(i as int) =~= v@.take(i - 1).push(v@[i - 1]));
        }
    }
    proof {
        assert(v@.take(v.len() as int) =~= v@);
    }
    out
}

proof fn lemma_distinct_codes(x: char, y: char)
    requires
        x != y,
    ensures
        x as u32 != y as u32,
{
}

/// The order of code points is total.
pub proof fn lemma_precedes_total(a: Seq<char>, b: Seq<char>)
    ensures
        !(model::precedes(a, b) && model::precedes(b, a)),
        a == b ==> !model::precedes(a, b),
        a != b ==> model::precedes(a, b) || model::precedes(b, a),
{
    model::lemma_common_prefix(a, b, 0);
    model::lemma_common_prefix(b, a, 0);
    let i = model::common_prefix(a, b, 0);
    let j = model::common_prefix(b, a, 0);
    if i < j {
        assert(i < a.len() && i < b.len() && b[i] == a[i]);
    }
    if j < i {
        assert(j < a.len() && j < b.len() && a[j] == b[j]);
    }
    if a.len() == i && b.len() == i {
        assert(a =~= b);
    }
    if i < a.len() && i < b.len() {
        lemma_distinct_codes(a[i], b[i]);
    }
}

pub proof fn lemma_precedes_transitive(a: Seq<char>, b: Seq<char>, c: Seq<char>)
    requires
        model::precedes(a, b),
        model::precedes(b, c),
    ensures
        model::precedes(a, c),
{
    model::lemma_common_prefix(a, b, 0);
    model::lemma_common_prefix(b, c, 0);
    model::lemma_common_prefix(a, c, 0);
    let i = model::common_prefix(a, b, 0);
    let j = model::common_prefix(b, c, 0);
    let k = model::common_prefix(a, c, 0);
    let m = if i < j {
        i
    } else {
        j
    };
    assert forall|n: int| 0 <= n < m implies a[n] == c[n] by {
        assert(a[n] == b[n] && b[n] == c[n]);
    }
    if k < m {
        assert(a[k] == c[k]);
    }
    if k > m {
        assert(m < a.len() && m < c.len() && a[m] == c[m]);
        if m < i {
            assert(a[m] == b[m]);
        }
        if m < j {
            assert(b[m] == c[m]);
        }
    }
}

pub proof fn lemma_rank(keys: Seq<Seq<char>>, key: Seq<char>)
    ensures
        0 <= rank(keys, key) <= keys.len(),
        rank(keys, key) < keys.len() ==> !model::precedes(keys[rank(keys, key)], key),
        forall|j: int| 0 <= j < rank(keys, key) ==> model::precedes(#[trigger] keys[j], key),
    decreases keys.len(),
{
    if keys.len() > 0 && model::precedes(keys[0], key) {
        lemma_rank(keys.skip(1), key);
        assert forall|j: int| 0 <= j < rank(keys, key) implies model::precedes(
            #[trigger] keys[j],
            key,
        ) by {
            if j > 0 {
                assert(keys[j] == keys.skip(1)[j - 1]);
            }
        }
    }
}

pub proof fn lemma_rank_is(keys: Seq<Seq<char>>, key: Seq<char>, n: int)
    requires
        0 <= n <= keys.len(),
        n < keys.len() ==> !model::precedes(keys[n], key),
        forall|j: int| 0 <= j < n ==> model::precedes(#[trigger] keys[j], key),
    ensures
        rank(keys, key) == n,
{
    lemma_rank(keys, key);
    let r = rank(keys, key);
    if r < n {
        assert(model::precedes(keys[r], key));
    }
}

/// A key of an ordered row is found at its place.
pub proof fn lemma_rank_at(keys: Seq<Seq<char>>, i: int)
    requires
        ordered(keys),
        0 <= i < keys.len(),
    ensures
        rank(keys, keys[i]) == i,
{
    lemma_precedes_total(keys[i], keys[i]);
    lemma_rank_is(keys, keys[i], i);
}

proof fn lemma_insert(keys: Seq<Seq<char>>, key: Seq<char>, n: int)
    requires
        ordered(keys),
        n == rank(keys, key),
        !(n < keys.len() && keys[n] == key),
    ensures
        ordered(keys.insert(n, key)),
{
    lemma_rank(keys, key);
    let out = keys.insert(n, key);
    assert forall|j: int| n <= j < keys.len() implies model::precedes(
        key,
        #[trigger] keys[j],
    ) by {
        lemma_precedes_total(key, keys[n]);
        if j > n {
            lemma_precedes_transitive(key, keys[n], keys[j]);
        }
    }
    assert forall|i: int, j: int| 0 <= i < j < out.len() implies model::precedes(
        #[trigger] out[i],
        #[trigger] out[j],
    ) by {
        if i != n {
            assert(out[i] == keys[if i < n { i } else { i - 1 }]);
        }
        if j != n {
            assert(out[j] == keys[if j < n { j } else { j - 1 }]);
        }
    }
}

/// Where the keys of a row end up once another one is put in.
proof fn lemma_insert_rank(keys: Seq<Seq<char>>, key: Seq<char>, n: int, k: Seq<char>)
    requires
        ordered(keys),
        n == rank(keys, key),
        !(n < keys.len() && keys[n] == key),
    ensures
        ({
            let out = keys.insert(n, key);
            let i = rank(keys, k);
            let j = rank(out, k);
            if k == key {
                j == n
            } else if i < keys.len() && keys[i] == k {
                j == if i < n {
                    i
                } else {
                    i + 1
                }
            } else {
                !(j < out.len() && out[j] == k)
            }
        }),
{
    let out = keys.insert(n, key);
    lemma_insert(keys, key, n);
    lemma_rank(keys, key);
    lemma_rank(keys, k);
    lemma_rank(out, k);
    let i = rank(keys, k);
    let j = rank(out, k);
    if k == key {
        assert(out[n] == key);
        lemma_rank_at(out, n);
    } else if i < keys.len() && keys[i] == k {
        let m = if i < n {
            i
        } else {
            i + 1
        };
        assert(out[m] == k);
        lemma_rank_at(out, m);
    } else if j < out.len() && out[j] == k {
        let m = if j < n {
            j
        } else {
            j - 1
        };
        assert(keys[m] == k);
        lemma_rank_at(keys, m);
    }
}

} // verus!
