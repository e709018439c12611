//! Which thread may write a file: one at a time, and as often as it likes.

use crate::text;
use vstd::prelude::*;

verus! {

/// The files that are locked, each with the thread that holds it.
pub struct FileLocks {
    held: Vec<(String, u64)>,
}

/// The right to write a file. Only the outermost one gives the file back.
pub struct FileWriteGuard {
    key: String,
    outermost: bool,
}

/// Who holds a file, by the first entry from `i` on.
pub open spec fn holder_of(held: Seq<(Seq<char>, u64)>, key: Seq<char>, i: int) -> Option<u64>
    decreases held.len() - i,
{
    if i < 0 || i >= held.len() {
        None
    } else if held[i].0 == key {
        Some(held[i].1)
    } else {
        holder_of(held, key, i + 1)
    }
}

/// The locks of all files but one.
pub open spec fn unlocked(held: Seq<(Seq<char>, u64)>, key: Seq<char>) -> Seq<(Seq<char>, u64)>
    decreases held.len(),
{
    if held.len() == 0 {
        seq![]
    } else if held.last().0 == key {
        unlocked(held.drop_last(), key)
    } else {
        unlocked(held.drop_last(), key).push(held.last())
    }
}

proof fn lemma_holder_prefix(held: Seq<(Seq<char>, u64)>, extra: (Seq<char>, u64), key: Seq<char>, i: int)
    requires
        0 <= i <= held.len(),
    ensures
        holder_of(held.push(extra), key, i) == match holder_of(held, key, i) {
            Some(t) => Some(t),
            None => if extra.0 == key {
                Some(extra.1)
            } else {
                None
            },
        },
    decreases held.len() - i,
{
    let now = held.push(extra);
    if i < held.len() {
        assert(now[i] == held[i]);
        lemma_holder_prefix(held, extra, key, i + 1);
    } else {
        assert(now[i] == extra);
        assert(holder_of(now, key, i + 1) is None);
    }
}

proof fn lemma_unlocked(held: Seq<(Seq<char>, u64)>, key: Seq<char>, other: Seq<char>)
    ensures
        holder_of(unlocked(held, key), other, 0) == if other == key {
            None
        } else {
            holder_of(held, other, 0)
        },
    decreases held.len(),
{
    if held.len() > 0 {
        let rest = held.drop_last();
        lemma_unlocked(rest, key, other);
        assert(held =~= rest.push(held.last()));
        lemma_holder_prefix(rest, held.last(), other, 0);
        if held.last().0 != key {
            lemma_holder_prefix(unlocked(rest, key), held.last(), other, 0);
        }
    }
}

impl FileLocks {
    pub closed spec fn entries(&self) -> Seq<(Seq<char>, u64)> {
        self.held@.map_values(|p: (String, u64)| (p.0@, p.1))
    }

    /// The thread that holds a file.
    pub open spec fn holder(&self, key: Seq<char>) -> Option<u64> {
        holder_of(self.entries(), key, 0)
    }

    pub fn new() -> (r: Self)
        ensures
            forall|key: Seq<char>| #[trigger] r.holder(key) is None,
    {
        let r = FileLocks { held: Vec::new() };
        proof {
            assert(r.entries() =~= seq![]);
        }
        r
    }

    /// Asks for a file; `None` where another thread holds it. A thread that holds it already gets it
    /// at once.
    pub fn file_write_lock(&mut self, key: &str, thread: u64) -> (r: Option<FileWriteGuard>)
        ensures
            forall|other: Seq<char>|
                other != key@ ==> #[trigger] final(self).holder(other) == old(self).holder(other),
            match old(self).holder(key@) {
                None => {
                    &&& r is Some
                    &&& r->0.file() == key@
                    &&& r->0.is_outermost()
                    &&& final(self).holder(key@) == Some(thread)
                },
                Some(t) => {
                    &&& final(self).holder(key@) == Some(t)
                    &&& if t == thread {
                        r is Some && r->0.file() == key@ && !r->0.is_outermost()
                    } else {
                        r is None
                    }
                },
            },
    {
        let ghost before = self.entries();
        let mut i: usize = 0;
        while i < self.held.len()
            invariant
                before == self.entries(),
                before == old(self).entries(),
                self.held@.len() == before.len(),
                i <= self.held.len(),
                holder_of(before, key@, 0) == holder_of(before, key@, i as int),
            decreases self.held.len() - i,
        {
            proof {
                assert(before[i as int] == (self.held@[i as int].0@, self.held@[i as int].1));
            }
            if text::same(self.held[i].0.as_str(), key) {
                return if self.held[i].1 == thread {
                    Some(FileWriteGuard { key: key.to_owned(), outermost: false })
                } else {
                    None
                };
            }
            i += 1;
        }
        self.held.push((key.to_owned(), thread));
        proof {
            let extra = (key@, thread);
            assert(self.entries() =~= before.push(extra));
            lemma_holder_prefix(before, extra, key@, 0);
            assert forall|other: Seq<char>| other != key@ implies #[trigger] self.holder(other)
                == holder_of(before, other, 0) by {
                lemma_holder_prefix(before, extra, other, 0);
            }
        }
        Some(FileWriteGuard { key: key.to_owned(), outermost: true })
    }

    /// Gives a right back; the file is free once the outermost one is back.
    pub fn release(&mut self, guard: FileWriteGuard)
        ensures
            forall|other: Seq<char>|
                other != guard.file() ==> #[trigger] final(self).holder(other) == old(self).holder(
                    other,
                ),
            final(self).holder(guard.file()) == if guard.is_outermost() {
                None
            } else {
                old(self).holder(guard.file())
            },
    {
        if !guard.outermost {
            return;
        }
        let ghost before = self.entries();
        let mut kept: Vec<(String, u64)> = Vec::new();
        let mut i: usize = 0;
        proof {
            assert(before.take(0) =~= seq![]);
            assert(kept@.map_values(|p: (String, u64)| (p.0@, p.1)) =~= seq![]);
        }
        while i < self.held.len()
            invariant
                before == self.entries(),
                before == old(self).entries(),
                self.held@.len() == before.len(),
                i <= self.held.len(),
                kept@.map_values(|p: (String, u64)| (p.0@, p.1)) == unlocked(
                    before.take(i as int),
                    guard.key@,
                ),
            decreases self.held.len() - i,
        {
            let ghost prior = kept@.map_values(|p: (String, u64)| (p.0@, p.1));
            proof {
                assert(before.take(i as int + 1).drop_last() =~= before.take(i as int));
                assert(before.take(i as int + 1).last() == (
                    self.held@[i as int].0@,
                    self.held@[i as int].1,
                ));
            }
            if !text::same(self.held[i].0.as_str(), guard.key.as_str()) {
                kept.push((self.held[i].0.clone(), self.held[i].1));
                proof {
                    assert(kept@.map_values(|p: (String, u64)| (p.0@, p.1)) =~= prior.push(
                        (self.held@[i as int].0@, self.held@[i as int].1),
                    ));
                }
            }
            i += 1;
        }
        self.held = kept;
        proof {
            assert(before.take(before.len() as int) =~= before);
            assert forall|other: Seq<char>| #[trigger] self.holder(other) == if other
                == guard.key@ {
                None
            } else {
                holder_of(before, other, 0)
            } by {
                lemma_unlocked(before, guard.key@, other);
            }
        }
    }
}

impl FileWriteGuard {
    pub closed spec fn file(&self) -> Seq<char> {
        self.key@
    }

    pub closed spec fn is_outermost(&self) -> bool {
        self.outermost
    }
}

} // verus!
