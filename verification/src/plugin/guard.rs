//! Which operations on plugins may run at the same time.

use crate::model;
use crate::plugin::state::{busy_error, PluginError};
use crate::text;
use crate::text_map;
use vstd::prelude::*;

verus! {

/// The key of the synchronisation, which runs alone.
pub const SYNC_KEY: &'static str = "__sync__";

/// The operations under way, by their keys.
pub struct InFlight {
    keys: Vec<String>,
}

/// The right to run an operation; it has to be given back.
#[derive(Debug)]
pub struct OpGuard {
    key: String,
}

/// Why an operation has to wait.
pub open spec fn busy_reason(running: Seq<Seq<char>>, key: Seq<char>) -> Option<Seq<char>> {
    if running.contains(SYNC_KEY@) {
        Some("同步任务进行中，请稍后再试"@)
    } else if key != SYNC_KEY@ && running.contains(key) {
        Some("插件 "@ + key + " 正在处理中"@)
    } else if key == SYNC_KEY@ && running.len() > 0 {
        Some("已有插件操作进行中，请稍后再同步"@)
    } else {
        None
    }
}

/// `keys` without the first `key`.
pub open spec fn dropped(keys: Seq<Seq<char>>, key: Seq<char>) -> Seq<Seq<char>>
    decreases keys.len(),
{
    if keys.len() == 0 {
        keys
    } else if keys[0] == key {
        keys.skip(1)
    } else {
        seq![keys[0]] + dropped(keys.skip(1), key)
    }
}

impl InFlight {
    pub closed spec fn running(&self) -> Seq<Seq<char>> {
        model::texts(self.keys@)
    }

    /// No operation runs twice, and the synchronisation runs alone.
    pub open spec fn wf(&self) -> bool {
        &&& self.running().no_duplicates()
        &&& self.running().contains(SYNC_KEY@) ==> self.running().len() == 1
    }

    pub fn new() -> (r: Self)
        ensures
            r.wf(),
            r.running().len() == 0,
    {
        let r = InFlight { keys: Vec::new() };
        proof {
            assert(r.running() =~= seq![]);
        }
        r
    }

    fn is_running(&self, key: &str) -> (b: bool)
        ensures
            b == self.running().contains(key@),
    {
        text_map::holds(&self.keys, key)
    }
}

impl OpGuard {
    pub closed spec fn key(&self) -> Seq<char> {
        self.key@
    }

    /// Asks for the right to run an operation.
    pub fn acquire(set: &mut InFlight, key: &str) -> (r: Result<Self, PluginError>)
        requires
            old(set).wf(),
        ensures
            final(set).wf(),
            match busy_reason(old(set).running(), key@) {
                Some(m) => r is Err && r->Err_0@ == busy_error(m) && final(set).running() == old(
                    set,
                ).running(),
                None => r is Ok && r->Ok_0.key() == key@ && final(set).running() == old(
                    set,
                ).running().push(key@),
            },
    {
        if set.is_running(SYNC_KEY) {
            return Err(PluginError::busy("同步任务进行中，请稍后再试".to_owned()));
        }
        let alone = text::same(key, SYNC_KEY);
        if !alone && set.is_running(key) {
            return Err(PluginError::busy(text::cat3("插件 ", key, " 正在处理中")));
        }
        if alone && set.keys.len() > 0 {
            proof {
                assert(set.running().len() == set.keys.len());
            }
            return Err(PluginError::busy("已有插件操作进行中，请稍后再同步".to_owned()));
        }
        let ghost before = set.running();
        proof {
            assert(before.len() == set.keys.len());
        }
        set.keys.push(key.to_owned());
        proof {
            let now = set.running();
            assert(now =~= before.push(key@));
            assert forall|i: int, j: int|
                0 <= i < now.len() && 0 <= j < now.len() && i != j implies now[i] != now[j] by {
                if i < before.len() && j < before.len() {
                    assert(before[i] != before[j]);
                } else if i < before.len() {
                    assert(before.contains(before[i]));
                } else if j < before.len() {
                    assert(before.contains(before[j]));
                }
            }
            if now.contains(SYNC_KEY@) {
                let i = choose|i: int| 0 <= i < now.len() && now[i] == SYNC_KEY@;
                if i < before.len() {
                    assert(before[i] == SYNC_KEY@);
                }
            }
        }
        Ok(OpGuard { key: key.to_owned() })
    }

    /// Gives the right back.
    pub fn release(self, set: &mut InFlight)
        requires
            old(set).wf(),
        ensures
            final(set).wf(),
            final(set).running() == dropped(old(set).running(), self.key()),
            !final(set).running().contains(self.key()),
    {
        let ghost all = set.running();
        let key = self.key;
        let mut i: usize = 0;
        while i < set.keys.len()
            invariant
                all == set.running(),
                all == old(set).running(),
                old(set).wf(),
                key@ == self.key(),
                all.len() == set.keys.len(),
                i <= set.keys.len(),
                forall|j: int| 0 <= j < i ==> #[trigger] all[j] != key@,
            decreases set.keys.len() - i,
        {
            if text::same(set.keys[i].as_str(), key.as_str()) {
                proof {
                    lemma_dropped(all, key@, i as int);
                }
                set.keys.remove(i);
                proof {
                    let now = set.running();
                    assert(now =~= all.remove(i as int));
                    lemma_removed(all, i as int);
                }
                return;
            }
            i += 1;
        }
        proof {
            lemma_dropped(all, key@, i as int);
            if all.contains(key@) {
                let j = choose|j: int| 0 <= j < all.len() && all[j] == key@;
                assert(all[j] != key@);
            }
        }
    }
}

proof fn lemma_dropped(keys: Seq<Seq<char>>, key: Seq<char>, i: int)
    requires
        0 <= i <= keys.len(),
        forall|j: int| 0 <= j < i ==> #[trigger] keys[j] != key,
    ensures
        i < keys.len() && keys[i] == key ==> dropped(keys, key) == keys.remove(i),
        i == keys.len() ==> dropped(keys, key) == keys,
    decreases i,
{
    if i > 0 {
        let rest = keys.skip(1);
        assert forall|j: int| 0 <= j < i - 1 implies #[trigger] rest[j] != key by {
            assert(rest[j] == keys[j + 1]);
        }
        lemma_dropped(rest, key, i - 1);
        assert(keys[0] != key);
        if i < keys.len() && keys[i] == key {
            assert(rest[i - 1] == key);
            assert(seq![keys[0]] + rest.remove(i - 1) =~= keys.remove(i));
        } else if i == keys.len() {
            assert(seq![keys[0]] + rest =~= keys);
        }
    } else if i < keys.len() && keys[0] == key {
        assert(keys.skip(1) =~= keys.remove(0));
    }
}

proof fn lemma_removed(keys: Seq<Seq<char>>, i: int)
    requires
        keys.no_duplicates(),
        0 <= i < keys.len(),
        keys.contains(SYNC_KEY@) ==> keys.len() == 1,
    ensures
        keys.remove(i).no_duplicates(),
        !keys.remove(i).contains(keys[i]),
        keys.remove(i).contains(SYNC_KEY@) ==> keys.remove(i).len() == 1,
{
    let out = keys.remove(i);
    assert forall|a: int, b: int| 0 <= a < out.len() && 0 <= b < out.len() && a != b implies out[a]
        != out[b] by {
        assert(out[a] == keys[if a < i { a } else { a + 1 }]);
        assert(out[b] == keys[if b < i { b } else { b + 1 }]);
    }
    if out.contains(keys[i]) {
        let a = choose|a: int| 0 <= a < out.len() && out[a] == keys[i];
        assert(keys[if a < i { a } else { a + 1 }] == keys[i]);
    }
    if out.contains(SYNC_KEY@) {
        let a = choose|a: int| 0 <= a < out.len() && out[a] == SYNC_KEY@;
        assert(keys[if a < i { a } else { a + 1 }] == SYNC_KEY@);
    }
}

/// While a package is worked on nothing else can be done to it, nor can the synchronisation start;
/// while that runs nothing can be done at all.
pub proof fn law_operations_exclude_each_other(running: Seq<Seq<char>>, key: Seq<char>)
    ensures
        running.contains(SYNC_KEY@) ==> busy_reason(running, key) is Some,
        running.contains(key) ==> busy_reason(running, key) is Some,
        running.len() > 0 ==> busy_reason(running, SYNC_KEY@) is Some,
        running.len() == 0 ==> busy_reason(running, key) is None,
        !running.contains(SYNC_KEY@) && !running.contains(key) && key != SYNC_KEY@ ==> busy_reason(
            running,
            key,
        ) is None,
{
    if running.contains(key) {
        assert(running.len() > 0);
    }
}

} // verus!
