//! The registry of managed plugins: what cannot be read off the profile itself.

use crate::plugin::spec::{Origin, SpecKind};
use crate::text;
use vstd::prelude::*;

verus! {

pub const SCHEMA_VERSION: u32 = 1;

/// Where a plugin was installed from.
pub struct PluginSource {
    pub kind: SpecKind,
    pub spec: String,
    pub repo: Option<String>,
    pub reference: Option<String>,
    pub commit: Option<String>,
}

/// The outcome of one synchronisation.
pub struct SyncRecord {
    /// Seconds since the epoch, in digits.
    pub at: String,
    pub from: String,
    pub to: String,
    /// `ok`, `failed` or `skipped`.
    pub result: String,
}

/// What is recorded of one plugin.
pub struct PluginRecord {
    pub package: String,
    pub origin: Origin,
    pub source: Option<PluginSource>,
    pub rows: Vec<String>,
    /// `enabled` or `disabled`; `None` follows the bundle.
    pub desired: Option<String>,
    pub last_sync: Option<SyncRecord>,
    pub protected: bool,
    pub quarantine: bool,
    pub last_error: Option<String>,
    /// The built-in rows that were switched back on when the plugin was switched off.
    pub shadow_restored: Vec<String>,
}

impl PluginRecord {
    pub fn new(package: String) -> (r: Self)
        ensures
            r.package == package,
            r.origin == Origin::Unknown,
            r.source is None,
            r.rows@.len() == 0,
            r.desired is None,
            r.last_sync is None,
            !r.protected,
            !r.quarantine,
            r.last_error is None,
            r.shadow_restored@.len() == 0,
    {
        Self {
            package,
            origin: Origin::Unknown,
            source: None,
            rows: Vec::new(),
            desired: None,
            last_sync: None,
            protected: false,
            quarantine: false,
            last_error: None,
            shadow_restored: Vec::new(),
        }
    }
}

/// The registry of one profile.
pub struct Registry {
    pub schema_version: u32,
    pub profile: String,
    pub plugins: Vec<PluginRecord>,
}

/// The position of the first record of a package.
pub open spec fn position(plugins: Seq<PluginRecord>, package: Seq<char>) -> Option<int>
    decreases plugins.len(),
{
    if plugins.len() == 0 {
        None
    } else if plugins[0].package@ == package {
        Some(0)
    } else {
        match position(plugins.skip(1), package) {
            Some(i) => Some(i + 1),
            None => None,
        }
    }
}

/// The records of all other packages.
pub open spec fn others(plugins: Seq<PluginRecord>, package: Seq<char>) -> Seq<PluginRecord>
    decreases plugins.len(),
{
    if plugins.len() == 0 {
        seq![]
    } else if plugins[0].package@ == package {
        others(plugins.skip(1), package)
    } else {
        seq![plugins[0]] + others(plugins.skip(1), package)
    }
}

pub proof fn lemma_position(plugins: Seq<PluginRecord>, package: Seq<char>, i: int)
    requires
        0 <= i <= plugins.len(),
        forall|j: int| 0 <= j < i ==> #[trigger] plugins[j].package@ != package,
    ensures
        i == plugins.len() ==> position(plugins, package) is None,
        i < plugins.len() && plugins[i].package@ == package ==> position(plugins, package) == Some(
            i,
        ),
    decreases i,
{
    if i > 0 {
        assert(plugins[0].package@ != package);
        let rest = plugins.skip(1);
        assert forall|j: int| 0 <= j < i - 1 implies #[trigger] rest[j].package@ != package by {
            assert(rest[j] == plugins[j + 1]);
        }
        lemma_position(rest, package, i - 1);
        if i < plugins.len() {
            assert(rest[i - 1] == plugins[i]);
        }
    }
}

impl Registry {
    pub fn empty(profile: &str) -> (r: Self)
        ensures
            r.schema_version == SCHEMA_VERSION,
            r.profile@ == profile@,
            r.plugins@.len() == 0,
    {
        Self {
            schema_version: SCHEMA_VERSION,
            profile: profile.to_owned(),
            plugins: Vec::new(),
        }
    }

    /// The registry that a file stands for: what could be read of it with its gaps filled in, or
    /// an empty one.
    pub fn load_from(parsed: Option<Registry>, profile: &str) -> (r: Self)
        ensures
            match parsed {
                Some(p) => {
                    &&& r.schema_version == if p.schema_version == 0 {
                        SCHEMA_VERSION
                    } else {
                        p.schema_version
                    }
                    &&& r.profile@ == if p.profile@.len() == 0 {
                        profile@
                    } else {
                        p.profile@
                    }
                    &&& r.plugins == p.plugins
                },
                None => r.schema_version == SCHEMA_VERSION && r.profile@ == profile@
                    && r.plugins@.len() == 0,
            },
    {
        match parsed {
            Some(p) => {
                let schema_version: u32 = if p.schema_version == 0 {
                    SCHEMA_VERSION
                } else {
                    p.schema_version
                };
                let name = if p.profile.as_str().is_empty() {
                    profile.to_owned()
                } else {
                    p.profile
                };
                Self { schema_version, profile: name, plugins: p.plugins }
            },
            None => Self::empty(profile),
        }
    }

    fn index_of(&self, package: &str) -> (r: Option<usize>)
        ensures
            match r {
                Some(i) => i < self.plugins.len() && position(self.plugins@, package@) == Some(
                    i as int,
                ),
                None => position(self.plugins@, package@) is None,
            },
    {
        let mut i: usize = 0;
        while i < self.plugins.len()
            invariant
                i <= self.plugins.len(),
                forall|j: int| 0 <= j < i ==> #[trigger] self.plugins@[j].package@ != package@,
            decreases self.plugins.len() - i,
        {
            if text::same(self.plugins[i].package.as_str(), package) {
                proof {
                    lemma_position(self.plugins@, package@, i as int);
                }
                return Some(i);
            }
            i += 1;
        }
        proof {
            lemma_position(self.plugins@, package@, i as int);
        }
        None
    }

    /// The record of a package.
    pub fn find(&self, package: &str) -> (r: Option<&PluginRecord>)
        ensures
            match r {
                Some(p) => position(self.plugins@, package@) is Some && *p == self.plugins@[position(
                    self.plugins@,
                    package@,
                )->0],
                None => position(self.plugins@, package@) is None,
            },
    {
        match self.index_of(package) {
            Some(i) => Some(&self.plugins[i]),
            None => None,
        }
    }

    /// Puts a record in place of the one of the same package, or at the end.
    pub fn upsert(&mut self, record: PluginRecord)
        ensures
            final(self).schema_version == old(self).schema_version,
            final(self).profile == old(self).profile,
            final(self).plugins@ == match position(old(self).plugins@, record.package@) {
                Some(i) => old(self).plugins@.update(i, record),
                None => old(self).plugins@.push(record),
            },
    {
        match self.index_of(record.package.as_str()) {
            Some(i) => {
                self.plugins.set(i, record);
            },
            None => {
                self.plugins.push(record);
            },
        }
    }

    /// Drops the records of a package; tells whether there were any.
    pub fn remove(&mut self, package: &str) -> (r: bool)
        ensures
            final(self).schema_version == old(self).schema_version,
            final(self).profile == old(self).profile,
            final(self).plugins@ == others(old(self).plugins@, package@),
            r == (final(self).plugins@.len() != old(self).plugins@.len()),
    {
        let before = self.plugins.len();
        let mut i: usize = 0;
        let ghost all = self.plugins@;
        proof {
            assert(all.take(0) + others(all.skip(0), package@) =~= others(all, package@)) by {
                assert(all.skip(0) =~= all);
            }
        }
        while i < self.plugins.len()
            invariant
                i <= self.plugins.len(),
                self.schema_version == old(self).schema_version,
                self.profile == old(self).profile,
                others(all, package@) == self.plugins@.take(i as int) + others(
                    self.plugins@.skip(i as int),
                    package@,
                ),
            decreases self.plugins.len() - i,
        {
            let ghost now = self.plugins@;
            let ghost rest = now.skip(i as int);
            proof {
                assert(rest[0] == now[i as int]);
            }
            if text::same(self.plugins[i].package.as_str(), package) {
                self.plugins.remove(i);
                proof {
                    assert(self.plugins@.take(i as int) =~= now.take(i as int));
                    assert(self.plugins@.skip(i as int) =~= rest.skip(1));
                }
            } else {
                i += 1;
                proof {
                    assert(now.skip(i as int) =~= rest.skip(1));
                    let tail = others(rest.skip(1), package@);
                    assert(now.take(i as int) + tail =~= now.take(i - 1) + (seq![rest[0]] + tail));
                }
            }
        }
        proof {
            assert(self.plugins@.take(i as int) + others(self.plugins@.skip(i as int), package@)
                =~= self.plugins@);
        }
        before != self.plugins.len()
    }

    /// Sets the desired state in the record of a package, if there is one.
    pub fn set_desired(&mut self, package: &str, desired: Option<&str>)
        ensures
            final(self).schema_version == old(self).schema_version,
            final(self).profile == old(self).profile,
            match position(old(self).plugins@, package@) {
                Some(i) => {
                    let d = final(self).plugins@[i].desired;
                    &&& crate::model::text_of(d) == crate::model::slice_of(desired)
                    &&& final(self).plugins@ == old(self).plugins@.update(
                        i,
                        (PluginRecord { desired: d, ..old(self).plugins@[i] }),
                    )
                },
                None => final(self).plugins@ == old(self).plugins@,
            },
    {
        if let Some(i) = self.index_of(package) {
            let ghost all = self.plugins@;
            let d = match desired {
                Some(s) => Some(s.to_owned()),
                None => None,
            };
            let mut record = self.plugins.remove(i);
            record.desired = d;
            self.plugins.insert(i, record);
            proof {
                let new = PluginRecord { desired: d, ..all[i as int] };
                assert(self.plugins@ =~= all.update(i as int, new));
            }
        }
    }

    /// Sets the last error in the record of a package, if there is one.
    pub fn set_error(&mut self, package: &str, message: Option<String>)
        ensures
            final(self).schema_version == old(self).schema_version,
            final(self).profile == old(self).profile,
            final(self).plugins@ == match position(old(self).plugins@, package@) {
                Some(i) => old(self).plugins@.update(
                    i,
                    (PluginRecord { last_error: message, ..old(self).plugins@[i] }),
                ),
                None => old(self).plugins@,
            },
    {
        if let Some(i) = self.index_of(package) {
            let ghost all = self.plugins@;
            let mut record = self.plugins.remove(i);
            record.last_error = message;
            self.plugins.insert(i, record);
            proof {
                let new = PluginRecord { last_error: message, ..all[i as int] };
                assert(self.plugins@ =~= all.update(i as int, new));
            }
        }
    }
}

proof fn lemma_others_has_none(plugins: Seq<PluginRecord>, package: Seq<char>)
    ensures
        position(others(plugins, package), package) is None,
    decreases plugins.len(),
{
    if plugins.len() > 0 {
        lemma_others_has_none(plugins.skip(1), package);
        if plugins[0].package@ != package {
            let tail = others(plugins.skip(1), package);
            assert((seq![plugins[0]] + tail).skip(1) =~= tail);
        }
    }
}

pub proof fn lemma_position_found(plugins: Seq<PluginRecord>, package: Seq<char>)
    ensures
        match position(plugins, package) {
            Some(i) => 0 <= i < plugins.len() && plugins[i].package@ == package && (forall|j: int|
                0 <= j < i ==> #[trigger] plugins[j].package@ != package),
            None => forall|j: int|
                0 <= j < plugins.len() ==> #[trigger] plugins[j].package@ != package,
        },
    decreases plugins.len(),
{
    if plugins.len() > 0 && plugins[0].package@ != package {
        let rest = plugins.skip(1);
        lemma_position_found(rest, package);
        let top = match position(rest, package) {
            Some(i) => i + 1,
            None => plugins.len() as int,
        };
        assert forall|j: int| 0 <= j < top implies #[trigger] plugins[j].package@ != package by {
            if j > 0 {
                assert(plugins[j] == rest[j - 1]);
            }
        }
    }
}

/// A record that was put in is the one that is found, and a package that was removed is not found.
pub proof fn law_registry_lookup(plugins: Seq<PluginRecord>, record: PluginRecord)
    ensures
        ({
            let put = match position(plugins, record.package@) {
                Some(i) => plugins.update(i, record),
                None => plugins.push(record),
            };
            position(put, record.package@) is Some && put[position(put, record.package@)->0]
                == record
        }),
        position(others(plugins, record.package@), record.package@) is None,
{
    let package = record.package@;
    lemma_others_has_none(plugins, package);
    lemma_position_found(plugins, package);
    let (put, i) = match position(plugins, package) {
        Some(i) => (plugins.update(i, record), i),
        None => (plugins.push(record), plugins.len() as int),
    };
    assert forall|j: int| 0 <= j < i implies #[trigger] put[j].package@ != package by {
        assert(put[j] == plugins[j]);
    }
    lemma_position(put, package, i);
}

} // verus!
