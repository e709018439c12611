//! What a synchronisation would change: which plugins follow a source, where to ask for its newest
//! state, and what follows from the answer.

use crate::model;
use crate::plugin::lifecycle::SyncPlanItem;
use crate::plugin::registry::PluginRecord;
use crate::plugin::service::copy_text;
use crate::plugin::spec;
use crate::plugin::spec::{Origin, SpecKind};
use crate::text;
use vstd::prelude::*;

verus! {

/// Where the newest state of a plugin's source can be asked for.
pub enum Question {
    /// Nowhere: the plugin follows no source.
    Nothing,
    /// The registry of packages.
    Package(String),
    /// A reference of a repository.
    Commit { repo: String, reference: String },
}

/// The kind of a plugin's source.
pub open spec fn kind_of(record: PluginRecord) -> SpecKind {
    match record.source {
        Some(s) => s.kind,
        None => SpecKind::Unknown,
    }
}

/// The plugin follows a source: one of its own making never does.
pub open spec fn follows(record: PluginRecord) -> bool {
    record.origin == Origin::Upstream && record.source is Some
}

/// The reference that is followed: a pinned commit stands for the newest one.
pub open spec fn followed(reference: Option<String>) -> Seq<char> {
    match reference {
        Some(r) => if spec::commit_hash(r@) {
            "HEAD"@
        } else {
            r@
        },
        None => "HEAD"@,
    }
}

/// Where to ask about a plugin.
pub fn sync_question(record: &PluginRecord) -> (r: Question)
    ensures
        if follows(*record) && kind_of(*record) == SpecKind::Npm {
            r matches Question::Package(p) && p@ == record.package@
        } else if follows(*record) && kind_of(*record) == SpecKind::Git && record.source->0.repo
            is Some {
            r matches Question::Commit { repo, reference } && Some(repo) == record.source->0.repo
                && reference@ == followed(record.source->0.reference)
        } else {
            r is Nothing
        },
{
    if record.origin != Origin::Upstream {
        return Question::Nothing;
    }
    match &record.source {
        None => Question::Nothing,
        Some(source) => if source.kind == SpecKind::Npm {
            Question::Package(record.package.clone())
        } else if source.kind == SpecKind::Git {
            match &source.repo {
                None => Question::Nothing,
                Some(repo) => {
                    let reference = match &source.reference {
                        Some(r) => if spec::is_pinned_commit(r.as_str()) {
                            "HEAD".to_owned()
                        } else {
                            r.clone()
                        },
                        None => "HEAD".to_owned(),
                    };
                    Question::Commit { repo: repo.clone(), reference }
                },
            }
        } else {
            Question::Nothing
        },
    }
}

/// What is in place: the commit on record for a followed git source, else the installed version.
pub open spec fn in_place(record: PluginRecord, installed: Option<String>) -> Option<Seq<char>> {
    if follows(record) && kind_of(record) == SpecKind::Git && record.source->0.commit is Some {
        model::text_of(record.source->0.commit)
    } else {
        model::text_of(installed)
    }
}

/// The spec that leads to the newest state.
pub open spec fn leading_to(record: PluginRecord, newest: Seq<char>) -> Option<Seq<char>> {
    if kind_of(record) == SpecKind::Npm {
        Some(spec::installable(record.package@, newest))
    } else if kind_of(record) == SpecKind::Git && record.source->0.repo is Some {
        Some("git+"@ + record.source->0.repo->0@ + "#"@ + newest)
    } else {
        None
    }
}

/// What is planned for a plugin. `installed` is its installed version, `newest` the answer to
/// `sync_question`.
pub fn plan_item(record: &PluginRecord, installed: Option<String>, newest: Option<String>) -> (r:
    SyncPlanItem)
    ensures
        r.package@ == record.package@,
        r.origin == record.origin,
        r.kind == kind_of(*record),
        model::text_of(r.current) == in_place(*record, installed),
        if !follows(*record) {
            &&& r.target is None
            &&& r.new_spec is None
            &&& !r.actionable
            &&& r.reason@ == "非上游来源，跳过"@
        } else {
            &&& r.target == newest
            &&& model::text_of(r.new_spec) == match newest {
                Some(n) => leading_to(*record, n@),
                None => None,
            }
            &&& r.actionable == (newest is Some && model::text_of(newest) != model::text_of(
                r.current,
            ))
            &&& r.reason@ == match newest {
                None => "无法取得上游版本"@,
                Some(n) => if r.actionable {
                    "可更新到 "@ + n@
                } else {
                    "已是最新"@
                },
            }
        },
{
    let package = record.package.clone();
    let (kind, repo, commit) = match &record.source {
        Some(s) => (s.kind, copy_text(&s.repo), copy_text(&s.commit)),
        None => (SpecKind::Unknown, None, None),
    };
    if record.origin != Origin::Upstream || record.source.is_none() {
        return SyncPlanItem {
            package,
            origin: record.origin,
            kind,
            current: installed,
            target: None,
            new_spec: None,
            actionable: false,
            reason: "非上游来源，跳过".to_owned(),
        };
    }
    let current = if kind == SpecKind::Git && commit.is_some() {
        commit
    } else {
        installed
    };
    let new_spec = match &newest {
        None => None,
        Some(n) => if kind == SpecKind::Npm {
            Some(spec::full_spec(record.package.as_str(), n.as_str()))
        } else if kind == SpecKind::Git {
            match &repo {
                Some(url) => Some(text::cat4("git+", url.as_str(), "#", n.as_str())),
                None => None,
            }
        } else {
            None
        },
    };
    let actionable = match (&newest, &current) {
        (Some(n), Some(c)) => !text::same(n.as_str(), c.as_str()),
        (Some(_), None) => true,
        (None, _) => false,
    };
    let reason = match &newest {
        None => "无法取得上游版本".to_owned(),
        Some(n) => if actionable {
            text::cat2("可更新到 ", n.as_str())
        } else {
            "已是最新".to_owned()
        },
    };
    SyncPlanItem {
        package,
        origin: record.origin,
        kind,
        current,
        target: newest,
        new_spec,
        actionable,
        reason,
    }
}

} // verus!
