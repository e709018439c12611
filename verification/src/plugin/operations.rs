//! Installing, uninstalling, repairing and synchronising plugins.
//!
//! The work itself (running the package manager, reading and restoring files, stopping and starting
//! the service) is done by the caller. What is decided here is which step comes next, what is
//! recorded and what the user is told.

use crate::model;
use crate::model::CharSet;
use crate::plugin::registry::{PluginRecord, PluginSource};
use crate::plugin::service::{is_protected, protected_package, OpResult, OpStatus};
use crate::plugin::spec;
use crate::plugin::spec::{Origin, SpecKind};
use crate::plugin::state::{illegal_error, verification_error, PluginError};
use crate::profile::ProfileManifest;
use crate::stream::StreamFailure;
use crate::text;
use crate::text_map::TextMap;
use vstd::prelude::*;

verus! {

// ---- Specs and arguments ----

/// The prefix and the path of a spec that names a path relative to the working directory.
pub open spec fn relative_part(spec: Seq<char>) -> Option<(Option<Seq<char>>, Seq<char>)> {
    if spec::classified(spec).0 != SpecKind::Path {
        None
    } else {
        let (prefix, path) = match model::split_once(spec, CharSet::Only(':')) {
            Some((head, tail)) => if model::same_but_case(head, "file"@) || model::same_but_case(
                head,
                "link"@,
            ) {
                (Some(head), tail)
            } else {
                (None, spec)
            },
            None => (None, spec),
        };
        if model::starts_with(path, "./"@) || model::starts_with(path, "../"@)
            || model::starts_with(path, ".\\"@) || model::starts_with(path, "..\\"@) {
            Some((prefix, path))
        } else {
            None
        }
    }
}

/// The prefix and the path of a spec that names a path relative to the working directory.
pub fn relative_path_of(spec: &str) -> (r: Option<(Option<String>, String)>)
    ensures
        match r {
            Some((prefix, path)) => relative_part(spec@) == Some((model::text_of(prefix), path@)),
            None => relative_part(spec@) is None,
        },
{
    let (kind, origin) = spec::classify(spec);
    if kind != SpecKind::Path {
        return None;
    }
    let (prefix, path) = match text::split_once(spec, CharSet::Only(':')) {
        Some((head, tail)) => if text::same_but_case(head.as_str(), "file") || text::same_but_case(
            head.as_str(),
            "link",
        ) {
            (Some(head), tail)
        } else {
            (None, spec.to_owned())
        },
        None => (None, spec.to_owned()),
    };
    if text::starts_with(path.as_str(), "./") || text::starts_with(path.as_str(), "../")
        || text::starts_with(path.as_str(), ".\\") || text::starts_with(path.as_str(), "..\\") {
        Some((prefix, path))
    } else {
        None
    }
}

/// A spec whose relative path is replaced by `joined`, the same path from the root; any other spec
/// as it is. Without a known working directory there is no `joined`.
pub fn anchor_spec(spec: &str, joined: Option<&str>) -> (r: String)
    ensures
        r@ == match (relative_part(spec@), joined) {
            (Some((Some(prefix), path)), Some(j)) => prefix + ":"@ + j@,
            (Some((None, path)), Some(j)) => j@,
            _ => spec@,
        },
{
    match (relative_path_of(spec), joined) {
        (Some((Some(prefix), path)), Some(j)) => text::cat3(prefix.as_str(), ":", j),
        (Some((None, path)), Some(j)) => j.to_owned(),
        _ => spec.to_owned(),
    }
}

/// An argument that names a package of a registry.
pub open spec fn registry_spec(arg: Seq<char>) -> bool {
    !(arg.len() > 0 && arg[0] == '-') && spec::classified(arg).0 == SpecKind::Npm
}

/// A command of the package manager that reaches for the registry: an install, or the addition of
/// a registry package.
pub open spec fn needs_registry(args: Seq<Seq<char>>) -> bool {
    &&& args.len() > 0
    &&& args[0] == "install"@ || args[0] == "i"@ || (args[0] == "add"@ && exists|i: int|
        1 <= i < args.len() && registry_spec(#[trigger] args[i]))
}

pub fn registry_should_apply(pnpm_args: &[String]) -> (b: bool)
    ensures
        b == needs_registry(model::texts(pnpm_args@)),
{
    let ghost args = model::texts(pnpm_args@);
    if pnpm_args.len() == 0 {
        return false;
    }
    let command = pnpm_args[0].as_str();
    proof {
        assert(args[0] == command@);
        reveal_strlit("add");
        reveal_strlit("install");
        reveal_strlit("i");
    }
    if text::same(command, "install") || text::same(command, "i") {
        return true;
    }
    if !text::same(command, "add") {
        return false;
    }
    let mut i: usize = 1;
    while i < pnpm_args.len()
        invariant
            args == model::texts(pnpm_args@),
            1 <= i <= pnpm_args.len(),
            args[0] == "add"@,
            forall|j: int| 1 <= j < i ==> !registry_spec(#[trigger] args[j]),
        decreases pnpm_args.len() - i,
    {
        let arg = pnpm_args[i].as_str();
        proof {
            assert(args[i as int] == arg@);
        }
        let v = text::chars_of(arg);
        let option = v.len() > 0 && v[0] == '-';
        let (kind, origin) = spec::classify(arg);
        if !option && kind == SpecKind::Npm {
            return true;
        }
        i += 1;
    }
    proof {
        assert("add"@.len() != "install"@.len() && "add"@.len() != "i"@.len());
    }
    false
}

/// The arguments of the service's command that forwards `pnpm_args` to the package manager, with
/// the registry to use where one is configured and needed.
pub fn forward_args(profile: &str, pnpm_args: &Vec<String>, registry: Option<&str>) -> (r: Vec<
    String,
>)
    ensures
        model::texts(r@) == seq!["plugin"@, "--profile"@, profile@] + model::texts(pnpm_args@) + (
        if registry is Some && needs_registry(model::texts(pnpm_args@)) {
            seq!["--registry"@, (registry->0)@]
        } else {
            seq![]
        }),
{
    let mut out: Vec<String> = Vec::new();
    out.push("plugin".to_owned());
    out.push("--profile".to_owned());
    out.push(profile.to_owned());
    let ghost head = seq!["plugin"@, "--profile"@, profile@];
    let ghost args = model::texts(pnpm_args@);
    proof {
        assert(model::texts(out@) =~= head + args.take(0));
    }
    let mut i: usize = 0;
    while i < pnpm_args.len()
        invariant
            args == model::texts(pnpm_args@),
            i <= pnpm_args.len(),
            model::texts(out@) == head + args.take(i as int),
        decreases pnpm_args.len() - i,
    {
        let ghost before = model::texts(out@);
        out.push(pnpm_args[i].clone());
        i += 1;
        proof {
            assert(model::texts(out@) =~= before.push(args[i - 1]));
            assert(head + args.take(i as int) =~= before.push(args[i - 1]));
        }
    }
    proof {
        assert(args.take(args.len() as int) =~= args);
    }
    let ghost body = model::texts(out@);
    if let Some(url) = registry {
        if registry_should_apply(pnpm_args.as_slice()) {
            out.push("--registry".to_owned());
            out.push(url.to_owned());
            proof {
                assert(model::texts(out@) =~= body + seq!["--registry"@, url@]);
            }
            return out;
        }
    }
    proof {
        assert(body + Seq::<Seq<char>>::empty() =~= body);
    }
    out
}

/// What is suggested where the registry does not know a package.
pub open spec fn hint_unknown_package() -> Seq<char> {
    "\n提示：该 npm 包在 registry 中不存在（或名称拼写有误 / 无访问权限）。\n  "@
        + "请核对包名；若想装 GitHub 仓库，请改用 git 形态（建议钉 commit）：\n  "@
        + "  https://github.com/<owner>/<repo>.git#<commit>\n  "@
        + "  或 github:<owner>/<repo>#<commit>"@
}

/// What is suggested where the package manager held back build scripts.
pub open spec fn hint_build_scripts() -> Seq<char> {
    "\n提示：pnpm 阻止了该依赖的构建脚本（build/prepare），安装未完成。\n  "@
        + "请按上方 pnpm 打印的**确切键名**，在 profile 的 pnpm-workspace.yaml 的 allowBuilds 下\n  "@
        + "将其设为 true，然后重试。该文件路径见上方 “profile directory”。"@
}

/// What is suggested where packages could not be fetched.
pub open spec fn hint_fetch() -> Seq<char> {
    "\n提示：拉取失败，请检查网络或在设置中配置 npm 镜像源后重试。"@
}

pub open spec fn hints(diagnosis: Seq<char>) -> Seq<char> {
    (if model::contains(diagnosis, "ERR_PNPM_FETCH_404"@) || model::contains(
        diagnosis,
        "is not in the npm registry"@,
    ) {
        hint_unknown_package()
    } else {
        seq![]
    }) + (if model::contains(diagnosis, "allowBuilds"@) || model::contains(
        diagnosis,
        "Ignored build scripts"@,
    ) || model::contains(diagnosis, "PREPARE_NOT_ALLOWED"@) || model::contains(
        diagnosis,
        "needs to execute build scripts"@,
    ) {
        hint_build_scripts()
    } else {
        seq![]
    }) + (if model::contains(diagnosis, "ERR_PNPM_FETCH"@) && !model::contains(
        diagnosis,
        "ERR_PNPM_FETCH_404"@,
    ) {
        hint_fetch()
    } else {
        seq![]
    })
}

/// A failure of the package manager in its own words, followed by hints on the known causes.
pub fn describe_pnpm_failure(failure: &StreamFailure) -> (r: String)
    ensures
        r@ == failure.full() + hints(model::join(failure.diagnosis(), "\n"@)),
{
    let joined = failure.diagnostics();
    let told = joined.as_str();
    let mut more = String::new();
    proof {
        assert(more@ =~= seq![]);
    }
    if text::contains(told, "ERR_PNPM_FETCH_404") || text::contains(
        told,
        "is not in the npm registry",
    ) {
        more = text::cat4(
            "\n提示：该 npm 包在 registry 中不存在（或名称拼写有误 / 无访问权限）。\n  ",
            "请核对包名；若想装 GitHub 仓库，请改用 git 形态（建议钉 commit）：\n  ",
            "  https://github.com/<owner>/<repo>.git#<commit>\n  ",
            "  或 github:<owner>/<repo>#<commit>",
        );
    }
    let ghost first = more@;
    if text::contains(told, "allowBuilds") || text::contains(told, "Ignored build scripts")
        || text::contains(told, "PREPARE_NOT_ALLOWED") || text::contains(
        told,
        "needs to execute build scripts",
    ) {
        let hint = text::cat3(
            "\n提示：pnpm 阻止了该依赖的构建脚本（build/prepare），安装未完成。\n  ",
            "请按上方 pnpm 打印的**确切键名**，在 profile 的 pnpm-workspace.yaml 的 allowBuilds 下\n  ",
            "将其设为 true，然后重试。该文件路径见上方 “profile directory”。",
        );
        more.append(hint.as_str());
    } else {
        proof {
            assert(first + Seq::<char>::empty() =~= first);
        }
    }
    let ghost second = more@;
    if text::contains(told, "ERR_PNPM_FETCH") && !text::contains(told, "ERR_PNPM_FETCH_404") {
        more.append("\n提示：拉取失败，请检查网络或在设置中配置 npm 镜像源后重试。");
    } else {
        proof {
            assert(second + Seq::<char>::empty() =~= second);
        }
    }
    text::cat2(failure.detail().as_str(), more.as_str())
}

// ---- Installing ----

/// Where an installation stands.
pub enum InstallStage {
    /// The package manager is adding the package.
    Adding,
    /// The addition failed and is being taken back.
    Undoing { error: PluginError },
    /// The manifest is being read.
    Reading,
    /// Whether the package declares a bundle is being found out.
    Checking { package: String, in_bundles: bool },
    /// The bundles are being reconciled.
    Reconciling { package: String },
    /// The package did not become a bundle, and the installation is being taken back.
    Withdrawing { package: String },
    /// The installation holds.
    Recording { package: String, declares: bool },
    /// Nothing is left to do.
    Over,
}

/// What came of a step of an installation.
pub enum InstallEvent {
    /// The package manager has run.
    Added(Result<(), PluginError>),
    /// The profile's files were restored; tells whether all of them were.
    RolledBack(bool),
    /// The manifest was read.
    Manifest(Result<ProfileManifest, PluginError>),
    /// Whether the package declares a bundle.
    Declares(bool),
    /// The record was saved and the service started again, or not.
    Restarted(bool),
}

/// What to do next in an installation.
pub enum InstallAction {
    /// Restore the profile's files.
    Rollback,
    /// Read the profile's manifest.
    ReadManifest,
    /// Find out whether the package declares a bundle.
    CheckBundle(String),
    /// Let the service reconcile its bundles, then read the manifest.
    Reconcile,
    /// Save the record and start the service again if it was running.
    Record(PluginRecord),
    /// Give up, and start the service again if `restart` and it was running.
    Fail { error: PluginError, restart: bool },
    Done(OpResult),
}

/// An installation under way.
pub struct InstallRun {
    pub spec: String,
    /// The package name that the spec suggests.
    pub hint: String,
    pub origin_override: Option<Origin>,
    /// The dependencies before the installation.
    pub before: TextMap,
    pub stage: InstallStage,
}

/// The first dependency that was not there before.
pub open spec fn first_new(keys: Seq<Seq<char>>, before: TextMap, i: int) -> Option<Seq<char>>
    decreases keys.len() - i,
{
    if i < 0 || i >= keys.len() {
        None
    } else if before.lookup(keys[i]) is None {
        Some(keys[i])
    } else {
        first_new(keys, before, i + 1)
    }
}

/// A record of a package installed from a spec.
pub open spec fn installed_record(
    record: PluginRecord,
    package: Seq<char>,
    spec_value: Seq<char>,
    origin_override: Option<Origin>,
) -> bool {
    &&& record.package@ == package
    &&& record.origin == match origin_override {
        Some(o) => o,
        None => spec::classified(spec_value).1,
    }
    &&& record.source is Some
    &&& record.source->0.kind == spec::classified(spec_value).0
    &&& record.source->0.spec@ == spec_value
    &&& model::text_of(record.source->0.repo) == (match spec::repo_and_ref(spec_value) {
        Some((repo, reference)) => Some(repo),
        None => None,
    })
    &&& model::text_of(record.source->0.reference) == (match spec::repo_and_ref(spec_value) {
        Some((repo, reference)) => reference,
        None => None,
    })
    &&& model::text_of(record.source->0.commit) == spec::pinned(spec_value)
    &&& record.rows@.len() == 0
    &&& record.desired is None
    &&& record.last_sync is None
    &&& record.protected == protected_package(package)
    &&& !record.quarantine
    &&& record.last_error is None
    &&& record.shadow_restored@.len() == 0
}

fn new_record(package: &str, spec_value: &str, origin_override: Option<Origin>) -> (r: PluginRecord)
    ensures
        installed_record(r, package@, spec_value@, origin_override),
{
    let (kind, classified_origin) = spec::classify(spec_value);
    let (repo, reference) = match spec::git_repo_and_ref(spec_value) {
        Some((a, b)) => (Some(a), b),
        None => (None, None),
    };
    let mut record = PluginRecord::new(package.to_owned());
    record.origin = match origin_override {
        Some(o) => o,
        None => classified_origin,
    };
    record.source = Some(
        PluginSource {
            kind,
            spec: spec_value.to_owned(),
            repo,
            reference,
            commit: spec::pinned_commit(spec_value),
        },
    );
    record.protected = is_protected(package);
    record
}

/// What the user is told of an installation.
pub open spec fn install_message(package: Seq<char>, declares: bool, restarted: bool) -> Seq<char> {
    "已安装 "@ + package + "（"@ + (if declares {
        "bundle 层已激活"@
    } else {
        "普通依赖，不贡献层"@
    }) + "）"@ + (if restarted {
        "；dsh 已重启"@
    } else {
        seq![]
    })
}

impl InstallRun {
    /// Starts an installation from a spec that is already anchored; an empty spec is refused.
    pub fn begin(spec_value: &str, origin_override: Option<Origin>, before: TextMap) -> (r: Result<
        Self,
        PluginError,
    >)
        ensures
            spec_value@.len() == 0 ==> r is Err && r->Err_0@ == illegal_error(
                "安装 spec 不能为空"@,
            ),
            spec_value@.len() > 0 ==> {
                &&& r is Ok
                &&& r->Ok_0.spec@ == spec_value@
                &&& r->Ok_0.hint@ == (match spec::package_name(spec_value@) {
                    Some(n) => n,
                    None => spec_value@,
                })
                &&& r->Ok_0.origin_override == origin_override
                &&& r->Ok_0.before == before
                &&& r->Ok_0.stage is Adding
            },
    {
        if spec_value.is_empty() {
            return Err(PluginError::illegal("安装 spec 不能为空".to_owned()));
        }
        let hint = match spec::package_name_from_spec(spec_value) {
            Some(n) => n,
            None => spec_value.to_owned(),
        };
        Ok(
            InstallRun {
                spec: spec_value.to_owned(),
                hint,
                origin_override,
                before,
                stage: InstallStage::Adding,
            },
        )
    }

    /// The key under which the installation excludes others of the same package.
    pub fn key(&self) -> (r: String)
        ensures
            r@ == "install:"@ + self.hint@,
    {
        text::cat2("install:", self.hint.as_str())
    }

    /// The arguments for the package manager.
    pub fn args(&self) -> (r: Vec<String>)
        ensures
            model::texts(r@) == seq!["add"@, self.spec@],
    {
        let mut out: Vec<String> = Vec::new();
        out.push("add".to_owned());
        out.push(self.spec.clone());
        proof {
            assert(model::texts(out@) =~= seq!["add"@, self.spec@]);
        }
        out
    }

    /// The event is one that the installation waits for.
    pub open spec fn expects(&self, event: InstallEvent) -> bool {
        match self.stage {
            InstallStage::Adding => event is Added,
            InstallStage::Undoing { .. } => event is RolledBack,
            InstallStage::Reading => event is Manifest,
            InstallStage::Checking { .. } => event is Declares,
            InstallStage::Reconciling { .. } => event is Manifest,
            InstallStage::Withdrawing { .. } => event is RolledBack,
            InstallStage::Recording { .. } => event is Restarted,
            InstallStage::Over => false,
        }
    }

    fn installed_name(&self, manifest: &ProfileManifest) -> (r: String)
        requires
            manifest.wf(),
        ensures
            r@ == match first_new(manifest.dependencies.keys(), self.before, 0) {
                Some(k) => k,
                None => self.hint@,
            },
    {
        let n = manifest.dependencies.len();
        let ghost keys = manifest.dependencies.keys();
        let mut i: usize = 0;
        while i < n
            invariant
                keys == manifest.dependencies.keys(),
                n == keys.len(),
                i <= n,
                first_new(keys, self.before, 0) == first_new(keys, self.before, i as int),
            decreases n - i,
        {
            let key = manifest.dependencies.key(i);
            if !self.before.contains_key(key) {
                return key.to_owned();
            }
            i += 1;
        }
        self.hint.clone()
    }

    /// Decides what follows from an event.
    pub fn step(&mut self, event: InstallEvent) -> (r: InstallAction)
        requires
            old(self).expects(event),
            event is Manifest && event->Manifest_0 is Ok ==> event->Manifest_0->Ok_0.wf(),
        ensures
            final(self).spec == old(self).spec,
            final(self).hint == old(self).hint,
            final(self).origin_override == old(self).origin_override,
            final(self).before == old(self).before,
            match (old(self).stage, event) {
                (InstallStage::Adding, InstallEvent::Added(Ok(_))) => r is ReadManifest
                    && final(self).stage is Reading,
                (InstallStage::Adding, InstallEvent::Added(Err(e))) => {
                    &&& r is Rollback
                    &&& final(self).stage is Undoing
                    &&& final(self).stage->error@ == verification_error(
                        "插件安装失败（已回滚）: "@ + e.message@,
                    )
                },
                (
                    InstallStage::Undoing { error },
                    InstallEvent::RolledBack(complete),
                ) => final(self).stage is Over && r == (InstallAction::Fail {
                    error,
                    restart: !complete,
                }),
                (InstallStage::Reading, InstallEvent::Manifest(Err(e))) => final(self).stage is Over
                    && r == (InstallAction::Fail { error: e, restart: false }),
                (InstallStage::Reading, InstallEvent::Manifest(Ok(m))) => {
                    let package = match first_new(m.dependencies.keys(), old(self).before, 0) {
                        Some(k) => k,
                        None => old(self).hint@,
                    };
                    &&& r is CheckBundle
                    &&& r->CheckBundle_0@ == package
                    &&& final(self).stage is Checking
                    &&& final(self).stage->Checking_package@ == package
                    &&& final(self).stage->in_bundles == m.bundles_have(package)
                },
                (
                    InstallStage::Checking { package, in_bundles },
                    InstallEvent::Declares(declares),
                ) => if declares && !in_bundles {
                    r is Reconcile && final(self).stage == (InstallStage::Reconciling { package })
                } else {
                    &&& r is Record
                    &&& installed_record(
                        r->Record_0,
                        package@,
                        old(self).spec@,
                        old(self).origin_override,
                    )
                    &&& final(self).stage == (InstallStage::Recording { package, declares })
                },
                (
                    InstallStage::Reconciling { package },
                    InstallEvent::Manifest(Err(e)),
                ) => final(self).stage is Over && r == (InstallAction::Fail {
                    error: e,
                    restart: false,
                }),
                (
                    InstallStage::Reconciling { package },
                    InstallEvent::Manifest(Ok(m)),
                ) => if m.bundles_have(package@) {
                    &&& r is Record
                    &&& installed_record(
                        r->Record_0,
                        package@,
                        old(self).spec@,
                        old(self).origin_override,
                    )
                    &&& final(self).stage == (InstallStage::Recording { package, declares: true })
                } else {
                    r is Rollback && final(self).stage == (InstallStage::Withdrawing { package })
                },
                (InstallStage::Withdrawing { package }, InstallEvent::RolledBack(_)) => {
                    &&& final(self).stage is Over
                    &&& r is Fail
                    &&& r->restart
                    &&& r->Fail_error@ == verification_error(
                        package@ + " 未被 dsh 对账进 dsh.profile.bundles（已回滚）"@,
                    )
                },
                (
                    InstallStage::Recording { package, declares },
                    InstallEvent::Restarted(restarted),
                ) => {
                    &&& final(self).stage is Over
                    &&& r is Done
                    &&& r->Done_0.status == OpStatus::Changed
                    &&& r->Done_0.restarted == restarted
                    &&& r->Done_0.message@ == install_message(package@, declares, restarted)
                    &&& r->Done_0.package == Some(package)
                },
                _ => true,
            },
    {
        let mut stage = InstallStage::Over;
        std::mem::swap(&mut self.stage, &mut stage);
        match (stage, event) {
            (InstallStage::Adding, InstallEvent::Added(outcome)) => match outcome {
                Ok(_) => {
                    self.stage = InstallStage::Reading;
                    InstallAction::ReadManifest
                },
                Err(e) => {
                    let error = PluginError::verification(
                        text::cat2("插件安装失败（已回滚）: ", e.message.as_str()),
                    );
                    self.stage = InstallStage::Undoing { error };
                    InstallAction::Rollback
                },
            },
            (InstallStage::Undoing { error }, InstallEvent::RolledBack(complete)) => {
                InstallAction::Fail { error, restart: !complete }
            },
            (InstallStage::Reading, InstallEvent::Manifest(outcome)) => match outcome {
                Ok(m) => {
                    let package = self.installed_name(&m);
                    let in_bundles = m.in_bundles(package.as_str());
                    let ask = package.clone();
                    self.stage = InstallStage::Checking { package, in_bundles };
                    InstallAction::CheckBundle(ask)
                },
                Err(e) => InstallAction::Fail { error: e, restart: false },
            },
            (InstallStage::Checking { package, in_bundles }, InstallEvent::Declares(declares)) => {
                if declares && !in_bundles {
                    self.stage = InstallStage::Reconciling { package };
                    InstallAction::Reconcile
                } else {
                    let record = new_record(
                        package.as_str(),
                        self.spec.as_str(),
                        self.origin_override,
                    );
                    self.stage = InstallStage::Recording { package, declares };
                    InstallAction::Record(record)
                }
            },
            (InstallStage::Reconciling { package }, InstallEvent::Manifest(outcome)) => match outcome {
                Ok(m) => if m.in_bundles(package.as_str()) {
                    let record = new_record(
                        package.as_str(),
                        self.spec.as_str(),
                        self.origin_override,
                    );
                    self.stage = InstallStage::Recording { package, declares: true };
                    InstallAction::Record(record)
                } else {
                    self.stage = InstallStage::Withdrawing { package };
                    InstallAction::Rollback
                },
                Err(e) => InstallAction::Fail { error: e, restart: false },
            },
            (InstallStage::Withdrawing { package }, InstallEvent::RolledBack(_)) => {
                InstallAction::Fail {
                    error: PluginError::verification(
                        text::cat2(
                            package.as_str(),
                            " 未被 dsh 对账进 dsh.profile.bundles（已回滚）",
                        ),
                    ),
                    restart: true,
                }
            },
            (
                InstallStage::Recording { package, declares },
                InstallEvent::Restarted(restarted),
            ) => {
                let mut message = text::cat4(
                    "已安装 ",
                    package.as_str(),
                    "（",
                    if declares {
                        "bundle 层已激活"
                    } else {
                        "普通依赖，不贡献层"
                    },
                );
                message.append("）");
                if restarted {
                    message.append("；dsh 已重启");
                } else {
                    proof {
                        assert(message@ + Seq::<char>::empty() =~= message@);
                    }
                }
                InstallAction::Done(OpResult::changed(message, restarted, Some(package)))
            },
            _ => InstallAction::ReadManifest,
        }
    }
}

} // verus!
