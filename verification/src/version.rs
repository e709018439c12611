//! The two channels that the service is installed through.

use crate::github::{self, lists_tags, DshProbe};
use crate::json;
use crate::json::{json_strings, json_text};
use crate::model;
use crate::semver::{newest_first, sort_newest_first};
use crate::text;
use vstd::prelude::*;

verus! {

/// The package of the service in the registry.
pub const PACKAGE: &'static str = "@deepseek-ai/dsh";

/// A channel.
#[derive(Debug, Clone, Copy, PartialEq, Eq, Structural)]
pub enum Channel {
    Npm,
    Github,
}

impl Channel {
    pub open spec fn named(s: Seq<char>) -> Option<Channel> {
        if s == "npm"@ {
            Some(Channel::Npm)
        } else if s == "github"@ {
            Some(Channel::Github)
        } else {
            None
        }
    }

    pub open spec fn other(self) -> Channel {
        match self {
            Channel::Npm => Channel::Github,
            Channel::Github => Channel::Npm,
        }
    }

    pub fn parse(s: &str) -> (r: Result<Channel, String>)
        ensures
            match Channel::named(s@) {
                Some(c) => r == Ok::<Channel, String>(c),
                None => r is Err && r->Err_0@ == "未知通道: "@ + s@,
            },
    {
        if text::same(s, "npm") {
            Ok(Channel::Npm)
        } else if text::same(s, "github") {
            Ok(Channel::Github)
        } else {
            Err(text::cat2("未知通道: ", s))
        }
    }
}

/// A version that can be installed.
pub struct DshVersion {
    pub version: String,
    pub channel: Channel,
}

pub open spec fn version_texts(v: Seq<DshVersion>) -> Seq<Seq<char>> {
    v.map_values(|x: DshVersion| x.version@)
}

/// All versions are of one channel.
pub open spec fn all_of(v: Seq<DshVersion>, channel: Channel) -> bool {
    forall|i: int| 0 <= i < v.len() ==> (#[trigger] v[i]).channel == channel
}

fn of_channel(versions: &Vec<String>, channel: Channel) -> (r: Vec<DshVersion>)
    ensures
        version_texts(r@) == model::texts(versions@),
        all_of(r@, channel),
{
    let mut r: Vec<DshVersion> = Vec::new();
    let mut i: usize = 0;
    proof {
        assert(version_texts(r@) =~= model::texts(versions@).take(0));
    }
    while i < versions.len()
        invariant
            i <= versions.len(),
            version_texts(r@) == model::texts(versions@).take(i as int),
            all_of(r@, channel),
        decreases versions.len() - i,
    {
        let ghost before = r@;
        r.push(DshVersion { version: versions[i].clone(), channel });
        proof {
            assert(model::texts(versions@)[i as int] == versions@[i as int]@);
            assert(version_texts(r@) =~= version_texts(before).push(versions@[i as int]@));
            assert(model::texts(versions@).take(i as int + 1) =~= model::texts(versions@).take(
                i as int,
            ).push(versions@[i as int]@));
        }
        i += 1;
    }
    proof {
        assert(model::texts(versions@).take(versions.len() as int) =~= model::texts(versions@));
    }
    r
}

// ---- Available versions ----

/// The arguments that ask the registry for its versions.
pub open spec fn view_args(registry: Option<Seq<char>>) -> Seq<Seq<char>> {
    with_registry(registry, seq!["view"@, PACKAGE@, "versions"@, "--json"@])
}

/// Arguments behind which the registry is named, where one is set.
pub open spec fn with_registry(registry: Option<Seq<char>>, args: Seq<Seq<char>>) -> Seq<Seq<char>> {
    match registry {
        Some(url) => args + seq!["--registry"@, url],
        None => args,
    }
}

pub fn npm_view_args(registry: Option<&str>) -> (r: Vec<String>)
    ensures
        model::texts(r@) == view_args(model::slice_of(registry)),
{
    let mut r: Vec<String> = Vec::new();
    r.push("view".to_owned());
    r.push(PACKAGE.to_owned());
    r.push("versions".to_owned());
    r.push("--json".to_owned());
    if let Some(url) = registry {
        r.push("--registry".to_owned());
        r.push(url.to_owned());
    }
    proof {
        assert(model::texts(r@) =~= view_args(model::slice_of(registry)));
    }
    r
}

/// The versions of the registry, newest first; none where what it printed was not a list.
pub fn npm_versions(listed: Option<Vec<String>>) -> (r: Vec<DshVersion>)
    ensures
        all_of(r@, Channel::Npm),
        version_texts(r@) == match listed {
            Some(v) => newest_first(model::texts(v@)),
            None => seq![],
        },
{
    match listed {
        Some(v) => of_channel(&sort_newest_first(&v), Channel::Npm),
        None => {
            let r: Vec<DshVersion> = Vec::new();
            proof {
                assert(version_texts(r@) =~= seq![]);
            }
            r
        },
    }
}

/// What came of asking the registry.
pub fn list_npm_versions(success: bool, stdout: &str, stderr: &str) -> (r: Result<
    Vec<DshVersion>,
    String,
>)
    ensures
        if success {
            &&& r is Ok
            &&& all_of(r->Ok_0@, Channel::Npm)
            &&& version_texts(r->Ok_0@) == match json_strings(stdout@) {
                Some(v) => newest_first(v),
                None => seq![],
            }
        } else {
            r is Err && r->Err_0@ == "查询 npm 版本失败: "@ + stderr@
        },
{
    if success {
        Ok(npm_versions(json::strings_of(stdout)))
    } else {
        Err(text::cat2("查询 npm 版本失败: ", stderr))
    }
}

/// What came of asking for the tags of the sources.
pub fn list_github_versions(success: bool, stdout: &str, stderr: &str, code: i32) -> (r: Result<
    Vec<DshVersion>,
    String,
>)
    ensures
        if success {
            &&& r is Ok
            &&& all_of(r->Ok_0@, Channel::Github)
            &&& lists_tags(version_texts(r->Ok_0@), model::lines(stdout@))
        } else {
            r is Err && r->Err_0@ == github::tags_failure(stderr@, code as int)
        },
{
    match github::list_releases(success, stdout, stderr, code) {
        Ok(tags) => Ok(of_channel(&tags, Channel::Github)),
        Err(m) => Err(m),
    }
}

// ---- The installed version ----

/// How the version in the sources is shown, where it is known.
pub fn source_version(version: Option<&str>) -> (r: String)
    ensures
        r@ == match version {
            Some(v) => "github:"@ + v@,
            None => "github:已安装"@,
        },
{
    match version {
        Some(v) => text::cat2("github:", v),
        None => "github:已安装".to_owned(),
    }
}

/// The version of installed sources, by their package file.
pub fn installed_from_sources(package_json: Option<&str>) -> (r: String)
    ensures
        r@ == match package_json {
            Some(raw) => match json_text(raw@, "/version"@) {
                Some(v) => "github:"@ + v,
                None => "github:已安装"@,
            },
            None => "github:已安装"@,
        },
{
    match package_json {
        Some(raw) => match json::text_at(raw, "/version") {
            Some(v) => source_version(Some(v.as_str())),
            None => source_version(None),
        },
        None => source_version(None),
    }
}

/// Whether the command on the search path may be asked for its version: not where there is none, nor
/// where it would lead nowhere.
pub fn may_ask_version(kind: DshProbe) -> (b: bool)
    ensures
        b == (kind == DshProbe::OwnedShimOk || kind == DshProbe::Foreign),
{
    matches!(kind, DshProbe::OwnedShimOk | DshProbe::Foreign)
}

/// The version that the command printed.
pub fn installed_from_command(success: bool, stdout: &str) -> (r: Option<String>)
    ensures
        model::text_of(r) == if success && !model::blank(stdout@) {
            Some("npm:"@ + model::trim(stdout@))
        } else {
            None
        },
{
    if success && !text::blank(stdout) {
        Some(text::cat2("npm:", text::trim(stdout).as_str()))
    } else {
        None
    }
}

// ---- Installing ----

/// What an installation through a channel takes: the other channel's installation is removed first,
/// so that there is never more than one.
pub struct ChannelSwitch {
    pub remove: Channel,
    pub install: Channel,
}

pub fn plan_switch(channel: &str) -> (r: Result<ChannelSwitch, String>)
    ensures
        match Channel::named(channel@) {
            Some(c) => r is Ok && r->Ok_0.install == c && r->Ok_0.remove == c.other(),
            None => r is Err && r->Err_0@ == "未知通道: "@ + channel@,
        },
{
    match Channel::parse(channel) {
        Ok(Channel::Npm) => Ok(
            ChannelSwitch { remove: Channel::Github, install: Channel::Npm },
        ),
        Ok(Channel::Github) => Ok(
            ChannelSwitch { remove: Channel::Npm, install: Channel::Github },
        ),
        Err(m) => Err(m),
    }
}

/// The package with its version, as npm takes it.
pub open spec fn package_spec(version: Seq<char>) -> Seq<char> {
    "@deepseek-ai/dsh@"@ + version
}

/// The arguments that install a version through the registry.
pub fn npm_install_args(version: &str, registry: Option<&str>) -> (r: Vec<String>)
    ensures
        model::texts(r@) == with_registry(
            model::slice_of(registry),
            seq!["install"@, "-g"@, package_spec(version@)],
        ),
{
    let mut r: Vec<String> = Vec::new();
    r.push("install".to_owned());
    r.push("-g".to_owned());
    r.push(text::cat2("@deepseek-ai/dsh@", version));
    if let Some(url) = registry {
        r.push("--registry".to_owned());
        r.push(url.to_owned());
    }
    proof {
        assert(model::texts(r@) =~= with_registry(
            model::slice_of(registry),
            seq!["install"@, "-g"@, package_spec(version@)],
        ));
    }
    r
}

/// The arguments that remove the package.
pub fn npm_uninstall_args() -> (r: Vec<String>)
    ensures
        model::texts(r@) == seq!["uninstall"@, "-g"@, PACKAGE@],
{
    let mut r: Vec<String> = Vec::new();
    r.push("uninstall".to_owned());
    r.push("-g".to_owned());
    r.push(PACKAGE.to_owned());
    proof {
        assert(model::texts(r@) =~= seq!["uninstall"@, "-g"@, PACKAGE@]);
    }
    r
}

/// What a line of npm's output says of its progress: each that is no warning or error counts for a
/// little, up to 90.
pub open spec fn npm_progressed(percent: nat, line: Seq<char>) -> Option<nat> {
    if model::starts_with(line, "npm warn"@) || model::starts_with(line, "npm error"@)
        || model::starts_with(line, "npm ERR"@) {
        None
    } else if percent + 2 < 90 {
        Some(percent + 2)
    } else {
        Some(90)
    }
}

pub fn npm_progress(percent: u8, line: &str) -> (r: Option<u8>)
    requires
        percent <= 100,
    ensures
        match r {
            Some(n) => npm_progressed(percent as nat, line@) == Some(n as nat),
            None => npm_progressed(percent as nat, line@) is None,
        },
{
    if text::starts_with(line, "npm warn") || text::starts_with(line, "npm error")
        || text::starts_with(line, "npm ERR") {
        None
    } else if percent + 2 < 90 {
        Some(percent + 2)
    } else {
        Some(90)
    }
}

/// What came of an installation through the registry.
pub fn install_npm_version(version: &str, outcome: Result<(), String>) -> (r: Result<String, String>)
    ensures
        r is Ok == (outcome is Ok),
        match r {
            Ok(m) => m@ == "已安装 dsh "@ + version@ + "（npm 通道）"@,
            Err(m) => m@ == "npm 安装失败: "@ + outcome->Err_0@,
        },
{
    match outcome {
        Ok(()) => Ok(text::cat3("已安装 dsh ", version, "（npm 通道）")),
        Err(e) => Err(text::cat2("npm 安装失败: ", e.as_str())),
    }
}

// ---- Removing ----

pub const UNINSTALLED: &'static str = "dsh 已卸载（npm 全局包 + GitHub 源码目录 + 全局命令）";

/// What becomes of the user's data when the service is removed.
#[derive(Debug, Clone, Copy, PartialEq, Eq, Structural)]
pub enum HomeStep {
    /// It is kept, as the settings say.
    Keep,
    /// There is none.
    Absent,
    /// It does not look like the service's, and is left alone.
    Unrecognised,
    Remove,
}

/// The user's data is removed only where the settings say so and it looks like the service's.
pub fn plan_home(keep: bool, is_dir: bool, has_profiles: bool, has_settings: bool) -> (r: HomeStep)
    ensures
        r == if keep {
            HomeStep::Keep
        } else if !is_dir {
            HomeStep::Absent
        } else if has_profiles || has_settings {
            HomeStep::Remove
        } else {
            HomeStep::Unrecognised
        },
{
    if keep {
        HomeStep::Keep
    } else if !is_dir {
        HomeStep::Absent
    } else if has_profiles || has_settings {
        HomeStep::Remove
    } else {
        HomeStep::Unrecognised
    }
}

/// Where the service is installed.
pub struct InstallPaths {
    pub github_dir: String,
    pub github_installed: bool,
    pub npm_global_dir: String,
    pub npm_bin_dir: String,
}

/// The commands of npm stand in its global directory itself.
pub fn install_paths(github_dir: String, github_installed: bool, npm_prefix: String) -> (r:
    InstallPaths)
    ensures
        r.github_dir == github_dir,
        r.github_installed == github_installed,
        r.npm_global_dir == npm_prefix,
        r.npm_bin_dir == npm_prefix,
{
    let npm_bin_dir = npm_prefix.clone();
    InstallPaths { github_dir, github_installed, npm_global_dir: npm_prefix, npm_bin_dir }
}

} // verus!
