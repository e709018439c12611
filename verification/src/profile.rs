//! The managed profile: its manifest, the packages in it, and how the service's command is run.

use crate::github::{DshProbe, ResolvedDsh};
use crate::json;
use crate::model;
use crate::plugin::state::{
    dsh_missing_error, internal_error, ErrorText, PluginError, PluginErrorKind,
};
use crate::text;
use crate::text_map;
use crate::text_map::TextMap;
use vstd::prelude::*;

verus! {

/// How long a read-only query may take, in seconds.
pub const QUERY_TIMEOUT: u64 = 120;

/// How long a change of dependencies may take, in seconds.
pub const MUTATION_TIMEOUT: u64 = 900;

/// What a profile's manifest says about plugins.
pub struct ProfileManifest {
    /// The dependencies: package names with their specs.
    pub dependencies: TextMap,
    /// The bundle layers, in order.
    pub bundles: Vec<String>,
    /// How patches take effect.
    pub patch_reload: Option<String>,
}

/// The spec of a dependency among the members of a manifest's `dependencies`: the last one of that
/// name that is a string.
pub open spec fn spec_among(members: Seq<(Seq<char>, Option<Seq<char>>)>, key: Seq<char>) -> Option<
    Seq<char>,
>
    decreases members.len(),
{
    if members.len() == 0 {
        None
    } else if members.last().0 == key && members.last().1 is Some {
        members.last().1
    } else {
        spec_among(members.drop_last(), key)
    }
}

/// The strings among the elements of an array, in order.
pub open spec fn strings_among(elements: Seq<Option<Seq<char>>>) -> Seq<Seq<char>>
    decreases elements.len(),
{
    if elements.len() == 0 {
        seq![]
    } else {
        match elements.last() {
            Some(s) => strings_among(elements.drop_last()).push(s),
            None => strings_among(elements.drop_last()),
        }
    }
}

/// The members of an optional object.
pub open spec fn members_or_none(
    o: Option<Seq<(Seq<char>, Option<Seq<char>>)>>,
) -> Seq<(Seq<char>, Option<Seq<char>>)> {
    match o {
        Some(m) => m,
        None => seq![],
    }
}

pub open spec fn elements_or_none(o: Option<Seq<Option<Seq<char>>>>) -> Seq<Option<Seq<char>>> {
    match o {
        Some(m) => m,
        None => seq![],
    }
}

impl ProfileManifest {
    pub open spec fn wf(&self) -> bool {
        self.dependencies.wf()
    }

    /// A package is among the bundle layers.
    pub open spec fn bundles_have(&self, package: Seq<char>) -> bool {
        model::texts(self.bundles@).contains(package)
    }

    /// The manifest is what a document says: its dependencies, layers and reload mode.
    pub open spec fn says(&self, raw: Seq<char>) -> bool {
        &&& self.wf()
        &&& forall|k: Seq<char>| #[trigger]
            self.dependencies.lookup(k) == spec_among(
                members_or_none(json::json_members(raw, "/dependencies"@)),
                k,
            )
        &&& model::texts(self.bundles@) == strings_among(
            elements_or_none(json::json_elements(raw, "/dsh/profile/bundles"@)),
        )
        &&& model::text_of(self.patch_reload) == json::json_text(
            raw,
            "/dsh/profile/patchReload"@,
        )
    }

    pub fn in_bundles(&self, package: &str) -> (b: bool)
        ensures
            b == self.bundles_have(package@),
    {
        text_map::holds(&self.bundles, package)
    }

    pub fn empty() -> (r: Self)
        ensures
            r.wf(),
            r.dependencies.keys().len() == 0,
            r.bundles@.len() == 0,
            r.patch_reload is None,
    {
        ProfileManifest { dependencies: TextMap::new(), bundles: Vec::new(), patch_reload: None }
    }
}

/// The dependencies among the members of an object.
pub fn dependencies_of(members: &Vec<(String, Option<String>)>) -> (r: TextMap)
    ensures
        r.wf(),
        forall|k: Seq<char>| #[trigger]
            r.lookup(k) == spec_among(json::member_texts(members@), k),
{
    let mut map = TextMap::new();
    let ghost all = json::member_texts(members@);
    let mut i: usize = 0;
    proof {
        assert(all.take(0) =~= seq![]);
    }
    while i < members.len()
        invariant
            all == json::member_texts(members@),
            i <= members.len(),
            map.wf(),
            forall|k: Seq<char>| #[trigger] map.lookup(k) == spec_among(all.take(i as int), k),
        decreases members.len() - i,
    {
        let ghost now = all.take(i as int + 1);
        proof {
            assert(now.drop_last() =~= all.take(i as int));
            assert(now.last() == all[i as int]);
        }
        match &members[i].1 {
            Some(spec) => {
                map.insert(members[i].0.clone(), spec.clone());
            },
            None => {},
        }
        i += 1;
    }
    proof {
        assert(all.take(all.len() as int) =~= all);
    }
    map
}

fn strings_in(elements: &Vec<Option<String>>) -> (r: Vec<String>)
    ensures
        model::texts(r@) == strings_among(json::element_texts(elements@)),
{
    let mut out: Vec<String> = Vec::new();
    let ghost all = json::element_texts(elements@);
    let mut i: usize = 0;
    proof {
        assert(all.take(0) =~= seq![]);
        assert(model::texts(out@) =~= seq![]);
    }
    while i < elements.len()
        invariant
            all == json::element_texts(elements@),
            i <= elements.len(),
            model::texts(out@) == strings_among(all.take(i as int)),
        decreases elements.len() - i,
    {
        let ghost now = all.take(i as int + 1);
        let ghost before = model::texts(out@);
        proof {
            assert(now.drop_last() =~= all.take(i as int));
            assert(now.last() == all[i as int]);
        }
        match &elements[i] {
            Some(s) => {
                out.push(s.clone());
                proof {
                    assert(model::texts(out@) =~= before.push(s@));
                }
            },
            None => {},
        }
        i += 1;
    }
    proof {
        assert(all.take(all.len() as int) =~= all);
    }
    out
}

/// What is said of a manifest that is no JSON document.
pub open spec fn manifest_complaint(path: Seq<char>, failure: Seq<char>) -> ErrorText {
    internal_error("解析 "@ + path + " 失败: "@ + failure)
}

/// Reads a profile's manifest from the text of its `package.json`.
pub fn read_manifest(path: &str, raw: &str) -> (r: Result<ProfileManifest, PluginError>)
    ensures
        match json::json_failure(raw@) {
            Some(m) => r is Err && r->Err_0@ == manifest_complaint(path@, m),
            None => r is Ok && r->Ok_0.says(raw@),
        },
{
    if let Some(m) = json::failure(raw) {
        return Err(PluginError::internal(text::cat4("解析 ", path, " 失败: ", m.as_str())));
    }
    let members = match json::members_at(raw, "/dependencies") {
        Some(m) => m,
        None => Vec::new(),
    };
    proof {
        assert(json::member_texts(members@) =~= members_or_none(
            json::json_members(raw@, "/dependencies"@),
        ));
    }
    let dependencies = dependencies_of(&members);
    let elements = match json::elements_at(raw, "/dsh/profile/bundles") {
        Some(e) => e,
        None => Vec::new(),
    };
    proof {
        assert(json::element_texts(elements@) =~= elements_or_none(
            json::json_elements(raw@, "/dsh/profile/bundles"@),
        ));
    }
    let bundles = strings_in(&elements);
    let patch_reload = json::text_at(raw, "/dsh/profile/patchReload");
    Ok(ProfileManifest { dependencies, bundles, patch_reload })
}

/// The dependencies that a `package.json` lists; none where it cannot be read.
pub fn dependencies_in(raw: Option<&str>) -> (r: TextMap)
    ensures
        r.wf(),
        forall|k: Seq<char>| #[trigger]
            r.lookup(k) == match raw {
                Some(t) => spec_among(
                    members_or_none(json::json_members(t@, "/dependencies"@)),
                    k,
                ),
                None => None,
            },
{
    match raw {
        Some(t) => {
            let members = match json::members_at(t, "/dependencies") {
                Some(m) => m,
                None => Vec::new(),
            };
            proof {
                assert(json::member_texts(members@) =~= members_or_none(
                    json::json_members(t@, "/dependencies"@),
                ));
            }
            dependencies_of(&members)
        },
        None => TextMap::new(),
    }
}

/// Whether a package's manifest declares a bundle patch; `None` stands for a missing manifest.
pub fn declares_bundle(raw: Option<&str>) -> (b: bool)
    ensures
        b == (raw is Some && json::json_present((raw->0)@, "/dsh/bundle/patch"@)),
{
    match raw {
        Some(t) => json::present_at(t, "/dsh/bundle/patch"),
        None => false,
    }
}

/// The version in a package's manifest; `None` stands for a missing manifest.
pub fn package_version(raw: Option<&str>) -> (r: Option<String>)
    ensures
        model::text_of(r) == match raw {
            Some(t) => json::json_text(t@, "/version"@),
            None => None,
        },
{
    match raw {
        Some(t) => json::text_at(t, "/version"),
        None => None,
    }
}

/// The names of the dependencies, in order.
pub fn dependency_names(manifest: &ProfileManifest) -> (r: Vec<String>)
    ensures
        model::texts(r@) == manifest.dependencies.keys(),
{
    let mut out: Vec<String> = Vec::new();
    let n = manifest.dependencies.len();
    let mut i: usize = 0;
    while i < n
        invariant
            n == manifest.dependencies.keys().len(),
            i <= n,
            model::texts(out@) == manifest.dependencies.keys().take(i as int),
        decreases n - i,
    {
        let ghost before = model::texts(out@);
        let name = manifest.dependencies.key(i).to_owned();
        out.push(name);
        i += 1;
        proof {
            assert(model::texts(out@) =~= before.push(name@));
            assert(manifest.dependencies.keys().take(i as int) =~= before.push(name@));
        }
    }
    proof {
        assert(manifest.dependencies.keys().take(n as int) =~= manifest.dependencies.keys());
    }
    out
}

/// How the service's command is run.
pub enum DshEntry {
    /// From the source checkout, with node.
    SourceDir { dir: String, node: String },
    /// By the shim at an absolute path.
    Path { shim: String },
}

/// Finds a way to run the service's command: the source checkout first, then a shim that is safe
/// to run. A shim of this launcher that points to a missing directory is never run.
pub fn resolve_entry(install_dir: Option<String>, node: Option<String>, resolved: ResolvedDsh) -> (r:
    Result<DshEntry, PluginError>)
    ensures
        match (install_dir, node) {
            (Some(dir), Some(exe)) => r is Ok && r->Ok_0 == (DshEntry::SourceDir {
                dir,
                node: exe,
            }),
            (Some(dir), None) => r is Err && r->Err_0@ == dsh_missing_error(
                "未找到 node.exe，无法调用 dsh（请先安装 Node 工具链）"@,
            ),
            (None, _) => match resolved.shim_path {
                Some(shim) => r is Ok && r->Ok_0 == (DshEntry::Path { shim }),
                None => r is Err && r->Err_0@ == dsh_missing_error(
                    if resolved.kind == DshProbe::OwnedShimBroken {
                        "dsh 安装目录缺失（GitHub shim 指向的目录已不存在或为空），请重新安装 dsh"@
                    } else {
                        "未找到 dsh（PATH 无 dsh 且无 GitHub 安装目录），请先在版本管理中安装 dsh"@
                    },
                ),
            },
        },
{
    if let Some(dir) = install_dir {
        return match node {
            Some(exe) => Ok(DshEntry::SourceDir { dir, node: exe }),
            None => Err(
                PluginError::new(
                    PluginErrorKind::DshNotInstalled,
                    "未找到 node.exe，无法调用 dsh（请先安装 Node 工具链）".to_owned(),
                ),
            ),
        };
    }
    if let Some(shim) = resolved.shim_path {
        return Ok(DshEntry::Path { shim });
    }
    if resolved.kind == DshProbe::OwnedShimBroken {
        return Err(
            PluginError::new(
                PluginErrorKind::DshNotInstalled,
                "dsh 安装目录缺失（GitHub shim 指向的目录已不存在或为空），请重新安装 dsh".to_owned(),
            ),
        );
    }
    Err(
        PluginError::new(
            PluginErrorKind::DshNotInstalled,
            "未找到 dsh（PATH 无 dsh 且无 GitHub 安装目录），请先在版本管理中安装 dsh".to_owned(),
        ),
    )
}

/// A command to run.
pub struct DshCommand {
    pub program: String,
    /// Run through the command interpreter, as scripts must be.
    pub script: bool,
    pub cwd: Option<String>,
    pub args: Vec<String>,
}

/// The arguments that make node run the service's command line from its sources.
pub open spec fn source_args() -> Seq<Seq<char>> {
    seq!["--import"@, "tsx/esm"@, "apps/cli/src/bin.ts"@]
}

fn push_all(out: &mut Vec<String>, args: &[String])
    ensures
        model::texts(final(out)@) == model::texts(old(out)@) + model::texts(args@),
{
    let ghost start = model::texts(out@);
    let mut i: usize = 0;
    proof {
        assert(start + model::texts(args@).take(0) =~= start);
    }
    while i < args.len()
        invariant
            i <= args.len(),
            model::texts(out@) == start + model::texts(args@).take(i as int),
        decreases args.len() - i,
    {
        let ghost before = model::texts(out@);
        out.push(args[i].clone());
        i += 1;
        proof {
            assert(model::texts(out@) =~= before.push(args@[i - 1]@));
            assert(start + model::texts(args@).take(i as int) =~= before.push(args@[i - 1]@));
        }
    }
    proof {
        assert(model::texts(args@).take(args.len() as int) =~= model::texts(args@));
    }
}

/// The command that runs the service's command line with the given arguments.
pub fn build_dsh_command(entry: &DshEntry, args: &[String]) -> (r: DshCommand)
    ensures
        match entry {
            DshEntry::SourceDir { dir, node } => {
                &&& r.program == node
                &&& !r.script
                &&& r.cwd == Some(*dir)
                &&& model::texts(r.args@) == source_args() + model::texts(args@)
            },
            DshEntry::Path { shim } => {
                &&& r.program == shim
                &&& r.script
                &&& r.cwd is None
                &&& model::texts(r.args@) == model::texts(args@)
            },
        },
{
    let mut all: Vec<String> = Vec::new();
    match entry {
        DshEntry::SourceDir { dir, node } => {
            all.push("--import".to_owned());
            all.push("tsx/esm".to_owned());
            all.push("apps/cli/src/bin.ts".to_owned());
            proof {
                assert(model::texts(all@) =~= source_args());
            }
            push_all(&mut all, args);
            DshCommand {
                program: node.clone(),
                script: false,
                cwd: Some(dir.clone()),
                args: all,
            }
        },
        DshEntry::Path { shim } => {
            push_all(&mut all, args);
            proof {
                assert(Seq::<Seq<char>>::empty() + model::texts(args@) =~= model::texts(args@));
            }
            DshCommand { program: shim.clone(), script: true, cwd: None, args: all }
        },
    }
}

/// The arguments of the query for the composed configuration.
pub fn dump_args(profile: &str) -> (r: Vec<String>)
    ensures
        model::texts(r@) == seq!["--profile"@, profile@, "--dump-config"@],
{
    let mut all: Vec<String> = Vec::new();
    all.push("--profile".to_owned());
    all.push(profile.to_owned());
    all.push("--dump-config".to_owned());
    proof {
        assert(model::texts(all@) =~= seq!["--profile"@, profile@, "--dump-config"@]);
    }
    all
}

/// What the query for the composed configuration gave: its output, or why it failed.
pub fn dump_config(success: bool, code: Option<i32>, stdout: String, stderr: &str) -> (r: Result<
    String,
    PluginError,
>)
    ensures
        success ==> r == Ok::<String, PluginError>(stdout),
        !success ==> r is Err && r->Err_0@ == internal_error(
            "dsh --dump-config 失败（退出码 "@ + model::signed(
                match code {
                    Some(c) => c as int,
                    None => -1,
                },
            ) + "）："@ + model::trim(stderr@),
        ),
{
    if success {
        return Ok(stdout);
    }
    let shown: i32 = match code {
        Some(c) => c,
        None => -1,
    };
    Err(
        PluginError::internal(
            text::cat4(
                "dsh --dump-config 失败（退出码 ",
                text::signed(shown).as_str(),
                "）：",
                text::trim(stderr).as_str(),
            ),
        ),
    )
}

/// The position of the first line that is not blank, if there is one.
pub open spec fn first_filled(lines: Seq<Seq<char>>) -> Option<Seq<char>>
    decreases lines.len(),
{
    if lines.len() == 0 {
        None
    } else if model::trim(lines[0]).len() > 0 {
        Some(model::trim(lines[0]))
    } else {
        first_filled(lines.skip(1))
    }
}

/// The first line of a command's output that is not blank, trimmed.
pub fn first_filled_line(output: &str) -> (r: Option<String>)
    ensures
        model::text_of(r) == first_filled(model::lines(output@)),
{
    let lines = text::lines(output);
    let ghost all = model::lines(output@);
    let mut i: usize = 0;
    proof {
        assert(all.skip(0) =~= all);
    }
    while i < lines.len()
        invariant
            all == model::lines(output@),
            model::texts(lines@) == all,
            i <= lines.len(),
            first_filled(all) == first_filled(all.skip(i as int)),
        decreases lines.len() - i,
    {
        proof {
            assert(all.skip(i as int)[0] == lines@[i as int]@);
            assert(all.skip(i as int).skip(1) =~= all.skip(i as int + 1));
        }
        let trimmed = text::trim(lines[i].as_str());
        if !trimmed.as_str().is_empty() {
            return Some(trimmed);
        }
        i += 1;
    }
    None
}

/// The files of a profile that are backed up before a change, each under a name of its own.
pub fn backup_targets() -> (r: Vec<String>)
    ensures
        model::texts(r@) == seq![
            "package.json"@,
            "pnpm-lock.yaml"@,
            "pnpm-workspace.yaml"@,
            "cordis.patch.yml"@,
        ],
        model::texts(r@).no_duplicates(),
{
    let mut all: Vec<String> = Vec::new();
    all.push("package.json".to_owned());
    all.push("pnpm-lock.yaml".to_owned());
    all.push("pnpm-workspace.yaml".to_owned());
    all.push("cordis.patch.yml".to_owned());
    proof {
        let names = seq![
            "package.json"@,
            "pnpm-lock.yaml"@,
            "pnpm-workspace.yaml"@,
            "cordis.patch.yml"@,
        ];
        assert(model::texts(all@) =~= names);
        reveal_strlit("package.json");
        reveal_strlit("pnpm-lock.yaml");
        reveal_strlit("pnpm-workspace.yaml");
        reveal_strlit("cordis.patch.yml");
        assert(names[0].len() == 12 && names[1].len() == 14 && names[2].len() == 19
            && names[3].len() == 16);
    }
    all
}

/// The name of a backup made at the given second.
pub fn timestamp(secs: u64) -> (r: String)
    ensures
        r@ == model::decimal(secs as nat),
{
    text::decimal(secs)
}

} // verus!
