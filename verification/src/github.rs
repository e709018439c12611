//! The source channel: release tags, command shims, and the installation from sources.

use crate::events::InstallPhase;
use crate::model;
use crate::model::CharSet;
use crate::semver::{newest_first, sort_newest_first};
use crate::text;
use crate::text::lowercase;
use crate::text_lemmas::{lemma_lines_append, lemma_one_line, lemma_strip_prefix, lemma_trim_nothing};
use crate::text_map::{insert_ordered, ordered};
use vstd::prelude::*;

verus! {

/// The repository of the service.
pub const REPO: &'static str = "deepseek-ai/deepseek-harness";

/// The directory that the sources are cloned into.
pub const CLONE_DIR: &'static str = "deepseek-harness";

/// What is said where there is no git.
pub const GIT_MISSING: &'static str = "找不到 git（PATH 中无 git 且未发现 Git for Windows 安装目录）。请在工具链管理中安装 Git";

/// What the search path holds under the name of the service's command.
#[derive(Debug, Clone, Copy, PartialEq, Eq, Structural)]
pub enum DshProbe {
    /// Nothing.
    Missing,
    /// A shim of this launcher that points to a usable directory.
    OwnedShimOk,
    /// Only shims of this launcher that point to directories that are gone or empty.
    OwnedShimBroken,
    /// A command of someone else.
    Foreign,
}

/// What was found on the search path, and the shim to run where there is a safe one.
pub struct ResolvedDsh {
    pub kind: DshProbe,
    pub shim_path: Option<String>,
}

// ---- Repositories ----

/// The first line that the search for git printed, if it found anything.
pub open spec fn found_line(success: bool, stdout: Seq<char>) -> Option<Seq<char>> {
    if success && model::lines(stdout).len() > 0 {
        Some(model::trim(model::lines(stdout)[0]))
    } else {
        None
    }
}

/// Where git is on the search path, as the search for it printed.
pub fn git_on_path(success: bool, stdout: &str) -> (r: Option<String>)
    ensures
        model::text_of(r) == found_line(success, stdout@),
{
    if !success {
        return None;
    }
    let lines = text::lines(stdout);
    proof {
        assert(model::texts(lines@).len() == lines@.len());
    }
    if lines.len() == 0 {
        return None;
    }
    proof {
        assert(model::texts(lines@)[0] == lines@[0]@);
    }
    Some(text::trim(lines[0].as_str()))
}

/// The git to use: the one on the search path, else the first that is installed in a usual place.
pub fn pick_git(on_path: Option<String>, installed: [bool; 3]) -> (r: Result<String, String>)
    ensures
        match on_path {
            Some(p) => r == Ok::<String, String>(p),
            None => if installed[0] {
                r is Ok && r->Ok_0@ == "C:\\Program Files\\Git\\cmd\\git.exe"@
            } else if installed[1] {
                r is Ok && r->Ok_0@ == "C:\\Program Files\\Git\\bin\\git.exe"@
            } else if installed[2] {
                r is Ok && r->Ok_0@ == "C:\\Program Files (x86)\\Git\\cmd\\git.exe"@
            } else {
                r is Err && r->Err_0@ == GIT_MISSING@
            },
        },
{
    match on_path {
        Some(p) => Ok(p),
        None => if installed[0] {
            Ok("C:\\Program Files\\Git\\cmd\\git.exe".to_owned())
        } else if installed[1] {
            Ok("C:\\Program Files\\Git\\bin\\git.exe".to_owned())
        } else if installed[2] {
            Ok("C:\\Program Files (x86)\\Git\\cmd\\git.exe".to_owned())
        } else {
            Err(GIT_MISSING.to_owned())
        },
    }
}

/// The value of the header that authorises git; none without a token.
pub fn git_auth_header(token: &str) -> (r: Option<String>)
    ensures
        model::text_of(r) == if model::blank(token@) {
            None
        } else {
            Some("AUTHORIZATION: bearer "@ + model::trim(token@))
        },
{
    if text::blank(token) {
        None
    } else {
        Some(text::cat2("AUTHORIZATION: bearer ", text::trim(token).as_str()))
    }
}

/// The address of a repository: one on GitHub is reached through the mirror, if there is one.
pub open spec fn effective_url(repo_url: Seq<char>, mirror: Seq<char>) -> Seq<char> {
    if model::blank(mirror) {
        repo_url
    } else {
        match model::strip_prefix(repo_url, "https://github.com/"@) {
            Some(rest) => model::trim_end(model::trim(mirror), CharSet::Only('/')) + "/"@ + rest,
            None => repo_url,
        }
    }
}

pub fn resolve_repo_url(repo_url: &str, mirror: &str) -> (r: String)
    ensures
        r@ == effective_url(repo_url@, mirror@),
{
    if text::blank(mirror) {
        return repo_url.to_owned();
    }
    match text::strip_prefix(repo_url, "https://github.com/") {
        Some(rest) => {
            let base = text::trim_end(text::trim(mirror).as_str(), CharSet::Only('/'));
            text::cat3(base.as_str(), "/", rest.as_str())
        },
        None => repo_url.to_owned(),
    }
}

/// The address of the service's own repository.
pub open spec fn own_url(mirror: Seq<char>) -> Seq<char> {
    if mirror.len() == 0 {
        "https://github.com/"@ + REPO@ + ".git"@
    } else {
        model::trim_end(mirror, CharSet::Only('/')) + "/"@ + REPO@ + ".git"@
    }
}

pub fn own_repo_url(mirror: &str) -> (r: String)
    ensures
        r@ == own_url(mirror@),
{
    if mirror.is_empty() {
        text::cat3("https://github.com/", REPO, ".git")
    } else {
        text::cat4(text::trim_end(mirror, CharSet::Only('/')).as_str(), "/", REPO, ".git")
    }
}

/// The arguments that clone a repository without its history.
pub open spec fn clone_args(
    repo_url: Seq<char>,
    reference: Option<Seq<char>>,
    dest: Seq<char>,
    mirror: Seq<char>,
) -> Seq<Seq<char>> {
    seq!["clone"@, "--depth"@, "1"@] + (match reference {
        Some(name) => if model::blank(name) {
            seq![]
        } else {
            seq!["--branch"@, model::trim(name)]
        },
        None => seq![],
    }) + seq!["--progress"@, effective_url(repo_url, mirror), dest]
}

pub fn git_clone_args(repo_url: &str, reference: Option<&str>, dest: &str, mirror: &str) -> (r: Vec<
    String,
>)
    ensures
        model::texts(r@) == clone_args(repo_url@, model::slice_of(reference), dest@, mirror@),
{
    let mut r: Vec<String> = Vec::new();
    r.push("clone".to_owned());
    r.push("--depth".to_owned());
    r.push("1".to_owned());
    if let Some(name) = reference {
        if !text::blank(name) {
            r.push("--branch".to_owned());
            r.push(text::trim(name));
        }
    }
    r.push("--progress".to_owned());
    r.push(resolve_repo_url(repo_url, mirror));
    r.push(dest.to_owned());
    proof {
        assert(model::texts(r@) =~= clone_args(
            repo_url@,
            model::slice_of(reference),
            dest@,
            mirror@,
        ));
    }
    r
}

/// The reference that is asked for: `HEAD` where none is named.
pub fn wanted_reference(reference: &str) -> (r: String)
    ensures
        r@ == if model::blank(reference@) {
            "HEAD"@
        } else {
            model::trim(reference@)
        },
{
    if text::blank(reference) {
        "HEAD".to_owned()
    } else {
        text::trim(reference)
    }
}

pub open spec fn hex_digit(c: char) -> bool {
    model::digit(c) || 0x61 <= c as u32 <= 0x66 || 0x41 <= c as u32 <= 0x46
}

/// A text of at least seven hexadecimal digits.
pub open spec fn is_sha(s: Seq<char>) -> bool {
    s.len() >= 7 && forall|i: int| 0 <= i < s.len() ==> hex_digit(#[trigger] s[i])
}

/// The commit that the first usable line names.
pub open spec fn first_sha(lines: Seq<Seq<char>>, i: int) -> Option<Seq<char>>
    decreases lines.len() - i,
{
    if i < 0 || i >= lines.len() {
        None
    } else if model::words(lines[i]).len() >= 2 && is_sha(model::words(lines[i])[0]) {
        Some(model::words(lines[i])[0])
    } else {
        first_sha(lines, i + 1)
    }
}

fn is_hex(c: char) -> (b: bool)
    ensures
        b == hex_digit(c),
{
    let n: u32 = c as u32;
    (0x30 <= n && n <= 0x39) || (0x61 <= n && n <= 0x66) || (0x41 <= n && n <= 0x46)
}

fn looks_like_sha(s: &str) -> (b: bool)
    ensures
        b == is_sha(s@),
{
    let v = text::chars_of(s);
    if v.len() < 7 {
        return false;
    }
    let mut i: usize = 0;
    while i < v.len()
        invariant
            v@ == s@,
            i <= v.len(),
            forall|k: int| 0 <= k < i ==> hex_digit(#[trigger] s@[k]),
        decreases v.len() - i,
    {
        if !is_hex(v[i]) {
            proof {
                assert(!hex_digit(s@[i as int]));
            }
            return false;
        }
        i += 1;
    }
    true
}

/// The commit that a remote reported for a reference.
pub fn parse_remote_ref(output: &str) -> (r: Option<String>)
    ensures
        model::text_of(r) == first_sha(model::lines(output@), 0),
{
    let lines = text::lines(output);
    let ghost all = model::lines(output@);
    let mut i: usize = 0;
    proof {
        assert(model::texts(lines@).len() == lines@.len());
    }
    while i < lines.len()
        invariant
            model::texts(lines@) == all,
            all == model::lines(output@),
            lines@.len() == all.len(),
            i <= lines.len(),
            first_sha(all, 0) == first_sha(all, i as int),
        decreases lines.len() - i,
    {
        let words = text::words(lines[i].as_str());
        proof {
            assert(model::texts(lines@)[i as int] == lines@[i as int]@);
            assert(model::texts(words@).len() == words@.len());
        }
        if words.len() >= 2 {
            proof {
                assert(model::texts(words@)[0] == words@[0]@);
            }
            if looks_like_sha(words[0].as_str()) {
                return Some(words[0].clone());
            }
        }
        i += 1;
    }
    None
}

/// What came of asking a remote for a reference.
pub fn ls_remote_ref(success: bool, stdout: &str, stderr: &str) -> (r: Result<
    Option<String>,
    String,
>)
    ensures
        if success {
            r is Ok && model::text_of(r->Ok_0) == first_sha(model::lines(stdout@), 0)
        } else {
            r is Err && r->Err_0@ == "git ls-remote 失败: "@ + model::trim(stderr@)
        },
{
    if success {
        Ok(parse_remote_ref(stdout))
    } else {
        Err(text::cat2("git ls-remote 失败: ", text::trim(stderr).as_str()))
    }
}

// ---- Release tags ----

/// The tag that a line of a remote's references names.
pub open spec fn tag_of(line: Seq<char>) -> Option<Seq<char>> {
    let words = model::words(line);
    if words.len() < 2 {
        None
    } else {
        match model::strip_prefix(words[1], "refs/tags/"@) {
            None => None,
            Some(name) => {
                let tag = model::trim_end_text(name, "^{}"@);
                if tag.len() == 0 {
                    None
                } else {
                    Some(tag)
                }
            },
        }
    }
}

/// A tag is named by one of the lines.
pub open spec fn names_tag(lines: Seq<Seq<char>>, tag: Seq<char>) -> bool {
    exists|i: int| 0 <= i < lines.len() && tag_of(#[trigger] lines[i]) == Some(tag)
}

/// The tags are those that the lines name, each once, the newer first. Tags of one rank stand in the
/// order of their texts.
pub open spec fn lists_tags(tags: Seq<Seq<char>>, lines: Seq<Seq<char>>) -> bool {
    exists|set: Seq<Seq<char>>|
        #![trigger newest_first(set)]
        ordered(set) && (forall|tag: Seq<char>| #[trigger]
            set.contains(tag) <==> names_tag(lines, tag)) && tags == newest_first(set)
}

fn read_tag(line: &str) -> (r: Option<String>)
    ensures
        model::text_of(r) == tag_of(line@),
{
    let words = text::words(line);
    proof {
        assert(model::texts(words@).len() == words@.len());
    }
    if words.len() < 2 {
        return None;
    }
    proof {
        assert(model::texts(words@)[1] == words@[1]@);
    }
    match text::strip_prefix(words[1].as_str(), "refs/tags/") {
        None => None,
        Some(name) => {
            proof {
                reveal_strlit("^{}");
            }
            let tag = text::trim_end_text(name.as_str(), "^{}");
            if tag.as_str().is_empty() {
                None
            } else {
                Some(tag)
            }
        },
    }
}

/// The tags that a remote reported.
pub fn parse_tags_from_ls_remote(output: &str) -> (r: Vec<String>)
    ensures
        lists_tags(model::texts(r@), model::lines(output@)),
{
    let lines = text::lines(output);
    let ghost all = model::lines(output@);
    let mut set: Vec<String> = Vec::new();
    let mut i: usize = 0;
    proof {
        assert(model::texts(lines@).len() == lines@.len());
        assert(model::texts(set@) =~= seq![]);
        assert(all.take(0) =~= seq![]);
    }
    while i < lines.len()
        invariant
            model::texts(lines@) == all,
            lines@.len() == all.len(),
            i <= lines.len(),
            ordered(model::texts(set@)),
            forall|tag: Seq<char>| #[trigger]
                model::texts(set@).contains(tag) <==> names_tag(all.take(i as int), tag),
        decreases lines.len() - i,
    {
        let ghost before = model::texts(set@);
        let ghost line = all[i as int];
        proof {
            assert(model::texts(lines@)[i as int] == lines@[i as int]@);
        }
        let found = read_tag(lines[i].as_str());
        if let Some(tag) = &found {
            insert_ordered(&mut set, tag.as_str());
        }
        proof {
            let now = all.take(i as int + 1);
            let then = all.take(i as int);
            assert forall|tag: Seq<char>| #[trigger]
                model::texts(set@).contains(tag) <==> names_tag(now, tag) by {
                assert(before.contains(tag) <==> names_tag(then, tag));
                if names_tag(then, tag) {
                    let k = choose|k: int|
                        0 <= k < then.len() && tag_of(#[trigger] then[k]) == Some(tag);
                    assert(now[k] == then[k]);
                }
                assert(now[i as int] == line);
                if names_tag(now, tag) {
                    let k = choose|k: int|
                        0 <= k < now.len() && tag_of(#[trigger] now[k]) == Some(tag);
                    if k < i {
                        assert(then[k] == now[k]);
                    }
                }
            }
        }
        i += 1;
    }
    proof {
        assert(all.take(all.len() as int) =~= all);
    }
    let r = sort_newest_first(&set);
    proof {
        let members = model::texts(set@);
        assert(model::texts(r@) == newest_first(members));
    }
    r
}

/// What is said of a failed query for the tags.
pub open spec fn tags_failure(stderr: Seq<char>, code: int) -> Seq<char> {
    "查询 GitHub releases 失败: "@ + if model::blank(stderr) {
        "git ls-remote 失败（退出码 "@ + model::signed(code) + ")"@
    } else {
        model::trim(stderr)
    }
}

/// What came of the query for the tags. `code` is -1 where the command has none.
pub fn list_releases(success: bool, stdout: &str, stderr: &str, code: i32) -> (r: Result<
    Vec<String>,
    String,
>)
    ensures
        if success {
            r is Ok && lists_tags(model::texts(r->Ok_0@), model::lines(stdout@))
        } else {
            r is Err && r->Err_0@ == tags_failure(stderr@, code as int)
        },
{
    if success {
        return Ok(parse_tags_from_ls_remote(stdout));
    }
    let hint = if text::blank(stderr) {
        text::cat3("git ls-remote 失败（退出码 ", text::signed(code).as_str(), ")")
    } else {
        text::trim(stderr)
    };
    Err(text::cat2("查询 GitHub releases 失败: ", hint.as_str()))
}

// ---- Shims ----

/// The text of a shim that runs the service in a directory.
pub open spec fn shim_text(dir: Seq<char>) -> Seq<char> {
    "@echo off\r\ncd /d \""@ + dir + "\"\r\npnpm dsh %*\r\n"@
}

pub fn shim_content(dir: &str) -> (r: String)
    ensures
        r@ == shim_text(dir@),
{
    text::cat3("@echo off\r\ncd /d \"", dir, "\"\r\npnpm dsh %*\r\n")
}

/// A shim that this launcher has written.
pub open spec fn ours(content: Seq<char>) -> bool {
    model::contains(content, "github-dsh"@) && model::contains(content, "pnpm dsh"@)
}

pub fn shim_content_is_ours(content: &str) -> (b: bool)
    ensures
        b == ours(content@),
{
    text::contains(content, "github-dsh") && text::contains(content, "pnpm dsh")
}

/// The directory that a line changes to.
pub open spec fn cd_target(line: Seq<char>) -> Option<Seq<char>> {
    match model::strip_prefix(model::trim(line), "cd /d \""@) {
        None => None,
        Some(rest) => match model::split_once(rest, CharSet::Only('"')) {
            None => None,
            Some((dir, _)) => Some(dir),
        },
    }
}

/// The directory that the first such line changes to.
pub open spec fn target_in(lines: Seq<Seq<char>>, i: int) -> Option<Seq<char>>
    decreases lines.len() - i,
{
    if i < 0 || i >= lines.len() {
        None
    } else if cd_target(lines[i]) is Some {
        cd_target(lines[i])
    } else {
        target_in(lines, i + 1)
    }
}

/// The directory that a shim runs the service in.
pub open spec fn target_of(content: Seq<char>) -> Option<Seq<char>> {
    target_in(model::lines(content), 0)
}

fn read_cd(line: &str) -> (r: Option<String>)
    ensures
        model::text_of(r) == cd_target(line@),
{
    match text::strip_prefix(text::trim(line).as_str(), "cd /d \"") {
        None => None,
        Some(rest) => match text::split_once(rest.as_str(), CharSet::Only('"')) {
            None => None,
            Some((dir, _tail)) => Some(dir),
        },
    }
}

pub fn extract_shim_target_dir(content: &str) -> (r: Option<String>)
    ensures
        model::text_of(r) == target_of(content@),
{
    let lines = text::lines(content);
    let ghost all = model::lines(content@);
    let mut i: usize = 0;
    proof {
        assert(model::texts(lines@).len() == lines@.len());
    }
    while i < lines.len()
        invariant
            model::texts(lines@) == all,
            all == model::lines(content@),
            lines@.len() == all.len(),
            i <= lines.len(),
            target_in(all, 0) == target_in(all, i as int),
        decreases lines.len() - i,
    {
        proof {
            assert(model::texts(lines@)[i as int] == lines@[i as int]@);
        }
        if let Some(dir) = read_cd(lines[i].as_str()) {
            return Some(dir);
        }
        i += 1;
    }
    None
}

/// A shim on the search path: whether it can be read, its text, and whether the directory that it
/// names is usable. It can be run safely unless it is one of this launcher's that leads nowhere.
pub open spec fn usable(readable: bool, content: Seq<char>, dir_valid: bool) -> bool {
    !readable || !ours(content) || (target_of(content) is Some && dir_valid)
}

/// The first usable shim.
pub open spec fn first_usable(shims: Seq<(bool, &str, bool)>, i: int) -> Option<int>
    decreases shims.len() - i,
{
    if i < 0 || i >= shims.len() {
        None
    } else if usable(shims[i].0, shims[i].1@, shims[i].2) {
        Some(i)
    } else {
        first_usable(shims, i + 1)
    }
}

/// Chooses the shim to run: the first that can be run safely, in the order of the search path.
pub fn select_usable_shim(candidates: &[(bool, &str, bool)]) -> (r: (DshProbe, Option<usize>))
    ensures
        match first_usable(candidates@, 0) {
            Some(i) => {
                &&& r.1 is Some
                &&& r.1->0 == i
                &&& 0 <= i < candidates@.len()
                &&& r.0 == if candidates@[i].0 && ours(candidates@[i].1@) {
                    DshProbe::OwnedShimOk
                } else {
                    DshProbe::Foreign
                }
            },
            None => r.1 is None && r.0 == if candidates@.len() == 0 {
                DshProbe::Missing
            } else {
                DshProbe::OwnedShimBroken
            },
        },
{
    let mut i: usize = 0;
    while i < candidates.len()
        invariant
            i <= candidates.len(),
            first_usable(candidates@, 0) == first_usable(candidates@, i as int),
        decreases candidates.len() - i,
    {
        let readable = candidates[i].0;
        let content = candidates[i].1;
        let dir_valid = candidates[i].2;
        if !readable || !shim_content_is_ours(content) {
            return (DshProbe::Foreign, Some(i));
        }
        if extract_shim_target_dir(content).is_some() && dir_valid {
            return (DshProbe::OwnedShimOk, Some(i));
        }
        i += 1;
    }
    if candidates.len() == 0 {
        (DshProbe::Missing, None)
    } else {
        (DshProbe::OwnedShimBroken, None)
    }
}

/// Resolves the command of the service from the shims on the search path.
pub fn resolve_dsh(paths: &Vec<String>, candidates: &[(bool, &str, bool)]) -> (r: ResolvedDsh)
    requires
        paths@.len() == candidates@.len(),
    ensures
        match first_usable(candidates@, 0) {
            Some(i) => {
                &&& r.shim_path == Some(paths@[i])
                &&& r.kind == if candidates@[i].0 && ours(candidates@[i].1@) {
                    DshProbe::OwnedShimOk
                } else {
                    DshProbe::Foreign
                }
            },
            None => r.shim_path is None && r.kind == if candidates@.len() == 0 {
                DshProbe::Missing
            } else {
                DshProbe::OwnedShimBroken
            },
        },
{
    let (kind, index) = select_usable_shim(candidates);
    let shim_path = match index {
        Some(i) => Some(paths[i].clone()),
        None => None,
    };
    ResolvedDsh { kind, shim_path }
}

/// A shim of this launcher that leads nowhere; `dir_valid` says whether the directory that it names
/// is usable.
pub fn stale_owned_shim(content: &str, dir_valid: bool) -> (b: bool)
    ensures
        b == (ours(content@) && (target_of(content@) is None || !dir_valid)),
{
    if !shim_content_is_ours(content) {
        return false;
    }
    match extract_shim_target_dir(content) {
        Some(_target) => !dir_valid,
        None => true,
    }
}

/// Which shims are removed.
#[derive(Debug, Clone, Copy, PartialEq, Eq, Structural)]
pub enum ShimSweep {
    /// All of this launcher's.
    Owned,
    /// Those of this launcher that lead nowhere.
    Stale,
}

/// A shim falls under a sweep; one that cannot be read never does.
pub open spec fn swept(sweep: ShimSweep, readable: bool, content: Seq<char>, dir_valid: bool) -> bool {
    &&& readable
    &&& ours(content)
    &&& sweep == ShimSweep::Owned || target_of(content) is None || !dir_valid
}

/// The positions of the shims that fall under a sweep.
pub open spec fn swept_positions(sweep: ShimSweep, shims: Seq<(bool, &str, bool)>) -> Seq<usize>
    decreases shims.len(),
{
    if shims.len() == 0 {
        seq![]
    } else {
        let rest = swept_positions(sweep, shims.drop_last());
        if swept(sweep, shims.last().0, shims.last().1@, shims.last().2) {
            rest.push((shims.len() - 1) as usize)
        } else {
            rest
        }
    }
}

/// The shims that are to be removed, by their positions.
pub fn shims_to_remove(sweep: ShimSweep, shims: &[(bool, &str, bool)]) -> (r: Vec<usize>)
    ensures
        r@ == swept_positions(sweep, shims@),
{
    let mut r: Vec<usize> = Vec::new();
    let mut i: usize = 0;
    proof {
        assert(shims@.take(0) =~= seq![]);
        assert(r@ =~= seq![]);
    }
    while i < shims.len()
        invariant
            i <= shims.len(),
            r@ == swept_positions(sweep, shims@.take(i as int)),
        decreases shims.len() - i,
    {
        proof {
            assert(shims@.take(i as int + 1).drop_last() =~= shims@.take(i as int));
            assert(shims@.take(i as int + 1).last() == shims@[i as int]);
        }
        let readable = shims[i].0;
        let content = shims[i].1;
        let dir_valid = shims[i].2;
        if readable {
            let gone = match sweep {
                ShimSweep::Owned => shim_content_is_ours(content),
                ShimSweep::Stale => stale_owned_shim(content, dir_valid),
            };
            if gone {
                r.push(i);
            }
        }
        i += 1;
    }
    proof {
        assert(shims@.take(shims.len() as int) =~= shims@);
    }
    r
}

/// Texts that differ in more than their case, the first of each kind.
pub open spec fn distinct(paths: Seq<Seq<char>>) -> Seq<Seq<char>>
    decreases paths.len(),
{
    if paths.len() == 0 {
        seq![]
    } else {
        let rest = distinct(paths.drop_last());
        if holds_alike(rest, paths.last()) {
            rest
        } else {
            rest.push(paths.last())
        }
    }
}

pub open spec fn holds_alike(paths: Seq<Seq<char>>, path: Seq<char>) -> bool {
    exists|i: int| 0 <= i < paths.len() && lowercase(#[trigger] paths[i]) == lowercase(path)
}

/// The shims on the search path, each once: paths that differ only in case are the same.
pub fn distinct_paths(paths: &Vec<String>) -> (r: Vec<String>)
    ensures
        model::texts(r@) == distinct(model::texts(paths@)),
{
    let ghost all = model::texts(paths@);
    let mut r: Vec<String> = Vec::new();
    let mut i: usize = 0;
    proof {
        assert(all.take(0) =~= seq![]);
        assert(model::texts(r@) =~= seq![]);
    }
    while i < paths.len()
        invariant
            all == model::texts(paths@),
            i <= paths.len(),
            model::texts(r@) == distinct(all.take(i as int)),
        decreases paths.len() - i,
    {
        let ghost before = r@;
        proof {
            assert(all.take(i as int + 1).drop_last() =~= all.take(i as int));
            assert(all.take(i as int + 1).last() == paths@[i as int]@);
        }
        if !alike_in(&r, paths[i].as_str()) {
            r.push(paths[i].clone());
            proof {
                assert(model::texts(r@) =~= model::texts(before).push(paths@[i as int]@));
            }
        }
        i += 1;
    }
    proof {
        assert(all.take(all.len() as int) =~= all);
    }
    r
}

fn alike_in(paths: &Vec<String>, path: &str) -> (b: bool)
    ensures
        b == holds_alike(model::texts(paths@), path@),
{
    let key = text::lower(path);
    let mut i: usize = 0;
    while i < paths.len()
        invariant
            key@ == lowercase(path@),
            i <= paths.len(),
            forall|k: int| 0 <= k < i ==> lowercase(#[trigger] paths@[k]@) != lowercase(path@),
        decreases paths.len() - i,
    {
        if text::same(text::lower(paths[i].as_str()).as_str(), key.as_str()) {
            proof {
                assert(model::texts(paths@)[i as int] == paths@[i as int]@);
            }
            return true;
        }
        i += 1;
    }
    proof {
        assert forall|k: int| 0 <= k < model::texts(paths@).len() implies lowercase(
            #[trigger] model::texts(paths@)[k],
        ) != lowercase(path@) by {
            assert(model::texts(paths@)[k] == paths@[k]@);
        }
    }
    false
}

/// The directory of global commands that npm printed, if it did.
pub fn npm_prefix(success: bool, stdout: &str) -> (r: Option<String>)
    ensures
        model::text_of(r) == if success && !model::blank(stdout@) {
            Some(model::trim(stdout@))
        } else {
            None
        },
{
    if success && !text::blank(stdout) {
        Some(text::trim(stdout))
    } else {
        None
    }
}

/// The sources are installed where the directory, its package file and its applications are there.
pub fn github_installed(dir: bool, package_json: bool, apps: bool) -> (b: bool)
    ensures
        b == (dir && package_json && apps),
{
    dir && package_json && apps
}

// ---- Progress ----

/// The number that stands right before the first percent sign, at most 100.
pub open spec fn percent_in(line: Seq<char>) -> Option<nat> {
    let p = model::first_in(line, CharSet::Only('%'), 0);
    if p >= line.len() {
        None
    } else {
        let from = model::back_over(line, CharSet::Digit, p);
        match model::parse_unsigned(line.subrange(from, p), u32::MAX as nat) {
            None => None,
            Some(n) => Some(
                if n < 100 {
                    n
                } else {
                    100
                },
            ),
        }
    }
}

/// The percentage that a line of git's output reports.
pub fn parse_git_percent(line: &str) -> (r: Option<u8>)
    ensures
        match r {
            Some(n) => percent_in(line@) == Some(n as nat),
            None => percent_in(line@) is None,
        },
{
    let v = text::chars_of(line);
    let p = text::first_in(&v, CharSet::Only('%'), 0);
    if p >= v.len() {
        return None;
    }
    let mut from: usize = p;
    while from > 0 && CharSet::Digit.test(v[from - 1])
        invariant
            v@ == line@,
            from <= p < v.len(),
            model::back_over(line@, CharSet::Digit, p as int) == model::back_over(
                line@,
                CharSet::Digit,
                from as int,
            ),
        decreases from,
    {
        from -= 1;
    }
    match text::parse_unsigned(text::string_of(&v, from, p).as_str(), u32::MAX as u64) {
        None => None,
        Some(n) => if n < 100 {
            Some(n as u8)
        } else {
            Some(100)
        },
    }
}

// ---- Installing from sources ----

/// Where an installation stands.
#[derive(Debug, Clone, Copy, PartialEq, Eq, Structural)]
pub enum SourceStage {
    /// The directory is being emptied.
    Prepare,
    Clone,
    Install,
    Build,
    /// The profile is being brought in line with the new sources.
    Converge,
    /// The shim is being written.
    Shim,
    Over,
}

/// What is to be done next.
pub enum SourceAction {
    /// Empty the directory.
    Prepare,
    /// Run git with these arguments.
    Git(Vec<String>),
    /// Run pnpm with these arguments in the directory.
    Pnpm(Vec<String>),
    /// Run the service's own command with these arguments; its failure is no failure here.
    Converge(Vec<String>),
    /// Write this shim.
    WriteShim(String),
    Done(String),
    Failed(String),
}

/// An installation from sources.
pub struct SourceInstall {
    pub stage: SourceStage,
    /// The version as it was asked for.
    pub version: String,
    pub dest: String,
    pub mirror: String,
    pub registry: Option<String>,
    pub profile: String,
}

/// What is asked for, as texts.
pub ghost struct SourceText {
    pub version: Seq<char>,
    pub dest: Seq<char>,
    pub mirror: Seq<char>,
    pub registry: Option<Seq<char>>,
    pub profile: Seq<char>,
}

/// The arguments that clone a tag.
pub open spec fn tag_clone_args(t: SourceText) -> Seq<Seq<char>> {
    seq![
        "clone"@,
        "--depth"@,
        "1"@,
        "--branch"@,
        model::trim(t.version),
        "--progress"@,
        own_url(t.mirror),
        t.dest,
    ]
}

/// The arguments that install the packages.
pub open spec fn package_args(t: SourceText) -> Seq<Seq<char>> {
    (match t.registry {
        Some(url) => seq!["--registry"@, url],
        None => seq![],
    }) + seq!["install"@]
}

pub open spec fn build_args() -> Seq<Seq<char>> {
    seq!["run"@, "build"@]
}

pub open spec fn converge_args(t: SourceText) -> Seq<Seq<char>> {
    seq!["plugin"@, "--profile"@, t.profile, "install"@]
}

pub open spec fn done_message(t: SourceText) -> Seq<char> {
    "GitHub 通道 "@ + t.version + " 构建完成，位于 "@ + t.dest
}

/// What a failure of a stage is reported as.
pub open spec fn stage_failure(stage: SourceStage, message: Seq<char>) -> Seq<char> {
    match stage {
        SourceStage::Clone => "git clone 失败: "@ + message,
        SourceStage::Install => "pnpm install 失败: "@ + message,
        SourceStage::Build => "pnpm build 失败: "@ + message,
        _ => message,
    }
}

/// The action of a stage that succeeds another.
pub open spec fn enters(stage: SourceStage, action: SourceAction, t: SourceText) -> bool {
    match stage {
        SourceStage::Prepare => action is Prepare,
        SourceStage::Clone => action matches SourceAction::Git(args) && model::texts(args@)
            == tag_clone_args(t),
        SourceStage::Install => action matches SourceAction::Pnpm(args) && model::texts(args@)
            == package_args(t),
        SourceStage::Build => action matches SourceAction::Pnpm(args) && model::texts(args@)
            == build_args(),
        SourceStage::Converge => action matches SourceAction::Converge(args) && model::texts(args@)
            == converge_args(t),
        SourceStage::Shim => action matches SourceAction::WriteShim(content) && content@
            == shim_text(t.dest),
        SourceStage::Over => action matches SourceAction::Done(message) && message@ == done_message(
            t,
        ),
    }
}

pub open spec fn stage_after(stage: SourceStage) -> SourceStage {
    match stage {
        SourceStage::Prepare => SourceStage::Clone,
        SourceStage::Clone => SourceStage::Install,
        SourceStage::Install => SourceStage::Build,
        SourceStage::Build => SourceStage::Converge,
        SourceStage::Converge => SourceStage::Shim,
        SourceStage::Shim => SourceStage::Over,
        SourceStage::Over => SourceStage::Over,
    }
}

impl SourceInstall {
    pub open spec fn texts(&self) -> SourceText {
        SourceText {
            version: self.version@,
            dest: self.dest@,
            mirror: self.mirror@,
            registry: model::text_of(self.registry),
            profile: self.profile@,
        }
    }

    /// Begins an installation; a version must be named.
    pub fn begin(
        version: &str,
        dest: String,
        mirror: String,
        registry: Option<String>,
        profile: String,
    ) -> (r: Result<SourceInstall, String>)
        ensures
            if model::blank(version@) {
                r is Err && r->Err_0@ == "版本号为空"@
            } else {
                &&& r is Ok
                &&& r->Ok_0.stage == SourceStage::Prepare
                &&& r->Ok_0.texts() == (SourceText {
                    version: version@,
                    dest: dest@,
                    mirror: mirror@,
                    registry: model::text_of(registry),
                    profile: profile@,
                })
            },
    {
        if text::blank(version) {
            return Err("版本号为空".to_owned());
        }
        Ok(
            SourceInstall {
                stage: SourceStage::Prepare,
                version: version.to_owned(),
                dest,
                mirror,
                registry,
                profile,
            },
        )
    }

    /// Goes on after a stage has ended. A failure ends the installation, but for that of bringing the
    /// profile in line.
    pub fn step(&mut self, outcome: Result<(), String>) -> (r: SourceAction)
        requires
            old(self).stage != SourceStage::Over,
        ensures
            final(self).texts() == old(self).texts(),
            if outcome is Err && old(self).stage != SourceStage::Converge {
                &&& final(self).stage == SourceStage::Over
                &&& r matches SourceAction::Failed(m) && m@ == stage_failure(
                    old(self).stage,
                    outcome->Err_0@,
                )
            } else {
                &&& final(self).stage == stage_after(old(self).stage)
                &&& enters(final(self).stage, r, old(self).texts())
            },
    {
        let stage = self.stage;
        if let Err(message) = outcome {
            if !matches!(stage, SourceStage::Converge) {
                self.stage = SourceStage::Over;
                let said = match stage {
                    SourceStage::Clone => text::cat2("git clone 失败: ", message.as_str()),
                    SourceStage::Install => text::cat2("pnpm install 失败: ", message.as_str()),
                    SourceStage::Build => text::cat2("pnpm build 失败: ", message.as_str()),
                    _ => message,
                };
                return SourceAction::Failed(said);
            }
        }
        match stage {
            SourceStage::Prepare => {
                self.stage = SourceStage::Clone;
                let mut args: Vec<String> = Vec::new();
                args.push("clone".to_owned());
                args.push("--depth".to_owned());
                args.push("1".to_owned());
                args.push("--branch".to_owned());
                args.push(text::trim(self.version.as_str()));
                args.push("--progress".to_owned());
                args.push(own_repo_url(self.mirror.as_str()));
                args.push(self.dest.clone());
                proof {
                    assert(model::texts(args@) =~= tag_clone_args(self.texts()));
                }
                SourceAction::Git(args)
            },
            SourceStage::Clone => {
                self.stage = SourceStage::Install;
                let mut args: Vec<String> = Vec::new();
                if let Some(url) = &self.registry {
                    args.push("--registry".to_owned());
                    args.push(url.clone());
                }
                args.push("install".to_owned());
                proof {
                    assert(model::texts(args@) =~= package_args(self.texts()));
                }
                SourceAction::Pnpm(args)
            },
            SourceStage::Install => {
                self.stage = SourceStage::Build;
                let mut args: Vec<String> = Vec::new();
                args.push("run".to_owned());
                args.push("build".to_owned());
                proof {
                    assert(model::texts(args@) =~= build_args());
                }
                SourceAction::Pnpm(args)
            },
            SourceStage::Build => {
                self.stage = SourceStage::Converge;
                let mut args: Vec<String> = Vec::new();
                args.push("plugin".to_owned());
                args.push("--profile".to_owned());
                args.push(self.profile.clone());
                args.push("install".to_owned());
                proof {
                    assert(model::texts(args@) =~= converge_args(self.texts()));
                }
                SourceAction::Converge(args)
            },
            SourceStage::Converge => {
                self.stage = SourceStage::Shim;
                SourceAction::WriteShim(shim_content(self.dest.as_str()))
            },
            _ => {
                self.stage = SourceStage::Over;
                SourceAction::Done(
                    text::cat4(
                        "GitHub 通道 ",
                        self.version.as_str(),
                        " 构建完成，位于 ",
                        self.dest.as_str(),
                    ),
                )
            },
        }
    }
}

/// What a line of output says of the progress of a stage: git's own percentage while cloning; while
/// installing and building each line counts for a little, up to 95.
pub open spec fn progressed(stage: SourceStage, percent: nat, line: Seq<char>) -> Option<nat> {
    match stage {
        SourceStage::Clone => percent_in(line),
        SourceStage::Install => if model::blank(line) {
            None
        } else if percent + 2 < 95 {
            Some(percent + 2)
        } else {
            Some(95)
        },
        SourceStage::Build => if model::blank(line) {
            None
        } else if percent + 1 < 95 {
            Some(percent + 1)
        } else {
            Some(95)
        },
        _ => None,
    }
}

pub fn line_progress(stage: SourceStage, percent: u8, line: &str) -> (r: Option<u8>)
    requires
        percent <= 100,
    ensures
        match r {
            Some(n) => progressed(stage, percent as nat, line@) == Some(n as nat),
            None => progressed(stage, percent as nat, line@) is None,
        },
{
    match stage {
        SourceStage::Clone => parse_git_percent(line),
        SourceStage::Install => if text::blank(line) {
            None
        } else if percent + 2 < 95 {
            Some(percent + 2)
        } else {
            Some(95)
        },
        SourceStage::Build => if text::blank(line) {
            None
        } else if percent + 1 < 95 {
            Some(percent + 1)
        } else {
            Some(95)
        },
        _ => None,
    }
}

/// The phase that a stage is reported as, and what is said while it runs.
pub fn stage_phase(stage: SourceStage) -> (r: (InstallPhase, &'static str))
    ensures
        match stage {
            SourceStage::Prepare => r.0 == InstallPhase::Prepare && r.1@ == "准备安装目录…"@,
            SourceStage::Clone => r.0 == InstallPhase::Download && r.1@ == "正在克隆源码…"@,
            SourceStage::Install => r.0 == InstallPhase::Install && r.1@ == "正在安装依赖…"@,
            SourceStage::Build => r.0 == InstallPhase::Build && r.1@ == "正在构建…"@,
            SourceStage::Converge => r.0 == InstallPhase::Install && r.1@ == "收敛 profile…"@,
            SourceStage::Shim => r.0 == InstallPhase::Install && r.1@ == "收敛 profile…"@,
            SourceStage::Over => r.0 == InstallPhase::Done && r.1@ == "安装完成"@,
        },
{
    match stage {
        SourceStage::Prepare => (InstallPhase::Prepare, "准备安装目录…"),
        SourceStage::Clone => (InstallPhase::Download, "正在克隆源码…"),
        SourceStage::Install => (InstallPhase::Install, "正在安装依赖…"),
        SourceStage::Build => (InstallPhase::Build, "正在构建…"),
        SourceStage::Converge => (InstallPhase::Install, "收敛 profile…"),
        SourceStage::Shim => (InstallPhase::Install, "收敛 profile…"),
        SourceStage::Over => (InstallPhase::Done, "安装完成"),
    }
}

// ---- Laws ----

pub proof fn lemma_first_usable(shims: Seq<(bool, &str, bool)>, i: int)
    requires
        0 <= i <= shims.len(),
    ensures
        match first_usable(shims, i) {
            Some(k) => {
                &&& i <= k < shims.len()
                &&& usable(shims[k].0, shims[k].1@, shims[k].2)
                &&& forall|j: int|
                    i <= j < k ==> !usable(
                        (#[trigger] shims[j]).0,
                        shims[j].1@,
                        shims[j].2,
                    )
            },
            None => forall|j: int|
                i <= j < shims.len() ==> !usable(
                    (#[trigger] shims[j]).0,
                    shims[j].1@,
                    shims[j].2,
                ),
        },
    decreases shims.len() - i,
{
    if i < shims.len() && !usable(shims[i].0, shims[i].1@, shims[i].2) {
        lemma_first_usable(shims, i + 1);
    }
}

/// A shim of this launcher that leads nowhere is never chosen, and never hides a usable one behind
/// it.
pub proof fn law_broken_shims_hide_nothing(shims: Seq<(bool, &str, bool)>, good: int)
    requires
        0 <= good < shims.len(),
        usable(shims[good].0, shims[good].1@, shims[good].2),
    ensures
        first_usable(shims, 0) is Some,
        0 <= first_usable(shims, 0)->0 <= good,
        ({
            let (readable, content, dir_valid) = shims[first_usable(shims, 0)->0];
            !(readable && ours(content@) && (target_of(content@) is None || !dir_valid))
        }),
{
    lemma_first_usable(shims, 0);
}

proof fn lemma_cd_line(dir: Seq<char>)
    requires
        forall|i: int| 0 <= i < dir.len() ==> #[trigger] dir[i] != '"' && dir[i] != '\n',
    ensures
        cd_target("cd /d \""@ + dir + seq!['"']) == Some(dir),
{
    let head = "cd /d \""@;
    let rest = dir + seq!['"'];
    let line = head + dir + seq!['"'];
    reveal_strlit("cd /d \"");
    assert(line[0] == 'c' && line.last() == '"');
    lemma_trim_nothing(line, CharSet::White);
    assert(line =~= head + rest);
    lemma_strip_prefix(head, rest);
    let k = CharSet::Only('"');
    model::lemma_first_in(rest, k, 0);
    let n = model::first_in(rest, k, 0);
    if n < dir.len() {
        assert(rest[n] == dir[n]);
    }
    assert(rest[dir.len() as int] == '"');
    assert(n == dir.len());
    assert(rest.take(n) =~= dir);
}

/// A shim leads back to the directory that it was written for, and is known as this launcher's by
/// that directory's name.
pub proof fn law_shims_lead_back(dir: Seq<char>)
    requires
        forall|i: int| 0 <= i < dir.len() ==> #[trigger] dir[i] != '"' && dir[i] != '\n',
    ensures
        target_of(shim_text(dir)) == Some(dir),
        model::contains(dir, "github-dsh"@) ==> ours(shim_text(dir)),
{
    let whole = shim_text(dir);
    let first = seq!['@', 'e', 'c', 'h', 'o', ' ', 'o', 'f', 'f'];
    let second = "cd /d \""@ + dir + seq!['"'];
    let a = first.push('\r');
    let b = second.push('\r');
    let tail = "pnpm dsh %*\r\n"@;
    reveal_strlit("@echo off\r\ncd /d \"");
    reveal_strlit("\"\r\npnpm dsh %*\r\n");
    reveal_strlit("cd /d \"");
    reveal_strlit("pnpm dsh %*\r\n");
    reveal_strlit("pnpm dsh");
    assert(whole =~= a.push('\n') + (b.push('\n') + tail));
    lemma_lines_append(a.push('\n'), b.push('\n') + tail);
    lemma_lines_append(b.push('\n'), tail);
    lemma_one_line(a);
    assert forall|i: int| 0 <= i < b.len() implies #[trigger] b[i] != '\n' by {
        if 7 <= i < 7 + dir.len() {
            assert(b[i] == dir[i - 7]);
        }
    }
    lemma_one_line(b);
    assert(model::drop_cr(a) =~= first);
    assert(model::drop_cr(b) =~= second);
    let lines = model::lines(whole);
    assert(lines[0] == first && lines[1] == second);
    lemma_trim_nothing(first, CharSet::White);
    assert(cd_target(first) is None) by {
        assert(first.subrange(0, 7)[0] == '@');
        assert("cd /d \""@[0] == 'c');
    }
    lemma_cd_line(dir);
    reveal_with_fuel(target_in, 3);
    if model::contains(dir, "github-dsh"@) {
        let p = "github-dsh"@;
        let q = "pnpm dsh"@;
        model::lemma_find_at(dir, p, 0);
        let i = model::find_at(dir, p, 0)->0;
        let off = a.len() + 1 + 7;
        assert(whole.subrange(off + i, off + i + p.len()) =~= dir.subrange(i, i + p.len()));
        assert(model::matches_at(whole, p, off + i));
        model::lemma_find_at(whole, p, 0);
        let at: int = (a.len() + 1 + b.len() + 1) as int;
        assert(whole.subrange(at, at + q.len()) =~= q);
        assert(model::matches_at(whole, q, at));
        model::lemma_find_at(whole, q, 0);
    }
}

/// What a sweep of shims removes is this launcher's; a sweep of the stale ones leaves those that lead
/// to a usable directory.
pub proof fn law_sweeps_spare_others(
    sweep: ShimSweep,
    readable: bool,
    content: Seq<char>,
    dir_valid: bool,
)
    ensures
        !ours(content) ==> !swept(sweep, readable, content, dir_valid),
        sweep == ShimSweep::Stale && target_of(content) is Some && dir_valid ==> !swept(
            sweep,
            readable,
            content,
            dir_valid,
        ),
        swept(ShimSweep::Stale, readable, content, dir_valid) ==> swept(
            ShimSweep::Owned,
            readable,
            content,
            dir_valid,
        ),
{
}

} // verus!
