//! What holds of every version that is offered, installed or removed, and of the search path that
//! leads to it.

use crate::github_laws::lemma_same_members;
use crate::model;
use crate::pathutil::{
    among, entries, filled, inject_node_path, law_prepended_directory_is_found,
    law_removed_directory_is_gone, others, path_contains, prepend_user_path_dir,
    remove_user_path_dir, node_dir_injection,
};
use crate::semver::{law_sorting_keeps_versions, law_sorting_puts_the_newest_first, rank, Rank};
use crate::version::{
    install_npm_version, may_ask_version, npm_install_args, npm_progress, npm_uninstall_args,
    npm_versions, npm_view_args, plan_home, plan_switch, version_texts, ChannelSwitch, DshVersion,
    HomeStep, installed_from_command,
};
use crate::github::DshProbe;
use vstd::prelude::*;

verus! {

// ---- Versions ----

/// The versions that are offered are those that the registry lists, none more and none less, and the
/// newer stand first.
pub proof fn law_all_versions_are_offered(
    listed: Option<Vec<String>>,
    r: Vec<DshVersion>,
    version: Seq<char>,
)
    requires
        call_ensures(npm_versions, (listed,), r),
    ensures
        listed is None ==> r@.len() == 0,
        listed is Some ==> r@.len() == (listed->0)@.len() && (version_texts(r@).contains(version)
            <==> model::texts((listed->0)@).contains(version)),
        forall|i: int| 0 <= i < r@.len() ==> (#[trigger] r@[i]).channel is Npm,
        forall|i: int, j: int|
            0 <= i < j < r@.len() ==> rank(
                (#[trigger] r@[i]).version@,
                (#[trigger] r@[j]).version@,
            ) != Rank::Below,
{
    let shown = version_texts(r@);
    assert(shown.len() == r@.len());
    if listed is Some {
        let given = model::texts((listed->0)@);
        law_sorting_keeps_versions(given);
        lemma_same_members(given, shown);
        assert(given.len() == (listed->0)@.len());
        assert forall|i: int, j: int| 0 <= i < j < r@.len() implies rank(
            (#[trigger] r@[i]).version@,
            (#[trigger] r@[j]).version@,
        ) != Rank::Below by {
            law_sorting_puts_the_newest_first(given, i, j);
            assert(shown[i] == r@[i].version@ && shown[j] == r@[j].version@);
        }
    }
}

/// The version that is installed is the one that was asked for, of the service's own package, for the
/// whole machine, and from the registry that is set.
pub proof fn law_the_asked_version_is_installed(version: &str, registry: Option<&str>, r: Vec<String>)
    requires
        call_ensures(npm_install_args, (version, registry), r),
    ensures
        ({
            let args = model::texts(r@);
            &&& args[0] == "install"@
            &&& args[1] == "-g"@
            &&& args[2] == "@deepseek-ai/dsh@"@ + version@
            &&& registry is None ==> args.len() == 3
            &&& registry is Some ==> args.len() == 5 && model::passes(
                args,
                "--registry"@,
                (registry->0)@,
            )
        }),
{
    let args = model::texts(r@);
    if registry is Some {
        assert(args[3] == "--registry"@ && args[4] == (registry->0)@);
    }
}

/// Installations of different versions never run the same command.
pub proof fn law_versions_tell_installations_apart(
    a: &str,
    b: &str,
    registry: Option<&str>,
    first: Vec<String>,
    second: Vec<String>,
)
    requires
        call_ensures(npm_install_args, (a, registry), first),
        call_ensures(npm_install_args, (b, registry), second),
        model::texts(first@) == model::texts(second@),
    ensures
        a@ == b@,
{
    let x = model::texts(first@)[2];
    let y = model::texts(second@)[2];
    let p = "@deepseek-ai/dsh@"@;
    assert(x == p + a@ && y == p + b@);
    assert(x.skip(p.len() as int) =~= a@);
    assert(y.skip(p.len() as int) =~= b@);
}

/// What is asked of the registry, and what is removed, is the service's own package.
pub proof fn law_the_own_package_is_meant(
    registry: Option<&str>,
    view: Vec<String>,
    gone: Vec<String>,
)
    requires
        call_ensures(npm_view_args, (registry,), view),
        call_ensures(npm_uninstall_args, (), gone),
    ensures
        ({
            let asked = model::texts(view@);
            let removed = model::texts(gone@);
            &&& asked[0] == "view"@ && asked[1] == "@deepseek-ai/dsh"@ && asked[2] == "versions"@
            &&& asked.contains("--json"@)
            &&& registry is Some ==> model::passes(asked, "--registry"@, (registry->0)@)
            &&& removed[0] == "uninstall"@ && removed[1] == "-g"@ && removed.last()
                == "@deepseek-ai/dsh"@
        }),
{
    let asked = model::texts(view@);
    assert(asked[3] == "--json"@);
    if registry is Some {
        assert(asked[4] == "--registry"@ && asked[5] == (registry->0)@);
    }
}

/// A channel is installed in place of the other: one goes, the other comes, and never are they the
/// same. Only the two channels are known.
pub proof fn law_one_channel_at_a_time(channel: &str, r: Result<ChannelSwitch, String>)
    requires
        call_ensures(plan_switch, (channel,), r),
    ensures
        r is Ok <==> channel@ == "npm"@ || channel@ == "github"@,
        r is Ok ==> {
            &&& r->Ok_0.install != r->Ok_0.remove
            &&& channel@ == "npm"@ ==> r->Ok_0.install is Npm
            &&& channel@ == "github"@ ==> r->Ok_0.install is Github
        },
{
    reveal_strlit("npm");
    reveal_strlit("github");
    assert("npm"@.len() != "github"@.len());
}

/// The user's data goes only where the settings say so and it looks like the service's.
pub proof fn law_user_data_is_spared(
    keep: bool,
    is_dir: bool,
    has_profiles: bool,
    has_settings: bool,
    r: HomeStep,
)
    requires
        call_ensures(plan_home, (keep, is_dir, has_profiles, has_settings), r),
    ensures
        r is Remove <==> !keep && is_dir && (has_profiles || has_settings),
        keep ==> r is Keep,
{
}

/// A command that would lead nowhere is never run to ask for its version, and a version is known only
/// where the command succeeded and printed something.
pub proof fn law_versions_are_asked_safely(
    kind: DshProbe,
    may: bool,
    success: bool,
    stdout: &str,
    r: Option<String>,
)
    requires
        call_ensures(may_ask_version, (kind,), may),
        call_ensures(installed_from_command, (success, stdout), r),
    ensures
        kind is Missing || kind is OwnedShimBroken ==> !may,
        kind is OwnedShimOk || kind is Foreign ==> may,
        r is Some <==> success && !model::blank(stdout@),
        r is Some ==> model::ends_with((r->0)@, model::trim(stdout@)),
{
    if r is Some {
        let s = (r->0)@;
        let t = model::trim(stdout@);
        assert(s.subrange(s.len() - t.len(), s.len() as int) =~= t);
    }
}

/// An installation through the registry is reported as what it was.
pub proof fn law_installations_are_reported(
    version: &str,
    outcome: Result<(), String>,
    r: Result<String, String>,
    percent: u8,
    line: &str,
    progress: Option<u8>,
)
    requires
        call_ensures(install_npm_version, (version, outcome), r),
        percent <= 100,
        call_ensures(npm_progress, (percent, line), progress),
    ensures
        r is Ok <==> outcome is Ok,
        r is Ok ==> model::occurs(r->Ok_0@, version@),
        r is Err ==> model::ends_with(r->Err_0@, outcome->Err_0@),
        progress is Some ==> progress->0 <= 90 && (percent < 90 ==> progress->0 > percent),
{
    match r {
        Ok(m) => {
            model::lemma_occurs(m@, "已安装 dsh "@, version@, "（npm 通道）"@);
        },
        Err(m) => {
            let e = outcome->Err_0@;
            assert(m@.subrange(m@.len() - e.len(), m@.len() as int) =~= e);
        },
    }
}

// ---- The search path ----

/// A directory that is put on the user's search path is found there, in front of all that was there;
/// one that is there already is not put there twice.
pub proof fn law_directories_are_put_on_the_path(
    current: &str,
    dir: &str,
    r: (String, bool),
    after: &str,
    found: bool,
    before: bool,
)
    requires
        !model::blank(dir@),
        model::trim(dir@) == dir@,
        forall|i: int| 0 <= i < dir@.len() ==> #[trigger] dir@[i] != ';',
        call_ensures(prepend_user_path_dir, (current, dir), r),
        after@ == r.0@,
        call_ensures(path_contains, (after, dir), found),
        call_ensures(path_contains, (current, dir), before),
    ensures
        found,
        r.1 <==> !before,
        !r.1 ==> r.0@ == current@,
        r.1 ==> model::starts_with(r.0@, dir@) && (model::blank(current@) || model::ends_with(
            r.0@,
            current@,
        )),
{
    law_prepended_directory_is_found(current@, dir@);
    if r.1 {
        let s = r.0@;
        assert(s.subrange(0, dir@.len() as int) =~= dir@);
        if !model::blank(current@) {
            assert(s.subrange(s.len() - current@.len(), s.len() as int) =~= current@);
        }
    }
}

/// A directory that is taken off the user's search path is gone, and no other is: one that differs in
/// more than its case is found as before.
pub proof fn law_directories_are_taken_off_the_path(
    current: &str,
    dir: &str,
    r: Option<String>,
    after: &str,
    found: bool,
    other: &str,
    was: bool,
    is: bool,
)
    requires
        call_ensures(remove_user_path_dir, (current, dir), r),
        r is Some,
        after@ == (r->0)@,
        call_ensures(path_contains, (after, dir), found),
        !model::same_but_case(other@, dir@),
        call_ensures(path_contains, (current, other), was),
        call_ensures(path_contains, (after, other), is),
    ensures
        !found,
        is == was,
{
    law_removed_directory_is_gone(current@, dir@);
    lemma_others_found(entries(current@), dir@, other@);
}

proof fn lemma_others_found(dirs: Seq<Seq<char>>, dir: Seq<char>, other: Seq<char>)
    requires
        !model::same_but_case(other, dir),
    ensures
        among(others(dirs, dir), other) == among(dirs, other),
    decreases dirs.len(),
{
    let out = others(dirs, dir);
    if dirs.len() > 0 {
        let init = dirs.drop_last();
        let rest = others(init, dir);
        let n = dirs.len() - 1;
        lemma_others_found(init, dir, other);
        if among(dirs, other) {
            let i = choose|i: int| 0 <= i < dirs.len() && model::same_but_case(#[trigger] dirs[i], other);
            if i < n {
                assert(init[i] == dirs[i]);
                assert(among(init, other));
            }
        }
        if among(init, other) {
            let i = choose|i: int| 0 <= i < init.len() && model::same_but_case(#[trigger] init[i], other);
            assert(dirs[i] == init[i]);
        }
        if !model::same_but_case(dirs.last(), dir) {
            assert(out[rest.len() as int] == dirs.last());
            if among(rest, other) {
                let i = choose|i: int| 0 <= i < rest.len() && model::same_but_case(#[trigger] rest[i], other);
                assert(out[i] == rest[i]);
            }
            if among(out, other) {
                let i = choose|i: int| 0 <= i < out.len() && model::same_but_case(#[trigger] out[i], other);
                if i < rest.len() {
                    assert(out[i] == rest[i]);
                } else {
                    assert(dirs[n] == out[i]);
                }
            }
        }
    }
}

/// A command finds Node: its directory comes in front of the search path where it is not on it, and
/// only where there is no other Node.
pub proof fn law_commands_find_node(
    current: &str,
    dir: &str,
    r: Option<String>,
    on_path: bool,
    in_system: bool,
    installed: bool,
    injected: Option<String>,
)
    requires
        call_ensures(inject_node_path, (current, dir), r),
        call_ensures(path_contains, (current, dir), on_path),
        call_ensures(node_dir_injection, (in_system, installed, dir), injected),
    ensures
        r is None <==> on_path,
        r is Some ==> model::starts_with((r->0)@, dir@) && model::ends_with((r->0)@, current@),
        injected is Some <==> !in_system && installed && dir@.len() > 0,
        injected is Some ==> (injected->0)@ == dir@,
{
    if r is Some {
        let s = (r->0)@;
        assert(s.subrange(0, dir@.len() as int) =~= dir@);
        assert(s.subrange(s.len() - current@.len(), s.len() as int) =~= current@);
    }
}

proof fn lemma_filled_members(parts: Seq<Seq<char>>, dir: Seq<char>)
    ensures
        among(filled(parts), dir) <==> exists|i: int|
            0 <= i < parts.len() && !model::blank(#[trigger] parts[i]) && model::lower_ascii(
                model::trim(parts[i]),
            ) == model::lower_ascii(dir),
    decreases parts.len(),
{
    let out = filled(parts);
    if parts.len() > 0 {
        let init = parts.drop_last();
        let rest = filled(init);
        let n = parts.len() - 1;
        lemma_filled_members(init, dir);
        if among(out, dir) {
            let k = choose|k: int| 0 <= k < out.len() && model::same_but_case(#[trigger] out[k], dir);
            if k < rest.len() {
                assert(rest[k] == out[k]);
                assert(among(rest, dir));
                let i = choose|i: int|
                    0 <= i < init.len() && !model::blank(#[trigger] init[i]) && model::lower_ascii(
                        model::trim(init[i]),
                    ) == model::lower_ascii(dir);
                assert(parts[i] == init[i]);
            } else {
                assert(!model::blank(parts[n]));
            }
        }
        if exists|i: int|
            0 <= i < parts.len() && !model::blank(#[trigger] parts[i]) && model::lower_ascii(
                model::trim(parts[i]),
            ) == model::lower_ascii(dir) {
            let i = choose|i: int|
                0 <= i < parts.len() && !model::blank(#[trigger] parts[i]) && model::lower_ascii(
                    model::trim(parts[i]),
                ) == model::lower_ascii(dir);
            if i < n {
                assert(init[i] == parts[i]);
                let k = choose|k: int| 0 <= k < rest.len() && model::same_but_case(#[trigger] rest[k], dir);
                assert(out[k] == rest[k]);
            } else {
                assert(model::same_but_case(out[rest.len() as int], dir));
            }
        }
    }
}

/// A directory is on the search path exactly where one of the parts between semicolons is it, apart
/// from white space around it and the case of its letters.
pub proof fn law_when_a_directory_is_on_the_path(path: &str, dir: &str, b: bool)
    requires
        call_ensures(path_contains, (path, dir), b),
    ensures
        b <==> exists|i: int|
            0 <= i < model::split(path@, model::CharSet::Only(';')).len() && !model::blank(
                #[trigger] model::split(path@, model::CharSet::Only(';'))[i],
            ) && model::lower_ascii(
                model::trim(model::split(path@, model::CharSet::Only(';'))[i]),
            ) == model::lower_ascii(dir@),
{
    lemma_filled_members(model::split(path@, model::CharSet::Only(';')), dir@);
}

} // verus!
