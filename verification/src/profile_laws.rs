//! What holds of the profile: its manifest, and the commands that are run for it.

use crate::github::ResolvedDsh;
use crate::json;
use crate::model;
use crate::paths;
use crate::paths::below;
use crate::plugin::discover::{degrade, named_package, plugin_list, require_profile};
use crate::plugin::service::PluginList;
use crate::plugin::state::PluginError;
use crate::profile::{
    backup_targets, build_dsh_command, dependencies_of, dump_args, dump_config, first_filled,
    first_filled_line, read_manifest, resolve_entry, spec_among, strings_among, timestamp,
    DshCommand, DshEntry, ProfileManifest,
};
use crate::text_map::TextMap;
use vstd::prelude::*;

verus! {

proof fn lemma_spec_among(members: Seq<(Seq<char>, Option<Seq<char>>)>, key: Seq<char>, i: int)
    requires
        0 <= i < members.len(),
        members[i].0 == key,
        members[i].1 is Some,
        forall|j: int| i < j < members.len() ==> (#[trigger] members[j]).0 != key || members[j].1 is None,
    ensures
        spec_among(members, key) == members[i].1,
    decreases members.len(),
{
    if i < members.len() - 1 {
        let init = members.drop_last();
        assert(members[members.len() - 1].0 != key || members[members.len() - 1].1 is None);
        assert forall|j: int| i < j < init.len() implies (#[trigger] init[j]).0 != key || init[j].1 is None by {
            assert(init[j] == members[j]);
        }
        assert(init[i] == members[i]);
        lemma_spec_among(init, key, i);
    }
}

proof fn lemma_no_spec(members: Seq<(Seq<char>, Option<Seq<char>>)>, key: Seq<char>)
    requires
        forall|j: int| 0 <= j < members.len() ==> (#[trigger] members[j]).0 != key || members[j].1 is None,
    ensures
        spec_among(members, key) is None,
    decreases members.len(),
{
    if members.len() > 0 {
        let init = members.drop_last();
        assert(members[members.len() - 1].0 != key || members[members.len() - 1].1 is None);
        assert forall|j: int| 0 <= j < init.len() implies (#[trigger] init[j]).0 != key || init[j].1 is None by {
            assert(init[j] == members[j]);
        }
        lemma_no_spec(init, key);
    }
}

/// A dependency has the spec that the manifest gives it: the last one of its name that is a text, and
/// what is not listed is no dependency.
pub proof fn law_dependencies_are_those_listed(
    members: &Vec<(String, Option<String>)>,
    r: TextMap,
    key: Seq<char>,
    i: int,
)
    requires
        call_ensures(dependencies_of, (members,), r),
    ensures
        0 <= i < members@.len() && members@[i].0@ == key && members@[i].1 is Some && (forall|j: int|
            i < j < members@.len() ==> (#[trigger] members@[j]).0@ != key || members@[j].1 is None)
            ==> r.lookup(key) == Some((members@[i].1->0)@),
        (forall|j: int|
            0 <= j < members@.len() ==> (#[trigger] members@[j]).0@ != key || members@[j].1 is None)
            ==> r.lookup(key) is None,
{
    let all = json::member_texts(members@);
    assert(all.len() == members@.len());
    assert forall|j: int| 0 <= j < all.len() implies (#[trigger] all[j]).0 == members@[j].0@
        && all[j].1 == model::text_of(members@[j].1) by {}
    if 0 <= i < members@.len() && members@[i].0@ == key && members@[i].1 is Some && (forall|j: int|
        i < j < members@.len() ==> (#[trigger] members@[j]).0@ != key || members@[j].1 is None) {
        assert forall|j: int| i < j < all.len() implies (#[trigger] all[j]).0 != key || all[j].1 is None by {
            assert(members@[j].0@ != key || members@[j].1 is None);
        }
        assert(all[i].0 == key);
        lemma_spec_among(all, key, i);
    }
    if forall|j: int|
        0 <= j < members@.len() ==> (#[trigger] members@[j]).0@ != key || members@[j].1 is None {
        assert forall|j: int| 0 <= j < all.len() implies (#[trigger] all[j]).0 != key || all[j].1 is None by {
            assert(members@[j].0@ != key || members@[j].1 is None);
        }
        lemma_no_spec(all, key);
    }
    assert(r.lookup(key) == spec_among(all, key));
}

/// The service's command is run from its sources where they are installed, else by the shim that was
/// found; where neither is there, nothing is run.
pub proof fn law_how_the_command_is_found(
    dir: Option<String>,
    node: Option<String>,
    resolved: ResolvedDsh,
    r: Result<DshEntry, PluginError>,
)
    requires
        call_ensures(resolve_entry, (dir, node, resolved), r),
    ensures
        r is Ok <==> dir is Some && node is Some || dir is None && resolved.shim_path is Some,
        r matches Ok(DshEntry::SourceDir { dir: d, node: n }) ==> dir == Some(d) && node == Some(n),
        r matches Ok(DshEntry::Path { shim }) ==> dir is None && resolved.shim_path == Some(shim),
        r is Err ==> r->Err_0.kind is DshNotInstalled,
{
}

/// The service's command gets the arguments that are given, in their order, and nothing behind them.
pub proof fn law_commands_get_their_arguments(entry: &DshEntry, args: &[String], r: DshCommand, i: int)
    requires
        call_ensures(build_dsh_command, (entry, args), r),
        0 <= i < args@.len(),
    ensures
        entry matches DshEntry::Path { shim } ==> r.program == shim && r.script && r.args@.len()
            == args@.len() && r.args@[i]@ == args@[i]@,
        entry matches DshEntry::SourceDir { dir, node } ==> r.program == node && r.cwd == Some(*dir)
            && r.args@.len() == args@.len() + 3 && r.args@[3 + i]@ == args@[i]@,
{
    let all = model::texts(r.args@);
    let given = model::texts(args@);
    assert(all.len() == r.args@.len() && given.len() == args@.len());
    assert(given[i] == args@[i]@);
    match entry {
        DshEntry::Path { shim } => {
            assert(all[i] == r.args@[i]@);
        },
        DshEntry::SourceDir { dir, node } => {
            assert(all[3 + i] == given[i]);
            assert(all[3 + i] == r.args@[3 + i]@);
        },
    }
}

/// The configuration is asked for of the profile that is meant, and is what was printed where that
/// succeeded.
pub proof fn law_the_configuration_is_that_of_the_profile(
    profile: &str,
    args: Vec<String>,
    success: bool,
    code: Option<i32>,
    stdout: String,
    stderr: &str,
    r: Result<String, PluginError>,
)
    requires
        call_ensures(dump_args, (profile,), args),
        call_ensures(dump_config, (success, code, stdout, stderr), r),
    ensures
        model::passes(model::texts(args@), "--profile"@, profile@),
        model::texts(args@).contains("--dump-config"@),
        r is Ok <==> success,
        r is Ok ==> r->Ok_0 == stdout,
{
    let t = model::texts(args@);
    assert(t[0] == "--profile"@ && t[1] == profile@);
    assert(t[2] == "--dump-config"@);
}

/// The files of a profile that a change could damage are all backed up.
pub proof fn law_what_is_backed_up(r: Vec<String>, secs: u64, later: u64, a: String, b: String)
    requires
        call_ensures(backup_targets, (), r),
        call_ensures(timestamp, (secs,), a),
        call_ensures(timestamp, (later,), b),
    ensures
        model::texts(r@).contains("package.json"@) && model::texts(r@).contains("pnpm-lock.yaml"@)
            && model::texts(r@).contains("pnpm-workspace.yaml"@) && model::texts(r@).contains(
            "cordis.patch.yml"@,
        ),
        a@ == b@ ==> secs == later,
{
    let t = model::texts(r@);
    assert(t[0] == "package.json"@ && t[1] == "pnpm-lock.yaml"@ && t[2] == "pnpm-workspace.yaml"@
        && t[3] == "cordis.patch.yml"@);
    crate::dates::lemma_decimal(secs as nat);
    crate::dates::lemma_decimal(later as nat);
}

proof fn lemma_first_filled(lines: Seq<Seq<char>>, i: int)
    requires
        0 <= i < lines.len(),
        !model::blank(lines[i]),
        forall|j: int| 0 <= j < i ==> model::blank(#[trigger] lines[j]),
    ensures
        first_filled(lines) == Some(model::trim(lines[i])),
    decreases lines.len(),
{
    if i > 0 {
        assert(model::blank(lines[0]));
        let rest = lines.skip(1);
        assert forall|j: int| 0 <= j < i - 1 implies model::blank(#[trigger] rest[j]) by {
            assert(rest[j] == lines[j + 1]);
        }
        assert(rest[i - 1] == lines[i]);
        lemma_first_filled(rest, i - 1);
    }
}

/// The first line that says something is the answer.
pub proof fn law_the_first_filled_line_counts(output: &str, r: Option<String>, i: int)
    requires
        call_ensures(first_filled_line, (output,), r),
        0 <= i < model::lines(output@).len(),
        !model::blank(model::lines(output@)[i]),
        forall|j: int| 0 <= j < i ==> model::blank(#[trigger] model::lines(output@)[j]),
    ensures
        model::text_of(r) == Some(model::trim(model::lines(output@)[i])),
{
    lemma_first_filled(model::lines(output@), i);
}

/// A list can be shown without the configuration except where the service itself is missing, and the
/// reason is then told.
pub proof fn law_lists_are_shown_where_they_can_be(
    error: PluginError,
    patch: Option<&str>,
    r: Result<String, PluginError>,
    profile: &str,
    list: Result<PluginList, PluginError>,
    shown: Result<PluginList, PluginError>,
    dir: &str,
    ready: bool,
    may: Result<(), PluginError>,
    package: Option<String>,
    named: Option<String>,
)
    requires
        call_ensures(degrade, (error, patch), r),
        call_ensures(plugin_list, (profile, list), shown),
        call_ensures(require_profile, (profile, dir, ready), may),
        call_ensures(named_package, (package,), named),
    ensures
        r is Err <==> error.kind is DshNotInstalled,
        r is Ok ==> model::ends_with(r->Ok_0@, error.message@),
        list is Ok ==> shown == list,
        list is Err && list->Err_0.kind is NotFound ==> shown is Ok && shown->Ok_0.plugins@.len() == 0,
        list is Err && !(list->Err_0.kind is NotFound) ==> shown == list,
        may is Ok <==> ready,
        named is Some <==> package is Some && (package->0)@.len() > 0,
        named is Some ==> named == package,
{
    if r is Ok {
        let m = error.message@;
        let s = r->Ok_0@;
        assert(s.subrange(s.len() - m.len(), s.len() as int) =~= m);
    }
}

proof fn lemma_strings_among(elements: Seq<Option<Seq<char>>>, s: Seq<char>)
    ensures
        strings_among(elements).contains(s) <==> elements.contains(Some(s)),
    decreases elements.len(),
{
    let out = strings_among(elements);
    if elements.len() > 0 {
        let init = elements.drop_last();
        let rest = strings_among(init);
        let n = elements.len() - 1;
        lemma_strings_among(init, s);
        if elements.contains(Some(s)) {
            let i = choose|i: int| 0 <= i < elements.len() && elements[i] == Some(s);
            if i < n {
                assert(init[i] == Some(s));
                let k = choose|k: int| 0 <= k < rest.len() && rest[k] == s;
                assert(out[k] == s);
            } else {
                assert(out[rest.len() as int] == s);
            }
        }
        if out.contains(s) {
            let k = choose|k: int| 0 <= k < out.len() && out[k] == s;
            if k < rest.len() {
                assert(rest[k] == s);
                let i = choose|i: int| 0 <= i < init.len() && init[i] == Some(s);
                assert(elements[i] == Some(s));
            } else {
                assert(elements[n] == Some(s));
            }
        }
    }
}

/// The manifest of a profile is what its document says: its bundles are the texts that the document
/// lists, and its dependencies those that it names.
pub proof fn law_manifests_say_what_is_written(
    path: &str,
    raw: &str,
    m: ProfileManifest,
    package: &str,
    bundled: bool,
    elements: Seq<Option<Seq<char>>>,
    members: Seq<(Seq<char>, Option<Seq<char>>)>,
    i: int,
)
    requires
        call_ensures(read_manifest, (path, raw), Ok::<ProfileManifest, PluginError>(m)),
        call_ensures(ProfileManifest::in_bundles, (&m, package), bundled),
        json::json_elements(raw@, "/dsh/profile/bundles"@) == Some(elements),
        json::json_members(raw@, "/dependencies"@) == Some(members),
        0 <= i < members.len(),
        members[i].1 is Some,
        forall|j: int| i < j < members.len() ==> (#[trigger] members[j]).0 != members[i].0,
    ensures
        bundled <==> elements.contains(Some(package@)),
        m.dependencies.lookup(members[i].0) == members[i].1,
{
    lemma_strings_among(elements, package@);
    lemma_spec_among(members, members[i].0, i);
    assert(m.says(raw@));
    assert(m.dependencies.lookup(members[i].0) == spec_among(members, members[i].0));
}

/// Everything that the launcher keeps lies below the directory that it is given, each thing in a place
/// of its own.
pub proof fn law_places_lie_below_their_directory(
    base: &str,
    settings: String,
    sources: String,
    tools: String,
    logs: String,
)
    requires
        base@.len() > 0,
        call_ensures(paths::config_path, (Some(base),), settings),
        call_ensures(paths::github_clone_dir, (Some(base),), sources),
        call_ensures(paths::toolchain_dir, (Some(base),), tools),
        call_ensures(paths::logs_dir, (Some(base),), logs),
    ensures
        model::starts_with(settings@, base@) && model::ends_with(settings@, "config.json"@),
        model::starts_with(sources@, base@) && model::ends_with(sources@, "deepseek-harness"@),
        model::starts_with(tools@, base@) && model::ends_with(tools@, "toolchain"@),
        model::starts_with(logs@, base@) && model::ends_with(logs@, "logs"@),
        model::contains(sources@, "github-dsh"@),
{
    let b = base@;
    assert(model::slice_of(Some(base)) == Some(b));
    let own = below(b, "dsh-launcher"@);
    lemma_below(b, "dsh-launcher"@);
    lemma_below(own, "config.json"@);
    lemma_below(own, "toolchain"@);
    lemma_below(own, "logs"@);
    let repo = below(own, "github-dsh"@);
    lemma_below(own, "github-dsh"@);
    lemma_below(repo, "deepseek-harness"@);
    lemma_starts(settings@, own, b);
    lemma_starts(tools@, own, b);
    lemma_starts(logs@, own, b);
    lemma_starts(repo, own, b);
    lemma_starts(sources@, repo, b);
    let p = "github-dsh"@;
    let at = repo.len() - p.len();
    assert(sources@.subrange(0, repo.len() as int) == repo);
    assert(repo.subrange(at, repo.len() as int) == p);
    assert(sources@.subrange(at, at + p.len()) =~= p) by {
        assert forall|i: int| 0 <= i < p.len() implies sources@[at + i] == #[trigger] p[i] by {
            assert(sources@.subrange(0, repo.len() as int)[at + i] == sources@[at + i]);
            assert(repo.subrange(at, repo.len() as int)[i] == repo[at + i]);
        }
    }
    assert(model::matches_at(sources@, p, at));
    model::lemma_find_at(sources@, p, 0);
}

proof fn lemma_below(base: Seq<char>, name: Seq<char>)
    ensures
        model::starts_with(below(base, name), base),
        model::ends_with(below(base, name), name),
{
    let p = below(base, name);
    assert(p.subrange(0, base.len() as int) =~= base);
    assert(p.subrange(p.len() - name.len(), p.len() as int) =~= name);
}

proof fn lemma_starts(p: Seq<char>, mid: Seq<char>, base: Seq<char>)
    requires
        model::starts_with(p, mid),
        model::starts_with(mid, base),
    ensures
        model::starts_with(p, base),
{
    assert(p.subrange(0, base.len() as int) =~= p.subrange(0, mid.len() as int).subrange(
        0,
        base.len() as int,
    ));
}

} // verus!
