//! What holds of every installation from sources, and of the tags, shims and addresses that lead to
//! one.

use crate::github::{
    distinct_paths, extract_shim_target_dir, git_auth_header, git_clone_args, lemma_first_usable,
    line_progress, list_releases, own_repo_url, resolve_dsh, resolve_repo_url, shims_to_remove,
    ResolvedDsh, ShimSweep, SourceAction, SourceInstall, SourceStage, distinct, first_usable,
    holds_alike, law_shims_lead_back, names_tag, swept_positions, tag_of, target_of,
    parse_remote_ref, first_sha, git_on_path, hex_digit, is_sha,
};
use crate::model;
use crate::model::CharSet;
use crate::semver::{
    law_sorting_keeps_versions, law_sorting_puts_the_newest_first, newest_first, rank, Rank,
};
use crate::text::lowercase;
use crate::text_map::ordered;
use vstd::prelude::*;

verus! {

// ---- The installation ----

/// What is asked for is what is installed: an installation begins with the very version, directory,
/// mirror, registry and profile that were named, and is refused exactly for a blank version.
pub proof fn law_installations_keep_what_was_asked_for(
    version: &str,
    dest: String,
    mirror: String,
    registry: Option<String>,
    profile: String,
    r: Result<SourceInstall, String>,
)
    requires
        call_ensures(SourceInstall::begin, (version, dest, mirror, registry, profile), r),
    ensures
        r is Err <==> model::blank(version@),
        r is Ok ==> {
            &&& r->Ok_0.stage is Prepare
            &&& r->Ok_0.version@ == version@
            &&& r->Ok_0.dest@ == dest@
            &&& r->Ok_0.mirror@ == mirror@
            &&& model::text_of(r->Ok_0.registry) == model::text_of(registry)
            &&& r->Ok_0.profile@ == profile@
        },
{
}

/// The sources that are cloned are those of the version that was asked for: `--branch` stands
/// directly before its name, and the directory is the last argument. The history is left out.
pub proof fn law_the_asked_tag_is_cloned(
    it: &mut SourceInstall,
    outcome: Result<(), String>,
    r: SourceAction,
    mirror: &str,
    url: String,
)
    requires
        call_ensures(SourceInstall::step, (it, outcome), r),
        old(it).stage is Prepare,
        outcome is Ok,
        mirror@ == old(it).mirror@,
        call_ensures(own_repo_url, (mirror,), url),
    ensures
        r is Git,
        ({
            let args = model::texts(r->Git_0@);
            &&& args[0] == "clone"@
            &&& model::passes(args, "--branch"@, model::trim(old(it).version@))
            &&& model::passes(args, "--depth"@, "1"@)
            &&& args.last() == old(it).dest@
            &&& args.len() == 8
            &&& args[6] == url@
        }),
        final(it).stage is Clone,
{
    let args = model::texts(r->Git_0@);
    assert(args[3] == "--branch"@ && args[4] == model::trim(old(it).version@));
    assert(args[1] == "--depth"@ && args[2] == "1"@);
}

/// Two installations that run the same clone were asked for the same version, into the same
/// directory.
pub proof fn law_tags_tell_clones_apart(
    a: &mut SourceInstall,
    b: &mut SourceInstall,
    outcome: Result<(), String>,
    first: SourceAction,
    second: SourceAction,
)
    requires
        call_ensures(SourceInstall::step, (a, outcome), first),
        call_ensures(SourceInstall::step, (b, outcome), second),
        old(a).stage is Prepare,
        old(b).stage is Prepare,
        outcome is Ok,
        model::texts(first->Git_0@) == model::texts(second->Git_0@),
    ensures
        model::trim(old(a).version@) == model::trim(old(b).version@),
        old(a).dest@ == old(b).dest@,
{
    let x = model::texts(first->Git_0@);
    let y = model::texts(second->Git_0@);
    assert(x[4] == y[4] && x[7] == y[7]);
}

/// The stages follow each other in one order: the clone, the packages from the registry that was
/// asked for, the build, the profile, the shim. Only then the installation is done.
pub proof fn law_installations_take_their_course(
    it: &mut SourceInstall,
    outcome: Result<(), String>,
    r: SourceAction,
)
    requires
        call_ensures(SourceInstall::step, (it, outcome), r),
        !(old(it).stage is Over),
        outcome is Ok || old(it).stage is Converge,
    ensures
        r is Git <==> old(it).stage is Prepare,
        r is Pnpm <==> old(it).stage is Clone || old(it).stage is Install,
        r is Converge <==> old(it).stage is Build,
        r is WriteShim <==> old(it).stage is Converge,
        r is Done <==> old(it).stage is Shim,
        old(it).stage is Clone ==> {
            let args = model::texts(r->Pnpm_0@);
            &&& args.last() == "install"@
            &&& old(it).registry is Some ==> args.len() == 3 && model::passes(
                args,
                "--registry"@,
                old(it).registry->0@,
            )
            &&& old(it).registry is None ==> args.len() == 1
        },
        old(it).stage is Install ==> model::texts(r->Pnpm_0@).contains("build"@) && r->Pnpm_0@.len()
            == 2,
        old(it).stage is Build ==> {
            let args = model::texts(r->Converge_0@);
            &&& model::passes(args, "--profile"@, old(it).profile@)
            &&& args[0] == "plugin"@
            &&& args.last() == "install"@
        },
        r is Done ==> exists|i: int, j: int|
            #![trigger model::matches_at(r->Done_0@, old(it).version@, i), model::matches_at(r->Done_0@, old(it).dest@, j)]
            model::matches_at(r->Done_0@, old(it).version@, i) && model::matches_at(
                r->Done_0@,
                old(it).dest@,
                j,
            ),
        final(it).version@ == old(it).version@ && final(it).dest@ == old(it).dest@
            && final(it).profile@ == old(it).profile@ && final(it).mirror@ == old(it).mirror@,
{
    if old(it).stage is Clone {
        let args = model::texts(r->Pnpm_0@);
        if old(it).registry is Some {
            assert(args[0] == "--registry"@ && args[1] == old(it).registry->0@);
        }
    }
    if old(it).stage is Install {
        let args = model::texts(r->Pnpm_0@);
        assert(args[1] == "build"@);
        assert(args.len() == r->Pnpm_0@.len());
    }
    if old(it).stage is Build {
        let args = model::texts(r->Converge_0@);
        assert(args[1] == "--profile"@ && args[2] == old(it).profile@);
    }
    if r is Done {
        let m = r->Done_0@;
        let a = "GitHub 通道 "@;
        let b = " 构建完成，位于 "@;
        let v = old(it).version@;
        let d = old(it).dest@;
        let i = a.len() as int;
        let j = (a.len() + v.len() + b.len()) as int;
        assert(m == a + v + b + d);
        assert(m.subrange(i, i + v.len()) =~= v);
        assert(m.subrange(j, j + d.len()) =~= d);
        assert(model::matches_at(m, v, i) && model::matches_at(m, d, j));
    }
}

/// A failure ends the installation and is told, except that of bringing the profile in line.
pub proof fn law_failures_end_installations(
    it: &mut SourceInstall,
    message: String,
    r: SourceAction,
)
    requires
        call_ensures(SourceInstall::step, (it, Err::<(), String>(message)), r),
        !(old(it).stage is Over),
    ensures
        r is Failed <==> !(old(it).stage is Converge),
        r is Failed ==> final(it).stage is Over && model::ends_with(r->Failed_0@, message@),
        old(it).stage is Converge ==> final(it).stage is Shim,
{
    if r is Failed {
        let m = r->Failed_0@;
        assert(m.subrange(m.len() - message@.len(), m.len() as int) =~= message@);
    }
}

/// The shim that an installation writes leads to the directory that it was installed into.
pub proof fn law_written_shims_lead_to_the_sources(
    it: &mut SourceInstall,
    outcome: Result<(), String>,
    r: SourceAction,
    content: &str,
    target: Option<String>,
)
    requires
        call_ensures(SourceInstall::step, (it, outcome), r),
        old(it).stage is Converge,
        content@ == r->WriteShim_0@,
        call_ensures(extract_shim_target_dir, (content,), target),
        forall|i: int|
            0 <= i < old(it).dest@.len() ==> #[trigger] old(it).dest@[i] != '"' && old(it).dest@[i]
                != '\n',
    ensures
        r is WriteShim,
        model::text_of(target) == Some(old(it).dest@),
{
    law_shims_lead_back(old(it).dest@);
}

// ---- Addresses ----

/// A mirror stands in for GitHub and for nothing else: the path of the repository stays, and other
/// addresses, and all without a mirror, are left as they are.
pub proof fn law_mirrors_stand_in_for_github(repo_url: &str, mirror: &str, r: String)
    requires
        call_ensures(resolve_repo_url, (repo_url, mirror), r),
    ensures
        model::blank(mirror@) ==> r@ == repo_url@,
        !model::starts_with(repo_url@, "https://github.com/"@) ==> r@ == repo_url@,
        forall|rest: Seq<char>|
            !model::blank(mirror@) && repo_url@ == "https://github.com/"@ + rest
                ==> model::ends_with(r@, #[trigger] ("/"@ + rest)) && model::starts_with(
                model::trim(mirror@),
                r@.take(r@.len() - rest.len() - 1),
            ),
{
    let p = "https://github.com/"@;
    assert forall|rest: Seq<char>|
        !model::blank(mirror@) && repo_url@ == p + rest implies model::ends_with(
        r@,
        #[trigger] ("/"@ + rest),
    ) && model::starts_with(model::trim(mirror@), r@.take(r@.len() - rest.len() - 1)) by {
        crate::text_lemmas::lemma_strip_prefix(p, rest);
        reveal_strlit("/");
        let m = model::trim(mirror@);
        let k = CharSet::Only('/');
        let head = model::trim_end(m, k);
        model::lemma_back_over(m, k, m.len() as int);
        assert(r@ == head + "/"@ + rest);
        let tail = "/"@ + rest;
        assert(r@.subrange(r@.len() - tail.len(), r@.len() as int) =~= tail);
        assert(r@.take(r@.len() - rest.len() - 1) =~= head);
        assert(m.subrange(0, head.len() as int) =~= head);
    }
}

/// The service's own repository is the same whatever the mirror: only what stands before its path
/// changes.
pub proof fn law_the_own_repository_is_cloned(mirror: &str, r: String)
    requires
        call_ensures(own_repo_url, (mirror,), r),
    ensures
        model::ends_with(r@, "/deepseek-ai/deepseek-harness.git"@),
        mirror@.len() == 0 ==> r@ == "https://github.com/deepseek-ai/deepseek-harness.git"@,
        mirror@.len() > 0 ==> model::starts_with(mirror@, r@.take(r@.len() - 33)),
{
    reveal_strlit("/deepseek-ai/deepseek-harness.git");
    reveal_strlit("https://github.com/deepseek-ai/deepseek-harness.git");
    reveal_strlit("https://github.com/");
    reveal_strlit("deepseek-ai/deepseek-harness");
    reveal_strlit(".git");
    reveal_strlit("/");
    let tail = "/deepseek-ai/deepseek-harness.git"@;
    assert(r@.subrange(r@.len() - tail.len(), r@.len() as int) =~= tail);
    if mirror@.len() == 0 {
        assert(r@ =~= "https://github.com/deepseek-ai/deepseek-harness.git"@);
    } else {
        let k = CharSet::Only('/');
        model::lemma_back_over(mirror@, k, mirror@.len() as int);
        let head = model::trim_end(mirror@, k);
        assert(r@.take(r@.len() - 33) =~= head);
        assert(mirror@.subrange(0, head.len() as int) =~= head);
    }
}

/// A clone takes the reference that is named, and the default one where none is.
pub proof fn law_clones_take_the_reference(
    repo_url: &str,
    reference: Option<&str>,
    dest: &str,
    mirror: &str,
    r: Vec<String>,
    url: String,
)
    requires
        call_ensures(git_clone_args, (repo_url, reference, dest, mirror), r),
        call_ensures(resolve_repo_url, (repo_url, mirror), url),
    ensures
        ({
            let args = model::texts(r@);
            let named = reference is Some && !model::blank(reference->0@);
            &&& args[0] == "clone"@
            &&& args.last() == dest@
            &&& args[args.len() - 2] == url@
            &&& named ==> args.len() == 8 && model::passes(
                args,
                "--branch"@,
                model::trim(reference->0@),
            )
            &&& !named ==> args.len() == 6
        }),
{
    let args = model::texts(r@);
    if reference is Some && !model::blank(reference->0@) {
        assert(args[3] == "--branch"@ && args[4] == model::trim(reference->0@));
    }
}

/// The header that authorises git carries the token, and there is none without a token.
pub proof fn law_the_token_is_sent(token: &str, r: Option<String>)
    requires
        call_ensures(git_auth_header, (token,), r),
    ensures
        r is None <==> model::blank(token@),
        r is Some ==> model::ends_with((r->0)@, model::trim(token@)),
{
    if r is Some {
        let m = (r->0)@;
        let t = model::trim(token@);
        assert(m.subrange(m.len() - t.len(), m.len() as int) =~= t);
    }
}

// ---- Tags ----

/// The tags that are offered are those that the remote names, each once, no other, and the newer
/// stand first. What a tag leads to, marked with `^{}`, counts as the tag itself.
pub proof fn law_all_tags_are_listed(
    success: bool,
    stdout: &str,
    stderr: &str,
    code: i32,
    r: Result<Vec<String>, String>,
)
    requires
        call_ensures(list_releases, (success, stdout, stderr, code), r),
    ensures
        r is Ok <==> success,
        r is Ok ==> {
            let tags = model::texts(r->Ok_0@);
            &&& forall|tag: Seq<char>| #[trigger]
                tags.contains(tag) ==> tag.len() > 0 && exists|i: int|
                    0 <= i < model::lines(stdout@).len() && #[trigger] model::words(
                        model::lines(stdout@)[i],
                    ).len() >= 2 && model::starts_with(
                        model::words(model::lines(stdout@)[i])[1],
                        "refs/tags/"@ + tag,
                    )
            &&& forall|i: int, tag: Seq<char>|
                0 <= i < model::lines(stdout@).len() && #[trigger] model::words(
                    model::lines(stdout@)[i],
                ).len() >= 2 && tag.len() > 0 && model::words(model::lines(stdout@)[i])[1]
                    == #[trigger] ("refs/tags/"@ + tag) && !model::ends_with(tag, "^{}"@)
                    ==> tags.contains(tag)
            &&& forall|i: int, tag: Seq<char>|
                0 <= i < model::lines(stdout@).len() && #[trigger] model::words(
                    model::lines(stdout@)[i],
                ).len() >= 2 && tag.len() > 0 && model::words(model::lines(stdout@)[i])[1]
                    == #[trigger] ("refs/tags/"@ + tag) + "^{}"@ && !model::ends_with(tag, "^{}"@)
                    ==> tags.contains(tag)
            &&& forall|tag: Seq<char>| #[trigger]
                tags.contains(tag) ==> !model::ends_with(tag, "^{}"@)
            &&& tags.no_duplicates()
            &&& forall|i: int, j: int|
                0 <= i < j < tags.len() ==> rank(#[trigger] tags[i], #[trigger] tags[j])
                    != Rank::Below
        },
{
    if r is Ok {
        let tags = model::texts(r->Ok_0@);
        let lines = model::lines(stdout@);
        let set = choose|set: Seq<Seq<char>>|
            #![trigger newest_first(set)]
            ordered(set) && (forall|tag: Seq<char>| #[trigger]
                set.contains(tag) <==> names_tag(lines, tag)) && tags == newest_first(set);
        law_sorting_keeps_versions(set);
        lemma_same_members(set, tags);
        let p = "refs/tags/"@;
        assert forall|tag: Seq<char>| #[trigger] tags.contains(tag) implies tag.len() > 0
            && exists|i: int|
            0 <= i < lines.len() && #[trigger] model::words(lines[i]).len() >= 2
                && model::starts_with(model::words(lines[i])[1], p + tag) by {
            assert(set.contains(tag));
            assert(names_tag(lines, tag));
            let i = choose|i: int| 0 <= i < lines.len() && tag_of(#[trigger] lines[i]) == Some(tag);
            let w = model::words(lines[i]);
            let name = w[1].skip(p.len() as int);
            lemma_cut_is_prefix(name, "^{}"@);
            assert(w.len() >= 2);
            assert(name.take(tag.len() as int) =~= tag);
            assert(w[1].subrange(0, p.len() as int) == p);
            assert(w[1].subrange(0, (p + tag).len() as int) =~= p + tag) by {
                assert forall|k: int| 0 <= k < (p + tag).len() implies #[trigger] w[1][k] == (p + tag)[k] by {
                    if k < p.len() {
                        assert(w[1].subrange(0, p.len() as int)[k] == w[1][k]);
                    } else {
                        assert(name[k - p.len()] == w[1][k]);
                        assert(name.take(tag.len() as int)[k - p.len()] == tag[k - p.len()]);
                    }
                }
            }
        }
        assert forall|i: int, tag: Seq<char>|
            0 <= i < lines.len() && #[trigger] model::words(lines[i]).len() >= 2 && tag.len() > 0
                && model::words(lines[i])[1] == #[trigger] (p + tag) && !model::ends_with(
                tag,
                "^{}"@,
            ) implies tags.contains(tag) by {
            crate::text_lemmas::lemma_strip_prefix(p, tag);
            assert(model::trim_end_text(tag, "^{}"@) == tag);
            assert(tag_of(lines[i]) == Some(tag));
            assert(names_tag(lines, tag));
            assert(set.contains(tag));
        }
        assert forall|i: int, tag: Seq<char>|
            0 <= i < lines.len() && #[trigger] model::words(lines[i]).len() >= 2 && tag.len() > 0
                && model::words(lines[i])[1] == #[trigger] (p + tag) + "^{}"@ && !model::ends_with(
                tag,
                "^{}"@,
            ) implies tags.contains(tag) by {
            let marked = tag + "^{}"@;
            assert((p + tag) + "^{}"@ =~= p + marked);
            crate::text_lemmas::lemma_strip_prefix(p, marked);
            lemma_mark_is_cut(tag);
            assert(tag_of(lines[i]) == Some(tag));
            assert(names_tag(lines, tag));
            assert(set.contains(tag));
        }
        assert forall|tag: Seq<char>| #[trigger] tags.contains(tag) implies !model::ends_with(
            tag,
            "^{}"@,
        ) by {
            assert(set.contains(tag));
            assert(names_tag(lines, tag));
            let i = choose|i: int| 0 <= i < lines.len() && tag_of(#[trigger] lines[i]) == Some(tag);
            reveal_strlit("^{}");
            lemma_no_mark_is_left(model::words(lines[i])[1].skip(p.len() as int), "^{}"@);
        }
        assert(tags.no_duplicates()) by {
            assert forall|i: int, j: int| 0 <= i < set.len() && 0 <= j < set.len() && i != j implies set[i]
                != set[j] by {
                if i < j {
                    assert(model::precedes(set[i], set[j]));
                } else {
                    assert(model::precedes(set[j], set[i]));
                }
                crate::text_map::lemma_precedes_total(set[i], set[j]);
            }
            assert(set.no_duplicates());
            set.lemma_multiset_has_no_duplicates();
            tags.lemma_multiset_has_no_duplicates_conv();
        }
        assert forall|i: int, j: int| 0 <= i < j < tags.len() implies rank(
            #[trigger] tags[i],
            #[trigger] tags[j],
        ) != Rank::Below by {
            law_sorting_puts_the_newest_first(set, i, j);
        }
    }
}

pub proof fn lemma_same_members(a: Seq<Seq<char>>, b: Seq<Seq<char>>)
    requires
        a.to_multiset() == b.to_multiset(),
    ensures
        forall|x: Seq<char>| #[trigger] b.contains(x) <==> a.contains(x),
{
    assert forall|x: Seq<char>| #[trigger] b.contains(x) <==> a.contains(x) by {
        a.to_multiset_ensures();
        b.to_multiset_ensures();
        assert(a.contains(x) <==> a.to_multiset().count(x) > 0);
        assert(b.contains(x) <==> b.to_multiset().count(x) > 0);
    }
}

proof fn lemma_mark_is_cut(tag: Seq<char>)
    requires
        !model::ends_with(tag, "^{}"@),
    ensures
        model::trim_end_text(tag + "^{}"@, "^{}"@) == tag,
{
    reveal_strlit("^{}");
    let s = tag + "^{}"@;
    let n = s.len() as int;
    assert(s.subrange(n - 3, n) =~= "^{}"@);
    assert(s.take(n - 3) =~= tag);
    assert(model::trim_end_text(tag, "^{}"@) == tag);
}

proof fn lemma_no_mark_is_left(s: Seq<char>, p: Seq<char>)
    requires
        p.len() > 0,
    ensures
        !model::ends_with(model::trim_end_text(s, p), p),
    decreases s.len(),
{
    if model::ends_with(s, p) {
        lemma_no_mark_is_left(s.take(s.len() - p.len()), p);
    }
}

proof fn lemma_cut_is_prefix(s: Seq<char>, p: Seq<char>)
    ensures
        model::trim_end_text(s, p).len() <= s.len(),
        model::trim_end_text(s, p) == s.take(model::trim_end_text(s, p).len() as int),
    decreases s.len(),
{
    if p.len() > 0 && model::ends_with(s, p) {
        let t = s.take(s.len() - p.len());
        lemma_cut_is_prefix(t, p);
        assert(t.take(model::trim_end_text(t, p).len() as int) =~= s.take(
            model::trim_end_text(t, p).len() as int,
        ));
    } else {
        assert(s.take(s.len() as int) =~= s);
    }
}

/// A line that names a commit: its first word has at least seven hexadecimal digits and nothing else,
/// and another word follows.
pub open spec fn commit_line(line: Seq<char>) -> bool {
    &&& model::words(line).len() >= 2
    &&& model::words(line)[0].len() >= 7
    &&& forall|i: int|
        0 <= i < model::words(line)[0].len() ==> {
            let c = #[trigger] model::words(line)[0][i];
            model::digit(c) || 0x61 <= c as u32 <= 0x66 || 0x41 <= c as u32 <= 0x46
        }
}

/// The commit that is read from a remote's answer is the first word of the first line that names
/// one; none is read exactly where no line does.
pub proof fn law_commits_are_read_as_they_stand(output: &str, r: Option<String>, i: int)
    requires
        call_ensures(parse_remote_ref, (output,), r),
        0 <= i <= model::lines(output@).len(),
        forall|k: int| 0 <= k < i ==> !commit_line(#[trigger] model::lines(output@)[k]),
    ensures
        i == model::lines(output@).len() ==> r is None,
        i < model::lines(output@).len() && commit_line(model::lines(output@)[i]) ==> r is Some && (
        r->0)@ == model::words(model::lines(output@)[i])[0],
{
    lemma_first_sha(model::lines(output@), 0, i);
}

proof fn lemma_commit_line(line: Seq<char>)
    ensures
        commit_line(line) <==> model::words(line).len() >= 2 && is_sha(model::words(line)[0]),
{
    if model::words(line).len() >= 2 {
        let w = model::words(line)[0];
        if is_sha(w) {
            assert forall|i: int| 0 <= i < w.len() implies {
                let c = #[trigger] w[i];
                model::digit(c) || 0x61 <= c as u32 <= 0x66 || 0x41 <= c as u32 <= 0x46
            } by {
                assert(hex_digit(w[i]));
            }
        }
        if commit_line(line) {
            assert forall|i: int| 0 <= i < w.len() implies hex_digit(#[trigger] w[i]) by {}
        }
    }
}

proof fn lemma_first_sha(lines: Seq<Seq<char>>, from: int, i: int)
    requires
        0 <= from <= i <= lines.len(),
        forall|k: int| 0 <= k < i ==> !commit_line(#[trigger] lines[k]),
    ensures
        first_sha(lines, from) == if i == lines.len() {
            None
        } else if commit_line(lines[i]) {
            Some(model::words(lines[i])[0])
        } else {
            first_sha(lines, i + 1)
        },
    decreases i - from,
{
    if from < lines.len() {
        lemma_commit_line(lines[from]);
    }
    if from < i {
        lemma_first_sha(lines, from + 1, i);
    }
}

/// Git is where the first line of a successful search says, and nowhere after one that failed.
pub proof fn law_git_is_where_it_was_found(success: bool, stdout: &str, r: Option<String>)
    requires
        call_ensures(git_on_path, (success, stdout), r),
    ensures
        r is Some <==> success && model::lines(stdout@).len() > 0,
        r is Some ==> (r->0)@ == model::trim(model::lines(stdout@)[0]),
{
}

// ---- Shims ----

/// A shim of this launcher that leads nowhere.
pub open spec fn leads_nowhere(shim: (bool, &str, bool)) -> bool {
    &&& shim.0
    &&& model::contains(shim.1@, "github-dsh"@)
    &&& model::contains(shim.1@, "pnpm dsh"@)
    &&& target_of(shim.1@) is None || !shim.2
}

/// The command that is run is the first on the search path that does not lead nowhere, and there is
/// none only where all of them do.
pub proof fn law_the_first_sound_command_is_run(
    paths: &Vec<String>,
    candidates: &[(bool, &str, bool)],
    r: ResolvedDsh,
)
    requires
        paths@.len() == candidates@.len(),
        call_ensures(resolve_dsh, (paths, candidates), r),
    ensures
        r.shim_path is None <==> forall|i: int|
            0 <= i < candidates@.len() ==> leads_nowhere(#[trigger] candidates@[i]),
        r.shim_path is Some ==> exists|i: int|
            0 <= i < candidates@.len() && !leads_nowhere(#[trigger] candidates@[i]) && paths@[i]
                == r.shim_path->0 && (forall|j: int|
                0 <= j < i ==> leads_nowhere(#[trigger] candidates@[j])) && (r.kind is OwnedShimOk
                <==> candidates@[i].0 && model::contains(candidates@[i].1@, "github-dsh"@)
                && model::contains(candidates@[i].1@, "pnpm dsh"@)) && (r.kind is OwnedShimOk
                || r.kind is Foreign),
        r.kind is Missing <==> candidates@.len() == 0,
        r.kind is OwnedShimBroken <==> candidates@.len() > 0 && r.shim_path is None,
{
    lemma_first_usable(candidates@, 0);
    match first_usable(candidates@, 0) {
        Some(i) => {
            assert(!leads_nowhere(candidates@[i]));
            assert(forall|j: int| 0 <= j < i ==> leads_nowhere(#[trigger] candidates@[j]));
        },
        None => {},
    }
}

/// A sweep removes exactly the readable shims of this launcher; a sweep of the stale ones spares
/// those that lead to a usable directory.
pub proof fn law_what_a_sweep_removes(
    sweep: ShimSweep,
    shims: &[(bool, &str, bool)],
    r: Vec<usize>,
    i: int,
)
    requires
        call_ensures(shims_to_remove, (sweep, shims), r),
        0 <= i < shims@.len(),
        shims@.len() <= usize::MAX,
    ensures
        (exists|k: int| 0 <= k < r@.len() && #[trigger] r@[k] == i) <==> {
            &&& shims@[i].0
            &&& model::contains(shims@[i].1@, "github-dsh"@)
            &&& model::contains(shims@[i].1@, "pnpm dsh"@)
            &&& sweep is Owned || target_of(shims@[i].1@) is None || !shims@[i].2
        },
{
    lemma_swept(sweep, shims@, i);
}

proof fn lemma_swept(sweep: ShimSweep, shims: Seq<(bool, &str, bool)>, i: int)
    requires
        shims.len() <= usize::MAX,
        0 <= i,
    ensures
        (exists|k: int|
            0 <= k < swept_positions(sweep, shims).len() && #[trigger] swept_positions(
                sweep,
                shims,
            )[k] == i) <==> i < shims.len() && crate::github::swept(
            sweep,
            shims[i].0,
            shims[i].1@,
            shims[i].2,
        ),
    decreases shims.len(),
{
    let all = swept_positions(sweep, shims);
    if shims.len() > 0 {
        let rest = swept_positions(sweep, shims.drop_last());
        lemma_swept(sweep, shims.drop_last(), i);
        let last = shims.last();
        let taken = crate::github::swept(sweep, last.0, last.1@, last.2);
        if taken {
            assert(all == rest.push((shims.len() - 1) as usize));
            if i == shims.len() - 1 {
                assert(all[rest.len() as int] == i);
            }
        }
        if i < shims.len() - 1 && crate::github::swept(sweep, shims[i].0, shims[i].1@, shims[i].2) {
            assert(shims.drop_last()[i] == shims[i]);
            let k = choose|k: int| 0 <= k < rest.len() && #[trigger] rest[k] == i;
            assert(all[k] == i);
        }
        if exists|k: int| 0 <= k < all.len() && #[trigger] all[k] == i {
            let k = choose|k: int| 0 <= k < all.len() && #[trigger] all[k] == i;
            if k < rest.len() {
                assert(rest[k] == i);
            }
        }
    }
}

/// Of paths that differ only in case one is kept, and each path has one that is kept.
pub proof fn law_paths_are_kept_once(paths: &Vec<String>, r: Vec<String>)
    requires
        call_ensures(distinct_paths, (paths,), r),
    ensures
        forall|i: int|
            0 <= i < paths@.len() ==> exists|k: int|
                0 <= k < r@.len() && lowercase(#[trigger] r@[k]@) == lowercase(
                    (#[trigger] paths@[i])@,
                ),
        forall|k: int, l: int|
            0 <= k < l < r@.len() ==> lowercase(#[trigger] r@[k]@) != lowercase(#[trigger] r@[l]@),
        forall|k: int| 0 <= k < r@.len() ==> model::texts(paths@).contains(#[trigger] r@[k]@),
{
    let all = model::texts(paths@);
    let kept = model::texts(r@);
    lemma_distinct(all);
    assert(kept.len() == r@.len() && all.len() == paths@.len());
    assert forall|i: int| 0 <= i < paths@.len() implies exists|k: int|
        0 <= k < r@.len() && lowercase(#[trigger] r@[k]@) == lowercase((#[trigger] paths@[i])@) by {
        assert(holds_alike(kept, all[i]));
        let k = choose|k: int| 0 <= k < kept.len() && lowercase(#[trigger] kept[k]) == lowercase(all[i]);
        assert(kept[k] == r@[k]@);
    }
    assert forall|k: int, l: int| 0 <= k < l < r@.len() implies lowercase(#[trigger] r@[k]@)
        != lowercase(#[trigger] r@[l]@) by {
        assert(kept[k] == r@[k]@ && kept[l] == r@[l]@);
    }
    assert forall|k: int| 0 <= k < r@.len() implies all.contains(#[trigger] r@[k]@) by {
        assert(kept[k] == r@[k]@);
    }
}

proof fn lemma_distinct(paths: Seq<Seq<char>>)
    ensures
        forall|i: int| 0 <= i < paths.len() ==> holds_alike(distinct(paths), #[trigger] paths[i]),
        forall|k: int, l: int|
            0 <= k < l < distinct(paths).len() ==> lowercase(#[trigger] distinct(paths)[k])
                != lowercase(#[trigger] distinct(paths)[l]),
        forall|k: int|
            0 <= k < distinct(paths).len() ==> paths.contains(#[trigger] distinct(paths)[k]),
    decreases paths.len(),
{
    let all = distinct(paths);
    if paths.len() > 0 {
        let init = paths.drop_last();
        let rest = distinct(init);
        lemma_distinct(init);
        assert forall|i: int| 0 <= i < paths.len() implies holds_alike(all, #[trigger] paths[i]) by {
            if i < init.len() {
                assert(init[i] == paths[i]);
                let k = choose|k: int|
                    0 <= k < rest.len() && lowercase(#[trigger] rest[k]) == lowercase(paths[i]);
                assert(all[k] == rest[k]);
            } else if !holds_alike(rest, paths.last()) {
                assert(all[rest.len() as int] == paths[i]);
            }
        }
        assert forall|k: int| 0 <= k < all.len() implies paths.contains(#[trigger] all[k]) by {
            if k < rest.len() {
                assert(init.contains(rest[k]));
                let i = choose|i: int| 0 <= i < init.len() && init[i] == rest[k];
                assert(paths[i] == all[k]);
            } else {
                assert(paths[paths.len() - 1] == all[k]);
            }
        }
        assert forall|k: int, l: int| 0 <= k < l < all.len() implies lowercase(#[trigger] all[k])
            != lowercase(#[trigger] all[l]) by {
            assert(all[k] == rest[k]);
            if l < rest.len() {
                assert(all[l] == rest[l]);
            }
        }
    }
}

// ---- Progress ----

/// Progress is a percentage; while packages are installed or built it grows with every line that
/// says something, and stays below the end.
pub proof fn law_progress_of_a_stage(stage: SourceStage, percent: u8, line: &str, r: Option<u8>)
    requires
        percent <= 100,
        call_ensures(line_progress, (stage, percent, line), r),
    ensures
        r is Some ==> r->0 <= 100,
        stage is Install || stage is Build ==> {
            &&& r is None <==> model::blank(line@)
            &&& r is Some ==> r->0 <= 95 && (percent < 95 ==> r->0 > percent)
        },
        !(stage is Install || stage is Build || stage is Clone) ==> r is None,
{
}

} // verus!
