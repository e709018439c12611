//! What holds of every dependency spec: where it comes from, and what it names.

use crate::model;
use crate::model::CharSet;
use crate::plugin::spec::{
    classify, full_spec, git_repo_and_ref, git_spec, package_name_from_spec, pinned_commit,
    Origin, SpecKind,
};
use crate::text_lemmas::{lemma_first_in_none, lemma_strip_prefix, lemma_trim_nothing};
use vstd::prelude::*;

verus! {

/// A text begins with another, whatever the case of its letters.
pub open spec fn begins(s: Seq<char>, lower: Seq<char>) -> bool {
    model::starts_with(model::lower_ascii(s), lower)
}

/// What lies on this machine is the user's own: a link, a file, a path and a tarball never count as
/// coming from upstream.
pub proof fn law_local_specs_are_in_house(spec: &str, r: (SpecKind, Origin))
    requires
        call_ensures(classify, (spec,), r),
    ensures
        ({
            let t = model::trim(spec@);
            &&& begins(t, "link:"@) || begins(t, "file:"@) ==> r.0 is Path && r.1 is InHouse
            &&& t.len() > 0 && (t[0] == '/' || t[0] == '\\') ==> r.1 is InHouse
            &&& model::starts_with(t, "./"@) || model::starts_with(t, "../"@) || model::starts_with(
                t,
                ".\\"@,
            ) || model::starts_with(t, "..\\"@) ==> r.1 is InHouse
            &&& begins(t, "workspace:"@) ==> r.1 is InHouse
            &&& r.1 is Upstream ==> r.0 is Npm || r.0 is Git
            &&& r.0 is Npm || r.0 is Git ==> r.1 is Upstream
            &&& t.len() == 0 ==> r.1 is Unknown && r.0 is Unknown
        }),
{
    let t = model::trim(spec@);
    let low = model::lower_ascii(t);
    reveal_strlit("link:");
    reveal_strlit("file:");
    reveal_strlit("git+");
    reveal_strlit("github:");
    reveal_strlit("gitlab:");
    reveal_strlit("bitbucket:");
    reveal_strlit("git@");
    reveal_strlit("ssh://");
    reveal_strlit("git://");
    reveal_strlit("http");
    reveal_strlit("http://");
    reveal_strlit("https://");
    reveal_strlit("./");
    reveal_strlit("../");
    reveal_strlit(".\\");
    reveal_strlit("..\\");
    reveal_strlit("workspace:");
    if t.len() > 0 {
        assert(low[0] == model::lower_ascii_char(t[0]));
    }
    lemma_first_char(low, "link:"@);
    lemma_first_char(low, "file:"@);
    lemma_first_char(low, "git+"@);
    lemma_first_char(low, "github:"@);
    lemma_first_char(low, "gitlab:"@);
    lemma_first_char(low, "bitbucket:"@);
    lemma_first_char(low, "git@"@);
    lemma_first_char(low, "ssh://"@);
    lemma_first_char(low, "git://"@);
    lemma_first_char(low, "http"@);
    lemma_first_char(low, "http://"@);
    lemma_first_char(low, "https://"@);
    lemma_first_char(low, "workspace:"@);
    lemma_first_char(t, "./"@);
    lemma_first_char(t, "../"@);
    lemma_first_char(t, ".\\"@);
    lemma_first_char(t, "..\\"@);
}

proof fn lemma_first_char(s: Seq<char>, p: Seq<char>)
    requires
        p.len() > 0,
    ensures
        model::starts_with(s, p) ==> s.len() > 0 && s[0] == p[0],
{
    if model::starts_with(s, p) {
        assert(s.subrange(0, p.len() as int)[0] == s[0]);
    }
}

/// The short and the long forms of a repository are git sources from upstream.
pub proof fn law_repositories_are_upstream(spec: &str, r: (SpecKind, Origin))
    requires
        call_ensures(classify, (spec,), r),
    ensures
        ({
            let t = model::trim(spec@);
            begins(t, "github:"@) || begins(t, "gitlab:"@) || begins(t, "bitbucket:"@) || begins(
                t,
                "git+"@,
            ) || begins(t, "git@"@) || begins(t, "ssh://"@) || begins(t, "git://"@) ==> r.0 is Git
                && r.1 is Upstream
        }),
{
    let low = model::lower_ascii(model::trim(spec@));
    reveal_strlit("link:");
    reveal_strlit("file:");
    reveal_strlit("git+");
    reveal_strlit("github:");
    reveal_strlit("gitlab:");
    reveal_strlit("bitbucket:");
    reveal_strlit("git@");
    reveal_strlit("ssh://");
    reveal_strlit("git://");
    lemma_first_char(low, "link:"@);
    lemma_first_char(low, "file:"@);
    lemma_first_char(low, "git+"@);
    lemma_first_char(low, "github:"@);
    lemma_first_char(low, "gitlab:"@);
    lemma_first_char(low, "bitbucket:"@);
    lemma_first_char(low, "git@"@);
    lemma_first_char(low, "ssh://"@);
    lemma_first_char(low, "git://"@);
}

/// A name without a colon that is neither a path nor a tarball nor begins like an address is a
/// package of the registry, and comes from upstream.
pub proof fn law_plain_names_are_packages(spec: &str, r: (SpecKind, Origin))
    requires
        call_ensures(classify, (spec,), r),
        ({
            let t = model::trim(spec@);
            &&& t.len() > 0
            &&& forall|i: int| 0 <= i < t.len() ==> #[trigger] t[i] != ':' && t[i] != '\\'
            &&& t[0] != '/' && t[0] != '.'
            &&& !begins(t, "git+"@) && !begins(t, "git@"@) && !begins(t, "http"@)
            &&& !model::ends_with(model::lower_ascii(t), ".tgz"@) && !model::ends_with(
                model::lower_ascii(t),
                ".tar.gz"@,
            )
        }),
    ensures
        r.0 is Npm && r.1 is Upstream,
{
    let t = model::trim(spec@);
    let low = model::lower_ascii(t);
    assert forall|i: int| 0 <= i < low.len() implies #[trigger] low[i] != ':' by {
        assert(low[i] == model::lower_ascii_char(t[i]));
    }
    reveal_strlit("link:");
    reveal_strlit("file:");
    reveal_strlit("github:");
    reveal_strlit("gitlab:");
    reveal_strlit("bitbucket:");
    reveal_strlit("ssh://");
    reveal_strlit("git://");
    reveal_strlit("http://");
    reveal_strlit("https://");
    reveal_strlit("http");
    reveal_strlit("workspace:");
    reveal_strlit("./");
    reveal_strlit("../");
    reveal_strlit(".\\");
    reveal_strlit("..\\");
    lemma_colon(low, "link:"@, 4);
    lemma_colon(low, "file:"@, 4);
    lemma_colon(low, "github:"@, 6);
    lemma_colon(low, "gitlab:"@, 6);
    lemma_colon(low, "bitbucket:"@, 9);
    lemma_colon(low, "ssh://"@, 3);
    lemma_colon(low, "git://"@, 3);
    lemma_colon(low, "http://"@, 4);
    lemma_colon(low, "https://"@, 5);
    lemma_colon(low, "workspace:"@, 9);
    lemma_first_char(t, "./"@);
    lemma_first_char(t, "../"@);
    lemma_first_char(t, ".\\"@);
    lemma_first_char(t, "..\\"@);
    if t.len() >= 3 {
        assert(t[1] != ':');
    }
    assert(t[0] != '\\');
}

proof fn lemma_colon(s: Seq<char>, p: Seq<char>, i: int)
    requires
        0 <= i < p.len(),
        p[i] == ':',
        forall|j: int| 0 <= j < s.len() ==> #[trigger] s[j] != ':',
    ensures
        !model::starts_with(s, p),
{
    if model::starts_with(s, p) {
        assert(s.subrange(0, p.len() as int)[i] == s[i]);
    }
}

/// What a short form stands for: the repository at its host, at the reference behind the `#`.
pub proof fn law_short_forms_name_a_repository(
    spec: &str,
    r: Option<(String, Option<String>)>,
    path: Seq<char>,
    reference: Seq<char>,
)
    requires
        call_ensures(git_repo_and_ref, (spec,), r),
        reference.len() > 0,
        forall|i: int|
            0 <= i < reference.len() ==> #[trigger] reference[i] != '#' && !model::white(
                reference[i],
            ),
        spec@ == "github:"@ + path + "#"@ + reference,
    ensures
        r is Some,
        (r->0).0@ == "https://github.com/"@ + path,
        model::text_of((r->0).1) == Some(reference),
{
    let rest = path + "#"@ + reference;
    assert(spec@ =~= "github:"@ + rest);
    assert(rest.last() == reference[reference.len() - 1]);
    lemma_short_form(spec@, rest);
    let repo = "https://github.com/"@ + path;
    lemma_at_reference(repo, reference);
    assert("https://github.com/"@ + rest =~= repo + "#"@ + reference);
}

proof fn lemma_short_form(s: Seq<char>, rest: Seq<char>)
    requires
        s == "github:"@ + rest,
        rest.len() > 0,
        !model::white(rest.last()),
    ensures
        model::trim(s) == s,
        git_spec(model::lower_ascii(s)),
        crate::plugin::spec::git_url(s) == "https://github.com/"@ + rest,
{
    reveal_strlit("github:");
    reveal_strlit("git+");
    assert(s[0] == 'g' && s.last() == rest.last());
    lemma_trim_nothing(s, CharSet::White);
    let low = model::lower_ascii(s);
    assert(s[1] == 'i' && s[2] == 't' && s[3] == 'h' && s[4] == 'u' && s[5] == 'b' && s[6] == ':');
    assert(low.subrange(0, 7) =~= "github:"@);
    assert(model::starts_with(low, "github:"@));
    assert(model::strip_prefix(s, "git+"@) is None) by {
        if model::starts_with(s, "git+"@) {
            assert(s.subrange(0, 4)[3] == s[3]);
        }
    }
    lemma_strip_prefix("github:"@, rest);
}

proof fn lemma_at_reference(repo: Seq<char>, reference: Seq<char>)
    requires
        reference.len() > 0,
        forall|i: int|
            0 <= i < reference.len() ==> #[trigger] reference[i] != '#' && !model::white(
                reference[i],
            ),
    ensures
        model::rsplit_once(repo + "#"@ + reference, CharSet::Only('#')) == Some((repo, reference)),
        model::trim(reference) == reference,
{
    reveal_strlit("#");
    let url = repo + "#"@ + reference;
    let n = reference.len() as int;
    crate::plugin::sync_laws::lemma_last_hash(repo, reference);
    assert(url.take(repo.len() as int) =~= repo);
    assert(url.skip(repo.len() as int + 1) =~= reference);
    assert(!model::white(reference[0]) && !model::white(reference[n - 1]));
    lemma_trim_nothing(reference, CharSet::White);
}

/// Only a reference of 7 to 40 hexadecimal digits pins a source, and the commit is that reference.
pub proof fn law_pins_are_commits(spec: &str, r: Option<String>, parts: Option<(String, Option<String>)>)
    requires
        call_ensures(pinned_commit, (spec,), r),
        call_ensures(git_repo_and_ref, (spec,), parts),
    ensures
        r is Some ==> parts is Some && (parts->0).1 is Some && (r->0)@ == ((parts->0).1->0)@,
        r is Some ==> 7 <= model::byte_len(model::trim((r->0)@)) <= 40 && forall|i: int|
            0 <= i < model::trim((r->0)@).len() ==> model::digit(
                #[trigger] model::trim((r->0)@)[i],
            ) || 0x61 <= model::trim((r->0)@)[i] as u32 <= 0x66 || 0x41 <= model::trim(
                (r->0)@,
            )[i] as u32 <= 0x46,
        parts is None || (parts->0).1 is None ==> r is None,
{
    if r is Some {
        let v = model::trim((r->0)@);
        assert forall|i: int| 0 <= i < v.len() implies model::digit(#[trigger] v[i]) || 0x61 <= v[i] as u32
            <= 0x66 || 0x41 <= v[i] as u32 <= 0x46 by {
            assert(crate::plugin::spec::hex_digit(v[i]));
        }
    }
}

/// The package that a registry spec names is what stands before its version.
pub proof fn law_names_stand_before_versions(
    spec: &str,
    r: Option<String>,
    class: (SpecKind, Origin),
    name: Seq<char>,
    rest: Seq<char>,
)
    requires
        call_ensures(package_name_from_spec, (spec,), r),
        call_ensures(classify, (spec,), class),
        class.0 is Npm,
        name.len() > 0,
        name[0] != '@',
        forall|i: int| 0 <= i < name.len() ==> #[trigger] name[i] != '@',
        model::trim(spec@) == name || model::trim(spec@) == name + seq!['@'] + rest,
    ensures
        model::text_of(r) == Some(name),
{
    let t = model::trim(spec@);
    let k = CharSet::Only('@');
    reveal_strlit("@");
    assert(t[0] == name[0]);
    assert(model::strip_prefix(t, "@"@) is None) by {
        if model::starts_with(t, "@"@) {
            assert(t.subrange(0, 1)[0] == t[0]);
        }
    }
    lemma_stop(t, name, rest, '@');
}

proof fn lemma_stop(t: Seq<char>, name: Seq<char>, rest: Seq<char>, c: char)
    requires
        forall|i: int| 0 <= i < name.len() ==> #[trigger] name[i] != c,
        t == name || t == name + seq![c] + rest,
    ensures
        model::before_first(t, CharSet::Only(c)) == name,
{
    let k = CharSet::Only(c);
    model::lemma_first_in(t, k, 0);
    let n = model::first_in(t, k, 0);
    if n < name.len() {
        assert(t[n] == name[n]);
    }
    if t != name {
        assert(t[name.len() as int] == c);
        if n > name.len() {
            assert(!k.has(t[name.len() as int]));
        }
    }
    assert(n == name.len());
    assert(t.take(n) =~= name);
}

/// A scoped name keeps its scope.
pub proof fn law_scopes_belong_to_names(
    spec: &str,
    r: Option<String>,
    class: (SpecKind, Origin),
    scope: Seq<char>,
    name: Seq<char>,
    rest: Seq<char>,
)
    requires
        call_ensures(package_name_from_spec, (spec,), r),
        call_ensures(classify, (spec,), class),
        class.0 is Npm,
        forall|i: int| 0 <= i < scope.len() ==> #[trigger] scope[i] != '/',
        forall|i: int| 0 <= i < name.len() ==> #[trigger] name[i] != '@',
        model::trim(spec@) == "@"@ + scope + "/"@ + name || model::trim(spec@) == "@"@ + scope + "/"@
            + name + "@"@ + rest,
    ensures
        model::text_of(r) == Some("@"@ + scope + "/"@ + name),
{
    let t = model::trim(spec@);
    reveal_strlit("@");
    reveal_strlit("/");
    let tail = if t == "@"@ + scope + "/"@ + name {
        name
    } else {
        name + seq!['@'] + rest
    };
    let behind = scope + seq!['/'] + tail;
    assert(t =~= "@"@ + behind);
    lemma_strip_prefix("@"@, behind);
    let k = CharSet::Only('/');
    model::lemma_first_in(behind, k, 0);
    let n = model::first_in(behind, k, 0);
    if n < scope.len() {
        assert(behind[n] == scope[n]);
    }
    assert(behind[scope.len() as int] == '/');
    assert(n == scope.len());
    assert(behind.take(n) =~= scope);
    assert(behind.skip(n + 1) =~= tail);
    lemma_stop(tail, name, rest, '@');
}

/// A version gets the name of its package; what names a package or a source already stays.
pub proof fn law_versions_get_their_package(
    package: &str,
    spec: &str,
    r: String,
    trimmed: &str,
    class: (SpecKind, Origin),
)
    requires
        call_ensures(full_spec, (package, spec), r),
        trimmed@ == model::trim(spec@),
        call_ensures(classify, (trimmed,), class),
    ensures
        !(class.0 is Npm) ==> r@ == model::trim(spec@),
        r@ == model::trim(spec@) || r@ == package@ + "@"@ + model::trim(spec@),
        class.0 is Npm && trimmed@.len() > 0 && model::digit(trimmed@[0]) && (forall|i: int|
            1 <= i < trimmed@.len() ==> #[trigger] trimmed@[i] != '@') ==> r@ == package@ + "@"@
            + trimmed@,
        (exists|i: int| 1 <= i < trimmed@.len() && #[trigger] trimmed@[i] == '@') ==> r@ == trimmed@,
{
    let t = trimmed@;
    let k = CharSet::Only('@');
    if t.len() > 0 {
        model::lemma_first_in(t, k, 1);
        if forall|i: int| 1 <= i < t.len() ==> #[trigger] t[i] != '@' {
            lemma_first_in_none(t, k, 1);
        }
        if exists|i: int| 1 <= i < t.len() && #[trigger] t[i] == '@' {
            let i = choose|i: int| 1 <= i < t.len() && #[trigger] t[i] == '@';
            if model::first_in(t, k, 1) == t.len() {
                assert(!k.has(t[i]));
            }
        }
    }
}

} // verus!
