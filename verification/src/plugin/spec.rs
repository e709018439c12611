//! Dependency specs of plugins: where a spec points, and whether it is kept in sync automatically.

use crate::model;
use crate::model::CharSet;
use crate::text;
use vstd::prelude::*;

verus! {

/// Where a plugin comes from.
#[derive(Debug, Clone, Copy, PartialEq, Eq, Structural)]
pub enum Origin {
    /// From upstream; kept in sync.
    Upstream,
    /// From this machine; never changed by the synchronisation.
    InHouse,
    /// Not known; not kept in sync.
    Unknown,
}

impl Default for Origin {
    fn default() -> (r: Self)
        ensures
            r == Origin::Unknown,
    {
        Origin::Unknown
    }
}

/// The form of a dependency spec.
#[derive(Debug, Clone, Copy, PartialEq, Eq, Structural)]
pub enum SpecKind {
    /// A package of a registry, with or without a version range.
    Npm,
    /// A git repository.
    Git,
    /// A path on this machine.
    Path,
    /// A tarball on this machine.
    Tarball,
    /// Anything else.
    Unknown,
}

impl Default for SpecKind {
    fn default() -> (r: Self)
        ensures
            r == SpecKind::Unknown,
    {
        SpecKind::Unknown
    }
}

/// What follows the host in the URL of a well-known git host.
pub open spec fn hosted_path(lower: Seq<char>) -> Option<Seq<char>> {
    match model::strip_prefix(lower, "https://github.com/"@) {
        Some(rest) => Some(rest),
        None => match model::strip_prefix(lower, "https://gitlab.com/"@) {
            Some(rest) => Some(rest),
            None => model::strip_prefix(lower, "https://bitbucket.org/"@),
        },
    }
}

/// The segments of a path, once a `#ref`, slashes and `.git` at its end are dropped.
pub open spec fn repo_segments(rest: Seq<char>) -> Seq<Seq<char>> {
    let path = model::trim_end(
        model::before_first(rest, CharSet::Only('#')),
        CharSet::Only('/'),
    );
    model::non_empty(model::split(model::trim_end_text(path, ".git"@), CharSet::Only('/')))
}

/// The URL of a repository at a well-known git host: exactly an owner and a repository.
pub open spec fn hosted_git_url(lower: Seq<char>) -> bool {
    hosted_path(lower) is Some && repo_segments(hosted_path(lower)->0).len() == 2
}

pub fn looks_like_hosted_git_url(lower: &str) -> (b: bool)
    ensures
        b == hosted_git_url(lower@),
{
    let rest = match text::strip_prefix(lower, "https://github.com/") {
        Some(rest) => rest,
        None => match text::strip_prefix(lower, "https://gitlab.com/") {
            Some(rest) => rest,
            None => match text::strip_prefix(lower, "https://bitbucket.org/") {
                Some(rest) => rest,
                None => {
                    return false;
                },
            },
        },
    };
    let path = text::trim_end(
        text::before_first(rest.as_str(), CharSet::Only('#')).as_str(),
        CharSet::Only('/'),
    );
    proof {
        reveal_strlit(".git");
    }
    let path = text::trim_end_text(path.as_str(), ".git");
    let segments = text::non_empty(&text::split(path.as_str(), CharSet::Only('/')));
    proof {
        assert(model::texts(segments@).len() == segments.len());
    }
    segments.len() == 2
}

/// A spec that names a git repository; `lower` is the spec in lower case.
pub open spec fn git_spec(lower: Seq<char>) -> bool {
    ||| model::starts_with(lower, "git+"@)
    ||| model::starts_with(lower, "github:"@)
    ||| model::starts_with(lower, "gitlab:"@)
    ||| model::starts_with(lower, "bitbucket:"@)
    ||| model::starts_with(lower, "git@"@)
    ||| model::starts_with(lower, "ssh://"@)
    ||| model::starts_with(lower, "git://"@)
    ||| model::starts_with(lower, "http"@) && (model::contains(lower, ".git#"@)
        || model::ends_with(lower, ".git"@) || hosted_git_url(lower))
}

pub fn is_git_spec(lower: &str) -> (b: bool)
    ensures
        b == git_spec(lower@),
{
    text::starts_with(lower, "git+") || text::starts_with(lower, "github:") || text::starts_with(
        lower,
        "gitlab:",
    ) || text::starts_with(lower, "bitbucket:") || text::starts_with(lower, "git@")
        || text::starts_with(lower, "ssh://") || text::starts_with(lower, "git://") || (
    text::starts_with(lower, "http") && (text::contains(lower, ".git#") || text::ends_with(
        lower,
        ".git",
    ) || looks_like_hosted_git_url(lower)))
}

/// A relative or absolute path, drive letters and network paths included.
pub open spec fn local_path(spec: Seq<char>) -> bool {
    ||| model::starts_with(spec, "./"@)
    ||| model::starts_with(spec, "../"@)
    ||| model::starts_with(spec, ".\\"@)
    ||| model::starts_with(spec, "..\\"@)
    ||| spec.len() > 0 && (spec[0] == '/' || spec[0] == '\\')
    ||| spec.len() >= 3 && (model::ascii_upper(spec[0]) || model::ascii_lower(spec[0])) && spec[1]
        == ':' && (spec[2] == '\\' || spec[2] == '/')
}

fn is_ascii_letter(c: char) -> (b: bool)
    ensures
        b == (model::ascii_upper(c) || model::ascii_lower(c)),
{
    let n: u32 = c as u32;
    (0x41 <= n && n <= 0x5a) || (0x61 <= n && n <= 0x7a)
}

pub fn is_relative_or_absolute_path(spec: &str) -> (b: bool)
    ensures
        b == local_path(spec@),
{
    if text::starts_with(spec, "./") || text::starts_with(spec, "../") || text::starts_with(
        spec,
        ".\\",
    ) || text::starts_with(spec, "..\\") {
        return true;
    }
    let v = text::chars_of(spec);
    if v.len() > 0 && (v[0] == '/' || v[0] == '\\') {
        return true;
    }
    v.len() >= 3 && is_ascii_letter(v[0]) && v[1] == ':' && (v[2] == '\\' || v[2] == '/')
}

/// The form of a spec and where it comes from.
pub open spec fn classified(spec: Seq<char>) -> (SpecKind, Origin) {
    let trimmed = model::trim(spec);
    let lower = model::lower_ascii(trimmed);
    if trimmed.len() == 0 {
        (SpecKind::Unknown, Origin::Unknown)
    } else if model::starts_with(lower, "link:"@) || model::starts_with(lower, "file:"@) {
        (SpecKind::Path, Origin::InHouse)
    } else if git_spec(lower) {
        (SpecKind::Git, Origin::Upstream)
    } else if model::starts_with(lower, "http://"@) || model::starts_with(lower, "https://"@) {
        (SpecKind::Unknown, Origin::Unknown)
    } else if model::ends_with(lower, ".tgz"@) || model::ends_with(lower, ".tar.gz"@) {
        (SpecKind::Tarball, Origin::InHouse)
    } else if local_path(trimmed) {
        (SpecKind::Path, Origin::InHouse)
    } else if model::starts_with(lower, "workspace:"@) {
        (SpecKind::Unknown, Origin::InHouse)
    } else {
        (SpecKind::Npm, Origin::Upstream)
    }
}

proof fn lemma_hosted_is_http(lower: Seq<char>)
    requires
        hosted_git_url(lower),
    ensures
        model::starts_with(lower, "http"@),
{
    reveal_strlit("http");
    reveal_strlit("https://github.com/");
    reveal_strlit("https://gitlab.com/");
    reveal_strlit("https://bitbucket.org/");
    let p = if model::starts_with(lower, "https://github.com/"@) {
        "https://github.com/"@
    } else if model::starts_with(lower, "https://gitlab.com/"@) {
        "https://gitlab.com/"@
    } else {
        "https://bitbucket.org/"@
    };
    assert(lower.subrange(0, p.len() as int) == p);
    assert(p.subrange(0, 4) =~= "http"@);
    assert(lower.subrange(0, 4) =~= lower.subrange(0, p.len() as int).subrange(0, 4));
}

/// The form of a spec and where it comes from.
pub fn classify(spec: &str) -> (r: (SpecKind, Origin))
    ensures
        r == classified(spec@),
{
    let trimmed = text::trim(spec);
    if trimmed.as_str().is_empty() {
        return (SpecKind::Unknown, Origin::Unknown);
    }
    let low = text::lower_ascii(trimmed.as_str());
    let lower = low.as_str();
    if text::starts_with(lower, "link:") || text::starts_with(lower, "file:") {
        return (SpecKind::Path, Origin::InHouse);
    }
    if is_git_spec(lower) {
        return (SpecKind::Git, Origin::Upstream);
    }
    if text::starts_with(lower, "http://") || text::starts_with(lower, "https://") {
        return (SpecKind::Unknown, Origin::Unknown);
    }
    if text::ends_with(lower, ".tgz") || text::ends_with(lower, ".tar.gz") {
        return (SpecKind::Tarball, Origin::InHouse);
    }
    if is_relative_or_absolute_path(trimmed.as_str()) {
        return (SpecKind::Path, Origin::InHouse);
    }
    if text::starts_with(lower, "workspace:") {
        return (SpecKind::Unknown, Origin::InHouse);
    }
    (SpecKind::Npm, Origin::Upstream)
}

/// A URL of a well-known git host is a git source, with or without `.git` at its end.
pub proof fn law_hosted_urls_are_git(spec: Seq<char>)
    requires
        hosted_git_url(model::lower_ascii(model::trim(spec))),
    ensures
        classified(spec) == (SpecKind::Git, Origin::Upstream),
{
    let lower = model::lower_ascii(model::trim(spec));
    lemma_hosted_is_http(lower);
    reveal_strlit("http");
    reveal_strlit("link:");
    reveal_strlit("file:");
    assert(lower.subrange(0, 4)[0] == lower[0]);
    if model::starts_with(lower, "link:"@) {
        assert(lower.subrange(0, 5)[0] == lower[0]);
    }
    if model::starts_with(lower, "file:"@) {
        assert(lower.subrange(0, 5)[0] == lower[0]);
    }
}

/// A git spec with its short forms written out as a URL.
pub open spec fn git_url(trimmed: Seq<char>) -> Seq<char> {
    let body = match model::strip_prefix(trimmed, "git+"@) {
        Some(rest) => rest,
        None => trimmed,
    };
    match model::strip_prefix(body, "github:"@) {
        Some(rest) => "https://github.com/"@ + rest,
        None => match model::strip_prefix(body, "gitlab:"@) {
            Some(rest) => "https://gitlab.com/"@ + rest,
            None => match model::strip_prefix(body, "bitbucket:"@) {
                Some(rest) => "https://bitbucket.org/"@ + rest,
                None => match model::strip_prefix(body, "git@"@) {
                    Some(rest) => match model::split_once(rest, CharSet::Only(':')) {
                        Some((host, path)) => "ssh://git@"@ + host + "/"@ + path,
                        None => body,
                    },
                    None => body,
                },
            },
        },
    }
}

/// The repository and the reference after its last `#` that a git spec names.
pub open spec fn repo_and_ref(spec: Seq<char>) -> Option<(Seq<char>, Option<Seq<char>>)> {
    let trimmed = model::trim(spec);
    if !git_spec(model::lower_ascii(trimmed)) {
        None
    } else {
        let url = git_url(trimmed);
        match model::rsplit_once(url, CharSet::Only('#')) {
            Some((repo, reference)) => if model::trim(reference).len() > 0 {
                Some((repo, Some(model::trim(reference))))
            } else {
                Some((url, None))
            },
            None => Some((url, None)),
        }
    }
}

fn git_url_of(trimmed: &str) -> (r: String)
    ensures
        r@ == git_url(trimmed@),
{
    let body = match text::strip_prefix(trimmed, "git+") {
        Some(rest) => rest,
        None => trimmed.to_owned(),
    };
    if let Some(rest) = text::strip_prefix(body.as_str(), "github:") {
        return text::cat2("https://github.com/", rest.as_str());
    }
    if let Some(rest) = text::strip_prefix(body.as_str(), "gitlab:") {
        return text::cat2("https://gitlab.com/", rest.as_str());
    }
    if let Some(rest) = text::strip_prefix(body.as_str(), "bitbucket:") {
        return text::cat2("https://bitbucket.org/", rest.as_str());
    }
    if let Some(rest) = text::strip_prefix(body.as_str(), "git@") {
        if let Some((host, path)) = text::split_once(rest.as_str(), CharSet::Only(':')) {
            return text::cat4("ssh://git@", host.as_str(), "/", path.as_str());
        }
    }
    body
}

/// The repository and the reference that a git spec names.
pub fn git_repo_and_ref(spec: &str) -> (r: Option<(String, Option<String>)>)
    ensures
        match r {
            Some((repo, reference)) => repo_and_ref(spec@) == Some(
                (repo@, model::text_of(reference)),
            ),
            None => repo_and_ref(spec@) is None,
        },
{
    let trimmed = text::trim(spec);
    let lower = text::lower_ascii(trimmed.as_str());
    if !is_git_spec(lower.as_str()) {
        return None;
    }
    let url = git_url_of(trimmed.as_str());
    if let Some((repo, reference)) = text::rsplit_once(url.as_str(), CharSet::Only('#')) {
        let name = text::trim(reference.as_str());
        if !name.as_str().is_empty() {
            return Some((repo, Some(name)));
        }
    }
    Some((url, None))
}

pub open spec fn hex_digit(c: char) -> bool {
    model::digit(c) || 0x41 <= c as u32 <= 0x46 || 0x61 <= c as u32 <= 0x66
}

/// A commit hash: 7 to 40 hexadecimal digits.
pub open spec fn commit_hash(reference: Seq<char>) -> bool {
    let value = model::trim(reference);
    7 <= model::byte_len(value) <= 40 && forall|i: int|
        0 <= i < value.len() ==> hex_digit(#[trigger] value[i])
}

fn is_hex_digit(c: char) -> (b: bool)
    ensures
        b == hex_digit(c),
{
    let n: u32 = c as u32;
    (0x30 <= n && n <= 0x39) || (0x41 <= n && n <= 0x46) || (0x61 <= n && n <= 0x66)
}

pub fn is_pinned_commit(reference: &str) -> (b: bool)
    ensures
        b == commit_hash(reference@),
{
    let value = text::trim(reference);
    let n = text::byte_len(value.as_str());
    if n < 7 || n > 40 {
        return false;
    }
    let v = text::chars_of(value.as_str());
    let mut i: usize = 0;
    while i < v.len()
        invariant
            v@ == model::trim(reference@),
            i <= v.len(),
            forall|j: int| 0 <= j < i ==> hex_digit(#[trigger] v@[j]),
        decreases v.len() - i,
    {
        if !is_hex_digit(v[i]) {
            proof {
                assert(!hex_digit(v@[i as int]));
            }
            return false;
        }
        i += 1;
    }
    true
}

/// The package name that a registry or git spec suggests.
pub open spec fn package_name(spec: Seq<char>) -> Option<Seq<char>> {
    match classified(spec).0 {
        SpecKind::Npm => {
            let trimmed = model::trim(spec);
            match model::strip_prefix(trimmed, "@"@) {
                Some(rest) => match model::split_once(rest, CharSet::Only('/')) {
                    Some((scope, tail)) => Some(
                        "@"@ + scope + "/"@ + model::before_first(tail, CharSet::Only('@')),
                    ),
                    None => None,
                },
                None => {
                    let name = model::before_first(trimmed, CharSet::Only('@'));
                    if name.len() > 0 {
                        Some(name)
                    } else {
                        None
                    }
                },
            }
        },
        SpecKind::Git => match repo_and_ref(spec) {
            Some((repo, reference)) => {
                let path = model::trim_end_text(
                    model::trim_end(repo, CharSet::Only('/')),
                    ".git"@,
                );
                let last = model::after_last(path, CharSet::Only('/'));
                if last.len() > 0 {
                    Some(last)
                } else {
                    None
                }
            },
            None => None,
        },
        _ => None,
    }
}

pub fn package_name_from_spec(spec: &str) -> (r: Option<String>)
    ensures
        model::text_of(r) == package_name(spec@),
{
    let (kind, origin) = classify(spec);
    match kind {
        SpecKind::Npm => {
            let trimmed = text::trim(spec);
            match text::strip_prefix(trimmed.as_str(), "@") {
                Some(rest) => match text::split_once(rest.as_str(), CharSet::Only('/')) {
                    Some((scope, tail)) => {
                        let name = text::before_first(tail.as_str(), CharSet::Only('@'));
                        Some(text::cat4("@", scope.as_str(), "/", name.as_str()))
                    },
                    None => None,
                },
                None => {
                    let name = text::before_first(trimmed.as_str(), CharSet::Only('@'));
                    if name.as_str().is_empty() {
                        None
                    } else {
                        Some(name)
                    }
                },
            }
        },
        SpecKind::Git => match git_repo_and_ref(spec) {
            Some((repo, reference)) => {
                let base = text::trim_end(repo.as_str(), CharSet::Only('/'));
                proof {
                    reveal_strlit(".git");
                }
                let path = text::trim_end_text(base.as_str(), ".git");
                let last = text::after_last(path.as_str(), CharSet::Only('/'));
                if last.as_str().is_empty() {
                    None
                } else {
                    Some(last)
                }
            },
            None => None,
        },
        _ => None,
    }
}

/// The commit that a git spec is pinned to.
pub open spec fn pinned(spec: Seq<char>) -> Option<Seq<char>> {
    match repo_and_ref(spec) {
        Some((repo, Some(reference))) => if commit_hash(reference) {
            Some(reference)
        } else {
            None
        },
        _ => None,
    }
}

pub fn pinned_commit(spec: &str) -> (r: Option<String>)
    ensures
        model::text_of(r) == pinned(spec@),
{
    match git_repo_and_ref(spec) {
        Some((repo, Some(reference))) => if is_pinned_commit(reference.as_str()) {
            Some(reference)
        } else {
            None
        },
        _ => None,
    }
}

/// A version range or a release tag, as against a package name.
pub open spec fn version_range(s: Seq<char>) -> bool {
    ||| s.len() > 0 && (model::digit(s[0]) || s[0] == '^' || s[0] == '~' || s[0] == '>' || s[0]
        == '<' || s[0] == '=' || s[0] == '*' || s[0] == 'v')
    ||| s == "latest"@
    ||| s == "next"@
    ||| s == "beta"@
    ||| s == "alpha"@
}

/// A name with its range, `name@range`: an `@` stands behind the first character.
pub open spec fn names_package(s: Seq<char>) -> bool {
    model::first_in(s, CharSet::Only('@'), 1) < s.len()
}

/// The spec with which a dependency can be installed again: a bare range gets the name of its
/// package, and a spec that is whole already stays as it is.
pub open spec fn installable(package: Seq<char>, spec: Seq<char>) -> Seq<char> {
    let trimmed = model::trim(spec);
    if classified(trimmed).0 == SpecKind::Npm && version_range(trimmed) && !names_package(trimmed) {
        package + "@"@ + trimmed
    } else {
        trimmed
    }
}

pub fn full_spec(package: &str, spec: &str) -> (r: String)
    ensures
        r@ == installable(package@, spec@),
{
    let trimmed = text::trim(spec);
    let (kind, origin) = classify(trimmed.as_str());
    if kind != SpecKind::Npm {
        return trimmed;
    }
    let v = text::chars_of(trimmed.as_str());
    if v.len() > 0 && text::first_in(&v, CharSet::Only('@'), 1) < v.len() {
        return trimmed;
    }
    let range = (v.len() > 0 && (CharSet::Digit.test(v[0]) || v[0] == '^' || v[0] == '~' || v[0]
        == '>' || v[0] == '<' || v[0] == '=' || v[0] == '*' || v[0] == 'v')) || text::same(
        trimmed.as_str(),
        "latest",
    ) || text::same(trimmed.as_str(), "next") || text::same(trimmed.as_str(), "beta")
        || text::same(trimmed.as_str(), "alpha");
    if range {
        text::cat3(package, "@", trimmed.as_str())
    } else {
        trimmed
    }
}

} // verus!
