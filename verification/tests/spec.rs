use dsh_launcher::plugin::spec::{
    classify, full_spec, git_repo_and_ref, is_git_spec, is_pinned_commit,
    is_relative_or_absolute_path, looks_like_hosted_git_url, package_name_from_spec,
    pinned_commit, Origin, SpecKind,
};

#[test]
fn test_classify_upstream_and_inhouse() {
    assert_eq!(classify("dsh-cost-meter@^1.7.13"), (SpecKind::Npm, Origin::Upstream));
    assert_eq!(classify("dshmarket"), (SpecKind::Npm, Origin::Upstream));
    assert_eq!(
        classify("github:owner/repo#0123456789abcdef0123456789abcdef01234567"),
        (SpecKind::Git, Origin::Upstream)
    );
    assert_eq!(
        classify("git+https://github.com/o/r.git#main"),
        (SpecKind::Git, Origin::Upstream)
    );
    assert_eq!(classify("link:D:\\work\\my-plugin"), (SpecKind::Path, Origin::InHouse));
    assert_eq!(classify("file:../local-plugin"), (SpecKind::Path, Origin::InHouse));
    assert_eq!(classify("./hello-plugin"), (SpecKind::Path, Origin::InHouse));
    assert_eq!(classify("/opt/plugin"), (SpecKind::Path, Origin::InHouse));
    assert_eq!(classify("C:\\work\\p"), (SpecKind::Path, Origin::InHouse));
    assert_eq!(classify("./dist/pkg-1.0.0.tgz"), (SpecKind::Tarball, Origin::InHouse));
    assert_eq!(
        classify("https://example.com/pkg.tgz"),
        (SpecKind::Unknown, Origin::Unknown)
    );
    assert_eq!(classify(""), (SpecKind::Unknown, Origin::Unknown));
}

#[test]
fn test_hosted_git_url_without_dot_git() {
    assert_eq!(
        classify("https://github.com/dsh-market/dsh-market"),
        (SpecKind::Git, Origin::Upstream)
    );
    assert_eq!(classify("https://gitlab.com/o/r"), (SpecKind::Git, Origin::Upstream));
    assert_eq!(classify("https://bitbucket.org/o/r"), (SpecKind::Git, Origin::Upstream));
    assert_eq!(classify("https://github.com/o/r.git"), (SpecKind::Git, Origin::Upstream));
    assert_eq!(classify("https://github.com/o/r#abc1234"), (SpecKind::Git, Origin::Upstream));
    assert_eq!(
        package_name_from_spec("https://github.com/dsh-market/dsh-market").as_deref(),
        Some("dsh-market")
    );
    assert_eq!(
        git_repo_and_ref("https://github.com/dsh-market/dsh-market"),
        Some(("https://github.com/dsh-market/dsh-market".to_string(), None))
    );
    assert_eq!(
        classify("https://github.com/o/r/releases/download/v1/x.tgz"),
        (SpecKind::Unknown, Origin::Unknown)
    );
    assert_eq!(
        classify("https://example.com/owner/repo"),
        (SpecKind::Unknown, Origin::Unknown)
    );
    assert_eq!(
        classify("https://gitea.example.com/o/r"),
        (SpecKind::Unknown, Origin::Unknown)
    );
}

#[test]
fn test_git_repo_normalization() {
    assert_eq!(
        git_repo_and_ref("github:owner/repo#abc1234"),
        Some(("https://github.com/owner/repo".to_string(), Some("abc1234".to_string())))
    );
    assert_eq!(
        git_repo_and_ref("git+https://github.com/o/r.git#main"),
        Some(("https://github.com/o/r.git".to_string(), Some("main".to_string())))
    );
    assert_eq!(
        git_repo_and_ref("git@github.com:o/r.git"),
        Some(("ssh://git@github.com/o/r.git".to_string(), None))
    );
    assert_eq!(git_repo_and_ref("dshmarket"), None);
}

#[test]
fn test_pinned_commit() {
    assert!(is_pinned_commit("0123456789abcdef0123456789abcdef01234567"));
    assert!(is_pinned_commit("abc1234"));
    assert!(!is_pinned_commit("main"));
    assert!(!is_pinned_commit("abc12"));
    assert_eq!(
        pinned_commit("github:o/r#0123456789abcdef0123456789abcdef01234567").as_deref(),
        Some("0123456789abcdef0123456789abcdef01234567")
    );
    assert_eq!(pinned_commit("github:o/r#main"), None);
}

#[test]
fn test_full_spec() {
    assert_eq!(full_spec("dsh-cost-meter", "^1.7.13"), "dsh-cost-meter@^1.7.13");
    assert_eq!(full_spec("dshmarket", "latest"), "dshmarket@latest");
    assert_eq!(full_spec("@s/p", "~0.3.17"), "@s/p@~0.3.17");
    assert_eq!(
        full_spec("dsh-cost-meter", "dsh-cost-meter@^1.7.13"),
        "dsh-cost-meter@^1.7.13"
    );
    assert_eq!(full_spec("p", "github:o/r#abc1234"), "github:o/r#abc1234");
    assert_eq!(full_spec("p", "link:../p"), "link:../p");
}

#[test]
fn whole_specs_stay_whole() {
    assert_eq!(full_spec("vite-x", "vite-x@^1.0.0"), "vite-x@^1.0.0");
    assert_eq!(full_spec("7zip", " 7zip@latest "), "7zip@latest");
    assert_eq!(full_spec("vite-x", "v1.0.0"), "vite-x@v1.0.0");
    assert_eq!(full_spec("@s/p", "@s/p@1"), "@s/p@1");
}

#[test]
fn test_package_name_from_spec() {
    assert_eq!(package_name_from_spec("dshmarket").as_deref(), Some("dshmarket"));
    assert_eq!(package_name_from_spec("@scope/pkg@^1.0.0").as_deref(), Some("@scope/pkg"));
    assert_eq!(
        package_name_from_spec("github:owner/my-plugin#main").as_deref(),
        Some("my-plugin")
    );
    assert_eq!(package_name_from_spec("link:../x"), None);
}

#[test]
fn letter_case_does_not_count() {
    assert_eq!(classify("GitHub:o/r"), (SpecKind::Git, Origin::Upstream));
    assert_eq!(classify("HTTPS://GITHUB.COM/o/r"), (SpecKind::Git, Origin::Upstream));
    assert_eq!(classify("./A.TGZ"), (SpecKind::Tarball, Origin::InHouse));
}

#[test]
fn hosted_urls_are_git_specs() {
    assert!(looks_like_hosted_git_url("https://gitlab.com/o/r"));
    assert!(!looks_like_hosted_git_url("https://gitlab.com/o"));
    assert!(is_git_spec("ssh://git@h/o/r"));
    assert!(!is_git_spec("pkg"));
    assert!(is_relative_or_absolute_path("../x"));
    assert!(!is_relative_or_absolute_path("x/y"));
}
