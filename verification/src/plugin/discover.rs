//! What is shown where a profile or its configuration cannot be read.

use crate::model;
use crate::plugin::patch_file::{ailment, inspect_patch_file};
use crate::plugin::service::PluginList;
use crate::plugin::state::{not_found_error, PluginError, PluginErrorKind};
use crate::text;
use vstd::prelude::*;

verus! {

/// A profile that was never used cannot be listed.
pub fn require_profile(profile: &str, dir: &str, initialised: bool) -> (r: Result<(), PluginError>)
    ensures
        r is Ok == initialised,
        r is Err ==> r->Err_0@ == not_found_error(
            "profile "@ + profile@ + " 尚未初始化（"@ + dir@ + " 不存在）；请先启动一次 dsh 或安装插件"@,
        ),
{
    if initialised {
        Ok(())
    } else {
        Err(
            PluginError::not_found(
                text::cat5(
                    "profile ",
                    profile,
                    " 尚未初始化（",
                    dir,
                    " 不存在）；请先启动一次 dsh 或安装插件",
                ),
            ),
        )
    }
}

/// A profile that was never used cannot be synchronised.
pub fn require_profile_for_sync(profile: &str, initialised: bool) -> (r: Result<(), PluginError>)
    ensures
        r is Ok == initialised,
        r is Err ==> r->Err_0@ == not_found_error(
            "profile "@ + profile@ + " 尚未初始化，无法同步插件"@,
        ),
{
    if initialised {
        Ok(())
    } else {
        Err(
            PluginError::not_found(
                text::cat3("profile ", profile, " 尚未初始化，无法同步插件"),
            ),
        )
    }
}

/// What is said where the configuration cannot be read: where the patch file is damaged, that it is.
pub open spec fn diagnosis(error: Seq<char>, patch: Option<Seq<char>>) -> Seq<char> {
    match patch {
        None => error,
        Some(content) => match ailment(content) {
            None => error,
            Some(reason) => "profile patch 文件结构损坏（"@ + reason
                + "）。dsh 因此无法启动/枚举插件。                         可在本面板点击「修复配置文件」（自动备份原文件后重建），或手工修复后重试。                         原始错误："@
                + error,
        },
    }
}

/// Whether a list of plugins can be shown without the configuration, and what is said of it: not
/// where the service itself is missing. `patch` is the content of the patch file, where there is one.
pub fn degrade(error: PluginError, patch: Option<&str>) -> (r: Result<String, PluginError>)
    ensures
        if error.kind == PluginErrorKind::DshNotInstalled {
            r is Err && r->Err_0 == error
        } else {
            r is Ok && r->Ok_0@ == diagnosis(error.message@, model::slice_of(patch))
        },
{
    if matches!(error.kind, PluginErrorKind::DshNotInstalled) {
        return Err(error);
    }
    match inspect_patch_file(patch) {
        None => Ok(error.message),
        Some(reason) => Ok(
            text::cat4(
                "profile patch 文件结构损坏（",
                reason.as_str(),
                "）。dsh 因此无法启动/枚举插件。                         可在本面板点击「修复配置文件」（自动备份原文件后重建），或手工修复后重试。                         原始错误：",
                error.message.as_str(),
            ),
        ),
    }
}

/// The list that is shown: a profile that was never used has no plugins, which is no error.
pub fn plugin_list(profile: &str, list: Result<PluginList, PluginError>) -> (r: Result<
    PluginList,
    PluginError,
>)
    ensures
        match list {
            Ok(l) => r == Ok::<PluginList, PluginError>(l),
            Err(e) => if e.kind == PluginErrorKind::NotFound {
                &&& r is Ok
                &&& r->Ok_0.profile@ == profile@
                &&& r->Ok_0.plugins@.len() == 0
                &&& r->Ok_0.degraded_reason == Some(e.message)
            } else {
                r == Err::<PluginList, PluginError>(e)
            },
        },
{
    match list {
        Ok(l) => Ok(l),
        Err(e) => if matches!(e.kind, PluginErrorKind::NotFound) {
            Ok(
                PluginList {
                    profile: profile.to_owned(),
                    plugins: Vec::new(),
                    degraded_reason: Some(e.message),
                },
            )
        } else {
            Err(e)
        },
    }
}

/// What is said where the patch file needs no repair; `None` where it does.
pub fn needs_no_repair(path: &str, content: Option<&str>) -> (r: Option<Result<String, String>>)
    ensures
        match content {
            None => r matches Some(Err(m)) && m@ == path@ + " 不存在，无需修复"@,
            Some(c) => match ailment(c@) {
                None => r matches Some(Ok(m)) && m@ == path@ + " 结构正常，无需修复"@,
                Some(_) => r is None,
            },
        },
{
    match content {
        None => Some(Err(text::cat2(path, " 不存在，无需修复"))),
        Some(_) => match inspect_patch_file(content) {
            None => Some(Ok(text::cat2(path, " 结构正常，无需修复"))),
            Some(_) => None,
        },
    }
}

/// A package that is named; an empty name stands for all packages.
pub fn named_package(package: Option<String>) -> (r: Option<String>)
    ensures
        r == if package is Some && package->0@.len() > 0 {
            package
        } else {
            None
        },
{
    match package {
        Some(p) => if p.as_str().is_empty() {
            None
        } else {
            Some(p)
        },
        None => None,
    }
}

} // verus!
