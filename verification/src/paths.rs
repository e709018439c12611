//! Where things are kept, as Windows paths.

use crate::model;
use crate::text;
use vstd::prelude::*;

verus! {

pub open spec fn separator(c: char) -> bool {
    c == '\\' || c == '/'
}

/// A drive without a directory.
pub open spec fn drive(base: Seq<char>) -> bool {
    base.len() == 2 && (model::ascii_upper(base[0]) || model::ascii_lower(base[0])) && base[1] == ':'
}

/// A name below a directory.
pub open spec fn below(base: Seq<char>, name: Seq<char>) -> Seq<char> {
    if base.len() == 0 || separator(base.last()) || drive(base) {
        base + name
    } else {
        base + "\\"@ + name
    }
}

/// A relative name below a directory.
pub fn join(base: &str, name: &str) -> (r: String)
    ensures
        r@ == below(base@, name@),
{
    let v = text::chars_of(base);
    let n = v.len();
    if n == 0 {
        return text::cat2(base, name);
    }
    let last = v[n - 1];
    if last == '\\' || last == '/' {
        return text::cat2(base, name);
    }
    if n == 2 && v[1] == ':' {
        let first: u32 = v[0] as u32;
        if (0x41 <= first && first <= 0x5a) || (0x61 <= first && first <= 0x7a) {
            return text::cat2(base, name);
        }
    }
    text::cat3(base, "\\", name)
}

/// A directory of the system; the current one where it is not set.
pub open spec fn base_dir(dir: Option<Seq<char>>) -> Seq<char> {
    match dir {
        Some(d) => d,
        None => "."@,
    }
}

fn base_of<'a>(dir: Option<&'a str>) -> (r: &'a str)
    ensures
        r@ == base_dir(model::slice_of(dir)),
{
    match dir {
        Some(d) => d,
        None => ".",
    }
}

/// The launcher's own directory below a directory of the system.
pub open spec fn own_dir(dir: Option<Seq<char>>) -> Seq<char> {
    below(base_dir(dir), "dsh-launcher"@)
}

/// The file of the settings, below the directory for settings.
pub fn config_path(app_data: Option<&str>) -> (r: String)
    ensures
        r@ == below(own_dir(model::slice_of(app_data)), "config.json"@),
{
    join(join(base_of(app_data), "dsh-launcher").as_str(), "config.json")
}

/// The directory of installed sources.
pub fn github_clone_dir(local: Option<&str>) -> (r: String)
    ensures
        r@ == below(
            below(own_dir(model::slice_of(local)), "github-dsh"@),
            "deepseek-harness"@,
        ),
{
    join(github_dsh_dir(local).as_str(), "deepseek-harness")
}

pub fn github_dsh_dir(local: Option<&str>) -> (r: String)
    ensures
        r@ == below(own_dir(model::slice_of(local)), "github-dsh"@),
{
    join(join(base_of(local), "dsh-launcher").as_str(), "github-dsh")
}

/// The directory of installed tools.
pub fn toolchain_dir(local: Option<&str>) -> (r: String)
    ensures
        r@ == below(own_dir(model::slice_of(local)), "toolchain"@),
{
    join(join(base_of(local), "dsh-launcher").as_str(), "toolchain")
}

/// The directory of Node.
pub fn node_dir(local: Option<&str>) -> (r: String)
    ensures
        r@ == below(below(own_dir(model::slice_of(local)), "toolchain"@), "node"@),
{
    join(toolchain_dir(local).as_str(), "node")
}

/// The installer of Git.
pub fn git_installer_path(local: Option<&str>) -> (r: String)
    ensures
        r@ == below(
            below(own_dir(model::slice_of(local)), "toolchain"@),
            crate::toolchain::GIT_INSTALLER@,
        ),
{
    join(toolchain_dir(local).as_str(), crate::toolchain::GIT_INSTALLER)
}

/// The directory of the logs.
pub fn logs_dir(local: Option<&str>) -> (r: String)
    ensures
        r@ == below(own_dir(model::slice_of(local)), "logs"@),
{
    join(join(base_of(local), "dsh-launcher").as_str(), "logs")
}

/// The file that takes what the service prints.
pub fn dsh_output_path(local: Option<&str>, stdout: bool) -> (r: String)
    ensures
        r@ == below(
            below(own_dir(model::slice_of(local)), "logs"@),
            if stdout {
                "dsh-web-stdout.log"@
            } else {
                "dsh-web-stderr.log"@
            },
        ),
{
    join(logs_dir(local).as_str(), crate::process::dsh_output_name(stdout))
}

/// The file that takes the service's complaints.
pub fn dsh_stderr_path(local: Option<&str>) -> (r: String)
    ensures
        r@ == below(
            below(own_dir(model::slice_of(local)), "logs"@),
            "dsh-web-stderr.log"@,
        ),
{
    dsh_output_path(local, false)
}

/// The directory for copies of the patch file.
pub fn backups_root(local: Option<&str>) -> (r: String)
    ensures
        r@ == below(below(own_dir(model::slice_of(local)), "backups"@), "mcp"@),
{
    let own = join(base_of(local), "dsh-launcher");
    join(join(own.as_str(), "backups").as_str(), "mcp")
}

/// The directory for a copy of the patch file before a change to a tool server.
pub fn backup_dir(local: Option<&str>, server_name: &str, stamp: &str) -> (r: String)
    ensures
        r@ == below(
            below(
                below(below(own_dir(model::slice_of(local)), "backups"@), "mcp"@),
                server_name@,
            ),
            stamp@,
        ),
{
    join(join(backups_root(local).as_str(), server_name).as_str(), stamp)
}

} // verus!
