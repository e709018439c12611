//! The tools that the service needs: where they come from, how they are found, installed and
//! removed.

use crate::double;
use crate::model;
use crate::model::CharSet;
use crate::text;
use crate::text::lowercase;
use crate::text_lemmas::{lemma_strip_prefix, lemma_trim_nothing};
use vstd::prelude::*;

verus! {

pub const NODE_VERSION: &'static str = "v22.19.0";

pub const GIT_VERSION: &'static str = "2.47.1";

pub const PYTHON_VERSION: &'static str = "3.13.9";

pub const GIT_INSTALLER: &'static str = "Git-2.47.1-64-bit.exe";

pub const GIT_INSTALLER_PATH: &'static str = "git-for-windows/git/releases/download/v2.47.1.windows.1/Git-2.47.1-64-bit.exe";

// ---- Addresses ----

/// The name of Node's directory in its archive.
pub open spec fn node_stem() -> Seq<char> {
    "node-"@ + NODE_VERSION@ + "-win-x64"@
}

pub fn node_directory() -> (r: String)
    ensures
        r@ == node_stem(),
{
    text::cat3("node-", NODE_VERSION, "-win-x64")
}

pub fn node_archive() -> (r: String)
    ensures
        r@ == node_stem() + ".zip"@,
{
    text::cat2(node_directory().as_str(), ".zip")
}

/// The address of Node's archive.
pub open spec fn node_address(mirror: Seq<char>) -> Seq<char> {
    (if mirror.len() == 0 {
        "https://nodejs.org/dist/"@ + NODE_VERSION@
    } else {
        model::trim_end(mirror, CharSet::Only('/')) + "/"@ + NODE_VERSION@
    }) + "/"@ + (node_stem() + ".zip"@)
}

pub fn node_url(mirror: &str) -> (r: String)
    ensures
        r@ == node_address(mirror@),
{
    let base = if mirror.is_empty() {
        text::cat2("https://nodejs.org/dist/", NODE_VERSION)
    } else {
        text::cat3(text::trim_end(mirror, CharSet::Only('/')).as_str(), "/", NODE_VERSION)
    };
    text::cat3(base.as_str(), "/", node_archive().as_str())
}

/// The address of Git's installer.
pub fn git_installer_url(mirror: &str) -> (r: String)
    ensures
        r@ == if mirror@.len() == 0 {
            "https://github.com/"@ + GIT_INSTALLER_PATH@
        } else {
            model::trim_end(mirror@, CharSet::Only('/')) + "/"@ + GIT_INSTALLER_PATH@
        },
{
    if mirror.is_empty() {
        text::cat2("https://github.com/", GIT_INSTALLER_PATH)
    } else {
        text::cat3(text::trim_end(mirror, CharSet::Only('/')).as_str(), "/", GIT_INSTALLER_PATH)
    }
}

pub open spec fn python_file() -> Seq<char> {
    "python-"@ + PYTHON_VERSION@ + "-amd64.exe"@
}

pub fn python_installer() -> (r: String)
    ensures
        r@ == python_file(),
{
    text::cat3("python-", PYTHON_VERSION, "-amd64.exe")
}

/// The address of Python's installer.
pub fn python_installer_url() -> (r: String)
    ensures
        r@ == "https://www.python.org/ftp/python/"@ + PYTHON_VERSION@ + "/"@ + python_file(),
{
    text::cat4(
        "https://www.python.org/ftp/python/",
        PYTHON_VERSION,
        "/",
        python_installer().as_str(),
    )
}

// ---- Scripts ----

/// A text as it stands between single quotes in a script.
pub open spec fn ps_escaped(s: Seq<char>) -> Seq<char> {
    model::replace_char(s, '\'', "''"@)
}

pub fn ps_escape(s: &str) -> (r: String)
    ensures
        r@ == ps_escaped(s@),
{
    text::replace_char(s, '\'', "''")
}

/// The script that downloads a file.
pub fn download_script(url: &str, dest: &str) -> (r: String)
    ensures
        r@ == "Invoke-WebRequest -Uri '"@ + ps_escaped(url@) + "' -OutFile '"@ + ps_escaped(dest@)
            + "' -UseBasicParsing"@,
{
    text::cat5(
        "Invoke-WebRequest -Uri '",
        ps_escape(url).as_str(),
        "' -OutFile '",
        ps_escape(dest).as_str(),
        "' -UseBasicParsing",
    )
}

/// The script that asks for the length of a file.
pub fn length_script(url: &str) -> (r: String)
    ensures
        r@ == "try { (Invoke-WebRequest -Uri '"@ + ps_escaped(url@)
            + "' -Method Head -UseBasicParsing).Headers['Content-Length'] } catch { '' }"@,
{
    text::cat3(
        "try { (Invoke-WebRequest -Uri '",
        ps_escape(url).as_str(),
        "' -Method Head -UseBasicParsing).Headers['Content-Length'] } catch { '' }",
    )
}

/// The script that unpacks an archive.
pub fn unzip_script(zip: &str, dest: &str) -> (r: String)
    ensures
        r@ == "Expand-Archive -Path '"@ + ps_escaped(zip@) + "' -DestinationPath '"@ + ps_escaped(
            dest@,
        ) + "' -Force"@,
{
    text::cat5(
        "Expand-Archive -Path '",
        ps_escape(zip).as_str(),
        "' -DestinationPath '",
        ps_escape(dest).as_str(),
        "' -Force",
    )
}

/// The script that installs Git without questions.
pub fn git_install_script(installer: &str) -> (r: String)
    ensures
        r@ == "Start-Process -FilePath '"@ + ps_escaped(installer@)
            + "' -ArgumentList '/VERYSILENT','/NORESTART' -Verb RunAs"@,
{
    text::cat3(
        "Start-Process -FilePath '",
        ps_escape(installer).as_str(),
        "' -ArgumentList '/VERYSILENT','/NORESTART' -Verb RunAs",
    )
}

/// The script that installs Python without questions.
pub fn python_install_script(installer: &str) -> (r: String)
    ensures
        r@ == "Start-Process -FilePath '"@ + ps_escaped(installer@)
            + "' -ArgumentList '/quiet','/InstallAllUsers=0','/PrependPath=1','/Include_pip=1' -Verb RunAs -Wait"@,
{
    text::cat3(
        "Start-Process -FilePath '",
        ps_escape(installer).as_str(),
        "' -ArgumentList '/quiet','/InstallAllUsers=0','/PrependPath=1','/Include_pip=1' -Verb RunAs -Wait",
    )
}

// ---- Downloads ----

/// The length that the script printed; 0 where it is not known.
pub open spec fn length_of(success: bool, stdout: Seq<char>) -> nat {
    if success {
        match model::parse_unsigned(model::trim(stdout), u64::MAX as nat) {
            Some(n) => n,
            None => 0,
        }
    } else {
        0
    }
}

pub fn content_length(success: bool, stdout: &str) -> (r: u64)
    ensures
        r == length_of(success, stdout@),
{
    if !success {
        return 0;
    }
    match text::parse_unsigned(text::trim(stdout).as_str(), u64::MAX) {
        Some(n) => n,
        None => 0,
    }
}

/// A hundred times the share that `len` has in `total`, in double precision, cut to a whole number.
pub open spec fn share(len: nat, total: nat) -> nat {
    let (m, d) = double::ratio(double::kept(len), double::kept(total));
    double::scaled(m, d, 100)
}

/// How much of a file is there, in percent, at most 99: the last step is reported at the end.
pub open spec fn percent_done(len: nat, total: nat) -> int {
    if total == 0 {
        0
    } else if share(len, total) < 99 {
        share(len, total) as int
    } else {
        99
    }
}

pub fn download_percent(len: u64, total: u64) -> (r: i32)
    ensures
        r == percent_done(len as nat, total as nat),
        0 <= r <= 99,
{
    if total == 0 {
        return 0;
    }
    let (m, d) = double::divide(double::keep(len as u128), double::keep(total as u128));
    let n: u128 = double::keep(100 * m) / d;
    if n < 99 {
        n as i32
    } else {
        99
    }
}

/// A download under way.
pub struct Download {
    /// The length of the file; 0 where it is not known.
    pub total: u64,
    pub last_percent: i32,
    pub last_len: u64,
}

/// What is reported of a download.
#[derive(Debug, Clone, Copy, PartialEq, Eq, Structural)]
pub enum DownloadNote {
    /// All of it is there.
    Complete,
    Percent(u8),
    /// The length is not known, but there is more of it.
    More,
    Nothing,
}

impl Download {
    pub fn new(total: u64) -> (r: Self)
        ensures
            r.total == total,
            r.last_percent == -1,
            r.last_len == 0,
    {
        Download { total, last_percent: -1, last_len: 0 }
    }

    /// What is reported once `len` bytes are there: only what has changed.
    pub fn poll(&mut self, len: u64) -> (r: DownloadNote)
        ensures
            final(self).total == old(self).total,
            ({
                let total = old(self).total;
                let percent = percent_done(len as nat, total as nat);
                if total > 0 && len >= total {
                    &&& r == DownloadNote::Complete
                    &&& final(self).last_percent == old(self).last_percent
                    &&& final(self).last_len == old(self).last_len
                } else if total > 0 {
                    &&& final(self).last_percent == percent
                    &&& final(self).last_len == old(self).last_len
                    &&& if percent != old(self).last_percent {
                        r matches DownloadNote::Percent(p) && p == percent
                    } else {
                        r == DownloadNote::Nothing
                    }
                } else {
                    &&& final(self).last_percent == old(self).last_percent
                    &&& final(self).last_len == len
                    &&& r == if len != old(self).last_len {
                        DownloadNote::More
                    } else {
                        DownloadNote::Nothing
                    }
                }
            }),
    {
        if self.total > 0 && len >= self.total {
            return DownloadNote::Complete;
        }
        if self.total > 0 {
            let percent = download_percent(len, self.total);
            if percent != self.last_percent {
                self.last_percent = percent;
                DownloadNote::Percent(percent as u8)
            } else {
                DownloadNote::Nothing
            }
        } else if len != self.last_len {
            self.last_len = len;
            DownloadNote::More
        } else {
            DownloadNote::Nothing
        }
    }
}

/// What is said when a download starts: its length, where it is known, in megabytes as a text.
pub fn download_start(label: &str, total: u64, total_mb: &str) -> (r: String)
    ensures
        r@ == if total > 0 {
            label@ + " 下载中…（共 "@ + total_mb@ + " MB）"@
        } else {
            label@ + " 下载中…"@
        },
{
    if total > 0 {
        text::cat4(label, " 下载中…（共 ", total_mb, " MB）")
    } else {
        text::cat2(label, " 下载中…")
    }
}

/// What is said of a download under way, given the amounts in megabytes as texts.
pub fn download_message(
    note: DownloadNote,
    label: &str,
    done_mb: &str,
    total_mb: &str,
) -> (r: String)
    ensures
        r@ == match note {
            DownloadNote::Percent(p) => label@ + " 下载中… "@ + done_mb@ + " MB / "@ + total_mb@
                + " MB ("@ + (model::decimal(p as nat) + "%)"@),
            DownloadNote::More => label@ + " 下载中… "@ + done_mb@ + " MB 已下载"@,
            DownloadNote::Complete => label@ + " 下载完成（"@ + done_mb@ + " MB）"@,
            DownloadNote::Nothing => label@ + " 下载中…"@,
        },
{
    match note {
        DownloadNote::Percent(p) => text::cat7(
            label,
            " 下载中… ",
            done_mb,
            " MB / ",
            total_mb,
            " MB (",
            text::cat2(text::decimal(p as u64).as_str(), "%)").as_str(),
        ),
        DownloadNote::More => text::cat4(label, " 下载中… ", done_mb, " MB 已下载"),
        DownloadNote::Complete => text::cat4(label, " 下载完成（", done_mb, " MB）"),
        DownloadNote::Nothing => text::cat2(label, " 下载中…"),
    }
}

/// The unpacked directory to take, among the names in an archive of another layout.
pub open spec fn node_entry(names: Seq<Seq<char>>, i: int) -> Option<int>
    decreases names.len() - i,
{
    if i < 0 || i >= names.len() {
        None
    } else if model::contains(names[i], "node-v"@) {
        Some(i)
    } else {
        node_entry(names, i + 1)
    }
}

pub fn pick_node_dir(names: &Vec<String>) -> (r: Result<usize, String>)
    ensures
        match node_entry(model::texts(names@), 0) {
            Some(i) => r is Ok && r->Ok_0 == i && i < names@.len(),
            None => r is Err && r->Err_0@ == "解压后未找到 node 目录"@,
        },
{
    let ghost all = model::texts(names@);
    let mut i: usize = 0;
    while i < names.len()
        invariant
            all == model::texts(names@),
            i <= names.len(),
            node_entry(all, 0) == node_entry(all, i as int),
        decreases names.len() - i,
    {
        proof {
            assert(all[i as int] == names@[i as int]@);
        }
        if text::contains(names[i].as_str(), "node-v") {
            return Ok(i);
        }
        i += 1;
    }
    Err("解压后未找到 node 目录".to_owned())
}

// ---- Uninstalling ----

/// A word that names a part of Python rather than Python itself.
pub open spec fn component(d: Seq<char>) -> bool {
    ||| model::contains(d, "Development"@)
    ||| model::contains(d, "Documentation"@)
    ||| model::contains(d, "Test Suite"@)
    ||| model::contains(d, "Standard Library"@)
    ||| model::contains(d, "pip Bootstrap"@)
    ||| model::contains(d, "Tcl/Tk"@)
    ||| model::contains(d, "Executables"@)
    ||| model::contains(d, "Add to Path"@)
    ||| model::contains(d, "Utility Scripts"@)
    ||| model::contains(d, "Core Interpreter"@)
    ||| model::contains(d, "Launcher"@)
    ||| model::contains(d, "Windows Store"@)
    ||| model::contains(d, "embeddable"@)
    ||| model::contains(d, "Debug"@)
    ||| model::contains(d, "tcltk"@)
    ||| model::contains(d, "IDLE"@)
    ||| model::contains(d, "Libs"@)
}

fn names_component(d: &str) -> (b: bool)
    ensures
        b == component(d@),
{
    text::contains(d, "Development") || text::contains(d, "Documentation") || text::contains(
        d,
        "Test Suite",
    ) || text::contains(d, "Standard Library") || text::contains(d, "pip Bootstrap")
        || text::contains(d, "Tcl/Tk") || text::contains(d, "Executables") || text::contains(
        d,
        "Add to Path",
    ) || text::contains(d, "Utility Scripts") || text::contains(d, "Core Interpreter")
        || text::contains(d, "Launcher") || text::contains(d, "Windows Store") || text::contains(
        d,
        "embeddable",
    ) || text::contains(d, "Debug") || text::contains(d, "tcltk") || text::contains(d, "IDLE")
        || text::contains(d, "Libs")
}

/// An entry of the list of installed programs is the one that is looked for. Git's is told from
/// other programs whose names begin alike, Python's from its parts.
pub open spec fn entry_is(display: Seq<char>, keyword: Seq<char>) -> bool {
    let d = model::trim(display);
    if keyword == "git"@ {
        d == "Git"@ || model::starts_with(d, "Git for Windows"@)
    } else if keyword == "python"@ {
        &&& model::starts_with(d, "Python "@)
        &&& model::contains(d, "("@)
        &&& model::contains(d, ")"@)
        &&& !component(d)
    } else {
        model::contains(lowercase(d), lowercase(keyword))
    }
}

pub fn uninstall_entry_matches(display: &str, keyword: &str) -> (b: bool)
    ensures
        b == entry_is(display@, keyword@),
{
    let d = text::trim(display);
    if text::same(keyword, "git") {
        text::same(d.as_str(), "Git") || text::starts_with(d.as_str(), "Git for Windows")
    } else if text::same(keyword, "python") {
        text::starts_with(d.as_str(), "Python ") && text::contains(d.as_str(), "(")
            && text::contains(d.as_str(), ")") && !names_component(d.as_str())
    } else {
        text::contains(text::lower(d.as_str()).as_str(), text::lower(keyword).as_str())
    }
}

/// An entry of the list of installed programs.
pub struct UninstallEntry {
    pub display_name: Option<String>,
    pub uninstall: Option<String>,
}

/// The command of an entry, where it is one that is looked for and has a command.
pub open spec fn command_of(entry: UninstallEntry, keyword: Seq<char>) -> Option<Seq<char>> {
    match (entry.display_name, entry.uninstall) {
        (Some(name), Some(command)) => if entry_is(name@, keyword) && !model::blank(command@) {
            Some(model::trim(command@))
        } else {
            None
        },
        _ => None,
    }
}

/// The commands of the entries that are looked for, in order.
pub open spec fn commands_of(entries: Seq<UninstallEntry>, keyword: Seq<char>) -> Seq<Seq<char>>
    decreases entries.len(),
{
    if entries.len() == 0 {
        seq![]
    } else {
        match command_of(entries.last(), keyword) {
            Some(c) => commands_of(entries.drop_last(), keyword).push(c),
            None => commands_of(entries.drop_last(), keyword),
        }
    }
}

/// The first command from `i` on that does, or does not, run through the package manager.
pub open spec fn first_of_kind(through: Seq<bool>, wanted: bool, i: int) -> Option<int>
    decreases through.len() - i,
{
    if i < 0 || i >= through.len() {
        None
    } else if through[i] == wanted {
        Some(i)
    } else {
        first_of_kind(through, wanted, i + 1)
    }
}

/// The command to run: the first that is a program of its own, else the first at all.
pub open spec fn preferred(through: Seq<bool>) -> Option<int> {
    match first_of_kind(through, false, 0) {
        Some(i) => Some(i),
        None => first_of_kind(through, true, 0),
    }
}

fn find_kind(through: &Vec<bool>, wanted: bool) -> (r: Option<usize>)
    ensures
        match r {
            Some(i) => first_of_kind(through@, wanted, 0) == Some(i as int) && i < through@.len(),
            None => first_of_kind(through@, wanted, 0) is None,
        },
{
    let mut i: usize = 0;
    while i < through.len()
        invariant
            i <= through.len(),
            first_of_kind(through@, wanted, 0) == first_of_kind(through@, wanted, i as int),
        decreases through.len() - i,
    {
        if through[i] == wanted {
            return Some(i);
        }
        i += 1;
    }
    None
}

/// Which of several commands to run, given which of them run through the package manager.
pub fn pick_uninstaller(through: &Vec<bool>) -> (r: Option<usize>)
    ensures
        match r {
            Some(i) => preferred(through@) == Some(i as int) && i < through@.len(),
            None => preferred(through@) is None,
        },
{
    match find_kind(through, false) {
        Some(i) => Some(i),
        None => find_kind(through, true),
    }
}

/// Which commands run through the package manager.
pub open spec fn through_msi(commands: Seq<Seq<char>>) -> Seq<bool> {
    commands.map_values(|c: Seq<char>| model::contains(lowercase(c), "msiexec"@))
}

/// The command that removes a program.
pub open spec fn uninstaller(entries: Seq<UninstallEntry>, keyword: Seq<char>) -> Option<Seq<char>> {
    let commands = commands_of(entries, keyword);
    match preferred(through_msi(commands)) {
        Some(i) => Some(commands[i]),
        None => None,
    }
}

/// The command that removes a program, among the entries of the list of installed programs.
pub fn find_uninstall_entry(entries: &Vec<UninstallEntry>, keyword: &str) -> (r: Option<String>)
    ensures
        model::text_of(r) == uninstaller(entries@, keyword@),
{
    let mut commands: Vec<String> = Vec::new();
    let mut through: Vec<bool> = Vec::new();
    let mut i: usize = 0;
    proof {
        assert(entries@.take(0) =~= seq![]);
        assert(model::texts(commands@) =~= seq![]);
        assert(through@ =~= through_msi(seq![]));
    }
    while i < entries.len()
        invariant
            i <= entries.len(),
            model::texts(commands@) == commands_of(entries@.take(i as int), keyword@),
            through@ == through_msi(model::texts(commands@)),
        decreases entries.len() - i,
    {
        proof {
            assert(entries@.take(i as int + 1).drop_last() =~= entries@.take(i as int));
            assert(entries@.take(i as int + 1).last() == entries@[i as int]);
        }
        let ghost before = commands@;
        let ghost kinds = through@;
        if let (Some(name), Some(command)) = (&entries[i].display_name, &entries[i].uninstall) {
            if uninstall_entry_matches(name.as_str(), keyword) && !text::blank(command.as_str()) {
                let raw = text::trim(command.as_str());
                let msi = text::contains(text::lower(raw.as_str()).as_str(), "msiexec");
                let ghost added = raw@;
                commands.push(raw);
                through.push(msi);
                proof {
                    assert(model::texts(commands@) =~= model::texts(before).push(added));
                    assert(through_msi(model::texts(before).push(added)) =~= kinds.push(msi));
                }
            }
        }
        i += 1;
    }
    proof {
        assert(entries@.take(entries.len() as int) =~= entries@);
        assert(model::texts(commands@).len() == commands@.len());
    }
    match pick_uninstaller(&through) {
        Some(k) => {
            proof {
                assert(model::texts(commands@)[k as int] == commands@[k as int]@);
            }
            Some(commands[k].clone())
        },
        None => None,
    }
}

/// The program of a command and its arguments: a program in quotes may hold spaces.
pub open spec fn command_parts(raw: Seq<char>) -> (Seq<char>, Seq<Seq<char>>) {
    let s = model::trim(raw);
    let quoted = match model::strip_prefix(s, "\""@) {
        Some(rest) => model::split_once(rest, CharSet::Only('"')),
        None => None,
    };
    match quoted {
        Some((program, rest)) => (program, model::words(rest)),
        None => match model::split_once(s, CharSet::White) {
            Some((program, rest)) => (program, model::words(rest)),
            None => (s, seq![]),
        },
    }
}

pub fn split_uninstall_cmd(raw: &str) -> (r: (String, Vec<String>))
    ensures
        (r.0@, model::texts(r.1@)) == command_parts(raw@),
{
    let s = text::trim(raw);
    if let Some(rest) = text::strip_prefix(s.as_str(), "\"") {
        if let Some((program, tail)) = text::split_once(rest.as_str(), CharSet::Only('"')) {
            return (program, text::words(tail.as_str()));
        }
    }
    match text::split_once(s.as_str(), CharSet::White) {
        Some((program, tail)) => (program, text::words(tail.as_str())),
        None => {
            let none: Vec<String> = Vec::new();
            proof {
                assert(model::texts(none@) =~= seq![]);
            }
            (s, none)
        },
    }
}

/// An argument that starts with a text, whatever its case.
pub open spec fn has_switch(args: Seq<Seq<char>>, switch: Seq<char>) -> bool {
    exists|i: int|
        0 <= i < args.len() && model::starts_with(lowercase(#[trigger] args[i]), switch)
}

fn switch_given(args: &Vec<String>, switch: &str) -> (b: bool)
    ensures
        b == has_switch(model::texts(args@), switch@),
{
    let ghost all = model::texts(args@);
    let mut i: usize = 0;
    while i < args.len()
        invariant
            all == model::texts(args@),
            i <= args.len(),
            forall|k: int|
                0 <= k < i ==> !model::starts_with(lowercase(#[trigger] all[k]), switch@),
        decreases args.len() - i,
    {
        proof {
            assert(all[i as int] == args@[i as int]@);
        }
        if text::starts_with(text::lower(args[i].as_str()).as_str(), switch) {
            return true;
        }
        i += 1;
    }
    false
}

/// The arguments that remove Git without questions.
pub open spec fn silent_args(args: Seq<Seq<char>>) -> Seq<Seq<char>> {
    let once = if has_switch(args, "/verysilent"@) {
        args
    } else {
        args.push("/VERYSILENT"@)
    };
    if has_switch(once, "/norestart"@) {
        once
    } else {
        once.push("/NORESTART"@)
    }
}

/// Arguments as a script takes them.
pub open spec fn quoted_args(args: Seq<Seq<char>>) -> Seq<char> {
    model::join(args.map_values(|a: Seq<char>| "'"@ + a + "'"@), ","@)
}

fn quote_args(args: &Vec<String>) -> (r: String)
    ensures
        r@ == quoted_args(model::texts(args@)),
{
    let ghost want = model::texts(args@).map_values(|a: Seq<char>| "'"@ + a + "'"@);
    let mut parts: Vec<String> = Vec::new();
    let mut i: usize = 0;
    proof {
        assert(model::texts(parts@) =~= want.take(0));
    }
    while i < args.len()
        invariant
            i <= args.len(),
            want == model::texts(args@).map_values(|a: Seq<char>| "'"@ + a + "'"@),
            model::texts(parts@) == want.take(i as int),
        decreases args.len() - i,
    {
        let ghost before = parts@;
        let part = text::cat3("'", args[i].as_str(), "'");
        let ghost added = part@;
        parts.push(part);
        proof {
            assert(model::texts(args@)[i as int] == args@[i as int]@);
            assert(want[i as int] == added);
            assert(model::texts(parts@) =~= model::texts(before).push(added));
            assert(want.take(i as int + 1) =~= want.take(i as int).push(added));
        }
        i += 1;
    }
    proof {
        assert(want.take(want.len() as int) =~= want);
    }
    text::join(&parts, ",")
}

/// The script that removes Git with its own program.
pub open spec fn git_removal(command: Seq<char>) -> Seq<char> {
    let (program, args) = command_parts(command);
    "Start-Process -FilePath '"@ + ps_escaped(program) + "' -ArgumentList "@ + quoted_args(
        silent_args(args),
    ) + " -Verb RunAs -Wait"@
}

pub fn git_uninstall_script(command: &str) -> (r: String)
    ensures
        r@ == git_removal(command@),
{
    let (program, given) = split_uninstall_cmd(command);
    let mut args = given;
    let ghost first = model::texts(args@);
    if !switch_given(&args, "/verysilent") {
        let ghost before = args@;
        args.push("/VERYSILENT".to_owned());
        proof {
            assert(model::texts(args@) =~= model::texts(before).push("/VERYSILENT"@));
        }
    }
    if !switch_given(&args, "/norestart") {
        let ghost before = args@;
        args.push("/NORESTART".to_owned());
        proof {
            assert(model::texts(args@) =~= model::texts(before).push("/NORESTART"@));
        }
    }
    proof {
        assert(model::texts(args@) == silent_args(first));
    }
    text::cat5(
        "Start-Process -FilePath '",
        ps_escape(program.as_str()).as_str(),
        "' -ArgumentList ",
        quote_args(&args).as_str(),
        " -Verb RunAs -Wait",
    )
}

/// The script that removes Python with its own program.
pub open spec fn python_removal(command: Seq<char>) -> Seq<char> {
    let (program, args) = command_parts(command);
    if args.len() == 0 {
        "Start-Process -FilePath '"@ + ps_escaped(program) + "' -Verb RunAs -Wait"@
    } else {
        "Start-Process -FilePath '"@ + ps_escaped(program) + "' -ArgumentList "@ + quoted_args(args)
            + " -Verb RunAs -Wait"@
    }
}

pub fn python_uninstall_script(command: &str) -> (r: String)
    ensures
        r@ == python_removal(command@),
{
    let (program, args) = split_uninstall_cmd(command);
    proof {
        assert(model::texts(args@).len() == args@.len());
    }
    if args.len() == 0 {
        text::cat3(
            "Start-Process -FilePath '",
            ps_escape(program.as_str()).as_str(),
            "' -Verb RunAs -Wait",
        )
    } else {
        text::cat5(
            "Start-Process -FilePath '",
            ps_escape(program.as_str()).as_str(),
            "' -ArgumentList ",
            quote_args(&args).as_str(),
            " -Verb RunAs -Wait",
        )
    }
}

/// The tools.
#[derive(Debug, Clone, Copy, PartialEq, Eq, Structural)]
pub enum Tool {
    Node,
    Npm,
    Pnpm,
    Git,
    Python,
}

/// What is done with the program that removes a tool: its script, or why there is none.
pub fn plan_removal(tool: Tool, command: Option<&str>) -> (r: Result<String, String>)
    requires
        tool == Tool::Git || tool == Tool::Python,
    ensures
        match command {
            Some(c) => r is Ok && r->Ok_0@ == if tool == Tool::Git {
                git_removal(c@)
            } else {
                python_removal(c@)
            },
            None => r is Err && r->Err_0@ == if tool == Tool::Git {
                "未在系统中找到 Git 卸载入口（可能未通过官方安装器安装，请手动卸载）"@
            } else {
                "未在系统中找到 Python 卸载入口（可能为便携版/嵌入版，请手动清理）"@
            },
        },
{
    match (tool, command) {
        (Tool::Git, Some(c)) => Ok(git_uninstall_script(c)),
        (Tool::Git, None) => Err(
            "未在系统中找到 Git 卸载入口（可能未通过官方安装器安装，请手动卸载）".to_owned(),
        ),
        (_, Some(c)) => Ok(python_uninstall_script(c)),
        (_, None) => Err(
            "未在系统中找到 Python 卸载入口（可能为便携版/嵌入版，请手动清理）".to_owned(),
        ),
    }
}

/// What is reported of a removal whose script has run.
pub fn removal_result(tool: Tool, success: bool, stderr: &str) -> (r: Result<String, String>)
    requires
        tool == Tool::Git || tool == Tool::Python,
    ensures
        r is Ok == success,
        match r {
            Ok(m) => m@ == if tool == Tool::Git {
                "Git 卸载程序已启动（请在弹出的 UAC 中确认）"@
            } else {
                "Python 卸载程序已启动（请在弹出的 UAC 中确认）"@
            },
            Err(m) => m@ == (if tool == Tool::Git {
                "Git 卸载启动失败: "@
            } else {
                "Python 卸载启动失败: "@
            }) + model::trim(stderr@),
        },
{
    match (tool, success) {
        (Tool::Git, true) => Ok("Git 卸载程序已启动（请在弹出的 UAC 中确认）".to_owned()),
        (Tool::Git, false) => Err(
            text::cat2("Git 卸载启动失败: ", text::trim(stderr).as_str()),
        ),
        (_, true) => Ok("Python 卸载程序已启动（请在弹出的 UAC 中确认）".to_owned()),
        (_, false) => Err(
            text::cat2("Python 卸载启动失败: ", text::trim(stderr).as_str()),
        ),
    }
}

// ---- Installing ----

/// What is reported while Python's installer runs: where its directory is registered already, or
/// else every third second.
pub fn python_wait(secs: u32, registered: bool) -> (r: Option<(u8, String)>)
    ensures
        if registered {
            r is Some && (r->0).0 == 90 && (r->0).1@ == "Python 安装写入系统已完成，正在收尾…"@
        } else if secs % 3 == 0 {
            &&& r is Some
            &&& (r->0).0 == 0
            &&& (r->0).1@ == "Python 安装中… 已等待 "@ + model::decimal(secs as nat)
                + " 秒（请在 UAC 弹窗确认）"@
        } else {
            r is None
        },
{
    if registered {
        Some((90, "Python 安装写入系统已完成，正在收尾…".to_owned()))
    } else if secs % 3 == 0 {
        Some(
            (
                0,
                text::cat3(
                    "Python 安装中… 已等待 ",
                    text::decimal(secs as u64).as_str(),
                    " 秒（请在 UAC 弹窗确认）",
                ),
            ),
        )
    } else {
        None
    }
}

/// What came of installing Python: its directory must be registered afterwards.
pub fn python_result(success: bool, stderr: &str, registered: bool) -> (r: Result<String, String>)
    ensures
        r is Ok == (success && registered),
        match r {
            Ok(m) => m@ == "Python "@ + PYTHON_VERSION@ + " 已安装完成（已加入 PATH，全局可用）"@,
            Err(m) => m@ == if !success {
                "Python 安装启动失败: "@ + model::trim(stderr@)
            } else {
                "Python 安装可能未完成：注册表未找到安装目录，请检查是否在 UAC 弹窗中取消了安装"@
            },
        },
{
    if !success {
        Err(text::cat2("Python 安装启动失败: ", text::trim(stderr).as_str()))
    } else if registered {
        Ok(text::cat3("Python ", PYTHON_VERSION, " 已安装完成（已加入 PATH，全局可用）"))
    } else {
        Err(
            "Python 安装可能未完成：注册表未找到安装目录，请检查是否在 UAC 弹窗中取消了安装".to_owned(),
        )
    }
}

/// What is reported of an installed Node.
pub fn node_message(dir: &str) -> (r: String)
    ensures
        r@ == "Node "@ + NODE_VERSION@ + " 已安装到 "@ + dir@
            + "（已加入用户 PATH，重启终端后全局可用）"@,
{
    text::cat5(
        "Node ",
        NODE_VERSION,
        " 已安装到 ",
        dir,
        "（已加入用户 PATH，重启终端后全局可用）",
    )
}

/// What came of starting Git's installer.
pub fn git_result(success: bool, stderr: &str, installer: &str) -> (r: Result<String, String>)
    ensures
        r is Ok == success,
        match r {
            Ok(m) => m@ == "Git 安装程序已启动（UAC 确认后完成），安装包位于 "@ + installer@,
            Err(m) => m@ == "Git 安装启动失败: "@ + model::trim(stderr@),
        },
{
    if success {
        Ok(text::cat2("Git 安装程序已启动（UAC 确认后完成），安装包位于 ", installer))
    } else {
        Err(text::cat2("Git 安装启动失败: ", text::trim(stderr).as_str()))
    }
}

/// Which npm installs pnpm: the one on the search path, else the one that came with Node.
#[derive(Debug, Clone, Copy, PartialEq, Eq, Structural)]
pub enum NpmChoice {
    OnPath,
    WithNode,
}

pub fn choose_npm(on_path: bool, with_node: bool) -> (r: Result<NpmChoice, String>)
    ensures
        if on_path {
            r == Ok::<NpmChoice, String>(NpmChoice::OnPath)
        } else if with_node {
            r == Ok::<NpmChoice, String>(NpmChoice::WithNode)
        } else {
            r is Err && r->Err_0@ == "未找到 npm（请先安装 Node）"@
        },
{
    if on_path {
        Ok(NpmChoice::OnPath)
    } else if with_node {
        Ok(NpmChoice::WithNode)
    } else {
        Err("未找到 npm（请先安装 Node）".to_owned())
    }
}

// ---- Which tools there are ----

impl Tool {
    pub open spec fn text(self) -> Seq<char> {
        match self {
            Tool::Node => "node"@,
            Tool::Npm => "npm"@,
            Tool::Pnpm => "pnpm"@,
            Tool::Git => "git"@,
            Tool::Python => "python"@,
        }
    }

    pub fn name(&self) -> (r: &'static str)
        ensures
            r@ == self.text(),
    {
        match self {
            Tool::Node => "node",
            Tool::Npm => "npm",
            Tool::Pnpm => "pnpm",
            Tool::Git => "git",
            Tool::Python => "python",
        }
    }

    /// What version is needed.
    pub open spec fn need(self) -> Seq<char> {
        match self {
            Tool::Node => "22.19+ / 24+"@,
            Tool::Npm => "随 Node 提供"@,
            Tool::Pnpm => "任意（源码构建必需）"@,
            Tool::Git => "2.26+"@,
            Tool::Python => "3.10+（可选，SDK 用）"@,
        }
    }

    pub fn required(&self) -> (r: &'static str)
        ensures
            r@ == self.need(),
    {
        match self {
            Tool::Node => "22.19+ / 24+",
            Tool::Npm => "随 Node 提供",
            Tool::Pnpm => "任意（源码构建必需）",
            Tool::Git => "2.26+",
            Tool::Python => "3.10+（可选，SDK 用）",
        }
    }
}

/// A tool as it is shown.
pub struct ToolchainItem {
    pub name: &'static str,
    pub installed_version: Option<String>,
    pub required: &'static str,
    pub state: &'static str,
}

/// An item shows a tool with the version that was found.
pub open spec fn shows_tool(item: ToolchainItem, tool: Tool, version: Option<String>) -> bool {
    &&& item.name@ == tool.text()
    &&& item.installed_version == version
    &&& item.required@ == tool.need()
    &&& item.state@ == if version is Some {
        "present"@
    } else {
        "missing"@
    }
}

fn detect(tool: Tool, version: Option<String>) -> (r: ToolchainItem)
    ensures
        shows_tool(r, tool, version),
{
    let state = if version.is_some() {
        "present"
    } else {
        "missing"
    };
    ToolchainItem { name: tool.name(), installed_version: version, required: tool.required(), state }
}

pub fn detect_node(version: Option<String>) -> (r: ToolchainItem)
    ensures
        shows_tool(r, Tool::Node, version),
{
    detect(Tool::Node, version)
}

pub fn detect_npm(version: Option<String>) -> (r: ToolchainItem)
    ensures
        shows_tool(r, Tool::Npm, version),
{
    detect(Tool::Npm, version)
}

pub fn detect_pnpm(version: Option<String>) -> (r: ToolchainItem)
    ensures
        shows_tool(r, Tool::Pnpm, version),
{
    detect(Tool::Pnpm, version)
}

pub fn detect_git(version: Option<String>) -> (r: ToolchainItem)
    ensures
        shows_tool(r, Tool::Git, version),
{
    detect(Tool::Git, version)
}

pub fn detect_python(version: Option<String>) -> (r: ToolchainItem)
    ensures
        shows_tool(r, Tool::Python, version),
{
    detect(Tool::Python, version)
}

/// The versions that were found.
pub struct Versions {
    pub node: Option<String>,
    pub npm: Option<String>,
    pub pnpm: Option<String>,
    pub git: Option<String>,
    pub python: Option<String>,
}

/// All tools, in the order in which they are shown.
pub fn detect_all(v: Versions) -> (r: Vec<ToolchainItem>)
    ensures
        r@.len() == 5,
        shows_tool(r@[0], Tool::Node, v.node),
        shows_tool(r@[1], Tool::Npm, v.npm),
        shows_tool(r@[2], Tool::Pnpm, v.pnpm),
        shows_tool(r@[3], Tool::Git, v.git),
        shows_tool(r@[4], Tool::Python, v.python),
{
    let mut r: Vec<ToolchainItem> = Vec::new();
    r.push(detect_node(v.node));
    r.push(detect_npm(v.npm));
    r.push(detect_pnpm(v.pnpm));
    r.push(detect_git(v.git));
    r.push(detect_python(v.python));
    r
}

/// What a command printed, without white space around it; nothing for nothing.
pub fn parse_stdout(output: &str) -> (r: Option<String>)
    ensures
        model::text_of(r) == if model::blank(output@) {
            None
        } else {
            Some(model::trim(output@))
        },
{
    if text::blank(output) {
        None
    } else {
        Some(text::trim(output))
    }
}

/// The file of a tool in Node's directory: npm and pnpm are scripts.
pub fn fallback_file(tool: Tool) -> (r: String)
    ensures
        r@ == tool.text() + if tool == Tool::Npm || tool == Tool::Pnpm {
            ".cmd"@
        } else {
            ".exe"@
        },
{
    let ending = if matches!(tool, Tool::Npm | Tool::Pnpm) {
        ".cmd"
    } else {
        ".exe"
    };
    text::cat2(tool.name(), ending)
}

/// The tool to install.
pub fn installable(name: &str) -> (r: Result<Tool, String>)
    ensures
        if name@ == "node"@ {
            r == Ok::<Tool, String>(Tool::Node)
        } else if name@ == "git"@ {
            r == Ok::<Tool, String>(Tool::Git)
        } else if name@ == "pnpm"@ {
            r == Ok::<Tool, String>(Tool::Pnpm)
        } else if name@ == "python"@ {
            r == Ok::<Tool, String>(Tool::Python)
        } else {
            r is Err && r->Err_0@ == "不支持的工具链: "@ + name@
        },
{
    if text::same(name, "node") {
        Ok(Tool::Node)
    } else if text::same(name, "git") {
        Ok(Tool::Git)
    } else if text::same(name, "pnpm") {
        Ok(Tool::Pnpm)
    } else if text::same(name, "python") {
        Ok(Tool::Python)
    } else {
        Err(text::cat2("不支持的工具链: ", name))
    }
}

/// The tool to remove; npm and pnpm go with Node.
pub fn removable(name: &str) -> (r: Result<Tool, String>)
    ensures
        if name@ == "node"@ {
            r == Ok::<Tool, String>(Tool::Node)
        } else if name@ == "git"@ {
            r == Ok::<Tool, String>(Tool::Git)
        } else if name@ == "python"@ {
            r == Ok::<Tool, String>(Tool::Python)
        } else if name@ == "npm"@ || name@ == "pnpm"@ {
            r is Err && r->Err_0@
                == "npm/pnpm 随 Node 安装目录管理，卸载 Node 时一并清理（无需单独卸载）"@
        } else {
            r is Err && r->Err_0@ == "不支持的工具链: "@ + name@
        },
{
    if text::same(name, "node") {
        Ok(Tool::Node)
    } else if text::same(name, "git") {
        Ok(Tool::Git)
    } else if text::same(name, "python") {
        Ok(Tool::Python)
    } else if text::same(name, "npm") || text::same(name, "pnpm") {
        Err("npm/pnpm 随 Node 安装目录管理，卸载 Node 时一并清理（无需单独卸载）".to_owned())
    } else {
        Err(text::cat2("不支持的工具链: ", name))
    }
}

/// What came of one tool of several.
pub struct BatchResult {
    pub name: String,
    pub ok: bool,
    pub message: String,
}

pub fn batch_result(tool: Tool, outcome: Result<String, String>) -> (r: BatchResult)
    ensures
        r.name@ == tool.text(),
        r.ok == (outcome is Ok),
        r.message@ == match outcome {
            Ok(m) => m@,
            Err(m) => m@,
        },
{
    match outcome {
        Ok(message) => BatchResult { name: tool.name().to_owned(), ok: true, message },
        Err(message) => BatchResult { name: tool.name().to_owned(), ok: false, message },
    }
}

/// What is reported of a tool that is there already.
pub fn batch_skip(tool: Tool) -> (r: BatchResult)
    ensures
        r.name@ == tool.text(),
        r.ok,
        r.message@ == "已就绪，跳过"@,
{
    BatchResult { name: tool.name().to_owned(), ok: true, message: "已就绪，跳过".to_owned() }
}

/// The state of the last item with a name.
pub open spec fn state_of(items: Seq<ToolchainItem>, name: Seq<char>) -> Option<Seq<char>>
    decreases items.len(),
{
    if items.len() == 0 {
        None
    } else if items.last().name@ == name {
        Some(items.last().state@)
    } else {
        state_of(items.drop_last(), name)
    }
}

/// A tool that is not known to be there has to be installed.
pub fn needs_install(items: &Vec<ToolchainItem>, tool: Tool) -> (b: bool)
    ensures
        b == (state_of(items@, tool.text()) != Some("present"@)),
{
    let mut i: usize = items.len();
    proof {
        assert(items@.take(items.len() as int) =~= items@);
    }
    while i > 0
        invariant
            i <= items.len(),
            state_of(items@, tool.text()) == state_of(items@.take(i as int), tool.text()),
        decreases i,
    {
        proof {
            assert(items@.take(i as int).drop_last() =~= items@.take(i - 1));
            assert(items@.take(i as int).last() == items@[i - 1]);
        }
        if text::same(items[i - 1].name, tool.name()) {
            return !text::same(items[i - 1].state, "present");
        }
        i -= 1;
    }
    true
}

/// The tools that are installed together, in the order in which they depend on each other.
pub fn batch_order() -> (r: Vec<Tool>)
    ensures
        r@ == seq![Tool::Node, Tool::Pnpm, Tool::Git, Tool::Python],
{
    let mut r: Vec<Tool> = Vec::new();
    r.push(Tool::Node);
    r.push(Tool::Pnpm);
    r.push(Tool::Git);
    r.push(Tool::Python);
    proof {
        assert(r@ =~= seq![Tool::Node, Tool::Pnpm, Tool::Git, Tool::Python]);
    }
    r
}

// ---- Laws ----

pub proof fn lemma_first_of_kind(through: Seq<bool>, wanted: bool, i: int)
    requires
        0 <= i <= through.len(),
    ensures
        match first_of_kind(through, wanted, i) {
            Some(k) => i <= k < through.len() && through[k] == wanted,
            None => forall|k: int| i <= k < through.len() ==> #[trigger] through[k] != wanted,
        },
    decreases through.len() - i,
{
    if i < through.len() && through[i] != wanted {
        lemma_first_of_kind(through, wanted, i + 1);
    }
}

/// A program of its own is preferred: the package manager is used only where there is nothing else,
/// and something is found wherever there is something.
pub proof fn law_own_programs_are_preferred(through: Seq<bool>)
    ensures
        preferred(through) is None <==> through.len() == 0,
        preferred(through) matches Some(i) ==> 0 <= i < through.len() && (through[i] ==> forall|
            k: int,
        |
            0 <= k < through.len() ==> #[trigger] through[k]),
{
    lemma_first_of_kind(through, false, 0);
    lemma_first_of_kind(through, true, 0);
    if first_of_kind(through, false, 0) is None && through.len() > 0 {
        assert(through[0]);
    }
}

/// A program in quotes is taken whole, whatever spaces its path holds, and what follows the quotes
/// are its arguments.
pub proof fn law_quoted_programs_are_whole(path: Seq<char>, rest: Seq<char>)
    requires
        forall|i: int| 0 <= i < path.len() ==> #[trigger] path[i] != '"',
        rest.len() > 0 ==> !model::white(rest.last()),
    ensures
        command_parts(seq!['"'] + path + seq!['"'] + rest) == (path, model::words(rest)),
{
    let raw = seq!['"'] + path + seq!['"'] + rest;
    let inner = path + seq!['"'] + rest;
    reveal_strlit("\"");
    assert(raw[0] == '"');
    assert(raw.last() == if rest.len() > 0 {
        rest.last()
    } else {
        '"'
    });
    lemma_trim_nothing(raw, CharSet::White);
    assert("\""@ =~= seq!['"']);
    assert(raw =~= "\""@ + inner);
    lemma_strip_prefix("\""@, inner);
    let k = CharSet::Only('"');
    model::lemma_first_in(inner, k, 0);
    let n = model::first_in(inner, k, 0);
    assert(inner[path.len() as int] == '"');
    if n < path.len() {
        assert(inner[n] == path[n]);
    }
    assert(n == path.len());
    assert(inner.take(n) =~= path);
    assert(inner.skip(n + 1) =~= rest);
}

/// A download never counts as complete before its end is reported, and what is reported does not
/// shrink as it grows.
pub proof fn law_progress_grows(len: nat, more: nat, total: nat)
    requires
        len <= more,
    ensures
        0 <= percent_done(len, total) <= percent_done(more, total) <= 99,
{
    double::law_kept_numbers_grow(len, more);
    double::law_shares_grow(double::kept(len), double::kept(more), double::kept(total));
}

} // verus!
