//! What holds of every tool that is downloaded, installed, shown or removed.

use crate::model;
use crate::model::CharSet;
use crate::plugin::managed::quoted;
use crate::plugin::managed_laws::law_quoted_values_are_read_back;
use crate::text::lowercase;
use crate::toolchain::{
    batch_order, batch_result, choose_npm, commands_of, content_length, detect_all,
    download_percent, download_script, entry_is, find_uninstall_entry, git_install_script,
    git_installer_url, git_uninstall_script, has_switch, installable,
    law_own_programs_are_preferred, length_script, lemma_first_of_kind, needs_install, node_url,
    pick_node_dir, node_entry, preferred, ps_escape, python_install_script, python_installer_url,
    python_result, python_uninstall_script, quoted_args, removable, silent_args,
    split_uninstall_cmd, state_of, through_msi, uninstall_entry_matches, unzip_script,
    BatchResult, Download, DownloadNote, NpmChoice, Tool, ToolchainItem, UninstallEntry, Versions,
};
use vstd::prelude::*;

verus! {

// ---- Addresses ----

/// Whatever the mirror, the archive of Node is the same one; only what stands before its path
/// changes.
pub proof fn law_node_comes_from_its_archive(mirror: &str, r: String)
    requires
        call_ensures(node_url, (mirror,), r),
    ensures
        model::ends_with(r@, "/v22.19.0/node-v22.19.0-win-x64.zip"@),
        mirror@.len() == 0 ==> r@ == "https://nodejs.org/dist"@
            + "/v22.19.0/node-v22.19.0-win-x64.zip"@,
        mirror@.len() > 0 ==> model::starts_with(mirror@, r@.take(r@.len() - 35)),
{
    reveal_strlit("/v22.19.0/node-v22.19.0-win-x64.zip");
    reveal_strlit("https://nodejs.org/dist");
    reveal_strlit("https://nodejs.org/dist/");
    reveal_strlit("v22.19.0");
    reveal_strlit("node-");
    reveal_strlit("-win-x64");
    reveal_strlit(".zip");
    reveal_strlit("/");
    let tail = "/v22.19.0/node-v22.19.0-win-x64.zip"@;
    assert(tail.len() == 35);
    assert(r@.subrange(r@.len() - tail.len(), r@.len() as int) =~= tail);
    if mirror@.len() == 0 {
        assert(r@ =~= "https://nodejs.org/dist"@ + tail);
    } else {
        let k = CharSet::Only('/');
        model::lemma_back_over(mirror@, k, mirror@.len() as int);
        let head = model::trim_end(mirror@, k);
        assert(r@.take(r@.len() - 35) =~= head);
        assert(mirror@.subrange(0, head.len() as int) =~= head);
    }
}

/// The installers of Git and Python are those of one version each.
pub proof fn law_installers_are_of_one_version(mirror: &str, git: String, python: String)
    requires
        call_ensures(git_installer_url, (mirror,), git),
        call_ensures(python_installer_url, (), python),
    ensures
        model::ends_with(
            git@,
            "/git-for-windows/git/releases/download/v2.47.1.windows.1/Git-2.47.1-64-bit.exe"@,
        ),
        mirror@.len() == 0 ==> model::starts_with(git@, "https://github.com/"@),
        python@ == "https://www.python.org/ftp/python/3.13.9/python-3.13.9-amd64.exe"@,
{
    reveal_strlit("/git-for-windows/git/releases/download/v2.47.1.windows.1/Git-2.47.1-64-bit.exe");
    reveal_strlit("git-for-windows/git/releases/download/v2.47.1.windows.1/Git-2.47.1-64-bit.exe");
    reveal_strlit("https://github.com/");
    reveal_strlit("/");
    let tail = "/git-for-windows/git/releases/download/v2.47.1.windows.1/Git-2.47.1-64-bit.exe"@;
    assert(git@.subrange(git@.len() - tail.len(), git@.len() as int) =~= tail);
    if mirror@.len() == 0 {
        let p = "https://github.com/"@;
        assert(git@.subrange(0, p.len() as int) =~= p);
    }
    reveal_strlit("https://www.python.org/ftp/python/3.13.9/python-3.13.9-amd64.exe");
    reveal_strlit("https://www.python.org/ftp/python/");
    reveal_strlit("3.13.9");
    reveal_strlit("python-");
    reveal_strlit("-amd64.exe");
    assert(python@ =~= "https://www.python.org/ftp/python/3.13.9/python-3.13.9-amd64.exe"@);
}

// ---- Scripts ----

/// A text between single quotes in a script stands for the text itself.
pub proof fn law_scripts_take_texts_as_they_are(s: &str, r: String)
    requires
        call_ensures(ps_escape, (s,), r),
    ensures
        model::replace(r@, "''"@, "'"@) == s@,
{
    law_quoted_values_are_read_back(s@);
    reveal_strlit("'");
    assert(quoted(s@).subrange(1, quoted(s@).len() - 1) =~= r@);
}

/// A download takes the file from the address that is named, and puts it where it is named.
pub proof fn law_downloads_go_where_they_are_meant(
    url: &str,
    dest: &str,
    r: String,
    from: String,
    to: String,
    asked: String,
)
    requires
        call_ensures(download_script, (url, dest), r),
        call_ensures(ps_escape, (url,), from),
        call_ensures(ps_escape, (dest,), to),
        call_ensures(length_script, (url,), asked),
    ensures
        model::occurs(r@, "-Uri '"@ + from@ + "' "@),
        model::occurs(r@, "-OutFile '"@ + to@ + "' "@),
        model::occurs(asked@, "-Uri '"@ + from@ + "' "@),
{
    reveal_strlit("Invoke-WebRequest -Uri '");
    reveal_strlit("Invoke-WebRequest ");
    reveal_strlit("-Uri '");
    reveal_strlit("' -OutFile '");
    reveal_strlit("' ");
    reveal_strlit("-OutFile '");
    reveal_strlit("' -UseBasicParsing");
    reveal_strlit("-UseBasicParsing");
    reveal_strlit("try { (Invoke-WebRequest -Uri '");
    reveal_strlit("try { (Invoke-WebRequest ");
    reveal_strlit("' -Method Head -UseBasicParsing).Headers['Content-Length'] } catch { '' }");
    reveal_strlit("-Method Head -UseBasicParsing).Headers['Content-Length'] } catch { '' }");
    let a = "-Uri '"@ + from@ + "' "@;
    let b = "-OutFile '"@ + to@ + "' "@;
    assert(r@ =~= "Invoke-WebRequest "@ + a + ("-OutFile '"@ + to@ + "' -UseBasicParsing"@));
    model::lemma_occurs(
        r@,
        "Invoke-WebRequest "@,
        a,
        "-OutFile '"@ + to@ + "' -UseBasicParsing"@,
    );
    assert(r@ =~= ("Invoke-WebRequest -Uri '"@ + from@ + "' "@) + b + "-UseBasicParsing"@);
    model::lemma_occurs(
        r@,
        "Invoke-WebRequest -Uri '"@ + from@ + "' "@,
        b,
        "-UseBasicParsing"@,
    );
    let c = "-Method Head -UseBasicParsing).Headers['Content-Length'] } catch { '' }"@;
    assert(asked@ =~= "try { (Invoke-WebRequest "@ + a + c);
    model::lemma_occurs(asked@, "try { (Invoke-WebRequest "@, a, c);
}

/// An archive is unpacked into the directory that is named, and an installer is run from where it is.
pub proof fn law_scripts_name_their_files(
    zip: &str,
    dest: &str,
    unzip: String,
    from: String,
    to: String,
    git: String,
    python: String,
)
    requires
        call_ensures(unzip_script, (zip, dest), unzip),
        call_ensures(ps_escape, (zip,), from),
        call_ensures(ps_escape, (dest,), to),
        call_ensures(git_install_script, (zip,), git),
        call_ensures(python_install_script, (zip,), python),
    ensures
        model::occurs(unzip@, "-Path '"@ + from@ + "' "@),
        model::occurs(unzip@, "-DestinationPath '"@ + to@ + "' "@),
        model::occurs(git@, "-FilePath '"@ + from@ + "' "@),
        model::occurs(git@, "'/VERYSILENT','/NORESTART'"@),
        model::occurs(python@, "-FilePath '"@ + from@ + "' "@),
        model::occurs(python@, "'/quiet'"@) && model::occurs(python@, "'/PrependPath=1'"@),
{
    reveal_strlit("Expand-Archive -Path '");
    reveal_strlit("Expand-Archive ");
    reveal_strlit("-Path '");
    reveal_strlit("' -DestinationPath '");
    reveal_strlit("-DestinationPath '");
    reveal_strlit("' -Force");
    reveal_strlit("' ");
    reveal_strlit("-Force");
    let a = "-Path '"@ + from@ + "' "@;
    let b = "-DestinationPath '"@ + to@ + "' "@;
    assert(unzip@ =~= "Expand-Archive "@ + a + ("-DestinationPath '"@ + to@ + "' -Force"@));
    model::lemma_occurs(unzip@, "Expand-Archive "@, a, "-DestinationPath '"@ + to@ + "' -Force"@);
    assert(unzip@ =~= ("Expand-Archive -Path '"@ + from@ + "' "@) + b + "-Force"@);
    model::lemma_occurs(unzip@, "Expand-Archive -Path '"@ + from@ + "' "@, b, "-Force"@);
    reveal_strlit("Start-Process -FilePath '");
    reveal_strlit("Start-Process ");
    reveal_strlit("-FilePath '");
    reveal_strlit("' -ArgumentList '/VERYSILENT','/NORESTART' -Verb RunAs");
    reveal_strlit("-ArgumentList '/VERYSILENT','/NORESTART' -Verb RunAs");
    reveal_strlit("'/VERYSILENT','/NORESTART'");
    reveal_strlit("-ArgumentList ");
    reveal_strlit(" -Verb RunAs");
    let c = "-FilePath '"@ + from@ + "' "@;
    let d = "-ArgumentList '/VERYSILENT','/NORESTART' -Verb RunAs"@;
    assert(git@ =~= "Start-Process "@ + c + d);
    model::lemma_occurs(git@, "Start-Process "@, c, d);
    let e = "'/VERYSILENT','/NORESTART'"@;
    assert(git@ =~= ("Start-Process "@ + c + "-ArgumentList "@) + e + " -Verb RunAs"@);
    model::lemma_occurs(git@, "Start-Process "@ + c + "-ArgumentList "@, e, " -Verb RunAs"@);
    reveal_strlit("' -ArgumentList '/quiet','/InstallAllUsers=0','/PrependPath=1','/Include_pip=1' -Verb RunAs -Wait");
    reveal_strlit("-ArgumentList '/quiet','/InstallAllUsers=0','/PrependPath=1','/Include_pip=1' -Verb RunAs -Wait");
    reveal_strlit("'/quiet'");
    reveal_strlit(",'/InstallAllUsers=0','/PrependPath=1','/Include_pip=1' -Verb RunAs -Wait");
    reveal_strlit("-ArgumentList '/quiet','/InstallAllUsers=0',");
    reveal_strlit("'/PrependPath=1'");
    reveal_strlit(",'/Include_pip=1' -Verb RunAs -Wait");
    let f = "-ArgumentList '/quiet','/InstallAllUsers=0','/PrependPath=1','/Include_pip=1' -Verb RunAs -Wait"@;
    assert(python@ =~= "Start-Process "@ + c + f);
    model::lemma_occurs(python@, "Start-Process "@, c, f);
    let g = ",'/InstallAllUsers=0','/PrependPath=1','/Include_pip=1' -Verb RunAs -Wait"@;
    assert(python@ =~= ("Start-Process "@ + c + "-ArgumentList "@) + "'/quiet'"@ + g);
    model::lemma_occurs(python@, "Start-Process "@ + c + "-ArgumentList "@, "'/quiet'"@, g);
    let h = "-ArgumentList '/quiet','/InstallAllUsers=0',"@;
    assert(python@ =~= ("Start-Process "@ + c + h) + "'/PrependPath=1'"@
        + ",'/Include_pip=1' -Verb RunAs -Wait"@);
    model::lemma_occurs(
        python@,
        "Start-Process "@ + c + h,
        "'/PrependPath=1'"@,
        ",'/Include_pip=1' -Verb RunAs -Wait"@,
    );
}

// ---- Downloads ----

/// A download is complete exactly where all of a known length is there; before that only a percentage
/// that has changed is reported, and of an unknown length only that there is more.
pub proof fn law_downloads_are_reported(it: &mut Download, len: u64, r: DownloadNote, percent: i32)
    requires
        call_ensures(Download::poll, (it, len), r),
        call_ensures(download_percent, (len, old(it).total), percent),
    ensures
        r is Complete <==> old(it).total > 0 && len >= old(it).total,
        r matches DownloadNote::Percent(p) ==> p == percent && p <= 99 && percent != old(
            it,
        ).last_percent && old(it).total > 0,
        0 < old(it).total && len < old(it).total && percent != old(it).last_percent ==> r is Percent
            && final(it).last_percent == percent,
        r is More <==> old(it).total == 0 && len != old(it).last_len,
        old(it).total == 0 ==> final(it).last_len == len,
        final(it).total == old(it).total,
{
}

/// The length of a file is the number that was printed, and unknown where none was.
pub proof fn law_lengths_are_read(success: bool, stdout: &str, r: u64)
    requires
        call_ensures(content_length, (success, stdout), r),
    ensures
        !success ==> r == 0,
        success && model::parse_unsigned(model::trim(stdout@), u64::MAX as nat) is Some ==> r
            == model::parse_unsigned(model::trim(stdout@), u64::MAX as nat)->0,
        r != 0 ==> success && model::parse_unsigned(model::trim(stdout@), u64::MAX as nat) == Some(
            r as nat,
        ),
{
}

proof fn lemma_node_entry(names: Seq<Seq<char>>, i: int)
    requires
        0 <= i <= names.len(),
    ensures
        match node_entry(names, i) {
            Some(k) => i <= k < names.len() && model::contains(names[k], "node-v"@) && (forall|j: int|
                i <= j < k ==> !model::contains(#[trigger] names[j], "node-v"@)),
            None => forall|j: int|
                i <= j < names.len() ==> !model::contains(#[trigger] names[j], "node-v"@),
        },
    decreases names.len() - i,
{
    if i < names.len() && !model::contains(names[i], "node-v"@) {
        lemma_node_entry(names, i + 1);
    }
}

/// Among unpacked directories the first one of Node is taken, and it is an error where there is none.
pub proof fn law_nodes_directory_is_taken(names: &Vec<String>, r: Result<usize, String>)
    requires
        call_ensures(pick_node_dir, (names,), r),
    ensures
        r is Ok <==> exists|i: int|
            0 <= i < names@.len() && model::contains((#[trigger] names@[i])@, "node-v"@),
        r is Ok ==> r->Ok_0 < names@.len() && model::contains(
            names@[r->Ok_0 as int]@,
            "node-v"@,
        ) && forall|j: int|
            0 <= j < r->Ok_0 ==> !model::contains((#[trigger] names@[j])@, "node-v"@),
{
    let all = model::texts(names@);
    assert(all.len() == names@.len());
    lemma_node_entry(all, 0);
    match node_entry(all, 0) {
        Some(k) => {
            assert(names@[k]@ == all[k]);
            assert forall|j: int| 0 <= j < k implies !model::contains((#[trigger] names@[j])@, "node-v"@) by {
                assert(all[j] == names@[j]@);
            }
        },
        None => {
            assert forall|j: int| 0 <= j < names@.len() implies !model::contains(
                (#[trigger] names@[j])@,
                "node-v"@,
            ) by {
                assert(all[j] == names@[j]@);
            }
        },
    }
}

// ---- Removing ----

/// Git is told from programs whose names only begin alike, and Python from its parts.
pub proof fn law_programs_are_told_apart(display: &str, keyword: &str, b: bool)
    requires
        call_ensures(uninstall_entry_matches, (display, keyword), b),
    ensures
        keyword@ == "git"@ ==> (b <==> model::trim(display@) == "Git"@ || model::starts_with(
            model::trim(display@),
            "Git for Windows"@,
        )),
        keyword@ == "python"@ && b ==> {
            let d = model::trim(display@);
            &&& model::starts_with(d, "Python "@)
            &&& !model::contains(d, "Launcher"@) && !model::contains(d, "Documentation"@)
                && !model::contains(d, "Test Suite"@) && !model::contains(d, "Standard Library"@)
                && !model::contains(d, "pip Bootstrap"@) && !model::contains(d, "Tcl/Tk"@)
                && !model::contains(d, "Executables"@) && !model::contains(d, "Development"@)
                && !model::contains(d, "Core Interpreter"@) && !model::contains(
                d,
                "Utility Scripts"@,
            )
        },
{
    reveal_strlit("git");
    reveal_strlit("python");
    assert("git"@.len() != "python"@.len());
}

/// The entry can be removed: it is one that is looked for, and has a command.
pub open spec fn removable_entry(entry: UninstallEntry, keyword: Seq<char>, command: Seq<char>) -> bool {
    &&& entry.display_name is Some
    &&& entry.uninstall is Some
    &&& entry_is((entry.display_name->0)@, keyword)
    &&& !model::blank((entry.uninstall->0)@)
    &&& command == model::trim((entry.uninstall->0)@)
}

proof fn lemma_commands(entries: Seq<UninstallEntry>, keyword: Seq<char>, command: Seq<char>)
    ensures
        commands_of(entries, keyword).contains(command) <==> exists|i: int|
            0 <= i < entries.len() && removable_entry(#[trigger] entries[i], keyword, command),
    decreases entries.len(),
{
    let all = commands_of(entries, keyword);
    if entries.len() > 0 {
        let init = entries.drop_last();
        let rest = commands_of(init, keyword);
        let n = entries.len() - 1;
        lemma_commands(init, keyword, command);
        if all.contains(command) {
            let k = choose|k: int| 0 <= k < all.len() && all[k] == command;
            if k < rest.len() {
                assert(rest[k] == command);
                let i = choose|i: int|
                    0 <= i < init.len() && removable_entry(#[trigger] init[i], keyword, command);
                assert(entries[i] == init[i]);
            } else {
                assert(removable_entry(entries[n], keyword, command));
            }
        }
        if exists|i: int|
            0 <= i < entries.len() && removable_entry(#[trigger] entries[i], keyword, command) {
            let i = choose|i: int|
                0 <= i < entries.len() && removable_entry(#[trigger] entries[i], keyword, command);
            if i < n {
                assert(init[i] == entries[i]);
                let k = choose|k: int| 0 <= k < rest.len() && rest[k] == command;
                assert(all[k] == command);
            } else {
                assert(all[rest.len() as int] == command);
            }
        }
    }
}

/// The command that removes a program is that of an entry that is the program; there is one wherever
/// such an entry is, and a program of its own goes before the package manager.
pub proof fn law_which_program_removes(
    entries: &Vec<UninstallEntry>,
    keyword: &str,
    r: Option<String>,
    other: Seq<char>,
)
    requires
        call_ensures(find_uninstall_entry, (entries, keyword), r),
    ensures
        r is Some ==> exists|i: int|
            0 <= i < entries@.len() && removable_entry(#[trigger] entries@[i], keyword@, (r->0)@),
        (exists|i: int|
            0 <= i < entries@.len() && removable_entry(#[trigger] entries@[i], keyword@, other)) ==> {
            &&& r is Some
            &&& model::contains(lowercase((r->0)@), "msiexec"@) ==> model::contains(
                lowercase(other),
                "msiexec"@,
            )
        },
{
    let commands = commands_of(entries@, keyword@);
    let through = through_msi(commands);
    assert(through.len() == commands.len());
    law_own_programs_are_preferred(through);
    lemma_commands(entries@, keyword@, other);
    match preferred(through) {
        Some(i) => {
            assert(commands.contains(commands[i]));
            lemma_commands(entries@, keyword@, commands[i]);
            if commands.contains(other) {
                let k = choose|k: int| 0 <= k < commands.len() && commands[k] == other;
                lemma_first_of_kind(through, false, 0);
                if through[i] {
                    assert(through[k]);
                }
            }
        },
        None => {
            if commands.contains(other) {
                assert(commands.len() > 0);
            }
        },
    }
}

/// Git is removed by the program of its command, without questions and without a restart.
pub proof fn law_git_is_removed_quietly(
    command: &str,
    script: String,
    parts: (String, Vec<String>),
    program: &str,
    name: String,
)
    requires
        call_ensures(git_uninstall_script, (command,), script),
        call_ensures(split_uninstall_cmd, (command,), parts),
        program@ == parts.0@,
        call_ensures(ps_escape, (program,), name),
        parts.1@.len() == 0,
        !model::starts_with(lowercase("/VERYSILENT"@), "/norestart"@),
    ensures
        model::occurs(script@, "-FilePath '"@ + name@ + "' "@),
        model::occurs(script@, "'/VERYSILENT','/NORESTART'"@),
{
    let none = model::texts(parts.1@);
    assert(none =~= seq![]);
    reveal_strlit("/verysilent");
    reveal_strlit("/norestart");
    reveal_strlit("/VERYSILENT");
    reveal_strlit("/NORESTART");
    assert(!has_switch(none, "/verysilent"@));
    let once = none.push("/VERYSILENT"@);
    let args = silent_args(none);
    reveal_strlit("Start-Process -FilePath '");
    reveal_strlit("Start-Process ");
    reveal_strlit("-FilePath '");
    reveal_strlit("' -ArgumentList ");
    reveal_strlit("' ");
    reveal_strlit("-ArgumentList ");
    reveal_strlit(" -Verb RunAs -Wait");
    let a = "-FilePath '"@ + name@ + "' "@;
    let rest = "-ArgumentList "@ + quoted_args(args) + " -Verb RunAs -Wait"@;
    assert(script@ =~= "Start-Process "@ + a + rest);
    model::lemma_occurs(script@, "Start-Process "@, a, rest);
    assert(!has_switch(once, "/norestart"@)) by {
        if has_switch(once, "/norestart"@) {
            let i = choose|i: int|
                0 <= i < once.len() && model::starts_with(lowercase(#[trigger] once[i]), "/norestart"@);
            assert(once[i] == "/VERYSILENT"@);
        }
    }
    let both = args.map_values(|x: Seq<char>| "'"@ + x + "'"@);
    assert(args =~= seq!["/VERYSILENT"@, "/NORESTART"@]);
    assert(both =~= seq!["'"@ + "/VERYSILENT"@ + "'"@, "'"@ + "/NORESTART"@ + "'"@]);
    reveal_with_fuel(model::join, 3);
    assert(both.drop_last() =~= seq!["'"@ + "/VERYSILENT"@ + "'"@]);
    reveal_strlit("'/VERYSILENT','/NORESTART'");
    reveal_strlit("'");
    reveal_strlit(",");
    let q = "'/VERYSILENT','/NORESTART'"@;
    assert(quoted_args(args) =~= q);
    assert(script@ =~= ("Start-Process "@ + a + "-ArgumentList "@) + q + " -Verb RunAs -Wait"@);
    model::lemma_occurs(
        script@,
        "Start-Process "@ + a + "-ArgumentList "@,
        q,
        " -Verb RunAs -Wait"@,
    );
}

/// Python is removed by the program of its command, with the arguments of the command, in their
/// order.
pub proof fn law_python_is_removed_with_its_arguments(
    command: &str,
    script: String,
    parts: (String, Vec<String>),
    program: &str,
    name: String,
    i: int,
)
    requires
        call_ensures(python_uninstall_script, (command,), script),
        call_ensures(split_uninstall_cmd, (command,), parts),
        program@ == parts.0@,
        call_ensures(ps_escape, (program,), name),
    ensures
        model::occurs(script@, "-FilePath '"@ + name@ + "' "@),
        0 <= i < parts.1@.len() ==> model::occurs(script@, "'"@ + parts.1@[i]@ + "'"@),
        0 <= i < parts.1@.len() - 1 ==> model::occurs(
            script@,
            ("'"@ + parts.1@[i]@ + "'"@) + ","@ + ("'"@ + parts.1@[i + 1]@ + "'"@),
        ),
{
    let args = model::texts(parts.1@);
    assert(args.len() == parts.1@.len());
    reveal_strlit("Start-Process -FilePath '");
    reveal_strlit("Start-Process ");
    reveal_strlit("-FilePath '");
    reveal_strlit("' -ArgumentList ");
    reveal_strlit("' ");
    reveal_strlit("-ArgumentList ");
    reveal_strlit("' -Verb RunAs -Wait");
    reveal_strlit("-Verb RunAs -Wait");
    reveal_strlit(" -Verb RunAs -Wait");
    let a = "-FilePath '"@ + name@ + "' "@;
    if args.len() == 0 {
        assert(script@ =~= "Start-Process "@ + a + "-Verb RunAs -Wait"@);
        model::lemma_occurs(script@, "Start-Process "@, a, "-Verb RunAs -Wait"@);
    } else {
        let tail = " -Verb RunAs -Wait"@;
        let q = quoted_args(args);
        let rest = "-ArgumentList "@ + q + tail;
        assert(script@ =~= "Start-Process "@ + a + rest);
        model::lemma_occurs(script@, "Start-Process "@, a, rest);
        let head = "Start-Process "@ + a + "-ArgumentList "@;
        let parted = args.map_values(|x: Seq<char>| "'"@ + x + "'"@);
        if 0 <= i < args.len() {
            assert(args[i] == parts.1@[i]@);
            assert(parted[i] == "'"@ + args[i] + "'"@);
            let (before, after) = lemma_joined(parted, ","@, i);
            assert(script@ =~= (head + before) + parted[i] + (after + tail));
            model::lemma_occurs(script@, head + before, parted[i], after + tail);
            if i + 1 < args.len() {
                assert(args[i + 1] == parts.1@[i + 1]@);
                let two = parted[i] + ","@ + parted[i + 1];
                let (before, after) = lemma_joined_pair(parted, ","@, i);
                assert(script@ =~= (head + before) + two + (after + tail));
                model::lemma_occurs(script@, head + before, two, after + tail);
            }
        }
    }
}

proof fn lemma_joined(parts: Seq<Seq<char>>, by: Seq<char>, i: int) -> (r: (Seq<char>, Seq<char>))
    requires
        0 <= i < parts.len(),
    ensures
        model::join(parts, by) == r.0 + parts[i] + r.1,
    decreases parts.len(),
{
    if i == parts.len() - 1 {
        let before = if parts.len() == 1 {
            seq![]
        } else {
            model::join(parts.drop_last(), by) + by
        };
        assert(model::join(parts, by) =~= before + parts[i] + seq![]);
        (before, seq![])
    } else {
        let (before, after) = lemma_joined(parts.drop_last(), by, i);
        let rest = after + by + parts.last();
        assert(model::join(parts, by) =~= before + parts[i] + rest);
        (before, rest)
    }
}

proof fn lemma_joined_pair(parts: Seq<Seq<char>>, by: Seq<char>, i: int) -> (r: (
    Seq<char>,
    Seq<char>,
))
    requires
        0 <= i < parts.len() - 1,
    ensures
        model::join(parts, by) == r.0 + (parts[i] + by + parts[i + 1]) + r.1,
    decreases parts.len(),
{
    let two = parts[i] + by + parts[i + 1];
    if i == parts.len() - 2 {
        let before = if parts.len() == 2 {
            seq![]
        } else {
            model::join(parts.drop_last().drop_last(), by) + by
        };
        let init = parts.drop_last();
        assert(model::join(init, by) =~= before + parts[i]);
        assert(model::join(parts, by) =~= before + two + seq![]);
        (before, seq![])
    } else {
        let (before, after) = lemma_joined_pair(parts.drop_last(), by, i);
        let rest = after + by + parts.last();
        assert(model::join(parts, by) =~= before + two + rest);
        (before, rest)
    }
}

// ---- Which tools there are ----

/// Every tool is shown under its name, with the version that was found; it is there exactly where a
/// version was found.
pub proof fn law_tools_are_shown_as_found(v: Versions, r: Vec<ToolchainItem>)
    requires
        call_ensures(detect_all, (v,), r),
    ensures
        r@.len() == 5,
        r@[0].name@ == "node"@ && r@[0].installed_version == v.node,
        r@[1].name@ == "npm"@ && r@[1].installed_version == v.npm,
        r@[2].name@ == "pnpm"@ && r@[2].installed_version == v.pnpm,
        r@[3].name@ == "git"@ && r@[3].installed_version == v.git,
        r@[4].name@ == "python"@ && r@[4].installed_version == v.python,
        forall|i: int|
            0 <= i < 5 ==> ((#[trigger] r@[i]).installed_version is Some ==> r@[i].state@ == "present"@)
                && (r@[i].installed_version is None ==> r@[i].state@ == "missing"@),
{
    assert forall|i: int| 0 <= i < 5 implies ((#[trigger] r@[i]).installed_version is Some
        ==> r@[i].state@ == "present"@) && (r@[i].installed_version is None ==> r@[i].state@
        == "missing"@) by {
        assert(i == 0 || i == 1 || i == 2 || i == 3 || i == 4);
    }
}

/// A tool has to be installed exactly where it is not shown as there.
pub proof fn law_missing_tools_are_installed(v: Versions, items: &Vec<ToolchainItem>, tool: Tool, b: bool)
    requires
        call_ensures(detect_all, (v,), *items),
        call_ensures(needs_install, (items, tool), b),
    ensures
        tool is Node ==> (b <==> v.node is None),
        tool is Npm ==> (b <==> v.npm is None),
        tool is Pnpm ==> (b <==> v.pnpm is None),
        tool is Git ==> (b <==> v.git is None),
        tool is Python ==> (b <==> v.python is None),
{
    reveal_strlit("node");
    reveal_strlit("npm");
    reveal_strlit("pnpm");
    reveal_strlit("git");
    reveal_strlit("python");
    reveal_strlit("present");
    reveal_strlit("missing");
    assert("present"@[0] == 'p' && "missing"@[0] == 'm');
    assert("node"@[0] == 'n' && "npm"@[0] == 'n' && "pnpm"@[0] == 'p' && "git"@[0] == 'g'
        && "python"@[0] == 'p');
    assert("node"@.len() == 4 && "npm"@.len() == 3 && "pnpm"@.len() == 4 && "git"@.len() == 3
        && "python"@.len() == 6);
    let all = items@;
    reveal_with_fuel(state_of, 6);
    let four = all.drop_last();
    let three = four.drop_last();
    let two = three.drop_last();
    let one = two.drop_last();
    assert(all.last() == all[4] && four.last() == all[3] && three.last() == all[2] && two.last()
        == all[1] && one.last() == all[0]);
}

/// A tool is known by its own name only; npm and pnpm cannot be removed by themselves.
pub proof fn law_tools_are_known_by_name(
    name: &str,
    add: Result<Tool, String>,
    drop: Result<Tool, String>,
    order: Vec<Tool>,
)
    requires
        call_ensures(installable, (name,), add),
        call_ensures(removable, (name,), drop),
        call_ensures(batch_order, (), order),
    ensures
        add matches Ok(t) ==> name@ == t.text() && (t is Node || t is Pnpm || t is Git || t is Python),
        drop matches Ok(t) ==> name@ == t.text() && (t is Node || t is Git || t is Python),
        name@ == "node"@ ==> add is Ok && drop is Ok,
        name@ == "npm"@ || name@ == "pnpm"@ ==> drop is Err,
        order@.no_duplicates() && order@.len() == 4 && order@[0] is Node && order@[1] is Pnpm,
{
    reveal_strlit("node");
    reveal_strlit("npm");
    reveal_strlit("pnpm");
    reveal_strlit("git");
    reveal_strlit("python");
    assert("node"@[0] == 'n' && "npm"@[0] == 'n' && "pnpm"@[0] == 'p' && "git"@[0] == 'g'
        && "python"@[0] == 'p');
    assert("node"@.len() == 4 && "npm"@.len() == 3 && "pnpm"@.len() == 4 && "git"@.len() == 3
        && "python"@.len() == 6);
}

/// Each of several tools is reported under its own name, as good exactly where it succeeded; pnpm is
/// installed by the npm on the search path where there is one.
pub proof fn law_batches_report_each_tool(
    tool: Tool,
    outcome: Result<String, String>,
    r: BatchResult,
    on_path: bool,
    with_node: bool,
    npm: Result<NpmChoice, String>,
    success: bool,
    stderr: &str,
    registered: bool,
    python: Result<String, String>,
)
    requires
        call_ensures(batch_result, (tool, outcome), r),
        call_ensures(choose_npm, (on_path, with_node), npm),
        call_ensures(python_result, (success, stderr, registered), python),
    ensures
        r.name@ == tool.text() && (r.ok <==> outcome is Ok),
        npm is Ok <==> on_path || with_node,
        npm matches Ok(c) ==> (c is OnPath <==> on_path),
        python is Ok <==> success && registered,
{
}

/// A command without quotes is parted at its first white space: what stands before is the program.
pub proof fn law_programs_stand_first(raw: &str, r: (String, Vec<String>), program: Seq<char>, rest: Seq<char>)
    requires
        call_ensures(split_uninstall_cmd, (raw,), r),
        program.len() > 0,
        program[0] != '"',
        forall|i: int| 0 <= i < program.len() ==> !model::white(#[trigger] program[i]),
        rest.len() == 0 || !model::white(rest.last()),
    ensures
        raw@ == program ==> r.0@ == program && r.1@.len() == 0,
        raw@ == program + seq![' '] + rest && rest.len() > 0 ==> r.0@ == program && model::texts(r.1@)
            == model::words(rest),
{
    let s = raw@;
    let k = CharSet::White;
    reveal_strlit("\"");
    let n = program.len() as int;
    if s == program || (s == program + seq![' '] + rest && rest.len() > 0) {
        assert(s[0] == program[0]);
        assert(s.last() == if s == program {
            program[n - 1]
        } else {
            rest.last()
        });
        crate::text_lemmas::lemma_trim_nothing(s, k);
        assert(model::strip_prefix(s, "\""@) is None) by {
            if model::starts_with(s, "\""@) {
                assert(s.subrange(0, 1)[0] == s[0]);
            }
        }
        model::lemma_first_in(s, k, 0);
        let at = model::first_in(s, k, 0);
        if at < n {
            assert(s[at] == program[at]);
            assert(model::white(program[at]));
        }
        if s != program {
            assert(s[n] == ' ');
            if at > n {
                assert(!k.has(s[n]));
            }
            assert(s.take(at) =~= program);
            assert(s.skip(at + 1) =~= rest);
        } else {
            assert(model::texts(r.1@).len() == r.1@.len());
        }
    }
}

} // verus!
