//! What holds of the windows, the tray and the programs that files are opened with.

use crate::editor::{
    check_skill_file, command_words, law_quoted_programs_are_one_word, split_command_line,
    words_from, OpenAction, OpenError, OpenRun, OpenTarget,
};
use crate::model;
use crate::process::DshStatus;
use crate::skill::{parse_open, remaining, skill_forget_source, OpenRequest};
use crate::toolchain::ps_escape;
use crate::window::{
    choose_web_url, hides_when_minimized, icon_planes, keep_waiting, law_window_names_differ,
    mask, new_window, parse_menu, plan_close, shortcut_result, shortcut_script, start_message,
    stops_on_quit, swapped, window_label, CloseStep, MenuChoice, NewWindow,
};
use vstd::prelude::*;

verus! {

// ---- Opening ----

/// An editor is used exactly where one is set: its program is the first word of the setting, the
/// other words are its first arguments, and the file comes last.
pub proof fn law_the_set_editor_is_used(
    path: String,
    created: bool,
    configured: &str,
    r: (OpenRun, OpenAction),
    trimmed: &str,
    words: Vec<String>,
    i: int,
)
    requires
        call_ensures(OpenRun::begin, (path, created, configured), r),
        trimmed@ == model::trim(configured@),
        call_ensures(split_command_line, (trimmed,), words),
    ensures
        model::blank(configured@) ==> r.1 is System,
        !model::blank(configured@) && words@.len() > 0 ==> (r.1 matches OpenAction::Editor {
            program,
            args,
        } && {
            &&& program@ == words@[0]@
            &&& args@.len() == words@.len()
            &&& args@.last()@ == path@
            &&& 1 <= i < words@.len() ==> args@[i - 1]@ == words@[i]@
        }),
        r.0.path == path && r.0.created == created,
{
    let given = model::texts(words@);
    assert(given.len() == words@.len());
    if !model::blank(configured@) && words@.len() > 0 {
        let all = given.push(path@);
        match r.1 {
            OpenAction::Editor { program, args } => {
                let t = model::texts(args@);
                assert(t.len() == args@.len());
                assert(t == all.skip(1));
                assert(all[0] == given[0] && given[0] == words@[0]@);
                assert(t.last() == path@);
                assert(t[t.len() - 1] == args@[args@.len() - 1]@);
                if 1 <= i < words@.len() {
                    assert(t[i - 1] == all[i]);
                    assert(all[i] == given[i] && given[i] == words@[i]@);
                    assert(t[i - 1] == args@[i - 1]@);
                }
            },
            _ => {},
        }
    }
}

/// Where the editor fails, the system's own program is tried, and only then it is a failure; the
/// report names what was opened, and by what.
pub proof fn law_opening_goes_on(run: &mut OpenRun, outcome: Result<(), String>, r: OpenAction)
    requires
        call_ensures(OpenRun::step, (run, outcome), r),
    ensures
        outcome is Err && old(run).editing ==> r is System && !final(run).editing,
        outcome is Err && !old(run).editing ==> r is Failed,
        outcome is Ok ==> (r matches OpenAction::Done(report) && report.path@ == old(run).path@
            && report.created == old(run).created && (old(run).editing ==> report.via@ == "editor"@) && (
        !old(run).editing ==> report.via@ == "system"@)),
{
}

/// Only three things can be opened by name, each below the agents' directory under its own name, and a
/// file of a skill only where it is managed.
pub proof fn law_what_can_be_opened(
    value: &str,
    r: Result<OpenTarget, OpenError>,
    home: &str,
    target: OpenTarget,
    path: String,
    managed: bool,
    may: Result<(), OpenError>,
)
    requires
        call_ensures(OpenTarget::parse, (value,), r),
        call_ensures(OpenTarget::resolve, (target, home), path),
        call_ensures(check_skill_file, (managed,), may),
    ensures
        r is Ok <==> value@ == "agents-md"@ || value@ == "context-md"@ || value@ == "skills-root"@,
        r matches Ok(t) ==> (t is AgentsMd <==> value@ == "agents-md"@) && (t is ContextMd <==> value@
            == "context-md"@) && (t is SkillsRoot <==> value@ == "skills-root"@),
        model::starts_with(path@, home@),
        target is AgentsMd ==> model::ends_with(path@, "AGENTS.md"@),
        target is ContextMd ==> model::ends_with(path@, "CONTEXT.md"@),
        target is SkillsRoot ==> model::ends_with(path@, "skills"@),
        may is Ok <==> managed,
{
    reveal_strlit("agents-md");
    reveal_strlit("context-md");
    reveal_strlit("skills-root");
    assert("agents-md"@[0] == 'a' && "context-md"@[0] == 'c' && "skills-root"@[0] == 's');
    let leaf = target.leaf();
    assert(path@.subrange(0, home@.len() as int) =~= home@);
    assert(path@.subrange(path@.len() - leaf.len(), path@.len() as int) =~= leaf);
}

/// A program in quotes is one word of the command, whatever spaces its path holds.
pub proof fn law_quotes_hold_words_together(program: Seq<char>, q: char, input: &str, r: Vec<String>)
    requires
        q == '"' || q == '\'',
        forall|i: int| 0 <= i < program.len() ==> #[trigger] program[i] != q,
        input@ == seq![q] + program + seq![q],
        call_ensures(split_command_line, (input,), r),
    ensures
        r@.len() == 1 && r@[0]@ == program,
{
    law_quoted_programs_are_one_word(program, q);
    let t = model::texts(r@);
    assert(t.len() == r@.len());
    assert(t[0] == r@[0]@);
}

proof fn lemma_plain_word(s: Seq<char>, i: int, word: Seq<char>)
    requires
        0 <= i <= s.len(),
        forall|k: int|
            0 <= k < s.len() ==> !model::white(#[trigger] s[k]) && s[k] != '"' && s[k] != '\'',
    ensures
        words_from(s, i, word, true, None) == seq![word + s.skip(i)],
    decreases s.len() - i,
{
    if i < s.len() {
        lemma_plain_word(s, i + 1, word.push(s[i]));
        assert(word.push(s[i]) + s.skip(i + 1) =~= word + s.skip(i));
    } else {
        assert(word + s.skip(i) =~= word);
    }
}

/// A command without quotes and spaces is one word, and an empty one is none.
pub proof fn law_plain_commands_are_one_word(input: &str, r: Vec<String>)
    requires
        call_ensures(split_command_line, (input,), r),
        forall|k: int|
            0 <= k < input@.len() ==> !model::white(#[trigger] input@[k]) && input@[k] != '"'
                && input@[k] != '\'',
    ensures
        input@.len() == 0 ==> r@.len() == 0,
        input@.len() > 0 ==> r@.len() == 1 && r@[0]@ == input@,
{
    let s = input@;
    let t = model::texts(r@);
    assert(t.len() == r@.len());
    crate::text_lemmas::lemma_trim_nothing(s, model::CharSet::White);
    if s.len() > 0 {
        lemma_plain_word(s, 1, seq![s[0]]);
        assert(Seq::<char>::empty().push(s[0]) =~= seq![s[0]]);
        assert(seq![s[0]] + s.skip(1) =~= s);
        assert(t[0] == r@[0]@);
    }
}

/// A request opens exactly one thing: a named target or a file, never both and never none.
pub proof fn law_one_thing_is_opened(
    target: Option<String>,
    path: Option<String>,
    r: Result<OpenRequest, OpenError>,
)
    requires
        call_ensures(parse_open, (target, path), r),
    ensures
        r is Ok ==> target is Some != path is Some,
        r matches Ok(OpenRequest::SkillFile(f)) ==> path == Some(f),
        r matches Ok(OpenRequest::Target(t)) ==> target is Some && path is None,
        target is None && path is Some ==> r is Ok,
{
}

proof fn lemma_kept(urls: Seq<Seq<char>>, url: Seq<char>, i: int)
    requires
        urls.len() <= usize::MAX,
        0 <= i,
    ensures
        (exists|k: int| 0 <= k < remaining(urls, url).len() && #[trigger] remaining(urls, url)[k] == i)
            <==> i < urls.len() && urls[i] != url,
    decreases urls.len(),
{
    let out = remaining(urls, url);
    if urls.len() > 0 {
        let init = urls.drop_last();
        let rest = remaining(init, url);
        let n = urls.len() - 1;
        lemma_kept(init, url, i);
        if urls.last() != url {
            assert(out[rest.len() as int] == n);
        }
        if i < n && urls[i] != url {
            assert(init[i] == urls[i]);
            let k = choose|k: int| 0 <= k < rest.len() && #[trigger] rest[k] == i;
            assert(out[k] == i);
        }
        if exists|k: int| 0 <= k < out.len() && #[trigger] out[k] == i {
            let k = choose|k: int| 0 <= k < out.len() && #[trigger] out[k] == i;
            if k < rest.len() {
                assert(rest[k] == i);
            }
        }
    }
}

/// Forgetting a source of skills keeps every other one, and is an error where it is not known.
pub proof fn law_other_sources_stay(urls: &Vec<String>, url: &str, r: Result<Vec<usize>, String>, i: int)
    requires
        call_ensures(skill_forget_source, (urls, url), r),
        0 <= i < urls@.len(),
        urls@.len() <= usize::MAX,
    ensures
        urls@[i]@ == url@ ==> r is Ok,
        r is Ok ==> ((exists|k: int| 0 <= k < r->Ok_0@.len() && #[trigger] r->Ok_0@[k] == i) <==> urls@[i]@
            != url@),
{
    let t = model::texts(urls@);
    assert(t.len() == urls@.len() && t[i] == urls@[i]@);
    lemma_kept(t, url@, i);
}

// ---- Windows ----

/// Windows that are opened one after the other have names of their own.
pub proof fn law_windows_have_their_own_names(
    millis: u64,
    count: u64,
    later: u64,
    next: u64,
    a: String,
    b: String,
)
    requires
        call_ensures(window_label, (millis, count), a),
        call_ensures(window_label, (later, next), b),
        a@ == b@,
    ensures
        count == next,
{
    let p = "dsh-web-gui-"@;
    let x = crate::window::window_suffix(millis as nat, count as nat);
    let y = crate::window::window_suffix(later as nat, next as nat);
    assert(a@.skip(p.len() as int) =~= x);
    assert(b@.skip(p.len() as int) =~= y);
    law_window_names_differ(millis as nat, count as nat, later as nat, next as nat);
}

/// Only an address on this machine gets a window of the launcher; any other goes to the system's
/// browser.
pub proof fn law_other_addresses_go_outside(host: &str, r: NewWindow, none: NewWindow)
    requires
        call_ensures(new_window, (Some(host),), r),
        call_ensures(new_window, (None::<&str>,), none),
    ensures
        r is Allow <==> model::same_but_case(host@, "127.0.0.1"@) || model::same_but_case(
            host@,
            "localhost"@,
        ) || model::same_but_case(host@, "::1"@),
        none is OpenOutside,
{
}

proof fn lemma_planes(rgba: Seq<u8>, n: int, i: int)
    requires
        0 <= i < n,
        4 * n <= rgba.len(),
    ensures
        swapped(rgba, n).len() == 4 * n,
        mask(rgba, n).len() == n,
        swapped(rgba, n)[4 * i] == rgba[4 * i + 2],
        swapped(rgba, n)[4 * i + 1] == rgba[4 * i + 1],
        swapped(rgba, n)[4 * i + 2] == rgba[4 * i],
        swapped(rgba, n)[4 * i + 3] == rgba[4 * i + 3],
        mask(rgba, n)[i] == rgba[4 * i + 3].wrapping_sub(255),
    decreases n,
{
    if n > 1 {
        if i < n - 1 {
            lemma_planes(rgba, n - 1, i);
        } else {
            lemma_planes(rgba, n - 1, 0);
        }
    } else {
        assert(swapped(rgba, 0) =~= seq![]);
        assert(mask(rgba, 0) =~= seq![]);
    }
}

/// Each point of an icon keeps its colours, with red and blue exchanged; what is opaque is not masked.
pub proof fn law_icons_keep_their_colours(rgba: &[u8], r: (Vec<u8>, Vec<u8>), i: int)
    requires
        call_ensures(icon_planes, (rgba,), r),
        0 <= i < rgba@.len() / 4,
    ensures
        r.0@.len() == 4 * (rgba@.len() / 4),
        r.0@[4 * i] == rgba@[4 * i + 2] && r.0@[4 * i + 1] == rgba@[4 * i + 1] && r.0@[4 * i + 2]
            == rgba@[4 * i] && r.0@[4 * i + 3] == rgba@[4 * i + 3],
        r.1@.len() == rgba@.len() / 4,
        rgba@[4 * i + 3] == 255 ==> r.1@[i] == 0,
        rgba@[4 * i + 3] == 0 ==> r.1@[i] == 1,
{
    lemma_planes(rgba@, rgba@.len() as int / 4, i);
}

/// A start is waited for as long as the service is on its way, its port is not taken and there is
/// time; the port is then named.
pub proof fn law_starts_are_waited_for(
    in_use: bool,
    status: DshStatus,
    up: bool,
    b: bool,
    port: u16,
    told: String,
)
    requires
        call_ensures(keep_waiting, (in_use, status, up), b),
        call_ensures(start_message, (port, in_use), told),
    ensures
        up || in_use || status is Stopped || status is Error ==> !b,
        !up && !in_use && status is Starting ==> b,
        model::occurs(told@, model::decimal(port as nat)),
{
    if in_use {
        let head = "dsh 已启动并就绪，端口 "@;
        assert(told@ =~= head + model::decimal(port as nat) + Seq::<char>::empty());
        model::lemma_occurs(told@, head, model::decimal(port as nat), Seq::<char>::empty());
    } else {
        model::lemma_occurs(
            told@,
            "dsh 已启动（端口 "@,
            model::decimal(port as nat),
            " 等待就绪中…）"@,
        );
    }
}

/// The address that was seen goes before the one in the log.
pub proof fn law_the_seen_address_is_used(known: &str, logged: Option<&str>, r: String)
    requires
        call_ensures(choose_web_url, (known, logged), r),
    ensures
        known@.len() > 0 ==> r@ == known@,
        known@.len() == 0 && logged is Some ==> r@ == (logged->0)@,
        known@.len() == 0 && logged is None ==> r@.len() == 0,
{
    reveal_strlit("");
}

/// The shortcut is put where it is named, starts the launcher with its window, and counts as made only
/// where it is there.
pub proof fn law_shortcuts_lead_to_the_launcher(
    link: &str,
    program: &str,
    script: String,
    at: String,
    to: String,
    success: bool,
    stderr: &str,
    there: bool,
    r: Result<String, String>,
)
    requires
        call_ensures(shortcut_script, (link, program), script),
        call_ensures(ps_escape, (link,), at),
        call_ensures(ps_escape, (program,), to),
        call_ensures(shortcut_result, (success, stderr, there, link), r),
    ensures
        model::occurs(script@, "CreateShortcut('"@ + at@ + "')"@),
        model::occurs(script@, "$s.TargetPath='"@ + to@ + "'"@),
        model::occurs(script@, "$s.Arguments='--web-gui'"@),
        r is Ok <==> success && there,
{
    reveal_strlit("$ws=New-Object -ComObject WScript.Shell; $s=$ws.CreateShortcut('");
    reveal_strlit("$ws=New-Object -ComObject WScript.Shell; $s=$ws.");
    reveal_strlit("CreateShortcut('");
    reveal_strlit("')");
    reveal_strlit("'); $s.TargetPath='");
    reveal_strlit("; $s.TargetPath='");
    reveal_strlit("; ");
    reveal_strlit("$s.TargetPath='");
    reveal_strlit("'");
    reveal_strlit("'; $s.Arguments='--web-gui'; $s.IconLocation='");
    reveal_strlit("; $s.Arguments='--web-gui'; $s.IconLocation='");
    reveal_strlit("$s.Arguments='--web-gui'");
    reveal_strlit("; $s.IconLocation='");
    reveal_strlit("'; $s.Save()");
    let head = "$ws=New-Object -ComObject WScript.Shell; $s=$ws."@;
    let a = "CreateShortcut('"@ + at@ + "')"@;
    let b = "$s.TargetPath='"@ + to@ + "'"@;
    let c = "$s.Arguments='--web-gui'"@;
    let tail = "; $s.IconLocation='"@ + to@ + "'; $s.Save()"@;
    assert(script@ =~= head + a + ("; "@ + b + "; "@ + c + tail));
    model::lemma_occurs(script@, head, a, "; "@ + b + "; "@ + c + tail);
    assert(script@ =~= (head + a + "; "@) + b + ("; "@ + c + tail));
    model::lemma_occurs(script@, head + a + "; "@, b, "; "@ + c + tail);
    assert(script@ =~= (head + a + "; "@ + b + "; "@) + c + tail);
    model::lemma_occurs(script@, head + a + "; "@ + b + "; "@, c, tail);
}

/// The menu of the tray does what it says, closing follows the settings for the main window only, and
/// the service is stopped on quitting exactly where it is not to be kept.
pub proof fn law_the_window_follows_the_settings(
    id: &str,
    choice: Option<MenuChoice>,
    is_main: bool,
    close_exits: bool,
    step: CloseStep,
    to_tray: bool,
    minimized: bool,
    hides: bool,
    keep: bool,
    stops: bool,
)
    requires
        call_ensures(parse_menu, (id,), choice),
        call_ensures(plan_close, (is_main, close_exits), step),
        call_ensures(hides_when_minimized, (is_main, to_tray, minimized), hides),
        call_ensures(stops_on_quit, (keep,), stops),
    ensures
        choice == Some(MenuChoice::Start) <==> id@ == "start"@,
        choice == Some(MenuChoice::Stop) <==> id@ == "stop"@,
        choice == Some(MenuChoice::Restart) <==> id@ == "restart"@,
        choice == Some(MenuChoice::Quit) <==> id@ == "quit"@,
        choice == Some(MenuChoice::Show) <==> id@ == "show"@,
        step is StopAndExit <==> is_main && close_exits,
        step is Hide <==> is_main && !close_exits,
        hides <==> is_main && to_tray && minimized,
        stops <==> !keep,
{
    reveal_strlit("show");
    reveal_strlit("start");
    reveal_strlit("stop");
    reveal_strlit("restart");
    reveal_strlit("quit");
    assert("show"@.len() == 4 && "start"@.len() == 5 && "stop"@.len() == 4 && "restart"@.len() == 7
        && "quit"@.len() == 4);
    assert("show"@[1] == 'h' && "stop"@[1] == 't' && "quit"@[1] == 'u');
}

proof fn lemma_word_then(s: Seq<char>, i: int, n: int, word: Seq<char>)
    requires
        0 <= i <= n < s.len(),
        model::white(s[n]),
        !(s[n] == '"' || s[n] == '\''),
        forall|k: int|
            i <= k < n ==> !model::white(#[trigger] s[k]) && s[k] != '"' && s[k] != '\'',
    ensures
        words_from(s, i, word, true, None) == seq![word + s.subrange(i, n)] + words_from(
            s,
            n + 1,
            seq![],
            false,
            None,
        ),
    decreases n - i,
{
    if i < n {
        lemma_word_then(s, i + 1, n, word.push(s[i]));
        assert(word.push(s[i]) + s.subrange(i + 1, n) =~= word + s.subrange(i, n));
    } else {
        assert(word + s.subrange(i, n) =~= word);
    }
}

/// A space parts two words.
pub proof fn law_spaces_part_words(first: Seq<char>, second: Seq<char>, input: &str, r: Vec<String>)
    requires
        first.len() > 0,
        second.len() > 0,
        forall|k: int|
            0 <= k < first.len() ==> !model::white(#[trigger] first[k]) && first[k] != '"' && first[k]
                != '\'',
        forall|k: int|
            0 <= k < second.len() ==> !model::white(#[trigger] second[k]) && second[k] != '"'
                && second[k] != '\'',
        input@ == first + seq![' '] + second,
        call_ensures(split_command_line, (input,), r),
    ensures
        r@.len() == 2 && r@[0]@ == first && r@[1]@ == second,
{
    let s = input@;
    let n = first.len() as int;
    let t = model::texts(r@);
    assert(t.len() == r@.len());
    assert(s[0] == first[0] && s.last() == second[second.len() - 1]);
    crate::text_lemmas::lemma_trim_nothing(s, model::CharSet::White);
    assert forall|k: int| 1 <= k < n implies !model::white(#[trigger] s[k]) && s[k] != '"' && s[k] != '\'' by {
        assert(s[k] == first[k]);
    }
    assert(s[n] == ' ');
    lemma_word_then(s, 1, n, seq![s[0]]);
    assert(Seq::<char>::empty().push(s[0]) =~= seq![s[0]]);
    assert(seq![s[0]] + s.subrange(1, n) =~= first);
    assert(s.skip(n + 1) =~= second);
    lemma_last_word(s, n + 1, second);
    assert(command_words(s) =~= seq![first, second]);
    assert(t[0] == r@[0]@ && t[1] == r@[1]@);
}

proof fn lemma_last_word(s: Seq<char>, i: int, word: Seq<char>)
    requires
        0 <= i < s.len(),
        s.skip(i) == word,
        forall|k: int|
            0 <= k < word.len() ==> !model::white(#[trigger] word[k]) && word[k] != '"' && word[k] != '\'',
    ensures
        words_from(s, i, seq![], false, None) == seq![word],
{
    assert(s[i] == word[0]);
    assert forall|k: int| i + 1 <= k < s.len() implies !model::white(#[trigger] s[k]) && s[k] != '"'
        && s[k] != '\'' by {
        assert(s[k] == word[k - i]);
    }
    lemma_tail_word(s, i + 1, seq![s[i]]);
    assert(Seq::<char>::empty().push(s[i]) =~= seq![s[i]]);
    assert(seq![s[i]] + s.skip(i + 1) =~= word);
}

proof fn lemma_tail_word(s: Seq<char>, i: int, word: Seq<char>)
    requires
        0 <= i <= s.len(),
        forall|k: int|
            i <= k < s.len() ==> !model::white(#[trigger] s[k]) && s[k] != '"' && s[k] != '\'',
    ensures
        words_from(s, i, word, true, None) == seq![word + s.skip(i)],
    decreases s.len() - i,
{
    if i < s.len() {
        lemma_tail_word(s, i + 1, word.push(s[i]));
        assert(word.push(s[i]) + s.skip(i + 1) =~= word + s.skip(i));
    } else {
        assert(word + s.skip(i) =~= word);
    }
}

} // verus!
