//! Decisions of the graphical interface: windows, the tray, and what is said while the service
//! starts.

use crate::mcp::{hex_char, hex_digit};
use crate::model;
use crate::process::DshStatus;
use crate::text;
use crate::toolchain::{ps_escape, ps_escaped};
use vstd::prelude::*;

verus! {

// ---- Names of windows ----

/// The hexadecimal digits of a number, without leading zeros.
pub open spec fn hexadecimal(n: nat) -> Seq<char>
    decreases n,
{
    if n < 16 {
        seq![hex_char(n)]
    } else {
        hexadecimal(n / 16).push(hex_char(n % 16))
    }
}

fn hex_text(n: u64) -> (r: String)
    ensures
        r@ == hexadecimal(n as nat),
    decreases n,
{
    if n < 16 {
        let mut r = String::new();
        r.push(hex_digit(n));
        proof {
            assert(r@ =~= seq![hex_char(n as nat)]);
        }
        r
    } else {
        let mut r = hex_text(n / 16);
        r.push(hex_digit(n % 16));
        r
    }
}

/// The suffix of a window's name: the low 32 bits of the time in milliseconds, and a counter.
pub open spec fn window_suffix(millis: nat, count: nat) -> Seq<char> {
    hexadecimal(millis % 0x1_0000_0000) + "-"@ + hexadecimal(count)
}

pub fn unique_window_suffix(millis: u64, count: u64) -> (r: String)
    ensures
        r@ == window_suffix(millis as nat, count as nat),
{
    text::cat3(hex_text(millis % 0x1_0000_0000).as_str(), "-", hex_text(count).as_str())
}

/// The name of a window for the service's own interface.
pub fn window_label(millis: u64, count: u64) -> (r: String)
    ensures
        r@ == "dsh-web-gui-"@ + window_suffix(millis as nat, count as nat),
{
    text::cat2("dsh-web-gui-", unique_window_suffix(millis, count).as_str())
}

proof fn lemma_hex_char(a: nat, b: nat)
    requires
        a < 16,
        b < 16,
        hex_char(a) == hex_char(b),
    ensures
        a == b,
{
}

proof fn lemma_hexadecimal(a: nat, b: nat)
    requires
        hexadecimal(a) == hexadecimal(b),
    ensures
        a == b,
    decreases a,
{
    let s = hexadecimal(a);
    let t = hexadecimal(b);
    lemma_hex_len(a);
    lemma_hex_len(b);
    if a < 16 && b < 16 {
        assert(s[0] == t[0]);
        lemma_hex_char(a, b);
    } else if a >= 16 && b >= 16 {
        assert(s.last() == t.last());
        lemma_hex_char(a % 16, b % 16);
        assert(s.drop_last() =~= hexadecimal(a / 16));
        assert(t.drop_last() =~= hexadecimal(b / 16));
        lemma_hexadecimal(a / 16, b / 16);
    }
}

proof fn lemma_hex_len(a: nat)
    ensures
        hexadecimal(a).len() >= 1,
        a >= 16 ==> hexadecimal(a).len() >= 2,
    decreases a,
{
    if a >= 16 {
        lemma_hex_len(a / 16);
    }
}

proof fn lemma_hex_no_hyphen(a: nat)
    ensures
        forall|i: int| 0 <= i < hexadecimal(a).len() ==> #[trigger] hexadecimal(a)[i] != '-',
    decreases a,
{
    if a >= 16 {
        lemma_hex_no_hyphen(a / 16);
        lemma_hex_no_hyphen(a % 16);
        assert(hexadecimal(a % 16)[0] != '-');
        let s = hexadecimal(a);
        assert forall|i: int| 0 <= i < s.len() implies #[trigger] s[i] != '-' by {
            if i < s.len() - 1 {
                assert(s[i] == hexadecimal(a / 16)[i]);
            }
        }
    }
}

/// Windows that were opened under different counts have different names, whatever the time.
pub proof fn law_window_names_differ(millis: nat, count: nat, other_millis: nat, other_count: nat)
    requires
        window_suffix(millis, count) == window_suffix(other_millis, other_count),
    ensures
        count == other_count,
        millis % 0x1_0000_0000 == other_millis % 0x1_0000_0000,
{
    let a = hexadecimal(millis % 0x1_0000_0000);
    let b = hexadecimal(other_millis % 0x1_0000_0000);
    let x = hexadecimal(count);
    let y = hexadecimal(other_count);
    reveal_strlit("-");
    assert("-"@ =~= seq!['-']);
    let s = a + seq!['-'] + x;
    let t = b + seq!['-'] + y;
    assert(s =~= t);
    lemma_hex_no_hyphen(millis % 0x1_0000_0000);
    lemma_hex_no_hyphen(other_millis % 0x1_0000_0000);
    assert(s[a.len() as int] == '-');
    assert(t[b.len() as int] == '-');
    if a.len() < b.len() {
        assert(t[a.len() as int] == b[a.len() as int]);
    }
    if b.len() < a.len() {
        assert(s[b.len() as int] == a[b.len() as int]);
    }
    assert(s.take(a.len() as int) =~= a);
    assert(t.take(a.len() as int) =~= b);
    assert(s.skip(a.len() as int + 1) =~= x);
    assert(t.skip(a.len() as int + 1) =~= y);
    lemma_hexadecimal(millis % 0x1_0000_0000, other_millis % 0x1_0000_0000);
    lemma_hexadecimal(count, other_count);
}

// ---- New windows ----

/// An address on this machine.
pub open spec fn loopback(host: Option<Seq<char>>) -> bool {
    match host {
        Some(h) => model::same_but_case(h, "127.0.0.1"@) || model::same_but_case(h, "localhost"@)
            || model::same_but_case(h, "::1"@),
        None => false,
    }
}

/// What becomes of a request for a new window: one of the service's own is allowed, any other address
/// is opened in the system's browser.
#[derive(Debug, Clone, Copy, PartialEq, Eq, Structural)]
pub enum NewWindow {
    Allow,
    OpenOutside,
}

pub fn new_window(host: Option<&str>) -> (r: NewWindow)
    ensures
        r == if loopback(model::slice_of(host)) {
            NewWindow::Allow
        } else {
            NewWindow::OpenOutside
        },
{
    let own = match host {
        Some(h) => text::same_but_case(h, "127.0.0.1") || text::same_but_case(h, "localhost")
            || text::same_but_case(h, "::1"),
        None => false,
    };
    if own {
        NewWindow::Allow
    } else {
        NewWindow::OpenOutside
    }
}

// ---- Icons ----

/// The colours of an icon in the order blue, green, red, alpha.
pub open spec fn swapped(rgba: Seq<u8>, n: int) -> Seq<u8>
    decreases n,
{
    if n <= 0 {
        seq![]
    } else {
        let i = 4 * (n - 1);
        swapped(rgba, n - 1) + seq![rgba[i + 2], rgba[i + 1], rgba[i], rgba[i + 3]]
    }
}

/// The mask of an icon: what is opaque is zero.
pub open spec fn mask(rgba: Seq<u8>, n: int) -> Seq<u8>
    decreases n,
{
    if n <= 0 {
        seq![]
    } else {
        mask(rgba, n - 1).push(rgba[4 * (n - 1) + 3].wrapping_sub(255))
    }
}

/// The colours and the mask of an icon. A rest of fewer than four bytes is left out.
pub fn icon_planes(rgba: &[u8]) -> (r: (Vec<u8>, Vec<u8>))
    ensures
        r.0@ == swapped(rgba@, rgba@.len() as int / 4),
        r.1@ == mask(rgba@, rgba@.len() as int / 4),
{
    let mut colours: Vec<u8> = Vec::new();
    let mut opaque: Vec<u8> = Vec::new();
    let pixels: usize = rgba.len() / 4;
    let mut n: usize = 0;
    while n < pixels
        invariant
            pixels == rgba@.len() / 4,
            rgba@.len() <= usize::MAX,
            n <= pixels,
            colours@ == swapped(rgba@, n as int),
            opaque@ == mask(rgba@, n as int),
        decreases pixels - n,
    {
        let i: usize = 4 * n;
        let ghost before = colours@;
        colours.push(rgba[i + 2]);
        colours.push(rgba[i + 1]);
        colours.push(rgba[i]);
        colours.push(rgba[i + 3]);
        opaque.push(rgba[i + 3].wrapping_sub(255));
        proof {
            assert(colours@ =~= before + seq![
                rgba@[i + 2],
                rgba@[i + 1],
                rgba@[i as int],
                rgba@[i + 3],
            ]);
        }
        n += 1;
    }
    (colours, opaque)
}

// ---- Starting ----

/// Whether a start is still to be waited for: not once the port is taken, the service has ended, or
/// the time is up.
pub fn keep_waiting(in_use: bool, status: DshStatus, time_is_up: bool) -> (b: bool)
    ensures
        b == (!time_is_up && !in_use && (status == DshStatus::Starting || status
            == DshStatus::Running || status == DshStatus::Stopping)),
{
    !time_is_up && !in_use && matches!(
        status,
        DshStatus::Starting | DshStatus::Running | DshStatus::Stopping
    )
}

/// What is said once a start has been waited for.
pub fn start_message(port: u16, in_use: bool) -> (r: String)
    ensures
        r@ == if in_use {
            "dsh 已启动并就绪，端口 "@ + model::decimal(port as nat)
        } else {
            "dsh 已启动（端口 "@ + model::decimal(port as nat) + " 等待就绪中…）"@
        },
{
    if in_use {
        text::cat2("dsh 已启动并就绪，端口 ", text::decimal(port as u64).as_str())
    } else {
        text::cat3("dsh 已启动（端口 ", text::decimal(port as u64).as_str(), " 等待就绪中…）")
    }
}

/// The address of the service: the one that was seen, else the last one in the log.
pub fn choose_web_url(known: &str, logged: Option<&str>) -> (r: String)
    ensures
        r@ == if known@.len() > 0 {
            known@
        } else {
            match logged {
                Some(url) => url@,
                None => ""@,
            }
        },
{
    if !known.is_empty() {
        return known.to_owned();
    }
    match logged {
        Some(url) => url.to_owned(),
        None => "".to_owned(),
    }
}

/// The script that puts a shortcut to the launcher on the desktop.
pub fn shortcut_script(link: &str, program: &str) -> (r: String)
    ensures
        r@ == "$ws=New-Object -ComObject WScript.Shell; $s=$ws.CreateShortcut('"@ + ps_escaped(
            link@,
        ) + "'); $s.TargetPath='"@ + ps_escaped(program@)
            + "'; $s.Arguments='--web-gui'; $s.IconLocation='"@ + ps_escaped(program@)
            + "'; $s.Save()"@,
{
    text::cat7(
        "$ws=New-Object -ComObject WScript.Shell; $s=$ws.CreateShortcut('",
        ps_escape(link).as_str(),
        "'); $s.TargetPath='",
        ps_escape(program).as_str(),
        "'; $s.Arguments='--web-gui'; $s.IconLocation='",
        ps_escape(program).as_str(),
        "'; $s.Save()",
    )
}

/// What came of creating the shortcut: it must be there afterwards.
pub fn shortcut_result(success: bool, stderr: &str, exists: bool, link: &str) -> (r: Result<
    String,
    String,
>)
    ensures
        r is Ok == (success && exists),
        match r {
            Ok(m) => m@ == "已创建桌面快捷方式（打开内嵌窗口）: "@ + link@,
            Err(m) => m@ == if !success {
                "创建快捷方式失败: "@ + model::trim(stderr@)
            } else {
                "创建快捷方式失败（文件未生成）"@
            },
        },
{
    if !success {
        Err(text::cat2("创建快捷方式失败: ", text::trim(stderr).as_str()))
    } else if exists {
        Ok(text::cat2("已创建桌面快捷方式（打开内嵌窗口）: ", link))
    } else {
        Err("创建快捷方式失败（文件未生成）".to_owned())
    }
}

// ---- The tray and the main window ----

/// What is chosen in the menu of the tray.
#[derive(Debug, Clone, Copy, PartialEq, Eq, Structural)]
pub enum MenuChoice {
    Show,
    Start,
    Stop,
    Restart,
    Quit,
}

pub open spec fn menu_choice(id: Seq<char>) -> Option<MenuChoice> {
    if id == "show"@ {
        Some(MenuChoice::Show)
    } else if id == "start"@ {
        Some(MenuChoice::Start)
    } else if id == "stop"@ {
        Some(MenuChoice::Stop)
    } else if id == "restart"@ {
        Some(MenuChoice::Restart)
    } else if id == "quit"@ {
        Some(MenuChoice::Quit)
    } else {
        None
    }
}

pub fn parse_menu(id: &str) -> (r: Option<MenuChoice>)
    ensures
        r == menu_choice(id@),
{
    if text::same(id, "show") {
        Some(MenuChoice::Show)
    } else if text::same(id, "start") {
        Some(MenuChoice::Start)
    } else if text::same(id, "stop") {
        Some(MenuChoice::Stop)
    } else if text::same(id, "restart") {
        Some(MenuChoice::Restart)
    } else if text::same(id, "quit") {
        Some(MenuChoice::Quit)
    } else {
        None
    }
}

/// What happens when a window is to be closed.
#[derive(Debug, Clone, Copy, PartialEq, Eq, Structural)]
pub enum CloseStep {
    /// It is closed.
    Close,
    /// The service is stopped, then the launcher ends.
    StopAndExit,
    /// The window is hidden, and the service goes on.
    Hide,
}

/// Only the main window follows the settings.
pub fn plan_close(is_main: bool, close_exits: bool) -> (r: CloseStep)
    ensures
        r == if !is_main {
            CloseStep::Close
        } else if close_exits {
            CloseStep::StopAndExit
        } else {
            CloseStep::Hide
        },
{
    if !is_main {
        CloseStep::Close
    } else if close_exits {
        CloseStep::StopAndExit
    } else {
        CloseStep::Hide
    }
}

/// Whether a window that was minimised is hidden in the tray.
pub fn hides_when_minimized(is_main: bool, minimize_to_tray: bool, minimized: bool) -> (b: bool)
    ensures
        b == (is_main && minimize_to_tray && minimized),
{
    is_main && minimize_to_tray && minimized
}

/// Whether the service is stopped before the launcher ends.
pub fn stops_on_quit(keep_dsh_on_exit: bool) -> (b: bool)
    ensures
        b == !keep_dsh_on_exit,
{
    !keep_dsh_on_exit
}

} // verus!
