//! The settings of the launcher.

use crate::json;
use crate::json::{json_failure, json_text};
use crate::model;
use crate::stream;
use crate::text;
use vstd::prelude::*;
use vstd::utf8::{decode_utf8, valid_utf8};

verus! {

/// The port of the service where none is set.
pub const DEFAULT_PORT: u16 = 3080;

/// What stands before a token that is kept encrypted.
pub const DPAPI_PREFIX: &'static str = "dpapi1:";

/// The settings.
pub struct AppConfig {
    pub port: u16,
    /// The registry of packages; empty for the official one.
    pub npm_registry: String,
    /// A mirror of GitHub; empty for GitHub itself.
    pub github_mirror: String,
    pub github_token: String,
    /// A mirror for Node; empty for the official source.
    pub node_mirror: String,
    /// Closing the window ends the launcher and the service.
    pub close_exits: bool,
    pub minimize_to_tray: bool,
    /// The service stays when the launcher ends.
    pub keep_dsh_on_exit: bool,
    /// The user's data stays when the service is removed.
    pub keep_dsh_home_on_uninstall: bool,
    pub auto_start_dsh: bool,
    pub auto_open_browser: bool,
    pub auto_sync_plugins: bool,
    /// The editor's command; empty for the system's default program.
    pub editor_command: String,
    /// The user was asked for an editor already.
    pub editor_prompt_seen: bool,
}

impl Default for AppConfig {
    fn default() -> (r: Self)
        ensures
            r.is_default(),
    {
        let r = AppConfig {
            port: DEFAULT_PORT,
            npm_registry: String::new(),
            github_mirror: String::new(),
            github_token: String::new(),
            node_mirror: String::new(),
            close_exits: false,
            minimize_to_tray: true,
            keep_dsh_on_exit: false,
            keep_dsh_home_on_uninstall: true,
            auto_start_dsh: false,
            auto_open_browser: true,
            auto_sync_plugins: true,
            editor_command: String::new(),
            editor_prompt_seen: false,
        };
        proof {
            assert(r.npm_registry@ =~= seq![]);
            assert(r.github_mirror@ =~= seq![]);
            assert(r.github_token@ =~= seq![]);
            assert(r.node_mirror@ =~= seq![]);
            assert(r.editor_command@ =~= seq![]);
        }
        r
    }
}

impl AppConfig {
    /// The settings are those of a fresh installation.
    pub open spec fn is_default(&self) -> bool {
        &&& self.port == DEFAULT_PORT
        &&& self.npm_registry@ == Seq::<char>::empty()
        &&& self.github_mirror@ == Seq::<char>::empty()
        &&& self.github_token@ == Seq::<char>::empty()
        &&& self.node_mirror@ == Seq::<char>::empty()
        &&& !self.close_exits
        &&& self.minimize_to_tray
        &&& !self.keep_dsh_on_exit
        &&& self.keep_dsh_home_on_uninstall
        &&& !self.auto_start_dsh
        &&& self.auto_open_browser
        &&& self.auto_sync_plugins
        &&& self.editor_command@ == Seq::<char>::empty()
        &&& !self.editor_prompt_seen
    }

    /// The registry that packages are to come from, if one is set.
    pub open spec fn registry(&self) -> Option<Seq<char>> {
        if model::blank(self.npm_registry@) {
            None
        } else {
            Some(model::trim(self.npm_registry@))
        }
    }

    pub fn npm_registry_url(&self) -> (r: Option<String>)
        ensures
            model::text_of(r) == self.registry(),
    {
        if text::blank(self.npm_registry.as_str()) {
            None
        } else {
            Some(text::trim(self.npm_registry.as_str()))
        }
    }
}

/// The registry of the given settings.
pub fn current_npm_registry(config: &AppConfig) -> (r: Option<String>)
    ensures
        model::text_of(r) == config.registry(),
{
    config.npm_registry_url()
}

// ---- Bytes as text ----

/// The character for four bits.
pub open spec fn nibble(n: int) -> char {
    if n < 10 {
        ((0x30 + n) as u32) as char
    } else {
        ((0x57 + n) as u32) as char
    }
}

/// Two characters for each byte.
pub open spec fn hex_of(bytes: Seq<u8>) -> Seq<char>
    decreases bytes.len(),
{
    if bytes.len() == 0 {
        seq![]
    } else {
        hex_of(bytes.drop_last()).push(nibble(bytes.last() as int / 16)).push(
            nibble(bytes.last() as int % 16),
        )
    }
}

/// The four bits that a character stands for, in either case.
pub open spec fn nibble_of(c: char) -> Option<int> {
    let n = c as u32;
    if 0x30 <= n <= 0x39 {
        Some(n - 0x30)
    } else if 0x61 <= n <= 0x66 {
        Some(n - 0x57)
    } else if 0x41 <= n <= 0x46 {
        Some(n - 0x37)
    } else {
        None
    }
}

/// The bytes that a text stands for, where it is made of pairs of such characters.
pub open spec fn bytes_of(s: Seq<char>) -> Option<Seq<u8>>
    decreases s.len(),
{
    if s.len() == 0 {
        Some(seq![])
    } else if s.len() == 1 {
        None
    } else {
        match (
            bytes_of(s.take(s.len() - 2)),
            nibble_of(s[s.len() - 2]),
            nibble_of(s[s.len() - 1]),
        ) {
            (Some(head), Some(hi), Some(lo)) => Some(head.push((hi * 16 + lo) as u8)),
            _ => None,
        }
    }
}

fn nibble_char(n: u8) -> (c: char)
    requires
        n < 16,
    ensures
        c == nibble(n as int),
{
    if n < 10 {
        (0x30 + n) as char
    } else {
        (0x57 + n) as char
    }
}

fn nibble_value(c: char) -> (r: Option<u8>)
    ensures
        match r {
            Some(n) => nibble_of(c) == Some(n as int) && n < 16,
            None => nibble_of(c) is None,
        },
{
    let n: u32 = c as u32;
    if 0x30 <= n && n <= 0x39 {
        Some((n - 0x30) as u8)
    } else if 0x61 <= n && n <= 0x66 {
        Some((n - 0x57) as u8)
    } else if 0x41 <= n && n <= 0x46 {
        Some((n - 0x37) as u8)
    } else {
        None
    }
}

pub fn hex_encode(bytes: &[u8]) -> (r: String)
    ensures
        r@ == hex_of(bytes@),
{
    let mut r = String::new();
    let mut i: usize = 0;
    proof {
        assert(bytes@.take(0) =~= seq![]);
        assert(r@ =~= seq![]);
    }
    while i < bytes.len()
        invariant
            i <= bytes.len(),
            r@ == hex_of(bytes@.take(i as int)),
        decreases bytes.len() - i,
    {
        proof {
            assert(bytes@.take(i as int + 1).drop_last() =~= bytes@.take(i as int));
        }
        let b = bytes[i];
        r.push(nibble_char(b / 16));
        r.push(nibble_char(b % 16));
        i += 1;
    }
    proof {
        assert(bytes@.take(bytes.len() as int) =~= bytes@);
    }
    r
}

pub fn hex_decode(s: &str) -> (r: Option<Vec<u8>>)
    ensures
        match r {
            Some(v) => bytes_of(s@) == Some(v@),
            None => bytes_of(s@) is None,
        },
{
    let v = text::chars_of(s);
    if v.len() % 2 != 0 {
        proof {
            lemma_odd(s@);
        }
        return None;
    }
    let mut out: Vec<u8> = Vec::new();
    let mut i: usize = 0;
    proof {
        assert(s@.take(0) =~= seq![]);
        assert(out@ =~= seq![]);
    }
    while i < v.len()
        invariant
            v@ == s@,
            v@.len() % 2 == 0,
            i % 2 == 0,
            i <= v.len(),
            bytes_of(s@.take(i as int)) == Some(out@),
        decreases v.len() - i,
    {
        let ghost t = s@.take(i as int + 2);
        proof {
            assert(t.take(t.len() - 2) =~= s@.take(i as int));
            assert(t[t.len() - 2] == s@[i as int]);
            assert(t[t.len() - 1] == s@[i + 1]);
        }
        match (nibble_value(v[i]), nibble_value(v[i + 1])) {
            (Some(hi), Some(lo)) => {
                out.push(hi * 16 + lo);
            },
            _ => {
                proof {
                    lemma_bad_prefix(s@, i as int + 2);
                }
                return None;
            },
        }
        i += 2;
    }
    proof {
        assert(s@.take(s@.len() as int) =~= s@);
    }
    Some(out)
}

proof fn lemma_odd(s: Seq<char>)
    requires
        s.len() % 2 == 1,
    ensures
        bytes_of(s) is None,
    decreases s.len(),
{
    if s.len() > 1 {
        lemma_odd(s.take(s.len() - 2));
    }
}

proof fn lemma_bad_prefix(s: Seq<char>, n: int)
    requires
        0 <= n <= s.len(),
        n % 2 == 0,
        s.len() % 2 == 0,
        bytes_of(s.take(n)) is None,
    ensures
        bytes_of(s) is None,
    decreases s.len(),
{
    if n == s.len() {
        assert(s.take(n) =~= s);
    } else {
        let t = s.take(s.len() - 2);
        assert(t.take(n) =~= s.take(n));
        lemma_bad_prefix(t, n);
    }
}

proof fn lemma_nibbles(b: u8)
    ensures
        nibble_of(nibble(b as int / 16)) == Some(b as int / 16),
        nibble_of(nibble(b as int % 16)) == Some(b as int % 16),
        (b as int / 16) * 16 + b as int % 16 == b,
{
}

/// Bytes written as text are read back.
pub proof fn law_bytes_are_read_back(bytes: Seq<u8>)
    ensures
        bytes_of(hex_of(bytes)) == Some(bytes),
        hex_of(bytes).len() == 2 * bytes.len(),
    decreases bytes.len(),
{
    if bytes.len() > 0 {
        let rest = bytes.drop_last();
        law_bytes_are_read_back(rest);
        lemma_nibbles(bytes.last());
        let s = hex_of(bytes);
        assert(s.take(s.len() - 2) =~= hex_of(rest));
        assert(rest.push(bytes.last()) =~= bytes);
    } else {
        assert(bytes =~= seq![]);
    }
}

// ---- The token ----

/// How an encrypted token is kept.
pub open spec fn sealed(cipher: Seq<u8>) -> Seq<char> {
    DPAPI_PREFIX@ + hex_of(cipher)
}

/// The encrypted token that a kept text holds; `None` where it is not well-formed.
pub open spec fn unsealed(kept: Seq<char>) -> Option<Seq<u8>> {
    match model::strip_prefix(kept, DPAPI_PREFIX@) {
        Some(hex) => bytes_of(hex),
        None => None,
    }
}

/// How an encrypted token is kept.
pub fn encrypt_token(cipher: &[u8]) -> (r: String)
    ensures
        r@ == sealed(cipher@),
{
    text::cat2(DPAPI_PREFIX, hex_encode(cipher).as_str())
}

/// The encrypted token that a kept text holds.
pub fn decrypt_token(kept: &str) -> (r: Option<Vec<u8>>)
    ensures
        match r {
            Some(v) => unsealed(kept@) == Some(v@),
            None => unsealed(kept@) is None,
        },
{
    match text::strip_prefix(kept, DPAPI_PREFIX) {
        Some(hex) => hex_decode(hex.as_str()),
        None => None,
    }
}

/// An encrypted token is read back as it was kept, and is known by its prefix.
pub proof fn law_tokens_are_read_back(cipher: Seq<u8>)
    ensures
        unsealed(sealed(cipher)) == Some(cipher),
        model::starts_with(sealed(cipher), DPAPI_PREFIX@),
{
    law_bytes_are_read_back(cipher);
    crate::text_lemmas::lemma_strip_prefix(DPAPI_PREFIX@, hex_of(cipher));
}

/// What an optional slice holds.
pub open spec fn bytes_in(b: Option<&[u8]>) -> Option<Seq<u8>> {
    match b {
        Some(v) => Some(v@),
        None => None,
    }
}

/// What is kept of a token, or why nothing can be kept.
pub open spec fn kept_form(token: Seq<char>, cipher: Option<Seq<u8>>) -> Result<
    Seq<char>,
    Seq<char>,
> {
    if token.len() == 0 {
        Ok(seq![])
    } else {
        match cipher {
            Some(c) => Ok(sealed(c)),
            None => Err("GitHub Token 加密失败（DPAPI 不可用），已取消保存以防明文落盘"@),
        }
    }
}

/// What is kept of a token: nothing for none, and never the token itself. `cipher` is the encrypted
/// token, where it could be encrypted.
pub fn token_to_keep(token: &str, cipher: Option<&[u8]>) -> (r: Result<String, String>)
    ensures
        match r {
            Ok(kept) => kept_form(token@, bytes_in(cipher)) == Ok::<Seq<char>, Seq<char>>(kept@),
            Err(m) => kept_form(token@, bytes_in(cipher)) == Err::<Seq<char>, Seq<char>>(m@),
        },
{
    proof {
        assert(token@.len() == 0 ==> token@ =~= seq![]);
    }
    if token.is_empty() {
        return Ok(token.to_owned());
    }
    match cipher {
        Some(c) => Ok(encrypt_token(c)),
        None => Err(
            "GitHub Token 加密失败（DPAPI 不可用），已取消保存以防明文落盘".to_owned(),
        ),
    }
}

// ---- Loading ----

/// What went wrong while the settings were loaded.
#[derive(Debug)]
pub enum LoadIssue {
    /// The file is not well-formed; the default settings are used.
    ParseFailed(String),
    /// The token could not be decrypted; it counts as not set.
    TokenDecryptFailed,
}

impl LoadIssue {
    pub open spec fn text(&self) -> Seq<char> {
        match self {
            LoadIssue::ParseFailed(detail) => "配置文件解析失败，已回退默认配置（原文件未被覆盖）："@ + detail@,
            LoadIssue::TokenDecryptFailed => "GitHub Token 解密失败（可能因更换用户或机器），已置空；请重新设置"@,
        }
    }

    pub fn message(&self) -> (r: String)
        ensures
            r@ == self.text(),
    {
        match self {
            LoadIssue::ParseFailed(detail) => text::cat2(
                "配置文件解析失败，已回退默认配置（原文件未被覆盖）：",
                detail.as_str(),
            ),
            LoadIssue::TokenDecryptFailed => "GitHub Token 解密失败（可能因更换用户或机器），已置空；请重新设置".to_owned(),
        }
    }
}

/// How the token is kept in a file of settings.
pub enum KeptToken {
    /// As it is, or not at all.
    Plain,
    /// Encrypted.
    Sealed(Vec<u8>),
    /// Encrypted, but not well-formed.
    Damaged,
}

/// What a `KeptToken` says.
pub ghost enum TokenForm {
    Plain,
    Sealed(Seq<u8>),
    Damaged,
}

impl View for KeptToken {
    type V = TokenForm;

    open spec fn view(&self) -> TokenForm {
        match self {
            KeptToken::Plain => TokenForm::Plain,
            KeptToken::Sealed(c) => TokenForm::Sealed(c@),
            KeptToken::Damaged => TokenForm::Damaged,
        }
    }
}

/// How a token is kept: the prefix tells an encrypted one.
pub open spec fn form_of(kept: Option<Seq<char>>) -> TokenForm {
    match kept {
        Some(s) => if model::starts_with(s, DPAPI_PREFIX@) {
            match unsealed(s) {
                Some(v) => TokenForm::Sealed(v),
                None => TokenForm::Damaged,
            }
        } else {
            TokenForm::Plain
        },
        None => TokenForm::Plain,
    }
}

/// How a token is kept, by its text.
pub fn kept_token(token: Option<&str>) -> (r: KeptToken)
    ensures
        r@ == form_of(model::slice_of(token)),
{
    match token {
        Some(s) => if text::starts_with(s, DPAPI_PREFIX) {
            match decrypt_token(s) {
                Some(cipher) => KeptToken::Sealed(cipher),
                None => KeptToken::Damaged,
            }
        } else {
            KeptToken::Plain
        },
        None => KeptToken::Plain,
    }
}

/// Looks at a file of settings: whether it is well-formed, and how it keeps the token.
pub fn inspect_config(raw: &str) -> (r: Result<KeptToken, LoadIssue>)
    ensures
        match json_failure(raw@) {
            Some(m) => r matches Err(LoadIssue::ParseFailed(d)) && d@ == m,
            None => r matches Ok(kept) && kept@ == form_of(json_text(raw@, "/github_token"@)),
        },
{
    if let Some(m) = json::failure(raw) {
        return Err(LoadIssue::ParseFailed(m));
    }
    match json::text_at(raw, "/github_token") {
        Some(s) => Ok(kept_token(Some(s.as_str()))),
        None => Ok(kept_token(None)),
    }
}

/// The token that the settings get: `kept` is its text in the file, and `opened` what it decrypts
/// to. `None` where an encrypted token cannot be read.
pub open spec fn loaded_token(
    form: TokenForm,
    kept: Seq<char>,
    opened: Option<Seq<u8>>,
) -> Option<Seq<char>> {
    match form {
        TokenForm::Plain => Some(kept),
        TokenForm::Sealed(_) => match opened {
            Some(bytes) => if valid_utf8(bytes) {
                Some(decode_utf8(bytes))
            } else {
                None
            },
            None => None,
        },
        TokenForm::Damaged => None,
    }
}

/// The settings that a file amounts to: `parsed` is the file as it reads, or why it does not; and
/// `opened` what the encrypted token decrypts to, if it does.
pub fn load_checked(
    token: KeptToken,
    parsed: Result<AppConfig, String>,
    opened: Option<&[u8]>,
) -> (r: (AppConfig, Option<LoadIssue>))
    ensures
        match parsed {
            Err(m) => r.0.is_default() && (r.1 matches Some(LoadIssue::ParseFailed(d)) && d@ == m@),
            Ok(config) => {
                &&& r.0.same_but_token(&config)
                &&& token is Plain ==> r.0 == config
                &&& match loaded_token(token@, config.github_token@, bytes_in(opened)) {
                    Some(t) => r.0.github_token@ == t && r.1 is None,
                    None => r.0.github_token@ == Seq::<char>::empty() && r.1 == Some(
                        LoadIssue::TokenDecryptFailed,
                    ),
                }
            },
        },
{
    let config = match parsed {
        Ok(config) => config,
        Err(m) => {
            return (Default::default(), Some(LoadIssue::ParseFailed(m)));
        },
    };
    let plain = match token {
        KeptToken::Plain => {
            return (config, None);
        },
        KeptToken::Sealed(_) => match opened {
            Some(bytes) => stream::decode(bytes),
            None => None,
        },
        KeptToken::Damaged => None,
    };
    let mut config = config;
    match plain {
        Some(token) => {
            config.github_token = token;
            (config, None)
        },
        None => {
            config.github_token = String::new();
            proof {
                assert(config.github_token@ =~= Seq::<char>::empty());
            }
            (config, Some(LoadIssue::TokenDecryptFailed))
        },
    }
}

/// A token that is kept is loaded again, once what was kept of it decrypts to the token.
pub proof fn law_kept_tokens_are_loaded(token: Seq<char>, cipher: Seq<u8>, opened: Seq<u8>)
    requires
        valid_utf8(opened),
        decode_utf8(opened) == token,
    ensures
        kept_form(token, Some(cipher)) is Ok,
        ({
            let kept = kept_form(token, Some(cipher))->Ok_0;
            &&& token.len() > 0 ==> form_of(Some(kept)) == TokenForm::Sealed(cipher)
            &&& loaded_token(form_of(Some(kept)), kept, Some(opened)) == Some(token)
        }),
{
    if token.len() > 0 {
        law_tokens_are_read_back(cipher);
    } else {
        let kept = kept_form(token, Some(cipher))->Ok_0;
        reveal_strlit("dpapi1:");
        assert(!model::starts_with(kept, DPAPI_PREFIX@));
        assert(token =~= kept);
    }
}

/// A token never stands in the file itself: what is kept tells nothing but the encrypted token, and
/// a token that cannot be encrypted is not kept.
pub proof fn law_tokens_are_kept_encrypted(a: Seq<char>, b: Seq<char>, cipher: Seq<u8>)
    requires
        a.len() > 0,
        b.len() > 0,
    ensures
        kept_form(a, Some(cipher)) == kept_form(b, Some(cipher)),
        kept_form(a, None) is Err,
{
}

// ---- Changing ----

impl AppConfig {
    /// The settings agree in all but the token.
    pub open spec fn same_but_token(&self, other: &AppConfig) -> bool {
        &&& self.port == other.port
        &&& self.npm_registry == other.npm_registry
        &&& self.github_mirror == other.github_mirror
        &&& self.node_mirror == other.node_mirror
        &&& self.same_switches(other)
        &&& self.editor_command == other.editor_command
        &&& self.editor_prompt_seen == other.editor_prompt_seen
    }

    /// The settings agree in the switches.
    pub open spec fn same_switches(&self, other: &AppConfig) -> bool {
        &&& self.close_exits == other.close_exits
        &&& self.minimize_to_tray == other.minimize_to_tray
        &&& self.keep_dsh_on_exit == other.keep_dsh_on_exit
        &&& self.keep_dsh_home_on_uninstall == other.keep_dsh_home_on_uninstall
        &&& self.auto_start_dsh == other.auto_start_dsh
        &&& self.auto_open_browser == other.auto_open_browser
        &&& self.auto_sync_plugins == other.auto_sync_plugins
    }

    pub fn set_port(&mut self, port: u16) -> (r: Result<(), String>)
        ensures
            if port == 0 {
                &&& r is Err
                &&& r->Err_0@ == "端口 "@ + model::decimal(port as nat) + " 非法"@
                &&& *final(self) == *old(self)
            } else {
                &&& r is Ok
                &&& *final(self) == (AppConfig { port, ..*old(self) })
            },
    {
        if port == 0 {
            return Err(text::cat3("端口 ", text::decimal(port as u64).as_str(), " 非法"));
        }
        self.port = port;
        Ok(())
    }

    /// Sets the token; a blank text leaves it as it is. The result says whether there is something
    /// to be saved.
    pub fn set_github_token(&mut self, token: &str) -> (r: bool)
        ensures
            r == !model::blank(token@),
            final(self).same_but_token(old(self)),
            final(self).github_token@ == if r {
                model::trim(token@)
            } else {
                old(self).github_token@
            },
    {
        if text::blank(token) {
            return false;
        }
        self.github_token = text::trim(token);
        true
    }

    pub fn set_mirrors(&mut self, npm_registry: String, github_mirror: String, node_mirror: String)
        ensures
            *final(self) == (AppConfig { npm_registry, github_mirror, node_mirror, ..*old(self) }),
    {
        self.npm_registry = npm_registry;
        self.github_mirror = github_mirror;
        self.node_mirror = node_mirror;
    }

    pub fn set_switches(
        &mut self,
        close_exits: bool,
        minimize_to_tray: bool,
        keep_dsh_on_exit: bool,
        keep_dsh_home_on_uninstall: bool,
        auto_start_dsh: bool,
        auto_open_browser: bool,
        auto_sync_plugins: bool,
    )
        ensures
            *final(self) == (AppConfig {
                close_exits,
                minimize_to_tray,
                keep_dsh_on_exit,
                keep_dsh_home_on_uninstall,
                auto_start_dsh,
                auto_open_browser,
                auto_sync_plugins,
                ..*old(self)
            }),
    {
        self.close_exits = close_exits;
        self.minimize_to_tray = minimize_to_tray;
        self.keep_dsh_on_exit = keep_dsh_on_exit;
        self.keep_dsh_home_on_uninstall = keep_dsh_home_on_uninstall;
        self.auto_start_dsh = auto_start_dsh;
        self.auto_open_browser = auto_open_browser;
        self.auto_sync_plugins = auto_sync_plugins;
    }

    pub fn set_editor(&mut self, editor_command: &str, prompt_seen: bool)
        ensures
            final(self).port == old(self).port,
            final(self).npm_registry == old(self).npm_registry,
            final(self).github_mirror == old(self).github_mirror,
            final(self).github_token == old(self).github_token,
            final(self).node_mirror == old(self).node_mirror,
            final(self).same_switches(old(self)),
            final(self).editor_command@ == model::trim(editor_command@),
            final(self).editor_prompt_seen == prompt_seen,
    {
        self.editor_command = text::trim(editor_command);
        self.editor_prompt_seen = prompt_seen;
    }
}

/// The settings as they are shown: the token itself is not among them.
pub struct ConfigView {
    pub port: u16,
    pub npm_registry: String,
    pub github_mirror: String,
    pub github_token_set: bool,
    pub node_mirror: String,
    pub close_exits: bool,
    pub minimize_to_tray: bool,
    pub keep_dsh_on_exit: bool,
    pub keep_dsh_home_on_uninstall: bool,
    pub auto_start_dsh: bool,
    pub auto_open_browser: bool,
    pub auto_sync_plugins: bool,
    pub editor_command: String,
    pub editor_prompt_seen: bool,
}

impl From<AppConfig> for ConfigView {
    fn from(c: AppConfig) -> (r: Self) {
        let github_token_set = !c.github_token.as_str().is_empty();
        ConfigView {
            port: c.port,
            npm_registry: c.npm_registry,
            github_mirror: c.github_mirror,
            github_token_set,
            node_mirror: c.node_mirror,
            close_exits: c.close_exits,
            minimize_to_tray: c.minimize_to_tray,
            keep_dsh_on_exit: c.keep_dsh_on_exit,
            keep_dsh_home_on_uninstall: c.keep_dsh_home_on_uninstall,
            auto_start_dsh: c.auto_start_dsh,
            auto_open_browser: c.auto_open_browser,
            auto_sync_plugins: c.auto_sync_plugins,
            editor_command: c.editor_command,
            editor_prompt_seen: c.editor_prompt_seen,
        }
    }
}

impl vstd::std_specs::convert::FromSpecImpl<AppConfig> for ConfigView {
    open spec fn obeys_from_spec() -> bool {
        true
    }

    open spec fn from_spec(c: AppConfig) -> Self {
        ConfigView {
            port: c.port,
            npm_registry: c.npm_registry,
            github_mirror: c.github_mirror,
            github_token_set: c.github_token@.len() != 0,
            node_mirror: c.node_mirror,
            close_exits: c.close_exits,
            minimize_to_tray: c.minimize_to_tray,
            keep_dsh_on_exit: c.keep_dsh_on_exit,
            keep_dsh_home_on_uninstall: c.keep_dsh_home_on_uninstall,
            auto_start_dsh: c.auto_start_dsh,
            auto_open_browser: c.auto_open_browser,
            auto_sync_plugins: c.auto_sync_plugins,
            editor_command: c.editor_command,
            editor_prompt_seen: c.editor_prompt_seen,
        }
    }
}

} // verus!
