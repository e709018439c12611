//! What holds of the settings, however they are kept, loaded and changed.

use crate::config::{
    bytes_in, current_npm_registry, hex_decode, hex_encode, kept_token, law_bytes_are_read_back,
    law_kept_tokens_are_loaded, load_checked, token_to_keep, AppConfig, ConfigView, KeptToken,
    LoadIssue,
};
use crate::model;
use crate::port::{
    is_port_in_use, parse_http_url, probe, ready_request, status_is_ready, validate_port, Connect,
};
use crate::text_lemmas::{lemma_first_in_none, lemma_strip_prefix};
use crate::dates::lemma_decimal;
use crate::model::CharSet;
use vstd::prelude::*;
use vstd::std_specs::convert::FromSpec;
use vstd::utf8::{decode_utf8, valid_utf8};

verus! {

/// A token that is kept is the token that is loaded: what is written for it is marked as encrypted and
/// holds what it was encrypted to, and once that decrypts to the token, the settings have it.
pub proof fn law_tokens_survive(
    token: &str,
    cipher: &[u8],
    kept: String,
    text: &str,
    form: KeptToken,
    parsed: AppConfig,
    opened: &[u8],
    r: (AppConfig, Option<LoadIssue>),
)
    requires
        token@.len() > 0,
        call_ensures(token_to_keep, (token, Some(cipher)), Ok::<String, String>(kept)),
        text@ == kept@,
        call_ensures(kept_token, (Some(text),), form),
        valid_utf8(opened@),
        decode_utf8(opened@) == token@,
        call_ensures(
            load_checked,
            (form, Ok::<AppConfig, String>(parsed), Some(opened)),
            r,
        ),
    ensures
        model::starts_with(kept@, "dpapi1:"@),
        form matches KeptToken::Sealed(c) && c@ == cipher@,
        r.0.github_token@ == token@,
        r.1 is None,
{
    law_kept_tokens_are_loaded(token@, cipher@, opened@);
    assert(bytes_in(Some(cipher)) == Some(cipher@));
    assert(bytes_in(Some(opened)) == Some(opened@));
    crate::config::law_tokens_are_read_back(cipher@);
}

/// A token that cannot be encrypted is not kept at all, and one that cannot be decrypted counts as
/// not set; the other settings are loaded all the same.
pub proof fn law_tokens_are_never_kept_bare(
    token: &str,
    kept: Result<String, String>,
    form: KeptToken,
    parsed: AppConfig,
    opened: Option<&[u8]>,
    r: (AppConfig, Option<LoadIssue>),
)
    requires
        call_ensures(token_to_keep, (token, None::<&[u8]>), kept),
        call_ensures(load_checked, (form, Ok::<AppConfig, String>(parsed), opened), r),
    ensures
        kept is Ok <==> token@.len() == 0,
        kept is Ok ==> kept->Ok_0@.len() == 0,
        form is Damaged || (form is Sealed && (opened is None || !valid_utf8(opened->0@))) ==> {
            &&& r.0.github_token@.len() == 0
            &&& r.1 is Some && r.1->0 is TokenDecryptFailed
        },
        form is Plain ==> r.0.github_token@ == parsed.github_token@ && r.1 is None,
        r.0.port == parsed.port && r.0.npm_registry@ == parsed.npm_registry@
            && r.0.github_mirror@ == parsed.github_mirror@ && r.0.node_mirror@
            == parsed.node_mirror@ && r.0.editor_command@ == parsed.editor_command@,
        r.0.close_exits == parsed.close_exits && r.0.auto_start_dsh == parsed.auto_start_dsh
            && r.0.keep_dsh_home_on_uninstall == parsed.keep_dsh_home_on_uninstall
            && r.0.auto_sync_plugins == parsed.auto_sync_plugins && r.0.auto_open_browser
            == parsed.auto_open_browser && r.0.keep_dsh_on_exit == parsed.keep_dsh_on_exit
            && r.0.minimize_to_tray == parsed.minimize_to_tray,
{
    assert(bytes_in(None::<&[u8]>) is None);
}

/// Settings that cannot be read are those of a fresh installation, and the user is told why.
pub proof fn law_unreadable_settings_are_the_default(
    form: KeptToken,
    reason: String,
    opened: Option<&[u8]>,
    r: (AppConfig, Option<LoadIssue>),
)
    requires
        call_ensures(load_checked, (form, Err::<AppConfig, String>(reason), opened), r),
    ensures
        r.1 is Some,
        r.1->0 matches LoadIssue::ParseFailed(told) && told@ == reason@,
        r.0.port == 3080,
        r.0.github_token@.len() == 0 && r.0.npm_registry@.len() == 0 && r.0.github_mirror@.len() == 0,
        r.0.keep_dsh_home_on_uninstall && r.0.minimize_to_tray && r.0.auto_open_browser
            && r.0.auto_sync_plugins,
        !r.0.close_exits && !r.0.keep_dsh_on_exit && !r.0.auto_start_dsh && !r.0.editor_prompt_seen,
{
}

/// Bytes that are written as text are read back, and only pairs of hexadecimal digits are read.
pub proof fn law_bytes_survive(bytes: &[u8], text: String, s: &str, r: Option<Vec<u8>>)
    requires
        call_ensures(hex_encode, (bytes,), text),
        s@ == text@,
        call_ensures(hex_decode, (s,), r),
    ensures
        r is Some && (r->0)@ == bytes@,
        text@.len() == 2 * bytes@.len(),
{
    law_bytes_are_read_back(bytes@);
}

// ---- Changing ----

/// A port is set exactly where it can be used, and nothing else changes.
pub proof fn law_ports_are_set(it: &mut AppConfig, port: u16, r: Result<(), String>)
    requires
        call_ensures(AppConfig::set_port, (it, port), r),
    ensures
        r is Ok <==> port != 0,
        r is Ok ==> final(it).port == port,
        r is Err ==> final(it).port == old(it).port,
        final(it).github_token == old(it).github_token && final(it).npm_registry == old(
            it,
        ).npm_registry && final(it).github_mirror == old(it).github_mirror && final(it).node_mirror
            == old(it).node_mirror && final(it).auto_start_dsh == old(it).auto_start_dsh,
{
}

/// A token is set without the white space around it; a blank one leaves the old one in place.
pub proof fn law_tokens_are_set(it: &mut AppConfig, token: &str, r: bool)
    requires
        call_ensures(AppConfig::set_github_token, (it, token), r),
    ensures
        model::blank(token@) ==> !r && final(it).github_token@ == old(it).github_token@,
        !model::blank(token@) ==> r && final(it).github_token@ == model::trim(token@),
        final(it).port == old(it).port && final(it).npm_registry == old(it).npm_registry,
{
}

/// Each mirror and each switch is set to what was given for it, the editor without the white space
/// around it.
pub proof fn law_settings_are_set(
    a: &mut AppConfig,
    npm: String,
    github: String,
    node: String,
    b: &mut AppConfig,
    flags: (bool, bool, bool, bool, bool, bool, bool),
    c: &mut AppConfig,
    editor: &str,
    seen: bool,
)
    requires
        call_ensures(AppConfig::set_mirrors, (a, npm, github, node), ()),
        call_ensures(
            AppConfig::set_switches,
            (b, flags.0, flags.1, flags.2, flags.3, flags.4, flags.5, flags.6),
            (),
        ),
        call_ensures(AppConfig::set_editor, (c, editor, seen), ()),
    ensures
        final(a).npm_registry == npm && final(a).github_mirror == github && final(a).node_mirror
            == node && final(a).port == old(a).port && final(a).github_token == old(a).github_token,
        final(b).close_exits == flags.0 && final(b).minimize_to_tray == flags.1
            && final(b).keep_dsh_on_exit == flags.2 && final(b).keep_dsh_home_on_uninstall
            == flags.3 && final(b).auto_start_dsh == flags.4 && final(b).auto_open_browser
            == flags.5 && final(b).auto_sync_plugins == flags.6,
        final(b).port == old(b).port && final(b).github_token == old(b).github_token,
        final(c).editor_command@ == model::trim(editor@) && final(c).editor_prompt_seen == seen,
        final(c).port == old(c).port && final(c).github_token == old(c).github_token,
{
}

/// The registry that is used is the one that is set; a blank setting is none.
pub proof fn law_the_set_registry_is_used(config: &AppConfig, r: Option<String>)
    requires
        call_ensures(current_npm_registry, (config,), r),
    ensures
        r is None <==> model::blank(config.npm_registry@),
        r is Some ==> (r->0)@ == model::trim(config.npm_registry@),
{
}

/// What is shown of the settings tells nothing of the token but whether there is one.
pub proof fn law_the_token_is_not_shown(a: AppConfig, token: String)
    requires
        (token@.len() == 0) == (a.github_token@.len() == 0),
    ensures
        ConfigView::from_spec(AppConfig { github_token: token, ..a }) == ConfigView::from_spec(a),
        ConfigView::from_spec(a).port == a.port,
        ConfigView::from_spec(a).github_token_set == (a.github_token@.len() > 0),
{
}

// ---- Ports and addresses ----

/// A port counts as taken only where a connection was accepted, and every port but 0 can be used.
pub proof fn law_ports_are_judged(connect: Connect, taken: bool, told: Option<bool>, port: u16, valid: bool)
    requires
        call_ensures(is_port_in_use, (connect,), taken),
        call_ensures(probe, (connect,), told),
        call_ensures(validate_port, (port,), valid),
    ensures
        taken <==> connect is Accepted,
        told == Some(true) <==> connect is Accepted,
        told == Some(false) <==> connect is Refused,
        valid <==> port != 0,
{
}

/// The address of a service is taken apart into its host, port and path.
pub proof fn law_addresses_are_taken_apart(
    url: &str,
    r: Option<(String, u16, String)>,
    host: Seq<char>,
    port: u16,
    path: Seq<char>,
)
    requires
        call_ensures(parse_http_url, (url,), r),
        host.len() > 0,
        host[0] != '[',
        forall|i: int| 0 <= i < host.len() ==> #[trigger] host[i] != '/' && host[i] != ':',
        url@ == "http://"@ + (host + ":"@ + model::decimal(port as nat) + ("/"@ + path)),
    ensures
        r is Some,
        (r->0).0@ == host,
        (r->0).1 == port,
        (r->0).2@ == "/"@ + path,
{
    let digits = model::decimal(port as nat);
    lemma_decimal(port as nat);
    reveal_strlit(":");
    reveal_strlit("/");
    reveal_strlit("[");
    let authority = host + ":"@ + digits;
    let rest = authority + ("/"@ + path);
    lemma_strip_prefix("http://"@, rest);
    let k = CharSet::Only('/');
    assert forall|i: int| 0 <= i < authority.len() implies #[trigger] authority[i] != '/' by {
        if i < host.len() {
            assert(authority[i] == host[i]);
        } else if i > host.len() {
            assert(model::digit(digits[i - host.len() - 1]));
        }
    }
    model::lemma_first_in(rest, k, 0);
    let n = model::first_in(rest, k, 0);
    assert(rest[authority.len() as int] == '/');
    if n < authority.len() {
        assert(rest[n] == authority[n]);
    }
    assert(n == authority.len());
    assert(rest.take(n) =~= authority);
    assert(rest.skip(n) =~= "/"@ + path);
    assert(!model::starts_with(authority, "["@)) by {
        if model::starts_with(authority, "["@) {
            assert(authority.subrange(0, 1)[0] == authority[0]);
        }
    }
    lemma_last_colon(authority, host.len() as int, authority.len() as int);
    assert(authority.take(host.len() as int) =~= host);
    assert(authority.skip(host.len() as int + 1) =~= digits);
    assert(model::digit(digits[0]));
}

proof fn lemma_last_colon(s: Seq<char>, at: int, to: int)
    requires
        0 <= at < to <= s.len(),
        s[at] == ':',
        forall|i: int| at < i < s.len() ==> model::digit(#[trigger] s[i]),
    ensures
        model::last_in(s, CharSet::Only(':'), to) == at,
    decreases to,
{
    if to - 1 > at {
        assert(model::digit(s[to - 1]));
        lemma_last_colon(s, at, to - 1);
    }
}

/// The request goes to the path and names the host with its port; only an answer of 200 counts as
/// ready.
pub proof fn law_readiness_is_asked_for(
    host: &str,
    port: u16,
    path: &str,
    r: String,
    status: &str,
    ready: bool,
)
    requires
        call_ensures(ready_request, (host, port, path), r),
        call_ensures(status_is_ready, (status,), ready),
    ensures
        model::starts_with(r@, "GET "@ + path@ + " HTTP/1.1\r\n"@),
        model::occurs(r@, "\r\nHost: "@ + host@ + ":"@ + model::decimal(port as nat) + "\r\n"@),
        model::ends_with(r@, "\r\n\r\n"@),
        ready <==> model::starts_with(status@, "HTTP/1.1 200"@) || model::starts_with(
            status@,
            "HTTP/1.0 200"@,
        ),
{
    reveal_strlit("GET ");
    reveal_strlit(" HTTP/1.1\r\nHost: ");
    reveal_strlit(" HTTP/1.1\r\n");
    reveal_strlit(" HTTP/1.1");
    reveal_strlit("\r\nHost: ");
    reveal_strlit(":");
    reveal_strlit("\r\nConnection: close\r\nUser-Agent: dsh-launcher-probe\r\n\r\n");
    reveal_strlit("\r\n");
    reveal_strlit("\r\n\r\n");
    reveal_strlit("Connection: close\r\nUser-Agent: dsh-launcher-probe\r\n\r\n");
    let head = "GET "@ + path@ + " HTTP/1.1\r\n"@;
    assert(r@.subrange(0, head.len() as int) =~= head);
    let mid = "\r\nHost: "@ + host@ + ":"@ + model::decimal(port as nat) + "\r\n"@;
    let tail = "Connection: close\r\nUser-Agent: dsh-launcher-probe\r\n\r\n"@;
    assert(r@ =~= ("GET "@ + path@ + " HTTP/1.1"@) + mid + tail);
    model::lemma_occurs(r@, "GET "@ + path@ + " HTTP/1.1"@, mid, tail);
    assert(r@.subrange(r@.len() - 4, r@.len() as int) =~= "\r\n\r\n"@);
}

/// An address without a port is asked at port 80, and one that does not begin with `http://` not at
/// all.
pub proof fn law_addresses_without_a_port(
    url: &str,
    r: Option<(String, u16, String)>,
    host: Seq<char>,
)
    requires
        call_ensures(parse_http_url, (url,), r),
        host.len() > 0,
        host[0] != '[',
        forall|i: int| 0 <= i < host.len() ==> #[trigger] host[i] != '/' && host[i] != ':',
    ensures
        url@ == "http://"@ + host ==> r is Some && (r->0).0@ == host && (r->0).1 == 80 && (r->0).2@
            == "/"@,
        !model::starts_with(url@, "http://"@) ==> r is None,
{
    if url@ == "http://"@ + host {
        lemma_strip_prefix("http://"@, host);
        let k = CharSet::Only('/');
        assert forall|i: int| 0 <= i < host.len() implies !k.has(#[trigger] host[i]) by {
            assert(host[i] != '/');
        }
        lemma_first_in_none(host, k, 0);
        assert(host.take(host.len() as int) =~= host);
        reveal_strlit("[");
        assert(!model::starts_with(host, "["@)) by {
            if model::starts_with(host, "["@) {
                assert(host.subrange(0, 1)[0] == host[0]);
            }
        }
        lemma_no_colon(host, host.len() as int);
    }
}

proof fn lemma_no_colon(s: Seq<char>, to: int)
    requires
        0 <= to <= s.len(),
        forall|i: int| 0 <= i < s.len() ==> #[trigger] s[i] != '/' && s[i] != ':',
    ensures
        model::last_in(s, CharSet::Only(':'), to) == -1,
    decreases to,
{
    if to > 0 {
        assert(s[to - 1] != ':');
        lemma_no_colon(s, to - 1);
    }
}

} // verus!
