//! Ports and the addresses of local services.

use crate::model;
use crate::model::CharSet;
use crate::text;
use vstd::prelude::*;

verus! {

/// How an attempt to connect to a port ended.
#[derive(Debug, Clone, Copy, PartialEq, Eq, Structural)]
pub enum Connect {
    Accepted,
    Refused,
    TimedOut,
    Failed,
}

/// Whether somebody listens; `None` where that cannot be told.
pub fn probe(connect: Connect) -> (r: Option<bool>)
    ensures
        r == match connect {
            Connect::Accepted => Some(true),
            Connect::Refused => Some(false),
            Connect::TimedOut => None,
            Connect::Failed => None,
        },
{
    match connect {
        Connect::Accepted => Some(true),
        Connect::Refused => Some(false),
        Connect::TimedOut => None,
        Connect::Failed => None,
    }
}

/// Whether the port is known to be taken.
pub fn is_port_in_use(connect: Connect) -> (b: bool)
    ensures
        b == (connect == Connect::Accepted),
{
    match probe(connect) {
        Some(b) => b,
        None => false,
    }
}

/// Every port but 0 can be used.
pub fn validate_port(port: u16) -> (b: bool)
    ensures
        b == (port >= 1),
{
    port >= 1
}

/// What stands before the path of an address without its scheme.
pub open spec fn authority_of(rest: Seq<char>) -> Seq<char> {
    model::before_first(rest, CharSet::Only('/'))
}

pub open spec fn path_of(rest: Seq<char>) -> Seq<char> {
    let n = model::first_in(rest, CharSet::Only('/'), 0);
    if n < rest.len() {
        rest.skip(n)
    } else {
        "/"@
    }
}

/// The host and the port of an authority: `[host]:port`, `host:port`, or a host alone.
pub open spec fn endpoint(authority: Seq<char>) -> Option<(Seq<char>, nat)> {
    if model::starts_with(authority, "["@) {
        match model::split_once(authority, CharSet::Only(']')) {
            None => None,
            Some((head, tail)) => match model::strip_prefix(tail, ":"@) {
                None => None,
                Some(p) => match model::parse_unsigned(p, 65535) {
                    None => None,
                    Some(n) => Some((head.skip(1), n)),
                },
            },
        }
    } else {
        match model::rsplit_once(authority, CharSet::Only(':')) {
            None => Some((authority, 80)),
            Some((host, p)) => match model::parse_unsigned(p, 65535) {
                None => None,
                Some(n) => Some((host, n)),
            },
        }
    }
}

/// Host, port and path of an `http` address.
pub open spec fn http_parts(url: Seq<char>) -> Option<(Seq<char>, nat, Seq<char>)> {
    match model::strip_prefix(url, "http://"@) {
        None => None,
        Some(rest) => match endpoint(authority_of(rest)) {
            None => None,
            Some((host, port)) => Some((host, port, path_of(rest))),
        },
    }
}

fn parse_port(s: &str) -> (r: Option<u16>)
    ensures
        match r {
            Some(n) => model::parse_unsigned(s@, 65535) == Some(n as nat),
            None => model::parse_unsigned(s@, 65535) is None,
        },
{
    match text::parse_unsigned(s, 65535) {
        Some(n) => Some(n as u16),
        None => None,
    }
}

fn parse_endpoint(authority: &str) -> (r: Option<(String, u16)>)
    ensures
        match endpoint(authority@) {
            Some((host, port)) => r is Some && (r->0).0@ == host && (r->0).1 == port,
            None => r is None,
        },
{
    if text::starts_with(authority, "[") {
        match text::split_once(authority, CharSet::Only(']')) {
            None => None,
            Some((head, tail)) => match text::strip_prefix(tail.as_str(), ":") {
                None => None,
                Some(p) => match parse_port(p.as_str()) {
                    None => None,
                    Some(n) => {
                        let v = text::chars_of(head.as_str());
                        proof {
                            reveal_strlit("[");
                            model::lemma_first_in(authority@, CharSet::Only(']'), 0);
                            assert(authority@[0] == '[') by {
                                assert(authority@.subrange(0, 1) == "["@);
                                assert(authority@.subrange(0, 1)[0] == '[');
                            }
                            assert(head@.len() >= 1);
                            assert(head@.skip(1) =~= head@.subrange(1, head@.len() as int));
                        }
                        Some((text::string_of(&v, 1, v.len()), n))
                    },
                },
            },
        }
    } else {
        match text::rsplit_once(authority, CharSet::Only(':')) {
            None => Some((authority.to_owned(), 80)),
            Some((host, p)) => match parse_port(p.as_str()) {
                None => None,
                Some(n) => Some((host, n)),
            },
        }
    }
}

/// Host, port and path of an `http` address; `None` for any other text.
pub fn parse_http_url(url: &str) -> (r: Option<(String, u16, String)>)
    ensures
        match http_parts(url@) {
            Some((host, port, path)) => r is Some && (r->0).0@ == host && (r->0).1 == port && (
            r->0).2@ == path,
            None => r is None,
        },
{
    match text::strip_prefix(url, "http://") {
        None => None,
        Some(rest) => {
            let v = text::chars_of(rest.as_str());
            let n = text::first_in(&v, CharSet::Only('/'), 0);
            proof {
                model::lemma_first_in(rest@, CharSet::Only('/'), 0);
                assert(rest@.subrange(0, n as int) =~= rest@.take(n as int));
                assert(rest@.subrange(n as int, rest@.len() as int) =~= rest@.skip(n as int));
            }
            let authority = text::string_of(&v, 0, n);
            let path = if n < v.len() {
                text::string_of(&v, n, v.len())
            } else {
                "/".to_owned()
            };
            match parse_endpoint(authority.as_str()) {
                None => None,
                Some((host, port)) => Some((host, port, path)),
            }
        },
    }
}

/// The request that asks a service whether it is ready.
pub open spec fn request_text(host: Seq<char>, port: nat, path: Seq<char>) -> Seq<char> {
    "GET "@ + path + " HTTP/1.1\r\nHost: "@ + host + ":"@ + model::decimal(port)
        + "\r\nConnection: close\r\nUser-Agent: dsh-launcher-probe\r\n\r\n"@
}

pub fn ready_request(host: &str, port: u16, path: &str) -> (r: String)
    ensures
        r@ == request_text(host@, port as nat, path@),
{
    text::cat7(
        "GET ",
        path,
        " HTTP/1.1\r\nHost: ",
        host,
        ":",
        text::decimal(port as u64).as_str(),
        "\r\nConnection: close\r\nUser-Agent: dsh-launcher-probe\r\n\r\n",
    )
}

/// Whether the first line of an answer says that the service is ready.
pub fn status_is_ready(status_line: &str) -> (b: bool)
    ensures
        b == (model::starts_with(status_line@, "HTTP/1.1 200"@) || model::starts_with(
            status_line@,
            "HTTP/1.0 200"@,
        )),
{
    text::starts_with(status_line, "HTTP/1.1 200") || text::starts_with(
        status_line,
        "HTTP/1.0 200",
    )
}

} // verus!
