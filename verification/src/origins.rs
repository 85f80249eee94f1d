//! Whether a request comes from the server's public origin, judged by its
//! `Origin` or `Referer` header, and the canonical text of that origin.
//!
//! Header values arrive as text: `None` stands for a value that is not
//! visible ASCII, which `HeaderValue::to_str` refuses.

use vstd::prelude::*;

use crate::codec::{opt_view, parse_url, url_components, UrlParts, UrlView};
use crate::text::{chars_contain, chars_of, has_char, str_eq};
use crate::time::{decimal_digits, push_padded};

verus! {

/// Whether a URL with components `left` is served from the origin of the
/// URL with components `right`: the same scheme, host and port (the
/// explicit one or the scheme's default), with no credentials in `left`.
pub open spec fn same_origin_view(left: UrlView, right: UrlView) -> bool {
    &&& left.0 == right.0
    &&& left.1 == right.1
    &&& left.8 == right.8
    &&& left.2.len() == 0
    &&& left.3 is None
}

/// Whether the text `value` parses as a URL served from the origin of
/// `public`.
pub open spec fn text_has_origin(value: Seq<char>, public: UrlView) -> bool {
    match url_components(value) {
        Some(c) => same_origin_view(c, public),
        None => false,
    }
}

/// Whether two optional strings are both absent or hold the same text.
pub fn opt_str_eq(a: &Option<String>, b: &Option<String>) -> (res: bool)
    ensures
        res == (opt_view(*a) == opt_view(*b)),
{
    match (a, b) {
        (Some(x), Some(y)) => str_eq(x.as_str(), y.as_str()),
        (None, None) => true,
        _ => false,
    }
}

/// Whether two optional ports are equal.
pub fn opt_port_eq(a: Option<u16>, b: Option<u16>) -> (res: bool)
    ensures
        res == (a == b),
{
    match (a, b) {
        (Some(x), Some(y)) => x == y,
        (None, None) => true,
        _ => false,
    }
}

/// Whether `left` is served from the origin of `right`.
pub fn same_origin(left: &UrlParts, right: &UrlParts) -> (res: bool)
    ensures
        res == same_origin_view(left.parts(), right.parts()),
{
    str_eq(left.scheme.as_str(), right.scheme.as_str()) && opt_str_eq(&left.host, &right.host)
        && opt_port_eq(left.known_port, right.known_port) && left.username.as_str().unicode_len()
        == 0 && left.password.is_none()
}

/// Whether the text `value` parses as a URL served from the origin of
/// `public`.
pub fn text_same_origin(value: &str, public: &UrlParts) -> (res: bool)
    ensures
        res == text_has_origin(value@, public.parts()),
{
    match parse_url(value) {
        Some(u) => same_origin(&u, public),
        None => false,
    }
}

/// Whether the request's `Origin` header (its first value, `None` when
/// absent or unreadable) names the public origin.
pub fn public_origin_allowed(origin: Option<&str>, public: &UrlParts) -> (res: bool)
    ensures
        res == (origin matches Some(v) && text_has_origin(v@, public.parts())),
{
    match origin {
        Some(v) => text_same_origin(v, public),
        None => false,
    }
}

/// Whether an unsafe admin request comes from the public origin: by its
/// `Origin` header when it has one (`Some(None)`: present but unreadable),
/// else by its `Referer` header.
pub fn unsafe_admin_origin_allowed(
    origin: Option<Option<&str>>,
    referer: Option<&str>,
    public: &UrlParts,
) -> (res: bool)
    ensures
        res == match origin {
            Some(o) => o matches Some(v) && text_has_origin(v@, public.parts()),
            None => referer matches Some(r) && text_has_origin(r@, public.parts()),
        },
{
    match origin {
        Some(Some(v)) => text_same_origin(v, public),
        Some(None) => false,
        None => match referer {
            Some(r) => text_same_origin(r, public),
            None => false,
        },
    }
}

/// The port that a canonical origin leaves out for `scheme`.
pub open spec fn omitted_port(scheme: Seq<char>) -> int {
    if scheme == "http"@ {
        80
    } else if scheme == "https"@ {
        443
    } else {
        0
    }
}

/// The host as a canonical origin writes it: in brackets when it holds a
/// colon.
pub open spec fn bracketed_host(host: Seq<char>) -> Seq<char> {
    if has_char(host, ':') {
        "["@ + host + "]"@
    } else {
        host
    }
}

/// The canonical text of the origin with `scheme`, `host` and explicit
/// `port`: `scheme://host`, then `:port` unless the port is absent or the
/// scheme's usual one.
pub open spec fn canonical_origin_text(scheme: Seq<char>, host: Seq<char>, port: Option<u16>) -> Seq<
    char,
> {
    let base = scheme + "://"@ + bracketed_host(host);
    match port {
        Some(p) => if p != omitted_port(scheme) {
            base + ":"@ + decimal_digits(p as nat)
        } else {
            base
        },
        None => base,
    }
}

/// What `canonical_origin` gives for the configured origin `value`: the
/// canonical text and its components, or `None` where `value` does not
/// parse with a host or its canonical text does not parse.
pub open spec fn spec_canonical_origin(value: Seq<char>) -> Option<(Seq<char>, UrlView)> {
    match url_components(value) {
        Some(c) => match c.1 {
            Some(host) => {
                let text = canonical_origin_text(c.0, host, c.7);
                match url_components(text) {
                    Some(d) => Some((text, d)),
                    None => None,
                }
            },
            None => None,
        },
        None => None,
    }
}

/// The canonical text of the origin `value` and that text parsed; `None`
/// on the inputs that a validated configuration never holds (the server
/// stops there).
pub fn canonical_origin(value: &str) -> (res: Option<(String, UrlParts)>)
    ensures
        match spec_canonical_origin(value@) {
            Some((text, d)) => res matches Some((t, u)) && t@ == text && u.parts() == d,
            None => res is None,
        },
{
    let parsed = match parse_url(value) {
        Some(u) => u,
        None => {
            return None;
        },
    };
    let host = match &parsed.host {
        Some(h) => h,
        None => {
            return None;
        },
    };
    let mut text = parsed.scheme.clone();
    text.append("://");
    let host_chars = chars_of(host.as_str());
    if chars_contain(host_chars.as_slice(), ':') {
        text.append("[");
        text.append(host.as_str());
        text.append("]");
    } else {
        text.append(host.as_str());
    }
    let ghost base = text@;
    assert(base == parsed.scheme@ + "://"@ + bracketed_host(host@));
    match parsed.port {
        Some(port) => {
            let omitted: u16 = if str_eq(parsed.scheme.as_str(), "http") {
                80
            } else if str_eq(parsed.scheme.as_str(), "https") {
                443
            } else {
                0
            };
            if port != omitted {
                text.append(":");
                push_padded(&mut text, port as u64, 0);
            }
        },
        None => {},
    }
    assert(text@ == canonical_origin_text(parsed.scheme@, host@, parsed.port));
    match parse_url(text.as_str()) {
        Some(u) => Some((text, u)),
        None => None,
    }
}

} // verus!
