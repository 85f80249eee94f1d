//! The checks that the OAuth-protected gateway makes on a request before it
//! hands the request on: its bearer token, its `Origin` and the identity
//! headers that a client must not set itself.
//!
//! Header values arrive as text, one entry per value: `None` stands for a
//! value that is not visible ASCII, which `HeaderValue::to_str` refuses.

use vstd::prelude::*;

use crate::codec::{parse_url, url_components, UrlParts, UrlView};
use crate::oauth::header_texts;
use crate::text::{
    chars_contain, chars_of, chars_start_with, find_char, find_char_from, has_char, is_whitespace,
    spec_is_whitespace, starts_with, str_eq, string_from_chars, sub_chars, lemma_find_char_bounds,
};

verus! {

/// The code of `c` with an ASCII capital letter taken to its small letter.
pub open spec fn ascii_folded(c: char) -> u32 {
    if 65 <= c as u32 && c as u32 <= 90 {
        (c as u32 + 32) as u32
    } else {
        c as u32
    }
}

/// Whether `a` and `b` are equal up to ASCII case, as `eq_ignore_ascii_case`
/// compares.
pub open spec fn eq_ignore_ascii_case(a: Seq<char>, b: Seq<char>) -> bool {
    a.len() == b.len() && forall|i: int| 0 <= i < a.len() ==> ascii_folded(a[i]) == ascii_folded(b[i])
}

/// Whether `s` holds a whitespace character.
pub open spec fn has_whitespace(s: Seq<char>) -> bool {
    exists|i: int| 0 <= i < s.len() && spec_is_whitespace(s[i])
}

/// The bearer token of a request whose `Authorization` header has the
/// values `values`: there is exactly one, readable, of the form
/// `Bearer <token>` (the scheme in any ASCII case), where the token is not
/// empty and holds neither whitespace nor a comma.
pub open spec fn spec_bearer_token(values: Seq<Option<Seq<char>>>) -> Option<Seq<char>> {
    if values.len() != 1 {
        None
    } else {
        match values[0] {
            None => None,
            Some(v) => {
                let i = find_char(v, ' ');
                if i >= v.len() {
                    None
                } else {
                    let scheme = v.subrange(0, i);
                    let token = v.subrange(i + 1, v.len() as int);
                    if eq_ignore_ascii_case(scheme, "Bearer"@) && token.len() > 0 && token[0]
                        != ' ' && !has_whitespace(token) && !has_char(token, ',') {
                        Some(token)
                    } else {
                        None
                    }
                }
            },
        }
    }
}

/// The ASCII-folded code of `c`.
fn fold_char(c: char) -> (res: u32)
    ensures
        res == ascii_folded(c),
{
    let v = c as u32;
    if 65 <= v && v <= 90 {
        v + 32
    } else {
        v
    }
}

/// Whether `a` and `b` are equal up to ASCII case.
pub fn chars_eq_ignore_ascii_case(a: &[char], b: &[char]) -> (res: bool)
    ensures
        res == eq_ignore_ascii_case(a@, b@),
{
    if a.len() != b.len() {
        return false;
    }
    let mut i: usize = 0;
    while i < a.len()
        invariant
            a.len() == b.len(),
            i <= a.len(),
            forall|k: int| 0 <= k < i ==> ascii_folded(a@[k]) == ascii_folded(b@[k]),
        decreases a.len() - i,
    {
        if fold_char(a[i]) != fold_char(b[i]) {
            return false;
        }
        i += 1;
    }
    true
}

/// Whether `v` holds a whitespace character.
pub fn chars_have_whitespace(v: &[char]) -> (res: bool)
    ensures
        res == has_whitespace(v@),
{
    let mut i: usize = 0;
    while i < v.len()
        invariant
            i <= v.len(),
            forall|k: int| 0 <= k < i ==> !spec_is_whitespace(#[trigger] v@[k]),
        decreases v.len() - i,
    {
        if is_whitespace(v[i]) {
            return true;
        }
        i += 1;
    }
    false
}

/// The bearer token of a request with the `Authorization` header values
/// `values`.
pub fn bearer_token(values: &Vec<Option<String>>) -> (res: Option<String>)
    ensures
        match res {
            Some(t) => spec_bearer_token(header_texts(values@)) == Some(t@),
            None => spec_bearer_token(header_texts(values@)) is None,
        },
{
    if values.len() != 1 {
        return None;
    }
    let value = match &values[0] {
        Some(v) => v,
        None => {
            return None;
        },
    };
    assert(header_texts(values@)[0] == Some(value@));
    let v = chars_of(value.as_str());
    let i = find_char_from(v.as_slice(), 0, ' ');
    assert(v@.subrange(0, v@.len() as int) =~= v@);
    if i >= v.len() {
        return None;
    }
    let scheme = sub_chars(v.as_slice(), 0, i);
    let token = sub_chars(v.as_slice(), i + 1, v.len());
    let bearer = chars_of("Bearer");
    if !chars_eq_ignore_ascii_case(scheme.as_slice(), bearer.as_slice()) || token.len() == 0
        || token[0] == ' ' || chars_have_whitespace(token.as_slice()) || chars_contain(
        token.as_slice(),
        ',',
    ) {
        return None;
    }
    Some(string_from_chars(token.as_slice()))
}

/// Whether the allowed origin `allowed` is a bare origin whose tuple origin
/// is `origin`.
pub open spec fn allowed_matches(allowed: UrlView, origin: UrlView) -> bool {
    &&& allowed.4 == "/"@
    &&& allowed.5 is None
    &&& allowed.6 is None
    &&& allowed.9 is Some
    &&& origin.9 is Some
    &&& allowed.9 == origin.9
}

/// Whether a request with the `Origin` header values `origins` may reach the
/// gateway: it has none, or exactly one, readable, that parses as a bare
/// origin (path `/`, no query, fragment or credentials) whose tuple origin
/// is that of one of the bare allowed origins. An opaque origin equals no
/// other.
pub open spec fn spec_gateway_origin_allowed(
    origins: Seq<Option<Seq<char>>>,
    allowed: Seq<UrlParts>,
) -> bool {
    if origins.len() == 0 {
        true
    } else if origins.len() > 1 {
        false
    } else {
        match origins[0] {
            None => false,
            Some(v) => match url_components(v) {
                None => false,
                Some(c) => c.4 == "/"@ && c.5 is None && c.6 is None && c.2.len() == 0 && c.3 is None
                    && exists|i: int| 0 <= i < allowed.len() && allowed_matches(allowed[i].parts(), c),
            },
        }
    }
}

/// Whether two optional origin tuples are both present and equal.
fn tuple_origins_equal(a: &Option<(String, String, u16)>, b: &Option<(String, String, u16)>) -> (res: bool)
    ensures
        res == match (a, b) {
            (Some(x), Some(y)) => x.0@ == y.0@ && x.1@ == y.1@ && x.2 == y.2,
            _ => false,
        },
{
    match (a, b) {
        (Some(x), Some(y)) => str_eq(x.0.as_str(), y.0.as_str()) && str_eq(x.1.as_str(), y.1.as_str())
            && x.2 == y.2,
        _ => false,
    }
}

/// Whether a request with the `Origin` header values `origins` may reach the
/// gateway, given its allowed origins.
pub fn origin_allowed(origins: &Vec<Option<String>>, allowed: &Vec<UrlParts>) -> (res: bool)
    ensures
        res == spec_gateway_origin_allowed(header_texts(origins@), allowed@),
{
    if origins.len() == 0 {
        return true;
    }
    if origins.len() > 1 {
        return false;
    }
    let value = match &origins[0] {
        Some(v) => v,
        None => {
            return false;
        },
    };
    assert(header_texts(origins@)[0] == Some(value@));
    let origin = match parse_url(value.as_str()) {
        Some(u) => u,
        None => {
            return false;
        },
    };
    let ghost c = origin.parts();
    if !str_eq(origin.path.as_str(), "/") || origin.query.is_some() || origin.fragment.is_some()
        || origin.username.as_str().unicode_len() != 0 || origin.password.is_some() {
        return false;
    }
    let mut i: usize = 0;
    while i < allowed.len()
        invariant
            i <= allowed.len(),
            c == origin.parts(),
            url_components(value@) == Some(c),
            origins@.len() == 1,
            header_texts(origins@)[0] == Some(value@),
            c.4 == "/"@ && c.5 is None && c.6 is None && c.2.len() == 0 && c.3 is None,
            forall|k: int| 0 <= k < i ==> !allowed_matches(#[trigger] allowed@[k].parts(), c),
        decreases allowed.len() - i,
    {
        let a = &allowed[i];
        if str_eq(a.path.as_str(), "/") && a.query.is_none() && a.fragment.is_none()
            && tuple_origins_equal(&a.origin, &origin.origin) {
            assert(allowed_matches(allowed@[i as int].parts(), c));
            assert(exists|k: int| 0 <= k < allowed@.len() && allowed_matches(allowed@[k].parts(), c));
            return true;
        }
        i += 1;
    }
    false
}

/// The name prefixes of identity headers that a client may not send.
pub open spec fn identity_prefixes() -> Seq<Seq<char>> {
    seq![
        "x-driichi-"@,
        "x-mcp-"@,
        "x-internal-"@,
        "x-authenticated-"@,
        "x-auth-request-"@,
        "x-auth-"@,
        "x-user-"@,
        "x-remote-"@,
    ]
}

/// The full names of identity headers that a client may not send.
pub open spec fn identity_names() -> Seq<Seq<char>> {
    seq![
        "remote-user"@,
        "x-remote-user"@,
        "x-forwarded-user"@,
        "x-forwarded-email"@,
        "x-user-id"@,
        "x-user-email"@,
    ]
}

/// Whether the (lower-case) header name `name` claims an identity that
/// only the server may assert.
pub open spec fn spec_spoofed_identity_header(name: Seq<char>) -> bool {
    (exists|i: int| 0 <= i < identity_prefixes().len() && starts_with(name, identity_prefixes()[i]))
        || (exists|i: int| 0 <= i < identity_names().len() && name == identity_names()[i])
}

/// Whether the header name `name`, in the lower case that `HeaderName`
/// keeps, claims an identity that only the server may assert.
pub fn is_spoofed_identity_header(name: &str) -> (res: bool)
    ensures
        res == spec_spoofed_identity_header(name@),
{
    let n = chars_of(name);
    let prefixes = vec![
        "x-driichi-",
        "x-mcp-",
        "x-internal-",
        "x-authenticated-",
        "x-auth-request-",
        "x-auth-",
        "x-user-",
        "x-remote-",
    ];
    let names = vec![
        "remote-user",
        "x-remote-user",
        "x-forwarded-user",
        "x-forwarded-email",
        "x-user-id",
        "x-user-email",
    ];
    assert(prefixes@.len() == identity_prefixes().len());
    assert(forall|k: int| 0 <= k < prefixes@.len() ==> prefixes@[k]@ == identity_prefixes()[k]);
    assert(forall|k: int| 0 <= k < names@.len() ==> names@[k]@ == identity_names()[k]);
    let mut i: usize = 0;
    while i < prefixes.len()
        invariant
            i <= prefixes.len(),
            n@ == name@,
            prefixes@.len() == identity_prefixes().len(),
            forall|k: int| 0 <= k < prefixes@.len() ==> prefixes@[k]@ == identity_prefixes()[k],
            forall|k: int| 0 <= k < i ==> !starts_with(name@, #[trigger] identity_prefixes()[k]),
        decreases prefixes.len() - i,
    {
        let p = chars_of(prefixes[i]);
        if chars_start_with(n.as_slice(), p.as_slice()) {
            return true;
        }
        i += 1;
    }
    let mut j: usize = 0;
    while j < names.len()
        invariant
            j <= names.len(),
            names@.len() == identity_names().len(),
            forall|k: int| 0 <= k < names@.len() ==> names@[k]@ == identity_names()[k],
            forall|k: int| 0 <= k < identity_prefixes().len() ==> !starts_with(
                name@,
                #[trigger] identity_prefixes()[k],
            ),
            forall|k: int| 0 <= k < j ==> name@ != #[trigger] identity_names()[k],
        decreases names.len() - j,
    {
        if str_eq(name, names[j]) {
            return true;
        }
        j += 1;
    }
    false
}

} // verus!
