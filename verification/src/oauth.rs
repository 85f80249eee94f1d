//! The OAuth authorization pages and the checks on their form fields, and
//! the secrets and lifetimes of the tokens the authorization server issues.

use vstd::prelude::*;

use crate::codec::{decode_form_urlencoded, form_urlencoded_pairs, parse_url, url_components, UrlParts};
use crate::origins::{same_origin, same_origin_view};
use crate::web::{cookie_in, cookie_value, opt_text};
use crate::crypto::{
    base64_url_nopad, base64_url_nopad_encoding, random_bytes_16, random_bytes_32, sha256,
    sha256_digest,
};
use crate::characters::requirements::pair_views;
use crate::json::{as_str, json_view, object_get, object_lookup, JsonValue, JsonView};
use crate::text::{chars_of, push_char, split_on, str_eq, utf8_len, utf8_len_upto};

verus! {

/// The text that stands for `c` in HTML.
pub open spec fn html_escaped_char(c: char) -> Seq<char> {
    if c == '&' {
        "&amp;"@
    } else if c == '<' {
        "&lt;"@
    } else if c == '>' {
        "&gt;"@
    } else if c == '"' {
        "&quot;"@
    } else if c == '\'' {
        "&#39;"@
    } else {
        seq![c]
    }
}

/// `s` with `&`, `<`, `>`, `"` and `'` written as HTML character references.
pub open spec fn html_escaped(s: Seq<char>) -> Seq<char>
    decreases s.len(),
{
    if s.len() == 0 {
        Seq::empty()
    } else {
        html_escaped(s.drop_last()) + html_escaped_char(s.last())
    }
}

/// `value` escaped for HTML text and attribute values.
pub fn html_escape(value: &str) -> (res: String)
    ensures
        res@ == html_escaped(value@),
{
    let v = chars_of(value);
    let mut out = String::new();
    let mut i: usize = 0;
    while i < v.len()
        invariant
            i <= v.len(),
            v@ == value@,
            out@ == html_escaped(v@.take(i as int)),
        decreases v.len() - i,
    {
        let c = v[i];
        let ghost before = out@;
        if c == '&' {
            out.append("&amp;");
        } else if c == '<' {
            out.append("&lt;");
        } else if c == '>' {
            out.append("&gt;");
        } else if c == '"' {
            out.append("&quot;");
        } else if c == '\'' {
            out.append("&#39;");
        } else {
            push_char(&mut out, c);
            assert(out@ =~= before + seq![c]);
        }
        proof {
            assert(v@.take(i + 1).drop_last() =~= v@.take(i as int));
            assert(v@.take(i + 1).last() == c);
        }
        i += 1;
    }
    assert(v@.take(v.len() as int) =~= v@);
    out
}

/// A hidden form input carrying `value` under `name`.
pub open spec fn hidden_text(name: Seq<char>, value: Seq<char>) -> Seq<char> {
    "<input type=\"hidden\" name=\""@ + html_escaped(name) + "\" value=\""@ + html_escaped(value)
        + "\">"@
}

pub fn hidden_field(name: &str, value: &str) -> (res: String)
    ensures
        res@ == hidden_text(name@, value@),
{
    let mut out = "<input type=\"hidden\" name=\"".to_owned();
    out.append(html_escape(name).as_str());
    out.append("\" value=\"");
    out.append(html_escape(value).as_str());
    out.append("\">");
    out
}

/// The fields of an authorization request that the pages carry through.
#[derive(Debug, Clone)]
pub struct AuthorizationRequest {
    pub client_id: String,
    pub redirect_uri: String,
    pub response_type: String,
    pub state: String,
    pub scope: String,
    pub resource: String,
    pub code_challenge: String,
    pub code_challenge_method: String,
}

/// What an authorization request holds.
pub struct AuthorizationRequestView {
    pub client_id: Seq<char>,
    pub redirect_uri: Seq<char>,
    pub response_type: Seq<char>,
    pub state: Seq<char>,
    pub scope: Seq<char>,
    pub resource: Seq<char>,
    pub code_challenge: Seq<char>,
    pub code_challenge_method: Seq<char>,
}

impl View for AuthorizationRequest {
    type V = AuthorizationRequestView;

    open spec fn view(&self) -> AuthorizationRequestView {
        AuthorizationRequestView { client_id: self.client_id@, redirect_uri: self.redirect_uri@, response_type: self.response_type@, state: self.state@, scope: self.scope@, resource: self.resource@, code_challenge: self.code_challenge@, code_challenge_method: self.code_challenge_method@ }
    }
}

/// The hidden inputs of the authorization pages: the CSRF token, then each
/// field of the request.
pub open spec fn spec_hidden_fields(r: AuthorizationRequestView, csrf: Seq<char>) -> Seq<char> {
    hidden_text("csrf"@, csrf) + hidden_text("client_id"@, r.client_id) + hidden_text("redirect_uri"@, r.redirect_uri) + hidden_text("response_type"@, r.response_type) + hidden_text("state"@, r.state) + hidden_text("scope"@, r.scope) + hidden_text("resource"@, r.resource) + hidden_text("code_challenge"@, r.code_challenge) + hidden_text("code_challenge_method"@, r.code_challenge_method)
}

pub fn authorization_hidden_fields(request: &AuthorizationRequest, csrf: &str) -> (res: String)
    ensures
        res@ == spec_hidden_fields(request@, csrf@),
{
    let mut fields = hidden_field("csrf", csrf);
    fields.append(hidden_field("client_id", request.client_id.as_str()).as_str());
    fields.append(hidden_field("redirect_uri", request.redirect_uri.as_str()).as_str());
    fields.append(hidden_field("response_type", request.response_type.as_str()).as_str());
    fields.append(hidden_field("state", request.state.as_str()).as_str());
    fields.append(hidden_field("scope", request.scope.as_str()).as_str());
    fields.append(hidden_field("resource", request.resource.as_str()).as_str());
    fields.append(hidden_field("code_challenge", request.code_challenge.as_str()).as_str());
    fields.append(hidden_field("code_challenge_method", request.code_challenge_method.as_str()).as_str());
    fields
}

/// The sign-in page shown to a client named `client_name`.
pub open spec fn spec_sign_in_page(r: AuthorizationRequestView, client_name: Seq<char>, csrf: Seq<char>) -> Seq<char> {
    "<!doctype html><html lang=\"en\"><meta charset=\"utf-8\"><title>Sign in</title><main><h1>Sign in to Driichi</h1><p>"@ + html_escaped(client_name) + " is requesting access to this server.</p><form method=\"post\" action=\"/api/v1/admin/oauth/login\">"@ + spec_hidden_fields(r, csrf)
        + "<label>Username <input name=\"username\" autocomplete=\"username\" required></label><label>Password <input name=\"password\" type=\"password\" autocomplete=\"current-password\" required></label><button type=\"submit\">Sign in</button></form></main></html>"@
}

pub fn sign_in_page(request: &AuthorizationRequest, client_name: &str, csrf: &str) -> (res: String)
    ensures
        res@ == spec_sign_in_page(request@, client_name@, csrf@),
{
    let mut page = "<!doctype html><html lang=\"en\"><meta charset=\"utf-8\"><title>Sign in</title><main><h1>Sign in to Driichi</h1><p>".to_owned();
    page.append(html_escape(client_name).as_str());
    page.append(" is requesting access to this server.</p><form method=\"post\" action=\"/api/v1/admin/oauth/login\">");
    page.append(authorization_hidden_fields(request, csrf).as_str());
    page.append("<label>Username <input name=\"username\" autocomplete=\"username\" required></label><label>Password <input name=\"password\" type=\"password\" autocomplete=\"current-password\" required></label><button type=\"submit\">Sign in</button></form></main></html>");
    page
}

/// The consent page shown to a client named `client_name`.
pub open spec fn spec_consent_page(r: AuthorizationRequestView, client_name: Seq<char>, csrf: Seq<char>) -> Seq<char> {
    "<!doctype html><html lang=\"en\"><meta charset=\"utf-8\"><title>Authorize ChatGPT</title><main><h1>Authorize connection</h1><p><strong>"@ + html_escaped(client_name) + "</strong> is requesting:</p><ul><li>Scope: <code>"@ + html_escaped(r.scope)
        + "</code></li><li>Resource: <code>"@ + html_escaped(r.resource) + "</code></li><li>Access: play games and read match state on this server</li></ul><form method=\"post\" action=\"/api/v1/admin/oauth/authorize\">"@ + spec_hidden_fields(r, csrf)
        + "<button name=\"decision\" value=\"approve\" type=\"submit\">Approve</button><button name=\"decision\" value=\"deny\" type=\"submit\">Deny</button></form></main></html>"@
}

pub fn consent_page(request: &AuthorizationRequest, client_name: &str, csrf: &str) -> (res: String)
    ensures
        res@ == spec_consent_page(request@, client_name@, csrf@),
{
    let mut page = "<!doctype html><html lang=\"en\"><meta charset=\"utf-8\"><title>Authorize ChatGPT</title><main><h1>Authorize connection</h1><p><strong>".to_owned();
    page.append(html_escape(client_name).as_str());
    page.append("</strong> is requesting:</p><ul><li>Scope: <code>");
    page.append(html_escape(request.scope.as_str()).as_str());
    page.append("</code></li><li>Resource: <code>");
    page.append(html_escape(request.resource.as_str()).as_str());
    page.append("</code></li><li>Access: play games and read match state on this server</li></ul><form method=\"post\" action=\"/api/v1/admin/oauth/authorize\">");
    page.append(authorization_hidden_fields(request, csrf).as_str());
    page.append("<button name=\"decision\" value=\"approve\" type=\"submit\">Approve</button><button name=\"decision\" value=\"deny\" type=\"submit\">Deny</button></form></main></html>");
    page
}

/// Whether `k` names a field of an authorization request.
pub open spec fn authorization_field(k: Seq<char>) -> bool {
    k == "client_id"@ || k == "redirect_uri"@ || k == "response_type"@ || k == "state"@ || k == "scope"@ || k == "resource"@ || k == "code_challenge"@ || k == "code_challenge_method"@ || k == "ui_locales"@
}

fn is_authorization_field(k: &str) -> (res: bool)
    ensures
        res == authorization_field(k@),
{
    str_eq(k, "client_id") || str_eq(k, "redirect_uri") || str_eq(k, "response_type") || str_eq(k, "state") || str_eq(k, "scope") || str_eq(k, "resource") || str_eq(k, "code_challenge") || str_eq(k, "code_challenge_method") || str_eq(k, "ui_locales")
}

/// Whether form fields are acceptable: each name non-empty and at most 128
/// bytes, each value at most 4096 bytes, no name twice.
pub open spec fn form_fields_ok(p: Seq<(Seq<char>, Seq<char>)>) -> bool {
    forall|i: int|
        0 <= i < p.len() ==> {
            &&& (#[trigger] p[i]).0.len() > 0
            &&& utf8_len(p[i].0) <= 128
            &&& utf8_len(p[i].1) <= 4096
            &&& forall|j: int| 0 <= j < i ==> p[j].0 != p[i].0
        }
}

/// The form fields of `input`, refused when it is longer than `limit`
/// bytes or its fields are not acceptable.
pub fn parse_urlencoded_fields(input: &[u8], limit: usize) -> (res: Result<Vec<(String, String)>, ()>)
    ensures
        input@.len() > limit ==> res is Err,
        input@.len() <= limit ==> (form_fields_ok(form_urlencoded_pairs(input@)) <==> res is Ok),
        res matches Ok(f) ==> pair_views(f@) == form_urlencoded_pairs(input@),
{
    if input.len() > limit {
        return Err(());
    }
    let pairs = decode_form_urlencoded(input);
    let ghost p = form_urlencoded_pairs(input@);
    assert(pair_views(pairs@) =~= p);
    let mut i: usize = 0;
    while i < pairs.len()
        invariant
            i <= pairs.len(),
            input@.len() <= limit,
            p == pair_views(pairs@),
            p == form_urlencoded_pairs(input@),
            forall|k: int|
                0 <= k < i ==> {
                    &&& (#[trigger] p[k]).0.len() > 0
                    &&& utf8_len(p[k].0) <= 128
                    &&& utf8_len(p[k].1) <= 4096
                    &&& forall|j: int| 0 <= j < k ==> p[j].0 != p[k].0
                },
        decreases pairs.len() - i,
    {
        assert(p[i as int] == (pairs@[i as int].0@, pairs@[i as int].1@));
        let key = pairs[i].0.as_str();
        if key.unicode_len() == 0 || utf8_len_upto(key, 128).is_none() || utf8_len_upto(
            pairs[i].1.as_str(),
            4096,
        ).is_none() {
            return Err(());
        }
        let mut j: usize = 0;
        while j < i
            invariant
                j <= i < pairs.len(),
                input@.len() <= limit,
                p == pair_views(pairs@),
                p == form_urlencoded_pairs(input@),
                key@ == p[i as int].0,
                forall|m: int| 0 <= m < j ==> p[m].0 != p[i as int].0,
            decreases i - j,
        {
            assert(p[j as int].0 == pairs@[j as int].0@);
            if str_eq(pairs[j].0.as_str(), key) {
                assert(p[j as int].0 == p[i as int].0);
                return Err(());
            }
            j += 1;
        }
        i += 1;
    }
    Ok(pairs)
}

/// The value of the field `key`: the first one with that name.
pub open spec fn field_value(fields: Seq<(Seq<char>, Seq<char>)>, key: Seq<char>) -> Option<Seq<char>>
    decreases fields.len(),
{
    if fields.len() == 0 {
        None
    } else if fields[0].0 == key {
        Some(fields[0].1)
    } else {
        field_value(fields.drop_first(), key)
    }
}

/// The value of the field `key` among `fields`.
pub fn field_of(fields: &Vec<(String, String)>, key: &str) -> (res: Option<String>)
    ensures
        match field_value(pair_views(fields@), key@) {
            Some(v) => res matches Some(r) && r@ == v,
            None => res is None,
        },
{
    let ghost all = pair_views(fields@);
    let mut i: usize = 0;
    assert(all.subrange(0, all.len() as int) =~= all);
    while i < fields.len()
        invariant
            i <= fields.len(),
            all == pair_views(fields@),
            field_value(all, key@) == field_value(all.subrange(i as int, all.len() as int), key@),
        decreases fields.len() - i,
    {
        let ghost rest = all.subrange(i as int, all.len() as int);
        assert(rest[0] == (fields@[i as int].0@, fields@[i as int].1@));
        if str_eq(fields[i].0.as_str(), key) {
            return Some(fields[i].1.clone());
        }
        assert(rest.drop_first() =~= all.subrange(i + 1, all.len() as int));
        i += 1;
    }
    None
}

/// Whether `c` may appear in a PKCE S256 challenge.
pub open spec fn challenge_char(c: char) -> bool {
    crate::text::spec_ascii_alphanumeric(c) || c == '_' || c == '-'
}

/// Whether `s` is a PKCE S256 challenge: 43 letters, digits, `_` or `-`.
pub open spec fn spec_valid_s256_challenge(s: Seq<char>) -> bool {
    s.len() == 43 && forall|i: int| 0 <= i < s.len() ==> challenge_char(#[trigger] s[i])
}

pub fn valid_s256_challenge(challenge: &str) -> (res: bool)
    ensures
        res == spec_valid_s256_challenge(challenge@),
{
    let v = chars_of(challenge);
    if v.len() != 43 {
        return false;
    }
    let mut i: usize = 0;
    while i < v.len()
        invariant
            i <= v.len(),
            v.len() == 43,
            v@ == challenge@,
            forall|k: int| 0 <= k < i ==> challenge_char(#[trigger] v@[k]),
        decreases v.len() - i,
    {
        let c = v[i];
        if !(crate::text::is_ascii_alphanumeric(c) || c == '_' || c == '-') {
            return false;
        }
        i += 1;
    }
    true
}

/// Whether `c` may appear in a PKCE code verifier.
pub open spec fn verifier_char(c: char) -> bool {
    crate::text::spec_ascii_alphanumeric(c) || c == '-' || c == '.' || c == '_' || c == '~'
}

/// Whether `s` is a PKCE code verifier: 43 to 128 unreserved characters.
pub open spec fn spec_valid_code_verifier(s: Seq<char>) -> bool {
    43 <= s.len() <= 128 && forall|i: int| 0 <= i < s.len() ==> verifier_char(#[trigger] s[i])
}

pub fn valid_code_verifier(verifier: &str) -> (res: bool)
    ensures
        res == spec_valid_code_verifier(verifier@),
{
    let v = chars_of(verifier);
    if v.len() < 43 || v.len() > 128 {
        return false;
    }
    let mut i: usize = 0;
    while i < v.len()
        invariant
            i <= v.len(),
            43 <= v.len() <= 128,
            v@ == verifier@,
            forall|k: int| 0 <= k < i ==> verifier_char(#[trigger] v@[k]),
        decreases v.len() - i,
    {
        let c = v[i];
        if !(crate::text::is_ascii_alphanumeric(c) || c == '-' || c == '.' || c == '_' || c == '~') {
            return false;
        }
        i += 1;
    }
    true
}

/// The authorization request that form fields make: only known fields,
/// each required one present, response type `code`, a state of 1 to 2048
/// bytes, scope `driichi:play`, and an S256 challenge.
pub open spec fn spec_authorization_request(f: Seq<(Seq<char>, Seq<char>)>) -> Option<
    AuthorizationRequestView,
> {
    if exists|i: int| 0 <= i < f.len() && !authorization_field(#[trigger] f[i].0) {
        None
    } else if field_value(f, "client_id"@) is None {
        None
    } else if field_value(f, "redirect_uri"@) is None {
        None
    } else if field_value(f, "response_type"@) is None {
        None
    } else if field_value(f, "state"@) is None {
        None
    } else if field_value(f, "scope"@) is None {
        None
    } else if field_value(f, "resource"@) is None {
        None
    } else if field_value(f, "code_challenge"@) is None {
        None
    } else if field_value(f, "code_challenge_method"@) is None {
        None
    } else {
        let r = AuthorizationRequestView { client_id: field_value(f, "client_id"@)->0, redirect_uri: field_value(f, "redirect_uri"@)->0, response_type: field_value(f, "response_type"@)->0, state: field_value(f, "state"@)->0, scope: field_value(f, "scope"@)->0, resource: field_value(f, "resource"@)->0, code_challenge: field_value(f, "code_challenge"@)->0, code_challenge_method: field_value(f, "code_challenge_method"@)->0 };
        if r.response_type == "code"@ && r.state.len() > 0 && utf8_len(r.state) <= 2048 && r.scope
            == "driichi:play"@ && r.code_challenge_method == "S256"@ && spec_valid_s256_challenge(
            r.code_challenge,
        ) {
            Some(r)
        } else {
            None
        }
    }
}

/// The authorization request of `fields`, if they make one.
pub fn authorization_request(fields: &Vec<(String, String)>) -> (res: Option<AuthorizationRequest>)
    ensures
        match spec_authorization_request(pair_views(fields@)) {
            Some(r) => res matches Some(q) && q@ == r,
            None => res is None,
        },
{
    let ghost all = pair_views(fields@);
    let mut i: usize = 0;
    while i < fields.len()
        invariant
            i <= fields.len(),
            all == pair_views(fields@),
            forall|k: int| 0 <= k < i ==> authorization_field(#[trigger] all[k].0),
        decreases fields.len() - i,
    {
        assert(all[i as int].0 == fields@[i as int].0@);
        if !is_authorization_field(fields[i].0.as_str()) {
            return None;
        }
        i += 1;
    }
    let client_id = match field_of(fields, "client_id") {
        Some(v) => v,
        None => {
            return None;
        },
    };
    let redirect_uri = match field_of(fields, "redirect_uri") {
        Some(v) => v,
        None => {
            return None;
        },
    };
    let response_type = match field_of(fields, "response_type") {
        Some(v) => v,
        None => {
            return None;
        },
    };
    let state = match field_of(fields, "state") {
        Some(v) => v,
        None => {
            return None;
        },
    };
    let scope = match field_of(fields, "scope") {
        Some(v) => v,
        None => {
            return None;
        },
    };
    let resource = match field_of(fields, "resource") {
        Some(v) => v,
        None => {
            return None;
        },
    };
    let code_challenge = match field_of(fields, "code_challenge") {
        Some(v) => v,
        None => {
            return None;
        },
    };
    let code_challenge_method = match field_of(fields, "code_challenge_method") {
        Some(v) => v,
        None => {
            return None;
        },
    };
    let state_ok = match utf8_len_upto(state.as_str(), 2048) {
        Some(n) => n > 0,
        None => false,
    };
    proof {
        crate::text::lemma_utf8_len_bounds(state@);
    }
    if !str_eq(response_type.as_str(), "code") || !state_ok || !str_eq(scope.as_str(), "driichi:play")
        || !str_eq(code_challenge_method.as_str(), "S256") || !valid_s256_challenge(
        code_challenge.as_str(),
    ) {
        proof {
            if state@.len() == 0 {
                assert(utf8_len(state@) == 0);
            }
        }
        return None;
    }
    proof {
        crate::text::lemma_utf8_len_bounds(state@);
    }
    Some(AuthorizationRequest { client_id, redirect_uri, response_type, state, scope, resource, code_challenge, code_challenge_method })
}

/// The authorization request of a submitted form, whose fields may also
/// hold the names in `extra_allowed`; only the request's own fields are
/// read.
pub open spec fn spec_authorization_from_form(
    f: Seq<(Seq<char>, Seq<char>)>,
    extra: Seq<Seq<char>>,
) -> Option<AuthorizationRequestView> {
    if exists|i: int| 0 <= i < f.len() && !authorization_field(#[trigger] f[i].0) && !extra.contains(f[i].0) {
        None
    } else {
        spec_authorization_request(authorization_fields_only(f))
    }
}

/// The fields of `f` that belong to an authorization request, in order.
pub open spec fn authorization_fields_only(f: Seq<(Seq<char>, Seq<char>)>) -> Seq<(Seq<char>, Seq<char>)>
    decreases f.len(),
{
    if f.len() == 0 {
        Seq::empty()
    } else if authorization_field(f.last().0) {
        authorization_fields_only(f.drop_last()).push(f.last())
    } else {
        authorization_fields_only(f.drop_last())
    }
}

/// The text of a list of names.
pub open spec fn name_views(s: Seq<String>) -> Seq<Seq<char>> {
    s.map_values(|x: String| x@)
}

/// The authorization request of a submitted form whose fields may also
/// hold the names in `extra_allowed`.
pub fn authorization_fields_from_form(fields: &Vec<(String, String)>, extra_allowed: &Vec<String>) -> (res: Option<AuthorizationRequest>)
    ensures
        match spec_authorization_from_form(pair_views(fields@), name_views(extra_allowed@)) {
            Some(r) => res matches Some(q) && q@ == r,
            None => res is None,
        },
{
    let ghost all = pair_views(fields@);
    let ghost extra = name_views(extra_allowed@);
    let mut kept: Vec<(String, String)> = Vec::new();
    let mut i: usize = 0;
    assert(pair_views(kept@) =~= authorization_fields_only(all.take(0)));
    while i < fields.len()
        invariant
            i <= fields.len(),
            all == pair_views(fields@),
            extra == name_views(extra_allowed@),
            forall|k: int| 0 <= k < i ==> authorization_field(#[trigger] all[k].0) || extra.contains(all[k].0),
            pair_views(kept@) == authorization_fields_only(all.take(i as int)),
        decreases fields.len() - i,
    {
        let key = fields[i].0.as_str();
        assert(all[i as int] == (fields@[i as int].0@, fields@[i as int].1@));
        let known = is_authorization_field(key);
        if !known {
            let mut allowed = false;
            let mut j: usize = 0;
            while j < extra_allowed.len()
                invariant
                    j <= extra_allowed.len(),
                    extra == name_views(extra_allowed@),
                    key@ == all[i as int].0,
                    allowed == (exists|m: int| 0 <= m < j && extra[m] == key@),
                decreases extra_allowed.len() - j,
            {
                assert(extra[j as int] == extra_allowed@[j as int]@);
                if str_eq(extra_allowed[j].as_str(), key) {
                    allowed = true;
                }
                j += 1;
            }
            proof {
                if allowed {
                    let m = choose|m: int| 0 <= m < extra_allowed.len() && extra[m] == key@;
                    assert(extra.contains(key@));
                } else {
                    assert(!extra.contains(key@));
                }
            }
            if !allowed {
                assert(!authorization_field(all[i as int].0) && !extra.contains(all[i as int].0));
                return None;
            }
        }
        let ghost before = pair_views(kept@);
        proof {
            assert(all.take(i + 1).drop_last() =~= all.take(i as int));
            assert(all.take(i + 1).last() == all[i as int]);
        }
        if known {
            kept.push((fields[i].0.clone(), fields[i].1.clone()));
            assert(pair_views(kept@) =~= before.push(all[i as int]));
        }
        i += 1;
    }
    assert(all.take(all.len() as int) =~= all);
    authorization_request(&kept)
}

/// The values of the form fields named by `client_id`, `redirect_uri` and
/// `state`: the state, when the client and redirect are the configured
/// ones and the state is 1 to 2048 bytes.
pub open spec fn spec_redirect_state(
    f: Seq<(Seq<char>, Seq<char>)>,
    client_id: Seq<char>,
    redirect_uri: Seq<char>,
) -> Option<Seq<char>> {
    if field_value(f, "client_id"@) == Some(client_id) && field_value(f, "redirect_uri"@) == Some(
        redirect_uri,
    ) && field_value(f, "state"@) is Some && field_value(f, "state"@)->0.len() > 0 && utf8_len(
        field_value(f, "state"@)->0,
    ) <= 2048 {
        field_value(f, "state"@)
    } else {
        None
    }
}

/// The state to send back with a redirect, when the form names the
/// configured client and redirect URI (`client_id` and `redirect_uri`, as
/// their URLs are written).
pub fn redirect_is_configured(fields: &Vec<(String, String)>, client_id: &str, redirect_uri: &str) -> (res: Option<String>)
    ensures
        match spec_redirect_state(pair_views(fields@), client_id@, redirect_uri@) {
            Some(s) => res matches Some(r) && r@ == s,
            None => res is None,
        },
{
    let client = field_of(fields, "client_id");
    let redirect = field_of(fields, "redirect_uri");
    let client_ok = match &client {
        Some(c) => str_eq(c.as_str(), client_id),
        None => false,
    };
    let redirect_ok = match &redirect {
        Some(r) => str_eq(r.as_str(), redirect_uri),
        None => false,
    };
    if !client_ok || !redirect_ok {
        return None;
    }
    match field_of(fields, "state") {
        Some(s) => {
            let ok = match utf8_len_upto(s.as_str(), 2048) {
                Some(n) => n > 0,
                None => false,
            };
            proof {
                crate::text::lemma_utf8_len_bounds(s@);
            }
            if ok {
                Some(s)
            } else {
                None
            }
        },
        None => None,
    }
}

/// How long an access token lives, in seconds.
pub const ACCESS_TOKEN_LIFETIME_SECONDS: i64 = 600;

/// The only scope the server grants.
pub open spec fn oauth_scope() -> Seq<char> {
    "driichi:play"@
}

/// When an access token issued at `issued_at` expires: ten minutes later,
/// but never after its refresh family does.
pub open spec fn spec_access_expires_at(issued_at: int, family_expires_at: int) -> int {
    if issued_at + 600 <= family_expires_at {
        issued_at + 600
    } else {
        family_expires_at
    }
}

pub fn access_expires_at(issued_at: i64, family_expires_at: i64) -> (res: i64)
    requires
        issued_at + 600 <= i64::MAX,
    ensures
        res == spec_access_expires_at(issued_at as int, family_expires_at as int),
{
    let end = issued_at + ACCESS_TOKEN_LIFETIME_SECONDS;
    if end <= family_expires_at {
        end
    } else {
        family_expires_at
    }
}

/// Whether `s` is a secret of kind `kind`: `driichi_`, the kind, `_`, and
/// the unpadded URL-safe base64 of 32 bytes.
pub open spec fn is_secret_of_kind(s: Seq<char>, kind: Seq<char>) -> bool {
    exists|bytes: Seq<u8>|
        bytes.len() == 32 && s == "driichi_"@ + kind + "_"@ + base64_url_nopad_encoding(bytes)
}

/// A fresh random secret of kind `kind`.
pub fn new_secret(kind: &str) -> (res: String)
    ensures
        is_secret_of_kind(res@, kind@),
{
    let random = random_bytes_32();
    let mut s = "driichi_".to_owned();
    s.append(kind);
    s.append("_");
    let encoded = base64_url_nopad(random.as_slice());
    s.append(encoded.as_str());
    assert(s@ == "driichi_"@ + kind@ + "_"@ + base64_url_nopad_encoding(random@));
    s
}

/// A fresh random id for a refresh-token family: the unpadded URL-safe
/// base64 of 16 bytes.
pub fn new_family_id() -> (res: String)
    ensures
        exists|bytes: Seq<u8>| bytes.len() == 16 && res@ == base64_url_nopad_encoding(bytes),
{
    let random = random_bytes_16();
    base64_url_nopad(random.as_slice())
}

/// The digest under which a secret is stored: SHA-256 of its UTF-8 bytes.
pub fn hash_secret(secret: &str) -> (res: Vec<u8>)
    ensures
        res@ == sha256_digest(vstd::utf8::encode_utf8(secret@)),
{
    let digest = sha256(secret.as_bytes());
    let mut out: Vec<u8> = Vec::new();
    let mut i: usize = 0;
    while i < 32
        invariant
            i <= 32,
            out@ == digest@.take(i as int),
        decreases 32 - i,
    {
        out.push(digest[i]);
        assert(digest@.take(i + 1) =~= digest@.take(i as int).push(digest@[i as int]));
        i += 1;
    }
    out
}

/// The PKCE S256 challenge of a code verifier: the unpadded URL-safe base64
/// of the SHA-256 digest of its UTF-8 bytes.
pub open spec fn spec_s256_challenge(verifier: Seq<char>) -> Seq<char> {
    base64_url_nopad_encoding(sha256_digest(vstd::utf8::encode_utf8(verifier)))
}

pub fn s256_challenge(verifier: &str) -> (res: String)
    ensures
        res@ == spec_s256_challenge(verifier@),
{
    let digest = sha256(verifier.as_bytes());
    base64_url_nopad(digest.as_slice())
}

/// A token pair as the token endpoint returns it.
#[derive(Debug, Clone)]
pub struct TokenPair {
    pub access_token: String,
    pub token_type: &'static str,
    pub expires_in: u64,
    pub refresh_token: String,
    pub scope: &'static str,
}

/// A fresh access and refresh token, issued at `issued_at` in a family that
/// expires at `family_expires_at`.
pub fn new_token_pair(issued_at: i64, family_expires_at: i64) -> (res: TokenPair)
    requires
        issued_at + 600 <= i64::MAX,
        issued_at <= family_expires_at,
    ensures
        is_secret_of_kind(res.access_token@, "access"@),
        is_secret_of_kind(res.refresh_token@, "refresh"@),
        res.token_type@ == "Bearer"@,
        res.expires_in == spec_access_expires_at(issued_at as int, family_expires_at as int)
            - issued_at,
        res.scope@ == oauth_scope(),
{
    let access_token = new_secret("access");
    let expires = access_expires_at(issued_at, family_expires_at);
    let refresh_token = new_secret("refresh");
    TokenPair {
        access_token,
        token_type: "Bearer",
        expires_in: (expires - issued_at) as u64,
        refresh_token,
        scope: "driichi:play",
    }
}

/// Whether the request carries exactly one `Origin` header, readable, that
/// names the public origin with the path `/` and no query or fragment.
pub open spec fn spec_strict_same_origin(origins: Seq<Option<Seq<char>>>, public: UrlParts) -> bool {
    &&& origins.len() == 1
    &&& origins[0] matches Some(v)
    &&& url_components(v) matches Some(c)
    &&& c.4 == "/"@
    &&& c.5 is None
    &&& c.6 is None
    &&& same_origin_view(c, public.parts())
}

/// The texts of header values, `None` where a value is unreadable.
pub open spec fn header_texts(values: Seq<Option<String>>) -> Seq<Option<Seq<char>>> {
    values.map_values(|o: Option<String>| opt_text(o))
}

/// Whether the values of the `Origin` header (`None`: unreadable) name
/// exactly the public origin, as the authorization form demands.
pub fn strict_same_origin(origins: &Vec<Option<String>>, public: &UrlParts) -> (res: bool)
    ensures
        res == spec_strict_same_origin(header_texts(origins@), *public),
{
    if origins.len() != 1 {
        return false;
    }
    let value = match &origins[0] {
        Some(v) => v,
        None => {
            return false;
        },
    };
    assert(header_texts(origins@)[0] == Some(value@));
    let origin = match parse_url(value.as_str()) {
        Some(u) => u,
        None => {
            return false;
        },
    };
    str_eq(origin.path.as_str(), "/") && origin.query.is_none() && origin.fragment.is_none()
        && same_origin(&origin, public)
}

/// The key under which a pending authorization is kept: SHA-256 of the
/// CSRF token's UTF-8 bytes.
pub fn csrf_digest(value: &str) -> (res: [u8; 32])
    ensures
        res@ == sha256_digest(vstd::utf8::encode_utf8(value@)),
{
    sha256(value.as_bytes())
}

/// A fresh CSRF token: the unpadded URL-safe base64 of 32 random bytes.
pub fn new_csrf_token() -> (res: String)
    ensures
        exists|bytes: Seq<u8>| bytes.len() == 32 && res@ == base64_url_nopad_encoding(bytes),
{
    let random = random_bytes_32();
    base64_url_nopad(random.as_slice())
}

/// The name of the cookie that carries the CSRF token of an authorization
/// form.
pub open spec fn csrf_cookie_name() -> Seq<char> {
    "driichi_oauth_csrf"@
}

/// Whether the `Cookie` header (`None`: absent or unreadable) carries the
/// CSRF cookie with exactly the submitted token, which is not empty.
pub fn csrf_cookie_matches(cookies: Option<&str>, submitted: &str) -> (res: bool)
    ensures
        res == (submitted@.len() > 0 && (cookies matches Some(c) && cookie_in(
            split_on(c@, ';'),
            csrf_cookie_name(),
        ) == Some(submitted@))),
{
    let name = "driichi_oauth_csrf";
    proof {
        reveal_strlit("driichi_oauth_csrf");
    }
    assert(name@ == csrf_cookie_name());
    match cookie_value(cookies, name) {
        Some(cookie) => str_eq(cookie.as_str(), submitted) && submitted.unicode_len() != 0,
        None => false,
    }
}

/// The most bytes an authorization form may hold.
pub const MAX_OAUTH_FORM_BYTES: usize = 16384;

/// The most bytes an authorization query may hold.
pub const MAX_OAUTH_QUERY_BYTES: usize = 8192;

/// The fields of a posted authorization form: the request must be
/// form-encoded, its body must have been read whole (`None`: it was too
/// large), and its fields acceptable.
pub fn form_body(content_type: Option<&str>, body: Option<&[u8]>) -> (res: Result<
    Vec<(String, String)>,
    (),
>)
    ensures
        !crate::web::media_type_is(
            match content_type {
                Some(t) => Some(t@),
                None => None,
            },
            "application/x-www-form-urlencoded"@,
        ) ==> res is Err,
        body is None ==> res is Err,
        crate::web::media_type_is(
            match content_type {
                Some(t) => Some(t@),
                None => None,
            },
            "application/x-www-form-urlencoded"@,
        ) && body is Some ==> ({
            let b = body->0@;
            &&& b.len() > MAX_OAUTH_FORM_BYTES ==> res is Err
            &&& b.len() <= MAX_OAUTH_FORM_BYTES ==> (form_fields_ok(form_urlencoded_pairs(b))
                <==> res is Ok)
            &&& res matches Ok(f) ==> pair_views(f@) == form_urlencoded_pairs(b)
        }),
{
    if !crate::web::content_type_is(content_type, "application/x-www-form-urlencoded") {
        return Err(());
    }
    let body = match body {
        Some(b) => b,
        None => {
            return Err(());
        },
    };
    parse_urlencoded_fields(body, MAX_OAUTH_FORM_BYTES)
}

/// The value of `document` under `key`, when it is an object.
pub open spec fn document_field(document: JsonValue, key: Seq<char>) -> Option<JsonValue> {
    match document {
        JsonValue::Object(entries) => object_get(entries@, key),
        _ => None,
    }
}

/// Whether `v` is an array holding the string `s`.
pub open spec fn array_holds_string(v: Option<JsonValue>, s: Seq<char>) -> bool {
    match v {
        Some(JsonValue::Array(items)) => exists|i: int|
            0 <= i < items@.len() && as_str(#[trigger] items@[i]) == Some(s),
        _ => false,
    }
}

/// Whether a client metadata document names `client_id`, lists `redirect`
/// among its redirect URIs, and allows the `none` token-endpoint
/// authentication method.
pub open spec fn spec_client_document_matches(
    document: JsonValue,
    client_id: Seq<char>,
    redirect: Seq<char>,
) -> bool {
    &&& match document_field(document, "client_id"@) {
        Some(v) => as_str(v) == Some(client_id),
        None => false,
    }
    &&& array_holds_string(document_field(document, "redirect_uris"@), redirect)
    &&& array_holds_string(document_field(document, "token_endpoint_auth_methods_supported"@), "none"@)
}

fn array_has_string(v: Option<&JsonValue>, s: &str) -> (res: bool)
    ensures
        res == array_holds_string(
            match v {
                Some(x) => Some(*x),
                None => None,
            },
            s@,
        ),
{
    let x = match v {
        Some(x) => x,
        None => {
            return false;
        },
    };
    let items = match x {
        JsonValue::Array(items) => items,
        _ => {
            return false;
        },
    };
    let mut i: usize = 0;
    while i < items.len()
        invariant
            i <= items@.len(),
            v == Some(x),
            *x == JsonValue::Array(*items),
            forall|k: int| 0 <= k < i ==> as_str(#[trigger] items@[k]) != Some(s@),
        decreases items@.len() - i,
    {
        match &items[i] {
            JsonValue::String(t) => {
                if str_eq(t.as_str(), s) {
                    assert(as_str(items@[i as int]) == Some(s@));
                    return true;
                }
            },
            _ => {},
        }
        i += 1;
    }
    false
}

fn document_lookup<'a>(document: &'a JsonValue, key: &str) -> (res: Option<&'a JsonValue>)
    ensures
        match document_field(*document, key@) {
            Some(v) => res == Some(&v),
            None => res is None,
        },
{
    match document {
        JsonValue::Object(entries) => object_lookup(entries, key),
        _ => None,
    }
}

/// Whether a client metadata document names `client_id`, lists `redirect`
/// among its redirect URIs, and allows the `none` token-endpoint
/// authentication method.
pub fn client_document_matches(document: &JsonValue, client_id: &str, redirect: &str) -> (res: bool)
    ensures
        res == spec_client_document_matches(*document, client_id@, redirect@),
{
    let id_ok = match document_lookup(document, "client_id") {
        Some(JsonValue::String(s)) => str_eq(s.as_str(), client_id),
        _ => false,
    };
    id_ok && array_has_string(document_lookup(document, "redirect_uris"), redirect) && array_has_string(
        document_lookup(document, "token_endpoint_auth_methods_supported"),
        "none",
    )
}

/// The query pairs that an authorization redirect carries: the code or the
/// error, if any, then the state and the issuer.
pub open spec fn redirect_query(
    state: Seq<char>,
    code: Option<Seq<char>>,
    error: Option<Seq<char>>,
    issuer: Seq<char>,
) -> Seq<(Seq<char>, Seq<char>)> {
    (match code {
        Some(c) => seq![("code"@, c)],
        None => Seq::empty(),
    }) + (match error {
        Some(e) => seq![("error"@, e)],
        None => Seq::empty(),
    }) + seq![("state"@, state), ("iss"@, issuer)]
}

/// Where an authorization answer sends the user: the client's redirect
/// URI with the code or error, the state and the issuer appended.
pub fn oauth_redirect_target(
    redirect_uri: &str,
    state: &str,
    code: Option<&str>,
    error: Option<&str>,
    issuer: &str,
) -> (res: Option<String>)
    ensures
        match crate::codec::url_with_query_pairs(
            redirect_uri@,
            redirect_query(
                state@,
                match code {
                    Some(c) => Some(c@),
                    None => None,
                },
                match error {
                    Some(e) => Some(e@),
                    None => None,
                },
                issuer@,
            ),
        ) {
            Some(t) => res matches Some(r) && r@ == t,
            None => res is None,
        },
{
    let mut pairs: Vec<(String, String)> = Vec::new();
    match code {
        Some(c) => pairs.push(("code".to_owned(), c.to_owned())),
        None => {},
    }
    match error {
        Some(e) => pairs.push(("error".to_owned(), e.to_owned())),
        None => {},
    }
    pairs.push(("state".to_owned(), state.to_owned()));
    pairs.push(("iss".to_owned(), issuer.to_owned()));
    proof {
        reveal_strlit("code");
        reveal_strlit("error");
        reveal_strlit("state");
        reveal_strlit("iss");
        assert(pair_views(pairs@) =~= redirect_query(
            state@,
            match code {
                Some(c) => Some(c@),
                None => None,
            },
            match error {
                Some(e) => Some(e@),
                None => None,
            },
            issuer@,
        ));
    }
    crate::codec::append_query_pairs(redirect_uri, &pairs)
}

/// The characters of `s` that are not control characters, in order.
pub open spec fn without_controls(s: Seq<char>) -> Seq<char> {
    s.filter(|c: char| !crate::text::spec_is_control(c))
}

/// The name the consent page shows for the client whose metadata document
/// is `document`: its `client_name` when that is a string that is not
/// blank, else `ChatGPT`; without control characters, and cut to 120
/// characters.
pub open spec fn spec_client_display_name(document: JsonValue) -> Seq<char> {
    let named = match document {
        JsonValue::Object(entries) => match object_get(entries@, "client_name"@) {
            Some(v) => as_str(v),
            None => None,
        },
        _ => None,
    };
    let name = match named {
        Some(n) => if crate::text::trim(n).len() > 0 {
            n
        } else {
            "ChatGPT"@
        },
        None => "ChatGPT"@,
    };
    let kept = without_controls(name);
    if kept.len() > 120 {
        kept.take(120)
    } else {
        kept
    }
}

/// The client name to show for the metadata `document`.
pub fn client_display_name(document: &JsonValue) -> (res: String)
    ensures
        res@ == spec_client_display_name(*document),
{
    let fallback = "ChatGPT";
    let name: &str = match document {
        JsonValue::Object(entries) => match object_lookup(entries, "client_name") {
            Some(JsonValue::String(n)) => {
                let t = crate::text::trimmed_chars(n.as_str());
                if t.len() > 0 {
                    n.as_str()
                } else {
                    fallback
                }
            },
            _ => fallback,
        },
        _ => fallback,
    };
    let ghost kept_all = without_controls(name@);
    let chars = chars_of(name);
    let mut res = String::new();
    let mut count: usize = 0;
    let mut i: usize = 0;
    while i < chars.len() && count < 120
        invariant
            chars@ == name@,
            kept_all == without_controls(name@),
            i <= chars@.len(),
            count <= 120,
            res@ == without_controls(chars@.take(i as int)),
            count == res@.len(),
        decreases chars@.len() - i,
    {
        let c = chars[i];
        proof {
            assert(chars@.take(i + 1).drop_last() =~= chars@.take(i as int));
            reveal(Seq::filter);
        }
        if !crate::text::is_control(c) {
            push_char(&mut res, c);
            count += 1;
        }
        i += 1;
    }
    proof {
        lemma_filter_prefix(chars@, i as int);
        if i == chars@.len() {
            assert(chars@.take(i as int) =~= chars@);
        }
    }
    res
}

/// Filtering a prefix keeps a prefix of the filtered whole.
proof fn lemma_filter_prefix(s: Seq<char>, i: int)
    requires
        0 <= i <= s.len(),
    ensures
        without_controls(s.take(i)).len() <= without_controls(s).len(),
        without_controls(s.take(i)) =~= without_controls(s).take(without_controls(s.take(i)).len() as int),
    decreases s.len() - i,
{
    reveal(Seq::filter);
    if i < s.len() {
        lemma_filter_prefix(s, i + 1);
        assert(s.take(i + 1).drop_last() =~= s.take(i));
    } else {
        assert(s.take(i) =~= s);
    }
}

/// A JSON string.
fn json_text(s: &str) -> (res: JsonValue)
    ensures
        json_view(res) == JsonView::Str(s@),
{
    JsonValue::String(s.to_owned())
}

/// A JSON array of one string.
fn json_one_text(s: &str) -> (res: JsonValue)
    ensures
        json_view(res) == JsonView::Array(seq![JsonView::Str(s@)]),
{
    let mut items: Vec<JsonValue> = Vec::new();
    items.push(json_text(s));
    let res = JsonValue::Array(items);
    proof {
        let v = match json_view(res) {
            JsonView::Array(a) => a,
            _ => Seq::empty(),
        };
        assert(v =~= seq![JsonView::Str(s@)]);
    }
    res
}

/// The object with the entries `entries`, keys and values taken in order.
fn json_object(entries: Vec<(String, JsonValue)>) -> (res: JsonValue)
    ensures
        json_view(res) == JsonView::Object(
            Seq::new(entries@.len(), |i: int| (entries@[i].0@, json_view(entries@[i].1))),
        ),
{
    let res = JsonValue::Object(entries);
    proof {
        let v = match json_view(res) {
            JsonView::Object(a) => a,
            _ => Seq::empty(),
        };
        assert(v =~= Seq::new(entries@.len(), |i: int| (entries@[i].0@, json_view(entries@[i].1))));
    }
    res
}

/// The protected-resource metadata of the MCP endpoint `resource`, whose
/// authorization server is `issuer`; its keys in the order a
/// `serde_json::Map` keeps them.
pub open spec fn spec_protected_resource_document(resource: Seq<char>, issuer: Seq<char>) -> JsonView {
    JsonView::Object(
        seq![
            ("authorization_servers"@, JsonView::Array(seq![JsonView::Str(issuer)])),
            ("bearer_methods_supported"@, JsonView::Array(seq![JsonView::Str("header"@)])),
            ("resource"@, JsonView::Str(resource)),
            ("scopes_supported"@, JsonView::Array(seq![JsonView::Str("driichi:play"@)])),
        ],
    )
}

/// The protected-resource metadata document.
pub fn protected_resource_document(resource: &str, issuer: &str) -> (res: JsonValue)
    ensures
        json_view(res) == spec_protected_resource_document(resource@, issuer@),
{
    let mut entries: Vec<(String, JsonValue)> = Vec::new();
    entries.push(("authorization_servers".to_owned(), json_one_text(issuer)));
    entries.push(("bearer_methods_supported".to_owned(), json_one_text("header")));
    entries.push(("resource".to_owned(), json_text(resource)));
    entries.push(("scopes_supported".to_owned(), json_one_text("driichi:play")));
    let res = json_object(entries);
    proof {
        let v = match json_view(res) {
            JsonView::Object(a) => a,
            _ => Seq::empty(),
        };
        let w = match spec_protected_resource_document(resource@, issuer@) {
            JsonView::Object(a) => a,
            _ => Seq::empty(),
        };
        assert(v =~= w);
    }
    res
}

/// The authorization-server metadata of `issuer`: its endpoints below the
/// issuer, the code flow with S256 PKCE for public clients, the
/// `driichi:play` scope, and client metadata documents; its keys in the
/// order a `serde_json::Map` keeps them.
pub open spec fn spec_authorization_server_document(issuer: Seq<char>) -> JsonView {
    JsonView::Object(
        seq![
            ("authorization_endpoint"@, JsonView::Str(issuer + "/api/v1/admin/oauth/authorize"@)),
            ("authorization_response_iss_parameter_supported"@, JsonView::Bool(true)),
            ("client_id_metadata_document_supported"@, JsonView::Bool(true)),
            ("code_challenge_methods_supported"@, JsonView::Array(seq![JsonView::Str("S256"@)])),
            (
                "grant_types_supported"@,
                JsonView::Array(seq![JsonView::Str("authorization_code"@), JsonView::Str("refresh_token"@)]),
            ),
            ("issuer"@, JsonView::Str(issuer)),
            ("response_types_supported"@, JsonView::Array(seq![JsonView::Str("code"@)])),
            ("scopes_supported"@, JsonView::Array(seq![JsonView::Str("driichi:play"@)])),
            ("token_endpoint"@, JsonView::Str(issuer + "/oauth/token"@)),
            ("token_endpoint_auth_methods_supported"@, JsonView::Array(seq![JsonView::Str("none"@)])),
        ],
    )
}

/// The authorization-server metadata document.
pub fn authorization_server_document(issuer: &str) -> (res: JsonValue)
    ensures
        json_view(res) == spec_authorization_server_document(issuer@),
{
    let mut authorize = issuer.to_owned();
    authorize.append("/api/v1/admin/oauth/authorize");
    let mut token = issuer.to_owned();
    token.append("/oauth/token");
    let mut grants: Vec<JsonValue> = Vec::new();
    grants.push(json_text("authorization_code"));
    grants.push(json_text("refresh_token"));
    let grant_types = JsonValue::Array(grants);
    proof {
        let g = match json_view(grant_types) {
            JsonView::Array(a) => a,
            _ => Seq::empty(),
        };
        assert(g =~= seq![JsonView::Str("authorization_code"@), JsonView::Str("refresh_token"@)]);
    }
    let mut entries: Vec<(String, JsonValue)> = Vec::new();
    entries.push(("authorization_endpoint".to_owned(), json_text(authorize.as_str())));
    entries.push(("authorization_response_iss_parameter_supported".to_owned(), JsonValue::Bool(true)));
    entries.push(("client_id_metadata_document_supported".to_owned(), JsonValue::Bool(true)));
    entries.push(("code_challenge_methods_supported".to_owned(), json_one_text("S256")));
    entries.push(("grant_types_supported".to_owned(), grant_types));
    entries.push(("issuer".to_owned(), json_text(issuer)));
    entries.push(("response_types_supported".to_owned(), json_one_text("code")));
    entries.push(("scopes_supported".to_owned(), json_one_text("driichi:play")));
    entries.push(("token_endpoint".to_owned(), json_text(token.as_str())));
    entries.push(("token_endpoint_auth_methods_supported".to_owned(), json_one_text("none")));
    let res = json_object(entries);
    proof {
        let v = match json_view(res) {
            JsonView::Object(a) => a,
            _ => Seq::empty(),
        };
        let w = match spec_authorization_server_document(issuer@) {
            JsonView::Object(a) => a,
            _ => Seq::empty(),
        };
        assert(v =~= w);
    }
    res
}

} // verus!
