//! Text decoders of the `serde_json` and `url` crates, and the parent of a
//! path as `std::path` finds it. Every item here is
//! trusted: its contract names what the crate computes, and nothing below is
//! proved.

use vstd::prelude::*;

verus! {

/// The string that `serde_json` decodes from the JSON text `text`, or `None`
/// when `text` is not a JSON string literal.
pub uninterp spec fn json_string_literal(text: Seq<char>) -> Option<Seq<char>>;

/// The `(name, value)` pairs that `url::form_urlencoded::parse` decodes from
/// `input`, in order.
pub uninterp spec fn form_urlencoded_pairs(input: Seq<u8>) -> Seq<(Seq<char>, Seq<char>)>;

/// `serde_json::from_str::<String>`: the result is named and depends on the
/// text alone.
#[verifier::external_body]
pub fn decode_json_string(text: &str) -> (res: Option<String>)
    ensures
        res is Some == json_string_literal(text@) is Some,
        res is Some ==> res->0@ == json_string_literal(text@)->0,
{
    serde_json::from_str::<String>(text).ok()
}

/// `url::form_urlencoded::parse`, collected: the pairs are named and depend on
/// the input bytes alone.
#[verifier::external_body]
pub fn decode_form_urlencoded(input: &[u8]) -> (res: Vec<(String, String)>)
    ensures
        res@.len() == form_urlencoded_pairs(input@).len(),
        forall|i: int|
            0 <= i < res@.len() ==> (#[trigger] res@[i]).0@ == form_urlencoded_pairs(input@)[i].0
                && res@[i].1@ == form_urlencoded_pairs(input@)[i].1,
{
    url::form_urlencoded::parse(input).map(|(key, value)| (key.into_owned(), value.into_owned())).collect()
}

/// The components that `url::Url::parse` finds in `input`: scheme, host,
/// username, password, path, query, fragment, explicit port, the port or
/// the scheme's known default, and the origin when it is a (scheme, host,
/// port) tuple; `None` when `input` is not an absolute URL.
pub uninterp spec fn url_components(input: Seq<char>) -> Option<UrlView>;

/// The components of a URL as text, in the order of `url_components`.
pub type UrlView = (
    Seq<char>,
    Option<Seq<char>>,
    Seq<char>,
    Option<Seq<char>>,
    Seq<char>,
    Option<Seq<char>>,
    Option<Seq<char>>,
    Option<u16>,
    Option<u16>,
    Option<(Seq<char>, Seq<char>, u16)>,
);

/// The components of a parsed URL, as `Url`'s accessors give them.
#[derive(Debug, Clone)]
pub struct UrlParts {
    pub scheme: String,
    pub host: Option<String>,
    pub username: String,
    pub password: Option<String>,
    pub path: String,
    pub query: Option<String>,
    pub fragment: Option<String>,
    pub port: Option<u16>,
    pub known_port: Option<u16>,
    /// The origin when it is a tuple: scheme, host as `Host` writes it, port.
    /// An opaque origin equals no other origin.
    pub origin: Option<(String, String, u16)>,
}

/// The text of an optional string.
pub open spec fn opt_view(o: Option<String>) -> Option<Seq<char>> {
    match o {
        Some(s) => Some(s@),
        None => None,
    }
}

impl UrlParts {
    /// The components as text.
    pub open spec fn parts(self) -> UrlView {
        (
            self.scheme@,
            opt_view(self.host),
            self.username@,
            opt_view(self.password),
            self.path@,
            opt_view(self.query),
            opt_view(self.fragment),
            self.port,
            self.known_port,
            match self.origin {
                Some(o) => Some((o.0@, o.1@, o.2)),
                None => None,
            },
        )
    }
}

/// `url::Url::parse` with the accessors `scheme`, `host_str`, `username`,
/// `password`, `path`, `query`, `fragment`, `port`,
/// `port_or_known_default` and `origin`: the components are named and
/// depend on the input alone.
#[verifier::external_body]
pub fn parse_url(input: &str) -> (res: Option<UrlParts>)
    ensures
        match url_components(input@) {
            Some(c) => res matches Some(u) && u.parts() == c,
            None => res is None,
        },
{
    let u = url::Url::parse(input).ok()?;
    Some(UrlParts {
        scheme: u.scheme().to_owned(), host: u.host_str().map(str::to_owned),
        username: u.username().to_owned(),
        password: u.password().map(str::to_owned),
        path: u.path().to_owned(),
        query: u.query().map(str::to_owned),
        fragment: u.fragment().map(str::to_owned),
        port: u.port(), known_port: u.port_or_known_default(),
        origin: match u.origin() {
            url::Origin::Tuple(scheme, host, port) => Some((scheme, host.to_string(), port)),
            url::Origin::Opaque(_) => None,
        },
    })
}

/// What `std::path::Path::parent` gives for the path `path`: the path
/// without its last component, or `None` when it ends in a root or prefix
/// or is empty.
pub uninterp spec fn path_parent_of(path: Seq<char>) -> Option<Seq<char>>;

/// `Path::new(path).parent()`, as text: named, and a function of the path
/// alone. A parent of a UTF-8 path is a prefix of it, so it is UTF-8 too.
#[verifier::external_body]
pub fn path_parent(path: &str) -> (res: Option<String>)
    ensures
        match path_parent_of(path@) {
            Some(p) => res matches Some(q) && q@ == p,
            None => res is None,
        },
{
    std::path::Path::new(path).parent().map(|p| p.to_string_lossy().into_owned())
}

/// The text of the URL `base` with the query pairs `pairs` appended in
/// order, form-encoded, as `url::Url::query_pairs_mut` writes them; `None`
/// when `base` is not an absolute URL.
pub uninterp spec fn url_with_query_pairs(base: Seq<char>, pairs: Seq<(Seq<char>, Seq<char>)>) -> Option<
    Seq<char>,
>;

/// `url::Url::parse` of `base`, then `query_pairs_mut().extend_pairs` with
/// `pairs`: the resulting text is named and depends on the arguments
/// alone.
#[verifier::external_body]
pub fn append_query_pairs(base: &str, pairs: &Vec<(String, String)>) -> (res: Option<String>)
    ensures
        match url_with_query_pairs(base@, crate::characters::requirements::pair_views(pairs@)) {
            Some(t) => res matches Some(r) && r@ == t,
            None => res is None,
        },
{
    let mut url = url::Url::parse(base).ok()?;
    url.query_pairs_mut().extend_pairs(pairs.iter().map(|(k, v)| (k.as_str(), v.as_str())));
    Some(url.into())
}

} // verus!
