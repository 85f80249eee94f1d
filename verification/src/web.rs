//! Request helpers of the HTTP server: which frontend file a path names,
//! the ids logged for a request, cookies, and the text shown for tokens.

use vstd::prelude::*;

use crate::codec::{decode_form_urlencoded, form_urlencoded_pairs};
use crate::json::{contains_seq, occurs_at};
use crate::text::{
    char_views, chars_equal, chars_of, chars_start_with, find_char, find_char_from, split_chars,
    split_on, spec_ascii_alphanumeric, spec_ascii_digit, starts_with, str_eq, string_from_chars,
    sub_chars, trim, trim_chars, parse_u64, spec_parse_u64,
};

verus! {

/// Whether every character of a path is printable ASCII other than `%` and
/// `\`.
pub open spec fn path_chars_ok(s: Seq<char>) -> bool {
    forall|i: int| 0 <= i < s.len() ==> printable_path_char(#[trigger] s[i])
}

/// A printable ASCII character other than `%` and `\`.
pub open spec fn printable_path_char(c: char) -> bool {
    ' ' <= c && c < '\u{7f}' && c != '%' && c != '\\'
}

/// Whether a path holds `//`.
pub open spec fn has_double_slash(s: Seq<char>) -> bool {
    exists|i: int| 0 <= i < s.len() - 1 && #[trigger] s[i] == '/' && s[i + 1] == '/'
}

/// `s` without one trailing `/`.
pub open spec fn strip_trailing_slash(s: Seq<char>) -> Seq<char> {
    if s.len() > 0 && s.last() == '/' {
        s.drop_last()
    } else {
        s
    }
}

/// Whether a path segment may be served: not empty and not hidden.
pub open spec fn segment_ok(seg: Seq<char>) -> bool {
    seg.len() > 0 && seg[0] != '.'
}

/// Whether a request path may name a frontend file: absolute, printable
/// ASCII without `%`, `\` or `//`, and every segment neither empty nor
/// starting with a dot.
pub open spec fn spec_frontend_path_is_safe(s: Seq<char>) -> bool {
    &&& s.len() > 0
    &&& s[0] == '/'
    &&& path_chars_ok(s)
    &&& !has_double_slash(s)
    &&& forall|k: int|
        1 <= k < split_on(strip_trailing_slash(s), '/').len() ==> segment_ok(
            #[trigger] split_on(strip_trailing_slash(s), '/')[k],
        )
}

fn path_chars_check(v: &[char]) -> (res: bool)
    ensures
        res == (path_chars_ok(v@) && !has_double_slash(v@)),
{
    let mut i: usize = 0;
    while i < v.len()
        invariant
            i <= v.len(),
            forall|k: int| 0 <= k < i ==> printable_path_char(#[trigger] v@[k]),
            forall|k: int| 0 <= k < i && k < v.len() - 1 ==> !(#[trigger] v@[k] == '/' && v@[k + 1] == '/'),
        decreases v.len() - i,
    {
        let c = v[i];
        if c < ' ' || c >= '\u{7f}' || c == '%' || c == '\\' {
            return false;
        }
        if i + 1 < v.len() && c == '/' && v[i + 1] == '/' {
            return false;
        }
        i += 1;
    }
    true
}

fn segments_ok_from(pieces: &Vec<Vec<char>>, start: usize) -> (res: bool)
    requires
        start <= pieces@.len(),
    ensures
        res == (forall|k: int| start <= k < pieces@.len() ==> segment_ok(#[trigger] char_views(pieces@)[k])),
{
    let mut k: usize = start;
    while k < pieces.len()
        invariant
            start <= k <= pieces.len(),
            forall|j: int| start <= j < k && j < pieces@.len() ==> segment_ok(#[trigger] char_views(pieces@)[j]),
        decreases pieces.len() - k,
    {
        assert(char_views(pieces@)[k as int] == pieces@[k as int]@);
        if pieces[k].len() == 0 || pieces[k][0] == '.' {
            return false;
        }
        k += 1;
    }
    true
}

/// Whether `path` may name a frontend file.
pub fn frontend_path_is_safe(path: &str) -> (res: bool)
    ensures
        res == spec_frontend_path_is_safe(path@),
{
    let v = chars_of(path);
    if v.len() == 0 || v[0] != '/' {
        return false;
    }
    if !path_chars_check(v.as_slice()) {
        return false;
    }
    let stripped = if v[v.len() - 1] == '/' {
        sub_chars(v.as_slice(), 0, v.len() - 1)
    } else {
        sub_chars(v.as_slice(), 0, v.len())
    };
    assert(stripped@ =~= strip_trailing_slash(v@));
    let pieces = split_chars(stripped.as_slice(), '/');
    assert(split_on(stripped@, '/').len() >= 1);
    segments_ok_from(&pieces, 1)
}

/// Whether a segment is a room code: six ASCII digits.
pub open spec fn room_code_ok(s: Seq<char>) -> bool {
    s.len() == 6 && forall|i: int| 0 <= i < s.len() ==> spec_ascii_digit(#[trigger] s[i])
}

/// Whether a segment is a match id: 1 to 128 ASCII letters, digits, `-`
/// and `_`.
pub open spec fn match_id_ok(s: Seq<char>) -> bool {
    1 <= s.len() <= 128 && forall|i: int|
        0 <= i < s.len() ==> spec_ascii_alphanumeric(#[trigger] s[i]) || s[i] == '-' || s[i] == '_'
}

fn room_code_check(s: &[char]) -> (res: bool)
    ensures
        res == room_code_ok(s@),
{
    if s.len() != 6 {
        return false;
    }
    let mut i: usize = 0;
    while i < s.len()
        invariant
            i <= s.len(),
            forall|k: int| 0 <= k < i ==> spec_ascii_digit(#[trigger] s@[k]),
        decreases s.len() - i,
    {
        if !('0' <= s[i] && s[i] <= '9') {
            return false;
        }
        i += 1;
    }
    true
}

fn match_id_check(s: &[char]) -> (res: bool)
    ensures
        res == match_id_ok(s@),
{
    if s.len() == 0 || s.len() > 128 {
        return false;
    }
    let mut i: usize = 0;
    while i < s.len()
        invariant
            i <= s.len(),
            forall|k: int|
                0 <= k < i ==> spec_ascii_alphanumeric(#[trigger] s@[k]) || s@[k] == '-' || s@[k]
                    == '_',
        decreases s.len() - i,
    {
        let c = s[i];
        if !(crate::text::is_ascii_alphanumeric(c) || c == '-' || c == '_') {
            return false;
        }
        i += 1;
    }
    true
}

/// Whether a path is a page of the single-page app: the admin pages, a room
/// page, a room's lobby or a replay.
pub open spec fn spec_spa_route(path: Seq<char>) -> bool {
    let segs = split_on(path, '/').drop_first();
    ||| segs == seq!["admin"@]
    ||| segs == seq!["admin"@, "login"@]
    ||| segs == seq!["admin"@, "replays"@]
    ||| (segs.len() == 3 && segs[0] == "admin"@ && segs[1] == "rooms"@ && room_code_ok(segs[2]))
    ||| (segs.len() == 3 && segs[0] == "admin"@ && segs[1] == "replays"@ && match_id_ok(segs[2]))
    ||| (segs.len() == 2 && segs[0] == "room"@ && room_code_ok(segs[1]))
    ||| (segs.len() == 3 && segs[0] == "room"@ && room_code_ok(segs[1]) && segs[2] == "lobby"@)
}

fn is_text(v: &Vec<char>, s: &str) -> (res: bool)
    ensures
        res == (v@ == s@),
{
    let w = chars_of(s);
    chars_equal(v.as_slice(), w.as_slice())
}

/// Whether `path` is a page of the single-page app.
pub fn frontend_spa_route(path: &str) -> (res: bool)
    ensures
        res == spec_spa_route(path@),
{
    let v = chars_of(path);
    let all = split_chars(v.as_slice(), '/');
    let ghost segs = split_on(path@, '/').drop_first();
    let n = all.len() - 1;
    proof {
        assert(all@.len() >= 1) by {
            assert(split_on(v@, '/').len() >= 1);
        }
        assert forall|k: int| 0 <= k < segs.len() implies segs[k] == all@[k + 1]@ by {
            assert(char_views(all@)[k + 1] == all@[k + 1]@);
        }
    }
    if n == 1 {
        proof {
            assert(segs.len() == 1);
        }
        let r = is_text(&all[1], "admin");
        proof {
            if r {
                assert(segs =~= seq!["admin"@]);
            } else if segs == seq!["admin"@] {
                assert(segs[0] == "admin"@);
            }
        }
        return r;
    }
    if n == 2 {
        let first_admin = is_text(&all[1], "admin");
        let second_login = is_text(&all[2], "login");
        let second_replays = is_text(&all[2], "replays");
        let first_room = is_text(&all[1], "room");
        let code = room_code_check(all[2].as_slice());
        proof {
            assert((segs =~= seq!["admin"@, "login"@]) == (first_admin && second_login));
            assert((segs =~= seq!["admin"@, "replays"@]) == (first_admin && second_replays));
            assert(segs != seq!["admin"@]);
        }
        return (first_admin && (second_login || second_replays)) || (first_room && code);
    }
    if n == 3 {
        let first_admin = is_text(&all[1], "admin");
        let second_rooms = is_text(&all[2], "rooms");
        let second_replays = is_text(&all[2], "replays");
        let first_room = is_text(&all[1], "room");
        let third_lobby = is_text(&all[3], "lobby");
        let code2 = room_code_check(all[2].as_slice());
        let code3 = room_code_check(all[3].as_slice());
        let id3 = match_id_check(all[3].as_slice());
        proof {
            assert(segs.len() == 3);
            assert(segs != seq!["admin"@]);
            assert(segs != seq!["admin"@, "login"@]);
            assert(segs != seq!["admin"@, "replays"@]);
        }
        return (first_admin && second_rooms && code3) || (first_admin && second_replays && id3)
            || (first_room && code2 && third_lobby);
    }
    proof {
        assert(segs.len() != 1 && segs.len() != 2 && segs.len() != 3);
        assert(segs != seq!["admin"@]);
        assert(segs != seq!["admin"@, "login"@]);
        assert(segs != seq!["admin"@, "replays"@]);
    }
    false
}

/// The position of the last `c` in `s`, or -1 when it has none.
pub open spec fn rfind_char(s: Seq<char>, c: char) -> int
    decreases s.len(),
{
    if s.len() == 0 {
        -1
    } else if s.last() == c {
        s.len() - 1
    } else {
        rfind_char(s.drop_last(), c)
    }
}

fn rfind_char_of(v: &[char], c: char) -> (res: Option<usize>)
    ensures
        match res {
            Some(i) => i < v.len() && rfind_char(v@, c) == i,
            None => rfind_char(v@, c) == -1,
        },
{
    let mut j: usize = v.len();
    assert(v@.take(j as int) =~= v@);
    while j > 0
        invariant
            j <= v.len(),
            rfind_char(v@, c) == rfind_char(v@.take(j as int), c),
        decreases j,
    {
        assert(v@.take(j as int).last() == v@[j - 1]);
        assert(v@.take(j as int).drop_last() =~= v@.take(j - 1));
        if v[j - 1] == c {
            return Some(j - 1);
        }
        j -= 1;
    }
    None
}

/// The media type of a frontend file by its extension.
pub open spec fn mime_for_extension(ext: Seq<char>) -> Option<Seq<char>> {
    if ext == "css"@ {
        Some("text/css; charset=utf-8"@)
    } else     if ext == "js"@ {
        Some("text/javascript; charset=utf-8"@)
    } else     if ext == "mjs"@ {
        Some("text/javascript; charset=utf-8"@)
    } else     if ext == "json"@ {
        Some("application/json; charset=utf-8"@)
    } else     if ext == "webmanifest"@ {
        Some("application/json; charset=utf-8"@)
    } else     if ext == "svg"@ {
        Some("image/svg+xml"@)
    } else     if ext == "png"@ {
        Some("image/png"@)
    } else     if ext == "jpg"@ {
        Some("image/jpeg"@)
    } else     if ext == "jpeg"@ {
        Some("image/jpeg"@)
    } else     if ext == "gif"@ {
        Some("image/gif"@)
    } else     if ext == "webp"@ {
        Some("image/webp"@)
    } else     if ext == "ico"@ {
        Some("image/x-icon"@)
    } else     if ext == "woff"@ {
        Some("font/woff"@)
    } else     if ext == "woff2"@ {
        Some("font/woff2"@)
    } else     if ext == "wasm"@ {
        Some("application/wasm"@)
    } else {
        None
    }
}

fn mime_for(ext: Vec<char>) -> (res: Option<&'static str>)
    ensures
        match mime_for_extension(ext@) {
            Some(m) => res matches Some(r) && r@ == m,
            None => res is None,
        },
{
    if is_text(&ext, "css") {
        Some("text/css; charset=utf-8")
    } else     if is_text(&ext, "js") {
        Some("text/javascript; charset=utf-8")
    } else     if is_text(&ext, "mjs") {
        Some("text/javascript; charset=utf-8")
    } else     if is_text(&ext, "json") {
        Some("application/json; charset=utf-8")
    } else     if is_text(&ext, "webmanifest") {
        Some("application/json; charset=utf-8")
    } else     if is_text(&ext, "svg") {
        Some("image/svg+xml")
    } else     if is_text(&ext, "png") {
        Some("image/png")
    } else     if is_text(&ext, "jpg") {
        Some("image/jpeg")
    } else     if is_text(&ext, "jpeg") {
        Some("image/jpeg")
    } else     if is_text(&ext, "gif") {
        Some("image/gif")
    } else     if is_text(&ext, "webp") {
        Some("image/webp")
    } else     if is_text(&ext, "ico") {
        Some("image/x-icon")
    } else     if is_text(&ext, "woff") {
        Some("font/woff")
    } else     if is_text(&ext, "woff2") {
        Some("font/woff2")
    } else     if is_text(&ext, "wasm") {
        Some("application/wasm")
    } else {
        None
    }
}

/// The media type of the frontend file `path`, by the text after its last
/// dot; `None` for a name without a dot or of an unknown kind.
pub open spec fn spec_asset_mime(path: Seq<char>) -> Option<Seq<char>> {
    let dot = rfind_char(path, '.');
    if dot < 0 {
        None
    } else {
        mime_for_extension(path.subrange(dot + 1, path.len() as int))
    }
}

pub fn frontend_asset_mime(path: &str) -> (res: Option<&'static str>)
    ensures
        match spec_asset_mime(path@) {
            Some(m) => res matches Some(r) && r@ == m,
            None => res is None,
        },
{
    let v = chars_of(path);
    match rfind_char_of(v.as_slice(), '.') {
        None => None,
        Some(dot) => mime_for(sub_chars(v.as_slice(), dot + 1, v.len())),
    }
}

/// A character of a content hash in a file name.
pub open spec fn hash_char(c: char) -> bool {
    spec_ascii_alphanumeric(c) || c == '_' || c == '-'
}

/// Whether a frontend file name carries a content hash: its name before
/// the last dot ends in `-` and 8 to 64 letters, digits, `_` or `-`.
pub open spec fn spec_hashed_asset(path: Seq<char>) -> bool {
    let file = path.subrange(rfind_char(path, '/') + 1, path.len() as int);
    let dot = rfind_char(file, '.');
    let stem = file.subrange(0, dot);
    let dash = rfind_char(stem, '-');
    let hash = stem.subrange(dash + 1, stem.len() as int);
    &&& dot >= 0
    &&& dash >= 0
    &&& 8 <= hash.len() <= 64
    &&& forall|i: int| 0 <= i < hash.len() ==> hash_char(#[trigger] hash[i])
}

proof fn lemma_rfind_bounds(s: Seq<char>, c: char)
    ensures
        -1 <= rfind_char(s, c) < s.len(),
    decreases s.len(),
{
    if s.len() > 0 && s.last() != c {
        lemma_rfind_bounds(s.drop_last(), c);
    }
}

pub fn frontend_hashed_asset(path: &str) -> (res: bool)
    ensures
        res == spec_hashed_asset(path@),
{
    let v = chars_of(path);
    proof {
        lemma_rfind_bounds(v@, '/');
    }
    let start = match rfind_char_of(v.as_slice(), '/') {
        Some(i) => i + 1,
        None => 0,
    };
    let file = sub_chars(v.as_slice(), start, v.len());
    proof {
        lemma_rfind_bounds(file@, '.');
    }
    let dot = match rfind_char_of(file.as_slice(), '.') {
        Some(i) => i,
        None => {
            return false;
        },
    };
    let stem = sub_chars(file.as_slice(), 0, dot);
    proof {
        lemma_rfind_bounds(stem@, '-');
    }
    let dash = match rfind_char_of(stem.as_slice(), '-') {
        Some(i) => i,
        None => {
            return false;
        },
    };
    let hash = sub_chars(stem.as_slice(), dash + 1, stem.len());
    if hash.len() < 8 || hash.len() > 64 {
        return false;
    }
    let mut i: usize = 0;
    assert(spec_hashed_asset(path@) == (forall|k: int| 0 <= k < hash@.len() ==> hash_char(#[trigger] hash@[k])));
    while i < hash.len()
        invariant
            i <= hash.len(),
            spec_hashed_asset(path@) == (forall|k: int| 0 <= k < hash@.len() ==> hash_char(#[trigger] hash@[k])),
            forall|k: int| 0 <= k < i ==> hash_char(#[trigger] hash@[k]),
        decreases hash.len() - i,
    {
        let c = hash[i];
        if !(crate::text::is_ascii_alphanumeric(c) || c == '_' || c == '-') {
            return false;
        }
        i += 1;
    }
    true
}

/// The route part of a path: without one trailing `/`, unless it is `/`.
pub open spec fn route_path(path: Seq<char>) -> Seq<char> {
    if path.len() > 1 {
        strip_trailing_slash(path)
    } else {
        path
    }
}

/// The embedded frontend file that a request path is served from: the app
/// page for `/`, `/index.html` and the app's routes, else the file under
/// `assets/` that the path names, if it has a known media type.
pub open spec fn spec_asset_key(path: Seq<char>) -> Option<Seq<char>> {
    let r = route_path(path);
    if !spec_frontend_path_is_safe(path) {
        None
    } else if r == "/"@ || r == "/index.html"@ || spec_spa_route(r) {
        Some("index.html"@)
    } else if path.last() == '/' {
        None
    } else {
        let asset = r.drop_first();
        if starts_with(asset, "assets/"@) && asset.len() > 7 && spec_asset_mime(asset.subrange(7, asset.len() as int)) is Some {
            Some(asset)
        } else {
            None
        }
    }
}

pub fn frontend_asset_key(path: &str) -> (res: Option<String>)
    ensures
        match spec_asset_key(path@) {
            Some(k) => res matches Some(r) && r@ == k,
            None => res is None,
        },
{
    if !frontend_path_is_safe(path) {
        return None;
    }
    let v = chars_of(path);
    let r = if v.len() > 1 && v[v.len() - 1] == '/' {
        sub_chars(v.as_slice(), 0, v.len() - 1)
    } else {
        sub_chars(v.as_slice(), 0, v.len())
    };
    assert(r@ =~= route_path(path@));
    let route = string_from_chars(r.as_slice());
    if is_text(&r, "/") || is_text(&r, "/index.html") || frontend_spa_route(route.as_str()) {
        return Some("index.html".to_owned());
    }
    if v[v.len() - 1] == '/' {
        return None;
    }
    let asset = sub_chars(r.as_slice(), 1, r.len());
    assert(asset@ =~= r@.drop_first());
    let prefix = chars_of("assets/");
    proof {
        reveal_strlit("assets/");
    }
    if !chars_start_with(asset.as_slice(), prefix.as_slice()) || asset.len() <= 7 {
        return None;
    }
    let name = string_from_chars(sub_chars(asset.as_slice(), 7, asset.len()).as_slice());
    if frontend_asset_mime(name.as_str()).is_none() {
        return None;
    }
    Some(string_from_chars(asset.as_slice()))
}

/// Whether `needle` occurs in `s`.
pub fn chars_contain_seq(s: &[char], needle: &[char]) -> (res: bool)
    ensures
        res == contains_seq(s@, needle@),
{
    if needle.len() > s.len() {
        proof {
            assert forall|i: int| !occurs_at(s@, needle@, i) by {}
        }
        return false;
    }
    if needle.len() == 0 {
        assert(s@.subrange(0, 0) =~= needle@);
        assert(occurs_at(s@, needle@, 0));
        return true;
    }
    let mut i: usize = 0;
    while i <= s.len() - needle.len()
        invariant
            needle.len() <= s.len(),
            needle.len() > 0,
            i <= s.len() - needle.len() + 1,
            forall|k: int| 0 <= k < i ==> !occurs_at(s@, needle@, k),
        decreases s.len() - needle.len() + 1 - i,
    {
        let piece = sub_chars(s, i, i + needle.len());
        if chars_equal(piece.as_slice(), needle) {
            assert(occurs_at(s@, needle@, i as int));
            return true;
        }
        i += 1;
    }
    proof {
        assert forall|k: int| !occurs_at(s@, needle@, k) by {
            if 0 <= k && k + needle@.len() <= s@.len() {
                assert(k < i);
            }
        }
    }
    false
}

/// The pieces that are not empty, in order.
pub open spec fn nonempty_pieces(p: Seq<Seq<char>>) -> Seq<Seq<char>>
    decreases p.len(),
{
    if p.len() == 0 {
        Seq::empty()
    } else if p.last().len() == 0 {
        nonempty_pieces(p.drop_last())
    } else {
        nonempty_pieces(p.drop_last()).push(p.last())
    }
}

/// The segment that follows the first segment equal to `key`.
pub open spec fn value_after(segs: Seq<Seq<char>>, key: Seq<char>) -> Option<Seq<char>>
    decreases segs.len(),
{
    if segs.len() < 2 {
        None
    } else if segs[0] == key {
        Some(segs[1])
    } else {
        value_after(segs.drop_first(), key)
    }
}

/// An id as it is logged: its first 128 characters.
pub open spec fn bounded_id(s: Seq<char>) -> Seq<char> {
    if s.len() > 128 {
        s.take(128)
    } else {
        s
    }
}

/// The id logged for a route with `placeholder`: the path segment after
/// `key`.
pub open spec fn log_id(route: Seq<char>, path: Seq<char>, placeholder: Seq<char>, key: Seq<char>) -> Option<
    Seq<char>,
> {
    if contains_seq(route, placeholder) {
        match value_after(nonempty_pieces(split_on(path, '/')), key) {
            Some(v) => Some(bounded_id(v)),
            None => None,
        }
    } else {
        None
    }
}

/// The ids of a request that its log line carries.
#[derive(Debug, Clone, Default)]
pub struct RequestLogIds {
    pub room_id: Option<String>,
    pub match_id: Option<String>,
    pub participant_id: Option<String>,
}

fn segments_of(path: &str) -> (res: Vec<Vec<char>>)
    ensures
        char_views(res@) == nonempty_pieces(split_on(path@, '/')),
{
    let v = chars_of(path);
    let pieces = split_chars(v.as_slice(), '/');
    let ghost ps = char_views(pieces@);
    let mut res: Vec<Vec<char>> = Vec::new();
    let mut i: usize = 0;
    assert(char_views(res@) =~= nonempty_pieces(ps.take(0)));
    while i < pieces.len()
        invariant
            i <= pieces.len(),
            ps == char_views(pieces@),
            char_views(res@) == nonempty_pieces(ps.take(i as int)),
        decreases pieces.len() - i,
    {
        proof {
            assert(ps.take(i + 1).drop_last() =~= ps.take(i as int));
            assert(ps.take(i + 1).last() == ps[i as int]);
            assert(ps[i as int] == pieces@[i as int]@);
        }
        if pieces[i].len() > 0 {
            let piece = sub_chars(pieces[i].as_slice(), 0, pieces[i].len());
            let ghost before = char_views(res@);
            res.push(piece);
            proof {
                assert(piece@ =~= pieces@[i as int]@);
                assert(char_views(res@) =~= before.push(piece@));
            }
        }
        i += 1;
    }
    assert(ps.take(ps.len() as int) =~= ps);
    res
}

fn value_after_of(segs: &Vec<Vec<char>>, key: &str) -> (res: Option<String>)
    ensures
        match value_after(char_views(segs@), key@) {
            Some(v) => res matches Some(r) && r@ == bounded_id(v),
            None => res is None,
        },
{
    let ghost all = char_views(segs@);
    let k = chars_of(key);
    let mut i: usize = 0;
    assert(all.subrange(0, all.len() as int) =~= all);
    while segs.len() > 1 && i < segs.len() - 1
        invariant
            i <= segs.len(),
            all == char_views(segs@),
            k@ == key@,
            value_after(all, key@) == value_after(all.subrange(i as int, all.len() as int), key@),
        decreases segs.len() - i,
    {
        let ghost rest = all.subrange(i as int, all.len() as int);
        assert(rest[0] == segs@[i as int]@);
        assert(rest[1] == segs@[i + 1]@);
        if chars_equal(segs[i].as_slice(), k.as_slice()) {
            let v = &segs[i + 1];
            let n = if v.len() > 128 {
                128
            } else {
                v.len()
            };
            let taken = sub_chars(v.as_slice(), 0, n);
            proof {
                assert(taken@ =~= bounded_id(v@));
            }
            return Some(string_from_chars(taken.as_slice()));
        }
        assert(rest.drop_first() =~= all.subrange(i + 1, all.len() as int));
        i += 1;
    }
    None
}

/// The room, match and participant ids that `path` holds where `route`
/// has them, each cut to 128 characters.
pub fn request_log_ids(route: &str, path: &str) -> (res: RequestLogIds)
    ensures
        opt_text(res.room_id) == log_id(route@, path@, "{join_code}"@, "rooms"@),
        opt_text(res.match_id) == log_id(route@, path@, "{match_id}"@, "replays"@),
        opt_text(res.participant_id) == log_id(route@, path@, "{participant_id}"@, "participants"@),
{
    let segs = segments_of(path);
    let r = chars_of(route);
    let join = chars_of("{join_code}");
    let mat = chars_of("{match_id}");
    let part = chars_of("{participant_id}");
    let room_id = if chars_contain_seq(r.as_slice(), join.as_slice()) {
        value_after_of(&segs, "rooms")
    } else {
        None
    };
    let match_id = if chars_contain_seq(r.as_slice(), mat.as_slice()) {
        value_after_of(&segs, "replays")
    } else {
        None
    };
    let participant_id = if chars_contain_seq(r.as_slice(), part.as_slice()) {
        value_after_of(&segs, "participants")
    } else {
        None
    };
    RequestLogIds { room_id, match_id, participant_id }
}

/// The text of an optional string.
pub open spec fn opt_text(o: Option<String>) -> Option<Seq<char>> {
    match o {
        Some(s) => Some(s@),
        None => None,
    }
}

/// The value of the cookie `name` among `;`-separated `key=value` pairs:
/// the first pair with that key.
pub open spec fn cookie_in(parts: Seq<Seq<char>>, name: Seq<char>) -> Option<Seq<char>>
    decreases parts.len(),
{
    if parts.len() == 0 {
        None
    } else {
        let t = trim(parts[0]);
        let eq = find_char(t, '=');
        if eq < t.len() && t.subrange(0, eq) == name {
            Some(t.subrange(eq + 1, t.len() as int))
        } else {
            cookie_in(parts.drop_first(), name)
        }
    }
}

/// The value of the cookie `name` in a `Cookie` header value (`None` when
/// the request has none, or one that is not visible ASCII).
pub fn cookie_value(cookies: Option<&str>, name: &str) -> (res: Option<String>)
    ensures
        opt_text(res) == match cookies {
            Some(c) => cookie_in(split_on(c@, ';'), name@),
            None => None,
        },
{
    let c = match cookies {
        Some(c) => c,
        None => {
            return None;
        },
    };
    let v = chars_of(c);
    let n = chars_of(name);
    let parts = split_chars(v.as_slice(), ';');
    let ghost all = char_views(parts@);
    let mut i: usize = 0;
    assert(all.subrange(0, all.len() as int) =~= all);
    while i < parts.len()
        invariant
            i <= parts.len(),
            all == char_views(parts@),
            all == split_on(c@, ';'),
            cookies == Some(c),
            n@ == name@,
            cookie_in(all, name@) == cookie_in(all.subrange(i as int, all.len() as int), name@),
        decreases parts.len() - i,
    {
        let ghost rest = all.subrange(i as int, all.len() as int);
        assert(rest[0] == parts@[i as int]@);
        let t = trim_chars(parts[i].as_slice());
        let eq = find_char_from(t.as_slice(), 0, '=');
        proof {
            assert(t@.subrange(0, t.len() as int) =~= t@);
        }
        if eq < t.len() {
            let key = sub_chars(t.as_slice(), 0, eq);
            if chars_equal(key.as_slice(), n.as_slice()) {
                let value = sub_chars(t.as_slice(), eq + 1, t.len());
                return Some(string_from_chars(value.as_slice()));
            }
        }
        assert(rest.drop_first() =~= all.subrange(i + 1, all.len() as int));
        i += 1;
    }
    None
}

/// The target id written to the log when an audited admin action fails:
/// redacted when it holds a raw bot token, whatever the target's type.
pub fn redact_audit_target_id(target_type: &str, target_id: &str) -> (res: String)
    ensures
        res@ == crate::auth::audit::spec_redacted_target_id(target_id@),
{
    crate::auth::audit::redact_audit_target_id(target_id)
}

/// A display name without surrounding whitespace, or `None` when it is
/// empty, longer than 64 characters or holds a control character.
pub fn normalize_display_text(value: &str) -> (res: Option<String>)
    ensures
        crate::characters::assets::display_name_ok(value@) ==> (res matches Some(s) && s@ == trim(
            value@,
        )),
        !crate::characters::assets::display_name_ok(value@) ==> res is None,
{
    crate::characters::assets::normalize_display_name(value)
}

/// A bot token as the admin API lists it.
#[derive(Debug, Clone)]
pub struct TokenView {
    pub token_id: String,
    pub name: String,
    pub state: String,
    pub created_at: String,
    pub revoked_at: Option<String>,
}

/// The listing of a bot token record: its id, name and state, and its
/// times in RFC 3339.
pub fn token_view(record: &crate::auth::tokens::BotTokenRecord) -> (res: TokenView)
    ensures
        res.token_id@ == record@.token_id,
        res.name@ == record@.name,
        res.state@ == record@.state.spec_as_str(),
        res.created_at@ == crate::time::spec_rfc3339(record@.created_at),
        opt_text(res.revoked_at) == match record@.revoked_at {
            Some(t) => Some(crate::time::spec_rfc3339(t)),
            None => None,
        },
{
    TokenView {
        token_id: record.token_id().to_owned(),
        name: record.name().to_owned(),
        state: record.state().as_str().to_owned(),
        created_at: crate::time::unix_seconds_rfc3339(record.created_at()),
        revoked_at: match record.revoked_at() {
            Some(t) => Some(crate::time::unix_seconds_rfc3339(t)),
            None => None,
        },
    }
}

/// Why the server could not start.
#[derive(Debug, Clone, Copy)]
pub enum ServerInitError {
    /// The admin secrets could not be loaded.
    Secrets(crate::auth::password::SecretsError),
    /// Admin authentication could not be set up.
    Auth(crate::auth::session::CredentialError),
    /// The database could not be opened.
    Storage,
    /// The character registry could not be loaded.
    Characters(crate::characters::assets::CharacterRegistryError),
    /// A trusted proxy block does not read as a CIDR block.
    TrustedProxy,
    /// The ChatGPT OAuth client could not be set up.
    ChatgptOAuth,
}

/// The largest JSON request body, in bytes.
pub const HTTP_JSON_LIMIT: usize = 65536;

/// The largest message a human client may send, in bytes.
pub const HUMAN_WS_MESSAGE_LIMIT: usize = 65536;

/// The limits the server enforces; windows are in seconds.
#[derive(Debug)]
pub struct ServerLimits {
    pub max_connections: usize,
    pub room_participant_limit: usize,
    pub code_lookup_limit: usize,
    pub participant_creation_limit: usize,
    pub admin_login_failure_limit: usize,
    pub agent_auth_failure_limit: usize,
    pub max_compat_matches: usize,
    pub max_ranked_queue: usize,
    pub rate_window_seconds: u64,
    pub admin_login_window_seconds: u64,
    pub trusted_proxy_cidrs: Vec<crate::net::IpCidr>,
    pub http_json_limit: usize,
    pub human_ws_message_limit: usize,
}

impl Default for ServerLimits {
    fn default() -> (res: Self)
        ensures
            res.max_connections == 256,
            res.room_participant_limit == 32,
            res.code_lookup_limit == 20,
            res.participant_creation_limit == 10,
            res.admin_login_failure_limit == 5,
            res.agent_auth_failure_limit == 20,
            res.max_compat_matches == 32,
            res.max_ranked_queue == 128,
            res.rate_window_seconds == 60,
            res.admin_login_window_seconds == 900,
            res.trusted_proxy_cidrs@.len() == 0,
            res.http_json_limit == HTTP_JSON_LIMIT,
            res.human_ws_message_limit == HUMAN_WS_MESSAGE_LIMIT,
    {
        ServerLimits {
            max_connections: 256,
            room_participant_limit: 32,
            code_lookup_limit: 20,
            participant_creation_limit: 10,
            admin_login_failure_limit: 5,
            agent_auth_failure_limit: 20,
            max_compat_matches: 32,
            max_ranked_queue: 128,
            rate_window_seconds: 60,
            admin_login_window_seconds: 15 * 60,
            trusted_proxy_cidrs: Vec::new(),
            http_json_limit: HTTP_JSON_LIMIT,
            human_ws_message_limit: HUMAN_WS_MESSAGE_LIMIT,
        }
    }
}

impl ServerLimits {
    /// The limits of a configuration's network settings, the rest at their
    /// defaults; refused when a trusted proxy block does not read.
    pub fn from_network(network: &crate::config::NetworkConfig) -> (res: Result<ServerLimits, ServerInitError>)
        ensures
            (forall|i: int|
                0 <= i < network.trusted_proxy_cidrs@.len() ==> crate::net::spec_parse_cidr(
                    (#[trigger] network.trusted_proxy_cidrs@[i])@,
                ) is Ok) <==> res is Ok,
            res matches Err(e) ==> e is TrustedProxy,
            res matches Ok(l) ==> {
                &&& l.max_connections == network.max_connections
                &&& l.room_participant_limit == network.room_participant_limit
                &&& l.code_lookup_limit == network.code_lookup_per_minute
                &&& l.participant_creation_limit == network.participant_creation_per_minute
                &&& l.admin_login_failure_limit == network.admin_login_failures_per_15_minutes
                &&& l.agent_auth_failure_limit == network.agent_auth_failures_per_minute
                &&& l.max_compat_matches == network.max_compat_matches
                &&& l.max_ranked_queue == network.max_ranked_queue
                &&& l.rate_window_seconds == 60
                &&& l.admin_login_window_seconds == 900
                &&& l.trusted_proxy_cidrs@.len() == network.trusted_proxy_cidrs@.len()
                &&& forall|i: int|
                    0 <= i < l.trusted_proxy_cidrs@.len() ==> crate::net::spec_parse_cidr(
                        network.trusted_proxy_cidrs@[i]@,
                    ) == Ok::<(crate::net::IpAddress, u8), Seq<char>>(
                        (
                            (#[trigger] l.trusted_proxy_cidrs@[i]).network_spec(),
                            l.trusted_proxy_cidrs@[i].prefix_spec(),
                        ),
                    )
                &&& l.http_json_limit == HTTP_JSON_LIMIT
                &&& l.human_ws_message_limit == HUMAN_WS_MESSAGE_LIMIT
            },
    {
        let cidrs = match crate::net::trusted_proxies(&network.trusted_proxy_cidrs) {
            Some(c) => c,
            None => {
                return Err(ServerInitError::TrustedProxy);
            },
        };
        let defaults = ServerLimits::default();
        Ok(ServerLimits {
            max_connections: network.max_connections,
            room_participant_limit: network.room_participant_limit,
            code_lookup_limit: network.code_lookup_per_minute,
            participant_creation_limit: network.participant_creation_per_minute,
            admin_login_failure_limit: network.admin_login_failures_per_15_minutes,
            agent_auth_failure_limit: network.agent_auth_failures_per_minute,
            max_compat_matches: network.max_compat_matches,
            max_ranked_queue: network.max_ranked_queue,
            rate_window_seconds: defaults.rate_window_seconds,
            admin_login_window_seconds: defaults.admin_login_window_seconds,
            trusted_proxy_cidrs: cidrs,
            http_json_limit: defaults.http_json_limit,
            human_ws_message_limit: defaults.human_ws_message_limit,
        })
    }
}

/// The `; Secure` suffix of a cookie when cookies are sent over HTTPS only.
pub fn secure_cookie_suffix(secure_cookies: bool) -> (res: &'static str)
    ensures
        secure_cookies ==> res@ == "; Secure"@,
        !secure_cookies ==> res@ == ""@,
{
    if secure_cookies {
        "; Secure"
    } else {
        ""
    }
}

/// The `; Secure` suffix for `secure_cookies`.
pub open spec fn spec_secure_suffix(secure_cookies: bool) -> Seq<char> {
    if secure_cookies {
        "; Secure"@
    } else {
        ""@
    }
}

/// How long an admin session cookie lives, in seconds.
pub const ADMIN_SESSION_MAX_AGE: u64 = 43200;

/// The cookie that carries the admin session `value`: script-proof, sent
/// to the admin API of this site only, for as long as the session lives.
pub open spec fn spec_admin_session_cookie(value: Seq<char>, secure_cookies: bool) -> Seq<char> {
    "driichi_admin="@ + value + "; HttpOnly; SameSite=Strict; Path=/api/v1/admin; Max-Age=43200"@
        + spec_secure_suffix(secure_cookies)
}

/// The `Set-Cookie` value for the admin session `value`.
pub fn admin_session_cookie(value: &str, secure_cookies: bool) -> (res: String)
    ensures
        res@ == spec_admin_session_cookie(value@, secure_cookies),
{
    let mut res = "driichi_admin=".to_owned();
    res.append(value);
    res.append("; HttpOnly; SameSite=Strict; Path=/api/v1/admin; Max-Age=43200");
    res.append(secure_cookie_suffix(secure_cookies));
    res
}

/// The cookie that ends the admin session: empty, and expired at once.
pub open spec fn spec_cleared_admin_cookie(secure_cookies: bool) -> Seq<char> {
    "driichi_admin=; HttpOnly; SameSite=Strict; Path=/api/v1/admin; Max-Age=0"@ + spec_secure_suffix(
        secure_cookies,
    )
}

/// The `Set-Cookie` value that signs the admin out.
pub fn cleared_admin_cookie(secure_cookies: bool) -> (res: String)
    ensures
        res@ == spec_cleared_admin_cookie(secure_cookies),
{
    let mut res = "driichi_admin=; HttpOnly; SameSite=Strict; Path=/api/v1/admin; Max-Age=0".to_owned();
    res.append(secure_cookie_suffix(secure_cookies));
    res
}

/// The cookie that carries the guest credential `value` for the room
/// `join_code`: named after the room, and sent to its socket only.
pub open spec fn spec_guest_cookie(join_code: Seq<char>, value: Seq<char>, secure_cookies: bool) -> Seq<char> {
    "driichi_guest_"@ + join_code + "="@ + value + "; HttpOnly; SameSite=Strict; Path=/ws/v1/rooms/"@
        + join_code + spec_secure_suffix(secure_cookies)
}

/// The `Set-Cookie` value for a guest of the room `join_code`.
pub fn guest_cookie(join_code: &str, value: &str, secure_cookies: bool) -> (res: String)
    ensures
        res@ == spec_guest_cookie(join_code@, value@, secure_cookies),
{
    let mut res = "driichi_guest_".to_owned();
    res.append(join_code);
    res.append("=");
    res.append(value);
    res.append("; HttpOnly; SameSite=Strict; Path=/ws/v1/rooms/");
    res.append(join_code);
    res.append(secure_cookie_suffix(secure_cookies));
    res
}

/// The socket a guest of the room `join_code` plays through.
pub fn guest_websocket_url(join_code: &str) -> (res: String)
    ensures
        res@ == "/ws/v1/rooms/"@ + join_code@ + "/human"@,
{
    let mut res = "/ws/v1/rooms/".to_owned();
    res.append(join_code);
    res.append("/human");
    res
}

/// The digits of Crockford's base32, in order of value.
pub open spec fn crockford_digits() -> Seq<char> {
    seq![
        '0', '1', '2', '3', '4', '5', '6', '7', '8', '9', 'A', 'B', 'C', 'D', 'E', 'F', 'G', 'H',
        'J', 'K', 'M', 'N', 'P', 'Q', 'R', 'S', 'T', 'V', 'W', 'X', 'Y', 'Z',
    ]
}

/// The 128-bit value of a ULID: the low 48 bits of the time in
/// milliseconds, then the low 80 bits of the random part.
pub open spec fn ulid_value(millis: u128, random: u128) -> u128 {
    ((millis & 0xffff_ffff_ffffu128) << 80u32) | (random & 0xffff_ffff_ffff_ffff_ffffu128)
}

/// The 26 base32 digits of `value`, most significant first; the first
/// digit holds the top three bits.
pub open spec fn ulid_text(value: u128) -> Seq<char> {
    Seq::new(
        26,
        |i: int| crockford_digits()[((value >> ((125 - 5 * i) as u32)) & 31u128) as int],
    )
}

/// The ULID of the instant `millis` (milliseconds since the epoch) and the
/// random bits `random`.
pub fn encode_ulid(millis: u128, random: u128) -> (res: String)
    ensures
        res@ == ulid_text(ulid_value(millis, random)),
{
    let digits = vec![
        '0', '1', '2', '3', '4', '5', '6', '7', '8', '9', 'A', 'B', 'C', 'D', 'E', 'F', 'G', 'H',
        'J', 'K', 'M', 'N', 'P', 'Q', 'R', 'S', 'T', 'V', 'W', 'X', 'Y', 'Z',
    ];
    assert(digits@ =~= crockford_digits());
    let value: u128 = ((millis & 0xffff_ffff_ffffu128) << 80u32) | (random
        & 0xffff_ffff_ffff_ffff_ffffu128);
    let mut res = String::new();
    let mut i: usize = 0;
    while i < 26
        invariant
            i <= 26,
            digits@ == crockford_digits(),
            value == ulid_value(millis, random),
            res@ == ulid_text(value).take(i as int),
        decreases 26 - i,
    {
        let shift: u32 = (125 - 5 * i) as u32;
        let d: u128 = (value >> shift) & 31u128;
        assert((value >> shift) & 31u128 < 32u128) by (bit_vector);
        let c = digits[d as usize];
        crate::text::push_char(&mut res, c);
        assert(ulid_text(value).take(i + 1) =~= ulid_text(value).take(i as int).push(c));
        i += 1;
    }
    assert(ulid_text(value).take(26) =~= ulid_text(value));
    res
}

/// A fresh ULID from the system clock and random bits. Whatever the clock
/// and the generator give, the result is the ULID of some instant and
/// random part.
pub fn generate_ulid() -> (res: String)
    ensures
        exists|millis: u128, random: u128| res@ == ulid_text(ulid_value(millis, random)),
{
    let millis = crate::time::system_unix_millis();
    let random = crate::crypto::random_u128();
    encode_ulid(millis, random)
}

/// The paging asked of the replay list: `offset` and `limit` as given.
#[derive(Debug, Clone, Copy, PartialEq, Eq, Default)]
pub struct ReplayListQuery {
    pub offset: Option<u64>,
    pub limit: Option<u64>,
}

/// The paging that the query pairs `pairs` ask for, read in order, or
/// `None` when `offset` or `limit` is given twice or is not a `u64`.
/// Other keys are ignored.
pub open spec fn replay_query_of(pairs: Seq<(Seq<char>, Seq<char>)>) -> Option<ReplayListQuery>
    decreases pairs.len(),
{
    if pairs.len() == 0 {
        Some(ReplayListQuery { offset: None, limit: None })
    } else {
        match replay_query_of(pairs.drop_last()) {
            None => None,
            Some(q) => {
                let (key, value) = pairs.last();
                if key == "offset"@ {
                    match spec_parse_u64(value) {
                        Some(n) => if q.offset is None {
                            Some(ReplayListQuery { offset: Some(n), ..q })
                        } else {
                            None
                        },
                        None => None,
                    }
                } else if key == "limit"@ {
                    match spec_parse_u64(value) {
                        Some(n) => if q.limit is None {
                            Some(ReplayListQuery { limit: Some(n), ..q })
                        } else {
                            None
                        },
                        None => None,
                    }
                } else {
                    Some(q)
                }
            },
        }
    }
}

/// A query refused on its first `i` pairs is refused whole.
pub proof fn lemma_replay_query_refused(pairs: Seq<(Seq<char>, Seq<char>)>, i: int)
    requires
        0 <= i <= pairs.len(),
        replay_query_of(pairs.take(i)) is None,
    ensures
        replay_query_of(pairs) is None,
    decreases pairs.len() - i,
{
    if i == pairs.len() {
        assert(pairs.take(i) =~= pairs);
    } else {
        assert(pairs.take(i + 1).drop_last() =~= pairs.take(i));
        lemma_replay_query_refused(pairs, i + 1);
    }
}

/// The bytes of the raw query, empty when there is none.
pub open spec fn query_bytes(raw_query: Option<&str>) -> Seq<u8> {
    match raw_query {
        Some(q) => vstd::utf8::encode_utf8(q@),
        None => Seq::empty(),
    }
}

/// The paging that the raw query of a replay-list request asks for; `Err`
/// when `offset` or `limit` is given twice or is not a `u64`.
pub fn parse_replay_list_query(raw_query: Option<&str>) -> (res: Result<ReplayListQuery, ()>)
    ensures
        match replay_query_of(form_urlencoded_pairs(query_bytes(raw_query))) {
            Some(q) => res == Ok::<ReplayListQuery, ()>(q),
            None => res is Err,
        },
{
    let empty: Vec<u8> = Vec::new();
    let bytes: &[u8] = match raw_query {
        Some(q) => q.as_bytes(),
        None => empty.as_slice(),
    };
    assert(bytes@ == query_bytes(raw_query));
    let pairs = decode_form_urlencoded(bytes);
    let ghost all = form_urlencoded_pairs(bytes@);
    let mut query = ReplayListQuery { offset: None, limit: None };
    let mut i: usize = 0;
    while i < pairs.len()
        invariant
            i <= pairs.len(),
            pairs@.len() == all.len(),
            forall|k: int|
                0 <= k < pairs@.len() ==> (#[trigger] pairs@[k]).0@ == all[k].0 && pairs@[k].1@
                    == all[k].1,
            replay_query_of(all.take(i as int)) == Some(query),
            all == form_urlencoded_pairs(query_bytes(raw_query)),
        decreases pairs.len() - i,
    {
        let key = &pairs[i].0;
        let value = &pairs[i].1;
        assert(all.take(i + 1).drop_last() =~= all.take(i as int));
        assert(all.take(i + 1).last() == all[i as int]);
        if str_eq(key.as_str(), "offset") {
            let v = chars_of(value.as_str());
            match parse_u64(v.as_slice()) {
                Some(n) => {
                    if query.offset.is_some() {
                        proof {
                            lemma_replay_query_refused(all, i + 1);
                        }
                        return Err(());
                    }
                    query.offset = Some(n);
                },
                None => {
                    proof {
                        lemma_replay_query_refused(all, i + 1);
                    }
                    return Err(());
                },
            }
        } else if str_eq(key.as_str(), "limit") {
            let v = chars_of(value.as_str());
            match parse_u64(v.as_slice()) {
                Some(n) => {
                    if query.limit.is_some() {
                        proof {
                            lemma_replay_query_refused(all, i + 1);
                        }
                        return Err(());
                    }
                    query.limit = Some(n);
                },
                None => {
                    proof {
                        lemma_replay_query_refused(all, i + 1);
                    }
                    return Err(());
                },
            }
        }
        i += 1;
    }
    assert(all.take(pairs.len() as int) =~= all);
    Ok(query)
}

/// The offset and limit of a replay-list page, when the paging asked for is
/// in range: the offset defaults to 0 and must fit an `i64`, the limit
/// defaults to 50 and lies in `1..=100`.
pub open spec fn spec_replay_page(query: ReplayListQuery) -> Option<(u64, u64)> {
    let offset = match query.offset {
        Some(o) => o,
        None => 0,
    };
    let limit = match query.limit {
        Some(l) => l,
        None => 50,
    };
    if limit == 0 || limit > 100 || offset > i64::MAX {
        None
    } else {
        Some((offset, limit))
    }
}

/// The offset and limit of a replay-list page for the raw query; `None`
/// when the request is refused as invalid pagination.
pub fn replay_page(raw_query: Option<&str>) -> (res: Option<(u64, u64)>)
    ensures
        res == match replay_query_of(form_urlencoded_pairs(query_bytes(raw_query))) {
            Some(q) => spec_replay_page(q),
            None => None,
        },
{
    let query = match parse_replay_list_query(raw_query) {
        Ok(q) => q,
        Err(()) => {
            return None;
        },
    };
    let offset = match query.offset {
        Some(o) => o,
        None => 0,
    };
    let limit = match query.limit {
        Some(l) => l,
        None => 50,
    };
    if limit == 0 || limit > 100 || offset > 0x7fff_ffff_ffff_ffffu64 {
        None
    } else {
        Some((offset, limit))
    }
}

/// Whether the `Content-Type` header (`None`: absent or unreadable, read
/// as empty) names the media type `media`: its part before the first `;`,
/// trimmed, equals `media` up to ASCII case.
pub open spec fn media_type_is(content_type: Option<Seq<char>>, media: Seq<char>) -> bool {
    let v = match content_type {
        Some(t) => t,
        None => Seq::empty(),
    };
    crate::gateway::eq_ignore_ascii_case(trim(v.subrange(0, find_char(v, ';'))), media)
}

/// Whether the `Content-Type` header names the media type `media`.
pub fn content_type_is(content_type: Option<&str>, media: &str) -> (res: bool)
    ensures
        res == media_type_is(
            match content_type {
                Some(t) => Some(t@),
                None => None,
            },
            media@,
        ),
{
    let v = match content_type {
        Some(t) => chars_of(t),
        None => Vec::new(),
    };
    let end = find_char_from(v.as_slice(), 0, ';');
    proof {
        assert(v@.subrange(0, v@.len() as int) =~= v@);
    }
    let first = sub_chars(v.as_slice(), 0, end);
    let t = trim_chars(first.as_slice());
    let m = chars_of(media);
    crate::gateway::chars_eq_ignore_ascii_case(t.as_slice(), m.as_slice())
}

/// Whether a request with the `Content-Type` header `content_type` may
/// carry a JSON body: the media type is `application/json`.
pub fn json_content_type_ok(content_type: Option<&str>) -> (res: bool)
    ensures
        res == media_type_is(
            match content_type {
                Some(t) => Some(t@),
                None => None,
            },
            "application/json"@,
        ),
{
    content_type_is(content_type, "application/json")
}

/// What the health report learned of the storage: none is configured, or
/// whether the database answered and the replay storage is usable.
#[derive(Clone, Copy, Debug, PartialEq, Eq, Structural)]
pub enum StorageProbe {
    NotConfigured,
    Checked { database_ok: bool, replay_ok: bool },
}

/// The status of the health report and what it says of the database and
/// of the replay storage: healthy only when both are ok.
pub open spec fn spec_health_status(probe: StorageProbe) -> (u16, Seq<char>, Seq<char>) {
    match probe {
        StorageProbe::NotConfigured => (503u16, "not_configured"@, "not_configured"@),
        StorageProbe::Checked { database_ok, replay_ok } => (
            if database_ok && replay_ok {
                200u16
            } else {
                503u16
            },
            if database_ok {
                "ok"@
            } else {
                "degraded"@
            },
            if replay_ok {
                "ok"@
            } else {
                "degraded"@
            },
        ),
    }
}

/// The status and storage words of the health report for `probe`.
pub fn health_status(probe: StorageProbe) -> (res: (u16, &'static str, &'static str))
    ensures
        (res.0, res.1@, res.2@) == spec_health_status(probe),
{
    match probe {
        StorageProbe::NotConfigured => (503, "not_configured", "not_configured"),
        StorageProbe::Checked { database_ok, replay_ok } => {
            let database = if database_ok {
                "ok"
            } else {
                "degraded"
            };
            let replay = if replay_ok {
                "ok"
            } else {
                "degraded"
            };
            let status: u16 = if database_ok && replay_ok {
                200
            } else {
                503
            };
            (status, database, replay)
        },
    }
}

/// Whether `s` holds no `/`.
pub open spec fn no_slash(s: Seq<char>) -> bool {
    forall|k: int| 0 <= k < s.len() ==> s[k] != '/'
}

proof fn lemma_split_segment(a: Seq<char>, rest: Seq<char>)
    requires
        no_slash(a),
    ensures
        split_on(a + seq!['/'] + rest, '/') == seq![a] + split_on(rest, '/'),
{
    let s = a + seq!['/'] + rest;
    crate::text::lemma_find_char(s, '/', a.len() as int);
    assert(s.subrange(0, a.len() as int) =~= a);
    assert(s.subrange(a.len() as int + 1, s.len() as int) =~= rest);
}

proof fn lemma_split_last(a: Seq<char>)
    requires
        no_slash(a),
    ensures
        split_on(a, '/') == seq![a],
{
    crate::text::lemma_find_char(a, '/', a.len() as int);
}

/// The segments after the leading `/` of the path `/a`, `/a/b` and
/// `/a/b/c`.
proof fn lemma_path_segments(a: Seq<char>, b: Seq<char>, c: Seq<char>)
    requires
        no_slash(a),
        no_slash(b),
        no_slash(c),
    ensures
        split_on(seq!['/'] + a, '/').drop_first() == seq![a],
        split_on(seq!['/'] + a + seq!['/'] + b, '/').drop_first() == seq![a, b],
        split_on(seq!['/'] + a + seq!['/'] + b + seq!['/'] + c, '/').drop_first() == seq![a, b, c],
{
    let e = Seq::<char>::empty();
    lemma_split_last(a);
    lemma_split_last(b);
    lemma_split_last(c);
    lemma_split_segment(e, a);
    assert(seq!['/'] + a =~= e + seq!['/'] + a);
    lemma_split_segment(a, b);
    lemma_split_segment(e, a + seq!['/'] + b);
    assert(seq!['/'] + a + seq!['/'] + b =~= e + seq!['/'] + (a + seq!['/'] + b));
    lemma_split_segment(b, c);
    lemma_split_segment(a, b + seq!['/'] + c);
    lemma_split_segment(e, a + seq!['/'] + (b + seq!['/'] + c));
    assert(seq!['/'] + a + seq!['/'] + b + seq!['/'] + c =~= e + seq!['/'] + (a + seq!['/'] + (b
        + seq!['/'] + c)));
    assert((seq![e] + seq![a]).drop_first() =~= seq![a]);
    assert((seq![e] + (seq![a] + seq![b])).drop_first() =~= seq![a, b]);
    assert((seq![e] + (seq![a] + (seq![b] + seq![c]))).drop_first() =~= seq![a, b, c]);
}

/// The pages of the app are served the app: the admin page, its sign-in
/// page and its replay list, the admin page of every room and of every
/// replay, and every room's page and lobby.
pub proof fn law_app_pages_are_routes(code: Seq<char>, id: Seq<char>)
    requires
        room_code_ok(code),
        match_id_ok(id),
    ensures
        spec_spa_route("/admin"@),
        spec_spa_route("/admin/login"@),
        spec_spa_route("/admin/replays"@),
        spec_spa_route("/admin/rooms/"@ + code),
        spec_spa_route("/admin/replays/"@ + id),
        spec_spa_route("/room/"@ + code),
        spec_spa_route("/room/"@ + code + "/lobby"@),
{
    reveal_strlit("/admin");
    reveal_strlit("/admin/login");
    reveal_strlit("/admin/replays");
    reveal_strlit("/admin/rooms/");
    reveal_strlit("/admin/replays/");
    reveal_strlit("/room/");
    reveal_strlit("/lobby");
    reveal_strlit("admin");
    reveal_strlit("login");
    reveal_strlit("replays");
    reveal_strlit("rooms");
    reveal_strlit("room");
    reveal_strlit("lobby");
    let admin = "admin"@;
    let login = "login"@;
    let replays = "replays"@;
    let rooms = "rooms"@;
    let room = "room"@;
    let lobby = "lobby"@;
    assert(no_slash(code)) by {
        assert forall|k: int| 0 <= k < code.len() implies code[k] != '/' by {
            assert(spec_ascii_digit(code[k]));
        }
    }
    assert(no_slash(id)) by {
        assert forall|k: int| 0 <= k < id.len() implies id[k] != '/' by {
            assert(spec_ascii_alphanumeric(id[k]) || id[k] == '-' || id[k] == '_');
        }
    }
    lemma_path_segments(admin, login, lobby);
    lemma_path_segments(admin, replays, id);
    lemma_path_segments(admin, rooms, code);
    lemma_path_segments(room, code, lobby);
    assert("/admin"@ =~= seq!['/'] + admin);
    assert("/admin/login"@ =~= seq!['/'] + admin + seq!['/'] + login);
    assert("/admin/replays"@ =~= seq!['/'] + admin + seq!['/'] + replays);
    assert("/admin/rooms/"@ + code =~= seq!['/'] + admin + seq!['/'] + rooms + seq!['/'] + code);
    assert("/admin/replays/"@ + id =~= seq!['/'] + admin + seq!['/'] + replays + seq!['/'] + id);
    assert("/room/"@ + code =~= seq!['/'] + room + seq!['/'] + code);
    assert("/room/"@ + code + "/lobby"@ =~= seq!['/'] + room + seq!['/'] + code + seq!['/'] + lobby);
}

/// The last `.` of `p` followed by an extension without a dot is the one
/// before the extension.
proof fn lemma_rfind_extension(p: Seq<char>, ext: Seq<char>)
    requires
        forall|k: int| 0 <= k < ext.len() ==> ext[k] != '.',
    ensures
        rfind_char(p + seq!['.'] + ext, '.') == p.len(),
    decreases ext.len(),
{
    let s = p + seq!['.'] + ext;
    if ext.len() == 0 {
        assert(s.last() == '.');
    } else {
        assert(s.last() == ext.last());
        assert(s.drop_last() =~= p + seq!['.'] + ext.drop_last());
        lemma_rfind_extension(p, ext.drop_last());
    }
}

/// A file whose name ends in `.js` is served as JavaScript, whatever comes
/// before, just as one ending in `.mjs`.
pub proof fn law_scripts_are_javascript(p: Seq<char>)
    ensures
        spec_asset_mime(p + ".js"@) == Some("text/javascript; charset=utf-8"@),
        spec_asset_mime(p + ".mjs"@) == Some("text/javascript; charset=utf-8"@),
{
    reveal_strlit(".js");
    reveal_strlit(".mjs");
    reveal_strlit("js");
    reveal_strlit("mjs");
    reveal_strlit("css");
    let js = "js"@;
    let mjs = "mjs"@;
    assert(p + ".js"@ =~= p + seq!['.'] + js);
    assert(p + ".mjs"@ =~= p + seq!['.'] + mjs);
    lemma_rfind_extension(p, js);
    lemma_rfind_extension(p, mjs);
    assert((p + seq!['.'] + js).subrange(p.len() as int + 1, (p + seq!['.'] + js).len() as int) =~= js);
    assert((p + seq!['.'] + mjs).subrange(p.len() as int + 1, (p + seq!['.'] + mjs).len() as int) =~= mjs);
    assert(js != "css"@);
    assert(mjs != "css"@) by {
        assert(mjs[0] != "css"@[0]);
    }
    assert(mjs != js);
}

/// The media type of a frontend file is decided by the text after its last
/// dot alone, whatever the name before it.
pub proof fn law_extension_decides_media_type(p: Seq<char>, ext: Seq<char>)
    requires
        forall|k: int| 0 <= k < ext.len() ==> ext[k] != '.',
    ensures
        spec_asset_mime(p + seq!['.'] + ext) == mime_for_extension(ext),
{
    lemma_rfind_extension(p, ext);
    let s = p + seq!['.'] + ext;
    assert(s.subrange(p.len() as int + 1, s.len() as int) =~= ext);
}

proof fn lemma_mime_css()
    ensures
        mime_for_extension("css"@) == Some("text/css; charset=utf-8"@),
{
    reveal_strlit("css");
}

proof fn lemma_mime_js()
    ensures
        mime_for_extension("js"@) == Some("text/javascript; charset=utf-8"@),
{
    reveal_strlit("js");
    reveal_strlit("css");
    assert("js"@.len() != "css"@.len());
}

proof fn lemma_mime_mjs()
    ensures
        mime_for_extension("mjs"@) == Some("text/javascript; charset=utf-8"@),
{
    reveal_strlit("mjs");
    reveal_strlit("css");
    assert("mjs"@[0] != "css"@[0]);
    reveal_strlit("js");
    assert("mjs"@.len() != "js"@.len());
}

proof fn lemma_mime_json()
    ensures
        mime_for_extension("json"@) == Some("application/json; charset=utf-8"@),
{
    reveal_strlit("json");
    reveal_strlit("css");
    assert("json"@.len() != "css"@.len());
    reveal_strlit("js");
    assert("json"@.len() != "js"@.len());
    reveal_strlit("mjs");
    assert("json"@.len() != "mjs"@.len());
}

proof fn lemma_mime_webmanifest()
    ensures
        mime_for_extension("webmanifest"@) == Some("application/json; charset=utf-8"@),
{
    reveal_strlit("webmanifest");
    reveal_strlit("css");
    assert("webmanifest"@.len() != "css"@.len());
    reveal_strlit("js");
    assert("webmanifest"@.len() != "js"@.len());
    reveal_strlit("mjs");
    assert("webmanifest"@.len() != "mjs"@.len());
    reveal_strlit("json");
    assert("webmanifest"@.len() != "json"@.len());
}

proof fn lemma_mime_svg()
    ensures
        mime_for_extension("svg"@) == Some("image/svg+xml"@),
{
    reveal_strlit("svg");
    reveal_strlit("css");
    assert("svg"@[0] != "css"@[0]);
    reveal_strlit("js");
    assert("svg"@.len() != "js"@.len());
    reveal_strlit("mjs");
    assert("svg"@[0] != "mjs"@[0]);
    reveal_strlit("json");
    assert("svg"@.len() != "json"@.len());
    reveal_strlit("webmanifest");
    assert("svg"@.len() != "webmanifest"@.len());
}

proof fn lemma_mime_png()
    ensures
        mime_for_extension("png"@) == Some("image/png"@),
{
    reveal_strlit("png");
    reveal_strlit("css");
    assert("png"@[0] != "css"@[0]);
    reveal_strlit("js");
    assert("png"@.len() != "js"@.len());
    reveal_strlit("mjs");
    assert("png"@[0] != "mjs"@[0]);
    reveal_strlit("json");
    assert("png"@.len() != "json"@.len());
    reveal_strlit("webmanifest");
    assert("png"@.len() != "webmanifest"@.len());
    reveal_strlit("svg");
    assert("png"@[0] != "svg"@[0]);
}

proof fn lemma_mime_jpg()
    ensures
        mime_for_extension("jpg"@) == Some("image/jpeg"@),
{
    reveal_strlit("jpg");
    reveal_strlit("css");
    assert("jpg"@[0] != "css"@[0]);
    reveal_strlit("js");
    assert("jpg"@.len() != "js"@.len());
    reveal_strlit("mjs");
    assert("jpg"@[0] != "mjs"@[0]);
    reveal_strlit("json");
    assert("jpg"@.len() != "json"@.len());
    reveal_strlit("webmanifest");
    assert("jpg"@.len() != "webmanifest"@.len());
    reveal_strlit("svg");
    assert("jpg"@[0] != "svg"@[0]);
    reveal_strlit("png");
    assert("jpg"@[0] != "png"@[0]);
}

proof fn lemma_mime_jpeg()
    ensures
        mime_for_extension("jpeg"@) == Some("image/jpeg"@),
{
    reveal_strlit("jpeg");
    reveal_strlit("css");
    assert("jpeg"@.len() != "css"@.len());
    reveal_strlit("js");
    assert("jpeg"@.len() != "js"@.len());
    reveal_strlit("mjs");
    assert("jpeg"@.len() != "mjs"@.len());
    reveal_strlit("json");
    assert("jpeg"@[1] != "json"@[1]);
    reveal_strlit("webmanifest");
    assert("jpeg"@.len() != "webmanifest"@.len());
    reveal_strlit("svg");
    assert("jpeg"@.len() != "svg"@.len());
    reveal_strlit("png");
    assert("jpeg"@.len() != "png"@.len());
    reveal_strlit("jpg");
    assert("jpeg"@.len() != "jpg"@.len());
}

proof fn lemma_mime_gif()
    ensures
        mime_for_extension("gif"@) == Some("image/gif"@),
{
    reveal_strlit("gif");
    reveal_strlit("css");
    assert("gif"@[0] != "css"@[0]);
    reveal_strlit("js");
    assert("gif"@.len() != "js"@.len());
    reveal_strlit("mjs");
    assert("gif"@[0] != "mjs"@[0]);
    reveal_strlit("json");
    assert("gif"@.len() != "json"@.len());
    reveal_strlit("webmanifest");
    assert("gif"@.len() != "webmanifest"@.len());
    reveal_strlit("svg");
    assert("gif"@[0] != "svg"@[0]);
    reveal_strlit("png");
    assert("gif"@[0] != "png"@[0]);
    reveal_strlit("jpg");
    assert("gif"@[0] != "jpg"@[0]);
    reveal_strlit("jpeg");
    assert("gif"@.len() != "jpeg"@.len());
}

proof fn lemma_mime_webp()
    ensures
        mime_for_extension("webp"@) == Some("image/webp"@),
{
    reveal_strlit("webp");
    reveal_strlit("css");
    assert("webp"@.len() != "css"@.len());
    reveal_strlit("js");
    assert("webp"@.len() != "js"@.len());
    reveal_strlit("mjs");
    assert("webp"@.len() != "mjs"@.len());
    reveal_strlit("json");
    assert("webp"@[0] != "json"@[0]);
    reveal_strlit("webmanifest");
    assert("webp"@.len() != "webmanifest"@.len());
    reveal_strlit("svg");
    assert("webp"@.len() != "svg"@.len());
    reveal_strlit("png");
    assert("webp"@.len() != "png"@.len());
    reveal_strlit("jpg");
    assert("webp"@.len() != "jpg"@.len());
    reveal_strlit("jpeg");
    assert("webp"@[0] != "jpeg"@[0]);
    reveal_strlit("gif");
    assert("webp"@.len() != "gif"@.len());
}

proof fn lemma_mime_ico()
    ensures
        mime_for_extension("ico"@) == Some("image/x-icon"@),
{
    reveal_strlit("ico");
    reveal_strlit("css");
    assert("ico"@[0] != "css"@[0]);
    reveal_strlit("js");
    assert("ico"@.len() != "js"@.len());
    reveal_strlit("mjs");
    assert("ico"@[0] != "mjs"@[0]);
    reveal_strlit("json");
    assert("ico"@.len() != "json"@.len());
    reveal_strlit("webmanifest");
    assert("ico"@.len() != "webmanifest"@.len());
    reveal_strlit("svg");
    assert("ico"@[0] != "svg"@[0]);
    reveal_strlit("png");
    assert("ico"@[0] != "png"@[0]);
    reveal_strlit("jpg");
    assert("ico"@[0] != "jpg"@[0]);
    reveal_strlit("jpeg");
    assert("ico"@.len() != "jpeg"@.len());
    reveal_strlit("gif");
    assert("ico"@[0] != "gif"@[0]);
    reveal_strlit("webp");
    assert("ico"@.len() != "webp"@.len());
}

proof fn lemma_mime_woff()
    ensures
        mime_for_extension("woff"@) == Some("font/woff"@),
{
    reveal_strlit("woff");
    reveal_strlit("css");
    assert("woff"@.len() != "css"@.len());
    reveal_strlit("js");
    assert("woff"@.len() != "js"@.len());
    reveal_strlit("mjs");
    assert("woff"@.len() != "mjs"@.len());
    reveal_strlit("json");
    assert("woff"@[0] != "json"@[0]);
    reveal_strlit("webmanifest");
    assert("woff"@.len() != "webmanifest"@.len());
    reveal_strlit("svg");
    assert("woff"@.len() != "svg"@.len());
    reveal_strlit("png");
    assert("woff"@.len() != "png"@.len());
    reveal_strlit("jpg");
    assert("woff"@.len() != "jpg"@.len());
    reveal_strlit("jpeg");
    assert("woff"@[0] != "jpeg"@[0]);
    reveal_strlit("gif");
    assert("woff"@.len() != "gif"@.len());
    reveal_strlit("webp");
    assert("woff"@[1] != "webp"@[1]);
    reveal_strlit("ico");
    assert("woff"@.len() != "ico"@.len());
}

proof fn lemma_mime_woff2()
    ensures
        mime_for_extension("woff2"@) == Some("font/woff2"@),
{
    reveal_strlit("woff2");
    reveal_strlit("css");
    assert("woff2"@.len() != "css"@.len());
    reveal_strlit("js");
    assert("woff2"@.len() != "js"@.len());
    reveal_strlit("mjs");
    assert("woff2"@.len() != "mjs"@.len());
    reveal_strlit("json");
    assert("woff2"@.len() != "json"@.len());
    reveal_strlit("webmanifest");
    assert("woff2"@.len() != "webmanifest"@.len());
    reveal_strlit("svg");
    assert("woff2"@.len() != "svg"@.len());
    reveal_strlit("png");
    assert("woff2"@.len() != "png"@.len());
    reveal_strlit("jpg");
    assert("woff2"@.len() != "jpg"@.len());
    reveal_strlit("jpeg");
    assert("woff2"@.len() != "jpeg"@.len());
    reveal_strlit("gif");
    assert("woff2"@.len() != "gif"@.len());
    reveal_strlit("webp");
    assert("woff2"@.len() != "webp"@.len());
    reveal_strlit("ico");
    assert("woff2"@.len() != "ico"@.len());
    reveal_strlit("woff");
    assert("woff2"@.len() != "woff"@.len());
}

proof fn lemma_mime_wasm()
    ensures
        mime_for_extension("wasm"@) == Some("application/wasm"@),
{
    reveal_strlit("wasm");
    reveal_strlit("css");
    assert("wasm"@.len() != "css"@.len());
    reveal_strlit("js");
    assert("wasm"@.len() != "js"@.len());
    reveal_strlit("mjs");
    assert("wasm"@.len() != "mjs"@.len());
    reveal_strlit("json");
    assert("wasm"@[0] != "json"@[0]);
    reveal_strlit("webmanifest");
    assert("wasm"@.len() != "webmanifest"@.len());
    reveal_strlit("svg");
    assert("wasm"@.len() != "svg"@.len());
    reveal_strlit("png");
    assert("wasm"@.len() != "png"@.len());
    reveal_strlit("jpg");
    assert("wasm"@.len() != "jpg"@.len());
    reveal_strlit("jpeg");
    assert("wasm"@[0] != "jpeg"@[0]);
    reveal_strlit("gif");
    assert("wasm"@.len() != "gif"@.len());
    reveal_strlit("webp");
    assert("wasm"@[1] != "webp"@[1]);
    reveal_strlit("ico");
    assert("wasm"@.len() != "ico"@.len());
    reveal_strlit("woff");
    assert("wasm"@[1] != "woff"@[1]);
    reveal_strlit("woff2");
    assert("wasm"@.len() != "woff2"@.len());
}

/// The media types of the frontend's files: styles, scripts (classic and
/// module alike), JSON and web manifests, images, fonts and WebAssembly.
pub proof fn law_frontend_media_types()
    ensures
        mime_for_extension("css"@) == Some("text/css; charset=utf-8"@),
        mime_for_extension("js"@) == Some("text/javascript; charset=utf-8"@),
        mime_for_extension("mjs"@) == Some("text/javascript; charset=utf-8"@),
        mime_for_extension("json"@) == Some("application/json; charset=utf-8"@),
        mime_for_extension("webmanifest"@) == Some("application/json; charset=utf-8"@),
        mime_for_extension("svg"@) == Some("image/svg+xml"@),
        mime_for_extension("png"@) == Some("image/png"@),
        mime_for_extension("jpg"@) == Some("image/jpeg"@),
        mime_for_extension("jpeg"@) == Some("image/jpeg"@),
        mime_for_extension("gif"@) == Some("image/gif"@),
        mime_for_extension("webp"@) == Some("image/webp"@),
        mime_for_extension("ico"@) == Some("image/x-icon"@),
        mime_for_extension("woff"@) == Some("font/woff"@),
        mime_for_extension("woff2"@) == Some("font/woff2"@),
        mime_for_extension("wasm"@) == Some("application/wasm"@),
{
    lemma_mime_css();
    lemma_mime_js();
    lemma_mime_mjs();
    lemma_mime_json();
    lemma_mime_webmanifest();
    lemma_mime_svg();
    lemma_mime_png();
    lemma_mime_jpg();
    lemma_mime_jpeg();
    lemma_mime_gif();
    lemma_mime_webp();
    lemma_mime_ico();
    lemma_mime_woff();
    lemma_mime_woff2();
    lemma_mime_wasm();
}

} // verus!
