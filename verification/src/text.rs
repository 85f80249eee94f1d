//! Character classification and small string helpers shared by the library.

use vstd::prelude::*;

verus! {

/// Unicode `White_Space` property, as `char::is_whitespace` reports it.
pub open spec fn spec_is_whitespace(c: char) -> bool {
    let v = c as u32;
    (0x09 <= v && v <= 0x0d) || v == 0x20 || v == 0x85 || v == 0xa0 || v == 0x1680 || (0x2000 <= v
        && v <= 0x200a) || v == 0x2028 || v == 0x2029 || v == 0x202f || v == 0x205f || v == 0x3000
}

/// Unicode general category `Cc`, as `char::is_control` reports it.
pub open spec fn spec_is_control(c: char) -> bool {
    let v = c as u32;
    v <= 0x1f || (0x7f <= v && v <= 0x9f)
}

pub open spec fn spec_ascii_lowercase(c: char) -> bool {
    'a' <= c && c <= 'z'
}

pub open spec fn spec_ascii_uppercase(c: char) -> bool {
    'A' <= c && c <= 'Z'
}

pub open spec fn spec_ascii_digit(c: char) -> bool {
    '0' <= c && c <= '9'
}

pub open spec fn spec_ascii_alphanumeric(c: char) -> bool {
    spec_ascii_lowercase(c) || spec_ascii_uppercase(c) || spec_ascii_digit(c)
}

/// Whether `c` has the Unicode `White_Space` property.
pub fn is_whitespace(c: char) -> (res: bool)
    ensures
        res == spec_is_whitespace(c),
{
    let v = c as u32;
    (0x09 <= v && v <= 0x0d) || v == 0x20 || v == 0x85 || v == 0xa0 || v == 0x1680 || (0x2000 <= v
        && v <= 0x200a) || v == 0x2028 || v == 0x2029 || v == 0x202f || v == 0x205f || v == 0x3000
}

/// Whether `c` is a control character (category `Cc`).
pub fn is_control(c: char) -> (res: bool)
    ensures
        res == spec_is_control(c),
{
    let v = c as u32;
    v <= 0x1f || (0x7f <= v && v <= 0x9f)
}

pub fn is_ascii_lowercase(c: char) -> (res: bool)
    ensures
        res == spec_ascii_lowercase(c),
{
    'a' <= c && c <= 'z'
}

pub fn is_ascii_digit(c: char) -> (res: bool)
    ensures
        res == spec_ascii_digit(c),
{
    '0' <= c && c <= '9'
}

pub fn is_ascii_alphanumeric(c: char) -> (res: bool)
    ensures
        res == spec_ascii_alphanumeric(c),
{
    ('a' <= c && c <= 'z') || ('A' <= c && c <= 'Z') || ('0' <= c && c <= '9')
}

/// `s` without its leading whitespace.
pub open spec fn trim_start(s: Seq<char>) -> Seq<char>
    decreases s.len(),
{
    if s.len() > 0 && spec_is_whitespace(s[0]) {
        trim_start(s.drop_first())
    } else {
        s
    }
}

/// `s` without its trailing whitespace.
pub open spec fn trim_end(s: Seq<char>) -> Seq<char>
    decreases s.len(),
{
    if s.len() > 0 && spec_is_whitespace(s.last()) {
        trim_end(s.drop_last())
    } else {
        s
    }
}

/// `s` without leading and trailing whitespace, as `str::trim` gives it.
pub open spec fn trim(s: Seq<char>) -> Seq<char> {
    trim_end(trim_start(s))
}

pub open spec fn has_control(s: Seq<char>) -> bool {
    exists|i: int| 0 <= i < s.len() && spec_is_control(#[trigger] s[i])
}

proof fn lemma_trim_start_at(s: Seq<char>, i: int)
    requires
        0 <= i <= s.len(),
        forall|k: int| 0 <= k < i ==> spec_is_whitespace(#[trigger] s[k]),
        i == s.len() || !spec_is_whitespace(s[i]),
    ensures
        trim_start(s) == s.subrange(i, s.len() as int),
    decreases i,
{
    if i == 0 {
        assert(s.subrange(0, s.len() as int) =~= s);
    } else {
        let t = s.drop_first();
        assert forall|k: int| 0 <= k < i - 1 implies spec_is_whitespace(#[trigger] t[k]) by {
            assert(t[k] == s[k + 1]);
        }
        lemma_trim_start_at(t, i - 1);
        assert(t.subrange(i - 1, t.len() as int) =~= s.subrange(i, s.len() as int));
    }
}

proof fn lemma_trim_end_at(s: Seq<char>, j: int)
    requires
        0 <= j <= s.len(),
        forall|k: int| j <= k < s.len() ==> spec_is_whitespace(#[trigger] s[k]),
        j == 0 || !spec_is_whitespace(s[j - 1]),
    ensures
        trim_end(s) == s.subrange(0, j),
    decreases s.len() - j,
{
    if j == s.len() {
        assert(s.subrange(0, j) =~= s);
    } else {
        let t = s.drop_last();
        assert forall|k: int| j <= k < t.len() implies spec_is_whitespace(#[trigger] t[k]) by {
            assert(t[k] == s[k]);
        }
        lemma_trim_end_at(t, j);
        assert(t.subrange(0, j) =~= s.subrange(0, j));
    }
}

/// The characters of `s`, in order.
pub fn chars_of(s: &str) -> (res: Vec<char>)
    ensures
        res@ == s@,
{
    let mut res: Vec<char> = Vec::new();
    for c in it: s.chars()
        invariant
            res@ == it.seq().take(it.index() as int),
    {
        res.push(c);
    }
    res
}

/// Appends one character to a string (`String::push`).
#[verifier::external_body]
pub fn push_char(s: &mut String, c: char)
    ensures
        final(s)@ == old(s)@.push(c),
{
    s.push(c);
}

/// The string made of the characters in `v`.
pub fn string_from_chars(v: &[char]) -> (res: String)
    ensures
        res@ == v@,
{
    let mut res = String::new();
    let mut i: usize = 0;
    while i < v.len()
        invariant
            i <= v.len(),
            res@ == v@.take(i as int),
        decreases v.len() - i,
    {
        push_char(&mut res, v[i]);
        assert(v@.take(i + 1) =~= v@.take(i as int).push(v@[i as int]));
        i += 1;
    }
    assert(v@.take(v.len() as int) =~= v@);
    res
}

/// Whether two character sequences are equal.
pub fn chars_equal(a: &[char], b: &[char]) -> (res: bool)
    ensures
        res == (a@ == b@),
{
    if a.len() != b.len() {
        return false;
    }
    let mut i: usize = 0;
    while i < a.len()
        invariant
            a.len() == b.len(),
            i <= a.len(),
            forall|k: int| 0 <= k < i ==> a@[k] == b@[k],
        decreases a.len() - i,
    {
        if a[i] != b[i] {
            return false;
        }
        i += 1;
    }
    assert(a@ =~= b@);
    true
}

/// Whether two byte sequences are equal.
fn bytes_equal(a: &[u8], b: &[u8]) -> (res: bool)
    ensures
        res == (a@ == b@),
{
    if a.len() != b.len() {
        return false;
    }
    let mut i: usize = 0;
    while i < a.len()
        invariant
            a.len() == b.len(),
            i <= a.len(),
            forall|k: int| 0 <= k < i ==> a@[k] == b@[k],
        decreases a.len() - i,
    {
        if a[i] != b[i] {
            return false;
        }
        i += 1;
    }
    assert(a@ =~= b@);
    true
}

/// Whether two strings hold the same characters: their UTF-8 bytes are
/// equal exactly when they are.
pub fn str_eq(a: &str, b: &str) -> (res: bool)
    ensures
        res == (a@ == b@),
{
    proof {
        vstd::utf8::encode_utf8_decode_utf8(a@);
        vstd::utf8::encode_utf8_decode_utf8(b@);
    }
    bytes_equal(a.as_bytes(), b.as_bytes())
}

/// The characters of `s` without leading and trailing whitespace.
pub fn trimmed_chars(s: &str) -> (res: Vec<char>)
    ensures
        res@ == trim(s@),
{
    let v = chars_of(s);
    trim_chars(v.as_slice())
}

/// `v` without leading and trailing whitespace.
pub fn trim_chars(v: &[char]) -> (res: Vec<char>)
    ensures
        res@ == trim(v@),
{
    let n = v.len();
    let mut i: usize = 0;
    while i < n && is_whitespace(v[i])
        invariant
            n == v.len(),
            i <= n,
            forall|k: int| 0 <= k < i ==> spec_is_whitespace(#[trigger] v@[k]),
        decreases n - i,
    {
        i += 1;
    }
    proof {
        lemma_trim_start_at(v@, i as int);
    }
    let ghost t = v@.subrange(i as int, n as int);
    let mut j: usize = n;
    while j > i && is_whitespace(v[j - 1])
        invariant
            n == v.len(),
            i <= j <= n,
            t == v@.subrange(i as int, n as int),
            forall|k: int| j <= k < n ==> spec_is_whitespace(#[trigger] v@[k]),
        decreases j,
    {
        j -= 1;
    }
    proof {
        assert forall|k: int| j - i <= k < t.len() implies spec_is_whitespace(#[trigger] t[k]) by {
            assert(t[k] == v@[k + i]);
        }
        if j > i {
            assert(t[j - i - 1] == v@[j - 1]);
        }
        lemma_trim_end_at(t, j - i);
        assert(t.subrange(0, j - i) =~= v@.subrange(i as int, j as int));
    }
    sub_chars(v, i, j)
}

/// The characters of `v` from `start` up to `end`.
pub fn sub_chars(v: &[char], start: usize, end: usize) -> (res: Vec<char>)
    requires
        start <= end <= v.len(),
    ensures
        res@ == v@.subrange(start as int, end as int),
{
    let mut res: Vec<char> = Vec::new();
    let mut k: usize = start;
    while k < end
        invariant
            start <= k <= end <= v.len(),
            res@ == v@.subrange(start as int, k as int),
        decreases end - k,
    {
        res.push(v[k]);
        assert(v@.subrange(start as int, k + 1) =~= v@.subrange(start as int, k as int).push(
            v@[k as int],
        ));
        k += 1;
    }
    res
}

/// The index of the first `c` in `s`, or the length of `s` when it has none.
pub open spec fn find_char(s: Seq<char>, c: char) -> int
    decreases s.len(),
{
    if s.len() == 0 {
        0
    } else if s[0] == c {
        0
    } else {
        1 + find_char(s.drop_first(), c)
    }
}

pub proof fn lemma_find_char(s: Seq<char>, c: char, j: int)
    requires
        0 <= j <= s.len(),
        forall|k: int| 0 <= k < j ==> s[k] != c,
        j == s.len() || s[j] == c,
    ensures
        find_char(s, c) == j,
    decreases j,
{
    if j > 0 {
        let t = s.drop_first();
        assert forall|k: int| 0 <= k < j - 1 implies t[k] != c by {
            assert(t[k] == s[k + 1]);
        }
        lemma_find_char(t, c, j - 1);
    }
}

pub proof fn lemma_find_char_bounds(s: Seq<char>, c: char)
    ensures
        0 <= find_char(s, c) <= s.len(),
        find_char(s, c) < s.len() ==> s[find_char(s, c)] == c,
        forall|k: int| 0 <= k < find_char(s, c) ==> s[k] != c,
    decreases s.len(),
{
    if s.len() > 0 && s[0] != c {
        let t = s.drop_first();
        lemma_find_char_bounds(t, c);
        assert forall|k: int| 0 <= k < find_char(s, c) implies s[k] != c by {
            if k > 0 {
                assert(s[k] == t[k - 1]);
            }
        }
    }
}

/// The index of the first `c` in `v` at or after `start`, or `v.len()`.
pub fn find_char_from(v: &[char], start: usize, c: char) -> (res: usize)
    requires
        start <= v.len(),
    ensures
        res == start + find_char(v@.subrange(start as int, v.len() as int), c),
        start <= res <= v.len(),
        res < v.len() ==> v@[res as int] == c,
        forall|k: int| start <= k < res ==> v@[k] != c,
{
    let mut j = start;
    while j < v.len() && v[j] != c
        invariant
            start <= j <= v.len(),
            forall|k: int| start <= k < j ==> v@[k] != c,
        decreases v.len() - j,
    {
        j += 1;
    }
    proof {
        let s = v@.subrange(start as int, v.len() as int);
        assert forall|k: int| 0 <= k < j - start implies s[k] != c by {
            assert(s[k] == v@[k + start]);
        }
        if j < v.len() {
            assert(s[j - start] == v@[j as int]);
        }
        lemma_find_char(s, c, j - start);
    }
    j
}

/// Whether `v` holds a control character.
pub fn chars_have_control(v: &[char]) -> (res: bool)
    ensures
        res == has_control(v@),
{
    let mut i: usize = 0;
    while i < v.len()
        invariant
            i <= v.len(),
            forall|k: int| 0 <= k < i ==> !spec_is_control(#[trigger] v@[k]),
        decreases v.len() - i,
    {
        if is_control(v[i]) {
            return true;
        }
        i += 1;
    }
    false
}

/// Whether `s` starts with `prefix`.
pub open spec fn starts_with(s: Seq<char>, prefix: Seq<char>) -> bool {
    prefix.len() <= s.len() && s.subrange(0, prefix.len() as int) == prefix
}

/// Whether `s` ends with `suffix`.
pub open spec fn ends_with(s: Seq<char>, suffix: Seq<char>) -> bool {
    suffix.len() <= s.len() && s.subrange(s.len() - suffix.len(), s.len() as int) == suffix
}

/// Whether `s` contains `c`.
pub open spec fn has_char(s: Seq<char>, c: char) -> bool {
    exists|i: int| 0 <= i < s.len() && s[i] == c
}

pub fn chars_start_with(s: &[char], prefix: &[char]) -> (res: bool)
    ensures
        res == starts_with(s@, prefix@),
{
    if prefix.len() > s.len() {
        return false;
    }
    let mut i: usize = 0;
    while i < prefix.len()
        invariant
            prefix.len() <= s.len(),
            i <= prefix.len(),
            forall|k: int| 0 <= k < i ==> s@[k] == prefix@[k],
        decreases prefix.len() - i,
    {
        if s[i] != prefix[i] {
            assert(s@.subrange(0, prefix.len() as int)[i as int] == s@[i as int]);
            return false;
        }
        i += 1;
    }
    assert(s@.subrange(0, prefix.len() as int) =~= prefix@);
    true
}

pub fn chars_end_with(s: &[char], suffix: &[char]) -> (res: bool)
    ensures
        res == ends_with(s@, suffix@),
{
    if suffix.len() > s.len() {
        return false;
    }
    let off = s.len() - suffix.len();
    let mut i: usize = 0;
    while i < suffix.len()
        invariant
            suffix.len() <= s.len(),
            off == s.len() - suffix.len(),
            i <= suffix.len(),
            forall|k: int| 0 <= k < i ==> s@[off + k] == suffix@[k],
        decreases suffix.len() - i,
    {
        if s[off + i] != suffix[i] {
            assert(s@.subrange(off as int, s.len() as int)[i as int] == s@[off + i]);
            return false;
        }
        i += 1;
    }
    assert(s@.subrange(off as int, s.len() as int) =~= suffix@);
    true
}

pub fn chars_contain(s: &[char], c: char) -> (res: bool)
    ensures
        res == has_char(s@, c),
{
    let mut i: usize = 0;
    while i < s.len()
        invariant
            i <= s.len(),
            forall|k: int| 0 <= k < i ==> s@[k] != c,
        decreases s.len() - i,
    {
        if s[i] == c {
            return true;
        }
        i += 1;
    }
    false
}

} // verus!

verus! {

proof fn lemma_trim_start_first(s: Seq<char>)
    ensures
        trim_start(s).len() == 0 || !spec_is_whitespace(trim_start(s)[0]),
        trim_start(s).len() <= s.len(),
    decreases s.len(),
{
    if s.len() > 0 && spec_is_whitespace(s[0]) {
        lemma_trim_start_first(s.drop_first());
    }
}

proof fn lemma_trim_end_prefix(s: Seq<char>)
    ensures
        trim_end(s).len() <= s.len(),
        trim_end(s) == s.subrange(0, trim_end(s).len() as int),
        trim_end(s).len() == 0 || !spec_is_whitespace(trim_end(s).last()),
    decreases s.len(),
{
    if s.len() > 0 && spec_is_whitespace(s.last()) {
        lemma_trim_end_prefix(s.drop_last());
        let t = trim_end(s.drop_last());
        assert(s.drop_last().subrange(0, t.len() as int) =~= s.subrange(0, t.len() as int));
    } else {
        assert(s.subrange(0, s.len() as int) =~= s);
    }
}

/// Trimming twice trims no more than trimming once.
pub proof fn lemma_trim_idempotent(s: Seq<char>)
    ensures
        trim(trim(s)) == trim(s),
{
    let u = trim_start(s);
    let t = trim_end(u);
    lemma_trim_start_first(s);
    lemma_trim_end_prefix(u);
    if t.len() > 0 {
        assert(t[0] == u[0]);
        assert(trim_start(t) == t);
        assert(trim_end(t) == t);
    } else {
        assert(trim_start(t) == t);
        assert(trim_end(t) == t);
    }
}


/// The pieces of `s` between the occurrences of `c`, in order; a string
/// without `c` is one piece.
pub open spec fn split_on(s: Seq<char>, c: char) -> Seq<Seq<char>>
    decreases s.len(),
{
    let i = find_char(s, c);
    if i < 0 || i >= s.len() {
        seq![s]
    } else {
        seq![s.subrange(0, i)] + split_on(s.subrange(i + 1, s.len() as int), c)
    }
}

/// The character sequences held by a sequence of vectors.
pub open spec fn char_views(s: Seq<Vec<char>>) -> Seq<Seq<char>> {
    s.map_values(|p: Vec<char>| p@)
}

/// The pieces of `v` between the occurrences of `c`, as `str::split` gives
/// them.
pub fn split_chars(v: &[char], c: char) -> (res: Vec<Vec<char>>)
    ensures
        char_views(res@) == split_on(v@, c),
{
    let mut res: Vec<Vec<char>> = Vec::new();
    let mut start: usize = 0;
    proof {
        assert(v@.subrange(0, v.len() as int) =~= v@);
        assert(char_views(res@) =~= Seq::<Seq<char>>::empty());
        assert(char_views(res@) + split_on(v@, c) =~= split_on(v@, c));
    }
    loop
        invariant
            start <= v.len(),
            char_views(res@) + split_on(v@.subrange(start as int, v.len() as int), c) == split_on(
                v@,
                c,
            ),
        decreases v.len() - start,
    {
        let j = find_char_from(v, start, c);
        let piece = sub_chars(v, start, j);
        let ghost s = v@.subrange(start as int, v.len() as int);
        let ghost old_res = char_views(res@);
        proof {
            lemma_find_char_bounds(s, c);
            assert(s.subrange(0, j - start) =~= piece@);
        }
        res.push(piece);
        proof {
            assert(char_views(res@) =~= old_res.push(piece@));
        }
        if j == v.len() {
            proof {
                assert(split_on(s, c) == seq![s]);
                assert(s =~= piece@);
                assert(char_views(res@) =~= old_res + split_on(s, c));
                assert(v@.subrange(v.len() as int, v.len() as int) =~= Seq::<char>::empty());
            }
            assert(char_views(res@) == split_on(v@, c)) by {
                assert(split_on(v@.subrange(0, v.len() as int), c) == split_on(v@, c)) by {
                    assert(v@.subrange(0, v.len() as int) =~= v@);
                }
            }
            return res;
        }
        proof {
            let rest = s.subrange(j - start + 1, s.len() as int);
            assert(rest =~= v@.subrange(j + 1, v.len() as int));
            assert(split_on(s, c) == seq![s.subrange(0, j - start)] + split_on(rest, c));
            assert(char_views(res@) + split_on(rest, c) =~= old_res + split_on(s, c));
        }
        start = j + 1;
    }
}

/// Whether `a` comes strictly before `b` in the order of `str`'s `Ord`:
/// character by character, a proper prefix first.
pub open spec fn seq_less(a: Seq<char>, b: Seq<char>) -> bool
    decreases a.len(),
{
    if b.len() == 0 {
        false
    } else if a.len() == 0 {
        true
    } else if a[0] != b[0] {
        (a[0] as int) < (b[0] as int)
    } else {
        seq_less(a.drop_first(), b.drop_first())
    }
}

pub proof fn lemma_less_irreflexive(a: Seq<char>)
    ensures
        !seq_less(a, a),
    decreases a.len(),
{
    if a.len() > 0 {
        lemma_less_irreflexive(a.drop_first());
    }
}

pub proof fn lemma_less_asymmetric(a: Seq<char>, b: Seq<char>)
    ensures
        seq_less(a, b) ==> !seq_less(b, a),
    decreases a.len(),
{
    if a.len() > 0 && b.len() > 0 && a[0] == b[0] {
        lemma_less_asymmetric(a.drop_first(), b.drop_first());
    }
}

pub proof fn lemma_less_total(a: Seq<char>, b: Seq<char>)
    ensures
        a == b || seq_less(a, b) || seq_less(b, a),
    decreases a.len(),
{
    if a.len() == 0 && b.len() == 0 {
        assert(a =~= b);
    } else if a.len() > 0 && b.len() > 0 && a[0] == b[0] {
        lemma_less_total(a.drop_first(), b.drop_first());
        if a.drop_first() == b.drop_first() {
            assert(a =~= b) by {
                assert(a.drop_first().len() == b.drop_first().len());
                assert(a.len() == b.len());
                assert forall|i: int| 0 <= i < a.len() implies a[i] == b[i] by {
                    if i > 0 {
                        assert(a[i] == a.drop_first()[i - 1]);
                        assert(b[i] == b.drop_first()[i - 1]);
                    }
                }
            }
        }
    } else if a.len() > 0 && b.len() > 0 {
        assert((a[0] as int) != (b[0] as int));
    }
}

pub proof fn lemma_less_transitive(a: Seq<char>, b: Seq<char>, c: Seq<char>)
    requires
        seq_less(a, b),
        seq_less(b, c),
    ensures
        seq_less(a, c),
    decreases a.len(),
{
    if a.len() > 0 && b.len() > 0 && c.len() > 0 && a[0] == b[0] && b[0] == c[0] {
        lemma_less_transitive(a.drop_first(), b.drop_first(), c.drop_first());
    }
}

/// Whether `a` comes strictly before `b`.
pub fn chars_less(a: &[char], b: &[char]) -> (res: bool)
    ensures
        res == seq_less(a@, b@),
{
    let mut i: usize = 0;
    proof {
        assert(a@.subrange(0, a.len() as int) =~= a@);
        assert(b@.subrange(0, b.len() as int) =~= b@);
    }
    while i < a.len() && i < b.len() && a[i] == b[i]
        invariant
            i <= a.len(),
            i <= b.len(),
            seq_less(a@, b@) == seq_less(
                a@.subrange(i as int, a.len() as int),
                b@.subrange(i as int, b.len() as int),
            ),
        decreases a.len() - i,
    {
        proof {
            let x = a@.subrange(i as int, a.len() as int);
            let y = b@.subrange(i as int, b.len() as int);
            assert(x.drop_first() =~= a@.subrange(i + 1, a.len() as int));
            assert(y.drop_first() =~= b@.subrange(i + 1, b.len() as int));
        }
        i += 1;
    }
    if i == b.len() {
        false
    } else if i == a.len() {
        true
    } else {
        a[i] < b[i]
    }
}

/// `rel` joined to `base` as `Path::join` joins a relative path: with one
/// `/` between them, none when `base` is empty or already ends in `/`.
pub open spec fn join_path(base: Seq<char>, rel: Seq<char>) -> Seq<char> {
    if base.len() == 0 {
        rel
    } else if base.last() == '/' {
        base + rel
    } else {
        base + seq!['/'] + rel
    }
}

/// Joins the relative path `rel` to `base`.
pub fn join_path_str(base: &str, rel: &str) -> (res: String)
    ensures
        res@ == join_path(base@, rel@),
{
    let b = chars_of(base);
    if b.len() == 0 {
        return rel.to_owned();
    }
    let mut res = base.to_owned();
    if b[b.len() - 1] != '/' {
        push_char(&mut res, '/');
    }
    res.append(rel);
    res
}

/// What `str::to_lowercase` gives for `s`: its Unicode lowercase mapping,
/// which depends on the characters of `s` alone.
pub uninterp spec fn unicode_lowercase(s: Seq<char>) -> Seq<char>;

/// `str::to_lowercase` from std: the result is the lowercase mapping of `s`,
/// named.
#[verifier::external_body]
pub fn to_lowercase(s: &str) -> (res: String)
    ensures
        res@ == unicode_lowercase(s@),
{
    s.to_lowercase()
}

/// A continuation byte of UTF-8.
pub open spec fn utf8_cont(b: u8) -> bool {
    0x80 <= b <= 0xBF
}

/// The length of the well-formed UTF-8 sequence at the start of `s`, or 0
/// when `s` does not start with one (the table of well-formed byte
/// sequences in the Unicode standard).
pub open spec fn utf8_width(s: Seq<u8>) -> int {
    if s.len() == 0 {
        0
    } else if s[0] < 0x80 {
        1
    } else if 0xC2 <= s[0] <= 0xDF {
        if s.len() >= 2 && utf8_cont(s[1]) {
            2
        } else {
            0
        }
    } else if s[0] == 0xE0 {
        if s.len() >= 3 && 0xA0 <= s[1] <= 0xBF && utf8_cont(s[2]) {
            3
        } else {
            0
        }
    } else if (0xE1 <= s[0] <= 0xEC) || s[0] == 0xEE || s[0] == 0xEF {
        if s.len() >= 3 && utf8_cont(s[1]) && utf8_cont(s[2]) {
            3
        } else {
            0
        }
    } else if s[0] == 0xED {
        if s.len() >= 3 && 0x80 <= s[1] <= 0x9F && utf8_cont(s[2]) {
            3
        } else {
            0
        }
    } else if s[0] == 0xF0 {
        if s.len() >= 4 && 0x90 <= s[1] <= 0xBF && utf8_cont(s[2]) && utf8_cont(s[3]) {
            4
        } else {
            0
        }
    } else if 0xF1 <= s[0] <= 0xF3 {
        if s.len() >= 4 && utf8_cont(s[1]) && utf8_cont(s[2]) && utf8_cont(s[3]) {
            4
        } else {
            0
        }
    } else if s[0] == 0xF4 {
        if s.len() >= 4 && 0x80 <= s[1] <= 0x8F && utf8_cont(s[2]) && utf8_cont(s[3]) {
            4
        } else {
            0
        }
    } else {
        0
    }
}

/// Whether `s` is well-formed UTF-8: a run of well-formed sequences.
pub open spec fn valid_utf8(s: Seq<u8>) -> bool
    decreases s.len(),
{
    if s.len() == 0 {
        true
    } else {
        let w = utf8_width(s);
        w > 0 && valid_utf8(s.subrange(w, s.len() as int))
    }
}

fn utf8_width_at(b: &[u8], i: usize) -> (res: usize)
    requires
        i < b.len(),
    ensures
        res == utf8_width(b@.subrange(i as int, b.len() as int)),
        res <= b.len() - i,
{
    let ghost s = b@.subrange(i as int, b.len() as int);
    let n = b.len() - i;
    assert(s.len() == n);
    assert(s[0] == b[i as int]);
    let c = b[i];
    if c < 0x80 {
        return 1;
    }
    if n >= 2 {
        assert(s[1] == b@[i + 1]);
    }
    if n >= 3 {
        assert(s[2] == b@[i + 2]);
    }
    if n >= 4 {
        assert(s[3] == b@[i + 3]);
    }
    if 0xC2 <= c && c <= 0xDF {
        if n >= 2 && 0x80 <= b[i + 1] && b[i + 1] <= 0xBF {
            2
        } else {
            0
        }
    } else if c == 0xE0 {
        if n >= 3 && 0xA0 <= b[i + 1] && b[i + 1] <= 0xBF && 0x80 <= b[i + 2] && b[i + 2] <= 0xBF {
            3
        } else {
            0
        }
    } else if (0xE1 <= c && c <= 0xEC) || c == 0xEE || c == 0xEF {
        if n >= 3 && 0x80 <= b[i + 1] && b[i + 1] <= 0xBF && 0x80 <= b[i + 2] && b[i + 2] <= 0xBF {
            3
        } else {
            0
        }
    } else if c == 0xED {
        if n >= 3 && 0x80 <= b[i + 1] && b[i + 1] <= 0x9F && 0x80 <= b[i + 2] && b[i + 2] <= 0xBF {
            3
        } else {
            0
        }
    } else if c == 0xF0 {
        if n >= 4 && 0x90 <= b[i + 1] && b[i + 1] <= 0xBF && 0x80 <= b[i + 2] && b[i + 2] <= 0xBF
            && 0x80 <= b[i + 3] && b[i + 3] <= 0xBF {
            4
        } else {
            0
        }
    } else if 0xF1 <= c && c <= 0xF3 {
        if n >= 4 && 0x80 <= b[i + 1] && b[i + 1] <= 0xBF && 0x80 <= b[i + 2] && b[i + 2] <= 0xBF
            && 0x80 <= b[i + 3] && b[i + 3] <= 0xBF {
            4
        } else {
            0
        }
    } else if c == 0xF4 {
        if n >= 4 && 0x80 <= b[i + 1] && b[i + 1] <= 0x8F && 0x80 <= b[i + 2] && b[i + 2] <= 0xBF
            && 0x80 <= b[i + 3] && b[i + 3] <= 0xBF {
            4
        } else {
            0
        }
    } else {
        0
    }
}

/// Whether `bytes` are well-formed UTF-8, as `std::str::from_utf8` accepts
/// them.
pub fn is_utf8(bytes: &[u8]) -> (res: bool)
    ensures
        res == valid_utf8(bytes@),
{
    let mut i: usize = 0;
    proof {
        assert(bytes@.subrange(0, bytes.len() as int) =~= bytes@);
    }
    while i < bytes.len()
        invariant
            i <= bytes.len(),
            valid_utf8(bytes@) == valid_utf8(bytes@.subrange(i as int, bytes.len() as int)),
        decreases bytes.len() - i,
    {
        let w = utf8_width_at(bytes, i);
        if w == 0 {
            return false;
        }
        proof {
            let s = bytes@.subrange(i as int, bytes.len() as int);
            assert(s.subrange(w as int, s.len() as int) =~= bytes@.subrange(i + w, bytes.len() as int));
        }
        i += w;
    }
    true
}

/// An ASCII decimal digit.
pub open spec fn is_digit_char(c: char) -> bool {
    '0' <= c && c <= '9'
}

/// Whether every character of `s` is an ASCII decimal digit.
pub open spec fn all_digits(s: Seq<char>) -> bool {
    forall|i: int| 0 <= i < s.len() ==> is_digit_char(#[trigger] s[i])
}

/// The value of a decimal digit.
pub open spec fn digit_val(c: char) -> int {
    (c as int) - ('0' as int)
}

/// The value of a run of decimal digits.
pub open spec fn decimal_value(s: Seq<char>) -> int
    decreases s.len(),
{
    if s.len() == 0 {
        0
    } else {
        decimal_value(s.drop_last()) * 10 + digit_val(s.last())
    }
}

pub proof fn lemma_decimal_nonneg(s: Seq<char>)
    requires
        all_digits(s),
    ensures
        decimal_value(s) >= 0,
    decreases s.len(),
{
    if s.len() > 0 {
        lemma_decimal_nonneg(s.drop_last());
    }
}

/// A longer run of digits is worth at least as much as its prefix.
pub proof fn lemma_decimal_prefix(s: Seq<char>, i: int)
    requires
        all_digits(s),
        0 <= i <= s.len(),
    ensures
        decimal_value(s.take(i)) <= decimal_value(s),
    decreases s.len() - i,
{
    if i < s.len() {
        lemma_decimal_prefix(s, i + 1);
        assert(s.take(i + 1).drop_last() =~= s.take(i));
        assert(all_digits(s.take(i))) by {
            assert forall|k: int| 0 <= k < s.take(i).len() implies is_digit_char(#[trigger] s.take(i)[k]) by {
                assert(s.take(i)[k] == s[k]);
            }
        }
        lemma_decimal_nonneg(s.take(i));
    } else {
        assert(s.take(i) =~= s);
    }
}

/// What `u8::from_str` gives for `s`: an optional `+`, then one or more
/// decimal digits worth at most 255.
pub open spec fn spec_parse_u8(s: Seq<char>) -> Option<u8> {
    let d = if s.len() > 0 && s[0] == '+' {
        s.drop_first()
    } else {
        s
    };
    if d.len() > 0 && all_digits(d) && decimal_value(d) <= 255 {
        Some(decimal_value(d) as u8)
    } else {
        None
    }
}

/// The value of the digits `v[start..]`, or `None` when one is not a digit
/// or the value passes `max`.
pub fn parse_digits(v: &[char], start: usize, max: u64) -> (res: Option<u64>)
    requires
        start <= v.len(),
    ensures
        ({
            let d = v@.subrange(start as int, v.len() as int);
            &&& res matches Some(n) ==> all_digits(d) && n == decimal_value(d) && n <= max
            &&& res is None ==> !(all_digits(d) && decimal_value(d) <= max)
        }),
{
    let ghost d = v@.subrange(start as int, v.len() as int);
    let mut n: u64 = 0;
    let mut i: usize = start;
    while i < v.len()
        invariant
            start <= i <= v.len(),
            d == v@.subrange(start as int, v.len() as int),
            all_digits(d.take(i - start)),
            n == decimal_value(d.take(i - start)),
            n <= max,
        decreases v.len() - i,
    {
        let c = v[i];
        assert(d[i - start] == c);
        if !('0' <= c && c <= '9') {
            return None;
        }
        let digit = (c as u32 - '0' as u32) as u64;
        proof {
            assert(d.take(i - start + 1).drop_last() =~= d.take(i - start));
            assert(d.take(i - start + 1).last() == c);
            assert(all_digits(d.take(i - start + 1))) by {
                assert forall|k: int| 0 <= k < d.take(i - start + 1).len() implies is_digit_char(
                    #[trigger] d.take(i - start + 1)[k],
                ) by {
                    if k < i - start {
                        assert(d.take(i - start + 1)[k] == d.take(i - start)[k]);
                    }
                }
            }
        }
        let next: u128 = n as u128 * 10 + digit as u128;
        if next > max as u128 {
            proof {
                if all_digits(d) {
                    lemma_decimal_prefix(d, i - start + 1);
                }
            }
            return None;
        }
        n = next as u64;
        i += 1;
    }
    assert(d.take(i - start) =~= d);
    Some(n)
}

/// `u8::from_str` on the characters of `v`.
pub fn parse_u8(v: &[char]) -> (res: Option<u8>)
    ensures
        res == spec_parse_u8(v@),
{
    let start: usize = if v.len() > 0 && v[0] == '+' {
        1
    } else {
        0
    };
    proof {
        assert(v@.subrange(start as int, v.len() as int) =~= (if v@.len() > 0 && v@[0] == '+' {
            v@.drop_first()
        } else {
            v@
        }));
    }
    if start == v.len() {
        return None;
    }
    match parse_digits(v, start, 255) {
        Some(n) => Some(n as u8),
        None => None,
    }
}

/// What `u64::from_str` gives for `s`: an optional `+`, then one or more
/// decimal digits worth at most `u64::MAX`.
pub open spec fn spec_parse_u64(s: Seq<char>) -> Option<u64> {
    let d = if s.len() > 0 && s[0] == '+' {
        s.drop_first()
    } else {
        s
    };
    if d.len() > 0 && all_digits(d) && decimal_value(d) <= u64::MAX {
        Some(decimal_value(d) as u64)
    } else {
        None
    }
}

/// `u64::from_str` on the characters of `v`.
pub fn parse_u64(v: &[char]) -> (res: Option<u64>)
    ensures
        res == spec_parse_u64(v@),
{
    let start: usize = if v.len() > 0 && v[0] == '+' {
        1
    } else {
        0
    };
    proof {
        assert(v@.subrange(start as int, v.len() as int) =~= (if v@.len() > 0 && v@[0] == '+' {
            v@.drop_first()
        } else {
            v@
        }));
    }
    if start == v.len() {
        return None;
    }
    parse_digits(v, start, u64::MAX)
}

/// The number of bytes of the UTF-8 encoding of `c`.
pub open spec fn utf8_char_len(c: char) -> int {
    if (c as u32) < 0x80 {
        1
    } else if (c as u32) < 0x800 {
        2
    } else if (c as u32) < 0x10000 {
        3
    } else {
        4
    }
}

/// The number of bytes of the UTF-8 encoding of `s` (`str::len`).
pub open spec fn utf8_len(s: Seq<char>) -> int
    decreases s.len(),
{
    if s.len() == 0 {
        0
    } else {
        utf8_len(s.drop_last()) + utf8_char_len(s.last())
    }
}

pub proof fn lemma_utf8_len_bounds(s: Seq<char>)
    ensures
        s.len() <= utf8_len(s) <= 4 * s.len(),
    decreases s.len(),
{
    if s.len() > 0 {
        lemma_utf8_len_bounds(s.drop_last());
    }
}

/// The length in bytes of `s`, or `None` when it passes `max`.
pub fn utf8_len_upto(s: &str, max: usize) -> (res: Option<usize>)
    ensures
        match res {
            Some(n) => n == utf8_len(s@) && n <= max,
            None => utf8_len(s@) > max,
        },
{
    let v = chars_of(s);
    let mut n: usize = 0;
    let mut i: usize = 0;
    while i < v.len()
        invariant
            i <= v.len(),
            v@ == s@,
            n == utf8_len(v@.take(i as int)),
            n <= max,
        decreases v.len() - i,
    {
        let c = v[i] as u32;
        let w: usize = if c < 0x80 {
            1
        } else if c < 0x800 {
            2
        } else if c < 0x10000 {
            3
        } else {
            4
        };
        proof {
            assert(v@.take(i + 1).drop_last() =~= v@.take(i as int));
            assert(v@.take(i + 1).last() == v@[i as int]);
        }
        if w > max - n {
            proof {
                lemma_utf8_prefix(v@, i + 1);
            }
            return None;
        }
        n = n + w;
        i += 1;
    }
    assert(v@.take(v.len() as int) =~= v@);
    Some(n)
}

proof fn lemma_utf8_prefix(s: Seq<char>, i: int)
    requires
        0 <= i <= s.len(),
    ensures
        utf8_len(s.take(i)) <= utf8_len(s),
    decreases s.len() - i,
{
    if i < s.len() {
        lemma_utf8_prefix(s, i + 1);
        assert(s.take(i + 1).drop_last() =~= s.take(i));
    } else {
        assert(s.take(i) =~= s);
    }
}

} // verus!
