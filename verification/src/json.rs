//! A JSON document as plain values, for the rules that inspect one.
//!
//! An object keeps its entries in order with distinct keys (what a
//! `serde_json::Map` holds); a number keeps its text.

use vstd::prelude::*;

use crate::text::{spec_ascii_uppercase, str_eq};

verus! {

pub enum JsonValue {
    Null,
    Bool(bool),
    Number(String),
    String(String),
    Array(Vec<JsonValue>),
    Object(Vec<(String, JsonValue)>),
}

/// The keys of an object's entries.
pub open spec fn entry_keys(entries: Seq<(String, JsonValue)>) -> Seq<Seq<char>> {
    entries.map_values(|e: (String, JsonValue)| e.0@)
}

/// The first value stored under `key` in `entries`.
pub open spec fn object_get(entries: Seq<(String, JsonValue)>, key: Seq<char>) -> Option<JsonValue>
    decreases entries.len(),
{
    if entries.len() == 0 {
        None
    } else if entries[0].0@ == key {
        Some(entries[0].1)
    } else {
        object_get(entries.drop_first(), key)
    }
}

/// The string held by `v`, if it is one.
pub open spec fn as_str(v: JsonValue) -> Option<Seq<char>> {
    match v {
        JsonValue::String(s) => Some(s@),
        _ => None,
    }
}

/// Lowercases ASCII letters and keeps every other character.
pub open spec fn ascii_lower_char(c: char) -> char {
    if spec_ascii_uppercase(c) {
        ((c as u32) + 32) as char
    } else {
        c
    }
}

/// `to_ascii_lowercase` on a character sequence.
pub open spec fn ascii_lower(s: Seq<char>) -> Seq<char> {
    s.map_values(|c: char| ascii_lower_char(c))
}

/// Whether `needle` occurs in `s` at position `i`.
pub open spec fn occurs_at(s: Seq<char>, needle: Seq<char>, i: int) -> bool {
    0 <= i && i + needle.len() <= s.len() && s.subrange(i, i + needle.len()) == needle
}

/// Whether `needle` occurs in `s` (`str::contains`).
pub open spec fn contains_seq(s: Seq<char>, needle: Seq<char>) -> bool {
    exists|i: int| occurs_at(s, needle, i)
}

/// The first entry of `entries` stored under `key`.
pub fn object_lookup<'a>(entries: &'a Vec<(String, JsonValue)>, key: &str) -> (res: Option<
    &'a JsonValue,
>)
    ensures
        match object_get(entries@, key@) {
            Some(v) => res == Some(&v),
            None => res is None,
        },
{
    let mut i: usize = 0;
    assert(entries@.skip(0) =~= entries@);
    while i < entries.len()
        invariant
            i <= entries.len(),
            object_get(entries@, key@) == object_get(entries@.skip(i as int), key@),
        decreases entries.len() - i,
    {
        assert(entries@.skip(i as int).drop_first() =~= entries@.skip(i + 1));
        if str_eq(entries[i].0.as_str(), key) {
            return Some(&entries[i].1);
        }
        i += 1;
    }
    None
}

/// Whether `a`, lowercased, equals the lowercase ASCII `b` at this character.
fn lower_char_matches(a: char, b: char) -> (res: bool)
    requires
        !spec_ascii_uppercase(b),
    ensures
        res == (ascii_lower_char(a) == b),
{
    if 'A' <= a && a <= 'Z' {
        let v = a as u32 + 32;
        proof {
            assert(((a as u32) + 32) as char as u32 == v);
        }
        v == b as u32
    } else {
        a == b
    }
}

/// Whether `s`, lowercased, contains the lowercase `needle`.
pub fn lowercase_contains(s: &[char], needle: &[char]) -> (res: bool)
    requires
        forall|k: int| 0 <= k < needle@.len() ==> !spec_ascii_uppercase(#[trigger] needle@[k]),
    ensures
        res == contains_seq(ascii_lower(s@), needle@),
{
    let ghost low = ascii_lower(s@);
    if needle.len() > s.len() {
        proof {
            assert forall|i: int| !occurs_at(low, needle@, i) by {}
        }
        return false;
    }
    let mut i: usize = 0;
    while i <= s.len() - needle.len()
        invariant
            needle.len() <= s.len(),
            i <= s.len() - needle.len() + 1,
            low == ascii_lower(s@),
            forall|k: int| 0 <= k < needle@.len() ==> !spec_ascii_uppercase(#[trigger] needle@[k]),
            forall|j: int| 0 <= j < i ==> !occurs_at(low, needle@, j),
        decreases s.len() - i,
    {
        let mut k: usize = 0;
        let mut same = true;
        while k < needle.len()
            invariant
                i + needle.len() <= s.len(),
                k <= needle.len(),
                low == ascii_lower(s@),
                forall|m: int| 0 <= m < needle@.len() ==> !spec_ascii_uppercase(#[trigger] needle@[m]),
                same == (forall|m: int| 0 <= m < k ==> low[i + m] == needle@[m]),
            decreases needle.len() - k,
        {
            if !lower_char_matches(s[i + k], needle[k]) {
                same = false;
            }
            k += 1;
        }
        if same {
            proof {
                assert(low.subrange(i as int, i + needle.len()) =~= needle@);
                assert(occurs_at(low, needle@, i as int));
            }
            return true;
        }
        proof {
            if occurs_at(low, needle@, i as int) {
                let m = choose|m: int| 0 <= m < needle@.len() && low[i + m] != needle@[m];
                assert(low.subrange(i as int, i + needle.len())[m] == low[i + m]);
            }
        }
        i += 1;
    }
    proof {
        assert forall|j: int| !occurs_at(low, needle@, j) by {
            if 0 <= j && j + needle@.len() <= low.len() {
                assert(j < i);
            }
        }
    }
    false
}

/// Whether `s`, lowercased, equals the lowercase `word`.
pub fn lowercase_equals(s: &[char], word: &[char]) -> (res: bool)
    requires
        forall|k: int| 0 <= k < word@.len() ==> !spec_ascii_uppercase(#[trigger] word@[k]),
    ensures
        res == (ascii_lower(s@) == word@),
{
    if s.len() != word.len() {
        return false;
    }
    let mut k: usize = 0;
    while k < word.len()
        invariant
            s.len() == word.len(),
            k <= word.len(),
            forall|m: int| 0 <= m < word@.len() ==> !spec_ascii_uppercase(#[trigger] word@[m]),
            forall|m: int| 0 <= m < k ==> ascii_lower(s@)[m] == word@[m],
        decreases word.len() - k,
    {
        if !lower_char_matches(s[k], word[k]) {
            return false;
        }
        k += 1;
    }
    assert(ascii_lower(s@) =~= word@);
    true
}

/// A JSON document as mathematical values.
pub enum JsonView {
    Null,
    Bool(bool),
    Number(Seq<char>),
    Str(Seq<char>),
    Array(Seq<JsonView>),
    Object(Seq<(Seq<char>, JsonView)>),
}

/// What a JSON value holds.
pub open spec fn json_view(v: JsonValue) -> JsonView
    decreases v,
{
    match v {
        JsonValue::Null => JsonView::Null,
        JsonValue::Bool(b) => JsonView::Bool(b),
        JsonValue::Number(n) => JsonView::Number(n@),
        JsonValue::String(s) => JsonView::Str(s@),
        JsonValue::Array(items) => JsonView::Array(
            Seq::new(
                items@.len(),
                |i: int|
                    if 0 <= i < items@.len() {
                        json_view(items@[i])
                    } else {
                        JsonView::Null
                    },
            ),
        ),
        JsonValue::Object(entries) => JsonView::Object(
            Seq::new(
                entries@.len(),
                |i: int|
                    if 0 <= i < entries@.len() {
                        (entries@[i].0@, json_view(entries@[i].1))
                    } else {
                        (Seq::empty(), JsonView::Null)
                    },
            ),
        ),
    }
}

} // verus!
