//! The admin credentials file: `ADMIN_USERNAME` and `ADMIN_PASSWORD_HASH`,
//! one `KEY=value` per line.

use vstd::prelude::*;

use crate::auth::password::{is_required_password_hash, spec_required_password_hash, SecretsError};
use crate::codec::{decode_json_string, json_string_literal};
use crate::crypto::{parse_phc_algorithm, phc_algorithm};
use crate::text::{
    chars_equal, chars_of, find_char, find_char_from, spec_is_whitespace, string_from_chars,
    sub_chars, trim, trim_chars,
};

verus! {

pub struct AdminSecrets {
    username: String,
    password_hash: String,
}

impl View for AdminSecrets {
    /// The username and the password hash.
    type V = (Seq<char>, Seq<char>);

    closed spec fn view(&self) -> (Seq<char>, Seq<char>) {
        (self.username@, self.password_hash@)
    }
}

/// The characters held, if any.
pub open spec fn opt_chars(o: Option<Vec<char>>) -> Option<Seq<char>> {
    match o {
        Some(v) => Some(v@),
        None => None,
    }
}

/// Whether `v` holds a whitespace character.
pub open spec fn has_whitespace(v: Seq<char>) -> bool {
    exists|i: int| 0 <= i < v.len() && spec_is_whitespace(#[trigger] v[i])
}

/// Whether `s` ends with the character `c`.
pub open spec fn ends_with_char(s: Seq<char>, c: char) -> bool {
    s.len() > 0 && s.last() == c
}

/// How a `.env` value is read: empty; a JSON string in double quotes; text in
/// single quotes; or bare text without whitespace.
///
/// In single quotes, the first character after the opening quote is dropped
/// together with the quotes, as the slice `[1..len - 1]` of the text after the
/// opening quote gives it.
pub open spec fn spec_env_value(v: Seq<char>) -> Result<Seq<char>, SecretsError> {
    if v.len() == 0 {
        Ok(Seq::empty())
    } else if v[0] == '"' {
        let stripped = v.drop_first();
        if !ends_with_char(stripped, '"') || stripped.len() < 2 {
            Err(SecretsError::Syntax)
        } else {
            match json_string_literal(v) {
                Some(s) => Ok(s),
                None => Err(SecretsError::Syntax),
            }
        }
    } else if v[0] == '\'' {
        let stripped = v.drop_first();
        if !ends_with_char(stripped, '\'') || stripped.len() < 2 {
            Err(SecretsError::Syntax)
        } else {
            Ok(stripped.subrange(1, stripped.len() - 1))
        }
    } else if has_whitespace(v) {
        Err(SecretsError::Syntax)
    } else {
        Ok(v)
    }
}

/// The inputs on which reading a value slices a string inside a multi-byte
/// character and panics: a single-quoted value whose first character after
/// the quote is not ASCII.
pub open spec fn env_value_panics(v: Seq<char>) -> bool {
    v.len() >= 3 && v[0] == '\'' && ends_with_char(v, '\'') && (v[1] as u32) >= 0x80
}

/// The username and password hash read so far.
pub type EnvState = (Option<Seq<char>>, Option<Seq<char>>);

pub open spec fn username_key() -> Seq<char> {
    "ADMIN_USERNAME"@
}

pub open spec fn password_hash_key() -> Seq<char> {
    "ADMIN_PASSWORD_HASH"@
}

/// The key and the raw value of a line that holds `=`.
pub open spec fn env_key(t: Seq<char>) -> Seq<char> {
    trim(t.subrange(0, find_char(t, '=')))
}

pub open spec fn env_raw_value(t: Seq<char>) -> Seq<char> {
    trim(t.subrange(find_char(t, '=') + 1, t.len() as int))
}

/// Whether a line is skipped: blank, or a comment.
pub open spec fn env_line_skipped(line: Seq<char>) -> bool {
    trim(line).len() == 0 || trim(line)[0] == '#'
}

/// Reading one line of the file.
pub open spec fn env_line_step(state: EnvState, line: Seq<char>) -> Result<EnvState, SecretsError> {
    let t = trim(line);
    if env_line_skipped(line) {
        Ok(state)
    } else if find_char(t, '=') >= t.len() {
        Err(SecretsError::Syntax)
    } else if env_key(t) != username_key() && env_key(t) != password_hash_key() {
        Err(SecretsError::Key)
    } else {
        match spec_env_value(env_raw_value(t)) {
            Err(e) => Err(e),
            Ok(value) => if env_key(t) == username_key() {
                if state.0 is Some {
                    Err(SecretsError::Key)
                } else {
                    Ok((Some(value), state.1))
                }
            } else {
                if state.1 is Some {
                    Err(SecretsError::Key)
                } else {
                    Ok((state.0, Some(value)))
                }
            },
        }
    }
}

/// Whether reading this line reaches the panicking slice.
pub open spec fn env_line_panics(line: Seq<char>) -> bool {
    let t = trim(line);
    !env_line_skipped(line) && find_char(t, '=') < t.len() && (env_key(t) == username_key()
        || env_key(t) == password_hash_key()) && env_value_panics(env_raw_value(t))
}

/// Reading the lines of `s` (split at `\n`) in order, from `state`; the first
/// error ends the reading.
pub open spec fn env_lines(s: Seq<char>, state: EnvState) -> Result<EnvState, SecretsError>
    decreases s.len(),
{
    let j = find_char(s, '\n');
    let line = s.subrange(0, j);
    match env_line_step(state, line) {
        Err(e) => Err(e),
        Ok(next) => if j >= s.len() || j < 0 {
            Ok(next)
        } else {
            env_lines(s.subrange(j + 1, s.len() as int), next)
        },
    }
}

/// Whether reading the lines of `s` from `state` reaches the panicking slice.
pub open spec fn env_lines_panic(s: Seq<char>, state: EnvState) -> bool
    decreases s.len(),
{
    let j = find_char(s, '\n');
    let line = s.subrange(0, j);
    if env_line_panics(line) {
        true
    } else {
        match env_line_step(state, line) {
            Err(_) => false,
            Ok(next) => if j >= s.len() || j < 0 {
                false
            } else {
                env_lines_panic(s.subrange(j + 1, s.len() as int), next)
            },
        }
    }
}

/// The admin credentials that the text of the `.env` file gives.
pub open spec fn spec_admin_secrets(text: Seq<char>) -> Result<(Seq<char>, Seq<char>), SecretsError> {
    match env_lines(text, (None, None)) {
        Err(e) => Err(e),
        Ok(state) => {
            if state.0 is None || state.1 is None {
                Err(SecretsError::Missing)
            } else if state.0->0.len() == 0 || state.1->0.len() == 0 {
                Err(SecretsError::Missing)
            } else if phc_algorithm(state.1->0) is None {
                Err(SecretsError::InvalidPasswordHash)
            } else if !spec_required_password_hash(state.1->0) || phc_algorithm(state.1->0)->0
                != "argon2id"@ {
                Err(SecretsError::InvalidPasswordHash)
            } else {
                Ok((state.0->0, state.1->0))
            }
        },
    }
}

/// Reads one `.env` value.
pub fn parse_env_value(value: &str) -> (res: Result<String, SecretsError>)
    requires
        !env_value_panics(value@),
    ensures
        match spec_env_value(value@) {
            Ok(s) => res is Ok && res->Ok_0@ == s,
            Err(e) => res == Err::<String, SecretsError>(e),
        },
{
    let v = chars_of(value);
    match parse_env_value_chars(v.as_slice()) {
        Ok(chars) => Ok(string_from_chars(chars.as_slice())),
        Err(e) => Err(e),
    }
}

fn parse_env_value_chars(v: &[char]) -> (res: Result<Vec<char>, SecretsError>)
    requires
        !env_value_panics(v@),
    ensures
        match spec_env_value(v@) {
            Ok(s) => res is Ok && res->Ok_0@ == s,
            Err(e) => res == Err::<Vec<char>, SecretsError>(e),
        },
{
    let n = v.len();
    if n == 0 {
        return Ok(Vec::new());
    }
    if v[0] == '"' {
        assert(n >= 3 ==> v@.drop_first().last() == v@[n - 1]);
        if n < 3 || v[n - 1] != '"' {
            return Err(SecretsError::Syntax);
        }
        let text = string_from_chars(v);
        return match decode_json_string(text.as_str()) {
            Some(s) => Ok(chars_of(s.as_str())),
            None => Err(SecretsError::Syntax),
        };
    }
    if v[0] == '\'' {
        assert(n >= 3 ==> v@.drop_first().last() == v@[n - 1]);
        if n < 3 || v[n - 1] != '\'' {
            return Err(SecretsError::Syntax);
        }
        assert(v@.drop_first().subrange(1, n - 2) =~= v@.subrange(2, n - 1));
        return Ok(sub_chars(v, 2, n - 1));
    }
    let mut i: usize = 0;
    while i < n
        invariant
            n == v.len(),
            n > 0,
            v@[0] != '"',
            v@[0] != '\'',
            i <= n,
            forall|k: int| 0 <= k < i ==> !spec_is_whitespace(#[trigger] v@[k]),
        decreases n - i,
    {
        if crate::text::is_whitespace(v[i]) {
            assert(spec_is_whitespace(v@[i as int]));
            return Err(SecretsError::Syntax);
        }
        i += 1;
    }
    Ok(sub_chars(v, 0, n))
}

impl AdminSecrets {
    /// Reads the admin credentials from the text of the `.env` file.
    /// `None` stands for the inputs on which the reading stops on a
    /// single-quoted value whose first character after the quote is not
    /// ASCII: the slice that drops that character does not fall on a
    /// character boundary there.
    pub fn parse(text: &str) -> (res: Option<Result<Self, SecretsError>>)
        ensures
            env_lines_panic(text@, (None, None)) ==> res is None,
            !env_lines_panic(text@, (None, None)) ==> match spec_admin_secrets(text@) {
                Ok(pair) => res matches Some(Ok(s)) && s@ == pair,
                Err(e) => res == Some(Err::<Self, SecretsError>(e)),
            },
    {
        let v = chars_of(text);
        let n = v.len();
        let ghost whole = env_lines(v@, (None, None));
        let mut username: Option<Vec<char>> = None;
        let mut password_hash: Option<Vec<char>> = None;
        let mut i: usize = 0;
        assert(v@.subrange(0, n as int) =~= v@);
        loop
            invariant_except_break
                n == v.len(),
                v@ == text@,
                i <= n,
                whole == env_lines(v@, (None, None)),
                whole == env_lines(
                    v@.subrange(i as int, n as int),
                    (opt_chars(username), opt_chars(password_hash)),
                ),
                env_lines_panic(v@, (None, None)) == env_lines_panic(
                    v@.subrange(i as int, n as int),
                    (opt_chars(username), opt_chars(password_hash)),
                ),
            ensures
                v@ == text@,
                !env_lines_panic(v@, (None, None)),
                whole == env_lines(v@, (None, None)),
                whole == Ok::<EnvState, SecretsError>((opt_chars(username), opt_chars(password_hash))),
            decreases n - i,
        {
            let ghost rest = v@.subrange(i as int, n as int);
            let ghost st = (opt_chars(username), opt_chars(password_hash));
            let j = find_char_from(v.as_slice(), i, '\n');
            let line = sub_chars(v.as_slice(), i, j);
            proof {
                assert(line@ =~= rest.subrange(0, find_char(rest, '\n')));
            }
            let t = trim_chars(line.as_slice());
            let ghost step = env_line_step(st, line@);
            proof {
                assert(whole == match step {
                    Err(e) => Err(e),
                    Ok(next) => if find_char(rest, '\n') >= rest.len() || find_char(rest, '\n') < 0 {
                        Ok(next)
                    } else {
                        env_lines(rest.subrange(find_char(rest, '\n') + 1, rest.len() as int), next)
                    },
                });
                assert(t@ == trim(line@));
            }
            let is_comment = t.len() > 0 && t[0] == '#';
            if t.len() == 0 || is_comment {
            } else {
                let e = find_char_from(t.as_slice(), 0, '=');
                proof {
                    assert(t@.subrange(0, t@.len() as int) =~= t@);
                    assert(e == find_char(t@, '='));
                    assert(!env_line_skipped(line@));
                }
                if e >= t.len() {
                    assert(step == Err::<EnvState, SecretsError>(SecretsError::Syntax));
                    return Some(Err(SecretsError::Syntax));
                }
                let key_part = sub_chars(t.as_slice(), 0, e);
                let key = trim_chars(key_part.as_slice());
                let value_part = sub_chars(t.as_slice(), e + 1, t.len());
                let raw = trim_chars(value_part.as_slice());
                let user_key = chars_of("ADMIN_USERNAME");
                let hash_key = chars_of("ADMIN_PASSWORD_HASH");
                let is_user = chars_equal(key.as_slice(), user_key.as_slice());
                let is_hash = chars_equal(key.as_slice(), hash_key.as_slice());
                proof {
                    assert(key@ == env_key(t@));
                    assert(raw@ == env_raw_value(t@));
                }
                if !is_user && !is_hash {
                    return Some(Err(SecretsError::Key));
                }
                let rn = raw.len();
                if rn >= 3 && raw[0] == '\'' && raw[rn - 1] == '\'' && (raw[1] as u32) >= 0x80 {
                    proof {
                        assert(raw@.drop_first().last() == raw@[rn - 1]);
                        assert(env_line_panics(line@));
                    }
                    return None;
                }
                proof {
                    assert(rn >= 3 ==> raw@.drop_first().last() == raw@[rn - 1]);
                    assert(!env_value_panics(raw@));
                }
                let value = match parse_env_value_chars(raw.as_slice()) {
                    Ok(value) => value,
                    Err(error) => return Some(Err(error)),
                };
                if is_user {
                    if username.is_some() {
                        return Some(Err(SecretsError::Key));
                    }
                    username = Some(value);
                } else {
                    if password_hash.is_some() {
                        return Some(Err(SecretsError::Key));
                    }
                    password_hash = Some(value);
                }
            }
            if j >= n {
                break;
            }
            proof {
                assert(rest.subrange(find_char(rest, '\n') + 1, rest.len() as int) =~= v@.subrange(
                    j + 1,
                    n as int,
                ));
            }
            i = j + 1;
        }
        let username = match username {
            Some(u) => u,
            None => return Some(Err(SecretsError::Missing)),
        };
        let password_hash = match password_hash {
            Some(h) => h,
            None => return Some(Err(SecretsError::Missing)),
        };
        if username.len() == 0 || password_hash.len() == 0 {
            return Some(Err(SecretsError::Missing));
        }
        let username = string_from_chars(username.as_slice());
        let password_hash = string_from_chars(password_hash.as_slice());
        let algorithm = match parse_phc_algorithm(password_hash.as_str()) {
            Some(a) => a,
            None => return Some(Err(SecretsError::InvalidPasswordHash)),
        };
        if !is_required_password_hash(password_hash.as_str()) || !crate::text::str_eq(
            algorithm.as_str(),
            "argon2id",
        ) {
            return Some(Err(SecretsError::InvalidPasswordHash));
        }
        Some(Ok(AdminSecrets { username, password_hash }))
    }

    pub fn username(&self) -> (res: &str)
        ensures
            res@ == self@.0,
    {
        self.username.as_str()
    }

    pub fn password_hash(&self) -> (res: &str)
        ensures
            res@ == self@.1,
    {
        self.password_hash.as_str()
    }
}

} // verus!
