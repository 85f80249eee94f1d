//! Admin login and the store of admin sessions.
//!
//! A session is kept under the SHA-256 digest of its random credential, with
//! the second (since the Unix epoch) at which it expires.

use vstd::prelude::*;

use crate::auth::password::{is_required_password_hash, spec_required_password_hash};
use crate::crypto::{argon2_verification, argon2_verify, parse_phc_algorithm, phc_algorithm, random_bytes_32, sha256, sha256_digest};
use crate::text::str_eq;

verus! {

/// How long an admin session lasts, in seconds.
pub const SESSION_LIFETIME_SECONDS: u64 = 43200;

#[derive(Debug, Clone, Copy, PartialEq, Eq, Structural)]
pub enum CredentialError {
    InvalidCredentials,
    AlreadyRevoked,
    InvalidTokenName,
    Storage,
    InvalidConfiguration,
}

struct SessionEntry {
    hash: [u8; 32],
    expires_at: u64,
}

pub struct AdminSessionStore {
    sessions: Vec<SessionEntry>,
}

/// The digests held by `s`, in order.
spec fn entry_keys(s: Seq<SessionEntry>) -> Seq<Seq<u8>> {
    s.map_values(|e: SessionEntry| e.hash@)
}

/// The sessions of `s` as a map from credential digest to expiry.
spec fn entries_map(s: Seq<SessionEntry>) -> Map<Seq<u8>, u64> {
    Map::new(|k: Seq<u8>| entry_keys(s).contains(k), |k: Seq<u8>| expiry_of(s, k))
}

/// The expiry stored under `k` in `s`.
spec fn expiry_of(s: Seq<SessionEntry>, k: Seq<u8>) -> u64 {
    s[entry_index(s, k)].expires_at
}

/// An index of `s` whose digest is `k`.
spec fn entry_index(s: Seq<SessionEntry>, k: Seq<u8>) -> int {
    choose|i: int| 0 <= i < s.len() && s[i].hash@ == k
}

proof fn lemma_entries_map_at(s: Seq<SessionEntry>, idx: int)
    requires
        0 <= idx < s.len(),
        entry_keys(s).no_duplicates(),
    ensures
        entries_map(s).contains_key(s[idx].hash@),
        entries_map(s)[s[idx].hash@] == s[idx].expires_at,
{
    let k = s[idx].hash@;
    assert(entry_keys(s)[idx] == k);
    assert(0 <= idx < s.len() && s[idx].hash@ == k);
    let j = entry_index(s, k);
    assert(0 <= j < s.len() && s[j].hash@ == k);
    assert(entry_keys(s)[j] == k);
    assert(j == idx);
    assert(entry_keys(s).contains(k));
    assert(expiry_of(s, k) == s[j].expires_at);
    assert(entries_map(s)[k] == expiry_of(s, k));
}

proof fn lemma_entries_map_absent(s: Seq<SessionEntry>, k: Seq<u8>)
    requires
        forall|i: int| 0 <= i < s.len() ==> s[i].hash@ != k,
    ensures
        !entries_map(s).contains_key(k),
{
    if entry_keys(s).contains(k) {
        let i = choose|i: int| 0 <= i < entry_keys(s).len() && entry_keys(s)[i] == k;
        assert(s[i].hash@ == k);
    }
}

proof fn lemma_entries_map_remove(s: Seq<SessionEntry>, i: int)
    requires
        0 <= i < s.len(),
        entry_keys(s).no_duplicates(),
    ensures
        entry_keys(s.remove(i)).no_duplicates(),
        entries_map(s.remove(i)) == entries_map(s).remove(s[i].hash@),
{
    let t = s.remove(i);
    let k = s[i].hash@;
    assert forall|a: int, b: int|
        0 <= a < t.len() && 0 <= b < t.len() && a != b implies entry_keys(t)[a] != entry_keys(
        t,
    )[b] by {
        let a2 = if a < i { a } else { a + 1 };
        let b2 = if b < i { b } else { b + 1 };
        assert(entry_keys(s)[a2] != entry_keys(s)[b2]);
    }
    assert forall|key: Seq<u8>| #[trigger]
        entries_map(t).contains_key(key) == entries_map(s).remove(k).contains_key(key) by {
        if entry_keys(t).contains(key) {
            let a = choose|a: int| 0 <= a < entry_keys(t).len() && entry_keys(t)[a] == key;
            let a2 = if a < i { a } else { a + 1 };
            assert(entry_keys(s)[a2] == key);
            assert(entry_keys(s)[i] == k);
        }
        if entry_keys(s).contains(key) && key != k {
            let a = choose|a: int| 0 <= a < entry_keys(s).len() && entry_keys(s)[a] == key;
            assert(a != i);
            let a2 = if a < i { a } else { a - 1 };
            assert(entry_keys(t)[a2] == key);
        }
    }
    assert forall|key: Seq<u8>| #[trigger] entries_map(t).contains_key(key) implies entries_map(
        t,
    )[key] == entries_map(s)[key] by {
        let a = choose|a: int| 0 <= a < entry_keys(t).len() && entry_keys(t)[a] == key;
        let a2 = if a < i { a } else { a + 1 };
        lemma_entries_map_at(t, a);
        lemma_entries_map_at(s, a2);
    }
    assert(entries_map(t) =~= entries_map(s).remove(k));
}

proof fn lemma_entries_map_push(s: Seq<SessionEntry>, e: SessionEntry)
    requires
        entry_keys(s).no_duplicates(),
        forall|i: int| 0 <= i < s.len() ==> s[i].hash@ != e.hash@,
    ensures
        entry_keys(s.push(e)).no_duplicates(),
        entries_map(s.push(e)) == entries_map(s).insert(e.hash@, e.expires_at),
{
    let t = s.push(e);
    assert forall|a: int, b: int|
        0 <= a < t.len() && 0 <= b < t.len() && a != b implies entry_keys(t)[a] != entry_keys(
        t,
    )[b] by {
        if a < s.len() && b < s.len() {
            assert(entry_keys(s)[a] != entry_keys(s)[b]);
        }
    }
    assert forall|key: Seq<u8>| #[trigger]
        entries_map(t).contains_key(key) == entries_map(s).insert(e.hash@, e.expires_at).contains_key(
            key,
        ) by {
        if entry_keys(t).contains(key) {
            let a = choose|a: int| 0 <= a < entry_keys(t).len() && entry_keys(t)[a] == key;
            if a < s.len() {
                assert(entry_keys(s)[a] == key);
            }
        }
        if entry_keys(s).contains(key) {
            let a = choose|a: int| 0 <= a < entry_keys(s).len() && entry_keys(s)[a] == key;
            assert(entry_keys(t)[a] == key);
        }
        if key == e.hash@ {
            assert(entry_keys(t)[s.len() as int] == key);
        }
    }
    assert forall|key: Seq<u8>| #[trigger] entries_map(t).contains_key(key) implies entries_map(
        t,
    )[key] == entries_map(s).insert(e.hash@, e.expires_at)[key] by {
        let a = choose|a: int| 0 <= a < entry_keys(t).len() && entry_keys(t)[a] == key;
        lemma_entries_map_at(t, a);
        if a < s.len() {
            lemma_entries_map_at(s, a);
        }
    }
    assert(entries_map(t) =~= entries_map(s).insert(e.hash@, e.expires_at));
}

proof fn lemma_entries_map_len(s: Seq<SessionEntry>)
    requires
        entry_keys(s).no_duplicates(),
    ensures
        entries_map(s).dom().finite(),
        entries_map(s).len() == s.len(),
{
    assert(entries_map(s).dom() =~= entry_keys(s).to_set());
    entry_keys(s).unique_seq_to_set();
}

impl AdminSessionStore {
    #[verifier::type_invariant]
    spec fn keys_unique(self) -> bool {
        entry_keys(self.sessions@).no_duplicates()
    }
}

impl View for AdminSessionStore {
    /// Each live session's credential digest, with the second it expires.
    type V = Map<Seq<u8>, u64>;

    closed spec fn view(&self) -> Map<Seq<u8>, u64> {
        entries_map(self.sessions@)
    }
}

/// Whether two digests are equal.
fn digest_equal(a: &[u8; 32], b: &[u8; 32]) -> (res: bool)
    ensures
        res == (a@ == b@),
{
    let mut i: usize = 0;
    while i < 32
        invariant
            i <= 32,
            a@.len() == 32,
            b@.len() == 32,
            forall|k: int| 0 <= k < i ==> a@[k] == b@[k],
        decreases 32 - i,
    {
        if a[i] != b[i] {
            return false;
        }
        i += 1;
    }
    assert(a@ =~= b@);
    true
}

/// A session credential. It is shown to nobody but the admin it was issued to.
pub struct AdminSessionCredential(Vec<u8>);

impl View for AdminSessionCredential {
    type V = Seq<u8>;

    closed spec fn view(&self) -> Seq<u8> {
        self.0@
    }
}

impl AdminSessionCredential {
    pub fn as_bytes(&self) -> (res: &[u8])
        ensures
            res@ == self@,
    {
        self.0.as_slice()
    }
}

pub struct AdminSession {
    credential: AdminSessionCredential,
    expires_at: u64,
}

impl View for AdminSession {
    /// The credential's bytes and the second since the Unix epoch at which
    /// the session expires.
    type V = (Seq<u8>, u64);

    closed spec fn view(&self) -> (Seq<u8>, u64) {
        (self.credential@, self.expires_at)
    }
}

impl AdminSession {
    pub fn credential(&self) -> (res: &AdminSessionCredential)
        ensures
            res@ == self@.0,
    {
        &self.credential
    }

    /// The second since the Unix epoch at which the session expires.
    pub fn expires_at(&self) -> (res: u64)
        ensures
            res == self@.1,
    {
        self.expires_at
    }
}

impl AdminSessionStore {
    pub fn new() -> (res: Self)
        ensures
            res@ == Map::<Seq<u8>, u64>::empty(),
    {
        let res = AdminSessionStore { sessions: Vec::new() };
        assert(res@ =~= Map::<Seq<u8>, u64>::empty());
        res
    }

    /// Where the session under `hash` stands, if there is one.
    fn position(&self, hash: &[u8; 32]) -> (res: Option<usize>)
        ensures
            match res {
                Some(i) => i < self.sessions@.len() && self.sessions@[i as int].hash@ == hash@,
                None => forall|i: int|
                    0 <= i < self.sessions@.len() ==> self.sessions@[i].hash@ != hash@,
            },
    {
        let mut i: usize = 0;
        while i < self.sessions.len()
            invariant
                i <= self.sessions@.len(),
                forall|k: int| 0 <= k < i ==> self.sessions@[k].hash@ != hash@,
            decreases self.sessions@.len() - i,
        {
            if digest_equal(&self.sessions[i].hash, hash) {
                return Some(i);
            }
            i += 1;
        }
        None
    }

    /// Starts a session that expires `SESSION_LIFETIME_SECONDS` after `now`.
    /// The credential is random; the store keeps only its digest.
    pub fn issue(&mut self, now: u64) -> (res: AdminSession)
        requires
            now <= u64::MAX - SESSION_LIFETIME_SECONDS,
        ensures
            res@.0.len() == 32,
            res@.1 == now + SESSION_LIFETIME_SECONDS,
            final(self)@ == old(self)@.insert(
                sha256_digest(res@.0),
                (now + SESSION_LIFETIME_SECONDS) as u64,
            ),
    {
        proof {
            use_type_invariant(&*self);
        }
        let credential: [u8; 32] = random_bytes_32();
        let expires_at = now + SESSION_LIFETIME_SECONDS;
        let hash = sha256(&credential);
        self.insert(hash, expires_at);
        let mut bytes: Vec<u8> = Vec::new();
        let mut i: usize = 0;
        while i < 32
            invariant
                i <= 32,
                credential@.len() == 32,
                bytes@ == credential@.take(i as int),
            decreases 32 - i,
        {
            bytes.push(credential[i]);
            assert(credential@.take(i + 1) =~= credential@.take(i as int).push(credential@[i as int]));
            i += 1;
        }
        assert(credential@.take(32) =~= credential@);
        AdminSession { credential: AdminSessionCredential(bytes), expires_at }
    }

    fn insert(&mut self, hash: [u8; 32], expires_at: u64)
        ensures
            final(self)@ == old(self)@.insert(hash@, expires_at),
    {
        proof {
            use_type_invariant(&*self);
        }
        let ghost before = self.sessions@;
        let mut sessions = Vec::new();
        std::mem::swap(&mut sessions, &mut self.sessions);
        let mut i: usize = 0;
        let mut found: Option<usize> = None;
        while i < sessions.len()
            invariant
                sessions@ == before,
                i <= sessions@.len(),
                match found {
                    Some(f) => f < i && sessions@[f as int].hash@ == hash@,
                    None => forall|k: int| 0 <= k < i ==> sessions@[k].hash@ != hash@,
                },
            decreases sessions@.len() - i,
        {
            if found.is_none() && digest_equal(&sessions[i].hash, &hash) {
                found = Some(i);
            }
            i += 1;
        }
        if let Some(f) = found {
            proof {
                lemma_entries_map_remove(sessions@, f as int);
            }
            sessions.remove(f);
            proof {
                assert forall|k: int| 0 <= k < sessions@.len() implies sessions@[k].hash@ != hash@ by {
                    let k2 = if k < f { k } else { k + 1 };
                    assert(entry_keys(before)[k2] != entry_keys(before)[f as int]);
                }
            }
        }
        proof {
            lemma_entries_map_push(sessions@, SessionEntry { hash, expires_at });
            assert(entries_map(before).remove(hash@).insert(hash@, expires_at) =~= entries_map(
                before,
            ).insert(hash@, expires_at));
        }
        sessions.push(SessionEntry { hash, expires_at });
        self.sessions = sessions;
    }

    /// Whether `credential` belongs to a session that is live at `now`. A
    /// session found expired is removed.
    pub fn validate(&mut self, credential: &[u8], now: u64) -> (res: bool)
        ensures
            ({
                let h = sha256_digest(credential@);
                &&& res == (old(self)@.contains_key(h) && old(self)@[h] > now)
                &&& final(self)@ == if old(self)@.contains_key(h) && old(self)@[h] <= now {
                    old(self)@.remove(h)
                } else {
                    old(self)@
                }
            }),
    {
        proof {
            use_type_invariant(&*self);
        }
        let hash = sha256(credential);
        match self.position(&hash) {
            Some(i) => {
                proof {
                    lemma_entries_map_at(self.sessions@, i as int);
                }
                if self.sessions[i].expires_at > now {
                    true
                } else {
                    self.remove_at(i);
                    false
                }
            },
            None => {
                proof {
                    lemma_entries_map_absent(self.sessions@, hash@);
                }
                false
            },
        }
    }

    fn remove_at(&mut self, i: usize)
        requires
            i < old(self).sessions@.len(),
        ensures
            final(self)@ == old(self)@.remove(old(self).sessions@[i as int].hash@),
    {
        proof {
            use_type_invariant(&*self);
            lemma_entries_map_remove(self.sessions@, i as int);
        }
        let mut sessions = Vec::new();
        std::mem::swap(&mut sessions, &mut self.sessions);
        sessions.remove(i);
        self.sessions = sessions;
    }

    /// Ends the session of `credential`, if there is one.
    pub fn revoke(&mut self, credential: &[u8])
        ensures
            final(self)@ == old(self)@.remove(sha256_digest(credential@)),
    {
        proof {
            use_type_invariant(&*self);
        }
        let hash = sha256(credential);
        match self.position(&hash) {
            Some(i) => {
                self.remove_at(i);
            },
            None => {
                proof {
                    lemma_entries_map_absent(self.sessions@, hash@);
                    assert(self@.remove(hash@) =~= self@);
                }
            },
        }
    }

    /// Ends every session.
    pub fn clear(&mut self)
        ensures
            final(self)@ == Map::<Seq<u8>, u64>::empty(),
    {
        self.sessions = Vec::new();
        assert(self@ =~= Map::<Seq<u8>, u64>::empty());
    }

    /// How many sessions are held, expired ones not yet removed included.
    pub fn len(&self) -> (res: usize)
        ensures
            res == self@.len(),
            self@.dom().finite(),
    {
        proof {
            use_type_invariant(self);
            lemma_entries_map_len(self.sessions@);
        }
        self.sessions.len()
    }
}

pub struct AdminAuthenticator {
    username: String,
    password_hash: String,
    sessions: AdminSessionStore,
}

impl AdminAuthenticator {
    /// The configured admin username.
    pub closed spec fn spec_username(&self) -> Seq<char> {
        self.username@
    }

    /// The configured PHC password hash.
    pub closed spec fn spec_password_hash(&self) -> Seq<char> {
        self.password_hash@
    }

    /// The sessions issued so far.
    pub closed spec fn spec_sessions(&self) -> Map<Seq<u8>, u64> {
        self.sessions@
    }

    /// Sets up admin login; refuses an empty username or a hash that is not
    /// an Argon2id PHC string with the required parameters.
    pub fn new(username: &str, password_hash: &str) -> (res: Result<Self, CredentialError>)
        ensures
            (username@.len() == 0 || phc_algorithm(password_hash@) is None
                || !spec_required_password_hash(password_hash@)) ==> res == Err::<
                Self,
                CredentialError,
            >(CredentialError::InvalidConfiguration),
            !(username@.len() == 0 || phc_algorithm(password_hash@) is None
                || !spec_required_password_hash(password_hash@)) ==> (res matches Ok(a) && a.spec_username()
                == username@ && a.spec_password_hash() == password_hash@ && a.spec_sessions()
                == Map::<Seq<u8>, u64>::empty()),
    {
        if username.is_empty() || parse_phc_algorithm(password_hash).is_none()
            || !is_required_password_hash(password_hash) {
            return Err(CredentialError::InvalidConfiguration);
        }
        Ok(AdminAuthenticator {
            username: username.to_owned(),
            password_hash: password_hash.to_owned(),
            sessions: AdminSessionStore::new(),
        })
    }

    /// Issues a session when both the username and the password match.
    pub fn login(&mut self, username: &str, password: &str, now: u64) -> (res: Result<
        AdminSession,
        CredentialError,
    >)
        requires
            now <= u64::MAX - SESSION_LIFETIME_SECONDS,
        ensures
            final(self).spec_username() == old(self).spec_username(),
            final(self).spec_password_hash() == old(self).spec_password_hash(),
            (username@ == old(self).spec_username() && argon2_verification(
                password@,
                old(self).spec_password_hash(),
            ) == Some(true)) ==> (res matches Ok(session) && session@.0.len() == 32 && session@.1 == now
                + SESSION_LIFETIME_SECONDS && final(self).spec_sessions() == old(
                self,
            ).spec_sessions().insert(
                sha256_digest(session@.0),
                (now + SESSION_LIFETIME_SECONDS) as u64,
            )),
            !(username@ == old(self).spec_username() && argon2_verification(
                password@,
                old(self).spec_password_hash(),
            ) == Some(true)) ==> res == Err::<AdminSession, CredentialError>(
                CredentialError::InvalidCredentials,
            ) && final(self).spec_sessions() == old(self).spec_sessions(),
    {
        let username_matches = str_eq(username, self.username.as_str());
        let password_matches = match argon2_verify(password, self.password_hash.as_str()) {
            Some(matches) => matches,
            None => false,
        };
        if !username_matches || !password_matches {
            return Err(CredentialError::InvalidCredentials);
        }
        Ok(self.sessions.issue(now))
    }

    pub fn sessions(&self) -> (res: &AdminSessionStore)
        ensures
            res@ == self.spec_sessions(),
    {
        &self.sessions
    }

    /// Whether `credential` belongs to a live session; see
    /// `AdminSessionStore::validate`.
    pub fn validate_session(&mut self, credential: &[u8], now: u64) -> (res: bool)
        ensures
            final(self).spec_username() == old(self).spec_username(),
            final(self).spec_password_hash() == old(self).spec_password_hash(),
            ({
                let h = sha256_digest(credential@);
                let before = old(self).spec_sessions();
                &&& res == (before.contains_key(h) && before[h] > now)
                &&& final(self).spec_sessions() == if before.contains_key(h) && before[h] <= now {
                    before.remove(h)
                } else {
                    before
                }
            }),
    {
        self.sessions.validate(credential, now)
    }

    /// Ends the session of `credential`, if there is one.
    pub fn revoke_session(&mut self, credential: &[u8])
        ensures
            final(self).spec_username() == old(self).spec_username(),
            final(self).spec_password_hash() == old(self).spec_password_hash(),
            final(self).spec_sessions() == old(self).spec_sessions().remove(
                sha256_digest(credential@),
            ),
    {
        self.sessions.revoke(credential)
    }

    /// Ends every admin session.
    pub fn clear_sessions(&mut self)
        ensures
            final(self).spec_username() == old(self).spec_username(),
            final(self).spec_password_hash() == old(self).spec_password_hash(),
            final(self).spec_sessions() == Map::<Seq<u8>, u64>::empty(),
    {
        self.sessions.clear()
    }
}

} // verus!
