//! Guest sessions: the credentials that let a guest act as the participant
//! it joined a room as.
//!
//! A session is kept under the SHA-256 digest of its random credential,
//! with the room's join code, the participant id and the instant it was
//! issued, in milliseconds of a monotonic clock. Sessions last a day; at
//! most `GUEST_SESSION_MAX_ENTRIES` are kept, and a new one that finds the
//! store full pushes out one issued first.

use vstd::prelude::*;

use crate::auth::tokens::{hash_token, spec_hash_token};
use crate::crypto::{base64_url_nopad, base64_url_nopad_encoding, random_bytes_32};
use crate::keyed::{
    keyed_map, keys_of, lemma_keyed_absent, lemma_keyed_at, lemma_keyed_empty, lemma_keyed_len,
    lemma_keyed_push,
};
use crate::text::str_eq;

verus! {

/// How long a guest session lasts, in milliseconds.
pub const GUEST_SESSION_LIFETIME_MILLIS: u64 = 86400000;

/// How many guest sessions are kept at most.
pub const GUEST_SESSION_MAX_ENTRIES: usize = 8192;

/// A session: join code, participant id, instant of issue.
pub type GuestView = (Seq<char>, Seq<char>, u64);

/// Whether a session issued at `issued` still lasts at `now` (a session
/// issued after `now` has age zero).
pub open spec fn session_lasts(issued: u64, now: u64) -> bool {
    (if now >= issued {
        now - issued
    } else {
        0
    }) < GUEST_SESSION_LIFETIME_MILLIS
}

/// Which sessions a sweep keeps.
pub enum GuestFilter {
    /// Those that still last at the instant.
    LastingAt(u64),
    /// Those not of the room with this join code.
    OutsideRoom(String),
    /// Those not of this participant of the room with this join code.
    NotParticipant(String, String),
}

/// What a sweep keeps, as text.
pub enum SweepRule {
    LastingAt(u64),
    OutsideRoom(Seq<char>),
    NotParticipant(Seq<char>, Seq<char>),
}

impl View for GuestFilter {
    type V = SweepRule;

    open spec fn view(&self) -> SweepRule {
        match self {
            GuestFilter::LastingAt(now) => SweepRule::LastingAt(*now),
            GuestFilter::OutsideRoom(code) => SweepRule::OutsideRoom(code@),
            GuestFilter::NotParticipant(code, id) => SweepRule::NotParticipant(code@, id@),
        }
    }
}

/// Whether the sweep `f` keeps the session `v`.
pub open spec fn keeps(f: SweepRule, v: GuestView) -> bool {
    match f {
        SweepRule::LastingAt(now) => session_lasts(v.2, now),
        SweepRule::OutsideRoom(code) => v.0 != code,
        SweepRule::NotParticipant(code, id) => !(v.0 == code && v.1 == id),
    }
}

/// The sessions of `m` that the sweep `f` keeps.
pub open spec fn swept(m: Map<Seq<u8>, GuestView>, f: SweepRule) -> Map<Seq<u8>, GuestView> {
    Map::new(|k: Seq<u8>| m.contains_key(k) && keeps(f, m[k]), |k: Seq<u8>| m[k])
}

/// Whether `k` is a session of `m` issued no later than any other.
pub open spec fn issued_first(m: Map<Seq<u8>, GuestView>, k: Seq<u8>) -> bool {
    m.contains_key(k) && forall|j: Seq<u8>| #[trigger] m.contains_key(j) ==> m[k].2 <= m[j].2
}

/// Whether `after` is what issuing `session` under `key` at `now` makes of
/// the sessions `before`: the sessions that no longer last are dropped;
/// when the store is then full, one issued first is dropped too; and
/// `session` is kept under `key`.
pub open spec fn session_issued(
    before: Map<Seq<u8>, GuestView>,
    key: Seq<u8>,
    session: GuestView,
    now: u64,
    after: Map<Seq<u8>, GuestView>,
) -> bool {
    let live = swept(before, SweepRule::LastingAt(now));
    if live.len() >= GUEST_SESSION_MAX_ENTRIES {
        exists|oldest: Seq<u8>|
            issued_first(live, oldest) && after == live.remove(oldest).insert(key, session)
    } else {
        after == live.insert(key, session)
    }
}

/// The participant that the credential with digest `key` acts as in the
/// room `join_code`, among the sessions `m`.
pub open spec fn session_participant(m: Map<Seq<u8>, GuestView>, key: Seq<u8>, join_code: Seq<char>) -> Option<
    Seq<char>,
> {
    if m.contains_key(key) && m[key].0 == join_code {
        Some(m[key].1)
    } else {
        None
    }
}

struct GuestSession {
    join_code: String,
    participant_id: String,
    issued_at: u64,
}

impl View for GuestSession {
    type V = GuestView;

    closed spec fn view(&self) -> GuestView {
        (self.join_code@, self.participant_id@, self.issued_at)
    }
}

/// The guest sessions of the server.
pub struct GuestSessionStore {
    sessions: Vec<([u8; 32], GuestSession)>,
}

spec fn session_views(s: Seq<([u8; 32], GuestSession)>) -> Seq<(Seq<u8>, GuestView)> {
    s.map_values(|e: ([u8; 32], GuestSession)| (e.0@, e.1@))
}

proof fn lemma_views_push(s: Seq<([u8; 32], GuestSession)>, e: ([u8; 32], GuestSession))
    ensures
        session_views(s.push(e)) == session_views(s).push((e.0@, e.1@)),
{
    assert(session_views(s.push(e)) =~= session_views(s).push((e.0@, e.1@)));
}

impl GuestSessionStore {
    #[verifier::type_invariant]
    spec fn well_formed(self) -> bool {
        &&& keys_of(session_views(self.sessions@)).no_duplicates()
        &&& self.sessions@.len() <= GUEST_SESSION_MAX_ENTRIES
    }
}

impl View for GuestSessionStore {
    /// Each session under the digest of its credential.
    type V = Map<Seq<u8>, GuestView>;

    closed spec fn view(&self) -> Map<Seq<u8>, GuestView> {
        keyed_map(session_views(self.sessions@))
    }
}

/// Whether two digests are equal.
fn digests_equal(a: &[u8; 32], b: &[u8; 32]) -> (res: bool)
    ensures
        res == (a@ == b@),
{
    let mut i: usize = 0;
    while i < 32
        invariant
            i <= 32,
            a@.len() == 32,
            b@.len() == 32,
            forall|k: int| 0 <= k < i ==> a@[k] == b@[k],
        decreases 32 - i,
    {
        if a[i] != b[i] {
            return false;
        }
        i += 1;
    }
    assert(a@ =~= b@);
    true
}

fn keeps_session(f: &GuestFilter, s: &GuestSession) -> (res: bool)
    ensures
        res == keeps(f@, s@),
{
    match f {
        GuestFilter::LastingAt(now) => {
            let age = if *now >= s.issued_at {
                *now - s.issued_at
            } else {
                0
            };
            age < GUEST_SESSION_LIFETIME_MILLIS
        },
        GuestFilter::OutsideRoom(code) => !str_eq(s.join_code.as_str(), code.as_str()),
        GuestFilter::NotParticipant(code, id) => !(str_eq(s.join_code.as_str(), code.as_str())
            && str_eq(s.participant_id.as_str(), id.as_str())),
    }
}

fn copy_session(s: &GuestSession) -> (res: GuestSession)
    ensures
        res@ == s@,
{
    GuestSession {
        join_code: s.join_code.clone(),
        participant_id: s.participant_id.clone(),
        issued_at: s.issued_at,
    }
}

impl GuestSessionStore {
    /// No sessions.
    pub fn new() -> (res: Self)
        ensures
            res@ == Map::<Seq<u8>, GuestView>::empty(),
    {
        proof {
            lemma_keyed_empty::<Seq<u8>, GuestView>();
            assert(session_views(Seq::<([u8; 32], GuestSession)>::empty()) =~= Seq::<
                (Seq<u8>, GuestView),
            >::empty());
        }
        GuestSessionStore { sessions: Vec::new() }
    }

    /// How many sessions are kept; never more than the limit.
    pub fn len(&self) -> (res: usize)
        ensures
            res == self@.len(),
            res <= GUEST_SESSION_MAX_ENTRIES,
    {
        proof {
            use_type_invariant(self);
            lemma_keyed_len(session_views(self.sessions@));
        }
        self.sessions.len()
    }

    /// Keeps the sessions that the sweep `f` keeps.
    pub fn retain(&mut self, f: &GuestFilter)
        ensures
            final(self)@ == swept(old(self)@, f@),
    {
        proof {
            use_type_invariant(&*self);
        }
        let ghost s = session_views(self.sessions@);
        let mut kept: Vec<([u8; 32], GuestSession)> = Vec::new();
        proof {
            lemma_keyed_empty::<Seq<u8>, GuestView>();
            assert(session_views(kept@) =~= Seq::<(Seq<u8>, GuestView)>::empty());
            assert(s.take(0) =~= Seq::<(Seq<u8>, GuestView)>::empty());
            assert(swept(keyed_map(s.take(0)), f@) =~= Map::<Seq<u8>, GuestView>::empty());
        }
        let mut i: usize = 0;
        while i < self.sessions.len()
            invariant
                i <= s.len(),
                s == session_views(self.sessions@),
                keys_of(s).no_duplicates(),
                s.len() <= GUEST_SESSION_MAX_ENTRIES,
                keys_of(session_views(kept@)).no_duplicates(),
                kept@.len() <= i,
                forall|a: int|
                    0 <= a < kept@.len() ==> exists|b: int|
                        0 <= b < i && #[trigger] session_views(kept@)[a].0 == s[b].0,
                keyed_map(session_views(kept@)) == swept(keyed_map(s.take(i as int)), f@),
            decreases s.len() - i,
        {
            let ghost before = kept@;
            let ghost m = keyed_map(s.take(i as int));
            let ghost e = s[i as int];
            proof {
                assert(keys_of(s.take(i as int)).no_duplicates()) by {
                    assert forall|a: int, b: int|
                        0 <= a < i && 0 <= b < i && a != b implies keys_of(s.take(i as int))[a]
                        != keys_of(s.take(i as int))[b] by {
                        assert(keys_of(s)[a] != keys_of(s)[b]);
                    }
                }
                assert forall|b: int| 0 <= b < i implies s.take(i as int)[b].0 != e.0 by {
                    assert(keys_of(s)[b] != keys_of(s)[i as int]);
                }
                assert(s.take(i + 1) =~= s.take(i as int).push(e));
                lemma_keyed_push(s.take(i as int), e);
                lemma_keyed_absent(s.take(i as int), e.0);
            }
            if keeps_session(f, &self.sessions[i].1) {
                let entry = (self.sessions[i].0, copy_session(&self.sessions[i].1));
                proof {
                    assert forall|a: int| 0 <= a < before.len() implies session_views(before)[a].0
                        != entry.0@ by {
                        let b = choose|b: int|
                            0 <= b < i && #[trigger] session_views(before)[a].0 == s[b].0;
                        assert(keys_of(s)[b] != keys_of(s)[i as int]);
                    }
                    lemma_views_push(before, entry);
                    lemma_keyed_push(session_views(before), (entry.0@, entry.1@));
                }
                kept.push(entry);
                proof {
                    assert(swept(m.insert(e.0, e.1), f@) =~= swept(m, f@).insert(e.0, e.1));
                    assert forall|a: int| 0 <= a < kept@.len() implies exists|b: int|
                        0 <= b < i + 1 && #[trigger] session_views(kept@)[a].0 == s[b].0 by {
                        if a < before.len() {
                            assert(session_views(kept@)[a] == session_views(before)[a]);
                        } else {
                            assert(session_views(kept@)[a].0 == s[i as int].0);
                        }
                    }
                }
            } else {
                proof {
                    assert(swept(m.insert(e.0, e.1), f@) =~= swept(m, f@));
                }
            }
            i += 1;
        }
        proof {
            assert(s.take(s.len() as int) =~= s);
        }
        self.sessions = kept;
    }

    /// Drops the sessions that no longer last at `now`.
    pub fn prune(&mut self, now: u64)
        ensures
            final(self)@ == swept(old(self)@, SweepRule::LastingAt(now)),
    {
        self.retain(&GuestFilter::LastingAt(now));
    }

    /// Drops every session of the room `join_code`.
    pub fn invalidate_room(&mut self, join_code: &str)
        ensures
            final(self)@ == swept(old(self)@, SweepRule::OutsideRoom(join_code@)),
    {
        self.retain(&GuestFilter::OutsideRoom(join_code.to_owned()));
    }

    /// Drops every session of the participant `participant_id` of the room
    /// `join_code`.
    pub fn invalidate_participant(&mut self, join_code: &str, participant_id: &str)
        ensures
            final(self)@ == swept(old(self)@, SweepRule::NotParticipant(join_code@, participant_id@)),
    {
        self.retain(&GuestFilter::NotParticipant(join_code.to_owned(), participant_id.to_owned()));
    }

    /// The index of the session under `key`, if there is one.
    fn index_of(&self, key: &[u8; 32]) -> (res: Option<usize>)
        ensures
            match res {
                Some(i) => i < self.sessions@.len() && session_views(self.sessions@)[i as int].0
                    == key@,
                None => forall|i: int|
                    0 <= i < self.sessions@.len() ==> session_views(self.sessions@)[i].0 != key@,
            },
    {
        let mut i: usize = 0;
        while i < self.sessions.len()
            invariant
                i <= self.sessions@.len(),
                forall|k: int| 0 <= k < i ==> session_views(self.sessions@)[k].0 != key@,
            decreases self.sessions@.len() - i,
        {
            if digests_equal(&self.sessions[i].0, key) {
                return Some(i);
            }
            i += 1;
        }
        None
    }

    /// Drops the session under `key`, if there is one.
    pub fn remove(&mut self, key: &[u8; 32])
        ensures
            final(self)@ == old(self)@.remove(key@),
    {
        proof {
            use_type_invariant(&*self);
        }
        let ghost s = session_views(self.sessions@);
        match self.index_of(key) {
            Some(i) => {
                proof {
                    crate::keyed::lemma_keyed_remove(s, i as int);
                }
                let mut sessions = Vec::new();
                std::mem::swap(&mut sessions, &mut self.sessions);
                sessions.remove(i);
                proof {
                    assert(session_views(sessions@) =~= s.remove(i as int));
                }
                self.sessions = sessions;
            },
            None => {
                proof {
                    lemma_keyed_absent(s, key@);
                    assert(self@.remove(key@) =~= self@);
                }
            },
        }
    }

    /// Drops a session issued first. The store must hold a session.
    fn evict_oldest(&mut self)
        requires
            old(self)@.len() > 0,
        ensures
            exists|k: Seq<u8>| issued_first(old(self)@, k) && final(self)@ == old(self)@.remove(k),
            final(self)@.len() == old(self)@.len() - 1,
    {
        proof {
            use_type_invariant(&*self);
        }
        let ghost s = session_views(self.sessions@);
        proof {
            lemma_keyed_len(s);
        }
        let mut best: usize = 0;
        let mut i: usize = 1;
        while i < self.sessions.len()
            invariant
                s == session_views(self.sessions@),
                1 <= i <= s.len(),
                best < i,
                forall|j: int| 0 <= j < i ==> s[best as int].1.2 <= #[trigger] s[j].1.2,
            decreases s.len() - i,
        {
            proof {
                assert(s[i as int].1.2 == self.sessions@[i as int].1.issued_at);
                assert(s[best as int].1.2 == self.sessions@[best as int].1.issued_at);
            }
            if self.sessions[i].1.issued_at < self.sessions[best].1.issued_at {
                best = i;
            }
            i += 1;
        }
        let ghost k = s[best as int].0;
        proof {
            lemma_keyed_at(s, best as int);
            assert forall|j: Seq<u8>| #[trigger] keyed_map(s).contains_key(j) implies keyed_map(
                s,
            )[k].2 <= keyed_map(s)[j].2 by {
                let a = choose|a: int| 0 <= a < keys_of(s).len() && keys_of(s)[a] == j;
                lemma_keyed_at(s, a);
            }
        }
        let key = self.sessions[best].0;
        self.remove(&key);
        proof {
            use_type_invariant(&*self);
            lemma_keyed_len(session_views(self.sessions@));
        }
    }

    /// Keeps `session` under `key`, in place of any session there.
    fn put(&mut self, key: [u8; 32], session: GuestSession)
        requires
            old(self)@.len() < GUEST_SESSION_MAX_ENTRIES,
        ensures
            final(self)@ == old(self)@.insert(key@, session@),
    {
        proof {
            use_type_invariant(&*self);
            lemma_keyed_len(session_views(self.sessions@));
        }
        let ghost m0 = self@;
        self.remove(&key);
        proof {
            use_type_invariant(&*self);
            lemma_keyed_len(session_views(self.sessions@));
            assert(self@.dom() =~= m0.dom().remove(key@));
            vstd::set::axiom_set_remove_len(m0.dom(), key@);
        }
        let ghost s = session_views(self.sessions@);
        let entry = (key, session);
        proof {
            assert forall|i: int| 0 <= i < s.len() implies s[i].0 != key@ by {
                lemma_keyed_at(s, i);
            }
            lemma_views_push(self.sessions@, entry);
            lemma_keyed_push(s, (key@, entry.1@));
            lemma_keyed_len(s.push((key@, entry.1@)));
        }
        let mut sessions = Vec::new();
        std::mem::swap(&mut sessions, &mut self.sessions);
        sessions.push(entry);
        self.sessions = sessions;
    }

    /// Issues a fresh credential for the participant `participant_id` of
    /// the room `join_code` at `now`, and keeps its session.
    pub fn issue(&mut self, join_code: &str, participant_id: &str, now: u64) -> (res: String)
        ensures
            exists|bytes: Seq<u8>| bytes.len() == 32 && res@ == base64_url_nopad_encoding(bytes),
            session_issued(
                old(self)@,
                spec_hash_token(res@),
                (join_code@, participant_id@, now),
                now,
                final(self)@,
            ),
    {
        let bytes = random_bytes_32();
        let value = base64_url_nopad(bytes.as_slice());
        self.prune(now);
        let full = self.len() >= GUEST_SESSION_MAX_ENTRIES;
        if full {
            self.evict_oldest();
        }
        let key = hash_token(value.as_str());
        let session = GuestSession {
            join_code: join_code.to_owned(),
            participant_id: participant_id.to_owned(),
            issued_at: now,
        };
        self.put(key, session);
        value
    }

    /// The participant that the credential `value` acts as in the room
    /// `join_code`, after dropping the sessions that no longer last at
    /// `now`.
    pub fn authenticate(&mut self, join_code: &str, value: &str, now: u64) -> (res: Option<String>)
        ensures
            final(self)@ == swept(old(self)@, SweepRule::LastingAt(now)),
            match res {
                Some(p) => session_participant(final(self)@, spec_hash_token(value@), join_code@)
                    == Some(p@),
                None => session_participant(final(self)@, spec_hash_token(value@), join_code@)
                    is None,
            },
    {
        self.prune(now);
        proof {
            use_type_invariant(&*self);
        }
        let key = hash_token(value);
        match self.index_of(&key) {
            Some(i) => {
                proof {
                    lemma_keyed_at(session_views(self.sessions@), i as int);
                    assert(session_views(self.sessions@)[i as int].1 == self.sessions@[i as int].1@);
                }
                if str_eq(self.sessions[i].1.join_code.as_str(), join_code) {
                    Some(self.sessions[i].1.participant_id.clone())
                } else {
                    None
                }
            },
            None => {
                proof {
                    lemma_keyed_absent(session_views(self.sessions@), key@);
                }
                None
            },
        }
    }

    /// Every session: the digest of its credential, its join code and its
    /// participant id.
    pub fn entries(&self) -> (res: Vec<([u8; 32], String, String)>)
        ensures
            res@.len() == self@.len(),
            forall|i: int|
                0 <= i < res@.len() ==> self@.contains_key((#[trigger] res@[i]).0@) && self@[res@[i].0@].0
                    == res@[i].1@ && self@[res@[i].0@].1 == res@[i].2@,
    {
        proof {
            use_type_invariant(self);
            lemma_keyed_len(session_views(self.sessions@));
        }
        let ghost s = session_views(self.sessions@);
        let mut res: Vec<([u8; 32], String, String)> = Vec::new();
        let mut i: usize = 0;
        while i < self.sessions.len()
            invariant
                i <= self.sessions@.len(),
                s == session_views(self.sessions@),
                keys_of(s).no_duplicates(),
                res@.len() == i,
                forall|j: int|
                    0 <= j < i ==> (#[trigger] res@[j]).0@ == s[j].0 && res@[j].1@ == s[j].1.0
                        && res@[j].2@ == s[j].1.1,
            decreases self.sessions@.len() - i,
        {
            let e = &self.sessions[i];
            proof {
                assert(s[i as int].1 == e.1@);
            }
            res.push((e.0, e.1.join_code.clone(), e.1.participant_id.clone()));
            i += 1;
        }
        proof {
            assert forall|j: int| 0 <= j < res@.len() implies self@.contains_key(
                (#[trigger] res@[j]).0@,
            ) && self@[res@[j].0@].0 == res@[j].1@ && self@[res@[j].0@].1 == res@[j].2@ by {
                lemma_keyed_at(s, j);
            }
        }
        res
    }
}

} // verus!
