//! The sessions of the MCP endpoint.
//!
//! A transport session is opened by a bot token and touched on each call;
//! it expires after an idle time. A session binds to one room as one
//! participant, and stays bound to that room: leaving retires the
//! (token, room) pair, and the session cannot bind again. A new session of
//! the same token, room and participant replaces the old one. Revoking a
//! token ends its sessions and forgets its participants. Times are in
//! milliseconds of a monotonic clock; `R` is what the server keeps of the
//! bound room.

use vstd::prelude::*;

use crate::agents::McpFailure;
use crate::text::str_eq;
use crate::keyed::{keyed_map, keys_of, lemma_keyed_at};
use crate::textmap::{key_set, text_entries, value_under, TextMap};

verus! {

/// How many sessions may be bound at once.
pub const MCP_MAX_SESSIONS: usize = 1024;

/// How long a transport session may stay idle when no time is configured.
pub const MCP_DEFAULT_IDLE_MILLIS: u64 = 1800000;

/// A bound session.
pub struct McpSession<R> {
    pub session_id: String,
    pub token_id: String,
    pub room_code: String,
    pub participant_id: String,
    pub display_name: String,
    pub character_id: String,
    pub last_seen: u64,
    pub room: R,
}

/// A transport session: its token and when it was last seen.
pub struct TransportSession {
    pub token_id: String,
    pub last_seen: u64,
}

/// The MCP sessions of the server.
pub struct McpSessionRegistry<R> {
    sessions: TextMap<String, McpSession<R>>,
    transports: TextMap<String, TransportSession>,
    participants: TextMap<(String, String), String>,
    retired: TextMap<(String, String), ()>,
    bound_rooms: TextMap<String, (String, String)>,
    idle: u64,
}

/// Whether something last seen at `last_seen` has been idle for `idle` at
/// `now` (a time after `now` counts as no idling).
pub open spec fn idled(last_seen: u64, now: u64, idle: u64) -> bool {
    (if now >= last_seen {
        now - last_seen
    } else {
        0
    }) >= idle
}

/// Why binding `session_id` for `token_id` is refused before anything
/// else is checked, if it is: the store is full and the session is new, or
/// the transport session belongs to another token.
pub open spec fn bind_precheck<R>(
    sessions: Map<Seq<char>, McpSession<R>>,
    transports: Map<Seq<char>, TransportSession>,
    session_id: Seq<char>,
    token_id: Seq<char>,
) -> Option<McpFailure> {
    if sessions.len() >= MCP_MAX_SESSIONS && !sessions.contains_key(session_id) {
        Some(McpFailure::Busy)
    } else if transports.contains_key(session_id) && transports[session_id].token_id@ != token_id {
        Some(McpFailure::InvalidCredentials)
    } else {
        None
    }
}

/// Why binding is refused once the transport session is known, if it is:
/// the session belongs to another token, or it is already bound to a room
/// (by another token, or by this one).
pub open spec fn bind_refusal<R>(
    sessions: Map<Seq<char>, McpSession<R>>,
    bound_rooms: Map<Seq<char>, (String, String)>,
    session_id: Seq<char>,
    token_id: Seq<char>,
) -> Option<McpFailure> {
    if sessions.contains_key(session_id) && sessions[session_id].token_id@ != token_id {
        Some(McpFailure::InvalidCredentials)
    } else if bound_rooms.contains_key(session_id) {
        if bound_rooms[session_id].0@ != token_id {
            Some(McpFailure::InvalidCredentials)
        } else {
            Some(McpFailure::SessionBound)
        }
    } else {
        None
    }
}

/// Whether `id` is another session of the same token, room and
/// participant, which a new binding replaces.
pub open spec fn replaced_by<R>(
    sessions: Map<Seq<char>, McpSession<R>>,
    id: Seq<char>,
    session_id: Seq<char>,
    token_id: Seq<char>,
    room_code: Seq<char>,
    participant_id: Seq<char>,
) -> bool {
    &&& id != session_id
    &&& sessions.contains_key(id)
    &&& sessions[id].token_id@ == token_id
    &&& sessions[id].room_code@ == room_code
    &&& sessions[id].participant_id@ == participant_id
}

/// The transports whose token is `token_id`.
pub open spec fn token_transports(transports: Map<Seq<char>, TransportSession>, token_id: Seq<char>) -> Set<
    Seq<char>,
> {
    Set::new(|k: Seq<char>| transports.contains_key(k) && transports[k].token_id@ == token_id)
}

/// The transports idle at `now`.
pub open spec fn idle_transports(transports: Map<Seq<char>, TransportSession>, now: u64, idle: u64) -> Set<
    Seq<char>,
> {
    Set::new(|k: Seq<char>| transports.contains_key(k) && idled(transports[k].last_seen, now, idle))
}

/// Whether one of the first `n` of `keys` has the text `x`.
pub open spec fn key_among(keys: Seq<String>, n: int, x: Seq<char>) -> bool {
    exists|j: int| 0 <= j < n && (#[trigger] keys[j])@ == x
}

/// Whether no session is replaced by binding `session_id` for `token_id`
/// to `room_code` as `participant_id`.
pub open spec fn none_replaced<R>(
    sessions: Map<Seq<char>, McpSession<R>>,
    session_id: Seq<char>,
    token_id: Seq<char>,
    room_code: Seq<char>,
    participant_id: Seq<char>,
) -> bool {
    forall|id: Seq<char>| !replaced_by(sessions, id, session_id, token_id, room_code, participant_id)
}

/// The transports once `session_id` is open for `token_id` at `now`: an
/// open transport session is kept as it is.
pub open spec fn opened(
    transports: Map<Seq<char>, TransportSession>,
    session_id: Seq<char>,
    token_id: String,
    now: u64,
) -> Map<Seq<char>, TransportSession> {
    if transports.contains_key(session_id) {
        transports
    } else {
        transports.insert(session_id, TransportSession { token_id, last_seen: now })
    }
}

/// Whether `v` is the session under one of `ids` in `sessions`.
pub open spec fn session_among<R>(sessions: Map<Seq<char>, McpSession<R>>, ids: Set<Seq<char>>, v: McpSession<R>) -> bool {
    exists|k: Seq<char>| ids.contains(k) && sessions.contains_key(k) && v == sessions[k]
}

/// The (token, room) pairs of `token_id`.
pub open spec fn token_pairs(token_id: Seq<char>) -> Set<(Seq<char>, Seq<char>)> {
    Set::new(|k: (Seq<char>, Seq<char>)| k.0 == token_id)
}

impl<R> McpSessionRegistry<R> {
    /// The bound sessions, under their ids.
    pub closed spec fn sessions(&self) -> Map<Seq<char>, McpSession<R>> {
        self.sessions.map()
    }

    /// The transport sessions, under their ids.
    pub closed spec fn transports(&self) -> Map<Seq<char>, TransportSession> {
        self.transports.map()
    }

    /// The participant of each (token, room) pair.
    pub closed spec fn participants(&self) -> Map<(Seq<char>, Seq<char>), String> {
        self.participants.map()
    }

    /// The retired (token, room) pairs.
    pub closed spec fn retired(&self) -> Map<(Seq<char>, Seq<char>), ()> {
        self.retired.map()
    }

    /// The room each session was bound to, with its token.
    pub closed spec fn bound_rooms(&self) -> Map<Seq<char>, (String, String)> {
        self.bound_rooms.map()
    }

    /// How long a transport session may stay idle.
    pub closed spec fn idle(&self) -> u64 {
        self.idle
    }

    /// No sessions; an idle time of zero stands for the default.
    pub fn new(idle_millis: u64) -> (res: Self)
        ensures
            res.sessions() == Map::<Seq<char>, McpSession<R>>::empty(),
            res.transports() == Map::<Seq<char>, TransportSession>::empty(),
            res.participants() == Map::<(Seq<char>, Seq<char>), String>::empty(),
            res.retired() == Map::<(Seq<char>, Seq<char>), ()>::empty(),
            res.bound_rooms() == Map::<Seq<char>, (String, String)>::empty(),
            res.idle() == if idle_millis == 0 {
                MCP_DEFAULT_IDLE_MILLIS
            } else {
                idle_millis
            },
    {
        McpSessionRegistry {
            sessions: TextMap::new(),
            transports: TextMap::new(),
            participants: TextMap::new(),
            retired: TextMap::new(),
            bound_rooms: TextMap::new(),
            idle: if idle_millis == 0 {
                MCP_DEFAULT_IDLE_MILLIS
            } else {
                idle_millis
            },
        }
    }

    /// The bound session `session_id`.
    pub fn session(&self, session_id: &str) -> (res: Option<&McpSession<R>>)
        ensures
            match self.sessions().get(session_id@) {
                Some(s) => res == Some(&s),
                None => res is None,
            },
    {
        self.sessions.get(&session_id.to_owned())
    }

    /// The token of the transport session `session_id`.
    pub fn token_for(&self, session_id: &str) -> (res: Option<String>)
        ensures
            match self.transports().get(session_id@) {
                Some(t) => res matches Some(s) && s@ == t.token_id@,
                None => res is None,
            },
    {
        match self.transports.get(&session_id.to_owned()) {
            Some(t) => Some(t.token_id.clone()),
            None => None,
        }
    }

    /// Opens the transport session `session_id` for `token_id` at `now`; a
    /// session of another token is refused, and an open one is kept as it
    /// is.
    pub fn register_transport(&mut self, session_id: String, token_id: String, now: u64) -> (res:
        Result<(), McpFailure>)
        ensures
            final(self).sessions() == old(self).sessions(),
            final(self).participants() == old(self).participants(),
            final(self).retired() == old(self).retired(),
            final(self).bound_rooms() == old(self).bound_rooms(),
            final(self).idle() == old(self).idle(),
            match old(self).transports().get(session_id@) {
                Some(t) => final(self).transports() == old(self).transports() && if t.token_id@
                    != token_id@ {
                    res == Err::<(), McpFailure>(McpFailure::InvalidCredentials)
                } else {
                    res is Ok
                },
                None => res is Ok && final(self).transports() == old(self).transports().insert(
                    session_id@,
                    TransportSession { token_id, last_seen: now },
                ),
            },
    {
        match self.transports.get(&session_id) {
            Some(t) => {
                if !str_eq(t.token_id.as_str(), token_id.as_str()) {
                    return Err(McpFailure::InvalidCredentials);
                }
                Ok(())
            },
            None => {
                self.transports.insert(session_id, TransportSession { token_id, last_seen: now });
                Ok(())
            },
        }
    }

    /// Marks the transport session `session_id` of `token_id` seen at `now`.
    pub fn touch_transport(&mut self, session_id: &str, token_id: &str, now: u64)
        ensures
            final(self).sessions() == old(self).sessions(),
            final(self).participants() == old(self).participants(),
            final(self).retired() == old(self).retired(),
            final(self).bound_rooms() == old(self).bound_rooms(),
            final(self).idle() == old(self).idle(),
            final(self).transports() == if old(self).transports().contains_key(session_id@) && old(self).transports()[session_id@].token_id@ == token_id@ {
                old(self).transports().insert(
                    session_id@,
                    TransportSession {
                        token_id: old(self).transports()[session_id@].token_id,
                        last_seen: now,
                    },
                )
            } else {
                old(self).transports()
            },
    {
        let key = session_id.to_owned();
        let same = match self.transports.get(&key) {
            Some(t) => str_eq(t.token_id.as_str(), token_id),
            None => false,
        };
        if same {
            match self.transports.remove(&key) {
                Some(t) => {
                    self.transports.insert(key, TransportSession { token_id: t.token_id, last_seen: now });
                    proof {
                        assert(self.transports.map() =~= old(self).transports().insert(
                            session_id@,
                            TransportSession {
                                token_id: old(self).transports()[session_id@].token_id,
                                last_seen: now,
                            },
                        ));
                    }
                },
                None => {},
            }
        }
    }

    /// Marks the transport session and the bound session `session_id` of
    /// `token_id` seen at `now`.
    pub fn touch(&mut self, session_id: &str, token_id: &str, now: u64)
        ensures
            final(self).participants() == old(self).participants(),
            final(self).retired() == old(self).retired(),
            final(self).bound_rooms() == old(self).bound_rooms(),
            final(self).idle() == old(self).idle(),
            final(self).transports() == if old(self).transports().contains_key(session_id@) && old(self).transports()[session_id@].token_id@ == token_id@ {
                old(self).transports().insert(
                    session_id@,
                    TransportSession {
                        token_id: old(self).transports()[session_id@].token_id,
                        last_seen: now,
                    },
                )
            } else {
                old(self).transports()
            },
            final(self).sessions() == if old(self).sessions().contains_key(session_id@) && old(self).sessions()[session_id@].token_id@ == token_id@ {
                old(self).sessions().insert(
                    session_id@,
                    McpSession { last_seen: now, ..old(self).sessions()[session_id@] },
                )
            } else {
                old(self).sessions()
            },
    {
        self.touch_transport(session_id, token_id, now);
        self.refresh_session(session_id, token_id, now);
    }

    /// Marks the bound session `session_id` of `token_id` seen at `now`;
    /// whether it is one.
    fn refresh_session(&mut self, session_id: &str, token_id: &str, now: u64) -> (res: bool)
        ensures
            final(self).transports() == old(self).transports(),
            final(self).participants() == old(self).participants(),
            final(self).retired() == old(self).retired(),
            final(self).bound_rooms() == old(self).bound_rooms(),
            final(self).idle() == old(self).idle(),
            res == (old(self).sessions().contains_key(session_id@) && old(self).sessions()[session_id@].token_id@ == token_id@),
            final(self).sessions() == if res {
                old(self).sessions().insert(
                    session_id@,
                    McpSession { last_seen: now, ..old(self).sessions()[session_id@] },
                )
            } else {
                old(self).sessions()
            },
    {
        let key = session_id.to_owned();
        let same = match self.sessions.get(&key) {
            Some(s) => str_eq(s.token_id.as_str(), token_id),
            None => false,
        };
        if same {
            match self.sessions.remove(&key) {
                Some(s) => {
                    let McpSession {
                        session_id: sid,
                        token_id: tid,
                        room_code,
                        participant_id,
                        display_name,
                        character_id,
                        last_seen: _,
                        room,
                    } = s;
                    self.sessions.insert(
                        key,
                        McpSession {
                            session_id: sid,
                            token_id: tid,
                            room_code,
                            participant_id,
                            display_name,
                            character_id,
                            last_seen: now,
                            room,
                        },
                    );
                    proof {
                        assert(self.sessions.map() =~= old(self).sessions().insert(
                            session_id@,
                            McpSession { last_seen: now, ..old(self).sessions()[session_id@] },
                        ));
                    }
                },
                None => {},
            }
        }
        same
    }

    /// The bound session `session_id` for `token_id`, marked seen at `now`:
    /// refused when there is none, or it belongs to another token.
    pub fn binding(&mut self, session_id: &str, token_id: &str, now: u64) -> (res: Result<
        (),
        McpFailure,
    >)
        ensures
            final(self).transports() == old(self).transports(),
            final(self).participants() == old(self).participants(),
            final(self).retired() == old(self).retired(),
            final(self).bound_rooms() == old(self).bound_rooms(),
            final(self).idle() == old(self).idle(),
            !old(self).sessions().contains_key(session_id@) ==> (res == Err::<(), McpFailure>(
                McpFailure::SessionExpired,
            ) && final(self).sessions() == old(self).sessions()),
            old(self).sessions().contains_key(session_id@) && old(self).sessions()[session_id@].token_id@
                != token_id@ ==> (res == Err::<(), McpFailure>(McpFailure::InvalidCredentials)
                && final(self).sessions() == old(self).sessions()),
            old(self).sessions().contains_key(session_id@) && old(self).sessions()[session_id@].token_id@
                == token_id@ ==> (res is Ok && final(self).sessions() == old(self).sessions().insert(
                session_id@,
                McpSession { last_seen: now, ..old(self).sessions()[session_id@] },
            )),
    {
        let known = self.sessions.contains(&session_id.to_owned());
        if !known {
            return Err(McpFailure::SessionExpired);
        }
        if self.refresh_session(session_id, token_id, now) {
            Ok(())
        } else {
            Err(McpFailure::InvalidCredentials)
        }
    }

    /// Whether `session_id` was bound to a room, for `token_id`: refused
    /// when it was bound by another token.
    pub fn was_bound(&self, session_id: &str, token_id: &str) -> (res: Result<bool, McpFailure>)
        ensures
            match self.bound_rooms().get(session_id@) {
                None => res == Ok::<bool, McpFailure>(false),
                Some(b) => if b.0@ != token_id@ {
                    res == Err::<bool, McpFailure>(McpFailure::InvalidCredentials)
                } else {
                    res == Ok::<bool, McpFailure>(true)
                },
            },
    {
        match self.bound_rooms.get(&session_id.to_owned()) {
            None => Ok(false),
            Some(b) => if !str_eq(b.0.as_str(), token_id) {
                Err(McpFailure::InvalidCredentials)
            } else {
                Ok(true)
            },
        }
    }

    /// The participant that `token_id` plays as in the room `room_code`.
    pub fn participant_for(&self, token_id: &str, room_code: &str) -> (res: Option<String>)
        ensures
            match self.participants().get((token_id@, room_code@)) {
                Some(p) => res matches Some(q) && q@ == p@,
                None => res is None,
            },
    {
        match self.participants.get(&(token_id.to_owned(), room_code.to_owned())) {
            Some(p) => Some(p.clone()),
            None => None,
        }
    }

    /// Whether `token_id` left the room `room_code`.
    pub fn is_retired(&self, token_id: &str, room_code: &str) -> (res: bool)
        ensures
            res == self.retired().contains_key((token_id@, room_code@)),
    {
        self.retired.contains(&(token_id.to_owned(), room_code.to_owned()))
    }

    /// Ends the bound session `session_id`, which leaves its room: its
    /// (token, room) pair is retired.
    pub fn remove_binding(&mut self, session_id: &str) -> (res: Option<McpSession<R>>)
        ensures
            final(self).sessions() == old(self).sessions().remove(session_id@),
            final(self).transports() == old(self).transports(),
            final(self).participants() == old(self).participants(),
            final(self).bound_rooms() == old(self).bound_rooms(),
            final(self).idle() == old(self).idle(),
            match old(self).sessions().get(session_id@) {
                Some(s) => res == Some(s) && final(self).retired() == old(self).retired().insert(
                    (s.token_id@, s.room_code@),
                    (),
                ),
                None => res is None && final(self).retired() == old(self).retired(),
            },
    {
        let removed = self.sessions.remove(&session_id.to_owned());
        match removed {
            Some(s) => {
                self.retired.insert((s.token_id.clone(), s.room_code.clone()), ());
                Some(s)
            },
            None => None,
        }
    }

    /// Ends the session `session_id` entirely: transport, binding and room.
    pub fn remove(&mut self, session_id: &str) -> (res: Option<McpSession<R>>)
        ensures
            final(self).sessions() == old(self).sessions().remove(session_id@),
            final(self).transports() == old(self).transports().remove(session_id@),
            final(self).bound_rooms() == old(self).bound_rooms().remove(session_id@),
            final(self).participants() == old(self).participants(),
            final(self).retired() == old(self).retired(),
            final(self).idle() == old(self).idle(),
            match old(self).sessions().get(session_id@) {
                Some(s) => res == Some(s),
                None => res is None,
            },
    {
        let key = session_id.to_owned();
        self.transports.remove(&key);
        self.bound_rooms.remove(&key);
        self.sessions.remove(&key)
    }

    /// Ends every session, forgetting every participant and retired pair;
    /// the bound sessions are given back.
    pub fn terminate_all(&mut self) -> (res: Vec<(String, McpSession<R>)>)
        ensures
            final(self).sessions() == Map::<Seq<char>, McpSession<R>>::empty(),
            final(self).transports() == Map::<Seq<char>, TransportSession>::empty(),
            final(self).participants() == Map::<(Seq<char>, Seq<char>), String>::empty(),
            final(self).retired() == Map::<(Seq<char>, Seq<char>), ()>::empty(),
            final(self).bound_rooms() == Map::<Seq<char>, (String, String)>::empty(),
            final(self).idle() == old(self).idle(),
            crate::keyed::keyed_map(crate::textmap::text_entries(res@)) == old(self).sessions(),
    {
        self.transports = TextMap::new();
        self.bound_rooms = TextMap::new();
        self.participants = TextMap::new();
        self.retired = TextMap::new();
        self.sessions.drain()
    }

    /// The transport ids whose sessions satisfy the chosen test: opened by
    /// `token_id` (`by_token`), or idle at `now`.
    fn transport_ids(&self, by_token: bool, token_id: &str, now: u64) -> (res: Vec<String>)
        ensures
            key_set(res@) == if by_token {
                token_transports(self.transports(), token_id@)
            } else {
                idle_transports(self.transports(), now, self.idle())
            },
    {
        let keys = self.transports.keys();
        let ghost target = if by_token {
            token_transports(self.transports(), token_id@)
        } else {
            idle_transports(self.transports(), now, self.idle())
        };
        let mut res: Vec<String> = Vec::new();
        let mut i: usize = 0;
        while i < keys.len()
            invariant
                i <= keys@.len(),
                forall|j: int| 0 <= j < keys@.len() ==> self.transports().contains_key((#[trigger] keys@[j])@),
                forall|k: Seq<char>| #[trigger]
                    self.transports().contains_key(k) ==> exists|j: int|
                        0 <= j < keys@.len() && keys@[j]@ == k,
                target == (if by_token {
                    token_transports(self.transports(), token_id@)
                } else {
                    idle_transports(self.transports(), now, self.idle())
                }),
                forall|x: Seq<char>|
                    #[trigger] key_set(res@).contains(x) <==> (target.contains(x) && key_among(
                        keys@,
                        i as int,
                        x,
                    )),
            decreases keys@.len() - i,
        {
            let ghost before = res@;
            let k = &keys[i];
            let chosen = match self.transports.get(k) {
                Some(t) => if by_token {
                    str_eq(t.token_id.as_str(), token_id)
                } else {
                    (if now >= t.last_seen {
                        now - t.last_seen
                    } else {
                        0
                    }) >= self.idle
                },
                None => false,
            };
            proof {
                assert(self.transports().contains_key(k@));
                assert(chosen == target.contains(k@));
            }
            if chosen {
                res.push(k.clone());
            }
            proof {
                assert forall|x: Seq<char>|
                    #[trigger] key_set(res@).contains(x) <==> (target.contains(x) && key_among(
                        keys@,
                        i + 1,
                        x,
                    )) by {
                    if key_set(res@).contains(x) {
                        let j = choose|j: int| 0 <= j < res@.len() && (#[trigger] res@[j])@ == x;
                        if j < before.len() {
                            assert(res@[j] == before[j]);
                            assert(key_set(before).contains(x));
                            let m = choose|m: int| 0 <= m < i && (#[trigger] keys@[m])@ == x;
                            assert(key_among(keys@, i + 1, x));
                        } else {
                            assert(keys@[i as int]@ == x);
                            assert(key_among(keys@, i + 1, x));
                        }
                    }
                    if target.contains(x) && key_among(keys@, i + 1, x) {
                        let j = choose|j: int| 0 <= j < i + 1 && (#[trigger] keys@[j])@ == x;
                        if j < i {
                            assert(key_among(keys@, i as int, x));
                            assert(key_set(before).contains(x));
                            let m = choose|m: int| 0 <= m < before.len() && (#[trigger] before[m])@ == x;
                            assert(res@[m] == before[m]);
                        } else {
                            assert(res@[res@.len() - 1]@ == x);
                        }
                    }
                }
            }
            i += 1;
        }
        proof {
            assert forall|x: Seq<char>| key_set(res@).contains(x) <==> target.contains(x) by {
                if target.contains(x) {
                    assert(self.transports().contains_key(x));
                    let j = choose|j: int| 0 <= j < keys@.len() && keys@[j]@ == x;
                    assert(key_among(keys@, keys@.len() as int, x));
                }
            }
            assert(key_set(res@) =~= target);
        }
        res
    }

    /// Ends the transport sessions idle at `now`, with their bindings; the
    /// bound sessions among them are given back.
    pub fn expire_idle(&mut self, now: u64) -> (res: Vec<McpSession<R>>)
        ensures
            ({
                let expired = idle_transports(old(self).transports(), now, old(self).idle());
                &&& final(self).transports() == old(self).transports().remove_keys(expired)
                &&& final(self).bound_rooms() == old(self).bound_rooms().remove_keys(expired)
                &&& final(self).sessions() == old(self).sessions().remove_keys(expired)
                &&& forall|i: int|
                    0 <= i < res@.len() ==> session_among(old(self).sessions(), expired, #[trigger] res@[i])
                &&& forall|k: Seq<char>|
                    expired.contains(k) && #[trigger] old(self).sessions().contains_key(k)
                        ==> exists|i: int| 0 <= i < res@.len() && res@[i] == old(self).sessions()[k]
            }),
            final(self).participants() == old(self).participants(),
            final(self).retired() == old(self).retired(),
            final(self).idle() == old(self).idle(),
    {
        let ids = self.transport_ids(false, "", now);
        self.transports.remove_all(&ids);
        self.bound_rooms.remove_all(&ids);
        let res = self.sessions.remove_all(&ids);
        proof {
            let expired = idle_transports(old(self).transports(), now, old(self).idle());
            assert forall|i: int| 0 <= i < res@.len() implies session_among(
                old(self).sessions(),
                expired,
                #[trigger] res@[i],
            ) by {
                assert(value_under(old(self).sessions(), ids@, res@[i]));
                let k = choose|k: Seq<char>|
                    key_set(ids@).contains(k) && old(self).sessions().contains_key(k) && res@[i]
                        == old(self).sessions()[k];
                assert(expired.contains(k));
            }
        }
        res
    }

    /// The (token, room) pairs of `map` that belong to `token_id`.
    fn pairs_of_token<V>(map: &TextMap<(String, String), V>, token_id: &str) -> (res: Vec<(String, String)>)
        ensures
            key_set(res@) == map.map().dom().intersect(token_pairs(token_id@)),
    {
        let keys = map.keys();
        let mut res: Vec<(String, String)> = Vec::new();
        let mut i: usize = 0;
        while i < keys.len()
            invariant
                i <= keys@.len(),
                forall|j: int| 0 <= j < keys@.len() ==> map.map().contains_key((#[trigger] keys@[j])@),
                forall|k: (Seq<char>, Seq<char>)| #[trigger]
                    map.map().contains_key(k) ==> exists|j: int| 0 <= j < keys@.len() && keys@[j]@ == k,
                forall|x: (Seq<char>, Seq<char>)|
                    key_set(res@).contains(x) <==> (x.0 == token_id@ && exists|j: int|
                        0 <= j < i && (#[trigger] keys@[j])@ == x),
            decreases keys@.len() - i,
        {
            let ghost before = res@;
            let k = &keys[i];
            let chosen = str_eq(k.0.as_str(), token_id);
            if chosen {
                res.push((k.0.clone(), k.1.clone()));
            }
            proof {
                assert forall|x: (Seq<char>, Seq<char>)|
                    key_set(res@).contains(x) <==> (x.0 == token_id@ && exists|j: int|
                        0 <= j < i + 1 && (#[trigger] keys@[j])@ == x) by {
                    if key_set(res@).contains(x) {
                        let j = choose|j: int| 0 <= j < res@.len() && (#[trigger] res@[j])@ == x;
                        if j < before.len() {
                            assert(res@[j] == before[j]);
                            assert(key_set(before).contains(x));
                        } else {
                            assert(keys@[i as int]@ == x);
                        }
                    }
                    if x.0 == token_id@ && exists|j: int| 0 <= j < i + 1 && (#[trigger] keys@[j])@ == x {
                        let j = choose|j: int| 0 <= j < i + 1 && (#[trigger] keys@[j])@ == x;
                        if j < i {
                            assert(key_set(before).contains(x));
                            let m = choose|m: int| 0 <= m < before.len() && (#[trigger] before[m])@ == x;
                            assert(res@[m] == before[m]);
                        } else {
                            assert(res@[res@.len() - 1]@ == x);
                        }
                    }
                }
            }
            i += 1;
        }
        proof {
            assert forall|x: (Seq<char>, Seq<char>)| key_set(res@).contains(x) <==> map.map().dom().intersect(
                token_pairs(token_id@),
            ).contains(x) by {
                if map.map().contains_key(x) && x.0 == token_id@ {
                    let j = choose|j: int| 0 <= j < keys@.len() && keys@[j]@ == x;
                }
            }
            assert(key_set(res@) =~= map.map().dom().intersect(token_pairs(token_id@)));
        }
        res
    }

    /// Revokes `token_id`: its transport sessions end with their bindings,
    /// and its participants and retired pairs are forgotten; the bound
    /// sessions among them are given back.
    pub fn revoke_token(&mut self, token_id: &str) -> (res: Vec<McpSession<R>>)
        ensures
            ({
                let ended = token_transports(old(self).transports(), token_id@);
                &&& final(self).transports() == old(self).transports().remove_keys(ended)
                &&& final(self).bound_rooms() == old(self).bound_rooms().remove_keys(ended)
                &&& final(self).sessions() == old(self).sessions().remove_keys(ended)
                &&& final(self).participants() == old(self).participants().remove_keys(
                    token_pairs(token_id@),
                )
                &&& final(self).retired() == old(self).retired().remove_keys(token_pairs(token_id@))
                &&& forall|i: int|
                    0 <= i < res@.len() ==> session_among(old(self).sessions(), ended, #[trigger] res@[i])
                &&& forall|k: Seq<char>|
                    ended.contains(k) && #[trigger] old(self).sessions().contains_key(k)
                        ==> exists|i: int| 0 <= i < res@.len() && res@[i] == old(self).sessions()[k]
            }),
            final(self).idle() == old(self).idle(),
    {
        let ids = self.transport_ids(true, token_id, 0);
        self.transports.remove_all(&ids);
        self.bound_rooms.remove_all(&ids);
        let pairs = Self::pairs_of_token(&self.participants, token_id);
        self.participants.remove_all(&pairs);
        let retired = Self::pairs_of_token(&self.retired, token_id);
        self.retired.remove_all(&retired);
        let res = self.sessions.remove_all(&ids);
        proof {
            let ended = token_transports(old(self).transports(), token_id@);
            assert(old(self).participants().remove_keys(key_set(pairs@)) =~= old(self).participants().remove_keys(token_pairs(token_id@)));
            assert(old(self).retired().remove_keys(key_set(retired@)) =~= old(self).retired().remove_keys(token_pairs(token_id@)));
            assert forall|i: int| 0 <= i < res@.len() implies session_among(
                old(self).sessions(),
                ended,
                #[trigger] res@[i],
            ) by {
                assert(value_under(old(self).sessions(), ids@, res@[i]));
                let k = choose|k: Seq<char>|
                    key_set(ids@).contains(k) && old(self).sessions().contains_key(k) && res@[i]
                        == old(self).sessions()[k];
                assert(ended.contains(k));
            }
        }
        res
    }

    /// Binds the session `session_id` of `token_id` to the room
    /// `room_code` as `participant_id` at `now`, replacing another session
    /// of the same token, room and participant, which is given back.
    pub fn bind(
        &mut self,
        session_id: String,
        token_id: String,
        room_code: String,
        participant_id: String,
        display_name: String,
        character_id: String,
        room: R,
        now: u64,
    ) -> (res: Result<Option<McpSession<R>>, McpFailure>)
        ensures
            final(self).retired() == old(self).retired(),
            final(self).idle() == old(self).idle(),
            res is Ok <==> (bind_precheck(
                old(self).sessions(),
                old(self).transports(),
                session_id@,
                token_id@,
            ) is None && bind_refusal(
                old(self).sessions(),
                old(self).bound_rooms(),
                session_id@,
                token_id@,
            ) is None),
            bind_precheck(old(self).sessions(), old(self).transports(), session_id@, token_id@) matches Some(
                e,
            ) ==> (res == Err::<Option<McpSession<R>>, McpFailure>(e) && final(self).sessions()
                == old(self).sessions() && final(self).transports() == old(self).transports()
                && final(self).bound_rooms() == old(self).bound_rooms() && final(self).participants()
                == old(self).participants()),
            bind_precheck(old(self).sessions(), old(self).transports(), session_id@, token_id@) is None
                ==> (bind_refusal(old(self).sessions(), old(self).bound_rooms(), session_id@, token_id@) matches Some(
                e,
            ) ==> (res == Err::<Option<McpSession<R>>, McpFailure>(e) && final(self).sessions()
                == old(self).sessions() && final(self).transports() == opened(
                old(self).transports(),
                session_id@,
                token_id,
                now,
            ) && final(self).bound_rooms() == old(self).bound_rooms() && final(self).participants()
                == old(self).participants())),
            res is Ok ==> final(self).participants() == old(self).participants().insert(
                (token_id@, room_code@),
                participant_id,
            ),
            res matches Ok(Some(o)) ==> exists|id: Seq<char>|
                replaced_by(old(self).sessions(), id, session_id@, token_id@, room_code@, participant_id@)
                    && o == old(self).sessions()[id] && final(self).transports() == opened(
                    old(self).transports(),
                    session_id@,
                    token_id,
                    now,
                ).remove(id) && final(self).bound_rooms() == old(self).bound_rooms().remove(id).insert(
                    session_id@,
                    (token_id, room_code),
                ) && final(self).sessions() == old(self).sessions().remove(id).insert(
                    session_id@,
                    McpSession {
                        session_id,
                        token_id,
                        room_code,
                        participant_id,
                        display_name,
                        character_id,
                        last_seen: now,
                        room,
                    },
                ),
            res matches Ok(None) ==> none_replaced(
                old(self).sessions(),
                session_id@,
                token_id@,
                room_code@,
                participant_id@,
            ) && final(self).transports() == opened(old(self).transports(), session_id@, token_id, now)
                && final(self).bound_rooms() == old(self).bound_rooms().insert(
                session_id@,
                (token_id, room_code),
            ) && final(self).sessions() == old(self).sessions().insert(
                session_id@,
                McpSession {
                    session_id,
                    token_id,
                    room_code,
                    participant_id,
                    display_name,
                    character_id,
                    last_seen: now,
                    room,
                },
            ),
    {
        let full = self.sessions.len() >= MCP_MAX_SESSIONS;
        if full && !self.sessions.contains(&session_id) {
            return Err(McpFailure::Busy);
        }
        let transport_open = match self.transports.get(&session_id) {
            Some(t) => {
                if !str_eq(t.token_id.as_str(), token_id.as_str()) {
                    return Err(McpFailure::InvalidCredentials);
                }
                true
            },
            None => false,
        };
        if !transport_open {
            self.transports.insert(
                session_id.clone(),
                TransportSession { token_id: token_id.clone(), last_seen: now },
            );
        }
        match self.sessions.get(&session_id) {
            Some(s) => {
                if !str_eq(s.token_id.as_str(), token_id.as_str()) {
                    return Err(McpFailure::InvalidCredentials);
                }
            },
            None => {},
        }
        match self.bound_rooms.get(&session_id) {
            Some(b) => {
                if !str_eq(b.0.as_str(), token_id.as_str()) {
                    return Err(McpFailure::InvalidCredentials);
                }
                return Err(McpFailure::SessionBound);
            },
            None => {},
        }
        let old_id = self.replaced_session(&session_id, &token_id, &room_code, &participant_id);
        let old = match old_id {
            Some(id) => {
                self.transports.remove(&id);
                self.bound_rooms.remove(&id);
                self.sessions.remove(&id)
            },
            None => None,
        };
        self.participants.insert((token_id.clone(), room_code.clone()), participant_id.clone());
        self.bound_rooms.insert(session_id.clone(), (token_id.clone(), room_code.clone()));
        let entry = McpSession {
            session_id: session_id.clone(),
            token_id,
            room_code,
            participant_id,
            display_name,
            character_id,
            last_seen: now,
            room,
        };
        self.sessions.insert(session_id, entry);
        Ok(old)
    }

    /// Another session of the same token, room and participant, if any.
    fn replaced_session(
        &self,
        session_id: &String,
        token_id: &String,
        room_code: &String,
        participant_id: &String,
    ) -> (res: Option<String>)
        ensures
            match res {
                Some(id) => replaced_by(
                    self.sessions(),
                    id@,
                    session_id@,
                    token_id@,
                    room_code@,
                    participant_id@,
                ),
                None => none_replaced(self.sessions(), session_id@, token_id@, room_code@, participant_id@),
            },
    {
        let entries = self.sessions.entries();
        let ghost s = text_entries(entries@);
        let mut i: usize = 0;
        while i < entries.len()
            invariant
                s == text_entries(entries@),
                keyed_map(s) == self.sessions(),
                keys_of(s).no_duplicates(),
                i <= entries@.len(),
                forall|j: int|
                    0 <= j < i ==> !replaced_by(
                        self.sessions(),
                        #[trigger] s[j].0,
                        session_id@,
                        token_id@,
                        room_code@,
                        participant_id@,
                    ),
            decreases entries@.len() - i,
        {
            let k = &entries[i].0;
            let e = &entries[i].1;
            proof {
                lemma_keyed_at(s, i as int);
                assert(s[i as int] == (k@, *e));
            }
            if !str_eq(k.as_str(), session_id.as_str()) && str_eq(e.token_id.as_str(), token_id.as_str())
                && str_eq(e.room_code.as_str(), room_code.as_str()) && str_eq(
                e.participant_id.as_str(),
                participant_id.as_str(),
            ) {
                return Some(k.clone());
            }
            i += 1;
        }
        proof {
            assert forall|id: Seq<char>|
                !replaced_by(self.sessions(), id, session_id@, token_id@, room_code@, participant_id@) by {
                if self.sessions().contains_key(id) {
                    let j = choose|j: int| 0 <= j < keys_of(s).len() && keys_of(s)[j] == id;
                    assert(s[j].0 == id);
                }
            }
        }
        None
    }
}

/// What the registry says of the session asking to join: bound, to the
/// room it asks for or to another, or not bound for a reason.
#[derive(Debug, Clone, Copy, PartialEq, Eq, Structural)]
pub enum McpBindingLookup {
    Bound { same_room: bool },
    Unbound(McpFailure),
}

/// What the room says of the seat that the token played in it before.
#[derive(Debug, Clone, Copy, PartialEq, Eq, Structural)]
pub enum SeatLookup {
    /// The token never played in the room.
    NoSeat,
    /// Its participant is still in the room.
    Present,
    /// Its participant is no longer in the room.
    Absent,
    /// The room's snapshot could not be read.
    Unreadable,
}

/// How a join request is answered.
#[derive(Debug, Clone, Copy, PartialEq, Eq, Structural)]
pub enum JoinDecision {
    Refuse(McpFailure),
    /// The session is bound to this room already: answer with its seat.
    ResumeBinding,
    /// Reconnect the token's participant, which is still in the room.
    Reconnect,
    /// Join the room as a new participant.
    JoinNew,
}

/// The order in which a join is decided:
/// - a session bound to another room is refused as bound, and one bound to
///   this room resumes; a session unbound for another reason than expiry
///   is refused as invalid credentials;
/// - a session that was bound before is refused as bound (and the check
///   itself may refuse it);
/// - a room that does not exist is refused as not found;
/// - a token whose participant is still in the room reconnects it; an
///   unreadable room is an internal failure; a token whose participant
///   left and whose pair is retired is refused as unable to leave-and-join;
/// - anything else joins as a new participant.
pub open spec fn spec_mcp_join_decision(
    existing: McpBindingLookup,
    was_bound: Result<bool, McpFailure>,
    room_found: bool,
    seat: SeatLookup,
    retired: bool,
) -> JoinDecision {
    match existing {
        McpBindingLookup::Bound { same_room } => if same_room {
            JoinDecision::ResumeBinding
        } else {
            JoinDecision::Refuse(McpFailure::SessionBound)
        },
        McpBindingLookup::Unbound(failure) => if failure != McpFailure::SessionExpired {
            JoinDecision::Refuse(McpFailure::InvalidCredentials)
        } else {
            match was_bound {
                Err(e) => JoinDecision::Refuse(e),
                Ok(true) => JoinDecision::Refuse(McpFailure::SessionBound),
                Ok(false) => if !room_found {
                    JoinDecision::Refuse(McpFailure::RoomNotFound)
                } else {
                    match seat {
                        SeatLookup::NoSeat => JoinDecision::JoinNew,
                        SeatLookup::Present => JoinDecision::Reconnect,
                        SeatLookup::Unreadable => JoinDecision::Refuse(McpFailure::Internal),
                        SeatLookup::Absent => if retired {
                            JoinDecision::Refuse(McpFailure::LeaveUnavailable)
                        } else {
                            JoinDecision::JoinNew
                        },
                    }
                },
            }
        },
    }
}

/// How a join request is answered, given what the registry and the room
/// say.
pub fn mcp_join_decision(
    existing: McpBindingLookup,
    was_bound: Result<bool, McpFailure>,
    room_found: bool,
    seat: SeatLookup,
    retired: bool,
) -> (res: JoinDecision)
    ensures
        res == spec_mcp_join_decision(existing, was_bound, room_found, seat, retired),
{
    match existing {
        McpBindingLookup::Bound { same_room } => {
            if same_room {
                return JoinDecision::ResumeBinding;
            }
            return JoinDecision::Refuse(McpFailure::SessionBound);
        },
        McpBindingLookup::Unbound(failure) => {
            match failure {
                McpFailure::SessionExpired => {},
                _ => {
                    return JoinDecision::Refuse(McpFailure::InvalidCredentials);
                },
            }
        },
    }
    match was_bound {
        Err(e) => {
            return JoinDecision::Refuse(e);
        },
        Ok(true) => {
            return JoinDecision::Refuse(McpFailure::SessionBound);
        },
        Ok(false) => {},
    }
    if !room_found {
        return JoinDecision::Refuse(McpFailure::RoomNotFound);
    }
    match seat {
        SeatLookup::NoSeat => JoinDecision::JoinNew,
        SeatLookup::Present => JoinDecision::Reconnect,
        SeatLookup::Unreadable => JoinDecision::Refuse(McpFailure::Internal),
        SeatLookup::Absent => if retired {
            JoinDecision::Refuse(McpFailure::LeaveUnavailable)
        } else {
            JoinDecision::JoinNew
        },
    }
}

/// A session is never moved to another room by a join: a session bound to
/// another room, or bound before, is refused as bound.
pub proof fn law_join_never_moves_a_session(
    was_bound: Result<bool, McpFailure>,
    room_found: bool,
    seat: SeatLookup,
    retired: bool,
)
    ensures
        spec_mcp_join_decision(
            McpBindingLookup::Bound { same_room: false },
            was_bound,
            room_found,
            seat,
            retired,
        ) == JoinDecision::Refuse(McpFailure::SessionBound),
        spec_mcp_join_decision(
            McpBindingLookup::Unbound(McpFailure::SessionExpired),
            Ok(true),
            room_found,
            seat,
            retired,
        ) == JoinDecision::Refuse(McpFailure::SessionBound),
{
}

} // verus!
