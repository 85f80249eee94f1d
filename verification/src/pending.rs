//! Authorization flows that wait for the user to sign in or consent.
//!
//! A flow is kept under the SHA-256 digest of the CSRF token of its form,
//! with the instant at which it expires, in milliseconds of a monotonic
//! clock. At most `MAX_PENDING_AUTHORIZATIONS` flows are kept: a new flow
//! that finds the store full pushes out the one that expires first.

use vstd::prelude::*;

use crate::crypto::sha256_digest;
use crate::oauth::{csrf_digest, AuthorizationRequest, AuthorizationRequestView};
use crate::text::str_eq;

verus! {

/// How many flows may wait at once.
pub const MAX_PENDING_AUTHORIZATIONS: usize = 1024;

/// How long a flow may wait, in milliseconds.
pub const AUTHORIZATION_FLOW_LIFETIME_MILLIS: u64 = 600000;

/// A waiting flow: the request it authorizes, the name its client shows,
/// and the instant it expires.
#[derive(Debug)]
pub struct PendingAuthorization {
    pub request: AuthorizationRequest,
    pub client_name: String,
    pub expires_at: u64,
}

/// What a waiting flow holds.
pub struct PendingFlowView {
    pub request: AuthorizationRequestView,
    pub client_name: Seq<char>,
    pub expires_at: u64,
}

impl View for PendingAuthorization {
    type V = PendingFlowView;

    open spec fn view(&self) -> PendingFlowView {
        PendingFlowView {
            request: self.request@,
            client_name: self.client_name@,
            expires_at: self.expires_at,
        }
    }
}

/// The key under which the flow of the CSRF token `csrf` is kept.
pub open spec fn flow_key(csrf: Seq<char>) -> Seq<u8> {
    sha256_digest(vstd::utf8::encode_utf8(csrf))
}

/// The flows of `m` that have not expired at `now`.
pub open spec fn live_flows(m: Map<Seq<u8>, PendingFlowView>, now: u64) -> Map<
    Seq<u8>,
    PendingFlowView,
> {
    Map::new(|k: Seq<u8>| m.contains_key(k) && m[k].expires_at > now, |k: Seq<u8>| m[k])
}

/// Whether `k` is a flow of `m` that expires no later than any other.
pub open spec fn expires_first(m: Map<Seq<u8>, PendingFlowView>, k: Seq<u8>) -> bool {
    m.contains_key(k) && forall|j: Seq<u8>|
        #[trigger] m.contains_key(j) ==> m[k].expires_at <= m[j].expires_at
}

/// Whether `after` is what registering `flow` under `key` at `now` makes
/// of the flows `before`: the expired flows are dropped; when the store is
/// then full and has no flow under `key`, one that expires first is
/// dropped too; and `flow` is kept under `key`, in place of any flow there.
pub open spec fn registered(
    before: Map<Seq<u8>, PendingFlowView>,
    key: Seq<u8>,
    flow: PendingFlowView,
    now: u64,
    after: Map<Seq<u8>, PendingFlowView>,
) -> bool {
    let live = live_flows(before, now);
    if live.len() >= MAX_PENDING_AUTHORIZATIONS && !live.contains_key(key) {
        exists|oldest: Seq<u8>|
            expires_first(live, oldest) && after == live.remove(oldest).insert(key, flow)
    } else {
        after == live.insert(key, flow)
    }
}

/// What consuming the flow under `key` for `request` at `now` gives, and
/// the flows it leaves: the flow is taken out when it has not expired and
/// authorizes exactly `request`; otherwise nothing is taken.
pub open spec fn consumed(
    before: Map<Seq<u8>, PendingFlowView>,
    key: Seq<u8>,
    request: AuthorizationRequestView,
    now: u64,
) -> (Option<PendingFlowView>, Map<Seq<u8>, PendingFlowView>) {
    if before.contains_key(key) && before[key].expires_at > now && before[key].request == request {
        (Some(before[key]), before.remove(key))
    } else {
        (None, before)
    }
}

struct FlowEntry {
    key: [u8; 32],
    flow: PendingAuthorization,
}

/// The waiting flows.
pub struct PendingAuthorizations {
    entries: Vec<FlowEntry>,
}

spec fn entry_keys(s: Seq<FlowEntry>) -> Seq<Seq<u8>> {
    s.map_values(|e: FlowEntry| e.key@)
}

spec fn entry_index(s: Seq<FlowEntry>, k: Seq<u8>) -> int {
    choose|i: int| 0 <= i < s.len() && s[i].key@ == k
}

/// The flows of `s` as a map from key to flow.
spec fn entries_map(s: Seq<FlowEntry>) -> Map<Seq<u8>, PendingFlowView> {
    Map::new(|k: Seq<u8>| entry_keys(s).contains(k), |k: Seq<u8>| s[entry_index(s, k)].flow@)
}

proof fn lemma_map_at(s: Seq<FlowEntry>, idx: int)
    requires
        0 <= idx < s.len(),
        entry_keys(s).no_duplicates(),
    ensures
        entries_map(s).contains_key(s[idx].key@),
        entries_map(s)[s[idx].key@] == s[idx].flow@,
{
    let k = s[idx].key@;
    assert(entry_keys(s)[idx] == k);
    let j = entry_index(s, k);
    assert(0 <= j < s.len() && s[j].key@ == k);
    assert(entry_keys(s)[j] == k);
    assert(j == idx);
}

proof fn lemma_map_absent(s: Seq<FlowEntry>, k: Seq<u8>)
    requires
        forall|i: int| 0 <= i < s.len() ==> s[i].key@ != k,
    ensures
        !entries_map(s).contains_key(k),
{
    if entry_keys(s).contains(k) {
        let i = choose|i: int| 0 <= i < entry_keys(s).len() && entry_keys(s)[i] == k;
        assert(s[i].key@ == k);
    }
}

proof fn lemma_map_remove(s: Seq<FlowEntry>, i: int)
    requires
        0 <= i < s.len(),
        entry_keys(s).no_duplicates(),
    ensures
        entry_keys(s.remove(i)).no_duplicates(),
        entries_map(s.remove(i)) == entries_map(s).remove(s[i].key@),
{
    let t = s.remove(i);
    let k = s[i].key@;
    assert forall|a: int, b: int|
        0 <= a < t.len() && 0 <= b < t.len() && a != b implies entry_keys(t)[a] != entry_keys(
        t,
    )[b] by {
        let a2 = if a < i {
            a
        } else {
            a + 1
        };
        let b2 = if b < i {
            b
        } else {
            b + 1
        };
        assert(entry_keys(s)[a2] != entry_keys(s)[b2]);
    }
    assert forall|key: Seq<u8>| #[trigger]
        entries_map(t).contains_key(key) == entries_map(s).remove(k).contains_key(key) by {
        if entry_keys(t).contains(key) {
            let a = choose|a: int| 0 <= a < entry_keys(t).len() && entry_keys(t)[a] == key;
            let a2 = if a < i {
                a
            } else {
                a + 1
            };
            assert(entry_keys(s)[a2] == key);
            assert(entry_keys(s)[i] == k);
        }
        if entry_keys(s).contains(key) && key != k {
            let a = choose|a: int| 0 <= a < entry_keys(s).len() && entry_keys(s)[a] == key;
            assert(a != i);
            let a2 = if a < i {
                a
            } else {
                a - 1
            };
            assert(entry_keys(t)[a2] == key);
        }
    }
    assert forall|key: Seq<u8>| #[trigger] entries_map(t).contains_key(key) implies entries_map(
        t,
    )[key] == entries_map(s)[key] by {
        let a = choose|a: int| 0 <= a < entry_keys(t).len() && entry_keys(t)[a] == key;
        let a2 = if a < i {
            a
        } else {
            a + 1
        };
        lemma_map_at(t, a);
        lemma_map_at(s, a2);
    }
    assert(entries_map(t) =~= entries_map(s).remove(k));
}

proof fn lemma_map_push(s: Seq<FlowEntry>, e: FlowEntry)
    requires
        entry_keys(s).no_duplicates(),
        forall|i: int| 0 <= i < s.len() ==> s[i].key@ != e.key@,
    ensures
        entry_keys(s.push(e)).no_duplicates(),
        entries_map(s.push(e)) == entries_map(s).insert(e.key@, e.flow@),
{
    let t = s.push(e);
    assert forall|a: int, b: int|
        0 <= a < t.len() && 0 <= b < t.len() && a != b implies entry_keys(t)[a] != entry_keys(
        t,
    )[b] by {
        if a < s.len() && b < s.len() {
            assert(entry_keys(s)[a] != entry_keys(s)[b]);
        }
    }
    assert forall|key: Seq<u8>| #[trigger]
        entries_map(t).contains_key(key) == entries_map(s).insert(e.key@, e.flow@).contains_key(
            key,
        ) by {
        if entry_keys(t).contains(key) {
            let a = choose|a: int| 0 <= a < entry_keys(t).len() && entry_keys(t)[a] == key;
            if a < s.len() {
                assert(entry_keys(s)[a] == key);
            }
        }
        if entry_keys(s).contains(key) {
            let a = choose|a: int| 0 <= a < entry_keys(s).len() && entry_keys(s)[a] == key;
            assert(entry_keys(t)[a] == key);
        }
        if key == e.key@ {
            assert(entry_keys(t)[s.len() as int] == key);
        }
    }
    assert forall|key: Seq<u8>| #[trigger] entries_map(t).contains_key(key) implies entries_map(
        t,
    )[key] == entries_map(s).insert(e.key@, e.flow@)[key] by {
        let a = choose|a: int| 0 <= a < entry_keys(t).len() && entry_keys(t)[a] == key;
        lemma_map_at(t, a);
        if a < s.len() {
            lemma_map_at(s, a);
        }
    }
    assert(entries_map(t) =~= entries_map(s).insert(e.key@, e.flow@));
}

proof fn lemma_map_len(s: Seq<FlowEntry>)
    requires
        entry_keys(s).no_duplicates(),
    ensures
        entries_map(s).dom().finite(),
        entries_map(s).len() == s.len(),
{
    assert(entries_map(s).dom() =~= entry_keys(s).to_set());
    entry_keys(s).unique_seq_to_set();
}

proof fn lemma_map_empty()
    ensures
        entries_map(Seq::<FlowEntry>::empty()) == Map::<Seq<u8>, PendingFlowView>::empty(),
{
    assert(entries_map(Seq::<FlowEntry>::empty()) =~= Map::<Seq<u8>, PendingFlowView>::empty());
}

impl PendingAuthorizations {
    #[verifier::type_invariant]
    spec fn well_formed(self) -> bool {
        &&& entry_keys(self.entries@).no_duplicates()
        &&& self.entries@.len() <= MAX_PENDING_AUTHORIZATIONS
    }
}

impl View for PendingAuthorizations {
    /// Each waiting flow, under its key.
    type V = Map<Seq<u8>, PendingFlowView>;

    closed spec fn view(&self) -> Map<Seq<u8>, PendingFlowView> {
        entries_map(self.entries@)
    }
}

/// Whether two keys are equal.
fn keys_equal(a: &[u8; 32], b: &[u8; 32]) -> (res: bool)
    ensures
        res == (a@ == b@),
{
    let mut i: usize = 0;
    while i < 32
        invariant
            i <= 32,
            a@.len() == 32,
            b@.len() == 32,
            forall|k: int| 0 <= k < i ==> a@[k] == b@[k],
        decreases 32 - i,
    {
        if a[i] != b[i] {
            return false;
        }
        i += 1;
    }
    assert(a@ =~= b@);
    true
}

/// A copy of an authorization request.
pub fn copy_request(r: &AuthorizationRequest) -> (res: AuthorizationRequest)
    ensures
        res@ == r@,
{
    AuthorizationRequest {
        client_id: r.client_id.clone(),
        redirect_uri: r.redirect_uri.clone(),
        response_type: r.response_type.clone(),
        state: r.state.clone(),
        scope: r.scope.clone(),
        resource: r.resource.clone(),
        code_challenge: r.code_challenge.clone(),
        code_challenge_method: r.code_challenge_method.clone(),
    }
}

/// Whether two authorization requests hold the same fields.
pub fn requests_equal(a: &AuthorizationRequest, b: &AuthorizationRequest) -> (res: bool)
    ensures
        res == (a@ == b@),
{
    str_eq(a.client_id.as_str(), b.client_id.as_str()) && str_eq(
        a.redirect_uri.as_str(),
        b.redirect_uri.as_str(),
    ) && str_eq(a.response_type.as_str(), b.response_type.as_str()) && str_eq(
        a.state.as_str(),
        b.state.as_str(),
    ) && str_eq(a.scope.as_str(), b.scope.as_str()) && str_eq(
        a.resource.as_str(),
        b.resource.as_str(),
    ) && str_eq(a.code_challenge.as_str(), b.code_challenge.as_str()) && str_eq(
        a.code_challenge_method.as_str(),
        b.code_challenge_method.as_str(),
    )
}

fn copy_flow(f: &PendingAuthorization) -> (res: PendingAuthorization)
    ensures
        res@ == f@,
{
    PendingAuthorization {
        request: copy_request(&f.request),
        client_name: f.client_name.clone(),
        expires_at: f.expires_at,
    }
}

impl PendingAuthorizations {
    /// An empty store.
    pub fn new() -> (res: Self)
        ensures
            res@ == Map::<Seq<u8>, PendingFlowView>::empty(),
    {
        proof {
            lemma_map_empty();
        }
        PendingAuthorizations { entries: Vec::new() }
    }

    /// How many flows are kept; never more than the limit.
    pub fn len(&self) -> (res: usize)
        ensures
            res == self@.len(),
            res <= MAX_PENDING_AUTHORIZATIONS,
    {
        proof {
            use_type_invariant(self);
            lemma_map_len(self.entries@);
        }
        self.entries.len()
    }

    /// The index of the entry under `key`, if there is one.
    fn index_of(&self, key: &[u8; 32]) -> (res: Option<usize>)
        ensures
            match res {
                Some(i) => i < self.entries@.len() && self.entries@[i as int].key@ == key@,
                None => forall|i: int|
                    0 <= i < self.entries@.len() ==> self.entries@[i].key@ != key@,
            },
    {
        let mut i: usize = 0;
        while i < self.entries.len()
            invariant
                i <= self.entries@.len(),
                forall|k: int| 0 <= k < i ==> self.entries@[k].key@ != key@,
            decreases self.entries@.len() - i,
        {
            if keys_equal(&self.entries[i].key, key) {
                return Some(i);
            }
            i += 1;
        }
        None
    }

    /// Drops the flows that have expired at `now`.
    fn prune(&mut self, now: u64)
        ensures
            final(self)@ == live_flows(old(self)@, now),
    {
        proof {
            use_type_invariant(&*self);
        }
        let ghost s = self.entries@;
        let mut kept: Vec<FlowEntry> = Vec::new();
        proof {
            lemma_map_empty();
            assert(live_flows(entries_map(s.take(0)), now) =~= Map::<
                Seq<u8>,
                PendingFlowView,
            >::empty()) by {
                assert(s.take(0) =~= Seq::<FlowEntry>::empty());
            }
        }
        let mut i: usize = 0;
        while i < self.entries.len()
            invariant
                i <= s.len(),
                s == self.entries@,
                entry_keys(s).no_duplicates(),
                s.len() <= MAX_PENDING_AUTHORIZATIONS,
                entry_keys(kept@).no_duplicates(),
                kept@.len() <= i,
                forall|a: int|
                    0 <= a < kept@.len() ==> exists|b: int|
                        0 <= b < i && #[trigger] kept@[a].key@ == s[b].key@,
                entries_map(kept@) == live_flows(entries_map(s.take(i as int)), now),
            decreases s.len() - i,
        {
            let ghost before = kept@;
            proof {
                assert(entry_keys(s.take(i as int)).no_duplicates()) by {
                    assert forall|a: int, b: int|
                        0 <= a < i && 0 <= b < i && a != b implies entry_keys(s.take(i as int))[a]
                        != entry_keys(s.take(i as int))[b] by {
                        assert(entry_keys(s)[a] != entry_keys(s)[b]);
                    }
                }
                assert forall|b: int| 0 <= b < i implies s.take(i as int)[b].key@ != s[i as int].key@ by {
                    assert(entry_keys(s)[b] != entry_keys(s)[i as int]);
                }
                assert(s.take(i + 1) =~= s.take(i as int).push(s[i as int]));
                lemma_map_push(s.take(i as int), s[i as int]);
            }
            let ghost m = entries_map(s.take(i as int));
            let ghost e = s[i as int];
            proof {
                assert(!m.contains_key(e.key@)) by {
                    lemma_map_absent(s.take(i as int), e.key@);
                }
            }
            if self.entries[i].flow.expires_at > now {
                let entry = FlowEntry {
                    key: self.entries[i].key,
                    flow: copy_flow(&self.entries[i].flow),
                };
                proof {
                    assert forall|a: int| 0 <= a < before.len() implies before[a].key@ != entry.key@ by {
                        let b = choose|b: int| 0 <= b < i && #[trigger] before[a].key@ == s[b].key@;
                        assert(entry_keys(s)[b] != entry_keys(s)[i as int]);
                    }
                    lemma_map_push(before, entry);
                }
                kept.push(entry);
                proof {
                    assert(live_flows(m.insert(e.key@, e.flow@), now) =~= live_flows(m, now).insert(
                        e.key@,
                        e.flow@,
                    ));
                    assert forall|a: int| 0 <= a < kept@.len() implies exists|b: int|
                        0 <= b < i + 1 && #[trigger] kept@[a].key@ == s[b].key@ by {
                        if a < before.len() {
                            assert(kept@[a] == before[a]);
                        } else {
                            assert(kept@[a].key@ == s[i as int].key@);
                        }
                    }
                }
            } else {
                proof {
                    assert(live_flows(m.insert(e.key@, e.flow@), now) =~= live_flows(m, now));
                }
            }
            i += 1;
        }
        proof {
            assert(s.take(s.len() as int) =~= s);
            lemma_map_len(kept@);
        }
        self.entries = kept;
    }

    /// Drops a flow that expires first. The store must hold a flow.
    fn evict_oldest(&mut self)
        requires
            old(self)@.len() > 0,
        ensures
            exists|k: Seq<u8>|
                expires_first(old(self)@, k) && final(self)@ == old(self)@.remove(k),
            final(self)@.len() == old(self)@.len() - 1,
    {
        proof {
            use_type_invariant(&*self);
            lemma_map_len(self.entries@);
        }
        let ghost s = self.entries@;
        let mut best: usize = 0;
        let mut i: usize = 1;
        while i < self.entries.len()
            invariant
                s == self.entries@,
                1 <= i <= s.len(),
                best < i,
                forall|j: int| 0 <= j < i ==> s[best as int].flow.expires_at <= #[trigger] s[j].flow.expires_at,
            decreases s.len() - i,
        {
            if self.entries[i].flow.expires_at < self.entries[best].flow.expires_at {
                best = i;
            }
            i += 1;
        }
        let ghost k = s[best as int].key@;
        proof {
            lemma_map_at(s, best as int);
            assert forall|j: Seq<u8>| #[trigger] entries_map(s).contains_key(j) implies entries_map(
                s,
            )[k].expires_at <= entries_map(s)[j].expires_at by {
                let a = choose|a: int| 0 <= a < entry_keys(s).len() && entry_keys(s)[a] == j;
                lemma_map_at(s, a);
            }
            lemma_map_remove(s, best as int);
            lemma_map_len(s.remove(best as int));
        }
        let mut entries = Vec::new();
        std::mem::swap(&mut entries, &mut self.entries);
        entries.remove(best);
        self.entries = entries;
    }

    /// Keeps `flow` under `key`, in place of any flow there.
    fn put(&mut self, key: [u8; 32], flow: PendingAuthorization)
        requires
            old(self)@.len() < MAX_PENDING_AUTHORIZATIONS || old(self)@.contains_key(key@),
        ensures
            final(self)@ == old(self)@.insert(key@, flow@),
    {
        proof {
            use_type_invariant(&*self);
            lemma_map_len(self.entries@);
        }
        let ghost s = self.entries@;
        let pos = self.index_of(&key);
        let mut entries = Vec::new();
        std::mem::swap(&mut entries, &mut self.entries);
        let entry = FlowEntry { key, flow };
        match pos {
            Some(idx) => {
                proof {
                    lemma_map_remove(s, idx as int);
                    lemma_map_len(s.remove(idx as int));
                    assert forall|j: int| 0 <= j < s.len() - 1 implies s.remove(idx as int)[j].key@ != key@ by {
                        let j2 = if j < idx {
                            j
                        } else {
                            j + 1
                        };
                        assert(entry_keys(s)[j2] != entry_keys(s)[idx as int]);
                    }
                }
                entries.remove(idx);
            },
            None => {
                proof {
                    lemma_map_absent(s, key@);
                }
            },
        }
        proof {
            lemma_map_push(entries@, entry);
            lemma_map_len(entries@.push(entry));
        }
        entries.push(entry);
        proof {
            assert(entries_map(entries@) =~= entries_map(s).insert(key@, entry.flow@));
        }
        self.entries = entries;
    }

    /// Registers the flow of the CSRF token `csrf` at `now`: the expired
    /// flows are dropped, then, if the store is full and has no flow for
    /// `csrf`, one that expires first; the flow waits for the flow lifetime.
    pub fn register(
        &mut self,
        csrf: &str,
        request: AuthorizationRequest,
        client_name: String,
        now: u64,
    )
        requires
            now + AUTHORIZATION_FLOW_LIFETIME_MILLIS <= u64::MAX,
        ensures
            registered(
                old(self)@,
                flow_key(csrf@),
                PendingFlowView {
                    request: request@,
                    client_name: client_name@,
                    expires_at: (now + AUTHORIZATION_FLOW_LIFETIME_MILLIS) as u64,
                },
                now,
                final(self)@,
            ),
    {
        self.prune(now);
        let ghost live = self@;
        let key = csrf_digest(csrf);
        let full = self.len() >= MAX_PENDING_AUTHORIZATIONS;
        let present = self.index_of(&key).is_some();
        proof {
            use_type_invariant(&*self);
            if present {
                let i = choose|i: int| 0 <= i < self.entries@.len() && self.entries@[i].key@ == key@;
                lemma_map_at(self.entries@, i);
            } else {
                lemma_map_absent(self.entries@, key@);
            }
        }
        if full && !present {
            self.evict_oldest();
        }
        let flow = PendingAuthorization {
            request,
            client_name,
            expires_at: now + AUTHORIZATION_FLOW_LIFETIME_MILLIS,
        };
        self.put(key, flow);
    }

    /// The flow of the CSRF token `csrf`, if it waits at `now`; the expired
    /// flows are dropped.
    pub fn pending_authorization(&mut self, csrf: &str, now: u64) -> (res: Option<
        PendingAuthorization,
    >)
        ensures
            final(self)@ == live_flows(old(self)@, now),
            match res {
                Some(f) => final(self)@.contains_key(flow_key(csrf@)) && f@ == final(self)@[flow_key(csrf@)],
                None => !final(self)@.contains_key(flow_key(csrf@)),
            },
    {
        self.prune(now);
        let key = csrf_digest(csrf);
        proof {
            use_type_invariant(&*self);
        }
        match self.index_of(&key) {
            Some(i) => {
                proof {
                    lemma_map_at(self.entries@, i as int);
                }
                Some(copy_flow(&self.entries[i].flow))
            },
            None => {
                proof {
                    lemma_map_absent(self.entries@, key@);
                }
                None
            },
        }
    }

    /// Takes out the flow of the CSRF token `csrf` when it still waits at
    /// `now` and authorizes exactly `request`; otherwise leaves the store
    /// as it is and gives `None`.
    pub fn consume(&mut self, csrf: &str, request: &AuthorizationRequest, now: u64) -> (res: Option<
        PendingAuthorization,
    >)
        ensures
            ({
                let (taken, after) = consumed(old(self)@, flow_key(csrf@), request@, now);
                &&& final(self)@ == after
                &&& match res {
                    Some(f) => taken == Some(f@),
                    None => taken is None,
                }
            }),
    {
        let key = csrf_digest(csrf);
        proof {
            use_type_invariant(&*self);
        }
        let ghost s = self.entries@;
        match self.index_of(&key) {
            Some(i) => {
                proof {
                    lemma_map_at(s, i as int);
                }
                if self.entries[i].flow.expires_at > now && requests_equal(
                    &self.entries[i].flow.request,
                    request,
                ) {
                    proof {
                        lemma_map_remove(s, i as int);
                        lemma_map_len(s.remove(i as int));
                    }
                    let mut entries = Vec::new();
                    std::mem::swap(&mut entries, &mut self.entries);
                    let entry = entries.remove(i);
                    self.entries = entries;
                    Some(entry.flow)
                } else {
                    None
                }
            },
            None => {
                proof {
                    lemma_map_absent(s, key@);
                }
                None
            },
        }
    }
}

} // verus!
