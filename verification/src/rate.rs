//! Sliding-window rate limits, kept per kind of request and client address.
//!
//! Each bucket holds its window and the instants of the hits it counts, in
//! milliseconds of a monotonic clock, oldest first. Before every use the
//! hits that have aged out of their own bucket's window are dropped, and
//! empty buckets with them; at most `MAX_RATE_ENTRIES` buckets are kept,
//! and when there are more, the surplus is dropped.

use vstd::prelude::*;

use crate::keyed::{
    keyed_map, keys_of, lemma_keyed_absent, lemma_keyed_at, lemma_keyed_empty, lemma_keyed_len,
    lemma_keyed_push, lemma_keyed_take, lemma_keyed_update, trimmed_to,
};
use crate::net::IpAddress;

verus! {

/// How many buckets are kept at most.
pub const MAX_RATE_ENTRIES: usize = 8192;

/// The kinds of request that are limited.
#[derive(Debug, Clone, Copy, PartialEq, Eq, Structural, Hash)]
pub enum RateKind {
    CodeLookup,
    ParticipantCreation,
    AdminLoginFailure,
    AgentAuthFailure,
}

/// The key of a bucket.
pub type RateKey = (RateKind, IpAddress);

/// A bucket: its window and the instants of its hits.
pub type BucketView = (u64, Seq<u64>);

/// Whether the hit at `hit` has aged out of `window` at `now` (a hit after
/// `now` has age zero).
pub open spec fn aged_out(hit: u64, window: u64, now: u64) -> bool {
    (if now >= hit {
        now - hit
    } else {
        0
    }) >= window
}

/// The hits left once the oldest are dropped while they have aged out.
pub open spec fn fresh_hits(hits: Seq<u64>, window: u64, now: u64) -> Seq<u64>
    decreases hits.len(),
{
    if hits.len() > 0 && aged_out(hits[0], window, now) {
        fresh_hits(hits.drop_first(), window, now)
    } else {
        hits
    }
}

/// The buckets of `m` with their aged-out hits dropped, and without those
/// left empty.
pub open spec fn pruned_buckets(m: Map<RateKey, BucketView>, now: u64) -> Map<RateKey, BucketView> {
    Map::new(
        |k: RateKey| m.contains_key(k) && fresh_hits(m[k].1, m[k].0, now).len() > 0,
        |k: RateKey| (m[k].0, fresh_hits(m[k].1, m[k].0, now)),
    )
}

/// The bucket under `key` in `p`, or a new empty one with `window`.
pub open spec fn bucket_or_new(p: Map<RateKey, BucketView>, key: RateKey, window: u64) -> BucketView {
    if p.contains_key(key) {
        p[key]
    } else {
        (window, Seq::empty())
    }
}

/// Whether `after` is what counting a hit at `now` under `key` makes of the
/// pruned buckets `p`: the hit is added to the bucket (a new one with
/// `window` if there is none), and the surplus buckets are dropped.
pub open spec fn hit_recorded(
    p: Map<RateKey, BucketView>,
    key: RateKey,
    window: u64,
    now: u64,
    after: Map<RateKey, BucketView>,
) -> bool {
    let b = bucket_or_new(p, key, window);
    trimmed_to(p.insert(key, (b.0, b.1.push(now))), after, MAX_RATE_ENTRIES as nat)
}

/// Whether `res` and `after` are what asking to pass under `key` with
/// `limit` makes of the pruned buckets `p`: a bucket that already counts
/// `limit` hits refuses (it stays, new and empty if there was none);
/// otherwise the hit is counted and the request passes.
pub open spec fn pass_decided(
    p: Map<RateKey, BucketView>,
    key: RateKey,
    limit: usize,
    window: u64,
    now: u64,
    res: bool,
    after: Map<RateKey, BucketView>,
) -> bool {
    let b = bucket_or_new(p, key, window);
    if b.1.len() >= limit {
        !res && after == p.insert(key, b)
    } else {
        res && hit_recorded(p, key, window, now, after)
    }
}

struct Bucket {
    window: u64,
    hits: Vec<u64>,
}

impl View for Bucket {
    type V = BucketView;

    closed spec fn view(&self) -> BucketView {
        (self.window, self.hits@)
    }
}

/// The rate limits of the server.
pub struct RateLimiter {
    buckets: Vec<(RateKey, Bucket)>,
}

spec fn bucket_views(s: Seq<(RateKey, Bucket)>) -> Seq<(RateKey, BucketView)> {
    s.map_values(|e: (RateKey, Bucket)| (e.0, e.1@))
}

impl RateLimiter {
    #[verifier::type_invariant]
    spec fn keys_unique(self) -> bool {
        keys_of(bucket_views(self.buckets@)).no_duplicates()
    }
}

impl View for RateLimiter {
    /// Each bucket under its key.
    type V = Map<RateKey, BucketView>;

    closed spec fn view(&self) -> Map<RateKey, BucketView> {
        keyed_map(bucket_views(self.buckets@))
    }
}

/// The index from which the hits of `hits` are fresh.
fn fresh_start(hits: &Vec<u64>, window: u64, now: u64) -> (res: usize)
    ensures
        res <= hits@.len(),
        fresh_hits(hits@, window, now) == hits@.subrange(res as int, hits@.len() as int),
{
    let mut j: usize = 0;
    assert(hits@.subrange(0, hits@.len() as int) =~= hits@);
    while j < hits.len()
        invariant
            j <= hits@.len(),
            fresh_hits(hits@, window, now) == fresh_hits(
                hits@.subrange(j as int, hits@.len() as int),
                window,
                now,
            ),
        decreases hits@.len() - j,
    {
        let h = hits[j];
        let age = if now >= h {
            now - h
        } else {
            0
        };
        let ghost rest = hits@.subrange(j as int, hits@.len() as int);
        assert(rest[0] == h);
        if age < window {
            return j;
        }
        assert(rest.drop_first() =~= hits@.subrange(j + 1, hits@.len() as int));
        j += 1;
    }
    j
}

/// The hits of `hits` from `start` on.
fn hits_from(hits: &Vec<u64>, start: usize) -> (res: Vec<u64>)
    requires
        start <= hits@.len(),
    ensures
        res@ == hits@.subrange(start as int, hits@.len() as int),
{
    let mut res: Vec<u64> = Vec::new();
    let mut k: usize = start;
    while k < hits.len()
        invariant
            start <= k <= hits@.len(),
            res@ == hits@.subrange(start as int, k as int),
        decreases hits@.len() - k,
    {
        res.push(hits[k]);
        assert(hits@.subrange(start as int, k + 1) =~= hits@.subrange(start as int, k as int).push(
            hits@[k as int],
        ));
        k += 1;
    }
    res
}

proof fn lemma_views_push(s: Seq<(RateKey, Bucket)>, e: (RateKey, Bucket))
    ensures
        bucket_views(s.push(e)) == bucket_views(s).push((e.0, e.1@)),
{
    assert(bucket_views(s.push(e)) =~= bucket_views(s).push((e.0, e.1@)));
}

impl RateLimiter {
    /// No buckets.
    pub fn new() -> (res: Self)
        ensures
            res@ == Map::<RateKey, BucketView>::empty(),
    {
        proof {
            lemma_keyed_empty::<RateKey, BucketView>();
            assert(bucket_views(Seq::<(RateKey, Bucket)>::empty()) =~= Seq::<
                (RateKey, BucketView),
            >::empty());
        }
        RateLimiter { buckets: Vec::new() }
    }

    /// How many hits the bucket of `kind` and `ip` counts now, without
    /// pruning.
    pub fn hit_count(&self, kind: RateKind, ip: IpAddress) -> (res: usize)
        ensures
            res == if self@.contains_key((kind, ip)) {
                self@[(kind, ip)].1.len()
            } else {
                0
            },
    {
        proof {
            use_type_invariant(self);
        }
        match self.position(kind, ip) {
            Some(i) => {
                proof {
                    lemma_keyed_at(bucket_views(self.buckets@), i as int);
                }
                self.buckets[i].1.hits.len()
            },
            None => {
                proof {
                    lemma_keyed_absent(bucket_views(self.buckets@), (kind, ip));
                }
                0
            },
        }
    }

    /// The index of the bucket of `kind` and `ip`, if there is one.
    fn position(&self, kind: RateKind, ip: IpAddress) -> (res: Option<usize>)
        ensures
            match res {
                Some(i) => i < self.buckets@.len() && bucket_views(self.buckets@)[i as int].0 == (
                    kind,
                    ip,
                ),
                None => forall|i: int|
                    0 <= i < self.buckets@.len() ==> bucket_views(self.buckets@)[i].0 != (kind, ip),
            },
    {
        let mut i: usize = 0;
        while i < self.buckets.len()
            invariant
                i <= self.buckets@.len(),
                forall|k: int| 0 <= k < i ==> bucket_views(self.buckets@)[k].0 != (kind, ip),
            decreases self.buckets@.len() - i,
        {
            if self.buckets[i].0.0 == kind && self.buckets[i].0.1 == ip {
                return Some(i);
            }
            i += 1;
        }
        None
    }

    /// Drops the surplus buckets.
    fn enforce_bound(&mut self)
        ensures
            trimmed_to(old(self)@, final(self)@, MAX_RATE_ENTRIES as nat),
    {
        proof {
            use_type_invariant(&*self);
        }
        let ghost s = bucket_views(self.buckets@);
        proof {
            lemma_keyed_len(s);
        }
        if self.buckets.len() > MAX_RATE_ENTRIES {
            let mut buckets = Vec::new();
            std::mem::swap(&mut buckets, &mut self.buckets);
            buckets.truncate(MAX_RATE_ENTRIES);
            proof {
                assert(bucket_views(buckets@) =~= s.take(MAX_RATE_ENTRIES as int));
                lemma_keyed_take(s, MAX_RATE_ENTRIES as int);
                lemma_keyed_len(s.take(MAX_RATE_ENTRIES as int));
            }
            self.buckets = buckets;
        }
    }

    /// Drops the hits that have aged out at `now`, the buckets left empty,
    /// and the surplus buckets.
    fn prune(&mut self, now: u64)
        ensures
            trimmed_to(pruned_buckets(old(self)@, now), final(self)@, MAX_RATE_ENTRIES as nat),
    {
        proof {
            use_type_invariant(&*self);
        }
        let ghost s = bucket_views(self.buckets@);
        let mut kept: Vec<(RateKey, Bucket)> = Vec::new();
        proof {
            lemma_keyed_empty::<RateKey, BucketView>();
            assert(bucket_views(kept@) =~= Seq::<(RateKey, BucketView)>::empty());
            assert(s.take(0) =~= Seq::<(RateKey, BucketView)>::empty());
            assert(pruned_buckets(keyed_map(s.take(0)), now) =~= Map::<
                RateKey,
                BucketView,
            >::empty());
        }
        let mut i: usize = 0;
        while i < self.buckets.len()
            invariant
                i <= s.len(),
                s == bucket_views(self.buckets@),
                keys_of(s).no_duplicates(),
                keys_of(bucket_views(kept@)).no_duplicates(),
                forall|a: int|
                    0 <= a < kept@.len() ==> exists|b: int|
                        0 <= b < i && #[trigger] bucket_views(kept@)[a].0 == s[b].0,
                keyed_map(bucket_views(kept@)) == pruned_buckets(keyed_map(s.take(i as int)), now),
            decreases s.len() - i,
        {
            let ghost before = kept@;
            let ghost m = keyed_map(s.take(i as int));
            let ghost e = s[i as int];
            proof {
                assert(keys_of(s.take(i as int)).no_duplicates()) by {
                    assert forall|a: int, b: int|
                        0 <= a < i && 0 <= b < i && a != b implies keys_of(s.take(i as int))[a]
                        != keys_of(s.take(i as int))[b] by {
                        assert(keys_of(s)[a] != keys_of(s)[b]);
                    }
                }
                assert forall|b: int| 0 <= b < i implies s.take(i as int)[b].0 != e.0 by {
                    assert(keys_of(s)[b] != keys_of(s)[i as int]);
                }
                assert(s.take(i + 1) =~= s.take(i as int).push(e));
                lemma_keyed_push(s.take(i as int), e);
                lemma_keyed_absent(s.take(i as int), e.0);
            }
            let window = self.buckets[i].1.window;
            let start = fresh_start(&self.buckets[i].1.hits, window, now);
            if start < self.buckets[i].1.hits.len() {
                let fresh = hits_from(&self.buckets[i].1.hits, start);
                let entry = (self.buckets[i].0, Bucket { window, hits: fresh });
                proof {
                    assert forall|a: int| 0 <= a < before.len() implies bucket_views(before)[a].0
                        != entry.0 by {
                        let b = choose|b: int|
                            0 <= b < i && #[trigger] bucket_views(before)[a].0 == s[b].0;
                        assert(keys_of(s)[b] != keys_of(s)[i as int]);
                    }
                    lemma_views_push(before, entry);
                    lemma_keyed_push(bucket_views(before), (entry.0, entry.1@));
                }
                kept.push(entry);
                proof {
                    assert(pruned_buckets(m.insert(e.0, e.1), now) =~= pruned_buckets(
                        m,
                        now,
                    ).insert(e.0, (e.1.0, fresh_hits(e.1.1, e.1.0, now))));
                    assert forall|a: int| 0 <= a < kept@.len() implies exists|b: int|
                        0 <= b < i + 1 && #[trigger] bucket_views(kept@)[a].0 == s[b].0 by {
                        if a < before.len() {
                            assert(bucket_views(kept@)[a] == bucket_views(before)[a]);
                        } else {
                            assert(bucket_views(kept@)[a].0 == s[i as int].0);
                        }
                    }
                }
            } else {
                proof {
                    assert(pruned_buckets(m.insert(e.0, e.1), now) =~= pruned_buckets(m, now));
                }
            }
            i += 1;
        }
        proof {
            assert(s.take(s.len() as int) =~= s);
        }
        self.buckets = kept;
        self.enforce_bound();
    }

    /// Adds a hit at `now` to the bucket at `idx`.
    fn push_hit(&mut self, idx: usize, now: u64)
        requires
            idx < old(self).buckets@.len(),
        ensures
            ({
                let k = bucket_views(old(self).buckets@)[idx as int].0;
                let b = old(self)@[k];
                &&& old(self)@.contains_key(k)
                &&& final(self)@ == old(self)@.insert(k, (b.0, b.1.push(now)))
            }),
    {
        proof {
            use_type_invariant(&*self);
        }
        let ghost s = bucket_views(self.buckets@);
        proof {
            lemma_keyed_at(s, idx as int);
        }
        let mut buckets = Vec::new();
        std::mem::swap(&mut buckets, &mut self.buckets);
        let (key, mut bucket) = buckets.remove(idx);
        bucket.hits.push(now);
        buckets.insert(idx, (key, bucket));
        proof {
            assert(bucket_views(buckets@) =~= s.update(idx as int, (s[idx as int].0, bucket@)));
            lemma_keyed_update(s, idx as int, bucket@);
        }
        self.buckets = buckets;
    }

    /// The index of the bucket of `key`, made new and empty with `window`
    /// when there is none.
    fn bucket_for(&mut self, kind: RateKind, ip: IpAddress, window: u64) -> (res: usize)
        ensures
            res < final(self).buckets@.len(),
            bucket_views(final(self).buckets@)[res as int].0 == (kind, ip),
            final(self)@ == old(self)@.insert((kind, ip), bucket_or_new(old(self)@, (kind, ip), window)),
            final(self)@[(kind, ip)] == bucket_or_new(old(self)@, (kind, ip), window),
    {
        proof {
            use_type_invariant(&*self);
        }
        let ghost s = bucket_views(self.buckets@);
        match self.position(kind, ip) {
            Some(i) => {
                proof {
                    lemma_keyed_at(s, i as int);
                    assert(self@.insert((kind, ip), self@[(kind, ip)]) =~= self@);
                }
                i
            },
            None => {
                let entry = ((kind, ip), Bucket { window, hits: Vec::new() });
                proof {
                    lemma_keyed_absent(s, (kind, ip));
                    lemma_views_push(self.buckets@, entry);
                    lemma_keyed_push(s, (entry.0, entry.1@));
                    assert(entry.1@ == (window, Seq::<u64>::empty()));
                }
                let mut buckets = Vec::new();
                std::mem::swap(&mut buckets, &mut self.buckets);
                buckets.push(entry);
                let n = buckets.len() - 1;
                self.buckets = buckets;
                n
            },
        }
    }

    /// Whether a request of `kind` from `ip` would pass under `limit`:
    /// after pruning at `now`, its bucket counts fewer than `limit` hits.
    pub fn available(&mut self, kind: RateKind, ip: IpAddress, limit: usize, now: u64) -> (res:
        bool)
        ensures
            trimmed_to(pruned_buckets(old(self)@, now), final(self)@, MAX_RATE_ENTRIES as nat),
            res == (!final(self)@.contains_key((kind, ip)) || final(self)@[(kind, ip)].1.len()
                < limit),
    {
        self.prune(now);
        proof {
            use_type_invariant(&*self);
        }
        match self.position(kind, ip) {
            Some(i) => {
                proof {
                    lemma_keyed_at(bucket_views(self.buckets@), i as int);
                    assert(self.buckets[i as int].1@ == bucket_views(self.buckets@)[i as int].1);
                }
                self.buckets[i].1.hits.len() < limit
            },
            None => {
                proof {
                    lemma_keyed_absent(bucket_views(self.buckets@), (kind, ip));
                }
                true
            },
        }
    }

    /// Whether a request of `kind` from `ip` passes under `limit` in
    /// `window` at `now`, counting it when it does.
    pub fn allowed(&mut self, kind: RateKind, ip: IpAddress, limit: usize, window: u64, now: u64) -> (res:
        bool)
        ensures
            exists|p: Map<RateKey, BucketView>|
                trimmed_to(pruned_buckets(old(self)@, now), p, MAX_RATE_ENTRIES as nat)
                    && pass_decided(p, (kind, ip), limit, window, now, res, final(self)@),
    {
        self.prune(now);
        let ghost p = self@;
        let idx = self.bucket_for(kind, ip, window);
        proof {
            use_type_invariant(&*self);
            lemma_keyed_at(bucket_views(self.buckets@), idx as int);
            assert(self.buckets[idx as int].1@ == bucket_views(self.buckets@)[idx as int].1);
        }
        let ghost b = bucket_or_new(p, (kind, ip), window);
        let ghost q = self@;
        if self.buckets[idx].1.hits.len() >= limit {
            return false;
        }
        self.push_hit(idx, now);
        proof {
            assert(self@ =~= p.insert((kind, ip), (b.0, b.1.push(now))));
        }
        self.enforce_bound();
        true
    }

    /// Counts a hit of `kind` from `ip` at `now`, in a bucket with `window`
    /// if there is none.
    pub fn record(&mut self, kind: RateKind, ip: IpAddress, window: u64, now: u64)
        ensures
            exists|p: Map<RateKey, BucketView>|
                trimmed_to(pruned_buckets(old(self)@, now), p, MAX_RATE_ENTRIES as nat)
                    && hit_recorded(p, (kind, ip), window, now, final(self)@),
    {
        self.prune(now);
        let ghost p = self@;
        let idx = self.bucket_for(kind, ip, window);
        let ghost b = bucket_or_new(p, (kind, ip), window);
        proof {
            use_type_invariant(&*self);
            lemma_keyed_at(bucket_views(self.buckets@), idx as int);
        }
        self.push_hit(idx, now);
        proof {
            assert(self@ =~= p.insert((kind, ip), (b.0, b.1.push(now))));
        }
        self.enforce_bound();
    }
}

} // verus!
