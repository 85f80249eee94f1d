//! The queue of bots waiting for a ranked match.
//!
//! Bots are matched four at a time, first come first served. When a bot
//! joins and four are waiting while a match slot is free, they start at
//! once; otherwise a fill timer is started, which starts whoever waits when
//! it fires. Each start of the timer gets a new generation, and a timer
//! that fires with an old generation does nothing. `B` is what the server
//! keeps for a waiting bot.

use vstd::prelude::*;

verus! {

/// A waiting bot: its ticket, its token and what the server keeps for it.
pub struct QueuedBot<B> {
    pub ticket: u64,
    pub token_id: String,
    pub payload: B,
}

/// How many bots a ranked match takes.
pub const RANKED_BATCH: usize = 4;

/// The ranked queue and its fill timer.
pub struct RankedQueue<B> {
    queue: Vec<QueuedBot<B>>,
    next_ticket: u64,
    timer_running: bool,
    timer_generation: u64,
    shutting_down: bool,
}

/// `g + 1`, held at the largest value.
pub open spec fn saturating_next(g: u64) -> u64 {
    if g == u64::MAX {
        g
    } else {
        (g + 1) as u64
    }
}

/// What joining the queue led to.
pub enum Enqueued<B> {
    /// Four bots were taken to start a match now.
    Batch(Vec<QueuedBot<B>>),
    /// The fill timer was started with this generation, or was left alone.
    Timer(Option<u64>),
}

/// What a firing fill timer led to.
pub enum Filled<B> {
    /// The timer was of an old generation and did nothing.
    Stale,
    /// Nobody waits; the timer stopped.
    Idle,
    /// No match may start now; the timer stopped and its generation moved.
    Blocked,
    /// These bots were taken to start a match.
    Batch(Vec<QueuedBot<B>>),
}

impl<B> RankedQueue<B> {
    /// The waiting bots, first come first.
    pub closed spec fn queue(&self) -> Seq<QueuedBot<B>> {
        self.queue@
    }

    /// The ticket the next bot gets.
    pub closed spec fn next_ticket(&self) -> u64 {
        self.next_ticket
    }

    /// Whether a fill timer is running.
    pub closed spec fn timer_running(&self) -> bool {
        self.timer_running
    }

    /// The generation of the latest fill timer.
    pub closed spec fn timer_generation(&self) -> u64 {
        self.timer_generation
    }

    /// Whether the queue is shut.
    pub closed spec fn shutting_down(&self) -> bool {
        self.shutting_down
    }

    /// An empty queue; the first ticket is 1.
    pub fn new() -> (res: Self)
        ensures
            res.queue().len() == 0,
            res.next_ticket() == 1,
            !res.timer_running(),
            res.timer_generation() == 0,
            !res.shutting_down(),
    {
        RankedQueue {
            queue: Vec::new(),
            next_ticket: 1,
            timer_running: false,
            timer_generation: 0,
            shutting_down: false,
        }
    }

    /// A queue in a given state.
    pub fn from_parts(
        queue: Vec<QueuedBot<B>>,
        next_ticket: u64,
        timer_running: bool,
        timer_generation: u64,
        shutting_down: bool,
    ) -> (res: Self)
        ensures
            res.queue() == queue@,
            res.next_ticket() == next_ticket,
            res.timer_running() == timer_running,
            res.timer_generation() == timer_generation,
            res.shutting_down() == shutting_down,
    {
        RankedQueue { queue, next_ticket, timer_running, timer_generation, shutting_down }
    }

    /// How many bots wait.
    pub fn len(&self) -> (res: usize)
        ensures
            res == self.queue().len(),
    {
        self.queue.len()
    }

    /// Whether a fill timer is running.
    pub fn is_timer_running(&self) -> (res: bool)
        ensures
            res == self.timer_running(),
    {
        self.timer_running
    }

    /// The generation of the latest fill timer.
    pub fn generation(&self) -> (res: u64)
        ensures
            res == self.timer_generation(),
    {
        self.timer_generation
    }

    /// Starts the fill timer, unless the queue is shut or empty, no match
    /// slot is free, or a timer already runs; the new timer's generation is
    /// given back.
    pub fn start_ranked_timer(&mut self, active_matches: usize, max_active: usize) -> (res: Option<u64>)
        ensures
            final(self).queue() == old(self).queue(),
            final(self).next_ticket() == old(self).next_ticket(),
            final(self).shutting_down() == old(self).shutting_down(),
            if old(self).shutting_down() || old(self).queue().len() == 0 || active_matches
                >= max_active || old(self).timer_running() {
                res is None && final(self).timer_running() == old(self).timer_running()
                    && final(self).timer_generation() == old(self).timer_generation()
            } else {
                final(self).timer_running() && final(self).timer_generation() == saturating_next(
                    old(self).timer_generation(),
                ) && res == Some(final(self).timer_generation())
            },
    {
        if self.shutting_down || self.queue.len() == 0 || active_matches >= max_active
            || self.timer_running {
            return None;
        }
        self.timer_running = true;
        self.timer_generation = self.timer_generation.saturating_add(1);
        Some(self.timer_generation)
    }

    /// Stops a running fill timer; its generation moves on so that it does
    /// nothing when it fires.
    pub fn cancel_ranked_timer(&mut self)
        ensures
            final(self).queue() == old(self).queue(),
            final(self).next_ticket() == old(self).next_ticket(),
            final(self).shutting_down() == old(self).shutting_down(),
            !final(self).timer_running(),
            final(self).timer_generation() == if old(self).timer_running() {
                saturating_next(old(self).timer_generation())
            } else {
                old(self).timer_generation()
            },
    {
        if self.timer_running {
            self.timer_running = false;
            self.timer_generation = self.timer_generation.saturating_add(1);
        }
    }

    /// Takes the first four waiting bots, or all of them when fewer wait.
    pub fn drain_batch(&mut self) -> (res: Vec<QueuedBot<B>>)
        ensures
            ({
                let n = if old(self).queue().len() < RANKED_BATCH {
                    old(self).queue().len() as int
                } else {
                    RANKED_BATCH as int
                };
                &&& res@ == old(self).queue().take(n)
                &&& final(self).queue() == old(self).queue().skip(n)
            }),
            final(self).next_ticket() == old(self).next_ticket(),
            final(self).timer_running() == old(self).timer_running(),
            final(self).timer_generation() == old(self).timer_generation(),
            final(self).shutting_down() == old(self).shutting_down(),
    {
        let ghost q = self.queue@;
        let n: usize = if self.queue.len() < RANKED_BATCH {
            self.queue.len()
        } else {
            RANKED_BATCH
        };
        let mut batch = self.queue.split_off(n);
        std::mem::swap(&mut batch, &mut self.queue);
        proof {
            assert(batch@ =~= q.take(n as int));
            assert(self.queue@ =~= q.skip(n as int));
        }
        batch
    }

    /// A bot with `token_id` joins: refused, handing `payload` back, when
    /// the queue or the server is shutting down or `max_queue` bots wait.
    /// Otherwise it gets the next ticket; then, with four waiting and a
    /// match slot free, the first four are taken to start, and else the
    /// fill timer is started if it may be.
    pub fn enqueue(
        &mut self,
        token_id: String,
        payload: B,
        max_queue: usize,
        server_shutting_down: bool,
        active_matches: usize,
        max_active: usize,
    ) -> (res: Result<(u64, Enqueued<B>), B>)
        ensures
            old(self).shutting_down() || server_shutting_down || old(self).queue().len() >= max_queue
                ==> (res is Err && final(self).queue() == old(self).queue() && final(self).next_ticket()
                == old(self).next_ticket() && final(self).timer_running() == old(self).timer_running()
                && final(self).timer_generation() == old(self).timer_generation()),
            !(old(self).shutting_down() || server_shutting_down || old(self).queue().len()
                >= max_queue) ==> ({
                let joined = old(self).queue().push(
                    QueuedBot { ticket: old(self).next_ticket(), token_id, payload },
                );
                &&& res matches Ok((t, e)) && t == old(self).next_ticket()
                &&& final(self).next_ticket() == saturating_next(old(self).next_ticket())
                &&& if joined.len() >= RANKED_BATCH && active_matches < max_active {
                    &&& res matches Ok((_, Enqueued::Batch(b))) && b@ == joined.take(
                        RANKED_BATCH as int,
                    )
                    &&& final(self).queue() == joined.skip(RANKED_BATCH as int)
                    &&& !final(self).timer_running()
                } else {
                    &&& res matches Ok((_, Enqueued::Timer(g)))
                    &&& final(self).queue() == joined
                    &&& (g is Some ==> final(self).timer_running() && g == Some(
                        final(self).timer_generation(),
                    ))
                }
            }),
            final(self).shutting_down() == old(self).shutting_down(),
    {
        if self.shutting_down || server_shutting_down || self.queue.len() >= max_queue {
            return Err(payload);
        }
        let ticket = self.next_ticket;
        self.next_ticket = self.next_ticket.saturating_add(1);
        self.queue.push(QueuedBot { ticket, token_id, payload });
        if self.queue.len() >= RANKED_BATCH && active_matches < max_active {
            self.cancel_ranked_timer();
            let batch = self.drain_batch();
            Ok((ticket, Enqueued::Batch(batch)))
        } else {
            let g = self.start_ranked_timer(active_matches, max_active);
            Ok((ticket, Enqueued::Timer(g)))
        }
    }

    /// The ticket of a bot that asks for a validation match, which starts
    /// at once; `None` when the queue or the server is shutting down or no
    /// match slot is free.
    pub fn validation_ticket(
        &mut self,
        server_shutting_down: bool,
        active_matches: usize,
        max_active: usize,
    ) -> (res: Option<u64>)
        ensures
            final(self).queue() == old(self).queue(),
            final(self).timer_running() == old(self).timer_running(),
            final(self).timer_generation() == old(self).timer_generation(),
            final(self).shutting_down() == old(self).shutting_down(),
            if old(self).shutting_down() || server_shutting_down || active_matches >= max_active {
                res is None && final(self).next_ticket() == old(self).next_ticket()
            } else {
                res == Some(old(self).next_ticket()) && final(self).next_ticket() == saturating_next(
                    old(self).next_ticket(),
                )
            },
    {
        if self.shutting_down || server_shutting_down || active_matches >= max_active {
            return None;
        }
        let ticket = self.next_ticket;
        self.next_ticket = self.next_ticket.saturating_add(1);
        Some(ticket)
    }

    /// What the fill timer of `generation` does when it fires: nothing if
    /// a newer timer was started; with nobody waiting it stops; with the
    /// server shutting down or no match slot free it stops and its
    /// generation moves on; otherwise it stops and takes the first four
    /// waiting bots.
    pub fn fill_ranked(
        &mut self,
        generation: u64,
        server_shutting_down: bool,
        active_matches: usize,
        max_active: usize,
    ) -> (res: Filled<B>)
        ensures
            final(self).next_ticket() == old(self).next_ticket(),
            final(self).shutting_down() == old(self).shutting_down(),
            old(self).timer_generation() != generation ==> (res is Stale && final(self).queue()
                == old(self).queue() && final(self).timer_running() == old(self).timer_running()
                && final(self).timer_generation() == old(self).timer_generation()),
            old(self).timer_generation() == generation ==> !final(self).timer_running(),
            old(self).timer_generation() == generation && old(self).queue().len() == 0 ==> (res is Idle
                && final(self).queue() == old(self).queue() && final(self).timer_generation()
                == old(self).timer_generation()),
            old(self).timer_generation() == generation && old(self).queue().len() > 0 && (
            server_shutting_down || active_matches >= max_active) ==> (res is Blocked
                && final(self).queue() == old(self).queue() && final(self).timer_generation()
                == saturating_next(old(self).timer_generation())),
            old(self).timer_generation() == generation && old(self).queue().len() > 0
                && !server_shutting_down && active_matches < max_active ==> ({
                let n = if old(self).queue().len() < RANKED_BATCH {
                    old(self).queue().len() as int
                } else {
                    RANKED_BATCH as int
                };
                &&& res matches Filled::Batch(b) && b@ == old(self).queue().take(n)
                &&& final(self).queue() == old(self).queue().skip(n)
                &&& final(self).timer_generation() == old(self).timer_generation()
            }),
    {
        if self.timer_generation != generation {
            return Filled::Stale;
        }
        if self.queue.len() == 0 {
            self.timer_running = false;
            Filled::Idle
        } else if server_shutting_down || active_matches >= max_active {
            self.timer_running = false;
            self.timer_generation = self.timer_generation.saturating_add(1);
            Filled::Blocked
        } else {
            self.timer_running = false;
            Filled::Batch(self.drain_batch())
        }
    }

    /// A waiting bot gives up: the first bot with `ticket` leaves, and the
    /// timer stops when nobody is left.
    pub fn cancel_waiting(&mut self, ticket: u64) -> (res: Option<QueuedBot<B>>)
        ensures
            final(self).next_ticket() == old(self).next_ticket(),
            final(self).shutting_down() == old(self).shutting_down(),
            match res {
                Some(b) => exists|i: int|
                    0 <= i < old(self).queue().len() && old(self).queue()[i] == b && b.ticket == ticket
                        && (forall|j: int| 0 <= j < i ==> old(self).queue()[j].ticket != ticket)
                        && final(self).queue() == old(self).queue().remove(i),
                None => (forall|j: int|
                    0 <= j < old(self).queue().len() ==> old(self).queue()[j].ticket != ticket)
                    && final(self).queue() == old(self).queue(),
            },
            final(self).queue().len() == 0 ==> !final(self).timer_running(),
            final(self).queue().len() != 0 ==> (final(self).timer_running() == old(
                self,
            ).timer_running() && final(self).timer_generation() == old(self).timer_generation()),
    {
        let mut i: usize = 0;
        while i < self.queue.len()
            invariant
                i <= self.queue@.len(),
                forall|j: int| 0 <= j < i ==> self.queue@[j].ticket != ticket,
            ensures
                i <= self.queue@.len(),
                forall|j: int| 0 <= j < i ==> self.queue@[j].ticket != ticket,
                i < self.queue@.len() ==> self.queue@[i as int].ticket == ticket,
            decreases self.queue@.len() - i,
        {
            if self.queue[i].ticket == ticket {
                break;
            }
            i += 1;
        }
        let ghost q = self.queue@;
        let res = if i < self.queue.len() {
            let b = self.queue.remove(i);
            assert(q[i as int] == b);
            assert(self.queue@ == q.remove(i as int));
            Some(b)
        } else {
            None
        };
        if self.queue.len() == 0 {
            self.cancel_ranked_timer();
        }
        proof {
            if i < q.len() {
                assert(q == old(self).queue());
                assert(0 <= i < q.len() && q[i as int] == res->0 && res->0.ticket == ticket && (forall|j: int|
                    0 <= j < i ==> q[j].ticket != ticket) && self.queue() == q.remove(i as int));
            }
        }
        res
    }

    /// A token was revoked: its waiting bots leave, in order, the others
    /// keep their order, and the timer stops when nobody is left.
    pub fn revoke_waiting(&mut self, token_id: &str) -> (res: Vec<QueuedBot<B>>)
        ensures
            final(self).next_ticket() == old(self).next_ticket(),
            final(self).shutting_down() == old(self).shutting_down(),
            res@ == old(self).queue().filter(|b: QueuedBot<B>| b.token_id@ == token_id@),
            final(self).queue() == old(self).queue().filter(|b: QueuedBot<B>| b.token_id@ != token_id@),
            final(self).queue().len() == 0 ==> !final(self).timer_running(),
            final(self).queue().len() != 0 ==> (final(self).timer_running() == old(
                self,
            ).timer_running() && final(self).timer_generation() == old(self).timer_generation()),
    {
        let ghost q = self.queue@;
        let mut old_queue: Vec<QueuedBot<B>> = Vec::new();
        std::mem::swap(&mut old_queue, &mut self.queue);
        let mut waiting: Vec<QueuedBot<B>> = Vec::new();
        let mut retained: Vec<QueuedBot<B>> = Vec::new();
        let mut taken: usize = 0;
        let n = old_queue.len();
        assert(old_queue@ =~= q.skip(0));
        proof {
            assert(q.take(0).filter(|b: QueuedBot<B>| b.token_id@ == token_id@) =~= Seq::<
                QueuedBot<B>,
            >::empty());
            assert(q.take(0).filter(|b: QueuedBot<B>| b.token_id@ != token_id@) =~= Seq::<
                QueuedBot<B>,
            >::empty());
        }
        while taken < n
            invariant
                n == q.len(),
                taken <= n,
                old_queue@ == q.skip(taken as int),
                waiting@ == q.take(taken as int).filter(|b: QueuedBot<B>| b.token_id@ == token_id@),
                retained@ == q.take(taken as int).filter(|b: QueuedBot<B>| b.token_id@ != token_id@),
                self.queue@.len() == 0,
                self.next_ticket == old(self).next_ticket,
                self.shutting_down == old(self).shutting_down,
                self.timer_running == old(self).timer_running,
                self.timer_generation == old(self).timer_generation,
                q == old(self).queue@,
            decreases n - taken,
        {
            let bot = old_queue.remove(0);
            proof {
                assert(bot == q[taken as int]);
                assert(old_queue@ =~= q.skip(taken + 1));
                assert(q.take(taken + 1) =~= q.take(taken as int).push(bot));
                q.take(taken as int).lemma_filter_push(bot, |b: QueuedBot<B>| b.token_id@ == token_id@);
                q.take(taken as int).lemma_filter_push(bot, |b: QueuedBot<B>| b.token_id@ != token_id@);
            }
            if crate::text::str_eq(bot.token_id.as_str(), token_id) {
                waiting.push(bot);
            } else {
                retained.push(bot);
            }
            taken += 1;
        }
        proof {
            assert(q.take(n as int) =~= q);
        }
        self.queue = retained;
        if self.queue.len() == 0 {
            self.cancel_ranked_timer();
        }
        waiting
    }

    /// Shuts the queue: the timer stops and its generation moves on, and
    /// every waiting bot is handed back, first come first.
    pub fn shutdown(&mut self) -> (res: Vec<QueuedBot<B>>)
        ensures
            res@ == old(self).queue(),
            final(self).queue().len() == 0,
            final(self).shutting_down(),
            !final(self).timer_running(),
            final(self).timer_generation() == saturating_next(old(self).timer_generation()),
            final(self).next_ticket() == old(self).next_ticket(),
    {
        self.shutting_down = true;
        self.timer_running = false;
        self.timer_generation = self.timer_generation.saturating_add(1);
        let mut waiting: Vec<QueuedBot<B>> = Vec::new();
        std::mem::swap(&mut waiting, &mut self.queue);
        waiting
    }
}

} // verus!
