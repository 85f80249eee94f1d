//! The live socket of each participant, numbered by generation.
//!
//! Registering a participant's new socket gives it the next generation and
//! replaces any older socket, which is handed back to be closed. A socket
//! acts, and removes its registration, only while its generation is the
//! current one, so an old socket that finishes late cannot disturb its
//! replacement. Each registration also keeps the token the socket was
//! opened with (empty for humans), so that revoking a token can close its
//! sockets. `C` is the handle through which a socket is told to close.

use vstd::prelude::*;

use crate::keyed::{keyed_map, keys_of, lemma_keyed_absent, lemma_keyed_at, lemma_keyed_empty, lemma_keyed_len, lemma_keyed_push, lemma_keyed_remove};
use crate::text::str_eq;

verus! {

/// A registration: its generation and its token.
pub type RegistrationView = (u64, Seq<char>);

struct Registration<C> {
    generation: u64,
    token_id: String,
    control: C,
}

/// The live sockets, under the participant id.
pub struct ConnectionRegistry<C> {
    last_generation: u64,
    entries: Vec<(String, Registration<C>)>,
}

spec fn registration_views<C>(s: Seq<(String, Registration<C>)>) -> Seq<(Seq<char>, RegistrationView)> {
    s.map_values(|e: (String, Registration<C>)| (e.0@, (e.1.generation, e.1.token_id@)))
}

/// The generation after `g`, wrapping as `fetch_add` does.
pub open spec fn next_generation(g: u64) -> u64 {
    if g == u64::MAX {
        0
    } else {
        (g + 1) as u64
    }
}

impl<C> ConnectionRegistry<C> {
    #[verifier::type_invariant]
    spec fn keys_unique(self) -> bool {
        keys_of(registration_views(self.entries@)).no_duplicates()
    }

    /// The registrations, under the participant id.
    pub closed spec fn registrations(&self) -> Map<Seq<char>, RegistrationView> {
        keyed_map(registration_views(self.entries@))
    }

    /// The last generation handed out.
    pub closed spec fn last_generation(&self) -> u64 {
        self.last_generation
    }

    /// No sockets; the first generation handed out is 1.
    pub fn new() -> (res: Self)
        ensures
            res.registrations() == Map::<Seq<char>, RegistrationView>::empty(),
            res.last_generation() == 0,
    {
        proof {
            lemma_keyed_empty::<Seq<char>, RegistrationView>();
            assert(registration_views(Seq::<(String, Registration<C>)>::empty()) =~= Seq::<
                (Seq<char>, RegistrationView),
            >::empty());
        }
        ConnectionRegistry { last_generation: 0, entries: Vec::new() }
    }

    /// The index of the registration of `id`, if there is one.
    fn index_of(&self, id: &str) -> (res: Option<usize>)
        ensures
            match res {
                Some(i) => i < self.entries@.len() && registration_views(self.entries@)[i as int].0
                    == id@,
                None => forall|i: int|
                    0 <= i < self.entries@.len() ==> registration_views(self.entries@)[i].0 != id@,
            },
    {
        let mut i: usize = 0;
        while i < self.entries.len()
            invariant
                i <= self.entries@.len(),
                forall|k: int| 0 <= k < i ==> registration_views(self.entries@)[k].0 != id@,
            decreases self.entries@.len() - i,
        {
            if str_eq(self.entries[i].0.as_str(), id) {
                return Some(i);
            }
            i += 1;
        }
        None
    }

    /// Drops the registration at `i`, giving back its handle.
    fn take_at(&mut self, i: usize) -> (res: C)
        requires
            i < old(self).entries@.len(),
        ensures
            final(self).registrations() == old(self).registrations().remove(
                registration_views(old(self).entries@)[i as int].0,
            ),
            final(self).last_generation() == old(self).last_generation(),
            res == old(self).entries@[i as int].1.control,
    {
        proof {
            use_type_invariant(&*self);
            lemma_keyed_remove(registration_views(self.entries@), i as int);
        }
        let ghost s = self.entries@;
        let mut entries = Vec::new();
        std::mem::swap(&mut entries, &mut self.entries);
        let (_, reg) = entries.remove(i);
        proof {
            assert(registration_views(entries@) =~= registration_views(s).remove(i as int));
        }
        self.entries = entries;
        reg.control
    }

    /// Registers the socket `control` of participant `id`, opened with
    /// `token_id`: it gets the next generation and replaces any socket of
    /// `id`, whose handle is given back.
    pub fn register(&mut self, id: &str, token_id: &str, control: C) -> (res: (u64, Option<C>))
        ensures
            res.0 == next_generation(old(self).last_generation()),
            final(self).last_generation() == res.0,
            final(self).registrations() == old(self).registrations().insert(id@, (res.0, token_id@)),
            res.1 is Some <==> old(self).registrations().contains_key(id@),
    {
        let generation: u64 = if self.last_generation == u64::MAX {
            0
        } else {
            self.last_generation + 1
        };
        let old = match self.index_of(id) {
            Some(i) => {
                proof {
                    use_type_invariant(&*self);
                    lemma_keyed_at(registration_views(self.entries@), i as int);
                }
                Some(self.take_at(i))
            },
            None => {
                proof {
                    lemma_keyed_absent(registration_views(self.entries@), id@);
                }
                None
            },
        };
        proof {
            use_type_invariant(&*self);
        }
        let ghost s = registration_views(self.entries@);
        let entry = (
            id.to_owned(),
            Registration { generation, token_id: token_id.to_owned(), control },
        );
        proof {
            assert forall|i: int| 0 <= i < s.len() implies s[i].0 != id@ by {
                lemma_keyed_at(s, i);
            }
            lemma_keyed_push(s, (id@, (generation, token_id@)));
            assert(registration_views(self.entries@.push(entry)) =~= s.push(
                (id@, (generation, token_id@)),
            ));
        }
        let mut entries = Vec::new();
        std::mem::swap(&mut entries, &mut self.entries);
        entries.push(entry);
        self.entries = entries;
        self.last_generation = generation;
        (generation, old)
    }

    /// Whether `generation` is the current socket of `id`.
    pub fn is_current(&self, id: &str, generation: u64) -> (res: bool)
        ensures
            res == (self.registrations().contains_key(id@) && self.registrations()[id@].0
                == generation),
    {
        proof {
            use_type_invariant(self);
        }
        match self.index_of(id) {
            Some(i) => {
                proof {
                    lemma_keyed_at(registration_views(self.entries@), i as int);
                }
                self.entries[i].1.generation == generation
            },
            None => {
                proof {
                    lemma_keyed_absent(registration_views(self.entries@), id@);
                }
                false
            },
        }
    }

    /// Drops the registration of `id` when `generation` is its current
    /// socket; otherwise changes nothing.
    pub fn remove(&mut self, id: &str, generation: u64) -> (res: Option<C>)
        ensures
            final(self).last_generation() == old(self).last_generation(),
            if old(self).registrations().contains_key(id@) && old(self).registrations()[id@].0
                == generation {
                res is Some && final(self).registrations() == old(self).registrations().remove(id@)
            } else {
                res is None && final(self).registrations() == old(self).registrations()
            },
    {
        proof {
            use_type_invariant(&*self);
        }
        match self.index_of(id) {
            Some(i) => {
                proof {
                    lemma_keyed_at(registration_views(self.entries@), i as int);
                }
                if self.entries[i].1.generation == generation {
                    Some(self.take_at(i))
                } else {
                    None
                }
            },
            None => {
                proof {
                    lemma_keyed_absent(registration_views(self.entries@), id@);
                }
                None
            },
        }
    }

    /// The handle of the current socket of `id`.
    pub fn control(&self, id: &str) -> (res: Option<&C>)
        ensures
            res is Some <==> self.registrations().contains_key(id@),
    {
        proof {
            use_type_invariant(self);
        }
        match self.index_of(id) {
            Some(i) => {
                proof {
                    lemma_keyed_at(registration_views(self.entries@), i as int);
                }
                Some(&self.entries[i].1.control)
            },
            None => {
                proof {
                    lemma_keyed_absent(registration_views(self.entries@), id@);
                }
                None
            },
        }
    }

    /// The participants whose sockets were opened with `token_id`.
    pub fn participants_for_token(&self, token_id: &str) -> (res: Vec<String>)
        ensures
            forall|i: int|
                0 <= i < res@.len() ==> self.registrations().contains_key((#[trigger] res@[i])@)
                    && self.registrations()[res@[i]@].1 == token_id@,
            forall|id: Seq<char>|
                #[trigger] self.registrations().contains_key(id) && self.registrations()[id].1
                    == token_id@ ==> exists|i: int| 0 <= i < res@.len() && res@[i]@ == id,
    {
        proof {
            use_type_invariant(self);
        }
        let ghost s = registration_views(self.entries@);
        let mut res: Vec<String> = Vec::new();
        let ghost mut from: Seq<int> = Seq::empty();
        let mut i: usize = 0;
        while i < self.entries.len()
            invariant
                i <= self.entries@.len(),
                s == registration_views(self.entries@),
                keys_of(s).no_duplicates(),
                from.len() == res@.len(),
                forall|j: int|
                    0 <= j < res@.len() ==> 0 <= #[trigger] from[j] < i && s[from[j]].0 == res@[j]@
                        && s[from[j]].1.1 == token_id@,
                forall|k: int|
                    0 <= k < i && (#[trigger] s[k]).1.1 == token_id@ ==> exists|j: int|
                        0 <= j < res@.len() && from[j] == k,
            decreases self.entries@.len() - i,
        {
            let ghost from0 = from;
            proof {
                assert(s[i as int].1.1 == self.entries@[i as int].1.token_id@);
            }
            if str_eq(self.entries[i].1.token_id.as_str(), token_id) {
                let id = self.entries[i].0.clone();
                res.push(id);
                proof {
                    from = from.push(i as int);
                    assert(from[from.len() - 1] == i);
                }
            }
            proof {
                assert forall|k: int| 0 <= k < i + 1 && (#[trigger] s[k]).1.1 == token_id@ implies exists|j: int|
                    0 <= j < res@.len() && from[j] == k by {
                    if k < i {
                        let j = choose|j: int| 0 <= j < from0.len() && from0[j] == k;
                        assert(from[j] == k);
                    } else {
                        assert(from[from.len() - 1] == k);
                    }
                }
            }
            i += 1;
        }
        proof {
            assert forall|j: int| 0 <= j < res@.len() implies self.registrations().contains_key(
                (#[trigger] res@[j])@,
            ) && self.registrations()[res@[j]@].1 == token_id@ by {
                assert(0 <= from[j] < s.len());
                lemma_keyed_at(s, from[j]);
            }
            assert forall|id: Seq<char>|
                #[trigger] self.registrations().contains_key(id) && self.registrations()[id].1
                    == token_id@ implies exists|j: int| 0 <= j < res@.len() && res@[j]@ == id by {
                let k = choose|k: int| 0 <= k < keys_of(s).len() && keys_of(s)[k] == id;
                lemma_keyed_at(s, k);
                assert(s[k].1.1 == token_id@);
                let j = choose|j: int| 0 <= j < res@.len() && from[j] == k;
                assert(res@[j]@ == id);
            }
        }
        res
    }

    /// Every participant with a socket.
    pub fn participants(&self) -> (res: Vec<String>)
        ensures
            res@.len() == self.registrations().len(),
            forall|i: int|
                0 <= i < res@.len() ==> self.registrations().contains_key((#[trigger] res@[i])@),
    {
        proof {
            use_type_invariant(self);
            lemma_keyed_len(registration_views(self.entries@));
        }
        let ghost s = registration_views(self.entries@);
        let mut res: Vec<String> = Vec::new();
        let mut i: usize = 0;
        while i < self.entries.len()
            invariant
                i <= self.entries@.len(),
                s == registration_views(self.entries@),
                keys_of(s).no_duplicates(),
                res@.len() == i,
                forall|j: int| 0 <= j < i ==> (#[trigger] res@[j])@ == s[j].0,
            decreases self.entries@.len() - i,
        {
            res.push(self.entries[i].0.clone());
            i += 1;
        }
        proof {
            assert forall|j: int| 0 <= j < res@.len() implies self.registrations().contains_key(
                (#[trigger] res@[j])@,
            ) by {
                lemma_keyed_at(s, j);
            }
        }
        res
    }
}

} // verus!
