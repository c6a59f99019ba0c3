//! The lobby repository: a passive keyed store of lobby records whose only
//! concurrency-control primitive is a conditional update (compare-and-swap on
//! the record's `updated_at`). Its contracts are stated over the map from
//! lobby code to record.
//!
//! The store is held in memory, so reaching it cannot fail here; a deployment
//! that keeps the table behind a network client adds that failure mode at its
//! own boundary, outside this crate.
use vstd::prelude::*;

use crate::lobby::Lobby;
use crate::lobby::LobbyV;
use crate::lobby::bytes_eq;

verus! {

/// Returned by `put` when a record with the same code already exists.
#[derive(Debug, PartialEq, Eq, Structural)]
pub struct ConflictError;

/// Returned by `update` when the stored record no longer carries the expected
/// `updated_at`, so the caller's read is stale and no write happened.
#[derive(Debug, PartialEq, Eq, Structural)]
pub struct OptimisticConflict;

/// The backing store of lobby records, keyed by lobby code.
pub struct LobbyRepo {
    records: Vec<Lobby>,
}

/// Is some record of `records` keyed by `id`?
pub open spec fn has_id(records: Seq<Lobby>, id: Seq<u8>) -> bool {
    exists|i: int| 0 <= i < records.len() && (#[trigger] records[i])@.id == id
}

/// The index of the record keyed by `id` (meaningful only when `has_id` holds
/// and indices are unique).
pub open spec fn index_of(records: Seq<Lobby>, id: Seq<u8>) -> int {
    choose|i: int| 0 <= i < records.len() && (#[trigger] records[i])@.id == id
}

impl View for LobbyRepo {
    type V = Map<Seq<u8>, LobbyV>;

    closed spec fn view(&self) -> Map<Seq<u8>, LobbyV> {
        Map::new(
            |id: Seq<u8>| has_id(self.records@, id),
            |id: Seq<u8>| self.records@[index_of(self.records@, id)]@,
        )
    }
}

impl LobbyRepo {
    /// Every stored record is well formed and codes are unique.
    pub closed spec fn wf(&self) -> bool {
        &&& forall|i: int|
            0 <= i < self.records@.len() ==> (#[trigger] self.records@[i])@.wf()
        &&& forall|i: int, j: int|
            0 <= i < j < self.records@.len() ==> (#[trigger] self.records@[i])@.id != (
            #[trigger] self.records@[j])@.id
    }

    /// Relates a record's position to the map view.
    proof fn lemma_view_at(&self, i: int)
        requires
            self.wf(),
            0 <= i < self.records@.len(),
        ensures
            self@.contains_key(self.records@[i]@.id),
            self@[self.records@[i]@.id] == self.records@[i]@,
            index_of(self.records@, self.records@[i]@.id) == i,
    {
        let id = self.records@[i]@.id;
        assert(has_id(self.records@, id));
        let j = index_of(self.records@, id);
        assert(0 <= j < self.records@.len() && self.records@[j]@.id == id);
        if i != j {
            assert(false);
        }
    }

    /// An empty repository.
    pub fn new() -> (r: LobbyRepo)
        ensures
            r.wf(),
            r@ == Map::<Seq<u8>, LobbyV>::empty(),
    {
        let r = LobbyRepo { records: Vec::new() };
        proof {
            assert(r@ =~= Map::<Seq<u8>, LobbyV>::empty());
        }
        r
    }

    /// Position of the record keyed by `lobby_code`, if any.
    fn find_index(&self, lobby_code: &Vec<u8>) -> (r: Option<usize>)
        ensures
            match r {
                Some(i) => i < self.records@.len() && self.records@[i as int]@.id == lobby_code@,
                None => !has_id(self.records@, lobby_code@),
            },
    {
        let mut i: usize = 0;
        while i < self.records.len()
            invariant
                i <= self.records@.len(),
                forall|j: int| 0 <= j < i ==> (#[trigger] self.records@[j])@.id != lobby_code@,
            decreases self.records@.len() - i,
        {
            if bytes_eq(&self.records[i].id, lobby_code) {
                return Some(i);
            }
            i = i + 1;
        }
        None
    }

    /// Retrieve a single lobby by code; `None` when no record carries it.
    pub fn get(&self, lobby_code: &Vec<u8>) -> (r: Option<Lobby>)
        requires
            self.wf(),
        ensures
            match r {
                Some(l) => self@.contains_key(lobby_code@) && l@ == self@[lobby_code@] && l@.wf()
                    && l@.id == lobby_code@,
                None => !self@.contains_key(lobby_code@),
            },
    {
        match self.find_index(lobby_code) {
            Some(i) => {
                proof {
                    self.lemma_view_at(i as int);
                }
                Some(self.records[i].clone())
            },
            None => {
                proof {
                    if self@.contains_key(lobby_code@) {
                        assert(has_id(self.records@, lobby_code@));
                    }
                }
                None
            },
        }
    }

    /// Insert a new lobby record. Fails with `ConflictError`, writing nothing,
    /// exactly when the code is already taken.
    pub fn put(&mut self, lobby: &Lobby) -> (r: Result<(), ConflictError>)
        requires
            old(self).wf(),
            lobby@.wf(),
        ensures
            final(self).wf(),
            match r {
                Ok(()) => !old(self)@.contains_key(lobby@.id) && final(self)@ == old(
                    self,
                )@.insert(lobby@.id, lobby@),
                Err(_) => old(self)@.contains_key(lobby@.id) && final(self)@ == old(self)@,
            },
    {
        match self.find_index(&lobby.id) {
            Some(i) => {
                proof {
                    self.lemma_view_at(i as int);
                }
                Err(ConflictError)
            },
            None => {
                let ghost pre = *self;
                self.records.push(lobby.clone());
                proof {
                    let n = pre.records@.len() as int;
                    assert forall|k: Seq<u8>| #![all_triggers]
                        has_id(self.records@, k) implies (has_id(pre.records@, k) || k
                        == lobby@.id) by {
                        let i = choose|i: int|
                            0 <= i < self.records@.len() && (#[trigger] self.records@[i])@.id == k;
                        if i < n {
                            assert(pre.records@[i]@.id == k);
                        }
                    }
                    assert forall|k: Seq<u8>| #![all_triggers]
                        has_id(pre.records@, k) implies has_id(self.records@, k) by {
                        let i = choose|i: int|
                            0 <= i < pre.records@.len() && (#[trigger] pre.records@[i])@.id == k;
                        assert(self.records@[i]@.id == k);
                    }
                    assert(!has_id(pre.records@, lobby@.id));
                    assert(has_id(self.records@, lobby@.id)) by {
                        assert(self.records@[n]@.id == lobby@.id);
                    }
                    assert forall|k: Seq<u8>| #[trigger]
                        self@.contains_key(k) implies self@[k] == pre@.insert(lobby@.id, lobby@)[k]
                        by {
                        let i = index_of(self.records@, k);
                        assert(0 <= i < self.records@.len() && self.records@[i]@.id == k);
                        if k == lobby@.id {
                            if i < n {
                                assert(has_id(pre.records@, k));
                            }
                            assert(i == n);
                        } else {
                            assert(i < n);
                            assert(pre.records@[i]@.id == k);
                            pre.lemma_view_at(i);
                        }
                    }
                    assert(self.wf()) by {
                        assert forall|i: int, j: int|
                            0 <= i < j < self.records@.len() implies (
                        #[trigger] self.records@[i])@.id != (#[trigger] self.records@[j])@.id by {
                            if j == n {
                                assert(pre.records@[i]@.id == self.records@[i]@.id);
                                assert(!has_id(pre.records@, lobby@.id));
                                if self.records@[i]@.id == lobby@.id {
                                    assert(has_id(pre.records@, lobby@.id));
                                }
                            }
                        }
                    }
                    assert(self@ =~= pre@.insert(lobby@.id, lobby@));
                }
                Ok(())
            },
        }
    }

    /// Conditionally replace the record keyed by `lobby_id`: the write happens
    /// exactly when a record is stored under that code and its `updated_at`
    /// still equals `expected_updated_at`; otherwise nothing changes and the
    /// caller must re-read. A successful update strictly advances `updated_at`.
    ///
    /// The preconditions on the candidate are the store's standing record
    /// invariants: only well-formed records keyed by their own code enter the
    /// table, and `updated_at` strictly increases on every successful
    /// mutation — the comparison below relies on that increase to mean "the
    /// record is exactly as the caller read it".
    pub fn update(&mut self, lobby_id: &Vec<u8>, expected_updated_at: u64, lobby: &Lobby) -> (r:
        Result<Lobby, OptimisticConflict>)
        requires
            old(self).wf(),
            lobby@.wf(),
            lobby@.id == lobby_id@,
            lobby@.updated_at > expected_updated_at,
        ensures
            final(self).wf(),
            match r {
                Ok(l) => l@ == lobby@ && old(self)@.contains_key(lobby_id@) && old(
                    self,
                )@[lobby_id@].updated_at == expected_updated_at && final(self)@ == old(
                    self,
                )@.insert(lobby_id@, lobby@),
                Err(_) => final(self)@ == old(self)@ && !(old(self)@.contains_key(lobby_id@) && old(
                    self,
                )@[lobby_id@].updated_at == expected_updated_at),
            },
    {
        match self.find_index(lobby_id) {
            Some(i) => {
                proof {
                    self.lemma_view_at(i as int);
                }
                if self.records[i].updated_at == expected_updated_at {
                    let ghost pre = *self;
                    self.records.set(i, lobby.clone());
                    proof {
                        let n = pre.records@.len() as int;
                        assert forall|k: Seq<u8>| #![all_triggers]
                            has_id(self.records@, k) == has_id(pre.records@, k) by {
                            if has_id(self.records@, k) {
                                let a = choose|a: int|
                                    0 <= a < self.records@.len() && (
                                    #[trigger] self.records@[a])@.id == k;
                                if a == i {
                                    assert(pre.records@[a]@.id == lobby_id@ && k == lobby_id@);
                                } else {
                                    assert(pre.records@[a]@.id == k);
                                }
                            }
                            if has_id(pre.records@, k) {
                                let a = choose|a: int|
                                    0 <= a < pre.records@.len() && (
                                    #[trigger] pre.records@[a])@.id == k;
                                if a == i {
                                    assert(self.records@[a]@.id == k);
                                } else {
                                    assert(self.records@[a]@.id == k);
                                }
                            }
                        }
                        assert(self.wf()) by {
                            assert forall|a: int, b: int|
                                0 <= a < b < self.records@.len() implies (
                            #[trigger] self.records@[a])@.id != (#[trigger] self.records@[b])@.id
                                by {
                                assert(pre.records@[a]@.id != pre.records@[b]@.id);
                            }
                        }
                        assert forall|k: Seq<u8>| #[trigger]
                            self@.contains_key(k) implies self@[k] == pre@.insert(
                            lobby_id@,
                            lobby@,
                        )[k] by {
                            let a = index_of(self.records@, k);
                            assert(0 <= a < self.records@.len() && self.records@[a]@.id == k);
                            if k == lobby_id@ {
                                if a != i {
                                    assert(pre.records@[a]@.id == k);
                                    assert(pre.records@[i as int]@.id == k);
                                    assert(false);
                                }
                            } else {
                                assert(a != i);
                                assert(pre.records@[a]@.id == k);
                                pre.lemma_view_at(a);
                            }
                        }
                        assert(self@ =~= pre@.insert(lobby_id@, lobby@));
                    }
                    Ok(lobby.clone())
                } else {
                    Err(OptimisticConflict)
                }
            },
            None => {
                proof {
                    if self@.contains_key(lobby_id@) {
                        assert(has_id(self.records@, lobby_id@));
                    }
                }
                Err(OptimisticConflict)
            },
        }
    }
}

} // verus!
