//! The lobby service: the only component that decides to mutate lobby
//! records. `create` persists a fresh one-player lobby under a freshly drawn
//! code, `join` appends a player through the repository's conditional update,
//! and `remove_connection` prunes a player whose connection is gone.
//!
//! Each operation's effect on the store is stated by a spec function over the
//! repository's map view, so that callers (and the concurrency model in
//! `race`) reason about one transition relation.
use vstd::prelude::*;

use crate::lobby::CODE_LEN;
use crate::lobby::Lobby;
use crate::lobby::LobbyV;
use crate::lobby::Player;
use crate::lobby::PlayerV;
use crate::lobby::cid_index;
use crate::lobby::code_byte;
use crate::lobby::roster_has_cid;
use crate::lobby::valid_code;
use crate::repo::ConflictError;
use crate::repo::LobbyRepo;

verus! {

/// How many times a bounded retry loop tries before giving up as `Busy`.
pub const MAX_ATTEMPTS: usize = 5;

/// Errors the service surfaces to its callers.
#[derive(Debug, Clone, Copy, PartialEq, Eq, Structural)]
pub enum ServiceError {
    /// No lobby is stored under the given code.
    NotFound,
    /// A bounded retry budget was exhausted without a successful write.
    Busy,
}

/// Message carrier for a human-readable service failure.
#[derive(Debug)]
pub struct LobbyServiceError {
    pub details: String,
}

impl LobbyServiceError {
    pub fn new(msg: &str) -> (r: LobbyServiceError)
        ensures
            r.details@ == msg@,
    {
        LobbyServiceError { details: msg.to_owned() }
    }

    /// The message as UTF-8 bytes, ready for the wire.
    pub fn message_bytes(&self) -> (r: Vec<u8>)
        ensures
            r@ == vstd::utf8::encode_utf8(self.details@),
    {
        self.details.as_str().as_bytes_vec()
    }
}

/// The timestamp a successful mutation stamps on the record: the current
/// clock, pushed just past the stored timestamp when the clock has not moved.
pub open spec fn next_ts(cur: u64, now: u64) -> u64 {
    if now > cur {
        now
    } else {
        (cur + 1) as u64
    }
}

/// The record `create` persists.
pub open spec fn spec_created(code: Seq<u8>, name: Seq<u8>, cid: Seq<u8>, now: u64) -> LobbyV {
    LobbyV {
        id: code,
        created_at: now,
        updated_at: now,
        players: seq![PlayerV { name: name, connection_id: cid }],
    }
}

/// The effect of `join` on the store: the new store and the call's result.
///
/// A join of a connection already on the roster is an idempotent no-op that
/// returns the current record. A record whose timestamp can no longer advance
/// is reported `Busy`.
pub open spec fn spec_join(
    m: Map<Seq<u8>, LobbyV>,
    id: Seq<u8>,
    name: Seq<u8>,
    cid: Seq<u8>,
    now: u64,
) -> (Map<Seq<u8>, LobbyV>, Result<LobbyV, ServiceError>) {
    if !m.contains_key(id) {
        (m, Err(ServiceError::NotFound))
    } else {
        let cur = m[id];
        if roster_has_cid(cur.players, cid) {
            (m, Ok(cur))
        } else if cur.updated_at == u64::MAX {
            (m, Err(ServiceError::Busy))
        } else {
            let grown = cur.with_player(name, cid, next_ts(cur.updated_at, now));
            (m.insert(id, grown), Ok(grown))
        }
    }
}

/// The effect of `remove_connection` on the store. Removing a connection that
/// is not on the roster is a no-op, and the sole remaining player is never
/// removed: the roster stays non-empty for the lobby's whole life.
pub open spec fn spec_remove(m: Map<Seq<u8>, LobbyV>, id: Seq<u8>, cid: Seq<u8>, now: u64) -> (
    Map<Seq<u8>, LobbyV>,
    Result<LobbyV, ServiceError>,
) {
    if !m.contains_key(id) {
        (m, Err(ServiceError::NotFound))
    } else {
        let cur = m[id];
        if !roster_has_cid(cur.players, cid) {
            (m, Ok(cur))
        } else if cur.players.len() == 1 {
            (m, Ok(cur))
        } else if cur.updated_at == u64::MAX {
            (m, Err(ServiceError::Busy))
        } else {
            let shrunk = cur.without_cid(cid, next_ts(cur.updated_at, now));
            (m.insert(id, shrunk), Ok(shrunk))
        }
    }
}

/// A service result seen through the lobby's mathematical image.
pub open spec fn lobby_result_view(r: Result<Lobby, ServiceError>) -> Result<
    LobbyV,
    ServiceError,
> {
    match r {
        Ok(l) => Ok(l@),
        Err(e) => Err(e),
    }
}

/// Relies on nanoid::format (with nanoid::rngs::default as the byte source):
/// it fills a string of exactly `size` characters, each drawn from `alphabet`,
/// and panics on an alphabet of more than 255 characters. The characters are
/// drawn from random bytes, so nothing relates two calls. An ASCII alphabet
/// makes every character one byte, so the returned bytes are the drawn
/// characters' codes. The byte source aborts if the operating system's
/// entropy source fails — an environment failure no argument can influence.
#[verifier::external_body]
fn nanoid_bytes(alphabet: &[char], size: usize) -> (r: Vec<u8>)
    requires
        1 <= alphabet@.len() <= 255,
        size >= 1,
        forall|i: int| 0 <= i < alphabet@.len() ==> ((#[trigger] alphabet@[i]) as u32) < 128,
    ensures
        r@.len() == size,
        forall|j: int|
            0 <= j < r@.len() ==> exists|i: int|
                0 <= i < alphabet@.len() && (#[trigger] alphabet@[i]) as u32 == (
                #[trigger] r@[j]) as u32,
{
    nanoid::format(nanoid::rngs::default, alphabet, size).into_bytes()
}

/// Draws a fresh lobby code: `CODE_LEN` characters from the digits and the
/// lower-case letters.
fn gen_lobby_code() -> (r: Vec<u8>)
    ensures
        valid_code(r@),
{
    let alphabet: &[char] = &[
        '1',
        '2',
        '3',
        '4',
        '5',
        '6',
        '7',
        '8',
        '9',
        '0',
        'a',
        'b',
        'c',
        'd',
        'e',
        'f',
        'g',
        'h',
        'i',
        'j',
        'k',
        'l',
        'm',
        'n',
        'o',
        'p',
        'q',
        'r',
        's',
        't',
        'u',
        'v',
        'w',
        'x',
        'y',
        'z',
    ];
    let r = nanoid_bytes(alphabet, CODE_LEN);
    proof {
        assert forall|j: int| 0 <= j < r@.len() implies code_byte(#[trigger] r@[j]) by {
            let i = choose|i: int|
                0 <= i < alphabet@.len() && (#[trigger] alphabet@[i]) as u32 == r@[j] as u32;
            assert(code_byte(r@[j]));
        }
    }
    r
}

/// Idempotent join: once a join of `cid` into a lobby has succeeded, joining
/// the same `cid` into the same lobby again — under any name and at any later
/// clock reading — changes nothing and returns the same record.
pub proof fn lemma_join_idempotent(
    m: Map<Seq<u8>, LobbyV>,
    id: Seq<u8>,
    name1: Seq<u8>,
    name2: Seq<u8>,
    cid: Seq<u8>,
    now1: u64,
    now2: u64,
)
    requires
        spec_join(m, id, name1, cid, now1).1 is Ok,
    ensures
        spec_join(spec_join(m, id, name1, cid, now1).0, id, name2, cid, now2) == spec_join(
            m,
            id,
            name1,
            cid,
            now1,
        ),
{
    let first = spec_join(m, id, name1, cid, now1);
    let cur = m[id];
    if roster_has_cid(cur.players, cid) {
        assert(first == (m, Ok::<LobbyV, ServiceError>(cur)));
    } else {
        let grown = cur.with_player(name1, cid, next_ts(cur.updated_at, now1));
        assert(first == (m.insert(id, grown), Ok::<LobbyV, ServiceError>(grown)));
        assert(grown.players[grown.players.len() - 1].connection_id == cid);
        assert(roster_has_cid(grown.players, cid));
        assert(first.0[id] == grown);
    }
}

/// A join that appends strictly advances the record's timestamp: successful
/// mutations are totally ordered by `updated_at`, which is what the
/// conditional update's comparison relies on.
pub proof fn lemma_join_advances_timestamp(
    m: Map<Seq<u8>, LobbyV>,
    id: Seq<u8>,
    name: Seq<u8>,
    cid: Seq<u8>,
    now: u64,
)
    requires
        m.contains_key(id),
        !roster_has_cid(m[id].players, cid),
        m[id].updated_at < u64::MAX,
    ensures
        spec_join(m, id, name, cid, now).1 is Ok,
        spec_join(m, id, name, cid, now).0[id].updated_at > m[id].updated_at,
{
}

/// A join never loses a player: whoever is on the roster before it stays,
/// in place, whatever the join returns.
pub proof fn lemma_join_keeps_players(
    m: Map<Seq<u8>, LobbyV>,
    id: Seq<u8>,
    name: Seq<u8>,
    cid: Seq<u8>,
    now: u64,
)
    requires
        m.contains_key(id),
    ensures
        spec_join(m, id, name, cid, now).0.contains_key(id),
        spec_join(m, id, name, cid, now).0[id].players.len() >= m[id].players.len(),
        forall|j: int|
            0 <= j < m[id].players.len() ==> #[trigger] spec_join(
                m,
                id,
                name,
                cid,
                now,
            ).0[id].players[j] == m[id].players[j],
{
}

/// Unknown lobby: a join against a code that was never created returns
/// `NotFound` and writes nothing.
pub proof fn lemma_join_unknown_lobby(
    m: Map<Seq<u8>, LobbyV>,
    id: Seq<u8>,
    name: Seq<u8>,
    cid: Seq<u8>,
    now: u64,
)
    requires
        !m.contains_key(id),
    ensures
        spec_join(m, id, name, cid, now) == (m, Err::<LobbyV, ServiceError>(
            ServiceError::NotFound,
        )),
{
}

pub struct LobbyService;

impl LobbyService {
    /// Persist a fresh one-player lobby under the given code; fails exactly
    /// when the code is already taken, writing nothing.
    pub fn create_with_code(
        repo: &mut LobbyRepo,
        lobby_code: &Vec<u8>,
        now: u64,
        host_name: &Vec<u8>,
        connection_id: &Vec<u8>,
    ) -> (r: Result<Lobby, ConflictError>)
        requires
            old(repo).wf(),
            valid_code(lobby_code@),
        ensures
            final(repo).wf(),
            match r {
                Ok(l) => !old(repo)@.contains_key(lobby_code@) && l@ == spec_created(
                    lobby_code@,
                    host_name@,
                    connection_id@,
                    now,
                ) && final(repo)@ == old(repo)@.insert(lobby_code@, l@),
                Err(_) => old(repo)@.contains_key(lobby_code@) && final(repo)@ == old(repo)@,
            },
    {
        let mut players: Vec<Player> = Vec::new();
        players.push(
            Player { name: host_name.clone(), connection_id: connection_id.clone() },
        );
        let lobby = Lobby {
            id: lobby_code.clone(),
            created_at: now,
            updated_at: now,
            players,
        };
        proof {
            assert(lobby@ =~= spec_created(lobby_code@, host_name@, connection_id@, now));
        }
        match repo.put(&lobby) {
            Ok(()) => Ok(lobby),
            Err(e) => Err(e),
        }
    }

    /// Create a lobby for its host: draw a short code, persist a one-player
    /// roster under it, and on a code collision draw again, at most
    /// `MAX_ATTEMPTS` times before failing `Busy`.
    ///
    /// `Busy` can only come of genuine collisions: it is admitted only when
    /// the store already holds some record under a valid code, so on a store
    /// that a draw cannot collide with — the empty store above all — the
    /// lobby is always created.
    pub fn create(
        repo: &mut LobbyRepo,
        now: u64,
        host_name: &Vec<u8>,
        connection_id: &Vec<u8>,
    ) -> (r: Result<Lobby, ServiceError>)
        requires
            old(repo).wf(),
        ensures
            final(repo).wf(),
            match r {
                Ok(l) => l@ == spec_created(l@.id, host_name@, connection_id@, now) && valid_code(
                    l@.id,
                ) && !old(repo)@.contains_key(l@.id) && final(repo)@ == old(repo)@.insert(
                    l@.id,
                    l@,
                ),
                Err(e) => e == ServiceError::Busy && final(repo)@ == old(repo)@ && (exists|
                    k: Seq<u8>,
                |
                    #[trigger] old(repo)@.contains_key(k) && valid_code(k)),
            },
    {
        let mut attempts: usize = 0;
        while attempts < MAX_ATTEMPTS
            invariant
                repo.wf(),
                repo@ == old(repo)@,
                attempts > 0 ==> exists|k: Seq<u8>|
                    #[trigger] old(repo)@.contains_key(k) && valid_code(k),
            decreases MAX_ATTEMPTS - attempts,
        {
            let code = gen_lobby_code();
            match Self::create_with_code(repo, &code, now, host_name, connection_id) {
                Ok(l) => {
                    return Ok(l);
                },
                Err(_) => {
                    proof {
                        assert(repo@.contains_key(code@) && valid_code(code@));
                    }
                    attempts = attempts + 1;
                },
            }
        }
        Err(ServiceError::Busy)
    }

    /// Fetch the current record for a code.
    pub fn get(repo: &LobbyRepo, lobby_code: &Vec<u8>) -> (r: Result<Lobby, ServiceError>)
        requires
            repo.wf(),
        ensures
            match r {
                Ok(l) => repo@.contains_key(lobby_code@) && l@ == repo@[lobby_code@] && l@.wf()
                    && l@.id == lobby_code@,
                Err(e) => e == ServiceError::NotFound && !repo@.contains_key(lobby_code@),
            },
    {
        match repo.get(lobby_code) {
            Some(l) => Ok(l),
            None => Err(ServiceError::NotFound),
        }
    }

    /// Join a player to an existing lobby: read the record, and append the
    /// player through the conditional update, keyed to the timestamp that was
    /// read. A join of a connection already on the roster returns the current
    /// record unchanged.
    ///
    /// In a deployment where invocations race on a shared store, the
    /// conditional update can fail and the read is retried (the interleaved
    /// behaviour is the subject of `race`); here the repository is borrowed
    /// exclusively for the call, so an update keyed to the timestamp just read
    /// cannot conflict.
    pub fn join(
        repo: &mut LobbyRepo,
        now: u64,
        lobby_id: &Vec<u8>,
        player_name: &Vec<u8>,
        connection_id: &Vec<u8>,
    ) -> (r: Result<Lobby, ServiceError>)
        requires
            old(repo).wf(),
        ensures
            final(repo).wf(),
            final(repo)@ == spec_join(
                old(repo)@,
                lobby_id@,
                player_name@,
                connection_id@,
                now,
            ).0,
            lobby_result_view(r) == spec_join(
                old(repo)@,
                lobby_id@,
                player_name@,
                connection_id@,
                now,
            ).1,
    {
        let current = match repo.get(lobby_id) {
            Some(l) => l,
            None => {
                return Err(ServiceError::NotFound);
            },
        };
        if current.has_connection(connection_id) {
            return Ok(current);
        }
        if current.updated_at == u64::MAX {
            return Err(ServiceError::Busy);
        }
        let ts = if now > current.updated_at {
            now
        } else {
            current.updated_at + 1
        };
        let mut modified = current.clone();
        modified.players.push(
            Player { name: player_name.clone(), connection_id: connection_id.clone() },
        );
        modified.updated_at = ts;
        proof {
            assert(modified@.players =~= current@.players.push(
                PlayerV { name: player_name@, connection_id: connection_id@ },
            ));
            assert(modified@ =~= current@.with_player(player_name@, connection_id@, ts));
            assert(modified@.wf()) by {
                assert(forall|i: int|
                    0 <= i < current@.players.len() ==> (
                    #[trigger] current@.players[i]).connection_id != connection_id@);
            }
        }
        match repo.update(lobby_id, current.updated_at, &modified) {
            Ok(l) => Ok(l),
            Err(_) => {
                proof {
                    assert(false);
                }
                Err(ServiceError::Busy)
            },
        }
    }

    /// Drop the player on a gone connection from a lobby's roster, through the
    /// same conditional-update path as `join`. Removing a connection that is
    /// not on the roster is a no-op, and the sole remaining player stays: the
    /// roster is never emptied.
    pub fn remove_connection(
        repo: &mut LobbyRepo,
        now: u64,
        lobby_id: &Vec<u8>,
        connection_id: &Vec<u8>,
    ) -> (r: Result<Lobby, ServiceError>)
        requires
            old(repo).wf(),
        ensures
            final(repo).wf(),
            final(repo)@ == spec_remove(old(repo)@, lobby_id@, connection_id@, now).0,
            lobby_result_view(r) == spec_remove(old(repo)@, lobby_id@, connection_id@, now).1,
    {
        let current = match repo.get(lobby_id) {
            Some(l) => l,
            None => {
                return Err(ServiceError::NotFound);
            },
        };
        let idx = match current.connection_index(connection_id) {
            Some(i) => i,
            None => {
                return Ok(current);
            },
        };
        if current.players.len() == 1 {
            return Ok(current);
        }
        if current.updated_at == u64::MAX {
            return Err(ServiceError::Busy);
        }
        let ts = if now > current.updated_at {
            now
        } else {
            current.updated_at + 1
        };
        let mut modified = current.clone();
        modified.players.remove(idx);
        modified.updated_at = ts;
        proof {
            assert(cid_index(current@.players, connection_id@) == idx as int) by {
                let k = cid_index(current@.players, connection_id@);
                assert(0 <= k < current@.players.len() && current@.players[k].connection_id
                    == connection_id@);
                if k != idx as int {
                    assert(false);
                }
            }
            assert(modified@.players =~= current@.players.remove(idx as int));
            assert(modified@ =~= current@.without_cid(connection_id@, ts));
            assert(modified@.wf()) by {
                let ps = current@.players;
                let qs = modified@.players;
                assert forall|i: int, j: int|
                    0 <= i < j < qs.len() implies (#[trigger] qs[i]).connection_id != (
                #[trigger] qs[j]).connection_id by {
                    let i0 = if i < idx as int { i } else { i + 1 };
                    let j0 = if j < idx as int { j } else { j + 1 };
                    assert(qs[i] == ps[i0] && qs[j] == ps[j0]);
                }
            }
        }
        match repo.update(lobby_id, current.updated_at, &modified) {
            Ok(l) => Ok(l),
            Err(_) => {
                proof {
                    assert(false);
                }
                Err(ServiceError::Busy)
            },
        }
    }
}

} // verus!
