//! Lobby data model: players identified by connection, lobbies identified by a
//! short shareable code, with a roster of players and a pair of timestamps.
//!
//! Names, connection identifiers and lobby codes are carried as UTF-8 byte
//! strings; timestamps are milliseconds since the Unix epoch.
use vstd::prelude::*;

verus! {

/// Number of bytes in a lobby code.
pub const CODE_LEN: usize = 4;

/// The key a lobby record is stored and looked up under: its short code.
pub type LobbyId = Vec<u8>;

/// One member of a lobby: a display name plus the opaque identifier of the
/// transport connection that messages for this member are posted to.
#[derive(Debug, PartialEq)]
pub struct Player {
    pub name: Vec<u8>,
    pub connection_id: Vec<u8>,
}

/// Mathematical image of a `Player`.
#[verifier::ext_equal]
pub struct PlayerV {
    pub name: Seq<u8>,
    pub connection_id: Seq<u8>,
}

impl View for Player {
    type V = PlayerV;

    open spec fn view(&self) -> PlayerV {
        PlayerV { name: self.name@, connection_id: self.connection_id@ }
    }
}

impl Clone for Player {
    fn clone(&self) -> (res: Self)
        ensures
            res@ == self@,
    {
        Player { name: self.name.clone(), connection_id: self.connection_id.clone() }
    }
}

/// A lobby record as held by the repository.
#[derive(Debug, PartialEq)]
pub struct Lobby {
    pub id: LobbyId,
    pub created_at: u64,
    pub updated_at: u64,
    pub players: Vec<Player>,
}

/// Mathematical image of a `Lobby`.
#[verifier::ext_equal]
pub struct LobbyV {
    pub id: Seq<u8>,
    pub created_at: u64,
    pub updated_at: u64,
    pub players: Seq<PlayerV>,
}

impl View for Lobby {
    type V = LobbyV;

    open spec fn view(&self) -> LobbyV {
        LobbyV {
            id: self.id@,
            created_at: self.created_at,
            updated_at: self.updated_at,
            players: self.players@.map_values(|p: Player| p@),
        }
    }
}

impl Clone for Lobby {
    fn clone(&self) -> (res: Self)
        ensures
            res@ == self@,
    {
        let res = Lobby {
            id: self.id.clone(),
            created_at: self.created_at,
            updated_at: self.updated_at,
            players: clone_players(&self.players),
        };
        res
    }
}

/// Clones a roster; spelled out so that the result is known element by element.
pub fn clone_players(players: &Vec<Player>) -> (res: Vec<Player>)
    ensures
        res@.map_values(|p: Player| p@) == players@.map_values(|p: Player| p@),
{
    let mut res: Vec<Player> = Vec::new();
    let mut i: usize = 0;
    while i < players.len()
        invariant
            i <= players.len(),
            res@.len() == i,
            forall|j: int| 0 <= j < i ==> #[trigger] res@[j]@ == players@[j]@,
        decreases players.len() - i,
    {
        res.push(players[i].clone());
        i = i + 1;
    }
    assert(res@.map_values(|p: Player| p@) =~= players@.map_values(|p: Player| p@));
    res
}

/// Is `b` a byte the code alphabet can produce: an ASCII digit or lower-case letter?
pub open spec fn code_byte(b: u8) -> bool {
    (48 <= b && b <= 57) || (97 <= b && b <= 122)
}

/// A well-formed lobby code: fixed length, drawn from the code alphabet.
pub open spec fn valid_code(s: Seq<u8>) -> bool {
    &&& s.len() == CODE_LEN
    &&& forall|i: int| 0 <= i < s.len() ==> code_byte(#[trigger] s[i])
}

/// Does the roster hold a player with this connection identifier?
pub open spec fn roster_has_cid(players: Seq<PlayerV>, cid: Seq<u8>) -> bool {
    exists|i: int| 0 <= i < players.len() && #[trigger] players[i].connection_id == cid
}

/// The position of the player on connection `cid` (meaningful when
/// `roster_has_cid` holds; unique on a distinct roster).
pub open spec fn cid_index(players: Seq<PlayerV>, cid: Seq<u8>) -> int {
    choose|i: int| 0 <= i < players.len() && #[trigger] players[i].connection_id == cid
}

/// No two players of the roster share a connection identifier.
pub open spec fn roster_distinct(players: Seq<PlayerV>) -> bool {
    forall|i: int, j: int|
        0 <= i < j < players.len() ==> #[trigger] players[i].connection_id
            != #[trigger] players[j].connection_id
}

impl LobbyV {
    /// Invariant of every lobby the system stores or hands out.
    pub open spec fn wf(self) -> bool {
        &&& valid_code(self.id)
        &&& self.players.len() >= 1
        &&& roster_distinct(self.players)
        &&& self.created_at <= self.updated_at
    }

    /// The lobby as it looks after a player joined at time `ts`.
    pub open spec fn with_player(self, name: Seq<u8>, cid: Seq<u8>, ts: u64) -> LobbyV {
        LobbyV {
            updated_at: ts,
            players: self.players.push(PlayerV { name: name, connection_id: cid }),
            ..self
        }
    }

    /// The lobby as it looks after the player on connection `cid` left at time `ts`.
    pub open spec fn without_cid(self, cid: Seq<u8>, ts: u64) -> LobbyV {
        LobbyV {
            updated_at: ts,
            players: self.players.remove(cid_index(self.players, cid)),
            ..self
        }
    }
}

impl Lobby {
    /// The roster position of the player on connection `cid`, if any.
    pub fn connection_index(&self, cid: &Vec<u8>) -> (r: Option<usize>)
        ensures
            match r {
                Some(i) => i < self@.players.len() && self@.players[i as int].connection_id
                    == cid@,
                None => !roster_has_cid(self@.players, cid@),
            },
    {
        let mut i: usize = 0;
        while i < self.players.len()
            invariant
                i <= self.players.len(),
                forall|j: int| 0 <= j < i ==> #[trigger] self@.players[j].connection_id != cid@,
            decreases self.players.len() - i,
        {
            if bytes_eq(&self.players[i].connection_id, cid) {
                assert(self@.players[i as int].connection_id == cid@);
                return Some(i);
            }
            i = i + 1;
        }
        None
    }

    /// True exactly when a player with connection identifier `cid` is on the roster.
    pub fn has_connection(&self, cid: &Vec<u8>) -> (r: bool)
        ensures
            r == roster_has_cid(self@.players, cid@),
    {
        self.connection_index(cid).is_some()
    }
}

/// Byte-string equality.
pub fn bytes_eq(a: &Vec<u8>, b: &Vec<u8>) -> (r: bool)
    ensures
        r == (a@ == b@),
{
    if a.len() != b.len() {
        assert(a@ != b@) by {
            assert(a@.len() != b@.len());
        }
        return false;
    }
    let mut i: usize = 0;
    while i < a.len()
        invariant
            i <= a.len(),
            a@.len() == b@.len(),
            forall|j: int| 0 <= j < i ==> a@[j] == b@[j],
        decreases a.len() - i,
    {
        if a[i] != b[i] {
            return false;
        }
        i = i + 1;
    }
    assert(a@ =~= b@);
    true
}

} // verus!
