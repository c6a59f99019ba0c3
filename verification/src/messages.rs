//! The tagged wire protocol: one closed sum of inbound requests and outbound
//! responses, each carried as a JSON object whose `type` field names the
//! variant. `codec` gives the byte encoding.
use vstd::prelude::*;

use crate::lobby::PlayerV;
use crate::lobby::Player;
use crate::lobby::LobbyV;

verus! {

/// The lobby snapshot as the clients see it: the code and the roster, without
/// the repository's timestamps.
#[derive(Debug, PartialEq)]
pub struct Lobby {
    pub id: Vec<u8>,
    pub players: Vec<Player>,
}

/// Mathematical image of a wire `Lobby` snapshot.
#[verifier::ext_equal]
pub struct SnapshotV {
    pub id: Seq<u8>,
    pub players: Seq<PlayerV>,
}

impl View for Lobby {
    type V = SnapshotV;

    open spec fn view(&self) -> SnapshotV {
        SnapshotV { id: self.id@, players: self.players@.map_values(|p: Player| p@) }
    }
}

impl Clone for Lobby {
    fn clone(&self) -> (res: Self)
        ensures
            res@ == self@,
    {
        Lobby { id: self.id.clone(), players: crate::lobby::clone_players(&self.players) }
    }
}

impl Lobby {
    /// The snapshot of a stored lobby record.
    pub fn of_record(record: &crate::lobby::Lobby) -> (r: Lobby)
        ensures
            r@ == snapshot_of(record@),
    {
        Lobby { id: record.id.clone(), players: crate::lobby::clone_players(&record.players) }
    }
}

/// What a stored record looks like on the wire.
pub open spec fn snapshot_of(l: LobbyV) -> SnapshotV {
    SnapshotV { id: l.id, players: l.players }
}

/// Request: open a new lobby with the sender as host.
#[derive(Debug, PartialEq)]
pub struct LobbyActionCreate {
    pub name: Vec<u8>,
}

/// Response to a create, fanned out to the whole roster.
#[derive(Debug, PartialEq)]
pub struct LobbyActionCreateResponse {
    pub lobby: Lobby,
}

/// Request: join the lobby with the given code.
#[derive(Debug, PartialEq)]
pub struct LobbyActionJoin {
    pub name: Vec<u8>,
    pub lobby_code: Vec<u8>,
}

/// Response to a join, fanned out to the whole roster.
#[derive(Debug, PartialEq)]
pub struct LobbyActionJoinResponse {
    pub lobby: Lobby,
}

/// Request: say something to the other members of a lobby.
#[derive(Debug, PartialEq)]
pub struct LobbyMessage {
    pub lobby_code: Vec<u8>,
    pub body: Vec<u8>,
}

/// A chat line, fanned out to every member but the sender.
#[derive(Debug, PartialEq)]
pub struct LobbyMessageResponse {
    pub name: Vec<u8>,
    pub body: Vec<u8>,
}

/// Tells the requesting connection that its request failed.
#[derive(Debug, PartialEq)]
pub struct LobbyErrorResponse {
    pub message: Vec<u8>,
}

/// The closed sum of everything on the wire, in either direction.
#[derive(Debug, PartialEq)]
pub enum Message {
    LobbyActionCreate(LobbyActionCreate),
    LobbyActionCreateResponse(LobbyActionCreateResponse),
    LobbyActionJoin(LobbyActionJoin),
    LobbyActionJoinResponse(LobbyActionJoinResponse),
    LobbyMessage(LobbyMessage),
    LobbyMessageResponse(LobbyMessageResponse),
    LobbyErrorResponse(LobbyErrorResponse),
}

/// Mathematical image of a `Message`.
#[verifier::ext_equal]
pub enum MessageV {
    Create { name: Seq<u8> },
    CreateResponse { lobby: SnapshotV },
    Join { name: Seq<u8>, lobby_code: Seq<u8> },
    JoinResponse { lobby: SnapshotV },
    Chat { lobby_code: Seq<u8>, body: Seq<u8> },
    ChatResponse { name: Seq<u8>, body: Seq<u8> },
    ErrorResponse { message: Seq<u8> },
}

impl View for Message {
    type V = MessageV;

    open spec fn view(&self) -> MessageV {
        match self {
            Message::LobbyActionCreate(e) => MessageV::Create { name: e.name@ },
            Message::LobbyActionCreateResponse(e) => MessageV::CreateResponse { lobby: e.lobby@ },
            Message::LobbyActionJoin(e) => MessageV::Join {
                name: e.name@,
                lobby_code: e.lobby_code@,
            },
            Message::LobbyActionJoinResponse(e) => MessageV::JoinResponse { lobby: e.lobby@ },
            Message::LobbyMessage(e) => MessageV::Chat {
                lobby_code: e.lobby_code@,
                body: e.body@,
            },
            Message::LobbyMessageResponse(e) => MessageV::ChatResponse {
                name: e.name@,
                body: e.body@,
            },
            Message::LobbyErrorResponse(e) => MessageV::ErrorResponse { message: e.message@ },
        }
    }
}

impl Clone for Message {
    fn clone(&self) -> (res: Self)
        ensures
            res@ == self@,
    {
        match self {
            Message::LobbyActionCreate(e) => Message::LobbyActionCreate(
                LobbyActionCreate { name: e.name.clone() },
            ),
            Message::LobbyActionCreateResponse(e) => Message::LobbyActionCreateResponse(
                LobbyActionCreateResponse { lobby: e.lobby.clone() },
            ),
            Message::LobbyActionJoin(e) => Message::LobbyActionJoin(
                LobbyActionJoin { name: e.name.clone(), lobby_code: e.lobby_code.clone() },
            ),
            Message::LobbyActionJoinResponse(e) => Message::LobbyActionJoinResponse(
                LobbyActionJoinResponse { lobby: e.lobby.clone() },
            ),
            Message::LobbyMessage(e) => Message::LobbyMessage(
                LobbyMessage { lobby_code: e.lobby_code.clone(), body: e.body.clone() },
            ),
            Message::LobbyMessageResponse(e) => Message::LobbyMessageResponse(
                LobbyMessageResponse { name: e.name.clone(), body: e.body.clone() },
            ),
            Message::LobbyErrorResponse(e) => Message::LobbyErrorResponse(
                LobbyErrorResponse { message: e.message.clone() },
            ),
        }
    }
}

} // verus!
