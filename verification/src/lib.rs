//! Coordination of short-lived multiplayer lobbies: an optimistic-concurrency
//! repository of lobby records, the service that creates and joins lobbies
//! through it, fan-out planning of roster snapshots, and the tagged wire
//! protocol the clients speak.
pub mod codec;
pub mod dispatch;
pub mod lobby;
pub mod messages;
pub mod race;
pub mod repo;
pub mod service;

pub use lobby::Lobby;
pub use lobby::LobbyId;
pub use lobby::Player;
