//! Game logic of a small multiplayer dungeon: dice, the shared board, the
//! zone servers, the coordinator that splits the board among them, the
//! object broker that routes attacks across zones, and the hero's choices.

pub mod board;
pub mod dice;
pub mod protocol;
pub mod arena;
pub mod zones;
pub mod orb;
pub mod zone_server;
pub mod coordinator;
pub mod hero;
pub mod loot;
pub mod status;
pub mod api;
pub mod accounts;
pub mod catalog;
pub mod purchases;
pub mod duel;
