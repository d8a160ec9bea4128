//! Real-time client/server synchronization core for a 2D multiplayer game:
//! a binary packet codec, drain-once mailboxes between network and simulation,
//! a client session driver, and a server-side connection registry with an
//! authentication stage and a player roster.

pub mod codec;
pub mod config;
pub mod mailbox;
pub mod registry;
pub mod roster;
pub mod session;
