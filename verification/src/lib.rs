//! Verified core of a proxy for a multiplayer game client: the wire codec of
//! the game protocol, the per-connection modules that inspect and rewrite
//! packets, and the readers of the game's asset files.

pub mod assets;
pub mod config;
pub mod damage_monitor;
pub mod extra_datatypes;
pub mod flushskip_stats;
pub mod module;
pub mod packet_logger;
pub mod packets;
pub mod server_list;
pub mod read;
pub mod text;
pub mod write;
