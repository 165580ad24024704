//! The modules: each keeps some state per connection and decides, packet by
//! packet, what is forwarded, what is changed and what is answered.

pub mod anti_push;
pub mod antidebuffs;
pub mod autonexus;
pub mod commands;
pub mod con;
pub mod cult_staff;
pub mod fake_slow;
pub mod general;
pub mod stats;

use vstd::prelude::*;

verus! {

/// Whether a packet goes on to its destination.
#[derive(Debug, Clone, Copy, PartialEq, Eq, Structural)]
pub enum PacketFlow {
    Forward,
    Block,
}

/// One end of the proxied connection.
#[derive(Debug, Clone, Copy, PartialEq, Eq, Structural)]
pub enum ProxySide {
    Server,
    Client,
}

/// The colour of a notification.
#[derive(Debug, Clone, Copy, PartialEq, Eq, Structural)]
pub enum NoticeColor {
    Blue,
    Red,
    Green,
    /// A colour as `0xRRGGBB`.
    Rgb(u32),
}

/// A notification shown to the player.
#[derive(Debug, Clone)]
pub struct Notice {
    pub text: String,
    pub color: NoticeColor,
}

/// A module: what it keeps for the whole session, and how it starts the state
/// that it keeps for each connection.
pub trait Module: Sized {
    type Instance;

    fn new() -> Self;
    fn instance(&self) -> Self::Instance;
}

/// The state that a module keeps for one connection.
pub trait ModuleInstance {
    /// The connection was closed by one of its sides. By default nothing happens.
    fn disconnect(&mut self, by: ProxySide) {
    }
}

} // verus!
