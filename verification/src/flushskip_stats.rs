//! Counts how often the proxy flushed its streams, per direction, and how
//! long it waited in all between flushes.

use vstd::prelude::*;
use crate::packet_logger::Direction;

verus! {

/// The counters of one direction. They wrap around on overflow.
#[derive(Debug, Clone, Copy)]
pub struct DirectionStats {
    /// Packets forwarded or sent.
    pub total_packets: u64,
    /// Flushes of the stream.
    pub flushes: u64,
    /// The time between flushes, in microseconds, summed.
    pub total_time: u64,
}

/// The counters of both directions.
#[derive(Debug, Clone, Copy)]
pub struct FlushSkips {
    pub s2c: DirectionStats,
    pub c2s: DirectionStats,
}

/// One direction's counters after a packet.
pub open spec fn counted(s: DirectionStats, elapsed_micros: u128, flushed: bool) -> DirectionStats {
    DirectionStats {
        total_packets: s.total_packets.wrapping_add(1),
        flushes: if flushed { s.flushes.wrapping_add(1) } else { s.flushes },
        total_time: if flushed { s.total_time.wrapping_add(elapsed_micros as u64) } else { s.total_time },
    }
}

impl FlushSkips {
    /// All counters at zero.
    pub fn new() -> (r: Self)
        ensures
            r.s2c == (DirectionStats { total_packets: 0, flushes: 0, total_time: 0 }),
            r.c2s == (DirectionStats { total_packets: 0, flushes: 0, total_time: 0 }),
    {
        FlushSkips {
            s2c: DirectionStats { total_packets: 0, flushes: 0, total_time: 0 },
            c2s: DirectionStats { total_packets: 0, flushes: 0, total_time: 0 },
        }
    }

    /// Counts a packet; if the stream was flushed after it, the flush and the
    /// time since the previous one (in microseconds, of which the low 64 bits
    /// count) too.
    pub fn add_packet(&mut self, direction: Direction, elapsed_micros: u128, flushed: bool)
        ensures
            direction == Direction::C2S ==> final(self).c2s == counted(old(self).c2s, elapsed_micros, flushed)
                && final(self).s2c == old(self).s2c,
            direction == Direction::S2C ==> final(self).s2c == counted(old(self).s2c, elapsed_micros, flushed)
                && final(self).c2s == old(self).c2s,
    {
        let micros = elapsed_micros as u64;
        let s = match direction {
            Direction::C2S => &mut self.c2s,
            Direction::S2C => &mut self.s2c,
        };
        s.total_packets = s.total_packets.wrapping_add(1);
        if flushed {
            s.flushes = s.flushes.wrapping_add(1);
            s.total_time = s.total_time.wrapping_add(micros);
        }
    }
}

} // verus!
