//! The record that the packet log holds for each packet. Writing the log file
//! is left to the program around the library.

use vstd::prelude::*;

verus! {

/// Which way a packet travels.
#[derive(Debug, Clone, Copy, PartialEq, Eq, Structural)]
pub enum Direction {
    /// Client to server.
    C2S,
    /// Server to client.
    S2C,
}

/// The little-endian bytes of a number below `256^n`.
pub open spec fn le_bytes(v: nat, n: nat) -> Seq<u8>
    decreases n,
{
    if n == 0 {
        Seq::empty()
    } else {
        seq![(v % 256) as u8] + le_bytes(v / 256, (n - 1) as nat)
    }
}

/// A log record: `c` or `s` for the side the packet came from, the time in
/// nanoseconds since logging started (16 bytes), the packet's length (4
/// bytes, the low 32 bits), then the packet.
pub open spec fn log_record(direction: Direction, elapsed_nanos: u128, packet: Seq<u8>) -> Seq<u8> {
    seq![if direction == Direction::C2S { 99u8 } else { 115u8 }]
        + le_bytes(elapsed_nanos as nat, 16)
        + le_bytes((packet.len() % 0x1_0000_0000) as nat, 4)
        + packet
}

fn push_le(out: &mut Vec<u8>, v: u128, n: usize)
    requires
        n <= 16,
    ensures
        final(out)@ == old(out)@ + le_bytes(v as nat, n as nat),
    decreases n,
{
    if n == 0 {
        assert(le_bytes(v as nat, 0) =~= Seq::<u8>::empty());
        assert(out@ =~= old(out)@ + le_bytes(v as nat, 0));
        return;
    }
    out.push((v % 256) as u8);
    push_le(out, v / 256, n - 1);
    assert(out@ =~= old(out)@ + le_bytes(v as nat, n as nat));
}

/// The log record of a packet.
pub fn record(direction: Direction, elapsed_nanos: u128, packet: &[u8]) -> (r: Vec<u8>)
    ensures
        r@ == log_record(direction, elapsed_nanos, packet@),
{
    let mut out: Vec<u8> = Vec::new();
    let dir: u8 = match direction {
        Direction::C2S => 99,
        Direction::S2C => 115,
    };
    out.push(dir);
    push_le(&mut out, elapsed_nanos, 16);
    let len = (packet.len() as u64 % 0x1_0000_0000) as u128;
    push_le(&mut out, len, 4);
    let mut i: usize = 0;
    let ghost head = out@;
    while i < packet.len()
        invariant
            i <= packet.len(),
            out@ == head + packet@.take(i as int),
        decreases packet.len() - i,
    {
        out.push(packet[i]);
        assert(packet@.take(i + 1) =~= packet@.take(i as int).push(packet@[i as int]));
        i += 1;
    }
    assert(packet@.take(packet.len() as int) =~= packet@);
    assert(out@ =~= log_record(direction, elapsed_nanos, packet@));
    out
}


/// Law: a record is 21 bytes longer than its packet and ends with it.
pub proof fn law_record_layout(direction: Direction, elapsed_nanos: u128, packet: Seq<u8>)
    ensures
        log_record(direction, elapsed_nanos, packet).len() == packet.len() + 21,
        log_record(direction, elapsed_nanos, packet).skip(21) == packet,
{
    lemma_le_len(elapsed_nanos as nat, 16);
    lemma_le_len((packet.len() % 0x1_0000_0000) as nat, 4);
    assert(log_record(direction, elapsed_nanos, packet).skip(21) =~= packet);
}

proof fn lemma_le_len(v: nat, n: nat)
    ensures
        le_bytes(v, n).len() == n,
    decreases n,
{
    if n > 0 {
        lemma_le_len(v / 256, (n - 1) as nat);
    }
}
} // verus!
