//! Which object the player is, which tick the client acknowledges next, and
//! the commands `/hi`, `/rotmguard` and `/devmode`.

use vstd::prelude::*;
use super::{Module, ModuleInstance, Notice, NoticeColor};
use crate::extra_datatypes::object_status_data::WorldPosBits;
use vstd::string::StringExecFns;
use crate::extra_datatypes::ObjectId;
use crate::packets::CreateSuccess;
use crate::text::starts_with;

verus! {

#[derive(Debug, Clone)]
pub struct General {}

#[derive(Debug, Clone)]
pub struct GeneralInst {
    /// The player's object id.
    pub my_object_id: ObjectId,
    /// The tick that the client is to acknowledge next.
    pub client_tick_id: u32,
}

impl Module for General {
    type Instance = GeneralInst;

    fn new() -> Self {
        General {}
    }

    fn instance(&self) -> (r: GeneralInst)
        ensures
            r.my_object_id.0 == 0,
            r.client_tick_id == 0,
    {
        GeneralInst { my_object_id: ObjectId(0), client_tick_id: 0 }
    }
}

impl ModuleInstance for GeneralInst {}

/// A command that this module answers.
#[derive(Debug, Clone, Copy, PartialEq, Eq, Structural)]
pub enum GeneralCommand {
    /// `/hi` or `/rotmguard`: a greeting that shows the proxy is in the way.
    Hi,
    /// `/devmode`: toggles developer mode.
    DevMode,
    /// Anything else, which goes on to the server.
    Other,
}

/// The command that a chat line starts with.
pub open spec fn general_command(text: Seq<char>) -> GeneralCommand {
    if "/hi"@.is_prefix_of(text) || "/rotmguard"@.is_prefix_of(text) {
        GeneralCommand::Hi
    } else if "/devmode"@.is_prefix_of(text) {
        GeneralCommand::DevMode
    } else {
        GeneralCommand::Other
    }
}

/// The colours that the greeting picks from.
pub open spec fn hi_colors() -> Seq<u32> {
    seq![0xff8080u32, 0xff8080u32, 0x80ffacu32, 0x80c6ffu32, 0xc480ffu32]
}

/// The message that tells the new state of developer mode.
pub open spec fn dev_mode_message(on: bool) -> Seq<char> {
    if on { "DEVELOPER MODE ON"@ } else { "DEVELOPER MODE OFF"@ }
}

/// Calls `rand::Rng::gen_range` on the thread-local generator with the range
/// `0..n`: a number below `n`, by chance.
#[verifier::external_body]
fn random_below(n: usize) -> (r: usize)
    requires
        n > 0,
    ensures
        r < n,
{
    rand::Rng::gen_range(&mut rand::thread_rng(), 0..n)
}

impl GeneralInst {
    /// The client acknowledges a tick with a move packet. Returns whether it was
    /// the tick that was expected; either way the next tick is expected next.
    pub fn acknowledge_tick(&mut self, tick_id: u32) -> (expected: bool)
        ensures
            expected == (tick_id == old(self).client_tick_id),
            final(self).client_tick_id == old(self).client_tick_id.wrapping_add(1),
            final(self).my_object_id == old(self).my_object_id,
    {
        let expected = tick_id == self.client_tick_id;
        self.client_tick_id = self.client_tick_id.wrapping_add(1);
        expected
    }

    /// The server tells which object the player is.
    pub fn create_success(&mut self, packet: &CreateSuccess)
        ensures
            final(self).my_object_id == packet.object_id,
            final(self).client_tick_id == old(self).client_tick_id,
    {
        self.my_object_id = packet.object_id;
    }
}

/// The command that a chat line holds.
pub fn command(text: &str) -> (c: GeneralCommand)
    ensures
        c == general_command(text@),
{
    if starts_with(text, "/hi") || starts_with(text, "/rotmguard") {
        GeneralCommand::Hi
    } else if starts_with(text, "/devmode") {
        GeneralCommand::DevMode
    } else {
        GeneralCommand::Other
    }
}

/// The colour of a greeting: one of the five, drawn by chance.
pub fn hi_color() -> (c: u32)
    ensures
        hi_colors().contains(c),
{
    let colors: [u32; 5] = [0xff8080, 0xff8080, 0x80ffac, 0x80c6ff, 0xc480ff];
    let i = random_below(5);
    let c = colors[i];
    assert(hi_colors()[i as int] == c);
    c
}

/// Toggles developer mode and returns the message that tells its new state.
pub fn toggle_dev_mode(dev_mode: &mut bool) -> (message: &'static str)
    ensures
        *final(dev_mode) == !*old(dev_mode),
        message@ == dev_mode_message(*final(dev_mode)),
{
    *dev_mode = !*dev_mode;
    if *dev_mode {
        "DEVELOPER MODE ON"
    } else {
        "DEVELOPER MODE OFF"
    }
}


/// A visual effect shown to the client. Positions and the duration are
/// `f32` values, kept by their bits.
#[derive(Debug, Clone, Copy)]
pub struct EffectRequest {
    pub effect_type: u8,
    pub target_object_id: ObjectId,
    pub pos1: WorldPosBits,
    pub pos2: WorldPosBits,
    pub color: u32,
    pub duration_bits: u32,
}

/// The bits of the `f32` 0.5.
pub const F32_HALF_BITS: u32 = 0x3f000000;
/// The bits of the `f32` 1.0.
pub const F32_ONE_BITS: u32 = 0x3f800000;
/// The bits of the `f32` 5.0.
pub const F32_FIVE_BITS: u32 = 0x40a00000;

/// What the greeting sends: a notification, then two effects on the player.
#[derive(Debug, Clone)]
pub struct HiAnswer {
    pub notice: Notice,
    pub effects: Vec<EffectRequest>,
}

/// The greeting in the colour `color` for the player `me`: "hi :)", a ring
/// from (0, 0) to (1, 1) for 5 seconds, then a flash for half a second.
pub open spec fn hi_answer_of(me: ObjectId, color: u32, r: HiAnswer) -> bool {
    &&& r.notice.text@ == "hi :)"@
    &&& r.notice.color == NoticeColor::Rgb(color)
    &&& r.effects@ == seq![
        EffectRequest {
            effect_type: 1,
            target_object_id: me,
            pos1: WorldPosBits { x: 0, y: 0 },
            pos2: WorldPosBits { x: F32_ONE_BITS, y: F32_ONE_BITS },
            color,
            duration_bits: F32_FIVE_BITS,
        },
        EffectRequest {
            effect_type: 37,
            target_object_id: me,
            pos1: WorldPosBits { x: 0, y: 0 },
            pos2: WorldPosBits { x: 0, y: 0 },
            color,
            duration_bits: F32_HALF_BITS,
        },
    ]
}

/// The answer to `/hi` or `/rotmguard`.
pub fn hi_answer(me: ObjectId, color: u32) -> (r: HiAnswer)
    ensures
        hi_answer_of(me, color, r),
{
    let mut effects: Vec<EffectRequest> = Vec::new();
    effects.push(EffectRequest {
        effect_type: 1,
        target_object_id: me,
        pos1: WorldPosBits { x: 0, y: 0 },
        pos2: WorldPosBits { x: F32_ONE_BITS, y: F32_ONE_BITS },
        color,
        duration_bits: F32_FIVE_BITS,
    });
    effects.push(EffectRequest {
        effect_type: 37,
        target_object_id: me,
        pos1: WorldPosBits { x: 0, y: 0 },
        pos2: WorldPosBits { x: 0, y: 0 },
        color,
        duration_bits: F32_HALF_BITS,
    });
    let r = HiAnswer { notice: Notice { text: String::from_str("hi :)"), color: NoticeColor::Rgb(color) }, effects };
    assert(r.effects@ =~= seq![r.effects@[0], r.effects@[1]]);
    r
}

/// The answer to `/devmode`: developer mode is toggled, and a green
/// notification tells its new state.
pub fn dev_mode_answer(dev_mode: &mut bool) -> (r: Notice)
    ensures
        *final(dev_mode) == !*old(dev_mode),
        r.text@ == dev_mode_message(*final(dev_mode)),
        r.color == NoticeColor::Green,
{
    let m = toggle_dev_mode(dev_mode);
    Notice { text: String::from_str(m), color: NoticeColor::Green }
}
} // verus!
