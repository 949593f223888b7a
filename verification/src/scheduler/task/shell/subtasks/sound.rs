//! The `beep` command: the PC speaker driven by channel 2 of the programmable interval
//! timer. The library computes the port writes; reading and writing the ports is done
//! outside it.
use crate::utils::text::str_eq;
use crate::utils::{Port, PortWrite};
use vstd::prelude::*;
use vstd::string::*;

verus! {

/// The timer's input clock, in Hz.
pub const PIT_FREQUENCY: u32 = 1193180;

/// The beep's pitch, in Hz.
pub const BEEP_FREQUENCY: u32 = 1000;

/// The timer's command port.
pub const PIT_COMMAND_PORT: u16 = 0x43;

/// The data port of the timer's channel 2.
pub const PIT_CHANNEL2_PORT: u16 = 0x42;

/// The keyboard controller's port B, whose two low bits gate the speaker.
pub const SPEAKER_PORT: u16 = 0x61;

/// The divisor that sets channel 2 to the beep's pitch.
pub open spec fn spec_divisor() -> u32 {
    (PIT_FREQUENCY / BEEP_FREQUENCY) as u32
}

/// Channel 2 set to square waves at the beep's pitch: the mode command, then the divisor,
/// low byte first.
pub open spec fn spec_beep_setup() -> Seq<PortWrite> {
    seq![
        PortWrite { port: Port { addr: PIT_COMMAND_PORT }, value: 0xb6 },
        PortWrite { port: Port { addr: PIT_CHANNEL2_PORT }, value: (spec_divisor() % 256) as u8 },
        PortWrite { port: Port { addr: PIT_CHANNEL2_PORT }, value: ((spec_divisor() / 256) % 256) as u8 },
    ]
}

pub fn beep_setup() -> (r: Vec<PortWrite>)
    ensures
        r@ == spec_beep_setup(),
{
    let div: u32 = PIT_FREQUENCY / BEEP_FREQUENCY;
    let mut writes: Vec<PortWrite> = Vec::new();
    writes.push(PortWrite { port: Port::new(PIT_COMMAND_PORT), value: 0xb6 });
    writes.push(PortWrite { port: Port::new(PIT_CHANNEL2_PORT), value: (div % 256) as u8 });
    writes.push(PortWrite { port: Port::new(PIT_CHANNEL2_PORT), value: ((div / 256) % 256) as u8 });
    assert(writes@ =~= spec_beep_setup());
    writes
}

/// Whether the arguments ask for the speaker on: none, or `on`.
pub open spec fn spec_speaker_on(args: Seq<char>) -> bool {
    args.len() == 0 || args == seq!['o', 'n']
}

/// The speaker write for `args`, given the port's current value `speaker`: on sets its two
/// low bits, where they are not set already; off clears them.
pub open spec fn spec_beep(args: Seq<char>, speaker: u8) -> Option<PortWrite> {
    if spec_speaker_on(args) {
        if speaker != speaker | 3 {
            Some(PortWrite { port: Port { addr: SPEAKER_PORT }, value: speaker | 3 })
        } else {
            None
        }
    } else {
        Some(PortWrite { port: Port { addr: SPEAKER_PORT }, value: speaker & 0xfc })
    }
}

pub fn beep(args: &str, speaker: u8) -> (r: Option<PortWrite>)
    ensures
        r == spec_beep(args@, speaker),
{
    let on = "on";
    proof {
        reveal_strlit("on");
        assert(on@ =~= seq!['o', 'n']);
    }
    if args.unicode_len() == 0 || str_eq(args, on) {
        if speaker != speaker | 3 {
            Some(PortWrite { port: Port::new(SPEAKER_PORT), value: speaker | 3 })
        } else {
            None
        }
    } else {
        Some(PortWrite { port: Port::new(SPEAKER_PORT), value: speaker & 0xfc })
    }
}

} // verus!
