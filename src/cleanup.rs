use vstd::prelude::*;

use crate::score::{spec_wire_bytes, write_midi_event, MidiMessage};

verus! {

/// "All Sound Off" (controller 120, value 0) on each of the 16 MIDI channels, in channel order.
pub fn all_sound_off() -> (r: Vec<Vec<u8>>)
    ensures
        r@.len() == 16,
        forall|c: int|
            0 <= c < 16 ==> (#[trigger] r@[c])@ == spec_wire_bytes(
                c as u8,
                MidiMessage::Controller { controller: 120, value: 0 },
            ),
        forall|c: int| 0 <= c < 16 ==> (#[trigger] r@[c])@ == seq![(0xB0 + c) as u8, 120u8, 0u8],
{
    let mut buf: Vec<Vec<u8>> = Vec::new();
    let mut channel: u8 = 0;
    while channel < 16
        invariant
            channel <= 16,
            buf@.len() == channel,
            forall|c: int|
                0 <= c < channel ==> (#[trigger] buf@[c])@ == spec_wire_bytes(
                    c as u8,
                    MidiMessage::Controller { controller: 120, value: 0 },
                ),
        decreases 16 - channel,
    {
        buf.push(write_midi_event(channel, MidiMessage::Controller { controller: 120, value: 0 }));
        channel = channel + 1;
    }
    buf
}

} // verus!
