use vstd::prelude::*;

use crate::emulator::{spec_port_slot, BrummCpuEmulator, MachineState};
use crate::text::chars_of;

verus! {

/// The characters of the character display, indexed by the byte written to
/// its port.
pub open spec fn glyphs() -> Seq<char> {
    "0123456789abcdefghijklmnopqrstuvwxyzåäöABCDEFGHIJKLMNOPQRSTUVWXYZÅÄÖ \n"@
}

/// The character the character display shows for a byte, if the byte is an
/// index into its character table.
pub fn display_glyph(val: u8) -> (c: Option<char>)
    ensures
        c == if (val as int) < glyphs().len() {
            Some(glyphs()[val as int])
        } else {
            None::<char>
        },
{
    let table = chars_of("0123456789abcdefghijklmnopqrstuvwxyzåäöABCDEFGHIJKLMNOPQRSTUVWXYZÅÄÖ \n");
    if (val as usize) < table.len() {
        Some(table[val as usize])
    } else {
        None
    }
}

/// A random byte from `rand::random`, which draws from the thread-local
/// generator seeded by the operating system; nothing is stated of its value.
/// (The generator's first use panics if the operating system has no source
/// of randomness, which no argument can rule out.)
#[verifier::external_body]
fn random_byte() -> u8 {
    rand::random::<u8>()
}

/// The listener of the random-number port: a fresh random byte becomes the
/// port's input; nothing else changes.
pub fn port_rng(emulator: &mut BrummCpuEmulator, called_from: u8)
    ensures
        match spec_port_slot(called_from) {
            Some(i) => final(emulator)@ == MachineState {
                io_in: old(emulator)@.io_in.update(i, final(emulator)@.io_in[i]),
                ..old(emulator)@
            },
            None => final(emulator)@ == old(emulator)@,
        },
{
    proof {
        emulator.lemma_well_formed();
    }
    let value: u8 = random_byte();
    emulator.set_input(called_from, value);
}

} // verus!
