//! Frames: one control bit and one payload byte, and the word that carries
//! them over the hardware-backed transport.

use vstd::prelude::*;

verus! {

/// Position of the control bit in a frame word.
pub const CONTROL_BIT: u16 = 0x8000;

/// One unit of the panel's serial protocol: a control bit and a payload byte.
/// The control bit on the wire is 0 for a command opcode and 1 for a
/// parameter byte.
#[derive(Clone, Copy, Debug, PartialEq, Eq, Structural)]
pub struct Frame {
    pub is_command: bool,
    pub byte: u8,
}

impl Frame {
    /// The frame that carries a command opcode.
    pub fn command(opcode: u8) -> (f: Frame)
        ensures
            f == (Frame { is_command: true, byte: opcode }),
    {
        Frame { is_command: true, byte: opcode }
    }

    /// The frame that carries a parameter byte.
    pub fn data(byte: u8) -> (f: Frame)
        ensures
            f == (Frame { is_command: false, byte }),
    {
        Frame { is_command: false, byte }
    }

    /// The word that carries this frame over the hardware-backed transport.
    pub fn word(&self) -> (w: u16)
        ensures
            w == frame_word(self.is_command, self.byte),
    {
        ser(self.is_command, self.byte)
    }
}

/// The nine-bit word of a frame, held in the upper nine bits of sixteen: the
/// control bit is the most significant bit, the payload follows it, and the
/// seven bits below the payload are clear.
pub open spec fn frame_word(is_command: bool, byte: u8) -> u16 {
    ((byte as u16) << 7) | (if is_command { 0u16 } else { CONTROL_BIT })
}

/// The control bit of a frame word: set for a parameter byte, clear for a
/// command opcode.
pub open spec fn control_bit(word: u16) -> bool {
    word & CONTROL_BIT == CONTROL_BIT
}

/// The payload byte of a frame word.
pub open spec fn payload(word: u16) -> u8 {
    ((word >> 7) & 0xff) as u8
}

/// Serializes a frame for the hardware-backed transport.
pub fn ser(is_command: bool, byte: u8) -> (word: u16)
    ensures
        word == frame_word(is_command, byte),
        control_bit(word) == !is_command,
        payload(word) == byte,
        word & 0x7f == 0,
{
    let first_bit: u16 = if is_command { 0 } else { CONTROL_BIT };
    let word: u16 = ((byte as u16) << 7) | first_bit;
    proof {
        frame_word_fields(is_command, byte);
    }
    word
}

/// A frame word carries its control bit and its payload apart from each
/// other: the control bit is clear for every opcode and set for every
/// parameter byte, the payload reads back unchanged, and nothing else is set.
pub proof fn frame_word_fields(is_command: bool, byte: u8)
    ensures
        control_bit(frame_word(is_command, byte)) == !is_command,
        payload(frame_word(is_command, byte)) == byte,
        frame_word(is_command, byte) & 0x7f == 0,
{
    let b = byte;
    assert((((b as u16) << 7) | 0u16) & 0x8000u16 != 0x8000u16) by (bit_vector);
    assert((((b as u16) << 7) | 0x8000u16) & 0x8000u16 == 0x8000u16) by (bit_vector);
    assert((((((b as u16) << 7) | 0u16) >> 7) & 0xff) as u8 == b) by (bit_vector);
    assert((((((b as u16) << 7) | 0x8000u16) >> 7) & 0xff) as u8 == b) by (bit_vector);
    assert((((b as u16) << 7) | 0u16) & 0x7f == 0) by (bit_vector);
    assert((((b as u16) << 7) | 0x8000u16) & 0x7f == 0) by (bit_vector);
}

/// Two frames that differ have different words.
pub proof fn frame_word_injective(a: Frame, b: Frame)
    requires
        frame_word(a.is_command, a.byte) == frame_word(b.is_command, b.byte),
    ensures
        a == b,
{
    frame_word_fields(a.is_command, a.byte);
    frame_word_fields(b.is_command, b.byte);
}

} // verus!
