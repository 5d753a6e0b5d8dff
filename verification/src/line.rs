//! The three lines of the bit-banged transport, the operations that drive
//! them, and what the panel reads from them.

use vstd::prelude::*;
use crate::frame::Frame;

verus! {

/// Length of the pause between two clock transitions, in nanoseconds.
pub const BIT_DELAY_NS: u32 = 100;

/// Length of the pause after chip-select is asserted and before it is
/// released, in milliseconds.
pub const GUARD_DELAY_MS: u32 = 1;

/// Number of levels the panel samples for one frame: the control bit and
/// eight payload bits.
pub const FRAME_BITS: usize = 9;

/// The electrical level of a line.
#[derive(Clone, Copy, Debug, PartialEq, Eq, Structural)]
pub enum Level {
    Low,
    High,
}

/// One operation on the lines of the bit-banged transport. Chip-select is
/// asserted while it is low.
#[derive(Clone, Copy, Debug, PartialEq, Eq, Structural)]
pub enum LineOp {
    /// Switch the data line to output.
    DataOutput,
    /// Drive chip-select.
    ChipSelect(Level),
    /// Drive the clock line.
    Clock(Level),
    /// Drive the data line.
    Data(Level),
    /// Wait for `BIT_DELAY_NS`.
    BitDelay,
    /// Wait for `GUARD_DELAY_MS`.
    GuardDelay,
}

/// The levels of the two lines that the panel reads.
pub struct Lines {
    pub clock: Level,
    pub data: Level,
}

impl Lines {
    /// Both lines at rest.
    pub open spec fn idle() -> Lines {
        Lines { clock: Level::Low, data: Level::Low }
    }

    /// The lines once `op` has been carried out.
    pub open spec fn after(self, op: LineOp) -> Lines {
        match op {
            LineOp::Clock(level) => Lines { clock: level, data: self.data },
            LineOp::Data(level) => Lines { clock: self.clock, data: level },
            _ => self,
        }
    }

    /// Whether `op` is a rising clock edge, at which the panel samples the
    /// data line.
    pub open spec fn rises(self, op: LineOp) -> bool {
        op == LineOp::Clock(Level::High) && self.clock == Level::Low
    }
}

/// The lines once every operation of `ops` has been carried out, in order.
pub open spec fn lines_after(start: Lines, ops: Seq<LineOp>) -> Lines
    decreases ops.len(),
{
    if ops.len() == 0 {
        start
    } else {
        lines_after(start, ops.drop_last()).after(ops.last())
    }
}

/// The levels the panel samples while `ops` are carried out: the level of
/// the data line at each rising edge of the clock, in order.
pub open spec fn sampled(start: Lines, ops: Seq<LineOp>) -> Seq<Level>
    decreases ops.len(),
{
    if ops.len() == 0 {
        Seq::empty()
    } else {
        let before = lines_after(start, ops.drop_last());
        if before.rises(ops.last()) {
            sampled(start, ops.drop_last()).push(before.data)
        } else {
            sampled(start, ops.drop_last())
        }
    }
}

/// The level that stands for a bit.
pub open spec fn level_of(bit: bool) -> Level {
    if bit {
        Level::High
    } else {
        Level::Low
    }
}

/// Bit `k` of a byte as a level, counted from the most significant bit.
pub open spec fn bit_level(byte: u8, k: int) -> Level {
    level_of(byte & (0x80u8 >> (k as u8)) != 0)
}

/// The nine levels of a frame on the data line: the control bit, low for a
/// command and high for a parameter, then the payload from the most
/// significant bit to the least.
pub open spec fn frame_levels(frame: Frame) -> Seq<Level> {
    Seq::new(
        FRAME_BITS as nat,
        |i: int|
            if i == 0 {
                level_of(!frame.is_command)
            } else {
                bit_level(frame.byte, i - 1)
            },
    )
}

/// The value of a run of levels read as a binary number, first level first.
pub open spec fn value_of(levels: Seq<Level>) -> nat
    decreases levels.len(),
{
    if levels.len() == 0 {
        0
    } else {
        2 * value_of(levels.drop_last()) + if levels.last() == Level::High {
            1nat
        } else {
            0nat
        }
    }
}

/// The frame that nine sampled levels stand for.
pub open spec fn frame_of(levels: Seq<Level>) -> Frame {
    Frame { is_command: levels[0] == Level::Low, byte: value_of(levels.skip(1)) as u8 }
}

/// The frames that a sequence of sampled levels stands for, nine levels to
/// the frame. Levels that do not fill a frame at the front are dropped.
pub open spec fn frames_of(levels: Seq<Level>) -> Seq<Frame>
    decreases levels.len(),
{
    if levels.len() < FRAME_BITS {
        Seq::empty()
    } else {
        frames_of(levels.take(levels.len() - FRAME_BITS)).push(
            frame_of(levels.skip(levels.len() - FRAME_BITS)),
        )
    }
}

/// Carrying out one more operation samples one more level if it is a rising
/// clock edge, and nothing otherwise.
pub proof fn sampled_push(start: Lines, ops: Seq<LineOp>, op: LineOp)
    ensures
        lines_after(start, ops.push(op)) == lines_after(start, ops).after(op),
        sampled(start, ops.push(op)) == if lines_after(start, ops).rises(op) {
            sampled(start, ops).push(lines_after(start, ops).data)
        } else {
            sampled(start, ops)
        },
{
    assert(ops.push(op).drop_last() =~= ops);
}

/// What is sampled over two runs of operations is what is sampled over the
/// first, followed by what is sampled over the second from where the first
/// left the lines.
pub proof fn sampled_concat(start: Lines, first: Seq<LineOp>, second: Seq<LineOp>)
    ensures
        lines_after(start, first + second) == lines_after(lines_after(start, first), second),
        sampled(start, first + second) == sampled(start, first) + sampled(
            lines_after(start, first),
            second,
        ),
    decreases second.len(),
{
    if second.len() == 0 {
        assert(first + second =~= first);
        assert(sampled(start, first) + Seq::<Level>::empty() =~= sampled(start, first));
    } else {
        let init = second.drop_last();
        sampled_concat(start, first, init);
        assert((first + second).drop_last() =~= first + init);
        assert((first + second).last() == second.last());
        let mid = lines_after(start, first);
        if lines_after(mid, init).rises(second.last()) {
            assert(sampled(start, first) + sampled(mid, init).push(lines_after(mid, init).data)
                =~= (sampled(start, first) + sampled(mid, init)).push(lines_after(mid, init).data));
        }
    }
}

/// A byte is the value of its eight bits, most significant first.
pub proof fn value_of_bits(byte: u8)
    ensures
        value_of(Seq::new(8, |k: int| bit_level(byte, k))) == byte,
{
    let bits = Seq::new(8, |k: int| bit_level(byte, k));
    let b = |k: int| if bits[k] == Level::High { 1nat } else { 0nat };
    reveal_with_fuel(value_of, 9);
    assert(bits.take(0) =~= Seq::<Level>::empty());
    assert(bits.take(1).drop_last() =~= bits.take(0));
    assert(bits.take(2).drop_last() =~= bits.take(1));
    assert(bits.take(3).drop_last() =~= bits.take(2));
    assert(bits.take(4).drop_last() =~= bits.take(3));
    assert(bits.take(5).drop_last() =~= bits.take(4));
    assert(bits.take(6).drop_last() =~= bits.take(5));
    assert(bits.take(7).drop_last() =~= bits.take(6));
    assert(bits.take(8).drop_last() =~= bits.take(7));
    assert(bits.take(8) =~= bits);
    assert(value_of(bits.take(0)) == 0);
    assert(value_of(bits.take(1)) == b(0));
    assert(value_of(bits.take(2)) == 2 * b(0) + b(1));
    assert(value_of(bits.take(3)) == 4 * b(0) + 2 * b(1) + b(2));
    assert(value_of(bits.take(4)) == 8 * b(0) + 4 * b(1) + 2 * b(2) + b(3));
    assert(value_of(bits.take(5)) == 16 * b(0) + 8 * b(1) + 4 * b(2) + 2 * b(3) + b(4));
    assert(value_of(bits.take(6)) == 32 * b(0) + 16 * b(1) + 8 * b(2) + 4 * b(3) + 2 * b(4) + b(5));
    assert(value_of(bits.take(7)) == 64 * b(0) + 32 * b(1) + 16 * b(2) + 8 * b(3) + 4 * b(4) + 2
        * b(5) + b(6));
    assert(value_of(bits.take(8)) == 128 * b(0) + 64 * b(1) + 32 * b(2) + 16 * b(3) + 8 * b(4) + 4
        * b(5) + 2 * b(6) + b(7));
    assert(0x80u8 >> 0u8 == 0x80u8 && 0x80u8 >> 1u8 == 0x40u8 && 0x80u8 >> 2u8 == 0x20u8 && 0x80u8
        >> 3u8 == 0x10u8 && 0x80u8 >> 4u8 == 0x08u8 && 0x80u8 >> 5u8 == 0x04u8 && 0x80u8 >> 6u8
        == 0x02u8 && 0x80u8 >> 7u8 == 0x01u8) by (bit_vector);
    assert(byte == (if byte & 0x80 != 0 { 128u8 } else { 0u8 }) + (if byte & 0x40 != 0 { 64u8 } else { 0u8 })
        + (if byte & 0x20 != 0 { 32u8 } else { 0u8 }) + (if byte & 0x10 != 0 { 16u8 } else { 0u8 })
        + (if byte & 0x08 != 0 { 8u8 } else { 0u8 }) + (if byte & 0x04 != 0 { 4u8 } else { 0u8 })
        + (if byte & 0x02 != 0 { 2u8 } else { 0u8 }) + (if byte & 0x01 != 0 { 1u8 } else { 0u8 }))
        by (bit_vector);
    assert(bits[0] == bit_level(byte, 0));
    assert(bits[1] == bit_level(byte, 1));
    assert(bits[2] == bit_level(byte, 2));
    assert(bits[3] == bit_level(byte, 3));
    assert(bits[4] == bit_level(byte, 4));
    assert(bits[5] == bit_level(byte, 5));
    assert(bits[6] == bit_level(byte, 6));
    assert(bits[7] == bit_level(byte, 7));
}

/// The nine levels of a frame stand for that frame.
pub proof fn frame_of_levels(frame: Frame)
    ensures
        frame_of(frame_levels(frame)) == frame,
{
    let levels = frame_levels(frame);
    assert(levels.skip(1) =~= Seq::new(8, |k: int| bit_level(frame.byte, k)));
    value_of_bits(frame.byte);
}

/// Sampling the nine levels of one more frame adds that frame to what the
/// panel has read.
pub proof fn frames_of_push(levels: Seq<Level>, frame: Frame)
    ensures
        frames_of(levels + frame_levels(frame)) == frames_of(levels).push(frame),
{
    let all = levels + frame_levels(frame);
    assert(all.take(all.len() - FRAME_BITS) =~= levels);
    assert(all.skip(all.len() - FRAME_BITS) =~= frame_levels(frame));
    frame_of_levels(frame);
}

} // verus!
