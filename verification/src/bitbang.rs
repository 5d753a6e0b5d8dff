//! The bit-banged transport: frames shifted out over chip-select, clock and
//! data lines, one line operation at a time.
//!
//! The transport does not touch a pin. It works out the line operations and
//! queues them; the caller takes them from the queue and carries them out in
//! order, which it may do at any time since no operation can fail.

use vstd::prelude::*;
use core::convert::Infallible;
use crate::frame::Frame;
use crate::line::{
    frame_levels, frames_of, frames_of_push, bit_level, level_of, lines_after, sampled,
    sampled_concat, sampled_push, Level, LineOp, Lines,
};
use crate::transport::{data_frames, Attempt, SpiProvider, WireFormat};

verus! {

const MSB_MASK: u8 = 0b1000_0000;

/// The operations that put the control bit on the wire: the data line is
/// made an output, set to the control level while the clock is low, and the
/// clock is raised.
pub open spec fn control_ops(is_command: bool) -> Seq<LineOp> {
    seq![
        LineOp::DataOutput,
        LineOp::Clock(Level::Low),
        LineOp::Data(level_of(!is_command)),
        LineOp::Clock(Level::High),
    ]
}

/// The operations that put one payload bit on the wire: a pause, the clock
/// lowered, the data line set to the bit, the clock raised.
pub open spec fn bit_ops(level: Level) -> Seq<LineOp> {
    seq![LineOp::BitDelay, LineOp::Clock(Level::Low), LineOp::Data(level), LineOp::Clock(Level::High)]
}

/// The operations for the first `n` payload bits of a byte, most significant
/// bit first.
pub open spec fn payload_ops(byte: u8, n: nat) -> Seq<LineOp>
    decreases n,
{
    if n == 0 {
        Seq::empty()
    } else {
        payload_ops(byte, (n - 1) as nat) + bit_ops(bit_level(byte, n - 1))
    }
}

/// The operations that end a frame: a last pause with the clock left high.
pub open spec fn closing_ops() -> Seq<LineOp> {
    seq![LineOp::BitDelay, LineOp::Clock(Level::High)]
}

/// The operations that carry one frame: the control bit, the eight payload
/// bits from the most significant down, and the closing pause.
pub open spec fn byte_ops(is_command: bool, byte: u8) -> Seq<LineOp> {
    control_ops(is_command) + payload_ops(byte, 8) + closing_ops()
}

/// The operations that carry a sequence of frames back to back.
pub open spec fn frames_ops(frames: Seq<Frame>) -> Seq<LineOp>
    decreases frames.len(),
{
    if frames.len() == 0 {
        Seq::empty()
    } else {
        frames_ops(frames.drop_last()) + byte_ops(frames.last().is_command, frames.last().byte)
    }
}

/// The operations that open a session: chip-select asserted, then the guard
/// pause.
pub open spec fn open_ops() -> Seq<LineOp> {
    seq![LineOp::ChipSelect(Level::Low), LineOp::GuardDelay]
}

/// The operations that close a session: the guard pause, then chip-select
/// released.
pub open spec fn close_ops() -> Seq<LineOp> {
    seq![LineOp::GuardDelay, LineOp::ChipSelect(Level::High)]
}

/// The operations of one session that carries `frames`: chip-select stays
/// asserted from before the first frame until after the last.
pub open spec fn session_ops(frames: Seq<Frame>) -> Seq<LineOp> {
    open_ops() + frames_ops(frames) + close_ops()
}

/// The wire of the bit-banged transport.
pub open spec fn line_format() -> WireFormat<LineOp> {
    WireFormat {
        frame: |frame: Frame| byte_ops(frame.is_command, frame.byte),
        open: open_ops(),
        close: close_ops(),
    }
}

/// In the format of the bit-banged transport, frames and sessions are
/// carried by the line operations of `frames_ops` and `session_ops`.
pub proof fn line_format_is_ops(frames: Seq<Frame>)
    ensures
        line_format().frames(frames) == frames_ops(frames),
        line_format().session(frames) == session_ops(frames),
    decreases frames.len(),
{
    if frames.len() > 0 {
        line_format_is_ops(frames.drop_last());
    }
}

/// Whatever the lines were at, the operations of one payload bit make the
/// panel sample that bit and nothing else, and leave the clock high.
pub proof fn bit_ops_sampled(start: Lines, level: Level)
    ensures
        sampled(start, bit_ops(level)) == seq![level],
        lines_after(start, bit_ops(level)).clock == Level::High,
{
    let a = Seq::<LineOp>::empty().push(LineOp::BitDelay);
    let b = a.push(LineOp::Clock(Level::Low));
    let c = b.push(LineOp::Data(level));
    let d = c.push(LineOp::Clock(Level::High));
    sampled_push(start, Seq::empty(), LineOp::BitDelay);
    sampled_push(start, a, LineOp::Clock(Level::Low));
    sampled_push(start, b, LineOp::Data(level));
    sampled_push(start, c, LineOp::Clock(Level::High));
    assert(d =~= bit_ops(level));
    assert(sampled(start, d) =~= seq![level]);
}

/// Whatever the lines were at, the operations of the control bit make the
/// panel sample that bit and nothing else, and leave the clock high.
pub proof fn control_ops_sampled(start: Lines, is_command: bool)
    ensures
        sampled(start, control_ops(is_command)) == seq![level_of(!is_command)],
        lines_after(start, control_ops(is_command)).clock == Level::High,
{
    let level = level_of(!is_command);
    let a = Seq::<LineOp>::empty().push(LineOp::DataOutput);
    let b = a.push(LineOp::Clock(Level::Low));
    let c = b.push(LineOp::Data(level));
    let d = c.push(LineOp::Clock(Level::High));
    sampled_push(start, Seq::empty(), LineOp::DataOutput);
    sampled_push(start, a, LineOp::Clock(Level::Low));
    sampled_push(start, b, LineOp::Data(level));
    sampled_push(start, c, LineOp::Clock(Level::High));
    assert(d =~= control_ops(is_command));
    assert(sampled(start, d) =~= seq![level]);
}

/// With the clock high, the closing operations make the panel sample
/// nothing.
pub proof fn closing_ops_sampled(start: Lines)
    requires
        start.clock == Level::High,
    ensures
        sampled(start, closing_ops()) == Seq::<Level>::empty(),
        lines_after(start, closing_ops()).clock == Level::High,
{
    let a = Seq::<LineOp>::empty().push(LineOp::BitDelay);
    let b = a.push(LineOp::Clock(Level::High));
    sampled_push(start, Seq::empty(), LineOp::BitDelay);
    sampled_push(start, a, LineOp::Clock(Level::High));
    assert(b =~= closing_ops());
}

/// The operations of the first `n` payload bits make the panel sample those
/// bits, most significant first.
pub proof fn payload_ops_sampled(start: Lines, byte: u8, n: nat)
    requires
        start.clock == Level::High,
    ensures
        sampled(start, payload_ops(byte, n)) == Seq::new(n, |k: int| bit_level(byte, k)),
        lines_after(start, payload_ops(byte, n)).clock == Level::High,
    decreases n,
{
    if n == 0 {
        assert(sampled(start, payload_ops(byte, n)) =~= Seq::new(n, |k: int| bit_level(byte, k)));
    } else {
        let m = (n - 1) as nat;
        payload_ops_sampled(start, byte, m);
        sampled_concat(start, payload_ops(byte, m), bit_ops(bit_level(byte, n - 1)));
        bit_ops_sampled(lines_after(start, payload_ops(byte, m)), bit_level(byte, n - 1));
        assert(Seq::new(m, |k: int| bit_level(byte, k)) + seq![bit_level(byte, n - 1)] =~= Seq::new(
            n,
            |k: int| bit_level(byte, k),
        ));
    }
}

/// Sending a frame makes the panel sample, at the rising edges of the clock,
/// the control bit and then the payload bits from the most significant to
/// the least: nine levels, whatever the lines were at before.
pub proof fn byte_ops_sampled(start: Lines, is_command: bool, byte: u8)
    ensures
        sampled(start, byte_ops(is_command, byte)) == frame_levels(Frame { is_command, byte }),
        lines_after(start, byte_ops(is_command, byte)).clock == Level::High,
{
    let head = control_ops(is_command);
    let body = payload_ops(byte, 8);
    control_ops_sampled(start, is_command);
    let s1 = lines_after(start, head);
    payload_ops_sampled(s1, byte, 8);
    sampled_concat(start, head, body);
    let s2 = lines_after(start, head + body);
    closing_ops_sampled(s2);
    sampled_concat(start, head + body, closing_ops());
    assert(sampled(start, byte_ops(is_command, byte)) =~= frame_levels(Frame { is_command, byte }));
}

/// Opening or closing a session makes the panel sample nothing.
pub proof fn session_edges_sampled(start: Lines)
    ensures
        sampled(start, open_ops()) == Seq::<Level>::empty(),
        sampled(start, close_ops()) == Seq::<Level>::empty(),
        lines_after(start, open_ops()) == start,
        lines_after(start, close_ops()) == start,
{
    let a = Seq::<LineOp>::empty().push(LineOp::ChipSelect(Level::Low));
    let b = a.push(LineOp::GuardDelay);
    sampled_push(start, Seq::empty(), LineOp::ChipSelect(Level::Low));
    sampled_push(start, a, LineOp::GuardDelay);
    assert(b =~= open_ops());
    let c = Seq::<LineOp>::empty().push(LineOp::GuardDelay);
    let d = c.push(LineOp::ChipSelect(Level::High));
    sampled_push(start, Seq::empty(), LineOp::GuardDelay);
    sampled_push(start, c, LineOp::ChipSelect(Level::High));
    assert(d =~= close_ops());
}

/// What the panel has read from a history of line operations, starting with
/// the lines at rest.
pub open spec fn received(history: Seq<LineOp>) -> Seq<Frame> {
    frames_of(sampled(Lines::idle(), history))
}

/// Sending one more frame adds that frame to what the panel has read.
pub proof fn received_byte(history: Seq<LineOp>, is_command: bool, byte: u8)
    ensures
        received(history + byte_ops(is_command, byte)) == received(history).push(
            Frame { is_command, byte },
        ),
{
    sampled_concat(Lines::idle(), history, byte_ops(is_command, byte));
    byte_ops_sampled(lines_after(Lines::idle(), history), is_command, byte);
    frames_of_push(sampled(Lines::idle(), history), Frame { is_command, byte });
}

/// Opening or closing a session adds nothing to what the panel has read.
pub proof fn received_edges(history: Seq<LineOp>)
    ensures
        received(history + open_ops()) == received(history),
        received(history + close_ops()) == received(history),
{
    sampled_concat(Lines::idle(), history, open_ops());
    sampled_concat(Lines::idle(), history, close_ops());
    session_edges_sampled(lines_after(Lines::idle(), history));
    assert(sampled(Lines::idle(), history) + Seq::<Level>::empty() =~= sampled(
        Lines::idle(),
        history,
    ));
}

/// The record of a transport that delivered `frames` and never failed.
pub open spec fn delivered(frames: Seq<Frame>) -> Seq<Attempt<Infallible>> {
    Seq::new(frames.len(), |i: int| Attempt { frame: frames[i], outcome: Ok(()) })
}

/// Sending frames back to back adds them, in order, to what the panel has
/// read.
pub proof fn received_frames(history: Seq<LineOp>, frames: Seq<Frame>)
    ensures
        received(history + frames_ops(frames)) == received(history) + frames,
    decreases frames.len(),
{
    if frames.len() == 0 {
        assert(history + frames_ops(frames) =~= history);
        assert(received(history) + frames =~= received(history));
    } else {
        let init = frames.drop_last();
        let last = frames.last();
        received_frames(history, init);
        received_byte(history + frames_ops(init), last.is_command, last.byte);
        assert(history + frames_ops(frames) =~= (history + frames_ops(init)) + byte_ops(
            last.is_command,
            last.byte,
        ));
        assert((received(history) + init).push(last) =~= received(history) + frames);
    }
}

/// One session adds its frames, in order, to what the panel has read.
pub proof fn received_session(history: Seq<LineOp>, frames: Seq<Frame>)
    ensures
        received(history + session_ops(frames)) == received(history) + frames,
{
    received_edges(history);
    received_frames(history + open_ops(), frames);
    received_edges(history + open_ops() + frames_ops(frames));
    assert(history + session_ops(frames) =~= history + open_ops() + frames_ops(frames)
        + close_ops());
}

/// One frame sent alone is carried by the operations of that frame.
pub proof fn frames_ops_single(frame: Frame)
    ensures
        frames_ops(seq![frame]) == byte_ops(frame.is_command, frame.byte),
{
    let frames = seq![frame];
    assert(frames.drop_last() =~= Seq::<Frame>::empty());
    assert(frames_ops(frames.drop_last()) =~= Seq::<LineOp>::empty());
    assert(Seq::<LineOp>::empty() + byte_ops(frame.is_command, frame.byte) =~= byte_ops(
        frame.is_command,
        frame.byte,
    ));
}

/// A queue that grew by the opening of a session, then by `body`, then by
/// the closing, grew by the session as a whole.
proof fn session_joined(queue: Seq<LineOp>, frames: Seq<Frame>)
    ensures
        ((queue + open_ops()) + frames_ops(frames)) + close_ops() == queue + session_ops(frames),
{
    assert(((queue + open_ops()) + frames_ops(frames)) + close_ops() =~= queue + session_ops(
        frames,
    ));
}

/// The record of one more delivered frame.
proof fn delivered_push(frames: Seq<Frame>, frame: Frame)
    ensures
        delivered(frames + seq![frame]) == delivered(frames).push(
            Attempt { frame, outcome: Ok(()) },
        ),
{
    assert(delivered(frames + seq![frame]) =~= delivered(frames).push(
        Attempt { frame, outcome: Ok(()) },
    ));
}

/// The record of more delivered frames is a run over them that succeeded.
proof fn delivered_wrote(before: Seq<Frame>, frames: Seq<Frame>)
    ensures
        crate::transport::wrote(
            delivered(before),
            delivered(before + frames),
            frames,
            Ok::<(), Infallible>(()),
        ),
{
    let a = delivered(before);
    let b = delivered(before + frames);
    assert(b.subrange(0, a.len() as int) =~= a);
    let run = b.skip(a.len() as int);
    assert forall|i: int| 0 <= i < run.len() implies (#[trigger] run[i]).frame == frames[i]
        && run[i].outcome is Ok by {
        assert(run[i] == b[a.len() + i]);
    }
}

/// The bit-banged transport. It never fails.
///
/// Line operations are queued in the order in which they have to be carried
/// out. `view` is the queue; `history` is every operation queued since the
/// transport was made, taken from the queue or not.
pub struct ManualSpi {
    ops: Vec<LineOp>,
    history: Ghost<Seq<LineOp>>,
}

impl View for ManualSpi {
    type V = Seq<LineOp>;

    closed spec fn view(&self) -> Seq<LineOp> {
        self.ops@
    }
}

impl ManualSpi {
    pub closed spec fn history(&self) -> Seq<LineOp> {
        self.history@
    }

    /// The record of the transport is what the panel has read from the
    /// lines, every frame of it delivered.
    pub proof fn log_is_received(&self)
        ensures
            self.log() == delivered(received(self.history())),
    {
    }

    /// A transport that has queued nothing yet.
    pub fn new() -> (spi: ManualSpi)
        ensures
            spi.inv(),
            spi@ == Seq::<LineOp>::empty(),
            spi.history() == Seq::<LineOp>::empty(),
            spi.log() == Seq::<Attempt<Infallible>>::empty(),
    {
        let spi = ManualSpi { ops: Vec::new(), history: Ghost(Seq::empty()) };
        proof {
            assert(spi.history@.skip(0) =~= spi.ops@);
            assert(spi.log() =~= Seq::<Attempt<Infallible>>::empty());
        }
        spi
    }

    /// Hands out the queued operations, oldest first, and leaves the queue
    /// empty.
    pub fn take_ops(&mut self) -> (ops: Vec<LineOp>)
        requires
            old(self).inv(),
        ensures
            final(self).inv(),
            ops@ == old(self)@,
            final(self)@ == Seq::<LineOp>::empty(),
            final(self).history() == old(self).history(),
            final(self).log() == old(self).log(),
    {
        let mut ops: Vec<LineOp> = Vec::new();
        std::mem::swap(&mut self.ops, &mut ops);
        proof {
            assert(self.history@.skip(self.history@.len() - 0) =~= self.ops@);
        }
        ops
    }

    fn emit(&mut self, op: LineOp)
        requires
            old(self).inv(),
        ensures
            final(self).inv(),
            final(self)@ == old(self)@.push(op),
            final(self).history() == old(self).history().push(op),
    {
        self.ops.push(op);
        self.history = Ghost(self.history@.push(op));
        proof {
            let before = old(self).history@;
            let k = before.len() - old(self).ops@.len();
            assert(self.history@.skip(k) =~= before.skip(k).push(op));
        }
    }

    /// Shifts out parameter bytes back to back. Chip-select is left as it
    /// is.
    fn shift_out(&mut self, data: &[u8]) -> (r: Result<(), Infallible>)
        requires
            old(self).inv(),
        ensures
            final(self).inv(),
            r is Ok,
            final(self)@ == old(self)@ + frames_ops(data_frames(data@)),
            final(self).history() == old(self).history() + frames_ops(data_frames(data@)),
    {
        let mut i: usize = 0;
        proof {
            assert(data_frames(data@.take(0)) =~= Seq::<Frame>::empty());
            assert(self@ + frames_ops(data_frames(data@.take(0))) =~= self@);
            assert(self.history() + frames_ops(data_frames(data@.take(0))) =~= self.history());
        }
        while i < data.len()
            invariant
                i <= data.len(),
                self.inv(),
                self@ == old(self)@ + frames_ops(data_frames(data@.take(i as int))),
                self.history() == old(self).history() + frames_ops(
                    data_frames(data@.take(i as int)),
                ),
            decreases data.len() - i,
        {
            self.write_byte(false, data[i])?;
            proof {
                let done = data_frames(data@.take(i as int));
                let more = data_frames(data@.take(i + 1));
                assert(more.drop_last() =~= done);
                assert(more.last() == Frame { is_command: false, byte: data@[i as int] });
                assert(self@ =~= old(self)@ + frames_ops(more));
                assert(self.history() =~= old(self).history() + frames_ops(more));
            }
            i += 1;
        }
        proof {
            assert(data@.take(data@.len() as int) =~= data@);
        }
        Ok(())
    }
}

impl SpiProvider for ManualSpi {
    type Error = Infallible;

    type Op = LineOp;

    closed spec fn log(&self) -> Seq<Attempt<Infallible>> {
        delivered(received(self.history@))
    }

    /// The queue.
    open spec fn wire(&self) -> Seq<LineOp> {
        self@
    }

    open spec fn format() -> WireFormat<LineOp> {
        line_format()
    }

    closed spec fn inv(&self) -> bool {
        &&& self.ops@.len() <= self.history@.len()
        &&& self.history@.skip(self.history@.len() - self.ops@.len()) == self.ops@
    }

    /// Queues the line operations that carry one frame.
    fn write_byte(&mut self, is_command: bool, byte: u8) -> (r: Result<(), Infallible>)
        ensures
            r is Ok,
            final(self)@ == old(self)@ + byte_ops(is_command, byte),
            final(self).history() == old(self).history() + byte_ops(is_command, byte),
    {
        self.emit(LineOp::DataOutput);
        self.emit(LineOp::Clock(Level::Low));
        if is_command {
            self.emit(LineOp::Data(Level::Low));
        } else {
            self.emit(LineOp::Data(Level::High));
        }
        self.emit(LineOp::Clock(Level::High));
        proof {
            assert(self@ =~= old(self)@ + control_ops(is_command) + payload_ops(byte, 0));
            assert(self.history() =~= old(self).history() + control_ops(is_command) + payload_ops(
                byte,
                0,
            ));
        }
        let mut data: u8 = byte;
        let mut i: u8 = 0;
        proof {
            assert(byte == byte << 0u8) by (bit_vector);
        }
        while i < 8
            invariant
                i <= 8,
                self.inv(),
                i < 8 ==> data == byte << i,
                self@ == old(self)@ + control_ops(is_command) + payload_ops(byte, i as nat),
                self.history() == old(self).history() + control_ops(is_command) + payload_ops(
                    byte,
                    i as nat,
                ),
            decreases 8 - i,
        {
            self.emit(LineOp::BitDelay);
            self.emit(LineOp::Clock(Level::Low));
            proof {
                let d = data;
                let n = i;
                assert((d & 0x80 == 0x80) == (byte & (0x80u8 >> n) != 0)) by (bit_vector)
                    requires
                        n < 8,
                        d == byte << n,
                ;
            }
            if data & MSB_MASK == MSB_MASK {
                self.emit(LineOp::Data(Level::High));
            } else {
                self.emit(LineOp::Data(Level::Low));
            }
            self.emit(LineOp::Clock(Level::High));
            proof {
                let d = data;
                let n = i;
                assert(n < 7 ==> d << 1 == byte << ((n + 1) as u8)) by (bit_vector)
                    requires
                        n < 8,
                        d == byte << n,
                ;
                assert(self@ =~= old(self)@ + control_ops(is_command) + payload_ops(
                    byte,
                    (i + 1) as nat,
                ));
                assert(self.history() =~= old(self).history() + control_ops(is_command)
                    + payload_ops(byte, (i + 1) as nat));
            }
            data = data << 1;
            i += 1;
        }
        self.emit(LineOp::BitDelay);
        self.emit(LineOp::Clock(Level::High));
        proof {
            assert(self@ =~= old(self)@ + byte_ops(is_command, byte));
            assert(self.history() =~= old(self).history() + byte_ops(is_command, byte));
            received_byte(old(self).history(), is_command, byte);
            assert(self.log() =~= old(self).log().push(
                Attempt { frame: Frame { is_command, byte }, outcome: Ok(()) },
            ));
        }
        Ok(())
    }

    /// Queues the opening of a session: chip-select goes low, and the guard
    /// pause follows.
    fn assert_cs(&mut self)
        ensures
            final(self).history() == old(self).history() + open_ops(),
    {
        self.emit(LineOp::ChipSelect(Level::Low));
        self.emit(LineOp::GuardDelay);
        proof {
            assert(self@ =~= old(self)@ + open_ops());
            assert(self.history() =~= old(self).history() + open_ops());
            received_edges(old(self).history());
        }
    }

    /// Queues the closing of a session: the guard pause, and chip-select
    /// goes high.
    fn release_cs(&mut self)
        ensures
            final(self).history() == old(self).history() + close_ops(),
    {
        self.emit(LineOp::GuardDelay);
        self.emit(LineOp::ChipSelect(Level::High));
        proof {
            assert(self@ =~= old(self)@ + close_ops());
            assert(self.history() =~= old(self).history() + close_ops());
            received_edges(old(self).history());
        }
    }

    /// Queues one session that carries the opcode.
    fn write_command(&mut self, command: u8) -> (r: Result<(), Infallible>)
        ensures
            r is Ok,
            final(self)@ == old(self)@ + session_ops(seq![Frame { is_command: true, byte: command }]),
            final(self).history() == old(self).history() + session_ops(
                seq![Frame { is_command: true, byte: command }],
            ),
    {
        let send = |s: &mut Self| -> (o: Result<(), Infallible>)
            requires
                old(s).inv(),
            ensures
                final(s).inv(),
                o is Ok,
                final(s)@ == old(s)@ + byte_ops(true, command),
                final(s).history() == old(s).history() + byte_ops(true, command),
            {
                s.write_byte(true, command)
            };
        let r = self.while_cs(send);
        proof {
            let frame = Frame { is_command: true, byte: command };
            frames_ops_single(frame);
            session_joined(old(self)@, seq![frame]);
            session_joined(old(self).history(), seq![frame]);
            received_session(old(self).history(), seq![frame]);
            delivered_push(received(old(self).history()), frame);
            line_format_is_ops(seq![frame]);
            assert(r->Ok_0 == ());
        }
        r
    }

    /// Queues one session that carries the parameter bytes, in order.
    fn write_data(&mut self, data: &[u8]) -> (r: Result<(), Infallible>)
        ensures
            r is Ok,
            final(self)@ == old(self)@ + session_ops(data_frames(data@)),
            final(self).history() == old(self).history() + session_ops(data_frames(data@)),
    {
        let send = |s: &mut Self| -> (o: Result<(), Infallible>)
            requires
                old(s).inv(),
            ensures
                final(s).inv(),
                o is Ok,
                final(s)@ == old(s)@ + frames_ops(data_frames(data@)),
                final(s).history() == old(s).history() + frames_ops(data_frames(data@)),
            {
                s.shift_out(data)
            };
        let r = self.while_cs(send);
        proof {
            let frames = data_frames(data@);
            session_joined(old(self)@, frames);
            session_joined(old(self).history(), frames);
            received_session(old(self).history(), frames);
            delivered_wrote(received(old(self).history()), frames);
            line_format_is_ops(frames);
            assert(self.log().len() == old(self).log().len() + frames.len());
            assert(frames.take(frames.len() as int) =~= frames);
            assert(r->Ok_0 == ());
        }
        r
    }

    /// Queues the opening of a session, runs `func`, and queues the closing
    /// of the session behind whatever `func` queued.
    fn while_cs<F, R>(&mut self, func: F) -> (r: R) where F: FnOnce(&mut Self) -> R
        ensures
            exists|s: &mut Self|
                {
                    &&& s.inv()
                    &&& s.log() == old(self).log()
                    &&& final(s).log() == final(self).log()
                    &&& call_ensures(func, (s,), r)
                    &&& s@ == old(self)@ + open_ops()
                    &&& s.history() == old(self).history() + open_ops()
                    &&& final(self)@ == final(s)@ + close_ops()
                    &&& final(self).history() == final(s).history() + close_ops()
                },
    {
        self.assert_cs();
        let r = func(self);
        self.release_cs();
        r
    }
}

} // verus!
