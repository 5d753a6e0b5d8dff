//! The hardware-backed transport: every frame is one bus transaction of its
//! own, carrying the frame's nine-bit word.
//!
//! The peripheral itself belongs to the caller, who hands the transport a
//! function that makes one transaction with a given word and reports how it
//! went. Chip-select is the peripheral's business, so sessions have no edges
//! here.

use vstd::prelude::*;
use crate::frame::{frame_word, ser, Frame};
use crate::transport::{
    data_frames, wrote, wrote_next_byte, wrote_nothing, Attempt, SpiProvider, WireFormat,
};

verus! {

/// The wire of the hardware-backed transport: one word for each frame, and
/// nothing to open or close a session.
pub open spec fn word_format() -> WireFormat<u16> {
    WireFormat {
        frame: |frame: Frame| seq![frame_word(frame.is_command, frame.byte)],
        open: Seq::empty(),
        close: Seq::empty(),
    }
}

/// The words of the frames of a record, in order.
pub open spec fn words_of<E>(log: Seq<Attempt<E>>) -> Seq<u16> {
    Seq::new(log.len(), |i: int| frame_word(log[i].frame.is_command, log[i].frame.byte))
}

/// The words of attempts that were made on the leading frames of `frames`
/// are what carries those frames.
proof fn words_of_run<E>(run: Seq<Attempt<E>>, frames: Seq<Frame>)
    requires
        run.len() <= frames.len(),
        forall|i: int| 0 <= i < run.len() ==> (#[trigger] run[i]).frame == frames[i],
    ensures
        words_of(run) == word_format().frames(frames.take(run.len() as int)),
    decreases run.len(),
{
    let taken = frames.take(run.len() as int);
    if run.len() == 0 {
        assert(words_of(run) =~= Seq::<u16>::empty());
    } else {
        words_of_run(run.drop_last(), frames);
        assert(taken.drop_last() =~= frames.take(run.len() - 1));
        assert(taken.last() == run.last().frame);
        assert(words_of(run) =~= words_of(run.drop_last()) + seq![
            frame_word(run.last().frame.is_command, run.last().frame.byte),
        ]);
    }
}

/// The hardware-backed transport over a bus function `B`, which fails with
/// an `E`.
pub struct HardwareSpi<B, E> {
    bus: B,
    log: Ghost<Seq<Attempt<E>>>,
}

impl<B: Fn(u16) -> Result<(), E>, E> HardwareSpi<B, E> {
    /// The function that makes the transactions.
    pub closed spec fn bus(&self) -> B {
        self.bus
    }

    /// A transport that makes its transactions through `bus`.
    pub fn new(bus: B) -> (spi: Self)
        requires
            forall|word: u16| call_requires(bus, (word,)),
        ensures
            spi.inv(),
            spi.bus() == bus,
            spi.log() == Seq::<Attempt<E>>::empty(),
    {
        HardwareSpi { bus, log: Ghost(Seq::empty()) }
    }

    /// Makes one transaction for each byte of `data`, in order, and stops
    /// at the first that fails.
    fn transact_each(&mut self, data: &[u8]) -> (r: Result<(), E>)
        requires
            old(self).inv(),
        ensures
            final(self).inv(),
            final(self).bus() == old(self).bus(),
            wrote(old(self).log(), final(self).log(), data_frames(data@), r),
    {
        let mut i: usize = 0;
        proof {
            assert(data_frames(data@.take(0)) =~= Seq::<Frame>::empty());
            wrote_nothing(self.log());
        }
        while i < data.len()
            invariant
                i <= data.len(),
                self.inv(),
                self.bus() == old(self).bus(),
                wrote(
                    old(self).log(),
                    self.log(),
                    data_frames(data@.take(i as int)),
                    Ok::<(), E>(()),
                ),
            decreases data.len() - i,
        {
            let ghost before = self.log();
            let outcome = self.write_byte(false, data[i]);
            proof {
                wrote_next_byte(old(self).log(), before, self.log(), data@, i as int, outcome);
            }
            match outcome {
                Ok(()) => {},
                Err(e) => {
                    return Err(e);
                },
            }
            i += 1;
        }
        proof {
            assert(data@.take(data@.len() as int) =~= data@);
        }
        Ok(())
    }

    /// Every attempt on record was a transaction: the bus function was
    /// called with the word of the frame, and the outcome on record is what
    /// it answered.
    pub proof fn attempt_was_transacted(&self, i: int)
        requires
            self.inv(),
            0 <= i < self.log().len(),
        ensures
            call_ensures(
                self.bus(),
                (frame_word(self.log()[i].frame.is_command, self.log()[i].frame.byte),),
                self.log()[i].outcome,
            ),
    {
    }
}

impl<B: Fn(u16) -> Result<(), E>, E> SpiProvider for HardwareSpi<B, E> {
    type Error = E;

    type Op = u16;

    closed spec fn log(&self) -> Seq<Attempt<E>> {
        self.log@
    }

    /// The word of every transaction made, in order.
    open spec fn wire(&self) -> Seq<u16> {
        words_of(self.log())
    }

    open spec fn format() -> WireFormat<u16> {
        word_format()
    }

    closed spec fn inv(&self) -> bool {
        &&& forall|word: u16| call_requires(self.bus, (word,))
        &&& forall|i: int|
            0 <= i < self.log@.len() ==> call_ensures(
                self.bus,
                (frame_word((#[trigger] self.log@[i]).frame.is_command, self.log@[i].frame.byte),),
                self.log@[i].outcome,
            )
    }

    /// Makes one transaction with the word of the frame and reports what the
    /// bus reported.
    fn write_byte(&mut self, is_command: bool, byte: u8) -> (r: Result<(), E>)
        ensures
            final(self).bus() == old(self).bus(),
            call_ensures(old(self).bus(), (frame_word(is_command, byte),), r),
    {
        let r = (self.bus)(ser(is_command, byte));
        self.log = Ghost(self.log@.push(Attempt { frame: Frame { is_command, byte }, outcome: r }));
        proof {
            assert(self.wire() =~= old(self).wire() + seq![frame_word(is_command, byte)]);
        }
        r
    }

    /// Does nothing: the peripheral asserts chip-select by itself.
    fn assert_cs(&mut self)
        ensures
            *final(self) == *old(self),
    {
        proof {
            assert(self.wire() + Seq::<u16>::empty() =~= self.wire());
        }
    }

    /// Does nothing: the peripheral releases chip-select by itself.
    fn release_cs(&mut self)
        ensures
            *final(self) == *old(self),
    {
        proof {
            assert(self.wire() + Seq::<u16>::empty() =~= self.wire());
        }
    }

    /// Makes one transaction with the word of the opcode.
    fn write_command(&mut self, command: u8) -> (r: Result<(), E>)
        ensures
            final(self).bus() == old(self).bus(),
            call_ensures(old(self).bus(), (frame_word(true, command),), r),
    {
        let r = self.write_byte(true, command);
        proof {
            let frame = Frame { is_command: true, byte: command };
            word_format().frames_one(frame);
            assert(self.wire() =~= old(self).wire() + word_format().session(seq![frame]));
        }
        r
    }

    /// Makes one transaction for each parameter byte, in order, and stops
    /// at the first that fails.
    fn write_data(&mut self, data: &[u8]) -> (r: Result<(), E>)
        ensures
            final(self).bus() == old(self).bus(),
    {
        let r = self.transact_each(data);
        proof {
            let before = old(self).log();
            let after = self.log();
            let run = after.skip(before.len() as int);
            words_of_run(run, data_frames(data@));
            assert(after.subrange(0, before.len() as int) == before);
            assert(words_of(after) =~= words_of(before) + words_of(run)) by {
                assert forall|i: int| 0 <= i < before.len() implies after[i] == before[i] by {
                    assert(after.subrange(0, before.len() as int)[i] == after[i]);
                }
            }
            assert(self.wire() =~= old(self).wire() + word_format().session(
                data_frames(data@).take(run.len() as int),
            ));
        }
        r
    }

    /// Runs `func` on the transport as it stands and does nothing else:
    /// the peripheral drives chip-select by itself.
    fn while_cs<F, R>(&mut self, func: F) -> (r: R) where F: FnOnce(&mut Self) -> R
        ensures
            exists|s: &mut Self|
                *s == *old(self) && *final(s) == *final(self) && call_ensures(func, (s,), r),
    {
        proof {
            assert(self.wire() + Seq::<u16>::empty() =~= self.wire());
        }
        let r = func(self);
        proof {
            assert(self.wire() + Seq::<u16>::empty() =~= self.wire());
        }
        r
    }
}

} // verus!
