//! The serial command transport: the capability that carries command and
//! parameter bytes to the panel, and the record of what a transport was asked
//! to carry.

use vstd::prelude::*;
use crate::frame::Frame;

verus! {

/// One frame handed to a transport, with what the transport answered.
pub struct Attempt<E> {
    pub frame: Frame,
    pub outcome: Result<(), E>,
}

/// The parameter frames of a byte sequence, in order.
pub open spec fn data_frames(bytes: Seq<u8>) -> Seq<Frame> {
    Seq::new(bytes.len(), |i: int| Frame { is_command: false, byte: bytes[i] })
}

/// How a transport lays frames and sessions out on its wire, in units of
/// `Op`: what carries one frame, what opens a session and what closes it.
pub struct WireFormat<Op> {
    pub frame: spec_fn(Frame) -> Seq<Op>,
    pub open: Seq<Op>,
    pub close: Seq<Op>,
}

impl<Op> WireFormat<Op> {
    /// What carries a sequence of frames, one after the other.
    pub open spec fn frames(self, frames: Seq<Frame>) -> Seq<Op>
        decreases frames.len(),
    {
        if frames.len() == 0 {
            Seq::empty()
        } else {
            self.frames(frames.drop_last()) + (self.frame)(frames.last())
        }
    }

    /// One session that carries `frames`: the opening, the frames, the
    /// closing.
    pub open spec fn session(self, frames: Seq<Frame>) -> Seq<Op> {
        self.open + self.frames(frames) + self.close
    }

    /// One more frame is carried behind the frames before it.
    pub proof fn frames_push(self, frames: Seq<Frame>, frame: Frame)
        ensures
            self.frames(frames.push(frame)) == self.frames(frames) + (self.frame)(frame),
    {
        assert(frames.push(frame).drop_last() =~= frames);
    }

    /// One frame alone is carried by what carries that frame.
    pub proof fn frames_one(self, frame: Frame)
        ensures
            self.frames(seq![frame]) == (self.frame)(frame),
            self.frames(Seq::<Frame>::empty()) == Seq::<Op>::empty(),
    {
        self.frames_push(Seq::empty(), frame);
        assert(Seq::<Frame>::empty().push(frame) =~= seq![frame]);
        assert(Seq::<Op>::empty() + (self.frame)(frame) =~= (self.frame)(frame));
    }

    /// A wire that grew by the opening of a session, then by `body`, then
    /// by the closing, grew by the three in a row.
    pub proof fn joined(self, wire: Seq<Op>, body: Seq<Op>)
        ensures
            ((wire + self.open) + body) + self.close == wire + (self.open + body + self.close),
    {
        assert(((wire + self.open) + body) + self.close =~= wire + (self.open + body + self.close));
    }
}

/// `run` is what a transport records when it is handed `frames` one after
/// the other and the hand-over stops at the first frame that fails: every
/// attempt carries the frame of its position, every attempt but a failing
/// last one succeeded, and `r` is the failure of that last one, or success
/// once every frame went through.
pub open spec fn is_run<E>(run: Seq<Attempt<E>>, frames: Seq<Frame>, r: Result<(), E>) -> bool {
    &&& run.len() <= frames.len()
    &&& forall|i: int| 0 <= i < run.len() ==> (#[trigger] run[i]).frame == frames[i]
    &&& match r {
        Ok(()) => {
            &&& run.len() == frames.len()
            &&& forall|i: int| 0 <= i < run.len() ==> (#[trigger] run[i]).outcome is Ok
        },
        Err(e) => {
            &&& run.len() >= 1
            &&& run.last().outcome == Err::<(), E>(e)
            &&& forall|i: int| 0 <= i < run.len() - 1 ==> (#[trigger] run[i]).outcome is Ok
        },
    }
}

/// `after` is `before` followed by a run over `frames` that ended in `r`.
pub open spec fn wrote<E>(
    before: Seq<Attempt<E>>,
    after: Seq<Attempt<E>>,
    frames: Seq<Frame>,
    r: Result<(), E>,
) -> bool {
    &&& before.len() <= after.len()
    &&& after.subrange(0, before.len() as int) == before
    &&& is_run(after.skip(before.len() as int), frames, r)
}

/// A failed run ends at the failure: the failing attempt is the last one
/// recorded, it carries the error that is reported, every attempt before it
/// succeeded, and the frames behind it were never handed over.
pub proof fn failed_run_stops_at_failure<E>(run: Seq<Attempt<E>>, frames: Seq<Frame>, e: E)
    requires
        is_run(run, frames, Err(e)),
    ensures
        1 <= run.len() <= frames.len(),
        run.last().frame == frames[run.len() - 1],
        run.last().outcome == Err::<(), E>(e),
        forall|i: int| 0 <= i < run.len() - 1 ==> (#[trigger] run[i]).outcome is Ok,
        forall|i: int| 0 <= i < run.len() ==> (#[trigger] run[i]).frame == frames[i],
{
}

/// A run reports success exactly when every frame was handed over and none
/// failed.
pub proof fn run_succeeds_iff_all_accepted<E>(run: Seq<Attempt<E>>, frames: Seq<Frame>, r: Result<(), E>)
    requires
        is_run(run, frames, r),
    ensures
        r is Ok <==> (run.len() == frames.len() && forall|i: int|
            0 <= i < run.len() ==> (#[trigger] run[i]).outcome is Ok),
{
    if r is Err {
        assert(run.last().outcome is Err);
        assert(run[run.len() - 1].outcome is Err);
    }
}

/// A successful run followed by a run is a run over the frames of both.
pub proof fn run_then_run<E>(
    before: Seq<Attempt<E>>,
    middle: Seq<Attempt<E>>,
    after: Seq<Attempt<E>>,
    first: Seq<Frame>,
    second: Seq<Frame>,
    r: Result<(), E>,
)
    requires
        wrote(before, middle, first, Ok(())),
        wrote(middle, after, second, r),
    ensures
        wrote(before, after, first + second, r),
{
    let a = middle.skip(before.len() as int);
    let b = after.skip(middle.len() as int);
    let ab = after.skip(before.len() as int);
    assert(after.subrange(0, before.len() as int) =~= before) by {
        assert forall|i: int| 0 <= i < before.len() implies after[i] == before[i] by {
            assert(after.subrange(0, middle.len() as int)[i] == middle[i]);
            assert(middle.subrange(0, before.len() as int)[i] == before[i]);
        }
    }
    assert forall|i: int| 0 <= i < ab.len() implies (#[trigger] ab[i]).frame == (first + second)[i] by {
        if i < a.len() {
            assert(after.subrange(0, middle.len() as int)[before.len() + i] == middle[before.len() + i]);
            assert(ab[i] == a[i]);
        } else {
            assert(ab[i] == b[i - a.len()]);
        }
    }
    assert forall|i: int| 0 <= i < ab.len() && (i < ab.len() - 1 || r is Ok) implies (#[trigger] ab[i]).outcome is Ok by {
        if i < a.len() {
            assert(after.subrange(0, middle.len() as int)[before.len() + i] == middle[before.len() + i]);
            assert(ab[i] == a[i]);
        } else {
            assert(ab[i] == b[i - a.len()]);
        }
    }
    if r is Err {
        assert(ab.last() == b.last());
    }
}

/// One attempt is a run over its frame.
pub proof fn wrote_one<E>(before: Seq<Attempt<E>>, frame: Frame, r: Result<(), E>)
    ensures
        wrote(before, before.push(Attempt { frame, outcome: r }), seq![frame], r),
{
    let after = before.push(Attempt { frame, outcome: r });
    assert(after.subrange(0, before.len() as int) =~= before);
    let run = after.skip(before.len() as int);
    assert(run.len() == 1);
    assert(run[0] == after[before.len() as int]);
    if r is Ok {
        assert(r->Ok_0 == ());
    }
}

/// Nothing attempted is a run over no frames that succeeded.
pub proof fn wrote_nothing<E>(before: Seq<Attempt<E>>)
    ensures
        wrote(before, before, Seq::<Frame>::empty(), Ok::<(), E>(())),
{
    assert(before.subrange(0, before.len() as int) =~= before);
}

/// A run that failed is a failed run over any longer sequence of frames:
/// what lies behind the failure was not attempted.
pub proof fn wrote_prefix<E>(
    before: Seq<Attempt<E>>,
    after: Seq<Attempt<E>>,
    frames: Seq<Frame>,
    more: Seq<Frame>,
    e: E,
)
    requires
        wrote(before, after, frames, Err(e)),
    ensures
        wrote(before, after, frames + more, Err(e)),
{
    let run = after.skip(before.len() as int);
    assert forall|i: int| 0 <= i < run.len() implies (#[trigger] run[i]).frame == (frames + more)[i] by {
        assert(run[i].frame == frames[i]);
    }
}

/// One more parameter byte handed over behind the first `i` bytes of
/// `data`, all of which went through: if it went through too, the first
/// `i + 1` bytes did; if it failed, the run over `data` failed there.
pub proof fn wrote_next_byte<E>(
    start: Seq<Attempt<E>>,
    before: Seq<Attempt<E>>,
    after: Seq<Attempt<E>>,
    data: Seq<u8>,
    i: int,
    outcome: Result<(), E>,
)
    requires
        0 <= i < data.len(),
        wrote(start, before, data_frames(data.take(i)), Ok::<(), E>(())),
        after == before.push(
            Attempt { frame: Frame { is_command: false, byte: data[i] }, outcome },
        ),
    ensures
        outcome is Ok ==> wrote(start, after, data_frames(data.take(i + 1)), Ok::<(), E>(())),
        outcome is Err ==> wrote(start, after, data_frames(data), outcome),
{
    let frame = Frame { is_command: false, byte: data[i] };
    wrote_one(before, frame, outcome);
    run_then_run(start, before, after, data_frames(data.take(i)), seq![frame], outcome);
    assert(data_frames(data.take(i)) + seq![frame] =~= data_frames(data.take(i + 1)));
    if outcome is Err {
        assert(data_frames(data.take(i + 1)) + data_frames(data.skip(i + 1)) =~= data_frames(data));
        wrote_prefix(
            start,
            after,
            data_frames(data.take(i + 1)),
            data_frames(data.skip(i + 1)),
            outcome->Err_0,
        );
    }
}

/// A transport for the panel's command protocol. An implementation carries
/// one frame at a time and opens and closes sessions; commands and parameter
/// blocks are built from that.
pub trait SpiProvider: Sized {
    /// What a failed attempt reports.
    type Error;

    /// One unit of what the transport puts on its wire.
    type Op;

    /// The transport's record: every frame it was handed since it was made,
    /// in order, each with the answer it gave.
    spec fn log(&self) -> Seq<Attempt<Self::Error>>;

    /// What the transport has put on its wire, in order, as far as the
    /// implementation keeps it.
    spec fn wire(&self) -> Seq<Self::Op>;

    /// How the transport lays frames and sessions out on its wire.
    spec fn format() -> WireFormat<Self::Op>;

    /// What the implementation needs to hold of itself between calls.
    spec fn inv(&self) -> bool;

    /// Carries one frame and records the attempt. The frame is put on the
    /// wire whether the attempt succeeds or not.
    fn write_byte(&mut self, is_command: bool, byte: u8) -> (r: Result<(), Self::Error>)
        requires
            old(self).inv(),
        ensures
            final(self).inv(),
            final(self).log() == old(self).log().push(
                Attempt { frame: Frame { is_command, byte }, outcome: r },
            ),
            final(self).wire() == old(self).wire() + (Self::format().frame)(
                Frame { is_command, byte },
            ),
    ;

    /// Opens a session.
    fn assert_cs(&mut self)
        requires
            old(self).inv(),
        ensures
            final(self).inv(),
            final(self).log() == old(self).log(),
            final(self).wire() == old(self).wire() + Self::format().open,
    ;

    /// Closes the session.
    fn release_cs(&mut self)
        requires
            old(self).inv(),
        ensures
            final(self).inv(),
            final(self).log() == old(self).log(),
            final(self).wire() == old(self).wire() + Self::format().close,
    ;

    /// Carries a command opcode, as a session of its own.
    fn write_command(&mut self, command: u8) -> (r: Result<(), Self::Error>)
        requires
            old(self).inv(),
        ensures
            final(self).inv(),
            final(self).log() == old(self).log().push(
                Attempt { frame: Frame { is_command: true, byte: command }, outcome: r },
            ),
            final(self).wire() == old(self).wire() + Self::format().session(
                seq![Frame { is_command: true, byte: command }],
            ),
    {
        let send = |s: &mut Self| -> (o: Result<(), Self::Error>)
            requires
                old(s).inv(),
            ensures
                final(s).inv(),
                final(s).log() == old(s).log().push(
                    Attempt { frame: Frame { is_command: true, byte: command }, outcome: o },
                ),
                final(s).wire() == old(s).wire() + (Self::format().frame)(
                    Frame { is_command: true, byte: command },
                ),
            {
                s.write_byte(true, command)
            };
        let r = self.while_cs(send);
        proof {
            let frame = Frame { is_command: true, byte: command };
            Self::format().frames_one(frame);
            Self::format().joined(old(self).wire(), (Self::format().frame)(frame));
        }
        r
    }

    /// Carries parameter bytes in order, as one session, and stops at the
    /// first byte that the transport fails to carry. The session is closed
    /// whether a byte fails or not.
    fn write_data(&mut self, data: &[u8]) -> (r: Result<(), Self::Error>)
        requires
            old(self).inv(),
        ensures
            final(self).inv(),
            wrote(old(self).log(), final(self).log(), data_frames(data@), r),
            final(self).wire() == old(self).wire() + Self::format().session(
                data_frames(data@).take(final(self).log().len() - old(self).log().len()),
            ),
    {
        let send = |s: &mut Self| -> (o: Result<(), Self::Error>)
            requires
                old(s).inv(),
            ensures
                final(s).inv(),
                wrote(old(s).log(), final(s).log(), data_frames(data@), o),
                final(s).wire() == old(s).wire() + Self::format().frames(
                    data_frames(data@).take(final(s).log().len() - old(s).log().len()),
                ),
            {
                let mut i: usize = 0;
                proof {
                    assert(data_frames(data@.take(0)) =~= Seq::<Frame>::empty());
                    assert(data_frames(data@).take(0) =~= Seq::<Frame>::empty());
                    wrote_nothing(s.log());
                    assert(s.wire() + Seq::<Self::Op>::empty() =~= s.wire());
                }
                while i < data.len()
                    invariant
                        i <= data.len(),
                        s.inv(),
                        wrote(
                            old(s).log(),
                            s.log(),
                            data_frames(data@.take(i as int)),
                            Ok::<(), Self::Error>(()),
                        ),
                        s.wire() == old(s).wire() + Self::format().frames(
                            data_frames(data@).take(i as int),
                        ),
                    decreases data.len() - i,
                {
                    let ghost before = s.log();
                    let ghost wire = s.wire();
                    let outcome = s.write_byte(false, data[i]);
                    proof {
                        wrote_next_byte(old(s).log(), before, s.log(), data@, i as int, outcome);
                        let frames = data_frames(data@);
                        Self::format().frames_push(frames.take(i as int), frames[i as int]);
                        assert(frames.take(i as int).push(frames[i as int]) =~= frames.take(i + 1));
                        assert(s.wire() =~= old(s).wire() + Self::format().frames(
                            frames.take(i + 1),
                        ));
                    }
                    match outcome {
                        Ok(()) => {},
                        Err(e) => {
                            return Err(e);
                        },
                    }
                    i += 1;
                }
                proof {
                    assert(data@.take(data@.len() as int) =~= data@);
                }
                Ok(())
            };
        let r = self.while_cs(send);
        proof {
            let attempted = self.log().len() - old(self).log().len();
            Self::format().joined(
                old(self).wire(),
                Self::format().frames(data_frames(data@).take(attempted)),
            );
        }
        r
    }

    /// Runs `func` once inside a session of the transport: opens the
    /// session, runs `func`, and closes the session, whatever `func`
    /// answers.
    fn while_cs<F, R>(&mut self, func: F) -> (r: R) where F: FnOnce(&mut Self) -> R
        requires
            old(self).inv(),
            forall|s: &mut Self|
                s.inv() && s.log() == old(self).log() && s.wire() == old(self).wire()
                    + Self::format().open ==> call_requires(func, (s,)),
            forall|s: &mut Self, o: R| s.inv() && call_ensures(func, (s,), o) ==> final(s).inv(),
        ensures
            final(self).inv(),
            exists|s: &mut Self|
                {
                    &&& s.inv()
                    &&& s.log() == old(self).log()
                    &&& s.wire() == old(self).wire() + Self::format().open
                    &&& final(self).log() == final(s).log()
                    &&& final(self).wire() == final(s).wire() + Self::format().close
                    &&& call_ensures(func, (s,), r)
                },
    {
        self.assert_cs();
        let r = func(self);
        self.release_cs();
        r
    }
}

} // verus!
