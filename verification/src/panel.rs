//! The panel controller: the reset pulse and the programming sequence, run
//! against any transport.
//!
//! The controller writes to its transport itself. The reset line and the
//! clock are not its own: where the line has to move or time has to pass, the
//! controller stops and says so, and goes on when it is called again.

use vstd::prelude::*;
use crate::frame::Frame;
use crate::line::Level;
use crate::phase::{Event, Phase};
use crate::sequence::{
    command_frames, command_wire, commands, next_pause, next_pause_is_first, sequence_frames,
    sequence_frames_concat, sequence_wire, sequence_wire_prefix, sequence_wire_push, settle_ms,
    settle_time, Command, CommandView,
};
use crate::vendor::{vendor_commands, vendor_sequence};
use crate::transport::{
    data_frames, run_then_run, wrote, wrote_nothing, wrote_one, wrote_prefix, Attempt, SpiProvider,
    WireFormat,
};

verus! {

/// Time for which the reset line rests at each level of the reset pulse, in
/// milliseconds.
pub const RESET_HOLD_MS: u32 = 100;

/// Number of requests that make up the reset pulse.
pub const RESET_STEPS: u8 = 6;

/// Something the controller needs done that it cannot do itself.
#[derive(Clone, Copy, Debug, PartialEq, Eq, Structural)]
pub enum Request {
    /// Drive the reset line to this level.
    Reset(Level),
    /// Let this many milliseconds pass.
    DelayMs(u32),
}

/// How far bring-up has come.
#[derive(Clone, Copy, Debug, PartialEq, Eq, Structural)]
pub enum Progress {
    /// The controller waits for the request to be carried out.
    Pending(Request),
    /// The panel is configured.
    Ready,
}

/// Where the controller stands.
#[derive(Clone, Copy, Debug, PartialEq, Eq, Structural)]
pub enum Stage {
    /// In the reset pulse, with this many of its requests made.
    Reset(u8),
    /// In the programming sequence, with this many of its commands written.
    Configuring(usize),
    /// The panel is configured.
    Ready,
}

/// The phase of the device that a stage of the controller belongs to.
pub open spec fn phase_of(stage: Stage) -> Phase {
    match stage {
        Stage::Reset(_) => Phase::Reset,
        Stage::Configuring(_) => Phase::Configuring,
        Stage::Ready => Phase::Ready,
    }
}

/// The reset pulse: the line goes high, low and high again, and rests for
/// `RESET_HOLD_MS` at each level.
pub open spec fn reset_script() -> Seq<Request> {
    seq![
        Request::Reset(Level::High),
        Request::DelayMs(RESET_HOLD_MS),
        Request::Reset(Level::Low),
        Request::DelayMs(RESET_HOLD_MS),
        Request::Reset(Level::High),
        Request::DelayMs(RESET_HOLD_MS),
    ]
}

/// The levels to which a script drives the reset line, in order.
pub open spec fn levels_driven(script: Seq<Request>) -> Seq<Level>
    decreases script.len(),
{
    if script.len() == 0 {
        Seq::empty()
    } else {
        match script.last() {
            Request::Reset(level) => levels_driven(script.drop_last()).push(level),
            Request::DelayMs(_) => levels_driven(script.drop_last()),
        }
    }
}

/// The time that passes from position `from` of a script until the reset
/// line is driven again, or until the script ends, in milliseconds.
pub open spec fn hold_from(script: Seq<Request>, from: int) -> nat
    decreases script.len() - from,
{
    if from < 0 || from >= script.len() {
        0
    } else {
        match script[from] {
            Request::Reset(_) => 0,
            Request::DelayMs(ms) => ms as nat + hold_from(script, from + 1),
        }
    }
}

/// The reset pulse drives the line high, low and high, and each level is
/// held for at least `RESET_HOLD_MS` before the line moves again or the
/// pulse ends.
pub proof fn reset_pulse_holds_each_level()
    ensures
        levels_driven(reset_script()) == seq![Level::High, Level::Low, Level::High],
        forall|i: int|
            0 <= i < reset_script().len() && (#[trigger] reset_script()[i]) is Reset ==> hold_from(
                reset_script(),
                i + 1,
            ) >= RESET_HOLD_MS,
{
    let s = reset_script();
    reveal_with_fuel(levels_driven, 7);
    reveal_with_fuel(hold_from, 7);
    assert(s.drop_last() =~= s.take(5));
    assert(s.take(5).drop_last() =~= s.take(4));
    assert(s.take(4).drop_last() =~= s.take(3));
    assert(s.take(3).drop_last() =~= s.take(2));
    assert(s.take(2).drop_last() =~= s.take(1));
    assert(s.take(1).drop_last() =~= s.take(0));
    assert(levels_driven(s.take(0)) =~= Seq::<Level>::empty());
    assert(levels_driven(s.take(1)) =~= seq![Level::High]);
    assert(levels_driven(s.take(2)) =~= seq![Level::High]);
    assert(levels_driven(s.take(3)) =~= seq![Level::High, Level::Low]);
    assert(levels_driven(s.take(4)) =~= seq![Level::High, Level::Low]);
    assert(levels_driven(s.take(5)) =~= seq![Level::High, Level::Low, Level::High]);
    assert(levels_driven(s) =~= seq![Level::High, Level::Low, Level::High]);
    assert(hold_from(s, 1) >= RESET_HOLD_MS);
    assert(hold_from(s, 3) >= RESET_HOLD_MS);
    assert(hold_from(s, 5) >= RESET_HOLD_MS);
}

/// Request `n` of the reset pulse.
pub fn reset_request(n: u8) -> (request: Request)
    requires
        n < RESET_STEPS,
    ensures
        request == reset_script()[n as int],
{
    if n == 0 || n == 4 {
        Request::Reset(Level::High)
    } else if n == 2 {
        Request::Reset(Level::Low)
    } else {
        Request::DelayMs(RESET_HOLD_MS)
    }
}

/// What a result says of the writes behind it.
pub open spec fn outcome_of<T, E>(r: Result<T, E>) -> Result<(), E> {
    match r {
        Ok(_) => Ok(()),
        Err(e) => Err(e),
    }
}

/// The position behind the last command that one call of `init` writes when
/// it starts at command `from`: behind the first command that asks for a
/// pause, or the end of the sequence.
pub open spec fn writes_end(sequence: Seq<CommandView>, from: int) -> int {
    if next_pause(sequence, from) < sequence.len() {
        next_pause(sequence, from) + 1
    } else {
        sequence.len() as int
    }
}

/// What one call of `init` answers when it starts at command `from` and no
/// write fails.
pub open spec fn writes_progress(sequence: Seq<CommandView>, from: int) -> Progress {
    if next_pause(sequence, from) < sequence.len() {
        Progress::Pending(Request::DelayMs(settle_ms(sequence[next_pause(sequence, from)].opcode)))
    } else {
        Progress::Ready
    }
}

/// Where one call of `init` leaves the controller when it starts at command
/// `from` and no write fails.
pub open spec fn writes_stage(sequence: Seq<CommandView>, from: int) -> Stage {
    if next_pause(sequence, from) < sequence.len() {
        Stage::Configuring((next_pause(sequence, from) + 1) as usize)
    } else {
        Stage::Ready
    }
}

/// A step takes up the sequence where it stands, takes in at least one
/// command unless none is left, and leaves out nothing on its way: the
/// frames of the step followed by the frames of the rest are the frames
/// from where it stood. Where the step ends in a pause, the controller
/// stands behind the last command of the step.
pub proof fn step_joins_rest(sequence: Seq<CommandView>, from: int)
    requires
        0 <= from <= sequence.len(),
    ensures
        from <= writes_end(sequence, from) <= sequence.len(),
        from < sequence.len() ==> from < writes_end(sequence, from),
        sequence_frames(sequence.subrange(from, writes_end(sequence, from))) + sequence_frames(
            sequence.subrange(writes_end(sequence, from), sequence.len() as int),
        ) == sequence_frames(sequence.subrange(from, sequence.len() as int)),
        writes_progress(sequence, from) is Pending ==> writes_stage(sequence, from)
            == Stage::Configuring(writes_end(sequence, from) as usize),
        writes_progress(sequence, from) is Ready <==> writes_stage(sequence, from) is Ready,
{
    next_pause_is_first(sequence, from);
    let end = writes_end(sequence, from);
    let len = sequence.len() as int;
    assert(sequence.subrange(from, end) + sequence.subrange(end, len) =~= sequence.subrange(
        from,
        len,
    ));
    sequence_frames_concat(sequence.subrange(from, end), sequence.subrange(end, len));
}

/// The pauses that a run of commands asks for, in order.
pub open spec fn pauses(sequence: Seq<CommandView>) -> Seq<Request>
    decreases sequence.len(),
{
    if sequence.len() == 0 {
        Seq::empty()
    } else if settle_ms(sequence.last().opcode) > 0 {
        pauses(sequence.drop_last()).push(Request::DelayMs(settle_ms(sequence.last().opcode)))
    } else {
        pauses(sequence.drop_last())
    }
}

/// The frames that are written from command `from` on when `init` is called
/// until it answers `Ready` and no write fails.
pub open spec fn frames_to_ready(sequence: Seq<CommandView>, from: int) -> Seq<Frame>
    decreases sequence.len() - from,
{
    if from < 0 || from >= sequence.len() {
        Seq::empty()
    } else {
        proof {
            next_pause_is_first(sequence, from);
        }
        sequence_frames(sequence.subrange(from, writes_end(sequence, from))) + frames_to_ready(
            sequence,
            writes_end(sequence, from),
        )
    }
}

/// The requests that `init` answers with from command `from` on when it is
/// called until it answers `Ready` and no write fails.
pub open spec fn requests_to_ready(sequence: Seq<CommandView>, from: int) -> Seq<Request>
    decreases sequence.len() - from,
{
    if from < 0 || from >= sequence.len() {
        Seq::empty()
    } else {
        proof {
            next_pause_is_first(sequence, from);
        }
        match writes_progress(sequence, from) {
            Progress::Pending(request) => seq![request] + requests_to_ready(
                sequence,
                writes_end(sequence, from),
            ),
            Progress::Ready => Seq::empty(),
        }
    }
}

/// The pauses of two runs of commands are the pauses of the first followed
/// by the pauses of the second.
proof fn pauses_concat(first: Seq<CommandView>, second: Seq<CommandView>)
    ensures
        pauses(first + second) == pauses(first) + pauses(second),
    decreases second.len(),
{
    if second.len() == 0 {
        assert(first + second =~= first);
        assert(pauses(first) + pauses(second) =~= pauses(first));
    } else {
        pauses_concat(first, second.drop_last());
        assert((first + second).drop_last() =~= first + second.drop_last());
        assert((first + second).last() == second.last());
        assert(pauses(first + second) =~= pauses(first) + pauses(second));
    }
}

/// Commands none of which asks for a pause have no pauses.
proof fn pauses_of_none(sequence: Seq<CommandView>)
    requires
        forall|k: int| 0 <= k < sequence.len() ==> settle_ms(#[trigger] sequence[k].opcode) == 0,
    ensures
        pauses(sequence) == Seq::<Request>::empty(),
    decreases sequence.len(),
{
    if sequence.len() > 0 {
        pauses_of_none(sequence.drop_last());
    }
}

/// Called again and again, `init` writes every command of the sequence
/// once, in the order of the sequence, and stops for exactly the pauses that
/// the commands ask for, each behind the command that asks for it.
pub proof fn steps_cover_sequence(sequence: Seq<CommandView>, from: int)
    requires
        0 <= from <= sequence.len(),
    ensures
        frames_to_ready(sequence, from) == sequence_frames(
            sequence.subrange(from, sequence.len() as int),
        ),
        requests_to_ready(sequence, from) == pauses(sequence.subrange(from, sequence.len() as int)),
    decreases sequence.len() - from,
{
    let len = sequence.len() as int;
    if from == len {
        assert(sequence.subrange(from, len) =~= Seq::<CommandView>::empty());
    } else {
        let end = writes_end(sequence, from);
        let step = sequence.subrange(from, end);
        let rest = sequence.subrange(end, len);
        next_pause_is_first(sequence, from);
        step_joins_rest(sequence, from);
        steps_cover_sequence(sequence, end);
        assert(step + rest =~= sequence.subrange(from, len));
        pauses_concat(step, rest);
        if next_pause(sequence, from) < len {
            let quiet = step.drop_last();
            assert(step.last() == sequence[end - 1]);
            assert forall|k: int| 0 <= k < quiet.len() implies settle_ms(
                #[trigger] quiet[k].opcode,
            ) == 0 by {
                assert(quiet[k] == sequence[from + k]);
            }
            pauses_of_none(quiet);
            assert(pauses(step) =~= seq![Request::DelayMs(settle_ms(sequence[end - 1].opcode))]);
        } else {
            assert forall|k: int| 0 <= k < step.len() implies settle_ms(#[trigger] step[k].opcode)
                == 0 by {
                assert(step[k] == sequence[from + k]);
            }
            pauses_of_none(step);
            assert(rest =~= Seq::<CommandView>::empty());
            assert(frames_to_ready(sequence, end) =~= Seq::<Frame>::empty());
        }
    }
}

/// The controller goes through the phases of the device in their order:
/// a call of `init` leaves it in the phase it was in, or takes it to the
/// next by the event that the phase waits for, and a failed write takes it
/// from configuring back to reset.
pub proof fn stages_follow_phases(sequence: Seq<CommandView>, stage: Stage)
    ensures
        match stage {
            Stage::Reset(n) => {
                let next = phase_of(stage_after_reset_request(n));
                next == Phase::Reset || next == Phase::Reset.next(Event::Pulsed)
            },
            Stage::Configuring(from) => {
                let next = phase_of(writes_stage(sequence, from as int));
                next == Phase::Configuring || next == Phase::Configuring.next(Event::Configured)
            },
            Stage::Ready => true,
        },
        phase_of(Stage::Reset(0)) == Phase::Configuring.next(Event::Failed),
{
}

/// Where the controller stands once request `n` of the reset pulse is made.
pub open spec fn stage_after_reset_request(n: u8) -> Stage {
    if n + 1 < RESET_STEPS {
        Stage::Reset((n + 1) as u8)
    } else {
        Stage::Configuring(0)
    }
}

/// The controller of an ST7701-class panel over the transport `S`.
pub struct St7701<S> {
    spi: S,
    sequence: Vec<Command>,
    stage: Stage,
}

impl<S: SpiProvider> St7701<S> {
    /// The transport.
    pub closed spec fn spi(&self) -> S {
        self.spi
    }

    /// The programming sequence.
    pub closed spec fn sequence(&self) -> Seq<CommandView> {
        commands(self.sequence@)
    }

    pub closed spec fn spec_stage(&self) -> Stage {
        self.stage
    }

    /// The controller is well formed: its transport is, and its stage lies
    /// within the reset pulse or the sequence.
    pub open spec fn wf(&self) -> bool {
        &&& self.spi().inv()
        &&& match self.stage() {
            Stage::Reset(n) => n < RESET_STEPS,
            Stage::Configuring(i) => i <= self.sequence().len(),
            Stage::Ready => true,
        }
    }

    /// A controller that will program the panel with the sequence of
    /// `vendor_sequence`. It starts before the reset pulse.
    pub fn new(spi: S) -> (panel: Self)
        requires
            spi.inv(),
        ensures
            panel.wf(),
            panel.spi() == spi,
            panel.sequence() == vendor_commands(),
            panel.stage() == Stage::Reset(0),
    {
        St7701 { spi, sequence: vendor_sequence(), stage: Stage::Reset(0) }
    }

    /// A controller that will program `sequence` into the panel. It starts
    /// before the reset pulse.
    pub fn with_sequence(spi: S, sequence: Vec<Command>) -> (panel: Self)
        requires
            spi.inv(),
        ensures
            panel.wf(),
            panel.spi() == spi,
            panel.sequence() == commands(sequence@),
            panel.stage() == Stage::Reset(0),
    {
        St7701 { spi, sequence, stage: Stage::Reset(0) }
    }

    /// Where the controller stands.
    #[verifier::when_used_as_spec(spec_stage)]
    pub fn stage(&self) -> (stage: Stage)
        ensures
            stage == self.stage(),
    {
        self.stage
    }

    /// The phase of the device as far as the controller takes it.
    pub fn phase(&self) -> (phase: Phase)
        ensures
            phase == phase_of(self.stage()),
    {
        match self.stage {
            Stage::Reset(_) => Phase::Reset,
            Stage::Configuring(_) => Phase::Configuring,
            Stage::Ready => Phase::Ready,
        }
    }

    /// The transport, for the caller to use between two calls of `init`.
    pub fn spi_mut(&mut self) -> (spi: &mut S)
        ensures
            *spi == old(self).spi(),
            final(self).spi() == *final(spi),
            final(self).sequence() == old(self).sequence(),
            final(self).stage() == old(self).stage(),
    {
        &mut self.spi
    }

    /// Hands the transport back.
    pub fn release(self) -> (spi: S)
        ensures
            spi == self.spi(),
    {
        self.spi
    }

    /// Starts bring-up over and answers with the reset pulse, which the
    /// caller is to carry out request by request. The transport is left
    /// alone.
    pub fn reset(&mut self) -> (script: Vec<Request>)
        requires
            old(self).wf(),
        ensures
            final(self).wf(),
            script@ == reset_script(),
            final(self).stage() == Stage::Reset(0),
            final(self).spi() == old(self).spi(),
            final(self).sequence() == old(self).sequence(),
    {
        self.stage = Stage::Reset(0);
        let mut script: Vec<Request> = Vec::new();
        let mut n: u8 = 0;
        while n < RESET_STEPS
            invariant
                n <= RESET_STEPS,
                script@ == reset_script().take(n as int),
            decreases RESET_STEPS - n,
        {
            script.push(reset_request(n));
            proof {
                assert(script@ =~= reset_script().take(n + 1));
            }
            n += 1;
        }
        proof {
            assert(script@ =~= reset_script());
        }
        script
    }

    /// Takes bring-up one step further: as far as it goes without the reset
    /// line moving or time passing.
    ///
    /// Within the reset pulse the step is the next request of the pulse.
    /// Behind the pulse it is the commands of the sequence from where the
    /// controller stands up to and including the first that asks for a
    /// pause, in order; the answer is that pause, or `Ready` behind the last
    /// command. A command is written as its opcode, in a session of its
    /// own, followed by its parameter bytes, if it has any, in one session.
    /// The first frame that the transport fails to carry ends the step: its
    /// session is closed, what lay behind it is not written, the error is
    /// handed on as it came, and the controller is back before the reset
    /// pulse.
    pub fn init(&mut self) -> (r: Result<Progress, S::Error>)
        requires
            old(self).wf(),
        ensures
            final(self).wf(),
            final(self).sequence() == old(self).sequence(),
            match old(self).stage() {
                Stage::Reset(n) => {
                    &&& r == Ok::<Progress, S::Error>(Progress::Pending(reset_script()[n as int]))
                    &&& final(self).stage() == stage_after_reset_request(n)
                    &&& final(self).spi() == old(self).spi()
                },
                Stage::Configuring(from) => {
                    &&& wrote(
                        old(self).spi().log(),
                        final(self).spi().log(),
                        sequence_frames(
                            old(self).sequence().subrange(
                                from as int,
                                writes_end(old(self).sequence(), from as int),
                            ),
                        ),
                        outcome_of(r),
                    )
                    &&& final(self).spi().wire() == old(self).spi().wire() + sequence_wire(
                        S::format(),
                        old(self).sequence().subrange(
                            from as int,
                            writes_end(old(self).sequence(), from as int),
                        ),
                        final(self).spi().log().len() - old(self).spi().log().len(),
                    )
                    &&& match r {
                        Ok(progress) => {
                            &&& progress == writes_progress(old(self).sequence(), from as int)
                            &&& final(self).stage() == writes_stage(old(self).sequence(), from as int)
                        },
                        Err(_) => final(self).stage() == Stage::Reset(0),
                    }
                },
                Stage::Ready => {
                    &&& r == Ok::<Progress, S::Error>(Progress::Ready)
                    &&& final(self).stage() == Stage::Ready
                    &&& final(self).spi() == old(self).spi()
                },
            },
    {
        match self.stage {
            Stage::Reset(n) => {
                self.stage = if n + 1 < RESET_STEPS {
                    Stage::Reset(n + 1)
                } else {
                    Stage::Configuring(0)
                };
                Ok(Progress::Pending(reset_request(n)))
            },
            Stage::Configuring(from) => self.write_from(from),
            Stage::Ready => Ok(Progress::Ready),
        }
    }

    /// Writes the commands from position `from` up to and including the
    /// first that asks for a pause.
    fn write_from(&mut self, from: usize) -> (r: Result<Progress, S::Error>)
        requires
            old(self).wf(),
            from <= old(self).sequence().len(),
        ensures
            final(self).wf(),
            final(self).sequence() == old(self).sequence(),
            wrote(
                old(self).spi().log(),
                final(self).spi().log(),
                sequence_frames(
                    old(self).sequence().subrange(
                        from as int,
                        writes_end(old(self).sequence(), from as int),
                    ),
                ),
                outcome_of(r),
            ),
            final(self).spi().wire() == old(self).spi().wire() + sequence_wire(
                S::format(),
                old(self).sequence().subrange(
                    from as int,
                    writes_end(old(self).sequence(), from as int),
                ),
                final(self).spi().log().len() - old(self).spi().log().len(),
            ),
            match r {
                Ok(progress) => {
                    &&& progress == writes_progress(old(self).sequence(), from as int)
                    &&& final(self).stage() == writes_stage(old(self).sequence(), from as int)
                },
                Err(_) => final(self).stage() == Stage::Reset(0),
            },
    {
        let ghost sequence = self.sequence();
        let ghost log0 = self.spi.log();
        let ghost wire0 = self.spi.wire();
        let mut i: usize = from;
        proof {
            assert(sequence.subrange(from as int, from as int) =~= Seq::<CommandView>::empty());
            wrote_nothing(log0);
            assert(wire0 + Seq::<S::Op>::empty() =~= wire0);
        }
        while i < self.sequence.len()
            invariant
                from <= i <= self.sequence@.len(),
                self.spi.inv(),
                self.sequence == old(self).sequence,
                sequence == commands(self.sequence@),
                log0 == old(self).spi.log(),
                wire0 == old(self).spi.wire(),
                next_pause(sequence, from as int) == next_pause(sequence, i as int),
                wrote(
                    log0,
                    self.spi.log(),
                    sequence_frames(sequence.subrange(from as int, i as int)),
                    Ok::<(), S::Error>(()),
                ),
                self.spi.wire() == wire0 + sequence_wire(
                    S::format(),
                    sequence.subrange(from as int, i as int),
                    self.spi.log().len() - log0.len(),
                ),
            decreases self.sequence@.len() - i,
        {
            let ghost log1 = self.spi.log();
            let ghost wire1 = self.spi.wire();
            let opcode = self.sequence[i].opcode;
            let written = self.write_one(i);
            proof {
                next_pause_is_first(sequence, i as int);
                step_written(sequence, from as int, i as int, log0, log1, self.spi.log(), written);
                step_wired(
                    S::format(),
                    sequence,
                    from as int,
                    i as int,
                    self.spi.log().len() - log1.len(),
                );
                let done = sequence_wire(
                    S::format(),
                    sequence.subrange(from as int, i as int),
                    log1.len() - log0.len(),
                );
                let this = command_wire(
                    S::format(),
                    sequence[i as int],
                    self.spi.log().len() - log1.len(),
                );
                assert((wire0 + done) + this =~= wire0 + (done + this));
            }
            match written {
                Ok(()) => {},
                Err(e) => {
                    self.stage = Stage::Reset(0);
                    return Err(e);
                },
            }
            let ms = settle_time(opcode);
            i += 1;
            if ms > 0 {
                self.stage = Stage::Configuring(i);
                return Ok(Progress::Pending(Request::DelayMs(ms)));
            }
        }
        proof {
            next_pause_is_first(sequence, i as int);
        }
        self.stage = Stage::Ready;
        Ok(Progress::Ready)
    }

    /// Writes command `i` of the sequence: its opcode, and its parameter
    /// bytes if it has any.
    fn write_one(&mut self, i: usize) -> (r: Result<(), S::Error>)
        requires
            old(self).spi.inv(),
            i < old(self).sequence@.len(),
        ensures
            final(self).spi.inv(),
            final(self).sequence == old(self).sequence,
            final(self).stage == old(self).stage,
            wrote(
                old(self).spi.log(),
                final(self).spi.log(),
                command_frames(old(self).sequence@[i as int]@),
                r,
            ),
            final(self).spi.wire() == old(self).spi.wire() + command_wire(
                S::format(),
                old(self).sequence@[i as int]@,
                final(self).spi.log().len() - old(self).spi.log().len(),
            ),
    {
        let ghost log0 = self.spi.log();
        let ghost wire0 = self.spi.wire();
        let ghost command = self.sequence@[i as int]@;
        let ghost opcode_frame = Frame { is_command: true, byte: command.opcode };
        let sent = self.spi.write_command(self.sequence[i].opcode);
        let ghost log1 = self.spi.log();
        proof {
            wrote_one(log0, opcode_frame, sent);
        }
        let ghost wire1 = self.spi.wire();
        proof {
            assert(wire1 + Seq::<S::Op>::empty() =~= wire1);
        }
        match sent {
            Ok(()) => {},
            Err(e) => {
                proof {
                    wrote_prefix(log0, log1, seq![opcode_frame], data_frames(command.params), e);
                }
                return Err(e);
            },
        }
        if self.sequence[i].params.len() > 0 {
            let sent = self.spi.write_data(self.sequence[i].params.as_slice());
            proof {
                run_then_run(
                    log0,
                    log1,
                    self.spi.log(),
                    seq![opcode_frame],
                    data_frames(command.params),
                    sent,
                );
                let block = S::format().session(
                    data_frames(command.params).take(self.spi.log().len() - log1.len()),
                );
                assert((wire0 + S::format().session(seq![opcode_frame])) + block =~= wire0 + (
                S::format().session(seq![opcode_frame]) + block));
            }
            sent
        } else {
            proof {
                assert(data_frames(command.params) =~= Seq::<Frame>::empty());
                assert(command_frames(command) =~= seq![opcode_frame]);
            }
            Ok(())
        }
    }
}

/// The sessions of one more command, behind the sessions of the commands
/// of a step written so far, are the sessions of the step up to that
/// command, and of the whole step if the command was its last or failed.
proof fn step_wired<Op>(
    format: WireFormat<Op>,
    sequence: Seq<CommandView>,
    from: int,
    i: int,
    attempted: int,
)
    requires
        0 <= from <= i < sequence.len(),
        1 <= attempted <= 1 + sequence[i].params.len(),
    ensures
        sequence_wire(
            format,
            sequence.subrange(from, i),
            sequence_frames(sequence.subrange(from, i)).len() as int,
        ) + command_wire(format, sequence[i], attempted) == sequence_wire(
            format,
            sequence.subrange(from, i + 1),
            sequence_frames(sequence.subrange(from, i)).len() + attempted,
        ),
        forall|end: int|
            i + 1 <= end <= sequence.len() ==> sequence_wire(
                format,
                sequence.subrange(from, i + 1),
                sequence_frames(sequence.subrange(from, i)).len() + attempted,
            ) == #[trigger] sequence_wire(
                format,
                sequence.subrange(from, end),
                sequence_frames(sequence.subrange(from, i)).len() + attempted,
            ),
{
    let done = sequence.subrange(from, i);
    let more = sequence.subrange(from, i + 1);
    assert(done.push(sequence[i]) =~= more);
    sequence_wire_push(format, done, sequence[i], attempted);
    assert(more.drop_last() =~= done);
    assert(sequence_frames(more).len() == sequence_frames(done).len() + 1
        + sequence[i].params.len());
    assert forall|end: int| i + 1 <= end <= sequence.len() implies sequence_wire(
        format,
        more,
        sequence_frames(done).len() + attempted,
    ) == #[trigger] sequence_wire(
        format,
        sequence.subrange(from, end),
        sequence_frames(done).len() + attempted,
    ) by {
        let rest = sequence.subrange(i + 1, end);
        assert(more + rest =~= sequence.subrange(from, end));
        sequence_wire_prefix(format, more, rest, sequence_frames(done).len() + attempted);
    }
}

/// One more command written, or failed, behind the commands of a step
/// written so far.
proof fn step_written<E>(
    sequence: Seq<CommandView>,
    from: int,
    i: int,
    log0: Seq<Attempt<E>>,
    log1: Seq<Attempt<E>>,
    log2: Seq<Attempt<E>>,
    r: Result<(), E>,
)
    requires
        0 <= from <= i < sequence.len(),
        next_pause(sequence, from) == next_pause(sequence, i),
        wrote(log0, log1, sequence_frames(sequence.subrange(from, i)), Ok::<(), E>(())),
        wrote(log1, log2, command_frames(sequence[i]), r),
    ensures
        i + 1 <= writes_end(sequence, from) <= sequence.len(),
        settle_ms(sequence[i].opcode) > 0 ==> next_pause(sequence, from) == i,
        settle_ms(sequence[i].opcode) == 0 ==> next_pause(sequence, from) == next_pause(
            sequence,
            i + 1,
        ),
        r is Ok ==> wrote(log0, log2, sequence_frames(sequence.subrange(from, i + 1)), r),
        r is Err ==> wrote(
            log0,
            log2,
            sequence_frames(sequence.subrange(from, writes_end(sequence, from))),
            r,
        ),
{
    next_pause_is_first(sequence, i);
    let done = sequence.subrange(from, i);
    let more = sequence.subrange(from, i + 1);
    assert(more.drop_last() =~= done);
    assert(more.last() == sequence[i]);
    run_then_run(log0, log1, log2, sequence_frames(done), command_frames(sequence[i]), r);
    if r is Err {
        let end = writes_end(sequence, from);
        let rest = sequence.subrange(i + 1, end);
        assert(sequence.subrange(from, end) =~= more + rest);
        sequence_frames_concat(more, rest);
        wrote_prefix(log0, log2, sequence_frames(more), sequence_frames(rest), r->Err_0);
    }
}

} // verus!
