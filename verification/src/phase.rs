//! The phases of the device: reset, configuring, ready, streaming.

use vstd::prelude::*;

verus! {

/// Where the device stands between power-on and streaming.
#[derive(Clone, Copy, Debug, PartialEq, Eq, Structural)]
pub enum Phase {
    /// The panel is held in, or goes through, its reset pulse.
    Reset,
    /// The programming sequence is being written.
    Configuring,
    /// The panel is configured and the engine has not started.
    Ready,
    /// The engine drains the ring buffer. Nothing leads out of this phase.
    Streaming,
}

/// What moves the device from one phase to the next.
#[derive(Clone, Copy, Debug, PartialEq, Eq, Structural)]
pub enum Event {
    /// The reset pulse has been carried out.
    Pulsed,
    /// The last command of the sequence has been written and the panel has
    /// settled.
    Configured,
    /// A write of the sequence has failed.
    Failed,
    /// The engine has started.
    Started,
}

impl Phase {
    /// The phase after `event`. An event that the phase does not wait for
    /// changes nothing; a failed write while configuring leads back to the
    /// start.
    pub open spec fn next(self, event: Event) -> Phase {
        match (self, event) {
            (Phase::Reset, Event::Pulsed) => Phase::Configuring,
            (Phase::Configuring, Event::Configured) => Phase::Ready,
            (Phase::Configuring, Event::Failed) => Phase::Reset,
            (Phase::Ready, Event::Started) => Phase::Streaming,
            (phase, _) => phase,
        }
    }

    /// Computes `next`.
    pub fn on(self, event: Event) -> (phase: Phase)
        ensures
            phase == self.next(event),
    {
        match (self, event) {
            (Phase::Reset, Event::Pulsed) => Phase::Configuring,
            (Phase::Configuring, Event::Configured) => Phase::Ready,
            (Phase::Configuring, Event::Failed) => Phase::Reset,
            (Phase::Ready, Event::Started) => Phase::Streaming,
            (phase, _) => phase,
        }
    }

    /// The phase after a sequence of events.
    pub open spec fn after(self, events: Seq<Event>) -> Phase
        decreases events.len(),
    {
        if events.len() == 0 {
            self
        } else {
            self.after(events.drop_last()).next(events.last())
        }
    }
}

/// Streaming is the last phase: whatever happens, the device keeps
/// streaming.
pub proof fn streaming_is_terminal(events: Seq<Event>)
    ensures
        Phase::Streaming.after(events) == Phase::Streaming,
    decreases events.len(),
{
    if events.len() > 0 {
        streaming_is_terminal(events.drop_last());
    }
}

/// Streaming is entered from `Ready` alone, by the start of the engine.
pub proof fn streaming_follows_ready(phase: Phase, event: Event)
    requires
        phase != Phase::Streaming,
        phase.next(event) == Phase::Streaming,
    ensures
        phase == Phase::Ready,
        event == Event::Started,
{
}

/// `Ready` is entered from `Configuring` alone, by the end of the sequence.
pub proof fn ready_follows_configuring(phase: Phase, event: Event)
    requires
        phase != Phase::Ready,
        phase.next(event) == Phase::Ready,
    ensures
        phase == Phase::Configuring,
        event == Event::Configured,
{
}

} // verus!
