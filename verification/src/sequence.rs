//! Panel commands and the programming sequence of the panel.
//!
//! The bytes of the sequence are the vendor's register settings for one panel
//! revision. The library carries them as data and attaches no meaning to
//! them, with two exceptions that the protocol itself makes: the panel has to
//! be left alone for a while after it was told to leave sleep, and again
//! after it was told to switch the display on.

use vstd::prelude::*;
use crate::frame::Frame;
use crate::transport::{data_frames, WireFormat};

verus! {

/// Opcode that takes the panel out of sleep.
pub const SLEEP_OUT: u8 = 0x11;

/// Opcode that switches the display on.
pub const DISPLAY_ON: u8 = 0x29;

/// Time the panel needs after `SLEEP_OUT`, in milliseconds.
pub const SLEEP_OUT_SETTLE_MS: u32 = 100;

/// Time the panel needs after `DISPLAY_ON`, in milliseconds.
pub const DISPLAY_ON_SETTLE_MS: u32 = 50;

/// One command of the panel: an opcode and the parameter bytes that belong
/// to it.
#[derive(Clone, Debug, PartialEq, Eq)]
pub struct Command {
    pub opcode: u8,
    pub params: Vec<u8>,
}

/// A command as a value: the opcode and the parameter bytes.
pub struct CommandView {
    pub opcode: u8,
    pub params: Seq<u8>,
}

impl View for Command {
    type V = CommandView;

    open spec fn view(&self) -> CommandView {
        CommandView { opcode: self.opcode, params: self.params@ }
    }
}

/// The commands of a table as values.
pub open spec fn commands(table: Seq<Command>) -> Seq<CommandView> {
    Seq::new(table.len(), |i: int| table[i]@)
}

/// The time for which the panel has to be left alone after a command, in
/// milliseconds: nothing after most of them.
pub open spec fn settle_ms(opcode: u8) -> u32 {
    if opcode == SLEEP_OUT {
        SLEEP_OUT_SETTLE_MS
    } else if opcode == DISPLAY_ON {
        DISPLAY_ON_SETTLE_MS
    } else {
        0
    }
}

/// Computes `settle_ms`.
pub fn settle_time(opcode: u8) -> (ms: u32)
    ensures
        ms == settle_ms(opcode),
{
    if opcode == SLEEP_OUT {
        SLEEP_OUT_SETTLE_MS
    } else if opcode == DISPLAY_ON {
        DISPLAY_ON_SETTLE_MS
    } else {
        0
    }
}

/// The frames of one command: the opcode, then the parameter bytes.
pub open spec fn command_frames(command: CommandView) -> Seq<Frame> {
    seq![Frame { is_command: true, byte: command.opcode }] + data_frames(command.params)
}

/// The frames of a run of commands, in order.
pub open spec fn sequence_frames(sequence: Seq<CommandView>) -> Seq<Frame>
    decreases sequence.len(),
{
    if sequence.len() == 0 {
        Seq::empty()
    } else {
        sequence_frames(sequence.drop_last()) + command_frames(sequence.last())
    }
}

/// The frames of two runs of commands are the frames of the first followed
/// by the frames of the second.
pub proof fn sequence_frames_concat(first: Seq<CommandView>, second: Seq<CommandView>)
    ensures
        sequence_frames(first + second) == sequence_frames(first) + sequence_frames(second),
    decreases second.len(),
{
    if second.len() == 0 {
        assert(first + second =~= first);
        assert(sequence_frames(first) + sequence_frames(second) =~= sequence_frames(first));
    } else {
        sequence_frames_concat(first, second.drop_last());
        assert((first + second).drop_last() =~= first + second.drop_last());
        assert((first + second).last() == second.last());
        assert(sequence_frames(first + second) =~= sequence_frames(first) + sequence_frames(second));
    }
}

/// What one command puts on a wire of the given format when `attempted` of
/// its frames are handed over: the session of the opcode, and behind it,
/// if the parameter block was reached, the session of the parameter bytes
/// that were handed over.
pub open spec fn command_wire<Op>(
    format: WireFormat<Op>,
    command: CommandView,
    attempted: int,
) -> Seq<Op> {
    format.session(seq![Frame { is_command: true, byte: command.opcode }]) + if attempted > 1 {
        format.session(data_frames(command.params).take(attempted - 1))
    } else {
        Seq::empty()
    }
}

/// What a run of commands puts on a wire of the given format when
/// `attempted` of its frames are handed over, one command after the other:
/// each command that is reached puts its sessions on the wire, and the
/// commands behind the last frame handed over put nothing there.
pub open spec fn sequence_wire<Op>(
    format: WireFormat<Op>,
    sequence: Seq<CommandView>,
    attempted: int,
) -> Seq<Op>
    decreases sequence.len(),
{
    if sequence.len() == 0 || attempted <= 0 {
        Seq::empty()
    } else {
        let first = sequence.first();
        let whole = 1 + first.params.len() as int;
        if attempted >= whole {
            command_wire(format, first, whole) + sequence_wire(
                format,
                sequence.skip(1),
                attempted - whole,
            )
        } else {
            command_wire(format, first, attempted)
        }
    }
}

/// The frames of a run of commands are the frames of the first command
/// followed by the frames of the others.
pub proof fn sequence_frames_front(sequence: Seq<CommandView>)
    requires
        sequence.len() > 0,
    ensures
        sequence_frames(sequence) == command_frames(sequence.first()) + sequence_frames(
            sequence.skip(1),
        ),
        sequence_frames(sequence).len() == 1 + sequence.first().params.len() + sequence_frames(
            sequence.skip(1),
        ).len(),
{
    let head = seq![sequence.first()];
    assert(head + sequence.skip(1) =~= sequence);
    sequence_frames_concat(head, sequence.skip(1));
    assert(head.drop_last() =~= Seq::<CommandView>::empty());
    assert(head.last() == sequence.first());
    assert(sequence_frames(head.drop_last()) =~= Seq::<Frame>::empty());
    assert(sequence_frames(head) =~= command_frames(sequence.first()));
}

/// One more command behind commands whose frames were all handed over
/// puts its sessions on the wire behind theirs.
pub proof fn sequence_wire_push<Op>(
    format: WireFormat<Op>,
    sequence: Seq<CommandView>,
    command: CommandView,
    attempted: int,
)
    requires
        1 <= attempted <= 1 + command.params.len(),
    ensures
        sequence_wire(format, sequence.push(command), sequence_frames(sequence).len() + attempted)
            == sequence_wire(format, sequence, sequence_frames(sequence).len() as int)
            + command_wire(format, command, attempted),
    decreases sequence.len(),
{
    let more = sequence.push(command);
    if sequence.len() == 0 {
        let whole = 1 + command.params.len() as int;
        assert(more.skip(1) =~= Seq::<CommandView>::empty());
        assert(more.first() == command);
        assert(sequence_frames(sequence).len() == 0);
        assert(sequence_wire(format, more.skip(1), attempted - whole) =~= Seq::<Op>::empty());
        assert(command_wire(format, command, whole) + Seq::<Op>::empty() =~= command_wire(
            format,
            command,
            whole,
        ));
        assert(sequence_wire(format, more, attempted) =~= command_wire(format, command, attempted));
        assert(Seq::<Op>::empty() + command_wire(format, command, attempted) =~= command_wire(
            format,
            command,
            attempted,
        ));
    } else {
        let rest = sequence.skip(1);
        sequence_frames_front(sequence);
        sequence_wire_push(format, rest, command, attempted);
        assert(more.skip(1) =~= rest.push(command));
        assert(more.first() == sequence.first());
        let whole = 1 + sequence.first().params.len() as int;
        assert(sequence_wire(format, more, sequence_frames(sequence).len() + attempted)
            == command_wire(format, sequence.first(), whole) + sequence_wire(
            format,
            rest.push(command),
            sequence_frames(rest).len() + attempted,
        ));
        assert(sequence_wire(format, sequence, sequence_frames(sequence).len() as int)
            == command_wire(format, sequence.first(), whole) + sequence_wire(
            format,
            rest,
            sequence_frames(rest).len() as int,
        ));
        assert(command_wire(format, sequence.first(), whole) + (sequence_wire(
            format,
            rest,
            sequence_frames(rest).len() as int,
        ) + command_wire(format, command, attempted)) =~= (command_wire(
            format,
            sequence.first(),
            whole,
        ) + sequence_wire(format, rest, sequence_frames(rest).len() as int)) + command_wire(
            format,
            command,
            attempted,
        ));
    }
}

/// Commands behind the last frame handed over put nothing on the wire.
pub proof fn sequence_wire_prefix<Op>(
    format: WireFormat<Op>,
    sequence: Seq<CommandView>,
    more: Seq<CommandView>,
    attempted: int,
)
    requires
        attempted <= sequence_frames(sequence).len(),
    ensures
        sequence_wire(format, sequence + more, attempted) == sequence_wire(
            format,
            sequence,
            attempted,
        ),
    decreases sequence.len(),
{
    if sequence.len() == 0 {
        assert(sequence + more =~= more);
    } else if attempted > 0 {
        let rest = sequence.skip(1);
        let whole = 1 + sequence.first().params.len() as int;
        sequence_frames_front(sequence);
        assert((sequence + more).skip(1) =~= rest + more);
        assert((sequence + more).first() == sequence.first());
        if attempted >= whole {
            sequence_wire_prefix(format, rest, more, attempted - whole);
        }
    }
}

/// The first command at or behind position `from` after which the panel has
/// to be left alone, or the length of the sequence if there is none.
pub open spec fn next_pause(sequence: Seq<CommandView>, from: int) -> int
    decreases sequence.len() - from,
{
    if from >= sequence.len() {
        sequence.len() as int
    } else if settle_ms(sequence[from].opcode) > 0 {
        from
    } else {
        next_pause(sequence, from + 1)
    }
}

/// `next_pause` lies between `from` and the end of the sequence, no command
/// before it asks for a pause, and the command at it does.
pub proof fn next_pause_is_first(sequence: Seq<CommandView>, from: int)
    requires
        0 <= from <= sequence.len(),
    ensures
        from <= next_pause(sequence, from) <= sequence.len(),
        forall|k: int| from <= k < next_pause(sequence, from) ==> settle_ms(#[trigger] sequence[k].opcode) == 0,
        next_pause(sequence, from) < sequence.len() ==> settle_ms(
            sequence[next_pause(sequence, from)].opcode,
        ) > 0,
    decreases sequence.len() - from,
{
    if from < sequence.len() && settle_ms(sequence[from].opcode) == 0 {
        next_pause_is_first(sequence, from + 1);
    }
}

} // verus!
