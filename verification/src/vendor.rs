//! The programming sequence of the panel revision that this crate was
//! written for.

use vstd::prelude::*;
use crate::sequence::{commands, Command, CommandView};

verus! {

/// The programming sequence: the vendor's register settings, then the
/// command that takes the panel out of sleep and the command that switches
/// the display on.
pub open spec fn vendor_commands() -> Seq<CommandView> {
    seq![
        CommandView { opcode: 0xFF, params: seq![0x77, 0x01, 0x00, 0x00, 0x10] },
        CommandView { opcode: 0xC0, params: seq![0x3B, 0x00] },
        CommandView { opcode: 0xC1, params: seq![0x0B, 0x02] },
        CommandView { opcode: 0xC2, params: seq![0x00, 0x02] },
        CommandView { opcode: 0xCC, params: seq![0x10] },
        CommandView { opcode: 0xCD, params: seq![0x08] },
        CommandView { opcode: 0xB0, params: seq![0x02, 0x13, 0x1B, 0x0D, 0x10, 0x05, 0x08, 0x07, 0x07, 0x24, 0x04, 0x11, 0x0E, 0x2C, 0x33, 0x1D] },
        CommandView { opcode: 0xB1, params: seq![0x05, 0x13, 0x1B, 0x0D, 0x11, 0x05, 0x08, 0x07, 0x07, 0x24, 0x04, 0x11, 0x0E, 0x2C, 0x33, 0x1D] },
        CommandView { opcode: 0xFF, params: seq![0x77, 0x01, 0x00, 0x00, 0x11] },
        CommandView { opcode: 0xB0, params: seq![0x5D] },
        CommandView { opcode: 0xB1, params: seq![0x43] },
        CommandView { opcode: 0xB2, params: seq![0x81] },
        CommandView { opcode: 0xB3, params: seq![0x80] },
        CommandView { opcode: 0xB5, params: seq![0x43] },
        CommandView { opcode: 0xB7, params: seq![0x85] },
        CommandView { opcode: 0xB8, params: seq![0x20] },
        CommandView { opcode: 0xC1, params: seq![0x78] },
        CommandView { opcode: 0xC2, params: seq![0x78] },
        CommandView { opcode: 0xD0, params: seq![0x88] },
        CommandView { opcode: 0xE0, params: seq![0x00, 0x00, 0x02] },
        CommandView { opcode: 0xE1, params: seq![0x03, 0xA0, 0x00, 0x00, 0x04, 0xA0, 0x00, 0x00, 0x00, 0x20, 0x20] },
        CommandView { opcode: 0xE2, params: seq![0x00, 0x00, 0x00, 0x00, 0x00, 0x00, 0x00, 0x00, 0x00, 0x00, 0x00, 0x00, 0x00] },
        CommandView { opcode: 0xE3, params: seq![0x00, 0x00, 0x11, 0x00] },
        CommandView { opcode: 0xE4, params: seq![0x22, 0x00] },
        CommandView { opcode: 0xE5, params: seq![0x05, 0xEC, 0xA0, 0xA0, 0x07, 0xEE, 0xA0, 0xA0, 0x00, 0x00, 0x00, 0x00, 0x00, 0x00, 0x00, 0x00] },
        CommandView { opcode: 0xE6, params: seq![0x00, 0x00, 0x11, 0x00] },
        CommandView { opcode: 0xE7, params: seq![0x22, 0x00] },
        CommandView { opcode: 0xE8, params: seq![0x06, 0xED, 0xA0, 0xA0, 0x08, 0xEF, 0xA0, 0xA0, 0x00, 0x00, 0x00, 0x00, 0x00, 0x00, 0x00, 0x00] },
        CommandView { opcode: 0xEB, params: seq![0x00, 0x00, 0x40, 0x40, 0x00, 0x00, 0x00] },
        CommandView { opcode: 0xED, params: seq![0xFF, 0xFF, 0xFF, 0xBA, 0x0A, 0xBF, 0x45, 0xFF, 0xFF, 0x54, 0xFB, 0xA0, 0xAB, 0xFF, 0xFF, 0xFF] },
        CommandView { opcode: 0xEF, params: seq![0x10, 0x0D, 0x04, 0x08, 0x3F, 0x1F] },
        CommandView { opcode: 0xFF, params: seq![0x77, 0x01, 0x00, 0x00, 0x13] },
        CommandView { opcode: 0xEF, params: seq![0x08] },
        CommandView { opcode: 0xFF, params: seq![0x77, 0x01, 0x00, 0x00, 0x00] },
        CommandView { opcode: 0x36, params: seq![0x08] },
        CommandView { opcode: 0x3A, params: seq![0x60] },
        CommandView { opcode: 0x11, params: Seq::empty() },
        CommandView { opcode: 0x29, params: Seq::empty() },
    ]
}

/// Puts one more command at the end of a table.
fn append(table: &mut Vec<Command>, opcode: u8, params: Vec<u8>)
    ensures
        commands(final(table)@) == commands(old(table)@).push(
            CommandView { opcode, params: params@ },
        ),
{
    table.push(Command { opcode, params });
    proof {
        assert(commands(table@) =~= commands(old(table)@).push(
            CommandView { opcode, params: params@ },
        ));
    }
}

/// Builds the programming sequence.
pub fn vendor_sequence() -> (table: Vec<Command>)
    ensures
        commands(table@) == vendor_commands(),
{
    let mut table: Vec<Command> = Vec::new();
    assert(commands(table@) =~= vendor_commands().take(0));
    let params: Vec<u8> = vec![0x77, 0x01, 0x00, 0x00, 0x10];
    assert(params@ =~= vendor_commands()[0].params);
    append(&mut table, 0xFF, params);
    assert(commands(table@) =~= vendor_commands().take(1));
    let params: Vec<u8> = vec![0x3B, 0x00];
    assert(params@ =~= vendor_commands()[1].params);
    append(&mut table, 0xC0, params);
    assert(commands(table@) =~= vendor_commands().take(2));
    let params: Vec<u8> = vec![0x0B, 0x02];
    assert(params@ =~= vendor_commands()[2].params);
    append(&mut table, 0xC1, params);
    assert(commands(table@) =~= vendor_commands().take(3));
    let params: Vec<u8> = vec![0x00, 0x02];
    assert(params@ =~= vendor_commands()[3].params);
    append(&mut table, 0xC2, params);
    assert(commands(table@) =~= vendor_commands().take(4));
    let params: Vec<u8> = vec![0x10];
    assert(params@ =~= vendor_commands()[4].params);
    append(&mut table, 0xCC, params);
    assert(commands(table@) =~= vendor_commands().take(5));
    let params: Vec<u8> = vec![0x08];
    assert(params@ =~= vendor_commands()[5].params);
    append(&mut table, 0xCD, params);
    assert(commands(table@) =~= vendor_commands().take(6));
    let params: Vec<u8> = vec![0x02, 0x13, 0x1B, 0x0D, 0x10, 0x05, 0x08, 0x07, 0x07, 0x24, 0x04, 0x11, 0x0E, 0x2C, 0x33, 0x1D];
    assert(params@ =~= vendor_commands()[6].params);
    append(&mut table, 0xB0, params);
    assert(commands(table@) =~= vendor_commands().take(7));
    let params: Vec<u8> = vec![0x05, 0x13, 0x1B, 0x0D, 0x11, 0x05, 0x08, 0x07, 0x07, 0x24, 0x04, 0x11, 0x0E, 0x2C, 0x33, 0x1D];
    assert(params@ =~= vendor_commands()[7].params);
    append(&mut table, 0xB1, params);
    assert(commands(table@) =~= vendor_commands().take(8));
    let params: Vec<u8> = vec![0x77, 0x01, 0x00, 0x00, 0x11];
    assert(params@ =~= vendor_commands()[8].params);
    append(&mut table, 0xFF, params);
    assert(commands(table@) =~= vendor_commands().take(9));
    let params: Vec<u8> = vec![0x5D];
    assert(params@ =~= vendor_commands()[9].params);
    append(&mut table, 0xB0, params);
    assert(commands(table@) =~= vendor_commands().take(10));
    let params: Vec<u8> = vec![0x43];
    assert(params@ =~= vendor_commands()[10].params);
    append(&mut table, 0xB1, params);
    assert(commands(table@) =~= vendor_commands().take(11));
    let params: Vec<u8> = vec![0x81];
    assert(params@ =~= vendor_commands()[11].params);
    append(&mut table, 0xB2, params);
    assert(commands(table@) =~= vendor_commands().take(12));
    let params: Vec<u8> = vec![0x80];
    assert(params@ =~= vendor_commands()[12].params);
    append(&mut table, 0xB3, params);
    assert(commands(table@) =~= vendor_commands().take(13));
    let params: Vec<u8> = vec![0x43];
    assert(params@ =~= vendor_commands()[13].params);
    append(&mut table, 0xB5, params);
    assert(commands(table@) =~= vendor_commands().take(14));
    let params: Vec<u8> = vec![0x85];
    assert(params@ =~= vendor_commands()[14].params);
    append(&mut table, 0xB7, params);
    assert(commands(table@) =~= vendor_commands().take(15));
    let params: Vec<u8> = vec![0x20];
    assert(params@ =~= vendor_commands()[15].params);
    append(&mut table, 0xB8, params);
    assert(commands(table@) =~= vendor_commands().take(16));
    let params: Vec<u8> = vec![0x78];
    assert(params@ =~= vendor_commands()[16].params);
    append(&mut table, 0xC1, params);
    assert(commands(table@) =~= vendor_commands().take(17));
    let params: Vec<u8> = vec![0x78];
    assert(params@ =~= vendor_commands()[17].params);
    append(&mut table, 0xC2, params);
    assert(commands(table@) =~= vendor_commands().take(18));
    let params: Vec<u8> = vec![0x88];
    assert(params@ =~= vendor_commands()[18].params);
    append(&mut table, 0xD0, params);
    assert(commands(table@) =~= vendor_commands().take(19));
    let params: Vec<u8> = vec![0x00, 0x00, 0x02];
    assert(params@ =~= vendor_commands()[19].params);
    append(&mut table, 0xE0, params);
    assert(commands(table@) =~= vendor_commands().take(20));
    let params: Vec<u8> = vec![0x03, 0xA0, 0x00, 0x00, 0x04, 0xA0, 0x00, 0x00, 0x00, 0x20, 0x20];
    assert(params@ =~= vendor_commands()[20].params);
    append(&mut table, 0xE1, params);
    assert(commands(table@) =~= vendor_commands().take(21));
    let params: Vec<u8> = vec![0x00, 0x00, 0x00, 0x00, 0x00, 0x00, 0x00, 0x00, 0x00, 0x00, 0x00, 0x00, 0x00];
    assert(params@ =~= vendor_commands()[21].params);
    append(&mut table, 0xE2, params);
    assert(commands(table@) =~= vendor_commands().take(22));
    let params: Vec<u8> = vec![0x00, 0x00, 0x11, 0x00];
    assert(params@ =~= vendor_commands()[22].params);
    append(&mut table, 0xE3, params);
    assert(commands(table@) =~= vendor_commands().take(23));
    let params: Vec<u8> = vec![0x22, 0x00];
    assert(params@ =~= vendor_commands()[23].params);
    append(&mut table, 0xE4, params);
    assert(commands(table@) =~= vendor_commands().take(24));
    let params: Vec<u8> = vec![0x05, 0xEC, 0xA0, 0xA0, 0x07, 0xEE, 0xA0, 0xA0, 0x00, 0x00, 0x00, 0x00, 0x00, 0x00, 0x00, 0x00];
    assert(params@ =~= vendor_commands()[24].params);
    append(&mut table, 0xE5, params);
    assert(commands(table@) =~= vendor_commands().take(25));
    let params: Vec<u8> = vec![0x00, 0x00, 0x11, 0x00];
    assert(params@ =~= vendor_commands()[25].params);
    append(&mut table, 0xE6, params);
    assert(commands(table@) =~= vendor_commands().take(26));
    let params: Vec<u8> = vec![0x22, 0x00];
    assert(params@ =~= vendor_commands()[26].params);
    append(&mut table, 0xE7, params);
    assert(commands(table@) =~= vendor_commands().take(27));
    let params: Vec<u8> = vec![0x06, 0xED, 0xA0, 0xA0, 0x08, 0xEF, 0xA0, 0xA0, 0x00, 0x00, 0x00, 0x00, 0x00, 0x00, 0x00, 0x00];
    assert(params@ =~= vendor_commands()[27].params);
    append(&mut table, 0xE8, params);
    assert(commands(table@) =~= vendor_commands().take(28));
    let params: Vec<u8> = vec![0x00, 0x00, 0x40, 0x40, 0x00, 0x00, 0x00];
    assert(params@ =~= vendor_commands()[28].params);
    append(&mut table, 0xEB, params);
    assert(commands(table@) =~= vendor_commands().take(29));
    let params: Vec<u8> = vec![0xFF, 0xFF, 0xFF, 0xBA, 0x0A, 0xBF, 0x45, 0xFF, 0xFF, 0x54, 0xFB, 0xA0, 0xAB, 0xFF, 0xFF, 0xFF];
    assert(params@ =~= vendor_commands()[29].params);
    append(&mut table, 0xED, params);
    assert(commands(table@) =~= vendor_commands().take(30));
    let params: Vec<u8> = vec![0x10, 0x0D, 0x04, 0x08, 0x3F, 0x1F];
    assert(params@ =~= vendor_commands()[30].params);
    append(&mut table, 0xEF, params);
    assert(commands(table@) =~= vendor_commands().take(31));
    let params: Vec<u8> = vec![0x77, 0x01, 0x00, 0x00, 0x13];
    assert(params@ =~= vendor_commands()[31].params);
    append(&mut table, 0xFF, params);
    assert(commands(table@) =~= vendor_commands().take(32));
    let params: Vec<u8> = vec![0x08];
    assert(params@ =~= vendor_commands()[32].params);
    append(&mut table, 0xEF, params);
    assert(commands(table@) =~= vendor_commands().take(33));
    let params: Vec<u8> = vec![0x77, 0x01, 0x00, 0x00, 0x00];
    assert(params@ =~= vendor_commands()[33].params);
    append(&mut table, 0xFF, params);
    assert(commands(table@) =~= vendor_commands().take(34));
    let params: Vec<u8> = vec![0x08];
    assert(params@ =~= vendor_commands()[34].params);
    append(&mut table, 0x36, params);
    assert(commands(table@) =~= vendor_commands().take(35));
    let params: Vec<u8> = vec![0x60];
    assert(params@ =~= vendor_commands()[35].params);
    append(&mut table, 0x3A, params);
    assert(commands(table@) =~= vendor_commands().take(36));
    let params: Vec<u8> = Vec::new();
    assert(params@ =~= vendor_commands()[36].params);
    append(&mut table, 0x11, params);
    assert(commands(table@) =~= vendor_commands().take(37));
    let params: Vec<u8> = Vec::new();
    assert(params@ =~= vendor_commands()[37].params);
    append(&mut table, 0x29, params);
    assert(commands(table@) =~= vendor_commands().take(38));
    assert(vendor_commands().take(38) =~= vendor_commands());
    table
}

} // verus!
