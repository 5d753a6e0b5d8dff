use st7701::sequence::{
    settle_time, Command, DISPLAY_ON, DISPLAY_ON_SETTLE_MS, SLEEP_OUT, SLEEP_OUT_SETTLE_MS,
};
use st7701::vendor::vendor_sequence;

#[test]
fn settle_times() {
    assert_eq!(SLEEP_OUT, 0x11);
    assert_eq!(DISPLAY_ON, 0x29);
    assert_eq!(SLEEP_OUT_SETTLE_MS, 100);
    assert_eq!(DISPLAY_ON_SETTLE_MS, 50);
    for opcode in 0..=255u8 {
        let expected = match opcode {
            0x11 => 100,
            0x29 => 50,
            _ => 0,
        };
        assert_eq!(settle_time(opcode), expected);
    }
}

#[test]
fn vendor_sequence_opcodes_in_order() {
    let opcodes: Vec<u8> = vendor_sequence().iter().map(|c| c.opcode).collect();
    assert_eq!(
        opcodes,
        vec![
            0xFF, 0xC0, 0xC1, 0xC2, 0xCC, 0xCD, 0xB0, 0xB1, 0xFF, 0xB0, 0xB1, 0xB2, 0xB3, 0xB5,
            0xB7, 0xB8, 0xC1, 0xC2, 0xD0, 0xE0, 0xE1, 0xE2, 0xE3, 0xE4, 0xE5, 0xE6, 0xE7, 0xE8,
            0xEB, 0xED, 0xEF, 0xFF, 0xEF, 0xFF, 0x36, 0x3A, 0x11, 0x29,
        ]
    );
}

#[test]
fn vendor_sequence_parameters() {
    let table = vendor_sequence();
    assert_eq!(table.len(), 38);
    assert_eq!(table[0], Command { opcode: 0xFF, params: vec![0x77, 0x01, 0x00, 0x00, 0x10] });
    assert_eq!(table[1].params, vec![0x3B, 0x00]);
    assert_eq!(table[2].params, vec![0x0B, 0x02]);
    assert_eq!(table[3].params, vec![0x00, 0x02]);
    assert_eq!(table[4].params, vec![0x10]);
    assert_eq!(table[5].params, vec![0x08]);
    assert_eq!(
        table[6].params,
        vec![
            0x02, 0x13, 0x1B, 0x0D, 0x10, 0x05, 0x08, 0x07, 0x07, 0x24, 0x04, 0x11, 0x0E, 0x2C,
            0x33, 0x1D
        ]
    );
    assert_eq!(
        table[7].params,
        vec![
            0x05, 0x13, 0x1B, 0x0D, 0x11, 0x05, 0x08, 0x07, 0x07, 0x24, 0x04, 0x11, 0x0E, 0x2C,
            0x33, 0x1D
        ]
    );
    assert_eq!(table[8].params, vec![0x77, 0x01, 0x00, 0x00, 0x11]);
    assert_eq!(table[9].params, vec![0x5D]);
    assert_eq!(table[10].params, vec![0x43]);
    assert_eq!(table[11].params, vec![0x81]);
    assert_eq!(table[12].params, vec![0x80]);
    assert_eq!(table[13].params, vec![0x43]);
    assert_eq!(table[14].params, vec![0x85]);
    assert_eq!(table[15].params, vec![0x20]);
    assert_eq!(table[16].params, vec![0x78]);
    assert_eq!(table[17].params, vec![0x78]);
    assert_eq!(table[18].params, vec![0x88]);
    assert_eq!(table[19].params, vec![0x00, 0x00, 0x02]);
    assert_eq!(
        table[20].params,
        vec![0x03, 0xA0, 0x00, 0x00, 0x04, 0xA0, 0x00, 0x00, 0x00, 0x20, 0x20]
    );
    assert_eq!(table[21].params, vec![0x00; 13]);
    assert_eq!(table[22].params, vec![0x00, 0x00, 0x11, 0x00]);
    assert_eq!(table[23].params, vec![0x22, 0x00]);
    assert_eq!(
        table[24].params,
        vec![
            0x05, 0xEC, 0xA0, 0xA0, 0x07, 0xEE, 0xA0, 0xA0, 0x00, 0x00, 0x00, 0x00, 0x00, 0x00,
            0x00, 0x00
        ]
    );
    assert_eq!(table[25].params, vec![0x00, 0x00, 0x11, 0x00]);
    assert_eq!(table[26].params, vec![0x22, 0x00]);
    assert_eq!(
        table[27].params,
        vec![
            0x06, 0xED, 0xA0, 0xA0, 0x08, 0xEF, 0xA0, 0xA0, 0x00, 0x00, 0x00, 0x00, 0x00, 0x00,
            0x00, 0x00
        ]
    );
    assert_eq!(table[28].params, vec![0x00, 0x00, 0x40, 0x40, 0x00, 0x00, 0x00]);
    assert_eq!(
        table[29].params,
        vec![
            0xFF, 0xFF, 0xFF, 0xBA, 0x0A, 0xBF, 0x45, 0xFF, 0xFF, 0x54, 0xFB, 0xA0, 0xAB, 0xFF,
            0xFF, 0xFF
        ]
    );
    assert_eq!(table[30].params, vec![0x10, 0x0D, 0x04, 0x08, 0x3F, 0x1F]);
    assert_eq!(table[31].params, vec![0x77, 0x01, 0x00, 0x00, 0x13]);
    assert_eq!(table[32].params, vec![0x08]);
    assert_eq!(table[33].params, vec![0x77, 0x01, 0x00, 0x00, 0x00]);
    assert_eq!(table[34].params, vec![0x08]);
    assert_eq!(table[35].params, vec![0x60]);
    assert_eq!(table[36], Command { opcode: 0x11, params: vec![] });
    assert_eq!(table[37], Command { opcode: 0x29, params: vec![] });
}

#[test]
fn only_the_last_two_commands_ask_for_a_pause() {
    let table = vendor_sequence();
    for (i, c) in table.iter().enumerate() {
        assert_eq!(settle_time(c.opcode) > 0, i >= 36, "command {i}");
    }
}
