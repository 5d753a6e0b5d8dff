use st7701::bitbang::ManualSpi;
use st7701::line::{Level, LineOp, BIT_DELAY_NS, FRAME_BITS, GUARD_DELAY_MS};
use st7701::transport::SpiProvider;

use st7701::line::Level::{High, Low};
use st7701::line::LineOp::{BitDelay, ChipSelect, Clock, Data, DataOutput, GuardDelay};

/// The level of the data line at each rising edge of the clock.
fn sampled(ops: &[LineOp]) -> Vec<u8> {
    let mut clock = Low;
    let mut data = Low;
    let mut out = Vec::new();
    for op in ops {
        match *op {
            Clock(High) => {
                if clock == Low {
                    out.push(if data == High { 1 } else { 0 });
                }
                clock = High;
            }
            Clock(Low) => clock = Low,
            Data(level) => data = level,
            _ => {}
        }
    }
    out
}

/// The spans of operations during which chip-select is asserted.
fn sessions(ops: &[LineOp]) -> Vec<Vec<LineOp>> {
    let mut out = Vec::new();
    let mut current: Option<Vec<LineOp>> = None;
    for op in ops {
        match *op {
            ChipSelect(Low) => current = Some(Vec::new()),
            ChipSelect(High) => {
                if let Some(span) = current.take() {
                    out.push(span);
                }
            }
            other => {
                if let Some(span) = current.as_mut() {
                    span.push(other);
                }
            }
        }
    }
    out
}

fn bit(level: Level) -> [LineOp; 4] {
    [BitDelay, Clock(Low), Data(level), Clock(High)]
}

#[test]
fn timing_constants() {
    assert_eq!(BIT_DELAY_NS, 100);
    assert_eq!(GUARD_DELAY_MS, 1);
    assert_eq!(FRAME_BITS, 9);
}

#[test]
fn data_byte_is_sampled_control_bit_first_then_msb_to_lsb() {
    let mut spi = ManualSpi::new();
    assert_eq!(spi.write_byte(false, 0b1010_1010), Ok(()));
    let ops = spi.take_ops();
    assert_eq!(sampled(&ops), vec![1, 1, 0, 1, 0, 1, 0, 1, 0]);
}

#[test]
fn command_byte_is_sampled_with_low_control_bit() {
    let mut spi = ManualSpi::new();
    assert_eq!(spi.write_byte(true, 0x11), Ok(()));
    let ops = spi.take_ops();
    assert_eq!(sampled(&ops), vec![0, 0, 0, 0, 1, 0, 0, 0, 1]);
}

#[test]
fn every_byte_is_sampled_as_nine_levels() {
    for byte in 0..=255u8 {
        for is_command in [true, false] {
            let mut spi = ManualSpi::new();
            spi.write_byte(is_command, byte).unwrap();
            let levels = sampled(&spi.take_ops());
            assert_eq!(levels.len(), 9);
            assert_eq!(levels[0], if is_command { 0 } else { 1 });
            let mut value = 0u8;
            for level in &levels[1..] {
                value = (value << 1) | level;
            }
            assert_eq!(value, byte);
        }
    }
}

#[test]
fn byte_operations_in_order() {
    let mut spi = ManualSpi::new();
    spi.write_byte(false, 0b1010_1010).unwrap();
    let mut expected = vec![DataOutput, Clock(Low), Data(High), Clock(High)];
    for level in [High, Low, High, Low, High, Low, High, Low] {
        expected.extend_from_slice(&bit(level));
    }
    expected.extend_from_slice(&[BitDelay, Clock(High)]);
    assert_eq!(spi.take_ops(), expected);
}

#[test]
fn byte_alone_leaves_chip_select_alone() {
    let mut spi = ManualSpi::new();
    spi.write_byte(true, 0x29).unwrap();
    let ops = spi.take_ops();
    assert_eq!(ops.len(), 38);
    assert!(ops.iter().all(|op| !matches!(op, ChipSelect(_) | GuardDelay)));
}

#[test]
fn command_is_one_session() {
    let mut spi = ManualSpi::new();
    assert_eq!(spi.write_command(0x11), Ok(()));
    let ops = spi.take_ops();
    assert_eq!(&ops[..2], &[ChipSelect(Low), GuardDelay]);
    assert_eq!(&ops[ops.len() - 2..], &[GuardDelay, ChipSelect(High)]);
    assert_eq!(ops.len(), 2 + 38 + 2);
    let spans = sessions(&ops);
    assert_eq!(spans.len(), 1);
    assert_eq!(sampled(&spans[0]), vec![0, 0, 0, 0, 1, 0, 0, 0, 1]);
}

#[test]
fn data_block_is_one_session() {
    let mut spi = ManualSpi::new();
    assert_eq!(spi.write_data(&[0x77, 0x01, 0x00]), Ok(()));
    let ops = spi.take_ops();
    assert_eq!(ops.len(), 2 + 3 * 38 + 2);
    let spans = sessions(&ops);
    assert_eq!(spans.len(), 1);
    assert_eq!(
        sampled(&spans[0]),
        vec![
            1, 0, 1, 1, 1, 0, 1, 1, 1, //
            1, 0, 0, 0, 0, 0, 0, 0, 1, //
            1, 0, 0, 0, 0, 0, 0, 0, 0,
        ]
    );
    assert_eq!(ops.iter().filter(|op| **op == ChipSelect(Low)).count(), 1);
    assert_eq!(ops.iter().filter(|op| **op == ChipSelect(High)).count(), 1);
}

#[test]
fn empty_data_block_is_an_empty_session() {
    let mut spi = ManualSpi::new();
    assert_eq!(spi.write_data(&[]), Ok(()));
    assert_eq!(spi.take_ops(), vec![ChipSelect(Low), GuardDelay, GuardDelay, ChipSelect(High)]);
}

#[test]
fn command_then_data_are_two_sessions() {
    let mut spi = ManualSpi::new();
    spi.write_command(0x11).unwrap();
    spi.write_data(&[0xAA]).unwrap();
    let ops = spi.take_ops();
    let spans = sessions(&ops);
    assert_eq!(spans.len(), 2);
    assert_eq!(sampled(&spans[0]), vec![0, 0, 0, 0, 1, 0, 0, 0, 1]);
    assert_eq!(sampled(&spans[1]), vec![1, 1, 0, 1, 0, 1, 0, 1, 0]);
    let released = ops.iter().position(|op| *op == ChipSelect(High)).unwrap();
    let asserted_again = ops.iter().rposition(|op| *op == ChipSelect(Low)).unwrap();
    assert_eq!(released, 41);
    assert_eq!(asserted_again, 42);
}

#[test]
fn two_frames_in_one_while_cs_share_the_session() {
    let mut spi = ManualSpi::new();
    let r = spi.while_cs(|s| {
        s.write_byte(true, 0x11)?;
        s.write_byte(false, 0xAA)
    });
    assert_eq!(r, Ok(()));
    let ops = spi.take_ops();
    assert_eq!(ops.len(), 2 + 2 * 38 + 2);
    assert_eq!(ops.iter().filter(|op| matches!(op, ChipSelect(_))).count(), 2);
    let spans = sessions(&ops);
    assert_eq!(spans.len(), 1);
    assert_eq!(
        sampled(&spans[0]),
        vec![0, 0, 0, 0, 1, 0, 0, 0, 1, 1, 1, 0, 1, 0, 1, 0, 1, 0]
    );
}

#[test]
fn while_cs_hands_back_what_the_function_returns() {
    let mut spi = ManualSpi::new();
    let r = spi.while_cs(|_| 17u32);
    assert_eq!(r, 17);
    assert_eq!(spi.take_ops(), vec![ChipSelect(Low), GuardDelay, GuardDelay, ChipSelect(High)]);
}

#[test]
fn commands_inside_while_cs_keep_their_own_sessions() {
    let mut spi = ManualSpi::new();
    spi.while_cs(|s| {
        s.write_command(0x11)?;
        s.write_data(&[0xAA])
    })
    .unwrap();
    let ops = spi.take_ops();
    assert_eq!(ops.iter().filter(|op| **op == ChipSelect(Low)).count(), 3);
    assert_eq!(ops.iter().filter(|op| **op == ChipSelect(High)).count(), 3);
    assert_eq!(&ops[..4], &[ChipSelect(Low), GuardDelay, ChipSelect(Low), GuardDelay]);
}

#[test]
fn take_ops_empties_the_queue() {
    let mut spi = ManualSpi::new();
    assert_eq!(spi.take_ops(), vec![]);
    spi.write_byte(true, 0).unwrap();
    assert_eq!(spi.take_ops().len(), 38);
    assert_eq!(spi.take_ops(), vec![]);
    spi.write_command(1).unwrap();
    assert_eq!(spi.take_ops().len(), 42);
}

#[test]
fn session_edges_by_hand() {
    let mut spi = ManualSpi::new();
    spi.assert_cs();
    assert_eq!(spi.take_ops(), vec![ChipSelect(Low), GuardDelay]);
    spi.release_cs();
    assert_eq!(spi.take_ops(), vec![GuardDelay, ChipSelect(High)]);
    spi.assert_cs();
    spi.write_byte(true, 0x11).unwrap();
    spi.write_byte(false, 0xAA).unwrap();
    spi.release_cs();
    let by_hand = spi.take_ops();
    spi.while_cs(|s| {
        s.write_byte(true, 0x11)?;
        s.write_byte(false, 0xAA)
    })
    .unwrap();
    assert_eq!(spi.take_ops(), by_hand);
}

#[test]
fn session_is_closed_when_the_function_reports_failure() {
    let mut spi = ManualSpi::new();
    let r: Result<(), u8> = spi.while_cs(|s| {
        s.write_byte(true, 0x11).unwrap();
        Err(3)
    });
    assert_eq!(r, Err(3));
    let ops = spi.take_ops();
    assert_eq!(ops.len(), 2 + 38 + 2);
    assert_eq!(&ops[ops.len() - 2..], &[GuardDelay, ChipSelect(High)]);
}
