use std::cell::RefCell;

use st7701::bitbang::ManualSpi;
use st7701::hardware::HardwareSpi;
use st7701::line::Level::{High, Low};
use st7701::line::LineOp;
use st7701::panel::{
    reset_request, Progress, Request, Stage, St7701, RESET_HOLD_MS, RESET_STEPS,
};
use st7701::phase::Phase;
use st7701::sequence::Command;
use st7701::transport::SpiProvider;
use st7701::vendor::vendor_sequence;

fn command(opcode: u8, params: &[u8]) -> Command {
    Command { opcode, params: params.to_vec() }
}

fn reset_pulse() -> Vec<Request> {
    vec![
        Request::Reset(High),
        Request::DelayMs(100),
        Request::Reset(Low),
        Request::DelayMs(100),
        Request::Reset(High),
        Request::DelayMs(100),
    ]
}

/// The frames that the panel reads from line operations: control bit and
/// byte, nine rising edges to the frame.
fn frames_read(ops: &[LineOp]) -> Vec<(bool, u8)> {
    let mut clock = Low;
    let mut data = Low;
    let mut levels = Vec::new();
    for op in ops {
        match *op {
            LineOp::Clock(High) => {
                if clock == Low {
                    levels.push(data == High);
                }
                clock = High;
            }
            LineOp::Clock(Low) => clock = Low,
            LineOp::Data(level) => data = level,
            _ => {}
        }
    }
    assert_eq!(levels.len() % 9, 0);
    levels
        .chunks(9)
        .map(|chunk| {
            let mut byte = 0u8;
            for level in &chunk[1..] {
                byte = (byte << 1) | (*level as u8);
            }
            (!chunk[0], byte)
        })
        .collect()
}

fn frames_of_table(table: &[Command]) -> Vec<(bool, u8)> {
    let mut out = Vec::new();
    for c in table {
        out.push((true, c.opcode));
        for b in &c.params {
            out.push((false, *b));
        }
    }
    out
}

#[test]
fn reset_is_high_low_high_with_100ms_each() {
    let mut panel = St7701::new(ManualSpi::new());
    assert_eq!(RESET_HOLD_MS, 100);
    assert_eq!(RESET_STEPS, 6);
    assert_eq!(panel.reset(), reset_pulse());
    assert_eq!(panel.stage(), Stage::Reset(0));
    assert_eq!(panel.spi_mut().take_ops(), vec![]);
}

#[test]
fn reset_holds_each_level_before_the_next_transition() {
    let mut panel = St7701::new(ManualSpi::new());
    let script = panel.reset();
    let mut levels = Vec::new();
    let mut held = 0u32;
    for request in script {
        match request {
            Request::Reset(level) => {
                if !levels.is_empty() {
                    assert!(held >= 100);
                }
                levels.push(level);
                held = 0;
            }
            Request::DelayMs(ms) => held += ms,
        }
    }
    assert!(held >= 100);
    assert_eq!(levels, vec![High, Low, High]);
}

#[test]
fn reset_requests_by_number() {
    for (n, request) in reset_pulse().into_iter().enumerate() {
        assert_eq!(reset_request(n as u8), request);
    }
}

#[test]
fn init_starts_with_the_reset_pulse() {
    let mut panel = St7701::new(ManualSpi::new());
    assert_eq!(panel.phase(), Phase::Reset);
    for (n, request) in reset_pulse().into_iter().enumerate() {
        assert_eq!(panel.stage(), Stage::Reset(n as u8));
        assert_eq!(panel.init(), Ok(Progress::Pending(request)));
        assert_eq!(panel.spi_mut().take_ops(), vec![]);
    }
    assert_eq!(panel.stage(), Stage::Configuring(0));
    assert_eq!(panel.phase(), Phase::Configuring);
}

#[test]
fn init_runs_the_vendor_sequence_over_bitbang() {
    let mut panel = St7701::new(ManualSpi::new());
    let mut requests = Vec::new();
    let mut frames = Vec::new();
    let mut polls = 0;
    loop {
        let progress = panel.init().unwrap();
        frames.push(frames_read(&panel.spi_mut().take_ops()));
        polls += 1;
        match progress {
            Progress::Pending(request) => requests.push(request),
            Progress::Ready => break,
        }
    }
    assert_eq!(polls, 9);
    let mut expected = reset_pulse();
    expected.push(Request::DelayMs(100));
    expected.push(Request::DelayMs(50));
    assert_eq!(requests, expected);
    for f in &frames[..6] {
        assert!(f.is_empty());
    }
    let table = vendor_sequence();
    assert_eq!(frames[6], frames_of_table(&table[..37]));
    assert_eq!(frames[6].last(), Some(&(true, 0x11)));
    assert_eq!(frames[7], vec![(true, 0x29)]);
    assert!(frames[8].is_empty());
    assert_eq!(panel.stage(), Stage::Ready);
    assert_eq!(panel.phase(), Phase::Ready);
    assert_eq!(panel.init(), Ok(Progress::Ready));
    assert_eq!(panel.spi_mut().take_ops(), vec![]);
}

#[test]
fn init_runs_the_vendor_sequence_over_hardware() {
    let words = RefCell::new(Vec::new());
    let spi = HardwareSpi::new(|word: u16| -> Result<(), u8> {
        words.borrow_mut().push(word);
        Ok(())
    });
    let mut panel = St7701::new(spi);
    let mut delays = Vec::new();
    loop {
        match panel.init() {
            Ok(Progress::Pending(Request::DelayMs(ms))) => delays.push(ms),
            Ok(Progress::Pending(Request::Reset(_))) => assert!(words.borrow().is_empty()),
            Ok(Progress::Ready) => break,
            Err(_) => unreachable!(),
        }
    }
    assert_eq!(delays, vec![100, 100, 100, 100, 50]);
    let expected: Vec<u16> = frames_of_table(&vendor_sequence())
        .into_iter()
        .map(|(is_command, byte)| ((byte as u16) << 7) | if is_command { 0 } else { 0x8000 })
        .collect();
    assert_eq!(*words.borrow(), expected);
    assert_eq!(expected.len(), 38 + 173);
}

#[test]
fn sleep_out_is_followed_by_100ms_before_any_further_command() {
    let table = vec![command(0x3A, &[0x60]), command(0x11, &[]), command(0x36, &[0x08])];
    let mut panel = St7701::with_sequence(ManualSpi::new(), table);
    for _ in 0..6 {
        panel.init().unwrap();
    }
    assert_eq!(panel.init(), Ok(Progress::Pending(Request::DelayMs(100))));
    assert_eq!(
        frames_read(&panel.spi_mut().take_ops()),
        vec![(true, 0x3A), (false, 0x60), (true, 0x11)]
    );
    assert_eq!(panel.stage(), Stage::Configuring(2));
    assert_eq!(panel.init(), Ok(Progress::Ready));
    assert_eq!(frames_read(&panel.spi_mut().take_ops()), vec![(true, 0x36), (false, 0x08)]);
}

#[test]
fn display_on_is_followed_by_50ms() {
    let table = vec![command(0x29, &[])];
    let mut panel = St7701::with_sequence(ManualSpi::new(), table);
    for _ in 0..6 {
        panel.init().unwrap();
    }
    assert_eq!(panel.init(), Ok(Progress::Pending(Request::DelayMs(50))));
    assert_eq!(panel.stage(), Stage::Configuring(1));
    assert_eq!(panel.phase(), Phase::Configuring);
    assert_eq!(panel.init(), Ok(Progress::Ready));
    assert_eq!(panel.phase(), Phase::Ready);
}

#[test]
fn empty_sequence_is_ready_after_the_pulse() {
    let mut panel = St7701::with_sequence(ManualSpi::new(), Vec::new());
    for _ in 0..6 {
        assert!(matches!(panel.init(), Ok(Progress::Pending(_))));
    }
    assert_eq!(panel.init(), Ok(Progress::Ready));
}

#[test]
fn init_aborts_at_the_first_failing_write() {
    // Ten writes: five commands of one parameter byte each.
    let table: Vec<Command> = (0..5).map(|k| command(0xA0 + k, &[0x10 + k])).collect();
    let words = RefCell::new(Vec::new());
    let attempts = RefCell::new(0);
    let spi = HardwareSpi::new(|word: u16| -> Result<(), &'static str> {
        *attempts.borrow_mut() += 1;
        if *attempts.borrow() == 3 {
            return Err("injected");
        }
        words.borrow_mut().push(word);
        Ok(())
    });
    let mut panel = St7701::with_sequence(spi, table);
    for request in reset_pulse() {
        assert_eq!(panel.init(), Ok(Progress::Pending(request)));
    }
    assert_eq!(panel.init(), Err("injected"));
    assert_eq!(*attempts.borrow(), 3);
    assert_eq!(*words.borrow(), vec![0xA0u16 << 7, (0x10u16 << 7) | 0x8000]);
    assert_eq!(panel.stage(), Stage::Reset(0));
    assert_eq!(panel.phase(), Phase::Reset);
}

#[test]
fn init_aborts_inside_a_parameter_block() {
    let table = vec![command(0xB0, &[1, 2, 3, 4]), command(0xB1, &[5])];
    let attempts = RefCell::new(0);
    let spi = HardwareSpi::new(|_word: u16| -> Result<(), u32> {
        *attempts.borrow_mut() += 1;
        if *attempts.borrow() == 4 {
            Err(404)
        } else {
            Ok(())
        }
    });
    let mut panel = St7701::with_sequence(spi, table);
    for _ in 0..6 {
        panel.init().unwrap();
    }
    assert_eq!(panel.init(), Err(404));
    assert_eq!(*attempts.borrow(), 4);
}

#[test]
fn init_after_a_failure_starts_over_from_reset() {
    let table = vec![command(0xB0, &[1]), command(0x29, &[])];
    let attempts = RefCell::new(0);
    let spi = HardwareSpi::new(|_word: u16| -> Result<(), u32> {
        *attempts.borrow_mut() += 1;
        if *attempts.borrow() == 2 {
            Err(5)
        } else {
            Ok(())
        }
    });
    let mut panel = St7701::with_sequence(spi, table);
    for _ in 0..6 {
        panel.init().unwrap();
    }
    assert_eq!(panel.init(), Err(5));
    for request in reset_pulse() {
        assert_eq!(panel.init(), Ok(Progress::Pending(request)));
    }
    assert_eq!(panel.init(), Ok(Progress::Pending(Request::DelayMs(50))));
    assert_eq!(panel.init(), Ok(Progress::Ready));
    assert_eq!(*attempts.borrow(), 5);
}

#[test]
fn reset_restarts_bring_up() {
    let mut panel = St7701::with_sequence(ManualSpi::new(), vec![command(0x29, &[])]);
    for _ in 0..8 {
        panel.init().unwrap();
    }
    assert_eq!(panel.stage(), Stage::Ready);
    assert_eq!(panel.reset(), reset_pulse());
    assert_eq!(panel.stage(), Stage::Reset(0));
    assert_eq!(panel.init(), Ok(Progress::Pending(Request::Reset(High))));
}

#[test]
fn release_hands_the_transport_back() {
    let mut spi = ManualSpi::new();
    spi.write_byte(true, 1).unwrap();
    let panel = St7701::new(spi);
    let mut spi = panel.release();
    assert_eq!(spi.take_ops().len(), 38);
}

#[test]
fn each_write_of_bring_up_is_a_session_of_its_own() {
    let table = vec![command(0xC0, &[0x3B, 0x00]), command(0x29, &[])];
    let mut panel = St7701::with_sequence(ManualSpi::new(), table);
    for _ in 0..6 {
        panel.init().unwrap();
    }
    assert_eq!(panel.init(), Ok(Progress::Pending(Request::DelayMs(50))));
    let ops = panel.spi_mut().take_ops();

    let mut expected = ManualSpi::new();
    expected.write_command(0xC0).unwrap();
    expected.write_data(&[0x3B, 0x00]).unwrap();
    expected.write_command(0x29).unwrap();
    assert_eq!(ops, expected.take_ops());
    assert_eq!(ops.iter().filter(|op| **op == LineOp::ChipSelect(Low)).count(), 3);
    assert_eq!(ops.len(), 3 * 4 + 4 * 38);
}

#[test]
fn failed_parameter_block_is_one_session_up_to_the_failure() {
    let table = vec![command(0xB0, &[1, 2, 3]), command(0xB1, &[4])];
    let words = RefCell::new(Vec::new());
    let spi = HardwareSpi::new(|word: u16| -> Result<(), u8> {
        words.borrow_mut().push(word);
        if words.borrow().len() == 3 {
            Err(9)
        } else {
            Ok(())
        }
    });
    let mut panel = St7701::with_sequence(spi, table);
    for _ in 0..6 {
        panel.init().unwrap();
    }
    assert_eq!(panel.init(), Err(9));
    // The opcode, the first parameter byte, and the byte that failed.
    assert_eq!(*words.borrow(), vec![0xB0u16 << 7, 0x8080, 0x8100]);
}
