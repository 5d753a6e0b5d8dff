use st7701::phase::{Event, Phase};
use st7701::pixel::{pixel_bytes, rgb, solid, ByteOrder, MAX_RED, RED};

const EVENTS: [Event; 4] = [Event::Pulsed, Event::Configured, Event::Failed, Event::Started];

#[test]
fn phases_in_order() {
    let mut phase = Phase::Reset;
    phase = phase.on(Event::Pulsed);
    assert_eq!(phase, Phase::Configuring);
    phase = phase.on(Event::Configured);
    assert_eq!(phase, Phase::Ready);
    phase = phase.on(Event::Started);
    assert_eq!(phase, Phase::Streaming);
}

#[test]
fn failure_while_configuring_leads_back_to_reset() {
    assert_eq!(Phase::Configuring.on(Event::Failed), Phase::Reset);
    assert_eq!(Phase::Reset.on(Event::Failed), Phase::Reset);
    assert_eq!(Phase::Ready.on(Event::Failed), Phase::Ready);
}

#[test]
fn streaming_is_never_left() {
    for a in EVENTS {
        assert_eq!(Phase::Streaming.on(a), Phase::Streaming);
        for b in EVENTS {
            assert_eq!(Phase::Streaming.on(a).on(b), Phase::Streaming);
        }
    }
}

#[test]
fn events_out_of_turn_change_nothing() {
    assert_eq!(Phase::Reset.on(Event::Configured), Phase::Reset);
    assert_eq!(Phase::Reset.on(Event::Started), Phase::Reset);
    assert_eq!(Phase::Configuring.on(Event::Pulsed), Phase::Configuring);
    assert_eq!(Phase::Configuring.on(Event::Started), Phase::Configuring);
    assert_eq!(Phase::Ready.on(Event::Pulsed), Phase::Ready);
    assert_eq!(Phase::Ready.on(Event::Configured), Phase::Ready);
}

#[test]
fn rgb_packs_five_six_five() {
    assert_eq!(MAX_RED, 31);
    assert_eq!(rgb(MAX_RED, 0, 0), RED);
    assert_eq!(RED, 0b11111_000000_00000);
    assert_eq!(rgb(0, 63, 0), 0x07E0);
    assert_eq!(rgb(0, 0, 31), 0x001F);
    assert_eq!(rgb(31, 63, 31), 0xFFFF);
    assert_eq!(rgb(1, 2, 3), (1 << 11) | (2 << 5) | 3);
    assert_eq!(rgb(0, 64, 0), 0x0800);
    assert_eq!(rgb(32, 0, 0), 0);
}

#[test]
fn pixel_bytes_in_both_orders() {
    assert_eq!(pixel_bytes(RED, ByteOrder::BigEndian), [0xF8, 0x00]);
    assert_eq!(pixel_bytes(RED, ByteOrder::LittleEndian), [0x00, 0xF8]);
    assert_eq!(pixel_bytes(0x1234, ByteOrder::BigEndian), 0x1234u16.to_be_bytes());
    assert_eq!(pixel_bytes(0x1234, ByteOrder::LittleEndian), 0x1234u16.to_le_bytes());
}

#[test]
fn solid_repeats_the_pixel() {
    assert_eq!(solid(0x1234, ByteOrder::LittleEndian, 3), vec![0x34, 0x12, 0x34, 0x12, 0x34, 0x12]);
    assert_eq!(solid(0x1234, ByteOrder::BigEndian, 2), vec![0x12, 0x34, 0x12, 0x34]);
    assert_eq!(solid(RED, ByteOrder::LittleEndian, 0), vec![]);
    assert_eq!(solid(RED, ByteOrder::LittleEndian, 480 * 8).len(), 480 * 16);
}
