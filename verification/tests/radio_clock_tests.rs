use bluepill::nrf24::{try_payload_string, Nrf24L01, NRF24L01Cmd, NRF24L01_RX_ADDR, NRF24L01_TX_ADDR};
use bluepill::oled::bus::{BusOp, Transfer};
use bluepill::oled::display::Glyph;
use bluepill::rtc_clock::{clock_reading, initial_time, show_datetime, START_TIMESTAMP};

#[test]
fn payload_text() {
    assert_eq!(Nrf24L01::<()>::payload_string(b"test").as_str(), "test");
    assert_eq!(Nrf24L01::<()>::payload_string(&[0xE9, 0x41]).as_str(), "\u{e9}A");
    assert_eq!(Nrf24L01::<()>::payload_string(&[]).as_str(), "");
    assert_eq!(Nrf24L01::<()>::payload_string(&[b'x'; 32]).len(), 32);
}

#[test]
fn radio_addresses_and_command() {
    assert_eq!(&NRF24L01_TX_ADDR, b"fnord");
    assert_eq!(&NRF24L01_RX_ADDR, b"fnord");
    let c = NRF24L01Cmd { cmd: 7 };
    assert_eq!(format!("{:?}", c), "NRF24L01Cmd { cmd: 7 }");
}

#[test]
fn rtc_start_time() {
    assert_eq!(START_TIMESTAMP, 1_697_805_000);
    assert_eq!(initial_time(0), Some(START_TIMESTAMP));
    assert_eq!(initial_time(5), None);
}

#[test]
fn rtc_calendar() {
    let dt = clock_reading(START_TIMESTAMP);
    assert_eq!(
        (dt.year, dt.month, dt.day, dt.hour, dt.minute, dt.second),
        (2023, 10, 20, 12, 30, 0)
    );
    let dt = clock_reading(0);
    assert_eq!((dt.year, dt.month, dt.day, dt.hour, dt.minute, dt.second), (1970, 1, 1, 0, 0, 0));
    let dt = clock_reading(u32::MAX);
    assert_eq!(
        (dt.year, dt.month, dt.day, dt.hour, dt.minute, dt.second),
        (2106, 2, 7, 6, 28, 15)
    );
}

fn data_digits(ops: &[BusOp]) -> usize {
    // Each drawn digit is two runs of 8 data frames; count data frames.
    let mut frames = 0;
    let mut i = 0;
    while i + 3 < ops.len() {
        if ops[i] == BusOp::Sda(true) && ops[i + 1] == BusOp::Scl(true) && ops[i + 2] == BusOp::Sda(false) {
            frames += 1;
        }
        i += 1;
    }
    frames
}

#[test]
fn clock_screen_fields() {
    let font: Vec<Glyph> = (0..95u8).map(|i| [i; 16]).collect();
    let dt = clock_reading(START_TIMESTAMP);
    let mut out = Vec::new();
    show_datetime(&mut out, &dt, START_TIMESTAMP, &font);
    // 4 + 2 * 5 + 10 = 24 digits, each 6 cursor commands and 16 data bytes.
    assert_eq!(data_digits(&out), 24 * 22);
    let _ = Transfer::Data(0);
}

#[test]
fn payload_text_fit() {
    assert_eq!(try_payload_string(b"test").unwrap().as_str(), "test");
    assert_eq!(try_payload_string(&[0x41; 32]).unwrap().len(), 32);
    assert!(try_payload_string(&[0xE9; 16]).is_some());
    assert!(try_payload_string(&[0xE9; 17]).is_none());
    let mut mixed = vec![b'a'; 31];
    mixed.push(0xE9);
    assert!(try_payload_string(&mixed).is_none());
}
