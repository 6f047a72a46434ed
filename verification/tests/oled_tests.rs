use bluepill::oled::bus::{
    i2c_send_byte, i2c_start, i2c_stop, write_command, write_data, BusOp, Transfer,
};
use bluepill::oled::display::{
    clear, init_oled_config, set_cursor, show_bin_num, show_char, show_hex_num, show_num,
    show_signed_num, show_string, Glyph,
};

/// Reads the bus as the display does: start and stop conditions, bits
/// clocked by SCL, frames of address, control and payload byte.
fn receive(ops: &[BusOp]) -> Vec<Transfer> {
    let (mut scl, mut sda, mut clocked) = (true, true, false);
    let mut bits: Vec<bool> = Vec::new();
    let mut frames: Vec<Transfer> = Vec::new();
    for op in ops {
        match *op {
            BusOp::Scl(v) => {
                if scl && !v && clocked {
                    bits.push(sda);
                }
                clocked = !scl && v || (scl && v && clocked);
                if scl && !v {
                    clocked = false;
                }
                scl = v;
            }
            BusOp::Sda(v) => {
                if scl && sda && !v {
                    bits.clear();
                    clocked = false;
                } else if scl && !sda && v {
                    assert_eq!(bits.len(), 27, "a frame holds three 9-bit bytes");
                    let byte = |k: usize| {
                        (0..8).fold(0u8, |acc, j| (acc << 1) | bits[9 * k + j] as u8)
                    };
                    assert_eq!(byte(0), 0x78);
                    frames.push(match byte(1) {
                        0x00 => Transfer::Command(byte(2)),
                        0x40 => Transfer::Data(byte(2)),
                        other => panic!("unexpected control byte {other:#x}"),
                    });
                    clocked = false;
                }
                sda = v;
            }
        }
    }
    frames
}

/// A font whose glyph for character `c` is sixteen copies of `c - ' '`.
fn test_font() -> Vec<Glyph> {
    (0..95u8).map(|i| [i; 16]).collect()
}

/// The characters drawn by a list of transfers: each glyph is 16 data bytes
/// equal to the character's index in the test font.
fn drawn_chars(ts: &[Transfer]) -> String {
    let data: Vec<u8> = ts
        .iter()
        .filter_map(|t| match t {
            Transfer::Data(d) => Some(*d),
            _ => None,
        })
        .collect();
    data.chunks(16).map(|g| (g[0] + b' ') as char).collect()
}

#[test]
fn start_and_stop_conditions() {
    let mut out = Vec::new();
    i2c_start(&mut out);
    assert_eq!(
        out,
        vec![BusOp::Sda(true), BusOp::Scl(true), BusOp::Sda(false), BusOp::Scl(false)]
    );
    out.clear();
    i2c_stop(&mut out);
    assert_eq!(out, vec![BusOp::Sda(false), BusOp::Scl(true), BusOp::Sda(true)]);
}

#[test]
fn send_byte_is_msb_first_with_ack_clock() {
    let mut out = Vec::new();
    i2c_send_byte(&mut out, 0xA5);
    assert_eq!(out.len(), 26);
    let bits: Vec<bool> = out
        .iter()
        .filter_map(|op| match op {
            BusOp::Sda(v) => Some(*v),
            _ => None,
        })
        .collect();
    assert_eq!(bits, vec![true, false, true, false, false, true, false, true]);
    assert_eq!(&out[24..], &[BusOp::Scl(true), BusOp::Scl(false)]);
}

#[test]
fn command_and_data_frames_are_received() {
    let mut out = Vec::new();
    write_command(&mut out, 0xAE);
    write_data(&mut out, 0x3C);
    write_command(&mut out, 0x81);
    assert_eq!(out.len(), 3 * 85);
    assert_eq!(
        receive(&out),
        vec![Transfer::Command(0xAE), Transfer::Data(0x3C), Transfer::Command(0x81)]
    );
}

#[test]
fn cursor_commands() {
    let mut out = Vec::new();
    set_cursor(&mut out, 2, 0x35);
    assert_eq!(
        receive(&out),
        vec![Transfer::Command(0xB2), Transfer::Command(0x13), Transfer::Command(0x05)]
    );
}

#[test]
fn clear_fills_every_page_with_zeros() {
    let mut out = Vec::new();
    clear(&mut out);
    let ts = receive(&out);
    assert_eq!(ts.len(), 8 * (3 + 128));
    for page in 0..8u8 {
        let chunk = &ts[page as usize * 131..(page as usize + 1) * 131];
        assert_eq!(chunk[0], Transfer::Command(0xB0 | page));
        assert_eq!(chunk[1], Transfer::Command(0x10));
        assert_eq!(chunk[2], Transfer::Command(0x00));
        assert!(chunk[3..].iter().all(|t| *t == Transfer::Data(0)));
    }
}

#[test]
fn show_char_draws_both_halves() {
    let mut font = test_font();
    font['A' as usize - 32] = [1, 2, 3, 4, 5, 6, 7, 8, 9, 10, 11, 12, 13, 14, 15, 16];
    let mut out = Vec::new();
    show_char(&mut out, 2, 3, 'A', &font);
    let ts = receive(&out);
    let mut expected = vec![Transfer::Command(0xB2), Transfer::Command(0x11), Transfer::Command(0x00)];
    expected.extend((1..=8).map(Transfer::Data));
    expected.extend([Transfer::Command(0xB3), Transfer::Command(0x11), Transfer::Command(0x00)]);
    expected.extend((9..=16).map(Transfer::Data));
    assert_eq!(ts, expected);
}

#[test]
fn show_string_stops_at_nul() {
    let font = test_font();
    let mut out = Vec::new();
    show_string(&mut out, 1, 3, "Hello\0World", &font);
    assert_eq!(drawn_chars(&receive(&out)), "Hello");
    out.clear();
    show_string(&mut out, 1, 3, "HelloWorld!", &font);
    let ts = receive(&out);
    assert_eq!(drawn_chars(&ts), "HelloWorld!");
    // The last character sits in column 13: pixel column 96.
    assert_eq!(ts[ts.len() - 10], Transfer::Command(0x16));
}

#[test]
fn show_num_draws_decimal_digits() {
    let font = test_font();
    let mut out = Vec::new();
    show_num(&mut out, 2, 1, 12345, 5, &font);
    assert_eq!(drawn_chars(&receive(&out)), "12345");
    out.clear();
    show_num(&mut out, 1, 7, 42, 5, &font);
    assert_eq!(drawn_chars(&receive(&out)), "00042");
    out.clear();
    show_num(&mut out, 1, 1, 4294967295, 10, &font);
    assert_eq!(drawn_chars(&receive(&out)), "4294967295");
}

#[test]
fn show_signed_num_draws_sign_and_magnitude() {
    let font = test_font();
    let mut out = Vec::new();
    show_signed_num(&mut out, 2, 7, -66, 2, &font);
    assert_eq!(drawn_chars(&receive(&out)), "-66");
    out.clear();
    show_signed_num(&mut out, 2, 1, 0, 5, &font);
    assert_eq!(drawn_chars(&receive(&out)), "+00000");
    out.clear();
    show_signed_num(&mut out, 1, 1, 2147483647, 10, &font);
    assert_eq!(drawn_chars(&receive(&out)), "+2147483647");
    out.clear();
    show_signed_num(&mut out, 1, 1, i32::MIN, 10, &font);
    assert_eq!(drawn_chars(&receive(&out)), "-2147483648");
}

#[test]
fn show_hex_and_bin_num() {
    let font = test_font();
    let mut out = Vec::new();
    show_hex_num(&mut out, 3, 1, 0xAA55, 4, &font);
    assert_eq!(drawn_chars(&receive(&out)), "AA55");
    out.clear();
    show_hex_num(&mut out, 1, 4, 0x3b, 2, &font);
    assert_eq!(drawn_chars(&receive(&out)), "3B");
    out.clear();
    show_bin_num(&mut out, 4, 1, 0xAA55, 16, &font);
    assert_eq!(drawn_chars(&receive(&out)), "1010101001010101");
}

#[test]
fn init_config_sends_setup_then_clears() {
    let mut out = Vec::new();
    init_oled_config(&mut out);
    assert_eq!(&out[..2], &[BusOp::Scl(true), BusOp::Sda(true)]);
    let ts = receive(&out[2..]);
    assert_eq!(ts.len(), 23 + 8 * 131);
    let cmds: Vec<u8> = ts[..23]
        .iter()
        .map(|t| match t {
            Transfer::Command(c) => *c,
            Transfer::Data(_) => panic!("data during setup"),
        })
        .collect();
    assert_eq!(
        cmds,
        vec![
            0xAE, 0xD5, 0x80, 0xA8, 0x3F, 0xD3, 0x00, 0x40, 0xA1, 0xC8, 0xDA, 0x12, 0x81, 0xCF,
            0xD9, 0xF1, 0xDB, 0x30, 0xA4, 0xA6, 0x8D, 0x14, 0xAF
        ]
    );
    let mut ram = [[0x5Au8; 128]; 8];
    screen_after(&ts, &mut ram);
    assert!(ram.iter().all(|p| p.iter().all(|b| *b == 0)));
}

/// Display memory after the transfers, in page addressing mode; argument
/// bytes of multi-byte commands are skipped.
fn screen_after(ts: &[Transfer], ram: &mut [[u8; 128]; 8]) {
    let (mut page, mut col, mut args) = (0usize, 0usize, 0u8);
    for t in ts {
        match *t {
            Transfer::Command(_) if args > 0 => args -= 1,
            Transfer::Command(0x20 | 0x81 | 0x8D | 0xA8 | 0xD3 | 0xD5 | 0xD9 | 0xDA | 0xDB) => args = 1,
            Transfer::Command(0x21 | 0x22 | 0xA3) => args = 2,
            Transfer::Command(0x29 | 0x2A) => args = 5,
            Transfer::Command(0x26 | 0x27) => args = 6,
            Transfer::Command(c) if c & 0xF8 == 0xB0 => page = (c & 7) as usize,
            Transfer::Command(c) if c & 0xF0 == 0x10 => col = (c as usize & 0xF) * 16 + col % 16,
            Transfer::Command(c) if c & 0xF0 == 0x00 => col = col / 16 * 16 + (c as usize & 0xF),
            Transfer::Command(_) => {}
            Transfer::Data(d) => {
                ram[page][col] = d;
                col = (col + 1) % 128;
            }
        }
    }
    assert_eq!(args, 0, "a command still waits for arguments");
}

#[test]
fn characters_land_in_their_cells() {
    let mut font = test_font();
    font['7' as usize - 32] = [1, 2, 3, 4, 5, 6, 7, 8, 9, 10, 11, 12, 13, 14, 15, 16];
    let mut ram = [[0xEEu8; 128]; 8];
    let mut out = Vec::new();
    clear(&mut out);
    screen_after(&receive(&out), &mut ram);
    assert!(ram.iter().all(|p| p.iter().all(|b| *b == 0)));
    out.clear();
    show_num(&mut out, 3, 16, 7, 1, &font);
    screen_after(&receive(&out), &mut ram);
    assert_eq!(&ram[4][120..128], &[1, 2, 3, 4, 5, 6, 7, 8]);
    assert_eq!(&ram[5][120..128], &[9, 10, 11, 12, 13, 14, 15, 16]);
    let written: usize = ram.iter().map(|p| p.iter().filter(|b| **b != 0).count()).sum();
    assert_eq!(written, 16);
}
