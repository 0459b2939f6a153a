use display::codec::pos_from_bytes;
use display::console::{Console, COLS};
use display::font::{default_fonts, Font};
use display::framebuf::{Display, SoftFb};
use display::interface::{Action, DisplayState, Image};
use display::{CHARH, CHARW, HEIGHT, WIDTH};

fn make_console() -> Console<SoftFb> {
    let buf = vec![0u8; WIDTH as usize * (HEIGHT + CHARH) as usize];
    let fb = Display::new(buf, WIDTH, HEIGHT, SoftFb);
    Console::new(fb, Font::blank(CHARW, CHARH))
}

fn make_display(images: Vec<Image>) -> DisplayState<SoftFb> {
    let gbuf = vec![0u8; WIDTH as usize * HEIGHT as usize];
    let gfx = Display::new(gbuf, WIDTH, HEIGHT, SoftFb);
    DisplayState::new(gfx, make_console(), default_fonts(), images, (6, 150, 1, 0))
}

fn feed(d: &mut DisplayState<SoftFb>, bytes: &[u8]) -> Vec<Action> {
    let mut out = Vec::new();
    for &b in bytes {
        if let Some(a) = d.process_byte(b) {
            out.push(a);
        }
    }
    out
}

fn frame(cmd: u8, data: &[u8]) -> Vec<u8> {
    let mut v = vec![0x1b, 0x1b, data.len() as u8 + 1, cmd];
    v.extend_from_slice(data);
    v
}

#[test]
fn framing_round_trip_set_pos() {
    let mut d = make_display(Vec::new());
    let (x, y) = (300u16, 70u16);
    let b0 = ((y << 1) | (x >> 8)) as u8;
    let b1 = (x & 0xff) as u8;
    let acts = feed(&mut d, &frame(0x30, &[b0, b1]));
    assert!(acts.is_empty());
    let s = d.setting();
    assert_eq!((s.posx, s.posy), (300, 70));
    // The machine is idle again: plain text reaches the console.
    feed(&mut d, b"A");
    assert_eq!(d.console().cursor(), (1, 0));
}

#[test]
fn frame_payload_may_contain_escape_bytes() {
    let mut d = make_display(Vec::new());
    // A position whose bytes are both the escape character decodes to
    // x = 0x11b = 283, y = 13.
    let acts = feed(&mut d, &frame(0x30, &[0x1b, 0x1b]));
    assert!(acts.is_empty());
    let s = d.setting();
    assert_eq!((s.posx, s.posy), pos_from_bytes(&[0x1b, 0x1b]));
}

#[test]
fn zero_length_frame_is_dropped() {
    let mut d = make_display(Vec::new());
    let acts = feed(&mut d, &[0x1b, 0x1b, 0x00]);
    assert!(acts.is_empty());
    // Back to idle: the next bytes are ordinary text.
    feed(&mut d, b"hi");
    assert_eq!(d.console().cursor(), (2, 0));
}

#[test]
fn mode_switch_is_idempotent() {
    let mut d = make_display(Vec::new());
    assert!(!d.is_graphics());
    feed(&mut d, &frame(0x20, &[]));
    assert!(d.is_graphics());
    let before = d.setting();
    feed(&mut d, &frame(0x20, &[]));
    assert!(d.is_graphics());
    let after = d.setting();
    assert_eq!((before.posx, before.posy, before.font), (after.posx, after.posy, after.font));
    feed(&mut d, &frame(0x21, &[]));
    assert!(!d.is_graphics());
}

#[test]
fn clip_containment_over_command_sequences() {
    let mut d = make_display(Vec::new());
    // Clip to x in [120, 240), y in [32, 64).
    let p = |x: u16, y: u16| -> [u8; 2] { [((y << 1) | (x >> 8)) as u8, (x & 0xff) as u8] };
    let mut clip = Vec::new();
    clip.extend_from_slice(&p(120, 32));
    clip.extend_from_slice(&p(240, 64));
    feed(&mut d, &frame(0x33, &clip));
    let snapshot: Vec<u8> = d.graphics().buf().to_vec();
    // Fill the whole screen, draw lines and text across the boundary.
    feed(&mut d, &frame(0x32, &[1, 2, 3, 4]));
    feed(&mut d, &frame(0x40, &[200]));
    let mut lines = Vec::new();
    lines.extend_from_slice(&p(0, 0));
    lines.extend_from_slice(&p(479, 127));
    feed(&mut d, &frame(0x41, &lines));
    let mut rect = Vec::new();
    rect.extend_from_slice(&p(100, 20));
    rect.extend_from_slice(&p(400, 100));
    feed(&mut d, &frame(0x42, &rect));
    feed(&mut d, &frame(0x44, b"XYZ"));
    let now = d.graphics().buf();
    for y in 0..HEIGHT as usize {
        for x in 0..WIDTH as usize {
            let inside = (120..240).contains(&x) && (32..64).contains(&y);
            let i = x + y * WIDTH as usize;
            if !inside {
                assert_eq!(now[i], snapshot[i], "pixel outside clip changed at {},{}", x, y);
            }
        }
    }
    // And the fill did land inside.
    assert_eq!(now[130 + 40 * WIDTH as usize], 4);
}

#[test]
fn clip_reset_without_data_restores_full_screen() {
    let mut d = make_display(Vec::new());
    let p = |x: u16, y: u16| -> [u8; 2] { [((y << 1) | (x >> 8)) as u8, (x & 0xff) as u8] };
    let mut clip = Vec::new();
    clip.extend_from_slice(&p(10, 10));
    clip.extend_from_slice(&p(20, 20));
    feed(&mut d, &frame(0x33, &clip));
    feed(&mut d, &frame(0x33, &[]));
    feed(&mut d, &frame(0x32, &[0, 0, 0, 7]));
    feed(&mut d, &frame(0x40, &[7]));
    assert!(d.graphics().buf()[..WIDTH as usize * HEIGHT as usize].iter().all(|&c| c == 7));
}

#[test]
fn terminal_wrap_fires_exactly_once() {
    let mut d = make_display(Vec::new());
    for _ in 0..COLS {
        feed(&mut d, b"x");
    }
    // The cursor holds on the last column with the wrap pending.
    assert_eq!(d.console().cursor(), (COLS - 1, 0));
    feed(&mut d, b"y");
    assert_eq!(d.console().cursor(), (1, 1));
}

#[test]
fn csi_cursor_clamps_at_left_edge() {
    let mut d = make_display(Vec::new());
    assert_eq!(d.console().cursor(), (0, 0));
    feed(&mut d, b"\x1b[5D");
    assert_eq!(d.console().cursor(), (0, 0));
}

#[test]
fn csi_cursor_motion_and_position() {
    let mut d = make_display(Vec::new());
    feed(&mut d, b"\x1b[12;34H");
    assert_eq!(d.console().cursor(), (33, 11));
    feed(&mut d, b"\x1b[3A");
    assert_eq!(d.console().cursor(), (33, 8));
    feed(&mut d, b"\x1b[500C");
    assert_eq!(d.console().cursor(), (COLS - 1, 8));
    feed(&mut d, b"\x1b[7G");
    assert_eq!(d.console().cursor(), (6, 8));
    // Overlong numbers parse as 0, and a zero argument clamps to home.
    feed(&mut d, b"\x1b[99999;99999H");
    assert_eq!(d.console().cursor(), (0, 0));
    feed(&mut d, b"\x1b[16;80H");
    assert_eq!(d.console().cursor(), (COLS - 1, 15));
    feed(&mut d, b"\x1b[H");
    assert_eq!(d.console().cursor(), (0, 0));
}

#[test]
fn save_restore_round_trip() {
    let mut d = make_display(Vec::new());
    let p = |x: u16, y: u16| -> [u8; 2] { [((y << 1) | (x >> 8)) as u8, (x & 0xff) as u8] };
    // Set position (10, 20), font 2, palette [1,0,0,3], a clip rectangle.
    feed(&mut d, &frame(0x30, &p(10, 20)));
    feed(&mut d, &frame(0x31, &[2]));
    feed(&mut d, &frame(0x32, &[1, 0, 0, 3]));
    let mut clip = Vec::new();
    clip.extend_from_slice(&p(50, 60));
    clip.extend_from_slice(&p(70, 80));
    feed(&mut d, &frame(0x33, &clip));
    // Save into slot 5.
    feed(&mut d, &frame(0xa0 + 5, &[]));
    // Mutate all four fields.
    feed(&mut d, &frame(0x30, &p(400, 100)));
    feed(&mut d, &frame(0x31, &[1]));
    feed(&mut d, &frame(0x32, &[9, 9, 9, 9]));
    feed(&mut d, &frame(0x33, &[]));
    // Restore slot 5.
    feed(&mut d, &frame(0xc0 + 5, &[]));
    let s = d.setting();
    assert_eq!((s.posx, s.posy), (10, 20));
    assert_eq!(s.font, 2);
    assert_eq!(s.pal, [1, 0, 0, 3]);
    assert_eq!(s.clip1, (50, 60));
    assert_eq!(s.clip2, (70, 80));
    // The restored clip is applied to the framebuffer again: a clear
    // touches only the restored rectangle.
    let snapshot: Vec<u8> = d.graphics().buf().to_vec();
    feed(&mut d, &frame(0x40, &[123]));
    let now = d.graphics().buf();
    for y in 0..HEIGHT as usize {
        for x in 0..WIDTH as usize {
            let inside = (50..70).contains(&x) && (60..80).contains(&y);
            let i = x + y * WIDTH as usize;
            assert_eq!(now[i], if inside { 123 } else { snapshot[i] });
        }
    }
}

#[test]
fn boot_banner_detection_resets() {
    let mut d = make_display(Vec::new());
    let banner = b"\x1b[0mSeaBIOS ";
    let mut acts = feed(&mut d, b"\x1b[2J");
    assert!(acts.is_empty());
    for (i, &b) in banner.iter().enumerate() {
        let r = d.process_byte(b);
        if i + 1 == banner.len() {
            assert!(matches!(r, Some(Action::Reset)), "reset on the last banner byte");
        } else {
            assert!(r.is_none(), "no reset before the last banner byte ({})", i);
        }
    }
    // A corrupted banner never resets; the matched prefix is replayed as
    // terminal input instead.
    let mut d2 = make_display(Vec::new());
    feed(&mut d2, b"\x1b[2J");
    let mut bad = banner.to_vec();
    bad[8] = b'X';  // "SeaB" then 'X' instead of 'I'
    acts = feed(&mut d2, &bad[..9]);
    assert!(acts.is_empty());
    // Replayed text "SeaB" plus the mismatching 'X': five glyphs.
    assert_eq!(d2.console().cursor(), (5, 0));
    // The remaining banner bytes print as ordinary text too.
    acts = feed(&mut d2, &bad[9..]);
    assert!(acts.is_empty());
    assert_eq!(d2.console().cursor(), (8, 0));
}

#[test]
fn banner_mismatch_on_first_byte_is_plain_text() {
    let mut d = make_display(Vec::new());
    feed(&mut d, b"\x1b[2J");
    let acts = feed(&mut d, b"Q");
    assert!(acts.is_empty());
    assert_eq!(d.console().cursor(), (1, 0));
}

#[test]
fn privileged_commands_require_magic() {
    let mut d = make_display(Vec::new());
    let acts = feed(&mut d, &frame(0xf1, &[1, 2, 3, 4]));
    assert!(acts.is_empty(), "wrong token is silently ignored");
    let acts = feed(&mut d, &frame(0xf1, &[0xcb, 0xef, 0x20, 0x18]));
    assert!(matches!(acts.as_slice(), [Action::Reset]));
    let acts = feed(&mut d, &frame(0xf0, &[0xcb, 0xef, 0x20, 0x18]));
    assert!(matches!(acts.as_slice(), [Action::Bootloader]));
    let acts = feed(&mut d, &frame(0xf4, &[0xcb, 0xef, 0x20, 0x18]));
    assert!(matches!(acts.as_slice(), [Action::ResetApu]));
    let acts = feed(&mut d, &frame(0xf5, &[0xcb, 0xef, 0x20, 0x18]));
    assert!(matches!(acts.as_slice(), [Action::ApuReinstall]));
    let acts = feed(&mut d, &frame(0xf1, &[0xcb, 0xef, 0x20]));
    assert!(acts.is_empty(), "undersized token is silently ignored");
}

#[test]
fn startup_macro_is_handed_up() {
    let mut d = make_display(Vec::new());
    let acts = feed(&mut d, &frame(0xf2, b"boot me"));
    match acts.as_slice() {
        [Action::WriteEeprom(len_addr, data_addr, blob)] => {
            assert_eq!(*len_addr, 0);
            assert_eq!(*data_addr, 64);
            assert_eq!(blob.as_slice(), b"boot me");
        },
        other => panic!("expected one WriteEeprom action, got {} actions", other.len()),
    }
}

#[test]
fn ident_reply_is_framed() {
    let mut d = make_display(Vec::new());
    feed(&mut d, &frame(0xf3, &[]));
    let out = d.console().take_output();
    assert_eq!(out.len(), 8);
    assert_eq!(&out[..4], &[0x1b, 0x1b, 0x05, 0xf3]);
    assert_eq!(out[4], 0);  // customer
    assert_eq!(out[5], 0);  // mode
    assert_eq!(&out[6..], &[1, 21]);  // version
    assert!(d.console().take_output().is_empty());
}

#[test]
fn touch_forwarding_and_calibration() {
    let mut d = make_display(Vec::new());
    assert_eq!(d.touch_calib(), (6, 150, 1, 0));
    feed(&mut d, &frame(0x52, &[7, 8, 9, 10]));
    assert_eq!(d.touch_calib(), (7, 8, 9, 10));
    // Local mode: a touch toggles the visible surface.
    d.process_touch(100, 50);
    assert!(d.is_graphics());
    d.process_touch(100, 50);
    assert!(!d.is_graphics());
    assert!(d.console().take_output().is_empty());
    // Forwarding mode: a touch becomes a framed reply.
    feed(&mut d, &frame(0x51, &[1]));
    d.process_touch(300, 70);
    let out = d.console().take_output();
    assert_eq!(&out[..4], &[0x1b, 0x1b, 0x03, 0x50]);
    assert_eq!(pos_from_bytes(&out[4..]), (300, 70));
    assert!(!d.is_graphics(), "forwarded touches do not switch surfaces");
}

#[test]
fn image_command_uses_table_and_palette_override() {
    let img = Image::new(vec![0b1110_0100], 4, 1, [20, 21, 22, 23]);
    let mut d = make_display(vec![img]);
    let p = |x: u16, y: u16| -> [u8; 2] { [((y << 1) | (x >> 8)) as u8, (x & 0xff) as u8] };
    feed(&mut d, &frame(0x30, &p(8, 4)));
    feed(&mut d, &frame(0x43, &[0]));
    let w = WIDTH as usize;
    {
        let buf = d.graphics().buf();
        assert_eq!(&buf[8 + 4 * w..12 + 4 * w], &[20, 21, 22, 23]);
    }
    // With a 4-byte override the wire palette wins.
    feed(&mut d, &frame(0x43, &[0, 30, 31, 32, 33]));
    let buf = d.graphics().buf();
    assert_eq!(&buf[8 + 4 * w..12 + 4 * w], &[30, 31, 32, 33]);
}

#[test]
fn image_command_checks_table_bounds() {
    let mut d = make_display(Vec::new());
    let before: Vec<u8> = d.graphics().buf().to_vec();
    feed(&mut d, &frame(0x43, &[0]));
    assert_eq!(d.graphics().buf(), before.as_slice(), "empty table: draw nothing");
}

#[test]
fn font_command_checks_table_bounds() {
    let mut d = make_display(Vec::new());
    feed(&mut d, &frame(0x31, &[2]));
    assert_eq!(d.setting().font, 2);
    feed(&mut d, &frame(0x31, &[4]));
    assert_eq!(d.setting().font, 2, "out-of-range index is ignored");
}

#[test]
fn plot_command_draws_columns() {
    let mut d = make_display(Vec::new());
    feed(&mut d, &frame(0x32, &[0, 0, 0, 6]));
    let p = |x: u16, y: u16| -> [u8; 2] { [((y << 1) | (x >> 8)) as u8, (x & 0xff) as u8] };
    // Start at x=10: single values 20 and 22, then a span 30..=33, then
    // a no-data column, then a min/max column.
    let mut data = Vec::new();
    data.extend_from_slice(&p(10, 0));
    data.push(20);
    data.push(22);
    data.push(0x80 | 30);
    data.push(33);
    data.push(0x80 | 5);
    data.push(0x80 | 5);
    data.push(40);
    data.push(44);
    feed(&mut d, &frame(0x46, &data));
    let w = WIDTH as usize;
    let buf = d.graphics().buf();
    assert_eq!(buf[10 + 20 * w], 6, "first dot");
    assert_eq!(buf[11 + 22 * w], 6, "second point");
    assert_eq!(buf[10 + 21 * w], 6, "connector to previous column");
    for y in 30..=33usize {
        assert_eq!(buf[12 + y * w], 6, "span at column 12, y {}", y);
    }
    for y in 40..=44usize {
        assert_eq!(buf[13 + y * w], 6, "min/max span at column 13, y {}", y);
    }
}

#[test]
fn csi_buffer_overflow_abandons_sequence() {
    let mut d = make_display(Vec::new());
    let mut bytes = vec![0x1b, b'['];
    bytes.extend(std::iter::repeat(b'1').take(256));
    let acts = feed(&mut d, &bytes);
    assert!(acts.is_empty());
    assert_eq!(d.console().cursor(), (0, 0), "overflowed sequence is dropped");
    feed(&mut d, b"a");
    assert_eq!(d.console().cursor(), (1, 0));
}

#[test]
fn lone_escape_then_garbage_is_abandoned() {
    let mut d = make_display(Vec::new());
    feed(&mut d, &[0x1b, b'Q', b'a']);
    // 'Q' abandons the sequence silently; 'a' prints.
    assert_eq!(d.console().cursor(), (1, 0));
}

#[test]
fn reverse_linefeed_inserts_line() {
    let mut d = make_display(Vec::new());
    feed(&mut d, b"\x1bM");
    assert_eq!(d.console().cursor(), (0, 0), "insert-line leaves the cursor");
    feed(&mut d, b"a");
    assert_eq!(d.console().cursor(), (1, 0));
}

#[test]
fn dec_private_sequences_are_ignored() {
    let mut d = make_display(Vec::new());
    // A DEC private sequence: the `?` is buffered, the unknown final
    // byte dispatches to nothing.
    let acts = feed(&mut d, b"\x1b[?25h");
    assert!(acts.is_empty());
    assert_eq!(d.console().cursor(), (0, 0));
    feed(&mut d, b"ok");
    assert_eq!(d.console().cursor(), (2, 0));
}
