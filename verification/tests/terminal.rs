use display::console::{Console, COLS, ROWS};
use display::font::Font;
use display::framebuf::{Display, SoftFb};
use display::{CHARH, CHARW, HEIGHT, WIDTH};

fn make_console() -> Console<SoftFb> {
    let buf = vec![0u8; WIDTH as usize * (HEIGHT + CHARH) as usize];
    let fb = Display::new(buf, WIDTH, HEIGHT, SoftFb);
    Console::new(fb, Font::blank(CHARW, CHARH))
}

#[test]
fn control_characters_move_the_cursor() {
    let mut c = make_console();
    c.process_str(b"abc");
    assert_eq!(c.cursor(), (3, 0));
    c.process_char(b'\r');
    assert_eq!(c.cursor(), (0, 0));
    c.process_str(b"xy");
    c.process_char(b'\n');
    assert_eq!(c.cursor(), (0, 1));
    c.process_char(0x08);
    assert_eq!(c.cursor(), (0, 1), "backspace stops at the left edge");
    c.process_str(b"ab");
    c.process_char(0x08);
    assert_eq!(c.cursor(), (1, 1));
    c.process_char(b'\t');
    assert_eq!(c.cursor(), (8, 1));
    c.process_char(b'\t');
    assert_eq!(c.cursor(), (16, 1));
    c.process_char(0x00);
    c.process_char(0x07);
    assert_eq!(c.cursor(), (16, 1), "NUL and BEL are ignored");
}

#[test]
fn tab_clamps_to_last_column() {
    let mut c = make_console();
    c.process_csi(b'G', &COLS.to_string().into_bytes());
    assert_eq!(c.cursor(), (COLS - 1, 0));
    c.process_char(b'\t');
    assert_eq!(c.cursor(), (COLS - 1, 0));
}

#[test]
fn newline_scrolls_at_the_last_row() {
    let mut c = make_console();
    // Paint the top-left character cell, then scroll it off.
    c.process_csi(b'm', b"41");  // red background
    c.process_char(b' ');
    let w = WIDTH as usize;
    assert_eq!(c.buf()[0], 1, "glyph cell painted with background 1");
    for _ in 0..ROWS {
        c.process_char(b'\n');
    }
    assert_eq!(c.cursor(), (0, ROWS - 1), "cursor pinned to the last row");
    assert_eq!(c.buf()[0], 0, "first row scrolled away");
    // The whole visible screen shifted up by one glyph row.
    for y in 0..(HEIGHT - CHARH) as usize {
        for x in 0..w {
            assert_eq!(c.buf()[x + y * w], 0);
        }
    }
}

#[test]
fn sgr_selects_swaps_and_resets_colors() {
    let mut c = make_console();
    assert_eq!(c.color(), [0, 0, 0, 7]);
    c.process_csi(b'm', b"31;44");
    assert_eq!(c.color(), [4, 0, 0, 1]);
    c.process_csi(b'm', b"1");
    assert_eq!(c.color(), [4, 0, 0, 9], "bright bit set");
    c.process_csi(b'm', b"7");
    assert_eq!(c.color(), [9, 0, 0, 4], "slots swapped");
    c.process_csi(b'm', b"22");
    assert_eq!(c.color(), [9, 0, 0, 4], "bright bit already clear");
    c.process_csi(b'm', b"38;5;123");
    assert_eq!(c.color(), [9, 0, 0, 123], "extended foreground");
    c.process_csi(b'm', b"48;5;200;1");
    assert_eq!(c.color(), [200, 0, 0, 123], "extended background; 123 already bright");
    c.process_csi(b'm', b"0");
    assert_eq!(c.color(), [0, 0, 0, 7]);
}

#[test]
fn sgr_with_missing_extended_index_uses_zero() {
    let mut c = make_console();
    c.process_csi(b'm', b"38;5");
    assert_eq!(c.color(), [0, 0, 0, 0]);
}

#[test]
fn erase_line_blanks_exact_cells() {
    let mut c = make_console();
    c.process_csi(b'm', b"47");  // white background
    c.process_str(b"          ");  // paint ten cells on row 0
    c.process_csi(b'H', b"1;5");  // cursor to column 4
    c.process_csi(b'K', b"0");  // erase from cursor to line end
    let w = WIDTH as usize;
    for y in 0..CHARH as usize {
        for x in 0..(4 * CHARW) as usize {
            assert_eq!(c.buf()[x + y * w], 7, "left of the cursor keeps paint");
        }
        for x in (4 * CHARW) as usize..w {
            assert_eq!(c.buf()[x + y * w], 0, "cursor cell onward is blank");
        }
    }
}

#[test]
fn erase_screen_blanks_everything() {
    let mut c = make_console();
    c.process_csi(b'm', b"47");
    c.process_str(b"     ");
    c.process_csi(b'J', b"2");
    let visible = WIDTH as usize * HEIGHT as usize;
    assert!(c.buf()[..visible].iter().all(|&p| p == 0));
}

#[test]
fn erase_chars_in_place() {
    let mut c = make_console();
    c.process_csi(b'm', b"47");
    c.process_str(b"      ");  // six painted cells
    c.process_csi(b'H', b"1;2");
    c.process_csi(b'X', b"3");  // erase three cells from column 1
    assert_eq!(c.cursor(), (1, 0), "erase does not move the cursor");
    let w = WIDTH as usize;
    let cw = CHARW as usize;
    assert_eq!(c.buf()[0], 7);
    for x in cw..4 * cw {
        assert_eq!(c.buf()[x], 0, "erased columns at {}", x);
    }
    for x in 4 * cw..6 * cw {
        assert_eq!(c.buf()[x + 0 * w], 7, "past the erased run at {}", x);
    }
}

#[test]
fn delete_lines_shifts_rows_up() {
    let mut c = make_console();
    // Paint row 1 with background 7, row 2 with background 3.
    c.process_csi(b'H', b"2;1");
    c.process_csi(b'm', b"47");
    c.process_char(b' ');
    c.process_csi(b'H', b"3;1");
    c.process_csi(b'm', b"43");
    c.process_char(b' ');
    // Delete line 1 (the first painted row): the rows below move up.
    c.process_csi(b'H', b"2;1");
    c.process_csi(b'M', b"1");
    let w = WIDTH as usize;
    assert_eq!(c.buf()[(CHARH as usize) * w], 3, "row 2 moved into row 1");
}

#[test]
fn insert_lines_pushes_rows_down() {
    let mut c = make_console();
    c.process_csi(b'H', b"2;1");
    c.process_csi(b'm', b"47");
    c.process_char(b' ');
    c.process_csi(b'H', b"2;1");
    c.process_csi(b'L', b"1");
    let w = WIDTH as usize;
    assert_eq!(c.buf()[(CHARH as usize) * w], 0, "inserted row is blank");
    assert_eq!(c.buf()[(2 * CHARH as usize) * w], 7, "old row pushed down");
}

#[test]
fn delete_chars_shifts_row_left() {
    let mut c = make_console();
    c.process_csi(b'm', b"47");
    c.process_char(b' ');
    c.process_csi(b'm', b"43");
    c.process_char(b' ');
    c.process_csi(b'H', b"1;1");
    c.process_csi(b'P', b"1");
    assert_eq!(c.buf()[0], 3, "second cell shifted into the first");
}

#[test]
fn hex_dumps_print_digits() {
    let mut c = make_console();
    c.dump_byte(0x4F);
    assert_eq!(c.cursor(), (2, 0));
    c.dump_u32(0xdeadbeef);
    assert_eq!(c.cursor(), (10, 0));
}

#[test]
fn glyphs_render_through_the_console_font() {
    // A font whose glyph 'A' selects the foreground slot everywhere.
    let mut data = vec![0u8; 2 * (CHARW as usize * CHARH as usize + 3) / 4];
    let glyph_bytes = (CHARW as usize * CHARH as usize + 3) / 4;
    for b in &mut data[glyph_bytes..] {
        *b = 0xff;
    }
    let mut chars = vec![0usize; 256];
    chars[b'A' as usize] = glyph_bytes;
    let font = Font::new(data, chars, CHARW, CHARH);
    let buf = vec![0u8; WIDTH as usize * (HEIGHT + CHARH) as usize];
    let fb = Display::new(buf, WIDTH, HEIGHT, SoftFb);
    let mut c = Console::new(fb, font);
    c.process_str(b"A");
    let w = WIDTH as usize;
    for y in 0..CHARH as usize {
        for x in 0..CHARW as usize {
            assert_eq!(c.buf()[x + y * w], 7, "foreground pixel at {},{}", x, y);
        }
    }
    c.process_str(b"B");
    for y in 0..CHARH as usize {
        for x in CHARW as usize..2 * CHARW as usize {
            assert_eq!(c.buf()[x + y * w], 0, "glyph B is blank");
        }
    }
}

#[test]
fn outbox_collects_host_bytes() {
    let mut c = make_console();
    c.write_to_host(b"abc");
    c.write_to_host(b"de");
    assert_eq!(c.take_output(), b"abcde");
    assert!(c.take_output().is_empty());
}

#[test]
fn unknown_csi_and_insert_blanks_are_ignored() {
    let mut c = make_console();
    c.process_str(b"ab");
    c.process_csi(b'@', b"3");
    c.process_csi(b'q', b"1;2");
    assert_eq!(c.cursor(), (2, 0));
    assert_eq!(c.color(), [0, 0, 0, 7]);
}
