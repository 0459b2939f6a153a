use display::codec::{parse_dec_u16, pos_from_bytes, pos_to_bytes};
use display::console::get_lut_colors;
use display::font::{default_fonts, Font};
use display::framebuf::{Display, SoftFb};

fn fresh(w: u16, h: u16) -> Display<SoftFb> {
    Display::new(vec![0u8; w as usize * h as usize], w, h, SoftFb)
}

fn px(d: &Display<SoftFb>, x: u16, y: u16) -> u8 {
    d.buf()[x as usize + y as usize * d.width() as usize]
}

#[test]
fn pos_codec_round_trips_everywhere() {
    for x in 0..480u16 {
        for y in 0..128u16 {
            let (b0, b1) = pos_to_bytes(x, y);
            assert_eq!(pos_from_bytes(&[b0, b1]), (x, y));
        }
    }
}

#[test]
fn pos_codec_known_values() {
    // x = 300 = 0b1_0010_1100, y = 70: b0 = (70 << 1) | 1, b1 = 0x2c.
    assert_eq!(pos_to_bytes(300, 70), (141, 0x2c));
    assert_eq!(pos_from_bytes(&[141, 0x2c]), (300, 70));
    assert_eq!(pos_to_bytes(0, 0), (0, 0));
    assert_eq!(pos_from_bytes(&[0, 0]), (0, 0));
}

#[test]
fn decimal_parsing_edges() {
    assert_eq!(parse_dec_u16(b"0"), Some(0));
    assert_eq!(parse_dec_u16(b"65535"), Some(65535));
    assert_eq!(parse_dec_u16(b"65536"), None);
    assert_eq!(parse_dec_u16(b""), None);
    assert_eq!(parse_dec_u16(b"1x2"), None);
    assert_eq!(parse_dec_u16(b"?"), None);
    assert_eq!(parse_dec_u16(b"007"), Some(7));
}

#[test]
fn lut_matches_documented_formulas() {
    let lut = get_lut_colors();
    assert_eq!(lut.len(), 256);
    for v in 0..16usize {
        let r = (v & 1 != 0) as u8;
        let g = (v & 2 != 0) as u8;
        let b = (v & 4 != 0) as u8;
        let i = (v & 8 != 0) as u8;
        assert_eq!(lut[v], (0x55 * ((r << 1) | i), 0x55 * ((g << 1) | i), 0x55 * ((b << 1) | i)));
    }
    let mut idx = 16usize;
    for r in 0..6u8 {
        for g in 0..6u8 {
            for b in 0..6u8 {
                assert_eq!(lut[idx], (0x33 * r, 0x33 * g, 0x33 * b));
                idx += 1;
            }
        }
    }
    for s in 0..24u8 {
        assert_eq!(lut[232 + s as usize], (8 + 10 * s, 8 + 10 * s, 8 + 10 * s));
    }
    // A few spot values: ANSI bright white, pure red cube corner, last gray.
    assert_eq!(lut[15], (0xff, 0xff, 0xff));
    assert_eq!(lut[16 + 5 * 36], (0xff, 0, 0));
    assert_eq!(lut[255], (238, 238, 238));
}

#[test]
fn rect_fills_half_open_and_respects_clip() {
    let mut d = fresh(32, 16);
    d.set_clip((2, 2), (10, 10));
    d.rect(0, 0, 32, 16, 9);
    for y in 0..16u16 {
        for x in 0..32u16 {
            let inside = (2..10).contains(&x) && (2..10).contains(&y);
            assert_eq!(px(&d, x, y), if inside { 9 } else { 0 }, "at {},{}", x, y);
        }
    }
}

#[test]
fn set_pixel_is_clipped() {
    let mut d = fresh(32, 16);
    d.set_clip((4, 4), (8, 8));
    d.set_pixel(3, 4, 7);
    d.set_pixel(8, 5, 7);
    d.set_pixel(4, 4, 7);
    d.set_pixel(7, 7, 7);
    assert_eq!(px(&d, 3, 4), 0);
    assert_eq!(px(&d, 8, 5), 0);
    assert_eq!(px(&d, 4, 4), 7);
    assert_eq!(px(&d, 7, 7), 7);
}

#[test]
fn set_clip_clamps_to_screen() {
    let mut d = fresh(32, 16);
    d.set_clip((40, 3), (50, 100));
    // clip1 clamps to (32, 3); clip2 to (32, 16): nothing drawable in x.
    d.rect(0, 0, 32, 16, 5);
    for y in 0..16u16 {
        for x in 0..32u16 {
            assert_eq!(px(&d, x, y), 0);
        }
    }
}

#[test]
fn line_draws_bresenham_inclusive() {
    let mut d = fresh(16, 16);
    d.line(0, 0, 5, 5, 3);
    for i in 0..6u16 {
        assert_eq!(px(&d, i, i), 3, "diagonal at {}", i);
    }
    let mut h = fresh(16, 16);
    h.line(2, 3, 6, 3, 4);
    for x in 2..=6u16 {
        assert_eq!(px(&h, x, 3), 4);
    }
    assert_eq!(px(&h, 7, 3), 0);
    assert_eq!(px(&h, 1, 3), 0);
}

#[test]
fn line_single_point() {
    let mut d = fresh(8, 8);
    d.line(3, 3, 3, 3, 6);
    assert_eq!(px(&d, 3, 3), 6);
    assert_eq!(d.buf().iter().filter(|&&c| c == 6).count(), 1);
}

#[test]
fn line_is_clipped() {
    let mut d = fresh(16, 16);
    d.set_clip((0, 0), (4, 16));
    d.line(0, 8, 15, 8, 2);
    for x in 0..4u16 {
        assert_eq!(px(&d, x, 8), 2);
    }
    for x in 4..16u16 {
        assert_eq!(px(&d, x, 8), 0);
    }
}

#[test]
fn image_decodes_low_order_bit_pairs_first() {
    let mut d = fresh(8, 8);
    // One byte 0b11100100 packs the 2-bit groups 0, 1, 2, 3 in order.
    d.image(0, 0, &[0b1110_0100], (4, 1), &[10, 11, 12, 13]);
    assert_eq!(px(&d, 0, 0), 10);
    assert_eq!(px(&d, 1, 0), 11);
    assert_eq!(px(&d, 2, 0), 12);
    assert_eq!(px(&d, 3, 0), 13);
}

#[test]
fn image_refills_accumulator_per_byte() {
    let mut d = fresh(8, 8);
    // 2x3 image: 6 pixels over 2 bytes; second byte starts at pixel 4.
    d.image(1, 1, &[0b00_01_10_11, 0b00_00_01_10], (2, 3), &[0, 1, 2, 3]);
    assert_eq!(px(&d, 1, 1), 3);
    assert_eq!(px(&d, 2, 1), 2);
    assert_eq!(px(&d, 1, 2), 1);
    assert_eq!(px(&d, 2, 2), 0);
    assert_eq!(px(&d, 1, 3), 2);
    assert_eq!(px(&d, 2, 3), 1);
}

#[test]
fn text_advances_by_cell_and_blits_glyphs() {
    // A 2x2-pixel font whose glyph for byte 1 is all-foreground.
    let mut data = vec![0u8; 2];
    data[1] = 0b1111_1111;
    let mut chars = vec![0usize; 256];
    chars[1] = 1;
    let font = Font::new(data, chars, 2, 2);
    assert_eq!(font.size(), (2, 2));
    let mut d = fresh(16, 8);
    d.text(&font, 0, 0, &[1, 0, 1], &[5, 6, 7, 8]);
    // glyph 1 (all 0b11) paints color 8; glyph 0 (all 0b00) paints color 5.
    for y in 0..2u16 {
        for x in 0..2u16 {
            assert_eq!(px(&d, x, y), 8);
            assert_eq!(px(&d, 2 + x, y), 5);
            assert_eq!(px(&d, 4 + x, y), 8);
        }
    }
}

#[test]
fn copy_rect_moves_blocks() {
    let mut d = fresh(16, 8);
    d.rect(0, 0, 2, 2, 9);
    d.copy_rect(0, 0, 2, 2, 5, 3);
    for y in 0..2u16 {
        for x in 0..2u16 {
            assert_eq!(px(&d, x, y), 9);
            assert_eq!(px(&d, 5 + x, 3 + y), 9);
        }
    }
    assert_eq!(d.buf().iter().filter(|&&c| c == 9).count(), 8);
}

#[test]
fn copy_rect_clips_destination() {
    let mut d = fresh(16, 8);
    d.rect(0, 0, 4, 4, 7);
    d.set_clip((8, 0), (10, 8));
    d.copy_rect(0, 0, 4, 4, 7, 0);
    // Destination shifted into the clip: only columns 8..10 receive.
    for y in 0..4u16 {
        assert_eq!(px(&d, 7, y), 0);
        assert_eq!(px(&d, 8, y), 7);
        assert_eq!(px(&d, 9, y), 7);
        assert_eq!(px(&d, 10, y), 0);
    }
}

#[test]
fn scroll_up_pulls_backing_rows_in() {
    let w = 8usize;
    let h = 4usize;
    let extra = 2usize;
    let mut buf = vec![0u8; w * (h + extra)];
    for (i, b) in buf.iter_mut().enumerate() {
        *b = (i / w) as u8 + 1;  // row number + 1
    }
    let mut d = Display::new(buf, w as u16, h as u16, SoftFb);
    d.scroll_up(2);
    for y in 0..h {
        for x in 0..w {
            assert_eq!(d.buf()[x + y * w], (y + 2) as u8 + 1);
        }
    }
    // The backing rows themselves are untouched.
    for y in h..h + extra {
        for x in 0..w {
            assert_eq!(d.buf()[x + y * w], y as u8 + 1);
        }
    }
}

#[test]
fn clear_scroll_area_leaves_screen() {
    let mut d = Display::new(vec![3u8; 8 * 6], 8, 4, SoftFb);
    d.clear_scroll_area(0);
    for i in 0..8 * 4 {
        assert_eq!(d.buf()[i], 3);
    }
    for i in 8 * 4..8 * 6 {
        assert_eq!(d.buf()[i], 0);
    }
}

#[test]
fn rect_outline_stays_inside_clip() {
    let mut d = fresh(16, 16);
    d.set_clip((0, 0), (8, 8));
    d.rect_outline(2, 2, 12, 12, 5);
    for y in 0..16u16 {
        for x in 0..16u16 {
            if x >= 8 || y >= 8 {
                assert_eq!(px(&d, x, y), 0, "outside clip at {},{}", x, y);
            }
        }
    }
    assert_eq!(px(&d, 2, 2), 5);
    assert_eq!(px(&d, 2, 7), 5);
}

#[test]
fn default_fonts_have_console_metrics() {
    let fonts = default_fonts();
    assert_eq!(fonts.len(), 4);
    assert_eq!(fonts[0].size(), (6, 8));
    assert_eq!(fonts[3].size(), (20, 40));
    // Blank glyphs select palette slot 0 everywhere.
    let mut d = fresh(16, 16);
    d.text(&fonts[0], 0, 0, b"A", &[9, 0, 0, 1]);
    for y in 0..8u16 {
        for x in 0..6u16 {
            assert_eq!(px(&d, x, y), 9);
        }
    }
}
