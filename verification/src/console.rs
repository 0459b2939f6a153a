//! The terminal emulator: a scrollable ANSI console on one framebuffer.
//!
//! Plain bytes move the cursor and draw glyphs; CSI sequences change
//! colors and cursor position and erase, insert or delete screen areas.
//! Bytes for the host (replies, scripted automation) are queued in an
//! outbox that the embedding drains to its byte sink.

use vstd::prelude::*;

use crate::codec::{all_digits, dec_value, parse_dec_u16};
use crate::font::{Font, FontModel};
use crate::framebuf::{col, in_rect, row, Display, FbImpl, FrameModel, Palette};
use crate::{CHARH, CHARW, HEIGHT, WIDTH};

verus! {

/// Number of character columns in the visible screen.
pub const COLS: u16 = 80;

/// Number of character rows in the visible screen.
pub const ROWS: u16 = 16;

/// Default foreground color slot value (white).
pub const DEFAULT_COLOR: u8 = 7;

/// Default background color slot value (black).
pub const DEFAULT_BKGRD: u8 = 0;

/// The color of LUT entry `i`: the 16 ANSI colors, then the 6x6x6 color
/// cube, then the 24-step grayscale ramp, as `(red, green, blue)`.
pub open spec fn spec_lut_color(i: int) -> (u8, u8, u8) {
    if i < 16 {
        let r: u8 = if i % 2 >= 1 {
            1
        } else {
            0
        };
        let g: u8 = if i % 4 >= 2 {
            1
        } else {
            0
        };
        let b: u8 = if i % 8 >= 4 {
            1
        } else {
            0
        };
        let s: u8 = if i >= 8 {
            1
        } else {
            0
        };
        (((0x55 * (2 * r + s)) as u8), ((0x55 * (2 * g + s)) as u8), ((0x55 * (2 * b + s)) as u8))
    } else if i < 232 {
        let j = i - 16;
        (((0x33 * (j / 36)) as u8), ((0x33 * ((j / 6) % 6)) as u8), ((0x33 * (j % 6)) as u8))
    } else {
        let g = (8 + 10 * (i - 232)) as u8;
        (g, g, g)
    }
}

/// The 256-entry hardware color lookup table: entries 0-15 are the ANSI
/// colors (intensity in bit 3, blue, green, red in bits 2-0, each
/// component `0x55 * ((bit << 1) | intensity)`), entries 16-231 the
/// 6x6x6 color cube with red outermost (each component `0x33 * level`),
/// and entries 232-255 the grayscale ramp `8 + 10 * step`.
pub fn get_lut_colors() -> (r: Vec<(u8, u8, u8)>)
    ensures
        r@.len() == 256,
        forall|i: int| 0 <= i < 256 ==> #[trigger] r@[i] == spec_lut_color(i),
{
    let mut out: Vec<(u8, u8, u8)> = Vec::new();
    let mut v: u16 = 0;
    while v < 16
        invariant
            v <= 16,
            out@.len() == v,
            forall|i: int| 0 <= i < v ==> #[trigger] out@[i] == spec_lut_color(i),
        decreases 16 - v,
    {
        let r: u8 = if v % 2 >= 1 { 1 } else { 0 };
        let g: u8 = if v % 4 >= 2 { 1 } else { 0 };
        let b: u8 = if v % 8 >= 4 { 1 } else { 0 };
        let s: u8 = if v >= 8 { 1 } else { 0 };
        out.push((0x55 * (2 * r + s), 0x55 * (2 * g + s), 0x55 * (2 * b + s)));
        v = v + 1;
    }
    let mut j: u16 = 0;
    while j < 216
        invariant
            j <= 216,
            out@.len() == 16 + j,
            forall|i: int| 0 <= i < 16 + j ==> #[trigger] out@[i] == spec_lut_color(i),
        decreases 216 - j,
    {
        out.push((0x33 * ((j / 36) as u8), 0x33 * (((j / 6) % 6) as u8), 0x33 * ((j % 6) as u8)));
        j = j + 1;
    }
    let mut g: u16 = 0;
    while g < 24
        invariant
            g <= 24,
            out@.len() == 232 + g,
            forall|i: int| 0 <= i < 232 + g ==> #[trigger] out@[i] == spec_lut_color(i),
        decreases 24 - g,
    {
        let c: u8 = (8 + 10 * g) as u8;
        out.push((c, c, c));
        g = g + 1;
    }
    out
}

/// Mathematical image of a [`Console`].
pub ghost struct ConsoleModel {
    /// The framebuffer under the console.
    pub fb: FrameModel,
    /// The console font.
    pub font: FontModel,
    /// Current 2-slot palette: slot 0 background, slot 3 foreground.
    pub color: Seq<u8>,
    /// Cursor column.
    pub cx: u16,
    /// Cursor row.
    pub cy: u16,
    /// Pending-wrap flag: the cursor sits on the last column and the
    /// next printable character wraps first.
    pub need_wrap: bool,
    /// Bytes queued for the host.
    pub sent: Seq<u8>,
}

impl ConsoleModel {
    /// Invariant: a full-screen framebuffer of the fixed size with one
    /// extra glyph row for scrolling, an unclipped drawing area, the
    /// console font, and a cursor inside the character grid.
    pub open spec fn wf(self) -> bool {
        &&& self.fb.wf()
        &&& self.fb.width == WIDTH
        &&& self.fb.height == HEIGHT
        &&& self.fb.clip1 == ((0u16, 0u16))
        &&& self.fb.clip2 == ((WIDTH, HEIGHT))
        &&& self.fb.pixels.len() == WIDTH * (HEIGHT + CHARH)
        &&& self.font.wf()
        &&& self.font.charw == CHARW
        &&& self.font.charh == CHARH
        &&& self.color.len() == 4
        &&& self.cx < COLS
        &&& self.cy < ROWS
    }

    /// Everything but pixels and cursor state: font, screen geometry and
    /// outbox are untouched by a drawing operation.
    pub open spec fn same_output(self, other: ConsoleModel) -> bool {
        &&& self.fb.same_frame(other.fb)
        &&& self.font == other.font
        &&& self.sent == other.sent
    }
}

/// Cursor state after one plain byte: carriage return, newline (with
/// scrolling at the last row), backspace, tab, ignored controls, and
/// printable characters with the pending-wrap rule.
pub open spec fn spec_char_cursor(cx: u16, cy: u16, wrap: bool, ch: u8) -> (u16, u16, bool) {
    if ch == 0x0d {
        (0u16, cy, false)
    } else if ch == 0x0a || ch == 0x0b || ch == 0x0c {
        (0u16, (if cy + 1 == ROWS { cy } else { (cy + 1) as u16 }), false)
    } else if ch == 0x08 {
        if cx > 0 && !wrap {
            ((cx - 1) as u16, cy, wrap)
        } else {
            (cx, cy, wrap)
        }
    } else if ch == 0x09 {
        let nx = ((cx & !0b111) + 8) as u16;
        if nx >= COLS {
            ((COLS - 1) as u16, cy, true)
        } else {
            (nx, cy, wrap)
        }
    } else if ch == 0x00 || ch == 0x07 || ch == 0x0e || ch == 0x0f {
        (cx, cy, wrap)
    } else {
        let cx0: u16 = if wrap {
            0
        } else {
            cx
        };
        let cy0: u16 = if wrap {
            (if cy + 1 == ROWS {
                cy
            } else {
                (cy + 1) as u16
            })
        } else {
            cy
        };
        if cx0 < COLS - 1 {
            ((cx0 + 1) as u16, cy0, false)
        } else {
            (cx0, cy0, true)
        }
    }
}

/// Argument `i` of a CSI parameter list, or `d` where the list is
/// exhausted.
pub open spec fn arg_or(args: Seq<u16>, i: int, d: u16) -> u16 {
    if 0 <= i < args.len() {
        args[i]
    } else {
        d
    }
}

/// The value of one CSI parameter piece: its decimal value, or 0 where
/// it is empty, holds a non-digit, or overflows.
pub open spec fn arg_of(piece: Seq<u8>) -> u16 {
    if piece.len() > 0 && all_digits(piece) && dec_value(piece) <= u16::MAX {
        dec_value(piece) as u16
    } else {
        0u16
    }
}

/// Index of the first parameter separator `;` in `s`, or `s.len()`.
pub open spec fn first_semi(s: Seq<u8>) -> int
    decreases s.len(),
{
    if s.len() == 0 {
        0
    } else if s[0] == 0x3b {
        0
    } else {
        1 + first_semi(s.drop_first())
    }
}

/// The first separator lies between 0 and the end of `s`.
pub proof fn lemma_first_semi_bounds(s: Seq<u8>)
    ensures
        0 <= first_semi(s) <= s.len(),
    decreases s.len(),
{
    if s.len() != 0 && s[0] != 0x3b {
        lemma_first_semi_bounds(s.drop_first());
    }
}

/// The CSI parameter list of a buffered sequence: the `;`-separated
/// pieces, each read as a decimal number, unparsable pieces as 0.  An
/// empty buffer yields one argument 0.
pub open spec fn spec_csi_args(s: Seq<u8>) -> Seq<u16>
    decreases s.len(),
    via spec_csi_args_decreases
{
    let i = first_semi(s);
    if i == s.len() {
        seq![arg_of(s)]
    } else {
        seq![arg_of(s.take(i))] + spec_csi_args(s.skip(i + 1))
    }
}

#[via_fn]
proof fn spec_csi_args_decreases(s: Seq<u8>) {
    lemma_first_semi_bounds(s);
}

/// The first separator is where the first `;` stands.
proof fn lemma_first_semi(s: Seq<u8>, i: int)
    requires
        0 <= i <= s.len(),
        forall|j: int| 0 <= j < i ==> s[j] != 0x3b,
        i < s.len() ==> s[i] == 0x3b,
    ensures
        first_semi(s) == i,
    decreases i,
{
    if s.len() == 0 {
    } else if s[0] == 0x3b {
        assert(i == 0);
    } else {
        lemma_first_semi(s.drop_first(), i - 1);
    }
}

/// Parse the buffered bytes of a CSI sequence into its parameter list.
pub fn parse_csi_args(s: &[u8]) -> (r: Vec<u16>)
    ensures
        r@ == spec_csi_args(s@),
        r@.len() >= 1,
{
    let mut r: Vec<u16> = Vec::new();
    let mut start: usize = 0;
    let n: usize = s.len();
    proof {
        assert(s@.skip(0) =~= s@);
        assert(r@ + spec_csi_args(s@) =~= spec_csi_args(s@));
        lemma_first_semi_bounds(s@);
    }
    loop
        invariant
            0 <= start <= n,
            n == s@.len(),
            spec_csi_args(s@) == r@ + spec_csi_args(s@.skip(start as int)),
            spec_csi_args(s@.skip(start as int)).len() >= 1,
        decreases n - start,
    {
        let mut i: usize = start;
        while i < n && s[i] != 0x3b
            invariant
                start <= i <= n,
                n == s@.len(),
                forall|j: int| start <= j < i ==> s@[j] != 0x3b,
            decreases n - i,
        {
            i = i + 1;
        }
        let ghost rest = s@.skip(start as int);
        proof {
            assert forall|j: int| 0 <= j < i - start implies rest[j] != 0x3b by {
                assert(rest[j] == s@[start + j]);
            }
            if (i as int) - (start as int) < rest.len() {
                assert(rest[i - start] == s@[i as int]);
            }
            lemma_first_semi(rest, i - start);
            assert(rest.take(i - start) =~= s@.subrange(start as int, i as int));
        }
        let piece = vstd::slice::slice_subrange(s, start, i);
        let arg = match parse_dec_u16(piece) {
            Some(v) => v,
            None => 0,
        };
        proof {
            assert(arg == arg_of(rest.take(i - start)));
        }
        r.push(arg);
        if i == n {
            proof {
                assert(first_semi(rest) == rest.len());
                assert(rest.take(i - start) =~= rest);
                assert(spec_csi_args(rest) == seq![arg_of(rest)]);
                assert(r@ + spec_csi_args(rest).skip(1) =~= r@);
                assert(spec_csi_args(s@) =~= r@);
            }
            return r;
        }
        proof {
            assert(spec_csi_args(rest) == seq![arg_of(rest.take(i - start))] + spec_csi_args(
                rest.skip(i - start + 1),
            ));
            assert(rest.skip(i - start + 1) =~= s@.skip(i + 1));
            assert(r@ + spec_csi_args(s@.skip(i + 1 as int)) =~= spec_csi_args(s@));
        }
        start = i + 1;
    }
}


/// Cursor state after printing a run of bytes.
pub open spec fn spec_str_cursor(cx: u16, cy: u16, wrap: bool, s: Seq<u8>) -> (u16, u16, bool)
    decreases s.len(),
{
    if s.len() == 0 {
        (cx, cy, wrap)
    } else {
        let t = spec_char_cursor(cx, cy, wrap, s[0]);
        spec_str_cursor(t.0, t.1, t.2, s.drop_first())
    }
}

/// The ASCII hex digit of a value below 16.
pub open spec fn spec_hex_digit(v: u8) -> u8 {
    if v < 10 {
        (0x30 + v) as u8
    } else {
        (0x41 + (v - 10)) as u8
    }
}

/// The two hex digits of a byte.
pub open spec fn spec_hex_byte(b: u8) -> Seq<u8> {
    seq![spec_hex_digit(b / 16), spec_hex_digit((b & 0xf) as u8)]
}

/// The terminal emulator over one framebuffer.
pub struct Console<Fb> {
    fb: Display<Fb>,
    font: Font,
    color: Palette,
    cx: u16,
    cy: u16,
    need_wrap: bool,
    tx: Vec<u8>,
}

impl<Fb> View for Console<Fb> {
    type V = ConsoleModel;

    closed spec fn view(&self) -> ConsoleModel {
        ConsoleModel {
            fb: self.fb@,
            font: self.font@,
            color: self.color@,
            cx: self.cx,
            cy: self.cy,
            need_wrap: self.need_wrap,
            sent: self.tx@,
        }
    }
}

impl<Fb: FbImpl> Console<Fb> {
    /// Build a console on `fb`, which must be a full-screen framebuffer
    /// with one extra glyph row, using `font` for its character cells.
    /// The screen and the scroll area come up black, the cursor at the
    /// top left, the colors at the defaults.
    pub fn new(fb: Display<Fb>, font: Font) -> (r: Console<Fb>)
        requires
            fb@.wf(),
            fb@.width == WIDTH,
            fb@.height == HEIGHT,
            fb@.clip1 == ((0u16, 0u16)),
            fb@.clip2 == ((WIDTH, HEIGHT)),
            fb@.pixels.len() == WIDTH * (HEIGHT + CHARH),
            font@.wf(),
            font@.charw == CHARW,
            font@.charh == CHARH,
        ensures
            r@.wf(),
            r@.cx == 0 && r@.cy == 0 && r@.need_wrap == false,
            r@.color =~= seq![DEFAULT_BKGRD, 0u8, 0u8, DEFAULT_COLOR],
            r@.sent =~= Seq::<u8>::empty(),
            r@.font == font@,
            forall|i: int| 0 <= i < r@.fb.pixels.len() ==> #[trigger] r@.fb.pixels[i] == 0,
    {
        let mut fb = fb;
        fb.clear(0);
        fb.clear_scroll_area(0);
        proof {
            assert forall|i: int| 0 <= i < fb@.pixels.len() implies #[trigger] fb@.pixels[i]
                == 0 by {
                if i < WIDTH * HEIGHT {
                    vstd::arithmetic::div_mod::lemma_fundamental_div_mod(i, WIDTH as int);
                    assert(row(i, WIDTH as int) < HEIGHT) by (nonlinear_arith)
                        requires
                            i == (WIDTH as int) * row(i, WIDTH as int) + col(i, WIDTH as int),
                            0 <= col(i, WIDTH as int) < WIDTH,
                            0 <= i < (HEIGHT as int) * (WIDTH as int),
                    ;
                    assert(fb@.in_clip_at(i));
                }
            }
        }
        Console {
            fb,
            font,
            color: [DEFAULT_BKGRD, 0, 0, DEFAULT_COLOR],
            cx: 0,
            cy: 0,
            need_wrap: false,
            tx: Vec::new(),
        }
    }

    /// Queue bytes for the host.
    pub fn write_to_host(&mut self, bytes: &[u8])
        ensures
            final(self)@ == (ConsoleModel { sent: old(self)@.sent + bytes@, ..old(self)@ }),
    {
        let mut i: usize = 0;
        while i < bytes.len()
            invariant
                0 <= i <= bytes@.len(),
                self@ == (ConsoleModel {
                    sent: old(self)@.sent + bytes@.take(i as int),
                    ..old(self)@
                }),
            decreases bytes@.len() - i,
        {
            self.tx.push(bytes[i]);
            proof {
                assert(old(self)@.sent + bytes@.take(i + 1) =~= (old(self)@.sent + bytes@.take(
                    i as int,
                )).push(bytes@[i as int]));
            }
            i = i + 1;
        }
        proof {
            assert(bytes@.take(bytes@.len() as int) =~= bytes@);
            assert(self@.sent =~= old(self)@.sent + bytes@);
        }
    }

    /// Hand over the bytes queued for the host, leaving the outbox empty.
    pub fn take_output(&mut self) -> (r: Vec<u8>)
        ensures
            r@ == old(self)@.sent,
            final(self)@ == (ConsoleModel { sent: Seq::<u8>::empty(), ..old(self)@ }),
    {
        let mut out: Vec<u8> = Vec::new();
        core::mem::swap(&mut self.tx, &mut out);
        proof {
            assert(self@ =~= (ConsoleModel { sent: Seq::<u8>::empty(), ..old(self)@ }));
        }
        out
    }

    /// The raw pixel buffer of the console framebuffer.
    pub fn buf(&self) -> (r: &[u8])
        ensures
            r@ == self@.fb.pixels,
    {
        self.fb.buf()
    }

    /// The cursor position as (column, row).
    pub fn cursor(&self) -> (r: (u16, u16))
        ensures
            r == (self@.cx, self@.cy),
    {
        (self.cx, self.cy)
    }

    /// The current 2-slot palette.
    pub fn color(&self) -> (r: Palette)
        ensures
            r@ == self@.color,
    {
        self.color
    }

    /// Make the console framebuffer the visible one.
    pub fn activate(&self)
    {
        self.fb.activate();
    }

    /// Scroll up one glyph row, or advance the cursor row: the newline
    /// step shared by the linefeed characters and the pending wrap.
    fn line_feed(&mut self)
        requires
            old(self)@.wf(),
        ensures
            final(self)@.wf(),
            old(self)@.same_output(final(self)@),
            final(self)@.color == old(self)@.color,
            final(self)@.cx == 0,
            final(self)@.need_wrap == false,
            final(self)@.cy == (if old(self)@.cy + 1 == ROWS {
                old(self)@.cy
            } else {
                (old(self)@.cy + 1) as u16
            }),
            old(self)@.cy + 1 < ROWS ==> final(self)@.fb.pixels == old(self)@.fb.pixels,
            old(self)@.cy + 1 == ROWS ==> (forall|i: int|
                0 <= i < (HEIGHT as int) * (WIDTH as int) ==> #[trigger] final(self)@.fb.pixels[i]
                    == old(self)@.fb.pixels[i + (CHARH as int) * (WIDTH as int)]) && (forall|i: int|
                (HEIGHT as int) * (WIDTH as int) <= i < old(self)@.fb.pixels.len()
                    ==> #[trigger] final(self)@.fb.pixels[i] == old(self)@.fb.pixels[i]),
    {
        self.cx = 0;
        self.cy = self.cy + 1;
        if self.cy == ROWS {
            proof {
                assert((HEIGHT as int + CHARH as int) * (WIDTH as int) == (WIDTH as int) * (
                HEIGHT as int + CHARH as int)) by (nonlinear_arith);
            }
            self.fb.scroll_up(CHARH);
            self.cy = self.cy - 1;
        }
        self.need_wrap = false;
    }

    /// Process one plain byte: draw it, or act on the control character.
    /// The cursor moves as [`spec_char_cursor`] says; a printable byte
    /// without pending wrap renders its glyph into the cursor cell and
    /// touches nothing else; control bytes that do not scroll leave the
    /// pixels alone.
    #[verifier::rlimit(50)]
    pub fn process_char(&mut self, ch: u8)
        requires
            old(self)@.wf(),
        ensures
            char_processed(old(self)@, final(self)@, ch),
    {
        match ch {
            0x0d => {
                self.cx = 0;
                self.need_wrap = false;
            },
            0x0a | 0x0b | 0x0c => {
                self.line_feed();
            },
            0x08 => {
                if self.cx > 0 && !self.need_wrap {
                    self.cx = self.cx - 1;
                }
            },
            0x09 => {
                proof {
                    let c = self.cx;
                    assert((c & !0b111) <= c) by (bit_vector);
                }
                self.cx = (self.cx & !0b111) + 8;
                if self.cx >= COLS {
                    self.cx = COLS - 1;
                    self.need_wrap = true;
                }
            },
            0x00 | 0x07 | 0x0e | 0x0f => (),
            _ => {
                if self.need_wrap {
                    self.line_feed();
                }
                let ghost mid = self@;
                let one: [u8; 1] = [ch];
                let px = self.cx * CHARW;
                let py = self.cy * CHARH;
                let font = &self.font;
                self.fb.text(font, px, py, one.as_slice(), &self.color);
                let ghost drawn = self@;
                proof {
                    if !old(self)@.need_wrap {
                        assert forall|gx: int, gy: int|
                            0 <= gx < CHARW && 0 <= gy < CHARH implies #[trigger] drawn.fb.pixel(
                            old(self)@.cx * CHARW + gx,
                            old(self)@.cy * CHARH + gy,
                        ) == old(self)@.color[crate::framebuf::glyph2(
                            old(self)@.font.data.skip(old(self)@.font.chars[ch as int] as int),
                            gy * CHARW + gx,
                        ) as int] by {
                            assert(px == old(self)@.cx * CHARW && py == old(self)@.cy * CHARH);
                            assert(mid.color == old(self)@.color && mid.font == old(self)@.font);
                            assert(crate::framebuf::glyph_drawn(
                                px as int,
                                CHARW as int,
                                WIDTH as int,
                                0,
                            ));
                            assert(0 * (CHARW as int) == 0) by (nonlinear_arith);
                            assert(mid.fb.in_clip(px + 0 * (CHARW as int) + gx, py + gy));
                            assert(self@.fb.pixel(px + 0 * (CHARW as int) + gx, py + gy)
                                == mid.color[crate::framebuf::glyph2(
                                mid.font.data.skip(mid.font.chars[one@[0] as int] as int),
                                gy * (CHARW as int) + gx,
                            ) as int]);
                        }
                    }
                }
                proof {
                    assert(1 * (CHARW as int) == CHARW) by (nonlinear_arith);
                }
                if self.cx < COLS - 1 {
                    self.cx = self.cx + 1;
                } else {
                    self.need_wrap = true;
                }
                proof {
                    assert(self@.fb == drawn.fb);
                    if !old(self)@.need_wrap {
                        assert forall|gx: int, gy: int|
                            0 <= gx < CHARW && 0 <= gy < CHARH implies #[trigger] self@.fb.pixel(
                            old(self)@.cx * CHARW + gx,
                            old(self)@.cy * CHARH + gy,
                        ) == old(self)@.color[crate::framebuf::glyph2(
                            old(self)@.font.data.skip(old(self)@.font.chars[ch as int] as int),
                            gy * CHARW + gx,
                        ) as int] by {
                            assert(drawn.fb.pixel(
                                old(self)@.cx * CHARW + gx,
                                old(self)@.cy * CHARH + gy,
                            ) == old(self)@.color[crate::framebuf::glyph2(
                                old(self)@.font.data.skip(
                                    old(self)@.font.chars[ch as int] as int,
                                ),
                                gy * CHARW + gx,
                            ) as int]);
                        }
                    }
                }
            },
        }
    }

    /// Print a run of bytes.
    pub fn process_str(&mut self, chstr: &[u8])
        requires
            old(self)@.wf(),
        ensures
            final(self)@.wf(),
            old(self)@.same_output(final(self)@),
            final(self)@.color == old(self)@.color,
            (final(self)@.cx, final(self)@.cy, final(self)@.need_wrap) == spec_str_cursor(
                old(self)@.cx,
                old(self)@.cy,
                old(self)@.need_wrap,
                chstr@,
            ),
    {
        let mut i: usize = 0;
        proof {
            assert(chstr@.skip(0) =~= chstr@);
        }
        while i < chstr.len()
            invariant
                0 <= i <= chstr@.len(),
                self@.wf(),
                old(self)@.same_output(self@),
                self@.color == old(self)@.color,
                spec_str_cursor(
                    old(self)@.cx,
                    old(self)@.cy,
                    old(self)@.need_wrap,
                    chstr@,
                ) == spec_str_cursor(self@.cx, self@.cy, self@.need_wrap, chstr@.skip(i as int)),
            decreases chstr@.len() - i,
        {
            let ghost before = self@;
            self.process_char(chstr[i]);
            proof {
                assert(chstr@.skip(i as int).drop_first() =~= chstr@.skip(i + 1));
                assert(chstr@.skip(i as int)[0] == chstr@[i as int]);
            }
            i = i + 1;
        }
        proof {
            assert(chstr@.skip(chstr@.len() as int) =~= Seq::<u8>::empty());
        }
    }

    /// Print one byte as two hex digits.
    pub fn dump_byte(&mut self, byte: u8)
        requires
            old(self)@.wf(),
        ensures
            final(self)@.wf(),
            old(self)@.same_output(final(self)@),
            final(self)@.color == old(self)@.color,
            (final(self)@.cx, final(self)@.cy, final(self)@.need_wrap) == spec_str_cursor(
                old(self)@.cx,
                old(self)@.cy,
                old(self)@.need_wrap,
                spec_hex_byte(byte),
            ),
    {
        let hi = byte / 16;
        let lo = byte & 0xf;
        let hi_d = if hi < 10 { 0x30 + hi } else { 0x41 + (hi - 10) };
        proof {
            assert(byte & 0xf < 16) by (bit_vector);
        }
        let lo_d = if lo < 10 { 0x30 + lo } else { 0x41 + (lo - 10) };
        let ghost start = self@;
        self.process_char(hi_d);
        self.process_char(lo_d);
        proof {
            let chars = spec_hex_byte(byte);
            assert(chars[0] == hi_d && chars[1] == lo_d);
            let t1 = spec_char_cursor(start.cx, start.cy, start.need_wrap, hi_d);
            assert(spec_str_cursor(start.cx, start.cy, start.need_wrap, chars) == spec_str_cursor(
                t1.0,
                t1.1,
                t1.2,
                chars.drop_first(),
            ));
            assert(chars.drop_first() =~= seq![lo_d]);
            let t2 = spec_char_cursor(t1.0, t1.1, t1.2, lo_d);
            assert(spec_str_cursor(t1.0, t1.1, t1.2, seq![lo_d]) == spec_str_cursor(
                t2.0,
                t2.1,
                t2.2,
                seq![lo_d].drop_first(),
            ));
            assert(seq![lo_d].drop_first() =~= Seq::<u8>::empty());
            assert(spec_str_cursor(t2.0, t2.1, t2.2, Seq::<u8>::empty()) == (t2.0, t2.1, t2.2));
        }
    }

    /// Print a 32-bit value as eight hex digits, most significant first.
    pub fn dump_u32(&mut self, val: u32)
        requires
            old(self)@.wf(),
        ensures
            final(self)@.wf(),
            old(self)@.same_output(final(self)@),
            final(self)@.color == old(self)@.color,
            (final(self)@.cx, final(self)@.cy, final(self)@.need_wrap) == spec_str_cursor(
                old(self)@.cx,
                old(self)@.cy,
                old(self)@.need_wrap,
                spec_hex_byte((val / 0x1000000) as u8) + spec_hex_byte((val / 0x10000 % 256) as u8)
                    + spec_hex_byte((val / 0x100 % 256) as u8) + spec_hex_byte((val % 256) as u8),
            ),
    {
        let b3: u8 = (val >> 24) as u8;
        let b2: u8 = ((val >> 16) & 0xff) as u8;
        let b1: u8 = ((val >> 8) & 0xff) as u8;
        let b0: u8 = (val & 0xff) as u8;
        proof {
            assert((val >> 24) as u8 == (val / 0x1000000) as u8 && ((val >> 16) & 0xff) as u8 == (
            val / 0x10000 % 256) as u8 && ((val >> 8) & 0xff) as u8 == (val / 0x100 % 256) as u8
                && (val & 0xff) as u8 == (val % 256) as u8 && (val >> 24) < 256) by (bit_vector);
        }
        let ghost s0 = self@;
        self.dump_byte(b3);
        self.dump_byte(b2);
        self.dump_byte(b1);
        self.dump_byte(b0);
        proof {
            let a = spec_hex_byte(b3);
            let b = spec_hex_byte(b2);
            let c = spec_hex_byte(b1);
            let d = spec_hex_byte(b0);
            lemma_str_cursor_concat(s0.cx, s0.cy, s0.need_wrap, a, b);
            lemma_str_cursor_concat(s0.cx, s0.cy, s0.need_wrap, a + b, c);
            lemma_str_cursor_concat(s0.cx, s0.cy, s0.need_wrap, a + b + c, d);
        }
    }
}

/// A byte the console echoes as a glyph rather than acting on it.
pub open spec fn is_printable(ch: u8) -> bool {
    !(ch == 0x0d || ch == 0x0a || ch == 0x0b || ch == 0x0c || ch == 0x08 || ch == 0x09 || ch
        == 0x00 || ch == 0x07 || ch == 0x0e || ch == 0x0f)
}

/// Printing a concatenation is printing the parts in turn.
pub proof fn lemma_str_cursor_concat(cx: u16, cy: u16, wrap: bool, a: Seq<u8>, b: Seq<u8>)
    ensures
        spec_str_cursor(cx, cy, wrap, a + b) == {
            let t = spec_str_cursor(cx, cy, wrap, a);
            spec_str_cursor(t.0, t.1, t.2, b)
        },
    decreases a.len(),
{
    if a.len() == 0 {
        assert(a + b =~= b);
    } else {
        let t = spec_char_cursor(cx, cy, wrap, a[0]);
        assert((a + b).drop_first() =~= a.drop_first() + b);
        lemma_str_cursor_concat(t.0, t.1, t.2, a.drop_first(), b);
    }
}


/// The smaller of two values.
pub open spec fn umin(a: u16, b: u16) -> u16 {
    if a < b {
        a
    } else {
        b
    }
}

/// The larger of two values.
pub open spec fn umax(a: u16, b: u16) -> u16 {
    if a > b {
        a
    } else {
        b
    }
}

/// The 2-slot palette after an SGR (select graphic rendition) parameter
/// list: 0 resets, 1 sets the bright bit, 7 swaps the slots, 22 clears
/// the bright bit, 30-37 and 40-47 pick ANSI colors, 38 and 48 take an
/// extended index two parameters on (skipping the selector).
pub open spec fn spec_sgr(color: Seq<u8>, args: Seq<u16>) -> Seq<u8>
    decreases args.len(),
{
    if args.len() == 0 {
        color
    } else {
        let a = args[0];
        let c2 = if a == 0 {
            color.update(3, DEFAULT_COLOR).update(0, DEFAULT_BKGRD)
        } else if a == 1 {
            color.update(3, color[3] | 0b1000)
        } else if a == 7 {
            color.update(0, color[3]).update(3, color[0])
        } else if a == 22 {
            color.update(3, color[3] & !0b1000)
        } else if 30 <= a <= 37 {
            color.update(3, (a - 30) as u8)
        } else if 40 <= a <= 47 {
            color.update(0, (a - 40) as u8)
        } else if a == 38 {
            color.update(3, (arg_or(args, 2, 0) & 0xff) as u8)
        } else if a == 48 {
            color.update(0, (arg_or(args, 2, 0) & 0xff) as u8)
        } else {
            color
        };
        let rest = if a == 38 || a == 48 {
            if args.len() >= 3 {
                args.skip(3)
            } else {
                Seq::<u16>::empty()
            }
        } else {
            args.skip(1)
        };
        spec_sgr(c2, rest)
    }
}

/// Cursor state after a CSI sequence: absolute and relative motion,
/// clamped to the screen; missing counts default to 1; everything else
/// leaves the cursor alone.
pub open spec fn spec_csi_cursor(cx: u16, cy: u16, wrap: bool, end: u8, args: Seq<u16>) -> (
    u16,
    u16,
    bool,
) {
    if end == 0x48 || end == 0x66 {
        let y = umin(arg_or(args, 0, 1), ROWS);
        let x = umin(arg_or(args, 1, 1), COLS);
        ((if x > 0 {
            (x - 1) as u16
        } else {
            0u16
        }), (if y > 0 {
            (y - 1) as u16
        } else {
            0u16
        }), false)
    } else if end == 0x47 || end == 0x60 {
        let x = umin(umax(arg_or(args, 0, 1), 1), COLS);
        (((x - 1) as u16), cy, false)
    } else if end == 0x64 {
        let y = umin(umax(arg_or(args, 0, 1), 1), ROWS);
        (cx, ((y - 1) as u16), false)
    } else if end == 0x41 {
        let n = umax(arg_or(args, 0, 1), 1);
        (cx, ((cy - umin(n, cy)) as u16), false)
    } else if end == 0x42 || end == 0x65 {
        let n = umax(arg_or(args, 0, 1), 1);
        (cx, ((cy + umin(n, (ROWS - cy - 1) as u16)) as u16), false)
    } else if end == 0x43 || end == 0x61 {
        let n = umax(arg_or(args, 0, 1), 1);
        (((cx + umin(n, (COLS - cx - 1) as u16)) as u16), cy, false)
    } else if end == 0x44 {
        let n = umax(arg_or(args, 0, 1), 1);
        (((cx - umin(n, cx)) as u16), cy, false)
    } else {
        (cx, cy, wrap)
    }
}

/// Whether flat index `i` lies in the screen area a CSI erase-screen
/// sequence blanks: from the cursor cell on (0), up to and including the
/// cursor cell (1), or the whole screen.
pub open spec fn spec_erased_j(arg: u16, cx: u16, cy: u16, i: int) -> bool {
    let px = (cx * CHARW) as int;
    let py = (cy * CHARH) as int;
    if arg == 0 {
        in_rect(i, WIDTH as int, px, py, WIDTH as int, py + CHARH) || in_rect(
            i,
            WIDTH as int,
            0,
            py + CHARH,
            WIDTH as int,
            HEIGHT as int,
        )
    } else if arg == 1 {
        in_rect(i, WIDTH as int, 0, py, px + CHARW, py + CHARH) || in_rect(
            i,
            WIDTH as int,
            0,
            0,
            WIDTH as int,
            py,
        )
    } else {
        in_rect(i, WIDTH as int, 0, 0, WIDTH as int, HEIGHT as int)
    }
}

/// Whether flat index `i` lies in the line area a CSI erase-line
/// sequence blanks on cursor row `cy`.
pub open spec fn spec_erased_k(arg: u16, cx: u16, cy: u16, i: int) -> bool {
    let px = (cx * CHARW) as int;
    let py = (cy * CHARH) as int;
    if arg == 0 {
        in_rect(i, WIDTH as int, px, py, WIDTH as int, py + CHARH)
    } else if arg == 1 {
        in_rect(i, WIDTH as int, 0, py, px + CHARW, py + CHARH)
    } else {
        in_rect(i, WIDTH as int, 0, py, WIDTH as int, py + CHARH)
    }
}

/// The number of lines a CSI insert- or delete-lines sequence acts on:
/// at least one, at most the rows from the cursor down.
pub open spec fn spec_line_count(args: Seq<u16>, cy: u16) -> u16 {
    umin(umax(arg_or(args, 0, 1), 1), (ROWS - cy) as u16)
}

/// The number of columns a CSI delete- or erase-chars sequence acts on.
pub open spec fn spec_char_count(args: Seq<u16>, cx: u16) -> u16 {
    umin(umax(arg_or(args, 0, 1), 1), (COLS - cx) as u16)
}

/// The pixel at flat index `i` after a CSI insert-lines sequence on
/// cursor row `cy`: `n` blank glyph rows appear at the cursor, the rows
/// below shift down, the rest (the rows above and the scroll area) stay.
pub open spec fn spec_inserted_l(n: u16, cy: u16, pre: Seq<u8>, i: int) -> u8 {
    let py = (cy * CHARH) as int;
    let y = row(i, WIDTH as int);
    if py <= y < py + n * CHARH {
        0u8
    } else if py + n * CHARH <= y < HEIGHT as int {
        pre[i - n * CHARH * WIDTH]
    } else {
        pre[i]
    }
}

/// The pixel at flat index `i` after a CSI delete-lines sequence on
/// cursor row `cy`: the rows below the cursor shift up one glyph row,
/// and the bottom `n` glyph rows are blanked.
pub open spec fn spec_deleted_m(n: u16, cy: u16, pre: Seq<u8>, i: int) -> u8 {
    let py = (cy * CHARH) as int;
    let y = row(i, WIDTH as int);
    if HEIGHT - n * CHARH <= y < HEIGHT as int {
        0u8
    } else if cy < ROWS - 1 && py <= y < HEIGHT - CHARH {
        pre[i + CHARH * WIDTH]
    } else {
        pre[i]
    }
}

/// The pixel at flat index `i` after a CSI delete-chars sequence at
/// cursor `(cx, cy)`: on the cursor's glyph row, the columns right of
/// the cursor shift left by `n` cells and the freed cells are blanked.
pub open spec fn spec_deleted_p(n: u16, cx: u16, cy: u16, pre: Seq<u8>, i: int) -> u8 {
    let px = (cx * CHARW) as int;
    let py = (cy * CHARH) as int;
    let y = row(i, WIDTH as int);
    let c = col(i, WIDTH as int);
    if py <= y < py + CHARH {
        if WIDTH - n * CHARW <= c < WIDTH as int {
            0u8
        } else if px <= c < WIDTH - n * CHARW {
            pre[i + n * CHARW]
        } else {
            pre[i]
        }
    } else {
        pre[i]
    }
}

impl<Fb: FbImpl> Console<Fb> {
    /// Process one ANSI CSI sequence, given its final byte and the
    /// buffered parameter bytes.  The cursor moves as
    /// [`spec_csi_cursor`] says and SGR recolors as [`spec_sgr`] says;
    /// erase sequences blank exactly their documented pixel areas, and
    /// sequences without a screen effect leave every pixel alone.
    pub fn process_csi(&mut self, end: u8, params: &[u8])
        requires
            old(self)@.wf(),
        ensures
            csi_processed(old(self)@, final(self)@, end, params@),
    {
        let ghost pre = self@;
        let args = parse_csi_args(params);
        let a0: u16 = if args.len() > 0 {
            args[0]
        } else {
            0
        };
        match end {
            0x6d => {
                self.process_sgr(&args);
            },
            0x48 | 0x66 => {
                let y = if a0 < ROWS {
                    a0
                } else {
                    ROWS
                };
                let a1: u16 = if args.len() > 1 {
                    args[1]
                } else {
                    1
                };
                let x = if a1 < COLS {
                    a1
                } else {
                    COLS
                };
                self.cx = if x > 0 {
                    x - 1
                } else {
                    0
                };
                self.cy = if y > 0 {
                    y - 1
                } else {
                    0
                };
                self.need_wrap = false;
                proof {
                    assert(arg_or(spec_csi_args(params@), 0, 1) == a0);
                }
            },
            0x47 | 0x60 => {
                let n = if a0 > 1 {
                    a0
                } else {
                    1
                };
                let x = if n < COLS {
                    n
                } else {
                    COLS
                };
                self.cx = x - 1;
                self.need_wrap = false;
            },
            0x64 => {
                let n = if a0 > 1 {
                    a0
                } else {
                    1
                };
                let y = if n < ROWS {
                    n
                } else {
                    ROWS
                };
                self.cy = y - 1;
                self.need_wrap = false;
            },
            0x41 => {
                let n = if a0 > 1 {
                    a0
                } else {
                    1
                };
                let d = if n < self.cy {
                    n
                } else {
                    self.cy
                };
                self.cy = self.cy - d;
                self.need_wrap = false;
            },
            0x42 | 0x65 => {
                let n = if a0 > 1 {
                    a0
                } else {
                    1
                };
                let lim = ROWS - self.cy - 1;
                let d = if n < lim {
                    n
                } else {
                    lim
                };
                self.cy = self.cy + d;
                self.need_wrap = false;
            },
            0x43 | 0x61 => {
                let n = if a0 > 1 {
                    a0
                } else {
                    1
                };
                let lim = COLS - self.cx - 1;
                let d = if n < lim {
                    n
                } else {
                    lim
                };
                self.cx = self.cx + d;
                self.need_wrap = false;
            },
            0x44 => {
                let n = if a0 > 1 {
                    a0
                } else {
                    1
                };
                let d = if n < self.cx {
                    n
                } else {
                    self.cx
                };
                self.cx = self.cx - d;
                self.need_wrap = false;
            },
            0x4a => {
                let px = self.cx * CHARW;
                let py = self.cy * CHARH;
                if a0 == 0 {
                    self.fb.rect(px, py, WIDTH, py + CHARH, 0);
                    self.fb.rect(0, py + CHARH, WIDTH, HEIGHT, 0);
                } else if a0 == 1 {
                    self.fb.rect(0, py, px + CHARW, py + CHARH, 0);
                    self.fb.rect(0, 0, WIDTH, py, 0);
                } else {
                    self.fb.clear(0);
                }
                proof {
                    lemma_full_clip_regions(pre.fb);
                }
            },
            0x4b => {
                let px = self.cx * CHARW;
                let py = self.cy * CHARH;
                if a0 == 0 {
                    self.fb.rect(px, py, WIDTH, py + CHARH, 0);
                } else if a0 == 1 {
                    self.fb.rect(0, py, px + CHARW, py + CHARH, 0);
                } else {
                    self.fb.rect(0, py, WIDTH, py + CHARH, 0);
                }
            },
            0x58 => {
                let n0 = if a0 > 1 {
                    a0
                } else {
                    1
                };
                let lim = COLS - self.cx;
                let n = if n0 < lim {
                    n0
                } else {
                    lim
                };
                let px = self.cx * CHARW;
                let py = self.cy * CHARH;
                self.fb.rect(px, py, px + n * CHARW, py + CHARH, 0);
            },
            0x4c => {
                let n0 = if a0 > 1 {
                    a0
                } else {
                    1
                };
                let lim = ROWS - self.cy;
                let n = if n0 < lim {
                    n0
                } else {
                    lim
                };
                let py = self.cy * CHARH;
                if self.cy < ROWS - n {
                    let mut i: u16 = ROWS - n - self.cy;
                    while i > 0
                        invariant
                            self@.wf(),
                            pre.same_output(self@),
                            self@.color == pre.color,
                            self@.font == pre.font,
                            self@.cx == pre.cx && self@.cy == pre.cy && self@.need_wrap
                                == pre.need_wrap,
                            1 <= n <= ROWS - pre.cy,
                            pre.cy < ROWS - n,
                            py == pre.cy * CHARH,
                            i <= ROWS - n - pre.cy,
                            forall|k: int|
                                0 <= k < pre.fb.pixels.len() && py + (i + n) * CHARH <= row(
                                    k,
                                    WIDTH as int,
                                ) < HEIGHT as int ==> #[trigger] self@.fb.pixels[k]
                                    == pre.fb.pixels[k - n * CHARH * WIDTH],
                            forall|k: int|
                                0 <= k < pre.fb.pixels.len() && !(py + (i + n) * CHARH <= row(
                                    k,
                                    WIDTH as int,
                                ) < HEIGHT as int) ==> #[trigger] self@.fb.pixels[k]
                                    == pre.fb.pixels[k],
                        decreases i,
                    {
                        i = i - 1;
                        let ghost mid = self@;
                        self.fb.copy_rect(
                            0,
                            py + i * CHARH,
                            WIDTH,
                            py + (i + 1) * CHARH,
                            0,
                            py + (i + n) * CHARH,
                        );
                        proof {
                            let dy = py + (i + n) * CHARH;
                            assert forall|k: int|
                                0 <= k < pre.fb.pixels.len() && dy <= row(k, WIDTH as int)
                                    < HEIGHT as int implies #[trigger] self@.fb.pixels[k]
                                == pre.fb.pixels[k - n * CHARH * WIDTH] by {
                                vstd::arithmetic::div_mod::lemma_fundamental_div_mod(
                                    k,
                                    WIDTH as int,
                                );
                                let kk = k - n * CHARH * WIDTH;
                                vstd::arithmetic::div_mod::lemma_fundamental_div_mod_converse(
                                    kk,
                                    WIDTH as int,
                                    row(k, WIDTH as int) - n * CHARH,
                                    col(k, WIDTH as int),
                                );
                                if row(k, WIDTH as int) < dy + CHARH {
                                    assert(0 <= col(k, WIDTH as int) < WIDTH as int);
                                    assert(in_rect(
                                        k,
                                        mid.fb.width as int,
                                        0,
                                        dy as int,
                                        0 + (WIDTH - 0),
                                        dy + CHARH,
                                    ));
                                    assert(kk == k + ((py + i * CHARH) - dy) * mid.fb.width + (0
                                        - 0));
                                    assert(self@.fb.pixels[k] == mid.fb.pixels[kk]);
                                    assert(mid.fb.pixels[kk] == pre.fb.pixels[kk]);
                                } else {
                                    assert(self@.fb.pixels[k] == mid.fb.pixels[k]);
                                }
                            };
                            assert forall|k: int|
                                0 <= k < pre.fb.pixels.len() && !(dy <= row(k, WIDTH as int)
                                    < HEIGHT as int) implies #[trigger] self@.fb.pixels[k]
                                == pre.fb.pixels[k] by {
                                assert(self@.fb.pixels[k] == mid.fb.pixels[k]);
                            };
                        }
                    }
                }
                let ghost shifted = self@;
                self.fb.rect(0, py, WIDTH, py + n * CHARH, 0);
                proof {
                    assert forall|k: int|
                        0 <= k < pre.fb.pixels.len() implies #[trigger] self@.fb.pixels[k]
                        == spec_inserted_l(n, pre.cy, pre.fb.pixels, k) by {
                        if !(py <= row(k, WIDTH as int) < py + n * CHARH) {
                            assert(self@.fb.pixels[k] == shifted.fb.pixels[k]);
                        }
                    };
                }
            },
            0x4d => {
                let n0 = if a0 > 1 {
                    a0
                } else {
                    1
                };
                let lim = ROWS - self.cy;
                let n = if n0 < lim {
                    n0
                } else {
                    lim
                };
                let py = self.cy * CHARH;
                if self.cy < ROWS - 1 {
                    self.fb.copy_rect(0, py + CHARH, WIDTH, HEIGHT, 0, py);
                }
                let ghost shifted = self@;
                self.fb.rect(0, HEIGHT - n * CHARH, WIDTH, HEIGHT, 0);
                proof {
                    assert forall|k: int|
                        0 <= k < pre.fb.pixels.len() implies #[trigger] self@.fb.pixels[k]
                        == spec_deleted_m(n, pre.cy, pre.fb.pixels, k) by {
                        if !(HEIGHT - n * CHARH <= row(k, WIDTH as int) < HEIGHT as int) {
                            assert(self@.fb.pixels[k] == shifted.fb.pixels[k]);
                        }
                    };
                }
            },
            0x50 => {
                let n0 = if a0 > 1 {
                    a0
                } else {
                    1
                };
                let lim = COLS - self.cx;
                let n = if n0 < lim {
                    n0
                } else {
                    lim
                };
                let px = self.cx * CHARW;
                let py = self.cy * CHARH;
                self.fb.copy_rect(px + n * CHARW, py, WIDTH, py + CHARH, px, py);
                let ghost shifted = self@;
                self.fb.rect(WIDTH - n * CHARW, py, WIDTH, py + CHARH, 0);
                proof {
                    assert forall|k: int|
                        0 <= k < pre.fb.pixels.len() implies #[trigger] self@.fb.pixels[k]
                        == spec_deleted_p(n, pre.cx, pre.cy, pre.fb.pixels, k) by {
                        if !(py <= row(k, WIDTH as int) < py + CHARH && WIDTH - n * CHARW <= col(
                            k,
                            WIDTH as int,
                        ) < WIDTH as int) {
                            assert(self@.fb.pixels[k] == shifted.fb.pixels[k]);
                        }
                    };
                }
            },
            _ => {},
        }
    }

    /// Apply an SGR parameter list to the palette.
    fn process_sgr(&mut self, args: &Vec<u16>)
        requires
            old(self)@.wf(),
        ensures
            final(self)@.wf(),
            final(self)@ == (ConsoleModel {
                color: spec_sgr(old(self)@.color, args@),
                ..old(self)@
            }),
    {
        let mut i: usize = 0;
        let n = args.len();
        proof {
            assert(args@.skip(0) =~= args@);
        }
        while i < n
            invariant
                0 <= i <= n,
                n == args@.len(),
                self@.wf(),
                self@ == (ConsoleModel { color: self@.color, ..old(self)@ }),
                spec_sgr(old(self)@.color, args@) == spec_sgr(self@.color, args@.skip(i as int)),
            decreases n - i,
        {
            let a = args[i];
            let ghost rem = args@.skip(i as int);
            let ghost cur = self@.color;
            proof {
                assert(rem[0] == args@[i as int]);
            }
            if a == 0 {
                self.color = [DEFAULT_BKGRD, self.color[1], self.color[2], DEFAULT_COLOR];
                proof {
                    assert(self@.color =~= cur.update(3, DEFAULT_COLOR).update(0, DEFAULT_BKGRD));
                }
            } else if a == 1 {
                self.color = [self.color[0], self.color[1], self.color[2], self.color[3] | 0b1000];
                proof {
                    assert(self@.color =~= cur.update(3, cur[3] | 0b1000));
                }
            } else if a == 7 {
                self.color = [self.color[3], self.color[1], self.color[2], self.color[0]];
                proof {
                    assert(self@.color =~= cur.update(0, cur[3]).update(3, cur[0]));
                }
            } else if a == 22 {
                self.color = [self.color[0], self.color[1], self.color[2], self.color[3]
                    & !0b1000];
                proof {
                    assert(self@.color =~= cur.update(3, cur[3] & !0b1000));
                }
            } else if 30 <= a && a <= 37 {
                self.color = [self.color[0], self.color[1], self.color[2], (a - 30) as u8];
                proof {
                    assert(self@.color =~= cur.update(3, (a - 30) as u8));
                }
            } else if 40 <= a && a <= 47 {
                self.color = [(a - 40) as u8, self.color[1], self.color[2], self.color[3]];
                proof {
                    assert(self@.color =~= cur.update(0, (a - 40) as u8));
                }
            } else if a == 38 || a == 48 {
                let v: u16 = if n - i > 2 {
                    args[i + 2]
                } else {
                    0
                };
                proof {
                    assert(arg_or(rem, 2, 0) == v);
                }
                if a == 38 {
                    self.color = [self.color[0], self.color[1], self.color[2], (v & 0xff) as u8];
                    proof {
                        assert(self@.color =~= cur.update(3, (v & 0xff) as u8));
                    }
                } else {
                    self.color = [(v & 0xff) as u8, self.color[1], self.color[2], self.color[3]];
                    proof {
                        assert(self@.color =~= cur.update(0, (v & 0xff) as u8));
                    }
                }
                proof {
                    if n - i >= 3 {
                        assert(rem.skip(3) =~= args@.skip(i + 3));
                    } else {
                        assert(args@.skip(n as int) =~= Seq::<u16>::empty());
                    }
                }
                if n - i >= 3 {
                    i = i + 3;
                } else {
                    i = n;
                }
                continue ;
            }
            proof {
                assert(rem.skip(1) =~= args@.skip(i + 1));
            }
            i = i + 1;
        }
        proof {
            assert(args@.skip(n as int) =~= Seq::<u16>::empty());
        }
    }
}

/// Every flat index of the visible screen of a full-clip frame is
/// inside the clip rectangle, and the scroll area is not.
pub proof fn lemma_full_clip_regions(m: FrameModel)
    requires
        m.wf(),
        m.clip1 == ((0u16, 0u16)),
        m.clip2 == ((m.width, m.height)),
    ensures
        forall|i: int|
            0 <= i < m.pixels.len() ==> (#[trigger] m.in_clip_at(i) <==> in_rect(
                i,
                m.width as int,
                0,
                0,
                m.width as int,
                m.height as int,
            )),
{
}


/// Everything [`Console::process_char`] promises: cursor movement per
/// [`spec_char_cursor`], colors and outbox untouched, and pixels
/// changed only by the glyph drawn or the scroll performed.
pub open spec fn char_processed(pre: ConsoleModel, post: ConsoleModel, ch: u8) -> bool {
    &&& post.wf()
    &&& pre.same_output(post)
    &&& post.color == pre.color
    &&& (post.cx, post.cy, post.need_wrap) == spec_char_cursor(pre.cx, pre.cy, pre.need_wrap, ch)
    &&& (ch == 0x0d || ch == 0x08 || ch == 0x09 || ch == 0x00 || ch == 0x07 || ch == 0x0e || ch
        == 0x0f) ==> post.fb.pixels == pre.fb.pixels
    &&& (ch == 0x0a || ch == 0x0b || ch == 0x0c) && pre.cy + 1 < ROWS ==> post.fb.pixels
        == pre.fb.pixels
    &&& is_printable(ch) && !pre.need_wrap ==> (forall|i: int|
        0 <= i < pre.fb.pixels.len() && !in_rect(
            i,
            WIDTH as int,
            pre.cx * CHARW,
            pre.cy * CHARH,
            pre.cx * CHARW + CHARW,
            pre.cy * CHARH + CHARH,
        ) ==> #[trigger] post.fb.pixels[i] == pre.fb.pixels[i])
    &&& is_printable(ch) && !pre.need_wrap ==> (forall|gx: int, gy: int|
        0 <= gx < CHARW && 0 <= gy < CHARH ==> #[trigger] post.fb.pixel(
            pre.cx * CHARW + gx,
            pre.cy * CHARH + gy,
        ) == pre.color[crate::framebuf::glyph2(
            pre.font.data.skip(pre.font.chars[ch as int] as int),
            gy * CHARW + gx,
        ) as int])
}

/// Everything [`Console::process_csi`] promises: cursor movement per
/// [`spec_csi_cursor`], SGR recoloring per [`spec_sgr`], erase sequences
/// blanking exactly their areas, and no other sequence touching pixels.
pub open spec fn csi_processed(pre: ConsoleModel, post: ConsoleModel, end: u8, params: Seq<u8>) -> bool {
    &&& post.wf()
    &&& pre.same_output(post)
    &&& (post.cx, post.cy, post.need_wrap) == spec_csi_cursor(
        pre.cx,
        pre.cy,
        pre.need_wrap,
        end,
        spec_csi_args(params),
    )
    &&& post.color == (if end == 0x6d {
        spec_sgr(pre.color, spec_csi_args(params))
    } else {
        pre.color
    })
    &&& !(end == 0x4a || end == 0x4b || end == 0x58 || end == 0x4c || end == 0x4d || end == 0x50)
        ==> post.fb.pixels == pre.fb.pixels
    &&& end == 0x4a ==> (forall|i: int|
        0 <= i < pre.fb.pixels.len() ==> #[trigger] post.fb.pixels[i] == (if spec_erased_j(
            arg_or(spec_csi_args(params), 0, 0),
            pre.cx,
            pre.cy,
            i,
        ) {
            0u8
        } else {
            pre.fb.pixels[i]
        }))
    &&& end == 0x4b ==> (forall|i: int|
        0 <= i < pre.fb.pixels.len() ==> #[trigger] post.fb.pixels[i] == (if spec_erased_k(
            arg_or(spec_csi_args(params), 0, 0),
            pre.cx,
            pre.cy,
            i,
        ) {
            0u8
        } else {
            pre.fb.pixels[i]
        }))
    &&& end == 0x58 ==> (forall|i: int|
        0 <= i < pre.fb.pixels.len() ==> #[trigger] post.fb.pixels[i] == (if in_rect(
            i,
            WIDTH as int,
            pre.cx * CHARW,
            pre.cy * CHARH,
            pre.cx * CHARW + umin(umax(arg_or(spec_csi_args(params), 0, 1), 1), (COLS
                - pre.cx) as u16) * CHARW,
            pre.cy * CHARH + CHARH,
        ) {
            0u8
        } else {
            pre.fb.pixels[i]
        }))
    &&& end == 0x4c ==> (forall|i: int|
        0 <= i < pre.fb.pixels.len() ==> #[trigger] post.fb.pixels[i] == spec_inserted_l(
            spec_line_count(spec_csi_args(params), pre.cy),
            pre.cy,
            pre.fb.pixels,
            i,
        ))
    &&& end == 0x4d ==> (forall|i: int|
        0 <= i < pre.fb.pixels.len() ==> #[trigger] post.fb.pixels[i] == spec_deleted_m(
            spec_line_count(spec_csi_args(params), pre.cy),
            pre.cy,
            pre.fb.pixels,
            i,
        ))
    &&& end == 0x50 ==> (forall|i: int|
        0 <= i < pre.fb.pixels.len() ==> #[trigger] post.fb.pixels[i] == spec_deleted_p(
            spec_char_count(spec_csi_args(params), pre.cx),
            pre.cx,
            pre.cy,
            pre.fb.pixels,
            i,
        ))
}


/// Printing a full row of printable characters from the row start
/// leaves the cursor on the last column with the wrap pending.
proof fn lemma_print_fills_row(y: u16, s: Seq<u8>, k: int)
    requires
        y < ROWS,
        s.len() <= COLS,
        0 <= k <= s.len(),
        forall|i: int| 0 <= i < s.len() ==> is_printable(#[trigger] s[i]),
    ensures
        spec_str_cursor(0, y, false, s.take(k)) == (if k < COLS {
            ((k as u16), y, false)
        } else {
            ((COLS - 1) as u16, y, true)
        }),
    decreases k,
{
    if k == 0 {
        assert(s.take(0) =~= Seq::<u8>::empty());
    } else {
        lemma_print_fills_row(y, s, k - 1);
        lemma_str_cursor_push(0, y, false, s.take(k - 1), s[k - 1]);
        assert(s.take(k) =~= s.take(k - 1).push(s[k - 1]));
    }
}

/// Printing one more byte steps the cursor once more.
pub proof fn lemma_str_cursor_push(cx: u16, cy: u16, wrap: bool, a: Seq<u8>, b: u8)
    ensures
        spec_str_cursor(cx, cy, wrap, a.push(b)) == {
            let t = spec_str_cursor(cx, cy, wrap, a);
            spec_char_cursor(t.0, t.1, t.2, b)
        },
    decreases a.len(),
{
    lemma_str_cursor_concat(cx, cy, wrap, a, seq![b]);
    assert(a + seq![b] =~= a.push(b));
    let t = spec_str_cursor(cx, cy, wrap, a);
    let u = spec_char_cursor(t.0, t.1, t.2, b);
    assert(spec_str_cursor(t.0, t.1, t.2, seq![b]) == spec_str_cursor(
        u.0,
        u.1,
        u.2,
        seq![b].drop_first(),
    ));
    assert(seq![b].drop_first() =~= Seq::<u8>::empty());
    assert(spec_str_cursor(u.0, u.1, u.2, Seq::<u8>::empty()) == (u.0, u.1, u.2));
}

/// The pending wrap fires exactly once: printing exactly one row's worth
/// of printable characters from the row start and then one more leaves
/// the cursor on column 1 of the next row, not column 0 of the same row.
pub proof fn lemma_wrap_fires_once(y: u16, s: Seq<u8>, ch: u8)
    requires
        y < ROWS,
        s.len() == COLS,
        forall|i: int| 0 <= i < s.len() ==> is_printable(#[trigger] s[i]),
        is_printable(ch),
    ensures
        spec_str_cursor(0, y, false, s.push(ch)) == (1u16, (if y + 1 == ROWS {
            y
        } else {
            (y + 1) as u16
        }), false),
{
    lemma_print_fills_row(y, s, s.len() as int);
    assert(s.take(s.len() as int) =~= s);
    lemma_str_cursor_push(0, y, false, s, ch);
}

} // verus!
