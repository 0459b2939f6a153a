//! The framebuffer drawing engine.
//!
//! A [`Display`] owns a byte buffer of palette indices, a clip rectangle
//! and a hardware-capability object.  All drawing primitives clip to the
//! half-open rectangle `[clip1, clip2)`; block fills and block copies are
//! delegated to the capability object, which a software rasterizer
//! ([`SoftFb`]) or an accelerated blitter can provide, and both must obey
//! the same pixel-exact contract so that output is bit-identical.

use vstd::prelude::*;

use crate::font::{glyph_bytes, Font};

verus! {

/// A 2-bit color palette. Order is `[bg, .., .., fg]`.
pub type Palette = [u8; 4];

/// Column of flat buffer index `i` at row length `stride`.
pub open spec fn col(i: int, stride: int) -> int {
    i % stride
}

/// Row of flat buffer index `i` at row length `stride`.
pub open spec fn row(i: int, stride: int) -> int {
    i / stride
}

/// Whether flat index `i` lies in the half-open rectangle
/// `[x1, x2) x [y1, y2)` of a buffer with the given row length.
pub open spec fn in_rect(i: int, stride: int, x1: int, y1: int, x2: int, y2: int) -> bool {
    x1 <= col(i, stride) < x2 && y1 <= row(i, stride) < y2
}

/// Row-major indexing: the flat index `y * stride + x` has column `x`
/// and row `y`.
pub proof fn lemma_flat_index(stride: int, x: int, y: int)
    requires
        0 < stride,
        0 <= x < stride,
        0 <= y,
    ensures
        col(y * stride + x, stride) == x,
        row(y * stride + x, stride) == y,
{
    vstd::arithmetic::div_mod::lemma_fundamental_div_mod_converse(
        y * stride + x,
        stride,
        y,
        x,
    );
}

/// Mathematical image of a [`Display`]: the hardware-capability state is
/// deliberately absent, so two displays are equal exactly when every
/// observable of the drawing engine is.
pub ghost struct FrameModel {
    /// Palette-index bytes, row-major; rows beyond `height` back the
    /// scroll area.
    pub pixels: Seq<u8>,
    /// Width of the visible screen.
    pub width: u16,
    /// Height of the visible screen.
    pub height: u16,
    /// Top-left corner of the clip rectangle (inclusive).
    pub clip1: (u16, u16),
    /// Bottom-right corner of the clip rectangle (exclusive).
    pub clip2: (u16, u16),
}

impl FrameModel {
    /// Invariant: a sane screen size, an ordered clip rectangle bounded
    /// by the screen, and a buffer that covers the screen.
    pub open spec fn wf(self) -> bool {
        &&& 1 <= self.width <= 4096
        &&& 1 <= self.height <= 4096
        &&& self.clip1.0 <= self.clip2.0 <= self.width
        &&& self.clip1.1 <= self.clip2.1 <= self.height
        &&& self.width * self.height <= self.pixels.len()
        &&& self.pixels.len() <= 0x100_0000
    }

    /// The pixel at column `x`, row `y`.
    pub open spec fn pixel(self, x: int, y: int) -> u8 {
        self.pixels[y * self.width + x]
    }

    /// Whether position (x, y) lies inside the clip rectangle.
    pub open spec fn in_clip(self, x: int, y: int) -> bool {
        self.clip1.0 <= x < self.clip2.0 && self.clip1.1 <= y < self.clip2.1
    }

    /// Whether flat index `i` addresses a pixel inside the clip rectangle.
    pub open spec fn in_clip_at(self, i: int) -> bool {
        in_rect(
            i,
            self.width as int,
            self.clip1.0 as int,
            self.clip1.1 as int,
            self.clip2.0 as int,
            self.clip2.1 as int,
        )
    }

    /// Same screen geometry and clip rectangle: only pixels may differ.
    pub open spec fn same_frame(self, other: FrameModel) -> bool {
        &&& self.width == other.width
        &&& self.height == other.height
        &&& self.clip1 == other.clip1
        &&& self.clip2 == other.clip2
        &&& self.pixels.len() == other.pixels.len()
    }
}

/// A position on the visible screen addresses a pixel inside the
/// buffer, at the flat index with its column and row.
pub proof fn lemma_pixel_index(m: FrameModel, x: int, y: int)
    requires
        m.wf(),
        0 <= x < m.width,
        0 <= y < m.height,
    ensures
        0 <= y * m.width + x < m.pixels.len(),
        col(y * m.width + x, m.width as int) == x,
        row(y * m.width + x, m.width as int) == y,
{
    assert(y * m.width + x < m.width * m.height) by (nonlinear_arith)
        requires
            0 <= y < m.height,
            0 <= x < m.width,
    ;
    lemma_flat_index(m.width as int, x, y);
}

/// The hardware capability behind a [`Display`]: block fill and block
/// copy on the raw buffer, and making the buffer the visible one.  A
/// software rasterizer and an accelerated blitter provide the same
/// pixel-exact contract.
pub trait FbImpl: Sized {
    /// Fill the half-open rectangle `[x1, x2) x [y1, y2)` with `color`.
    fn fill_rect(&mut self, buf: &mut Vec<u8>, stride: u16, x1: u16, y1: u16, x2: u16, y2: u16, color: u8)
        requires
            0 < stride,
            x1 <= x2,
            x2 <= stride,
            y1 <= y2,
            y2 * stride <= old(buf)@.len(),
            old(buf)@.len() <= 0x100_0000,
        ensures
            final(buf)@.len() == old(buf)@.len(),
            forall|i: int|
                0 <= i < old(buf)@.len() && in_rect(
                    i,
                    stride as int,
                    x1 as int,
                    y1 as int,
                    x2 as int,
                    y2 as int,
                ) ==> #[trigger] final(buf)@[i] == color,
            forall|i: int|
                0 <= i < old(buf)@.len() && !in_rect(
                    i,
                    stride as int,
                    x1 as int,
                    y1 as int,
                    x2 as int,
                    y2 as int,
                ) ==> #[trigger] final(buf)@[i] == old(buf)@[i],
    ;

    /// Copy the `nx` by `ny` rectangle whose top-left corner is
    /// `(sx, sy)` to top-left corner `(dx, dy)`.  The copy reads the
    /// source in ascending memory order, so the destination receives the
    /// old source values whenever it does not start after the source, or
    /// the two row ranges are disjoint.
    fn copy_rect(&mut self, buf: &mut Vec<u8>, stride: u16, sx: u16, sy: u16, dx: u16, dy: u16, nx: u16, ny: u16)
        requires
            0 < stride,
            sx + nx <= stride,
            dx + nx <= stride,
            (sy + ny) * stride <= old(buf)@.len(),
            (dy + ny) * stride <= old(buf)@.len(),
            old(buf)@.len() <= 0x100_0000,
        ensures
            final(buf)@.len() == old(buf)@.len(),
            (dy * stride + dx <= sy * stride + sx || dy >= sy + ny) ==> forall|i: int|
                0 <= i < old(buf)@.len() && in_rect(
                    i,
                    stride as int,
                    dx as int,
                    dy as int,
                    dx + nx,
                    dy + ny,
                ) ==> #[trigger] final(buf)@[i] == old(buf)@[i + (sy - dy) * stride + (sx - dx)],
            forall|i: int|
                0 <= i < old(buf)@.len() && !in_rect(
                    i,
                    stride as int,
                    dx as int,
                    dy as int,
                    dx + nx,
                    dy + ny,
                ) ==> #[trigger] final(buf)@[i] == old(buf)@[i],
    ;

    /// Make `buf` the framebuffer shown on the output device.
    fn activate(&self, buf: &Vec<u8>);
}

/// The software rasterizer: plain loops over the buffer.  It is the
/// reference implementation of the [`FbImpl`] contract, used for
/// simulation and testing.
pub struct SoftFb;

impl FbImpl for SoftFb {
    fn fill_rect(&mut self, buf: &mut Vec<u8>, stride: u16, x1: u16, y1: u16, x2: u16, y2: u16, color: u8) {
        let mut y: u16 = y1;
        while y < y2
            invariant
                y1 <= y <= y2,
                x1 <= x2,
                x2 <= stride,
                0 < stride,
                y2 * stride <= old(buf)@.len(),
                old(buf)@.len() <= 0x100_0000,
                buf@.len() == old(buf)@.len(),
                forall|i: int|
                    0 <= i < buf@.len() && in_rect(
                        i,
                        stride as int,
                        x1 as int,
                        y1 as int,
                        x2 as int,
                        y as int,
                    ) ==> #[trigger] buf@[i] == color,
                forall|i: int|
                    0 <= i < buf@.len() && !in_rect(
                        i,
                        stride as int,
                        x1 as int,
                        y1 as int,
                        x2 as int,
                        y as int,
                    ) ==> #[trigger] buf@[i] == old(buf)@[i],
            decreases y2 - y,
        {
            let mut x: u16 = x1;
            while x < x2
                invariant
                    y1 <= y < y2,
                    x1 <= x <= x2,
                    x2 <= stride,
                    0 < stride,
                    y2 * stride <= old(buf)@.len(),
                    old(buf)@.len() <= 0x100_0000,
                    buf@.len() == old(buf)@.len(),
                    forall|i: int|
                        0 <= i < buf@.len() && (in_rect(
                            i,
                            stride as int,
                            x1 as int,
                            y1 as int,
                            x2 as int,
                            y as int,
                        ) || (row(i, stride as int) == y && x1 <= col(i, stride as int) < x))
                            ==> #[trigger] buf@[i] == color,
                    forall|i: int|
                        0 <= i < buf@.len() && !(in_rect(
                            i,
                            stride as int,
                            x1 as int,
                            y1 as int,
                            x2 as int,
                            y as int,
                        ) || (row(i, stride as int) == y && x1 <= col(i, stride as int) < x))
                            ==> #[trigger] buf@[i] == old(buf)@[i],
                decreases x2 - x,
            {
                proof {
                    assert(y * stride + x < y2 * stride) by (nonlinear_arith)
                        requires
                            0 <= y < y2,
                            0 <= x < stride,
                            0 < stride,
                    ;
                    lemma_flat_index(stride as int, x as int, y as int);
                }
                let idx: usize = (y as usize) * (stride as usize) + (x as usize);
                buf.set(idx, color);
                proof {
                    assert forall|i: int|
                        0 <= i < buf@.len() && row(i, stride as int) == y && col(i, stride as int)
                            == x implies i == y * (stride as int) + x by {
                        vstd::arithmetic::div_mod::lemma_fundamental_div_mod(i, stride as int);
                    };
                }
                x = x + 1;
            }
            y = y + 1;
            proof {
                assert(forall|i: int|
                    0 <= i < buf@.len() ==> (in_rect(
                        i,
                        stride as int,
                        x1 as int,
                        y1 as int,
                        x2 as int,
                        y as int,
                    ) <==> (in_rect(
                        i,
                        stride as int,
                        x1 as int,
                        y1 as int,
                        x2 as int,
                        y - 1,
                    ) || (row(i, stride as int) == y - 1 && x1 <= col(i, stride as int) < x2))));
            }
        }
    }

    fn copy_rect(&mut self, buf: &mut Vec<u8>, stride: u16, sx: u16, sy: u16, dx: u16, dy: u16, nx: u16, ny: u16) {
        let ghost ordered = dy * stride + dx <= sy * stride + sx || dy >= sy + ny;
        let ghost delta = (sy - dy) * (stride as int) + (sx - dx);
        let mut j: u16 = 0;
        while j < ny
            invariant
                0 <= j <= ny,
                sx + nx <= stride,
                dx + nx <= stride,
                0 < stride,
                (sy + ny) * stride <= old(buf)@.len(),
                (dy + ny) * stride <= old(buf)@.len(),
                old(buf)@.len() <= 0x100_0000,
                buf@.len() == old(buf)@.len(),
                ordered == (dy * stride + dx <= sy * stride + sx || dy >= sy + ny),
                delta == (sy - dy) * (stride as int) + (sx - dx),
                ordered ==> forall|i: int|
                    0 <= i < buf@.len() && in_rect(
                        i,
                        stride as int,
                        dx as int,
                        dy as int,
                        dx + nx,
                        dy + j,
                    ) ==> #[trigger] buf@[i] == old(buf)@[i + delta],
                forall|i: int|
                    0 <= i < buf@.len() && !in_rect(
                        i,
                        stride as int,
                        dx as int,
                        dy as int,
                        dx + nx,
                        dy + j,
                    ) ==> #[trigger] buf@[i] == old(buf)@[i],
            decreases ny - j,
        {
            let mut k: u16 = 0;
            while k < nx
                invariant
                    0 <= j < ny,
                    0 <= k <= nx,
                    sx + nx <= stride,
                    dx + nx <= stride,
                    0 < stride,
                    (sy + ny) * stride <= old(buf)@.len(),
                    (dy + ny) * stride <= old(buf)@.len(),
                    old(buf)@.len() <= 0x100_0000,
                    buf@.len() == old(buf)@.len(),
                    ordered == (dy * stride + dx <= sy * stride + sx || dy >= sy + ny),
                    delta == (sy - dy) * (stride as int) + (sx - dx),
                    ordered ==> forall|i: int|
                        0 <= i < buf@.len() && (in_rect(
                            i,
                            stride as int,
                            dx as int,
                            dy as int,
                            dx + nx,
                            dy + j,
                        ) || (row(i, stride as int) == dy + j && dx <= col(i, stride as int) < dx
                            + k)) ==> #[trigger] buf@[i] == old(buf)@[i + delta],
                    forall|i: int|
                        0 <= i < buf@.len() && !(in_rect(
                            i,
                            stride as int,
                            dx as int,
                            dy as int,
                            dx + nx,
                            dy + j,
                        ) || (row(i, stride as int) == dy + j && dx <= col(i, stride as int) < dx
                            + k)) ==> #[trigger] buf@[i] == old(buf)@[i],
                decreases nx - k,
            {
                proof {
                    assert((sy + j) * stride + sx + k < (sy + ny) * stride && (dy + j) * stride
                        + dx + k < (dy + ny) * stride) by (nonlinear_arith)
                        requires
                            0 <= j < ny,
                            0 <= k < nx,
                            sx + nx <= stride,
                            dx + nx <= stride,
                            0 < stride,
                    ;
                    lemma_flat_index(stride as int, (sx + k) as int, (sy + j) as int);
                    lemma_flat_index(stride as int, (dx + k) as int, (dy + j) as int);
                    let rd = ((sy + j) as int) * (stride as int) + sx + k;
                    let wr = ((dy + j) as int) * (stride as int) + dx + k;
                    assert(wr + delta == rd) by (nonlinear_arith)
                        requires
                            delta == (sy - dy) * (stride as int) + (sx - dx),
                            rd == ((sy + j) as int) * (stride as int) + sx + k,
                            wr == ((dy + j) as int) * (stride as int) + dx + k,
                    ;
                    // In the ordered case the source cell still holds its
                    // original value: it is either outside the destination
                    // rows, or at or past the write position, while every
                    // cell written so far lies strictly before it.
                    if ordered && (in_rect(rd, stride as int, dx as int, dy as int, dx + nx, dy + j)
                        || (row(rd, stride as int) == dy + j && dx <= col(rd, stride as int) < dx
                        + k)) {
                        assert(row(rd, stride as int) == sy + j && sy + j < sy + ny);
                        assert(!(dy >= sy + ny)) by (nonlinear_arith)
                            requires
                                dy <= sy + j,
                                0 <= j < ny,
                        ;
                        assert(dy * stride + dx <= sy * stride + sx);
                        assert(delta >= 0) by (nonlinear_arith)
                            requires
                                delta == (sy - dy) * (stride as int) + (sx - dx),
                                dy * stride + dx <= sy * stride + sx,
                        ;
                        assert(rd >= wr);
                        if in_rect(rd, stride as int, dx as int, dy as int, dx + nx, dy + j) {
                            vstd::arithmetic::div_mod::lemma_fundamental_div_mod(
                                rd,
                                stride as int,
                            );
                            assert(rd < wr) by (nonlinear_arith)
                                requires
                                    row(rd, stride as int) < dy + j,
                                    0 <= col(rd, stride as int) < stride,
                                    0 < stride,
                                    rd == (stride as int) * row(rd, stride as int) + col(
                                        rd,
                                        stride as int,
                                    ),
                                    wr == ((dy + j) as int) * (stride as int) + dx + k,
                                    0 <= dx + k,
                            ;
                        } else {
                            vstd::arithmetic::div_mod::lemma_fundamental_div_mod(
                                rd,
                                stride as int,
                            );
                            assert(rd < wr) by (nonlinear_arith)
                                requires
                                    row(rd, stride as int) == dy + j,
                                    col(rd, stride as int) < dx + k,
                                    0 < stride,
                                    rd == (stride as int) * row(rd, stride as int) + col(
                                        rd,
                                        stride as int,
                                    ),
                                    wr == ((dy + j) as int) * (stride as int) + dx + k,
                            ;
                        }
                        assert(false);
                    }
                }
                let rd_i: usize = ((sy as usize) + (j as usize)) * (stride as usize) + (sx as usize)
                    + (k as usize);
                let wr_i: usize = ((dy as usize) + (j as usize)) * (stride as usize) + (dx as usize)
                    + (k as usize);
                let v = buf[rd_i];
                buf.set(wr_i, v);
                proof {
                    assert forall|i: int|
                        0 <= i < buf@.len() && row(i, stride as int) == dy + j && col(
                            i,
                            stride as int,
                        ) == dx + k implies i == ((dy + j) as int) * (stride as int) + dx + k by {
                        vstd::arithmetic::div_mod::lemma_fundamental_div_mod(i, stride as int);
                        assert(i == ((dy + j) as int) * (stride as int) + dx + k)
                            by (nonlinear_arith)
                            requires
                                i == (stride as int) * row(i, stride as int) + col(i, stride as int),
                                row(i, stride as int) == dy + j,
                                col(i, stride as int) == dx + k,
                        ;
                    };
                }
                k = k + 1;
            }
            j = j + 1;
            proof {
                assert(forall|i: int|
                    0 <= i < buf@.len() ==> (in_rect(
                        i,
                        stride as int,
                        dx as int,
                        dy as int,
                        dx + nx,
                        dy + j,
                    ) <==> (in_rect(i, stride as int, dx as int, dy as int, dx + nx, dy + j - 1)
                        || (row(i, stride as int) == dy + j - 1 && dx <= col(i, stride as int) < dx
                        + nx))));
            }
        }
    }

    fn activate(&self, buf: &Vec<u8>) {
    }
}


/// Clamp `v` into `[lo, hi]`.
pub open spec fn clamp(v: int, lo: int, hi: int) -> int {
    if v < lo {
        lo
    } else if v > hi {
        hi
    } else {
        v
    }
}

/// The half-open rectangle `[x1, x2) x [y1, y2)` clamped into the clip
/// rectangle of `m`, as `(x1, y1, x2, y2)`.
pub open spec fn spec_rect_clip(m: FrameModel, x1: int, y1: int, x2: int, y2: int) -> (
    int,
    int,
    int,
    int,
) {
    let cx1 = clamp(x1, m.clip1.0 as int, m.clip2.0 as int);
    let cy1 = clamp(y1, m.clip1.1 as int, m.clip2.1 as int);
    (cx1, cy1, clamp(x2, cx1, m.clip2.0 as int), clamp(y2, cy1, m.clip2.1 as int))
}

/// The framebuffer drawing engine: a pixel-index buffer, the clip
/// rectangle, and the hardware capability that backs block operations.
pub struct Display<Fb> {
    buf: Vec<u8>,
    width: u16,
    height: u16,
    clip1: (u16, u16),
    clip2: (u16, u16),
    impls: Fb,
}

impl<Fb> View for Display<Fb> {
    type V = FrameModel;

    closed spec fn view(&self) -> FrameModel {
        FrameModel {
            pixels: self.buf@,
            width: self.width,
            height: self.height,
            clip1: self.clip1,
            clip2: self.clip2,
        }
    }
}

impl<Fb: FbImpl> Display<Fb> {
    /// Wrap a pixel buffer as a display of the given size, with the clip
    /// rectangle covering the whole screen.
    pub fn new(buf: Vec<u8>, width: u16, height: u16, impls: Fb) -> (r: Self)
        requires
            1 <= width <= 4096,
            1 <= height <= 4096,
            width * height <= buf@.len(),
            buf@.len() <= 0x100_0000,
        ensures
            r@ == (FrameModel {
                pixels: buf@,
                width,
                height,
                clip1: (0, 0),
                clip2: (width, height),
            }),
            r@.wf(),
    {
        Display { buf, width, height, clip1: (0, 0), clip2: (width, height), impls }
    }

    /// The raw pixel buffer, including the scroll area.
    pub fn buf(&self) -> (r: &[u8])
        ensures
            r@ == self@.pixels,
    {
        self.buf.as_slice()
    }

    /// Pixel width of the display and framebuffer.
    pub fn width(&self) -> (r: u16)
        ensures
            r == self@.width,
    {
        self.width
    }

    /// Pixel height of the display.  The framebuffer may be higher, to
    /// allow line scrolling with one full-size block copy.
    pub fn height(&self) -> (r: u16)
        ensures
            r == self@.height,
    {
        self.height
    }

    /// Set the clip rectangle to `[clip1, clip2)`, clamping both corners
    /// to the screen and the second corner below the first.
    pub fn set_clip(&mut self, clip1: (u16, u16), clip2: (u16, u16))
        requires
            old(self)@.wf(),
        ensures
            final(self)@.wf(),
            final(self)@ == (FrameModel {
                clip1: (
                    (clamp(clip1.0 as int, 0, old(self)@.width as int) as u16),
                    (clamp(clip1.1 as int, 0, old(self)@.height as int) as u16),
                ),
                clip2: (
                    (clamp(
                        clip2.0 as int,
                        clamp(clip1.0 as int, 0, old(self)@.width as int),
                        old(self)@.width as int,
                    ) as u16),
                    (clamp(
                        clip2.1 as int,
                        clamp(clip1.1 as int, 0, old(self)@.height as int),
                        old(self)@.height as int,
                    ) as u16),
                ),
                ..old(self)@
            }),
    {
        let c1x = if clip1.0 < self.width { clip1.0 } else { self.width };
        let c1y = if clip1.1 < self.height { clip1.1 } else { self.height };
        let c2x = if clip2.0 > self.width { self.width } else { clip2.0 };
        let c2y = if clip2.1 > self.height { self.height } else { clip2.1 };
        self.clip1 = (c1x, c1y);
        self.clip2 = (if c2x < c1x { c1x } else { c2x }, if c2y < c1y { c1y } else { c2y });
    }

    /// Set one pixel, if it lies inside the clip rectangle.  This is the
    /// single source of truth for clip enforcement on the software
    /// drawing paths.
    pub fn set_pixel(&mut self, x: u16, y: u16, color: u8)
        requires
            old(self)@.wf(),
        ensures
            final(self)@.wf(),
            old(self)@.in_clip(x as int, y as int) ==> 0 <= y * old(self)@.width + x < old(
                self,
            )@.pixels.len(),
            old(self)@.in_clip(x as int, y as int) ==> final(self)@ == (FrameModel {
                pixels: old(self)@.pixels.update(
                    y * old(self)@.width + x,
                    color,
                ),
                ..old(self)@
            }),
            !old(self)@.in_clip(x as int, y as int) ==> final(self)@ == old(self)@,
    {
        if self.clip1.0 <= x && x < self.clip2.0 && self.clip1.1 <= y && y < self.clip2.1 {
            proof {
                assert(y * self@.width + x < self@.width * self@.height) by (nonlinear_arith)
                    requires
                        0 <= y < self@.height,
                        0 <= x < self@.width,
                ;
                assert(y * self@.width + x < self@.pixels.len());
            }
            let idx: usize = (x as usize) + (y as usize) * (self.width as usize);
            self.buf.set(idx, color);
        }
    }

    /// Fill the half-open rectangle `[x1, x2) x [y1, y2)`, clamped to the
    /// clip rectangle, with `color`.  No pixel outside the clip rectangle
    /// is touched.
    pub fn rect(&mut self, x1: u16, y1: u16, x2: u16, y2: u16, color: u8)
        requires
            old(self)@.wf(),
        ensures
            final(self)@.wf(),
            old(self)@.same_frame(final(self)@),
            forall|i: int|
                0 <= i < old(self)@.pixels.len() ==> #[trigger] final(self)@.pixels[i] == (
                if in_rect(
                    i,
                    old(self)@.width as int,
                    spec_rect_clip(old(self)@, x1 as int, y1 as int, x2 as int, y2 as int).0,
                    spec_rect_clip(old(self)@, x1 as int, y1 as int, x2 as int, y2 as int).1,
                    spec_rect_clip(old(self)@, x1 as int, y1 as int, x2 as int, y2 as int).2,
                    spec_rect_clip(old(self)@, x1 as int, y1 as int, x2 as int, y2 as int).3,
                ) {
                    color
                } else {
                    old(self)@.pixels[i]
                }),
            forall|i: int|
                0 <= i < old(self)@.pixels.len() && !old(self)@.in_clip_at(i)
                    ==> #[trigger] final(self)@.pixels[i] == old(self)@.pixels[i],
    {
        let cx1 = if x1 < self.clip1.0 {
            self.clip1.0
        } else if x1 > self.clip2.0 {
            self.clip2.0
        } else {
            x1
        };
        let cy1 = if y1 < self.clip1.1 {
            self.clip1.1
        } else if y1 > self.clip2.1 {
            self.clip2.1
        } else {
            y1
        };
        let cx2 = if x2 < cx1 {
            cx1
        } else if x2 > self.clip2.0 {
            self.clip2.0
        } else {
            x2
        };
        let cy2 = if y2 < cy1 {
            cy1
        } else if y2 > self.clip2.1 {
            self.clip2.1
        } else {
            y2
        };
        proof {
            assert(cy2 * self@.width <= self@.height * self@.width) by (nonlinear_arith)
                requires
                    0 <= cy2 <= self@.height,
                    0 <= self@.width,
            ;
            assert(self@.height * self@.width == self@.width * self@.height) by (nonlinear_arith);
        }
        self.impls.fill_rect(&mut self.buf, self.width, cx1, cy1, cx2, cy2, color);
    }

    /// Clear the whole screen (inside the clip rectangle) to `color`.
    pub fn clear(&mut self, color: u8)
        requires
            old(self)@.wf(),
        ensures
            final(self)@.wf(),
            old(self)@.same_frame(final(self)@),
            forall|i: int|
                0 <= i < old(self)@.pixels.len() ==> #[trigger] final(self)@.pixels[i] == (
                if old(self)@.in_clip_at(i) {
                    color
                } else {
                    old(self)@.pixels[i]
                }),
    {
        let x2 = self.width;
        let y2 = self.height;
        self.rect(0, 0, x2, y2, color);
    }

    /// Clear the scroll area: the buffer rows below the visible screen.
    pub fn clear_scroll_area(&mut self, color: u8)
        requires
            old(self)@.wf(),
        ensures
            final(self)@.wf(),
            old(self)@.same_frame(final(self)@),
            forall|i: int|
                0 <= i < old(self)@.width * old(self)@.height
                    ==> #[trigger] final(self)@.pixels[i] == old(self)@.pixels[i],
            forall|i: int|
                old(self)@.width * old(self)@.height <= i < old(self)@.pixels.len()
                    ==> #[trigger] final(self)@.pixels[i] == color,
    {
        let start: usize = (self.width as usize) * (self.height as usize);
        let mut i: usize = start;
        while i < self.buf.len()
            invariant
                start <= i <= self.buf@.len(),
                start == self@.width * self@.height,
                self@ == (FrameModel { pixels: self@.pixels, ..old(self)@ }),
                self@.pixels.len() == old(self)@.pixels.len(),
                forall|k: int| 0 <= k < start ==> #[trigger] self@.pixels[k] == old(self)@.pixels[k],
                forall|k: int| start <= k < i ==> #[trigger] self@.pixels[k] == color,
                forall|k: int|
                    i <= k < self@.pixels.len() ==> #[trigger] self@.pixels[k] == old(
                        self,
                    )@.pixels[k],
            decreases self.buf@.len() - i,
        {
            self.buf.set(i, color);
            i = i + 1;
        }
    }

    /// Scroll the visible screen up by `line_height` pixel rows, pulling
    /// the extra backing rows in at the bottom.
    pub fn scroll_up(&mut self, line_height: u16)
        requires
            old(self)@.wf(),
            line_height <= 4096,
            (old(self)@.height + line_height) * old(self)@.width <= old(self)@.pixels.len(),
        ensures
            final(self)@.wf(),
            old(self)@.same_frame(final(self)@),
            forall|i: int|
                0 <= i < old(self)@.height * old(self)@.width
                    ==> #[trigger] final(self)@.pixels[i]
                    == old(self)@.pixels[i + line_height * old(self)@.width],
            forall|i: int|
                old(self)@.height * old(self)@.width <= i < old(self)@.pixels.len()
                    ==> #[trigger] final(self)@.pixels[i] == old(self)@.pixels[i],
    {
        let ghost pre = self@;
        proof {
            assert((0 + pre.height) * pre.width == pre.height * pre.width && pre.height * pre.width
                == pre.width * pre.height && (line_height + pre.height) * pre.width == (pre.height
                + line_height) * pre.width && 0 * (pre.width as int) + 0 <= line_height
                * (pre.width as int) + 0) by (nonlinear_arith)
                requires
                    0 <= line_height,
                    0 <= pre.width,
                    0 <= pre.height,
            ;
        }
        let w = self.width;
        let h = self.height;
        self.impls.copy_rect(&mut self.buf, w, 0, line_height, 0, 0, w, h);
        proof {
            assert forall|i: int| 0 <= i < pre.height * pre.width implies in_rect(
                i,
                pre.width as int,
                0,
                0,
                pre.width as int,
                pre.height as int,
            ) by {
                vstd::arithmetic::div_mod::lemma_fundamental_div_mod(i, pre.width as int);
                assert(row(i, pre.width as int) < pre.height) by (nonlinear_arith)
                    requires
                        i == (pre.width as int) * row(i, pre.width as int) + col(
                            i,
                            pre.width as int,
                        ),
                        0 <= col(i, pre.width as int) < pre.width,
                        0 <= i < pre.height * pre.width,
                        0 < pre.width,
                ;
            };
            assert forall|i: int|
                pre.height * pre.width <= i < pre.pixels.len() implies !in_rect(
                i,
                pre.width as int,
                0,
                0,
                pre.width as int,
                pre.height as int,
            ) by {
                vstd::arithmetic::div_mod::lemma_fundamental_div_mod(i, pre.width as int);
                assert(!(row(i, pre.width as int) < pre.height)) by (nonlinear_arith)
                    requires
                        i == (pre.width as int) * row(i, pre.width as int) + col(
                            i,
                            pre.width as int,
                        ),
                        0 <= col(i, pre.width as int) < pre.width,
                        pre.height * pre.width <= i,
                        0 < pre.width,
                ;
            };
            assert((line_height - 0) * (pre.width as int) + (0 - 0) == line_height
                * pre.width);
        }
    }

    /// Hand the buffer to the hardware capability as the visible one.
    pub fn activate(&self)
    {
        self.impls.activate(&self.buf);
    }
}


/// The points of the rasterised line from `(x1, y1)` toward `(x2, y2)`:
/// what `bresenham::Bresenham` yields for these endpoints, start
/// inclusive, end exclusive, each coordinate folded to `u16`.
pub uninterp spec fn bresenham_path(x1: u16, y1: u16, x2: u16, y2: u16) -> Seq<(u16, u16)>;

/// Relies on `bresenham::Bresenham`: iterates the integer line-drawing
/// points between the two endpoints, a pure function of them alone.
#[verifier::external_body]
fn line_points(x1: u16, y1: u16, x2: u16, y2: u16) -> (r: Vec<(u16, u16)>)
    ensures
        r@ == bresenham_path(x1, y1, x2, y2),
{
    let mut v: Vec<(u16, u16)> = Vec::new();
    for p in bresenham::Bresenham::new((x1 as isize, y1 as isize), (x2 as isize, y2 as isize)) {
        v.push((p.0 as u16, p.1 as u16));
    }
    v
}

impl<Fb: FbImpl> Display<Fb> {
    /// Draw a line between the (inclusive) endpoints `(x1, y1)` and
    /// `(x2, y2)`, clipped to the clip rectangle: every point of the
    /// Bresenham path that lies inside the clip rectangle gets `color`,
    /// and nothing outside the clip rectangle changes.
    pub fn line(&mut self, x1: u16, y1: u16, x2: u16, y2: u16, color: u8)
        requires
            old(self)@.wf(),
        ensures
            final(self)@.wf(),
            old(self)@.same_frame(final(self)@),
            forall|i: int|
                0 <= i < old(self)@.pixels.len() && !old(self)@.in_clip_at(i)
                    ==> #[trigger] final(self)@.pixels[i] == old(self)@.pixels[i],
            forall|i: int|
                0 <= i < old(self)@.pixels.len() && #[trigger] final(self)@.pixels[i] != old(
                    self,
                )@.pixels[i] ==> final(self)@.pixels[i] == color,
            old(self)@.in_clip(x2 as int, y2 as int) ==> final(self)@.pixel(x2 as int, y2 as int)
                == color,
            forall|k: int|
                0 <= k < bresenham_path(x1, y1, x2, y2).len() && old(self)@.in_clip(
                    (#[trigger] bresenham_path(x1, y1, x2, y2)[k]).0 as int,
                    bresenham_path(x1, y1, x2, y2)[k].1 as int,
                ) ==> final(self)@.pixel(
                    bresenham_path(x1, y1, x2, y2)[k].0 as int,
                    bresenham_path(x1, y1, x2, y2)[k].1 as int,
                ) == color,
    {
        let ghost pre = self@;
        let pts = line_points(x1, y1, x2, y2);
        let mut k: usize = 0;
        while k < pts.len()
            invariant
                0 <= k <= pts@.len(),
                pts@ == bresenham_path(x1, y1, x2, y2),
                pre == old(self)@,
                pre.wf(),
                self@.wf(),
                pre.same_frame(self@),
                forall|i: int|
                    0 <= i < pre.pixels.len() && !pre.in_clip_at(i)
                        ==> #[trigger] self@.pixels[i] == pre.pixels[i],
                forall|i: int|
                    0 <= i < pre.pixels.len() && #[trigger] self@.pixels[i] != pre.pixels[i]
                        ==> self@.pixels[i] == color,
                forall|j: int|
                    0 <= j < k && pre.in_clip(
                        (#[trigger] pts@[j]).0 as int,
                        pts@[j].1 as int,
                    ) ==> self@.pixel(pts@[j].0 as int, pts@[j].1 as int) == color,
            decreases pts@.len() - k,
        {
            let p = pts[k];
            let ghost mid = self@;
            self.set_pixel(p.0, p.1, color);
            proof {
                if mid.in_clip(p.0 as int, p.1 as int) {
                    lemma_pixel_index(mid, p.0 as int, p.1 as int);
                }
                assert forall|j: int|
                    0 <= j < k + 1 && pre.in_clip(
                        (#[trigger] pts@[j]).0 as int,
                        pts@[j].1 as int,
                    ) implies self@.pixel(pts@[j].0 as int, pts@[j].1 as int) == color by {
                    lemma_pixel_index(mid, pts@[j].0 as int, pts@[j].1 as int);
                };
            }
            k = k + 1;
        }
        let ghost mid = self@;
        self.set_pixel(x2, y2, color);
        proof {
            if mid.in_clip(x2 as int, y2 as int) {
                lemma_pixel_index(mid, x2 as int, y2 as int);
            }
            assert forall|j: int|
                0 <= j < pts@.len() && pre.in_clip(
                    (#[trigger] pts@[j]).0 as int,
                    pts@[j].1 as int,
                ) implies self@.pixel(pts@[j].0 as int, pts@[j].1 as int) == color by {
                lemma_pixel_index(mid, pts@[j].0 as int, pts@[j].1 as int);
            };
        }
    }

    /// Draw the one-pixel-wide outline of the rectangle with (inclusive)
    /// corners `(x1, y1)` and `(x2, y2)`, clipped to the clip rectangle.
    pub fn rect_outline(&mut self, x1: u16, y1: u16, x2: u16, y2: u16, color: u8)
        requires
            old(self)@.wf(),
        ensures
            final(self)@.wf(),
            old(self)@.same_frame(final(self)@),
            forall|i: int|
                0 <= i < old(self)@.pixels.len() && !old(self)@.in_clip_at(i)
                    ==> #[trigger] final(self)@.pixels[i] == old(self)@.pixels[i],
            forall|i: int|
                0 <= i < old(self)@.pixels.len() && #[trigger] final(self)@.pixels[i] != old(
                    self,
                )@.pixels[i] ==> final(self)@.pixels[i] == color,
    {
        self.line(x1, y1, x1, y2, color);
        self.line(x1, y2, x2, y2, color);
        self.line(x2, y2, x2, y1, color);
        self.line(x2, y1, x1, y1, color);
    }
}



/// The 2-bit group of pixel `k` in a packed glyph or image byte stream:
/// 4 pixels per byte, low-order bit pair first.
pub open spec fn glyph2(data: Seq<u8>, k: int) -> u8 {
    (data[k / 4] >> ((2 * (k % 4)) as u8)) & 3
}

impl<Fb: FbImpl> Display<Fb> {
    /// Draw a packed 2-bit-per-pixel image of `size` at `(px, py)`,
    /// clipped to the clip rectangle.  Each 2-bit group selects one of
    /// the four palette slots; the accumulator is seeded with a sentinel
    /// bit and refilled one byte at a time, so exactly this bit order
    /// keeps existing glyph data compatible.
    pub fn image(&mut self, px: u16, py: u16, img: &[u8], size: (u16, u16), colors: &Palette)
        requires
            old(self)@.wf(),
            size.0 <= 512,
            size.1 <= 512,
            px + size.0 <= 8192,
            py + size.1 <= 8192,
            (size.0 * size.1 + 3) / 4 <= img@.len(),
        ensures
            final(self)@.wf(),
            old(self)@.same_frame(final(self)@),
            forall|i: int|
                0 <= i < old(self)@.pixels.len() && !(old(self)@.in_clip_at(i) && in_rect(
                    i,
                    old(self)@.width as int,
                    px as int,
                    py as int,
                    px + size.0,
                    py + size.1,
                )) ==> #[trigger] final(self)@.pixels[i] == old(self)@.pixels[i],
            forall|gx: int, gy: int|
                0 <= gx < size.0 && 0 <= gy < size.1 && old(self)@.in_clip(px + gx, py + gy)
                    ==> #[trigger] final(self)@.pixel(px + gx, py + gy) == colors@[glyph2(
                    img@,
                    gy * size.0 + gx,
                ) as int],
    {
        let ghost pre = self@;
        let w = size.0;
        let h = size.1;
        let mut bits: u16 = 0x1;
        let mut off: usize = 0;
        let mut k: usize = 0;
        let mut y: u16 = 0;
        while y < h
            invariant
                0 <= y <= h,
                w == size.0,
                h == size.1,
                size.0 <= 512,
                size.1 <= 512,
                px + size.0 <= 8192,
                py + size.1 <= 8192,
                (size.0 * size.1 + 3) / 4 <= img@.len(),
                k == y * w,
                k % 4 == 0 ==> bits == 0x1 && off == k / 4,
                k % 4 != 0 ==> off == k / 4 + 1 && bits == (((img@[k as int / 4] as u16)
                    | 0x100) >> ((2 * (k % 4)) as u16)),
                pre == old(self)@,
                pre.wf(),
                self@.wf(),
                pre.same_frame(self@),
                forall|i: int|
                    0 <= i < pre.pixels.len() && !(pre.in_clip_at(i) && in_rect(
                        i,
                        pre.width as int,
                        px as int,
                        py as int,
                        px + w,
                        py + h,
                    )) ==> #[trigger] self@.pixels[i] == pre.pixels[i],
                forall|gx: int, gy: int|
                    0 <= gx < w && 0 <= gy < y && pre.in_clip(px + gx, py + gy)
                        ==> #[trigger] self@.pixel(px + gx, py + gy) == colors@[glyph2(
                        img@,
                        gy * w + gx,
                    ) as int],
            decreases h - y,
        {
            let mut x: u16 = 0;
            while x < w
                invariant
                    0 <= y < h,
                    0 <= x <= w,
                    w == size.0,
                    h == size.1,
                    size.0 <= 512,
                    size.1 <= 512,
                    px + size.0 <= 8192,
                    py + size.1 <= 8192,
                    (size.0 * size.1 + 3) / 4 <= img@.len(),
                    k == y * w + x,
                    k % 4 == 0 ==> bits == 0x1 && off == k / 4,
                    k % 4 != 0 ==> off == k / 4 + 1 && bits == (((img@[k as int / 4] as u16)
                        | 0x100) >> ((2 * (k % 4)) as u16)),
                    pre == old(self)@,
                    pre.wf(),
                    self@.wf(),
                    pre.same_frame(self@),
                    forall|i: int|
                        0 <= i < pre.pixels.len() && !(pre.in_clip_at(i) && in_rect(
                            i,
                            pre.width as int,
                            px as int,
                            py as int,
                            px + w,
                            py + h,
                        )) ==> #[trigger] self@.pixels[i] == pre.pixels[i],
                    forall|gx: int, gy: int|
                        (0 <= gx < w && 0 <= gy < y && pre.in_clip(px + gx, py + gy)) || (0 <= gx
                            < x && gy == y && pre.in_clip(px + gx, py + gy))
                            ==> #[trigger] self@.pixel(px + gx, py + gy) == colors@[glyph2(
                            img@,
                            gy * w + gx,
                        ) as int],
                decreases w - x,
            {
                proof {
                    assert(k < w * h) by (nonlinear_arith)
                        requires
                            k == y * w + x,
                            0 <= x < w,
                            0 <= y < h,
                    ;
                    assert(k / 4 < (w * h + 3) / 4);
                    assert(w * h <= 262144) by (nonlinear_arith)
                        requires
                            0 <= w <= 512,
                            0 <= h <= 512,
                    ;
                }
                proof {
                    let b = img@[k as int / 4];
                    let sh = (2 * (k % 4)) as u16;
                    assert(sh == 2 || sh == 4 || sh == 6 ==> (((b as u16) | 0x100) >> sh) != 1)
                        by (bit_vector);
                }
                if bits == 0x1 {
                    bits = (img[off] as u16) | 0x100;
                    off = off + 1;
                }
                proof {
                    let b = img@[k as int / 4];
                    let sh = (2 * (k % 4)) as u16;
                    assert(((((b as u16) | 0x100) >> sh) & 3) == (((b >> (sh as u8)) & 3) as u16)
                        && ((((b as u16) | 0x100) >> sh) & 3) < 4 && (((b as u16) | 0x100) >> 0u16)
                        == ((b as u16) | 0x100)) by (bit_vector)
                        requires
                            sh == 0 || sh == 2 || sh == 4 || sh == 6,
                    ;
                    assert(bits == (((b as u16) | 0x100) >> sh));
                    assert((bits & 3) == (glyph2(img@, k as int) as u16));
                    assert((bits & 3) < 4);
                }
                let c = colors[(bits & 0b11) as usize];
                let ghost mid = self@;
                self.set_pixel(px + x, py + y, c);
                proof {
                    if mid.in_clip((px + x) as int, (py + y) as int) {
                        lemma_pixel_index(mid, (px + x) as int, (py + y) as int);
                    }
                    assert forall|gx: int, gy: int|
                        (0 <= gx < w && 0 <= gy < y && pre.in_clip(px + gx, py + gy)) || (0 <= gx
                            < x + 1 && gy == y && pre.in_clip(px + gx, py + gy))
                            implies #[trigger] self@.pixel(px + gx, py + gy) == colors@[glyph2(
                        img@,
                        gy * w + gx,
                    ) as int] by {
                        lemma_pixel_index(mid, px + gx, py + gy);
                        if !(gx == x && gy == y) {
                            assert(mid.pixel(px + gx, py + gy) == colors@[glyph2(
                                img@,
                                gy * w + gx,
                            ) as int]);
                        }
                    };
                    assert forall|i: int|
                        0 <= i < pre.pixels.len() && !(pre.in_clip_at(i) && in_rect(
                            i,
                            pre.width as int,
                            px as int,
                            py as int,
                            px + w,
                            py + h,
                        )) implies #[trigger] self@.pixels[i] == pre.pixels[i] by {
                        if mid.in_clip((px + x) as int, (py + y) as int) {
                            if i != (py + y) * mid.width + (px + x) {
                            } else {
                            }
                        }
                    };
                }
                let ghost oldk = k;
                bits = bits >> 2;
                k = k + 1;
                x = x + 1;
                proof {
                    let b = img@[oldk as int / 4];
                    if oldk % 4 == 3 {
                        assert((((b as u16) | 0x100) >> 6u16) >> 2u16 == 1) by (bit_vector);
                        assert(k % 4 == 0 && k / 4 == oldk / 4 + 1);
                    } else {
                        let sh = (2 * (oldk % 4)) as u16;
                        assert(((((b as u16) | 0x100) >> sh) >> 2u16) == (((b as u16) | 0x100) >> (
                        (sh + 2) as u16))) by (bit_vector)
                            requires
                                sh == 0 || sh == 2 || sh == 4,
                        ;
                        assert(k % 4 == oldk % 4 + 1 && k / 4 == oldk / 4);
                    }
                }
            }
            y = y + 1;
            proof {
                assert(y * w == (y - 1) * w + w) by (nonlinear_arith);
                assert forall|gx: int, gy: int|
                    0 <= gx < w && 0 <= gy < y && pre.in_clip(px + gx, py + gy)
                        implies #[trigger] self@.pixel(px + gx, py + gy) == colors@[glyph2(
                    img@,
                    gy * w + gx,
                ) as int] by {
                };
            }
        }
    }
}


/// Whether the `k`-th glyph of a text drawn at column `px` is rendered:
/// the first glyph always is; each further glyph only if the pen has not
/// yet left the screen.
pub open spec fn glyph_drawn(px: int, charw: int, width: int, k: int) -> bool {
    k == 0 || px + k * charw < width
}

impl<Fb: FbImpl> Display<Fb> {
    /// Draw `text` with `font` at `(px, py)`: glyph cells advance by the
    /// cell width until the pen leaves the screen, each glyph rendered as
    /// by [`Display::image`] from its packed bitmap, clipped to the clip
    /// rectangle.
    pub fn text(&mut self, font: &Font, px: u16, py: u16, text: &[u8], colors: &Palette)
        requires
            old(self)@.wf(),
            font@.wf(),
            px + font@.charw <= 8192,
            py + font@.charh <= 8192,
        ensures
            final(self)@.wf(),
            old(self)@.same_frame(final(self)@),
            forall|i: int|
                0 <= i < old(self)@.pixels.len() && !(old(self)@.in_clip_at(i) && px <= col(
                    i,
                    old(self)@.width as int,
                ) < px + text@.len() * font@.charw && py <= row(i, old(self)@.width as int) < py
                    + font@.charh) ==> #[trigger] final(self)@.pixels[i] == old(self)@.pixels[i],
            forall|k: int, gx: int, gy: int|
                0 <= k < text@.len() && glyph_drawn(
                    px as int,
                    font@.charw as int,
                    old(self)@.width as int,
                    k,
                ) && 0 <= gx < font@.charw && 0 <= gy < font@.charh && old(self)@.in_clip(
                    px + k * font@.charw + gx,
                    py + gy,
                ) ==> #[trigger] final(self)@.pixel(px + k * font@.charw + gx, py + gy)
                    == colors@[glyph2(
                    font@.data.skip(font@.chars[text@[k] as int] as int),
                    gy * font@.charw + gx,
                ) as int],
    {
        let ghost pre = self@;
        let (cw, ch) = font.size();
        let mut cx: u16 = px;
        let mut k: usize = 0;
        proof {
            assert(px + 0 * cw == px && 0 * cw == 0) by (nonlinear_arith);
        }
        while k < text.len()
            invariant
                0 <= k <= text@.len(),
                cx == px + k * cw,
                cw == font@.charw,
                ch == font@.charh,
                font@.wf(),
                px + cw <= 8192,
                py + ch <= 8192,
                k > 0 ==> cx < pre.width + cw,
                k > 0 ==> px + k * cw < pre.width,
                pre == old(self)@,
                pre.wf(),
                self@.wf(),
                pre.same_frame(self@),
                forall|i: int|
                    0 <= i < pre.pixels.len() && !(pre.in_clip_at(i) && px <= col(
                        i,
                        pre.width as int,
                    ) < px + k * cw && py <= row(i, pre.width as int) < py + ch)
                        ==> #[trigger] self@.pixels[i] == pre.pixels[i],
                forall|j: int, gx: int, gy: int|
                    0 <= j < k && glyph_drawn(px as int, cw as int, pre.width as int, j) && 0 <= gx
                        < cw && 0 <= gy < ch && pre.in_clip(px + j * cw + gx, py + gy)
                        ==> #[trigger] self@.pixel(px + j * cw + gx, py + gy) == colors@[glyph2(
                        font@.data.skip(font@.chars[text@[j] as int] as int),
                        gy * cw + gx,
                    ) as int],
            decreases text@.len() - k,
        {
            let chr = text[k];
            let glyph = font.data(chr);
            let ghost mid = self@;
            proof {
                if k == 0 {
                    assert(cx == px + 0 * cw && 0 * cw == 0) by (nonlinear_arith)
                        requires
                            cx == px + 0 * cw,
                    ;
                }
            }
            self.image(cx, py, glyph, (cw, ch), colors);
            proof {
                assert(glyph@.len() >= glyph_bytes(cw, ch));
                assert forall|j: int, gx: int, gy: int|
                    0 <= j < k + 1 && glyph_drawn(px as int, cw as int, pre.width as int, j) && 0
                        <= gx < cw && 0 <= gy < ch && pre.in_clip(px + j * cw + gx, py + gy)
                        implies #[trigger] self@.pixel(px + j * cw + gx, py + gy) == colors@[glyph2(
                    font@.data.skip(font@.chars[text@[j] as int] as int),
                    gy * cw + gx,
                ) as int] by {
                    lemma_pixel_index(mid, px + j * cw + gx, py + gy);
                    if j == k {
                        assert(px + j * cw + gx == cx + gx);
                        assert(self@.pixel(cx + gx, py + gy) == colors@[glyph2(
                            glyph@,
                            gy * cw + gx,
                        ) as int]);
                    } else {
                        // The cell of glyph j ends before the cell of glyph k
                        // begins, so this image call left it alone.
                        vstd::arithmetic::mul::lemma_mul_inequality(j + 1, k as int, cw as int);
                        assert(px + (j + 1) * cw <= px + k * cw);
                        assert((j + 1) * cw == j * cw + cw) by (nonlinear_arith);
                        assert(mid.pixel(px + j * cw + gx, py + gy) == colors@[glyph2(
                            font@.data.skip(font@.chars[text@[j] as int] as int),
                            gy * cw + gx,
                        ) as int]);
                        let i = (py + gy) * (pre.width as int) + (px + j * cw + gx);
                        assert(!(in_rect(
                            i,
                            pre.width as int,
                            cx as int,
                            py as int,
                            cx + cw,
                            py + ch,
                        )));
                        assert(self@.pixels[i] == mid.pixels[i]);
                    }
                };
                assert forall|i: int|
                    0 <= i < pre.pixels.len() && !(pre.in_clip_at(i) && px <= col(
                        i,
                        pre.width as int,
                    ) < px + (k + 1) * cw && py <= row(i, pre.width as int) < py + ch)
                        implies #[trigger] self@.pixels[i] == pre.pixels[i] by {
                    assert((k + 1) * cw == k * cw + cw) by (nonlinear_arith);
                    assert(0 <= k * cw) by (nonlinear_arith)
                        requires
                            0 <= k,
                            0 <= cw,
                    ;
                    if pre.in_clip_at(i) && in_rect(
                        i,
                        pre.width as int,
                        cx as int,
                        py as int,
                        cx + cw,
                        py + ch,
                    ) {
                        assert(false);
                    } else {
                        assert(self@.pixels[i] == mid.pixels[i]);
                        assert(mid.pixels[i] == pre.pixels[i]);
                    }
                };
            }
            cx = cx + cw;
            k = k + 1;
            proof {
                assert(px + k * cw == px + (k - 1) * cw + cw) by (nonlinear_arith);
            }
            if cx >= self.width {
                proof {
                    assert forall|j: int|
                        k <= j < text@.len() implies !glyph_drawn(
                        px as int,
                        cw as int,
                        pre.width as int,
                        j,
                    ) by {
                        vstd::arithmetic::mul::lemma_mul_inequality(k as int, j, cw as int);
                        assert(px + k * cw <= px + j * cw);
                    };
                    vstd::arithmetic::mul::lemma_mul_inequality(
                        k as int,
                        text@.len() as int,
                        cw as int,
                    );
                }
                return ;
            }
        }
    }

    /// Copy the half-open source rectangle `[x1, x2) x [y1, y2)` so that
    /// its top-left corner lands on `(dx, dy)`.  The source is clamped to
    /// the screen and the destination to the clip rectangle, both by the
    /// same shift, so the copy offset is preserved; when the destination
    /// does not start after the source in memory order, or their row
    /// ranges are disjoint, the copied pixels receive the old source
    /// values exactly.
    pub fn copy_rect(&mut self, x1: u16, y1: u16, x2: u16, y2: u16, dx: u16, dy: u16)
        requires
            old(self)@.wf(),
        ensures
            final(self)@.wf(),
            old(self)@.same_frame(final(self)@),
            forall|i: int|
                0 <= i < old(self)@.pixels.len() && !old(self)@.in_clip_at(i)
                    ==> #[trigger] final(self)@.pixels[i] == old(self)@.pixels[i],
            forall|i: int|
                0 <= i < old(self)@.pixels.len() && #[trigger] final(self)@.pixels[i] != old(
                    self,
                )@.pixels[i] ==> (0 <= i + (y1 - dy) * old(self)@.width + (x1 - dx) < old(
                    self,
                )@.pixels.len() && (dy * old(self)@.width + dx <= y1 * old(self)@.width + x1 || dy
                    >= y2) ==> final(self)@.pixels[i] == old(self)@.pixels[i + (y1 - dy) * old(
                    self,
                )@.width + (x1 - dx)]),
            forall|i: int|
                0 <= i < old(self)@.pixels.len() && !in_rect(
                    i,
                    old(self)@.width as int,
                    dx as int,
                    dy as int,
                    dx + (if x2 > x1 {
                        (x2 - x1) as int
                    } else {
                        0
                    }),
                    dy + (if y2 > y1 {
                        (y2 - y1) as int
                    } else {
                        0
                    }),
                ) ==> #[trigger] final(self)@.pixels[i] == old(self)@.pixels[i],
            (x1 < x2 <= old(self)@.width && y1 < y2 <= old(self)@.height && old(self)@.clip1.0
                <= dx && old(self)@.clip1.1 <= dy && dx + (x2 - x1) <= old(self)@.clip2.0 && dy + (
            y2 - y1) <= old(self)@.clip2.1 && (dy * old(self)@.width + dx <= y1 * old(
                self,
            )@.width + x1 || dy >= y2)) ==> (forall|i: int|
                0 <= i < old(self)@.pixels.len() && in_rect(
                    i,
                    old(self)@.width as int,
                    dx as int,
                    dy as int,
                    dx + (x2 - x1),
                    dy + (y2 - y1),
                ) ==> #[trigger] final(self)@.pixels[i] == old(self)@.pixels[i + (y1 - dy) * old(
                    self,
                )@.width + (x1 - dx)]),
    {
        let ghost pre = self@;
        if x1 >= self.width || y1 >= self.height {
            return ;
        }
        let mut sx = x1;
        let mut sy = y1;
        let mut ddx = dx;
        let mut ddy = dy;
        let mut nx = if x2 > x1 { x2 - x1 } else { 0 };
        let mut ny = if y2 > y1 { y2 - y1 } else { 0 };
        if nx > self.width - sx {
            nx = self.width - sx;
        }
        if ny > self.height - sy {
            ny = self.height - sy;
        }
        if ddx < self.clip1.0 {
            let shift = self.clip1.0 - ddx;
            if shift >= nx {
                return ;
            }
            nx = nx - shift;
            if sx + shift >= self.width {
                return ;
            }
            sx = sx + shift;
            ddx = self.clip1.0;
        }
        if ddy < self.clip1.1 {
            let shift = self.clip1.1 - ddy;
            if shift >= ny {
                return ;
            }
            ny = ny - shift;
            if sy + shift >= self.height {
                return ;
            }
            sy = sy + shift;
            ddy = self.clip1.1;
        }
        if ddx >= self.clip2.0 || ddy >= self.clip2.1 {
            return ;
        }
        if nx > self.clip2.0 - ddx {
            nx = self.clip2.0 - ddx;
        }
        if ny > self.clip2.1 - ddy {
            ny = self.clip2.1 - ddy;
        }
        if nx == 0 || ny == 0 {
            return ;
        }
        proof {
            assert((sy + ny) * pre.width <= pre.height * pre.width && (ddy + ny) * pre.width
                <= pre.height * pre.width && pre.height * pre.width <= pre.width * pre.height)
                by (nonlinear_arith)
                requires
                    0 <= sy + ny <= pre.height,
                    0 <= ddy + ny <= pre.height,
                    0 <= pre.width,
            ;
        }
        let w = self.width;
        self.impls.copy_rect(&mut self.buf, w, sx, sy, ddx, ddy, nx, ny);
        proof {
            assert forall|i: int|
                0 <= i < pre.pixels.len() && !pre.in_clip_at(i) implies #[trigger] self@.pixels[i]
                == pre.pixels[i] by {
                if in_rect(i, pre.width as int, ddx as int, ddy as int, ddx + nx, ddy + ny) {
                    assert(pre.clip1.0 <= col(i, pre.width as int) < pre.clip2.0);
                    assert(pre.clip1.1 <= row(i, pre.width as int) < pre.clip2.1);
                }
            };
            if dy * pre.width + dx <= y1 * pre.width + x1 || dy >= y2 {
                assert(ddy * pre.width + ddx <= sy * pre.width + sx || ddy >= sy + ny)
                    by (nonlinear_arith)
                    requires
                        dy * pre.width + dx <= y1 * pre.width + x1 || dy >= y2,
                        sy - ddy == y1 - dy,
                        sx - ddx == x1 - dx,
                        dy <= ddy,
                        y1 <= sy,
                        sy + ny <= y2,
                        0 <= pre.width,
                ;
            }
            assert forall|i: int|
                0 <= i < pre.pixels.len() && #[trigger] self@.pixels[i] != pre.pixels[i] implies (0
                <= i + (y1 - dy) * pre.width + (x1 - dx) < pre.pixels.len() && (dy * pre.width + dx
                <= y1 * pre.width + x1 || dy >= y2) ==> self@.pixels[i] == pre.pixels[i + (y1 - dy)
                * pre.width + (x1 - dx)]) by {
                assert(in_rect(i, pre.width as int, ddx as int, ddy as int, ddx + nx, ddy + ny));
                assert(i + (sy - ddy) * pre.width + (sx - ddx) == i + (y1 - dy) * pre.width + (x1
                    - dx)) by (nonlinear_arith)
                    requires
                        sy - ddy == y1 - dy,
                        sx - ddx == x1 - dx,
                ;
            };
        }
    }
}

} // verus!
