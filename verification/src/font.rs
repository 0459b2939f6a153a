//! Glyph tables: packed 2-bit-per-pixel bitmaps with per-glyph offsets.
//!
//! Glyph pixels are packed 2 bits each, 4 pixels per byte, row-major, with
//! the low-order bit pair first.  The bitmap bytes themselves are device
//! assets supplied at composition time; the table layout and the fixed
//! character-cell sizes are what this module pins down.

use vstd::prelude::*;

verus! {

/// Bytes one glyph of `w` by `h` pixels occupies at 2 bits per pixel.
pub open spec fn glyph_bytes(w: u16, h: u16) -> int {
    (w * h + 3) / 4
}

/// Mathematical image of a [`Font`].
pub ghost struct FontModel {
    /// Bitmap data, 2 bits per pixel.
    pub data: Seq<u8>,
    /// Starting byte of each of the 256 glyphs in the data.
    pub chars: Seq<usize>,
    /// Width of every char.
    pub charw: u16,
    /// Height of every char.
    pub charh: u16,
}

impl FontModel {
    /// A usable font: 256 glyph offsets, a sane cell size, and every
    /// glyph's packed pixels in bounds of the bitmap data.
    pub open spec fn wf(self) -> bool {
        &&& self.chars.len() == 256
        &&& 1 <= self.charw <= 64
        &&& 1 <= self.charh <= 64
        &&& forall|c: int|
            0 <= c < 256 ==> #[trigger] self.chars[c] + glyph_bytes(self.charw, self.charh)
                <= self.data.len()
    }
}

/// A fixed-cell bitmap font.
pub struct Font {
    data: Vec<u8>,
    chars: Vec<usize>,
    charw: u16,
    charh: u16,
}

impl View for Font {
    type V = FontModel;

    closed spec fn view(&self) -> FontModel {
        FontModel {
            data: self.data@,
            chars: self.chars@,
            charw: self.charw,
            charh: self.charh,
        }
    }
}

impl Font {
    /// Build a font from its bitmap data and glyph offset table.
    pub fn new(data: Vec<u8>, chars: Vec<usize>, charw: u16, charh: u16) -> (r: Font)
        requires
            chars@.len() == 256,
            1 <= charw <= 64,
            1 <= charh <= 64,
            forall|c: int|
                0 <= c < 256 ==> #[trigger] chars@[c] + glyph_bytes(charw, charh) <= data@.len(),
        ensures
            r@ == (FontModel { data: data@, chars: chars@, charw, charh }),
            r@.wf(),
    {
        Font { data, chars, charw, charh }
    }

    /// A font of the given cell size whose glyphs are all blank
    /// (every pixel selects palette slot 0).
    pub fn blank(charw: u16, charh: u16) -> (r: Font)
        requires
            1 <= charw <= 64,
            1 <= charh <= 64,
        ensures
            r@.wf(),
            r@.charw == charw,
            r@.charh == charh,
            forall|i: int| 0 <= i < r@.data.len() ==> r@.data[i] == 0,
            forall|c: int| 0 <= c < 256 ==> r@.chars[c] == 0,
    {
        proof {
            assert(charw * charh <= 4096) by (nonlinear_arith)
                requires
                    1 <= charw <= 64,
                    1 <= charh <= 64,
            ;
        }
        let n: usize = ((charw as usize) * (charh as usize) + 3) / 4;
        let mut data: Vec<u8> = Vec::new();
        let mut i: usize = 0;
        while i < n
            invariant
                i <= n,
                data@.len() == i,
                forall|k: int| 0 <= k < i ==> data@[k] == 0,
            decreases n - i,
        {
            data.push(0);
            i = i + 1;
        }
        let mut chars: Vec<usize> = Vec::new();
        let mut c: usize = 0;
        while c < 256
            invariant
                c <= 256,
                chars@.len() == c,
                forall|k: int| 0 <= k < c ==> chars@[k] == 0,
            decreases 256 - c,
        {
            chars.push(0);
            c = c + 1;
        }
        Font { data, chars, charw, charh }
    }

    /// Pixel width and height of every character cell.
    pub fn size(&self) -> (r: (u16, u16))
        ensures
            r == (self@.charw, self@.charh),
    {
        (self.charw, self.charh)
    }

    /// The packed bitmap of glyph `chr`: the data from that glyph's
    /// starting byte on.
    pub fn data(&self, chr: u8) -> (r: &[u8])
        requires
            self@.wf(),
        ensures
            r@ == self@.data.subrange(self@.chars[chr as int] as int, self@.data.len() as int),
            r@.len() >= glyph_bytes(self@.charw, self@.charh),
    {
        let start = self.chars[chr as usize];
        vstd::slice::slice_subrange(self.data.as_slice(), start, self.data.len())
    }
}

/// The four stock fonts, from smallest to largest: the console font, a
/// light variant of the medium size, the medium font, and the large font.
/// Their glyph bitmaps are device assets; loaded here blank, they can be
/// replaced by [`Font::new`] at composition time.
pub fn default_fonts() -> (r: Vec<Font>)
    ensures
        r@.len() == 4,
        forall|i: int| 0 <= i < 4 ==> (#[trigger] r@[i]@).wf(),
        r@[0]@.charw == 6 && r@[0]@.charh == 8,
{
    let mut fonts: Vec<Font> = Vec::new();
    fonts.push(Font::blank(6, 8));
    fonts.push(Font::blank(8, 16));
    fonts.push(Font::blank(8, 16));
    fonts.push(Font::blank(20, 40));
    fonts
}

} // verus!
