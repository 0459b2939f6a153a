//! Protocol and rendering core for a 480x128 serial touch display.
//!
//! The display multiplexes two surfaces over one UART byte stream: an
//! ANSI-terminal console and a host-programmable graphics surface.  The
//! stream interleaves plain terminal text, ANSI CSI escape sequences and a
//! length-prefixed binary graphics protocol, distinguished only by escape
//! characters and explicit lengths.
//!
//! The crate is organised leaf to root:
//! - [`codec`]: the packed 2-byte position encoding and decimal parsing;
//! - [`font`]: packed 2-bit-per-pixel glyph tables;
//! - [`framebuf`]: the clipped drawing engine over a pixel-index buffer;
//! - [`console`]: the terminal emulator and the color lookup table;
//! - [`interface`]: the escape/framing state machine and the binary
//!   command interpreter.

use vstd::prelude::*;

pub mod codec;
pub mod console;
pub mod font;
pub mod framebuf;
pub mod interface;

verus! {

/// Width of the visible screen in pixels.
pub const WIDTH: u16 = 480;

/// Height of the visible screen in pixels.
pub const HEIGHT: u16 = 128;

/// Width of a character cell in the console output.
pub const CHARW: u16 = 6;

/// Height of a character cell in the console output.
pub const CHARH: u16 = 8;

} // verus!
