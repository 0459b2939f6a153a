//! The command interface to a client: the escape/framing state machine
//! and the binary graphics command interpreter.
//!
//! One byte stream interleaves three sub-languages.  A lone escape
//! introduces an ANSI sequence for the console; a doubled escape
//! introduces a length-prefixed binary frame for the graphics surface;
//! anything else is terminal text.  The binary protocol is
//! self-delimiting through its length byte, so payloads may contain any
//! byte value, the escape included.  After a terminal erase-screen
//! sequence the stream is additionally watched for the boot banner of
//! the attached subsystem, which resets the display when it appears.

use vstd::prelude::*;

use crate::codec::{pos_from_bytes, pos_to_bytes, spec_pos_from_bytes, spec_pos_to_bytes};
use crate::console::{
    spec_char_cursor, spec_csi_args, spec_csi_cursor, spec_sgr, spec_str_cursor, Console,
    ConsoleModel,
};
use crate::font::{Font, FontModel};
use crate::framebuf::{clamp, in_rect, spec_rect_clip, Display, FbImpl, FrameModel, Palette};
use crate::{HEIGHT, WIDTH};

verus! {

/// The escape character.
pub const ESCAPE: u8 = 0x1b;

/// Switch the visible surface to graphics.
pub const CMD_MODE_GRAPHICS: u8 = 0x20;

/// Switch the visible surface to the console.
pub const CMD_MODE_CONSOLE: u8 = 0x21;

/// Set the drawing position.
pub const CMD_SET_POS: u8 = 0x30;

/// Select a font by table index.
pub const CMD_SET_FONT: u8 = 0x31;

/// Set the 4-slot drawing palette.
pub const CMD_SET_COLOR: u8 = 0x32;

/// Set (or, without data, reset) the clip rectangle.
pub const CMD_SET_CLIP: u8 = 0x33;

/// Clear the graphics screen to one color.
pub const CMD_CLEAR: u8 = 0x40;

/// Draw a polyline through packed positions.
pub const CMD_LINES: u8 = 0x41;

/// Fill a rectangle between two packed positions.
pub const CMD_RECT: u8 = 0x42;

/// Draw a stock image by table index.
pub const CMD_IMAGE: u8 = 0x43;

/// Draw text at the drawing position.
pub const CMD_TEXT: u8 = 0x44;

/// Copy a rectangle to a new position.
pub const CMD_COPYRECT: u8 = 0x45;

/// Draw a sparkline from a variable-width y-coordinate stream.
pub const CMD_PLOT: u8 = 0x46;

/// Reply carrying a touch position (never received, only sent).
pub const CMD_TOUCH: u8 = 0x50;

/// Choose whether touch events go to the host or switch surfaces.
pub const CMD_TOUCH_MODE: u8 = 0x51;

/// Set the touch calibration values.
pub const CMD_TOUCH_CALIB: u8 = 0x52;

/// First of the 32 save-attributes commands.
pub const CMD_SAVE_ATTRS: u8 = 0xa0;

/// Last of the 32 save-attributes commands.
pub const CMD_SAVE_ATTRS_MAX: u8 = 0xbf;

/// First of the 32 select-attributes commands.
pub const CMD_SEL_ATTRS: u8 = 0xc0;

/// Last of the 32 select-attributes commands.
pub const CMD_SEL_ATTRS_MAX: u8 = 0xdf;

/// Enter the bootloader (guarded by the magic token).
pub const CMD_BOOTMODE: u8 = 0xf0;

/// Reset the display (guarded by the magic token).
pub const CMD_RESET: u8 = 0xf1;

/// Store the startup macro blob.
pub const CMD_SET_STARTUP: u8 = 0xf2;

/// Identify the firmware over the link.
pub const CMD_IDENT: u8 = 0xf3;

/// Reset the attached subsystem (guarded by the magic token).
pub const CMD_RESET_APU: u8 = 0xf4;

/// Reinstall the attached subsystem (guarded by the magic token).
pub const CMD_APU_REINSTALL: u8 = 0xf5;

/// The firmware identity reply: customer, mode, version major.minor.
pub const IDENT_CUSTOMER: u8 = 0;

/// Mode byte of the identity reply: 0 is the normal firmware.
pub const IDENT_MODE: u8 = 0;

/// Major version in the identity reply.
pub const VER_MAJOR: u8 = 1;

/// Minor version in the identity reply.
pub const VER_MINOR: u8 = 21;

/// The boot banner the attached subsystem prints right after its own
/// erase-screen sequence: `ESC [ 0 m` followed by the BIOS name.
pub open spec fn spec_boot_banner() -> Seq<u8> {
    seq![0x1b, 0x5b, 0x30, 0x6d, 0x53, 0x65, 0x61, 0x42, 0x49, 0x4f, 0x53, 0x20]
}

/// Byte `i` of the boot banner.
fn boot_banner_byte(i: usize) -> (r: u8)
    requires
        i < 12,
    ensures
        r == spec_boot_banner()[i as int],
{
    match i {
        0 => 0x1b,
        1 => 0x5b,
        2 => 0x30,
        3 => 0x6d,
        4 => 0x53,
        5 => 0x65,
        6 => 0x61,
        7 => 0x42,
        8 => 0x49,
        9 => 0x4f,
        10 => 0x53,
        _ => 0x20,
    }
}

/// All stateful settings for graphics drawing.
#[derive(Clone, Copy)]
pub struct GraphicsSetting {
    /// Drawing x position.
    pub posx: u16,
    /// Drawing y position.
    pub posy: u16,
    /// Top-left corner of the clip rectangle, as last requested.
    pub clip1: (u16, u16),
    /// Bottom-right (exclusive) corner of the clip rectangle, as last
    /// requested.
    pub clip2: (u16, u16),
    /// Font table index.
    pub font: u8,
    /// 4-slot drawing palette.
    pub pal: Palette,
}

impl GraphicsSetting {
    /// A setting usable against a font table of `nfonts` entries.
    pub open spec fn wf(self, nfonts: int) -> bool {
        &&& self.posx < 512
        &&& self.posy < 128
        &&& (self.font as int) < nfonts
    }
}

/// The power-on drawing state: origin position, full-screen clip, the
/// first font, an all-zero palette.
pub open spec fn spec_default_setting() -> GraphicsSetting {
    GraphicsSetting {
        posx: 0,
        posy: 0,
        clip1: (0, 0),
        clip2: (WIDTH, HEIGHT),
        font: 0,
        pal: [0, 0, 0, 0],
    }
}

impl Default for GraphicsSetting {
    /// The power-on drawing state.
    fn default() -> (r: Self)
        ensures
            r == spec_default_setting(),
    {
        GraphicsSetting {
            posx: 0,
            posy: 0,
            clip1: (0, 0),
            clip2: (WIDTH, HEIGHT),
            font: 0,
            pal: [0, 0, 0, 0],
        }
    }
}

/// A stock image: packed 2-bit-per-pixel data with a default palette.
pub struct Image {
    data: Vec<u8>,
    width: u16,
    height: u16,
    pal: Palette,
}

/// Mathematical image of an [`Image`].
pub ghost struct ImageModel {
    /// Packed pixel data.
    pub data: Seq<u8>,
    /// Width in pixels.
    pub width: u16,
    /// Height in pixels.
    pub height: u16,
    /// Default palette.
    pub pal: Seq<u8>,
}

impl ImageModel {
    /// Invariant: a size the drawing engine accepts, fully backed by
    /// packed data.
    pub open spec fn wf(self) -> bool {
        &&& self.width <= 512
        &&& self.height <= 512
        &&& (self.width * self.height + 3) / 4 <= self.data.len()
        &&& self.pal.len() == 4
    }
}

impl View for Image {
    type V = ImageModel;

    closed spec fn view(&self) -> ImageModel {
        ImageModel { data: self.data@, width: self.width, height: self.height, pal: self.pal@ }
    }
}

impl Image {
    /// Build a stock image from its packed data, size and default
    /// palette.
    pub fn new(data: Vec<u8>, width: u16, height: u16, pal: Palette) -> (r: Image)
        requires
            width <= 512,
            height <= 512,
            (width * height + 3) / 4 <= data@.len(),
        ensures
            r@ == (ImageModel { data: data@, width, height, pal: pal@ }),
            r@.wf(),
    {
        Image { data, width, height, pal }
    }
}

/// Actions that the interface delegates to the embedding layer.
pub enum Action {
    /// Reset the display firmware.
    Reset,
    /// Reset into the bootloader.
    Bootloader,
    /// Reset the attached subsystem.
    ResetApu,
    /// Reinstall the attached subsystem.
    ApuReinstall,
    /// Store the startup macro: length slot, data slot, blob.
    WriteEeprom(usize, usize, Vec<u8>),
}

/// Spec-level image of an [`Action`].
pub ghost enum ActionModel {
    /// Reset the display firmware.
    Reset,
    /// Reset into the bootloader.
    Bootloader,
    /// Reset the attached subsystem.
    ResetApu,
    /// Reinstall the attached subsystem.
    ApuReinstall,
    /// Store the startup macro: length slot, data slot, blob.
    WriteEeprom(int, int, Seq<u8>),
}

/// The spec-level value of an action.
pub open spec fn action_view(a: Action) -> ActionModel {
    match a {
        Action::Reset => ActionModel::Reset,
        Action::Bootloader => ActionModel::Bootloader,
        Action::ResetApu => ActionModel::ResetApu,
        Action::ApuReinstall => ActionModel::ApuReinstall,
        Action::WriteEeprom(l, d, v) => ActionModel::WriteEeprom(l as int, d as int, v@),
    }
}

/// The spec-level value of an optional action.
pub open spec fn opt_action_view(r: Option<Action>) -> Option<ActionModel> {
    match r {
        Option::Some(a) => Option::Some(action_view(a)),
        Option::None => Option::None,
    }
}

/// State machine for escape-sequence parsing.
#[derive(Clone, Copy)]
pub enum Escape {
    /// Plain terminal text.
    Idle,
    /// One escape seen.
    SawEscape,
    /// Inside an ANSI CSI sequence; the buffered parameter count.
    Csi(usize),
    /// Inside a binary frame; bytes buffered and total frame length.
    BinaryFrame(usize, usize),
    /// Watching for the boot banner; bytes matched so far.
    WatchingBootBanner(usize),
}

/// The control-plane state of the display: everything the byte stream
/// drives except pixel contents.  This is the state the protocol's
/// transition function is written over.
pub ghost struct CtrlState {
    /// Escape parsing state.
    pub escape: Escape,
    /// The shared 256-byte scratch buffer for in-flight sequences.
    pub seq: Seq<u8>,
    /// Console cursor column.
    pub cx: u16,
    /// Console cursor row.
    pub cy: u16,
    /// Console pending-wrap flag.
    pub wrap: bool,
    /// Console 2-slot palette.
    pub color: Seq<u8>,
    /// Current graphics drawing settings.
    pub cur: GraphicsSetting,
    /// The 32 saved settings.
    pub saved: Seq<GraphicsSetting>,
    /// Clip rectangle the graphics framebuffer currently enforces
    /// (top-left corner).
    pub gclip1: (u16, u16),
    /// Clip rectangle the graphics framebuffer currently enforces
    /// (exclusive bottom-right corner).
    pub gclip2: (u16, u16),
    /// Whether the graphics surface is the visible one.
    pub gfx_mode: bool,
    /// Whether touch events are forwarded to the host.
    pub fwd_touch: bool,
    /// Touch calibration values.
    pub calib: (u16, u16, u16, u16),
    /// Bytes queued for the host.
    pub sent: Seq<u8>,
    /// Size of the font table.
    pub nfonts: int,
    /// Size of the image table.
    pub nimages: int,
}

/// The clip rectangle the graphics framebuffer enforces after a
/// `set_clip` request: both corners clamped to the screen, the second
/// corner not above the first.
pub open spec fn spec_gfx_clip(c1: (u16, u16), c2: (u16, u16)) -> ((u16, u16), (u16, u16)) {
    let c1c = (
        (clamp(c1.0 as int, 0, WIDTH as int) as u16),
        (clamp(c1.1 as int, 0, HEIGHT as int) as u16),
    );
    (
        c1c,
        (
            (clamp(c2.0 as int, c1c.0 as int, WIDTH as int) as u16),
            (clamp(c2.1 as int, c1c.1 as int, HEIGHT as int) as u16),
        ),
    )
}

/// Whether a privileged command's data carries the compiled-in magic
/// token.
pub open spec fn spec_magic_ok(frame: Seq<u8>) -> bool {
    frame.len() >= 6 && frame[2] == 0xcb && frame[3] == 0xef && frame[4] == 0x20 && frame[5]
        == 0x18
}

/// The control-plane effect of one complete binary frame
/// `frame = [len_byte, command, data...]`: which settings change, which
/// flags flip, what is queued for the host, and which action is handed
/// up.  Commands with too little data, unknown commands, and privileged
/// commands without the magic token do nothing.
pub open spec fn spec_command(s: CtrlState, frame: Seq<u8>) -> (CtrlState, Option<ActionModel>) {
    let cmd = frame[1];
    let dlen = frame.len() - 2;
    if cmd == CMD_MODE_GRAPHICS {
        ((CtrlState { gfx_mode: true, ..s }), None)
    } else if cmd == CMD_MODE_CONSOLE {
        ((CtrlState { gfx_mode: false, ..s }), None)
    } else if cmd == CMD_SET_POS {
        if dlen >= 2 {
            let p = spec_pos_from_bytes(frame[2], frame[3]);
            (
                (CtrlState {
                    cur: GraphicsSetting { posx: p.0, posy: p.1, ..s.cur },
                    ..s
                }),
                None,
            )
        } else {
            (s, None)
        }
    } else if cmd == CMD_SET_FONT {
        if dlen >= 1 && (frame[2] as int) < s.nfonts {
            ((CtrlState { cur: GraphicsSetting { font: frame[2], ..s.cur }, ..s }), None)
        } else {
            (s, None)
        }
    } else if cmd == CMD_SET_COLOR {
        if dlen >= 4 {
            (
                (CtrlState {
                    cur: GraphicsSetting {
                        pal: [frame[2], frame[3], frame[4], frame[5]],
                        ..s.cur
                    },
                    ..s
                }),
                None,
            )
        } else {
            (s, None)
        }
    } else if cmd == CMD_SET_CLIP {
        let c1 = if dlen >= 4 {
            spec_pos_from_bytes(frame[2], frame[3])
        } else {
            (0u16, 0u16)
        };
        let c2 = if dlen >= 4 {
            spec_pos_from_bytes(frame[4], frame[5])
        } else {
            (WIDTH, HEIGHT)
        };
        let g = spec_gfx_clip(c1, c2);
        (
            (CtrlState {
                cur: GraphicsSetting { clip1: c1, clip2: c2, ..s.cur },
                gclip1: g.0,
                gclip2: g.1,
                ..s
            }),
            None,
        )
    } else if CMD_SEL_ATTRS <= cmd <= CMD_SEL_ATTRS_MAX {
        let slot = (cmd - CMD_SEL_ATTRS) as int;
        let setting = s.saved[slot];
        let g = spec_gfx_clip(setting.clip1, setting.clip2);
        ((CtrlState { cur: setting, gclip1: g.0, gclip2: g.1, ..s }), None)
    } else if CMD_SAVE_ATTRS <= cmd <= CMD_SAVE_ATTRS_MAX {
        let slot = (cmd - CMD_SAVE_ATTRS) as int;
        ((CtrlState { saved: s.saved.update(slot, s.cur), ..s }), None)
    } else if cmd == CMD_BOOTMODE {
        if spec_magic_ok(frame) {
            (s, Some(ActionModel::Bootloader))
        } else {
            (s, None)
        }
    } else if cmd == CMD_RESET {
        if spec_magic_ok(frame) {
            (s, Some(ActionModel::Reset))
        } else {
            (s, None)
        }
    } else if cmd == CMD_RESET_APU {
        if spec_magic_ok(frame) {
            (s, Some(ActionModel::ResetApu))
        } else {
            (s, None)
        }
    } else if cmd == CMD_APU_REINSTALL {
        if spec_magic_ok(frame) {
            (s, Some(ActionModel::ApuReinstall))
        } else {
            (s, None)
        }
    } else if cmd == CMD_SET_STARTUP {
        (s, Some(ActionModel::WriteEeprom(0, 64, frame.skip(2))))
    } else if cmd == CMD_TOUCH_MODE {
        if dlen >= 1 {
            ((CtrlState { fwd_touch: frame[2] > 0, ..s }), None)
        } else {
            (s, None)
        }
    } else if cmd == CMD_TOUCH_CALIB {
        if dlen >= 4 {
            (
                (CtrlState {
                    calib: (
                        frame[2] as u16,
                        frame[3] as u16,
                        frame[4] as u16,
                        frame[5] as u16,
                    ),
                    ..s
                }),
                None,
            )
        } else {
            (s, None)
        }
    } else if cmd == CMD_IDENT {
        (
            (CtrlState {
                sent: s.sent + seq![
                    ESCAPE,
                    ESCAPE,
                    5u8,
                    CMD_IDENT,
                    IDENT_CUSTOMER,
                    IDENT_MODE,
                    VER_MAJOR,
                    VER_MINOR,
                ],
                ..s
            }),
            None,
        )
    } else {
        // Drawing commands change pixels only; unknown commands are
        // dropped silently.
        (s, None)
    }
}

/// The console-cursor and color part of a CSI dispatch, applied to the
/// control state.
pub open spec fn spec_apply_csi(s: CtrlState, end: u8, params: Seq<u8>) -> CtrlState {
    let t = spec_csi_cursor(s.cx, s.cy, s.wrap, end, spec_csi_args(params));
    CtrlState {
        cx: t.0,
        cy: t.1,
        wrap: t.2,
        color: if end == 0x6d {
            spec_sgr(s.color, spec_csi_args(params))
        } else {
            s.color
        },
        ..s
    }
}

/// The control state after abandoning the boot-banner watch with `p`
/// bytes matched: the matched prefix is replayed through the ordinary
/// escape parsing.  Up to three bytes the prefix only re-enters escape
/// parsing; from four bytes on it dispatches the SGR reset and prints
/// the matched name characters.
pub open spec fn spec_banner_replay(s: CtrlState, p: int) -> CtrlState {
    let s1 = if p >= 4 {
        let s0 = spec_apply_csi(s, 0x6d, seq![0x30u8]);
        let t = spec_str_cursor(s0.cx, s0.cy, s0.wrap, spec_boot_banner().skip(4).take(p - 4));
        CtrlState { cx: t.0, cy: t.1, wrap: t.2, ..s0 }
    } else {
        s
    };
    let s2 = if p >= 3 {
        CtrlState { seq: s1.seq.update(0, 0x30), ..s1 }
    } else {
        s1
    };
    CtrlState {
        escape: if p == 0 {
            Escape::Idle
        } else if p == 1 {
            Escape::SawEscape
        } else if p == 2 {
            Escape::Csi(0)
        } else if p == 3 {
            Escape::Csi(1)
        } else {
            Escape::Idle
        },
        ..s2
    }
}

/// Whether a byte is buffered inside a CSI sequence rather than ending
/// it: ASCII digits, the parameter separator, and the DEC marker.
pub open spec fn spec_csi_buffered(ch: u8) -> bool {
    (0x30 <= ch <= 0x39) || ch == 0x3b || ch == 0x3f
}

/// The control-plane transition of the escape/framing state machine for
/// one received byte: the new control state and the action handed up.
pub open spec fn spec_step(s: CtrlState, ch: u8) -> (CtrlState, Option<ActionModel>)
    decreases (match s.escape {
        Escape::WatchingBootBanner(_) => 1int,
        _ => 0int,
    }),
{
    match s.escape {
        Escape::Idle => {
            if ch == ESCAPE {
                ((CtrlState { escape: Escape::SawEscape, ..s }), None)
            } else {
                let t = spec_char_cursor(s.cx, s.cy, s.wrap, ch);
                ((CtrlState { cx: t.0, cy: t.1, wrap: t.2, ..s }), None)
            }
        },
        Escape::SawEscape => {
            if ch == ESCAPE {
                ((CtrlState { escape: Escape::BinaryFrame(0, 0), ..s }), None)
            } else if ch == 0x5b {
                ((CtrlState { escape: Escape::Csi(0), ..s }), None)
            } else if ch == 0x4d {
                (
                    (CtrlState {
                        escape: Escape::Idle,
                        ..spec_apply_csi(s, 0x4c, seq![0x31u8])
                    }),
                    None,
                )
            } else {
                ((CtrlState { escape: Escape::Idle, ..s }), None)
            }
        },
        Escape::Csi(p) => {
            if spec_csi_buffered(ch) {
                (
                    (CtrlState {
                        escape: if p + 1 == 256 {
                            Escape::Idle
                        } else {
                            Escape::Csi((p + 1) as usize)
                        },
                        seq: s.seq.update(p as int, ch),
                        ..s
                    }),
                    None,
                )
            } else {
                (
                    (CtrlState {
                        escape: if ch == 0x4a {
                            Escape::WatchingBootBanner(0)
                        } else {
                            Escape::Idle
                        },
                        ..spec_apply_csi(s, ch, s.seq.take(p as int))
                    }),
                    None,
                )
            }
        },
        Escape::BinaryFrame(p, l) => {
            if l == 0 {
                if ch == 0 {
                    ((CtrlState { escape: Escape::Idle, ..s }), None)
                } else {
                    (
                        (CtrlState {
                            escape: Escape::BinaryFrame(1, (ch + 1) as usize),
                            seq: s.seq.update(0, ch),
                            ..s
                        }),
                        None,
                    )
                }
            } else {
                let seq2 = s.seq.update(p as int, ch);
                if p + 1 == l {
                    let r = spec_command(
                        CtrlState { escape: Escape::Idle, seq: seq2, ..s },
                        seq2.take(l as int),
                    );
                    (r.0, r.1)
                } else {
                    (
                        (CtrlState {
                            escape: Escape::BinaryFrame((p + 1) as usize, l),
                            seq: seq2,
                            ..s
                        }),
                        None,
                    )
                }
            }
        },
        Escape::WatchingBootBanner(p) => {
            if ch == spec_boot_banner()[p as int] {
                if p + 1 == 12 {
                    ((CtrlState { escape: Escape::Idle, ..s }), Some(ActionModel::Reset))
                } else {
                    (
                        (CtrlState {
                            escape: Escape::WatchingBootBanner((p + 1) as usize),
                            ..s
                        }),
                        None,
                    )
                }
            } else {
                spec_step(spec_banner_replay(s, p as int), ch)
            }
        },
    }
}


/// Mathematical image of a [`DisplayState`].
pub ghost struct StateModel {
    /// The graphics framebuffer.
    pub gfx: FrameModel,
    /// The console.
    pub con: ConsoleModel,
    /// The font table.
    pub fonts: Seq<FontModel>,
    /// The stock image table.
    pub images: Seq<ImageModel>,
    /// Current graphics drawing settings.
    pub cur: GraphicsSetting,
    /// The 32 saved settings.
    pub saved: Seq<GraphicsSetting>,
    /// Escape parsing state.
    pub escape: Escape,
    /// The shared scratch buffer for in-flight sequences.
    pub escape_seq: Seq<u8>,
    /// Whether the graphics surface is the visible one.
    pub gfx_mode: bool,
    /// Whether touch events are forwarded to the host.
    pub fwd_touch: bool,
    /// Touch calibration values.
    pub calib: (u16, u16, u16, u16),
}

impl StateModel {
    /// The control-plane projection: everything the transition function
    /// [`spec_step`] is written over.
    pub open spec fn ctrl(self) -> CtrlState {
        CtrlState {
            escape: self.escape,
            seq: self.escape_seq,
            cx: self.con.cx,
            cy: self.con.cy,
            wrap: self.con.need_wrap,
            color: self.con.color,
            cur: self.cur,
            saved: self.saved,
            gclip1: self.gfx.clip1,
            gclip2: self.gfx.clip2,
            gfx_mode: self.gfx_mode,
            fwd_touch: self.fwd_touch,
            calib: self.calib,
            sent: self.con.sent,
            nfonts: self.fonts.len() as int,
            nimages: self.images.len() as int,
        }
    }

    /// Invariant of the whole interface state.
    pub open spec fn wf(self) -> bool {
        &&& self.gfx.wf()
        &&& self.gfx.width == WIDTH
        &&& self.gfx.height == HEIGHT
        &&& self.con.wf()
        &&& 1 <= self.fonts.len() <= 255
        &&& forall|i: int| 0 <= i < self.fonts.len() ==> (#[trigger] self.fonts[i]).wf()
        &&& forall|i: int| 0 <= i < self.images.len() ==> (#[trigger] self.images[i]).wf()
        &&& self.cur.wf(self.fonts.len() as int)
        &&& self.saved.len() == 32
        &&& forall|i: int|
            0 <= i < 32 ==> (#[trigger] self.saved[i]).wf(self.fonts.len() as int)
        &&& self.escape_seq.len() == 256
        &&& match self.escape {
            Escape::Idle => true,
            Escape::SawEscape => true,
            Escape::Csi(p) => p < 256,
            Escape::BinaryFrame(p, l) => (l == 0 && p == 0) || (2 <= l <= 256 && 1 <= p < l),
            Escape::WatchingBootBanner(p) => p < 12,
        }
    }
}

/// The display controller: both surfaces, the drawing settings and
/// their save slots, and the escape/framing state machine.  It is the
/// single consumer of the raw byte stream and of touch events.
pub struct DisplayState<Fb> {
    gfx: Display<Fb>,
    con: Console<Fb>,
    fonts: Vec<Font>,
    images: Vec<Image>,
    cur: GraphicsSetting,
    saved: Vec<GraphicsSetting>,
    escape: Escape,
    escape_seq: Vec<u8>,
    gfx_mode: bool,
    fwd_touch: bool,
    calib: (u16, u16, u16, u16),
}

impl<Fb> View for DisplayState<Fb> {
    type V = StateModel;

    closed spec fn view(&self) -> StateModel {
        StateModel {
            gfx: self.gfx@,
            con: self.con@,
            fonts: Seq::new(self.fonts@.len(), |i: int| self.fonts@[i]@),
            images: Seq::new(self.images@.len(), |i: int| self.images@[i]@),
            cur: self.cur,
            saved: self.saved@,
            escape: self.escape,
            escape_seq: self.escape_seq@,
            gfx_mode: self.gfx_mode,
            fwd_touch: self.fwd_touch,
            calib: self.calib,
        }
    }
}

impl<Fb: FbImpl> DisplayState<Fb> {
    /// Assemble the display controller.  The graphics framebuffer comes
    /// up cleared to color 255 with a full-screen clip rectangle, the
    /// settings at their power-on defaults, touch events switching
    /// surfaces, and the console shown.
    pub fn new(
        gfx: Display<Fb>,
        con: Console<Fb>,
        fonts: Vec<Font>,
        images: Vec<Image>,
        calib: (u16, u16, u16, u16),
    ) -> (r: DisplayState<Fb>)
        requires
            gfx@.wf(),
            gfx@.width == WIDTH,
            gfx@.height == HEIGHT,
            gfx@.clip1 == ((0u16, 0u16)),
            gfx@.clip2 == ((WIDTH, HEIGHT)),
            con@.wf(),
            1 <= fonts@.len() <= 255,
            forall|i: int| 0 <= i < fonts@.len() ==> (#[trigger] fonts@[i]@).wf(),
            forall|i: int| 0 <= i < images@.len() ==> (#[trigger] images@[i]@).wf(),
        ensures
            r@.wf(),
            r@.escape == Escape::Idle,
            r@.cur == spec_default_setting(),
            forall|i: int| 0 <= i < 32 ==> #[trigger] r@.saved[i] == spec_default_setting(),
            r@.gfx_mode == false,
            r@.fwd_touch == false,
            r@.calib == calib,
            r@.con == con@,
            forall|i: int|
                0 <= i < r@.gfx.pixels.len() && r@.gfx.in_clip_at(i)
                    ==> #[trigger] r@.gfx.pixels[i] == 255,
            r@.gfx.same_frame(gfx@),
            forall|i: int| 0 <= i < fonts@.len() ==> #[trigger] r@.fonts[i] == fonts@[i]@,
            forall|i: int| 0 <= i < images@.len() ==> #[trigger] r@.images[i] == images@[i]@,
    {
        let mut gfx = gfx;
        gfx.clear(255);
        let mut saved: Vec<GraphicsSetting> = Vec::new();
        let mut i: usize = 0;
        while i < 32
            invariant
                i <= 32,
                saved@.len() == i,
                forall|k: int| 0 <= k < i ==> #[trigger] saved@[k] == spec_default_setting(),
            decreases 32 - i,
        {
            saved.push(GraphicsSetting::default());
            i = i + 1;
        }
        let mut escape_seq: Vec<u8> = Vec::new();
        let mut j: usize = 0;
        while j < 256
            invariant
                j <= 256,
                escape_seq@.len() == j,
            decreases 256 - j,
        {
            escape_seq.push(0);
            j = j + 1;
        }
        DisplayState {
            gfx,
            con,
            fonts,
            images,
            cur: GraphicsSetting::default(),
            saved,
            escape: Escape::Idle,
            escape_seq,
            gfx_mode: false,
            fwd_touch: false,
            calib,
        }
    }

    /// Whether the graphics surface is currently the visible one.
    pub fn is_graphics(&self) -> (r: bool)
        ensures
            r == self@.gfx_mode,
    {
        self.gfx_mode
    }

    /// The console, for direct terminal output and draining the outbox.
    pub fn console(&mut self) -> (r: &mut Console<Fb>)
        ensures
            (*r)@ == old(self)@.con,
            final(self)@ == (StateModel { con: (*final(r))@, ..old(self)@ }),
    {
        &mut self.con
    }

    /// The graphics framebuffer, for direct drawing.
    pub fn graphics(&mut self) -> (r: &mut Display<Fb>)
        ensures
            (*r)@ == old(self)@.gfx,
            final(self)@ == (StateModel { gfx: (*final(r))@, ..old(self)@ }),
    {
        &mut self.gfx
    }

    /// The current graphics drawing settings.
    pub fn setting(&self) -> (r: GraphicsSetting)
        ensures
            r == self@.cur,
    {
        self.cur
    }

    /// The current touch calibration values, for the embedding's
    /// raw-event conversion.
    pub fn touch_calib(&self) -> (r: (u16, u16, u16, u16))
        ensures
            r == self@.calib,
    {
        self.calib
    }

    /// Feed one (already converted) touch position.  In forwarding mode
    /// it is reported to the host as a synthetic touch reply; otherwise
    /// it toggles which surface is visible.
    pub fn process_touch(&mut self, x: u16, y: u16)
        requires
            old(self)@.wf(),
        ensures
            final(self)@.wf(),
            old(self)@.fwd_touch ==> final(self)@ == (StateModel {
                con: (ConsoleModel {
                    sent: old(self)@.con.sent + seq![
                        ESCAPE,
                        ESCAPE,
                        3u8,
                        CMD_TOUCH,
                        spec_pos_to_bytes(x, y).0,
                        spec_pos_to_bytes(x, y).1,
                    ],
                    ..old(self)@.con
                }),
                ..old(self)@
            }),
            !old(self)@.fwd_touch ==> final(self)@ == (StateModel {
                gfx_mode: !old(self)@.gfx_mode,
                ..old(self)@
            }),
    {
        if self.fwd_touch {
            let (b0, b1) = pos_to_bytes(x, y);
            let reply: [u8; 6] = [ESCAPE, ESCAPE, 0x03, CMD_TOUCH, b0, b1];
            self.con.write_to_host(reply.as_slice());
            proof {
                assert(old(self)@.con.sent + reply@ =~= old(self)@.con.sent + seq![
                    ESCAPE,
                    ESCAPE,
                    3u8,
                    CMD_TOUCH,
                    spec_pos_to_bytes(x, y).0,
                    spec_pos_to_bytes(x, y).1,
                ]);
            }
        } else {
            self.gfx_mode = !self.gfx_mode;
            if self.gfx_mode {
                self.gfx.activate();
            } else {
                self.con.activate();
            }
        }
    }
}


/// The commands that draw on the graphics surface.
pub open spec fn spec_is_drawing(cmd: u8) -> bool {
    cmd == CMD_CLEAR || cmd == CMD_LINES || cmd == CMD_RECT || cmd == CMD_IMAGE || cmd == CMD_TEXT
        || cmd == CMD_COPYRECT || cmd == CMD_PLOT
}

impl<Fb: FbImpl> DisplayState<Fb> {
    /// Interpret the complete binary frame sitting in the first `len`
    /// bytes of the scratch buffer.  The control-plane effect is exactly
    /// [`spec_command`]; drawing commands touch graphics pixels only
    /// inside the clip rectangle, and no command draws on the console.
    pub fn process_command(&mut self, len: usize) -> (r: Option<Action>)
        requires
            old(self)@.wf(),
            2 <= len <= 256,
        ensures
            final(self)@.wf(),
            final(self)@.ctrl() == spec_command(
                old(self)@.ctrl(),
                old(self)@.escape_seq.take(len as int),
            ).0,
            opt_action_view(r) == spec_command(
                old(self)@.ctrl(),
                old(self)@.escape_seq.take(len as int),
            ).1,
            final(self)@.fonts == old(self)@.fonts,
            final(self)@.images == old(self)@.images,
            final(self)@.con.font == old(self)@.con.font,
            final(self)@.con.fb == old(self)@.con.fb,
            final(self)@.escape == old(self)@.escape,
            final(self)@.escape_seq == old(self)@.escape_seq,
            final(self)@.gfx.width == old(self)@.gfx.width,
            final(self)@.gfx.height == old(self)@.gfx.height,
            final(self)@.gfx.pixels.len() == old(self)@.gfx.pixels.len(),
            forall|i: int|
                0 <= i < old(self)@.gfx.pixels.len() && !old(self)@.gfx.in_clip_at(i)
                    ==> #[trigger] final(self)@.gfx.pixels[i] == old(self)@.gfx.pixels[i],
            !spec_is_drawing(old(self)@.escape_seq[1]) ==> final(self)@.gfx.pixels == old(
                self,
            )@.gfx.pixels,
            old(self)@.escape_seq[1] == CMD_CLEAR && len >= 3 ==> (forall|i: int|
                0 <= i < old(self)@.gfx.pixels.len() ==> #[trigger] final(self)@.gfx.pixels[i]
                    == (if old(self)@.gfx.in_clip_at(i) {
                    old(self)@.escape_seq[2]
                } else {
                    old(self)@.gfx.pixels[i]
                })),
            old(self)@.escape_seq[1] == CMD_RECT && len >= 6 ==> (forall|i: int|
                0 <= i < old(self)@.gfx.pixels.len() ==> #[trigger] final(self)@.gfx.pixels[i]
                    == (if in_rect(
                    i,
                    old(self)@.gfx.width as int,
                    spec_rect_clip(
                        old(self)@.gfx,
                        spec_pos_from_bytes(old(self)@.escape_seq[2], old(self)@.escape_seq[3]).0
                            as int,
                        spec_pos_from_bytes(old(self)@.escape_seq[2], old(self)@.escape_seq[3]).1
                            as int,
                        spec_pos_from_bytes(old(self)@.escape_seq[4], old(self)@.escape_seq[5]).0
                            as int,
                        spec_pos_from_bytes(old(self)@.escape_seq[4], old(self)@.escape_seq[5]).1
                            as int,
                    ).0,
                    spec_rect_clip(
                        old(self)@.gfx,
                        spec_pos_from_bytes(old(self)@.escape_seq[2], old(self)@.escape_seq[3]).0
                            as int,
                        spec_pos_from_bytes(old(self)@.escape_seq[2], old(self)@.escape_seq[3]).1
                            as int,
                        spec_pos_from_bytes(old(self)@.escape_seq[4], old(self)@.escape_seq[5]).0
                            as int,
                        spec_pos_from_bytes(old(self)@.escape_seq[4], old(self)@.escape_seq[5]).1
                            as int,
                    ).1,
                    spec_rect_clip(
                        old(self)@.gfx,
                        spec_pos_from_bytes(old(self)@.escape_seq[2], old(self)@.escape_seq[3]).0
                            as int,
                        spec_pos_from_bytes(old(self)@.escape_seq[2], old(self)@.escape_seq[3]).1
                            as int,
                        spec_pos_from_bytes(old(self)@.escape_seq[4], old(self)@.escape_seq[5]).0
                            as int,
                        spec_pos_from_bytes(old(self)@.escape_seq[4], old(self)@.escape_seq[5]).1
                            as int,
                    ).2,
                    spec_rect_clip(
                        old(self)@.gfx,
                        spec_pos_from_bytes(old(self)@.escape_seq[2], old(self)@.escape_seq[3]).0
                            as int,
                        spec_pos_from_bytes(old(self)@.escape_seq[2], old(self)@.escape_seq[3]).1
                            as int,
                        spec_pos_from_bytes(old(self)@.escape_seq[4], old(self)@.escape_seq[5]).0
                            as int,
                        spec_pos_from_bytes(old(self)@.escape_seq[4], old(self)@.escape_seq[5]).1
                            as int,
                    ).3,
                ) {
                    old(self)@.cur.pal@[3]
                } else {
                    old(self)@.gfx.pixels[i]
                })),
    {
        let ghost pre = self@;
        let ghost frame = self@.escape_seq.take(len as int);
        let cmd = self.escape_seq[1];
        let data_len = len - 2;
        if cmd == CMD_MODE_GRAPHICS {
            self.gfx_mode = true;
            self.gfx.activate();
            None
        } else if cmd == CMD_MODE_CONSOLE {
            self.gfx_mode = false;
            self.con.activate();
            None
        } else if cmd == CMD_SET_POS {
            if data_len >= 2 {
                let sub = vstd::slice::slice_subrange(self.escape_seq.as_slice(), 2, 4);
                let p = pos_from_bytes(sub);
                proof {
                    assert(sub@[0] == frame[2] && sub@[1] == frame[3]);
                }
                self.cur.posx = p.0;
                self.cur.posy = p.1;
            }
            None
        } else if cmd == CMD_SET_FONT {
            if data_len >= 1 && (self.escape_seq[2] as usize) < self.fonts.len() {
                self.cur.font = self.escape_seq[2];
            }
            None
        } else if cmd == CMD_SET_COLOR {
            if data_len >= 4 {
                self.cur.pal = [
                    self.escape_seq[2],
                    self.escape_seq[3],
                    self.escape_seq[4],
                    self.escape_seq[5],
                ];
            }
            None
        } else if cmd == CMD_SET_CLIP {
            let c1: (u16, u16);
            let c2: (u16, u16);
            if data_len >= 4 {
                let sub1 = vstd::slice::slice_subrange(self.escape_seq.as_slice(), 2, 4);
                c1 = pos_from_bytes(sub1);
                let sub2 = vstd::slice::slice_subrange(self.escape_seq.as_slice(), 4, 6);
                c2 = pos_from_bytes(sub2);
                proof {
                    assert(sub1@[0] == frame[2] && sub1@[1] == frame[3]);
                    assert(sub2@[0] == frame[4] && sub2@[1] == frame[5]);
                }
            } else {
                c1 = (0, 0);
                c2 = (WIDTH, HEIGHT);
            }
            self.cur.clip1 = c1;
            self.cur.clip2 = c2;
            self.gfx.set_clip(c1, c2);
            None
        } else if CMD_SEL_ATTRS <= cmd && cmd <= CMD_SEL_ATTRS_MAX {
            let slot = (cmd - CMD_SEL_ATTRS) as usize;
            self.cur = self.saved[slot];
            self.gfx.set_clip(self.cur.clip1, self.cur.clip2);
            None
        } else if CMD_SAVE_ATTRS <= cmd && cmd <= CMD_SAVE_ATTRS_MAX {
            let slot = (cmd - CMD_SAVE_ATTRS) as usize;
            self.saved.set(slot, self.cur);
            None
        } else if cmd == CMD_BOOTMODE {
            if data_len >= 4 && self.magic_ok() {
                Some(Action::Bootloader)
            } else {
                None
            }
        } else if cmd == CMD_RESET {
            if data_len >= 4 && self.magic_ok() {
                Some(Action::Reset)
            } else {
                None
            }
        } else if cmd == CMD_RESET_APU {
            if data_len >= 4 && self.magic_ok() {
                Some(Action::ResetApu)
            } else {
                None
            }
        } else if cmd == CMD_APU_REINSTALL {
            if data_len >= 4 && self.magic_ok() {
                Some(Action::ApuReinstall)
            } else {
                None
            }
        } else if cmd == CMD_SET_STARTUP {
            let mut blob: Vec<u8> = Vec::new();
            let mut i: usize = 2;
            while i < len
                invariant
                    2 <= i <= len,
                    len <= 256,
                    self@ == pre,
                    pre.wf(),
                    blob@ =~= pre.escape_seq.subrange(2, i as int),
                decreases len - i,
            {
                blob.push(self.escape_seq[i]);
                proof {
                    assert(blob@ =~= pre.escape_seq.subrange(2, i + 1));
                }
                i = i + 1;
            }
            proof {
                assert(blob@ =~= frame.skip(2));
            }
            Some(Action::WriteEeprom(0, 64, blob))
        } else if cmd == CMD_TOUCH_MODE {
            if data_len >= 1 {
                self.fwd_touch = self.escape_seq[2] > 0;
            }
            None
        } else if cmd == CMD_TOUCH_CALIB {
            if data_len >= 4 {
                self.calib = (
                    self.escape_seq[2] as u16,
                    self.escape_seq[3] as u16,
                    self.escape_seq[4] as u16,
                    self.escape_seq[5] as u16,
                );
            }
            None
        } else if cmd == CMD_IDENT {
            let hdr: [u8; 4] = [ESCAPE, ESCAPE, 0x05, CMD_IDENT];
            self.con.write_to_host(hdr.as_slice());
            let ident: [u8; 4] = [IDENT_CUSTOMER, IDENT_MODE, VER_MAJOR, VER_MINOR];
            self.con.write_to_host(ident.as_slice());
            proof {
                assert(pre.con.sent + hdr@ + ident@ =~= pre.con.sent + seq![
                    ESCAPE,
                    ESCAPE,
                    5u8,
                    CMD_IDENT,
                    IDENT_CUSTOMER,
                    IDENT_MODE,
                    VER_MAJOR,
                    VER_MINOR,
                ]);
            }
            None
        } else if cmd == CMD_TEXT {
            let posx = self.cur.posx;
            let posy = self.cur.posy;
            let data = vstd::slice::slice_subrange(self.escape_seq.as_slice(), 2, len);
            let font = &self.fonts[self.cur.font as usize];
            proof {
                assert(font@ == self@.fonts[self.cur.font as int]);
            }
            self.gfx.text(font, posx, posy, data, &self.cur.pal);
            None
        } else if cmd == CMD_LINES {
            if data_len >= 4 && data_len % 2 == 0 {
                let sub = vstd::slice::slice_subrange(self.escape_seq.as_slice(), 2, 4);
                let mut p1 = pos_from_bytes(sub);
                let mut i: usize = 1;
                while i < data_len / 2
                    invariant
                        1 <= i <= data_len / 2,
                        data_len == len - 2,
                        2 <= len <= 256,
                        pre.wf(),
                        self@.gfx.wf(),
                        pre.gfx.same_frame(self@.gfx),
                        self@ == (StateModel { gfx: self@.gfx, ..pre }),
                        forall|k: int|
                            0 <= k < pre.gfx.pixels.len() && !pre.gfx.in_clip_at(k)
                                ==> #[trigger] self@.gfx.pixels[k] == pre.gfx.pixels[k],
                    decreases data_len / 2 - i,
                {
                    let sub2 = vstd::slice::slice_subrange(
                        self.escape_seq.as_slice(),
                        2 + 2 * i,
                        2 + 2 * i + 2,
                    );
                    let p2 = pos_from_bytes(sub2);
                    self.gfx.line(p1.0, p1.1, p2.0, p2.1, self.cur.pal[3]);
                    p1 = p2;
                    i = i + 1;
                }
            }
            None
        } else if cmd == CMD_RECT {
            if data_len >= 4 {
                let sub1 = vstd::slice::slice_subrange(self.escape_seq.as_slice(), 2, 4);
                let p1 = pos_from_bytes(sub1);
                let sub2 = vstd::slice::slice_subrange(self.escape_seq.as_slice(), 4, 6);
                let p2 = pos_from_bytes(sub2);
                proof {
                    assert(sub1@[0] == pre.escape_seq[2] && sub1@[1] == pre.escape_seq[3]);
                    assert(sub2@[0] == pre.escape_seq[4] && sub2@[1] == pre.escape_seq[5]);
                }
                self.gfx.rect(p1.0, p1.1, p2.0, p2.1, self.cur.pal[3]);
            }
            None
        } else if cmd == CMD_IMAGE {
            if data_len >= 1 && (self.escape_seq[2] as usize) < self.images.len() {
                let idx = self.escape_seq[2] as usize;
                let pal: Palette = if data_len >= 5 {
                    [
                        self.escape_seq[3],
                        self.escape_seq[4],
                        self.escape_seq[5],
                        self.escape_seq[6],
                    ]
                } else {
                    self.images[idx].pal
                };
                let posx = self.cur.posx;
                let posy = self.cur.posy;
                let img = &self.images[idx];
                let size = (img.width, img.height);
                proof {
                    assert(img@ == self@.images[idx as int]);
                }
                self.gfx.image(posx, posy, img.data.as_slice(), size, &pal);
            }
            None
        } else if cmd == CMD_CLEAR {
            if data_len >= 1 {
                let color = self.escape_seq[2];
                self.gfx.clear(color);
            }
            None
        } else if cmd == CMD_COPYRECT {
            if data_len >= 6 {
                let sub1 = vstd::slice::slice_subrange(self.escape_seq.as_slice(), 2, 4);
                let p1 = pos_from_bytes(sub1);
                let sub2 = vstd::slice::slice_subrange(self.escape_seq.as_slice(), 4, 6);
                let p2 = pos_from_bytes(sub2);
                let sub3 = vstd::slice::slice_subrange(self.escape_seq.as_slice(), 6, 8);
                let p3 = pos_from_bytes(sub3);
                self.gfx.copy_rect(p1.0, p1.1, p2.0, p2.1, p3.0, p3.1);
            }
            None
        } else if cmd == CMD_PLOT {
            if data_len >= 3 {
                let sub = vstd::slice::slice_subrange(self.escape_seq.as_slice(), 2, 4);
                let p0 = pos_from_bytes(sub);
                let mut x: u16 = p0.0;
                let mut idx: usize = 4;
                let mut ylast: Option<u16> = None;
                while idx < len
                    invariant
                        4 <= idx <= len + 3,
                        2 <= len <= 256,
                        x < 1024,
                        ylast matches Some(_) ==> x >= 1,
                        pre.wf(),
                        self@.gfx.wf(),
                        pre.gfx.same_frame(self@.gfx),
                        self@ == (StateModel { gfx: self@.gfx, ..pre }),
                        forall|k: int|
                            0 <= k < pre.gfx.pixels.len() && !pre.gfx.in_clip_at(k)
                                ==> #[trigger] self@.gfx.pixels[k] == pre.gfx.pixels[k],
                    decreases len + 3 - idx,
                {
                    if x >= 768 {
                        // The x position can only walk one step per data
                        // byte, so it stays on a short leash; stop early
                        // rather than run off the coordinate space.
                        break ;
                    }
                    let ystart_raw = self.escape_seq[idx] as u16;
                    idx = idx + 1;
                    let pal3 = self.cur.pal[3];
                    if (ystart_raw & 0x80) == 0 {
                        match ylast {
                            Some(y0) => {
                                self.gfx.line(x - 1, y0, x, ystart_raw, pal3);
                            },
                            None => {
                                self.gfx.line(x, ystart_raw, x, ystart_raw, pal3);
                            },
                        }
                        ylast = Some(ystart_raw);
                    } else {
                        let ystart = ystart_raw & 0x7f;
                        let yend: u16 = if idx < len {
                            let v = self.escape_seq[idx] as u16;
                            v
                        } else {
                            0
                        };
                        idx = idx + 1;
                        if (yend & 0x80) == 0 {
                            if ystart == yend {
                                ylast = None;
                            } else {
                                match ylast {
                                    Some(y0) => {
                                        self.gfx.line(x - 1, y0, x, ystart, pal3);
                                    },
                                    None => {},
                                }
                                self.gfx.line(x, ystart, x, yend, pal3);
                                ylast = Some(yend);
                            }
                        } else {
                            let ymin: u16 = if idx < len {
                                (self.escape_seq[idx] & 0x7f) as u16
                            } else {
                                0
                            };
                            idx = idx + 1;
                            let ymax: u16 = if idx < len {
                                (self.escape_seq[idx] & 0x7f) as u16
                            } else {
                                0
                            };
                            idx = idx + 1;
                            match ylast {
                                Some(y0) => {
                                    self.gfx.line(x - 1, y0, x, ystart, pal3);
                                },
                                None => {},
                            }
                            self.gfx.line(x, ymin, x, ymax, pal3);
                            ylast = Some(yend & 0x7f);
                        }
                    }
                    x = x + 1;
                }
            }
            None
        } else {
            None
        }
    }

    /// Whether the frame in the scratch buffer carries the compiled-in
    /// magic token that guards privileged commands.
    fn magic_ok(&self) -> (r: bool)
        requires
            self@.wf(),
        ensures
            r == (self@.escape_seq[2] == 0xcb && self@.escape_seq[3] == 0xef
                && self@.escape_seq[4] == 0x20 && self@.escape_seq[5] == 0x18),
    {
        self.escape_seq[2] == 0xcb && self.escape_seq[3] == 0xef && self.escape_seq[4] == 0x20
            && self.escape_seq[5] == 0x18
    }
}


impl<Fb: FbImpl> DisplayState<Fb> {
    /// Main entry point to feed one byte from the host.
    ///
    /// Escape sequences are interpreted (binary frames drive the
    /// graphics surface, CSI sequences the console), and plain bytes are
    /// echoed to the console.  The control-plane effect is exactly
    /// [`spec_step`]; graphics pixels change only inside the clip
    /// rectangle, and the screen geometry never changes.
    pub fn process_byte(&mut self, ch: u8) -> (r: Option<Action>)
        requires
            old(self)@.wf(),
        ensures
            final(self)@.wf(),
            final(self)@.ctrl() == spec_step(old(self)@.ctrl(), ch).0,
            opt_action_view(r) == spec_step(old(self)@.ctrl(), ch).1,
            final(self)@.fonts == old(self)@.fonts,
            final(self)@.images == old(self)@.images,
            final(self)@.con.font == old(self)@.con.font,
            final(self)@.con.fb.same_frame(old(self)@.con.fb),
            final(self)@.gfx.width == old(self)@.gfx.width,
            final(self)@.gfx.height == old(self)@.gfx.height,
            final(self)@.gfx.pixels.len() == old(self)@.gfx.pixels.len(),
            forall|i: int|
                0 <= i < old(self)@.gfx.pixels.len() && !old(self)@.gfx.in_clip_at(i)
                    ==> #[trigger] final(self)@.gfx.pixels[i] == old(self)@.gfx.pixels[i],
        decreases (match self@.escape {
            Escape::WatchingBootBanner(_) => 1int,
            _ => 0int,
        }),
    {
        let ghost pre = self@;
        match self.escape {
            Escape::Idle => {
                if ch == ESCAPE {
                    self.escape = Escape::SawEscape;
                } else {
                    self.con.process_char(ch);
                }
                None
            },
            Escape::SawEscape => {
                if ch == ESCAPE {
                    self.escape = Escape::BinaryFrame(0, 0);
                } else if ch == 0x5b {
                    self.escape = Escape::Csi(0);
                } else if ch == 0x4d {
                    // Reverse linefeed: synthesize an insert-one-line CSI.
                    let one: [u8; 1] = [0x31];
                    self.con.process_csi(0x4c, one.as_slice());
                    proof {
                        assert(one@ =~= seq![0x31u8]);
                    }
                    self.escape = Escape::Idle;
                } else {
                    self.escape = Escape::Idle;
                }
                None
            },
            Escape::Csi(p) => {
                if (0x30 <= ch && ch <= 0x39) || ch == 0x3b || ch == 0x3f {
                    self.escape_seq.set(p, ch);
                    if p + 1 == 256 {
                        self.escape = Escape::Idle;
                    } else {
                        self.escape = Escape::Csi(p + 1);
                    }
                } else {
                    let params = vstd::slice::slice_subrange(self.escape_seq.as_slice(), 0, p);
                    proof {
                        assert(params@ =~= pre.escape_seq.take(p as int));
                    }
                    self.con.process_csi(ch, params);
                    if ch == 0x4a {
                        self.escape = Escape::WatchingBootBanner(0);
                    } else {
                        self.escape = Escape::Idle;
                    }
                }
                None
            },
            Escape::BinaryFrame(p, l) => {
                if l == 0 {
                    if ch == 0 {
                        // A length of zero is not allowed.
                        self.escape = Escape::Idle;
                        return None;
                    }
                    self.escape_seq.set(0, ch);
                    self.escape = Escape::BinaryFrame(1, ch as usize + 1);
                    None
                } else {
                    self.escape_seq.set(p, ch);
                    if p + 1 == l {
                        self.escape = Escape::Idle;
                        let r = self.process_command(l);
                        r
                    } else {
                        self.escape = Escape::BinaryFrame(p + 1, l);
                        None
                    }
                }
            },
            Escape::WatchingBootBanner(p) => {
                if ch == boot_banner_byte(p) {
                    if p + 1 == 12 {
                        // The attached subsystem is booting: reset.
                        self.escape = Escape::Idle;
                        Some(Action::Reset)
                    } else {
                        self.escape = Escape::WatchingBootBanner(p + 1);
                        None
                    }
                } else {
                    // Mismatch: replay the matched prefix through the
                    // ordinary parsing, then reprocess this byte.
                    if p >= 4 {
                        let one: [u8; 1] = [0x30];
                        self.con.process_csi(0x6d, one.as_slice());
                        proof {
                            assert(one@ =~= seq![0x30u8]);
                        }
                        let ghost c0 = self@.con;
                        let mut i: usize = 4;
                        proof {
                            assert(spec_boot_banner().skip(4).take(0) =~= Seq::<u8>::empty());
                        }
                        while i < p
                            invariant
                                4 <= i <= p < 12,
                                self@.con.wf(),
                                c0.same_output(self@.con),
                                self@.con.color == c0.color,
                                self@.con.font == c0.font,
                                self@.con.fb.same_frame(c0.fb),
                                self@ == (StateModel { con: self@.con, ..pre }),
                                c0 == (ConsoleModel {
                                    color: spec_sgr(
                                        pre.con.color,
                                        spec_csi_args(seq![0x30u8]),
                                    ),
                                    fb: c0.fb,
                                    ..pre.con
                                }),
                                (self@.con.cx, self@.con.cy, self@.con.need_wrap)
                                    == spec_str_cursor(
                                    c0.cx,
                                    c0.cy,
                                    c0.need_wrap,
                                    spec_boot_banner().skip(4).take(i - 4),
                                ),
                            decreases p - i,
                        {
                            let b = boot_banner_byte(i);
                            self.con.process_char(b);
                            proof {
                                let done = spec_boot_banner().skip(4).take(i - 4);
                                crate::console::lemma_str_cursor_push(
                                    c0.cx,
                                    c0.cy,
                                    c0.need_wrap,
                                    done,
                                    spec_boot_banner()[i as int],
                                );
                                assert(spec_boot_banner().skip(4).take(i - 3) =~= done.push(
                                    spec_boot_banner()[i as int],
                                ));
                            }
                            i = i + 1;
                        }
                    }
                    if p >= 3 {
                        self.escape_seq.set(0, 0x30);
                    }
                    if p == 0 {
                        self.escape = Escape::Idle;
                    } else if p == 1 {
                        self.escape = Escape::SawEscape;
                    } else if p == 2 {
                        self.escape = Escape::Csi(0);
                    } else if p == 3 {
                        self.escape = Escape::Csi(1);
                    } else {
                        self.escape = Escape::Idle;
                    }
                    proof {
                        assert(self@.ctrl() == spec_banner_replay(pre.ctrl(), p as int));
                    }
                    let r = self.process_byte(ch);
                    r
                }
            },
        }
    }
}



/// The control state after feeding a run of bytes, together with the
/// actions emitted along the way, in order.
pub open spec fn spec_feed(s: CtrlState, bytes: Seq<u8>) -> (CtrlState, Seq<ActionModel>)
    decreases bytes.len(),
{
    if bytes.len() == 0 {
        (s, Seq::<ActionModel>::empty())
    } else {
        let step = spec_step(s, bytes[0]);
        let rest = spec_feed(step.0, bytes.drop_first());
        (
            rest.0,
            (match step.1 {
                Some(a) => seq![a],
                None => Seq::<ActionModel>::empty(),
            }) + rest.1,
        )
    }
}

/// The actions of an optional action: one or none.
pub open spec fn opt_actions(a: Option<ActionModel>) -> Seq<ActionModel> {
    match a {
        Some(x) => seq![x],
        None => Seq::<ActionModel>::empty(),
    }
}

/// `s` overwritten with `b` starting at `at`.
pub open spec fn overwrite(s: Seq<u8>, at: int, b: Seq<u8>) -> Seq<u8> {
    Seq::new(s.len(), |i: int| if at <= i < at + b.len() { b[i - at] } else { s[i] })
}

/// Feeding a concatenation feeds the parts in turn.
pub proof fn lemma_feed_concat(s: CtrlState, a: Seq<u8>, b: Seq<u8>)
    ensures
        spec_feed(s, a + b).0 == spec_feed(spec_feed(s, a).0, b).0,
        spec_feed(s, a + b).1 == spec_feed(s, a).1 + spec_feed(spec_feed(s, a).0, b).1,
    decreases a.len(),
{
    if a.len() == 0 {
        assert(a + b =~= b);
        assert(spec_feed(s, a).1 + spec_feed(spec_feed(s, a).0, b).1 =~= spec_feed(s, b).1);
    } else {
        let step = spec_step(s, a[0]);
        assert((a + b).drop_first() =~= a.drop_first() + b);
        lemma_feed_concat(step.0, a.drop_first(), b);
        assert(spec_feed(s, a + b).1 =~= spec_feed(s, a).1 + spec_feed(spec_feed(s, a).0, b).1);
    }
}

/// Feeding the remaining payload bytes of a binary frame buffers them
/// and, with the last byte, hands the completed frame to the
/// interpreter and returns to idle.
proof fn lemma_feed_frame_data(s: CtrlState, p: usize, l: usize, b: Seq<u8>)
    requires
        s.escape == Escape::BinaryFrame(p, l),
        s.seq.len() == 256,
        1 <= p,
        2 <= l <= 256,
        p + b.len() == l,
        b.len() >= 1,
    ensures
        ({
            let seq2 = overwrite(s.seq, p as int, b);
            let out = spec_command(
                CtrlState { escape: Escape::Idle, seq: seq2, ..s },
                seq2.take(l as int),
            );
            spec_feed(s, b) == (out.0, opt_actions(out.1))
        }),
    decreases b.len(),
{
    let step = spec_step(s, b[0]);
    let seq1 = s.seq.update(p as int, b[0]);
    if b.len() == 1 {
        assert(p + 1 == l);
        assert(seq1 =~= overwrite(s.seq, p as int, b));
        let out = spec_command(
            CtrlState { escape: Escape::Idle, seq: seq1, ..s },
            seq1.take(l as int),
        );
        assert(step == (out.0, out.1));
        assert(spec_feed(step.0, b.drop_first()) == (step.0, Seq::<ActionModel>::empty()));
        assert(spec_feed(s, b).1 =~= opt_actions(out.1));
    } else {
        let s1 = CtrlState { escape: Escape::BinaryFrame((p + 1) as usize, l), seq: seq1, ..s };
        assert(step == (s1, None::<ActionModel>));
        lemma_feed_frame_data(s1, (p + 1) as usize, l, b.drop_first());
        assert(overwrite(seq1, p + 1 as int, b.drop_first()) =~= overwrite(s.seq, p as int, b));
        let seq2 = overwrite(s.seq, p as int, b);
        let out = spec_command(
            CtrlState { escape: Escape::Idle, seq: seq2, ..s },
            seq2.take(l as int),
        );
        assert(CtrlState { escape: Escape::Idle, seq: seq2, ..s1 } == CtrlState {
            escape: Escape::Idle,
            seq: seq2,
            ..s
        });
        assert(spec_feed(s, b).1 =~= opt_actions(out.1));
    }
}

/// Framing round trip: encoding any command id with any payload of up
/// to 253 bytes as `ESC ESC (len+1) cmd data...` and feeding it byte by
/// byte from idle invokes the interpreter exactly once, on exactly that
/// frame, and leaves the state machine idle again (unless the command
/// itself started a sequence, which none does: the interpreter never
/// touches the escape state).
pub proof fn lemma_frame_round_trip(s: CtrlState, cmd: u8, data: Seq<u8>)
    requires
        s.escape == Escape::Idle,
        s.seq.len() == 256,
        data.len() <= 253,
    ensures
        ({
            let n = (data.len() + 1) as u8;
            let enc = seq![ESCAPE, ESCAPE, n, cmd] + data;
            let frame = seq![n, cmd] + data;
            let seq2 = overwrite(s.seq, 0, frame);
            let out = spec_command(
                CtrlState { escape: Escape::Idle, seq: seq2, ..s },
                seq2.take(frame.len() as int),
            );
            spec_feed(s, enc) == (out.0, opt_actions(out.1))
        }),
{
    let n = (data.len() + 1) as u8;
    let enc = seq![ESCAPE, ESCAPE, n, cmd] + data;
    let frame = seq![n, cmd] + data;
    let s1 = CtrlState { escape: Escape::SawEscape, ..s };
    let s2 = CtrlState { escape: Escape::BinaryFrame(0, 0), ..s1 };
    let s3 = CtrlState {
        escape: Escape::BinaryFrame(1, (n + 1) as usize),
        seq: s.seq.update(0, n),
        ..s2
    };
    assert(enc[0] == ESCAPE && enc[1] == ESCAPE && enc[2] == n && enc[3] == cmd);
    assert(spec_step(s, ESCAPE) == (s1, None::<ActionModel>));
    assert(spec_step(s1, ESCAPE) == (s2, None::<ActionModel>));
    assert(n != 0);
    assert(spec_step(s2, n) == (s3, None::<ActionModel>));
    let e1 = enc.drop_first();
    let e2 = e1.drop_first();
    let e3 = e2.drop_first();
    assert(e1[0] == ESCAPE && e2[0] == n);
    assert(e3 =~= seq![cmd] + data);
    assert(spec_feed(s, enc).0 == spec_feed(s1, e1).0);
    assert(spec_feed(s, enc).1 =~= spec_feed(s1, e1).1);
    assert(spec_feed(s1, e1).0 == spec_feed(s2, e2).0);
    assert(spec_feed(s1, e1).1 =~= spec_feed(s2, e2).1);
    assert(spec_feed(s2, e2).0 == spec_feed(s3, e3).0);
    assert(spec_feed(s2, e2).1 =~= spec_feed(s3, e3).1);
    lemma_feed_frame_data(s3, 1, (n + 1) as usize, seq![cmd] + data);
    let seq2 = overwrite(s3.seq, 1, seq![cmd] + data);
    assert(seq2 =~= overwrite(s.seq, 0, frame));
    let out = spec_command(
        CtrlState { escape: Escape::Idle, seq: seq2, ..s3 },
        seq2.take(frame.len() as int),
    );
    assert(CtrlState { escape: Escape::Idle, seq: seq2, ..s3 } == CtrlState {
        escape: Escape::Idle,
        seq: seq2,
        ..s
    });
    assert(spec_feed(s, enc).1 =~= opt_actions(out.1));
}

/// Switching to graphics mode is idempotent: sending the mode-switch
/// frame twice in a row ends in the same state as sending it once, with
/// the graphics surface active either way.
pub proof fn lemma_mode_graphics_idempotent(s: CtrlState)
    requires
        s.escape == Escape::Idle,
        s.seq.len() == 256,
    ensures
        ({
            let enc = seq![ESCAPE, ESCAPE, 1u8, CMD_MODE_GRAPHICS];
            spec_feed(s, enc + enc).0 == spec_feed(s, enc).0 && spec_feed(s, enc).0.gfx_mode
                == true
        }),
{
    let enc = seq![ESCAPE, ESCAPE, 1u8, CMD_MODE_GRAPHICS];
    assert(enc =~= seq![ESCAPE, ESCAPE, 1u8, CMD_MODE_GRAPHICS] + Seq::<u8>::empty());
    lemma_frame_round_trip(s, CMD_MODE_GRAPHICS, Seq::<u8>::empty());
    let once = spec_feed(s, enc).0;
    assert(once.escape == Escape::Idle && once.seq.len() == 256 && once.gfx_mode == true);
    lemma_frame_round_trip(once, CMD_MODE_GRAPHICS, Seq::<u8>::empty());
    lemma_feed_concat(s, enc, enc);
    let frame = seq![1u8, CMD_MODE_GRAPHICS] + Seq::<u8>::empty();
    assert(overwrite(once.seq, 0, frame) =~= once.seq);
}

/// Saving the drawing settings and selecting them back restores them
/// exactly and reapplies their clip rectangle to the framebuffer,
/// whatever happened to the current settings in between.
pub proof fn lemma_save_restore_round_trip(
    s: CtrlState,
    mid: CtrlState,
    slot: u8,
    fsave: Seq<u8>,
    fsel: Seq<u8>,
)
    requires
        slot < 32,
        fsave.len() >= 2,
        fsel.len() >= 2,
        fsave[1] == CMD_SAVE_ATTRS + slot,
        fsel[1] == CMD_SEL_ATTRS + slot,
        0 <= slot < s.saved.len(),
        mid.saved == spec_command(s, fsave).0.saved,
    ensures
        spec_command(s, fsave).0 == (CtrlState {
            saved: s.saved.update(slot as int, s.cur),
            ..s
        }),
        spec_command(mid, fsel).0.cur == s.cur,
        spec_command(mid, fsel).0.gclip1 == spec_gfx_clip(s.cur.clip1, s.cur.clip2).0,
        spec_command(mid, fsel).0.gclip2 == spec_gfx_clip(s.cur.clip1, s.cur.clip2).1,
{
}

} // verus!
