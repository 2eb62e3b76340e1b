//! The mode bits of a terminal and the flag bits of a grid cell.

use vstd::prelude::*;

verus! {

/// The modes a terminal program has switched on. The bits are those of
/// `alacritty_terminal::term::TermMode`.
#[derive(Clone, Copy, Debug, PartialEq, Eq, Structural)]
pub struct TermMode {
    pub bits: u32,
}

impl TermMode {
    pub const APP_CURSOR: u32 = 0x0000_0002;

    pub const MOUSE_REPORT_CLICK: u32 = 0x0000_0008;

    pub const BRACKETED_PASTE: u32 = 0x0000_0010;

    pub const SGR_MOUSE: u32 = 0x0000_0020;

    pub const MOUSE_MOTION: u32 = 0x0000_0040;

    pub const ALT_SCREEN: u32 = 0x0000_1000;

    pub const MOUSE_DRAG: u32 = 0x0000_2000;

    pub const UTF8_MOUSE: u32 = 0x0000_4000;

    pub const ALTERNATE_SCROLL: u32 = 0x0000_8000;

    /// Any of the three ways in which a program may follow the mouse.
    pub const MOUSE_MODE: u32 = 0x0000_2048;

    pub fn new(bits: u32) -> (mode: TermMode)
        ensures
            mode.bits == bits,
    {
        TermMode { bits }
    }

    /// Whether every one of the given bits is set.
    pub open spec fn has(self, flags: u32) -> bool {
        self.bits & flags == flags
    }

    /// Whether one of the given bits is set.
    pub open spec fn meets(self, flags: u32) -> bool {
        self.bits & flags != 0
    }

    pub fn contains(self, flags: u32) -> (all: bool)
        ensures
            all == self.has(flags),
    {
        self.bits & flags == flags
    }

    pub fn intersects(self, flags: u32) -> (any: bool)
        ensures
            any == self.meets(flags),
    {
        self.bits & flags != 0
    }
}

/// The attributes of one grid cell. The bits are those of
/// `alacritty_terminal::term::cell::Flags`.
#[derive(Clone, Copy, Debug, PartialEq, Eq, Structural)]
pub struct CellFlags {
    pub bits: u16,
}

impl CellFlags {
    pub const INVERSE: u16 = 0x0001;

    pub const BOLD: u16 = 0x0002;

    pub const ITALIC: u16 = 0x0004;

    pub const UNDERLINE: u16 = 0x0008;

    pub const WIDE_CHAR: u16 = 0x0020;

    pub const WIDE_CHAR_SPACER: u16 = 0x0040;

    pub const DIM: u16 = 0x0080;

    pub const HIDDEN: u16 = 0x0100;

    pub const STRIKEOUT: u16 = 0x0200;

    pub const LEADING_WIDE_CHAR_SPACER: u16 = 0x0400;

    pub const DOUBLE_UNDERLINE: u16 = 0x0800;

    pub const UNDERCURL: u16 = 0x1000;

    pub const DOTTED_UNDERLINE: u16 = 0x2000;

    pub const DASHED_UNDERLINE: u16 = 0x4000;

    pub fn new(bits: u16) -> (flags: CellFlags)
        ensures
            flags.bits == bits,
    {
        CellFlags { bits }
    }

    /// Whether every one of the given bits is set.
    pub open spec fn has(self, flags: u16) -> bool {
        self.bits & flags == flags
    }

    pub fn contains(self, flags: u16) -> (all: bool)
        ensures
            all == self.has(flags),
    {
        self.bits & flags == flags
    }
}

} // verus!
