//! The commands that the user interface sends to a terminal.

use vstd::prelude::*;
use vstd::arithmetic::power2::pow2;
use crate::app::settings::CursorShapeSetting;

verus! {

/// A command of which only the latest value counts. Whether it is queued and
/// which value it has change together, so that no value is left behind.
#[derive(Debug)]
pub struct CoalescedCommand<T> {
    pub value: Option<T>,
    pub queued: bool,
}

impl<T> CoalescedCommand<T> {
    /// A value that waits has been announced.
    pub open spec fn well_formed(&self) -> bool {
        self.value is Some ==> self.queued
    }

    pub fn new() -> (command: CoalescedCommand<T>)
        ensures
            command.value is None,
            !command.queued,
            command.well_formed(),
    {
        CoalescedCommand { value: None, queued: false }
    }

    /// Replaces the value; tells whether the command has to be announced.
    pub fn put(&mut self, value: T) -> (announce: bool)
        ensures
            final(self).value == Some(value),
            final(self).queued,
            final(self).well_formed(),
            announce == !old(self).queued,
    {
        self.value = Some(value);
        let announce = !self.queued;
        self.queued = true;
        announce
    }

    /// Hands the latest value to the worker.
    pub fn take(&mut self) -> (value: Option<T>)
        ensures
            value == old(self).value,
            final(self).value is None,
            !final(self).queued,
            final(self).well_formed(),
    {
        self.queued = false;
        self.value.take()
    }
}

/// The significand of a 32-bit float with a positive exponent field, as an
/// integer with 23 binary places.
pub open spec fn significand(bits: u32) -> int {
    0x80_0000 + bits % 0x80_0000
}

/// The exponent field of a 32-bit float.
pub open spec fn exponent_field(bits: u32) -> int {
    (bits / 0x80_0000) as int % 256
}

/// Whether the sign bit of a 32-bit float is set.
pub open spec fn sign_bit(bits: u32) -> bool {
    bits >= 0x8000_0000
}

/// Whether a 32-bit float is not a number.
pub open spec fn not_a_number(bits: u32) -> bool {
    exponent_field(bits) == 255 && bits % 0x80_0000 != 0
}

/// A length in pixels, rounded up and kept between 1 and 65535. The length is
/// given by the bits of a 32-bit float; what is not a number counts as 0.
pub open spec fn whole_pixels(bits: u32) -> int {
    if not_a_number(bits) {
        0
    } else if sign_bit(bits) || exponent_field(bits) < 127 {
        1
    } else if exponent_field(bits) >= 143 {
        65535
    } else {
        let unit = pow2((150 - exponent_field(bits)) as nat) as int;
        let ceiling = (significand(bits) + unit - 1) / unit;
        if ceiling > 65535 {
            65535
        } else {
            ceiling
        }
    }
}

/// The power of two with a small exponent.
pub(crate) fn power_of_two(exponent: u32) -> (power: u32)
    requires
        exponent < 32,
    ensures
        power == pow2(exponent as nat),
        power >= 1,
        exponent >= 8 ==> power >= 256,
        exponent <= 24 ==> power <= 0x100_0000,
{
    proof {
        vstd::arithmetic::power2::lemma2_to64();
    }
    let mut power: u64 = 1;
    let mut count: u32 = 0;
    while count < exponent
        invariant
            count <= exponent < 32,
            power == pow2(count as nat),
            1 <= power <= 0x8000_0000,
            count <= 31,
        decreases exponent - count,
    {
        proof {
            vstd::arithmetic::power2::lemma_pow2_unfold((count + 1) as nat);
            vstd::arithmetic::power2::lemma2_to64();
            if count + 1 < 31 {
                vstd::arithmetic::power2::lemma_pow2_strictly_increases((count + 1) as nat, 31);
            }
        }
        power = power * 2;
        count += 1;
    }
    proof {
        if exponent > 8 {
            vstd::arithmetic::power2::lemma_pow2_strictly_increases(8, exponent as nat);
        }
        if exponent < 24 {
            vstd::arithmetic::power2::lemma_pow2_strictly_increases(exponent as nat, 24);
        }
    }
    power as u32
}

fn pixels(bits: u32) -> (length: u16)
    ensures
        length == whole_pixels(bits),
{
    let exponent: u32 = (bits / 0x80_0000) % 256;
    let fraction: u32 = bits % 0x80_0000;
    if exponent == 255 && fraction != 0 {
        return 0;
    }
    if bits >= 0x8000_0000 || exponent < 127 {
        return 1;
    }
    if exponent >= 143 {
        return 65535;
    }
    let unit: u32 = power_of_two(150 - exponent);
    let sum: u32 = 0x80_0000 + fraction + (unit - 1);
    let ceiling: u32 = sum / unit;
    if ceiling > 65535 {
        65535
    } else {
        ceiling as u16
    }
}

/// The size of a terminal grid and of one of its cells in pixels.
#[derive(Clone, Copy, Debug, PartialEq, Eq, Structural)]
pub struct TerminalSize {
    pub columns: usize,
    pub rows: usize,
    pub cell_width: u16,
    pub cell_height: u16,
}

/// The size of a grid whose cells have the given width and height, as the bits of
/// 32-bit floats.
pub open spec fn size_for(
    columns: usize,
    rows: usize,
    cell_width: u32,
    cell_height: u32,
) -> TerminalSize {
    TerminalSize {
        columns,
        rows,
        cell_width: whole_pixels(cell_width) as u16,
        cell_height: whole_pixels(cell_height) as u16,
    }
}

impl TerminalSize {
    /// The cell's width and height are given by the bits of 32-bit floats.
    pub fn new(columns: usize, rows: usize, cell_width: u32, cell_height: u32) -> (size:
        TerminalSize)
        ensures
            size == size_for(columns, rows, cell_width, cell_height),
            size.cell_width == whole_pixels(cell_width),
            size.cell_height == whole_pixels(cell_height),
    {
        TerminalSize {
            columns,
            rows,
            cell_width: pixels(cell_width),
            cell_height: pixels(cell_height),
        }
    }
}

/// What the settings say about a terminal.
#[derive(Clone, Copy, Debug, PartialEq, Eq, Structural)]
pub struct TerminalOptions {
    pub scrollback_lines: u32,
    pub scroll_lines: u32,
    pub copy_on_select: bool,
    pub right_click_paste: bool,
    pub cursor_shape: CursorShapeSetting,
    pub cursor_blink: bool,
}

/// A mouse button.
#[derive(Clone, Copy, Debug, PartialEq, Eq, Structural)]
pub enum MouseButton {
    Left,
    Middle,
    Right,
    Other,
}

/// What happened to the mouse.
#[derive(Clone, Copy, Debug, PartialEq, Eq, Structural)]
pub enum MouseAction {
    Press,
    Release,
    Move,
    Cancel,
    DoubleClick,
}

/// A mouse event over one cell.
#[derive(Clone, Copy, Debug, PartialEq, Eq, Structural)]
pub struct MouseInput {
    pub column: usize,
    pub row: usize,
    pub button: MouseButton,
    pub action: MouseAction,
    pub shift: bool,
    pub alt: bool,
    pub control: bool,
    /// Whether the pointer is over the right half of the cell.
    pub right_half: bool,
}

/// A turn of the mouse wheel over one cell; `lines` holds the bits of a 32-bit
/// float.
#[derive(Clone, Copy, Debug, PartialEq, Eq, Structural)]
pub struct MouseScrollInput {
    pub column: usize,
    pub row: usize,
    pub lines: u32,
    pub shift: bool,
    pub alt: bool,
    pub control: bool,
}

} // verus!
