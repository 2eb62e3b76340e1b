//! Named colours, indexed colours and dynamic overrides become RGB.

use vstd::prelude::*;

verus! {

/// A colour with eight bits per channel.
#[derive(Clone, Copy, Debug, PartialEq, Eq, Structural)]
pub struct RgbColor {
    pub red: u8,
    pub green: u8,
    pub blue: u8,
}

/// A colour with eight bits per channel and for its opacity.
#[derive(Clone, Copy, Debug, PartialEq, Eq, Structural)]
pub struct RgbaColor {
    pub red: u8,
    pub green: u8,
    pub blue: u8,
    pub alpha: u8,
}

/// The colours that have a name of their own; `index` gives the slot of each in
/// the table of overrides.
#[derive(Clone, Copy, Debug, PartialEq, Eq, Structural)]
pub enum NamedColor {
    Black,
    Red,
    Green,
    Yellow,
    Blue,
    Magenta,
    Cyan,
    White,
    BrightBlack,
    BrightRed,
    BrightGreen,
    BrightYellow,
    BrightBlue,
    BrightMagenta,
    BrightCyan,
    BrightWhite,
    Foreground,
    Background,
    Cursor,
    DimBlack,
    DimRed,
    DimGreen,
    DimYellow,
    DimBlue,
    DimMagenta,
    DimCyan,
    DimWhite,
    BrightForeground,
    DimForeground,
}

impl NamedColor {
    /// The slot of the colour in the table of overrides.
    pub open spec fn slot(self) -> int {
        match self {
            NamedColor::Black => 0,
            NamedColor::Red => 1,
            NamedColor::Green => 2,
            NamedColor::Yellow => 3,
            NamedColor::Blue => 4,
            NamedColor::Magenta => 5,
            NamedColor::Cyan => 6,
            NamedColor::White => 7,
            NamedColor::BrightBlack => 8,
            NamedColor::BrightRed => 9,
            NamedColor::BrightGreen => 10,
            NamedColor::BrightYellow => 11,
            NamedColor::BrightBlue => 12,
            NamedColor::BrightMagenta => 13,
            NamedColor::BrightCyan => 14,
            NamedColor::BrightWhite => 15,
            NamedColor::Foreground => 256,
            NamedColor::Background => 257,
            NamedColor::Cursor => 258,
            NamedColor::DimBlack => 259,
            NamedColor::DimRed => 260,
            NamedColor::DimGreen => 261,
            NamedColor::DimYellow => 262,
            NamedColor::DimBlue => 263,
            NamedColor::DimMagenta => 264,
            NamedColor::DimCyan => 265,
            NamedColor::DimWhite => 266,
            NamedColor::BrightForeground => 267,
            NamedColor::DimForeground => 268,
        }
    }

    pub fn index(self) -> (index: usize)
        ensures
            index == self.slot(),
            index < COLOR_COUNT,
    {
        match self {
            NamedColor::Black => 0,
            NamedColor::Red => 1,
            NamedColor::Green => 2,
            NamedColor::Yellow => 3,
            NamedColor::Blue => 4,
            NamedColor::Magenta => 5,
            NamedColor::Cyan => 6,
            NamedColor::White => 7,
            NamedColor::BrightBlack => 8,
            NamedColor::BrightRed => 9,
            NamedColor::BrightGreen => 10,
            NamedColor::BrightYellow => 11,
            NamedColor::BrightBlue => 12,
            NamedColor::BrightMagenta => 13,
            NamedColor::BrightCyan => 14,
            NamedColor::BrightWhite => 15,
            NamedColor::Foreground => 256,
            NamedColor::Background => 257,
            NamedColor::Cursor => 258,
            NamedColor::DimBlack => 259,
            NamedColor::DimRed => 260,
            NamedColor::DimGreen => 261,
            NamedColor::DimYellow => 262,
            NamedColor::DimBlue => 263,
            NamedColor::DimMagenta => 264,
            NamedColor::DimCyan => 265,
            NamedColor::DimWhite => 266,
            NamedColor::BrightForeground => 267,
            NamedColor::DimForeground => 268,
        }
    }
}

/// How a cell states its colour.
#[derive(Clone, Copy, Debug, PartialEq, Eq, Structural)]
pub enum AnsiColor {
    Named(NamedColor),
    Spec(RgbColor),
    Indexed(u8),
}

/// How many colours a terminal program can override.
pub const COLOR_COUNT: usize = 269;

/// The colours that a terminal program has overridden, by slot.
pub struct ColorOverrides {
    pub entries: Vec<Option<RgbColor>>,
}

impl ColorOverrides {
    /// There is one entry for each slot.
    pub open spec fn well_formed(&self) -> bool {
        self.entries@.len() == COLOR_COUNT
    }

    /// No colour is overridden.
    pub fn none() -> (overrides: ColorOverrides)
        ensures
            overrides.well_formed(),
            forall|slot: int| 0 <= slot < COLOR_COUNT ==> overrides.entries@[slot] is None,
    {
        let mut entries: Vec<Option<RgbColor>> = Vec::new();
        while entries.len() < COLOR_COUNT
            invariant
                entries.len() <= COLOR_COUNT,
                forall|slot: int| 0 <= slot < entries.len() ==> entries@[slot] is None,
            decreases COLOR_COUNT - entries.len(),
        {
            entries.push(None);
        }
        ColorOverrides { entries }
    }

    /// Overrides one colour, or takes an override back.
    pub fn set(&mut self, slot: usize, color: Option<RgbColor>)
        requires
            old(self).well_formed(),
            slot < COLOR_COUNT,
        ensures
            final(self).well_formed(),
            final(self).entries@ == old(self).entries@.update(slot as int, color),
    {
        self.entries.set(slot, color);
    }
}

/// The colours that the user interface hands to the terminal.
#[derive(Clone, Copy, Debug, PartialEq, Eq, Structural)]
pub struct TerminalTheme {
    pub background: RgbColor,
    pub foreground: RgbColor,
    pub selection_background: RgbColor,
    pub selection_foreground: RgbColor,
    pub search_match_background: RgbColor,
    pub search_current_background: RgbColor,
}

/// A colour given by its three channels.
pub open spec fn color_of(red: int, green: int, blue: int) -> RgbColor {
    RgbColor { red: red as u8, green: green as u8, blue: blue as u8 }
}

/// The sixteen basic colours.
pub open spec fn ansi_palette(index: int) -> RgbColor {
    if index == 0 {
        color_of(0x1f, 0x24, 0x2d)
    } else if index == 1 {
        color_of(0xff, 0x7b, 0x72)
    } else if index == 2 {
        color_of(0x3f, 0xb9, 0x50)
    } else if index == 3 {
        color_of(0xd2, 0x99, 0x22)
    } else if index == 4 {
        color_of(0x58, 0xa6, 0xff)
    } else if index == 5 {
        color_of(0xbc, 0x8c, 0xff)
    } else if index == 6 {
        color_of(0x39, 0xc5, 0xcf)
    } else if index == 7 {
        color_of(0xb1, 0xba, 0xc4)
    } else if index == 8 {
        color_of(0x48, 0x4f, 0x58)
    } else if index == 9 {
        color_of(0xff, 0xa1, 0x98)
    } else if index == 10 {
        color_of(0x56, 0xd3, 0x64)
    } else if index == 11 {
        color_of(0xe3, 0xb3, 0x41)
    } else if index == 12 {
        color_of(0x79, 0xc0, 0xff)
    } else if index == 13 {
        color_of(0xd2, 0xa8, 0xff)
    } else if index == 14 {
        color_of(0x56, 0xd4, 0xdd)
    } else {
        color_of(0xf0, 0xf6, 0xfc)
    }
}

fn basic_color(index: u8) -> (color: RgbColor)
    requires
        index < 16,
    ensures
        color == ansi_palette(index as int),
{
    match index {
        0 => RgbColor { red: 0x1f, green: 0x24, blue: 0x2d },
        1 => RgbColor { red: 0xff, green: 0x7b, blue: 0x72 },
        2 => RgbColor { red: 0x3f, green: 0xb9, blue: 0x50 },
        3 => RgbColor { red: 0xd2, green: 0x99, blue: 0x22 },
        4 => RgbColor { red: 0x58, green: 0xa6, blue: 0xff },
        5 => RgbColor { red: 0xbc, green: 0x8c, blue: 0xff },
        6 => RgbColor { red: 0x39, green: 0xc5, blue: 0xcf },
        7 => RgbColor { red: 0xb1, green: 0xba, blue: 0xc4 },
        8 => RgbColor { red: 0x48, green: 0x4f, blue: 0x58 },
        9 => RgbColor { red: 0xff, green: 0xa1, blue: 0x98 },
        10 => RgbColor { red: 0x56, green: 0xd3, blue: 0x64 },
        11 => RgbColor { red: 0xe3, green: 0xb3, blue: 0x41 },
        12 => RgbColor { red: 0x79, green: 0xc0, blue: 0xff },
        13 => RgbColor { red: 0xd2, green: 0xa8, blue: 0xff },
        14 => RgbColor { red: 0x56, green: 0xd4, blue: 0xdd },
        _ => RgbColor { red: 0xf0, green: 0xf6, blue: 0xfc },
    }
}

/// A channel at two thirds of its strength.
pub open spec fn dimmed_channel(channel: u8) -> u8 {
    (channel * 2 / 3) as u8
}

/// A colour at two thirds of its strength.
pub open spec fn dimmed(color: RgbColor) -> RgbColor {
    RgbColor {
        red: dimmed_channel(color.red),
        green: dimmed_channel(color.green),
        blue: dimmed_channel(color.blue),
    }
}

/// Takes every channel down to two thirds.
pub fn dim(color: RgbColor) -> (dark: RgbColor)
    ensures
        dark == dimmed(color),
{
    RgbColor {
        red: (color.red as u16 * 2 / 3) as u8,
        green: (color.green as u16 * 2 / 3) as u8,
        blue: (color.blue as u16 * 2 / 3) as u8,
    }
}

/// One of the six steps of a channel in the colour cube.
pub open spec fn cube_channel(part: int) -> int {
    if part == 0 {
        0
    } else {
        55 + 40 * part
    }
}

/// The xterm palette of 256 colours: the basic colours, a cube of six steps per
/// channel, and a ramp of greys.
pub open spec fn xterm_color(index: u8) -> RgbColor {
    if index < 16 {
        ansi_palette(index as int)
    } else if index < 232 {
        let value = index - 16;
        color_of(cube_channel(value / 36), cube_channel((value / 6) % 6), cube_channel(value % 6))
    } else {
        let gray = 8 + 10 * (index - 232);
        color_of(gray, gray, gray)
    }
}

fn cube_component(part: u8) -> (channel: u8)
    requires
        part < 6,
    ensures
        channel == cube_channel(part as int),
{
    if part == 0 {
        0
    } else {
        55 + part * 40
    }
}

pub fn indexed_color(index: u8) -> (color: RgbColor)
    ensures
        color == xterm_color(index),
{
    if index < 16 {
        return basic_color(index);
    }
    if index < 232 {
        let value: u8 = index - 16;
        return RgbColor {
            red: cube_component(value / 36),
            green: cube_component((value / 6) % 6),
            blue: cube_component(value % 6),
        };
    }
    let gray: u8 = 8 + (index - 232) * 10;
    RgbColor { red: gray, green: gray, blue: gray }
}

/// What a named colour is without an override.
pub open spec fn named_default(color: NamedColor, theme: TerminalTheme) -> RgbColor {
    match color {
        NamedColor::Foreground => theme.foreground,
        NamedColor::BrightForeground => theme.foreground,
        NamedColor::Cursor => theme.foreground,
        NamedColor::Background => theme.background,
        NamedColor::DimForeground => dimmed(theme.foreground),
        NamedColor::DimBlack => dimmed(ansi_palette(0)),
        NamedColor::DimRed => dimmed(ansi_palette(1)),
        NamedColor::DimGreen => dimmed(ansi_palette(2)),
        NamedColor::DimYellow => dimmed(ansi_palette(3)),
        NamedColor::DimBlue => dimmed(ansi_palette(4)),
        NamedColor::DimMagenta => dimmed(ansi_palette(5)),
        NamedColor::DimCyan => dimmed(ansi_palette(6)),
        NamedColor::DimWhite => dimmed(ansi_palette(7)),
        _ => ansi_palette(color.slot()),
    }
}

/// What a named colour is without an override. Every name has a colour of its
/// own, so it does not matter whether the colour is a foreground.
pub fn named_color(color: NamedColor, foreground: bool, theme: TerminalTheme) -> (rgb: RgbColor)
    ensures
        rgb == named_default(color, theme),
{
    match color {
        NamedColor::Foreground | NamedColor::BrightForeground => theme.foreground,
        NamedColor::Background => theme.background,
        NamedColor::Cursor => theme.foreground,
        NamedColor::DimForeground => dim(theme.foreground),
        NamedColor::DimBlack => dim(basic_color(0)),
        NamedColor::DimRed => dim(basic_color(1)),
        NamedColor::DimGreen => dim(basic_color(2)),
        NamedColor::DimYellow => dim(basic_color(3)),
        NamedColor::DimBlue => dim(basic_color(4)),
        NamedColor::DimMagenta => dim(basic_color(5)),
        NamedColor::DimCyan => dim(basic_color(6)),
        NamedColor::DimWhite => dim(basic_color(7)),
        named => {
            let index: usize = named.index();
            if index < 16 {
                basic_color(index as u8)
            } else if foreground {
                theme.foreground
            } else {
                theme.background
            }
        },
    }
}

/// What is drawn for a cell's colour: the one that the program has set for it,
/// else the built-in one.
pub open spec fn resolved_color(
    color: AnsiColor,
    overrides: Seq<Option<RgbColor>>,
    theme: TerminalTheme,
) -> RgbColor {
    match color {
        AnsiColor::Spec(rgb) => rgb,
        AnsiColor::Indexed(index) => match overrides[index as int] {
            Some(rgb) => rgb,
            None => xterm_color(index),
        },
        AnsiColor::Named(named) => match overrides[named.slot()] {
            Some(rgb) => rgb,
            None => named_default(named, theme),
        },
    }
}

/// Resolves the colour of a cell.
pub fn resolve_color(
    color: AnsiColor,
    overrides: &ColorOverrides,
    foreground: bool,
    theme: TerminalTheme,
) -> (rgb: RgbColor)
    requires
        overrides.well_formed(),
    ensures
        rgb == resolved_color(color, overrides.entries@, theme),
{
    match color {
        AnsiColor::Spec(rgb) => rgb,
        AnsiColor::Indexed(index) => match overrides.entries[index as usize] {
            Some(rgb) => rgb,
            None => indexed_color(index),
        },
        AnsiColor::Named(named) => match overrides.entries[named.index()] {
            Some(rgb) => rgb,
            None => named_color(named, foreground, theme),
        },
    }
}

/// What a program is told when it asks for the colour in a slot.
pub open spec fn dynamic_color(
    slot: int,
    overrides: Seq<Option<RgbColor>>,
    theme: TerminalTheme,
) -> Option<RgbColor> {
    if slot >= COLOR_COUNT {
        None
    } else if overrides[slot] is Some {
        overrides[slot]
    } else if slot < 256 {
        Some(xterm_color(slot as u8))
    } else if slot == 257 {
        Some(theme.background)
    } else if 259 <= slot <= 266 {
        Some(dimmed(ansi_palette(slot - 259)))
    } else if slot == 268 {
        Some(dimmed(theme.foreground))
    } else {
        Some(theme.foreground)
    }
}

/// Answers a program's query for the colour in a slot.
pub fn resolve_dynamic_color(
    index: usize,
    overrides: &ColorOverrides,
    theme: TerminalTheme,
) -> (rgb: Option<RgbColor>)
    requires
        overrides.well_formed(),
    ensures
        rgb == dynamic_color(index as int, overrides.entries@, theme),
{
    if index >= COLOR_COUNT {
        return None;
    }
    if let Some(color) = overrides.entries[index] {
        return Some(color);
    }
    if index < 256 {
        Some(indexed_color(index as u8))
    } else if index == 257 {
        Some(theme.background)
    } else if 259 <= index && index <= 266 {
        Some(dim(basic_color((index - 259) as u8)))
    } else if index == 268 {
        Some(dim(theme.foreground))
    } else {
        Some(theme.foreground)
    }
}

/// A query for the slot of a colour gives what is drawn for that colour, whether
/// it has a name or an index.
pub proof fn queries_agree_with_drawing(
    color: NamedColor,
    index: u8,
    overrides: ColorOverrides,
    theme: TerminalTheme,
)
    requires
        overrides.well_formed(),
    ensures
        dynamic_color(color.slot(), overrides.entries@, theme) == Some(
            resolved_color(AnsiColor::Named(color), overrides.entries@, theme),
        ),
        dynamic_color(index as int, overrides.entries@, theme) == Some(
            resolved_color(AnsiColor::Indexed(index), overrides.entries@, theme),
        ),
{
}

/// A colour that is given by its channels is drawn as it is. For any other colour
/// the override in its slot is drawn where there is one, and no other override
/// has an influence.
pub proof fn overrides_come_first(
    color: AnsiColor,
    overrides: Seq<Option<RgbColor>>,
    slot: int,
    other: Option<RgbColor>,
    theme: TerminalTheme,
)
    requires
        overrides.len() == 269,
        0 <= slot < 269,
    ensures
        color matches AnsiColor::Spec(rgb) ==> resolved_color(color, overrides, theme) == rgb,
        color matches AnsiColor::Indexed(index) && slot == index && other is Some ==> resolved_color(
            color,
            overrides.update(slot, other),
            theme,
        ) == other->0,
        color matches AnsiColor::Named(named) && slot == named.slot() && other is Some
            ==> resolved_color(color, overrides.update(slot, other), theme) == other->0,
        !(color matches AnsiColor::Indexed(index) && slot == index) && !(
        color matches AnsiColor::Named(named) && slot == named.slot()) ==> resolved_color(
            color,
            overrides.update(slot, other),
            theme,
        ) == resolved_color(color, overrides, theme),
{
}

/// Without overrides the default colours are those of the theme, and a basic
/// colour is the same by its name and by its number.
pub proof fn defaults_follow_the_theme(overrides: Seq<Option<RgbColor>>, theme: TerminalTheme)
    requires
        overrides.len() == 269,
        forall|slot: int| 0 <= slot < 269 ==> (#[trigger] overrides[slot]) is None,
    ensures
        resolved_color(AnsiColor::Named(NamedColor::Foreground), overrides, theme)
            == theme.foreground,
        resolved_color(AnsiColor::Named(NamedColor::BrightForeground), overrides, theme)
            == theme.foreground,
        resolved_color(AnsiColor::Named(NamedColor::Cursor), overrides, theme) == theme.foreground,
        resolved_color(AnsiColor::Named(NamedColor::Background), overrides, theme)
            == theme.background,
        resolved_color(AnsiColor::Named(NamedColor::Black), overrides, theme) == resolved_color(
            AnsiColor::Indexed(0),
            overrides,
            theme,
        ),
        resolved_color(AnsiColor::Named(NamedColor::Red), overrides, theme) == resolved_color(
            AnsiColor::Indexed(1),
            overrides,
            theme,
        ),
        resolved_color(AnsiColor::Named(NamedColor::Green), overrides, theme) == resolved_color(
            AnsiColor::Indexed(2),
            overrides,
            theme,
        ),
        resolved_color(AnsiColor::Named(NamedColor::Yellow), overrides, theme) == resolved_color(
            AnsiColor::Indexed(3),
            overrides,
            theme,
        ),
        resolved_color(AnsiColor::Named(NamedColor::Blue), overrides, theme) == resolved_color(
            AnsiColor::Indexed(4),
            overrides,
            theme,
        ),
        resolved_color(AnsiColor::Named(NamedColor::Magenta), overrides, theme) == resolved_color(
            AnsiColor::Indexed(5),
            overrides,
            theme,
        ),
        resolved_color(AnsiColor::Named(NamedColor::Cyan), overrides, theme) == resolved_color(
            AnsiColor::Indexed(6),
            overrides,
            theme,
        ),
        resolved_color(AnsiColor::Named(NamedColor::White), overrides, theme) == resolved_color(
            AnsiColor::Indexed(7),
            overrides,
            theme,
        ),
        resolved_color(AnsiColor::Named(NamedColor::BrightBlack), overrides, theme) == resolved_color(
            AnsiColor::Indexed(8),
            overrides,
            theme,
        ),
        resolved_color(AnsiColor::Named(NamedColor::BrightRed), overrides, theme) == resolved_color(
            AnsiColor::Indexed(9),
            overrides,
            theme,
        ),
        resolved_color(AnsiColor::Named(NamedColor::BrightGreen), overrides, theme) == resolved_color(
            AnsiColor::Indexed(10),
            overrides,
            theme,
        ),
        resolved_color(AnsiColor::Named(NamedColor::BrightYellow), overrides, theme) == resolved_color(
            AnsiColor::Indexed(11),
            overrides,
            theme,
        ),
        resolved_color(AnsiColor::Named(NamedColor::BrightBlue), overrides, theme) == resolved_color(
            AnsiColor::Indexed(12),
            overrides,
            theme,
        ),
        resolved_color(AnsiColor::Named(NamedColor::BrightMagenta), overrides, theme) == resolved_color(
            AnsiColor::Indexed(13),
            overrides,
            theme,
        ),
        resolved_color(AnsiColor::Named(NamedColor::BrightCyan), overrides, theme) == resolved_color(
            AnsiColor::Indexed(14),
            overrides,
            theme,
        ),
        resolved_color(AnsiColor::Named(NamedColor::BrightWhite), overrides, theme) == resolved_color(
            AnsiColor::Indexed(15),
            overrides,
            theme,
        ),
{
}

/// A dimmed colour has two thirds of each channel, rounded down. Without overrides
/// the dim colours are those of the plain ones.
pub proof fn dim_colors_have_two_thirds(
    color: RgbColor,
    overrides: Seq<Option<RgbColor>>,
    theme: TerminalTheme,
)
    requires
        overrides.len() == 269,
        forall|slot: int| 0 <= slot < 269 ==> (#[trigger] overrides[slot]) is None,
    ensures
        3 * dimmed(color).red <= 2 * color.red < 3 * dimmed(color).red + 3,
        3 * dimmed(color).green <= 2 * color.green < 3 * dimmed(color).green + 3,
        3 * dimmed(color).blue <= 2 * color.blue < 3 * dimmed(color).blue + 3,
        resolved_color(AnsiColor::Named(NamedColor::DimForeground), overrides, theme) == dimmed(
            theme.foreground,
        ),
        resolved_color(AnsiColor::Named(NamedColor::DimBlack), overrides, theme) == dimmed(
            resolved_color(AnsiColor::Named(NamedColor::Black), overrides, theme),
        ),
        resolved_color(AnsiColor::Named(NamedColor::DimRed), overrides, theme) == dimmed(
            resolved_color(AnsiColor::Named(NamedColor::Red), overrides, theme),
        ),
        resolved_color(AnsiColor::Named(NamedColor::DimGreen), overrides, theme) == dimmed(
            resolved_color(AnsiColor::Named(NamedColor::Green), overrides, theme),
        ),
        resolved_color(AnsiColor::Named(NamedColor::DimYellow), overrides, theme) == dimmed(
            resolved_color(AnsiColor::Named(NamedColor::Yellow), overrides, theme),
        ),
        resolved_color(AnsiColor::Named(NamedColor::DimBlue), overrides, theme) == dimmed(
            resolved_color(AnsiColor::Named(NamedColor::Blue), overrides, theme),
        ),
        resolved_color(AnsiColor::Named(NamedColor::DimMagenta), overrides, theme) == dimmed(
            resolved_color(AnsiColor::Named(NamedColor::Magenta), overrides, theme),
        ),
        resolved_color(AnsiColor::Named(NamedColor::DimCyan), overrides, theme) == dimmed(
            resolved_color(AnsiColor::Named(NamedColor::Cyan), overrides, theme),
        ),
        resolved_color(AnsiColor::Named(NamedColor::DimWhite), overrides, theme) == dimmed(
            resolved_color(AnsiColor::Named(NamedColor::White), overrides, theme),
        ),
{
}

/// The colour that a number with two hexadecimal digits for each channel stands
/// for has these channels.
pub open spec fn is_hex(color: RgbColor, number: int) -> bool {
    color.red * 0x10000 + color.green * 0x100 + color.blue == number
}

/// The basic colours, as numbers.
pub proof fn basic_colors_are_listed(index: u8)
    requires
        index < 16,
    ensures
        is_hex(
            xterm_color(index),
            seq![
                0x1f242dint,
                0xff7b72int,
                0x3fb950int,
                0xd29922int,
                0x58a6ffint,
                0xbc8cffint,
                0x39c5cfint,
                0xb1bac4int,
                0x484f58int,
                0xffa198int,
                0x56d364int,
                0xe3b341int,
                0x79c0ffint,
                0xd2a8ffint,
                0x56d4ddint,
                0xf0f6fcint,
            ][index as int],
        ),
{
}

/// Behind the basic colours each combination of six steps for red, green and blue
/// has its place, red slowest and blue fastest; the steps are the same for the
/// three channels. The last places are greys, ten apart.
pub proof fn indexed_colors_form_a_cube_and_a_ramp(red: u8, green: u8, blue: u8, step: u8)
    requires
        red < 6,
        green < 6,
        blue < 6,
        step < 24,
    ensures
        ({
            let steps = seq![0u8, 95u8, 135u8, 175u8, 215u8, 255u8];
            xterm_color((16 + 36 * red + 6 * green + blue) as u8) == (RgbColor {
                red: steps[red as int],
                green: steps[green as int],
                blue: steps[blue as int],
            })
        }),
        xterm_color((232 + step) as u8) == (RgbColor {
            red: (8 + 10 * step) as u8,
            green: (8 + 10 * step) as u8,
            blue: (8 + 10 * step) as u8,
        }),
{
    let value = 36 * red + 6 * green + blue;
    assert(value / 36 == red && (value / 6) % 6 == green && value % 6 == blue) by (nonlinear_arith)
        requires
            value == 36 * red + 6 * green + blue,
            0 <= red < 6,
            0 <= green < 6,
            0 <= blue < 6,
    ;
}

/// A query gives the override of its slot where there is one, and else a colour
/// of the theme or of the palette; there is no slot behind the last.
pub proof fn queries_know_every_slot(
    slot: int,
    overrides: Seq<Option<RgbColor>>,
    theme: TerminalTheme,
)
    requires
        overrides.len() == 269,
        0 <= slot,
    ensures
        slot >= 269 ==> dynamic_color(slot, overrides, theme) is None,
        slot < 269 && overrides[slot] is Some ==> dynamic_color(slot, overrides, theme)
            == overrides[slot],
        slot < 256 && overrides[slot] is None ==> dynamic_color(slot, overrides, theme) == Some(
            xterm_color(slot as u8),
        ),
        (slot == 256 || slot == 258 || slot == 267) && overrides[slot] is None ==> dynamic_color(
            slot,
            overrides,
            theme,
        ) == Some(theme.foreground),
        slot == 257 && overrides[slot] is None ==> dynamic_color(slot, overrides, theme) == Some(
            theme.background,
        ),
        259 <= slot <= 266 && overrides[slot] is None ==> dynamic_color(slot, overrides, theme)
            == Some(dimmed(xterm_color((slot - 259) as u8))),
        slot == 268 && overrides[slot] is None ==> dynamic_color(slot, overrides, theme) == Some(
            dimmed(theme.foreground),
        ),
{
}

/// The slots of the named colours: the basic ones come first, in the order of their
/// numbers, the others behind the indexed colours.
pub proof fn named_slots_are_distinct(left: NamedColor, right: NamedColor)
    ensures
        left != right ==> left.slot() != right.slot(),
        0 <= left.slot() < 16 || 256 <= left.slot() < 269,
        NamedColor::Foreground.slot() == 256,
        NamedColor::Background.slot() == 257,
        NamedColor::Cursor.slot() == 258,
        NamedColor::BrightForeground.slot() == 267,
        NamedColor::DimForeground.slot() == 268,
        NamedColor::Black.slot() == 0,
        NamedColor::White.slot() == 7,
        NamedColor::BrightBlack.slot() == 8,
        NamedColor::BrightWhite.slot() == 15,
        NamedColor::DimBlack.slot() == 259,
        NamedColor::DimWhite.slot() == 266,
{
}

} // verus!
