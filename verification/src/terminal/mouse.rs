//! Mouse positions and the mouse reports that terminal programs understand.

use vstd::prelude::*;
use vstd::arithmetic::power2::pow2;
use vstd::string::*;
use vstd::utf8::encode_utf8;
use crate::terminal::command;
use crate::terminal::command::{MouseAction, MouseButton, TerminalSize};
use crate::terminal::frame;
use crate::terminal::mode::TermMode;
use crate::terminal::search::GridPoint;
use crate::text;

verus! {

/// The cell of the grid that is seen at a position of the view.
pub open spec fn point_in_view(display_offset: int, size: TerminalSize, column: int, row: int) -> (
    int,
    int,
) {
    let last_row = if size.rows == 0 {
        0
    } else {
        size.rows - 1
    };
    let last_column = if size.columns == 0 {
        0
    } else {
        size.columns - 1
    };
    (frame::least(row, last_row) - display_offset, frame::least(column, last_column))
}

/// The cell of the grid that is seen at a position of the view; a position
/// outside of the view stands for the nearest cell.
pub fn visible_point(display_offset: usize, size: TerminalSize, column: usize, row: usize) -> (point:
    GridPoint)
    requires
        display_offset <= i32::MAX,
        size.rows <= i32::MAX,
    ensures
        (point.line as int, point.column as int) == point_in_view(
            display_offset as int,
            size,
            column as int,
            row as int,
        ),
{
    let last_row: usize = size.rows.saturating_sub(1);
    let last_column: usize = size.columns.saturating_sub(1);
    let row: usize = if row < last_row {
        row
    } else {
        last_row
    };
    let column: usize = if column < last_column {
        column
    } else {
        last_column
    };
    GridPoint { line: row as i32 - display_offset as i32, column }
}

/// How often the smallest 32-bit float goes into one.
pub open spec fn one_line() -> int {
    pow2(149) as int
}

/// The value of a 32-bit float, counted in the smallest one.
pub open spec fn float_value(bits: u32) -> int {
    let magnitude = if command::exponent_field(bits) == 0 {
        bits as int % 0x80_0000
    } else {
        command::significand(bits) * pow2((command::exponent_field(bits) - 1) as nat)
    };
    if command::sign_bit(bits) {
        -magnitude
    } else {
        magnitude
    }
}

/// A turn of the wheel, kept within twenty lines.
pub open spec fn bounded_turn(bits: u32) -> int {
    if float_value(bits) > 20 * one_line() {
        20 * one_line()
    } else if float_value(bits) < -20 * one_line() {
        -20 * one_line()
    } else {
        float_value(bits)
    }
}

/// The whole lines in a turn of the wheel.
pub open spec fn lines_in(turn: int) -> int {
    if turn < 0 {
        -((-turn) / one_line())
    } else {
        turn / one_line()
    }
}

proof fn lemma_small_turn(bits: u32)
    requires
        command::exponent_field(bits) < 127,
    ensures
        -one_line() < float_value(bits) < one_line(),
        bounded_turn(bits) == float_value(bits),
        lines_in(bounded_turn(bits)) == 0,
{
    let exponent = command::exponent_field(bits);
    vstd::arithmetic::power2::lemma_pow2_adds(24, 125);
    vstd::arithmetic::power2::lemma2_to64();
    vstd::arithmetic::power2::lemma_pow2_pos(125);
    let scale = pow2((exponent - 1) as nat) as int;
    if exponent > 0 {
        if exponent - 1 < 125 {
            vstd::arithmetic::power2::lemma_pow2_strictly_increases((exponent - 1) as nat, 125);
        }
        vstd::arithmetic::power2::lemma_pow2_pos((exponent - 1) as nat);
        let significand = command::significand(bits);
        assert(0 < significand * scale < 0x100_0000 * pow2(125)) by (nonlinear_arith)
            requires
                0 < significand < 0x100_0000,
                0 < scale <= pow2(125),
        ;
    } else {
        assert(0x100_0000 <= 0x100_0000 * pow2(125)) by (nonlinear_arith)
            requires
                pow2(125) >= 1,
        ;
    }
    let turn = float_value(bits);
    let size = if turn < 0 {
        -turn
    } else {
        turn
    };
    vstd::arithmetic::div_mod::lemma_basic_div(size, one_line());
}

proof fn lemma_turn(bits: u32)
    requires
        127 <= command::exponent_field(bits) < 132,
    ensures
        ({
            let exponent = command::exponent_field(bits);
            let scale = pow2((exponent - 1) as nat) as int;
            let unit = pow2((150 - exponent) as nat) as int;
            &&& scale > 0
            &&& unit > 0
            &&& unit * scale == one_line()
            &&& float_value(bits) == (if command::sign_bit(bits) {
                -(command::significand(bits) * scale)
            } else {
                command::significand(bits) * scale
            })
        }),
{
    let exponent = command::exponent_field(bits);
    vstd::arithmetic::power2::lemma_pow2_adds((150 - exponent) as nat, (exponent - 1) as nat);
    vstd::arithmetic::power2::lemma_pow2_pos((exponent - 1) as nat);
    vstd::arithmetic::power2::lemma_pow2_pos((150 - exponent) as nat);
}

proof fn lemma_large_turn(bits: u32)
    requires
        command::exponent_field(bits) >= 132,
    ensures
        command::sign_bit(bits) ==> float_value(bits) < -20 * one_line(),
        !command::sign_bit(bits) ==> float_value(bits) > 20 * one_line(),
{
    let exponent = command::exponent_field(bits);
    let scale = pow2((exponent - 1) as nat) as int;
    vstd::arithmetic::power2::lemma_pow2_adds(18, 131);
    vstd::arithmetic::power2::lemma2_to64();
    vstd::arithmetic::power2::lemma_pow2_pos(131);
    if exponent - 1 > 131 {
        vstd::arithmetic::power2::lemma_pow2_strictly_increases(131, (exponent - 1) as nat);
    }
    let significand = command::significand(bits);
    let least = pow2(131) as int;
    assert(significand * scale > 20 * (0x4_0000 * least)) by (nonlinear_arith)
        requires
            significand >= 0x80_0000,
            scale >= least,
            least > 0,
    ;
}

proof fn lemma_whole_turn(bits: u32)
    requires
        command::exponent_field(bits) >= 127,
    ensures
        float_value(bits) >= one_line() || float_value(bits) <= -one_line(),
{
    let exponent = command::exponent_field(bits);
    let scale = pow2((exponent - 1) as nat) as int;
    let least = pow2(126) as int;
    vstd::arithmetic::power2::lemma_pow2_adds(23, 126);
    vstd::arithmetic::power2::lemma2_to64();
    vstd::arithmetic::power2::lemma_pow2_pos(126);
    if exponent - 1 > 126 {
        vstd::arithmetic::power2::lemma_pow2_strictly_increases(126, (exponent - 1) as nat);
    }
    let significand = command::significand(bits);
    assert(significand * scale >= 0x80_0000 * least) by (nonlinear_arith)
        requires
            significand >= 0x80_0000,
            scale >= least,
            least > 0,
    ;
}

proof fn lemma_divided_turn(significand: int, unit: int, scale: int, line: int)
    requires
        unit > 0,
        scale > 0,
        unit * scale == line,
        significand >= 0,
    ensures
        significand * scale == (significand / unit) * line + (significand % unit) * scale,
        0 <= (significand % unit) * scale < line,
        (significand * scale) / line == significand / unit,
        significand * scale > 20 * line <==> significand > 20 * unit,
{
    let whole = significand / unit;
    let rest = significand % unit;
    vstd::arithmetic::div_mod::lemma_fundamental_div_mod(significand, unit);
    vstd::arithmetic::div_mod::lemma_mod_bound(significand, unit);
    assert(significand * scale == whole * line + rest * scale) by (nonlinear_arith)
        requires
            significand == unit * whole + rest,
            unit * scale == line,
    ;
    assert(0 <= rest * scale < line) by (nonlinear_arith)
        requires
            0 <= rest < unit,
            scale > 0,
            unit * scale == line,
    ;
    vstd::arithmetic::div_mod::lemma_fundamental_div_mod_converse(
        significand * scale,
        line,
        whole,
        rest * scale,
    );
    assert(significand * scale > 20 * line <==> significand > 20 * unit) by (nonlinear_arith)
        requires
            scale > 0,
            unit * scale == line,
    ;
}

/// The float with the sign of another, whose significand is `rest` before it is
/// shifted to its place below `exponent`.
fn shifted_float(negative: bool, exponent: u32, rest: u32) -> (bits: u32)
    requires
        127 <= exponent < 132,
        0 < rest < 0x80_0000,
    ensures
        0 < command::exponent_field(bits) < exponent,
        float_value(bits) == (if negative {
            -(rest * pow2((exponent - 1) as nat))
        } else {
            rest * pow2((exponent - 1) as nat)
        }),
{
    proof {
        vstd::arithmetic::power2::lemma2_to64();
    }
    let mut significand: u32 = rest;
    let mut place: u32 = exponent;
    let mut steps: u32 = 0;
    while significand < 0x80_0000
        invariant
            127 <= exponent < 132,
            0 < significand < 0x100_0000,
            0 < rest,
            steps <= 23,
            place + steps == exponent,
            significand == rest * pow2(steps as nat),
            steps == 0 ==> significand < 0x80_0000,
            significand * pow2((place - 1) as nat) == rest * pow2((exponent - 1) as nat),
        decreases 0x100_0000 - significand,
    {
        proof {
            let before = significand as int;
            vstd::arithmetic::power2::lemma_pow2_unfold((steps + 1) as nat);
            vstd::arithmetic::power2::lemma_pow2_unfold((place - 1) as nat);
            vstd::arithmetic::power2::lemma2_to64();
            if steps == 23 {
                assert(rest * pow2(23) >= 0x80_0000) by (nonlinear_arith)
                    requires
                        rest > 0,
                        pow2(23) == 0x80_0000,
                ;
            }
            let scale = pow2((place - 2) as nat) as int;
            assert(before * (2 * scale) == (2 * before) * scale) by (nonlinear_arith);
            let factor = pow2(steps as nat) as int;
            assert(rest * (2 * factor) == 2 * (rest * factor)) by (nonlinear_arith);
        }
        significand = significand * 2;
        place -= 1;
        steps += 1;
    }
    let bits: u32 = place * 0x80_0000 + (significand - 0x80_0000);
    proof {
        assert(bits / 0x80_0000 == place && bits % 0x80_0000 == significand - 0x80_0000);
    }
    if negative {
        let signed: u32 = bits + 0x8000_0000;
        proof {
            assert(signed / 0x80_0000 == place + 256 && signed % 0x80_0000 == significand
                - 0x80_0000);
        }
        signed
    } else {
        bits
    }
}

/// Counts fine turns of the wheel together until they make whole lines, twenty
/// at most. What is left over, the turn and the sum of both are given by the bits
/// of 32-bit floats; the sum is as the machine adds.
pub fn accumulate_scroll_lines(remainder: &mut u32, lines: u32, sum: u32) -> (whole_lines: i32)
    requires
        !command::not_a_number(sum),
    ensures
        command::exponent_field(lines) == 255 || lines % 0x8000_0000 == 0 ==> whole_lines == 0
            && *final(remainder) == *old(remainder),
        command::exponent_field(lines) < 255 && lines % 0x8000_0000 != 0 ==> {
            &&& whole_lines == lines_in(bounded_turn(sum))
            &&& float_value(*final(remainder)) == bounded_turn(sum) - whole_lines * one_line()
            &&& command::exponent_field(*final(remainder)) < 127
            &&& whole_lines == 0 ==> *final(remainder) == sum
            &&& whole_lines != 0 && float_value(*final(remainder)) == 0 ==> *final(remainder) == 0
        },
{
    if (lines / 0x80_0000) % 256 == 255 || lines % 0x8000_0000 == 0 {
        return 0;
    }
    let exponent: u32 = (sum / 0x80_0000) % 256;
    let negative = sum >= 0x8000_0000;
    if exponent < 127 {
        proof {
            lemma_small_turn(sum);
        }
        *remainder = sum;
        return 0;
    }
    let ghost line = one_line();
    proof {
        vstd::arithmetic::power2::lemma_pow2_pos(149);
        vstd::arithmetic::div_mod::lemma_div_multiples_vanish(20, line);
        assert(float_value(0) == 0);
    }
    if exponent >= 132 {
        proof {
            lemma_large_turn(sum);
        }
        *remainder = 0;
        return if negative {
            -20
        } else {
            20
        };
    }
    let significand: u32 = 0x80_0000 + sum % 0x80_0000;
    let unit: u32 = command::power_of_two(150 - exponent);
    proof {
        lemma_turn(sum);
        lemma_divided_turn(
            significand as int,
            unit as int,
            pow2((exponent - 1) as nat) as int,
            line,
        );
        vstd::arithmetic::power2::lemma2_to64();
        if 150 - exponent < 23 {
            vstd::arithmetic::power2::lemma_pow2_strictly_increases((150 - exponent) as nat, 23);
        }
        if 150 - exponent > 19 {
            vstd::arithmetic::power2::lemma_pow2_strictly_increases(19, (150 - exponent) as nat);
        }
    }
    if significand > 20 * unit {
        *remainder = 0;
        return if negative {
            -20
        } else {
            20
        };
    }
    let whole: u32 = significand / unit;
    let rest: u32 = significand % unit;
    *remainder = if rest == 0 {
        0
    } else {
        shifted_float(negative, exponent, rest)
    };
    proof {
        let scale = pow2((exponent - 1) as nat) as int;
        assert(whole >= 1) by (nonlinear_arith)
            requires
                whole == significand / unit,
                significand >= unit,
                unit > 0,
        ;
        if rest > 0 {
            assert(rest * scale > 0) by (nonlinear_arith)
                requires
                    rest > 0,
                    scale > 0,
            ;
            if command::exponent_field(*remainder) >= 127 {
                lemma_whole_turn(*remainder);
            }
        }
        assert(float_value(sum) >= -20 * line && float_value(sum) <= 20 * line);
        assert(-(whole as int) * line == -(whole * line)) by (nonlinear_arith);
        assert(bounded_turn(sum) == float_value(sum));
        if rest == 0 {
            assert(rest * scale == 0) by (nonlinear_arith)
                requires
                    rest == 0,
            ;
        }
        let turn = significand * scale;
        assert(turn == whole * line + rest * scale);
        assert(float_value(*remainder) == (if negative {
            -(rest * scale)
        } else {
            rest * scale
        }));
        assert(turn > 0) by (nonlinear_arith)
            requires
                turn == significand * scale,
                significand > 0,
                scale > 0,
        ;
        assert(lines_in(bounded_turn(sum)) == (if negative {
            -(whole as int)
        } else {
            whole as int
        }));
    }
    if negative {
        -(whole as i32)
    } else {
        whole as i32
    }
}

/// A number with one added, where it can be.
pub open spec fn next_number(value: usize) -> int {
    if value == usize::MAX {
        usize::MAX as int
    } else {
        value + 1
    }
}

/// The number of a button together with the modifier keys.
pub open spec fn button_with_modifiers(code: int, shift: bool, alt: bool, control: bool) -> int {
    let sum = code + (if shift {
        4int
    } else {
        0
    }) + (if alt {
        8int
    } else {
        0
    }) + (if control {
        16int
    } else {
        0
    });
    if sum > 255 {
        255
    } else {
        sum
    }
}

/// A mouse report in the SGR form.
pub open spec fn sgr_report(code: int, column: int, row: int, release: bool) -> Seq<char> {
    "\x1b[<"@ + text::decimal(code as nat) + ";"@ + text::decimal(column as nat) + ";"@
        + text::decimal(row as nat) + (if release {
        "m"@
    } else {
        "M"@
    })
}

/// The three numbers of a mouse report in one of the older forms.
pub open spec fn report_numbers(code: int, column: int, row: int) -> Seq<int> {
    seq![code + 32, frame::least(column, 223) + 32, frame::least(row, 223) + 32]
}

/// A mouse report for a button number.
pub open spec fn button_report(
    code: int,
    column: usize,
    row: usize,
    shift: bool,
    alt: bool,
    control: bool,
    mode: TermMode,
    release: bool,
) -> Seq<u8> {
    let code = button_with_modifiers(code, shift, alt, control);
    let numbers = report_numbers(code, next_number(column), next_number(row));
    if mode.has(TermMode::SGR_MOUSE) {
        encode_utf8(sgr_report(code, next_number(column), next_number(row), release))
    } else if mode.has(TermMode::UTF8_MOUSE) {
        seq![0x1bu8, 0x5b, 0x4d] + encode_utf8(
            seq![numbers[0] as char, numbers[1] as char, numbers[2] as char],
        )
    } else {
        seq![
            0x1bu8,
            0x5b,
            0x4d,
            (numbers[0] % 256) as u8,
            numbers[1] as u8,
            numbers[2] as u8,
        ]
    }
}

fn scalar(value: u32) -> (character: char)
    requires
        value < 0x200,
    ensures
        character as int == value,
{
    match char::from_u32(value) {
        Some(character) => character,
        None => '?',
    }
}

/// Adds the modifier keys and the position to a button number, in the form that
/// the program asked for.
#[verifier::rlimit(60)]
pub fn encode_mouse_button_code(
    button_code: u8,
    column: usize,
    row: usize,
    shift: bool,
    alt: bool,
    control: bool,
    mode: TermMode,
    release: bool,
) -> (bytes: Vec<u8>)
    ensures
        bytes@ == button_report(
            button_code as int,
            column,
            row,
            shift,
            alt,
            control,
            mode,
            release,
        ),
{
    let mut modifiers: u8 = 0;
    if shift {
        modifiers += 4;
    }
    if alt {
        modifiers += 8;
    }
    if control {
        modifiers += 16;
    }
    let code: u8 = button_code.saturating_add(modifiers);
    let column: usize = column.saturating_add(1);
    let row: usize = row.saturating_add(1);
    if mode.contains(TermMode::SGR_MOUSE) {
        let mut report = "\x1b[<".to_owned();
        report.append(text::decimal_text(code as u64).as_str());
        report.append(";");
        report.append(text::decimal_text(column as u64).as_str());
        report.append(";");
        report.append(text::decimal_text(row as u64).as_str());
        if release {
            report.append("m");
        } else {
            report.append("M");
        }
        return text::utf8_bytes(report.as_str());
    }
    let first: u32 = code as u32 + 32;
    let second: u32 = (if column < 223 {
        column as u32
    } else {
        223
    }) + 32;
    let third: u32 = (if row < 223 {
        row as u32
    } else {
        223
    }) + 32;
    let mut bytes: Vec<u8> = Vec::new();
    bytes.push(0x1b);
    bytes.push(0x5b);
    bytes.push(0x4d);
    if mode.contains(TermMode::UTF8_MOUSE) {
        let mut numbers = String::new();
        numbers.push(scalar(first));
        numbers.push(scalar(second));
        numbers.push(scalar(third));
        let mut encoded = text::utf8_bytes(numbers.as_str());
        let ghost plain = encoded@;
        bytes.append(&mut encoded);
        proof {
            let expected = report_numbers(code as int, column as int, row as int);
            assert(numbers@ == seq![
                expected[0] as char,
                expected[1] as char,
                expected[2] as char,
            ]);
            assert(bytes@ == seq![0x1bu8, 0x5b, 0x4d] + plain);
        }
    } else {
        bytes.push((first % 256) as u8);
        bytes.push(second as u8);
        bytes.push(third as u8);
    }
    bytes
}

/// The number of a button, before modifier keys; none for buttons that are not
/// reported.
pub open spec fn button_number(
    button: MouseButton,
    action: MouseAction,
    mode: TermMode,
) -> Option<int> {
    let base = match button {
        MouseButton::Left => Some(0int),
        MouseButton::Middle => Some(1),
        MouseButton::Right => Some(2),
        MouseButton::Other => None,
    };
    match base {
        None => None,
        Some(code) => Some(
            if action == MouseAction::Release && !mode.has(TermMode::SGR_MOUSE) {
                3
            } else if action == MouseAction::Move {
                code + 32
            } else {
                code
            },
        ),
    }
}

/// The mouse report for an event; empty where nothing is reported.
pub open spec fn mouse_report(
    button: MouseButton,
    action: MouseAction,
    column: usize,
    row: usize,
    shift: bool,
    alt: bool,
    control: bool,
    mode: TermMode,
) -> Seq<u8> {
    match button_number(button, action, mode) {
        None => Seq::empty(),
        Some(code) => button_report(
            code,
            column,
            row,
            shift,
            alt,
            control,
            mode,
            action == MouseAction::Release,
        ),
    }
}

/// Encodes a mouse event in the form that the program asked for.
pub fn encode_mouse_report(
    button: MouseButton,
    action: MouseAction,
    column: usize,
    row: usize,
    shift: bool,
    alt: bool,
    control: bool,
    mode: TermMode,
) -> (bytes: Vec<u8>)
    ensures
        bytes@ == mouse_report(button, action, column, row, shift, alt, control, mode),
{
    let mut code: u8 = match button {
        MouseButton::Left => 0,
        MouseButton::Middle => 1,
        MouseButton::Right => 2,
        MouseButton::Other => {
            return Vec::new();
        },
    };
    let release = action == MouseAction::Release;
    if release && !mode.contains(TermMode::SGR_MOUSE) {
        code = 3;
    } else if action == MouseAction::Move {
        code += 32;
    }
    encode_mouse_button_code(code, column, row, shift, alt, control, mode, release)
}

/// In the oldest form a report has six bytes, and no number in it but the first
/// goes beyond a byte: positions from column or row 223 on are reported alike.
pub proof fn old_reports_have_six_bytes(
    code: u8,
    column: usize,
    row: usize,
    shift: bool,
    alt: bool,
    control: bool,
    mode: TermMode,
    release: bool,
)
    requires
        !mode.has(TermMode::SGR_MOUSE),
        !mode.has(TermMode::UTF8_MOUSE),
    ensures
        ({
            let report = button_report(code as int, column, row, shift, alt, control, mode, release);
            &&& report.len() == 6
            &&& report[4] == frame::least(next_number(column), 223) + 32
            &&& report[5] == frame::least(next_number(row), 223) + 32
        }),
{
}

/// A position on the screen stands for the cell that is seen there: the view shows
/// lines that are as many lines up as it is scrolled back. A position outside of
/// the screen stands for the nearest cell of it.
pub proof fn positions_stand_for_what_is_seen(
    display_offset: int,
    size: TerminalSize,
    column: int,
    row: int,
)
    requires
        size.columns > 0,
        size.rows > 0,
        0 <= column,
        0 <= row,
    ensures
        row < size.rows ==> point_in_view(display_offset, size, column, row).0 + display_offset
            == row,
        row >= size.rows ==> point_in_view(display_offset, size, column, row) == point_in_view(
            display_offset,
            size,
            column,
            size.rows - 1,
        ),
        column < size.columns ==> point_in_view(display_offset, size, column, row).1 == column,
        column >= size.columns ==> point_in_view(display_offset, size, column, row).1
            == size.columns - 1,
{
}

/// The whole lines of a turn of the wheel go in its direction, and less than a line
/// is left over, in the same direction.
pub proof fn lines_are_cut_towards_zero(turn: int)
    ensures
        turn >= 0 ==> lines_in(turn) >= 0 && 0 <= turn - lines_in(turn) * one_line() < one_line(),
        turn <= 0 ==> lines_in(turn) <= 0 && 0 <= lines_in(turn) * one_line() - turn < one_line(),
{
    vstd::arithmetic::power2::lemma_pow2_pos(149);
    let size = if turn < 0 {
        -turn
    } else {
        turn
    };
    let line = one_line();
    vstd::arithmetic::div_mod::lemma_fundamental_div_mod(size, line);
    vstd::arithmetic::div_mod::lemma_mod_bound(size, line);
    vstd::arithmetic::div_mod::lemma_div_pos_is_pos(size, line);
    let whole = size / line;
    assert(line * whole == whole * line) by (nonlinear_arith);
    assert((-whole) * line == -(whole * line)) by (nonlinear_arith);
}

/// The sign bit of a float turns its value round, one more in its exponent doubles
/// it, and the float that stands for one is worth one line.
pub proof fn floats_are_worth_what_they_stand_for(bits: u32)
    requires
        bits < 0x8000_0000,
    ensures
        float_value((bits + 0x8000_0000) as u32) == -float_value(bits),
        float_value(bits) >= 0,
        float_value(0) == 0,
        float_value(0x3f80_0000) == one_line(),
        1 <= command::exponent_field(bits) < 254 ==> float_value((bits + 0x80_0000) as u32) == 2
            * float_value(bits),
        bits % 0x80_0000 != 0x7f_ffff && command::exponent_field(bits) >= 1 ==> float_value(
            (bits + 1) as u32,
        ) == float_value(bits) + pow2((command::exponent_field(bits) - 1) as nat),
{
    let signed = (bits + 0x8000_0000) as u32;
    assert(signed / 0x80_0000 == bits / 0x80_0000 + 256 && signed % 0x80_0000 == bits % 0x80_0000);
    let exponent = command::exponent_field(bits);
    vstd::arithmetic::power2::lemma_pow2_adds(23, 126);
    vstd::arithmetic::power2::lemma2_to64();
    assert(command::exponent_field(0x3f80_0000) == 127);
    assert(command::significand(0x3f80_0000) == 0x80_0000);
    if exponent >= 1 {
        let scale = pow2((exponent - 1) as nat) as int;
        vstd::arithmetic::power2::lemma_pow2_pos((exponent - 1) as nat);
        let significand = command::significand(bits);
        assert(significand * scale >= 0) by (nonlinear_arith)
            requires
                significand >= 0,
                scale >= 0,
        ;
        if exponent < 254 {
            let doubled = (bits + 0x80_0000) as u32;
            assert(doubled / 0x80_0000 == bits / 0x80_0000 + 1 && doubled % 0x80_0000 == bits
                % 0x80_0000);
            vstd::arithmetic::power2::lemma_pow2_unfold(exponent as nat);
            assert(significand * (2 * scale) == 2 * (significand * scale)) by (nonlinear_arith);
        }
        if bits % 0x80_0000 != 0x7f_ffff {
            let next = (bits + 1) as u32;
            assert(next / 0x80_0000 == bits / 0x80_0000 && next % 0x80_0000 == bits % 0x80_0000
                + 1);
            assert((significand + 1) * scale == significand * scale + scale) by (nonlinear_arith);
        }
    }
}

/// A length in pixels is rounded up to the next whole number, with one as the least
/// and 65535 as the greatest.
pub proof fn lengths_are_rounded_up(bits: u32)
    requires
        !command::not_a_number(bits),
    ensures
        ({
            let length = command::whole_pixels(bits);
            &&& 1 <= length <= 65535
            &&& length < 65535 ==> float_value(bits) <= length * one_line()
            &&& length > 1 ==> float_value(bits) > (length - 1) * one_line()
        }),
{
    let exponent = command::exponent_field(bits);
    let line = one_line();
    vstd::arithmetic::power2::lemma_pow2_pos(149);
    if command::sign_bit(bits) {
        let plain = (bits - 0x8000_0000) as u32;
        floats_are_worth_what_they_stand_for(plain);
    } else if exponent < 127 {
        lemma_small_turn(bits);
    } else if exponent >= 143 {
        let scale = pow2((exponent - 1) as nat) as int;
        let least = pow2(142) as int;
        vstd::arithmetic::power2::lemma_pow2_adds(7, 142);
        vstd::arithmetic::power2::lemma2_to64();
        vstd::arithmetic::power2::lemma_pow2_pos(142);
        if exponent - 1 > 142 {
            vstd::arithmetic::power2::lemma_pow2_strictly_increases(142, (exponent - 1) as nat);
        }
        let significand = command::significand(bits);
        assert(significand * scale >= 0x80_0000 * least) by (nonlinear_arith)
            requires
                significand >= 0x80_0000,
                scale >= least,
                least > 0,
        ;
        assert(65534 * (128 * least) < 0x80_0000 * least) by (nonlinear_arith)
            requires
                least > 0,
        ;
    } else {
        let scale = pow2((exponent - 1) as nat) as int;
        let unit = pow2((150 - exponent) as nat) as int;
        let significand = command::significand(bits);
        vstd::arithmetic::power2::lemma_pow2_adds((150 - exponent) as nat, (exponent - 1) as nat);
        vstd::arithmetic::power2::lemma_pow2_pos((exponent - 1) as nat);
        vstd::arithmetic::power2::lemma_pow2_pos((150 - exponent) as nat);
        let sum = significand + unit - 1;
        let ceiling = sum / unit;
        vstd::arithmetic::div_mod::lemma_fundamental_div_mod(sum, unit);
        vstd::arithmetic::div_mod::lemma_mod_bound(sum, unit);
        let rest = sum % unit;
        assert(unit * ceiling == ceiling * unit) by (nonlinear_arith);
        assert(significand <= ceiling * unit);
        assert((ceiling - 1) * unit == ceiling * unit - unit) by (nonlinear_arith);
        assert(significand > (ceiling - 1) * unit);
        assert(ceiling >= 1) by (nonlinear_arith)
            requires
                significand <= ceiling * unit,
                significand >= 0x80_0000,
                unit > 0,
        ;
        assert(significand * scale <= ceiling * line) by (nonlinear_arith)
            requires
                significand <= ceiling * unit,
                unit * scale == line,
                scale > 0,
        ;
        assert(significand * scale > (ceiling - 1) * line) by (nonlinear_arith)
            requires
                significand > (ceiling - 1) * unit,
                unit * scale == line,
                scale > 0,
        ;
        if ceiling > 65535 {
            assert((ceiling - 1) * line >= 65534 * line) by (nonlinear_arith)
                requires
                    ceiling > 65535,
                    line > 0,
            ;
        }
    }
}

/// A mouse report in the SGR form: an escape, an opening bracket and a less-than
/// sign, then the button, the column and the row in decimal notation, counted from
/// one, and at the end a small letter for a release and a capital for the rest.
/// The button is 0, 1 or 2 from left to right, with 32 more for a movement, and
/// with 4 for shift, 8 for alt and 16 for control.
pub proof fn sgr_reports_tell_button_and_cell(
    button: MouseButton,
    action: MouseAction,
    column: usize,
    row: usize,
    shift: bool,
    alt: bool,
    control: bool,
    mode: TermMode,
    code: nat,
)
    requires
        mode.bits & 0x20 == 0x20,
        button !is Other,
        column < usize::MAX,
        row < usize::MAX,
        code == (if button is Left {
            0int
        } else if button is Middle {
            1
        } else {
            2
        }) + (if action is Move {
            32int
        } else {
            0
        }) + (if shift {
            4int
        } else {
            0
        }) + (if alt {
            8int
        } else {
            0
        }) + (if control {
            16int
        } else {
            0
        }),
    ensures
        mouse_report(button, action, column, row, shift, alt, control, mode) == encode_utf8(
            seq!['\x1b', '[', '<'] + text::decimal(code) + seq![';'] + text::decimal(
                (column + 1) as nat,
            ) + seq![';'] + text::decimal((row + 1) as nat) + seq![
                if action is Release {
                    'm'
                } else {
                    'M'
                },
            ],
        ),
{
    reveal_strlit("\x1b[<");
    reveal_strlit(";");
    reveal_strlit("m");
    reveal_strlit("M");
    assert("\x1b[<"@ =~= seq!['\x1b', '[', '<']);
    assert(";"@ =~= seq![';']);
    assert("m"@ =~= seq!['m']);
    assert("M"@ =~= seq!['M']);
}

/// In the older forms a report is an escape, an opening bracket and an M, then the
/// button, the column and the row, each with 32 added and columns and rows counted
/// from one and no further than 223. A release does not tell the button: it is 3.
/// In one form the numbers are single bytes, in the other they are characters.
#[verifier::rlimit(60)]
pub proof fn old_reports_tell_button_and_cell(
    button: MouseButton,
    action: MouseAction,
    column: usize,
    row: usize,
    shift: bool,
    alt: bool,
    control: bool,
    mode: TermMode,
    first: u8,
    second: u8,
    third: u8,
)
    requires
        mode.bits & 0x20 != 0x20,
        button !is Other,
        first == 32 + (if action is Release {
            3int
        } else if button is Left {
            0
        } else if button is Middle {
            1
        } else {
            2
        }) + (if action is Move {
            32int
        } else {
            0
        }) + (if shift {
            4int
        } else {
            0
        }) + (if alt {
            8int
        } else {
            0
        }) + (if control {
            16int
        } else {
            0
        }),
        second == 33 + (if column < 222 {
            column as int
        } else {
            222
        }),
        third == 33 + (if row < 222 {
            row as int
        } else {
            222
        }),
    ensures
        mode.bits & 0x4000 != 0x4000 ==> mouse_report(
            button,
            action,
            column,
            row,
            shift,
            alt,
            control,
            mode,
        ) == seq![0x1bu8, 0x5bu8, 0x4du8, first, second, third],
        mode.bits & 0x4000 == 0x4000 ==> mouse_report(
            button,
            action,
            column,
            row,
            shift,
            alt,
            control,
            mode,
        ) == seq![0x1bu8, 0x5bu8, 0x4du8] + encode_utf8(
            seq![first as char, second as char, third as char],
        ),
{
    let code = button_number(button, action, mode)->0;
    let whole = button_with_modifiers(code, shift, alt, control);
    let numbers = report_numbers(whole, next_number(column), next_number(row));
    assert(whole + 32 == first);
    assert(numbers[0] == first && numbers[1] == second && numbers[2] == third);
}

/// Other buttons than the left, the middle and the right one are never reported.
pub proof fn other_buttons_are_not_reported(
    action: MouseAction,
    column: usize,
    row: usize,
    shift: bool,
    alt: bool,
    control: bool,
    mode: TermMode,
)
    ensures
        mouse_report(MouseButton::Other, action, column, row, shift, alt, control, mode).len() == 0,
{
}

/// A turn of the wheel is reported as a press of button 64 or 65, in the same form
/// as a press of the left button: only the number of the button differs.
pub proof fn wheel_reports_have_numbers_of_their_own(
    up: bool,
    column: usize,
    row: usize,
    mode: TermMode,
    code: int,
)
    requires
        code == if up {
            64int
        } else {
            65
        },
        column < usize::MAX,
        row < usize::MAX,
    ensures
        mode.bits & 0x20 == 0x20 ==> button_report(
            code,
            column,
            row,
            false,
            false,
            false,
            mode,
            false,
        ) == encode_utf8(
            seq!['\x1b', '[', '<', '6', if up {
                '4'
            } else {
                '5'
            }, ';'] + text::decimal((column + 1) as nat) + seq![';'] + text::decimal(
                (row + 1) as nat,
            ) + seq!['M'],
        ),
        mode.bits & 0x20 != 0x20 && mode.bits & 0x4000 != 0x4000 ==> button_report(
            code,
            column,
            row,
            false,
            false,
            false,
            mode,
            false,
        ) == mouse_report(
            MouseButton::Left,
            MouseAction::Press,
            column,
            row,
            false,
            false,
            false,
            mode,
        ).update(3, (32 + code) as u8),
{
    reveal_strlit("\x1b[<");
    reveal_strlit(";");
    reveal_strlit("M");
    reveal_with_fuel(text::decimal, 3);
    let shown = text::decimal(code as nat);
    assert(code / 10 == 6);
    assert(shown =~= seq!['6', if up {
        '4'
    } else {
        '5'
    }]);
    if mode.bits & 0x20 == 0x20 {
        assert(sgr_report(code, column + 1, row + 1, false) =~= seq!['\x1b', '[', '<', '6', if up {
            '4'
        } else {
            '5'
        }, ';'] + text::decimal((column + 1) as nat) + seq![';'] + text::decimal((row + 1) as nat)
            + seq!['M']);
    }
}

pub(crate) proof fn lemma_sizes_of_turns(bits: u32)
    requires
        bits < 0x8000_0000,
        command::exponent_field(bits) != 255,
    ensures
        one_line() > 0,
        command::exponent_field(bits) < 127 ==> float_value(bits) < one_line(),
        command::exponent_field(bits) >= 132 ==> float_value(bits) > 20 * one_line(),
        127 <= command::exponent_field(bits) < 132 ==> ({
            let scale = pow2((command::exponent_field(bits) - 1) as nat) as int;
            let unit = pow2((150 - command::exponent_field(bits)) as nat) as int;
            scale > 0 && unit > 0 && unit * scale == one_line() && float_value(bits)
                == command::significand(bits) * scale
        }),
{
    vstd::arithmetic::power2::lemma_pow2_pos(149);
    let exponent = command::exponent_field(bits);
    if exponent < 127 {
        lemma_small_turn(bits);
    } else if exponent >= 132 {
        lemma_large_turn(bits);
    } else {
        lemma_turn(bits);
    }
}

/// A turn of up to twenty lines counts as it is, a larger one as twenty lines in its
/// direction.
pub proof fn turns_are_kept_within_twenty_lines(bits: u32)
    ensures
        -20 * one_line() <= float_value(bits) <= 20 * one_line() ==> bounded_turn(bits)
            == float_value(bits),
        float_value(bits) > 20 * one_line() ==> bounded_turn(bits) == 20 * one_line(),
        float_value(bits) < -20 * one_line() ==> bounded_turn(bits) == -20 * one_line(),
{
    vstd::arithmetic::power2::lemma_pow2_pos(149);
}

} // verus!
