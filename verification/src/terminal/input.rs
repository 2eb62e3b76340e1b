//! Keys become the byte sequences that terminal programs read.

use vstd::prelude::*;
use vstd::string::*;
use vstd::utf8::encode_utf8;
use crate::terminal::mode::TermMode;
use crate::text;

verus! {

/// A key, as the terminal distinguishes keys.
#[derive(Debug, PartialEq, Eq)]
pub enum KeyInput {
    Text(String),
    Return,
    Backspace,
    Tab,
    Escape,
    Up,
    Down,
    Right,
    Left,
    Home,
    End,
    Delete,
    PageUp,
    PageDown,
    Insert,
    Backtab,
    Function(u8),
}

/// The byte for a character typed with the control key.
pub open spec fn control_code(character: char) -> Option<u8> {
    let upper = text::ascii_upper(character);
    if '@' <= upper <= '_' {
        Some((upper as u8) & 0x1f)
    } else if upper == ' ' || upper == '2' {
        Some(0)
    } else if upper == '3' {
        Some(27)
    } else if upper == '4' {
        Some(28)
    } else if upper == '5' {
        Some(29)
    } else if upper == '6' {
        Some(30)
    } else if upper == '7' || upper == '-' {
        Some(31)
    } else if upper == '8' || upper == '?' {
        Some(127)
    } else {
        None
    }
}

pub fn control_byte(character: char) -> (byte: Option<u8>)
    ensures
        byte == control_code(character),
{
    let upper = text::to_ascii_upper(character);
    if '@' <= upper && upper <= '_' {
        Some((upper as u8) & 0x1f)
    } else if upper == ' ' || upper == '2' {
        Some(0)
    } else if upper == '3' {
        Some(27)
    } else if upper == '4' {
        Some(28)
    } else if upper == '5' {
        Some(29)
    } else if upper == '6' {
        Some(30)
    } else if upper == '7' || upper == '-' {
        Some(31)
    } else if upper == '8' || upper == '?' {
        Some(127)
    } else {
        None
    }
}

/// The bytes for typed text.
pub open spec fn text_bytes(typed: Seq<char>, control: bool, alt: bool) -> Seq<u8> {
    let prefix = if alt {
        seq![0x1bu8]
    } else {
        Seq::empty()
    };
    if control && typed.len() == 1 && control_code(typed[0]) is Some {
        prefix + seq![control_code(typed[0])->0]
    } else {
        prefix + encode_utf8(typed)
    }
}

/// Encodes typed text: the alt key puts an escape before it, the control key
/// turns a single character into its control byte where it has one.
pub fn encode_text(typed: &str, control: bool, alt: bool) -> (bytes: Vec<u8>)
    ensures
        bytes@ == text_bytes(typed@, control, alt),
{
    let mut bytes: Vec<u8> = Vec::new();
    if alt {
        bytes.push(0x1b);
    }
    let ghost prefix = bytes@;
    assert(prefix == if alt {
        seq![0x1bu8]
    } else {
        Seq::empty()
    });
    if control {
        let list = text::characters(typed);
        if list.len() == 1 {
            if let Some(byte) = control_byte(list[0]) {
                bytes.push(byte);
                assert(bytes@ == prefix + seq![byte]);
                return bytes;
            }
        }
    }
    let mut encoded = text::utf8_bytes(typed);
    bytes.append(&mut encoded);
    bytes
}

/// The number that stands for the modifier keys in a key sequence; none where
/// no modifier key is held.
pub open spec fn modifier_number(control: bool, alt: bool, shift: bool) -> Option<u8> {
    if !control && !alt && !shift {
        None
    } else {
        Some(
            (1 + (if shift {
                1int
            } else {
                0
            }) + (if alt {
                2int
            } else {
                0
            }) + (if control {
                4int
            } else {
                0
            })) as u8,
        )
    }
}

pub fn modifier_parameter(control: bool, alt: bool, shift: bool) -> (parameter: Option<u8>)
    ensures
        parameter == modifier_number(control, alt, shift),
{
    let mut value: u8 = 1;
    if shift {
        value += 1;
    }
    if alt {
        value += 2;
    }
    if control {
        value += 4;
    }
    if value != 1 {
        Some(value)
    } else {
        None
    }
}

/// The sequence of a cursor key.
pub open spec fn cursor_key(key: char, mode: TermMode, modifier: Option<u8>) -> Seq<char> {
    match modifier {
        Some(number) => ("\x1b[1;"@ + text::decimal(number as nat)).push(key),
        None => if mode.has(TermMode::APP_CURSOR) {
            "\x1bO"@.push(key)
        } else {
            "\x1b["@.push(key)
        },
    }
}

pub fn cursor_sequence(key: char, mode: TermMode, modifier: Option<u8>) -> (sequence: String)
    ensures
        sequence@ == cursor_key(key, mode, modifier),
{
    if let Some(number) = modifier {
        let mut sequence = "\x1b[1;".to_owned();
        sequence.append(text::decimal_text(number as u64).as_str());
        sequence.push(key);
        return sequence;
    }
    let mut sequence = if mode.contains(TermMode::APP_CURSOR) {
        "\x1bO".to_owned()
    } else {
        "\x1b[".to_owned()
    };
    sequence.push(key);
    sequence
}

/// The sequence of a key that is known by a number.
pub open spec fn numbered_key(number: u8, modifier: Option<u8>) -> Seq<char> {
    let start = "\x1b["@ + text::decimal(number as nat);
    match modifier {
        Some(parameter) => start + ";"@ + text::decimal(parameter as nat) + "~"@,
        None => start + "~"@,
    }
}

pub fn tilde_sequence(number: u8, modifier: Option<u8>) -> (sequence: String)
    ensures
        sequence@ == numbered_key(number, modifier),
{
    let mut sequence = "\x1b[".to_owned();
    sequence.append(text::decimal_text(number as u64).as_str());
    if let Some(parameter) = modifier {
        sequence.append(";");
        sequence.append(text::decimal_text(parameter as u64).as_str());
    }
    sequence.append("~");
    sequence
}

/// The sequence of a function key: the first four end in a letter, the others
/// are known by a number; there is none behind the twelfth.
pub open spec fn function_key(number: u8, modifier: Option<u8>) -> Seq<char> {
    if number <= 4 {
        let letter = if number <= 1 {
            'P'
        } else if number == 2 {
            'Q'
        } else if number == 3 {
            'R'
        } else {
            'S'
        };
        match modifier {
            Some(parameter) => ("\x1b[1;"@ + text::decimal(parameter as nat)).push(letter),
            None => "\x1bO"@.push(letter),
        }
    } else if number == 5 {
        numbered_key(15, modifier)
    } else if 6 <= number <= 10 {
        numbered_key((number + 11) as u8, modifier)
    } else if number == 11 {
        numbered_key(23, modifier)
    } else if number == 12 {
        numbered_key(24, modifier)
    } else {
        Seq::empty()
    }
}

pub fn function_sequence(number: u8, modifier: Option<u8>) -> (sequence: String)
    ensures
        sequence@ == function_key(number, modifier),
{
    if number <= 4 {
        let letter = if number <= 1 {
            'P'
        } else if number == 2 {
            'Q'
        } else if number == 3 {
            'R'
        } else {
            'S'
        };
        let mut sequence = match modifier {
            Some(parameter) => text::concat(
                "\x1b[1;",
                text::decimal_text(parameter as u64).as_str(),
            ),
            None => "\x1bO".to_owned(),
        };
        sequence.push(letter);
        return sequence;
    }
    let code: u8 = match number {
        5 => 15,
        6 => 17,
        7 => 18,
        8 => 19,
        9 => 20,
        10 => 21,
        11 => 23,
        12 => 24,
        _ => {
            let sequence = String::new();
            assert(sequence@ == Seq::<char>::empty());
            return sequence;
        },
    };
    tilde_sequence(code, modifier)
}

/// The sequence of the back tab, which shift alone does not change.
pub open spec fn back_tab(modifier: Option<u8>) -> Seq<char> {
    match modifier {
        None => "\x1b[Z"@,
        Some(parameter) => if parameter == 2 {
            "\x1b[Z"@
        } else {
            "\x1b[1;"@ + text::decimal(parameter as nat) + "Z"@
        },
    }
}

/// The sequence of a key other than text.
pub open spec fn key_sequence(input: KeyInput, modifier: Option<u8>, mode: TermMode) -> Seq<char> {
    match input {
        KeyInput::Text(typed) => typed@,
        KeyInput::Return => "\r"@,
        KeyInput::Backspace => "\x7f"@,
        KeyInput::Tab => "\t"@,
        KeyInput::Escape => "\x1b"@,
        KeyInput::Up => cursor_key('A', mode, modifier),
        KeyInput::Down => cursor_key('B', mode, modifier),
        KeyInput::Right => cursor_key('C', mode, modifier),
        KeyInput::Left => cursor_key('D', mode, modifier),
        KeyInput::Home => cursor_key('H', mode, modifier),
        KeyInput::End => cursor_key('F', mode, modifier),
        KeyInput::Delete => numbered_key(3, modifier),
        KeyInput::PageUp => numbered_key(5, modifier),
        KeyInput::PageDown => numbered_key(6, modifier),
        KeyInput::Insert => numbered_key(2, modifier),
        KeyInput::Backtab => back_tab(modifier),
        KeyInput::Function(number) => function_key(number, modifier),
    }
}

/// The bytes that a key sends. AltGr produces characters of its own, so with it
/// neither control nor alt counts.
pub open spec fn key_bytes(
    input: KeyInput,
    control: bool,
    alt: bool,
    shift: bool,
    altgr: bool,
    mode: TermMode,
) -> Seq<u8> {
    let control = control && !altgr;
    let alt = alt && !altgr;
    match input {
        KeyInput::Text(typed) => text_bytes(typed@, control, alt),
        _ => encode_utf8(key_sequence(input, modifier_number(control, alt, shift), mode)),
    }
}

/// Encodes a key.
pub fn encode_key(
    input: KeyInput,
    control: bool,
    alt: bool,
    shift: bool,
    altgr: bool,
    mode: TermMode,
) -> (bytes: Vec<u8>)
    ensures
        bytes@ == key_bytes(input, control, alt, shift, altgr, mode),
{
    let control = control && !altgr;
    let alt = alt && !altgr;
    let modifier = modifier_parameter(control, alt, shift);
    let sequence = match input {
        KeyInput::Text(typed) => {
            return encode_text(typed.as_str(), control, alt);
        },
        KeyInput::Return => "\r".to_owned(),
        KeyInput::Backspace => "\x7f".to_owned(),
        KeyInput::Tab => "\t".to_owned(),
        KeyInput::Escape => "\x1b".to_owned(),
        KeyInput::Up => cursor_sequence('A', mode, modifier),
        KeyInput::Down => cursor_sequence('B', mode, modifier),
        KeyInput::Right => cursor_sequence('C', mode, modifier),
        KeyInput::Left => cursor_sequence('D', mode, modifier),
        KeyInput::Home => cursor_sequence('H', mode, modifier),
        KeyInput::End => cursor_sequence('F', mode, modifier),
        KeyInput::Delete => tilde_sequence(3, modifier),
        KeyInput::PageUp => tilde_sequence(5, modifier),
        KeyInput::PageDown => tilde_sequence(6, modifier),
        KeyInput::Insert => tilde_sequence(2, modifier),
        KeyInput::Backtab => match modifier {
            None => "\x1b[Z".to_owned(),
            Some(parameter) => if parameter == 2 {
                "\x1b[Z".to_owned()
            } else {
                text::concat3("\x1b[1;", text::decimal_text(parameter as u64).as_str(), "Z")
            },
        },
        KeyInput::Function(number) => function_sequence(number, modifier),
    };
    text::utf8_bytes(sequence.as_str())
}

/// The state of the keyboard in which control, alt, shift and AltGr are all up.
pub fn no_modifiers() -> (modifiers: (bool, bool, bool, bool))
    ensures
        modifiers == (false, false, false, false),
{
    (false, false, false, false)
}

/// Encodes a key that is pressed alone.
pub fn encode_without_modifiers(input: KeyInput, mode: TermMode) -> (bytes: Vec<u8>)
    ensures
        bytes@ == key_bytes(input, false, false, false, false, mode),
{
    let (control, alt, shift, altgr) = no_modifiers();
    encode_key(input, control, alt, shift, altgr, mode)
}

/// With AltGr the control and alt keys change nothing.
pub proof fn altgr_sends_what_is_typed(
    input: KeyInput,
    control: bool,
    alt: bool,
    shift: bool,
    mode: TermMode,
)
    ensures
        key_bytes(input, control, alt, shift, true, mode) == key_bytes(
            input,
            false,
            false,
            shift,
            true,
            mode,
        ),
        input matches KeyInput::Text(typed) ==> key_bytes(input, control, alt, shift, true, mode)
            == encode_utf8(typed@),
{
    assert(Seq::<u8>::empty() + encode_utf8(input->Text_0@) == encode_utf8(input->Text_0@));
}

/// The application cursor mode shows only in cursor keys that are pressed
/// without a modifier key.
pub proof fn cursor_mode_changes_plain_cursor_keys_only(
    input: KeyInput,
    control: bool,
    alt: bool,
    shift: bool,
    altgr: bool,
    left: TermMode,
    right: TermMode,
)
    requires
        shift || (!altgr && (control || alt)) || !(input is Up || input is Down || input is Right
            || input is Left || input is Home || input is End),
    ensures
        key_bytes(input, control, alt, shift, altgr, left) == key_bytes(
            input,
            control,
            alt,
            shift,
            altgr,
            right,
        ),
{
}

proof fn lemma_small_decimals()
    ensures
        forall|number: nat| number < 10 ==> #[trigger] text::decimal(number) == seq![
            text::digit(number),
        ],
        forall|number: nat| 10 <= number < 100 ==> #[trigger] text::decimal(number) == seq![
            text::digit(number / 10),
            text::digit(number % 10),
        ],
{
    assert forall|number: nat| 10 <= number < 100 implies #[trigger] text::decimal(number) == seq![
        text::digit(number / 10),
        text::digit(number % 10),
    ] by {
        assert(text::decimal(number / 10) == seq![text::digit(number / 10)]);
    }
}

proof fn lemma_sequence_starts()
    ensures
        "\x1b["@ == seq!['\x1b', '['],
        "\x1bO"@ == seq!['\x1b', 'O'],
        "\x1b[1;"@ == seq!['\x1b', '[', '1', ';'],
        "\x1b[Z"@ == seq!['\x1b', '[', 'Z'],
        "Z"@ == seq!['Z'],
        ";"@ == seq![';'],
        "~"@ == seq!['~'],
{
    reveal_strlit("\x1b[");
    reveal_strlit("\x1bO");
    reveal_strlit("\x1b[1;");
    reveal_strlit("\x1b[Z");
    reveal_strlit("Z");
    reveal_strlit(";");
    reveal_strlit("~");
    assert("\x1b["@ =~= seq!['\x1b', '[']);
    assert("\x1bO"@ =~= seq!['\x1b', 'O']);
    assert("\x1b[1;"@ =~= seq!['\x1b', '[', '1', ';']);
    assert("\x1b[Z"@ =~= seq!['\x1b', '[', 'Z']);
    assert("Z"@ =~= seq!['Z']);
    assert(";"@ =~= seq![';']);
    assert("~"@ =~= seq!['~']);
}

/// Without a modifier key the cursor keys, Home and End send an escape, an opening
/// bracket and their letter; with application cursor keys there is an O in place
/// of the bracket.
pub proof fn plain_cursor_keys_send_three_bytes(
    control: bool,
    alt: bool,
    shift: bool,
    altgr: bool,
    mode: TermMode,
)
    requires
        !shift,
        altgr || (!control && !alt),
    ensures
        key_bytes(KeyInput::Up, control, alt, shift, altgr, mode) == seq![
            0x1bu8,
            if mode.bits & 0x2 == 0x2 {
                0x4fu8
            } else {
                0x5bu8
            },
            0x41u8,
        ],
        key_bytes(KeyInput::Down, control, alt, shift, altgr, mode) == seq![
            0x1bu8,
            if mode.bits & 0x2 == 0x2 {
                0x4fu8
            } else {
                0x5bu8
            },
            0x42u8,
        ],
        key_bytes(KeyInput::Right, control, alt, shift, altgr, mode) == seq![
            0x1bu8,
            if mode.bits & 0x2 == 0x2 {
                0x4fu8
            } else {
                0x5bu8
            },
            0x43u8,
        ],
        key_bytes(KeyInput::Left, control, alt, shift, altgr, mode) == seq![
            0x1bu8,
            if mode.bits & 0x2 == 0x2 {
                0x4fu8
            } else {
                0x5bu8
            },
            0x44u8,
        ],
        key_bytes(KeyInput::Home, control, alt, shift, altgr, mode) == seq![
            0x1bu8,
            if mode.bits & 0x2 == 0x2 {
                0x4fu8
            } else {
                0x5bu8
            },
            0x48u8,
        ],
        key_bytes(KeyInput::End, control, alt, shift, altgr, mode) == seq![
            0x1bu8,
            if mode.bits & 0x2 == 0x2 {
                0x4fu8
            } else {
                0x5bu8
            },
            0x46u8,
        ],
{
    lemma_sequence_starts();
    let second: u8 = if mode.bits & 0x2 == 0x2 {
        0x4f
    } else {
        0x5b
    };
    text::lemma_ascii_bytes(
        cursor_key('A', mode, None),
        seq![0x1bu8, second, 0x41u8],
    );
    text::lemma_ascii_bytes(
        cursor_key('B', mode, None),
        seq![0x1bu8, second, 0x42u8],
    );
    text::lemma_ascii_bytes(
        cursor_key('C', mode, None),
        seq![0x1bu8, second, 0x43u8],
    );
    text::lemma_ascii_bytes(
        cursor_key('D', mode, None),
        seq![0x1bu8, second, 0x44u8],
    );
    text::lemma_ascii_bytes(
        cursor_key('H', mode, None),
        seq![0x1bu8, second, 0x48u8],
    );
    text::lemma_ascii_bytes(
        cursor_key('F', mode, None),
        seq![0x1bu8, second, 0x46u8],
    );
}

/// Without a modifier key the editing keys, the back tab and the function keys
/// send the same bytes in every mode.
pub proof fn plain_keys_send_fixed_bytes(
    control: bool,
    alt: bool,
    shift: bool,
    altgr: bool,
    mode: TermMode,
)
    requires
        !shift,
        altgr || (!control && !alt),
    ensures
        key_bytes(KeyInput::Insert, control, alt, shift, altgr, mode) == seq![0x1bu8, 0x5bu8, 0x32u8, 0x7eu8],
        key_bytes(KeyInput::Delete, control, alt, shift, altgr, mode) == seq![0x1bu8, 0x5bu8, 0x33u8, 0x7eu8],
        key_bytes(KeyInput::PageUp, control, alt, shift, altgr, mode) == seq![0x1bu8, 0x5bu8, 0x35u8, 0x7eu8],
        key_bytes(KeyInput::PageDown, control, alt, shift, altgr, mode) == seq![0x1bu8, 0x5bu8, 0x36u8, 0x7eu8],
        key_bytes(KeyInput::Backtab, control, alt, shift, altgr, mode) == seq![0x1bu8, 0x5bu8, 0x5au8],
        key_bytes(KeyInput::Function(0), control, alt, shift, altgr, mode) == seq![0x1bu8, 0x4fu8, 0x50u8],
        key_bytes(KeyInput::Function(1), control, alt, shift, altgr, mode) == seq![0x1bu8, 0x4fu8, 0x50u8],
        key_bytes(KeyInput::Function(2), control, alt, shift, altgr, mode) == seq![0x1bu8, 0x4fu8, 0x51u8],
        key_bytes(KeyInput::Function(3), control, alt, shift, altgr, mode) == seq![0x1bu8, 0x4fu8, 0x52u8],
        key_bytes(KeyInput::Function(4), control, alt, shift, altgr, mode) == seq![0x1bu8, 0x4fu8, 0x53u8],
        key_bytes(KeyInput::Function(5), control, alt, shift, altgr, mode) == seq![0x1bu8, 0x5bu8, 0x31u8, 0x35u8, 0x7eu8],
        key_bytes(KeyInput::Function(6), control, alt, shift, altgr, mode) == seq![0x1bu8, 0x5bu8, 0x31u8, 0x37u8, 0x7eu8],
        key_bytes(KeyInput::Function(7), control, alt, shift, altgr, mode) == seq![0x1bu8, 0x5bu8, 0x31u8, 0x38u8, 0x7eu8],
        key_bytes(KeyInput::Function(8), control, alt, shift, altgr, mode) == seq![0x1bu8, 0x5bu8, 0x31u8, 0x39u8, 0x7eu8],
        key_bytes(KeyInput::Function(9), control, alt, shift, altgr, mode) == seq![0x1bu8, 0x5bu8, 0x32u8, 0x30u8, 0x7eu8],
        key_bytes(KeyInput::Function(10), control, alt, shift, altgr, mode) == seq![0x1bu8, 0x5bu8, 0x32u8, 0x31u8, 0x7eu8],
        key_bytes(KeyInput::Function(11), control, alt, shift, altgr, mode) == seq![0x1bu8, 0x5bu8, 0x32u8, 0x33u8, 0x7eu8],
        key_bytes(KeyInput::Function(12), control, alt, shift, altgr, mode) == seq![0x1bu8, 0x5bu8, 0x32u8, 0x34u8, 0x7eu8],
{
    lemma_sequence_starts();
    lemma_small_decimals();
    text::lemma_ascii_bytes(numbered_key(2, None), seq![0x1bu8, 0x5bu8, 0x32u8, 0x7eu8]);
    text::lemma_ascii_bytes(numbered_key(3, None), seq![0x1bu8, 0x5bu8, 0x33u8, 0x7eu8]);
    text::lemma_ascii_bytes(numbered_key(5, None), seq![0x1bu8, 0x5bu8, 0x35u8, 0x7eu8]);
    text::lemma_ascii_bytes(numbered_key(6, None), seq![0x1bu8, 0x5bu8, 0x36u8, 0x7eu8]);
    text::lemma_ascii_bytes(back_tab(None), seq![0x1bu8, 0x5bu8, 0x5au8]);
    text::lemma_ascii_bytes(function_key(0, None), seq![0x1bu8, 0x4fu8, 0x50u8]);
    text::lemma_ascii_bytes(function_key(1, None), seq![0x1bu8, 0x4fu8, 0x50u8]);
    text::lemma_ascii_bytes(function_key(2, None), seq![0x1bu8, 0x4fu8, 0x51u8]);
    text::lemma_ascii_bytes(function_key(3, None), seq![0x1bu8, 0x4fu8, 0x52u8]);
    text::lemma_ascii_bytes(function_key(4, None), seq![0x1bu8, 0x4fu8, 0x53u8]);
    text::lemma_ascii_bytes(
        function_key(5, None),
        seq![0x1bu8, 0x5bu8, 0x31u8, 0x35u8, 0x7eu8],
    );
    text::lemma_ascii_bytes(
        function_key(6, None),
        seq![0x1bu8, 0x5bu8, 0x31u8, 0x37u8, 0x7eu8],
    );
    text::lemma_ascii_bytes(
        function_key(7, None),
        seq![0x1bu8, 0x5bu8, 0x31u8, 0x38u8, 0x7eu8],
    );
    text::lemma_ascii_bytes(
        function_key(8, None),
        seq![0x1bu8, 0x5bu8, 0x31u8, 0x39u8, 0x7eu8],
    );
    text::lemma_ascii_bytes(
        function_key(9, None),
        seq![0x1bu8, 0x5bu8, 0x32u8, 0x30u8, 0x7eu8],
    );
    text::lemma_ascii_bytes(
        function_key(10, None),
        seq![0x1bu8, 0x5bu8, 0x32u8, 0x31u8, 0x7eu8],
    );
    text::lemma_ascii_bytes(
        function_key(11, None),
        seq![0x1bu8, 0x5bu8, 0x32u8, 0x33u8, 0x7eu8],
    );
    text::lemma_ascii_bytes(
        function_key(12, None),
        seq![0x1bu8, 0x5bu8, 0x32u8, 0x34u8, 0x7eu8],
    );
}

proof fn lemma_lettered_bytes(letter: char, byte: u8, held: u8)
    requires
        held < 10,
        byte < 128,
        letter as u32 == byte,
    ensures
        encode_utf8(("\x1b[1;"@ + text::decimal(held as nat)).push(letter)) == seq![
            0x1bu8,
            0x5bu8,
            0x31u8,
            0x3bu8,
            (0x30 + held) as u8,
            byte,
        ],
        letter == 'Z' ==> "\x1b[1;"@ + text::decimal(held as nat) + "Z"@ == ("\x1b[1;"@
            + text::decimal(held as nat)).push(letter),
{
    lemma_sequence_starts();
    lemma_small_decimals();
    let bytes = seq![0x1bu8, 0x5bu8, 0x31u8, 0x3bu8, (0x30 + held) as u8, byte];
    let chars = ("\x1b[1;"@ + text::decimal(held as nat)).push(letter);
    assert(text::decimal(held as nat) == seq![text::digit(held as nat)]);
    assert(chars =~= seq!['\x1b', '[', '1', ';', text::digit(held as nat), letter]);
    text::lemma_ascii_bytes(chars, bytes);
    if letter == 'Z' {
        assert("\x1b[1;"@ + text::decimal(held as nat) + "Z"@ =~= chars);
    }
}

proof fn lemma_numbered_bytes(number: u8, held: u8)
    requires
        held < 10,
        number < 100,
    ensures
        encode_utf8(numbered_key(number, Some(held))) == if number < 10 {
            seq![0x1bu8, 0x5bu8, (0x30 + number) as u8, 0x3bu8, (0x30 + held) as u8, 0x7eu8]
        } else {
            seq![
                0x1bu8,
                0x5bu8,
                (0x30 + number / 10) as u8,
                (0x30 + number % 10) as u8,
                0x3bu8,
                (0x30 + held) as u8,
                0x7eu8,
            ]
        },
{
    lemma_sequence_starts();
    lemma_small_decimals();
    let chars = numbered_key(number, Some(held));
    let last = text::digit(held as nat);
    assert(text::decimal(held as nat) == seq![last]);
    if number < 10 {
        let bytes = seq![0x1bu8, 0x5bu8, (0x30 + number) as u8, 0x3bu8, (0x30 + held) as u8, 0x7eu8];
        assert(text::decimal(number as nat) == seq![text::digit(number as nat)]);
        assert(chars =~= seq!['\x1b', '[', text::digit(number as nat), ';', last, '~']);
        text::lemma_ascii_bytes(chars, bytes);
    } else {
        let bytes = seq![
            0x1bu8,
            0x5bu8,
            (0x30 + number / 10) as u8,
            (0x30 + number % 10) as u8,
            0x3bu8,
            (0x30 + held) as u8,
            0x7eu8,
        ];
        let first = text::digit(number as nat / 10);
        let second = text::digit(number as nat % 10);
        assert(text::decimal(number as nat) == seq![first, second]);
        assert(chars =~= seq!['\x1b', '[', first, second, ';', last, '~']);
        text::lemma_ascii_bytes(chars, bytes);
    }
}

proof fn lemma_plain_back_tab()
    ensures
        encode_utf8("\x1b[Z"@) == seq![0x1bu8, 0x5bu8, 0x5au8],
{
    lemma_sequence_starts();
    text::lemma_ascii_bytes("\x1b[Z"@, seq![0x1bu8, 0x5bu8, 0x5au8]);
}

/// With a modifier key the cursor keys, Home and End send a number before their
/// letter, in every mode: one more than shift (one), alt (two) and control (four)
/// together.
pub proof fn modified_cursor_keys_carry_their_modifiers(
    control: bool,
    alt: bool,
    shift: bool,
    altgr: bool,
    mode: TermMode,
    number: u8,
)
    requires
        shift || (!altgr && (control || alt)),
        number == 0x31 + (if shift {
            1int
        } else {
            0
        }) + (if alt && !altgr {
            2int
        } else {
            0
        }) + (if control && !altgr {
            4int
        } else {
            0
        }),
    ensures
        key_bytes(KeyInput::Up, control, alt, shift, altgr, mode) == seq![0x1bu8, 0x5bu8, 0x31u8, 0x3bu8, number, 0x41u8],
        key_bytes(KeyInput::Down, control, alt, shift, altgr, mode) == seq![0x1bu8, 0x5bu8, 0x31u8, 0x3bu8, number, 0x42u8],
        key_bytes(KeyInput::Right, control, alt, shift, altgr, mode) == seq![0x1bu8, 0x5bu8, 0x31u8, 0x3bu8, number, 0x43u8],
        key_bytes(KeyInput::Left, control, alt, shift, altgr, mode) == seq![0x1bu8, 0x5bu8, 0x31u8, 0x3bu8, number, 0x44u8],
        key_bytes(KeyInput::Home, control, alt, shift, altgr, mode) == seq![0x1bu8, 0x5bu8, 0x31u8, 0x3bu8, number, 0x48u8],
        key_bytes(KeyInput::End, control, alt, shift, altgr, mode) == seq![0x1bu8, 0x5bu8, 0x31u8, 0x3bu8, number, 0x46u8],
{
    let held = modifier_number(control && !altgr, alt && !altgr, shift);
    assert(held == Some((number - 0x30) as u8));
    lemma_lettered_bytes('A', 0x41, held->0);
    lemma_lettered_bytes('B', 0x42, held->0);
    lemma_lettered_bytes('C', 0x43, held->0);
    lemma_lettered_bytes('D', 0x44, held->0);
    lemma_lettered_bytes('H', 0x48, held->0);
    lemma_lettered_bytes('F', 0x46, held->0);
}

/// With a modifier key the editing keys and the back tab send the number of the
/// modifier keys too. Shift alone leaves the back tab as it is.
pub proof fn modified_editing_keys_carry_their_modifiers(
    control: bool,
    alt: bool,
    shift: bool,
    altgr: bool,
    mode: TermMode,
    number: u8,
)
    requires
        shift || (!altgr && (control || alt)),
        number == 0x31 + (if shift {
            1int
        } else {
            0
        }) + (if alt && !altgr {
            2int
        } else {
            0
        }) + (if control && !altgr {
            4int
        } else {
            0
        }),
    ensures
        key_bytes(KeyInput::Insert, control, alt, shift, altgr, mode) == seq![0x1bu8, 0x5bu8, 0x32u8, 0x3bu8, number, 0x7eu8],
        key_bytes(KeyInput::Delete, control, alt, shift, altgr, mode) == seq![0x1bu8, 0x5bu8, 0x33u8, 0x3bu8, number, 0x7eu8],
        key_bytes(KeyInput::PageUp, control, alt, shift, altgr, mode) == seq![0x1bu8, 0x5bu8, 0x35u8, 0x3bu8, number, 0x7eu8],
        key_bytes(KeyInput::PageDown, control, alt, shift, altgr, mode) == seq![0x1bu8, 0x5bu8, 0x36u8, 0x3bu8, number, 0x7eu8],
        key_bytes(KeyInput::Backtab, control, alt, shift, altgr, mode) == if number == 0x32 {
            seq![0x1bu8, 0x5bu8, 0x5au8]
        } else {
            seq![0x1bu8, 0x5bu8, 0x31u8, 0x3bu8, number, 0x5au8]
        },
{
    let held = modifier_number(control && !altgr, alt && !altgr, shift);
    assert(held == Some((number - 0x30) as u8));
    lemma_numbered_bytes(2, held->0);
    lemma_numbered_bytes(3, held->0);
    lemma_numbered_bytes(5, held->0);
    lemma_numbered_bytes(6, held->0);
    lemma_lettered_bytes('Z', 0x5a, held->0);
    lemma_plain_back_tab();
}

/// With a modifier key the function keys send the number of the modifier keys
/// too.
pub proof fn modified_function_keys_carry_their_modifiers(
    control: bool,
    alt: bool,
    shift: bool,
    altgr: bool,
    mode: TermMode,
    number: u8,
)
    requires
        shift || (!altgr && (control || alt)),
        number == 0x31 + (if shift {
            1int
        } else {
            0
        }) + (if alt && !altgr {
            2int
        } else {
            0
        }) + (if control && !altgr {
            4int
        } else {
            0
        }),
    ensures
        key_bytes(KeyInput::Function(0), control, alt, shift, altgr, mode) == seq![0x1bu8, 0x5bu8, 0x31u8, 0x3bu8, number, 0x50u8],
        key_bytes(KeyInput::Function(1), control, alt, shift, altgr, mode) == seq![0x1bu8, 0x5bu8, 0x31u8, 0x3bu8, number, 0x50u8],
        key_bytes(KeyInput::Function(2), control, alt, shift, altgr, mode) == seq![0x1bu8, 0x5bu8, 0x31u8, 0x3bu8, number, 0x51u8],
        key_bytes(KeyInput::Function(3), control, alt, shift, altgr, mode) == seq![0x1bu8, 0x5bu8, 0x31u8, 0x3bu8, number, 0x52u8],
        key_bytes(KeyInput::Function(4), control, alt, shift, altgr, mode) == seq![0x1bu8, 0x5bu8, 0x31u8, 0x3bu8, number, 0x53u8],
        key_bytes(KeyInput::Function(5), control, alt, shift, altgr, mode) == seq![0x1bu8, 0x5bu8, 0x31u8, 0x35u8, 0x3bu8, number, 0x7eu8],
        key_bytes(KeyInput::Function(6), control, alt, shift, altgr, mode) == seq![0x1bu8, 0x5bu8, 0x31u8, 0x37u8, 0x3bu8, number, 0x7eu8],
        key_bytes(KeyInput::Function(7), control, alt, shift, altgr, mode) == seq![0x1bu8, 0x5bu8, 0x31u8, 0x38u8, 0x3bu8, number, 0x7eu8],
        key_bytes(KeyInput::Function(8), control, alt, shift, altgr, mode) == seq![0x1bu8, 0x5bu8, 0x31u8, 0x39u8, 0x3bu8, number, 0x7eu8],
        key_bytes(KeyInput::Function(9), control, alt, shift, altgr, mode) == seq![0x1bu8, 0x5bu8, 0x32u8, 0x30u8, 0x3bu8, number, 0x7eu8],
        key_bytes(KeyInput::Function(10), control, alt, shift, altgr, mode) == seq![0x1bu8, 0x5bu8, 0x32u8, 0x31u8, 0x3bu8, number, 0x7eu8],
        key_bytes(KeyInput::Function(11), control, alt, shift, altgr, mode) == seq![0x1bu8, 0x5bu8, 0x32u8, 0x33u8, 0x3bu8, number, 0x7eu8],
        key_bytes(KeyInput::Function(12), control, alt, shift, altgr, mode) == seq![0x1bu8, 0x5bu8, 0x32u8, 0x34u8, 0x3bu8, number, 0x7eu8],
{
    let held = modifier_number(control && !altgr, alt && !altgr, shift);
    assert(held == Some((number - 0x30) as u8));
    lemma_lettered_bytes('P', 0x50, held->0);
    lemma_lettered_bytes('Q', 0x51, held->0);
    lemma_lettered_bytes('R', 0x52, held->0);
    lemma_lettered_bytes('S', 0x53, held->0);
    lemma_numbered_bytes(15, held->0);
    lemma_numbered_bytes(17, held->0);
    lemma_numbered_bytes(18, held->0);
    lemma_numbered_bytes(19, held->0);
    lemma_numbered_bytes(20, held->0);
    lemma_numbered_bytes(21, held->0);
    lemma_numbered_bytes(23, held->0);
    lemma_numbered_bytes(24, held->0);
}

/// Return, backspace, tab and escape send one byte, whatever is held with them,
/// and keys behind the twelfth function key send nothing.
pub proof fn simple_keys_send_one_byte(
    control: bool,
    alt: bool,
    shift: bool,
    altgr: bool,
    mode: TermMode,
    number: u8,
)
    ensures
        key_bytes(KeyInput::Return, control, alt, shift, altgr, mode) == seq![0x0du8],
        key_bytes(KeyInput::Backspace, control, alt, shift, altgr, mode) == seq![0x7fu8],
        key_bytes(KeyInput::Tab, control, alt, shift, altgr, mode) == seq![0x09u8],
        key_bytes(KeyInput::Escape, control, alt, shift, altgr, mode) == seq![0x1bu8],
        number > 12 ==> key_bytes(KeyInput::Function(number), control, alt, shift, altgr, mode).len()
            == 0,
{
    reveal_strlit("\r");
    reveal_strlit("\x7f");
    reveal_strlit("\t");
    reveal_strlit("\x1b");
    text::lemma_ascii_bytes("\r"@, seq![0x0du8]);
    text::lemma_ascii_bytes("\x7f"@, seq![0x7fu8]);
    text::lemma_ascii_bytes("\t"@, seq![0x09u8]);
    text::lemma_ascii_bytes("\x1b"@, seq![0x1bu8]);
    text::lemma_ascii_bytes(Seq::empty(), Seq::empty());
}

/// Typed text is sent as it is, behind an escape where alt is held. Only control
/// with a single character sends something else: a letter becomes its number in
/// the alphabet, and a few other characters have a byte of their own.
pub proof fn typed_text_is_sent(
    typed: String,
    control: bool,
    alt: bool,
    shift: bool,
    altgr: bool,
    mode: TermMode,
)
    ensures
        ({
            let sent = key_bytes(KeyInput::Text(typed), control, alt, shift, altgr, mode);
            let start = if alt && !altgr {
                seq![0x1bu8]
            } else {
                Seq::empty()
            };
            let code = typed@[0] as u32;
            if !control || altgr || typed@.len() != 1 {
                sent == start + encode_utf8(typed@)
            } else if 0x61 <= code <= 0x7a {
                sent == start.push((code - 0x60) as u8)
            } else if 0x40 <= code <= 0x5f {
                sent == start.push((code - 0x40) as u8)
            } else if code == 0x20 || code == 0x32 {
                sent == start.push(0)
            } else if 0x33 <= code <= 0x37 {
                sent == start.push((code - 0x18) as u8)
            } else if code == 0x2d {
                sent == start.push(31)
            } else if code == 0x38 || code == 0x3f {
                sent == start.push(127)
            } else {
                sent == start + encode_utf8(typed@)
            }
        }),
{
    let start = if alt && !altgr {
        seq![0x1bu8]
    } else {
        Seq::empty()
    };
    assert forall|byte: u8| 0x40 <= byte <= 0x5f implies #[trigger] (byte & 0x1f) == byte - 0x40 by {
        assert(0x40 <= byte <= 0x5f ==> byte & 0x1f == (byte - 0x40) as u8) by (bit_vector);
    }
    if control && !altgr && typed@.len() == 1 && control_code(typed@[0]) is Some {
        let byte = control_code(typed@[0])->0;
        assert(start + seq![byte] =~= start.push(byte));
    }
}

} // verus!
