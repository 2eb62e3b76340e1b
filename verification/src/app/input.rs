//! Keys of the window become actions of the application or input of a terminal.

use vstd::prelude::*;
use vstd::string::*;
use crate::app::settings;
use crate::app::settings::shortcuts;
use crate::app::settings::shortcuts::{ChordView, ShortcutChord};
use crate::app::settings::{AppSettings, ShortcutView};
use crate::terminal::input::KeyInput;
use crate::text;

use slint::platform::Key;
use slint::SharedString;

verus! {

/// What a shortcut does.
#[derive(Clone, Copy, Debug, PartialEq, Eq, Structural)]
pub enum KeyAction {
    Copy,
    SelectAll,
    Paste,
    Find,
    Interrupt,
    NewTab,
    CloseTab,
    Quit,
}

/// What becomes of a key.
#[derive(Clone, Copy, Debug, PartialEq, Eq, Structural)]
pub struct KeyDecision {
    pub action: Option<KeyAction>,
    /// The terminal gets the key too.
    pub forward: bool,
}

/// The characters that stand for the keys with a name, in the order of
/// `shortcuts::named_key`.
pub open spec fn key_symbol(index: int) -> char {
    if index == 0 {
        '\n'
    } else if index == 1 {
        '\t'
    } else if index == 2 {
        '\x1b'
    } else if index == 3 {
        '\x08'
    } else if index == 4 {
        '\x7f'
    } else if index == 5 {
        '\u{f727}'
    } else if index == 6 {
        '\u{f729}'
    } else if index == 7 {
        '\u{f72b}'
    } else if index == 8 {
        '\u{f72c}'
    } else if index == 9 {
        '\u{f72d}'
    } else if index == 10 {
        '\u{f700}'
    } else if index == 11 {
        '\u{f701}'
    } else if index == 12 {
        '\u{f702}'
    } else if index == 13 {
        '\u{f703}'
    } else {
        (0xf704 + (index - 14)) as char
    }
}

/// The characters that stand for the keys that type nothing by themselves, and
/// the one for the back tab.
pub open spec fn modifier_symbol(index: int) -> char {
    if index == 0 {
        '\x10'
    } else if index == 1 {
        '\x15'
    } else if index == 2 {
        '\x11'
    } else if index == 3 {
        '\x16'
    } else if index == 4 {
        '\x12'
    } else if index == 5 {
        '\x13'
    } else if index == 6 {
        '\x17'
    } else if index == 7 {
        '\x18'
    } else if index == 8 {
        '\x14'
    } else {
        '\x19'
    }
}

/// How many keys `modifier_symbol` lists, without the back tab.
pub const MODIFIER_COUNT: usize = 9;

/// `slint::SharedString::from` gives the text that a key event of
/// `slint::platform::Key` carries: one character for each key, which for the keys
/// with a name `key_symbol` lists.
#[verifier::external_body]
fn named_key_text(index: usize) -> (typed: String)
    requires
        index < shortcuts::NAMED_KEY_COUNT,
    ensures
        typed@ == seq![key_symbol(index as int)],
{
    let keys = [
        Key::Return, Key::Tab, Key::Escape, Key::Backspace, Key::Delete, Key::Insert, Key::Home,
        Key::End, Key::PageUp, Key::PageDown, Key::UpArrow, Key::DownArrow, Key::LeftArrow,
        Key::RightArrow, Key::F1, Key::F2, Key::F3, Key::F4, Key::F5, Key::F6, Key::F7, Key::F8,
        Key::F9, Key::F10, Key::F11, Key::F12,
    ];
    SharedString::from(keys[index]).to_string()
}

/// `slint::SharedString::from` gives the text that a key event of
/// `slint::platform::Key` carries: one character for each key, which for the
/// modifier keys and the back tab `modifier_symbol` lists.
#[verifier::external_body]
fn modifier_key_text(index: usize) -> (typed: String)
    requires
        index <= MODIFIER_COUNT,
    ensures
        typed@ == seq![modifier_symbol(index as int)],
{
    let keys = [
        Key::Shift, Key::ShiftR, Key::Control, Key::ControlR, Key::Alt, Key::AltGr, Key::Meta,
        Key::MetaR, Key::CapsLock, Key::Backtab,
    ];
    SharedString::from(keys[index]).to_string()
}

/// The first key with a name, from `index` on, that a key event stands for, or
/// the number of such keys.
pub open spec fn named_event(typed: Seq<char>, index: int) -> int
    decreases shortcuts::NAMED_KEY_COUNT - index,
{
    if index < 0 || index >= shortcuts::NAMED_KEY_COUNT || typed == seq![key_symbol(index)] {
        index
    } else {
        named_event(typed, index + 1)
    }
}

/// The key of a shortcut that a key event stands for.
pub open spec fn key_of_event(typed: Seq<char>) -> Option<Seq<char>> {
    let index = named_event(typed, 0);
    if index < shortcuts::NAMED_KEY_COUNT {
        Some(shortcuts::named_key(index))
    } else if typed.len() == 1 && !text::control_character(typed[0]) {
        Some(text::uppered(typed[0]))
    } else {
        None
    }
}

fn find_named_event(typed: &str) -> (index: usize)
    ensures
        index == named_event(typed@, 0),
        index <= shortcuts::NAMED_KEY_COUNT,
{
    let mut index: usize = 0;
    while index < shortcuts::NAMED_KEY_COUNT
        invariant
            index <= shortcuts::NAMED_KEY_COUNT,
            named_event(typed@, 0) == named_event(typed@, index as int),
        decreases shortcuts::NAMED_KEY_COUNT - index,
    {
        let symbol = named_key_text(index);
        if text::same_text(typed, symbol.as_str()) {
            return index;
        }
        index += 1;
    }
    index
}

/// The key of a shortcut that a key event stands for, written as shortcuts are.
pub fn event_key(typed: &str) -> (key: Option<String>)
    ensures
        text::optional(key) == key_of_event(typed@),
{
    let index = find_named_event(typed);
    if index < shortcuts::NAMED_KEY_COUNT {
        return Some(shortcuts::key_name(index).to_owned());
    }
    let list = text::characters(typed);
    if list.len() != 1 || list[0].is_control() {
        return None;
    }
    Some(text::to_upper(list[0]))
}

/// What an action of the settings does.
pub open spec fn action_of(action: Seq<char>) -> Option<KeyAction> {
    if action == "copy"@ {
        Some(KeyAction::Copy)
    } else if action == "select-all"@ {
        Some(KeyAction::SelectAll)
    } else if action == "paste"@ {
        Some(KeyAction::Paste)
    } else if action == "find"@ {
        Some(KeyAction::Find)
    } else if action == "interrupt"@ {
        Some(KeyAction::Interrupt)
    } else if action == "new-tab"@ {
        Some(KeyAction::NewTab)
    } else if action == "close-tab"@ {
        Some(KeyAction::CloseTab)
    } else if action == "quit"@ {
        Some(KeyAction::Quit)
    } else {
        None
    }
}

pub fn shortcut_action(action: &str) -> (found: Option<KeyAction>)
    ensures
        found == action_of(action@),
{
    if text::same_text(action, "copy") {
        Some(KeyAction::Copy)
    } else if text::same_text(action, "select-all") {
        Some(KeyAction::SelectAll)
    } else if text::same_text(action, "paste") {
        Some(KeyAction::Paste)
    } else if text::same_text(action, "find") {
        Some(KeyAction::Find)
    } else if text::same_text(action, "interrupt") {
        Some(KeyAction::Interrupt)
    } else if text::same_text(action, "new-tab") {
        Some(KeyAction::NewTab)
    } else if text::same_text(action, "close-tab") {
        Some(KeyAction::CloseTab)
    } else if text::same_text(action, "quit") {
        Some(KeyAction::Quit)
    } else {
        None
    }
}

/// Where the first shortcut with a chord stands, or the number of shortcuts.
pub open spec fn place_of_chord(shortcut_list: Seq<ShortcutView>, pressed: ChordView) -> int
    decreases shortcut_list.len(),
{
    if shortcut_list.len() == 0 || shortcuts::chord_of(shortcut_list.first().shortcut) == Ok::<
        ChordView,
        Seq<char>,
    >(pressed) {
        0
    } else {
        1 + place_of_chord(shortcut_list.drop_first(), pressed)
    }
}

/// What becomes of a key whose name in shortcuts is known, or that has none.
pub open spec fn decision_for(
    shortcut_list: Seq<ShortcutView>,
    key: Option<Seq<char>>,
    control: bool,
    alt: bool,
    shift: bool,
    altgr: bool,
) -> KeyDecision {
    let untouched = KeyDecision { action: None, forward: true };
    if altgr || key is None {
        untouched
    } else {
        let place = place_of_chord(shortcut_list, ChordView { control, alt, shift, key: key->0 });
        if place < shortcut_list.len() {
            KeyDecision {
                action: action_of(shortcut_list[place].action),
                forward: shortcut_list[place].pass_through,
            }
        } else {
            untouched
        }
    }
}

/// Decides about a key whose name in shortcuts is known, or that has none: a
/// key that is no shortcut always goes to the terminal, and so does everything
/// that is typed with AltGr.
#[verifier::loop_isolation(false)]
pub fn decide_key(
    settings: &AppSettings,
    key: Option<String>,
    control: bool,
    alt: bool,
    shift: bool,
    altgr: bool,
) -> (decision: KeyDecision)
    ensures
        decision == decision_for(
            settings@.shortcuts,
            text::optional(key),
            control,
            alt,
            shift,
            altgr,
        ),
{
    let untouched = KeyDecision { action: None, forward: true };
    if altgr {
        return untouched;
    }
    let key = match key {
        Some(key) => key,
        None => {
            return untouched;
        },
    };
    let pressed = ShortcutChord { control, alt, shift, key };
    let ghost all = settings@.shortcuts;
    let mut index: usize = 0;
    assert(all.skip(0) == all);
    while index < settings.shortcuts.len()
        invariant
            index <= settings.shortcuts@.len(),
            all == settings::shortcut_views(settings.shortcuts@),
            place_of_chord(all, pressed@) == index + place_of_chord(
                all.skip(index as int),
                pressed@,
            ),
        decreases settings.shortcuts.len() - index,
    {
        proof {
            assert(all.skip(index as int).drop_first() == all.skip(index + 1));
            assert(all.skip(index as int).first() == settings.shortcuts@[index as int]@);
            assert(all[index as int] == settings.shortcuts@[index as int]@);
        }
        if let Ok(chord) = shortcuts::parse_shortcut(settings.shortcuts[index].shortcut.as_str()) {
            if shortcuts::same_chord(&chord, &pressed) {
                return KeyDecision {
                    action: shortcut_action(settings.shortcuts[index].action.as_str()),
                    forward: settings.shortcuts[index].pass_through,
                };
            }
        }
        index += 1;
    }
    untouched
}

/// Decides about a key event.
pub fn configured_key_action(
    settings: &AppSettings,
    typed: &str,
    control: bool,
    alt: bool,
    shift: bool,
    altgr: bool,
) -> (decision: KeyDecision)
    ensures
        decision == decision_for(
            settings@.shortcuts,
            key_of_event(typed@),
            control,
            alt,
            shift,
            altgr,
        ),
{
    let key = event_key(typed);
    decide_key(settings, key, control, alt, shift, altgr)
}

/// Whether a key event stands for a key that types nothing by itself.
pub open spec fn is_modifier_event(typed: Seq<char>) -> bool {
    exists|index: int|
        0 <= index < MODIFIER_COUNT && typed == seq![#[trigger] modifier_symbol(index)]
}

/// Whether an input is the one that a key event stands for.
pub open spec fn is_input_of(typed: Seq<char>, input: Option<KeyInput>) -> bool {
    let index = named_event(typed, 0);
    if typed.len() == 0 || is_modifier_event(typed) {
        input is None
    } else if typed == seq![modifier_symbol(MODIFIER_COUNT as int)] {
        input == Some(KeyInput::Backtab)
    } else if index >= shortcuts::NAMED_KEY_COUNT {
        input matches Some(KeyInput::Text(shown)) && shown@ == typed
    } else if index >= 14 {
        input == Some(KeyInput::Function((index - 13) as u8))
    } else {
        input == Some(
            if index == 0 {
                KeyInput::Return
            } else if index == 1 {
                KeyInput::Tab
            } else if index == 2 {
                KeyInput::Escape
            } else if index == 3 {
                KeyInput::Backspace
            } else if index == 4 {
                KeyInput::Delete
            } else if index == 5 {
                KeyInput::Insert
            } else if index == 6 {
                KeyInput::Home
            } else if index == 7 {
                KeyInput::End
            } else if index == 8 {
                KeyInput::PageUp
            } else if index == 9 {
                KeyInput::PageDown
            } else if index == 10 {
                KeyInput::Up
            } else if index == 11 {
                KeyInput::Down
            } else if index == 12 {
                KeyInput::Left
            } else {
                KeyInput::Right
            },
        )
    }
}

fn is_modifier(typed: &str) -> (modifier: bool)
    ensures
        modifier == is_modifier_event(typed@),
{
    let mut index: usize = 0;
    while index < MODIFIER_COUNT
        invariant
            index <= MODIFIER_COUNT,
            forall|i: int| 0 <= i < index ==> typed@ != seq![#[trigger] modifier_symbol(i)],
        decreases MODIFIER_COUNT - index,
    {
        let symbol = modifier_key_text(index);
        if text::same_text(typed, symbol.as_str()) {
            assert(typed@ == seq![modifier_symbol(index as int)]);
            return true;
        }
        index += 1;
    }
    false
}

/// The input of a terminal that a key event stands for; none for a modifier key.
pub fn normalize_key(typed: &str) -> (input: Option<KeyInput>)
    ensures
        is_input_of(typed@, input),
{
    if text::is_empty_text(typed) || is_modifier(typed) {
        return None;
    }
    let back_tab = modifier_key_text(MODIFIER_COUNT);
    if text::same_text(typed, back_tab.as_str()) {
        return Some(KeyInput::Backtab);
    }
    let index = find_named_event(typed);
    if index >= shortcuts::NAMED_KEY_COUNT {
        return Some(KeyInput::Text(typed.to_owned()));
    }
    Some(
        match index {
            0 => KeyInput::Return,
            1 => KeyInput::Tab,
            2 => KeyInput::Escape,
            3 => KeyInput::Backspace,
            4 => KeyInput::Delete,
            5 => KeyInput::Insert,
            6 => KeyInput::Home,
            7 => KeyInput::End,
            8 => KeyInput::PageUp,
            9 => KeyInput::PageDown,
            10 => KeyInput::Up,
            11 => KeyInput::Down,
            12 => KeyInput::Left,
            13 => KeyInput::Right,
            _ => KeyInput::Function((index - 13) as u8),
        },
    )
}

/// What is typed with AltGr never triggers a shortcut.
pub proof fn altgr_triggers_no_shortcut(
    shortcut_list: Seq<ShortcutView>,
    key: Option<Seq<char>>,
    control: bool,
    alt: bool,
    shift: bool,
)
    ensures
        decision_for(shortcut_list, key, control, alt, shift, true) == (KeyDecision {
            action: None,
            forward: true,
        }),
{
}

proof fn lemma_no_chord_without_modifier(shortcut_list: Seq<ShortcutView>, key: Seq<char>)
    ensures
        place_of_chord(
            shortcut_list,
            ChordView { control: false, alt: false, shift: false, key },
        ) == shortcut_list.len(),
    decreases shortcut_list.len(),
{
    if shortcut_list.len() > 0 {
        lemma_no_chord_without_modifier(shortcut_list.drop_first(), key);
    }
}

/// A key that is pressed without any modifier key is never a shortcut: what is
/// typed goes to the terminal, whatever the settings say.
pub proof fn plain_keys_reach_the_terminal(
    shortcut_list: Seq<ShortcutView>,
    key: Option<Seq<char>>,
    altgr: bool,
)
    ensures
        decision_for(shortcut_list, key, false, false, false, altgr) == (KeyDecision {
            action: None,
            forward: true,
        }),
{
    if let Some(key) = key {
        lemma_no_chord_without_modifier(shortcut_list, key);
    }
}

proof fn lemma_symbol_found(typed: Seq<char>, from: int, index: int)
    requires
        0 <= from <= index < shortcuts::NAMED_KEY_COUNT,
        typed == seq![key_symbol(index)],
    ensures
        named_event(typed, from) == index,
    decreases index - from,
{
    if from < index {
        assert(key_symbol(from) != key_symbol(index));
        assert(typed[0] != seq![key_symbol(from)][0]);
        lemma_symbol_found(typed, from + 1, index);
    }
}

proof fn lemma_symbol_missing(typed: Seq<char>, from: int)
    requires
        0 <= from <= shortcuts::NAMED_KEY_COUNT,
        forall|index: int|
            from <= index < shortcuts::NAMED_KEY_COUNT ==> typed != seq![
                #[trigger] key_symbol(index),
            ],
    ensures
        named_event(typed, from) == shortcuts::NAMED_KEY_COUNT,
    decreases shortcuts::NAMED_KEY_COUNT - from,
{
    if from < shortcuts::NAMED_KEY_COUNT {
        assert(typed != seq![key_symbol(from)]);
        lemma_symbol_missing(typed, from + 1);
    }
}

/// Whether a character stands for one of the keys with a name.
pub open spec fn stands_for_named_key(symbol: char) -> bool {
    symbol == '\n' || symbol == '\t' || symbol == '\x1b' || symbol == '\x08' || symbol == '\x7f'
        || symbol == '\u{f727}' || symbol == '\u{f729}' || '\u{f72b}' <= symbol <= '\u{f72d}'
        || '\u{f700}' <= symbol <= '\u{f70f}'
}

proof fn lemma_named_symbols(symbol: char)
    ensures
        stands_for_named_key(symbol) <==> exists|index: int|
            0 <= index < shortcuts::NAMED_KEY_COUNT && symbol == #[trigger] key_symbol(index),
{
    if stands_for_named_key(symbol) {
        let index = if symbol == '\n' {
            0
        } else if symbol == '\t' {
            1
        } else if symbol == '\x1b' {
            2
        } else if symbol == '\x08' {
            3
        } else if symbol == '\x7f' {
            4
        } else if symbol == '\u{f727}' {
            5
        } else if symbol == '\u{f729}' {
            6
        } else if symbol == '\u{f72b}' {
            7
        } else if symbol == '\u{f72c}' {
            8
        } else if symbol == '\u{f72d}' {
            9
        } else if symbol as int <= 0xf703 {
            10 + (symbol as int - 0xf700)
        } else {
            14 + (symbol as int - 0xf704)
        };
        assert(symbol == key_symbol(index));
    }
}

/// A key event with a character of its own stands for the key with that name, and
/// the twelve function keys have characters one behind the other. What stands for
/// no key with a name is typed text, as it is. Modifier keys alone are no input.
pub proof fn events_become_their_keys(typed: Seq<char>, input: Option<KeyInput>, number: int)
    requires
        is_input_of(typed, input),
        1 <= number <= 12,
    ensures
        typed.len() == 0 ==> input is None,
        typed == seq!['\n'] ==> input == Some(KeyInput::Return),
        typed == seq!['\t'] ==> input == Some(KeyInput::Tab),
        typed == seq!['\x1b'] ==> input == Some(KeyInput::Escape),
        typed == seq!['\x08'] ==> input == Some(KeyInput::Backspace),
        typed == seq!['\x7f'] ==> input == Some(KeyInput::Delete),
        typed == seq!['\u{f727}'] ==> input == Some(KeyInput::Insert),
        typed == seq!['\u{f729}'] ==> input == Some(KeyInput::Home),
        typed == seq!['\u{f72b}'] ==> input == Some(KeyInput::End),
        typed == seq!['\u{f72c}'] ==> input == Some(KeyInput::PageUp),
        typed == seq!['\u{f72d}'] ==> input == Some(KeyInput::PageDown),
        typed == seq!['\u{f700}'] ==> input == Some(KeyInput::Up),
        typed == seq!['\u{f701}'] ==> input == Some(KeyInput::Down),
        typed == seq!['\u{f702}'] ==> input == Some(KeyInput::Left),
        typed == seq!['\u{f703}'] ==> input == Some(KeyInput::Right),
        typed == seq![(0xf703 + number) as char] ==> input == Some(
            KeyInput::Function(number as u8),
        ),
        typed == seq!['\x19'] ==> input == Some(KeyInput::Backtab),
        typed.len() == 1 && '\x10' <= typed[0] <= '\x18' ==> input is None,
        typed.len() > 1 ==> (input matches Some(KeyInput::Text(shown)) && shown@ == typed),
        typed.len() == 1 && !stands_for_named_key(typed[0]) && !('\x10' <= typed[0] <= '\x19')
            ==> (input matches Some(KeyInput::Text(shown)) && shown@ == typed),
{
    if typed.len() == 1 {
        let symbol = typed[0];
        lemma_named_symbols(symbol);
        assert(typed =~= seq![symbol]);
        if '\x10' <= symbol <= '\x18' {
            let place = if symbol == '\x10' {
                0
            } else if symbol == '\x15' {
                1
            } else if symbol == '\x11' {
                2
            } else if symbol == '\x16' {
                3
            } else if symbol == '\x12' {
                4
            } else if symbol == '\x13' {
                5
            } else if symbol == '\x17' {
                6
            } else if symbol == '\x18' {
                7
            } else {
                8
            };
            assert(typed == seq![modifier_symbol(place)]);
        } else {
            assert(!is_modifier_event(typed)) by {
                if is_modifier_event(typed) {
                    let index = choose|index: int|
                        0 <= index < MODIFIER_COUNT && typed == seq![
                            #[trigger] modifier_symbol(index),
                        ];
                    assert(seq![modifier_symbol(index)][0] == symbol);
                }
            }
            assert(symbol != '\x19' ==> typed != seq!['\x19']) by {
                assert(seq!['\x19'][0] == '\x19');
            }
            if stands_for_named_key(symbol) {
                let index = choose|index: int|
                    0 <= index < shortcuts::NAMED_KEY_COUNT && symbol == #[trigger] key_symbol(
                        index,
                    );
                lemma_symbol_found(typed, 0, index);
            } else {
                assert forall|index: int|
                    0 <= index < shortcuts::NAMED_KEY_COUNT implies typed != seq![
                    #[trigger] key_symbol(index),
                ] by {
                    assert(seq![key_symbol(index)][0] == key_symbol(index));
                }
                lemma_symbol_missing(typed, 0);
            }
        }
    } else {
        assert forall|index: int|
            0 <= index < shortcuts::NAMED_KEY_COUNT implies typed != seq![
            #[trigger] key_symbol(index),
        ] by {
            assert(seq![key_symbol(index)].len() == 1);
        }
        lemma_symbol_missing(typed, 0);
        assert(!is_modifier_event(typed)) by {
            if is_modifier_event(typed) {
                let index = choose|index: int|
                    0 <= index < MODIFIER_COUNT && typed == seq![
                        #[trigger] modifier_symbol(index),
                    ];
                assert(seq![modifier_symbol(index)].len() == 1);
            }
        }
        assert(seq!['\x19'].len() == 1);
    }
}

/// In shortcuts a key event is named like its key; a letter is named by its capital,
/// and any other character of one's own by its upper case. Control characters and
/// longer texts have no name.
pub proof fn events_are_named_in_shortcuts(typed: Seq<char>, number: int)
    requires
        1 <= number <= 12,
    ensures
        typed == seq!['\n'] ==> key_of_event(typed) == Some("Enter"@),
        typed == seq!['\t'] ==> key_of_event(typed) == Some("Tab"@),
        typed == seq!['\x1b'] ==> key_of_event(typed) == Some("Escape"@),
        typed == seq!['\x08'] ==> key_of_event(typed) == Some("Backspace"@),
        typed == seq!['\x7f'] ==> key_of_event(typed) == Some("Delete"@),
        typed == seq!['\u{f727}'] ==> key_of_event(typed) == Some("Insert"@),
        typed == seq!['\u{f729}'] ==> key_of_event(typed) == Some("Home"@),
        typed == seq!['\u{f72b}'] ==> key_of_event(typed) == Some("End"@),
        typed == seq!['\u{f72c}'] ==> key_of_event(typed) == Some("PageUp"@),
        typed == seq!['\u{f72d}'] ==> key_of_event(typed) == Some("PageDown"@),
        typed == seq!['\u{f700}'] ==> key_of_event(typed) == Some("Up"@),
        typed == seq!['\u{f701}'] ==> key_of_event(typed) == Some("Down"@),
        typed == seq!['\u{f702}'] ==> key_of_event(typed) == Some("Left"@),
        typed == seq!['\u{f703}'] ==> key_of_event(typed) == Some("Right"@),
        typed == seq![(0xf703 + number) as char] ==> key_of_event(typed) == Some(
            seq!['F'] + text::decimal(number as nat),
        ),
        typed.len() == 1 && 'a' <= typed[0] <= 'z' ==> key_of_event(typed) == Some(
            seq![(typed[0] as int - 32) as char],
        ),
        typed.len() == 1 && ('A' <= typed[0] <= 'Z' || '0' <= typed[0] <= '9') ==> key_of_event(
            typed,
        ) == Some(typed),
        typed.len() != 1 ==> key_of_event(typed) is None,
        typed.len() == 1 && !stands_for_named_key(typed[0]) && (typed[0] as int <= 0x1f || 0x7f
            <= typed[0] as int <= 0x9f) ==> key_of_event(typed) is None,
{
    if typed.len() == 1 {
        let symbol = typed[0];
        assert(typed =~= seq![symbol]);
        lemma_named_symbols(symbol);
        if stands_for_named_key(symbol) {
            let index = choose|index: int|
                0 <= index < shortcuts::NAMED_KEY_COUNT && symbol == #[trigger] key_symbol(index);
            lemma_symbol_found(typed, 0, index);
            if index >= 14 {
                shortcuts::lemma_function_key_names(index - 13);
            }
        } else {
            assert forall|index: int|
                0 <= index < shortcuts::NAMED_KEY_COUNT implies typed != seq![
                #[trigger] key_symbol(index),
            ] by {
                assert(seq![key_symbol(index)][0] == key_symbol(index));
            }
            lemma_symbol_missing(typed, 0);
        }
    } else {
        assert forall|index: int|
            0 <= index < shortcuts::NAMED_KEY_COUNT implies typed != seq![
            #[trigger] key_symbol(index),
        ] by {
            assert(seq![key_symbol(index)].len() == 1);
        }
        lemma_symbol_missing(typed, 0);
    }
}

proof fn lemma_place_of_chord(shortcut_list: Seq<ShortcutView>, pressed: ChordView)
    ensures
        ({
            let place = place_of_chord(shortcut_list, pressed);
            let wanted = Ok::<ChordView, Seq<char>>(pressed);
            &&& 0 <= place <= shortcut_list.len()
            &&& place < shortcut_list.len() ==> shortcuts::chord_of(shortcut_list[place].shortcut)
                == wanted
            &&& forall|i: int|
                0 <= i < place ==> shortcuts::chord_of((#[trigger] shortcut_list[i]).shortcut)
                    != wanted
        }),
    decreases shortcut_list.len(),
{
    let wanted = Ok::<ChordView, Seq<char>>(pressed);
    if shortcut_list.len() > 0 && shortcuts::chord_of(shortcut_list.first().shortcut) != wanted {
        let rest = shortcut_list.drop_first();
        lemma_place_of_chord(rest, pressed);
        assert forall|i: int| 0 <= i < place_of_chord(shortcut_list, pressed) implies shortcuts::chord_of(
            (#[trigger] shortcut_list[i]).shortcut,
        ) != wanted by {
            if i > 0 {
                assert(rest[i - 1] == shortcut_list[i]);
            }
        }
    }
}

/// A key that is pressed with the modifier keys of a shortcut triggers the action of
/// that shortcut, and goes to the terminal too if the shortcut says so. A key that
/// no shortcut has goes to the terminal and triggers nothing.
pub proof fn shortcuts_trigger_their_action(
    shortcut_list: Seq<ShortcutView>,
    key: Seq<char>,
    control: bool,
    alt: bool,
    shift: bool,
    place: int,
)
    requires
        0 <= place < shortcut_list.len(),
        forall|i: int, j: int|
            0 <= i < j < shortcut_list.len() ==> shortcuts::chord_of(
                (#[trigger] shortcut_list[i]).shortcut,
            ) != shortcuts::chord_of((#[trigger] shortcut_list[j]).shortcut),
    ensures
        ({
            let decision = decision_for(shortcut_list, Some(key), control, alt, shift, false);
            let pressed = Ok::<ChordView, Seq<char>>(ChordView { control, alt, shift, key });
            &&& shortcuts::chord_of(shortcut_list[place].shortcut) == pressed ==> decision.action
                == action_of(shortcut_list[place].action) && decision.forward
                == shortcut_list[place].pass_through
            &&& (forall|i: int|
                0 <= i < shortcut_list.len() ==> shortcuts::chord_of(
                    (#[trigger] shortcut_list[i]).shortcut,
                ) != pressed) ==> decision.action is None && decision.forward
        }),
{
    let pressed = ChordView { control, alt, shift, key };
    lemma_place_of_chord(shortcut_list, pressed);
    let found = place_of_chord(shortcut_list, pressed);
    if shortcuts::chord_of(shortcut_list[place].shortcut) == Ok::<ChordView, Seq<char>>(pressed) {
        if found < place {
            assert(shortcuts::chord_of(shortcut_list[found].shortcut) != shortcuts::chord_of(
                shortcut_list[place].shortcut,
            ));
        }
        assert(found == place);
    }
}

/// The actions of the settings do what they are called.
pub proof fn actions_do_what_they_are_called(action: Seq<char>)
    ensures
        action == "copy"@ ==> action_of(action) == Some(KeyAction::Copy),
        action == "select-all"@ ==> action_of(action) == Some(KeyAction::SelectAll),
        action == "paste"@ ==> action_of(action) == Some(KeyAction::Paste),
        action == "find"@ ==> action_of(action) == Some(KeyAction::Find),
        action == "interrupt"@ ==> action_of(action) == Some(KeyAction::Interrupt),
        action == "new-tab"@ ==> action_of(action) == Some(KeyAction::NewTab),
        action == "close-tab"@ ==> action_of(action) == Some(KeyAction::CloseTab),
        action == "quit"@ ==> action_of(action) == Some(KeyAction::Quit),
        action_of(action) is Some ==> shortcuts::label_of(action) is Some,
{
    reveal_strlit("copy");
    reveal_strlit("select-all");
    reveal_strlit("paste");
    reveal_strlit("find");
    reveal_strlit("interrupt");
    reveal_strlit("new-tab");
    reveal_strlit("close-tab");
    reveal_strlit("quit");
    assert("copy"@[0] != "find"@[0] && "copy"@[0] != "quit"@[0] && "find"@[0] != "quit"@[0]);
    assert("interrupt"@[0] != "close-tab"@[0]);
    assert("copy"@.len() == 4 && "select-all"@.len() == 10 && "paste"@.len() == 5 && "find"@.len()
        == 4 && "interrupt"@.len() == 9 && "new-tab"@.len() == 7 && "close-tab"@.len() == 9
        && "quit"@.len() == 4);
    reveal_with_fuel(shortcuts::action_index, 9);
}

} // verus!
