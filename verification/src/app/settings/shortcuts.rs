//! Keyboard shortcuts: what they are by default, how they are written, and when
//! they are in order.

use vstd::prelude::*;
use vstd::string::*;
use crate::app::settings;
use crate::app::settings::{AppSettings, SettingsView, ShortcutSetting, ShortcutView};
use crate::text;

verus! {

/// A key together with modifier keys.
#[derive(Debug, PartialEq, Eq)]
pub struct ShortcutChord {
    pub control: bool,
    pub alt: bool,
    pub shift: bool,
    pub key: String,
}

/// What a `ShortcutChord` holds.
#[verifier::ext_equal]
pub struct ChordView {
    pub control: bool,
    pub alt: bool,
    pub shift: bool,
    pub key: Seq<char>,
}

impl View for ShortcutChord {
    type V = ChordView;

    open spec fn view(&self) -> ChordView {
        ChordView { control: self.control, alt: self.alt, shift: self.shift, key: self.key@ }
    }
}

/// How many actions have a shortcut.
pub const SHORTCUT_COUNT: usize = 8;

/// The name, the label and the default shortcut of an action.
pub open spec fn definition(index: int) -> (Seq<char>, Seq<char>, Seq<char>) {
    if index == 0 {
        ("copy"@, "复制"@, "Ctrl+C"@)
    } else if index == 1 {
        ("select-all"@, "全选"@, "Ctrl+A"@)
    } else if index == 2 {
        ("paste"@, "粘贴"@, "Ctrl+V"@)
    } else if index == 3 {
        ("find"@, "搜索终端"@, "Ctrl+F"@)
    } else if index == 4 {
        ("interrupt"@, "中断终端"@, "Alt+C"@)
    } else if index == 5 {
        ("new-tab"@, "新建标签页"@, "Ctrl+T"@)
    } else if index == 6 {
        ("close-tab"@, "关闭标签页"@, "Ctrl+W"@)
    } else {
        ("quit"@, "退出应用"@, "Alt+Q"@)
    }
}

fn shortcut_definition(index: usize) -> (parts: (&'static str, &'static str, &'static str))
    requires
        index < SHORTCUT_COUNT,
    ensures
        (parts.0@, parts.1@, parts.2@) == definition(index as int),
{
    match index {
        0 => ("copy", "复制", "Ctrl+C"),
        1 => ("select-all", "全选", "Ctrl+A"),
        2 => ("paste", "粘贴", "Ctrl+V"),
        3 => ("find", "搜索终端", "Ctrl+F"),
        4 => ("interrupt", "中断终端", "Alt+C"),
        5 => ("new-tab", "新建标签页", "Ctrl+T"),
        6 => ("close-tab", "关闭标签页", "Ctrl+W"),
        _ => ("quit", "退出应用", "Alt+Q"),
    }
}

/// The parts of a chord, as they are written.
pub open spec fn chord_parts(chord: ChordView) -> Seq<Seq<char>> {
    let control = if chord.control {
        seq!["Ctrl"@]
    } else {
        Seq::empty()
    };
    let alt = if chord.alt {
        seq!["Alt"@]
    } else {
        Seq::empty()
    };
    let shift = if chord.shift {
        seq!["Shift"@]
    } else {
        Seq::empty()
    };
    (control + alt + shift).push(chord.key)
}

/// A chord as it is written.
pub open spec fn written(chord: ChordView) -> Seq<char> {
    text::joined(chord_parts(chord), "+"@)
}

impl ShortcutChord {
    /// Writes the chord: the modifier keys in one fixed order, then the key.
    pub fn display(&self) -> (shown: String)
        ensures
            shown@ == written(self@),
    {
        let mut parts: Vec<String> = Vec::new();
        if self.control {
            parts.push("Ctrl".to_owned());
        }
        if self.alt {
            parts.push("Alt".to_owned());
        }
        if self.shift {
            parts.push("Shift".to_owned());
        }
        parts.push(self.key.clone());
        assert(text::texts(parts@) =~= chord_parts(self@));
        text::join(&parts, "+")
    }
}

/// The keys that are known by a name.
pub open spec fn named_key(index: int) -> Seq<char> {
    if index == 0 {
        "Enter"@
    } else if index == 1 {
        "Tab"@
    } else if index == 2 {
        "Escape"@
    } else if index == 3 {
        "Backspace"@
    } else if index == 4 {
        "Delete"@
    } else if index == 5 {
        "Insert"@
    } else if index == 6 {
        "Home"@
    } else if index == 7 {
        "End"@
    } else if index == 8 {
        "PageUp"@
    } else if index == 9 {
        "PageDown"@
    } else if index == 10 {
        "Up"@
    } else if index == 11 {
        "Down"@
    } else if index == 12 {
        "Left"@
    } else if index == 13 {
        "Right"@
    } else if index == 14 {
        "F1"@
    } else if index == 15 {
        "F2"@
    } else if index == 16 {
        "F3"@
    } else if index == 17 {
        "F4"@
    } else if index == 18 {
        "F5"@
    } else if index == 19 {
        "F6"@
    } else if index == 20 {
        "F7"@
    } else if index == 21 {
        "F8"@
    } else if index == 22 {
        "F9"@
    } else if index == 23 {
        "F10"@
    } else if index == 24 {
        "F11"@
    } else {
        "F12"@
    }
}

/// How many keys are known by a name.
pub const NAMED_KEY_COUNT: usize = 26;

pub(crate) fn key_name(index: usize) -> (name: &'static str)
    requires
        index < NAMED_KEY_COUNT,
    ensures
        name@ == named_key(index as int),
{
    match index {
        0 => "Enter",
        1 => "Tab",
        2 => "Escape",
        3 => "Backspace",
        4 => "Delete",
        5 => "Insert",
        6 => "Home",
        7 => "End",
        8 => "PageUp",
        9 => "PageDown",
        10 => "Up",
        11 => "Down",
        12 => "Left",
        13 => "Right",
        14 => "F1",
        15 => "F2",
        16 => "F3",
        17 => "F4",
        18 => "F5",
        19 => "F6",
        20 => "F7",
        21 => "F8",
        22 => "F9",
        23 => "F10",
        24 => "F11",
        _ => "F12",
    }
}

/// The first of the names from `index` on that a key is, whatever its case.
pub open spec fn name_of_key(key: Seq<char>, index: int) -> Option<Seq<char>>
    decreases NAMED_KEY_COUNT - index,
{
    if index < 0 || index >= NAMED_KEY_COUNT {
        None
    } else if text::same_ignoring_case(named_key(index), key) {
        Some(named_key(index))
    } else {
        name_of_key(key, index + 1)
    }
}

/// A key in its normal form: a name as it is spelled, a character in upper case.
pub open spec fn normal_key(key: Seq<char>) -> Result<Seq<char>, Seq<char>> {
    match name_of_key(key, 0) {
        Some(name) => Ok(name),
        None => if key.len() == 0 {
            Err("错误：快捷键缺少主按键"@)
        } else if key.len() > 1 || text::control_character(key[0]) || text::white_space(key[0]) {
            Err("错误：不支持的快捷键主按键："@ + key)
        } else {
            Ok(text::uppered(key[0]))
        },
    }
}

/// Brings a key into its normal form.
pub fn normalize_shortcut_key(key: &str) -> (result: Result<String, String>)
    ensures
        text::outcome(result) == normal_key(key@),
        result matches Ok(normal) ==> normal@.len() > 0,
{
    let mut index: usize = 0;
    while index < NAMED_KEY_COUNT
        invariant
            index <= NAMED_KEY_COUNT,
            name_of_key(key@, 0) == name_of_key(key@, index as int),
        decreases NAMED_KEY_COUNT - index,
    {
        let name = key_name(index);
        if text::eq_ignore_ascii_case(name, key) {
            proof {
                lemma_named_keys(index as int);
            }
            return Ok(name.to_owned());
        }
        index += 1;
    }
    let list = text::characters(key);
    if list.len() == 0 {
        return Err("错误：快捷键缺少主按键".to_owned());
    }
    let character = list[0];
    if list.len() > 1 || character.is_control() || character.is_whitespace() {
        return Err(text::concat("错误：不支持的快捷键主按键：", key));
    }
    Ok(text::to_upper(character))
}

/// No named key is empty, is a modifier key, has white space at its ends or
/// holds a plus sign.
proof fn lemma_named_keys(index: int)
    requires
        0 <= index < NAMED_KEY_COUNT,
    ensures
        named_key(index).len() >= 2,
        !named_key(index).contains('+'),
        text::trimmed(named_key(index)) == named_key(index),
        !modifier_word(named_key(index)),
{
    lemma_modifier_words(named_key(index));
    reveal_strlit("Enter");
    reveal_strlit("Tab");
    reveal_strlit("Escape");
    reveal_strlit("Backspace");
    reveal_strlit("Delete");
    reveal_strlit("Insert");
    reveal_strlit("Home");
    reveal_strlit("End");
    reveal_strlit("PageUp");
    reveal_strlit("PageDown");
    reveal_strlit("Up");
    reveal_strlit("Down");
    reveal_strlit("Left");
    reveal_strlit("Right");
    reveal_strlit("F1");
    reveal_strlit("F2");
    reveal_strlit("F3");
    reveal_strlit("F4");
    reveal_strlit("F5");
    reveal_strlit("F6");
    reveal_strlit("F7");
    reveal_strlit("F8");
    reveal_strlit("F9");
    reveal_strlit("F10");
    reveal_strlit("F11");
    reveal_strlit("F12");
    text::trim_keeps_trimmed(named_key(index));
}

/// Whether a part of a shortcut stands for a modifier key.
pub open spec fn modifier_word(part: Seq<char>) -> bool {
    text::same_ignoring_case(part, "ctrl"@) || text::same_ignoring_case(part, "control"@)
        || text::same_ignoring_case(part, "alt"@) || text::same_ignoring_case(part, "shift"@)
}

/// A modifier key is known by its length and its first letter.
proof fn lemma_modifier_words(part: Seq<char>)
    ensures
        modifier_word(part) ==> (part.len() == 4 && text::ascii_lower(part[0]) == 'c') || (part.len()
            == 7 && text::ascii_lower(part[0]) == 'c') || (part.len() == 3 && text::ascii_lower(
            part[0],
        ) == 'a') || (part.len() == 5 && text::ascii_lower(part[0]) == 's'),
{
    reveal_strlit("ctrl");
    reveal_strlit("control");
    reveal_strlit("alt");
    reveal_strlit("shift");
    let lower = text::ascii_lowered(part);
    assert(lower.len() == part.len());
    assert(part.len() > 0 ==> lower[0] == text::ascii_lower(part[0]));
    assert(text::ascii_lowered("ctrl"@).len() == 4);
    assert(text::ascii_lowered("control"@).len() == 7);
    assert(text::ascii_lowered("alt"@).len() == 3);
    assert(text::ascii_lowered("shift"@).len() == 5);
    if text::same_ignoring_case(part, "ctrl"@) {
        assert(text::ascii_lowered("ctrl"@)[0] == 'c');
    }
    if text::same_ignoring_case(part, "control"@) {
        assert(text::ascii_lowered("control"@)[0] == 'c');
    }
    if text::same_ignoring_case(part, "alt"@) {
        assert(text::ascii_lowered("alt"@)[0] == 'a');
    }
    if text::same_ignoring_case(part, "shift"@) {
        assert(text::ascii_lowered("shift"@)[0] == 's');
    }
}

/// A chord with one more part of a shortcut.
pub open spec fn with_part(chord: ChordView, part: Seq<char>) -> Result<ChordView, Seq<char>> {
    if text::same_ignoring_case(part, "ctrl"@) || text::same_ignoring_case(part, "control"@) {
        Ok(ChordView { control: true, ..chord })
    } else if text::same_ignoring_case(part, "alt"@) {
        Ok(ChordView { alt: true, ..chord })
    } else if text::same_ignoring_case(part, "shift"@) {
        Ok(ChordView { shift: true, ..chord })
    } else if chord.key.len() == 0 {
        match normal_key(part) {
            Ok(key) => Ok(ChordView { key, ..chord }),
            Err(message) => Err(message),
        }
    } else {
        Err("错误：快捷键只能包含一个主按键"@)
    }
}

/// A chord without any key.
pub open spec fn no_chord() -> ChordView {
    ChordView { control: false, alt: false, shift: false, key: Seq::empty() }
}

/// The chord that the parts of a shortcut make, blank parts aside.
pub open spec fn chord_of_parts(parts: Seq<Seq<char>>) -> Result<ChordView, Seq<char>>
    decreases parts.len(),
{
    if parts.len() == 0 {
        Ok(no_chord())
    } else {
        match chord_of_parts(parts.drop_last()) {
            Err(message) => Err(message),
            Ok(chord) => {
                let part = text::trimmed(parts.last());
                if part.len() == 0 {
                    Ok(chord)
                } else {
                    with_part(chord, part)
                }
            },
        }
    }
}

/// The chord that a shortcut stands for: one key and at least one modifier key.
pub open spec fn chord_of(shortcut: Seq<char>) -> Result<ChordView, Seq<char>> {
    match chord_of_parts(text::pieces(shortcut, '+')) {
        Err(message) => Err(message),
        Ok(chord) => if chord.key.len() == 0 {
            Err("错误：快捷键缺少主按键"@)
        } else if !chord.control && !chord.alt && !chord.shift {
            Err("错误：应用快捷键至少需要 Ctrl、Alt 或 Shift 修饰键"@)
        } else {
            Ok(chord)
        },
    }
}

/// A chord or an error message, as sequences.
pub open spec fn chord_outcome(result: Result<ShortcutChord, String>) -> Result<
    ChordView,
    Seq<char>,
> {
    match result {
        Ok(chord) => Ok(chord@),
        Err(message) => Err(message@),
    }
}

proof fn lemma_chord_error(parts: Seq<Seq<char>>, count: int)
    requires
        0 <= count <= parts.len(),
        chord_of_parts(parts.take(count)) is Err,
    ensures
        chord_of_parts(parts) == chord_of_parts(parts.take(count)),
    decreases parts.len(),
{
    if count == parts.len() {
        assert(parts.take(count) == parts);
    } else {
        assert(parts.drop_last().take(count) == parts.take(count));
        lemma_chord_error(parts.drop_last(), count);
    }
}

/// Reads a shortcut: parts with plus signs between them, in any order and case.
pub fn parse_shortcut(shortcut: &str) -> (result: Result<ShortcutChord, String>)
    ensures
        chord_outcome(result) == chord_of(shortcut@),
{
    let mut chord = ShortcutChord {
        control: false,
        alt: false,
        shift: false,
        key: String::new(),
    };
    let parts = text::split(shortcut, '+');
    let ghost all = text::texts(parts@);
    let mut index: usize = 0;
    assert(all.take(0) == Seq::<Seq<char>>::empty());
    assert(chord@ =~= no_chord());
    while index < parts.len()
        invariant
            index <= parts@.len(),
            all == text::texts(parts@),
            all == text::pieces(shortcut@, '+'),
            chord_of_parts(all.take(index as int)) == Ok::<ChordView, Seq<char>>(chord@),
        decreases parts.len() - index,
    {
        proof {
            assert(all.take(index + 1).drop_last() == all.take(index as int));
            assert(all.take(index + 1).last() == parts@[index as int]@);
        }
        let part = text::trim(parts[index].as_str());
        if !text::is_empty_text(part.as_str()) {
            if text::eq_ignore_ascii_case(part.as_str(), "ctrl") || text::eq_ignore_ascii_case(
                part.as_str(),
                "control",
            ) {
                chord.control = true;
            } else if text::eq_ignore_ascii_case(part.as_str(), "alt") {
                chord.alt = true;
            } else if text::eq_ignore_ascii_case(part.as_str(), "shift") {
                chord.shift = true;
            } else if text::is_empty_text(chord.key.as_str()) {
                match normalize_shortcut_key(part.as_str()) {
                    Ok(key) => {
                        chord.key = key;
                    },
                    Err(message) => {
                        proof {
                            lemma_chord_error(all, index + 1);
                        }
                        return Err(message);
                    },
                }
            } else {
                proof {
                    lemma_chord_error(all, index + 1);
                }
                return Err("错误：快捷键只能包含一个主按键".to_owned());
            }
        }
        index += 1;
    }
    assert(all.take(index as int) == all);
    if text::is_empty_text(chord.key.as_str()) {
        return Err("错误：快捷键缺少主按键".to_owned());
    }
    if !chord.control && !chord.alt && !chord.shift {
        return Err("错误：应用快捷键至少需要 Ctrl、Alt 或 Shift 修饰键".to_owned());
    }
    Ok(chord)
}

/// The default shortcut of an action.
pub open spec fn preset_shortcut(index: int) -> ShortcutView {
    ShortcutView {
        action: definition(index).0,
        shortcut: definition(index).2,
        pass_through: false,
    }
}

/// The default shortcuts.
pub open spec fn preset() -> Seq<ShortcutView> {
    Seq::new(SHORTCUT_COUNT as nat, |index: int| preset_shortcut(index))
}

fn preset_setting(index: usize) -> (setting: ShortcutSetting)
    requires
        index < SHORTCUT_COUNT,
    ensures
        setting@ == preset_shortcut(index as int),
{
    let (action, _, shortcut) = shortcut_definition(index);
    ShortcutSetting {
        action: action.to_owned(),
        shortcut: shortcut.to_owned(),
        pass_through: false,
    }
}

pub fn default_shortcuts() -> (shortcuts: Vec<ShortcutSetting>)
    ensures
        settings::shortcut_views(shortcuts@) == preset(),
{
    let mut shortcuts: Vec<ShortcutSetting> = Vec::new();
    while shortcuts.len() < SHORTCUT_COUNT
        invariant
            shortcuts@.len() <= SHORTCUT_COUNT,
            settings::shortcut_views(shortcuts@) == preset().take(shortcuts@.len() as int),
        decreases SHORTCUT_COUNT - shortcuts.len(),
    {
        let index: usize = shortcuts.len();
        let ghost before = settings::shortcut_views(shortcuts@);
        let setting = preset_setting(index);
        let ghost view = setting@;
        shortcuts.push(setting);
        assert(settings::shortcut_views(shortcuts@) == before.push(view));
        assert(preset().take(index + 1) == preset().take(index as int).push(
            preset()[index as int],
        ));
    }
    assert(preset().take(SHORTCUT_COUNT as int) == preset());
    shortcuts
}

/// The index of an action, or the number of actions.
pub open spec fn action_index(action: Seq<char>, index: int) -> int
    decreases SHORTCUT_COUNT - index,
{
    if index < 0 || index >= SHORTCUT_COUNT || definition(index).0 == action {
        index
    } else {
        action_index(action, index + 1)
    }
}

/// The label of an action.
pub open spec fn label_of(action: Seq<char>) -> Option<Seq<char>> {
    let index = action_index(action, 0);
    if index < SHORTCUT_COUNT {
        Some(definition(index).1)
    } else {
        None
    }
}

pub fn shortcut_label(action: &str) -> (label: Option<&'static str>)
    ensures
        match label {
            Some(label) => label_of(action@) == Some(label@),
            None => label_of(action@) is None,
        },
{
    let mut index: usize = 0;
    while index < SHORTCUT_COUNT
        invariant
            index <= SHORTCUT_COUNT,
            action_index(action@, 0) == action_index(action@, index as int),
        decreases SHORTCUT_COUNT - index,
    {
        let (candidate, label, _) = shortcut_definition(index);
        if text::same_text(candidate, action) {
            return Some(label);
        }
        index += 1;
    }
    None
}

/// Where the first shortcut of an action stands, or the number of shortcuts.
pub open spec fn place_of_action(shortcuts: Seq<ShortcutView>, action: Seq<char>) -> int
    decreases shortcuts.len(),
{
    if shortcuts.len() == 0 || shortcuts.first().action == action {
        0
    } else {
        1 + place_of_action(shortcuts.drop_first(), action)
    }
}

fn find_action(shortcuts: &Vec<ShortcutSetting>, action: &str) -> (place: usize)
    ensures
        place == place_of_action(settings::shortcut_views(shortcuts@), action@),
        place <= shortcuts@.len(),
        place < shortcuts@.len() ==> shortcuts@[place as int].action@ == action@,
{
    let ghost all = settings::shortcut_views(shortcuts@);
    let mut place: usize = 0;
    assert(all.skip(0) == all);
    while place < shortcuts.len() && !text::same_text(shortcuts[place].action.as_str(), action)
        invariant
            place <= shortcuts@.len(),
            all == settings::shortcut_views(shortcuts@),
            place_of_action(all, action@) == place + place_of_action(
                all.skip(place as int),
                action@,
            ),
        decreases shortcuts.len() - place,
    {
        assert(all.skip(place as int).drop_first() == all.skip(place + 1));
        assert(all.skip(place as int).first() == shortcuts@[place as int]@);
        place += 1;
    }
    proof {
        if place < shortcuts@.len() {
            assert(all.skip(place as int).first() == shortcuts@[place as int]@);
        }
    }
    place
}

/// A shortcut that was set, in its normal form: trimmed, two former defaults
/// replaced by the present ones, and the default where it cannot be read.
pub open spec fn normal_shortcut(index: int, setting: ShortcutView) -> ShortcutView {
    let bare = text::trimmed(setting.shortcut);
    let current = if setting.action == "new-tab"@ && bare == "Ctrl+Shift+T"@ {
        "Ctrl+T"@
    } else if setting.action == "close-tab"@ && bare == "Ctrl+Shift+W"@ {
        "Ctrl+W"@
    } else {
        bare
    };
    ShortcutView {
        shortcut: if chord_of(current) is Ok {
            current
        } else {
            definition(index).2
        },
        ..setting
    }
}

/// The shortcut of an action among those that were set, or the default.
pub open spec fn chosen_shortcut(index: int, previous: Seq<ShortcutView>) -> ShortcutView {
    let place = place_of_action(previous, definition(index).0);
    if place < previous.len() {
        normal_shortcut(index, previous[place])
    } else {
        preset_shortcut(index)
    }
}

/// One shortcut for each action, in the order of the actions.
pub open spec fn normalized_shortcuts(previous: Seq<ShortcutView>) -> Seq<ShortcutView> {
    Seq::new(SHORTCUT_COUNT as nat, |index: int| chosen_shortcut(index, previous))
}

fn choose_shortcut(index: usize, previous: &Vec<ShortcutSetting>) -> (setting: ShortcutSetting)
    requires
        index < SHORTCUT_COUNT,
    ensures
        setting@ == chosen_shortcut(index as int, settings::shortcut_views(previous@)),
{
    let (action, _, preset_text) = shortcut_definition(index);
    let place = find_action(previous, action);
    if place == previous.len() {
        return preset_setting(index);
    }
    let found: &ShortcutSetting = &previous[place];
    assert(settings::shortcut_views(previous@)[place as int] == found@);
    let bare = text::trim(found.shortcut.as_str());
    let current = if text::same_text(found.action.as_str(), "new-tab") && text::same_text(
        bare.as_str(),
        "Ctrl+Shift+T",
    ) {
        "Ctrl+T".to_owned()
    } else if text::same_text(found.action.as_str(), "close-tab") && text::same_text(
        bare.as_str(),
        "Ctrl+Shift+W",
    ) {
        "Ctrl+W".to_owned()
    } else {
        bare
    };
    let readable = parse_shortcut(current.as_str()).is_ok();
    ShortcutSetting {
        action: found.action.clone(),
        shortcut: if readable {
            current
        } else {
            preset_text.to_owned()
        },
        pass_through: found.pass_through,
    }
}

/// Brings the shortcuts in order: one for each action, each readable.
pub fn normalize_shortcuts(shortcuts: &mut Vec<ShortcutSetting>)
    ensures
        settings::shortcut_views(final(shortcuts)@) == normalized_shortcuts(
            settings::shortcut_views(old(shortcuts)@),
        ),
{
    let ghost previous = settings::shortcut_views(shortcuts@);
    let mut arranged: Vec<ShortcutSetting> = Vec::new();
    while arranged.len() < SHORTCUT_COUNT
        invariant
            arranged@.len() <= SHORTCUT_COUNT,
            previous == settings::shortcut_views(shortcuts@),
            settings::shortcut_views(arranged@) == normalized_shortcuts(previous).take(
                arranged@.len() as int,
            ),
        decreases SHORTCUT_COUNT - arranged.len(),
    {
        let index: usize = arranged.len();
        let ghost before = settings::shortcut_views(arranged@);
        let setting = choose_shortcut(index, shortcuts);
        let ghost view = setting@;
        arranged.push(setting);
        assert(settings::shortcut_views(arranged@) == before.push(view));
        assert(normalized_shortcuts(previous).take(index + 1) == normalized_shortcuts(
            previous,
        ).take(index as int).push(normalized_shortcuts(previous)[index as int]));
    }
    assert(normalized_shortcuts(previous).take(SHORTCUT_COUNT as int) == normalized_shortcuts(
        previous,
    ));
    *shortcuts = arranged;
}

/// Whether one of the shortcuts is written as a chord is.
pub open spec fn uses_chord(shortcuts: Seq<ShortcutView>, chord: ChordView) -> bool {
    exists|i: int|
        0 <= i < shortcuts.len() && chord_of((#[trigger] shortcuts[i]).shortcut) is Ok && written(
            chord_of(shortcuts[i].shortcut)->Ok_0,
        ) == written(chord)
}

/// Whether one of the shortcuts is for an action.
pub open spec fn has_action(shortcuts: Seq<ShortcutView>, action: Seq<char>) -> bool {
    exists|i: int| 0 <= i < shortcuts.len() && (#[trigger] shortcuts[i]).action == action
}

/// What is wrong with the last one of some shortcuts, if anything.
pub open spec fn last_shortcut_error(shortcuts: Seq<ShortcutView>) -> Option<Seq<char>> {
    let setting = shortcuts.last();
    let before = shortcuts.drop_last();
    if label_of(setting.action) is None {
        Some("未知的快捷键功能："@ + setting.action)
    } else if has_action(before, setting.action) {
        Some("快捷键功能 "@ + setting.action + " 重复"@)
    } else {
        match chord_of(setting.shortcut) {
            Err(message) => Some(message),
            Ok(chord) => if uses_chord(before, chord) {
                Some("快捷键 "@ + written(chord) + " 重复"@)
            } else {
                None
            },
        }
    }
}

/// What is wrong with the first shortcut that is not right, if any.
pub open spec fn first_shortcut_error(shortcuts: Seq<ShortcutView>) -> Option<Seq<char>>
    decreases shortcuts.len(),
{
    if shortcuts.len() == 0 {
        None
    } else {
        match first_shortcut_error(shortcuts.drop_last()) {
            Some(message) => Some(message),
            None => last_shortcut_error(shortcuts),
        }
    }
}

/// What is wrong with the shortcuts, if anything.
pub open spec fn checked_shortcuts(shortcuts: Seq<ShortcutView>) -> Result<(), Seq<char>> {
    match first_shortcut_error(shortcuts) {
        Some(message) => Err(message),
        None => Ok(()),
    }
}

proof fn lemma_first_shortcut_error(shortcuts: Seq<ShortcutView>, count: int)
    requires
        0 <= count <= shortcuts.len(),
        first_shortcut_error(shortcuts.take(count)) is Some,
    ensures
        first_shortcut_error(shortcuts) == first_shortcut_error(shortcuts.take(count)),
    decreases shortcuts.len(),
{
    if count == shortcuts.len() {
        assert(shortcuts.take(count) == shortcuts);
    } else {
        assert(shortcuts.drop_last().take(count) == shortcuts.take(count));
        lemma_first_shortcut_error(shortcuts.drop_last(), count);
    }
}

fn knows_action(shortcuts: &Vec<ShortcutSetting>, limit: usize, action: &str) -> (known: bool)
    requires
        limit <= shortcuts@.len(),
    ensures
        known == has_action(settings::shortcut_views(shortcuts@).take(limit as int), action@),
{
    let ghost views = settings::shortcut_views(shortcuts@).take(limit as int);
    let mut index: usize = 0;
    while index < limit
        invariant
            index <= limit <= shortcuts@.len(),
            views == settings::shortcut_views(shortcuts@).take(limit as int),
            forall|i: int| 0 <= i < index ==> (#[trigger] views[i]).action != action@,
        decreases limit - index,
    {
        if text::same_text(shortcuts[index].action.as_str(), action) {
            assert(views[index as int].action == action@);
            return true;
        }
        index += 1;
    }
    false
}

fn knows_chord(shortcuts: &Vec<ShortcutSetting>, limit: usize, chord: &ShortcutChord) -> (known:
    bool)
    requires
        limit <= shortcuts@.len(),
    ensures
        known == uses_chord(settings::shortcut_views(shortcuts@).take(limit as int), chord@),
{
    let ghost views = settings::shortcut_views(shortcuts@).take(limit as int);
    let shown = chord.display();
    let mut index: usize = 0;
    while index < limit
        invariant
            index <= limit <= shortcuts@.len(),
            views == settings::shortcut_views(shortcuts@).take(limit as int),
            shown@ == written(chord@),
            forall|i: int|
                0 <= i < index ==> !(chord_of((#[trigger] views[i]).shortcut) is Ok && written(
                    chord_of(views[i].shortcut)->Ok_0,
                ) == written(chord@)),
        decreases limit - index,
    {
        assert(views[index as int] == shortcuts@[index as int]@);
        if let Ok(other) = parse_shortcut(shortcuts[index].shortcut.as_str()) {
            let other_shown = other.display();
            if text::same_text(other_shown.as_str(), shown.as_str()) {
                assert(chord_of(views[index as int].shortcut) is Ok);
                return true;
            }
        }
        index += 1;
    }
    false
}

/// Checks the shortcuts: known actions, each once, and no two of them with one
/// chord.
pub fn validate_shortcuts(shortcuts: &Vec<ShortcutSetting>) -> (result: Result<(), String>)
    ensures
        text::verdict(result) == checked_shortcuts(settings::shortcut_views(shortcuts@)),
{
    let ghost all = settings::shortcut_views(shortcuts@);
    let mut index: usize = 0;
    assert(all.take(0) == Seq::<ShortcutView>::empty());
    while index < shortcuts.len()
        invariant
            index <= shortcuts@.len(),
            all == settings::shortcut_views(shortcuts@),
            first_shortcut_error(all.take(index as int)) is None,
        decreases shortcuts.len() - index,
    {
        let setting: &ShortcutSetting = &shortcuts[index];
        let ghost taken = all.take(index + 1);
        proof {
            assert(taken.drop_last() == all.take(index as int));
            assert(taken.last() == setting@);
        }
        let found = if shortcut_label(setting.action.as_str()).is_none() {
            Some(text::concat("未知的快捷键功能：", setting.action.as_str()))
        } else if knows_action(shortcuts, index, setting.action.as_str()) {
            Some(text::concat3("快捷键功能 ", setting.action.as_str(), " 重复"))
        } else {
            match parse_shortcut(setting.shortcut.as_str()) {
                Err(message) => Some(message),
                Ok(chord) => if knows_chord(shortcuts, index, &chord) {
                    Some(text::concat3("快捷键 ", chord.display().as_str(), " 重复"))
                } else {
                    None
                },
            }
        };
        assert(text::optional(found) == last_shortcut_error(taken));
        if let Some(message) = found {
            proof {
                lemma_first_shortcut_error(all, index + 1);
            }
            return Err(message);
        }
        index += 1;
    }
    assert(all.take(index as int) == all);
    Ok(())
}

/// Whether another action has a chord.
pub open spec fn taken_by_other(
    shortcuts: Seq<ShortcutView>,
    action: Seq<char>,
    chord: ChordView,
) -> bool {
    exists|i: int|
        0 <= i < shortcuts.len() && (#[trigger] shortcuts[i]).action != action && chord_of(
            shortcuts[i].shortcut,
        ) == Ok::<ChordView, Seq<char>>(chord)
}

/// What comes of a change of a shortcut: the shortcuts after it, or what is
/// wrong with the change.
pub open spec fn updated_shortcuts(
    shortcuts: Seq<ShortcutView>,
    action: Seq<char>,
    shortcut: Seq<char>,
    pass_through: bool,
) -> Result<Seq<ShortcutView>, Seq<char>> {
    if label_of(action) is None {
        Err("错误：未知的快捷键功能"@)
    } else {
        match chord_of(shortcut) {
            Err(message) => Err(message),
            Ok(chord) => {
                let place = place_of_action(shortcuts, action);
                if taken_by_other(shortcuts, action, chord) {
                    Err("错误：快捷键 "@ + written(chord) + " 已被其他功能使用"@)
                } else if place == shortcuts.len() {
                    Err("错误：找不到快捷键设置"@)
                } else {
                    Ok(
                        shortcuts.update(
                            place,
                            ShortcutView {
                                action: shortcuts[place].action,
                                shortcut: written(chord),
                                pass_through,
                            },
                        ),
                    )
                }
            },
        }
    }
}

pub(crate) fn same_chord(left: &ShortcutChord, right: &ShortcutChord) -> (same: bool)
    ensures
        same == (left@ == right@),
{
    left.control == right.control && left.alt == right.alt && left.shift == right.shift
        && text::same_text(left.key.as_str(), right.key.as_str())
}

fn other_has_chord(shortcuts: &Vec<ShortcutSetting>, action: &str, chord: &ShortcutChord) -> (taken:
    bool)
    ensures
        taken == taken_by_other(settings::shortcut_views(shortcuts@), action@, chord@),
{
    let ghost views = settings::shortcut_views(shortcuts@);
    let mut index: usize = 0;
    while index < shortcuts.len()
        invariant
            index <= shortcuts@.len(),
            views == settings::shortcut_views(shortcuts@),
            forall|i: int|
                0 <= i < index ==> !((#[trigger] views[i]).action != action@ && chord_of(
                    views[i].shortcut,
                ) == Ok::<ChordView, Seq<char>>(chord@)),
        decreases shortcuts.len() - index,
    {
        assert(views[index as int] == shortcuts@[index as int]@);
        if !text::same_text(shortcuts[index].action.as_str(), action) {
            if let Ok(existing) = parse_shortcut(shortcuts[index].shortcut.as_str()) {
                if same_chord(&existing, chord) {
                    assert(views[index as int].action != action@);
                    return true;
                }
            }
        }
        index += 1;
    }
    false
}

/// Changes the shortcut of an action, where no other action has the chord.
pub fn update_shortcut(
    settings: &mut AppSettings,
    action: &str,
    shortcut: &str,
    pass_through: bool,
) -> (result: Result<(), String>)
    ensures
        match updated_shortcuts(old(settings)@.shortcuts, action@, shortcut@, pass_through) {
            Ok(shortcuts) => result is Ok && final(settings)@ == (SettingsView {
                shortcuts,
                ..old(settings)@
            }),
            Err(message) => result matches Err(shown) && shown@ == message && *final(settings)
                == *old(settings),
        },
{
    if shortcut_label(action).is_none() {
        return Err("错误：未知的快捷键功能".to_owned());
    }
    let chord = match parse_shortcut(shortcut) {
        Ok(chord) => chord,
        Err(message) => {
            return Err(message);
        },
    };
    let normalized = chord.display();
    if other_has_chord(&settings.shortcuts, action, &chord) {
        return Err(text::concat3("错误：快捷键 ", normalized.as_str(), " 已被其他功能使用"));
    }
    let place = find_action(&settings.shortcuts, action);
    if place == settings.shortcuts.len() {
        return Err("错误：找不到快捷键设置".to_owned());
    }
    let ghost before = settings.shortcuts@;
    let kept = settings.shortcuts[place].action.clone();
    let setting = ShortcutSetting { action: kept, shortcut: normalized, pass_through };
    let ghost view = setting@;
    settings.shortcuts.set(place, setting);
    proof {
        assert(settings::shortcut_views(settings.shortcuts@) =~= settings::shortcut_views(
            before,
        ).update(place as int, view));
        assert(settings::shortcut_views(before)[place as int] == before[place as int]@);
    }
    Ok(())
}

/// Whether a key is in its normal form and can stand in a shortcut.
pub open spec fn plain_key(key: Seq<char>) -> bool {
    normal_key(key) == Ok::<Seq<char>, Seq<char>>(key) && !key.contains('+')
}

proof fn lemma_next_part(parts: Seq<Seq<char>>, chord: ChordView, part: Seq<char>)
    requires
        chord_of_parts(parts) == Ok::<ChordView, Seq<char>>(chord),
        text::trimmed(part) == part,
        part.len() > 0,
    ensures
        chord_of_parts(parts.push(part)) == with_part(chord, part),
{
    assert(parts.push(part).drop_last() =~= parts);
}

/// The modifier keys as they are written: they are read as what they are.
proof fn lemma_written_modifiers()
    ensures
        text::trimmed("Ctrl"@) == "Ctrl"@,
        text::trimmed("Alt"@) == "Alt"@,
        text::trimmed("Shift"@) == "Shift"@,
        "Ctrl"@.len() == 4,
        "Alt"@.len() == 3,
        "Shift"@.len() == 5,
        !"Ctrl"@.contains('+'),
        !"Alt"@.contains('+'),
        !"Shift"@.contains('+'),
        "+"@ == seq!['+'],
        forall|chord: ChordView| #[trigger]
            with_part(chord, "Ctrl"@) == Ok::<ChordView, Seq<char>>(
                ChordView { control: true, ..chord },
            ),
        forall|chord: ChordView| #[trigger]
            with_part(chord, "Alt"@) == Ok::<ChordView, Seq<char>>(
                ChordView { alt: true, ..chord },
            ),
        forall|chord: ChordView| #[trigger]
            with_part(chord, "Shift"@) == Ok::<ChordView, Seq<char>>(
                ChordView { shift: true, ..chord },
            ),
{
    reveal_strlit("+");
    reveal_strlit("Ctrl");
    reveal_strlit("Alt");
    reveal_strlit("Shift");
    reveal_strlit("ctrl");
    reveal_strlit("control");
    reveal_strlit("alt");
    reveal_strlit("shift");
    text::trim_keeps_trimmed("Ctrl"@);
    text::trim_keeps_trimmed("Alt"@);
    text::trim_keeps_trimmed("Shift"@);
    assert("+"@ =~= seq!['+']);
    assert(text::ascii_lowered("Ctrl"@) =~= text::ascii_lowered("ctrl"@));
    assert(text::ascii_lowered("Alt"@) =~= text::ascii_lowered("alt"@));
    assert(text::ascii_lowered("Shift"@) =~= text::ascii_lowered("shift"@));
    assert(text::ascii_lowered("ctrl"@).len() == 4);
    assert(text::ascii_lowered("control"@).len() == 7);
    assert(text::ascii_lowered("alt"@).len() == 3);
    assert(text::ascii_lowered("shift"@).len() == 5);
}

proof fn lemma_plain_key(key: Seq<char>)
    requires
        plain_key(key),
    ensures
        key.len() > 0,
        text::trimmed(key) == key,
        !modifier_word(key),
{
    match name_of_key(key, 0) {
        Some(name) => {
            let index = lemma_name_has_index(key, 0);
            lemma_named_keys(index);
        },
        None => {
            lemma_modifier_words(key);
            text::trim_keeps_trimmed(key);
        },
    }
}

proof fn lemma_name_has_index(key: Seq<char>, from: int) -> (index: int)
    requires
        name_of_key(key, from) is Some,
    ensures
        0 <= index < NAMED_KEY_COUNT,
        name_of_key(key, from) == Some(named_key(index)),
    decreases NAMED_KEY_COUNT - from,
{
    if text::same_ignoring_case(named_key(from), key) {
        from
    } else {
        lemma_name_has_index(key, from + 1)
    }
}

/// A chord is read back from what is written for it, where its key is in normal
/// form and it has a modifier key.
pub proof fn written_chords_are_read_back(chord: ChordView)
    requires
        plain_key(chord.key),
        chord.control || chord.alt || chord.shift,
    ensures
        chord_of(written(chord)) == Ok::<ChordView, Seq<char>>(chord),
{
    lemma_written_modifiers();
    lemma_plain_key(chord.key);
    let none = Seq::<Seq<char>>::empty();
    let control = if chord.control {
        none.push("Ctrl"@)
    } else {
        none
    };
    let alt = if chord.alt {
        control.push("Alt"@)
    } else {
        control
    };
    let shift = if chord.shift {
        alt.push("Shift"@)
    } else {
        alt
    };
    let parts = chord_parts(chord);
    assert(parts =~= shift.push(chord.key));
    assert forall|i: int| 0 <= i < parts.len() implies !(#[trigger] parts[i]).contains('+') by {
        if i < parts.len() - 1 {
            assert(parts[i] == "Ctrl"@ || parts[i] == "Alt"@ || parts[i] == "Shift"@);
        }
    }
    text::pieces_undo_joining(parts, '+');
    let first = ChordView { control: chord.control, ..no_chord() };
    let second = ChordView { alt: chord.alt, ..first };
    let third = ChordView { shift: chord.shift, ..second };
    assert(chord_of_parts(none) == Ok::<ChordView, Seq<char>>(no_chord()));
    if chord.control {
        lemma_next_part(none, no_chord(), "Ctrl"@);
    }
    assert(chord_of_parts(control) == Ok::<ChordView, Seq<char>>(first));
    if chord.alt {
        lemma_next_part(control, first, "Alt"@);
    }
    assert(chord_of_parts(alt) == Ok::<ChordView, Seq<char>>(second));
    if chord.shift {
        lemma_next_part(alt, second, "Shift"@);
    }
    assert(chord_of_parts(shift) == Ok::<ChordView, Seq<char>>(third));
    lemma_next_part(shift, third, chord.key);
    assert(third.key.len() == 0);
    assert(with_part(third, chord.key) == Ok::<ChordView, Seq<char>>(
        ChordView { key: chord.key, ..third },
    ));
    assert(ChordView { key: chord.key, ..third } =~= chord);
}

/// Whether no action occurs twice and no two actions have one chord.
pub open spec fn apart(shortcuts: Seq<ShortcutView>) -> bool {
    forall|i: int, j: int|
        0 <= i < j < shortcuts.len() ==> (#[trigger] shortcuts[i]).action != (
        #[trigger] shortcuts[j]).action && (chord_of(shortcuts[i].shortcut) is Ok ==> chord_of(
            shortcuts[i].shortcut,
        ) != chord_of(shortcuts[j].shortcut))
}

proof fn lemma_place_of_action(shortcuts: Seq<ShortcutView>, action: Seq<char>)
    ensures
        0 <= place_of_action(shortcuts, action) <= shortcuts.len(),
        place_of_action(shortcuts, action) < shortcuts.len() ==> shortcuts[place_of_action(
            shortcuts,
            action,
        )].action == action,
        forall|i: int|
            0 <= i < place_of_action(shortcuts, action) ==> (#[trigger] shortcuts[i]).action
                != action,
    decreases shortcuts.len(),
{
    if shortcuts.len() > 0 && shortcuts.first().action != action {
        lemma_place_of_action(shortcuts.drop_first(), action);
        assert forall|i: int| 0 <= i < place_of_action(shortcuts, action) implies (
        #[trigger] shortcuts[i]).action != action by {
            if i > 0 {
                assert(shortcuts.drop_first()[i - 1] == shortcuts[i]);
            }
        }
    }
}

/// A change that is accepted gives the action its chord, leaves the other
/// actions alone, and never lets two actions share a chord.
pub proof fn changes_keep_chords_apart(
    shortcuts: Seq<ShortcutView>,
    action: Seq<char>,
    shortcut: Seq<char>,
    pass_through: bool,
)
    requires
        apart(shortcuts),
        updated_shortcuts(shortcuts, action, shortcut, pass_through) is Ok,
        plain_key(chord_of(shortcut)->Ok_0.key),
    ensures
        ({
            let after = updated_shortcuts(shortcuts, action, shortcut, pass_through)->Ok_0;
            let place = place_of_action(shortcuts, action);
            &&& apart(after)
            &&& after.len() == shortcuts.len()
            &&& chord_of(after[place].shortcut) == chord_of(shortcut)
            &&& after[place].pass_through == pass_through
            &&& forall|i: int|
                0 <= i < after.len() && i != place ==> #[trigger] after[i] == shortcuts[i]
        }),
{
    let chord = chord_of(shortcut)->Ok_0;
    let after = updated_shortcuts(shortcuts, action, shortcut, pass_through)->Ok_0;
    let place = place_of_action(shortcuts, action);
    lemma_place_of_action(shortcuts, action);
    written_chords_are_read_back(chord);
    assert(chord_of(after[place].shortcut) == Ok::<ChordView, Seq<char>>(chord));
    assert forall|i: int, j: int| 0 <= i < j < after.len() implies (
    #[trigger] after[i]).action != (#[trigger] after[j]).action && (chord_of(
        after[i].shortcut,
    ) is Ok ==> chord_of(after[i].shortcut) != chord_of(after[j].shortcut)) by {
        assert(shortcuts[i].action != shortcuts[j].action);
        if i == place {
            assert(shortcuts[j].action != action);
        } else if j == place {
            assert(shortcuts[i].action != action);
        }
    }
}

/// The chord that a shortcut of a list stands for.
pub open spec fn chord_at(shortcuts: Seq<ShortcutView>, index: int) -> ChordView {
    chord_of(shortcuts[index].shortcut)->Ok_0
}

/// Whether a chord that an action gets is read again as some chord, and no other
/// action has a shortcut that is written as that one.
pub open spec fn stands_alone(
    shortcuts: Seq<ShortcutView>,
    action: Seq<char>,
    chord: ChordView,
) -> bool {
    chord_of(written(chord)) is Ok && forall|i: int|
        0 <= i < shortcuts.len() && (#[trigger] shortcuts[i]).action != action ==> written(
            chord_at(shortcuts, i),
        ) != written(chord_of(written(chord))->Ok_0)
}

proof fn lemma_each_passes(shortcuts: Seq<ShortcutView>, index: int)
    requires
        checked_shortcuts(shortcuts) is Ok,
        0 <= index < shortcuts.len(),
    ensures
        last_shortcut_error(shortcuts.take(index + 1)) is None,
        label_of(shortcuts[index].action) is Some,
        chord_of(shortcuts[index].shortcut) is Ok,
        !uses_chord(shortcuts.take(index), chord_at(shortcuts, index)),
        forall|i: int|
            0 <= i < index ==> (#[trigger] shortcuts[i]).action != shortcuts[index].action,
    decreases shortcuts.len(),
{
    if index < shortcuts.len() - 1 {
        let shorter = shortcuts.drop_last();
        lemma_each_passes(shorter, index);
        assert(shorter.take(index + 1) =~= shortcuts.take(index + 1));
        assert(shorter.take(index) =~= shortcuts.take(index));
        assert forall|i: int| 0 <= i < index implies (#[trigger] shortcuts[i]).action
            != shortcuts[index].action by {
            assert(shorter[i] == shortcuts[i]);
        }
    } else {
        assert(shortcuts.take(index + 1) =~= shortcuts);
        assert(shortcuts.drop_last() =~= shortcuts.take(index));
        assert forall|i: int| 0 <= i < index implies (#[trigger] shortcuts[i]).action
            != shortcuts[index].action by {
            assert(shortcuts.drop_last()[i] == shortcuts[i]);
        }
    }
}

proof fn lemma_changed_pass(
    shortcuts: Seq<ShortcutView>,
    action: Seq<char>,
    shortcut: Seq<char>,
    pass_through: bool,
    count: int,
)
    requires
        checked_shortcuts(shortcuts) is Ok,
        updated_shortcuts(shortcuts, action, shortcut, pass_through) is Ok,
        stands_alone(shortcuts, action, chord_of(shortcut)->Ok_0),
        0 <= count <= shortcuts.len(),
    ensures
        first_shortcut_error(
            updated_shortcuts(shortcuts, action, shortcut, pass_through)->Ok_0.take(count),
        ) is None,
    decreases count,
{
    let after = updated_shortcuts(shortcuts, action, shortcut, pass_through)->Ok_0;
    let place = place_of_action(shortcuts, action);
    let chord = chord_of(shortcut)->Ok_0;
    if count > 0 {
        let index = count - 1;
        let list = after.take(count);
        let earlier = after.take(index);
        lemma_place_of_action(shortcuts, action);
        lemma_changed_pass(shortcuts, action, shortcut, pass_through, index);
        assert(list.drop_last() =~= earlier);
        assert(list.last() == after[index]);
        lemma_each_passes(shortcuts, index);
        assert(after[index].action == shortcuts[index].action);
        assert(!has_action(earlier, after[index].action)) by {
            if has_action(earlier, after[index].action) {
                let i = choose|i: int|
                    0 <= i < earlier.len() && (#[trigger] earlier[i]).action
                        == after[index].action;
                assert(earlier[i] == after[i]);
                assert(shortcuts[i].action != shortcuts[index].action);
            }
        }
        let own = chord_at(after, index);
        assert(!uses_chord(earlier, own)) by {
            if uses_chord(earlier, own) {
                let i = choose|i: int|
                    0 <= i < earlier.len() && chord_of((#[trigger] earlier[i]).shortcut) is Ok
                        && written(chord_of(earlier[i].shortcut)->Ok_0) == written(own);
                assert(earlier[i] == after[i]);
                assert(shortcuts[i].action != shortcuts[index].action);
                if i == place {
                    assert(shortcuts[index].action != action);
                } else if index == place {
                    assert(shortcuts[i].action != action);
                } else {
                    let before = shortcuts.take(index);
                    assert(before[i] == shortcuts[i]);
                    assert(uses_chord(before, chord_at(shortcuts, index)));
                }
            }
        }
    }
}

/// After a change that is accepted, shortcuts that passed the check pass it if
/// and only if the chord, as it is written, is read again and no other action
/// has a shortcut that is written as what is read.
pub proof fn changes_pass_where_they_stand_alone(
    shortcuts: Seq<ShortcutView>,
    action: Seq<char>,
    shortcut: Seq<char>,
    pass_through: bool,
)
    requires
        checked_shortcuts(shortcuts) is Ok,
        updated_shortcuts(shortcuts, action, shortcut, pass_through) is Ok,
    ensures
        checked_shortcuts(
            updated_shortcuts(shortcuts, action, shortcut, pass_through)->Ok_0,
        ) is Ok <==> stands_alone(shortcuts, action, chord_of(shortcut)->Ok_0),
{
    let after = updated_shortcuts(shortcuts, action, shortcut, pass_through)->Ok_0;
    let chord = chord_of(shortcut)->Ok_0;
    let place = place_of_action(shortcuts, action);
    lemma_place_of_action(shortcuts, action);
    if stands_alone(shortcuts, action, chord) {
        lemma_changed_pass(shortcuts, action, shortcut, pass_through, shortcuts.len() as int);
        assert(after.take(shortcuts.len() as int) =~= after);
    }
    if checked_shortcuts(after) is Ok {
        lemma_each_passes(after, place);
        let own = chord_at(after, place);
        assert forall|i: int|
            0 <= i < shortcuts.len() && (#[trigger] shortcuts[i]).action != action implies written(
            chord_at(shortcuts, i),
        ) != written(own) by {
            assert(after[i] == shortcuts[i]);
            lemma_each_passes(after, i);
            if written(chord_at(after, i)) == written(own) {
                if i < place {
                    let earlier = after.take(place);
                    assert(earlier[i] == after[i]);
                    assert(uses_chord(earlier, own));
                } else {
                    let earlier = after.take(i);
                    assert(earlier[place] == after[place]);
                    assert(uses_chord(earlier, chord_at(after, i)));
                }
            }
        }
    }
}

proof fn lemma_parts_without_separator(chord: ChordView)
    requires
        !chord.key.contains('+'),
    ensures
        text::pieces(written(chord), '+') == chord_parts(chord),
{
    lemma_written_modifiers();
    let parts = chord_parts(chord);
    assert forall|i: int| 0 <= i < parts.len() implies !(#[trigger] parts[i]).contains('+') by {
        if i < parts.len() - 1 {
            assert(parts[i] == "Ctrl"@ || parts[i] == "Alt"@ || parts[i] == "Shift"@);
        }
    }
    text::pieces_undo_joining(parts, '+');
}

/// Different chords are written differently, where no key holds a plus sign.
pub proof fn different_chords_are_written_differently(left: ChordView, right: ChordView)
    requires
        !left.key.contains('+'),
        !right.key.contains('+'),
        left != right,
    ensures
        written(left) != written(right),
{
    reveal_strlit("Ctrl");
    reveal_strlit("Alt");
    reveal_strlit("Shift");
    if written(left) == written(right) {
        lemma_parts_without_separator(left);
        lemma_parts_without_separator(right);
        let one = chord_parts(left);
        let other = chord_parts(right);
        assert(one == other);
        assert(one.last() == left.key && other.last() == right.key);
        assert(left.control == (one.len() > 1 && one[0].len() == 4));
        assert(right.control == (other.len() > 1 && other[0].len() == 4));
        assert(left.shift == (one.len() > 1 && one[one.len() - 2].len() == 5));
        assert(right.shift == (other.len() > 1 && other[other.len() - 2].len() == 5));
        assert(left =~= right);
    }
}

/// Shortcuts that pass the check still do after a change that is accepted, where
/// the new key is in normal form and each shortcut of another action has a key
/// without a plus sign or is not written as the new chord.
pub proof fn changes_keep_the_check(
    shortcuts: Seq<ShortcutView>,
    action: Seq<char>,
    shortcut: Seq<char>,
    pass_through: bool,
)
    requires
        checked_shortcuts(shortcuts) is Ok,
        updated_shortcuts(shortcuts, action, shortcut, pass_through) is Ok,
        plain_key(chord_of(shortcut)->Ok_0.key),
        forall|i: int|
            0 <= i < shortcuts.len() && (#[trigger] shortcuts[i]).action != action ==> !chord_at(
                shortcuts,
                i,
            ).key.contains('+') || written(chord_at(shortcuts, i)) != written(
                chord_of(shortcut)->Ok_0,
            ),
    ensures
        checked_shortcuts(
            updated_shortcuts(shortcuts, action, shortcut, pass_through)->Ok_0,
        ) is Ok,
{
    let chord = chord_of(shortcut)->Ok_0;
    written_chords_are_read_back(chord);
    assert forall|i: int|
        0 <= i < shortcuts.len() && (#[trigger] shortcuts[i]).action != action implies written(
        chord_at(shortcuts, i),
    ) != written(chord) by {
        lemma_each_passes(shortcuts, i);
        assert(chord_at(shortcuts, i) != chord);
        if !chord_at(shortcuts, i).key.contains('+') {
            different_chords_are_written_differently(chord_at(shortcuts, i), chord);
        }
    }
    changes_pass_where_they_stand_alone(shortcuts, action, shortcut, pass_through);
}

/// The definitions differ in their actions, and their shortcuts have no white
/// space around them.
proof fn lemma_definitions()
    ensures
        forall|i: int, j: int|
            0 <= i < j < SHORTCUT_COUNT ==> (#[trigger] definition(i)).0 != (
            #[trigger] definition(j)).0,
        forall|i: int|
            0 <= i < SHORTCUT_COUNT ==> text::trimmed((#[trigger] definition(i)).2)
                == definition(i).2,
        definition(5).2 != "Ctrl+Shift+T"@,
        definition(6).2 != "Ctrl+Shift+W"@,
        definition(5).0 == "new-tab"@,
        definition(6).0 == "close-tab"@,
{
    reveal_strlit("copy");
    reveal_strlit("select-all");
    reveal_strlit("paste");
    reveal_strlit("find");
    reveal_strlit("interrupt");
    reveal_strlit("new-tab");
    reveal_strlit("close-tab");
    reveal_strlit("quit");
    reveal_strlit("Ctrl+C");
    reveal_strlit("Ctrl+A");
    reveal_strlit("Ctrl+V");
    reveal_strlit("Ctrl+F");
    reveal_strlit("Alt+C");
    reveal_strlit("Ctrl+T");
    reveal_strlit("Ctrl+W");
    reveal_strlit("Alt+Q");
    reveal_strlit("Ctrl+Shift+T");
    reveal_strlit("Ctrl+Shift+W");
    assert("Ctrl+T"@.len() == 6 && "Ctrl+Shift+T"@.len() == 12);
    assert("Ctrl+W"@.len() == 6 && "Ctrl+Shift+W"@.len() == 12);
    assert forall|i: int| 0 <= i < SHORTCUT_COUNT implies text::trimmed(
        (#[trigger] definition(i)).2,
    ) == definition(i).2 by {
        text::trim_keeps_trimmed(definition(i).2);
    }
    assert forall|i: int, j: int| 0 <= i < j < SHORTCUT_COUNT implies (
    #[trigger] definition(i)).0 != (#[trigger] definition(j)).0 by {
        let one = definition(i).0;
        let other = definition(j).0;
        assert(one.len() != other.len() || one[0] != other[0]);
    }
}

/// Shortcuts that were brought in order stay as they are when it is done again.
pub proof fn normalizing_twice_changes_nothing(shortcuts: Seq<ShortcutView>)
    ensures
        normalized_shortcuts(normalized_shortcuts(shortcuts)) == normalized_shortcuts(shortcuts),
{
    let once = normalized_shortcuts(shortcuts);
    lemma_definitions();
    assert forall|index: int| 0 <= index < SHORTCUT_COUNT implies (#[trigger] once[index]).action
        == definition(index).0 by {
        lemma_place_of_action(shortcuts, definition(index).0);
    }
    assert forall|index: int| 0 <= index < SHORTCUT_COUNT implies #[trigger] chosen_shortcut(
        index,
        once,
    ) == once[index] by {
        let action = definition(index).0;
        lemma_place_of_action(shortcuts, action);
        lemma_place_of_action(once, action);
        let place = place_of_action(once, action);
        assert(once[index].action == action);
        if place < index {
            assert(definition(place).0 != definition(index).0);
        }
        assert(place == index);
        let before = place_of_action(shortcuts, action);
        if before < shortcuts.len() {
            text::trimming_twice_changes_nothing(shortcuts[before].shortcut);
        }
        reveal_strlit("Ctrl+T");
        reveal_strlit("Ctrl+W");
        reveal_strlit("Ctrl+Shift+T");
        reveal_strlit("Ctrl+Shift+W");
        text::trim_keeps_trimmed("Ctrl+T"@);
        text::trim_keeps_trimmed("Ctrl+W"@);
        assert("Ctrl+T"@.len() == 6 && "Ctrl+Shift+T"@.len() == 12);
        assert("Ctrl+W"@.len() == 6 && "Ctrl+Shift+W"@.len() == 12);
        if index != 5 && action == "new-tab"@ {
            if index < 5 {
                assert(definition(index).0 != definition(5).0);
            } else {
                assert(definition(5).0 != definition(index).0);
            }
        }
        if index != 6 && action == "close-tab"@ {
            if index < 6 {
                assert(definition(index).0 != definition(6).0);
            } else {
                assert(definition(6).0 != definition(index).0);
            }
        }
        assert(chosen_shortcut(index, once) == normal_shortcut(index, once[index]));
        assert(normal_shortcut(index, once[index]) =~= once[index]);
    }
    assert(normalized_shortcuts(once) =~= once);
}

/// The key of a default shortcut.
spec fn preset_key(index: int) -> char {
    if index == 0 || index == 4 {
        'C'
    } else if index == 1 {
        'A'
    } else if index == 2 {
        'V'
    } else if index == 3 {
        'F'
    } else if index == 5 {
        'T'
    } else if index == 6 {
        'W'
    } else {
        'Q'
    }
}

/// The chord of a default shortcut.
spec fn preset_chord(index: int) -> ChordView {
    ChordView {
        control: index != 4 && index != 7,
        alt: index == 4 || index == 7,
        shift: false,
        key: seq![preset_key(index)],
    }
}

proof fn lemma_letters_have_no_name(letter: char, from: int)
    requires
        0 <= from,
    ensures
        name_of_key(seq![letter], from) is None,
    decreases NAMED_KEY_COUNT - from,
{
    if from < NAMED_KEY_COUNT {
        lemma_named_keys(from);
        assert(text::ascii_lowered(named_key(from)).len() >= 2);
        assert(text::ascii_lowered(seq![letter]).len() == 1);
        lemma_letters_have_no_name(letter, from + 1);
    }
}

proof fn lemma_preset_is_read(index: int)
    requires
        0 <= index < SHORTCUT_COUNT,
    ensures
        chord_of(definition(index).2) == Ok::<ChordView, Seq<char>>(preset_chord(index)),
        written(preset_chord(index)) == definition(index).2,
{
    let chord = preset_chord(index);
    let letter = preset_key(index);
    lemma_letters_have_no_name(letter, 0);
    assert(text::uppered(letter) =~= seq![letter]);
    assert(plain_key(chord.key));
    reveal_strlit("+");
    reveal_strlit("Ctrl");
    reveal_strlit("Alt");
    reveal_strlit("Ctrl+C");
    reveal_strlit("Ctrl+A");
    reveal_strlit("Ctrl+V");
    reveal_strlit("Ctrl+F");
    reveal_strlit("Alt+C");
    reveal_strlit("Ctrl+T");
    reveal_strlit("Ctrl+W");
    reveal_strlit("Alt+Q");
    let modifier = if chord.control {
        "Ctrl"@
    } else {
        "Alt"@
    };
    assert(chord_parts(chord) =~= seq![modifier, chord.key]);
    assert(seq![modifier, chord.key].drop_last() =~= seq![modifier]);
    reveal_with_fuel(text::joined, 3);
    assert(written(chord) =~= modifier + "+"@ + chord.key);
    assert(modifier + "+"@ + chord.key =~= definition(index).2);
    written_chords_are_read_back(chord);
}

proof fn lemma_action_is_known(index: int, from: int)
    requires
        0 <= from <= index < SHORTCUT_COUNT,
    ensures
        action_index(definition(index).0, from) < SHORTCUT_COUNT,
    decreases SHORTCUT_COUNT - from,
{
    if definition(from).0 != definition(index).0 {
        lemma_action_is_known(index, from + 1);
    }
}

proof fn lemma_first_presets_pass(count: int)
    requires
        0 <= count <= SHORTCUT_COUNT,
    ensures
        first_shortcut_error(preset().take(count)) is None,
    decreases count,
{
    if count > 0 {
        let index = count - 1;
        let list = preset().take(count);
        let earlier = preset().take(index);
        lemma_first_presets_pass(index);
        assert(list.drop_last() =~= earlier);
        assert(list.last() == preset_shortcut(index));
        lemma_action_is_known(index, 0);
        lemma_definitions();
        lemma_preset_is_read(index);
        assert(!has_action(earlier, definition(index).0)) by {
            if has_action(earlier, definition(index).0) {
                let i = choose|i: int| 0 <= i < earlier.len() && (#[trigger] earlier[i]).action
                    == definition(index).0;
                assert(earlier[i] == preset_shortcut(i));
                assert(definition(i).0 != definition(index).0);
            }
        }
        assert(!uses_chord(earlier, preset_chord(index))) by {
            if uses_chord(earlier, preset_chord(index)) {
                let i = choose|i: int|
                    0 <= i < earlier.len() && chord_of((#[trigger] earlier[i]).shortcut) is Ok
                        && written(chord_of(earlier[i].shortcut)->Ok_0) == written(
                        preset_chord(index),
                    );
                assert(earlier[i] == preset_shortcut(i));
                lemma_preset_is_read(i);
                reveal_strlit("Ctrl+C");
                reveal_strlit("Ctrl+A");
                reveal_strlit("Ctrl+V");
                reveal_strlit("Ctrl+F");
                reveal_strlit("Alt+C");
                reveal_strlit("Ctrl+T");
                reveal_strlit("Ctrl+W");
                reveal_strlit("Alt+Q");
                let one = definition(i).2;
                let other = definition(index).2;
                assert(one.len() != other.len() || one.last() != other.last());
            }
        }
    }
}

/// The default shortcuts pass the check, and are in order as they are.
pub proof fn presets_pass_the_check()
    ensures
        checked_shortcuts(preset()) is Ok,
        normalized_shortcuts(preset()) == preset(),
{
    lemma_first_presets_pass(SHORTCUT_COUNT as int);
    assert(preset().take(SHORTCUT_COUNT as int) =~= preset());
    lemma_definitions();
    assert forall|index: int| 0 <= index < SHORTCUT_COUNT implies #[trigger] chosen_shortcut(
        index,
        preset(),
    ) == preset()[index] by {
        let action = definition(index).0;
        lemma_place_of_action(preset(), action);
        let place = place_of_action(preset(), action);
        assert(preset()[index].action == action);
        if place < index {
            assert(preset()[place] == preset_shortcut(place));
            assert(definition(place).0 != definition(index).0);
        }
        assert(place == index);
        lemma_preset_is_read(index);
        reveal_strlit("Ctrl+Shift+T");
        reveal_strlit("Ctrl+Shift+W");
        assert(definition(index).2.len() <= 6) by {
            reveal_strlit("Ctrl+C");
            reveal_strlit("Ctrl+A");
            reveal_strlit("Ctrl+V");
            reveal_strlit("Ctrl+F");
            reveal_strlit("Alt+C");
            reveal_strlit("Ctrl+T");
            reveal_strlit("Ctrl+W");
            reveal_strlit("Alt+Q");
        }
    }
    assert(normalized_shortcuts(preset()) =~= preset());
}

/// A function key is called by an F and its number.
pub(crate) proof fn lemma_function_key_names(number: int)
    requires
        1 <= number <= 12,
    ensures
        named_key(number + 13) == seq!['F'] + text::decimal(number as nat),
{
    reveal_strlit("F1");
    reveal_strlit("F2");
    reveal_strlit("F3");
    reveal_strlit("F4");
    reveal_strlit("F5");
    reveal_strlit("F6");
    reveal_strlit("F7");
    reveal_strlit("F8");
    reveal_strlit("F9");
    reveal_strlit("F10");
    reveal_strlit("F11");
    reveal_strlit("F12");
    reveal_with_fuel(text::decimal, 3);
    assert(named_key(number + 13) =~= seq!['F'] + text::decimal(number as nat));
}

/// A chord is written with the modifier keys first, in the order control, alt and
/// shift, and the key last, with plus signs between them.
pub proof fn modifiers_are_written_first(chord: ChordView)
    ensures
        written(chord) == (if chord.control {
            seq!['C', 't', 'r', 'l', '+']
        } else {
            Seq::empty()
        }) + (if chord.alt {
            seq!['A', 'l', 't', '+']
        } else {
            Seq::empty()
        }) + (if chord.shift {
            seq!['S', 'h', 'i', 'f', 't', '+']
        } else {
            Seq::empty()
        }) + chord.key,
{
    reveal_strlit("Ctrl");
    reveal_strlit("Alt");
    reveal_strlit("Shift");
    reveal_strlit("+");
    reveal_with_fuel(text::joined, 5);
    let control = "Ctrl"@;
    let alt = "Alt"@;
    let shift = "Shift"@;
    let plus = "+"@;
    assert(control =~= seq!['C', 't', 'r', 'l']);
    assert(alt =~= seq!['A', 'l', 't']);
    assert(shift =~= seq!['S', 'h', 'i', 'f', 't']);
    assert(plus =~= seq!['+']);
    let parts = chord_parts(chord);
    let one = parts.drop_last();
    let two = one.drop_last();
    let three = two.drop_last();
    if chord.control && chord.alt && chord.shift {
        assert(parts =~= seq![control, alt, shift, chord.key]);
        assert(one =~= seq![control, alt, shift]);
        assert(two =~= seq![control, alt]);
        assert(three =~= seq![control]);
    } else if chord.control && chord.alt {
        assert(parts =~= seq![control, alt, chord.key]);
        assert(one =~= seq![control, alt]);
        assert(two =~= seq![control]);
    } else if chord.control && chord.shift {
        assert(parts =~= seq![control, shift, chord.key]);
        assert(one =~= seq![control, shift]);
        assert(two =~= seq![control]);
    } else if chord.alt && chord.shift {
        assert(parts =~= seq![alt, shift, chord.key]);
        assert(one =~= seq![alt, shift]);
        assert(two =~= seq![alt]);
    } else if chord.control {
        assert(parts =~= seq![control, chord.key]);
        assert(one =~= seq![control]);
    } else if chord.alt {
        assert(parts =~= seq![alt, chord.key]);
        assert(one =~= seq![alt]);
    } else if chord.shift {
        assert(parts =~= seq![shift, chord.key]);
        assert(one =~= seq![shift]);
    } else {
        assert(parts =~= seq![chord.key]);
    }
    let expected = (if chord.control {
        seq!['C', 't', 'r', 'l', '+']
    } else {
        Seq::empty()
    }) + (if chord.alt {
        seq!['A', 'l', 't', '+']
    } else {
        Seq::empty()
    }) + (if chord.shift {
        seq!['S', 'h', 'i', 'f', 't', '+']
    } else {
        Seq::empty()
    }) + chord.key;
    assert(written(chord) =~= expected);
}

proof fn lemma_error_free(shortcuts: Seq<ShortcutView>)
    ensures
        checked_shortcuts(shortcuts) is Ok <==> forall|i: int|
            0 <= i < shortcuts.len() ==> sound_at(shortcuts, i),
    decreases shortcuts.len(),
{
    if shortcuts.len() > 0 {
        let shorter = shortcuts.drop_last();
        let last = shortcuts.len() - 1;
        lemma_error_free(shorter);
        assert(shortcuts[last] == shortcuts.last());
        assert forall|i: int| 0 <= i < last implies sound_at(shortcuts, i) == sound_at(
            shorter,
            i,
        ) by {
            assert(shorter[i] == shortcuts[i]);
            assert forall|j: int| 0 <= j < i implies shorter[j] == #[trigger] shortcuts[j] by {}
            assert forall|j: int| 0 <= j < i implies shortcuts[j] == #[trigger] shorter[j] by {}
        }
        let setting = shortcuts.last();
        if has_action(shorter, setting.action) {
            let j = choose|j: int| 0 <= j < shorter.len() && (#[trigger] shorter[j]).action
                == setting.action;
            assert(shortcuts[j].action == setting.action);
        } else {
            assert forall|j: int| 0 <= j < last implies (#[trigger] shortcuts[j]).action
                != setting.action by {
                assert(shorter[j] == shortcuts[j]);
            }
        }
        if chord_of(setting.shortcut) is Ok {
            let chord = chord_of(setting.shortcut)->Ok_0;
            if uses_chord(shorter, chord) {
                let j = choose|j: int|
                    0 <= j < shorter.len() && chord_of((#[trigger] shorter[j]).shortcut) is Ok
                        && written(chord_of(shorter[j].shortcut)->Ok_0) == written(chord);
                assert(shortcuts[j] == shorter[j]);
            } else {
                assert forall|j: int|
                    0 <= j < last && chord_of((#[trigger] shortcuts[j]).shortcut)
                        is Ok implies written(chord_of(shortcuts[j].shortcut)->Ok_0) != written(
                    chord,
                ) by {
                    assert(shorter[j] == shortcuts[j]);
                }
            }
        }
        if checked_shortcuts(shortcuts) is Ok {
            assert forall|i: int| 0 <= i < shortcuts.len() implies sound_at(shortcuts, i) by {
                if i < last {
                    assert(sound_at(shorter, i));
                }
            }
        }
        if forall|i: int| 0 <= i < shortcuts.len() ==> sound_at(shortcuts, i) {
            assert forall|i: int| 0 <= i < shorter.len() implies sound_at(shorter, i) by {
                assert(sound_at(shortcuts, i));
            }
            assert(sound_at(shortcuts, last));
        }
    }
}

/// Whether the shortcut at a place is as it should be: its action is known and no
/// shortcut before it has that action, and its chord can be read and is written
/// like none before it.
pub open spec fn sound_at(shortcuts: Seq<ShortcutView>, place: int) -> bool {
    let setting = shortcuts[place];
    &&& label_of(setting.action) is Some
    &&& chord_of(setting.shortcut) is Ok
    &&& forall|j: int| 0 <= j < place ==> (#[trigger] shortcuts[j]).action != setting.action
    &&& forall|j: int|
        0 <= j < place && chord_of((#[trigger] shortcuts[j]).shortcut) is Ok ==> written(
            chord_of(shortcuts[j].shortcut)->Ok_0,
        ) != written(chord_of(setting.shortcut)->Ok_0)
}

/// Shortcuts pass the check if and only if each is for a known action of its own and
/// has a chord of its own that can be read.
pub proof fn shortcuts_pass_if_each_is_sound(shortcuts: Seq<ShortcutView>)
    ensures
        checked_shortcuts(shortcuts) is Ok <==> forall|i: int|
            0 <= i < shortcuts.len() ==> sound_at(shortcuts, i),
{
    lemma_error_free(shortcuts);
}

/// After they are brought in order there is one shortcut for each action, each of
/// which can be read. One that could be read before stays, without white space
/// around it, but for the two that used to be the defaults for new and closed
/// tabs; one that could not be read, or was not there, is the default.
pub proof fn ordering_keeps_readable_shortcuts(previous: Seq<ShortcutView>, index: int, place: int)
    requires
        0 <= index < 8,
        0 <= place < previous.len(),
        previous[place].action == definition(index).0,
        forall|j: int| 0 <= j < place ==> (#[trigger] previous[j]).action != definition(index).0,
    ensures
        ({
            let after = normalized_shortcuts(previous);
            let setting = previous[place];
            let bare = text::trimmed(setting.shortcut);
            let former = (setting.action == "new-tab"@ && bare == "Ctrl+Shift+T"@) || (
            setting.action == "close-tab"@ && bare == "Ctrl+Shift+W"@);
            &&& after.len() == 8
            &&& after[index].action == setting.action
            &&& after[index].pass_through == setting.pass_through
            &&& chord_of(after[index].shortcut) is Ok
            &&& !former && chord_of(bare) is Ok ==> after[index].shortcut == bare
            &&& !former && chord_of(bare) is Err ==> after[index].shortcut == definition(index).2
            &&& former ==> after[index].shortcut == definition(index).2
        }),
{
    lemma_place_of_action(previous, definition(index).0);
    let found = place_of_action(previous, definition(index).0);
    assert(found == place);
    lemma_preset_is_read(index);
    lemma_preset_is_read(5);
    lemma_preset_is_read(6);
    lemma_definitions();
    if definition(index).0 == "new-tab"@ && index != 5 {
        if index < 5 {
            assert(definition(index).0 != definition(5).0);
        } else {
            assert(definition(5).0 != definition(index).0);
        }
    }
    if definition(index).0 == "close-tab"@ && index != 6 {
        if index < 6 {
            assert(definition(index).0 != definition(6).0);
        } else {
            assert(definition(6).0 != definition(index).0);
        }
    }
}

/// The default shortcuts, by the actions that they are for.
pub proof fn presets_are_listed()
    ensures
        preset().len() == 8,
        preset()[0].action == "copy"@ && preset()[0].shortcut == "Ctrl+C"@,
        preset()[1].action == "select-all"@ && preset()[1].shortcut == "Ctrl+A"@,
        preset()[2].action == "paste"@ && preset()[2].shortcut == "Ctrl+V"@,
        preset()[3].action == "find"@ && preset()[3].shortcut == "Ctrl+F"@,
        preset()[4].action == "interrupt"@ && preset()[4].shortcut == "Alt+C"@,
        preset()[5].action == "new-tab"@ && preset()[5].shortcut == "Ctrl+T"@,
        preset()[6].action == "close-tab"@ && preset()[6].shortcut == "Ctrl+W"@,
        preset()[7].action == "quit"@ && preset()[7].shortcut == "Alt+Q"@,
        forall|i: int| 0 <= i < 8 ==> !(#[trigger] preset()[i]).pass_through,
{
}

/// A change is refused if and only if the action is unknown or has no setting, the
/// shortcut cannot be read, or another action has the chord.
pub proof fn changes_are_refused_for_a_reason(
    shortcuts: Seq<ShortcutView>,
    action: Seq<char>,
    shortcut: Seq<char>,
    pass_through: bool,
)
    ensures
        updated_shortcuts(shortcuts, action, shortcut, pass_through) is Ok <==> label_of(action)
            is Some && chord_of(shortcut) is Ok && (exists|i: int|
            0 <= i < shortcuts.len() && (#[trigger] shortcuts[i]).action == action) && forall|
            i: int,
        |
            0 <= i < shortcuts.len() && (#[trigger] shortcuts[i]).action != action ==> chord_of(
                shortcuts[i].shortcut,
            ) != chord_of(shortcut),
{
    lemma_place_of_action(shortcuts, action);
}

/// A key is read in its normal form: a key with a name in whatever case by that name,
/// an ASCII letter as its capital, a digit as itself. White space, control
/// characters and unknown names are no keys.
pub proof fn keys_are_read_in_normal_form(key: Seq<char>, index: int)
    requires
        0 <= index < NAMED_KEY_COUNT,
    ensures
        text::same_ignoring_case(named_key(index), key) && (forall|j: int|
            0 <= j < index ==> !text::same_ignoring_case(#[trigger] named_key(j), key))
            ==> normal_key(key) == Ok::<Seq<char>, Seq<char>>(named_key(index)),
        key.len() == 0 ==> normal_key(key) is Err,
        key.len() == 1 && 'a' <= key[0] <= 'z' ==> normal_key(key) == Ok::<Seq<char>, Seq<char>>(
            seq![(key[0] as int - 32) as char],
        ),
        key.len() == 1 && ('A' <= key[0] <= 'Z' || '0' <= key[0] <= '9') ==> normal_key(key) == Ok::<
            Seq<char>,
            Seq<char>,
        >(key),
        key.len() == 1 && (text::white_space(key[0]) || text::control_character(key[0]))
            ==> normal_key(key) is Err,
        key.len() > 1 && (forall|j: int|
            0 <= j < NAMED_KEY_COUNT ==> !text::same_ignoring_case(#[trigger] named_key(j), key))
            ==> normal_key(key) is Err,
{
    if key.len() == 1 {
        assert(key =~= seq![key[0]]);
        lemma_letters_have_no_name(key[0], 0);
    }
    lemma_name_found(key, 0, index);
    lemma_name_missing(key, 0);
    if key.len() == 0 {
        assert forall|j: int| 0 <= j < NAMED_KEY_COUNT implies !text::same_ignoring_case(
            #[trigger] named_key(j),
            key,
        ) by {
            lemma_named_keys(j);
            assert(text::ascii_lowered(named_key(j)).len() >= 2);
            assert(text::ascii_lowered(key).len() == 0);
        }
    }
}

proof fn lemma_name_found(key: Seq<char>, from: int, index: int)
    requires
        0 <= from <= index < NAMED_KEY_COUNT,
    ensures
        text::same_ignoring_case(named_key(index), key) && (forall|j: int|
            from <= j < index ==> !text::same_ignoring_case(#[trigger] named_key(j), key))
            ==> name_of_key(key, from) == Some(named_key(index)),
    decreases index - from,
{
    if from < index {
        lemma_name_found(key, from + 1, index);
    }
}

proof fn lemma_name_missing(key: Seq<char>, from: int)
    requires
        0 <= from <= NAMED_KEY_COUNT,
    ensures
        (forall|j: int|
            from <= j < NAMED_KEY_COUNT ==> !text::same_ignoring_case(#[trigger] named_key(j), key))
            ==> name_of_key(key, from) is None,
    decreases NAMED_KEY_COUNT - from,
{
    if from < NAMED_KEY_COUNT {
        lemma_name_missing(key, from + 1);
    }
}

/// One more part of a shortcut: control has two names, and the names of modifier keys
/// count in whatever case and in any order; a second key is refused, and a blank
/// part changes nothing.
pub proof fn parts_add_to_the_chord(parts: Seq<Seq<char>>, part: Seq<char>)
    requires
        chord_of_parts(parts) is Ok,
    ensures
        ({
            let before = chord_of_parts(parts)->Ok_0;
            let after = chord_of_parts(parts.push(part));
            let bare = text::trimmed(part);
            let low = text::ascii_lowered(bare);
            let control = low == "ctrl"@ || low == "control"@;
            let alt = low == "alt"@;
            let shift = low == "shift"@;
            &&& bare.len() == 0 ==> after == chord_of_parts(parts)
            &&& control ==> after == Ok::<ChordView, Seq<char>>(
                ChordView { control: true, ..before },
            )
            &&& alt ==> after == Ok::<ChordView, Seq<char>>(ChordView { alt: true, ..before })
            &&& shift ==> after == Ok::<ChordView, Seq<char>>(ChordView { shift: true, ..before })
            &&& bare.len() > 0 && !control && !alt && !shift && before.key.len() > 0 ==> after is Err
            &&& bare.len() > 0 && !control && !alt && !shift && before.key.len() == 0 ==> (after is Ok
                <==> normal_key(bare) is Ok)
            &&& bare.len() > 0 && !control && !alt && !shift && after is Ok ==> after == Ok::<
                ChordView,
                Seq<char>,
            >(ChordView { key: normal_key(bare)->Ok_0, ..before })
        }),
{
    assert(parts.push(part).drop_last() =~= parts);
    reveal_strlit("ctrl");
    reveal_strlit("control");
    reveal_strlit("alt");
    reveal_strlit("shift");
    let bare = text::trimmed(part);
    assert(text::ascii_lowered("ctrl"@) =~= "ctrl"@);
    assert(text::ascii_lowered("control"@) =~= "control"@);
    assert(text::ascii_lowered("alt"@) =~= "alt"@);
    assert(text::ascii_lowered("shift"@) =~= "shift"@);
    assert("ctrl"@.len() == 4 && "control"@.len() == 7 && "alt"@.len() == 3 && "shift"@.len() == 5);
    assert(text::ascii_lowered(bare).len() == bare.len());
}

/// A shortcut stands for a chord if and only if its parts make one with a key and at
/// least one modifier key, and the parts stand between plus signs.
pub proof fn shortcuts_need_a_key_and_a_modifier(shortcut: Seq<char>)
    ensures
        ({
            let parts = text::pieces(shortcut, '+');
            chord_of(shortcut) is Ok <==> (chord_of_parts(parts) matches Ok(chord)
                && chord.key.len() > 0 && (chord.control || chord.alt || chord.shift))
        }),
        chord_of(shortcut) is Ok ==> chord_of(shortcut) == chord_of_parts(
            text::pieces(shortcut, '+'),
        ),
        chord_of_parts(Seq::empty()) matches Ok(nothing) && !nothing.control && !nothing.alt
            && !nothing.shift && nothing.key.len() == 0,
{
}

/// The actions by the labels that the user reads.
pub proof fn labels_are_listed()
    ensures
        label_of("copy"@) == Some("复制"@),
        label_of("select-all"@) == Some("全选"@),
        label_of("paste"@) == Some("粘贴"@),
        label_of("find"@) == Some("搜索终端"@),
        label_of("interrupt"@) == Some("中断终端"@),
        label_of("new-tab"@) == Some("新建标签页"@),
        label_of("close-tab"@) == Some("关闭标签页"@),
        label_of("quit"@) == Some("退出应用"@),
{
    lemma_definitions();
    assert(definition(0).0 == "copy"@ && definition(1).0 == "select-all"@ && definition(2).0
        == "paste"@ && definition(3).0 == "find"@ && definition(4).0 == "interrupt"@ && definition(
        7,
    ).0 == "quit"@);
    reveal_with_fuel(action_index, 9);
}

} // verus!
