//! Text tools shared by the whole crate: trimming, splitting, joining, decimal
//! numbers and comparisons, all described over sequences of characters.

use vstd::prelude::*;
use vstd::string::*;
use vstd::utf8::*;

verus! {

/// `String::push` appends one character at the end of the string.
pub assume_specification[ String::push ](string: &mut String, character: char)
    ensures
        final(string)@ == old(string)@.push(character),
;

/// `char::is_whitespace` tells whether the character has the Unicode property
/// `White_Space`, whose members `white_space` lists.
pub assume_specification[ char::is_whitespace ](character: char) -> (space: bool)
    ensures
        space == white_space(character),
;

/// `char::is_control` tells whether the character is in the Unicode general
/// category `Cc`, whose members `control_character` lists.
pub assume_specification[ char::is_control ](character: char) -> (control: bool)
    ensures
        control == control_character(character),
;

/// `char::from_u32` gives the character with a code, where the code is that of a
/// Unicode scalar value.
pub assume_specification[ char::from_u32 ](code: u32) -> (character: Option<char>)
    ensures
        character == (if code < 0xd800 || 0xe000 <= code <= 0x10ffff {
            Some(code as char)
        } else {
            None
        }),
;

/// What `char::to_uppercase` yields for a character, as a sequence.
pub uninterp spec fn upper_case_of(character: char) -> Seq<char>;

/// `char::to_uppercase` gives the upper-case equivalent of a character, one or
/// more characters long; a character without one is given back by itself. Of
/// the mapping itself only the part on ASCII is stated.
#[verifier::external_body]
fn upper_case(character: char) -> (text: String)
    ensures
        text@ == upper_case_of(character),
        text@.len() >= 1,
        (character as u32) < 128 ==> text@ == seq![ascii_upper(character)],
{
    character.to_uppercase().collect()
}

/// A character in upper case: an ASCII letter becomes its capital, another ASCII
/// character stays.
pub open spec fn uppered(character: char) -> Seq<char> {
    if (character as u32) < 128 {
        seq![ascii_upper(character)]
    } else {
        upper_case_of(character)
    }
}

/// Writes a character in upper case.
pub fn to_upper(character: char) -> (text: String)
    ensures
        text@ == uppered(character),
        text@.len() >= 1,
{
    upper_case(character)
}

/// The members of the Unicode property `White_Space`.
pub open spec fn white_space(character: char) -> bool {
    let code = character as u32;
    ||| 0x09 <= code <= 0x0d
    ||| code == 0x20
    ||| code == 0x85
    ||| code == 0xa0
    ||| code == 0x1680
    ||| 0x2000 <= code <= 0x200a
    ||| code == 0x2028
    ||| code == 0x2029
    ||| code == 0x202f
    ||| code == 0x205f
    ||| code == 0x3000
}

/// The members of the Unicode general category `Cc`.
pub open spec fn control_character(character: char) -> bool {
    let code = character as u32;
    code <= 0x1f || 0x7f <= code <= 0x9f
}

/// The ASCII lower-case form of a character; other characters stay.
pub open spec fn ascii_lower(character: char) -> char {
    if 'A' <= character <= 'Z' {
        (character as u32 + 32) as char
    } else {
        character
    }
}

/// The ASCII upper-case form of a character; other characters stay.
pub open spec fn ascii_upper(character: char) -> char {
    if 'a' <= character <= 'z' {
        (character as u32 - 32) as char
    } else {
        character
    }
}

pub fn to_ascii_lower(character: char) -> (lower: char)
    ensures
        lower == ascii_lower(character),
{
    if 'A' <= character && character <= 'Z' {
        ((character as u8) + 32) as char
    } else {
        character
    }
}

pub fn to_ascii_upper(character: char) -> (upper: char)
    ensures
        upper == ascii_upper(character),
{
    if 'a' <= character && character <= 'z' {
        ((character as u8) - 32) as char
    } else {
        character
    }
}

/// A text with its ASCII letters in lower case.
pub open spec fn ascii_lowered(text: Seq<char>) -> Seq<char> {
    text.map_values(|character: char| ascii_lower(character))
}

/// The text that only differs from the given one in that its ASCII letters are
/// in lower case.
pub fn to_ascii_lowercase(text: &str) -> (lowered: String)
    ensures
        lowered@ == ascii_lowered(text@),
{
    let list = characters(text);
    let mut lowered = String::new();
    let mut index: usize = 0;
    while index < list.len()
        invariant
            index <= list.len(),
            list@ == text@,
            lowered@ == ascii_lowered(text@.take(index as int)),
        decreases list.len() - index,
    {
        lowered.push(to_ascii_lower(list[index]));
        assert(text@.take(index + 1) == text@.take(index as int).push(text@[index as int]));
        assert(lowered@ == ascii_lowered(text@.take(index + 1)));
        index += 1;
    }
    assert(text@.take(index as int) == text@);
    lowered
}

/// Whether two texts are equal when ASCII letters are compared without case.
pub open spec fn same_ignoring_case(left: Seq<char>, right: Seq<char>) -> bool {
    ascii_lowered(left) == ascii_lowered(right)
}

pub fn eq_ignore_ascii_case(left: &str, right: &str) -> (same: bool)
    ensures
        same == same_ignoring_case(left@, right@),
{
    let a = to_ascii_lowercase(left);
    let b = to_ascii_lowercase(right);
    same_text(a.as_str(), b.as_str())
}

/// A text that may be missing, as a sequence.
pub open spec fn optional(text: Option<String>) -> Option<Seq<char>> {
    match text {
        Some(text) => Some(text@),
        None => None,
    }
}

/// A text or an error message, as sequences.
pub open spec fn outcome(result: Result<String, String>) -> Result<Seq<char>, Seq<char>> {
    match result {
        Ok(text) => Ok(text@),
        Err(message) => Err(message@),
    }
}

/// Success, or an error message as a sequence.
pub open spec fn verdict(result: Result<(), String>) -> Result<(), Seq<char>> {
    match result {
        Ok(()) => Ok(()),
        Err(message) => Err(message@),
    }
}

/// A copy of a text that may be missing.
pub fn copy_optional(text: &Option<String>) -> (copy: Option<String>)
    ensures
        optional(copy) == optional(*text),
{
    match text {
        Some(text) => Some(text.clone()),
        None => None,
    }
}

/// A copy of a list of texts.
pub fn copy_texts(list: &Vec<String>) -> (copy: Vec<String>)
    ensures
        texts(copy@) == texts(list@),
{
    let mut copy: Vec<String> = Vec::new();
    let mut index: usize = 0;
    while index < list.len()
        invariant
            index <= list@.len(),
            texts(copy@) == texts(list@).take(index as int),
        decreases list.len() - index,
    {
        let ghost before = texts(copy@);
        copy.push(list[index].clone());
        assert(texts(copy@) == before.push(list@[index as int]@));
        assert(texts(list@).take(index + 1) == texts(list@).take(index as int).push(
            list@[index as int]@,
        ));
        index += 1;
    }
    assert(texts(list@).take(index as int) == texts(list@));
    copy
}

/// Whether two texts hold the same characters.
pub fn same_text(left: &str, right: &str) -> (same: bool)
    ensures
        same == (left@ == right@),
{
    let a = left.as_bytes();
    let b = right.as_bytes();
    proof {
        encode_utf8_decode_utf8(left@);
        encode_utf8_decode_utf8(right@);
    }
    if a.len() != b.len() {
        return false;
    }
    let mut index: usize = 0;
    while index < a.len()
        invariant
            index <= a.len(),
            a.len() == b.len(),
            a@.take(index as int) == b@.take(index as int),
            a@ == encode_utf8(left@),
            b@ == encode_utf8(right@),
        decreases a.len() - index,
    {
        if a[index] != b[index] {
            assert(a@[index as int] != b@[index as int]);
            return false;
        }
        assert(a@.take(index + 1) == a@.take(index as int).push(a@[index as int]));
        assert(b@.take(index + 1) == b@.take(index as int).push(b@[index as int]));
        index += 1;
    }
    assert(a@.take(index as int) == a@);
    assert(b@.take(index as int) == b@);
    true
}

/// Whether a text has no character.
pub fn is_empty_text(text: &str) -> (empty: bool)
    ensures
        empty == (text@.len() == 0),
{
    characters(text).len() == 0
}

/// The characters of a text, in order.
pub fn characters(text: &str) -> (list: Vec<char>)
    ensures
        list@ == text@,
{
    let mut list: Vec<char> = Vec::new();
    for character in iter: text.chars()
        invariant
            list@ == iter.seq().take(iter.index() as int),
            iter.seq() == text@,
    {
        assert(iter.seq().take(iter.index() + 1) == iter.seq().take(iter.index() as int).push(
            character,
        ));
        list.push(character);
    }
    assert(list@ == text@);
    list
}

/// A copy of a list of characters.
pub fn copy_characters(list: &Vec<char>) -> (copy: Vec<char>)
    ensures
        copy@ == list@,
{
    let mut copy: Vec<char> = Vec::new();
    let mut index: usize = 0;
    while index < list.len()
        invariant
            index <= list.len(),
            copy@ == list@.take(index as int),
        decreases list.len() - index,
    {
        copy.push(list[index]);
        assert(list@.take(index + 1) == list@.take(index as int).push(list@[index as int]));
        index += 1;
    }
    assert(list@.take(index as int) == list@);
    copy
}

/// The text made of the characters `list[from..to]`.
pub fn string_of(list: &Vec<char>, from: usize, to: usize) -> (text: String)
    requires
        from <= to <= list@.len(),
    ensures
        text@ == list@.subrange(from as int, to as int),
{
    let mut text = String::new();
    let mut index: usize = from;
    while index < to
        invariant
            from <= index <= to <= list@.len(),
            text@ == list@.subrange(from as int, index as int),
        decreases to - index,
    {
        text.push(list[index]);
        assert(list@.subrange(from as int, index + 1) == list@.subrange(
            from as int,
            index as int,
        ).push(list@[index as int]));
        index += 1;
    }
    text
}

/// The characters that a trim takes off: quotation marks, or white space.
pub open spec fn trimmable(character: char, quotes: bool) -> bool {
    if quotes {
        character == '"'
    } else {
        white_space(character)
    }
}

/// The text from its first character that a trim keeps.
pub open spec fn without_leading(text: Seq<char>, quotes: bool) -> Seq<char>
    decreases text.len(),
{
    if text.len() > 0 && trimmable(text.first(), quotes) {
        without_leading(text.drop_first(), quotes)
    } else {
        text
    }
}

/// The text up to its last character that a trim keeps.
pub open spec fn without_trailing(text: Seq<char>, quotes: bool) -> Seq<char>
    decreases text.len(),
{
    if text.len() > 0 && trimmable(text.last(), quotes) {
        without_trailing(text.drop_last(), quotes)
    } else {
        text
    }
}

/// The text without white space at either end.
pub open spec fn trimmed(text: Seq<char>) -> Seq<char> {
    without_trailing(without_leading(text, false), false)
}

/// The text without quotation marks at either end.
pub open spec fn unquoted(text: Seq<char>) -> Seq<char> {
    without_trailing(without_leading(text, true), true)
}

fn trims(character: char, quotes: bool) -> (drop: bool)
    ensures
        drop == trimmable(character, quotes),
{
    if quotes {
        character == '"'
    } else {
        character.is_whitespace()
    }
}

fn strip(text: &str, quotes: bool) -> (stripped: String)
    ensures
        stripped@ == without_trailing(without_leading(text@, quotes), quotes),
{
    let list = characters(text);
    let mut from: usize = 0;
    assert(text@.skip(0) == text@);
    while from < list.len() && trims(list[from], quotes)
        invariant
            from <= list.len(),
            list@ == text@,
            without_leading(text@, quotes) == without_leading(text@.skip(from as int), quotes),
        decreases list.len() - from,
    {
        assert(text@.skip(from as int).drop_first() == text@.skip(from + 1));
        from += 1;
    }
    let ghost kept = text@.skip(from as int);
    assert(without_leading(text@, quotes) == kept);
    let mut to: usize = list.len();
    assert(list@.subrange(from as int, to as int) == kept);
    while to > from && trims(list[to - 1], quotes)
        invariant
            from <= to <= list.len(),
            without_trailing(kept, quotes) == without_trailing(
                list@.subrange(from as int, to as int),
                quotes,
            ),
        decreases to - from,
    {
        assert(list@.subrange(from as int, to as int).drop_last() == list@.subrange(
            from as int,
            to - 1,
        ));
        to -= 1;
    }
    string_of(&list, from, to)
}

/// Takes white space off both ends.
pub fn trim(text: &str) -> (stripped: String)
    ensures
        stripped@ == trimmed(text@),
{
    strip(text, false)
}

/// Takes quotation marks off both ends.
pub fn trim_quotes(text: &str) -> (stripped: String)
    ensures
        stripped@ == unquoted(text@),
{
    strip(text, true)
}

/// The pieces of a text between the separators, empty pieces kept.
pub open spec fn pieces(text: Seq<char>, separator: char) -> Seq<Seq<char>>
    decreases text.len(),
{
    if text.len() == 0 {
        seq![Seq::<char>::empty()]
    } else {
        let before = pieces(text.drop_last(), separator);
        if text.last() == separator {
            before.push(Seq::<char>::empty())
        } else {
            before.drop_last().push(before.last().push(text.last()))
        }
    }
}

/// The texts of a list of strings.
pub open spec fn texts(list: Seq<String>) -> Seq<Seq<char>> {
    list.map_values(|text: String| text@)
}

pub fn split(text: &str, separator: char) -> (list: Vec<String>)
    ensures
        texts(list@) == pieces(text@, separator),
{
    let all = characters(text);
    let mut list: Vec<String> = Vec::new();
    let mut current = String::new();
    let mut index: usize = 0;
    assert(texts(list@).push(current@) == pieces(all@.take(0), separator));
    while index < all.len()
        invariant
            index <= all.len(),
            texts(list@).push(current@) == pieces(all@.take(index as int), separator),
        decreases all.len() - index,
    {
        let character = all[index];
        let ghost before = pieces(all@.take(index as int), separator);
        proof {
            assert(all@.take(index + 1).drop_last() == all@.take(index as int));
            assert(all@.take(index + 1).last() == character);
            assert(before.drop_last() == texts(list@));
            assert(before.last() == current@);
        }
        if character == separator {
            let ghost ended = list@.push(current);
            list.push(current);
            current = String::new();
            assert(texts(ended) == before);
        } else {
            current.push(character);
        }
        assert(texts(list@).push(current@) == pieces(all@.take(index + 1), separator));
        index += 1;
    }
    assert(all@.take(index as int) == all@);
    let ghost finished = list@.push(current);
    list.push(current);
    assert(texts(finished) == pieces(text@, separator));
    list
}

proof fn lemma_pieces_nonempty(text: Seq<char>, separator: char)
    ensures
        pieces(text, separator).len() > 0,
    decreases text.len(),
{
    if text.len() > 0 {
        lemma_pieces_nonempty(text.drop_last(), separator);
    }
}

/// A text that goes on without the separator goes on in its last piece.
proof fn lemma_pieces_extend(text: Seq<char>, part: Seq<char>, separator: char)
    requires
        !part.contains(separator),
    ensures
        pieces(text + part, separator) == pieces(text, separator).drop_last().push(
            pieces(text, separator).last() + part,
        ),
    decreases part.len(),
{
    lemma_pieces_nonempty(text, separator);
    let before = pieces(text, separator);
    if part.len() == 0 {
        assert(text + part == text);
        assert(before.last() + part == before.last());
        assert(before.drop_last().push(before.last()) == before);
    } else {
        let shorter = part.drop_last();
        assert forall|i: int| 0 <= i < shorter.len() implies shorter[i] != separator by {
            assert(part.contains(part[i]));
        }
        lemma_pieces_extend(text, shorter, separator);
        assert((text + part).drop_last() == text + shorter);
        assert((text + part).last() == part.last());
        assert(part.contains(part.last()));
        let middle = before.drop_last().push(before.last() + shorter);
        assert(middle.drop_last() == before.drop_last());
        assert((before.last() + shorter).push(part.last()) == before.last() + part);
    }
}

/// What was joined by a separator is found again between the separators, where
/// there is something to join and no part holds the separator.
pub proof fn pieces_undo_joining(parts: Seq<Seq<char>>, separator: char)
    requires
        parts.len() > 0,
        forall|i: int| 0 <= i < parts.len() ==> !(#[trigger] parts[i]).contains(separator),
    ensures
        pieces(joined(parts, seq![separator]), separator) == parts,
    decreases parts.len(),
{
    let empty = Seq::<char>::empty();
    if parts.len() == 1 {
        lemma_pieces_extend(empty, parts[0], separator);
        assert(empty + parts[0] == parts[0]);
        assert(pieces(empty, separator).drop_last().push(
            pieces(empty, separator).last() + parts[0],
        ) == parts);
    } else {
        let shorter = parts.drop_last();
        assert forall|i: int| 0 <= i < shorter.len() implies !(#[trigger] shorter[i]).contains(
            separator,
        ) by {
            assert(shorter[i] == parts[i]);
        }
        pieces_undo_joining(shorter, separator);
        let start = joined(shorter, seq![separator]) + seq![separator];
        assert(start.drop_last() == joined(shorter, seq![separator]));
        assert(pieces(start, separator) == shorter.push(empty));
        lemma_pieces_extend(start, parts.last(), separator);
        assert(empty + parts.last() == parts.last());
        assert(shorter.push(empty).drop_last().push(parts.last()) == parts);
    }
}

/// A text that neither starts nor ends with white space is not changed by a trim.
pub proof fn trim_keeps_trimmed(text: Seq<char>)
    requires
        text.len() > 0 ==> !white_space(text.first()) && !white_space(text.last()),
    ensures
        trimmed(text) == text,
{
}

proof fn lemma_without_leading(text: Seq<char>, quotes: bool)
    ensures
        without_leading(text, quotes).len() > 0 ==> !trimmable(
            without_leading(text, quotes).first(),
            quotes,
        ),
    decreases text.len(),
{
    if text.len() > 0 && trimmable(text.first(), quotes) {
        lemma_without_leading(text.drop_first(), quotes);
    }
}

proof fn lemma_without_trailing(text: Seq<char>, quotes: bool)
    ensures
        without_trailing(text, quotes).len() > 0 ==> !trimmable(
            without_trailing(text, quotes).last(),
            quotes,
        ) && text.len() > 0 && without_trailing(text, quotes).first() == text.first(),
    decreases text.len(),
{
    if text.len() > 0 && trimmable(text.last(), quotes) {
        lemma_without_trailing(text.drop_last(), quotes);
    }
}

/// A text that a trim keeps has no white space at its ends.
pub proof fn trimmed_ends(text: Seq<char>)
    requires
        trimmed(text) == text,
        text.len() > 0,
    ensures
        !white_space(text.first()),
        !white_space(text.last()),
{
    lemma_without_leading(text, false);
    lemma_without_trailing(without_leading(text, false), false);
}

/// A trim takes off everything that it can take off.
pub proof fn trimming_twice_changes_nothing(text: Seq<char>)
    ensures
        trimmed(trimmed(text)) == trimmed(text),
{
    lemma_without_leading(text, false);
    lemma_without_trailing(without_leading(text, false), false);
    trim_keeps_trimmed(trimmed(text));
}

/// The texts joined by a separator.
pub open spec fn joined(parts: Seq<Seq<char>>, separator: Seq<char>) -> Seq<char>
    decreases parts.len(),
{
    if parts.len() == 0 {
        Seq::empty()
    } else if parts.len() == 1 {
        parts[0]
    } else {
        joined(parts.drop_last(), separator) + separator + parts.last()
    }
}

pub fn join(parts: &Vec<String>, separator: &str) -> (text: String)
    ensures
        text@ == joined(texts(parts@), separator@),
{
    let mut text = String::new();
    let mut index: usize = 0;
    assert(texts(parts@).take(0) == Seq::<Seq<char>>::empty());
    while index < parts.len()
        invariant
            index <= parts.len(),
            text@ == joined(texts(parts@).take(index as int), separator@),
        decreases parts.len() - index,
    {
        let ghost taken = texts(parts@).take(index + 1);
        assert(taken.drop_last() == texts(parts@).take(index as int));
        assert(taken.last() == parts@[index as int]@);
        if index > 0 {
            text.append(separator);
        }
        text.append(parts[index].as_str());
        assert(text@ == joined(taken, separator@));
        index += 1;
    }
    assert(texts(parts@).take(index as int) == texts(parts@));
    text
}

/// A text in UTF-8.
pub fn utf8_bytes(text: &str) -> (bytes: Vec<u8>)
    ensures
        bytes@ == encode_utf8(text@),
{
    let encoded = text.as_bytes();
    let mut bytes: Vec<u8> = Vec::new();
    let mut index: usize = 0;
    while index < encoded.len()
        invariant
            index <= encoded@.len(),
            bytes@ == encoded@.take(index as int),
        decreases encoded.len() - index,
    {
        bytes.push(encoded[index]);
        assert(encoded@.take(index + 1) == encoded@.take(index as int).push(
            encoded@[index as int],
        ));
        index += 1;
    }
    assert(encoded@.take(index as int) == encoded@);
    bytes
}

/// One text after another.
pub fn concat(left: &str, right: &str) -> (text: String)
    ensures
        text@ == left@ + right@,
{
    let mut text = left.to_owned();
    text.append(right);
    text
}

/// Three texts, one after another.
pub fn concat3(first: &str, second: &str, third: &str) -> (text: String)
    ensures
        text@ == first@ + second@ + third@,
{
    let mut text = concat(first, second);
    text.append(third);
    text
}

/// The position of the first occurrence of a character.
pub open spec fn first_position(text: Seq<char>, wanted: char) -> int
    decreases text.len(),
{
    if text.len() == 0 || text.first() == wanted {
        0
    } else {
        1 + first_position(text.drop_first(), wanted)
    }
}

/// Where `wanted` first stands in the list, or the list's length.
pub fn position_of(list: &Vec<char>, wanted: char) -> (position: usize)
    ensures
        position == first_position(list@, wanted),
        position <= list@.len(),
        position < list@.len() <==> list@.contains(wanted),
        position < list@.len() ==> list@[position as int] == wanted,
{
    let mut position: usize = 0;
    assert(list@.skip(0) == list@);
    while position < list.len() && list[position] != wanted
        invariant
            position <= list.len(),
            first_position(list@, wanted) == position + first_position(
                list@.skip(position as int),
                wanted,
            ),
            forall|i: int| 0 <= i < position ==> list@[i] != wanted,
        decreases list.len() - position,
    {
        assert(list@.skip(position as int).drop_first() == list@.skip(position + 1));
        position += 1;
    }
    position
}

/// Whether the text holds a character.
pub fn holds(text: &str, wanted: char) -> (found: bool)
    ensures
        found == text@.contains(wanted),
{
    let list = characters(text);
    position_of(&list, wanted) < list.len()
}

/// Whether `needle` stands at `position` in `text`.
pub open spec fn occurs_at(text: Seq<char>, needle: Seq<char>, position: int) -> bool {
    0 <= position && position + needle.len() <= text.len() && text.subrange(
        position,
        position + needle.len(),
    ) == needle
}

/// Whether `needle` stands somewhere in `text`.
pub open spec fn occurs(text: Seq<char>, needle: Seq<char>) -> bool {
    exists|position: int| occurs_at(text, needle, position)
}

pub fn contains_text(text: &str, needle: &str) -> (found: bool)
    ensures
        found == occurs(text@, needle@),
{
    let all = characters(text);
    let wanted = characters(needle);
    if wanted.len() > all.len() {
        return false;
    }
    let mut position: usize = 0;
    let last: usize = all.len() - wanted.len();
    while position <= last
        invariant
            position <= last + 1,
            last + wanted.len() == all.len(),
            all@ == text@,
            wanted@ == needle@,
            forall|earlier: int| 0 <= earlier < position ==> !occurs_at(text@, needle@, earlier),
        decreases last + 1 - position,
    {
        let mut length: usize = 0;
        while length < wanted.len() && all[position + length] == wanted[length]
            invariant
                length <= wanted.len(),
                position <= last,
                last + wanted.len() == all.len(),
                forall|i: int| 0 <= i < length ==> all@[position + i] == wanted@[i],
            decreases wanted.len() - length,
        {
            length += 1;
        }
        if length == wanted.len() {
            assert(text@.subrange(position as int, position + needle@.len()) == needle@);
            assert(occurs_at(text@, needle@, position as int));
            return true;
        }
        assert(!occurs_at(text@, needle@, position as int)) by {
            if occurs_at(text@, needle@, position as int) {
                let found = text@.subrange(position as int, position + needle@.len());
                assert(found[length as int] == needle@[length as int]);
            }
        }
        if position == usize::MAX {
            return false;
        }
        position += 1;
    }
    false
}

/// Whether a text starts with another.
pub open spec fn starts_with(text: Seq<char>, prefix: Seq<char>) -> bool {
    prefix.len() <= text.len() && text.take(prefix.len() as int) == prefix
}

/// The text behind the prefix, or the whole text where it has no such prefix.
pub fn without_prefix(text: &str, prefix: &str) -> (rest: String)
    ensures
        rest@ == (if starts_with(text@, prefix@) {
            text@.skip(prefix@.len() as int)
        } else {
            text@
        }),
{
    let all = characters(text);
    let wanted = characters(prefix);
    let mut length: usize = 0;
    while length < wanted.len() && length < all.len() && all[length] == wanted[length]
        invariant
            length <= wanted.len(),
            length <= all.len(),
            forall|i: int| 0 <= i < length ==> all@[i] == wanted@[i],
        decreases wanted.len() - length,
    {
        length += 1;
    }
    if length == wanted.len() {
        assert(all@.take(length as int) == wanted@);
        assert(all@.subrange(length as int, all@.len() as int) == all@.skip(length as int));
        string_of(&all, length, all.len())
    } else {
        assert(!starts_with(text@, prefix@)) by {
            if starts_with(text@, prefix@) {
                assert(text@.take(prefix@.len() as int)[length as int] == prefix@[length as int]);
            }
        }
        text.to_owned()
    }
}

/// Whether a text comes before another in the order of their characters' codes,
/// which is the order of their bytes in UTF-8.
pub open spec fn precedes(left: Seq<char>, right: Seq<char>) -> bool
    decreases left.len(),
{
    if right.len() == 0 {
        false
    } else if left.len() == 0 {
        true
    } else if left.first() != right.first() {
        left.first() < right.first()
    } else {
        precedes(left.drop_first(), right.drop_first())
    }
}

pub fn text_precedes(left: &str, right: &str) -> (before: bool)
    ensures
        before == precedes(left@, right@),
{
    let a = characters(left);
    let b = characters(right);
    let mut index: usize = 0;
    assert(a@.skip(0) == a@);
    assert(b@.skip(0) == b@);
    while index < a.len() && index < b.len() && a[index] == b[index]
        invariant
            index <= a@.len(),
            index <= b@.len(),
            precedes(a@, b@) == precedes(a@.skip(index as int), b@.skip(index as int)),
        decreases a.len() - index,
    {
        assert(a@.skip(index as int).drop_first() == a@.skip(index + 1));
        assert(b@.skip(index as int).drop_first() == b@.skip(index + 1));
        index += 1;
    }
    if index == b.len() {
        false
    } else if index == a.len() {
        true
    } else {
        a[index] < b[index]
    }
}

/// Of two texts that differ one comes before the other.
pub proof fn order_is_total(left: Seq<char>, right: Seq<char>)
    ensures
        precedes(left, right) || precedes(right, left) || left == right,
        !(precedes(left, right) && precedes(right, left)),
        !precedes(left, left),
    decreases left.len(),
{
    if left.len() > 0 {
        order_is_total(left.drop_first(), left.drop_first());
    }
    if left.len() > 0 && right.len() > 0 && left.first() == right.first() {
        order_is_total(left.drop_first(), right.drop_first());
        if left.drop_first() == right.drop_first() {
            assert(left == seq![left.first()] + left.drop_first());
            assert(right == seq![right.first()] + right.drop_first());
        }
    } else if left.len() == 0 && right.len() == 0 {
        assert(left == right);
    }
}

/// What comes before a text comes before everything behind that text.
pub proof fn order_is_transitive(first: Seq<char>, second: Seq<char>, third: Seq<char>)
    requires
        precedes(first, second),
        precedes(second, third),
    ensures
        precedes(first, third),
    decreases first.len(),
{
    if first.len() > 0 && first.first() == second.first() && second.first() == third.first() {
        order_is_transitive(first.drop_first(), second.drop_first(), third.drop_first());
    }
}

/// The decimal digit of a number below ten.
pub open spec fn digit(value: nat) -> char {
    (48 + value) as char
}

/// A number in decimal notation.
pub open spec fn decimal(value: nat) -> Seq<char>
    decreases value,
{
    if value < 10 {
        seq![digit(value)]
    } else {
        decimal(value / 10).push(digit(value % 10))
    }
}

/// A number that may be negative, in decimal notation.
pub open spec fn signed_decimal(value: int) -> Seq<char> {
    if value < 0 {
        seq!['-'] + decimal((-value) as nat)
    } else {
        decimal(value as nat)
    }
}

/// Whether a list is in order, each text once.
pub open spec fn strictly_sorted(list: Seq<Seq<char>>) -> bool {
    forall|i: int, j: int| 0 <= i < j < list.len() ==> precedes(list[i], list[j])
}

/// Puts a text into a list that is in order, unless it is there.
pub(crate) fn insert_sorted(list: &mut Vec<String>, item: String)
    requires
        strictly_sorted(texts(old(list)@)),
    ensures
        strictly_sorted(texts(final(list)@)),
        forall|name: Seq<char>| #[trigger]
            texts(final(list)@).contains(name) <==> name == item@ || texts(
                old(list)@,
            ).contains(name),
{
    let ghost before = texts(list@);
    let ghost added = item@;
    let mut place: usize = 0;
    while place < list.len() && text_precedes(list[place].as_str(), item.as_str())
        invariant
            place <= list@.len(),
            before == texts(list@),
            forall|i: int| 0 <= i < place ==> precedes(#[trigger] before[i], item@),
        decreases list.len() - place,
    {
        assert(before[place as int] == list@[place as int]@);
        place += 1;
    }
    if place < list.len() && same_text(list[place].as_str(), item.as_str()) {
        assert(before[place as int] == item@);
        return;
    }
    proof {
        if place < list@.len() {
            assert(before[place as int] == list@[place as int]@);
            order_is_total(before[place as int], added);
        }
    }
    list.insert(place, item);
    proof {
        let after = texts(list@);
        assert(after =~= before.insert(place as int, added));
        assert forall|i: int, j: int| 0 <= i < j < after.len() implies precedes(
            after[i],
            after[j],
        ) by {
            if j == place {
                assert(after[i] == before[i]);
            } else if i == place {
                assert(after[j] == before[j - 1]);
                if j - 1 > place {
                    assert(precedes(before[place as int], before[j - 1]));
                    order_is_transitive(added, before[place as int], before[j - 1]);
                }
            } else {
                let left = if i < place {
                    i
                } else {
                    i - 1
                };
                let right = if j < place {
                    j
                } else {
                    j - 1
                };
                assert(after[i] == before[left] && after[j] == before[right]);
            }
        }
        assert forall|name: Seq<char>| #[trigger] after.contains(name) <==> name == added
            || before.contains(name) by {
            if after.contains(name) {
                let i = choose|i: int| 0 <= i < after.len() && after[i] == name;
                if i < place {
                    assert(before[i] == name);
                } else if i > place {
                    assert(before[i - 1] == name);
                }
            }
            if before.contains(name) {
                let i = choose|i: int| 0 <= i < before.len() && before[i] == name;
                if i < place {
                    assert(after[i] == name);
                } else {
                    assert(after[i + 1] == name);
                }
            }
            assert(after[place as int] == added);
        }
    }
}

/// Writes a number in decimal notation.
pub fn decimal_text(value: u64) -> (text: String)
    ensures
        text@ == decimal(value as nat),
    decreases value,
{
    if value < 10 {
        let mut text = String::new();
        text.push((48 + value as u8) as char);
        assert(text@ == decimal(value as nat));
        text
    } else {
        let mut text = decimal_text(value / 10);
        text.push((48 + (value % 10) as u8) as char);
        text
    }
}

/// Writes a number that may be negative in decimal notation.
pub fn signed_decimal_text(value: i32) -> (text: String)
    ensures
        text@ == signed_decimal(value as int),
{
    if value < 0 {
        let mut text = String::new();
        text.push('-');
        let digits = decimal_text((-(value as i64)) as u64);
        text.append(digits.as_str());
        assert(text@ == signed_decimal(value as int));
        text
    } else {
        decimal_text(value as u64)
    }
}

/// ASCII text is encoded with one byte for each character.
pub(crate) proof fn lemma_ascii_bytes(chars: Seq<char>, bytes: Seq<u8>)
    requires
        chars.len() == bytes.len(),
        forall|i: int|
            0 <= i < chars.len() ==> (#[trigger] chars[i]) as int == bytes[i] && bytes[i] < 128,
    ensures
        encode_utf8(chars) == bytes,
{
    assert forall|i: int| 0 <= i < chars.len() implies '\0' <= #[trigger] chars[i] <= '\u{7f}' by {
        assert(chars[i] as int == bytes[i]);
    }
    is_ascii_chars_encode_utf8(chars);
    assert forall|i: int| 0 <= i < chars.len() implies encode_utf8(chars)[i] == bytes[i] by {
        assert(chars[i] as int == bytes[i]);
    }
    assert(encode_utf8(chars) =~= bytes);
}

/// The number that a row of decimal digits stands for.
pub open spec fn read_digits(digits: Seq<char>) -> int
    decreases digits.len(),
{
    if digits.len() == 0 {
        0
    } else {
        10 * read_digits(digits.drop_last()) + (digits.last() as int - 0x30)
    }
}

/// A number in decimal notation has digits only, none of them a zero at the start
/// but for zero itself, and it is read as the number that it was written for.
pub proof fn decimals_are_read_back(value: nat)
    ensures
        read_digits(decimal(value)) == value,
        decimal(value).len() >= 1,
        decimal(value)[0] == '0' ==> value == 0,
        value == 0 ==> decimal(value) == seq!['0'],
        forall|i: int|
            0 <= i < decimal(value).len() ==> '0' <= #[trigger] decimal(value)[i] <= '9',
    decreases value,
{
    if value < 10 {
        let digits = decimal(value);
        assert(digits == seq![digit(value)]);
        assert(digits.drop_last() =~= Seq::<char>::empty());
        reveal_with_fuel(read_digits, 2);
    } else {
        decimals_are_read_back(value / 10);
        let before = decimal(value / 10);
        assert(decimal(value).drop_last() =~= before);
        assert forall|i: int| 0 <= i < decimal(value).len() implies '0'
            <= #[trigger] decimal(value)[i] <= '9' by {
            if i < before.len() {
                assert(decimal(value)[i] == before[i]);
            }
        }
        assert(decimal(value)[0] == before[0]);
    }
}

proof fn lemma_leading_part(text: Seq<char>, quotes: bool)
    ensures
        without_leading(text, quotes).len() <= text.len(),
        ({
            let from = text.len() - without_leading(text, quotes).len();
            &&& without_leading(text, quotes) == text.skip(from)
            &&& forall|i: int| 0 <= i < from ==> trimmable(#[trigger] text[i], quotes)
        }),
    decreases text.len(),
{
    if text.len() > 0 && trimmable(text.first(), quotes) {
        let rest = text.drop_first();
        lemma_leading_part(rest, quotes);
        let from = rest.len() - without_leading(rest, quotes).len();
        assert(rest.skip(from) =~= text.skip(from + 1));
        assert forall|i: int| 0 <= i < from + 1 implies trimmable(#[trigger] text[i], quotes) by {
            if i > 0 {
                assert(rest[i - 1] == text[i]);
            }
        }
    } else {
        assert(text.skip(0) =~= text);
    }
}

proof fn lemma_trailing_part(text: Seq<char>, quotes: bool)
    ensures
        without_trailing(text, quotes).len() <= text.len(),
        without_trailing(text, quotes) == text.take(
            without_trailing(text, quotes).len() as int,
        ),
        forall|i: int|
            without_trailing(text, quotes).len() <= i < text.len() ==> trimmable(
                #[trigger] text[i],
                quotes,
            ),
    decreases text.len(),
{
    if text.len() > 0 && trimmable(text.last(), quotes) {
        let rest = text.drop_last();
        lemma_trailing_part(rest, quotes);
        let to = without_trailing(rest, quotes).len() as int;
        assert(rest.take(to) =~= text.take(to));
        assert forall|i: int| to <= i < text.len() implies trimmable(#[trigger] text[i], quotes) by {
            if i < rest.len() {
                assert(rest[i] == text[i]);
            }
        }
    } else {
        assert(text.take(text.len() as int) =~= text);
    }
}

proof fn lemma_stripped_part(text: Seq<char>, quotes: bool) -> (ends: (int, int))
    ensures
        0 <= ends.0 <= ends.1 <= text.len(),
        without_trailing(without_leading(text, quotes), quotes) == text.subrange(ends.0, ends.1),
        forall|i: int|
            0 <= i < ends.0 || ends.1 <= i < text.len() ==> trimmable(#[trigger] text[i], quotes),
        ends.0 < ends.1 ==> !trimmable(text[ends.0], quotes) && !trimmable(text[ends.1 - 1], quotes),
{
    let middle = without_leading(text, quotes);
    let kept = without_trailing(middle, quotes);
    lemma_leading_part(text, quotes);
    lemma_trailing_part(middle, quotes);
    lemma_without_leading(text, quotes);
    lemma_without_trailing(middle, quotes);
    let from = text.len() - middle.len();
    let to = from + kept.len();
    assert(kept =~= text.subrange(from, to));
    assert forall|i: int| 0 <= i < from || to <= i < text.len() implies trimmable(
        #[trigger] text[i],
        quotes,
    ) by {
        if i >= to {
            assert(middle[i - from] == text[i]);
        }
    }
    if from < to {
        assert(kept.first() == text[from]);
        assert(kept.last() == text[to - 1]);
    }
    (from, to)
}

/// A trim takes white space off both ends of a text, all of it and nothing else:
/// what stays is one part of the text, around it there is white space only, and it
/// starts and ends with something else.
pub proof fn trims_take_off_white_space(text: Seq<char>)
    ensures
        exists|from: int, to: int|
            #![trigger text.subrange(from, to)]
            0 <= from <= to <= text.len() && trimmed(text) == text.subrange(from, to) && (forall|
                i: int,
            |
                0 <= i < from || to <= i < text.len() ==> white_space(#[trigger] text[i])) && (from
                < to ==> !white_space(text[from]) && !white_space(text[to - 1])),
{
    let (from, to) = lemma_stripped_part(text, false);
    assert forall|i: int| 0 <= i < from || to <= i < text.len() implies white_space(
        #[trigger] text[i],
    ) by {
        assert(trimmable(text[i], false));
    }
    assert(trimmed(text) == text.subrange(from, to));
}

/// Quotation marks are taken off both ends of a text, all of them and nothing else.
pub proof fn quotes_are_taken_off(text: Seq<char>)
    ensures
        exists|from: int, to: int|
            #![trigger text.subrange(from, to)]
            0 <= from <= to <= text.len() && unquoted(text) == text.subrange(from, to) && (forall|
                i: int,
            |
                0 <= i < from || to <= i < text.len() ==> (#[trigger] text[i]) == '"') && (from < to
                ==> text[from] != '"' && text[to - 1] != '"'),
{
    let (from, to) = lemma_stripped_part(text, true);
    assert forall|i: int| 0 <= i < from || to <= i < text.len() implies (#[trigger] text[i])
        == '"' by {
        assert(trimmable(text[i], true));
    }
    assert(unquoted(text) == text.subrange(from, to));
}

/// The pieces of a text hold no separator, and put together with separators between
/// them they are the text again.
pub proof fn pieces_make_up_the_text(text: Seq<char>, separator: char)
    ensures
        pieces(text, separator).len() > 0,
        joined(pieces(text, separator), seq![separator]) == text,
        forall|i: int|
            0 <= i < pieces(text, separator).len() ==> !(#[trigger] pieces(
                text,
                separator,
            )[i]).contains(separator),
    decreases text.len(),
{
    if text.len() == 0 {
        assert(joined(pieces(text, separator), seq![separator]) =~= text);
    } else {
        let shorter = text.drop_last();
        pieces_make_up_the_text(shorter, separator);
        let before = pieces(shorter, separator);
        let all = pieces(text, separator);
        assert(shorter.push(text.last()) =~= text);
        if text.last() == separator {
            assert(all.drop_last() =~= before);
            assert(all.last() == Seq::<char>::empty());
            assert(joined(all, seq![separator]) =~= joined(before, seq![separator]) + seq![
                separator,
            ] + Seq::<char>::empty());
            assert(joined(all, seq![separator]) =~= text);
        } else {
            let start = before.drop_last();
            assert(all.drop_last() =~= start);
            if before.len() == 1 {
                assert(joined(all, seq![separator]) =~= text);
            } else {
                assert(joined(all, seq![separator]) =~= joined(start, seq![separator]) + seq![
                    separator,
                ] + before.last().push(text.last()));
                assert(joined(all, seq![separator]) =~= text);
            }
        }
        assert forall|i: int| 0 <= i < all.len() implies !(#[trigger] all[i]).contains(
            separator,
        ) by {
            if i < all.len() - 1 {
                assert(all[i] == before[i]);
            } else if text.last() != separator {
                let last = before.last();
                assert(before[before.len() - 1] == last);
                let longer = last.push(text.last());
                assert(all[i] == longer);
                assert forall|k: int| 0 <= k < longer.len() implies longer[k] != separator by {
                    if k < last.len() {
                        assert(last.contains(last[k]));
                    }
                }
            }
        }
    }
}

/// The case of ASCII letters is changed by their distance in the alphabet tables,
/// and no other character changes.
pub proof fn only_letters_change_their_case(character: char)
    ensures
        'A' <= character <= 'Z' ==> ascii_lower(character) as int == character as int + 32
            && ascii_upper(character) == character,
        'a' <= character <= 'z' ==> ascii_upper(character) as int == character as int - 32
            && ascii_lower(character) == character,
        !('A' <= character <= 'Z') && !('a' <= character <= 'z') ==> ascii_lower(character)
            == character && ascii_upper(character) == character,
{
}

/// Of two texts the one with the smaller character at the first place where they
/// differ comes first, and a text comes before its continuations.
pub proof fn first_differences_decide_the_order(left: Seq<char>, right: Seq<char>, place: int)
    requires
        0 <= place <= left.len(),
        place < right.len(),
        forall|i: int| 0 <= i < place ==> left[i] == right[i],
        place < left.len() ==> left[place] != right[place],
    ensures
        precedes(left, right) <==> place == left.len() || left[place] < right[place],
    decreases place,
{
    if place > 0 {
        assert(left[0] == right[0]);
        first_differences_decide_the_order(left.drop_first(), right.drop_first(), place - 1);
    }
}

} // verus!
