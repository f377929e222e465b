//! Text as sequences of characters.

use vstd::prelude::*;

verus! {

/// `String::push` puts one character behind the text.
pub assume_specification[ std::string::String::push ](buffer: &mut std::string::String, character: char)
    ensures
        final(buffer)@ == old(buffer)@.push(character),
;

/// Whether a character has the Unicode property `White_Space`.
pub open spec fn white_space(character: char) -> bool {
    let code = character as u32;
    ||| 0x9 <= code <= 0xd
    ||| code == 0x20
    ||| code == 0x85
    ||| code == 0xa0
    ||| code == 0x1680
    ||| 0x2000 <= code <= 0x200a
    ||| code == 0x2028
    ||| code == 0x2029
    ||| code == 0x202f
    ||| code == 0x205f
    ||| code == 0x3000
}

/// Calls `char::is_whitespace`, which tells whether a character has the Unicode
/// property `White_Space`.
#[verifier::external_body]
pub(crate) fn is_whitespace(character: char) -> (answer: bool)
    ensures
        answer == white_space(character),
{
    character.is_whitespace()
}

/// Calls the `PartialEq` impl of `str`, which compares two texts character by
/// character.
#[verifier::external_body]
pub(crate) fn same_text(left: &str, right: &str) -> (same: bool)
    ensures
        same == (left@ == right@),
{
    left == right
}

/// The text without the leading characters that satisfy a predicate.
pub open spec fn trim_front(text: Seq<char>, drop: spec_fn(char) -> bool) -> Seq<char>
    decreases text.len(),
{
    if text.len() > 0 && drop(text[0]) {
        trim_front(text.skip(1), drop)
    } else {
        text
    }
}

/// The text without the trailing characters that satisfy a predicate.
pub open spec fn trim_back(text: Seq<char>, drop: spec_fn(char) -> bool) -> Seq<char>
    decreases text.len(),
{
    if text.len() > 0 && drop(text.last()) {
        trim_back(text.drop_last(), drop)
    } else {
        text
    }
}

/// Removes all leading occurrences of a character.
pub fn trim_start_matches(text: &str, pattern: char) -> (rest: &str)
    ensures
        rest@ == trim_front(text@, |character: char| character == pattern),
{
    let length: usize = text.unicode_len();
    let mut start: usize = 0;
    let ghost drop = |character: char| character == pattern;
    assert(text@.skip(0) =~= text@);
    while start < length && text.get_char(start) == pattern
        invariant
            start <= length == text@.len(),
            drop == (|character: char| character == pattern),
            trim_front(text@, drop) == trim_front(text@.skip(start as int), drop),
        decreases length - start,
    {
        assert(text@.skip(start as int).skip(1) =~= text@.skip(start + 1));
        start += 1;
    }
    assert(text@.skip(start as int) =~= text@.subrange(start as int, length as int));
    text.substring_char(start, length)
}

/// Removes all trailing occurrences of a character.
pub fn trim_end_matches(text: &str, pattern: char) -> (rest: &str)
    ensures
        rest@ == trim_back(text@, |character: char| character == pattern),
{
    let mut end: usize = text.unicode_len();
    let ghost drop = |character: char| character == pattern;
    assert(text@.take(end as int) =~= text@);
    while end > 0 && text.get_char(end - 1) == pattern
        invariant
            end <= text@.len(),
            drop == (|character: char| character == pattern),
            trim_back(text@, drop) == trim_back(text@.take(end as int), drop),
        decreases end,
    {
        assert(text@.take(end as int).drop_last() =~= text@.take(end - 1));
        end -= 1;
    }
    assert(text@.take(end as int) =~= text@.subrange(0, end as int));
    text.substring_char(0, end)
}

/// Removes all leading white space.
pub fn trim_start(text: &str) -> (rest: &str)
    ensures
        rest@ == trim_front(text@, |character: char| white_space(character)),
{
    let length: usize = text.unicode_len();
    let mut start: usize = 0;
    let ghost drop = |character: char| white_space(character);
    assert(text@.skip(0) =~= text@);
    while start < length && is_whitespace(text.get_char(start))
        invariant
            start <= length == text@.len(),
            drop == (|character: char| white_space(character)),
            trim_front(text@, drop) == trim_front(text@.skip(start as int), drop),
        decreases length - start,
    {
        assert(text@.skip(start as int).skip(1) =~= text@.skip(start + 1));
        start += 1;
    }
    assert(text@.skip(start as int) =~= text@.subrange(start as int, length as int));
    text.substring_char(start, length)
}

/// Removes all trailing white space.
pub fn trim_end(text: &str) -> (rest: &str)
    ensures
        rest@ == trim_back(text@, |character: char| white_space(character)),
{
    let mut end: usize = text.unicode_len();
    let ghost drop = |character: char| white_space(character);
    assert(text@.take(end as int) =~= text@);
    while end > 0 && is_whitespace(text.get_char(end - 1))
        invariant
            end <= text@.len(),
            drop == (|character: char| white_space(character)),
            trim_back(text@, drop) == trim_back(text@.take(end as int), drop),
        decreases end,
    {
        assert(text@.take(end as int).drop_last() =~= text@.take(end - 1));
        end -= 1;
    }
    assert(text@.take(end as int) =~= text@.subrange(0, end as int));
    text.substring_char(0, end)
}

/// The text behind a prefix, where it has the prefix.
pub open spec fn behind_prefix(text: Seq<char>, prefix: Seq<char>) -> Option<Seq<char>> {
    if prefix.is_prefix_of(text) {
        Some(text.skip(prefix.len() as int))
    } else {
        None
    }
}

/// Removes a prefix.
pub fn strip_prefix<'a>(text: &'a str, prefix: &str) -> (rest: Option<&'a str>)
    ensures
        rest is Some <==> behind_prefix(text@, prefix@) is Some,
        rest matches Some(rest) ==> behind_prefix(text@, prefix@) == Some(rest@),
{
    let length: usize = text.unicode_len();
    let size: usize = prefix.unicode_len();
    if size > length {
        return None;
    }
    let start = text.substring_char(0, size);
    let rest = text.substring_char(size, length);
    assert(prefix@.is_prefix_of(text@) <==> start@ =~= prefix@);
    assert(rest@ =~= text@.skip(size as int));
    if same_text(start, prefix) {
        Some(rest)
    } else {
        None
    }
}

/// The characters of a text, in order.
pub fn characters(text: &str) -> (result: Vec<char>)
    ensures
        result@ == text@,
{
    let mut result: Vec<char> = Vec::new();
    for character in iter: text.chars()
        invariant
            result@ == text@.take(iter.index()),
            iter.seq() == text@,
    {
        result.push(character);
        assert(result@ =~= text@.take(iter.index() + 1));
    }
    assert(text@.take(text@.len() as int) =~= text@);
    result
}

/// The character of a decimal digit.
pub open spec fn digit(value: nat) -> char {
    (('0' as u32) + value) as u8 as char
}

/// A number in decimal notation.
pub open spec fn decimal(value: nat) -> Seq<char>
    decreases value,
{
    if value < 10 {
        seq![digit(value)]
    } else {
        decimal(value / 10).push(digit(value % 10))
    }
}

/// Puts a number in decimal notation behind a text.
pub fn push_decimal(text: &mut String, value: u64)
    ensures
        final(text)@ == old(text)@ + decimal(value as nat),
    decreases value,
{
    if value >= 10 {
        push_decimal(text, value / 10);
    }
    let code: u8 = 48 + (value % 10) as u8;
    text.push(code as char);
    assert(text@ =~= old(text)@ + decimal(value as nat));
}

/// A character in lower case, which can be more than one.
pub uninterp spec fn lower_case(character: char) -> Seq<char>;

/// Calls `char::to_lowercase`. The result is named: it depends on the character
/// alone.
#[verifier::external_body]
pub(crate) fn to_lowercase(character: char) -> (lower: String)
    ensures
        lower@ == lower_case(character),
{
    character.to_lowercase().collect()
}

/// A text in quotes, with escapes for the characters that need them.
pub uninterp spec fn quoted(text: Seq<char>) -> Seq<char>;

/// Calls the `Debug` impl of `str`, which quotes and escapes a text. The result is
/// named: it depends on the text alone.
#[verifier::external_body]
pub(crate) fn quote(text: &str) -> (output: String)
    ensures
        output@ == quoted(text@),
{
    format!("{text:?}")
}

/// A number in decimal notation, with a sign where it is negative.
pub open spec fn signed(value: int) -> Seq<char> {
    if value < 0 {
        "-"@ + decimal((-value) as nat)
    } else {
        decimal(value as nat)
    }
}

/// A number in decimal notation.
pub fn signed_text(value: i32) -> (text: String)
    ensures
        text@ == signed(value as int),
{
    if value < 0 {
        let mut text = "-".to_owned();
        push_decimal(&mut text, (-(value as i64)) as u64);
        text
    } else {
        let mut text = String::new();
        push_decimal(&mut text, value as u64);
        assert(Seq::<char>::empty() + decimal(value as nat) =~= decimal(value as nat));
        text
    }
}

/// A digit in hexadecimal notation.
pub open spec fn hex_digit(value: nat) -> char {
    if value < 10 {
        (value + 48) as char
    } else {
        (value + 87) as char
    }
}

} // verus!
