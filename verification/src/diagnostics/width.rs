//! How much room text takes on a terminal.

use unicode_width::UnicodeWidthChar;
use vstd::prelude::*;

verus! {

/// The number of columns that a character takes; control characters have none.
pub uninterp spec fn unicode_columns(character: char) -> Option<usize>;

/// Calls `UnicodeWidthChar::width` of the `unicode_width` crate. The answer
/// depends on the character alone. No character takes more than three columns;
/// printable ASCII characters take one.
#[verifier::external_body]
fn char_columns(character: char) -> (columns: Option<usize>)
    ensures
        columns == unicode_columns(character),
        columns matches Some(columns) ==> columns <= 3,
        ' ' <= character <= '~' ==> columns == Some(1usize),
{
    character.width()
}

/// The columns of one character, where control characters take none.
pub open spec fn columns_of(character: char) -> nat {
    match unicode_columns(character) {
        Some(columns) => columns as nat,
        None => 0,
    }
}

/// The column behind a character that stands at a column. Tabs lead to the next
/// multiple of four.
pub open spec fn column_behind(column: nat, character: char) -> nat {
    if character == '\t' {
        (column + 4 - column % 4) as nat
    } else {
        column + columns_of(character)
    }
}

/// The column behind a text that starts at the first column.
pub open spec fn columns(text: Seq<char>) -> nat
    decreases text.len(),
{
    if text.len() == 0 {
        0
    } else {
        column_behind(columns(text.drop_last()), text.last())
    }
}

/// Every character is printable ASCII.
pub open spec fn is_printable(text: Seq<char>) -> bool {
    forall|i: int| 0 <= i < text.len() ==> ' ' <= #[trigger] text[i] <= '~'
}

/// The part of a line before a character.
pub open spec fn shown_prefix(line: Seq<char>, character_column: u32) -> Seq<char> {
    if character_column < line.len() {
        line.take(character_column as int)
    } else {
        line
    }
}

/// Text of only spaces.
pub open spec fn blanks(count: nat) -> Seq<char> {
    Seq::new(count, |i: int| ' ')
}

/// The text with spaces in place of tabs.
pub open spec fn expanded(text: Seq<char>) -> Seq<char>
    decreases text.len(),
{
    if text.len() == 0 {
        Seq::empty()
    } else {
        let before = text.drop_last();
        if text.last() == '\t' {
            expanded(before) + blanks((4 - columns(before) % 4) as nat)
        } else {
            expanded(before).push(text.last())
        }
    }
}

/// Puts the character `count` times behind a text.
pub fn push_times(text: &mut String, character: char, count: usize)
    ensures
        final(text)@ == old(text)@ + Seq::new(count as nat, |i: int| character),
{
    let mut index: usize = 0;
    assert(text@ =~= old(text)@ + Seq::new(0, |i: int| character));
    while index < count
        invariant
            index <= count,
            text@ == old(text)@ + Seq::new(index as nat, |i: int| character),
        decreases count - index,
    {
        text.push(character);
        assert(text@ =~= old(text)@ + Seq::new((index + 1) as nat, |i: int| character));
        index += 1;
    }
}

/// The text without the characters that satisfy a predicate.
pub open spec fn without(text: Seq<char>, drop: spec_fn(char) -> bool) -> Seq<char> {
    text.filter(|character: char| !drop(character))
}

/// Replaces tabs by spaces up to the next multiple of four columns. The text takes
/// as many columns as before and holds no tab, and nothing but blanks is different.
pub fn expand_tabs(line: &str) -> (result: String)
    ensures
        result@ == expanded(line@),
        columns(result@) == columns(line@),
        columns(line@) <= 4 * line@.len(),
        result@.len() <= 4 * line@.len(),
        !result@.contains('\t'),
        !line@.contains('\t') ==> result@ == line@,
        without(result@, |c: char| c == ' ') == without(line@, |c: char| c == ' ' || c == '\t'),
{
    let length: usize = line.unicode_len();
    let mut result = String::new();
    let mut column: u128 = 0;
    let blank = char_columns(' ');
    for character in iter: line.chars()
        invariant
            iter.seq() == line@,
            result@ == expanded(line@.take(iter.index())),
            column == columns(line@.take(iter.index())),
            column <= 4 * iter.index(),
            line@.len() == length,
    {
        let ghost before = line@.take(iter.index());
        assert(line@.take(iter.index() + 1).drop_last() =~= before);
        if character == '\t' {
            let spaces: u128 = 4 - column % 4;
            push_times(&mut result, ' ', spaces as usize);
            assert(Seq::new(spaces as nat, |i: int| ' ') =~= blanks(spaces as nat));
            column += spaces;
        } else {
            result.push(character);
            let width: usize = match char_columns(character) {
                Some(width) => width,
                None => 0,
            };
            column += width as u128;
        }
    }
    assert(line@.take(line@.len() as int) =~= line@);
    proof {
        assert(blank == unicode_columns(' '));
        lemma_expanded_columns(line@);
        lemma_expanded(line@);
    }
    result
}

/// The column at which a character of a line is shown.
pub fn visual_column(line: &str, character_column: u32) -> (result: u32)
    ensures
        result == columns(shown_prefix(line@, character_column)) as u32,
        columns(shown_prefix(line@, character_column)) <= 4 * line@.len(),
        4 * line@.len() <= u32::MAX ==> result == columns(shown_prefix(line@, character_column)),
        is_printable(line@) ==> result == shown_prefix(line@, character_column).len(),
{
    let mut column: u128 = 0;
    let mut index: u32 = 0;
    let length: usize = line.unicode_len();
    assert(line@.take(0) =~= Seq::empty());
    while index < character_column && (index as usize) < length
        invariant
            index <= character_column,
            index <= length == line@.len(),
            column == columns(line@.take(index as int)),
            column <= 4 * index,
            is_printable(line@) ==> column == index,
        decreases character_column - index,
    {
        let character = line.get_char(index as usize);
        assert(line@.take(index + 1).drop_last() =~= line@.take(index as int));
        if character == '\t' {
            column += 4 - column % 4;
        } else {
            let width: usize = match char_columns(character) {
                Some(width) => width,
                None => 0,
            };
            column += width as u128;
        }
        index += 1;
    }
    assert(line@.take(line@.len() as int) =~= line@);
    column as u32
}

/// The number of columns that a line takes.
pub fn display_width(line: &str) -> (width: u32)
    ensures
        width == columns(shown_prefix(line@, line@.len() as u32)) as u32,
        line@.len() <= u32::MAX ==> width == columns(line@) as u32,
        line@.len() <= u32::MAX ==> columns(line@) <= 4 * line@.len(),
        4 * line@.len() <= u32::MAX ==> width == columns(line@),
        is_printable(line@) && line@.len() <= u32::MAX ==> width == line@.len(),
{
    let length: usize = line.unicode_len();
    visual_column(line, length as u32)
}

/// The marker below the highlighted columns of a line: a corner below the first
/// and a line below the others, where both ends stay within the line.
pub open spec fn marker(start: nat, end: nat, width: nat) -> Seq<char> {
    let start = if start < width { start } else { width };
    let end = if end < width { end } else { width };
    let rest = if end > start + 1 { (end - start - 1) as nat } else { 0 };
    blanks(start).push('╰') + Seq::new(rest, |i: int| '─')
}

pub fn visual_highlight_marker(start_column: u32, end_column: u32, line_width: u32) -> (text:
    String)
    ensures
        text@ == marker(start_column as nat, end_column as nat, line_width as nat),
{
    let start: u32 = if start_column < line_width { start_column } else { line_width };
    let end: u32 = if end_column < line_width { end_column } else { line_width };
    let mut text = String::new();
    push_times(&mut text, ' ', start as usize);
    assert(text@ =~= blanks(start as nat));
    text.push('╰');
    if end > start {
        push_times(&mut text, '─', (end - start - 1) as usize);
    }
    assert(text@ =~= marker(start_column as nat, end_column as nat, line_width as nat));
    text
}

proof fn lemma_columns_blanks(text: Seq<char>, count: nat)
    requires
        unicode_columns(' ') == Some(1usize),
    ensures
        columns(text + blanks(count)) == columns(text) + count,
    decreases count,
{
    if count == 0 {
        assert(text + blanks(0) =~= text);
    } else {
        lemma_columns_blanks(text, (count - 1) as nat);
        assert((text + blanks(count)).drop_last() =~= text + blanks((count - 1) as nat));
    }
}

/// Where a space takes one column, text takes as many columns after its tabs
/// were expanded as before.
proof fn lemma_expanded_columns(text: Seq<char>)
    requires
        unicode_columns(' ') == Some(1usize),
    ensures
        columns(expanded(text)) == columns(text),
    decreases text.len(),
{
    if text.len() > 0 {
        let before = text.drop_last();
        lemma_expanded_columns(before);
        if text.last() == '\t' {
            lemma_columns_blanks(expanded(before), (4 - columns(before) % 4) as nat);
        } else {
            assert(expanded(text).drop_last() =~= expanded(before));
        }
    }
}

proof fn lemma_without_blanks(text: Seq<char>, count: nat)
    ensures
        without(text + blanks(count), |c: char| c == ' ') == without(text, |c: char| c == ' '),
    decreases count,
{
    if count == 0 {
        assert(text + blanks(0) =~= text);
    } else {
        lemma_without_blanks(text, (count - 1) as nat);
        reveal(Seq::filter);
        assert((text + blanks(count)).drop_last() =~= text + blanks((count - 1) as nat));
    }
}

/// Expanded text holds no tab and is at most four times as long. Nothing but blanks is
/// different, and text without tabs stays as it is.
pub proof fn lemma_expanded(text: Seq<char>)
    ensures
        !expanded(text).contains('\t'),
        expanded(text).len() <= 4 * text.len(),
        !text.contains('\t') ==> expanded(text) == text,
        without(expanded(text), |c: char| c == ' ') == without(
            text,
            |c: char| c == ' ' || c == '\t',
        ),
    decreases text.len(),
{
    reveal(Seq::filter);
    if text.len() > 0 {
        let before = text.drop_last();
        lemma_expanded(before);
        let after = expanded(text);
        assert(text == before.push(text.last()));
        assert(!text.contains('\t') ==> !before.contains('\t')) by {
            if before.contains('\t') {
                let i = choose|i: int| 0 <= i < before.len() && before[i] == '\t';
                assert(text[i] == '\t');
            }
        }
        assert(text[text.len() - 1] == text.last());
        if text.last() == '\t' {
            lemma_without_blanks(expanded(before), (4 - columns(before) % 4) as nat);
        } else {
            assert(after.drop_last() =~= expanded(before));
        }
        assert(!after.contains('\t')) by {
            if after.contains('\t') {
                let i = choose|i: int| 0 <= i < after.len() && after[i] == '\t';
                if i < expanded(before).len() {
                    assert(expanded(before)[i] == '\t');
                }
            }
        }
        if !text.contains('\t') {
            assert(after =~= text);
        }
    }
}

/// Columns are counted from zero and never decrease along a line. Behind the last
/// character stands the width of the line.
pub proof fn lemma_columns_along(line: Seq<char>, first: u32, second: u32)
    requires
        first <= second,
    ensures
        columns(shown_prefix(line, 0)) == 0,
        columns(shown_prefix(line, first)) <= columns(shown_prefix(line, second)),
        second >= line.len() ==> columns(shown_prefix(line, second)) == columns(line),
    decreases second - first,
{
    assert(line.len() == 0 || line.take(0) =~= Seq::empty());
    if first < second {
        lemma_columns_along(line, first, (second - 1) as u32);
        if second - 1 < line.len() {
            let longer = line.take(second as int);
            assert(second < line.len() || longer =~= line);
            assert(longer.drop_last() =~= line.take(second - 1));
        }
    }
}

/// A tab leads to the next multiple of four and always advances.
pub proof fn lemma_tab(line: Seq<char>)
    ensures
        columns(line.push('\t')) % 4 == 0,
        columns(line) < columns(line.push('\t')) <= columns(line) + 4,
{
    assert(line.push('\t').drop_last() =~= line);
}

} // verus!
