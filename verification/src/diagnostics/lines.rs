//! Where offsets into a text lie.

use super::report::Span;
use vstd::prelude::*;
use vstd::string::StringSliceAdditionalSpecFns;
use vstd::utf8::{
    encode_utf8, encode_utf8_decode_utf8, encode_utf8_first_scalar, encode_utf8_valid_utf8,
    is_char_boundary, pop_first_scalar,
};

verus! {

/// The table of lines of the `line_index` crate.
#[verifier::external_type_specification]
#[verifier::external_body]
pub struct ExLineIndex(line_index::LineIndex);

/// The number of bytes before a character.
pub open spec fn byte_offset(text: Seq<char>, index: int) -> nat {
    encode_utf8(text.take(index)).len()
}

/// A character, or the end of the text, stands at the offset.
pub open spec fn stands_at(text: Seq<char>, index: int, offset: int) -> bool {
    0 <= index <= text.len() && byte_offset(text, index) == offset
}

/// The offset is one of a character or the end of the text.
pub open spec fn valid_offset(text: Seq<char>, offset: int) -> bool {
    exists|index: int| stands_at(text, index, offset)
}

/// The character at a valid offset.
pub open spec fn char_index(text: Seq<char>, offset: int) -> int {
    choose|index: int| stands_at(text, index, offset)
}

/// The number of line feeds in a text.
pub open spec fn line_feeds(text: Seq<char>) -> nat
    decreases text.len(),
{
    if text.len() == 0 {
        0
    } else {
        line_feeds(text.drop_last()) + if text.last() == '\n' {
            1nat
        } else {
            0nat
        }
    }
}

/// The line that a character is on.
pub open spec fn line_of(text: Seq<char>, index: int) -> nat {
    line_feeds(text.take(index))
}

/// The first character of the line that a character is on.
pub open spec fn line_start(text: Seq<char>, index: int) -> int
    decreases index,
{
    if index <= 0 {
        0
    } else if text[index - 1] == '\n' {
        index
    } else {
        line_start(text, index - 1)
    }
}

/// The place behind the line that a character is on.
pub open spec fn line_end(text: Seq<char>, index: int) -> int
    decreases text.len() - index,
{
    if index >= text.len() {
        text.len() as int
    } else if text[index] == '\n' {
        index + 1
    } else {
        line_end(text, index + 1)
    }
}

/// The encodings of wide characters.
#[derive(Clone, Copy, Debug, PartialEq, Eq, Structural)]
pub enum WideEncoding {
    Utf16,
    Utf32,
}

/// The number of code units of a text.
pub open spec fn wide_units(encoding: WideEncoding, text: Seq<char>) -> nat
    decreases text.len(),
{
    if text.len() == 0 {
        0
    } else {
        wide_units(encoding, text.drop_last()) + match encoding {
            WideEncoding::Utf16 => if (text.last() as u32) < 0x10000 {
                1nat
            } else {
                2nat
            },
            WideEncoding::Utf32 => 1nat,
        }
    }
}

/// The lines of a text. The view is the text.
pub struct SourceLines {
    index: line_index::LineIndex,
    text: Ghost<Seq<char>>,
}

impl View for SourceLines {
    type V = Seq<char>;

    closed spec fn view(&self) -> Seq<char> {
        self.text@
    }
}

impl SourceLines {
    /// The lines of a text.
    pub fn new(text: &str) -> (lines: SourceLines)
        requires
            encode_utf8(text@).len() < u32::MAX,
        ensures
            lines@ == text@,
            encode_utf8(lines@).len() < u32::MAX,
    {
        SourceLines::scan(text)
    }

    /// Calls `LineIndex::new`, which finds the lines of a text. It panics where
    /// the text has as many bytes as the greatest `u32` or more.
    #[verifier::external_body]
    fn scan(text: &str) -> (lines: SourceLines)
        requires
            encode_utf8(text@).len() < u32::MAX,
        ensures
            lines@ == text@,
            encode_utf8(lines@).len() < u32::MAX,
    {
        SourceLines { index: line_index::LineIndex::new(text), text: Ghost(text@) }
    }

    /// Calls `LineIndex::try_line_col`, which gives the line of an offset and
    /// the bytes between the start of the line and the offset. Offsets past the
    /// end of the text or inside of a character have neither.
    #[verifier::external_body]
    fn line_col(&self, offset: u32) -> (position: Option<(u32, u32)>)
        ensures
            position is Some <==> valid_offset(self@, offset as int),
            position matches Some((line, column)) ==> forall|index: int| #[trigger]
                stands_at(self@, index, offset as int) ==> line == line_of(self@, index) && column
                    == offset - byte_offset(self@, line_start(self@, index)),
    {
        let offset = line_index::TextSize::from(offset);
        let position = self.index.try_line_col(offset)?;
        Some((position.line, position.col))
    }

    /// Calls `LineIndex::line`, which gives the bytes from the start of a line to
    /// the start of the next or the end of the text.
    #[verifier::external_body]
    fn line_range(&self, line: u32) -> (range: Option<(u32, u32)>)
        ensures
            range is Some <==> line <= line_feeds(self@),
            range matches Some((start, end)) ==> forall|index: int|
                0 <= index <= self@.len() && #[trigger] line_of(self@, index) == line ==> start
                    == byte_offset(self@, line_start(self@, index)) && end == byte_offset(
                    self@,
                    line_end(self@, index),
                ),
    {
        let range = self.index.line(line)?;
        Some((u32::from(range.start()), u32::from(range.end())))
    }

    /// Calls `LineIndex::to_wide`, which counts the code units between the start
    /// of a line and a character of it.
    #[verifier::external_body]
    fn wide_column(&self, encoding: WideEncoding, line: u32, column: u32) -> (wide: Option<u32>)
        requires
            exists|index: int|
                0 <= index <= self@.len() && #[trigger] line_of(self@, index) == line && column
                    == byte_offset(self@, index) - byte_offset(self@, line_start(self@, index)),
        ensures
            forall|index: int|
                0 <= index <= self@.len() && #[trigger] line_of(self@, index) == line && column
                    == byte_offset(self@, index) - byte_offset(self@, line_start(self@, index))
                    ==> wide is Some && wide->0 == wide_units(
                    encoding,
                    self@.subrange(line_start(self@, index), index),
                ),
    {
        let encoding = match encoding {
            WideEncoding::Utf16 => line_index::WideEncoding::Utf16,
            WideEncoding::Utf32 => line_index::WideEncoding::Utf32,
        };
        let position = line_index::LineCol { line, col: column };
        Some(self.index.to_wide(encoding, position)?.col)
    }
}

// Bytes and characters

proof fn lemma_encode_concat(left: Seq<char>, right: Seq<char>)
    ensures
        encode_utf8(left + right) == encode_utf8(left) + encode_utf8(right),
    decreases left.len(),
{
    if left.len() == 0 {
        assert(left + right =~= right);
        assert(encode_utf8(left) + encode_utf8(right) =~= encode_utf8(right));
    } else {
        lemma_encode_concat(left.drop_first(), right);
        assert((left + right).drop_first() =~= left.drop_first() + right);
        assert(encode_utf8(left + right) =~= encode_utf8(left) + encode_utf8(right));
    }
}

/// Every character starts at a boundary of the encoded text.
proof fn lemma_boundary(text: Seq<char>, index: int)
    requires
        0 <= index <= text.len(),
    ensures
        is_char_boundary(encode_utf8(text), byte_offset(text, index) as int),
    decreases text.len(),
{
    encode_utf8_valid_utf8(text);
    if index == 0 {
        assert(text.take(0) =~= Seq::empty());
    } else {
        let bytes = encode_utf8(text);
        let rest = text.drop_first();
        encode_utf8_first_scalar(text);
        lemma_boundary(rest, index - 1);
        assert(pop_first_scalar(bytes) =~= encode_utf8(rest));
        assert(text.take(index).drop_first() =~= rest.take(index - 1));
        assert(text =~= text.take(index) + text.skip(index));
        lemma_encode_concat(text.take(index), text.skip(index));
    }
}

/// Characters further back have greater offsets.
proof fn lemma_offset_order(text: Seq<char>, left: int, right: int)
    requires
        0 <= left <= right <= text.len(),
    ensures
        byte_offset(text, right) == byte_offset(text, left) + encode_utf8(
            text.subrange(left, right),
        ).len(),
        left < right ==> byte_offset(text, left) < byte_offset(text, right),
        byte_offset(text, right) <= encode_utf8(text).len(),
{
    let middle = text.subrange(left, right);
    assert(text.take(right) =~= text.take(left) + middle);
    lemma_encode_concat(text.take(left), middle);
    assert(text =~= text.take(right) + text.skip(right));
    lemma_encode_concat(text.take(right), text.skip(right));
    if left < right {
        encode_utf8_first_scalar(middle);
    }
}

/// Only one character stands at an offset.
pub proof fn lemma_char_index(text: Seq<char>, index: int, offset: int)
    requires
        stands_at(text, index, offset),
    ensures
        valid_offset(text, offset),
        char_index(text, offset) == index,
{
    let other = char_index(text, offset);
    if other < index {
        lemma_offset_order(text, other, index);
    } else if index < other {
        lemma_offset_order(text, index, other);
    }
}

/// The encoding of a text determines it.
proof fn lemma_encode_injective(left: Seq<char>, right: Seq<char>)
    requires
        encode_utf8(left) == encode_utf8(right),
    ensures
        left == right,
{
    encode_utf8_decode_utf8(left);
    encode_utf8_decode_utf8(right);
}

/// A line starts at or before each of its characters and ends at or behind it.
pub proof fn lemma_line_bounds(text: Seq<char>, index: int)
    requires
        0 <= index <= text.len(),
    ensures
        0 <= line_start(text, index) <= index <= line_end(text, index) <= text.len(),
{
    lemma_line_start(text, index);
    lemma_line_end(text, index);
}

proof fn lemma_line_start(text: Seq<char>, index: int)
    requires
        0 <= index <= text.len(),
    ensures
        0 <= line_start(text, index) <= index,
    decreases index,
{
    if index > 0 && text[index - 1] != '\n' {
        lemma_line_start(text, index - 1);
    }
}

proof fn lemma_line_end(text: Seq<char>, index: int)
    requires
        0 <= index <= text.len(),
    ensures
        index <= line_end(text, index) <= text.len(),
    decreases text.len() - index,
{
    if index < text.len() && text[index] != '\n' {
        lemma_line_end(text, index + 1);
    }
}

proof fn lemma_line_feeds_prefix(text: Seq<char>, index: int)
    requires
        0 <= index <= text.len(),
    ensures
        line_feeds(text.take(index)) <= line_feeds(text),
        line_feeds(text) <= text.len(),
    decreases text.len(),
{
    if text.len() == 0 {
        assert(text.take(index) =~= text);
    } else if index < text.len() {
        lemma_line_feeds_prefix(text.drop_last(), index);
        assert(text.drop_last().take(index) =~= text.take(index));
    } else {
        assert(text.take(index) =~= text);
        lemma_line_feeds_prefix(text.drop_last(), text.len() - 1);
    }
}

proof fn lemma_length_encoded(text: Seq<char>)
    ensures
        text.len() <= encode_utf8(text).len(),
    decreases text.len(),
{
    if text.len() > 0 {
        encode_utf8_first_scalar(text);
        lemma_length_encoded(text.drop_first());
    }
}

/// The text between two offsets.
fn slice<'a>(
    content: &'a str,
    start: u32,
    end: u32,
    Ghost(from): Ghost<int>,
    Ghost(to): Ghost<int>,
) -> (part: &'a str)
    requires
        encode_utf8(content@).len() < u32::MAX,
        from <= to,
        stands_at(content@, from, start as int),
        stands_at(content@, to, end as int),
    ensures
        part@ == content@.subrange(from, to),
{
    proof {
        lemma_boundary(content@, to);
        lemma_offset_order(content@, from, to);
    }
    let (front, _) = content.split_at(end as usize);
    proof {
        assert(content@ =~= content@.take(to) + content@.skip(to));
        lemma_encode_concat(content@.take(to), content@.skip(to));
        assert(front.spec_bytes() =~= encode_utf8(content@.take(to)));
        lemma_encode_injective(front@, content@.take(to));
        assert(front@.take(from) =~= content@.take(from));
        lemma_boundary(front@, from);
    }
    let (_, part) = front.split_at(start as usize);
    proof {
        let middle = content@.subrange(from, to);
        assert(front@ =~= front@.take(from) + middle);
        lemma_encode_concat(front@.take(from), middle);
        assert(part.spec_bytes() =~= encode_utf8(middle));
        lemma_encode_injective(part@, middle);
    }
    part
}

/// A line and a character of it, both counted from zero.
#[derive(Debug, Clone, Copy, PartialEq, Eq, Structural)]
pub struct DisplayPosition {
    pub line: u32,
    pub column: u32,
}

/// Where a character is shown.
pub open spec fn display_position(text: Seq<char>, index: int) -> (nat, int) {
    (line_of(text, index), index - line_start(text, index))
}

/// Where the character at an offset is shown.
pub fn offset_to_display_position(
    lines: &SourceLines,
    content: &str,
    offset: u32,
) -> (position: Option<DisplayPosition>)
    requires
        lines@ == content@,
        encode_utf8(content@).len() < u32::MAX,
        valid_offset(content@, offset as int),
    ensures
        position is Some,
        position matches Some(position) ==> (position.line as nat, position.column as int)
            == display_position(content@, char_index(content@, offset as int)),
{
    let ghost text = content@;
    let ghost index = char_index(text, offset as int);
    let ghost start_index = line_start(text, index);
    let ghost end_index = line_end(text, index);
    proof {
        assert(stands_at(text, index, offset as int));
        lemma_line_bounds(text, index);
        lemma_line_feeds_prefix(text, index);
        lemma_offset_order(text, start_index, index);
        lemma_offset_order(text, index, end_index);
        lemma_length_encoded(text);
    }
    let Some((line, column)) = lines.line_col(offset) else {
        return None;
    };
    assert(line_of(text, index) == line);
    let Some((start, end)) = lines.line_range(line) else {
        return None;
    };
    let line_content = slice(content, start, end, Ghost(start_index), Ghost(end_index));
    proof {
        assert(line_content@.take(index - start_index) =~= text.subrange(start_index, index));
        assert(line_content@.take(0) =~= Seq::empty());
        lemma_offset_order(text, start_index, end_index);
    }
    let until_column = slice(line_content, 0, column, Ghost(0), Ghost(index - start_index));
    assert(until_column@ =~= text.subrange(start_index, index));
    let length: usize = until_column.unicode_len();
    Some(DisplayPosition { line, column: length as u32 })
}

/// The text of a line, without its end.
pub open spec fn shown_line(text: Seq<char>, index: int) -> Seq<char> {
    crate::text::trim_back(
        text.subrange(line_start(text, index), line_end(text, index)),
        |c: char| c == '\n' || c == '\r',
    )
}

/// Removes line feeds and carriage returns from the end of a line.
fn trim_line_end(line: &str) -> (rest: &str)
    ensures
        rest@ == crate::text::trim_back(line@, |c: char| c == '\n' || c == '\r'),
{
    let mut end: usize = line.unicode_len();
    let ghost drop = |c: char| c == '\n' || c == '\r';
    assert(line@.take(end as int) =~= line@);
    while end > 0 && (line.get_char(end - 1) == '\n' || line.get_char(end - 1) == '\r')
        invariant
            end <= line@.len(),
            drop == (|c: char| c == '\n' || c == '\r'),
            crate::text::trim_back(line@, drop) == crate::text::trim_back(
                line@.take(end as int),
                drop,
            ),
        decreases end,
    {
        assert(line@.take(end as int).drop_last() =~= line@.take(end - 1));
        end -= 1;
    }
    assert(line@.take(end as int) =~= line@.subrange(0, end as int));
    line.substring_char(0, end)
}

/// The text of the line that a character is on, without its end.
pub(crate) fn line_text<'a>(
    lines: &SourceLines,
    content: &'a str,
    line: u32,
    Ghost(index): Ghost<int>,
) -> (text: Option<&'a str>)
    requires
        lines@ == content@,
        encode_utf8(content@).len() < u32::MAX,
        0 <= index <= content@.len(),
        line_of(content@, index) == line,
    ensures
        text is Some,
        text matches Some(text) ==> text@ == shown_line(content@, index),
{
    proof {
        lemma_line_bounds(content@, index);
        lemma_line_feeds_prefix(content@, index);
        lemma_offset_order(content@, line_start(content@, index), line_end(content@, index));
    }
    let Some((start, end)) = lines.line_range(line) else {
        return None;
    };
    let ghost from = line_start(content@, index);
    let ghost to = line_end(content@, index);
    Some(trim_line_end(slice(content, start, end, Ghost(from), Ghost(to))))
}

/// Both ends of a span are offsets of the text.
pub open spec fn valid_span(text: Seq<char>, span: Span) -> bool {
    valid_offset(text, span.start as int) && valid_offset(text, span.end as int)
}

/// Where the ends of a span are shown.
pub fn span_location(lines: &SourceLines, content: &str, span: Span) -> (location: Option<
    ((u32, u32), (u32, u32)),
>)
    requires
        lines@ == content@,
        encode_utf8(content@).len() < u32::MAX,
        valid_span(content@, span),
    ensures
        location is Some,
        location matches Some((start, end)) ==> (start.0 as nat, start.1 as int)
            == display_position(content@, char_index(content@, span.start as int)) && (
        end.0 as nat,
        end.1 as int,
        ) == display_position(content@, char_index(content@, span.end as int)),
{
    let Some(start) = offset_to_display_position(lines, content, span.start) else {
        return None;
    };
    let Some(end) = offset_to_display_position(lines, content, span.end) else {
        return None;
    };
    Some(((start.line, start.column), (end.line, end.column)))
}

// Positions of the language server protocol

/// How clients count the characters of a line.
#[derive(Clone, Copy, Debug, PartialEq, Eq, Structural)]
pub enum PositionEncoding {
    Utf8,
    Utf16,
    Utf32,
}

#[derive(Clone, Copy, Debug, PartialEq, Eq, Structural)]
pub struct Position {
    pub line: u32,
    pub character: u32,
}

/// The code units between the start of a line and a character of it.
pub open spec fn units_before(text: Seq<char>, index: int, encoding: PositionEncoding) -> int {
    let start = line_start(text, index);
    match encoding {
        PositionEncoding::Utf8 => byte_offset(text, index) - byte_offset(text, start),
        PositionEncoding::Utf16 => wide_units(
            WideEncoding::Utf16,
            text.subrange(start, index),
        ) as int,
        PositionEncoding::Utf32 => wide_units(
            WideEncoding::Utf32,
            text.subrange(start, index),
        ) as int,
    }
}

/// The position is that of the offset.
pub open spec fn is_position(
    text: Seq<char>,
    offset: u32,
    encoding: PositionEncoding,
    position: Position,
) -> bool {
    let index = char_index(text, offset as int);
    position.line == line_of(text, index) && position.character == units_before(
        text,
        index,
        encoding,
    )
}

/// The position of an offset, where a character or the end of the text stands
/// there.
pub fn offset_to_lsp_position(
    lines: &SourceLines,
    offset: u32,
    encoding: PositionEncoding,
) -> (position: Option<Position>)
    ensures
        position is Some <==> valid_offset(lines@, offset as int),
        position matches Some(position) ==> is_position(lines@, offset, encoding, position),
{
    let Some((line, column)) = lines.line_col(offset) else {
        return None;
    };
    let ghost index = char_index(lines@, offset as int);
    proof {
        assert(stands_at(lines@, index, offset as int));
        lemma_line_bounds(lines@, index);
        assert(line_of(lines@, index) == line);
    }
    let character: u32 = match encoding {
        PositionEncoding::Utf8 => column,
        PositionEncoding::Utf32 => match lines.wide_column(WideEncoding::Utf32, line, column) {
            Some(character) => character,
            None => return None,
        },
        PositionEncoding::Utf16 => match lines.wide_column(WideEncoding::Utf16, line, column) {
            Some(character) => character,
            None => return None,
        },
    };
    Some(Position { line, character })
}

} // verus!
