//! What reports show: places, lines and messages.

use super::lines::{
    byte_offset, display_position, line_end, line_of, line_start, shown_line, units_before,
    PositionEncoding,
};
use super::render::{branch_text, message_lines, plain_note, plain_report, stem_text, title_line};
use super::report::{Diagnostic, RelatedSpan, Severity};
use super::width::marker;
use crate::text::{decimal, trim_back};
use vstd::prelude::*;

verus! {

// Places

/// The text begins on the first line, in its first column.
pub proof fn lemma_first_place(text: Seq<char>)
    ensures
        display_position(text, 0) == (0nat, 0int),
{
    assert(text.take(0) =~= Seq::empty());
}

/// Behind a line feed stands the first character of the next line; behind any other
/// character the next one of the same line.
pub proof fn lemma_next_place(text: Seq<char>, index: int)
    requires
        0 <= index < text.len(),
    ensures
        ({
            let (line, column) = display_position(text, index);
            display_position(text, index + 1) == (if text[index] == '\n' {
                (line + 1, 0)
            } else {
                (line, column + 1)
            })
        }),
{
    assert(text.take(index + 1).drop_last() =~= text.take(index));
    assert(text.take(index + 1).last() == text[index]);
}

/// The line that a character is on begins behind the line feed before it, and ends with
/// the line feed behind it.
pub proof fn lemma_line_around(text: Seq<char>, index: int)
    requires
        0 <= index <= text.len(),
    ensures
        ({
            let start = line_start(text, index);
            let end = line_end(text, index);
            &&& 0 <= start <= index <= end <= text.len()
            &&& start > 0 ==> text[start - 1] == '\n'
            &&& forall|i: int| start <= i < index ==> text[i] != '\n'
            &&& forall|i: int| index <= i < end - 1 ==> text[i] != '\n'
            &&& end < text.len() ==> end > index && text[end - 1] == '\n'
        }),
{
    lemma_start_around(text, index);
    lemma_end_around(text, index);
}

proof fn lemma_start_around(text: Seq<char>, index: int)
    requires
        0 <= index <= text.len(),
    ensures
        0 <= line_start(text, index) <= index,
        line_start(text, index) > 0 ==> text[line_start(text, index) - 1] == '\n',
        forall|i: int| line_start(text, index) <= i < index ==> text[i] != '\n',
    decreases index,
{
    if index > 0 && text[index - 1] != '\n' {
        lemma_start_around(text, index - 1);
    }
}

proof fn lemma_end_around(text: Seq<char>, index: int)
    requires
        0 <= index <= text.len(),
    ensures
        index <= line_end(text, index) <= text.len(),
        forall|i: int| index <= i < line_end(text, index) - 1 ==> text[i] != '\n',
        line_end(text, index) < text.len() ==> line_end(text, index) > index && text[line_end(
            text,
            index,
        ) - 1] == '\n',
    decreases text.len() - index,
{
    if index < text.len() && text[index] != '\n' {
        lemma_end_around(text, index + 1);
    }
}

/// The line that is shown holds no line feed and does not end in a carriage return.
/// Nothing but those is left out of the line.
pub proof fn lemma_shown_line(text: Seq<char>, index: int)
    requires
        0 <= index <= text.len(),
    ensures
        ({
            let line = shown_line(text, index);
            let start = line_start(text, index);
            &&& !line.contains('\n')
            &&& line.len() > 0 ==> line.last() != '\r'
            &&& start + line.len() <= line_end(text, index)
            &&& line == text.subrange(start, start + line.len())
            &&& forall|i: int|
                start + line.len() <= i < line_end(text, index) ==> text[i] == '\n' || text[i]
                    == '\r'
        }),
{
    lemma_line_around(text, index);
    let start = line_start(text, index);
    let end = line_end(text, index);
    let whole = text.subrange(start, end);
    let drop = |c: char| c == '\n' || c == '\r';
    lemma_trimmed(whole, drop);
    let line = shown_line(text, index);
    assert(line =~= text.subrange(start, start + line.len()));
    assert(!line.contains('\n')) by {
        if line.contains('\n') {
            let i = choose|i: int| 0 <= i < line.len() && line[i] == '\n';
            assert(text[start + i] == '\n');
            assert(start + i == end - 1);
            assert(line.last() == '\n');
        }
    }
    assert forall|i: int| start + line.len() <= i < end implies text[i] == '\n' || text[i]
        == '\r' by {
        assert(whole[i - start] == text[i]);
    }
}

proof fn lemma_trimmed(text: Seq<char>, drop: spec_fn(char) -> bool)
    ensures
        trim_back(text, drop).len() <= text.len(),
        trim_back(text, drop) == text.take(trim_back(text, drop).len() as int),
        trim_back(text, drop).len() > 0 ==> !drop(trim_back(text, drop).last()),
        forall|i: int| trim_back(text, drop).len() <= i < text.len() ==> drop(#[trigger] text[i]),
    decreases text.len(),
{
    if text.len() > 0 && drop(text.last()) {
        lemma_trimmed(text.drop_last(), drop);
        let rest = trim_back(text, drop);
        assert(rest =~= text.take(rest.len() as int));
        assert forall|i: int| rest.len() <= i < text.len() implies drop(#[trigger] text[i]) by {
            if i < text.len() - 1 {
                assert(text.drop_last()[i] == text[i]);
            }
        }
    } else {
        assert(text.take(text.len() as int) =~= text);
    }
}

/// The units that clients count restart on every line. Along a line, each character
/// adds one unit, or two where it needs a pair of them.
pub proof fn lemma_next_unit(text: Seq<char>, index: int)
    requires
        0 <= index < text.len(),
    ensures
        text[index] == '\n' ==> units_before(text, index + 1, PositionEncoding::Utf8) == 0
            && units_before(text, index + 1, PositionEncoding::Utf16) == 0 && units_before(
            text,
            index + 1,
            PositionEncoding::Utf32,
        ) == 0,
        text[index] != '\n' ==> {
            &&& units_before(text, index + 1, PositionEncoding::Utf32) == units_before(
                text,
                index,
                PositionEncoding::Utf32,
            ) + 1
            &&& units_before(text, index + 1, PositionEncoding::Utf16) == units_before(
                text,
                index,
                PositionEncoding::Utf16,
            ) + if (text[index] as u32) < 0x10000 {
                1int
            } else {
                2int
            }
            &&& units_before(text, index + 1, PositionEncoding::Utf8) == units_before(
                text,
                index,
                PositionEncoding::Utf8,
            ) + (byte_offset(text, index + 1) - byte_offset(text, index))
        },
        units_before(text, 0, PositionEncoding::Utf8) == 0,
        units_before(text, 0, PositionEncoding::Utf16) == 0,
        units_before(text, 0, PositionEncoding::Utf32) == 0,
{
    lemma_start_around(text, index);
    let start = line_start(text, index);
    assert(text.subrange(0, 0) =~= Seq::empty());
    if text[index] == '\n' {
        assert(text.subrange(index + 1, index + 1) =~= Seq::empty());
    } else {
        let longer = text.subrange(start, index + 1);
        assert(longer.drop_last() =~= text.subrange(start, index));
        assert(longer.last() == text[index]);
    }
}

// Markers

/// The marker has its corner below the first column that is covered and reaches below
/// the last one, within the line.
pub proof fn lemma_marker(start: nat, end: nat, width: nat)
    ensures
        ({
            let text = marker(start, end, width);
            let first = if start < width {
                start
            } else {
                width
            };
            let last = if end < width {
                end
            } else {
                width
            };
            &&& first < text.len()
            &&& text[first as int] == '╰'
            &&& forall|i: int| 0 <= i < first ==> text[i] == ' '
            &&& forall|i: int| first < i < text.len() ==> text[i] == '─'
            &&& first < last ==> text.len() == last
            &&& last <= first ==> text.len() == first + 1
        }),
{
}

// Plain reports

/// A report begins with how severe it is.
pub proof fn lemma_report_severity(diagnostic: Diagnostic)
    ensures
        ({
            let word = match diagnostic.severity {
                Severity::Error => seq!['e', 'r', 'r', 'o', 'r', '['],
                Severity::Warning => seq!['w', 'a', 'r', 'n', 'i', 'n', 'g', '['],
            };
            &&& word.is_prefix_of(plain_report(diagnostic))
            &&& (word + diagnostic.code@ + seq![']']).is_prefix_of(plain_report(diagnostic))
        }),
{
    reveal_strlit("error");
    reveal_strlit("warning");
    reveal_strlit("[");
    reveal_strlit("] at ");
    let word = match diagnostic.severity {
        Severity::Error => seq!['e', 'r', 'r', 'o', 'r', '['],
        Severity::Warning => seq!['w', 'a', 'r', 'n', 'i', 'n', 'g', '['],
    };
    let report = plain_report(diagnostic);
    let head = word + diagnostic.code@ + seq![']'];
    assert(report.take(word.len() as int) =~= word);
    assert(report.take(head.len() as int) =~= head);
    assert forall|i: int| 0 <= i < word.len() implies word[i] == report[i] by {
        assert(report.take(word.len() as int)[i] == word[i]);
    }
    assert forall|i: int| 0 <= i < head.len() implies head[i] == report[i] by {
        assert(report.take(head.len() as int)[i] == head[i]);
    }
}

/// The part stands somewhere in the text.
pub open spec fn holds(text: Seq<char>, part: Seq<char>) -> bool {
    exists|before: Seq<char>, after: Seq<char>| #[trigger] (before + part + after) == text
}

proof fn lemma_holds(text: Seq<char>, before: Seq<char>, part: Seq<char>, after: Seq<char>)
    requires
        text =~= before + part + after,
    ensures
        holds(text, part),
{
    assert(before + part + after == text);
}

proof fn lemma_holds_within(text: Seq<char>, before: Seq<char>, after: Seq<char>, part: Seq<char>)
    requires
        holds(text, part),
    ensures
        holds(before + text + after, part),
{
    let (first, last) = choose|first: Seq<char>, last: Seq<char>| #[trigger]
        (first + part + last) == text;
    lemma_holds(before + text + after, before + first, part, last + after);
}

/// A report tells where it is, with its message behind.
pub proof fn lemma_report_message(diagnostic: Diagnostic)
    ensures
        holds(
            plain_report(diagnostic),
            " at "@ + decimal(diagnostic.span.start as nat) + ".."@ + decimal(
                diagnostic.span.end as nat,
            ) + ": "@ + diagnostic.message@ + "\n"@,
        ),
{
    reveal_strlit("] at ");
    reveal_strlit(" at ");
    let word = super::render::severity_word(diagnostic.severity);
    let notes = super::render::plain_notes(diagnostic.related@);
    let part = " at "@ + decimal(diagnostic.span.start as nat) + ".."@ + decimal(
        diagnostic.span.end as nat,
    ) + ": "@ + diagnostic.message@ + "\n"@;
    assert("] at "@ =~= seq![']'] + " at "@);
    lemma_holds(
        plain_report(diagnostic),
        word + "["@ + diagnostic.code@ + seq![']'],
        part,
        notes,
    );
}

/// A report shows a note for each related place, with the place and its message.
pub proof fn lemma_report_notes(diagnostic: Diagnostic, index: int)
    requires
        0 <= index < diagnostic.related@.len(),
    ensures
        holds(
            plain_report(diagnostic),
            " at "@ + decimal(diagnostic.related@[index].span.start as nat) + ".."@ + decimal(
                diagnostic.related@[index].span.end as nat,
            ) + ": "@ + diagnostic.related@[index].message@ + "\n"@,
        ),
{
    let related = diagnostic.related@;
    let part = " at "@ + decimal(related[index].span.start as nat) + ".."@ + decimal(
        related[index].span.end as nat,
    ) + ": "@ + related[index].message@ + "\n"@;
    lemma_notes_hold(related, index, part);
    let notes = super::render::plain_notes(related);
    let report = plain_report(diagnostic);
    let head = report.take(report.len() - notes.len());
    assert(report =~= head + notes + Seq::empty());
    lemma_holds_within(notes, head, Seq::empty(), part);
}

proof fn lemma_notes_hold(related: Seq<RelatedSpan>, index: int, part: Seq<char>)
    requires
        0 <= index < related.len(),
        part == " at "@ + decimal(related[index].span.start as nat) + ".."@ + decimal(
            related[index].span.end as nat,
        ) + ": "@ + related[index].message@ + "\n"@,
    ensures
        holds(super::render::plain_notes(related), part),
    decreases related.len(),
{
    reveal_strlit("  note at ");
    reveal_strlit(" at ");
    let before = super::render::plain_notes(related.drop_last());
    let note = plain_note(related.last());
    if index == related.len() - 1 {
        let lead = seq![' ', ' ', 'n', 'o', 't', 'e'];
        assert("  note at "@ =~= lead + " at "@);
        lemma_holds(before + note, before + lead, part, Seq::empty());
    } else {
        lemma_notes_hold(related.drop_last(), index, part);
        assert(before + note =~= Seq::empty() + before + note);
        lemma_holds_within(before, Seq::empty(), note, part);
    }
}

// Rich reports

/// The title shows how severe the report is, its code and its place, counted from one.
pub proof fn lemma_title(
    output: Seq<char>,
    text: Seq<char>,
    path: Seq<char>,
    diagnostic: Diagnostic,
)
    ensures
        ({
            let index = super::lines::char_index(text, diagnostic.span.start as int);
            let line = line_of(text, index);
            let column = index - line_start(text, index);
            let word = match diagnostic.severity {
                Severity::Error => "Error!"@,
                Severity::Warning => "Warning!"@,
            };
            title_line(output, text, path, diagnostic, false) == output + word + " · ["@
                + diagnostic.code@ + "] · "@ + path + ":"@ + decimal(line + 1) + ":"@ + decimal(
                (column + 1) as nat,
            ) + "\n"@
        }),
{
    reveal_strlit(" · [");
    reveal_strlit("] · ");
    reveal_strlit(" ");
    reveal_strlit("·");
    reveal_strlit(" [");
    reveal_strlit("] ");
    assert(" · ["@ =~= " "@ + "·"@ + " ["@);
    assert("] · "@ =~= "] "@ + "·"@ + " "@);
    let index = super::lines::char_index(text, diagnostic.span.start as int);
    let line = line_of(text, index);
    let column = index - line_start(text, index);
    let word = match diagnostic.severity {
        Severity::Error => "Error!"@,
        Severity::Warning => "Warning!"@,
    };
    assert(title_line(output, text, path, diagnostic, false) =~= output + word + (" "@ + "·"@
        + " ["@) + diagnostic.code@ + ("] "@ + "·"@ + " "@) + path + ":"@ + decimal(line + 1)
        + ":"@ + decimal((column + 1) as nat) + "\n"@);
}

/// Every line of a message is shown on a line of its own.
pub proof fn lemma_message_shown(output: Seq<char>, lines: Seq<Seq<char>>, index: int)
    requires
        0 <= index < lines.len(),
        lines[index].len() > 0,
    ensures
        holds(message_lines(output, lines, false), " "@ + lines[index] + "\n"@),
    decreases lines.len(),
{
    let before = message_lines(output, lines.drop_last(), false);
    let whole = message_lines(output, lines, false);
    let part = " "@ + lines[index] + "\n"@;
    let gutter = if lines.len() == 1 {
        branch_text(false)
    } else {
        stem_text(false)
    };
    if index == lines.len() - 1 {
        lemma_holds(whole, before + gutter, part, Seq::empty());
    } else {
        lemma_message_shown(output, lines.drop_last(), index);
        let rest = whole.skip(before.len() as int);
        assert(whole =~= Seq::empty() + before + rest);
        lemma_holds_within(before, Seq::empty(), rest, part);
    }
}

/// What is written stays: a report is put behind what is there.
pub proof fn lemma_report_behind(
    output: Seq<char>,
    text: Seq<char>,
    path: Seq<char>,
    diagnostic: Diagnostic,
)
    ensures
        ({
            let title = title_line(output, text, path, diagnostic, false);
            &&& output.is_prefix_of(title)
            &&& title.len() > output.len()
        }),
{
    lemma_title(output, text, path, diagnostic);
    let title = title_line(output, text, path, diagnostic, false);
    assert(title.take(output.len() as int) =~= output);
    assert forall|i: int| 0 <= i < output.len() implies output[i] == title[i] by {
        assert(title.take(output.len() as int)[i] == output[i]);
    }
}

} // verus!
