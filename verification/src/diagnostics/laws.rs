//! What holds of reports as text.

use super::escapes::{
    codes, is_code, is_plain, lemma_code, lemma_plain, lemma_shows_append,
    lemma_shows_plain, lemma_stripped_append, lemma_stripped_is_plain, shows,
};
use super::lines::{
    char_index, display_position, line_end, line_start, shown_line, stands_at, valid_span,
};
use super::render::{
    all_trivia, are_plain, branch_text, excerpt, highlighted, in_quotes, is_plain_report,
    line_width, location_text, message_block, message_lines, message_width, paint, paint_quoted,
    plain_note, plain_notes, plain_report, plain_reports, quotes_painted, related_blocks,
    report_wraps_plainly, rich_report, rich_reports, severity_ansi, severity_title,
    severity_word, span_text, stem_text, title_line, trivia_block, trivia_lines, trivia_width,
    valid_report, wrapped_lines, wraps_plainly,
};
use super::report::{Diagnostic, RelatedSpan, Severity, Span};
use super::width::{expanded, marker};
use crate::text::{decimal, trim_back};
use vstd::prelude::*;

verus! {

// Plain text

/// The reports on two lists are the reports on the first followed by those on the
/// second.
pub proof fn lemma_plain_reports_append(first: Seq<Diagnostic>, second: Seq<Diagnostic>)
    ensures
        plain_reports(first + second) == plain_reports(first) + plain_reports(second),
        plain_reports(Seq::empty()) == Seq::<char>::empty(),
    decreases second.len(),
{
    if second.len() == 0 {
        assert(first + second =~= first);
        assert(plain_reports(first) + plain_reports(second) =~= plain_reports(first));
    } else {
        lemma_plain_reports_append(first, second.drop_last());
        assert((first + second).drop_last() =~= first + second.drop_last());
        assert(plain_reports(first + second) =~= plain_reports(first) + plain_reports(second));
    }
}

/// How often a character occurs.
pub open spec fn occurrences(text: Seq<char>, character: char) -> nat
    decreases text.len(),
{
    if text.len() == 0 {
        0
    } else {
        occurrences(text.drop_last(), character) + if text.last() == character {
            1nat
        } else {
            0nat
        }
    }
}

proof fn lemma_occurrences_append(first: Seq<char>, second: Seq<char>, character: char)
    ensures
        occurrences(first + second, character) == occurrences(first, character) + occurrences(
            second,
            character,
        ),
    decreases second.len(),
{
    if second.len() == 0 {
        assert(first + second =~= first);
    } else {
        assert((first + second).drop_last() =~= first + second.drop_last());
        lemma_occurrences_append(first, second.drop_last(), character);
    }
}

proof fn lemma_no_occurrence(text: Seq<char>, character: char)
    requires
        !text.contains(character),
    ensures
        occurrences(text, character) == 0,
    decreases text.len(),
{
    if text.len() > 0 {
        assert(text.contains(text[text.len() - 1]));
        assert(!text.drop_last().contains(character)) by {
            if text.drop_last().contains(character) {
                let i = choose|i: int| 0 <= i < text.len() - 1 && text.drop_last()[i] == character;
                assert(text[i] == character);
            }
        }
        lemma_no_occurrence(text.drop_last(), character);
    }
}

/// Numbers are written with digits only.
proof fn lemma_digits(number: nat, character: char)
    requires
        !('0' <= character <= '9'),
    ensures
        !decimal(number).contains(character),
    decreases number,
{
    let text = decimal(number);
    if number >= 10 {
        lemma_digits(number / 10, character);
        if text.contains(character) {
            let i = choose|i: int| 0 <= i < text.len() && text[i] == character;
            if i < decimal(number / 10).len() {
                assert(decimal(number / 10)[i] == character);
            }
        }
    }
}

/// The number of lines of reports: one for each, and one for each related place.
pub open spec fn report_lines(diagnostics: Seq<Diagnostic>) -> nat
    decreases diagnostics.len(),
{
    if diagnostics.len() == 0 {
        0
    } else {
        report_lines(diagnostics.drop_last()) + 1 + diagnostics.last().related@.len()
    }
}

/// The texts of a report stay on one line.
pub open spec fn is_single_lined(diagnostic: Diagnostic) -> bool {
    &&& !diagnostic.code@.contains('\n')
    &&& !diagnostic.message@.contains('\n')
    &&& forall|i: int|
        0 <= i < diagnostic.related@.len() ==> !(
        #[trigger] diagnostic.related@[i]).message@.contains('\n')
}

proof fn lemma_span_lines(span: Span)
    ensures
        occurrences(span_text(span), '\n') == 0,
{
    reveal_strlit("..");
    lemma_digits(span.start as nat, '\n');
    lemma_digits(span.end as nat, '\n');
    lemma_no_occurrence(decimal(span.start as nat), '\n');
    lemma_no_occurrence(decimal(span.end as nat), '\n');
    lemma_no_occurrence(".."@, '\n');
    lemma_occurrences_append(decimal(span.start as nat), ".."@, '\n');
    lemma_occurrences_append(
        decimal(span.start as nat) + ".."@,
        decimal(span.end as nat),
        '\n',
    );
}

proof fn lemma_line_feed()
    ensures
        occurrences("\n"@, '\n') == 1,
        "\n"@.len() == 1,
        "\n"@.last() == '\n',
{
    reveal_strlit("\n");
    reveal_with_fuel(occurrences, 2);
    assert("\n"@.drop_last() =~= Seq::empty());
}

proof fn lemma_note_lines(related: RelatedSpan)
    requires
        !related.message@.contains('\n'),
    ensures
        occurrences(plain_note(related), '\n') == 1,
        plain_note(related).last() == '\n',
        plain_note(related).len() > 0,
{
    reveal_strlit("  note at ");
    reveal_strlit(": ");
    let a = "  note at "@;
    let b = a + span_text(related.span);
    let c = b + ": "@;
    let d = c + related.message@;
    lemma_no_occurrence(a, '\n');
    lemma_no_occurrence(": "@, '\n');
    lemma_span_lines(related.span);
    lemma_no_occurrence(related.message@, '\n');
    lemma_line_feed();
    lemma_occurrences_append(a, span_text(related.span), '\n');
    lemma_occurrences_append(b, ": "@, '\n');
    lemma_occurrences_append(c, related.message@, '\n');
    lemma_occurrences_append(d, "\n"@, '\n');
}

proof fn lemma_notes_lines(related: Seq<RelatedSpan>)
    requires
        forall|i: int| 0 <= i < related.len() ==> !(#[trigger] related[i]).message@.contains('\n'),
    ensures
        occurrences(plain_notes(related), '\n') == related.len(),
        plain_notes(related).len() == 0 || plain_notes(related).last() == '\n',
    decreases related.len(),
{
    if related.len() > 0 {
        let before = related.drop_last();
        assert forall|i: int| 0 <= i < before.len() implies !(
        #[trigger] before[i]).message@.contains('\n') by {
            assert(before[i] == related[i]);
        }
        lemma_notes_lines(before);
        assert(!related[related.len() - 1].message@.contains('\n'));
        lemma_note_lines(related.last());
        lemma_occurrences_append(plain_notes(before), plain_note(related.last()), '\n');
    }
}

proof fn lemma_report_lines(diagnostic: Diagnostic)
    requires
        is_single_lined(diagnostic),
    ensures
        occurrences(plain_report(diagnostic), '\n') == 1 + diagnostic.related@.len(),
        plain_report(diagnostic).len() > 0,
        plain_report(diagnostic).last() == '\n',
{
    reveal_strlit("error");
    reveal_strlit("warning");
    reveal_strlit("[");
    reveal_strlit("] at ");
    reveal_strlit(": ");
    let a = severity_word(diagnostic.severity);
    let b = a + "["@;
    let c = b + diagnostic.code@;
    let d = c + "] at "@;
    let e = d + span_text(diagnostic.span);
    let f = e + ": "@;
    let g = f + diagnostic.message@;
    let h = g + "\n"@;
    lemma_no_occurrence(a, '\n');
    lemma_no_occurrence("["@, '\n');
    lemma_no_occurrence(diagnostic.code@, '\n');
    lemma_no_occurrence("] at "@, '\n');
    lemma_span_lines(diagnostic.span);
    lemma_no_occurrence(": "@, '\n');
    lemma_no_occurrence(diagnostic.message@, '\n');
    lemma_line_feed();
    lemma_notes_lines(diagnostic.related@);
    lemma_occurrences_append(a, "["@, '\n');
    lemma_occurrences_append(b, diagnostic.code@, '\n');
    lemma_occurrences_append(c, "] at "@, '\n');
    lemma_occurrences_append(d, span_text(diagnostic.span), '\n');
    lemma_occurrences_append(e, ": "@, '\n');
    lemma_occurrences_append(f, diagnostic.message@, '\n');
    lemma_occurrences_append(g, "\n"@, '\n');
    lemma_occurrences_append(h, plain_notes(diagnostic.related@), '\n');
    assert(plain_report(diagnostic) == h + plain_notes(diagnostic.related@));
}

/// Reports whose texts stay on one line take one line each, and one for each related
/// place. The text is empty or ends with a line feed.
pub proof fn lemma_plain_report_lines(diagnostics: Seq<Diagnostic>)
    requires
        forall|i: int| 0 <= i < diagnostics.len() ==> is_single_lined(#[trigger] diagnostics[i]),
    ensures
        occurrences(plain_reports(diagnostics), '\n') == report_lines(diagnostics),
        plain_reports(diagnostics).len() == 0 || plain_reports(diagnostics).last() == '\n',
    decreases diagnostics.len(),
{
    if diagnostics.len() > 0 {
        let before = diagnostics.drop_last();
        assert forall|i: int| 0 <= i < before.len() implies is_single_lined(
            #[trigger] before[i],
        ) by {
            assert(before[i] == diagnostics[i]);
        }
        lemma_plain_report_lines(before);
        assert(is_single_lined(diagnostics[diagnostics.len() - 1]));
        lemma_report_lines(diagnostics.last());
        lemma_occurrences_append(plain_reports(before), plain_report(diagnostics.last()), '\n');
    }
}

// Colors

/// The codes around quoted texts: one that switches the color on, then one that
/// switches it off, and so on.
pub open spec fn alternating(count: nat) -> Seq<Seq<char>> {
    Seq::new(
        count,
        |i: int|
            if i % 2 == 0 {
                "\x1b[36m"@
            } else {
                "\x1b[0m"@
            },
    )
}

/// One more character behind a text that has been painted.
proof fn lemma_one_more(painted: Seq<char>, plain: Seq<char>, last: char)
    requires
        shows(painted, plain),
        last != '\x1b',
    ensures
        shows(painted.push(last), plain.push(last)),
        codes(painted.push(last)) == codes(painted),
{
    let single = seq![last];
    assert(is_plain(single));
    lemma_plain(single);
    lemma_shows_append(painted, plain, single, single);
    lemma_stripped_append(painted, single);
    assert(painted.push(last) =~= painted + single);
    assert(plain.push(last) =~= plain + single);
    assert(codes(painted) + codes(single) =~= codes(painted));
}

/// One more code behind a text that has been painted.
proof fn lemma_one_more_code(painted: Seq<char>, plain: Seq<char>, code: Seq<char>)
    requires
        shows(painted, plain),
        is_code(code),
    ensures
        shows(painted + code, plain),
        codes(painted + code) == codes(painted).push(code),
{
    lemma_code(code);
    lemma_shows_append(painted, plain, code, Seq::empty());
    lemma_stripped_append(painted, code);
    assert(plain + Seq::<char>::empty() =~= plain);
    assert(codes(painted) + seq![code] =~= codes(painted).push(code));
}

proof fn lemma_alternating(count: nat)
    ensures
        count % 2 == 0 ==> alternating(count).push("\x1b[36m"@) == alternating(count + 1),
        count % 2 == 1 ==> alternating(count).push("\x1b[0m"@) == alternating(count + 1),
{
    if count % 2 == 0 {
        assert(alternating(count).push("\x1b[36m"@) =~= alternating(count + 1));
    } else {
        assert(alternating(count).push("\x1b[0m"@) =~= alternating(count + 1));
    }
}

proof fn lemma_quotes_painted(text: Seq<char>)
    requires
        is_plain(text),
    ensures
        shows(quotes_painted(text), text),
        codes(quotes_painted(text)) == alternating(occurrences(text, '\'')),
        in_quotes(text) <==> occurrences(text, '\'') % 2 == 1,
    decreases text.len(),
{
    if text.len() == 0 {
        lemma_plain(text);
        assert(quotes_painted(text) =~= text);
        assert(codes(text) =~= alternating(0));
    } else {
        let before = text.drop_last();
        let last = text.last();
        assert forall|i: int| 0 <= i < before.len() implies text.contains(
            #[trigger] before[i],
        ) by {
            assert(before[i] == text[i]);
        }
        lemma_part_is_plain(text, before);
        lemma_quotes_painted(before);
        assert(text.contains(text[text.len() - 1]));
        assert(text =~= before.push(last));
        let painted = quotes_painted(before);
        let count = occurrences(before, '\'');
        if last == '\'' {
            let code = if in_quotes(before) {
                "\x1b[0m"@
            } else {
                "\x1b[36m"@
            };
            lemma_one_more_code(painted, before, code);
            lemma_one_more(painted + code, before, last);
            lemma_alternating(count);
        } else {
            lemma_one_more(painted, before, last);
        }
    }
}

/// A text whose quoted parts are in a color is the text, but for its codes. There are
/// as many codes as quotes, and one more where the last quote is not closed; the color
/// is switched on and off in turn.
pub proof fn lemma_paint_quoted(text: Seq<char>)
    requires
        is_plain(text),
    ensures
        paint_quoted(text, false) == text,
        shows(paint_quoted(text, true), text),
        codes(paint_quoted(text, true)) == alternating(
            (2 * ((occurrences(text, '\'') + 1) / 2)) as nat,
        ),
{
    let count = occurrences(text, '\'');
    lemma_quotes_painted(text);
    if in_quotes(text) {
        lemma_one_more_code(quotes_painted(text), text, "\x1b[0m"@);
        lemma_alternating(count);
    }
}

proof fn lemma_part_is_plain(text: Seq<char>, part: Seq<char>)
    requires
        is_plain(text),
        forall|i: int| 0 <= i < part.len() ==> text.contains(#[trigger] part[i]),
    ensures
        is_plain(part),
{
}

proof fn lemma_painted(text: Seq<char>, ansi: Seq<char>, color: bool)
    requires
        is_plain(text),
        is_code(ansi),
    ensures
        shows(paint(text, ansi, color), text),
{
    lemma_plain(text);
    if color {
        lemma_code(ansi);
        lemma_code("\x1b[0m"@);
        lemma_shows_append(ansi, Seq::empty(), text, text);
        assert(Seq::<char>::empty() + text =~= text);
        lemma_shows_append(ansi + text, text, "\x1b[0m"@, Seq::empty());
        assert(text + Seq::<char>::empty() =~= text);
    }
}

proof fn lemma_quoted(text: Seq<char>, color: bool)
    requires
        is_plain(text),
    ensures
        shows(paint_quoted(text, color), text),
{
    lemma_paint_quoted(text);
    lemma_plain(text);
}

proof fn lemma_literals()
    ensures
        is_plain("\n"@),
        is_plain("\n\n"@),
        is_plain(" "@),
        is_plain("   "@),
        is_plain(" ["@),
        is_plain("] "@),
        is_plain(":"@),
        is_plain(" while\n"@),
        is_plain("  •"@),
        is_plain("  │"@),
        is_plain("·"@),
        is_plain("Error!"@),
        is_plain("Warning!"@),
{
    reveal_strlit("\n");
    reveal_strlit("\n\n");
    reveal_strlit(" ");
    reveal_strlit("   ");
    reveal_strlit(" [");
    reveal_strlit("] ");
    reveal_strlit(":");
    reveal_strlit(" while\n");
    reveal_strlit("  •");
    reveal_strlit("  │");
    reveal_strlit("·");
    reveal_strlit("Error!");
    reveal_strlit("Warning!");
}

proof fn lemma_gutters(color: bool)
    ensures
        shows(branch_text(color), branch_text(false)),
        shows(stem_text(color), stem_text(false)),
{
    lemma_literals();
    lemma_painted("  •"@, "\x1b[2m"@, color);
    lemma_painted("  │"@, "\x1b[2m"@, color);
}

proof fn lemma_message_lines(
    output: Seq<char>,
    plain: Seq<char>,
    lines: Seq<Seq<char>>,
    color: bool,
)
    requires
        shows(output, plain),
        are_plain(lines),
    ensures
        shows(message_lines(output, lines, color), message_lines(plain, lines, false)),
    decreases lines.len(),
{
    if lines.len() > 0 {
        let rest = lines.drop_last();
        assert(are_plain(rest)) by {
            assert forall|i: int| 0 <= i < rest.len() implies is_plain(#[trigger] rest[i]) by {
                assert(rest[i] == lines[i]);
            }
        }
        lemma_message_lines(output, plain, rest, color);
        lemma_literals();
        lemma_gutters(color);
        let line = lines.last();
        assert(is_plain(lines[lines.len() - 1]));
        let (gutter, bare) = if lines.len() == 1 {
            (branch_text(color), branch_text(false))
        } else {
            (stem_text(color), stem_text(false))
        };
        let first = message_lines(output, rest, color);
        let second = message_lines(plain, rest, false);
        lemma_shows_append(first, second, gutter, bare);
        if line.len() == 0 {
            lemma_shows_plain(first + gutter, second + bare, "\n"@);
        } else {
            lemma_quoted(line, color);
            lemma_shows_plain(first + gutter, second + bare, " "@);
            lemma_shows_append(
                first + gutter + " "@,
                second + bare + " "@,
                paint_quoted(line, color),
                line,
            );
            lemma_shows_plain(
                first + gutter + " "@ + paint_quoted(line, color),
                second + bare + " "@ + line,
                "\n"@,
            );
        }
    }
}

proof fn lemma_trivia_lines(
    output: Seq<char>,
    plain: Seq<char>,
    lines: Seq<Seq<char>>,
    color: bool,
)
    requires
        shows(output, plain),
        are_plain(lines),
    ensures
        shows(trivia_lines(output, lines, color), trivia_lines(plain, lines, false)),
    decreases lines.len(),
{
    if lines.len() > 0 {
        let rest = lines.drop_last();
        assert(are_plain(rest)) by {
            assert forall|i: int| 0 <= i < rest.len() implies is_plain(#[trigger] rest[i]) by {
                assert(rest[i] == lines[i]);
            }
        }
        lemma_trivia_lines(output, plain, rest, color);
        lemma_literals();
        lemma_gutters(color);
        let line = lines.last();
        assert(is_plain(lines[lines.len() - 1]));
        let first = trivia_lines(output, rest, color);
        let second = trivia_lines(plain, rest, false);
        let stem = stem_text(color);
        let bare = stem_text(false);
        lemma_quoted(line, color);
        lemma_shows_append(first, second, stem, bare);
        lemma_shows_plain(first + stem, second + bare, "   "@);
        lemma_shows_append(
            first + stem + "   "@,
            second + bare + "   "@,
            paint_quoted(line, color),
            line,
        );
        lemma_shows_plain(
            first + stem + "   "@ + paint_quoted(line, color),
            second + bare + "   "@ + line,
            "\n"@,
        );
    }
}

proof fn lemma_all_trivia(
    output: Seq<char>,
    plain: Seq<char>,
    trivia: Seq<String>,
    color: bool,
)
    requires
        shows(output, plain),
        forall|i: int|
            0 <= i < trivia.len() ==> are_plain(
                wrapped_lines((#[trigger] trivia[i])@, trivia_width() as usize),
            ),
    ensures
        shows(all_trivia(output, trivia, color), all_trivia(plain, trivia, false)),
    decreases trivia.len(),
{
    if trivia.len() > 0 {
        let rest = trivia.drop_last();
        assert forall|i: int| 0 <= i < rest.len() implies are_plain(
            wrapped_lines((#[trigger] rest[i])@, trivia_width() as usize),
        ) by {
            assert(rest[i] == trivia[i]);
        }
        lemma_all_trivia(output, plain, rest, color);
        assert(are_plain(wrapped_lines(trivia[trivia.len() - 1]@, trivia_width() as usize)));
        lemma_trivia_lines(
            all_trivia(output, rest, color),
            all_trivia(plain, rest, false),
            wrapped_lines(trivia.last()@, trivia_width() as usize),
            color,
        );
    }
}

proof fn lemma_line_end(text: Seq<char>, index: int)
    requires
        0 <= index <= text.len(),
    ensures
        index <= line_end(text, index) <= text.len(),
    decreases text.len() - index,
{
    if index < text.len() && text[index] != '\n' {
        lemma_line_end(text, index + 1);
    }
}

proof fn lemma_line_start(text: Seq<char>, index: int)
    requires
        0 <= index <= text.len(),
    ensures
        0 <= line_start(text, index) <= index,
    decreases index,
{
    if index > 0 && text[index - 1] != '\n' {
        lemma_line_start(text, index - 1);
    }
}

proof fn lemma_trimmed_is_part(text: Seq<char>, drop: spec_fn(char) -> bool)
    ensures
        trim_back(text, drop).len() <= text.len(),
        forall|i: int|
            0 <= i < trim_back(text, drop).len() ==> #[trigger] trim_back(text, drop)[i] == text[i],
    decreases text.len(),
{
    if text.len() > 0 && drop(text.last()) {
        lemma_trimmed_is_part(text.drop_last(), drop);
    }
}

proof fn lemma_shown_line(text: Seq<char>, index: int)
    requires
        is_plain(text),
        0 <= index <= text.len(),
    ensures
        is_plain(shown_line(text, index)),
{
    lemma_line_start(text, index);
    lemma_line_end(text, index);
    let start = line_start(text, index);
    let line = text.subrange(start, line_end(text, index));
    let shown = shown_line(text, index);
    lemma_trimmed_is_part(line, |c: char| c == '\n' || c == '\r');
    assert forall|i: int| 0 <= i < shown.len() implies text.contains(#[trigger] shown[i]) by {
        assert(text[start + i] == shown[i]);
    }
    lemma_part_is_plain(text, shown);
}

proof fn lemma_expanded_is_plain(text: Seq<char>)
    requires
        is_plain(text),
    ensures
        is_plain(expanded(text)),
    decreases text.len(),
{
    if text.len() > 0 {
        let before = text.drop_last();
        let after = expanded(text);
        lemma_part_is_plain(text, before);
        lemma_expanded_is_plain(before);
        assert(text.contains(text[text.len() - 1]));
        if after.contains('\x1b') {
            let i = choose|i: int| 0 <= i < after.len() && after[i] == '\x1b';
            if i < expanded(before).len() {
                assert(expanded(before)[i] == '\x1b');
            }
        }
    }
}

proof fn lemma_excerpt(
    output: Seq<char>,
    plain: Seq<char>,
    text: Seq<char>,
    span: Span,
    severity: Severity,
    color: bool,
)
    requires
        shows(output, plain),
        is_plain(text),
        valid_span(text, span),
    ensures
        shows(
            excerpt(output, text, span, severity, color),
            excerpt(plain, text, span, severity, false),
        ),
{
    let index = char_index(text, span.start as int);
    assert(stands_at(text, index, span.start as int));
    let line = expanded(shown_line(text, index));
    let (start, end) = highlighted(text, span);
    let stem = stem_text(color);
    let bare = stem_text(false);
    let below = marker(start as nat, end as nat, line_width(line) as nat);
    let painted = paint(below, severity_ansi(severity), color);
    lemma_literals();
    lemma_gutters(color);
    lemma_shown_line(text, index);
    lemma_expanded_is_plain(shown_line(text, index));
    assert(is_plain(below));
    lemma_painted(below, severity_ansi(severity), color);
    lemma_shows_append(output, plain, stem, bare);
    let (source, shown) = if line.len() == 0 {
        lemma_shows_plain(output + stem, plain + bare, "\n"@);
        (output + stem + "\n"@, plain + bare + "\n"@)
    } else {
        lemma_shows_plain(output + stem, plain + bare, "   "@);
        lemma_shows_plain(output + stem + "   "@, plain + bare + "   "@, line);
        lemma_shows_plain(output + stem + "   "@ + line, plain + bare + "   "@ + line, "\n"@);
        (output + stem + "   "@ + line + "\n"@, plain + bare + "   "@ + line + "\n"@)
    };
    lemma_shows_append(source, shown, stem, bare);
    lemma_shows_plain(source + stem, shown + bare, "   "@);
    lemma_shows_append(source + stem + "   "@, shown + bare + "   "@, painted, below);
    lemma_shows_plain(
        source + stem + "   "@ + painted,
        shown + bare + "   "@ + below,
        "\n"@,
    );
}

proof fn lemma_message_block(
    output: Seq<char>,
    plain: Seq<char>,
    text: Seq<char>,
    message: Seq<char>,
    span: Span,
    severity: Severity,
    color: bool,
)
    requires
        shows(output, plain),
        is_plain(text),
        is_plain(message),
        wraps_plainly(message, message_width() as usize),
        valid_span(text, span),
    ensures
        shows(
            message_block(output, text, message, span, severity, color),
            message_block(plain, text, message, span, severity, false),
        ),
{
    let lines = wrapped_lines(message, message_width() as usize);
    let first = message_lines(output, lines, color);
    let second = message_lines(plain, lines, false);
    lemma_literals();
    lemma_gutters(color);
    lemma_message_lines(output, plain, lines, color);
    lemma_shows_append(first, second, stem_text(color), stem_text(false));
    lemma_shows_plain(first + stem_text(color), second + stem_text(false), "\n"@);
    lemma_excerpt(
        first + stem_text(color) + "\n"@,
        second + stem_text(false) + "\n"@,
        text,
        span,
        severity,
        color,
    );
}

proof fn lemma_related_blocks(
    output: Seq<char>,
    plain: Seq<char>,
    text: Seq<char>,
    related: Seq<RelatedSpan>,
    severity: Severity,
    color: bool,
)
    requires
        shows(output, plain),
        is_plain(text),
        forall|i: int|
            0 <= i < related.len() ==> {
                &&& is_plain((#[trigger] related[i]).message@)
                &&& wraps_plainly(related[i].message@, message_width() as usize)
                &&& valid_span(text, related[i].span)
            },
    ensures
        shows(
            related_blocks(output, text, related, severity, color),
            related_blocks(plain, text, related, severity, false),
        ),
    decreases related.len(),
{
    if related.len() > 0 {
        let rest = related.drop_last();
        assert forall|i: int| 0 <= i < rest.len() implies {
            &&& is_plain((#[trigger] rest[i]).message@)
            &&& wraps_plainly(rest[i].message@, message_width() as usize)
            &&& valid_span(text, rest[i].span)
        } by {
            assert(rest[i] == related[i]);
        }
        lemma_related_blocks(output, plain, text, rest, severity, color);
        lemma_literals();
        lemma_gutters(color);
        let first = related_blocks(output, text, rest, severity, color);
        let second = related_blocks(plain, text, rest, severity, false);
        assert(is_plain(related[related.len() - 1].message@));
        lemma_shows_append(first, second, stem_text(color), stem_text(false));
        lemma_shows_plain(first + stem_text(color), second + stem_text(false), "\n"@);
        lemma_message_block(
            first + stem_text(color) + "\n"@,
            second + stem_text(false) + "\n"@,
            text,
            related.last().message@,
            related.last().span,
            severity,
            color,
        );
    }
}

proof fn lemma_append_is_plain(first: Seq<char>, second: Seq<char>)
    requires
        is_plain(first),
        is_plain(second),
    ensures
        is_plain(first + second),
{
    let both = first + second;
    if both.contains('\x1b') {
        let i = choose|i: int| 0 <= i < both.len() && both[i] == '\x1b';
        if i < first.len() {
            assert(first[i] == '\x1b');
        } else {
            assert(second[i - first.len()] == '\x1b');
        }
    }
}

proof fn lemma_location(text: Seq<char>, path: Seq<char>, span: Span)
    requires
        is_plain(path),
    ensures
        is_plain(location_text(text, path, span)),
{
    let (line, column) = display_position(text, char_index(text, span.start as int));
    let below = decimal(line + 1);
    let right = decimal((column + 1) as nat);
    lemma_literals();
    lemma_digits(line + 1, '\x1b');
    lemma_digits((column + 1) as nat, '\x1b');
    lemma_append_is_plain(path, ":"@);
    lemma_append_is_plain(path + ":"@, below);
    lemma_append_is_plain(path + ":"@ + below, ":"@);
    lemma_append_is_plain(path + ":"@ + below + ":"@, right);
}

#[verifier::rlimit(30)]
proof fn lemma_title_line(
    output: Seq<char>,
    plain: Seq<char>,
    text: Seq<char>,
    path: Seq<char>,
    diagnostic: Diagnostic,
    color: bool,
)
    requires
        shows(output, plain),
        is_plain(path),
        is_plain(diagnostic.code@),
    ensures
        shows(
            title_line(output, text, path, diagnostic, color),
            title_line(plain, text, path, diagnostic, false),
        ),
{
    let title = severity_title(diagnostic.severity);
    let place = location_text(text, path, diagnostic.span);
    let code = diagnostic.code@;
    let a = paint(title, severity_ansi(diagnostic.severity), color);
    let b = paint("·"@, "\x1b[2m"@, color);
    let c = paint(code, "\x1b[1;33m"@, color);
    let d = paint(place, "\x1b[1;33m"@, color);
    lemma_literals();
    lemma_location(text, path, diagnostic.span);
    lemma_painted(title, severity_ansi(diagnostic.severity), color);
    lemma_painted("·"@, "\x1b[2m"@, color);
    lemma_painted(code, "\x1b[1;33m"@, color);
    lemma_painted(place, "\x1b[1;33m"@, color);
    lemma_shows_append(output, plain, a, title);
    let (p, q) = (output + a, plain + title);
    lemma_shows_plain(p, q, " "@);
    lemma_shows_append(p + " "@, q + " "@, b, "·"@);
    let (p, q) = (p + " "@ + b, q + " "@ + "·"@);
    lemma_shows_plain(p, q, " ["@);
    lemma_shows_append(p + " ["@, q + " ["@, c, code);
    let (p, q) = (p + " ["@ + c, q + " ["@ + code);
    lemma_shows_plain(p, q, "] "@);
    lemma_shows_append(p + "] "@, q + "] "@, b, "·"@);
    let (p, q) = (p + "] "@ + b, q + "] "@ + "·"@);
    lemma_shows_plain(p, q, " "@);
    lemma_shows_append(p + " "@, q + " "@, d, place);
    let (p, q) = (p + " "@ + d, q + " "@ + place);
    lemma_shows_plain(p, q, "\n"@);
}

proof fn lemma_trivia_block(
    output: Seq<char>,
    plain: Seq<char>,
    trivia: Seq<String>,
    color: bool,
)
    requires
        shows(output, plain),
        forall|i: int|
            0 <= i < trivia.len() ==> are_plain(
                wrapped_lines((#[trigger] trivia[i])@, trivia_width() as usize),
            ),
    ensures
        shows(trivia_block(output, trivia, color), trivia_block(plain, trivia, false)),
{
    if trivia.len() > 0 {
        let branch = branch_text(color);
        let stem = stem_text(color);
        let thin = branch_text(false);
        let bare = stem_text(false);
        lemma_literals();
        lemma_gutters(color);
        lemma_shows_append(output, plain, branch, thin);
        lemma_shows_plain(output + branch, plain + thin, " while\n"@);
        let (p, q) = (output + branch + " while\n"@, plain + thin + " while\n"@);
        lemma_shows_append(p, q, stem, bare);
        lemma_shows_plain(p + stem, q + bare, "\n"@);
        lemma_all_trivia(p + stem + "\n"@, q + bare + "\n"@, trivia, color);
    }
}

proof fn lemma_rich_report(
    output: Seq<char>,
    plain: Seq<char>,
    text: Seq<char>,
    path: Seq<char>,
    diagnostic: Diagnostic,
    color: bool,
)
    requires
        shows(output, plain),
        is_plain(text),
        is_plain(path),
        valid_report(text, diagnostic),
        is_plain_report(diagnostic),
        report_wraps_plainly(diagnostic),
    ensures
        shows(
            rich_report(output, text, path, diagnostic, color),
            rich_report(plain, text, path, diagnostic, false),
        ),
{
    let branch = branch_text(color);
    let stem = stem_text(color);
    let thin = branch_text(false);
    let bare = stem_text(false);
    let span = diagnostic.span;
    let severity = diagnostic.severity;
    let message = diagnostic.message@;
    let related = diagnostic.related@;
    let trivia = diagnostic.trivia@;
    lemma_literals();
    lemma_gutters(color);
    lemma_title_line(output, plain, text, path, diagnostic, color);
    let p = title_line(output, text, path, diagnostic, color);
    let q = title_line(plain, text, path, diagnostic, false);
    lemma_shows_append(p, q, branch, thin);
    lemma_shows_plain(p + branch, q + thin, "\n"@);
    let (p, q) = (p + branch + "\n"@, q + thin + "\n"@);
    lemma_shows_append(p, q, stem, bare);
    lemma_shows_plain(p + stem, q + bare, "\n"@);
    let (p, q) = (p + stem + "\n"@, q + bare + "\n"@);
    lemma_message_block(p, q, text, message, span, severity, color);
    let p = message_block(p, text, message, span, severity, color);
    let q = message_block(q, text, message, span, severity, false);
    lemma_related_blocks(p, q, text, related, severity, color);
    let p = related_blocks(p, text, related, severity, color);
    let q = related_blocks(q, text, related, severity, false);
    lemma_trivia_block(p, q, trivia, color);
    let p = trivia_block(p, trivia, color);
    let q = trivia_block(q, trivia, false);
    lemma_shows_append(p, q, branch, thin);
    lemma_shows_plain(p + branch, q + thin, "\n\n"@);
}

/// Reports in color are the plain reports, but for the codes that switch colors; the
/// plain reports switch none.
pub(crate) proof fn lemma_rich_reports(
    text: Seq<char>,
    path: Seq<char>,
    diagnostics: Seq<Diagnostic>,
    color: bool,
)
    requires
        is_plain(text),
        is_plain(path),
        forall|i: int|
            0 <= i < diagnostics.len() ==> {
                &&& valid_report(text, #[trigger] diagnostics[i])
                &&& is_plain_report(diagnostics[i])
                &&& report_wraps_plainly(diagnostics[i])
            },
    ensures
        shows(
            rich_reports(text, path, diagnostics, color),
            rich_reports(text, path, diagnostics, false),
        ),
        is_plain(rich_reports(text, path, diagnostics, false)),
    decreases diagnostics.len(),
{
    if diagnostics.len() == 0 {
        lemma_plain(Seq::empty());
    } else {
        let rest = diagnostics.drop_last();
        assert forall|i: int| 0 <= i < rest.len() implies {
            &&& valid_report(text, #[trigger] rest[i])
            &&& is_plain_report(rest[i])
            &&& report_wraps_plainly(rest[i])
        } by {
            assert(rest[i] == diagnostics[i]);
        }
        lemma_rich_reports(text, path, rest, color);
        assert(valid_report(text, diagnostics[diagnostics.len() - 1]));
        lemma_rich_report(
            rich_reports(text, path, rest, color),
            rich_reports(text, path, rest, false),
            text,
            path,
            diagnostics.last(),
            color,
        );
        lemma_stripped_is_plain(rich_reports(text, path, diagnostics, color));
    }
}

} // verus!
