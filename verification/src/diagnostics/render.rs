//! Shows reports as text.

use super::escapes::{is_plain, shows};
use super::laws::lemma_rich_reports;
use super::lines::{
    char_index, display_position, line_text, shown_line, span_location, valid_span, SourceLines,
};
use super::report::{Diagnostic, RelatedSpan, Severity, Span};
use super::width::{
    columns, display_width, expand_tabs, expanded, marker, shown_prefix, visual_column,
    visual_highlight_marker,
};
use crate::text::{decimal, push_decimal};
use vstd::prelude::*;
use vstd::utf8::encode_utf8;

verus! {

const DIAGNOSTIC_WIDTH: usize = 100;

const RICH_BRANCH: &'static str = "  •";

const RICH_STEM: &'static str = "  │";

const RICH_SEPARATOR: &'static str = "·";

const ANSI_RESET: &'static str = "\x1b[0m";

const ANSI_BOLD_RED: &'static str = "\x1b[1;31m";

const ANSI_BOLD_YELLOW: &'static str = "\x1b[1;33m";

const ANSI_CYAN: &'static str = "\x1b[36m";

const ANSI_DIM: &'static str = "\x1b[2m";

// Plain text

pub open spec fn severity_word(severity: Severity) -> Seq<char> {
    match severity {
        Severity::Error => "error"@,
        Severity::Warning => "warning"@,
    }
}

/// A span as two offsets with dots between them.
pub open spec fn span_text(span: Span) -> Seq<char> {
    decimal(span.start as nat) + ".."@ + decimal(span.end as nat)
}

pub open spec fn plain_note(related: RelatedSpan) -> Seq<char> {
    "  note at "@ + span_text(related.span) + ": "@ + related.message@ + "\n"@
}

pub open spec fn plain_notes(related: Seq<RelatedSpan>) -> Seq<char>
    decreases related.len(),
{
    if related.len() == 0 {
        Seq::empty()
    } else {
        plain_notes(related.drop_last()) + plain_note(related.last())
    }
}

pub open spec fn plain_report(diagnostic: Diagnostic) -> Seq<char> {
    severity_word(diagnostic.severity) + "["@ + diagnostic.code@ + "] at "@ + span_text(
        diagnostic.span,
    ) + ": "@ + diagnostic.message@ + "\n"@ + plain_notes(diagnostic.related@)
}

/// One line for every report, followed by one for every related place.
pub open spec fn plain_reports(diagnostics: Seq<Diagnostic>) -> Seq<char>
    decreases diagnostics.len(),
{
    if diagnostics.len() == 0 {
        Seq::empty()
    } else {
        plain_reports(diagnostics.drop_last()) + plain_report(diagnostics.last())
    }
}

fn push_span(output: &mut String, span: Span)
    ensures
        final(output)@ == old(output)@ + span_text(span),
{
    push_decimal(output, span.start as u64);
    output.append("..");
    push_decimal(output, span.end as u64);
    assert(output@ =~= old(output)@ + span_text(span));
}

fn push_plain_report(output: &mut String, diagnostic: &Diagnostic)
    ensures
        final(output)@ == old(output)@ + plain_report(*diagnostic),
{
    let severity = match diagnostic.severity {
        Severity::Error => "error",
        Severity::Warning => "warning",
    };
    output.append(severity);
    output.append("[");
    output.append(diagnostic.code.as_str());
    output.append("] at ");
    push_span(output, diagnostic.span);
    output.append(": ");
    output.append(diagnostic.message.as_str());
    output.append("\n");
    let ghost header = output@;
    let mut index: usize = 0;
    assert(diagnostic.related@.take(0) =~= Seq::empty());
    assert(output@ =~= header + plain_notes(diagnostic.related@.take(0)));
    while index < diagnostic.related.len()
        invariant
            index <= diagnostic.related.len(),
            output@ == header + plain_notes(diagnostic.related@.take(index as int)),
        decreases diagnostic.related.len() - index,
    {
        let related = &diagnostic.related[index];
        let ghost taken = diagnostic.related@.take(index + 1);
        assert(taken.drop_last() =~= diagnostic.related@.take(index as int));
        output.append("  note at ");
        push_span(output, related.span);
        output.append(": ");
        output.append(related.message.as_str());
        output.append("\n");
        assert(output@ =~= header + plain_notes(taken));
        index += 1;
    }
    assert(diagnostic.related@.take(index as int) =~= diagnostic.related@);
    assert(output@ =~= old(output)@ + plain_report(*diagnostic));
}

/// Shows reports as plain text.
pub fn format_text(diagnostics: &Vec<Diagnostic>) -> (output: String)
    ensures
        output@ == plain_reports(diagnostics@),
{
    let mut output = String::new();
    let mut index: usize = 0;
    assert(diagnostics@.take(0) =~= Seq::empty());
    while index < diagnostics.len()
        invariant
            index <= diagnostics.len(),
            output@ == plain_reports(diagnostics@.take(index as int)),
        decreases diagnostics.len() - index,
    {
        assert(diagnostics@.take(index + 1).drop_last() =~= diagnostics@.take(index as int));
        push_plain_report(&mut output, &diagnostics[index]);
        index += 1;
    }
    assert(diagnostics@.take(index as int) =~= diagnostics@);
    output
}

// Colored text

/// Text in a color, where colors are on.
pub open spec fn paint(text: Seq<char>, ansi: Seq<char>, color: bool) -> Seq<char> {
    if color {
        ansi + text + "\x1b[0m"@
    } else {
        text
    }
}

pub fn painted(text: &str, ansi: &str, color: bool) -> (output: String)
    ensures
        output@ == paint(text@, ansi@, color),
{
    if color {
        let mut output = String::new();
        output.append(ansi);
        output.append(text);
        output.append(ANSI_RESET);
        assert(output@ =~= paint(text@, ansi@, color));
        output
    } else {
        text.to_owned()
    }
}

pub open spec fn severity_ansi(severity: Severity) -> Seq<char> {
    match severity {
        Severity::Error => "\x1b[1;31m"@,
        Severity::Warning => "\x1b[1;33m"@,
    }
}

pub fn severity_color(severity: Severity) -> (ansi: &'static str)
    ensures
        ansi@ == severity_ansi(severity),
{
    match severity {
        Severity::Error => ANSI_BOLD_RED,
        Severity::Warning => ANSI_BOLD_YELLOW,
    }
}

/// Whether the end of a text lies between quotes.
pub open spec fn in_quotes(text: Seq<char>) -> bool
    decreases text.len(),
{
    if text.len() == 0 {
        false
    } else if text.last() == '\'' {
        !in_quotes(text.drop_last())
    } else {
        in_quotes(text.drop_last())
    }
}

/// The text with a color switched on before every opening quote and off before
/// every closing one.
pub open spec fn quotes_painted(text: Seq<char>) -> Seq<char>
    decreases text.len(),
{
    if text.len() == 0 {
        Seq::empty()
    } else {
        let before = text.drop_last();
        let switched = if text.last() == '\'' {
            quotes_painted(before) + if in_quotes(before) {
                "\x1b[0m"@
            } else {
                "\x1b[36m"@
            }
        } else {
            quotes_painted(before)
        };
        switched.push(text.last())
    }
}

/// Text whose quoted parts are in a color, where colors are on.
pub open spec fn paint_quoted(text: Seq<char>, color: bool) -> Seq<char> {
    if !color {
        text
    } else if in_quotes(text) {
        quotes_painted(text) + "\x1b[0m"@
    } else {
        quotes_painted(text)
    }
}

pub fn paint_quoted_text(text: &str, color: bool) -> (output: String)
    ensures
        output@ == paint_quoted(text@, color),
{
    if !color {
        return text.to_owned();
    }
    let mut output = String::new();
    let mut quoted = false;
    for character in iter: text.chars()
        invariant
            iter.seq() == text@,
            output@ == quotes_painted(text@.take(iter.index())),
            quoted == in_quotes(text@.take(iter.index())),
    {
        assert(text@.take(iter.index() + 1).drop_last() =~= text@.take(iter.index()));
        if character == '\'' {
            output.append(if quoted { ANSI_RESET } else { ANSI_CYAN });
            quoted = !quoted;
        }
        output.push(character);
    }
    assert(text@.take(text@.len() as int) =~= text@);
    if quoted {
        output.append(ANSI_RESET);
    }
    output
}

// Rich text

/// The lines of a text that is broken so that they fit a width.
pub uninterp spec fn wrapped_lines(text: Seq<char>, width: usize) -> Seq<Seq<char>>;

/// The texts of a list.
pub open spec fn texts(list: Seq<String>) -> Seq<Seq<char>> {
    list.map_values(|text: String| text@)
}

/// Calls `textwrap::wrap`, whose result depends on the text and the width
/// alone. The lines are parts of the text, with a hyphen behind where a word was
/// divided, so they hold no other characters.
#[verifier::external_body]
fn wrap(text: &str, width: usize) -> (lines: Vec<String>)
    ensures
        texts(lines@) == wrapped_lines(text@, width),
        forall|i: int, j: int|
            0 <= i < lines@.len() && 0 <= j < lines@[i]@.len() ==> text@.contains(
                #[trigger] lines@[i]@[j],
            ) || lines@[i]@[j] == '-',
{
    textwrap::wrap(text, width).into_iter().map(|line| line.into_owned()).collect()
}

pub open spec fn branch_text(color: bool) -> Seq<char> {
    paint("  •"@, "\x1b[2m"@, color)
}

pub open spec fn stem_text(color: bool) -> Seq<char> {
    paint("  │"@, "\x1b[2m"@, color)
}

/// The room that is left for messages beside the gutter.
pub open spec fn message_width() -> nat {
    if "  •"@.len() + 1 <= 100 {
        (100 - ("  •"@.len() + 1)) as nat
    } else {
        0
    }
}

/// The output followed by the lines of a message. The first starts a branch,
/// the others go along the stem.
pub open spec fn message_lines(output: Seq<char>, lines: Seq<Seq<char>>, color: bool) -> Seq<char>
    decreases lines.len(),
{
    if lines.len() == 0 {
        output
    } else {
        let gutter = if lines.len() == 1 {
            branch_text(color)
        } else {
            stem_text(color)
        };
        let line = lines.last();
        let before = message_lines(output, lines.drop_last(), color) + gutter;
        if line.len() == 0 {
            before + "\n"@
        } else {
            before + " "@ + paint_quoted(line, color) + "\n"@
        }
    }
}

/// The output followed by the lines of what was being done.
pub open spec fn trivia_lines(output: Seq<char>, lines: Seq<Seq<char>>, color: bool) -> Seq<char>
    decreases lines.len(),
{
    if lines.len() == 0 {
        output
    } else {
        trivia_lines(output, lines.drop_last(), color) + stem_text(color) + "   "@ + paint_quoted(
            lines.last(),
            color,
        ) + "\n"@
    }
}

/// The output followed by all that was being done.
pub open spec fn all_trivia(output: Seq<char>, trivia: Seq<String>, color: bool) -> Seq<char>
    decreases trivia.len(),
{
    if trivia.len() == 0 {
        output
    } else {
        trivia_lines(
            all_trivia(output, trivia.drop_last(), color),
            wrapped_lines(trivia.last()@, trivia_width() as usize),
            color,
        )
    }
}

/// The room that is left for what was being done.
pub open spec fn trivia_width() -> nat {
    if message_width() >= 2 {
        (message_width() - 2) as nat
    } else {
        0
    }
}

/// The columns of a line that a span covers.
pub open spec fn highlighted(text: Seq<char>, span: Span) -> (u32, u32) {
    let start = char_index(text, span.start as int);
    let end = char_index(text, span.end as int);
    let line = shown_line(text, start);
    let (start_line, start_column) = display_position(text, start);
    let (end_line, end_column) = display_position(text, end);
    (
        columns(shown_prefix(line, start_column as u32)) as u32,
        if start_line == end_line {
            columns(shown_prefix(line, end_column as u32)) as u32
        } else {
            line_width(line)
        },
    )
}

/// The number of columns that a line takes.
pub open spec fn line_width(line: Seq<char>) -> u32 {
    columns(shown_prefix(line, line.len() as u32)) as u32
}

/// The output followed by the first line of a span with a marker below what it
/// covers.
pub open spec fn excerpt(
    output: Seq<char>,
    text: Seq<char>,
    span: Span,
    severity: Severity,
    color: bool,
) -> Seq<char> {
    let line = expanded(shown_line(text, char_index(text, span.start as int)));
    let (start, end) = highlighted(text, span);
    let stem = stem_text(color);
    let source = if line.len() == 0 {
        output + stem + "\n"@
    } else {
        output + stem + "   "@ + line + "\n"@
    };
    source + stem + "   "@ + paint(
        marker(start as nat, end as nat, line_width(line) as nat),
        severity_ansi(severity),
        color,
    ) + "\n"@
}

/// The output followed by a message with the place that it is about.
pub open spec fn message_block(
    output: Seq<char>,
    text: Seq<char>,
    message: Seq<char>,
    span: Span,
    severity: Severity,
    color: bool,
) -> Seq<char> {
    let lines = wrapped_lines(message, message_width() as usize);
    excerpt(
        message_lines(output, lines, color) + stem_text(color) + "\n"@,
        text,
        span,
        severity,
        color,
    )
}

/// The output followed by the messages on related places.
pub open spec fn related_blocks(
    output: Seq<char>,
    text: Seq<char>,
    related: Seq<RelatedSpan>,
    severity: Severity,
    color: bool,
) -> Seq<char>
    decreases related.len(),
{
    if related.len() == 0 {
        output
    } else {
        message_block(
            related_blocks(output, text, related.drop_last(), severity, color) + stem_text(color)
                + "\n"@,
            text,
            related.last().message@,
            related.last().span,
            severity,
            color,
        )
    }
}

pub open spec fn severity_title(severity: Severity) -> Seq<char> {
    match severity {
        Severity::Error => "Error!"@,
        Severity::Warning => "Warning!"@,
    }
}

/// The place of a report: the path, the line and the character, counted from
/// one.
pub open spec fn location_text(text: Seq<char>, path: Seq<char>, span: Span) -> Seq<char> {
    let (line, column) = display_position(text, char_index(text, span.start as int));
    path + ":"@ + decimal(line + 1) + ":"@ + decimal((column + 1) as nat)
}

/// The output followed by the title of a report.
pub open spec fn title_line(
    output: Seq<char>,
    text: Seq<char>,
    path: Seq<char>,
    diagnostic: Diagnostic,
    color: bool,
) -> Seq<char> {
    let separator = paint("·"@, "\x1b[2m"@, color);
    output + paint(
        severity_title(diagnostic.severity),
        severity_ansi(diagnostic.severity),
        color,
    ) + " "@ + separator + " ["@ + paint(diagnostic.code@, "\x1b[1;33m"@, color) + "] "@ + separator
        + " "@ + paint(location_text(text, path, diagnostic.span), "\x1b[1;33m"@, color) + "\n"@
}

/// The output followed by what was being done, if anything.
pub open spec fn trivia_block(output: Seq<char>, trivia: Seq<String>, color: bool) -> Seq<char> {
    if trivia.len() == 0 {
        output
    } else {
        all_trivia(
            output + branch_text(color) + " while\n"@ + stem_text(color) + "\n"@,
            trivia,
            color,
        )
    }
}

/// The output followed by a report.
pub open spec fn rich_report(
    output: Seq<char>,
    text: Seq<char>,
    path: Seq<char>,
    diagnostic: Diagnostic,
    color: bool,
) -> Seq<char> {
    let title = title_line(output, text, path, diagnostic, color) + branch_text(color) + "\n"@
        + stem_text(color) + "\n"@;
    let message = message_block(
        title,
        text,
        diagnostic.message@,
        diagnostic.span,
        diagnostic.severity,
        color,
    );
    let related = related_blocks(message, text, diagnostic.related@, diagnostic.severity, color);
    trivia_block(related, diagnostic.trivia@, color) + branch_text(color) + "\n\n"@
}

pub open spec fn rich_reports(
    text: Seq<char>,
    path: Seq<char>,
    diagnostics: Seq<Diagnostic>,
    color: bool,
) -> Seq<char>
    decreases diagnostics.len(),
{
    if diagnostics.len() == 0 {
        Seq::empty()
    } else {
        rich_report(
            rich_reports(text, path, diagnostics.drop_last(), color),
            text,
            path,
            diagnostics.last(),
            color,
        )
    }
}

/// A text that switches no colors is broken into lines that switch none.
pub open spec fn wraps_plainly(text: Seq<char>, width: usize) -> bool {
    is_plain(text) ==> are_plain(wrapped_lines(text, width))
}

/// The texts switch no colors.
pub open spec fn are_plain(texts: Seq<Seq<char>>) -> bool {
    forall|i: int| 0 <= i < texts.len() ==> is_plain(#[trigger] texts[i])
}

proof fn lemma_wraps_plainly(text: Seq<char>, width: usize, lines: Seq<String>)
    requires
        texts(lines) == wrapped_lines(text, width),
        forall|i: int, j: int|
            0 <= i < lines.len() && 0 <= j < lines[i]@.len() ==> text.contains(
                #[trigger] lines[i]@[j],
            ) || lines[i]@[j] == '-',
    ensures
        wraps_plainly(text, width),
{
    let all = texts(lines);
    assert forall|i: int| 0 <= i < all.len() && is_plain(text) implies is_plain(
        #[trigger] all[i],
    ) by {
        if all[i].contains('\x1b') {
            let j = choose|j: int| 0 <= j < all[i].len() && all[i][j] == '\x1b';
            assert(lines[i]@[j] == '\x1b');
        }
    }
}

/// No text of a report switches colors.
pub open spec fn is_plain_report(diagnostic: Diagnostic) -> bool {
    &&& is_plain(diagnostic.code@)
    &&& is_plain(diagnostic.message@)
    &&& forall|i: int|
        0 <= i < diagnostic.related@.len() ==> is_plain(
            (#[trigger] diagnostic.related@[i]).message@,
        )
    &&& forall|i: int|
        0 <= i < diagnostic.trivia@.len() ==> is_plain((#[trigger] diagnostic.trivia@[i])@)
}

/// All that a report is broken into keeps switching no colors.
pub open spec fn report_wraps_plainly(diagnostic: Diagnostic) -> bool {
    &&& wraps_plainly(diagnostic.message@, message_width() as usize)
    &&& forall|i: int|
        0 <= i < diagnostic.related@.len() ==> wraps_plainly(
            (#[trigger] diagnostic.related@[i]).message@,
            message_width() as usize,
        )
    &&& forall|i: int|
        0 <= i < diagnostic.trivia@.len() ==> wraps_plainly(
            (#[trigger] diagnostic.trivia@[i])@,
            trivia_width() as usize,
        )
}

/// All offsets of a report are those of characters of the text.
pub open spec fn valid_report(text: Seq<char>, diagnostic: Diagnostic) -> bool {
    &&& valid_span(text, diagnostic.span)
    &&& forall|i: int|
        0 <= i < diagnostic.related@.len() ==> valid_span(
            text,
            (#[trigger] diagnostic.related@[i]).span,
        )
}

/// Shows a message that has been broken into lines.
pub fn push_message_lines(output: &mut String, lines: &Vec<String>, color: bool)
    ensures
        final(output)@ == message_lines(old(output)@, texts(lines@), color),
{
    let branch = painted(RICH_BRANCH, ANSI_DIM, color);
    let stem = painted(RICH_STEM, ANSI_DIM, color);
    let ghost all = texts(lines@);
    let mut index: usize = 0;
    assert(all.take(0) =~= Seq::empty());
    while index < lines.len()
        invariant
            index <= lines.len(),
            all == texts(lines@),
            branch@ == branch_text(color),
            stem@ == stem_text(color),
            output@ == message_lines(old(output)@, all.take(index as int), color),
        decreases lines.len() - index,
    {
        let line = &lines[index];
        assert(all.take(index + 1).drop_last() =~= all.take(index as int));
        assert(all.take(index + 1).last() == line@);
        if index == 0 {
            output.append(branch.as_str());
        } else {
            output.append(stem.as_str());
        }
        if line.as_str().is_empty() {
            output.append("\n");
        } else {
            output.append(" ");
            output.append(paint_quoted_text(line.as_str(), color).as_str());
            output.append("\n");
        }
        index += 1;
    }
    assert(all.take(index as int) =~= all);
}

/// Shows what was being done, broken into lines.
pub fn push_trivia_lines(output: &mut String, lines: &Vec<String>, color: bool)
    ensures
        final(output)@ == trivia_lines(old(output)@, texts(lines@), color),
{
    let stem = painted(RICH_STEM, ANSI_DIM, color);
    let ghost all = texts(lines@);
    let mut index: usize = 0;
    assert(all.take(0) =~= Seq::empty());
    while index < lines.len()
        invariant
            index <= lines.len(),
            all == texts(lines@),
            stem@ == stem_text(color),
            output@ == trivia_lines(old(output)@, all.take(index as int), color),
        decreases lines.len() - index,
    {
        assert(all.take(index + 1).drop_last() =~= all.take(index as int));
        output.append(stem.as_str());
        output.append("   ");
        output.append(paint_quoted_text(lines[index].as_str(), color).as_str());
        output.append("\n");
        index += 1;
    }
    assert(all.take(index as int) =~= all);
}

/// The room that is left for messages beside the gutter.
fn width_of_messages() -> (width: usize)
    ensures
        width == message_width(),
{
    let gutter: usize = RICH_BRANCH.unicode_len();
    if gutter < DIAGNOSTIC_WIDTH {
        DIAGNOSTIC_WIDTH - gutter - 1
    } else {
        0
    }
}

/// Shows the first line of a span with a marker below what it covers.
pub fn render_rich_source(
    output: &mut String,
    lines: &SourceLines,
    content: &str,
    span: Span,
    severity: Severity,
    color: bool,
)
    requires
        lines@ == content@,
        encode_utf8(content@).len() < u32::MAX,
        valid_span(content@, span),
    ensures
        final(output)@ == excerpt(old(output)@, content@, span, severity, color),
{
    let Some(((start_line, start_column), (end_line, end_column))) = span_location(
        lines,
        content,
        span,
    ) else {
        return;
    };
    let ghost index = char_index(content@, span.start as int);
    assert(super::lines::stands_at(content@, index, span.start as int));
    let Some(original) = line_text(lines, content, start_line, Ghost(index)) else {
        return;
    };
    let source_line = expand_tabs(original);
    let start: u32 = visual_column(original, start_column);
    let end: u32 = if start_line == end_line {
        visual_column(original, end_column)
    } else {
        display_width(original)
    };
    let marker = visual_highlight_marker(start, end, display_width(source_line.as_str()));
    let marker = painted(marker.as_str(), severity_color(severity), color);
    let stem = painted(RICH_STEM, ANSI_DIM, color);
    output.append(stem.as_str());
    if source_line.as_str().is_empty() {
        output.append("\n");
    } else {
        output.append("   ");
        output.append(source_line.as_str());
        output.append("\n");
    }
    output.append(stem.as_str());
    output.append("   ");
    output.append(marker.as_str());
    output.append("\n");
}

/// Shows a message with the place that it is about.
fn push_message_block(
    output: &mut String,
    lines: &SourceLines,
    content: &str,
    message: &String,
    span: Span,
    severity: Severity,
    color: bool,
)
    requires
        lines@ == content@,
        encode_utf8(content@).len() < u32::MAX,
        valid_span(content@, span),
    ensures
        final(output)@ == message_block(
            old(output)@,
            content@,
            message@,
            span,
            severity,
            color,
        ),
        wraps_plainly(message@, message_width() as usize),
{
    let wrapped = wrap(message.as_str(), width_of_messages());
    proof {
        lemma_wraps_plainly(message@, message_width() as usize, wrapped@);
    }
    push_message_lines(output, &wrapped, color);
    output.append(painted(RICH_STEM, ANSI_DIM, color).as_str());
    output.append("\n");
    render_rich_source(output, lines, content, span, severity, color);
}

fn push_title(
    output: &mut String,
    lines: &SourceLines,
    content: &str,
    path: &str,
    diagnostic: &Diagnostic,
    color: bool,
)
    requires
        lines@ == content@,
        encode_utf8(content@).len() < u32::MAX,
        valid_span(content@, diagnostic.span),
    ensures
        final(output)@ == title_line(old(output)@, content@, path@, *diagnostic, color),
{
    let title = match diagnostic.severity {
        Severity::Error => "Error!",
        Severity::Warning => "Warning!",
    };
    let severity = painted(title, severity_color(diagnostic.severity), color);
    let separator = painted(RICH_SEPARATOR, ANSI_DIM, color);
    let code = painted(diagnostic.code.as_str(), ANSI_BOLD_YELLOW, color);
    let mut location = path.to_owned();
    if let Some(((line, column), _)) = span_location(lines, content, diagnostic.span) {
        location.append(":");
        push_decimal(&mut location, line as u64 + 1);
        location.append(":");
        push_decimal(&mut location, column as u64 + 1);
    }
    assert(location@ =~= location_text(content@, path@, diagnostic.span));
    let location = painted(location.as_str(), ANSI_BOLD_YELLOW, color);
    output.append(severity.as_str());
    output.append(" ");
    output.append(separator.as_str());
    output.append(" [");
    output.append(code.as_str());
    output.append("] ");
    output.append(separator.as_str());
    output.append(" ");
    output.append(location.as_str());
    output.append("\n");
}

fn push_related(
    output: &mut String,
    lines: &SourceLines,
    content: &str,
    diagnostic: &Diagnostic,
    color: bool,
)
    requires
        lines@ == content@,
        encode_utf8(content@).len() < u32::MAX,
        valid_report(content@, *diagnostic),
    ensures
        final(output)@ == related_blocks(
            old(output)@,
            content@,
            diagnostic.related@,
            diagnostic.severity,
            color,
        ),
        forall|i: int|
            0 <= i < diagnostic.related@.len() ==> wraps_plainly(
                (#[trigger] diagnostic.related@[i]).message@,
                message_width() as usize,
            ),
{
    let ghost all = diagnostic.related@;
    let mut index: usize = 0;
    assert(all.take(0) =~= Seq::empty());
    while index < diagnostic.related.len()
        invariant
            index <= diagnostic.related.len(),
            all == diagnostic.related@,
            lines@ == content@,
            encode_utf8(content@).len() < u32::MAX,
            valid_report(content@, *diagnostic),
            forall|i: int|
                0 <= i < index ==> wraps_plainly(
                    (#[trigger] all[i]).message@,
                    message_width() as usize,
                ),
            output@ == related_blocks(
                old(output)@,
                content@,
                all.take(index as int),
                diagnostic.severity,
                color,
            ),
        decreases diagnostic.related.len() - index,
    {
        let related = &diagnostic.related[index];
        assert(all.take(index + 1).drop_last() =~= all.take(index as int));
        assert(valid_span(content@, diagnostic.related@[index as int].span));
        output.append(painted(RICH_STEM, ANSI_DIM, color).as_str());
        output.append("\n");
        push_message_block(
            output,
            lines,
            content,
            &related.message,
            related.span,
            diagnostic.severity,
            color,
        );
        index += 1;
    }
    assert(all.take(index as int) =~= all);
}

fn push_trivia(output: &mut String, trivia: &Vec<String>, color: bool)
    ensures
        final(output)@ == trivia_block(old(output)@, trivia@, color),
        forall|i: int|
            0 <= i < trivia@.len() ==> wraps_plainly(
                (#[trigger] trivia@[i])@,
                trivia_width() as usize,
            ),
{
    if trivia.len() == 0 {
        return;
    }
    output.append(painted(RICH_BRANCH, ANSI_DIM, color).as_str());
    output.append(" while\n");
    output.append(painted(RICH_STEM, ANSI_DIM, color).as_str());
    output.append("\n");
    let ghost header = output@;
    let messages: usize = width_of_messages();
    let width: usize = if messages >= 2 {
        messages - 2
    } else {
        0
    };
    let mut index: usize = 0;
    assert(trivia@.take(0) =~= Seq::empty());
    while index < trivia.len()
        invariant
            index <= trivia.len(),
            width == trivia_width(),
            forall|i: int| 0 <= i < index ==> wraps_plainly((#[trigger] trivia@[i])@, width),
            output@ == all_trivia(header, trivia@.take(index as int), color),
        decreases trivia.len() - index,
    {
        assert(trivia@.take(index + 1).drop_last() =~= trivia@.take(index as int));
        let wrapped = wrap(trivia[index].as_str(), width);
        proof {
            lemma_wraps_plainly(trivia@[index as int]@, width, wrapped@);
        }
        push_trivia_lines(output, &wrapped, color);
        index += 1;
    }
    assert(trivia@.take(index as int) =~= trivia@);
}

/// Shows reports with the source lines that they are about.
pub fn format_rich_with_path(
    diagnostics: &Vec<Diagnostic>,
    content: &str,
    lines: &SourceLines,
    path: &str,
    color: bool,
) -> (output: String)
    requires
        lines@ == content@,
        encode_utf8(content@).len() < u32::MAX,
        forall|i: int|
            0 <= i < diagnostics@.len() ==> valid_report(content@, #[trigger] diagnostics@[i]),
    ensures
        output@ == rich_reports(content@, path@, diagnostics@, color),
        is_plain(content@) && is_plain(path@) && (forall|i: int|
            0 <= i < diagnostics@.len() ==> is_plain_report(#[trigger] diagnostics@[i])) ==> {
            let plain = rich_reports(content@, path@, diagnostics@, false);
            is_plain(plain) && shows(output@, plain)
        },
{
    let mut output = String::new();
    let branch = painted(RICH_BRANCH, ANSI_DIM, color);
    let stem = painted(RICH_STEM, ANSI_DIM, color);
    let mut index: usize = 0;
    assert(diagnostics@.take(0) =~= Seq::empty());
    while index < diagnostics.len()
        invariant
            index <= diagnostics.len(),
            branch@ == branch_text(color),
            stem@ == stem_text(color),
            lines@ == content@,
            encode_utf8(content@).len() < u32::MAX,
            forall|i: int|
                0 <= i < diagnostics@.len() ==> valid_report(content@, #[trigger] diagnostics@[i]),
            output@ == rich_reports(content@, path@, diagnostics@.take(index as int), color),
            forall|i: int|
                0 <= i < index ==> report_wraps_plainly(#[trigger] diagnostics@[i]),
        decreases diagnostics.len() - index,
    {
        let diagnostic = &diagnostics[index];
        assert(diagnostics@.take(index + 1).drop_last() =~= diagnostics@.take(index as int));
        assert(valid_report(content@, diagnostics@[index as int]));
        push_title(&mut output, lines, content, path, diagnostic, color);
        output.append(branch.as_str());
        output.append("\n");
        output.append(stem.as_str());
        output.append("\n");
        push_message_block(
            &mut output,
            lines,
            content,
            &diagnostic.message,
            diagnostic.span,
            diagnostic.severity,
            color,
        );
        push_related(&mut output, lines, content, diagnostic, color);
        push_trivia(&mut output, &diagnostic.trivia, color);
        output.append(branch.as_str());
        output.append("\n\n");
        index += 1;
    }
    assert(diagnostics@.take(index as int) =~= diagnostics@);
    proof {
        if is_plain(content@) && is_plain(path@) && (forall|i: int|
            0 <= i < diagnostics@.len() ==> is_plain_report(#[trigger] diagnostics@[i])) {
            lemma_rich_reports(content@, path@, diagnostics@, color);
        }
    }
    output
}

} // verus!
