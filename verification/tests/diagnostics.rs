use compiler_frontend::diagnostics::lines::{
    offset_to_display_position, offset_to_lsp_position, span_location, DisplayPosition, Position,
    PositionEncoding, SourceLines,
};
use compiler_frontend::diagnostics::lsp::to_lsp_diagnostic;
use compiler_frontend::diagnostics::render::{
    format_rich_with_path, format_text, paint_quoted_text, painted, push_message_lines,
    push_trivia_lines, render_rich_source, severity_color,
};
use compiler_frontend::diagnostics::report::{Diagnostic, RelatedSpan, Severity, Span};
use compiler_frontend::diagnostics::width::{
    display_width, expand_tabs, visual_column, visual_highlight_marker,
};

fn span(start: u32, end: u32) -> Span {
    Span { start, end }
}

fn diagnostic(message: &str, start: u32, end: u32) -> Diagnostic {
    Diagnostic {
        code: "E1".to_string(),
        severity: Severity::Error,
        message: message.to_string(),
        span: span(start, end),
        related: vec![],
        trivia: vec![],
        source: "checking".to_string(),
    }
}

fn related(message: &str, start: u32, end: u32) -> RelatedSpan {
    RelatedSpan { span: span(start, end), message: message.to_string() }
}

#[test]
fn plain_text() {
    let mut first = diagnostic("Broken", 3, 7);
    first.related.push(related("see here", 0, 2));
    let mut second = diagnostic("Unused", 10, 11);
    second.severity = Severity::Warning;
    second.code = "W2".to_string();
    assert_eq!(
        format_text(&vec![first, second]),
        "error[E1] at 3..7: Broken\n  note at 0..2: see here\nwarning[W2] at 10..11: Unused\n"
    );
    assert_eq!(format_text(&vec![]), "");
}

#[test]
fn tabs_reach_to_the_next_stop() {
    assert_eq!(expand_tabs("\tx"), "    x");
    assert_eq!(expand_tabs("ab\tx\t"), "ab  x   ");
    assert_eq!(expand_tabs("abcd\tx"), "abcd    x");
    assert_eq!(expand_tabs(""), "");
}

#[test]
fn wide_characters_take_two_columns() {
    assert_eq!(expand_tabs("表\tx"), "表  x");
    assert_eq!(display_width("表x"), 3);
    assert_eq!(display_width("e\u{301}"), 1);
    assert_eq!(display_width("\u{7}"), 0);
    assert_eq!(visual_column("表\tx", 1), 2);
    assert_eq!(visual_column("表\tx", 2), 4);
    assert_eq!(visual_column("表\tx", 99), 5);
}

#[test]
fn expanding_tabs_keeps_the_width() {
    for line in ["\t\ta", "a\tb\tc", "表\t表", "", "abc"] {
        assert_eq!(display_width(&expand_tabs(line)), display_width(line));
    }
}

#[test]
fn expanding_tabs_changes_nothing_else() {
    for line in ["\t\ta", "a b\tb\tc", "表\t表", "", "abc d"] {
        let expanded = expand_tabs(line);
        assert!(!expanded.contains('\t'));
        assert_eq!(expanded.replace(' ', ""), line.replace([' ', '\t'], ""));
        if !line.contains('\t') {
            assert_eq!(expanded, line);
        }
    }
}

#[test]
fn columns_grow_along_a_line() {
    for line in ["\t\ta", "a\tb\tc", "表\t表", "", "e\u{301}x"] {
        let count = line.chars().count() as u32;
        assert_eq!(visual_column(line, 0), 0);
        for index in 0..count {
            assert!(visual_column(line, index) <= visual_column(line, index + 1));
        }
        assert_eq!(visual_column(line, count), display_width(line));
        assert_eq!(visual_column(line, count + 7), display_width(line));
    }
}

#[test]
fn printable_characters_take_one_column() {
    let line: String = (' '..='~').collect();
    assert_eq!(display_width(&line), 95);
    assert_eq!(visual_column(&line, 17), 17);
}

#[test]
fn tabs_always_advance() {
    for line in ["", "a", "abc", "abcd", "表", "\t", "表表x"] {
        let before = display_width(line);
        let after = display_width(&format!("{line}\t"));
        assert_eq!(after % 4, 0);
        assert!(before < after && after <= before + 4);
    }
}

#[test]
fn markers() {
    assert_eq!(visual_highlight_marker(2, 5, 10), "  ╰──");
    assert_eq!(visual_highlight_marker(2, 3, 10), "  ╰");
    assert_eq!(visual_highlight_marker(2, 2, 10), "  ╰");
    assert_eq!(visual_highlight_marker(5, 2, 10), "     ╰");
    assert_eq!(visual_highlight_marker(2, 50, 4), "  ╰─");
    assert_eq!(visual_highlight_marker(50, 60, 4), "    ╰");
}

#[test]
fn paint() {
    assert_eq!(painted("x", "\x1b[2m", true), "\x1b[2mx\x1b[0m");
    assert_eq!(painted("x", "\x1b[2m", false), "x");
    assert_eq!(severity_color(Severity::Error), "\x1b[1;31m");
    assert_eq!(severity_color(Severity::Warning), "\x1b[1;33m");
    assert_eq!(paint_quoted_text("a 'b' c", true), "a \x1b[36m'b\x1b[0m' c");
    assert_eq!(paint_quoted_text("a 'b", true), "a \x1b[36m'b\x1b[0m");
    assert_eq!(paint_quoted_text("a 'b' c", false), "a 'b' c");
}

fn strip(text: &str) -> String {
    let mut text = text.to_string();
    for code in ["\x1b[0m", "\x1b[1;31m", "\x1b[1;33m", "\x1b[36m", "\x1b[2m"] {
        text = text.replace(code, "");
    }
    text
}

#[test]
fn painted_quotes_hold_the_text() {
    for text in ["", "plain", "'", "''", "a 'b' c", "'a' and 'b"] {
        let painted = paint_quoted_text(text, true);
        assert_eq!(strip(&painted), text);
        let quotes = text.matches('\'').count();
        assert_eq!(painted.matches("\x1b[36m").count(), (quotes + 1) / 2);
        assert_eq!(painted.matches("\x1b[0m").count(), (quotes + 1) / 2);
    }
}

#[test]
fn colored_reports_show_the_plain_ones() {
    let content = "module Main where\n\tvalue = 'x'\n";
    let lines = SourceLines::new(content);
    let reports = || {
        let message = vec!["long 'quoted' words"; 9].join(" ");
        let mut first = diagnostic(&message, 27, 30);
        first.related.push(related("declared 'here'", 19, 24));
        first.trivia.push("checking 'value'".to_string());
        let mut second = diagnostic("Unused", 0, 6);
        second.severity = Severity::Warning;
        vec![first, second]
    };
    let colored = format_rich_with_path(&reports(), content, &lines, "Main.purs", true);
    let plain = format_rich_with_path(&reports(), content, &lines, "Main.purs", false);
    assert_ne!(colored, plain);
    assert_eq!(strip(&colored), plain);
    assert!(!plain.contains('\x1b'));
}

#[test]
fn plain_reports_follow_each_other() {
    let first = || {
        let mut report = diagnostic("Broken", 3, 7);
        report.related.push(related("see here", 0, 2));
        report
    };
    let second = || diagnostic("Unused", 10, 11);
    let both = format_text(&vec![first(), second()]);
    assert_eq!(both, format_text(&vec![first()]) + &format_text(&vec![second()]));
    assert_eq!(both.matches('\n').count(), 3);
    assert!(both.ends_with('\n'));
}

#[test]
fn display_positions_count_characters() {
    let content = "é\nab表c\n";
    let lines = SourceLines::new(content);
    let position = |offset| offset_to_display_position(&lines, content, offset);
    assert_eq!(position(0), Some(DisplayPosition { line: 0, column: 0 }));
    assert_eq!(position(2), Some(DisplayPosition { line: 0, column: 1 }));
    assert_eq!(position(3), Some(DisplayPosition { line: 1, column: 0 }));
    assert_eq!(position(8), Some(DisplayPosition { line: 1, column: 3 }));
    assert_eq!(position(10), Some(DisplayPosition { line: 2, column: 0 }));
    assert_eq!(span_location(&lines, content, span(0, 8)), Some(((0, 0), (1, 3))));
}

#[test]
fn client_positions_count_code_units() {
    let content = "x\né𝄞表y";
    let lines = SourceLines::new(content);
    let position = |offset, encoding| {
        offset_to_lsp_position(&lines, offset, encoding)
            .map(|Position { line, character }| (line, character))
    };
    assert_eq!(position(11, PositionEncoding::Utf8), Some((1, 9)));
    assert_eq!(position(11, PositionEncoding::Utf16), Some((1, 4)));
    assert_eq!(position(11, PositionEncoding::Utf32), Some((1, 3)));
    assert_eq!(position(12, PositionEncoding::Utf16), Some((1, 5)));
    assert_eq!(position(3, PositionEncoding::Utf8), None);
    assert_eq!(position(13, PositionEncoding::Utf16), None);
}

#[test]
fn client_diagnostics() {
    let content = "a\nbc\n";
    let lines = SourceLines::new(content);
    let uri = "file:///Main.purs".to_string();
    let mut report = diagnostic("Broken", 2, 4);
    report.related.push(related("elsewhere", 0, 1));
    report.related.push(related("nowhere", 0, 99));
    let converted = to_lsp_diagnostic(&report, &lines, &uri, PositionEncoding::Utf16).unwrap();
    assert_eq!(converted.range.start, Position { line: 1, character: 0 });
    assert_eq!(converted.range.end, Position { line: 1, character: 2 });
    assert_eq!(converted.severity, Severity::Error);
    assert_eq!(converted.code, "E1");
    assert_eq!(converted.source, "analyzer/checking");
    assert_eq!(converted.message, "Broken");
    let related = converted.related_information.unwrap();
    assert_eq!(related.len(), 1);
    assert_eq!(related[0].message, "elsewhere");
    assert_eq!(related[0].uri, uri);
    assert_eq!(related[0].range.end, Position { line: 0, character: 1 });

    let report = diagnostic("Broken", 0, 99);
    assert!(to_lsp_diagnostic(&report, &lines, &uri, PositionEncoding::Utf8).is_none());
    let report = diagnostic("Broken", 0, 1);
    let converted = to_lsp_diagnostic(&report, &lines, &uri, PositionEncoding::Utf8).unwrap();
    assert!(converted.related_information.is_none());
}

#[test]
fn excerpts() {
    let content = "first\n\tlet x = 1\r\n\nlast";
    let lines = SourceLines::new(content);
    let excerpt = |start, end| {
        let mut output = String::new();
        render_rich_source(
            &mut output,
            &lines,
            content,
            span(start, end),
            Severity::Warning,
            false,
        );
        output
    };
    assert_eq!(excerpt(11, 12), "  │       let x = 1\n  │           ╰\n");
    assert_eq!(excerpt(7, 20), "  │       let x = 1\n  │       ╰────────\n");
    assert_eq!(excerpt(18, 18), "  │\n  │   ╰\n");
    assert_eq!(excerpt(19, 23), "  │   last\n  │   ╰───\n");
}

#[test]
fn rich_text() {
    let content = "module Main where\nvalue = 'x'\n";
    let lines = SourceLines::new(content);
    let mut report = diagnostic("Expected 'Int'", 26, 29);
    report.related.push(related("declared here", 18, 23));
    report.trivia.push("checking 'value'".to_string());
    assert_eq!(
        format_rich_with_path(&vec![report], content, &lines, "Main.purs", false),
        "Error! · [E1] · Main.purs:2:9\n  •\n  │\n  • Expected 'Int'\n  │\n  │   value = 'x'\n  │           ╰──\n  │\n  • declared here\n  │\n  │   value = 'x'\n  │   ╰────\n  • while\n  │\n  │   checking 'value'\n  •\n\n"
    );
}

#[test]
fn colored_text() {
    let content = "x";
    let lines = SourceLines::new(content);
    let mut report = diagnostic("a 'b'", 0, 1);
    report.severity = Severity::Warning;
    assert_eq!(
        format_rich_with_path(&vec![report], content, &lines, "p", true),
        "\x1b[1;33mWarning!\x1b[0m \x1b[2m·\x1b[0m [\x1b[1;33mE1\x1b[0m] \x1b[2m·\x1b[0m \x1b[1;33mp:1:1\x1b[0m\n\x1b[2m  •\x1b[0m\n\x1b[2m  │\x1b[0m\n\x1b[2m  •\x1b[0m a \x1b[36m'b\x1b[0m'\n\x1b[2m  │\x1b[0m\n\x1b[2m  │\x1b[0m   x\n\x1b[2m  │\x1b[0m   \x1b[1;33m╰\x1b[0m\n\x1b[2m  •\x1b[0m\n\n"
    );
}

#[test]
fn long_messages_are_wrapped() {
    let content = "x";
    let lines = SourceLines::new(content);
    let word = "abcdefghi";
    let message = vec![word; 11].join(" ");
    let report = diagnostic(&message, 0, 1);
    let output = format_rich_with_path(&vec![report], content, &lines, "p", false);
    let first = vec![word; 9].join(" ");
    assert!(output.contains(&format!("  • {first}\n  │ {word} {word}\n  │\n")));
}

#[test]
fn gutters_of_lines() {
    let mut output = String::new();
    let lines = vec!["one".to_string(), String::new(), "three".to_string()];
    push_message_lines(&mut output, &lines, false);
    assert_eq!(output, "  • one\n  │\n  │ three\n");
    let mut output = String::new();
    push_trivia_lines(&mut output, &vec!["one".to_string()], false);
    assert_eq!(output, "  │   one\n");
}
