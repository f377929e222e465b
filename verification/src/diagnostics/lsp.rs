//! Reports in the shape of the language server protocol.

use super::lines::{
    is_position, offset_to_lsp_position, valid_span, Position, PositionEncoding, SourceLines,
};
use super::report::{Diagnostic, RelatedSpan, Severity, Span};
use vstd::prelude::*;

verus! {

#[derive(Clone, Copy, Debug, PartialEq, Eq, Structural)]
pub struct Range {
    pub start: Position,
    pub end: Position,
}

/// Another place in the same document.
pub struct RelatedInformation {
    pub uri: String,
    pub range: Range,
    pub message: String,
}

/// A report for a language client.
pub struct LspDiagnostic {
    pub range: Range,
    pub severity: Severity,
    pub code: String,
    pub source: String,
    pub message: String,
    pub related_information: Option<Vec<RelatedInformation>>,
}

/// The range covers the span.
pub open spec fn covers(
    text: Seq<char>,
    encoding: PositionEncoding,
    span: Span,
    range: Range,
) -> bool {
    is_position(text, span.start, encoding, range.start) && is_position(
        text,
        span.end,
        encoding,
        range.end,
    )
}

/// The related places whose offsets are valid.
pub open spec fn locatable(text: Seq<char>, related: Seq<RelatedSpan>) -> Seq<RelatedSpan> {
    related.filter(|related: RelatedSpan| valid_span(text, related.span))
}

/// The information is that on the related place.
pub open spec fn informs(
    text: Seq<char>,
    encoding: PositionEncoding,
    uri: Seq<char>,
    related: RelatedSpan,
    information: RelatedInformation,
) -> bool {
    &&& information.uri@ == uri
    &&& information.message@ == related.message@
    &&& covers(text, encoding, related.span, information.range)
}

/// The range of a span, where both ends are valid offsets.
fn span_range(lines: &SourceLines, span: Span, encoding: PositionEncoding) -> (range: Option<Range>)
    ensures
        range is Some <==> valid_span(lines@, span),
        range matches Some(range) ==> covers(lines@, encoding, span, range),
{
    let Some(start) = offset_to_lsp_position(lines, span.start, encoding) else {
        return None;
    };
    let Some(end) = offset_to_lsp_position(lines, span.end, encoding) else {
        return None;
    };
    Some(Range { start, end })
}

/// Converts a report. There is no result where the report's own span has an end
/// that is no valid offset; related places with such an end are left out.
pub fn to_lsp_diagnostic(
    diagnostic: &Diagnostic,
    lines: &SourceLines,
    uri: &String,
    encoding: PositionEncoding,
) -> (converted: Option<LspDiagnostic>)
    ensures
        converted is Some <==> valid_span(lines@, diagnostic.span),
        converted matches Some(converted) ==> {
            let related = locatable(lines@, diagnostic.related@);
            &&& covers(lines@, encoding, diagnostic.span, converted.range)
            &&& converted.severity == diagnostic.severity
            &&& converted.code@ == diagnostic.code@
            &&& converted.source@ == "analyzer/"@ + diagnostic.source@
            &&& converted.message@ == diagnostic.message@
            &&& converted.related_information is None <==> related.len() == 0
            &&& converted.related_information matches Some(information) ==> information@.len()
                == related.len() && forall|i: int|
                0 <= i < related.len() ==> informs(
                    lines@,
                    encoding,
                    uri@,
                    related[i],
                    #[trigger] information@[i],
                )
        },
{
    let Some(range) = span_range(lines, diagnostic.span, encoding) else {
        return None;
    };
    let ghost valid = |related: RelatedSpan| valid_span(lines@, related.span);
    let mut information: Vec<RelatedInformation> = Vec::new();
    let mut index: usize = 0;
    assert(diagnostic.related@.take(0) =~= Seq::empty());
    assert(diagnostic.related@.take(0).filter(valid) =~= Seq::empty()) by {
        reveal(Seq::filter);
    }
    while index < diagnostic.related.len()
        invariant
            index <= diagnostic.related.len(),
            valid == (|related: RelatedSpan| valid_span(lines@, related.span)),
            information@.len() == diagnostic.related@.take(index as int).filter(valid).len(),
            forall|i: int|
                0 <= i < information@.len() ==> informs(
                    lines@,
                    encoding,
                    uri@,
                    diagnostic.related@.take(index as int).filter(valid)[i],
                    #[trigger] information@[i],
                ),
        decreases diagnostic.related.len() - index,
    {
        let related = &diagnostic.related[index];
        let ghost taken = diagnostic.related@.take(index + 1);
        assert(taken.drop_last() =~= diagnostic.related@.take(index as int));
        proof {
            reveal(Seq::filter);
        }
        if let Some(range) = span_range(lines, related.span, encoding) {
            information.push(
                RelatedInformation { uri: uri.clone(), range, message: related.message.clone() },
            );
        }
        index += 1;
    }
    assert(diagnostic.related@.take(index as int) =~= diagnostic.related@);
    let mut source = String::new();
    source.append("analyzer/");
    source.append(diagnostic.source.as_str());
    assert(source@ =~= "analyzer/"@ + diagnostic.source@);
    let related_information = if information.len() == 0 {
        None
    } else {
        Some(information)
    };
    Some(
        LspDiagnostic {
            range,
            severity: diagnostic.severity,
            code: diagnostic.code.clone(),
            source,
            message: diagnostic.message.clone(),
            related_information,
        },
    )
}

} // verus!
