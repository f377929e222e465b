//! Documents whose line breaks are found by the `pretty` crate.

use vstd::prelude::*;

verus! {

/// The model of [`Layout`] and of [`Document`].
pub enum Doc {
    Nil,
    Text(Seq<char>),
    /// A text that is filled in later.
    Answer(nat),
    /// A space or a line break.
    Line,
    /// A space where what follows fits, or a line break.
    Softline,
    Hardline,
    Append(Box<Doc>, Box<Doc>),
    Nest(nat, Box<Doc>),
    /// All on one line, if it fits.
    Group(Box<Doc>),
}

impl Doc {
    pub open spec fn append(self, next: Doc) -> Doc {
        Doc::Append(Box::new(self), Box::new(next))
    }

    pub open spec fn nest(self, offset: nat) -> Doc {
        Doc::Nest(offset, Box::new(self))
    }

    pub open spec fn group(self) -> Doc {
        Doc::Group(Box::new(self))
    }

    /// The document with a text behind it.
    pub open spec fn then_text(self, text: Seq<char>) -> Doc {
        self.append(Doc::Text(text))
    }

    /// The document behind a line break that cannot be avoided.
    pub open spec fn below(self) -> Doc {
        Doc::Hardline.append(self).nest(2)
    }

    /// The document behind a space or a line break.
    pub open spec fn behind(self) -> Doc {
        Doc::Line.append(self).nest(2)
    }

    /// The document on the same line as the head, or indented on the next one.
    pub open spec fn continued(self, body: Doc) -> Doc {
        self.append(body.behind()).group()
    }

    /// The document in parentheses.
    pub open spec fn parenthesized(self) -> Doc {
        Doc::Text("("@).append(self).then_text(")"@)
    }
}

/// Documents one after the other, with a separator in between.
pub open spec fn joined(documents: Seq<Doc>, separator: Doc) -> Doc
    decreases documents.len(),
{
    if documents.len() == 0 {
        Doc::Nil
    } else if documents.len() == 1 {
        documents[0]
    } else {
        joined(documents.drop_last(), separator).append(separator).append(documents.last())
    }
}

/// Documents one below the other.
pub open spec fn stacked(documents: Seq<Doc>) -> Doc {
    joined(documents, Doc::Hardline)
}

/// The document with the texts filled in.
pub open spec fn resolved(document: Doc, answers: Seq<Seq<char>>) -> Doc
    decreases document,
{
    match document {
        Doc::Answer(index) => Doc::Text(
            if index < answers.len() {
                answers[index as int]
            } else {
                Seq::empty()
            },
        ),
        Doc::Append(first, second) => resolved(*first, answers).append(
            resolved(*second, answers),
        ),
        Doc::Nest(offset, inner) => resolved(*inner, answers).nest(offset),
        Doc::Group(inner) => resolved(*inner, answers).group(),
        other => other,
    }
}

/// A document in which some texts are still to be filled in.
#[derive(Debug)]
pub enum Layout {
    Nil,
    Text(String),
    Answer(usize),
    Line,
    Softline,
    Hardline,
    Append(Box<Layout>, Box<Layout>),
    Nest(u8, Box<Layout>),
    Group(Box<Layout>),
}

impl Layout {
    pub open spec fn model(self) -> Doc
        decreases self,
    {
        match self {
            Layout::Nil => Doc::Nil,
            Layout::Text(text) => Doc::Text(text@),
            Layout::Answer(index) => Doc::Answer(index as nat),
            Layout::Line => Doc::Line,
            Layout::Softline => Doc::Softline,
            Layout::Hardline => Doc::Hardline,
            Layout::Append(first, second) => first.model().append(second.model()),
            Layout::Nest(offset, inner) => inner.model().nest(offset as nat),
            Layout::Group(inner) => inner.model().group(),
        }
    }
}

impl View for Layout {
    type V = Doc;

    open spec fn view(&self) -> Doc {
        self.model()
    }
}

/// A text.
pub fn text(words: &str) -> (layout: Layout)
    ensures
        layout@ == Doc::Text(words@),
{
    Layout::Text(words.to_owned())
}

impl Layout {
    pub fn append(self, next: Layout) -> (layout: Layout)
        ensures
            layout@ == self@.append(next@),
    {
        Layout::Append(Box::new(self), Box::new(next))
    }

    pub fn then_text(self, next: &str) -> (layout: Layout)
        ensures
            layout@ == self@.then_text(next@),
    {
        self.append(text(next))
    }

    pub fn nest(self, offset: u8) -> (layout: Layout)
        ensures
            layout@ == self@.nest(offset as nat),
    {
        Layout::Nest(offset, Box::new(self))
    }

    pub fn group(self) -> (layout: Layout)
        ensures
            layout@ == self@.group(),
    {
        Layout::Group(Box::new(self))
    }

    pub fn below(self) -> (layout: Layout)
        ensures
            layout@ == self@.below(),
    {
        Layout::Hardline.append(self).nest(2)
    }

    pub fn behind(self) -> (layout: Layout)
        ensures
            layout@ == self@.behind(),
    {
        Layout::Line.append(self).nest(2)
    }

    pub fn parenthesized(self) -> (layout: Layout)
        ensures
            layout@ == self@.parenthesized(),
    {
        text("(").append(self).then_text(")")
    }
}

/// The body on the same line as the head, or indented on the next one.
pub fn breakable_continuation(head: Layout, body: Layout) -> (layout: Layout)
    ensures
        layout@ == head@.continued(body@),
{
    head.append(body.behind()).group()
}

/// The models of documents.
pub open spec fn models(layouts: Seq<Layout>) -> Seq<Doc> {
    Seq::new(layouts.len(), |i: int| layouts[i]@)
}

/// What stands between documents.
#[derive(Clone, Copy, Debug, PartialEq, Eq, Structural)]
pub enum Separator {
    Hardline,
    Line,
    Comma,
    Space,
    /// An empty line.
    Gap,
}

/// What stands between documents.
pub open spec fn separator_doc(separator: Separator) -> Doc {
    match separator {
        Separator::Hardline => Doc::Hardline,
        Separator::Line => Doc::Line,
        Separator::Comma => Doc::Text(", "@),
        Separator::Space => Doc::Text(" "@),
        Separator::Gap => Doc::Hardline.append(Doc::Hardline),
    }
}

fn separator_layout(separator: Separator) -> (layout: Layout)
    ensures
        layout@ == separator_doc(separator),
{
    match separator {
        Separator::Hardline => Layout::Hardline,
        Separator::Line => Layout::Line,
        Separator::Comma => text(", "),
        Separator::Space => text(" "),
        Separator::Gap => Layout::Hardline.append(Layout::Hardline),
    }
}

/// Documents one after the other, with a separator in between.
pub fn join(layouts: Vec<Layout>, separator: Separator) -> (layout: Layout)
    ensures
        layout@ == joined(models(layouts@), separator_doc(separator)),
{
    let mut remaining = layouts;
    let ghost all = models(layouts@);
    if remaining.len() == 0 {
        return Layout::Nil;
    }
    let mut document = remaining.remove(0);
    let ghost mut count: int = 1;
    assert(all.take(1).len() == 1 && all.take(1)[0] == document@);
    assert(models(remaining@) =~= all.skip(1));
    while remaining.len() > 0
        invariant
            all == models(layouts@),
            1 <= count <= all.len(),
            models(remaining@) == all.skip(count),
            remaining@.len() == all.len() - count,
            document@ == joined(all.take(count), separator_doc(separator)),
        decreases remaining.len(),
    {
        let ghost before = models(remaining@);
        let next = remaining.remove(0);
        proof {
            assert(next@ == before[0]);
            assert(before[0] == all[count]);
            assert(all.take(count + 1).drop_last() =~= all.take(count));
            assert forall|i: int| 0 <= i < remaining@.len() implies #[trigger] models(
                remaining@,
            )[i] == all.skip(count + 1)[i] by {
                assert(before[i + 1] == all.skip(count)[i + 1]);
            }
            assert(models(remaining@) =~= all.skip(count + 1));
        }
        document = document.append(separator_layout(separator)).append(next);
        proof {
            count = count + 1;
        }
    }
    assert(all.take(count) =~= all);
    document
}

/// The document type of the outside crate.
#[verifier::external_type_specification]
#[verifier::external_body]
#[verifier::reject_recursive_types(A)]
pub struct ExRcDoc<'a, A>(pretty::RcDoc<'a, A>);

/// A document whose texts are all known.
pub struct Document {
    storage: pretty::RcDoc<'static, ()>,
    contents: Ghost<Doc>,
}

impl View for Document {
    type V = Doc;

    closed spec fn view(&self) -> Doc {
        self.contents@
    }
}

/// The text of a document, laid out for lines of the width.
pub uninterp spec fn rendered(document: Doc, width: nat) -> Seq<char>;

impl Document {
    /// Calls `pretty::RcDoc::nil`, the empty document.
    #[verifier::external_body]
    fn nil() -> (document: Document)
        ensures
            document@ == Doc::Nil,
    {
        Document { storage: pretty::RcDoc::nil(), contents: Ghost(Doc::Nil) }
    }

    /// Calls `pretty::RcDoc::text`, the document of a text.
    #[verifier::external_body]
    fn text(text: &str) -> (document: Document)
        ensures
            document@ == Doc::Text(text@),
    {
        Document { storage: pretty::RcDoc::text(text.to_owned()), contents: Ghost(Doc::Text(text@)) }
    }

    /// Calls `pretty::RcDoc::line`, a line break, or a space where a group around
    /// it is laid out on a single line.
    #[verifier::external_body]
    fn line() -> (document: Document)
        ensures
            document@ == Doc::Line,
    {
        Document { storage: pretty::RcDoc::line(), contents: Ghost(Doc::Line) }
    }

    /// Calls `pretty::RcDoc::softline`, a line break in a group of its own.
    #[verifier::external_body]
    fn softline() -> (document: Document)
        ensures
            document@ == Doc::Softline,
    {
        Document { storage: pretty::RcDoc::softline(), contents: Ghost(Doc::Softline) }
    }

    /// Calls `pretty::RcDoc::hardline`, a line break.
    #[verifier::external_body]
    fn hardline() -> (document: Document)
        ensures
            document@ == Doc::Hardline,
    {
        Document { storage: pretty::RcDoc::hardline(), contents: Ghost(Doc::Hardline) }
    }

    /// Calls `pretty::RcDoc::append`, one document behind the other.
    #[verifier::external_body]
    fn append(self, next: Document) -> (document: Document)
        ensures
            document@ == self@.append(next@),
    {
        let contents = Ghost(self@.append(next@));
        Document { storage: self.storage.append(next.storage), contents }
    }

    /// Calls `pretty::RcDoc::nest`, which indents the lines of a document behind
    /// the first one.
    #[verifier::external_body]
    fn nest(self, offset: u8) -> (document: Document)
        ensures
            document@ == self@.nest(offset as nat),
    {
        let contents = Ghost(self@.nest(offset as nat));
        Document { storage: self.storage.nest(offset as isize), contents }
    }

    /// Calls `pretty::RcDoc::group`, which lays a document out on a single line, if
    /// it fits.
    #[verifier::external_body]
    fn group(self) -> (document: Document)
        ensures
            document@ == self@.group(),
    {
        let contents = Ghost(self@.group());
        Document { storage: self.storage.group(), contents }
    }

    /// Calls `pretty::Doc::render_fmt`, which lays a document out for lines of the
    /// width, as far as it can be broken. The text is named: it depends on the
    /// document and the width alone.
    #[verifier::external_body]
    pub(crate) fn render(&self, width: usize) -> (output: String)
        ensures
            output@ == rendered(self@, width as nat),
    {
        let mut output = String::new();
        self.storage.render_fmt(width, &mut output).expect("writing to a string cannot fail");
        output
    }
}

/// The texts of answers.
pub open spec fn texts(answers: Seq<String>) -> Seq<Seq<char>> {
    Seq::new(answers.len(), |i: int| answers[i]@)
}

impl Layout {
    /// The document with the texts filled in.
    pub fn document(&self, answers: &Vec<String>) -> (document: Document)
        ensures
            document@ == resolved(self@, texts(answers@)),
        decreases *self,
    {
        match self {
            Layout::Nil => Document::nil(),
            Layout::Text(text) => Document::text(text.as_str()),
            Layout::Answer(index) => {
                if *index < answers.len() {
                    Document::text(answers[*index].as_str())
                } else {
                    proof {
                        reveal_strlit("");
                        assert(""@ =~= Seq::empty());
                    }
                    Document::text("")
                }
            },
            Layout::Line => Document::line(),
            Layout::Softline => Document::softline(),
            Layout::Hardline => Document::hardline(),
            Layout::Append(first, second) => first.document(answers).append(
                second.document(answers),
            ),
            Layout::Nest(offset, inner) => inner.document(answers).nest(*offset),
            Layout::Group(inner) => inner.document(answers).group(),
        }
    }
}

} // verus!
