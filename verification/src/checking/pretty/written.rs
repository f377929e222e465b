//! Documents on one line.

use super::layout::{joined, Doc};
use vstd::prelude::*;

verus! {

/// The text of a document on one line, with the answers filled in.
pub open spec fn written(doc: Doc, answers: Seq<Seq<char>>) -> Seq<char>
    decreases doc,
{
    match doc {
        Doc::Nil => Seq::empty(),
        Doc::Text(text) => text,
        Doc::Answer(index) => if index < answers.len() {
            answers[index as int]
        } else {
            Seq::empty()
        },
        Doc::Line => seq![' '],
        Doc::Softline => seq![' '],
        Doc::Hardline => seq![' '],
        Doc::Append(first, second) => written(*first, answers) + written(*second, answers),
        Doc::Nest(_, inner) => written(*inner, answers),
        Doc::Group(inner) => written(*inner, answers),
    }
}

/// One document behind another is one text behind another.
pub broadcast proof fn lemma_append_written(first: Doc, second: Doc, answers: Seq<Seq<char>>)
    ensures
        #[trigger] written(first.append(second), answers) == written(first, answers) + written(
            second,
            answers,
        ),
{
}

/// A text stands behind a document.
pub broadcast proof fn lemma_then_text_written(doc: Doc, text: Seq<char>, answers: Seq<Seq<char>>)
    ensures
        #[trigger] written(doc.then_text(text), answers) == written(doc, answers) + text,
{
    lemma_append_written(doc, Doc::Text(text), answers);
}

/// Indentation changes nothing on one line.
pub broadcast proof fn lemma_nest_written(doc: Doc, offset: nat, answers: Seq<Seq<char>>)
    ensures
        #[trigger] written(doc.nest(offset), answers) == written(doc, answers),
{
}

/// Grouping changes nothing on one line.
pub broadcast proof fn lemma_group_written(doc: Doc, answers: Seq<Seq<char>>)
    ensures
        #[trigger] written(doc.group(), answers) == written(doc, answers),
{
}

/// What begins on a line of its own is behind a space.
pub broadcast proof fn lemma_below_written(doc: Doc, answers: Seq<Seq<char>>)
    ensures
        #[trigger] written(doc.below(), answers) == spaced(written(doc, answers)),
{
    lemma_nest_written(Doc::Hardline.append(doc), 2, answers);
    lemma_append_written(Doc::Hardline, doc, answers);
}

/// What may begin on a line of its own is behind a space.
pub broadcast proof fn lemma_behind_written(doc: Doc, answers: Seq<Seq<char>>)
    ensures
        #[trigger] written(doc.behind(), answers) == spaced(written(doc, answers)),
{
    lemma_nest_written(Doc::Line.append(doc), 2, answers);
    lemma_append_written(Doc::Line, doc, answers);
}

/// What continues a head is behind it and a space.
pub broadcast proof fn lemma_continued_written(head: Doc, body: Doc, answers: Seq<Seq<char>>)
    ensures
        #[trigger] written(head.continued(body), answers) == written(head, answers) + spaced(
            written(body, answers),
        ),
{
    lemma_group_written(head.append(body.behind()), answers);
    lemma_append_written(head, body.behind(), answers);
    lemma_behind_written(body, answers);
}

/// Parentheses stand around a document.
pub broadcast proof fn lemma_parenthesized_written(doc: Doc, answers: Seq<Seq<char>>)
    ensures
        #[trigger] written(doc.parenthesized(), answers) == enclosed(written(doc, answers)),
{
    reveal_strlit("(");
    reveal_strlit(")");
    assert("("@ =~= seq!['(']);
    assert(")"@ =~= seq![')']);
    let opened = Doc::Text("("@).append(doc);
    lemma_append_written(Doc::Text("("@), doc, answers);
    lemma_then_text_written(opened, ")"@, answers);
}

/// What documents are on one line.
pub broadcast group group_written {
    lemma_append_written,
    lemma_then_text_written,
    lemma_nest_written,
    lemma_group_written,
    lemma_below_written,
    lemma_behind_written,
    lemma_continued_written,
    lemma_parenthesized_written,
}

/// Texts with a separator in between.
pub open spec fn separated(texts: Seq<Seq<char>>, separator: Seq<char>) -> Seq<char>
    decreases texts.len(),
{
    if texts.len() == 0 {
        Seq::empty()
    } else if texts.len() == 1 {
        texts[0]
    } else {
        texts[0] + separator + separated(texts.skip(1), separator)
    }
}

/// The texts of documents.
pub open spec fn all_written(docs: Seq<Doc>, answers: Seq<Seq<char>>) -> Seq<Seq<char>> {
    Seq::new(docs.len(), |i: int| written(docs[i], answers))
}

/// The last of several texts stands behind the others.
pub proof fn lemma_separated(texts: Seq<Seq<char>>, separator: Seq<char>)
    requires
        texts.len() > 1,
    ensures
        separated(texts, separator) == separated(texts.drop_last(), separator) + separator
            + texts.last(),
    decreases texts.len(),
{
    if texts.len() == 2 {
        assert(texts.drop_last()[0] == texts[0]);
        assert(texts.skip(1)[0] == texts.last());
        assert(separated(texts.skip(1), separator) == texts.last());
        assert(separated(texts.drop_last(), separator) == texts[0]);
    } else {
        lemma_separated(texts.skip(1), separator);
        assert(texts.skip(1).drop_last() =~= texts.drop_last().skip(1));
        assert(texts.skip(1).last() == texts.last());
        assert(texts.drop_last()[0] == texts[0]);
        assert(separated(texts, separator) =~= separated(texts.drop_last(), separator) + separator
            + texts.last());
    }
}

/// Documents that are joined are their texts with the separator in between.
pub proof fn lemma_joined_written(docs: Seq<Doc>, separator: Doc, answers: Seq<Seq<char>>)
    ensures
        written(joined(docs, separator), answers) == separated(
            all_written(docs, answers),
            written(separator, answers),
        ),
    decreases docs.len(),
{
    broadcast use group_written;

    let texts = all_written(docs, answers);
    if docs.len() > 1 {
        lemma_joined_written(docs.drop_last(), separator, answers);
        lemma_separated(texts, written(separator, answers));
        assert(texts.drop_last() =~= all_written(docs.drop_last(), answers));
    }
}

/// Within parentheses.
pub open spec fn enclosed(text: Seq<char>) -> Seq<char> {
    seq!['('] + text + seq![')']
}

/// A text behind a space.
pub open spec fn spaced(text: Seq<char>) -> Seq<char> {
    seq![' '] + text
}

} // verus!
