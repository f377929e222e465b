//! What documentation is: the comment in front of a declaration, without its dashes
//! and bars.

use super::annotation::{
    annotation, contents, joined, line_content, line_feed, lines, node_text, term_text,
    text_or_empty, type_text, without_return, lemma_contents_append, lemma_line_feed,
};
use super::module::{derive_texts, documents, instance_texts, term_texts, type_texts};
use super::syntax::{SyntaxElement, SyntaxKind, SyntaxTree};
use crate::indexing::items::{
    IndexedTermItem, IndexedTermItemKind, IndexedTypeItem, IndexedTypeItemKind,
};
use crate::indexing::module::Module;
use crate::indexing::source::AstId;
use crate::indexing::stabilized::StabilizedModule;
use crate::text::{trim_back, trim_front, white_space};
use vstd::prelude::*;

verus! {

// Comments

/// A line of a documentation comment.
pub open spec fn comment_line(indent: Seq<char>, spaces: nat, said: Seq<char>) -> Seq<char> {
    indent + seq!['-', '-'] + Seq::new(spaces, |i: int| ' ') + seq!['|', ' '] + said
}

proof fn lemma_trim_front_all(text: Seq<char>, rest: Seq<char>, drop: spec_fn(char) -> bool)
    requires
        forall|i: int| 0 <= i < text.len() ==> drop(#[trigger] text[i]),
        rest.len() > 0 ==> !drop(rest[0]),
    ensures
        trim_front(text + rest, drop) == rest,
    decreases text.len(),
{
    if text.len() > 0 {
        assert((text + rest)[0] == text[0]);
        assert((text + rest).skip(1) =~= text.skip(1) + rest);
        assert forall|i: int| 0 <= i < text.skip(1).len() implies drop(
            #[trigger] text.skip(1)[i],
        ) by {
            assert(text.skip(1)[i] == text[i + 1]);
        }
        lemma_trim_front_all(text.skip(1), rest, drop);
    } else {
        assert(text + rest =~= rest);
    }
}

proof fn lemma_trim_back_all(rest: Seq<char>, text: Seq<char>, drop: spec_fn(char) -> bool)
    requires
        forall|i: int| 0 <= i < text.len() ==> drop(#[trigger] text[i]),
        rest.len() > 0 ==> !drop(rest.last()),
    ensures
        trim_back(rest + text, drop) == rest,
    decreases text.len(),
{
    if text.len() > 0 {
        assert((rest + text).last() == text.last());
        assert((rest + text).drop_last() =~= rest + text.drop_last());
        lemma_trim_back_all(rest, text.drop_last(), drop);
    } else {
        assert(rest + text =~= rest);
    }
}

/// A line of a documentation comment says what stands behind the bar and one space,
/// without the white space at its end. It may be indented, and there may be spaces
/// in front of the bar.
pub proof fn lemma_comment_says(
    indent: Seq<char>,
    spaces: nat,
    said: Seq<char>,
    trailing: Seq<char>,
)
    requires
        forall|i: int| 0 <= i < indent.len() ==> white_space(#[trigger] indent[i]),
        forall|i: int| 0 <= i < trailing.len() ==> white_space(#[trigger] trailing[i]),
        said.len() > 0 ==> !white_space(said.last()),
    ensures
        line_content(comment_line(indent, spaces, said + trailing)) == Some(said),
{
    let space = |c: char| white_space(c);
    let blank = |c: char| c == ' ';
    let gap = Seq::new(spaces, |i: int| ' ');
    let line = comment_line(indent, spaces, said + trailing);
    let behind = gap + seq!['|', ' '] + (said + trailing);
    let dashed = seq!['-', '-'] + behind;
    assert(line =~= indent + dashed);
    lemma_trim_front_all(indent, dashed, space);
    assert(dashed.skip(2) =~= behind);
    assert(seq!['-', '-'].is_prefix_of(dashed));
    let barred = seq!['|', ' '] + (said + trailing);
    assert(behind =~= gap + barred);
    lemma_trim_front_all(gap, barred, blank);
    let spaced = seq![' '] + (said + trailing);
    assert(barred.skip(1) =~= spaced);
    assert(seq!['|'].is_prefix_of(barred));
    assert(spaced.skip(1) =~= said + trailing);
    assert(seq![' '].is_prefix_of(spaced));
    lemma_trim_back_all(said, trailing, space);
}

/// A line that does not begin with dashes, or whose dashes are not followed by a bar,
/// says nothing.
pub proof fn lemma_other_lines_say_nothing(indent: Seq<char>, rest: Seq<char>)
    requires
        forall|i: int| 0 <= i < indent.len() ==> white_space(#[trigger] indent[i]),
        rest.len() > 0 ==> !white_space(rest[0]),
        ({
            ||| rest.len() < 2
            ||| rest[0] != '-'
            ||| rest[1] != '-'
            ||| exists|k: int|
                2 <= k < rest.len() && #[trigger] rest[k] != ' ' && rest[k] != '|' && forall|i: int|
                    2 <= i < k ==> rest[i] == ' '
        }),
    ensures
        line_content(indent + rest) is None,
{
    let space = |c: char| white_space(c);
    let blank = |c: char| c == ' ';
    lemma_trim_front_all(indent, rest, space);
    if rest.len() >= 2 && rest[0] == '-' && rest[1] == '-' {
        let k = choose|k: int|
            2 <= k < rest.len() && #[trigger] rest[k] != ' ' && rest[k] != '|' && forall|i: int|
                2 <= i < k ==> rest[i] == ' ';
        let comment = rest.skip(2);
        let gap = comment.take(k - 2);
        let end = comment.skip(k - 2);
        assert(comment =~= gap + end);
        assert forall|i: int| 0 <= i < gap.len() implies blank(#[trigger] gap[i]) by {
            assert(gap[i] == rest[i + 2]);
        }
        assert(end[0] == rest[k]);
        lemma_trim_front_all(gap, end, blank);
        assert(!seq!['|'].is_prefix_of(end)) by {
            if seq!['|'].is_prefix_of(end) {
                assert(end[0] == seq!['|'][0]);
            }
        }
    } else {
        assert(!seq!['-', '-'].is_prefix_of(rest)) by {
            if seq!['-', '-'].is_prefix_of(rest) {
                assert(rest[0] == seq!['-', '-'][0]);
                assert(rest[1] == seq!['-', '-'][1]);
            }
        }
    }
}

proof fn lemma_one_line(line: Seq<char>)
    requires
        line.len() > 0,
        forall|i: int| 0 <= i < line.len() ==> line[i] != '\n',
    ensures
        contents(lines(line)) == (match line_content(line) {
            Some(content) => seq![content],
            None => Seq::empty(),
        }),
{
    lemma_line_feed(line);
    assert(lines(line) =~= seq![line]);
    assert(lines(line).drop_last() =~= Seq::empty());
    assert(contents(lines(line).drop_last()) =~= Seq::<Seq<char>>::empty());
    match line_content(line) {
        Some(content) => {
            assert(Seq::<Seq<char>>::empty().push(content) =~= seq![content]);
        },
        None => {},
    }
}

/// The documentation of a comment of one line is what the line says.
pub proof fn lemma_one_comment(line: Seq<char>, said: Seq<char>)
    requires
        forall|i: int| 0 <= i < line.len() ==> line[i] != '\n',
        line_content(line) == Some(said),
    ensures
        annotation(line) == Some(said),
{
    if line.len() == 0 {
        assert(!seq!['-', '-'].is_prefix_of(line));
    }
    lemma_one_line(line);
    assert(contents(lines(line)) =~= seq![said]);
}

proof fn lemma_joined(first: Seq<Seq<char>>, second: Seq<Seq<char>>)
    requires
        first.len() > 0,
        second.len() > 0,
    ensures
        joined(first + second) == joined(first) + seq!['\n'] + joined(second),
    decreases second.len(),
{
    let whole = first + second;
    assert(whole.drop_last() =~= first + second.drop_last());
    if second.len() == 1 {
        assert(whole.drop_last() =~= first);
        assert(joined(whole) =~= joined(first) + seq!['\n'] + joined(second));
    } else {
        lemma_joined(first, second.drop_last());
        assert(joined(whole) =~= joined(first) + seq!['\n'] + joined(second));
    }
}

/// A line feed at the end of a text changes nothing.
proof fn lemma_last_feed(text: Seq<char>)
    requires
        text.len() > 0 ==> text.last() != '\r',
    ensures
        contents(lines(text.push('\n'))) == contents(lines(text)),
    decreases text.len(),
{
    let ended = text.push('\n');
    lemma_line_feed(text);
    lemma_line_feed(ended);
    assert(ended[text.len() as int] == '\n');
    match line_feed(text) {
        Some(position) => {
            assert(ended[position] == '\n');
            assert forall|i: int| 0 <= i < position implies ended[i] != '\n' by {
                assert(ended[i] == text[i]);
            }
            assert(line_feed(ended) == Some(position));
            let rest = text.skip(position + 1);
            assert(ended.skip(position + 1) =~= rest.push('\n'));
            assert(ended.take(position) =~= text.take(position));
            if rest.len() > 0 {
                assert(rest.last() == text.last());
            }
            lemma_last_feed(rest);
            let line = text.take(position).push('\n');
            lemma_contents_append(text.take(position), rest);
            assert(text =~= line + rest);
            lemma_contents_append(text.take(position), rest.push('\n'));
            assert(ended =~= line + rest.push('\n'));
        },
        None => {
            assert(line_feed(ended) == Some(text.len() as int)) by {
                let position = line_feed(ended)->0;
                if position < text.len() {
                    assert(text[position] == ended[position]);
                }
            }
            assert(ended.take(text.len() as int) =~= text);
            assert(ended.skip((text.len() + 1) as int) =~= Seq::empty());
            assert(lines(Seq::<char>::empty()) =~= Seq::empty());
            assert(without_return(text) == text);
            assert(lines(ended) =~= seq![text]);
            if text.len() == 0 {
                assert(!seq!['-', '-'].is_prefix_of(text));
                assert(trim_front(text, |c: char| white_space(c)) == text);
                assert(line_content(text) is None);
                assert(lines(ended).drop_last() =~= Seq::empty());
                assert(contents(lines(ended).drop_last()) =~= Seq::<Seq<char>>::empty());
                assert(contents(lines(ended)) =~= Seq::<Seq<char>>::empty());
                assert(contents(lines(text)) =~= Seq::<Seq<char>>::empty());
            } else {
                assert(lines(text) =~= seq![text]);
            }
        },
    }
}

/// The documentation of two comments, one under the other, is that of the first, a
/// line feed and that of the second. Where one of them says nothing, it is that of the
/// other.
pub proof fn lemma_comments_joined(first: Seq<char>, second: Seq<char>)
    requires
        first.len() > 0 ==> first.last() != '\r',
    ensures
        annotation(first.push('\n') + second) == (match (annotation(first), annotation(second)) {
            (Some(above), Some(below)) => Some(above + seq!['\n'] + below),
            (Some(above), None) => Some(above),
            (None, below) => below,
        }),
{
    lemma_contents_append(first, second);
    lemma_last_feed(first);
    let above = contents(lines(first));
    let below = contents(lines(second));
    if above.len() > 0 && below.len() > 0 {
        lemma_joined(above, below);
    } else if below.len() > 0 {
        assert(above + below =~= below);
    } else {
        assert(above + below =~= above);
    }
}

// Nodes

/// The first child of the node is an annotation with the text.
pub open spec fn begins_with(tree: SyntaxTree, node: int, text: Seq<char>) -> bool {
    &&& 0 <= node < tree.nodes@.len()
    &&& tree.nodes@[node].children@.len() > 0
    &&& tree.nodes@[node].children@[0] matches SyntaxElement::Node(child)
    &&& is_annotation(tree, child, text)
}

/// The node is an annotation with the text.
pub open spec fn is_annotation(tree: SyntaxTree, child: u32, text: Seq<char>) -> bool {
    &&& child < tree.nodes@.len()
    &&& tree.nodes@[child as int].kind == SyntaxKind::Annotation
    &&& tree.nodes@[child as int].children@.len() > 0
    &&& tree.nodes@[child as int].children@[0] matches SyntaxElement::Token { text: own, .. }
    &&& own@ == text
}

/// The node does not begin with an annotation.
pub open spec fn begins_plainly(tree: SyntaxTree, node: int) -> bool {
    let children = tree.nodes@[node].children@;
    ||| children.len() == 0
    ||| children[0] is Token
    ||| children[0] matches SyntaxElement::Node(child) && tree.nodes@[child as int].kind
        != SyntaxKind::Annotation
}

/// The declaration of the identity begins with a comment that documents it so.
pub open spec fn is_documented(
    stabilized: StabilizedModule,
    tree: SyntaxTree,
    id: AstId,
    documentation: Seq<char>,
) -> bool {
    &&& id.raw < stabilized.pointers@.len()
    &&& exists|text: Seq<char>|
        #[trigger] begins_with(tree, stabilized.pointers@[id.raw as int].node as int, text)
            && annotation(text) == Some(documentation)
}

/// The declaration of the identity has no comment.
pub open spec fn is_undocumented(
    stabilized: StabilizedModule,
    tree: SyntaxTree,
    id: AstId,
) -> bool {
    ||| id.raw >= stabilized.pointers@.len()
    ||| stabilized.pointers@[id.raw as int].node >= tree.nodes@.len()
    ||| begins_plainly(tree, stabilized.pointers@[id.raw as int].node as int)
    ||| is_documented(stabilized, tree, id, Seq::empty())
}

proof fn lemma_begins_with(tree: SyntaxTree, node: int, text: Seq<char>)
    requires
        tree.wf(),
        begins_with(tree, node, text),
    ensures
        tree.first_child_text(node) == annotation(text),
{
    let child = tree.nodes@[node].children@[0]->Node_0;
    reveal_with_fuel(SyntaxTree::first_token_text, 2);
    assert(tree.first_token_text(child as int) == Some(text));
}

proof fn lemma_documented(
    stabilized: StabilizedModule,
    tree: SyntaxTree,
    id: AstId,
    documentation: Seq<char>,
)
    requires
        tree.wf(),
        is_documented(stabilized, tree, id, documentation),
    ensures
        node_text(stabilized, tree, id) == documentation,
{
    let node = stabilized.pointers@[id.raw as int].node as int;
    let text = choose|text: Seq<char>| #[trigger]
        begins_with(tree, node, text) && annotation(text) == Some(documentation);
    lemma_begins_with(tree, node, text);
}

proof fn lemma_undocumented(stabilized: StabilizedModule, tree: SyntaxTree, id: AstId)
    requires
        tree.wf(),
        is_undocumented(stabilized, tree, id),
    ensures
        node_text(stabilized, tree, id) == Seq::<char>::empty(),
{
    if is_documented(stabilized, tree, id, Seq::empty()) {
        lemma_documented(stabilized, tree, id, Seq::empty());
    }
}

// Types

/// The signature of a type.
pub open spec fn type_signature(item: IndexedTypeItem) -> Option<AstId> {
    match item.kind {
        IndexedTypeItemKind::Data { signature, .. } => signature,
        IndexedTypeItemKind::Newtype { signature, .. } => signature,
        IndexedTypeItemKind::Synonym { signature, .. } => signature,
        IndexedTypeItemKind::Class { signature, .. } => signature,
        IndexedTypeItemKind::Foreign { .. } => None,
        IndexedTypeItemKind::Operator { .. } => None,
    }
}

/// What declares a type: its equation, or the declaration of a class, a foreign type or
/// an operator.
pub open spec fn type_declaration(item: IndexedTypeItem) -> Option<AstId> {
    match item.kind {
        IndexedTypeItemKind::Data { equation, .. } => equation,
        IndexedTypeItemKind::Newtype { equation, .. } => equation,
        IndexedTypeItemKind::Synonym { equation, .. } => equation,
        IndexedTypeItemKind::Class { declaration, .. } => declaration,
        IndexedTypeItemKind::Foreign { id, .. } => Some(id),
        IndexedTypeItemKind::Operator { id } => Some(id),
    }
}

/// Of a type in a documented module, the comment on its signature is the documentation,
/// where it says anything.
pub proof fn lemma_type_signature_documented(
    stabilized: StabilizedModule,
    tree: SyntaxTree,
    module: Module,
    types: Map<u64, String>,
    index: u64,
    item: IndexedTypeItem,
    documentation: Seq<char>,
)
    requires
        tree.wf(),
        documents(
            types,
            module.items.types.len() as int,
            type_texts(stabilized, tree, module),
        ),
        index < module.items.types.len(),
        module.items.types[index as int] == item@,
        type_signature(item) is Some,
        is_documented(stabilized, tree, type_signature(item)->0, documentation),
        documentation.len() > 0,
    ensures
        types.contains_key(index),
        types[index]@ == documentation,
{
    lemma_documented(stabilized, tree, type_signature(item)->0, documentation);
    assert(types.contains_key(index));
    assert(types[index]@ == type_text(stabilized, tree, item@.kind));
}

/// Of a type in a documented module whose signature is missing or says nothing, the
/// comment on what declares it is the documentation.
pub proof fn lemma_type_documented(
    stabilized: StabilizedModule,
    tree: SyntaxTree,
    module: Module,
    types: Map<u64, String>,
    index: u64,
    item: IndexedTypeItem,
    documentation: Seq<char>,
)
    requires
        tree.wf(),
        documents(
            types,
            module.items.types.len() as int,
            type_texts(stabilized, tree, module),
        ),
        index < module.items.types.len(),
        module.items.types[index as int] == item@,
        type_signature(item) matches Some(id) ==> is_undocumented(stabilized, tree, id),
        type_declaration(item) is Some,
        is_documented(stabilized, tree, type_declaration(item)->0, documentation),
    ensures
        types.contains_key(index),
        types[index]@ == documentation,
{
    lemma_documented(stabilized, tree, type_declaration(item)->0, documentation);
    if let Some(id) = type_signature(item) {
        lemma_undocumented(stabilized, tree, id);
    }
    assert(types.contains_key(index));
    assert(types[index]@ == type_text(stabilized, tree, item@.kind));
}

/// A type without any comment has an empty documentation.
pub proof fn lemma_type_undocumented(
    stabilized: StabilizedModule,
    tree: SyntaxTree,
    module: Module,
    types: Map<u64, String>,
    index: u64,
    item: IndexedTypeItem,
)
    requires
        tree.wf(),
        documents(
            types,
            module.items.types.len() as int,
            type_texts(stabilized, tree, module),
        ),
        index < module.items.types.len(),
        module.items.types[index as int] == item@,
        type_signature(item) matches Some(id) ==> is_undocumented(stabilized, tree, id),
        type_declaration(item) matches Some(id) ==> is_undocumented(stabilized, tree, id),
    ensures
        types.contains_key(index),
        types[index]@ == Seq::<char>::empty(),
{
    if let Some(id) = type_signature(item) {
        lemma_undocumented(stabilized, tree, id);
    }
    if let Some(id) = type_declaration(item) {
        lemma_undocumented(stabilized, tree, id);
    }
    assert(types.contains_key(index));
    assert(types[index]@ == type_text(stabilized, tree, item@.kind));
}

// Terms

/// The signature of a term.
pub open spec fn term_signature(item: IndexedTermItem) -> Option<AstId> {
    match item.kind {
        IndexedTermItemKind::Value { signature, .. } => signature,
        _ => None,
    }
}

/// What declares a term that is no constructor: the first equation of a value, or the
/// declaration of another one.
pub open spec fn term_declaration(item: IndexedTermItem) -> Option<AstId> {
    match item.kind {
        IndexedTermItemKind::Value { equations, .. } => if equations@.len() > 0 {
            Some(equations@[0])
        } else {
            None
        },
        IndexedTermItemKind::ClassMember { id, .. } => Some(id),
        IndexedTermItemKind::Foreign { id } => Some(id),
        IndexedTermItemKind::Operator { id } => Some(id),
        IndexedTermItemKind::Constructor { .. } => None,
    }
}

/// Of a term in a documented module, the comment on its signature is the documentation,
/// where it says anything.
pub proof fn lemma_term_signature_documented(
    stabilized: StabilizedModule,
    tree: SyntaxTree,
    module: Module,
    terms: Map<u64, String>,
    index: u64,
    item: IndexedTermItem,
    documentation: Seq<char>,
)
    requires
        tree.wf(),
        documents(
            terms,
            module.items.terms.len() as int,
            term_texts(stabilized, tree, module),
        ),
        index < module.items.terms.len(),
        module.items.terms[index as int] == item@,
        term_signature(item) is Some,
        is_documented(stabilized, tree, term_signature(item)->0, documentation),
        documentation.len() > 0,
    ensures
        terms.contains_key(index),
        terms[index]@ == documentation,
{
    lemma_documented(stabilized, tree, term_signature(item)->0, documentation);
    assert(terms.contains_key(index));
    assert(terms[index]@ == term_text(stabilized, tree, item@.kind));
}

/// Of a term in a documented module whose signature is missing or says nothing, the
/// comment on what declares it is the documentation.
pub proof fn lemma_term_documented(
    stabilized: StabilizedModule,
    tree: SyntaxTree,
    module: Module,
    terms: Map<u64, String>,
    index: u64,
    item: IndexedTermItem,
    documentation: Seq<char>,
)
    requires
        tree.wf(),
        documents(
            terms,
            module.items.terms.len() as int,
            term_texts(stabilized, tree, module),
        ),
        index < module.items.terms.len(),
        module.items.terms[index as int] == item@,
        term_signature(item) matches Some(id) ==> is_undocumented(stabilized, tree, id),
        term_declaration(item) is Some,
        is_documented(stabilized, tree, term_declaration(item)->0, documentation),
    ensures
        terms.contains_key(index),
        terms[index]@ == documentation,
{
    lemma_documented(stabilized, tree, term_declaration(item)->0, documentation);
    if let Some(id) = term_signature(item) {
        lemma_undocumented(stabilized, tree, id);
    }
    assert(terms.contains_key(index));
    assert(terms[index]@ == term_text(stabilized, tree, item@.kind));
}

/// A term other than a constructor without any comment has an empty documentation.
pub proof fn lemma_term_undocumented(
    stabilized: StabilizedModule,
    tree: SyntaxTree,
    module: Module,
    terms: Map<u64, String>,
    index: u64,
    item: IndexedTermItem,
)
    requires
        tree.wf(),
        documents(
            terms,
            module.items.terms.len() as int,
            term_texts(stabilized, tree, module),
        ),
        index < module.items.terms.len(),
        module.items.terms[index as int] == item@,
        !(item.kind is Constructor),
        term_signature(item) matches Some(id) ==> is_undocumented(stabilized, tree, id),
        term_declaration(item) matches Some(id) ==> is_undocumented(stabilized, tree, id),
    ensures
        terms.contains_key(index),
        terms[index]@ == Seq::<char>::empty(),
{
    if let Some(id) = term_signature(item) {
        lemma_undocumented(stabilized, tree, id);
    }
    if let Some(id) = term_declaration(item) {
        lemma_undocumented(stabilized, tree, id);
    }
    assert(terms.contains_key(index));
    assert(terms[index]@ == term_text(stabilized, tree, item@.kind));
}

/// A constructor that begins with a comment is documented by that comment.
pub proof fn lemma_constructor_documented(
    stabilized: StabilizedModule,
    tree: SyntaxTree,
    module: Module,
    terms: Map<u64, String>,
    index: u64,
    item: IndexedTermItem,
    id: AstId,
    documentation: Seq<char>,
)
    requires
        tree.wf(),
        documents(
            terms,
            module.items.terms.len() as int,
            term_texts(stabilized, tree, module),
        ),
        index < module.items.terms.len(),
        module.items.terms[index as int] == item@,
        item.kind matches IndexedTermItemKind::Constructor { id: own, .. } && own == id,
        is_documented(stabilized, tree, id, documentation),
    ensures
        terms.contains_key(index),
        terms[index]@ == documentation,
{
    let node = stabilized.pointers@[id.raw as int].node as int;
    let text = choose|text: Seq<char>| #[trigger]
        begins_with(tree, node, text) && annotation(text) == Some(documentation);
    lemma_begins_with(tree, node, text);
    assert(terms.contains_key(index));
    assert(terms[index]@ == term_text(stabilized, tree, item@.kind));
}

proof fn lemma_position(children: Seq<SyntaxElement>, node: u32, position: int)
    requires
        0 <= position < children.len(),
        children[position] == SyntaxElement::Node(node),
        forall|i: int| 0 <= i < position ==> children[i] != SyntaxElement::Node(node),
    ensures
        SyntaxTree::position_in(children, node) == Some(position),
    decreases children.len(),
{
    if position < children.len() - 1 {
        lemma_position(children.drop_last(), node, position);
    } else {
        lemma_no_position(children.drop_last(), node);
    }
}

proof fn lemma_no_position(children: Seq<SyntaxElement>, node: u32)
    requires
        forall|i: int| 0 <= i < children.len() ==> children[i] != SyntaxElement::Node(node),
    ensures
        SyntaxTree::position_in(children, node) is None,
    decreases children.len(),
{
    if children.len() > 0 {
        lemma_no_position(children.drop_last(), node);
    }
}

/// A constructor that does not begin with a comment is documented by the comment in
/// front of the `=` or `|` that it stands behind.
pub proof fn lemma_separated_constructor_documented(
    stabilized: StabilizedModule,
    tree: SyntaxTree,
    module: Module,
    terms: Map<u64, String>,
    index: u64,
    item: IndexedTermItem,
    id: AstId,
    parent: u32,
    position: int,
    comment: u32,
    text: Seq<char>,
    documentation: Seq<char>,
)
    requires
        tree.wf(),
        documents(
            terms,
            module.items.terms.len() as int,
            term_texts(stabilized, tree, module),
        ),
        index < module.items.terms.len(),
        module.items.terms[index as int] == item@,
        item.kind matches IndexedTermItemKind::Constructor { id: own, .. } && own == id,
        id.raw < stabilized.pointers@.len(),
        ({
            let node = stabilized.pointers@[id.raw as int].node;
            &&& node < tree.nodes@.len()
            &&& begins_plainly(tree, node as int)
            &&& tree.nodes@[node as int].parent == Some(parent)
            &&& 2 <= position < tree.nodes@[parent as int].children@.len()
            &&& tree.nodes@[parent as int].children@[position] == SyntaxElement::Node(node)
            &&& forall|i: int|
                0 <= i < position ==> tree.nodes@[parent as int].children@[i]
                    != SyntaxElement::Node(node)
        }),
        tree.nodes@[parent as int].children@[position - 1] matches SyntaxElement::Token {
            kind,
            ..
        } && (kind == SyntaxKind::Equal || kind == SyntaxKind::Pipe),
        tree.nodes@[parent as int].children@[position - 2] == SyntaxElement::Node(comment),
        is_annotation(tree, comment, text),
        annotation(text) == Some(documentation),
    ensures
        terms.contains_key(index),
        terms[index]@ == documentation,
{
    let node = stabilized.pointers@[id.raw as int].node;
    lemma_position(tree.nodes@[parent as int].children@, node, position);
    reveal_with_fuel(SyntaxTree::first_token_text, 2);
    assert(tree.first_token_text(comment as int) == Some(text));
    assert(terms.contains_key(index));
    assert(terms[index]@ == term_text(stabilized, tree, item@.kind));
}

// Instances and the module

/// An instance in a documented module is documented by the comment that it begins with,
/// and so is a derived one.
pub proof fn lemma_instances_documented(
    stabilized: StabilizedModule,
    tree: SyntaxTree,
    module: Module,
    instances: Map<u64, String>,
    derives: Map<u64, String>,
    index: u64,
    documentation: Seq<char>,
)
    requires
        tree.wf(),
        documents(
            instances,
            module.items.instances.len() as int,
            instance_texts(stabilized, tree, module),
        ),
        documents(
            derives,
            module.items.derives.len() as int,
            derive_texts(stabilized, tree, module),
        ),
    ensures
        index < module.items.instances.len() && is_documented(
            stabilized,
            tree,
            module.items.instances[index as int].id,
            documentation,
        ) ==> instances.contains_key(index) && instances[index]@ == documentation,
        index < module.items.derives.len() && is_documented(
            stabilized,
            tree,
            module.items.derives[index as int].id,
            documentation,
        ) ==> derives.contains_key(index) && derives[index]@ == documentation,
{
    if index < module.items.instances.len() {
        let id = module.items.instances[index as int].id;
        assert(instances.contains_key(index));
        if is_documented(stabilized, tree, id, documentation) {
            lemma_documented(stabilized, tree, id, documentation);
            assert(instances[index]@ == node_text(stabilized, tree, id));
        }
    }
    if index < module.items.derives.len() {
        let id = module.items.derives[index as int].id;
        assert(derives.contains_key(index));
        if is_documented(stabilized, tree, id, documentation) {
            lemma_documented(stabilized, tree, id, documentation);
            assert(derives[index]@ == node_text(stabilized, tree, id));
        }
    }
}

/// A module is documented by the comment of its header.
pub proof fn lemma_module_documented(tree: SyntaxTree, header: u32, text: Seq<char>)
    requires
        tree.wf(),
        tree.header_annotation == Some(header),
        is_annotation(tree, header, text),
    ensures
        text_or_empty(tree.annotation_text(header as int)) == (match annotation(text) {
            Some(documentation) => documentation,
            None => Seq::empty(),
        }),
{
    reveal_with_fuel(SyntaxTree::first_token_text, 2);
    assert(tree.first_token_text(header as int) == Some(text));
}

} // verus!
