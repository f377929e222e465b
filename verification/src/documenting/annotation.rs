//! Extracts documentation from comments.

use super::syntax::{SyntaxElement, SyntaxKind, SyntaxTree};
use crate::indexing::items::{
    IndexedTermItem, IndexedTermItemKind, IndexedTypeItem, IndexedTypeItemKind, TermKind, TypeKind,
};
use crate::indexing::source::{AstId, DataConstructorId, DeriveId, InstanceId};
use crate::indexing::stabilized::{StabilizedModule, SyntaxNodePtr};
use crate::text::{
    behind_prefix, characters, strip_prefix, trim_back, trim_end, trim_front, trim_start,
    trim_start_matches, white_space,
};
use vstd::prelude::*;

verus! {

// Lines

/// The position of the first line feed.
pub open spec fn line_feed(text: Seq<char>) -> Option<int>
    decreases text.len(),
{
    if text.len() == 0 {
        None
    } else if text[0] == '\n' {
        Some(0)
    } else {
        match line_feed(text.skip(1)) {
            Some(position) => Some(position + 1),
            None => None,
        }
    }
}

/// A line without the carriage return that stands before its line feed.
pub open spec fn without_return(line: Seq<char>) -> Seq<char> {
    if line.len() > 0 && line.last() == '\r' {
        line.drop_last()
    } else {
        line
    }
}

/// The first line feed of a text has none before it.
pub proof fn lemma_line_feed(text: Seq<char>)
    ensures
        line_feed(text) matches Some(position) ==> 0 <= position < text.len() && text[position]
            == '\n' && forall|i: int| 0 <= i < position ==> text[i] != '\n',
        line_feed(text) is None ==> forall|i: int| 0 <= i < text.len() ==> text[i] != '\n',
    decreases text.len(),
{
    if text.len() > 0 && text[0] != '\n' {
        lemma_line_feed(text.skip(1));
        assert forall|i: int| 0 < i < text.len() implies text[i] == text.skip(1)[i - 1] by {}
    }
}

/// The first line feed is the only one with none before it.
proof fn lemma_line_feed_at(text: Seq<char>, position: int)
    requires
        0 <= position < text.len(),
        text[position] == '\n',
        forall|i: int| 0 <= i < position ==> text[i] != '\n',
    ensures
        line_feed(text) == Some(position),
{
    lemma_line_feed(text);
}

/// The lines of a text, without their ends.
pub open spec fn lines(text: Seq<char>) -> Seq<Seq<char>>
    decreases text.len(),
{
    if text.len() == 0 {
        Seq::empty()
    } else {
        match line_feed(text) {
            Some(position) => if 0 <= position < text.len() {
                seq![without_return(text.take(position))] + lines(text.skip(position + 1))
            } else {
                Seq::empty()
            },
            None => seq![text],
        }
    }
}

/// What a line of a documentation comment says.
pub open spec fn line_content(line: Seq<char>) -> Option<Seq<char>> {
    match behind_prefix(trim_front(line, |c: char| white_space(c)), seq!['-', '-']) {
        None => None,
        Some(comment) => match behind_prefix(trim_front(comment, |c: char| c == ' '), seq!['|']) {
            None => None,
            Some(content) => {
                let content = match behind_prefix(content, seq![' ']) {
                    Some(content) => content,
                    None => content,
                };
                Some(trim_back(content, |c: char| white_space(c)))
            },
        },
    }
}

/// What the documentation comments among some lines say.
pub open spec fn contents(lines: Seq<Seq<char>>) -> Seq<Seq<char>>
    decreases lines.len(),
{
    if lines.len() == 0 {
        Seq::empty()
    } else {
        let before = contents(lines.drop_last());
        match line_content(lines.last()) {
            Some(content) => before.push(content),
            None => before,
        }
    }
}

/// Texts with line feeds between them.
pub open spec fn joined(texts: Seq<Seq<char>>) -> Seq<char>
    decreases texts.len(),
{
    if texts.len() == 0 {
        Seq::empty()
    } else if texts.len() == 1 {
        texts[0]
    } else {
        joined(texts.drop_last()).push('\n') + texts.last()
    }
}

/// The documentation in the text of an annotation.
pub open spec fn annotation(text: Seq<char>) -> Option<Seq<char>> {
    let found = contents(lines(text));
    if found.len() == 0 {
        None
    } else {
        Some(joined(found))
    }
}

/// What a line of a documentation comment says: all behind `-- |` and at most
/// one space, without trailing white space.
pub fn documentation_line_content(line: &str) -> (content: Option<&str>)
    ensures
        content is Some <==> line_content(line@) is Some,
        content matches Some(content) ==> line_content(line@) == Some(content@),
{
    proof {
        reveal_strlit("--");
        reveal_strlit("|");
        reveal_strlit(" ");
        assert("--"@ =~= seq!['-', '-']);
        assert("|"@ =~= seq!['|']);
        assert(" "@ =~= seq![' ']);
    }
    let Some(comment) = strip_prefix(trim_start(line), "--") else {
        return None;
    };
    let Some(content) = strip_prefix(trim_start_matches(comment, ' '), "|") else {
        return None;
    };
    let content = match strip_prefix(content, " ") {
        Some(content) => content,
        None => content,
    };
    Some(trim_end(content))
}

/// Joins what the lines of documentation comments say. Other lines are left
/// out; without documentation there is no result.
pub fn extract_annotation(text: &str) -> (documentation: Option<String>)
    ensures
        documentation is Some <==> annotation(text@) is Some,
        documentation matches Some(documentation) ==> annotation(text@) == Some(documentation@),
{
    let letters: Vec<char> = characters(text);
    let length: usize = letters.len();
    let mut output = String::new();
    let mut found = false;
    let mut start: usize = 0;
    let ghost mut read: Seq<Seq<char>> = Seq::empty();
    assert(text@.skip(0) =~= text@);
    assert(read + lines(text@) =~= lines(text@));
    while start < length
        invariant
            start <= length,
            length == text@.len(),
            letters@ == text@,
            lines(text@) == read + lines(text@.skip(start as int)),
            found == (contents(read).len() > 0),
            output@ == joined(contents(read)),
        decreases length - start,
    {
        let mut end: usize = start;
        while end < length && letters[end] != '\n'
            invariant
                start <= end <= length,
                length == letters@.len(),
                forall|i: int| start <= i < end ==> letters@[i] != '\n',
            decreases length - end,
        {
            end += 1;
        }
        let ghost rest = text@.skip(start as int);
        let ghost position = end - start;
        let (line, next) = if end < length {
            proof {
                assert forall|i: int| 0 <= i < position implies rest[i] != '\n' by {
                    assert(rest[i] == letters@[start + i]);
                }
                lemma_line_feed_at(rest, position);
                assert(rest.skip(position + 1) =~= text@.skip(end + 1));
                assert(rest.take(position) =~= text@.subrange(start as int, end as int));
            }
            let stop: usize = if end > start && letters[end - 1] == '\r' {
                end - 1
            } else {
                end
            };
            assert(text@.subrange(start as int, stop as int) =~= without_return(
                rest.take(position),
            ));
            (text.substring_char(start, stop), end + 1)
        } else {
            proof {
                lemma_line_feed(rest);
                assert forall|i: int| 0 <= i < rest.len() implies rest[i] != '\n' by {
                    assert(rest[i] == letters@[start + i]);
                }
                assert(rest =~= text@.subrange(start as int, end as int));
            }
            (text.substring_char(start, end), end)
        };
        assert(lines(rest) =~= seq![line@] + lines(text@.skip(next as int)));
        proof {
            assert(lines(text@) =~= read.push(line@) + lines(text@.skip(next as int)));
            assert(read.push(line@).drop_last() =~= read);
            read = read.push(line@);
        }
        if let Some(content) = documentation_line_content(line) {
            proof {
                let before = contents(read.drop_last());
                assert(contents(read).drop_last() =~= before);
            }
            if found {
                output.push('\n');
            }
            output.append(content);
            assert(output@ =~= joined(contents(read)));
            found = true;
        }
        start = next;
    }
    assert(text@.skip(length as int) =~= Seq::empty());
    assert(read + lines(text@.skip(start as int)) =~= read);
    if found {
        Some(output)
    } else {
        None
    }
}

/// The documentation of two texts with a line feed between them is that of the
/// first followed by that of the second.
pub proof fn lemma_contents_append(first: Seq<char>, second: Seq<char>)
    ensures
        contents(lines(first.push('\n') + second)) == contents(lines(first.push('\n'))) + contents(
            lines(second),
        ),
{
    lemma_lines_append(first, second);
    lemma_contents_concat(lines(first.push('\n')), lines(second));
}

proof fn lemma_lines_append(first: Seq<char>, second: Seq<char>)
    ensures
        lines(first.push('\n') + second) == lines(first.push('\n')) + lines(second),
    decreases first.len(),
{
    let head = first.push('\n');
    let whole = head + second;
    lemma_line_feed(head);
    assert(head[first.len() as int] == '\n');
    match line_feed(head) {
        Some(position) => {
            assert forall|i: int| 0 <= i < position implies whole[i] != '\n' by {
                assert(whole[i] == head[i]);
            }
            assert(whole[position] == head[position]);
            lemma_line_feed_at(whole, position);
            assert(whole.take(position) =~= head.take(position));
            if position == first.len() {
                assert(head.skip(position + 1) =~= Seq::empty());
                assert(whole.skip(position + 1) =~= second);
                assert(lines(head.skip(position + 1)) =~= Seq::empty());
            } else {
                let rest = first.skip(position + 1);
                lemma_lines_append(rest, second);
                assert(head.skip(position + 1) =~= rest.push('\n'));
                assert(whole.skip(position + 1) =~= rest.push('\n') + second);
            }
            assert(lines(whole) =~= lines(head) + lines(second));
        },
        None => {},
    }
}

proof fn lemma_contents_concat(first: Seq<Seq<char>>, second: Seq<Seq<char>>)
    ensures
        contents(first + second) == contents(first) + contents(second),
    decreases second.len(),
{
    if second.len() == 0 {
        assert(first + second =~= first);
        assert(contents(first) + contents(second) =~= contents(first));
    } else {
        lemma_contents_concat(first, second.drop_last());
        assert((first + second).drop_last() =~= first + second.drop_last());
        assert(contents(first + second) =~= contents(first) + contents(second));
    }
}

// Items

impl SyntaxTree {
    /// The documentation that an annotation node holds.
    pub open spec fn annotation_text(self, node: int) -> Option<Seq<char>> {
        if self.nodes@[node].kind != SyntaxKind::Annotation {
            None
        } else {
            match self.first_token_text(node) {
                Some(text) => annotation(text),
                None => None,
            }
        }
    }

    pub open spec fn element_text(self, element: SyntaxElement) -> Option<Seq<char>> {
        match element {
            SyntaxElement::Node(node) => self.annotation_text(node as int),
            SyntaxElement::Token { .. } => None,
        }
    }

    /// The documentation in the first child of a node.
    pub open spec fn first_child_text(self, node: int) -> Option<Seq<char>> {
        let children = self.nodes@[node].children@;
        if children.len() == 0 {
            None
        } else {
            self.element_text(children[0])
        }
    }

    /// The documentation of a data constructor: in its first child, or before
    /// the `=` or `|` that precedes it.
    pub open spec fn constructor_text(self, node: int) -> Option<Seq<char>> {
        match self.first_child_text(node) {
            Some(text) => Some(text),
            None => match self.preceding(node, 1) {
                Some(separator) => if self.kind_of(separator) == SyntaxKind::Equal || self.kind_of(
                    separator,
                ) == SyntaxKind::Pipe {
                    match self.preceding(node, 2) {
                        Some(element) => self.element_text(element),
                        None => None,
                    }
                } else {
                    None
                },
                None => None,
            },
        }
    }
}

fn annotation_documentation(tree: &SyntaxTree, node: u32) -> (documentation: Option<String>)
    requires
        tree.wf(),
        node < tree.nodes@.len(),
    ensures
        documentation is Some <==> tree.annotation_text(node as int) is Some,
        documentation matches Some(documentation) ==> tree.annotation_text(node as int) == Some(
            documentation@,
        ),
{
    if tree.nodes[node as usize].kind != SyntaxKind::Annotation {
        return None;
    }
    match tree.first_token(node) {
        Some(text) => extract_annotation(text.as_str()),
        None => None,
    }
}

fn element_documentation(tree: &SyntaxTree, element: &SyntaxElement) -> (documentation: Option<
    String,
>)
    requires
        tree.wf(),
        element matches SyntaxElement::Node(node) ==> node < tree.nodes@.len(),
    ensures
        documentation is Some <==> tree.element_text(*element) is Some,
        documentation matches Some(documentation) ==> tree.element_text(*element) == Some(
            documentation@,
        ),
{
    match element {
        SyntaxElement::Node(node) => annotation_documentation(tree, *node),
        SyntaxElement::Token { .. } => None,
    }
}

fn first_child_documentation(tree: &SyntaxTree, node: u32) -> (documentation: Option<String>)
    requires
        tree.wf(),
        node < tree.nodes@.len(),
    ensures
        documentation is Some <==> tree.first_child_text(node as int) is Some,
        documentation matches Some(documentation) ==> tree.first_child_text(node as int) == Some(
            documentation@,
        ),
{
    let children = &tree.nodes[node as usize].children;
    if children.len() == 0 {
        return None;
    }
    assert(match tree.nodes@[node as int].children@[0] {
        SyntaxElement::Node(child) => node < child < tree.nodes@.len(),
        SyntaxElement::Token { .. } => true,
    });
    element_documentation(tree, &children[0])
}

fn data_constructor_documentation(tree: &SyntaxTree, node: u32) -> (documentation: Option<String>)
    requires
        tree.wf(),
        node < tree.nodes@.len(),
    ensures
        documentation is Some <==> tree.constructor_text(node as int) is Some,
        documentation matches Some(documentation) ==> tree.constructor_text(node as int) == Some(
            documentation@,
        ),
{
    let documentation = first_child_documentation(tree, node);
    if documentation.is_some() {
        return documentation;
    }
    let Some(separator) = tree.element_before(node, 1) else {
        return None;
    };
    let kind = tree.kind(separator);
    if kind != SyntaxKind::Equal && kind != SyntaxKind::Pipe {
        return None;
    }
    match tree.element_before(node, 2) {
        Some(element) => element_documentation(tree, element),
        None => None,
    }
}

/// The node of an identity.
pub open spec fn node_of(stabilized: StabilizedModule, tree: SyntaxTree, id: AstId) -> Option<int> {
    match stabilized.pointer_of(id) {
        Some(pointer) => if pointer.node < tree.nodes@.len() {
            Some(pointer.node as int)
        } else {
            None
        },
        None => None,
    }
}

/// The text of some documentation, or none.
pub open spec fn text_or_empty(text: Option<Seq<char>>) -> Seq<char> {
    match text {
        Some(text) => text,
        None => Seq::empty(),
    }
}

/// The documentation of a node, if it has any.
pub open spec fn node_text(stabilized: StabilizedModule, tree: SyntaxTree, id: AstId) -> Seq<char> {
    match node_of(stabilized, tree, id) {
        Some(node) => text_or_empty(tree.first_child_text(node)),
        None => Seq::empty(),
    }
}

/// The documentation of an item with a signature and an equation: that of the
/// signature, unless it is missing or empty.
pub open spec fn signature_equation_text(
    stabilized: StabilizedModule,
    tree: SyntaxTree,
    signature: Option<AstId>,
    equation: Option<AstId>,
) -> Seq<char> {
    if signature is Some && node_text(stabilized, tree, signature->0).len() > 0 {
        node_text(stabilized, tree, signature->0)
    } else {
        match equation {
            Some(id) => node_text(stabilized, tree, id),
            None => Seq::empty(),
        }
    }
}

/// The documentation of a term.
pub open spec fn term_text(
    stabilized: StabilizedModule,
    tree: SyntaxTree,
    kind: TermKind,
) -> Seq<char> {
    match kind {
        TermKind::ClassMember { id, .. } => node_text(stabilized, tree, id),
        TermKind::Constructor { id, .. } => match node_of(stabilized, tree, id) {
            Some(node) => text_or_empty(tree.constructor_text(node)),
            None => Seq::empty(),
        },
        TermKind::Foreign { id } => node_text(stabilized, tree, id),
        TermKind::Operator { id } => node_text(stabilized, tree, id),
        TermKind::Value { signature, equations } => signature_equation_text(
            stabilized,
            tree,
            signature,
            if equations.len() > 0 {
                Some(equations[0])
            } else {
                None
            },
        ),
    }
}

/// The documentation of a type.
pub open spec fn type_text(
    stabilized: StabilizedModule,
    tree: SyntaxTree,
    kind: TypeKind,
) -> Seq<char> {
    match kind {
        TypeKind::Declared { signature, equation, .. } => signature_equation_text(
            stabilized,
            tree,
            signature,
            equation,
        ),
        TypeKind::Foreign { id, .. } => node_text(stabilized, tree, id),
        TypeKind::Operator { id } => node_text(stabilized, tree, id),
    }
}

/// Resolves documentation for item nodes on demand, as only item nodes can
/// carry documentation that consumers observe.
pub struct Annotations<'a> {
    pub tree: &'a SyntaxTree,
}

impl<'a> Annotations<'a> {
    pub fn new(tree: &'a SyntaxTree) -> (annotations: Annotations<'a>)
        ensures
            annotations.tree == tree,
    {
        Annotations { tree }
    }

    fn documentation(&self, pointer: SyntaxNodePtr) -> (documentation: Option<String>)
        requires
            self.tree.wf(),
        ensures
            documentation is Some <==> pointer.node < self.tree.nodes@.len()
                && self.tree.first_child_text(pointer.node as int) is Some,
            documentation matches Some(documentation) ==> self.tree.first_child_text(
                pointer.node as int,
            ) == Some(documentation@),
    {
        match self.tree.node(pointer) {
            Some(node) => first_child_documentation(self.tree, node),
            None => None,
        }
    }

    fn data_constructor_documentation(&self, pointer: SyntaxNodePtr) -> (documentation: Option<
        String,
    >)
        requires
            self.tree.wf(),
        ensures
            documentation is Some <==> pointer.node < self.tree.nodes@.len()
                && self.tree.constructor_text(pointer.node as int) is Some,
            documentation matches Some(documentation) ==> self.tree.constructor_text(
                pointer.node as int,
            ) == Some(documentation@),
    {
        match self.tree.node(pointer) {
            Some(node) => data_constructor_documentation(self.tree, node),
            None => None,
        }
    }
}

/// The documentation of a module header.
pub fn module_documentation(tree: &SyntaxTree) -> (documentation: String)
    requires
        tree.wf(),
    ensures
        documentation@ == (match tree.header_annotation {
            Some(node) => text_or_empty(tree.annotation_text(node as int)),
            None => Seq::empty(),
        }),
{
    let documentation = match tree.header_annotation {
        Some(node) => annotation_documentation(tree, node),
        None => None,
    };
    match documentation {
        Some(documentation) => documentation,
        None => String::new(),
    }
}

fn signature_equation_documentation(
    stabilized: &StabilizedModule,
    annotations: &Annotations,
    signature: Option<AstId>,
    equation: Option<AstId>,
) -> (documentation: String)
    requires
        annotations.tree.wf(),
    ensures
        documentation@ == signature_equation_text(
            *stabilized,
            *annotations.tree,
            signature,
            equation,
        ),
{
    if let Some(id) = signature {
        if let Some(pointer) = stabilized.syntax_ptr(id) {
            if let Some(documentation) = annotations.documentation(pointer) {
                if !documentation.as_str().is_empty() {
                    return documentation;
                }
            }
        }
    }
    if let Some(id) = equation {
        if let Some(pointer) = stabilized.syntax_ptr(id) {
            if let Some(documentation) = annotations.documentation(pointer) {
                return documentation;
            }
        }
    }
    String::new()
}

fn data_constructor_item_documentation(
    stabilized: &StabilizedModule,
    annotations: &Annotations,
    id: DataConstructorId,
) -> (documentation: String)
    requires
        annotations.tree.wf(),
    ensures
        documentation@ == (match node_of(*stabilized, *annotations.tree, id) {
            Some(node) => text_or_empty(annotations.tree.constructor_text(node)),
            None => Seq::empty(),
        }),
{
    if let Some(pointer) = stabilized.syntax_ptr(id) {
        if let Some(documentation) = annotations.data_constructor_documentation(pointer) {
            return documentation;
        }
    }
    String::new()
}

/// The documentation of a term.
pub fn term_documentation(
    stabilized: &StabilizedModule,
    annotations: &Annotations,
    item: &IndexedTermItem,
) -> (documentation: String)
    requires
        annotations.tree.wf(),
    ensures
        documentation@ == term_text(*stabilized, *annotations.tree, item@.kind),
{
    match &item.kind {
        IndexedTermItemKind::ClassMember { id, .. } => signature_equation_documentation(
            stabilized,
            annotations,
            Some(*id),
            Some(*id),
        ),
        IndexedTermItemKind::Constructor { id, .. } => data_constructor_item_documentation(
            stabilized,
            annotations,
            *id,
        ),
        IndexedTermItemKind::Foreign { id } => signature_equation_documentation(
            stabilized,
            annotations,
            Some(*id),
            Some(*id),
        ),
        IndexedTermItemKind::Operator { id } => signature_equation_documentation(
            stabilized,
            annotations,
            Some(*id),
            Some(*id),
        ),
        IndexedTermItemKind::Value { signature, equations } => {
            let equation = if equations.len() > 0 {
                Some(equations[0])
            } else {
                None
            };
            signature_equation_documentation(stabilized, annotations, *signature, equation)
        },
    }
}

/// The documentation of an instance.
pub fn instance_documentation(
    stabilized: &StabilizedModule,
    annotations: &Annotations,
    id: InstanceId,
) -> (documentation: String)
    requires
        annotations.tree.wf(),
    ensures
        documentation@ == node_text(*stabilized, *annotations.tree, id),
{
    signature_equation_documentation(stabilized, annotations, Some(id), Some(id))
}

/// The documentation of a derived instance.
pub fn derive_documentation(
    stabilized: &StabilizedModule,
    annotations: &Annotations,
    id: DeriveId,
) -> (documentation: String)
    requires
        annotations.tree.wf(),
    ensures
        documentation@ == node_text(*stabilized, *annotations.tree, id),
{
    signature_equation_documentation(stabilized, annotations, Some(id), Some(id))
}

/// The documentation of a type.
pub fn type_documentation(
    stabilized: &StabilizedModule,
    annotations: &Annotations,
    item: &IndexedTypeItem,
) -> (documentation: String)
    requires
        annotations.tree.wf(),
    ensures
        documentation@ == type_text(*stabilized, *annotations.tree, item@.kind),
{
    let (signature, equation) = match &item.kind {
        IndexedTypeItemKind::Data { signature, equation, .. } => (*signature, *equation),
        IndexedTypeItemKind::Newtype { signature, equation, .. } => (*signature, *equation),
        IndexedTypeItemKind::Synonym { signature, equation } => (*signature, *equation),
        IndexedTypeItemKind::Class { signature, declaration, .. } => (*signature, *declaration),
        IndexedTypeItemKind::Foreign { id, .. } => (Some(*id), Some(*id)),
        IndexedTypeItemKind::Operator { id } => (Some(*id), Some(*id)),
    };
    signature_equation_documentation(stabilized, annotations, signature, equation)
}

} // verus!
