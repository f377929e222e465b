//! The syntax tree that documentation is read from.

use crate::indexing::stabilized::SyntaxNodePtr;
use vstd::prelude::*;

verus! {

/// The kinds of nodes and tokens that documentation depends on.
#[derive(Clone, Copy, Debug, PartialEq, Eq, Structural)]
pub enum SyntaxKind {
    Annotation,
    Equal,
    Pipe,
    Other,
}

/// A child of a node.
pub enum SyntaxElement {
    Node(u32),
    Token { kind: SyntaxKind, text: String },
}

pub struct SyntaxNode {
    pub kind: SyntaxKind,
    pub parent: Option<u32>,
    pub children: Vec<SyntaxElement>,
}

/// The nodes of a syntax tree in preorder.
pub struct SyntaxTree {
    pub nodes: Vec<SyntaxNode>,
    /// The annotation of the module header.
    pub header_annotation: Option<u32>,
}

impl SyntaxTree {
    /// Nodes stand before their children.
    pub open spec fn wf(self) -> bool {
        &&& self.nodes@.len() <= u32::MAX
        &&& forall|n: int, c: int|
            0 <= n < self.nodes@.len() && 0 <= c < self.nodes@[n].children@.len()
                ==> match #[trigger] self.nodes@[n].children@[c] {
                SyntaxElement::Node(child) => n < child < self.nodes@.len(),
                SyntaxElement::Token { .. } => true,
            }
        &&& forall|n: int|
            0 <= n < self.nodes@.len() ==> match (#[trigger] self.nodes@[n]).parent {
                Some(parent) => parent < self.nodes@.len(),
                None => true,
            }
        &&& self.header_annotation matches Some(node) ==> node < self.nodes@.len()
    }

    pub open spec fn kind_of(self, element: SyntaxElement) -> SyntaxKind {
        match element {
            SyntaxElement::Node(node) => self.nodes@[node as int].kind,
            SyntaxElement::Token { kind, .. } => kind,
        }
    }

    /// The text of the first token below a node.
    pub open spec fn first_token_text(self, node: int) -> Option<Seq<char>>
        decreases self.nodes@.len() - node,
    {
        if !(0 <= node < self.nodes@.len()) || self.nodes@[node].children@.len() == 0 {
            None
        } else {
            match self.nodes@[node].children@[0] {
                SyntaxElement::Token { text, .. } => Some(text@),
                SyntaxElement::Node(child) => if node < child < self.nodes@.len() {
                    self.first_token_text(child as int)
                } else {
                    None
                },
            }
        }
    }

    /// The position of a child node.
    pub open spec fn position_in(children: Seq<SyntaxElement>, node: u32) -> Option<int>
        decreases children.len(),
    {
        if children.len() == 0 {
            None
        } else {
            match SyntaxTree::position_in(children.drop_last(), node) {
                Some(position) => Some(position),
                None => if children.last() == SyntaxElement::Node(node) {
                    Some(children.len() - 1)
                } else {
                    None
                },
            }
        }
    }

    /// The element `distance` places before a node, under the same parent.
    pub open spec fn preceding(self, node: int, distance: int) -> Option<SyntaxElement> {
        match self.nodes@[node].parent {
            None => None,
            Some(parent) => {
                let siblings = self.nodes@[parent as int].children@;
                match SyntaxTree::position_in(siblings, node as u32) {
                    Some(position) if position >= distance => Some(siblings[position - distance]),
                    _ => None,
                }
            },
        }
    }

    /// The node of a pointer.
    pub fn node(&self, pointer: SyntaxNodePtr) -> (node: Option<u32>)
        requires
            self.wf(),
        ensures
            node == (if pointer.node < self.nodes@.len() {
                Some(pointer.node)
            } else {
                None
            }),
    {
        if (pointer.node as usize) < self.nodes.len() {
            Some(pointer.node)
        } else {
            None
        }
    }

    pub fn kind(&self, element: &SyntaxElement) -> (kind: SyntaxKind)
        requires
            element matches SyntaxElement::Node(node) ==> node < self.nodes@.len(),
        ensures
            kind == self.kind_of(*element),
    {
        match element {
            SyntaxElement::Node(node) => self.nodes[*node as usize].kind,
            SyntaxElement::Token { kind, .. } => *kind,
        }
    }

    /// The text of the first token below a node.
    pub fn first_token(&self, node: u32) -> (text: Option<&String>)
        requires
            self.wf(),
            node < self.nodes@.len(),
        ensures
            text is Some <==> self.first_token_text(node as int) is Some,
            text matches Some(text) ==> self.first_token_text(node as int) == Some(text@),
        decreases self.nodes@.len() - node,
    {
        let children = &self.nodes[node as usize].children;
        if children.len() == 0 {
            return None;
        }
        assert(match self.nodes@[node as int].children@[0] {
            SyntaxElement::Node(child) => node < child < self.nodes@.len(),
            SyntaxElement::Token { .. } => true,
        });
        match &children[0] {
            SyntaxElement::Token { text, .. } => Some(text),
            SyntaxElement::Node(child) => self.first_token(*child),
        }
    }

    /// The element `distance` places before a node, under the same parent.
    pub fn element_before(&self, node: u32, distance: usize) -> (element: Option<&SyntaxElement>)
        requires
            self.wf(),
            node < self.nodes@.len(),
        ensures
            element is Some <==> self.preceding(node as int, distance as int) is Some,
            element matches Some(element) ==> self.preceding(node as int, distance as int) == Some(
                *element,
            ) && (*element matches SyntaxElement::Node(node) ==> node < self.nodes@.len()),
    {
        let Some(parent) = self.nodes[node as usize].parent else {
            return None;
        };
        assert(match self.nodes@[node as int].parent {
            Some(parent) => parent < self.nodes@.len(),
            None => true,
        });
        let siblings = &self.nodes[parent as usize].children;
        let mut index: usize = 0;
        assert(siblings@.take(0) =~= Seq::empty());
        while index < siblings.len()
            invariant
                index <= siblings.len(),
                SyntaxTree::position_in(siblings@.take(index as int), node) is None,
                self.wf(),
                node < self.nodes@.len(),
                parent < self.nodes@.len(),
                self.nodes@[node as int].parent == Some(parent),
                *siblings == self.nodes@[parent as int].children,
            decreases siblings.len() - index,
        {
            assert(siblings@.take(index + 1).drop_last() =~= siblings@.take(index as int));
            let found = match &siblings[index] {
                SyntaxElement::Node(sibling) => *sibling == node,
                SyntaxElement::Token { .. } => false,
            };
            if found {
                proof {
                    assert(SyntaxTree::position_in(siblings@.take(index + 1), node) == Some(
                        index as int,
                    ));
                    lemma_position_prefix(siblings@, node, index + 1);
                }
                if index < distance {
                    return None;
                }
                assert(match self.nodes@[parent as int].children@[index - distance] {
                    SyntaxElement::Node(child) => parent < child < self.nodes@.len(),
                    SyntaxElement::Token { .. } => true,
                });
                return Some(&siblings[index - distance]);
            }
            index += 1;
        }
        assert(siblings@.take(index as int) =~= siblings@);
        None
    }
}

/// A position that is found in the front of a list is the position in the list.
proof fn lemma_position_prefix(children: Seq<SyntaxElement>, node: u32, count: int)
    requires
        0 <= count <= children.len(),
        SyntaxTree::position_in(children.take(count), node) is Some,
    ensures
        SyntaxTree::position_in(children, node) == SyntaxTree::position_in(
            children.take(count),
            node,
        ),
    decreases children.len(),
{
    if count < children.len() {
        assert(children.drop_last().take(count) =~= children.take(count));
        lemma_position_prefix(children.drop_last(), node, count);
    } else {
        assert(children.take(count) =~= children);
    }
}

} // verus!
