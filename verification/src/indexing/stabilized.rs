//! Stable identities of syntax nodes.

use super::source::AstId;
use vstd::prelude::*;

verus! {

/// The number of a node in a syntax tree.
#[derive(Clone, Copy, Debug, PartialEq, Eq, Structural)]
pub struct SyntaxNodePtr {
    pub node: u32,
}

/// The nodes that bear stable identities, in the order of these.
pub struct StabilizedModule {
    pub pointers: Vec<SyntaxNodePtr>,
}

impl StabilizedModule {
    /// The node of an identity.
    pub open spec fn pointer_of(self, id: AstId) -> Option<SyntaxNodePtr> {
        if id.raw < self.pointers@.len() {
            Some(self.pointers@[id.raw as int])
        } else {
            None
        }
    }

    /// The nodes of a list of identities, without those that have none.
    pub open spec fn pointers_of(self, ids: Seq<AstId>) -> Seq<SyntaxNodePtr>
        decreases ids.len(),
    {
        if ids.len() == 0 {
            Seq::empty()
        } else {
            let before = self.pointers_of(ids.drop_last());
            match self.pointer_of(ids.last()) {
                Some(pointer) => before.push(pointer),
                None => before,
            }
        }
    }

    /// Looks an identity up.
    pub fn syntax_ptr(&self, id: AstId) -> (pointer: Option<SyntaxNodePtr>)
        ensures
            pointer == self.pointer_of(id),
    {
        if (id.raw as usize) < self.pointers.len() {
            Some(self.pointers[id.raw as usize])
        } else {
            None
        }
    }

    /// Looks a list of identities up.
    pub fn pointers(&self, ids: &Vec<AstId>) -> (pointers: Vec<SyntaxNodePtr>)
        ensures
            pointers@ == self.pointers_of(ids@),
    {
        let mut pointers: Vec<SyntaxNodePtr> = Vec::new();
        let mut index: usize = 0;
        assert(ids@.take(0) =~= Seq::empty());
        while index < ids.len()
            invariant
                index <= ids.len(),
                pointers@ == self.pointers_of(ids@.take(index as int)),
            decreases ids.len() - index,
        {
            assert(ids@.take(index + 1).drop_last() =~= ids@.take(index as int));
            if let Some(pointer) = self.syntax_ptr(ids[index]) {
                pointers.push(pointer);
            }
            index += 1;
        }
        assert(ids@.take(index as int) =~= ids@);
        pointers
    }
}

} // verus!
