//! Evidence for constraints.

use super::lowering::SourceTypeId;
use super::types::{FileId, TypeId};
use crate::indexing::items::TypeItemId;
use crate::indexing::source::{DeriveId, InstanceId};
use vstd::prelude::*;

verus! {

/// The identity of evidence that is still to be found.
#[derive(Clone, Copy, Debug, PartialEq, Eq, Structural, Hash)]
pub struct EvidenceVarId {
    pub raw: u32,
}

/// The identity of evidence that is given.
#[derive(Clone, Copy, Debug, PartialEq, Eq, Structural, Hash)]
pub struct EvidenceBinderId {
    pub raw: u32,
}

/// The identity of a proof.
#[derive(Clone, Copy, Debug, PartialEq, Eq, Structural, Hash)]
pub struct EvidenceId {
    pub raw: u32,
}

/// The identity of a superclass constraint.
#[derive(Clone, Copy, Debug, PartialEq, Eq, Structural)]
pub struct SuperclassId {
    pub file_id: FileId,
    pub type_id: TypeItemId,
    pub source_id: SourceTypeId,
}

/// The declaration that an instance comes from.
#[derive(Clone, Copy, Debug, PartialEq, Eq, Structural)]
pub enum InstanceCandidateOrigin {
    Instance(FileId, InstanceId),
    Derive(FileId, DeriveId),
}

#[derive(Clone, Copy, Debug, PartialEq, Eq, Structural)]
pub enum ReflectableOrdering {
    Less,
    Equal,
    Greater,
}

#[derive(Debug)]
pub enum ReflectableEvidence {
    Integer(i32),
    String(String),
    Boolean(bool),
    Relation(ReflectableOrdering),
}

/// Evidence that the compiler makes up.
#[derive(Debug)]
pub enum SynthesizedEvidence {
    IsSymbol(String),
    Reflectable(ReflectableEvidence),
    AbortIdentity(String),
}

#[derive(Debug)]
pub enum Evidence {
    Variable(EvidenceVarId),
    Given(EvidenceBinderId),
    Instance { origin: InstanceCandidateOrigin, subgoals: Vec<EvidenceVarId> },
    Superclass { parent: EvidenceId, superclass: SuperclassId },
    Trivial,
    Synthesized(SynthesizedEvidence),
}

#[derive(Clone, Copy, Debug, PartialEq, Eq, Structural)]
pub enum EvidenceState {
    Unsolved,
    Solved(EvidenceId),
    Error,
}

/// All evidence of a module.
pub struct EvidenceTable {
    pub variables: Vec<EvidenceState>,
    /// The constraints of given evidence.
    pub binders: Vec<TypeId>,
    pub proofs: Vec<Evidence>,
}

/// The model of [`EvidenceTable`].
#[verifier::ext_equal]
pub struct EvidenceModel {
    pub variables: Seq<EvidenceState>,
    pub binders: Seq<TypeId>,
    pub proofs: Seq<Evidence>,
}

impl View for EvidenceTable {
    type V = EvidenceModel;

    open spec fn view(&self) -> EvidenceModel {
        EvidenceModel {
            variables: self.variables@,
            binders: self.binders@,
            proofs: self.proofs@,
        }
    }
}

impl EvidenceTable {
    pub fn new() -> (table: EvidenceTable)
        ensures
            table@.variables.len() == 0,
            table@.binders.len() == 0,
            table@.proofs.len() == 0,
    {
        EvidenceTable { variables: Vec::new(), binders: Vec::new(), proofs: Vec::new() }
    }

    /// Evidence that is still to be found.
    pub fn fresh_variable(&mut self) -> (id: EvidenceVarId)
        requires
            old(self)@.variables.len() <= u32::MAX,
        ensures
            id.raw == old(self)@.variables.len(),
            final(self)@ == (EvidenceModel {
                variables: old(self)@.variables.push(EvidenceState::Unsolved),
                ..old(self)@
            }),
    {
        let id = EvidenceVarId { raw: self.variables.len() as u32 };
        self.variables.push(EvidenceState::Unsolved);
        id
    }

    /// Evidence that is given for a constraint.
    pub fn fresh_binder(&mut self, constraint: TypeId) -> (id: EvidenceBinderId)
        requires
            old(self)@.binders.len() <= u32::MAX,
        ensures
            id.raw == old(self)@.binders.len(),
            final(self)@ == (EvidenceModel {
                binders: old(self)@.binders.push(constraint),
                ..old(self)@
            }),
    {
        let id = EvidenceBinderId { raw: self.binders.len() as u32 };
        self.binders.push(constraint);
        id
    }

    /// Records that evidence cannot be found.
    pub fn mark_error(&mut self, id: EvidenceVarId)
        requires
            id.raw < old(self)@.variables.len(),
        ensures
            final(self)@ == (EvidenceModel {
                variables: old(self)@.variables.update(id.raw as int, EvidenceState::Error),
                ..old(self)@
            }),
    {
        self.variables.set(id.raw as usize, EvidenceState::Error);
    }
}

} // verus!
