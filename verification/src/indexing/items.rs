//! The items of a module.

use super::source::{
    name_text, ClassMemberId, DataConstructorId, DeriveId, ForeignDataId, ForeignValueId, InfixId,
    InstanceId, TypeEquationId, TypeRoleId, TypeSignatureId, ValueEquationId, ValueSignatureId,
};
use vstd::prelude::*;

verus! {

#[derive(Clone, Copy, Debug, PartialEq, Eq, Structural, PartialOrd, Ord, Hash)]
pub struct TermItemId {
    pub raw: u32,
}

#[derive(Clone, Copy, Debug, PartialEq, Eq, Structural, PartialOrd, Ord, Hash)]
pub struct TypeItemId {
    pub raw: u32,
}

#[derive(Clone, Copy, Debug, PartialEq, Eq, Structural, PartialOrd, Ord, Hash)]
pub struct InstanceItemId {
    pub raw: u32,
}

#[derive(Clone, Copy, Debug, PartialEq, Eq, Structural, PartialOrd, Ord, Hash)]
pub struct DeriveItemId {
    pub raw: u32,
}

/// An item that can stand at the head of an instance.
#[derive(Clone, Copy, Debug, PartialEq, Eq, Structural, Hash)]
pub enum InstanceSourceItemId {
    Instance(InstanceItemId),
    Derive(DeriveItemId),
}

/// An item of the term level, in the order of declaration.
#[derive(Clone, Copy, Debug, PartialEq, Eq, Structural, Hash)]
pub enum OrderedTermItemId {
    Term(TermItemId),
    Instance(InstanceItemId),
    Derive(DeriveItemId),
}

#[allow(inconsistent_fields)]
#[derive(Debug)]
pub enum IndexedTermItemKind {
    ClassMember { id: ClassMemberId, parent: TypeItemId },
    /// The type is missing where the constructor's declaration was in conflict
    /// with the item that it was joined to.
    Constructor { id: DataConstructorId, type_id: Option<TypeItemId> },
    Foreign { id: ForeignValueId },
    Operator { id: InfixId },
    Value { signature: Option<ValueSignatureId>, equations: Vec<ValueEquationId> },
}

#[derive(Debug)]
pub struct IndexedTermItem {
    pub name: Option<String>,
    pub kind: IndexedTermItemKind,
    pub exported: bool,
}

#[allow(inconsistent_fields)]
#[derive(Debug)]
pub enum IndexedTypeItemKind {
    Synonym { signature: Option<TypeSignatureId>, equation: Option<TypeEquationId> },
    Class {
        signature: Option<TypeSignatureId>,
        declaration: Option<TypeEquationId>,
        members: Vec<TermItemId>,
    },
    Newtype {
        signature: Option<TypeSignatureId>,
        equation: Option<TypeEquationId>,
        role: Option<TypeRoleId>,
        constructors: Vec<TermItemId>,
    },
    Data {
        signature: Option<TypeSignatureId>,
        equation: Option<TypeEquationId>,
        role: Option<TypeRoleId>,
        constructors: Vec<TermItemId>,
    },
    Foreign { id: ForeignDataId, role: Option<TypeRoleId> },
    Operator { id: InfixId },
}

#[derive(Debug)]
pub struct IndexedTypeItem {
    pub name: Option<String>,
    pub kind: IndexedTypeItemKind,
    pub exported: bool,
}

#[derive(Debug)]
pub struct IndexedInstanceItem {
    pub name: Option<String>,
    pub id: InstanceId,
}

#[derive(Debug)]
pub struct IndexedDeriveItem {
    pub name: Option<String>,
    pub id: DeriveId,
}

// Models

#[allow(inconsistent_fields)]
pub enum TermKind {
    ClassMember { id: ClassMemberId, parent: TypeItemId },
    Constructor { id: DataConstructorId, type_id: Option<TypeItemId> },
    Foreign { id: ForeignValueId },
    Operator { id: InfixId },
    Value { signature: Option<ValueSignatureId>, equations: Seq<ValueEquationId> },
}

pub struct TermItem {
    pub name: Option<Seq<char>>,
    pub kind: TermKind,
    pub exported: bool,
}

/// The four kinds of types that a signature and an equation can make up
/// together.
#[derive(Clone, Copy, Debug, PartialEq, Eq, Structural)]
pub enum TypeSort {
    Synonym,
    Class,
    Newtype,
    Data,
}

#[allow(inconsistent_fields)]
pub enum TypeKind {
    /// `children` are the constructors of a data type or a newtype and the
    /// members of a class.
    Declared {
        sort: TypeSort,
        signature: Option<TypeSignatureId>,
        equation: Option<TypeEquationId>,
        role: Option<TypeRoleId>,
        children: Seq<TermItemId>,
    },
    Foreign { id: ForeignDataId, role: Option<TypeRoleId> },
    Operator { id: InfixId },
}

pub struct TypeItem {
    pub name: Option<Seq<char>>,
    pub kind: TypeKind,
    pub exported: bool,
}

pub struct InstanceItem {
    pub name: Option<Seq<char>>,
    pub id: InstanceId,
}

impl View for IndexedTermItemKind {
    type V = TermKind;

    open spec fn view(&self) -> TermKind {
        match *self {
            IndexedTermItemKind::ClassMember { id, parent } => TermKind::ClassMember { id, parent },
            IndexedTermItemKind::Constructor { id, type_id } => TermKind::Constructor {
                id,
                type_id,
            },
            IndexedTermItemKind::Foreign { id } => TermKind::Foreign { id },
            IndexedTermItemKind::Operator { id } => TermKind::Operator { id },
            IndexedTermItemKind::Value { signature, equations } => TermKind::Value {
                signature,
                equations: equations@,
            },
        }
    }
}

impl View for IndexedTermItem {
    type V = TermItem;

    open spec fn view(&self) -> TermItem {
        TermItem { name: name_text(self.name), kind: self.kind@, exported: self.exported }
    }
}

impl View for IndexedTypeItemKind {
    type V = TypeKind;

    open spec fn view(&self) -> TypeKind {
        match *self {
            IndexedTypeItemKind::Synonym { signature, equation } => TypeKind::Declared {
                sort: TypeSort::Synonym,
                signature,
                equation,
                role: None,
                children: Seq::empty(),
            },
            IndexedTypeItemKind::Class { signature, declaration, members } => TypeKind::Declared {
                sort: TypeSort::Class,
                signature,
                equation: declaration,
                role: None,
                children: members@,
            },
            IndexedTypeItemKind::Newtype { signature, equation, role, constructors } => {
                TypeKind::Declared {
                    sort: TypeSort::Newtype,
                    signature,
                    equation,
                    role,
                    children: constructors@,
                }
            },
            IndexedTypeItemKind::Data { signature, equation, role, constructors } => {
                TypeKind::Declared {
                    sort: TypeSort::Data,
                    signature,
                    equation,
                    role,
                    children: constructors@,
                }
            },
            IndexedTypeItemKind::Foreign { id, role } => TypeKind::Foreign { id, role },
            IndexedTypeItemKind::Operator { id } => TypeKind::Operator { id },
        }
    }
}

impl View for IndexedTypeItem {
    type V = TypeItem;

    open spec fn view(&self) -> TypeItem {
        TypeItem { name: name_text(self.name), kind: self.kind@, exported: self.exported }
    }
}

impl View for IndexedInstanceItem {
    type V = InstanceItem;

    open spec fn view(&self) -> InstanceItem {
        InstanceItem { name: name_text(self.name), id: self.id }
    }
}

impl View for IndexedDeriveItem {
    type V = InstanceItem;

    open spec fn view(&self) -> InstanceItem {
        InstanceItem { name: name_text(self.name), id: self.id }
    }
}

} // verus!
