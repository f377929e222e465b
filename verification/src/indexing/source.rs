//! The parts of a module's concrete syntax that indexing reads.

use vstd::prelude::*;

verus! {

/// The stable identity of a syntax node, numbered in source order.
#[derive(Clone, Copy, Debug, PartialEq, Eq, Structural, PartialOrd, Ord, Hash)]
pub struct AstId {
    pub raw: u32,
}

pub type DeclarationId = AstId;

pub type ValueSignatureId = AstId;

pub type ValueEquationId = AstId;

pub type InfixId = AstId;

pub type TypeRoleId = AstId;

pub type InstanceChainId = AstId;

pub type InstanceId = AstId;

pub type InstanceMemberId = AstId;

pub type DeriveId = AstId;

pub type ClassMemberId = AstId;

pub type DataConstructorId = AstId;

pub type ForeignDataId = AstId;

pub type ForeignValueId = AstId;

pub type TypeSignatureId = AstId;

pub type TypeEquationId = AstId;

pub type ImportId = AstId;

pub type ImportItemId = AstId;

pub type ExportItemId = AstId;

/// What an optional name reads.
pub open spec fn name_text(name: Option<String>) -> Option<Seq<char>> {
    match name {
        Some(name) => Some(name@),
        None => None,
    }
}

/// The texts of a list of names.
pub open spec fn name_texts(names: Seq<String>) -> Seq<Seq<char>> {
    names.map_values(|name: String| name@)
}

/// A named node inside of a declaration: a data constructor or a class member.
pub struct NamedSyntax {
    pub id: AstId,
    pub name: Option<String>,
}

/// One instance of an instance chain.
pub struct InstanceSyntax {
    pub id: InstanceId,
    pub name: Option<String>,
    pub members: Vec<InstanceMemberId>,
}

/// The kinds of top-level declarations.
#[allow(inconsistent_fields)]
pub enum DeclarationKind {
    ValueSignature { id: ValueSignatureId, name: Option<String> },
    ValueEquation { id: ValueEquationId, name: Option<String> },
    /// The operator is a type operator where `type_keyword` is set.
    Infix { id: InfixId, type_keyword: bool, operator: Option<String> },
    TypeRole { id: TypeRoleId, name: Option<String> },
    InstanceChain { id: InstanceChainId, instances: Vec<InstanceSyntax> },
    TypeSynonymSignature { id: TypeSignatureId, name: Option<String> },
    TypeSynonymEquation { id: TypeEquationId, name: Option<String> },
    ClassSignature { id: TypeSignatureId, name: Option<String> },
    ClassDeclaration { id: TypeEquationId, name: Option<String>, members: Vec<NamedSyntax> },
    ForeignImportData { id: ForeignDataId, name: Option<String> },
    ForeignImportValue { id: ForeignValueId, name: Option<String> },
    NewtypeSignature { id: TypeSignatureId, name: Option<String> },
    NewtypeEquation { id: TypeEquationId, name: Option<String>, constructors: Vec<NamedSyntax> },
    DataSignature { id: TypeSignatureId, name: Option<String> },
    DataEquation { id: TypeEquationId, name: Option<String>, constructors: Vec<NamedSyntax> },
    Derive { id: DeriveId, name: Option<String> },
}

/// A top-level declaration.
pub struct Declaration {
    pub id: DeclarationId,
    pub kind: DeclarationKind,
}

impl Declaration {
    /// How many items and members the declaration can add to a module.
    pub open spec fn size(self) -> nat {
        1 + match self.kind {
            DeclarationKind::InstanceChain { instances, .. } => instances@.len(),
            DeclarationKind::ClassDeclaration { members, .. } => members@.len(),
            DeclarationKind::NewtypeEquation { constructors, .. } => constructors@.len(),
            DeclarationKind::DataEquation { constructors, .. } => constructors@.len(),
            _ => 0,
        }
    }
}

/// The identities of a list of constructors or members.
pub open spec fn child_ids(children: Seq<NamedSyntax>) -> Seq<AstId> {
    children.map_values(|child: NamedSyntax| child.id)
}

impl Declaration {
    pub open spec fn constructor_ids(self) -> Seq<AstId> {
        match self.kind {
            DeclarationKind::NewtypeEquation { constructors, .. } => child_ids(constructors@),
            DeclarationKind::DataEquation { constructors, .. } => child_ids(constructors@),
            _ => Seq::empty(),
        }
    }

    pub open spec fn class_member_ids(self) -> Seq<AstId> {
        match self.kind {
            DeclarationKind::ClassDeclaration { members, .. } => child_ids(members@),
            _ => Seq::empty(),
        }
    }

    pub open spec fn instance_ids(self) -> Seq<AstId> {
        match self.kind {
            DeclarationKind::InstanceChain { instances, .. } => instances@.map_values(
                |instance: InstanceSyntax| instance.id,
            ),
            _ => Seq::empty(),
        }
    }

    /// The instances of an instance chain, in order.
    pub open spec fn chained_instances(self) -> Seq<InstanceSyntax> {
        match self.kind {
            DeclarationKind::InstanceChain { instances, .. } => instances@,
            _ => Seq::empty(),
        }
    }

    /// The identity of an instance chain.
    pub open spec fn chain_ids(self) -> Seq<InstanceChainId> {
        match self.kind {
            DeclarationKind::InstanceChain { id, .. } => seq![id],
            _ => Seq::empty(),
        }
    }

    pub open spec fn derive_ids(self) -> Seq<AstId> {
        match self.kind {
            DeclarationKind::Derive { id, .. } => seq![id],
            _ => Seq::empty(),
        }
    }
}

/// The identities that each of a list of declarations gives, one after the
/// other.
pub open spec fn gather(
    declarations: Seq<Declaration>,
    ids: spec_fn(Declaration) -> Seq<AstId>,
) -> Seq<AstId>
    decreases declarations.len(),
{
    if declarations.len() == 0 {
        Seq::empty()
    } else {
        gather(declarations.drop_last(), ids) + ids(declarations.last())
    }
}

/// Identities are numbered in the order of the source.
pub open spec fn in_source_order(declarations: Seq<Declaration>) -> bool {
    &&& strictly_ascending(declarations.map_values(|declaration: Declaration| declaration.id))
    &&& strictly_ascending(gather(declarations, |d: Declaration| d.constructor_ids()))
    &&& strictly_ascending(gather(declarations, |d: Declaration| d.class_member_ids()))
    &&& strictly_ascending(gather(declarations, |d: Declaration| d.chain_ids()))
    &&& strictly_ascending(gather(declarations, |d: Declaration| d.instance_ids()))
    &&& strictly_ascending(gather(declarations, |d: Declaration| d.derive_ids()))
}

/// Every number is greater than the one before it.
pub open spec fn strictly_ascending(ids: Seq<AstId>) -> bool {
    forall|i: int, j: int| 0 <= i < j < ids.len() ==> ids[i].raw < ids[j].raw
}

/// The size of a list of declarations.
pub open spec fn declarations_size(declarations: Seq<Declaration>) -> nat
    decreases declarations.len(),
{
    if declarations.len() == 0 {
        0
    } else {
        declarations_size(declarations.drop_last()) + declarations.last().size()
    }
}

/// The list behind an imported or exported type: `(..)` or `(A, B)`.
pub enum TypeItems {
    All,
    List(Vec<String>),
}

/// An item of an import list.
#[allow(inconsistent_fields)]
pub enum ImportItemKind {
    Value { name: Option<String> },
    Class { name: Option<String> },
    Type { name: Option<String>, items: Option<TypeItems> },
    Operator { name: Option<String> },
    TypeOperator { name: Option<String> },
}

pub struct ImportItem {
    pub id: ImportItemId,
    pub kind: ImportItemKind,
}

/// The parenthesised list of an import statement.
pub struct ImportList {
    pub hiding: bool,
    pub items: Vec<ImportItem>,
}

pub struct ImportStatement {
    pub id: ImportId,
    pub name: Option<String>,
    pub alias: Option<String>,
    pub list: Option<ImportList>,
}

/// An item of an export list.
#[allow(inconsistent_fields)]
pub enum ExportItemKind {
    Value { name: Option<String> },
    Class { name: Option<String> },
    Type { name: Option<String>, items: Option<TypeItems> },
    Operator { name: Option<String> },
    TypeOperator { name: Option<String> },
    Module { name: Option<String> },
}

pub struct ExportItem {
    pub id: ExportItemId,
    pub kind: ExportItemKind,
}

/// A parsed module.
pub struct ModuleSyntax {
    pub name: Option<String>,
    pub exports: Option<Vec<ExportItem>>,
    pub imports: Vec<ImportStatement>,
    pub declarations: Vec<Declaration>,
}

} // verus!
