//! The checked semantic tree produced by type checking and elaboration.
//!
//! Nodes in this tree have complete checked structure and arena-local identities.
//! Their source provenance refers back to stable identities of the lowered syntax.

use super::evidence::{Evidence, EvidenceBinderId, EvidenceVarId, SuperclassId};
use super::lowering::{
    DoStatementId, LetBindingEquationId, LetBindingId, LetBindingNameGroupId, RecordPunId, Scc,
    SourceBinderId, SourceExpressionId, StringKind, StringLiteral, TermOperatorId,
    TermVariableResolution,
};
use super::types::{FileId, ForallBinderId, Role, SmolStrId, TypeId};
use crate::collections::{IdMap, ItemArena, ItemTable};
use crate::indexing::items::{DeriveItemId, InstanceItemId, TermItemId, TypeItemId};
use crate::indexing::source::{AstId, DeriveId};
use vstd::prelude::*;

verus! {

#[derive(Clone, Copy, Debug, PartialEq, Eq, Structural, Hash)]
pub struct ExpressionId {
    pub raw: u32,
}

#[derive(Clone, Copy, Debug, PartialEq, Eq, Structural, Hash)]
pub struct BinderId {
    pub raw: u32,
}

#[derive(Clone, Copy, Debug, PartialEq, Eq, Structural, Hash)]
pub struct TermDeclarationId {
    pub raw: u32,
}

#[derive(Clone, Copy, Debug, PartialEq, Eq, Structural, Hash)]
pub struct TypeDeclarationId {
    pub raw: u32,
}

#[derive(Clone, Copy, Debug, PartialEq, Eq, Structural, Hash)]
pub struct LocalDeclarationId {
    pub raw: u32,
}

#[derive(Debug)]
pub struct TermDeclaration {
    pub type_id: TypeId,
    pub kind: TermDeclarationKind,
}

#[derive(Debug)]
pub enum TermDeclarationKind {
    Value(ValueDeclaration),
    Foreign,
    Constructor(DataConstructor),
    Instance(InstanceDeclaration),
}

#[derive(Debug)]
pub struct ValueDeclaration {
    pub abstractions: Vec<DeclarationAbstraction>,
    pub equations: Vec<Equation>,
}

#[allow(inconsistent_fields)]
#[derive(Clone, Copy, Debug, PartialEq, Eq, Structural)]
pub enum DeclarationAbstraction {
    Type { binder: ForallBinderId, rigid: TypeId },
    Evidence { constraint: TypeId, binder: EvidenceBinderId },
    /// Consume the next explicit parameter at this point in the type spine.
    Argument,
}

#[derive(Debug)]
pub struct LocalDeclaration {
    pub source: LetBindingNameGroupId,
    pub type_id: TypeId,
    pub value: ValueDeclaration,
}

impl LocalDeclaration {
    pub fn new(
        source: LetBindingNameGroupId,
        type_id: TypeId,
        abstractions: Vec<DeclarationAbstraction>,
        equations: Vec<Equation>,
    ) -> (declaration: LocalDeclaration)
        ensures
            declaration == (LocalDeclaration {
                source,
                type_id,
                value: ValueDeclaration { abstractions, equations },
            }),
    {
        let value = ValueDeclaration { abstractions, equations };
        LocalDeclaration { source, type_id, value }
    }

    /// A declaration of one equation without parameters.
    pub fn nullary(
        source: LetBindingNameGroupId,
        type_id: TypeId,
        equation_source: LetBindingEquationId,
        guarded_expression: GuardedExpression,
    ) -> (declaration: LocalDeclaration)
        ensures
            declaration.source == source,
            declaration.type_id == type_id,
            declaration.value.abstractions@.len() == 0,
            declaration.value.equations@.len() == 1,
            declaration.value.equations@[0].source == EquationSource::Local(equation_source),
            declaration.value.equations@[0].binders@.len() == 0,
            declaration.value.equations@[0].guarded_expression == guarded_expression,
    {
        let equation = Equation::local(equation_source, Vec::new(), guarded_expression);
        let mut equations: Vec<Equation> = Vec::new();
        equations.push(equation);
        LocalDeclaration::new(source, type_id, Vec::new(), equations)
    }
}

#[derive(Debug)]
pub struct DataConstructor {
    pub arguments: Vec<TypeId>,
}

#[derive(Debug)]
pub struct InstanceDeclaration {
    pub class: (FileId, TypeItemId),
    pub rigid_parameters: Vec<TypeId>,
    pub evidences: Vec<InstanceEvidence>,
    pub superclasses: Vec<InstanceSuperclass>,
    pub implementation: InstanceImplementation,
}

#[derive(Debug)]
pub enum InstanceImplementation {
    Members(Vec<InstanceMember>),
    Delegate { constraint: TypeId, evidence: EvidenceVarId },
}

#[derive(Debug)]
pub struct InstanceEvidence {
    pub constraint: TypeId,
    pub evidence: Evidence,
}

#[derive(Clone, Copy, Debug, PartialEq, Eq, Structural)]
pub struct InstanceSuperclass {
    pub id: SuperclassId,
    pub constraint: TypeId,
    pub evidence: EvidenceVarId,
}

#[derive(Debug)]
pub struct InstanceMember {
    pub resolution: (FileId, TermItemId),
    pub implementation_type: TypeId,
    pub abstractions: Vec<DeclarationAbstraction>,
    pub equations: Vec<Equation>,
}

#[derive(Debug)]
pub struct TypeDeclaration {
    pub kind: TypeId,
    pub roles: Vec<Role>,
    pub declaration: TypeDeclarationKind,
}

#[derive(Debug)]
pub enum TypeDeclarationKind {
    Data(DataDeclaration),
    Newtype(DataDeclaration),
    Class(ClassDeclaration),
}

#[derive(Debug)]
pub struct DataDeclaration {
    pub parameters: Vec<ForallBinderId>,
    pub constructors: Vec<TermDeclarationId>,
}

#[derive(Debug)]
pub struct ClassDeclaration {
    pub kind_binders: Vec<ForallBinderId>,
    pub type_parameters: Vec<ForallBinderId>,
    pub superclasses: Vec<ClassSuperclass>,
    pub members: Vec<ClassMember>,
}

#[derive(Clone, Copy, Debug, PartialEq, Eq, Structural)]
pub struct ClassSuperclass {
    pub id: SuperclassId,
    pub constraint: TypeId,
}

#[derive(Clone, Copy, Debug, PartialEq, Eq, Structural)]
pub struct ClassMember {
    pub source: TermItemId,
    pub field_type: TypeId,
}

/// The syntax of an equation among a module's items.
#[derive(Clone, Copy, Debug, PartialEq, Eq, Structural)]
pub enum EquationSourceId {
    Value(AstId),
    Instance(AstId),
}

#[derive(Clone, Copy, Debug, PartialEq, Eq, Structural)]
pub enum EquationSource {
    Item(EquationSourceId),
    Local(LetBindingEquationId),
    Generated { derive: DeriveId, member: TermItemId },
}

#[derive(Debug)]
pub struct Equation {
    pub source: EquationSource,
    pub binders: Vec<BinderId>,
    pub guarded_expression: GuardedExpression,
}

impl Equation {
    pub fn item(
        source: EquationSourceId,
        binders: Vec<BinderId>,
        guarded_expression: GuardedExpression,
    ) -> (equation: Equation)
        ensures
            equation == (Equation {
                source: EquationSource::Item(source),
                binders,
                guarded_expression,
            }),
    {
        let source = EquationSource::Item(source);
        Equation { source, binders, guarded_expression }
    }

    pub fn local(
        source: LetBindingEquationId,
        binders: Vec<BinderId>,
        guarded_expression: GuardedExpression,
    ) -> (equation: Equation)
        ensures
            equation == (Equation {
                source: EquationSource::Local(source),
                binders,
                guarded_expression,
            }),
    {
        let source = EquationSource::Local(source);
        Equation { source, binders, guarded_expression }
    }

    pub fn generated(
        derive: DeriveId,
        member: TermItemId,
        binders: Vec<BinderId>,
        guarded_expression: GuardedExpression,
    ) -> (equation: Equation)
        ensures
            equation == (Equation {
                source: EquationSource::Generated { derive, member },
                binders,
                guarded_expression,
            }),
    {
        let source = EquationSource::Generated { derive, member };
        Equation { source, binders, guarded_expression }
    }
}

#[derive(Debug)]
pub struct GuardedExpression {
    pub alternatives: Vec<GuardedAlternative>,
}

#[derive(Debug)]
pub struct GuardedAlternative {
    pub pattern_guards: Vec<PatternGuard>,
    pub where_expression: WhereExpression,
}

#[derive(Debug)]
pub struct CaseAlternative {
    pub binders: Vec<BinderId>,
    pub guarded_expression: GuardedExpression,
}

#[derive(Clone, Copy, Debug, PartialEq, Eq, Structural)]
pub enum PatternGuard {
    Boolean { expression: ExpressionId },
    Pattern { binder: BinderId, expression: ExpressionId },
}

#[derive(Debug)]
pub struct WhereExpression {
    pub bindings: LetBindings,
    pub expression: ExpressionId,
}

#[derive(Debug)]
pub struct LetBindings {
    pub chunks: Vec<LetBindingChunk>,
}

impl Default for LetBindings {
    fn default() -> (bindings: Self)
        ensures
            bindings.chunks@.len() == 0,
    {
        LetBindings { chunks: Vec::new() }
    }
}

/// The expression with nothing bound around it.
pub open spec fn is_plain(where_expression: WhereExpression, expression: ExpressionId) -> bool {
    where_expression.bindings.chunks@.len() == 0 && where_expression.expression == expression
}

/// The expression without a condition.
pub open spec fn is_unconditional(
    guarded: GuardedExpression,
    where_expression: WhereExpression,
) -> bool {
    &&& guarded.alternatives@.len() == 1
    &&& guarded.alternatives@[0].pattern_guards@.len() == 0
    &&& guarded.alternatives@[0].where_expression == where_expression
}

impl WhereExpression {
    pub fn new(expression: ExpressionId) -> (where_expression: WhereExpression)
        ensures
            is_plain(where_expression, expression),
    {
        WhereExpression { bindings: LetBindings::default(), expression }
    }
}

#[allow(inconsistent_fields)]
#[derive(Debug)]
pub enum LetBindingChunk {
    Pattern { source: LetBindingId, binder: BinderId, where_expression: WhereExpression },
    PatternError {
        source: LetBindingId,
        binder_source: Option<SourceBinderId>,
        where_expression: Option<WhereExpression>,
    },
    Names { declarations: Vec<LocalDeclarationId>, groups: Vec<Scc> },
}

impl GuardedExpression {
    pub fn unconditional(where_expression: WhereExpression) -> (guarded: GuardedExpression)
        ensures
            is_unconditional(guarded, where_expression),
    {
        let alternative = GuardedAlternative { pattern_guards: Vec::new(), where_expression };
        let mut alternatives: Vec<GuardedAlternative> = Vec::new();
        alternatives.push(alternative);
        GuardedExpression { alternatives }
    }
}

#[derive(Debug)]
pub struct Binder {
    pub source: BinderSource,
    pub type_id: TypeId,
    pub kind: BinderKind,
}

#[derive(Clone, Copy, Debug, PartialEq, Eq, Structural)]
pub enum BinderSource {
    Binder(SourceBinderId),
    DoStatement(DoStatementId),
    Operator(TermOperatorId),
    Section(SourceExpressionId),
    Generated { derive: DeriveId, name: SmolStrId },
}

#[allow(inconsistent_fields)]
#[derive(Debug)]
pub enum BinderKind {
    Error,
    Typed { binder: BinderId, annotation: TypeId },
    Integer { value: i32 },
    Number { negative: bool, value: String },
    Variable,
    Named { name: String, binder: BinderId },
    Wildcard,
    String { value: StringLiteral },
    Char { value: char },
    Boolean { value: bool },
    Array { elements: Vec<BinderId> },
    Record { fields: Vec<RecordBinderField> },
    Constructor { resolution: (FileId, TermItemId), arguments: Vec<BinderId> },
}

#[derive(Debug)]
pub enum RecordBinderField {
    Field { label: String, binder: BinderId },
    Pun { label: String },
}

#[derive(Debug)]
pub struct Expression {
    pub type_id: TypeId,
    pub kind: ExpressionKind,
}

#[derive(Clone, Copy, Debug, PartialEq, Eq, Structural)]
pub enum VariableResolution {
    Source(TermVariableResolution),
    Generated(BinderId),
}

#[allow(inconsistent_fields)]
#[derive(Debug)]
pub enum ExpressionKind {
    Error,
    String { kind: StringKind, value: StringLiteral },
    Char { value: char },
    Boolean { value: bool },
    Integer { value: i32 },
    Number { value: String },
    Array { elements: Vec<ExpressionId> },
    Record { fields: Vec<RecordExpressionField> },
    RecordAccess { record: ExpressionId, labels: Vec<String> },
    RecordUpdate { record: ExpressionId, updates: Vec<RecordExpressionUpdate> },
    Constructor { resolution: (FileId, TermItemId) },
    Variable { resolution: VariableResolution },
    RecordPun { source: RecordPunId, resolution: VariableResolution },
    Section { binder: BinderId },
    TermApplication { function: ExpressionId, argument: ExpressionId },
    EvidenceApplication { function: ExpressionId, evidence: EvidenceVarId, constraint: TypeId },
    EvidenceAbstraction { binder: EvidenceBinderId, expression: ExpressionId },
    Lambda { binders: Vec<BinderId>, expression: ExpressionId },
    IfThenElse { condition: ExpressionId, then: ExpressionId, else_: ExpressionId },
    Case { scrutinees: Vec<ExpressionId>, alternatives: Vec<CaseAlternative> },
    Let { bindings: LetBindings, expression: ExpressionId },
}

#[derive(Debug)]
pub enum RecordExpressionField {
    Field { label: String, expression: ExpressionId },
    Pun { source: RecordPunId, label: String, expression: ExpressionId },
}

#[derive(Debug)]
pub enum RecordExpressionUpdate {
    Error,
    Leaf { label: String, expression: ExpressionId },
    Branch { label: String, updates: Vec<RecordExpressionUpdate> },
}

/// All checked expressions, binders and declarations of a module.
pub struct CheckedTree {
    expressions: ItemArena<Expression>,
    binders: ItemArena<Binder>,
    term_declarations: ItemArena<TermDeclaration>,
    type_declarations: ItemArena<TypeDeclaration>,
    local_declarations: ItemArena<LocalDeclaration>,
    terms: ItemTable<TermDeclarationId>,
    instances: ItemTable<TermDeclarationId>,
    derives: ItemTable<TermDeclarationId>,
    types: ItemTable<TypeDeclarationId>,
    lets: ItemTable<LocalDeclarationId>,
    sections: IdMap<BinderId>,
}

/// The model of [`CheckedTree`].
#[verifier::ext_equal]
pub struct Tree {
    pub expressions: Seq<Expression>,
    pub binders: Seq<Binder>,
    pub term_declarations: Seq<TermDeclaration>,
    pub type_declarations: Seq<TypeDeclaration>,
    pub local_declarations: Seq<LocalDeclaration>,
    pub terms: Map<u32, TermDeclarationId>,
    pub instances: Map<u32, TermDeclarationId>,
    pub derives: Map<u32, TermDeclarationId>,
    pub types: Map<u32, TypeDeclarationId>,
    pub lets: Map<u32, LocalDeclarationId>,
    pub sections: Map<u64, BinderId>,
}

/// What a map gives for a key.
pub open spec fn entry<K, V>(map: Map<K, V>, key: K) -> Option<V> {
    if map.contains_key(key) {
        Some(map[key])
    } else {
        None
    }
}

impl Tree {
    pub open spec fn empty() -> Tree {
        Tree {
            expressions: Seq::empty(),
            binders: Seq::empty(),
            term_declarations: Seq::empty(),
            type_declarations: Seq::empty(),
            local_declarations: Seq::empty(),
            terms: Map::empty(),
            instances: Map::empty(),
            derives: Map::empty(),
            types: Map::empty(),
            lets: Map::empty(),
            sections: Map::empty(),
        }
    }

    /// There are positions left for `count` more nodes of each kind.
    pub open spec fn room(self, count: nat) -> bool {
        &&& self.expressions.len() + count <= u32::MAX
        &&& self.binders.len() + count <= u32::MAX
        &&& self.term_declarations.len() + count <= u32::MAX
        &&& self.type_declarations.len() + count <= u32::MAX
        &&& self.local_declarations.len() + count <= u32::MAX
    }

    /// The position of the next expression.
    pub open spec fn next_expression(self) -> ExpressionId {
        ExpressionId { raw: self.expressions.len() as u32 }
    }

    pub open spec fn next_binder(self) -> BinderId {
        BinderId { raw: self.binders.len() as u32 }
    }

    /// The tree with one more expression.
    pub open spec fn with_expression(self, type_id: TypeId, kind: ExpressionKind) -> Tree {
        Tree { expressions: self.expressions.push(Expression { type_id, kind }), ..self }
    }

    /// The tree with one more binder.
    pub open spec fn with_binder(self, source: BinderSource, type_id: TypeId, kind: BinderKind) -> Tree {
        Tree { binders: self.binders.push(Binder { source, type_id, kind }), ..self }
    }
}

impl View for CheckedTree {
    type V = Tree;

    closed spec fn view(&self) -> Tree {
        Tree {
            expressions: self.expressions@,
            binders: self.binders@,
            term_declarations: self.term_declarations@,
            type_declarations: self.type_declarations@,
            local_declarations: self.local_declarations@,
            terms: self.terms@,
            instances: self.instances@,
            derives: self.derives@,
            types: self.types@,
            lets: self.lets@,
            sections: self.sections@,
        }
    }
}

/// The value of an optional reference.
fn copied<T: Copy>(value: Option<&T>) -> (copy: Option<T>)
    ensures
        copy == (match value {
            Some(value) => Some(*value),
            None => None,
        }),
{
    match value {
        Some(value) => Some(*value),
        None => None,
    }
}

impl CheckedTree {
    pub fn new() -> (tree: CheckedTree)
        ensures
            tree@ == Tree::empty(),
    {
        CheckedTree {
            expressions: ItemArena::new(),
            binders: ItemArena::new(),
            term_declarations: ItemArena::new(),
            type_declarations: ItemArena::new(),
            local_declarations: ItemArena::new(),
            terms: ItemTable::new(),
            instances: ItemTable::new(),
            derives: ItemTable::new(),
            types: ItemTable::new(),
            lets: ItemTable::new(),
            sections: IdMap::new(),
        }
    }

    pub fn allocate_expression(&mut self, expression: Expression) -> (id: ExpressionId)
        requires
            old(self)@.expressions.len() <= u32::MAX,
        ensures
            id == old(self)@.next_expression(),
            final(self)@ == old(self)@.with_expression(expression.type_id, expression.kind),
    {
        ExpressionId { raw: self.expressions.push(expression) }
    }

    pub fn set_expression_type(&mut self, expression: ExpressionId, type_id: TypeId)
        requires
            expression.raw < old(self)@.expressions.len(),
        ensures
            final(self)@ == (Tree {
                expressions: old(self)@.expressions.update(
                    expression.raw as int,
                    Expression { type_id, ..old(self)@.expressions[expression.raw as int] },
                ),
                ..old(self)@
            }),
    {
        self.expressions.get_mut(expression.raw).type_id = type_id;
    }

    pub fn allocate_binder(&mut self, binder: Binder) -> (id: BinderId)
        requires
            old(self)@.binders.len() <= u32::MAX,
        ensures
            id == old(self)@.next_binder(),
            final(self)@ == old(self)@.with_binder(binder.source, binder.type_id, binder.kind),
    {
        BinderId { raw: self.binders.push(binder) }
    }

    /// The binder of an operator section. There is one for each section.
    pub fn allocate_section_binder(&mut self, source: SourceExpressionId, type_id: TypeId) -> (id:
        BinderId)
        requires
            old(self)@.binders.len() <= u32::MAX,
            !old(self)@.sections.contains_key(source.raw as u64),
        ensures
            id == old(self)@.next_binder(),
            final(self)@ == (Tree {
                sections: old(self)@.sections.insert(source.raw as u64, id),
                ..old(self)@.with_binder(BinderSource::Section(source), type_id, BinderKind::Variable)
            }),
    {
        let source_kind = BinderSource::Section(source);
        let binder = Binder { source: source_kind, type_id, kind: BinderKind::Variable };
        let id = self.allocate_binder(binder);
        self.sections.insert(source.raw as u64, id);
        id
    }

    pub fn lookup_section_binder(&self, source: SourceExpressionId) -> (id: Option<BinderId>)
        ensures
            id == entry(self@.sections, source.raw as u64),
    {
        copied(self.sections.get(source.raw as u64))
    }

    /// Adds the declaration of a term; it takes the place of an earlier one.
    pub fn insert_term(&mut self, source: TermItemId, term: TermDeclaration) -> (id:
        TermDeclarationId)
        requires
            old(self)@.term_declarations.len() <= u32::MAX,
            source.raw < usize::MAX,
        ensures
            id.raw == old(self)@.term_declarations.len(),
            final(self)@ == (Tree {
                term_declarations: old(self)@.term_declarations.push(term),
                terms: old(self)@.terms.insert(source.raw, id),
                ..old(self)@
            }),
    {
        let id = TermDeclarationId { raw: self.term_declarations.push(term) };
        self.terms.insert(source.raw, id);
        id
    }

    pub fn lookup_term(&self, source: TermItemId) -> (id: Option<TermDeclarationId>)
        ensures
            id == entry(self@.terms, source.raw),
    {
        copied(self.terms.get(source.raw))
    }

    /// Adds the declaration of an instance; it takes the place of an earlier one.
    pub fn insert_instance(&mut self, source: InstanceItemId, declaration: TermDeclaration) -> (id:
        TermDeclarationId)
        requires
            old(self)@.term_declarations.len() <= u32::MAX,
            source.raw < usize::MAX,
        ensures
            id.raw == old(self)@.term_declarations.len(),
            final(self)@ == (Tree {
                term_declarations: old(self)@.term_declarations.push(declaration),
                instances: old(self)@.instances.insert(source.raw, id),
                ..old(self)@
            }),
    {
        let id = TermDeclarationId { raw: self.term_declarations.push(declaration) };
        self.instances.insert(source.raw, id);
        id
    }

    pub fn lookup_instance(&self, source: InstanceItemId) -> (id: Option<TermDeclarationId>)
        ensures
            id == entry(self@.instances, source.raw),
    {
        copied(self.instances.get(source.raw))
    }

    /// Adds the declaration of a derived instance; it takes the place of an
    /// earlier one.
    pub fn insert_derive(&mut self, source: DeriveItemId, declaration: TermDeclaration) -> (id:
        TermDeclarationId)
        requires
            old(self)@.term_declarations.len() <= u32::MAX,
            source.raw < usize::MAX,
        ensures
            id.raw == old(self)@.term_declarations.len(),
            final(self)@ == (Tree {
                term_declarations: old(self)@.term_declarations.push(declaration),
                derives: old(self)@.derives.insert(source.raw, id),
                ..old(self)@
            }),
    {
        let id = TermDeclarationId { raw: self.term_declarations.push(declaration) };
        self.derives.insert(source.raw, id);
        id
    }

    pub fn lookup_derive(&self, source: DeriveItemId) -> (id: Option<TermDeclarationId>)
        ensures
            id == entry(self@.derives, source.raw),
    {
        copied(self.derives.get(source.raw))
    }

    /// Adds a local declaration. There is one for each group of names.
    pub fn insert_let(&mut self, declaration: LocalDeclaration) -> (id: LocalDeclarationId)
        requires
            old(self)@.local_declarations.len() <= u32::MAX,
            declaration.source.raw < usize::MAX,
            !old(self)@.lets.contains_key(declaration.source.raw),
        ensures
            id.raw == old(self)@.local_declarations.len(),
            final(self)@ == (Tree {
                local_declarations: old(self)@.local_declarations.push(declaration),
                lets: old(self)@.lets.insert(declaration.source.raw, id),
                ..old(self)@
            }),
    {
        let source = declaration.source;
        let id = LocalDeclarationId { raw: self.local_declarations.push(declaration) };
        self.lets.insert(source.raw, id);
        id
    }

    pub fn lookup_let(&self, source: LetBindingNameGroupId) -> (id: Option<LocalDeclarationId>)
        ensures
            id == entry(self@.lets, source.raw),
    {
        copied(self.lets.get(source.raw))
    }

    pub fn set_let_type(&mut self, declaration: LocalDeclarationId, type_id: TypeId)
        requires
            declaration.raw < old(self)@.local_declarations.len(),
        ensures
            final(self)@ == (Tree {
                local_declarations: old(self)@.local_declarations.update(
                    declaration.raw as int,
                    LocalDeclaration {
                        type_id,
                        ..old(self)@.local_declarations[declaration.raw as int]
                    },
                ),
                ..old(self)@
            }),
    {
        self.local_declarations.get_mut(declaration.raw).type_id = type_id;
    }

    /// Adds the declaration of a type; it takes the place of an earlier one.
    pub fn insert_type_declaration(
        &mut self,
        source: TypeItemId,
        declaration: TypeDeclaration,
    ) -> (id: TypeDeclarationId)
        requires
            old(self)@.type_declarations.len() <= u32::MAX,
            source.raw < usize::MAX,
        ensures
            id.raw == old(self)@.type_declarations.len(),
            final(self)@ == (Tree {
                type_declarations: old(self)@.type_declarations.push(declaration),
                types: old(self)@.types.insert(source.raw, id),
                ..old(self)@
            }),
    {
        let id = TypeDeclarationId { raw: self.type_declarations.push(declaration) };
        self.types.insert(source.raw, id);
        id
    }

    pub fn lookup_type_declaration(&self, source: TypeItemId) -> (id: Option<TypeDeclarationId>)
        ensures
            id == entry(self@.types, source.raw),
    {
        copied(self.types.get(source.raw))
    }

    pub fn expression(&self, id: ExpressionId) -> (expression: &Expression)
        requires
            id.raw < self@.expressions.len(),
        ensures
            *expression == self@.expressions[id.raw as int],
    {
        self.expressions.get(id.raw)
    }

    pub fn binder(&self, id: BinderId) -> (binder: &Binder)
        requires
            id.raw < self@.binders.len(),
        ensures
            *binder == self@.binders[id.raw as int],
    {
        self.binders.get(id.raw)
    }

    pub fn term_declaration(&self, id: TermDeclarationId) -> (declaration: &TermDeclaration)
        requires
            id.raw < self@.term_declarations.len(),
        ensures
            *declaration == self@.term_declarations[id.raw as int],
    {
        self.term_declarations.get(id.raw)
    }

    pub fn type_declaration(&self, id: TypeDeclarationId) -> (declaration: &TypeDeclaration)
        requires
            id.raw < self@.type_declarations.len(),
        ensures
            *declaration == self@.type_declarations[id.raw as int],
    {
        self.type_declarations.get(id.raw)
    }

    pub fn local_declaration(&self, id: LocalDeclarationId) -> (declaration: &LocalDeclaration)
        requires
            id.raw < self@.local_declarations.len(),
        ensures
            *declaration == self@.local_declarations[id.raw as int],
    {
        self.local_declarations.get(id.raw)
    }
}

impl Tree {
    pub open spec fn expression_at(self, id: ExpressionId) -> Option<Expression> {
        if id.raw < self.expressions.len() {
            Some(self.expressions[id.raw as int])
        } else {
            None
        }
    }

    pub open spec fn binder_at(self, id: BinderId) -> Option<Binder> {
        if id.raw < self.binders.len() {
            Some(self.binders[id.raw as int])
        } else {
            None
        }
    }

    pub open spec fn term_at(self, id: TermDeclarationId) -> Option<TermDeclaration> {
        if id.raw < self.term_declarations.len() {
            Some(self.term_declarations[id.raw as int])
        } else {
            None
        }
    }

    pub open spec fn type_at(self, id: TypeDeclarationId) -> Option<TypeDeclaration> {
        if id.raw < self.type_declarations.len() {
            Some(self.type_declarations[id.raw as int])
        } else {
            None
        }
    }

    pub open spec fn local_at(self, id: LocalDeclarationId) -> Option<LocalDeclaration> {
        if id.raw < self.local_declarations.len() {
            Some(self.local_declarations[id.raw as int])
        } else {
            None
        }
    }
}

/// What is found is what is there.
pub open spec fn found<T>(reference: Option<&T>, value: Option<T>) -> bool {
    match (reference, value) {
        (Some(reference), Some(value)) => *reference == value,
        (None, None) => true,
        _ => false,
    }
}

impl CheckedTree {
    pub fn find_expression(&self, id: ExpressionId) -> (expression: Option<&Expression>)
        ensures
            found(expression, self@.expression_at(id)),
    {
        if (id.raw as usize) < self.expressions.len() {
            Some(self.expressions.get(id.raw))
        } else {
            None
        }
    }

    pub fn find_binder(&self, id: BinderId) -> (binder: Option<&Binder>)
        ensures
            found(binder, self@.binder_at(id)),
    {
        if (id.raw as usize) < self.binders.len() {
            Some(self.binders.get(id.raw))
        } else {
            None
        }
    }

    pub fn find_term(&self, id: TermDeclarationId) -> (declaration: Option<&TermDeclaration>)
        ensures
            found(declaration, self@.term_at(id)),
    {
        if (id.raw as usize) < self.term_declarations.len() {
            Some(self.term_declarations.get(id.raw))
        } else {
            None
        }
    }

    pub fn find_type(&self, id: TypeDeclarationId) -> (declaration: Option<&TypeDeclaration>)
        ensures
            found(declaration, self@.type_at(id)),
    {
        if (id.raw as usize) < self.type_declarations.len() {
            Some(self.type_declarations.get(id.raw))
        } else {
            None
        }
    }

    pub fn find_local(&self, id: LocalDeclarationId) -> (declaration: Option<&LocalDeclaration>)
        ensures
            found(declaration, self@.local_at(id)),
    {
        if (id.raw as usize) < self.local_declarations.len() {
            Some(self.local_declarations.get(id.raw))
        } else {
            None
        }
    }

    pub fn binder_count(&self) -> (count: usize)
        ensures
            count == self@.binders.len(),
    {
        self.binders.len()
    }

    /// There are positions left for `count` more nodes of each kind.
    pub fn has_room(&self, count: u32) -> (room: bool)
        ensures
            room == self@.room(count as nat),
    {
        let last: u32 = u32::MAX - count;
        self.expressions.len() <= last as usize && self.binders.len() <= last as usize
            && self.term_declarations.len() <= last as usize && self.type_declarations.len()
            <= last as usize && self.local_declarations.len() <= last as usize
    }

    /// How many expressions and local declarations there are.
    pub fn size(&self) -> (size: usize)
        ensures
            size == limit(self@.expressions.len(), self@.local_declarations.len()),
    {
        limited(self.expressions.len(), self.local_declarations.len())
    }
}

/// One more than two numbers together, as far as that can be counted.
pub open spec fn limit(first: nat, second: nat) -> nat {
    if first + second < usize::MAX {
        first + second + 1
    } else {
        usize::MAX as nat
    }
}

/// One more than two numbers together, as far as that can be counted.
pub fn limited(first: usize, second: usize) -> (sum: usize)
    ensures
        sum == limit(first as nat, second as nat),
{
    if first < usize::MAX - second {
        first + second + 1
    } else {
        usize::MAX
    }
}

} // verus!
