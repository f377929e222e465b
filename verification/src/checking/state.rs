//! Implements the algorithm's core state structures.

use super::error::{CheckingError, ErrorCrumb, ErrorKind, PatternId};
use super::evidence::{EvidenceBinderId, EvidenceModel, EvidenceState, EvidenceTable, EvidenceVarId};
use super::lowering::{
    DoStatementId, GraphNodeId, ImplicitBindingId, SourceBinderId, SourceExpressionId, SourceTypeId,
    TermOperatorId, TypeVariableBindingId,
};
use super::tree::{
    Binder, BinderId, BinderKind, BinderSource, CheckedTree, Expression, ExpressionId,
    ExpressionKind, Tree,
};
use super::types::{
    extends, Depth, FileId, ForallBinder, ForallBinderId, Name, Role, SkolemScope, SmolStrId, Type,
    TypeId, Types,
};
use crate::collections::{copy_all, IdMap};
use crate::indexing::items::{TermItemId, TypeItemId};
use crate::indexing::source::DeriveId;
use vstd::prelude::*;

verus! {

/// Hands out names that are not in use.
pub struct Names {
    unique: u32,
    file: FileId,
}

impl Names {
    /// The number of names handed out.
    pub closed spec fn count(self) -> nat {
        self.unique as nat
    }

    pub closed spec fn file(self) -> FileId {
        self.file
    }

    pub fn new(file: FileId) -> (names: Names)
        ensures
            names.count() == 0,
            names.file() == file,
    {
        Names { unique: 0, file }
    }

    /// A name that no earlier call has returned.
    pub fn fresh(&mut self) -> (name: Name)
        requires
            old(self).count() < u32::MAX,
        ensures
            name == (Name {
                file: old(self).file(),
                unique: old(self).count() as u32,
                scope: None,
            }),
            final(self).count() == old(self).count() + 1,
            final(self).file() == old(self).file(),
    {
        let unique: u32 = self.unique;
        self.unique += 1;
        Name { file: self.file, unique, scope: None }
    }

    /// A new name that must not leave a scope of its own.
    pub fn fresh_scoped(&mut self) -> (scoped: (Name, SkolemScope))
        requires
            old(self).count() < u32::MAX,
        ensures
            scoped.1 == (SkolemScope {
                file: old(self).file(),
                unique: old(self).count() as u32,
            }),
            scoped.0 == (Name {
                file: old(self).file(),
                unique: old(self).count() as u32,
                scope: Some(scoped.1),
            }),
            final(self).count() == old(self).count() + 1,
            final(self).file() == old(self).file(),
    {
        let name = self.fresh();
        let scope = SkolemScope { file: name.file, unique: name.unique };
        (Name { scope: Some(scope), ..name }, scope)
    }
}

#[derive(Clone, Copy, Debug, PartialEq, Eq, Structural)]
pub enum UnificationState {
    Unsolved,
    Solved(TypeId),
}

#[derive(Clone, Copy, Debug, PartialEq, Eq, Structural)]
pub struct UnificationEntry {
    pub depth: Depth,
    pub kind: TypeId,
    pub state: UnificationState,
}

/// Manages unification variables.
pub struct Unifications {
    entries: Vec<UnificationEntry>,
    unique: u32,
    frozen: bool,
}

impl View for Unifications {
    type V = Seq<UnificationEntry>;

    closed spec fn view(&self) -> Seq<UnificationEntry> {
        self.entries@
    }
}

impl Unifications {
    /// Every variable has one entry, at the position of its number.
    pub closed spec fn wf(self) -> bool {
        self.unique == self.entries@.len()
    }

    /// No variable can be made or solved.
    pub closed spec fn is_frozen(self) -> bool {
        self.frozen
    }

    pub fn new() -> (unifications: Unifications)
        ensures
            unifications.wf(),
            !unifications.is_frozen(),
            unifications@.len() == 0,
    {
        Unifications { entries: Vec::new(), unique: 0, frozen: false }
    }

    /// A new variable.
    pub fn fresh(&mut self, depth: Depth, kind: TypeId) -> (id: u32)
        requires
            old(self).wf(),
            !old(self).is_frozen(),
            old(self)@.len() < u32::MAX,
        ensures
            final(self).wf(),
            !final(self).is_frozen(),
            id == old(self)@.len(),
            final(self)@ == old(self)@.push(
                UnificationEntry { depth, kind, state: UnificationState::Unsolved },
            ),
    {
        let unique: u32 = self.unique;
        self.unique += 1;
        self.entries.push(UnificationEntry { depth, kind, state: UnificationState::Unsolved });
        unique
    }

    pub fn get(&self, index: u32) -> (entry: &UnificationEntry)
        requires
            index < self@.len(),
        ensures
            *entry == self@[index as int],
    {
        &self.entries[index as usize]
    }

    pub fn get_mut(&mut self, index: u32) -> (entry: &mut UnificationEntry)
        requires
            index < old(self)@.len(),
        ensures
            *entry == old(self)@[index as int],
            final(self)@ == old(self)@.update(index as int, *final(entry)),
            final(self).is_frozen() == old(self).is_frozen(),
            old(self).wf() ==> final(self).wf(),
    {
        &mut self.entries[index as usize]
    }

    /// Gives a variable its solution. While frozen, only solved variables can be
    /// given another one.
    pub fn solve(&mut self, index: u32, solution: TypeId)
        requires
            index < old(self)@.len(),
            old(self).is_frozen() ==> old(self)@[index as int].state is Solved,
        ensures
            final(self)@ == old(self)@.update(
                index as int,
                UnificationEntry {
                    state: UnificationState::Solved(solution),
                    ..old(self)@[index as int]
                },
            ),
            final(self).is_frozen() == old(self).is_frozen(),
            old(self).wf() ==> final(self).wf(),
    {
        self.get_mut(index).state = UnificationState::Solved(solution);
    }

    /// All variables, in the order of their numbers.
    pub fn iter(&self) -> (entries: &Vec<UnificationEntry>)
        ensures
            entries@ == self@,
    {
        &self.entries
    }

    pub fn freeze(&mut self)
        ensures
            final(self)@ == old(self)@,
            final(self).is_frozen(),
            old(self).wf() ==> final(self).wf(),
    {
        self.frozen = true;
    }

    pub fn unfreeze(&mut self)
        ensures
            final(self)@ == old(self)@,
            !final(self).is_frozen(),
            old(self).wf() ==> final(self).wf(),
    {
        self.frozen = false;
    }
}

/// A type variable of the source.
#[derive(Clone, Copy, Debug, PartialEq, Eq, Structural)]
pub enum SourceTypeVariableKey {
    Forall(TypeVariableBindingId),
    Implicit { node: GraphNodeId, id: ImplicitBindingId },
}

#[derive(Clone, Copy, Debug, PartialEq, Eq, Structural)]
pub struct SourceTypeVariable {
    pub name: Name,
    pub depth: Depth,
    pub kind: TypeId,
}

/// The replacement of a rigid type variable.
#[derive(Clone, Copy, Debug, PartialEq, Eq, Structural)]
pub struct RigidReplacement {
    pub from: Name,
    pub to: Name,
    pub depth: Depth,
}

/// A renaming of rigid type variables.
#[derive(Debug)]
pub struct RigidRenaming {
    pub replacements: Vec<RigidReplacement>,
}

/// The first replacement of a name.
pub open spec fn replacement_of(replacements: Seq<RigidReplacement>, name: Name) -> Option<
    (Name, Depth),
>
    decreases replacements.len(),
{
    if replacements.len() == 0 {
        None
    } else if replacements[0].from == name {
        Some((replacements[0].to, replacements[0].depth))
    } else {
        replacement_of(replacements.skip(1), name)
    }
}

impl RigidRenaming {
    /// The replacement of a name.
    pub fn replacement(&self, name: Name) -> (replacement: Option<(Name, Depth)>)
        ensures
            replacement == replacement_of(self.replacements@, name),
    {
        let mut index: usize = 0;
        assert(self.replacements@.skip(0) =~= self.replacements@);
        while index < self.replacements.len()
            invariant
                index <= self.replacements.len(),
                replacement_of(self.replacements@, name) == replacement_of(
                    self.replacements@.skip(index as int),
                    name,
                ),
            decreases self.replacements.len() - index,
        {
            let replacement = self.replacements[index];
            assert(self.replacements@.skip(index as int).skip(1) =~= self.replacements@.skip(
                index + 1,
            ));
            if replacement.from == name {
                return Some((replacement.to, replacement.depth));
            }
            index += 1;
        }
        None
    }
}

/// Tracks type variable bindings during kind inference.
pub struct Bindings {
    foralls: IdMap<SourceTypeVariable>,
    implicits: IdMap<SourceTypeVariable>,
}

/// One number for two.
pub open spec fn packed(high: u32, low: u32) -> u64 {
    (high * 0x1_0000_0000 + low) as u64
}

/// One number for two.
pub fn pack(high: u32, low: u32) -> (number: u64)
    ensures
        number == packed(high, low),
{
    high as u64 * 0x1_0000_0000 + low as u64
}

impl Bindings {
    /// What a variable was bound to last.
    pub closed spec fn binding(self, key: SourceTypeVariableKey) -> Option<SourceTypeVariable> {
        match key {
            SourceTypeVariableKey::Forall(id) => if self.foralls@.contains_key(id.raw as u64) {
                Some(self.foralls@[id.raw as u64])
            } else {
                None
            },
            SourceTypeVariableKey::Implicit { node, id } => {
                let number = packed(node.raw, id.raw);
                if self.implicits@.contains_key(number) {
                    Some(self.implicits@[number])
                } else {
                    None
                }
            },
        }
    }

    pub fn new() -> (bindings: Bindings)
        ensures
            forall|key: SourceTypeVariableKey| #[trigger] bindings.binding(key) is None,
    {
        Bindings { foralls: IdMap::new(), implicits: IdMap::new() }
    }

    fn bind(&mut self, key: SourceTypeVariableKey, name: Name, depth: Depth, kind: TypeId)
        ensures
            forall|other: SourceTypeVariableKey| #[trigger]
                final(self).binding(other) == (if other == key {
                    Some(SourceTypeVariable { name, depth, kind })
                } else {
                    old(self).binding(other)
                }),
    {
        let variable = SourceTypeVariable { name, depth, kind };
        match key {
            SourceTypeVariableKey::Forall(id) => {
                self.foralls.insert(id.raw as u64, variable);
            },
            SourceTypeVariableKey::Implicit { node, id } => {
                self.implicits.insert(pack(node.raw, id.raw), variable);
            },
        }
    }

    pub fn bind_forall(
        &mut self,
        id: TypeVariableBindingId,
        name: Name,
        depth: Depth,
        kind: TypeId,
    )
        ensures
            forall|other: SourceTypeVariableKey| #[trigger]
                final(self).binding(other) == (if other == SourceTypeVariableKey::Forall(id) {
                    Some(SourceTypeVariable { name, depth, kind })
                } else {
                    old(self).binding(other)
                }),
    {
        self.bind(SourceTypeVariableKey::Forall(id), name, depth, kind);
    }

    pub fn bind_implicit(
        &mut self,
        node: GraphNodeId,
        id: ImplicitBindingId,
        name: Name,
        depth: Depth,
        kind: TypeId,
    )
        ensures
            forall|other: SourceTypeVariableKey| #[trigger]
                final(self).binding(other) == (if other == (SourceTypeVariableKey::Implicit {
                    node,
                    id,
                }) {
                    Some(SourceTypeVariable { name, depth, kind })
                } else {
                    old(self).binding(other)
                }),
    {
        self.bind(SourceTypeVariableKey::Implicit { node, id }, name, depth, kind);
    }

    pub fn lookup(&self, key: SourceTypeVariableKey) -> (variable: Option<SourceTypeVariable>)
        ensures
            variable == self.binding(key),
    {
        let found = match key {
            SourceTypeVariableKey::Forall(id) => self.foralls.get(id.raw as u64),
            SourceTypeVariableKey::Implicit { node, id } => self.implicits.get(
                pack(node.raw, id.raw),
            ),
        };
        match found {
            Some(variable) => Some(*variable),
            None => None,
        }
    }
}

/// A constraint that evidence is sought for.
#[derive(Clone, Copy, Debug, PartialEq, Eq, Structural)]
pub struct WantedConstraint {
    pub constraint: TypeId,
    pub evidence: EvidenceVarId,
}

/// A constraint that evidence is given for.
#[derive(Clone, Copy, Debug, PartialEq, Eq, Structural)]
pub struct GivenConstraint {
    pub constraint: TypeId,
    pub evidence: EvidenceBinderId,
}

/// Patterns that are missing from a group of equations.
#[derive(Debug)]
pub struct MissingPatterns {
    pub patterns: Vec<PatternId>,
    pub crumbs: Vec<ErrorCrumb>,
}

/// The constraints of one scope.
#[derive(Debug)]
pub struct Implication {
    pub parent: Option<usize>,
    pub wanted: Vec<WantedConstraint>,
    pub given: Vec<GivenConstraint>,
    pub patterns: Vec<MissingPatterns>,
}

/// The model of [`Implication`].
#[verifier::ext_equal]
pub struct Scope {
    pub parent: Option<usize>,
    pub wanted: Seq<WantedConstraint>,
    pub given: Seq<GivenConstraint>,
    pub patterns: Seq<MissingPatterns>,
}

impl View for Implication {
    type V = Scope;

    open spec fn view(&self) -> Scope {
        Scope {
            parent: self.parent,
            wanted: self.wanted@,
            given: self.given@,
            patterns: self.patterns@,
        }
    }
}

/// The tree of scopes and the one that is current.
pub struct Implications {
    nodes: Vec<Implication>,
    current: usize,
}

/// The model of [`Implications`].
#[verifier::ext_equal]
pub struct Scopes {
    pub nodes: Seq<Scope>,
    pub current: int,
}

impl Scopes {
    /// The current scope exists, and so do the parents of all scopes.
    pub open spec fn wf(self) -> bool {
        &&& 0 <= self.current < self.nodes.len()
        &&& forall|i: int|
            0 <= i < self.nodes.len() ==> match (#[trigger] self.nodes[i]).parent {
                Some(parent) => parent < i,
                None => true,
            }
    }

    pub open spec fn top(self) -> Scope {
        self.nodes[self.current]
    }

    /// The scopes with another current one.
    pub open spec fn with_top(self, scope: Scope) -> Scopes {
        Scopes { nodes: self.nodes.update(self.current, scope), ..self }
    }

    /// A new scope within the current one.
    pub open spec fn pushed(self) -> Scopes {
        Scopes {
            nodes: self.nodes.push(
                Scope {
                    parent: Some(self.current as usize),
                    wanted: Seq::empty(),
                    given: Seq::empty(),
                    patterns: Seq::empty(),
                },
            ),
            current: self.nodes.len() as int,
        }
    }
}

impl View for Implications {
    type V = Scopes;

    closed spec fn view(&self) -> Scopes {
        Scopes {
            nodes: Seq::new(self.nodes@.len(), |i: int| self.nodes@[i]@),
            current: self.current as int,
        }
    }
}

impl Implications {
    pub fn new() -> (implications: Implications)
        ensures
            implications@.wf(),
            implications@.nodes.len() == 1,
            implications@.current == 0,
    {
        let mut nodes: Vec<Implication> = Vec::new();
        nodes.push(
            Implication {
                parent: None,
                wanted: Vec::new(),
                given: Vec::new(),
                patterns: Vec::new(),
            },
        );
        Implications { nodes, current: 0 }
    }

    /// Opens a scope within the current one.
    pub fn push(&mut self) -> (id: usize)
        requires
            old(self)@.wf(),
        ensures
            final(self)@.wf(),
            id == old(self)@.nodes.len(),
            final(self)@ == old(self)@.pushed(),
    {
        let id: usize = self.nodes.len();
        self.nodes.push(
            Implication {
                parent: Some(self.current),
                wanted: Vec::new(),
                given: Vec::new(),
                patterns: Vec::new(),
            },
        );
        self.current = id;
        assert(self@ =~~= old(self)@.pushed());
        id
    }

    /// Closes the current scope.
    pub fn pop(&mut self, id: usize)
        requires
            old(self)@.wf(),
            old(self)@.current == id,
            old(self)@.top().parent is Some,
        ensures
            final(self)@.wf(),
            final(self)@ == (Scopes {
                current: old(self)@.top().parent->0 as int,
                ..old(self)@
            }),
    {
        if let Some(parent) = self.nodes[self.current].parent {
            self.current = parent;
        }
    }

    /// The current scope.
    pub fn current_mut(&mut self) -> (implication: &mut Implication)
        requires
            old(self)@.wf(),
        ensures
            implication@ == old(self)@.top(),
            final(self)@ == old(self)@.with_top(final(implication)@),
    {
        let implication = &mut self.nodes[self.current];
        implication
    }
}

/// A constructor with patterns for its fields.
#[derive(Debug)]
pub struct PatternConstructor {
    pub tag: u32,
    pub fields: Vec<PatternId>,
}

#[derive(Debug)]
pub enum PatternKind {
    Wildcard,
    Constructor { constructor: PatternConstructor },
}

/// A pattern of a type.
#[derive(Debug)]
pub struct Pattern {
    pub kind: PatternKind,
    pub t: TypeId,
}

/// The model of [`Pattern`].
pub enum PatternShape {
    Wildcard,
    Constructor { tag: u32, fields: Seq<PatternId> },
}

impl View for PatternKind {
    type V = PatternShape;

    open spec fn view(&self) -> PatternShape {
        match *self {
            PatternKind::Wildcard => PatternShape::Wildcard,
            PatternKind::Constructor { constructor } => PatternShape::Constructor {
                tag: constructor.tag,
                fields: constructor.fields@,
            },
        }
    }
}

/// Whether two lists of patterns are the same.
fn same_patterns(left: &Vec<PatternId>, right: &Vec<PatternId>) -> (same: bool)
    ensures
        same == (left@ == right@),
{
    if left.len() != right.len() {
        return false;
    }
    let mut index: usize = 0;
    while index < left.len()
        invariant
            index <= left.len() == right.len(),
            forall|i: int| 0 <= i < index ==> left@[i] == right@[i],
        decreases left.len() - index,
    {
        if left[index] != right[index] {
            assert(left@[index as int] != right@[index as int]);
            return false;
        }
        index += 1;
    }
    assert(left@ =~= right@);
    true
}

fn same_kind(left: &PatternKind, right: &PatternKind) -> (same: bool)
    ensures
        same == (left@ == right@),
{
    match (left, right) {
        (PatternKind::Wildcard, PatternKind::Wildcard) => true,
        (
            PatternKind::Constructor { constructor: left },
            PatternKind::Constructor { constructor: right },
        ) => left.tag == right.tag && same_patterns(&left.fields, &right.fields),
        _ => false,
    }
}

/// Interned patterns. Equal ones have the same identity.
pub struct PatternInterner {
    patterns: Vec<Pattern>,
}

impl View for PatternInterner {
    type V = Seq<(PatternShape, TypeId)>;

    closed spec fn view(&self) -> Seq<(PatternShape, TypeId)> {
        Seq::new(self.patterns@.len(), |i: int| (self.patterns@[i].kind@, self.patterns@[i].t))
    }
}

/// The patterns with one more, unless it is held already.
pub open spec fn pattern_held(
    patterns: Seq<(PatternShape, TypeId)>,
    pattern: (PatternShape, TypeId),
) -> Seq<(PatternShape, TypeId)> {
    if patterns.contains(pattern) {
        patterns
    } else {
        patterns.push(pattern)
    }
}

impl PatternInterner {
    pub fn new() -> (interner: PatternInterner)
        ensures
            interner@.len() == 0,
    {
        PatternInterner { patterns: Vec::new() }
    }

    /// The identity of a pattern. A pattern that is new gets the next one.
    pub fn intern(&mut self, pattern: Pattern) -> (id: PatternId)
        requires
            old(self)@.no_duplicates(),
        ensures
            final(self)@.no_duplicates(),
            id.raw < final(self)@.len(),
            final(self)@[id.raw as int] == (pattern.kind@, pattern.t),
            final(self)@ == pattern_held(old(self)@, (pattern.kind@, pattern.t)),
    {
        let ghost model = (pattern.kind@, pattern.t);
        let mut index: usize = 0;
        while index < self.patterns.len()
            invariant
                index <= self.patterns.len(),
                *self == *old(self),
                self@.no_duplicates(),
                model == (pattern.kind@, pattern.t),
                forall|i: int| 0 <= i < index ==> self@[i] != model,
            decreases self.patterns.len() - index,
        {
            let known = &self.patterns[index];
            if known.t == pattern.t && same_kind(&known.kind, &pattern.kind) {
                assert(self@[index as int] == model);
                return PatternId { raw: index };
            }
            index += 1;
        }
        let id = PatternId { raw: self.patterns.len() };
        self.patterns.push(pattern);
        assert(self@ =~= old(self)@.push(model));
        id
    }
}

/// What is known about the exhaustiveness of a group of equations.
#[derive(Debug)]
pub struct ExhaustivenessReport {
    pub missing: Option<Vec<PatternId>>,
    pub redundant: Vec<PatternId>,
}

/// Texts of names; a name that is given a text again has the later one.
pub struct NameTexts {
    entries: Vec<(Name, SmolStrId)>,
}

/// The text that a name was given last.
pub open spec fn last_text(entries: Seq<(Name, SmolStrId)>, name: Name) -> Option<SmolStrId>
    decreases entries.len(),
{
    if entries.len() == 0 {
        None
    } else if entries.last().0 == name {
        Some(entries.last().1)
    } else {
        last_text(entries.drop_last(), name)
    }
}

impl View for NameTexts {
    type V = Seq<(Name, SmolStrId)>;

    closed spec fn view(&self) -> Seq<(Name, SmolStrId)> {
        self.entries@
    }
}

impl NameTexts {
    pub fn new() -> (texts: NameTexts)
        ensures
            texts@.len() == 0,
    {
        NameTexts { entries: Vec::new() }
    }

    pub fn insert(&mut self, name: Name, text: SmolStrId)
        ensures
            final(self)@ == old(self)@.push((name, text)),
    {
        self.entries.push((name, text));
    }

    pub fn lookup(&self, name: Name) -> (text: Option<SmolStrId>)
        ensures
            text == last_text(self@, name),
    {
        let mut index: usize = self.entries.len();
        assert(self@.take(index as int) =~= self@);
        while index > 0
            invariant
                index <= self.entries.len(),
                last_text(self@, name) == last_text(self@.take(index as int), name),
            decreases index,
        {
            index -= 1;
            assert(self@.take(index + 1).drop_last() =~= self@.take(index as int));
            let (known, text) = self.entries[index];
            if known == name {
                return Some(text);
            }
        }
        None
    }
}

/// What checking a module yields.
pub struct CheckedModule {
    pub tree: CheckedTree,
    pub evidence: EvidenceTable,
    pub errors: Vec<CheckingError>,
    pub names: NameTexts,
    pub term_item_types: IdMap<TypeId>,
    pub type_item_kinds: IdMap<TypeId>,
    pub section_types: IdMap<TypeId>,
    pub forall_bindings: IdMap<TypeId>,
    pub term_operators: IdMap<OperatorBranchTypes>,
    pub type_operators: IdMap<OperatorBranchTypes>,
    pub roles: IdMap<Vec<Role>>,
    pub synonyms: IdMap<CheckedSynonym>,
    pub data_declarations: IdMap<CheckedDataDeclaration>,
    pub classes: IdMap<CheckedClass>,
    pub instances: IdMap<CheckedInstance>,
}

/// A type synonym with the type that it stands for.
#[derive(Debug)]
pub struct CheckedSynonym {
    pub kind: TypeId,
    pub parameters: Vec<ForallBinder>,
    pub expansion: TypeId,
}

#[derive(Debug)]
pub struct CheckedDataDeclaration {
    pub type_parameters: Vec<ForallBinderId>,
}

/// A superclass of a class, with its constraint.
#[derive(Clone, Copy, Debug, PartialEq, Eq, Structural)]
pub struct CheckedSuperclass {
    pub source_id: SourceTypeId,
    pub constraint: TypeId,
}

/// The parameters that determine others, by their positions.
#[derive(Debug)]
pub struct FunctionalDependency {
    pub determiners: Vec<usize>,
    pub determined: Vec<usize>,
}

#[derive(Clone, Copy, Debug, PartialEq, Eq, Structural)]
pub struct CheckedClassMember {
    pub item_id: TermItemId,
    pub field_type: TypeId,
}

#[derive(Debug)]
pub struct CheckedClass {
    pub kind_binders: Vec<ForallBinderId>,
    pub type_parameters: Vec<ForallBinderId>,
    /// The class as a constraint, quantified over its kinds and parameters.
    pub canonical: TypeId,
    pub superclasses: Vec<CheckedSuperclass>,
    pub functional_dependencies: Vec<FunctionalDependency>,
    pub members: Vec<CheckedClassMember>,
}

/// An instance with its type, which is kept in a form that others are matched with.
#[derive(Clone, Copy, Debug)]
pub struct CheckedInstance {
    pub resolution: (FileId, TypeItemId),
    pub signature: TypeId,
    pub matchable: TypeId,
}

/// The types at an operator between its operands.
#[derive(Clone, Copy, Debug, PartialEq, Eq, Structural)]
pub struct OperatorBranchTypes {
    pub left: TypeId,
    pub right: TypeId,
    pub result: TypeId,
}

impl CheckedModule {
    pub fn new() -> (checked: CheckedModule)
        ensures
            checked.tree@ == Tree::empty(),
            checked.errors@.len() == 0,
            checked.names@.len() == 0,
            checked.evidence@.variables.len() == 0,
            checked.evidence@.binders.len() == 0,
            checked.evidence@.proofs.len() == 0,
            checked.term_item_types@ == Map::<u64, TypeId>::empty(),
            checked.type_item_kinds@ == Map::<u64, TypeId>::empty(),
            checked.section_types@ == Map::<u64, TypeId>::empty(),
            checked.forall_bindings@ == Map::<u64, TypeId>::empty(),
            checked.term_operators@ == Map::<u64, OperatorBranchTypes>::empty(),
            checked.type_operators@ == Map::<u64, OperatorBranchTypes>::empty(),
            checked.roles@ == Map::<u64, Vec<Role>>::empty(),
            checked.synonyms@ == Map::<u64, CheckedSynonym>::empty(),
            checked.data_declarations@ == Map::<u64, CheckedDataDeclaration>::empty(),
            checked.classes@ == Map::<u64, CheckedClass>::empty(),
            checked.instances@ == Map::<u64, CheckedInstance>::empty(),
    {
        CheckedModule {
            tree: CheckedTree::new(),
            evidence: EvidenceTable::new(),
            errors: Vec::new(),
            names: NameTexts::new(),
            term_item_types: IdMap::new(),
            type_item_kinds: IdMap::new(),
            section_types: IdMap::new(),
            forall_bindings: IdMap::new(),
            term_operators: IdMap::new(),
            type_operators: IdMap::new(),
            roles: IdMap::new(),
            synonyms: IdMap::new(),
            data_declarations: IdMap::new(),
            classes: IdMap::new(),
            instances: IdMap::new(),
        }
    }
}

/// The identity of a constraint in canonical form.
#[derive(Clone, Copy, Debug, PartialEq, Eq, Structural, Hash)]
pub struct CanonicalConstraintId {
    pub raw: u32,
}

/// The core state structure threaded through the algorithm.
pub struct CheckState {
    pub checked: CheckedModule,
    pub names: Names,
    pub bindings: Bindings,
    pub renamings: Vec<RigidRenaming>,
    pub patterns: PatternInterner,
    pub zonk_cache: Option<IdMap<TypeId>>,
    pub judgments: IdMap<bool>,
    pub unifications: Unifications,
    pub implications: Implications,
    /// What came up while a constraint was solved, by the identity of the
    /// constraint. It is reported along with the constraint, once.
    pub canonical_errors: IdMap<Vec<ErrorKind>>,
    pub defer_expansion: bool,
    pub depth: Depth,
    pub crumbs: Vec<ErrorCrumb>,
}

/// What the cache of zonked types holds.
pub open spec fn cached(cache: Option<IdMap<TypeId>>, id: TypeId) -> Option<TypeId> {
    match cache {
        Some(cache) => if cache@.contains_key(id.raw as u64) {
            Some(cache@[id.raw as u64])
        } else {
            None
        },
        None => None,
    }
}

impl CheckState {
    /// All parts are well-formed.
    pub open spec fn wf(self) -> bool {
        &&& self.unifications.wf()
        &&& self.implications@.wf()
        &&& self.patterns@.no_duplicates()
    }

    pub fn new(file_id: FileId) -> (state: CheckState)
        ensures
            state.wf(),
            state.checked.tree@ == Tree::empty(),
            state.checked.errors@.len() == 0,
            state.names.count() == 0,
            state.names.file() == file_id,
            forall|key: SourceTypeVariableKey| #[trigger] state.bindings.binding(key) is None,
            state.renamings@.len() == 0,
            state.patterns@.len() == 0,
            state.zonk_cache is None,
            state.judgments@ == Map::<u64, bool>::empty(),
            state.canonical_errors@ == Map::<u64, Vec<ErrorKind>>::empty(),
            state.unifications@.len() == 0,
            !state.unifications.is_frozen(),
            state.implications@.nodes.len() == 1,
            !state.defer_expansion,
            state.depth.level == 0,
            state.crumbs@.len() == 0,
    {
        CheckState {
            checked: CheckedModule::new(),
            names: Names::new(file_id),
            bindings: Bindings::new(),
            renamings: Vec::new(),
            patterns: PatternInterner::new(),
            zonk_cache: None,
            judgments: IdMap::new(),
            unifications: Unifications::new(),
            implications: Implications::new(),
            canonical_errors: IdMap::new(),
            defer_expansion: false,
            depth: Depth { level: 0 },
            crumbs: Vec::new(),
        }
    }

    /// Enables subtree memoization while preventing new unification solutions.
    ///
    /// Existing solutions may still be path-compressed.
    pub fn with_zonk_cache<T, F: FnOnce(&mut CheckState) -> T>(&mut self, f: F) -> (result: T)
        requires
            old(self).zonk_cache is None,
            forall|inner: &mut CheckState|
                entered_zonk_cache(*old(self), *inner) ==> call_requires(f, (inner,)),
        ensures
            exists|inner: &mut CheckState|
                {
                    &&& entered_zonk_cache(*old(self), *inner)
                    &&& #[trigger] call_ensures(f, (inner,), result)
                    &&& final(self).zonk_cache is None
                    &&& !final(self).unifications.is_frozen()
                    &&& final(self).unifications@ == final(inner).unifications@
                    &&& final(inner).unifications.wf() ==> final(self).unifications.wf()
                    &&& *final(self) == (CheckState {
                        zonk_cache: None,
                        unifications: final(self).unifications,
                        ..*final(inner)
                    })
                },
    {
        self.unifications.freeze();
        self.zonk_cache = Some(IdMap::new());
        assert(entered_zonk_cache(*old(self), *self));
        let result = f(self);
        self.zonk_cache = None;
        self.unifications.unfreeze();
        result
    }

    pub fn lookup_zonk_cache(&self, id: TypeId) -> (result: Option<TypeId>)
        ensures
            result == cached(self.zonk_cache, id),
    {
        match &self.zonk_cache {
            Some(cache) => match cache.get(id.raw as u64) {
                Some(result) => Some(*result),
                None => None,
            },
            None => None,
        }
    }

    /// Remembers a zonked type, where the cache is enabled.
    pub fn insert_zonk_cache(&mut self, id: TypeId, result: TypeId)
        ensures
            *final(self) == (CheckState { zonk_cache: final(self).zonk_cache, ..*old(self) }),
            final(self).zonk_cache is Some <==> old(self).zonk_cache is Some,
            old(self).zonk_cache is Some ==> forall|other: TypeId| #[trigger]
                cached(final(self).zonk_cache, other) == (if other == id {
                    Some(result)
                } else {
                    cached(old(self).zonk_cache, other)
                }),
    {
        if let Some(cache) = &mut self.zonk_cache {
            cache.insert(id.raw as u64, result);
        }
    }

    /// Runs one level deeper.
    pub fn with_depth<T, F: FnOnce(&mut CheckState) -> T>(&mut self, f: F) -> (result: T)
        requires
            old(self).depth.level < u32::MAX,
            forall|inner: &mut CheckState|
                *inner == deeper(*old(self)) ==> call_requires(f, (inner,)),
        ensures
            exists|inner: &mut CheckState|
                *inner == deeper(*old(self)) && #[trigger] call_ensures(f, (inner,), result)
                    && *final(self) == (CheckState { depth: old(self).depth, ..*final(inner) }),
    {
        let previous = self.depth;
        self.depth = Depth { level: previous.level + 1 };
        let result = f(self);
        self.depth = previous;
        result
    }

    /// Runs without expanding synonyms.
    pub fn with_defer_expansion<T, F: FnOnce(&mut CheckState) -> T>(&mut self, f: F) -> (result: T)
        requires
            forall|inner: &mut CheckState|
                *inner == (CheckState { defer_expansion: true, ..*old(self) }) ==> call_requires(
                    f,
                    (inner,),
                ),
        ensures
            exists|inner: &mut CheckState|
                *inner == (CheckState { defer_expansion: true, ..*old(self) })
                    && #[trigger] call_ensures(f, (inner,), result) && *final(self) == (
                CheckState { defer_expansion: old(self).defer_expansion, ..*final(inner) }),
    {
        let previous = self.defer_expansion;
        self.defer_expansion = true;
        let result = f(self);
        self.defer_expansion = previous;
        result
    }

    /// Runs with one more step on the way to errors.
    pub fn with_error_crumb<T, F: FnOnce(&mut CheckState) -> T>(
        &mut self,
        crumb: ErrorCrumb,
        f: F,
    ) -> (result: T)
        requires
            forall|inner: &mut CheckState|
                entered_crumb(*old(self), crumb, *inner) ==> call_requires(f, (inner,)),
        ensures
            exists|inner: &mut CheckState|
                {
                    &&& entered_crumb(*old(self), crumb, *inner)
                    &&& #[trigger] call_ensures(f, (inner,), result)
                    &&& *final(self) == (CheckState {
                        crumbs: final(self).crumbs,
                        ..*final(inner)
                    })
                    &&& final(self).crumbs@ == without_last(final(inner).crumbs@)
                },
    {
        self.crumbs.push(crumb);
        assert(entered_crumb(*old(self), crumb, *self));
        let result = f(self);
        self.crumbs.pop();
        result
    }

    /// Runs within a scope of its own.
    pub fn with_implication<T, F: FnOnce(&mut CheckState) -> T>(&mut self, f: F) -> (result: T)
        requires
            old(self).implications@.wf(),
            forall|inner: &mut CheckState|
                entered_implication(*old(self), *inner) ==> call_requires(f, (inner,)),
            forall|inner: &mut CheckState, result: T|
                entered_implication(*old(self), *inner) && #[trigger] call_ensures(
                    f,
                    (inner,),
                    result,
                ) ==> final(inner).implications@.wf() && final(inner).implications@.current
                    == inner.implications@.current && final(inner).implications@.top().parent
                    == inner.implications@.top().parent,
        ensures
            exists|inner: &mut CheckState|
                {
                    &&& entered_implication(*old(self), *inner)
                    &&& #[trigger] call_ensures(f, (inner,), result)
                    &&& *final(self) == (CheckState {
                        implications: final(self).implications,
                        ..*final(inner)
                    })
                    &&& final(self).implications@ == (Scopes {
                        current: old(self).implications@.current,
                        ..final(inner).implications@
                    })
                },
    {
        let id = self.implications.push();
        assert(entered_implication(*old(self), *self));
        let result = f(self);
        self.implications.pop(id);
        result
    }

    /// Runs with one more renaming of source type variables.
    pub fn with_source_type_renaming<T, F: FnOnce(&mut CheckState) -> T>(
        &mut self,
        renaming: RigidRenaming,
        f: F,
    ) -> (result: T)
        requires
            forall|inner: &mut CheckState|
                entered_renaming(*old(self), renaming, *inner) ==> call_requires(f, (inner,)),
        ensures
            exists|inner: &mut CheckState|
                {
                    &&& entered_renaming(*old(self), renaming, *inner)
                    &&& #[trigger] call_ensures(f, (inner,), result)
                    &&& *final(self) == (CheckState {
                        renamings: final(self).renamings,
                        ..*final(inner)
                    })
                    &&& final(self).renamings@ == without_last(final(inner).renamings@)
                },
    {
        self.renamings.push(renaming);
        assert(entered_renaming(*old(self), renaming, *self));
        let result = f(self);
        self.renamings.pop();
        result
    }
}

/// A list without its last element; a list without elements stays as it is.
pub open spec fn without_last<T>(list: Seq<T>) -> Seq<T> {
    if list.len() > 0 {
        list.drop_last()
    } else {
        list
    }
}

/// The state with another tree.
pub open spec fn with_tree(state: CheckState, tree: CheckedTree) -> CheckState {
    CheckState { checked: CheckedModule { tree, ..state.checked }, ..state }
}

/// The later state has one more error, at the place of the earlier one.
pub open spec fn reported(before: CheckState, after: CheckState, kind: ErrorKind) -> bool {
    &&& after == (CheckState {
        checked: CheckedModule { errors: after.checked.errors, ..before.checked },
        ..before
    })
    &&& after.checked.errors@.len() == before.checked.errors@.len() + 1
    &&& after.checked.errors@.drop_last() == before.checked.errors@
    &&& after.checked.errors@.last().kind == kind
    &&& after.checked.errors@.last().crumbs@ == before.crumbs@
}

/// The later state wants evidence for one more constraint.
pub open spec fn wanted(
    before: CheckState,
    after: CheckState,
    constraint: TypeId,
    evidence: EvidenceVarId,
) -> bool {
    let scope = before.implications@.top();
    &&& after == (CheckState {
        checked: CheckedModule { evidence: after.checked.evidence, ..before.checked },
        implications: after.implications,
        ..before
    })
    &&& evidence.raw == before.checked.evidence@.variables.len()
    &&& after.checked.evidence@.variables == before.checked.evidence@.variables.push(
        EvidenceState::Unsolved,
    )
    &&& after.checked.evidence@.binders == before.checked.evidence@.binders
    &&& after.checked.evidence@.proofs == before.checked.evidence@.proofs
    &&& after.implications@ == before.implications@.with_top(
        Scope { wanted: scope.wanted.push(WantedConstraint { constraint, evidence }), ..scope },
    )
}

/// The later state has evidence for one more constraint.
pub open spec fn given(
    before: CheckState,
    after: CheckState,
    constraint: TypeId,
    evidence: EvidenceBinderId,
) -> bool {
    let scope = before.implications@.top();
    &&& after == (CheckState {
        checked: CheckedModule { evidence: after.checked.evidence, ..before.checked },
        implications: after.implications,
        ..before
    })
    &&& evidence.raw == before.checked.evidence@.binders.len()
    &&& after.checked.evidence@.binders == before.checked.evidence@.binders.push(constraint)
    &&& after.checked.evidence@.variables == before.checked.evidence@.variables
    &&& after.checked.evidence@.proofs == before.checked.evidence@.proofs
    &&& after.implications@ == before.implications@.with_top(
        Scope { given: scope.given.push(GivenConstraint { constraint, evidence }), ..scope },
    )
}

/// The constraints with their evidence, as they are wanted.
pub open spec fn wanted_constraints(constraints: Seq<TypeId>, first: nat) -> Seq<WantedConstraint> {
    Seq::new(
        constraints.len(),
        |i: int|
            WantedConstraint {
                constraint: constraints[i],
                evidence: EvidenceVarId { raw: (first + i) as u32 },
            },
    )
}

/// The constraints with their evidence, as they are given.
pub open spec fn given_constraints(constraints: Seq<TypeId>, first: nat) -> Seq<GivenConstraint> {
    Seq::new(
        constraints.len(),
        |i: int|
            GivenConstraint {
                constraint: constraints[i],
                evidence: EvidenceBinderId { raw: (first + i) as u32 },
            },
    )
}

/// The later state wants evidence for more constraints, in order.
pub open spec fn all_wanted(before: CheckState, after: CheckState, constraints: Seq<TypeId>) -> bool {
    let known = before.checked.evidence@;
    let scope = before.implications@.top();
    &&& after == (CheckState {
        checked: CheckedModule { evidence: after.checked.evidence, ..before.checked },
        implications: after.implications,
        ..before
    })
    &&& after.checked.evidence@ == (EvidenceModel {
        variables: known.variables + Seq::new(constraints.len(), |i: int| EvidenceState::Unsolved),
        ..known
    })
    &&& after.implications@.wf()
    &&& after.implications@ == before.implications@.with_top(
        Scope {
            wanted: scope.wanted + wanted_constraints(constraints, known.variables.len()),
            ..scope
        },
    )
}

/// The later state has evidence for more constraints, in order.
pub open spec fn all_given(before: CheckState, after: CheckState, constraints: Seq<TypeId>) -> bool {
    let known = before.checked.evidence@;
    let scope = before.implications@.top();
    &&& after == (CheckState {
        checked: CheckedModule { evidence: after.checked.evidence, ..before.checked },
        implications: after.implications,
        ..before
    })
    &&& after.checked.evidence@ == (EvidenceModel {
        binders: known.binders + constraints,
        ..known
    })
    &&& after.implications@.wf()
    &&& after.implications@ == before.implications@.with_top(
        Scope {
            given: scope.given + given_constraints(constraints, known.binders.len()),
            ..scope
        },
    )
}

/// No more evidence is wanted or given.
pub proof fn lemma_none_more(state: CheckState)
    requires
        state.implications@.wf(),
    ensures
        all_wanted(state, state, Seq::empty()),
        all_given(state, state, Seq::empty()),
{
    let known = state.checked.evidence@;
    let scope = state.implications@.top();
    assert(known.variables + Seq::new(0, |i: int| EvidenceState::Unsolved) =~= known.variables);
    assert(known.binders + Seq::<TypeId>::empty() =~= known.binders);
    assert(scope.wanted + wanted_constraints(Seq::empty(), known.variables.len())
        =~= scope.wanted);
    assert(scope.given + given_constraints(Seq::empty(), known.binders.len()) =~= scope.given);
    assert(state.implications@ =~~= state.implications@.with_top(scope));
}

/// Evidence is wanted for one more constraint.
pub proof fn lemma_one_more_wanted(
    before: CheckState,
    middle: CheckState,
    after: CheckState,
    constraints: Seq<TypeId>,
    constraint: TypeId,
    evidence: EvidenceVarId,
)
    requires
        before.implications@.wf(),
        all_wanted(before, middle, constraints),
        wanted(middle, after, constraint, evidence),
        after.implications@.wf(),
    ensures
        all_wanted(before, after, constraints.push(constraint)),
        evidence.raw == before.checked.evidence@.variables.len() + constraints.len(),
{
    let known = before.checked.evidence@;
    let scope = before.implications@.top();
    let more = constraints.push(constraint);
    let first = known.variables.len();
    assert(after.checked.evidence@ =~= (EvidenceModel {
        variables: known.variables + Seq::new(more.len(), |i: int| EvidenceState::Unsolved),
        ..known
    }));
    assert((scope.wanted + wanted_constraints(constraints, first)).push(
        WantedConstraint { constraint, evidence },
    ) =~= scope.wanted + wanted_constraints(more, first));
    assert(after.implications@ =~~= before.implications@.with_top(
        Scope { wanted: scope.wanted + wanted_constraints(more, first), ..scope },
    ));
}

/// Evidence is given for one more constraint.
pub proof fn lemma_one_more_given(
    before: CheckState,
    middle: CheckState,
    after: CheckState,
    constraints: Seq<TypeId>,
    constraint: TypeId,
    evidence: EvidenceBinderId,
)
    requires
        before.implications@.wf(),
        all_given(before, middle, constraints),
        given(middle, after, constraint, evidence),
        after.implications@.wf(),
    ensures
        all_given(before, after, constraints.push(constraint)),
        evidence.raw == before.checked.evidence@.binders.len() + constraints.len(),
{
    let known = before.checked.evidence@;
    let scope = before.implications@.top();
    let more = constraints.push(constraint);
    let first = known.binders.len();
    assert(after.checked.evidence@ =~= (EvidenceModel { binders: known.binders + more, ..known }));
    assert((scope.given + given_constraints(constraints, first)).push(
        GivenConstraint { constraint, evidence },
    ) =~= scope.given + given_constraints(more, first));
    assert(after.implications@ =~~= before.implications@.with_top(
        Scope { given: scope.given + given_constraints(more, first), ..scope },
    ));
}

/// The later state has one more unification variable.
pub open spec fn unification_added(
    before: CheckState,
    after: CheckState,
    kind: TypeId,
) -> bool {
    &&& after == (CheckState { unifications: after.unifications, ..before })
    &&& after.unifications.wf()
    &&& !after.unifications.is_frozen()
    &&& after.unifications@ == before.unifications@.push(
        UnificationEntry { depth: before.depth, kind, state: UnificationState::Unsolved },
    )
}

impl CheckState {
    /// A type that is still to be found.
    pub fn fresh_unification(&mut self, types: &mut Types, kind: TypeId) -> (id: TypeId)
        requires
            old(self).unifications.wf(),
            !old(self).unifications.is_frozen(),
            old(self).unifications@.len() < u32::MAX,
            old(types)@.wf(),
        ensures
            unification_added(*old(self), *final(self), kind),
            final(types)@.wf(),
            extends(old(types)@, final(types)@),
            final(types)@.denotes(id, Type::Unification(old(self).unifications@.len() as u32)),
            final(types)@ == old(types)@.with_type(
                Type::Unification(old(self).unifications@.len() as u32),
            ),
            id == final(types)@.identity(Type::Unification(old(self).unifications@.len() as u32)),
    {
        let unification = self.unifications.fresh(self.depth, kind);
        types.intern_type(Type::Unification(unification))
    }

    /// A type variable that stands for nothing but itself.
    pub fn fresh_rigid(&mut self, types: &mut Types, kind: TypeId) -> (id: TypeId)
        requires
            old(self).names.count() < u32::MAX,
            old(types)@.wf(),
        ensures
            final(self).names.count() == old(self).names.count() + 1,
            final(self).names.file() == old(self).names.file(),
            *final(self) == (CheckState { names: final(self).names, ..*old(self) }),
            final(types)@.wf(),
            extends(old(types)@, final(types)@),
            final(types)@ == old(types)@.with_type(
                Type::Rigid(next_name(*old(self)), old(self).depth, kind),
            ),
            final(types)@.denotes(id, Type::Rigid(next_name(*old(self)), old(self).depth, kind)),
    {
        self.fresh_rigid_named(types, kind, None)
    }

    /// A type variable that stands for nothing but itself, with a text to show.
    pub fn fresh_rigid_named(
        &mut self,
        types: &mut Types,
        kind: TypeId,
        text: Option<SmolStrId>,
    ) -> (id: TypeId)
        requires
            old(self).names.count() < u32::MAX,
            old(types)@.wf(),
        ensures
            named(*old(self), *final(self), next_name(*old(self)), text),
            final(types)@.wf(),
            extends(old(types)@, final(types)@),
            final(types)@ == old(types)@.with_type(
                Type::Rigid(next_name(*old(self)), old(self).depth, kind),
            ),
            final(types)@.denotes(id, Type::Rigid(next_name(*old(self)), old(self).depth, kind)),
    {
        let name = self.names.fresh();
        if let Some(text) = text {
            self.checked.names.insert(name, text);
        }
        types.intern_type(Type::Rigid(name, self.depth, kind))
    }

    /// A type variable that must not leave a scope of its own.
    pub fn fresh_scoped_rigid_named(
        &mut self,
        types: &mut Types,
        kind: TypeId,
        text: Option<SmolStrId>,
    ) -> (rigid: (TypeId, Name, SkolemScope))
        requires
            old(self).names.count() < u32::MAX,
            old(types)@.wf(),
        ensures
            rigid.2 == (SkolemScope {
                file: old(self).names.file(),
                unique: old(self).names.count() as u32,
            }),
            rigid.1 == (Name { scope: Some(rigid.2), ..next_name(*old(self)) }),
            named(*old(self), *final(self), rigid.1, text),
            final(types)@.wf(),
            extends(old(types)@, final(types)@),
            final(types)@ == old(types)@.with_type(Type::Rigid(rigid.1, old(self).depth, kind)),
            final(types)@.denotes(rigid.0, Type::Rigid(rigid.1, old(self).depth, kind)),
    {
        let (name, scope) = self.names.fresh_scoped();
        if let Some(text) = text {
            self.checked.names.insert(name, text);
        }
        let rigid = types.intern_type(Type::Rigid(name, self.depth, kind));
        (rigid, name, scope)
    }

    /// Reports an error at the current place.
    pub fn insert_error(&mut self, kind: ErrorKind)
        ensures
            reported(*old(self), *final(self), kind),
    {
        let crumbs = copy_all(&self.crumbs);
        self.checked.errors.push(CheckingError { kind, crumbs });
        assert(self.checked.errors@.drop_last() =~= old(self).checked.errors@);
    }

    /// Asks for evidence.
    pub fn push_wanted(&mut self, constraint: TypeId) -> (evidence: EvidenceVarId)
        requires
            old(self).implications@.wf(),
            old(self).checked.evidence@.variables.len() <= u32::MAX,
        ensures
            wanted(*old(self), *final(self), constraint, evidence),
            final(self).implications@.wf(),
    {
        let evidence = self.checked.evidence.fresh_variable();
        let ghost scope = self.implications@.top();
        self.implications.current_mut().wanted.push(WantedConstraint { constraint, evidence });
        assert(self.implications@ =~~= old(self).implications@.with_top(
            Scope { wanted: scope.wanted.push(WantedConstraint { constraint, evidence }), ..scope },
        ));
        evidence
    }

    /// Gives evidence.
    pub fn push_given(&mut self, constraint: TypeId) -> (evidence: EvidenceBinderId)
        requires
            old(self).implications@.wf(),
            old(self).checked.evidence@.binders.len() <= u32::MAX,
        ensures
            given(*old(self), *final(self), constraint, evidence),
            final(self).implications@.wf(),
    {
        let evidence = self.checked.evidence.fresh_binder(constraint);
        let ghost scope = self.implications@.top();
        self.implications.current_mut().given.push(GivenConstraint { constraint, evidence });
        assert(self.implications@ =~~= old(self).implications@.with_top(
            Scope { given: scope.given.push(GivenConstraint { constraint, evidence }), ..scope },
        ));
        evidence
    }

    pub fn allocate_expression(&mut self, type_id: TypeId, kind: ExpressionKind) -> (id:
        ExpressionId)
        requires
            old(self).checked.tree@.expressions.len() <= u32::MAX,
        ensures
            id == old(self).checked.tree@.next_expression(),
            final(self).checked.tree@ == old(self).checked.tree@.with_expression(type_id, kind),
            *final(self) == with_tree(*old(self), final(self).checked.tree),
    {
        self.checked.tree.allocate_expression(Expression { type_id, kind })
    }

    /// Keeps the type of an expression for later.
    pub fn retain_expression_judgment(&mut self, expression: ExpressionId)
        ensures
            final(self).judgments@ == old(self).judgments@.insert(expression.raw as u64, true),
            *final(self) == (CheckState { judgments: final(self).judgments, ..*old(self) }),
    {
        self.judgments.insert(expression.raw as u64, true);
    }

    /// An expression in place of one that is missing or wrong.
    pub fn allocate_error_expression(&mut self, type_id: TypeId) -> (id: ExpressionId)
        requires
            old(self).checked.tree@.expressions.len() <= u32::MAX,
        ensures
            id == old(self).checked.tree@.next_expression(),
            final(self).checked.tree@ == old(self).checked.tree@.with_expression(
                type_id,
                ExpressionKind::Error,
            ),
            *final(self) == with_tree(*old(self), final(self).checked.tree),
    {
        self.allocate_expression(type_id, ExpressionKind::Error)
    }

    fn allocate_binder_of(&mut self, source: BinderSource, type_id: TypeId, kind: BinderKind) -> (id:
        BinderId)
        requires
            old(self).checked.tree@.binders.len() <= u32::MAX,
        ensures
            id == old(self).checked.tree@.next_binder(),
            final(self).checked.tree@ == old(self).checked.tree@.with_binder(source, type_id, kind),
            *final(self) == with_tree(*old(self), final(self).checked.tree),
    {
        self.checked.tree.allocate_binder(Binder { source, type_id, kind })
    }

    pub fn allocate_binder(&mut self, source: SourceBinderId, type_id: TypeId, kind: BinderKind) -> (
    id: BinderId)
        requires
            old(self).checked.tree@.binders.len() <= u32::MAX,
        ensures
            id == old(self).checked.tree@.next_binder(),
            final(self).checked.tree@ == old(self).checked.tree@.with_binder(
                BinderSource::Binder(source),
                type_id,
                kind,
            ),
            *final(self) == with_tree(*old(self), final(self).checked.tree),
    {
        self.allocate_binder_of(BinderSource::Binder(source), type_id, kind)
    }

    pub fn allocate_generated_binder(
        &mut self,
        source: DoStatementId,
        type_id: TypeId,
        kind: BinderKind,
    ) -> (id: BinderId)
        requires
            old(self).checked.tree@.binders.len() <= u32::MAX,
        ensures
            id == old(self).checked.tree@.next_binder(),
            final(self).checked.tree@ == old(self).checked.tree@.with_binder(
                BinderSource::DoStatement(source),
                type_id,
                kind,
            ),
            *final(self) == with_tree(*old(self), final(self).checked.tree),
    {
        self.allocate_binder_of(BinderSource::DoStatement(source), type_id, kind)
    }

    pub fn allocate_derived_binder(
        &mut self,
        derive: DeriveId,
        name: SmolStrId,
        type_id: TypeId,
        kind: BinderKind,
    ) -> (id: BinderId)
        requires
            old(self).checked.tree@.binders.len() <= u32::MAX,
        ensures
            id == old(self).checked.tree@.next_binder(),
            final(self).checked.tree@ == old(self).checked.tree@.with_binder(
                BinderSource::Generated { derive, name },
                type_id,
                kind,
            ),
            *final(self) == with_tree(*old(self), final(self).checked.tree),
    {
        self.allocate_binder_of(BinderSource::Generated { derive, name }, type_id, kind)
    }

    pub fn allocate_operator_binder(
        &mut self,
        source: TermOperatorId,
        type_id: TypeId,
        kind: BinderKind,
    ) -> (id: BinderId)
        requires
            old(self).checked.tree@.binders.len() <= u32::MAX,
        ensures
            id == old(self).checked.tree@.next_binder(),
            final(self).checked.tree@ == old(self).checked.tree@.with_binder(
                BinderSource::Operator(source),
                type_id,
                kind,
            ),
            *final(self) == with_tree(*old(self), final(self).checked.tree),
    {
        self.allocate_binder_of(BinderSource::Operator(source), type_id, kind)
    }

    /// The binder of an operator section, whose type is kept.
    pub fn allocate_section_binder(&mut self, source: SourceExpressionId, type_id: TypeId) -> (id:
        BinderId)
        requires
            old(self).checked.tree@.binders.len() <= u32::MAX,
            !old(self).checked.tree@.sections.contains_key(source.raw as u64),
            !old(self).checked.section_types@.contains_key(source.raw as u64),
        ensures
            id == old(self).checked.tree@.next_binder(),
            final(self).checked.tree@ == (Tree {
                sections: old(self).checked.tree@.sections.insert(source.raw as u64, id),
                ..old(self).checked.tree@.with_binder(
                    BinderSource::Section(source),
                    type_id,
                    BinderKind::Variable,
                )
            }),
            final(self).checked.section_types@ == old(self).checked.section_types@.insert(
                source.raw as u64,
                type_id,
            ),
            *final(self) == (CheckState {
                checked: CheckedModule {
                    tree: final(self).checked.tree,
                    section_types: final(self).checked.section_types,
                    ..old(self).checked
                },
                ..*old(self)
            }),
    {
        let id = self.checked.tree.allocate_section_binder(source, type_id);
        self.checked.section_types.insert(source.raw as u64, type_id);
        id
    }

    /// A binder in place of one that is missing or wrong.
    pub fn allocate_error_binder(&mut self, source: SourceBinderId, type_id: TypeId) -> (id:
        BinderId)
        requires
            old(self).checked.tree@.binders.len() <= u32::MAX,
        ensures
            id == old(self).checked.tree@.next_binder(),
            final(self).checked.tree@ == old(self).checked.tree@.with_binder(
                BinderSource::Binder(source),
                type_id,
                BinderKind::Error,
            ),
            *final(self) == with_tree(*old(self), final(self).checked.tree),
    {
        self.allocate_binder(source, type_id, BinderKind::Error)
    }

    /// A source type variable under the renamings that are in effect. Its kind after
    /// each of them is given.
    pub fn lookup_source_type_variable(&self, key: SourceTypeVariableKey, kinds: &Vec<TypeId>) -> (
    variable: Option<SourceTypeVariable>)
        requires
            kinds@.len() == self.renamings@.len(),
        ensures
            variable == (match self.bindings.binding(key) {
                Some(variable) => Some(
                    renamed_by_all(variable, self.renamings@, kinds@, kinds@.len()),
                ),
                None => None,
            }),
    {
        let begun = self.bindings.lookup(key)?;
        let mut variable = begun;
        let mut index: usize = 0;
        while index < kinds.len()
            invariant
                index <= kinds.len(),
                kinds@.len() == self.renamings@.len(),
                variable == renamed_by_all(begun, self.renamings@, kinds@, index as nat),
            decreases kinds.len() - index,
        {
            let kind = kinds[index];
            variable = match self.renamings[index].replacement(variable.name) {
                Some((name, depth)) => SourceTypeVariable { name, depth, kind },
                None => SourceTypeVariable { kind, ..variable },
            };
            index += 1;
        }
        Some(variable)
    }

    /// Keeps missing patterns for the current scope and reports redundant ones.
    pub fn report_exhaustiveness(&mut self, exhaustiveness: ExhaustivenessReport)
        requires
            old(self).implications@.wf(),
        ensures
            exhaustiveness_reported(*old(self), *final(self), exhaustiveness),
    {
        if let Some(patterns) = exhaustiveness.missing {
            let crumbs = copy_all(&self.crumbs);
            let missing = MissingPatterns { patterns, crumbs };
            let ghost scope = self.implications@.top();
            self.implications.current_mut().patterns.push(missing);
            assert(self.implications@ =~~= old(self).implications@.with_top(
                Scope { patterns: scope.patterns.push(missing), ..scope },
            ));
            assert(self.implications@.top().patterns.drop_last() =~= scope.patterns);
        }
        if exhaustiveness.redundant.len() > 0 {
            self.insert_error(
                ErrorKind::RedundantPatterns { patterns: exhaustiveness.redundant },
            );
        }
    }

    pub fn allocate_pattern(&mut self, kind: PatternKind, t: TypeId) -> (id: PatternId)
        requires
            old(self).patterns@.no_duplicates(),
        ensures
            final(self).patterns@.no_duplicates(),
            id.raw < final(self).patterns@.len(),
            final(self).patterns@[id.raw as int] == (kind@, t),
            final(self).patterns@ == pattern_held(old(self).patterns@, (kind@, t)),
            *final(self) == (CheckState { patterns: final(self).patterns, ..*old(self) }),
    {
        self.patterns.intern(Pattern { kind, t })
    }

    pub fn allocate_constructor(&mut self, constructor: PatternConstructor, t: TypeId) -> (id:
        PatternId)
        requires
            old(self).patterns@.no_duplicates(),
        ensures
            final(self).patterns@.no_duplicates(),
            id.raw < final(self).patterns@.len(),
            final(self).patterns@[id.raw as int] == (
                PatternShape::Constructor { tag: constructor.tag, fields: constructor.fields@ },
                t,
            ),
            final(self).patterns@ == pattern_held(
                old(self).patterns@,
                (
                    PatternShape::Constructor { tag: constructor.tag, fields: constructor.fields@ },
                    t,
                ),
            ),
            *final(self) == (CheckState { patterns: final(self).patterns, ..*old(self) }),
    {
        self.allocate_pattern(PatternKind::Constructor { constructor }, t)
    }

    pub fn allocate_wildcard(&mut self, t: TypeId) -> (id: PatternId)
        requires
            old(self).patterns@.no_duplicates(),
        ensures
            final(self).patterns@.no_duplicates(),
            id.raw < final(self).patterns@.len(),
            final(self).patterns@[id.raw as int] == (PatternShape::Wildcard, t),
            final(self).patterns@ == pattern_held(
                old(self).patterns@,
                (PatternShape::Wildcard, t),
            ),
            *final(self) == (CheckState { patterns: final(self).patterns, ..*old(self) }),
    {
        self.allocate_pattern(PatternKind::Wildcard, t)
    }
}

/// Missing patterns are kept for the current scope, and redundant ones have been
/// reported.
pub open spec fn exhaustiveness_reported(
    before: CheckState,
    after: CheckState,
    exhaustiveness: ExhaustivenessReport,
) -> bool {
    let scopes = before.implications@;
    let patterns = after.implications@.top().patterns;
    let errors = after.checked.errors@;
    &&& after.implications@.wf()
    &&& after == (CheckState {
        checked: CheckedModule { errors: after.checked.errors, ..before.checked },
        implications: after.implications,
        ..before
    })
    &&& exhaustiveness.missing is None ==> after.implications == before.implications
    &&& exhaustiveness.missing matches Some(missing) ==> {
        &&& patterns.len() == scopes.top().patterns.len() + 1
        &&& patterns.last().patterns == missing
        &&& patterns.last().crumbs@ == before.crumbs@
        &&& patterns.drop_last() == scopes.top().patterns
        &&& after.implications@ == scopes.with_top(Scope { patterns, ..scopes.top() })
    }
    &&& exhaustiveness.redundant@.len() == 0 ==> after.checked.errors == before.checked.errors
    &&& exhaustiveness.redundant@.len() > 0 ==> {
        &&& errors.len() == before.checked.errors@.len() + 1
        &&& errors.drop_last() == before.checked.errors@
        &&& errors.last().kind == (ErrorKind::RedundantPatterns {
            patterns: exhaustiveness.redundant,
        })
        &&& errors.last().crumbs@ == before.crumbs@
    }
}

/// The name that is handed out next.
pub open spec fn next_name(state: CheckState) -> Name {
    Name { file: state.names.file(), unique: state.names.count() as u32, scope: None }
}

/// The later state has handed out one more name and knows its text, if any.
pub open spec fn named(
    before: CheckState,
    after: CheckState,
    name: Name,
    text: Option<SmolStrId>,
) -> bool {
    &&& after.names.count() == before.names.count() + 1
    &&& after.names.file() == before.names.file()
    &&& after.checked.names@ == (match text {
        Some(text) => before.checked.names@.push((name, text)),
        None => before.checked.names@,
    })
    &&& text is None ==> after.checked.names == before.checked.names
    &&& after == (CheckState {
        names: after.names,
        checked: CheckedModule { names: after.checked.names, ..before.checked },
        ..before
    })
}

/// A variable under a renaming, with its kind renamed.
pub open spec fn renamed_variable(
    variable: SourceTypeVariable,
    renaming: RigidRenaming,
    kind: TypeId,
) -> SourceTypeVariable {
    match replacement_of(renaming.replacements@, variable.name) {
        Some((name, depth)) => SourceTypeVariable { name, depth, kind },
        None => SourceTypeVariable { kind, ..variable },
    }
}

/// The variable under the first renamings, with its kind after each of them.
pub open spec fn renamed_by_all(
    variable: SourceTypeVariable,
    renamings: Seq<RigidRenaming>,
    kinds: Seq<TypeId>,
    count: nat,
) -> SourceTypeVariable
    decreases count,
{
    if count == 0 || count > renamings.len() || count > kinds.len() {
        variable
    } else {
        renamed_variable(
            renamed_by_all(variable, renamings, kinds, (count - 1) as nat),
            renamings[count - 1],
            kinds[count - 1],
        )
    }
}

/// Names that are handed out one after the other differ.
pub proof fn lemma_names_differ(first: CheckState, second: CheckState)
    requires
        first.names.count() < second.names.count() <= u32::MAX,
    ensures
        next_name(first) != next_name(second),
{
}

/// The state one level deeper.
pub open spec fn deeper(state: CheckState) -> CheckState {
    CheckState { depth: Depth { level: (state.depth.level + 1) as u32 }, ..state }
}

/// The state with the cache enabled and no new solutions.
pub open spec fn entered_zonk_cache(before: CheckState, inner: CheckState) -> bool {
    &&& inner == (CheckState {
        zonk_cache: inner.zonk_cache,
        unifications: inner.unifications,
        ..before
    })
    &&& inner.zonk_cache is Some
    &&& forall|id: TypeId| #[trigger] cached(inner.zonk_cache, id) is None
    &&& inner.unifications.is_frozen()
    &&& inner.unifications@ == before.unifications@
    &&& before.unifications.wf() ==> inner.unifications.wf()
}

/// The state with one more crumb.
pub open spec fn entered_crumb(before: CheckState, crumb: ErrorCrumb, inner: CheckState) -> bool {
    &&& inner == (CheckState { crumbs: inner.crumbs, ..before })
    &&& inner.crumbs@ == before.crumbs@.push(crumb)
}

/// The state within a new scope.
pub open spec fn entered_implication(before: CheckState, inner: CheckState) -> bool {
    &&& inner == (CheckState { implications: inner.implications, ..before })
    &&& inner.implications@ == before.implications@.pushed()
}

/// The state with one more renaming.
pub open spec fn entered_renaming(
    before: CheckState,
    renaming: RigidRenaming,
    inner: CheckState,
) -> bool {
    &&& inner == (CheckState { renamings: inner.renamings, ..before })
    &&& inner.renamings@ == before.renamings@.push(renaming)
}

} // verus!
