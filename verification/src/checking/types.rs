//! The types of the language.

use crate::indexing::items::TypeItemId;
use crate::text::same_text;
use vstd::prelude::*;

verus! {

/// The identity of a source file.
#[derive(Clone, Copy, Debug, PartialEq, Eq, Structural, Hash)]
pub struct FileId {
    pub raw: u32,
}

/// The identity of an interned type.
#[derive(Clone, Copy, Debug, PartialEq, Eq, Structural, Hash)]
pub struct TypeId {
    pub raw: usize,
}

/// The identity of an interned binder.
#[derive(Clone, Copy, Debug, PartialEq, Eq, Structural, Hash)]
pub struct ForallBinderId {
    pub raw: usize,
}

/// The identity of an interned row.
#[derive(Clone, Copy, Debug, PartialEq, Eq, Structural, Hash)]
pub struct RowTypeId {
    pub raw: usize,
}

/// The identity of an interned text.
#[derive(Clone, Copy, Debug, PartialEq, Eq, Structural, Hash)]
pub struct SmolStrId {
    pub raw: usize,
}

/// The place that a rigid type variable must not escape from.
#[derive(Clone, Copy, Debug, PartialEq, Eq, Structural, Hash)]
pub struct SkolemScope {
    pub file: FileId,
    pub unique: u32,
}

/// The name of a type variable.
#[derive(Clone, Copy, Debug, PartialEq, Eq, Structural, Hash)]
pub struct Name {
    pub file: FileId,
    pub unique: u32,
    pub scope: Option<SkolemScope>,
}

/// How many binders enclose a place.
#[derive(Clone, Copy, Debug, PartialEq, Eq, Structural)]
pub struct Depth {
    pub level: u32,
}

/// The roles of type parameters.
#[derive(Clone, Copy, Debug, PartialEq, Eq, Structural)]
pub enum Role {
    Phantom,
    Representational,
    Nominal,
}

#[derive(Clone, Copy, Debug, PartialEq, Eq, Structural)]
pub enum Type {
    Application(TypeId, TypeId),
    KindApplication(TypeId, TypeId),
    Forall(ForallBinderId, TypeId),
    Constrained(TypeId, TypeId),
    Function(TypeId, TypeId),
    Kinded(TypeId, TypeId),
    Constructor(FileId, TypeItemId),
    Integer(i32),
    String(SmolStrId),
    Row(RowTypeId),
    Rigid(Name, Depth, TypeId),
    Free(SmolStrId),
    Unification(u32),
    Unknown(SmolStrId),
}

/// A quantified type variable.
#[derive(Clone, Copy, Debug, PartialEq, Eq, Structural)]
pub struct ForallBinder {
    pub visible: bool,
    pub name: Name,
    pub kind: TypeId,
    pub scope: Option<SkolemScope>,
}

/// The types that the compiler knows.
#[derive(Clone, Copy, Debug, PartialEq, Eq, Structural)]
pub struct Prim {
    /// The kind of types.
    pub t: TypeId,
    pub type_to_type: TypeId,
    pub function: TypeId,
    pub constraint: TypeId,
    pub boolean: TypeId,
    pub partial: TypeId,
    pub record: TypeId,
}

/// The model of [`Types`].
#[verifier::ext_equal]
pub struct TypeStore {
    pub types: Seq<Type>,
    pub binders: Seq<ForallBinder>,
    pub texts: Seq<Seq<char>>,
}

/// Everything in one store is in the other, under the same identity.
pub open spec fn extends(before: TypeStore, after: TypeStore) -> bool {
    &&& before.types.is_prefix_of(after.types)
    &&& before.binders.is_prefix_of(after.binders)
    &&& before.texts.is_prefix_of(after.texts)
}

/// A store extends itself.
pub broadcast proof fn lemma_extends_reflexive(store: TypeStore)
    ensures
        #[trigger] extends(store, store),
{
}

/// Stores that are extended one after the other extend the first one.
pub broadcast proof fn lemma_extends_transitive(first: TypeStore, second: TypeStore, third: TypeStore)
    requires
        #[trigger] extends(first, second),
        #[trigger] extends(second, third),
    ensures
        extends(first, third),
{
    assert forall|i: int| 0 <= i < first.types.len() implies first.types[i] == third.types[i] by {
        assert(first.types[i] == second.types[i]);
    }
    assert forall|i: int| 0 <= i < first.binders.len() implies first.binders[i]
        == third.binders[i] by {
        assert(first.binders[i] == second.binders[i]);
    }
    assert forall|i: int| 0 <= i < first.texts.len() implies first.texts[i] == third.texts[i] by {
        assert(first.texts[i] == second.texts[i]);
    }
}

impl TypeStore {
    /// No type, binder or text is held twice.
    pub open spec fn wf(self) -> bool {
        &&& self.types.no_duplicates()
        &&& self.binders.no_duplicates()
        &&& self.texts.no_duplicates()
    }

    pub open spec fn has_type(self, id: TypeId) -> bool {
        id.raw < self.types.len()
    }

    pub open spec fn type_at(self, id: TypeId) -> Type {
        self.types[id.raw as int]
    }

    /// The identity stands for the type.
    pub open spec fn denotes(self, id: TypeId, t: Type) -> bool {
        self.has_type(id) && self.type_at(id) == t
    }

    /// The store with a type, which is added where it is not held yet.
    pub open spec fn with_type(self, t: Type) -> TypeStore {
        if self.types.contains(t) {
            self
        } else {
            TypeStore { types: self.types.push(t), ..self }
        }
    }

    /// The identity of a type that is held.
    pub open spec fn identity(self, t: Type) -> TypeId {
        TypeId { raw: self.types.index_of(t) as usize }
    }

    /// The store with a unification variable.
    pub open spec fn with_variable(self, index: nat) -> TypeStore {
        self.with_type(Type::Unification(index as u32))
    }

    /// The store with so many unification variables, in order.
    pub open spec fn with_variables(self, first: nat, count: nat) -> TypeStore
        decreases count,
    {
        if count == 0 {
            self
        } else {
            self.with_variables(first, (count - 1) as nat).with_variable(
                (first + count - 1) as nat,
            )
        }
    }

    /// The store with a text, which is added where it is not held yet.
    pub open spec fn with_text(self, text: Seq<char>) -> TypeStore {
        if self.texts.contains(text) {
            self
        } else {
            TypeStore { texts: self.texts.push(text), ..self }
        }
    }

    /// The identity of a text that is held.
    pub open spec fn text_identity(self, text: Seq<char>) -> SmolStrId {
        SmolStrId { raw: self.texts.index_of(text) as usize }
    }

    /// The store with an unknown type for the explanation, and the identity of that type.
    pub open spec fn with_unknown(self, explanation: Seq<char>) -> (TypeStore, TypeId) {
        let held = self.with_text(explanation);
        let unknown = Type::Unknown(held.text_identity(explanation));
        (held.with_type(unknown), held.with_type(unknown).identity(unknown))
    }

    /// The store with a binder.
    pub open spec fn with_binder(self, binder: ForallBinder) -> TypeStore {
        if self.binders.contains(binder) {
            self
        } else {
            TypeStore { binders: self.binders.push(binder), ..self }
        }
    }

    /// The store with binders, one after the other.
    pub open spec fn with_binders(self, list: Seq<ForallBinder>) -> TypeStore
        decreases list.len(),
    {
        if list.len() == 0 {
            self
        } else {
            self.with_binders(list.drop_last()).with_binder(list.last())
        }
    }

    /// The store with the rigid variables of binders, and the identities of these types.
    pub open spec fn with_rigids(self, list: Seq<ForallBinder>, depth: Depth) -> (
        TypeStore,
        Seq<TypeId>,
    )
        decreases list.len(),
    {
        if list.len() == 0 {
            (self, Seq::empty())
        } else {
            let (held, ids) = self.with_rigids(list.drop_last(), depth);
            let rigid = Type::Rigid(list.last().name, depth, list.last().kind);
            (held.with_type(rigid), ids.push(held.with_type(rigid).identity(rigid)))
        }
    }

    /// The store with the function type from the arguments, one after the other, and the
    /// identity of that type.
    pub open spec fn with_functions(self, list: Seq<TypeId>, inner: TypeId) -> (TypeStore, TypeId)
        decreases list.len(),
    {
        if list.len() == 0 {
            (self, inner)
        } else {
            let (held, rest) = self.with_functions(list.skip(1), inner);
            let outer = Type::Function(list[0], rest);
            (held.with_type(outer), held.with_type(outer).identity(outer))
        }
    }

    /// The store with a type quantified over the binders, and the identity of that type.
    pub open spec fn with_foralls(self, list: Seq<ForallBinderId>, inner: TypeId) -> (TypeStore, TypeId)
        decreases list.len(),
    {
        if list.len() == 0 {
            (self, inner)
        } else {
            let (held, rest) = self.with_foralls(list.skip(1), inner);
            let outer = Type::Forall(list[0], rest);
            (held.with_type(outer), held.with_type(outer).identity(outer))
        }
    }

    /// The store with a type under the constraints, and the identity of that type.
    pub open spec fn with_constraints(self, list: Seq<TypeId>, inner: TypeId) -> (TypeStore, TypeId)
        decreases list.len(),
    {
        if list.len() == 0 {
            (self, inner)
        } else {
            let (held, rest) = self.with_constraints(list.skip(1), inner);
            let outer = Type::Constrained(list[0], rest);
            (held.with_type(outer), held.with_type(outer).identity(outer))
        }
    }

    /// The store with a function applied to the arguments, and the identity of that type.
    pub open spec fn with_applications(self, function: TypeId, list: Seq<TypeId>) -> (TypeStore, TypeId)
        decreases list.len(),
    {
        if list.len() == 0 {
            (self, function)
        } else {
            let (held, inner) = self.with_applications(function, list.drop_last());
            let outer = Type::Application(inner, list.last());
            (held.with_type(outer), held.with_type(outer).identity(outer))
        }
    }

    /// The store with a function applied to the kinds, and the identity of that type.
    pub open spec fn with_kind_applications(self, function: TypeId, list: Seq<TypeId>) -> (TypeStore, TypeId)
        decreases list.len(),
    {
        if list.len() == 0 {
            (self, function)
        } else {
            let (held, inner) = self.with_kind_applications(function, list.drop_last());
            let outer = Type::KindApplication(inner, list.last());
            (held.with_type(outer), held.with_type(outer).identity(outer))
        }
    }

    /// The identity stands for the binder.
    pub open spec fn denotes_binder(self, id: ForallBinderId, binder: ForallBinder) -> bool {
        id.raw < self.binders.len() && self.binders[id.raw as int] == binder
    }

    /// The identity stands for the text.
    pub open spec fn denotes_text(self, id: SmolStrId, text: Seq<char>) -> bool {
        id.raw < self.texts.len() && self.texts[id.raw as int] == text
    }

    /// The identity stands for an unknown type with the explanation.
    pub open spec fn is_unknown(self, id: TypeId, text: Seq<char>) -> bool {
        self.has_type(id) && (self.type_at(id) matches Type::Unknown(explanation)
            && self.denotes_text(explanation, text))
    }

    /// The identity stands for the function type from the arguments, one after
    /// the other, to the result.
    pub open spec fn is_function(
        self,
        id: TypeId,
        arguments: Seq<TypeId>,
        result: TypeId,
    ) -> bool
        decreases arguments.len(),
    {
        if arguments.len() == 0 {
            id == result
        } else {
            self.has_type(id) && (self.type_at(id) matches Type::Function(argument, rest)
                && argument == arguments[0] && self.is_function(rest, arguments.skip(1), result))
        }
    }

    /// The identity stands for the type quantified over the binders, the first
    /// one outermost.
    pub open spec fn is_forall(
        self,
        id: TypeId,
        binders: Seq<ForallBinderId>,
        body: TypeId,
    ) -> bool
        decreases binders.len(),
    {
        if binders.len() == 0 {
            id == body
        } else {
            self.has_type(id) && (self.type_at(id) matches Type::Forall(binder, rest) && binder
                == binders[0] && self.is_forall(rest, binders.skip(1), body))
        }
    }

    /// The identity stands for the type under the constraints, the first one
    /// outermost.
    pub open spec fn is_constrained(
        self,
        id: TypeId,
        constraints: Seq<TypeId>,
        body: TypeId,
    ) -> bool
        decreases constraints.len(),
    {
        if constraints.len() == 0 {
            id == body
        } else {
            self.has_type(id) && (self.type_at(id) matches Type::Constrained(constraint, rest)
                && constraint == constraints[0] && self.is_constrained(
                rest,
                constraints.skip(1),
                body,
            ))
        }
    }

    /// The identity stands for the function applied to the arguments.
    pub open spec fn is_application(
        self,
        id: TypeId,
        function: TypeId,
        arguments: Seq<TypeId>,
    ) -> bool
        decreases arguments.len(),
    {
        if arguments.len() == 0 {
            id == function
        } else {
            self.has_type(id) && (self.type_at(id) matches Type::Application(head, argument)
                && argument == arguments.last() && self.is_application(
                head,
                function,
                arguments.drop_last(),
            ))
        }
    }

    /// The identity stands for the function applied to the kinds.
    pub open spec fn is_kind_application(
        self,
        id: TypeId,
        function: TypeId,
        kinds: Seq<TypeId>,
    ) -> bool
        decreases kinds.len(),
    {
        if kinds.len() == 0 {
            id == function
        } else {
            self.has_type(id) && (self.type_at(id) matches Type::KindApplication(head, kind)
                && kind == kinds.last() && self.is_kind_application(
                head,
                function,
                kinds.drop_last(),
            ))
        }
    }
}

/// What a store says stays true where the store is extended.
pub broadcast proof fn lemma_denotes_extends(
    before: TypeStore,
    after: TypeStore,
    id: TypeId,
    t: Type,
)
    requires
        #[trigger] extends(before, after),
        #[trigger] before.denotes(id, t),
    ensures
        after.denotes(id, t),
{
}

pub broadcast proof fn lemma_unknown_extends(
    before: TypeStore,
    after: TypeStore,
    id: TypeId,
    text: Seq<char>,
)
    requires
        #[trigger] extends(before, after),
        #[trigger] before.is_unknown(id, text),
    ensures
        after.is_unknown(id, text),
{
}

pub broadcast proof fn lemma_function_extends(
    before: TypeStore,
    after: TypeStore,
    id: TypeId,
    arguments: Seq<TypeId>,
    result: TypeId,
)
    requires
        #[trigger] extends(before, after),
        #[trigger] before.is_function(id, arguments, result),
    ensures
        after.is_function(id, arguments, result),
    decreases arguments.len(),
{
    if arguments.len() > 0 {
        if let Type::Function(_, rest) = before.type_at(id) {
            lemma_function_extends(before, after, rest, arguments.skip(1), result);
        }
    }
}

pub broadcast proof fn lemma_forall_extends(
    before: TypeStore,
    after: TypeStore,
    id: TypeId,
    binders: Seq<ForallBinderId>,
    body: TypeId,
)
    requires
        #[trigger] extends(before, after),
        #[trigger] before.is_forall(id, binders, body),
    ensures
        after.is_forall(id, binders, body),
    decreases binders.len(),
{
    if binders.len() > 0 {
        if let Type::Forall(_, rest) = before.type_at(id) {
            lemma_forall_extends(before, after, rest, binders.skip(1), body);
        }
    }
}

pub broadcast proof fn lemma_constrained_extends(
    before: TypeStore,
    after: TypeStore,
    id: TypeId,
    constraints: Seq<TypeId>,
    body: TypeId,
)
    requires
        #[trigger] extends(before, after),
        #[trigger] before.is_constrained(id, constraints, body),
    ensures
        after.is_constrained(id, constraints, body),
    decreases constraints.len(),
{
    if constraints.len() > 0 {
        if let Type::Constrained(_, rest) = before.type_at(id) {
            lemma_constrained_extends(before, after, rest, constraints.skip(1), body);
        }
    }
}

pub broadcast proof fn lemma_application_extends(
    before: TypeStore,
    after: TypeStore,
    id: TypeId,
    function: TypeId,
    arguments: Seq<TypeId>,
)
    requires
        #[trigger] extends(before, after),
        #[trigger] before.is_application(id, function, arguments),
    ensures
        after.is_application(id, function, arguments),
    decreases arguments.len(),
{
    if arguments.len() > 0 {
        if let Type::Application(head, _) = before.type_at(id) {
            lemma_application_extends(before, after, head, function, arguments.drop_last());
        }
    }
}

pub broadcast proof fn lemma_kind_application_extends(
    before: TypeStore,
    after: TypeStore,
    id: TypeId,
    function: TypeId,
    kinds: Seq<TypeId>,
)
    requires
        #[trigger] extends(before, after),
        #[trigger] before.is_kind_application(id, function, kinds),
    ensures
        after.is_kind_application(id, function, kinds),
    decreases kinds.len(),
{
    if kinds.len() > 0 {
        if let Type::KindApplication(head, _) = before.type_at(id) {
            lemma_kind_application_extends(before, after, head, function, kinds.drop_last());
        }
    }
}

pub broadcast group group_extends {
    lemma_extends_reflexive,
    lemma_extends_transitive,
    lemma_denotes_extends,
    lemma_unknown_extends,
    lemma_function_extends,
    lemma_forall_extends,
    lemma_constrained_extends,
    lemma_application_extends,
    lemma_kind_application_extends,
}

/// Interned types, binders and texts. Equal ones have the same identity.
pub struct Types {
    types: Vec<Type>,
    binders: Vec<ForallBinder>,
    texts: Vec<String>,
}

impl View for Types {
    type V = TypeStore;

    closed spec fn view(&self) -> TypeStore {
        TypeStore {
            types: self.types@,
            binders: self.binders@,
            texts: self.texts@.map_values(|text: String| text@),
        }
    }
}

impl Types {
    pub fn new() -> (types: Types)
        ensures
            types@.wf(),
            types@.types.len() == 0,
            types@.binders.len() == 0,
            types@.texts.len() == 0,
    {
        Types { types: Vec::new(), binders: Vec::new(), texts: Vec::new() }
    }

    /// The type of an identity.
    /// Whether there is a type of the identity.
    pub fn holds(&self, id: TypeId) -> (held: bool)
        ensures
            held == self@.has_type(id),
    {
        id.raw < self.types.len()
    }

    pub fn lookup_type(&self, id: TypeId) -> (t: Type)
        requires
            self@.has_type(id),
        ensures
            t == self@.type_at(id),
    {
        self.types[id.raw]
    }

    /// The binder of an identity.
    /// Whether there is a binder of the identity.
    pub fn holds_binder(&self, id: ForallBinderId) -> (held: bool)
        ensures
            held == (id.raw < self@.binders.len()),
    {
        id.raw < self.binders.len()
    }

    pub fn lookup_forall_binder(&self, id: ForallBinderId) -> (binder: ForallBinder)
        requires
            id.raw < self@.binders.len(),
        ensures
            binder == self@.binders[id.raw as int],
    {
        self.binders[id.raw]
    }

    /// The identity of a type. A type that is new gets the next one.
    pub fn intern_type(&mut self, t: Type) -> (id: TypeId)
        requires
            old(self)@.wf(),
        ensures
            final(self)@.wf(),
            final(self)@.denotes(id, t),
            extends(old(self)@, final(self)@),
            final(self)@ == old(self)@.with_type(t),
            id == final(self)@.identity(t),
    {
        let mut index: usize = 0;
        while index < self.types.len()
            invariant
                index <= self.types.len(),
                *self == *old(self),
                self@.wf(),
                forall|i: int| 0 <= i < index ==> self@.types[i] != t,
            decreases self.types.len() - index,
        {
            if self.types[index] == t {
                assert(self@.types[index as int] == t);
                return TypeId { raw: index };
            }
            index += 1;
        }
        let id = TypeId { raw: self.types.len() };
        self.types.push(t);
        assert(self@ =~= (TypeStore { types: old(self)@.types.push(t), ..old(self)@ }));
        id
    }

    /// The identity of a binder. A binder that is new gets the next one.
    pub fn intern_forall_binder(&mut self, binder: ForallBinder) -> (id: ForallBinderId)
        requires
            old(self)@.wf(),
        ensures
            final(self)@.wf(),
            final(self)@.denotes_binder(id, binder),
            extends(old(self)@, final(self)@),
            final(self)@ == old(self)@.with_binder(binder),
    {
        let mut index: usize = 0;
        while index < self.binders.len()
            invariant
                index <= self.binders.len(),
                *self == *old(self),
                self@.wf(),
                forall|i: int| 0 <= i < index ==> self@.binders[i] != binder,
            decreases self.binders.len() - index,
        {
            if self.binders[index] == binder {
                return ForallBinderId { raw: index };
            }
            index += 1;
        }
        let id = ForallBinderId { raw: self.binders.len() };
        self.binders.push(binder);
        assert(self@ =~= (TypeStore { binders: old(self)@.binders.push(binder), ..old(self)@ }));
        id
    }

    /// The text of an identity, if there is one.
    pub fn lookup_smol_str(&self, id: SmolStrId) -> (text: Option<&String>)
        ensures
            match text {
                Some(text) => self@.denotes_text(id, text@),
                None => id.raw >= self@.texts.len(),
            },
    {
        if id.raw < self.texts.len() {
            Some(&self.texts[id.raw])
        } else {
            None
        }
    }

    /// The identity of a text. A text that is new gets the next one.
    pub fn intern_smol_str(&mut self, text: &str) -> (id: SmolStrId)
        requires
            old(self)@.wf(),
        ensures
            final(self)@.wf(),
            final(self)@.denotes_text(id, text@),
            extends(old(self)@, final(self)@),
            final(self)@ == old(self)@.with_text(text@),
            id == final(self)@.text_identity(text@),
    {
        let mut index: usize = 0;
        while index < self.texts.len()
            invariant
                index <= self.texts.len(),
                *self == *old(self),
                self@.wf(),
                forall|i: int| 0 <= i < index ==> self@.texts[i] != text@,
            decreases self.texts.len() - index,
        {
            if same_text(self.texts[index].as_str(), text) {
                assert(self@.texts[index as int] == text@);
                return SmolStrId { raw: index };
            }
            index += 1;
        }
        let id = SmolStrId { raw: self.texts.len() };
        self.texts.push(text.to_owned());
        assert(self@ =~= (TypeStore { texts: old(self)@.texts.push(text@), ..old(self)@ }));
        assert(self@.texts[id.raw as int] == text@);
        id
    }

    /// An unknown type with an explanation.
    pub fn unknown(&mut self, explanation: &str) -> (id: TypeId)
        requires
            old(self)@.wf(),
        ensures
            final(self)@.wf(),
            final(self)@.is_unknown(id, explanation@),
            extends(old(self)@, final(self)@),
            (final(self)@, id) == old(self)@.with_unknown(explanation@),
    {
        broadcast use group_extends;

        let text = self.intern_smol_str(explanation);
        self.intern_type(Type::Unknown(text))
    }

    pub fn intern_function(&mut self, argument: TypeId, result: TypeId) -> (id: TypeId)
        requires
            old(self)@.wf(),
        ensures
            final(self)@.wf(),
            final(self)@.denotes(id, Type::Function(argument, result)),
            extends(old(self)@, final(self)@),
            final(self)@ == old(self)@.with_type(Type::Function(argument, result)),
            id == final(self)@.identity(Type::Function(argument, result)),
    {
        self.intern_type(Type::Function(argument, result))
    }

    pub fn intern_application(&mut self, function: TypeId, argument: TypeId) -> (id: TypeId)
        requires
            old(self)@.wf(),
        ensures
            final(self)@.wf(),
            final(self)@.denotes(id, Type::Application(function, argument)),
            extends(old(self)@, final(self)@),
            final(self)@ == old(self)@.with_type(Type::Application(function, argument)),
            id == final(self)@.identity(Type::Application(function, argument)),
    {
        self.intern_type(Type::Application(function, argument))
    }

    pub fn intern_kind_application(&mut self, function: TypeId, argument: TypeId) -> (id: TypeId)
        requires
            old(self)@.wf(),
        ensures
            final(self)@.wf(),
            final(self)@.denotes(id, Type::KindApplication(function, argument)),
            extends(old(self)@, final(self)@),
            final(self)@ == old(self)@.with_type(Type::KindApplication(function, argument)),
            id == final(self)@.identity(Type::KindApplication(function, argument)),
    {
        self.intern_type(Type::KindApplication(function, argument))
    }

    pub fn intern_constrained(&mut self, constraint: TypeId, constrained: TypeId) -> (id: TypeId)
        requires
            old(self)@.wf(),
        ensures
            final(self)@.wf(),
            final(self)@.denotes(id, Type::Constrained(constraint, constrained)),
            extends(old(self)@, final(self)@),
            final(self)@ == old(self)@.with_type(Type::Constrained(constraint, constrained)),
            id == final(self)@.identity(Type::Constrained(constraint, constrained)),
    {
        self.intern_type(Type::Constrained(constraint, constrained))
    }

    pub fn intern_forall(&mut self, binder: ForallBinderId, body: TypeId) -> (id: TypeId)
        requires
            old(self)@.wf(),
        ensures
            final(self)@.wf(),
            final(self)@.denotes(id, Type::Forall(binder, body)),
            extends(old(self)@, final(self)@),
            final(self)@ == old(self)@.with_type(Type::Forall(binder, body)),
            id == final(self)@.identity(Type::Forall(binder, body)),
    {
        self.intern_type(Type::Forall(binder, body))
    }

    pub fn intern_rigid(&mut self, name: Name, depth: Depth, kind: TypeId) -> (id: TypeId)
        requires
            old(self)@.wf(),
        ensures
            final(self)@.wf(),
            final(self)@.denotes(id, Type::Rigid(name, depth, kind)),
            extends(old(self)@, final(self)@),
            final(self)@ == old(self)@.with_type(Type::Rigid(name, depth, kind)),
            id == final(self)@.identity(Type::Rigid(name, depth, kind)),
    {
        self.intern_type(Type::Rigid(name, depth, kind))
    }

    /// The function type from some arguments, one after the other, to a result.
    pub fn intern_function_list(&mut self, arguments: &Vec<TypeId>, result: TypeId) -> (id: TypeId)
        requires
            old(self)@.wf(),
        ensures
            final(self)@.wf(),
            final(self)@.is_function(id, arguments@, result),
            extends(old(self)@, final(self)@),
            (final(self)@, id) == old(self)@.with_functions(arguments@, result),
    {
        assert(arguments@.skip(0) =~= arguments@);
        self.intern_function_from(arguments, 0, result)
    }

    /// The function type from the arguments behind the first ones to a result.
    pub fn intern_function_from(
        &mut self,
        arguments: &Vec<TypeId>,
        start: usize,
        result: TypeId,
    ) -> (id: TypeId)
        requires
            old(self)@.wf(),
            start <= arguments@.len(),
        ensures
            final(self)@.wf(),
            final(self)@.is_function(id, arguments@.skip(start as int), result),
            extends(old(self)@, final(self)@),
            (final(self)@, id) == old(self)@.with_functions(
                arguments@.skip(start as int),
                result,
            ),
    {
        let mut id = result;
        let mut index: usize = arguments.len();
        while index > start
            invariant
                start <= index <= arguments.len(),
                self@.wf(),
                self@.is_function(id, arguments@.skip(index as int), result),
                extends(old(self)@, self@),
                (self@, id) == old(self)@.with_functions(arguments@.skip(index as int), result),
            decreases index,
        {
            let ghost before = self@;
            let ghost inner = id;
            index -= 1;
            id = self.intern_function(arguments[index], id);
            proof {
                lemma_function_extends(before, self@, inner, arguments@.skip(index + 1), result);
                lemma_extends_transitive(old(self)@, before, self@);
            }
            assert(arguments@.skip(index as int).skip(1) =~= arguments@.skip(index + 1));
        }
        id
    }

    /// The type quantified over some binders, the first one outermost.
    pub fn intern_foralls(&mut self, binders: &Vec<ForallBinderId>, body: TypeId) -> (id: TypeId)
        requires
            old(self)@.wf(),
        ensures
            final(self)@.wf(),
            final(self)@.is_forall(id, binders@, body),
            extends(old(self)@, final(self)@),
            (final(self)@, id) == old(self)@.with_foralls(binders@, body),
    {
        let mut id = body;
        let mut index: usize = binders.len();
        while index > 0
            invariant
                index <= binders.len(),
                self@.wf(),
                self@.is_forall(id, binders@.skip(index as int), body),
                extends(old(self)@, self@),
                (self@, id) == old(self)@.with_foralls(binders@.skip(index as int), body),
            decreases index,
        {
            let ghost before = self@;
            let ghost inner = id;
            index -= 1;
            id = self.intern_forall(binders[index], id);
            proof {
                lemma_forall_extends(before, self@, inner, binders@.skip(index + 1), body);
                lemma_extends_transitive(old(self)@, before, self@);
            }
            assert(binders@.skip(index as int).skip(1) =~= binders@.skip(index + 1));
        }
        assert(binders@.skip(0) =~= binders@);
        id
    }

    /// The type under some constraints, the first one outermost.
    pub fn intern_constraints(&mut self, constraints: &Vec<TypeId>, body: TypeId) -> (id: TypeId)
        requires
            old(self)@.wf(),
        ensures
            final(self)@.wf(),
            final(self)@.is_constrained(id, constraints@, body),
            extends(old(self)@, final(self)@),
            (final(self)@, id) == old(self)@.with_constraints(constraints@, body),
    {
        let mut id = body;
        let mut index: usize = constraints.len();
        while index > 0
            invariant
                index <= constraints.len(),
                self@.wf(),
                self@.is_constrained(id, constraints@.skip(index as int), body),
                extends(old(self)@, self@),
                (self@, id) == old(self)@.with_constraints(constraints@.skip(index as int), body),
            decreases index,
        {
            let ghost before = self@;
            let ghost inner = id;
            index -= 1;
            id = self.intern_constrained(constraints[index], id);
            proof {
                lemma_constrained_extends(before, self@, inner, constraints@.skip(index + 1), body);
                lemma_extends_transitive(old(self)@, before, self@);
            }
            assert(constraints@.skip(index as int).skip(1) =~= constraints@.skip(index + 1));
        }
        assert(constraints@.skip(0) =~= constraints@);
        id
    }

    /// A function applied to some arguments.
    pub fn intern_applications(&mut self, function: TypeId, arguments: &Vec<TypeId>) -> (id: TypeId)
        requires
            old(self)@.wf(),
        ensures
            final(self)@.wf(),
            final(self)@.is_application(id, function, arguments@),
            extends(old(self)@, final(self)@),
            (final(self)@, id) == old(self)@.with_applications(function, arguments@),
    {
        let mut id = function;
        let mut index: usize = 0;
        assert(arguments@.take(0) =~= Seq::empty());
        while index < arguments.len()
            invariant
                index <= arguments.len(),
                self@.wf(),
                self@.is_application(id, function, arguments@.take(index as int)),
                extends(old(self)@, self@),
                (self@, id) == old(self)@.with_applications(
                    function,
                    arguments@.take(index as int),
                ),
            decreases arguments.len() - index,
        {
            let ghost before = self@;
            let ghost inner = id;
            id = self.intern_application(id, arguments[index]);
            proof {
                lemma_application_extends(
                    before,
                    self@,
                    inner,
                    function,
                    arguments@.take(index as int),
                );
                lemma_extends_transitive(old(self)@, before, self@);
            }
            assert(arguments@.take(index + 1).drop_last() =~= arguments@.take(index as int));
            index += 1;
        }
        assert(arguments@.take(index as int) =~= arguments@);
        id
    }

    /// A function applied to some kinds.
    pub fn intern_kind_applications(&mut self, function: TypeId, kinds: &Vec<TypeId>) -> (id: TypeId)
        requires
            old(self)@.wf(),
        ensures
            final(self)@.wf(),
            final(self)@.is_kind_application(id, function, kinds@),
            extends(old(self)@, final(self)@),
            (final(self)@, id) == old(self)@.with_kind_applications(function, kinds@),
    {
        let mut id = function;
        let mut index: usize = 0;
        assert(kinds@.take(0) =~= Seq::empty());
        while index < kinds.len()
            invariant
                index <= kinds.len(),
                self@.wf(),
                self@.is_kind_application(id, function, kinds@.take(index as int)),
                extends(old(self)@, self@),
                (self@, id) == old(self)@.with_kind_applications(
                    function,
                    kinds@.take(index as int),
                ),
            decreases kinds.len() - index,
        {
            let ghost before = self@;
            let ghost inner = id;
            id = self.intern_kind_application(id, kinds[index]);
            proof {
                lemma_kind_application_extends(
                    before,
                    self@,
                    inner,
                    function,
                    kinds@.take(index as int),
                );
                lemma_extends_transitive(old(self)@, before, self@);
            }
            assert(kinds@.take(index + 1).drop_last() =~= kinds@.take(index as int));
            index += 1;
        }
        assert(kinds@.take(index as int) =~= kinds@);
        id
    }
}

/// Types have the same identity exactly where they are equal.
pub proof fn lemma_identity_is_equality(store: TypeStore, left: TypeId, right: TypeId)
    requires
        store.wf(),
        store.has_type(left),
        store.has_type(right),
    ensures
        left == right <==> store.type_at(left) == store.type_at(right),
{
}

} // verus!
