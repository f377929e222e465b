//! Elaboration of `do` blocks.

use super::super::error::{ErrorCrumb, ErrorKind};
use super::super::lowering::{
    DoStatementId, SourceBinderId, SourceExpressionId, TermVariableResolution,
};
use super::super::state::{
    reported, with_tree, CheckState, CheckedModule, UnificationEntry, UnificationState,
};
use super::super::tree::{
    BinderId, BinderKind, BinderSource, ExpressionId, ExpressionKind, LetBindings, Tree,
    VariableResolution,
};
use super::super::types::{
    extends, group_extends, lemma_extends_transitive, Prim, Type, TypeId, TypeStore, Types,
};
use super::application::{
    allocate_error_expression, allocate_expression, applied_to, error_allocated, evidence_nodes,
    grown_by, lemma_applied_to_extends, lemma_stands_extends, lemma_tree_extends_transitive,
    materialize_application, only_expressions_added, stands, tree_extends, ElaboratedExpression,
    ImplicitApplication, UnanchoredApplication,
};
use crate::collections::copy_all;
use vstd::prelude::*;

verus! {

/// A function that a block is made of.
#[derive(Clone, Copy, Debug, PartialEq, Eq, Structural)]
pub struct DesugaredFunction {
    pub resolution: Option<TermVariableResolution>,
    pub type_id: TypeId,
}

/// The expression for a function of a block: a variable, or an error where the
/// function is not known.
pub open spec fn function_kind(resolution: Option<TermVariableResolution>) -> ExpressionKind {
    match resolution {
        Some(resolution) => ExpressionKind::Variable {
            resolution: VariableResolution::Source(resolution),
        },
        None => ExpressionKind::Error,
    }
}

impl DesugaredFunction {
    pub fn type_id(&self) -> (type_id: TypeId)
        ensures
            type_id == self.type_id,
    {
        self.type_id
    }

    pub fn allocate_expression(&self, state: &mut CheckState) -> (function: ElaboratedExpression)
        requires
            old(state).checked.tree@.expressions.len() <= u32::MAX,
        ensures
            function.type_id == self.type_id,
            function.expression == old(state).checked.tree@.next_expression(),
            only_expressions_added(*old(state), *final(state)),
            final(state).checked.tree@ == old(state).checked.tree@.with_expression(
                self.type_id,
                function_kind(self.resolution),
            ),
    {
        match self.resolution {
            Some(resolution) => {
                let resolution = VariableResolution::Source(resolution);
                allocate_expression(state, self.type_id, ExpressionKind::Variable { resolution })
            },
            None => allocate_error_expression(state, self.type_id),
        }
    }
}

// Functions

/// The unification variables of a synthesised type are new ones.
pub open spec fn variables_added(before: CheckState, after: CheckState, kinds: Seq<TypeId>) -> bool {
    &&& after == (CheckState { unifications: after.unifications, ..before })
    &&& after.unifications.wf()
    &&& !after.unifications.is_frozen()
    &&& after.unifications@ == before.unifications@ + Seq::new(
        kinds.len(),
        |i: int|
            UnificationEntry {
                depth: before.depth,
                kind: kinds[i],
                state: UnificationState::Unsolved,
            },
    )
}

/// The identity stands for a unification variable.
pub open spec fn is_variable(store: TypeStore, id: TypeId, index: nat) -> bool {
    store.denotes(id, Type::Unification(index as u32))
}

/// The type is `m a -> (a -> m b) -> m b` over three new variables.
pub open spec fn is_bind_type(store: TypeStore, id: TypeId, first: nat) -> bool {
    exists|m: TypeId, a: TypeId, b: TypeId, m_a: TypeId, m_b: TypeId, a_to_m_b: TypeId|
        {
            &&& is_variable(store, m, first)
            &&& is_variable(store, a, first + 1)
            &&& is_variable(store, b, first + 2)
            &&& #[trigger] store.denotes(m_a, Type::Application(m, a))
            &&& #[trigger] store.denotes(m_b, Type::Application(m, b))
            &&& #[trigger] store.denotes(a_to_m_b, Type::Function(a, m_b))
            &&& store.is_function(id, seq![m_a, a_to_m_b], m_b)
        }
}

/// The type is `(a -> b) -> f a -> f b` over three new variables.
pub open spec fn is_map_type(store: TypeStore, id: TypeId, first: nat) -> bool {
    exists|f: TypeId, a: TypeId, b: TypeId, f_a: TypeId, f_b: TypeId, a_to_b: TypeId|
        {
            &&& is_variable(store, f, first)
            &&& is_variable(store, a, first + 1)
            &&& is_variable(store, b, first + 2)
            &&& #[trigger] store.denotes(f_a, Type::Application(f, a))
            &&& #[trigger] store.denotes(f_b, Type::Application(f, b))
            &&& #[trigger] store.denotes(a_to_b, Type::Function(a, b))
            &&& store.is_function(id, seq![a_to_b, f_a], f_b)
        }
}

/// The type is `f (a -> b) -> f a -> f b` over three new variables.
pub open spec fn is_apply_type(store: TypeStore, id: TypeId, first: nat) -> bool {
    exists|
        f: TypeId,
        a: TypeId,
        b: TypeId,
        f_a: TypeId,
        f_b: TypeId,
        a_to_b: TypeId,
        f_a_to_b: TypeId,
    |
        {
            &&& is_variable(store, f, first)
            &&& is_variable(store, a, first + 1)
            &&& is_variable(store, b, first + 2)
            &&& #[trigger] store.denotes(f_a, Type::Application(f, a))
            &&& #[trigger] store.denotes(f_b, Type::Application(f, b))
            &&& #[trigger] store.denotes(a_to_b, Type::Function(a, b))
            &&& #[trigger] store.denotes(f_a_to_b, Type::Application(f, a_to_b))
            &&& store.is_function(id, seq![f_a_to_b, f_a], f_b)
        }
}

/// The type is `a -> f a` over two new variables.
pub open spec fn is_pure_type(store: TypeStore, id: TypeId, first: nat) -> bool {
    exists|f: TypeId, a: TypeId, f_a: TypeId|
        {
            &&& is_variable(store, f, first)
            &&& is_variable(store, a, first + 1)
            &&& #[trigger] store.denotes(f_a, Type::Application(f, a))
            &&& store.denotes(id, Type::Function(a, f_a))
        }
}

/// The type store with three new variables, and their identities.
pub open spec fn with_container(store: TypeStore, first: nat) -> (
    TypeStore,
    (TypeId, TypeId, TypeId),
) {
    let f = Type::Unification(first as u32);
    let a = Type::Unification((first + 1) as u32);
    let b = Type::Unification((first + 2) as u32);
    let held = store.with_type(f).with_type(a).with_type(b);
    (held, (held.identity(f), held.identity(a), held.identity(b)))
}

/// The type store with a function type of two arguments, and the identity of that
/// type.
pub open spec fn with_binary(
    store: TypeStore,
    first: TypeId,
    second: TypeId,
    result: TypeId,
) -> (TypeStore, TypeId) {
    let rest = Type::Function(second, result);
    let partial = store.with_type(rest);
    let whole = Type::Function(first, partial.identity(rest));
    let last = partial.with_type(whole);
    (last, last.identity(whole))
}

/// The type store with the type of `bind` over three new variables, and the
/// identity of that type.
#[verifier::opaque]
pub open spec fn with_bind_type(store: TypeStore, first: nat) -> (TypeStore, TypeId) {
    let (held, (m, a, b)) = with_container(store, first);
    let m_a = Type::Application(m, a);
    let m_b = Type::Application(m, b);
    let applied = held.with_type(m_a).with_type(m_b);
    let result = applied.identity(m_b);
    let a_to_m_b = Type::Function(a, result);
    let continued = applied.with_type(a_to_m_b);
    with_binary(continued, applied.identity(m_a), continued.identity(a_to_m_b), result)
}

/// The type store with the type of `map` over three new variables, and the
/// identity of that type.
#[verifier::opaque]
pub open spec fn with_map_type(store: TypeStore, first: nat) -> (TypeStore, TypeId) {
    let (held, (f, a, b)) = with_container(store, first);
    let f_a = Type::Application(f, a);
    let f_b = Type::Application(f, b);
    let a_to_b = Type::Function(a, b);
    let applied = held.with_type(f_a).with_type(f_b).with_type(a_to_b);
    with_binary(applied, applied.identity(a_to_b), applied.identity(f_a), applied.identity(f_b))
}

/// The type store with the type of `apply` over three new variables, and the
/// identity of that type.
#[verifier::opaque]
pub open spec fn with_apply_type(store: TypeStore, first: nat) -> (TypeStore, TypeId) {
    let (held, (f, a, b)) = with_container(store, first);
    let a_to_b = Type::Function(a, b);
    let mapped = held.with_type(a_to_b);
    let f_a_to_b = Type::Application(f, mapped.identity(a_to_b));
    let f_a = Type::Application(f, a);
    let f_b = Type::Application(f, b);
    let applied = mapped.with_type(f_a_to_b).with_type(f_a).with_type(f_b);
    with_binary(applied, applied.identity(f_a_to_b), applied.identity(f_a), applied.identity(f_b))
}

/// The type store with the type of `pure` over two new variables, and the
/// identity of that type.
#[verifier::opaque]
pub open spec fn with_pure_type(store: TypeStore, first: nat) -> (TypeStore, TypeId) {
    let f = Type::Unification(first as u32);
    let a = Type::Unification((first + 1) as u32);
    let held = store.with_type(f).with_type(a);
    let f_a = Type::Application(held.identity(f), held.identity(a));
    let applied = held.with_type(f_a);
    let whole = Type::Function(held.identity(a), applied.identity(f_a));
    let last = applied.with_type(whole);
    (last, last.identity(whole))
}

/// What is found for `bind`, and what it leaves behind: the function as it is
/// resolved, or one of the type of `bind` over three new variables.
pub open spec fn bind_found(
    before: (CheckState, TypeStore),
    after: (CheckState, TypeStore),
    prim: Prim,
    resolved: Option<(TermVariableResolution, TypeId)>,
    function: DesugaredFunction,
) -> bool {
    match resolved {
        Some((resolution, type_id)) => {
            &&& function == (DesugaredFunction { resolution: Some(resolution), type_id })
            &&& after == before
        },
        None => {
            &&& function.resolution is None
            &&& variables_added(before.0, after.0, seq![prim.type_to_type, prim.t, prim.t])
            &&& (after.1, function.type_id) == with_bind_type(
                before.1,
                before.0.unifications@.len(),
            )
            &&& is_bind_type(after.1, function.type_id, before.0.unifications@.len())
        },
    }
}

/// What is found for `bind` depends on nothing but what is given: so
/// `discard`, of which the same is said, is found with the same type and leaves
/// the same behind.
pub proof fn lemma_discard_is_bind(
    before: (CheckState, TypeStore),
    bind: (CheckState, TypeStore),
    discard: (CheckState, TypeStore),
    prim: Prim,
    resolved: Option<(TermVariableResolution, TypeId)>,
    first: DesugaredFunction,
    second: DesugaredFunction,
)
    requires
        bind_found(before, bind, prim, resolved, first),
        bind_found(before, discard, prim, resolved, second),
    ensures
        first == second,
        bind.1 == discard.1,
        bind.0.unifications@ == discard.0.unifications@,
        discard.0 == (CheckState { unifications: discard.0.unifications, ..bind.0 }),
{
}

/// A container and two types that are still to be found.
fn fresh_container(state: &mut CheckState, types: &mut Types, prim: &Prim) -> (variables: (
    TypeId,
    TypeId,
    TypeId,
))
    requires
        old(state).unifications.wf(),
        !old(state).unifications.is_frozen(),
        old(state).unifications@.len() + 3 <= u32::MAX,
        old(types)@.wf(),
    ensures
        variables_added(*old(state), *final(state), seq![prim.type_to_type, prim.t, prim.t]),
        final(types)@.wf(),
        extends(old(types)@, final(types)@),
        is_variable(final(types)@, variables.0, old(state).unifications@.len()),
        is_variable(final(types)@, variables.1, old(state).unifications@.len() + 1),
        is_variable(final(types)@, variables.2, old(state).unifications@.len() + 2),
        (final(types)@, variables) == with_container(old(types)@, old(state).unifications@.len()),
{
    broadcast use group_extends;

    let f = state.fresh_unification(types, prim.type_to_type);
    let ghost first = types@;
    let a = state.fresh_unification(types, prim.t);
    let ghost second = types@;
    let b = state.fresh_unification(types, prim.t);
    let ghost kinds = seq![prim.type_to_type, prim.t, prim.t];
    assert(state.unifications@ =~= old(state).unifications@ + Seq::new(
        kinds.len(),
        |i: int|
            UnificationEntry {
                depth: old(state).depth,
                kind: kinds[i],
                state: UnificationState::Unsolved,
            },
    ));
    assert(first.denotes(f, Type::Unification(old(state).unifications@.len() as u32)));
    assert(second.denotes(a, Type::Unification((old(state).unifications@.len() + 1) as u32)));
    assert(types@.denotes(f, Type::Unification(old(state).unifications@.len() as u32)));
    assert(types@.denotes(a, Type::Unification((old(state).unifications@.len() + 1) as u32)));
    (f, a, b)
}

/// A function type with two arguments.
fn intern_binary(types: &mut Types, first: TypeId, second: TypeId, result: TypeId) -> (id: TypeId)
    requires
        old(types)@.wf(),
    ensures
        final(types)@.wf(),
        extends(old(types)@, final(types)@),
        final(types)@.is_function(id, seq![first, second], result),
        (final(types)@, id) == with_binary(old(types)@, first, second, result),
{
    broadcast use group_extends;

    let rest = types.intern_function(second, result);
    let ghost partial = types@;
    let id = types.intern_function(first, rest);
    proof {
        let arguments = seq![first, second];
        assert(partial.denotes(rest, Type::Function(second, result)));
        assert(types@.denotes(rest, Type::Function(second, result)));
        assert(arguments.skip(1) =~= seq![second]);
        assert(seq![second].skip(1) =~= Seq::empty());
        assert(types@.is_function(result, Seq::empty(), result));
        assert(types@.is_function(rest, seq![second], result));
    }
    id
}

/// `bind` as it is resolved, with the type that it was found to have, or
/// `?m ?a -> (?a -> ?m ?b) -> ?m ?b`.
pub fn lookup_or_synthesise_bind(
    state: &mut CheckState,
    types: &mut Types,
    prim: &Prim,
    resolved: Option<(TermVariableResolution, TypeId)>,
) -> (function: DesugaredFunction)
    requires
        old(state).unifications.wf(),
        !old(state).unifications.is_frozen(),
        old(state).unifications@.len() + 3 <= u32::MAX,
        old(types)@.wf(),
    ensures
        final(types)@.wf(),
        extends(old(types)@, final(types)@),
        bind_found(
            (*old(state), old(types)@),
            (*final(state), final(types)@),
            *prim,
            resolved,
            function,
        ),
{
    if let Some((resolution, type_id)) = resolved {
        return DesugaredFunction { resolution: Some(resolution), type_id };
    }
    broadcast use group_extends;

    reveal(with_bind_type);

    let (m, a, b) = fresh_container(state, types, prim);
    let ghost s0 = types@;
    let m_a = types.intern_application(m, a);
    let ghost s1 = types@;
    let m_b = types.intern_application(m, b);
    let ghost s2 = types@;
    let a_to_m_b = types.intern_function(a, m_b);
    let ghost s3 = types@;
    let type_id = intern_binary(types, m_a, a_to_m_b, m_b);
    proof {
        assert(s0.denotes(m, Type::Unification(old(state).unifications@.len() as u32)));
        assert(s0.denotes(a, Type::Unification((old(state).unifications@.len() + 1) as u32)));
        assert(s0.denotes(b, Type::Unification((old(state).unifications@.len() + 2) as u32)));
        assert(extends(s0, types@) && extends(s1, types@) && extends(s2, types@));
        assert(types@.denotes(m_a, Type::Application(m, a)));
        assert(types@.denotes(m_b, Type::Application(m, b)));
        assert(types@.denotes(a_to_m_b, Type::Function(a, m_b)));
    }
    DesugaredFunction { resolution: None, type_id }
}

/// `discard` as it is resolved, with the type that it was found to have, or
/// `?m ?a -> (?a -> ?m ?b) -> ?m ?b`.
pub fn lookup_or_synthesise_discard(
    state: &mut CheckState,
    types: &mut Types,
    prim: &Prim,
    resolved: Option<(TermVariableResolution, TypeId)>,
) -> (function: DesugaredFunction)
    requires
        old(state).unifications.wf(),
        !old(state).unifications.is_frozen(),
        old(state).unifications@.len() + 3 <= u32::MAX,
        old(types)@.wf(),
    ensures
        final(types)@.wf(),
        extends(old(types)@, final(types)@),
        bind_found(
            (*old(state), old(types)@),
            (*final(state), final(types)@),
            *prim,
            resolved,
            function,
        ),
{
    // Same shape as bind
    lookup_or_synthesise_bind(state, types, prim, resolved)
}

/// `map` as it is resolved, with the type that it was found to have, or
/// `(?a -> ?b) -> ?f ?a -> ?f ?b`.
pub fn lookup_or_synthesise_map(
    state: &mut CheckState,
    types: &mut Types,
    prim: &Prim,
    resolved: Option<(TermVariableResolution, TypeId)>,
) -> (function: DesugaredFunction)
    requires
        old(state).unifications.wf(),
        !old(state).unifications.is_frozen(),
        old(state).unifications@.len() + 3 <= u32::MAX,
        old(types)@.wf(),
    ensures
        final(types)@.wf(),
        extends(old(types)@, final(types)@),
        match resolved {
            Some((resolution, type_id)) => {
                &&& function == (DesugaredFunction { resolution: Some(resolution), type_id })
                &&& *final(state) == *old(state)
                &&& final(types)@ == old(types)@
            },
            None => {
                &&& function.resolution is None
                &&& variables_added(
                    *old(state),
                    *final(state),
                    seq![prim.type_to_type, prim.t, prim.t],
                )
                &&& is_map_type(final(types)@, function.type_id, old(state).unifications@.len())
                &&& (final(types)@, function.type_id) == with_map_type(
                    old(types)@,
                    old(state).unifications@.len(),
                )
            },
        },
{
    if let Some((resolution, type_id)) = resolved {
        return DesugaredFunction { resolution: Some(resolution), type_id };
    }
    broadcast use group_extends;

    reveal(with_map_type);

    let (f, a, b) = fresh_container(state, types, prim);
    let ghost s0 = types@;
    let f_a = types.intern_application(f, a);
    let ghost s1 = types@;
    let f_b = types.intern_application(f, b);
    let ghost s2 = types@;
    let a_to_b = types.intern_function(a, b);
    let ghost s3 = types@;
    let type_id = intern_binary(types, a_to_b, f_a, f_b);
    proof {
        assert(s0.denotes(f, Type::Unification(old(state).unifications@.len() as u32)));
        assert(s0.denotes(a, Type::Unification((old(state).unifications@.len() + 1) as u32)));
        assert(s0.denotes(b, Type::Unification((old(state).unifications@.len() + 2) as u32)));
        assert(extends(s0, types@) && extends(s1, types@) && extends(s2, types@));
        assert(types@.denotes(f_a, Type::Application(f, a)));
        assert(types@.denotes(f_b, Type::Application(f, b)));
        assert(types@.denotes(a_to_b, Type::Function(a, b)));
    }
    DesugaredFunction { resolution: None, type_id }
}

/// `apply` as it is resolved, with the type that it was found to have, or
/// `?f (?a -> ?b) -> ?f ?a -> ?f ?b`.
pub fn lookup_or_synthesise_apply(
    state: &mut CheckState,
    types: &mut Types,
    prim: &Prim,
    resolved: Option<(TermVariableResolution, TypeId)>,
) -> (function: DesugaredFunction)
    requires
        old(state).unifications.wf(),
        !old(state).unifications.is_frozen(),
        old(state).unifications@.len() + 3 <= u32::MAX,
        old(types)@.wf(),
    ensures
        final(types)@.wf(),
        extends(old(types)@, final(types)@),
        match resolved {
            Some((resolution, type_id)) => {
                &&& function == (DesugaredFunction { resolution: Some(resolution), type_id })
                &&& *final(state) == *old(state)
                &&& final(types)@ == old(types)@
            },
            None => {
                &&& function.resolution is None
                &&& variables_added(
                    *old(state),
                    *final(state),
                    seq![prim.type_to_type, prim.t, prim.t],
                )
                &&& is_apply_type(final(types)@, function.type_id, old(state).unifications@.len())
                &&& (final(types)@, function.type_id) == with_apply_type(
                    old(types)@,
                    old(state).unifications@.len(),
                )
            },
        },
{
    if let Some((resolution, type_id)) = resolved {
        return DesugaredFunction { resolution: Some(resolution), type_id };
    }
    broadcast use group_extends;

    reveal(with_apply_type);

    let (f, a, b) = fresh_container(state, types, prim);
    let ghost s0 = types@;
    let a_to_b = types.intern_function(a, b);
    let ghost s1 = types@;
    let f_a_to_b = types.intern_application(f, a_to_b);
    let ghost s2 = types@;
    let f_a = types.intern_application(f, a);
    let ghost s3 = types@;
    let f_b = types.intern_application(f, b);
    let ghost s4 = types@;
    let type_id = intern_binary(types, f_a_to_b, f_a, f_b);
    proof {
        assert(s0.denotes(f, Type::Unification(old(state).unifications@.len() as u32)));
        assert(s0.denotes(a, Type::Unification((old(state).unifications@.len() + 1) as u32)));
        assert(s0.denotes(b, Type::Unification((old(state).unifications@.len() + 2) as u32)));
        assert(extends(s3, types@));
        assert(extends(s2, types@));
        assert(extends(s1, types@));
        assert(extends(s0, types@));
        assert(types@.denotes(f_a, Type::Application(f, a)));
        assert(types@.denotes(f_b, Type::Application(f, b)));
        assert(types@.denotes(a_to_b, Type::Function(a, b)));
        assert(types@.denotes(f_a_to_b, Type::Application(f, a_to_b)));
    }
    DesugaredFunction { resolution: None, type_id }
}

/// `pure` as it is resolved, with the type that it was found to have, or
/// `?a -> ?f ?a`.
pub fn lookup_or_synthesise_pure(
    state: &mut CheckState,
    types: &mut Types,
    prim: &Prim,
    resolved: Option<(TermVariableResolution, TypeId)>,
) -> (function: DesugaredFunction)
    requires
        old(state).unifications.wf(),
        !old(state).unifications.is_frozen(),
        old(state).unifications@.len() + 2 <= u32::MAX,
        old(types)@.wf(),
    ensures
        final(types)@.wf(),
        extends(old(types)@, final(types)@),
        match resolved {
            Some((resolution, type_id)) => {
                &&& function == (DesugaredFunction { resolution: Some(resolution), type_id })
                &&& *final(state) == *old(state)
                &&& final(types)@ == old(types)@
            },
            None => {
                &&& function.resolution is None
                &&& variables_added(*old(state), *final(state), seq![prim.type_to_type, prim.t])
                &&& is_pure_type(final(types)@, function.type_id, old(state).unifications@.len())
                &&& (final(types)@, function.type_id) == with_pure_type(
                    old(types)@,
                    old(state).unifications@.len(),
                )
            },
        },
{
    if let Some((resolution, type_id)) = resolved {
        return DesugaredFunction { resolution: Some(resolution), type_id };
    }
    broadcast use group_extends;

    reveal(with_pure_type);

    let f = state.fresh_unification(types, prim.type_to_type);
    let ghost s0 = types@;
    let a = state.fresh_unification(types, prim.t);
    let ghost s1 = types@;
    let f_a = types.intern_application(f, a);
    let ghost s2 = types@;
    let type_id = types.intern_function(a, f_a);
    proof {
        let kinds = seq![prim.type_to_type, prim.t];
        assert(state.unifications@ =~= old(state).unifications@ + Seq::new(
            kinds.len(),
            |i: int|
                UnificationEntry {
                    depth: old(state).depth,
                    kind: kinds[i],
                    state: UnificationState::Unsolved,
                },
        ));
        assert(s0.denotes(f, Type::Unification(old(state).unifications@.len() as u32)));
        assert(s1.denotes(a, Type::Unification((old(state).unifications@.len() + 1) as u32)));
        assert(extends(s1, types@));
        assert(extends(s0, types@));
        assert(types@.denotes(f_a, Type::Application(f, a)));
    }
    DesugaredFunction { resolution: None, type_id }
}

// Statements

/// A statement of the source. What a `let` statement binds is found by the
/// statement's identity.
#[derive(Clone, Copy, Debug, PartialEq, Eq, Structural)]
pub enum DoStatement {
    Bind { binder: Option<SourceBinderId>, expression: Option<SourceExpressionId> },
    Let,
    Discard { expression: Option<SourceExpressionId> },
}

/// A binder with the type that was found for it.
#[derive(Clone, Copy, Debug, PartialEq, Eq, Structural)]
pub struct ElaboratedBinder {
    pub type_id: TypeId,
    pub binder: BinderId,
}

/// A statement whose binder has a type.
#[allow(inconsistent_fields)]
#[derive(Clone, Copy, Debug, PartialEq, Eq, Structural)]
pub enum DoStep {
    Bind {
        statement: DoStatementId,
        binder_type: TypeId,
        binder: BinderId,
        expression: Option<SourceExpressionId>,
    },
    Discard { statement: DoStatementId, expression: Option<SourceExpressionId> },
    Let { statement: DoStatementId },
}

impl DoStep {
    pub open spec fn action(self) -> bool {
        !(self is Let)
    }

    pub fn is_action(&self) -> (action: bool)
        ensures
            action == self.action(),
    {
        match self {
            DoStep::Bind { .. } => true,
            DoStep::Discard { .. } => true,
            DoStep::Let { .. } => false,
        }
    }
}

/// A generated binder of a new type was added for the statement.
pub open spec fn binder_generated(
    before: CheckState,
    after: CheckState,
    store: TypeStore,
    prim: Prim,
    statement: DoStatementId,
    kind: BinderKind,
    binder: ElaboratedBinder,
) -> bool {
    &&& is_variable(store, binder.type_id, before.unifications@.len())
    &&& after.unifications.wf()
    &&& !after.unifications.is_frozen()
    &&& after.unifications@ == before.unifications@.push(
        UnificationEntry { depth: before.depth, kind: prim.t, state: UnificationState::Unsolved },
    )
    &&& binder.binder == before.checked.tree@.next_binder()
    &&& after.checked.tree@ == before.checked.tree@.with_binder(
        BinderSource::DoStatement(statement),
        binder.type_id,
        kind,
    )
    &&& after == with_tree(
        CheckState { unifications: after.unifications, ..before },
        after.checked.tree,
    )
}

/// A binder of a type that is still to be found.
pub fn generate_binder(
    state: &mut CheckState,
    types: &mut Types,
    prim: &Prim,
    statement: DoStatementId,
    kind: BinderKind,
) -> (binder: ElaboratedBinder)
    requires
        old(state).unifications.wf(),
        !old(state).unifications.is_frozen(),
        old(state).unifications@.len() < u32::MAX,
        old(state).checked.tree@.binders.len() <= u32::MAX,
        old(types)@.wf(),
    ensures
        final(types)@.wf(),
        extends(old(types)@, final(types)@),
        final(types)@ == old(types)@.with_variable(old(state).unifications@.len()),
        binder_generated(
            *old(state),
            *final(state),
            final(types)@,
            *prim,
            statement,
            kind,
            binder,
        ),
{
    let type_id = state.fresh_unification(types, prim.t);
    let binder = state.allocate_generated_binder(statement, type_id, kind);
    ElaboratedBinder { type_id, binder }
}

/// The step for a statement. The statement's own binder, where it has one, has
/// been inferred.
pub fn do_step(
    state: &mut CheckState,
    types: &mut Types,
    prim: &Prim,
    statement_id: DoStatementId,
    statement: DoStatement,
    inferred: Option<ElaboratedBinder>,
) -> (step: DoStep)
    requires
        old(state).unifications.wf(),
        !old(state).unifications.is_frozen(),
        old(state).unifications@.len() < u32::MAX,
        old(state).checked.tree@.binders.len() <= u32::MAX,
        old(types)@.wf(),
        statement matches DoStatement::Bind { binder: Some(_), .. } ==> inferred is Some,
    ensures
        final(types)@.wf(),
        extends(old(types)@, final(types)@),
        final(types)@ == (if statement matches DoStatement::Bind { binder: None, .. } {
            old(types)@.with_variable(old(state).unifications@.len())
        } else {
            old(types)@
        }),
        match statement {
            DoStatement::Bind { binder: Some(_), expression } => {
                &&& *final(state) == *old(state)
                &&& step == (DoStep::Bind {
                    statement: statement_id,
                    binder_type: inferred->0.type_id,
                    binder: inferred->0.binder,
                    expression,
                })
            },
            DoStatement::Bind { binder: None, expression } => {
                &&& step matches DoStep::Bind {
                    statement: bound,
                    binder_type,
                    binder,
                    expression: source,
                }
                &&& bound == statement_id
                &&& source == expression
                &&& binder_generated(
                    *old(state),
                    *final(state),
                    final(types)@,
                    *prim,
                    statement_id,
                    BinderKind::Error,
                    ElaboratedBinder { type_id: binder_type, binder },
                )
            },
            DoStatement::Let => step == (DoStep::Let { statement: statement_id }) && *final(state)
                == *old(state),
            DoStatement::Discard { expression } => step == (DoStep::Discard {
                statement: statement_id,
                expression,
            }) && *final(state) == *old(state),
        },
{
    match statement {
        DoStatement::Bind { binder, expression } => {
            let elaborated = match (binder, inferred) {
                (Some(_), Some(inferred)) => inferred,
                _ => generate_binder(state, types, prim, statement_id, BinderKind::Error),
            };
            DoStep::Bind {
                statement: statement_id,
                binder_type: elaborated.type_id,
                binder: elaborated.binder,
                expression,
            }
        },
        DoStatement::Let => DoStep::Let { statement: statement_id },
        DoStatement::Discard { expression } => DoStep::Discard {
            statement: statement_id,
            expression,
        },
    }
}

/// How a block ends.
#[allow(inconsistent_fields)]
#[derive(Clone, Copy, Debug, PartialEq, Eq, Structural)]
pub enum DoBlockFinalStep {
    Empty,
    InvalidBind { statement: DoStatementId, expression: Option<SourceExpressionId> },
    Discard { expression: Option<SourceExpressionId> },
    InvalidLet { statement: DoStatementId },
}

impl DoBlockFinalStep {
    pub fn is_invalid_let(&self) -> (invalid: bool)
        ensures
            invalid == (self is InvalidLet),
    {
        match self {
            DoBlockFinalStep::InvalidLet { .. } => true,
            _ => false,
        }
    }
}

/// How the block of these steps ends.
pub open spec fn block_end(steps: Seq<DoStep>) -> DoBlockFinalStep {
    if steps.len() == 0 {
        DoBlockFinalStep::Empty
    } else {
        match steps.last() {
            DoStep::Bind { statement, expression, .. } => DoBlockFinalStep::InvalidBind {
                statement,
                expression,
            },
            DoStep::Discard { expression, .. } => DoBlockFinalStep::Discard { expression },
            DoStep::Let { statement } => DoBlockFinalStep::InvalidLet { statement },
        }
    }
}

pub fn do_final_step(steps: &Vec<DoStep>) -> (end: DoBlockFinalStep)
    ensures
        end == block_end(steps@),
{
    if steps.len() == 0 {
        return DoBlockFinalStep::Empty;
    }
    match steps[steps.len() - 1] {
        DoStep::Bind { statement, expression, .. } => DoBlockFinalStep::InvalidBind {
            statement,
            expression,
        },
        DoStep::Discard { expression, .. } => DoBlockFinalStep::Discard { expression },
        DoStep::Let { statement } => DoBlockFinalStep::InvalidLet { statement },
    }
}

/// A bind is among the steps.
pub open spec fn needs_bind(steps: Seq<DoStep>) -> bool {
    exists|i: int| 0 <= i < steps.len() && #[trigger] steps[i] is Bind
}

/// An action whose result is dropped is among the steps before the last one.
pub open spec fn needs_discard(steps: Seq<DoStep>) -> bool {
    exists|i: int| 0 <= i < steps.len() - 1 && #[trigger] steps[i] is Discard
}

/// Whether `bind` and whether `discard` is needed for the steps.
pub fn do_functions(steps: &Vec<DoStep>) -> (needed: (bool, bool))
    ensures
        needed == (needs_bind(steps@), needs_discard(steps@)),
{
    let mut has_bind = false;
    let mut has_discard = false;
    let mut index: usize = 0;
    while index < steps.len()
        invariant
            index <= steps.len(),
            has_bind == exists|i: int| 0 <= i < index && #[trigger] steps@[i] is Bind,
            has_discard == exists|i: int|
                0 <= i < index && i < steps.len() - 1 && #[trigger] steps@[i] is Discard,
        decreases steps.len() - index,
    {
        let is_final = index == steps.len() - 1;
        match steps[index] {
            DoStep::Bind { .. } => {
                assert(steps@[index as int] is Bind);
                has_bind = true;
            },
            DoStep::Discard { .. } => {
                if !is_final {
                    assert(steps@[index as int] is Discard);
                    has_discard = true;
                }
            },
            DoStep::Let { .. } => {},
        }
        index += 1;
    }
    (has_bind, has_discard)
}

/// The later state has one more error, at a place below that of the earlier one.
pub open spec fn reported_at(
    before: CheckState,
    after: CheckState,
    crumb: ErrorCrumb,
    kind: ErrorKind,
) -> bool {
    &&& after == (CheckState {
        checked: CheckedModule { errors: after.checked.errors, ..before.checked },
        crumbs: after.crumbs,
        ..before
    })
    &&& after.crumbs@ == before.crumbs@
    &&& after.checked.errors@.len() == before.checked.errors@.len() + 1
    &&& after.checked.errors@.drop_last() == before.checked.errors@
    &&& after.checked.errors@.last().kind == kind
    &&& after.checked.errors@.last().crumbs@ == before.crumbs@.push(crumb)
}

/// Reports an error at a place below the current one.
pub fn insert_error_at(state: &mut CheckState, crumb: ErrorCrumb, kind: ErrorKind)
    ensures
        reported_at(*old(state), *final(state), crumb, kind),
{
    let report = |inner: &mut CheckState|
        ensures
            reported(*old(inner), *final(inner), kind),
        {
            inner.insert_error(kind);
        };
    state.with_error_crumb(crumb, report);
    assert(old(state).crumbs@.push(crumb).drop_last() =~= old(state).crumbs@);
}

/// What is checked behind the steps of a block, and the types that the actions
/// are checked against.
#[derive(Debug)]
pub struct DoPlan {
    pub final_expression: Option<SourceExpressionId>,
    pub continuations: Vec<TypeId>,
}

/// How many of the steps are actions.
pub open spec fn action_count(steps: Seq<DoStep>) -> nat
    decreases steps.len(),
{
    if steps.len() == 0 {
        0
    } else {
        action_count(steps.drop_last()) + if steps.last().action() {
            1nat
        } else {
            0nat
        }
    }
}

/// How many types the actions of a block are checked against. A block that ends
/// in a `let` has one for the expression that is missing.
pub open spec fn continuation_count(steps: Seq<DoStep>) -> nat {
    action_count(steps) + if block_end(steps) is InvalidLet {
        1nat
    } else {
        0nat
    }
}

/// What the block yields.
pub open spec fn block_result(end: DoBlockFinalStep) -> Option<SourceExpressionId> {
    match end {
        DoBlockFinalStep::InvalidBind { expression, .. } => expression,
        DoBlockFinalStep::Discard { expression } => expression,
        _ => None,
    }
}

/// The state once the end of a block has been reported, where it is invalid.
pub open spec fn end_reported(before: CheckState, after: CheckState, end: DoBlockFinalStep) -> bool {
    match end {
        DoBlockFinalStep::InvalidBind { statement, .. } => reported_at(
            before,
            after,
            ErrorCrumb::InferringDoBind(statement),
            ErrorKind::InvalidFinalBind,
        ),
        DoBlockFinalStep::InvalidLet { statement } => reported_at(
            before,
            after,
            ErrorCrumb::CheckingDoLet(statement),
            ErrorKind::InvalidFinalLet,
        ),
        _ => after == before,
    }
}

pub fn count_actions(steps: &Vec<DoStep>) -> (count: usize)
    ensures
        count == action_count(steps@),
        count <= steps@.len(),
{
    let mut count: usize = 0;
    let mut index: usize = 0;
    assert(steps@.take(0) =~= Seq::empty());
    while index < steps.len()
        invariant
            index <= steps.len(),
            count == action_count(steps@.take(index as int)),
            count <= index,
        decreases steps.len() - index,
    {
        assert(steps@.take(index + 1).drop_last() =~= steps@.take(index as int));
        if steps[index].is_action() {
            count += 1;
        }
        index += 1;
    }
    assert(steps@.take(index as int) =~= steps@);
    count
}

/// The types are unification variables, one after the other.
pub open spec fn are_variables(store: TypeStore, ids: Seq<TypeId>, first: nat) -> bool {
    forall|i: int| 0 <= i < ids.len() ==> is_variable(store, #[trigger] ids[i], (first + i) as nat)
}

/// As many types that are still to be found as asked for.
pub fn fresh_variables(state: &mut CheckState, types: &mut Types, prim: &Prim, count: usize) -> (ids:
    Vec<TypeId>)
    requires
        old(state).unifications.wf(),
        !old(state).unifications.is_frozen(),
        old(state).unifications@.len() + count <= u32::MAX,
        old(types)@.wf(),
    ensures
        final(types)@.wf(),
        extends(old(types)@, final(types)@),
        final(types)@ == old(types)@.with_variables(
            old(state).unifications@.len(),
            count as nat,
        ),
        ids@.len() == count,
        are_variables(final(types)@, ids@, old(state).unifications@.len()),
        variables_added(*old(state), *final(state), Seq::new(count as nat, |i: int| prim.t)),
{
    let mut ids: Vec<TypeId> = Vec::new();
    let ghost entry = UnificationEntry {
        depth: old(state).depth,
        kind: prim.t,
        state: UnificationState::Unsolved,
    };
    let ghost first = old(state).unifications@.len();
    assert(old(state).unifications@ + Seq::new(0, |i: int| entry) =~= old(state).unifications@);
    while ids.len() < count
        invariant
            ids@.len() <= count,
            types@.wf(),
            extends(old(types)@, types@),
            first == old(state).unifications@.len(),
            first + count <= u32::MAX,
            are_variables(types@, ids@, first),
            types@ == old(types)@.with_variables(first, ids@.len()),
            entry == (UnificationEntry {
                depth: old(state).depth,
                kind: prim.t,
                state: UnificationState::Unsolved,
            }),
            *state == (CheckState { unifications: state.unifications, ..*old(state) }),
            state.unifications.wf(),
            !state.unifications.is_frozen(),
            state.unifications@ == old(state).unifications@ + Seq::new(
                ids@.len(),
                |i: int| entry,
            ),
        decreases count - ids.len(),
    {
        let ghost before = types@;
        let ghost known = ids@;
        let id = state.fresh_unification(types, prim.t);
        ids.push(id);
        proof {
            lemma_extends_transitive(old(types)@, before, types@);
            assert forall|i: int| 0 <= i < ids@.len() implies is_variable(
                types@,
                #[trigger] ids@[i],
                (first + i) as nat,
            ) by {
                if i < known.len() {
                    assert(is_variable(before, known[i], (first + i) as nat));
                }
            }
            assert(state.unifications@ =~= old(state).unifications@ + Seq::new(
                ids@.len(),
                |i: int| entry,
            ));
        }
    }
    let ghost kinds = Seq::new(count as nat, |i: int| prim.t);
    assert(Seq::new(ids@.len(), |i: int| entry) =~= Seq::new(
        kinds.len(),
        |i: int|
            UnificationEntry {
                depth: old(state).depth,
                kind: kinds[i],
                state: UnificationState::Unsolved,
            },
    ));
    ids
}

/// Begins the check of a block: reports what is wrong with its end and makes the
/// types that its actions are checked against. A block without a last expression
/// is an error as a whole, unless it ends in a `let`.
pub fn begin_do(state: &mut CheckState, types: &mut Types, prim: &Prim, steps: &Vec<DoStep>) -> (
plan: Result<DoPlan, ElaboratedExpression>)
    requires
        old(state).unifications.wf(),
        !old(state).unifications.is_frozen(),
        old(state).unifications@.len() + steps@.len() + 1 <= u32::MAX,
        old(state).checked.tree@.expressions.len() <= u32::MAX,
        old(types)@.wf(),
    ensures
        final(types)@.wf(),
        extends(old(types)@, final(types)@),
        final(types)@ == (if plan is Ok {
            old(types)@.with_variables(old(state).unifications@.len(), continuation_count(steps@))
        } else {
            old(types)@.with_unknown("empty do block"@).0
        }),
        plan is Ok <==> block_end(steps@) is InvalidLet || block_result(block_end(steps@)) is Some,
        match plan {
            Ok(plan) => {
                &&& plan.final_expression == block_result(block_end(steps@))
                &&& plan.continuations@.len() == continuation_count(steps@)
                &&& plan.continuations@.len() > 0
                &&& are_variables(
                    final(types)@,
                    plan.continuations@,
                    old(state).unifications@.len(),
                )
                &&& exists|middle: CheckState| #[trigger]
                    end_reported(*old(state), middle, block_end(steps@)) && variables_added(
                        middle,
                        *final(state),
                        Seq::new(plan.continuations@.len(), |i: int| prim.t),
                    )
            },
            Err(error) => {
                &&& final(types)@.is_unknown(error.type_id, "empty do block"@)
                &&& exists|first: CheckState, second: CheckState| #[trigger]
                    end_reported(*old(state), first, block_end(steps@))
                        && #[trigger] reported(
                        first,
                        second,
                        ErrorKind::EmptyDoBlock,
                    ) && error_allocated(second, *final(state), error)
            },
        },
{
    let final_step = do_final_step(steps);
    match final_step {
        DoBlockFinalStep::InvalidBind { statement, .. } => {
            // Technically valid, syntactically disallowed. This allows
            // partially-written do expressions to infer, with a friendly
            // warning to nudge the user that `bind` is prohibited.
            insert_error_at(
                state,
                ErrorCrumb::InferringDoBind(statement),
                ErrorKind::InvalidFinalBind,
            );
        },
        DoBlockFinalStep::InvalidLet { statement } => {
            insert_error_at(
                state,
                ErrorCrumb::CheckingDoLet(statement),
                ErrorKind::InvalidFinalLet,
            );
        },
        _ => {},
    }
    let ghost first = *state;
    assert(end_reported(*old(state), first, block_end(steps@)));
    let final_expression = match final_step {
        DoBlockFinalStep::InvalidBind { expression, .. } => expression,
        DoBlockFinalStep::Discard { expression } => expression,
        _ => None,
    };
    if final_expression.is_none() && !final_step.is_invalid_let() {
        state.insert_error(ErrorKind::EmptyDoBlock);
        let type_id = types.unknown("empty do block");
        return Err(allocate_error_expression(state, type_id));
    }
    let mut count: usize = count_actions(steps);
    if final_step.is_invalid_let() {
        count += 1;
    }
    let continuations = fresh_variables(state, types, prim, count);
    proof {
        if !(block_end(steps@) is InvalidLet) {
            assert(steps@.last().action());
        }
    }
    Ok(DoPlan { final_expression, continuations })
}

// Actions

/// An application of one of the block's functions to an action, which is still to
/// be applied to what follows.
#[derive(Debug)]
pub struct CheckedDoApplication {
    pub function: ElaboratedExpression,
    pub implicit: Vec<ImplicitApplication>,
    pub constraints: Vec<TypeId>,
    pub result: TypeId,
    pub lambda_type: TypeId,
    pub crumbs: Vec<ErrorCrumb>,
}

#[allow(inconsistent_fields)]
#[derive(Debug)]
pub enum CheckedDoStep {
    Application { application: CheckedDoApplication, binder: BinderId },
    MissingApplication { binder: BinderId, lambda_type: TypeId, result: TypeId },
    Let { bindings: LetBindings },
}

/// What has to be done for a step.
#[allow(inconsistent_fields)]
#[derive(Debug)]
pub enum DoRequest {
    /// The bindings of the statement have to be checked.
    CheckLet { crumb: ErrorCrumb },
    /// The expression has to be inferred, and `bind` applied to it.
    Bind {
        crumb: ErrorCrumb,
        expression: SourceExpressionId,
        binder: ElaboratedBinder,
        now: TypeId,
        next: TypeId,
    },
    /// The expression has to be inferred, and `discard` applied to it.
    Discard {
        crumb: ErrorCrumb,
        expression: SourceExpressionId,
        binder: ElaboratedBinder,
        now: TypeId,
        next: TypeId,
    },
    /// There is nothing to infer.
    Checked(CheckedDoStep),
    /// This is the last expression, which is checked on its own.
    Final,
}

/// The request for the step at a position. The action that `count` actions come
/// before turns what follows, of the next type, into its own type.
pub open spec fn requested(
    before: CheckState,
    after: CheckState,
    store: TypeStore,
    prim: Prim,
    step: DoStep,
    count: nat,
    continuations: Seq<TypeId>,
    request: DoRequest,
) -> bool {
    let now = continuations[count as int];
    let next = continuations[count as int + 1];
    match step {
        DoStep::Let { statement } => request == (DoRequest::CheckLet {
            crumb: ErrorCrumb::CheckingDoLet(statement),
        }) && after == before,
        _ if count + 1 >= continuations.len() => request is Final && after == before,
        DoStep::Bind { statement, binder_type, binder, expression: Some(expression) } => request
            == (DoRequest::Bind {
            crumb: ErrorCrumb::InferringDoBind(statement),
            expression,
            binder: ElaboratedBinder { type_id: binder_type, binder },
            now,
            next,
        }) && after == before,
        DoStep::Bind { binder_type, binder, expression: None, .. } => {
            &&& after == before
            &&& request matches DoRequest::Checked(
                CheckedDoStep::MissingApplication { binder: bound, lambda_type, result },
            )
            &&& bound == binder
            &&& result == now
            &&& store.denotes(lambda_type, Type::Function(binder_type, next))
        },
        DoStep::Discard { statement, expression: Some(expression) } => {
            &&& request matches DoRequest::Discard {
                crumb,
                expression: inferred,
                binder,
                now: own,
                next: following,
            }
            &&& crumb == ErrorCrumb::InferringDoDiscard(statement)
            &&& inferred == expression
            &&& own == now
            &&& following == next
            &&& binder_generated(
                before,
                after,
                store,
                prim,
                statement,
                BinderKind::Wildcard,
                binder,
            )
        },
        DoStep::Discard { statement, expression: None } => {
            &&& request matches DoRequest::Checked(
                CheckedDoStep::MissingApplication { binder, lambda_type, result },
            )
            &&& result == now
            &&& binder == before.checked.tree@.next_binder()
            &&& after == with_tree(before, after.checked.tree)
            &&& exists|unknown: TypeId| #[trigger]
                store.is_unknown(unknown, "missing do discard binder"@) && store.denotes(
                    lambda_type,
                    Type::Function(unknown, next),
                ) && after.checked.tree@ == before.checked.tree@.with_binder(
                    BinderSource::DoStatement(statement),
                    unknown,
                    BinderKind::Wildcard,
                )
        },
    }
}

/// The types that the request for a step adds.
pub open spec fn request_store(
    store: TypeStore,
    step: DoStep,
    count: nat,
    continuations: Seq<TypeId>,
    variables: nat,
) -> TypeStore {
    let next = continuations[count as int + 1];
    match step {
        _ if count + 1 >= continuations.len() => store,
        DoStep::Bind { binder_type, expression: None, .. } => store.with_type(
            Type::Function(binder_type, next),
        ),
        DoStep::Discard { expression: Some(_), .. } => store.with_variable(variables),
        DoStep::Discard { expression: None, .. } => {
            let (held, unknown) = store.with_unknown("missing do discard binder"@);
            held.with_type(Type::Function(unknown, next))
        },
        _ => store,
    }
}

/// What has to be done for a step. Once that is done for an action, the result of
/// its application has to be a subtype of its own type.
pub fn do_request(
    state: &mut CheckState,
    types: &mut Types,
    prim: &Prim,
    step: DoStep,
    count: usize,
    continuations: &Vec<TypeId>,
) -> (request: DoRequest)
    requires
        old(state).unifications.wf(),
        !old(state).unifications.is_frozen(),
        old(state).unifications@.len() < u32::MAX,
        old(state).checked.tree@.binders.len() <= u32::MAX,
        old(types)@.wf(),
    ensures
        final(types)@.wf(),
        extends(old(types)@, final(types)@),
        final(types)@ == request_store(
            old(types)@,
            step,
            count as nat,
            continuations@,
            old(state).unifications@.len(),
        ),
        requested(
            *old(state),
            *final(state),
            final(types)@,
            *prim,
            step,
            count as nat,
            continuations@,
            request,
        ),
{
    broadcast use group_extends;

    if let DoStep::Let { statement } = step {
        return DoRequest::CheckLet { crumb: ErrorCrumb::CheckingDoLet(statement) };
    }
    if count >= continuations.len() || continuations.len() - count < 2 {
        return DoRequest::Final;
    }
    let now = continuations[count];
    let next = continuations[count + 1];
    match step {
        DoStep::Bind { statement, binder_type, binder, expression } => match expression {
            Some(expression) => DoRequest::Bind {
                crumb: ErrorCrumb::InferringDoBind(statement),
                expression,
                binder: ElaboratedBinder { type_id: binder_type, binder },
                now,
                next,
            },
            None => {
                let lambda_type = types.intern_function(binder_type, next);
                DoRequest::Checked(
                    CheckedDoStep::MissingApplication { binder, lambda_type, result: now },
                )
            },
        },
        DoStep::Discard { statement, expression } => match expression {
            Some(expression) => {
                let binder = generate_binder(state, types, prim, statement, BinderKind::Wildcard);
                DoRequest::Discard {
                    crumb: ErrorCrumb::InferringDoDiscard(statement),
                    expression,
                    binder,
                    now,
                    next,
                }
            },
            None => {
                let binder_type = types.unknown("missing do discard binder");
                let ghost before = types@;
                let binder = state.allocate_generated_binder(
                    statement,
                    binder_type,
                    BinderKind::Wildcard,
                );
                let lambda_type = types.intern_function(binder_type, next);
                assert(types@.is_unknown(binder_type, "missing do discard binder"@)) by {
                    assert(before.is_unknown(binder_type, "missing do discard binder"@));
                    assert(extends(before, types@));
                }
                DoRequest::Checked(
                    CheckedDoStep::MissingApplication { binder, lambda_type, result: now },
                )
            },
        },
        DoStep::Let { statement } => DoRequest::CheckLet {
            crumb: ErrorCrumb::CheckingDoLet(statement),
        },
    }
}

/// The constraints of implicit applications, in order.
pub open spec fn evidence_constraints(implicit: Seq<ImplicitApplication>) -> Seq<TypeId>
    decreases implicit.len(),
{
    if implicit.len() == 0 {
        Seq::empty()
    } else {
        let before = evidence_constraints(implicit.drop_last());
        match implicit.last() {
            ImplicitApplication::Evidence { constraint, .. } => before.push(constraint),
            ImplicitApplication::Type { .. } => before,
        }
    }
}

/// Adds the constraints of implicit applications to a list.
pub fn extend_constraints(constraints: &mut Vec<TypeId>, implicit: &Vec<ImplicitApplication>)
    ensures
        final(constraints)@ == old(constraints)@ + evidence_constraints(implicit@),
{
    let mut index: usize = 0;
    assert(implicit@.take(0) =~= Seq::empty());
    assert(old(constraints)@ + Seq::<TypeId>::empty() =~= old(constraints)@);
    while index < implicit.len()
        invariant
            index <= implicit.len(),
            constraints@ == old(constraints)@ + evidence_constraints(implicit@.take(index as int)),
        decreases implicit.len() - index,
    {
        assert(implicit@.take(index + 1).drop_last() =~= implicit@.take(index as int));
        match implicit[index] {
            ImplicitApplication::Evidence { constraint, .. } => {
                constraints.push(constraint);
                assert(constraints@ =~= old(constraints)@ + evidence_constraints(
                    implicit@.take(index + 1),
                ));
            },
            ImplicitApplication::Type { .. } => {},
        }
        index += 1;
    }
    assert(implicit@.take(index as int) =~= implicit@);
}

/// The type of the function that binds an action's result in what follows.
pub fn do_lambda_type(types: &mut Types, binder_type: TypeId, continuation_type: TypeId) -> (id:
    TypeId)
    requires
        old(types)@.wf(),
    ensures
        final(types)@.wf(),
        extends(old(types)@, final(types)@),
        final(types)@ == old(types)@.with_type(Type::Function(binder_type, continuation_type)),
        final(types)@.denotes(id, Type::Function(binder_type, continuation_type)),
{
    types.intern_function(binder_type, continuation_type)
}

/// Applies a function of the block to an action, which has been made a subtype of
/// the function's argument.
pub fn apply_do_function(
    state: &mut CheckState,
    function: &DesugaredFunction,
    first: &UnanchoredApplication,
    expression: ElaboratedExpression,
) -> (applied: ElaboratedExpression)
    requires
        old(state).checked.tree@.expressions.len() + evidence_nodes(first.implicit@) + 2
            <= u32::MAX,
    ensures
        grown_by(*old(state), *final(state), evidence_nodes(first.implicit@) + 2),
        applied.type_id == first.result,
        stands(
            final(state).checked.tree@,
            old(state).checked.tree@.next_expression(),
            function.type_id,
            function_kind(function.resolution),
        ),
        applied_to(
            final(state).checked.tree@,
            old(state).checked.tree@.next_expression(),
            first.implicit@,
            expression.expression,
            applied.expression,
            first.result,
        ),
{
    let head = function.allocate_expression(state);
    let ghost middle = state.checked.tree@;
    let applied = materialize_application(state, head, &first.implicit, first.result, expression);
    proof {
        lemma_tree_extends_transitive(old(state).checked.tree@, middle, state.checked.tree@);
        lemma_stands_extends(
            middle,
            state.checked.tree@,
            head.expression,
            function.type_id,
            function_kind(function.resolution),
        );
    }
    applied
}

/// The application keeps the function that is applied to its action, and the
/// constraints of both applications.
pub open spec fn is_do_application(
    state: CheckState,
    function: ElaboratedExpression,
    first: UnanchoredApplication,
    second: UnanchoredApplication,
    lambda_type: TypeId,
    now: TypeId,
    application: CheckedDoApplication,
) -> bool {
    &&& application.function == function
    &&& application.implicit == second.implicit
    &&& application.constraints@ == evidence_constraints(first.implicit@) + evidence_constraints(
        second.implicit@,
    )
    &&& application.result == now
    &&& application.lambda_type == lambda_type
    &&& application.crumbs@ == state.crumbs@
}

/// The application of one of the block's functions to an action. What follows has
/// been made a subtype of the second argument.
pub fn infer_do_bind_core(
    state: &CheckState,
    function: ElaboratedExpression,
    first: UnanchoredApplication,
    second: UnanchoredApplication,
    lambda_type: TypeId,
    now: TypeId,
) -> (application: CheckedDoApplication)
    ensures
        is_do_application(*state, function, first, second, lambda_type, now, application),
{
    let mut constraints: Vec<TypeId> = Vec::new();
    extend_constraints(&mut constraints, &first.implicit);
    extend_constraints(&mut constraints, &second.implicit);
    assert(constraints@ =~= evidence_constraints(first.implicit@) + evidence_constraints(
        second.implicit@,
    ));
    let crumbs = copy_all(&state.crumbs);
    CheckedDoApplication {
        function,
        implicit: second.implicit,
        constraints,
        result: now,
        lambda_type,
        crumbs,
    }
}

/// The application is an error in place of one of what is no function. What it
/// would give is an unknown type.
pub open spec fn is_invalid_do(
    before: CheckState,
    after: CheckState,
    store: TypeStore,
    lambda_type: TypeId,
    now: TypeId,
    invalid: (CheckedDoApplication, TypeId),
) -> bool {
    let (application, unknown) = invalid;
    &&& error_allocated(before, after, application.function)
    &&& store.is_unknown(unknown, "invalid function application"@)
    &&& store.denotes(application.function.type_id, Type::Function(lambda_type, unknown))
    &&& application.implicit@.len() == 0
    &&& application.constraints@.len() == 0
    &&& application.result == now
    &&& application.lambda_type == lambda_type
    &&& application.crumbs@ == before.crumbs@
}

/// The types that the application of what is no function adds.
pub open spec fn invalid_do_store(store: TypeStore, lambda_type: TypeId) -> TypeStore {
    let (held, unknown) = store.with_unknown("invalid function application"@);
    held.with_type(Type::Function(lambda_type, unknown))
}

/// The application of what is no function, with the type of what it would give.
pub fn invalid_do_application(
    state: &mut CheckState,
    types: &mut Types,
    lambda_type: TypeId,
    now: TypeId,
) -> (invalid: (CheckedDoApplication, TypeId))
    requires
        old(state).checked.tree@.expressions.len() <= u32::MAX,
        old(types)@.wf(),
    ensures
        final(types)@.wf(),
        extends(old(types)@, final(types)@),
        final(types)@ == invalid_do_store(old(types)@, lambda_type),
        is_invalid_do(*old(state), *final(state), final(types)@, lambda_type, now, invalid),
{
    broadcast use group_extends;

    let result = types.unknown("invalid function application");
    let ghost before = types@;
    let function_type = types.intern_function(lambda_type, result);
    assert(types@.is_unknown(result, "invalid function application"@)) by {
        assert(before.is_unknown(result, "invalid function application"@));
        assert(extends(before, types@));
    }
    let function = allocate_error_expression(state, function_type);
    let crumbs = copy_all(&state.crumbs);
    let application = CheckedDoApplication {
        function,
        implicit: Vec::new(),
        constraints: Vec::new(),
        result: now,
        lambda_type,
        crumbs,
    };
    (application, result)
}

/// The last application among some steps.
pub open spec fn last_application(steps: Seq<CheckedDoStep>) -> Option<CheckedDoApplication>
    decreases steps.len(),
{
    if steps.len() == 0 {
        None
    } else {
        match steps.last() {
            CheckedDoStep::Application { application, .. } => Some(application),
            _ => last_application(steps.drop_last()),
        }
    }
}

/// The last application among some steps, whose constraints the block's last
/// expression takes part in.
pub fn final_application(steps: &Vec<CheckedDoStep>) -> (application: Option<&CheckedDoApplication>)
    ensures
        match application {
            Some(application) => last_application(steps@) == Some(*application),
            None => last_application(steps@) is None,
        },
{
    let mut index: usize = steps.len();
    assert(steps@.take(index as int) =~= steps@);
    while index > 0
        invariant
            index <= steps.len(),
            last_application(steps@) == last_application(steps@.take(index as int)),
        decreases index,
    {
        index -= 1;
        assert(steps@.take(index + 1).drop_last() =~= steps@.take(index as int));
        if let CheckedDoStep::Application { application, .. } = &steps[index] {
            return Some(application);
        }
    }
    None
}

/// A constraint and where it comes from.
#[derive(Debug)]
pub struct ContinuationOrigin {
    pub constraint: TypeId,
    pub crumbs: Vec<ErrorCrumb>,
}

/// The constraints that the block's last expression takes part in, each with the
/// way to that expression.
pub fn continuation_origins(steps: &Vec<CheckedDoStep>, final_expression: SourceExpressionId) -> (
origins: Vec<ContinuationOrigin>)
    ensures
        match last_application(steps@) {
            Some(application) => {
                &&& origins@.len() == application.constraints@.len()
                &&& forall|i: int|
                    0 <= i < origins@.len() ==> (#[trigger] origins@[i]).constraint
                        == application.constraints@[i] && origins@[i].crumbs@
                        == application.crumbs@.push(
                        ErrorCrumb::InferringExpression(final_expression),
                    )
            },
            None => origins@.len() == 0,
        },
{
    let mut origins: Vec<ContinuationOrigin> = Vec::new();
    if let Some(application) = final_application(steps) {
        let mut index: usize = 0;
        while index < application.constraints.len()
            invariant
                index <= application.constraints.len(),
                origins@.len() == index,
                forall|i: int|
                    0 <= i < origins@.len() ==> (#[trigger] origins@[i]).constraint
                        == application.constraints@[i] && origins@[i].crumbs@
                        == application.crumbs@.push(
                        ErrorCrumb::InferringExpression(final_expression),
                    ),
            decreases application.constraints.len() - index,
        {
            let mut crumbs = copy_all(&application.crumbs);
            crumbs.push(ErrorCrumb::InferringExpression(final_expression));
            origins.push(ContinuationOrigin { constraint: application.constraints[index], crumbs });
            index += 1;
        }
    }
    origins
}

// Assembly

/// How many expressions a step takes.
pub open spec fn step_size(step: CheckedDoStep) -> nat {
    match step {
        CheckedDoStep::Application { application, .. } => evidence_nodes(
            application.implicit@,
        ) + 2,
        CheckedDoStep::MissingApplication { .. } => 3,
        CheckedDoStep::Let { .. } => 1,
    }
}

/// How many expressions steps take.
pub open spec fn steps_size(steps: Seq<CheckedDoStep>) -> nat
    decreases steps.len(),
{
    if steps.len() == 0 {
        0
    } else {
        steps_size(steps.drop_last()) + step_size(steps.last())
    }
}

/// The type of what follows behind some steps, together with the steps.
pub open spec fn built_type(steps: Seq<CheckedDoStep>, inner: TypeId) -> TypeId
    decreases steps.len(),
{
    if steps.len() == 0 {
        inner
    } else {
        match steps[0] {
            CheckedDoStep::Application { application, .. } => application.result,
            CheckedDoStep::MissingApplication { result, .. } => result,
            CheckedDoStep::Let { .. } => built_type(steps.skip(1), inner),
        }
    }
}

/// The expression is a function of one binder over what follows.
pub open spec fn is_lambda(
    tree: Tree,
    id: ExpressionId,
    type_id: TypeId,
    binder: BinderId,
    body: ExpressionId,
) -> bool {
    &&& id.raw < tree.expressions.len()
    &&& tree.expressions[id.raw as int].type_id == type_id
    &&& tree.expressions[id.raw as int].kind matches ExpressionKind::Lambda {
        binders,
        expression,
    }
    &&& binders@ == seq![binder]
    &&& expression == body
}

/// The expression is a step around what follows.
pub open spec fn is_step(
    tree: Tree,
    store: TypeStore,
    step: CheckedDoStep,
    inner: ExpressionId,
    inner_type: TypeId,
    outer: ExpressionId,
) -> bool {
    match step {
        CheckedDoStep::Application { application, binder } => exists|lambda: ExpressionId|
            #[trigger] is_lambda(tree, lambda, application.lambda_type, binder, inner)
                && applied_to(
                tree,
                application.function.expression,
                application.implicit@,
                lambda,
                outer,
                application.result,
            ),
        CheckedDoStep::MissingApplication { binder, lambda_type, result } => exists|
            lambda: ExpressionId,
            function: ExpressionId,
            function_type: TypeId,
        |
            {
                &&& #[trigger] is_lambda(tree, lambda, lambda_type, binder, inner)
                &&& #[trigger] stands(tree, function, function_type, ExpressionKind::Error)
                &&& store.denotes(function_type, Type::Function(lambda_type, result))
                &&& applied_to(tree, function, Seq::empty(), lambda, outer, result)
            },
        CheckedDoStep::Let { bindings } => stands(
            tree,
            outer,
            inner_type,
            ExpressionKind::Let { bindings, expression: inner },
        ),
    }
}

/// The outer expression is the inner one within the steps, the first of them
/// outermost.
pub open spec fn is_built(
    tree: Tree,
    store: TypeStore,
    steps: Seq<CheckedDoStep>,
    inner: ElaboratedExpression,
    outer: ExpressionId,
) -> bool
    decreases steps.len(),
{
    if steps.len() == 0 {
        outer == inner.expression
    } else {
        exists|rest: ExpressionId|
            is_built(tree, store, steps.skip(1), inner, rest) && #[trigger] is_step(
                tree,
                store,
                steps[0],
                rest,
                built_type(steps.skip(1), inner.type_id),
                outer,
            )
    }
}

proof fn lemma_is_lambda_extends(
    before: Tree,
    after: Tree,
    id: ExpressionId,
    type_id: TypeId,
    binder: BinderId,
    body: ExpressionId,
)
    requires
        tree_extends(before, after),
        is_lambda(before, id, type_id, binder, body),
    ensures
        is_lambda(after, id, type_id, binder, body),
{
    assert(before.expressions[id.raw as int] == after.expressions[id.raw as int]);
}

proof fn lemma_is_step_extends(
    before: Tree,
    after: Tree,
    store: TypeStore,
    later: TypeStore,
    step: CheckedDoStep,
    inner: ExpressionId,
    inner_type: TypeId,
    outer: ExpressionId,
)
    requires
        tree_extends(before, after),
        extends(store, later),
        is_step(before, store, step, inner, inner_type, outer),
    ensures
        is_step(after, later, step, inner, inner_type, outer),
{
    match step {
        CheckedDoStep::Application { application, binder } => {
            let lambda = choose|lambda: ExpressionId|
                #[trigger] is_lambda(before, lambda, application.lambda_type, binder, inner)
                    && applied_to(
                    before,
                    application.function.expression,
                    application.implicit@,
                    lambda,
                    outer,
                    application.result,
                );
            lemma_is_lambda_extends(before, after, lambda, application.lambda_type, binder, inner);
            lemma_applied_to_extends(
                before,
                after,
                application.function.expression,
                application.implicit@,
                lambda,
                outer,
                application.result,
            );
        },
        CheckedDoStep::MissingApplication { binder, lambda_type, result } => {
            let (lambda, function, function_type) = choose|
                lambda: ExpressionId,
                function: ExpressionId,
                function_type: TypeId,
            |
                {
                    &&& #[trigger] is_lambda(before, lambda, lambda_type, binder, inner)
                    &&& #[trigger] stands(before, function, function_type, ExpressionKind::Error)
                    &&& store.denotes(function_type, Type::Function(lambda_type, result))
                    &&& applied_to(before, function, Seq::empty(), lambda, outer, result)
                };
            lemma_is_lambda_extends(before, after, lambda, lambda_type, binder, inner);
            lemma_applied_to_extends(
                before,
                after,
                function,
                Seq::empty(),
                lambda,
                outer,
                result,
            );
            assert(stands(after, function, function_type, ExpressionKind::Error));
            assert(later.denotes(function_type, Type::Function(lambda_type, result)));
        },
        CheckedDoStep::Let { .. } => {},
    }
}

proof fn lemma_is_built_extends(
    before: Tree,
    after: Tree,
    store: TypeStore,
    later: TypeStore,
    steps: Seq<CheckedDoStep>,
    inner: ElaboratedExpression,
    outer: ExpressionId,
)
    requires
        tree_extends(before, after),
        extends(store, later),
        is_built(before, store, steps, inner, outer),
    ensures
        is_built(after, later, steps, inner, outer),
    decreases steps.len(),
{
    if steps.len() > 0 {
        let inner_type = built_type(steps.skip(1), inner.type_id);
        let rest = choose|rest: ExpressionId|
            is_built(before, store, steps.skip(1), inner, rest) && #[trigger] is_step(
                before,
                store,
                steps[0],
                rest,
                inner_type,
                outer,
            );
        lemma_is_built_extends(before, after, store, later, steps.skip(1), inner, rest);
        lemma_is_step_extends(before, after, store, later, steps[0], rest, inner_type, outer);
    }
}

/// A function of one binder over what follows.
fn allocate_lambda(
    state: &mut CheckState,
    type_id: TypeId,
    binder: BinderId,
    body: ExpressionId,
) -> (lambda: ElaboratedExpression)
    requires
        old(state).checked.tree@.expressions.len() <= u32::MAX,
    ensures
        grown_by(*old(state), *final(state), 1),
        lambda.type_id == type_id,
        is_lambda(final(state).checked.tree@, lambda.expression, type_id, binder, body),
{
    let mut binders: Vec<BinderId> = Vec::new();
    binders.push(binder);
    assert(binders@ =~= seq![binder]);
    allocate_expression(state, type_id, ExpressionKind::Lambda { binders, expression: body })
}

/// The types that a step adds.
pub open spec fn step_store(store: TypeStore, step: CheckedDoStep) -> TypeStore {
    match step {
        CheckedDoStep::MissingApplication { lambda_type, result, .. } => store.with_type(
            Type::Function(lambda_type, result),
        ),
        _ => store,
    }
}

/// The types that steps add, the last of them first.
pub open spec fn steps_store(store: TypeStore, steps: Seq<CheckedDoStep>) -> TypeStore
    decreases steps.len(),
{
    if steps.len() == 0 {
        store
    } else {
        steps_store(step_store(store, steps.last()), steps.drop_last())
    }
}

/// Puts a step around what follows.
fn build_step(
    state: &mut CheckState,
    types: &mut Types,
    step: CheckedDoStep,
    inner: ElaboratedExpression,
) -> (outer: ElaboratedExpression)
    requires
        old(state).checked.tree@.expressions.len() + step_size(step) <= u32::MAX,
        old(types)@.wf(),
    ensures
        final(types)@.wf(),
        extends(old(types)@, final(types)@),
        final(types)@ == step_store(old(types)@, step),
        grown_by(*old(state), *final(state), step_size(step)),
        outer.type_id == (match step {
            CheckedDoStep::Application { application, .. } => application.result,
            CheckedDoStep::MissingApplication { result, .. } => result,
            CheckedDoStep::Let { .. } => inner.type_id,
        }),
        is_step(
            final(state).checked.tree@,
            final(types)@,
            step,
            inner.expression,
            inner.type_id,
            outer.expression,
        ),
{
    match step {
        CheckedDoStep::Application { application, binder } => {
            let lambda = allocate_lambda(
                state,
                application.lambda_type,
                binder,
                inner.expression,
            );
            let ghost first = state.checked.tree@;
            let outer = materialize_application(
                state,
                application.function,
                &application.implicit,
                application.result,
                lambda,
            );
            proof {
                lemma_tree_extends_transitive(old(state).checked.tree@, first, state.checked.tree@);
                lemma_is_lambda_extends(
                    first,
                    state.checked.tree@,
                    lambda.expression,
                    application.lambda_type,
                    binder,
                    inner.expression,
                );
            }
            outer
        },
        CheckedDoStep::MissingApplication { binder, lambda_type, result } => {
            let lambda = allocate_lambda(state, lambda_type, binder, inner.expression);
            let ghost first = state.checked.tree@;
            let function_type = types.intern_function(lambda_type, result);
            let function = allocate_error_expression(state, function_type);
            let ghost second = state.checked.tree@;
            let implicit: Vec<ImplicitApplication> = Vec::new();
            let outer = materialize_application(state, function, &implicit, result, lambda);
            proof {
                assert(implicit@ =~= Seq::empty());
                lemma_tree_extends_transitive(old(state).checked.tree@, first, second);
                lemma_tree_extends_transitive(
                    old(state).checked.tree@,
                    second,
                    state.checked.tree@,
                );
                lemma_tree_extends_transitive(first, second, state.checked.tree@);
                lemma_is_lambda_extends(
                    first,
                    state.checked.tree@,
                    lambda.expression,
                    lambda_type,
                    binder,
                    inner.expression,
                );
                assert(stands(
                    state.checked.tree@,
                    function.expression,
                    function_type,
                    ExpressionKind::Error,
                ));
            }
            outer
        },
        CheckedDoStep::Let { bindings } => {
            let kind = ExpressionKind::Let { bindings, expression: inner.expression };
            allocate_expression(state, inner.type_id, kind)
        },
    }
}

/// Puts the steps of a block around its last expression. The block has the type
/// that its first action was checked against. Where the last expression is
/// missing, an error of the type expected stands in its place.
pub fn finish_do(
    state: &mut CheckState,
    types: &mut Types,
    steps: Vec<CheckedDoStep>,
    continuations: &Vec<TypeId>,
    final_expression: Option<ElaboratedExpression>,
) -> (block: ElaboratedExpression)
    requires
        continuations@.len() > 0,
        old(state).checked.tree@.expressions.len() + steps_size(steps@) + 1 <= u32::MAX,
        old(types)@.wf(),
    ensures
        final(types)@.wf(),
        extends(old(types)@, final(types)@),
        final(types)@ == steps_store(old(types)@, steps@),
        grown_by(
            *old(state),
            *final(state),
            steps_size(steps@) + (if final_expression is None {
                1nat
            } else {
                0
            }),
        ),
        block.type_id == continuations@[0],
        match final_expression {
            Some(expression) => is_built(
                final(state).checked.tree@,
                final(types)@,
                steps@,
                ElaboratedExpression {
                    type_id: continuations@.last(),
                    expression: expression.expression,
                },
                block.expression,
            ),
            None => {
                let missing = old(state).checked.tree@.next_expression();
                &&& stands(
                    final(state).checked.tree@,
                    missing,
                    continuations@.last(),
                    ExpressionKind::Error,
                )
                &&& is_built(
                    final(state).checked.tree@,
                    final(types)@,
                    steps@,
                    ElaboratedExpression { type_id: continuations@.last(), expression: missing },
                    block.expression,
                )
            },
        },
{
    let mut steps = steps;
    let ghost all = steps@;
    let first_continuation = continuations[0];
    let final_continuation = continuations[continuations.len() - 1];
    let expression = match final_expression {
        Some(expression) => expression.expression,
        None => allocate_error_expression(state, final_continuation).expression,
    };
    let inner = ElaboratedExpression { type_id: final_continuation, expression };
    let mut continuation = inner;
    let ghost begun = state.checked.tree@;
    assert(all.skip(all.len() as int) =~= Seq::empty());
    loop
        invariant
            steps@ == all.take(steps@.len() as int),
            steps@.len() <= all.len(),
            types@.wf(),
            extends(old(types)@, types@),
            only_expressions_added(*old(state), *state),
            tree_extends(begun, state.checked.tree@),
            begun.expressions.len() + steps_size(all) <= u32::MAX,
            steps_store(types@, steps@) == steps_store(old(types)@, all),
            state.checked.tree@.expressions.len() + steps_size(steps@) == begun.expressions.len()
                + steps_size(all),
            is_built(
                state.checked.tree@,
                types@,
                all.skip(steps@.len() as int),
                inner,
                continuation.expression,
            ),
            continuation.type_id == built_type(all.skip(steps@.len() as int), inner.type_id),
        ensures
            steps@.len() == 0,
        decreases steps@.len(),
    {
        let Some(step) = steps.pop() else {
            break;
        };
        let ghost tree = state.checked.tree@;
        let ghost store = types@;
        let ghost rest = continuation.expression;
        let ghost taken = all.take(steps@.len() as int + 1);
        proof {
            assert(taken.drop_last() =~= steps@);
            assert(taken.last() == step);
            assert(all.skip(steps@.len() as int).skip(1) =~= all.skip(steps@.len() as int + 1));
            assert(all.skip(steps@.len() as int)[0] == step);
        }
        continuation = build_step(state, types, step, continuation);
        proof {
            lemma_tree_extends_transitive(begun, tree, state.checked.tree@);
            lemma_tree_extends_transitive(old(state).checked.tree@, tree, state.checked.tree@);
            lemma_extends_transitive(old(types)@, store, types@);
            lemma_is_built_extends(
                tree,
                state.checked.tree@,
                store,
                types@,
                all.skip(steps@.len() as int + 1),
                inner,
                rest,
            );
        }
    }
    assert(all.skip(0) =~= all);
    ElaboratedExpression { type_id: first_continuation, expression: continuation.expression }
}

// Laws

/// The number of actions before a step.
pub open spec fn actions_before(steps: Seq<DoStep>, index: int) -> nat {
    action_count(steps.take(index))
}

proof fn lemma_action_count_split(steps: Seq<DoStep>, index: int)
    requires
        0 <= index < steps.len(),
        steps[index].action(),
    ensures
        actions_before(steps, index) + 1 <= action_count(steps),
        index < steps.len() - 1 && steps.last().action() ==> actions_before(steps, index) + 2
            <= action_count(steps),
    decreases steps.len(),
{
    let rest = steps.drop_last();
    if index < rest.len() {
        lemma_action_count_split(rest, index);
        assert(rest.take(index) =~= steps.take(index));
    } else {
        assert(steps.take(index) =~= rest);
    }
}

/// Every action but a last one is checked against two types, its own and that of
/// what follows. So the functions that the actions need are those that are looked
/// up for the block.
pub proof fn lemma_actions_have_functions(steps: Seq<DoStep>, index: int)
    requires
        0 <= index < steps.len(),
        steps[index].action(),
    ensures
        index < steps.len() - 1 ==> actions_before(steps, index) + 1 < continuation_count(steps),
        index == steps.len() - 1 ==> actions_before(steps, index) + 1 == continuation_count(steps),
        steps[index] is Bind ==> needs_bind(steps),
        steps[index] is Discard && actions_before(steps, index) + 1 < continuation_count(steps)
            ==> needs_discard(steps),
{
    lemma_action_count_split(steps, index);
    if index == steps.len() - 1 {
        assert(steps.take(index) =~= steps.drop_last());
    }
}

} // verus!
