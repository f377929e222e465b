//! The layout of expressions.

use super::super::evidence::Evidence;
use super::super::lowering::{StringKind, TermVariableResolution};
use super::super::tree::{
    BinderId, BinderSource, CaseAlternative, DeclarationAbstraction, Equation, ExpressionId,
    ExpressionKind, GuardedAlternative, GuardedExpression, LetBindingChunk, LetBindings,
    LocalDeclarationId, PatternGuard, RecordExpressionField, RecordExpressionUpdate,
    VariableResolution, WhereExpression,
};
use super::super::types::{Type, TypeId};
use super::evidence::{Printed, Printing};
use super::layout::{
    breakable_continuation, join, joined, models, separator_doc, stacked, text, Doc, Layout,
    Separator,
};
use super::patterns::{answered, laid_text, Laid, Listed};
use super::printer::{
    character_literal, character_text, section_name, section_text, Printer, TypeRequest,
};
use crate::text::{decimal, push_decimal, signed, signed_text};
use vstd::prelude::*;

verus! {

/// How tightly an expression binds.
#[derive(Clone, Copy, Debug, PartialEq, Eq, Structural)]
pub enum ExpressionPrecedence {
    Abstraction,
    Application,
    RecordUpdate,
    Atom,
}

impl ExpressionPrecedence {
    /// Greater ranks bind more tightly.
    pub open spec fn rank(self) -> nat {
        match self {
            ExpressionPrecedence::Abstraction => 0,
            ExpressionPrecedence::Application => 1,
            ExpressionPrecedence::RecordUpdate => 2,
            ExpressionPrecedence::Atom => 3,
        }
    }

    fn number(self) -> (number: u8)
        ensures
            number == self.rank(),
    {
        match self {
            ExpressionPrecedence::Abstraction => 0,
            ExpressionPrecedence::Application => 1,
            ExpressionPrecedence::RecordUpdate => 2,
            ExpressionPrecedence::Atom => 3,
        }
    }
}

/// How tightly an expression binds.
pub open spec fn precedence_of(kind: ExpressionKind) -> ExpressionPrecedence {
    match kind {
        ExpressionKind::EvidenceAbstraction { .. } => ExpressionPrecedence::Abstraction,
        ExpressionKind::Lambda { .. } => ExpressionPrecedence::Abstraction,
        ExpressionKind::IfThenElse { .. } => ExpressionPrecedence::Abstraction,
        ExpressionKind::Case { .. } => ExpressionPrecedence::Abstraction,
        ExpressionKind::Let { .. } => ExpressionPrecedence::Abstraction,
        ExpressionKind::TermApplication { .. } => ExpressionPrecedence::Application,
        ExpressionKind::EvidenceApplication { .. } => ExpressionPrecedence::Application,
        ExpressionKind::RecordUpdate { .. } => ExpressionPrecedence::RecordUpdate,
        _ => ExpressionPrecedence::Atom,
    }
}

fn find_precedence(kind: &ExpressionKind) -> (precedence: ExpressionPrecedence)
    ensures
        precedence == precedence_of(*kind),
{
    match kind {
        ExpressionKind::EvidenceAbstraction { .. } => ExpressionPrecedence::Abstraction,
        ExpressionKind::Lambda { .. } => ExpressionPrecedence::Abstraction,
        ExpressionKind::IfThenElse { .. } => ExpressionPrecedence::Abstraction,
        ExpressionKind::Case { .. } => ExpressionPrecedence::Abstraction,
        ExpressionKind::Let { .. } => ExpressionPrecedence::Abstraction,
        ExpressionKind::TermApplication { .. } => ExpressionPrecedence::Application,
        ExpressionKind::EvidenceApplication { .. } => ExpressionPrecedence::Application,
        ExpressionKind::RecordUpdate { .. } => ExpressionPrecedence::RecordUpdate,
        _ => ExpressionPrecedence::Atom,
    }
}

/// A rigid type variable with the request that is answered by its name.
#[derive(Clone, Copy, Debug, PartialEq, Eq, Structural)]
pub struct RigidName {
    pub rigid: TypeId,
    pub display: usize,
}

/// A list of type variables with their names, and the state behind it.
pub struct RigidNames {
    pub state: Printed,
    pub names: Seq<RigidName>,
}

/// The guarded expression has one alternative without guards.
pub open spec fn is_unguarded(guarded: GuardedExpression) -> bool {
    guarded.alternatives@.len() == 1 && guarded.alternatives@[0].pattern_guards@.len() == 0
}

fn has_no_guards(guarded: &GuardedExpression) -> (unguarded: bool)
    ensures
        unguarded == is_unguarded(*guarded),
{
    guarded.alternatives.len() == 1 && guarded.alternatives[0].pattern_guards.len() == 0
}

/// Abstractions one after the other, broken where they do not fit.
pub open spec fn abstracted(documents: Seq<Doc>) -> Doc
    decreases documents.len(),
{
    if documents.len() <= 1 {
        documents[0]
    } else {
        abstracted(documents.drop_last()).append(Doc::Softline.append(documents.last()).nest(2))
    }
}

/// A body behind its head, on the next line where it has to be.
pub open spec fn with_body(head: Doc, body: Doc, forced: bool) -> Doc {
    if forced {
        head.append(body.below())
    } else {
        head.continued(body)
    }
}

/// A body behind an arrow, on the next line where it has to be.
pub open spec fn with_result(head: Doc, body: Doc, forced: bool) -> Doc {
    if forced {
        head.append(body.below())
    } else {
        head.then_text(" "@).append(body)
    }
}

/// The record with its fields accessed.
pub open spec fn accessed(record: Doc, labels: Seq<String>) -> Doc
    decreases labels.len(),
{
    if labels.len() == 0 {
        record
    } else {
        accessed(record, labels.drop_last()).then_text("."@ + labels.last()@)
    }
}

/// An equation. `forced` tells whether its body has to be on the next line.
pub open spec fn equation_doc(
    name: Seq<char>,
    abstractions: Seq<Doc>,
    body: Doc,
    forced: bool,
    lambda: bool,
) -> Doc {
    if abstractions.len() > 0 {
        Doc::Text(name + " = "@).append(
            abstracted(abstractions).append(
                if forced {
                    body.below()
                } else {
                    body.behind().group()
                },
            ),
        )
    } else if forced {
        Doc::Text(name + " ="@).append(body.below())
    } else if lambda {
        Doc::Text(name + " = "@).append(body).group()
    } else {
        Doc::Text(name + " ="@).append(body.behind()).group()
    }
}

// What is printed

impl<'a> Printer<'a> {
    /// The expression is one whose body begins on a line of its own.
    pub open spec fn breaks_body(self, id: ExpressionId) -> bool {
        match self.own.checked.tree@.expression_at(id) {
            Some(expression) => expression.kind is IfThenElse || expression.kind is Case,
            None => false,
        }
    }

    /// The expression can be the last argument without parentheses.
    pub open spec fn is_block(self, id: ExpressionId) -> bool {
        match self.own.checked.tree@.expression_at(id) {
            Some(expression) => precedence_of(expression.kind) is Abstraction,
            None => false,
        }
    }

    /// The expression is a function.
    pub open spec fn is_function(self, id: ExpressionId) -> bool {
        match self.own.checked.tree@.expression_at(id) {
            Some(expression) => expression.kind is Lambda,
            None => false,
        }
    }

    /// The expression is a record pun.
    pub open spec fn is_pun(self, id: ExpressionId) -> bool {
        match self.own.checked.tree@.expression_at(id) {
            Some(expression) => expression.kind is RecordPun,
            None => false,
        }
    }

    /// The name of a variable.
    pub open spec fn resolution_text(self, resolution: VariableResolution) -> Seq<char> {
        match resolution {
            VariableResolution::Generated(binder) => {
                match self.own.checked.tree@.binder_at(binder) {
                    Some(generated) => match generated.source {
                        BinderSource::Generated { name, .. } => self.interned_text(name),
                        _ => "<generated#"@ + decimal(binder.raw as nat) + ">"@,
                    },
                    None => "<generated#"@ + decimal(binder.raw as nat) + ">"@,
                }
            },
            VariableResolution::Source(source) => match source {
                TermVariableResolution::Binder(binder) => self.source_binder_text(binder),
                TermVariableResolution::Reference(file, term) => match self.term_text(file, term) {
                    Some(name) => name,
                    None => "?"@,
                },
                TermVariableResolution::Let(binding) => self.local_text(binding),
                TermVariableResolution::RecordPun(pun) => self.pun_text(pun),
            },
        }
    }

    /// The name of the variable of a section.
    pub open spec fn section_binder_text(self, binder: BinderId) -> Seq<char> {
        match self.own.checked.tree@.binder_at(binder) {
            Some(binder) => match binder.source {
                BinderSource::Section(source) => section_text(source),
                _ => "<error>"@,
            },
            None => "<error>"@,
        }
    }

    /// An expression where one of the precedence is required: in parentheses, where
    /// it binds less tightly. `depth` bounds how deep expressions are looked into.
    pub open spec fn expression_laid(
        self,
        state: Printed,
        id: ExpressionId,
        required: ExpressionPrecedence,
        scope: usize,
        depth: nat,
    ) -> Laid
        decreases depth, 1nat, self, 0nat,
    {
        match self.own.checked.tree@.expression_at(id) {
            Some(expression) => {
                let laid = self.kind_laid(
                    state,
                    expression.kind,
                    !(required is Application),
                    scope,
                    depth,
                );
                if precedence_of(expression.kind).rank() < required.rank() {
                    Laid { doc: laid.doc.parenthesized(), ..laid }
                } else {
                    laid
                }
            },
            None => laid_text(state, "<error>"@),
        }
    }

    /// An expression where any is allowed.
    pub open spec fn plain_laid(self, state: Printed, id: ExpressionId, scope: usize, depth: nat) -> Laid
        decreases depth, 2nat, self, 0nat,
    {
        self.expression_laid(state, id, ExpressionPrecedence::Abstraction, scope, depth)
    }

    /// An expression without parentheses around it.
    pub open spec fn kind_laid(
        self,
        state: Printed,
        kind: ExpressionKind,
        allow_block: bool,
        scope: usize,
        depth: nat,
    ) -> Laid
        decreases depth, 0nat, self, 0nat,
    {
        if depth == 0 {
            laid_text(state, "<error>"@)
        } else {
            let inner = (depth - 1) as nat;
            match kind {
                ExpressionKind::Error => laid_text(state, "<error>"@),
                ExpressionKind::String { kind, value } => laid_text(
                    state,
                    match (kind, value.raw) {
                        (StringKind::RawString, Some(raw)) => "\"\"\""@ + raw@ + "\"\"\""@,
                        _ => value.normal@,
                    },
                ),
                ExpressionKind::Char { value } => laid_text(state, character_text(value)),
                ExpressionKind::Boolean { value } => laid_text(
                    state,
                    if value {
                        "true"@
                    } else {
                        "false"@
                    },
                ),
                ExpressionKind::Integer { value } => laid_text(state, signed(value as int)),
                ExpressionKind::Number { value } => laid_text(state, value@),
                ExpressionKind::Array { elements } => {
                    let listed = self.expressions_listed(
                        state,
                        elements@,
                        elements@.len(),
                        scope,
                        inner,
                    );
                    Laid {
                        state: listed.state,
                        doc: Doc::Text("["@).append(
                            joined(listed.docs, Doc::Text(", "@)),
                        ).then_text("]"@),
                    }
                },
                ExpressionKind::Record { fields } => if fields@.len() == 0 {
                    laid_text(state, "{ }"@)
                } else {
                    let listed = self.fields_listed(
                        state,
                        fields@,
                        fields@.len(),
                        scope,
                        inner,
                    );
                    Laid {
                        state: listed.state,
                        doc: Doc::Text("{ "@).append(
                            joined(listed.docs, Doc::Text(", "@)),
                        ).then_text(" }"@),
                    }
                },
                ExpressionKind::RecordAccess { record, labels } => {
                    let laid = self.expression_laid(
                        state,
                        record,
                        ExpressionPrecedence::Atom,
                        scope,
                        inner,
                    );
                    Laid { doc: accessed(laid.doc, labels@), ..laid }
                },
                ExpressionKind::RecordUpdate { record, updates } => {
                    let laid = self.expression_laid(
                        state,
                        record,
                        ExpressionPrecedence::Atom,
                        scope,
                        inner,
                    );
                    let updated = self.updates_laid(laid.state, updates, scope, inner);
                    Laid {
                        state: updated.state,
                        doc: laid.doc.then_text(" "@).append(updated.doc),
                    }
                },
                ExpressionKind::Constructor { resolution } => laid_text(
                    state,
                    match self.term_text(resolution.0, resolution.1) {
                        Some(name) => name,
                        None => "?"@,
                    },
                ),
                ExpressionKind::Variable { resolution } => laid_text(
                    state,
                    self.resolution_text(resolution),
                ),
                ExpressionKind::RecordPun { resolution, .. } => laid_text(
                    state,
                    self.resolution_text(resolution),
                ),
                ExpressionKind::Section { binder } => laid_text(
                    state,
                    self.section_binder_text(binder),
                ),
                ExpressionKind::TermApplication { function, argument } => {
                    let block = allow_block && self.is_block(argument);
                    let applied = self.expression_laid(
                        state,
                        function,
                        ExpressionPrecedence::Application,
                        scope,
                        inner,
                    );
                    let last = self.expression_laid(
                        applied.state,
                        argument,
                        if block {
                            ExpressionPrecedence::Abstraction
                        } else {
                            ExpressionPrecedence::RecordUpdate
                        },
                        scope,
                        inner,
                    );
                    Laid {
                        state: last.state,
                        doc: if block {
                            applied.doc.then_text(" "@).append(last.doc)
                        } else {
                            applied.doc.continued(last.doc)
                        },
                    }
                },
                ExpressionKind::EvidenceApplication { function, evidence, .. } => {
                    let applied = self.expression_laid(
                        state,
                        function,
                        ExpressionPrecedence::Application,
                        scope,
                        inner,
                    );
                    let named = self.evidence_named(applied.state, Evidence::Variable(evidence));
                    Laid {
                        state: named.state,
                        doc: applied.doc.then_text(" {"@ + named.text + "}"@),
                    }
                },
                ExpressionKind::EvidenceAbstraction { binder, expression } => {
                    let named = self.binder_named(state, binder);
                    let body = self.plain_laid(named.state, expression, scope, inner);
                    Laid {
                        state: body.state,
                        doc: with_body(
                            Doc::Text("\\{"@ + named.text + "} ->"@),
                            body.doc,
                            self.breaks_body(expression),
                        ),
                    }
                },
                ExpressionKind::Lambda { binders, expression } => {
                    let listed = self.patterns_laid(state, binders@, scope);
                    let body = self.plain_laid(listed.state, expression, scope, inner);
                    let head = Doc::Text("\\"@).append(
                        if binders@.len() == 0 {
                            Doc::Text("<error>"@)
                        } else {
                            joined(listed.docs, Doc::Text(" "@))
                        },
                    ).then_text(" ->"@);
                    Laid {
                        state: body.state,
                        doc: with_body(head, body.doc, self.breaks_body(expression)),
                    }
                },
                ExpressionKind::IfThenElse { condition, then, else_ } => {
                    let first = self.plain_laid(state, condition, scope, inner);
                    let second = self.plain_laid(first.state, then, scope, inner);
                    let third = self.plain_laid(second.state, else_, scope, inner);
                    Laid {
                        state: third.state,
                        doc: Doc::Text("if "@).append(first.doc).then_text(" then"@).append(
                            second.doc.behind(),
                        ).append(Doc::Line).then_text("else"@).append(third.doc.behind()).group(),
                    }
                },
                ExpressionKind::Case { scrutinees, alternatives } => {
                    let first = self.expressions_listed(
                        state,
                        scrutinees@,
                        scrutinees@.len(),
                        scope,
                        inner,
                    );
                    let second = self.cases_listed(
                        first.state,
                        alternatives@,
                        alternatives@.len(),
                        scope,
                        inner,
                    );
                    Laid {
                        state: second.state,
                        doc: Doc::Text("case "@).append(
                            or_error(first.docs, Doc::Text(", "@)).group(),
                        ).then_text(" of"@).append(or_error(second.docs, Doc::Hardline).below()),
                    }
                },
                ExpressionKind::Let { bindings, expression } => {
                    let bound = self.bindings_laid(state, bindings, scope, inner);
                    let body = self.plain_laid(bound.state, expression, scope, inner);
                    Laid {
                        state: body.state,
                        doc: Doc::Text("let"@).append(bound.doc.below()).append(
                            Doc::Hardline,
                        ).then_text("in"@).append(body.doc.below()),
                    }
                },
            }
        }
    }

    /// The first expressions of a list.
    pub open spec fn expressions_listed(
        self,
        state: Printed,
        ids: Seq<ExpressionId>,
        count: nat,
        scope: usize,
        depth: nat,
    ) -> Listed
        decreases depth, 3nat, self, count,
    {
        if count == 0 || count > ids.len() {
            Listed { state, docs: Seq::empty() }
        } else {
            let before = self.expressions_listed(state, ids, (count - 1) as nat, scope, depth);
            let laid = self.plain_laid(before.state, ids[count - 1], scope, depth);
            Listed { state: laid.state, docs: before.docs.push(laid.doc) }
        }
    }

    /// The first fields of a record. A pun is shown as its label alone, where it is
    /// still one.
    pub open spec fn fields_listed(
        self,
        state: Printed,
        fields: Seq<RecordExpressionField>,
        count: nat,
        scope: usize,
        depth: nat,
    ) -> Listed
        decreases depth, 3nat, self, count,
    {
        if count == 0 || count > fields.len() {
            Listed { state, docs: Seq::empty() }
        } else {
            let before = self.fields_listed(state, fields, (count - 1) as nat, scope, depth);
            let (label, expression, shorthand) = match fields[count - 1] {
                RecordExpressionField::Field { label, expression } => (label, expression, false),
                RecordExpressionField::Pun { label, expression, .. } => (
                    label,
                    expression,
                    self.is_pun(expression),
                ),
            };
            if shorthand {
                Listed { docs: before.docs.push(Doc::Text(label@)), ..before }
            } else {
                let laid = self.plain_laid(before.state, expression, scope, depth);
                Listed {
                    state: laid.state,
                    docs: before.docs.push(Doc::Text(label@ + ": "@).append(laid.doc)),
                }
            }
        }
    }

    /// Updates of a record.
    pub open spec fn updates_laid(
        self,
        state: Printed,
        updates: Vec<RecordExpressionUpdate>,
        scope: usize,
        depth: nat,
    ) -> Laid
        decreases depth, 4nat, updates, updates@.len() + 1,
    {
        if updates@.len() == 0 {
            laid_text(state, "{ }"@)
        } else {
            let listed = self.updates_listed(state, updates, updates@.len(), scope, depth);
            Laid {
                state: listed.state,
                doc: Doc::Text("{ "@).append(joined(listed.docs, Doc::Text(", "@))).then_text(
                    " }"@,
                ),
            }
        }
    }

    /// The first updates of a record.
    pub open spec fn updates_listed(
        self,
        state: Printed,
        updates: Vec<RecordExpressionUpdate>,
        count: nat,
        scope: usize,
        depth: nat,
    ) -> Listed
        decreases depth, 4nat, updates, count,
    {
        if count == 0 || count > updates@.len() {
            Listed { state, docs: Seq::empty() }
        } else {
            let before = self.updates_listed(state, updates, (count - 1) as nat, scope, depth);
            match updates@[count - 1] {
                RecordExpressionUpdate::Error => Listed {
                    docs: before.docs.push(Doc::Text("<error>"@)),
                    ..before
                },
                RecordExpressionUpdate::Leaf { label, expression } => {
                    let laid = self.plain_laid(before.state, expression, scope, depth);
                    Listed {
                        state: laid.state,
                        docs: before.docs.push(Doc::Text(label@ + " = "@).append(laid.doc)),
                    }
                },
                RecordExpressionUpdate::Branch { label, updates: nested } => {
                    let laid = self.updates_laid(before.state, nested, scope, depth);
                    Listed {
                        state: laid.state,
                        docs: before.docs.push(Doc::Text(label@ + " "@).append(laid.doc)),
                    }
                },
            }
        }
    }

    /// Bindings, one below the other.
    pub open spec fn bindings_laid(
        self,
        state: Printed,
        bindings: LetBindings,
        scope: usize,
        depth: nat,
    ) -> Laid
        decreases depth, 6nat, bindings, 0nat,
    {
        let listed = self.chunks_listed(
            state,
            bindings.chunks,
            bindings.chunks@.len(),
            scope,
            depth,
        );
        Laid {
            state: listed.state,
            doc: if listed.docs.len() == 0 {
                Doc::Text("<error-binding>"@)
            } else {
                stacked(listed.docs)
            },
        }
    }

    /// The first bindings.
    pub open spec fn chunks_listed(
        self,
        state: Printed,
        chunks: Vec<LetBindingChunk>,
        count: nat,
        scope: usize,
        depth: nat,
    ) -> Listed
        decreases depth, 6nat, chunks, count,
    {
        if count == 0 || count > chunks@.len() {
            Listed { state, docs: Seq::empty() }
        } else {
            let before = self.chunks_listed(state, chunks, (count - 1) as nat, scope, depth);
            match chunks@[count - 1] {
                LetBindingChunk::Pattern { binder, where_expression, .. } => {
                    let pattern = self.pattern_laid(before.state, binder, scope);
                    let body = self.where_laid(pattern.state, where_expression, scope, depth);
                    Listed {
                        state: body.state,
                        docs: before.docs.push(
                            pattern.doc.then_text(" ="@).append(body.doc.behind()).group(),
                        ),
                    }
                },
                LetBindingChunk::PatternError { where_expression, .. } => match where_expression {
                    Some(where_expression) => {
                        let body = self.where_laid(before.state, where_expression, scope, depth);
                        Listed {
                            state: body.state,
                            docs: before.docs.push(
                                Doc::Text("<error> ="@).append(body.doc.behind()).group(),
                            ),
                        }
                    },
                    None => Listed {
                        docs: before.docs.push(Doc::Text("<error-binding>"@)),
                        ..before
                    },
                },
                LetBindingChunk::Names { declarations, .. } => {
                    let listed = self.locals_listed(
                        before.state,
                        declarations@,
                        declarations@.len(),
                        scope,
                        depth,
                    );
                    Listed { state: listed.state, docs: before.docs + listed.docs }
                },
            }
        }
    }

    /// The first local declarations.
    pub open spec fn locals_listed(
        self,
        state: Printed,
        ids: Seq<LocalDeclarationId>,
        count: nat,
        scope: usize,
        depth: nat,
    ) -> Listed
        decreases depth, 5nat, self, count,
    {
        if count == 0 || count > ids.len() {
            Listed { state, docs: Seq::empty() }
        } else {
            let before = self.locals_listed(state, ids, (count - 1) as nat, scope, depth);
            let laid = self.local_laid(before.state, ids[count - 1], scope, depth);
            Listed { state: laid.state, docs: before.docs.push(laid.doc) }
        }
    }

    /// A local declaration: its signature and its equations. Its type variables have
    /// names of their own.
    pub open spec fn local_laid(
        self,
        state: Printed,
        id: LocalDeclarationId,
        scope: usize,
        depth: nat,
    ) -> Laid
        decreases depth, 4nat, self, 0nat,
    {
        match self.own.checked.tree@.local_at(id) {
            Some(declaration) if depth > 0 => {
                let name = self.local_text(declaration.source);
                let abstractions = declaration.value.abstractions@;
                let forked = state.asked(TypeRequest::Fork { scope });
                let own = state.requests.len() as usize;
                let signed_state = forked.asked(
                    TypeRequest::Render { scope: own, type_id: declaration.type_id },
                );
                let rigids = self.rigids_named(
                    signed_state,
                    own,
                    abstractions,
                    abstractions.len(),
                );
                let assigned = self.rigids_assigned(
                    rigids.state,
                    own,
                    rigids.names,
                    rigids.names.len(),
                );
                let begun = self.evidence_begun(assigned, abstractions, abstractions.len());
                let equations = self.equations_listed(
                    begun,
                    name,
                    false,
                    abstractions,
                    declaration.value.equations@,
                    declaration.value.equations@.len(),
                    own,
                    (depth - 1) as nat,
                );
                Laid {
                    state: equations.state,
                    doc: Doc::Text(name + " :: "@).append(answered(forked)).append(
                        Doc::Hardline,
                    ).append(
                        if equations.docs.len() == 0 {
                            Doc::Text(name + " = <error>"@)
                        } else {
                            stacked(equations.docs)
                        },
                    ),
                }
            },
            _ => laid_text(state, "<error>"@),
        }
    }

    /// The names of the type variables among the first abstractions.
    pub open spec fn rigids_named(
        self,
        state: Printed,
        scope: usize,
        abstractions: Seq<DeclarationAbstraction>,
        count: nat,
    ) -> RigidNames
        decreases count,
    {
        if count == 0 || count > abstractions.len() {
            RigidNames { state, names: Seq::empty() }
        } else {
            let before = self.rigids_named(state, scope, abstractions, (count - 1) as nat);
            match abstractions[count - 1] {
                DeclarationAbstraction::Type { binder, rigid } if binder.raw
                    < self.types@.binders.len() => RigidNames {
                    state: before.state.asked(
                        TypeRequest::DisplayName {
                            scope,
                            name: self.types@.binders[binder.raw as int].name,
                        },
                    ),
                    names: before.names.push(
                        RigidName { rigid, display: before.state.requests.len() as usize },
                    ),
                },
                _ => before,
            }
        }
    }

    /// The first type variables get their names in a scope.
    pub open spec fn rigids_assigned(
        self,
        state: Printed,
        scope: usize,
        names: Seq<RigidName>,
        count: nat,
    ) -> Printed
        decreases count,
    {
        if count == 0 || count > names.len() {
            state
        } else {
            let before = self.rigids_assigned(state, scope, names, (count - 1) as nat);
            let name = names[count - 1];
            match self.type_of(name.rigid) {
                Some(Type::Rigid(..)) => before.asked(
                    TypeRequest::Assign { scope, rigid: name.rigid, display: name.display },
                ),
                _ => before,
            }
        }
    }

    /// The evidence of the first abstractions has names.
    pub open spec fn evidence_begun(
        self,
        state: Printed,
        abstractions: Seq<DeclarationAbstraction>,
        count: nat,
    ) -> Printed
        decreases count,
    {
        if count == 0 || count > abstractions.len() {
            state
        } else {
            let before = self.evidence_begun(state, abstractions, (count - 1) as nat);
            match abstractions[count - 1] {
                DeclarationAbstraction::Evidence { binder, .. } => self.binder_named(
                    before,
                    binder,
                ).state,
                _ => before,
            }
        }
    }

    /// The abstractions over evidence among the first ones.
    pub open spec fn evidence_listed(
        self,
        state: Printed,
        abstractions: Seq<DeclarationAbstraction>,
        count: nat,
    ) -> Listed
        decreases count,
    {
        if count == 0 || count > abstractions.len() {
            Listed { state, docs: Seq::empty() }
        } else {
            let before = self.evidence_listed(state, abstractions, (count - 1) as nat);
            match abstractions[count - 1] {
                DeclarationAbstraction::Evidence { binder, .. } => {
                    let named = self.binder_named(before.state, binder);
                    Listed {
                        state: named.state,
                        docs: before.docs.push(Doc::Text("\\{"@ + named.text + "} ->"@)),
                    }
                },
                _ => before,
            }
        }
    }

    /// The first equations of a declaration.
    pub open spec fn equations_listed(
        self,
        state: Printed,
        name: Seq<char>,
        indented: bool,
        abstractions: Seq<DeclarationAbstraction>,
        equations: Seq<Equation>,
        count: nat,
        scope: usize,
        depth: nat,
    ) -> Listed
        decreases depth, 9nat, self, count,
    {
        if count == 0 || count > equations.len() {
            Listed { state, docs: Seq::empty() }
        } else {
            let before = self.equations_listed(
                state,
                name,
                indented,
                abstractions,
                equations,
                (count - 1) as nat,
                scope,
                depth,
            );
            let laid = self.equation_laid(
                before.state,
                name,
                indented,
                abstractions,
                equations[count - 1],
                scope,
                depth,
            );
            Listed { state: laid.state, docs: before.docs.push(laid.doc) }
        }
    }

    /// An equation: a function of the declaration's evidence and of its own patterns.
    pub open spec fn equation_laid(
        self,
        state: Printed,
        name: Seq<char>,
        indented: bool,
        abstractions: Seq<DeclarationAbstraction>,
        equation: Equation,
        scope: usize,
        depth: nat,
    ) -> Laid
        decreases depth, 8nat, self, 0nat,
    {
        let guarded = equation.guarded_expression;
        let unguarded = is_unguarded(guarded);
        let alone = guarded.alternatives@[0].where_expression;
        let body = if unguarded {
            self.plain_laid(state, alone.expression, scope, depth)
        } else {
            self.guarded_laid(state, guarded, scope, depth)
        };
        let evidence = self.evidence_listed(body.state, abstractions, abstractions.len());
        let patterns = self.patterns_laid(evidence.state, equation.binders@, scope);
        let document = equation_doc(
            name,
            evidence.docs + lambda_docs(patterns.docs),
            body.doc,
            unguarded && self.breaks_body(alone.expression),
            unguarded && self.is_function(alone.expression),
        );
        let laid = if unguarded && alone.bindings.chunks@.len() > 0 {
            let bindings = self.bindings_laid(patterns.state, alone.bindings, scope, depth);
            Laid {
                state: bindings.state,
                doc: document.append(where_doc(bindings.doc).below()),
            }
        } else {
            Laid { state: patterns.state, doc: document }
        };
        if indented {
            Laid { doc: Doc::Text("  "@).append(laid.doc.nest(2)), ..laid }
        } else {
            laid
        }
    }

    /// An expression with what is bound around it.
    pub open spec fn where_laid(
        self,
        state: Printed,
        where_expression: WhereExpression,
        scope: usize,
        depth: nat,
    ) -> Laid
        decreases depth, 6nat, where_expression, 1nat,
    {
        let body = self.plain_laid(state, where_expression.expression, scope, depth);
        if where_expression.bindings.chunks@.len() == 0 {
            body
        } else {
            let bindings = self.bindings_laid(
                body.state,
                where_expression.bindings,
                scope,
                depth,
            );
            Laid {
                state: bindings.state,
                doc: body.doc.append(where_doc(bindings.doc).below()),
            }
        }
    }

    /// An expression under conditions.
    pub open spec fn guarded_laid(
        self,
        state: Printed,
        guarded: GuardedExpression,
        scope: usize,
        depth: nat,
    ) -> Laid
        decreases depth, 7nat, self, guarded.alternatives@.len() + 1,
    {
        if is_unguarded(guarded) {
            self.where_laid(state, guarded.alternatives@[0].where_expression, scope, depth)
        } else {
            let listed = self.alternatives_listed(
                state,
                guarded.alternatives@,
                guarded.alternatives@.len(),
                scope,
                depth,
            );
            Laid { state: listed.state, doc: or_error(listed.docs, Doc::Hardline) }
        }
    }

    /// The first alternatives of a guarded expression.
    pub open spec fn alternatives_listed(
        self,
        state: Printed,
        alternatives: Seq<GuardedAlternative>,
        count: nat,
        scope: usize,
        depth: nat,
    ) -> Listed
        decreases depth, 7nat, self, count,
    {
        if count == 0 || count > alternatives.len() {
            Listed { state, docs: Seq::empty() }
        } else {
            let before = self.alternatives_listed(
                state,
                alternatives,
                (count - 1) as nat,
                scope,
                depth,
            );
            let alternative = alternatives[count - 1];
            let guards = self.guards_listed(
                before.state,
                alternative.pattern_guards@,
                alternative.pattern_guards@.len(),
                scope,
                depth,
            );
            let body = self.where_laid(
                guards.state,
                alternative.where_expression,
                scope,
                depth,
            );
            let head = if guards.docs.len() == 0 {
                Doc::Text("| ->"@)
            } else {
                Doc::Text("| "@).append(joined(guards.docs, Doc::Text(", "@))).then_text(" ->"@)
            };
            Listed {
                state: body.state,
                docs: before.docs.push(
                    with_result(
                        head,
                        body.doc,
                        self.breaks_body(alternative.where_expression.expression),
                    ),
                ),
            }
        }
    }

    /// The first guards.
    pub open spec fn guards_listed(
        self,
        state: Printed,
        guards: Seq<PatternGuard>,
        count: nat,
        scope: usize,
        depth: nat,
    ) -> Listed
        decreases depth, 3nat, self, count,
    {
        if count == 0 || count > guards.len() {
            Listed { state, docs: Seq::empty() }
        } else {
            let before = self.guards_listed(state, guards, (count - 1) as nat, scope, depth);
            match guards[count - 1] {
                PatternGuard::Boolean { expression } => {
                    let laid = self.plain_laid(before.state, expression, scope, depth);
                    Listed { state: laid.state, docs: before.docs.push(laid.doc) }
                },
                PatternGuard::Pattern { binder, expression } => {
                    let pattern = self.pattern_laid(before.state, binder, scope);
                    let laid = self.plain_laid(pattern.state, expression, scope, depth);
                    Listed {
                        state: laid.state,
                        docs: before.docs.push(pattern.doc.then_text(" <- "@).append(laid.doc)),
                    }
                },
            }
        }
    }

    /// The first alternatives of a case expression.
    pub open spec fn cases_listed(
        self,
        state: Printed,
        alternatives: Seq<CaseAlternative>,
        count: nat,
        scope: usize,
        depth: nat,
    ) -> Listed
        decreases depth, 8nat, self, count,
    {
        if count == 0 || count > alternatives.len() {
            Listed { state, docs: Seq::empty() }
        } else {
            let before = self.cases_listed(state, alternatives, (count - 1) as nat, scope, depth);
            let alternative = alternatives[count - 1];
            let guarded = alternative.guarded_expression;
            let patterns = self.patterns_laid(before.state, alternative.binders@, scope);
            let head = or_error(patterns.docs, Doc::Text(", "@)).group();
            if is_unguarded(guarded) {
                let alone = guarded.alternatives@[0].where_expression;
                let body = self.where_laid(patterns.state, alone, scope, depth);
                Listed {
                    state: body.state,
                    docs: before.docs.push(
                        with_result(
                            head.then_text(" ->"@),
                            body.doc,
                            self.breaks_body(alone.expression),
                        ),
                    ),
                }
            } else {
                let body = self.guarded_laid(patterns.state, guarded, scope, depth);
                Listed {
                    state: body.state,
                    docs: before.docs.push(head.append(body.doc.below())),
                }
            }
        }
    }
}

/// Documents with a separator in between, or an error where there are none.
pub open spec fn or_error(documents: Seq<Doc>, separator: Doc) -> Doc {
    if documents.len() == 0 {
        Doc::Text("<error>"@)
    } else {
        joined(documents, separator)
    }
}

/// Bindings behind `where`.
pub open spec fn where_doc(bindings: Doc) -> Doc {
    Doc::Text("where"@).append(Doc::Hardline).append(bindings)
}

/// Functions of patterns.
pub open spec fn lambda_docs(patterns: Seq<Doc>) -> Seq<Doc> {
    Seq::new(
        patterns.len(),
        |i: int| Doc::Text("\\"@).append(patterns[i]).then_text(" ->"@),
    )
}

// How it is printed

/// A name with a text behind it.
pub fn with_suffix(name: &str, suffix: &str) -> (layout: Layout)
    ensures
        layout@ == Doc::Text(name@ + suffix@),
{
    let mut output = name.to_owned();
    output.append(suffix);
    Layout::Text(output)
}

/// A name within a text.
pub fn surrounded(before: &str, name: &str, after: &str) -> (layout: Layout)
    ensures
        layout@ == Doc::Text(before@ + name@ + after@),
{
    let mut output = before.to_owned();
    output.append(name);
    output.append(after);
    Layout::Text(output)
}

fn layout_body(head: Layout, body: Layout, forced: bool) -> (layout: Layout)
    ensures
        layout@ == with_body(head@, body@, forced),
{
    if forced {
        head.append(body.below())
    } else {
        breakable_continuation(head, body)
    }
}

fn layout_result(head: Layout, body: Layout, forced: bool) -> (layout: Layout)
    ensures
        layout@ == with_result(head@, body@, forced),
{
    if forced {
        head.append(body.below())
    } else {
        head.then_text(" ").append(body)
    }
}

fn join_or_error(layouts: Vec<Layout>, separator: Separator) -> (layout: Layout)
    ensures
        layout@ == or_error(models(layouts@), separator_doc(separator)),
{
    if layouts.len() == 0 {
        text("<error>")
    } else {
        join(layouts, separator)
    }
}

fn layout_where(bindings: Layout) -> (layout: Layout)
    ensures
        layout@ == where_doc(bindings@),
{
    text("where").append(Layout::Hardline).append(bindings)
}

fn layout_access(record: Layout, labels: &Vec<String>) -> (layout: Layout)
    ensures
        layout@ == accessed(record@, labels@),
{
    let mut layout = record;
    let mut index: usize = 0;
    assert(labels@.take(0) =~= Seq::empty());
    while index < labels.len()
        invariant
            index <= labels.len(),
            layout@ == accessed(record@, labels@.take(index as int)),
        decreases labels.len() - index,
    {
        assert(labels@.take(index + 1).drop_last() =~= labels@.take(index as int));
        layout = layout.append(with_suffix(".", labels[index].as_str()));
        index += 1;
    }
    assert(labels@.take(index as int) =~= labels@);
    layout
}

fn layout_abstractions(layouts: Vec<Layout>) -> (layout: Layout)
    requires
        layouts@.len() > 0,
    ensures
        layout@ == abstracted(models(layouts@)),
{
    let mut remaining = layouts;
    let ghost all = models(layouts@);
    let mut document = remaining.remove(0);
    let ghost mut count: int = 1;
    assert(all.take(1).len() == 1 && all.take(1)[0] == document@);
    assert(models(remaining@) =~= all.skip(1));
    while remaining.len() > 0
        invariant
            all == models(layouts@),
            1 <= count <= all.len(),
            models(remaining@) == all.skip(count),
            remaining@.len() == all.len() - count,
            document@ == abstracted(all.take(count)),
        decreases remaining.len(),
    {
        let ghost before = models(remaining@);
        let next = remaining.remove(0);
        proof {
            assert(next@ == before[0]);
            assert(before[0] == all[count]);
            assert(all.take(count + 1).drop_last() =~= all.take(count));
            assert forall|i: int| 0 <= i < remaining@.len() implies #[trigger] models(
                remaining@,
            )[i] == all.skip(count + 1)[i] by {
                assert(before[i + 1] == all.skip(count)[i + 1]);
            }
            assert(models(remaining@) =~= all.skip(count + 1));
        }
        document = document.append(Layout::Softline.append(next).nest(2));
        proof {
            count = count + 1;
        }
    }
    assert(all.take(count) =~= all);
    document
}

fn layout_equation(
    name: &str,
    abstractions: Vec<Layout>,
    body: Layout,
    forced: bool,
    lambda: bool,
) -> (layout: Layout)
    ensures
        layout@ == equation_doc(name@, models(abstractions@), body@, forced, lambda),
{
    if abstractions.len() > 0 {
        let abstractions = layout_abstractions(abstractions);
        let body = if forced {
            body.below()
        } else {
            body.behind().group()
        };
        with_suffix(name, " = ").append(abstractions.append(body))
    } else if forced {
        with_suffix(name, " =").append(body.below())
    } else if lambda {
        with_suffix(name, " = ").append(body).group()
    } else {
        with_suffix(name, " =").append(body.behind()).group()
    }
}

fn layout_lambdas(patterns: Vec<Layout>) -> (layouts: Vec<Layout>)
    ensures
        models(layouts@) == lambda_docs(models(patterns@)),
{
    let mut remaining = patterns;
    let ghost all = models(patterns@);
    let mut layouts: Vec<Layout> = Vec::new();
    assert(models(remaining@) =~= all.skip(0));
    while remaining.len() > 0
        invariant
            all == models(patterns@),
            layouts@.len() + remaining@.len() == all.len(),
            models(remaining@) == all.skip(layouts@.len() as int),
            models(layouts@) == lambda_docs(all).take(layouts@.len() as int),
        decreases remaining.len(),
    {
        let ghost before = models(remaining@);
        let ghost made = models(layouts@);
        let ghost count = layouts@.len() as int;
        let next = remaining.remove(0);
        let layout = text("\\").append(next).then_text(" ->");
        layouts.push(layout);
        proof {
            assert(next@ == before[0]);
            assert(before[0] == all[count]);
            assert forall|i: int| 0 <= i < remaining@.len() implies #[trigger] models(
                remaining@,
            )[i] == all.skip(count + 1)[i] by {
                assert(before[i + 1] == all.skip(count)[i + 1]);
            }
            assert(models(remaining@) =~= all.skip(count + 1));
            assert(models(layouts@) =~= made.push(layout@));
            assert(models(layouts@) =~= lambda_docs(all).take(count + 1));
        }
    }
    assert(lambda_docs(all).take(layouts@.len() as int) =~= lambda_docs(all));
    layouts
}

impl<'a> Printer<'a> {
    fn expression_requires_body_break(&self, id: ExpressionId) -> (forced: bool)
        ensures
            forced == self.breaks_body(id),
    {
        match self.own.checked.tree.find_expression(id) {
            Some(expression) => match &expression.kind {
                ExpressionKind::IfThenElse { .. } => true,
                ExpressionKind::Case { .. } => true,
                _ => false,
            },
            None => false,
        }
    }

    fn expression_is_block_argument(&self, id: ExpressionId) -> (block: bool)
        ensures
            block == self.is_block(id),
    {
        match self.own.checked.tree.find_expression(id) {
            Some(expression) => match find_precedence(&expression.kind) {
                ExpressionPrecedence::Abstraction => true,
                _ => false,
            },
            None => false,
        }
    }

    fn expression_is_function(&self, id: ExpressionId) -> (function: bool)
        ensures
            function == self.is_function(id),
    {
        match self.own.checked.tree.find_expression(id) {
            Some(expression) => match &expression.kind {
                ExpressionKind::Lambda { .. } => true,
                _ => false,
            },
            None => false,
        }
    }

    fn expression_is_pun(&self, id: ExpressionId) -> (pun: bool)
        ensures
            pun == self.is_pun(id),
    {
        match self.own.checked.tree.find_expression(id) {
            Some(expression) => match &expression.kind {
                ExpressionKind::RecordPun { .. } => true,
                _ => false,
            },
            None => false,
        }
    }

    fn resolution_name(&self, resolution: VariableResolution) -> (name: String)
        ensures
            name@ == self.resolution_text(resolution),
    {
        match resolution {
            VariableResolution::Generated(binder) => {
                if let Some(generated) = self.own.checked.tree.find_binder(binder) {
                    if let BinderSource::Generated { name, .. } = generated.source {
                        return self.interned_name(name);
                    }
                }
                let mut name = "<generated#".to_owned();
                push_decimal(&mut name, binder.raw as u64);
                name.append(">");
                name
            },
            VariableResolution::Source(source) => match source {
                TermVariableResolution::Binder(binder) => self.source_binder_name(binder),
                TermVariableResolution::Reference(file, term) => match self.term_name(file, term) {
                    Some(name) => name,
                    None => "?".to_owned(),
                },
                TermVariableResolution::Let(binding) => self.local_declaration_name(binding),
                TermVariableResolution::RecordPun(pun) => self.record_pun_name(pun),
            },
        }
    }

    fn section_binder_name(&self, binder: BinderId) -> (name: String)
        ensures
            name@ == self.section_binder_text(binder),
    {
        match self.own.checked.tree.find_binder(binder) {
            Some(binder) => match binder.source {
                BinderSource::Section(source) => section_name(source),
                _ => "<error>".to_owned(),
            },
            None => "<error>".to_owned(),
        }
    }

    /// An expression where any is allowed.
    pub fn expression(&self, printing: &mut Printing, id: ExpressionId, scope: usize, depth: usize) -> (
    layout: Layout)
        requires
            self.wf(),
        ensures
            (Laid { state: final(printing)@, doc: layout@ }) == self.plain_laid(
                old(printing)@,
                id,
                scope,
                depth as nat,
            ),
        decreases depth, 2nat, *self, 0nat,
    {
        self.expression_at(printing, id, ExpressionPrecedence::Abstraction, scope, depth)
    }

    /// An expression where one of the precedence is required.
    pub fn expression_at(
        &self,
        printing: &mut Printing,
        id: ExpressionId,
        required: ExpressionPrecedence,
        scope: usize,
        depth: usize,
    ) -> (layout: Layout)
        requires
            self.wf(),
        ensures
            (Laid { state: final(printing)@, doc: layout@ }) == self.expression_laid(
                old(printing)@,
                id,
                required,
                scope,
                depth as nat,
            ),
        decreases depth, 1nat, *self, 0nat,
    {
        let Some(expression) = self.own.checked.tree.find_expression(id) else {
            return text("<error>");
        };
        let allow_block = match required {
            ExpressionPrecedence::Application => false,
            _ => true,
        };
        let layout = self.expression_unparenthesized(
            printing,
            &expression.kind,
            allow_block,
            scope,
            depth,
        );
        if find_precedence(&expression.kind).number() < required.number() {
            layout.parenthesized()
        } else {
            layout
        }
    }

    fn expression_unparenthesized(
        &self,
        printing: &mut Printing,
        kind: &ExpressionKind,
        allow_block: bool,
        scope: usize,
        depth: usize,
    ) -> (layout: Layout)
        requires
            self.wf(),
        ensures
            (Laid { state: final(printing)@, doc: layout@ }) == self.kind_laid(
                old(printing)@,
                *kind,
                allow_block,
                scope,
                depth as nat,
            ),
        decreases depth, 0nat, *self, 0nat,
    {
        if depth == 0 {
            return text("<error>");
        }
        let inner: usize = depth - 1;
        match kind {
            ExpressionKind::Error => text("<error>"),
            ExpressionKind::String { kind, value } => match (kind, &value.raw) {
                (StringKind::RawString, Some(raw)) => surrounded(
                    "\"\"\"",
                    raw.as_str(),
                    "\"\"\"",
                ),
                _ => Layout::Text(value.normal.clone()),
            },
            ExpressionKind::Char { value } => Layout::Text(character_literal(*value)),
            ExpressionKind::Boolean { value } => if *value {
                text("true")
            } else {
                text("false")
            },
            ExpressionKind::Integer { value } => Layout::Text(signed_text(*value)),
            ExpressionKind::Number { value } => Layout::Text(value.clone()),
            ExpressionKind::Array { elements } => {
                let layouts = self.layout_expressions(printing, elements, scope, inner);
                text("[").append(join(layouts, Separator::Comma)).then_text("]")
            },
            ExpressionKind::Record { fields } => {
                if fields.len() == 0 {
                    return text("{ }");
                }
                let layouts = self.layout_fields(printing, fields, scope, inner);
                text("{ ").append(join(layouts, Separator::Comma)).then_text(" }")
            },
            ExpressionKind::RecordAccess { record, labels } => {
                let layout = self.expression_at(
                    printing,
                    *record,
                    ExpressionPrecedence::Atom,
                    scope,
                    inner,
                );
                layout_access(layout, labels)
            },
            ExpressionKind::RecordUpdate { record, updates } => {
                let layout = self.expression_at(
                    printing,
                    *record,
                    ExpressionPrecedence::Atom,
                    scope,
                    inner,
                );
                let updates = self.record_expression_updates(printing, updates, scope, inner);
                layout.then_text(" ").append(updates)
            },
            ExpressionKind::Constructor { resolution } => {
                match self.term_name(resolution.0, resolution.1) {
                    Some(name) => Layout::Text(name),
                    None => text("?"),
                }
            },
            ExpressionKind::Variable { resolution } => Layout::Text(
                self.resolution_name(*resolution),
            ),
            ExpressionKind::RecordPun { resolution, .. } => Layout::Text(
                self.resolution_name(*resolution),
            ),
            ExpressionKind::Section { binder } => Layout::Text(self.section_binder_name(*binder)),
            ExpressionKind::TermApplication { function, argument } => self.layout_application(
                printing,
                *function,
                *argument,
                allow_block,
                scope,
                inner,
            ),
            ExpressionKind::EvidenceApplication { function, evidence, .. } => {
                let applied = self.expression_at(
                    printing,
                    *function,
                    ExpressionPrecedence::Application,
                    scope,
                    inner,
                );
                let name = self.evidence_variable_name(printing, *evidence);
                applied.append(surrounded(" {", name.as_str(), "}"))
            },
            ExpressionKind::EvidenceAbstraction { binder, expression } => {
                let name = self.evidence_binder_name(printing, *binder);
                let body = self.expression(printing, *expression, scope, inner);
                layout_body(
                    surrounded("\\{", name.as_str(), "} ->"),
                    body,
                    self.expression_requires_body_break(*expression),
                )
            },
            ExpressionKind::Lambda { binders, expression } => {
                let patterns = self.binders(printing, binders, scope);
                let body = self.expression(printing, *expression, scope, inner);
                let patterns = if binders.len() == 0 {
                    text("<error>")
                } else {
                    join(patterns, Separator::Space)
                };
                let head = text("\\").append(patterns).then_text(" ->");
                layout_body(head, body, self.expression_requires_body_break(*expression))
            },
            ExpressionKind::IfThenElse { condition, then, else_ } => {
                let condition = self.expression(printing, *condition, scope, inner);
                let yes = self.expression(printing, *then, scope, inner);
                let no = self.expression(printing, *else_, scope, inner);
                text("if ").append(condition).then_text(" then").append(yes.behind()).append(
                    Layout::Line,
                ).then_text("else").append(no.behind()).group()
            },
            ExpressionKind::Case { scrutinees, alternatives } => {
                let scrutinees = self.layout_expressions(printing, scrutinees, scope, inner);
                let alternatives = self.case_alternatives(printing, alternatives, scope, inner);
                text("case ").append(
                    join_or_error(scrutinees, Separator::Comma).group(),
                ).then_text(" of").append(
                    join_or_error(alternatives, Separator::Hardline).below(),
                )
            },
            ExpressionKind::Let { bindings, expression } => {
                let bindings = self.let_bindings(printing, bindings, scope, inner);
                let body = self.expression(printing, *expression, scope, inner);
                text("let").append(bindings.below()).append(Layout::Hardline).then_text(
                    "in",
                ).append(body.below())
            },
        }
    }

    fn layout_application(
        &self,
        printing: &mut Printing,
        function: ExpressionId,
        argument: ExpressionId,
        allow_block: bool,
        scope: usize,
        depth: usize,
    ) -> (layout: Layout)
        requires
            self.wf(),
            depth < usize::MAX,
        ensures
            (Laid { state: final(printing)@, doc: layout@ }) == self.kind_laid(
                old(printing)@,
                ExpressionKind::TermApplication { function, argument },
                allow_block,
                scope,
                depth as nat + 1,
            ),
        decreases depth, 2nat, *self, 0nat,
    {
        let applied = self.expression_at(
            printing,
            function,
            ExpressionPrecedence::Application,
            scope,
            depth,
        );
        let block = allow_block && self.expression_is_block_argument(argument);
        let required = if block {
            ExpressionPrecedence::Abstraction
        } else {
            ExpressionPrecedence::RecordUpdate
        };
        let last = self.expression_at(printing, argument, required, scope, depth);
        if block {
            applied.then_text(" ").append(last)
        } else {
            breakable_continuation(applied, last)
        }
    }

    fn layout_expressions(
        &self,
        printing: &mut Printing,
        ids: &Vec<ExpressionId>,
        scope: usize,
        depth: usize,
    ) -> (layouts: Vec<Layout>)
        requires
            self.wf(),
        ensures
            (Listed { state: final(printing)@, docs: models(layouts@) }) == self.expressions_listed(
                old(printing)@,
                ids@,
                ids@.len(),
                scope,
                depth as nat,
            ),
        decreases depth, 3nat, *self, ids@.len(),
    {
        let mut layouts: Vec<Layout> = Vec::new();
        let mut index: usize = 0;
        assert(models(layouts@) =~= Seq::empty());
        while index < ids.len()
            invariant
                self.wf(),
                index <= ids.len(),
                (Listed { state: printing@, docs: models(layouts@) }) == self.expressions_listed(
                    old(printing)@,
                    ids@,
                    index as nat,
                    scope,
                    depth as nat,
                ),
            decreases ids.len() - index,
        {
            let ghost before = models(layouts@);
            let layout = self.expression(printing, ids[index], scope, depth);
            layouts.push(layout);
            assert(models(layouts@) =~= before.push(layout@));
            index += 1;
        }
        layouts
    }

    fn layout_fields(
        &self,
        printing: &mut Printing,
        fields: &Vec<RecordExpressionField>,
        scope: usize,
        depth: usize,
    ) -> (layouts: Vec<Layout>)
        requires
            self.wf(),
        ensures
            (Listed { state: final(printing)@, docs: models(layouts@) }) == self.fields_listed(
                old(printing)@,
                fields@,
                fields@.len(),
                scope,
                depth as nat,
            ),
        decreases depth, 3nat, *self, fields@.len(),
    {
        let mut layouts: Vec<Layout> = Vec::new();
        let mut index: usize = 0;
        assert(models(layouts@) =~= Seq::empty());
        while index < fields.len()
            invariant
                self.wf(),
                index <= fields.len(),
                (Listed { state: printing@, docs: models(layouts@) }) == self.fields_listed(
                    old(printing)@,
                    fields@,
                    index as nat,
                    scope,
                    depth as nat,
                ),
            decreases fields.len() - index,
        {
            let ghost before = models(layouts@);
            let (label, expression, shorthand) = match &fields[index] {
                RecordExpressionField::Field { label, expression } => (label, *expression, false),
                RecordExpressionField::Pun { label, expression, .. } => (
                    label,
                    *expression,
                    self.expression_is_pun(*expression),
                ),
            };
            let layout = if shorthand {
                Layout::Text(label.clone())
            } else {
                let layout = self.expression(printing, expression, scope, depth);
                with_suffix(label.as_str(), ": ").append(layout)
            };
            layouts.push(layout);
            assert(models(layouts@) =~= before.push(layout@));
            index += 1;
        }
        layouts
    }

    fn record_expression_updates(
        &self,
        printing: &mut Printing,
        updates: &Vec<RecordExpressionUpdate>,
        scope: usize,
        depth: usize,
    ) -> (layout: Layout)
        requires
            self.wf(),
        ensures
            (Laid { state: final(printing)@, doc: layout@ }) == self.updates_laid(
                old(printing)@,
                *updates,
                scope,
                depth as nat,
            ),
        decreases depth, 4nat, *updates, 0nat,
    {
        if updates.len() == 0 {
            return text("{ }");
        }
        let mut layouts: Vec<Layout> = Vec::new();
        let mut index: usize = 0;
        assert(models(layouts@) =~= Seq::empty());
        while index < updates.len()
            invariant
                self.wf(),
                index <= updates.len(),
                (Listed { state: printing@, docs: models(layouts@) }) == self.updates_listed(
                    old(printing)@,
                    *updates,
                    index as nat,
                    scope,
                    depth as nat,
                ),
            decreases updates.len() - index,
        {
            let ghost before = models(layouts@);
            let layout = match &updates[index] {
                RecordExpressionUpdate::Error => text("<error>"),
                RecordExpressionUpdate::Leaf { label, expression } => {
                    let layout = self.expression(printing, *expression, scope, depth);
                    with_suffix(label.as_str(), " = ").append(layout)
                },
                RecordExpressionUpdate::Branch { label, updates: nested } => {
                    let layout = self.record_expression_updates(printing, nested, scope, depth);
                    with_suffix(label.as_str(), " ").append(layout)
                },
            };
            layouts.push(layout);
            assert(models(layouts@) =~= before.push(layout@));
            index += 1;
        }
        text("{ ").append(join(layouts, Separator::Comma)).then_text(" }")
    }

    /// Bindings, one below the other.
    pub fn let_bindings(
        &self,
        printing: &mut Printing,
        bindings: &LetBindings,
        scope: usize,
        depth: usize,
    ) -> (layout: Layout)
        requires
            self.wf(),
        ensures
            (Laid { state: final(printing)@, doc: layout@ }) == self.bindings_laid(
                old(printing)@,
                *bindings,
                scope,
                depth as nat,
            ),
        decreases depth, 6nat, *bindings, 0nat,
    {
        let chunks = &bindings.chunks;
        let mut layouts: Vec<Layout> = Vec::new();
        let mut index: usize = 0;
        assert(models(layouts@) =~= Seq::empty());
        while index < chunks.len()
            invariant
                self.wf(),
                *chunks == bindings.chunks,
                index <= chunks.len(),
                (Listed { state: printing@, docs: models(layouts@) }) == self.chunks_listed(
                    old(printing)@,
                    *chunks,
                    index as nat,
                    scope,
                    depth as nat,
                ),
            decreases chunks.len() - index,
        {
            let ghost before = models(layouts@);
            match &chunks[index] {
                LetBindingChunk::Pattern { binder, where_expression, .. } => {
                    let pattern = self.binder(printing, *binder, scope);
                    let body = self.where_expression(printing, where_expression, scope, depth);
                    let layout = pattern.then_text(" =").append(body.behind()).group();
                    layouts.push(layout);
                    assert(models(layouts@) =~= before.push(layout@));
                },
                LetBindingChunk::PatternError { where_expression, .. } => {
                    let layout = match where_expression {
                        Some(where_expression) => {
                            let body = self.where_expression(
                                printing,
                                where_expression,
                                scope,
                                depth,
                            );
                            text("<error> =").append(body.behind()).group()
                        },
                        None => text("<error-binding>"),
                    };
                    layouts.push(layout);
                    assert(models(layouts@) =~= before.push(layout@));
                },
                LetBindingChunk::Names { declarations, .. } => {
                    let mut locals = self.local_declarations(
                        printing,
                        declarations,
                        scope,
                        depth,
                    );
                    let ghost listed = models(locals@);
                    layouts.append(&mut locals);
                    assert(models(layouts@) =~= before + listed);
                },
            }
            index += 1;
        }
        if layouts.len() == 0 {
            text("<error-binding>")
        } else {
            join(layouts, Separator::Hardline)
        }
    }

    fn local_declarations(
        &self,
        printing: &mut Printing,
        ids: &Vec<LocalDeclarationId>,
        scope: usize,
        depth: usize,
    ) -> (layouts: Vec<Layout>)
        requires
            self.wf(),
        ensures
            (Listed { state: final(printing)@, docs: models(layouts@) }) == self.locals_listed(
                old(printing)@,
                ids@,
                ids@.len(),
                scope,
                depth as nat,
            ),
        decreases depth, 5nat, *self, ids@.len(),
    {
        let mut layouts: Vec<Layout> = Vec::new();
        let mut index: usize = 0;
        assert(models(layouts@) =~= Seq::empty());
        while index < ids.len()
            invariant
                self.wf(),
                index <= ids.len(),
                (Listed { state: printing@, docs: models(layouts@) }) == self.locals_listed(
                    old(printing)@,
                    ids@,
                    index as nat,
                    scope,
                    depth as nat,
                ),
            decreases ids.len() - index,
        {
            let ghost before = models(layouts@);
            let layout = self.local_declaration(printing, ids[index], scope, depth);
            layouts.push(layout);
            assert(models(layouts@) =~= before.push(layout@));
            index += 1;
        }
        layouts
    }

    fn local_declaration(
        &self,
        printing: &mut Printing,
        id: LocalDeclarationId,
        scope: usize,
        depth: usize,
    ) -> (layout: Layout)
        requires
            self.wf(),
        ensures
            (Laid { state: final(printing)@, doc: layout@ }) == self.local_laid(
                old(printing)@,
                id,
                scope,
                depth as nat,
            ),
        decreases depth, 4nat, *self, 0nat,
    {
        if depth == 0 {
            return text("<error>");
        }
        let Some(declaration) = self.own.checked.tree.find_local(id) else {
            return text("<error>");
        };
        let name = self.local_declaration_name(declaration.source);
        let own: usize = printing.ask(TypeRequest::Fork { scope });
        let answer: usize = printing.ask(
            TypeRequest::Render { scope: own, type_id: declaration.type_id },
        );
        let signature = with_suffix(name.as_str(), " :: ").append(Layout::Answer(answer));
        let rigids = self.declaration_rigid_names(printing, own, &declaration.value.abstractions);
        self.assign_rigid_names(printing, own, &rigids);
        self.name_evidence(printing, &declaration.value.abstractions);
        let equations = self.equation_declarations(
            printing,
            name.as_str(),
            false,
            &declaration.value.abstractions,
            &declaration.value.equations,
            own,
            depth - 1,
        );
        let equations = if equations.len() == 0 {
            with_suffix(name.as_str(), " = <error>")
        } else {
            join(equations, Separator::Hardline)
        };
        signature.append(Layout::Hardline).append(equations)
    }

    /// The names of the type variables among the abstractions.
    pub fn declaration_rigid_names(
        &self,
        printing: &mut Printing,
        scope: usize,
        abstractions: &Vec<DeclarationAbstraction>,
    ) -> (names: Vec<RigidName>)
        ensures
            (RigidNames { state: final(printing)@, names: names@ }) == self.rigids_named(
                old(printing)@,
                scope,
                abstractions@,
                abstractions@.len(),
            ),
    {
        let mut names: Vec<RigidName> = Vec::new();
        let mut index: usize = 0;
        while index < abstractions.len()
            invariant
                index <= abstractions.len(),
                (RigidNames { state: printing@, names: names@ }) == self.rigids_named(
                    old(printing)@,
                    scope,
                    abstractions@,
                    index as nat,
                ),
            decreases abstractions.len() - index,
        {
            if let DeclarationAbstraction::Type { binder, rigid } = abstractions[index] {
                if self.types.holds_binder(binder) {
                    let name = self.types.lookup_forall_binder(binder).name;
                    let display: usize = printing.ask(TypeRequest::DisplayName { scope, name });
                    names.push(RigidName { rigid, display });
                }
            }
            index += 1;
        }
        names
    }

    /// The type variables get their names in a scope.
    pub fn assign_rigid_names(&self, printing: &mut Printing, scope: usize, names: &Vec<RigidName>)
        ensures
            final(printing)@ == self.rigids_assigned(
                old(printing)@,
                scope,
                names@,
                names@.len(),
            ),
    {
        let mut index: usize = 0;
        while index < names.len()
            invariant
                index <= names.len(),
                printing@ == self.rigids_assigned(
                    old(printing)@,
                    scope,
                    names@,
                    index as nat,
                ),
            decreases names.len() - index,
        {
            let name = names[index];
            if let Some(Type::Rigid(..)) = self.lookup_type(name.rigid) {
                printing.ask(
                    TypeRequest::Assign { scope, rigid: name.rigid, display: name.display },
                );
            }
            index += 1;
        }
    }

    /// The evidence of the abstractions gets names.
    pub fn name_evidence(
        &self,
        printing: &mut Printing,
        abstractions: &Vec<DeclarationAbstraction>,
    )
        ensures
            final(printing)@ == self.evidence_begun(
                old(printing)@,
                abstractions@,
                abstractions@.len(),
            ),
    {
        let mut index: usize = 0;
        while index < abstractions.len()
            invariant
                index <= abstractions.len(),
                printing@ == self.evidence_begun(old(printing)@, abstractions@, index as nat),
            decreases abstractions.len() - index,
        {
            if let DeclarationAbstraction::Evidence { binder, .. } = abstractions[index] {
                let _ = self.evidence_binder_name(printing, binder);
            }
            index += 1;
        }
    }

    fn evidence_abstractions(
        &self,
        printing: &mut Printing,
        abstractions: &Vec<DeclarationAbstraction>,
    ) -> (layouts: Vec<Layout>)
        ensures
            (Listed { state: final(printing)@, docs: models(layouts@) }) == self.evidence_listed(
                old(printing)@,
                abstractions@,
                abstractions@.len(),
            ),
    {
        let mut layouts: Vec<Layout> = Vec::new();
        let mut index: usize = 0;
        assert(models(layouts@) =~= Seq::empty());
        while index < abstractions.len()
            invariant
                index <= abstractions.len(),
                (Listed { state: printing@, docs: models(layouts@) }) == self.evidence_listed(
                    old(printing)@,
                    abstractions@,
                    index as nat,
                ),
            decreases abstractions.len() - index,
        {
            // Type abstractions are left out because the declaration's signature
            // already shows its binders.
            if let DeclarationAbstraction::Evidence { binder, .. } = abstractions[index] {
                let ghost before = models(layouts@);
                let name = self.evidence_binder_name(printing, binder);
                let layout = surrounded("\\{", name.as_str(), "} ->");
                layouts.push(layout);
                assert(models(layouts@) =~= before.push(layout@));
            }
            index += 1;
        }
        layouts
    }

    /// The equations of a declaration.
    pub fn equation_declarations(
        &self,
        printing: &mut Printing,
        name: &str,
        indented: bool,
        abstractions: &Vec<DeclarationAbstraction>,
        equations: &Vec<Equation>,
        scope: usize,
        depth: usize,
    ) -> (layouts: Vec<Layout>)
        requires
            self.wf(),
        ensures
            (Listed { state: final(printing)@, docs: models(layouts@) }) == self.equations_listed(
                old(printing)@,
                name@,
                indented,
                abstractions@,
                equations@,
                equations@.len(),
                scope,
                depth as nat,
            ),
        decreases depth, 9nat, *self, equations@.len(),
    {
        let mut layouts: Vec<Layout> = Vec::new();
        let mut index: usize = 0;
        assert(models(layouts@) =~= Seq::empty());
        while index < equations.len()
            invariant
                self.wf(),
                index <= equations.len(),
                (Listed { state: printing@, docs: models(layouts@) }) == self.equations_listed(
                    old(printing)@,
                    name@,
                    indented,
                    abstractions@,
                    equations@,
                    index as nat,
                    scope,
                    depth as nat,
                ),
            decreases equations.len() - index,
        {
            let ghost before = models(layouts@);
            let layout = self.equation_declaration(
                printing,
                name,
                indented,
                abstractions,
                &equations[index],
                scope,
                depth,
            );
            layouts.push(layout);
            assert(models(layouts@) =~= before.push(layout@));
            index += 1;
        }
        layouts
    }

    fn equation_declaration(
        &self,
        printing: &mut Printing,
        name: &str,
        indented: bool,
        abstractions: &Vec<DeclarationAbstraction>,
        equation: &Equation,
        scope: usize,
        depth: usize,
    ) -> (layout: Layout)
        requires
            self.wf(),
        ensures
            (Laid { state: final(printing)@, doc: layout@ }) == self.equation_laid(
                old(printing)@,
                name@,
                indented,
                abstractions@,
                *equation,
                scope,
                depth as nat,
            ),
        decreases depth, 8nat, *self, 0nat,
    {
        let guarded = &equation.guarded_expression;
        let unguarded = has_no_guards(guarded);
        let mut forced = false;
        let mut lambda = false;
        let body = if unguarded {
            let alone = &guarded.alternatives[0].where_expression;
            forced = self.expression_requires_body_break(alone.expression);
            lambda = self.expression_is_function(alone.expression);
            self.expression(printing, alone.expression, scope, depth)
        } else {
            self.guarded_expression(printing, guarded, scope, depth)
        };
        let mut heads = self.evidence_abstractions(printing, abstractions);
        let ghost evidence = models(heads@);
        let patterns = self.binders(printing, &equation.binders, scope);
        let mut lambdas = layout_lambdas(patterns);
        let ghost functions = models(lambdas@);
        heads.append(&mut lambdas);
        assert(models(heads@) =~= evidence + functions);
        let mut layout = layout_equation(name, heads, body, forced, lambda);
        if unguarded {
            let alone = &guarded.alternatives[0].where_expression;
            if alone.bindings.chunks.len() > 0 {
                let bindings = self.let_bindings(printing, &alone.bindings, scope, depth);
                layout = layout.append(layout_where(bindings).below());
            }
        }
        if indented {
            text("  ").append(layout.nest(2))
        } else {
            layout
        }
    }

    fn where_expression(
        &self,
        printing: &mut Printing,
        where_expression: &WhereExpression,
        scope: usize,
        depth: usize,
    ) -> (layout: Layout)
        requires
            self.wf(),
        ensures
            (Laid { state: final(printing)@, doc: layout@ }) == self.where_laid(
                old(printing)@,
                *where_expression,
                scope,
                depth as nat,
            ),
        decreases depth, 6nat, *where_expression, 1nat,
    {
        let body = self.expression(printing, where_expression.expression, scope, depth);
        if where_expression.bindings.chunks.len() == 0 {
            return body;
        }
        let bindings = self.let_bindings(printing, &where_expression.bindings, scope, depth);
        body.append(layout_where(bindings).below())
    }

    fn guarded_expression(
        &self,
        printing: &mut Printing,
        guarded: &GuardedExpression,
        scope: usize,
        depth: usize,
    ) -> (layout: Layout)
        requires
            self.wf(),
        ensures
            (Laid { state: final(printing)@, doc: layout@ }) == self.guarded_laid(
                old(printing)@,
                *guarded,
                scope,
                depth as nat,
            ),
        decreases depth, 7nat, *self, guarded.alternatives@.len() + 1,
    {
        if has_no_guards(guarded) {
            return self.where_expression(
                printing,
                &guarded.alternatives[0].where_expression,
                scope,
                depth,
            );
        }
        let alternatives = self.guarded_alternatives(
            printing,
            &guarded.alternatives,
            scope,
            depth,
        );
        join_or_error(alternatives, Separator::Hardline)
    }

    fn guarded_alternatives(
        &self,
        printing: &mut Printing,
        alternatives: &Vec<GuardedAlternative>,
        scope: usize,
        depth: usize,
    ) -> (layouts: Vec<Layout>)
        requires
            self.wf(),
        ensures
            (Listed { state: final(printing)@, docs: models(layouts@) })
                == self.alternatives_listed(
                old(printing)@,
                alternatives@,
                alternatives@.len(),
                scope,
                depth as nat,
            ),
        decreases depth, 7nat, *self, alternatives@.len(),
    {
        let mut layouts: Vec<Layout> = Vec::new();
        let mut index: usize = 0;
        assert(models(layouts@) =~= Seq::empty());
        while index < alternatives.len()
            invariant
                self.wf(),
                index <= alternatives.len(),
                (Listed { state: printing@, docs: models(layouts@) }) == self.alternatives_listed(
                    old(printing)@,
                    alternatives@,
                    index as nat,
                    scope,
                    depth as nat,
                ),
            decreases alternatives.len() - index,
        {
            let ghost before = models(layouts@);
            let alternative = &alternatives[index];
            let guards = self.pattern_guards(
                printing,
                &alternative.pattern_guards,
                scope,
                depth,
            );
            let body = self.where_expression(
                printing,
                &alternative.where_expression,
                scope,
                depth,
            );
            let head = if guards.len() == 0 {
                text("| ->")
            } else {
                text("| ").append(join(guards, Separator::Comma)).then_text(" ->")
            };
            let layout = layout_result(
                head,
                body,
                self.expression_requires_body_break(alternative.where_expression.expression),
            );
            layouts.push(layout);
            assert(models(layouts@) =~= before.push(layout@));
            index += 1;
        }
        layouts
    }

    fn pattern_guards(
        &self,
        printing: &mut Printing,
        guards: &Vec<PatternGuard>,
        scope: usize,
        depth: usize,
    ) -> (layouts: Vec<Layout>)
        requires
            self.wf(),
        ensures
            (Listed { state: final(printing)@, docs: models(layouts@) }) == self.guards_listed(
                old(printing)@,
                guards@,
                guards@.len(),
                scope,
                depth as nat,
            ),
        decreases depth, 3nat, *self, guards@.len(),
    {
        let mut layouts: Vec<Layout> = Vec::new();
        let mut index: usize = 0;
        assert(models(layouts@) =~= Seq::empty());
        while index < guards.len()
            invariant
                self.wf(),
                index <= guards.len(),
                (Listed { state: printing@, docs: models(layouts@) }) == self.guards_listed(
                    old(printing)@,
                    guards@,
                    index as nat,
                    scope,
                    depth as nat,
                ),
            decreases guards.len() - index,
        {
            let ghost before = models(layouts@);
            let layout = match guards[index] {
                PatternGuard::Boolean { expression } => self.expression(
                    printing,
                    expression,
                    scope,
                    depth,
                ),
                PatternGuard::Pattern { binder, expression } => {
                    let pattern = self.binder(printing, binder, scope);
                    let layout = self.expression(printing, expression, scope, depth);
                    pattern.then_text(" <- ").append(layout)
                },
            };
            layouts.push(layout);
            assert(models(layouts@) =~= before.push(layout@));
            index += 1;
        }
        layouts
    }

    fn case_alternatives(
        &self,
        printing: &mut Printing,
        alternatives: &Vec<CaseAlternative>,
        scope: usize,
        depth: usize,
    ) -> (layouts: Vec<Layout>)
        requires
            self.wf(),
        ensures
            (Listed { state: final(printing)@, docs: models(layouts@) }) == self.cases_listed(
                old(printing)@,
                alternatives@,
                alternatives@.len(),
                scope,
                depth as nat,
            ),
        decreases depth, 8nat, *self, alternatives@.len(),
    {
        let mut layouts: Vec<Layout> = Vec::new();
        let mut index: usize = 0;
        assert(models(layouts@) =~= Seq::empty());
        while index < alternatives.len()
            invariant
                self.wf(),
                index <= alternatives.len(),
                (Listed { state: printing@, docs: models(layouts@) }) == self.cases_listed(
                    old(printing)@,
                    alternatives@,
                    index as nat,
                    scope,
                    depth as nat,
                ),
            decreases alternatives.len() - index,
        {
            let ghost before = models(layouts@);
            let alternative = &alternatives[index];
            let guarded = &alternative.guarded_expression;
            let patterns = self.binders(printing, &alternative.binders, scope);
            let head = join_or_error(patterns, Separator::Comma).group();
            let layout = if has_no_guards(guarded) {
                let alone = &guarded.alternatives[0].where_expression;
                let body = self.where_expression(printing, alone, scope, depth);
                layout_result(
                    head.then_text(" ->"),
                    body,
                    self.expression_requires_body_break(alone.expression),
                )
            } else {
                let body = self.guarded_expression(printing, guarded, scope, depth);
                head.append(body.below())
            };
            layouts.push(layout);
            assert(models(layouts@) =~= before.push(layout@));
            index += 1;
        }
        layouts
    }
}

} // verus!
