//! What expressions and patterns are printed as, whatever the width of a line.

use super::super::lowering::{StringKind, TermVariableResolution};
use super::super::tree::{
    BinderId, BinderKind, BinderSource, ExpressionId, ExpressionKind, LetBindings,
    VariableResolution,
};
use super::super::types::FileId;
use super::evidence::Printed;
use super::expressions::ExpressionPrecedence;
use super::layout::Doc;
use super::printer::{Printer, SourceBinderName, TypeRequest};
use super::written::{
    all_written, enclosed, group_written, lemma_joined_written, separated, spaced, written,
};
use crate::indexing::items::TermItemId;
use crate::text::decimal;
use vstd::prelude::*;

verus! {

// Names

broadcast use group_written;

impl<'a> Printer<'a> {
    /// The term of the file bears the name.
    pub open spec fn bears(self, file: FileId, term: TermItemId, name: Seq<char>) -> bool {
        &&& self.module_of(file) is Some
        &&& term.raw < self.module_of(file)->0.indexed@.items.terms.len()
        &&& self.module_of(file)->0.indexed@.items.terms[term.raw as int].name == Some(name)
    }

    /// No name is known of the term.
    pub open spec fn is_nameless(self, file: FileId, term: TermItemId) -> bool {
        ||| self.module_of(file) is None
        ||| term.raw >= self.module_of(file)->0.indexed@.items.terms.len()
        ||| self.module_of(file)->0.indexed@.items.terms[term.raw as int].name is None
    }

    /// A term is either known by its name or not at all.
    pub proof fn lemma_term_known(self, file: FileId, term: TermItemId)
        ensures
            self.is_nameless(file, term) <==> forall|name: Seq<char>| !#[trigger] self.bears(
                file,
                term,
                name,
            ),
    {
        if !self.is_nameless(file, term) {
            let name = self.module_of(file)->0.indexed@.items.terms[term.raw as int].name->0;
            assert(self.bears(file, term, name));
        }
    }

    /// The kind of an expression of the module.
    pub open spec fn is_kind(self, id: ExpressionId, kind: ExpressionKind) -> bool {
        &&& self.own.checked.tree@.expression_at(id) is Some
        &&& self.own.checked.tree@.expression_at(id)->0.kind == kind
    }

    /// A constructor is printed as the name of its term, wherever it stands; there is a
    /// question mark only where the term has no name.
    pub proof fn lemma_constructor_written(
        self,
        state: Printed,
        id: ExpressionId,
        file: FileId,
        term: TermItemId,
        required: ExpressionPrecedence,
        scope: usize,
        depth: nat,
        answers: Seq<Seq<char>>,
    )
        requires
            depth > 0,
            self.is_kind(id, ExpressionKind::Constructor { resolution: (file, term) }),
        ensures
            ({
                let laid = self.expression_laid(state, id, required, scope, depth);
                &&& laid.state == state
                &&& forall|name: Seq<char>| #[trigger]
                    self.bears(file, term, name) ==> written(laid.doc, answers) == name
                &&& self.is_nameless(file, term) ==> written(laid.doc, answers) == seq!['?']
            }),
    {
        reveal_strlit("?");
        assert("?"@ =~= seq!['?']);
    }

    /// A variable of a module is printed as the name of its term.
    pub proof fn lemma_reference_written(
        self,
        state: Printed,
        id: ExpressionId,
        file: FileId,
        term: TermItemId,
        required: ExpressionPrecedence,
        scope: usize,
        depth: nat,
        answers: Seq<Seq<char>>,
    )
        requires
            depth > 0,
            self.is_kind(
                id,
                ExpressionKind::Variable {
                    resolution: VariableResolution::Source(
                        TermVariableResolution::Reference(file, term),
                    ),
                },
            ),
        ensures
            ({
                let laid = self.expression_laid(state, id, required, scope, depth);
                &&& laid.state == state
                &&& forall|name: Seq<char>| #[trigger]
                    self.bears(file, term, name) ==> written(laid.doc, answers) == name
                &&& self.is_nameless(file, term) ==> written(laid.doc, answers) == seq!['?']
            }),
    {
        reveal_strlit("?");
        assert("?"@ =~= seq!['?']);
    }

    /// A variable that a pattern of the source binds is printed as the name that the
    /// pattern binds; a local one as the name of its binding; and one that is generated
    /// as the name that it was generated with.
    pub proof fn lemma_variable_written(
        self,
        state: Printed,
        id: ExpressionId,
        resolution: VariableResolution,
        required: ExpressionPrecedence,
        scope: usize,
        depth: nat,
        answers: Seq<Seq<char>>,
    )
        requires
            depth > 0,
            self.is_kind(id, ExpressionKind::Variable { resolution }),
        ensures
            ({
                let laid = self.expression_laid(state, id, required, scope, depth);
                let text = written(laid.doc, answers);
                &&& laid.state == state
                &&& match resolution {
                    VariableResolution::Source(TermVariableResolution::Binder(binder)) => {
                        let key = binder.raw as u64;
                        self.lowered.binders@.contains_key(key) ==> match self.lowered.binders@[key] {
                            SourceBinderName::Variable(name) => text == name@,
                            SourceBinderName::Named(name) => text == name@,
                            SourceBinderName::Other => true,
                        }
                    },
                    VariableResolution::Source(TermVariableResolution::Let(binding)) => {
                        let key = binding.raw as u64;
                        self.lowered.lets@.contains_key(key) ==> text == self.lowered.lets@[key]@
                    },
                    VariableResolution::Generated(binder) => {
                        match self.own.checked.tree@.binder_at(binder) {
                            Some(generated) => match generated.source {
                                BinderSource::Generated { name, .. } => name.raw
                                    < self.types@.texts.len() ==> text
                                    == self.types@.texts[name.raw as int],
                                _ => true,
                            },
                            None => true,
                        }
                    },
                    _ => true,
                }
            }),
    {
    }

    /// Literals are printed as they are written: truth values by their names, numbers in
    /// decimal notation, texts as in the source.
    pub proof fn lemma_literal_written(
        self,
        state: Printed,
        id: ExpressionId,
        required: ExpressionPrecedence,
        scope: usize,
        depth: nat,
        answers: Seq<Seq<char>>,
    )
        requires
            depth > 0,
            self.own.checked.tree@.expression_at(id) is Some,
        ensures
            ({
                let laid = self.expression_laid(state, id, required, scope, depth);
                let text = written(laid.doc, answers);
                match self.own.checked.tree@.expression_at(id)->0.kind {
                    ExpressionKind::Boolean { value } => text == (if value {
                        seq!['t', 'r', 'u', 'e']
                    } else {
                        seq!['f', 'a', 'l', 's', 'e']
                    }),
                    ExpressionKind::Integer { value } => {
                        &&& value >= 0 ==> text == decimal(value as nat)
                        &&& value < 0 ==> text == seq!['-'] + decimal((-value) as nat)
                    },
                    ExpressionKind::Number { value } => text == value@,
                    ExpressionKind::String { kind: StringKind::String, value } => text
                        == value.normal@,
                    ExpressionKind::String { kind: StringKind::RawString, value } => {
                        let quotes = seq!['"', '"', '"'];
                        match value.raw {
                            Some(raw) => text == quotes + raw@ + quotes,
                            None => text == value.normal@,
                        }
                    },
                    _ => true,
                }
            }),
    {
        reveal_strlit("true");
        reveal_strlit("false");
        reveal_strlit("-");
        reveal_strlit("\"\"\"");
        assert("true"@ =~= seq!['t', 'r', 'u', 'e']);
        assert("false"@ =~= seq!['f', 'a', 'l', 's', 'e']);
        assert("-"@ =~= seq!['-']);
        assert("\"\"\""@ =~= seq!['"', '"', '"']);
    }

    // Parentheses

    /// The expression reaches as far to the right as it can.
    pub open spec fn is_open_ended(self, id: ExpressionId) -> bool {
        match self.own.checked.tree@.expression_at(id) {
            Some(expression) => match expression.kind {
                ExpressionKind::Lambda { .. } => true,
                ExpressionKind::EvidenceAbstraction { .. } => true,
                ExpressionKind::IfThenElse { .. } => true,
                ExpressionKind::Case { .. } => true,
                ExpressionKind::Let { .. } => true,
                _ => false,
            },
            None => false,
        }
    }

    /// The expression is an application.
    pub open spec fn is_application(self, id: ExpressionId) -> bool {
        match self.own.checked.tree@.expression_at(id) {
            Some(expression) => match expression.kind {
                ExpressionKind::TermApplication { .. } => true,
                ExpressionKind::EvidenceApplication { .. } => true,
                _ => false,
            },
            None => false,
        }
    }

    /// The expression is an update of a record.
    pub open spec fn is_update(self, id: ExpressionId) -> bool {
        match self.own.checked.tree@.expression_at(id) {
            Some(expression) => expression.kind is RecordUpdate,
            None => false,
        }
    }

    /// Parentheses stand around an expression exactly where it would be read
    /// differently without them: around what is open ended within an application,
    /// around an application as an argument, and around an update whose field is
    /// accessed. Within them, nothing is another.
    pub proof fn lemma_parentheses(
        self,
        state: Printed,
        id: ExpressionId,
        scope: usize,
        depth: nat,
        answers: Seq<Seq<char>>,
    )
        requires
            depth > 0,
            self.own.checked.tree@.expression_at(id) is Some,
        ensures
            ({
                let plain = self.expression_laid(
                    state,
                    id,
                    ExpressionPrecedence::Abstraction,
                    scope,
                    depth,
                );
                let argument = self.expression_laid(
                    state,
                    id,
                    ExpressionPrecedence::RecordUpdate,
                    scope,
                    depth,
                );
                let record = self.expression_laid(
                    state,
                    id,
                    ExpressionPrecedence::Atom,
                    scope,
                    depth,
                );
                &&& argument.state == plain.state
                &&& record.state == plain.state
                &&& written(argument.doc, answers) == if self.is_open_ended(id)
                    || self.is_application(id) {
                    enclosed(written(plain.doc, answers))
                } else {
                    written(plain.doc, answers)
                }
                &&& written(record.doc, answers) == if self.is_open_ended(id)
                    || self.is_application(id) || self.is_update(id) {
                    enclosed(written(plain.doc, answers))
                } else {
                    written(plain.doc, answers)
                }
            }),
    {
        reveal_strlit("(");
        reveal_strlit(")");
        assert("("@ =~= seq!['(']);
        assert(")"@ =~= seq![')']);
        let plain = self.expression_laid(
            state,
            id,
            ExpressionPrecedence::Abstraction,
            scope,
            depth,
        );
        assert(written(plain.doc.parenthesized(), answers) =~= enclosed(
            written(plain.doc, answers),
        ));
    }

    /// A function that is applied stands in parentheses exactly where it is open ended.
    pub proof fn lemma_function_parentheses(
        self,
        state: Printed,
        id: ExpressionId,
        scope: usize,
        depth: nat,
        answers: Seq<Seq<char>>,
    )
        requires
            depth > 0,
            self.own.checked.tree@.expression_at(id) is Some,
        ensures
            ({
                let function = self.expression_laid(
                    state,
                    id,
                    ExpressionPrecedence::Application,
                    scope,
                    depth,
                );
                let kind = self.own.checked.tree@.expression_at(id)->0.kind;
                let inner = self.kind_laid(state, kind, false, scope, depth);
                written(function.doc, answers) == if self.is_open_ended(id) {
                    enclosed(written(inner.doc, answers))
                } else {
                    written(inner.doc, answers)
                }
            }),
    {
        reveal_strlit("(");
        reveal_strlit(")");
        assert("("@ =~= seq!['(']);
        assert(")"@ =~= seq![')']);
        let kind = self.own.checked.tree@.expression_at(id)->0.kind;
        let inner = self.kind_laid(state, kind, false, scope, depth);
        assert(written(inner.doc.parenthesized(), answers) =~= enclosed(
            written(inner.doc, answers),
        ));
    }

    // Expressions

    /// The text of an expression, and the state behind it.
    pub open spec fn reads(
        self,
        state: Printed,
        id: ExpressionId,
        required: ExpressionPrecedence,
        scope: usize,
        depth: nat,
        answers: Seq<Seq<char>>,
    ) -> (Printed, Seq<char>) {
        let laid = self.expression_laid(state, id, required, scope, depth);
        (laid.state, written(laid.doc, answers))
    }

    /// An application is its function, a space and its argument. What is open ended needs
    /// no parentheses as a last argument, where a block is allowed.
    pub proof fn lemma_application_written(
        self,
        state: Printed,
        function: ExpressionId,
        argument: ExpressionId,
        allow_block: bool,
        scope: usize,
        depth: nat,
        answers: Seq<Seq<char>>,
    )
        requires
            depth > 0,
        ensures
            ({
                let kind = ExpressionKind::TermApplication { function, argument };
                let laid = self.kind_laid(state, kind, allow_block, scope, depth);
                let inner = (depth - 1) as nat;
                let (middle, first) = self.reads(
                    state,
                    function,
                    ExpressionPrecedence::Application,
                    scope,
                    inner,
                    answers,
                );
                let (last, second) = self.reads(
                    middle,
                    argument,
                    if allow_block && self.is_open_ended(argument) {
                        ExpressionPrecedence::Abstraction
                    } else {
                        ExpressionPrecedence::RecordUpdate
                    },
                    scope,
                    inner,
                    answers,
                );
                &&& laid.state == last
                &&& written(laid.doc, answers) == first + spaced(second)
            }),
    {
        reveal_strlit(" ");
        assert(" "@ =~= seq![' ']);
        let kind = ExpressionKind::TermApplication { function, argument };
        let laid = self.kind_laid(state, kind, allow_block, scope, depth);
        assert(self.is_block(argument) == self.is_open_ended(argument));
        let inner = (depth - 1) as nat;
        let applied = self.expression_laid(
            state,
            function,
            ExpressionPrecedence::Application,
            scope,
            inner,
        );
        let last = self.expression_laid(
            applied.state,
            argument,
            if allow_block && self.is_open_ended(argument) {
                ExpressionPrecedence::Abstraction
            } else {
                ExpressionPrecedence::RecordUpdate
            },
            scope,
            inner,
        );
        assert(written(laid.doc, answers) =~= written(applied.doc, answers) + spaced(
            written(last.doc, answers),
        ));
    }

    /// A conditional expression names its condition, what holds then and what holds
    /// else, in this order.
    pub proof fn lemma_conditional_written(
        self,
        state: Printed,
        condition: ExpressionId,
        then: ExpressionId,
        else_: ExpressionId,
        allow_block: bool,
        scope: usize,
        depth: nat,
        answers: Seq<Seq<char>>,
    )
        requires
            depth > 0,
        ensures
            ({
                let kind = ExpressionKind::IfThenElse { condition, then, else_ };
                let laid = self.kind_laid(state, kind, allow_block, scope, depth);
                let inner = (depth - 1) as nat;
                let any = ExpressionPrecedence::Abstraction;
                let (one, first) = self.reads(state, condition, any, scope, inner, answers);
                let (two, second) = self.reads(one, then, any, scope, inner, answers);
                let (three, third) = self.reads(two, else_, any, scope, inner, answers);
                &&& laid.state == three
                &&& written(laid.doc, answers) == "if "@ + first + " then "@ + second + " else "@
                    + third
            }),
    {
        reveal_strlit(" then ");
        reveal_strlit(" then");
        reveal_strlit(" else ");
        reveal_strlit("else");
        assert(" then"@ + seq![' '] =~= " then "@);
        assert(seq![' '] + "else"@ + seq![' '] =~= " else "@);
        let kind = ExpressionKind::IfThenElse { condition, then, else_ };
        let laid = self.kind_laid(state, kind, allow_block, scope, depth);
        let inner = (depth - 1) as nat;
        let any = ExpressionPrecedence::Abstraction;
        let (one, first) = self.reads(state, condition, any, scope, inner, answers);
        let (two, second) = self.reads(one, then, any, scope, inner, answers);
        let (three, third) = self.reads(two, else_, any, scope, inner, answers);
        assert(written(laid.doc, answers) =~= "if "@ + first + (" then"@ + seq![' ']) + second + (
        seq![' '] + "else"@ + seq![' ']) + third);
    }

    /// A function is a backslash, its patterns, an arrow and its body.
    pub proof fn lemma_function_written(
        self,
        state: Printed,
        binders: Vec<BinderId>,
        expression: ExpressionId,
        allow_block: bool,
        scope: usize,
        depth: nat,
        answers: Seq<Seq<char>>,
    )
        requires
            depth > 0,
            binders@.len() > 0,
        ensures
            ({
                let kind = ExpressionKind::Lambda { binders, expression };
                let laid = self.kind_laid(state, kind, allow_block, scope, depth);
                let inner = (depth - 1) as nat;
                let patterns = self.patterns_laid(state, binders@, scope);
                let (last, body) = self.reads(
                    patterns.state,
                    expression,
                    ExpressionPrecedence::Abstraction,
                    scope,
                    inner,
                    answers,
                );
                &&& laid.state == last
                &&& patterns.docs.len() == binders@.len()
                &&& written(laid.doc, answers) == seq!['\\'] + separated(
                    all_written(patterns.docs, answers),
                    seq![' '],
                ) + " -> "@ + body
            }),
    {
        reveal_strlit(" -> ");
        reveal_strlit(" ->");
        reveal_strlit(" ");
        reveal_strlit("\\");
        assert(" "@ =~= seq![' ']);
        assert("\\"@ =~= seq!['\\']);
        assert(" ->"@ + seq![' '] =~= " -> "@);
        let kind = ExpressionKind::Lambda { binders, expression };
        let laid = self.kind_laid(state, kind, allow_block, scope, depth);
        let patterns = self.patterns_laid(state, binders@, scope);
        self.lemma_pattern_count(state, binders@, binders@.len(), scope, self.pattern_depth());
        lemma_joined_written(patterns.docs, Doc::Text(" "@), answers);
        let (last, body) = self.reads(
            patterns.state,
            expression,
            ExpressionPrecedence::Abstraction,
            scope,
            (depth - 1) as nat,
            answers,
        );
        assert(written(laid.doc, answers) =~= seq!['\\'] + separated(
            all_written(patterns.docs, answers),
            seq![' '],
        ) + (" ->"@ + seq![' ']) + body);
    }

    /// There is a text for each pattern.
    proof fn lemma_pattern_count(
        self,
        state: Printed,
        ids: Seq<BinderId>,
        count: nat,
        scope: usize,
        depth: nat,
    )
        requires
            count <= ids.len(),
        ensures
            self.patterns(state, ids, count, scope, depth).docs.len() == count,
        decreases count,
    {
        if count > 0 {
            self.lemma_pattern_count(state, ids, (count - 1) as nat, scope, depth);
        }
    }

    /// The patterns of a list are printed in their order.
    pub proof fn lemma_patterns_in_order(
        self,
        state: Printed,
        ids: Seq<BinderId>,
        count: nat,
        scope: usize,
        depth: nat,
        index: int,
    )
        requires
            0 <= index < count <= ids.len(),
        ensures
            self.patterns(state, ids, count, scope, depth).docs[index] == self.pattern(
                self.patterns(state, ids, index as nat, scope, depth).state,
                ids[index],
                scope,
                depth,
            ).doc,
        decreases count,
    {
        self.lemma_pattern_count(state, ids, (count - 1) as nat, scope, depth);
        if index < count - 1 {
            self.lemma_patterns_in_order(state, ids, (count - 1) as nat, scope, depth, index);
        }
    }

    /// There is a text for each expression of a list, in their order.
    pub proof fn lemma_expressions_in_order(
        self,
        state: Printed,
        ids: Seq<ExpressionId>,
        count: nat,
        scope: usize,
        depth: nat,
        index: int,
    )
        requires
            0 <= index < count <= ids.len(),
        ensures
            self.expressions_listed(state, ids, count, scope, depth).docs.len() == count,
            self.expressions_listed(state, ids, count, scope, depth).docs[index]
                == self.expression_laid(
                self.expressions_listed(state, ids, index as nat, scope, depth).state,
                ids[index],
                ExpressionPrecedence::Abstraction,
                scope,
                depth,
            ).doc,
        decreases count,
    {
        self.lemma_expression_count(state, ids, (count - 1) as nat, scope, depth);
        let before = self.expressions_listed(state, ids, (count - 1) as nat, scope, depth);
        if index < count - 1 {
            self.lemma_expressions_in_order(state, ids, (count - 1) as nat, scope, depth, index);
        } else {
            let laid = self.plain_laid(before.state, ids[index], scope, depth);
            assert(self.expressions_listed(state, ids, count, scope, depth).docs
                == before.docs.push(laid.doc));
        }
    }

    proof fn lemma_expression_count(
        self,
        state: Printed,
        ids: Seq<ExpressionId>,
        count: nat,
        scope: usize,
        depth: nat,
    )
        requires
            count <= ids.len(),
        ensures
            self.expressions_listed(state, ids, count, scope, depth).docs.len() == count,
        decreases count,
    {
        if count > 0 {
            self.lemma_expression_count(state, ids, (count - 1) as nat, scope, depth);
        }
    }

    /// An array is its elements in brackets, with commas in between.
    pub proof fn lemma_array_written(
        self,
        state: Printed,
        elements: Vec<ExpressionId>,
        allow_block: bool,
        scope: usize,
        depth: nat,
        answers: Seq<Seq<char>>,
    )
        requires
            depth > 0,
        ensures
            ({
                let kind = ExpressionKind::Array { elements };
                let laid = self.kind_laid(state, kind, allow_block, scope, depth);
                let listed = self.expressions_listed(
                    state,
                    elements@,
                    elements@.len(),
                    scope,
                    (depth - 1) as nat,
                );
                written(laid.doc, answers) == seq!['['] + separated(
                    all_written(listed.docs, answers),
                    seq![',', ' '],
                ) + seq![']']
            }),
    {
        reveal_strlit("[");
        reveal_strlit("]");
        reveal_strlit(", ");
        assert("["@ =~= seq!['[']);
        assert("]"@ =~= seq![']']);
        assert(", "@ =~= seq![',', ' ']);
        let listed = self.expressions_listed(
            state,
            elements@,
            elements@.len(),
            scope,
            (depth - 1) as nat,
        );
        lemma_joined_written(listed.docs, Doc::Text(", "@), answers);
    }

    /// Bindings stand between `let` and `in`, and the expression behind them.
    pub proof fn lemma_let_written(
        self,
        state: Printed,
        bindings: LetBindings,
        expression: ExpressionId,
        allow_block: bool,
        scope: usize,
        depth: nat,
        answers: Seq<Seq<char>>,
    )
        requires
            depth > 0,
        ensures
            ({
                let kind = ExpressionKind::Let { bindings, expression };
                let laid = self.kind_laid(state, kind, allow_block, scope, depth);
                let inner = (depth - 1) as nat;
                let bound = self.bindings_laid(state, bindings, scope, inner);
                let (last, body) = self.reads(
                    bound.state,
                    expression,
                    ExpressionPrecedence::Abstraction,
                    scope,
                    inner,
                    answers,
                );
                &&& laid.state == last
                &&& written(laid.doc, answers) == "let "@ + written(bound.doc, answers) + " in "@
                    + body
            }),
    {
        reveal_strlit("let ");
        reveal_strlit("let");
        reveal_strlit(" in ");
        reveal_strlit("in");
        assert("let"@ + seq![' '] =~= "let "@);
        assert(seq![' '] + "in"@ + seq![' '] =~= " in "@);
        let kind = ExpressionKind::Let { bindings, expression };
        let laid = self.kind_laid(state, kind, allow_block, scope, depth);
        let inner = (depth - 1) as nat;
        let bound = self.bindings_laid(state, bindings, scope, inner);
        let (last, body) = self.reads(
            bound.state,
            expression,
            ExpressionPrecedence::Abstraction,
            scope,
            inner,
            answers,
        );
        assert(written(laid.doc, answers) =~= ("let"@ + seq![' ']) + written(bound.doc, answers) + (
        seq![' '] + "in"@ + seq![' ']) + body);
    }

    /// The field of a record stands behind the record and a dot.
    pub proof fn lemma_access_written(
        self,
        state: Printed,
        record: ExpressionId,
        labels: Vec<String>,
        allow_block: bool,
        scope: usize,
        depth: nat,
        answers: Seq<Seq<char>>,
    )
        requires
            depth > 0,
            labels@.len() == 1,
        ensures
            ({
                let kind = ExpressionKind::RecordAccess { record, labels };
                let laid = self.kind_laid(state, kind, allow_block, scope, depth);
                let (last, text) = self.reads(
                    state,
                    record,
                    ExpressionPrecedence::Atom,
                    scope,
                    (depth - 1) as nat,
                    answers,
                );
                &&& laid.state == last
                &&& written(laid.doc, answers) == text + seq!['.'] + labels@[0]@
            }),
    {
        reveal_strlit(".");
        assert("."@ =~= seq!['.']);
        let kind = ExpressionKind::RecordAccess { record, labels };
        let laid = self.kind_laid(state, kind, allow_block, scope, depth);
        let inner = self.expression_laid(
            state,
            record,
            ExpressionPrecedence::Atom,
            scope,
            (depth - 1) as nat,
        );
        reveal_with_fuel(super::expressions::accessed, 2);
        assert(labels@.drop_last() =~= Seq::empty());
        assert(written(laid.doc, answers) =~= written(inner.doc, answers) + seq!['.']
            + labels@[0]@);
    }

    // Patterns

    /// A pattern is printed as what it matches: a constructor by the name of its term,
    /// with its arguments in parentheses; a variable by its name; literals as they are
    /// written, in parentheses where they are negative.
    pub proof fn lemma_pattern_written(
        self,
        state: Printed,
        id: BinderId,
        scope: usize,
        depth: nat,
        answers: Seq<Seq<char>>,
    )
        requires
            depth > 0,
            self.own.checked.tree@.binder_at(id) is Some,
        ensures
            ({
                let laid = self.pattern(state, id, scope, depth);
                let text = written(laid.doc, answers);
                let inner = (depth - 1) as nat;
                let binder = self.own.checked.tree@.binder_at(id)->0;
                match binder.kind {
                    BinderKind::Constructor { resolution, arguments } => {
                        let listed = self.patterns(
                            state,
                            arguments@,
                            arguments@.len(),
                            scope,
                            inner,
                        );
                        forall|name: Seq<char>| #[trigger]
                            self.bears(resolution.0, resolution.1, name) ==> text == if arguments@.len()
                                == 0 {
                                name
                            } else {
                                enclosed(
                                    name + spaced(
                                        separated(
                                            all_written(listed.docs, answers),
                                            seq![' '],
                                        ),
                                    ),
                                )
                            }
                    },
                    BinderKind::Variable => match binder.source {
                        BinderSource::Binder(source) => {
                            let key = source.raw as u64;
                            self.lowered.binders@.contains_key(key)
                                ==> match self.lowered.binders@[key] {
                                SourceBinderName::Variable(name) => text == name@,
                                SourceBinderName::Named(name) => text == name@,
                                SourceBinderName::Other => true,
                            }
                        },
                        BinderSource::Generated { name, .. } => name.raw < self.types@.texts.len()
                            ==> text == self.types@.texts[name.raw as int],
                        _ => true,
                    },
                    BinderKind::Wildcard => text == seq!['_'],
                    BinderKind::Boolean { value } => text == (if value {
                        seq!['t', 'r', 'u', 'e']
                    } else {
                        seq!['f', 'a', 'l', 's', 'e']
                    }),
                    BinderKind::Integer { value } => {
                        &&& value >= 0 ==> text == decimal(value as nat)
                        &&& value < 0 ==> text == enclosed(
                            seq!['-'] + decimal((-value) as nat),
                        )
                    },
                    BinderKind::Named { name, binder } => text == name@ + seq!['@'] + written(
                        self.pattern(state, binder, scope, inner).doc,
                        answers,
                    ),
                    BinderKind::Array { elements } => {
                        let listed = self.patterns(
                            state,
                            elements@,
                            elements@.len(),
                            scope,
                            inner,
                        );
                        text == seq!['['] + separated(
                            all_written(listed.docs, answers),
                            seq![',', ' '],
                        ) + seq![']']
                    },
                    BinderKind::Typed { binder, annotation } => {
                        let typed = self.pattern(state, binder, scope, inner);
                        let place = typed.state.requests.len() as int;
                        &&& laid.state == typed.state.asked(
                            TypeRequest::Render { scope, type_id: annotation },
                        )
                        &&& place < answers.len() ==> text == enclosed(
                            written(typed.doc, answers) + " :: "@ + answers[place],
                        )
                    },
                    _ => true,
                }
            }),
    {
        reveal_strlit("(");
        reveal_strlit(")");
        reveal_strlit(" ");
        reveal_strlit("_");
        reveal_strlit("true");
        reveal_strlit("false");
        reveal_strlit("-");
        reveal_strlit("@");
        reveal_strlit("[");
        reveal_strlit("]");
        reveal_strlit(", ");
        assert("("@ =~= seq!['(']);
        assert(")"@ =~= seq![')']);
        assert(" "@ =~= seq![' ']);
        assert("_"@ =~= seq!['_']);
        assert("true"@ =~= seq!['t', 'r', 'u', 'e']);
        assert("false"@ =~= seq!['f', 'a', 'l', 's', 'e']);
        assert("-"@ =~= seq!['-']);
        assert("@"@ =~= seq!['@']);
        assert("["@ =~= seq!['[']);
        assert("]"@ =~= seq![']']);
        assert(", "@ =~= seq![',', ' ']);
        let laid = self.pattern(state, id, scope, depth);
        let inner = (depth - 1) as nat;
        match self.own.checked.tree@.binder_at(id)->0.kind {
            BinderKind::Constructor { resolution, arguments } => {
                let listed = self.patterns(state, arguments@, arguments@.len(), scope, inner);
                lemma_joined_written(listed.docs, Doc::Text(" "@), answers);
                let all = separated(all_written(listed.docs, answers), seq![' ']);
                assert forall|name: Seq<char>| #[trigger]
                    self.bears(resolution.0, resolution.1, name) && arguments@.len()
                        > 0 implies written(laid.doc, answers) =~= enclosed(
                    name + spaced(all),
                ) by {}
            },
            BinderKind::Array { elements } => {
                let listed = self.patterns(state, elements@, elements@.len(), scope, inner);
                lemma_joined_written(listed.docs, Doc::Text(", "@), answers);
            },
            BinderKind::Typed { binder, annotation } => {
                let typed = self.pattern(state, binder, scope, inner);
                let place = typed.state.requests.len() as int;
                if place < answers.len() {
                    assert(written(laid.doc, answers) =~= enclosed(
                        written(typed.doc, answers) + " :: "@ + answers[place],
                    ));
                }
            },
            _ => {},
        }
    }
}

} // verus!
