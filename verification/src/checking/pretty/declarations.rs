//! The layout of declarations.

use super::super::evidence::Evidence;
use super::super::state::last_text;
use super::super::tree::{
    limit, ClassDeclaration, ClassMember, ClassSuperclass, DataDeclaration, DeclarationAbstraction,
    InstanceDeclaration, InstanceEvidence, InstanceImplementation, InstanceMember,
    InstanceSuperclass, TermDeclarationId, TermDeclarationKind, ValueDeclaration,
};
use super::super::types::{FileId, ForallBinderId, Type, TypeId};
use super::evidence::{
    members_of, members_reserved, reserve_members, EvidenceNames, Printed, Printing,
};
use super::expressions::{surrounded, with_suffix, RigidName};
use super::layout::{
    breakable_continuation, join, joined, models, stacked, text, Doc, Layout, Separator,
};
use super::names::{display_name, PrettyNames};
use super::patterns::{answered, Laid, Listed};
use super::printer::{Printer, TypeRequest};
use crate::indexing::items::{TermItemId, TypeItemId};
use crate::indexing::laws::{children_of, has_constructors};
use vstd::prelude::*;

verus! {

// Parameters

/// A parameter of a type with the request that is answered by its name.
#[derive(Clone, Copy, Debug, PartialEq, Eq, Structural)]
pub struct ParameterName {
    pub display: usize,
    pub visible: bool,
}

/// Parameters with the state behind them.
pub struct Parameters {
    pub state: Printed,
    pub names: Seq<ParameterName>,
}

/// A document with parameters behind it. Where they are declared, visible ones are
/// marked.
pub open spec fn with_parameters(head: Doc, names: Seq<ParameterName>, declared: bool) -> Doc
    decreases names.len(),
{
    if names.len() == 0 {
        head
    } else {
        let name = names.last();
        with_parameters(head, names.drop_last(), declared).append(
            Doc::Text(
                if declared && name.visible {
                    " @"@
                } else {
                    " "@
                },
            ).append(Doc::Answer(name.display as nat)),
        )
    }
}

fn layout_parameters(head: Layout, names: &Vec<ParameterName>, declared: bool) -> (layout: Layout)
    ensures
        layout@ == with_parameters(head@, names@, declared),
{
    let mut layout = head;
    let mut index: usize = 0;
    assert(names@.take(0) =~= Seq::empty());
    while index < names.len()
        invariant
            index <= names.len(),
            layout@ == with_parameters(head@, names@.take(index as int), declared),
        decreases names.len() - index,
    {
        assert(names@.take(index + 1).drop_last() =~= names@.take(index as int));
        let name = names[index];
        let space = if declared && name.visible {
            text(" @")
        } else {
            text(" ")
        };
        layout = layout.append(space.append(Layout::Answer(name.display)));
        index += 1;
    }
    assert(names@.take(index as int) =~= names@);
    layout
}

/// The type stands in parentheses as the argument of a function.
pub open spec fn is_enclosed(t: Option<Type>) -> bool {
    match t {
        Some(Type::Forall(..)) => true,
        Some(Type::Constrained(..)) => true,
        Some(Type::Function(..)) => true,
        Some(Type::Kinded(..)) => true,
        _ => false,
    }
}

/// A constructor with its type.
pub open spec fn constructor_doc(name: Seq<char>, signature: Doc) -> Doc {
    Doc::Text("  | "@ + name + " ::"@).append(Doc::Line.append(signature).nest(4)).group()
}

impl<'a> Printer<'a> {
    /// The names of the first parameters.
    pub open spec fn parameters_named(
        self,
        state: Printed,
        scope: usize,
        binders: Seq<ForallBinderId>,
        count: nat,
    ) -> Parameters
        decreases count,
    {
        if count == 0 || count > binders.len() {
            Parameters { state, names: Seq::empty() }
        } else {
            let before = self.parameters_named(state, scope, binders, (count - 1) as nat);
            let id = binders[count - 1];
            if id.raw < self.types@.binders.len() {
                let binder = self.types@.binders[id.raw as int];
                Parameters {
                    state: before.state.asked(
                        TypeRequest::DisplayName { scope, name: binder.name },
                    ),
                    names: before.names.push(
                        ParameterName {
                            display: before.state.requests.len() as usize,
                            visible: binder.visible,
                        },
                    ),
                }
            } else {
                before
            }
        }
    }

    fn name_parameters(
        &self,
        printing: &mut Printing,
        scope: usize,
        binders: &Vec<ForallBinderId>,
    ) -> (names: Vec<ParameterName>)
        ensures
            (Parameters { state: final(printing)@, names: names@ }) == self.parameters_named(
                old(printing)@,
                scope,
                binders@,
                binders@.len(),
            ),
    {
        let mut names: Vec<ParameterName> = Vec::new();
        let mut index: usize = 0;
        while index < binders.len()
            invariant
                index <= binders.len(),
                (Parameters { state: printing@, names: names@ }) == self.parameters_named(
                    old(printing)@,
                    scope,
                    binders@,
                    index as nat,
                ),
            decreases binders.len() - index,
        {
            let id = binders[index];
            if self.types.holds_binder(id) {
                let binder = self.types.lookup_forall_binder(id);
                let display: usize = printing.ask(
                    TypeRequest::DisplayName { scope, name: binder.name },
                );
                names.push(ParameterName { display, visible: binder.visible });
            }
            index += 1;
        }
        names
    }

    // Data

    /// The type of a constructor; the last arguments are asked for first.
    pub open spec fn signature_laid(
        self,
        state: Printed,
        scope: usize,
        arguments: Seq<TypeId>,
        result: Doc,
    ) -> Laid
        decreases arguments.len(),
    {
        if arguments.len() == 0 {
            Laid { state, doc: result }
        } else {
            let argument = arguments.last();
            let doc = if is_enclosed(self.type_of(argument)) {
                answered(state).parenthesized()
            } else {
                answered(state)
            };
            self.signature_laid(
                state.asked(TypeRequest::Render { scope, type_id: argument }),
                scope,
                arguments.drop_last(),
                doc.then_text(" ->"@).append(result.behind()).group(),
            )
        }
    }

    fn constructor_signature(
        &self,
        printing: &mut Printing,
        scope: usize,
        arguments: &Vec<TypeId>,
        result: Layout,
    ) -> (layout: Layout)
        ensures
            (Laid { state: final(printing)@, doc: layout@ }) == self.signature_laid(
                old(printing)@,
                scope,
                arguments@,
                result@,
            ),
    {
        let mut layout = result;
        let mut index: usize = arguments.len();
        assert(arguments@.take(index as int) =~= arguments@);
        while index > 0
            invariant
                index <= arguments.len(),
                self.signature_laid(printing@, scope, arguments@.take(index as int), layout@)
                    == self.signature_laid(old(printing)@, scope, arguments@, result@),
            decreases index,
        {
            index -= 1;
            assert(arguments@.take(index + 1).drop_last() =~= arguments@.take(index as int));
            let argument = arguments[index];
            let answer: usize = printing.ask(TypeRequest::Render { scope, type_id: argument });
            let enclosed = match self.lookup_type(argument) {
                Some(Type::Forall(..)) => true,
                Some(Type::Constrained(..)) => true,
                Some(Type::Function(..)) => true,
                Some(Type::Kinded(..)) => true,
                _ => false,
            };
            let shown = if enclosed {
                Layout::Answer(answer).parenthesized()
            } else {
                Layout::Answer(answer)
            };
            layout = shown.then_text(" ->").append(layout.behind()).group();
        }
        layout
    }

    /// The first constructors, as far as they have a name.
    pub open spec fn constructors_listed(
        self,
        state: Printed,
        declarations: Seq<TermDeclarationId>,
        items: Seq<TermItemId>,
        result: Doc,
        scope: usize,
        count: nat,
    ) -> Listed
        decreases count,
    {
        if count == 0 || count > declarations.len() || count > items.len() {
            Listed { state, docs: Seq::empty() }
        } else {
            let before = self.constructors_listed(
                state,
                declarations,
                items,
                result,
                scope,
                (count - 1) as nat,
            );
            let name = self.term_text(self.file, items[count - 1]);
            let declaration = self.own.checked.tree@.term_at(declarations[count - 1]);
            match (name, declaration) {
                (Some(name), Some(declaration)) => match declaration.kind {
                    TermDeclarationKind::Constructor(constructor) => {
                        let laid = self.signature_laid(
                            before.state,
                            scope,
                            constructor.arguments@,
                            result,
                        );
                        Listed {
                            state: laid.state,
                            docs: before.docs.push(constructor_doc(name, laid.doc)),
                        }
                    },
                    _ => before,
                },
                _ => before,
            }
        }
    }

    /// The constructors of a type's item.
    pub open spec fn constructor_items(self, item: TypeItemId) -> Seq<TermItemId> {
        let types = self.own.indexed@.items.types;
        if item.raw < types.len() && has_constructors(types[item.raw as int].kind) {
            children_of(types[item.raw as int].kind)
        } else {
            Seq::empty()
        }
    }

    /// A data type: its head, and its constructors below.
    pub open spec fn data_laid(
        self,
        state: Printed,
        item: TypeItemId,
        keyword: Seq<char>,
        name: Seq<char>,
        data: DataDeclaration,
        scope: usize,
    ) -> Laid {
        let parameters = self.parameters_named(
            state,
            scope,
            data.parameters@,
            data.parameters@.len(),
        );
        let items = self.constructor_items(item);
        let count = if items.len() < data.constructors@.len() {
            items.len()
        } else {
            data.constructors@.len()
        };
        let constructors = self.constructors_listed(
            parameters.state,
            data.constructors@,
            items,
            with_parameters(Doc::Text(self.local_type_text(name)), parameters.names, false),
            scope,
            count,
        );
        let head = with_parameters(
            Doc::Text(keyword + " "@ + name),
            parameters.names,
            true,
        );
        Laid { state: constructors.state, doc: stacked(seq![head] + constructors.docs) }
    }

    /// A data type: its head, and its constructors below.
    pub fn data_declaration(
        &self,
        printing: &mut Printing,
        item: TypeItemId,
        keyword: &str,
        name: &str,
        data: &DataDeclaration,
        scope: usize,
    ) -> (layout: Layout)
        ensures
            (Laid { state: final(printing)@, doc: layout@ }) == self.data_laid(
                old(printing)@,
                item,
                keyword@,
                name@,
                *data,
                scope,
            ),
    {
        let parameters = self.name_parameters(printing, scope, &data.parameters);
        let items = if (item.raw as usize) < self.own.indexed.items.types.len() {
            self.own.indexed.data_constructors(item)
        } else {
            Vec::new()
        };
        assert(items@ =~= self.constructor_items(item));
        let ghost begun = printing@;
        let ghost result = with_parameters(
            Doc::Text(self.local_type_text(name@)),
            parameters@,
            false,
        );
        let declarations = &data.constructors;
        let count: usize = if items.len() < declarations.len() {
            items.len()
        } else {
            declarations.len()
        };
        let head = layout_parameters(surrounded(keyword, " ", name), &parameters, true);
        let mut layouts: Vec<Layout> = Vec::new();
        layouts.push(head);
        let mut index: usize = 0;
        assert(models(layouts@) =~= seq![head@] + Seq::<Doc>::empty());
        while index < count
            invariant
                index <= count,
                count <= items.len(),
                count <= declarations.len(),
                result == with_parameters(
                    Doc::Text(self.local_type_text(name@)),
                    parameters@,
                    false,
                ),
                printing@ == self.constructors_listed(
                    begun,
                    declarations@,
                    items@,
                    result,
                    scope,
                    index as nat,
                ).state,
                models(layouts@) == seq![head@] + self.constructors_listed(
                    begun,
                    declarations@,
                    items@,
                    result,
                    scope,
                    index as nat,
                ).docs,
            decreases count - index,
        {
            let ghost before = models(layouts@);
            let ghost listed = self.constructors_listed(
                begun,
                declarations@,
                items@,
                result,
                scope,
                index as nat,
            ).docs;
            let constructor_name = self.term_name(self.file, items[index]);
            let declaration = self.own.checked.tree.find_term(declarations[index]);
            if let (Some(constructor_name), Some(declaration)) = (constructor_name, declaration) {
                if let TermDeclarationKind::Constructor(constructor) = &declaration.kind {
                    let shown = layout_parameters(
                        Layout::Text(self.display_local_type_name(name)),
                        &parameters,
                        false,
                    );
                    let signature = self.constructor_signature(
                        printing,
                        scope,
                        &constructor.arguments,
                        shown,
                    );
                    let layout = surrounded("  | ", constructor_name.as_str(), " ::").append(
                        Layout::Line.append(signature).nest(4),
                    ).group();
                    layouts.push(layout);
                    assert(models(layouts@) =~= before.push(layout@));
                    assert(models(layouts@) =~= seq![head@] + listed.push(layout@));
                }
            }
            index += 1;
        }
        join(layouts, Separator::Hardline)
    }

    // Classes

    /// The first superclasses of a class with their names as fields.
    pub open spec fn superclasses_listed(
        self,
        state: Printed,
        superclasses: Seq<ClassSuperclass>,
        used: Set<Seq<char>>,
        count: nat,
    ) -> (Listed, Set<Seq<char>>)
        decreases count,
    {
        if count == 0 || count > superclasses.len() {
            (Listed { state, docs: Seq::empty() }, used)
        } else {
            let (before, taken) = self.superclasses_listed(
                state,
                superclasses,
                used,
                (count - 1) as nat,
            );
            let constraint = superclasses[count - 1].constraint;
            let name = display_name(taken, self.evidence_base(constraint));
            (
                Listed {
                    state: before.state.asked(
                        TypeRequest::RenderAlone { signature: false, type_id: constraint },
                    ),
                    docs: before.docs.push(
                        Doc::Text("  superclass "@ + name + " :: "@).append(
                            answered(before.state),
                        ),
                    ),
                },
                taken.insert(name),
            )
        }
    }

    fn layout_superclasses(
        &self,
        printing: &mut Printing,
        superclasses: &Vec<ClassSuperclass>,
        names: &mut PrettyNames,
    ) -> (layouts: Vec<Layout>)
        ensures
            (
                Listed { state: final(printing)@, docs: models(layouts@) },
                final(names)@,
            ) == self.superclasses_listed(
                old(printing)@,
                superclasses@,
                old(names)@,
                superclasses@.len(),
            ),
    {
        let mut layouts: Vec<Layout> = Vec::new();
        let mut index: usize = 0;
        assert(models(layouts@) =~= Seq::empty());
        while index < superclasses.len()
            invariant
                index <= superclasses.len(),
                (Listed { state: printing@, docs: models(layouts@) }, names@)
                    == self.superclasses_listed(
                    old(printing)@,
                    superclasses@,
                    old(names)@,
                    index as nat,
                ),
            decreases superclasses.len() - index,
        {
            let ghost before = models(layouts@);
            let constraint = superclasses[index].constraint;
            let base = self.evidence_base_name(constraint);
            let name = names.allocate_display_name(base);
            let answer: usize = printing.ask(
                TypeRequest::RenderAlone { signature: false, type_id: constraint },
            );
            let layout = surrounded("  superclass ", name.as_str(), " :: ").append(
                Layout::Answer(answer),
            );
            layouts.push(layout);
            assert(models(layouts@) =~= before.push(layout@));
            index += 1;
        }
        layouts
    }

    /// The first members of a class, as far as they have a name.
    pub open spec fn members_listed(
        self,
        state: Printed,
        members: Seq<ClassMember>,
        count: nat,
    ) -> Listed
        decreases count,
    {
        if count == 0 || count > members.len() {
            Listed { state, docs: Seq::empty() }
        } else {
            let before = self.members_listed(state, members, (count - 1) as nat);
            let member = members[count - 1];
            match self.term_text(self.file, member.source) {
                Some(name) => Listed {
                    state: before.state.asked(
                        TypeRequest::RenderAlone { signature: false, type_id: member.field_type },
                    ),
                    docs: before.docs.push(
                        Doc::Text("  "@ + name + " :: "@).append(answered(before.state)),
                    ),
                },
                None => before,
            }
        }
    }

    fn layout_members(&self, printing: &mut Printing, members: &Vec<ClassMember>) -> (layouts: Vec<
        Layout,
    >)
        ensures
            (Listed { state: final(printing)@, docs: models(layouts@) }) == self.members_listed(
                old(printing)@,
                members@,
                members@.len(),
            ),
    {
        let mut layouts: Vec<Layout> = Vec::new();
        let mut index: usize = 0;
        assert(models(layouts@) =~= Seq::empty());
        while index < members.len()
            invariant
                index <= members.len(),
                (Listed { state: printing@, docs: models(layouts@) }) == self.members_listed(
                    old(printing)@,
                    members@,
                    index as nat,
                ),
            decreases members.len() - index,
        {
            let ghost before = models(layouts@);
            let member = members[index];
            if let Some(name) = self.term_name(self.file, member.source) {
                let answer: usize = printing.ask(
                    TypeRequest::RenderAlone { signature: false, type_id: member.field_type },
                );
                let layout = surrounded("  ", name.as_str(), " :: ").append(
                    Layout::Answer(answer),
                );
                layouts.push(layout);
                assert(models(layouts@) =~= before.push(layout@));
            }
            index += 1;
        }
        layouts
    }

    /// A class: its head, its superclasses and its members.
    pub open spec fn class_laid(
        self,
        state: Printed,
        item: TypeItemId,
        name: Seq<char>,
        class: ClassDeclaration,
        scope: usize,
    ) -> Laid {
        let kinds = self.parameters_named(
            state,
            scope,
            class.kind_binders@,
            class.kind_binders@.len(),
        );
        let parameters = self.parameters_named(
            kinds.state,
            scope,
            class.type_parameters@,
            class.type_parameters@.len(),
        );
        let head = with_parameters(
            Doc::Text("interface "@ + name),
            parameters.names,
            false,
        ).then_text(" where"@);
        let superclasses = self.superclasses_listed(
            parameters.state,
            class.superclasses@,
            members_reserved(*self.own, members_of(*self.own, item)),
            class.superclasses@.len(),
        ).0;
        let members = self.members_listed(
            superclasses.state,
            class.members@,
            class.members@.len(),
        );
        Laid {
            state: members.state,
            doc: stacked(seq![head] + superclasses.docs + members.docs),
        }
    }

    /// A class: its head, its superclasses and its members.
    pub fn class_declaration(
        &self,
        printing: &mut Printing,
        item: TypeItemId,
        name: &str,
        class: &ClassDeclaration,
        scope: usize,
    ) -> (layout: Layout)
        ensures
            (Laid { state: final(printing)@, doc: layout@ }) == self.class_laid(
                old(printing)@,
                item,
                name@,
                *class,
                scope,
            ),
    {
        let _ = self.name_parameters(printing, scope, &class.kind_binders);
        let parameters = self.name_parameters(printing, scope, &class.type_parameters);
        let head = layout_parameters(with_suffix("interface ", name), &parameters, false).then_text(
            " where",
        );
        let mut names = reserve_members(self.own, item);
        let mut superclasses = self.layout_superclasses(printing, &class.superclasses, &mut names);
        let mut members = self.layout_members(printing, &class.members);
        let ghost first = models(superclasses@);
        let ghost second = models(members@);
        let mut layouts: Vec<Layout> = Vec::new();
        layouts.push(head);
        layouts.append(&mut superclasses);
        layouts.append(&mut members);
        assert(models(layouts@) =~= seq![head@] + first + second);
        join(layouts, Separator::Hardline)
    }

    // Values

    /// How deep declarations are looked into: as deep as they can be without a
    /// circle.
    pub open spec fn tree_depth(self) -> nat {
        let tree = self.own.checked.tree@;
        limit(tree.expressions.len(), tree.local_declarations.len())
    }

    /// A value: its signature, and its equations below. Without equations there is
    /// nothing to show.
    pub open spec fn value_laid(
        self,
        state: Printed,
        name: Seq<char>,
        type_id: TypeId,
        value: ValueDeclaration,
    ) -> (Printed, Option<Doc>) {
        let abstractions = value.abstractions@;
        let own = state.requests.len() as usize;
        let begun = state.asked(TypeRequest::Begin { signature: true });
        let rigids = self.rigids_named(
            begun.asked(TypeRequest::Render { scope: own, type_id }),
            own,
            abstractions,
            abstractions.len(),
        );
        let named = self.evidence_begun(
            rigids.state.without_evidence(),
            abstractions,
            abstractions.len(),
        );
        let scope = named.requests.len() as usize;
        let assigned = self.rigids_assigned(
            named.asked(TypeRequest::Begin { signature: false }),
            scope,
            rigids.names,
            rigids.names.len(),
        );
        let equations = self.equations_listed(
            assigned,
            name,
            false,
            abstractions,
            value.equations@,
            value.equations@.len(),
            scope,
            self.tree_depth(),
        );
        (
            equations.state,
            if equations.docs.len() == 0 {
                None
            } else {
                Some(
                    Doc::Text(name + " :: "@).append(answered(begun)).append(
                        Doc::Hardline,
                    ).append(stacked(equations.docs)),
                )
            },
        )
    }

    /// A value: its signature, and its equations below.
    pub fn value_declaration(
        &self,
        printing: &mut Printing,
        name: &str,
        type_id: TypeId,
        value: &ValueDeclaration,
    ) -> (layout: Option<Layout>)
        requires
            self.wf(),
        ensures
            (final(printing)@, optional_doc(layout)) == self.value_laid(
                old(printing)@,
                name@,
                type_id,
                *value,
            ),
    {
        let own: usize = printing.ask(TypeRequest::Begin { signature: true });
        let answer: usize = printing.ask(TypeRequest::Render { scope: own, type_id });
        let rigids = self.declaration_rigid_names(printing, own, &value.abstractions);
        printing.evidence = EvidenceNames::new();
        self.name_evidence(printing, &value.abstractions);
        let scope: usize = printing.ask(TypeRequest::Begin { signature: false });
        self.assign_rigid_names(printing, scope, &rigids);
        let equations = self.equation_declarations(
            printing,
            name,
            false,
            &value.abstractions,
            &value.equations,
            scope,
            self.own.checked.tree.size(),
        );
        if equations.len() == 0 {
            return None;
        }
        let signature = with_suffix(name, " :: ").append(Layout::Answer(answer));
        Some(signature.append(Layout::Hardline).append(join(equations, Separator::Hardline)))
    }

    // Instances

    /// The variables that the type is quantified over.
    pub open spec fn quantified(self, id: TypeId) -> Seq<ForallBinderId>
        decreases id.raw,
    {
        match self.type_of(id) {
            Some(Type::Forall(binder, inner)) if inner.raw < id.raw => seq![binder]
                + self.quantified(inner),
            _ => Seq::empty(),
        }
    }

    /// The type under its quantifiers.
    pub open spec fn unquantified(self, id: TypeId) -> TypeId
        decreases id.raw,
    {
        match self.type_of(id) {
            Some(Type::Forall(_, inner)) if inner.raw < id.raw => self.unquantified(inner),
            _ => id,
        }
    }

    /// The type under its constraints.
    pub open spec fn unconstrained(self, id: TypeId) -> TypeId
        decreases id.raw,
    {
        match self.type_of(id) {
            Some(Type::Constrained(_, inner)) if inner.raw < id.raw => self.unconstrained(inner),
            _ => id,
        }
    }

    fn strip_quantifiers(&self, id: TypeId) -> (stripped: (Vec<ForallBinderId>, TypeId))
        ensures
            stripped.0@ == self.quantified(id),
            stripped.1 == self.unquantified(id),
    {
        let mut binders: Vec<ForallBinderId> = Vec::new();
        let mut current = id;
        loop
            invariant
                self.quantified(id) == binders@ + self.quantified(current),
                self.unquantified(id) == self.unquantified(current),
            decreases current.raw,
        {
            match self.lookup_type(current) {
                Some(Type::Forall(binder, inner)) if inner.raw < current.raw => {
                    assert(binders@ + (seq![binder] + self.quantified(inner)) =~= binders@.push(
                        binder,
                    ) + self.quantified(inner));
                    binders.push(binder);
                    current = inner;
                },
                _ => {
                    assert(binders@ + Seq::<ForallBinderId>::empty() =~= binders@);
                    return (binders, current);
                },
            }
        }
    }

    fn strip_constraints(&self, id: TypeId) -> (stripped: TypeId)
        ensures
            stripped == self.unconstrained(id),
    {
        let mut current = id;
        loop
            invariant
                self.unconstrained(id) == self.unconstrained(current),
            decreases current.raw,
        {
            match self.lookup_type(current) {
                Some(Type::Constrained(_, inner)) if inner.raw < current.raw => {
                    current = inner;
                },
                _ => {
                    return current;
                },
            }
        }
    }

    /// The given evidence among the first has names.
    pub open spec fn givens_begun(
        self,
        state: Printed,
        evidences: Seq<InstanceEvidence>,
        count: nat,
    ) -> Printed
        decreases count,
    {
        if count == 0 || count > evidences.len() {
            state
        } else {
            let before = self.givens_begun(state, evidences, (count - 1) as nat);
            match evidences[count - 1].evidence {
                Evidence::Given(binder) => self.binder_named(before, binder).state,
                _ => before,
            }
        }
    }

    fn name_givens(&self, printing: &mut Printing, evidences: &Vec<InstanceEvidence>)
        ensures
            final(printing)@ == self.givens_begun(
                old(printing)@,
                evidences@,
                evidences@.len(),
            ),
    {
        let mut index: usize = 0;
        while index < evidences.len()
            invariant
                index <= evidences.len(),
                printing@ == self.givens_begun(old(printing)@, evidences@, index as nat),
            decreases evidences.len() - index,
        {
            if let Evidence::Given(binder) = &evidences[index].evidence {
                let _ = self.evidence_binder_name(printing, *binder);
            }
            index += 1;
        }
    }

    /// The first pieces of evidence with their constraints.
    pub open spec fn evidences_listed(
        self,
        state: Printed,
        evidences: Seq<InstanceEvidence>,
        scope: usize,
        count: nat,
    ) -> Listed
        decreases count,
    {
        if count == 0 || count > evidences.len() {
            Listed { state, docs: Seq::empty() }
        } else {
            let before = self.evidences_listed(state, evidences, scope, (count - 1) as nat);
            let evidence = evidences[count - 1];
            let named = self.evidence_named(before.state, evidence.evidence);
            Listed {
                state: named.state.asked(
                    TypeRequest::Render { scope, type_id: evidence.constraint },
                ),
                docs: before.docs.push(
                    Doc::Text("{ "@ + named.text + " :: "@).append(
                        answered(named.state),
                    ).then_text(" } =>"@),
                ),
            }
        }
    }

    fn layout_evidences(
        &self,
        printing: &mut Printing,
        evidences: &Vec<InstanceEvidence>,
        scope: usize,
    ) -> (layouts: Vec<Layout>)
        requires
            self.wf(),
        ensures
            (Listed { state: final(printing)@, docs: models(layouts@) }) == self.evidences_listed(
                old(printing)@,
                evidences@,
                scope,
                evidences@.len(),
            ),
    {
        let mut layouts: Vec<Layout> = Vec::new();
        let mut index: usize = 0;
        assert(models(layouts@) =~= Seq::empty());
        while index < evidences.len()
            invariant
                self.wf(),
                index <= evidences.len(),
                (Listed { state: printing@, docs: models(layouts@) }) == self.evidences_listed(
                    old(printing)@,
                    evidences@,
                    scope,
                    index as nat,
                ),
            decreases evidences.len() - index,
        {
            let ghost before = models(layouts@);
            let evidence = &evidences[index];
            let name = self.evidence_name(printing, &evidence.evidence);
            let answer: usize = printing.ask(
                TypeRequest::Render { scope, type_id: evidence.constraint },
            );
            let layout = surrounded("{ ", name.as_str(), " :: ").append(
                Layout::Answer(answer),
            ).then_text(" } =>");
            layouts.push(layout);
            assert(models(layouts@) =~= before.push(layout@));
            index += 1;
        }
        layouts
    }

    /// The head of an instance, with the names of the instance's type variables.
    pub open spec fn dictionary_laid(
        self,
        state: Printed,
        name: Seq<char>,
        type_id: TypeId,
        instance: InstanceDeclaration,
    ) -> (Laid, Seq<RigidName>) {
        let scope = state.requests.len() as usize;
        let binders = self.quantified(type_id);
        let parameters = self.parameters_named(
            state.asked(TypeRequest::Begin { signature: false }),
            scope,
            binders,
            binders.len(),
        );
        let evidences = self.evidences_listed(
            parameters.state,
            instance.evidences@,
            scope,
            instance.evidences@.len(),
        );
        let head = self.unconstrained(self.unquantified(type_id));
        let lines = quantifier_docs(parameters.names) + evidences.docs.push(
            answered(evidences.state),
        );
        (
            Laid {
                state: evidences.state.asked(TypeRequest::Render { scope, type_id: head }),
                doc: Doc::Text("dictionary "@ + name + " ::"@).continued(
                    joined(lines, Doc::Line),
                ),
            },
            paired(instance.rigid_parameters@, parameters.names),
        )
    }

    /// The head of an instance, with the names of the instance's type variables.
    pub fn dictionary_signature(
        &self,
        printing: &mut Printing,
        name: &str,
        type_id: TypeId,
        instance: &InstanceDeclaration,
    ) -> (signature: (Layout, Vec<RigidName>))
        requires
            self.wf(),
        ensures
            (
                Laid { state: final(printing)@, doc: signature.0@ },
                signature.1@,
            ) == self.dictionary_laid(old(printing)@, name@, type_id, *instance),
    {
        let (binders, inner) = self.strip_quantifiers(type_id);
        let head = self.strip_constraints(inner);
        let scope: usize = printing.ask(TypeRequest::Begin { signature: false });
        let parameters = self.name_parameters(printing, scope, &binders);
        let rigids = pair(&instance.rigid_parameters, &parameters);
        let mut lines = layout_quantifier(&parameters);
        let ghost quantifier = models(lines@);
        let mut evidences = self.layout_evidences(printing, &instance.evidences, scope);
        let ghost listed = models(evidences@);
        let answer: usize = printing.ask(TypeRequest::Render { scope, type_id: head });
        lines.append(&mut evidences);
        lines.push(Layout::Answer(answer));
        assert(models(lines@) =~= quantifier + listed.push(Doc::Answer(answer as nat)));
        let layout = breakable_continuation(
            surrounded("dictionary ", name, " ::"),
            join(lines, Separator::Line),
        );
        (layout, rigids)
    }

    /// The names of the first superclasses as fields of an instance, and the names
    /// that are in use then.
    pub open spec fn instance_fields(
        self,
        superclasses: Seq<InstanceSuperclass>,
        used: Set<Seq<char>>,
        count: nat,
    ) -> (Seq<Seq<char>>, Set<Seq<char>>)
        decreases count,
    {
        if count == 0 || count > superclasses.len() {
            (Seq::empty(), used)
        } else {
            let (before, taken) = self.instance_fields(superclasses, used, (count - 1) as nat);
            let name = display_name(
                taken,
                self.evidence_base(superclasses[count - 1].constraint),
            );
            (before.push(name), taken.insert(name))
        }
    }

    /// The names that the members of a class have.
    pub open spec fn class_names(self, class: (FileId, TypeItemId)) -> Set<Seq<char>> {
        match self.module_of(class.0) {
            Some(module) => members_reserved(module, members_of(module, class.1)),
            None => Set::empty(),
        }
    }

    /// The names of the superclasses as fields of an instance.
    pub fn instance_superclass_field_names(&self, instance: &InstanceDeclaration) -> (names: Vec<
        String,
    >)
        ensures
            name_texts(names@) == self.instance_fields(
                instance.superclasses@,
                self.class_names(instance.class),
                instance.superclasses@.len(),
            ).0,
    {
        let mut used = match self.module_data(instance.class.0) {
            Some(module) => reserve_members(module, instance.class.1),
            None => PrettyNames::new(),
        };
        let superclasses = &instance.superclasses;
        let mut names: Vec<String> = Vec::new();
        let mut index: usize = 0;
        assert(name_texts(names@) =~= Seq::empty());
        while index < superclasses.len()
            invariant
                *superclasses == instance.superclasses,
                index <= superclasses.len(),
                (name_texts(names@), used@) == self.instance_fields(
                    superclasses@,
                    self.class_names(instance.class),
                    index as nat,
                ),
            decreases superclasses.len() - index,
        {
            let ghost before = name_texts(names@);
            let base = self.evidence_base_name(superclasses[index].constraint);
            let name = used.allocate_display_name(base);
            let ghost text = name@;
            names.push(name);
            assert(name_texts(names@) =~= before.push(text));
            index += 1;
        }
        names
    }

    /// The evidence of the first superclasses, each under its name.
    pub open spec fn supers_listed(
        self,
        state: Printed,
        superclasses: Seq<InstanceSuperclass>,
        names: Seq<Seq<char>>,
        count: nat,
    ) -> Listed
        decreases count,
    {
        if count == 0 || count > superclasses.len() || count > names.len() {
            Listed { state, docs: Seq::empty() }
        } else {
            let before = self.supers_listed(state, superclasses, names, (count - 1) as nat);
            let named = self.evidence_named(
                before.state,
                Evidence::Variable(superclasses[count - 1].evidence),
            );
            Listed {
                state: named.state,
                docs: before.docs.push(
                    Doc::Text("  superclass "@ + names[count - 1] + " = "@ + named.text),
                ),
            }
        }
    }

    fn layout_supers(&self, printing: &mut Printing, instance: &InstanceDeclaration) -> (layouts:
        Vec<Layout>)
        requires
            self.wf(),
        ensures
            (Listed { state: final(printing)@, docs: models(layouts@) }) == self.supers_listed(
                old(printing)@,
                instance.superclasses@,
                self.instance_fields(
                    instance.superclasses@,
                    self.class_names(instance.class),
                    instance.superclasses@.len(),
                ).0,
                instance.superclasses@.len(),
            ),
    {
        let names = self.instance_superclass_field_names(instance);
        let superclasses = &instance.superclasses;
        let ghost fields = name_texts(names@);
        proof {
            self.lemma_instance_fields(
                superclasses@,
                self.class_names(instance.class),
                superclasses@.len(),
            );
        }
        let mut layouts: Vec<Layout> = Vec::new();
        let mut index: usize = 0;
        assert(models(layouts@) =~= Seq::empty());
        while index < superclasses.len()
            invariant
                self.wf(),
                index <= superclasses.len(),
                names.len() == superclasses.len(),
                fields == name_texts(names@),
                (Listed { state: printing@, docs: models(layouts@) }) == self.supers_listed(
                    old(printing)@,
                    superclasses@,
                    fields,
                    index as nat,
                ),
            decreases superclasses.len() - index,
        {
            let ghost before = models(layouts@);
            let evidence = self.evidence_variable_name(printing, superclasses[index].evidence);
            let mut line = "  superclass ".to_owned();
            line.append(names[index].as_str());
            line.append(" = ");
            line.append(evidence.as_str());
            let layout = Layout::Text(line);
            layouts.push(layout);
            assert(models(layouts@) =~= before.push(layout@));
            index += 1;
        }
        layouts
    }

    /// Each superclass has a name.
    proof fn lemma_instance_fields(
        self,
        superclasses: Seq<InstanceSuperclass>,
        used: Set<Seq<char>>,
        count: nat,
    )
        requires
            count <= superclasses.len(),
        ensures
            self.instance_fields(superclasses, used, count).0.len() == count,
        decreases count,
    {
        if count > 0 {
            self.lemma_instance_fields(superclasses, used, (count - 1) as nat);
        }
    }

    /// The first type variables of a member keep their names, as far as those are
    /// known in the file of the member.
    pub open spec fn variables_allocated(
        self,
        state: Printed,
        scope: usize,
        file: FileId,
        abstractions: Seq<DeclarationAbstraction>,
        count: nat,
    ) -> Printed
        decreases count,
    {
        if count == 0 || count > abstractions.len() {
            state
        } else {
            let before = self.variables_allocated(
                state,
                scope,
                file,
                abstractions,
                (count - 1) as nat,
            );
            match (abstractions[count - 1], self.module_of(file)) {
                (DeclarationAbstraction::Type { binder, .. }, Some(module)) if binder.raw
                    < self.types@.binders.len() => {
                    let name = self.types@.binders[binder.raw as int].name;
                    match last_text(module.checked.names@, name) {
                        Some(text) => before.asked(TypeRequest::Allocate { scope, name, text }),
                        None => before,
                    }
                },
                _ => before,
            }
        }
    }

    fn allocate_variables(
        &self,
        printing: &mut Printing,
        scope: usize,
        file: FileId,
        abstractions: &Vec<DeclarationAbstraction>,
    )
        ensures
            final(printing)@ == self.variables_allocated(
                old(printing)@,
                scope,
                file,
                abstractions@,
                abstractions@.len(),
            ),
    {
        let mut index: usize = 0;
        while index < abstractions.len()
            invariant
                index <= abstractions.len(),
                printing@ == self.variables_allocated(
                    old(printing)@,
                    scope,
                    file,
                    abstractions@,
                    index as nat,
                ),
            decreases abstractions.len() - index,
        {
            if let DeclarationAbstraction::Type { binder, .. } = abstractions[index] {
                if let Some(module) = self.module_data(file) {
                    if self.types.holds_binder(binder) {
                        let name = self.types.lookup_forall_binder(binder).name;
                        if let Some(text) = module.checked.names.lookup(name) {
                            printing.ask(TypeRequest::Allocate { scope, name, text });
                        }
                    }
                }
            }
            index += 1;
        }
    }

    /// The signature of an instance's member, with the names of the member's own
    /// type variables.
    pub open spec fn member_signed(
        self,
        state: Printed,
        member: InstanceMember,
        name: Seq<char>,
        rigids: Seq<RigidName>,
    ) -> (Laid, Seq<RigidName>) {
        let scope = state.requests.len() as usize;
        let assigned = self.rigids_assigned(
            state.asked(TypeRequest::Begin { signature: false }),
            scope,
            rigids,
            rigids.len(),
        );
        let allocated = self.variables_allocated(
            assigned,
            scope,
            member.resolution.0,
            member.abstractions@,
            member.abstractions@.len(),
        );
        let named = self.rigids_named(
            allocated.asked(TypeRequest::Render { scope, type_id: member.implementation_type }),
            scope,
            member.abstractions@,
            member.abstractions@.len(),
        );
        (
            Laid {
                state: named.state,
                doc: Doc::Text("  "@ + name + " :: "@).append(answered(allocated)),
            },
            named.names,
        )
    }

    /// The signature of an instance's member, with the names of the member's own
    /// type variables.
    pub fn instance_member_signature(
        &self,
        printing: &mut Printing,
        member: &InstanceMember,
        name: &str,
        rigids: &Vec<RigidName>,
    ) -> (signature: (Layout, Vec<RigidName>))
        ensures
            (
                Laid { state: final(printing)@, doc: signature.0@ },
                signature.1@,
            ) == self.member_signed(old(printing)@, *member, name@, rigids@),
    {
        let scope: usize = printing.ask(TypeRequest::Begin { signature: false });
        self.assign_rigid_names(printing, scope, rigids);
        self.allocate_variables(printing, scope, member.resolution.0, &member.abstractions);
        let answer: usize = printing.ask(
            TypeRequest::Render { scope, type_id: member.implementation_type },
        );
        let names = self.declaration_rigid_names(printing, scope, &member.abstractions);
        (surrounded("  ", name, " :: ").append(Layout::Answer(answer)), names)
    }

    /// A member of an instance: its signature, and its equations below. Without
    /// equations there is nothing to show.
    pub open spec fn member_laid(
        self,
        state: Printed,
        evidences: Seq<InstanceEvidence>,
        member: InstanceMember,
        name: Seq<char>,
        rigids: Seq<RigidName>,
    ) -> (Printed, Option<Doc>) {
        let abstractions = member.abstractions@;
        let named = self.evidence_begun(
            self.givens_begun(state.without_evidence(), evidences, evidences.len()),
            abstractions,
            abstractions.len(),
        );
        let (signed, own) = self.member_signed(named, member, name, rigids);
        let scope = signed.state.requests.len() as usize;
        let assigned = self.rigids_assigned(
            signed.state.asked(TypeRequest::Begin { signature: false }),
            scope,
            rigids + own,
            (rigids + own).len(),
        );
        let equations = self.equations_listed(
            assigned,
            name,
            true,
            abstractions,
            member.equations@,
            member.equations@.len(),
            scope,
            self.tree_depth(),
        );
        (
            equations.state,
            if equations.docs.len() == 0 {
                None
            } else {
                Some(signed.doc.append(Doc::Hardline).append(stacked(equations.docs)))
            },
        )
    }

    fn instance_member(
        &self,
        printing: &mut Printing,
        evidences: &Vec<InstanceEvidence>,
        member: &InstanceMember,
        name: &str,
        rigids: &Vec<RigidName>,
    ) -> (layout: Option<Layout>)
        requires
            self.wf(),
        ensures
            (final(printing)@, optional_doc(layout)) == self.member_laid(
                old(printing)@,
                evidences@,
                *member,
                name@,
                rigids@,
            ),
    {
        printing.evidence = EvidenceNames::new();
        self.name_givens(printing, evidences);
        self.name_evidence(printing, &member.abstractions);
        let (signature, own) = self.instance_member_signature(printing, member, name, rigids);
        let scope: usize = printing.ask(TypeRequest::Begin { signature: false });
        let all = concatenate(rigids, &own);
        self.assign_rigid_names(printing, scope, &all);
        let equations = self.equation_declarations(
            printing,
            name,
            true,
            &member.abstractions,
            &member.equations,
            scope,
            self.own.checked.tree.size(),
        );
        if equations.len() == 0 {
            return None;
        }
        Some(signature.append(Layout::Hardline).append(join(equations, Separator::Hardline)))
    }

    /// The first members of an instance, as far as they have a name and equations.
    pub open spec fn instance_members_listed(
        self,
        state: Printed,
        evidences: Seq<InstanceEvidence>,
        members: Seq<InstanceMember>,
        rigids: Seq<RigidName>,
        count: nat,
    ) -> Listed
        decreases count,
    {
        if count == 0 || count > members.len() {
            Listed { state, docs: Seq::empty() }
        } else {
            let before = self.instance_members_listed(
                state,
                evidences,
                members,
                rigids,
                (count - 1) as nat,
            );
            let member = members[count - 1];
            match self.term_text(member.resolution.0, member.resolution.1) {
                Some(name) => {
                    let (after, doc) = self.member_laid(
                        before.state,
                        evidences,
                        member,
                        name,
                        rigids,
                    );
                    Listed {
                        state: after,
                        docs: match doc {
                            Some(doc) => before.docs.push(doc),
                            None => before.docs,
                        },
                    }
                },
                None => before,
            }
        }
    }

    fn instance_members(
        &self,
        printing: &mut Printing,
        evidences: &Vec<InstanceEvidence>,
        members: &Vec<InstanceMember>,
        rigids: &Vec<RigidName>,
    ) -> (layouts: Vec<Layout>)
        requires
            self.wf(),
        ensures
            (Listed { state: final(printing)@, docs: models(layouts@) })
                == self.instance_members_listed(
                old(printing)@,
                evidences@,
                members@,
                rigids@,
                members@.len(),
            ),
    {
        let mut layouts: Vec<Layout> = Vec::new();
        let mut index: usize = 0;
        assert(models(layouts@) =~= Seq::empty());
        while index < members.len()
            invariant
                self.wf(),
                index <= members.len(),
                (Listed { state: printing@, docs: models(layouts@) })
                    == self.instance_members_listed(
                    old(printing)@,
                    evidences@,
                    members@,
                    rigids@,
                    index as nat,
                ),
            decreases members.len() - index,
        {
            let ghost before = models(layouts@);
            let member = &members[index];
            if let Some(name) = self.term_name(member.resolution.0, member.resolution.1) {
                let shown = self.instance_member(
                    printing,
                    evidences,
                    member,
                    name.as_str(),
                    rigids,
                );
                if let Some(layout) = shown {
                    layouts.push(layout);
                    assert(models(layouts@) =~= before.push(layout@));
                }
            }
            index += 1;
        }
        layouts
    }

    /// An instance: its head, and what it consists of below.
    pub open spec fn instance_laid(
        self,
        state: Printed,
        name: Seq<char>,
        type_id: TypeId,
        instance: InstanceDeclaration,
    ) -> Laid {
        let evidences = instance.evidences@;
        let named = self.givens_begun(state.without_evidence(), evidences, evidences.len());
        let (signed, rigids) = self.dictionary_laid(named, name, type_id, instance);
        match instance.implementation {
            InstanceImplementation::Delegate { evidence, .. } => {
                let shown = self.evidence_named(signed.state, Evidence::Variable(evidence));
                Laid { state: shown.state, doc: signed.doc.then_text(" = "@ + shown.text) }
            },
            InstanceImplementation::Members(members) => {
                let superclasses = instance.superclasses@;
                let fields = self.instance_fields(
                    superclasses,
                    self.class_names(instance.class),
                    superclasses.len(),
                ).0;
                let supers = self.supers_listed(
                    signed.state,
                    superclasses,
                    fields,
                    superclasses.len(),
                );
                let listed = self.instance_members_listed(
                    supers.state,
                    evidences,
                    members@,
                    rigids,
                    members@.len(),
                );
                Laid {
                    state: listed.state,
                    doc: with_fields(signed.doc, supers.docs + listed.docs),
                }
            },
        }
    }

    /// An instance: its head, and what it consists of below.
    pub fn instance_declaration(
        &self,
        printing: &mut Printing,
        name: &str,
        type_id: TypeId,
        instance: &InstanceDeclaration,
    ) -> (layout: Layout)
        requires
            self.wf(),
        ensures
            (Laid { state: final(printing)@, doc: layout@ }) == self.instance_laid(
                old(printing)@,
                name@,
                type_id,
                *instance,
            ),
    {
        printing.evidence = EvidenceNames::new();
        self.name_givens(printing, &instance.evidences);
        let (signature, rigids) = self.dictionary_signature(printing, name, type_id, instance);
        match &instance.implementation {
            InstanceImplementation::Delegate { evidence, .. } => {
                let shown = self.evidence_variable_name(printing, *evidence);
                signature.append(with_suffix(" = ", shown.as_str()))
            },
            InstanceImplementation::Members(members) => {
                let mut fields = self.layout_supers(printing, instance);
                let ghost supers = models(fields@);
                let mut shown = self.instance_members(
                    printing,
                    &instance.evidences,
                    members,
                    &rigids,
                );
                let ghost listed = models(shown@);
                fields.append(&mut shown);
                assert(models(fields@) =~= supers + listed);
                if fields.len() == 0 {
                    return signature;
                }
                let header = signature.append(text("where").behind()).group();
                header.append(Layout::Hardline).append(join(fields, Separator::Hardline))
            },
        }
    }
}

/// The document that may be missing.
pub open spec fn optional_doc(layout: Option<Layout>) -> Option<Doc> {
    match layout {
        Some(layout) => Some(layout@),
        None => None,
    }
}

/// The texts of names.
pub open spec fn name_texts(names: Seq<String>) -> Seq<Seq<char>> {
    Seq::new(names.len(), |i: int| names[i]@)
}

/// An instance with what it consists of.
pub open spec fn with_fields(signature: Doc, fields: Seq<Doc>) -> Doc {
    if fields.len() == 0 {
        signature
    } else {
        signature.append(Doc::Text("where"@).behind()).group().append(Doc::Hardline).append(
            stacked(fields),
        )
    }
}

/// Type variables with the names of parameters, as far as there are both.
pub open spec fn paired(rigids: Seq<TypeId>, names: Seq<ParameterName>) -> Seq<RigidName> {
    Seq::new(
        if rigids.len() < names.len() {
            rigids.len()
        } else {
            names.len()
        },
        |i: int| RigidName { rigid: rigids[i], display: names[i].display },
    )
}

fn pair(rigids: &Vec<TypeId>, names: &Vec<ParameterName>) -> (pairs: Vec<RigidName>)
    ensures
        pairs@ == paired(rigids@, names@),
{
    let mut pairs: Vec<RigidName> = Vec::new();
    let mut index: usize = 0;
    while index < rigids.len() && index < names.len()
        invariant
            index <= rigids.len(),
            index <= names.len(),
            pairs@.len() == index,
            forall|i: int|
                0 <= i < index ==> pairs@[i] == (RigidName {
                    rigid: rigids@[i],
                    display: names@[i].display,
                }),
        decreases rigids.len() - index,
    {
        pairs.push(RigidName { rigid: rigids[index], display: names[index].display });
        index += 1;
    }
    assert(pairs@ =~= paired(rigids@, names@));
    pairs
}

fn concatenate(first: &Vec<RigidName>, second: &Vec<RigidName>) -> (all: Vec<RigidName>)
    ensures
        all@ == first@ + second@,
{
    let mut all: Vec<RigidName> = Vec::new();
    let mut index: usize = 0;
    while index < first.len()
        invariant
            index <= first.len(),
            all@ == first@.take(index as int),
        decreases first.len() - index,
    {
        all.push(first[index]);
        index += 1;
        assert(all@ =~= first@.take(index as int));
    }
    let mut index: usize = 0;
    assert(all@ =~= first@ + second@.take(0));
    while index < second.len()
        invariant
            index <= second.len(),
            all@ == first@ + second@.take(index as int),
        decreases second.len() - index,
    {
        all.push(second[index]);
        index += 1;
        assert(all@ =~= first@ + second@.take(index as int));
    }
    assert(second@.take(index as int) =~= second@);
    all
}

/// The documents of the names of parameters.
pub open spec fn name_docs(names: Seq<ParameterName>) -> Seq<Doc> {
    names.map_values(|name: ParameterName| Doc::Answer(name.display as nat))
}

/// The quantifier of an instance's head, where there is one.
pub open spec fn quantifier_docs(names: Seq<ParameterName>) -> Seq<Doc> {
    if names.len() == 0 {
        Seq::empty()
    } else {
        seq![
            Doc::Text("forall "@).append(joined(name_docs(names), Doc::Text(" "@))).then_text("."@),
        ]
    }
}

fn layout_quantifier(names: &Vec<ParameterName>) -> (layouts: Vec<Layout>)
    ensures
        models(layouts@) == quantifier_docs(names@),
{
    let mut layouts: Vec<Layout> = Vec::new();
    if names.len() == 0 {
        assert(models(layouts@) =~= Seq::empty());
        return layouts;
    }
    let mut shown: Vec<Layout> = Vec::new();
    let mut index: usize = 0;
    while index < names.len()
        invariant
            index <= names.len(),
            shown@.len() == index,
            forall|i: int|
                0 <= i < index ==> (#[trigger] shown@[i])@ == Doc::Answer(
                    names@[i].display as nat,
                ),
        decreases names.len() - index,
    {
        shown.push(Layout::Answer(names[index].display));
        index += 1;
    }
    assert(models(shown@) =~= name_docs(names@));
    let layout = text("forall ").append(join(shown, Separator::Space)).then_text(".");
    layouts.push(layout);
    assert(models(layouts@) =~= quantifier_docs(names@));
    layouts
}

} // verus!
