//! The layout of modules.

use super::super::evidence::InstanceCandidateOrigin;
use super::super::tree::{entry, TermDeclaration, TermDeclarationKind, TypeDeclarationKind};
use super::super::types::{FileId, Types};
use super::declarations::optional_doc;
use super::evidence::{
    find_declaration, module_names, reserve_module_names, source_declaration, source_name,
    source_text, InstanceNames, InstanceTexts, Printed, Printing,
};
use super::expressions::{surrounded, with_suffix};
use super::layout::{join, joined, models, rendered, resolved, texts, Doc, Layout, Separator};
use super::names::{display_name, PrettyNames};
use super::patterns::{answered, Laid, Listed};
use super::printer::{is_readable, LoweredNames, ModuleData, Printer, TypeRequest};
use super::requests::{in_order, is_answered};
use crate::collections::IdMap;
use crate::indexing::items::{InstanceSourceItemId, OrderedTermItemId, TermItemId, TypeItemId};
use vstd::prelude::*;

verus! {

/// The keyword of a type's declaration.
pub open spec fn keyword_of(declaration: TypeDeclarationKind) -> Seq<char> {
    match declaration {
        TypeDeclarationKind::Data(_) => "data"@,
        TypeDeclarationKind::Newtype(_) => "newtype"@,
        TypeDeclarationKind::Class(_) => "interface"@,
    }
}

/// The declarations of a module, so far.
pub struct Declarations {
    pub state: Printed,
    pub docs: Seq<Doc>,
    /// The names that instances must not have.
    pub used: Set<Seq<char>>,
}

impl Declarations {
    pub open spec fn with(self, state: Printed, doc: Option<Doc>) -> Declarations {
        Declarations {
            state,
            docs: match doc {
                Some(doc) => self.docs.push(doc),
                None => self.docs,
            },
            ..self
        }
    }
}

impl<'a> Printer<'a> {
    /// A type: its kind, and its declaration below. A type without a name or without
    /// a declaration is left out.
    pub open spec fn type_laid(self, state: Printed, item: TypeItemId) -> (Printed, Option<Doc>) {
        let tree = self.own.checked.tree@;
        let declaration = match entry(tree.types, item.raw) {
            Some(id) => tree.type_at(id),
            None => None,
        };
        match (self.type_text(self.file, item), declaration) {
            (Some(name), Some(declaration)) => {
                let scope = state.requests.len() as usize;
                let begun = state.asked(TypeRequest::Begin { signature: false });
                let keyword = keyword_of(declaration.declaration);
                let signed = begun.asked(
                    TypeRequest::KindSignature { scope, item, kind: declaration.kind },
                );
                let laid = match declaration.declaration {
                    TypeDeclarationKind::Class(class) => self.class_laid(
                        signed,
                        item,
                        name,
                        class,
                        scope,
                    ),
                    TypeDeclarationKind::Data(data) => self.data_laid(
                        signed,
                        item,
                        keyword,
                        name,
                        data,
                        scope,
                    ),
                    TypeDeclarationKind::Newtype(data) => self.data_laid(
                        signed,
                        item,
                        keyword,
                        name,
                        data,
                        scope,
                    ),
                };
                (
                    laid.state,
                    Some(
                        Doc::Text(keyword + " "@).append(answered(begun)).append(
                            Doc::Hardline,
                        ).append(laid.doc),
                    ),
                )
            },
            _ => (state, None),
        }
    }

    fn type_declaration(&self, printing: &mut Printing, item: TypeItemId) -> (layout: Option<
        Layout,
    >)
        ensures
            (final(printing)@, optional_doc(layout)) == self.type_laid(old(printing)@, item),
    {
        let name = self.type_item_name(self.file, item)?;
        let id = self.own.checked.tree.lookup_type_declaration(item)?;
        let declaration = self.own.checked.tree.find_type(id)?;
        let scope: usize = printing.ask(TypeRequest::Begin { signature: false });
        let answer: usize = printing.ask(
            TypeRequest::KindSignature { scope, item, kind: declaration.kind },
        );
        let keyword = match &declaration.declaration {
            TypeDeclarationKind::Data(_) => "data",
            TypeDeclarationKind::Newtype(_) => "newtype",
            TypeDeclarationKind::Class(_) => "interface",
        };
        let layout = match &declaration.declaration {
            TypeDeclarationKind::Class(class) => self.class_declaration(
                printing,
                item,
                name.as_str(),
                class,
                scope,
            ),
            TypeDeclarationKind::Data(data) => self.data_declaration(
                printing,
                item,
                keyword,
                name.as_str(),
                data,
                scope,
            ),
            TypeDeclarationKind::Newtype(data) => self.data_declaration(
                printing,
                item,
                keyword,
                name.as_str(),
                data,
                scope,
            ),
        };
        let signature = with_suffix(keyword, " ").append(Layout::Answer(answer));
        Some(signature.append(Layout::Hardline).append(layout))
    }

    /// The first types.
    pub open spec fn types_listed(self, state: Printed, count: nat) -> Listed
        decreases count,
    {
        if count == 0 {
            Listed { state, docs: Seq::empty() }
        } else {
            let before = self.types_listed(state, (count - 1) as nat);
            let (after, doc) = self.type_laid(
                before.state,
                TypeItemId { raw: (count - 1) as u32 },
            );
            Listed {
                state: after,
                docs: match doc {
                    Some(doc) => before.docs.push(doc),
                    None => before.docs,
                },
            }
        }
    }

    fn type_declarations(&self, printing: &mut Printing) -> (layouts: Vec<Layout>)
        requires
            self.wf(),
        ensures
            (Listed { state: final(printing)@, docs: models(layouts@) }) == self.types_listed(
                old(printing)@,
                self.own.indexed@.items.types.len(),
            ),
    {
        let count: usize = self.own.indexed.items.types.len();
        let mut layouts: Vec<Layout> = Vec::new();
        let mut index: usize = 0;
        assert(models(layouts@) =~= Seq::empty());
        while index < count
            invariant
                index <= count,
                count <= u32::MAX,
                (Listed { state: printing@, docs: models(layouts@) }) == self.types_listed(
                    old(printing)@,
                    index as nat,
                ),
            decreases count - index,
        {
            let ghost before = models(layouts@);
            let shown = self.type_declaration(printing, TypeItemId { raw: index as u32 });
            if let Some(layout) = shown {
                layouts.push(layout);
                assert(models(layouts@) =~= before.push(layout@));
            }
            index += 1;
        }
        layouts
    }

    /// The declaration of a term.
    pub open spec fn term_declared(self, item: TermItemId) -> Option<TermDeclaration> {
        let tree = self.own.checked.tree@;
        match entry(tree.terms, item.raw) {
            Some(id) => tree.term_at(id),
            None => None,
        }
    }

    /// A value or a foreign value. Constructors are shown with their types.
    pub open spec fn term_laid(self, state: Printed, item: TermItemId) -> (Printed, Option<Doc>) {
        match (self.term_text(self.file, item), self.term_declared(item)) {
            (Some(name), Some(declaration)) => match declaration.kind {
                TermDeclarationKind::Value(value) => self.value_laid(
                    state,
                    name,
                    declaration.type_id,
                    value,
                ),
                TermDeclarationKind::Foreign => (
                    state.asked(
                        TypeRequest::RenderAlone {
                            signature: true,
                            type_id: declaration.type_id,
                        },
                    ),
                    Some(
                        Doc::Text("foreign import "@ + name + " :: "@).append(answered(state)),
                    ),
                ),
                _ => (state, None),
            },
            _ => (state, None),
        }
    }

    fn term_declaration(&self, printing: &mut Printing, item: TermItemId) -> (layout: Option<
        Layout,
    >)
        requires
            self.wf(),
        ensures
            (final(printing)@, optional_doc(layout)) == self.term_laid(old(printing)@, item),
    {
        let name = self.term_name(self.file, item)?;
        let id = self.own.checked.tree.lookup_term(item)?;
        let declaration = self.own.checked.tree.find_term(id)?;
        match &declaration.kind {
            TermDeclarationKind::Value(value) => self.value_declaration(
                printing,
                name.as_str(),
                declaration.type_id,
                value,
            ),
            TermDeclarationKind::Foreign => {
                let answer: usize = printing.ask(
                    TypeRequest::RenderAlone { signature: true, type_id: declaration.type_id },
                );
                Some(
                    surrounded("foreign import ", name.as_str(), " :: ").append(
                        Layout::Answer(answer),
                    ),
                )
            },
            _ => None,
        }
    }

    /// An instance is shown under its own name, or under one made of its declaration
    /// that is not in use.
    pub open spec fn instance_shown(
        self,
        before: Declarations,
        item: InstanceSourceItemId,
    ) -> Declarations {
        match source_declaration(*self.own, item) {
            Some(declaration) => match declaration.kind {
                TermDeclarationKind::Instance(instance) => {
                    let (name, used) = match source_text(*self.own, item) {
                        Some(name) => (name, before.used),
                        None => {
                            let name = display_name(
                                before.used,
                                self.dictionary_base(declaration.type_id, instance.class),
                            );
                            (name, before.used.insert(name))
                        },
                    };
                    let laid = self.instance_laid(
                        before.state,
                        name,
                        declaration.type_id,
                        instance,
                    );
                    Declarations {
                        state: laid.state,
                        docs: before.docs.push(laid.doc),
                        used,
                    }
                },
                _ => before,
            },
            None => before,
        }
    }

    fn push_instance_declaration(
        &self,
        printing: &mut Printing,
        declarations: &mut Vec<Layout>,
        names: &mut PrettyNames,
        item: InstanceSourceItemId,
    )
        requires
            self.wf(),
        ensures
            (Declarations {
                state: final(printing)@,
                docs: models(final(declarations)@),
                used: final(names)@,
            }) == self.instance_shown(
                (Declarations {
                    state: old(printing)@,
                    docs: models(old(declarations)@),
                    used: old(names)@,
                }),
                item,
            ),
    {
        let ghost before = models(declarations@);
        let Some(declaration) = find_declaration(self.own, item) else {
            return;
        };
        let TermDeclarationKind::Instance(instance) = &declaration.kind else {
            return;
        };
        let name = match source_name(self.own, item) {
            Some(name) => name,
            None => {
                let base = self.dictionary_base_name(declaration.type_id, instance.class);
                names.allocate_display_name(base)
            },
        };
        let layout = self.instance_declaration(
            printing,
            name.as_str(),
            declaration.type_id,
            instance,
        );
        declarations.push(layout);
        assert(models(declarations@) =~= before.push(layout@));
    }

    /// The first terms and instances, in order, behind other declarations.
    pub open spec fn terms_listed(
        self,
        begun: Declarations,
        terms: Seq<OrderedTermItemId>,
    ) -> Declarations
        decreases terms.len(),
    {
        if terms.len() == 0 {
            begun
        } else {
            let before = self.terms_listed(begun, terms.drop_last());
            match terms.last() {
                OrderedTermItemId::Term(item) => {
                    let (state, doc) = self.term_laid(before.state, item);
                    before.with(state, doc)
                },
                OrderedTermItemId::Instance(item) => self.instance_shown(
                    before,
                    InstanceSourceItemId::Instance(item),
                ),
                OrderedTermItemId::Derive(item) => self.instance_shown(
                    before,
                    InstanceSourceItemId::Derive(item),
                ),
            }
        }
    }

    /// A module: its types, then its terms and instances in order, with an empty line
    /// in between.
    pub open spec fn module_laid(self, state: Printed) -> Laid {
        let types = self.types_listed(state, self.own.indexed@.items.types.len());
        let listed = self.terms_listed(
            (Declarations {
                state: types.state,
                docs: types.docs,
                used: module_names(*self.own),
            }),
            self.own.indexed@.items.ordered_terms,
        );
        Laid {
            state: listed.state,
            doc: joined(listed.docs, Doc::Hardline.append(Doc::Hardline)),
        }
    }

    /// A module: its types, then its terms and instances in order.
    pub fn module(&self, printing: &mut Printing) -> (layout: Layout)
        requires
            self.wf(),
        ensures
            (Laid { state: final(printing)@, doc: layout@ }) == self.module_laid(old(printing)@),
    {
        let mut layouts = self.type_declarations(printing);
        let mut names = reserve_module_names(self.own);
        let ghost begun = Declarations {
            state: printing@,
            docs: models(layouts@),
            used: names@,
        };
        let terms = &self.own.indexed.items.ordered_terms;
        let mut index: usize = 0;
        assert(terms@.take(0) =~= Seq::empty());
        while index < terms.len()
            invariant
                self.wf(),
                index <= terms.len(),
                (Declarations { state: printing@, docs: models(layouts@), used: names@ })
                    == self.terms_listed(begun, terms@.take(index as int)),
            decreases terms.len() - index,
        {
            assert(terms@.take(index + 1).drop_last() =~= terms@.take(index as int));
            let ghost before = models(layouts@);
            match terms[index] {
                OrderedTermItemId::Term(item) => {
                    if let Some(layout) = self.term_declaration(printing, item) {
                        layouts.push(layout);
                        assert(models(layouts@) =~= before.push(layout@));
                    }
                },
                OrderedTermItemId::Instance(item) => {
                    self.push_instance_declaration(
                        printing,
                        &mut layouts,
                        &mut names,
                        InstanceSourceItemId::Instance(item),
                    );
                },
                OrderedTermItemId::Derive(item) => {
                    self.push_instance_declaration(
                        printing,
                        &mut layouts,
                        &mut names,
                        InstanceSourceItemId::Derive(item),
                    );
                },
            }
            index += 1;
        }
        assert(terms@.take(index as int) =~= terms@);
        join(layouts, Separator::Gap)
    }
}

/// How a module is printed.
#[derive(Clone, Copy, Debug, PartialEq, Eq, Structural)]
pub struct PrettyConfig {
    pub width: usize,
    pub fully_qualified_names: bool,
}

impl PrettyConfig {
    pub fn new() -> (config: PrettyConfig)
        ensures
            config == (PrettyConfig { width: 100, fully_qualified_names: false }),
    {
        PrettyConfig { width: 100, fully_qualified_names: false }
    }

    #[must_use]
    pub fn width(self, width: usize) -> (config: PrettyConfig)
        ensures
            config == (PrettyConfig { width, ..self }),
    {
        PrettyConfig { width, ..self }
    }

    #[must_use]
    pub fn fully_qualified_names(self) -> (config: PrettyConfig)
        ensures
            config == (PrettyConfig { fully_qualified_names: true, ..self }),
    {
        PrettyConfig { fully_qualified_names: true, ..self }
    }
}

/// How the printer of types prints.
#[derive(Clone, Copy, Debug, PartialEq, Eq, Structural)]
pub struct TypePrettyConfig {
    pub width: usize,
    pub fully_qualified_names: bool,
    /// Whether the kinds of rigid type variables are shown.
    pub rigid_kinds: bool,
    /// Whether the kinds of quantified type variables are shown.
    pub forall_kinds: bool,
}

impl PrettyConfig {
    /// How the types of a module are printed: as wide as the module and with the same
    /// names, without the kinds of rigid variables, and in signatures without the
    /// kinds of quantified variables either.
    pub fn type_config(self, signature: bool) -> (config: TypePrettyConfig)
        ensures
            config == (TypePrettyConfig {
                width: self.width,
                fully_qualified_names: self.fully_qualified_names,
                rigid_kinds: false,
                forall_kinds: !signature,
            }),
    {
        TypePrettyConfig {
            width: self.width,
            fully_qualified_names: self.fully_qualified_names,
            rigid_kinds: false,
            forall_kinds: !signature,
        }
    }
}

impl Default for PrettyConfig {
    fn default() -> (config: Self)
        ensures
            config == (PrettyConfig { width: 100, fully_qualified_names: false }),
    {
        PrettyConfig::new()
    }
}

/// What is known of the modules besides the one that is printed.
pub struct PrettyQueries {
    pub modules: IdMap<ModuleData>,
    pub types: Types,
    pub lowered: IdMap<LoweredNames>,
    pub module_names: IdMap<String>,
}

/// Prints a checked module.
pub struct Pretty<'a> {
    pub queries: &'a PrettyQueries,
    pub checked: &'a ModuleData,
    pub config: PrettyConfig,
}

/// A module that is laid out but for the texts of its types.
pub struct Rendering {
    pub layout: Layout,
    /// What is asked of the printer of types; `layout` refers to the answers by
    /// their positions.
    pub requests: Vec<TypeRequest>,
    pub config: PrettyConfig,
}

impl Rendering {
    /// The text of the module, with the answers of the printer of types filled in.
    pub fn finish(&self, answers: &Vec<String>) -> (output: String)
        ensures
            output@ == rendered(resolved(self.layout@, texts(answers@)), self.config.width as nat),
    {
        self.layout.document(answers).render(self.config.width)
    }
}

impl<'a> Pretty<'a> {
    pub fn new(queries: &'a PrettyQueries, checked: &'a ModuleData) -> (pretty: Pretty<'a>)
        ensures
            pretty == (Pretty {
                queries,
                checked,
                config: (PrettyConfig { width: 100, fully_qualified_names: false }),
            }),
    {
        Pretty::with_config(queries, checked, PrettyConfig::default())
    }

    pub fn with_config(
        queries: &'a PrettyQueries,
        checked: &'a ModuleData,
        config: PrettyConfig,
    ) -> (pretty: Pretty<'a>)
        ensures
            pretty == (Pretty { queries, checked, config }),
    {
        Pretty { queries, checked, config }
    }

    /// The modules can be looked up in.
    pub open spec fn wf(self) -> bool {
        &&& is_readable(*self.checked)
        &&& forall|key: u64| #[trigger]
            self.queries.modules@.contains_key(key) ==> is_readable(self.queries.modules@[key])
    }

    /// What reads this module as the one of the file.
    pub open spec fn reader(self, file: FileId) -> Printer<'a> {
        let key = file.raw as u64;
        let names = self.queries.module_names@;
        Printer {
            file,
            own: self.checked,
            others: &self.queries.modules,
            types: &self.queries.types,
            lowered: &self.queries.lowered@[key],
            qualifier: if self.config.fully_qualified_names && names.contains_key(key) {
                Some(&names[key])
            } else {
                None
            },
        }
    }

    /// The source of the file is known.
    pub open spec fn is_known(self, file: FileId) -> bool {
        self.queries.lowered@.contains_key(file.raw as u64)
    }

    fn printer(&self, file: FileId) -> (printer: Option<Printer<'a>>)
        ensures
            match printer {
                Some(printer) => self.is_known(file) && printer == self.reader(file),
                None => !self.is_known(file),
            },
    {
        let lowered = self.queries.lowered.get(file.raw as u64)?;
        let qualifier = if self.config.fully_qualified_names {
            self.queries.module_names.get(file.raw as u64)
        } else {
            None
        };
        Some(
            Printer {
                file,
                own: self.checked,
                others: &self.queries.modules,
                types: &self.queries.types,
                lowered,
                qualifier,
            },
        )
    }

    /// The module as the one of a file whose source is known.
    pub fn render(&self, file: FileId) -> (rendering: Option<Rendering>)
        requires
            self.wf(),
        ensures
            match rendering {
                Some(rendering) => {
                    &&& self.is_known(file)
                    &&& rendering.config == self.config
                    &&& rendering.layout@ == self.reader(file).module_laid(Printed::empty()).doc
                    &&& rendering.requests@ == self.reader(file).module_laid(
                        Printed::empty(),
                    ).state.requests
                    &&& in_order(rendering.requests@)
                    &&& is_answered(rendering.layout@, rendering.requests@)
                },
                None => !self.is_known(file),
            },
    {
        let printer = self.printer(file)?;
        let mut printing = Printing::new();
        let layout = printer.module(&mut printing);
        proof {
            assert(printing.requests.len() <= usize::MAX);
            printer.lemma_requests_in_order();
        }
        Some(Rendering { layout, requests: printing.requests, config: self.config })
    }

    /// The name of an instance, where the source of the file is known.
    pub fn render_instance_name(&self, file: FileId, origin: InstanceCandidateOrigin) -> (name:
        Option<String>)
        requires
            self.wf(),
        ensures
            match name {
                Some(name) => {
                    &&& self.is_known(file)
                    &&& name@ == self.reader(file).dictionary_named(
                        origin,
                        InstanceTexts::empty(),
                    ).1
                },
                None => !self.is_known(file),
            },
    {
        let mut names = InstanceNames::new();
        self.render_instance_name_with_cache(file, origin, &mut names)
    }

    /// The name of an instance that has been found before, or where the source of the
    /// file is known.
    pub fn render_instance_name_with_cache(
        &self,
        file: FileId,
        origin: InstanceCandidateOrigin,
        names: &mut InstanceNames,
    ) -> (name: Option<String>)
        requires
            self.wf(),
        ensures
            match name {
                Some(name) => if old(names)@.named(origin) is Some {
                    &&& Some(name@) == old(names)@.named(origin)
                    &&& final(names)@ == old(names)@
                } else {
                    &&& self.is_known(file)
                    &&& (final(names)@, name@) == self.reader(file).dictionary_named(
                        origin,
                        old(names)@,
                    )
                },
                None => {
                    &&& !self.is_known(file)
                    &&& old(names)@.named(origin) is None
                    &&& final(names)@ == old(names)@
                },
            },
    {
        if let Some(name) = names.get(origin) {
            return Some(name);
        }
        let printer = self.printer(file)?;
        Some(printer.instance_dictionary_name_with_cache(origin, names))
    }
}

} // verus!
