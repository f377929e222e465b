use compiler_frontend::indexing::error::{ExistingKind, IndexingError, ItemKind};
use compiler_frontend::indexing::exports::{ExportKind, TypeSelection};
use compiler_frontend::indexing::imports::{
    index_import, merge_implicit_items, operator_name, ImplicitItems, ImportKind,
};
use compiler_frontend::indexing::items::{
    DeriveItemId, IndexedTermItemKind, IndexedTypeItemKind, InstanceItemId, InstanceSourceItemId,
    OrderedTermItemId, TermItemId, TypeItemId,
};
use compiler_frontend::indexing::module::{index_module, IndexedModule};
use compiler_frontend::indexing::source::{
    AstId, Declaration, DeclarationKind, ExportItem, ExportItemKind, ImportItem, ImportItemKind,
    ImportList, ImportStatement, InstanceSyntax, ModuleSyntax, NamedSyntax, TypeItems,
};
use compiler_frontend::indexing::stabilized::{StabilizedModule, SyntaxNodePtr};

fn id(raw: u32) -> AstId {
    AstId { raw }
}

fn term(raw: u32) -> TermItemId {
    TermItemId { raw }
}

fn ty(raw: u32) -> TypeItemId {
    TypeItemId { raw }
}

fn name(text: &str) -> Option<String> {
    Some(text.to_string())
}

fn named(raw: u32, text: &str) -> NamedSyntax {
    NamedSyntax { id: id(raw), name: name(text) }
}

fn index(
    exports: Option<Vec<(u32, ExportItemKind)>>,
    imports: Vec<ImportStatement>,
    kinds: Vec<DeclarationKind>,
) -> IndexedModule {
    let declarations = kinds
        .into_iter()
        .enumerate()
        .map(|(number, kind)| Declaration { id: id(number as u32), kind })
        .collect();
    let exports = exports.map(|items| {
        items.into_iter().map(|(number, kind)| ExportItem { id: id(number), kind }).collect()
    });
    index_module(&ModuleSyntax { name: name("Main"), exports, imports, declarations })
}

fn signature(raw: u32, text: &str) -> DeclarationKind {
    DeclarationKind::ValueSignature { id: id(raw), name: name(text) }
}

fn equation(raw: u32, text: &str) -> DeclarationKind {
    DeclarationKind::ValueEquation { id: id(raw), name: name(text) }
}

fn data(raw: u32, text: &str, constructors: Vec<NamedSyntax>) -> DeclarationKind {
    DeclarationKind::DataEquation { id: id(raw), name: name(text), constructors }
}

#[test]
fn signatures_and_equations_form_one_value() {
    let module = index(None, vec![], vec![signature(10, "f"), equation(11, "f"), equation(12, "f")]);
    assert_eq!(module.errors, vec![]);
    assert_eq!(module.kind, ExportKind::Implicit);
    let terms = module.items.iter_terms();
    assert_eq!(terms.len(), 1);
    let (item_id, item) = terms[0];
    assert_eq!(item_id, term(0));
    match &item.kind {
        IndexedTermItemKind::Value { signature, equations } => {
            assert_eq!(*signature, Some(id(10)));
            assert_eq!(*equations, vec![id(11), id(12)]);
        }
        other => panic!("{other:?}"),
    }
    assert_eq!(module.pairs.declaration_to_term(id(0)), Some(term(0)));
    assert_eq!(module.pairs.declaration_to_term(id(2)), Some(term(0)));
    assert_eq!(module.pairs.declaration_to_term(id(3)), None);
    assert!(module.pairs.has_keys_in_source_order());
}

#[test]
fn values_are_split_by_other_declarations() {
    let module = index(
        None,
        vec![],
        vec![equation(10, "f"), equation(11, "g"), equation(12, "f"), signature(13, "f")],
    );
    assert_eq!(
        module.errors,
        vec![IndexingError::DuplicateItem {
            kind: ItemKind::Term(term(2)),
            existing: ExistingKind::Term(term(0)),
        }]
    );
    assert_eq!(module.items.iter_terms().len(), 3);
    assert_eq!(module.names.terms.lookup("f"), Some(term(0)));
    assert_eq!(module.names.terms.lookup("g"), Some(term(1)));
    assert_eq!(module.names.terms.lookup("h"), None);
}

#[test]
fn repeated_and_mismatched_signatures() {
    let module = index(
        None,
        vec![],
        vec![
            signature(10, "f"),
            signature(11, "f"),
            DeclarationKind::ForeignImportValue { id: id(12), name: name("g") },
            signature(13, "g"),
            equation(14, "g"),
        ],
    );
    let existing = ExistingKind::Term(term(1));
    assert_eq!(
        module.errors,
        vec![
            IndexingError::DuplicateItem {
                kind: ItemKind::ValueSignature(id(11)),
                existing: ExistingKind::Term(term(0)),
            },
            IndexingError::MismatchedItem { kind: ItemKind::ValueSignature(id(13)), existing },
            IndexingError::MismatchedItem { kind: ItemKind::ValueEquation(id(14)), existing },
        ]
    );
}

#[test]
fn types_with_constructors() {
    let module = index(
        None,
        vec![],
        vec![
            DeclarationKind::DataSignature { id: id(20), name: name("Maybe") },
            data(21, "Maybe", vec![named(30, "Nothing"), named(31, "Just")]),
            DeclarationKind::TypeRole { id: id(22), name: name("Maybe") },
            DeclarationKind::TypeRole { id: id(23), name: name("Maybe") },
            DeclarationKind::TypeRole { id: id(24), name: name("Other") },
        ],
    );
    assert_eq!(
        module.errors,
        vec![
            IndexingError::InvalidRole { id: id(23), existing: Some(ty(0)) },
            IndexingError::InvalidRole { id: id(24), existing: None },
        ]
    );
    assert_eq!(module.data_constructors(ty(0)), vec![term(0), term(1)]);
    assert_eq!(module.class_members(ty(0)), vec![]);
    assert_eq!(module.constructor_type(term(1)), Some(ty(0)));
    assert_eq!(module.constructor_type(term(2)), None);
    assert_eq!(module.pairs.constructor_to_term(id(31)), Some(term(1)));
    assert_eq!(module.pairs.declaration_to_type(id(1)), Some(ty(0)));
    match &module.items.type_(ty(0)).kind {
        IndexedTypeItemKind::Data { signature, equation, role, constructors } => {
            assert_eq!(*signature, Some(id(20)));
            assert_eq!(*equation, Some(id(21)));
            assert_eq!(*role, Some(id(22)));
            assert_eq!(constructors.len(), 2);
        }
        other => panic!("{other:?}"),
    }
}

#[test]
fn mismatched_types_keep_their_children_apart() {
    let module = index(
        None,
        vec![],
        vec![
            DeclarationKind::TypeSynonymSignature { id: id(20), name: name("T") },
            data(21, "T", vec![named(30, "A")]),
            DeclarationKind::ClassDeclaration {
                id: id(22),
                name: name("T"),
                members: vec![named(31, "m")],
            },
            DeclarationKind::TypeSynonymEquation { id: id(23), name: name("T") },
            DeclarationKind::TypeSynonymEquation { id: id(24), name: name("T") },
        ],
    );
    let existing = ExistingKind::Type(ty(0));
    assert_eq!(
        module.errors,
        vec![
            IndexingError::MismatchedItem { kind: ItemKind::DataEquation(id(21)), existing },
            IndexingError::MismatchedItem { kind: ItemKind::ClassDeclaration(id(22)), existing },
            IndexingError::DuplicateItem { kind: ItemKind::SynonymEquation(id(24)), existing },
        ]
    );
    assert_eq!(module.constructor_type(term(0)), None);
    assert!(matches!(
        module.items.term(term(1)).kind,
        IndexedTermItemKind::ClassMember { parent, .. } if parent == ty(0)
    ));
    assert_eq!(module.data_constructors(ty(0)), vec![]);
    assert_eq!(module.class_members(ty(0)), vec![]);
}

#[test]
fn constructors_and_values_share_their_names() {
    let module = index(
        None,
        vec![],
        vec![
            data(20, "A", vec![named(30, "C")]),
            data(21, "B", vec![named(31, "C")]),
            DeclarationKind::ForeignImportData { id: id(22), name: name("A") },
        ],
    );
    assert_eq!(
        module.errors,
        vec![
            IndexingError::DuplicateItem {
                kind: ItemKind::Term(term(1)),
                existing: ExistingKind::Term(term(0)),
            },
            IndexingError::DuplicateItem {
                kind: ItemKind::Type(ty(2)),
                existing: ExistingKind::Type(ty(0)),
            },
        ]
    );
}

fn instances() -> IndexedModule {
    index(
        None,
        vec![],
        vec![
            equation(10, "f"),
            DeclarationKind::InstanceChain {
                id: id(40),
                instances: vec![
                    InstanceSyntax { id: id(50), name: name("first"), members: vec![id(60)] },
                    InstanceSyntax { id: id(51), name: None, members: vec![] },
                ],
            },
            DeclarationKind::Derive { id: id(52), name: None },
            equation(11, "f"),
        ],
    )
}

#[test]
fn instances_are_listed_in_order() {
    let module = instances();
    let instance = |raw| InstanceItemId { raw };
    assert_eq!(
        *module.items.instance_sources(),
        vec![
            InstanceSourceItemId::Instance(instance(0)),
            InstanceSourceItemId::Instance(instance(1)),
            InstanceSourceItemId::Derive(DeriveItemId { raw: 0 }),
        ]
    );
    assert_eq!(
        *module.items.ordered_terms(),
        vec![
            OrderedTermItemId::Term(term(0)),
            OrderedTermItemId::Instance(instance(0)),
            OrderedTermItemId::Instance(instance(1)),
            OrderedTermItemId::Derive(DeriveItemId { raw: 0 }),
            OrderedTermItemId::Term(term(1)),
        ]
    );
    assert_eq!(module.items.iter_instances().len(), 2);
    assert_eq!(module.items.iter_derives()[0].1.id, id(52));
}

#[test]
fn instances_are_found_by_their_identities() {
    let module = instances();
    assert_eq!(module.pairs.instance_to_item(id(51)), Some(InstanceItemId { raw: 1 }));
    assert_eq!(module.pairs.instance_to_item(id(52)), None);
    assert_eq!(module.pairs.derive_to_item(id(52)), Some(DeriveItemId { raw: 0 }));
    assert_eq!(module.pairs.declaration_to_instance(id(1)), Some(InstanceItemId { raw: 0 }));
    assert_eq!(module.pairs.declaration_to_derive(id(2)), Some(DeriveItemId { raw: 0 }));
    assert_eq!(module.pairs.instance_chain_id(id(51)), Some(id(40)));
    assert_eq!(module.pairs.instance_chain_position(id(50)), Some(0));
    assert_eq!(module.pairs.instance_chain_position(id(51)), Some(1));
    assert_eq!(module.pairs.instance_chain_position(id(52)), None);
}

#[test]
fn chains_count_from_zero() {
    let chain = |raw, instances: &[u32]| DeclarationKind::InstanceChain {
        id: id(raw),
        instances: instances
            .iter()
            .map(|&raw| InstanceSyntax { id: id(raw), name: None, members: vec![] })
            .collect(),
    };
    let module =
        index(None, vec![], vec![chain(40, &[50, 51, 52]), equation(10, "f"), chain(41, &[60, 61])]);
    let pairs = &module.pairs;
    assert!(pairs.is_well_formed());
    for (chain, instances) in [(40, vec![50, 51, 52]), (41, vec![60, 61])] {
        for (position, instance) in instances.into_iter().enumerate() {
            assert_eq!(pairs.instance_chain_id(id(instance)), Some(id(chain)));
            assert_eq!(pairs.instance_chain_position(id(instance)), Some(position as u32));
            assert_eq!(
                pairs.instance_chain_metadata(id(instance)),
                Some((id(chain), position as u32))
            );
        }
    }
    assert_eq!(pairs.instance_chain_metadata(id(40)), None);
    // A declaration is found with the first instance of its chain.
    assert_eq!(pairs.declaration_to_instance(id(0)), pairs.instance_to_item(id(50)));
    assert_eq!(pairs.declaration_to_instance(id(2)), pairs.instance_to_item(id(60)));
    assert_eq!(pairs.declaration_to_instance(id(1)), None);
}

#[test]
fn constructors_and_members_are_found_by_their_identities() {
    let class = DeclarationKind::ClassDeclaration {
        id: id(22),
        name: name("K"),
        members: vec![named(40, "m"), named(41, "n")],
    };
    let exports = vec![(90, ExportItemKind::Value { name: name("f") })];
    let module = index(
        Some(exports),
        vec![],
        vec![
            data(20, "T", vec![named(30, "A"), named(31, "B")]),
            equation(10, "f"),
            class,
            data(21, "U", vec![named(32, "C")]),
        ],
    );
    let mut constructors = vec![];
    let mut members = vec![];
    for (item, found) in module.items.iter_terms() {
        match &found.kind {
            IndexedTermItemKind::Constructor { id, .. } => {
                assert_eq!(module.pairs.constructor_to_term(*id), Some(item));
                constructors.push(id.raw);
            }
            IndexedTermItemKind::ClassMember { id, .. } => {
                assert_eq!(module.pairs.class_member_to_term(*id), Some(item));
                members.push(id.raw);
            }
            _ => {}
        }
    }
    assert_eq!(constructors, vec![30, 31, 32]);
    assert_eq!(members, vec![40, 41]);
    for raw in [10, 20, 40, 41] {
        assert_eq!(module.pairs.constructor_to_term(id(raw)), None);
    }
}

#[test]
fn nodes_of_items() {
    let module = index(
        None,
        vec![],
        vec![signature(10, "f"), equation(11, "f"), data(20, "T", vec![named(30, "C")])],
    );
    let stabilized = StabilizedModule {
        pointers: (0..31).map(|number| SyntaxNodePtr { node: 100 + number }).collect(),
    };
    let nodes = |pointers: Vec<SyntaxNodePtr>| -> Vec<u32> {
        pointers.into_iter().map(|pointer| pointer.node).collect()
    };
    assert_eq!(nodes(module.term_item_ptr(&stabilized, term(0))), vec![100, 101]);
    assert_eq!(nodes(module.term_item_ptr(&stabilized, term(1))), vec![130]);
    assert_eq!(nodes(module.type_item_ptr(&stabilized, ty(0))), vec![102]);
    assert_eq!(nodes(module.type_item_ptr(&stabilized, ty(1))), vec![]);
}

#[test]
fn operators_lose_their_parentheses() {
    assert_eq!(operator_name("(+)"), "+");
    assert_eq!(operator_name("+"), "+");
    assert_eq!(operator_name("((<>))"), "<>");
}

fn statement(hiding: bool, items: Vec<ImportItemKind>) -> ImportStatement {
    let items = items
        .into_iter()
        .enumerate()
        .map(|(number, kind)| ImportItem { id: id(number as u32), kind })
        .collect();
    ImportStatement {
        id: id(70),
        name: name("Lib"),
        alias: None,
        list: Some(ImportList { hiding, items }),
    }
}

fn import_type(text: &str, items: Option<TypeItems>) -> ImportItemKind {
    ImportItemKind::Type { name: name(text), items }
}

#[test]
fn imports_of_terms() {
    let mut errors = vec![];
    let import = index_import(
        &mut errors,
        &statement(
            false,
            vec![
                ImportItemKind::Value { name: name("f") },
                ImportItemKind::Operator { name: name("(+)") },
                ImportItemKind::Value { name: name("f") },
                ImportItemKind::Value { name: None },
                ImportItemKind::TypeOperator { name: name("(~>)") },
            ],
        ),
    );
    assert_eq!(import.kind, ImportKind::Explicit);
    assert!(!import.exported);
    assert_eq!(import.name.as_deref(), Some("Lib"));
    assert_eq!(import.terms.find("f"), Some(&id(0)));
    assert_eq!(import.terms.find("+"), Some(&id(1)));
    assert!(import.terms.find("(+)").is_none());
    assert_eq!(import.types.find("~>").map(|entry| entry.0), Some(id(4)));
    assert_eq!(errors, vec![IndexingError::DuplicateImport { duplicate: id(2), existing: id(0) }]);
}

#[test]
fn imports_of_types_are_merged() {
    let mut errors = vec![];
    let list = |names: &[&str]| {
        Some(TypeItems::List(names.iter().map(|name| name.to_string()).collect()))
    };
    let import = index_import(
        &mut errors,
        &statement(
            true,
            vec![
                import_type("T", list(&["A", "B"])),
                import_type("T", list(&["B", "C"])),
                import_type("U", None),
                import_type("U", Some(TypeItems::All)),
                import_type("V", list(&["D", "D"])),
                ImportItemKind::Class { name: name("K") },
            ],
        ),
    );
    assert_eq!(import.kind, ImportKind::Hidden);
    match import.types.find("T") {
        Some((first, Some(ImplicitItems::Enumerated(names)))) => {
            assert_eq!(*first, id(0));
            let mut names = names.clone();
            names.sort();
            assert_eq!(names, vec!["A", "B", "C"]);
        }
        other => panic!("{other:?}"),
    }
    assert!(matches!(import.types.find("U"), Some((_, Some(ImplicitItems::Everything)))));
    match import.types.find("V") {
        Some((_, Some(ImplicitItems::Enumerated(names)))) => assert_eq!(*names, vec!["D", "D"]),
        other => panic!("{other:?}"),
    }
    assert!(matches!(import.types.find("K"), Some((_, None))));
    let duplicate = |duplicate, existing| IndexingError::DuplicateImport { duplicate, existing };
    assert_eq!(
        errors,
        vec![duplicate(id(1), id(0)), duplicate(id(3), id(2)), duplicate(id(4), id(4))]
    );
}

#[test]
fn one_list_is_kept_as_it_is_written() {
    let names = ["C", "A", "C", "B"].iter().map(|name| name.to_string()).collect();
    let import = statement(
        false,
        vec![
            import_type("T", None),
            import_type("T", Some(TypeItems::List(names))),
            import_type("T", None),
        ],
    );
    let module = index(None, vec![import], vec![]);
    match module.imports.find(70).unwrap().types.find("T") {
        Some((first, Some(ImplicitItems::Enumerated(names)))) => {
            assert_eq!(*first, id(0));
            assert_eq!(*names, vec!["C", "A", "C", "B"]);
        }
        other => panic!("{other:?}"),
    }
}

#[test]
fn everything_absorbs_enumerations() {
    let names = || Some(ImplicitItems::Enumerated(vec!["A".to_string()]));
    let merged = merge_implicit_items(names(), Some(ImplicitItems::Everything));
    assert!(matches!(merged, Some(ImplicitItems::Everything)));
    assert!(merge_implicit_items(None, None).is_none());
    match merge_implicit_items(names(), None) {
        Some(ImplicitItems::Enumerated(names)) => assert_eq!(names, vec!["A"]),
        other => panic!("{other:?}"),
    }
}

fn exported_terms(module: &IndexedModule) -> Vec<bool> {
    module.items.iter_terms().iter().map(|(_, item)| item.exported).collect()
}

#[test]
fn exports_select_constructors() {
    let declarations = || {
        vec![
            equation(10, "f"),
            equation(11, "g"),
            data(20, "T", vec![named(30, "A"), named(31, "B")]),
            DeclarationKind::ClassDeclaration {
                id: id(22),
                name: name("K"),
                members: vec![named(40, "m")],
            },
        ]
    };
    let select = |items| ExportItemKind::Type { name: name("T"), items };
    let module = index(
        Some(vec![
            (80, ExportItemKind::Value { name: name("g") }),
            (81, select(Some(TypeItems::List(vec!["B".to_string(), "C".to_string()])))),
            (82, ExportItemKind::Class { name: name("K") }),
            (83, ExportItemKind::Value { name: name("g") }),
            (84, ExportItemKind::Value { name: name("missing") }),
        ]),
        vec![],
        declarations(),
    );
    assert_eq!(module.kind, ExportKind::Explicit);
    assert_eq!(exported_terms(&module), vec![false, true, false, true, true]);
    assert!(module.items.type_(ty(0)).exported);
    assert!(module.items.type_(ty(1)).exported);
    assert_eq!(
        module.errors,
        vec![
            IndexingError::DuplicateExport { id: id(83), existing: id(80) },
            IndexingError::InvalidExport { id: id(81) },
        ]
    );
    assert_eq!(module.exports.terms[0].item, Some(term(1)));
    assert_eq!(module.exports.terms[2].item, None);
    assert!(matches!(
        &module.exports.types[0].selection,
        Some(TypeSelection::Enumerated(names)) if names.len() == 2
    ));

    let module = index(Some(vec![(80, select(Some(TypeItems::All)))]), vec![], declarations());
    assert_eq!(exported_terms(&module), vec![false, false, true, true, false]);
    let module = index(Some(vec![(80, select(None))]), vec![], declarations());
    assert_eq!(exported_terms(&module), vec![false; 5]);
    assert!(module.items.type_(ty(0)).exported);
    let module = index(None, vec![], declarations());
    assert_eq!(exported_terms(&module), vec![false; 5]);
}

#[test]
fn exports_of_modules() {
    let import = |raw, text: &str, alias: Option<&str>| ImportStatement {
        id: id(raw),
        name: name(text),
        alias: alias.and_then(name),
        list: None,
    };
    let imports = || vec![import(0, "Lib", None), import(1, "Data", Some("Lib")), import(2, "Lib", Some("L"))];
    let module = index(
        Some(vec![(80, ExportItemKind::Module { name: name("Lib") })]),
        imports(),
        vec![],
    );
    assert_eq!(module.kind, ExportKind::Explicit);
    let exported = |raw| module.imports.find(raw).map(|import| import.exported);
    assert_eq!(exported(0), Some(true));
    assert_eq!(exported(1), Some(true));
    assert_eq!(exported(2), Some(false));
    assert_eq!(exported(3), None);
    assert_eq!(module.exports.modules[0].name, "Lib");

    let module = index(
        Some(vec![(80, ExportItemKind::Module { name: name("Main") })]),
        imports(),
        vec![],
    );
    assert_eq!(module.kind, ExportKind::ExplicitSelf);
    assert_eq!(module.imports.find(0).map(|import| import.exported), Some(false));
}
