use nano::lang::ast::{ModuleKind, Span, UnqualifiedImport, Use};
use nano::lang::builtins;
use nano::lang::id_gen::IdGenerator;
use nano::lang::name_map::NameMap;
use nano::lang::pretty;
use nano::lang::pretty::Documentable;
use nano::lang::tipo::env::{EntityKind, Environment};
use nano::lang::tipo::error::{Error, Warning};
use nano::lang::tipo::{TypeConstructor, TypeInfo, ValueConstructor, ValueConstructorVariant};

fn span(start: usize, end: usize) -> Span {
    Span { start, end }
}

fn module(name: &str, kind: ModuleKind) -> TypeInfo {
    TypeInfo {
        name: name.to_string(),
        kind,
        package: String::new(),
        types: NameMap::new(),
        types_constructors: NameMap::new(),
        values: NameMap::new(),
        accessors: NameMap::new(),
    }
}

fn modules() -> NameMap<TypeInfo> {
    let mut m = NameMap::new();
    m.insert("nano".to_string(), module("nano", ModuleKind::Lib));
    let mut lib = module("a/b", ModuleKind::Lib);
    lib.values.insert(
        "f".to_string(),
        ValueConstructor::public(
            builtins::int_type(),
            ValueConstructorVariant::ModuleConstant { location: span(1, 2), module: "a/b".to_string() },
        ),
    );
    lib.values.insert(
        "Rec".to_string(),
        ValueConstructor::public(
            builtins::int_type(),
            ValueConstructorVariant::Record {
                name: "Rec".to_string(),
                arity: 0,
                field_map: None,
                location: span(3, 4),
                module: "a/b".to_string(),
                constructors_count: 1,
            },
        ),
    );
    lib.types.insert(
        "T".to_string(),
        TypeConstructor {
            public: true,
            location: span(5, 6),
            module: "a/b".to_string(),
            parameters: vec![],
            tipo: builtins::int_type(),
        },
    );
    m.insert("a/b".to_string(), lib);
    m.insert("v".to_string(), module("v", ModuleKind::Validator));
    m
}

fn import(name: &str, as_name: Option<&str>, at: usize) -> UnqualifiedImport {
    UnqualifiedImport { location: span(at, at + 1), name: name.to_string(), as_name: as_name.map(|a| a.to_string()) }
}

fn use_of(path: &[&str], unqualified: Vec<UnqualifiedImport>) -> Use {
    Use {
        as_name: None,
        location: span(50, 60),
        module: path.iter().map(|s| s.to_string()).collect(),
        unqualified,
    }
}

#[test]
fn an_import_brings_values_and_types() {
    let current = "m".to_string();
    let imports = modules();
    let mut env = Environment::new(IdGenerator::new(), &current, &imports, Vec::new());
    let def = use_of(&["a", "b"], vec![import("f", None, 10), import("T", Some("U"), 20), import("Rec", None, 30)]);
    assert!(env.register_import(&def).is_ok());
    assert!(env.get_variable("f").is_some());
    assert!(env.get_variable("Rec").is_some());
    assert!(!env.scope.get("f").unwrap().public);
    let t = env.module_types.get("U").unwrap();
    assert_eq!(t.location, span(20, 21));
    assert_eq!(t.module, "a/b");
    assert!(env.imported_types.contains_key("U"));
    assert!(!env.imported_types.contains_key("f"));
    assert_eq!(env.imported_modules.get("b").unwrap().0, span(50, 60));
    assert_eq!(env.unqualified_imported_names.keys(), vec!["f".to_string(), "U".to_string(), "Rec".to_string(), "b".to_string()]);
    let usages = &env.entity_usages[0];
    assert!(matches!(usages.get("f"), Some((EntityKind::ImportedValue, l, false)) if *l == span(10, 11)));
    assert!(matches!(usages.get("U"), Some((EntityKind::ImportedType, _, false))));
    assert!(matches!(usages.get("Rec"), Some((EntityKind::ImportedConstructor, _, false))));
    assert!(env.unused_modules.is_empty());
}

#[test]
fn a_module_imported_for_nothing_is_marked_unused() {
    let current = "m".to_string();
    let imports = modules();
    let mut env = Environment::new(IdGenerator::new(), &current, &imports, Vec::new());
    let mut def = use_of(&["a", "b"], vec![]);
    def.as_name = Some("lib".to_string());
    assert!(env.register_import(&def).is_ok());
    assert_eq!(env.unused_modules.get("lib"), Some(&span(50, 60)));
    assert!(env.imported_modules.contains_key("lib"));
    assert!(!env.imported_modules.contains_key("b"));
}

#[test]
fn import_errors() {
    let current = "m".to_string();
    let imports = modules();

    let mut env = Environment::new(IdGenerator::new(), &current, &imports, Vec::new());
    match env.register_import(&use_of(&["x", "y"], vec![])) {
        Err(Error::UnknownModule { name, location, imported_modules }) => {
            assert_eq!(name, "x/y");
            assert_eq!(location, span(50, 60));
            assert!(imported_modules.is_empty());
        }
        _ => panic!("expected an unknown module"),
    }

    let r = env.register_import(&use_of(&["v"], vec![]));
    assert!(matches!(r, Err(Error::ValidatorImported { ref name, .. }) if name == "v"));

    let mut env = Environment::new(IdGenerator::new(), &current, &imports, Vec::new());
    match env.register_import(&use_of(&["a", "b"], vec![import("f", None, 10), import("nope", None, 20)])) {
        Err(Error::UnknownModuleField { name, module_name, location, value_constructors, type_constructors }) => {
            assert_eq!(name, "nope");
            assert_eq!(module_name, "a/b");
            assert_eq!(location, span(20, 21));
            assert_eq!(value_constructors, vec!["f".to_string(), "Rec".to_string()]);
            assert_eq!(type_constructors, vec!["T".to_string()]);
        }
        _ => panic!("expected an unknown field"),
    }

    let mut env = Environment::new(IdGenerator::new(), &current, &imports, Vec::new());
    let r = env.register_import(&use_of(&["a", "b"], vec![import("f", None, 10), import("Rec", Some("f"), 20)]));
    match r {
        Err(Error::DuplicateImport { name, location, previous_location, module }) => {
            assert_eq!(name, "Rec");
            assert_eq!(location, span(20, 21));
            assert_eq!(previous_location, span(10, 11));
            assert_eq!(module, vec!["a".to_string(), "b".to_string()]);
        }
        _ => panic!("expected a duplicate import"),
    }

    let mut env = Environment::new(IdGenerator::new(), &current, &imports, Vec::new());
    assert!(env.register_import(&use_of(&["a", "b"], vec![])).is_ok());
    let r = env.register_import(&use_of(&["a", "b"], vec![]));
    assert!(matches!(r, Err(Error::DuplicateImport { ref name, previous_location, .. }) if name == "b" && previous_location == span(50, 60)));
}

#[test]
fn an_imported_type_cannot_redefine_one_of_the_module() {
    let current = "m".to_string();
    let imports = modules();
    let mut env = Environment::new(IdGenerator::new(), &current, &imports, Vec::new());
    let own = TypeConstructor {
        public: false,
        location: span(0, 3),
        module: "m".to_string(),
        parameters: vec![],
        tipo: builtins::int_type(),
    };
    assert!(env.insert_type_constructor("T".to_string(), own).is_ok());
    let r = env.register_import(&use_of(&["a", "b"], vec![import("T", None, 10)]));
    assert!(matches!(r, Err(Error::DuplicateTypeName { ref name, location, previous_location })
        if name == "T" && location == span(10, 11) && previous_location == span(0, 3)));
}

#[test]
fn an_import_that_hides_an_unused_variable_warns_of_it() {
    let current = "m".to_string();
    let imports = modules();
    let mut env = Environment::new(IdGenerator::new(), &current, &imports, Vec::new());
    env.init_usage("f".to_string(), EntityKind::Variable, span(7, 8));
    assert!(env.register_import(&use_of(&["a", "b"], vec![import("f", None, 10)])).is_ok());
    assert_eq!(env.warnings.len(), 1);
    assert!(matches!(&env.warnings[0], Warning::UnusedVariable { name, location } if name == "f" && *location == span(7, 8)));
}

#[test]
fn join_puts_the_separator_between_documents() {
    let docs = vec!["a".to_doc(), "b".to_doc(), "c".to_doc()];
    assert_eq!(pretty::join(docs, ", ".to_doc()).to_pretty_string(80), "a, b, c");
    assert_eq!(pretty::join(vec!["x".to_doc()], ", ".to_doc()).to_pretty_string(80), "x");
    assert_eq!(pretty::join(vec![], ", ".to_doc()).to_pretty_string(80), "");
    let sep = pretty::break_(",", ", ");
    let d = pretty::join(vec!["aaaa".to_doc(), "bbbb".to_doc()], sep).group();
    assert_eq!(d.to_pretty_string(6), "aaaa,\nbbbb");
}
