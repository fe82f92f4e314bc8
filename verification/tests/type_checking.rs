use std::collections::HashMap;
use std::sync::Arc;
use nano::lang::ast::{CallArg, Function, ModuleKind, Pattern, Span};
use nano::lang::builtins;
use nano::lang::id_gen::IdGenerator;
use nano::lang::name_map::NameMap;
use nano::lang::tipo::env::{EntityKind, Environment};
use nano::lang::tipo::error::{Error, UnifyErrorSituation, Warning};
use nano::lang::tipo::fields::FieldMap;
use nano::lang::tipo::hydrator::Hydrator;
use nano::lang::tipo::instantiate::generalise;
use nano::lang::tipo::pattern::PatternTyper;
use nano::lang::tipo::pretty::Printer;
use nano::lang::tipo::unify::{mat_type, same_type};
use nano::lang::tipo::{Type, TypeInfo, TypeVar, ValueConstructorVariant};

fn modules() -> NameMap<TypeInfo> {
    let mut m = NameMap::new();
    m.insert(
        "nano".to_string(),
        TypeInfo {
            name: "nano".to_string(),
            kind: ModuleKind::Lib,
            package: String::new(),
            types: NameMap::new(),
            types_constructors: NameMap::new(),
            values: NameMap::new(),
            accessors: NameMap::new(),
        },
    );
    m
}

fn span(start: usize, end: usize) -> Span {
    Span { start, end }
}

fn print(t: &Type) -> String {
    Printer::new().pretty_print(t, 0)
}

fn var(name: &str) -> Pattern<(), ()> {
    Pattern::Var { location: span(0, 1), name: name.to_string() }
}

fn arg<A>(label: Option<&str>, start: usize, value: A) -> CallArg<A> {
    CallArg { label: label.map(|l| l.to_string()), location: span(start, start + 1), value }
}

#[test]
fn unify_binds_an_unbound_variable() {
    let module = "m".to_string();
    let imports = modules();
    let mut env = Environment::new(IdGenerator::new(), &module, &imports, Vec::new());
    assert!(env.unify(builtins::unbound_var(7), builtins::int_type(), Span::empty(), false).is_ok());
    let t = mat_type(&env.vars, &builtins::unbound_var(7));
    assert_eq!(print(&t), "Int");
}

#[test]
fn unified_types_agree_once_bindings_are_followed() {
    let module = "m".to_string();
    let imports = modules();
    let mut env = Environment::new(IdGenerator::new(), &module, &imports, Vec::new());
    let t1 = builtins::function(vec![builtins::unbound_var(1)], builtins::list(builtins::unbound_var(2)));
    let t2 = builtins::function(vec![builtins::bool()], builtins::list(builtins::unbound_var(1)));
    assert!(env.unify(t1.clone(), t2.clone(), Span::empty(), false).is_ok());
    let m1 = mat_type(&env.vars, &t1);
    let m2 = mat_type(&env.vars, &t2);
    assert_eq!(print(&m1), "fn(Bool) -> List<Bool>");
    assert_eq!(print(&m2), "fn(Bool) -> List<Bool>");
}

#[test]
fn unify_of_a_type_with_itself_changes_nothing() {
    let module = "m".to_string();
    let imports = modules();
    let mut env = Environment::new(IdGenerator::new(), &module, &imports, Vec::new());
    let t = builtins::tuple(vec![builtins::unbound_var(4), builtins::string()]);
    assert!(env.unify(t.clone(), t.clone(), Span::empty(), false).is_ok());
    assert!(env.vars.get(4).is_none());
}

#[test]
fn unify_refuses_different_types() {
    let module = "m".to_string();
    let imports = modules();
    let mut env = Environment::new(IdGenerator::new(), &module, &imports, Vec::new());
    let r = env.unify(builtins::int_type(), builtins::string(), span(3, 4), false);
    match r {
        Err(Error::CouldNotUnify { location, expected, given, .. }) => {
            assert_eq!(location, span(3, 4));
            assert_eq!(print(&expected), "Int");
            assert_eq!(print(&given), "String");
        }
        _ => panic!("expected a unification failure"),
    }
    let f1 = builtins::function(vec![builtins::int_type()], builtins::bool());
    let f2 = builtins::function(vec![builtins::int_type(), builtins::int_type()], builtins::bool());
    assert!(matches!(env.unify(f1, f2, Span::empty(), false), Err(Error::CouldNotUnify { .. })));
}

#[test]
fn unify_refuses_a_variable_that_would_contain_itself() {
    let module = "m".to_string();
    let imports = modules();
    let mut env = Environment::new(IdGenerator::new(), &module, &imports, Vec::new());
    let r = env.unify(builtins::unbound_var(3), builtins::list(builtins::unbound_var(3)), span(1, 2), false);
    assert!(matches!(r, Err(Error::RecursiveType { location }) if location == span(1, 2)));
}

#[test]
fn data_stands_for_other_types_only_when_casting() {
    let module = "m".to_string();
    let imports = modules();
    let mut env = Environment::new(IdGenerator::new(), &module, &imports, Vec::new());
    assert!(env.unify(builtins::data(), builtins::int_type(), Span::empty(), true).is_ok());
    assert!(env.unify(builtins::list(builtins::int_type()), builtins::data(), Span::empty(), true).is_ok());
    assert!(env.unify(builtins::data(), builtins::int_type(), Span::empty(), false).is_err());
    assert!(env.unify(builtins::data(), builtins::string(), Span::empty(), true).is_err());
}

#[test]
fn a_generic_variable_makes_an_unbound_one_generic() {
    let module = "m".to_string();
    let imports = modules();
    let mut env = Environment::new(IdGenerator::new(), &module, &imports, Vec::new());
    assert!(env.unify(builtins::generic_var(1), builtins::unbound_var(2), Span::empty(), false).is_ok());
    assert!(matches!(env.vars.get(2), Some(TypeVar::Generic { id: 1 })));
    assert!(env.unify(builtins::generic_var(1), builtins::int_type(), Span::empty(), false).is_err());
}

#[test]
fn instantiate_gives_each_generic_variable_one_fresh_variable() {
    let module = "m".to_string();
    let imports = modules();
    let mut env = Environment::new(IdGenerator::new(), &module, &imports, Vec::new());
    let mut ids = HashMap::new();
    let t = builtins::function(vec![builtins::generic_var(0), builtins::int_type()], builtins::generic_var(0));
    let r = env.instantiate(t, &mut ids, &Hydrator::new());
    match &*r {
        Type::Fn { args, ret } => {
            let a = match &*args[0] {
                Type::Var { tipo: TypeVar::Unbound { id } } => *id,
                _ => panic!("expected an unbound variable"),
            };
            assert!(matches!(&**ret, Type::Var { tipo: TypeVar::Unbound { id } } if *id == a));
            assert!(same_type(&args[1], &builtins::int_type()));
        }
        _ => panic!("expected a function type"),
    }
    assert_eq!(ids.len(), 1);
    assert!(ids.contains_key(&0));
}

#[test]
fn generalise_makes_unbound_variables_generic() {
    let module = "m".to_string();
    let imports = modules();
    let mut env = Environment::new(IdGenerator::new(), &module, &imports, Vec::new());
    assert!(env.unify(builtins::unbound_var(5), builtins::int_type(), Span::empty(), false).is_ok());
    let t = builtins::function(vec![builtins::unbound_var(5)], builtins::unbound_var(6));
    let g = generalise(&env.vars, t, 0);
    match &*g {
        Type::Fn { args, ret } => {
            assert!(same_type(&args[0], &builtins::int_type()));
            assert!(matches!(&**ret, Type::Var { tipo: TypeVar::Generic { id: 6 } }));
        }
        _ => panic!("expected a function type"),
    }
}

#[test]
fn match_fun_type_checks_the_arity() {
    let module = "m".to_string();
    let imports = modules();
    let mut env = Environment::new(IdGenerator::new(), &module, &imports, Vec::new());
    let f = builtins::function(vec![builtins::int_type()], builtins::bool());
    match env.match_fun_type(f.clone(), 1, span(0, 1), span(2, 3)) {
        Ok((args, ret)) => {
            assert_eq!(args.len(), 1);
            assert!(same_type(&args[0], &builtins::int_type()));
            assert!(same_type(&ret, &builtins::bool()));
        }
        Err(_) => panic!("expected the function's types"),
    }
    let r = env.match_fun_type(f, 2, span(0, 1), span(2, 3));
    assert!(matches!(r, Err(Error::IncorrectFunctionCallArity { expected: 1, given: 2, location }) if location == span(2, 3)));
    let r = env.match_fun_type(builtins::int_type(), 0, span(0, 1), span(2, 3));
    assert!(matches!(r, Err(Error::NotFn { location, ref tipo }) if location == span(0, 1) && print(tipo) == "Int"));
    match env.match_fun_type(builtins::unbound_var(9), 2, span(0, 1), span(2, 3)) {
        Ok((args, _)) => assert_eq!(args.len(), 2),
        Err(_) => panic!("an unbound variable becomes a function"),
    }
}

#[test]
fn printer_names_variables_in_order_and_qualifies_clashes() {
    let t = builtins::tuple(vec![builtins::generic_var(10), builtins::generic_var(11), builtins::generic_var(10)]);
    assert_eq!(print(&t), "(a, b, a)");
    let foo = |module: &str| {
        Arc::new(Type::App { public: true, module: module.to_string(), name: "Foo".to_string(), args: vec![] })
    };
    let t = builtins::tuple(vec![foo("x"), foo("y"), foo("")]);
    assert_eq!(print(&t), "(Foo, y.Foo, aiken.Foo)");
    let mut p = Printer::new();
    let mut names = HashMap::new();
    names.insert(3u64, "elem".to_string());
    p.with_names(names);
    assert_eq!(p.pretty_print(&builtins::list(builtins::generic_var(3)), 0), "List<elem>");
    assert_eq!(Printer::new().pretty_print(&builtins::int_type(), 2), "  Int");
}

#[test]
fn printer_letters_go_past_z() {
    let mut p = Printer::new();
    let mut last = String::new();
    for id in 0..28u64 {
        last = p.generic_type_var(id).to_pretty_string(80);
        if id == 25 {
            assert_eq!(last, "z");
        }
        if id == 26 {
            assert_eq!(last, "aa");
        }
    }
    assert_eq!(last, "ab");
}

#[test]
fn field_map_refuses_a_label_twice() {
    let mut fields = FieldMap::new(2, false);
    assert!(fields.insert("a".to_string(), 0, &span(0, 1)).is_ok());
    assert!(fields.insert("b".to_string(), 1, &span(2, 3)).is_ok());
    let r = fields.insert("a".to_string(), 1, &span(4, 5));
    assert!(matches!(r, Err(Error::DuplicateField { ref label, location, duplicate_location })
        if label == "a" && location == span(4, 5) && duplicate_location == span(0, 1)));
    let mut args = FieldMap::new(1, true);
    assert!(args.insert("x".to_string(), 0, &span(0, 1)).is_ok());
    assert!(matches!(args.insert("x".to_string(), 0, &span(1, 2)), Err(Error::DuplicateArgument { .. })));
    assert!(FieldMap::new(0, false).into_option().is_none());
    assert!(args.into_option().is_some());
}

fn record() -> FieldMap {
    let mut fields = FieldMap::new(3, false);
    assert!(fields.insert("a".to_string(), 0, &span(0, 1)).is_ok());
    assert!(fields.insert("b".to_string(), 1, &span(2, 3)).is_ok());
    assert!(fields.insert("c".to_string(), 2, &span(4, 5)).is_ok());
    fields
}

#[test]
fn reorder_puts_labelled_arguments_in_place() {
    let fields = record();
    let mut args = vec![arg(Some("c"), 10, 3), arg(Some("a"), 20, 1), arg(Some("b"), 30, 2)];
    assert!(fields.reorder(&mut args, Span::empty()).is_ok());
    let values: Vec<i32> = args.iter().map(|a| a.value).collect();
    assert_eq!(values, vec![1, 2, 3]);
    let mut args = vec![arg(None, 10, 1), arg(Some("c"), 20, 3), arg(Some("b"), 30, 2)];
    assert!(fields.reorder(&mut args, Span::empty()).is_ok());
    let values: Vec<i32> = args.iter().map(|a| a.value).collect();
    assert_eq!(values, vec![1, 2, 3]);
}

#[test]
fn reorder_reports_a_wrong_number_of_arguments() {
    let fields = record();
    let mut args = vec![arg(Some("b"), 10, 2)];
    match fields.reorder(&mut args, span(7, 8)) {
        Err(Error::IncorrectFieldsArity { labels, location, expected, given }) => {
            assert_eq!(labels, vec!["a".to_string(), "c".to_string()]);
            assert_eq!(location, span(7, 8));
            assert_eq!((expected, given), (3, 1));
        }
        _ => panic!("expected an arity error"),
    }
    assert_eq!(fields.incorrect_arity_labels(&args), vec!["a".to_string(), "c".to_string()]);
}

#[test]
fn reorder_refuses_a_positional_argument_after_a_labelled_one() {
    let fields = record();
    let mut args = vec![arg(Some("a"), 10, 1), arg(None, 20, 2), arg(None, 30, 3)];
    let r = fields.reorder(&mut args, Span::empty());
    assert!(matches!(r, Err(Error::PositionalArgumentAfterLabeled { location, labeled_arg_location })
        if location == span(20, 21) && labeled_arg_location == span(10, 11)));
}

#[test]
fn reorder_reports_unknown_labels() {
    let fields = record();
    let mut args = vec![arg(None, 10, 1), arg(Some("zz"), 20, 2), arg(Some("c"), 30, 3)];
    match fields.reorder(&mut args, Span::empty()) {
        Err(Error::UnknownLabels(v)) => {
            assert_eq!(v.len(), 1);
            assert_eq!(v[0].unkown, vec![span(20, 21)]);
            assert_eq!(v[0].valid, vec!["a".to_string(), "b".to_string(), "c".to_string()]);
            assert_eq!(v[0].suppleid, vec!["c".to_string()]);
        }
        _ => panic!("expected unknown labels"),
    }
}

#[test]
fn reorder_refuses_a_label_given_twice() {
    let fields = record();
    let mut args = vec![arg(Some("b"), 10, 1), arg(Some("b"), 20, 2), arg(Some("a"), 30, 3)];
    assert!(matches!(fields.reorder(&mut args, Span::empty()), Err(Error::DuplicateArgument { ref label, .. }) if label == "b"));
}

#[test]
fn a_variable_pattern_binds_the_subject_type() {
    let module = "m".to_string();
    let imports = modules();
    let env = Environment::new(IdGenerator::new(), &module, &imports, Vec::new());
    let hydrator = Hydrator::new();
    let mut typer = PatternTyper::new(env, &hydrator);
    let r = typer.infer_pattern(var("x"), &builtins::int_type());
    assert!(matches!(r, Ok(Pattern::Var { ref name, .. }) if name == "x"));
    let bound = typer.environment.get_variable("x").map(|v| v.tipo.clone());
    assert!(same_type(&bound.unwrap(), &builtins::int_type()));
}

#[test]
fn a_list_pattern_binds_elements_and_tail() {
    let module = "m".to_string();
    let imports = modules();
    let env = Environment::new(IdGenerator::new(), &module, &imports, Vec::new());
    let hydrator = Hydrator::new();
    let mut typer = PatternTyper::new(env, &hydrator);
    let p = Pattern::List { location: span(0, 9), elements: vec![var("head")], tail: Some(Box::new(var("rest"))) };
    assert!(typer.infer_pattern(p, &builtins::list(builtins::int_type())).is_ok());
    let head = typer.environment.get_variable("head").unwrap().tipo.clone();
    let rest = typer.environment.get_variable("rest").unwrap().tipo.clone();
    assert_eq!(print(&mat_type(&typer.environment.vars, &head)), "Int");
    assert_eq!(print(&mat_type(&typer.environment.vars, &rest)), "List<Int>");
}

#[test]
fn an_assign_pattern_binds_the_whole_value() {
    let module = "m".to_string();
    let imports = modules();
    let env = Environment::new(IdGenerator::new(), &module, &imports, Vec::new());
    let hydrator = Hydrator::new();
    let mut typer = PatternTyper::new(env, &hydrator);
    let inner = Pattern::Int { location: span(0, 1), value: "1".to_string() };
    let p = Pattern::Assign { name: "whole".to_string(), location: span(0, 9), pattern: Box::new(inner) };
    assert!(typer.infer_pattern(p, &builtins::int_type()).is_ok());
    assert!(typer.environment.get_variable("whole").is_some());
    let discard = Pattern::Discard { name: "_".to_string(), location: span(0, 1) };
    assert!(typer.infer_pattern(discard, &builtins::string()).is_ok());
    assert!(typer.environment.get_variable("_").is_none());
}

#[test]
fn pattern_errors() {
    let module = "m".to_string();
    let imports = modules();
    let hydrator = Hydrator::new();
    let pair = builtins::tuple(vec![builtins::int_type(), builtins::int_type()]);

    let env = Environment::new(IdGenerator::new(), &module, &imports, Vec::new());
    let mut typer = PatternTyper::new(env, &hydrator);
    let p = Pattern::Tuple { location: span(0, 5), elems: vec![var("x"), var("x")] };
    assert!(matches!(typer.infer_pattern(p, &pair), Err(Error::DuplicateVarInPattern { ref name, .. }) if name == "x"));

    let env = Environment::new(IdGenerator::new(), &module, &imports, Vec::new());
    let mut typer = PatternTyper::new(env, &hydrator);
    let p = Pattern::Tuple { location: span(0, 5), elems: vec![var("x")] };
    let r = typer.infer_pattern(p, &pair);
    assert!(matches!(r, Err(Error::IncorrectTupleArity { expected: 2, given: 1, location }) if location == span(0, 5)));

    let env = Environment::new(IdGenerator::new(), &module, &imports, Vec::new());
    let mut typer = PatternTyper::new(env, &hydrator);
    let p = Pattern::Int { location: span(0, 1), value: "7".to_string() };
    assert!(matches!(typer.infer_pattern(p, &builtins::string()), Err(Error::CouldNotUnify { .. })));
}

#[test]
fn alternative_patterns_bind_the_same_variables() {
    let module = "m".to_string();
    let imports = modules();
    let hydrator = Hydrator::new();

    let env = Environment::new(IdGenerator::new(), &module, &imports, Vec::new());
    let mut typer = PatternTyper::new(env, &hydrator);
    assert!(typer.infer_pattern(var("x"), &builtins::int_type()).is_ok());
    assert!(typer.infer_alternative_pattern(var("x"), &builtins::int_type(), &span(0, 1)).is_ok());

    let env = Environment::new(IdGenerator::new(), &module, &imports, Vec::new());
    let mut typer = PatternTyper::new(env, &hydrator);
    assert!(typer.infer_pattern(var("x"), &builtins::int_type()).is_ok());
    let discard = Pattern::Discard { name: "_".to_string(), location: span(0, 1) };
    let r = typer.infer_alternative_pattern(discard, &builtins::int_type(), &span(4, 6));
    assert!(matches!(r, Err(Error::MissingVarInAlternativePattern { ref name, location }) if name == "x" && location == span(4, 6)));

    let env = Environment::new(IdGenerator::new(), &module, &imports, Vec::new());
    let mut typer = PatternTyper::new(env, &hydrator);
    assert!(typer.infer_pattern(var("x"), &builtins::int_type()).is_ok());
    let r = typer.infer_alternative_pattern(var("y"), &builtins::int_type(), &span(4, 6));
    assert!(matches!(r, Err(Error::ExtraVarInAlternativePattern { ref name, .. }) if name == "y"));
}

#[test]
fn missing_labels_come_out_sorted() {
    let mut fields = FieldMap::new(3, false);
    assert!(fields.insert("zeta".to_string(), 0, &span(0, 1)).is_ok());
    assert!(fields.insert("alpha".to_string(), 1, &span(2, 3)).is_ok());
    assert!(fields.insert("mu".to_string(), 2, &span(4, 5)).is_ok());
    let given = vec![arg(Some("mu"), 10, 0)];
    assert_eq!(fields.incorrect_arity_labels(&given), vec!["alpha".to_string(), "zeta".to_string()]);
    let none: Vec<CallArg<i32>> = vec![];
    assert_eq!(fields.incorrect_arity_labels(&none), vec!["alpha".to_string(), "mu".to_string(), "zeta".to_string()]);
}

#[test]
fn unifying_again_binds_nothing_more() {
    let module = "m".to_string();
    let imports = modules();
    let mut env = Environment::new(IdGenerator::new(), &module, &imports, Vec::new());
    let t1 = builtins::list(builtins::unbound_var(3));
    let t2 = builtins::list(builtins::int_type());
    assert!(env.unify(t1.clone(), t2.clone(), Span::empty(), false).is_ok());
    assert!(env.vars.get(3).is_some());
    assert!(env.unify(t2.clone(), t1.clone(), Span::empty(), false).is_ok());
    assert!(env.vars.get(4).is_none());
    assert_eq!(print(&mat_type(&env.vars, &t1)), "List<Int>");
}

#[test]
fn a_nested_mismatch_names_the_outer_types() {
    let module = "m".to_string();
    let imports = modules();
    let mut env = Environment::new(IdGenerator::new(), &module, &imports, Vec::new());
    let r = env.unify(builtins::list(builtins::int_type()), builtins::list(builtins::string()), span(5, 9), false);
    match r {
        Err(Error::CouldNotUnify { location, expected, given, .. }) => {
            assert_eq!(location, span(5, 9));
            assert_eq!(print(&expected), "List<Int>");
            assert_eq!(print(&given), "List<String>");
        }
        _ => panic!("expected a unification failure"),
    }
    let f1 = builtins::function(vec![builtins::int_type()], builtins::bool());
    let f2 = builtins::function(vec![builtins::string()], builtins::bool());
    match env.unify(f1, f2, span(1, 2), false) {
        Err(Error::CouldNotUnify { expected, given, .. }) => {
            assert_eq!(print(&expected), "fn(Int) -> Bool");
            assert_eq!(print(&given), "fn(String) -> Bool");
        }
        _ => panic!("expected a unification failure"),
    }
}

#[test]
fn unify_binds_a_variable_on_the_right() {
    let module = "m".to_string();
    let imports = modules();
    let mut env = Environment::new(IdGenerator::new(), &module, &imports, Vec::new());
    let l = builtins::list(builtins::unbound_var(8));
    assert!(env.unify(l, builtins::unbound_var(7), Span::empty(), false).is_ok());
    assert!(matches!(env.vars.get(7), Some(TypeVar::Link { .. })));
    assert!(env.vars.get(8).is_none());
    assert_eq!(print(&mat_type(&env.vars, &builtins::unbound_var(7))), "List<a>");
}

#[test]
fn bind_function_links_a_variable_to_a_function_type() {
    let module = "m".to_string();
    let imports = modules();
    let mut env = Environment::new(IdGenerator::new(), &module, &imports, Vec::new());
    let args = vec![builtins::unbound_var(20)];
    let (a, ret) = env.bind_function(builtins::unbound_var(9), args, builtins::unbound_var(21));
    assert_eq!(a.len(), 1);
    assert!(matches!(&*a[0], Type::Var { tipo: TypeVar::Unbound { id: 20 } }));
    assert!(matches!(&*ret, Type::Var { tipo: TypeVar::Unbound { id: 21 } }));
    assert!(matches!(env.vars.get(9), Some(TypeVar::Link { .. })));
    assert_eq!(print(&mat_type(&env.vars, &builtins::unbound_var(9))), "fn(a) -> b");
}

#[test]
fn an_unbound_variable_matched_as_a_function_becomes_one() {
    let module = "m".to_string();
    let imports = modules();
    let mut env = Environment::new(IdGenerator::new(), &module, &imports, Vec::new());
    match env.match_fun_type(builtins::unbound_var(40), 1, span(0, 1), span(2, 3)) {
        Ok((args, ret)) => {
            assert_eq!(args.len(), 1);
            assert!(matches!(&*args[0], Type::Var { tipo: TypeVar::Unbound { .. } }));
            assert!(matches!(&*ret, Type::Var { tipo: TypeVar::Unbound { .. } }));
        }
        Err(_) => panic!("an unbound variable becomes a function"),
    }
    assert_eq!(print(&mat_type(&env.vars, &builtins::unbound_var(40))), "fn(a) -> b");
}

#[test]
fn generalising_twice_changes_nothing() {
    let module = "m".to_string();
    let imports = modules();
    let mut env = Environment::new(IdGenerator::new(), &module, &imports, Vec::new());
    assert!(env.unify(builtins::unbound_var(1), builtins::list(builtins::unbound_var(2)), Span::empty(), false).is_ok());
    let t = builtins::tuple(vec![builtins::unbound_var(1), builtins::unbound_var(3)]);
    let g = generalise(&env.vars, t, 0);
    let g2 = generalise(&env.vars, g.clone(), 0);
    assert!(same_type(&g, &g2));
    assert!(matches!(&*g, Type::Tuple { .. }));
    assert_eq!(print(&g), "(List<a>, b)");
}

#[test]
fn a_bound_variable_is_recorded_as_used_nowhere_yet() {
    let module = "m".to_string();
    let imports = modules();
    let env = Environment::new(IdGenerator::new(), &module, &imports, Vec::new());
    let hydrator = Hydrator::new();
    let mut typer = PatternTyper::new(env, &hydrator);
    assert!(typer.infer_pattern(var("x"), &builtins::int_type()).is_ok());
    let last = typer.environment.entity_usages.last().unwrap();
    match last.get("x") {
        Some((kind, location, used)) => {
            assert!(matches!(kind, EntityKind::Variable));
            assert_eq!(*location, span(0, 1));
            assert!(!*used);
        }
        None => panic!("expected a usage entry for the variable"),
    }
}

#[test]
fn an_int_pattern_fits_an_unbound_variable() {
    let module = "m".to_string();
    let imports = modules();
    let env = Environment::new(IdGenerator::new(), &module, &imports, Vec::new());
    let hydrator = Hydrator::new();
    let mut typer = PatternTyper::new(env, &hydrator);
    let p = Pattern::Int { location: span(0, 1), value: "3".to_string() };
    let subject = Type::Var { tipo: TypeVar::Unbound { id: 50 } };
    assert!(typer.infer_pattern(p, &subject).is_ok());
    assert_eq!(print(&mat_type(&typer.environment.vars, &builtins::unbound_var(50))), "Int");
}

#[test]
fn a_tuple_of_the_wrong_arity_binds_nothing() {
    let module = "m".to_string();
    let imports = modules();
    let env = Environment::new(IdGenerator::new(), &module, &imports, Vec::new());
    let hydrator = Hydrator::new();
    let mut typer = PatternTyper::new(env, &hydrator);
    let pair = builtins::tuple(vec![builtins::int_type(), builtins::int_type()]);
    let p = Pattern::Tuple { location: span(0, 5), elems: vec![var("x"), var("y"), var("z")] };
    let r = typer.infer_pattern(p, &pair);
    assert!(matches!(r, Err(Error::IncorrectTupleArity { expected: 2, given: 3, .. })));
    assert!(typer.environment.get_variable("x").is_none());
    assert!(typer.environment.get_variable("y").is_none());
}

#[test]
fn an_alternative_of_discards_is_accepted_when_nothing_was_bound() {
    let module = "m".to_string();
    let imports = modules();
    let env = Environment::new(IdGenerator::new(), &module, &imports, Vec::new());
    let hydrator = Hydrator::new();
    let mut typer = PatternTyper::new(env, &hydrator);
    let discard = Pattern::Discard { name: "_".to_string(), location: span(0, 1) };
    assert!(typer.infer_pattern(discard, &builtins::int_type()).is_ok());
    let again = Pattern::Discard { name: "_".to_string(), location: span(0, 1) };
    assert!(typer.infer_alternative_pattern(again, &builtins::int_type(), &span(2, 3)).is_ok());
}

#[test]
fn an_alternative_that_binds_one_name_twice_is_counted_by_bindings() {
    let module = "m".to_string();
    let imports = modules();
    let env = Environment::new(IdGenerator::new(), &module, &imports, Vec::new());
    let hydrator = Hydrator::new();
    let mut typer = PatternTyper::new(env, &hydrator);
    let pair = builtins::tuple(vec![builtins::int_type(), builtins::int_type()]);
    let first = Pattern::Tuple { location: span(0, 5), elems: vec![var("x"), var("y")] };
    assert!(typer.infer_pattern(first, &pair).is_ok());
    let alternative = Pattern::Tuple { location: span(6, 11), elems: vec![var("x"), var("x")] };
    assert!(typer.infer_alternative_pattern(alternative, &pair, &span(6, 11)).is_ok());
}

#[test]
fn a_new_scope_restores_values_and_warns_of_unused_ones() {
    let module = "m".to_string();
    let imports = modules();
    let mut env = Environment::new(IdGenerator::new(), &module, &imports, Vec::new());
    let scopes = env.entity_usages.len();
    let r = env.in_new_scope(|e| {
        e.init_usage("tmp".to_string(), EntityKind::Variable, span(1, 2));
        e.insert_variable(
            "tmp".to_string(),
            ValueConstructorVariant::LocalVariable { location: span(1, 2) },
            builtins::int_type(),
        );
        7
    });
    assert_eq!(r, 7);
    assert_eq!(env.entity_usages.len(), scopes);
    assert!(env.get_variable("tmp").is_none());
    assert_eq!(env.warnings.len(), 1);
    assert!(matches!(&env.warnings[0], Warning::UnusedVariable { name, location } if name == "tmp" && *location == span(1, 2)));
}

#[test]
fn fitting_tuple_and_list_patterns_bind_nothing() {
    let module = "m".to_string();
    let imports = modules();
    let env = Environment::new(IdGenerator::new(), &module, &imports, Vec::new());
    let hydrator = Hydrator::new();
    let mut typer = PatternTyper::new(env, &hydrator);
    let discard = || Pattern::Discard { name: "_".to_string(), location: span(0, 1) };
    let int = || Pattern::Int { location: span(0, 1), value: "1".to_string() };
    let pair = builtins::tuple(vec![builtins::int_type(), builtins::string()]);
    let p = Pattern::Tuple { location: span(0, 5), elems: vec![int(), discard()] };
    assert!(typer.infer_pattern(p, &pair).is_ok());
    let ints = builtins::list(builtins::int_type());
    let p = Pattern::List { location: span(0, 9), elements: vec![int(), discard()], tail: Some(Box::new(discard())) };
    assert!(typer.infer_pattern(p, &ints).is_ok());
    assert!(typer.environment.vars.get(0).is_none());
}

#[test]
fn types_built_alike_around_distinct_variables_unify() {
    let module = "m".to_string();
    let imports = modules();
    let mut env = Environment::new(IdGenerator::new(), &module, &imports, Vec::new());
    let t1 = builtins::function(
        vec![builtins::unbound_var(1), builtins::tuple(vec![builtins::int_type(), builtins::unbound_var(2)])],
        builtins::list(builtins::string()),
    );
    let t2 = builtins::function(
        vec![builtins::bool(), builtins::tuple(vec![builtins::unbound_var(3), builtins::string()])],
        builtins::unbound_var(4),
    );
    assert!(env.unify(t1.clone(), t2.clone(), Span::empty(), false).is_ok());
    assert_eq!(print(&mat_type(&env.vars, &t1)), "fn(Bool, (Int, String)) -> List<String>");
    assert_eq!(print(&mat_type(&env.vars, &t2)), "fn(Bool, (Int, String)) -> List<String>");
}

#[test]
fn not_fn_carries_the_type_a_link_leads_to() {
    let module = "m".to_string();
    let imports = modules();
    let mut env = Environment::new(IdGenerator::new(), &module, &imports, Vec::new());
    assert!(env.unify(builtins::unbound_var(60), builtins::string(), Span::empty(), false).is_ok());
    let r = env.match_fun_type(builtins::unbound_var(60), 1, span(4, 5), span(6, 7));
    assert!(matches!(r, Err(Error::NotFn { ref tipo, location }) if location == span(4, 5) && print(tipo) == "String"));
}

fn defined(name: &str, public: bool, args: usize) -> Function<(), u8, (), ()> {
    Function {
        arguments: vec![0; args],
        body: (),
        doc: None,
        location: span(3, 9),
        name: name.to_string(),
        public,
        return_annotation: None,
        return_type: (),
        end_position: 12,
    }
}

#[test]
fn a_defined_function_becomes_a_generalised_module_value() {
    let module = "m".to_string();
    let imports = modules();
    let mut env = Environment::new(IdGenerator::new(), &module, &imports, Vec::new());
    let identity = builtins::function(vec![builtins::unbound_var(4)], builtins::unbound_var(4));
    let variant = ValueConstructorVariant::ModuleFn {
        name: "id".to_string(),
        field_map: Some(FieldMap::new(1, true)),
        module: "m".to_string(),
        arity: 1,
        location: span(3, 9),
        builtin: None,
    };
    env.insert_variable("id".to_string(), variant, identity.clone());
    env.ungeneralised_functions.insert("id".to_string(), ());
    let def = env.generalise_definition(defined("id", true, 1), &module);
    assert_eq!(def.name, "id");
    assert_eq!(def.end_position, 12);
    assert!(!env.ungeneralised_functions.contains_key("id"));
    let v = env.module_values.get("id").unwrap();
    assert!(v.public);
    assert_eq!(print(&v.tipo), "fn(a) -> a");
    assert!(matches!(&*v.tipo, Type::Fn { args, .. } if matches!(&*args[0], Type::Var { tipo: TypeVar::Generic { id: 4 } })));
    match &v.variant {
        ValueConstructorVariant::ModuleFn { name, field_map, module, arity, location, builtin } => {
            assert_eq!(name, "id");
            assert_eq!(field_map.as_ref().unwrap().arity, 1);
            assert_eq!(module, "m");
            assert_eq!(*arity, 1);
            assert_eq!(*location, span(3, 9));
            assert!(builtin.is_none());
        }
        _ => panic!("expected a module function"),
    }
}

#[test]
fn a_function_already_generalised_keeps_its_type() {
    let module = "m".to_string();
    let imports = modules();
    let mut env = Environment::new(IdGenerator::new(), &module, &imports, Vec::new());
    let t = builtins::function(vec![builtins::unbound_var(4), builtins::int_type()], builtins::unbound_var(4));
    let variant = ValueConstructorVariant::LocalVariable { location: span(0, 1) };
    env.insert_variable("g".to_string(), variant, t.clone());
    env.generalise_definition(defined("g", false, 2), &"lib".to_string());
    let v = env.module_values.get("g").unwrap();
    assert!(!v.public);
    assert!(Arc::ptr_eq(&v.tipo, &t));
    assert!(matches!(&v.variant, ValueConstructorVariant::ModuleFn { arity: 2, field_map: None, module, .. } if module == "lib"));
}

#[test]
fn a_unification_failure_records_its_situation() {
    let module = "m".to_string();
    let imports = modules();
    let mut env = Environment::new(IdGenerator::new(), &module, &imports, Vec::new());
    let e = env.unify(builtins::int_type(), builtins::string(), span(2, 4), false).unwrap_err();
    assert!(matches!(&e, Error::CouldNotUnify { situation: None, .. }));
    let e = e.with_unify_error_situation(UnifyErrorSituation::PipeTypeMismatch);
    match &e {
        Error::CouldNotUnify { situation, location, expected, given, .. } => {
            assert_eq!(*situation, Some(UnifyErrorSituation::PipeTypeMismatch));
            assert_eq!(*location, span(2, 4));
            assert_eq!(print(expected), "Int");
            assert_eq!(print(given), "String");
        }
        _ => panic!("expected a unification failure"),
    }
    match e.flip_unify() {
        Error::CouldNotUnify { situation, expected, .. } => {
            assert_eq!(situation, Some(UnifyErrorSituation::PipeTypeMismatch));
            assert_eq!(print(&expected), "String");
        }
        _ => panic!("expected a unification failure"),
    }
    let other = Error::UnknownModule { name: "x".to_string(), location: span(0, 1), imported_modules: Vec::new() };
    assert!(matches!(other.with_unify_error_situation(UnifyErrorSituation::PipeTypeMismatch), Error::UnknownModule { .. }));
}
