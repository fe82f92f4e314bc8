use num_bigint::BigInt;
use nano::uplc::ast::{Constant, Name, Term, Type};
use nano::uplc::builtins::DefaultFunction;
use nano::uplc::parser::{program, term, try_program, try_term};
use nano::uplc::plutus_data;

fn var_text(t: &Term<Name>) -> Option<String> {
    match t {
        Term::Var(n) => Some(n.text.clone()),
        _ => None,
    }
}

#[test]
fn a_program_reads_its_version_and_term() {
    let p = program("  (program 1.0.0 (con integer 42)) ").unwrap();
    assert_eq!(p.version, (1, 0, 0));
    match &p.term {
        Term::Constant(c) => assert_eq!(**c, Constant::Integer(BigInt::from(42))),
        _ => panic!("expected a constant"),
    }
}

#[test]
fn an_application_applies_its_arguments_in_order() {
    let t = term("[(lam x x) (con bool True) y]").unwrap();
    match &t {
        Term::Apply { function, argument } => {
            assert_eq!(var_text(argument), Some("y".to_string()));
            match &**function {
                Term::Apply { function: f, argument: a } => {
                    match &**f {
                        Term::Lambda { parameter_name, body } => {
                            assert_eq!(parameter_name.text, "x");
                            assert_eq!(var_text(body), Some("x".to_string()));
                        }
                        _ => panic!("expected a lambda"),
                    }
                    match &**a {
                        Term::Constant(c) => assert_eq!(**c, Constant::Bool(true)),
                        _ => panic!("expected a constant"),
                    }
                }
                _ => panic!("expected an application"),
            }
        }
        _ => panic!("expected an application"),
    }
}

#[test]
fn delay_force_error_and_builtins_read() {
    let t = term("(delay (force ( error )))").unwrap();
    match &t {
        Term::Delay(b) => match &**b {
            Term::Force(e) => assert!(matches!(**e, Term::Error)),
            _ => panic!("expected force"),
        },
        _ => panic!("expected delay"),
    }
    let b = term("(builtin addInteger)").unwrap();
    assert!(matches!(b, Term::Builtin(DefaultFunction::AddInteger)));
    let b = term("(builtin sha2_256)").unwrap();
    assert!(matches!(b, Term::Builtin(DefaultFunction::Sha2_256)));
}

fn constant_of(src: &str) -> Constant {
    match term(src).unwrap() {
        Term::Constant(c) => std::rc::Rc::try_unwrap(c).unwrap(),
        _ => panic!("expected a constant"),
    }
}

#[test]
fn constants_of_each_type_read() {
    assert_eq!(constant_of("(con integer -7)"), Constant::Integer(BigInt::from(-7)));
    assert_eq!(constant_of("(con integer --7)"), Constant::Integer(BigInt::from(7)));
    assert_eq!(constant_of("(con bytestring #0aFF)"), Constant::ByteString(vec![0x0a, 0xff]));
    assert_eq!(constant_of("(con string \"a\\nb\")"), Constant::String("a\nb".to_string()));
    assert_eq!(constant_of("(con unit ())"), Constant::Unit);
    assert_eq!(constant_of("(con bool False)"), Constant::Bool(false));
    assert_eq!(
        constant_of("(con list<integer> [1, 2,3])"),
        Constant::ProtoList(Type::Integer, vec![
            Constant::Integer(BigInt::from(1)),
            Constant::Integer(BigInt::from(2)),
            Constant::Integer(BigInt::from(3)),
        ])
    );
    assert_eq!(constant_of("(con list<bool> [])"), Constant::ProtoList(Type::Bool, vec![]));
    match constant_of("(con pair<bool,unit> [True, ()])") {
        Constant::ProtoPair(Type::Bool, Type::Unit, x, y) => {
            assert_eq!(*x, Constant::Bool(true));
            assert_eq!(*y, Constant::Unit);
        }
        _ => panic!("expected a pair"),
    }
    let d = plutus_data(&[0x01]).unwrap();
    assert_eq!(constant_of("(con data #01)"), Constant::Data(d));
}

#[test]
fn texts_outside_the_grammar_are_refused() {
    assert!(term("(con integer)").is_err());
    assert!(term("(error) x").is_err());
    assert!(term("[f]").is_err());
    assert!(term("(con list<integer> [1, True])").is_err());
    assert!(program("(program 1.0 (error))").is_err());
    assert!(program("(program 1.0.0 (error)) trailing").is_err());
    assert!(term("(con integer ---1)").is_err());
}

#[test]
fn texts_on_which_reading_cannot_go_on_are_told_apart() {
    assert!(try_program("(program 1.0.0 (con bytestring #0g))").is_none());
    assert!(try_program("(program 1.0.0 (con data #ff))").is_none());
    assert!(try_term("(builtin noSuchBuiltin)").is_none());
    assert!(matches!(try_term("(builtin addInteger)"), Some(Ok(Term::Builtin(DefaultFunction::AddInteger)))));
    assert!(matches!(try_program("(program 1.0.0 (con integer 1))"), Some(Ok(_))));
    assert!(matches!(try_program("(program 1.0.0"), Some(Err(_))));
    assert!(matches!(try_term("(lam x"), Some(Err(_))));
}
