use std::rc::Rc;
use nano::uplc::ast::{Constant, Data, DeBruijn, Name, NamedDeBruijn, Program, Term};
use nano::uplc::builtins::DefaultFunction;
use num_bigint::BigInt;
use pallas_codec::utils::KeyValuePairs;
use pallas_primitives::alonzo::{BoundedBytes, PlutusData};

fn tag_of(d: &PlutusData) -> (u64, Option<u64>, usize) {
    match d {
        PlutusData::Constr(c) => (c.tag, c.any_constructor, c.fields.len()),
        _ => panic!("expected a constructor"),
    }
}

#[test]
fn constructor_tags_follow_the_index() {
    assert_eq!(tag_of(&Data::constr(0, vec![])), (121, None, 0));
    assert_eq!(tag_of(&Data::constr(6, vec![Data::bytestring(vec![1])])), (127, None, 1));
    assert_eq!(tag_of(&Data::constr(7, vec![])), (1280, None, 0));
    assert_eq!(tag_of(&Data::constr(127, vec![])), (1400, None, 0));
    assert_eq!(tag_of(&Data::constr(128, vec![])), (102, Some(128), 0));
    assert_eq!(tag_of(&Data::constr(9000, vec![])), (102, Some(9000), 0));
}

#[test]
fn small_integers_are_machine_integers() {
    let d = Data::integer(BigInt::from(-5));
    assert_eq!(d, PlutusData::BigInt(pallas_primitives::alonzo::BigInt::Int((-5i64).into())));
    let d = Data::integer(BigInt::from(i64::MAX));
    assert_eq!(d, PlutusData::BigInt(pallas_primitives::alonzo::BigInt::Int(i64::MAX.into())));
}

#[test]
fn large_integers_keep_their_sign_and_magnitude() {
    let big = BigInt::from(1u128 << 70);
    let magnitude = vec![0x40, 0, 0, 0, 0, 0, 0, 0, 0];
    assert_eq!(
        Data::integer(big.clone()),
        PlutusData::BigInt(pallas_primitives::alonzo::BigInt::BigUInt(BoundedBytes::from(magnitude.clone())))
    );
    assert_eq!(
        Data::integer(-big),
        PlutusData::BigInt(pallas_primitives::alonzo::BigInt::BigNInt(BoundedBytes::from(magnitude)))
    );
}

#[test]
fn bytes_lists_and_maps() {
    assert_eq!(Data::bytestring(vec![1, 2]), PlutusData::BoundedBytes(BoundedBytes::from(vec![1, 2])));
    let items = vec![Data::bytestring(vec![3]), Data::constr(0, vec![])];
    assert_eq!(Data::list(items.clone()), PlutusData::Array(items));
    let pairs = vec![(Data::bytestring(vec![4]), Data::integer(BigInt::from(1)))];
    assert_eq!(Data::map(pairs.clone()), PlutusData::Map(KeyValuePairs::Def(pairs)));
}
#[test]
fn applying_a_program_wraps_its_term() {

    let f = Program::<Name> { version: (1, 0, 0), term: Term::Builtin(DefaultFunction::IData) };
    let x = Program::<Name> { version: (2, 0, 0), term: Term::Constant(Rc::new(Constant::Unit)) };
    let applied = f.apply(&x);
    assert_eq!(applied.version, (1, 0, 0));
    assert_eq!(
        applied.term,
        Term::Apply {
            function: Rc::new(Term::Builtin(DefaultFunction::IData)),
            argument: Rc::new(Term::Constant(Rc::new(Constant::Unit))),
        }
    );
    let t = f.apply_term(&Term::Error);
    assert_eq!(t.term, Term::Apply { function: Rc::new(Term::Builtin(DefaultFunction::IData)), argument: Rc::new(Term::Error) });
    let d = f.apply_data(Data::bytestring(vec![7]));
    match &d.term {
        Term::Apply { argument, .. } => match &**argument {
            Term::Constant(c) => assert_eq!(**c, Constant::Data(Data::bytestring(vec![7]))),
            _ => panic!("expected a constant"),
        },
        _ => panic!("expected an application"),
    }
}

#[test]
fn term_predicates() {

    let unit: Term<Name> = Term::Constant(Rc::new(Constant::Unit));
    let int: Term<Name> = Term::Constant(Rc::new(Constant::Integer(BigInt::from(3))));
    assert!(unit.is_unit());
    assert!(!unit.is_int());
    assert!(int.is_int());
    assert!(!int.is_unit());
    assert!(!Term::<Name>::Error.is_unit());
    assert!(!Term::<NamedDeBruijn>::Error.is_valid_script_result());
    let v: Term<NamedDeBruijn> = Term::Var(Rc::new(NamedDeBruijn::from(DeBruijn::new(0))));
    assert!(v.is_valid_script_result());
}

#[test]
fn data_goes_to_cbor_and_back() {
    let d = Data::constr(1, vec![Data::integer(BigInt::from(42)), Data::bytestring(vec![0xca, 0xfe])]);
    let bytes = nano::uplc::plutus_data_to_bytes(&d).unwrap();
    assert_eq!(bytes[0], 0xd8);
    assert_eq!(nano::uplc::plutus_data(&bytes).unwrap(), d);
    assert_eq!(nano::uplc::plutus_data_to_bytes(&Data::integer(BigInt::from(5))).unwrap(), vec![0x05]);
    assert!(nano::uplc::plutus_data(&[0xff, 0x00]).is_err());
}
