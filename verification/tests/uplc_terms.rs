use std::rc::Rc;
use nano::uplc::ast::{DeBruijn, FakeNamedDeBruijn, Name, NamedDeBruijn, Type, Unique};
use nano::uplc::builtins::DefaultFunction;
use nano::uplc::parser::{escape, list_sub_type, pair_sub_type, quoted_string};

#[test]
fn unique_counts_up() {
    let mut u = Unique::new(41);
    u.increment();
    assert_eq!(isize::from(u), 42);
    assert_eq!(Unique::from(-3isize), Unique::new(-3));
}

#[test]
fn names_are_equal_by_their_number() {
    let a = Name::text("x");
    let b = Name { text: "y".to_string(), unique: Unique::new(0) };
    let c = Name { text: "x".to_string(), unique: Unique::new(1) };
    assert_eq!(a.text, "x");
    assert!(a == b);
    assert!(a != c);
}

#[test]
fn de_bruijn_conversions_keep_the_index() {
    assert_eq!(DeBruijn::new(5).inner(), 5);
    assert_eq!(usize::from(DeBruijn::from(7usize)), 7);
    let n = NamedDeBruijn::from(DeBruijn::new(3));
    assert_eq!(n.text, "i");
    assert_eq!(DeBruijn::from(n.clone()), DeBruijn::new(3));
    let f = FakeNamedDeBruijn::from(DeBruijn::new(9));
    assert_eq!(f.0.text, "i");
    assert_eq!(DeBruijn::from(f.clone()), DeBruijn::new(9));
    let back = NamedDeBruijn::from(f);
    assert!(back == NamedDeBruijn { text: "other".to_string(), index: DeBruijn::new(9) });
    let again = FakeNamedDeBruijn::from(back);
    assert_eq!(again.0.index, DeBruijn::new(9));
}

#[test]
fn constant_types_are_written_in_words() {
    assert_eq!(Type::Integer.to_text(), "integer");
    assert_eq!(Type::ByteString.to_text(), "bytestring");
    let t = Type::Pair(Rc::new(Type::List(Rc::new(Type::Integer))), Rc::new(Type::Data));
    assert_eq!(t.to_text(), "pair list integer data");
    assert_eq!(Type::List(Rc::new(Type::Unit)).to_text(), "list unit");
}

#[test]
fn sub_types_of_lists_and_pairs() {
    let l = Type::List(Rc::new(Type::Bool));
    assert_eq!(list_sub_type(Some(&l)).map(|t| t.to_text()), Some("bool".to_string()));
    assert!(list_sub_type(Some(&Type::Bool)).is_none());
    assert!(list_sub_type(None).is_none());
    let p = Type::Pair(Rc::new(Type::String), Rc::new(Type::Data));
    let (a, b) = pair_sub_type(Some(&p)).unwrap();
    assert_eq!(a.to_text(), "string");
    assert_eq!(b.to_text(), "data");
    assert!(pair_sub_type(Some(&l)).is_none());
}

#[test]
fn escape_puts_a_backslash_before_special_characters() {
    assert_eq!(escape("plain"), "plain");
    assert_eq!(escape("a\"b"), "a\\\"b");
    assert_eq!(escape("tab\there\n"), "tab\\\there\\\n");
    assert_eq!(escape("it's \\"), "it\\'s \\\\");
    assert_eq!(escape(""), "");
}

#[test]
fn builtin_arities() {
    assert_eq!(DefaultFunction::AddInteger.arity(), 2);
    assert_eq!(DefaultFunction::IfThenElse.arity(), 3);
    assert_eq!(DefaultFunction::ChooseData.arity(), 6);
    assert_eq!(DefaultFunction::HeadList.arity(), 1);
}

fn chars(s: &str) -> Vec<char> {
    s.chars().collect()
}

#[test]
fn a_quoted_string_reads_its_escapes() {
    assert_eq!(quoted_string(&chars("\"a\\nb\" rest")), Some(("a\nb".to_string(), 6)));
    assert_eq!(quoted_string(&chars("\"q\\\"x\\\\\"")), Some(("q\"x\\".to_string(), 8)));
    assert_eq!(quoted_string(&chars("\"\"")), Some((String::new(), 2)));
    assert_eq!(quoted_string(&chars("\"open")), None);
    assert_eq!(quoted_string(&chars("bare")), None);
    assert_eq!(quoted_string(&chars("")), None);
}

#[test]
fn an_escaped_string_reads_back() {
    for s in ["plain", "a\"b", "it's \\", "", "\\n"] {
        let written = format!("\"{}\" tail", escape(s));
        let n = escape(s).chars().count() + 2;
        assert_eq!(quoted_string(&chars(&written)), Some((s.to_string(), n)));
    }
    let written = format!("\"{}\"", escape("\n"));
    assert_eq!(quoted_string(&chars(&written)), Some(("\\\n".to_string(), 4)));
}
