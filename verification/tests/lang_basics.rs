use std::rc::Rc;
use nano::lang::gen_uplc::air::AirKind;
use nano::lang::gen_uplc::scope::Scope;
use nano::lang::gen_uplc::stack::AirStack;
use nano::lang::id_gen::IdGenerator;
use nano::lang::levenshtein::distance;
use nano::lang::name_map::NameMap;
use nano::lang::ast::Span;
use nano::lang::parser::error::{ErrorKind, ParseError};
use nano::lang::pretty;
use nano::lang::pretty::{Document, Documentable};

#[test]
fn levenshtein_counts_edits() {
    assert_eq!(distance("kitten", "sitting"), 3);
    assert_eq!(distance("flaw", "lawn"), 2);
    assert_eq!(distance("same", "same"), 0);
    assert_eq!(distance("", "abc"), 3);
    assert_eq!(distance("abc", ""), 3);
    assert_eq!(distance("", "é"), 2);
}

#[test]
fn id_generator_counts_up_and_is_shared_by_clones() {
    let g = IdGenerator::new();
    assert_eq!(g.next(), 0);
    let h = g.clone();
    assert_eq!(h.next(), 1);
    assert_eq!(g.next(), 2);
}

#[test]
fn name_map_keeps_insertion_order() {
    let mut m: NameMap<u32> = NameMap::new();
    assert!(m.is_empty());
    assert_eq!(m.insert("b".to_string(), 1), None);
    assert_eq!(m.insert("a".to_string(), 2), None);
    assert_eq!(m.insert("b".to_string(), 3), Some(1));
    assert_eq!(m.len(), 2);
    assert_eq!(m.keys(), vec!["b".to_string(), "a".to_string()]);
    assert_eq!(m.get("b"), Some(&3));
    assert!(m.contains_key("a"));
    assert!(!m.contains_key("c"));
    assert_eq!(m.entry(1), (&"a".to_string(), &2));
    assert_eq!(m.remove("b"), Some(3));
    assert_eq!(m.remove("b"), None);
    assert_eq!(m.keys(), vec!["a".to_string()]);
    let c = m.copy_plain();
    assert_eq!(c.get("a"), Some(&2));
}

#[test]
fn scope_replace_swaps_the_shared_prefix() {
    let mut s = Scope::from_vec(vec![1, 2, 3]);
    s.replace(Scope::from_vec(vec![1, 5]));
    assert_eq!(s, Scope::from_vec(vec![1, 5, 2, 3]));
    let mut t = Scope::from_vec(vec![4]);
    t.push(6);
    assert_eq!(t, Scope::from_vec(vec![4, 6]));
    assert!(!t.is_empty());
    assert!(Scope::from_vec(vec![]).is_empty());
}

#[test]
fn scope_common_ancestor_is_the_shared_prefix() {
    let a = Scope::from_vec(vec![1, 2, 3]);
    let b = Scope::from_vec(vec![1, 2]);
    let c = Scope::from_vec(vec![1, 3]);
    assert_eq!(a.common_ancestor(&b), Scope::from_vec(vec![1, 2]));
    assert_eq!(b.common_ancestor(&c), Scope::from_vec(vec![1]));
    assert_eq!(a.common_ancestor(&a), Scope::from_vec(vec![1, 2, 3]));
    assert_eq!(Scope::from_vec(vec![7]).common_ancestor(&c), Scope::from_vec(vec![]));
}

#[test]
fn air_stack_records_instructions_under_fresh_scopes() {
    let ids = Rc::new(IdGenerator::new());
    let mut s = AirStack::new(ids.clone());
    s.integer("42".to_string());
    assert_eq!(s.air.len(), 1);
    match &s.air[0].kind {
        AirKind::Int { value } => assert_eq!(value, "42"),
        _ => panic!("expected an integer"),
    }
    assert_eq!(s.air[0].scope, Scope::from_vec(vec![0]));
    let mut t = s.empty_with_scope();
    t.string("hi");
    t.bool(true);
    assert_eq!(t.air.len(), 2);
    s.merge(t);
    assert_eq!(s.air.len(), 3);
    match &s.air[2].kind {
        AirKind::Bool { value } => assert!(*value),
        _ => panic!("expected a boolean"),
    }
}

#[test]
fn air_stack_sequence_keeps_order() {
    let ids = Rc::new(IdGenerator::new());
    let mut root = AirStack::new(ids.clone());
    let mut a = root.empty_with_scope();
    a.integer("1".to_string());
    let mut b = root.empty_with_scope();
    b.integer("2".to_string());
    root.sequence(vec![a, b]);
    let values: Vec<String> = root
        .air
        .iter()
        .map(|x| match &x.kind {
            AirKind::Int { value } => value.clone(),
            _ => String::new(),
        })
        .collect();
    assert_eq!(values, vec!["1".to_string(), "2".to_string()]);
}

#[test]
fn pretty_text_and_spaces() {
    let d = "hello".to_doc().append(" ").append("world");
    assert_eq!(d.to_pretty_string(80), "hello world");
    assert_eq!(pretty::concat(vec!["a".to_doc(), 12usize.to_doc(), (-3isize).to_doc()]).to_pretty_string(80), "a12-3");
}

#[test]
fn pretty_group_breaks_only_when_too_wide() {
    let doc = || "aaa".to_doc().append(pretty::break_(",", ", ")).append("bbb").group();
    assert_eq!(doc().to_pretty_string(80), "aaa, bbb");
    assert_eq!(doc().to_pretty_string(4), "aaa,\nbbb");
}

#[test]
fn pretty_nest_indents_after_newlines() {
    let d = "a".to_doc().append(pretty::line()).append("b").nest(2);
    assert_eq!(d.to_pretty_string(80), "a\n  b");
    assert_eq!(pretty::lines(2).to_pretty_string(80), "\n\n");
}

#[test]
fn pretty_force_break_breaks_groups() {
    let d = "a".to_doc().append(pretty::break_("", " ")).append("b").force_break().group();
    assert_eq!(d.to_pretty_string(80), "a\nb");
}

#[test]
fn pretty_flex_break_breaks_only_what_does_not_fit() {
    let d = "aa".to_doc()
        .append(pretty::flex_break("", " "))
        .append("bb")
        .append(pretty::flex_break("", " "))
        .append("cc")
        .group();
    assert_eq!(d.to_pretty_string(5), "aa bb\ncc");
}

#[test]
fn pretty_surround_and_emptiness() {
    let d = "x".to_doc().surround("(", ")");
    assert_eq!(d.to_pretty_string(80), "(x)");
    assert!(pretty::nil().is_empty());
    assert!(!"a".to_doc().is_empty());
    let mut out = String::from(">");
    Document::Str("z").pretty_print(80, &mut out);
    assert_eq!(out, ">z");
}

#[test]
fn comment_takes_the_characters_of_its_span() {
    let src = "// héllo wörld";
    let span = nano::lang::ast::Span { start: 3, end: 8 };
    let c = nano::lang::parser::extra::Comment::from((&span, src));
    assert_eq!(c.start, 3);
    assert_eq!(c.content, "héllo");
}

#[test]
fn levenshtein_is_symmetric_and_zero_on_equal_strings() {
    let words = ["", "a", "kitten", "sitting", "flaw", "lawn", "é"];
    for a in words.iter() {
        assert_eq!(distance(a, a), 0);
        for b in words.iter() {
            assert_eq!(distance(a, b), distance(b, a));
            assert!(distance(a, b) <= a.len().max(b.len()));
        }
    }
}

#[test]
fn an_invalid_tuple_index_hints_at_the_ordinal() {
    let e: ParseError<char> = ParseError::invalid_tuple_index(Span { start: 4, end: 7 }, "1".to_string(), Some("st".to_string()));
    assert_eq!(e.span, Span { start: 4, end: 7 });
    assert!(e.expected.is_empty());
    assert!(e.while_parsing.is_none() && e.label.is_none());
    match e.kind {
        ErrorKind::InvalidTupleIndex { hint } => assert_eq!(hint, Some("Did you mean: '1st'".to_string())),
    }
    let e: ParseError<char> = ParseError::invalid_tuple_index(Span { start: 0, end: 1 }, "x".to_string(), None);
    match e.kind {
        ErrorKind::InvalidTupleIndex { hint } => assert!(hint.is_none()),
    }
}

#[test]
fn merged_parse_errors_expect_both_sets() {
    let mut a: ParseError<char> = ParseError::invalid_tuple_index(Span { start: 1, end: 2 }, "0".to_string(), None);
    a.expected = vec!['(', ','];
    let mut b: ParseError<char> = ParseError::invalid_tuple_index(Span { start: 8, end: 9 }, "2".to_string(), None);
    b.expected = vec![',', ')'];
    let m = a.merge(b);
    assert_eq!(m.span, Span { start: 1, end: 2 });
    for c in ['(', ',', ')'] {
        assert!(m.expected.contains(&c));
    }
    assert!(!m.expected.contains(&'['));
}
