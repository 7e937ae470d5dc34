use querytrans::ast::{Group, Negative, Query, Simple, Term};
use querytrans::parser::query;

fn term(s: &str) -> Simple {
    Simple::Term(Term(String::from(s)))
}

#[test]
fn group_display() {
    let a = Group(vec![term("A"), term("B")]);
    assert_eq!(a.to_query_string(), "(A B)");
}

#[test]
fn negative_group_display() {
    let a = Negative::Group(Group(vec![term("A"), term("B")]));
    assert_eq!(a.to_query_string(), "-A -B");
}

#[test]
fn negative_term_display() {
    let a = Negative::Term(Term(String::from("A")));
    assert_eq!(a.to_query_string(), "-A");
}

#[test]
fn empty_query_displays_as_empty() {
    let q = Query(vec![]);
    assert_eq!(q.to_query_string(), "");
}

#[test]
fn empty_group_displays_as_parens() {
    let g = Group(vec![]);
    assert_eq!(g.to_query_string(), "()");
}

#[test]
fn parse_then_render_normalizes_whitespace() {
    for (input, expected) in [
        ("你好", "你好"),
        ("你好 ", "你好"),
        ("A \t B", "A B"),
        ("( A B ) C", "(A B) C"),
        ("- A", "-A"),
    ] {
        let q = query(input).unwrap();
        assert_eq!(q.to_query_string(), expected);
    }
}

#[test]
fn rendered_query_reparses_to_same_tree() {
    for input in ["你好", "A (B -C) -(D E)", "((A))", "A-B -C"] {
        let q = query(input).unwrap();
        let text = q.to_query_string();
        let q2 = query(&text).unwrap();
        assert_eq!(q2.to_query_string(), text);
    }
}
