use querytrans::ast::{Group, Negative, Query, Simple, Term};
use querytrans::parser::query;

fn term(s: &str) -> Simple {
    Simple::Term(Term(String::from(s)))
}

fn fully_parsed_as(input: &str, expected: Query) {
    match query(input) {
        Ok(q) => assert_eq!(q, expected),
        Err(e) => panic!("parse error, rest: {:?}", e.rest),
    }
}

#[test]
fn term_test() {
    fully_parsed_as("你好 ", Query(vec![term("你好")]));
}

#[test]
fn combine_test() {
    fully_parsed_as("A B", Query(vec![term("A"), term("B")]));
}

#[test]
fn negative_test() {
    fully_parsed_as("A-B", Query(vec![term("A-B")]));
    fully_parsed_as(
        "A -B",
        Query(vec![term("A"), Simple::Negative(Negative::Term(Term(String::from("B"))))]),
    );
    fully_parsed_as(
        "A - B",
        Query(vec![term("A"), Simple::Negative(Negative::Term(Term(String::from("B"))))]),
    );
}

#[test]
fn group_test() {
    fully_parsed_as(
        "A (B C)",
        Query(vec![term("A"), Simple::Group(Group(vec![term("B"), term("C")]))]),
    );
}

#[test]
fn group_neg_test() {
    fully_parsed_as(
        "A (B - C)",
        Query(vec![
            term("A"),
            Simple::Group(Group(vec![
                term("B"),
                Simple::Negative(Negative::Term(Term(String::from("C")))),
            ])),
        ]),
    );
}

#[test]
fn unbalanced_parenthesis_fails() {
    assert!(query("(A B").is_err());
}

#[test]
fn empty_group_fails() {
    assert!(query("()").is_err());
}

#[test]
fn empty_input_fails() {
    assert!(query("").is_err());
}

#[test]
fn bare_dash_fails() {
    assert!(query("-").is_err());
    assert!(query("- ").is_err());
}

#[test]
fn leading_space_fails() {
    assert!(query(" A").is_err());
}

#[test]
fn error_carries_unconsumed_suffix() {
    let e = query("A )").unwrap_err();
    assert_eq!(e.rest, ")");
    let e = query("(A B").unwrap_err();
    assert_eq!(e.rest, "(A B");
}

#[test]
fn nested_groups_parse() {
    fully_parsed_as(
        "((A))",
        Query(vec![Simple::Group(Group(vec![Simple::Group(Group(vec![term("A")]))]))]),
    );
}

#[test]
fn negated_group_parses() {
    fully_parsed_as(
        "-(A B)",
        Query(vec![Simple::Negative(Negative::Group(Group(vec![term("A"), term("B")])))]),
    );
}

#[test]
fn tab_is_whitespace() {
    fully_parsed_as("A\tB", Query(vec![term("A"), term("B")]));
}

#[test]
fn double_dash_negates_a_dashed_term() {
    fully_parsed_as(
        "--B",
        Query(vec![Simple::Negative(Negative::Term(Term(String::from("-B"))))]),
    );
}

#[test]
fn spaces_inside_group_are_consumed() {
    fully_parsed_as(
        "( A  B )",
        Query(vec![Simple::Group(Group(vec![term("A"), term("B")]))]),
    );
}

#[test]
fn negative_of_group_with_inner_negative() {
    fully_parsed_as(
        "-(A -B)",
        Query(vec![Simple::Negative(Negative::Group(Group(vec![
            term("A"),
            Simple::Negative(Negative::Term(Term(String::from("B")))),
        ])))]),
    );
}
