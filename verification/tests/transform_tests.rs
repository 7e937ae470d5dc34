use querytrans::oracle::{Oracle, Scheme};
use querytrans::parser::query;
use querytrans::transform::transform;

fn scheme(pairs: &[(&str, &str)]) -> Scheme {
    Scheme {
        pairs: pairs.iter().map(|(a, b)| (String::from(*a), String::from(*b))).collect(),
    }
}

/// Four schemes in the style of the usual Simplified/Traditional set: two
/// plain directions and two phrase-aware directions, filled with the
/// conversions the tested literals have.
fn test_oracle() -> Oracle {
    Oracle {
        schemes: vec![
            scheme(&[("简体中文", "簡體中文"), ("依云", "依雲")]),
            scheme(&[("簡體中文", "简体中文"), ("依雲", "依云")]),
            scheme(&[("简体中文", "簡體中文"), ("依云", "依雲")]),
            scheme(&[("簡體中文", "简体中文"), ("依雲", "依云")]),
        ],
    }
}

#[test]
fn simple_test() {
    let oracle = test_oracle();
    assert_eq!(transform("你好", &oracle).unwrap(), String::from("你好"));
    assert_eq!(transform("你好 ", &oracle).unwrap(), String::from("你好"));
}

#[test]
fn simple_group() {
    let oracle = test_oracle();
    assert_eq!(transform("你好 (A B)", &oracle).unwrap(), String::from("你好 (A B)"));
}

#[test]
fn simple_negative() {
    let oracle = test_oracle();
    assert_eq!(transform("A - B", &oracle).unwrap(), String::from("A -B"));
}

#[test]
fn group_negative() {
    let oracle = test_oracle();
    assert_eq!(transform("A -(B C)", &oracle).unwrap(), String::from("A -B -C"));
}

#[test]
fn simple_convert() {
    let oracle = test_oracle();
    let r = transform("简体中文", &oracle).unwrap();
    assert!(
        vec![String::from("(简体中文 OR 簡體中文)"), String::from("(簡體中文 OR 简体中文)")]
            .contains(&r),
        "{}",
        r,
    );
}

#[test]
fn negative_convert() {
    let oracle = test_oracle();
    let r = transform("你好 - 简体中文", &oracle).unwrap();
    assert!(
        vec![
            String::from("你好 -简体中文 -簡體中文"),
            String::from("你好 -簡體中文 -简体中文"),
        ]
        .contains(&r),
        "{}",
        r,
    );
}

#[test]
fn group_convert() {
    let oracle = test_oracle();
    let r = transform("依云 百合", &oracle).unwrap();
    assert!(
        vec![String::from("(依云 OR 依雲) 百合"), String::from("(依雲 OR 依云) 百合")]
            .contains(&r),
        "{}",
        r,
    );
}

#[test]
fn expansion_is_deduplicated_and_original_first() {
    // two schemes agree on the conversion: it appears once, after the
    // original spelling
    let oracle = test_oracle();
    assert_eq!(transform("依云", &oracle).unwrap(), String::from("(依云 OR 依雲)"));
    assert_eq!(transform("依雲", &oracle).unwrap(), String::from("(依雲 OR 依云)"));
}

#[test]
fn expansion_inside_group_keeps_polarity() {
    let oracle = test_oracle();
    assert_eq!(
        transform("(X -简体中文)", &oracle).unwrap(),
        String::from("(X -简体中文 -簡體中文)"),
    );
}

#[test]
fn parse_failure_propagates() {
    let oracle = test_oracle();
    assert!(transform("(A B", &oracle).is_err());
    assert!(transform("()", &oracle).is_err());
    let e = transform("A )", &oracle).unwrap_err();
    assert_eq!(e.rest, ")");
}

#[test]
fn malformed_conversion_is_ignored() {
    // a conversion that is not itself a valid term never enters the
    // spelling class
    let oracle = Oracle {
        schemes: vec![scheme(&[("A", "B C")]), scheme(&[("A", "")]), scheme(&[("X", "Y(")])],
    };
    assert_eq!(transform("A", &oracle).unwrap(), String::from("A"));
    assert_eq!(transform("X", &oracle).unwrap(), String::from("X"));
}

#[test]
fn output_reparses() {
    let oracle = test_oracle();
    for input in ["简体中文", "你好 - 简体中文", "依云 (百合 -簡體中文)", "A -(B 依云)"] {
        let out = transform(input, &oracle).unwrap();
        assert!(query(&out).is_ok(), "{}", out);
        // transforming again with the same oracle is stable: the expanded
        // spellings are already each other's conversions
        let again = transform(&out, &oracle).unwrap();
        assert!(query(&again).is_ok(), "{}", again);
    }
}

#[test]
fn empty_oracle_means_identity() {
    let oracle = Oracle { schemes: vec![] };
    assert_eq!(transform("简体中文 -(A B)", &oracle).unwrap(), String::from("简体中文 -A -B"));
}
