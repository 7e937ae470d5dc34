use vstd::prelude::*;

use crate::ast::{Group, Negative, NegativeV, Query, Simple, SimpleV, Term};
use crate::ast::{is_term_char, wf_negative, wf_simple, wf_simples, wf_term};
use crate::ast::{lemma_view_simples, lemma_view_simples_push, view_negative, view_simple,
    view_simples};
use crate::oracle::{Oracle, OracleTable, lemma_spellings_props, spellings, strings_view,
    term_spellings};
use crate::parser::{ParseError, spec_parse_list, spec_parse_query};
use crate::render::{render_neg_join, render_negative, render_query, render_simple};
use vstd::string::StringExecFns;

verus! {

broadcast use vstd::std_specs::vec::group_vec_axioms, vstd::seq::group_seq_axioms;

// The polarity-aware rewriting: every literal is replaced by its
// equivalence class of spellings.  Outside any negation the class becomes
// a group with the `OR` marker between the spellings; under a negation it
// becomes a group of the plain spellings, which the serializer shows as a
// conjunction of negated members - the De Morgan dual.

/// The literal token emitted between spellings of a positive expansion.
pub open spec fn or_marker() -> Seq<char> {
    seq!['O', 'R']
}

/// The spellings wrapped as plain terms, in order.
pub open spec fn plain_members(sp: Seq<Seq<char>>) -> Seq<SimpleV> {
    Seq::new(sp.len(), |i: int| SimpleV::Term(sp[i]))
}

/// The spellings wrapped as terms with the `OR` marker between each pair.
pub open spec fn or_members(sp: Seq<Seq<char>>) -> Seq<SimpleV> {
    if sp.len() == 0 {
        Seq::empty()
    } else {
        Seq::new(
            (2 * sp.len() - 1) as nat,
            |i: int|
                if i % 2 == 0 {
                    SimpleV::Term(sp[i / 2])
                } else {
                    SimpleV::Term(or_marker())
                },
        )
    }
}

/// Transforming one literal under polarity `neg`: unchanged when its
/// spelling class is trivial, otherwise a group of the class, with `OR`
/// markers exactly when the position is not negated.
pub open spec fn spec_transform_term(t: Seq<char>, neg: bool, o: OracleTable) -> SimpleV {
    let sp = spellings(t, o);
    if sp.len() <= 1 {
        SimpleV::Term(t)
    } else if neg {
        SimpleV::Group(plain_members(sp))
    } else {
        SimpleV::Group(or_members(sp))
    }
}

pub open spec fn spec_transform_simple(v: SimpleV, neg: bool, o: OracleTable) -> SimpleV
    decreases v,
{
    match v {
        SimpleV::Group(ms) => SimpleV::Group(spec_transform_members(ms, neg, o)),
        SimpleV::Negative(n) => SimpleV::Negative(spec_transform_negative(n, neg, o)),
        SimpleV::Term(t) => spec_transform_term(t, neg, o),
    }
}

/// Transforming a negation flips the polarity underneath.  A negated term
/// whose class expanded becomes a negated group, collapsing the spare
/// level of nesting.
pub open spec fn spec_transform_negative(n: NegativeV, neg: bool, o: OracleTable) -> NegativeV
    decreases n,
{
    match n {
        NegativeV::Group(ms) => NegativeV::Group(spec_transform_members(ms, !neg, o)),
        NegativeV::Term(t) => match spec_transform_term(t, !neg, o) {
            SimpleV::Term(t2) => NegativeV::Term(t2),
            SimpleV::Group(g) => NegativeV::Group(g),
            // a term transform never yields a negation; the arm is unreachable
            SimpleV::Negative(_) => NegativeV::Term(t),
        },
    }
}

pub open spec fn spec_transform_members(ms: Seq<SimpleV>, neg: bool, o: OracleTable) -> Seq<
    SimpleV,
>
    decreases ms,
{
    if ms.len() == 0 {
        Seq::empty()
    } else {
        seq![spec_transform_simple(ms[0], neg, o)] + spec_transform_members(
            ms.drop_first(),
            neg,
            o,
        )
    }
}

/// Transforming a member list acts elementwise and keeps the length.
pub proof fn lemma_transform_members(ms: Seq<SimpleV>, neg: bool, o: OracleTable)
    ensures
        spec_transform_members(ms, neg, o).len() == ms.len(),
        forall|i: int|
            0 <= i < ms.len() ==> spec_transform_members(ms, neg, o)[i] == spec_transform_simple(
                #[trigger] ms[i],
                neg,
                o,
            ),
    decreases ms,
{
    if ms.len() > 0 {
        lemma_transform_members(ms.drop_first(), neg, o);
        assert forall|i: int|
            0 <= i < ms.len() implies spec_transform_members(ms, neg, o)[i]
            == spec_transform_simple(#[trigger] ms[i], neg, o) by {
            if i > 0 {
                assert(spec_transform_members(ms, neg, o)[i] == spec_transform_members(
                    ms.drop_first(),
                    neg,
                    o,
                )[i - 1]);
                assert(ms.drop_first()[i - 1] == ms[i]);
            }
        }
    }
}

/// Transform one literal under polarity `neg`.
pub fn transform_term(a: &Term, neg: bool, oracle: &Oracle) -> (r: Vec<Simple>)
    ensures
        r@.len() == 1,
        view_simple(r@[0]) == spec_transform_term(a@, neg, oracle@),
        wf_term(a@) ==> wf_simple(view_simple(r@[0])),
{
    let sp = term_spellings(a, oracle);
    let ghost spv = spellings(a@, oracle@);
    proof {
        lemma_spellings_props(a@, oracle@);
    }
    if sp.len() == 1 {
        let mut r: Vec<Simple> = Vec::new();
        r.push(Simple::Term(Term(a.0.clone())));
        r
    } else if neg {
        let mut members: Vec<Simple> = Vec::new();
        let mut i: usize = 0;
        while i < sp.len()
            invariant
                i <= sp@.len(),
                strings_view(sp@) == spv,
                view_simples(members@) == plain_members(spv.take(i as int)),
            decreases sp@.len() - i,
        {
            let ghost pre = members@;
            members.push(Simple::Term(Term(sp[i].clone())));
            proof {
                lemma_view_simples_push(pre, members@[members@.len() - 1]);
                assert(strings_view(sp@)[i as int] == sp@[i as int]@);
                assert(view_simples(members@) =~= plain_members(spv.take(i + 1)));
            }
            i = i + 1;
        }
        proof {
            assert(spv.take(sp@.len() as int) =~= spv);
        }
        let mut r: Vec<Simple> = Vec::new();
        r.push(Simple::Group(Group(members)));
        proof {
            lemma_view_simples(r@);
            assert(wf_term(a@) ==> wf_simple(view_simple(r@[0]))) by {
                if wf_term(a@) {
                    assert(forall|x: int|
                        0 <= x < spv.len() ==> wf_simple(#[trigger] plain_members(spv)[x]));
                }
            }
        }
        r
    } else {
        let ghost target = or_members(spv);
        let mut members: Vec<Simple> = Vec::new();
        let mut i: usize = 0;
        while i < sp.len()
            invariant
                i <= sp@.len(),
                sp@.len() >= 2,
                strings_view(sp@) == spv,
                spv.len() == sp@.len(),
                target == or_members(spv),
                i == 0 ==> members@.len() == 0,
                i > 0 ==> members@.len() == 2 * i - 1,
                forall|j: int|
                    0 <= j < members@.len() ==> view_simple(#[trigger] members@[j]) == target[j],
            decreases sp@.len() - i,
        {
            if i > 0 {
                let ghost pre = members@;
                members.push(Simple::Term(Term(String::from_str("OR"))));
                proof {
                    lemma_view_simples_push(pre, members@[members@.len() - 1]);
                    lemma_view_simples(pre);
                    lemma_view_simples(members@);
                    reveal_strlit("OR");
                    assert("OR"@ =~= or_marker());
                    assert((members@.len() - 1) % 2 == 1);
                }
            }
            let ghost pre = members@;
            members.push(Simple::Term(Term(sp[i].clone())));
            proof {
                lemma_view_simples_push(pre, members@[members@.len() - 1]);
                lemma_view_simples(pre);
                lemma_view_simples(members@);
                assert(strings_view(sp@)[i as int] == sp@[i as int]@);
                assert((members@.len() - 1) % 2 == 0 && (members@.len() - 1) / 2 == i);
            }
            i = i + 1;
        }
        proof {
            lemma_view_simples(members@);
            assert(members@.len() == target.len());
            assert forall|j: int| 0 <= j < members@.len() implies view_simples(members@)[j]
                == target[j] by {
                assert(view_simples(members@)[j] == view_simple(members@[j]));
            }
            assert(view_simples(members@) =~= target);
        }
        let mut r: Vec<Simple> = Vec::new();
        r.push(Simple::Group(Group(members)));
        proof {
            assert(wf_term(a@) ==> wf_simple(view_simple(r@[0]))) by {
                if wf_term(a@) {
                    assert(wf_term(or_marker())) by {
                        assert(or_marker().len() == 2);
                        assert(is_term_char(or_marker()[0]));
                        assert(is_term_char(or_marker()[1]));
                    }
                    assert(forall|x: int|
                        0 <= x < target.len() ==> wf_simple(#[trigger] target[x]));
                }
            }
        }
        r
    }
}

/// Transform every member of a group under the group's own polarity.
pub fn transform_group(g: &Group, neg: bool, oracle: &Oracle) -> (r: Vec<Simple>)
    ensures
        r@.len() == 1,
        view_simple(r@[0]) == SimpleV::Group(spec_transform_members(g@, neg, oracle@)),
        wf_simples(g@) && g@.len() > 0 ==> wf_simple(view_simple(r@[0])),
    decreases *g, 1int,
{
    let members = transform_members(&g.0, neg, oracle);
    let mut r: Vec<Simple> = Vec::new();
    r.push(Simple::Group(Group(members)));
    proof {
        lemma_transform_members(g@, neg, oracle@);
        lemma_view_simples(members@);
        lemma_view_simples(g.0@);
    }
    r
}

/// Transform a negation: polarity flips for everything inside it.
pub fn transform_negative(n: &Negative, neg: bool, oracle: &Oracle) -> (r: Vec<Simple>)
    ensures
        r@.len() == 1,
        view_simple(r@[0]) == SimpleV::Negative(spec_transform_negative(n@, neg, oracle@)),
        wf_negative(n@) ==> wf_simple(view_simple(r@[0])),
    decreases *n, 1int,
{
    match n {
        Negative::Group(g) => {
            let members = transform_members(&g.0, !neg, oracle);
            let mut r: Vec<Simple> = Vec::new();
            r.push(Simple::Negative(Negative::Group(Group(members))));
            proof {
                lemma_transform_members(view_simples(g.0@), !neg, oracle@);
                lemma_view_simples(members@);
                lemma_view_simples(g.0@);
                if wf_negative(n@) {
                    assert(n@ == NegativeV::Group(view_simples(g.0@)));
                    assert(wf_simples(view_simples(g.0@)));
                    assert(wf_simples(view_simples(members@)));
                    assert(view_simples(members@).len() > 0);
                    assert(view_simple(r@[0]) == SimpleV::Negative(
                        NegativeV::Group(view_simples(members@)),
                    ));
                    assert(wf_negative(NegativeV::Group(view_simples(members@))));
                }
            }
            r
        },
        Negative::Term(t) => {
            let mut one = transform_term(t, !neg, oracle);
            let x = one.remove(0);
            let ghost xv = view_simple(x);
            let ng = match x {
                Simple::Group(g2) => Negative::Group(g2),
                Simple::Term(t2) => Negative::Term(t2),
                Simple::Negative(_) => {
                    proof {
                        assert(false);
                    }
                    vstd::pervasive::unreached()
                },
            };
            proof {
                assert(view_negative(ng) == spec_transform_negative(n@, neg, oracle@));
                if wf_negative(n@) {
                    assert(wf_term(t.0@));
                    assert(wf_simple(xv));
                    assert(wf_negative(view_negative(ng)));
                }
            }
            let ghost ngv = view_negative(ng);
            let mut r: Vec<Simple> = Vec::new();
            r.push(Simple::Negative(ng));
            proof {
                assert(view_simple(r@[0]) == SimpleV::Negative(ngv));
            }
            r
        },
    }
}

/// Transform one simple under polarity `neg`.
pub fn transform_simple(simp: &Simple, neg: bool, oracle: &Oracle) -> (r: Vec<Simple>)
    ensures
        r@.len() == 1,
        view_simple(r@[0]) == spec_transform_simple(simp@, neg, oracle@),
        wf_simple(simp@) ==> wf_simple(view_simple(r@[0])),
    decreases *simp, 2int,
{
    match simp {
        Simple::Group(g) => transform_group(g, neg, oracle),
        Simple::Negative(n) => transform_negative(n, neg, oracle),
        Simple::Term(t) => transform_term(t, neg, oracle),
    }
}

fn transform_members(v: &Vec<Simple>, neg: bool, oracle: &Oracle) -> (r: Vec<Simple>)
    ensures
        view_simples(r@) == spec_transform_members(view_simples(v@), neg, oracle@),
        r@.len() == v@.len(),
        wf_simples(view_simples(v@)) ==> wf_simples(view_simples(r@)),
    decreases *v, 0int,
{
    let ghost vv = view_simples(v@);
    proof {
        lemma_view_simples(v@);
        lemma_transform_members(vv, neg, oracle@);
    }
    let mut out: Vec<Simple> = Vec::new();
    let mut i: usize = 0;
    while i < v.len()
        invariant
            i <= v@.len(),
            vv == view_simples(v@),
            vv.len() == v@.len(),
            out@.len() == i,
            forall|j: int|
                0 <= j < i ==> view_simple(#[trigger] out@[j]) == spec_transform_simple(
                    vv[j],
                    neg,
                    oracle@,
                ),
            wf_simples(vv) ==> forall|j: int|
                0 <= j < i ==> wf_simple(view_simple(#[trigger] out@[j])),
        decreases v@.len() - i,
    {
        proof {
            lemma_view_simples(v@);
        }
        let mut one = transform_simple(&v[i], neg, oracle);
        let x = one.remove(0);
        let ghost pre = out@;
        out.push(x);
        proof {
            lemma_view_simples(out@);
            lemma_view_simples(pre);
        }
        i = i + 1;
    }
    proof {
        lemma_view_simples(out@);
        assert forall|j: int| 0 <= j < out@.len() implies view_simples(out@)[j]
            == spec_transform_members(vv, neg, oracle@)[j] by {
            assert(view_simples(out@)[j] == view_simple(out@[j]));
        }
        assert(view_simples(out@) =~= spec_transform_members(vv, neg, oracle@));
        assert forall|j: int|
            wf_simples(vv) && 0 <= j < view_simples(out@).len() implies wf_simple(
            #[trigger] view_simples(out@)[j]) by {
            assert(view_simples(out@)[j] == view_simple(out@[j]));
        }
    }
    out
}

/// Parse `input`, rewrite every literal into its spelling class under
/// `oracle` with negation-aware structure, and render the result; fails
/// exactly when `input` is not a query of the grammar, with the unconsumed
/// suffix in the error.
pub fn transform(input: &str, oracle: &Oracle) -> (r: Result<String, ParseError>)
    ensures
        r is Ok <==> spec_parse_query(input@) is Some,
        r matches Ok(out) ==> spec_parse_query(input@) matches Some(vs) && out@ == render_query(
            spec_transform_members(vs, false, oracle@),
        ),
        r matches Err(e) ==> e@ == input@.subrange(
            spec_parse_list(input@, 0).1,
            input@.len() as int,
        ),
{
    match crate::parser::query(input) {
        Ok(q) => {
            let members = transform_members(&q.0, false, oracle);
            let out = Query(members).to_query_string();
            Ok(out)
        },
        Err(e) => Err(e),
    }
}

// Laws of the transform.

/// Whether every literal under `v` is orthography-invariant under `o`:
/// its spelling class holds nothing but itself.
pub open spec fn all_terms_invariant_simple(v: SimpleV, o: OracleTable) -> bool
    decreases v,
{
    match v {
        SimpleV::Group(ms) => all_terms_invariant_members(ms, o),
        SimpleV::Negative(n) => all_terms_invariant_negative(n, o),
        SimpleV::Term(t) => spellings(t, o).len() == 1,
    }
}

pub open spec fn all_terms_invariant_negative(n: NegativeV, o: OracleTable) -> bool
    decreases n,
{
    match n {
        NegativeV::Group(ms) => all_terms_invariant_members(ms, o),
        NegativeV::Term(t) => spellings(t, o).len() == 1,
    }
}

pub open spec fn all_terms_invariant_members(ms: Seq<SimpleV>, o: OracleTable) -> bool
    decreases ms,
{
    ms.len() == 0 || (all_terms_invariant_simple(ms[0], o) && all_terms_invariant_members(
        ms.drop_first(),
        o,
    ))
}

/// Idempotence on invariant input: when every literal converts only to
/// itself, the transform leaves the tree unchanged, under any polarity.
pub proof fn lemma_transform_invariant_identity(v: SimpleV, neg: bool, o: OracleTable)
    requires
        all_terms_invariant_simple(v, o),
    ensures
        spec_transform_simple(v, neg, o) == v,
    decreases v,
{
    match v {
        SimpleV::Group(ms) => {
            lemma_members_invariant(ms, neg, o);
        },
        SimpleV::Negative(n) => {
            match n {
                NegativeV::Group(ms) => {
                    lemma_members_invariant(ms, !neg, o);
                },
                NegativeV::Term(t) => {
                },
            }
        },
        SimpleV::Term(t) => {
        },
    }
}

/// Idempotence on invariant input, over a member list: a query or group
/// whose literals are all invariant transforms to itself.
pub proof fn lemma_members_invariant(ms: Seq<SimpleV>, neg: bool, o: OracleTable)
    requires
        all_terms_invariant_members(ms, o),
    ensures
        spec_transform_members(ms, neg, o) == ms,
    decreases ms,
{
    if ms.len() > 0 {
        lemma_transform_invariant_identity(ms[0], neg, o);
        lemma_members_invariant(ms.drop_first(), neg, o);
        assert(spec_transform_members(ms, neg, o) =~= ms);
    } else {
        assert(spec_transform_members(ms, neg, o) =~= ms);
    }
}

/// Transforming a literal preserves well-formedness: the spellings are
/// valid terms and an expanded group is never empty.
pub proof fn lemma_transform_term_wf(t: Seq<char>, neg: bool, o: OracleTable)
    requires
        wf_term(t),
    ensures
        wf_simple(spec_transform_term(t, neg, o)),
{
    lemma_spellings_props(t, o);
    let sp = spellings(t, o);
    if sp.len() <= 1 {
    } else if neg {
        assert forall|x: int| 0 <= x < plain_members(sp).len() implies wf_simple(
            #[trigger] plain_members(sp)[x],
        ) by {
            assert(plain_members(sp)[x] == SimpleV::Term(sp[x]));
        }
    } else {
        assert(wf_term(or_marker())) by {
            assert(or_marker().len() == 2);
            assert(is_term_char(or_marker()[0]));
            assert(is_term_char(or_marker()[1]));
        }
        assert forall|x: int| 0 <= x < or_members(sp).len() implies wf_simple(
            #[trigger] or_members(sp)[x],
        ) by {
            if x % 2 == 0 {
                assert(or_members(sp)[x] == SimpleV::Term(sp[x / 2]));
                assert(0 <= x / 2 < sp.len());
            } else {
                assert(or_members(sp)[x] == SimpleV::Term(or_marker()));
            }
        }
    }
}

/// The transform preserves well-formedness: every literal of the result
/// is a valid term and no group of the result is empty.
pub proof fn lemma_transform_preserves_wf(v: SimpleV, neg: bool, o: OracleTable)
    requires
        wf_simple(v),
    ensures
        wf_simple(spec_transform_simple(v, neg, o)),
    decreases v,
{
    match v {
        SimpleV::Group(ms) => {
            assert(ms.len() > 0);
            assert(wf_simples(ms));
            lemma_transform_preserves_wf_members(ms, neg, o);
            lemma_transform_members(ms, neg, o);
            assert(wf_simple(SimpleV::Group(spec_transform_members(ms, neg, o))));
        },
        SimpleV::Negative(n) => {
            assert(wf_negative(n));
            match n {
                NegativeV::Group(ms) => {
                    assert(wf_simples(ms));
                    lemma_transform_preserves_wf_members(ms, !neg, o);
                    lemma_transform_members(ms, !neg, o);
                    assert(wf_negative(NegativeV::Group(spec_transform_members(ms, !neg, o))));
                },
                NegativeV::Term(t) => {
                    assert(wf_term(t));
                    lemma_transform_term_wf(t, !neg, o);
                    match spec_transform_term(t, !neg, o) {
                        SimpleV::Term(t2) => {
                            assert(wf_negative(NegativeV::Term(t2)));
                        },
                        SimpleV::Group(g) => {
                            assert(wf_simple(SimpleV::Group(g)));
                            assert(wf_negative(NegativeV::Group(g)));
                        },
                        SimpleV::Negative(_) => {
                            assert(wf_negative(NegativeV::Term(t)));
                        },
                    }
                },
            }
        },
        SimpleV::Term(t) => {
            lemma_transform_term_wf(t, neg, o);
        },
    }
}

/// Transforming a member list preserves well-formedness and length.
pub proof fn lemma_transform_preserves_wf_members(ms: Seq<SimpleV>, neg: bool, o: OracleTable)
    requires
        wf_simples(ms),
    ensures
        wf_simples(spec_transform_members(ms, neg, o)),
        spec_transform_members(ms, neg, o).len() == ms.len(),
    decreases ms,
{
    lemma_transform_members(ms, neg, o);
    assert forall|i: int|
        0 <= i < spec_transform_members(ms, neg, o).len() implies wf_simple(
        #[trigger] spec_transform_members(ms, neg, o)[i],
    ) by {
        assert(wf_simple(ms[i]));
        lemma_transform_preserves_wf(ms[i], neg, o);
    }
}

/// Variant expansion for a pair: a literal with exactly two distinct
/// spellings expands, in positive position, to a group holding both
/// spellings exactly once - the original first - with the `OR` marker
/// between them.
pub proof fn lemma_pair_expansion(t: Seq<char>, o: OracleTable)
    requires
        spellings(t, o).len() == 2,
    ensures
        spellings(t, o)[0] == t,
        spellings(t, o)[1] != t,
        spec_transform_term(t, false, o) == SimpleV::Group(
            seq![
                SimpleV::Term(t),
                SimpleV::Term(or_marker()),
                SimpleV::Term(spellings(t, o)[1]),
            ],
        ),
{
    lemma_spellings_props(t, o);
    let sp = spellings(t, o);
    assert(or_members(sp) =~= seq![
        SimpleV::Term(t),
        SimpleV::Term(or_marker()),
        SimpleV::Term(sp[1]),
    ]);
}

/// Negated variant expansion for a pair: under negation the literal
/// expands to a negated group of the two plain spellings, with no `OR`
/// marker, and it renders as the two spellings each prefixed with `-`.
pub proof fn lemma_negated_pair_expansion(t: Seq<char>, o: OracleTable)
    requires
        spellings(t, o).len() == 2,
    ensures
        spec_transform_negative(NegativeV::Term(t), false, o) == NegativeV::Group(
            seq![SimpleV::Term(t), SimpleV::Term(spellings(t, o)[1])],
        ),
        render_negative(spec_transform_negative(NegativeV::Term(t), false, o)) == seq!['-'] + t
            + seq![' '] + seq!['-'] + spellings(t, o)[1],
{
    lemma_spellings_props(t, o);
    let sp = spellings(t, o);
    assert(plain_members(sp) =~= seq![SimpleV::Term(t), SimpleV::Term(sp[1])]);
    let ms = seq![SimpleV::Term(t), SimpleV::Term(sp[1])];
    assert(ms.drop_first() =~= seq![SimpleV::Term(sp[1])]);
    assert(render_neg_join(seq![SimpleV::Term(sp[1])]) == seq!['-'] + render_simple(
        SimpleV::Term(sp[1]),
    ));
    assert(render_neg_join(ms) == seq!['-'] + render_simple(ms[0]) + seq![' ']
        + render_neg_join(ms.drop_first()));
    assert(render_neg_join(ms) =~= seq!['-'] + t + seq![' '] + seq!['-'] + sp[1]);
}

} // verus!
