use vstd::prelude::*;

use crate::ast::{NegativeV, SimpleV, is_space_char, is_term_char, wf_term};
use crate::parser::{spec_parse_group, spec_parse_list, spec_parse_negative, spec_parse_query,
    spec_parse_simple, spec_parse_term, spec_space_end, spec_term_end};
use crate::render::{render_join, render_neg_join, render_query, render_simple};

verus! {

broadcast use vstd::std_specs::vec::group_vec_axioms, vstd::seq::group_seq_axioms;

// The closure law: the rendering of a tree parses again.  The proof views
// the rendered text as whitespace-joined fragments, each an optional `-`
// followed by one literal or one parenthesized group, and shows that the
// parser consumes the fragments one by one.

/// The one-character text of the negation operator.
pub open spec fn dash() -> Seq<char> {
    seq!['-']
}

/// Trees the closure law covers: literals are valid terms, a literal in
/// positive position is not the bare `-`, groups are non-empty, and a
/// negated group holds no negation directly among its members.
pub open spec fn renderable_simple(v: SimpleV) -> bool
    decreases v,
{
    match v {
        SimpleV::Term(t) => wf_term(t) && t != dash(),
        SimpleV::Group(ms) => ms.len() > 0 && renderable_members(ms),
        SimpleV::Negative(n) => match n {
            NegativeV::Term(t) => wf_term(t),
            NegativeV::Group(ms) => ms.len() > 0 && renderable_members(ms) && no_negatives(ms),
        },
    }
}

pub open spec fn renderable_members(ms: Seq<SimpleV>) -> bool
    decreases ms,
{
    ms.len() == 0 || (renderable_simple(ms[0]) && renderable_members(ms.drop_first()))
}

pub open spec fn no_negatives(ms: Seq<SimpleV>) -> bool {
    forall|i: int| 0 <= i < ms.len() ==> !((#[trigger] ms[i]) is Negative)
}

/// Trees in which every negation applies to a single literal.
pub open spec fn term_negation_simple(v: SimpleV) -> bool
    decreases v,
{
    match v {
        SimpleV::Term(_) => true,
        SimpleV::Group(ms) => term_negation_members(ms),
        SimpleV::Negative(n) => n is Term,
    }
}

pub open spec fn term_negation_members(ms: Seq<SimpleV>) -> bool
    decreases ms,
{
    ms.len() == 0 || (term_negation_simple(ms[0]) && term_negation_members(ms.drop_first()))
}

pub open spec fn frag_term_negation(f: (bool, SimpleV)) -> bool {
    (match f.1 {
        SimpleV::Term(_) => true,
        SimpleV::Group(ms) => term_negation_members(ms),
        SimpleV::Negative(_) => false,
    }) && (f.0 ==> f.1 is Term)
}

pub open spec fn frags_term_negation(fs: Seq<(bool, SimpleV)>) -> bool {
    forall|i: int| 0 <= i < fs.len() ==> frag_term_negation(#[trigger] fs[i])
}

// Fragments: what stands between the whitespace of a rendered member list.

/// One fragment: negated or not, and a literal or a group.
pub open spec fn frag_ok(f: (bool, SimpleV)) -> bool {
    match f.1 {
        SimpleV::Term(t) => wf_term(t) && (!f.0 ==> t != dash()),
        SimpleV::Group(ms) => ms.len() > 0 && renderable_members(ms),
        SimpleV::Negative(_) => false,
    }
}

pub open spec fn frags_ok(fs: Seq<(bool, SimpleV)>) -> bool {
    forall|i: int| 0 <= i < fs.len() ==> frag_ok(#[trigger] fs[i])
}

pub open spec fn frag_text(f: (bool, SimpleV)) -> Seq<char> {
    if f.0 {
        seq!['-'] + render_simple(f.1)
    } else {
        render_simple(f.1)
    }
}

pub open spec fn frags_text(fs: Seq<(bool, SimpleV)>) -> Seq<char>
    decreases fs,
{
    if fs.len() == 0 {
        Seq::empty()
    } else if fs.len() == 1 {
        frag_text(fs[0])
    } else {
        frag_text(fs[0]) + seq![' '] + frags_text(fs.drop_first())
    }
}

/// The fragments of a negated group: each member with its own `-`.
pub open spec fn neg_frags(ms: Seq<SimpleV>) -> Seq<(bool, SimpleV)>
    decreases ms,
{
    if ms.len() == 0 {
        Seq::empty()
    } else {
        seq![(true, ms[0])] + neg_frags(ms.drop_first())
    }
}

/// The fragments of one member.
pub open spec fn member_frags(v: SimpleV) -> Seq<(bool, SimpleV)> {
    match v {
        SimpleV::Term(_) => seq![(false, v)],
        SimpleV::Group(_) => seq![(false, v)],
        SimpleV::Negative(n) => match n {
            NegativeV::Term(t) => seq![(true, SimpleV::Term(t))],
            NegativeV::Group(ms) => neg_frags(ms),
        },
    }
}

/// The fragments of a member list.
pub open spec fn list_frags(ms: Seq<SimpleV>) -> Seq<(bool, SimpleV)>
    decreases ms,
{
    if ms.len() == 0 {
        Seq::empty()
    } else {
        member_frags(ms[0]) + list_frags(ms.drop_first())
    }
}

// A termination measure that shrinks both when a fragment is consumed and
// when the proof descends into a group.

pub open spec fn weight_simple(v: SimpleV) -> nat
    decreases v,
{
    match v {
        SimpleV::Term(_) => 1,
        SimpleV::Group(ms) => 2 + weight_members(ms),
        SimpleV::Negative(n) => match n {
            NegativeV::Term(_) => 1,
            NegativeV::Group(ms) => weight_members(ms),
        },
    }
}

pub open spec fn weight_members(ms: Seq<SimpleV>) -> nat
    decreases ms,
{
    if ms.len() == 0 {
        0
    } else {
        weight_simple(ms[0]) + weight_members(ms.drop_first())
    }
}

pub open spec fn weight_frags(fs: Seq<(bool, SimpleV)>) -> nat
    decreases fs,
{
    if fs.len() == 0 {
        0
    } else {
        weight_simple(fs[0].1) + weight_frags(fs.drop_first())
    }
}

proof fn lemma_weight_frags_concat(a: Seq<(bool, SimpleV)>, b: Seq<(bool, SimpleV)>)
    ensures
        weight_frags(a + b) == weight_frags(a) + weight_frags(b),
    decreases a,
{
    if a.len() == 0 {
        assert(a + b =~= b);
    } else {
        lemma_weight_frags_concat(a.drop_first(), b);
        assert((a + b).drop_first() =~= a.drop_first() + b);
        assert((a + b)[0] == a[0]);
    }
}

proof fn lemma_weight_neg_frags(ms: Seq<SimpleV>)
    ensures
        weight_frags(neg_frags(ms)) == weight_members(ms),
    decreases ms,
{
    if ms.len() > 0 {
        lemma_weight_neg_frags(ms.drop_first());
        assert(neg_frags(ms)[0] == (true, ms[0]));
        assert(neg_frags(ms).drop_first() =~= neg_frags(ms.drop_first()));
    }
}

proof fn lemma_weight_frag_single(f: (bool, SimpleV))
    ensures
        weight_frags(seq![f]) == weight_simple(f.1),
{
    assert(seq![f].len() == 1);
    assert(seq![f][0] == f);
    assert(seq![f].drop_first().len() == 0);
    assert(weight_frags(seq![f].drop_first()) == 0);
}

proof fn lemma_weight_member_frags(v: SimpleV)
    ensures
        weight_frags(member_frags(v)) == weight_simple(v),
{
    match v {
        SimpleV::Term(_) => {
            lemma_weight_frag_single((false, v));
        },
        SimpleV::Group(_) => {
            lemma_weight_frag_single((false, v));
        },
        SimpleV::Negative(n) => match n {
            NegativeV::Group(ms) => {
                lemma_weight_neg_frags(ms);
            },
            NegativeV::Term(t) => {
                lemma_weight_frag_single((true, SimpleV::Term(t)));
            },
        },
    }
}

proof fn lemma_weight_list_frags(ms: Seq<SimpleV>)
    ensures
        weight_frags(list_frags(ms)) == weight_members(ms),
    decreases ms,
{
    if ms.len() > 0 {
        lemma_weight_list_frags(ms.drop_first());
        lemma_weight_member_frags(ms[0]);
        lemma_weight_frags_concat(member_frags(ms[0]), list_frags(ms.drop_first()));
    }
}

// The rendered text of a member list is exactly its fragments, joined by
// single spaces.

proof fn lemma_frags_text_concat(a: Seq<(bool, SimpleV)>, b: Seq<(bool, SimpleV)>)
    requires
        a.len() >= 1,
        b.len() >= 1,
    ensures
        frags_text(a + b) == frags_text(a) + seq![' '] + frags_text(b),
    decreases a,
{
    let ab = a + b;
    assert(ab[0] == a[0]);
    if a.len() == 1 {
        assert(ab.drop_first() =~= b);
        assert(frags_text(ab) =~= frags_text(a) + seq![' '] + frags_text(b));
    } else {
        lemma_frags_text_concat(a.drop_first(), b);
        assert(ab.drop_first() =~= a.drop_first() + b);
        assert(frags_text(ab) =~= frags_text(a) + seq![' '] + frags_text(b));
    }
}

proof fn lemma_neg_frags_nonempty_ok(ms: Seq<SimpleV>)
    requires
        renderable_members(ms),
        no_negatives(ms),
    ensures
        neg_frags(ms).len() == ms.len(),
        frags_ok(neg_frags(ms)),
    decreases ms,
{
    if ms.len() > 0 {
        lemma_neg_frags_nonempty_ok(ms.drop_first());
        assert forall|i: int| 0 <= i < neg_frags(ms).len() implies frag_ok(
            #[trigger] neg_frags(ms)[i],
        ) by {
            if i == 0 {
                assert(neg_frags(ms)[0] == (true, ms[0]));
                assert(renderable_simple(ms[0]));
            } else {
                assert(neg_frags(ms)[i] == neg_frags(ms.drop_first())[i - 1]);
            }
        }
    }
}

proof fn lemma_render_neg_join_is_frags(ms: Seq<SimpleV>)
    requires
        renderable_members(ms),
        no_negatives(ms),
        ms.len() >= 1,
    ensures
        render_neg_join(ms) == frags_text(neg_frags(ms)),
    decreases ms,
{
    assert(frag_text((true, ms[0])) == seq!['-'] + render_simple(ms[0]));
    if ms.len() == 1 {
        assert(ms.drop_first().len() == 0);
        assert(neg_frags(ms.drop_first()) =~= Seq::<(bool, SimpleV)>::empty());
        assert(neg_frags(ms) =~= seq![(true, ms[0])]);
    } else {
        lemma_render_neg_join_is_frags(ms.drop_first());
        assert(neg_frags(ms)[0] == (true, ms[0]));
        assert(neg_frags(ms).drop_first() =~= neg_frags(ms.drop_first()));
        assert(neg_frags(ms).len() == ms.len()) by {
            lemma_neg_frags_nonempty_ok(ms);
        }
        assert(render_neg_join(ms) =~= frags_text(neg_frags(ms)));
    }
}

proof fn lemma_member_frags_ok(v: SimpleV)
    requires
        renderable_simple(v),
    ensures
        member_frags(v).len() >= 1,
        frags_ok(member_frags(v)),
        render_simple(v) == frags_text(member_frags(v)),
{
    match v {
        SimpleV::Term(_) => {
        },
        SimpleV::Group(_) => {
        },
        SimpleV::Negative(n) => match n {
            NegativeV::Term(t) => {
            },
            NegativeV::Group(ms) => {
                lemma_neg_frags_nonempty_ok(ms);
                lemma_render_neg_join_is_frags(ms);
            },
        },
    }
}

proof fn lemma_list_frags_ok(ms: Seq<SimpleV>)
    requires
        renderable_members(ms),
        ms.len() >= 1,
    ensures
        list_frags(ms).len() >= 1,
        frags_ok(list_frags(ms)),
        render_join(ms) == frags_text(list_frags(ms)),
    decreases ms,
{
    lemma_member_frags_ok(ms[0]);
    if ms.len() == 1 {
        assert(list_frags(ms) =~= member_frags(ms[0]));
    } else {
        lemma_list_frags_ok(ms.drop_first());
        lemma_frags_text_concat(member_frags(ms[0]), list_frags(ms.drop_first()));
        assert forall|i: int| 0 <= i < list_frags(ms).len() implies frag_ok(
            #[trigger] list_frags(ms)[i],
        ) by {
            let a = member_frags(ms[0]);
            if i < a.len() {
                assert(list_frags(ms)[i] == a[i]);
            } else {
                assert(list_frags(ms)[i] == list_frags(ms.drop_first())[i - a.len()]);
            }
        }
    }
}

// Text plumbing: splitting a known stretch of the input, and runs of term
// characters.

proof fn lemma_tail_chars(s: Seq<char>, i: int, u: Seq<char>)
    requires
        0 <= i,
        i + u.len() <= s.len(),
        s.subrange(i, i + u.len()) == u,
    ensures
        forall|k: int| 0 <= k < u.len() ==> s[i + k] == u[k],
{
    assert forall|k: int| 0 <= k < u.len() implies s[i + k] == u[k] by {
        assert(s.subrange(i, i + u.len())[k] == s[i + k]);
    }
}

proof fn lemma_tail_split(s: Seq<char>, i: int, a: Seq<char>, b: Seq<char>)
    requires
        0 <= i,
        i + a.len() + b.len() <= s.len(),
        s.subrange(i, i + a.len() + b.len()) == a + b,
    ensures
        s.subrange(i, i + a.len()) == a,
        s.subrange(i + a.len(), i + a.len() + b.len()) == b,
{
    let w = s.subrange(i, i + a.len() + b.len());
    assert forall|k: int| 0 <= k < a.len() implies s.subrange(i, i + a.len())[k] == a[k] by {
        assert(s.subrange(i, i + a.len())[k] == s[i + k]);
        assert(w[k] == s[i + k]);
        assert(w[k] == (a + b)[k]);
    }
    assert(s.subrange(i, i + a.len()) =~= a);
    assert forall|k: int| 0 <= k < b.len() implies s.subrange(
        i + a.len(),
        i + a.len() + b.len(),
    )[k] == b[k] by {
        assert(s.subrange(i + a.len(), i + a.len() + b.len())[k] == s[i + a.len() + k]);
        assert(w[a.len() + k] == s[i + a.len() + k]);
        assert(w[a.len() + k] == (a + b)[a.len() + k]);
    }
    assert(s.subrange(i + a.len(), i + a.len() + b.len()) =~= b);
}

proof fn lemma_term_end_run(s: Seq<char>, i: int, l: int)
    requires
        0 <= i,
        0 <= l,
        i + l <= s.len(),
        forall|k: int| i <= k < i + l ==> is_term_char(#[trigger] s[k]),
        i + l == s.len() || !is_term_char(s[i + l]),
    ensures
        spec_term_end(s, i) == i + l,
    decreases l,
{
    if l > 0 {
        lemma_term_end_run(s, i + 1, l - 1);
    }
}

/// A fragment's text is non-empty and starts with a character the list
/// parser can start a simple with: never whitespace, never `)`.
proof fn lemma_frag_first(f: (bool, SimpleV))
    requires
        frag_ok(f),
    ensures
        frag_text(f).len() >= 1,
        !is_space_char(frag_text(f)[0]),
        frag_text(f)[0] != ')',
{
    if f.0 {
        assert(frag_text(f)[0] == '-');
    } else {
        match f.1 {
            SimpleV::Term(t) => {
                assert(frag_text(f)[0] == t[0]);
                assert(is_term_char(t[0]));
            },
            SimpleV::Group(ms) => {
                assert(frag_text(f)[0] == '(');
            },
            SimpleV::Negative(_) => {
                assert(false);
            },
        }
    }
}

proof fn lemma_frags_text_first(fs: Seq<(bool, SimpleV)>)
    requires
        frags_ok(fs),
        fs.len() >= 1,
    ensures
        frags_text(fs).len() >= 1,
        !is_space_char(frags_text(fs)[0]),
        frags_text(fs)[0] != ')',
{
    assert(frag_ok(fs[0]));
    lemma_frag_first(fs[0]);
    if fs.len() > 1 {
        assert(frags_text(fs)[0] == frag_text(fs[0])[0]);
    }
}

proof fn lemma_list_frags_term_negation(ms: Seq<SimpleV>)
    requires
        term_negation_members(ms),
    ensures
        frags_term_negation(list_frags(ms)),
    decreases ms,
{
    if ms.len() > 0 {
        lemma_list_frags_term_negation(ms.drop_first());
        let a = member_frags(ms[0]);
        assert(a.len() == 1 && frag_term_negation(a[0])) by {
            assert(term_negation_simple(ms[0]));
            match ms[0] {
                SimpleV::Term(_) => {
                },
                SimpleV::Group(_) => {
                },
                SimpleV::Negative(n) => {
                    assert(n is Term);
                    assert(a == seq![(true, SimpleV::Term(n->Term_0))]);
                },
            }
        }
        assert forall|i: int| 0 <= i < list_frags(ms).len() implies frag_term_negation(
            #[trigger] list_frags(ms)[i],
        ) by {
            if i == 0 {
                assert(list_frags(ms)[0] == a[0]);
            } else {
                assert(list_frags(ms)[i] == list_frags(ms.drop_first())[i - 1]);
            }
        }
    }
}

// The heart of the closure law: the parser consumes one fragment as one
// simple, then the rest of the fragments.

/// Parsing one fragment: when the text at `i` is the fragment and the
/// character after it (if any) is a space or `)`, one simple is parsed,
/// ending at the first non-space position after the fragment.
proof fn lemma_frag_parse(s: Seq<char>, i: int, f: (bool, SimpleV))
    requires
        frag_ok(f),
        0 <= i,
        i + frag_text(f).len() <= s.len(),
        s.subrange(i, i + frag_text(f).len()) == frag_text(f),
        i + frag_text(f).len() == s.len() || s[i + frag_text(f).len()] == ')' || s[i + frag_text(
            f,
        ).len()] == ' ',
    ensures
        spec_parse_simple(s, i) is Some,
        (spec_parse_simple(s, i)->Some_0).1 == spec_space_end(s, i + frag_text(f).len()),
        frag_term_negation(f) ==> render_simple((spec_parse_simple(s, i)->Some_0).0)
            == frag_text(f),
    decreases weight_simple(f.1), 0int,
{
    let u = frag_text(f);
    let e = i + u.len();
    lemma_frag_first(f);
    lemma_tail_chars(s, i, u);
    match f.1 {
        SimpleV::Term(t) => {
            if f.0 {
                // text: '-' then the literal
                assert(u.len() == 1 + t.len());
                assert(u[0] == '-');
                assert(s[i + 0] == u[0]);
                assert(u[1] == t[0]);
                assert(s[i + 1] == u[1]);
                assert(is_term_char(t[0]));
                assert(spec_space_end(s, i + 1) == i + 1);
                assert forall|k: int| i + 1 <= k < e implies is_term_char(#[trigger] s[k]) by {
                    assert(s[k] == u[k - i]);
                    assert(u[k - i] == t[k - i - 1]);
                }
                lemma_term_end_run(s, i + 1, t.len() as int);
                let tv = s.subrange(i + 1, e);
                assert(spec_parse_term(s, i + 1) == Some((tv, spec_space_end(s, e))));
                assert(spec_parse_negative(s, i) == Some(
                    (NegativeV::Term(tv), spec_space_end(s, e)),
                ));
                assert(spec_parse_simple(s, i) == Some(
                    (SimpleV::Negative(NegativeV::Term(tv)), spec_space_end(s, e)),
                ));
                assert(tv =~= t) by {
                    assert forall|k: int| 0 <= k < t.len() implies tv[k] == t[k] by {
                        assert(tv[k] == s[i + 1 + k]);
                        assert(s[i + (1 + k)] == u[1 + k]);
                        assert(u[1 + k] == t[k]);
                    }
                }
                assert(render_simple(SimpleV::Negative(NegativeV::Term(t))) =~= u);
            } else {
                assert(u == t);
                assert forall|k: int| i <= k < e implies is_term_char(#[trigger] s[k]) by {
                    assert(s[k] == t[k - i]);
                }
                assert(s[i] == t[0]);
                assert(is_term_char(t[0]));
                if s[i] == '-' {
                    // the literal itself starts with a dash; it is not the
                    // bare dash, so the run after the operator is non-empty
                    if t.len() == 1 {
                        assert(t =~= dash());
                        assert(false);
                    }
                    assert(s[i + 1] == t[1]);
                    assert(is_term_char(t[1]));
                    assert(spec_space_end(s, i + 1) == i + 1);
                    lemma_term_end_run(s, i + 1, t.len() - 1);
                    let tv = s.subrange(i + 1, e);
                    assert(spec_parse_term(s, i + 1) == Some((tv, spec_space_end(s, e))));
                    assert(spec_parse_negative(s, i) == Some(
                        (NegativeV::Term(tv), spec_space_end(s, e)),
                    ));
                    assert(spec_parse_simple(s, i) == Some(
                        (SimpleV::Negative(NegativeV::Term(tv)), spec_space_end(s, e)),
                    ));
                    assert(render_simple(SimpleV::Negative(NegativeV::Term(tv))) =~= t) by {
                        assert forall|k: int| 0 <= k < tv.len() implies tv[k] == t[1 + k] by {
                            assert(tv[k] == s[i + 1 + k]);
                            assert(s[i + (1 + k)] == u[1 + k]);
                        }
                        assert(s[i + 0] == u[0]);
                    }
                } else {
                    lemma_term_end_run(s, i, t.len() as int);
                    assert(s.subrange(i, e) == t);
                    assert(spec_parse_term(s, i) == Some((t, spec_space_end(s, e))));
                    assert(spec_parse_simple(s, i) == Some(
                        (SimpleV::Term(t), spec_space_end(s, e)),
                    ));
                }
            }
        },
        SimpleV::Group(ms) => {
            let rj = render_join(ms);
            let g0 = if f.0 {
                i + 1
            } else {
                i
            };
            assert(render_simple(f.1) == seq!['('] + rj + seq![')']);
            // the characters of the group fragment
            assert forall|k: int| 0 <= k < rj.len() implies s[g0 + 1 + k] == rj[k] by {
                let off = g0 + 1 + k - i;
                assert(s[i + off] == u[off]);
                if f.0 {
                    assert(u[off] == render_simple(f.1)[off - 1]);
                    assert(render_simple(f.1)[off - 1] == rj[k]);
                } else {
                    assert(u[off] == rj[k]);
                }
            }
            assert(s[g0] == '(') by {
                assert(s[i + (g0 - i)] == u[g0 - i]);
            }
            assert(s[g0 + 1 + rj.len()] == ')') by {
                let off = g0 + 1 + rj.len() - i;
                assert(s[i + off] == u[off]);
            }
            lemma_list_frags_ok(ms);
            let fs2 = list_frags(ms);
            lemma_frags_text_first(fs2);
            assert(s[g0 + 1] == rj[0]);
            assert(spec_space_end(s, g0 + 1) == g0 + 1);
            assert(s.subrange(g0 + 1, g0 + 1 + rj.len()) =~= rj) by {
                assert forall|k: int| 0 <= k < rj.len() implies s.subrange(
                    g0 + 1,
                    g0 + 1 + rj.len(),
                )[k] == rj[k] by {
                    assert(s.subrange(g0 + 1, g0 + 1 + rj.len())[k] == s[g0 + 1 + k]);
                }
            }
            lemma_weight_list_frags(ms);
            lemma_frags_parse(s, g0 + 1, fs2);
            let p = g0 + 1 + rj.len();
            assert(spec_parse_list(s, g0 + 1).1 == p);
            assert(spec_parse_list(s, g0 + 1).0.len() >= 1);
            assert(p + 1 == e);
            let vs = spec_parse_list(s, g0 + 1).0;
            assert(spec_parse_group(s, g0) == Some((vs, spec_space_end(s, e))));
            if frag_term_negation(f) {
                let ms2 = f.1->Group_0;
                lemma_list_frags_term_negation(ms2);
                assert(render_join(vs) == rj);
                assert(render_simple(SimpleV::Group(vs)) =~= render_simple(f.1));
            }
            if f.0 {
                assert(s[i] == '-');
                assert(spec_space_end(s, i + 1) == i + 1);
                assert(spec_parse_negative(s, i) == Some(
                    (NegativeV::Group(vs), spec_space_end(s, e)),
                ));
                assert(spec_parse_simple(s, i) == Some(
                    (SimpleV::Negative(NegativeV::Group(vs)), spec_space_end(s, e)),
                ));
            } else {
                assert(spec_parse_simple(s, i) == Some(
                    (SimpleV::Group(vs), spec_space_end(s, e)),
                ));
            }
        },
        SimpleV::Negative(_) => {
            assert(false);
        },
    }
}

/// Parsing a run of fragments: the list parser consumes them all, one or
/// more simples, ending exactly at the end of their text.
proof fn lemma_frags_parse(s: Seq<char>, i: int, fs: Seq<(bool, SimpleV)>)
    requires
        frags_ok(fs),
        fs.len() >= 1,
        0 <= i,
        i + frags_text(fs).len() <= s.len(),
        s.subrange(i, i + frags_text(fs).len()) == frags_text(fs),
        i + frags_text(fs).len() == s.len() || s[i + frags_text(fs).len()] == ')',
    ensures
        spec_parse_list(s, i).0.len() >= 1,
        spec_parse_list(s, i).1 == i + frags_text(fs).len(),
        frags_term_negation(fs) ==> render_join(spec_parse_list(s, i).0) == frags_text(fs),
    decreases weight_frags(fs), 1int,
{
    let f = fs[0];
    assert(frag_ok(f));
    let u = frag_text(f);
    let e1 = i + u.len();
    let e = i + frags_text(fs).len();
    if fs.len() == 1 {
        assert(frags_text(fs) == u);
        lemma_frag_parse(s, i, f);
        let v2 = (spec_parse_simple(s, i)->Some_0).0;
        assert(spec_parse_simple(s, i) == Some((v2, spec_space_end(s, e1))));
        assert(spec_space_end(s, e1) == e1);
        lemma_frag_first(f);
        assert(i < e1 <= s.len());
        // nothing more parses at the stopper
        if e1 < s.len() {
            assert(s[e1] == ')');
            assert(spec_term_end(s, e1) == e1);
            assert(spec_parse_simple(s, e1) is None);
        }
        assert(spec_parse_list(s, e1) == (Seq::<SimpleV>::empty(), e1));
        assert(spec_parse_list(s, i) == (seq![v2] + Seq::<SimpleV>::empty(), e1));
        assert((seq![v2] + Seq::<SimpleV>::empty()).len() == 1);
        if frags_term_negation(fs) {
            assert(frag_term_negation(fs[0]));
            let out = seq![v2] + Seq::<SimpleV>::empty();
            assert(out[0] == v2);
            assert(render_join(out) == render_simple(v2));
            assert(render_join(spec_parse_list(s, i).0) == frags_text(fs));
        }
    } else {
        let rest = fs.drop_first();
        assert(frags_ok(rest)) by {
            assert forall|k: int| 0 <= k < rest.len() implies frag_ok(#[trigger] rest[k]) by {
                assert(rest[k] == fs[k + 1]);
            }
        }
        let rt = frags_text(rest);
        assert(frags_text(fs) == u + seq![' '] + rt);
        lemma_tail_split(s, i, u + seq![' '], rt);
        lemma_tail_split(s, i, u, seq![' ']);
        assert(s[e1] == ' ') by {
            lemma_tail_chars(s, e1, seq![' ']);
            assert(s[e1 + 0] == seq![' '][0]);
        }
        lemma_frag_parse(s, i, f);
        let v2 = (spec_parse_simple(s, i)->Some_0).0;
        assert(spec_parse_simple(s, i) == Some((v2, spec_space_end(s, e1))));
        lemma_frags_text_first(rest);
        assert(s[e1 + 1] == rt[0]) by {
            lemma_tail_chars(s, e1 + 1, rt);
            assert(s[(e1 + 1) + 0] == rt[0]);
        }
        assert(spec_space_end(s, e1 + 1) == e1 + 1);
        assert(spec_space_end(s, e1) == e1 + 1);
        assert(weight_simple(f.1) >= 1) by {
            match f.1 {
                SimpleV::Negative(_) => {
                    assert(false);
                },
                _ => {
                },
            }
        }
        lemma_frags_parse(s, e1 + 1, rest);
        lemma_frag_first(f);
        assert(i < e1 + 1 <= s.len());
        assert(spec_parse_list(s, i) == (
            seq![v2] + spec_parse_list(s, e1 + 1).0,
            spec_parse_list(s, e1 + 1).1,
        ));
        assert(e1 + 1 + rt.len() == e);
        if frags_term_negation(fs) {
            assert(frag_term_negation(fs[0]));
            assert(frags_term_negation(rest)) by {
                assert forall|k: int| 0 <= k < rest.len() implies frag_term_negation(
                    #[trigger] rest[k],
                ) by {
                    assert(rest[k] == fs[k + 1]);
                }
            }
            let vs2 = spec_parse_list(s, e1 + 1).0;
            let out = seq![v2] + vs2;
            assert(out.len() >= 2);
            assert(out[0] == v2);
            assert(out.drop_first() =~= vs2);
            assert(render_join(out) == render_simple(v2) + seq![' '] + render_join(vs2));
            assert(render_join(spec_parse_list(s, i).0) =~= frags_text(fs));
        }
    }
}

/// The closure law: rendering a renderable tree yields text the parser
/// accepts in full.
pub proof fn lemma_render_reparses(ms: Seq<SimpleV>)
    requires
        renderable_members(ms),
        ms.len() >= 1,
    ensures
        spec_parse_query(render_query(ms)) is Some,
{
    let s = render_query(ms);
    lemma_list_frags_ok(ms);
    let fs = list_frags(ms);
    assert(s.subrange(0, s.len() as int) =~= s);
    lemma_frags_parse(s, 0, fs);
}

/// Round trip on canonical text: for a tree whose negations apply to
/// single literals, parsing its rendering succeeds and rendering the
/// parsed tree reproduces the text exactly.
pub proof fn lemma_canonical_round_trip(ms: Seq<SimpleV>)
    requires
        renderable_members(ms),
        term_negation_members(ms),
        ms.len() >= 1,
    ensures
        spec_parse_query(render_query(ms)) is Some,
        render_query(spec_parse_query(render_query(ms))->Some_0) == render_query(ms),
{
    let s = render_query(ms);
    lemma_list_frags_ok(ms);
    lemma_list_frags_term_negation(ms);
    let fs = list_frags(ms);
    assert(s.subrange(0, s.len() as int) =~= s);
    lemma_frags_parse(s, 0, fs);
}

} // verus!
