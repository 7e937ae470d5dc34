use vstd::prelude::*;

verus! {

broadcast use vstd::std_specs::vec::group_vec_axioms, vstd::seq::group_seq_axioms;

// The abstract syntax of the boolean query language.
//
// A query is an implicit conjunction of simples; a group is a parenthesized
// conjunction; a negative negates a single term or a whole group; a term is
// one literal token.

/// A single literal token: a maximal run of characters that are neither
/// whitespace nor parentheses.
#[derive(Debug, PartialEq, Eq, Clone)]
pub struct Term(pub String);

/// Logical negation applied to a group or to a single term.
#[derive(Debug, PartialEq, Eq)]
pub enum Negative {
    Group(Group),
    Term(Term),
}

/// The unit repeated at every nesting level of the tree.
#[derive(Debug, PartialEq, Eq)]
pub enum Simple {
    Group(Group),
    Negative(Negative),
    Term(Term),
}

/// A parenthesized, ordered conjunction of simples.
#[derive(Debug, PartialEq, Eq)]
pub struct Group(pub Vec<Simple>);

/// The parse root: an ordered conjunction of simples.
#[derive(Debug, PartialEq, Eq)]
pub struct Query(pub Vec<Simple>);

// Mathematical models of the tree: the same shapes over sequences of
// characters, used by every contract in the crate.

pub enum NegativeV {
    Group(Seq<SimpleV>),
    Term(Seq<char>),
}

pub enum SimpleV {
    Group(Seq<SimpleV>),
    Negative(NegativeV),
    Term(Seq<char>),
}

pub open spec fn view_negative(n: Negative) -> NegativeV
    decreases n,
{
    match n {
        Negative::Group(g) => NegativeV::Group(view_simples(g.0@)),
        Negative::Term(t) => NegativeV::Term(t.0@),
    }
}

pub open spec fn view_simple(s: Simple) -> SimpleV
    decreases s,
{
    match s {
        Simple::Group(g) => SimpleV::Group(view_simples(g.0@)),
        Simple::Negative(n) => SimpleV::Negative(view_negative(n)),
        Simple::Term(t) => SimpleV::Term(t.0@),
    }
}

pub open spec fn view_simples(vs: Seq<Simple>) -> Seq<SimpleV>
    decreases vs,
{
    if vs.len() == 0 {
        Seq::empty()
    } else {
        seq![view_simple(vs[0])] + view_simples(vs.drop_first())
    }
}

/// The view of a sequence of simples is its elementwise view.
pub proof fn lemma_view_simples(vs: Seq<Simple>)
    ensures
        view_simples(vs).len() == vs.len(),
        forall|i: int| 0 <= i < vs.len() ==> view_simples(vs)[i] == view_simple(#[trigger] vs[i]),
    decreases vs,
{
    if vs.len() > 0 {
        lemma_view_simples(vs.drop_first());
        assert forall|i: int| 0 <= i < vs.len() implies view_simples(vs)[i] == view_simple(
            #[trigger] vs[i],
        ) by {
            if i > 0 {
                assert(view_simples(vs)[i] == view_simples(vs.drop_first())[i - 1]);
                assert(vs.drop_first()[i - 1] == vs[i]);
            }
        }
    }
}

impl View for Term {
    type V = Seq<char>;

    open spec fn view(&self) -> Seq<char> {
        self.0@
    }
}

impl View for Negative {
    type V = NegativeV;

    open spec fn view(&self) -> NegativeV {
        view_negative(*self)
    }
}

impl View for Simple {
    type V = SimpleV;

    open spec fn view(&self) -> SimpleV {
        view_simple(*self)
    }
}

impl View for Group {
    type V = Seq<SimpleV>;

    open spec fn view(&self) -> Seq<SimpleV> {
        view_simples(self.0@)
    }
}

impl View for Query {
    type V = Seq<SimpleV>;

    open spec fn view(&self) -> Seq<SimpleV> {
        view_simples(self.0@)
    }
}

// Well-formedness: terms are non-empty and free of whitespace and
// parentheses; groups and queries are non-empty.

/// Viewing a sequence of simples commutes with appending one element.
pub proof fn lemma_view_simples_push(vs: Seq<Simple>, x: Simple)
    ensures
        view_simples(vs.push(x)) == view_simples(vs).push(view_simple(x)),
{
    lemma_view_simples(vs.push(x));
    lemma_view_simples(vs);
    assert forall|i: int| 0 <= i < vs.push(x).len() implies view_simples(vs.push(x))[i]
        == view_simples(vs).push(view_simple(x))[i] by {
        if i < vs.len() {
            assert(vs.push(x)[i] == vs[i]);
        } else {
            assert(vs.push(x)[i] == x);
        }
    }
    assert(view_simples(vs.push(x)) =~= view_simples(vs).push(view_simple(x)));
}

pub open spec fn is_space_char(c: char) -> bool {
    c == ' ' || c == '\t'
}

pub open spec fn is_term_char(c: char) -> bool {
    !is_space_char(c) && c != '(' && c != ')'
}

pub open spec fn wf_term(t: Seq<char>) -> bool {
    t.len() > 0 && forall|i: int| 0 <= i < t.len() ==> is_term_char(#[trigger] t[i])
}

pub open spec fn wf_simple(v: SimpleV) -> bool
    decreases v,
{
    match v {
        SimpleV::Group(ms) => ms.len() > 0 && forall|i: int|
            0 <= i < ms.len() ==> wf_simple(#[trigger] ms[i]),
        SimpleV::Negative(n) => wf_negative(n),
        SimpleV::Term(t) => wf_term(t),
    }
}

pub open spec fn wf_negative(n: NegativeV) -> bool
    decreases n,
{
    match n {
        NegativeV::Group(ms) => ms.len() > 0 && forall|i: int|
            0 <= i < ms.len() ==> wf_simple(#[trigger] ms[i]),
        NegativeV::Term(t) => wf_term(t),
    }
}

pub open spec fn wf_simples(vs: Seq<SimpleV>) -> bool {
    forall|i: int| 0 <= i < vs.len() ==> wf_simple(#[trigger] vs[i])
}

} // verus!
