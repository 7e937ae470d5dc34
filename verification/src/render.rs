use vstd::prelude::*;

use crate::ast::{Group, Negative, NegativeV, Query, Simple, SimpleV, Term};
use vstd::string::StringExecFns;
use crate::ast::{lemma_view_simples, view_negative, view_simple, view_simples};

verus! {

broadcast use vstd::std_specs::vec::group_vec_axioms, vstd::seq::group_seq_axioms;

// The serializer: renders a tree back to the textual query language.
//
// A query renders its members space-joined; a group adds parentheses; a
// negated term renders as `-` glued to the term; a negated group renders
// every member with its own `-` prefix, space-joined, which realizes the
// conjunction of negated members textually.

pub open spec fn render_simple(v: SimpleV) -> Seq<char>
    decreases v,
{
    match v {
        SimpleV::Group(ms) => seq!['('] + render_join(ms) + seq![')'],
        SimpleV::Negative(n) => render_negative(n),
        SimpleV::Term(t) => t,
    }
}

pub open spec fn render_negative(n: NegativeV) -> Seq<char>
    decreases n,
{
    match n {
        NegativeV::Group(ms) => render_neg_join(ms),
        NegativeV::Term(t) => seq!['-'] + t,
    }
}

pub open spec fn render_join(ms: Seq<SimpleV>) -> Seq<char>
    decreases ms,
{
    if ms.len() == 0 {
        Seq::empty()
    } else if ms.len() == 1 {
        render_simple(ms[0])
    } else {
        render_simple(ms[0]) + seq![' '] + render_join(ms.drop_first())
    }
}

pub open spec fn render_neg_join(ms: Seq<SimpleV>) -> Seq<char>
    decreases ms,
{
    if ms.len() == 0 {
        Seq::empty()
    } else if ms.len() == 1 {
        seq!['-'] + render_simple(ms[0])
    } else {
        seq!['-'] + render_simple(ms[0]) + seq![' '] + render_neg_join(ms.drop_first())
    }
}

pub open spec fn render_query(ms: Seq<SimpleV>) -> Seq<char> {
    render_join(ms)
}

impl Simple {
    /// Render this node in the textual query language.
    pub fn to_query_string(&self) -> (r: String)
        ensures
            r@ == render_simple(self@),
        decreases *self, 0int,
    {
        match self {
            Simple::Group(g) => g.to_query_string(),
            Simple::Negative(n) => n.to_query_string(),
            Simple::Term(t) => t.to_query_string(),
        }
    }
}

impl Term {
    /// Render this term: its raw text, unchanged.
    pub fn to_query_string(&self) -> (r: String)
        ensures
            r@ == self@,
    {
        self.0.clone()
    }
}

impl Group {
    /// Render this group: `(`, members space-joined, `)`.
    pub fn to_query_string(&self) -> (r: String)
        ensures
            r@ == seq!['('] + render_join(self@) + seq![')'],
        decreases *self, 0int,
    {
        let mut out = String::from_str("(");
        let inner = render_members(&self.0, 0);
        out.append(inner.as_str());
        out.append(")");
        proof {
            reveal_strlit("(");
            reveal_strlit(")");
            assert(view_simples(self.0@).skip(0) =~= view_simples(self.0@));
            assert(out@ =~= seq!['('] + render_join(self@) + seq![')']);
        }
        out
    }
}

impl Negative {
    /// Render this negation: `-` glued to a term, or each group member
    /// prefixed with `-` and space-joined.
    pub fn to_query_string(&self) -> (r: String)
        ensures
            r@ == render_negative(self@),
        decreases *self, 0int,
    {
        match self {
            Negative::Group(g) => {
                let r = render_neg_members(&g.0, 0);
                proof {
                    assert(view_simples(g.0@).skip(0) =~= view_simples(g.0@));
                }
                r
            },
            Negative::Term(t) => {
                let mut out = String::from_str("-");
                out.append(t.0.as_str());
                proof {
                    reveal_strlit("-");
                    assert(out@ =~= seq!['-'] + t.0@);
                }
                out
            },
        }
    }
}

impl Query {
    /// Render this query: members space-joined; an empty query renders as
    /// the empty string.
    pub fn to_query_string(&self) -> (r: String)
        ensures
            r@ == render_query(self@),
    {
        let r = render_members(&self.0, 0);
        proof {
            assert(view_simples(self.0@).skip(0) =~= view_simples(self.0@));
        }
        r
    }
}

/// Render the members of `v` from index `i` on, space-joined.
fn render_members(v: &Vec<Simple>, i: usize) -> (r: String)
    requires
        i <= v@.len(),
    ensures
        r@ == render_join(view_simples(v@).skip(i as int)),
    decreases *v, v@.len() - i,
{
    proof {
        lemma_view_simples(v@);
    }
    if i >= v.len() {
        let r = String::new();
        proof {
            assert(view_simples(v@).skip(i as int) =~= Seq::<SimpleV>::empty());
        }
        r
    } else {
        let ghost vs = view_simples(v@).skip(i as int);
        let mut out = (&v[i]).to_query_string();
        proof {
            assert(vs[0] == view_simple(v@[i as int]));
        }
        if i + 1 < v.len() {
            let rest = render_members(v, i + 1);
            out.append(" ");
            out.append(rest.as_str());
            proof {
                reveal_strlit(" ");
                assert(vs.drop_first() =~= view_simples(v@).skip(i + 1));
                assert(out@ =~= render_simple(vs[0]) + seq![' '] + render_join(vs.drop_first()));
            }
        } else {
            proof {
                assert(vs.len() == 1);
            }
        }
        out
    }
}

/// Render the members of `v` from index `i` on, each with its own `-`
/// prefix, space-joined.
fn render_neg_members(v: &Vec<Simple>, i: usize) -> (r: String)
    requires
        i <= v@.len(),
    ensures
        r@ == render_neg_join(view_simples(v@).skip(i as int)),
    decreases *v, v@.len() - i,
{
    proof {
        lemma_view_simples(v@);
    }
    if i >= v.len() {
        let r = String::new();
        proof {
            assert(view_simples(v@).skip(i as int) =~= Seq::<SimpleV>::empty());
        }
        r
    } else {
        let ghost vs = view_simples(v@).skip(i as int);
        let mut out = String::from_str("-");
        let piece = (&v[i]).to_query_string();
        out.append(piece.as_str());
        proof {
            reveal_strlit("-");
            assert(vs[0] == view_simple(v@[i as int]));
            assert(out@ =~= seq!['-'] + render_simple(vs[0]));
        }
        if i + 1 < v.len() {
            let rest = render_neg_members(v, i + 1);
            out.append(" ");
            out.append(rest.as_str());
            proof {
                reveal_strlit(" ");
                assert(vs.drop_first() =~= view_simples(v@).skip(i + 1));
                assert(out@ =~= seq!['-'] + render_simple(vs[0]) + seq![' '] + render_neg_join(
                    vs.drop_first(),
                ));
            }
        } else {
            proof {
                assert(vs.len() == 1);
            }
        }
        out
    }
}

} // verus!
