use vstd::prelude::*;

use crate::ast::{Group, Negative, NegativeV, Query, Simple, SimpleV, Term};
use crate::ast::{is_space_char, is_term_char, wf_negative, wf_simple, wf_simples, wf_term};
use crate::ast::{lemma_view_simples, view_simple, view_simples};
use vstd::string::{StrSliceExecFns, StringExecFns};

verus! {

broadcast use vstd::std_specs::vec::group_vec_axioms, vstd::seq::group_seq_axioms;

// The grammar, reading whitespace as tab or space:
//
//   query    := simple (ws+ simple)*
//   group    := '(' ws* simple (ws+ simple)* ws* ')' ws*
//   negative := '-' ws* (group | term)
//   simple   := negative | group | term
//   term     := run of chars excluding ws, '(' and ')', at least one
//
// At each simple position a leading '-' selects negative, a leading '('
// selects group, and anything else is read as a term, so the grammar is
// deterministic; every token consumes its trailing whitespace.  The
// functions below define parsing mathematically; the executable parser is
// proved to return exactly what they say.

/// The first position at or after `i` that does not hold whitespace.
pub open spec fn spec_space_end(s: Seq<char>, i: int) -> int
    decreases s.len() - i,
{
    if 0 <= i < s.len() && is_space_char(s[i]) {
        spec_space_end(s, i + 1)
    } else {
        i
    }
}

pub proof fn lemma_space_end_bounds(s: Seq<char>, i: int)
    ensures
        i <= spec_space_end(s, i),
        i <= s.len() ==> spec_space_end(s, i) <= s.len(),
    decreases s.len() - i,
{
    if 0 <= i < s.len() && is_space_char(s[i]) {
        lemma_space_end_bounds(s, i + 1);
    }
}

/// The first position at or after `i` that does not hold a term character.
pub open spec fn spec_term_end(s: Seq<char>, i: int) -> int
    decreases s.len() - i,
{
    if 0 <= i < s.len() && is_term_char(s[i]) {
        spec_term_end(s, i + 1)
    } else {
        i
    }
}

/// Parse one term at `i`: the maximal non-empty run of term characters,
/// with its trailing whitespace consumed.
pub open spec fn spec_parse_term(s: Seq<char>, i: int) -> Option<(Seq<char>, int)> {
    let j = spec_term_end(s, i);
    if j == i {
        None
    } else {
        Some((s.subrange(i, j), spec_space_end(s, j)))
    }
}

/// Parse one negation at `i`: '-', optional whitespace, then a group or a
/// term.
pub open spec fn spec_parse_negative(s: Seq<char>, i: int) -> Option<(NegativeV, int)>
    decreases s.len() - i, 0int,
    via spec_parse_negative_dec
{
    if i < 0 || i >= s.len() || s[i] != '-' {
        None
    } else {
        let j = spec_space_end(s, i + 1);
        if j < s.len() && s[j] == '(' {
            match spec_parse_group(s, j) {
                Some((ms, k)) => Some((NegativeV::Group(ms), k)),
                None => None,
            }
        } else {
            match spec_parse_term(s, j) {
                Some((t, k)) => Some((NegativeV::Term(t), k)),
                None => None,
            }
        }
    }
}

#[via_fn]
proof fn spec_parse_negative_dec(s: Seq<char>, i: int) {
    lemma_space_end_bounds(s, i + 1);
}

/// Parse one group at `i`: '(', optional whitespace, one or more simples,
/// ')', trailing whitespace.
pub open spec fn spec_parse_group(s: Seq<char>, i: int) -> Option<(Seq<SimpleV>, int)>
    decreases s.len() - i, 1int,
    via spec_parse_group_dec
{
    if i < 0 || i >= s.len() || s[i] != '(' {
        None
    } else {
        let j = spec_space_end(s, i + 1);
        let (ms, p) = spec_parse_list(s, j);
        if ms.len() > 0 && 0 <= p < s.len() && s[p] == ')' {
            Some((ms, spec_space_end(s, p + 1)))
        } else {
            None
        }
    }
}

#[via_fn]
proof fn spec_parse_group_dec(s: Seq<char>, i: int) {
    lemma_space_end_bounds(s, i + 1);
}

/// Parse one simple at `i`, dispatching on the first character.
pub open spec fn spec_parse_simple(s: Seq<char>, i: int) -> Option<(SimpleV, int)>
    decreases s.len() - i, 2int,
{
    if i < 0 || i >= s.len() {
        None
    } else if s[i] == '-' {
        match spec_parse_negative(s, i) {
            Some((n, j)) => Some((SimpleV::Negative(n), j)),
            None => None,
        }
    } else if s[i] == '(' {
        match spec_parse_group(s, i) {
            Some((ms, j)) => Some((SimpleV::Group(ms), j)),
            None => None,
        }
    } else {
        match spec_parse_term(s, i) {
            Some((t, j)) => Some((SimpleV::Term(t), j)),
            None => None,
        }
    }
}

/// Parse as many simples as possible from `i` on, returning them with the
/// position where the run stopped.
pub open spec fn spec_parse_list(s: Seq<char>, i: int) -> (Seq<SimpleV>, int)
    decreases s.len() - i, 3int,
{
    match spec_parse_simple(s, i) {
        Some((v, j)) => if i < j <= s.len() {
            let (vs, k) = spec_parse_list(s, j);
            (seq![v] + vs, k)
        } else {
            // a successful parse always advances within the input, so this
            // branch is unreachable; it only bounds the recursion
            (seq![v], j)
        },
        None => (Seq::empty(), i),
    }
}

/// Parse a whole query: one or more simples consuming the entire input.
pub open spec fn spec_parse_query(s: Seq<char>) -> Option<Seq<SimpleV>> {
    let (vs, j) = spec_parse_list(s, 0);
    if vs.len() > 0 && j == s.len() {
        Some(vs)
    } else {
        None
    }
}

/// The input could not be parsed in full; `rest` is the unconsumed suffix.
#[derive(Debug, PartialEq, Eq)]
pub struct ParseError {
    pub rest: String,
}

impl View for ParseError {
    type V = Seq<char>;

    open spec fn view(&self) -> Seq<char> {
        self.rest@
    }
}

fn space_end(s: &str, n: usize, i: usize) -> (r: usize)
    requires
        n == s@.len(),
        i <= n,
    ensures
        r == spec_space_end(s@, i as int),
        i <= r <= n,
        forall|k: int| i <= k < r ==> is_space_char(#[trigger] s@[k]),
        r < n ==> !is_space_char(s@[r as int]),
    decreases n - i,
{
    if i < n {
        let c = s.get_char(i);
        if c == ' ' || c == '\t' {
            return space_end(s, n, i + 1);
        }
    }
    i
}

fn term_end(s: &str, n: usize, i: usize) -> (r: usize)
    requires
        n == s@.len(),
        i <= n,
    ensures
        r == spec_term_end(s@, i as int),
        i <= r <= n,
        forall|k: int| i <= k < r ==> is_term_char(#[trigger] s@[k]),
        r < n ==> !is_term_char(s@[r as int]),
    decreases n - i,
{
    if i < n {
        let c = s.get_char(i);
        if c != ' ' && c != '\t' && c != '(' && c != ')' {
            return term_end(s, n, i + 1);
        }
    }
    i
}

fn parse_term(s: &str, n: usize, i: usize) -> (r: Option<(Term, usize)>)
    requires
        n == s@.len(),
        i <= n,
    ensures
        match r {
            Some((t, j)) => spec_parse_term(s@, i as int) == Some((t@, j as int)) && i < j <= n
                && wf_term(t@),
            None => spec_parse_term(s@, i as int) is None,
        },
{
    let j = term_end(s, n, i);
    if j == i {
        None
    } else {
        let text = s.substring_char(i, j);
        let t = Term(String::from_str(text));
        let k = space_end(s, n, j);
        Some((t, k))
    }
}

fn parse_negative(s: &str, n: usize, i: usize) -> (r: Option<(Negative, usize)>)
    requires
        n == s@.len(),
        i <= n,
    ensures
        match r {
            Some((ng, j)) => spec_parse_negative(s@, i as int) == Some((ng@, j as int)) && i < j
                <= n && wf_negative(ng@),
            None => spec_parse_negative(s@, i as int) is None,
        },
    decreases n - i, 0int,
{
    if i >= n {
        return None;
    }
    if s.get_char(i) != '-' {
        return None;
    }
    let j = space_end(s, n, i + 1);
    if j < n && s.get_char(j) == '(' {
        match parse_group(s, n, j) {
            Some((g, k)) => Some((Negative::Group(g), k)),
            None => None,
        }
    } else {
        match parse_term(s, n, j) {
            Some((t, k)) => Some((Negative::Term(t), k)),
            None => None,
        }
    }
}

fn parse_group(s: &str, n: usize, i: usize) -> (r: Option<(Group, usize)>)
    requires
        n == s@.len(),
        i <= n,
    ensures
        match r {
            Some((g, j)) => spec_parse_group(s@, i as int) == Some((g@, j as int)) && i < j <= n
                && g@.len() > 0 && wf_simples(g@),
            None => spec_parse_group(s@, i as int) is None,
        },
    decreases n - i, 1int,
{
    if i >= n {
        return None;
    }
    if s.get_char(i) != '(' {
        return None;
    }
    let j = space_end(s, n, i + 1);
    let (members, p) = parse_list(s, n, j);
    if members.len() == 0 {
        return None;
    }
    if p >= n {
        return None;
    }
    if s.get_char(p) != ')' {
        return None;
    }
    let q = space_end(s, n, p + 1);
    Some((Group(members), q))
}

fn parse_simple(s: &str, n: usize, i: usize) -> (r: Option<(Simple, usize)>)
    requires
        n == s@.len(),
        i <= n,
    ensures
        match r {
            Some((sp, j)) => spec_parse_simple(s@, i as int) == Some((sp@, j as int)) && i < j
                <= n && wf_simple(sp@),
            None => spec_parse_simple(s@, i as int) is None,
        },
    decreases n - i, 2int,
{
    if i >= n {
        return None;
    }
    let c = s.get_char(i);
    if c == '-' {
        match parse_negative(s, n, i) {
            Some((ng, j)) => Some((Simple::Negative(ng), j)),
            None => None,
        }
    } else if c == '(' {
        match parse_group(s, n, i) {
            Some((g, j)) => Some((Simple::Group(g), j)),
            None => None,
        }
    } else {
        match parse_term(s, n, i) {
            Some((t, j)) => Some((Simple::Term(t), j)),
            None => None,
        }
    }
}

fn parse_list(s: &str, n: usize, i: usize) -> (r: (Vec<Simple>, usize))
    requires
        n == s@.len(),
        i <= n,
    ensures
        ({
            let (vs, k) = spec_parse_list(s@, i as int);
            view_simples(r.0@) == vs && r.1 == k && i <= r.1 <= n && wf_simples(vs)
        }),
    decreases n - i, 3int,
{
    match parse_simple(s, n, i) {
        None => {
            let out: Vec<Simple> = Vec::new();
            proof {
                assert(view_simples(out@) =~= Seq::<SimpleV>::empty());
            }
            (out, i)
        },
        Some((v, j)) => {
            let (mut rest, k) = parse_list(s, n, j);
            let ghost rest0 = rest@;
            let ghost vv = view_simple(v);
            let mut out: Vec<Simple> = Vec::new();
            out.push(v);
            out.append(&mut rest);
            proof {
                assert(out@ =~= seq![out@[0]] + rest0);
                lemma_view_simples(out@);
                lemma_view_simples(rest0);
                let lhs = view_simples(out@);
                let rhs = seq![vv] + view_simples(rest0);
                assert forall|x: int| 0 <= x < lhs.len() implies lhs[x] == rhs[x] by {
                    if x > 0 {
                        assert(out@[x] == rest0[x - 1]);
                    }
                }
                assert(lhs =~= rhs);
                assert forall|x: int| 0 <= x < rhs.len() implies wf_simple(#[trigger] rhs[x]) by {
                    if x > 0 {
                        assert(rhs[x] == view_simples(rest0)[x - 1]);
                    }
                }
            }
            (out, k)
        },
    }
}

/// Parse a whole query string.  Succeeds exactly when the input is one or
/// more simples that consume the input in full; otherwise the error carries
/// the unconsumed suffix.
pub fn query(input: &str) -> (r: Result<Query, ParseError>)
    ensures
        r is Ok <==> spec_parse_query(input@) is Some,
        r matches Ok(q) ==> spec_parse_query(input@) == Some(q@) && q@.len() > 0 && wf_simples(
            q@,
        ),
        r matches Err(e) ==> e@ == input@.subrange(
            spec_parse_list(input@, 0).1,
            input@.len() as int,
        ),
{
    let n = input.unicode_len();
    let (members, j) = parse_list(input, n, 0);
    if members.len() > 0 && j == n {
        proof {
            lemma_view_simples(members@);
        }
        Ok(Query(members))
    } else {
        let rest = String::from_str(input.substring_char(j, n));
        Err(ParseError { rest })
    }
}

} // verus!
