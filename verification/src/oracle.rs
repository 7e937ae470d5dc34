use vstd::prelude::*;

use crate::ast::{Term, is_term_char, wf_term};
use vstd::string::StrSliceExecFns;

verus! {

broadcast use vstd::std_specs::vec::group_vec_axioms, vstd::seq::group_seq_axioms;

// The orthography oracle: for a fixed, ordered set of named conversion
// schemes it maps a literal to the spelling that scheme gives it.  The
// transform is parameterized over the oracle, so any caller may supply its
// own scheme set; the program around the library fills the tables from a
// real conversion engine for exactly the literals of the query at hand,
// and tests supply controlled tables.

/// The mathematical content of one scheme: an association table over
/// character sequences, read by first match.
pub type SchemeTable = Seq<(Seq<char>, Seq<char>)>;

/// The mathematical content of an oracle: its schemes in order.
pub type OracleTable = Seq<SchemeTable>;

/// One conversion scheme: spellings it rewrites, as pairs of source and
/// converted text.  A literal that no pair mentions converts to itself.
pub struct Scheme {
    pub pairs: Vec<(String, String)>,
}

/// An ordered set of conversion schemes.
pub struct Oracle {
    pub schemes: Vec<Scheme>,
}

impl View for Scheme {
    type V = SchemeTable;

    open spec fn view(&self) -> SchemeTable {
        Seq::new(self.pairs@.len(), |i: int| (self.pairs@[i].0@, self.pairs@[i].1@))
    }
}

impl View for Oracle {
    type V = OracleTable;

    open spec fn view(&self) -> OracleTable {
        Seq::new(self.schemes@.len(), |i: int| self.schemes@[i]@)
    }
}

/// What converting `t` under a scheme yields: the second component of the
/// first pair whose first component is `t`, or `t` itself.
pub open spec fn scheme_convert(pairs: SchemeTable, t: Seq<char>) -> Seq<char>
    decreases pairs.len(),
{
    if pairs.len() == 0 {
        t
    } else if pairs[0].0 == t {
        pairs[0].1
    } else {
        scheme_convert(pairs.drop_first(), t)
    }
}

impl Scheme {
    /// Convert `t` under this scheme.
    pub fn convert(&self, t: &String) -> (r: String)
        ensures
            r@ == scheme_convert(self@, t@),
    {
        let mut idx: usize = 0;
        proof {
            assert(self@.skip(0) =~= self@);
        }
        while idx < self.pairs.len()
            invariant
                idx <= self.pairs@.len(),
                scheme_convert(self@.skip(idx as int), t@) == scheme_convert(self@, t@),
            decreases self.pairs@.len() - idx,
        {
            if self.pairs[idx].0 == *t {
                proof {
                    assert(self@.skip(idx as int)[0] == self@[idx as int]);
                }
                return self.pairs[idx].1.clone();
            }
            proof {
                assert(self@.skip(idx as int)[0] == self@[idx as int]);
                assert(self@.skip(idx as int).drop_first() =~= self@.skip(idx as int + 1));
            }
            idx = idx + 1;
        }
        proof {
            assert(self@.skip(idx as int).len() == 0);
        }
        t.clone()
    }
}

/// The elementwise view of a vector of strings.
pub open spec fn strings_view(v: Seq<String>) -> Seq<Seq<char>> {
    Seq::new(v.len(), |i: int| v[i]@)
}

/// Add one candidate spelling: kept only when it is itself a valid term
/// and not present yet.
pub open spec fn add_spelling(acc: Seq<Seq<char>>, c: Seq<char>) -> Seq<Seq<char>> {
    if wf_term(c) && !acc.contains(c) {
        acc.push(c)
    } else {
        acc
    }
}

pub open spec fn spellings_upto(t: Seq<char>, o: OracleTable, k: int) -> Seq<Seq<char>>
    decreases k,
{
    if k <= 0 {
        seq![t]
    } else {
        add_spelling(spellings_upto(t, o, k - 1), scheme_convert(o[k - 1], t))
    }
}

/// The distinct spellings of `t` under oracle `o`: `t` itself first, then
/// each scheme's conversion in scheme order, each kept only when it is a
/// valid term not seen before.
pub open spec fn spellings(t: Seq<char>, o: OracleTable) -> Seq<Seq<char>> {
    spellings_upto(t, o, o.len() as int)
}

/// The spelling set always holds the original literal first, holds no
/// duplicates, and holds only valid terms when the literal is one.
pub proof fn lemma_spellings_upto_props(t: Seq<char>, o: OracleTable, k: int)
    ensures
        spellings_upto(t, o, k).len() >= 1,
        spellings_upto(t, o, k)[0] == t,
        wf_term(t) ==> forall|i: int|
            0 <= i < spellings_upto(t, o, k).len() ==> wf_term(#[trigger] spellings_upto(t, o, k)[i]),
        forall|i: int, j: int|
            0 <= i < j < spellings_upto(t, o, k).len() ==> spellings_upto(t, o, k)[i]
                != spellings_upto(t, o, k)[j],
    decreases k,
{
    if k > 0 {
        lemma_spellings_upto_props(t, o, k - 1);
        let prev = spellings_upto(t, o, k - 1);
        let c = scheme_convert(o[k - 1], t);
        if wf_term(c) && !prev.contains(c) {
            assert forall|i: int, j: int|
                0 <= i < j < prev.push(c).len() implies prev.push(c)[i] != prev.push(c)[j] by {
                if j == prev.len() {
                    assert(!prev.contains(c));
                    assert(prev[i] != c);
                }
            }
        }
    }
}

pub proof fn lemma_spellings_props(t: Seq<char>, o: OracleTable)
    ensures
        spellings(t, o).len() >= 1,
        spellings(t, o)[0] == t,
        wf_term(t) ==> forall|i: int|
            0 <= i < spellings(t, o).len() ==> wf_term(#[trigger] spellings(t, o)[i]),
        forall|i: int, j: int|
            0 <= i < j < spellings(t, o).len() ==> spellings(t, o)[i] != spellings(t, o)[j],
{
    lemma_spellings_upto_props(t, o, o.len() as int);
}

/// Whether the text of `c` is a valid term: non-empty, free of whitespace
/// and parentheses.
fn is_term_string(c: &String) -> (b: bool)
    ensures
        b == wf_term(c@),
{
    let s = c.as_str();
    let n = s.unicode_len();
    if n == 0 {
        return false;
    }
    let mut i: usize = 0;
    while i < n
        invariant
            n == s@.len(),
            s@ == c@,
            i <= n,
            forall|k: int| 0 <= k < i ==> is_term_char(#[trigger] s@[k]),
        decreases n - i,
    {
        let ch = s.get_char(i);
        if ch == ' ' || ch == '\t' || ch == '(' || ch == ')' {
            return false;
        }
        i = i + 1;
    }
    true
}

fn contains_string(v: &Vec<String>, c: &String) -> (b: bool)
    ensures
        b == strings_view(v@).contains(c@),
{
    let mut i: usize = 0;
    while i < v.len()
        invariant
            i <= v@.len(),
            forall|k: int| 0 <= k < i ==> v@[k]@ != c@,
        decreases v@.len() - i,
    {
        if v[i] == *c {
            assert(strings_view(v@)[i as int] == c@);
            return true;
        }
        i = i + 1;
    }
    assert forall|k: int| 0 <= k < strings_view(v@).len() implies strings_view(v@)[k] != c@ by {
        assert(v@[k]@ != c@);
    }
    false
}

/// The distinct spellings of `a` under `oracle`, original text first.
pub fn term_spellings(a: &Term, oracle: &Oracle) -> (r: Vec<String>)
    ensures
        strings_view(r@) == spellings(a@, oracle@),
{
    let mut out: Vec<String> = Vec::new();
    out.push(a.0.clone());
    proof {
        assert(strings_view(out@) =~= seq![a.0@]);
    }
    let mut k: usize = 0;
    while k < oracle.schemes.len()
        invariant
            k <= oracle.schemes@.len(),
            strings_view(out@) == spellings_upto(a@, oracle@, k as int),
        decreases oracle.schemes@.len() - k,
    {
        let ghost pre = out@;
        let c = oracle.schemes[k].convert(&a.0);
        proof {
            assert(oracle@[k as int] == oracle.schemes@[k as int]@);
        }
        if is_term_string(&c) {
            if !contains_string(&out, &c) {
                out.push(c);
                proof {
                    assert(strings_view(out@) =~= strings_view(pre).push(out@[out@.len() - 1]@));
                }
            }
        }
        k = k + 1;
    }
    out
}

} // verus!
