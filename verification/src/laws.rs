//! General properties of the engine's definitions: symmetry of the LCS
//! length, its value on equal and on empty inputs, the greedy scan's value
//! on empty inputs, and the two theorems that justify `lcs_len` against
//! the subsequence relation — the value is achieved by some common
//! subsequence and exceeded by none.

use vstd::prelude::*;

use crate::engine::greedy_init;
use crate::engine::greedy_lcs;
use crate::engine::greedy_match;
use crate::engine::greedy_scan;
use crate::engine::is_subsequence_of;
use crate::engine::lcs_len;
use crate::engine::GreedyState;

verus! {

/// LCS length is symmetric: swapping the two inputs does not change it.
pub proof fn lemma_lcs_symmetric(a: Seq<char>, b: Seq<char>)
    ensures
        lcs_len(a, b) == lcs_len(b, a),
    decreases a.len() + b.len(),
{
    if a.len() == 0 || b.len() == 0 {
    } else if a.last() == b.last() {
        lemma_lcs_symmetric(a.drop_last(), b.drop_last());
    } else {
        lemma_lcs_symmetric(a.drop_last(), b);
        lemma_lcs_symmetric(a, b.drop_last());
    }
}

/// The LCS of a sequence with itself is the whole sequence.
pub proof fn lemma_lcs_self(a: Seq<char>)
    ensures
        lcs_len(a, a) == a.len(),
    decreases a.len(),
{
    if a.len() > 0 {
        lemma_lcs_self(a.drop_last());
    }
}

/// If either input is empty, the LCS length is zero.
pub proof fn lemma_lcs_empty(a: Seq<char>, b: Seq<char>)
    requires
        a.len() == 0 || b.len() == 0,
    ensures
        lcs_len(a, b) == 0,
{
}

/// Appending an element to the target preserves the subsequence relation.
proof fn lemma_subsequence_extend_target(s: Seq<char>, t: Seq<char>, c: char)
    requires
        is_subsequence_of(s, t),
    ensures
        is_subsequence_of(s, t.push(c)),
    decreases t.len(), 1int,
{
    if s.len() > 0 {
        assert(t.push(c).drop_last() =~= t);
        if s.last() == c {
            lemma_subsequence_drop_last(s, t);
        }
    }
}

/// A subsequence with its last element removed is still a subsequence.
proof fn lemma_subsequence_drop_last(s: Seq<char>, t: Seq<char>)
    requires
        s.len() > 0,
        is_subsequence_of(s, t),
    ensures
        is_subsequence_of(s.drop_last(), t),
    decreases t.len(), 0int,
{
    if s.last() == t.last() {
        lemma_subsequence_extend_target(s.drop_last(), t.drop_last(), t.last());
        assert(t.drop_last().push(t.last()) =~= t);
    } else {
        lemma_subsequence_drop_last(s, t.drop_last());
        lemma_subsequence_extend_target(s.drop_last(), t.drop_last(), t.last());
        assert(t.drop_last().push(t.last()) =~= t);
    }
}

/// `lcs_len` is achieved: there is a common subsequence of `a` and `b`
/// whose length is exactly `lcs_len(a, b)`, and this function hands one
/// out.
pub proof fn lemma_lcs_achieved(a: Seq<char>, b: Seq<char>) -> (s: Seq<char>)
    ensures
        is_subsequence_of(s, a),
        is_subsequence_of(s, b),
        s.len() == lcs_len(a, b),
    decreases a.len() + b.len(),
{
    if a.len() == 0 || b.len() == 0 {
        Seq::empty()
    } else if a.last() == b.last() {
        let s0 = lemma_lcs_achieved(a.drop_last(), b.drop_last());
        let s = s0.push(a.last());
        assert(s.drop_last() =~= s0);
        s
    } else {
        let sa = lemma_lcs_achieved(a.drop_last(), b);
        let sb = lemma_lcs_achieved(a, b.drop_last());
        if sa.len() >= sb.len() {
            lemma_subsequence_extend_target(sa, a.drop_last(), a.last());
            assert(a.drop_last().push(a.last()) =~= a);
            sa
        } else {
            lemma_subsequence_extend_target(sb, b.drop_last(), b.last());
            assert(b.drop_last().push(b.last()) =~= b);
            sb
        }
    }
}

/// `lcs_len` is maximal: no common subsequence of `a` and `b` is longer.
pub proof fn lemma_lcs_maximal(a: Seq<char>, b: Seq<char>, s: Seq<char>)
    requires
        is_subsequence_of(s, a),
        is_subsequence_of(s, b),
    ensures
        s.len() <= lcs_len(a, b),
    decreases a.len() + b.len(),
{
    if s.len() == 0 || a.len() == 0 || b.len() == 0 {
    } else if a.last() == b.last() {
        if s.last() == a.last() {
            lemma_lcs_maximal(a.drop_last(), b.drop_last(), s.drop_last());
        } else {
            lemma_lcs_maximal(a.drop_last(), b.drop_last(), s);
        }
    } else {
        if s.last() != a.last() {
            lemma_lcs_maximal(a.drop_last(), b, s);
        } else {
            lemma_lcs_maximal(a, b.drop_last(), s);
        }
    }
}

/// A greedy scan against an empty second input changes nothing: the inner
/// pass has no position to match.
proof fn lemma_greedy_scan_empty_second(a: Seq<char>, i: int, st: GreedyState)
    ensures
        greedy_scan(a, Seq::<char>::empty(), i, st) == st,
    decreases a.len() - i,
{
    if 0 <= i < a.len() {
        assert(greedy_match(a[i], Seq::<char>::empty(), 0, st) == st);
        lemma_greedy_scan_empty_second(a, i + 1, st);
    }
}

/// If either input is empty, the greedy scan also reports zero.
pub proof fn lemma_greedy_empty(a: Seq<char>, b: Seq<char>)
    requires
        a.len() == 0 || b.len() == 0,
    ensures
        greedy_lcs(a, b) == 0,
{
    if a.len() == 0 {
    } else {
        assert(b =~= Seq::<char>::empty());
        lemma_greedy_scan_empty_second(a, 0, greedy_init());
    }
}

} // verus!
