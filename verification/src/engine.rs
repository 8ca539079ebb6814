//! The LCS engine: the mathematical definition of LCS length and the
//! three executable strategies that compute it (or, for the greedy scan,
//! a documented heuristic under-approximation of it).

use vstd::prelude::*;

verus! {

/// Length of the longest common subsequence of `a` and `b`: the greatest
/// length of any sequence obtainable from both by deleting elements while
/// preserving relative order (no contiguity required).
///
/// Defined by the textbook recurrence on the last elements; that the value
/// is indeed the greatest length of a common subsequence is proved by
/// `laws::lemma_lcs_achieved` and `laws::lemma_lcs_maximal`.
pub open spec fn lcs_len(a: Seq<char>, b: Seq<char>) -> nat
    decreases a.len() + b.len(),
{
    if a.len() == 0 || b.len() == 0 {
        0
    } else if a.last() == b.last() {
        lcs_len(a.drop_last(), b.drop_last()) + 1
    } else {
        let skip_a = lcs_len(a.drop_last(), b);
        let skip_b = lcs_len(a, b.drop_last());
        if skip_a >= skip_b {
            skip_a
        } else {
            skip_b
        }
    }
}

/// Whether `s` can be obtained from `t` by deleting zero or more elements,
/// preserving relative order.  Matches from the right: equal last elements
/// are paired, otherwise the last element of `t` is deleted.
pub open spec fn is_subsequence_of(s: Seq<char>, t: Seq<char>) -> bool
    decreases t.len(),
{
    if s.len() == 0 {
        true
    } else if t.len() == 0 {
        false
    } else if s.last() == t.last() {
        is_subsequence_of(s.drop_last(), t.drop_last())
    } else {
        is_subsequence_of(s, t.drop_last())
    }
}

/// The LCS length never exceeds the length of either input.
pub proof fn lemma_lcs_len_bound(a: Seq<char>, b: Seq<char>)
    ensures
        lcs_len(a, b) <= a.len(),
        lcs_len(a, b) <= b.len(),
    decreases a.len() + b.len(),
{
    if a.len() == 0 || b.len() == 0 {
    } else if a.last() == b.last() {
        lemma_lcs_len_bound(a.drop_last(), b.drop_last());
    } else {
        lemma_lcs_len_bound(a.drop_last(), b);
        lemma_lcs_len_bound(a, b.drop_last());
    }
}

/// Helper facts about prefixes: dropping the last element of a prefix of
/// length `n + 1` gives the prefix of length `n`, whose last element is the
/// element at index `n`.
proof fn lemma_take_step(s: Seq<char>, n: int)
    requires
        0 <= n < s.len(),
    ensures
        s.take(n + 1).len() == n + 1,
        s.take(n + 1).last() == s[n],
        s.take(n + 1).drop_last() =~= s.take(n),
{
}

/// Recursive strategy: computes the LCS length of the prefixes
/// `x[0..=i]` and `y[0..=j]` by plain top-down recursion, without
/// memoization (exponential time in the worst case), where `-1` stands
/// for the empty prefix.
pub fn lcs_rec(x: &String, y: &String, i: i32, j: i32) -> (r: i32)
    requires
        -1 <= i < x@.len(),
        -1 <= j < y@.len(),
        x@.len() <= i32::MAX,
        y@.len() <= i32::MAX,
    ensures
        r == lcs_len(x@.take(i + 1), y@.take(j + 1)),
    decreases i + 1, j + 1,
{
    if i == -1 || j == -1 {
        return 0;
    }
    let xc = x.as_str().get_char(i as usize);
    let yc = y.as_str().get_char(j as usize);
    proof {
        lemma_take_step(x@, i as int);
        lemma_take_step(y@, j as int);
    }
    if xc == yc {
        let sub = lcs_rec(x, y, i - 1, j - 1);
        proof {
            lemma_lcs_len_bound(x@.take(i as int), y@.take(j as int));
        }
        sub + 1
    } else {
        let skip_x = lcs_rec(x, y, i - 1, j);
        let skip_y = lcs_rec(x, y, i, j - 1);
        if skip_x >= skip_y {
            skip_x
        } else {
            skip_y
        }
    }
}

/// Dynamic-programming strategy: builds the full `(m + 1) x (n + 1)` table
/// in which entry `(i, j)` is the LCS length of the prefixes `x[0..i)` and
/// `y[0..j)`, and returns the entry for the whole of both inputs.
#[verifier::loop_isolation(false)]
pub fn lcs_dynamic(x: &String, y: &String) -> (r: i32)
    requires
        x@.len() <= i32::MAX,
        y@.len() <= i32::MAX,
    ensures
        r == lcs_len(x@, y@),
{
    let xs = x.as_str();
    let ys = y.as_str();
    let m = xs.unicode_len();
    let n = ys.unicode_len();

    let mut dp: Vec<Vec<i32>> = Vec::new();
    let mut row0: Vec<i32> = Vec::new();
    let mut q: usize = 0;
    while q <= n
        invariant
            q <= n + 1,
            row0@.len() == q,
            forall|k: int| 0 <= k < q ==> row0@[k] == 0,
        decreases n + 1 - q,
    {
        row0.push(0);
        q += 1;
    }
    dp.push(row0);

    let mut i: usize = 1;
    while i <= m
        invariant
            1 <= i <= m + 1,
            dp@.len() == i,
            forall|p: int| 0 <= p < i ==> dp@[p]@.len() == n + 1,
            forall|p: int, qq: int|
                0 <= p < i && 0 <= qq <= n ==> dp@[p]@[qq] == lcs_len(
                    x@.take(p),
                    y@.take(qq),
                ),
        decreases m + 1 - i,
    {
        let mut row: Vec<i32> = Vec::new();
        row.push(0);
        let mut j: usize = 1;
        while j <= n
            invariant
                1 <= j <= n + 1,
                row@.len() == j,
                forall|qq: int| 0 <= qq < j ==> row@[qq] == lcs_len(x@.take(i as int), y@.take(qq)),
            decreases n + 1 - j,
        {
            proof {
                lemma_take_step(x@, i - 1);
                lemma_take_step(y@, j - 1);
                lemma_lcs_len_bound(x@.take(i - 1), y@.take(j - 1));
            }
            let val: i32 = if xs.get_char(i - 1) == ys.get_char(j - 1) {
                dp[i - 1][j - 1] + 1
            } else {
                let up = dp[i - 1][j];
                let left = row[j - 1];
                if up >= left {
                    up
                } else {
                    left
                }
            };
            proof {
                assert(dp@[i - 1]@[j - 1] == lcs_len(x@.take(i - 1), y@.take(j - 1)));
                assert(dp@[i - 1]@[j as int] == lcs_len(x@.take(i - 1), y@.take(j as int)));
                assert(row@[j - 1] == lcs_len(x@.take(i as int), y@.take(j - 1)));
            }
            row.push(val);
            j += 1;
        }
        dp.push(row);
        i += 1;
    }
    proof {
        assert(x@.take(m as int) =~= x@);
        assert(y@.take(n as int) =~= y@);
    }
    dp[m][n]
}

/// Scratch state of the greedy scan: the set of symbols already used in a
/// match, the highest index in `b` matched so far, and the running count.
pub struct GreedyState {
    pub matched: Set<char>,
    pub cursor: int,
    pub count: int,
}

/// The greedy scan's inner pass over `b` from index `j` on, looking for
/// matches of the single symbol `x`.  A position `j` matches when its
/// symbol is not yet used, equals `x`, and lies strictly beyond the cursor;
/// a match records `x` as used, moves the cursor to `j`, and counts one.
pub open spec fn greedy_match(x: char, b: Seq<char>, j: int, st: GreedyState) -> GreedyState
    decreases b.len() - j,
{
    if j < 0 || j >= b.len() {
        st
    } else {
        let y = b[j];
        let next = if !st.matched.contains(y) && x == y && j > st.cursor {
            GreedyState { matched: st.matched.insert(x), cursor: j, count: st.count + 1 }
        } else {
            st
        };
        greedy_match(x, b, j + 1, next)
    }
}

/// The greedy scan's outer pass over `a` from index `i` on: a symbol of
/// `a` already used in a match is skipped outright; any other symbol gets
/// a full inner pass over `b`.
pub open spec fn greedy_scan(a: Seq<char>, b: Seq<char>, i: int, st: GreedyState) -> GreedyState
    decreases a.len() - i,
{
    if i < 0 || i >= a.len() {
        st
    } else {
        let x = a[i];
        let next = if st.matched.contains(x) {
            st
        } else {
            greedy_match(x, b, 0, st)
        };
        greedy_scan(a, b, i + 1, next)
    }
}

/// State the greedy scan starts from: nothing matched, cursor at zero,
/// count at zero.
pub open spec fn greedy_init() -> GreedyState {
    GreedyState { matched: Set::empty(), cursor: 0, count: 0 }
}

/// The count the greedy scan reports for `a` against `b`.  This is a
/// heuristic, not the true LCS length: a symbol value of `a` can be
/// matched at most once however often it occurs, and no match is possible
/// at index `0` of `b` since the cursor starts there.
pub open spec fn greedy_lcs(a: Seq<char>, b: Seq<char>) -> int {
    greedy_scan(a, b, 0, greedy_init()).count
}

/// Whether `v` holds the character `c`.
fn contains_char(v: &Vec<char>, c: char) -> (r: bool)
    ensures
        r == v@.contains(c),
{
    let mut k: usize = 0;
    while k < v.len()
        invariant
            k <= v@.len(),
            forall|t: int| 0 <= t < k ==> v@[t] != c,
        decreases v@.len() - k,
    {
        if v[k] == c {
            return true;
        }
        k += 1;
    }
    false
}

/// Greedy strategy: scans `x` once, and for each not-yet-used symbol scans
/// the whole of `y` for matching positions beyond the cursor.  Reproduces
/// the heuristic exactly as specified by `greedy_lcs`; its result can fall
/// short of the true LCS length.
#[verifier::loop_isolation(false)]
pub fn lcs_for(x: &String, y: &String) -> (r: i32)
    requires
        x@.len() <= i32::MAX,
        y@.len() <= i32::MAX,
    ensures
        r == greedy_lcs(x@, y@),
{
    let xs = x.as_str();
    let ys = y.as_str();
    let m = xs.unicode_len();
    let n = ys.unicode_len();

    let mut lcs: i32 = 0;
    let mut already_counted_chars: Vec<char> = Vec::new();
    let mut max_char_pos: usize = 0;

    let ghost target = greedy_scan(x@, y@, 0, greedy_init());
    proof {
        assert(already_counted_chars@.to_set() =~= Set::<char>::empty());
    }

    let mut i: usize = 0;
    while i < m
        invariant
            i <= m,
            0 <= lcs <= max_char_pos,
            max_char_pos == 0 || max_char_pos < n,
            greedy_scan(
                x@,
                y@,
                i as int,
                (GreedyState {
                    matched: already_counted_chars@.to_set(),
                    cursor: max_char_pos as int,
                    count: lcs as int,
                }),
            ) == target,
        decreases m - i,
    {
        let x_char = xs.get_char(i);

        if !contains_char(&already_counted_chars, x_char) {
            let ghost entry = (GreedyState {
                matched: already_counted_chars@.to_set(),
                cursor: max_char_pos as int,
                count: lcs as int,
            });
            let ghost inner_target = greedy_match(x_char, y@, 0, entry);

            let mut j: usize = 0;
            while j < n
                invariant
                    j <= n,
                    0 <= lcs <= max_char_pos,
                    max_char_pos == 0 || max_char_pos < n,
                    greedy_match(
                        x_char,
                        y@,
                        j as int,
                        (GreedyState {
                            matched: already_counted_chars@.to_set(),
                            cursor: max_char_pos as int,
                            count: lcs as int,
                        }),
                    ) == inner_target,
                decreases n - j,
            {
                let y_char = ys.get_char(j);

                if !contains_char(&already_counted_chars, y_char) {
                    if x_char == y_char && j > max_char_pos {
                        let ghost prev = already_counted_chars@;
                        already_counted_chars.push(x_char);
                        max_char_pos = j;
                        lcs = lcs + 1;
                        proof {
                            broadcast use vstd::seq_lib::lemma_seq_contains_after_push;

                            assert(already_counted_chars@.to_set() =~= prev.to_set().insert(
                                x_char,
                            ));
                        }
                    }
                }
                j += 1;
            }
        }
        i += 1;
    }
    lcs
}

/// Selector for the three interchangeable strategies.
#[derive(Clone, Copy, Debug, PartialEq, Eq, Structural)]
pub enum Algorithm {
    GreedyScan,
    Recursive,
    DynamicProgramming,
}

/// Shared entry point: computes the LCS length of `x` and `y` with the
/// chosen strategy.  The recursive and dynamic-programming strategies
/// both return the true LCS length `lcs_len`; the greedy scan returns its
/// documented heuristic count `greedy_lcs`.
pub fn compute_lcs_length(x: &String, y: &String, algorithm: Algorithm) -> (r: i32)
    requires
        x@.len() <= i32::MAX,
        y@.len() <= i32::MAX,
    ensures
        algorithm is GreedyScan ==> r == greedy_lcs(x@, y@),
        algorithm is Recursive ==> r == lcs_len(x@, y@),
        algorithm is DynamicProgramming ==> r == lcs_len(x@, y@),
{
    match algorithm {
        Algorithm::GreedyScan => lcs_for(x, y),
        Algorithm::Recursive => {
            let m = x.as_str().unicode_len();
            let n = y.as_str().unicode_len();
            let r = lcs_rec(x, y, m as i32 - 1, n as i32 - 1);
            proof {
                assert(x@.take(m as int) =~= x@);
                assert(y@.take(n as int) =~= y@);
            }
            r
        },
        Algorithm::DynamicProgramming => lcs_dynamic(x, y),
    }
}

} // verus!
