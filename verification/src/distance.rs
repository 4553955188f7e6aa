//! Levenshtein (edit) distance between two strings.

use vstd::prelude::*;
use crate::text::to_chars;

verus! {

/// The smallest of three numbers.
pub open spec fn min3(x: nat, y: nat, z: nat) -> nat {
    if x <= y && x <= z {
        x
    } else if y <= z {
        y
    } else {
        z
    }
}

/// The least number of single-character insertions, deletions and
/// substitutions that turn `a` into `b`.
pub open spec fn edit_distance(a: Seq<char>, b: Seq<char>) -> nat
    decreases a.len() + b.len(),
{
    if a.len() == 0 {
        b.len()
    } else if b.len() == 0 {
        a.len()
    } else {
        let cost: nat = if a.last() == b.last() {
            0
        } else {
            1
        };
        min3(
            edit_distance(a.drop_last(), b) + 1,
            edit_distance(a, b.drop_last()) + 1,
            edit_distance(a.drop_last(), b.drop_last()) + cost,
        )
    }
}

/// The distance is at least the difference of the lengths and at most the
/// longer length.
pub proof fn lemma_distance_bounds(a: Seq<char>, b: Seq<char>)
    ensures
        a.len() - b.len() <= edit_distance(a, b),
        b.len() - a.len() <= edit_distance(a, b),
        edit_distance(a, b) <= a.len() || edit_distance(a, b) <= b.len(),
    decreases a.len() + b.len(),
{
    if a.len() > 0 && b.len() > 0 {
        lemma_distance_bounds(a.drop_last(), b);
        lemma_distance_bounds(a, b.drop_last());
        lemma_distance_bounds(a.drop_last(), b.drop_last());
    }
}

/// A string is at distance zero from itself.
pub proof fn lemma_distance_self(a: Seq<char>)
    ensures
        edit_distance(a, a) == 0,
    decreases a.len(),
{
    if a.len() > 0 {
        lemma_distance_self(a.drop_last());
    }
}

/// The distance does not depend on the order of its arguments.
pub proof fn lemma_distance_symmetric(a: Seq<char>, b: Seq<char>)
    ensures
        edit_distance(a, b) == edit_distance(b, a),
    decreases a.len() + b.len(),
{
    if a.len() > 0 && b.len() > 0 {
        lemma_distance_symmetric(a.drop_last(), b);
        lemma_distance_symmetric(a, b.drop_last());
        lemma_distance_symmetric(a.drop_last(), b.drop_last());
    }
}

/// Only equal strings are at distance zero.
pub proof fn lemma_distance_zero(a: Seq<char>, b: Seq<char>)
    ensures
        edit_distance(a, b) == 0 <==> a == b,
    decreases a.len() + b.len(),
{
    if a == b {
        lemma_distance_self(a);
    } else if a.len() > 0 && b.len() > 0 {
        lemma_distance_bounds(a.drop_last(), b);
        lemma_distance_bounds(a, b.drop_last());
        lemma_distance_zero(a.drop_last(), b.drop_last());
        if edit_distance(a, b) == 0 {
            assert(a.last() == b.last());
            assert(a.drop_last() == b.drop_last());
            assert(a =~= a.drop_last().push(a.last()));
            assert(b =~= b.drop_last().push(b.last()));
        }
    } else if a.len() == 0 {
        assert(b.len() > 0) by {
            if b.len() == 0 {
                assert(a =~= b);
            }
        }
    } else {
        assert(a.len() > 0);
    }
}

/// The distance is at most the sum of the lengths.
pub proof fn lemma_distance_at_most_sum(a: Seq<char>, b: Seq<char>)
    ensures
        edit_distance(a, b) <= a.len() + b.len(),
    decreases a.len() + b.len(),
{
    if a.len() > 0 && b.len() > 0 {
        lemma_distance_at_most_sum(a.drop_last(), b);
    }
}

proof fn lemma_drop_last_left(a: Seq<char>, b: Seq<char>)
    requires
        a.len() > 0,
    ensures
        edit_distance(a, b) <= edit_distance(a.drop_last(), b) + 1,
{
}

proof fn lemma_drop_last_right(a: Seq<char>, b: Seq<char>)
    requires
        b.len() > 0,
    ensures
        edit_distance(a, b) <= edit_distance(a, b.drop_last()) + 1,
{
}

/// The triangle inequality: going from `a` to `c` takes no more edits than
/// going through `b`.
pub proof fn lemma_distance_triangle(a: Seq<char>, b: Seq<char>, c: Seq<char>)
    ensures
        edit_distance(a, c) <= edit_distance(a, b) + edit_distance(b, c),
    decreases a.len() + b.len() + c.len(),
{
    if a.len() == 0 {
        lemma_distance_bounds(b, c);
    } else if c.len() == 0 {
        lemma_distance_bounds(a, b);
    } else if b.len() == 0 {
        lemma_distance_at_most_sum(a, c);
    } else {
        let a1 = a.drop_last();
        let b1 = b.drop_last();
        let c1 = c.drop_last();
        let dab = edit_distance(a, b);
        let dbc = edit_distance(b, c);
        lemma_drop_last_left(a, c);
        lemma_drop_last_right(a, c);
        if dab == edit_distance(a1, b) + 1 {
            lemma_distance_triangle(a1, b, c);
        } else if dbc == edit_distance(b, c1) + 1 {
            lemma_distance_triangle(a, b, c1);
        } else if dab == edit_distance(a, b1) + 1 {
            lemma_distance_triangle(a, b1, c);
            if dbc == edit_distance(b1, c) + 1 {
            } else {
                lemma_drop_last_right(b1, c);
            }
        } else {
            if dbc == edit_distance(b1, c) + 1 {
                lemma_distance_triangle(a, b1, c);
                lemma_drop_last_left(a, b1);
            } else {
                lemma_distance_triangle(a1, b1, c1);
            }
        }
    }
}

/// Levenshtein distance between `a` and `b`, counted in characters, computed
/// with the usual dynamic programme one row at a time.
pub fn levenshtein_distance(a: &str, b: &str) -> (d: usize)
    ensures
        d == edit_distance(a@, b@),
{
    let av = to_chars(a);
    let bv = to_chars(b);
    let n = av.len();
    let m = bv.len();
    let mut prev: Vec<u128> = Vec::new();
    let mut j: usize = 0;
    while j < m
        invariant
            m == bv@.len(),
            j <= m,
            prev@.len() == j,
            forall|k: int|
                0 <= k < j ==> #[trigger] prev@[k] == edit_distance(av@.take(0), bv@.take(k)),
        decreases m - j,
    {
        prev.push(j as u128);
        j = j + 1;
    }
    prev.push(m as u128);
    let mut i: usize = 0;
    while i < n
        invariant
            n == av@.len(),
            m == bv@.len(),
            i <= n,
            prev@.len() == m + 1,
            forall|k: int|
                0 <= k <= m ==> #[trigger] prev@[k] == edit_distance(
                    av@.take(i as int),
                    bv@.take(k),
                ),
        decreases n - i,
    {
        let ghost row = av@.take(i + 1);
        assert(row.drop_last() =~= av@.take(i as int));
        let mut cur: Vec<u128> = Vec::new();
        cur.push(i as u128 + 1);
        let mut j: usize = 0;
        while j < m
            invariant
                n == av@.len(),
                m == bv@.len(),
                i < n,
                j <= m,
                row == av@.take(i + 1),
                row.drop_last() == av@.take(i as int),
                prev@.len() == m + 1,
                cur@.len() == j + 1,
                forall|k: int|
                    0 <= k <= m ==> #[trigger] prev@[k] == edit_distance(
                        av@.take(i as int),
                        bv@.take(k),
                    ),
                forall|k: int|
                    0 <= k <= j ==> #[trigger] cur@[k] == edit_distance(row, bv@.take(k)),
            decreases m - j,
        {
            let ghost col = bv@.take(j + 1);
            assert(col.drop_last() =~= bv@.take(j as int));
            proof {
                lemma_distance_bounds(av@.take(i as int), bv@.take(j + 1));
                lemma_distance_bounds(row, bv@.take(j as int));
                lemma_distance_bounds(av@.take(i as int), bv@.take(j as int));
            }
            let cost: u128 = if av[i] == bv[j] {
                0
            } else {
                1
            };
            let del = prev[j + 1] + 1;
            let ins = cur[j] + 1;
            let sub = prev[j] + cost;
            let best = if del <= ins && del <= sub {
                del
            } else if ins <= sub {
                ins
            } else {
                sub
            };
            cur.push(best);
            j = j + 1;
        }
        prev = cur;
        i = i + 1;
    }
    assert(av@.take(n as int) =~= av@);
    assert(bv@.take(m as int) =~= bv@);
    proof {
        lemma_distance_bounds(av@, bv@);
    }
    prev[m] as usize
}

} // verus!
