//! Searching for and replacing substrings in `Seq<char>`.

use vstd::prelude::*;
use crate::text::{extend, slice};

verus! {

/// `p` occurs in `s` at position `i`.
pub open spec fn occurs_at(s: Seq<char>, p: Seq<char>, i: int) -> bool {
    0 <= i && i + p.len() <= s.len() && s.subrange(i, i + p.len()) == p
}

/// Position of the first occurrence of `p` in `s` at or after `i`.
pub open spec fn find_from(s: Seq<char>, p: Seq<char>, i: int) -> Option<int>
    decreases s.len() - i,
{
    if i < 0 || i + p.len() > s.len() {
        None
    } else if occurs_at(s, p, i) {
        Some(i)
    } else {
        proof {
            if p.len() == 0 {
                assert(s.subrange(i, i) =~= p);
            }
        }
        find_from(s, p, i + 1)
    }
}

/// Position of the first occurrence of `p` in `s`, as `str::find` gives it.
pub open spec fn find(s: Seq<char>, p: Seq<char>) -> Option<int> {
    find_from(s, p, 0)
}

/// `p` occurs somewhere in `s`, as `str::contains` tells it.
pub open spec fn contains(s: Seq<char>, p: Seq<char>) -> bool {
    find(s, p) is Some
}

/// `s` begins with `p`.
pub open spec fn starts_with(s: Seq<char>, p: Seq<char>) -> bool {
    p.len() <= s.len() && s.take(p.len() as int) == p
}

/// `s` with every non-overlapping occurrence of `p`, found from the left,
/// replaced by `r`, as `str::replace` gives it for a non-empty `p`.
pub open spec fn replace_all(s: Seq<char>, p: Seq<char>, r: Seq<char>) -> Seq<char>
    decreases s.len(),
{
    if p.len() == 0 || s.len() < p.len() {
        s
    } else if s.take(p.len() as int) == p {
        r + replace_all(s.skip(p.len() as int), p, r)
    } else {
        seq![s[0]] + replace_all(s.skip(1), p, r)
    }
}

/// Text in which the first character of `p` never occurs passes through a
/// replacement unchanged, and so does what follows it.
pub proof fn lemma_replace_passes_over(a: Seq<char>, rest: Seq<char>, p: Seq<char>, r: Seq<char>)
    requires
        p.len() > 0,
        forall|k: int| 0 <= k < a.len() ==> a[k] != p[0],
    ensures
        replace_all(a + rest, p, r) == a + replace_all(rest, p, r),
        replace_all(a, p, r) == a,
    decreases a.len(),
{
    if a.len() == 0 {
        assert(a + rest =~= rest);
        assert(replace_all(a, p, r) == a);
    } else {
        let s = a + rest;
        let t = a.skip(1);
        assert forall|k: int| 0 <= k < t.len() implies t[k] != p[0] by {
            assert(t[k] == a[k + 1]);
        }
        lemma_replace_passes_over(t, rest, p, r);
        assert(s.skip(1) =~= t + rest);
        if s.len() >= p.len() {
            assert(s.take(p.len() as int)[0] == a[0]);
            assert(s.take(p.len() as int) != p);
        } else {
            assert(rest.len() < p.len());
        }
        assert(seq![a[0]] + (t + replace_all(rest, p, r)) =~= a + replace_all(rest, p, r));
        if a.len() >= p.len() {
            assert(a.take(p.len() as int)[0] == a[0]);
            assert(a.take(p.len() as int) != p);
        }
        assert(seq![a[0]] + t =~= a);
    }
}

/// Text at no position of which an occurrence of `p` begins passes through a
/// replacement unchanged.
pub proof fn lemma_replace_no_match(a: Seq<char>, rest: Seq<char>, p: Seq<char>, r: Seq<char>)
    requires
        p.len() > 0,
        forall|k: int| 0 <= k < a.len() ==> !occurs_at(a + rest, p, k),
    ensures
        replace_all(a + rest, p, r) == a + replace_all(rest, p, r),
    decreases a.len(),
{
    let s = a + rest;
    if a.len() == 0 {
        assert(s =~= rest);
    } else {
        let t = a.skip(1);
        assert forall|k: int| 0 <= k < t.len() implies !occurs_at(t + rest, p, k) by {
            assert(!occurs_at(s, p, k + 1));
            if k + p.len() <= (t + rest).len() {
                assert((t + rest).subrange(k, k + p.len()) =~= s.subrange(k + 1, k + 1 + p.len()));
            }
        }
        lemma_replace_no_match(t, rest, p, r);
        assert(s.skip(1) =~= t + rest);
        if s.len() >= p.len() {
            assert(!occurs_at(s, p, 0));
            assert(s.take(p.len() as int) =~= s.subrange(0, p.len() as int));
        } else {
            assert(rest.len() < p.len());
        }
        assert(seq![a[0]] + (t + replace_all(rest, p, r)) =~= a + replace_all(rest, p, r));
    }
}

/// An occurrence of `p` at the front is replaced by `r`.
pub proof fn lemma_replace_front(p: Seq<char>, rest: Seq<char>, r: Seq<char>)
    requires
        p.len() > 0,
    ensures
        replace_all(p + rest, p, r) == r + replace_all(rest, p, r),
{
    let s = p + rest;
    assert(s.take(p.len() as int) =~= p);
    assert(s.skip(p.len() as int) =~= rest);
}

/// Text `q` that differs from `p` at some position `j` before either ends,
/// and that holds the first character of `p` at most at its front, passes
/// through a replacement unchanged.
pub proof fn lemma_replace_skips(
    q: Seq<char>,
    rest: Seq<char>,
    p: Seq<char>,
    r: Seq<char>,
    j: int,
)
    requires
        0 <= j < q.len(),
        j < p.len(),
        q[j] != p[j],
        forall|k: int| 1 <= k < q.len() ==> q[k] != p[0],
    ensures
        replace_all(q + rest, p, r) == q + replace_all(rest, p, r),
{
    let s = q + rest;
    let t = q.skip(1);
    assert forall|k: int| 0 <= k < t.len() implies t[k] != p[0] by {
        assert(t[k] == q[k + 1]);
    }
    lemma_replace_passes_over(t, rest, p, r);
    assert(s.skip(1) =~= t + rest);
    if s.len() >= p.len() {
        assert(s.take(p.len() as int)[j] == q[j]);
        assert(s.take(p.len() as int) != p);
        assert(seq![q[0]] + (t + replace_all(rest, p, r)) =~= q + replace_all(rest, p, r));
    } else {
        assert(rest.len() < p.len());
        assert(s == q + rest);
    }
}

/// The second piece of `s.split(p)`, as `s.split(p).nth(1)` gives it: the text
/// between the first occurrence of `p` and the next one (or the end).
pub open spec fn second_piece(s: Seq<char>, p: Seq<char>) -> Option<Seq<char>> {
    match find(s, p) {
        None => None,
        Some(i) => {
            let rest = s.skip(i + p.len());
            match find(rest, p) {
                None => Some(rest),
                Some(j) => Some(rest.take(j)),
            }
        },
    }
}

/// The first occurrence found from `i` is a real occurrence, and none lies between.
pub proof fn lemma_find_from(s: Seq<char>, p: Seq<char>, i: int)
    requires
        0 <= i,
    ensures
        find_from(s, p, i) matches Some(k) ==> i <= k && occurs_at(s, p, k) && forall|j: int|
            i <= j < k ==> !occurs_at(s, p, j),
        find_from(s, p, i) is None ==> forall|j: int| i <= j ==> !occurs_at(s, p, j),
    decreases s.len() - i,
{
    if p.len() == 0 {
        assert(i <= s.len() ==> s.subrange(i, i) =~= p);
    }
    if i + p.len() <= s.len() && !occurs_at(s, p, i) {
        lemma_find_from(s, p, i + 1);
    }
}

/// Tests whether `p` occurs in `s` at `i`.
pub fn occurs_at_exec(s: &Vec<char>, p: &Vec<char>, i: usize) -> (b: bool)
    ensures
        b == occurs_at(s@, p@, i as int),
{
    if p.len() > s.len() || i > s.len() - p.len() {
        return false;
    }
    let mut k: usize = 0;
    while k < p.len()
        invariant
            i + p.len() <= s.len(),
            k <= p.len(),
            forall|m: int| 0 <= m < k ==> s@[i + m] == p@[m],
        decreases p.len() - k,
    {
        if s[i + k] != p[k] {
            assert(s@.subrange(i as int, i + p.len())[k as int] != p@[k as int]);
            return false;
        }
        k = k + 1;
    }
    assert(s@.subrange(i as int, i + p.len()) =~= p@);
    true
}

/// Executable form of [`find_from`].
pub fn find_from_exec(s: &Vec<char>, p: &Vec<char>, start: usize) -> (r: Option<usize>)
    ensures
        r matches Some(k) ==> find_from(s@, p@, start as int) == Some(k as int),
        r is None ==> find_from(s@, p@, start as int) is None,
{
    if p.len() > s.len() || start > s.len() - p.len() {
        return None;
    }
    if p.len() == 0 {
        assert(s@.subrange(start as int, start as int) =~= p@);
        return Some(start);
    }
    let mut i = start;
    while i <= s.len() - p.len()
        invariant
            1 <= p.len() <= s.len(),
            start <= i <= s.len() - p.len() + 1,
            find_from(s@, p@, start as int) == find_from(s@, p@, i as int),
        decreases s.len() - i,
    {
        if occurs_at_exec(s, p, i) {
            return Some(i);
        }
        i = i + 1;
    }
    None
}

/// Executable form of [`find`].
pub fn find_exec(s: &Vec<char>, p: &Vec<char>) -> (r: Option<usize>)
    ensures
        r matches Some(k) ==> find(s@, p@) == Some(k as int),
        r is None ==> find(s@, p@) is None,
{
    find_from_exec(s, p, 0)
}

/// Executable form of [`contains`].
pub fn contains_exec(s: &Vec<char>, p: &Vec<char>) -> (b: bool)
    ensures
        b == contains(s@, p@),
{
    find_exec(s, p).is_some()
}

/// Executable form of [`starts_with`].
pub fn starts_with_exec(s: &Vec<char>, p: &Vec<char>) -> (b: bool)
    ensures
        b == starts_with(s@, p@),
{
    let b = occurs_at_exec(s, p, 0);
    proof {
        if p@.len() <= s@.len() {
            assert(s@.subrange(0, p@.len() as int) =~= s@.take(p@.len() as int));
        }
    }
    b
}

/// Executable form of [`replace_all`].
pub fn replace_exec(s: &Vec<char>, p: &Vec<char>, r: &Vec<char>) -> (out: Vec<char>)
    requires
        p@.len() > 0,
    ensures
        out@ == replace_all(s@, p@, r@),
{
    let mut out: Vec<char> = Vec::new();
    let mut i: usize = 0;
    assert(s@.skip(0) =~= s@);
    assert(out@ + replace_all(s@, p@, r@) =~= replace_all(s@, p@, r@));
    while i < s.len()
        invariant
            p@.len() > 0,
            i <= s.len(),
            out@ + replace_all(s@.skip(i as int), p@, r@) == replace_all(s@, p@, r@),
        decreases s.len() - i,
    {
        let ghost rest = s@.skip(i as int);
        if occurs_at_exec(s, p, i) {
            assert(rest.take(p@.len() as int) =~= s@.subrange(i as int, i + p@.len()));
            assert(rest.skip(p@.len() as int) =~= s@.skip(i + p@.len()));
            let ghost before = out@;
            extend(&mut out, r);
            assert(out@ + replace_all(s@.skip(i + p@.len()), p@, r@) =~= before + replace_all(
                rest,
                p@,
                r@,
            ));
            i = i + p.len();
        } else {
            proof {
                if rest.len() >= p@.len() {
                    assert(rest.take(p@.len() as int) =~= s@.subrange(i as int, i + p@.len()));
                }
                assert(rest.skip(1) =~= s@.skip(i + 1));
                assert(rest[0] == s@[i as int]);
                if rest.len() < p@.len() {
                    assert(replace_all(rest.skip(1), p@, r@) == rest.skip(1));
                    assert(seq![rest[0]] + rest.skip(1) =~= rest);
                }
            }
            let ghost before = out@;
            out.push(s[i]);
            assert(out@ + replace_all(s@.skip(i + 1), p@, r@) =~= before + replace_all(
                rest,
                p@,
                r@,
            ));
            i = i + 1;
        }
    }
    assert(s@.skip(i as int) =~= Seq::<char>::empty());
    assert(out@ + Seq::<char>::empty() =~= out@);
    out
}

/// Executable form of [`second_piece`].
pub fn second_piece_exec(s: &Vec<char>, p: &Vec<char>) -> (r: Option<Vec<char>>)
    ensures
        r matches Some(v) ==> second_piece(s@, p@) == Some(v@),
        r is None ==> second_piece(s@, p@) is None,
{
    match find_exec(s, p) {
        None => None,
        Some(i) => {
            proof {
                lemma_find_from(s@, p@, 0);
                assert(occurs_at(s@, p@, i as int));
            }
            let n = s.len();
            let rest = slice(s, i + p.len(), n);
            assert(rest@ =~= s@.skip(i + p@.len()));
            match find_exec(&rest, p) {
                None => Some(rest),
                Some(j) => {
                    proof {
                        lemma_find_from(rest@, p@, 0);
                    }
                    let piece = slice(&rest, 0, j);
                    assert(piece@ =~= rest@.take(j as int));
                    Some(piece)
                },
            }
        },
    }
}

} // verus!
