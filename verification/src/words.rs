//! Splitting text into whitespace-separated words and joining words back.

use vstd::prelude::*;
use crate::text::{is_space, is_space_char, extend};

verus! {

/// The whitespace-separated words of `s`, in order, as `str::split_whitespace`
/// yields them: the maximal runs of characters that are not whitespace.
/// Defined by reading `s` one character at a time from the left.
pub open spec fn words(s: Seq<char>) -> Seq<Seq<char>>
    decreases s.len(),
{
    if s.len() == 0 {
        seq![]
    } else {
        let prev = words(s.drop_last());
        let c = s.last();
        if is_space(c) {
            prev
        } else if s.len() >= 2 && !is_space(s[s.len() - 2]) {
            prev.update(prev.len() - 1, prev.last().push(c))
        } else {
            prev.push(seq![c])
        }
    }
}

/// The views of a vector of words.
pub open spec fn views(v: Seq<Vec<char>>) -> Seq<Seq<char>> {
    v.map_values(|w: Vec<char>| w@)
}

/// `ws` joined with `sep` between consecutive words, as `join` on a slice of strings.
pub open spec fn join(ws: Seq<Seq<char>>, sep: Seq<char>) -> Seq<char>
    decreases ws.len(),
{
    if ws.len() == 0 {
        seq![]
    } else if ws.len() == 1 {
        ws[0]
    } else {
        join(ws.drop_last(), sep) + sep + ws.last()
    }
}

/// Every word is non-empty and free of whitespace.
pub proof fn lemma_words_shape(s: Seq<char>)
    ensures
        forall|i: int| 0 <= i < words(s).len() ==> #[trigger] words(s)[i].len() > 0,
        forall|i: int, k: int|
            0 <= i < words(s).len() && 0 <= k < words(s)[i].len() ==> !is_space(
                #[trigger] words(s)[i][k],
            ),
        s.len() > 0 && !is_space(s.last()) ==> words(s).len() > 0,
    decreases s.len(),
{
    if s.len() > 0 {
        lemma_words_shape(s.drop_last());
        let prev = words(s.drop_last());
        let c = s.last();
        if !is_space(c) && s.len() >= 2 && !is_space(s[s.len() - 2]) {
            assert(s.drop_last().last() == s[s.len() - 2]);
            let w = words(s);
            assert forall|i: int, k: int|
                0 <= i < w.len() && 0 <= k < w[i].len() implies !is_space(#[trigger] w[i][k]) by {
                if i == prev.len() - 1 {
                    if k < prev.last().len() {
                        assert(w[i][k] == prev.last()[k]);
                    }
                } else {
                    assert(w[i] == prev[i]);
                }
            }
        } else if !is_space(c) {
            let w = words(s);
            assert forall|i: int, k: int|
                0 <= i < w.len() && 0 <= k < w[i].len() implies !is_space(#[trigger] w[i][k]) by {
                if i < prev.len() {
                    assert(w[i] == prev[i]);
                }
            }
        }
    }
}

/// A property that every character of `s` has, every character of its
/// words has.
pub proof fn lemma_words_keep(s: Seq<char>, p: spec_fn(char) -> bool)
    requires
        forall|i: int| 0 <= i < s.len() ==> p(#[trigger] s[i]),
    ensures
        forall|i: int, k: int|
            0 <= i < words(s).len() && 0 <= k < words(s)[i].len() ==> p(#[trigger] words(s)[i][k]),
    decreases s.len(),
{
    if s.len() > 0 {
        let d = s.drop_last();
        assert forall|i: int| 0 <= i < d.len() implies p(#[trigger] d[i]) by {
            assert(d[i] == s[i]);
        }
        lemma_words_keep(d, p);
        lemma_words_shape(d);
        let prev = words(d);
        let c = s.last();
        assert(p(c)) by {
            assert(c == s[s.len() - 1]);
        }
        let w = words(s);
        assert forall|i: int, k: int| 0 <= i < w.len() && 0 <= k < w[i].len() implies p(
            #[trigger] w[i][k],
        ) by {
            if is_space(c) {
            } else if s.len() >= 2 && !is_space(s[s.len() - 2]) {
                if i == prev.len() - 1 {
                    if k < prev.last().len() {
                        assert(w[i][k] == prev.last()[k]);
                    } else {
                        assert(w[i][k] == c);
                    }
                } else {
                    assert(w[i] == prev[i]);
                }
            } else {
                if i < prev.len() {
                    assert(w[i] == prev[i]);
                } else {
                    assert(w[i] == seq![c]);
                }
            }
        }
    }
}

/// A word that ends `s` after a space is the last of `s`'s words.
proof fn lemma_words_after_space(s: Seq<char>, w: Seq<char>)
    requires
        w.len() > 0,
        forall|k: int| 0 <= k < w.len() ==> !is_space(#[trigger] w[k]),
    ensures
        words(s + seq![' '] + w) == words(s).push(w),
    decreases w.len(),
{
    let x = s + seq![' '] + w;
    assert(x.drop_last() =~= s + seq![' '] + w.drop_last());
    assert(x.last() == w.last());
    assert(!is_space(w.last())) by {
        assert(w.last() == w[w.len() - 1]);
    }
    assert(is_space(' '));
    if w.len() == 1 {
        let y = s + seq![' '];
        assert(x.drop_last() =~= y);
        assert(y.drop_last() =~= s);
        assert(y.last() == ' ');
        assert(words(y) == words(s));
        assert(x[x.len() - 2] == ' ');
        assert(words(x) == words(y).push(seq![x.last()]));
        assert(seq![w.last()] =~= w);
    } else {
        let v = w.drop_last();
        assert forall|k: int| 0 <= k < v.len() implies !is_space(#[trigger] v[k]) by {
            assert(v[k] == w[k]);
        }
        lemma_words_after_space(s, v);
        assert(x[x.len() - 2] == w[w.len() - 2]);
        assert(!is_space(w[w.len() - 2]));
        assert(v.push(w.last()) =~= w);
        assert(words(s).push(v).update(words(s).len() as int, v.push(w.last())) =~= words(
            s,
        ).push(w));
    }
}

/// A non-empty run without whitespace is one word.
proof fn lemma_words_single(w: Seq<char>)
    requires
        w.len() > 0,
        forall|k: int| 0 <= k < w.len() ==> !is_space(#[trigger] w[k]),
    ensures
        words(w) == seq![w],
    decreases w.len(),
{
    assert(!is_space(w.last())) by {
        assert(w.last() == w[w.len() - 1]);
    }
    if w.len() == 1 {
        assert(w.drop_last() =~= Seq::<char>::empty());
        assert(words(w.drop_last()) =~= Seq::<Seq<char>>::empty());
        assert(seq![w.last()] =~= w);
    } else {
        let v = w.drop_last();
        assert(!is_space(w[w.len() - 2]));
        assert forall|k: int| 0 <= k < v.len() implies !is_space(#[trigger] v[k]) by {
            assert(v[k] == w[k]);
        }
        lemma_words_single(v);
        assert(w[w.len() - 2] == v.last());
        assert(v.push(w.last()) =~= w);
        assert(seq![v].update(0, v.push(w.last())) =~= seq![w]);
    }
}

/// Words without whitespace, joined by single spaces, read back as the same
/// words.
pub proof fn lemma_words_of_join(ws: Seq<Seq<char>>)
    requires
        forall|i: int| 0 <= i < ws.len() ==> #[trigger] ws[i].len() > 0,
        forall|i: int, k: int|
            0 <= i < ws.len() && 0 <= k < ws[i].len() ==> !is_space(#[trigger] ws[i][k]),
    ensures
        words(join(ws, seq![' '])) == ws,
    decreases ws.len(),
{
    if ws.len() == 0 {
        assert(words(Seq::<char>::empty()) =~= ws);
    } else if ws.len() == 1 {
        assert forall|k: int| 0 <= k < ws[0].len() implies !is_space(#[trigger] ws[0][k]) by {}
        lemma_words_single(ws[0]);
        assert(seq![ws[0]] =~= ws);
    } else {
        let d = ws.drop_last();
        assert forall|i: int| 0 <= i < d.len() implies #[trigger] d[i].len() > 0 by {
            assert(d[i] == ws[i]);
        }
        assert forall|i: int, k: int| 0 <= i < d.len() && 0 <= k < d[i].len() implies !is_space(
            #[trigger] d[i][k],
        ) by {
            assert(d[i] == ws[i]);
        }
        lemma_words_of_join(d);
        let last = ws.last();
        assert(last == ws[ws.len() - 1]);
        assert forall|k: int| 0 <= k < last.len() implies !is_space(#[trigger] last[k]) by {}
        lemma_words_after_space(join(d, seq![' ']), last);
        assert(d.push(last) =~= ws);
    }
}

/// Executable form of [`words`].
pub fn split_words(s: &Vec<char>) -> (r: Vec<Vec<char>>)
    ensures
        views(r@) == words(s@),
{
    let mut out: Vec<Vec<char>> = Vec::new();
    let mut cur: Vec<char> = Vec::new();
    let mut in_word = false;
    let mut i: usize = 0;
    while i < s.len()
        invariant
            i <= s.len(),
            in_word == (i > 0 && !is_space(s@[i - 1])),
            in_word ==> views(out@).push(cur@) == words(s@.take(i as int)),
            !in_word ==> views(out@) == words(s@.take(i as int)),
        decreases s.len() - i,
    {
        let c = s[i];
        let ghost pre = s@.take(i as int);
        let ghost nxt = s@.take(i + 1);
        assert(nxt.drop_last() =~= pre);
        assert(nxt.last() == c);
        if is_space_char(c) {
            if in_word {
                out.push(cur);
                cur = Vec::new();
                assert(views(out@) =~= words(pre));
            }
            in_word = false;
        } else {
            if in_word {
                assert(nxt[nxt.len() - 2] == s@[i - 1]);
                let ghost before = cur@;
                cur.push(c);
                assert(views(out@).push(cur@) =~= views(out@).push(before).update(
                    views(out@).len() as int,
                    before.push(c),
                ));
            } else {
                cur = Vec::new();
                cur.push(c);
                if i > 0 {
                    assert(nxt[nxt.len() - 2] == s@[i - 1]);
                }
                assert(cur@ =~= seq![c]);
            }
            in_word = true;
        }
        i = i + 1;
    }
    assert(s@.take(s.len() as int) =~= s@);
    if in_word {
        out.push(cur);
        assert(views(out@) =~= words(s@));
    }
    out
}

/// Executable form of [`join`].
pub fn join_words(ws: &Vec<Vec<char>>, sep: &Vec<char>) -> (r: Vec<char>)
    ensures
        r@ == join(views(ws@), sep@),
{
    let mut out: Vec<char> = Vec::new();
    let mut i: usize = 0;
    while i < ws.len()
        invariant
            i <= ws.len(),
            out@ == join(views(ws@).take(i as int), sep@),
        decreases ws.len() - i,
    {
        let ghost pre = views(ws@).take(i as int);
        let ghost nxt = views(ws@).take(i + 1);
        assert(nxt.drop_last() =~= pre);
        if i > 0 {
            extend(&mut out, sep);
        }
        extend(&mut out, &ws[i]);
        if i == 0 {
            assert(out@ =~= nxt[0]);
        }
        i = i + 1;
    }
    assert(views(ws@).take(ws.len() as int) =~= views(ws@));
    out
}

/// The pieces of `s` between occurrences of `c`, as `str::split(c)` yields
/// them: always at least one piece, empty pieces included.
pub open spec fn pieces(s: Seq<char>, c: char) -> Seq<Seq<char>>
    decreases s.len(),
{
    if s.len() == 0 {
        seq![seq![]]
    } else {
        let prev = pieces(s.drop_last(), c);
        if s.last() == c {
            prev.push(seq![])
        } else {
            prev.update(prev.len() - 1, prev.last().push(s.last()))
        }
    }
}

/// There is always at least one piece.
pub proof fn lemma_pieces_nonempty(s: Seq<char>, c: char)
    ensures
        pieces(s, c).len() >= 1,
    decreases s.len(),
{
    if s.len() > 0 {
        lemma_pieces_nonempty(s.drop_last(), c);
    }
}

/// Text without `c` is a single piece.
pub proof fn lemma_pieces_single(s: Seq<char>, c: char)
    requires
        forall|k: int| 0 <= k < s.len() ==> s[k] != c,
    ensures
        pieces(s, c) == seq![s],
    decreases s.len(),
{
    if s.len() == 0 {
        assert(s =~= Seq::<char>::empty());
        assert(seq![seq![]] =~~= seq![s]);
    } else {
        let d = s.drop_last();
        lemma_pieces_single(d, c);
        assert(s.last() == s[s.len() - 1]);
        assert(d.push(s.last()) =~= s);
        assert(seq![d].update(0, d.push(s.last())) =~~= seq![s]);
    }
}

/// A separator followed by text without `c` adds that text as one more piece.
pub proof fn lemma_pieces_append(s: Seq<char>, x: Seq<char>, c: char)
    requires
        forall|k: int| 0 <= k < x.len() ==> x[k] != c,
    ensures
        pieces(s + seq![c] + x, c) == pieces(s, c).push(x),
    decreases x.len(),
{
    let t = s + seq![c] + x;
    if x.len() == 0 {
        assert(t.drop_last() =~= s);
        assert(t.last() == c);
        assert(x =~= Seq::<char>::empty());
    } else {
        let xd = x.drop_last();
        lemma_pieces_append(s, xd, c);
        assert(t.drop_last() =~= s + seq![c] + xd);
        assert(t.last() == x[x.len() - 1]);
        lemma_pieces_nonempty(s, c);
        let prev = pieces(s, c).push(xd);
        assert(xd.push(t.last()) =~= x);
        assert(prev.last() == xd);
        assert(prev.update(prev.len() - 1, prev.last().push(t.last())) =~~= pieces(s, c).push(x));
    }
}

/// Splitting pieces joined by `c` gives them back, when none holds `c`.
pub proof fn lemma_pieces_of_join(xs: Seq<Seq<char>>, c: char)
    requires
        xs.len() > 0,
        forall|i: int, k: int| 0 <= i < xs.len() && 0 <= k < xs[i].len() ==> #[trigger] xs[i][k] != c,
    ensures
        pieces(join(xs, seq![c]), c) == xs,
    decreases xs.len(),
{
    if xs.len() == 1 {
        assert forall|k: int| 0 <= k < xs[0].len() implies xs[0][k] != c by {}
        lemma_pieces_single(xs[0], c);
        assert(seq![xs[0]] =~= xs);
    } else {
        let d = xs.drop_last();
        assert forall|i: int, k: int| 0 <= i < d.len() && 0 <= k < d[i].len() implies #[trigger] d[i][k]
            != c by {
            assert(d[i] == xs[i]);
        }
        lemma_pieces_of_join(d, c);
        let last = xs.last();
        assert(last == xs[xs.len() - 1]);
        assert forall|k: int| 0 <= k < last.len() implies last[k] != c by {}
        lemma_pieces_append(join(d, seq![c]), last, c);
        assert(d.push(last) =~= xs);
    }
}

/// Executable form of [`pieces`].
pub fn split_on(s: &Vec<char>, c: char) -> (r: Vec<Vec<char>>)
    ensures
        views(r@) == pieces(s@, c),
{
    let mut out: Vec<Vec<char>> = Vec::new();
    let mut cur: Vec<char> = Vec::new();
    let mut i: usize = 0;
    assert(s@.take(0) =~= Seq::<char>::empty());
    while i < s.len()
        invariant
            i <= s.len(),
            views(out@).push(cur@) == pieces(s@.take(i as int), c),
        decreases s.len() - i,
    {
        let ghost pre = s@.take(i as int);
        let ghost nxt = s@.take(i + 1);
        assert(nxt.drop_last() =~= pre);
        assert(nxt.last() == s@[i as int]);
        proof {
            lemma_pieces_nonempty(pre, c);
        }
        if s[i] == c {
            out.push(cur);
            cur = Vec::new();
            assert(views(out@).push(cur@) =~= pieces(nxt, c));
        } else {
            let ghost before = cur@;
            cur.push(s[i]);
            assert(views(out@).push(cur@) =~= views(out@).push(before).update(
                views(out@).len() as int,
                before.push(s@[i as int]),
            ));
        }
        i = i + 1;
    }
    assert(s@.take(s.len() as int) =~= s@);
    out.push(cur);
    out
}

} // verus!
