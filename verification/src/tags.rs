//! Booru tags: turning raw tags into display names, and checking them
//! against the user's blacklist.

use vstd::prelude::*;
use vstd::utf8::encode_utf8;
use crate::distance::{edit_distance, levenshtein_distance};
use crate::search::{starts_with, starts_with_exec};
use crate::text::{
    append_str, ascii_upper, char_to_uppercase, extend, is_ascii_text, is_space, lowercase, owned,
    same_chars, slice, strip_end, strip_end_chars, to_chars, to_lowercase, to_string, trim,
    trim_chars, trim_start, uppercase, utf8_len,
};
use crate::words::{
    join, join_words, lemma_words_keep, lemma_words_of_join, lemma_words_shape, pieces, split_on,
    split_words, views, words,
};

verus! {

// ---- cleaning -----------------------------------------------------------

/// `s` up to (not including) the first `c`, or all of `s` when `c` is absent.
pub open spec fn before_char(s: Seq<char>, c: char) -> Seq<char>
    decreases s.len(),
{
    if s.len() == 0 {
        s
    } else if s[0] == c {
        seq![]
    } else {
        seq![s[0]] + before_char(s.drop_first(), c)
    }
}

/// `s` with every underscore turned into a space.
pub open spec fn spaced(s: Seq<char>) -> Seq<char> {
    s.map_values(|c: char| if c == '_' { ' ' } else { c })
}

/// A word with its first character mapped to upper case.
pub open spec fn capitalize(w: Seq<char>) -> Seq<char> {
    if w.len() == 0 {
        w
    } else {
        uppercase(w[0]) + w.drop_first()
    }
}

/// The part of a raw tag that names it: before any parenthesised
/// qualifier, without trailing underscores and then trailing spaces.
pub open spec fn tag_base(t: Seq<char>) -> Seq<char> {
    strip_end(strip_end(before_char(t, '('), '_'), ' ')
}

/// The display name of a raw tag: `Unknown` for an empty or unknown tag,
/// else its base with underscores as spaces, each word capitalized, and the
/// words joined by single spaces.
pub open spec fn cleaned_tag(t: Seq<char>) -> Seq<char> {
    if t.len() == 0 || t == "Unknown"@ {
        "Unknown"@
    } else {
        trim(
            join(
                words(spaced(tag_base(t))).map_values(|w: Seq<char>| capitalize(w)),
                seq![' '],
            ),
        )
    }
}

proof fn lemma_before_char(s: Seq<char>, c: char, i: int)
    requires
        0 <= i <= s.len(),
        forall|k: int| 0 <= k < i ==> #[trigger] s[k] != c,
        i == s.len() || s[i] == c,
    ensures
        before_char(s, c) == s.take(i),
    decreases i,
{
    if i == 0 {
        assert(s.take(0) =~= Seq::<char>::empty());
        if s.len() == 0 {
            assert(s =~= Seq::<char>::empty());
        }
    } else {
        lemma_before_char(s.drop_first(), c, i - 1);
        assert(s.take(i) =~= seq![s[0]] + s.drop_first().take(i - 1));
    }
}

// ---- cleaning ASCII tags ----------------------------------------------------

/// A word with its first character in upper case, for ASCII words.
pub open spec fn ascii_capitalize(w: Seq<char>) -> Seq<char> {
    if w.len() == 0 {
        w
    } else {
        seq![ascii_upper(w[0])] + w.drop_first()
    }
}

/// [`cleaned_tag`] for an ASCII tag, where upper case is ASCII upper case.
pub open spec fn ascii_cleaned(t: Seq<char>) -> Seq<char> {
    if t.len() == 0 || t == "Unknown"@ {
        "Unknown"@
    } else {
        trim(
            join(
                words(spaced(tag_base(t))).map_values(|w: Seq<char>| ascii_capitalize(w)),
                seq![' '],
            ),
        )
    }
}

/// A character a cleaned ASCII tag may hold: ASCII, and neither `_` nor `(`.
pub open spec fn is_plain(c: char) -> bool {
    (c as u32) < 128 && c != '_' && c != '('
}

proof fn lemma_before_char_keep(s: Seq<char>, c: char, p: spec_fn(char) -> bool)
    requires
        forall|i: int| 0 <= i < s.len() ==> p(#[trigger] s[i]),
    ensures
        forall|i: int|
            0 <= i < before_char(s, c).len() ==> p(#[trigger] before_char(s, c)[i])
                && before_char(s, c)[i] != c,
    decreases s.len(),
{
    if s.len() > 0 && s[0] != c {
        let d = s.drop_first();
        assert forall|i: int| 0 <= i < d.len() implies p(#[trigger] d[i]) by {
            assert(d[i] == s[i + 1]);
        }
        lemma_before_char_keep(d, c, p);
        let b = before_char(s, c);
        assert forall|i: int| 0 <= i < b.len() implies p(#[trigger] b[i]) && b[i] != c by {
            if i > 0 {
                assert(b[i] == before_char(d, c)[i - 1]);
            } else {
                assert(b[0] == s[0]);
            }
        }
    }
}

proof fn lemma_strip_end_keep(s: Seq<char>, c: char, p: spec_fn(char) -> bool)
    requires
        forall|i: int| 0 <= i < s.len() ==> p(#[trigger] s[i]),
    ensures
        forall|i: int| 0 <= i < strip_end(s, c).len() ==> p(#[trigger] strip_end(s, c)[i]),
    decreases s.len(),
{
    if s.len() > 0 && s.last() == c {
        let d = s.drop_last();
        assert forall|i: int| 0 <= i < d.len() implies p(#[trigger] d[i]) by {
            assert(d[i] == s[i]);
        }
        lemma_strip_end_keep(d, c, p);
        assert(strip_end(s, c) == strip_end(d, c));
    } else {
        assert(strip_end(s, c) == s);
    }
}

proof fn lemma_base_words_plain(t: Seq<char>)
    requires
        is_ascii_text(t),
    ensures
        ({
            let ws = words(spaced(tag_base(t)));
            forall|i: int, k: int|
                0 <= i < ws.len() && 0 <= k < ws[i].len() ==> is_plain(#[trigger] ws[i][k])
                    && !is_space(ws[i][k])
        }),
{
    let p1 = |c: char| (c as u32) < 128;
    let p2 = |c: char| (c as u32) < 128 && c != '(';
    assert forall|i: int| 0 <= i < t.len() implies p1(#[trigger] t[i]) by {}
    lemma_before_char_keep(t, '(', p1);
    let b = before_char(t, '(');
    assert forall|i: int| 0 <= i < b.len() implies p2(#[trigger] b[i]) by {}
    lemma_strip_end_keep(b, '_', p2);
    lemma_strip_end_keep(strip_end(b, '_'), ' ', p2);
    let base = tag_base(t);
    let s = spaced(base);
    let p3 = |c: char| is_plain(c);
    assert forall|i: int| 0 <= i < s.len() implies p3(#[trigger] s[i]) by {
        assert(p2(base[i]));
    }
    lemma_words_keep(s, p3);
    lemma_words_shape(s);
}

proof fn lemma_capitalized_plain(ws: Seq<Seq<char>>)
    requires
        forall|i: int, k: int|
            0 <= i < ws.len() && 0 <= k < ws[i].len() ==> is_plain(#[trigger] ws[i][k]) && !is_space(
                ws[i][k],
            ),
        forall|i: int| 0 <= i < ws.len() ==> #[trigger] ws[i].len() > 0,
    ensures
        ({
            let cs = ws.map_values(|w: Seq<char>| ascii_capitalize(w));
            &&& forall|i: int, k: int|
                0 <= i < cs.len() && 0 <= k < cs[i].len() ==> is_plain(#[trigger] cs[i][k])
                    && !is_space(cs[i][k])
            &&& forall|i: int| 0 <= i < cs.len() ==> #[trigger] cs[i].len() > 0
            &&& cs.map_values(|w: Seq<char>| ascii_capitalize(w)) == cs
        }),
{
    let cs = ws.map_values(|w: Seq<char>| ascii_capitalize(w));
    assert forall|i: int, k: int| 0 <= i < cs.len() && 0 <= k < cs[i].len() implies is_plain(
        #[trigger] cs[i][k],
    ) && !is_space(cs[i][k]) by {
        assert(cs[i] == ascii_capitalize(ws[i]));
        assert(ws[i].len() > 0);
        if k == 0 {
            assert(cs[i][0] == ascii_upper(ws[i][0]));
            assert(is_plain(ws[i][0]) && !is_space(ws[i][0]));
        } else {
            assert(cs[i][k] == ws[i][k]);
        }
    }
    assert forall|i: int| 0 <= i < cs.len() implies #[trigger] cs[i].len() > 0 by {
        assert(cs[i] == ascii_capitalize(ws[i]));
        assert(ws[i].len() > 0);
    }
    assert forall|i: int| 0 <= i < cs.len() implies #[trigger] ascii_capitalize(cs[i]) == cs[i] by {
        assert(cs[i] == ascii_capitalize(ws[i]));
        assert(ws[i].len() > 0);
        assert(ascii_capitalize(cs[i]) =~= cs[i]);
    }
    assert(cs.map_values(|w: Seq<char>| ascii_capitalize(w)) =~= cs);
}

proof fn lemma_join_plain(ws: Seq<Seq<char>>)
    requires
        forall|i: int, k: int|
            0 <= i < ws.len() && 0 <= k < ws[i].len() ==> is_plain(#[trigger] ws[i][k]) && !is_space(
                ws[i][k],
            ),
        forall|i: int| 0 <= i < ws.len() ==> #[trigger] ws[i].len() > 0,
    ensures
        ({
            let j = join(ws, seq![' ']);
            &&& forall|i: int| 0 <= i < j.len() ==> is_plain(#[trigger] j[i])
            &&& ws.len() > 0 ==> j.len() > 0 && !is_space(j[0]) && !is_space(j.last())
            &&& ws.len() == 0 ==> j.len() == 0
        }),
    decreases ws.len(),
{
    let j = join(ws, seq![' ']);
    if ws.len() == 1 {
        assert(j == ws[0]);
        assert(ws[0].len() > 0);
        assert(!is_space(ws[0][0]));
        assert(!is_space(ws[0][ws[0].len() - 1]));
        assert forall|i: int| 0 <= i < j.len() implies is_plain(#[trigger] j[i]) by {
            assert(is_plain(ws[0][i]));
        }
    } else if ws.len() > 1 {
        let d = ws.drop_last();
        assert forall|i: int, k: int| 0 <= i < d.len() && 0 <= k < d[i].len() implies is_plain(
            #[trigger] d[i][k],
        ) && !is_space(d[i][k]) by {
            assert(d[i] == ws[i]);
        }
        assert forall|i: int| 0 <= i < d.len() implies #[trigger] d[i].len() > 0 by {
            assert(d[i] == ws[i]);
        }
        lemma_join_plain(d);
        let jd = join(d, seq![' ']);
        let last = ws.last();
        assert(last == ws[ws.len() - 1]);
        assert(last.len() > 0);
        assert(j == jd + seq![' '] + last);
        assert(j[0] == jd[0]);
        assert(j.last() == last[last.len() - 1]);
        assert(!is_space(last[last.len() - 1]));
        assert forall|i: int| 0 <= i < j.len() implies is_plain(#[trigger] j[i]) by {
            if i < jd.len() {
                assert(j[i] == jd[i]);
            } else if i == jd.len() {
                assert(j[i] == ' ');
            } else {
                assert(j[i] == last[i - jd.len() - 1]);
                assert(is_plain(last[i - jd.len() - 1]));
            }
        }
    }
}

proof fn lemma_trim_unchanged(s: Seq<char>)
    requires
        s.len() > 0 ==> !is_space(s[0]) && !is_space(s.last()),
    ensures
        trim(s) == s,
{
    assert(trim_start(s) == s);
}

/// The shape of a cleaned ASCII tag: it is ASCII, holds no `_` and no `(`,
/// has no surrounding whitespace, consists of its words separated by single
/// spaces, and cleaning it again changes nothing (unless it is empty, which
/// cleans to `Unknown`).
pub proof fn lemma_ascii_cleaned_shape(t: Seq<char>)
    requires
        is_ascii_text(t),
    ensures
        ({
            let r = ascii_cleaned(t);
            &&& forall|i: int| 0 <= i < r.len() ==> is_plain(#[trigger] r[i])
            &&& trim(r) == r
            &&& join(words(r), seq![' ']) == r
            &&& r.len() > 0 ==> ascii_cleaned(r) == r
        }),
{
    let r = ascii_cleaned(t);
    reveal_strlit("Unknown");
    if t.len() == 0 || t == "Unknown"@ {
        let u = "Unknown"@;
        assert(r == u);
        assert forall|i: int| 0 <= i < u.len() implies is_plain(#[trigger] u[i]) && !is_space(u[i]) by {}
        lemma_trim_unchanged(u);
        lemma_words_of_join(seq![u]);
        assert(join(seq![u], seq![' ']) == u);
    } else {
        lemma_base_words_plain(t);
        let ws = words(spaced(tag_base(t)));
        lemma_words_shape(spaced(tag_base(t)));
        lemma_capitalized_plain(ws);
        let cs = ws.map_values(|w: Seq<char>| ascii_capitalize(w));
        lemma_join_plain(cs);
        let j = join(cs, seq![' ']);
        lemma_trim_unchanged(j);
        assert(r == j);
        lemma_words_of_join(cs);
        if r.len() > 0 && r != "Unknown"@ {
            lemma_before_char(r, '(', r.len() as int);
            assert(r.take(r.len() as int) =~= r);
            assert(r.last() == r[r.len() - 1]);
            assert(is_plain(r[r.len() - 1]));
            assert(strip_end(r, '_') == r);
            assert(strip_end(r, ' ') == r);
            assert(tag_base(r) == r);
            assert(spaced(r) =~= r);
        }
    }
}

fn before_char_exec(s: &Vec<char>, c: char) -> (r: Vec<char>)
    ensures
        r@ == before_char(s@, c),
{
    let mut i: usize = 0;
    while i < s.len() && s[i] != c
        invariant
            i <= s.len(),
            forall|k: int| 0 <= k < i ==> #[trigger] s@[k] != c,
        decreases s.len() - i,
    {
        i = i + 1;
    }
    proof {
        lemma_before_char(s@, c, i as int);
    }
    slice(s, 0, i)
}

fn spaced_exec(s: &Vec<char>) -> (r: Vec<char>)
    ensures
        r@ == spaced(s@),
{
    let mut r: Vec<char> = Vec::new();
    let mut i: usize = 0;
    while i < s.len()
        invariant
            i <= s.len(),
            r@ == spaced(s@.take(i as int)),
        decreases s.len() - i,
    {
        if s[i] == '_' {
            r.push(' ');
        } else {
            r.push(s[i]);
        }
        i = i + 1;
        assert(r@ =~= spaced(s@.take(i as int)));
    }
    assert(s@.take(s.len() as int) =~= s@);
    r
}

fn capitalize_exec(w: &Vec<char>) -> (r: Vec<char>)
    ensures
        r@ == capitalize(w@),
        is_ascii_text(w@) ==> r@ == ascii_capitalize(w@),
{
    if w.len() == 0 {
        return Vec::new();
    }
    let mut r = char_to_uppercase(w[0]);
    let ghost first = r@;
    let rest = slice(w, 1, w.len());
    extend(&mut r, &rest);
    assert(rest@ =~= w@.drop_first());
    proof {
        if is_ascii_text(w@) {
            assert((w@[0] as u32) < 128);
            assert(first == seq![ascii_upper(w@[0])]);
        }
    }
    r
}

/// Cleans a raw booru tag for use as a folder or file name: the contextual
/// suffix in parentheses goes, underscores become spaces, and every word
/// starts with an upper-case letter (`blue_archive` becomes `Blue Archive`).
pub fn clean_tag(tag: &str) -> (r: String)
    ensures
        r@ == cleaned_tag(tag@),
        is_ascii_text(tag@) ==> r@ == ascii_cleaned(tag@),
{
    let t = to_chars(tag);
    let unknown = to_chars("Unknown");
    if t.len() == 0 || same_chars(&t, &unknown) {
        return to_string(&unknown);
    }
    let base = strip_end_chars(&strip_end_chars(&before_char_exec(&t, '('), '_'), ' ');
    let ws = split_words(&spaced_exec(&base));
    let ghost wv = words(spaced(tag_base(t@)));
    proof {
        if is_ascii_text(t@) {
            lemma_base_words_plain(t@);
        }
    }
    let mut caps: Vec<Vec<char>> = Vec::new();
    let mut i: usize = 0;
    while i < ws.len()
        invariant
            i <= ws.len(),
            views(ws@) == wv,
            views(caps@) == wv.take(i as int).map_values(|w: Seq<char>| capitalize(w)),
            is_ascii_text(t@) ==> forall|a: int, k: int|
                0 <= a < wv.len() && 0 <= k < wv[a].len() ==> is_plain(#[trigger] wv[a][k]),
            is_ascii_text(t@) ==> views(caps@) == wv.take(i as int).map_values(
                |w: Seq<char>| ascii_capitalize(w),
            ),
        decreases ws.len() - i,
    {
        let c = capitalize_exec(&ws[i]);
        assert(views(ws@)[i as int] == ws@[i as int]@);
        proof {
            if is_ascii_text(t@) {
                assert forall|k: int| 0 <= k < wv[i as int].len() implies (
                    #[trigger] wv[i as int][k] as u32) < 128 by {
                    assert(is_plain(wv[i as int][k]));
                }
            }
        }
        let ghost before = views(caps@);
        caps.push(c);
        assert(views(caps@) =~= before.push(c@));
        i = i + 1;
        assert(views(caps@) =~= wv.take(i as int).map_values(|w: Seq<char>| capitalize(w)));
        proof {
            if is_ascii_text(t@) {
                assert(views(caps@) =~= wv.take(i as int).map_values(
                    |w: Seq<char>| ascii_capitalize(w),
                ));
            }
        }
    }
    assert(wv.take(ws.len() as int) =~= wv);
    let mut sep: Vec<char> = Vec::new();
    sep.push(' ');
    assert(sep@ =~= seq![' ']);
    let joined = join_words(&caps, &sep);
    to_string(&trim_chars(&joined))
}

// ---- blacklist ------------------------------------------------------------

/// The views of a sequence of strings.
pub open spec fn strings(v: Seq<String>) -> Seq<Seq<char>> {
    v.map_values(|s: String| s@)
}

/// Number of bytes in the UTF-8 encoding of `s`.
pub open spec fn byte_len(s: Seq<char>) -> int {
    encode_utf8(s).len() as int
}

/// How many edits a tag may be away from a blacklist entry of `len` bytes
/// and still count as a likely typo.
pub open spec fn typo_tolerance(len: int) -> int {
    if len <= 4 {
        1
    } else if len <= 9 {
        2
    } else {
        3
    }
}

/// The warning for a tag that is a blacklist entry followed by a
/// parenthesised qualifier.
pub open spec fn partial_match_warning(entry: Seq<char>, tag: Seq<char>) -> Seq<char> {
    "Your blacklisted tag '"@ + entry + "' partially matched '"@ + tag
        + "'. Did you mean to blacklist the latter?"@
}

/// The warning for a tag within a few edits of a blacklist entry.
pub open spec fn similar_tag_warning(entry: Seq<char>, tag: Seq<char>) -> Seq<char> {
    "Your blacklisted tag '"@ + entry + "' is very similar to the found image tag '"@ + tag
        + "'. Did you mean to blacklist the latter?"@
}

/// The warnings that one blacklist entry raises for a tag (`lower` is the
/// tag in lower case): a partial-match warning when the tag starts with the
/// entry followed by `_(`, and a typo warning when the byte lengths differ by
/// at most the entry's tolerance and the tag is between one and that many
/// edits away from the entry.
pub open spec fn entry_warnings(lower: Seq<char>, tag: Seq<char>, entry: Seq<char>) -> Seq<
    Seq<char>,
> {
    let partial = if starts_with(lower, entry + seq!['_', '(']) {
        seq![partial_match_warning(entry, tag)]
    } else {
        seq![]
    };
    let diff = if byte_len(lower) >= byte_len(entry) {
        byte_len(lower) - byte_len(entry)
    } else {
        byte_len(entry) - byte_len(lower)
    };
    let tolerance = typo_tolerance(byte_len(entry));
    let d = edit_distance(lower, entry);
    let similar = if diff <= tolerance && 1 <= d <= tolerance {
        seq![similar_tag_warning(entry, tag)]
    } else {
        seq![]
    };
    partial + similar
}

/// The warnings of all blacklist entries for a tag, entry by entry.
pub open spec fn blacklist_warnings(lower: Seq<char>, tag: Seq<char>, entries: Seq<Seq<char>>) -> Seq<
    Seq<char>,
>
    decreases entries.len(),
{
    if entries.len() == 0 {
        seq![]
    } else {
        blacklist_warnings(lower, tag, entries.drop_last()) + entry_warnings(
            lower,
            tag,
            entries.last(),
        )
    }
}

/// The outcome of checking one tag against the blacklist.
pub struct BlacklistVerdict {
    /// The tag is on the blacklist exactly and is to be skipped.
    pub ignored: bool,
    /// Warnings for the user about entries that look like mistakes.
    pub warnings: Vec<String>,
}

fn partial_match_message(entry: &str, tag: &str) -> (m: String)
    ensures
        m@ == partial_match_warning(entry@, tag@),
{
    let mut m = String::new();
    append_str(&mut m, "Your blacklisted tag '");
    append_str(&mut m, entry);
    append_str(&mut m, "' partially matched '");
    append_str(&mut m, tag);
    append_str(&mut m, "'. Did you mean to blacklist the latter?");
    assert(m@ =~= partial_match_warning(entry@, tag@));
    m
}

fn similar_tag_message(entry: &str, tag: &str) -> (m: String)
    ensures
        m@ == similar_tag_warning(entry@, tag@),
{
    let mut m = String::new();
    append_str(&mut m, "Your blacklisted tag '");
    append_str(&mut m, entry);
    append_str(&mut m, "' is very similar to the found image tag '");
    append_str(&mut m, tag);
    append_str(&mut m, "'. Did you mean to blacklist the latter?");
    assert(m@ =~= similar_tag_warning(entry@, tag@));
    m
}

/// Checks a tag, given also in lower case as `lower`, against the blacklist:
/// it is ignored when `lower` is an entry; otherwise every entry is checked
/// for a partial match or a likely typo and the warnings are collected.
pub fn blacklist_verdict(lower: &str, tag: &str, blacklist: &[String]) -> (r: BlacklistVerdict)
    ensures
        r.ignored == strings(blacklist@).contains(lower@),
        r.ignored ==> r.warnings@.len() == 0,
        !r.ignored ==> strings(r.warnings@) == blacklist_warnings(
            lower@,
            tag@,
            strings(blacklist@),
        ),
{
    let lower_owned = owned(lower);
    let ghost entries = strings(blacklist@);
    let mut i: usize = 0;
    while i < blacklist.len()
        invariant
            lower_owned@ == lower@,
            entries == strings(blacklist@),
            i <= blacklist@.len(),
            forall|k: int| 0 <= k < i ==> entries[k] != lower@,
        decreases blacklist@.len() - i,
    {
        if blacklist[i] == lower_owned {
            assert(entries[i as int] == lower@);
            return BlacklistVerdict { ignored: true, warnings: Vec::new() };
        }
        i = i + 1;
    }
    assert(!entries.contains(lower@));
    let lower_chars = to_chars(lower);
    let lower_bytes = utf8_len(&lower_chars);
    let mut warnings: Vec<String> = Vec::new();
    let mut i: usize = 0;
    while i < blacklist.len()
        invariant
            lower_chars@ == lower@,
            lower_bytes == byte_len(lower@),
            entries == strings(blacklist@),
            i <= blacklist@.len(),
            strings(warnings@) == blacklist_warnings(lower@, tag@, entries.take(i as int)),
        decreases blacklist@.len() - i,
    {
        let entry: &str = blacklist[i].as_str();
        assert(entries[i as int] == entry@);
        assert(entries.take(i + 1).drop_last() =~= entries.take(i as int));
        let ghost before = strings(warnings@);
        let mut pattern = to_chars(entry);
        pattern.push('_');
        pattern.push('(');
        assert(pattern@ =~= entry@ + seq!['_', '(']);
        if starts_with_exec(&lower_chars, &pattern) {
            warnings.push(partial_match_message(entry, tag));
        }
        let ghost mid = strings(warnings@);
        let entry_bytes = utf8_len(&to_chars(entry));
        let diff: u128 = if lower_bytes >= entry_bytes {
            lower_bytes - entry_bytes
        } else {
            entry_bytes - lower_bytes
        };
        let tolerance: u128 = if entry_bytes <= 4 {
            1
        } else if entry_bytes <= 9 {
            2
        } else {
            3
        };
        if diff <= tolerance {
            let d = levenshtein_distance(lower, entry);
            if d >= 1 && d as u128 <= tolerance {
                warnings.push(similar_tag_message(entry, tag));
            }
        }
        proof {
            let e = entry_warnings(lower@, tag@, entry@);
            assert(strings(warnings@) =~= before + e);
        }
        i = i + 1;
    }
    assert(entries.take(blacklist@.len() as int) =~= entries);
    BlacklistVerdict { ignored: false, warnings }
}

/// Checks a raw tag against the blacklist, comparing its lower-case form
/// (`str::to_lowercase`) with the entries; see [`blacklist_verdict`].
pub fn process_blacklist_rules(tag: &str, blacklist: &[String]) -> (r: BlacklistVerdict)
    ensures
        r.ignored == strings(blacklist@).contains(lowercase(tag@)),
        r.ignored ==> r.warnings@.len() == 0,
        !r.ignored ==> strings(r.warnings@) == blacklist_warnings(
            lowercase(tag@),
            tag@,
            strings(blacklist@),
        ),
{
    let lower = to_lowercase(tag);
    blacklist_verdict(lower.as_str(), tag, blacklist)
}

/// The blacklist entries written in a comma-separated setting: each piece
/// trimmed and put in lower case, empty entries dropped, order kept.
pub open spec fn blacklist_entries(ps: Seq<Seq<char>>) -> Seq<Seq<char>>
    decreases ps.len(),
{
    if ps.len() == 0 {
        seq![]
    } else {
        let prev = blacklist_entries(ps.drop_last());
        let e = lowercase(trim(ps.last()));
        if e.len() == 0 {
            prev
        } else {
            prev.push(e)
        }
    }
}

/// Reads the comma-separated blacklist setting into its entries.
pub fn parse_blacklist(setting: &str) -> (r: Vec<String>)
    ensures
        strings(r@) == blacklist_entries(pieces(setting@, ',')),
{
    let ps = split_on(&to_chars(setting), ',');
    let ghost pv = pieces(setting@, ',');
    let mut out: Vec<String> = Vec::new();
    let mut i: usize = 0;
    while i < ps.len()
        invariant
            i <= ps.len(),
            views(ps@) == pv,
            strings(out@) == blacklist_entries(pv.take(i as int)),
        decreases ps.len() - i,
    {
        assert(views(ps@)[i as int] == ps@[i as int]@);
        assert(pv.take(i + 1).drop_last() =~= pv.take(i as int));
        let trimmed = to_string(&trim_chars(&ps[i]));
        let e = to_lowercase(trimmed.as_str());
        if !e.as_str().is_empty() {
            out.push(e);
            assert(strings(out@) =~= blacklist_entries(pv.take(i + 1)));
        }
        i = i + 1;
    }
    assert(pv.take(ps.len() as int) =~= pv);
    out
}

/// Position of the first of `tags`, from `i` on, whose lower-case form is not
/// on the blacklist.
pub open spec fn first_allowed_from(tags: Seq<Seq<char>>, entries: Seq<Seq<char>>, i: int) -> Option<
    int,
>
    decreases tags.len() - i,
{
    if i < 0 || i >= tags.len() {
        None
    } else if !entries.contains(lowercase(tags[i])) {
        Some(i)
    } else {
        first_allowed_from(tags, entries, i + 1)
    }
}

/// A tag chosen from a list, with the blacklist warnings raised on the way.
pub struct TagChoice {
    /// The chosen tag, or the default when every tag was blacklisted.
    pub tag: String,
    /// Warnings raised while checking the tags.
    pub warnings: Vec<String>,
}

/// Picks the first tag that is not blacklisted, or `default` when there is
/// none. Blacklisted tags raise no warnings, so the warnings are those of the
/// chosen tag.
pub fn first_allowed_tag(tags: &Vec<String>, blacklist: &[String], default: &str) -> (r:
    TagChoice)
    ensures
        match first_allowed_from(strings(tags@), strings(blacklist@), 0) {
            Some(k) => {
                &&& r.tag@ == strings(tags@)[k]
                &&& strings(r.warnings@) == blacklist_warnings(
                    lowercase(strings(tags@)[k]),
                    strings(tags@)[k],
                    strings(blacklist@),
                )
            },
            None => r.tag@ == default@ && r.warnings@.len() == 0,
        },
{
    let ghost ts = strings(tags@);
    let ghost es = strings(blacklist@);
    let mut i: usize = 0;
    while i < tags.len()
        invariant
            i <= tags@.len(),
            ts == strings(tags@),
            es == strings(blacklist@),
            first_allowed_from(ts, es, 0) == first_allowed_from(ts, es, i as int),
        decreases tags@.len() - i,
    {
        let verdict = process_blacklist_rules(tags[i].as_str(), blacklist);
        assert(ts[i as int] == tags@[i as int]@);
        if !verdict.ignored {
            return TagChoice { tag: owned(tags[i].as_str()), warnings: verdict.warnings };
        }
        i = i + 1;
    }
    TagChoice { tag: owned(default), warnings: Vec::new() }
}

} // verus!
