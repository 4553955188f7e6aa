//! Reading IQDB's result page: which booru post matched, and how well.

use vstd::prelude::*;
use crate::models::opt_view;
use crate::numbers::{parse_u8, parsed_u8};
use crate::search::{contains, contains_exec, second_piece, second_piece_exec};
use crate::tags::strings;
use crate::text::{
    ascii_lower, ascii_lowercase, is_ascii_text, lowercase, lowercase_chars, owned, slice, to_chars,
    to_lowercase, to_string,
};
use crate::words::{join, join_words, views};

verus! {

// ---- post links ---------------------------------------------------------

/// `c` is an ASCII letter or digit.
pub open spec fn is_alnum(c: char) -> bool {
    ||| '0' <= c <= '9'
    ||| 'a' <= c <= 'z'
    ||| 'A' <= c <= 'Z'
}

/// The leading ASCII digits of `s`.
pub open spec fn digit_prefix(s: Seq<char>) -> Seq<char>
    decreases s.len(),
{
    if s.len() > 0 && '0' <= s[0] <= '9' {
        seq![s[0]] + digit_prefix(s.drop_first())
    } else {
        seq![]
    }
}

/// The leading ASCII letters and digits of `s`.
pub open spec fn alnum_prefix(s: Seq<char>) -> Seq<char>
    decreases s.len(),
{
    if s.len() > 0 && is_alnum(s[0]) {
        seq![s[0]] + alnum_prefix(s.drop_first())
    } else {
        seq![]
    }
}

/// The id taken from the text after `marker`: its leading digits, when there
/// are any.
pub open spec fn numeric_id_after(lower: Seq<char>, marker: Seq<char>) -> Option<Seq<char>> {
    match second_piece(lower, marker) {
        Some(p) => if digit_prefix(p).len() > 0 {
            Some(digit_prefix(p))
        } else {
            None
        },
        None => None,
    }
}

/// The service and post id (or MD5 hash) that a result link points to; the
/// link is given in lower case.
pub open spec fn post_link(lower: Seq<char>) -> Option<(Seq<char>, Seq<char>)> {
    if contains(lower, "danbooru"@) && contains(lower, "/posts/"@) {
        match numeric_id_after(lower, "/posts/"@) {
            Some(id) => Some(("Danbooru"@, id)),
            None => None,
        }
    } else if contains(lower, "yande.re"@) && contains(lower, "/post/show/"@) {
        match numeric_id_after(lower, "/post/show/"@) {
            Some(id) => Some(("Yande.re"@, id)),
            None => None,
        }
    } else if contains(lower, "gelbooru"@) {
        if contains(lower, "id="@) {
            match numeric_id_after(lower, "id="@) {
                Some(id) => Some(("Gelbooru"@, id)),
                None => None,
            }
        } else if contains(lower, "md5="@) {
            match second_piece(lower, "md5="@) {
                Some(p) => if alnum_prefix(p).len() == 32 {
                    Some(("Gelbooru"@, alnum_prefix(p)))
                } else {
                    None
                },
                None => None,
            }
        } else {
            None
        }
    } else {
        None
    }
}

fn leading_run(s: &Vec<char>, alnum: bool) -> (r: Vec<char>)
    ensures
        alnum ==> r@ == alnum_prefix(s@),
        !alnum ==> r@ == digit_prefix(s@),
{
    let mut i: usize = 0;
    while i < s.len() && (('0' <= s[i] && s[i] <= '9') || (alnum && (('a' <= s[i] && s[i] <= 'z')
        || ('A' <= s[i] && s[i] <= 'Z'))))
        invariant
            i <= s.len(),
            forall|k: int|
                0 <= k < i ==> if alnum {
                    is_alnum(#[trigger] s@[k])
                } else {
                    '0' <= s@[k] <= '9'
                },
        decreases s.len() - i,
    {
        i = i + 1;
    }
    proof {
        lemma_prefix_run(s@, i as int, alnum);
    }
    slice(s, 0, i)
}

proof fn lemma_prefix_run(s: Seq<char>, i: int, alnum: bool)
    requires
        0 <= i <= s.len(),
        forall|k: int|
            0 <= k < i ==> if alnum {
                is_alnum(#[trigger] s[k])
            } else {
                '0' <= s[k] <= '9'
            },
        i < s.len() ==> if alnum {
            !is_alnum(s[i])
        } else {
            !('0' <= s[i] <= '9')
        },
    ensures
        alnum ==> alnum_prefix(s) == s.take(i),
        !alnum ==> digit_prefix(s) == s.take(i),
    decreases i,
{
    if i == 0 {
        assert(s.take(0) =~= Seq::<char>::empty());
    } else {
        lemma_prefix_run(s.drop_first(), i - 1, alnum);
        assert(s.take(i) =~= seq![s[0]] + s.drop_first().take(i - 1));
    }
}

fn numeric_id_after_exec(lower: &Vec<char>, marker: &str) -> (r: Option<Vec<char>>)
    ensures
        opt_chars(r) == numeric_id_after(lower@, marker@),
{
    match second_piece_exec(lower, &to_chars(marker)) {
        Some(p) => {
            let id = leading_run(&p, false);
            if id.len() > 0 {
                Some(id)
            } else {
                None
            }
        },
        None => None,
    }
}

/// The view of an optional character vector.
pub open spec fn opt_chars(o: Option<Vec<char>>) -> Option<Seq<char>> {
    match o {
        Some(v) => Some(v@),
        None => None,
    }
}

fn has(lower: &Vec<char>, needle: &str) -> (b: bool)
    ensures
        b == contains(lower@, needle@),
{
    contains_exec(lower, &to_chars(needle))
}

fn found(service: &str, id: &Vec<char>) -> (r: Result<(String, String), String>)
    ensures
        r matches Ok(p) && p.0@ == service@ && p.1@ == id@,
{
    Ok((owned(service), to_string(id)))
}

/// Reads the service and post id from a result link given in lower case;
/// see [`post_link`].
pub fn service_and_id(lower: &str) -> (r: Result<(String, String), String>)
    ensures
        match post_link(lower@) {
            Some(p) => r matches Ok(q) && q.0@ == p.0 && q.1@ == p.1,
            None => r matches Err(e) && e@ == "Not a valid booru post link"@,
        },
{
    let l = to_chars(lower);
    if has(&l, "danbooru") && has(&l, "/posts/") {
        if let Some(id) = numeric_id_after_exec(&l, "/posts/") {
            return found("Danbooru", &id);
        }
    } else if has(&l, "yande.re") && has(&l, "/post/show/") {
        if let Some(id) = numeric_id_after_exec(&l, "/post/show/") {
            return found("Yande.re", &id);
        }
    } else if has(&l, "gelbooru") {
        if has(&l, "id=") {
            if let Some(id) = numeric_id_after_exec(&l, "id=") {
                return found("Gelbooru", &id);
            }
        } else if has(&l, "md5=") {
            if let Some(p) = second_piece_exec(&l, &to_chars("md5=")) {
                let md5 = leading_run(&p, true);
                if md5.len() == 32 {
                    return found("Gelbooru", &md5);
                }
            }
        }
    }
    Err(owned("Not a valid booru post link"))
}

/// Extracts the booru service and post id (or MD5 hash) from an IQDB result
/// link, reading the link in lower case (`str::to_lowercase`).
pub fn extract_service_and_id(href: &str) -> (r: Result<(String, String), String>)
    ensures
        match post_link(lowercase(href@)) {
            Some(p) => r matches Ok(q) && q.0@ == p.0 && q.1@ == p.1,
            None => r matches Err(e) && e@ == "Not a valid booru post link"@,
        },
        is_ascii_text(href@) ==> match post_link(ascii_lowercase(href@)) {
            Some(p) => r matches Ok(q) && q.0@ == p.0 && q.1@ == p.1,
            None => r matches Err(e) && e@ == "Not a valid booru post link"@,
        },
{
    let lower = to_lowercase(href);
    service_and_id(lower.as_str())
}

/// Every character of `s` is an ASCII digit.
pub open spec fn all_ascii_digits(s: Seq<char>) -> bool {
    forall|i: int| 0 <= i < s.len() ==> '0' <= #[trigger] s[i] <= '9'
}

/// Every character of `s` is an ASCII letter or digit.
pub open spec fn all_alnum(s: Seq<char>) -> bool {
    forall|i: int| 0 <= i < s.len() ==> is_alnum(#[trigger] s[i])
}

proof fn lemma_digit_prefix(s: Seq<char>)
    ensures
        all_ascii_digits(digit_prefix(s)),
    decreases s.len(),
{
    if s.len() > 0 && '0' <= s[0] <= '9' {
        lemma_digit_prefix(s.drop_first());
        let d = digit_prefix(s);
        assert forall|i: int| 0 <= i < d.len() implies '0' <= #[trigger] d[i] <= '9' by {
            if i > 0 {
                assert(d[i] == digit_prefix(s.drop_first())[i - 1]);
            }
        }
    }
}

proof fn lemma_alnum_prefix(s: Seq<char>)
    ensures
        all_alnum(alnum_prefix(s)),
    decreases s.len(),
{
    if s.len() > 0 && is_alnum(s[0]) {
        lemma_alnum_prefix(s.drop_first());
        let d = alnum_prefix(s);
        assert forall|i: int| 0 <= i < d.len() implies is_alnum(#[trigger] d[i]) by {
            if i > 0 {
                assert(d[i] == alnum_prefix(s.drop_first())[i - 1]);
            }
        }
    }
}

/// A result link names one of the three services and a non-empty post id:
/// ASCII digits, or for Gelbooru an MD5 hash of 32 ASCII letters and digits.
pub proof fn lemma_post_link_range(lower: Seq<char>)
    ensures
        post_link(lower) matches Some(p) ==> {
            &&& p.0 == "Danbooru"@ || p.0 == "Yande.re"@ || p.0 == "Gelbooru"@
            &&& p.1.len() > 0
            &&& all_ascii_digits(p.1) || (p.0 == "Gelbooru"@ && p.1.len() == 32 && all_alnum(p.1))
        },
{
    lemma_digit_prefix(second_piece(lower, "/posts/"@)->Some_0);
    lemma_digit_prefix(second_piece(lower, "/post/show/"@)->Some_0);
    lemma_digit_prefix(second_piece(lower, "id="@)->Some_0);
    lemma_alnum_prefix(second_piece(lower, "md5="@)->Some_0);
}

/// Reading an ASCII link in lower case once or twice gives the same result:
/// the link parser does not depend on the case of the link.
pub proof fn lemma_post_link_case_insensitive(href: Seq<char>)
    requires
        is_ascii_text(href),
    ensures
        is_ascii_text(ascii_lowercase(href)),
        post_link(ascii_lowercase(ascii_lowercase(href))) == post_link(ascii_lowercase(href)),
{
    let l = ascii_lowercase(href);
    assert forall|i: int| 0 <= i < l.len() implies (#[trigger] l[i] as u32) < 128 by {
        assert(l[i] == ascii_lower(href[i]));
        assert((href[i] as u32) < 128);
    }
    assert(ascii_lowercase(l) =~= l);
}

// ---- result tables --------------------------------------------------------

/// The text of one `<table>` of a result page: the text pieces of its first
/// `<th>` (when it has one), its own text pieces, and the `href` of each of
/// its `<a>` elements, in document order.
#[derive(Debug)]
pub struct HtmlTable {
    pub header: Option<Vec<String>>,
    pub texts: Vec<String>,
    pub links: Vec<Option<String>>,
}

/// The plain view of an [`HtmlTable`].
pub struct TableText {
    pub header: Option<Seq<Seq<char>>>,
    pub texts: Seq<Seq<char>>,
    pub links: Seq<Option<Seq<char>>>,
}

/// The view of a list of optional strings.
pub open spec fn opt_strings(v: Seq<Option<String>>) -> Seq<Option<Seq<char>>> {
    v.map_values(|o: Option<String>| opt_view(o))
}

impl View for HtmlTable {
    type V = TableText;

    open spec fn view(&self) -> TableText {
        TableText {
            header: match self.header {
                Some(h) => Some(strings(h@)),
                None => None,
            },
            texts: strings(self.texts@),
            links: opt_strings(self.links@),
        }
    }
}

/// The views of a list of tables.
pub open spec fn tables_view(v: Seq<HtmlTable>) -> Seq<TableText> {
    v.map_values(|t: HtmlTable| t@)
}

// The tables that `scraper` finds in an HTML document.
pub uninterp spec fn html_tables(html: Seq<char>) -> Seq<TableText>;

// The digits before the first `%` sign that `regex` finds with `(\d+)%`.
pub uninterp spec fn percent_capture(text: Seq<char>) -> Option<Seq<char>>;

/// Parses an HTML document with `scraper::Html::parse_document` and, for each
/// element that `scraper::Selector` `table` selects, collects the text of its
/// first `th`, its text, and the `href` attribute of each `a` inside it. The
/// contract claims only that the result is a function of the document, named
/// [`html_tables`]; HTML parsing is not stated. The selectors are plain
/// element names, which `Selector::parse` accepts.
#[verifier::external_body]
pub(crate) fn scrape_tables(html: &str) -> (r: Vec<HtmlTable>)
    ensures
        tables_view(r@) == html_tables(html@),
{
    let doc = scraper::Html::parse_document(html);
    let t = scraper::Selector::parse("table").unwrap();
    let h = scraper::Selector::parse("th").unwrap();
    let a = scraper::Selector::parse("a").unwrap();
    doc.select(&t).map(|x| HtmlTable {
        header: x.select(&h).next().map(|y| y.text().map(String::from).collect()),
        texts: x.text().map(String::from).collect(),
        links: x.select(&a).map(|y| y.value().attr("href").map(String::from)).collect(),
    }).collect()
}

/// Searches a text with the regular expression `(\d+)%` through
/// `regex::Regex::captures` and returns the first capture group. The
/// contract claims only that the result is a function of the text, named
/// [`percent_capture`]; regular-expression matching is not stated.
#[verifier::external_body]
pub(crate) fn first_percentage(text: &str) -> (r: Option<String>)
    ensures
        opt_view(r) == percent_capture(text@),
{
    regex::Regex::new("(\\d+)%").unwrap().captures(text).map(|c| c[1].to_string())
}

/// A candidate match: service, post id and similarity percentage.
pub type Candidate = (Seq<char>, Seq<char>, u8);

/// The table's header mentions a match.
pub open spec fn header_matches(t: TableText) -> bool {
    match t.header {
        Some(h) => contains(lowercase(join(h, seq![' '])), "match"@),
        None => false,
    }
}

/// The similarity percentage written in a table, or 0 when none can be read.
pub open spec fn table_similarity(t: TableText) -> u8 {
    similarity_of(percent_capture(join(t.texts, seq![' '])))
}

/// The candidates of a table's links: every link to a post of one of the
/// `valid` services (given in lower case), with the table's similarity.
pub open spec fn link_candidates(
    links: Seq<Option<Seq<char>>>,
    valid: Seq<Seq<char>>,
    similarity: u8,
) -> Seq<Candidate>
    decreases links.len(),
{
    if links.len() == 0 {
        seq![]
    } else {
        let prev = link_candidates(links.drop_last(), valid, similarity);
        match links.last() {
            Some(href) => match post_link(lowercase(href)) {
                Some(p) => if valid.contains(lowercase(p.0)) {
                    prev.push((p.0, p.1, similarity))
                } else {
                    prev
                },
                None => prev,
            },
            None => prev,
        }
    }
}

/// The candidates of one table: none unless its header mentions a match and
/// its similarity reaches the threshold.
pub open spec fn table_candidates(t: TableText, valid: Seq<Seq<char>>, threshold: u8) -> Seq<
    Candidate,
> {
    if header_matches(t) && table_similarity(t) >= threshold {
        link_candidates(t.links, valid, table_similarity(t))
    } else {
        seq![]
    }
}

/// The candidates of all tables, in document order.
pub open spec fn all_candidates(ts: Seq<TableText>, valid: Seq<Seq<char>>, threshold: u8) -> Seq<
    Candidate,
>
    decreases ts.len(),
{
    if ts.len() == 0 {
        seq![]
    } else {
        all_candidates(ts.drop_last(), valid, threshold) + table_candidates(
            ts.last(),
            valid,
            threshold,
        )
    }
}

/// Position of the first of the highest similarities.
pub open spec fn best_index(sims: Seq<u8>) -> int
    decreases sims.len(),
{
    if sims.len() <= 1 {
        0
    } else {
        let p = best_index(sims.drop_last());
        if sims.last() > sims[p] {
            sims.len() - 1
        } else {
            p
        }
    }
}

/// The similarities of a list of candidates.
pub open spec fn similarities(cs: Seq<Candidate>) -> Seq<u8> {
    cs.map_values(|c: Candidate| c.2)
}

/// The best candidate has the highest similarity, and every candidate before
/// it has a lower one: of equally good matches the first one found wins.
pub proof fn lemma_best_index(sims: Seq<u8>)
    requires
        sims.len() > 0,
    ensures
        0 <= best_index(sims) < sims.len(),
        forall|j: int| 0 <= j < sims.len() ==> #[trigger] sims[j] <= sims[best_index(sims)],
        forall|j: int| 0 <= j < best_index(sims) ==> #[trigger] sims[j] < sims[best_index(sims)],
    decreases sims.len(),
{
    if sims.len() > 1 {
        let d = sims.drop_last();
        lemma_best_index(d);
        assert forall|j: int| 0 <= j < sims.len() implies #[trigger] sims[j] <= sims[best_index(
            sims,
        )] by {
            if j < d.len() {
                assert(d[j] == sims[j]);
            }
        }
        assert forall|j: int| 0 <= j < best_index(sims) implies #[trigger] sims[j] < sims[best_index(
            sims,
        )] by {
            if j < d.len() {
                assert(d[j] == sims[j]);
            }
        }
    }
}

/// The candidates whose similarity reaches `t`, in order.
pub open spec fn keep_at_least(cs: Seq<Candidate>, t: u8) -> Seq<Candidate>
    decreases cs.len(),
{
    if cs.len() == 0 {
        seq![]
    } else {
        let p = keep_at_least(cs.drop_last(), t);
        if cs.last().2 >= t {
            p.push(cs.last())
        } else {
            p
        }
    }
}

proof fn lemma_keep_concat(a: Seq<Candidate>, b: Seq<Candidate>, t: u8)
    ensures
        keep_at_least(a + b, t) == keep_at_least(a, t) + keep_at_least(b, t),
    decreases b.len(),
{
    if b.len() == 0 {
        assert(a + b =~= a);
        assert(keep_at_least(a, t) + Seq::<Candidate>::empty() =~= keep_at_least(a, t));
    } else {
        lemma_keep_concat(a, b.drop_last(), t);
        assert((a + b).drop_last() =~= a + b.drop_last());
        assert((a + b).last() == b.last());
        if b.last().2 >= t {
            assert(keep_at_least(a, t) + keep_at_least(b.drop_last(), t).push(b.last())
                =~= (keep_at_least(a, t) + keep_at_least(b.drop_last(), t)).push(b.last()));
        }
    }
}

proof fn lemma_keep_uniform(cs: Seq<Candidate>, sim: u8, t: u8)
    requires
        forall|k: int| 0 <= k < cs.len() ==> (#[trigger] cs[k]).2 == sim,
    ensures
        keep_at_least(cs, t) == if sim >= t {
            cs
        } else {
            seq![]
        },
    decreases cs.len(),
{
    if cs.len() > 0 {
        let d = cs.drop_last();
        assert forall|k: int| 0 <= k < d.len() implies (#[trigger] d[k]).2 == sim by {
            assert(d[k] == cs[k]);
        }
        lemma_keep_uniform(d, sim, t);
        assert(cs.last() == cs[cs.len() - 1]);
        if sim >= t {
            assert(d.push(cs.last()) =~= cs);
        }
    }
}

proof fn lemma_candidates_filter(ts: Seq<TableText>, valid: Seq<Seq<char>>, t: u8)
    ensures
        all_candidates(ts, valid, t) == keep_at_least(all_candidates(ts, valid, 0), t),
    decreases ts.len(),
{
    if ts.len() > 0 {
        let d = ts.drop_last();
        let x = ts.last();
        lemma_candidates_filter(d, valid, t);
        lemma_keep_concat(all_candidates(d, valid, 0), table_candidates(x, valid, 0), t);
        if header_matches(x) {
            let lc = link_candidates(x.links, valid, table_similarity(x));
            lemma_link_candidates_allowed(x.links, valid, table_similarity(x));
            lemma_keep_uniform(lc, table_similarity(x), t);
        } else {
            assert(keep_at_least(Seq::<Candidate>::empty(), t) == Seq::<Candidate>::empty());
        }
    }
}

proof fn lemma_similarities_push(cs: Seq<Candidate>, x: Candidate)
    ensures
        similarities(cs.push(x)) == similarities(cs).push(x.2),
{
    assert(similarities(cs.push(x)) =~= similarities(cs).push(x.2));
}

proof fn lemma_keep_best(cs: Seq<Candidate>, t: u8)
    requires
        cs.len() > 0,
    ensures
        ({
            let m = cs[best_index(similarities(cs))];
            let k = keep_at_least(cs, t);
            &&& 0 <= best_index(similarities(cs)) < cs.len()
            &&& (k.len() > 0 <==> m.2 >= t)
            &&& m.2 >= t ==> 0 <= best_index(similarities(k)) < k.len() && k[best_index(
                similarities(k),
            )] == m
        }),
    decreases cs.len(),
{
    let s = similarities(cs);
    let x = cs.last();
    let d = cs.drop_last();
    assert(d.push(x) =~= cs);
    lemma_similarities_push(d, x);
    if cs.len() == 1 {
        assert(keep_at_least(d, t) =~= Seq::<Candidate>::empty());
        if x.2 >= t {
            assert(keep_at_least(cs, t) =~= seq![x]);
        }
    } else {
        lemma_keep_best(d, t);
        let bd = best_index(similarities(d));
        let kd = keep_at_least(d, t);
        assert(similarities(d)[bd] == d[bd].2);
        assert(s.drop_last() =~= similarities(d));
        if x.2 > d[bd].2 {
            assert(best_index(s) == cs.len() - 1);
            if x.2 >= t {
                lemma_similarities_push(kd, x);
                if kd.len() > 0 {
                    let bk = best_index(similarities(kd));
                    assert(similarities(kd)[bk] == kd[bk].2);
                    assert(similarities(kd.push(x)).drop_last() =~= similarities(kd));
                    assert(best_index(similarities(kd.push(x))) == kd.len());
                } else {
                    assert(kd.push(x) =~= seq![x]);
                }
            }
        } else {
            assert(best_index(s) == bd);
            assert(cs[bd] == d[bd]);
            if x.2 >= t && d[bd].2 >= t {
                let bk = best_index(similarities(kd));
                lemma_similarities_push(kd, x);
                assert(similarities(kd)[bk] == kd[bk].2);
                assert(similarities(kd.push(x)).drop_last() =~= similarities(kd));
                assert(best_index(similarities(kd.push(x))) == bk);
                assert(kd.push(x)[bk] == kd[bk]);
            }
        }
    }
    lemma_best_index(s);
}

/// How the threshold acts on the best match: whatever the threshold, the
/// match found is the one found with no threshold at all, and it is found
/// exactly when its similarity reaches the threshold. So raising the
/// threshold up to the match's similarity keeps the match, raising it beyond
/// loses it, and a threshold that finds nothing finds nothing when raised.
pub proof fn lemma_threshold_monotone(ts: Seq<TableText>, valid: Seq<Seq<char>>, t: u8)
    ensures
        ({
            let all = all_candidates(ts, valid, 0);
            let cs = all_candidates(ts, valid, t);
            &&& cs.len() > 0 <==> (all.len() > 0 && all[best_index(similarities(all))].2 >= t)
            &&& cs.len() > 0 ==> cs[best_index(similarities(cs))] == all[best_index(
                similarities(all),
            )]
        }),
{
    lemma_candidates_filter(ts, valid, t);
    let all = all_candidates(ts, valid, 0);
    if all.len() > 0 {
        lemma_keep_best(all, t);
    } else {
        assert(keep_at_least(all, t) =~= Seq::<Candidate>::empty());
    }
}

/// The message when no table yields a match.
pub open spec fn no_match_message() -> Seq<char> {
    "No match found on IQDB that meets the confidence threshold for your configured services."@
}

/// A match found on the result page.
pub struct MatchCandidate {
    pub service: String,
    pub id: String,
    pub similarity: u8,
}

/// The view of a list of candidates.
pub open spec fn candidates_view(v: Seq<MatchCandidate>) -> Seq<Candidate> {
    v.map_values(|c: MatchCandidate| (c.service@, c.id@, c.similarity))
}

/// Position of the best candidate: the first of those with the highest
/// similarity; `None` when there is none.
pub fn best_candidate(cands: &Vec<MatchCandidate>) -> (r: Option<usize>)
    ensures
        cands@.len() == 0 <==> r is None,
        r matches Some(k) ==> k < cands@.len() && k == best_index(
            similarities(candidates_view(cands@)),
        ),
{
    if cands.len() == 0 {
        return None;
    }
    let ghost sims = similarities(candidates_view(cands@));
    let mut best: usize = 0;
    let mut i: usize = 1;
    assert(sims.take(1).len() == 1);
    while i < cands.len()
        invariant
            1 <= i <= cands@.len(),
            sims == similarities(candidates_view(cands@)),
            best < i,
            best == best_index(sims.take(i as int)),
        decreases cands@.len() - i,
    {
        assert(sims.take(i + 1).drop_last() =~= sims.take(i as int));
        assert(sims[i as int] == cands@[i as int].similarity);
        assert(sims[best as int] == cands@[best as int].similarity);
        if cands[i].similarity > cands[best].similarity {
            best = i;
        }
        i = i + 1;
    }
    assert(sims.take(cands@.len() as int) =~= sims);
    Some(best)
}

fn join_lines(pieces: &Vec<String>) -> (r: Vec<char>)
    ensures
        r@ == join(strings(pieces@), seq![' ']),
{
    let mut ws: Vec<Vec<char>> = Vec::new();
    let mut i: usize = 0;
    while i < pieces.len()
        invariant
            i <= pieces@.len(),
            views(ws@) == strings(pieces@).take(i as int),
        decreases pieces@.len() - i,
    {
        let w = to_chars(pieces[i].as_str());
        assert(w@ == strings(pieces@)[i as int]);
        let ghost before = views(ws@);
        ws.push(w);
        assert(views(ws@) =~= before.push(w@));
        i = i + 1;
        assert(views(ws@) =~= strings(pieces@).take(i as int));
    }
    assert(strings(pieces@).take(pieces@.len() as int) =~= strings(pieces@));
    let mut sep: Vec<char> = Vec::new();
    sep.push(' ');
    assert(sep@ =~= seq![' ']);
    join_words(&ws, &sep)
}

/// The similarity read from the digits before a `%` sign, as found in a
/// table's text: 0 when there are none or they do not fit in a `u8`.
pub open spec fn similarity_of(capture: Option<Seq<char>>) -> u8 {
    match capture {
        Some(c) => match parsed_u8(c) {
            Some(v) => v,
            None => 0,
        },
        None => 0,
    }
}

/// Executable form of [`similarity_of`].
pub fn similarity_from(capture: Option<&str>) -> (r: u8)
    ensures
        r == similarity_of(
            match capture {
                Some(c) => Some(c@),
                None => None::<Seq<char>>,
            },
        ),
{
    match capture {
        Some(c) => match parse_u8(&to_chars(c)) {
            Some(v) => v,
            None => 0,
        },
        None => 0,
    }
}

fn table_similarity_exec(t: &HtmlTable) -> (r: u8)
    ensures
        r == table_similarity(t@),
{
    let text = to_string(&join_lines(&t.texts));
    let capture = first_percentage(text.as_str());
    match &capture {
        Some(c) => similarity_from(Some(c.as_str())),
        None => similarity_from(None),
    }
}

fn header_matches_exec(t: &HtmlTable) -> (b: bool)
    ensures
        b == header_matches(t@),
{
    match &t.header {
        Some(h) => {
            let text = to_string(&join_lines(h));
            let lower = lowercase_chars(text.as_str());
            contains_exec(&lower, &to_chars("match"))
        },
        None => false,
    }
}

fn contains_string(v: &Vec<String>, s: &String) -> (b: bool)
    ensures
        b == strings(v@).contains(s@),
{
    let mut i: usize = 0;
    while i < v.len()
        invariant
            i <= v@.len(),
            forall|k: int| 0 <= k < i ==> strings(v@)[k] != s@,
        decreases v@.len() - i,
    {
        if v[i] == *s {
            assert(strings(v@)[i as int] == s@);
            return true;
        }
        i = i + 1;
    }
    false
}

/// The candidates among a table's links: every link to a post of one of the
/// `valid_lower` services, with the table's similarity; see
/// [`link_candidates`].
pub fn link_matches(links: &Vec<Option<String>>, valid_lower: &Vec<String>, similarity: u8) -> (r:
    Vec<MatchCandidate>)
    ensures
        candidates_view(r@) == link_candidates(opt_strings(links@), strings(valid_lower@), similarity),
{
    let ghost lv = opt_strings(links@);
    let ghost valid = strings(valid_lower@);
    let mut out: Vec<MatchCandidate> = Vec::new();
    let mut j: usize = 0;
    while j < links.len()
        invariant
            j <= links@.len(),
            lv == opt_strings(links@),
            valid == strings(valid_lower@),
            candidates_view(out@) == link_candidates(lv.take(j as int), valid, similarity),
        decreases links@.len() - j,
    {
        assert(lv.take(j + 1).drop_last() =~= lv.take(j as int));
        assert(lv[j as int] == opt_view(links@[j as int]));
        if let Some(href) = &links[j] {
            if let Ok(p) = extract_service_and_id(href.as_str()) {
                let srv_lower = to_lowercase(p.0.as_str());
                if contains_string(valid_lower, &srv_lower) {
                    let ghost mid = candidates_view(out@);
                    out.push(MatchCandidate { service: p.0, id: p.1, similarity });
                    assert(candidates_view(out@) =~= mid.push(
                        (out@.last().service@, out@.last().id@, similarity),
                    ));
                }
            }
        }
        j = j + 1;
    }
    assert(lv.take(links@.len() as int) =~= lv);
    out
}

/// Gathers the candidate matches of scraped result tables; see [`all_candidates`].
pub fn table_matches(tables: &Vec<HtmlTable>, valid_lower: &Vec<String>, threshold: u8) -> (r: Vec<
    MatchCandidate,
>)
    ensures
        candidates_view(r@) == all_candidates(tables_view(tables@), strings(valid_lower@), threshold),
{
    let ghost ts = tables_view(tables@);
    let ghost valid = strings(valid_lower@);
    let mut out: Vec<MatchCandidate> = Vec::new();
    let mut i: usize = 0;
    while i < tables.len()
        invariant
            i <= tables@.len(),
            ts == tables_view(tables@),
            valid == strings(valid_lower@),
            candidates_view(out@) == all_candidates(ts.take(i as int), valid, threshold),
        decreases tables@.len() - i,
    {
        let t = &tables[i];
        assert(ts[i as int] == t@);
        assert(ts.take(i + 1).drop_last() =~= ts.take(i as int));
        let ghost before = candidates_view(out@);
        if header_matches_exec(t) {
            let similarity = table_similarity_exec(t);
            if similarity >= threshold {
                let mut found = link_matches(&t.links, valid_lower, similarity);
                out.append(&mut found);
                assert(candidates_view(out@) =~= before + link_candidates(t@.links, valid, similarity));
            }
        }
        proof {
            if !(header_matches(t@) && table_similarity(t@) >= threshold) {
                assert(candidates_view(out@) =~= before + Seq::<Candidate>::empty());
            }
        }
        i = i + 1;
    }
    assert(ts.take(tables@.len() as int) =~= ts);
    out
}

/// The candidates of some tables: for the user's services, each compared
/// in lower case.
pub open spec fn page_candidates(ts: Seq<TableText>, valid_services: Seq<String>, threshold: u8) -> Seq<
    Candidate,
> {
    all_candidates(
        ts,
        strings(valid_services).map_values(|v: Seq<char>| lowercase(v)),
        threshold,
    )
}

/// Picks the best match among scraped result tables: tables whose header
/// mentions a match and whose similarity reaches `threshold` are considered,
/// and of their links to posts of the user's services the first one with the
/// highest similarity wins. Fails with a message when there is none.
pub fn best_match(tables: &Vec<HtmlTable>, valid_services: &[String], threshold: u8) -> (r: Result<
    (String, String, u8),
    String,
>)
    ensures
        ({
            let cs = page_candidates(tables_view(tables@), valid_services@, threshold);
            &&& cs.len() == 0 ==> (r matches Err(e) && e@ == no_match_message())
            &&& cs.len() > 0 ==> (r matches Ok(m) && (m.0@, m.1@, m.2) == cs[best_index(
                similarities(cs),
            )])
        }),
{
    let mut valid_lower: Vec<String> = Vec::new();
    let mut i: usize = 0;
    while i < valid_services.len()
        invariant
            i <= valid_services@.len(),
            strings(valid_lower@) == strings(valid_services@).take(i as int).map_values(
                |v: Seq<char>| lowercase(v),
            ),
        decreases valid_services@.len() - i,
    {
        let l = to_lowercase(valid_services[i].as_str());
        assert(l@ == lowercase(strings(valid_services@)[i as int]));
        let ghost before = strings(valid_lower@);
        valid_lower.push(l);
        assert(strings(valid_lower@) =~= before.push(l@));
        i = i + 1;
        assert(strings(valid_lower@) =~= strings(valid_services@).take(i as int).map_values(
            |v: Seq<char>| lowercase(v),
        ));
    }
    assert(strings(valid_services@).take(valid_services@.len() as int) =~= strings(
        valid_services@,
    ));
    let cands = table_matches(tables, &valid_lower, threshold);
    match best_candidate(&cands) {
        Some(k) => {
            let c = &cands[k];
            assert(candidates_view(cands@)[k as int] == (c.service@, c.id@, c.similarity));
            Ok((c.service.clone(), c.id.clone(), c.similarity))
        },
        None => Err(
            owned(
                "No match found on IQDB that meets the confidence threshold for your configured services.",
            ),
        ),
    }
}

/// Reads IQDB's result page, scraped with `scraper`, and picks the best match
/// of the tables found there; see [`best_match`].
pub fn parse_iqdb_html(html: &str, valid_services: &[String], threshold: u8) -> (r: Result<
    (String, String, u8),
    String,
>)
    ensures
        ({
            let cs = page_candidates(html_tables(html@), valid_services@, threshold);
            &&& cs.len() == 0 ==> (r matches Err(e) && e@ == no_match_message())
            &&& cs.len() > 0 ==> (r matches Ok(m) && (m.0@, m.1@, m.2) == cs[best_index(
                similarities(cs),
            )])
        }),
{
    let tables = scrape_tables(html);
    best_match(&tables, valid_services, threshold)
}

/// Every candidate links to a post of one of the user's services and comes
/// from a table whose similarity reaches the threshold: a match of another
/// service is passed over, never chosen.
pub proof fn lemma_candidates_allowed(ts: Seq<TableText>, valid: Seq<Seq<char>>, threshold: u8)
    ensures
        forall|k: int|
            0 <= k < all_candidates(ts, valid, threshold).len() ==> {
                let c = #[trigger] all_candidates(ts, valid, threshold)[k];
                &&& valid.contains(lowercase(c.0))
                &&& c.2 >= threshold
            },
    decreases ts.len(),
{
    if ts.len() > 0 {
        lemma_candidates_allowed(ts.drop_last(), valid, threshold);
        let t = ts.last();
        if header_matches(t) && table_similarity(t) >= threshold {
            lemma_link_candidates_allowed(t.links, valid, table_similarity(t));
        }
        let prev = all_candidates(ts.drop_last(), valid, threshold);
        let cur = table_candidates(t, valid, threshold);
        assert forall|k: int| 0 <= k < (prev + cur).len() implies {
            let c = #[trigger] (prev + cur)[k];
            &&& valid.contains(lowercase(c.0))
            &&& c.2 >= threshold
        } by {
            if k < prev.len() {
                assert((prev + cur)[k] == prev[k]);
            } else {
                assert((prev + cur)[k] == cur[k - prev.len()]);
            }
        }
    }
}

proof fn lemma_link_candidates_allowed(links: Seq<Option<Seq<char>>>, valid: Seq<Seq<char>>, similarity: u8)
    ensures
        forall|k: int|
            0 <= k < link_candidates(links, valid, similarity).len() ==> {
                let c = #[trigger] link_candidates(links, valid, similarity)[k];
                &&& valid.contains(lowercase(c.0))
                &&& c.2 == similarity
            },
    decreases links.len(),
{
    if links.len() > 0 {
        lemma_link_candidates_allowed(links.drop_last(), valid, similarity);
        let prev = link_candidates(links.drop_last(), valid, similarity);
        let all = link_candidates(links, valid, similarity);
        assert forall|k: int| 0 <= k < all.len() implies {
            let c = #[trigger] all[k];
            &&& valid.contains(lowercase(c.0))
            &&& c.2 == similarity
        } by {
            if k < prev.len() {
                assert(all[k] == prev[k]);
            }
        }
    }
}

} // verus!
