//! Talking to booru services: credentials, request URLs, and reading the
//! post metadata they return into a [`BooruResponse`].

use vstd::prelude::*;
use vstd::utf8::encode_utf8;
use crate::encode::{
    lemma_encoding_round_trip, lemma_encoding_safe, percent_decoding, percent_encoding, url_encode,
};
use crate::json::{
    json_array_len, json_check, json_i64, json_int_at, json_len_at, json_parse_error, json_str,
    json_text_at, key, path_view, JsonStep, PathStep,
};
use crate::models::{opt_view, position_of, service_names, AppConfig, BooruResponse};
use crate::numbers::{format_i64, signed_decimal};
use crate::search::{
    lemma_replace_front, lemma_replace_no_match, lemma_replace_passes_over, lemma_replace_skips,
    occurs_at, replace_all, replace_exec, starts_with, starts_with_exec,
};
use crate::tags::{
    blacklist_warnings, clean_tag, cleaned_tag, first_allowed_from, first_allowed_tag,
    process_blacklist_rules, strings, TagChoice,
};
use crate::text::{
    append_chars, append_str, is_literal, lowercase, owned, to_chars, to_string, trim, trim_chars,
    utf8_len,
};
use crate::words::{join, join_words, lemma_pieces_of_join, pieces, split_words, views, words};

verus! {

// ---- credentials --------------------------------------------------------

/// A username and API key for a service; empty when not configured.
pub struct Credentials {
    pub username: String,
    pub api_key: String,
}

/// The path to a top-level key.
pub open spec fn top(k: Seq<char>) -> Seq<PathStep> {
    seq![PathStep::Key(k)]
}

/// A value that is present and not blank, or empty.
pub open spec fn filled(o: Option<Seq<char>>) -> Seq<char> {
    match o {
        Some(s) => if trim(s).len() > 0 {
            s
        } else {
            seq![]
        },
        None => seq![],
    }
}

/// A value that is present, or empty.
pub open spec fn or_empty(o: Option<Seq<char>>) -> Seq<char> {
    match o {
        Some(s) => s,
        None => seq![],
    }
}

fn top_path(k: &str) -> (p: Vec<JsonStep>)
    ensures
        path_view(p@) == top(k@),
{
    let mut p: Vec<JsonStep> = Vec::new();
    p.push(key(k));
    assert(path_view(p@) =~= top(k@));
    p
}

fn is_blank(v: &Vec<char>) -> (b: bool)
    ensures
        b == (trim(v@).len() == 0),
{
    trim_chars(v).len() == 0
}

/// The username and API key of a stored secret (a JSON object with
/// `username` and `apiKey`), where present.
pub struct StoredSecret {
    pub username: Option<String>,
    pub api_key: Option<String>,
}

/// The username and API key that a stored secret holds.
pub open spec fn secret_fields(secret: Seq<char>) -> (Option<Seq<char>>, Option<Seq<char>>) {
    (json_text_at(secret, top("username"@)), json_text_at(secret, top("apiKey"@)))
}

/// Reads a stored secret with `serde_json`; see [`secret_fields`].
pub fn read_secret(secret: &str) -> (r: StoredSecret)
    ensures
        (opt_view(r.username), opt_view(r.api_key)) == secret_fields(secret@),
{
    StoredSecret {
        username: json_str(secret, &top_path("username")),
        api_key: json_str(secret, &top_path("apiKey")),
    }
}

/// A username and an API key are both present and neither is blank.
pub open spec fn fields_complete(username: Option<Seq<char>>, api_key: Option<Seq<char>>) -> bool {
    &&& username matches Some(u) && trim(u).len() > 0
    &&& api_key matches Some(k) && trim(k).len() > 0
}

/// The stored secret names a username and an API key, neither of them blank.
pub open spec fn credentials_complete(secret: Seq<char>) -> bool {
    fields_complete(secret_fields(secret).0, secret_fields(secret).1)
}

fn present_and_filled(o: &Option<String>) -> (b: bool)
    ensures
        b == (opt_view(*o) matches Some(s) && trim(s).len() > 0),
{
    match o {
        Some(s) => !is_blank(&to_chars(s.as_str())),
        None => false,
    }
}

/// Tells whether a read secret holds a usable username and API key.
pub fn secret_complete(s: &StoredSecret) -> (b: bool)
    ensures
        b == fields_complete(opt_view(s.username), opt_view(s.api_key)),
{
    present_and_filled(&s.username) && present_and_filled(&s.api_key)
}

/// Tells whether a stored secret holds a usable username and API key.
pub fn has_complete_credentials(secret: &str) -> (b: bool)
    ensures
        b == credentials_complete(secret@),
{
    secret_complete(&read_secret(secret))
}

/// The services that can be used: Danbooru when its stored secret is
/// complete, Yande.re always (it needs no account), Gelbooru when its stored
/// secret is complete; in that order. `None` stands for a secret that could
/// not be read.
pub fn active_services(danbooru_secret: Option<&str>, gelbooru_secret: Option<&str>) -> (r: Vec<
    String,
>)
    ensures
        strings(r@) == (if danbooru_secret matches Some(s) && credentials_complete(s@) {
            seq!["Danbooru"@]
        } else {
            seq![]
        }) + seq!["Yande.re"@] + (if gelbooru_secret matches Some(s) && credentials_complete(s@) {
            seq!["Gelbooru"@]
        } else {
            seq![]
        }),
{
    let mut r: Vec<String> = Vec::new();
    if let Some(s) = danbooru_secret {
        if has_complete_credentials(s) {
            r.push(owned("Danbooru"));
        }
    }
    r.push(owned("Yande.re"));
    if let Some(s) = gelbooru_secret {
        if has_complete_credentials(s) {
            r.push(owned("Gelbooru"));
        }
    }
    proof {
        let pre = if danbooru_secret matches Some(s) && credentials_complete(s@) {
            seq!["Danbooru"@]
        } else {
            seq![]
        };
        let post = if gelbooru_secret matches Some(s) && credentials_complete(s@) {
            seq!["Gelbooru"@]
        } else {
            seq![]
        };
        assert(strings(r@) =~= pre + seq!["Yande.re"@] + post);
    }
    r
}

/// The credentials used to fetch a post from a read secret: the username
/// and API key where present and not blank, else empty.
pub fn post_credentials_from(s: &StoredSecret) -> (c: Credentials)
    ensures
        c.username@ == filled(opt_view(s.username)),
        c.api_key@ == filled(opt_view(s.api_key)),
{
    let username = if present_and_filled(&s.username) {
        text_or_empty(s.username.clone())
    } else {
        String::new()
    };
    let api_key = if present_and_filled(&s.api_key) {
        text_or_empty(s.api_key.clone())
    } else {
        String::new()
    };
    Credentials { username, api_key }
}

/// The credentials used by the batch downloader from a read secret: the
/// username and API key as they are, empty where absent.
pub fn page_credentials_from(s: &StoredSecret) -> (c: Credentials)
    ensures
        c.username@ == or_empty(opt_view(s.username)),
        c.api_key@ == or_empty(opt_view(s.api_key)),
{
    Credentials { username: text_or_empty(s.username.clone()), api_key: text_or_empty(s.api_key.clone()) }
}

/// The credentials used to fetch a post: the stored username and API key
/// where present and not blank, else empty. `None` stands for a secret that
/// could not be read.
pub fn post_credentials(secret: Option<&str>) -> (c: Credentials)
    ensures
        match secret {
            Some(s) => {
                &&& c.username@ == filled(secret_fields(s@).0)
                &&& c.api_key@ == filled(secret_fields(s@).1)
            },
            None => c.username@.len() == 0 && c.api_key@.len() == 0,
        },
{
    match secret {
        Some(s) => post_credentials_from(&read_secret(s)),
        None => Credentials { username: String::new(), api_key: String::new() },
    }
}

/// The credentials used by the batch downloader: the stored username and API
/// key as they are, empty where absent. `None` stands for a secret that
/// could not be read.
pub fn page_credentials(secret: Option<&str>) -> (c: Credentials)
    ensures
        match secret {
            Some(s) => {
                &&& c.username@ == or_empty(secret_fields(s@).0)
                &&& c.api_key@ == or_empty(secret_fields(s@).1)
            },
            None => c.username@.len() == 0 && c.api_key@.len() == 0,
        },
{
    match secret {
        Some(s) => page_credentials_from(&read_secret(s)),
        None => Credentials { username: String::new(), api_key: String::new() },
    }
}

/// The `User-Agent` sent to a booru: the generic one without a username,
/// else one naming the user.
pub open spec fn user_agent_for(username: Seq<char>) -> Seq<char> {
    if username.len() == 0 {
        "SauceBottle/1.0"@
    } else {
        "Booru user "@ + username
    }
}

/// Executable form of [`user_agent_for`].
pub fn user_agent(username: &str) -> (r: String)
    ensures
        r@ == user_agent_for(username@),
{
    if username.is_empty() {
        owned("SauceBottle/1.0")
    } else {
        let mut r = owned("Booru user ");
        append_str(&mut r, username);
        r
    }
}

// ---- the post request -----------------------------------------------------

fn replace_in(s: &Vec<char>, pat: &str, rep: &str) -> (r: Vec<char>)
    requires
        pat@.len() > 0,
    ensures
        r@ == replace_all(s@, pat@, rep@),
{
    replace_exec(s, &to_chars(pat), &to_chars(rep))
}

/// The URL that fetches a post: the service's template, asking by MD5 hash
/// instead of id for a Gelbooru id of 32 bytes, with the id, username and
/// API key filled in.
pub open spec fn post_api_url(
    template: Seq<char>,
    service: Seq<char>,
    id: Seq<char>,
    username: Seq<char>,
    api_key: Seq<char>,
) -> Seq<char> {
    let t = if service == "Gelbooru"@ && encode_utf8(id).len() == 32 {
        replace_all(template, "&id=${ID}"@, "&tags=md5:${ID}"@)
    } else {
        template
    };
    replace_all(
        replace_all(replace_all(t, "${ID}"@, id), "${USERNAME}"@, username),
        "${API_KEY}"@,
        api_key,
    )
}

/// Builds the URL that fetches a post; see [`post_api_url`].
pub fn post_url(template: &str, service: &str, id: &str, creds: &Credentials) -> (r: String)
    ensures
        r@ == post_api_url(template@, service@, id@, creds.username@, creds.api_key@),
{
    proof {
        reveal_strlit("&id=${ID}");
        reveal_strlit("${ID}");
        reveal_strlit("${USERNAME}");
        reveal_strlit("${API_KEY}");
    }
    let mut t = to_chars(template);
    let idv = to_chars(id);
    if is_literal(&to_chars(service), "Gelbooru") && utf8_len(&idv) == 32 {
        t = replace_in(&t, "&id=${ID}", "&tags=md5:${ID}");
    }
    let t1 = replace_in(&t, "${ID}", id);
    let t2 = replace_in(&t1, "${USERNAME}", creds.username.as_str());
    let t3 = replace_in(&t2, "${API_KEY}", creds.api_key.as_str());
    to_string(&t3)
}

proof fn lemma_joined_without(x: Seq<char>, y: Seq<char>, c: char)
    requires
        forall|k: int| 0 <= k < x.len() ==> x[k] != c,
        forall|k: int| 0 <= k < y.len() ==> y[k] != c,
    ensures
        forall|k: int| 0 <= k < (x + y).len() ==> (x + y)[k] != c,
{
    assert forall|k: int| 0 <= k < (x + y).len() implies (x + y)[k] != c by {
        if k >= x.len() {
            assert((x + y)[k] == y[k - x.len()]);
        }
    }
}

/// The three placeholders filled in, in the order the post URL fills them.
proof fn lemma_fill_all(
    a: Seq<char>,
    b: Seq<char>,
    c: Seq<char>,
    d: Seq<char>,
    id: Seq<char>,
    username: Seq<char>,
    api_key: Seq<char>,
)
    requires
        forall|k: int| 0 <= k < a.len() ==> a[k] != '$',
        forall|k: int| 0 <= k < b.len() ==> b[k] != '$',
        forall|k: int| 0 <= k < c.len() ==> c[k] != '$',
        forall|k: int| 0 <= k < d.len() ==> d[k] != '$',
        forall|k: int| 0 <= k < id.len() ==> id[k] != '$',
        forall|k: int| 0 <= k < username.len() ==> username[k] != '$',
    ensures
        replace_all(
            replace_all(
                replace_all(a + "${ID}"@ + b + "${USERNAME}"@ + c + "${API_KEY}"@ + d, "${ID}"@, id),
                "${USERNAME}"@,
                username,
            ),
            "${API_KEY}"@,
            api_key,
        ) == a + id + b + username + c + api_key + d,
{
    reveal_strlit("${ID}");
    reveal_strlit("${USERNAME}");
    reveal_strlit("${API_KEY}");
    let p1 = "${ID}"@;
    let p2 = "${USERNAME}"@;
    let p3 = "${API_KEY}"@;
    assert(p1[0] == '$' && p2[0] == '$' && p3[0] == '$');
    assert(p1[2] == 'I' && p2[2] == 'U' && p3[2] == 'A');
    assert(forall|k: int| 1 <= k < p2.len() ==> p2[k] != '$');
    assert(forall|k: int| 1 <= k < p3.len() ==> p3[k] != '$');
    let t = a + p1 + b + p2 + c + p3 + d;
    // the id
    let x2 = c + (p3 + d);
    let x1 = b + (p2 + x2);
    assert(t =~= a + (p1 + x1));
    lemma_replace_passes_over(a, p1 + x1, p1, id);
    lemma_replace_front(p1, x1, id);
    lemma_replace_passes_over(b, p2 + x2, p1, id);
    lemma_replace_skips(p2, x2, p1, id, 2);
    lemma_replace_passes_over(c, p3 + d, p1, id);
    lemma_replace_skips(p3, d, p1, id, 2);
    lemma_replace_passes_over(d, Seq::<char>::empty(), p1, id);
    let u1 = replace_all(t, p1, id);
    let a2 = a + id + b;
    assert(u1 =~= a2 + (p2 + x2));
    // the username
    lemma_joined_without(a, id, '$');
    lemma_joined_without(a + id, b, '$');
    lemma_replace_passes_over(a2, p2 + x2, p2, username);
    lemma_replace_front(p2, x2, username);
    lemma_replace_passes_over(c, p3 + d, p2, username);
    lemma_replace_skips(p3, d, p2, username, 2);
    lemma_replace_passes_over(d, Seq::<char>::empty(), p2, username);
    let u2 = replace_all(u1, p2, username);
    let a3 = a2 + username + c;
    assert(u2 =~= a3 + (p3 + d));
    // the API key
    lemma_joined_without(a2, username, '$');
    lemma_joined_without(a2 + username, c, '$');
    lemma_replace_passes_over(a3, p3 + d, p3, api_key);
    lemma_replace_front(p3, d, api_key);
    lemma_replace_passes_over(d, Seq::<char>::empty(), p3, api_key);
    let u3 = replace_all(u2, p3, api_key);
    assert(u3 =~= a + id + b + username + c + api_key + d);
}

/// For every service, a template that holds `${ID}`, `${USERNAME}` and
/// `${API_KEY}` once each, with text free of `$` around them, becomes the
/// template with the post's id, the username and the API key in their places
/// (values free of `$`). Only a Gelbooru id of 32 bytes, an MD5 hash, is
/// asked for otherwise.
pub proof fn lemma_post_url_fills_placeholders(
    a: Seq<char>,
    b: Seq<char>,
    c: Seq<char>,
    d: Seq<char>,
    service: Seq<char>,
    id: Seq<char>,
    username: Seq<char>,
    api_key: Seq<char>,
)
    requires
        forall|k: int| 0 <= k < a.len() ==> a[k] != '$',
        forall|k: int| 0 <= k < b.len() ==> b[k] != '$',
        forall|k: int| 0 <= k < c.len() ==> c[k] != '$',
        forall|k: int| 0 <= k < d.len() ==> d[k] != '$',
        forall|k: int| 0 <= k < id.len() ==> id[k] != '$',
        forall|k: int| 0 <= k < username.len() ==> username[k] != '$',
        !(service == "Gelbooru"@ && encode_utf8(id).len() == 32),
    ensures
        post_api_url(
            a + "${ID}"@ + b + "${USERNAME}"@ + c + "${API_KEY}"@ + d,
            service,
            id,
            username,
            api_key,
        ) == a + id + b + username + c + api_key + d,
{
    lemma_fill_all(a, b, c, d, id, username, api_key);
}

/// No `&id=${ID}` begins in text free of `$` that a placeholder other than
/// `${ID}` follows.
proof fn lemma_no_id_clause_before(x: Seq<char>, q: Seq<char>, y: Seq<char>)
    requires
        forall|k: int| 0 <= k < x.len() ==> x[k] != '$',
        q.len() >= 4,
        q[0] == '$',
        q[2] != 'I',
        forall|k: int| 1 <= k < q.len() ==> q[k] != '$',
    ensures
        forall|k: int| 0 <= k < x.len() ==> !occurs_at(x + (q + y), "&id=${ID}"@, k),
{
    reveal_strlit("&id=${ID}");
    let p = "&id=${ID}"@;
    let s = x + (q + y);
    assert forall|k: int| 0 <= k < x.len() implies !occurs_at(s, p, k) by {
        if occurs_at(s, p, k) {
            assert(s.subrange(k, k + p.len())[4] == s[k + 4]);
            assert(s.subrange(k, k + p.len())[6] == s[k + 6]);
            assert(s[k + 4] == '$' && s[k + 6] == 'I');
            if k + 4 < x.len() {
                assert(s[k + 4] == x[k + 4]);
            } else {
                let j = k + 4 - x.len();
                assert(s[k + 4] == q[j]);
                assert(j == 0);
                assert(s[k + 6] == q[2]);
            }
        }
    }
}

/// A Gelbooru post whose id has 32 bytes, an MD5 hash, is asked for by hash:
/// in a template that holds `&id=${ID}`, `${USERNAME}` and `${API_KEY}` once
/// each, with text free of `$` around them, `&id=` becomes `&tags=md5:`, and
/// the id, username and API key (id and username free of `$`) fill their
/// places.
pub proof fn lemma_post_url_md5(
    a: Seq<char>,
    b: Seq<char>,
    c: Seq<char>,
    d: Seq<char>,
    id: Seq<char>,
    username: Seq<char>,
    api_key: Seq<char>,
)
    requires
        forall|k: int| 0 <= k < a.len() ==> a[k] != '$',
        forall|k: int| 0 <= k < b.len() ==> b[k] != '$',
        forall|k: int| 0 <= k < c.len() ==> c[k] != '$',
        forall|k: int| 0 <= k < d.len() ==> d[k] != '$',
        forall|k: int| 0 <= k < id.len() ==> id[k] != '$',
        forall|k: int| 0 <= k < username.len() ==> username[k] != '$',
        encode_utf8(id).len() == 32,
    ensures
        post_api_url(
            a + "&id=${ID}"@ + b + "${USERNAME}"@ + c + "${API_KEY}"@ + d,
            "Gelbooru"@,
            id,
            username,
            api_key,
        ) == a + "&tags=md5:"@ + id + b + username + c + api_key + d,
{
    reveal_strlit("&id=${ID}");
    reveal_strlit("&tags=md5:${ID}");
    reveal_strlit("&tags=md5:");
    reveal_strlit("${ID}");
    reveal_strlit("${USERNAME}");
    reveal_strlit("${API_KEY}");
    let p0 = "&id=${ID}"@;
    let r0 = "&tags=md5:${ID}"@;
    let p2 = "${USERNAME}"@;
    let p3 = "${API_KEY}"@;
    assert(forall|k: int| 1 <= k < p2.len() ==> p2[k] != '$');
    assert(forall|k: int| 1 <= k < p3.len() ==> p3[k] != '$');
    assert(forall|k: int| 1 <= k < p2.len() ==> p2[k] != '&');
    assert(forall|k: int| 1 <= k < p3.len() ==> p3[k] != '&');
    let y = p3 + d;
    let x3 = c + y;
    let x2 = p2 + x3;
    let x1 = b + x2;
    let t = a + p0 + b + p2 + c + p3 + d;
    assert(t =~= a + (p0 + x1));
    assert forall|k: int| 0 <= k < a.len() implies !occurs_at(a + (p0 + x1), p0, k) by {
        let s = a + (p0 + x1);
        if occurs_at(s, p0, k) {
            assert(s.subrange(k, k + p0.len())[4] == s[k + 4]);
            if k + 4 < a.len() {
                assert(s[k + 4] == a[k + 4]);
            } else {
                assert(s[k + 4] == p0[k + 4 - a.len()]);
            }
        }
    }
    lemma_replace_no_match(a, p0 + x1, p0, r0);
    lemma_replace_front(p0, x1, r0);
    lemma_no_id_clause_before(b, p2, x3);
    lemma_replace_no_match(b, x2, p0, r0);
    lemma_replace_skips(p2, x3, p0, r0, 0);
    lemma_no_id_clause_before(c, p3, d);
    lemma_replace_no_match(c, y, p0, r0);
    lemma_replace_skips(p3, d, p0, r0, 0);
    assert forall|k: int| 0 <= k < d.len() implies !occurs_at(d + Seq::<char>::empty(), p0, k) by {
        let s = d + Seq::<char>::empty();
        if occurs_at(s, p0, k) {
            assert(s.subrange(k, k + p0.len())[4] == s[k + 4]);
        }
    }
    lemma_replace_no_match(d, Seq::<char>::empty(), p0, r0);
    assert(d + Seq::<char>::empty() =~= d);
    let a2 = a + "&tags=md5:"@;
    assert(replace_all(t, p0, r0) =~= a2 + "${ID}"@ + b + p2 + c + p3 + d);
    lemma_joined_without(a, "&tags=md5:"@, '$');
    lemma_fill_all(a2, b, c, d, id, username, api_key);
    assert(a2 + id + b + username + c + api_key + d =~= a + "&tags=md5:"@ + id + b + username + c
        + api_key + d);
}

/// For every service, a template that holds `${ID}` once and no other
/// placeholder, with text free of `$` around it, becomes the template with
/// the post's id in its place (an id free of `$`), whatever the credentials.
/// Only a Gelbooru id of 32 bytes, an MD5 hash, is asked for otherwise.
pub proof fn lemma_post_url_fills_id(
    a: Seq<char>,
    b: Seq<char>,
    service: Seq<char>,
    id: Seq<char>,
    username: Seq<char>,
    api_key: Seq<char>,
)
    requires
        forall|k: int| 0 <= k < a.len() ==> a[k] != '$',
        forall|k: int| 0 <= k < b.len() ==> b[k] != '$',
        forall|k: int| 0 <= k < id.len() ==> id[k] != '$',
        !(service == "Gelbooru"@ && encode_utf8(id).len() == 32),
    ensures
        post_api_url(a + "${ID}"@ + b, service, id, username, api_key) == a + id + b,
{
    reveal_strlit("${ID}");
    reveal_strlit("${USERNAME}");
    reveal_strlit("${API_KEY}");
    let p1 = "${ID}"@;
    let p2 = "${USERNAME}"@;
    let p3 = "${API_KEY}"@;
    assert(p1[0] == '$' && p2[0] == '$' && p3[0] == '$');
    assert(a + p1 + b =~= a + (p1 + b));
    lemma_replace_passes_over(a, p1 + b, p1, id);
    lemma_replace_front(p1, b, id);
    lemma_replace_passes_over(b, Seq::<char>::empty(), p1, id);
    let u = a + id + b;
    assert(replace_all(a + p1 + b, p1, id) =~= u);
    lemma_joined_without(a, id, '$');
    lemma_joined_without(a + id, b, '$');
    lemma_replace_passes_over(u, Seq::<char>::empty(), p2, username);
    lemma_replace_passes_over(u, Seq::<char>::empty(), p3, api_key);
}

/// The post URL depends on the service's name only in asking Gelbooru by MD5
/// hash: for any two services outside that case, the same template, id and
/// credentials give the same URL.
pub proof fn lemma_post_url_same_for_services(
    template: Seq<char>,
    service1: Seq<char>,
    service2: Seq<char>,
    id: Seq<char>,
    username: Seq<char>,
    api_key: Seq<char>,
)
    requires
        !(service1 == "Gelbooru"@ && encode_utf8(id).len() == 32),
        !(service2 == "Gelbooru"@ && encode_utf8(id).len() == 32),
    ensures
        post_api_url(template, service1, id, username, api_key) == post_api_url(
            template,
            service2,
            id,
            username,
            api_key,
        ),
{
}

/// The message when the settings hold no configuration for a service.
pub open spec fn missing_service_message(service: Seq<char>) -> Seq<char> {
    "Service "@ + service + " not found"@
}

/// Finds the configuration of a service, or the message that it is missing.
pub fn find_service(config: &AppConfig, service: &str) -> (r: Result<usize, String>)
    requires
        config.wf(),
    ensures
        match position_of(service_names(config.services@), service@) {
            Some(k) => r == Ok::<usize, String>(k as usize),
            None => r matches Err(e) && e@ == missing_service_message(service@),
        },
{
    match config.service_index(service) {
        Some(k) => Ok(k),
        None => {
            let mut m = owned("Service ");
            append_str(&mut m, service);
            append_str(&mut m, " not found");
            Err(m)
        },
    }
}

// ---- reading a post -------------------------------------------------------

// The first four-digit year from 1900 to 2099, standing as a whole word,
// that `regex` finds with `\b(19|20)\d{2}\b`.
pub uninterp spec fn year_match(text: Seq<char>) -> Option<Seq<char>>;

/// Searches a text with the regular expression `\b(19|20)\d{2}\b` through
/// `regex::Regex::find` and returns the matched text. The contract claims
/// only that the result is a function of the text, named [`year_match`];
/// regular-expression matching is not stated.
#[verifier::external_body]
pub(crate) fn find_year(text: &str) -> (r: Option<String>)
    ensures
        opt_view(r) == year_match(text@),
{
    regex::Regex::new("\\b(19|20)\\d{2}\\b").unwrap().find(text).map(|m| m.as_str().to_string())
}

/// What a booru post says, before the tags are cleaned for display.
pub struct PostDetails {
    pub character: String,
    pub fandom: String,
    pub artist: String,
    pub raw_rating: String,
    pub year: String,
    /// Blacklist warnings for the user, in the order they arose.
    pub warnings: Vec<String>,
    /// The URL of a second request that gives more about the post.
    pub follow_up: Option<String>,
}

/// The plain view of [`PostDetails`].
pub struct PostView {
    pub character: Seq<char>,
    pub fandom: Seq<char>,
    pub artist: Seq<char>,
    pub raw_rating: Seq<char>,
    pub year: Seq<char>,
    pub warnings: Seq<Seq<char>>,
    pub follow_up: Option<Seq<char>>,
}

impl View for PostDetails {
    type V = PostView;

    open spec fn view(&self) -> PostView {
        PostView {
            character: self.character@,
            fandom: self.fandom@,
            artist: self.artist@,
            raw_rating: self.raw_rating@,
            year: self.year@,
            warnings: strings(self.warnings@),
            follow_up: opt_view(self.follow_up),
        }
    }
}

/// The path to a key of the first post of a Gelbooru answer.
pub open spec fn gelbooru_post(k: Seq<char>) -> Seq<PathStep> {
    seq![PathStep::Key("post"@), PathStep::Index(0), PathStep::Key(k)]
}

/// The path to a key of the first element of an array.
pub open spec fn first_post(k: Seq<char>) -> Seq<PathStep> {
    seq![PathStep::Index(0), PathStep::Key(k)]
}

/// The creation date as text, where the service gives one.
pub open spec fn created_at_text(service: Seq<char>, text: Seq<char>) -> Seq<char> {
    if service == "Gelbooru"@ {
        or_empty(json_text_at(text, gelbooru_post("created_at"@)))
    } else if service == "Danbooru"@ {
        or_empty(json_text_at(text, top("created_at"@)))
    } else {
        seq![]
    }
}

/// The first letter of a rating, or `u` when there is none.
pub open spec fn first_letter_or_u(o: Option<Seq<char>>) -> Seq<char> {
    match o {
        Some(r) => if r.len() > 0 {
            seq![r[0]]
        } else {
            seq!['u']
        },
        None => seq!['u'],
    }
}

/// The year of a UNIX timestamp, counting 31556926 seconds to the year and
/// truncating towards zero.
pub open spec fn yandere_year(ts: i64) -> Seq<char> {
    let q = if ts >= 0 {
        ts / 31556926
    } else {
        -((-ts) / 31556926)
    };
    signed_decimal(1970 + q)
}

/// The first `n` words, or all of them when there are fewer.
pub open spec fn first_n(ws: Seq<Seq<char>>, n: int) -> Seq<Seq<char>> {
    if ws.len() <= n {
        ws
    } else {
        ws.take(n)
    }
}

/// The tag part of a Gelbooru tag query: the first 25 words of the post's
/// tags, each percent-encoded, joined by `+`.
pub open spec fn tag_query(tags: Seq<char>) -> Seq<char> {
    join(
        first_n(words(tags), 25).map_values(|w: Seq<char>| percent_encoding(encode_utf8(w))),
        seq!['+'],
    )
}

/// The URL of Gelbooru's tag request for a post.
pub open spec fn gelbooru_tag_url(
    template: Seq<char>,
    tags: Seq<char>,
    username: Seq<char>,
    api_key: Seq<char>,
) -> Seq<char> {
    replace_all(
        replace_all(replace_all(template, "${TAGS}"@, tag_query(tags)), "${USERNAME}"@, username),
        "${API_KEY}"@,
        api_key,
    )
}

/// The first tag that is not blacklisted, with its warnings, or the default.
pub open spec fn pick_tag(tags: Seq<Seq<char>>, entries: Seq<Seq<char>>, default: Seq<char>) -> (
    Seq<char>,
    Seq<Seq<char>>,
) {
    match first_allowed_from(tags, entries, 0) {
        Some(k) => (tags[k], blacklist_warnings(lowercase(tags[k]), tags[k], entries)),
        None => (default, seq![]),
    }
}

/// The first tag of a whitespace-separated tag field that is not
/// blacklisted, or the default when the field is missing or all blacklisted.
pub open spec fn field_tag(field: Option<Seq<char>>, default: Seq<char>, entries: Seq<Seq<char>>) -> (
    Seq<char>,
    Seq<Seq<char>>,
) {
    match field {
        Some(s) => pick_tag(words(s), entries, default),
        None => (default, seq![]),
    }
}

/// The fields of a post answer that the sorter reads.
pub struct PostFields {
    /// The year found in the creation date.
    pub year: Option<String>,
    /// Danbooru's character tags.
    pub character_tags: Option<String>,
    /// Danbooru's copyright tags.
    pub copyright_tags: Option<String>,
    /// Danbooru's artist tags.
    pub artist_tags: Option<String>,
    /// The rating, as the service writes it.
    pub rating: Option<String>,
    /// Gelbooru's tags.
    pub tags: Option<String>,
    /// Yande.re's creation time, in seconds since 1970.
    pub timestamp: Option<i64>,
}

/// The plain view of [`PostFields`].
pub struct FieldsView {
    pub year: Option<Seq<char>>,
    pub character_tags: Option<Seq<char>>,
    pub copyright_tags: Option<Seq<char>>,
    pub artist_tags: Option<Seq<char>>,
    pub rating: Option<Seq<char>>,
    pub tags: Option<Seq<char>>,
    pub timestamp: Option<i64>,
}

impl View for PostFields {
    type V = FieldsView;

    open spec fn view(&self) -> FieldsView {
        FieldsView {
            year: opt_view(self.year),
            character_tags: opt_view(self.character_tags),
            copyright_tags: opt_view(self.copyright_tags),
            artist_tags: opt_view(self.artist_tags),
            rating: opt_view(self.rating),
            tags: opt_view(self.tags),
            timestamp: self.timestamp,
        }
    }
}

/// Where each service keeps the fields of a post in its answer `text`: the
/// year is the one `regex` finds in the creation date.
pub open spec fn post_fields_of(service: Seq<char>, text: Seq<char>) -> FieldsView {
    let danbooru = service == "Danbooru"@;
    let gelbooru = service == "Gelbooru"@;
    let yandere = service == "Yande.re"@;
    FieldsView {
        year: year_match(created_at_text(service, text)),
        character_tags: if danbooru {
            json_text_at(text, top("tag_string_character"@))
        } else {
            None
        },
        copyright_tags: if danbooru {
            json_text_at(text, top("tag_string_copyright"@))
        } else {
            None
        },
        artist_tags: if danbooru {
            json_text_at(text, top("tag_string_artist"@))
        } else {
            None
        },
        rating: if danbooru {
            json_text_at(text, top("rating"@))
        } else if gelbooru {
            json_text_at(text, gelbooru_post("rating"@))
        } else if yandere {
            json_text_at(text, first_post("rating"@))
        } else {
            None
        },
        tags: if gelbooru {
            json_text_at(text, gelbooru_post("tags"@))
        } else {
            None
        },
        timestamp: if yandere {
            json_int_at(text, first_post("created_at"@))
        } else {
            None
        },
    }
}

/// What a post says, for each service, from its fields.
pub open spec fn post_view_from(
    service: Seq<char>,
    id: Seq<char>,
    f: FieldsView,
    tag_template: Option<Seq<char>>,
    username: Seq<char>,
    api_key: Seq<char>,
    entries: Seq<Seq<char>>,
) -> PostView {
    let year = match f.year {
        Some(y) => y,
        None => "Unknown"@,
    };
    if service == "Danbooru"@ {
        let c = field_tag(f.character_tags, "Original"@, entries);
        let p = field_tag(f.copyright_tags, "Unknown"@, entries);
        let a = field_tag(f.artist_tags, "Unknown"@, entries);
        PostView {
            character: c.0,
            fandom: p.0,
            artist: a.0,
            raw_rating: match f.rating {
                Some(r) => r,
                None => "u"@,
            },
            year,
            warnings: c.1 + p.1 + a.1,
            follow_up: None,
        }
    } else if service == "Gelbooru"@ {
        PostView {
            character: "Original"@,
            fandom: "Unknown"@,
            artist: "Unknown"@,
            raw_rating: first_letter_or_u(f.rating),
            year,
            warnings: seq![],
            follow_up: match tag_template {
                Some(t) => Some(gelbooru_tag_url(t, or_empty(f.tags), username, api_key)),
                None => None,
            },
        }
    } else if service == "Yande.re"@ {
        PostView {
            character: "Original"@,
            fandom: "Unknown"@,
            artist: "Unknown"@,
            raw_rating: first_letter_or_u(f.rating),
            year: match f.timestamp {
                Some(ts) => yandere_year(ts),
                None => year,
            },
            warnings: seq![],
            follow_up: Some("https://yande.re/post/show/"@ + id),
        }
    } else {
        PostView {
            character: "Original"@,
            fandom: "Unknown"@,
            artist: "Unknown"@,
            raw_rating: "u"@,
            year,
            warnings: seq![],
            follow_up: None,
        }
    }
}

/// What the answer `text` to the post request says, for each service;
/// `serde_json`'s error when it is not JSON.
pub open spec fn read_post_view(
    service: Seq<char>,
    id: Seq<char>,
    text: Seq<char>,
    tag_template: Option<Seq<char>>,
    username: Seq<char>,
    api_key: Seq<char>,
    entries: Seq<Seq<char>>,
) -> Result<PostView, Seq<char>> {
    if let Some(e) = json_parse_error(text) {
        Err(e)
    } else {
        Ok(
            post_view_from(
                service,
                id,
                post_fields_of(service, text),
                tag_template,
                username,
                api_key,
                entries,
            ),
        )
    }
}

fn post_path(k: &str) -> (p: Vec<JsonStep>)
    ensures
        path_view(p@) == gelbooru_post(k@),
{
    let mut p: Vec<JsonStep> = Vec::new();
    p.push(key("post"));
    p.push(JsonStep::Index(0));
    p.push(key(k));
    assert(path_view(p@) =~= gelbooru_post(k@));
    p
}

fn first_path(k: &str) -> (p: Vec<JsonStep>)
    ensures
        path_view(p@) == first_post(k@),
{
    let mut p: Vec<JsonStep> = Vec::new();
    p.push(JsonStep::Index(0));
    p.push(key(k));
    assert(path_view(p@) =~= first_post(k@));
    p
}

fn text_or_empty(o: Option<String>) -> (r: String)
    ensures
        r@ == or_empty(opt_view(o)),
{
    match o {
        Some(s) => s,
        None => String::new(),
    }
}

fn first_letter(o: &Option<String>) -> (r: String)
    ensures
        r@ == first_letter_or_u(opt_view(*o)),
{
    let mut r = String::new();
    match o {
        Some(s) => {
            let v = to_chars(s.as_str());
            if v.len() > 0 {
                crate::text::push_char(&mut r, v[0]);
            } else {
                crate::text::push_char(&mut r, 'u');
            }
        },
        None => crate::text::push_char(&mut r, 'u'),
    }
    assert(r@ =~= first_letter_or_u(opt_view(*o)));
    r
}

fn year_of_timestamp(ts: i64) -> (r: String)
    ensures
        r@ == yandere_year(ts),
{
    let mag: u64 = if ts >= 0 {
        ts as u64
    } else {
        (0 - (ts as i128)) as u64
    };
    let q: u64 = mag / 31556926;
    let y: i64 = if ts >= 0 {
        1970 + q as i64
    } else {
        1970 - q as i64
    };
    to_string(&format_i64(y))
}

fn words_as_strings(text: &str) -> (r: Vec<String>)
    ensures
        strings(r@) == words(text@),
{
    let ws = split_words(&to_chars(text));
    let mut r: Vec<String> = Vec::new();
    let mut i: usize = 0;
    while i < ws.len()
        invariant
            i <= ws.len(),
            views(ws@) == words(text@),
            strings(r@) == views(ws@).take(i as int),
        decreases ws.len() - i,
    {
        let w = to_string(&ws[i]);
        assert(views(ws@)[i as int] == ws@[i as int]@);
        let ghost before = strings(r@);
        r.push(w);
        assert(strings(r@) =~= before.push(w@));
        i = i + 1;
        assert(strings(r@) =~= views(ws@).take(i as int));
    }
    assert(views(ws@).take(ws.len() as int) =~= views(ws@));
    r
}

fn field_choice(field: &Option<String>, default: &str, blacklist: &[String]) -> (r: TagChoice)
    ensures
        (r.tag@, strings(r.warnings@)) == field_tag(opt_view(*field), default@, strings(blacklist@)),
{
    match field {
        Some(s) => {
            let tags = words_as_strings(s.as_str());
            let c = first_allowed_tag(&tags, blacklist, default);
            proof {
                match first_allowed_from(strings(tags@), strings(blacklist@), 0) {
                    Some(k) => {},
                    None => {
                        assert(strings(c.warnings@) =~= Seq::<Seq<char>>::empty());
                    },
                }
            }
            c
        },
        None => {
            let c = TagChoice { tag: owned(default), warnings: Vec::new() };
            assert(strings(c.warnings@) =~= Seq::<Seq<char>>::empty());
            c
        },
    }
}

/// The tag query asks for every word of the post's tags, up to the first 25:
/// split at `+`, it gives one piece per word (25 when there are more), each
/// the word percent-encoded, which decodes back to the word's UTF-8 bytes.
/// Tags without a word give an empty query.
pub proof fn lemma_tag_query_words(tags: Seq<char>)
    ensures
        words(tags).len() == 0 ==> tag_query(tags).len() == 0,
        words(tags).len() > 0 ==> pieces(tag_query(tags), '+').len() == (if words(tags).len() <= 25 {
            words(tags).len() as int
        } else {
            25
        }),
        words(tags).len() > 0 ==> forall|i: int|
            0 <= i < pieces(tag_query(tags), '+').len() ==> #[trigger] pieces(tag_query(tags), '+')[i]
                == percent_encoding(encode_utf8(words(tags)[i])) && percent_decoding(
                pieces(tag_query(tags), '+')[i],
            ) == encode_utf8(words(tags)[i]),
{
    let ws = words(tags);
    let picked = first_n(ws, 25);
    let enc = picked.map_values(|w: Seq<char>| percent_encoding(encode_utf8(w)));
    assert(tag_query(tags) == join(enc, seq!['+']));
    if ws.len() > 0 {
        assert forall|i: int, k: int| 0 <= i < enc.len() && 0 <= k < enc[i].len() implies #[trigger] enc[i][k]
            != '+' by {
            lemma_encoding_safe(encode_utf8(picked[i]));
            assert(enc[i] == percent_encoding(encode_utf8(picked[i])));
        }
        lemma_pieces_of_join(enc, '+');
        assert forall|i: int| 0 <= i < enc.len() implies #[trigger] enc[i] == percent_encoding(
            encode_utf8(ws[i]),
        ) && percent_decoding(enc[i]) == encode_utf8(ws[i]) by {
            assert(picked[i] == ws[i]);
            lemma_encoding_round_trip(encode_utf8(ws[i]));
        }
    }
}

fn gelbooru_query(tags: &str) -> (r: Vec<char>)
    ensures
        r@ == tag_query(tags@),
{
    let ws = split_words(&to_chars(tags));
    let n: usize = if ws.len() <= 25 {
        ws.len()
    } else {
        25
    };
    let ghost picked = first_n(words(tags@), 25);
    let ghost enc = picked.map_values(|w: Seq<char>| percent_encoding(encode_utf8(w)));
    let mut out: Vec<Vec<char>> = Vec::new();
    let mut i: usize = 0;
    while i < n
        invariant
            i <= n <= ws.len(),
            n == picked.len(),
            views(ws@) == words(tags@),
            picked == first_n(words(tags@), 25),
            enc == picked.map_values(|w: Seq<char>| percent_encoding(encode_utf8(w))),
            views(out@) == enc.take(i as int),
        decreases n - i,
    {
        assert(views(ws@)[i as int] == ws@[i as int]@);
        assert(picked[i as int] == words(tags@)[i as int]);
        let w = to_string(&ws[i]);
        let e = to_chars(url_encode(w.as_str()).as_str());
        let ghost before = views(out@);
        out.push(e);
        assert(views(out@) =~= before.push(e@));
        i = i + 1;
        assert(views(out@) =~= enc.take(i as int));
    }
    assert(enc.take(n as int) =~= enc);
    let mut sep: Vec<char> = Vec::new();
    sep.push('+');
    assert(sep@ =~= seq!['+']);
    join_words(&out, &sep)
}

/// Reads the fields of a post from the answer `text` of `service`, with
/// `serde_json` and, for the year, `regex`; see [`post_fields_of`].
pub fn read_post_fields(service: &str, text: &str) -> (r: PostFields)
    ensures
        r@ == post_fields_of(service@, text@),
{
    let sv = to_chars(service);
    let gelbooru = is_literal(&sv, "Gelbooru");
    let danbooru = is_literal(&sv, "Danbooru");
    let yandere = is_literal(&sv, "Yande.re");
    let created = if gelbooru {
        text_or_empty(json_str(text, &post_path("created_at")))
    } else if danbooru {
        text_or_empty(json_str(text, &top_path("created_at")))
    } else {
        String::new()
    };
    PostFields {
        year: find_year(created.as_str()),
        character_tags: if danbooru {
            json_str(text, &top_path("tag_string_character"))
        } else {
            None
        },
        copyright_tags: if danbooru {
            json_str(text, &top_path("tag_string_copyright"))
        } else {
            None
        },
        artist_tags: if danbooru {
            json_str(text, &top_path("tag_string_artist"))
        } else {
            None
        },
        rating: if danbooru {
            json_str(text, &top_path("rating"))
        } else if gelbooru {
            json_str(text, &post_path("rating"))
        } else if yandere {
            json_str(text, &first_path("rating"))
        } else {
            None
        },
        tags: if gelbooru {
            json_str(text, &post_path("tags"))
        } else {
            None
        },
        timestamp: if yandere {
            json_i64(text, &first_path("created_at"))
        } else {
            None
        },
    }
}

/// Builds what a post says from its fields; see [`post_view_from`].
/// `tag_template` is the service's second URL template, `creds` the
/// credentials from [`post_credentials`], and `blacklist` the entries from
/// [`crate::tags::parse_blacklist`].
pub fn post_from_fields(
    service: &str,
    id: &str,
    fields: &PostFields,
    tag_template: Option<&str>,
    creds: &Credentials,
    blacklist: &[String],
) -> (r: PostDetails)
    ensures
        r@ == post_view_from(
            service@,
            id@,
            fields@,
            match tag_template {
                Some(t) => Some(t@),
                None => None::<Seq<char>>,
            },
            creds.username@,
            creds.api_key@,
            strings(blacklist@),
        ),
{
    let sv = to_chars(service);
    let year = match &fields.year {
        Some(y) => y.clone(),
        None => owned("Unknown"),
    };
    let ghost template = match tag_template {
        Some(t) => Some(t@),
        None => None::<Seq<char>>,
    };
    let ghost want = post_view_from(
        service@,
        id@,
        fields@,
        template,
        creds.username@,
        creds.api_key@,
        strings(blacklist@),
    );
    if is_literal(&sv, "Danbooru") {
        let c = field_choice(&fields.character_tags, "Original", blacklist);
        let f = field_choice(&fields.copyright_tags, "Unknown", blacklist);
        let a = field_choice(&fields.artist_tags, "Unknown", blacklist);
        let ghost cw = strings(c.warnings@);
        let ghost fw0 = strings(f.warnings@);
        let ghost aw0 = strings(a.warnings@);
        let mut warnings = c.warnings;
        let mut fw = f.warnings;
        let mut aw = a.warnings;
        warnings.append(&mut fw);
        warnings.append(&mut aw);
        assert(strings(warnings@) =~= cw + fw0 + aw0);
        let d = PostDetails {
            character: c.tag,
            fandom: f.tag,
            artist: a.tag,
            raw_rating: match &fields.rating {
                Some(r) => r.clone(),
                None => owned("u"),
            },
            year,
            warnings,
            follow_up: None,
        };
        assert(d@.warnings =~= want.warnings);
        d
    } else if is_literal(&sv, "Gelbooru") {
        let follow_up = match tag_template {
            Some(t) => {
                proof {
                    reveal_strlit("${TAGS}");
                    reveal_strlit("${USERNAME}");
                    reveal_strlit("${API_KEY}");
                }
                let tags = match &fields.tags {
                    Some(s) => s.clone(),
                    None => String::new(),
                };
                let q = to_string(&gelbooru_query(tags.as_str()));
                let u1 = replace_in(&to_chars(t), "${TAGS}", q.as_str());
                let u2 = replace_in(&u1, "${USERNAME}", creds.username.as_str());
                let u3 = replace_in(&u2, "${API_KEY}", creds.api_key.as_str());
                Some(to_string(&u3))
            },
            None => None,
        };
        let d = PostDetails {
            character: owned("Original"),
            fandom: owned("Unknown"),
            artist: owned("Unknown"),
            raw_rating: first_letter(&fields.rating),
            year,
            warnings: Vec::new(),
            follow_up,
        };
        assert(d@.warnings =~= want.warnings);
        d
    } else if is_literal(&sv, "Yande.re") {
        let year = match fields.timestamp {
            Some(ts) => year_of_timestamp(ts),
            None => year,
        };
        let mut url = owned("https://yande.re/post/show/");
        append_str(&mut url, id);
        let d = PostDetails {
            character: owned("Original"),
            fandom: owned("Unknown"),
            artist: owned("Unknown"),
            raw_rating: first_letter(&fields.rating),
            year,
            warnings: Vec::new(),
            follow_up: Some(url),
        };
        assert(d@.warnings =~= want.warnings);
        d
    } else {
        let d = PostDetails {
            character: owned("Original"),
            fandom: owned("Unknown"),
            artist: owned("Unknown"),
            raw_rating: owned("u"),
            year,
            warnings: Vec::new(),
            follow_up: None,
        };
        assert(d@.warnings =~= want.warnings);
        d
    }
}

/// Reads the answer to the post request; see [`read_post_view`]: its fields
/// (see [`read_post_fields`]) make the post (see [`post_from_fields`]).
pub fn read_post(
    service: &str,
    id: &str,
    text: &str,
    tag_template: Option<&str>,
    creds: &Credentials,
    blacklist: &[String],
) -> (r: Result<PostDetails, String>)
    ensures
        match read_post_view(
            service@,
            id@,
            text@,
            match tag_template {
                Some(t) => Some(t@),
                None => None::<Seq<char>>,
            },
            creds.username@,
            creds.api_key@,
            strings(blacklist@),
        ) {
            Ok(v) => r matches Ok(d) && d@ == v,
            Err(e) => r matches Err(m) && m@ == e,
        },
{
    if let Some(e) = json_check(text) {
        return Err(e);
    }
    let fields = read_post_fields(service, text);
    Ok(post_from_fields(service, id, &fields, tag_template, creds, blacklist))
}

// ---- second requests --------------------------------------------------------

/// A tag of Gelbooru's tag answer: its name and its type number (4 for
/// characters, 3 for copyrights, 1 for artists).
pub struct GelbooruTag {
    pub name: Option<String>,
    pub kind: Option<i64>,
}

/// The view of a list of Gelbooru tags.
pub open spec fn gelbooru_tags_view(v: Seq<GelbooruTag>) -> Seq<(Option<Seq<char>>, Option<i64>)> {
    v.map_values(|t: GelbooruTag| (opt_view(t.name), t.kind))
}

/// Where the tag array stands in Gelbooru's tag answer: under `tag`, or the
/// whole answer; `None` when neither is an array.
pub open spec fn gelbooru_tag_base(text: Seq<char>) -> Option<(Seq<PathStep>, nat)> {
    match json_len_at(text, top("tag"@)) {
        Some(n) => Some((top("tag"@), n)),
        None => match json_len_at(text, seq![]) {
            Some(n) => Some((seq![], n)),
            None => None,
        },
    }
}

/// The tags of Gelbooru's tag answer, in order.
pub open spec fn gelbooru_tags(text: Seq<char>) -> Option<Seq<(Option<Seq<char>>, Option<i64>)>> {
    match gelbooru_tag_base(text) {
        Some((base, n)) => Some(
            Seq::new(
                n,
                |i: int|
                    (
                        json_text_at(text, base + seq![PathStep::Index(i as nat), PathStep::Key("name"@)]),
                        json_int_at(text, base + seq![PathStep::Index(i as nat), PathStep::Key("type"@)]),
                    ),
            ),
        ),
        None => None,
    }
}

/// A tag's name, or the empty name when it has none.
pub open spec fn name_or_empty(t: (Option<Seq<char>>, Option<i64>)) -> Seq<char> {
    or_empty(t.0)
}

/// The tag is blacklisted.
pub open spec fn tag_ignored(t: (Option<Seq<char>>, Option<i64>), entries: Seq<Seq<char>>) -> bool {
    entries.contains(lowercase(name_or_empty(t)))
}

/// The tags that are not blacklisted, in order.
pub open spec fn kept_tags(ts: Seq<(Option<Seq<char>>, Option<i64>)>, entries: Seq<Seq<char>>) -> Seq<
    (Option<Seq<char>>, Option<i64>),
>
    decreases ts.len(),
{
    if ts.len() == 0 {
        seq![]
    } else {
        let prev = kept_tags(ts.drop_last(), entries);
        if tag_ignored(ts.last(), entries) {
            prev
        } else {
            prev.push(ts.last())
        }
    }
}

/// The warnings raised while filtering the tags, in order.
pub open spec fn tag_warnings(ts: Seq<(Option<Seq<char>>, Option<i64>)>, entries: Seq<Seq<char>>) -> Seq<
    Seq<char>,
>
    decreases ts.len(),
{
    if ts.len() == 0 {
        seq![]
    } else {
        let prev = tag_warnings(ts.drop_last(), entries);
        let n = name_or_empty(ts.last());
        if tag_ignored(ts.last(), entries) {
            prev
        } else {
            prev + blacklist_warnings(lowercase(n), n, entries)
        }
    }
}

/// Position of the first tag of the given type.
pub open spec fn first_of_kind(ts: Seq<(Option<Seq<char>>, Option<i64>)>, kind: i64) -> Option<int>
    decreases ts.len(),
{
    if ts.len() == 0 {
        None
    } else if ts[0].1 == Some(kind) {
        Some(0)
    } else {
        match first_of_kind(ts.drop_first(), kind) {
            Some(k) => Some(k + 1),
            None => None,
        }
    }
}

/// The name of the first kept tag of the given type, or `current` when there
/// is no such tag or it has no name.
pub open spec fn role_name(
    kept: Seq<(Option<Seq<char>>, Option<i64>)>,
    kind: i64,
    current: Seq<char>,
) -> Seq<char> {
    match first_of_kind(kept, kind) {
        Some(k) => match kept[k].0 {
            Some(n) => n,
            None => current,
        },
        None => current,
    }
}

/// The post after applying Gelbooru's tags: the first kept tag of each type
/// names the character (4), the copyright (3) and the artist (1), and the
/// warnings of all tags are added.
pub open spec fn with_tag_list(
    d: PostView,
    ts: Seq<(Option<Seq<char>>, Option<i64>)>,
    entries: Seq<Seq<char>>,
) -> PostView {
    let kept = kept_tags(ts, entries);
    PostView {
        character: role_name(kept, 4, d.character),
        fandom: role_name(kept, 3, d.fandom),
        artist: role_name(kept, 1, d.artist),
        warnings: d.warnings + tag_warnings(ts, entries),
        ..d
    }
}

/// The post after reading Gelbooru's tag answer; unchanged when the answer
/// holds no tag array.
pub open spec fn with_gelbooru_tags(d: PostView, text: Seq<char>, entries: Seq<Seq<char>>) -> PostView {
    match gelbooru_tags(text) {
        Some(ts) => with_tag_list(d, ts, entries),
        None => d,
    }
}

proof fn lemma_first_of_kind(ts: Seq<(Option<Seq<char>>, Option<i64>)>, kind: i64, i: int)
    requires
        0 <= i <= ts.len(),
        forall|k: int| 0 <= k < i ==> #[trigger] ts[k].1 != Some(kind),
    ensures
        first_of_kind(ts, kind) == match first_of_kind(ts.skip(i), kind) {
            Some(k) => Some(k + i),
            None => None::<int>,
        },
    decreases i,
{
    if i > 0 {
        lemma_first_of_kind(ts.drop_first(), kind, i - 1);
        assert(ts.drop_first().skip(i - 1) =~= ts.skip(i));
    } else {
        assert(ts.skip(0) =~= ts);
        match first_of_kind(ts, kind) {
            Some(k) => {},
            None => {},
        }
    }
}

fn role_name_exec(kept: &Vec<GelbooruTag>, kind: i64, current: String) -> (r: String)
    ensures
        r@ == role_name(gelbooru_tags_view(kept@), kind, current@),
{
    let ghost kv = gelbooru_tags_view(kept@);
    let mut i: usize = 0;
    while i < kept.len()
        invariant
            i <= kept@.len(),
            kv == gelbooru_tags_view(kept@),
            forall|k: int| 0 <= k < i ==> #[trigger] kv[k].1 != Some(kind),
        decreases kept@.len() - i,
    {
        if kept[i].kind == Some(kind) {
            proof {
                lemma_first_of_kind(kv, kind, i as int);
                assert(kv.skip(i as int)[0] == kv[i as int]);
            }
            return match &kept[i].name {
                Some(n) => n.clone(),
                None => current,
            };
        }
        i = i + 1;
    }
    proof {
        lemma_first_of_kind(kv, kind, i as int);
        assert(kv.skip(i as int) =~= Seq::<(Option<Seq<char>>, Option<i64>)>::empty());
    }
    current
}

fn tag_item_path(base: &Vec<JsonStep>, i: usize, k: &str) -> (p: Vec<JsonStep>)
    ensures
        path_view(p@) == path_view(base@) + seq![PathStep::Index(i as nat), PathStep::Key(k@)],
{
    let mut p: Vec<JsonStep> = Vec::new();
    let mut j: usize = 0;
    while j < base.len()
        invariant
            j <= base@.len(),
            path_view(p@) == path_view(base@).take(j as int),
        decreases base@.len() - j,
    {
        let step = match &base[j] {
            JsonStep::Key(s) => JsonStep::Key(s.clone()),
            JsonStep::Index(n) => JsonStep::Index(*n),
        };
        let ghost before = path_view(p@);
        p.push(step);
        assert(path_view(p@) =~= before.push(base@[j as int]@));
        j = j + 1;
        assert(path_view(p@) =~= path_view(base@).take(j as int));
    }
    assert(path_view(base@).take(base@.len() as int) =~= path_view(base@));
    let ghost before = path_view(p@);
    p.push(JsonStep::Index(i));
    p.push(key(k));
    assert(path_view(p@) =~= before + seq![PathStep::Index(i as nat), PathStep::Key(k@)]);
    p
}

/// Reads the tags of Gelbooru's tag answer; see [`gelbooru_tags`].
pub fn read_gelbooru_tags(text: &str) -> (r: Option<Vec<GelbooruTag>>)
    ensures
        match gelbooru_tags(text@) {
            Some(ts) => r matches Some(v) && gelbooru_tags_view(v@) == ts,
            None => r is None,
        },
{
    let under_tag = top_path("tag");
    let (base, n) = match json_array_len(text, &under_tag) {
        Some(n) => (under_tag, n),
        None => {
            let whole: Vec<JsonStep> = Vec::new();
            assert(path_view(whole@) =~= Seq::<PathStep>::empty());
            match json_array_len(text, &whole) {
                Some(n) => (whole, n),
                None => {
                    return None;
                },
            }
        },
    };
    let ghost ts = gelbooru_tags(text@)->Some_0;
    let ghost b = path_view(base@);
    assert(gelbooru_tag_base(text@) == Some((b, n as nat)));
    let mut out: Vec<GelbooruTag> = Vec::new();
    let mut i: usize = 0;
    while i < n
        invariant
            i <= n,
            b == path_view(base@),
            gelbooru_tag_base(text@) == Some((b, n as nat)),
            ts == gelbooru_tags(text@)->Some_0,
            ts.len() == n,
            gelbooru_tags_view(out@) == ts.take(i as int),
        decreases n - i,
    {
        let name = json_str(text, &tag_item_path(&base, i, "name"));
        let kind = json_i64(text, &tag_item_path(&base, i, "type"));
        let ghost before = gelbooru_tags_view(out@);
        out.push(GelbooruTag { name, kind });
        assert(gelbooru_tags_view(out@) =~= before.push((opt_view(name), kind)));
        i = i + 1;
        assert(gelbooru_tags_view(out@) =~= ts.take(i as int));
    }
    assert(ts.take(n as int) =~= ts);
    Some(out)
}

fn or_empty_str(o: &Option<String>) -> (r: String)
    ensures
        r@ == or_empty(opt_view(*o)),
{
    match o {
        Some(s) => s.clone(),
        None => String::new(),
    }
}

/// Applies Gelbooru's tag answer to a post; see [`with_gelbooru_tags`].
pub fn apply_gelbooru_tags(d: PostDetails, text: &str, blacklist: &[String]) -> (r: PostDetails)
    ensures
        r@ == with_gelbooru_tags(d@, text@, strings(blacklist@)),
{
    match read_gelbooru_tags(text) {
        Some(tags) => apply_tag_list(d, &tags, blacklist),
        None => d,
    }
}

/// Applies Gelbooru's tags to a post; see [`with_tag_list`].
pub fn apply_tag_list(d: PostDetails, tags: &Vec<GelbooruTag>, blacklist: &[String]) -> (r: PostDetails)
    ensures
        r@ == with_tag_list(d@, gelbooru_tags_view(tags@), strings(blacklist@)),
{
    let ghost ts = gelbooru_tags_view(tags@);
    let ghost es = strings(blacklist@);
    let mut kept: Vec<GelbooruTag> = Vec::new();
    let mut warnings: Vec<String> = Vec::new();
    let mut i: usize = 0;
    while i < tags.len()
        invariant
            i <= tags@.len(),
            ts == gelbooru_tags_view(tags@),
            es == strings(blacklist@),
            gelbooru_tags_view(kept@) == kept_tags(ts.take(i as int), es),
            strings(warnings@) == tag_warnings(ts.take(i as int), es),
        decreases tags@.len() - i,
    {
        let t = &tags[i];
        assert(ts[i as int] == (opt_view(t.name), t.kind));
        assert(ts.take(i + 1).drop_last() =~= ts.take(i as int));
        let n = or_empty_str(&t.name);
        let v = process_blacklist_rules(n.as_str(), blacklist);
        if !v.ignored {
            let ghost kb = gelbooru_tags_view(kept@);
            let copy = GelbooruTag {
                name: match &t.name {
                    Some(s) => Some(s.clone()),
                    None => None,
                },
                kind: t.kind,
            };
            kept.push(copy);
            assert(gelbooru_tags_view(kept@) =~= kb.push(ts[i as int]));
            let ghost wb = strings(warnings@);
            let mut w = v.warnings;
            warnings.append(&mut w);
            assert(strings(warnings@) =~= wb + blacklist_warnings(lowercase(n@), n@, es));
        }
        i = i + 1;
    }
    assert(ts.take(tags@.len() as int) =~= ts);
    let ghost wd = strings(d.warnings@);
    let mut all = d.warnings;
    all.append(&mut warnings);
    assert(strings(all@) =~= wd + tag_warnings(ts, es));
    PostDetails {
        character: role_name_exec(&kept, 4, d.character),
        fandom: role_name_exec(&kept, 3, d.fandom),
        artist: role_name_exec(&kept, 1, d.artist),
        raw_rating: d.raw_rating,
        year: d.year,
        warnings: all,
        follow_up: d.follow_up,
    }
}

/// A link of a Yande.re post page: its `href` and its text.
pub struct TagLink {
    pub href: Option<String>,
    pub text: String,
}

/// The view of a list of links.
pub open spec fn links_view(v: Seq<TagLink>) -> Seq<(Option<Seq<char>>, Seq<char>)> {
    v.map_values(|l: TagLink| (opt_view(l.href), l.text@))
}

// The links that `scraper` selects with `li.<class> a` in an HTML document.
pub uninterp spec fn html_tag_links(html: Seq<char>, class: Seq<char>) -> Seq<
    (Option<Seq<char>>, Seq<char>),
>;

/// Parses an HTML document with `scraper::Html::parse_document`, selects the
/// links `li.<class> a` with `scraper::Selector`, and collects the `href` and
/// the text of each; no links when the selector does not parse. The contract
/// claims only that the result is a function of the document and the class,
/// named [`html_tag_links`].
#[verifier::external_body]
pub(crate) fn scrape_tag_links(html: &str, class: &str) -> (r: Vec<TagLink>)
    ensures
        links_view(r@) == html_tag_links(html@, class@),
{
    let doc = scraper::Html::parse_document(html);
    match scraper::Selector::parse(&format!("li.{} a", class)) {
        Ok(s) => doc.select(&s).map(|a| TagLink {
            href: a.value().attr("href").map(String::from),
            text: a.text().collect(),
        }).collect(),
        Err(_) => Vec::new(),
    }
}

/// The texts of the links that point to a tag search, in order.
pub open spec fn tag_link_texts(ls: Seq<(Option<Seq<char>>, Seq<char>)>) -> Seq<Seq<char>>
    decreases ls.len(),
{
    if ls.len() == 0 {
        seq![]
    } else {
        let prev = tag_link_texts(ls.drop_last());
        match ls.last().0 {
            Some(h) => if starts_with(h, "/post?tags="@) {
                prev.push(ls.last().1)
            } else {
                prev
            },
            None => prev,
        }
    }
}

/// The first tag of a category on a Yande.re post page that is not
/// blacklisted, with its warnings, or the default.
pub open spec fn yandere_role(
    html: Seq<char>,
    class: Seq<char>,
    default: Seq<char>,
    entries: Seq<Seq<char>>,
) -> (Seq<char>, Seq<Seq<char>>) {
    pick_tag(tag_link_texts(html_tag_links(html, class)), entries, default)
}

/// The post after reading its Yande.re page.
pub open spec fn with_yandere_page(d: PostView, html: Seq<char>, entries: Seq<Seq<char>>) -> PostView {
    let c = yandere_role(html, "tag-type-character"@, "Original"@, entries);
    let f = yandere_role(html, "tag-type-copyright"@, "Unknown"@, entries);
    let a = yandere_role(html, "tag-type-artist"@, "Unknown"@, entries);
    PostView { character: c.0, fandom: f.0, artist: a.0, warnings: d.warnings + c.1 + f.1 + a.1, ..d }
}

fn yandere_choice(html: &str, class: &str, default: &str, blacklist: &[String]) -> (r: TagChoice)
    ensures
        (r.tag@, strings(r.warnings@)) == yandere_role(html@, class@, default@, strings(blacklist@)),
{
    let links = scrape_tag_links(html, class);
    linked_tag(&links, default, blacklist)
}

/// Of the links that point to a tag search (`/post?tags=...`), picks the
/// first text that is not blacklisted, or `default`.
pub fn linked_tag(links: &Vec<TagLink>, default: &str, blacklist: &[String]) -> (r: TagChoice)
    ensures
        (r.tag@, strings(r.warnings@)) == pick_tag(
            tag_link_texts(links_view(links@)),
            strings(blacklist@),
            default@,
        ),
{
    proof {
        reveal_strlit("/post?tags=");
    }
    let ghost lv = links_view(links@);
    let prefix = to_chars("/post?tags=");
    let mut texts: Vec<String> = Vec::new();
    let mut i: usize = 0;
    while i < links.len()
        invariant
            i <= links@.len(),
            lv == links_view(links@),
            prefix@ == "/post?tags="@,
            strings(texts@) == tag_link_texts(lv.take(i as int)),
        decreases links@.len() - i,
    {
        assert(lv[i as int] == (opt_view(links@[i as int].href), links@[i as int].text@));
        assert(lv.take(i + 1).drop_last() =~= lv.take(i as int));
        if let Some(h) = &links[i].href {
            if starts_with_exec(&to_chars(h.as_str()), &prefix) {
                let ghost before = strings(texts@);
                texts.push(links[i].text.clone());
                assert(strings(texts@) =~= before.push(lv[i as int].1));
            }
        }
        i = i + 1;
    }
    assert(lv.take(links@.len() as int) =~= lv);
    let c = first_allowed_tag(&texts, blacklist, default);
    proof {
        match first_allowed_from(strings(texts@), strings(blacklist@), 0) {
            Some(k) => {},
            None => {
                assert(strings(c.warnings@) =~= Seq::<Seq<char>>::empty());
            },
        }
    }
    c
}

/// Applies a Yande.re post page to a post: the first tag of each category
/// that is not blacklisted names the character, the copyright and the
/// artist; see [`with_yandere_page`].
pub fn apply_yandere_page(d: PostDetails, html: &str, blacklist: &[String]) -> (r: PostDetails)
    ensures
        r@ == with_yandere_page(d@, html@, strings(blacklist@)),
{
    let c = yandere_choice(html, "tag-type-character", "Original", blacklist);
    let f = yandere_choice(html, "tag-type-copyright", "Unknown", blacklist);
    let a = yandere_choice(html, "tag-type-artist", "Unknown", blacklist);
    let ghost wd = strings(d.warnings@);
    let mut warnings = d.warnings;
    let mut cw = c.warnings;
    let mut fw = f.warnings;
    let mut aw = a.warnings;
    warnings.append(&mut cw);
    warnings.append(&mut fw);
    warnings.append(&mut aw);
    let r = PostDetails {
        character: c.tag,
        fandom: f.tag,
        artist: a.tag,
        raw_rating: d.raw_rating,
        year: d.year,
        warnings,
        follow_up: d.follow_up,
    };
    assert(r@.warnings =~= with_yandere_page(d@, html@, strings(blacklist@)).warnings);
    r
}

// ---- the result ---------------------------------------------------------------

/// The post after the answer to its second request: Yande.re's post page or
/// Gelbooru's tag answer; other services make no second request.
pub open spec fn with_follow_up(
    service: Seq<char>,
    d: PostView,
    answer: Seq<char>,
    entries: Seq<Seq<char>>,
) -> PostView {
    if service == "Yande.re"@ {
        with_yandere_page(d, answer, entries)
    } else if service == "Gelbooru"@ {
        with_gelbooru_tags(d, answer, entries)
    } else {
        d
    }
}

/// Applies the answer to a post's second request (see
/// [`PostDetails::follow_up`]); see [`with_follow_up`].
pub fn apply_follow_up(service: &str, d: PostDetails, answer: &str, blacklist: &[String]) -> (r:
    PostDetails)
    ensures
        r@ == with_follow_up(service@, d@, answer@, strings(blacklist@)),
{
    let sv = to_chars(service);
    if is_literal(&sv, "Yande.re") {
        apply_yandere_page(d, answer, blacklist)
    } else if is_literal(&sv, "Gelbooru") {
        apply_gelbooru_tags(d, answer, blacklist)
    } else {
        d
    }
}

/// The rating shown to the user: `SFW` for the ratings `s` and `g`, `NSFW`
/// for `q` and `e`, else `Unknown`.
pub open spec fn rating_label(raw: Seq<char>) -> Seq<char> {
    if raw == "s"@ || raw == "g"@ {
        "SFW"@
    } else if raw == "q"@ || raw == "e"@ {
        "NSFW"@
    } else {
        "Unknown"@
    }
}

/// Executable form of [`rating_label`].
pub fn rating_of(raw: &str) -> (r: String)
    ensures
        r@ == rating_label(raw@),
{
    let v = to_chars(raw);
    if is_literal(&v, "s") || is_literal(&v, "g") {
        owned("SFW")
    } else if is_literal(&v, "q") || is_literal(&v, "e") {
        owned("NSFW")
    } else {
        owned("Unknown")
    }
}

/// The response shown for a post: the tags cleaned for display, the rating
/// as a label, and no file path yet.
pub fn finish_post(d: &PostDetails, service: &str, id: &str, similarity: u8) -> (r: BooruResponse)
    ensures
        r.id@ == id@,
        r.name@ == cleaned_tag(d.character@),
        r.fandom@ == cleaned_tag(d.fandom@),
        r.artist@ == cleaned_tag(d.artist@),
        r.rating@ == rating_label(d.raw_rating@),
        r.year@ == d.year@,
        r.service@ == service@,
        r.similarity == similarity,
        r.file_path@.len() == 0,
{
    BooruResponse {
        id: owned(id),
        name: clean_tag(d.character.as_str()),
        fandom: clean_tag(d.fandom.as_str()),
        artist: clean_tag(d.artist.as_str()),
        rating: rating_of(d.raw_rating.as_str()),
        year: owned(d.year.as_str()),
        service: owned(service),
        similarity,
        file_path: String::new(),
    }
}

// ---- batch downloader -------------------------------------------------------

/// Credentials are looked up for every service but Yande.re, which answers
/// searches without an account.
pub fn needs_credentials(service: &str) -> (b: bool)
    ensures
        b == (service@ != "Yande.re"@),
{
    !is_literal(&to_chars(service), "Yande.re")
}

/// The search tags as a booru query: the comma-separated tags, each trimmed
/// and with spaces as underscores, empty ones dropped, joined by `+`
/// (`blue archive, official art` becomes `blue_archive+official_art`).
pub open spec fn search_query(tags: Seq<char>) -> Seq<char> {
    join(query_terms(pieces(tags, ',')), seq!['+'])
}

/// The query terms of the comma-separated pieces.
pub open spec fn query_terms(ps: Seq<Seq<char>>) -> Seq<Seq<char>>
    decreases ps.len(),
{
    if ps.len() == 0 {
        seq![]
    } else {
        let prev = query_terms(ps.drop_last());
        let t = replace_all(trim(ps.last()), " "@, "_"@);
        if t.len() == 0 {
            prev
        } else {
            prev.push(t)
        }
    }
}

/// Executable form of [`search_query`].
pub fn search_tags(tags: &str) -> (r: String)
    ensures
        r@ == search_query(tags@),
{
    proof {
        reveal_strlit(" ");
    }
    let ps = crate::words::split_on(&to_chars(tags), ',');
    let ghost pv = pieces(tags@, ',');
    let mut terms: Vec<Vec<char>> = Vec::new();
    let mut i: usize = 0;
    while i < ps.len()
        invariant
            i <= ps.len(),
            views(ps@) == pv,
            views(terms@) == query_terms(pv.take(i as int)),
        decreases ps.len() - i,
    {
        assert(views(ps@)[i as int] == ps@[i as int]@);
        assert(pv.take(i + 1).drop_last() =~= pv.take(i as int));
        proof {
            reveal_strlit(" ");
        }
        let t = replace_in(&trim_chars(&ps[i]), " ", "_");
        if t.len() != 0 {
            let ghost before = views(terms@);
            terms.push(t);
            assert(views(terms@) =~= before.push(t@));
        }
        i = i + 1;
    }
    assert(pv.take(ps.len() as int) =~= pv);
    let mut sep: Vec<char> = Vec::new();
    sep.push('+');
    assert(sep@ =~= seq!['+']);
    to_string(&join_words(&terms, &sep))
}

/// The message for a service the downloader does not know.
pub open spec fn unknown_service_message() -> Seq<char> {
    "Unknown service"@
}

/// The URL of one page of search results: Danbooru and Yande.re count pages
/// from 1, Gelbooru from 0 (`page - 1`; page 0 has no Gelbooru page).
pub open spec fn page_url(
    service: Seq<char>,
    query: Seq<char>,
    username: Seq<char>,
    api_key: Seq<char>,
    page: u32,
) -> Option<Seq<char>> {
    if service == "Danbooru"@ {
        Some(
            "https://danbooru.donmai.us/posts.json?tags="@ + query + "&login="@ + username
                + "&api_key="@ + api_key + "&page="@ + crate::numbers::decimal(page as nat),
        )
    } else if service == "Gelbooru"@ {
        let pid: nat = (page - 1) as nat;
        Some(
            "https://gelbooru.com/index.php?page=dapi&s=post&q=index&tags="@ + query
                + "&user_id="@ + username + "&api_key="@ + api_key + "&pid="@
                + crate::numbers::decimal(pid) + "&json=1&limit=42"@,
        )
    } else if service == "Yande.re"@ {
        Some(
            "https://yande.re/post.json?tags="@ + query + "&page="@ + crate::numbers::decimal(
                page as nat,
            ),
        )
    } else {
        None
    }
}

/// Builds the URL of one page of search results; see [`page_url`].
pub fn booru_page_url(service: &str, query: &str, creds: &Credentials, page: u32) -> (r: Result<
    String,
    String,
>)
    requires
        service@ == "Gelbooru"@ ==> page >= 1,
    ensures
        match page_url(service@, query@, creds.username@, creds.api_key@, page) {
            Some(u) => r matches Ok(s) && s@ == u,
            None => r matches Err(e) && e@ == unknown_service_message(),
        },
{
    let sv = to_chars(service);
    if is_literal(&sv, "Danbooru") {
        let mut u = owned("https://danbooru.donmai.us/posts.json?tags=");
        append_str(&mut u, query);
        append_str(&mut u, "&login=");
        append_str(&mut u, creds.username.as_str());
        append_str(&mut u, "&api_key=");
        append_str(&mut u, creds.api_key.as_str());
        append_str(&mut u, "&page=");
        append_chars(&mut u, &crate::numbers::format_u64(page as u64));
        Ok(u)
    } else if is_literal(&sv, "Gelbooru") {
        let pid: u32 = page - 1;
        let mut u = owned("https://gelbooru.com/index.php?page=dapi&s=post&q=index&tags=");
        append_str(&mut u, query);
        append_str(&mut u, "&user_id=");
        append_str(&mut u, creds.username.as_str());
        append_str(&mut u, "&api_key=");
        append_str(&mut u, creds.api_key.as_str());
        append_str(&mut u, "&pid=");
        append_chars(&mut u, &crate::numbers::format_u64(pid as u64));
        append_str(&mut u, "&json=1&limit=42");
        Ok(u)
    } else if is_literal(&sv, "Yande.re") {
        let mut u = owned("https://yande.re/post.json?tags=");
        append_str(&mut u, query);
        append_str(&mut u, "&page=");
        append_chars(&mut u, &crate::numbers::format_u64(page as u64));
        Ok(u)
    } else {
        Err(owned("Unknown service"))
    }
}

/// An image offered by the batch downloader.
#[derive(Debug)]
pub struct DLImage {
    pub id: String,
    pub url: String,
    pub ext: String,
}

/// The view of a list of offered images.
pub open spec fn images_view(v: Seq<DLImage>) -> Seq<(Seq<char>, Seq<char>, Seq<char>)> {
    v.map_values(|d: DLImage| (d.id@, d.url@, d.ext@))
}

/// Where the posts stand in a search answer: under `post` for Gelbooru, the
/// whole answer otherwise.
pub open spec fn posts_base(service: Seq<char>) -> Seq<PathStep> {
    if service == "Gelbooru"@ {
        top("post"@)
    } else {
        seq![]
    }
}

/// The path to a key of the `i`th post.
pub open spec fn post_item(service: Seq<char>, i: int, k: Seq<char>) -> Seq<PathStep> {
    posts_base(service) + seq![PathStep::Index(i as nat), PathStep::Key(k)]
}

/// What one post of a search answer holds: its id, file URL and file
/// extension, where present.
pub struct PostItem {
    pub id: Option<i64>,
    pub file_url: Option<String>,
    pub file_ext: Option<String>,
}

/// The plain view of a [`PostItem`].
pub type ItemView = (Option<i64>, Option<Seq<char>>, Option<Seq<char>>);

/// The views of a list of post items.
pub open spec fn items_view(v: Seq<PostItem>) -> Seq<ItemView> {
    v.map_values(|it: PostItem| (it.id, opt_view(it.file_url), opt_view(it.file_ext)))
}

/// The image a post offers, when it has a file URL: its id (or `0`), the URL,
/// and its file extension, or else the text after the URL's last dot.
pub open spec fn item_offer(it: ItemView) -> Option<(Seq<char>, Seq<char>, Seq<char>)> {
    match it.1 {
        Some(u) => Some(
            (
                match it.0 {
                    Some(n) => signed_decimal(n as int),
                    None => "0"@,
                },
                u,
                match it.2 {
                    Some(e) => e,
                    None => pieces(u, '.').last(),
                },
            ),
        ),
        None => None,
    }
}

/// The images offered by the posts, in order.
pub open spec fn item_offers(items: Seq<ItemView>) -> Seq<(Seq<char>, Seq<char>, Seq<char>)>
    decreases items.len(),
{
    if items.len() == 0 {
        seq![]
    } else {
        let prev = item_offers(items.drop_last());
        match item_offer(items.last()) {
            Some(d) => prev.push(d),
            None => prev,
        }
    }
}

/// The posts of a search answer, when they form an array.
pub open spec fn page_items(text: Seq<char>, service: Seq<char>) -> Option<Seq<ItemView>> {
    match json_len_at(text, posts_base(service)) {
        Some(n) => Some(
            Seq::new(
                n,
                |i: int|
                    (
                        json_int_at(text, post_item(service, i, "id"@)),
                        json_text_at(text, post_item(service, i, "file_url"@)),
                        json_text_at(text, post_item(service, i, "file_ext"@)),
                    ),
            ),
        ),
        None => None,
    }
}

/// The images of one page of search results: every post with a file URL,
/// none when the posts are not an array, and `serde_json`'s error when the
/// answer is not JSON.
pub open spec fn page_images_view(service: Seq<char>, text: Seq<char>) -> Result<
    Seq<(Seq<char>, Seq<char>, Seq<char>)>,
    Seq<char>,
> {
    if let Some(e) = json_parse_error(text) {
        Err(e)
    } else {
        match page_items(text, service) {
            Some(items) => Ok(item_offers(items)),
            None => Ok(seq![]),
        }
    }
}

fn item_path(gelbooru: bool, i: usize, k: &str) -> (p: Vec<JsonStep>)
    ensures
        gelbooru ==> path_view(p@) == top("post"@) + seq![PathStep::Index(i as nat), PathStep::Key(k@)],
        !gelbooru ==> path_view(p@) == seq![PathStep::Index(i as nat), PathStep::Key(k@)],
{
    let mut p: Vec<JsonStep> = Vec::new();
    if gelbooru {
        p.push(key("post"));
    }
    p.push(JsonStep::Index(i));
    p.push(key(k));
    assert(gelbooru ==> path_view(p@) =~= top("post"@) + seq![PathStep::Index(i as nat), PathStep::Key(k@)]);
    assert(!gelbooru ==> path_view(p@) =~= seq![PathStep::Index(i as nat), PathStep::Key(k@)]);
    p
}

/// Reads the posts of a search answer with `serde_json`; see [`page_items`].
pub fn read_page_items(service: &str, text: &str) -> (r: Option<Vec<PostItem>>)
    ensures
        match page_items(text@, service@) {
            Some(v) => r matches Some(items) && items_view(items@) == v,
            None => r is None,
        },
{
    let gelbooru = is_literal(&to_chars(service), "Gelbooru");
    let base = if gelbooru {
        top_path("post")
    } else {
        Vec::new()
    };
    assert(path_view(base@) =~= posts_base(service@));
    let n = match json_array_len(text, &base) {
        Some(n) => n,
        None => {
            return None;
        },
    };
    let ghost want = page_items(text@, service@)->Some_0;
    let mut out: Vec<PostItem> = Vec::new();
    let mut i: usize = 0;
    while i < n
        invariant
            i <= n,
            n == want.len(),
            gelbooru == (service@ == "Gelbooru"@),
            want == page_items(text@, service@)->Some_0,
            json_len_at(text@, posts_base(service@)) == Some(n as nat),
            items_view(out@) == want.take(i as int),
        decreases n - i,
    {
        assert(gelbooru ==> posts_base(service@) == top("post"@));
        assert(!gelbooru ==> posts_base(service@) =~= Seq::<PathStep>::empty());
        assert(!gelbooru ==> Seq::<PathStep>::empty() + seq![PathStep::Index(i as nat), PathStep::Key("file_url"@)] =~= seq![PathStep::Index(i as nat), PathStep::Key("file_url"@)]);
        assert(!gelbooru ==> Seq::<PathStep>::empty() + seq![PathStep::Index(i as nat), PathStep::Key("id"@)] =~= seq![PathStep::Index(i as nat), PathStep::Key("id"@)]);
        assert(!gelbooru ==> Seq::<PathStep>::empty() + seq![PathStep::Index(i as nat), PathStep::Key("file_ext"@)] =~= seq![PathStep::Index(i as nat), PathStep::Key("file_ext"@)]);
        let item = PostItem {
            id: json_i64(text, &item_path(gelbooru, i, "id")),
            file_url: json_str(text, &item_path(gelbooru, i, "file_url")),
            file_ext: json_str(text, &item_path(gelbooru, i, "file_ext")),
        };
        let ghost before = items_view(out@);
        out.push(item);
        assert(items_view(out@) =~= before.push(want[i as int]));
        i = i + 1;
        assert(items_view(out@) =~= want.take(i as int));
    }
    assert(want.take(n as int) =~= want);
    Some(out)
}

/// The images the posts offer; see [`item_offers`].
pub fn images_from_items(items: &Vec<PostItem>) -> (r: Vec<DLImage>)
    ensures
        images_view(r@) == item_offers(items_view(items@)),
{
    let ghost iv = items_view(items@);
    let mut out: Vec<DLImage> = Vec::new();
    let mut i: usize = 0;
    while i < items.len()
        invariant
            i <= items@.len(),
            iv == items_view(items@),
            images_view(out@) == item_offers(iv.take(i as int)),
        decreases items@.len() - i,
    {
        let it = &items[i];
        assert(iv[i as int] == (it.id, opt_view(it.file_url), opt_view(it.file_ext)));
        assert(iv.take(i + 1).drop_last() =~= iv.take(i as int));
        if let Some(u) = &it.file_url {
            let id = match it.id {
                Some(v) => to_string(&format_i64(v)),
                None => owned("0"),
            };
            let ext = match &it.file_ext {
                Some(e) => e.clone(),
                None => {
                    let ps = crate::words::split_on(&to_chars(u.as_str()), '.');
                    proof {
                        crate::words::lemma_pieces_nonempty(u@, '.');
                    }
                    assert(views(ps@).last() == ps@.last()@);
                    to_string(&ps[ps.len() - 1])
                },
            };
            let ghost before = images_view(out@);
            out.push(DLImage { id, url: u.clone(), ext });
            assert(images_view(out@) =~= before.push((id@, u@, ext@)));
        }
        i = i + 1;
    }
    assert(iv.take(items@.len() as int) =~= iv);
    out
}

/// Reads the images of one page of search results; see [`page_images_view`]:
/// the posts (see [`read_page_items`]) offer the images (see
/// [`images_from_items`]).
pub fn page_images(service: &str, text: &str) -> (r: Result<Vec<DLImage>, String>)
    ensures
        match page_images_view(service@, text@) {
            Ok(v) => r matches Ok(imgs) && images_view(imgs@) == v,
            Err(e) => r matches Err(m) && m@ == e,
        },
{
    if let Some(e) = json_check(text) {
        return Err(e);
    }
    match read_page_items(service, text) {
        Some(items) => Ok(images_from_items(&items)),
        None => Ok(Vec::new()),
    }
}

} // verus!
