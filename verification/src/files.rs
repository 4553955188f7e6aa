//! File names: making names safe, splitting them, and choosing names that
//! do not collide with files already present.

use vstd::prelude::*;
use crate::numbers::{decimal, format_u64, lemma_decimal_value};
use crate::search::{replace_all, replace_exec};
use crate::tags::strings;
use crate::text::{
    ascii_lowercase, extend, is_ascii_text, is_space, lowercase, owned, same_chars, slice, to_chars, to_lowercase, to_string, trim,
    trim_chars, trim_end, trim_start,
};

verus! {

// ---- safe names -------------------------------------------------------------

/// Characters that may not stand in a file or folder name.
pub open spec fn is_illegal(c: char) -> bool {
    c == '/' || c == '\\' || c == '?' || c == '%' || c == '*' || c == ':' || c == '|' || c == '"'
        || c == '<' || c == '>'
}

/// `s` without its illegal characters.
pub open spec fn without_illegal(s: Seq<char>) -> Seq<char>
    decreases s.len(),
{
    if s.len() == 0 {
        s
    } else {
        let prev = without_illegal(s.drop_last());
        if is_illegal(s.last()) {
            prev
        } else {
            prev.push(s.last())
        }
    }
}

proof fn lemma_without_illegal(s: Seq<char>)
    ensures
        forall|i: int| 0 <= i < without_illegal(s).len() ==> !is_illegal(
            #[trigger] without_illegal(s)[i],
        ),
    decreases s.len(),
{
    if s.len() > 0 {
        lemma_without_illegal(s.drop_last());
        let prev = without_illegal(s.drop_last());
        assert forall|i: int| 0 <= i < without_illegal(s).len() implies !is_illegal(
            #[trigger] without_illegal(s)[i],
        ) by {
            if i < prev.len() {
                assert(without_illegal(s)[i] == prev[i]);
            }
        }
    }
}

/// A name made safe for the file system: illegal characters removed, each
/// pair of spaces (found from the left) made one, surrounding whitespace
/// trimmed.
pub open spec fn sanitized(s: Seq<char>) -> Seq<char> {
    trim(replace_all(without_illegal(s), "  "@, " "@))
}

proof fn lemma_replace_keeps_legal(s: Seq<char>, p: Seq<char>, r: Seq<char>)
    requires
        forall|i: int| 0 <= i < s.len() ==> !is_illegal(#[trigger] s[i]),
        forall|i: int| 0 <= i < r.len() ==> !is_illegal(#[trigger] r[i]),
    ensures
        forall|i: int|
            0 <= i < replace_all(s, p, r).len() ==> !is_illegal(#[trigger] replace_all(s, p, r)[i]),
    decreases s.len(),
{
    if p.len() == 0 || s.len() < p.len() {
    } else if s.take(p.len() as int) == p {
        lemma_replace_keeps_legal(s.skip(p.len() as int), p, r);
        let rest = replace_all(s.skip(p.len() as int), p, r);
        assert forall|i: int| 0 <= i < (r + rest).len() implies !is_illegal(#[trigger] (r + rest)[i]) by {
            if i >= r.len() {
                assert((r + rest)[i] == rest[i - r.len()]);
            }
        }
    } else {
        lemma_replace_keeps_legal(s.skip(1), p, r);
        let rest = replace_all(s.skip(1), p, r);
        assert forall|i: int| 0 <= i < (seq![s[0]] + rest).len() implies !is_illegal(
            #[trigger] (seq![s[0]] + rest)[i],
        ) by {
            if i >= 1 {
                assert((seq![s[0]] + rest)[i] == rest[i - 1]);
            }
        }
    }
}

proof fn lemma_trim_is_slice(s: Seq<char>)
    ensures
        exists|a: int, b: int| 0 <= a <= b <= s.len() && trim(s) == s.subrange(a, b),
        trim(s).len() > 0 ==> !is_space(trim(s)[0]) && !is_space(trim(s).last()),
    decreases s.len(),
{
    lemma_trim_start_slice(s);
    let t = trim_start(s);
    let a = s.len() - t.len();
    lemma_trim_end_slice(t);
    let b = trim_end(t).len() as int;
    assert(trim(s) == s.subrange(a, a + b)) by {
        assert(t == s.subrange(a, s.len() as int));
        assert(trim_end(t) == t.subrange(0, b));
        assert(t.subrange(0, b) =~= s.subrange(a, a + b));
    }
    if trim(s).len() > 0 {
        assert(trim(s)[0] == t[0]);
    }
}

proof fn lemma_trim_start_slice(s: Seq<char>)
    ensures
        trim_start(s).len() <= s.len(),
        trim_start(s) == s.subrange(s.len() - trim_start(s).len(), s.len() as int),
        trim_start(s).len() > 0 ==> !is_space(trim_start(s)[0]),
    decreases s.len(),
{
    if s.len() > 0 && is_space(s[0]) {
        lemma_trim_start_slice(s.drop_first());
        let t = trim_start(s.drop_first());
        assert(s.drop_first().subrange(s.drop_first().len() - t.len(), s.drop_first().len() as int)
            =~= s.subrange(s.len() - t.len(), s.len() as int));
    } else {
        assert(s.subrange(0, s.len() as int) =~= s);
    }
}

proof fn lemma_trim_end_slice(s: Seq<char>)
    ensures
        trim_end(s).len() <= s.len(),
        trim_end(s) == s.subrange(0, trim_end(s).len() as int),
        trim_end(s).len() > 0 ==> !is_space(trim_end(s).last()),
    decreases s.len(),
{
    if s.len() > 0 && is_space(s.last()) {
        lemma_trim_end_slice(s.drop_last());
        let t = trim_end(s.drop_last());
        assert(s.drop_last().subrange(0, t.len() as int) =~= s.subrange(0, t.len() as int));
    } else {
        assert(s.subrange(0, s.len() as int) =~= s);
    }
}

/// A sanitized name holds no illegal character and does not begin or end
/// with whitespace.
pub proof fn lemma_sanitized_is_safe(s: Seq<char>)
    ensures
        forall|i: int| 0 <= i < sanitized(s).len() ==> !is_illegal(#[trigger] sanitized(s)[i]),
        sanitized(s).len() > 0 ==> !is_space(sanitized(s)[0]) && !is_space(sanitized(s).last()),
{
    let w = without_illegal(s);
    lemma_without_illegal(s);
    reveal_strlit(" ");
    reveal_strlit("  ");
    lemma_replace_keeps_legal(w, "  "@, " "@);
    let r = replace_all(w, "  "@, " "@);
    lemma_trim_is_slice(r);
    let (a, b) = choose|a: int, b: int| 0 <= a <= b <= r.len() && trim(r) == r.subrange(a, b);
    assert forall|i: int| 0 <= i < sanitized(s).len() implies !is_illegal(
        #[trigger] sanitized(s)[i],
    ) by {
        assert(sanitized(s)[i] == r[a + i]);
    }
}

proof fn lemma_without_illegal_keeps(s: Seq<char>)
    requires
        forall|k: int| 0 <= k < s.len() ==> !is_illegal(#[trigger] s[k]),
    ensures
        without_illegal(s) == s,
    decreases s.len(),
{
    if s.len() > 0 {
        let d = s.drop_last();
        assert forall|k: int| 0 <= k < d.len() implies !is_illegal(#[trigger] d[k]) by {
            assert(d[k] == s[k]);
        }
        lemma_without_illegal_keeps(d);
        assert(s.last() == s[s.len() - 1]);
        assert(d.push(s.last()) =~= s);
    }
}

proof fn lemma_no_double_space_kept(s: Seq<char>)
    requires
        forall|k: int| 0 <= k < s.len() - 1 ==> !(#[trigger] s[k] == ' ' && s[k + 1] == ' '),
    ensures
        replace_all(s, "  "@, " "@) == s,
    decreases s.len(),
{
    reveal_strlit("  ");
    let p = "  "@;
    if s.len() >= 2 {
        let t = s.skip(1);
        assert forall|k: int| 0 <= k < t.len() - 1 implies !(#[trigger] t[k] == ' ' && t[k + 1] == ' ') by {
            assert(t[k] == s[k + 1] && t[k + 1] == s[k + 2]);
        }
        lemma_no_double_space_kept(t);
        assert(s.take(2)[0] == s[0] && s.take(2)[1] == s[1]);
        assert(s.take(2) != p);
        assert(seq![s[0]] + t =~= s);
    }
}

/// A name that holds no illegal character, no two spaces in a row, and no
/// whitespace at either end is already safe: sanitizing keeps it as it is.
pub proof fn lemma_sanitized_keeps_safe(s: Seq<char>)
    requires
        forall|k: int| 0 <= k < s.len() ==> !is_illegal(#[trigger] s[k]),
        forall|k: int| 0 <= k < s.len() - 1 ==> !(#[trigger] s[k] == ' ' && s[k + 1] == ' '),
        s.len() > 0 ==> !is_space(s[0]) && !is_space(s.last()),
    ensures
        sanitized(s) == s,
{
    lemma_without_illegal_keeps(s);
    lemma_no_double_space_kept(s);
    assert(trim_start(s) == s);
    assert(trim_end(s) == s);
}

fn without_illegal_exec(v: &Vec<char>) -> (r: Vec<char>)
    ensures
        r@ == without_illegal(v@),
{
    let mut r: Vec<char> = Vec::new();
    let mut i: usize = 0;
    while i < v.len()
        invariant
            i <= v.len(),
            r@ == without_illegal(v@.take(i as int)),
        decreases v.len() - i,
    {
        let c = v[i];
        assert(v@.take(i + 1).drop_last() =~= v@.take(i as int));
        assert(v@.take(i + 1).last() == c);
        if !(c == '/' || c == '\\' || c == '?' || c == '%' || c == '*' || c == ':' || c == '|' || c
            == '"' || c == '<' || c == '>') {
            r.push(c);
        }
        i = i + 1;
    }
    assert(v@.take(v.len() as int) =~= v@);
    r
}

/// Strips the characters `/\?%*:|"<>` from a name so that it can be used as
/// a folder or file name, makes double spaces single and trims it.
pub fn sanitize_filename(name: &str) -> (r: String)
    ensures
        r@ == sanitized(name@),
{
    proof {
        reveal_strlit(" ");
        reveal_strlit("  ");
    }
    let cleaned = without_illegal_exec(&to_chars(name));
    let spaced = replace_exec(&cleaned, &to_chars("  "), &to_chars(" "));
    to_string(&trim_chars(&spaced))
}

// ---- splitting file names -----------------------------------------------------

/// Position of the last `c` in `s`.
pub open spec fn last_index_of(s: Seq<char>, c: char) -> Option<int>
    decreases s.len(),
{
    if s.len() == 0 {
        None
    } else if s.last() == c {
        Some(s.len() - 1)
    } else {
        last_index_of(s.drop_last(), c)
    }
}

/// The stem of a file name, as `Path::file_stem` gives it: the part before
/// the last `.`, or the whole name when it has no `.` but a leading one.
pub open spec fn name_stem(name: Seq<char>) -> Seq<char> {
    if name == ".."@ {
        name
    } else {
        match last_index_of(name, '.') {
            Some(i) => if i > 0 {
                name.take(i)
            } else {
                name
            },
            None => name,
        }
    }
}

/// The extension of a file name, as `Path::extension` gives it: the part
/// after the last `.`, when that `.` is not the first character.
pub open spec fn name_extension(name: Seq<char>) -> Option<Seq<char>> {
    if name == ".."@ {
        None
    } else {
        match last_index_of(name, '.') {
            Some(i) => if i > 0 {
                Some(name.skip(i + 1))
            } else {
                None
            },
            None => None,
        }
    }
}

proof fn lemma_last_index(s: Seq<char>, c: char, j: int)
    requires
        -1 <= j < s.len(),
        forall|k: int| j < k < s.len() ==> #[trigger] s[k] != c,
        j >= 0 ==> s[j] == c,
    ensures
        last_index_of(s, c) == (if j >= 0 {
            Some(j)
        } else {
            None::<int>
        }),
    decreases s.len(),
{
    if s.len() > 0 && j < s.len() - 1 {
        lemma_last_index(s.drop_last(), c, j);
    }
}

/// A file name split into stem and extension.
pub struct NameParts {
    pub stem: String,
    pub extension: Option<String>,
}

/// Splits a file name into its stem and extension; see [`name_stem`] and
/// [`name_extension`].
pub fn split_file_name(name: &str) -> (r: NameParts)
    ensures
        r.stem@ == name_stem(name@),
        crate::models::opt_view(r.extension) == name_extension(name@),
{
    let v = to_chars(name);
    if same_chars(&v, &to_chars("..")) {
        return NameParts { stem: owned(name), extension: None };
    }
    let mut j: usize = v.len();
    while j > 0 && v[j - 1] != '.'
        invariant
            j <= v.len(),
            forall|k: int| j <= k < v.len() ==> #[trigger] v@[k] != '.',
        decreases j,
    {
        j = j - 1;
    }
    proof {
        lemma_last_index(v@, '.', j - 1);
    }
    if j > 1 {
        NameParts { stem: to_string(&slice(&v, 0, j - 1)), extension: Some(to_string(&slice(&v, j, v.len()))) }
    } else {
        NameParts { stem: owned(name), extension: None }
    }
}

// ---- image extensions -------------------------------------------------------

/// The extensions, in lower case, of the image files the sorter accepts.
pub open spec fn is_image_extension(e: Seq<char>) -> bool {
    e == "jpg"@ || e == "jpeg"@ || e == "png"@ || e == "gif"@ || e == "webp"@ || e == "bmp"@
        || e == "tiff"@ || e == "jfif"@ || e == "ico"@ || e == "tga"@ || e == "avif"@ || e
        == "heic"@ || e == "heif"@
}

/// A file name the sorter takes for an image: its extension, in lower case
/// (`str::to_lowercase`), is an image extension.
pub open spec fn is_image_name(file_name: Seq<char>) -> bool {
    match name_extension(file_name) {
        Some(e) => is_image_extension(lowercase(e)),
        None => false,
    }
}

proof fn lemma_extension_ascii(name: Seq<char>)
    ensures
        is_ascii_text(name) ==> (name_extension(name) matches Some(e) ==> is_ascii_text(e)),
{
    lemma_last_index_bounds(name, '.');
    if is_ascii_text(name) {
        if let Some(i) = last_index_of(name, '.') {
            let e = name.skip(i + 1);
            assert forall|k: int| 0 <= k < e.len() implies (#[trigger] e[k] as u32) < 128 by {
                assert(e[k] == name[i + 1 + k]);
            }
        }
    }
}

fn one_of(v: &Vec<char>, options: &[&str]) -> (b: bool)
    ensures
        b == exists|i: int| 0 <= i < options@.len() && v@ == options@[i]@,
{
    let mut i: usize = 0;
    while i < options.len()
        invariant
            i <= options@.len(),
            forall|k: int| 0 <= k < i ==> v@ != options@[k]@,
        decreases options@.len() - i,
    {
        if same_chars(v, &to_chars(options[i])) {
            return true;
        }
        i = i + 1;
    }
    false
}

/// A file is taken for an image when its extension, in lower case
/// (`str::to_lowercase`), is one of `jpg`, `jpeg`, `png`, `gif`, `webp`,
/// `bmp`, `tiff`, `jfif`, `ico`, `tga`, `avif`, `heic`, `heif`. The name is
/// the file name only, not a whole path.
pub fn is_valid_image(file_name: &str) -> (b: bool)
    ensures
        b == is_image_name(file_name@),
        is_ascii_text(file_name@) ==> b == match name_extension(file_name@) {
            Some(e) => is_image_extension(ascii_lowercase(e)),
            None => false,
        },
{
    let parts = split_file_name(file_name);
    proof {
        lemma_extension_ascii(file_name@);
    }
    match parts.extension {
        Some(e) => {
            let l = crate::text::lowercase_chars(e.as_str());
            let options = [
                "jpg",
                "jpeg",
                "png",
                "gif",
                "webp",
                "bmp",
                "tiff",
                "jfif",
                "ico",
                "tga",
                "avif",
                "heic",
                "heif",
            ];
            let b = one_of(&l, &options);
            proof {
                assert(options@ =~= seq![
                    "jpg",
                    "jpeg",
                    "png",
                    "gif",
                    "webp",
                    "bmp",
                    "tiff",
                    "jfif",
                    "ico",
                    "tga",
                    "avif",
                    "heic",
                    "heif",
                ]);
                if is_image_extension(l@) {
                    if l@ == "jpg"@ { assert(v_at(options@, 0) == "jpg"@); }
                    if l@ == "jpeg"@ { assert(v_at(options@, 1) == "jpeg"@); }
                    if l@ == "png"@ { assert(v_at(options@, 2) == "png"@); }
                    if l@ == "gif"@ { assert(v_at(options@, 3) == "gif"@); }
                    if l@ == "webp"@ { assert(v_at(options@, 4) == "webp"@); }
                    if l@ == "bmp"@ { assert(v_at(options@, 5) == "bmp"@); }
                    if l@ == "tiff"@ { assert(v_at(options@, 6) == "tiff"@); }
                    if l@ == "jfif"@ { assert(v_at(options@, 7) == "jfif"@); }
                    if l@ == "ico"@ { assert(v_at(options@, 8) == "ico"@); }
                    if l@ == "tga"@ { assert(v_at(options@, 9) == "tga"@); }
                    if l@ == "avif"@ { assert(v_at(options@, 10) == "avif"@); }
                    if l@ == "heic"@ { assert(v_at(options@, 11) == "heic"@); }
                    if l@ == "heif"@ { assert(v_at(options@, 12) == "heif"@); }
                }
            }
            b
        },
        None => false,
    }
}

spec fn v_at(s: Seq<&str>, i: int) -> Seq<char> {
    s[i]@
}

// ---- names that do not collide ---------------------------------------------

/// `.ext`, or nothing for an empty extension, as `PathBuf::add_extension` adds it.
pub open spec fn ext_suffix(ext: Seq<char>) -> Seq<char> {
    if ext.len() == 0 {
        seq![]
    } else {
        seq!['.'] + ext
    }
}

/// The `k`th name tried for a file: `stem.ext` first, then `stem_copy1.ext`,
/// `stem_copy2.ext`, and so on.
pub open spec fn copy_name(stem: Seq<char>, ext: Seq<char>, k: nat) -> Seq<char> {
    if k == 0 {
        stem + ext_suffix(ext)
    } else {
        stem + "_copy"@ + decimal(k) + ext_suffix(ext)
    }
}

/// Names made of a common prefix, a number and a common suffix differ when
/// the numbers differ.
pub proof fn lemma_numbered_names_differ(p: Seq<char>, s: Seq<char>, j: nat, k: nat)
    requires
        j != k,
    ensures
        p + decimal(j) + s != p + decimal(k) + s,
{
    let a = p + decimal(j) + s;
    let b = p + decimal(k) + s;
    if a == b {
        assert(a.len() == p.len() + decimal(j).len() + s.len());
        assert(b.len() == p.len() + decimal(k).len() + s.len());
        assert(decimal(j).len() == decimal(k).len());
        let lo = p.len() as int;
        let hi = lo + decimal(j).len();
        assert(a.subrange(lo, hi) =~= decimal(j));
        assert(b.subrange(lo, hi) =~= decimal(k));
        crate::numbers::lemma_decimal_injective(j, k);
    }
}

/// The `k`th name tried for a file dropped into the input folder: its own
/// name first, then `stem_import1.ext`, `stem_import2.ext`, and so on (the
/// dot stands even when the name has no extension).
pub open spec fn import_name(name: Seq<char>, k: nat) -> Seq<char> {
    if k == 0 {
        name
    } else {
        name_stem(name) + "_import"@ + decimal(k) + seq!['.'] + match name_extension(name) {
            Some(e) => e,
            None => seq![],
        }
    }
}

/// A naming scheme for files that must not collide.
pub enum NameScheme {
    /// [`copy_name`] of a stem and an extension.
    Copy { stem: String, ext: String },
    /// [`import_name`] of a file name.
    Import { name: String },
}

/// The `k`th name of a scheme.
pub open spec fn scheme_name(scheme: NameScheme, k: nat) -> Seq<char> {
    match scheme {
        NameScheme::Copy { stem, ext } => copy_name(stem@, ext@, k),
        NameScheme::Import { name } => import_name(name@, k),
    }
}

proof fn lemma_name_parts_len(name: Seq<char>)
    ensures
        name.len() <= name_stem(name).len() + 1 + match name_extension(name) {
            Some(e) => e.len(),
            None => 0,
        },
{
    match last_index_of(name, '.') {
        Some(i) => {
            lemma_last_index_bounds(name, '.');
        },
        None => {},
    }
}

proof fn lemma_last_index_bounds(s: Seq<char>, c: char)
    ensures
        last_index_of(s, c) matches Some(i) ==> 0 <= i < s.len(),
    decreases s.len(),
{
    if s.len() > 0 {
        lemma_last_index_bounds(s.drop_last(), c);
    }
}

proof fn lemma_scheme_names_differ(scheme: NameScheme, j: nat, k: nat)
    requires
        j < k,
    ensures
        scheme_name(scheme, j) != scheme_name(scheme, k),
{
    reveal_strlit("_copy");
    reveal_strlit("_import");
    lemma_decimal_value(k);
    match scheme {
        NameScheme::Copy { stem, ext } => {
            if j == 0 {
                assert(copy_name(stem@, ext@, j).len() < copy_name(stem@, ext@, k).len());
            } else {
                lemma_numbered_names_differ(stem@ + "_copy"@, ext_suffix(ext@), j, k);
                assert(copy_name(stem@, ext@, j) =~= (stem@ + "_copy"@) + decimal(j) + ext_suffix(
                    ext@,
                ));
                assert(copy_name(stem@, ext@, k) =~= (stem@ + "_copy"@) + decimal(k) + ext_suffix(
                    ext@,
                ));
            }
        },
        NameScheme::Import { name } => {
            let n = name@;
            let tail = seq!['.'] + match name_extension(n) {
                Some(e) => e,
                None => seq![],
            };
            if j == 0 {
                lemma_name_parts_len(n);
                assert(import_name(n, j).len() < import_name(n, k).len());
            } else {
                lemma_numbered_names_differ(name_stem(n) + "_import"@, tail, j, k);
                assert(import_name(n, j) =~= (name_stem(n) + "_import"@) + decimal(j) + tail);
                assert(import_name(n, k) =~= (name_stem(n) + "_import"@) + decimal(k) + tail);
            }
        },
    }
}

fn scheme_name_exec(scheme: &NameScheme, k: u64) -> (r: String)
    ensures
        r@ == scheme_name(*scheme, k as nat),
{
    match scheme {
        NameScheme::Copy { stem, ext } => {
            let mut v = to_chars(stem.as_str());
            if k > 0 {
                extend(&mut v, &to_chars("_copy"));
                extend(&mut v, &format_u64(k));
            }
            if !ext.as_str().is_empty() {
                v.push('.');
                extend(&mut v, &to_chars(ext.as_str()));
            }
            let r = to_string(&v);
            assert(r@ =~= copy_name(stem@, ext@, k as nat));
            r
        },
        NameScheme::Import { name } => {
            if k == 0 {
                return owned(name.as_str());
            }
            let parts = split_file_name(name.as_str());
            let mut v = to_chars(parts.stem.as_str());
            extend(&mut v, &to_chars("_import"));
            extend(&mut v, &format_u64(k));
            v.push('.');
            if let Some(e) = &parts.extension {
                extend(&mut v, &to_chars(e.as_str()));
            }
            let r = to_string(&v);
            assert(r@ =~= import_name(name@, k as nat));
            r
        },
    }
}

fn contains_name(v: &Vec<String>, s: &String) -> (b: bool)
    ensures
        b == strings(v@).contains(s@),
{
    let mut i: usize = 0;
    while i < v.len()
        invariant
            i <= v@.len(),
            forall|k: int| 0 <= k < i ==> strings(v@)[k] != s@,
        decreases v@.len() - i,
    {
        if v[i] == *s {
            assert(strings(v@)[i as int] == s@);
            return true;
        }
        i = i + 1;
    }
    false
}

/// The first name of the scheme that is not among `existing`.
fn first_free_name(existing: &Vec<String>, scheme: &NameScheme) -> (r: String)
    ensures
        !strings(existing@).contains(r@),
        exists|k: nat|
            r@ == #[trigger] scheme_name(*scheme, k) && forall|j: nat|
                j < k ==> strings(existing@).contains(scheme_name(*scheme, j)),
{
    let ghost names = strings(existing@);
    let n = existing.len();
    let mut counter: u64 = 0;
    let mut candidate = scheme_name_exec(scheme, 0);
    let ghost mut tried: Set<Seq<char>> = Set::empty();
    proof {
        vstd::seq_lib::seq_to_set_is_finite(names);
        names.lemma_cardinality_of_set();
    }
    while contains_name(existing, &candidate)
        invariant
            names == strings(existing@),
            names.len() == n,
            candidate@ == scheme_name(*scheme, counter as nat),
            tried.finite(),
            tried.len() == counter,
            tried.subset_of(names.to_set()),
            names.to_set().finite(),
            names.to_set().len() <= names.len(),
            forall|j: nat| j < counter ==> #[trigger] tried.contains(scheme_name(*scheme, j)),
            forall|x: Seq<char>|
                #[trigger] tried.contains(x) ==> exists|j: nat|
                    j < counter && x == #[trigger] scheme_name(*scheme, j),
        decreases names.len() - counter,
    {
        proof {
            if tried.contains(candidate@) {
                let j = choose|j: nat| j < counter && candidate@ == #[trigger] scheme_name(*scheme, j);
                lemma_scheme_names_differ(*scheme, j, counter as nat);
            }
            assert(names.to_set().contains(candidate@));
            let old_tried = tried;
            tried = tried.insert(candidate@);
            assert(tried.len() == counter + 1);
            vstd::set_lib::lemma_len_subset(tried, names.to_set());
            assert forall|x: Seq<char>| #[trigger] tried.contains(x) implies exists|j: nat|
                j < counter + 1 && x == #[trigger] scheme_name(*scheme, j) by {
                if x != candidate@ {
                    assert(old_tried.contains(x));
                }
            }
        }
        counter = counter + 1;
        candidate = scheme_name_exec(scheme, counter);
    }
    proof {
        assert forall|j: nat| j < counter implies names.contains(scheme_name(*scheme, j)) by {
            assert(tried.contains(scheme_name(*scheme, j)));
            assert(names.to_set().contains(scheme_name(*scheme, j)));
        }
    }
    candidate
}

/// Chooses the name under which a file is stored in a folder that already
/// holds the files `existing`: the first of `stem.ext`, `stem_copy1.ext`,
/// `stem_copy2.ext`, ... that is not taken. The name never collides.
pub fn finalize_path(existing: &Vec<String>, file_stem: &str, extension: &str) -> (r: String)
    ensures
        !strings(existing@).contains(r@),
        exists|k: nat|
            r@ == #[trigger] copy_name(file_stem@, extension@, k) && forall|j: nat|
                j < k ==> strings(existing@).contains(copy_name(file_stem@, extension@, j)),
{
    let scheme = NameScheme::Copy { stem: owned(file_stem), ext: owned(extension) };
    let r = first_free_name(existing, &scheme);
    proof {
        let k = choose|k: nat|
            r@ == #[trigger] scheme_name(scheme, k) && forall|j: nat|
                j < k ==> strings(existing@).contains(scheme_name(scheme, j));
        assert(r@ == copy_name(file_stem@, extension@, k));
        assert forall|j: nat| j < k implies strings(existing@).contains(
            copy_name(file_stem@, extension@, j),
        ) by {
            assert(scheme_name(scheme, j) == copy_name(file_stem@, extension@, j));
        }
    }
    r
}

/// Chooses the name under which a dropped file is placed in the input
/// folder, which already holds the files `existing`: its own name, else the
/// first of `stem_import1.ext`, `stem_import2.ext`, ... that is not taken.
pub fn import_destination(existing: &Vec<String>, file_name: &str) -> (r: String)
    ensures
        !strings(existing@).contains(r@),
        exists|k: nat|
            r@ == #[trigger] import_name(file_name@, k) && forall|j: nat|
                j < k ==> strings(existing@).contains(import_name(file_name@, j)),
{
    let scheme = NameScheme::Import { name: owned(file_name) };
    let r = first_free_name(existing, &scheme);
    proof {
        let k = choose|k: nat|
            r@ == #[trigger] scheme_name(scheme, k) && forall|j: nat|
                j < k ==> strings(existing@).contains(scheme_name(scheme, j));
        assert(r@ == import_name(file_name@, k));
        assert forall|j: nat| j < k implies strings(existing@).contains(
            import_name(file_name@, j),
        ) by {
            assert(scheme_name(scheme, j) == import_name(file_name@, j));
        }
    }
    r
}

} // verus!
