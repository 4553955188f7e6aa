use saucebottle::distance::levenshtein_distance;
use saucebottle::encode::url_encode;
use saucebottle::files::{
    finalize_path, import_destination, is_valid_image, sanitize_filename, split_file_name,
};
use saucebottle::tags::{clean_tag, first_allowed_tag, parse_blacklist, process_blacklist_rules};

fn owned(v: &[&str]) -> Vec<String> {
    v.iter().map(|s| s.to_string()).collect()
}

#[test]
fn distance_of_classic_pair() {
    assert_eq!(levenshtein_distance("kitten", "sitting"), 3);
}

#[test]
fn distance_to_empty_is_length() {
    assert_eq!(levenshtein_distance("", "abc"), 3);
    assert_eq!(levenshtein_distance("abcd", ""), 4);
}

#[test]
fn distance_to_itself_is_zero() {
    assert_eq!(levenshtein_distance("blue_archive", "blue_archive"), 0);
}

#[test]
fn distance_is_symmetric() {
    assert_eq!(levenshtein_distance("abc", "yabd"), 2);
    assert_eq!(levenshtein_distance("yabd", "abc"), 2);
}

#[test]
fn distance_counts_characters_not_bytes() {
    assert_eq!(levenshtein_distance("é", "e"), 1);
}

#[test]
fn url_encode_keeps_unreserved() {
    assert_eq!(url_encode("Blue_Archive-1.0~"), "Blue_Archive-1.0~");
}

#[test]
fn url_encode_escapes_space_and_symbols() {
    assert_eq!(url_encode("a b"), "a%20b");
    assert_eq!(url_encode("a+b/c"), "a%2Bb%2Fc");
    assert_eq!(url_encode("(x)"), "%28x%29");
}

#[test]
fn url_encode_escapes_each_utf8_byte() {
    assert_eq!(url_encode("é"), "%C3%A9");
}

#[test]
fn clean_tag_title_cases_words() {
    assert_eq!(clean_tag("blue_archive"), "Blue Archive");
}

#[test]
fn clean_tag_drops_context_suffix() {
    assert_eq!(clean_tag("hatsune_miku_(cosplay)"), "Hatsune Miku");
}

#[test]
fn clean_tag_unknown_and_empty() {
    assert_eq!(clean_tag(""), "Unknown");
    assert_eq!(clean_tag("Unknown"), "Unknown");
}

#[test]
fn clean_tag_only_suffix_gives_empty() {
    assert_eq!(clean_tag("(abc)"), "");
}

#[test]
fn clean_tag_collapses_repeated_separators() {
    assert_eq!(clean_tag("a__b"), "A B");
}

#[test]
fn clean_tag_uppercase_can_grow() {
    assert_eq!(clean_tag("ßa"), "SSa");
}

#[test]
fn blacklist_exact_entry_is_ignored_without_warnings() {
    let v = process_blacklist_rules("Miku", &owned(&["miku"]));
    assert!(v.ignored);
    assert!(v.warnings.is_empty());
}

#[test]
fn blacklist_partial_match_warns() {
    let v = process_blacklist_rules("miku_(cosplay)", &owned(&["miku"]));
    assert!(!v.ignored);
    assert_eq!(
        v.warnings,
        vec!["Your blacklisted tag 'miku' partially matched 'miku_(cosplay)'. Did you mean to blacklist the latter?".to_string()]
    );
}

#[test]
fn blacklist_typo_warns() {
    let v = process_blacklist_rules("mikku", &owned(&["miku"]));
    assert!(!v.ignored);
    assert_eq!(
        v.warnings,
        vec!["Your blacklisted tag 'miku' is very similar to the found image tag 'mikku'. Did you mean to blacklist the latter?".to_string()]
    );
}

#[test]
fn blacklist_distant_tag_is_quiet() {
    let v = process_blacklist_rules("kagamine_rin", &owned(&["hatsune_miku"]));
    assert!(!v.ignored);
    assert!(v.warnings.is_empty());
}

#[test]
fn blacklist_setting_is_split_trimmed_and_lowered() {
    assert_eq!(parse_blacklist(" Miku , ,Rin"), owned(&["miku", "rin"]));
    assert!(parse_blacklist("").is_empty());
}

#[test]
fn first_allowed_tag_skips_blacklisted() {
    let c = first_allowed_tag(&owned(&["a", "b"]), &owned(&["a"]), "Original");
    assert_eq!(c.tag, "b");
}

#[test]
fn first_allowed_tag_defaults_when_all_blacklisted() {
    let c = first_allowed_tag(&owned(&["a", "B"]), &owned(&["a", "b"]), "Original");
    assert_eq!(c.tag, "Original");
    assert!(c.warnings.is_empty());
}

#[test]
fn sanitize_removes_illegal_characters() {
    assert_eq!(sanitize_filename("a/b:c  d "), "abc d");
    assert_eq!(sanitize_filename("  x?  "), "x");
    assert_eq!(sanitize_filename("Re:Zero <\"Rem\">"), "ReZero Rem");
}

#[test]
fn valid_image_by_extension() {
    assert!(is_valid_image("photo.JPG"));
    assert!(is_valid_image("a.tar.png"));
    assert!(!is_valid_image("a.txt"));
    assert!(!is_valid_image("noext"));
    assert!(!is_valid_image(".png"));
    for n in ["art.jfif", "art.ico", "art.TGA", "art.avif", "art.heic", "art.heif"] {
        assert!(is_valid_image(n));
    }
}

#[test]
fn split_name_uses_last_dot() {
    let p = split_file_name("archive.tar.gz");
    assert_eq!(p.stem, "archive.tar");
    assert_eq!(p.extension, Some("gz".to_string()));
    let q = split_file_name(".hidden");
    assert_eq!(q.stem, ".hidden");
    assert_eq!(q.extension, None);
}

#[test]
fn finalize_path_skips_taken_names() {
    assert_eq!(finalize_path(&owned(&[]), "a", "png"), "a.png");
    assert_eq!(finalize_path(&owned(&["a.png", "a_copy1.png"]), "a", "png"), "a_copy2.png");
    assert_eq!(finalize_path(&owned(&["a"]), "a", ""), "a_copy1");
}

#[test]
fn import_destination_numbers_imports() {
    assert_eq!(import_destination(&owned(&[]), "x.png"), "x.png");
    assert_eq!(import_destination(&owned(&["x.png"]), "x.png"), "x_import1.png");
    assert_eq!(import_destination(&owned(&["x"]), "x"), "x_import1.");
}

#[test]
fn distance_triangle_on_examples() {
    let words = ["kitten", "sitting", "sittin", "", "mitten", "kitchen"];
    for a in words {
        for b in words {
            for c in words {
                assert!(levenshtein_distance(a, c) <= levenshtein_distance(a, b) + levenshtein_distance(b, c));
            }
        }
    }
}

#[test]
fn url_encode_concatenates() {
    assert_eq!(url_encode("a bé"), format!("{}{}", url_encode("a b"), url_encode("é")));
}

#[test]
fn cleaned_tags_are_stable() {
    for t in ["blue_archive", "hatsune_miku_(cosplay)", "a__b", "  x_y  ", "unknown", "Already Clean", "(abc)"] {
        let r = clean_tag(t);
        assert!(!r.contains('_') && !r.contains('('));
        assert_eq!(r.trim(), r);
        assert!(!r.contains("  "));
        if !r.is_empty() {
            assert_eq!(clean_tag(&r), r);
        }
    }
}
