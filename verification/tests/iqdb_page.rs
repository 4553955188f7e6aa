use saucebottle::iqdb::{
    best_candidate, best_match, extract_service_and_id, link_matches, parse_iqdb_html,
    similarity_from, HtmlTable, MatchCandidate,
};

fn owned(v: &[&str]) -> Vec<String> {
    v.iter().map(|s| s.to_string()).collect()
}

const PAGE: &str = r#"<html><body>
<table><tr><th>Your image</th></tr><tr><td>upload.jpg 100%</td></tr></table>
<table><tr><th>Best match</th></tr><tr><td><a href="//danbooru.donmai.us/posts/111?q=x"><img src="t.jpg"></a></td></tr><tr><td>95% similarity</td></tr></table>
<table><tr><th>Additional match</th></tr><tr><td><a href="https://yande.re/post/show/222">x</a></td></tr><tr><td>97% similarity</td></tr></table>
<table><tr><th>Possible match</th></tr><tr><td><a href="https://gelbooru.com/index.php?page=post&amp;s=view&amp;id=333">x</a></td></tr><tr><td>99% similarity</td></tr></table>
</body></html>"#;

#[test]
fn danbooru_link() {
    assert_eq!(
        extract_service_and_id("https://danbooru.donmai.us/posts/12345?q=1"),
        Ok(("Danbooru".to_string(), "12345".to_string()))
    );
}

#[test]
fn danbooru_link_in_capitals() {
    assert_eq!(
        extract_service_and_id("HTTPS://DANBOORU.DONMAI.US/POSTS/42"),
        Ok(("Danbooru".to_string(), "42".to_string()))
    );
}

#[test]
fn yandere_link() {
    assert_eq!(
        extract_service_and_id("//yande.re/post/show/999"),
        Ok(("Yande.re".to_string(), "999".to_string()))
    );
}

#[test]
fn gelbooru_id_link() {
    assert_eq!(
        extract_service_and_id("https://gelbooru.com/index.php?page=post&s=view&id=777"),
        Ok(("Gelbooru".to_string(), "777".to_string()))
    );
}

#[test]
fn gelbooru_md5_link() {
    assert_eq!(
        extract_service_and_id(
            "https://gelbooru.com/index.php?page=post&s=list&md5=0123456789ABCDEF0123456789abcdef"
        ),
        Ok(("Gelbooru".to_string(), "0123456789abcdef0123456789abcdef".to_string()))
    );
}

#[test]
fn gelbooru_short_md5_is_refused() {
    assert_eq!(
        extract_service_and_id("https://gelbooru.com/index.php?md5=abc"),
        Err("Not a valid booru post link".to_string())
    );
}

#[test]
fn other_links_are_refused() {
    assert_eq!(
        extract_service_and_id("https://example.com/posts/1"),
        Err("Not a valid booru post link".to_string())
    );
    assert_eq!(
        extract_service_and_id("https://danbooru.donmai.us/posts/abc"),
        Err("Not a valid booru post link".to_string())
    );
}

#[test]
fn page_best_match_among_configured_services() {
    assert_eq!(
        parse_iqdb_html(PAGE, &owned(&["Danbooru", "Yande.re"]), 90),
        Ok(("Yande.re".to_string(), "222".to_string(), 97))
    );
}

#[test]
fn page_unconfigured_top_result_is_passed_over() {
    assert_eq!(
        parse_iqdb_html(PAGE, &owned(&["danbooru"]), 90),
        Ok(("Danbooru".to_string(), "111".to_string(), 95))
    );
}

#[test]
fn page_below_threshold_fails() {
    assert_eq!(
        parse_iqdb_html(PAGE, &owned(&["Danbooru", "Yande.re"]), 98),
        Err("No match found on IQDB that meets the confidence threshold for your configured services.".to_string())
    );
}

#[test]
fn page_without_tables_fails() {
    assert!(parse_iqdb_html("<p>nothing</p>", &owned(&["Danbooru"]), 0).is_err());
}

#[test]
fn tables_given_directly() {
    let tables = vec![
        HtmlTable {
            header: Some(owned(&["Best ", "Match"])),
            texts: owned(&["Best Match", "88% similarity"]),
            links: vec![Some("https://danbooru.donmai.us/posts/5".to_string()), None],
        },
        HtmlTable {
            header: None,
            texts: owned(&["99%"]),
            links: vec![Some("https://danbooru.donmai.us/posts/6".to_string())],
        },
    ];
    assert_eq!(
        best_match(&tables, &owned(&["Danbooru"]), 80),
        Ok(("Danbooru".to_string(), "5".to_string(), 88))
    );
}

#[test]
fn unreadable_similarity_counts_as_zero() {
    let tables = vec![HtmlTable {
        header: Some(owned(&["match"])),
        texts: owned(&["999% similarity"]),
        links: vec![Some("https://danbooru.donmai.us/posts/5".to_string())],
    }];
    assert_eq!(
        best_match(&tables, &owned(&["Danbooru"]), 0),
        Ok(("Danbooru".to_string(), "5".to_string(), 0))
    );
    assert!(best_match(&tables, &owned(&["Danbooru"]), 1).is_err());
}

#[test]
fn ties_go_to_the_first_candidate() {
    let cands = vec![
        MatchCandidate { service: "A".to_string(), id: "1".to_string(), similarity: 90 },
        MatchCandidate { service: "B".to_string(), id: "2".to_string(), similarity: 90 },
        MatchCandidate { service: "C".to_string(), id: "3".to_string(), similarity: 80 },
    ];
    assert_eq!(best_candidate(&cands), Some(0));
    assert_eq!(best_candidate(&Vec::new()), None);
}

#[test]
fn similarity_from_captured_digits() {
    assert_eq!(similarity_from(Some("95")), 95);
    assert_eq!(similarity_from(Some("+7")), 7);
    assert_eq!(similarity_from(Some("256")), 0);
    assert_eq!(similarity_from(None), 0);
}

#[test]
fn links_of_configured_services() {
    let links = vec![
        Some("https://danbooru.donmai.us/posts/1".to_string()),
        None,
        Some("https://example.com/x".to_string()),
        Some("https://yande.re/post/show/2".to_string()),
        Some("https://gelbooru.com/index.php?id=3".to_string()),
    ];
    let found = link_matches(&links, &owned(&["danbooru", "gelbooru"]), 70);
    let got: Vec<(String, String, u8)> =
        found.into_iter().map(|c| (c.service, c.id, c.similarity)).collect();
    assert_eq!(
        got,
        vec![
            ("Danbooru".to_string(), "1".to_string(), 70),
            ("Gelbooru".to_string(), "3".to_string(), 70),
        ]
    );
}

#[test]
fn threshold_keeps_or_loses_the_same_match() {
    let valid = owned(&["Danbooru", "Yande.re"]);
    for t in 0..=255u8 {
        let r = parse_iqdb_html(PAGE, &valid, t);
        if t <= 97 {
            assert_eq!(r, Ok(("Yande.re".to_string(), "222".to_string(), 97)));
        } else {
            assert!(r.is_err());
        }
    }
}

#[test]
fn links_read_alike_in_any_case() {
    for h in ["HTTPS://Danbooru.Donmai.us/Posts/77", "https://GELBOORU.com/?MD5=0123456789ABCDEF0123456789ABCDEF", "https://yande.re/post/show/x"] {
        assert_eq!(extract_service_and_id(h), extract_service_and_id(&h.to_lowercase()));
    }
}
