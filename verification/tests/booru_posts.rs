use saucebottle::booru::{
    Credentials, GelbooruTag, PostDetails, PostFields, PostItem, TagLink, active_services,
    apply_follow_up, apply_gelbooru_tags, apply_tag_list, apply_yandere_page, booru_page_url, find_service,
    finish_post, has_complete_credentials, images_from_items, linked_tag, needs_credentials,
    page_credentials, page_credentials_from, page_images, post_credentials,
    post_credentials_from, post_from_fields, post_url, rating_of, read_gelbooru_tags,
    read_page_items, read_post, read_post_fields, read_secret, search_tags, secret_complete,
    user_agent,
};
use saucebottle::models::AppConfig;

fn owned(v: &[&str]) -> Vec<String> {
    v.iter().map(|s| s.to_string()).collect()
}

fn creds(u: &str, k: &str) -> Credentials {
    Credentials { username: u.to_string(), api_key: k.to_string() }
}

fn blank_post() -> PostDetails {
    PostDetails {
        character: "Original".to_string(),
        fandom: "Unknown".to_string(),
        artist: "Unknown".to_string(),
        raw_rating: "u".to_string(),
        year: "Unknown".to_string(),
        warnings: Vec::new(),
        follow_up: None,
    }
}

const DANBOORU_POST: &str = r#"{"created_at":"2021-05-04T10:00:00.000-04:00","tag_string_character":"hatsune_miku kagamine_rin","tag_string_copyright":"vocaloid","tag_string_artist":"some_artist","rating":"g"}"#;

#[test]
fn danbooru_post_skips_blacklisted_character() {
    let d = read_post("Danbooru", "123", DANBOORU_POST, None, &creds("", ""), &owned(&["hatsune_miku"]))
        .unwrap();
    assert_eq!(d.character, "kagamine_rin");
    assert_eq!(d.fandom, "vocaloid");
    assert_eq!(d.artist, "some_artist");
    assert_eq!(d.raw_rating, "g");
    assert_eq!(d.year, "2021");
    assert!(d.warnings.is_empty());
    assert_eq!(d.follow_up, None);
}

#[test]
fn danbooru_post_missing_fields_use_defaults() {
    let d = read_post("Danbooru", "1", "{}", None, &creds("", ""), &[]).unwrap();
    assert_eq!(d.character, "Original");
    assert_eq!(d.fandom, "Unknown");
    assert_eq!(d.artist, "Unknown");
    assert_eq!(d.raw_rating, "u");
    assert_eq!(d.year, "Unknown");
}

#[test]
fn post_that_is_not_json_fails() {
    let r = read_post("Danbooru", "1", "<html>", None, &creds("", ""), &[]);
    assert_eq!(r.err(), Some("expected value at line 1 column 1".to_string()));
}

#[test]
fn gelbooru_post_plans_tag_request() {
    let text = r#"{"post":[{"created_at":"Sat Mar 02 10:00:00 -0600 2019","rating":"explicit","tags":"a b (c)"}]}"#;
    let d = read_post(
        "Gelbooru",
        "5",
        text,
        Some("https://g/?names=${TAGS}&u=${USERNAME}&k=${API_KEY}"),
        &creds("me", "k1"),
        &[],
    )
    .unwrap();
    assert_eq!(d.raw_rating, "e");
    assert_eq!(d.year, "2019");
    assert_eq!(d.follow_up, Some("https://g/?names=a+b+%28c%29&u=me&k=k1".to_string()));
}

#[test]
fn yandere_post_year_from_timestamp() {
    let d = read_post("Yande.re", "42", r#"[{"created_at":1609459200,"rating":"s"}]"#, None, &creds("", ""), &[])
        .unwrap();
    assert_eq!(d.year, "2021");
    assert_eq!(d.raw_rating, "s");
    assert_eq!(d.follow_up, Some("https://yande.re/post/show/42".to_string()));
}

#[test]
fn gelbooru_tag_answer_names_roles() {
    let text = r#"{"tag":[{"name":"hatsune_miku","type":4},{"name":"vocaloid","type":3},{"name":"artist_x","type":1},{"name":"other","type":4}]}"#;
    let d = apply_gelbooru_tags(blank_post(), text, &[]);
    assert_eq!(d.character, "hatsune_miku");
    assert_eq!(d.fandom, "vocaloid");
    assert_eq!(d.artist, "artist_x");
}

#[test]
fn gelbooru_tag_answer_as_bare_array_and_blacklist() {
    let text = r#"[{"name":"hatsune_miku","type":4},{"name":"kagamine_rin","type":4}]"#;
    let d = apply_gelbooru_tags(blank_post(), text, &owned(&["hatsune_miku"]));
    assert_eq!(d.character, "kagamine_rin");
    assert_eq!(d.fandom, "Unknown");
}

#[test]
fn gelbooru_tag_answer_unusable_changes_nothing() {
    let d = apply_gelbooru_tags(blank_post(), "not json", &[]);
    assert_eq!(d.character, "Original");
    assert!(read_gelbooru_tags("{\"tag\":5}").is_none());
}

#[test]
fn yandere_page_names_roles() {
    let html = r#"<ul><li class="tag-type-character"><a href="/wiki/show?title=x">?</a> <a href="/post?tags=hatsune_miku">hatsune miku</a></li><li class="tag-type-copyright"><a href="/post?tags=vocaloid">vocaloid</a></li><li class="tag-type-artist"><a href="/post?tags=foo">foo</a></li></ul>"#;
    let d = apply_yandere_page(blank_post(), html, &[]);
    assert_eq!(d.character, "hatsune miku");
    assert_eq!(d.fandom, "vocaloid");
    assert_eq!(d.artist, "foo");
}

#[test]
fn ratings_become_labels() {
    assert_eq!(rating_of("s"), "SFW");
    assert_eq!(rating_of("g"), "SFW");
    assert_eq!(rating_of("q"), "NSFW");
    assert_eq!(rating_of("e"), "NSFW");
    assert_eq!(rating_of("x"), "Unknown");
}

#[test]
fn finished_post_is_cleaned() {
    let mut d = blank_post();
    d.character = "kagamine_rin".to_string();
    d.fandom = "vocaloid".to_string();
    d.raw_rating = "q".to_string();
    d.year = "2020".to_string();
    let r = finish_post(&d, "Danbooru", "123", 95);
    assert_eq!(r.name, "Kagamine Rin");
    assert_eq!(r.fandom, "Vocaloid");
    assert_eq!(r.artist, "Unknown");
    assert_eq!(r.rating, "NSFW");
    assert_eq!(r.year, "2020");
    assert_eq!(r.service, "Danbooru");
    assert_eq!(r.id, "123");
    assert_eq!(r.similarity, 95);
    assert_eq!(r.file_path, "");
}

#[test]
fn user_agents() {
    assert_eq!(user_agent(""), "SauceBottle/1.0");
    assert_eq!(user_agent("bob"), "Booru user bob");
}

#[test]
fn post_urls_fill_template() {
    let t = "https://gelbooru.com/index.php?page=dapi&s=post&q=index&id=${ID}&json=1&user_id=${USERNAME}&api_key=${API_KEY}";
    assert_eq!(
        post_url(t, "Gelbooru", "77", &creds("u", "k")),
        "https://gelbooru.com/index.php?page=dapi&s=post&q=index&id=77&json=1&user_id=u&api_key=k"
    );
    let md5 = "0123456789abcdef0123456789abcdef";
    assert_eq!(
        post_url(t, "Gelbooru", md5, &creds("u", "k")),
        format!("https://gelbooru.com/index.php?page=dapi&s=post&q=index&tags=md5:{}&json=1&user_id=u&api_key=k", md5)
    );
    assert_eq!(
        post_url("https://yande.re/post.json?tags=id:${ID}", "Yande.re", "9", &creds("", "")),
        "https://yande.re/post.json?tags=id:9"
    );
}

#[test]
fn stored_secrets() {
    assert!(has_complete_credentials(r#"{"username":"u","apiKey":"k"}"#));
    assert!(!has_complete_credentials(r#"{"username":" ","apiKey":"k"}"#));
    assert!(!has_complete_credentials("garbage"));
    let good = r#"{"username":"u","apiKey":"k"}"#;
    assert_eq!(active_services(Some(good), None), owned(&["Danbooru", "Yande.re"]));
    assert_eq!(active_services(None, Some(good)), owned(&["Yande.re", "Gelbooru"]));
    assert_eq!(active_services(Some("{}"), Some(good)), owned(&["Yande.re", "Gelbooru"]));
}

#[test]
fn credentials_for_posts_and_pages() {
    let s = r#"{"username":"  ","apiKey":"k"}"#;
    let p = post_credentials(Some(s));
    assert_eq!(p.username, "");
    assert_eq!(p.api_key, "k");
    let q = page_credentials(Some(s));
    assert_eq!(q.username, "  ");
    assert_eq!(q.api_key, "k");
    let n = post_credentials(None);
    assert_eq!(n.username, "");
    assert_eq!(n.api_key, "");
}

#[test]
fn services_are_found_in_settings() {
    let c = AppConfig::default();
    assert_eq!(find_service(&c, "Gelbooru"), Ok(0));
    assert_eq!(find_service(&c, "Danbooru"), Ok(2));
    assert_eq!(find_service(&c, "Nope"), Err("Service Nope not found".to_string()));
}

#[test]
fn search_tags_become_a_query() {
    assert_eq!(search_tags("blue archive, official art"), "blue_archive+official_art");
    assert_eq!(search_tags(" , "), "");
    assert_eq!(search_tags("solo"), "solo");
}

#[test]
fn page_urls_per_service() {
    let c = creds("u", "k");
    assert_eq!(
        booru_page_url("Danbooru", "x", &c, 2),
        Ok("https://danbooru.donmai.us/posts.json?tags=x&login=u&api_key=k&page=2".to_string())
    );
    assert_eq!(
        booru_page_url("Gelbooru", "x", &c, 3),
        Ok("https://gelbooru.com/index.php?page=dapi&s=post&q=index&tags=x&user_id=u&api_key=k&pid=2&json=1&limit=42".to_string())
    );
    assert_eq!(
        booru_page_url("Yande.re", "x", &c, 1),
        Ok("https://yande.re/post.json?tags=x&page=1".to_string())
    );
    assert_eq!(booru_page_url("Other", "x", &c, 1), Err("Unknown service".to_string()));
    assert!(!needs_credentials("Yande.re"));
    assert!(needs_credentials("Danbooru"));
}

#[test]
fn page_images_from_answers() {
    let text = r#"[{"id":1,"file_url":"https://x/a.png","file_ext":"png"},{"id":2},{"file_url":"https://x/b.jpeg"}]"#;
    let imgs = page_images("Danbooru", text).unwrap();
    assert_eq!(imgs.len(), 2);
    assert_eq!((imgs[0].id.as_str(), imgs[0].url.as_str(), imgs[0].ext.as_str()), ("1", "https://x/a.png", "png"));
    assert_eq!((imgs[1].id.as_str(), imgs[1].url.as_str(), imgs[1].ext.as_str()), ("0", "https://x/b.jpeg", "jpeg"));
    let g = page_images("Gelbooru", r#"{"post":[{"id":5,"file_url":"https://g/c.gif"}]}"#).unwrap();
    assert_eq!(g.len(), 1);
    assert_eq!((g[0].id.as_str(), g[0].ext.as_str()), ("5", "gif"));
    assert!(page_images("Gelbooru", "{}").unwrap().is_empty());
    assert_eq!(page_images("Danbooru", "oops").err(), Some("expected value at line 1 column 1".to_string()));
}

#[test]
fn post_from_given_fields() {
    let f = PostFields {
        year: Some("1999".to_string()),
        character_tags: Some("a_b c".to_string()),
        copyright_tags: None,
        artist_tags: Some("x".to_string()),
        rating: Some("q".to_string()),
        tags: None,
        timestamp: Some(0),
    };
    let d = post_from_fields("Danbooru", "1", &f, None, &creds("", ""), &owned(&["a_b"]));
    assert_eq!(d.character, "c");
    assert_eq!(d.fandom, "Unknown");
    assert_eq!(d.artist, "x");
    assert_eq!(d.raw_rating, "q");
    assert_eq!(d.year, "1999");
    let y = post_from_fields("Yande.re", "7", &f, None, &creds("", ""), &[]);
    assert_eq!(y.year, "1970");
    assert_eq!(y.raw_rating, "q");
    let g = post_from_fields("Gelbooru", "7", &f, Some("t=${TAGS}"), &creds("", ""), &[]);
    assert_eq!(g.follow_up, Some("t=".to_string()));
    let o = post_from_fields("Other", "7", &f, None, &creds("", ""), &[]);
    assert_eq!(o.raw_rating, "u");
    assert_eq!(o.year, "1999");
}

#[test]
fn negative_timestamps_truncate_toward_zero() {
    let f = PostFields {
        year: None,
        character_tags: None,
        copyright_tags: None,
        artist_tags: None,
        rating: None,
        tags: None,
        timestamp: Some(-31556927),
    };
    let y = post_from_fields("Yande.re", "7", &f, None, &creds("", ""), &[]);
    assert_eq!(y.year, "1969");
    assert_eq!(y.raw_rating, "u");
}

#[test]
fn post_fields_from_answers() {
    let f = read_post_fields("Danbooru", DANBOORU_POST);
    assert_eq!(f.year, Some("2021".to_string()));
    assert_eq!(f.copyright_tags, Some("vocaloid".to_string()));
    assert_eq!(f.tags, None);
    let y = read_post_fields("Yande.re", r#"[{"created_at":5,"rating":"e"}]"#);
    assert_eq!(y.timestamp, Some(5));
    assert_eq!(y.rating, Some("e".to_string()));
    assert_eq!(y.year, None);
}

#[test]
fn tag_lists_given_directly() {
    let tags = vec![
        GelbooruTag { name: None, kind: Some(3) },
        GelbooruTag { name: Some("rin".to_string()), kind: Some(4) },
        GelbooruTag { name: Some("pen".to_string()), kind: Some(1) },
    ];
    let d = apply_tag_list(blank_post(), &tags, &[]);
    assert_eq!(d.character, "rin");
    assert_eq!(d.fandom, "Unknown");
    assert_eq!(d.artist, "pen");
}

#[test]
fn linked_tags_given_directly() {
    let links = vec![
        TagLink { href: None, text: "a".to_string() },
        TagLink { href: Some("/wiki/x".to_string()), text: "b".to_string() },
        TagLink { href: Some("/post?tags=c".to_string()), text: "C".to_string() },
        TagLink { href: Some("/post?tags=d".to_string()), text: "d".to_string() },
    ];
    assert_eq!(linked_tag(&links, "Original", &[]).tag, "C");
    assert_eq!(linked_tag(&links, "Original", &owned(&["c"])).tag, "d");
    assert_eq!(linked_tag(&links, "Original", &owned(&["c", "d"])).tag, "Original");
}

#[test]
fn page_items_given_directly() {
    let items = vec![
        PostItem { id: Some(-3), file_url: Some("u.x.webm".to_string()), file_ext: None },
        PostItem { id: Some(4), file_url: None, file_ext: Some("png".to_string()) },
        PostItem { id: None, file_url: Some("noext".to_string()), file_ext: None },
    ];
    let imgs = images_from_items(&items);
    assert_eq!(imgs.len(), 2);
    assert_eq!((imgs[0].id.as_str(), imgs[0].ext.as_str()), ("-3", "webm"));
    assert_eq!((imgs[1].id.as_str(), imgs[1].ext.as_str()), ("0", "noext"));
    let read = read_page_items("Danbooru", r#"[{"id":9,"file_url":"a.jpg"}]"#).unwrap();
    assert_eq!(read.len(), 1);
    assert_eq!(read[0].id, Some(9));
    assert!(read_page_items("Danbooru", r#"{"post":[]}"#).is_none());
}

#[test]
fn secrets_read_directly() {
    let s = read_secret(r#"{"username":"u ","apiKey":""}"#);
    assert_eq!(s.username, Some("u ".to_string()));
    assert_eq!(s.api_key, Some("".to_string()));
    assert!(!secret_complete(&s));
    let p = post_credentials_from(&s);
    assert_eq!((p.username.as_str(), p.api_key.as_str()), ("u ", ""));
    let q = page_credentials_from(&read_secret("[]"));
    assert_eq!((q.username.as_str(), q.api_key.as_str()), ("", ""));
}

#[test]
fn gelbooru_first_page_is_pid_zero() {
    assert_eq!(
        booru_page_url("Gelbooru", "x", &creds("", ""), 1),
        Ok("https://gelbooru.com/index.php?page=dapi&s=post&q=index&tags=x&user_id=&api_key=&pid=0&json=1&limit=42".to_string())
    );
}

#[test]
fn follow_up_answers_by_service() {
    let page = r#"<ul><li class="tag-type-artist"><a href="/post?tags=foo">foo</a></li></ul>"#;
    let y = apply_follow_up("Yande.re", blank_post(), page, &[]);
    assert_eq!(y.artist, "foo");
    let tags = r#"{"tag":[{"name":"bar","type":1}]}"#;
    let g = apply_follow_up("Gelbooru", blank_post(), tags, &[]);
    assert_eq!(g.artist, "bar");
    let d = apply_follow_up("Danbooru", blank_post(), tags, &[]);
    assert_eq!(d.artist, "Unknown");
}

#[test]
fn warnings_are_collected_in_order() {
    let text = r#"{"tag_string_character":"miku_(cosplay)","tag_string_copyright":"rinn","tag_string_artist":"x"}"#;
    let d = read_post("Danbooru", "1", text, None, &creds("", ""), &owned(&["miku", "rin"])).unwrap();
    assert_eq!(d.character, "miku_(cosplay)");
    assert_eq!(
        d.warnings,
        vec![
            "Your blacklisted tag 'miku' partially matched 'miku_(cosplay)'. Did you mean to blacklist the latter?".to_string(),
            "Your blacklisted tag 'rin' is very similar to the found image tag 'rinn'. Did you mean to blacklist the latter?".to_string(),
        ]
    );
    let tags = r#"{"tag":[{"name":"mikku","type":4}]}"#;
    let g = apply_gelbooru_tags(d, tags, &owned(&["miku"]));
    assert_eq!(g.character, "mikku");
    assert_eq!(g.warnings.len(), 3);
    assert_eq!(
        g.warnings[2],
        "Your blacklisted tag 'miku' is very similar to the found image tag 'mikku'. Did you mean to blacklist the latter?"
    );
}
