use saucebottle::models::AppConfig;

#[test]
fn default_settings() {
    let c = AppConfig::default();
    let names: Vec<&str> = c.services.iter().map(|s| s.0.as_str()).collect();
    assert_eq!(names, vec!["Gelbooru", "Yande.re", "Danbooru"]);
    assert_eq!(c.services[1].1.url, "https://yande.re/post.json?tags=id:${ID}");
    assert!(c.services[0].1.post_url.is_some());
    assert_eq!(c.confidence_threshold, 80);
    assert_eq!(c.rename_behavior, "site_id");
    assert_eq!(c.duplicate_behavior, "rename_copy");
    assert_eq!(c.invalid_folder, ".invalid");
    assert_eq!(c.downloads_folder, ".downloads");
    assert_eq!(c.active_hierarchy.len(), 2);
    assert_eq!(c.available_blocks[1].name, "Rating (SFW/NSFW)");
}

#[test]
fn flags_with_defaults() {
    let c = AppConfig::default();
    assert!(!c.flag("applyModsToSaved", true));
    assert!(c.flag("isPermanentScan", false));
    assert!(c.flag("notAFlag", true));
    assert!(!c.flag("notAFlag", false));
    assert_eq!(c.service_index("Danbooru"), Some(2));
    assert_eq!(c.service_index("danbooru"), None);
}
