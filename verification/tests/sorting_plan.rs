use saucebottle::media::{
    clean_path, image_info, mismatch_warning, plan_iqdb_payload, saved_extension, PayloadPlan,
};
use saucebottle::models::{AppConfig, BooruResponse, HierarchyBlock, ImageInfo};
use saucebottle::placement::{
    display_path, downloads_location, duplicate_folders, duplicate_target, folder_to_open,
    folders_for, invalid_destination, invalid_folder_name, plan_result, plan_result_with_id,
    results_folder, DuplicateTarget,
};

fn owned(v: &[&str]) -> Vec<String> {
    v.iter().map(|s| s.to_string()).collect()
}

fn info(format: &str, width: u32, height: u32, size_kb: u64) -> ImageInfo {
    ImageInfo {
        path: "/in/a.png".to_string(),
        filename: "a.png".to_string(),
        format: format.to_string(),
        width,
        height,
        size_kb,
    }
}

fn with_flag(name: &str, value: bool) -> AppConfig {
    let mut c = AppConfig::default();
    for f in c.flags.iter_mut() {
        if f.0 == name {
            f.1 = value;
        }
    }
    c
}

fn result() -> BooruResponse {
    BooruResponse {
        id: "12345".to_string(),
        name: "Yvonne".to_string(),
        fandom: "Arknights".to_string(),
        artist: "Some: Artist".to_string(),
        rating: "SFW".to_string(),
        year: "2024".to_string(),
        service: "Danbooru".to_string(),
        similarity: 95,
        file_path: String::new(),
    }
}

#[test]
fn small_supported_image_goes_as_it_is() {
    let c = AppConfig::default();
    assert_eq!(plan_iqdb_payload(&info("Png", 800, 600, 500), 1024 * info("Png", 800, 600, 500).size_kb, &c), Ok(PayloadPlan::Original));
    assert_eq!(plan_iqdb_payload(&info("Jpeg", 7500, 7500, 8192), 1024 * info("Jpeg", 7500, 7500, 8192).size_kb, &c), Ok(PayloadPlan::Original));
}

#[test]
fn oversized_images_are_reencoded() {
    let c = AppConfig::default();
    assert_eq!(
        plan_iqdb_payload(&info("Png", 7501, 10, 10), 1024 * info("Png", 7501, 10, 10).size_kb, &c),
        Ok(PayloadPlan::Reencode { resize: true })
    );
    assert_eq!(
        plan_iqdb_payload(&info("Png", 10, 10, 8193), 1024 * info("Png", 10, 10, 8193).size_kb, &c),
        Ok(PayloadPlan::Reencode { resize: false })
    );
    assert_eq!(
        plan_iqdb_payload(&info("WebP", 10, 10, 10), 1024 * info("WebP", 10, 10, 10).size_kb, &c),
        Ok(PayloadPlan::Reencode { resize: false })
    );
}

#[test]
fn switched_off_settings_refuse() {
    assert_eq!(
        plan_iqdb_payload(&info("Png", 8000, 9000, 10), 1024 * info("Png", 8000, 9000, 10).size_kb, &with_flag("allowResizing", false)),
        Err("Dimensions (8000x9000) exceed IQDB's 7500px limit, but image resizing is disabled.".to_string())
    );
    assert_eq!(
        plan_iqdb_payload(&info("Bmp", 10, 10, 10), 1024 * info("Bmp", 10, 10, 10).size_kb, &with_flag("allowImageConversion", false)),
        Err("Format 'Bmp' requires conversion to JPEG for IQDB, but conversion is disabled.".to_string())
    );
    assert_eq!(
        plan_iqdb_payload(&info("Png", 10, 10, 9000), 1024 * info("Png", 10, 10, 9000).size_kb, &with_flag("allowShrinking", false)),
        Err("File exceeds IQDB's 8MB limit, and image shrinking is disabled.".to_string())
    );
}

#[test]
fn unset_settings_count_as_on() {
    let mut c = AppConfig::default();
    c.flags.clear();
    assert_eq!(
        plan_iqdb_payload(&info("Tga", 9000, 10, 9000), 1024 * info("Tga", 9000, 10, 9000).size_kb, &c),
        Ok(PayloadPlan::Reencode { resize: true })
    );
}

#[test]
fn saved_extension_follows_the_upload() {
    let plain = AppConfig::default();
    let mods = with_flag("applyModsToSaved", true);
    assert_eq!(saved_extension("a.PNG", &info("Png", 10, 10, 10), 1024 * info("Png", 10, 10, 10).size_kb, &plain), "PNG");
    assert_eq!(saved_extension("a", &info("Png", 10, 10, 10), 1024 * info("Png", 10, 10, 10).size_kb, &plain), "jpg");
    assert_eq!(saved_extension("a.webp", &info("WebP", 10, 10, 10), 1024 * info("WebP", 10, 10, 10).size_kb, &plain), "webp");
    assert_eq!(saved_extension("a.webp", &info("WebP", 10, 10, 10), 1024 * info("WebP", 10, 10, 10).size_kb, &mods), "jpg");
    assert_eq!(saved_extension("a.png", &info("Png", 9000, 10, 10), 1024 * info("Png", 9000, 10, 10).size_kb, &mods), "jpg");
    assert_eq!(saved_extension("a.gif", &info("Gif", 10, 10, 10), 1024 * info("Gif", 10, 10, 10).size_kb, &mods), "gif");
}

#[test]
fn mismatches_are_reported() {
    assert_eq!(mismatch_warning("a.jpg", &info("Jpeg", 1, 1, 1)), None);
    assert_eq!(mismatch_warning("a.TIF", &info("Tiff", 1, 1, 1)), None);
    assert_eq!(mismatch_warning("a", &info("Png", 1, 1, 1)), None);
    assert_eq!(mismatch_warning("a.png", &info("Png", 1, 1, 1)), None);
    assert_eq!(
        mismatch_warning("a.png", &info("Jpeg", 1, 1, 1)),
        Some("Filetype mismatch on 'a.png': extension is .png, but the file is actually a Jpeg".to_string())
    );
    assert_eq!(
        mismatch_warning("a.JPG", &info("Png", 1, 1, 1)),
        Some("Filetype mismatch on 'a.png': extension is .jpg, but the file is actually a Png".to_string())
    );
}

#[test]
fn image_metadata() {
    let i = image_info("\\\\?\\C:\\in\\a.png", "a.png", "Png", 10, 20, 4095);
    assert_eq!(i.path, "C:\\in\\a.png");
    assert_eq!(i.filename, "a.png");
    assert_eq!(i.size_kb, 3);
    assert_eq!(clean_path("/plain/path"), "/plain/path");
}

#[test]
fn hierarchy_folders_from_blocks() {
    let blocks = vec![
        HierarchyBlock { id: 1, name: "Fandom".to_string() },
        HierarchyBlock { id: 3, name: "Artist".to_string() },
        HierarchyBlock { id: 9, name: "Mystery".to_string() },
        HierarchyBlock { id: 5, name: "Rating (SFW/NSFW)".to_string() },
        HierarchyBlock { id: 4, name: "Year".to_string() },
        HierarchyBlock { id: 2, name: "Character".to_string() },
    ];
    assert_eq!(
        folders_for(&blocks, &result()),
        owned(&["Arknights", "Some Artist", "Misc", "SFW", "2024", "Yvonne"])
    );
}

#[test]
fn result_plan_with_site_id() {
    let c = AppConfig::default();
    let p = plan_result(&c, &result(), "img.png", "png");
    assert_eq!(p.folders, owned(&["Arknights", "Yvonne"]));
    assert_eq!(p.stem, "D12345");
    assert_eq!(p.file_name, "D12345.png");
    assert_eq!(p.on_duplicate, DuplicateTarget::SameFolder);
    assert!(!p.write_payload);
    let mut r = result();
    r.service = String::new();
    assert_eq!(plan_result(&c, &r, "img.png", "png").stem, "U12345");
}

#[test]
fn result_plan_with_original_name() {
    let mut c = AppConfig::default();
    c.rename_behavior = "original".to_string();
    let p = plan_result(&c, &result(), "holiday.photo.png", "jpg");
    assert_eq!(p.stem, "holiday.photo");
    assert_eq!(p.file_name, "holiday.photo.jpg");
}

#[test]
fn result_plan_with_random_id() {
    let mut c = AppConfig::default();
    c.rename_behavior = "random_id".to_string();
    let p = plan_result(&c, &result(), "a.png", "png");
    assert_eq!(p.stem.len(), 36);
    assert_eq!(p.stem.chars().nth(14), Some('4'));
    assert_eq!(p.file_name, format!("{}.png", p.stem));
    let q = plan_result_with_id(&c, &result(), "a.png", "png", "fixed");
    assert_eq!(q.file_name, "fixed.png");
}

#[test]
fn duplicate_rules() {
    assert_eq!(duplicate_target("delete"), DuplicateTarget::DeleteSource);
    assert_eq!(duplicate_target("move_folder_deep"), DuplicateTarget::NestedFolder);
    assert_eq!(duplicate_target("move_folder_root"), DuplicateTarget::RootFolder);
    assert_eq!(duplicate_target("rename_copy"), DuplicateTarget::SameFolder);
    let mut c = AppConfig::default();
    c.duplicate_behavior = "move_folder_deep".to_string();
    let p = plan_result(&c, &result(), "a.png", "png");
    assert_eq!(duplicate_folders(&p), Some(owned(&["Arknights", "Yvonne", ".duplicates"])));
    c.duplicate_behavior = "move_folder_root".to_string();
    let p = plan_result(&c, &result(), "a.png", "png");
    assert_eq!(duplicate_folders(&p), Some(owned(&[".duplicates"])));
    c.duplicate_behavior = "delete".to_string();
    let p = plan_result(&c, &result(), "a.png", "png");
    assert_eq!(duplicate_folders(&p), None);
}

#[test]
fn result_folders() {
    let mut c = AppConfig::default();
    assert_eq!(results_folder(&c, "/pics/SauceBottle/results"), "/pics/SauceBottle/results");
    c.output_folder = "/sorted".to_string();
    assert_eq!(results_folder(&c, "/pics/SauceBottle/results"), "/sorted");
}

#[test]
fn invalid_files() {
    let mut c = AppConfig::default();
    assert_eq!(invalid_folder_name(&c), ".invalid");
    c.invalid_folder = "  broken ".to_string();
    assert_eq!(invalid_folder_name(&c), "broken");
    c.invalid_folder = "   ".to_string();
    assert_eq!(invalid_folder_name(&c), ".invalid");
    assert_eq!(invalid_destination(&owned(&["x.png"]), "x.png"), "x_copy1.png");
    assert_eq!(invalid_destination(&owned(&[]), "noext"), "noext");
}

#[test]
fn shown_result_paths() {
    let mut c = AppConfig::default();
    assert_eq!(
        display_path("/pics/results/Arknights/Yvonne/D1.png", &c, "/pics/results"),
        "Arknights/Yvonne/D1.png"
    );
    c.output_folder = "C:\\Sorted".to_string();
    assert_eq!(
        display_path("\\\\?\\C:\\Sorted\\Arknights\\D1.png", &c, "/unused"),
        "Arknights/D1.png"
    );
    assert_eq!(display_path("D:\\elsewhere\\x.png", &c, "/unused"), "D:/elsewhere/x.png");
}

#[test]
fn download_folders() {
    let mut c = AppConfig::default();
    assert_eq!(downloads_location(&c, "/pics/results"), owned(&["/pics/results", ".downloads"]));
    assert_eq!(folder_to_open(&c, "results", "/pics/results"), owned(&["/pics/results"]));
    c.output_folder = "/sorted".to_string();
    c.downloads_folder = " dl ".to_string();
    assert_eq!(downloads_location(&c, "/pics/results"), owned(&["/sorted", " dl "]));
    assert_eq!(folder_to_open(&c, "downloads", "/pics/results"), owned(&["/sorted", " dl "]));
    assert_eq!(folder_to_open(&c, "results", "/pics/results"), owned(&["/sorted"]));
    c.downloads_folder = "".to_string();
    assert_eq!(folder_to_open(&c, "downloads", "/pics/results"), owned(&["/sorted", ".downloads"]));
}

#[test]
fn reencoded_uploads_are_saved_as_jpg() {
    let mods = with_flag("applyModsToSaved", true);
    for i in [info("WebP", 10, 10, 10), info("Png", 9000, 10, 10), info("Gif", 10, 10, 9000)] {
        assert!(matches!(plan_iqdb_payload(&i, 1024 * i.size_kb, &mods), Ok(PayloadPlan::Reencode { .. })));
        assert_eq!(saved_extension("x.webp", &i, 1024 * i.size_kb, &mods), "jpg");
    }
}

#[test]
fn nothing_refused_when_all_allowed() {
    let c = AppConfig::default();
    for i in [info("Tiff", 9000, 9000, 99999), info("Ico", 1, 1, 1), info("Avif", 1, 1, 1)] {
        assert!(plan_iqdb_payload(&i, 1024 * i.size_kb, &c).is_ok());
    }
    assert_eq!(plan_iqdb_payload(&info("Gif", 1, 1, 1), 1024, &c), Ok(PayloadPlan::Original));
}

#[test]
fn shown_paths_have_no_leading_separator() {
    let c = AppConfig::default();
    let shown = display_path("/base//\\x\\y.png", &c, "/base");
    assert_eq!(shown, "x/y.png");
    assert_eq!(display_path("/base", &c, "/base"), "");
}

#[test]
fn size_limit_counts_bytes() {
    let c = AppConfig::default();
    let i = info("Png", 10, 10, 8192);
    assert_eq!(plan_iqdb_payload(&i, 8388608, &c), Ok(PayloadPlan::Original));
    assert_eq!(plan_iqdb_payload(&i, 8388609, &c), Ok(PayloadPlan::Reencode { resize: false }));
    assert_eq!(
        plan_iqdb_payload(&i, 8388609, &with_flag("allowShrinking", false)),
        Err("File exceeds IQDB's 8MB limit, and image shrinking is disabled.".to_string())
    );
    let mods = with_flag("applyModsToSaved", true);
    assert_eq!(saved_extension("a.png", &i, 8388608, &mods), "png");
    assert_eq!(saved_extension("a.png", &i, 8388609, &mods), "jpg");
}

#[test]
fn every_other_format_needs_conversion() {
    let off = with_flag("allowImageConversion", false);
    for f in ["WebP", "Avif", "Bmp", "Hdr"] {
        assert_eq!(
            plan_iqdb_payload(&info(f, 100, 100, 50), 50 * 1024, &off),
            Err(format!("Format '{}' requires conversion to JPEG for IQDB, but conversion is disabled.", f))
        );
    }
    for f in ["Jpeg", "PNG", "gif"] {
        assert_eq!(plan_iqdb_payload(&info(f, 100, 100, 50), 50 * 1024, &off), Ok(PayloadPlan::Original));
    }
}
