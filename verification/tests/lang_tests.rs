use ma_world::lang::{
    canonical_tag, collapse_world_language_order, collapse_world_language_order_strict,
    is_valid_world_lang_tag, parse_ftl_messages, parse_world_lang_path, supported_world_languages,
    supported_world_languages_text, tr_world, world_lang_catalogs, world_lang_from_profile,
};

#[test]
fn canonical_tags() {
    assert_eq!(canonical_tag("nb-no.UTF-8@euro"), "nb_NO");
    assert_eq!(canonical_tag(" EN "), "en");
    assert_eq!(canonical_tag("en_gb_x"), "en_GB_X");
    assert_eq!(canonical_tag("@x"), "");
    assert_eq!(canonical_tag("_US"), "");
}

#[test]
fn supported_languages() {
    assert_eq!(supported_world_languages(), vec!["en_UK".to_string(), "nb_NO".to_string()]);
    assert_eq!(supported_world_languages_text(), "en_UK, nb_NO");
}

#[test]
fn collapse_profiles() {
    assert_eq!(collapse_world_language_order_strict("nb_NO:en_UK"), Some("nb_NO;en_UK".to_string()));
    assert_eq!(collapse_world_language_order_strict("en-us, nb"), Some("en_UK;nb_NO".to_string()));
    assert_eq!(collapse_world_language_order_strict("EN_uk;en"), Some("en_UK".to_string()));
    assert_eq!(collapse_world_language_order_strict("fr_FR"), None);
    assert_eq!(collapse_world_language_order("fr"), "en_UK");
}

#[test]
fn world_language_of_profile() {
    assert_eq!(world_lang_from_profile("nb_NO:en_UK"), "nb_NO");
    assert_eq!(world_lang_from_profile("de"), "en_UK");
    assert_eq!(world_lang_from_profile("en;nb"), "en_UK");
}

#[test]
fn ftl_parsing_and_translation() {
    let en = "# comment\nworld.hello = Hello\n\n bad line\nworld.bye=Bye\nworld.hello = Hi\n";
    let nb = "world.hello = Hei\n";
    let m = parse_ftl_messages(en);
    assert_eq!(m.entries.len(), 2);
    let cats = world_lang_catalogs(en, nb);
    assert_eq!(tr_world(&cats, "nb_NO", "world.hello", "fb"), "Hei");
    assert_eq!(tr_world(&cats, "nb_NO", "world.bye", "fb"), "Bye");
    assert_eq!(tr_world(&cats, "en_UK", "world.hello", "fb"), "Hi");
    assert_eq!(tr_world(&cats, "xx", "missing", "fb"), "fb");
}

#[test]
fn lang_tags_and_paths() {
    assert!(is_valid_world_lang_tag("en_UK"));
    assert!(!is_valid_world_lang_tag("EN_uk"));
    assert!(!is_valid_world_lang_tag("en-UK"));
    assert_eq!(parse_world_lang_path("lang. nb_NO "), Some("nb_NO".to_string()));
    assert_eq!(parse_world_lang_path("lang.  "), None);
    assert_eq!(parse_world_lang_path("language.x"), None);
}
