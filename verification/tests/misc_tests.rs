use ma_world::cli::{compiled_default_lang_cid, extract_global_config_arg, normalize_local_object_id, trim_console};
use ma_world::content::ContentType;
use ma_world::paths::{default_world_dir, resolve_subpath, runtime_config_path, runtime_iroh_secret_default_path, xdg_config_home, RuntimeFileConfig};
use ma_world::schema::{default_local_cache_dir, did_fragment, ensure_schema, normalize_world_key_name, validate_actor_web_registry, ActorWebArtifact, ActorWebRegistry, check_world_authoring, ActorSummary};
use ma_world::text_map::TextMap;
use ma_world::world::is_valid_nanoid_id;

#[test]
fn console_cells_are_padded_or_cut() {
    assert_eq!(trim_console("abc", 5), "abc  ");
    assert_eq!(trim_console("abcdef", 3), "abc");
    assert_eq!(trim_console("é", 3), "é ");
}

#[test]
fn lang_cid_is_first_content_line() {
    assert_eq!(compiled_default_lang_cid("# header\n\n  bafyabc  \nother"), Some("bafyabc".to_string()));
    assert_eq!(compiled_default_lang_cid("# only\n"), None);
}

#[test]
fn local_object_ids() {
    assert_eq!(normalize_local_object_id("  #\"box\" "), "box");
    assert_eq!(normalize_local_object_id("'lamp'"), "lamp");
}

#[test]
fn removed_global_args() {
    let args = vec!["ma-world".to_string(), "run".to_string()];
    assert_eq!(extract_global_config_arg(args.clone()), Ok(args));
    assert_eq!(
        extract_global_config_arg(vec!["ma-world".to_string(), "--config".to_string()]),
        Err("--config has been removed; pass runtime options directly via CLI/env".to_string())
    );
    assert_eq!(
        extract_global_config_arg(vec!["ma-world".to_string(), "print-config".to_string()]),
        Err("print-config has been removed".to_string())
    );
}

#[test]
fn content_types() {
    assert!(ContentType::parse(" Room ").ok() == Some(ContentType::Room));
    assert!(ContentType::parse("object").ok() == Some(ContentType::Object));
    assert_eq!(
        ContentType::parse("Thing").err(),
        Some("unsupported content type 'thing'; expected one of: room, evaluator, avatar, world, object".to_string())
    );
}

#[test]
fn runtime_paths() {
    let home = xdg_config_home(None, Some("/home/u"));
    assert_eq!(home, "/home/u/.config");
    assert_eq!(xdg_config_home(Some("/x"), Some("/home/u")), "/x");
    assert_eq!(xdg_config_home(None, None), ".config");
    assert_eq!(runtime_config_path(&home, "panteia"), "/home/u/.config/ma/panteia.yaml");
    assert_eq!(runtime_iroh_secret_default_path(&home, "panteia"), "/home/u/.config/ma/panteia_iroh.bin");
    assert_eq!(default_world_dir("/root/ma/", "w"), "/root/ma/w");
    assert_eq!(resolve_subpath("/w", "/abs/path"), "/abs/path");
    assert_eq!(resolve_subpath("/w", "rel"), "/w/rel");
    let cfg = RuntimeFileConfig::default();
    assert!(cfg.kubo_api_url.is_none() && cfg.unlock_bundle_file.is_none());
}

#[test]
fn schema_helpers() {
    assert_eq!(default_local_cache_dir(), "cache");
    assert_eq!(did_fragment("did:ma:k51#lobby"), Some("lobby".to_string()));
    assert_eq!(did_fragment("did:ma:k51# "), None);
    assert_eq!(did_fragment("did:ma:k51"), None);
    assert_eq!(did_fragment("a#b#c"), Some("b".to_string()));
    assert_eq!(normalize_world_key_name("My World!!"), "my-world");
    assert_eq!(normalize_world_key_name("--"), "ma-world");
    assert_eq!(ensure_schema("world_root", "world_root", 1, "world_root.yaml"), Ok(()));
    assert_eq!(
        ensure_schema("x", "world_root", 1, "world_root.yaml"),
        Err("invalid kind in world_root.yaml: expected 'world_root' got 'x'".to_string())
    );
    assert_eq!(
        ensure_schema("world_root", "world_root", 12, "world_root.yaml"),
        Err("invalid version in world_root.yaml: expected 1 got 12".to_string())
    );
}

fn registry(active: &str, version: &str, cid: &str) -> ActorWebRegistry {
    let mut artifacts = TextMap::new();
    artifacts.insert("v1".chars().collect(), ActorWebArtifact { version: version.to_string(), cid: cid.to_string() });
    ActorWebRegistry { active_version: active.to_string(), artifacts }
}

#[test]
fn actor_web_registry_checks() {
    assert_eq!(validate_actor_web_registry(&registry("v1", "1.0", "bafy")), Ok(()));
    assert_eq!(
        validate_actor_web_registry(&registry("v2", "1.0", "bafy")),
        Err("world_manifest actor_web.active_version 'v2' not found in actor_web.artifacts".to_string())
    );
    assert_eq!(
        validate_actor_web_registry(&registry("v1", "1.0", " ")),
        Err("world_manifest actor_web artifact 'v1' has empty cid".to_string())
    );
    assert_eq!(
        validate_actor_web_registry(&registry(" ", "1.0", "x")),
        Err("world_manifest actor_web.active_version must not be empty".to_string())
    );
}

#[test]
fn world_authoring_checks() {
    let actors = vec![
        ActorSummary { id: "did:ma:k#ma-lobby".to_string(), actor_type: "room".to_string() },
        ActorSummary { id: "did:ma:k#thing".to_string(), actor_type: "object".to_string() },
    ];
    assert_eq!(check_world_authoring("did:ma:k#ma", "ma", &None, &actors), Ok(()));
    assert_eq!(
        check_world_authoring("did:ma:k", "ma", &None, &actors),
        Err("world_id must include #fragment: did:ma:k".to_string())
    );
    assert_eq!(
        check_world_authoring("did:ma:k#other", "ma", &None, &actors),
        Err("world_id fragment 'other' must equal kubo.world_ipns_key_name 'ma'".to_string())
    );
    let bad = vec![ActorSummary { id: "did:ma:k#hall".to_string(), actor_type: "room".to_string() }];
    assert_eq!(
        check_world_authoring("did:ma:k#ma", "ma", &None, &bad),
        Err("room actor id fragment 'hall' must start with 'ma-'".to_string())
    );
}

#[test]
fn nanoid_ids() {
    assert!(is_valid_nanoid_id(&"abc-_9".chars().collect()));
    assert!(!is_valid_nanoid_id(&"".chars().collect()));
    assert!(!is_valid_nanoid_id(&"a b".chars().collect()));
}

#[test]
fn key_names_normalize_once() {
    for slug in ["Pan Teia!!", "--a__b--", "", "ma-world", "X"] {
        let once = normalize_world_key_name(slug);
        assert_eq!(normalize_world_key_name(&once), once);
    }
}
