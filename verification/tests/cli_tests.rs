use ma_world::cli_parse::{parse_cli, CliCommand};
use ma_world::paths::RuntimeFileConfig;
use ma_world::schema::ActorSummary;
use ma_world::startup::{check_kubo_keys, expected_kubo_keys, missing_kubo_keys, resolve_run_settings, RunEnv};

fn args(list: &[&str]) -> Vec<String> {
    let mut v = vec!["ma-world".to_string()];
    v.extend(list.iter().map(|s| s.to_string()));
    v
}

fn err(list: &[&str]) -> String {
    match parse_cli(&args(list)) {
        Err(e) => e,
        Ok(_) => panic!("expected an error for {list:?}"),
    }
}

#[test]
fn help_and_unknown_commands() {
    assert!(matches!(parse_cli(&args(&["--help"])), Ok(CliCommand::Help)));
    assert!(matches!(parse_cli(&args(&["help"])), Ok(CliCommand::Help)));
    assert_eq!(err(&[]), "--slug is required for server mode");
    assert_eq!(err(&["frobnicate"]), "unknown command 'frobnicate'. Use --help to list available commands.");
    assert_eq!(err(&["init-world"]), "init-world has been removed");
}

#[test]
fn run_options_and_slug() {
    match parse_cli(&args(&["run", "--slug", "panteia", "--listen", "0.0.0.0:9", "--log-file", "~/w.log"])) {
        Ok(CliCommand::Run(o)) => {
            assert_eq!(o.slug, "panteia");
            assert_eq!(o.listen, "0.0.0.0:9");
            assert_eq!(o.log_level, "info");
            assert_eq!(o.log_file, Some("~/w.log".to_string()));
            assert_eq!(o.kubo_url, None);
        }
        _ => panic!("expected run"),
    }
    match parse_cli(&args(&["--slug", "a", "--slug", "b"])) {
        Ok(CliCommand::Run(o)) => assert_eq!(o.slug, "b"),
        _ => panic!("expected top-level run"),
    }
    assert_eq!(err(&["run", "--listen", "x"]), "--slug is required for server mode");
    assert_eq!(err(&["run", "--slug"]), "missing value for --slug");
    assert_eq!(
        err(&["run", "--bogus"]),
        "unknown argument '--bogus' for run (supported: --slug, --listen, --kubo-url, --owner, --log-level, --log-file)"
    );
    assert_eq!(
        err(&["--skip-ipns"]),
        "unknown top-level argument '--skip-ipns'. Use 'publish-world' for publish flags like --skip-ipns, or use run/--slug/--listen/--kubo-url/--owner/--log-level/--log-file for server mode."
    );
}

#[test]
fn bundle_and_secret_commands() {
    match parse_cli(&args(&["create-unlock-bundle", "--passphrase", "pw", "--out", "/tmp/b.json"])) {
        Ok(CliCommand::CreateUnlockBundle { slug, passphrase, out }) => {
            assert_eq!(slug, "ma");
            assert_eq!(passphrase, "pw");
            assert_eq!(out, Some("/tmp/b.json".to_string()));
        }
        _ => panic!("expected create-unlock-bundle"),
    }
    assert_eq!(err(&["create-unlock-bundle", "--slug", "x"]), "--passphrase is required for create-unlock-bundle");
    assert_eq!(err(&["--gen-headless-config"]), "--slug is required for --gen-headless-config");
    match parse_cli(&args(&["--gen-iroh-secret", "/tmp/k.bin", "--slug", "w"])) {
        Ok(CliCommand::GenIrohSecret { slug, path }) => {
            assert_eq!(slug, "w");
            assert_eq!(path, Some("/tmp/k.bin".to_string()));
        }
        _ => panic!("expected --gen-iroh-secret"),
    }
    assert_eq!(
        err(&["--gen-iroh-secret", "a", "b"]),
        "usage: ma-world --gen-iroh-secret [path] [--slug <slug>]"
    );
}

#[test]
fn publish_and_root_commands() {
    match parse_cli(&args(&["publish-world", "--skip-ipns", "--ipns-retries", "+7", "--ipns-timeout-ms", "250"])) {
        Ok(CliCommand::PublishWorld { slug, world_dir, skip_ipns, allow_partial_ipns, ipns }) => {
            assert_eq!(slug, "ma");
            assert_eq!(world_dir, None);
            assert!(skip_ipns);
            assert!(!allow_partial_ipns);
            assert_eq!(ipns.retries, 7);
            assert_eq!(ipns.timeout_ms, 250);
            assert_eq!(ipns.backoff_ms, 1000);
        }
        _ => panic!("expected publish-world"),
    }
    assert_eq!(
        err(&["publish-world", "--ipns-retries", "x", "--bogus"]),
        format!("invalid --ipns-retries: {}", "x".parse::<u32>().unwrap_err())
    );
    assert_eq!(
        err(&["check-kubo-ipns", "--ipns-backoff-ms", "99999999999999999999"]),
        format!("invalid --ipns-backoff-ms: {}", "99999999999999999999".parse::<u64>().unwrap_err())
    );
    assert_eq!(err(&["verify-root"]), "--root-cid is required for verify-root");
    match parse_cli(&args(&["restore-root", "--root-cid", "bafy", "--dry-run"])) {
        Ok(CliCommand::RestoreRoot { slug, root_cid, dry_run }) => {
            assert_eq!(slug, "ma");
            assert_eq!(root_cid, "bafy");
            assert!(dry_run);
        }
        _ => panic!("expected restore-root"),
    }
    assert!(matches!(parse_cli(&args(&["validate-world", "--world-dir", "/w"])), Ok(CliCommand::ValidateWorld { .. })));
    assert_eq!(
        err(&["ensure-kubo-keys", "--key", "k"]),
        "unknown argument '--key' for ensure-kubo-keys (supported: --slug, --world-dir)"
    );
}

#[test]
fn run_settings_precedence() {
    let o = match parse_cli(&args(&["run", "--slug", "Pan Teia", "--owner", "did:ma:cli"])) {
        Ok(CliCommand::Run(o)) => o,
        _ => panic!("expected run"),
    };
    let mut cfg = RuntimeFileConfig::default();
    cfg.listen = Some("10.0.0.1:1".to_string());
    cfg.owner = Some("did:ma:cfg".to_string());
    cfg.kubo_api_url = Some("http://cfg".to_string());
    let env = RunEnv {
        listen: Some("env:1".to_string()),
        kubo_api_url: Some("http://env".to_string()),
        owner: None,
        log_level: Some("debug".to_string()),
        log_file: None,
    };
    let s = resolve_run_settings(&o, &cfg, &env, "/home/u/.local/share");
    assert_eq!(s.listen, "10.0.0.1:1");
    assert_eq!(s.owner, Some("did:ma:cli".to_string()));
    assert_eq!(s.kubo_url, Some("http://cfg".to_string()));
    assert_eq!(s.log_level, "debug");
    assert!(!s.log_file_given);
    assert_eq!(s.log_file, format!("/home/u/.local/share/ma/worlds/{}/ma-world.log", s.slug));
}

#[test]
fn kubo_keys_are_sorted_and_unique() {
    let required = vec!["zeta".to_string(), "alpha".to_string(), "zeta".to_string()];
    let actors = vec![
        ActorSummary { id: "did:ma:k#ma-lobby".to_string(), actor_type: "room".to_string() },
        ActorSummary { id: "did:ma:k#lamp".to_string(), actor_type: "object".to_string() },
        ActorSummary { id: "did:ma:k".to_string(), actor_type: "room".to_string() },
    ];
    let keys = expected_kubo_keys(&required, "ma", &actors);
    assert_eq!(keys, vec!["alpha", "ma", "ma-lobby", "zeta"]);
    let available = vec!["ma".to_string(), "zeta".to_string()];
    assert_eq!(missing_kubo_keys(&keys, &available), vec!["alpha", "ma-lobby"]);
    assert_eq!(check_kubo_keys(&keys, &available), Err("missing Kubo key(s): alpha, ma-lobby".to_string()));
    assert_eq!(check_kubo_keys(&keys, &keys), Ok(()));
}

#[test]
fn explicit_cli_listen_outranks_runtime_file() {
    let o = match parse_cli(&args(&["run", "--slug", "w", "--listen", "127.0.0.1:5002", "--log-level", "info"])) {
        Ok(CliCommand::Run(o)) => o,
        _ => panic!("expected run"),
    };
    assert!(o.listen_given && o.log_level_given);
    let mut cfg = RuntimeFileConfig::default();
    cfg.listen = Some("0.0.0.0:7000".to_string());
    cfg.log_level = Some("debug".to_string());
    let env = RunEnv { listen: None, kubo_api_url: None, owner: None, log_level: None, log_file: None };
    let s = resolve_run_settings(&o, &cfg, &env, "/d");
    assert_eq!(s.listen, "127.0.0.1:5002");
    assert_eq!(s.log_level, "info");
}
