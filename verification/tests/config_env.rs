use serval_cli::commands::env::{list_table, listing_of, listings, show_table};
use serval_cli::config::{Config, EnvConfig};

fn local_config() -> Config {
    let mut envs = Vec::new();
    envs.push((
        "local".to_string(),
        EnvConfig {
            base_url: "http://localhost:3000".into(),
        },
    ));
    Config::from_entries(Some("local".into()), envs)
}

#[test]
fn resolve_env_falls_back_to_default() {
    let cfg = local_config();
    let (name, env) = cfg.resolve_env(None).expect("default_env should resolve");
    assert_eq!(name, "local");
    assert_eq!(env.base_url, "http://localhost:3000");
}

#[test]
fn resolve_env_returns_none_when_unknown() {
    let cfg = Config::new();
    assert!(cfg.resolve_env(Some("nope")).is_none());
    assert!(cfg.resolve_env(None).is_none());
}

#[test]
fn set_then_resolve_reads_back_the_url() {
    let mut cfg = Config::new();
    cfg.set_env("staging".into(), "https://staging.example.com".into(), false);
    cfg.set_env("local".into(), "http://localhost:3000".into(), true);
    cfg.set_env("staging".into(), "https://stg.example.com".into(), false);
    let names: Vec<&str> = cfg.envs.iter().map(|(n, _)| n.as_str()).collect();
    assert_eq!(names, vec!["local", "staging"]);
    assert_eq!(cfg.resolve_env(Some("staging")).unwrap().1.base_url, "https://stg.example.com");
    assert_eq!(cfg.resolve_env(None).unwrap().0, "local");
    assert_eq!(cfg.default_env.as_deref(), Some("local"));
    assert!(cfg.get("prod").is_none());
}

#[test]
fn remove_clears_the_default_that_named_it() {
    let mut cfg = local_config();
    cfg.set_env("prod".into(), "https://example.com".into(), false);
    assert!(cfg.remove_env("local"));
    assert!(cfg.default_env.is_none());
    assert!(cfg.resolve_env(Some("local")).is_none());
    assert!(cfg.resolve_env(None).is_none());
    assert_eq!(cfg.resolve_env(Some("prod")).unwrap().1.base_url, "https://example.com");
    assert!(!cfg.remove_env("local"));
}

#[test]
fn remove_of_other_env_keeps_default() {
    let mut cfg = local_config();
    cfg.set_env("prod".into(), "https://example.com".into(), false);
    assert!(cfg.remove_env("prod"));
    assert_eq!(cfg.default_env.as_deref(), Some("local"));
}

#[test]
fn from_entries_sorts_and_keeps_the_last_duplicate() {
    let entries = vec![
        ("b".to_string(), EnvConfig { base_url: "2".into() }),
        ("a".to_string(), EnvConfig { base_url: "1".into() }),
        ("b".to_string(), EnvConfig { base_url: "3".into() }),
    ];
    let cfg = Config::from_entries(None, entries);
    let view: Vec<(&str, &str)> = cfg.envs.iter().map(|(n, e)| (n.as_str(), e.base_url.as_str())).collect();
    assert_eq!(view, vec![("a", "1"), ("b", "3")]);
}

#[test]
fn env_list_table_marks_the_default() {
    let mut cfg = local_config();
    cfg.set_env("staging".into(), "https://s".into(), false);
    let lines = list_table(&cfg);
    assert_eq!(
        lines,
        vec![
            "  NAME              DEFAULT     BASE URL".to_string(),
            "  local             yes         http://localhost:3000".to_string(),
            "  staging           -           https://s".to_string(),
        ]
    );
}

#[test]
fn env_list_table_empty() {
    assert_eq!(list_table(&Config::new()), vec!["  no environments configured".to_string()]);
}

#[test]
fn env_show_and_listings() {
    let cfg = local_config();
    let env = cfg.get("local").unwrap();
    assert_eq!(
        show_table("local", env, &cfg),
        vec![
            "  name:     local".to_string(),
            "  base_url: http://localhost:3000".to_string(),
            "  default:  yes".to_string(),
        ]
    );
    let l = listings(&cfg);
    assert_eq!(l.len(), 1);
    assert_eq!(l[0].name, "local");
    assert!(l[0].is_default);
    let one = listing_of("local", env, &cfg);
    assert_eq!(one.base_url, "http://localhost:3000");
}

#[test]
fn env_set_then_list_shows_the_new_env() {
    let mut cfg = Config::new();
    cfg.set_env("local".into(), "http://localhost:3000".into(), false);
    let out = list_table(&cfg).join("\n");
    assert!(out.contains("local"));
    assert!(out.contains("http://localhost:3000"));
}

#[test]
fn env_set_make_default_marks_the_env_as_default() {
    let mut cfg = Config::new();
    cfg.set_env("staging".into(), "https://staging.example.com".into(), true);
    assert_eq!(cfg.default_env.as_deref(), Some("staging"));
    let out = list_table(&cfg).join("\n");
    assert!(out.contains("staging"));
    assert!(out.contains("yes"));
}

#[test]
fn env_remove_deletes_and_clears_default_when_pointing_to_it() {
    let mut cfg = Config::new();
    cfg.set_env("local".into(), "http://localhost:3000".into(), true);
    assert!(cfg.remove_env("local"));
    assert!(cfg.default_env.is_none());
    let out = list_table(&cfg).join("\n");
    assert!(out.contains("no environments configured"));
}

#[test]
fn env_list_json_shape() {
    let mut cfg = Config::new();
    cfg.set_env("local".into(), "http://localhost:3000".into(), true);
    let arr = listings(&cfg);
    assert_eq!(arr.len(), 1);
    assert_eq!(arr[0].name, "local");
    assert_eq!(arr[0].base_url, "http://localhost:3000");
    assert!(arr[0].is_default);
}
