use mles::config::{parse_proxy_rule, parse_proxy_rules, ServerConfig, DEFAULT_CACHE_SIZE_MB};
use std::path::PathBuf;

#[test]
fn proxy_rule_parsing() {
    assert_eq!(
        parse_proxy_rule("keeper=http://localhost:8080"),
        Some(("keeper".to_string(), "http://localhost:8080".to_string()))
    );
    assert_eq!(
        parse_proxy_rule(" a = http://h:1/x=y "),
        Some(("a".to_string(), "http://h:1/x=y".to_string()))
    );
    assert_eq!(parse_proxy_rule("noequals"), None);
    assert_eq!(parse_proxy_rule("="), Some((String::new(), String::new())));
}

#[test]
fn proxy_rules_keep_order_and_skip_bad() {
    let args = vec!["keeper=http://localhost:8080".to_string(), "bad".to_string(), "verify=http://localhost:8081".to_string()];
    assert_eq!(
        parse_proxy_rules(&args),
        vec![
            ("keeper".to_string(), "http://localhost:8080".to_string()),
            ("verify".to_string(), "http://localhost:8081".to_string())
        ]
    );
}

fn config(cache: Option<usize>, proxies: Vec<(String, String)>) -> ServerConfig {
    ServerConfig {
        domains: vec!["example.com".to_string()],
        email: Vec::new(),
        cache: None,
        limit: 200,
        filelimit: 256,
        wwwroot: PathBuf::from("/www"),
        staging: false,
        port: 443,
        redirect: false,
        max_cache_size_mb: cache,
        proxies,
        rate_limit: None,
    }
}

#[test]
fn cache_size_default_and_configured() {
    assert_eq!(config(None, Vec::new()).cache_size_mb(), DEFAULT_CACHE_SIZE_MB);
    assert_eq!(config(Some(100), Vec::new()).cache_size_mb(), 100);
    assert_eq!(config(Some(0), Vec::new()).cache_size_mb(), 0);
}

#[test]
fn proxies_present() {
    assert!(!config(None, Vec::new()).has_proxies());
    assert!(config(None, vec![("a".to_string(), "b".to_string())]).has_proxies());
    let c = config(None, Vec::new());
    let d = c.clone();
    assert_eq!(d.wwwroot, PathBuf::from("/www"));
}
