use nmdns::addr::{IpAddr, Ipv4Addr, Ipv6Addr};
use nmdns::config::{
    default_browse, default_browse_secs, default_cache_tick, default_max_cache_entries,
    default_true, parse_subnet, ConfigError, RawConfig, Resolved, ServiceConfig,
};
use nmdns::exit_code;
use nmdns::preflight::{preflight, PreflightError};
use nmdns::services::ServiceError;

fn strings(v: &toml::Value) -> Vec<String> {
    let list = v.as_array().expect("list");
    list.iter().map(|s| s.as_str().expect("text").to_string()).collect()
}

fn number(v: &toml::Value) -> u64 {
    v.as_integer().expect("number") as u64
}

fn service(v: &toml::Value) -> ServiceConfig {
    let t = v.as_table().expect("service");
    ServiceConfig {
        name: t["name"].as_str().unwrap().to_string(),
        service: t["service"].as_str().unwrap().to_string(),
        port: t["port"].as_integer().unwrap() as u16,
        txt: t.get("txt").map(strings).unwrap_or_default(),
        host: t.get("host").map(|h| h.as_str().unwrap().to_string()),
    }
}

/// What the text of a configuration file says.
fn raw(body: &str) -> RawConfig {
    let t: toml::Table = body.parse().expect("valid TOML");
    let list = |k: &str| t.get(k).map(strings);
    RawConfig {
        interfaces: list("interfaces").expect("interfaces"),
        repeat: t.get("repeat").map_or_else(default_true, |v| v.as_bool().unwrap()),
        answer_from_cache: t
            .get("answer_from_cache")
            .map_or_else(default_true, |v| v.as_bool().unwrap()),
        blacklist: list("blacklist").unwrap_or_default(),
        whitelist: list("whitelist").unwrap_or_default(),
        hostname: t.get("hostname").map(|v| v.as_str().unwrap().to_string()),
        browse: list("browse").unwrap_or_else(default_browse),
        browse_interval_secs: t
            .get("browse_interval_secs")
            .map_or_else(default_browse_secs, number),
        cache_tick_secs: t.get("cache_tick_secs").map_or_else(default_cache_tick, number),
        max_cache_entries: t
            .get("max_cache_entries")
            .map_or_else(default_max_cache_entries, |v| number(v) as usize),
        cache_max_ttl_secs: t.get("cache_max_ttl_secs").map(number),
        services: t
            .get("service")
            .map(|v| v.as_array().unwrap().iter().map(service).collect())
            .unwrap_or_default(),
    }
}

fn parse(body: &str) -> Result<Resolved, ConfigError> {
    Resolved::parse(raw(body))
}

fn v4(a: u8, b: u8, c: u8, d: u8) -> IpAddr {
    IpAddr::V4(Ipv4Addr::new(a, b, c, d))
}

#[test]
fn parse_subnet_ok() {
    let s = parse_subnet("10.0.0.5/8").unwrap();
    assert_eq!(s.net, Ipv4Addr::new(10, 0, 0, 0));
    assert!(s.matches(Ipv4Addr::new(10, 1, 2, 3)));
    assert!(!s.matches(Ipv4Addr::new(11, 0, 0, 1)));
}

#[test]
fn parse_subnet_zero_means_any() {
    let s = parse_subnet("0.0.0.0/0").unwrap();
    assert!(s.matches(Ipv4Addr::new(8, 8, 8, 8)));
}

#[test]
fn parse_subnet_rejects_bad() {
    assert!(parse_subnet("10.0.0.0").is_err());
    assert!(parse_subnet("999.0.0.0/24").is_err());
    assert!(parse_subnet("10.0.0.0/33").is_err());
}

#[test]
fn config_minimal() {
    let r = parse(r#"interfaces = ["eth0"]"#).unwrap();
    assert_eq!(r.interfaces, vec!["eth0"]);
    assert!(r.repeat);
    assert!(r.answer_from_cache);
    assert_eq!(r.browse, vec!["_services._dns-sd._udp.local."]);
    assert!(r.services.is_empty());
}

#[test]
fn config_full() {
    let body = r#"
            interfaces = ["br-lan", "br-iot"]
            blacklist  = ["192.168.5.0/24"]
            hostname   = "router"
            browse     = ["_http._tcp.local."]

            [[service]]
            name = "Admin"
            service = "_http._tcp.local."
            port = 80
            txt = ["path=/"]
        "#;
    let r = parse(body).unwrap();
    assert_eq!(r.blacklist.len(), 1);
    assert_eq!(r.services.len(), 1);
    assert_eq!(r.services[0].port, 80);
}

#[test]
fn config_rejects_no_interfaces() {
    let r = parse("interfaces = []");
    assert!(matches!(r, Err(ConfigError::NoInterfaces)));
}

#[test]
fn config_rejects_black_and_white() {
    let body = r#"
            interfaces = ["eth0"]
            blacklist = ["10.0.0.0/8"]
            whitelist = ["192.168.0.0/16"]
        "#;
    assert!(matches!(parse(body), Err(ConfigError::BlackAndWhite)));
}

#[test]
fn config_rejects_ipv6_cidr() {
    let r = parse_subnet("::1/128");
    assert!(matches!(r, Err(ConfigError::BadSubnet(_, _))));
}

#[test]
fn config_minimal_uses_all_defaults() {
    let r = parse(r#"interfaces = ["eth0"]"#).unwrap();
    assert_eq!(r.interfaces, vec!["eth0".to_string()]);
    assert!(r.repeat, "repeat defaults to true");
    assert!(r.answer_from_cache, "cache responses default to true");
    assert!(r.hostname.is_none());
    assert_eq!(r.browse, vec!["_services._dns-sd._udp.local.".to_string()]);
    assert_eq!(r.browse_interval_secs, 60);
    assert_eq!(r.cache_tick_secs, 5);
    assert!(r.services.is_empty());
    assert!(r.blacklist.is_empty());
    assert!(r.whitelist.is_empty());
}

#[test]
fn config_full_round_trip() {
    let toml = r#"
interfaces           = ["br-lan", "br-iot"]
repeat               = false
answer_from_cache    = false
blacklist            = ["10.0.0.0/8"]
hostname             = "router"
browse               = ["_http._tcp.local."]
browse_interval_secs = 30
cache_tick_secs      = 10

[[service]]
name    = "Admin"
service = "_http._tcp.local."
port    = 80
txt     = ["path=/"]
host    = "router.local."
"#;
    let r = parse(toml).unwrap();
    assert_eq!(r.interfaces.len(), 2);
    assert!(!r.repeat);
    assert!(!r.answer_from_cache);
    assert_eq!(r.hostname.as_deref(), Some("router"));
    assert_eq!(r.browse_interval_secs, 30);
    assert_eq!(r.cache_tick_secs, 10);
    assert_eq!(r.services.len(), 1);
    assert_eq!(r.services[0].name, "Admin");
    assert_eq!(r.services[0].port, 80);
    assert_eq!(r.services[0].txt, vec!["path=/".to_string()]);
    assert_eq!(r.blacklist.len(), 1);
}

#[test]
fn config_filter_allow_source_blacklist() {
    let r = parse(
        r#"
interfaces = ["eth0"]
blacklist  = ["10.0.0.0/8", "192.168.5.0/24"]
"#,
    )
    .unwrap();
    assert!(r.allow_source(v4(8, 8, 8, 8)));
    assert!(!r.allow_source(v4(10, 1, 2, 3)));
    assert!(!r.allow_source(v4(192, 168, 5, 50)));
    assert!(r.allow_source(v4(192, 168, 6, 1)));
}

#[test]
fn config_filter_allow_source_whitelist() {
    let r = parse(
        r#"
interfaces = ["eth0"]
whitelist  = ["192.168.1.0/24"]
"#,
    )
    .unwrap();
    assert!(r.allow_source(v4(192, 168, 1, 100)));
    assert!(!r.allow_source(v4(192, 168, 2, 100)));
}

#[test]
fn config_filter_no_filters_allows_all() {
    let r = parse(r#"interfaces = ["eth0"]"#).unwrap();
    assert!(r.allow_source(v4(1, 1, 1, 1)));
    assert!(r.allow_source(v4(255, 255, 255, 254)));
    assert!(r.allow_source(IpAddr::V6(Ipv6Addr::from_bits(1))));
}

#[test]
fn parse_subnet_handles_zero_mask() {
    let s = parse_subnet("0.0.0.0/0").unwrap();
    assert!(s.matches(Ipv4Addr::new(1, 2, 3, 4)));
    assert!(s.matches(Ipv4Addr::new(254, 254, 254, 254)));
}

#[test]
fn parse_subnet_handles_full_mask() {
    let s = parse_subnet("10.0.0.5/32").unwrap();
    assert!(s.matches(Ipv4Addr::new(10, 0, 0, 5)));
    assert!(!s.matches(Ipv4Addr::new(10, 0, 0, 6)));
}

#[test]
fn parse_subnet_rejects_garbage() {
    assert!(parse_subnet("not/a/subnet").is_err());
    assert!(parse_subnet("10.0.0.0").is_err());
    assert!(parse_subnet("10.0.0.0/abc").is_err());
    assert!(parse_subnet("10.0.0.0/40").is_err());
    assert!(parse_subnet("999.0.0.0/8").is_err());
}

#[test]
fn rfc6762_s11_source_filter_blacklist() {
    let toml = r#"
        interfaces = ["eth0"]
        blacklist = ["192.168.5.0/24"]
    "#;
    let cfg = parse(toml).unwrap();
    assert!(!cfg.allow_source(v4(192, 168, 5, 10)));
    assert!(cfg.allow_source(v4(192, 168, 6, 10)));
}

#[test]
fn rfc6762_s11_source_filter_whitelist() {
    let toml = r#"
        interfaces = ["eth0"]
        whitelist = ["10.0.0.0/8"]
    "#;
    let cfg = parse(toml).unwrap();
    assert!(cfg.allow_source(v4(10, 1, 2, 3)));
    assert!(!cfg.allow_source(v4(192, 168, 1, 1)));
}

#[test]
fn empty_interfaces_rejected() {
    assert!(matches!(parse("interfaces = []\n"), Err(ConfigError::NoInterfaces)));
    assert_eq!(exit_code::CONFIG, 1);
}

#[test]
fn blacklist_and_whitelist_are_mutually_exclusive() {
    let body = r#"
interfaces = ["eth0"]
blacklist  = ["10.0.0.0/8"]
whitelist  = ["192.168.1.0/24"]
"#;
    assert!(matches!(parse(body), Err(ConfigError::BlackAndWhite)));
}

#[test]
fn bad_subnet_in_blacklist_rejected() {
    let body = r#"
interfaces = ["eth0"]
blacklist  = ["not-a-cidr"]
"#;
    match parse(body) {
        Err(ConfigError::BadSubnet(text, why)) => {
            assert_eq!(text, "not-a-cidr");
            assert_eq!(why, "missing /");
        }
        other => panic!("{other:?}"),
    }
}

#[test]
fn bad_subnet_mask_too_large() {
    let body = r#"
interfaces = ["eth0"]
whitelist  = ["10.0.0.0/33"]
"#;
    match parse(body) {
        Err(ConfigError::BadSubnet(_, why)) => assert!(why.contains("mask")),
        other => panic!("{other:?}"),
    }
}

#[test]
fn check_succeeds_for_valid_config() {
    let body = r#"
foreground = true
interfaces = ["lo0"]
repeat = false
hostname = "test-router"
browse = ["_http._tcp.local."]

[[service]]
name    = "Test HTTP"
service = "_http._tcp.local."
port    = 8080
txt     = ["path=/", "version=1"]
"#;
    let cfg = parse(body).unwrap();
    assert!(preflight(&cfg).is_ok());
    assert_eq!(cfg.interfaces.len(), 1);
    assert_eq!(cfg.services.len(), 1);
    assert_eq!(cfg.browse.len(), 1);
}

#[test]
fn check_accepts_blacklist_only() {
    let body = r#"
interfaces = ["eth0"]
blacklist  = ["10.0.0.0/8", "192.168.0.0/16"]
"#;
    assert!(preflight(&parse(body).unwrap()).is_ok());
}

#[test]
fn check_accepts_whitelist_only() {
    let body = r#"
interfaces = ["eth0"]
whitelist  = ["192.168.50.0/24"]
"#;
    assert!(preflight(&parse(body).unwrap()).is_ok());
}

#[test]
fn check_accepts_zero_mask_meaning_any() {
    let body = r#"
interfaces = ["eth0"]
blacklist  = ["0.0.0.0/0"]
"#;
    assert!(preflight(&parse(body).unwrap()).is_ok());
}

#[test]
fn check_accepts_multi_iface_and_services() {
    let body = r#"
interfaces = ["br-lan", "br-iot", "br-guest"]
hostname   = "router"
browse     = ["_services._dns-sd._udp.local.", "_http._tcp.local.", "_ssh._tcp.local."]

[[service]]
name    = "Admin"
service = "_http._tcp.local."
port    = 80

[[service]]
name    = "SSH"
service = "_ssh._tcp.local."
port    = 22

[[service]]
name    = "Custom"
service = "_my-thing._tcp.local."
port    = 1234
host    = "elsewhere.local."
txt     = ["a=1", "b=2"]
"#;
    let cfg = parse(body).unwrap();
    assert!(preflight(&cfg).is_ok());
    assert_eq!(cfg.interfaces.len(), 3);
    assert_eq!(cfg.services.len(), 3);
    assert_eq!(cfg.browse.len(), 3);
}

#[test]
fn every_reason_for_a_bad_subnet() {
    let why = |s: &str| match parse_subnet(s) {
        Err(ConfigError::BadSubnet(text, why)) => {
            assert_eq!(text, s);
            why
        }
        other => panic!("{other:?}"),
    };
    assert_eq!(why("fe80::/10"), "IPv6 not supported (IPv4 CIDR only)");
    assert_eq!(why("10.0.0.0"), "missing /");
    assert_eq!(why("10.0.0/8"), "bad IPv4 address");
    assert_eq!(why("10.0.0.0.0/8"), "bad IPv4 address");
    assert_eq!(why("10.0.0.01/8"), "bad IPv4 address");
    assert_eq!(why("10.0.0.256/8"), "bad IPv4 address");
    assert_eq!(why("/8"), "bad IPv4 address");
    assert_eq!(why("10.0.0.0/"), "bad mask");
    assert_eq!(why("10.0.0.0/+"), "bad mask");
    assert_eq!(why("10.0.0.0/-1"), "bad mask");
    assert_eq!(why("10.0.0.0/8/8"), "bad mask");
    assert_eq!(why("10.0.0.0/4294967296"), "bad mask");
    assert_eq!(why("10.0.0.0/33"), "mask > 32");
}

#[test]
fn masks_may_have_a_sign_and_leading_zeros() {
    let s = parse_subnet("10.20.30.40/+016").unwrap();
    assert_eq!(s.addr, Ipv4Addr::new(10, 20, 30, 40));
    assert_eq!(s.mask, Ipv4Addr::new(255, 255, 0, 0));
    assert_eq!(s.net, Ipv4Addr::new(10, 20, 0, 0));
}

#[test]
fn the_limit_on_cached_lifetimes_is_checked() {
    let with = |n: u64| parse(&format!("interfaces = [\"eth0\"]\ncache_max_ttl_secs = {n}\n"));
    assert!(matches!(with(0), Err(ConfigError::BadCacheMaxTtl(0))));
    assert!(matches!(with(4294967296), Err(ConfigError::BadCacheMaxTtl(4294967296))));
    assert_eq!(with(1).unwrap().cache_max_ttl_secs, Some(1));
    assert_eq!(with(4294967295).unwrap().cache_max_ttl_secs, Some(4294967295));
}

#[test]
fn the_first_bad_subnet_is_reported() {
    let body = r#"
interfaces = ["eth0"]
blacklist  = ["10.0.0.0/8", "x", "y"]
"#;
    match parse(body) {
        Err(ConfigError::BadSubnet(text, _)) => assert_eq!(text, "x"),
        other => panic!("{other:?}"),
    }
}

#[test]
fn ipv6_sources_are_in_no_subnet() {
    let ip = IpAddr::V6(Ipv6Addr::from_bits(1));
    let black = parse("interfaces = [\"eth0\"]\nblacklist = [\"0.0.0.0/0\"]").unwrap();
    assert!(black.allow_source(ip));
    let white = parse("interfaces = [\"eth0\"]\nwhitelist = [\"0.0.0.0/0\"]").unwrap();
    assert!(!white.allow_source(ip));
}

#[test]
fn preflight_reports_bad_services_and_targets() {
    let bad_service = r#"
interfaces = ["eth0"]
browse     = ["a..b."]

[[service]]
name    = "Admin"
service = "a..b."
port    = 80
"#;
    assert!(matches!(
        preflight(&parse(bad_service).unwrap()),
        Err(PreflightError::Service(ServiceError::BadServiceType(s, _))) if s == "a..b."
    ));
    let bad_target = "interfaces = [\"eth0\"]\nbrowse = [\"_http._tcp.local.\", \"a..b.\"]\n";
    assert!(matches!(
        preflight(&parse(bad_target).unwrap()),
        Err(PreflightError::Browse(s, _)) if s == "a..b."
    ));
}

#[test]
fn defaults_of_the_configuration() {
    assert!(default_true());
    assert_eq!(default_browse_secs(), 60);
    assert_eq!(default_browse(), vec!["_services._dns-sd._udp.local."]);
    assert_eq!(default_cache_tick(), 5);
    assert_eq!(default_max_cache_entries(), 4096);
}

#[test]
fn exit_codes_are_grouped_by_phase() {
    assert_eq!(exit_code::OK, 0);
    assert_eq!(exit_code::USAGE, 2);
    assert_eq!(exit_code::CONFIG_VALIDATION, 11);
    assert_eq!(exit_code::ALREADY_RUNNING, 12);
    assert_eq!(exit_code::DAEMONIZE, 13);
    assert_eq!(exit_code::RUNTIME, 14);
    assert_eq!(exit_code::INTERFACE_SETUP, 20);
    assert_eq!(exit_code::PRIVILEGE_DROP, 21);
    assert_eq!(exit_code::SERVICE_RECORDS, 22);
}
