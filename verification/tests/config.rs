use docker_dns::addr::{IpAddr, SocketAddr};
use docker_dns::config::{parse_fallback, Config, ConfigError, Env};
use docker_dns::handler::Handler;

fn env() -> Env {
    Env {
        root_domain: Some("xxx.yy".to_string()),
        listen_addr: None,
        ttl: None,
        docker_network: None,
        fallback_dns: None,
        docker_cache_secs: None,
    }
}

fn set(value: &str) -> Option<String> {
    Some(value.to_string())
}

fn v4(ip: u32, port: u16) -> SocketAddr {
    SocketAddr { ip: IpAddr::V4(ip), port, scope_id: 0 }
}

#[test]
fn only_the_root_domain_is_required() {
    let c = Config::from_env(&env()).unwrap();
    assert_eq!(c.root_domain, "xxx.yy");
    assert_eq!(c.listen_addr, v4(0, 53));
    assert_eq!(c.ttl, 30);
    assert_eq!(c.prefer_network, None);
    assert_eq!(c.fallback_dns, None);
    assert_eq!(c.cache_secs, 2);
}

#[test]
fn everything_can_be_set() {
    let c = Config::from_env(&Env {
        root_domain: set("..Xxx.YY."),
        listen_addr: set("127.0.0.1:5353"),
        ttl: set("4294967295"),
        docker_network: set("Front"),
        fallback_dns: set("127.0.0.11"),
        docker_cache_secs: set("18446744073709551615"),
    })
    .unwrap();
    assert_eq!(c.root_domain, "xxx.yy");
    assert_eq!(c.listen_addr, v4(0x7f00_0001, 5353));
    assert_eq!(c.ttl, u32::MAX);
    assert_eq!(c.prefer_network.as_deref(), Some("front"));
    assert_eq!(c.fallback_dns, Some(v4(0x7f00_000b, 53)));
    assert_eq!(c.cache_secs, u64::MAX);
}

fn error(env: Env) -> ConfigError {
    Config::from_env(&env).unwrap_err()
}

#[test]
fn a_root_domain_is_needed() {
    let e = error(Env { root_domain: None, ttl: set("x"), ..env() });
    assert_eq!(e, ConfigError::MissingRootDomain);
    assert_eq!(
        e.message(),
        "ROOT_DOMAIN environment variable is required (e.g. ROOT_DOMAIN=xxx.yy)"
    );
    for empty in ["", ".", "..."] {
        let e = error(Env { root_domain: set(empty), ..env() });
        assert_eq!(e, ConfigError::EmptyRootDomain);
        assert_eq!(e.message(), "ROOT_DOMAIN must not be empty");
    }
}

#[test]
fn a_bad_listen_address_is_reported() {
    for bad in ["", "0.0.0.0", "localhost:53"] {
        let e = error(Env { listen_addr: set(bad), ttl: set("x"), ..env() });
        assert_eq!(e, ConfigError::ListenAddr);
        assert_eq!(e.message(), "LISTEN_ADDR must be a socket address like 0.0.0.0:53");
    }
}

#[test]
fn a_bad_ttl_is_reported() {
    for bad in ["", "x", "4294967296", " 30", "-1"] {
        let e = error(Env { ttl: set(bad), fallback_dns: set("x"), ..env() });
        assert_eq!(e, ConfigError::Ttl);
        assert_eq!(e.message(), "TTL must be a number of seconds");
    }
}

#[test]
fn a_bad_fallback_is_reported() {
    for bad in ["", "dns", "1.2.3.4:x", "[::1]"] {
        let e = error(Env { fallback_dns: set(bad), docker_cache_secs: set("x"), ..env() });
        assert_eq!(e, ConfigError::FallbackDns);
        assert_eq!(
            e.message(),
            "FALLBACK_DNS must be an IP or socket address like 127.0.0.11:53"
        );
    }
}

#[test]
fn a_bad_cache_time_is_reported() {
    for bad in ["", "2s", "18446744073709551616"] {
        let e = error(Env { docker_cache_secs: set(bad), ..env() });
        assert_eq!(e, ConfigError::CacheSecs);
        assert_eq!(e.message(), "DOCKER_CACHE_SECS must be a number of seconds");
    }
}

#[test]
fn a_fallback_has_the_dns_port_by_default() {
    assert_eq!(parse_fallback("1.2.3.4:5353"), Some(v4(0x0102_0304, 5353)));
    assert_eq!(parse_fallback("1.2.3.4"), Some(v4(0x0102_0304, 53)));
    let v6 = |port| Some(SocketAddr { ip: IpAddr::V6(1), port, scope_id: 0 });
    assert_eq!(parse_fallback("::1"), v6(53));
    assert_eq!(parse_fallback("[::1]:5353"), v6(5353));
    assert_eq!(parse_fallback("nope"), None);
}

#[test]
fn something_to_resolve_with_is_needed() {
    let bare = Config::from_env(&env()).unwrap();
    let with_fallback =
        Config::from_env(&Env { fallback_dns: set("::1"), docker_network: set("N"), ..env() }).unwrap();
    let e = Handler::new(&bare, false).err().unwrap();
    assert_eq!(e, ConfigError::NothingToResolveWith);
    assert_eq!(
        e.message(),
        "neither Docker socket nor FALLBACK_DNS available - nothing to resolve with"
    );
    let h = Handler::new(&bare, true).ok().unwrap();
    assert_eq!((h.docker, h.fallback), (true, false));
    let h = Handler::new(&with_fallback, false).ok().unwrap();
    assert_eq!((h.docker, h.fallback), (false, true));
    assert_eq!(h.root_domain, "xxx.yy");
    assert_eq!(h.ttl, 30);
    assert_eq!(h.prefer_network.as_deref(), Some("n"));
}
