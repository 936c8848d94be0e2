//! The configuration, read from the values of environment variables.

use vstd::prelude::*;
use vstd::string::*;

use crate::addr::{parse_ip, parse_socket_addr, IpAddr, SocketAddr};
use crate::handler::Handler;
use crate::text::{copy_text, parse_decimal, to_ascii_lowercase, trim_matches};

verus! {

/// The values of the environment variables, `None` where one is not set.
pub struct Env {
    /// `ROOT_DOMAIN`
    pub root_domain: Option<String>,
    /// `LISTEN_ADDR`
    pub listen_addr: Option<String>,
    /// `TTL`
    pub ttl: Option<String>,
    /// `DOCKER_NETWORK`
    pub docker_network: Option<String>,
    /// `FALLBACK_DNS`
    pub fallback_dns: Option<String>,
    /// `DOCKER_CACHE_SECS`
    pub docker_cache_secs: Option<String>,
}

/// Configuration.
#[derive(Debug)]
pub struct Config {
    /// Root domain that is stripped from incoming queries (e.g. "xxx.yy").
    pub root_domain: String,
    /// Address the DNS server listens on (UDP + TCP).
    pub listen_addr: SocketAddr,
    /// TTL for returned records.
    pub ttl: u32,
    /// Preferred Docker network; if a container is attached to it, only
    /// addresses from that network are returned.
    pub prefer_network: Option<String>,
    /// Optional fallback DNS server (e.g. Docker's embedded DNS 127.0.0.11:53).
    pub fallback_dns: Option<SocketAddr>,
    /// How long the container list from the Docker API is cached, in seconds.
    pub cache_secs: u64,
}

/// What is wrong with the environment, or that there is nothing to resolve
/// with.
#[derive(Clone, Copy, Debug, PartialEq, Eq, Structural)]
pub enum ConfigError {
    MissingRootDomain,
    EmptyRootDomain,
    ListenAddr,
    Ttl,
    FallbackDns,
    CacheSecs,
    NothingToResolveWith,
}

/// What a `Config` holds.
pub struct ConfigView {
    pub root_domain: Seq<char>,
    pub listen_addr: SocketAddr,
    pub ttl: u32,
    pub prefer_network: Option<Seq<char>>,
    pub fallback_dns: Option<SocketAddr>,
    pub cache_secs: u64,
}

/// The text of an optional string.
pub open spec fn text_of(s: Option<String>) -> Option<Seq<char>> {
    match s {
        Some(s) => Some(s@),
        None => None,
    }
}

impl View for Config {
    type V = ConfigView;

    open spec fn view(&self) -> ConfigView {
        ConfigView {
            root_domain: self.root_domain@,
            listen_addr: self.listen_addr,
            ttl: self.ttl,
            prefer_network: text_of(self.prefer_network),
            fallback_dns: self.fallback_dns,
            cache_secs: self.cache_secs,
        }
    }
}

/// The root domain: no dots at the ends, lower case.
pub open spec fn root_text(s: Seq<char>) -> Seq<char> {
    crate::text::lower(
        crate::text::trim_back(
            crate::text::trim_front(s, |x: char| x == '.'),
            |x: char| x == '.',
        ),
    )
}

/// The address to listen on: all interfaces and the DNS port by default.
pub open spec fn listen_of(s: Option<Seq<char>>) -> Option<SocketAddr> {
    match s {
        Some(t) => crate::addr::socket_text(t),
        None => crate::addr::socket_text("0.0.0.0:53"@),
    }
}

/// A number of seconds, at most `max`, with a default.
pub open spec fn seconds_of(s: Option<Seq<char>>, max: nat, default: nat) -> Option<nat> {
    match s {
        Some(t) => crate::text::at_most(crate::text::decimal(t), max),
        None => Some(default),
    }
}

/// The fallback server that a text gives: a socket address, or an IP address
/// and the DNS port.
pub open spec fn fallback_text(t: Seq<char>) -> Option<SocketAddr> {
    match crate::addr::socket_text(t) {
        Some(a) => Some(a),
        None => match crate::addr::ip_text(t) {
            Some(ip) => Some(SocketAddr { ip, port: 53, scope_id: 0 }),
            None => None,
        },
    }
}

/// The configuration that the environment gives, or the first thing that is
/// wrong with it.
pub open spec fn config_of(env: Env) -> Result<ConfigView, ConfigError> {
    let listen_addr = listen_of(text_of(env.listen_addr));
    let ttl = seconds_of(text_of(env.ttl), u32::MAX as nat, 30);
    let fallback_dns = match env.fallback_dns {
        Some(t) => fallback_text(t@),
        None => None,
    };
    let cache_secs = seconds_of(text_of(env.docker_cache_secs), u64::MAX as nat, 2);
    if env.root_domain is None {
        Err(ConfigError::MissingRootDomain)
    } else if root_text(env.root_domain->0@).len() == 0 {
        Err(ConfigError::EmptyRootDomain)
    } else if listen_addr is None {
        Err(ConfigError::ListenAddr)
    } else if ttl is None {
        Err(ConfigError::Ttl)
    } else if env.fallback_dns is Some && fallback_dns is None {
        Err(ConfigError::FallbackDns)
    } else if cache_secs is None {
        Err(ConfigError::CacheSecs)
    } else {
        Ok(
            ConfigView {
                root_domain: root_text(env.root_domain->0@),
                listen_addr: listen_addr->0,
                ttl: ttl->0 as u32,
                prefer_network: match env.docker_network {
                    Some(n) => Some(crate::text::lower(n@)),
                    None => None,
                },
                fallback_dns,
                cache_secs: cache_secs->0 as u64,
            },
        )
    }
}

/// `r` is what reading the environment gives.
pub open spec fn is_config_of(env: Env, r: Result<Config, ConfigError>) -> bool {
    match r {
        Ok(c) => config_of(env) == Ok::<ConfigView, ConfigError>(c@),
        Err(e) => config_of(env) == Err::<ConfigView, ConfigError>(e),
    }
}

/// `r` is the handler of a configuration, given whether there is a Docker
/// client; or that there is nothing to resolve with.
pub open spec fn is_handler_of(config: Config, docker: bool, r: Result<Handler, ConfigError>) -> bool {
    match r {
        Ok(h) => {
            &&& docker || config.fallback_dns is Some
            &&& h.root_domain@ == config.root_domain@
            &&& h.ttl == config.ttl
            &&& text_of(h.prefer_network) == text_of(config.prefer_network)
            &&& h.docker == docker
            &&& h.fallback == (config.fallback_dns is Some)
        },
        Err(e) => {
            &&& !docker && config.fallback_dns is None
            &&& e == ConfigError::NothingToResolveWith
        },
    }
}

/// A number of seconds, at most `max`, with a default.
fn read_seconds(s: &Option<String>, max: u64, default: u64) -> (r: Option<u64>)
    ensures
        match r {
            Some(v) => seconds_of(text_of(*s), max as nat, default as nat) == Some(v as nat),
            None => seconds_of(text_of(*s), max as nat, default as nat) is None,
        },
{
    match s {
        Some(t) => parse_decimal(t.as_str(), max),
        None => Some(default),
    }
}

/// The fallback server that a text gives.
pub fn parse_fallback(t: &str) -> (r: Option<SocketAddr>)
    ensures
        r == fallback_text(t@),
{
    match parse_socket_addr(t) {
        Some(a) => Some(a),
        None => match parse_ip(t) {
            Some(ip) => Some(SocketAddr { ip, port: 53, scope_id: 0 }),
            None => None,
        },
    }
}

impl Config {
    /// Reads the configuration from the environment.
    pub fn from_env(env: &Env) -> (r: Result<Config, ConfigError>)
        ensures
            is_config_of(*env, r),
    {
        let root_domain = match &env.root_domain {
            Some(s) => to_ascii_lowercase(trim_matches(s.as_str(), '.')),
            None => {
                return Err(ConfigError::MissingRootDomain);
            },
        };
        if root_domain.as_str().is_empty() {
            return Err(ConfigError::EmptyRootDomain);
        }
        let listen_text = match &env.listen_addr {
            Some(s) => s.as_str(),
            None => "0.0.0.0:53",
        };
        let listen_addr = match parse_socket_addr(listen_text) {
            Some(a) => a,
            None => {
                return Err(ConfigError::ListenAddr);
            },
        };
        let ttl = match read_seconds(&env.ttl, 0xffff_ffff, 30) {
            Some(v) => v as u32,
            None => {
                return Err(ConfigError::Ttl);
            },
        };
        let prefer_network = match &env.docker_network {
            Some(n) => Some(to_ascii_lowercase(n.as_str())),
            None => None,
        };
        let fallback_dns = match &env.fallback_dns {
            Some(t) => match parse_fallback(t.as_str()) {
                Some(a) => Some(a),
                None => {
                    return Err(ConfigError::FallbackDns);
                },
            },
            None => None,
        };
        let cache_secs = match read_seconds(&env.docker_cache_secs, 0xffff_ffff_ffff_ffff, 2) {
            Some(v) => v,
            None => {
                return Err(ConfigError::CacheSecs);
            },
        };
        Ok(Config { root_domain, listen_addr, ttl, prefer_network, fallback_dns, cache_secs })
    }
}

impl Handler {
    /// The handler of a configuration, given whether there is a Docker client.
    /// Something is needed to resolve with.
    pub fn new(config: &Config, docker: bool) -> (r: Result<Handler, ConfigError>)
        ensures
            is_handler_of(*config, docker, r),
    {
        let fallback = config.fallback_dns.is_some();
        if !docker && !fallback {
            return Err(ConfigError::NothingToResolveWith);
        }
        let prefer_network = match &config.prefer_network {
            Some(n) => Some(copy_text(n.as_str())),
            None => None,
        };
        Ok(
            Handler {
                root_domain: copy_text(config.root_domain.as_str()),
                ttl: config.ttl,
                prefer_network,
                docker,
                fallback,
            },
        )
    }
}

/// What a configuration error says.
pub open spec fn error_text(e: ConfigError) -> Seq<char> {
    match e {
        ConfigError::MissingRootDomain =>
            "ROOT_DOMAIN environment variable is required (e.g. ROOT_DOMAIN=xxx.yy)"@,
        ConfigError::EmptyRootDomain => "ROOT_DOMAIN must not be empty"@,
        ConfigError::ListenAddr => "LISTEN_ADDR must be a socket address like 0.0.0.0:53"@,
        ConfigError::Ttl => "TTL must be a number of seconds"@,
        ConfigError::FallbackDns =>
            "FALLBACK_DNS must be an IP or socket address like 127.0.0.11:53"@,
        ConfigError::CacheSecs => "DOCKER_CACHE_SECS must be a number of seconds"@,
        ConfigError::NothingToResolveWith =>
            "neither Docker socket nor FALLBACK_DNS available - nothing to resolve with"@,
    }
}

impl ConfigError {
    /// What the error says.
    pub fn message(&self) -> (r: &'static str)
        ensures
            r@ == error_text(*self),
    {
        match self {
            ConfigError::MissingRootDomain =>
                "ROOT_DOMAIN environment variable is required (e.g. ROOT_DOMAIN=xxx.yy)",
            ConfigError::EmptyRootDomain => "ROOT_DOMAIN must not be empty",
            ConfigError::ListenAddr => "LISTEN_ADDR must be a socket address like 0.0.0.0:53",
            ConfigError::Ttl => "TTL must be a number of seconds",
            ConfigError::FallbackDns =>
                "FALLBACK_DNS must be an IP or socket address like 127.0.0.11:53",
            ConfigError::CacheSecs => "DOCKER_CACHE_SECS must be a number of seconds",
            ConfigError::NothingToResolveWith =>
                "neither Docker socket nor FALLBACK_DNS available - nothing to resolve with",
        }
    }
}

/// A digit between dots.
proof fn zero_is_an_octet(s: Seq<char>)
    requires
        s =~= seq!['0'],
    ensures
        crate::addr::octet(s) == Some(0nat),
{
    assert(s.drop_last() =~= Seq::<char>::empty());
    assert(crate::text::digits_value(s.drop_last()) == 0);
}

/// The default address is all interfaces and port 53.
proof fn default_listen_addr()
    ensures
        crate::addr::socket_text("0.0.0.0:53"@) == Some(
            SocketAddr { ip: IpAddr::V4(0), port: 53, scope_id: 0 },
        ),
{
    reveal_strlit("0.0.0.0:53");
    let s = "0.0.0.0:53"@;
    s.index_of_last_ensures(':');
    assert(s[7] == ':');
    assert(s.index_of_last(':') == Some(7int));
    let port = s.skip(8);
    assert(port =~= seq!['5', '3']);
    assert(port.drop_last() =~= seq!['5']);
    assert(port.drop_last().drop_last() =~= Seq::<char>::empty());
    assert(crate::text::digits_value(port.drop_last().drop_last()) == 0);
    assert(crate::text::digits_value(port.drop_last()) == 5);
    assert(crate::text::digits_value(port) == 53);
    let f0 = s.take(7);
    let f1 = f0.skip(2);
    let f2 = f1.skip(2);
    let f3 = f2.skip(2);
    f0.index_of_first_ensures('.');
    f1.index_of_first_ensures('.');
    f2.index_of_first_ensures('.');
    f3.index_of_first_ensures('.');
    assert(f0[1] == '.' && f1[1] == '.' && f2[1] == '.');
    assert(f3 =~= seq!['0']);
    assert(crate::addr::fields(f3, '.') =~= seq![f3]);
    assert(crate::addr::fields(f2, '.') =~= seq![f2.take(1), f3]);
    assert(crate::addr::fields(f1, '.') =~= seq![f1.take(1), f2.take(1), f3]);
    assert(crate::addr::fields(f0, '.') =~= seq![f0.take(1), f1.take(1), f2.take(1), f3]);
    zero_is_an_octet(f0.take(1));
    zero_is_an_octet(f1.take(1));
    zero_is_an_octet(f2.take(1));
    zero_is_an_octet(f3);
}

/// The root domain is all that has to be set. Without anything else the server
/// listens on port 53 of all interfaces, records live 30 seconds, the
/// container list is kept 2 seconds, and there is neither a preferred network
/// nor a fallback.
pub proof fn defaults(env: Env)
    requires
        env.root_domain is Some,
        root_text(env.root_domain->0@).len() > 0,
        env.listen_addr is None,
        env.ttl is None,
        env.docker_network is None,
        env.fallback_dns is None,
        env.docker_cache_secs is None,
    ensures
        config_of(env) == Ok::<_, ConfigError>(
            ConfigView {
                root_domain: root_text(env.root_domain->0@),
                listen_addr: SocketAddr { ip: IpAddr::V4(0), port: 53, scope_id: 0 },
                ttl: 30,
                prefer_network: None,
                fallback_dns: None,
                cache_secs: 2,
            },
        ),
{
    default_listen_addr();
}

/// What `trim_front` leaves does not begin with what it drops.
proof fn trim_front_is_clean(s: Seq<char>, drop: spec_fn(char) -> bool)
    ensures
        ({
            let t = crate::text::trim_front(s, drop);
            t.len() > 0 ==> !drop(t[0])
        }),
    decreases s.len(),
{
    if s.len() > 0 && drop(s[0]) {
        trim_front_is_clean(s.drop_first(), drop);
    }
}

/// What `trim_back` leaves does not end in what it drops, and begins as it did.
proof fn trim_back_is_clean(s: Seq<char>, drop: spec_fn(char) -> bool)
    ensures
        ({
            let t = crate::text::trim_back(s, drop);
            t.len() > 0 ==> !drop(t.last()) && t[0] == s[0]
        }),
    decreases s.len(),
{
    if s.len() > 0 && drop(s.last()) {
        trim_back_is_clean(s.drop_last(), drop);
    }
}

/// The root domain of a configuration is not empty, is in lower case, and has
/// no dot at either end, however it was written.
pub proof fn root_domain_is_clean(env: Env, c: ConfigView)
    requires
        config_of(env) == Ok::<_, ConfigError>(c),
    ensures
        c.root_domain.len() > 0,
        c.root_domain[0] != '.',
        c.root_domain.last() != '.',
        crate::text::lower(c.root_domain) == c.root_domain,
{
    let s = env.root_domain->0@;
    let drop = |x: char| x == '.';
    let front = crate::text::trim_front(s, drop);
    let both = crate::text::trim_back(front, drop);
    trim_front_is_clean(s, drop);
    trim_back_is_clean(front, drop);
    assert(c.root_domain == crate::text::lower(both));
    assert(c.root_domain[0] == crate::text::lower_char(both[0]));
    assert(c.root_domain.last() == crate::text::lower_char(both.last()));
    assert(front.len() > 0) by {
        if front.len() == 0 {
            assert(both.len() == 0);
        }
    }
    crate::text::lower_is_idempotent(both);
}

/// A number of seconds that is set is the number that is written.
proof fn seconds_are_read_as_written(s: Option<Seq<char>>, max: nat, default: nat, n: nat)
    ensures
        seconds_of(s, max, default) == Some(n) <==> match s {
            Some(t) => n <= max && crate::text::writes(t, n),
            None => n == default,
        },
{
    if let Some(t) = s {
        crate::text::numbers_are_read_as_written(t, n);
    }
}

/// The TTL is the number that `TTL` writes, and 30 where it is not set.
pub proof fn ttl_is_what_is_set(env: Env, c: Config, n: nat)
    requires
        is_config_of(env, Ok(c)),
    ensures
        env.ttl is Some ==> crate::text::writes(env.ttl->0@, c.ttl as nat),
        env.ttl is Some && crate::text::writes(env.ttl->0@, n) ==> c.ttl == n,
        env.ttl is None ==> c.ttl == 30,
{
    seconds_are_read_as_written(text_of(env.ttl), u32::MAX as nat, 30, c.ttl as nat);
    if env.ttl is Some && crate::text::writes(env.ttl->0@, n) {
        crate::text::a_text_writes_one_number(env.ttl->0@, n, c.ttl as nat);
    }
}

/// The cache time is the number that `DOCKER_CACHE_SECS` writes, and 2 where it
/// is not set.
pub proof fn cache_time_is_what_is_set(env: Env, c: Config, n: nat)
    requires
        is_config_of(env, Ok(c)),
    ensures
        env.docker_cache_secs is Some ==> crate::text::writes(
            env.docker_cache_secs->0@,
            c.cache_secs as nat,
        ),
        env.docker_cache_secs is Some && crate::text::writes(env.docker_cache_secs->0@, n)
            ==> c.cache_secs == n,
        env.docker_cache_secs is None ==> c.cache_secs == 2,
{
    seconds_are_read_as_written(
        text_of(env.docker_cache_secs),
        u64::MAX as nat,
        2,
        c.cache_secs as nat,
    );
    if env.docker_cache_secs is Some && crate::text::writes(env.docker_cache_secs->0@, n) {
        crate::text::a_text_writes_one_number(env.docker_cache_secs->0@, n, c.cache_secs as nat);
    }
}

/// The address to listen on is the one that `LISTEN_ADDR` writes, and port 53
/// of all interfaces where it is not set.
pub proof fn listen_address_is_what_is_set(env: Env, c: Config)
    requires
        is_config_of(env, Ok(c)),
    ensures
        env.listen_addr is Some ==> crate::addr::writes_socket(env.listen_addr->0@, c.listen_addr),
        env.listen_addr is None ==> c.listen_addr == (SocketAddr {
            ip: IpAddr::V4(0),
            port: 53,
            scope_id: 0,
        }),
{
    if env.listen_addr is Some {
        crate::addr::sockets_are_read_as_written(env.listen_addr->0@, c.listen_addr);
    }
    default_listen_addr();
}

/// The text of a fallback server: that of a socket address, or that of an IP
/// address, to which the DNS port belongs.
pub open spec fn writes_fallback(t: Seq<char>, a: SocketAddr) -> bool {
    ||| crate::addr::writes_socket(t, a)
    ||| {
        &&& forall|x: SocketAddr| !#[trigger] crate::addr::writes_socket(t, x)
        &&& a.port == 53
        &&& a.scope_id == 0
        &&& match a.ip {
            IpAddr::V4(v) => t == crate::addr::quad_of(v),
            IpAddr::V6(w) => crate::addr::ipv6_text(t) == Some(w) && forall|x: u32|
                t != #[trigger] crate::addr::quad_of(x),
        }
    }
}

/// A text is read as a fallback server if and only if it writes it.
pub proof fn fallback_is_read_as_written(t: Seq<char>, a: SocketAddr)
    ensures
        fallback_text(t) == Some(a) <==> writes_fallback(t, a),
{
    crate::addr::sockets_are_read_as_written(t, a);
    match a.ip {
        IpAddr::V4(v) => crate::addr::ip_is_read_as_written(t, v, 0),
        IpAddr::V6(w) => crate::addr::ip_is_read_as_written(t, 0, w),
    }
    if crate::addr::socket_text(t) is Some {
        crate::addr::sockets_are_read_as_written(t, crate::addr::socket_text(t)->0);
    } else {
        assert forall|x: SocketAddr| !#[trigger] crate::addr::writes_socket(t, x) by {
            crate::addr::sockets_are_read_as_written(t, x);
        }
    }
}

/// There is a fallback server if and only if `FALLBACK_DNS` is set, and it is
/// the one that is written there.
pub proof fn fallback_is_what_is_set(env: Env, c: Config)
    requires
        is_config_of(env, Ok(c)),
    ensures
        c.fallback_dns is Some <==> env.fallback_dns is Some,
        env.fallback_dns is Some ==> writes_fallback(env.fallback_dns->0@, c.fallback_dns->0),
{
    if env.fallback_dns is Some {
        fallback_is_read_as_written(env.fallback_dns->0@, c.fallback_dns->0);
    }
}

/// There is a preferred network if and only if `DOCKER_NETWORK` is set, and it
/// is that name in lower case.
pub proof fn preferred_network_is_what_is_set(env: Env, c: Config)
    requires
        is_config_of(env, Ok(c)),
    ensures
        c.prefer_network is Some <==> env.docker_network is Some,
        env.docker_network is Some ==> c.prefer_network->0@ == crate::text::lower(
            env.docker_network->0@,
        ),
{
}

/// What the root domain is of a text between dots.
proof fn root_between_dots(i: nat, u: Seq<char>, j: nat)
    requires
        u.len() > 0 ==> u[0] != '.' && u.last() != '.',
    ensures
        root_text(crate::text::repeated('.', i) + u + crate::text::repeated('.', j))
            == crate::text::lower(u),
{
    let drop = |x: char| x == '.';
    let a = crate::text::repeated('.', i);
    let b = crate::text::repeated('.', j);
    if u.len() > 0 {
        assert(a + u + b =~= a + (u + b));
        crate::text::front_is_trimmed(a, u + b, drop);
        crate::text::back_is_trimmed(u, b, drop);
    } else {
        let all = a + u + b;
        assert(all =~= all + Seq::<char>::empty());
        crate::text::front_is_trimmed(all, Seq::empty(), drop);
        assert(u =~= Seq::<char>::empty());
    }
}

/// The root domain is what `ROOT_DOMAIN` has between any dots at its ends, in
/// lower case.
pub proof fn root_domain_is_what_is_set(env: Env, c: Config, i: nat, u: Seq<char>, j: nat)
    requires
        is_config_of(env, Ok(c)),
        u.len() > 0,
        u[0] != '.',
        u.last() != '.',
        env.root_domain is Some,
        env.root_domain->0@ == crate::text::repeated('.', i) + u + crate::text::repeated('.', j),
    ensures
        c.root_domain@ == crate::text::lower(u),
{
    root_between_dots(i, u, j);
}

/// `ROOT_DOMAIN` holds something besides dots.
pub open spec fn has_root(t: Seq<char>) -> bool {
    exists|i: int| 0 <= i < t.len() && #[trigger] t[i] != '.'
}

/// A root domain is left over if and only if there is something besides dots.
proof fn root_is_left_over(t: Seq<char>)
    ensures
        root_text(t).len() > 0 <==> has_root(t),
{
    let drop = |x: char| x == '.';
    let front = crate::text::trim_front(t, drop);
    let a = crate::text::front_comes_apart(t, drop);
    let both = crate::text::trim_back(front, drop);
    let b = crate::text::back_comes_apart(front, drop);
    if both.len() > 0 {
        assert(t[a.len() + both.len() - 1] == both.last());
    } else {
        assert(front =~= b);
        assert forall|i: int| 0 <= i < t.len() implies #[trigger] t[i] == '.' by {
            if i < a.len() {
                assert(t[i] == a[i]);
            } else {
                assert(t[i] == b[i - a.len()]);
            }
        }
    }
}

/// A setting is a number of seconds up to `max`, or not set.
pub open spec fn has_seconds(s: Option<String>, max: nat) -> bool {
    s is Some ==> exists|n: nat| n <= max && #[trigger] crate::text::writes(s->0@, n)
}

/// Each fault is reported, the first one where there are several, and without
/// a fault there is a configuration.
pub proof fn faults_are_reported(env: Env, r: Result<Config, ConfigError>)
    requires
        is_config_of(env, r),
    ensures
        ({
            let root = env.root_domain is Some && has_root(env.root_domain->0@);
            let listen = env.listen_addr is Some ==> exists|a: SocketAddr|
                #[trigger] crate::addr::writes_socket(env.listen_addr->0@, a);
            let ttl = has_seconds(env.ttl, u32::MAX as nat);
            let fallback = env.fallback_dns is Some ==> exists|a: SocketAddr|
                #[trigger] writes_fallback(env.fallback_dns->0@, a);
            let cache = has_seconds(env.docker_cache_secs, u64::MAX as nat);
            match r {
                Ok(_) => root && listen && ttl && fallback && cache,
                Err(ConfigError::MissingRootDomain) => env.root_domain is None,
                Err(ConfigError::EmptyRootDomain) => env.root_domain is Some && !root,
                Err(ConfigError::ListenAddr) => root && !listen,
                Err(ConfigError::Ttl) => root && listen && !ttl,
                Err(ConfigError::FallbackDns) => root && listen && ttl && !fallback,
                Err(ConfigError::CacheSecs) => root && listen && ttl && fallback && !cache,
                Err(ConfigError::NothingToResolveWith) => false,
            }
        }),
{
    if env.root_domain is Some {
        root_is_left_over(env.root_domain->0@);
    }
    if env.listen_addr is Some {
        let t = env.listen_addr->0@;
        if crate::addr::socket_text(t) is Some {
            crate::addr::sockets_are_read_as_written(t, crate::addr::socket_text(t)->0);
        } else {
            assert forall|a: SocketAddr| !#[trigger] crate::addr::writes_socket(t, a) by {
                crate::addr::sockets_are_read_as_written(t, a);
            }
        }
    } else {
        default_listen_addr();
    }
    if env.fallback_dns is Some {
        let t = env.fallback_dns->0@;
        if fallback_text(t) is Some {
            fallback_is_read_as_written(t, fallback_text(t)->0);
        } else {
            assert forall|a: SocketAddr| !#[trigger] writes_fallback(t, a) by {
                fallback_is_read_as_written(t, a);
            }
        }
    }
    seconds_are_found(env.ttl, u32::MAX as nat, 30);
    seconds_are_found(env.docker_cache_secs, u64::MAX as nat, 2);
}

/// A number of seconds is found if and only if there is one.
proof fn seconds_are_found(s: Option<String>, max: nat, default: nat)
    ensures
        seconds_of(text_of(s), max, default) is Some <==> has_seconds(s, max),
{
    if let Some(v) = seconds_of(text_of(s), max, default) {
        seconds_are_read_as_written(text_of(s), max, default, v);
    } else {
        assert forall|n: nat| n <= max implies !#[trigger] crate::text::writes(s->0@, n) by {
            seconds_are_read_as_written(text_of(s), max, default, n);
        }
    }
}

/// A server resolves with what it was given: Docker where there is a client,
/// the fallback where it is configured. With neither there is no server.
pub proof fn handler_is_what_is_configured(
    c: Config,
    docker: bool,
    r: Result<Handler, ConfigError>,
)
    requires
        is_handler_of(c, docker, r),
    ensures
        r is Ok <==> docker || c.fallback_dns is Some,
        r is Err ==> r->Err_0 == ConfigError::NothingToResolveWith,
        r matches Ok(h) ==> {
            &&& h.docker == docker
            &&& h.fallback <==> c.fallback_dns is Some
            &&& h.ttl == c.ttl
            &&& h.root_domain@ == c.root_domain@
            &&& h.prefer_network is Some <==> c.prefer_network is Some
            &&& h.prefer_network is Some ==> h.prefer_network->0@ == c.prefer_network->0@
        },
{
}

} // verus!
