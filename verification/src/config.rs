//! Connection settings (`ClickHouseConfig` / `ClickHouseConfigBuilder`).
//!
//! Settings come from the built-in defaults, then from TOML text or from the
//! process environment, and are checked by [`ClickHouseConfig::validate`] before
//! any connection is made. The password never comes from TOML: only the builder
//! and the environment set it. Time spans are held in milliseconds.
use vstd::prelude::*;

use crate::error::{ClickHouseError, ClickHouseResult, ErrorView};
use crate::retry::{default_retry, retry_check, RetryConfig};
use crate::text::{
    chars_eq_ignore_ascii_case, chars_of, decimal, decimal_string, eq_ignore_ascii_case,
    split_on, split_ranges, trim, trim_bounds,
};

verus! {

/// Prefix of every environment variable the crate reads.
pub const ENV_PREFIX: &'static str = "FOUNDATIONX_CLICKHOUSEX_";
/// Environment variable: host name or IP.
pub const ENV_HOST: &'static str = "FOUNDATIONX_CLICKHOUSEX_HOST";
/// Environment variable: HTTP port (primary).
pub const ENV_HTTP_PORT: &'static str = "FOUNDATIONX_CLICKHOUSEX_HTTP_PORT";
/// Environment variable: HTTP port (legacy alias; a conflicting value is refused).
pub const ENV_PORT: &'static str = "FOUNDATIONX_CLICKHOUSEX_PORT";
/// Environment variable: whether to use HTTPS.
pub const ENV_TLS: &'static str = "FOUNDATIONX_CLICKHOUSEX_TLS";
/// Environment variable: PEM CA file.
pub const ENV_TLS_CA_FILE: &'static str = "FOUNDATIONX_CLICKHOUSEX_TLS_CA_FILE";
/// Environment variable: mTLS client certificate PEM file.
pub const ENV_TLS_CLIENT_CERT_FILE: &'static str = "FOUNDATIONX_CLICKHOUSEX_TLS_CLIENT_CERT_FILE";
/// Environment variable: mTLS client key PEM file.
pub const ENV_TLS_CLIENT_KEY_FILE: &'static str = "FOUNDATIONX_CLICKHOUSEX_TLS_CLIENT_KEY_FILE";
/// Environment variable: user name.
pub const ENV_USER: &'static str = "FOUNDATIONX_CLICKHOUSEX_USER";
/// Environment variable: password (one of the only two ways to set it).
pub const ENV_PASSWORD: &'static str = "FOUNDATIONX_CLICKHOUSEX_PASSWORD";
/// Environment variable: default database.
pub const ENV_DATABASE: &'static str = "FOUNDATIONX_CLICKHOUSEX_DATABASE";
/// Environment variable: request timeout (milliseconds).
pub const ENV_TIMEOUT_MS: &'static str = "FOUNDATIONX_CLICKHOUSEX_TIMEOUT_MS";
/// Environment variable: connect (TCP/TLS handshake) timeout (milliseconds).
pub const ENV_CONNECT_TIMEOUT_MS: &'static str = "FOUNDATIONX_CLICKHOUSEX_CONNECT_TIMEOUT_MS";
/// Environment variable: idle connections kept per host.
pub const ENV_MAX_IDLE_PER_HOST: &'static str = "FOUNDATIONX_CLICKHOUSEX_MAX_IDLE_PER_HOST";
/// Environment variable: global in-flight limit.
pub const ENV_MAX_IN_FLIGHT: &'static str = "FOUNDATIONX_CLICKHOUSEX_MAX_IN_FLIGHT";
/// Environment variable: timeout for an in-flight permit (milliseconds).
pub const ENV_ACQUIRE_TIMEOUT_MS: &'static str = "FOUNDATIONX_CLICKHOUSEX_ACQUIRE_TIMEOUT_MS";
/// Environment variable: whether `user` / `password` travel in the URL query.
pub const ENV_AUTH_IN_URL: &'static str = "FOUNDATIONX_CLICKHOUSEX_AUTH_IN_URL";
/// Environment variable: comma-separated hosts allowed to use plain HTTP.
pub const ENV_PLAIN_HTTP_HOSTS: &'static str = "FOUNDATIONX_CLICKHOUSEX_PLAIN_HTTP_HOSTS";

/// Default user name.
pub const DEFAULT_USER: &'static str = "default";
/// Default database.
pub const DEFAULT_DATABASE: &'static str = "default";
/// Default HTTP port.
pub const DEFAULT_HTTP_PORT: u16 = 8123;

/// ClickHouse HTTP client settings.
///
/// All fields are public. `password` is the only secret: it is left out of
/// [`ClickHouseConfig::debug_text`] and is never read from TOML.
#[derive(Clone)]
pub struct ClickHouseConfig {
    /// Host name or IP.
    pub host: String,
    /// HTTP port (default 8123).
    pub http_port: u16,
    /// Whether to use HTTPS (required for hosts that are not loopback).
    pub tls: bool,
    /// Optional PEM CA file.
    pub tls_ca_file: Option<String>,
    /// Optional client certificate PEM file (mTLS).
    pub tls_client_cert_file: Option<String>,
    /// Optional client key PEM file (mTLS).
    pub tls_client_key_file: Option<String>,
    /// User name.
    pub user: String,
    /// Password (secret).
    pub password: String,
    /// Default database.
    pub database: String,
    /// Request timeout, in milliseconds.
    pub timeout: u64,
    /// Connect (TCP/TLS handshake) timeout in milliseconds; `None` leaves only the request timeout.
    pub connect_timeout: Option<u64>,
    /// Idle connections kept per host.
    pub max_idle_per_host: usize,
    /// Global in-flight limit (at least 1).
    pub max_in_flight: usize,
    /// Timeout for an in-flight permit, in milliseconds.
    pub acquire_timeout: u64,
    /// `false`: `Authorization: Basic` header; `true`: `user` / `password` in the URL query.
    pub auth_in_url: bool,
    /// Retry policy for reads.
    pub retry: RetryConfig,
}

/// The model of a [`ClickHouseConfig`].
pub struct ConfigView {
    pub host: Seq<char>,
    pub http_port: u16,
    pub tls: bool,
    pub tls_ca_file: Option<Seq<char>>,
    pub tls_client_cert_file: Option<Seq<char>>,
    pub tls_client_key_file: Option<Seq<char>>,
    pub user: Seq<char>,
    pub password: Seq<char>,
    pub database: Seq<char>,
    pub timeout: u64,
    pub connect_timeout: Option<u64>,
    pub max_idle_per_host: usize,
    pub max_in_flight: usize,
    pub acquire_timeout: u64,
    pub auth_in_url: bool,
    pub retry: RetryConfig,
}

pub open spec fn opt_view(o: Option<String>) -> Option<Seq<char>> {
    match o {
        Some(s) => Some(s@),
        None => None,
    }
}

impl View for ClickHouseConfig {
    type V = ConfigView;

    open spec fn view(&self) -> ConfigView {
        ConfigView {
            host: self.host@,
            http_port: self.http_port,
            tls: self.tls,
            tls_ca_file: opt_view(self.tls_ca_file),
            tls_client_cert_file: opt_view(self.tls_client_cert_file),
            tls_client_key_file: opt_view(self.tls_client_key_file),
            user: self.user@,
            password: self.password@,
            database: self.database@,
            timeout: self.timeout,
            connect_timeout: self.connect_timeout,
            max_idle_per_host: self.max_idle_per_host,
            max_in_flight: self.max_in_flight,
            acquire_timeout: self.acquire_timeout,
            auth_in_url: self.auth_in_url,
            retry: self.retry,
        }
    }
}

/// The built-in defaults: loopback over plain HTTP on port 8123.
pub open spec fn default_config() -> ConfigView {
    ConfigView {
        host: "127.0.0.1"@,
        http_port: 8123,
        tls: false,
        tls_ca_file: None,
        tls_client_cert_file: None,
        tls_client_key_file: None,
        user: "default"@,
        password: Seq::empty(),
        database: "default"@,
        timeout: 10000,
        connect_timeout: None,
        max_idle_per_host: 8,
        max_in_flight: 64,
        acquire_timeout: 5000,
        auth_in_url: false,
        retry: default_retry(),
    }
}

impl Default for ClickHouseConfig {
    fn default() -> (r: Self)
        ensures
            r@ == default_config(),
    {
        ClickHouseConfig {
            host: String::from_str("127.0.0.1"),
            http_port: DEFAULT_HTTP_PORT,
            tls: false,
            tls_ca_file: None,
            tls_client_cert_file: None,
            tls_client_key_file: None,
            user: String::from_str(DEFAULT_USER),
            password: String::new(),
            database: String::from_str(DEFAULT_DATABASE),
            timeout: 10000,
            connect_timeout: None,
            max_idle_per_host: 8,
            max_in_flight: 64,
            acquire_timeout: 5000,
            auth_in_url: false,
            retry: RetryConfig::default(),
        }
    }
}

/// An IP address literal, as the standard library parses one.
#[derive(Clone, Copy, PartialEq, Eq, Debug)]
pub enum IpLiteral {
    V4([u8; 4]),
    V6([u16; 8]),
}

/// The IP address that `s` spells under `<IpAddr as FromStr>::from_str`, if any.
pub uninterp spec fn ip_literal(s: Seq<char>) -> Option<IpLiteral>;

/// Parses an IP address literal with the standard library's `IpAddr` parser.
#[verifier::external_body]
fn parse_ip_literal(s: &str) -> (r: Option<IpLiteral>)
    ensures
        r == ip_literal(s@),
{
    match s.parse::<core::net::IpAddr>() {
        Ok(core::net::IpAddr::V4(v4)) => Some(IpLiteral::V4(v4.octets())),
        Ok(core::net::IpAddr::V6(v6)) => Some(IpLiteral::V6(v6.segments())),
        Err(_) => None,
    }
}

/// `IpAddr::is_loopback`: `127.0.0.0/8` for IPv4, `::1` for IPv6.
pub open spec fn ip_is_loopback(ip: IpLiteral) -> bool {
    match ip {
        IpLiteral::V4(o) => o[0] == 127,
        IpLiteral::V6(g) => g[0] == 0 && g[1] == 0 && g[2] == 0 && g[3] == 0 && g[4] == 0 && g[5]
            == 0 && g[6] == 0 && g[7] == 1,
    }
}

/// `host` without one pair of enclosing square brackets (an IPv6 literal in a URL).
pub open spec fn strip_brackets(h: Seq<char>) -> Seq<char> {
    if h.len() >= 2 && h[0] == '[' && h.last() == ']' {
        h.subrange(1, h.len() - 1)
    } else {
        h
    }
}

/// `localhost` in any ASCII case, or an IP literal in a loopback range.
pub open spec fn host_is_loopback_spec(host: Seq<char>) -> bool {
    let h = strip_brackets(host);
    eq_ignore_ascii_case(h, "localhost"@) || (ip_literal(h) matches Some(ip) && ip_is_loopback(ip))
}

/// Whether the comma-separated allowlist `list` names `host` (trimmed entries, ASCII case ignored).
pub open spec fn plain_http_allowed(host: Seq<char>, list: Option<Seq<char>>) -> bool {
    match list {
        None => false,
        Some(entries) => allowlist_names(entries, host),
    }
}

/// Whether some entry of the comma-separated `entries` names `host`.
pub open spec fn allowlist_names(entries: Seq<char>, host: Seq<char>) -> bool {
    exists|i: int|
        0 <= i < split_on(entries, ',').len() && #[trigger] entry_names(
            split_on(entries, ',')[i],
            host,
        )
}

/// Whether one allowlist entry, trimmed and non-empty, names `host` (ASCII case ignored).
pub open spec fn entry_names(entry: Seq<char>, host: Seq<char>) -> bool {
    trim(entry).len() > 0 && eq_ignore_ascii_case(trim(entry), strip_brackets(host))
}

/// The chars of `cs` with one pair of enclosing square brackets removed.
fn strip_brackets_chars(cs: &[char]) -> (r: &[char])
    ensures
        r@ == strip_brackets(cs@),
{
    if cs.len() >= 2 && cs[0] == '[' && cs[cs.len() - 1] == ']' {
        &cs[1..cs.len() - 1]
    } else {
        cs
    }
}

/// Whether `host` is `localhost` or a loopback IP literal.
fn host_is_loopback(host: &str) -> (r: bool)
    ensures
        r == host_is_loopback_spec(host@),
{
    let cs = chars_of(host);
    let h = strip_brackets_chars(cs.as_slice());
    let localhost = chars_of("localhost");
    if chars_eq_ignore_ascii_case(h, localhost.as_slice()) {
        return true;
    }
    let hs = crate::text::string_from_chars(h);
    match parse_ip_literal(hs.as_str()) {
        Some(ip) => match ip {
            IpLiteral::V4(o) => o[0] == 127,
            IpLiteral::V6(g) => g[0] == 0 && g[1] == 0 && g[2] == 0 && g[3] == 0 && g[4] == 0
                && g[5] == 0 && g[6] == 0 && g[7] == 1,
        },
        None => false,
    }
}

/// Whether the comma-separated allowlist `list` explicitly allows plain HTTP to `host`.
pub fn host_allows_plain_http_with_list(host: &str, list: Option<&str>) -> (r: bool)
    ensures
        r == plain_http_allowed(
            host@,
            match list {
                Some(l) => Some(l@),
                None => None,
            },
        ),
{
    match list {
        None => false,
        Some(entries) => allowlist_allows(host, entries),
    }
}

/// Whether some entry of the comma-separated `entries` names `host`.
fn allowlist_allows(host: &str, entries: &str) -> (r: bool)
    ensures
        r == allowlist_names(entries@, host@),
{
    let hcs = chars_of(host);
    let h = strip_brackets_chars(hcs.as_slice());
    let ecs = chars_of(entries);
    let ranges = split_ranges(ecs.as_slice(), ',');
    let ghost pieces = split_on(entries@, ',');
    let mut k: usize = 0;
    while k < ranges.len()
        invariant
            ecs@ == entries@,
            h@ == strip_brackets(host@),
            pieces == split_on(entries@, ','),
            k <= ranges@.len(),
            ranges@.len() == pieces.len(),
            forall|j: int|
                0 <= j < ranges@.len() ==> (#[trigger] ranges@[j]).0 <= ranges@[j].1 <= ecs@.len()
                    && ecs@.subrange(ranges@[j].0 as int, ranges@[j].1 as int) == pieces[j],
            forall|j: int| 0 <= j < k ==> !#[trigger] entry_names(pieces[j], host@),
        decreases ranges@.len() - k,
    {
        let (a, b) = ranges[k];
        let piece = &ecs.as_slice()[a..b];
        let (ta, tb) = trim_bounds(piece);
        let entry = &piece[ta..tb];
        proof {
            assert(piece@ == pieces[k as int]);
            assert(entry@ == trim(pieces[k as int]));
        }
        if tb > ta && chars_eq_ignore_ascii_case(entry, h) {
            proof {
                let i = k as int;
                assert(entry_names(split_on(entries@, ',')[i], host@));
                assert(0 <= i < split_on(entries@, ',').len());
                assert(exists|i: int|
                    0 <= i < split_on(entries@, ',').len() && #[trigger] entry_names(
                        split_on(entries@, ',')[i],
                        host@,
                    ));
                assert(allowlist_names(entries@, host@));
            }
            return true;
        }
        k = k + 1;
    }
    false
}

/// The steps of [`ClickHouseConfig::validate`], in order; the first that fails decides the error.
pub open spec fn config_check(c: ConfigView, plain_http_hosts: Option<Seq<char>>) -> Result<
    (),
    ErrorView,
> {
    if c.max_in_flight < 1 {
        Err(ErrorView::Config("max_in_flight 必须 ≥ 1"@))
    } else if c.timeout == 0 || c.acquire_timeout == 0 {
        Err(ErrorView::Config("timeout 与 acquire_timeout 必须大于零"@))
    } else if c.connect_timeout == Some(0u64) {
        Err(ErrorView::Config("connect_timeout 必须大于零"@))
    } else if trim(c.host).len() == 0 || c.http_port == 0 {
        Err(ErrorView::Config("host/port 非法"@))
    } else if c.tls_ca_file is Some && !c.tls {
        Err(ErrorView::Config("配置 tls_ca_file 时必须启用 tls"@))
    } else if c.tls_client_cert_file is Some != c.tls_client_key_file is Some {
        Err(ErrorView::Config("tls_client_cert_file 与 tls_client_key_file 必须同时配置"@))
    } else if !c.tls && !host_is_loopback_spec(c.host) && !plain_http_allowed(
        c.host,
        plain_http_hosts,
    ) {
        Err(
            ErrorView::Config(
                "远程 ClickHouse 必须使用 HTTPS（如需明文 HTTP 请显式配置允许名单）"@,
            ),
        )
    } else {
        retry_check(c.retry)
    }
}

/// `Some` view of an optional string slice.
pub open spec fn opt_str_view(o: Option<&str>) -> Option<Seq<char>> {
    match o {
        Some(s) => Some(s@),
        None => None,
    }
}

/// The base URL `scheme://host:port`.
pub open spec fn base_url_spec(c: ConfigView) -> Seq<char> {
    (if c.tls {
        "https"@
    } else {
        "http"@
    }) + "://"@ + c.host + ":"@ + decimal(c.http_port as nat)
}

impl ClickHouseConfig {
    /// Checks the settings before any connection is made.
    ///
    /// `plain_http_hosts` is the value of [`ENV_PLAIN_HTTP_HOSTS`], the explicit allowlist
    /// of hosts that may use plain HTTP although they are not loopback.
    pub fn validate(&self, plain_http_hosts: Option<&str>) -> (r: ClickHouseResult<()>)
        ensures
            r is Ok <==> config_check(self@, opt_str_view(plain_http_hosts)) is Ok,
            r matches Err(e) ==> config_check(self@, opt_str_view(plain_http_hosts)) == Err::<
                (),
                ErrorView,
            >(e@),
    {
        if self.max_in_flight < 1 {
            return Err(ClickHouseError::Config(String::from_str("max_in_flight 必须 ≥ 1")));
        }
        if self.timeout == 0 || self.acquire_timeout == 0 {
            return Err(
                ClickHouseError::Config(String::from_str("timeout 与 acquire_timeout 必须大于零")),
            );
        }
        if let Some(ms) = self.connect_timeout {
            if ms == 0 {
                return Err(ClickHouseError::Config(String::from_str("connect_timeout 必须大于零")));
            }
        }
        let hcs = chars_of(self.host.as_str());
        let (ha, hb) = trim_bounds(hcs.as_slice());
        if ha == hb || self.http_port == 0 {
            return Err(ClickHouseError::Config(String::from_str("host/port 非法")));
        }
        if self.tls_ca_file.is_some() && !self.tls {
            return Err(
                ClickHouseError::Config(String::from_str("配置 tls_ca_file 时必须启用 tls")),
            );
        }
        if self.tls_client_cert_file.is_some() != self.tls_client_key_file.is_some() {
            return Err(
                ClickHouseError::Config(
                    String::from_str("tls_client_cert_file 与 tls_client_key_file 必须同时配置"),
                ),
            );
        }
        if !self.tls && !host_is_loopback(self.host.as_str()) && !host_allows_plain_http_with_list(
            self.host.as_str(),
            plain_http_hosts,
        ) {
            return Err(
                ClickHouseError::Config(
                    String::from_str(
                        "远程 ClickHouse 必须使用 HTTPS（如需明文 HTTP 请显式配置允许名单）",
                    ),
                ),
            );
        }
        self.retry.validate()
    }

    /// A builder that starts from the defaults, exactly as [`ClickHouseConfigBuilder::new`]
    /// does: both have the view `default_config()`, and every setter and `build` depend on
    /// the view alone, so the same chain of calls gives the same result from either.
    pub fn builder() -> (b: ClickHouseConfigBuilder)
        ensures
            b@ == default_config(),
    {
        ClickHouseConfigBuilder::new()
    }

    /// The HTTP(S) base URL, without query or credentials.
    pub fn base_url(&self) -> (r: String)
        ensures
            r@ == base_url_spec(self@),
    {
        let scheme = if self.tls {
            String::from_str("https")
        } else {
            String::from_str("http")
        };
        scheme.concat("://").concat(self.host.as_str()).concat(":").concat(
            decimal_string(self.http_port as u128).as_str(),
        )
    }
}

/// Chained builder for [`ClickHouseConfig`]; the password is set here or from the environment.
#[derive(Clone)]
pub struct ClickHouseConfigBuilder {
    inner: ClickHouseConfig,
}

impl View for ClickHouseConfigBuilder {
    type V = ConfigView;

    closed spec fn view(&self) -> ConfigView {
        self.inner@
    }
}

impl Default for ClickHouseConfigBuilder {
    fn default() -> (b: Self)
        ensures
            b@ == default_config(),
    {
        Self::new()
    }
}

impl ClickHouseConfigBuilder {
    /// Starts from the defaults.
    pub fn new() -> (b: Self)
        ensures
            b@ == default_config(),
    {
        ClickHouseConfigBuilder { inner: ClickHouseConfig::default() }
    }

    /// Starts from an existing configuration.
    pub fn from_config(config: ClickHouseConfig) -> (b: Self)
        ensures
            b@ == config@,
    {
        ClickHouseConfigBuilder { inner: config }
    }

    /// Sets the host name or IP.
    pub fn host(self, host: &str) -> (b: Self)
        ensures
            b@ == (ConfigView { host: host@, ..self@ }),
    {
        let mut s = self;
        s.inner.host = String::from_str(host);
        s
    }

    /// Sets the HTTP port.
    pub fn http_port(self, port: u16) -> (b: Self)
        ensures
            b@ == (ConfigView { http_port: port, ..self@ }),
    {
        let mut s = self;
        s.inner.http_port = port;
        s
    }

    /// Enables or disables HTTPS.
    pub fn tls(self, enabled: bool) -> (b: Self)
        ensures
            b@ == (ConfigView { tls: enabled, ..self@ }),
    {
        let mut s = self;
        s.inner.tls = enabled;
        s
    }

    /// Sets the PEM CA file.
    pub fn tls_ca_file(self, path: &str) -> (b: Self)
        ensures
            b@ == (ConfigView { tls_ca_file: Some(path@), ..self@ }),
    {
        let mut s = self;
        s.inner.tls_ca_file = Some(String::from_str(path));
        s
    }

    /// Sets the mTLS client certificate file.
    pub fn tls_client_cert_file(self, path: &str) -> (b: Self)
        ensures
            b@ == (ConfigView { tls_client_cert_file: Some(path@), ..self@ }),
    {
        let mut s = self;
        s.inner.tls_client_cert_file = Some(String::from_str(path));
        s
    }

    /// Sets the mTLS client key file.
    pub fn tls_client_key_file(self, path: &str) -> (b: Self)
        ensures
            b@ == (ConfigView { tls_client_key_file: Some(path@), ..self@ }),
    {
        let mut s = self;
        s.inner.tls_client_key_file = Some(String::from_str(path));
        s
    }

    /// Sets the user name.
    pub fn user(self, user: &str) -> (b: Self)
        ensures
            b@ == (ConfigView { user: user@, ..self@ }),
    {
        let mut s = self;
        s.inner.user = String::from_str(user);
        s
    }

    /// Sets the password.
    pub fn password(self, password: &str) -> (b: Self)
        ensures
            b@ == (ConfigView { password: password@, ..self@ }),
    {
        let mut s = self;
        s.inner.password = String::from_str(password);
        s
    }

    /// Sets the default database.
    pub fn database(self, database: &str) -> (b: Self)
        ensures
            b@ == (ConfigView { database: database@, ..self@ }),
    {
        let mut s = self;
        s.inner.database = String::from_str(database);
        s
    }

    /// Sets the request timeout (milliseconds).
    pub fn timeout(self, timeout_ms: u64) -> (b: Self)
        ensures
            b@ == (ConfigView { timeout: timeout_ms, ..self@ }),
    {
        let mut s = self;
        s.inner.timeout = timeout_ms;
        s
    }

    /// Sets the connect timeout (milliseconds).
    pub fn connect_timeout(self, timeout_ms: u64) -> (b: Self)
        ensures
            b@ == (ConfigView { connect_timeout: Some(timeout_ms), ..self@ }),
    {
        let mut s = self;
        s.inner.connect_timeout = Some(timeout_ms);
        s
    }

    /// Sets the number of idle connections kept per host.
    pub fn max_idle_per_host(self, max_idle_per_host: usize) -> (b: Self)
        ensures
            b@ == (ConfigView { max_idle_per_host, ..self@ }),
    {
        let mut s = self;
        s.inner.max_idle_per_host = max_idle_per_host;
        s
    }

    /// Sets the global in-flight limit.
    pub fn max_in_flight(self, max_in_flight: usize) -> (b: Self)
        ensures
            b@ == (ConfigView { max_in_flight, ..self@ }),
    {
        let mut s = self;
        s.inner.max_in_flight = max_in_flight;
        s
    }

    /// Sets the timeout for an in-flight permit (milliseconds).
    pub fn acquire_timeout(self, timeout_ms: u64) -> (b: Self)
        ensures
            b@ == (ConfigView { acquire_timeout: timeout_ms, ..self@ }),
    {
        let mut s = self;
        s.inner.acquire_timeout = timeout_ms;
        s
    }

    /// Chooses whether credentials travel in the URL query.
    pub fn auth_in_url(self, enabled: bool) -> (b: Self)
        ensures
            b@ == (ConfigView { auth_in_url: enabled, ..self@ }),
    {
        let mut s = self;
        s.inner.auth_in_url = enabled;
        s
    }

    /// Sets the retry policy for reads.
    pub fn retry(self, retry: RetryConfig) -> (b: Self)
        ensures
            b@ == (ConfigView { retry, ..self@ }),
    {
        let mut s = self;
        s.inner.retry = retry;
        s
    }

    /// Checks the settings (see [`ClickHouseConfig::validate`]) and yields them.
    pub fn build(self, plain_http_hosts: Option<&str>) -> (r: ClickHouseResult<ClickHouseConfig>)
        ensures
            r is Ok <==> config_check(self@, opt_str_view(plain_http_hosts)) is Ok,
            r matches Ok(c) ==> c@ == self@,
            r matches Err(e) ==> config_check(self@, opt_str_view(plain_http_hosts)) == Err::<
                (),
                ErrorView,
            >(e@),
    {
        match self.inner.validate(plain_http_hosts) {
            Ok(()) => Ok(self.inner),
            Err(e) => Err(e),
        }
    }
}

/// The port chosen from the primary variable, the alias and the current value.
pub open spec fn resolved_port(http_port: Option<u16>, port_alias: Option<u16>, default: u16) -> Result<
    u16,
    ErrorView,
> {
    match (http_port, port_alias) {
        (Some(p), Some(a)) => if p != a {
            Err(ErrorView::Config(ENV_HTTP_PORT@ + " 与 "@ + ENV_PORT@ + " 取值冲突"@))
        } else {
            Ok(p)
        },
        (Some(p), None) => Ok(p),
        (None, Some(a)) => Ok(a),
        (None, None) => Ok(default),
    }
}

/// Resolves the HTTP port from the primary variable and its alias; conflicting values fail.
pub fn resolve_http_port(http_port: Option<u16>, port_alias: Option<u16>, default: u16) -> (r:
    ClickHouseResult<u16>)
    ensures
        r matches Ok(p) ==> resolved_port(http_port, port_alias, default) == Ok::<u16, ErrorView>(p),
        r matches Err(e) ==> resolved_port(http_port, port_alias, default) == Err::<u16, ErrorView>(
            e@,
        ),
{
    match (http_port, port_alias) {
        (Some(primary), Some(alias)) => {
            if primary != alias {
                let msg = String::from_str(ENV_HTTP_PORT).concat(" 与 ").concat(ENV_PORT).concat(
                    " 取值冲突",
                );
                Err(ClickHouseError::Config(msg))
            } else {
                Ok(primary)
            }
        },
        (Some(primary), None) => Ok(primary),
        (None, Some(alias)) => Ok(alias),
        (None, None) => Ok(default),
    }
}

/// Plain HTTP to a host that is neither loopback nor on the explicit allowlist never
/// passes validation, whatever the other settings are.
pub proof fn lemma_remote_plain_http_refused(c: ConfigView, plain_http_hosts: Option<Seq<char>>)
    requires
        !c.tls,
        !host_is_loopback_spec(c.host),
        !plain_http_allowed(c.host, plain_http_hosts),
    ensures
        config_check(c, plain_http_hosts) is Err,
{
}

/// What every configuration that passes validation satisfies: TLS material only with TLS,
/// the client certificate and key together, at least one permit, non-zero timeouts and a
/// usable host and port.
pub proof fn lemma_valid_config_shape(c: ConfigView, plain_http_hosts: Option<Seq<char>>)
    requires
        config_check(c, plain_http_hosts) is Ok,
    ensures
        c.tls_ca_file is Some ==> c.tls,
        c.tls_client_cert_file is Some <==> c.tls_client_key_file is Some,
        c.max_in_flight >= 1,
        c.timeout > 0 && c.acquire_timeout > 0,
        c.connect_timeout != Some(0u64),
        c.http_port != 0 && trim(c.host).len() > 0,
{
}

/// Exactly which configurations pass validation: at least one permit, non-zero timeouts
/// (the connect timeout, when set, too), a non-blank host and a non-zero port, a CA file
/// only with TLS, the client certificate and key together, plain HTTP only to a loopback
/// host or an allowed one, and a retry policy with at most `MAX_RETRIES` retries, a cap no
/// smaller than the initial delay and, when enabled, non-zero delays.
pub proof fn lemma_config_check_exact(c: ConfigView, plain_http_hosts: Option<Seq<char>>)
    ensures
        config_check(c, plain_http_hosts) is Ok <==> {
            &&& c.max_in_flight >= 1
            &&& c.timeout > 0 && c.acquire_timeout > 0
            &&& c.connect_timeout != Some(0u64)
            &&& trim(c.host).len() > 0 && c.http_port != 0
            &&& c.tls_ca_file is Some ==> c.tls
            &&& (c.tls_client_cert_file is Some <==> c.tls_client_key_file is Some)
            &&& c.tls || host_is_loopback_spec(c.host) || plain_http_allowed(c.host, plain_http_hosts)
            &&& c.retry.max_retries <= 10
            &&& c.retry.initial_delay <= c.retry.max_delay
            &&& c.retry.enabled ==> c.retry.initial_delay > 0 && c.retry.max_delay > 0
        },
{
    crate::retry::lemma_retry_policies_accepted(c.retry);
}

} // verus!
