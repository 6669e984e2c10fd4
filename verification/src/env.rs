//! Settings from the process environment (variables prefixed `FOUNDATIONX_CLICKHOUSEX_`).
//!
//! The variables are handed in as `(name, value)` pairs, the way the process
//! environment holds them; a value that fails to parse is reported by the name
//! of its variable only, never by the value.
use vstd::prelude::*;

use crate::config::{
    config_check, default_config, resolved_port, resolve_http_port, ClickHouseConfig, ConfigView,
    ENV_ACQUIRE_TIMEOUT_MS, ENV_AUTH_IN_URL, ENV_CONNECT_TIMEOUT_MS, ENV_DATABASE, ENV_HOST,
    ENV_HTTP_PORT, ENV_MAX_IDLE_PER_HOST, ENV_MAX_IN_FLIGHT, ENV_PASSWORD, ENV_PLAIN_HTTP_HOSTS,
    ENV_PORT, ENV_TIMEOUT_MS, ENV_TLS, ENV_TLS_CA_FILE, ENV_TLS_CLIENT_CERT_FILE,
    ENV_TLS_CLIENT_KEY_FILE, ENV_USER,
};
use crate::error::{ClickHouseError, ClickHouseResult, ErrorView};
use crate::text::{
    all_ascii_digits, ascii_lowercase, chars_of, digits_value, is_ascii_digit, parse_unsigned, parse_unsigned_chars, string_from_chars,
    to_ascii_lowercase, trim, trim_bounds, trimmed,
};

verus! {

/// The value of the first pair in `vars` named `name`.
pub open spec fn env_lookup(vars: Seq<(String, String)>, name: Seq<char>) -> Option<Seq<char>>
    decreases vars.len(),
{
    if vars.len() == 0 {
        None
    } else if vars[0].0@ == name {
        Some(vars[0].1@)
    } else {
        env_lookup(vars.drop_first(), name)
    }
}

/// A set, non-empty value (not trimmed).
pub open spec fn env_non_empty(vars: Seq<(String, String)>, name: Seq<char>) -> Option<Seq<char>> {
    match env_lookup(vars, name) {
        Some(v) => if v.len() > 0 {
            Some(v)
        } else {
            None
        },
        None => None,
    }
}

/// A set value, trimmed, when that is non-empty.
pub open spec fn env_trimmed(vars: Seq<(String, String)>, name: Seq<char>) -> Option<Seq<char>> {
    match env_lookup(vars, name) {
        Some(v) => if trim(v).len() > 0 {
            Some(trim(v))
        } else {
            None
        },
        None => None,
    }
}

/// The error for a variable whose value is not acceptable; it names the variable only.
pub open spec fn illegal_value(name: Seq<char>) -> ErrorView {
    ErrorView::Config("环境变量 "@ + name + " 取值非法"@)
}

/// A set value parsed (after trimming) as an unsigned integer of at most `max`.
pub open spec fn env_parsed(vars: Seq<(String, String)>, name: Seq<char>, max: nat) -> Result<
    Option<nat>,
    ErrorView,
> {
    match env_lookup(vars, name) {
        None => Ok(None),
        Some(v) => match parse_unsigned(trim(v), max) {
            Some(n) => Ok(Some(n)),
            None => Err(illegal_value(name)),
        },
    }
}

/// A set, non-blank value read as a boolean: `1/true/yes/on` or `0/false/no/off`, any ASCII case.
pub open spec fn env_bool(vars: Seq<(String, String)>, name: Seq<char>) -> Result<
    Option<bool>,
    ErrorView,
> {
    match env_trimmed(vars, name) {
        None => Ok(None),
        Some(v) => {
            let l = ascii_lowercase(v);
            if l == "1"@ || l == "true"@ || l == "yes"@ || l == "on"@ {
                Ok(Some(true))
            } else if l == "0"@ || l == "false"@ || l == "no"@ || l == "off"@ {
                Ok(Some(false))
            } else {
                Err(illegal_value(name))
            }
        },
    }
}

pub open spec fn or_keep<T>(o: Option<T>, current: T) -> T {
    match o {
        Some(v) => v,
        None => current,
    }
}

pub open spec fn or_keep_some<T>(o: Option<T>, current: Option<T>) -> Option<T> {
    match o {
        Some(v) => Some(v),
        None => current,
    }
}

pub open spec fn as_u16(n: Option<nat>) -> Option<u16> {
    match n {
        Some(v) => Some(v as u16),
        None => None,
    }
}

/// The part of the overrides after the port: the remaining variables, in order.
pub open spec fn env_overrides_rest(c: ConfigView, vars: Seq<(String, String)>) -> Result<
    ConfigView,
    ErrorView,
> {
    match env_bool(vars, ENV_TLS@) {
        Err(e) => Err(e),
        Ok(tls) => {
            let c = ConfigView {
                tls: or_keep(tls, c.tls),
                tls_ca_file: or_keep_some(env_trimmed(vars, ENV_TLS_CA_FILE@), c.tls_ca_file),
                tls_client_cert_file: or_keep_some(
                    env_trimmed(vars, ENV_TLS_CLIENT_CERT_FILE@),
                    c.tls_client_cert_file,
                ),
                tls_client_key_file: or_keep_some(
                    env_trimmed(vars, ENV_TLS_CLIENT_KEY_FILE@),
                    c.tls_client_key_file,
                ),
                user: or_keep(env_non_empty(vars, ENV_USER@), c.user),
                password: or_keep(env_lookup(vars, ENV_PASSWORD@), c.password),
                database: or_keep(env_non_empty(vars, ENV_DATABASE@), c.database),
                ..c
            };
            env_overrides_numbers(c, vars)
        },
    }
}

/// The numeric variables and `AUTH_IN_URL`, in order.
pub open spec fn env_overrides_numbers(c: ConfigView, vars: Seq<(String, String)>) -> Result<
    ConfigView,
    ErrorView,
> {
            match env_parsed(vars, ENV_TIMEOUT_MS@, u64::MAX as nat) {
                Err(e) => Err(e),
                Ok(timeout) => match env_parsed(vars, ENV_CONNECT_TIMEOUT_MS@, u64::MAX as nat) {
                    Err(e) => Err(e),
                    Ok(connect) => match env_parsed(
                        vars,
                        ENV_MAX_IDLE_PER_HOST@,
                        usize::MAX as nat,
                    ) {
                        Err(e) => Err(e),
                        Ok(idle) => match env_parsed(vars, ENV_MAX_IN_FLIGHT@, usize::MAX as nat) {
                            Err(e) => Err(e),
                            Ok(in_flight) => match env_parsed(
                                vars,
                                ENV_ACQUIRE_TIMEOUT_MS@,
                                u64::MAX as nat,
                            ) {
                                Err(e) => Err(e),
                                Ok(acquire) => match env_bool(vars, ENV_AUTH_IN_URL@) {
                                    Err(e) => Err(e),
                                    Ok(auth) => Ok(
                                        ConfigView {
                                            timeout: match timeout {
                                                Some(n) => n as u64,
                                                None => c.timeout,
                                            },
                                            connect_timeout: match connect {
                                                Some(n) => Some(n as u64),
                                                None => c.connect_timeout,
                                            },
                                            max_idle_per_host: match idle {
                                                Some(n) => n as usize,
                                                None => c.max_idle_per_host,
                                            },
                                            max_in_flight: match in_flight {
                                                Some(n) => n as usize,
                                                None => c.max_in_flight,
                                            },
                                            acquire_timeout: match acquire {
                                                Some(n) => n as u64,
                                                None => c.acquire_timeout,
                                            },
                                            auth_in_url: or_keep(auth, c.auth_in_url),
                                            ..c
                                        },
                                    ),
                                },
                            },
                        },
                    },
                },
            }
}

/// `c` with every variable of `vars` applied, in the order the library reads them.
pub open spec fn env_overrides(c: ConfigView, vars: Seq<(String, String)>) -> Result<
    ConfigView,
    ErrorView,
> {
    let c = ConfigView { host: or_keep(env_non_empty(vars, ENV_HOST@), c.host), ..c };
    match env_parsed(vars, ENV_HTTP_PORT@, u16::MAX as nat) {
        Err(e) => Err(e),
        Ok(p) => match env_parsed(vars, ENV_PORT@, u16::MAX as nat) {
            Err(e) => Err(e),
            Ok(a) => match resolved_port(as_u16(p), as_u16(a), c.http_port) {
                Err(e) => Err(e),
                Ok(port) => env_overrides_rest(ConfigView { http_port: port, ..c }, vars),
            },
        },
    }
}

/// What [`from_env`] yields: the defaults with `vars` applied, then checked.
pub open spec fn env_config(vars: Seq<(String, String)>) -> Result<ConfigView, ErrorView> {
    match env_overrides(default_config(), vars) {
        Err(e) => Err(e),
        Ok(c) => match config_check(c, env_lookup(vars, ENV_PLAIN_HTTP_HOSTS@)) {
            Err(e) => Err(e),
            Ok(_) => Ok(c),
        },
    }
}

/// The value of the first pair named `name`.
fn lookup<'a>(vars: &'a [(String, String)], name: &str) -> (r: Option<&'a String>)
    ensures
        match r {
            Some(v) => env_lookup(vars@, name@) == Some(v@),
            None => env_lookup(vars@, name@) is None,
        },
{
    let mut i: usize = 0;
    assert(vars@.skip(0) =~= vars@);
    while i < vars.len()
        invariant
            i <= vars@.len(),
            env_lookup(vars@, name@) == env_lookup(vars@.skip(i as int), name@),
        decreases vars@.len() - i,
    {
        let ghost rest = vars@.skip(i as int);
        proof {
            assert(rest.drop_first() =~= vars@.skip(i + 1));
            assert(rest[0] == vars@[i as int]);
        }
        let n = String::from_str(name);
        if vars[i].0 == n {
            return Some(&vars[i].1);
        }
        i = i + 1;
    }
    None
}

fn illegal_value_error(name: &str) -> (e: ClickHouseError)
    ensures
        e@ == illegal_value(name@),
{
    ClickHouseError::Config(String::from_str("环境变量 ").concat(name).concat(" 取值非法"))
}

/// Reads `name` as an unsigned integer of at most `max`.
fn read_parsed(vars: &[(String, String)], name: &str, max: u64) -> (r: ClickHouseResult<
    Option<u64>,
>)
    ensures
        match r {
            Ok(Some(n)) => env_parsed(vars@, name@, max as nat) == Ok::<Option<nat>, ErrorView>(
                Some(n as nat),
            ),
            Ok(None) => env_parsed(vars@, name@, max as nat) == Ok::<Option<nat>, ErrorView>(None),
            Err(e) => env_parsed(vars@, name@, max as nat) == Err::<Option<nat>, ErrorView>(e@),
        },
{
    match lookup(vars, name) {
        None => Ok(None),
        Some(v) => {
            let cs = chars_of(v.as_str());
            let (a, b) = trim_bounds(cs.as_slice());
            match parse_unsigned_chars(&cs.as_slice()[a..b], max) {
                Some(n) => Ok(Some(n)),
                None => Err(illegal_value_error(name)),
            }
        },
    }
}

/// Reads `name` as a boolean.
fn read_bool(vars: &[(String, String)], name: &str) -> (r: ClickHouseResult<Option<bool>>)
    ensures
        match r {
            Ok(b) => env_bool(vars@, name@) == Ok::<Option<bool>, ErrorView>(b),
            Err(e) => env_bool(vars@, name@) == Err::<Option<bool>, ErrorView>(e@),
        },
{
    let v = match read_trimmed(vars, name) {
        None => {
            return Ok(None);
        },
        Some(v) => v,
    };
    let l = to_ascii_lowercase(v.as_str());
    proof {
        reveal_strlit("1");
        reveal_strlit("true");
        reveal_strlit("yes");
        reveal_strlit("on");
        reveal_strlit("0");
        reveal_strlit("false");
        reveal_strlit("no");
        reveal_strlit("off");
    }
    let t = l == String::from_str("1") || l == String::from_str("true") || l == String::from_str(
        "yes",
    ) || l == String::from_str("on");
    if t {
        return Ok(Some(true));
    }
    let f = l == String::from_str("0") || l == String::from_str("false") || l == String::from_str(
        "no",
    ) || l == String::from_str("off");
    if f {
        return Ok(Some(false));
    }
    Err(illegal_value_error(name))
}

/// Reads `name`, trimmed, when that is non-empty.
fn read_trimmed(vars: &[(String, String)], name: &str) -> (r: Option<String>)
    ensures
        match r {
            Some(s) => env_trimmed(vars@, name@) == Some(s@),
            None => env_trimmed(vars@, name@) is None,
        },
{
    match lookup(vars, name) {
        None => None,
        Some(v) => {
            let t = trimmed(v.as_str());
            if t.as_str().is_empty() {
                None
            } else {
                Some(t)
            }
        },
    }
}

/// Reads `name` when it is set and non-empty.
fn read_non_empty(vars: &[(String, String)], name: &str) -> (r: Option<String>)
    ensures
        match r {
            Some(s) => env_non_empty(vars@, name@) == Some(s@),
            None => env_non_empty(vars@, name@) is None,
        },
{
    match lookup(vars, name) {
        None => None,
        Some(v) => {
            if v.as_str().is_empty() {
                None
            } else {
                Some(v.clone())
            }
        },
    }
}

/// Applies the variables after the port to `config`.
fn apply_rest(config: ClickHouseConfig, vars: &[(String, String)]) -> (r: ClickHouseResult<
    ClickHouseConfig,
>)
    ensures
        match r {
            Ok(c) => env_overrides_rest(config@, vars@) == Ok::<ConfigView, ErrorView>(c@),
            Err(e) => env_overrides_rest(config@, vars@) == Err::<ConfigView, ErrorView>(e@),
        },
{
    let mut c = config;
    match read_bool(vars, ENV_TLS) {
        Err(e) => {
            return Err(e);
        },
        Ok(Some(t)) => {
            c.tls = t;
        },
        Ok(None) => {},
    }
    if let Some(v) = read_trimmed(vars, ENV_TLS_CA_FILE) {
        c.tls_ca_file = Some(v);
    }
    if let Some(v) = read_trimmed(vars, ENV_TLS_CLIENT_CERT_FILE) {
        c.tls_client_cert_file = Some(v);
    }
    if let Some(v) = read_trimmed(vars, ENV_TLS_CLIENT_KEY_FILE) {
        c.tls_client_key_file = Some(v);
    }
    if let Some(v) = read_non_empty(vars, ENV_USER) {
        c.user = v;
    }
    if let Some(v) = lookup(vars, ENV_PASSWORD) {
        c.password = v.clone();
    }
    if let Some(v) = read_non_empty(vars, ENV_DATABASE) {
        c.database = v;
    }
    apply_numbers(c, vars)
}

/// Applies the numeric variables and `AUTH_IN_URL` to `config`.
fn apply_numbers(config: ClickHouseConfig, vars: &[(String, String)]) -> (r: ClickHouseResult<
    ClickHouseConfig,
>)
    ensures
        match r {
            Ok(c) => env_overrides_numbers(config@, vars@) == Ok::<ConfigView, ErrorView>(c@),
            Err(e) => env_overrides_numbers(config@, vars@) == Err::<ConfigView, ErrorView>(e@),
        },
{
    let mut c = config;
    let timeout = match read_parsed(vars, ENV_TIMEOUT_MS, u64::MAX) {
        Err(e) => {
            return Err(e);
        },
        Ok(t) => t,
    };
    let connect = match read_parsed(vars, ENV_CONNECT_TIMEOUT_MS, u64::MAX) {
        Err(e) => {
            return Err(e);
        },
        Ok(t) => t,
    };
    let idle = match read_parsed(vars, ENV_MAX_IDLE_PER_HOST, usize::MAX as u64) {
        Err(e) => {
            return Err(e);
        },
        Ok(t) => t,
    };
    let in_flight = match read_parsed(vars, ENV_MAX_IN_FLIGHT, usize::MAX as u64) {
        Err(e) => {
            return Err(e);
        },
        Ok(t) => t,
    };
    let acquire = match read_parsed(vars, ENV_ACQUIRE_TIMEOUT_MS, u64::MAX) {
        Err(e) => {
            return Err(e);
        },
        Ok(t) => t,
    };
    let auth = match read_bool(vars, ENV_AUTH_IN_URL) {
        Err(e) => {
            return Err(e);
        },
        Ok(t) => t,
    };
    if let Some(n) = timeout {
        c.timeout = n;
    }
    if let Some(n) = connect {
        c.connect_timeout = Some(n);
    }
    if let Some(n) = idle {
        c.max_idle_per_host = n as usize;
    }
    if let Some(n) = in_flight {
        c.max_in_flight = n as usize;
    }
    if let Some(n) = acquire {
        c.acquire_timeout = n;
    }
    if let Some(b) = auth {
        c.auth_in_url = b;
    }
    Ok(c)
}

impl ClickHouseConfig {
    /// Loads the settings from environment variables (prefix `FOUNDATIONX_CLICKHOUSEX_`),
    /// given as `(name, value)` pairs; unset variables keep the defaults. The result is
    /// checked with [`ClickHouseConfig::validate`], whose plain-HTTP allowlist is
    /// `FOUNDATIONX_CLICKHOUSEX_PLAIN_HTTP_HOSTS`.
    pub fn from_env(vars: &[(String, String)]) -> (r: ClickHouseResult<ClickHouseConfig>)
    ensures
        match r {
            Ok(c) => env_config(vars@) == Ok::<ConfigView, ErrorView>(c@),
            Err(e) => env_config(vars@) == Err::<ConfigView, ErrorView>(e@),
        },
{
    let mut c = ClickHouseConfig::default();
    if let Some(v) = read_non_empty(vars, ENV_HOST) {
        c.host = v;
    }
    let p = match read_parsed(vars, ENV_HTTP_PORT, u16::MAX as u64) {
        Err(e) => {
            return Err(e);
        },
        Ok(p) => p,
    };
    let a = match read_parsed(vars, ENV_PORT, u16::MAX as u64) {
        Err(e) => {
            return Err(e);
        },
        Ok(a) => a,
    };
    let p16: Option<u16> = match p {
        Some(n) => Some(n as u16),
        None => None,
    };
    let a16: Option<u16> = match a {
        Some(n) => Some(n as u16),
        None => None,
    };
    match resolve_http_port(p16, a16, c.http_port) {
        Err(e) => {
            return Err(e);
        },
        Ok(port) => {
            c.http_port = port;
        },
    }
    let c = match apply_rest(c, vars) {
        Err(e) => {
            return Err(e);
        },
        Ok(c) => c,
    };
    let plain = lookup(vars, ENV_PLAIN_HTTP_HOSTS);
    let plain_str: Option<&str> = match plain {
        Some(s) => Some(s.as_str()),
        None => None,
    };
    match c.validate(plain_str) {
        Err(e) => Err(e),
        Ok(()) => Ok(c),
    }
}
}

/// The number that the variable `name` spells: its trimmed value, when that is an
/// optional `+` followed by one or more ASCII digits whose value is at most `max`.
pub open spec fn env_number(vars: Seq<(String, String)>, name: Seq<char>, max: nat) -> Option<nat> {
    match env_lookup(vars, name) {
        Some(v) => {
            let t = trim(v);
            let d = if t.len() > 0 && t[0] == '+' {
                t.subrange(1, t.len() as int)
            } else {
                t
            };
            if d.len() > 0 && all_ascii_digits(d) && digits_value(d) <= max {
                Some(digits_value(d))
            } else {
                None
            }
        },
        None => None,
    }
}

proof fn lemma_env_number_parses(vars: Seq<(String, String)>, name: Seq<char>, max: nat)
    ensures
        env_number(vars, name, max) matches Some(n) ==> env_parsed(vars, name, max) == Ok::<
            Option<nat>,
            ErrorView,
        >(Some(n)),
        env_lookup(vars, name) is Some ==> (env_number(vars, name, max) is Some <==> env_parsed(
            vars,
            name,
            max,
        ) is Ok),
        env_lookup(vars, name) is None ==> env_parsed(vars, name, max) == Ok::<
            Option<nat>,
            ErrorView,
        >(None),
{
    if let Some(v) = env_lookup(vars, name) {
        let t = trim(v);
        let d = if t.len() > 0 && t[0] == '+' {
            t.subrange(1, t.len() as int)
        } else {
            t
        };
        if t.len() > 0 && t[0] == '+' {
            assert(d =~= t.drop_first());
        }
        assert(parse_unsigned(t, max) == (if d.len() > 0 && all_ascii_digits(d) && digits_value(d)
            <= max {
            Some(digits_value(d))
        } else {
            None
        }));
        assert(env_parsed(vars, name, max) == match parse_unsigned(t, max) {
            Some(n) => Ok(Some(n)),
            None => Err(illegal_value(name)),
        });
    }
}

/// Every numeric variable that is set to a well-formed number decides its field: when
/// `from_env` succeeds, the timeouts, the idle and in-flight limits and the acquire
/// timeout are the numbers their variables spell.
pub proof fn lemma_env_numbers_set_fields(vars: Seq<(String, String)>)
    ensures
        env_config(vars) matches Ok(c) ==> {
            &&& env_number(vars, ENV_TIMEOUT_MS@, u64::MAX as nat) matches Some(n) ==> c.timeout == n
            &&& env_number(vars, ENV_CONNECT_TIMEOUT_MS@, u64::MAX as nat) matches Some(n)
                ==> c.connect_timeout == Some(n as u64)
            &&& env_number(vars, ENV_MAX_IDLE_PER_HOST@, usize::MAX as nat) matches Some(n)
                ==> c.max_idle_per_host == n
            &&& env_number(vars, ENV_MAX_IN_FLIGHT@, usize::MAX as nat) matches Some(n)
                ==> c.max_in_flight == n
            &&& env_number(vars, ENV_ACQUIRE_TIMEOUT_MS@, u64::MAX as nat) matches Some(n)
                ==> c.acquire_timeout == n
        },
{
    lemma_env_number_parses(vars, ENV_TIMEOUT_MS@, u64::MAX as nat);
    lemma_env_number_parses(vars, ENV_CONNECT_TIMEOUT_MS@, u64::MAX as nat);
    lemma_env_number_parses(vars, ENV_MAX_IDLE_PER_HOST@, usize::MAX as nat);
    lemma_env_number_parses(vars, ENV_MAX_IN_FLIGHT@, usize::MAX as nat);
    lemma_env_number_parses(vars, ENV_ACQUIRE_TIMEOUT_MS@, u64::MAX as nat);
}

/// Whether the variable `name` holds a word meaning `b`: `1`, `true`, `yes`, `on` for
/// true and `0`, `false`, `no`, `off` for false, in any ASCII case, blanks around ignored.
pub open spec fn env_says(vars: Seq<(String, String)>, name: Seq<char>, b: bool) -> bool {
    match env_lookup(vars, name) {
        Some(v) => {
            let w = ascii_lowercase(trim(v));
            if b {
                w == "1"@ || w == "true"@ || w == "yes"@ || w == "on"@
            } else {
                w == "0"@ || w == "false"@ || w == "no"@ || w == "off"@
            }
        },
        None => false,
    }
}

proof fn lemma_env_says_reads(vars: Seq<(String, String)>, name: Seq<char>, b: bool)
    ensures
        env_says(vars, name, b) ==> env_bool(vars, name) == Ok::<Option<bool>, ErrorView>(Some(b)),
{
    reveal_strlit("1");
    reveal_strlit("0");
    reveal_strlit("true");
    reveal_strlit("false");
    reveal_strlit("yes");
    reveal_strlit("no");
    reveal_strlit("on");
    reveal_strlit("off");
    assert("1"@.len() == 1 && "1"@[0] == '1');
    assert("0"@.len() == 1 && "0"@[0] == '0');
    assert("true"@.len() == 4);
    assert("false"@.len() == 5);
    assert("yes"@.len() == 3 && "yes"@[0] == 'y');
    assert("off"@.len() == 3 && "off"@[0] == 'o');
    assert("no"@.len() == 2 && "no"@[0] == 'n');
    assert("on"@.len() == 2 && "on"@[0] == 'o');
    if let Some(v) = env_lookup(vars, name) {
        let t = trim(v);
        let w = ascii_lowercase(t);
        if env_says(vars, name, b) {
            assert(w.len() == t.len());
            assert(t.len() > 0);
            assert(env_trimmed(vars, name) == Some(t));
        }
    }
}

/// Every text, path, flag and port variable that is set decides its field: when `from_env`
/// succeeds, a non-empty host, user or database is taken as it is, a password as it is,
/// a non-blank TLS path trimmed, a boolean word as its value, and a port number as the port.
pub proof fn lemma_env_values_set_fields(vars: Seq<(String, String)>)
    ensures
        env_config(vars) matches Ok(c) ==> {
            &&& (env_lookup(vars, ENV_HOST@) matches Some(v) ==> (v.len() > 0 ==> c.host == v))
            &&& (env_lookup(vars, ENV_USER@) matches Some(v) ==> (v.len() > 0 ==> c.user == v))
            &&& (env_lookup(vars, ENV_DATABASE@) matches Some(v) ==> (v.len() > 0 ==> c.database == v))
            &&& (env_lookup(vars, ENV_PASSWORD@) matches Some(v) ==> c.password == v)
            &&& (env_lookup(vars, ENV_TLS_CA_FILE@) matches Some(v) ==> (trim(v).len() > 0 ==> c.tls_ca_file == Some(trim(v))))
            &&& (env_lookup(vars, ENV_TLS_CLIENT_CERT_FILE@) matches Some(v) ==> (trim(v).len() > 0 ==> c.tls_client_cert_file == Some(trim(v))))
            &&& (env_lookup(vars, ENV_TLS_CLIENT_KEY_FILE@) matches Some(v) ==> (trim(v).len() > 0 ==> c.tls_client_key_file == Some(trim(v))))
            &&& (env_says(vars, ENV_TLS@, true) ==> c.tls)
            &&& (env_says(vars, ENV_TLS@, false) ==> !c.tls)
            &&& (env_says(vars, ENV_AUTH_IN_URL@, true) ==> c.auth_in_url)
            &&& (env_says(vars, ENV_AUTH_IN_URL@, false) ==> !c.auth_in_url)
            &&& (env_number(vars, ENV_HTTP_PORT@, u16::MAX as nat) matches Some(n) ==> c.http_port == n)
            &&& (env_number(vars, ENV_PORT@, u16::MAX as nat) matches Some(n) ==> c.http_port == n)
        },
{
    lemma_env_says_reads(vars, ENV_TLS@, true);
    lemma_env_says_reads(vars, ENV_TLS@, false);
    lemma_env_says_reads(vars, ENV_AUTH_IN_URL@, true);
    lemma_env_says_reads(vars, ENV_AUTH_IN_URL@, false);
    lemma_env_number_parses(vars, ENV_HTTP_PORT@, u16::MAX as nat);
    lemma_env_number_parses(vars, ENV_PORT@, u16::MAX as nat);
}

/// Variables that are not set leave their fields at the defaults.
pub proof fn lemma_env_unset_keep_defaults(vars: Seq<(String, String)>)
    ensures
        env_config(vars) matches Ok(c) ==> {
            let d = default_config();
            &&& env_lookup(vars, ENV_HOST@) is None ==> c.host == d.host
            &&& env_lookup(vars, ENV_HTTP_PORT@) is None && env_lookup(vars, ENV_PORT@) is None
                ==> c.http_port == d.http_port
            &&& env_lookup(vars, ENV_TLS@) is None ==> c.tls == d.tls
            &&& env_lookup(vars, ENV_TLS_CA_FILE@) is None ==> c.tls_ca_file == d.tls_ca_file
            &&& env_lookup(vars, ENV_TLS_CLIENT_CERT_FILE@) is None ==> c.tls_client_cert_file
                == d.tls_client_cert_file
            &&& env_lookup(vars, ENV_TLS_CLIENT_KEY_FILE@) is None ==> c.tls_client_key_file
                == d.tls_client_key_file
            &&& env_lookup(vars, ENV_USER@) is None ==> c.user == d.user
            &&& env_lookup(vars, ENV_PASSWORD@) is None ==> c.password == d.password
            &&& env_lookup(vars, ENV_DATABASE@) is None ==> c.database == d.database
            &&& env_lookup(vars, ENV_TIMEOUT_MS@) is None ==> c.timeout == d.timeout
            &&& env_lookup(vars, ENV_CONNECT_TIMEOUT_MS@) is None ==> c.connect_timeout
                == d.connect_timeout
            &&& env_lookup(vars, ENV_MAX_IDLE_PER_HOST@) is None ==> c.max_idle_per_host
                == d.max_idle_per_host
            &&& env_lookup(vars, ENV_MAX_IN_FLIGHT@) is None ==> c.max_in_flight == d.max_in_flight
            &&& env_lookup(vars, ENV_ACQUIRE_TIMEOUT_MS@) is None ==> c.acquire_timeout
                == d.acquire_timeout
            &&& env_lookup(vars, ENV_AUTH_IN_URL@) is None ==> c.auth_in_url == d.auth_in_url
            &&& c.retry == d.retry
        },
{
}

/// Whether the variable `name`, when set to a non-blank value, holds a boolean word.
pub open spec fn env_bool_ok(vars: Seq<(String, String)>, name: Seq<char>) -> bool {
    env_lookup(vars, name) matches Some(v) ==> (trim(v).len() > 0 ==> env_says(vars, name, true)
        || env_says(vars, name, false))
}

proof fn lemma_env_bool_accepts(vars: Seq<(String, String)>, name: Seq<char>)
    ensures
        env_bool(vars, name) is Ok <==> env_bool_ok(vars, name),
{
    lemma_env_says_reads(vars, name, true);
    lemma_env_says_reads(vars, name, false);
}

/// Exactly which environments give a configuration: every set numeric variable spells a
/// number in its field's range, every non-blank flag variable holds a boolean word, the two
/// port variables agree when both are set, and the configuration they describe passes
/// validation with the plain-HTTP allowlist from the environment.
pub proof fn lemma_env_config_accepts(vars: Seq<(String, String)>)
    ensures
        env_config(vars) is Ok <==> {
            &&& env_lookup(vars, ENV_HTTP_PORT@) is Some ==> env_number(vars, ENV_HTTP_PORT@, u16::MAX as nat) is Some
            &&& env_lookup(vars, ENV_PORT@) is Some ==> env_number(vars, ENV_PORT@, u16::MAX as nat) is Some
            &&& env_lookup(vars, ENV_TIMEOUT_MS@) is Some ==> env_number(vars, ENV_TIMEOUT_MS@, u64::MAX as nat) is Some
            &&& env_lookup(vars, ENV_CONNECT_TIMEOUT_MS@) is Some ==> env_number(vars, ENV_CONNECT_TIMEOUT_MS@, u64::MAX as nat) is Some
            &&& env_lookup(vars, ENV_MAX_IDLE_PER_HOST@) is Some ==> env_number(vars, ENV_MAX_IDLE_PER_HOST@, usize::MAX as nat) is Some
            &&& env_lookup(vars, ENV_MAX_IN_FLIGHT@) is Some ==> env_number(vars, ENV_MAX_IN_FLIGHT@, usize::MAX as nat) is Some
            &&& env_lookup(vars, ENV_ACQUIRE_TIMEOUT_MS@) is Some ==> env_number(vars, ENV_ACQUIRE_TIMEOUT_MS@, u64::MAX as nat) is Some
            &&& env_bool_ok(vars, ENV_TLS@)
            &&& env_bool_ok(vars, ENV_AUTH_IN_URL@)
            &&& (env_number(vars, ENV_HTTP_PORT@, u16::MAX as nat) matches Some(a) ==> (env_number(vars, ENV_PORT@, u16::MAX as nat) matches Some(b) ==> a == b))
            &&& config_check(
                env_overrides(default_config(), vars)->Ok_0,
                env_lookup(vars, ENV_PLAIN_HTTP_HOSTS@),
            ) is Ok
        },
{
    lemma_env_number_parses(vars, ENV_HTTP_PORT@, u16::MAX as nat);
    lemma_env_number_parses(vars, ENV_PORT@, u16::MAX as nat);
    lemma_env_number_parses(vars, ENV_TIMEOUT_MS@, u64::MAX as nat);
    lemma_env_number_parses(vars, ENV_CONNECT_TIMEOUT_MS@, u64::MAX as nat);
    lemma_env_number_parses(vars, ENV_MAX_IDLE_PER_HOST@, usize::MAX as nat);
    lemma_env_number_parses(vars, ENV_MAX_IN_FLIGHT@, usize::MAX as nat);
    lemma_env_number_parses(vars, ENV_ACQUIRE_TIMEOUT_MS@, u64::MAX as nat);
    lemma_env_bool_accepts(vars, ENV_TLS@);
    lemma_env_bool_accepts(vars, ENV_AUTH_IN_URL@);
}

} // verus!
