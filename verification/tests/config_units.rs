//! Configuration: defaults, TOML, validation, redaction, port alias and builder.

use clickhousex::config::{host_allows_plain_http_with_list, resolve_http_port};
use clickhousex::{
    ClickHouseConfig, ClickHouseConfigBuilder, ClickHouseError, ClickHouseResult, DEFAULT_DATABASE,
    DEFAULT_HTTP_PORT, DEFAULT_USER, ENV_DATABASE, ENV_TIMEOUT_MS,
};

fn toml(text: &str) -> ClickHouseResult<ClickHouseConfig> {
    ClickHouseConfig::from_toml(text, None)
}

fn expect_err<T>(r: ClickHouseResult<T>, why: &str) -> ClickHouseError {
    match r {
        Err(e) => e,
        Ok(_) => panic!("{why}"),
    }
}

fn expect_ok<T>(r: ClickHouseResult<T>, why: &str) -> T {
    match r {
        Ok(v) => v,
        Err(e) => panic!("{why}: {e:?}"),
    }
}

#[test]
fn default_values_are_loopback_http() {
    let config = ClickHouseConfig::default();
    assert_eq!(config.host, "127.0.0.1");
    assert_eq!(config.http_port, DEFAULT_HTTP_PORT);
    assert_eq!(config.user, DEFAULT_USER);
    assert_eq!(config.database, DEFAULT_DATABASE);
    assert!(config.password.is_empty());
    assert_eq!(config.base_url(), "http://127.0.0.1:8123");
    expect_ok(config.validate(None), "the defaults must be valid");
}

#[test]
fn toml_parses_flat_fields_and_port_alias() {
    let config = expect_ok(
        toml(
            r#"
schema_version = 1
host = "10.0.0.5"
port = 8443
tls = true
user = "writer"
database = "analytics"
timeout_ms = 15000
connect_timeout_ms = 800
max_in_flight = 32
acquire_timeout_ms = 2500
auth_in_url = true
"#,
        ),
        "TOML must parse",
    );
    assert_eq!(config.host, "10.0.0.5");
    assert_eq!(config.http_port, 8443);
    assert!(config.tls);
    assert_eq!(config.user, "writer");
    assert_eq!(config.database, "analytics");
    assert_eq!(config.timeout, 15000);
    assert_eq!(config.connect_timeout, Some(800));
    assert_eq!(config.acquire_timeout, 2500);
    assert_eq!(config.max_in_flight, 32);
    assert!(config.auth_in_url);
    assert!(config.password.is_empty());
}

#[test]
fn toml_rejects_unsupported_schema_version() {
    let error = expect_err(
        toml("schema_version = 99\nhost = \"127.0.0.1\"\n"),
        "must be refused",
    );
    assert!(matches!(error, ClickHouseError::Config(_)));
    assert!(error.to_message().contains("schema_version"));
}

#[test]
fn toml_requires_schema_version_and_rejects_unknown_fields() {
    assert!(toml("host = \"127.0.0.1\"\n").is_err());
    assert!(toml("schema_version = 1\nsink_id = \"analytics\"\n").is_err());
}

#[test]
fn toml_rejects_non_empty_password_without_echoing_it() {
    let error = expect_err(
        toml("schema_version = 1\nhost = \"127.0.0.1\"\npassword = \"hunter2\"\n"),
        "a non-empty password must be refused",
    );
    assert!(error.to_message().contains("password"));
    assert!(
        !error.to_message().contains("hunter2"),
        "the error must not echo the password"
    );
}

#[test]
fn toml_allows_empty_password_placeholder() {
    let config = expect_ok(
        toml("schema_version = 1\npassword = \"\"\n"),
        "an empty placeholder passes",
    );
    assert!(config.password.is_empty());
}

#[test]
fn debug_redacts_password() {
    let config = expect_ok(
        ClickHouseConfig::builder().password("secret-value").build(None),
        "valid configuration",
    );
    let rendered = config.debug_text();
    assert!(rendered.contains("***"));
    assert!(!rendered.contains("secret-value"));
}

#[test]
fn validate_rejects_zero_capacity_and_zero_timeout() {
    let zero_in_flight = ClickHouseConfig {
        max_in_flight: 0,
        ..Default::default()
    };
    assert!(expect_err(zero_in_flight.validate(None), "zero permits must be refused")
        .to_message()
        .contains("max_in_flight"));

    let zero_timeout = ClickHouseConfig {
        timeout: 0,
        ..Default::default()
    };
    assert!(zero_timeout.validate(None).is_err());

    let zero_acquire = ClickHouseConfig {
        acquire_timeout: 0,
        ..Default::default()
    };
    assert!(zero_acquire.validate(None).is_err());

    let zero_connect = ClickHouseConfig {
        connect_timeout: Some(0),
        ..Default::default()
    };
    assert!(zero_connect.validate(None).is_err());

    let empty_host = ClickHouseConfig {
        host: "  ".into(),
        ..Default::default()
    };
    assert!(empty_host.validate(None).is_err());
}

#[test]
fn remote_plain_http_fails_closed_unless_allowlisted() {
    let remote = ClickHouseConfig {
        host: "clickhouse.example.com".into(),
        ..Default::default()
    };
    assert!(remote.validate(None).is_err());

    assert!(host_allows_plain_http_with_list(
        "clickhouse",
        Some("clickhouse,localhost")
    ));
    assert!(!host_allows_plain_http_with_list(
        "clickhouse.example.com",
        Some("clickhouse")
    ));
    assert!(!host_allows_plain_http_with_list("clickhouse", None));

    let https = ClickHouseConfig {
        host: "clickhouse.example.com".into(),
        http_port: 8443,
        tls: true,
        ..Default::default()
    };
    expect_ok(https.validate(None), "remote HTTPS must pass");
    assert_eq!(https.base_url(), "https://clickhouse.example.com:8443");
}

#[test]
fn ca_file_requires_tls_and_mtls_pair_is_enforced() {
    let ca_without_tls = ClickHouseConfig {
        tls_ca_file: Some("/tmp/ca.pem".into()),
        ..Default::default()
    };
    assert!(ca_without_tls.validate(None).is_err());

    let cert_only = ClickHouseConfig {
        tls_client_cert_file: Some("/tmp/cert.pem".into()),
        ..Default::default()
    };
    assert!(cert_only.validate(None).is_err());

    let key_only = ClickHouseConfig {
        tls_client_key_file: Some("/tmp/key.pem".into()),
        ..Default::default()
    };
    assert!(key_only.validate(None).is_err());

    let pair = ClickHouseConfig {
        tls_client_cert_file: Some("/tmp/cert.pem".into()),
        tls_client_key_file: Some("/tmp/key.pem".into()),
        ..Default::default()
    };
    expect_ok(pair.validate(None), "cert + key together pass");
}

#[test]
fn resolve_http_port_handles_alias_and_conflict() {
    assert_eq!(expect_ok(resolve_http_port(None, None, 8123), "default port"), 8123);
    assert_eq!(
        expect_ok(resolve_http_port(Some(9440), None, 8123), "primary wins"),
        9440
    );
    assert_eq!(
        expect_ok(resolve_http_port(None, Some(8443), 8123), "alias"),
        8443
    );
    assert_eq!(
        expect_ok(resolve_http_port(Some(9000), Some(9000), 8123), "equal values agree"),
        9000
    );
    let conflict = expect_err(
        resolve_http_port(Some(8123), Some(8443), 8123),
        "a conflict must be refused",
    );
    assert!(conflict.to_message().contains("冲突"));
}

#[test]
fn env_parsed_reports_variable_name_without_echoing_value() {
    let vars = vec![(ENV_TIMEOUT_MS.to_owned(), "secret-not-a-number".to_owned())];
    let error = expect_err(ClickHouseConfig::from_env(&vars), "an illegal number must be refused");
    assert!(error.to_message().contains(ENV_TIMEOUT_MS));
    assert!(!error.to_message().contains("secret-not-a-number"));
}

#[test]
fn from_toml_does_not_read_env_overrides() {
    // the TOML reader takes no environment at all: only the document decides
    let config = expect_ok(
        toml("schema_version = 1\ndatabase = \"from_toml_database\"\n"),
        "TOML parses",
    );
    assert_eq!(config.database, "from_toml_database");
    let vars = vec![(ENV_DATABASE.to_owned(), "from_env_database".to_owned())];
    let from_vars = expect_ok(ClickHouseConfig::from_env(&vars), "environment snapshot");
    assert_eq!(from_vars.database, "from_env_database");
}

#[test]
fn builder_overrides_and_builds() {
    let config = expect_ok(
        ClickHouseConfig::builder()
            .host("127.0.0.1")
            .http_port(9000)
            .database("analytics")
            .user("writer")
            .password("p")
            .max_in_flight(4)
            .max_idle_per_host(2)
            .timeout(500)
            .acquire_timeout(100)
            .auth_in_url(true)
            .build(None),
        "build must succeed",
    );
    assert_eq!(config.base_url(), "http://127.0.0.1:9000");
    assert_eq!(config.max_in_flight, 4);
    assert!(config.auth_in_url);

    let rebuilt = expect_ok(
        ClickHouseConfigBuilder::from_config(config).build(None),
        "rebuild",
    );
    assert_eq!(rebuilt.database, "analytics");
}

#[test]
fn builder_rejects_invalid_config() {
    let error = expect_err(
        ClickHouseConfig::builder().host("").build(None),
        "an empty host must be refused",
    );
    assert!(!error.is_retryable(), "configuration errors are permanent");
}
