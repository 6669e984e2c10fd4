//! Configuration from an environment snapshot, redaction, TOML refusals and the shapes
//! that validation refuses.

use clickhousex::{
    ClickHouseConfig, ClickHouseConfigBuilder, ClickHouseError, ClickHouseResult,
    ENV_ACQUIRE_TIMEOUT_MS, ENV_AUTH_IN_URL, ENV_CONNECT_TIMEOUT_MS, ENV_DATABASE, ENV_HOST,
    ENV_HTTP_PORT, ENV_MAX_IN_FLIGHT, ENV_PASSWORD, ENV_PLAIN_HTTP_HOSTS, ENV_PORT,
    ENV_TIMEOUT_MS, ENV_TLS, ENV_USER,
};

fn vars(pairs: &[(&str, &str)]) -> Vec<(String, String)> {
    pairs
        .iter()
        .map(|(k, v)| ((*k).to_owned(), (*v).to_owned()))
        .collect()
}

fn expect_err<T>(r: ClickHouseResult<T>, why: &str) -> ClickHouseError {
    match r {
        Err(e) => e,
        Ok(_) => panic!("{why}"),
    }
}

fn expect_ok<T>(r: ClickHouseResult<T>, why: &str) -> T {
    match r {
        Ok(v) => v,
        Err(e) => panic!("{why}: {e:?}"),
    }
}

#[test]
fn from_env_uses_defaults_and_overrides() {
    let defaults = expect_ok(ClickHouseConfig::from_env(&[]), "defaults are valid");
    assert_eq!(defaults.host, "127.0.0.1");
    assert_eq!(defaults.http_port, 8123);
    assert_eq!(defaults.user, "default");
    assert_eq!(defaults.max_in_flight, 64);

    let config = expect_ok(
        ClickHouseConfig::from_env(&vars(&[
            (ENV_HOST, "localhost"),
            (ENV_PORT, "9000"),
            (ENV_USER, "writer"),
            (ENV_DATABASE, "analytics"),
            (ENV_TIMEOUT_MS, "1500"),
            (ENV_CONNECT_TIMEOUT_MS, "900"),
            (ENV_MAX_IN_FLIGHT, "16"),
            (ENV_ACQUIRE_TIMEOUT_MS, "700"),
            (ENV_TLS, "no"),
            (ENV_AUTH_IN_URL, "1"),
        ])),
        "overrides are valid",
    );
    assert_eq!(config.host, "localhost");
    assert_eq!(config.http_port, 9000);
    assert_eq!(config.user, "writer");
    assert_eq!(config.database, "analytics");
    assert_eq!(config.timeout, 1500);
    assert_eq!(config.connect_timeout, Some(900));
    assert_eq!(config.max_in_flight, 16);
    assert_eq!(config.acquire_timeout, 700);
    assert!(!config.tls);
    assert!(config.auth_in_url);
}

#[test]
fn from_env_rejects_conflicting_port_variables() {
    let error = expect_err(
        ClickHouseConfig::from_env(&vars(&[
            (ENV_HOST, "localhost"),
            (ENV_HTTP_PORT, "8123"),
            (ENV_PORT, "8443"),
        ])),
        "conflicting ports must be refused",
    );
    assert!(matches!(error, ClickHouseError::Config(_)));
    assert!(error.to_message().contains("冲突"));

    let agreed = expect_ok(
        ClickHouseConfig::from_env(&vars(&[
            (ENV_HOST, "localhost"),
            (ENV_HTTP_PORT, "8443"),
            (ENV_PORT, "8443"),
        ])),
        "equal values do not conflict",
    );
    assert_eq!(agreed.http_port, 8443);
}

#[test]
fn from_env_rejects_illegal_values_without_echoing_them() {
    let error = expect_err(
        ClickHouseConfig::from_env(&vars(&[(ENV_TIMEOUT_MS, "not-a-number")])),
        "an illegal timeout must be refused",
    );
    assert!(error.to_message().contains(ENV_TIMEOUT_MS));
    assert!(!error.to_message().contains("not-a-number"));

    assert!(
        ClickHouseConfig::from_env(&vars(&[(ENV_MAX_IN_FLIGHT, "0")])).is_err(),
        "zero permits must be refused"
    );

    let error = expect_err(
        ClickHouseConfig::from_env(&vars(&[(ENV_HOST, "clickhouse.example.com")])),
        "remote plain HTTP must be refused",
    );
    assert!(error.to_message().contains("HTTPS"));

    expect_ok(
        ClickHouseConfig::from_env(&vars(&[
            (ENV_HOST, "clickhouse.example.com"),
            (ENV_PLAIN_HTTP_HOSTS, "clickhouse.example.com"),
        ])),
        "explicitly allowed plain HTTP passes",
    );
}

#[test]
fn password_is_redacted_in_debug_and_env_only() {
    let config = expect_ok(
        ClickHouseConfig::from_env(&vars(&[(ENV_PASSWORD, "super-secret-value")])),
        "environment configuration",
    );
    assert_eq!(config.password, "super-secret-value");
    let rendered = config.debug_text();
    assert!(rendered.contains("***"), "redacted: {rendered}");
    assert!(!rendered.contains("super-secret-value"), "no password: {rendered}");

    let built = expect_ok(
        ClickHouseConfigBuilder::new().password("another-secret").build(None),
        "build succeeds",
    );
    let rendered = built.debug_text();
    assert!(!rendered.contains("another-secret"));
    assert!(rendered.contains("***"));
}

#[test]
fn toml_rejects_password_and_unknown_fields() {
    let error = expect_err(
        ClickHouseConfig::from_toml(
            "schema_version = 1\nhost = \"127.0.0.1\"\npassword = \"super-secret-value\"\n",
            None,
        ),
        "a non-empty password in TOML must be refused",
    );
    assert!(error.to_message().contains("password"));
    assert!(!error.to_message().contains("super-secret-value"));

    assert!(ClickHouseConfig::from_toml("schema_version = 1\nunknown_field = 1\n", None).is_err());
    assert!(
        ClickHouseConfig::from_toml("host = \"127.0.0.1\"\n", None).is_err(),
        "schema_version is required"
    );

    let config = expect_ok(
        ClickHouseConfig::from_toml(
            "schema_version = 1\nhost = \"127.0.0.1\"\npassword = \"\"\nhttp_port = 8124\n",
            None,
        ),
        "an empty password placeholder passes",
    );
    assert_eq!(config.http_port, 8124);
}

#[test]
fn validate_reports_config_errors_for_illegal_shapes() {
    let cases = [
        ClickHouseConfig {
            host: String::new(),
            ..Default::default()
        },
        ClickHouseConfig {
            http_port: 0,
            ..Default::default()
        },
        ClickHouseConfig {
            max_in_flight: 0,
            ..Default::default()
        },
        ClickHouseConfig {
            timeout: 0,
            ..Default::default()
        },
        ClickHouseConfig {
            acquire_timeout: 0,
            ..Default::default()
        },
        ClickHouseConfig {
            connect_timeout: Some(0),
            ..Default::default()
        },
        ClickHouseConfig {
            host: "db.internal".into(),
            ..Default::default()
        },
        ClickHouseConfig {
            tls_ca_file: Some("/tmp/ca.pem".into()),
            ..Default::default()
        },
        ClickHouseConfig {
            tls_client_cert_file: Some("/tmp/cert.pem".into()),
            ..Default::default()
        },
    ];
    for config in cases {
        let error = expect_err(config.validate(None), "an illegal shape must be refused");
        assert!(matches!(error, ClickHouseError::Config(_)));
        assert!(!error.is_retryable(), "configuration errors are permanent");
    }

    expect_ok(ClickHouseConfig::default().validate(None), "the defaults are valid");
    expect_ok(
        ClickHouseConfig {
            host: "cluster.internal".into(),
            tls: true,
            ..Default::default()
        }
        .validate(None),
        "remote HTTPS is valid",
    );
}

#[test]
fn loopback_hosts_may_use_plain_http() {
    for host in ["127.0.0.1", "127.5.5.5", "localhost", "LocalHost", "[::1]", "::1"] {
        let config = ClickHouseConfig {
            host: host.to_owned(),
            ..Default::default()
        };
        assert!(config.validate(None).is_ok(), "{host} is loopback");
    }
    for host in ["128.0.0.1", "[::2]", "localhost.example.com", "10.0.0.1"] {
        let config = ClickHouseConfig {
            host: host.to_owned(),
            ..Default::default()
        };
        assert!(config.validate(None).is_err(), "{host} is not loopback");
    }
    let allowed = ClickHouseConfig {
        host: "[fd00::5]".to_owned(),
        ..Default::default()
    };
    assert!(allowed.validate(Some(" other , FD00::5 ")).is_ok());
}

#[test]
fn boolean_variables_accept_the_usual_spellings() {
    for (text, expected) in [
        ("1", true),
        ("TRUE", true),
        (" Yes ", true),
        ("on", true),
        ("0", false),
        ("False", false),
        ("NO", false),
        ("off", false),
    ] {
        let config = expect_ok(
            ClickHouseConfig::from_env(&vars(&[(ENV_AUTH_IN_URL, text)])),
            "a boolean spelling",
        );
        assert_eq!(config.auth_in_url, expected, "{text}");
    }
    let error = expect_err(
        ClickHouseConfig::from_env(&vars(&[(ENV_TLS, "maybe")])),
        "an unknown spelling is refused",
    );
    assert!(error.to_message().contains(ENV_TLS));
    assert!(!error.to_message().contains("maybe"));
}
