//! Boundary cases of the pure functions and of the configuration surface.

use clickhousex::config::ClickHouseConfigBuilder;
use clickhousex::pool::{PoolCounters, CLIENT_PERMITS};
use clickhousex::sql::validate_params;
use clickhousex::{
    build_query_url, chunk_ranges, parse_tab_separated_rows, BatchInsertOptions, ClickHouseConfig,
    ClickHouseError, ClickHouseResult, DEFAULT_DATABASE, DEFAULT_HTTP_PORT, DEFAULT_USER,
    ENV_PREFIX,
};

fn expect_ok<T>(r: ClickHouseResult<T>, why: &str) -> T {
    match r {
        Ok(v) => v,
        Err(e) => panic!("{why}: {e:?}"),
    }
}

fn expect_err<T>(r: ClickHouseResult<T>, why: &str) -> ClickHouseError {
    match r {
        Err(e) => e,
        Ok(_) => panic!("{why}"),
    }
}

#[test]
fn zero_rows_per_chunk_is_raised_to_one() {
    assert_eq!(chunk_ranges(2, 0), vec![(0, 1), (1, 2)]);
    assert_eq!(chunk_ranges(1, 0), vec![(0, 1)]);
}

#[test]
fn tab_separated_boundaries() {
    assert_eq!(
        parse_tab_separated_rows("a\t\n"),
        vec![vec!["a".to_owned(), String::new()]],
        "a trailing empty column stays as the second column"
    );
    assert_eq!(
        parse_tab_separated_rows("a\tb\r\n"),
        vec![vec!["a".to_owned(), "b".to_owned()]],
        "a CRLF line end must not bring \\r into a cell"
    );
    assert!(parse_tab_separated_rows("\n\n").is_empty(), "blank lines are skipped");
    assert!(parse_tab_separated_rows("").is_empty());
}

#[test]
fn chunk_ranges_boundaries() {
    assert!(chunk_ranges(0, 10).is_empty(), "no input, no chunk");
    assert_eq!(chunk_ranges(5, 5), vec![(0, 5)], "exact division leaves no empty tail");
    assert_eq!(chunk_ranges(5, 100), vec![(0, 5)], "a limit over the total gives one chunk");
    assert_eq!(chunk_ranges(6, 3), vec![(0, 3), (3, 6)]);
    assert_eq!(chunk_ranges(7, 3), vec![(0, 3), (3, 6), (6, 7)]);
}

#[test]
fn parse_tab_separated_rows_splits_columns_and_skips_blank_lines() {
    let rows = parse_tab_separated_rows("1\tfoo\n\n2\tbar\tbaz\n");
    assert_eq!(
        rows,
        vec![
            vec!["1".to_owned(), "foo".to_owned()],
            vec!["2".to_owned(), "bar".to_owned(), "baz".to_owned()],
        ]
    );
    assert!(parse_tab_separated_rows("").is_empty());
    assert!(parse_tab_separated_rows("\n\n").is_empty());
    // a single column (no tab) is a row too
    assert_eq!(parse_tab_separated_rows("42\n"), vec![vec!["42".to_owned()]]);
}

#[test]
fn chunk_ranges_covers_boundaries() {
    assert!(chunk_ranges(0, 4).is_empty());
    assert_eq!(chunk_ranges(4, 4), vec![(0, 4)]);
    assert_eq!(chunk_ranges(4, 5), vec![(0, 4)]);
    assert_eq!(chunk_ranges(5, 2), vec![(0, 2), (2, 4), (4, 5)]);
    assert_eq!(chunk_ranges(3, 0), vec![(0, 1), (1, 2), (2, 3)], "0 is raised to 1");

    // the chunks cover every index once, without overlap
    let covered: usize = chunk_ranges(97, 7)
        .iter()
        .map(|(start, end)| end - start)
        .sum();
    assert_eq!(covered, 97);
}

#[test]
fn build_query_url_selects_database_and_arguments() {
    let config = expect_ok(
        ClickHouseConfig::builder()
            .host("127.0.0.1")
            .http_port(8123)
            .database("analytics")
            .build(None),
        "valid configuration",
    );
    let url = expect_ok(
        build_query_url(&config, &[("id", "7"), ("name", "a b")]),
        "URL",
    );
    assert!(url.starts_with("http://127.0.0.1:8123/?"), "url={url}");
    assert!(url.contains("database=analytics"));
    assert!(url.contains("param_id=7"));
    assert!(
        url.contains("param_name=a+b") || url.contains("param_name=a%20b"),
        "url={url}"
    );
    assert!(!url.contains("password"));

    let url_auth = expect_ok(
        build_query_url(
            &expect_ok(
                ClickHouseConfig::builder()
                    .host("127.0.0.1")
                    .user("writer")
                    .password("s3cret")
                    .auth_in_url(true)
                    .build(None),
                "valid configuration",
            ),
            &[],
        ),
        "URL",
    );
    assert!(url_auth.contains("user=writer"));
    assert!(url_auth.contains("password=s3cret"));

    let error = expect_err(
        build_query_url(&config, &[("bad name", "1")]),
        "an illegal parameter name must be refused",
    );
    assert!(matches!(error, ClickHouseError::Invalid(_)));
}

fn transient_matrix() {
    let retryable = [
        ClickHouseError::Connection("drop".to_owned()),
        ClickHouseError::Unavailable("429".to_owned()),
        ClickHouseError::Timeout("t".to_owned()),
        ClickHouseError::Io(std::io::Error::other("reset")),
    ];
    for error in retryable {
        assert!(error.is_retryable(), "{error:?} should be retryable");
    }

    let permanent = [
        ClickHouseError::Config("bad".to_owned()),
        ClickHouseError::Backend("syntax error".to_owned()),
        ClickHouseError::Serialization("not object".to_owned()),
        ClickHouseError::Invalid("bad ident".to_owned()),
        ClickHouseError::Closed("closed".to_owned()),
        ClickHouseError::Unsupported("native".to_owned()),
    ];
    for error in permanent {
        assert!(!error.is_retryable(), "{error:?} is permanent");
    }
}

#[test]
fn error_retryability_classifies_transient_failures() {
    transient_matrix();
}

#[test]
fn is_retryable_classifies_transient_errors() {
    transient_matrix();
}

#[test]
fn batch_insert_options_expose_chunking_knobs() {
    let options = BatchInsertOptions::default();
    assert_eq!(options.max_rows_per_chunk, 1000);
    assert_eq!(options.max_bytes_per_chunk, 0);
    assert_eq!(options.batch_size, 0);

    let tuned = BatchInsertOptions::default()
        .max_rows_per_chunk(500)
        .max_bytes_per_chunk(4096);
    assert_eq!(tuned.max_rows_per_chunk, 500);
    assert_eq!(tuned.max_bytes_per_chunk, 4096);
    assert_eq!(BatchInsertOptions::default().batch_size(10).batch_size, 10);
}

#[test]
fn public_constants_are_stable() {
    assert_eq!(ENV_PREFIX, "FOUNDATIONX_CLICKHOUSEX_");
    assert_eq!(DEFAULT_USER, "default");
    assert_eq!(DEFAULT_DATABASE, "default");
    assert_eq!(DEFAULT_HTTP_PORT, 8123);
    assert!(clickhousex::ENV_HOST.starts_with(ENV_PREFIX));
    assert!(clickhousex::ENV_PASSWORD.starts_with(ENV_PREFIX));
    assert!(clickhousex::ENV_PLAIN_HTTP_HOSTS.starts_with(ENV_PREFIX));
}

#[test]
fn config_builder_default_and_error_types_are_exposed() {
    let config = expect_ok(
        ClickHouseConfigBuilder::new()
            .host("127.0.0.1")
            .http_port(8123)
            .max_in_flight(8)
            .build(None),
        "build must succeed",
    );
    assert_eq!(config.base_url(), "http://127.0.0.1:8123");

    let error: ClickHouseError = expect_err(
        ClickHouseConfigBuilder::new().host("").build(None),
        "an empty host is refused",
    );
    assert!(!error.is_retryable());

    let result: ClickHouseResult<()> = Err(error);
    assert!(result.is_err());
}

#[test]
fn config_from_toml_rejects_non_empty_password() {
    let error = expect_err(
        ClickHouseConfig::from_toml(
            "schema_version = 1\nhost = \"127.0.0.1\"\npassword = \"hunter2\"\n",
            None,
        ),
        "a non-empty password in TOML must be refused",
    );
    assert!(error.to_message().contains("password"));
    assert!(!error.to_message().contains("hunter2"), "the password is not echoed");

    let parsed = expect_ok(
        ClickHouseConfig::from_toml("schema_version = 1\nhost = \"127.0.0.1\"\n", None),
        "flat fields parse",
    );
    assert!(parsed.password.is_empty(), "TOML never sets the password");
}

#[test]
fn config_validate_rejects_boundary_violations() {
    let zero_in_flight = ClickHouseConfig {
        max_in_flight: 0,
        ..Default::default()
    };
    assert!(zero_in_flight.validate(None).is_err(), "zero permits are refused");

    let zero_timeout = ClickHouseConfig {
        timeout: 0,
        ..Default::default()
    };
    assert!(zero_timeout.validate(None).is_err(), "a zero timeout is refused");

    let remote_plain_http = ClickHouseConfig {
        host: "clickhouse.example.com".into(),
        ..Default::default()
    };
    assert!(remote_plain_http.validate(None).is_err(), "remote plain HTTP fails closed");

    expect_ok(
        ClickHouseConfig::default().validate(None),
        "the loopback plain-HTTP defaults are valid",
    );
}

#[test]
fn client_new_does_not_connect_and_has_single_permit() {
    let config = expect_ok(
        ClickHouseConfig::builder()
            .host("127.0.0.1")
            .http_port(1)
            .database("analytics")
            .timeout(5000)
            .acquire_timeout(5000)
            .max_in_flight(8)
            .build(None),
        "valid configuration",
    );
    let counters = expect_ok(
        PoolCounters::new(&config, CLIENT_PERMITS, None),
        "a client is built without any request",
    );
    let stats = counters.stats(CLIENT_PERMITS);
    assert_eq!(stats.total, 1, "a client has exactly one permit");
    assert_eq!(stats.open, 1);
    assert_eq!(stats.in_flight, 0);
    assert_eq!(stats.ok, 0);
    assert_eq!(stats.error, 0);
    assert!(!stats.closed);
}

#[test]
fn assert_acceptance() {
    assert_eq!(
        parse_tab_separated_rows("1\tfoo\n"),
        vec![vec!["1".to_owned(), "foo".to_owned()]]
    );
    assert_eq!(chunk_ranges(5, 2), vec![(0, 2), (2, 4), (4, 5)]);

    let counters = expect_ok(
        PoolCounters::new(&ClickHouseConfig::default(), CLIENT_PERMITS, None),
        "offline construction",
    );
    let stats = counters.stats(CLIENT_PERMITS);
    assert_eq!(stats.ok, 0);
    assert_eq!(stats.error, 0);
    assert!(!stats.closed);

    expect_ok(ClickHouseConfig::default().validate(None), "the defaults are valid");
    expect_ok(
        ClickHouseConfig::from_toml("schema_version = 1\n", None),
        "the smallest TOML is valid",
    );
}

#[test]
fn query_param_name_boundaries() {
    for bad in ["1id", "", "bad-name"] {
        let error = expect_err(validate_params(&[(bad, "1")]), "an illegal name is refused");
        assert!(matches!(error, ClickHouseError::Invalid(_)), "{bad}: {error:?}");
    }
    expect_ok(validate_params(&[("_id1", "1")]), "a leading underscore passes");
}

#[test]
fn assert_positioning() {
    // the default endpoint is HTTP on 8123
    let config = ClickHouseConfig::default();
    assert_eq!(config.base_url(), "http://127.0.0.1:8123");
    assert_eq!(config.http_port, DEFAULT_HTTP_PORT);
    assert_eq!(config.user, DEFAULT_USER);
    assert_eq!(config.database, DEFAULT_DATABASE);

    // a client runs requests one at a time, whatever max_in_flight says
    let single = expect_ok(
        PoolCounters::new(&config, CLIENT_PERMITS, None),
        "construction",
    );
    assert_eq!(single.stats(CLIENT_PERMITS).total, 1);

    let tuned = expect_ok(
        ClickHouseConfigBuilder::from_config(config)
            .max_in_flight(8)
            .build(None),
        "valid configuration",
    );
    assert_eq!(tuned.max_in_flight, 8, "a pool's permits come from max_in_flight");
    let still_single = expect_ok(
        PoolCounters::new(&tuned, CLIENT_PERMITS, None),
        "construction",
    );
    assert_eq!(still_single.stats(CLIENT_PERMITS).total, 1);
}

#[test]
fn client_new_is_synchronous_and_rejects_zero_permits_config() {
    let config = expect_ok(
        ClickHouseConfig::builder()
            .host("127.0.0.1")
            .http_port(1)
            .timeout(200)
            .acquire_timeout(200)
            .max_in_flight(1)
            .build(None),
        "valid configuration",
    );
    let counters = expect_ok(
        PoolCounters::new(&config, CLIENT_PERMITS, None),
        "construction is synchronous and succeeds",
    );
    let stats = counters.stats(CLIENT_PERMITS);
    assert!(!stats.closed);
    assert_eq!(stats.total, 1);
    assert_eq!(stats.open, 1);
    assert_eq!(stats.in_flight, 0);
    assert_eq!(stats.waiters, 0);
    assert_eq!(stats.ok, 0);
    assert_eq!(stats.error, 0);
    assert_eq!(config.host, "127.0.0.1");

    let mut invalid = config;
    invalid.max_in_flight = 0;
    assert!(PoolCounters::new(&invalid, CLIENT_PERMITS, None).is_err());
}

fn assert_send_sync<T: Send + Sync>() {}
fn assert_clone<T: Clone>() {}

#[test]
fn public_types_are_send_sync_clone() {
    assert_send_sync::<ClickHouseConfig>();
    assert_send_sync::<ClickHouseConfigBuilder>();
    assert_send_sync::<clickhousex::ClickHousePoolStats>();
    assert_send_sync::<clickhousex::ClickHouseHealth>();
    assert_send_sync::<BatchInsertOptions>();
    assert_send_sync::<ClickHouseError>();
    assert_send_sync::<PoolCounters>();

    assert_clone::<ClickHouseConfig>();
    assert_clone::<ClickHouseConfigBuilder>();
    assert_clone::<clickhousex::ClickHousePoolStats>();
    assert_clone::<clickhousex::ClickHouseHealth>();
    assert_clone::<BatchInsertOptions>();
    assert_clone::<PoolCounters>();

    // copies of the counters report the same snapshot
    let counters = expect_ok(
        PoolCounters::new(&ClickHouseConfig::default(), CLIENT_PERMITS, None),
        "construction",
    );
    let cloned = counters;
    assert_eq!(cloned.stats(1), counters.stats(1));
}

#[test]
fn rows_rejoin_to_the_nonempty_lines() {
    let text = "a\tb\r\n\n\t\nlast\tx\ty";
    let rows = parse_tab_separated_rows(text);
    let lines: Vec<&str> = text.lines().filter(|l| !l.is_empty()).collect();
    assert_eq!(rows.len(), lines.len());
    for (row, line) in rows.iter().zip(lines) {
        assert_eq!(row.join("\t"), line);
        assert!(row.iter().all(|cell| !cell.contains('\n') && !cell.contains('\t')));
    }
}
