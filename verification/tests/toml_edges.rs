//! Edge cases of reading a configuration from TOML text, and of the debug rendering.

use clickhousex::toml_text::{fields_from_toml, from_toml_document, read_config_fields, TomlScalar};
use clickhousex::{ClickHouseConfig, ClickHouseError, ClickHouseResult};

fn expect_err<T>(r: ClickHouseResult<T>, why: &str) -> ClickHouseError {
    match r {
        Err(e) => e,
        Ok(_) => panic!("{why}"),
    }
}

fn message(text: &str) -> String {
    expect_err(ClickHouseConfig::from_toml(text, None), "must be refused").to_message()
}

#[test]
fn toml_schema_version_must_be_the_integer_one() {
    assert_eq!(message("schema_version = -3\n"), "配置无效: TOML schema_version 不支持: -3");
    assert_eq!(
        message("schema_version = \"1\"\n"),
        "配置无效: TOML schema_version 必须为整数"
    );
    assert_eq!(message("host = \"x\"\n"), "配置无效: TOML 缺少 schema_version 字段");
    assert!(message("schema_version = 1\nhost = [\n").starts_with("配置无效: TOML 解析失败: "));
}

#[test]
fn toml_password_must_be_an_empty_string() {
    let m = message("schema_version = 1\npassword = 5\n");
    assert_eq!(m, "配置无效: TOML 禁止非空 password 字段，请改用环境变量注入");
}

#[test]
fn toml_fields_are_typed() {
    assert_eq!(
        message("schema_version = 1\nhttp_port = 70000\n"),
        "配置无效: TOML 反序列化失败: invalid value: integer `70000`, expected u16"
    );
    assert_eq!(
        message("schema_version = 1\nhost = 5\n"),
        "配置无效: TOML 反序列化失败: invalid type: integer `5`, expected a string"
    );
    assert_eq!(
        message("schema_version = 1\ntimeout_ms = -1\n"),
        "配置无效: TOML 反序列化失败: invalid value: integer `-1`, expected u64"
    );
    assert_eq!(
        message("schema_version = 1\ntls = \"yes\"\n"),
        "配置无效: TOML 反序列化失败: invalid type: string \"yes\", expected a boolean"
    );
    assert_eq!(
        message("schema_version = 1\nmax_in_flight = 2.0\n"),
        "配置无效: TOML 反序列化失败: invalid type: floating point `2.0`, expected usize"
    );
    assert_eq!(
        message("schema_version = 1\ntls_ca_file = [1]\n"),
        "配置无效: TOML 反序列化失败: invalid type: sequence, expected path string"
    );
    assert_eq!(
        message("schema_version = 1\nauth_in_url = 1\n"),
        "配置无效: TOML 反序列化失败: invalid type: integer `1`, expected a boolean"
    );
    assert_eq!(
        message("schema_version = 1\nretry = 3\n"),
        "配置无效: TOML 反序列化失败: unknown field `retry`, expected one of `host`, `http_port`, `port`, `tls`, `tls_ca_file`, `tls_client_cert_file`, `tls_client_key_file`, `user`, `database`, `timeout_ms`, `connect_timeout_ms`, `max_idle_per_host`, `max_in_flight`, `acquire_timeout_ms`, `auth_in_url`"
    );
}

#[test]
fn toml_datetimes_read_as_text() {
    let config = match ClickHouseConfig::from_toml("schema_version = 1\ndatabase = 1979-05-27\n", None) {
        Ok(c) => c,
        Err(e) => panic!("a date-time reads as its text: {e:?}"),
    };
    assert_eq!(config.database, "1979-05-27");
    assert_eq!(
        message("schema_version = 1\ntls = 1979-05-27\n"),
        "配置无效: TOML 反序列化失败: invalid type: string \"1979-05-27\", expected a boolean"
    );
}

#[test]
fn config_derives_deserialize_and_rejects_unknown_fields() {
    let config = fields_from_toml(
        r#"
host = "127.0.0.1"
http_port = 9000
database = "analytics"
timeout_ms = 1234
"#,
    )
    .expect("扁平 TOML 必须可反序列化");
    assert_eq!(config.http_port, 9000);
    assert_eq!(config.database, "analytics");
    assert_eq!(config.timeout, 1234);

    // the password never enters through deserialization
    assert!(fields_from_toml("password = \"hunter2\"").is_err());
    // unknown fields fail closed
    assert!(fields_from_toml("sink_id = \"x\"").is_err());
    assert!(fields_from_toml("host = ").is_err());
}

#[test]
fn flat_fields_read_and_unknown_keys_fail() {
    let entries = vec![
        ("database".to_owned(), TomlScalar::Str("analytics".to_owned())),
        ("host".to_owned(), TomlScalar::Str("127.0.0.1".to_owned())),
        ("http_port".to_owned(), TomlScalar::Int(9000)),
        ("timeout_ms".to_owned(), TomlScalar::Int(1234)),
    ];
    let config = match read_config_fields(&entries) {
        Ok(c) => c,
        Err(m) => panic!("flat fields must read: {m}"),
    };
    assert_eq!(config.http_port, 9000);
    assert_eq!(config.database, "analytics");
    assert_eq!(config.timeout, 1234);

    // the password is never read as a field
    assert!(read_config_fields(&[("password".to_owned(), TomlScalar::Str("hunter2".to_owned()))])
        .is_err());
    // unknown fields fail closed
    assert!(read_config_fields(&[("sink_id".to_owned(), TomlScalar::Str("x".to_owned()))]).is_err());
}

#[test]
fn toml_validation_applies_to_the_result() {
    let m = message("schema_version = 1\nhost = \"db.internal\"\n");
    assert!(m.contains("HTTPS"), "{m}");
    let allowed = ClickHouseConfig::from_toml(
        "schema_version = 1\nhost = \"db.internal\"\n",
        Some("db.internal"),
    );
    assert!(allowed.is_ok());
}

#[test]
fn toml_document_entries_are_read_in_order() {
    let doc = Ok(vec![
        ("schema_version".to_owned(), TomlScalar::Int(1)),
        ("database".to_owned(), TomlScalar::Str("a".to_owned())),
        ("max_idle_per_host".to_owned(), TomlScalar::Int(3)),
        ("tls_ca_file".to_owned(), TomlScalar::Str("/ca.pem".to_owned())),
        ("tls".to_owned(), TomlScalar::Bool(true)),
    ]);
    let config = match from_toml_document(doc, None) {
        Ok(c) => c,
        Err(e) => panic!("valid document: {e:?}"),
    };
    assert_eq!(config.database, "a");
    assert_eq!(config.max_idle_per_host, 3);
    assert_eq!(config.tls_ca_file.as_deref(), Some("/ca.pem"));
    assert!(config.tls);

    let float = Ok(vec![
        ("schema_version".to_owned(), TomlScalar::Int(1)),
        ("max_in_flight".to_owned(), TomlScalar::Float("1.5".to_owned())),
    ]);
    let error = expect_err(from_toml_document(float, None), "a float count is refused");
    assert_eq!(
        error.to_message(),
        "配置无效: TOML 反序列化失败: invalid type: floating point `1.5`, expected usize"
    );

    let broken = Err("expected a value".to_owned());
    assert_eq!(
        expect_err(from_toml_document(broken, None), "parse failure").to_message(),
        "配置无效: TOML 解析失败: expected a value"
    );
}

#[test]
fn debug_text_renders_every_field_but_the_password() {
    let config = ClickHouseConfig {
        password: "p@ss".to_owned(),
        connect_timeout: Some(800),
        tls_ca_file: Some("/tmp/ca \"x\".pem".to_owned()),
        ..Default::default()
    };
    let rendered = config.debug_text();
    assert!(rendered.starts_with("ClickHouseConfig { host: \"127.0.0.1\", http_port: 8123, tls: false"));
    assert!(rendered.contains("tls_ca_file: Some(\"/tmp/ca \\\"x\\\".pem\")"));
    assert!(rendered.contains("password: \"***\""));
    assert!(rendered.contains(", timeout: 10s, connect_timeout: Some(800ms), "));
    assert!(rendered.ends_with("acquire_timeout: 5s, auth_in_url: false }"));
    assert!(!rendered.contains("retry"));
    assert!(!rendered.contains("p@ss"));
    let other = ClickHouseConfig {
        password: "different".to_owned(),
        ..config.clone()
    };
    assert_eq!(other.debug_text(), rendered);
}

#[test]
fn debug_text_shows_durations_as_duration_does() {
    let shown = |timeout: u64| {
        ClickHouseConfig {
            timeout,
            ..Default::default()
        }
        .debug_text()
    };
    assert!(shown(2500).contains(", timeout: 2.5s, "));
    assert!(shown(1000).contains(", timeout: 1s, "));
    assert!(shown(1001).contains(", timeout: 1.001s, "));
    assert!(shown(1230).contains(", timeout: 1.23s, "));
    assert!(shown(999).contains(", timeout: 999ms, "));
    assert!(shown(0).contains(", timeout: 0ns, "));
    assert_eq!(
        format!("{:?}", std::time::Duration::from_millis(1230)),
        "1.23s"
    );
}

#[test]
fn absent_keys_keep_their_defaults() {
    let config = ClickHouseConfig::from_toml("schema_version = 1\ndatabase = \"x\"\n", None)
        .expect("a minimal document is valid");
    let defaults = ClickHouseConfig::default();
    assert_eq!(config.database, "x");
    assert_eq!(config.host, defaults.host);
    assert_eq!(config.http_port, defaults.http_port);
    assert_eq!(config.timeout, defaults.timeout);
    assert_eq!(config.max_in_flight, defaults.max_in_flight);
    assert_eq!(config.connect_timeout, defaults.connect_timeout);
    assert!(config.password.is_empty());
}
