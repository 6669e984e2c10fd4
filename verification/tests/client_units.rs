//! Batch options, chunking, `TabSeparated` parsing, URL building, identifier checks,
//! failure mapping and row encoding.

use clickhousex::config::ClickHouseConfig;
use clickhousex::error::ClickHouseError;
use clickhousex::response::{clickhouse_server_code, map_http_error};
use clickhousex::rows::{encode_rows, join_lines, split_by_bytes, JsonRow};
use clickhousex::sql::{validate_ident, validate_params, MAX_IDENT_LEN};
use clickhousex::{build_query_url, chunk_ranges, parse_tab_separated_rows, BatchInsertOptions};

fn local_config(max_in_flight: usize) -> ClickHouseConfig {
    ClickHouseConfig::builder()
        .host("127.0.0.1")
        .http_port(1)
        .timeout(200)
        .acquire_timeout(200)
        .max_in_flight(max_in_flight)
        .build(None)
        .expect("test configuration must be valid")
}

fn json_row(text: &str) -> JsonRow {
    let value: serde_json::Value = serde_json::from_str(text).expect("valid JSON");
    JsonRow {
        is_object: value.is_object(),
        text: value.to_string(),
    }
}

fn batch_options_default_and_builders_body() {
    let options = BatchInsertOptions::default();
    assert_eq!(options.max_rows_per_chunk, 1000);
    assert_eq!(options.max_bytes_per_chunk, 0);
    assert_eq!(options.batch_size, 0);

    let tuned = BatchInsertOptions::default()
        .max_rows_per_chunk(2)
        .max_bytes_per_chunk(64)
        .batch_size(10);
    assert_eq!(tuned.max_rows_per_chunk, 2);
    assert_eq!(tuned.max_bytes_per_chunk, 64);
    assert_eq!(tuned.batch_size, 10);
}

#[test]
fn client_batch_options_default_and_builders() {
    batch_options_default_and_builders_body();
}

#[test]
fn types_batch_options_default_and_builders() {
    batch_options_default_and_builders_body();
}

fn chunk_ranges_concrete_sizes_body() {
    assert!(chunk_ranges(0, 10).is_empty());
    assert_eq!(chunk_ranges(5, 10), vec![(0, 5)]);
    assert_eq!(chunk_ranges(5, 2), vec![(0, 2), (2, 4), (4, 5)]);
    assert_eq!(chunk_ranges(3, 1), vec![(0, 1), (1, 2), (2, 3)]);
    assert_eq!(chunk_ranges(2, 0), vec![(0, 1), (1, 2)]);
    assert_eq!(chunk_ranges(7, 3), vec![(0, 3), (3, 6), (6, 7)]);
}

#[test]
fn client_chunk_ranges_concrete_sizes() {
    chunk_ranges_concrete_sizes_body();
}

#[test]
fn rows_chunk_ranges_concrete_sizes() {
    chunk_ranges_concrete_sizes_body();
}

fn parse_tab_separated_rows_skips_blank_lines_body() {
    let rows = parse_tab_separated_rows("a\tb\n\nc\td\te\n");
    assert_eq!(
        rows,
        vec![
            vec!["a".to_owned(), "b".to_owned()],
            vec!["c".to_owned(), "d".to_owned(), "e".to_owned()]
        ]
    );
    assert!(parse_tab_separated_rows("").is_empty());
    assert!(parse_tab_separated_rows("\n\n\n").is_empty());
}

#[test]
fn client_parse_tab_separated_rows_skips_blank_lines() {
    parse_tab_separated_rows_skips_blank_lines_body();
}

#[test]
fn rows_parse_tab_separated_rows_skips_blank_lines() {
    parse_tab_separated_rows_skips_blank_lines_body();
}

fn split_by_bytes_keeps_progress_for_oversized_line_body() {
    let encoded = vec!["a".repeat(10), "b".repeat(4), "c".repeat(4)];
    assert_eq!(split_by_bytes(&encoded, 0, 3, 0), vec![(0, 3)]);
    // a single 11-byte row is over the limit and still forms a chunk of its own
    assert_eq!(split_by_bytes(&encoded, 0, 3, 12), vec![(0, 1), (1, 3)]);
    assert_eq!(split_by_bytes(&encoded, 1, 3, 100), vec![(1, 3)]);
    assert_eq!(split_by_bytes(&encoded, 2, 2, 5), vec![(2, 2)]);
}

#[test]
fn client_split_by_bytes_keeps_progress_for_oversized_line() {
    split_by_bytes_keeps_progress_for_oversized_line_body();
}

#[test]
fn rows_split_by_bytes_keeps_progress_for_oversized_line() {
    split_by_bytes_keeps_progress_for_oversized_line_body();
}

fn build_query_url_contains_database_and_params_body() {
    let config = local_config(4);
    let url = build_query_url(&config, &[("id", "42")]).expect("URL");
    assert!(url.starts_with("http://127.0.0.1:1/?"), "url={url}");
    assert!(url.contains("database=default"));
    assert!(url.contains("param_id=42"));
    assert!(!url.contains("password"), "credentials stay out of the URL by default");

    let auth_in_url = ClickHouseConfig::builder()
        .host("127.0.0.1")
        .user("writer")
        .password("s3cret")
        .auth_in_url(true)
        .build(None)
        .expect("valid configuration");
    let url = build_query_url(&auth_in_url, &[]).expect("URL");
    assert!(url.contains("user=writer"));
    assert!(url.contains("password=s3cret"));

    assert!(build_query_url(&config, &[("bad-name", "1")]).is_err());
}

#[test]
fn client_build_query_url_contains_database_and_params() {
    build_query_url_contains_database_and_params_body();
}

#[test]
fn sql_build_query_url_contains_database_and_params() {
    build_query_url_contains_database_and_params_body();
}

fn ident_and_param_validation_body() {
    assert!(validate_ident("infra_draft_smoke").is_ok());
    assert!(validate_ident("1bad").is_err());
    assert!(validate_ident("a;drop").is_err());
    assert!(validate_ident("").is_err());
    assert!(validate_ident(&"a".repeat(MAX_IDENT_LEN + 1)).is_err());
    assert!(validate_params(&[("id", "1")]).is_ok());
    assert!(validate_params(&[("1id", "1")]).is_err());
    assert!(validate_params(&[("", "1")]).is_err());
}

#[test]
fn client_ident_and_param_validation() {
    ident_and_param_validation_body();
}

#[test]
fn sql_ident_and_param_validation() {
    ident_and_param_validation_body();
}

fn http_error_mapping_hides_response_body_body() {
    let secret = "SELECT private_column; payload=secret-value";
    let body = format!("Code: 60. DB::Exception: UNKNOWN_TABLE; {secret}");

    let missing = map_http_error(400, body.as_bytes());
    assert!(matches!(missing, ClickHouseError::Backend(_)));
    assert!(missing.to_message().contains("server_code=60"));
    assert!(
        !missing.to_message().contains(secret),
        "the error must not echo the response body"
    );
    assert!(!missing.is_retryable());

    let conflict = map_http_error(400, b"Code: 57. DB::Exception: exists");
    assert!(!conflict.is_retryable());

    let unknown_db = map_http_error(400, b"Code: 81. DB::Exception");
    assert!(!unknown_db.is_retryable());
}

#[test]
fn client_http_error_mapping_hides_response_body() {
    http_error_mapping_hides_response_body_body();
}

#[test]
fn response_http_error_mapping_hides_response_body() {
    http_error_mapping_hides_response_body_body();
}

fn http_error_mapping_classifies_retryable_statuses_body() {
    let too_many = map_http_error(429, b"");
    assert!(matches!(too_many, ClickHouseError::Unavailable(_)));
    assert!(too_many.is_retryable());

    let server_error = map_http_error(500, b"boom");
    assert!(server_error.is_retryable());

    let unavailable = map_http_error(503, b"");
    assert!(unavailable.is_retryable());

    let server_timeout = map_http_error(400, b"Code: 159. DB::Exception");
    assert!(server_timeout.is_retryable());

    let unauthorized = map_http_error(401, b"");
    assert!(!unauthorized.is_retryable());
    let forbidden = map_http_error(403, b"denied");
    assert!(!forbidden.is_retryable());
}

#[test]
fn client_http_error_mapping_classifies_retryable_statuses() {
    http_error_mapping_classifies_retryable_statuses_body();
}

#[test]
fn response_http_error_mapping_classifies_retryable_statuses() {
    http_error_mapping_classifies_retryable_statuses_body();
}

fn server_code_parser_is_bounded_to_prefix_body() {
    assert_eq!(clickhouse_server_code(b"Code: 81. DB::Exception"), Some(81));
    assert_eq!(clickhouse_server_code(b"not a ClickHouse exception"), None);
    assert_eq!(clickhouse_server_code(&[0xff, 0xfe]), None);
    assert_eq!(clickhouse_server_code(b"Code: abc"), None);
}

#[test]
fn client_server_code_parser_is_bounded_to_prefix() {
    server_code_parser_is_bounded_to_prefix_body();
}

#[test]
fn response_server_code_parser_is_bounded_to_prefix() {
    server_code_parser_is_bounded_to_prefix_body();
}

fn encode_rows_rejects_non_object_body() {
    let error = match encode_rows(&[json_row(r#"["not", "an", "object"]"#)]) {
        Err(e) => e,
        Ok(_) => panic!("a row that is not an object must be refused"),
    };
    assert!(matches!(error, ClickHouseError::Serialization(_)));

    let encoded = match encode_rows(&[json_row(r#"{ "a": 1 }"#), json_row(r#"{ "b": 2 }"#)]) {
        Ok(v) => v,
        Err(e) => panic!("object rows must encode: {e:?}"),
    };
    assert_eq!(encoded.len(), 2);
    assert_eq!(join_lines(&encoded), "{\"a\":1}\n{\"b\":2}\n");
}

#[test]
fn client_encode_rows_rejects_non_object() {
    encode_rows_rejects_non_object_body();
}

#[test]
fn rows_encode_rows_rejects_non_object() {
    encode_rows_rejects_non_object_body();
}
