//! `clickhousex`: the verified core of a ClickHouse HTTP adapter (default port 8123).
//!
//! The library holds what the adapter decides and computes: configuration (defaults,
//! environment snapshot, TOML, validation, builder), query URLs and request bodies,
//! identifier and parameter checks, insert planning (row and byte chunking),
//! `TabSeparated` parsing, the classification of failures into retryable and permanent
//! errors, the retry policy with jittered exponential backoff, and the bookkeeping of a
//! pool's permits and counters. The HTTP exchange itself, timers and the async runtime
//! are left to the caller, which feeds their outcomes back in.
//!
//! Error messages never carry response bodies, SQL text or credentials.
#![allow(unused_imports)]

pub mod text;
pub mod error;
pub mod rows;
pub mod retry;
pub mod config;
pub mod env;
pub mod sql;
pub mod response;
pub mod types;
pub mod insert;
pub mod pool;
pub mod toml_text;
pub mod render;
pub mod tls;

pub use config::{
    ClickHouseConfig, ClickHouseConfigBuilder, DEFAULT_DATABASE, DEFAULT_HTTP_PORT, DEFAULT_USER,
    ENV_ACQUIRE_TIMEOUT_MS, ENV_AUTH_IN_URL, ENV_CONNECT_TIMEOUT_MS, ENV_DATABASE, ENV_HOST,
    ENV_HTTP_PORT, ENV_MAX_IDLE_PER_HOST, ENV_MAX_IN_FLIGHT, ENV_PASSWORD, ENV_PLAIN_HTTP_HOSTS,
    ENV_PORT, ENV_PREFIX, ENV_TIMEOUT_MS, ENV_TLS, ENV_TLS_CA_FILE, ENV_TLS_CLIENT_CERT_FILE,
    ENV_TLS_CLIENT_KEY_FILE, ENV_USER,
};
pub use error::{ClickHouseError, ClickHouseResult};
pub use retry::{RetryConfig, MAX_RETRIES};
pub use rows::{chunk_ranges, parse_tab_separated_rows, JsonRow};
pub use sql::build_query_url;
pub use types::{BatchInsertOptions, ClickHouseHealth, ClickHousePoolStats};
