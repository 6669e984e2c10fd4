//! The crate's error type.
//!
//! Remote failures keep only the HTTP status and the ClickHouse numeric error
//! code; response bodies, SQL text, payloads and credentials never enter a message.
use vstd::prelude::*;

verus! {

#[verifier::external_type_specification]
#[verifier::external_body]
pub struct ExIoError(std::io::Error);

/// The unified error type of the crate.
#[derive(Debug)]
#[non_exhaustive]
pub enum ClickHouseError {
    /// Invalid configuration (decided while building or validating).
    Config(String),
    /// Connection could not be established or was interrupted.
    Connection(String),
    /// The server answered with a business or protocol error (not retryable).
    Backend(String),
    /// The server is temporarily unavailable (HTTP 429 / 5xx / server-side timeout).
    Unavailable(String),
    /// Serialization or parsing failed (for example an insert row that is not a JSON object).
    Serialization(String),
    /// Network or low-level I/O failure.
    Io(std::io::Error),
    /// The operation timed out (request or waiting for an in-flight permit).
    Timeout(String),
    /// An argument was invalid (for example an illegal SQL identifier).
    Invalid(String),
    /// The target resource is closed.
    Closed(String),
    /// The operation is not supported.
    Unsupported(String),
}

/// The mathematical model of a [`ClickHouseError`]: its variant and message.
pub enum ErrorView {
    Config(Seq<char>),
    Connection(Seq<char>),
    Backend(Seq<char>),
    Unavailable(Seq<char>),
    Serialization(Seq<char>),
    Io,
    Timeout(Seq<char>),
    Invalid(Seq<char>),
    Closed(Seq<char>),
    Unsupported(Seq<char>),
}

impl View for ClickHouseError {
    type V = ErrorView;

    open spec fn view(&self) -> ErrorView {
        match self {
            ClickHouseError::Config(m) => ErrorView::Config(m@),
            ClickHouseError::Connection(m) => ErrorView::Connection(m@),
            ClickHouseError::Backend(m) => ErrorView::Backend(m@),
            ClickHouseError::Unavailable(m) => ErrorView::Unavailable(m@),
            ClickHouseError::Serialization(m) => ErrorView::Serialization(m@),
            ClickHouseError::Io(_) => ErrorView::Io,
            ClickHouseError::Timeout(m) => ErrorView::Timeout(m@),
            ClickHouseError::Invalid(m) => ErrorView::Invalid(m@),
            ClickHouseError::Closed(m) => ErrorView::Closed(m@),
            ClickHouseError::Unsupported(m) => ErrorView::Unsupported(m@),
        }
    }
}

/// The crate's `Result` alias.
pub type ClickHouseResult<T> = Result<T, ClickHouseError>;

/// Errors that an identical retry may cure: connection, unavailability, timeout and I/O.
pub open spec fn retryable(e: ErrorView) -> bool {
    match e {
        ErrorView::Connection(_) | ErrorView::Unavailable(_) | ErrorView::Timeout(_)
        | ErrorView::Io => true,
        _ => false,
    }
}

/// The fixed prefix that the rendered message of each variant starts with.
pub open spec fn message_prefix(e: ErrorView) -> Seq<char> {
    match e {
        ErrorView::Config(_) => "配置无效: "@,
        ErrorView::Connection(_) => "连接失败: "@,
        ErrorView::Backend(_) => "远端返回错误: "@,
        ErrorView::Unavailable(_) => "远端暂时不可用: "@,
        ErrorView::Serialization(_) => "序列化失败: "@,
        ErrorView::Io => "I/O 失败: "@,
        ErrorView::Timeout(_) => "操作超时: "@,
        ErrorView::Invalid(_) => "参数无效: "@,
        ErrorView::Closed(_) => "资源已关闭: "@,
        ErrorView::Unsupported(_) => "不支持的操作: "@,
    }
}

/// The message text carried by a variant (empty for `Io`, whose text the OS error supplies).
pub open spec fn message_detail(e: ErrorView) -> Seq<char> {
    match e {
        ErrorView::Config(m) => m,
        ErrorView::Connection(m) => m,
        ErrorView::Backend(m) => m,
        ErrorView::Unavailable(m) => m,
        ErrorView::Serialization(m) => m,
        ErrorView::Io => Seq::empty(),
        ErrorView::Timeout(m) => m,
        ErrorView::Invalid(m) => m,
        ErrorView::Closed(m) => m,
        ErrorView::Unsupported(m) => m,
    }
}

impl ClickHouseError {
    /// Whether the error is a transient one that can safely be retried.
    ///
    /// Retryable: `Connection`, `Unavailable`, `Timeout`, `Io`.
    /// Permanent: configuration, argument, serialization, backend errors and closed resources.
    pub fn is_retryable(&self) -> (r: bool)
        ensures
            r == retryable(self@),
    {
        match self {
            ClickHouseError::Connection(_) | ClickHouseError::Unavailable(_)
            | ClickHouseError::Timeout(_) | ClickHouseError::Io(_) => true,
            ClickHouseError::Config(_) | ClickHouseError::Backend(_)
            | ClickHouseError::Serialization(_) | ClickHouseError::Invalid(_)
            | ClickHouseError::Closed(_) | ClickHouseError::Unsupported(_) => false,
        }
    }

    /// The human-readable message: a fixed per-variant prefix followed by the detail text.
    pub fn to_message(&self) -> (r: String)
        ensures
            !(self@ is Io) ==> r@ == message_prefix(self@) + message_detail(self@),
            self matches ClickHouseError::Io(e) ==> exists|t: String|
                #[trigger] vstd::string::to_string_from_display_ensures::<std::io::Error>(&e, t)
                    && r@ == message_prefix(self@) + t@,
            r@.take(message_prefix(self@).len() as int) == message_prefix(self@),
            r@.len() >= message_prefix(self@).len(),
    {
        let (prefix, detail) = match self {
            ClickHouseError::Config(m) => (String::from_str("配置无效: "), m.clone()),
            ClickHouseError::Connection(m) => (String::from_str("连接失败: "), m.clone()),
            ClickHouseError::Backend(m) => (String::from_str("远端返回错误: "), m.clone()),
            ClickHouseError::Unavailable(m) => (String::from_str("远端暂时不可用: "), m.clone()),
            ClickHouseError::Serialization(m) => (String::from_str("序列化失败: "), m.clone()),
            ClickHouseError::Io(e) => (String::from_str("I/O 失败: "), e.to_string()),
            ClickHouseError::Timeout(m) => (String::from_str("操作超时: "), m.clone()),
            ClickHouseError::Invalid(m) => (String::from_str("参数无效: "), m.clone()),
            ClickHouseError::Closed(m) => (String::from_str("资源已关闭: "), m.clone()),
            ClickHouseError::Unsupported(m) => (String::from_str("不支持的操作: "), m.clone()),
        };
        let r = prefix.concat(detail.as_str());
        assert(r@.take(prefix@.len() as int) =~= prefix@);
        r
    }
}

impl From<std::io::Error> for ClickHouseError {
    fn from(e: std::io::Error) -> (r: Self) {
        ClickHouseError::Io(e)
    }
}

impl vstd::std_specs::convert::FromSpecImpl<std::io::Error> for ClickHouseError {
    open spec fn obeys_from_spec() -> bool {
        true
    }

    open spec fn from_spec(v: std::io::Error) -> Self {
        ClickHouseError::Io(v)
    }
}

} // verus!
