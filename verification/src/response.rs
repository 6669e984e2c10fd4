//! Classification of failed requests and checks on response bodies.
//!
//! Only the HTTP status and the numeric ClickHouse error code of a failed
//! response enter an error; its body never does.
use vstd::prelude::*;

use crate::error::{message_detail, retryable, ClickHouseError, ClickHouseResult, ErrorView};
use crate::text::{
    chars_of, decimal, decimal_string, digits_value, is_ascii_digit, string_from_chars, trim,
    trim_bounds, trim_start,
};

verus! {

/// At most this many bytes of an error response are read.
pub const ERROR_RESPONSE_CAPTURE_LIMIT: usize = 4096;

/// The number of leading ASCII digits of `s`.
pub open spec fn leading_digit_count(s: Seq<char>) -> nat
    decreases s.len(),
{
    if s.len() > 0 && is_ascii_digit(s[0]) {
        1 + leading_digit_count(s.drop_first())
    } else {
        0
    }
}

/// The ClickHouse error code that an error body starts with: `Code: <n>` after optional
/// whitespace, where `<n>` is the run of digits that follows (and fits a `u32`).
/// A body that is not UTF-8 has none.
pub open spec fn server_code(body: Seq<u8>) -> Option<u32> {
    if !vstd::utf8::valid_utf8(body) {
        None
    } else {
        let t = trim_start(vstd::utf8::decode_utf8(body));
        if t.len() >= 5 && t.take(5) == "Code:"@ {
            let rest = trim_start(t.skip(5));
            let digits = rest.take(leading_digit_count(rest) as int);
            if digits.len() == 0 || digits_value(digits) > u32::MAX {
                None
            } else {
                Some(digits_value(digits) as u32)
            }
        } else {
            None
        }
    }
}

/// The text that `bytes` encode, when they are valid UTF-8 (`std::str::from_utf8`).
#[verifier::external_body]
fn utf8_text(bytes: &[u8]) -> (r: Option<&str>)
    ensures
        r is Some <==> vstd::utf8::valid_utf8(bytes@),
        r matches Some(s) ==> s@ == vstd::utf8::decode_utf8(bytes@),
{
    std::str::from_utf8(bytes).ok()
}

proof fn lemma_leading_digits(s: Seq<char>, n: int)
    requires
        0 <= n <= s.len(),
        forall|k: int| 0 <= k < n ==> #[trigger] is_ascii_digit(s[k]),
        n == s.len() || !is_ascii_digit(s[n]),
    ensures
        leading_digit_count(s) == n,
    decreases n,
{
    if n > 0 {
        assert forall|k: int| 0 <= k < n - 1 implies #[trigger] is_ascii_digit(s.drop_first()[k]) by {
            assert(s.drop_first()[k] == s[k + 1]);
        }
        if n < s.len() {
            assert(s.drop_first()[n - 1] == s[n]);
        }
        lemma_leading_digits(s.drop_first(), n - 1);
    }
}

/// Parses the `Code: <n>` prefix of a ClickHouse error body.
pub fn clickhouse_server_code(body: &[u8]) -> (r: Option<u32>)
    ensures
        r == server_code(body@),
{
    let text = match utf8_text(body) {
        None => {
            return None;
        },
        Some(t) => t,
    };
    let cs = chars_of(text);
    let (a, _) = trim_bounds(cs.as_slice());
    let t = &cs.as_slice()[a..cs.len()];
    proof {
        reveal_strlit("Code:");
    }
    if !(t.len() >= 5 && t[0] == 'C' && t[1] == 'o' && t[2] == 'd' && t[3] == 'e' && t[4] == ':') {
        proof {
            if t@.len() >= 5 {
                assert(!(t@.take(5) =~= "Code:"@)) by {
                    if t@.take(5) =~= "Code:"@ {
                        assert(t@.take(5)[0] == 'C');
                        assert(t@.take(5)[1] == 'o');
                        assert(t@.take(5)[2] == 'd');
                        assert(t@.take(5)[3] == 'e');
                        assert(t@.take(5)[4] == ':');
                    }
                }
            }
        }
        return None;
    }
    proof {
        assert(t@.take(5) =~= "Code:"@);
    }
    let after = &t[5..t.len()];
    let (b, _) = trim_bounds(after);
    let rest = &after[b..after.len()];
    proof {
        assert(after@ =~= t@.skip(5));
    }
    let mut n: usize = 0;
    while n < rest.len() && '0' <= rest[n] && rest[n] <= '9'
        invariant
            n <= rest@.len(),
            forall|k: int| 0 <= k < n ==> #[trigger] is_ascii_digit(rest@[k]),
        decreases rest@.len() - n,
    {
        n = n + 1;
    }
    proof {
        lemma_leading_digits(rest@, n as int);
    }
    proof {
        assert(t@ == trim_start(vstd::utf8::decode_utf8(body@)));
        assert(rest@ == trim_start(t@.skip(5)));
    }
    if n == 0 {
        return None;
    }
    let mut acc: u64 = 0;
    let mut i: usize = 0;
    while i < n
        invariant
            i <= n <= rest@.len(),
            forall|k: int| 0 <= k < n ==> #[trigger] is_ascii_digit(rest@[k]),
            acc == digits_value(rest@.take(i as int)),
            acc <= u32::MAX,
            leading_digit_count(rest@) == n,
            vstd::utf8::valid_utf8(body@),
            t@ == trim_start(vstd::utf8::decode_utf8(body@)),
            t@.len() >= 5,
            t@.take(5) == "Code:"@,
            rest@ == trim_start(t@.skip(5)),
        decreases n - i,
    {
        let c = rest[i];
        proof {
            assert(is_ascii_digit(rest@[i as int]));
            assert(rest@.take(i + 1).drop_last() =~= rest@.take(i as int));
            assert(rest@.take(i + 1).last() == c);
        }
        let d: u64 = (c as u32 - '0' as u32) as u64;
        let next = acc * 10 + d;
        assert(next == digits_value(rest@.take(i + 1)));
        if next > u32::MAX as u64 {
            proof {
                assert forall|k: int| 0 <= k < n implies #[trigger] is_ascii_digit(
                    rest@.take(n as int)[k],
                ) by {
                    assert(rest@.take(n as int)[k] == rest@[k]);
                }
                crate::text::lemma_digits_value_monotone(rest@.take(n as int), i + 1);
                assert(rest@.take(n as int).take(i + 1) =~= rest@.take(i + 1));
            }
            return None;
        }
        acc = next;
        i = i + 1;
    }
    Some(acc as u32)
}

/// A char that a reason phrase is made of: an ASCII letter, a space, a hyphen or an apostrophe.
pub open spec fn phrase_char(c: char) -> bool {
    ('a' <= c && c <= 'z') || ('A' <= c && c <= 'Z') || c == ' ' || c == '-' || c == '\''
}

/// The reason phrase that the `http` crate knows for a status code, if any.
pub uninterp spec fn canonical_reason(code: u16) -> Option<Seq<char>>;

/// `StatusCode::canonical_reason` (the `http` crate, as `reqwest` re-exports it) of the
/// status `code`; `StatusCode::from_u16` only converts the argument, and accepts every
/// code in `100..=999`. Nothing is claimed about which codes have a phrase; of a phrase,
/// only that it is made of ASCII letters, spaces, hyphens and apostrophes, as every entry
/// of the crate's table is.
#[verifier::external_body]
fn status_reason(code: u16) -> (r: Option<String>)
    requires
        100 <= code <= 999,
    ensures
        match r {
            Some(s) => canonical_reason(code) == Some(s@) && forall|i: int|
                0 <= i < s@.len() ==> #[trigger] phrase_char(s@[i]),
            None => canonical_reason(code) is None,
        },
{
    reqwest::StatusCode::from_u16(code).ok().and_then(|s| s.canonical_reason()).map(String::from)
}

/// How a status displays: `<code> <reason>`, with a placeholder for unknown codes.
pub open spec fn status_text(code: u16) -> Seq<char> {
    decimal(code as nat) + " "@ + match canonical_reason(code) {
        Some(r) => r,
        None => "<unknown status code>"@,
    }
}

/// The context of an HTTP error, without any of the response body.
pub open spec fn http_error_context(code: u16, server: Option<u32>) -> Seq<char> {
    match server {
        Some(c) => "HTTP "@ + status_text(code) + "（server_code="@ + decimal(c as nat)
            + "，响应正文已省略）"@,
        None => "HTTP "@ + status_text(code) + "（响应正文已省略）"@,
    }
}

/// The error for a failed response with status `code` and a body starting with `body`.
pub open spec fn http_error(code: u16, body: Seq<u8>) -> ErrorView {
    let server = server_code(body);
    let context = http_error_context(code, server);
    if code == 401 || code == 403 {
        ErrorView::Backend("认证/授权失败；"@ + context)
    } else if code == 429 || (500 <= code <= 599) {
        ErrorView::Unavailable(context)
    } else if server == Some(159u32) {
        ErrorView::Unavailable(context)
    } else {
        ErrorView::Backend(context)
    }
}

/// No `=` in `s`.
pub open spec fn no_eq(s: Seq<char>) -> bool {
    forall|i: int| 0 <= i < s.len() ==> #[trigger] s[i] != '='
}

/// The message names the ClickHouse error code exactly when there is one: without a code
/// it holds no `=` at all; with code `n` it holds `server_code=<n>，` and no other `=`.
pub open spec fn names_code(msg: Seq<char>, server: Option<u32>) -> bool {
    match server {
        None => no_eq(msg),
        Some(n) => exists|k: int|
            0 <= k && k + 13 + decimal(n as nat).len() <= msg.len() && #[trigger] msg.subrange(
                k,
                k + 13 + decimal(n as nat).len(),
            ) == "server_code="@ + decimal(n as nat) + "，"@ && forall|i: int|
                0 <= i < msg.len() && msg[i] == '=' ==> i == k + 11,
    }
}

/// The fixed pieces of the messages hold no `=`.
proof fn lemma_literals_no_eq()
    ensures
        no_eq("HTTP "@),
        no_eq(" "@),
        no_eq("（响应正文已省略）"@),
        no_eq("，响应正文已省略）"@),
        no_eq("<unknown status code>"@),
        no_eq("认证/授权失败；"@),
{
    reveal_strlit("HTTP ");
    reveal_strlit(" ");
    reveal_strlit("（响应正文已省略）");
    reveal_strlit("，响应正文已省略）");
    reveal_strlit("<unknown status code>");
    reveal_strlit("认证/授权失败；");
    assert forall|i: int| 0 <= i < 5 implies #[trigger] "HTTP "@[i] != '=' by {
        assert(i == 0 || i == 1 || i == 2 || i == 3 || i == 4);
    }
    assert forall|i: int| 0 <= i < 9 implies #[trigger] "（响应正文已省略）"@[i] != '=' by {
        assert(i == 0 || i == 1 || i == 2 || i == 3 || i == 4 || i == 5 || i == 6 || i == 7 || i
            == 8);
    }
    assert forall|i: int| 0 <= i < 9 implies #[trigger] "，响应正文已省略）"@[i] != '=' by {
        assert(i == 0 || i == 1 || i == 2 || i == 3 || i == 4 || i == 5 || i == 6 || i == 7 || i
            == 8);
    }
    assert forall|i: int| 0 <= i < 8 implies #[trigger] "认证/授权失败；"@[i] != '=' by {
        assert(i == 0 || i == 1 || i == 2 || i == 3 || i == 4 || i == 5 || i == 6 || i == 7);
    }
    assert forall|i: int| 0 <= i < 21 implies #[trigger] "<unknown status code>"@[i] != '=' by {
        assert(i == 0 || i == 1 || i == 2 || i == 3 || i == 4 || i == 5 || i == 6 || i == 7 || i
            == 8 || i == 9 || i == 10 || i == 11 || i == 12 || i == 13 || i == 14 || i == 15 || i
            == 16 || i == 17 || i == 18 || i == 19 || i == 20);
    }
}

proof fn lemma_no_eq_concat(a: Seq<char>, b: Seq<char>)
    requires
        no_eq(a),
        no_eq(b),
    ensures
        no_eq(a + b),
{
    assert forall|i: int| 0 <= i < (a + b).len() implies #[trigger] (a + b)[i] != '=' by {
        if i < a.len() {
            assert((a + b)[i] == a[i]);
        } else {
            assert((a + b)[i] == b[i - a.len()]);
        }
    }
}

proof fn lemma_decimal_no_eq(n: nat)
    ensures
        no_eq(decimal(n)),
    decreases n,
{
    if n >= 10 {
        lemma_decimal_no_eq(n / 10);
        let d = decimal(n / 10).push(crate::text::digit_char(n % 10));
        assert forall|i: int| 0 <= i < d.len() implies #[trigger] d[i] != '=' by {
            if i < d.len() - 1 {
                assert(d[i] == decimal(n / 10)[i]);
            }
        }
    }
}

/// A prefix without `=` keeps the code named as it was.
proof fn lemma_names_code_prefix(p: Seq<char>, m: Seq<char>, server: Option<u32>)
    requires
        no_eq(p),
        names_code(m, server),
    ensures
        names_code(p + m, server),
{
    match server {
        None => {
            assert(no_eq(m));
            lemma_no_eq_concat(p, m);
        },
        Some(n) => {
            let k = choose|k: int|
                0 <= k && k + 13 + decimal(n as nat).len() <= m.len() && #[trigger] m.subrange(
                    k,
                    k + 13 + decimal(n as nat).len(),
                ) == "server_code="@ + decimal(n as nat) + "，"@ && forall|i: int|
                    0 <= i < m.len() && m[i] == '=' ==> i == k + 11;
            let w: int = 13 + decimal(n as nat).len() as int;
            let pm = p + m;
            let k2 = k + p.len();
            assert(pm.subrange(k2, k2 + w) =~= m.subrange(k, k + w)) by {
                assert forall|j: int| 0 <= j < w implies #[trigger] pm.subrange(k2, k2 + w)[j]
                    == m.subrange(k, k + w)[j] by {
                    assert(pm[k2 + j] == m[k + j]);
                }
            }
            assert forall|i: int| 0 <= i < pm.len() && pm[i] == '=' implies i == k2 + 11 by {
                if i < p.len() {
                    assert(pm[i] == p[i]);
                } else {
                    assert(pm[i] == m[i - p.len()]);
                }
            }
            assert(pm.subrange(k2, k2 + 13 + decimal(n as nat).len()) == "server_code="@ + decimal(
                n as nat,
            ) + "，"@);
        }
    }
}

/// The context of an HTTP error names the code exactly when there is one.
proof fn lemma_context_names_code(code: u16, server: Option<u32>)
    requires
        no_eq(status_text(code)),
    ensures
        names_code(http_error_context(code, server), server),
{
    lemma_literals_no_eq();
    reveal_strlit("（server_code=");
    reveal_strlit("server_code=");
    reveal_strlit("，");
    reveal_strlit("，响应正文已省略）");
    let a = "HTTP "@ + status_text(code);
    lemma_no_eq_concat("HTTP "@, status_text(code));
    match server {
        None => {
            lemma_no_eq_concat(a, "（响应正文已省略）"@);
            assert(http_error_context(code, server) == a + "（响应正文已省略）"@);
        },
        Some(n) => {
            let d = decimal(n as nat);
            lemma_decimal_no_eq(n as nat);
            let b = "（server_code="@;
            let e = "，响应正文已省略）"@;
            let msg = a + b + d + e;
            assert(msg == http_error_context(code, server));
            let k: int = a.len() as int + 1;
            let w: int = 13 + d.len() as int;
            assert(msg.subrange(k, k + w) =~= "server_code="@ + d + "，"@) by {
                assert forall|j: int| 0 <= j < w implies #[trigger] msg.subrange(k, k + w)[j] == (
                "server_code="@ + d + "，"@)[j] by {
                    if j < 12 {
                        assert(msg[k + j] == b[j + 1]);
                    } else if j < 12 + d.len() {
                        assert(msg[k + j] == d[j - 12]);
                    } else {
                        assert(msg[k + j] == e[0]);
                    }
                }
            }
            assert(msg.subrange(k, k + 13 + decimal(n as nat).len()) == "server_code="@ + decimal(
                n as nat,
            ) + "，"@);
            assert forall|i: int| 0 <= i < msg.len() && msg[i] == '=' implies i == k + 11 by {
                if i < a.len() {
                    assert(msg[i] == a[i]);
                } else if i < a.len() + 13 {
                    assert(msg[i] == b[i - a.len()]);
                } else if i < a.len() + 13 + d.len() {
                    assert(msg[i] == d[i - a.len() - 13]);
                } else {
                    assert(msg[i] == e[i - a.len() - 13 - d.len()]);
                }
            }
        },
    }
}

fn status_display(code: u16) -> (r: String)
    requires
        100 <= code <= 999,
    ensures
        r@ == status_text(code),
        no_eq(r@),
{
    let reason = match status_reason(code) {
        Some(r) => r,
        None => String::from_str("<unknown status code>"),
    };
    proof {
        lemma_literals_no_eq();
        assert forall|i: int| 0 <= i < reason@.len() implies #[trigger] reason@[i] != '=' by {
            if canonical_reason(code) is Some {
                assert(phrase_char(reason@[i]));
            }
        }
        lemma_decimal_no_eq(code as nat);
        lemma_no_eq_concat(decimal(code as nat), " "@);
        lemma_no_eq_concat(decimal(code as nat) + " "@, reason@);
    }
    decimal_string(code as u128).concat(" ").concat(reason.as_str())
}

fn http_context(code: u16, server: Option<u32>) -> (r: String)
    requires
        100 <= code <= 999,
    ensures
        r@ == http_error_context(code, server),
        names_code(r@, server),
{
    let status = status_display(code);
    proof {
        lemma_context_names_code(code, server);
    }
    match server {
        Some(c) => String::from_str("HTTP ").concat(status.as_str()).concat("（server_code=").concat(
            decimal_string(c as u128).as_str(),
        ).concat("，响应正文已省略）"),
        None => String::from_str("HTTP ").concat(status.as_str()).concat("（响应正文已省略）"),
    }
}

/// Maps an HTTP status and the ClickHouse error code in the body to an error; the body
/// itself never enters the message.
///
/// 401 / 403 are authentication failures; 429, 5xx and server code 159 (timeout) are
/// retryable unavailability; everything else is a backend error. The message names
/// `server_code=<n>` exactly when the body carries code `n`, and holds no `=` otherwise.
pub fn map_http_error(status: u16, body: &[u8]) -> (e: ClickHouseError)
    requires
        100 <= status <= 999,
    ensures
        e@ == http_error(status, body@),
        names_code(message_detail(e@), server_code(body@)),
{
    let server = clickhouse_server_code(body);
    let context = http_context(status, server);
    proof {
        lemma_literals_no_eq();
        lemma_names_code_prefix("认证/授权失败；"@, context@, server);
    }
    if status == 401 || status == 403 {
        return ClickHouseError::Backend(String::from_str("认证/授权失败；").concat(context.as_str()));
    }
    if status == 429 || (500 <= status && status <= 599) {
        return ClickHouseError::Unavailable(context);
    }
    match server {
        Some(c) => {
            if c == 159 {
                ClickHouseError::Unavailable(context)
            } else {
                ClickHouseError::Backend(context)
            }
        },
        None => ClickHouseError::Backend(context),
    }
}

/// What a transport failure was, as the HTTP client reports it.
#[derive(Clone, Copy, Debug, PartialEq, Eq)]
pub struct TransportFailure {
    pub timeout: bool,
    pub connect: bool,
    pub body: bool,
    pub decode: bool,
    pub redirect: bool,
    pub request: bool,
}

/// The stage named in a connection error.
pub open spec fn transport_stage(f: TransportFailure) -> Seq<char> {
    if f.connect {
        "建立连接"@
    } else if f.body {
        "发送请求体"@
    } else if f.decode {
        "解析响应"@
    } else if f.redirect {
        "跟随重定向"@
    } else if f.request {
        "构造请求"@
    } else {
        "传输"@
    }
}

/// The error for a transport failure: a timeout, or a connection error naming the stage.
pub open spec fn transport_error(f: TransportFailure) -> ErrorView {
    if f.timeout {
        ErrorView::Timeout("请求超时（远端未在时限内响应）"@)
    } else {
        ErrorView::Connection(transport_stage(f) + "失败（远端不可达或被拒绝）"@)
    }
}

/// Maps a transport failure to a timeout or connection error (no URL, body or credentials).
pub fn map_transport_error(f: TransportFailure) -> (e: ClickHouseError)
    ensures
        e@ == transport_error(f),
{
    if f.timeout {
        return ClickHouseError::Timeout(String::from_str("请求超时（远端未在时限内响应）"));
    }
    let stage = if f.connect {
        String::from_str("建立连接")
    } else if f.body {
        String::from_str("发送请求体")
    } else if f.decode {
        String::from_str("解析响应")
    } else if f.redirect {
        String::from_str("跟随重定向")
    } else if f.request {
        String::from_str("构造请求")
    } else {
        String::from_str("传输")
    };
    ClickHouseError::Connection(stage.concat("失败（远端不可达或被拒绝）"))
}

/// Adds a chunk of an error response to the captured prefix, never beyond
/// [`ERROR_RESPONSE_CAPTURE_LIMIT`] bytes; returns whether reading should go on.
pub fn absorb_error_chunk(prefix: &mut Vec<u8>, chunk: &[u8]) -> (more: bool)
    requires
        old(prefix)@.len() < ERROR_RESPONSE_CAPTURE_LIMIT,
    ensures
        ({
            let remaining = ERROR_RESPONSE_CAPTURE_LIMIT - old(prefix)@.len();
            let taken = if chunk@.len() < remaining {
                chunk@.len() as int
            } else {
                remaining
            };
            &&& final(prefix)@ == old(prefix)@ + chunk@.take(taken)
            &&& more == (chunk@.len() < remaining)
        }),
        final(prefix)@.len() <= ERROR_RESPONSE_CAPTURE_LIMIT,
        more ==> final(prefix)@.len() < ERROR_RESPONSE_CAPTURE_LIMIT,
{
    let remaining = ERROR_RESPONSE_CAPTURE_LIMIT - prefix.len();
    let taken = if chunk.len() < remaining {
        chunk.len()
    } else {
        remaining
    };
    let ghost before = prefix@;
    let mut i: usize = 0;
    while i < taken
        invariant
            taken <= chunk@.len(),
            i <= taken,
            prefix@ == before + chunk@.take(i as int),
        decreases taken - i,
    {
        prefix.push(chunk[i]);
        proof {
            assert(chunk@.take(i + 1) =~= chunk@.take(i as int).push(chunk@[i as int]));
            assert(prefix@ =~= before + chunk@.take(i + 1));
        }
        i = i + 1;
    }
    chunk.len() < remaining
}

/// The error for a `SELECT 1` whose answer is not `1`.
pub open spec fn bad_ping_answer() -> ErrorView {
    ErrorView::Backend("ping 响应不符合协议（响应正文已省略）"@)
}

/// Checks the body of the `SELECT 1` health query: it must be `1` up to surrounding whitespace.
pub fn check_ping_answer(body: &str) -> (r: ClickHouseResult<()>)
    ensures
        r is Ok <==> trim(body@) == "1"@,
        r matches Err(e) ==> e@ == bad_ping_answer(),
{
    let cs = chars_of(body);
    let (a, b) = trim_bounds(cs.as_slice());
    proof {
        reveal_strlit("1");
    }
    assert(cs@.subrange(a as int, b as int) == trim(body@));
    assert("1"@.len() == 1 && "1"@[0] == '1');
    if b > a && b - a == 1 && cs[a] == '1' {
        proof {
            assert(cs@.subrange(a as int, b as int) =~= "1"@);
        }
        Ok(())
    } else {
        proof {
            if trim(body@) =~= "1"@ {
                assert(cs@.subrange(a as int, b as int).len() == 1);
                assert(cs@.subrange(a as int, b as int)[0] == cs@[a as int]);
            }
        }
        Err(ClickHouseError::Backend(String::from_str("ping 响应不符合协议（响应正文已省略）")))
    }
}

/// The server version from the body of `SELECT version()`: the trimmed text, if not empty.
pub fn server_version(body: &str) -> (r: Option<String>)
    ensures
        trim(body@).len() == 0 ==> r is None,
        trim(body@).len() > 0 ==> (r matches Some(v) && v@ == trim(body@)),
{
    let cs = chars_of(body);
    let (a, b) = trim_bounds(cs.as_slice());
    if a == b {
        None
    } else {
        Some(string_from_chars(&cs.as_slice()[a..b]))
    }
}

/// A failed response's error depends on its body only through the ClickHouse error code:
/// two bodies with the same code (or none) give the same error.
pub proof fn lemma_http_error_hides_body(status: u16, body1: Seq<u8>, body2: Seq<u8>)
    requires
        server_code(body1) == server_code(body2),
    ensures
        http_error(status, body1) == http_error(status, body2),
{
}

/// Which failed responses are worth retrying: 429, every 5xx, and the server-side
/// timeout code 159 outside authentication failures; never 401 or 403.
pub proof fn lemma_http_error_retryable(status: u16, body: Seq<u8>)
    ensures
        retryable(http_error(status, body)) <==> (status == 429 || (500 <= status <= 599) || (
        status != 401 && status != 403 && server_code(body) == Some(159u32))),
        (status == 401 || status == 403) ==> http_error(status, body) is Backend,
{
}

/// The decimal spelling of `n` is made of ASCII digits and spells `n` back.
proof fn lemma_decimal_digits(n: nat)
    ensures
        decimal(n).len() > 0,
        forall|k: int| 0 <= k < decimal(n).len() ==> #[trigger] is_ascii_digit(decimal(n)[k]),
        digits_value(decimal(n)) == n,
    decreases n,
{
    if n >= 10 {
        lemma_decimal_digits(n / 10);
        let d = decimal(n);
        let p = decimal(n / 10);
        assert(d == p.push(crate::text::digit_char(n % 10)));
        assert forall|k: int| 0 <= k < d.len() implies #[trigger] is_ascii_digit(d[k]) by {
            if k < p.len() {
                assert(d[k] == p[k]);
            }
        }
        assert(d.drop_last() =~= p);
        assert(d.last() == crate::text::digit_char(n % 10));
        assert(crate::text::digit_value(crate::text::digit_char(n % 10)) == n % 10);
        assert((n / 10) * 10 + n % 10 == n);
        assert(digits_value(d) == digits_value(p) * 10 + crate::text::digit_value(d.last()));
    } else {
        let d = decimal(n);
        assert(d.drop_last() =~= Seq::<char>::empty());
        assert(crate::text::digit_value(crate::text::digit_char(n)) == n);
        assert(digits_value(d) == digits_value(d.drop_last()) * 10 + crate::text::digit_value(d.last()));
    }
}

/// The code of a body that starts with `Code: <n>` (then anything that is not a digit,
/// such as `. DB::Exception: ...`) is `n`, for every `n` that fits a `u32`.
pub proof fn lemma_server_code_reads_code(n: u32, rest: Seq<char>)
    requires
        rest.len() == 0 || !('0' <= rest[0] && rest[0] <= '9'),
    ensures
        server_code(vstd::utf8::encode_utf8("Code: "@ + decimal(n as nat) + rest)) == Some(n),
{
    reveal_strlit("Code: ");
    reveal_strlit("Code:");
    let digits = decimal(n as nat);
    let t = "Code: "@ + digits + rest;
    vstd::utf8::encode_utf8_valid_utf8(t);
    vstd::utf8::encode_utf8_decode_utf8(t);
    lemma_decimal_digits(n as nat);
    assert(trim_start(t) == t);
    assert(t.take(5) =~= "Code:"@);
    let after = t.skip(5);
    assert(after[0] == ' ');
    let num = digits + rest;
    assert(after.drop_first() =~= num);
    assert(is_ascii_digit(num[0]));
    assert(trim_start(num) == num);
    assert(trim_start(after) == trim_start(after.drop_first()));
    assert forall|k: int| 0 <= k < digits.len() implies #[trigger] is_ascii_digit(num[k]) by {
        assert(num[k] == digits[k]);
    }
    if rest.len() > 0 {
        assert(num[digits.len() as int] == rest[0]);
    }
    lemma_leading_digits(num, digits.len() as int);
    assert(num.take(digits.len() as int) =~= digits);
}

} // verus!
