//! The debug rendering of a configuration, with the password redacted.
use vstd::prelude::*;

use crate::config::{ClickHouseConfig, ConfigView};
use crate::text::{decimal, decimal_string, digit_char};

verus! {

/// How `{:?}` renders a string: quoted, with Rust's debug escapes.
pub uninterp spec fn debug_str(s: Seq<char>) -> Seq<char>;

/// `format!("{:?}", s)`: the string quoted, with Rust's debug escapes.
#[verifier::external_body]
pub(crate) fn debug_quoted(s: &str) -> (r: String)
    ensures
        r@ == debug_str(s@),
{
    format!("{s:?}")
}

pub open spec fn bool_text(b: bool) -> Seq<char> {
    if b {
        "true"@
    } else {
        "false"@
    }
}

pub open spec fn opt_path_text(p: Option<Seq<char>>) -> Seq<char> {
    match p {
        Some(s) => "Some("@ + debug_str(s) + ")"@,
        None => "None"@,
    }
}

/// The fractional digits of `f` thousandths (`1 <= f <= 999`), trailing zeros dropped.
pub open spec fn thousandths_text(f: nat) -> Seq<char> {
    let d1 = digit_char(f / 100);
    let d2 = digit_char((f / 10) % 10);
    let d3 = digit_char(f % 10);
    if f % 10 != 0 {
        seq![d1, d2, d3]
    } else if (f / 10) % 10 != 0 {
        seq![d1, d2]
    } else {
        seq![d1]
    }
}

/// How `{:?}` shows a `Duration` of `ms` milliseconds: `0ns`, `<n>ms` below a second,
/// otherwise seconds with the fraction that is not zero, such as `10s` or `2.5s`.
pub open spec fn millis_text(ms: u64) -> Seq<char> {
    if ms == 0 {
        "0ns"@
    } else if ms < 1000 {
        decimal(ms as nat) + "ms"@
    } else if ms % 1000 == 0 {
        decimal((ms / 1000) as nat) + "s"@
    } else {
        decimal((ms / 1000) as nat) + "."@ + thousandths_text((ms % 1000) as nat) + "s"@
    }
}

/// The debug rendering of a configuration: the connection fields in declaration order,
/// the password always reading `"***"`, durations shown as `Duration`'s `{:?}` does; the
/// retry policy is not part of it.
pub open spec fn debug_rendering(c: ConfigView) -> Seq<char> {
    "ClickHouseConfig { host: "@ + debug_str(c.host) + ", http_port: "@ + decimal(
        c.http_port as nat,
    ) + ", tls: "@ + bool_text(c.tls) + ", tls_ca_file: "@ + opt_path_text(c.tls_ca_file)
        + ", tls_client_cert_file: "@ + opt_path_text(c.tls_client_cert_file)
        + ", tls_client_key_file: "@ + opt_path_text(c.tls_client_key_file) + ", user: "@
        + debug_str(c.user) + ", password: \"***\", database: "@ + debug_str(c.database)
        + ", timeout: "@ + millis_text(c.timeout) + ", connect_timeout: "@ + match c.connect_timeout {
        Some(ms) => "Some("@ + millis_text(ms) + ")"@,
        None => "None"@,
    } + ", max_idle_per_host: "@ + decimal(c.max_idle_per_host as nat) + ", max_in_flight: "@
        + decimal(c.max_in_flight as nat) + ", acquire_timeout: "@ + millis_text(c.acquire_timeout)
        + ", auth_in_url: "@ + bool_text(c.auth_in_url) + " }"@
}

fn bool_string(b: bool) -> (r: String)
    ensures
        r@ == bool_text(b),
{
    if b {
        String::from_str("true")
    } else {
        String::from_str("false")
    }
}

fn opt_path_string(p: &Option<String>) -> (r: String)
    ensures
        r@ == opt_path_text(crate::config::opt_view(*p)),
{
    match p {
        Some(s) => String::from_str("Some(").concat(debug_quoted(s.as_str()).as_str()).concat(")"),
        None => String::from_str("None"),
    }
}

fn digit_string(d: u64) -> (r: String)
    requires
        d < 10,
    ensures
        r@ == seq![digit_char(d as nat)],
{
    decimal_string(d as u128)
}

fn thousandths_string(f: u64) -> (r: String)
    requires
        1 <= f <= 999,
    ensures
        r@ == thousandths_text(f as nat),
{
    let d1 = digit_string(f / 100);
    let d2 = digit_string((f / 10) % 10);
    let d3 = digit_string(f % 10);
    if f % 10 != 0 {
        d1.concat(d2.as_str()).concat(d3.as_str())
    } else if (f / 10) % 10 != 0 {
        d1.concat(d2.as_str())
    } else {
        d1
    }
}

fn millis_string(ms: u64) -> (r: String)
    ensures
        r@ == millis_text(ms),
{
    if ms == 0 {
        String::from_str("0ns")
    } else if ms < 1000 {
        decimal_string(ms as u128).concat("ms")
    } else if ms % 1000 == 0 {
        decimal_string((ms / 1000) as u128).concat("s")
    } else {
        decimal_string((ms / 1000) as u128).concat(".").concat(
            thousandths_string(ms % 1000).as_str(),
        ).concat("s")
    }
}

impl ClickHouseConfig {
    /// The debug rendering of the configuration; the password always shows as `***`.
    pub fn debug_text(&self) -> (r: String)
        ensures
            r@ == debug_rendering(self@),
    {
        let connect = match self.connect_timeout {
            Some(ms) => String::from_str("Some(").concat(millis_string(ms).as_str()).concat(")"),
            None => String::from_str("None"),
        };
        String::from_str("ClickHouseConfig { host: ").concat(
            debug_quoted(self.host.as_str()).as_str(),
        ).concat(", http_port: ").concat(decimal_string(self.http_port as u128).as_str()).concat(
            ", tls: ",
        ).concat(bool_string(self.tls).as_str()).concat(", tls_ca_file: ").concat(
            opt_path_string(&self.tls_ca_file).as_str(),
        ).concat(", tls_client_cert_file: ").concat(
            opt_path_string(&self.tls_client_cert_file).as_str(),
        ).concat(", tls_client_key_file: ").concat(
            opt_path_string(&self.tls_client_key_file).as_str(),
        ).concat(", user: ").concat(debug_quoted(self.user.as_str()).as_str()).concat(
            ", password: \"***\", database: ",
        ).concat(debug_quoted(self.database.as_str()).as_str()).concat(", timeout: ").concat(
            millis_string(self.timeout).as_str(),
        ).concat(", connect_timeout: ").concat(connect.as_str()).concat(
            ", max_idle_per_host: ",
        ).concat(decimal_string(self.max_idle_per_host as u128).as_str()).concat(
            ", max_in_flight: ",
        ).concat(decimal_string(self.max_in_flight as u128).as_str()).concat(
            ", acquire_timeout: ",
        ).concat(millis_string(self.acquire_timeout).as_str()).concat(", auth_in_url: ").concat(
            bool_string(self.auth_in_url).as_str(),
        ).concat(" }")
    }
}

/// The rendering does not depend on the password: two configurations that differ only
/// in their passwords render alike.
pub proof fn lemma_debug_ignores_password(c: ConfigView, password: Seq<char>)
    ensures
        debug_rendering(ConfigView { password, ..c }) == debug_rendering(c),
{
}

/// Whether `p` occurs in `s` as a contiguous piece.
pub open spec fn occurs_in(p: Seq<char>, s: Seq<char>) -> bool {
    exists|i: int| 0 <= i && i + p.len() <= s.len() && #[trigger] s.subrange(i, i + p.len()) == p
}

/// The rendering never shows the password, unless the password happens to occur in the
/// rendering of the other fields anyway (for instance when it equals a field name).
pub proof fn lemma_debug_never_shows_password(c: ConfigView)
    requires
        !occurs_in(c.password, debug_rendering(ConfigView { password: Seq::empty(), ..c })),
    ensures
        !occurs_in(c.password, debug_rendering(c)),
{
    lemma_debug_ignores_password(c, Seq::empty());
}

} // verus!
