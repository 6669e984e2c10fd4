//! Configuration from TOML text.
//!
//! The document is `schema_version = 1` plus flat fields named like the configuration
//! fields (`port` is an alias of `http_port`; the timeouts are `timeout_ms`,
//! `connect_timeout_ms` and `acquire_timeout_ms`). `password` may only be an empty
//! placeholder: secrets never come from files. Unknown fields are refused, missing ones
//! keep their defaults, and the environment is not read.
use vstd::prelude::*;

use crate::config::{
    config_check, default_config, opt_str_view, ClickHouseConfig, ConfigView,
};
use crate::error::{ClickHouseError, ClickHouseResult, ErrorView};
use crate::render::{debug_quoted, debug_str};
use crate::text::{chars_of, decimal, decimal_string};

verus! {

/// A top-level TOML value, as far as the configuration reads it.
#[derive(Clone, Debug, PartialEq, Eq)]
pub enum TomlScalar {
    Str(String),
    Int(i64),
    Bool(bool),
    /// A float, by its `Display` text.
    Float(String),
    /// A date-time, by its `Display` text (the TOML spelling).
    Datetime(String),
    Array,
    Table,
}

/// The model of a [`TomlScalar`].
pub enum TomlScalarView {
    Str(Seq<char>),
    Int(i64),
    Bool(bool),
    Float(Seq<char>),
    Datetime(Seq<char>),
    Array,
    Table,
}

impl View for TomlScalar {
    type V = TomlScalarView;

    open spec fn view(&self) -> TomlScalarView {
        match self {
            TomlScalar::Str(s) => TomlScalarView::Str(s@),
            TomlScalar::Int(i) => TomlScalarView::Int(*i),
            TomlScalar::Bool(b) => TomlScalarView::Bool(*b),
            TomlScalar::Float(t) => TomlScalarView::Float(t@),
            TomlScalar::Datetime(t) => TomlScalarView::Datetime(t@),
            TomlScalar::Array => TomlScalarView::Array,
            TomlScalar::Table => TomlScalarView::Table,
        }
    }
}

pub open spec fn entries_view(v: Seq<(String, TomlScalar)>) -> Seq<(Seq<char>, TomlScalarView)> {
    v.map_values(|e: (String, TomlScalar)| (e.0@, e.1@))
}

pub open spec fn document_view(d: Result<Vec<(String, TomlScalar)>, String>) -> Result<
    Seq<(Seq<char>, TomlScalarView)>,
    Seq<char>,
> {
    match d {
        Ok(v) => Ok(entries_view(v@)),
        Err(m) => Err(m@),
    }
}

/// The top-level entries of the TOML document `text`, in the order in which the `toml`
/// crate's table yields them, or the parser's message when `text` is not TOML.
pub uninterp spec fn toml_document(text: Seq<char>) -> Result<
    Seq<(Seq<char>, TomlScalarView)>,
    Seq<char>,
>;

/// Parses `text` with `toml::from_str` into a `toml::Table` and lists its top-level
/// entries, floats and date-times by their `Display` text; on failure, the parser's
/// message (`toml::de::Error::message`).
#[verifier::external_body]
fn parse_toml_table(text: &str) -> (r: Result<Vec<(String, TomlScalar)>, String>)
    ensures
        document_view(r) == toml_document(text@),
{
    match toml::from_str::<toml::Table>(text) {
        Err(e) => Err(e.message().to_owned()),
        Ok(t) => Ok(t.into_iter().map(|(k, v)| (k, match v {
            toml::Value::String(s) => TomlScalar::Str(s),
            toml::Value::Integer(i) => TomlScalar::Int(i),
            toml::Value::Float(f) => TomlScalar::Float(f.to_string()),
            toml::Value::Boolean(b) => TomlScalar::Bool(b),
            toml::Value::Datetime(d) => TomlScalar::Datetime(d.to_string()),
            toml::Value::Array(_) => TomlScalar::Array,
            toml::Value::Table(_) => TomlScalar::Table,
        })).collect()),
    }
}

/// The value of the first entry named `key`.
pub open spec fn lookup_key(entries: Seq<(Seq<char>, TomlScalarView)>, key: Seq<char>) -> Option<
    TomlScalarView,
>
    decreases entries.len(),
{
    if entries.len() == 0 {
        None
    } else if entries[0].0 == key {
        Some(entries[0].1)
    } else {
        lookup_key(entries.drop_first(), key)
    }
}

/// `v` in decimal, with a leading `-` when negative.
pub open spec fn signed_decimal(v: int) -> Seq<char> {
    if v < 0 {
        "-"@ + decimal((-v) as nat)
    } else {
        decimal(v as nat)
    }
}

/// `true` / `false`.
pub open spec fn bool_word(b: bool) -> Seq<char> {
    if b {
        "true"@
    } else {
        "false"@
    }
}

/// How `serde` shows a float it did not expect: its text, with `.0` added to a finite
/// value that has no decimal point.
pub open spec fn float_shown(t: Seq<char>) -> Seq<char> {
    if t == "inf"@ || t == "-inf"@ || t == "NaN"@ || t.contains('.') {
        t
    } else {
        t + ".0"@
    }
}

/// How `serde` names a value that a field did not expect (date-times reach a field as
/// their text).
pub open spec fn unexpected(v: TomlScalarView) -> Seq<char> {
    match v {
        TomlScalarView::Bool(b) => "boolean `"@ + bool_word(b) + "`"@,
        TomlScalarView::Int(i) => "integer `"@ + signed_decimal(i as int) + "`"@,
        TomlScalarView::Float(t) => "floating point `"@ + float_shown(t) + "`"@,
        TomlScalarView::Str(s) => "string "@ + debug_str(s),
        TomlScalarView::Datetime(t) => "string "@ + debug_str(t),
        TomlScalarView::Array => "sequence"@,
        TomlScalarView::Table => "map"@,
    }
}

/// `serde`'s error for a value of the wrong kind.
pub open spec fn invalid_type(v: TomlScalarView, expected: Seq<char>) -> Seq<char> {
    "invalid type: "@ + unexpected(v) + ", expected "@ + expected
}

/// `serde`'s error for an integer out of the field's range.
pub open spec fn invalid_value(i: i64, expected: Seq<char>) -> Seq<char> {
    "invalid value: integer `"@ + signed_decimal(i as int) + "`, expected "@ + expected
}

/// A text field (`String`, expected `"a string"`, or a path, `"path string"`): a string
/// or a date-time's text.
pub open spec fn as_text(v: TomlScalarView, expected: Seq<char>) -> Result<Seq<char>, Seq<char>> {
    match v {
        TomlScalarView::Str(s) => Ok(s),
        TomlScalarView::Datetime(t) => Ok(t),
        _ => Err(invalid_type(v, expected)),
    }
}

/// A `bool` field.
pub open spec fn as_flag(v: TomlScalarView) -> Result<bool, Seq<char>> {
    match v {
        TomlScalarView::Bool(b) => Ok(b),
        _ => Err(invalid_type(v, "a boolean"@)),
    }
}

/// An unsigned field of type `expected` whose largest value is `max`.
pub open spec fn as_count(v: TomlScalarView, max: nat, expected: Seq<char>) -> Result<nat, Seq<char>> {
    match v {
        TomlScalarView::Int(i) => if 0 <= i && i <= max {
            Ok(i as nat)
        } else {
            Err(invalid_value(i, expected))
        },
        _ => Err(invalid_type(v, expected)),
    }
}

/// The names that the fields answer to, as `serde` lists them for an unknown key.
pub open spec fn expected_fields() -> Seq<char> {
    "one of `host`, `http_port`, `port`, `tls`, `tls_ca_file`, `tls_client_cert_file`, `tls_client_key_file`, `user`, `database`, `timeout_ms`, `connect_timeout_ms`, `max_idle_per_host`, `max_in_flight`, `acquire_timeout_ms`, `auth_in_url`"@
}

pub open spec fn unknown_field(key: Seq<char>) -> Seq<char> {
    "unknown field `"@ + key + "`, expected "@ + expected_fields()
}

pub open spec fn duplicate_port() -> Seq<char> {
    "duplicate field `http_port`"@
}

/// Reads one entry into `c`, as the configuration's field deserialization does;
/// `port_seen` tells whether `http_port` (or its alias `port`) was read already.
pub open spec fn toml_field(c: ConfigView, key: Seq<char>, v: TomlScalarView, port_seen: bool) -> Result<
    (ConfigView, bool),
    Seq<char>,
> {
    if key == "host"@ {
        match as_text(v, "a string"@) {
            Ok(s) => Ok((ConfigView { host: s, ..c }, port_seen)),
            Err(m) => Err(m),
        }
    } else if key == "http_port"@ || key == "port"@ {
        if port_seen {
            Err(duplicate_port())
        } else {
            match as_count(v, u16::MAX as nat, "u16"@) {
                Ok(n) => Ok((ConfigView { http_port: n as u16, ..c }, true)),
                Err(m) => Err(m),
            }
        }
    } else if key == "tls"@ {
        match as_flag(v) {
            Ok(b) => Ok((ConfigView { tls: b, ..c }, port_seen)),
            Err(m) => Err(m),
        }
    } else if key == "tls_ca_file"@ {
        match as_text(v, "path string"@) {
            Ok(s) => Ok((ConfigView { tls_ca_file: Some(s), ..c }, port_seen)),
            Err(m) => Err(m),
        }
    } else if key == "tls_client_cert_file"@ {
        match as_text(v, "path string"@) {
            Ok(s) => Ok((ConfigView { tls_client_cert_file: Some(s), ..c }, port_seen)),
            Err(m) => Err(m),
        }
    } else if key == "tls_client_key_file"@ {
        match as_text(v, "path string"@) {
            Ok(s) => Ok((ConfigView { tls_client_key_file: Some(s), ..c }, port_seen)),
            Err(m) => Err(m),
        }
    } else if key == "user"@ {
        match as_text(v, "a string"@) {
            Ok(s) => Ok((ConfigView { user: s, ..c }, port_seen)),
            Err(m) => Err(m),
        }
    } else if key == "database"@ {
        match as_text(v, "a string"@) {
            Ok(s) => Ok((ConfigView { database: s, ..c }, port_seen)),
            Err(m) => Err(m),
        }
    } else if key == "timeout_ms"@ {
        match as_count(v, u64::MAX as nat, "u64"@) {
            Ok(n) => Ok((ConfigView { timeout: n as u64, ..c }, port_seen)),
            Err(m) => Err(m),
        }
    } else if key == "connect_timeout_ms"@ {
        match as_count(v, u64::MAX as nat, "u64"@) {
            Ok(n) => Ok((ConfigView { connect_timeout: Some(n as u64), ..c }, port_seen)),
            Err(m) => Err(m),
        }
    } else if key == "max_idle_per_host"@ {
        match as_count(v, usize::MAX as nat, "usize"@) {
            Ok(n) => Ok((ConfigView { max_idle_per_host: n as usize, ..c }, port_seen)),
            Err(m) => Err(m),
        }
    } else if key == "max_in_flight"@ {
        match as_count(v, usize::MAX as nat, "usize"@) {
            Ok(n) => Ok((ConfigView { max_in_flight: n as usize, ..c }, port_seen)),
            Err(m) => Err(m),
        }
    } else if key == "acquire_timeout_ms"@ {
        match as_count(v, u64::MAX as nat, "u64"@) {
            Ok(n) => Ok((ConfigView { acquire_timeout: n as u64, ..c }, port_seen)),
            Err(m) => Err(m),
        }
    } else if key == "auth_in_url"@ {
        match as_flag(v) {
            Ok(b) => Ok((ConfigView { auth_in_url: b, ..c }, port_seen)),
            Err(m) => Err(m),
        }
    } else {
        Err(unknown_field(key))
    }
}

/// Reads the entries in order into `c`; the first entry that cannot be read decides the error.
pub open spec fn toml_fields(
    c: ConfigView,
    entries: Seq<(Seq<char>, TomlScalarView)>,
    port_seen: bool,
) -> Result<ConfigView, Seq<char>>
    decreases entries.len(),
{
    if entries.len() == 0 {
        Ok(c)
    } else {
        match toml_field(c, entries[0].0, entries[0].1, port_seen) {
            Err(m) => Err(m),
            Ok((c2, p2)) => toml_fields(c2, entries.drop_first(), p2),
        }
    }
}

/// Whether an entry is one of the two that are checked, then taken out, before the fields
/// are read.
pub open spec fn is_header_key(key: Seq<char>) -> bool {
    key == "schema_version"@ || key == "password"@
}

/// `entries` without `schema_version` and `password`.
pub open spec fn field_entries(entries: Seq<(Seq<char>, TomlScalarView)>) -> Seq<
    (Seq<char>, TomlScalarView),
>
    decreases entries.len(),
{
    if entries.len() == 0 {
        Seq::empty()
    } else if is_header_key(entries.last().0) {
        field_entries(entries.drop_last())
    } else {
        field_entries(entries.drop_last()).push(entries.last())
    }
}

/// The configuration that a parsed TOML document describes, checked by
/// [`ClickHouseConfig::validate`].
pub open spec fn toml_config(
    doc: Result<Seq<(Seq<char>, TomlScalarView)>, Seq<char>>,
    plain_http_hosts: Option<Seq<char>>,
) -> Result<ConfigView, ErrorView> {
    match doc {
        Err(m) => Err(ErrorView::Config("TOML 解析失败: "@ + m)),
        Ok(entries) => match lookup_key(entries, "schema_version"@) {
            None => Err(ErrorView::Config("TOML 缺少 schema_version 字段"@)),
            Some(TomlScalarView::Int(version)) => if version != 1 {
                Err(ErrorView::Config("TOML schema_version 不支持: "@ + signed_decimal(version as int)))
            } else if lookup_key(entries, "password"@) is Some && lookup_key(entries, "password"@)
                != Some(TomlScalarView::Str(Seq::empty())) {
                Err(ErrorView::Config("TOML 禁止非空 password 字段，请改用环境变量注入"@))
            } else {
                match toml_fields(default_config(), field_entries(entries), false) {
                    Err(m) => Err(ErrorView::Config("TOML 反序列化失败: "@ + m)),
                    Ok(c) => match config_check(c, plain_http_hosts) {
                        Err(e) => Err(e),
                        Ok(()) => Ok(c),
                    },
                }
            },
            Some(_) => Err(ErrorView::Config("TOML schema_version 必须为整数"@)),
        },
    }
}

/// `v` in decimal, with a leading `-` when negative (how `{}` formats an `i64`).
fn signed_decimal_string(v: i64) -> (r: String)
    ensures
        r@ == signed_decimal(v as int),
{
    if v < 0 {
        let magnitude: u128 = (0i128 - (v as i128)) as u128;
        String::from_str("-").concat(decimal_string(magnitude).as_str())
    } else {
        decimal_string(v as u128)
    }
}

fn is_key(k: &String, name: &str) -> (r: bool)
    ensures
        r == (k@ == name@),
{
    *k == String::from_str(name)
}

/// The value of the first entry named `key`.
fn find_entry<'a>(entries: &'a [(String, TomlScalar)], key: &str) -> (r: Option<&'a TomlScalar>)
    ensures
        match r {
            Some(v) => lookup_key(entries_view(entries@), key@) == Some(v@),
            None => lookup_key(entries_view(entries@), key@) is None,
        },
{
    let mut i: usize = entries.len();
    let mut found: Option<&'a TomlScalar> = None;
    // scanning from the back, the last hit seen is the first entry named `key`
    while i > 0
        invariant
            i <= entries@.len(),
            match found {
                Some(v) => lookup_key(entries_view(entries@).skip(i as int), key@) == Some(v@),
                None => lookup_key(entries_view(entries@).skip(i as int), key@) is None,
            },
        decreases i,
    {
        i = i - 1;
        proof {
            let ev = entries_view(entries@);
            assert(ev.skip(i as int).drop_first() =~= ev.skip(i + 1));
            assert(ev.skip(i as int)[0] == ev[i as int]);
        }
        if is_key(&entries[i].0, key) {
            found = Some(&entries[i].1);
        }
    }
    proof {
        assert(entries_view(entries@).skip(0) =~= entries_view(entries@));
    }
    found
}

fn bool_string(b: bool) -> (r: String)
    ensures
        r@ == bool_word(b),
{
    if b {
        String::from_str("true")
    } else {
        String::from_str("false")
    }
}

fn has_decimal_point(t: &str) -> (r: bool)
    ensures
        r == t@.contains('.'),
{
    let cs = chars_of(t);
    let mut i: usize = 0;
    while i < cs.len()
        invariant
            cs@ == t@,
            i <= cs@.len(),
            forall|k: int| 0 <= k < i ==> cs@[k] != '.',
        decreases cs@.len() - i,
    {
        if cs[i] == '.' {
            return true;
        }
        i = i + 1;
    }
    false
}

fn float_shown_string(t: &String) -> (r: String)
    ensures
        r@ == float_shown(t@),
{
    let special = *t == String::from_str("inf") || *t == String::from_str("-inf") || *t
        == String::from_str("NaN");
    if special || has_decimal_point(t.as_str()) {
        t.clone()
    } else {
        t.clone().concat(".0")
    }
}

fn unexpected_string(v: &TomlScalar) -> (r: String)
    ensures
        r@ == unexpected(v@),
{
    match v {
        TomlScalar::Bool(b) => String::from_str("boolean `").concat(bool_string(*b).as_str()).concat(
            "`",
        ),
        TomlScalar::Int(i) => String::from_str("integer `").concat(
            signed_decimal_string(*i).as_str(),
        ).concat("`"),
        TomlScalar::Float(t) => String::from_str("floating point `").concat(
            float_shown_string(t).as_str(),
        ).concat("`"),
        TomlScalar::Str(s) => String::from_str("string ").concat(debug_quoted(s.as_str()).as_str()),
        TomlScalar::Datetime(t) => String::from_str("string ").concat(
            debug_quoted(t.as_str()).as_str(),
        ),
        TomlScalar::Array => String::from_str("sequence"),
        TomlScalar::Table => String::from_str("map"),
    }
}

fn type_error(v: &TomlScalar, expected: &str) -> (m: String)
    ensures
        m@ == invalid_type(v@, expected@),
{
    String::from_str("invalid type: ").concat(unexpected_string(v).as_str()).concat(
        ", expected ",
    ).concat(expected)
}

fn text_of(v: &TomlScalar, expected: &str) -> (r: Result<String, String>)
    ensures
        match r {
            Ok(s) => as_text(v@, expected@) == Ok::<Seq<char>, Seq<char>>(s@),
            Err(m) => as_text(v@, expected@) == Err::<Seq<char>, Seq<char>>(m@),
        },
{
    match v {
        TomlScalar::Str(s) => Ok(s.clone()),
        TomlScalar::Datetime(t) => Ok(t.clone()),
        _ => Err(type_error(v, expected)),
    }
}

fn flag_of(v: &TomlScalar) -> (r: Result<bool, String>)
    ensures
        match r {
            Ok(b) => as_flag(v@) == Ok::<bool, Seq<char>>(b),
            Err(m) => as_flag(v@) == Err::<bool, Seq<char>>(m@),
        },
{
    match v {
        TomlScalar::Bool(b) => Ok(*b),
        _ => Err(type_error(v, "a boolean")),
    }
}

fn count_of(v: &TomlScalar, max: u64, expected: &str) -> (r: Result<u64, String>)
    ensures
        match r {
            Ok(n) => as_count(v@, max as nat, expected@) == Ok::<nat, Seq<char>>(n as nat),
            Err(m) => as_count(v@, max as nat, expected@) == Err::<nat, Seq<char>>(m@),
        },
{
    match v {
        TomlScalar::Int(i) => {
            if *i < 0 || (*i as u64) > max {
                Err(String::from_str("invalid value: integer `").concat(
                    signed_decimal_string(*i).as_str(),
                ).concat("`, expected ").concat(expected))
            } else {
                Ok(*i as u64)
            }
        },
        _ => Err(type_error(v, expected)),
    }
}

/// Reads one entry into `c` (see [`toml_field`]).
fn apply_toml_entry(c: ClickHouseConfig, key: &String, v: &TomlScalar, port_seen: bool) -> (r:
    Result<(ClickHouseConfig, bool), String>)
    ensures
        match r {
            Ok((c2, p2)) => toml_field(c@, key@, v@, port_seen) == Ok::<(ConfigView, bool), Seq<char>>(
                (c2@, p2),
            ),
            Err(m) => toml_field(c@, key@, v@, port_seen) == Err::<(ConfigView, bool), Seq<char>>(
                m@,
            ),
        },
{
    let mut c = c;
    if is_key(key, "host") {
        c.host = text_of(v, "a string")?;
        Ok((c, port_seen))
    } else if is_key(key, "http_port") || is_key(key, "port") {
        if port_seen {
            return Err(String::from_str("duplicate field `http_port`"));
        }
        let n = count_of(v, 65535, "u16")?;
        c.http_port = n as u16;
        Ok((c, true))
    } else if is_key(key, "tls") {
        c.tls = flag_of(v)?;
        Ok((c, port_seen))
    } else if is_key(key, "tls_ca_file") {
        c.tls_ca_file = Some(text_of(v, "path string")?);
        Ok((c, port_seen))
    } else if is_key(key, "tls_client_cert_file") {
        c.tls_client_cert_file = Some(text_of(v, "path string")?);
        Ok((c, port_seen))
    } else if is_key(key, "tls_client_key_file") {
        c.tls_client_key_file = Some(text_of(v, "path string")?);
        Ok((c, port_seen))
    } else if is_key(key, "user") {
        c.user = text_of(v, "a string")?;
        Ok((c, port_seen))
    } else if is_key(key, "database") {
        c.database = text_of(v, "a string")?;
        Ok((c, port_seen))
    } else if is_key(key, "timeout_ms") {
        c.timeout = count_of(v, u64::MAX, "u64")?;
        Ok((c, port_seen))
    } else if is_key(key, "connect_timeout_ms") {
        c.connect_timeout = Some(count_of(v, u64::MAX, "u64")?);
        Ok((c, port_seen))
    } else if is_key(key, "max_idle_per_host") {
        let n = count_of(v, usize::MAX as u64, "usize")?;
        c.max_idle_per_host = n as usize;
        Ok((c, port_seen))
    } else if is_key(key, "max_in_flight") {
        let n = count_of(v, usize::MAX as u64, "usize")?;
        c.max_in_flight = n as usize;
        Ok((c, port_seen))
    } else if is_key(key, "acquire_timeout_ms") {
        c.acquire_timeout = count_of(v, u64::MAX, "u64")?;
        Ok((c, port_seen))
    } else if is_key(key, "auth_in_url") {
        c.auth_in_url = flag_of(v)?;
        Ok((c, port_seen))
    } else {
        Err(String::from_str("unknown field `").concat(key.as_str()).concat("`, expected ").concat(
            "one of `host`, `http_port`, `port`, `tls`, `tls_ca_file`, `tls_client_cert_file`, `tls_client_key_file`, `user`, `database`, `timeout_ms`, `connect_timeout_ms`, `max_idle_per_host`, `max_in_flight`, `acquire_timeout_ms`, `auth_in_url`",
        ))
    }
}

fn copy_scalar(v: &TomlScalar) -> (r: TomlScalar)
    ensures
        r@ == v@,
{
    match v {
        TomlScalar::Str(s) => TomlScalar::Str(s.clone()),
        TomlScalar::Int(i) => TomlScalar::Int(*i),
        TomlScalar::Bool(b) => TomlScalar::Bool(*b),
        TomlScalar::Float(t) => TomlScalar::Float(t.clone()),
        TomlScalar::Datetime(t) => TomlScalar::Datetime(t.clone()),
        TomlScalar::Array => TomlScalar::Array,
        TomlScalar::Table => TomlScalar::Table,
    }
}

/// The entries other than `schema_version` and `password`, in order.
fn strip_header_entries(entries: &[(String, TomlScalar)]) -> (r: Vec<(String, TomlScalar)>)
    ensures
        entries_view(r@) == field_entries(entries_view(entries@)),
{
    let mut out: Vec<(String, TomlScalar)> = Vec::new();
    let mut i: usize = 0;
    let ghost ev = entries_view(entries@);
    while i < entries.len()
        invariant
            ev == entries_view(entries@),
            i <= entries@.len(),
            entries_view(out@) == field_entries(ev.take(i as int)),
        decreases entries@.len() - i,
    {
        proof {
            assert(ev.take(i + 1).drop_last() =~= ev.take(i as int));
            assert(ev.take(i + 1).last() == ev[i as int]);
        }
        if !(is_key(&entries[i].0, "schema_version") || is_key(&entries[i].0, "password")) {
            let ghost before = out@;
            out.push((entries[i].0.clone(), copy_scalar(&entries[i].1)));
            proof {
                assert(entries_view(out@) =~= entries_view(before).push(ev[i as int]));
            }
        }
        i = i + 1;
    }
    proof {
        assert(ev.take(entries@.len() as int) =~= ev);
    }
    out
}

/// Reads configuration fields over the defaults, in order, as the configuration's
/// deserialization does: every key must name a field (`port` is an alias of
/// `http_port`), each value must fit its field, and the first entry that does not
/// decides the message. `schema_version` and `password` are not fields.
pub fn read_config_fields(entries: &[(String, TomlScalar)]) -> (r: Result<
    ClickHouseConfig,
    String,
>)
    ensures
        match r {
            Ok(c) => toml_fields(default_config(), entries_view(entries@), false) == Ok::<
                ConfigView,
                Seq<char>,
            >(c@),
            Err(m) => toml_fields(default_config(), entries_view(entries@), false) == Err::<
                ConfigView,
                Seq<char>,
            >(m@),
        },
{
    let mut c = ClickHouseConfig::default();
    let mut port_seen = false;
    let mut i: usize = 0;
    let ghost ev = entries_view(entries@);
    proof {
        assert(ev.skip(0) =~= ev);
    }
    while i < entries.len()
        invariant
            ev == entries_view(entries@),
            i <= entries@.len(),
            toml_fields(default_config(), ev, false) == toml_fields(c@, ev.skip(i as int), port_seen),
        decreases entries@.len() - i,
    {
        proof {
            assert(ev.skip(i as int).drop_first() =~= ev.skip(i + 1));
            assert(ev.skip(i as int)[0] == ev[i as int]);
        }
        match apply_toml_entry(c, &entries[i].0, &entries[i].1, port_seen) {
            Err(m) => {
                return Err(m);
            },
            Ok((c2, p2)) => {
                c = c2;
                port_seen = p2;
            },
        }
        i = i + 1;
    }
    proof {
        assert(ev.skip(i as int).len() == 0);
    }
    Ok(c)
}

/// The configuration fields that a parsed TOML document names, read over the defaults;
/// or the parser's message.
pub open spec fn document_fields(doc: Result<Seq<(Seq<char>, TomlScalarView)>, Seq<char>>) -> Result<
    ConfigView,
    Seq<char>,
> {
    match doc {
        Err(m) => Err(m),
        Ok(entries) => toml_fields(default_config(), entries, false),
    }
}

/// Reads a TOML document's top-level entries straight as configuration fields, as the
/// configuration's deserialization from TOML does (no `schema_version`, no `password`,
/// no validation); the error is the parser's or the field reader's message.
pub fn fields_from_toml(text: &str) -> (r: Result<ClickHouseConfig, String>)
    ensures
        match r {
            Ok(c) => document_fields(toml_document(text@)) == Ok::<ConfigView, Seq<char>>(c@),
            Err(m) => document_fields(toml_document(text@)) == Err::<ConfigView, Seq<char>>(m@),
        },
{
    match parse_toml_table(text) {
        Err(m) => Err(m),
        Ok(entries) => read_config_fields(entries.as_slice()),
    }
}

/// Builds the configuration from a parsed TOML document: `Ok` holds its top-level
/// entries, `Err` the parser's message. Checks `schema_version` and `password`, reads
/// the fields over the defaults and validates the result; `plain_http_hosts` is the
/// plain-HTTP allowlist that validation consults.
pub fn from_toml_document(
    doc: Result<Vec<(String, TomlScalar)>, String>,
    plain_http_hosts: Option<&str>,
) -> (r: ClickHouseResult<ClickHouseConfig>)
    ensures
        match r {
            Ok(c) => toml_config(document_view(doc), opt_str_view(plain_http_hosts)) == Ok::<
                ConfigView,
                ErrorView,
            >(c@),
            Err(e) => toml_config(document_view(doc), opt_str_view(plain_http_hosts)) == Err::<
                ConfigView,
                ErrorView,
            >(e@),
        },
{
    let entries = match doc {
        Err(m) => {
            return Err(ClickHouseError::Config(String::from_str("TOML 解析失败: ").concat(m.as_str())));
        },
        Ok(v) => v,
    };
    let version = match find_entry(entries.as_slice(), "schema_version") {
        None => {
            return Err(ClickHouseError::Config(String::from_str("TOML 缺少 schema_version 字段")));
        },
        Some(TomlScalar::Int(v)) => *v,
        Some(_) => {
            return Err(ClickHouseError::Config(String::from_str("TOML schema_version 必须为整数")));
        },
    };
    if version != 1 {
        return Err(
            ClickHouseError::Config(
                String::from_str("TOML schema_version 不支持: ").concat(
                    signed_decimal_string(version).as_str(),
                ),
            ),
        );
    }
    let password_ok = match find_entry(entries.as_slice(), "password") {
        None => true,
        Some(TomlScalar::Str(s)) => {
            proof {
                if s@.len() == 0 {
                    assert(s@ =~= Seq::<char>::empty());
                }
            }
            s.as_str().is_empty()
        },
        Some(_) => false,
    };
    if !password_ok {
        return Err(
            ClickHouseError::Config(
                String::from_str("TOML 禁止非空 password 字段，请改用环境变量注入"),
            ),
        );
    }
    let fields = strip_header_entries(entries.as_slice());
    let config = match read_config_fields(fields.as_slice()) {
        Err(m) => {
            return Err(
                ClickHouseError::Config(String::from_str("TOML 反序列化失败: ").concat(m.as_str())),
            );
        },
        Ok(c) => c,
    };
    match config.validate(plain_http_hosts) {
        Err(e) => Err(e),
        Ok(()) => Ok(config),
    }
}

impl ClickHouseConfig {
    /// Parses and checks a configuration from TOML text, without reading the environment;
    /// `plain_http_hosts` is the plain-HTTP allowlist that validation consults.
    ///
    /// `schema_version = 1` is required; a non-empty `password` is refused.
    pub fn from_toml(text: &str, plain_http_hosts: Option<&str>) -> (r: ClickHouseResult<
        ClickHouseConfig,
    >)
        ensures
            match r {
                Ok(c) => toml_config(toml_document(text@), opt_str_view(plain_http_hosts)) == Ok::<
                    ConfigView,
                    ErrorView,
                >(c@),
                Err(e) => toml_config(toml_document(text@), opt_str_view(plain_http_hosts))
                    == Err::<ConfigView, ErrorView>(e@),
            },
    {
        from_toml_document(parse_toml_table(text), plain_http_hosts)
    }
}

proof fn lemma_fields_keep_password(c: ConfigView, entries: Seq<(Seq<char>, TomlScalarView)>, port_seen: bool)
    ensures
        toml_fields(c, entries, port_seen) matches Ok(c2) ==> c2.password == c.password && c2.retry
            == c.retry,
    decreases entries.len(),
{
    if entries.len() > 0 {
        match toml_field(c, entries[0].0, entries[0].1, port_seen) {
            Err(_) => {},
            Ok((c2, p2)) => {
                lemma_fields_keep_password(c2, entries.drop_first(), p2);
            },
        }
    }
}

/// Secrets never come from TOML: a configuration read from TOML has an empty password
/// (and the default retry policy, which TOML cannot set).
pub proof fn lemma_toml_has_no_password(
    doc: Result<Seq<(Seq<char>, TomlScalarView)>, Seq<char>>,
    plain_http_hosts: Option<Seq<char>>,
)
    ensures
        toml_config(doc, plain_http_hosts) matches Ok(c) ==> c.password.len() == 0 && c.retry
            == crate::retry::default_retry(),
{
    if let Ok(entries) = doc {
        lemma_fields_keep_password(default_config(), field_entries(entries), false);
    }
}

/// Whether some entry of `entries` is named `key`.
pub open spec fn names_key(entries: Seq<(Seq<char>, TomlScalarView)>, key: Seq<char>) -> bool {
    exists|i: int| 0 <= i < entries.len() && #[trigger] entries[i].0 == key
}

/// Whether the field that `key` names is left out of `entries`; for `http_port`, its
/// alias `port` is left out too.
pub open spec fn field_absent(entries: Seq<(Seq<char>, TomlScalarView)>, key: Seq<char>) -> bool {
    &&& !names_key(entries, key)
    &&& key == "http_port"@ ==> !names_key(entries, "port"@)
}

/// Whether `a` and `b` agree on the field that the TOML key `key` sets (any two
/// configurations agree on a key that names no field).
pub open spec fn same_field(key: Seq<char>, a: ConfigView, b: ConfigView) -> bool {
    if key == "host"@ {
        a.host == b.host
    } else if key == "http_port"@ {
        a.http_port == b.http_port
    } else if key == "tls"@ {
        a.tls == b.tls
    } else if key == "tls_ca_file"@ {
        a.tls_ca_file == b.tls_ca_file
    } else if key == "tls_client_cert_file"@ {
        a.tls_client_cert_file == b.tls_client_cert_file
    } else if key == "tls_client_key_file"@ {
        a.tls_client_key_file == b.tls_client_key_file
    } else if key == "user"@ {
        a.user == b.user
    } else if key == "database"@ {
        a.database == b.database
    } else if key == "timeout_ms"@ {
        a.timeout == b.timeout
    } else if key == "connect_timeout_ms"@ {
        a.connect_timeout == b.connect_timeout
    } else if key == "max_idle_per_host"@ {
        a.max_idle_per_host == b.max_idle_per_host
    } else if key == "max_in_flight"@ {
        a.max_in_flight == b.max_in_flight
    } else if key == "acquire_timeout_ms"@ {
        a.acquire_timeout == b.acquire_timeout
    } else if key == "auth_in_url"@ {
        a.auth_in_url == b.auth_in_url
    } else {
        true
    }
}

proof fn lemma_fields_keep_absent(
    c: ConfigView,
    entries: Seq<(Seq<char>, TomlScalarView)>,
    port_seen: bool,
    key: Seq<char>,
)
    requires
        field_absent(entries, key),
    ensures
        toml_fields(c, entries, port_seen) matches Ok(c2) ==> same_field(key, c, c2),
    decreases entries.len(),
{
    if entries.len() > 0 {
        let rest = entries.drop_first();
        assert(entries[0].0 != key);
        assert(key == "http_port"@ ==> entries[0].0 != "port"@);
        assert forall|k: Seq<char>| names_key(rest, k) implies names_key(entries, k) by {
            let i = choose|i: int| 0 <= i < rest.len() && #[trigger] rest[i].0 == k;
            assert(entries[i + 1].0 == k);
        }
        match toml_field(c, entries[0].0, entries[0].1, port_seen) {
            Err(_) => {},
            Ok((c1, p1)) => {
                assert(same_field(key, c, c1));
                lemma_fields_keep_absent(c1, rest, p1, key);
            },
        }
    }
}

proof fn lemma_field_entries_from(entries: Seq<(Seq<char>, TomlScalarView)>, key: Seq<char>)
    ensures
        names_key(field_entries(entries), key) ==> names_key(entries, key),
    decreases entries.len(),
{
    if entries.len() > 0 {
        let init = entries.drop_last();
        lemma_field_entries_from(init, key);
        if names_key(field_entries(entries), key) {
            let f = field_entries(entries);
            let i = choose|i: int| 0 <= i < f.len() && #[trigger] f[i].0 == key;
            if is_header_key(entries.last().0) {
                assert(f == field_entries(init));
            } else {
                assert(f == field_entries(init).push(entries.last()));
                if i < field_entries(init).len() {
                    assert(f[i] == field_entries(init)[i]);
                    assert(names_key(field_entries(init), key));
                } else {
                    assert(entries[entries.len() - 1].0 == key);
                }
            }
            if names_key(init, key) {
                let j = choose|j: int| 0 <= j < init.len() && #[trigger] init[j].0 == key;
                assert(entries[j].0 == key);
            }
        }
    }
}

/// A key that the TOML document leaves out keeps its default value in the configuration
/// read from it.
pub proof fn lemma_toml_absent_keys_keep_defaults(
    entries: Seq<(Seq<char>, TomlScalarView)>,
    plain_http_hosts: Option<Seq<char>>,
    key: Seq<char>,
)
    requires
        field_absent(entries, key),
    ensures
        toml_config(Ok(entries), plain_http_hosts) matches Ok(c) ==> same_field(
            key,
            default_config(),
            c,
        ),
{
    lemma_field_entries_from(entries, key);
    lemma_field_entries_from(entries, "port"@);
    lemma_fields_keep_absent(default_config(), field_entries(entries), false, key);
}

/// What a well-typed entry `(key, v)` of a TOML document says of the configuration read
/// from it: a string sets a text or path field to that string, a non-negative integer
/// that fits sets a numeric field (milliseconds for the `_ms` keys), a boolean sets a flag.
pub open spec fn entry_holds(key: Seq<char>, v: TomlScalarView, c: ConfigView) -> bool {
    match v {
        TomlScalarView::Str(s) => {
            &&& key == "host"@ ==> c.host == s
            &&& key == "tls_ca_file"@ ==> c.tls_ca_file == Some(s)
            &&& key == "tls_client_cert_file"@ ==> c.tls_client_cert_file == Some(s)
            &&& key == "tls_client_key_file"@ ==> c.tls_client_key_file == Some(s)
            &&& key == "user"@ ==> c.user == s
            &&& key == "database"@ ==> c.database == s
        },
        TomlScalarView::Int(n) => 0 <= n ==> {
            &&& (key == "http_port"@ || key == "port"@) && n <= 65535 ==> c.http_port == n
            &&& key == "timeout_ms"@ ==> c.timeout == n
            &&& key == "connect_timeout_ms"@ ==> c.connect_timeout == Some(n as u64)
            &&& key == "max_idle_per_host"@ && n <= usize::MAX ==> c.max_idle_per_host == n
            &&& key == "max_in_flight"@ && n <= usize::MAX ==> c.max_in_flight == n
            &&& key == "acquire_timeout_ms"@ ==> c.acquire_timeout == n
        },
        TomlScalarView::Bool(b) => {
            &&& key == "tls"@ ==> c.tls == b
            &&& key == "auth_in_url"@ ==> c.auth_in_url == b
        },
        _ => true,
    }
}

/// Whether the keys `a` and `key` set the same field (`port` is `http_port`).
pub open spec fn same_target(a: Seq<char>, key: Seq<char>) -> bool {
    a == key || ((a == "http_port"@ || a == "port"@) && (key == "http_port"@ || key == "port"@))
}

/// The key under which `field_absent` looks for the field that `key` sets.
pub open spec fn canonical_key(key: Seq<char>) -> Seq<char> {
    if key == "port"@ {
        "http_port"@
    } else {
        key
    }
}

/// A document that holds the entry `(key, v)`, and no other entry for the same field.
pub open spec fn sole_entry(
    entries: Seq<(Seq<char>, TomlScalarView)>,
    key: Seq<char>,
    v: TomlScalarView,
) -> bool {
    &&& exists|i: int| 0 <= i < entries.len() && #[trigger] entries[i] == (key, v)
    &&& forall|j: int|
        0 <= j < entries.len() && same_target((#[trigger] entries[j]).0, key) ==> entries[j] == (
            key,
            v,
        )
}

/// The field keys differ in their length or their first char.
proof fn lemma_field_key_shapes()
    ensures
        "host"@.len() == 4 && "host"@[0] == 'h',
        "http_port"@.len() == 9 && "http_port"@[0] == 'h',
        "port"@.len() == 4 && "port"@[0] == 'p',
        "tls"@.len() == 3 && "tls"@[0] == 't',
        "tls_ca_file"@.len() == 11 && "tls_ca_file"@[0] == 't',
        "tls_client_cert_file"@.len() == 20 && "tls_client_cert_file"@[0] == 't',
        "tls_client_key_file"@.len() == 19 && "tls_client_key_file"@[0] == 't',
        "user"@.len() == 4 && "user"@[0] == 'u',
        "database"@.len() == 8 && "database"@[0] == 'd',
        "timeout_ms"@.len() == 10 && "timeout_ms"@[0] == 't',
        "connect_timeout_ms"@.len() == 18 && "connect_timeout_ms"@[0] == 'c',
        "max_idle_per_host"@.len() == 17 && "max_idle_per_host"@[0] == 'm',
        "max_in_flight"@.len() == 13 && "max_in_flight"@[0] == 'm',
        "acquire_timeout_ms"@.len() == 18 && "acquire_timeout_ms"@[0] == 'a',
        "auth_in_url"@.len() == 11 && "auth_in_url"@[0] == 'a',
{
    reveal_strlit("host");
    reveal_strlit("http_port");
    reveal_strlit("port");
    reveal_strlit("tls");
    reveal_strlit("tls_ca_file");
    reveal_strlit("tls_client_cert_file");
    reveal_strlit("tls_client_key_file");
    reveal_strlit("user");
    reveal_strlit("database");
    reveal_strlit("timeout_ms");
    reveal_strlit("connect_timeout_ms");
    reveal_strlit("max_idle_per_host");
    reveal_strlit("max_in_flight");
    reveal_strlit("acquire_timeout_ms");
    reveal_strlit("auth_in_url");
}

proof fn lemma_entry_read_holds(c: ConfigView, key: Seq<char>, v: TomlScalarView, port_seen: bool)
    ensures
        toml_field(c, key, v, port_seen) matches Ok((c1, p1)) ==> entry_holds(key, v, c1),
{
    lemma_field_key_shapes();
}

proof fn lemma_entry_kept(key: Seq<char>, v: TomlScalarView, c1: ConfigView, c2: ConfigView)
    requires
        entry_holds(key, v, c1),
        same_field(canonical_key(key), c1, c2),
    ensures
        entry_holds(key, v, c2),
{
    lemma_field_key_shapes();
}

proof fn lemma_fields_apply_entry(
    c: ConfigView,
    entries: Seq<(Seq<char>, TomlScalarView)>,
    port_seen: bool,
    key: Seq<char>,
    v: TomlScalarView,
)
    requires
        sole_entry(entries, key, v),
    ensures
        toml_fields(c, entries, port_seen) matches Ok(c2) ==> entry_holds(key, v, c2),
    decreases entries.len(),
{
    let rest = entries.drop_first();
    assert forall|j: int| 0 <= j < rest.len() && same_target((#[trigger] rest[j]).0, key) implies rest[j]
        == (key, v) by {
        assert(rest[j] == entries[j + 1]);
    }
    match toml_field(c, entries[0].0, entries[0].1, port_seen) {
        Err(_) => {},
        Ok((c1, p1)) => {
            if exists|i: int| 0 <= i < rest.len() && #[trigger] rest[i] == (key, v) {
                lemma_fields_apply_entry(c1, rest, p1, key, v);
            } else {
                let i = choose|i: int| 0 <= i < entries.len() && #[trigger] entries[i] == (key, v);
                if i > 0 {
                    assert(rest[i - 1] == entries[i]);
                }
                assert(entries[0] == (key, v));
                lemma_entry_read_holds(c, key, v, port_seen);
                let k = canonical_key(key);
                assert forall|x: Seq<char>| names_key(rest, x) && same_target(x, key) implies false by {
                    let j = choose|j: int| 0 <= j < rest.len() && #[trigger] rest[j].0 == x;
                    assert(same_target(rest[j].0, key));
                }
                assert(same_target(k, key));
                assert(k == "http_port"@ ==> same_target("port"@, key));
                assert(field_absent(rest, k));
                lemma_fields_keep_absent(c1, rest, p1, k);
                if toml_fields(c1, rest, p1) is Ok {
                    lemma_entry_kept(key, v, c1, toml_fields(c1, rest, p1)->Ok_0);
                }
            }
        },
    }
}

proof fn lemma_field_entries_members(entries: Seq<(Seq<char>, TomlScalarView)>)
    ensures
        forall|j: int|
            0 <= j < field_entries(entries).len() ==> exists|i: int|
                0 <= i < entries.len() && #[trigger] entries[i] == #[trigger] field_entries(entries)[j],
        forall|i: int|
            0 <= i < entries.len() && !is_header_key((#[trigger] entries[i]).0) ==> exists|j: int|
                0 <= j < field_entries(entries).len() && #[trigger] field_entries(entries)[j]
                    == entries[i],
    decreases entries.len(),
{
    if entries.len() > 0 {
        let init = entries.drop_last();
        lemma_field_entries_members(init);
        let f = field_entries(entries);
        let fi = field_entries(init);
        assert forall|j: int| 0 <= j < f.len() implies exists|i: int|
            0 <= i < entries.len() && #[trigger] entries[i] == #[trigger] f[j] by {
            if j < fi.len() {
                assert(f[j] == fi[j]);
                let i = choose|i: int| 0 <= i < init.len() && #[trigger] init[i] == fi[j];
                assert(entries[i] == init[i]);
            } else {
                assert(f[j] == entries[entries.len() - 1]);
            }
        }
        assert forall|i: int| 0 <= i < entries.len() && !is_header_key((#[trigger] entries[i]).0) implies exists|j: int|
            0 <= j < f.len() && #[trigger] f[j] == entries[i] by {
            if i < init.len() {
                assert(init[i] == entries[i]);
                let j = choose|j: int| 0 <= j < fi.len() && #[trigger] fi[j] == init[i];
                if is_header_key(entries.last().0) {
                    assert(f == fi);
                } else {
                    assert(f == fi.push(entries.last()));
                    assert(f[j] == fi[j]);
                }
            } else {
                assert(f == fi.push(entries.last()));
                assert(f[fi.len() as int] == entries[i]);
            }
        }
    }
}

/// A field that the TOML document sets takes the document's value: when the document holds
/// the well-typed entry `(key, v)` and no other entry for that field, the configuration
/// read from it has that value in that field.
pub proof fn lemma_toml_present_keys_set_fields(
    entries: Seq<(Seq<char>, TomlScalarView)>,
    plain_http_hosts: Option<Seq<char>>,
    key: Seq<char>,
    v: TomlScalarView,
)
    requires
        !is_header_key(key),
        sole_entry(entries, key, v),
    ensures
        toml_config(Ok(entries), plain_http_hosts) matches Ok(c) ==> entry_holds(key, v, c),
{
    lemma_field_entries_members(entries);
    let f = field_entries(entries);
    let i = choose|i: int| 0 <= i < entries.len() && #[trigger] entries[i] == (key, v);
    assert(!is_header_key(entries[i].0));
    let j = choose|j: int| 0 <= j < f.len() && #[trigger] f[j] == entries[i];
    assert(f[j] == (key, v));
    assert forall|j2: int| 0 <= j2 < f.len() && same_target((#[trigger] f[j2]).0, key) implies f[j2]
        == (key, v) by {
        let i2 = choose|i2: int| 0 <= i2 < entries.len() && #[trigger] entries[i2] == f[j2];
        assert(same_target(entries[i2].0, key));
    }
    assert(sole_entry(f, key, v));
    lemma_fields_apply_entry(default_config(), f, false, key, v);
}

/// Whether `key` sets the HTTP port (`port` is an alias of `http_port`).
pub open spec fn is_port_key(key: Seq<char>) -> bool {
    key == "http_port"@ || key == "port"@
}

/// Whether `(key, v)` names a field and `v` fits it: text for the host, user, database
/// and TLS paths (a string, or a date-time's text), a boolean for the flags, an integer
/// within the field's range for the port, the counts and the millisecond timeouts.
pub open spec fn entry_well_typed(key: Seq<char>, v: TomlScalarView) -> bool {
    if key == "host"@ || key == "user"@ || key == "database"@ || key == "tls_ca_file"@ || key
        == "tls_client_cert_file"@ || key == "tls_client_key_file"@ {
        v is Str || v is Datetime
    } else if is_port_key(key) {
        v matches TomlScalarView::Int(n) && 0 <= n <= 65535
    } else if key == "tls"@ || key == "auth_in_url"@ {
        v is Bool
    } else if key == "timeout_ms"@ || key == "connect_timeout_ms"@ || key == "acquire_timeout_ms"@ {
        v matches TomlScalarView::Int(n) && 0 <= n
    } else if key == "max_idle_per_host"@ || key == "max_in_flight"@ {
        v matches TomlScalarView::Int(n) && 0 <= n <= usize::MAX
    } else {
        false
    }
}

/// How many entries set the HTTP port.
pub open spec fn port_count(entries: Seq<(Seq<char>, TomlScalarView)>) -> nat
    decreases entries.len(),
{
    if entries.len() == 0 {
        0
    } else {
        port_count(entries.drop_last()) + if is_port_key(entries.last().0) {
            1nat
        } else {
            0nat
        }
    }
}

proof fn lemma_port_count_first(entries: Seq<(Seq<char>, TomlScalarView)>)
    requires
        entries.len() > 0,
    ensures
        port_count(entries) == port_count(entries.drop_first()) + if is_port_key(entries[0].0) {
            1nat
        } else {
            0nat
        },
    decreases entries.len(),
{
    if entries.len() > 1 {
        let init = entries.drop_last();
        let tail = entries.drop_first();
        lemma_port_count_first(init);
        assert(init.drop_first() =~= tail.drop_last());
        assert(tail.last() == entries.last());
        assert(init[0] == entries[0]);
        assert(port_count(tail) == port_count(tail.drop_last()) + if is_port_key(tail.last().0) {
            1nat
        } else {
            0nat
        });
    } else {
        assert(entries.drop_first().len() == 0);
        assert(entries.drop_last().len() == 0);
        assert(entries.last() == entries[0]);
        assert(port_count(entries.drop_last()) == 0);
        assert(port_count(entries.drop_first()) == 0);
    }
}

proof fn lemma_field_accepts(c: ConfigView, key: Seq<char>, v: TomlScalarView, port_seen: bool)
    ensures
        toml_field(c, key, v, port_seen) is Ok <==> (entry_well_typed(key, v) && !(is_port_key(key)
            && port_seen)),
        toml_field(c, key, v, port_seen) matches Ok((c1, p1)) ==> p1 == (port_seen || is_port_key(
            key,
        )),
{
    lemma_field_key_shapes();
}

proof fn lemma_fields_accept(c: ConfigView, entries: Seq<(Seq<char>, TomlScalarView)>, port_seen: bool)
    ensures
        toml_fields(c, entries, port_seen) is Ok <==> ((forall|i: int|
            0 <= i < entries.len() ==> entry_well_typed(
                (#[trigger] entries[i]).0,
                entries[i].1,
            )) && port_count(entries) + (if port_seen {
            1nat
        } else {
            0nat
        }) <= 1),
    decreases entries.len(),
{
    if entries.len() > 0 {
        let rest = entries.drop_first();
        lemma_port_count_first(entries);
        lemma_field_accepts(c, entries[0].0, entries[0].1, port_seen);
        assert forall|i: int| 0 < i < entries.len() implies entries[i] == rest[i - 1] by {}
        match toml_field(c, entries[0].0, entries[0].1, port_seen) {
            Err(_) => {},
            Ok((c1, p1)) => {
                lemma_fields_accept(c1, rest, p1);
                if (forall|i: int|
                    0 <= i < rest.len() ==> entry_well_typed((#[trigger] rest[i]).0, rest[i].1)) {
                    assert forall|i: int| 0 <= i < entries.len() implies entry_well_typed(
                        (#[trigger] entries[i]).0,
                        entries[i].1,
                    ) by {
                        if i > 0 {
                            assert(entries[i] == rest[i - 1]);
                        }
                    }
                } else {
                    let i = choose|i: int|
                        0 <= i < rest.len() && !entry_well_typed((#[trigger] rest[i]).0, rest[i].1);
                    assert(entries[i + 1] == rest[i]);
                }
            },
        }
    }
}

proof fn lemma_field_entries_ports(entries: Seq<(Seq<char>, TomlScalarView)>)
    ensures
        port_count(field_entries(entries)) == port_count(entries),
    decreases entries.len(),
{
    reveal_strlit("schema_version");
    reveal_strlit("password");
    reveal_strlit("http_port");
    reveal_strlit("port");
    assert("schema_version"@.len() == 14 && "password"@.len() == 8);
    assert("http_port"@.len() == 9 && "port"@.len() == 4);
    if entries.len() > 0 {
        let init = entries.drop_last();
        lemma_field_entries_ports(init);
        if !is_header_key(entries.last().0) {
            let f = field_entries(entries);
            assert(f == field_entries(init).push(entries.last()));
            assert(f.drop_last() =~= field_entries(init));
        }
    }
}

/// Exactly which parsed TOML documents give a configuration: `schema_version` is the
/// integer 1, the password is absent or empty, every other entry names a field and fits it,
/// the port is set at most once (by `http_port` or `port`), and the configuration read from
/// the fields passes validation.
pub proof fn lemma_toml_config_accepts(
    entries: Seq<(Seq<char>, TomlScalarView)>,
    plain_http_hosts: Option<Seq<char>>,
)
    ensures
        toml_config(Ok(entries), plain_http_hosts) is Ok <==> {
            &&& lookup_key(entries, "schema_version"@) == Some(TomlScalarView::Int(1))
            &&& lookup_key(entries, "password"@) is None || lookup_key(entries, "password"@) == Some(
                TomlScalarView::Str(Seq::empty()),
            )
            &&& forall|i: int|
                0 <= i < entries.len() ==> is_header_key((#[trigger] entries[i]).0)
                    || entry_well_typed(entries[i].0, entries[i].1)
            &&& port_count(entries) <= 1
            &&& config_check(
                toml_fields(default_config(), field_entries(entries), false)->Ok_0,
                plain_http_hosts,
            ) is Ok
        },
{
    let f = field_entries(entries);
    lemma_field_entries_members(entries);
    lemma_field_entries_ports(entries);
    lemma_fields_accept(default_config(), f, false);
    let all_f = forall|j: int| 0 <= j < f.len() ==> entry_well_typed((#[trigger] f[j]).0, f[j].1);
    let all_e = forall|i: int|
        0 <= i < entries.len() ==> is_header_key((#[trigger] entries[i]).0) || entry_well_typed(
            entries[i].0,
            entries[i].1,
        );
    lemma_field_entries_headers(entries);
    if all_e {
        assert forall|j: int| 0 <= j < f.len() implies entry_well_typed((#[trigger] f[j]).0, f[j].1) by {
            let i = choose|i: int| 0 <= i < entries.len() && #[trigger] entries[i] == f[j];
            assert(!is_header_key(f[j].0));
        }
    }
    if all_f {
        assert forall|i: int| 0 <= i < entries.len() implies is_header_key((#[trigger] entries[i]).0)
            || entry_well_typed(entries[i].0, entries[i].1) by {
            if !is_header_key(entries[i].0) {
                let j = choose|j: int| 0 <= j < f.len() && #[trigger] f[j] == entries[i];
            }
        }
    }
    assert(all_f <==> all_e);
}

proof fn lemma_field_entries_headers(entries: Seq<(Seq<char>, TomlScalarView)>)
    ensures
        forall|j: int|
            0 <= j < field_entries(entries).len() ==> !is_header_key(
                (#[trigger] field_entries(entries)[j]).0,
            ),
    decreases entries.len(),
{
    if entries.len() > 0 {
        let init = entries.drop_last();
        lemma_field_entries_headers(init);
        let f = field_entries(entries);
        let fi = field_entries(init);
        assert forall|j: int| 0 <= j < f.len() implies !is_header_key((#[trigger] f[j]).0) by {
            if is_header_key(entries.last().0) {
                assert(f == fi);
            } else {
                assert(f == fi.push(entries.last()));
                if j < fi.len() {
                    assert(f[j] == fi[j]);
                }
            }
        }
    }
}

} // verus!
