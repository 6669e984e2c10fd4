//! Query URL construction and SQL identifier / query parameter checks.
use vstd::prelude::*;

use crate::config::{base_url_spec, ClickHouseConfig, ConfigView, DEFAULT_USER};
use crate::error::{ClickHouseError, ClickHouseResult, ErrorView};
use crate::rows::byte_len;
use crate::text::{chars_of, is_ascii_digit};

verus! {

/// Longest accepted SQL identifier, in bytes.
pub const MAX_IDENT_LEN: usize = 192;

pub open spec fn is_ascii_alpha(c: char) -> bool {
    ('a' <= c && c <= 'z') || ('A' <= c && c <= 'Z')
}

/// A char allowed inside identifiers and parameter names: ASCII letter, digit or `_`.
pub open spec fn is_word_char(c: char) -> bool {
    is_ascii_alpha(c) || is_ascii_digit(c) || c == '_'
}

pub open spec fn all_word_chars(s: Seq<char>) -> bool {
    forall|i: int| 0 <= i < s.len() ==> #[trigger] is_word_char(s[i])
}

/// The outcome of [`validate_ident`].
pub open spec fn ident_check(name: Seq<char>) -> Result<(), ErrorView> {
    if name.len() == 0 || byte_len(name) > MAX_IDENT_LEN {
        Err(ErrorView::Invalid("标识符长度非法"@))
    } else if !(is_ascii_alpha(name[0]) || name[0] == '_') {
        Err(ErrorView::Invalid("标识符须以字母或下划线开头: "@ + name))
    } else if !all_word_chars(name.drop_first()) {
        Err(ErrorView::Invalid("标识符含非法字符: "@ + name))
    } else {
        Ok(())
    }
}

/// A valid query parameter name: non-empty word chars, not starting with a digit.
pub open spec fn param_name_ok(name: Seq<char>) -> bool {
    name.len() > 0 && all_word_chars(name) && !is_ascii_digit(name[0])
}

/// The outcome of [`validate_params`]: the first invalid name decides the error.
pub open spec fn params_check(names: Seq<Seq<char>>) -> Result<(), ErrorView>
    decreases names.len(),
{
    if names.len() == 0 {
        Ok(())
    } else if !param_name_ok(names[0]) {
        Err(ErrorView::Invalid("查询参数名非法: "@ + names[0]))
    } else {
        params_check(names.drop_first())
    }
}

/// The names of `params`.
pub open spec fn param_names(params: Seq<(&str, &str)>) -> Seq<Seq<char>> {
    params.map_values(|p: (&str, &str)| p.0@)
}

/// The byte length of the UTF-8 encoding of `s`.
fn str_byte_len(s: &str) -> (n: usize)
    ensures
        n == byte_len(s@),
{
    s.as_bytes().len()
}

fn char_is_word(c: char) -> (r: bool)
    ensures
        r == is_word_char(c),
{
    ('a' <= c && c <= 'z') || ('A' <= c && c <= 'Z') || ('0' <= c && c <= '9') || c == '_'
}

/// Whether every char of `cs` from `from` on is a word char.
fn word_chars_from(cs: &[char], from: usize) -> (r: bool)
    requires
        from <= cs@.len(),
    ensures
        r == all_word_chars(cs@.skip(from as int)),
{
    let mut i = from;
    while i < cs.len()
        invariant
            from <= i <= cs@.len(),
            forall|k: int| from <= k < i ==> #[trigger] is_word_char(cs@[k]),
        decreases cs@.len() - i,
    {
        if !char_is_word(cs[i]) {
            proof {
                assert(cs@.skip(from as int)[i - from] == cs@[i as int]);
            }
            return false;
        }
        i = i + 1;
    }
    proof {
        assert forall|k: int| 0 <= k < cs@.skip(from as int).len() implies #[trigger] is_word_char(
            cs@.skip(from as int)[k],
        ) by {
            assert(cs@.skip(from as int)[k] == cs@[k + from]);
        }
    }
    true
}

/// Checks an SQL identifier (a table name) so that no illegal or injected statement can be
/// formed: 1 to 192 bytes, a leading ASCII letter or `_`, then ASCII letters, digits or `_`.
pub fn validate_ident(name: &str) -> (r: ClickHouseResult<()>)
    ensures
        r is Ok <==> ident_check(name@) is Ok,
        r matches Err(e) ==> ident_check(name@) == Err::<(), ErrorView>(e@),
{
    let cs = chars_of(name);
    if cs.len() == 0 || str_byte_len(name) > MAX_IDENT_LEN {
        return Err(ClickHouseError::Invalid(String::from_str("标识符长度非法")));
    }
    let first = cs[0];
    if !(('a' <= first && first <= 'z') || ('A' <= first && first <= 'Z') || first == '_') {
        return Err(
            ClickHouseError::Invalid(
                String::from_str("标识符须以字母或下划线开头: ").concat(name),
            ),
        );
    }
    if !word_chars_from(cs.as_slice(), 1) {
        proof {
            assert(cs@.skip(1) =~= name@.drop_first());
        }
        return Err(ClickHouseError::Invalid(String::from_str("标识符含非法字符: ").concat(name)));
    }
    proof {
        assert(cs@.skip(1) =~= name@.drop_first());
    }
    Ok(())
}

/// Whether `name` is a valid query parameter name.
fn param_name_valid(name: &str) -> (r: bool)
    ensures
        r == param_name_ok(name@),
{
    let cs = chars_of(name);
    if cs.len() == 0 {
        return false;
    }
    let all = word_chars_from(cs.as_slice(), 0);
    proof {
        assert(cs@.skip(0) =~= cs@);
    }
    all && !('0' <= cs[0] && cs[0] <= '9')
}

/// Checks query parameter names: each is non-empty, made of ASCII letters, digits and `_`,
/// and does not start with a digit.
pub fn validate_params(params: &[(&str, &str)]) -> (r: ClickHouseResult<()>)
    ensures
        r is Ok <==> params_check(param_names(params@)) is Ok,
        r matches Err(e) ==> params_check(param_names(params@)) == Err::<(), ErrorView>(e@),
{
    let mut i: usize = 0;
    assert(param_names(params@).skip(0) =~= param_names(params@));
    while i < params.len()
        invariant
            i <= params@.len(),
            params_check(param_names(params@)) == params_check(param_names(params@).skip(i as int)),
        decreases params@.len() - i,
    {
        let ghost rest = param_names(params@).skip(i as int);
        proof {
            assert(rest.drop_first() =~= param_names(params@).skip(i + 1));
            assert(rest[0] == params@[i as int].0@);
        }
        let (name, _) = params[i];
        if !param_name_valid(name) {
            return Err(ClickHouseError::Invalid(String::from_str("查询参数名非法: ").concat(name)));
        }
        i = i + 1;
    }
    proof {
        assert(param_names(params@).skip(params@.len() as int) =~= Seq::<Seq<char>>::empty());
    }
    Ok(())
}

/// The serialization of the URL that `base` parses to, with the query pairs appended in
/// order (`application/x-www-form-urlencoded`), or `None` when `base` is not a valid URL.
pub uninterp spec fn query_url_text(base: Seq<char>, pairs: Seq<(Seq<char>, Seq<char>)>) -> Option<
    Seq<char>,
>;

pub open spec fn pairs_view(pairs: Seq<(String, String)>) -> Seq<(Seq<char>, Seq<char>)> {
    pairs.map_values(|p: (String, String)| (p.0@, p.1@))
}

pub open spec fn opt_string_view(o: Option<String>) -> Option<Seq<char>> {
    match o {
        Some(s) => Some(s@),
        None => None,
    }
}

/// Parses `base` with `url::Url::parse` and appends `pairs` to its query.
///
/// The four calls (`Url::parse`, `Url::query_pairs_mut`, `Serializer::extend_pairs`,
/// `Url::to_string`) stand together because only their combined result, a string, can be
/// named as a function of the plain inputs.
#[verifier::external_body]
fn serialize_query_url(base: &str, pairs: &[(String, String)]) -> (r: Option<String>)
    ensures
        opt_string_view(r) == query_url_text(base@, pairs_view(pairs@)),
{
    let mut url = url::Url::parse(base).ok()?;
    url.query_pairs_mut().extend_pairs(pairs.iter().map(|(k, v)| (k.as_str(), v.as_str())));
    Some(url.to_string())
}

/// The query pairs of a request: `database`, then `user` / `password` when credentials go
/// in the URL, then `param_<name>` for each parameter.
pub open spec fn query_pairs(c: ConfigView, params: Seq<(&str, &str)>) -> Seq<(Seq<char>, Seq<char>)> {
    seq![("database"@, c.database)] + (if c.auth_in_url {
        seq![("user"@, c.user), ("password"@, c.password)]
    } else {
        Seq::empty()
    }) + params.map_values(|p: (&str, &str)| ("param_"@ + p.0@, p.1@))
}

/// The error for a base URL that does not parse.
pub open spec fn bad_base_url(base: Seq<char>) -> ErrorView {
    ErrorView::Config("host/port 无法构成合法 URL: "@ + base)
}

/// What the request URL is, given the serialization of the base URL with the query pairs.
pub open spec fn url_outcome(base: Seq<char>, serialized: Option<Seq<char>>) -> Result<
    Seq<char>,
    ErrorView,
> {
    match serialized {
        Some(u) => Ok(u),
        None => Err(bad_base_url(base)),
    }
}

/// Turns the serialized URL (or its absence, for a base that does not parse) into the result.
pub fn finish_query_url(base: &str, serialized: Option<String>) -> (r: ClickHouseResult<String>)
    ensures
        match r {
            Ok(u) => url_outcome(base@, opt_string_view(serialized)) == Ok::<Seq<char>, ErrorView>(
                u@,
            ),
            Err(e) => url_outcome(base@, opt_string_view(serialized)) == Err::<Seq<char>, ErrorView>(
                e@,
            ),
        },
{
    match serialized {
        Some(u) => Ok(u),
        None => Err(ClickHouseError::Config(String::from_str("host/port 无法构成合法 URL: ").concat(base))),
    }
}

/// The request URL without checking parameter names.
pub fn request_url(config: &ClickHouseConfig, params: &[(&str, &str)]) -> (r: ClickHouseResult<
    String,
>)
    ensures
        match r {
            Ok(u) => url_outcome(
                base_url_spec(config@),
                query_url_text(base_url_spec(config@), query_pairs(config@, params@)),
            ) == Ok::<Seq<char>, ErrorView>(u@),
            Err(e) => url_outcome(
                base_url_spec(config@),
                query_url_text(base_url_spec(config@), query_pairs(config@, params@)),
            ) == Err::<Seq<char>, ErrorView>(e@),
        },
{
    let base = config.base_url();
    let mut pairs: Vec<(String, String)> = Vec::new();
    pairs.push((String::from_str("database"), config.database.clone()));
    if config.auth_in_url {
        pairs.push((String::from_str("user"), config.user.clone()));
        pairs.push((String::from_str("password"), config.password.clone()));
    }
    let ghost fixed = pairs_view(pairs@);
    let mut i: usize = 0;
    while i < params.len()
        invariant
            i <= params@.len(),
            pairs_view(pairs@) == fixed + params@.take(i as int).map_values(
                |p: (&str, &str)| ("param_"@ + p.0@, p.1@),
            ),
        decreases params@.len() - i,
    {
        let (name, value) = params[i];
        let ghost before = pairs@;
        pairs.push((String::from_str("param_").concat(name), String::from_str(value)));
        proof {
            assert(pairs_view(pairs@) =~= pairs_view(before).push(
                ("param_"@ + name@, value@),
            ));
            assert(params@.take(i + 1).map_values(|p: (&str, &str)| ("param_"@ + p.0@, p.1@))
                =~= params@.take(i as int).map_values(
                |p: (&str, &str)| ("param_"@ + p.0@, p.1@),
            ).push(("param_"@ + name@, value@)));
        }
        i = i + 1;
    }
    proof {
        assert(params@.take(params@.len() as int) =~= params@);
        assert(pairs_view(pairs@) =~= query_pairs(config@, params@));
    }
    let serialized = serialize_query_url(base.as_str(), pairs.as_slice());
    finish_query_url(base.as_str(), serialized)
}

/// Builds the query URL (no network I/O): always the `database` parameter; `user` and
/// `password` too when [`ClickHouseConfig::auth_in_url`] is set; each parameter as
/// `param_<name>`. Fails with `Invalid` for a bad parameter name and with `Config` when
/// host and port do not form a valid URL.
pub fn build_query_url(config: &ClickHouseConfig, params: &[(&str, &str)]) -> (r:
    ClickHouseResult<String>)
    ensures
        params_check(param_names(params@)) is Err ==> (r matches Err(e) && params_check(
            param_names(params@),
        ) == Err::<(), ErrorView>(e@)),
        params_check(param_names(params@)) is Ok ==> match r {
            Ok(u) => url_outcome(
                base_url_spec(config@),
                query_url_text(base_url_spec(config@), query_pairs(config@, params@)),
            ) == Ok::<Seq<char>, ErrorView>(u@),
            Err(e) => url_outcome(
                base_url_spec(config@),
                query_url_text(base_url_spec(config@), query_pairs(config@, params@)),
            ) == Err::<Seq<char>, ErrorView>(e@),
        },
{
    validate_params(params)?;
    request_url(config, params)
}

/// Whether requests carry an `Authorization: Basic` header: only when the user is not the
/// default one or a password is set.
pub fn needs_basic_auth(config: &ClickHouseConfig) -> (r: bool)
    ensures
        r == (config@.user != DEFAULT_USER@ || config@.password.len() > 0),
{
    let d = String::from_str(DEFAULT_USER);
    !(config.user == d) || !config.password.as_str().is_empty()
}

/// Whether a request carries an `Authorization: Basic` header: never when the credentials
/// already travel in the URL (`auth_in_url`), otherwise as [`needs_basic_auth`] decides.
pub fn sends_basic_auth(config: &ClickHouseConfig) -> (r: bool)
    ensures
        r == (!config@.auth_in_url && (config@.user != DEFAULT_USER@ || config@.password.len() > 0)),
{
    !config.auth_in_url && needs_basic_auth(config)
}

/// `INSERT INTO <table> FORMAT JSONEachRow`.
pub open spec fn insert_statement(table: Seq<char>) -> Seq<char> {
    "INSERT INTO "@ + table + " FORMAT JSONEachRow"@
}

/// The statement that inserts `JSONEachRow` documents into `table`.
pub fn insert_sql(table: &str) -> (r: String)
    ensures
        r@ == insert_statement(table@),
{
    String::from_str("INSERT INTO ").concat(table).concat(" FORMAT JSONEachRow")
}

/// The request body: the SQL, then a newline and the payload when there is one.
pub open spec fn request_body_spec(sql: Seq<char>, payload: Option<Seq<char>>) -> Seq<char> {
    match payload {
        Some(p) => sql + "\n"@ + p,
        None => sql,
    }
}

/// Builds the request body from the SQL and an optional payload.
pub fn request_body(sql: &str, payload: Option<&str>) -> (r: String)
    ensures
        r@ == request_body_spec(
            sql@,
            match payload {
                Some(p) => Some(p@),
                None => None,
            },
        ),
{
    match payload {
        Some(p) => String::from_str(sql).concat("\n").concat(p),
        None => String::from_str(sql),
    }
}

/// What a request URL carries: the `database` pair first; the `user` and `password`
/// pairs right after it when credentials go in the URL, and no pair named `user` or
/// `password` otherwise; then one `param_<name>` pair per parameter, in order.
pub proof fn lemma_query_pairs_carry_credentials_only_when_asked(
    c: ConfigView,
    params: Seq<(&str, &str)>,
)
    ensures
        query_pairs(c, params)[0] == ("database"@, c.database),
        c.auth_in_url ==> query_pairs(c, params)[1] == ("user"@, c.user) && query_pairs(c, params)[2]
            == ("password"@, c.password),
        !c.auth_in_url ==> forall|i: int|
            0 <= i < query_pairs(c, params).len() ==> (#[trigger] query_pairs(c, params)[i]).0
                != "password"@ && query_pairs(c, params)[i].0 != "user"@,
        query_pairs(c, params).len() == 1 + (if c.auth_in_url { 2int } else { 0int }) + params.len(),
{
    reveal_strlit("database");
    reveal_strlit("password");
    reveal_strlit("user");
    reveal_strlit("param_");
    let pairs = query_pairs(c, params);
    let named = params.map_values(|p: (&str, &str)| ("param_"@ + p.0@, p.1@));
    if !c.auth_in_url {
        assert forall|i: int| 0 <= i < pairs.len() implies (#[trigger] pairs[i]).0 != "password"@
            && pairs[i].0 != "user"@ by {
            if i == 0 {
                assert(pairs[i].0[0] == 'd');
            } else {
                assert(pairs[i] == named[i - 1]);
                assert(pairs[i].0[0] == 'p' && pairs[i].0[2] == 'r');
                assert("password"@[2] == 's');
            }
        }
    }
}

/// Each query parameter becomes exactly one query pair, in order, after the `database`
/// pair and the credential pairs: `("param_" + name, value)`, with the name and the value
/// kept verbatim.
pub proof fn lemma_query_pairs_keep_param_names(c: ConfigView, params: Seq<(&str, &str)>)
    ensures
        ({
            let fixed: int = if c.auth_in_url { 3 } else { 1 };
            &&& query_pairs(c, params).len() == fixed + params.len()
            &&& forall|i: int|
                0 <= i < params.len() ==> #[trigger] query_pairs(c, params)[fixed + i] == (
                    "param_"@ + params[i].0@,
                    params[i].1@,
                )
        }),
{
    let fixed: int = if c.auth_in_url { 3 } else { 1 };
    let pairs = query_pairs(c, params);
    assert forall|i: int| 0 <= i < params.len() implies #[trigger] pairs[fixed + i] == (
        "param_"@ + params[i].0@,
        params[i].1@,
    ) by {
        let named = params.map_values(|p: (&str, &str)| ("param_"@ + p.0@, p.1@));
        assert(named[i] == ("param_"@ + params[i].0@, params[i].1@));
    }
}

/// The plain SQL identifiers: 1 to [`MAX_IDENT_LEN`] chars, the first an ASCII letter of
/// either case or `_`, the others ASCII letters, digits or `_`.
pub open spec fn plain_identifier(name: Seq<char>) -> bool {
    &&& 1 <= name.len() <= 192
    &&& {
        let c = name[0];
        ('a' <= c && c <= 'z') || ('A' <= c && c <= 'Z') || c == '_'
    }
    &&& forall|i: int|
        1 <= i < name.len() ==> {
            let c = #[trigger] name[i];
            ('a' <= c && c <= 'z') || ('A' <= c && c <= 'Z') || ('0' <= c && c <= '9') || c == '_'
        }
}

/// Exactly the plain identifiers pass the identifier check, whatever the case of their
/// letters.
pub proof fn lemma_plain_identifiers_pass(name: Seq<char>)
    ensures
        ident_check(name) is Ok <==> plain_identifier(name),
{
    let rest = name.drop_first();
    if plain_identifier(name) {
        assert(vstd::utf8::is_ascii_chars(name));
        vstd::utf8::is_ascii_chars_encode_utf8(name);
        assert forall|i: int| 0 <= i < rest.len() implies #[trigger] is_word_char(rest[i]) by {
            assert(rest[i] == name[i + 1]);
        }
    }
    if ident_check(name) is Ok {
        assert forall|i: int| 1 <= i < name.len() implies {
            let c = #[trigger] name[i];
            ('a' <= c && c <= 'z') || ('A' <= c && c <= 'Z') || ('0' <= c && c <= '9') || c == '_'
        } by {
            assert(name[i] == rest[i - 1]);
            assert(is_word_char(rest[i - 1]));
        }
        assert(vstd::utf8::is_ascii_chars(name));
        vstd::utf8::is_ascii_chars_encode_utf8(name);
    }
}

/// Exactly which query parameter lists pass: every name is non-empty, made of ASCII
/// letters of either case, digits and `_`, and does not start with a digit.
pub proof fn lemma_params_check_exact(names: Seq<Seq<char>>)
    ensures
        params_check(names) is Ok <==> forall|i: int|
            0 <= i < names.len() ==> {
                let n = #[trigger] names[i];
                &&& n.len() > 0
                &&& !('0' <= n[0] && n[0] <= '9')
                &&& forall|k: int|
                    0 <= k < n.len() ==> {
                        let c = #[trigger] n[k];
                        ('a' <= c && c <= 'z') || ('A' <= c && c <= 'Z') || ('0' <= c && c <= '9')
                            || c == '_'
                    }
            },
    decreases names.len(),
{
    if names.len() > 0 {
        let rest = names.drop_first();
        lemma_params_check_exact(rest);
        assert forall|i: int| 0 < i < names.len() implies names[i] == rest[i - 1] by {}
        if params_check(names) is Ok {
            assert forall|i: int| 0 <= i < names.len() implies {
                let n = #[trigger] names[i];
                &&& n.len() > 0
                &&& !('0' <= n[0] && n[0] <= '9')
                &&& forall|k: int|
                    0 <= k < n.len() ==> {
                        let c = #[trigger] n[k];
                        ('a' <= c && c <= 'z') || ('A' <= c && c <= 'Z') || ('0' <= c && c <= '9')
                            || c == '_'
                    }
            } by {
                if i > 0 {
                    assert(names[i] == rest[i - 1]);
                } else {
                    assert(param_name_ok(names[0]));
                    assert forall|k: int| 0 <= k < names[0].len() implies is_word_char(names[0][k]) by {}
                }
            }
        } else {
            if param_name_ok(names[0]) {
                assert(params_check(rest) is Err);
                let i = choose|i: int| 0 <= i < rest.len() && !({
                    let n = #[trigger] rest[i];
                    &&& n.len() > 0
                    &&& !('0' <= n[0] && n[0] <= '9')
                    &&& forall|k: int|
                        0 <= k < n.len() ==> {
                            let c = #[trigger] n[k];
                            ('a' <= c && c <= 'z') || ('A' <= c && c <= 'Z') || ('0' <= c && c
                                <= '9') || c == '_'
                        }
                });
                assert(names[i + 1] == rest[i]);
            } else {
                let n = names[0];
                if n.len() > 0 && !is_ascii_digit(n[0]) {
                    let k = choose|k: int| 0 <= k < n.len() && !is_word_char(n[k]);
                    assert(!is_word_char(n[k]));
                }
            }
        }
    }
}

} // verus!
