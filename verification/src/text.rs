//! Character-level text helpers shared by the parsers: whitespace trimming,
//! splitting on a separator, ASCII case folding and decimal numbers.
use vstd::prelude::*;

verus! {

/// Whitespace in the sense of `char::is_whitespace` (the Unicode `White_Space` property).
pub open spec fn is_white_space(c: char) -> bool {
    let u = c as u32;
    ||| 0x09 <= u <= 0x0D
    ||| u == 0x20
    ||| u == 0x85
    ||| u == 0xA0
    ||| u == 0x1680
    ||| 0x2000 <= u <= 0x200A
    ||| u == 0x2028
    ||| u == 0x2029
    ||| u == 0x202F
    ||| u == 0x205F
    ||| u == 0x3000
}

/// `s` with its leading whitespace removed (`str::trim_start`).
pub open spec fn trim_start(s: Seq<char>) -> Seq<char>
    decreases s.len(),
{
    if s.len() > 0 && is_white_space(s[0]) {
        trim_start(s.drop_first())
    } else {
        s
    }
}

/// `s` with its trailing whitespace removed (`str::trim_end`).
pub open spec fn trim_end(s: Seq<char>) -> Seq<char>
    decreases s.len(),
{
    if s.len() > 0 && is_white_space(s.last()) {
        trim_end(s.drop_last())
    } else {
        s
    }
}

/// `s` with whitespace removed at both ends (`str::trim`).
pub open spec fn trim(s: Seq<char>) -> Seq<char> {
    trim_end(trim_start(s))
}

/// The pieces of `s` between occurrences of `sep` (`str::split` with a char pattern).
/// There is always at least one piece; `sep` never occurs inside a piece.
pub open spec fn split_on(s: Seq<char>, sep: char) -> Seq<Seq<char>>
    decreases s.len(),
{
    if s.len() == 0 {
        seq![Seq::<char>::empty()]
    } else {
        let prev = split_on(s.drop_last(), sep);
        if s.last() == sep {
            prev.push(Seq::<char>::empty())
        } else {
            prev.update(prev.len() - 1, prev.last().push(s.last()))
        }
    }
}

pub proof fn lemma_split_on_len(s: Seq<char>, sep: char)
    ensures
        split_on(s, sep).len() >= 1,
    decreases s.len(),
{
    if s.len() > 0 {
        lemma_split_on_len(s.drop_last(), sep);
    }
}

/// The ranges of `cs` between occurrences of `sep`: piece `k` of `split_on(cs, sep)`
/// is `cs[r[k].0 .. r[k].1]`.
pub fn split_ranges(cs: &[char], sep: char) -> (r: Vec<(usize, usize)>)
    ensures
        r@.len() == split_on(cs@, sep).len(),
        forall|k: int|
            0 <= k < r@.len() ==> (#[trigger] r@[k]).0 <= r@[k].1 <= cs@.len() && cs@.subrange(
                r@[k].0 as int,
                r@[k].1 as int,
            ) == split_on(cs@, sep)[k],
{
    let mut out: Vec<(usize, usize)> = Vec::new();
    let mut start: usize = 0;
    let mut i: usize = 0;
    assert(cs@.take(0) =~= Seq::<char>::empty());
    assert(cs@.subrange(0, 0) =~= Seq::<char>::empty());
    while i < cs.len()
        invariant
            start <= i <= cs@.len(),
            out@.len() + 1 == split_on(cs@.take(i as int), sep).len(),
            forall|k: int|
                0 <= k < out@.len() ==> (#[trigger] out@[k]).0 <= out@[k].1 <= cs@.len()
                    && cs@.subrange(out@[k].0 as int, out@[k].1 as int) == split_on(
                    cs@.take(i as int),
                    sep,
                )[k],
            split_on(cs@.take(i as int), sep).last() == cs@.subrange(start as int, i as int),
        decreases cs@.len() - i,
    {
        let ghost prev = split_on(cs@.take(i as int), sep);
        proof {
            assert(cs@.take(i + 1).drop_last() =~= cs@.take(i as int));
            lemma_split_on_len(cs@.take(i as int), sep);
        }
        if cs[i] == sep {
            out.push((start, i));
            start = i + 1;
            proof {
                assert(cs@.subrange(start as int, i + 1) =~= Seq::<char>::empty());
            }
        } else {
            proof {
                assert(cs@.subrange(start as int, i + 1) =~= cs@.subrange(start as int, i as int).push(
                    cs@[i as int],
                ));
            }
        }
        i = i + 1;
    }
    proof {
        assert(cs@.take(cs@.len() as int) =~= cs@);
    }
    out.push((start, cs.len()));
    out
}

/// ASCII `A`..=`Z` mapped to lower case, every other char unchanged.
pub open spec fn ascii_lower(c: char) -> char {
    if 'A' <= c && c <= 'Z' {
        ((c as u32) + 32) as char
    } else {
        c
    }
}

/// `str::to_ascii_lowercase`.
pub open spec fn ascii_lowercase(s: Seq<char>) -> Seq<char> {
    s.map_values(|c: char| ascii_lower(c))
}

/// `str::eq_ignore_ascii_case`.
pub open spec fn eq_ignore_ascii_case(a: Seq<char>, b: Seq<char>) -> bool {
    ascii_lowercase(a) == ascii_lowercase(b)
}

pub open spec fn is_ascii_digit(c: char) -> bool {
    '0' <= c && c <= '9'
}

pub open spec fn digit_value(c: char) -> nat {
    ((c as u32) - ('0' as u32)) as nat
}

pub open spec fn all_ascii_digits(s: Seq<char>) -> bool {
    forall|i: int| 0 <= i < s.len() ==> #[trigger] is_ascii_digit(s[i])
}

/// The number that the decimal digits `s` spell (most significant first).
pub open spec fn digits_value(s: Seq<char>) -> nat
    decreases s.len(),
{
    if s.len() == 0 {
        0
    } else {
        digits_value(s.drop_last()) * 10 + digit_value(s.last())
    }
}

pub open spec fn digit_char(d: nat) -> char {
    (('0' as u32) + d) as char
}

/// The shortest decimal spelling of `n` (how `{}` formats an unsigned integer).
pub open spec fn decimal(n: nat) -> Seq<char>
    decreases n,
{
    if n < 10 {
        seq![digit_char(n)]
    } else {
        decimal(n / 10).push(digit_char(n % 10))
    }
}

/// What `<uN as FromStr>::from_str` yields for `s`, where `max` is `uN::MAX`:
/// an optional leading `+`, then one or more ASCII digits whose value is at most `max`.
pub open spec fn parse_unsigned(s: Seq<char>, max: nat) -> Option<nat> {
    let body = if s.len() > 0 && s[0] == '+' { s.drop_first() } else { s };
    if body.len() == 0 || !all_ascii_digits(body) || digits_value(body) > max {
        None
    } else {
        Some(digits_value(body))
    }
}

/// The chars of `s`, in order.
pub(crate) fn chars_of(s: &str) -> (v: Vec<char>)
    ensures
        v@ == s@,
{
    broadcast use vstd::string::axiom_spec_iter;

    let mut v: Vec<char> = Vec::new();
    for c in it: s.chars()
        invariant
            it.seq() == s@,
            v@ == s@.take(it.index() as int),
    {
        proof {
            assert(s@.take(it.index() + 1) =~= s@.take(it.index() as int).push(c));
        }
        v.push(c);
    }
    proof {
        assert(v@ =~= s@);
    }
    v
}

/// `String::from_iter` over the chars of `cs` (`collect`): a `String` holding exactly them.
#[verifier::external_body]
pub(crate) fn string_from_chars(cs: &[char]) -> (r: String)
    ensures
        r@ == cs@,
{
    cs.iter().collect()
}

/// Whether `c` is whitespace (`char::is_whitespace`).
pub fn char_is_white_space(c: char) -> (r: bool)
    ensures
        r == is_white_space(c),
{
    let u = c as u32;
    (0x09 <= u && u <= 0x0D) || u == 0x20 || u == 0x85 || u == 0xA0 || u == 0x1680 || (0x2000
        <= u && u <= 0x200A) || u == 0x2028 || u == 0x2029 || u == 0x202F || u == 0x205F || u
        == 0x3000
}

pub proof fn lemma_trim_start_skip(s: Seq<char>, i: int)
    requires
        0 <= i <= s.len(),
        forall|k: int| 0 <= k < i ==> #[trigger] is_white_space(s[k]),
    ensures
        trim_start(s) == trim_start(s.skip(i)),
    decreases i,
{
    if i > 0 {
        assert(s.drop_first().skip(i - 1) =~= s.skip(i));
        assert forall|k: int| 0 <= k < i - 1 implies #[trigger] is_white_space(
            s.drop_first()[k],
        ) by {
            assert(s.drop_first()[k] == s[k + 1]);
        }
        lemma_trim_start_skip(s.drop_first(), i - 1);
    } else {
        assert(s.skip(0) =~= s);
    }
}

pub proof fn lemma_trim_end_take(s: Seq<char>, j: int)
    requires
        0 <= j <= s.len(),
        forall|k: int| j <= k < s.len() ==> #[trigger] is_white_space(s[k]),
    ensures
        trim_end(s) == trim_end(s.take(j)),
    decreases s.len() - j,
{
    if j < s.len() {
        assert(s.drop_last().take(j) =~= s.take(j));
        assert forall|k: int| j <= k < s.len() - 1 implies #[trigger] is_white_space(
            s.drop_last()[k],
        ) by {
            assert(s.drop_last()[k] == s[k]);
        }
        lemma_trim_end_take(s.drop_last(), j);
    } else {
        assert(s.take(j) =~= s);
    }
}

/// Bounds `(start, end)` such that `cs[start..end]` is `cs` trimmed at both ends.
pub fn trim_bounds(cs: &[char]) -> (r: (usize, usize))
    ensures
        r.0 <= r.1 <= cs@.len(),
        cs@.subrange(r.0 as int, r.1 as int) == trim(cs@),
        cs@.subrange(r.0 as int, cs@.len() as int) == trim_start(cs@),
{
    let mut i: usize = 0;
    while i < cs.len() && char_is_white_space(cs[i])
        invariant
            i <= cs@.len(),
            forall|k: int| 0 <= k < i ==> #[trigger] is_white_space(cs@[k]),
        decreases cs@.len() - i,
    {
        i = i + 1;
    }
    proof {
        lemma_trim_start_skip(cs@, i as int);
        assert(cs@.skip(i as int) =~= cs@.subrange(i as int, cs@.len() as int));
    }
    let ghost rest = cs@.subrange(i as int, cs@.len() as int);
    let mut j: usize = cs.len();
    while j > i && char_is_white_space(cs[j - 1])
        invariant
            i <= j <= cs@.len(),
            rest == cs@.subrange(i as int, cs@.len() as int),
            forall|k: int| j <= k < cs@.len() ==> #[trigger] is_white_space(cs@[k]),
        decreases j,
    {
        j = j - 1;
    }
    proof {
        assert forall|k: int| j - i <= k < rest.len() implies #[trigger] is_white_space(
            rest[k],
        ) by {
            assert(rest[k] == cs@[k + i]);
        }
        lemma_trim_end_take(rest, j - i);
        assert(rest.take(j - i) =~= cs@.subrange(i as int, j as int));
        if j == i && i < cs@.len() {
            // the first loop stopped on a non-whitespace char, so the second one cannot pass it
            assert(!is_white_space(cs@[i as int]));
        }
    }
    (i, j)
}

/// `s` trimmed at both ends, as a new `String`.
pub fn trimmed(s: &str) -> (r: String)
    ensures
        r@ == trim(s@),
{
    let cs = chars_of(s);
    let (a, b) = trim_bounds(cs.as_slice());
    string_from_chars(&cs.as_slice()[a..b])
}

/// ASCII lower case of one char.
pub fn char_ascii_lower(c: char) -> (r: char)
    ensures
        r == ascii_lower(c),
{
    if 'A' <= c && c <= 'Z' {
        let u = (c as u32) + 32;
        assert(0x61 <= u <= 0x7A);
        char_from_ascii_u32(u)
    } else {
        c
    }
}

/// The char of an ASCII code point.
fn char_from_ascii_u32(u: u32) -> (c: char)
    requires
        u < 0x80,
    ensures
        c == u as char,
        c as u32 == u,
{
    let b: u8 = u as u8;
    b as char
}

/// Whether `a` and `b` are equal ignoring ASCII case.
pub fn chars_eq_ignore_ascii_case(a: &[char], b: &[char]) -> (r: bool)
    ensures
        r == eq_ignore_ascii_case(a@, b@),
{
    if a.len() != b.len() {
        proof {
            assert(ascii_lowercase(a@).len() != ascii_lowercase(b@).len());
        }
        return false;
    }
    let mut i: usize = 0;
    while i < a.len()
        invariant
            a@.len() == b@.len(),
            i <= a@.len(),
            forall|k: int| 0 <= k < i ==> ascii_lower(#[trigger] a@[k]) == ascii_lower(b@[k]),
        decreases a@.len() - i,
    {
        if char_ascii_lower(a[i]) != char_ascii_lower(b[i]) {
            proof {
                assert(ascii_lowercase(a@)[i as int] != ascii_lowercase(b@)[i as int]);
            }
            return false;
        }
        i = i + 1;
    }
    assert(ascii_lowercase(a@) =~= ascii_lowercase(b@));
    true
}

/// `s` with ASCII letters in lower case.
pub fn to_ascii_lowercase(s: &str) -> (r: String)
    ensures
        r@ == ascii_lowercase(s@),
{
    let cs = chars_of(s);
    let mut out: Vec<char> = Vec::new();
    let mut i: usize = 0;
    while i < cs.len()
        invariant
            i <= cs@.len(),
            cs@ == s@,
            out@ == ascii_lowercase(cs@.take(i as int)),
        decreases cs@.len() - i,
    {
        out.push(char_ascii_lower(cs[i]));
        proof {
            assert(ascii_lowercase(cs@.take(i + 1)) =~= ascii_lowercase(cs@.take(i as int)).push(
                ascii_lower(cs@[i as int]),
            ));
        }
        i = i + 1;
    }
    assert(cs@.take(cs@.len() as int) =~= cs@);
    string_from_chars(out.as_slice())
}

/// The decimal spelling of `n`.
pub fn decimal_string(n: u128) -> (r: String)
    ensures
        r@ == decimal(n as nat),
{
    let mut rev: Vec<char> = Vec::new();
    let mut m: u128 = n;
    // digits are produced least significant first
    let ghost mut tail: Seq<char> = Seq::empty();
    while m >= 10
        invariant
            decimal(n as nat) == decimal(m as nat) + tail,
            rev@.len() == tail.len(),
            forall|k: int| 0 <= k < tail.len() ==> #[trigger] rev@[k] == tail[tail.len() - 1 - k],
        decreases m,
    {
        let c = char_from_ascii_u32(48 + (m % 10) as u32);
        proof {
            let old_tail = tail;
            tail = seq![c] + old_tail;
            assert(decimal(m as nat) == decimal((m / 10) as nat).push(digit_char((m % 10) as nat)));
            assert(decimal(n as nat) =~= decimal((m / 10) as nat) + tail);
        }
        rev.push(c);
        proof {
            assert forall|k: int| 0 <= k < tail.len() implies #[trigger] rev@[k] == tail[tail.len()
                - 1 - k] by {
                if k < tail.len() - 1 {
                    assert(tail[tail.len() - 1 - k] == tail.drop_first()[tail.len() - 2 - k]);
                }
            }
        }
        m = m / 10;
    }
    let c = char_from_ascii_u32(48 + m as u32);
    proof {
        let old_tail = tail;
        tail = seq![c] + old_tail;
        assert(decimal(m as nat) == seq![digit_char(m as nat)]);
        assert(decimal(n as nat) =~= tail);
    }
    rev.push(c);
    proof {
        assert forall|k: int| 0 <= k < tail.len() implies #[trigger] rev@[k] == tail[tail.len() - 1
            - k] by {
            if k < tail.len() - 1 {
                assert(tail[tail.len() - 1 - k] == tail.drop_first()[tail.len() - 2 - k]);
            }
        }
    }
    let mut out: Vec<char> = Vec::new();
    let mut i: usize = rev.len();
    while i > 0
        invariant
            i <= rev@.len(),
            rev@.len() == decimal(n as nat).len(),
            forall|k: int| 0 <= k < rev@.len() ==> #[trigger] rev@[k] == decimal(n as nat)[rev@.len()
                - 1 - k],
            out@ == decimal(n as nat).take(rev@.len() - i),
        decreases i,
    {
        i = i - 1;
        out.push(rev[i]);
        proof {
            assert(out@ =~= decimal(n as nat).take(rev@.len() - i));
        }
    }
    proof {
        assert(decimal(n as nat).take(rev@.len() as int) =~= decimal(n as nat));
    }
    string_from_chars(out.as_slice())
}

/// Digits-only value of `cs`, or `None` when some char is not a digit or the value exceeds `u64::MAX`.
fn digits_to_u64(cs: &[char]) -> (r: Option<u64>)
    ensures
        r is Some <==> (all_ascii_digits(cs@) && digits_value(cs@) <= u64::MAX),
        r matches Some(v) ==> v == digits_value(cs@),
{
    let mut acc: u64 = 0;
    let mut i: usize = 0;
    while i < cs.len()
        invariant
            i <= cs@.len(),
            all_ascii_digits(cs@.take(i as int)),
            acc == digits_value(cs@.take(i as int)),
        decreases cs@.len() - i,
    {
        let c = cs[i];
        proof {
            assert(cs@.take(i + 1).drop_last() =~= cs@.take(i as int));
        }
        if !('0' <= c && c <= '9') {
            proof {
                assert(!is_ascii_digit(cs@[i as int]));
            }
            return None;
        }
        let d = (c as u32 - '0' as u32) as u64;
        if acc > (u64::MAX - d) / 10 {
            proof {
                if all_ascii_digits(cs@) {
                    lemma_digits_value_monotone(cs@, i as int + 1);
                }
                assert(digits_value(cs@.take(i + 1)) == acc * 10 + d) by {
                    assert(cs@.take(i + 1).last() == c);
                }
                assert(acc * 10 + d > u64::MAX) by (nonlinear_arith)
                    requires
                        acc > (u64::MAX - d) / 10,
                        d <= 9,
                ;
            }
            return None;
        }
        proof {
            assert(acc * 10 + d <= u64::MAX) by (nonlinear_arith)
                requires
                    acc <= (u64::MAX - d) / 10,
                    d <= 9,
            ;
        }
        acc = acc * 10 + d;
        i = i + 1;
        proof {
            assert forall|k: int| 0 <= k < i implies #[trigger] is_ascii_digit(
                cs@.take(i as int)[k],
            ) by {
                if k < i - 1 {
                    assert(cs@.take(i as int)[k] == cs@.take(i - 1)[k]);
                }
            }
        }
    }
    assert(cs@.take(cs@.len() as int) =~= cs@);
    Some(acc)
}

pub proof fn lemma_digits_value_monotone(s: Seq<char>, j: int)
    requires
        0 <= j <= s.len(),
        all_ascii_digits(s),
    ensures
        digits_value(s.take(j)) <= digits_value(s),
    decreases s.len() - j,
{
    if j < s.len() {
        assert(s.drop_last().take(j) =~= s.take(j));
        assert(all_ascii_digits(s.drop_last())) by {
            assert forall|k: int| 0 <= k < s.drop_last().len() implies #[trigger] is_ascii_digit(
                s.drop_last()[k],
            ) by {
                assert(s.drop_last()[k] == s[k]);
            }
        }
        lemma_digits_value_monotone(s.drop_last(), j);
    } else {
        assert(s.take(j) =~= s);
    }
}

/// `<u64 as FromStr>::from_str` restricted to values at most `max`.
pub fn parse_unsigned_chars(cs: &[char], max: u64) -> (r: Option<u64>)
    ensures
        r matches Some(v) ==> parse_unsigned(cs@, max as nat) == Some(v as nat),
        r is None ==> parse_unsigned(cs@, max as nat) is None,
{
    let body: &[char] = if cs.len() > 0 && cs[0] == '+' {
        &cs[1..cs.len()]
    } else {
        cs
    };
    proof {
        if cs@.len() > 0 && cs@[0] == '+' {
            assert(body@ =~= cs@.drop_first());
        }
    }
    if body.len() == 0 {
        return None;
    }
    match digits_to_u64(body) {
        Some(v) => {
            if v <= max {
                Some(v)
            } else {
                None
            }
        },
        None => None,
    }
}

} // verus!
