//! The fund data source: finding its access token in the token page,
//! deciding whether a cached token is still usable, and reading the dates
//! of its responses.  Fetching pages and reading or writing the cache happen
//! outside this module.
use vstd::prelude::*;
use vstd::utf8::{decode_utf8, encode_utf8, is_char_boundary};
use crate::calendar::{iso_day, parse_iso_day, valid_day};
use crate::text::{chars_of, is_white_space, is_whitespace, string_of_range};

verus! {

// ---------------------------------------------------------------------------
// Finding the token
// ---------------------------------------------------------------------------

/// The characters the token page is split at: quotes and white space.
pub open spec fn is_delimiter(c: char) -> bool {
    c == '"' || c == '\'' || is_white_space(c)
}

/// `page[i..j]` is a part of the page between delimiters.
pub open spec fn is_part(page: Seq<char>, i: int, j: int) -> bool {
    &&& 0 <= i <= j <= page.len()
    &&& (i == 0 || is_delimiter(page[i - 1]))
    &&& (j == page.len() || is_delimiter(page[j]))
    &&& forall|k: int| i <= k < j ==> !is_delimiter(#[trigger] page[k])
}

pub open spec fn dot_count(s: Seq<char>) -> nat
    decreases s.len(),
{
    if s.len() == 0 {
        0
    } else {
        dot_count(s.drop_last()) + if s.last() == '.' {
            1nat
        } else {
            0nat
        }
    }
}

/// A JWT: starts with `eyJ` and has exactly two dots.
pub open spec fn looks_like_jwt(s: Seq<char>) -> bool {
    s.len() >= 3 && s[0] == 'e' && s[1] == 'y' && s[2] == 'J' && dot_count(s) == 2
}

/// The part `page[i..j]` is the first part that looks like a JWT.
pub open spec fn first_jwt_part(page: Seq<char>, i: int, j: int) -> bool {
    &&& is_part(page, i, j)
    &&& looks_like_jwt(page.subrange(i, j))
    &&& forall|a: int, b: int| #![trigger is_part(page, a, b)] is_part(page, a, b) && a < i ==> !looks_like_jwt(page.subrange(a, b))
}

pub open spec fn has_jwt_part(page: Seq<char>) -> bool {
    exists|a: int, b: int| is_part(page, a, b) && looks_like_jwt(#[trigger] page.subrange(a, b))
}

proof fn lemma_part_unique_end(page: Seq<char>, i: int, j1: int, j2: int)
    requires
        is_part(page, i, j1),
        is_part(page, i, j2),
    ensures
        j1 == j2,
{
    if j1 < j2 {
        assert(!is_delimiter(page[j1]));
    } else if j2 < j1 {
        assert(!is_delimiter(page[j2]));
    }
}

/// The end of the part that starts at `i`.
fn part_end(v: &Vec<char>, i: usize) -> (j: usize)
    requires
        i <= v@.len(),
    ensures
        i <= j <= v@.len(),
        j == v@.len() || is_delimiter(v@[j as int]),
        forall|k: int| i <= k < j ==> !is_delimiter(#[trigger] v@[k]),
{
    let mut j = i;
    while j < v.len() && !(v[j] == '"' || v[j] == '\'' || is_whitespace(v[j]))
        invariant
            i <= j <= v@.len(),
            forall|k: int| i <= k < j ==> !is_delimiter(#[trigger] v@[k]),
        decreases v@.len() - j,
    {
        j = j + 1;
    }
    j
}

fn is_jwt(v: &Vec<char>, i: usize, j: usize) -> (r: bool)
    requires
        i <= j <= v@.len(),
    ensures
        r == looks_like_jwt(v@.subrange(i as int, j as int)),
{
    let ghost s = v@.subrange(i as int, j as int);
    let mut dots: usize = 0;
    let mut k = i;
    while k < j
        invariant
            i <= k <= j <= v@.len(),
            s == v@.subrange(i as int, j as int),
            dots == dot_count(s.take(k - i)),
            dots <= k - i,
        decreases j - k,
    {
        assert(s.take(k - i + 1).drop_last() =~= s.take(k - i));
        assert(s.take(k - i + 1).last() == v@[k as int]);
        if v[k] == '.' {
            dots = dots + 1;
        }
        k = k + 1;
    }
    assert(s.take(j - i) =~= s);
    j - i >= 3 && v[i] == 'e' && v[i + 1] == 'y' && v[i + 2] == 'J' && dots == 2
}

/// The first part of the token page, split at quotes and white space, that
/// looks like a JWT.
pub fn extract_jwt(page: &str) -> (r: Option<String>)
    ensures
        r is None <==> !has_jwt_part(page@),
        r is Some ==> exists|i: int, j: int| first_jwt_part(page@, i, j) && r->Some_0@ == page@.subrange(i, j),
{
    let v = chars_of(page);
    let n = v.len();
    let mut i: usize = 0;
    while i <= n
        invariant
            v@ == page@,
            n == v@.len(),
            i <= n + 1,
            i <= n ==> (i == 0 || is_delimiter(v@[i - 1])),
            forall|a: int, b: int| #![trigger is_part(v@, a, b)] is_part(v@, a, b) && a < i ==> !looks_like_jwt(v@.subrange(a, b)),
        decreases n + 1 - i,
    {
        let j = part_end(&v, i);
        assert(is_part(v@, i as int, j as int));
        if is_jwt(&v, i, j) {
            let part = string_of_range(v.as_slice(), i, j);
            proof {
                assert(part@ =~= v@.subrange(i as int, j as int));
                assert(first_jwt_part(page@, i as int, j as int));
                assert(has_jwt_part(page@));
            }
            return Some(part);
        }
        proof {
            assert forall|a: int, b: int| #![trigger is_part(v@, a, b)] is_part(v@, a, b) && a < j + 1 implies !looks_like_jwt(v@.subrange(a, b)) by {
                if a >= i && a <= j {
                    if a > i {
                        assert(!is_delimiter(v@[a - 1]));
                    } else {
                        lemma_part_unique_end(v@, a, b, j as int);
                    }
                }
            }
        }
        if j == n {
            proof {
                assert forall|a: int, b: int| is_part(page@, a, b) implies !looks_like_jwt(#[trigger] page@.subrange(a, b)) by {
                    assert(a < j + 1);
                }
            }
            return None;
        }
        i = j + 1;
    }
    proof {
        assert forall|a: int, b: int| is_part(page@, a, b) implies !looks_like_jwt(#[trigger] page@.subrange(a, b)) by {
            assert(a < i);
        }
    }
    None
}

// ---------------------------------------------------------------------------
// Token expiry
// ---------------------------------------------------------------------------

/// The second dot-separated segment of a token (`split('.').nth(1)`).
pub open spec fn jwt_payload(token: Seq<char>, i: int, j: int) -> bool {
    &&& 0 <= i < j <= token.len()
    &&& token[i] == '.'
    &&& forall|k: int| 0 <= k < i ==> #[trigger] token[k] != '.'
    &&& (j == token.len() || token[j] == '.')
    &&& forall|k: int| i < k < j ==> #[trigger] token[k] != '.'
}

pub open spec fn has_dot(token: Seq<char>) -> bool {
    exists|k: int| 0 <= k < token.len() && #[trigger] token[k] == '.'
}

/// What the URL-safe, unpadded base64 engine decodes a text to, if it is
/// valid base64.
pub uninterp spec fn base64_url_decoded(text: Seq<char>) -> Option<Seq<u8>>;

/// What JSON bytes hold under a top-level key as a 64-bit integer, if they
/// parse as JSON and hold one there.
pub uninterp spec fn json_i64_claim(bytes: Seq<u8>, key: Seq<char>) -> Option<int>;

pub open spec fn opt_bytes(v: Option<Vec<u8>>) -> Option<Seq<u8>> {
    match v {
        Some(b) => Some(b@),
        None => None,
    }
}

/// `base64::engine::general_purpose::URL_SAFE_NO_PAD.decode`: the decoded
/// bytes, or nothing when the text is not valid URL-safe base64.
#[verifier::external_body]
fn decode_base64_url(text: &str) -> (r: Option<Vec<u8>>)
    ensures
        opt_bytes(r) == base64_url_decoded(text@),
{
    base64::Engine::decode(&base64::engine::general_purpose::URL_SAFE_NO_PAD, text).ok()
}

/// `serde_json::from_slice::<Value>` followed by `get(key)` and `as_i64`:
/// the integer under the key, or nothing when the bytes are not JSON or
/// hold no such integer.
#[verifier::external_body]
fn read_i64_claim(bytes: &[u8], key: &str) -> (r: Option<i64>)
    ensures
        match r {
            Some(e) => json_i64_claim(bytes@, key@) == Some(e as int),
            None => json_i64_claim(bytes@, key@) is None,
        },
{
    serde_json::from_slice::<serde_json::Value>(bytes).ok()?.get(key)?.as_i64()
}

/// The expiry (`exp`) of a JWT, read from its base64-encoded payload.
pub open spec fn token_expiry(token: Seq<char>) -> Option<int> {
    if !has_dot(token) {
        None
    } else {
        let i = choose|i: int, j: int| jwt_payload(token, i, j);
        match base64_url_decoded(token.subrange(i.0 + 1, i.1)) {
            Some(bytes) => json_i64_claim(bytes, "exp"@),
            None => None,
        }
    }
}

proof fn lemma_payload_unique(token: Seq<char>, i1: int, j1: int, i2: int, j2: int)
    requires
        jwt_payload(token, i1, j1),
        jwt_payload(token, i2, j2),
    ensures
        i1 == i2 && j1 == j2,
{
    if i1 < i2 {
        assert(token[i1] != '.');
    } else if i2 < i1 {
        assert(token[i2] != '.');
    }
    if j1 < j2 {
        assert(token[j1] != '.');
    } else if j2 < j1 {
        assert(token[j2] != '.');
    }
}

pub fn jwt_expiry(token: &str) -> (r: Option<i64>)
    ensures
        match r {
            Some(e) => token_expiry(token@) == Some(e as int),
            None => token_expiry(token@) is None,
        },
{
    let v = chars_of(token);
    let n = v.len();
    let mut i: usize = 0;
    while i < n && v[i] != '.'
        invariant
            v@ == token@,
            n == v@.len(),
            i <= n,
            forall|k: int| 0 <= k < i ==> #[trigger] v@[k] != '.',
        decreases n - i,
    {
        i = i + 1;
    }
    if i == n {
        assert(!has_dot(token@)) by {
            assert forall|k: int| 0 <= k < token@.len() implies #[trigger] token@[k] != '.' by {}
        }
        return None;
    }
    let mut j: usize = i + 1;
    while j < n && v[j] != '.'
        invariant
            v@ == token@,
            n == v@.len(),
            i < j <= n,
            forall|k: int| i < k < j ==> #[trigger] v@[k] != '.',
        decreases n - j,
    {
        j = j + 1;
    }
    proof {
        assert(jwt_payload(token@, i as int, j as int));
        assert(has_dot(token@));
        let c = choose|c: (int, int)| jwt_payload(token@, c.0, c.1);
        lemma_payload_unique(token@, c.0, c.1, i as int, j as int);
    }
    let payload = string_of_range(v.as_slice(), i + 1, j);
    assert(payload@ =~= token@.subrange(i + 1, j as int));
    match decode_base64_url(payload.as_str()) {
        Some(bytes) => read_i64_claim(bytes.as_slice(), "exp"),
        None => None,
    }
}

/// A cached token is still usable when it expires more than a minute after
/// `now` (seconds since the Unix epoch).
pub fn token_is_current(token: &str, now: i64) -> (r: bool)
    ensures
        r == (token_expiry(token@) is Some && token_expiry(token@)->Some_0 > now + 60),
{
    match jwt_expiry(token) {
        Some(expiry) => (expiry as i128) > (now as i128) + 60,
        None => false,
    }
}

// ---------------------------------------------------------------------------
// Dates in the fund data
// ---------------------------------------------------------------------------

/// A date field of a fund-data response as far as reading a date goes: a
/// JSON string, a JSON number (with its value when it is an integer that
/// fits in `i64`), or anything else.
#[derive(Clone, Debug)]
pub enum JsonDateValue {
    Text(String),
    Number(Option<i64>),
    Other,
}

/// Day number of January 1, 1970 (the Unix epoch).
pub const UNIX_EPOCH_DAY: i32 = 719163;

/// Milliseconds in a day.
pub const MILLIS_PER_DAY: i64 = 86_400_000;

/// The UTC day of a Unix timestamp in milliseconds, when that day can be
/// represented.
pub open spec fn millis_day(millis: int) -> Option<int> {
    let day = millis / MILLIS_PER_DAY as int + UNIX_EPOCH_DAY as int;
    if valid_day(day) {
        Some(day)
    } else {
        None
    }
}

pub open spec fn digit_value(c: char) -> int {
    c as int - '0' as int
}

pub open spec fn is_decimal_digit(c: char) -> bool {
    '0' <= c <= '9'
}

/// The value of a sequence of decimal digits.
pub open spec fn digits_value(s: Seq<char>) -> int
    decreases s.len(),
{
    if s.len() == 0 {
        0
    } else {
        digits_value(s.drop_last()) * 10 + digit_value(s.last())
    }
}

/// What `str::parse::<i64>` reads from a text: an optional `+` or `-`
/// followed by at least one decimal digit and nothing else, when the value
/// fits in `i64`.
pub open spec fn i64_text_value(s: Seq<char>) -> Option<int> {
    let signed = s.len() > 0 && (s[0] == '+' || s[0] == '-');
    let digits = if signed { s.subrange(1, s.len() as int) } else { s };
    let value = if signed && s[0] == '-' { -digits_value(digits) } else { digits_value(digits) };
    if digits.len() > 0 && (forall|k: int| 0 <= k < digits.len() ==> is_decimal_digit(#[trigger] digits[k]))
        && i64::MIN <= value <= i64::MAX {
        Some(value)
    } else {
        None
    }
}

/// The text of the first ten bytes of `text`, when byte ten falls on a
/// character boundary (what `str::get(..10)` gives).
pub open spec fn first_ten_bytes(text: Seq<char>) -> Option<Seq<char>> {
    if is_char_boundary(encode_utf8(text), 10) {
        Some(decode_utf8(encode_utf8(text).subrange(0, 10)))
    } else {
        None
    }
}

/// The day a date text of the fund data denotes: the text as a storage
/// date, else its first ten bytes as a storage date, else the text as a
/// Unix timestamp in milliseconds.
pub open spec fn text_date_value(text: Seq<char>) -> Option<int> {
    match iso_day(text) {
        Some(day) => Some(day),
        None => {
            let prefix_day = match first_ten_bytes(text) {
                Some(prefix) => iso_day(prefix),
                None => None,
            };
            match prefix_day {
                Some(day) => Some(day),
                None => match i64_text_value(text) {
                    Some(millis) => millis_day(millis),
                    None => None,
                },
            }
        },
    }
}

pub open spec fn date_value(value: JsonDateValue) -> Option<int> {
    match value {
        JsonDateValue::Text(text) => text_date_value(text@),
        JsonDateValue::Number(Some(millis)) => millis_day(millis as int),
        JsonDateValue::Number(None) => None,
        JsonDateValue::Other => None,
    }
}

/// `str::parse::<i64>`: the value of an optionally signed decimal text that
/// fits in `i64` (its documented grammar), else nothing.
#[verifier::external_body]
fn parse_i64(text: &str) -> (r: Option<i64>)
    ensures
        match r {
            Some(v) => i64_text_value(text@) == Some(v as int),
            None => i64_text_value(text@) is None,
        },
{
    text.parse::<i64>().ok()
}

/// `Utc.timestamp_millis_opt(millis).single()`, then the UTC date's
/// `num_days_from_ce`: the day is the timestamp's floor division by the
/// milliseconds of a day, counted from the Unix epoch, and there is none
/// when chrono cannot represent that day.
#[verifier::external_body]
fn timestamp_millis_day(millis: i64) -> (r: Option<i32>)
    ensures
        match r {
            Some(day) => millis_day(millis as int) == Some(day as int),
            None => millis_day(millis as int) is None,
        },
{
    chrono::TimeZone::timestamp_millis_opt(&chrono::Utc, millis).single().map(
        |dt| chrono::Datelike::num_days_from_ce(&dt.date_naive()),
    )
}

/// The day a date text of the fund data denotes (see `text_date_value`).
pub fn parse_date_text(text: &str) -> (r: Option<i32>)
    ensures
        match r {
            Some(day) => text_date_value(text@) == Some(day as int),
            None => text_date_value(text@) is None,
        },
{
    if let Some(day) = parse_iso_day(text) {
        return Some(day);
    }
    if text.is_char_boundary(10) {
        let (prefix, _) = text.split_at(10);
        proof {
            vstd::utf8::encode_utf8_decode_utf8(prefix@);
            assert(prefix@ == decode_utf8(encode_utf8(text@).subrange(0, 10)));
        }
        if let Some(day) = parse_iso_day(prefix) {
            return Some(day);
        }
    }
    match parse_i64(text) {
        Some(millis) => timestamp_millis_day(millis),
        None => None,
    }
}

/// The day a date field of the fund data denotes, if any: a string is read
/// as `parse_date_text` reads it, an integer as a Unix timestamp in
/// milliseconds.
pub fn parse_date_value(value: &JsonDateValue) -> (r: Option<i32>)
    ensures
        match r {
            Some(day) => date_value(*value) == Some(day as int),
            None => date_value(*value) is None,
        },
{
    match value {
        JsonDateValue::Text(text) => parse_date_text(text.as_str()),
        JsonDateValue::Number(Some(millis)) => timestamp_millis_day(*millis),
        JsonDateValue::Number(None) => None,
        JsonDateValue::Other => None,
    }
}

} // verus!
