//! The usage widgets' refresh policy: when the cached usage-API response is
//! refreshed, how long a failed refresh backs off, and which weekly-scoped
//! limit belongs to a model.

use vstd::prelude::*;

use crate::headers::{retry_after_of, retry_after_secs};
use crate::input::opt_view;
use crate::text::{
    chars_of, contains, contains_chars, decimal, decimal_string, is_space, lemma_decimal_digits,
    lemma_parse_decimal, parse_u64, parse_u64_chars, push_str, str_eq, trim, trim_chars, trim_start,
};

verus! {

/// How long the cached usage response stays fresh.
pub const USAGE_TTL_SECS: u64 = 60;

/// The back-off after a failed refresh that gave no usable `Retry-After`.
pub const USAGE_BACKOFF_SECS: u64 = 300;

/// How long a refresh lock blocks other refreshes.
pub const LOCK_MAX_AGE_SECS: u64 = 60;

/// A cache whose age (in nanoseconds, `None` when it does not exist or has no
/// usable time) is unknown or above `ttl_secs` seconds is stale.
pub open spec fn is_stale_of(age_nanos: Option<u128>, ttl_secs: u64) -> bool {
    match age_nanos {
        Some(a) => a > ttl_secs * 1_000_000_000,
        None => true,
    }
}

/// Whether a cache of the given age needs refreshing.
pub fn is_stale(age_nanos: Option<u128>, ttl_secs: u64) -> (r: bool)
    ensures
        r == is_stale_of(age_nanos, ttl_secs),
{
    match age_nanos {
        Some(a) => a > (ttl_secs as u128) * 1_000_000_000,
        None => true,
    }
}

/// A refresh lock younger than `LOCK_MAX_AGE_SECS` is held by a running refresh.
pub open spec fn lock_held_of(lock_age_nanos: Option<u128>) -> bool {
    match lock_age_nanos {
        Some(a) => a < LOCK_MAX_AGE_SECS * 1_000_000_000,
        None => false,
    }
}

/// Whether an existing lock file of the given age blocks a new refresh.
pub fn lock_held(lock_age_nanos: Option<u128>) -> (r: bool)
    ensures
        r == lock_held_of(lock_age_nanos),
{
    match lock_age_nanos {
        Some(a) => a < (LOCK_MAX_AGE_SECS as u128) * 1_000_000_000,
        None => false,
    }
}

/// The back-off file holds a blocked-until unix time; refreshes wait while
/// `now` is before it.  A missing or unreadable file blocks nothing.
pub open spec fn backed_off_of(backoff_text: Option<Seq<char>>, now: u64) -> bool {
    match backoff_text {
        Some(t) => match parse_u64(trim(t)) {
            Some(until) => now < until,
            None => false,
        },
        None => false,
    }
}

/// Whether the back-off file's text blocks a refresh at `now`.
pub fn backed_off(backoff_text: Option<&str>, now: u64) -> (r: bool)
    ensures
        r == backed_off_of(
            match backoff_text {
                Some(t) => Some(t@),
                None => None,
            },
            now,
        ),
{
    match backoff_text {
        Some(t) => {
            let v = chars_of(t);
            let tv = trim_chars(&v);
            match parse_u64_chars(&tv) {
                Some(until) => now < until,
                None => false,
            }
        },
        None => false,
    }
}

/// A refresh is due when the cache is stale and no back-off is in force
/// (taking the refresh lock is the remaining condition).
pub fn usage_refresh_due(cache_age_nanos: Option<u128>, backoff_text: Option<&str>, now: u64) -> (r:
    bool)
    ensures
        r == (is_stale_of(cache_age_nanos, USAGE_TTL_SECS) && !backed_off_of(
            match backoff_text {
                Some(t) => Some(t@),
                None => None,
            },
            now,
        )),
{
    is_stale(cache_age_nanos, USAGE_TTL_SECS) && !backed_off(backoff_text, now)
}

/// The back-off after a failed refresh: on a 429 the `Retry-After` seconds
/// (the default when absent) clamped to 1..=3600; otherwise the default.
pub open spec fn backoff_delay_of(status: Option<u32>, headers: Seq<char>) -> u64 {
    if status == Some(429u32) {
        let d = match retry_after_of(headers) {
            Some(s) => s,
            None => USAGE_BACKOFF_SECS,
        };
        if d < 1 {
            1
        } else if d > 3600 {
            3600
        } else {
            d
        }
    } else {
        USAGE_BACKOFF_SECS
    }
}

/// On 429 honor Retry-After (clamped to an hour); anything else — outage,
/// bad response, network error — backs off the default.
pub fn backoff_delay(status: Option<u32>, headers: &str) -> (r: u64)
    ensures
        r == backoff_delay_of(status, headers@),
        1 <= r <= 3600,
{
    match status {
        Some(429) => {
            let d = match retry_after_secs(headers) {
                Some(s) => s,
                None => USAGE_BACKOFF_SECS,
            };
            if d < 1 {
                1
            } else if d > 3600 {
                3600
            } else {
                d
            }
        },
        _ => USAGE_BACKOFF_SECS,
    }
}

/// What a refresh does with the response it got.
pub enum RefreshAction {
    /// A usable response that looks degraded: keep the cached one (only
    /// renew its time) and clear the back-off.
    KeepCache,
    /// A usable response: it replaces the cache, and the back-off is cleared.
    ReplaceCache,
    /// No usable response: refreshes wait until the given unix time.
    BackOff { until: u64 },
}

/// Whether `serde_json::from_slice::<serde_json::Value>` accepts `bytes`
/// (one JSON value, nothing but whitespace around it).
pub uninterp spec fn is_json_of(bytes: Seq<u8>) -> bool;

/// Calls `serde_json::from_slice::<serde_json::Value>` and reports whether it
/// succeeded.  The contract claims only that the answer is the named value
/// `is_json_of(bytes)`, which depends on `bytes` alone.
#[verifier::external_body]
fn json_is_valid(bytes: &[u8]) -> (r: bool)
    ensures
        r == is_json_of(bytes@),
{
    serde_json::from_slice::<serde_json::Value>(bytes).is_ok()
}

/// The response body is usable: the status is 200 and the body (present
/// when curl ran) is JSON.
pub open spec fn usable_response(status: Option<u32>, body: Option<Seq<u8>>) -> bool {
    status == Some(200u32) && match body {
        Some(b) => is_json_of(b),
        None => false,
    }
}

/// The action for a refresh at `now`: a usable response replaces the cache,
/// unless the caller found it to be a suspicious drop, which keeps the old
/// one; anything else backs off.  `until` is `now` plus the back-off, as a
/// `u64` sum that wraps modulo 2^64 in the release build.
pub open spec fn refresh_action_of(
    status: Option<u32>,
    body: Option<Seq<u8>>,
    suspicious: bool,
    headers: Seq<char>,
    now: u64,
) -> RefreshAction {
    if usable_response(status, body) {
        if suspicious {
            RefreshAction::KeepCache
        } else {
            RefreshAction::ReplaceCache
        }
    } else {
        RefreshAction::BackOff {
            until: ((now + backoff_delay_of(status, headers)) % 0x1_0000_0000_0000_0000) as u64,
        }
    }
}

/// The bytes of an optional body.
pub open spec fn body_view(body: Option<&[u8]>) -> Option<Seq<u8>> {
    match body {
        Some(b) => Some(b@),
        None => None,
    }
}

/// Decides what a finished refresh does, given the status of the final
/// response, curl's output (`None` when curl could not run), and whether a
/// usable body is a suspicious drop against the cache.
pub fn refresh_action(
    status: Option<u32>,
    body: Option<&[u8]>,
    suspicious: bool,
    headers: &str,
    now: u64,
) -> (r: RefreshAction)
    ensures
        r == refresh_action_of(status, body_view(body), suspicious, headers@, now),
{
    let usable = status == Some(200u32) && match body {
        Some(b) => json_is_valid(b),
        None => false,
    };
    if usable {
        if suspicious {
            RefreshAction::KeepCache
        } else {
            RefreshAction::ReplaceCache
        }
    } else {
        let delay = backoff_delay(status, headers);
        RefreshAction::BackOff { until: now.wrapping_add(delay) }
    }
}

/// The text written to the back-off file.
pub fn backoff_file_text(until: u64) -> (r: String)
    ensures
        r@ == decimal(until as nat),
{
    decimal_string(until)
}

/// The curl config that carries the OAuth token (kept out of argv).
pub open spec fn curl_config_of(token: Seq<char>) -> Seq<char> {
    "url = \"https://api.anthropic.com/api/oauth/usage\"\nheader = \"Authorization: Bearer "@
        + token + "\"\nheader = \"anthropic-beta: oauth-2025-04-20\"\n"@
}

/// What `serde_json` finds at `claudeAiOauth.accessToken` in the JSON text
/// `creds` (`from_str::<Value>`, two string indexes, `Value::as_str`): `None`
/// when the text is not JSON or the value there is not a string.
pub uninterp spec fn oauth_token_of(creds: Seq<char>) -> Option<Seq<char>>;

/// Parses `creds` with `serde_json::from_str::<serde_json::Value>` and takes
/// the string at `claudeAiOauth.accessToken`.  The contract claims only that
/// the result is the named value `oauth_token_of(creds)`, which depends on
/// `creds` alone.
#[verifier::external_body]
fn json_oauth_token(creds: &str) -> (r: Option<String>)
    ensures
        opt_view(r) == oauth_token_of(creds@),
{
    match serde_json::from_str::<serde_json::Value>(creds) {
        Ok(v) => match v["claudeAiOauth"]["accessToken"].as_str() {
            Some(t) => Some(t.to_string()),
            None => None,
        },
        Err(_) => None,
    }
}

/// The curl config for a refresh, out of the credentials JSON; `None` when
/// it holds no OAuth access token (and the refresh gives up).
pub fn usage_curl_config(creds_json: &str) -> (r: Option<String>)
    ensures
        match oauth_token_of(creds_json@) {
            Some(t) => opt_view(r) == Some(curl_config_of(t)),
            None => r is None,
        },
{
    match json_oauth_token(creds_json) {
        Some(t) => Some(curl_config(t.as_str())),
        None => None,
    }
}

/// The curl config for fetching the usage API with `token`.
pub fn curl_config(token: &str) -> (r: String)
    ensures
        r@ == curl_config_of(token@),
{
    let mut r = String::new();
    push_str(
        &mut r,
        "url = \"https://api.anthropic.com/api/oauth/usage\"\nheader = \"Authorization: Bearer ",
    );
    push_str(&mut r, token);
    push_str(&mut r, "\"\nheader = \"anthropic-beta: oauth-2025-04-20\"\n");
    assert(r@ =~= curl_config_of(token@));
    r
}

/// Decimal text has no whitespace to trim.
proof fn lemma_trim_decimal(n: nat)
    ensures
        trim(decimal(n)) == decimal(n),
{
    lemma_decimal_digits(n);
    let d = decimal(n);
    assert(!is_space(d[0])) by {
        assert(crate::text::is_digit(d[0]));
    }
    assert(trim_start(d) == d);
    assert(!is_space(d.last())) by {
        assert(crate::text::is_digit(d[d.len() - 1]));
    }
}

/// A back-off written at the end of a failed refresh blocks every refresh
/// attempt from then until its deadline.
pub proof fn law_backoff_blocks_until_deadline(
    status: Option<u32>,
    body: Option<Seq<u8>>,
    suspicious: bool,
    headers: Seq<char>,
    now: u64,
    later: u64,
)
    requires
        refresh_action_of(status, body, suspicious, headers, now) matches RefreshAction::BackOff {
            until,
        } && now <= later < until,
    ensures
        refresh_action_of(status, body, suspicious, headers, now) matches RefreshAction::BackOff {
            until,
        } && backed_off_of(Some(decimal(until as nat)), later),
{
    if let RefreshAction::BackOff { until } = refresh_action_of(
        status,
        body,
        suspicious,
        headers,
        now,
    ) {
        lemma_trim_decimal(until as nat);
        lemma_parse_decimal(until as nat, u64::MAX as nat);
    }
}

/// A refresh without a usable response always backs off, by at least one
/// second and at most an hour (unless the deadline wraps past `u64::MAX`).
pub proof fn law_failed_refresh_backs_off(
    status: Option<u32>,
    body: Option<Seq<u8>>,
    suspicious: bool,
    headers: Seq<char>,
    now: u64,
)
    requires
        !usable_response(status, body),
        now + 3600 <= u64::MAX,
    ensures
        refresh_action_of(status, body, suspicious, headers, now) matches RefreshAction::BackOff {
            until,
        } && now < until <= now + 3600,
{
}

/// Only a 429 makes the back-off depend on the headers: every other status,
/// or none, backs off the default, whatever the headers say.
pub proof fn law_backoff_default_unless_rate_limited(
    status: Option<u32>,
    headers: Seq<char>,
    other: Seq<char>,
)
    ensures
        status != Some(429u32) ==> backoff_delay_of(status, headers) == USAGE_BACKOFF_SECS,
        status != Some(429u32) ==> backoff_delay_of(status, headers) == backoff_delay_of(
            status,
            other,
        ),
{
}

/// On a 429 a numeric `Retry-After` within an hour is honoured exactly, and
/// one beyond an hour is cut to the hour.
pub proof fn law_rate_limit_honours_retry_after(headers: Seq<char>)
    ensures
        match retry_after_of(headers) {
            Some(s) => (1 <= s <= 3600 ==> backoff_delay_of(Some(429u32), headers) == s) && (s
                > 3600 ==> backoff_delay_of(Some(429u32), headers) == 3600),
            None => backoff_delay_of(Some(429u32), headers) == USAGE_BACKOFF_SECS,
        },
{
}

/// A back-off never blocks at or after its deadline: once the time written
/// in the back-off file is reached, refreshes may run again.
pub proof fn law_backoff_expires(until: u64, now: u64)
    requires
        until <= now,
    ensures
        !backed_off_of(Some(decimal(until as nat)), now),
{
    lemma_trim_decimal(until as nat);
    lemma_parse_decimal(until as nat, u64::MAX as nat);
}

/// A back-off, whatever the file holds, blocks an interval that starts at
/// any earlier time: if it blocks at `later`, it blocks at every `earlier`
/// time too, and a time at which it does not block is never followed by one
/// at which it does.
pub proof fn law_backoff_blocks_an_initial_interval(text: Seq<char>, earlier: u64, later: u64)
    requires
        earlier <= later,
    ensures
        backed_off_of(Some(text), later) ==> backed_off_of(Some(text), earlier),
{
}

/// A refresh is never due while a back-off blocks, and a missing or expired
/// back-off leaves only the cache's age to decide.
pub proof fn law_refresh_due_respects_backoff(
    age: Option<u128>,
    until: u64,
    now: u64,
)
    ensures
        now < until ==> !(is_stale_of(age, USAGE_TTL_SECS) && !backed_off_of(
            Some(decimal(until as nat)),
            now,
        )),
        until <= now ==> ((is_stale_of(age, USAGE_TTL_SECS) && !backed_off_of(
            Some(decimal(until as nat)),
            now,
        )) == is_stale_of(age, USAGE_TTL_SECS)),
{
    lemma_trim_decimal(until as nat);
    lemma_parse_decimal(until as nat, u64::MAX as nat);
}

// ------------------------------------------------------------ scoped limits

/// What `str::to_lowercase` returns for `s` (full Unicode lower-casing).
pub uninterp spec fn lowercase_of(s: Seq<char>) -> Seq<char>;

/// Calls `str::to_lowercase`.  The contract claims only that the result is
/// the named value `lowercase_of(s)`, which depends on `s` alone.
#[verifier::external_body]
fn to_lowercase(s: &str) -> (r: String)
    ensures
        r@ == lowercase_of(s@),
{
    s.to_lowercase()
}

/// One element of the usage API's `limits` array, with the facts about its
/// numbers that the selection reads.
pub struct LimitEntry {
    /// `kind`, when it is a string.
    pub kind: Option<String>,
    /// `scope.model.display_name`, when it is a string.
    pub model_name: Option<String>,
    /// The placeholder form: `percent` is exactly 0 and `resets_at` is null.
    pub placeholder: bool,
    /// `percent` is a number.
    pub has_percent: bool,
}

/// A limit counts for `model` when it is weekly-scoped, not a placeholder,
/// has a percentage, and its lower-cased model name contains `model`.
pub open spec fn limit_matches(l: LimitEntry, model: Seq<char>) -> bool {
    &&& opt_view(l.kind) == Some("weekly_scoped"@)
    &&& !l.placeholder
    &&& contains(
        lowercase_of(
            match opt_view(l.model_name) {
                Some(n) => n,
                None => Seq::empty(),
            },
        ),
        model,
    )
    &&& l.has_percent
}

/// Limit `i` is the first that counts for `model`.
pub open spec fn is_first_limit(limits: Seq<LimitEntry>, model: Seq<char>, i: int) -> bool {
    0 <= i < limits.len() && limit_matches(limits[i], model) && forall|j: int|
        0 <= j < i ==> !limit_matches(#[trigger] limits[j], model)
}

/// The index of the limit whose percentage is shown for `model`.
pub open spec fn scoped_limit_of(limits: Seq<LimitEntry>, model: Seq<char>) -> Option<int> {
    if exists|i: int| is_first_limit(limits, model, i) {
        Some(choose|i: int| is_first_limit(limits, model, i))
    } else {
        None
    }
}

/// Whether limit `l` counts for `model`.
fn limit_counts(l: &LimitEntry, model: &Vec<char>) -> (r: bool)
    ensures
        r == limit_matches(*l, model@),
{
    let weekly = match &l.kind {
        Some(k) => str_eq(k.as_str(), "weekly_scoped"),
        None => false,
    };
    if !weekly || l.placeholder || !l.has_percent {
        return false;
    }
    let lower = match &l.model_name {
        Some(n) => to_lowercase(n.as_str()),
        None => to_lowercase(""),
    };
    proof {
        if l.model_name is None {
            reveal_strlit("");
            assert(""@ =~= Seq::<char>::empty());
        }
    }
    let lv = chars_of(lower.as_str());
    contains_chars(&lv, model)
}

/// Percent for a `weekly_scoped` limit whose model display name matches:
/// the index of the first such limit.  Placeholder limits (percent 0, no
/// reset time) are skipped.
pub fn scoped_limit_index(limits: &Vec<LimitEntry>, model: &str) -> (r: Option<usize>)
    ensures
        match r {
            Some(i) => scoped_limit_of(limits@, model@) == Some(i as int),
            None => scoped_limit_of(limits@, model@) is None,
        },
{
    let mv = chars_of(model);
    for i in 0..limits.len()
        invariant
            mv@ == model@,
            forall|j: int| 0 <= j < i ==> !limit_matches(#[trigger] limits@[j], model@),
    {
        if limit_counts(&limits[i], &mv) {
            assert(is_first_limit(limits@, model@, i as int));
            let ghost k = choose|k: int| is_first_limit(limits@, model@, k);
            assert(k == i) by {
                if k < i {
                    assert(!limit_matches(limits@[k], model@));
                } else if k > i {
                    assert(!limit_matches(limits@[i as int], model@));
                }
            }
            return Some(i);
        }
    }
    None
}

} // verus!
