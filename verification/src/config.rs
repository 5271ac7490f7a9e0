//! Service configuration and the pure validation and assembly steps of
//! startup: placeholder-key detection and connection-URL building. The
//! reading of environment variables and secret files stays outside the
//! library; it hands plain strings in.

use vstd::prelude::*;

use crate::outside::{lowered, to_lower};
use crate::text::{
    chars_contain, chars_start_with, chars_to_string, push_all, spec_contains, spec_starts_with,
    str_to_chars, trim_chars, trim_spec,
};

verus! {

/// The service configuration, all plain values.
#[derive(Clone)]
pub struct Config {
    pub odds_api_key: String,
    pub database_url: String,
    pub redis_url: String,
    pub poll_interval_seconds: u64,
    pub sport_key: String,
    pub health_port: u16,
    /// Run one cycle and exit instead of polling.
    pub run_once: bool,
    /// Fail resolution closed on an unknown name instead of creating.
    pub strict_resolution: bool,
    /// Requests allowed per rolling minute.
    pub rate_quota_per_minute: usize,
    /// How long an event counts as recently seen, in seconds.
    pub freshness_window_seconds: u64,
    pub enable_first_half: bool,
    pub enable_second_half: bool,
}

impl Default for Config {
    /// The stock configuration: empty credentials and URLs, a 30 second
    /// poll, the college-basketball sport key, permissive resolution, 30
    /// requests per minute, a 300 second freshness window, and both
    /// half-game market sets enabled.
    fn default() -> (r: Config)
        ensures
            r.odds_api_key@.len() == 0,
            r.database_url@.len() == 0,
            r.redis_url@.len() == 0,
            r.poll_interval_seconds == 30,
            r.sport_key@ == "basketball_ncaab"@,
            r.health_port == 8083,
            !r.run_once,
            !r.strict_resolution,
            r.rate_quota_per_minute == 30,
            r.freshness_window_seconds == 300,
            r.enable_first_half,
            r.enable_second_half,
    {
        let sport_chars = str_to_chars("basketball_ncaab");
        Config {
            odds_api_key: String::new(),
            database_url: String::new(),
            redis_url: String::new(),
            poll_interval_seconds: 30,
            sport_key: chars_to_string(&sport_chars),
            health_port: 8083,
            run_once: false,
            strict_resolution: false,
            rate_quota_per_minute: 30,
            freshness_window_seconds: 300,
            enable_first_half: true,
            enable_second_half: true,
        }
    }
}

/// Whether a configured API key is a sample or placeholder value that
/// must not reach the odds API: judged on the trimmed, lowercased key.
pub open spec fn placeholder_key_spec(key: Seq<char>) -> bool {
    let low = lowered(trim_spec(key));
    spec_contains(low, "change_me"@) || spec_contains(low, "your_"@) || spec_starts_with(
        low,
        "sample"@,
    ) || low == "4a0b80471d1ebeeb74c358fa0fcc4a2"@
}

/// Decides whether an API key is a placeholder value.
pub fn api_key_is_placeholder(key: &str) -> (r: bool)
    ensures
        r == placeholder_key_spec(key@),
{
    let chars = str_to_chars(key);
    let trimmed = trim_chars(&chars);
    let trimmed_str = chars_to_string(&trimmed);
    let low_str = to_lower(trimmed_str.as_str());
    let low = str_to_chars(low_str.as_str());
    if chars_contain(&low, &str_to_chars("change_me")) {
        return true;
    }
    if chars_contain(&low, &str_to_chars("your_")) {
        return true;
    }
    if chars_start_with(&low, &str_to_chars("sample")) {
        return true;
    }
    crate::text::chars_eq(&low, &str_to_chars("4a0b80471d1ebeeb74c358fa0fcc4a2"))
}

/// Whether an API key may be used: non-empty after trimming and not a
/// placeholder.
pub fn api_key_usable(key: &str) -> (r: bool)
    ensures
        r == (trim_spec(key@).len() > 0 && !placeholder_key_spec(key@)),
{
    let chars = str_to_chars(key);
    let trimmed = trim_chars(&chars);
    if trimmed.len() == 0 {
        return false;
    }
    !api_key_is_placeholder(key)
}

/// Assembles a PostgreSQL connection URL from its parts.
pub fn build_database_url(user: &str, password: &str, host: &str, port: &str, db: &str) -> (r:
    String)
    ensures
        r@ == "postgresql://"@ + user@ + ":"@ + password@ + "@"@ + host@ + ":"@ + port@ + "/"@
            + db@,
{
    let mut out: Vec<char> = Vec::new();
    push_all(&mut out, &str_to_chars("postgresql://"));
    push_all(&mut out, &str_to_chars(user));
    push_all(&mut out, &str_to_chars(":"));
    push_all(&mut out, &str_to_chars(password));
    push_all(&mut out, &str_to_chars("@"));
    push_all(&mut out, &str_to_chars(host));
    push_all(&mut out, &str_to_chars(":"));
    push_all(&mut out, &str_to_chars(port));
    push_all(&mut out, &str_to_chars("/"));
    push_all(&mut out, &str_to_chars(db));
    chars_to_string(&out)
}

/// Assembles a Redis connection URL around a password.
pub fn build_redis_url(password: &str) -> (r: String)
    ensures
        r@ == "redis://:"@ + password@ + "@redis:6379"@,
{
    let mut out: Vec<char> = Vec::new();
    push_all(&mut out, &str_to_chars("redis://:"));
    push_all(&mut out, &str_to_chars(password));
    push_all(&mut out, &str_to_chars("@redis:6379"));
    chars_to_string(&out)
}

} // verus!
