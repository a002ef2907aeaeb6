//! Start-up configuration read from the environment: the rate limit, whether
//! client addresses come from proxy headers, and the list of inference replicas.

use crate::text::{field_bounds, parse_usize, parse_usize_spec, split_on, str_equals,
    strip_trailing, strip_trailing_end, trim, trim_bounds};
use vstd::prelude::*;
use vstd::string::*;

verus! {

/// Requests per client and minute when no valid limit is configured.
pub const DEFAULT_RATE_LIMIT: usize = 100;

/// The replica list used when none is configured.
pub open spec fn default_backend_urls() -> Seq<char> {
    "http://localhost:11434"@
}

/// The limit that a configured value gives: its unsigned decimal value, or
/// the default when it is unset or not a valid `usize`.
pub open spec fn rate_limit_spec(value: Option<Seq<char>>) -> usize {
    match value {
        Some(v) => match parse_usize_spec(v) {
            Some(n) => n,
            None => DEFAULT_RATE_LIMIT,
        },
        None => DEFAULT_RATE_LIMIT,
    }
}

/// Whether a configured value turns on reading client addresses from proxy
/// headers: only the exact values `true` and `1` do.
pub open spec fn behind_proxy_spec(value: Option<Seq<char>>) -> bool {
    match value {
        Some(v) => v == "true"@ || v == "1"@,
        None => false,
    }
}

/// One replica base URL as written in the list: whitespace trimmed, then
/// every trailing `/` removed.
pub open spec fn clean_url(field: Seq<char>) -> Seq<char> {
    strip_trailing(trim(field), '/')
}

/// The replica base URLs of a comma-separated list, one per field, empty
/// fields included.
pub open spec fn backend_urls_spec(list: Seq<char>) -> Seq<Seq<char>> {
    split_on(list, ',').map_values(|f: Seq<char>| clean_url(f))
}

/// The view of an optional string slice.
pub open spec fn opt_view(value: Option<&str>) -> Option<Seq<char>> {
    match value {
        Some(v) => Some(v@),
        None => None,
    }
}

/// Settings of the rate limiter.
pub struct RateLimitConfig {
    /// Requests allowed per client within one counting window.
    pub limit: usize,
    /// Whether the client address is taken from proxy headers.
    pub behind_proxy: bool,
}

/// The rate limit configured by `value` (the `RATE_LIMIT_BURST` setting).
pub fn rate_limit_from(value: Option<&str>) -> (limit: usize)
    ensures
        limit == rate_limit_spec(opt_view(value)),
{
    match value {
        Some(v) => match parse_usize(v) {
            Some(n) => n,
            None => DEFAULT_RATE_LIMIT,
        },
        None => DEFAULT_RATE_LIMIT,
    }
}

/// Whether `value` (the `BEHIND_PROXY` setting) turns on proxy headers.
pub fn behind_proxy_from(value: Option<&str>) -> (on: bool)
    ensures
        on == behind_proxy_spec(opt_view(value)),
{
    match value {
        Some(v) => str_equals(v, "true") || str_equals(v, "1"),
        None => false,
    }
}

/// The rate limiter settings given the two configuration values.
pub fn rate_limit_config(behind_proxy: Option<&str>, burst: Option<&str>) -> (c: RateLimitConfig)
    ensures
        c.limit == rate_limit_spec(opt_view(burst)),
        c.behind_proxy == behind_proxy_spec(opt_view(behind_proxy)),
{
    RateLimitConfig { limit: rate_limit_from(burst), behind_proxy: behind_proxy_from(behind_proxy) }
}

/// The replica base URLs listed in `list`.
pub fn parse_backend_urls(list: &str) -> (urls: Vec<String>)
    ensures
        urls@.map_values(|u: String| u@) == backend_urls_spec(list@),
{
    let (starts, ends) = field_bounds(list, ',');
    let ghost fields = split_on(list@, ',');
    let mut urls: Vec<String> = Vec::new();
    let mut i: usize = 0;
    while i < starts.len()
        invariant
            fields == split_on(list@, ','),
            starts@.len() == fields.len(),
            ends@.len() == fields.len(),
            forall|j: int|
                0 <= j < starts@.len() ==> starts@[j] <= #[trigger] ends@[j] <= list@.len()
                    && list@.subrange(starts@[j] as int, ends@[j] as int) == fields[j],
            i <= starts@.len(),
            urls@.len() == i,
            forall|j: int| 0 <= j < i ==> (#[trigger] urls@[j])@ == clean_url(fields[j]),
        decreases starts@.len() - i,
    {
        let a = starts[i];
        let b = ends[i];
        proof {
            assert(starts@[i as int] <= ends@[i as int]);
        }
        let (lo, hi) = trim_bounds(list, a, b);
        let e = strip_trailing_end(list, lo, hi, '/');
        urls.push(list.substring_char(lo, e).to_owned());
        i += 1;
    }
    proof {
        assert(urls@.map_values(|u: String| u@) =~= backend_urls_spec(list@));
    }
    urls
}

/// The replica base URLs configured by `value` (the `BACKEND_URLS`
/// setting), or the single local default when it is unset.
pub fn backend_urls_from(value: Option<&str>) -> (urls: Vec<String>)
    ensures
        urls@.map_values(|u: String| u@) == backend_urls_spec(
            match value {
                Some(v) => v@,
                None => default_backend_urls(),
            },
        ),
{
    match value {
        Some(v) => parse_backend_urls(v),
        None => parse_backend_urls("http://localhost:11434"),
    }
}

} // verus!
