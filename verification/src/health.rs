//! The health of a provider: counting failures and staying away for a while.

use vstd::prelude::*;

use crate::text;
use crate::text::chars_of;
use crate::text::find_char;
use crate::text::find_from;
use crate::text::has_text;
use crate::text::parsed_u64;
use crate::text::string_of;
use crate::text::trimmed;

verus! {

/// How a provider has fared lately.
#[derive(Debug, Clone, Copy, PartialEq, Eq, Structural)]
pub struct ProviderHealthState {
    /// Failures since the last success.
    pub consecutive_errors: u32,
    /// Until when, in seconds since 1970, nothing is sent to the provider.
    pub rate_limited_until: Option<u64>,
}

impl Default for ProviderHealthState {
    fn default() -> (r: Self)
        ensures
            r == fresh_health(),
    {
        ProviderHealthState { consecutive_errors: 0, rate_limited_until: None }
    }
}

/// The health of a provider that nothing is known against.
pub open spec fn fresh_health() -> ProviderHealthState {
    ProviderHealthState { consecutive_errors: 0, rate_limited_until: None }
}

/// Whether nothing is sent to a provider at a time.
pub open spec fn held_back(h: ProviderHealthState, now: u64) -> bool {
    match h.rate_limited_until {
        Some(until) => now < until,
        None => false,
    }
}

/// The health after one more failure, with nothing sent for some seconds.
pub open spec fn failed_for(h: ProviderHealthState, now: u64, seconds: u64) -> ProviderHealthState {
    ProviderHealthState {
        consecutive_errors: (h.consecutive_errors + 1) as u32,
        rate_limited_until: Some((now + seconds) as u64),
    }
}

/// Whether one more failure can be counted and dated.
pub open spec fn can_fail(h: ProviderHealthState, now: u64, seconds: u64) -> bool {
    h.consecutive_errors < u32::MAX && now + seconds <= u64::MAX
}

/// What an upstream failure is taken for.
#[derive(Debug, Clone, Copy, PartialEq, Eq, Structural)]
pub enum Failure {
    /// The request itself was bad: the provider is not to blame.
    BadRequest,
    /// The provider wants fewer requests.
    RateLimited,
    /// Anything else.
    Other,
}

/// Whether an error speaks of a bad request.
pub open spec fn says_bad_request(error: Seq<char>) -> bool {
    has_text(error, " 400 "@) || has_text(error, "400 Bad Request"@)
}

/// Whether an error speaks of too many requests.
pub open spec fn says_rate_limited(error: Seq<char>) -> bool {
    has_text(error, " 429 "@) || has_text(error, "429 Too Many Requests"@)
}

/// What an error's text is taken for.
pub open spec fn failure_of(error: Seq<char>) -> Failure {
    if says_bad_request(error) {
        Failure::BadRequest
    } else if says_rate_limited(error) {
        Failure::RateLimited
    } else {
        Failure::Other
    }
}

/// What an answer with a status and a text is taken for.
pub open spec fn failure_with_status(status: u16, body: Seq<char>) -> Failure {
    if status == 400 || says_bad_request(body) {
        Failure::BadRequest
    } else if status == 429 || says_rate_limited(body) {
        Failure::RateLimited
    } else {
        Failure::Other
    }
}

/// The seconds that an error asks to wait, where it says so in brackets.
pub open spec fn retry_after_of(error: Seq<char>) -> Option<u64> {
    match find_from(error, "Retry-After: "@, 0) {
        Some(i) => {
            let rest = error.skip(i + 13);
            match find_char(rest, ']', 0) {
                Some(j) => parsed_u64(trimmed(rest.take(j))),
                None => None,
            }
        },
        None => None,
    }
}

/// The seconds to stay away after a failure: a minute for each failure in a row, up to
/// fifteen, unless the error itself says how long.
pub open spec fn cooldown_of(failure: Failure, error: Seq<char>, errors: int) -> u64 {
    match failure {
        Failure::BadRequest => 0,
        Failure::RateLimited => match retry_after_of(error) {
            Some(s) => s,
            None => ((if errors < 15 {
                errors
            } else {
                15
            }) * 60) as u64,
        },
        Failure::Other => 30,
    }
}

/// The health after a failure.
pub open spec fn after_failure(
    h: ProviderHealthState,
    failure: Failure,
    error: Seq<char>,
    now: u64,
) -> ProviderHealthState {
    match failure {
        Failure::BadRequest => fresh_health(),
        _ => failed_for(h, now, cooldown_of(failure, error, h.consecutive_errors + 1)),
    }
}

/// What an error's text is taken for.
pub fn classify_failure(error: &str) -> (r: Failure)
    ensures
        r == failure_of(error@),
{
    if text::contains(error, " 400 ") || text::contains(error, "400 Bad Request") {
        Failure::BadRequest
    } else if text::contains(error, " 429 ") || text::contains(error, "429 Too Many Requests") {
        Failure::RateLimited
    } else {
        Failure::Other
    }
}

/// What an answer with a status and a text is taken for.
pub fn classify_status(status: u16, body: &str) -> (r: Failure)
    ensures
        r == failure_with_status(status, body@),
{
    if status == 400 || text::contains(body, " 400 ") || text::contains(body, "400 Bad Request") {
        Failure::BadRequest
    } else if status == 429 || text::contains(body, " 429 ") || text::contains(
        body,
        "429 Too Many Requests",
    ) {
        Failure::RateLimited
    } else {
        Failure::Other
    }
}

/// The seconds that an error asks to wait.
pub fn retry_after(error: &str) -> (r: Option<u64>)
    ensures
        r == retry_after_of(error@),
{
    let v = chars_of(error);
    let p = chars_of("Retry-After: ");
    proof {
        reveal_strlit("Retry-After: ");
    }
    match text::find_chars(v.as_slice(), p.as_slice(), 0) {
        Some(i) => {
            let len: usize = v.len();
            let rest = text::copy_chars(v.as_slice(), i + 13, len);
            proof {
                assert(rest@ =~= error@.skip(i + 13));
            }
            match text::find_in(rest.as_slice(), ']', 0) {
                Some(j) => {
                    let inside = string_of(rest.as_slice(), 0, j);
                    proof {
                        assert(inside@ =~= rest@.take(j as int));
                    }
                    let bare = text::trim(inside.as_str());
                    text::parse_u64(bare.as_str())
                },
                None => None,
            }
        },
        None => None,
    }
}

/// The seconds to stay away after a failure, the `errors`th in a row.
pub fn cooldown(failure: Failure, error: &str, errors: u32) -> (r: u64)
    ensures
        r == cooldown_of(failure, error@, errors as int),
{
    match failure {
        Failure::BadRequest => 0,
        Failure::RateLimited => match retry_after(error) {
            Some(s) => s,
            None => {
                let counted: u64 = if errors < 15 {
                    errors as u64
                } else {
                    15
                };
                counted * 60
            },
        },
        Failure::Other => 30,
    }
}

/// What an upstream failure is called towards the client, who learns nothing else of it.
pub open spec fn failure_label(failure: Failure) -> Seq<char> {
    match failure {
        Failure::BadRequest => "400"@,
        Failure::RateLimited => "429"@,
        Failure::Other => "Unknown/500"@,
    }
}

/// What an upstream failure is called towards the client.
pub fn label_of(failure: Failure) -> (r: &'static str)
    ensures
        r@ == failure_label(failure),
{
    match failure {
        Failure::BadRequest => "400",
        Failure::RateLimited => "429",
        Failure::Other => "Unknown/500",
    }
}

impl ProviderHealthState {
    /// Whether nothing is sent to the provider at a time.
    pub fn is_rate_limited(&self, now: u64) -> (r: bool)
        ensures
            r == held_back(*self, now),
    {
        match self.rate_limited_until {
            Some(until) => now < until,
            None => false,
        }
    }

    /// Counts one more failure, and sends nothing for some seconds.
    pub fn mark_provider_unhealthy(&mut self, now: u64, seconds: u64)
        requires
            can_fail(*old(self), now, seconds),
        ensures
            *final(self) == failed_for(*old(self), now, seconds),
    {
        self.consecutive_errors = self.consecutive_errors + 1;
        self.rate_limited_until = Some(now + seconds);
    }

    /// Forgets all failures.
    pub fn mark_provider_healthy(&mut self)
        ensures
            *final(self) == fresh_health(),
    {
        self.consecutive_errors = 0;
        self.rate_limited_until = None;
    }

    /// Takes note of a failure. Where the count or the time no longer fits, nothing changes
    /// and the answer is no.
    pub fn record_failure(&mut self, failure: Failure, error: &str, now: u64) -> (r: bool)
        ensures
            r == (failure is BadRequest || can_fail(
                *old(self),
                now,
                cooldown_of(failure, error@, old(self).consecutive_errors + 1),
            )),
            r ==> *final(self) == after_failure(*old(self), failure, error@, now),
            !r ==> *final(self) == *old(self),
    {
        match failure {
            Failure::BadRequest => {
                self.mark_provider_healthy();
                true
            },
            _ => {
                if self.consecutive_errors == u32::MAX {
                    return false;
                }
                let seconds = cooldown(failure, error, self.consecutive_errors + 1);
                if seconds > u64::MAX - now {
                    return false;
                }
                self.mark_provider_unhealthy(now, seconds);
                true
            },
        }
    }
}

/// After a failure that is the provider's own, nothing is sent for exactly the cooldown; a
/// bad request never holds a provider back.
pub proof fn law_cooldown_is_kept(
    h: ProviderHealthState,
    failure: Failure,
    error: Seq<char>,
    now: u64,
    later: u64,
)
    requires
        failure is BadRequest || can_fail(
            h,
            now,
            cooldown_of(failure, error, h.consecutive_errors + 1),
        ),
    ensures
        failure is BadRequest ==> !held_back(after_failure(h, failure, error, now), later),
        !(failure is BadRequest) ==> (held_back(after_failure(h, failure, error, now), later)
            <==> later < now + cooldown_of(failure, error, h.consecutive_errors + 1)),
{
}

/// A provider that asks for fewer requests without saying how long is left alone for one to
/// fifteen minutes, longer the more often it failed.
pub proof fn law_backoff_grows(error: Seq<char>, fewer: int, more: int)
    requires
        1 <= fewer <= more,
        retry_after_of(error) is None,
    ensures
        60 <= cooldown_of(Failure::RateLimited, error, fewer) <= cooldown_of(
            Failure::RateLimited,
            error,
            more,
        ) <= 900,
{
}

} // verus!
