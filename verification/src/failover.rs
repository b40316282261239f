//! One provider after the other: who is asked next, and what is said once all have failed.

use vstd::prelude::*;

use crate::admission::Refusal;
use crate::admission::Refused;
use crate::health::after_failure;
use crate::health::can_fail;
use crate::health::classify_failure;
use crate::health::cooldown_of;
use crate::health::failure_label;
use crate::health::failure_of;
use crate::health::fresh_health;
use crate::health::held_back;
use crate::health::Failure;
use crate::health::ProviderHealthState;
use crate::selection::all_failed;
use crate::selection::failure_notice;
use crate::selection::within;

verus! {

/// How far a request has got: the providers in the order in which they are asked, how many of
/// them have been passed, and what is told of the last one that failed.
pub struct Failover {
    pub order: Vec<usize>,
    pub passed: usize,
    pub last: Option<String>,
}

/// The first place, at or after `from`, of a provider to which something is sent at a time;
/// the end of the order where there is none.
pub open spec fn next_open(
    order: Seq<usize>,
    health: Seq<ProviderHealthState>,
    now: u64,
    from: int,
) -> int
    decreases order.len() - from,
{
    if from < 0 || from >= order.len() {
        order.len() as int
    } else if held_back(health[order[from] as int], now) {
        next_open(order, health, now, from + 1)
    } else {
        from
    }
}

/// What the client is told of a provider that failed.
pub open spec fn notice_of(id: Seq<char>, failure: Failure) -> Seq<char> {
    "Provider '"@ + id + "' encountered an internal or upstream error ("@ + failure_label(failure)
        + ")"@
}

/// What is told of the last provider that failed, if one did.
pub open spec fn last_told(last: Option<String>) -> Option<Seq<char>> {
    match last {
        Some(s) => Some(s@),
        None => None,
    }
}

impl Failover {
    /// Whether no more providers have been passed than there are.
    pub open spec fn well_formed(&self) -> bool {
        self.passed <= self.order@.len()
    }

    /// Nobody has been asked yet.
    pub fn new(order: Vec<usize>) -> (r: Self)
        ensures
            r.well_formed(),
            r.order@ == order@,
            r.passed == 0,
            r.last is None,
    {
        Failover { order, passed: 0, last: None }
    }

    /// The next provider to ask: those that are held back are passed over. `health` tells how
    /// each provider has fared.
    pub fn next_try(&mut self, health: &Vec<ProviderHealthState>, now: u64) -> (r: Option<usize>)
        requires
            old(self).well_formed(),
            within(old(self).order@, health@.len() as int),
        ensures
            final(self).well_formed(),
            final(self).order@ == old(self).order@,
            final(self).last == old(self).last,
            ({
                let k = next_open(old(self).order@, health@, now, old(self).passed as int);
                if k < old(self).order@.len() {
                    r == Some(old(self).order@[k]) && final(self).passed == k + 1
                } else {
                    r is None && final(self).passed == old(self).order@.len()
                }
            }),
    {
        let ghost start = self.passed as int;
        while self.passed < self.order.len()
            invariant
                self.well_formed(),
                self.order@ == old(self).order@,
                self.last == old(self).last,
                start == old(self).passed,
                within(self.order@, health@.len() as int),
                next_open(self.order@, health@, now, start) == next_open(
                    self.order@,
                    health@,
                    now,
                    self.passed as int,
                ),
            decreases self.order@.len() - self.passed,
        {
            let i: usize = self.order[self.passed];
            self.passed = self.passed + 1;
            if !health[i].is_rate_limited(now) {
                return Some(i);
            }
        }
        None
    }

    /// A provider has answered: its failures are forgotten.
    pub fn answered(&self, health: &mut ProviderHealthState)
        ensures
            *final(health) == fresh_health(),
    {
        health.mark_provider_healthy();
    }

    /// A provider has failed: its failure is counted against it unless the request was bad,
    /// and the client will be told no more than the kind of the failure. Where the count or
    /// the time no longer fits, nothing is counted and the answer is no.
    pub fn failed(
        &mut self,
        id: &str,
        health: &mut ProviderHealthState,
        error: &str,
        now: u64,
    ) -> (r: bool)
        ensures
            final(self).order@ == old(self).order@,
            final(self).passed == old(self).passed,
            last_told(final(self).last) == Some(notice_of(id@, failure_of(error@))),
            r == (failure_of(error@) is BadRequest || can_fail(
                *old(health),
                now,
                cooldown_of(failure_of(error@), error@, old(health).consecutive_errors + 1),
            )),
            r ==> *final(health) == after_failure(*old(health), failure_of(error@), error@, now),
            !r ==> *final(health) == *old(health),
    {
        let failure = classify_failure(error);
        let counted = health.record_failure(failure, error, now);
        self.last = Some(failure_notice(id, failure));
        counted
    }

    /// What the client is told once nobody is left.
    pub fn exhausted(&self) -> (r: Refusal)
        ensures
            r@ == (Refused {
                status: 502,
                message: "All available AI providers failed to process the request. Last failure: "@
                    + (match last_told(self.last) {
                    Some(s) => s,
                    None => "All providers failed."@,
                }),
            }),
    {
        all_failed(&self.last)
    }
}

/// A provider that is asked is not held back, every provider that is passed over is, and the
/// order is only ever walked forwards.
pub proof fn law_only_open_providers_are_asked(
    order: Seq<usize>,
    health: Seq<ProviderHealthState>,
    now: u64,
    from: int,
)
    requires
        0 <= from <= order.len(),
    ensures
        from <= next_open(order, health, now, from) <= order.len(),
        next_open(order, health, now, from) < order.len() ==> !held_back(
            health[order[next_open(order, health, now, from)] as int],
            now,
        ),
        forall|k: int|
            from <= k < next_open(order, health, now, from) ==> held_back(
                health[#[trigger] order[k] as int],
                now,
            ),
    decreases order.len() - from,
{
    if from < order.len() && held_back(health[order[from] as int], now) {
        law_only_open_providers_are_asked(order, health, now, from + 1);
    }
}

/// What a provider said never reaches the client: of two errors of one kind the client is
/// told the same.
pub proof fn law_errors_are_not_passed_on(id: Seq<char>, one: Seq<char>, other: Seq<char>)
    requires
        failure_of(one) == failure_of(other),
    ensures
        notice_of(id, failure_of(one)) == notice_of(id, failure_of(other)),
{
}

} // verus!
