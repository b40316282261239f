//! The limits on requests in numbers: how many within a minute, and how long the way is shut
//! after that.

use vstd::prelude::*;

use crate::dos::ban_secs;
use crate::dos::ip_step;
use crate::dos::recent;
use crate::dos::subnet_of;
use crate::dos::subnet_step;
use crate::dos::v4_of;
use crate::dos::wait_secs;
use crate::dos::Address;
use crate::dos::IpRecord;
use crate::dos::SubnetRecord;

verus! {

/// Whether times lie more than a minute before `now`.
pub open spec fn all_past(times: Seq<u64>, now: u64) -> bool {
    forall|i: int| 0 <= i < times.len() ==> now - #[trigger] times[i] > 60_000_000_000
}

/// Whether times lie at most a minute before `now`.
pub open spec fn all_fresh(times: Seq<u64>, now: u64) -> bool {
    forall|i: int| 0 <= i < times.len() ==> now - #[trigger] times[i] <= 60_000_000_000
}

proof fn lemma_recent(past: Seq<u64>, fresh: Seq<u64>, now: u64)
    requires
        all_past(past, now),
        all_fresh(fresh, now),
    ensures
        recent(past + fresh, now) == fresh,
    decreases past.len(),
{
    let all = past + fresh;
    if past.len() > 0 {
        assert(all[0] == past[0]);
        assert(all.skip(1) =~= past.skip(1) + fresh);
        assert(all_past(past.skip(1), now)) by {
            assert forall|i: int| 0 <= i < past.skip(1).len() implies now - #[trigger] past.skip(
                1,
            )[i] > 60_000_000_000 by {
                assert(past.skip(1)[i] == past[i + 1]);
            }
        }
        lemma_recent(past.skip(1), fresh, now);
    } else {
        assert(all =~= fresh);
        if fresh.len() > 0 {
            assert(now - fresh[0] <= 60_000_000_000);
        }
    }
}

/// An address that is not shut out may make a hundred requests within a minute, those before
/// do not count; the next one is refused and shuts it out.
pub proof fn law_hundred_requests_a_minute(
    r: IpRecord,
    past: Seq<u64>,
    fresh: Seq<u64>,
    now: u64,
)
    requires
        r.banned_until matches Some(until) ==> until <= now,
        r.requests == past + fresh,
        all_past(past, now),
        all_fresh(fresh, now),
    ensures
        fresh.len() <= 99 ==> {
            &&& ip_step(r, now).1 is None
            &&& ip_step(r, now).0.requests == fresh.push(now)
            &&& ip_step(r, now).0.violations == r.violations
            &&& ip_step(r, now).0.banned_until is None
            &&& ip_step(r, now).0.active == r.active
        },
        fresh.len() >= 100 && 0 <= r.violations < u64::MAX ==> {
            &&& ip_step(r, now).1 == Some(ban_secs(r.violations))
            &&& ip_step(r, now).0.requests.len() == 0
            &&& ip_step(r, now).0.violations == r.violations + 1
            &&& now + 604_800_000_000_000 <= u64::MAX ==> ip_step(r, now).0.banned_until
                == Some((now + ban_secs(r.violations) * 1_000_000_000) as u64)
            &&& ip_step(r, now).0.active == r.active
        },
{
    lemma_recent(past, fresh, now);
}

/// A network that is not shut out may make a thousand requests within a minute; the next one
/// is refused and shuts it out for five minutes.
pub proof fn law_thousand_requests_a_minute(
    r: SubnetRecord,
    past: Seq<u64>,
    fresh: Seq<u64>,
    now: u64,
)
    requires
        r.banned_until matches Some(until) ==> until <= now,
        r.requests == past + fresh,
        all_past(past, now),
        all_fresh(fresh, now),
    ensures
        fresh.len() <= 999 ==> {
            &&& subnet_step(r, now).1 is None
            &&& subnet_step(r, now).0.requests == fresh.push(now)
            &&& subnet_step(r, now).0.banned_until is None
        },
        fresh.len() >= 1000 ==> {
            &&& subnet_step(r, now).1 == Some(300u64)
            &&& subnet_step(r, now).0.requests.len() == 0
            &&& now + 300_000_000_000 <= u64::MAX ==> subnet_step(r, now).0.banned_until
                == Some((now + 300_000_000_000) as u64)
        },
{
    lemma_recent(past, fresh, now);
}

/// As long as a network or an address is shut out nothing changes, and it is told the whole
/// seconds that are left, at least one.
pub proof fn law_shut_out_until_the_end(
    subnet: SubnetRecord,
    addr: IpRecord,
    now: u64,
    until: u64,
)
    requires
        now < until,
    ensures
        subnet.banned_until == Some(until) ==> subnet_step(subnet, now) == (
            subnet,
            Some(wait_secs(until, now)),
        ),
        addr.banned_until == Some(until) ==> ip_step(addr, now) == (
            addr,
            Some(wait_secs(until, now)),
        ),
        wait_secs(until, now) >= 1,
        until - now < (wait_secs(until, now) + 1) * 1_000_000_000,
        until - now >= 1_000_000_000 ==> wait_secs(until, now) * 1_000_000_000 <= until - now,
        until - now < 1_000_000_000 ==> wait_secs(until, now) == 1,
{
}

/// The first violation shuts an address out for a minute, the next ones for five minutes, an
/// hour and a day, and every further one for a week.
pub proof fn law_violations_are_punished(violations: int)
    ensures
        ban_secs(0) == 60,
        ban_secs(1) == 5 * 60,
        ban_secs(2) == 60 * 60,
        ban_secs(3) == 24 * 60 * 60,
        violations >= 4 ==> ban_secs(violations) == 7 * 24 * 60 * 60,
{
}

/// An IPv4 address stands for itself, an IPv6 address that maps one stands for that one, and
/// no other stands for any. Addresses are of one network where they differ in the last byte
/// alone.
pub proof fn law_addresses_stand_for_one(x: u32, y: u128, network: u32, a: u8, b: u8)
    requires
        network < 0x100_0000,
    ensures
        v4_of(Address::V4(x)) == Some(x),
        v4_of(Address::V6((0xffff_0000_0000 + x) as u128)) == Some(x),
        !(0xffff_0000_0000 <= y <= 0xffff_ffff_ffff) ==> v4_of(Address::V6(y)) is None,
        subnet_of((network * 256 + a) as u32) == network,
        subnet_of((network * 256 + a) as u32) == subnet_of((network * 256 + b) as u32),
{
}

} // verus!
