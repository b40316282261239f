//! Limits on requests and connections of single addresses and of whole networks.
//!
//! Times are nanoseconds on a clock that does not go back. Addresses are IPv4 addresses as
//! numbers; a network is the first three bytes of an address.

use std::collections::HashMap;
use std::collections::VecDeque;
use vstd::prelude::*;

verus! {

broadcast use vstd::std_specs::hash::group_hash_axioms;

/// The number of requests that a network may make within a minute.
pub const SUBNET_RATE_LIMIT: usize = 1000;

/// The number of requests that an address may make within a minute.
pub const IP_RATE_LIMIT: usize = 100;

/// The time within which requests are counted: a minute.
pub const RATE_WINDOW: u64 = 60_000_000_000;

/// How long a network is shut out, in seconds.
pub const SUBNET_BAN_SECS: u64 = 300;

/// The number of connections that one address may hold.
pub const IP_CONNECTION_LIMIT: u32 = 25;

/// The number of connections that may be held in all.
pub const GLOBAL_CONNECTION_LIMIT: u32 = 15000;

/// An address of either kind.
#[derive(Clone, Copy)]
pub enum Address {
    V4(u32),
    V6(u128),
}

/// The IPv4 address that an address stands for: itself, or the one that it maps.
pub open spec fn v4_of(a: Address) -> Option<u32> {
    match a {
        Address::V4(x) => Some(x),
        Address::V6(x) => if x as int / 0x1_0000_0000 == 0xffff {
            Some((x as int % 0x1_0000_0000) as u32)
        } else {
            None
        },
    }
}

/// How long an address is shut out after so many violations before, in seconds: a minute,
/// five minutes, an hour, a day, then a week.
pub open spec fn ban_secs(violations: int) -> u64 {
    if violations <= 0 {
        60
    } else if violations == 1 {
        300
    } else if violations == 2 {
        3600
    } else if violations == 3 {
        86400
    } else {
        604800
    }
}

/// What is known of a network's requests.
pub struct SubnetRecord {
    pub requests: Seq<u64>,
    pub banned_until: Option<u64>,
}

/// What is known of an address's requests and connections.
pub struct IpRecord {
    pub requests: Seq<u64>,
    pub violations: int,
    pub banned_until: Option<u64>,
    pub active: int,
}

/// A network of which nothing is known yet.
pub open spec fn fresh_subnet() -> SubnetRecord {
    SubnetRecord { requests: seq![], banned_until: None }
}

/// An address of which nothing is known yet.
pub open spec fn fresh_ip() -> IpRecord {
    IpRecord { requests: seq![], violations: 0, banned_until: None, active: 0 }
}

/// The requests without those at the front that lie more than a minute back.
pub open spec fn recent(requests: Seq<u64>, now: u64) -> Seq<u64>
    decreases requests.len(),
{
    if requests.len() > 0 && now - requests[0] > RATE_WINDOW {
        recent(requests.skip(1), now)
    } else {
        requests
    }
}

/// The whole seconds, at least one, until a time.
pub open spec fn wait_secs(until: u64, now: u64) -> u64 {
    let s = (until - now) / 1_000_000_000;
    if s < 1 {
        1
    } else {
        s as u64
    }
}

/// What a request does to the record of its network, and the seconds to wait where it is
/// refused.
pub open spec fn subnet_step(r: SubnetRecord, now: u64) -> (SubnetRecord, Option<u64>) {
    if r.banned_until is Some && now < r.banned_until->0 {
        (r, Some(wait_secs(r.banned_until->0, now)))
    } else {
        let requests = recent(r.requests, now).push(now);
        if requests.len() > SUBNET_RATE_LIMIT {
            (
                SubnetRecord {
                    requests: seq![],
                    banned_until: Some((now + SUBNET_BAN_SECS * 1_000_000_000) as u64),
                },
                Some(SUBNET_BAN_SECS),
            )
        } else {
            (SubnetRecord { requests, banned_until: None }, None)
        }
    }
}

/// What a request does to the record of its address, and the seconds to wait where it is
/// refused.
pub open spec fn ip_step(r: IpRecord, now: u64) -> (IpRecord, Option<u64>) {
    if r.banned_until is Some && now < r.banned_until->0 {
        (r, Some(wait_secs(r.banned_until->0, now)))
    } else {
        let requests = recent(r.requests, now).push(now);
        if requests.len() > IP_RATE_LIMIT {
            (
                IpRecord {
                    requests: seq![],
                    violations: if r.violations < u64::MAX {
                        r.violations + 1
                    } else {
                        r.violations
                    },
                    banned_until: Some((now + ban_secs(r.violations) * 1_000_000_000) as u64),
                    active: r.active,
                },
                Some(ban_secs(r.violations)),
            )
        } else {
            (IpRecord { requests, banned_until: None, ..r }, None)
        }
    }
}

struct SubnetState {
    requests: VecDeque<u64>,
    banned_until: Option<u64>,
}

struct IpState {
    requests: VecDeque<u64>,
    violations: u64,
    banned_until: Option<u64>,
    active_connections: u32,
}

impl SubnetState {
    spec fn record(&self) -> SubnetRecord {
        SubnetRecord { requests: self.requests@, banned_until: self.banned_until }
    }
}

impl IpState {
    spec fn record(&self) -> IpRecord {
        IpRecord {
            requests: self.requests@,
            violations: self.violations as int,
            banned_until: self.banned_until,
            active: self.active_connections as int,
        }
    }
}

/// The connections that all addresses hold together.
spec fn total_active(m: Map<u32, IpState>) -> int
    decreases m.dom().len(),
    when m.dom().finite()
{
    if m.dom().len() == 0 {
        0
    } else {
        let k = m.dom().choose();
        m[k].active_connections + total_active(m.remove(k))
    }
}

proof fn lemma_total_remove(m: Map<u32, IpState>, k: u32)
    requires
        m.dom().finite(),
        m.dom().contains(k),
    ensures
        total_active(m) == m[k].active_connections + total_active(m.remove(k)),
    decreases m.dom().len(),
{
    let c = m.dom().choose();
    assert(m.dom().contains(c));
    if c != k {
        lemma_total_remove(m.remove(c), k);
        lemma_total_remove(m.remove(k), c);
        assert(m.remove(c).remove(k) =~= m.remove(k).remove(c));
    }
}

proof fn lemma_total_insert(m: Map<u32, IpState>, k: u32, v: IpState)
    requires
        m.dom().finite(),
    ensures
        total_active(m.insert(k, v)) == total_active(m) + v.active_connections - (if m.dom().contains(
            k,
        ) {
            m[k].active_connections as int
        } else {
            0
        }),
{
    let n = m.insert(k, v);
    lemma_total_remove(n, k);
    if m.dom().contains(k) {
        lemma_total_remove(m, k);
        assert(n.remove(k) =~= m.remove(k));
    } else {
        assert(n.remove(k) =~= m);
    }
}

proof fn lemma_total_at_least(m: Map<u32, IpState>, k: u32)
    requires
        m.dom().finite(),
        m.dom().contains(k),
    ensures
        total_active(m) >= m[k].active_connections,
{
    lemma_total_remove(m, k);
    lemma_total_not_negative(m.remove(k));
}

proof fn lemma_total_not_negative(m: Map<u32, IpState>)
    requires
        m.dom().finite(),
    ensures
        total_active(m) >= 0,
    decreases m.dom().len(),
{
    if m.dom().len() > 0 {
        lemma_total_not_negative(m.remove(m.dom().choose()));
    }
}

/// The right to a connection; it is given back once the connection ends.
pub struct ConnectionGuard {
    pub ipv4: u32,
}

/// What is known of all networks and addresses.
pub struct DosProtection {
    subnets: HashMap<u32, SubnetState>,
    ips: HashMap<u32, IpState>,
    global_connections: u32,
}

/// Takes away the requests that lie more than a minute back, and adds one.
fn note_request(requests: &mut VecDeque<u64>, now: u64)
    ensures
        final(requests)@ == recent(old(requests)@, now).push(now),
{
    let ghost before = requests@;
    while requests.len() > 0 && requests[0] < now && now - requests[0] > RATE_WINDOW
        invariant
            recent(before, now) == recent(requests@, now),
        decreases requests@.len(),
    {
        let ghost earlier = requests@;
        let _ = requests.pop_front();
        proof {
            assert(requests@ =~= earlier.skip(1));
        }
    }
    requests.push_back(now);
}

fn ban_time(violations: u64) -> (r: u64)
    ensures
        r == ban_secs(violations as int),
{
    if violations == 0 {
        60
    } else if violations == 1 {
        300
    } else if violations == 2 {
        3600
    } else if violations == 3 {
        86400
    } else {
        604800
    }
}

fn seconds_until(until: u64, now: u64) -> (r: u64)
    requires
        now < until,
    ensures
        r == wait_secs(until, now),
{
    let s: u64 = (until - now) / 1_000_000_000;
    if s < 1 {
        1
    } else {
        s
    }
}

/// The IPv4 address that an address stands for.
pub fn to_v4(a: Address) -> (r: Option<u32>)
    ensures
        r == v4_of(a),
{
    match a {
        Address::V4(x) => Some(x),
        Address::V6(x) => if x / 0x1_0000_0000 == 0xffff {
            Some((x % 0x1_0000_0000) as u32)
        } else {
            None
        },
    }
}

/// The network of an address.
pub open spec fn subnet_of(ip: u32) -> u32 {
    ip / 256
}

impl DosProtection {
    /// What is known of a network.
    pub closed spec fn subnet(&self, s: u32) -> SubnetRecord {
        if self.subnets@.dom().contains(s) {
            self.subnets@[s].record()
        } else {
            fresh_subnet()
        }
    }

    /// What is known of an address.
    pub closed spec fn ip(&self, ip: u32) -> IpRecord {
        if self.ips@.dom().contains(ip) {
            self.ips@[ip].record()
        } else {
            fresh_ip()
        }
    }

    /// The connections that are held in all.
    pub closed spec fn connections(&self) -> int {
        self.global_connections as int
    }

    /// Whether the limits are kept: the count of all connections is the sum over the
    /// addresses, and no count exceeds its limit.
    pub closed spec fn wf(&self) -> bool {
        &&& self.global_connections == total_active(self.ips@)
        &&& self.global_connections <= GLOBAL_CONNECTION_LIMIT
        &&& forall|k: u32|
            self.ips@.dom().contains(k) ==> (#[trigger] self.ips@[k]).active_connections
                <= IP_CONNECTION_LIMIT && self.ips@[k].requests@.len() <= IP_RATE_LIMIT
        &&& forall|k: u32|
            self.subnets@.dom().contains(k) ==> (#[trigger] self.subnets@[k]).requests@.len()
                <= SUBNET_RATE_LIMIT
    }

    /// Nothing is known of anyone.
    pub fn new() -> (r: Self)
        ensures
            r.wf(),
            r.connections() == 0,
            forall|s: u32| #[trigger] r.subnet(s) == fresh_subnet(),
            forall|ip: u32| #[trigger] r.ip(ip) == fresh_ip(),
    {
        let r = DosProtection {
            subnets: HashMap::new(),
            ips: HashMap::new(),
            global_connections: 0,
        };
        proof {
            assert(r.ips@.dom() =~= Set::empty());
            assert(r.ips@.dom().len() == 0);
        }
        r
    }

    /// Takes the record of an address out of the table.
    fn take_ip(&mut self, ipv4: u32) -> (r: IpState)
        ensures
            r.record() == old(self).ip(ipv4),
            final(self).ips@ == old(self).ips@.remove(ipv4),
            final(self).subnets == old(self).subnets,
            final(self).global_connections == old(self).global_connections,
    {
        match self.ips.remove(&ipv4) {
            Some(s) => {
                proof {
                    assert(self.ips@ =~= old(self).ips@.remove(ipv4));
                }
                s
            },
            None => {
                proof {
                    assert(self.ips@ =~= old(self).ips@.remove(ipv4));
                }
                IpState {
                    requests: VecDeque::new(),
                    violations: 0,
                    banned_until: None,
                    active_connections: 0,
                }
            },
        }
    }

    /// Grants a connection to an address, unless 15000 are held in all or 25 by it. An
    /// address that stands for no IPv4 address gets none.
    pub fn try_acquire_connection(&mut self, ip: Address) -> (r: Option<ConnectionGuard>)
        requires
            old(self).wf(),
        ensures
            final(self).wf(),
            forall|s: u32| #[trigger] final(self).subnet(s) == old(self).subnet(s),
            match v4_of(ip) {
                Some(v4) => {
                    &&& r is Some <==> old(self).connections() < GLOBAL_CONNECTION_LIMIT && old(
                        self,
                    ).ip(v4).active < IP_CONNECTION_LIMIT
                    &&& r is Some ==> r->0.ipv4 == v4
                    &&& final(self).connections() == old(self).connections() + (if r is Some {
                        1int
                    } else {
                        0
                    })
                    &&& final(self).ip(v4) == (IpRecord {
                        active: old(self).ip(v4).active + (if r is Some {
                            1int
                        } else {
                            0
                        }),
                        ..old(self).ip(v4)
                    })
                    &&& forall|other: u32|
                        other != v4 ==> #[trigger] final(self).ip(other) == old(self).ip(other)
                },
                None => r is None && *final(self) == *old(self),
            },
    {
        let ipv4 = match to_v4(ip) {
            Some(v) => v,
            None => {
                return None;
            },
        };
        if self.global_connections >= GLOBAL_CONNECTION_LIMIT {
            return None;
        }
        let ghost before = self.ips@;
        let mut state = self.take_ip(ipv4);
        let granted = state.active_connections < IP_CONNECTION_LIMIT;
        if granted {
            state.active_connections = state.active_connections + 1;
            self.global_connections = self.global_connections + 1;
        }
        let ghost held = state;
        self.ips.insert(ipv4, state);
        proof {
            assert(self.ips@ =~= before.insert(ipv4, held));
            lemma_total_insert(before, ipv4, held);
        }
        if granted {
            Some(ConnectionGuard { ipv4 })
        } else {
            None
        }
    }

    /// Gives a connection back.
    pub fn decrement_connection(&mut self, guard: ConnectionGuard)
        requires
            old(self).wf(),
            old(self).ip(guard.ipv4).active > 0,
        ensures
            final(self).wf(),
            final(self).connections() == old(self).connections() - 1,
            final(self).ip(guard.ipv4) == (IpRecord {
                active: old(self).ip(guard.ipv4).active - 1,
                ..old(self).ip(guard.ipv4)
            }),
            forall|other: u32|
                other != guard.ipv4 ==> #[trigger] final(self).ip(other) == old(self).ip(other),
            forall|s: u32| #[trigger] final(self).subnet(s) == old(self).subnet(s),
    {
        let ipv4: u32 = guard.ipv4;
        let ghost before = self.ips@;
        proof {
            lemma_total_at_least(before, ipv4);
        }
        let mut state = self.take_ip(ipv4);
        state.active_connections = state.active_connections - 1;
        self.global_connections = self.global_connections - 1;
        let ghost held = state;
        self.ips.insert(ipv4, state);
        proof {
            assert(self.ips@ =~= before.insert(ipv4, held));
            lemma_total_insert(before, ipv4, held);
        }
    }

    /// Counts a request against its network.
    fn check_subnet(&mut self, subnet: u32, now: u64) -> (r: Option<u64>)
        requires
            old(self).wf(),
            now + 604_800_000_000_000 <= u64::MAX,
        ensures
            final(self).wf(),
            (final(self).subnet(subnet), r) == subnet_step(old(self).subnet(subnet), now),
            forall|s: u32|
                s != subnet ==> #[trigger] final(self).subnet(s) == old(self).subnet(s),
            final(self).ips == old(self).ips,
            final(self).global_connections == old(self).global_connections,
    {
        let ghost before = self.subnets@;
        let mut state = match self.subnets.remove(&subnet) {
            Some(s) => s,
            None => SubnetState { requests: VecDeque::new(), banned_until: None },
        };
        proof {
            assert(self.subnets@ =~= before.remove(subnet));
            assert(state.record() == old(self).subnet(subnet));
        }
        let mut refused: Option<u64> = None;
        let mut banned = false;
        if let Some(until) = state.banned_until {
            if now < until {
                banned = true;
                refused = Some(seconds_until(until, now));
            }
        }
        if !banned {
            state.banned_until = None;
            note_request(&mut state.requests, now);
            if state.requests.len() > SUBNET_RATE_LIMIT {
                state.banned_until = Some(now + SUBNET_BAN_SECS * 1_000_000_000);
                state.requests.clear();
                refused = Some(SUBNET_BAN_SECS);
            }
        }
        let ghost held = state;
        self.subnets.insert(subnet, state);
        proof {
            assert(self.subnets@ =~= before.insert(subnet, held));
        }
        refused
    }

    /// Counts a request against its address.
    fn check_ip(&mut self, ipv4: u32, now: u64) -> (r: Option<u64>)
        requires
            old(self).wf(),
            now + 604_800_000_000_000 <= u64::MAX,
        ensures
            final(self).wf(),
            (final(self).ip(ipv4), r) == ip_step(old(self).ip(ipv4), now),
            forall|other: u32|
                other != ipv4 ==> #[trigger] final(self).ip(other) == old(self).ip(other),
            final(self).subnets == old(self).subnets,
            final(self).global_connections == old(self).global_connections,
    {
        let ghost before = self.ips@;
        let mut state = self.take_ip(ipv4);
        let mut refused: Option<u64> = None;
        let mut banned = false;
        if let Some(until) = state.banned_until {
            if now < until {
                banned = true;
                refused = Some(seconds_until(until, now));
            }
        }
        if !banned {
            state.banned_until = None;
            note_request(&mut state.requests, now);
            if state.requests.len() > IP_RATE_LIMIT {
                let secs = ban_time(state.violations);
                if state.violations < u64::MAX {
                    state.violations = state.violations + 1;
                }
                state.banned_until = Some(now + secs * 1_000_000_000);
                state.requests.clear();
                refused = Some(secs);
            }
        }
        let ghost held = state;
        self.ips.insert(ipv4, state);
        proof {
            assert(self.ips@ =~= before.insert(ipv4, held));
            lemma_total_insert(before, ipv4, held);
        }
        refused
    }

    /// Counts a request at time `now`. It is allowed, or refused with the seconds to wait:
    /// first by its network, then by its address. An address that stands for no IPv4
    /// address is refused for an hour.
    pub fn check_request(&mut self, ip: Address, now: u64) -> (r: Result<(), u64>)
        requires
            old(self).wf(),
            now + 604_800_000_000_000 <= u64::MAX,
        ensures
            final(self).wf(),
            final(self).connections() == old(self).connections(),
            match v4_of(ip) {
                None => r == Err::<(), u64>(3600) && *final(self) == *old(self),
                Some(v4) => {
                    let n = subnet_of(v4);
                    let (subnet, by_subnet) = subnet_step(old(self).subnet(n), now);
                    let (addr, by_ip) = ip_step(old(self).ip(v4), now);
                    &&& final(self).subnet(n) == subnet
                    &&& forall|s: u32|
                        s != n ==> #[trigger] final(self).subnet(s) == old(self).subnet(s)
                    &&& forall|other: u32|
                        other != v4 ==> #[trigger] final(self).ip(other) == old(self).ip(other)
                    &&& match by_subnet {
                        Some(secs) => r == Err::<(), u64>(secs) && final(self).ip(v4) == old(self).ip(
                            v4,
                        ),
                        None => final(self).ip(v4) == addr && r == (match by_ip {
                            Some(secs) => Err::<(), u64>(secs),
                            None => Ok::<(), u64>(()),
                        }),
                    }
                },
            },
    {
        let ipv4 = match to_v4(ip) {
            Some(v) => v,
            None => {
                return Err(3600);
            },
        };
        if let Some(secs) = self.check_subnet(ipv4 / 256, now) {
            return Err(secs);
        }
        let ghost counted = *self;
        let refused = self.check_ip(ipv4, now);
        proof {
            assert(counted.ip(ipv4) == old(self).ip(ipv4));
            assert forall|s: u32| #[trigger] self.subnet(s) == counted.subnet(s) by {}
            assert forall|other: u32| other != ipv4 implies #[trigger] self.ip(other) == old(
                self,
            ).ip(other) by {
                assert(counted.ip(other) == old(self).ip(other));
            }
        }
        match refused {
            Some(secs) => Err(secs),
            None => Ok(()),
        }
    }
}

/// The limits hold in every state: at most 15000 connections in all and 25 for each address,
/// and no more requests on record than may be made.
pub proof fn law_limits_hold(d: DosProtection, ip: u32)
    requires
        d.wf(),
    ensures
        0 <= d.connections() <= GLOBAL_CONNECTION_LIMIT,
        0 <= d.ip(ip).active <= IP_CONNECTION_LIMIT,
        d.ip(ip).active <= d.connections(),
        d.ip(ip).requests.len() <= IP_RATE_LIMIT,
        d.subnet(subnet_of(ip)).requests.len() <= SUBNET_RATE_LIMIT,
{
    lemma_total_not_negative(d.ips@);
    if d.ips@.dom().contains(ip) {
        lemma_total_at_least(d.ips@, ip);
    }
}

/// Whether times do not go back and none lies after `now`.
pub open spec fn in_time_order(requests: Seq<u64>, now: u64) -> bool {
    &&& forall|i: int, j: int| 0 <= i <= j < requests.len() ==> requests[i] <= requests[j]
    &&& forall|i: int| 0 <= i < requests.len() ==> requests[i] <= now
}

proof fn lemma_recent(requests: Seq<u64>, now: u64)
    requires
        in_time_order(requests, now),
    ensures
        in_time_order(recent(requests, now), now),
        forall|i: int|
            0 <= i < recent(requests, now).len() ==> now - #[trigger] recent(requests, now)[i]
                <= RATE_WINDOW,
    decreases requests.len(),
{
    if requests.len() > 0 && now - requests[0] > RATE_WINDOW {
        lemma_recent(requests.skip(1), now);
    } else {
        assert forall|i: int| 0 <= i < requests.len() implies now - #[trigger] requests[i]
            <= RATE_WINDOW by {
            assert(requests[0] <= requests[i]);
        }
    }
}

/// An allowed request is one of at most a hundred that its address made within the minute
/// before it, itself included, and the record of them stays in the order of time.
pub proof fn law_rate_is_limited(r: IpRecord, now: u64)
    requires
        in_time_order(r.requests, now),
        ip_step(r, now).1 is None,
    ensures
        ({
            let kept = ip_step(r, now).0.requests;
            &&& kept.len() <= IP_RATE_LIMIT
            &&& in_time_order(kept, now)
            &&& kept.last() == now
            &&& forall|i: int| 0 <= i < kept.len() ==> now - #[trigger] kept[i] <= RATE_WINDOW
        }),
{
    lemma_recent(r.requests, now);
}

/// As long as an address is shut out, every request of it is refused, its record stays as it
/// is, and the wait that is named is at least a second.
pub proof fn law_ban_holds_to_its_end(r: IpRecord, now: u64)
    requires
        r.banned_until is Some,
        now < r.banned_until->0,
    ensures
        ip_step(r, now).0 == r,
        ip_step(r, now).1 is Some,
        ip_step(r, now).1->0 >= 1,
{
}

/// Every further violation shuts an address out for at least as long as the one before.
pub proof fn law_bans_escalate(violations: int)
    ensures
        ban_secs(violations) <= ban_secs(violations + 1),
{
}

// ---------------------------------------------------------------------------
// Whole histories
// ---------------------------------------------------------------------------

/// How many of some times lie at most a minute before `now`.
pub open spec fn count_within(times: Seq<u64>, now: u64) -> nat
    decreases times.len(),
{
    if times.len() == 0 {
        0
    } else {
        count_within(times.drop_last(), now) + (if now - times.last() <= RATE_WINDOW {
            1nat
        } else {
            0
        })
    }
}

/// What the requests of an address come to: those that were allowed since the last violation,
/// how many violations there were, and until when it is shut out.
#[verifier::ext_equal]
pub struct History {
    pub counted: Seq<u64>,
    pub violations: nat,
    pub banned_until: Option<u64>,
}

/// What the requests of an address at some times come to. A violation is a request, made
/// while the address is not shut out, that would be the hundred and first to be allowed
/// within a minute.
pub open spec fn history(times: Seq<u64>) -> History
    decreases times.len(),
{
    if times.len() == 0 {
        History { counted: seq![], violations: 0, banned_until: None }
    } else {
        let h = history(times.drop_last());
        let now = times.last();
        if h.banned_until is Some && now < h.banned_until->0 {
            h
        } else if count_within(h.counted, now) + 1 > IP_RATE_LIMIT {
            History {
                counted: seq![],
                violations: h.violations + 1,
                banned_until: Some((now + ban_secs(h.violations as int) * 1_000_000_000) as u64),
            }
        } else {
            History { counted: h.counted.push(now), banned_until: None, ..h }
        }
    }
}

/// What the last of some requests is answered: it is allowed, or refused with the seconds to
/// wait. While the address is shut out these are the seconds left, and at a violation the
/// seconds for which it shuts the address out.
pub open spec fn verdict(times: Seq<u64>) -> Result<(), u64> {
    let h = history(times.drop_last());
    let now = times.last();
    if h.banned_until is Some && now < h.banned_until->0 {
        Err(wait_secs(h.banned_until->0, now))
    } else if count_within(h.counted, now) + 1 > IP_RATE_LIMIT {
        Err(ban_secs(h.violations as int))
    } else {
        Ok(())
    }
}

/// The records of a network and an address in it from which all of its requests come, after
/// requests at some times.
pub open spec fn records(times: Seq<u64>) -> (SubnetRecord, IpRecord)
    decreases times.len(),
{
    if times.len() == 0 {
        (fresh_subnet(), fresh_ip())
    } else {
        let (subnet, addr) = records(times.drop_last());
        let now = times.last();
        (
            subnet_step(subnet, now).0,
            if subnet_step(subnet, now).1 is None {
                ip_step(addr, now).0
            } else {
                addr
            },
        )
    }
}

/// What the records answer to the last of some requests.
pub open spec fn answered(times: Seq<u64>) -> Result<(), u64> {
    let (subnet, addr) = records(times.drop_last());
    let now = times.last();
    match subnet_step(subnet, now).1 {
        Some(secs) => Err(secs),
        None => match ip_step(addr, now).1 {
            Some(secs) => Err(secs),
            None => Ok(()),
        },
    }
}

/// Whether times do not go back, and can be counted on from by a week.
pub open spec fn is_timeline(times: Seq<u64>) -> bool {
    &&& forall|i: int, j: int| 0 <= i <= j < times.len() ==> times[i] <= times[j]
    &&& forall|i: int|
        0 <= i < times.len() ==> #[trigger] times[i] + 604_800_000_000_000 <= u64::MAX
}

/// Whether at most a thousand requests are made within any minute.
pub open spec fn is_modest(times: Seq<u64>) -> bool {
    forall|n: int|
        0 < n <= times.len() ==> count_within(#[trigger] times.take(n), times[n - 1])
            <= SUBNET_RATE_LIMIT
}

proof fn lemma_count_within(times: Seq<u64>, now: u64, k: int)
    requires
        0 <= k <= times.len(),
        forall|i: int| 0 <= i < k ==> now - #[trigger] times[i] > RATE_WINDOW,
        forall|i: int| k <= i < times.len() ==> now - #[trigger] times[i] <= RATE_WINDOW,
    ensures
        count_within(times, now) == times.len() - k,
    decreases times.len(),
{
    if times.len() > 0 {
        let front = times.drop_last();
        assert forall|i: int| 0 <= i < front.len() implies #[trigger] front[i] == times[i] by {}
        if k == times.len() {
            lemma_count_within(front, now, k - 1);
        } else {
            lemma_count_within(front, now, k);
        }
    }
}

/// Whether `part` is what is left of some times where those at the front that lie more than a
/// minute before `now` are left out, or some of them.
spec fn is_recent_part(all: Seq<u64>, part: Seq<u64>, now: u64) -> bool {
    exists|k: int|
        0 <= k <= all.len() && part == #[trigger] all.skip(k) && forall|i: int|
            0 <= i < k ==> now - #[trigger] all[i] > RATE_WINDOW
}

proof fn lemma_recent_skips(part: Seq<u64>, now: u64) -> (k: int)
    ensures
        0 <= k <= part.len(),
        recent(part, now) == part.skip(k),
        forall|i: int| 0 <= i < k ==> now - #[trigger] part[i] > RATE_WINDOW,
    decreases part.len(),
{
    if part.len() > 0 && now - part[0] > RATE_WINDOW {
        let k = lemma_recent_skips(part.skip(1), now);
        assert(part.skip(1).skip(k) =~= part.skip(k + 1));
        assert forall|i: int| 0 <= i < k + 1 implies now - #[trigger] part[i] > RATE_WINDOW by {
            if i > 0 {
                assert(part.skip(1)[i - 1] == part[i]);
            }
        }
        k + 1
    } else {
        assert(part.skip(0) =~= part);
        0
    }
}

proof fn lemma_recent_part(all: Seq<u64>, part: Seq<u64>, before: u64, now: u64)
    requires
        in_time_order(all, before),
        before <= now,
        is_recent_part(all, part, before),
    ensures
        is_recent_part(all, recent(part, now), now),
        recent(part, now).len() == count_within(all, now),
{
    let k = choose|k: int|
        0 <= k <= all.len() && part == #[trigger] all.skip(k) && forall|i: int|
            0 <= i < k ==> before - #[trigger] all[i] > RATE_WINDOW;
    let more = lemma_recent_skips(part, now);
    assert(in_time_order(part, now)) by {
        assert forall|i: int, j: int| 0 <= i <= j < part.len() implies part[i] <= part[j] by {
            assert(all[i + k] <= all[j + k]);
        }
        assert forall|i: int| 0 <= i < part.len() implies part[i] <= now by {
            assert(all[i + k] <= before);
        }
    }
    lemma_recent(part, now);
    let n = k + more;
    assert(part.skip(more) =~= all.skip(n));
    assert forall|i: int| 0 <= i < n implies now - #[trigger] all[i] > RATE_WINDOW by {
        if i >= k {
            assert(part[i - k] == all[i]);
        }
    }
    assert forall|i: int| n <= i < all.len() implies now - #[trigger] all[i] <= RATE_WINDOW by {
        assert(recent(part, now)[i - n] == all[i]);
    }
    lemma_count_within(all, now, n);
}

proof fn lemma_push_recent(all: Seq<u64>, part: Seq<u64>, now: u64)
    requires
        in_time_order(all, now),
        is_recent_part(all, part, now),
    ensures
        in_time_order(all.push(now), now),
        is_recent_part(all.push(now), part.push(now), now),
{
    let k = choose|k: int|
        0 <= k <= all.len() && part == #[trigger] all.skip(k) && forall|i: int|
            0 <= i < k ==> now - #[trigger] all[i] > RATE_WINDOW;
    let longer = all.push(now);
    assert(longer.skip(k) =~= part.push(now));
    assert forall|i: int| 0 <= i < k implies now - #[trigger] longer[i] > RATE_WINDOW by {
        assert(longer[i] == all[i]);
    }
}

/// What the records hold of a history, the last request of which was made at `last`.
spec fn records_match(times: Seq<u64>, last: u64) -> bool {
    let (subnet, addr) = records(times);
    let h = history(times);
    &&& subnet.banned_until is None
    &&& in_time_order(times, last)
    &&& is_recent_part(times, subnet.requests, last)
    &&& in_time_order(h.counted, last)
    &&& is_recent_part(h.counted, addr.requests, last)
    &&& addr.violations == h.violations
    &&& addr.banned_until == h.banned_until
    &&& h.violations <= times.len()
}

proof fn lemma_records_match(times: Seq<u64>, last: u64)
    requires
        is_timeline(times),
        is_modest(times),
        times.len() < u64::MAX,
        times.len() > 0 ==> last == times.last(),
    ensures
        records_match(times, last),
    decreases times.len(),
{
    if times.len() == 0 {
        assert(times.skip(0) =~= Seq::<u64>::empty());
        assert(history(times).counted.skip(0) =~= Seq::<u64>::empty());
    } else {
        let front = times.drop_last();
        let now = times.last();
        let before = if front.len() > 0 {
            front.last()
        } else {
            now
        };
        lemma_front(times);
        lemma_records_match(front, before);
        let (subnet, addr) = records(front);
        let h = history(front);
        assert(before <= now) by {
            if front.len() > 0 {
                assert(times[front.len() - 1] <= times[front.len() as int]);
            }
        }
        assert(times =~= front.push(now));
        lemma_recent_part(front, subnet.requests, before, now);
        assert(in_time_order(front, now));
        lemma_push_recent(front, recent(subnet.requests, now), now);
        assert(count_within(times, now) == count_within(front, now) + 1);
        assert(times.take(times.len() as int) =~= times);
        assert(count_within(times.take(times.len() as int), times[times.len() - 1])
            <= SUBNET_RATE_LIMIT);
        assert(subnet_step(subnet, now).1 is None);
        lemma_recent_part(h.counted, addr.requests, before, now);
        if !(h.banned_until is Some && now < h.banned_until->0) {
            if count_within(h.counted, now) + 1 > IP_RATE_LIMIT {
                assert(history(times).counted.skip(0) =~= Seq::<u64>::empty());
                assert(records(times).1.requests =~= Seq::<u64>::empty());
            } else {
                assert(in_time_order(h.counted, now));
                lemma_push_recent(h.counted, recent(addr.requests, now), now);
            }
        } else {
            lemma_still_recent(h.counted, addr.requests, before, now);
        }
    }
}

proof fn lemma_still_recent(all: Seq<u64>, part: Seq<u64>, before: u64, now: u64)
    requires
        is_recent_part(all, part, before),
        before <= now,
    ensures
        is_recent_part(all, part, now),
{
    let k = choose|k: int|
        0 <= k <= all.len() && part == #[trigger] all.skip(k) && forall|i: int|
            0 <= i < k ==> before - #[trigger] all[i] > RATE_WINDOW;
    assert(part == all.skip(k));
}

proof fn lemma_front(times: Seq<u64>)
    requires
        is_timeline(times),
        is_modest(times),
        times.len() > 0,
    ensures
        is_timeline(times.drop_last()),
        is_modest(times.drop_last()),
{
    let front = times.drop_last();
    assert forall|i: int| 0 <= i < front.len() implies #[trigger] front[i] + 604_800_000_000_000
        <= u64::MAX by {
        assert(times[i] + 604_800_000_000_000 <= u64::MAX);
    }
    assert forall|n: int| 0 < n <= front.len() implies count_within(
        #[trigger] front.take(n),
        front[n - 1],
    ) <= SUBNET_RATE_LIMIT by {
        assert(front.take(n) =~= times.take(n));
        assert(count_within(times.take(n), times[n - 1]) <= SUBNET_RATE_LIMIT);
    }
}

/// Over the whole history of an address from which all the requests of its network come, at
/// most a thousand of them within any minute: every request is allowed that is neither a
/// violation nor made while the address is shut out; the first violations shut it out for a
/// minute, five minutes, an hour and a day, and every further one for a week; and while it is
/// shut out, a request is answered with the seconds left, at least one.
pub proof fn law_history_is_judged(times: Seq<u64>)
    requires
        is_timeline(times),
        is_modest(times),
        0 < times.len() < u64::MAX,
    ensures
        answered(times) == verdict(times),
        verdict(times) matches Err(secs) ==> secs >= 1,
{
    let front = times.drop_last();
    let now = times.last();
    let before = if front.len() > 0 {
        front.last()
    } else {
        now
    };
    lemma_front(times);
    lemma_records_match(front, before);
    lemma_records_match(times, now);
    let (subnet, addr) = records(front);
    let h = history(front);
    assert(before <= now) by {
        if front.len() > 0 {
            assert(times[front.len() - 1] <= times[front.len() as int]);
        }
    }
    lemma_recent_part(h.counted, addr.requests, before, now);
    assert(records(times).0 == subnet_step(subnet, now).0);
    assert(subnet_step(subnet, now).1 is None);
}

} // verus!
