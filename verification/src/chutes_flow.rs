//! A call to Chutes from its first step to its last: what to do next, after each event.

use vstd::prelude::*;

use crate::chutes::drawn;
use crate::chutes::facts_of;
use crate::chutes::ChutesInstanceInfo;
use crate::chutes::InstanceFacts;
use crate::chutes_call::attested_at;
use crate::chutes_call::cached_chute_id;
use crate::chutes_call::draw_nonce;
use crate::chutes_call::evidence_outcome;
use crate::chutes_call::is_retryable;
use crate::chutes_call::is_success;
use crate::chutes_call::is_trusted;
use crate::chutes_call::judge_status;
use crate::chutes_call::law_only_attested_instances_are_named;
use crate::chutes_call::law_trust_lasts_an_hour;
use crate::chutes_call::names_of;
use crate::chutes_call::note_verified;
use crate::chutes_call::ordered_by;
use crate::chutes_call::refill_and_draw;
use crate::chutes_call::remember_chute_id;
use crate::chutes_call::shuffle_instances;
use crate::chutes_call::sifted;
use crate::chutes_call::trusted;
use crate::chutes_call::untrusted_instance;
use crate::chutes_call::unverified_instances;
use crate::chutes_call::verified_instances;
use crate::chutes_call::with_trusted;
use crate::chutes_call::Attempt;
use crate::chutes_call::Findings;
use crate::chutes_call::Tries;
use crate::chutes_call::MAX_TRIES;
use crate::json::JsonValue;
use crate::order::by_key;
use crate::order::is_stable_order;
use crate::state::ChutesState;
use crate::state::DynamicModelInfo;
use crate::table;
use crate::table::entries;
use crate::table::entry_of;
use crate::table::with_entry;
use crate::text;
use crate::text::views;

verus! {

// ---------------------------------------------------------------------------
// What a call knows, and what it does next
// ---------------------------------------------------------------------------

/// A call that is under way.
pub struct ChutesCall {
    /// The model's name at the provider.
    pub upstream_model_name: String,
    pub price_input_1m: u64,
    pub price_output_1m: u64,
    /// When the call began, in seconds since 1970: trust is judged by this time.
    pub began: u64,
    /// The chute that serves the model, once it is known.
    pub chute_id: String,
    pub tries: Tries,
    /// The instances that were fetched last, and until when their nonces are good.
    pub fetched: Vec<ChutesInstanceInfo>,
    pub expires_at: u64,
}

/// What a call knows.
#[verifier::ext_equal]
pub struct CallFacts {
    pub upstream: Seq<char>,
    pub price_input: u64,
    pub price_output: u64,
    pub began: u64,
    pub chute: Seq<char>,
    pub count: u8,
    pub last: Seq<char>,
    pub fetched: Seq<InstanceFacts>,
    pub expires: u64,
}

impl ChutesCall {
    /// What the call knows.
    pub open spec fn view(&self) -> CallFacts {
        CallFacts {
            upstream: self.upstream_model_name@,
            price_input: self.price_input_1m,
            price_output: self.price_output_1m,
            began: self.began,
            chute: self.chute_id@,
            count: self.tries.count,
            last: self.tries.last_error@,
            fetched: facts_of(self.fetched@),
            expires: self.expires_at,
        }
    }
}

/// What is remembered from call to call: the chutes of models, the trusted instances, and
/// the pools of nonces.
#[verifier::ext_equal]
pub struct Memory {
    pub chutes: Seq<(Seq<char>, (Seq<char>, u64))>,
    pub known: Seq<(Seq<char>, u64)>,
    pub pools: Seq<(Seq<char>, (Seq<InstanceFacts>, u64))>,
}

/// What is remembered.
pub open spec fn memory_of(s: ChutesState) -> Memory {
    Memory {
        chutes: entries(s.chute_id_cache@),
        known: entries(s.verified_instances@),
        pools: entries(s.nonce_pools@),
    }
}

/// What to do next.
pub enum ChutesAction {
    /// Ask which chute serves the model.
    Resolve,
    /// Ask for the instances of the chute.
    Fetch,
    /// Have the evidence of these instances checked.
    Attest(Vec<ChutesInstanceInfo>),
    /// Send the sealed request to this instance, with this nonce.
    Invoke(ChutesInstanceInfo, String),
    /// The answer is there: read it.
    Finish,
    /// The call has failed, for this reason.
    Fail(String),
    /// The trusted instances came without a nonce that is still good.
    Stuck,
}

/// What to do next.
pub enum Next {
    Resolve,
    Fetch,
    Attest(Seq<InstanceFacts>),
    Invoke(InstanceFacts, Seq<char>),
    Finish,
    Fail(Seq<char>),
    Stuck,
}

impl ChutesAction {
    /// What the action says.
    pub open spec fn view(&self) -> Next {
        match *self {
            ChutesAction::Resolve => Next::Resolve,
            ChutesAction::Fetch => Next::Fetch,
            ChutesAction::Attest(v) => Next::Attest(facts_of(v@)),
            ChutesAction::Invoke(i, n) => Next::Invoke(i.deep_view(), n@),
            ChutesAction::Finish => Next::Finish,
            ChutesAction::Fail(e) => Next::Fail(e@),
            ChutesAction::Stuck => Next::Stuck,
        }
    }
}

/// What came back from an instance.
pub enum Reply {
    /// Nothing, for this reason.
    Nothing(String),
    /// A status, the status as it is shown, and, where it means no success, a text.
    Status(u16, String, String),
}

// ---------------------------------------------------------------------------
// What follows from what
// ---------------------------------------------------------------------------

/// What is noted of an instance that is not trusted.
pub open spec fn distrust(id: Seq<char>) -> Seq<char> {
    "FATAL: Instance "@ + id + " has no valid TEE attestation."@
}

/// Goes on to the next try: spends a nonce of the chute's pool on a trusted instance, or asks
/// for instances where the pool gives none. A nonce of an instance that is not trusted is
/// lost, and so is the try.
pub open spec fn go_on(c: CallFacts, m: Memory, clock: u64) -> (CallFacts, Memory, Next)
    decreases MAX_TRIES - c.count,
{
    if c.count >= MAX_TRIES {
        (c, m, Next::Fail("All instances failed. Last error: "@ + c.last))
    } else {
        let begun = CallFacts { count: (c.count + 1) as u8, ..c };
        match entry_of(m.pools, c.chute) {
            None => (begun, m, Next::Fetch),
            Some(pool) => {
                let after = Memory { pools: with_entry(m.pools, c.chute, drawn(pool, clock).1), ..m };
                match drawn(pool, clock).0 {
                    None => (begun, after, Next::Fetch),
                    Some(d) => if trusted(m.known, d.0.id, c.began) {
                        (begun, after, Next::Invoke(d.0, d.1))
                    } else {
                        go_on(CallFacts { last: distrust(d.0.id), ..begun }, after, clock)
                    },
                }
            },
        }
    }
}

/// What follows once it is known what the trusted instances are, in the order `out` that was
/// drawn for them: they make the chute's new pool, and one nonce of it is spent.
pub open spec fn settled(
    c: CallFacts,
    m: Memory,
    out: Seq<InstanceFacts>,
    clock: u64,
) -> (CallFacts, Memory, Next) {
    if out.len() == 0 {
        (c, m, Next::Fail("FATAL: No instances were successfully verified. Aborting."@))
    } else {
        let pool = (out, c.expires);
        let after = Memory { pools: with_entry(m.pools, c.chute, drawn(pool, clock).1), ..m };
        match drawn(pool, clock).0 {
            None => (c, after, Next::Stuck),
            Some(d) => if trusted(m.known, d.0.id, c.began) {
                (c, after, Next::Invoke(d.0, d.1))
            } else {
                go_on(CallFacts { last: distrust(d.0.id), ..c }, after, clock)
            },
        }
    }
}

/// Whether a step is what follows for some order of the trusted instances, by keys.
pub open spec fn settles(
    c: CallFacts,
    m: Memory,
    keys: Seq<u32>,
    clock: u64,
    step: (CallFacts, Memory, Next),
) -> bool {
    let kept = sifted(c.fetched, m.known, c.began, true);
    exists|out: Seq<InstanceFacts>|
        #![trigger settled(c, m, out, clock)]
        ordered_by(out, kept, keys.take(kept.len() as int)) && step == settled(c, m, out, clock)
}

/// What is remembered once some instances have been attested, or their evidence could not be
/// had.
pub open spec fn attested(c: CallFacts, m: Memory, found: Result<Seq<Seq<char>>, Seq<char>>) -> Memory {
    match found {
        Ok(ids) => Memory { known: with_trusted(m.known, ids, (c.began + 3600) as u64), ..m },
        Err(_) => m,
    }
}

/// What follows from an instance's reply.
pub open spec fn after_reply(c: CallFacts, m: Memory, reply: Reply, clock: u64) -> (
    CallFacts,
    Memory,
    Next,
) {
    match reply {
        Reply::Nothing(e) => go_on(
            CallFacts { last: "Chutes E2EE network error: "@ + e@, ..c },
            m,
            clock,
        ),
        Reply::Status(status, shown, body) => {
            let noted = CallFacts { last: shown@ + " - "@ + body@, ..c };
            if is_success(status) {
                (c, m, Next::Finish)
            } else if is_retryable(status) {
                go_on(noted, m, clock)
            } else {
                (noted, m, Next::Fail(noted.last))
            }
        },
    }
}

// ---------------------------------------------------------------------------
// The steps
// ---------------------------------------------------------------------------

/// Begins a call: looks up the model and, if it is still remembered, the chute that serves it.
pub fn begin_call(
    models: &Vec<(String, DynamicModelInfo)>,
    requested_model: &str,
    state: &mut ChutesState,
    now: u64,
) -> (r: Result<(ChutesCall, ChutesAction), String>)
    ensures
        match entry_of(entries(models@), requested_model@) {
            None => r is Err && r->Err_0@ == "Model "@ + requested_model@ + " not configured"@
                && memory_of(*final(state)) == memory_of(*old(state)),
            Some(facts) => {
                let m = memory_of(*old(state));
                let fresh = CallFacts {
                    upstream: facts.upstream,
                    price_input: facts.price_input,
                    price_output: facts.price_output,
                    began: now,
                    chute: ""@,
                    count: 0,
                    last: ""@,
                    fetched: seq![],
                    expires: 0,
                };
                r is Ok && ((r->Ok_0).0@, memory_of(*final(state)), (r->Ok_0).1@) == (match entry_of(
                    m.chutes,
                    facts.upstream,
                ) {
                    Some(e) => if now < e.1 {
                        go_on(CallFacts { chute: e.0, ..fresh }, m, now)
                    } else {
                        (fresh, m, Next::Resolve)
                    },
                    None => (fresh, m, Next::Resolve),
                })
            },
        },
{
    let info = match table::lookup(models, requested_model) {
        Some(i) => i,
        None => {
            return Err(text::cat3("Model ", requested_model, " not configured"));
        },
    };
    let upstream = info.upstream_model_name.clone();
    let chute = cached_chute_id(&state.chute_id_cache, upstream.as_str(), now);
    let mut call = ChutesCall {
        upstream_model_name: upstream,
        price_input_1m: info.price_input_1m,
        price_output_1m: info.price_output_1m,
        began: now,
        chute_id: "".to_string(),
        tries: Tries::new(),
        fetched: Vec::new(),
        expires_at: 0,
    };
    proof {
        assert(facts_of(call.fetched@) =~= seq![]);
    }
    match chute {
        Some(id) => {
            call.chute_id = id;
            let action = call.next(state, now);
            Ok((call, action))
        },
        None => Ok((call, ChutesAction::Resolve)),
    }
}

impl ChutesCall {
    /// Goes on to the next try.
    fn next(&mut self, state: &mut ChutesState, clock: u64) -> (r: ChutesAction)
        ensures
            (final(self)@, memory_of(*final(state)), r@) == go_on(
                old(self)@,
                memory_of(*old(state)),
                clock,
            ),
    {
        let ghost c0 = self@;
        let ghost m0 = memory_of(*state);
        loop
            invariant
                c0 == old(self)@,
                m0 == memory_of(*old(state)),
                go_on(self@, memory_of(*state), clock) == go_on(c0, m0, clock),
            decreases MAX_TRIES - self.tries.count,
        {
            let ghost c = self@;
            let ghost m = memory_of(*state);
            if !self.tries.begin() {
                return ChutesAction::Fail(self.tries.exhausted());
            }
            let ghost begun = CallFacts { count: (c.count + 1) as u8, ..c };
            proof {
                assert(self@ =~= begun);
            }
            match draw_nonce(&mut state.nonce_pools, self.chute_id.as_str(), clock) {
                None => {
                    proof {
                        assert(memory_of(*state) =~= go_on(c, m, clock).1);
                    }
                    return ChutesAction::Fetch;
                },
                Some(d) => {
                    let (instance, nonce) = d;
                    if is_trusted(
                        &state.verified_instances,
                        instance.instance_id.as_str(),
                        self.began,
                    ) {
                        proof {
                            assert(memory_of(*state) =~= go_on(c, m, clock).1);
                        }
                        return ChutesAction::Invoke(instance, nonce);
                    }
                    let note = untrusted_instance(instance.instance_id.as_str());
                    self.tries.failed(note);
                    proof {
                        assert(self@ =~= (CallFacts { last: note@, ..begun }));
                    }
                },
            }
        }
    }

    /// It has been asked which chute serves the model.
    pub fn on_resolved(
        &mut self,
        state: &mut ChutesState,
        found: Result<String, String>,
        clock: u64,
    ) -> (r: ChutesAction)
        requires
            old(self).began + 300 <= u64::MAX,
        ensures
            (final(self)@, memory_of(*final(state)), r@) == (match found {
                Ok(id) => go_on(
                    CallFacts { chute: id@, ..old(self)@ },
                    Memory {
                        chutes: with_entry(
                            memory_of(*old(state)).chutes,
                            old(self)@.upstream,
                            (id@, (old(self).began + 300) as u64),
                        ),
                        ..memory_of(*old(state))
                    },
                    clock,
                ),
                Err(e) => (old(self)@, memory_of(*old(state)), Next::Fail(e@)),
            }),
    {
        match found {
            Ok(id) => {
                let ghost c = CallFacts { chute: id@, ..self@ };
                remember_chute_id(
                    &mut state.chute_id_cache,
                    self.upstream_model_name.as_str(),
                    id.as_str(),
                    self.began,
                );
                self.chute_id = id;
                proof {
                    assert(self@ =~= c);
                }
                self.next(state, clock)
            },
            Err(e) => ChutesAction::Fail(e),
        }
    }

    /// Makes a pool of the trusted instances, in the order of keys that were drawn for them,
    /// and spends a nonce of it.
    fn settle(&mut self, state: &mut ChutesState, keys: &Vec<u32>, clock: u64) -> (r: ChutesAction)
        requires
            keys@.len() >= old(self).fetched@.len(),
        ensures
            settles(
                old(self)@,
                memory_of(*old(state)),
                keys@,
                clock,
                (final(self)@, memory_of(*final(state)), r@),
            ),
    {
        let ghost c = self@;
        let ghost m = memory_of(*state);
        let ghost kept_facts = sifted(c.fetched, m.known, c.began, true);
        proof {
            lemma_sifted_len(c.fetched, m.known, c.began, true);
        }
        let kept = match verified_instances(&self.fetched, &state.verified_instances, self.began) {
            Ok(v) => v,
            Err(e) => {
                proof {
                    let out = Seq::<InstanceFacts>::empty();
                    assert(keys@.take(0) =~= seq![]);
                    let p = Seq::<usize>::empty();
                    assert(is_stable_order(p, 0, by_key(keys@.take(0))));
                    assert(ordered_by(out, kept_facts, keys@.take(0)));
                    assert((self@, memory_of(*state), Next::Fail(e@)) == settled(c, m, out, clock));
                }
                return ChutesAction::Fail(e);
            },
        };
        let ghost n = kept@.len();
        proof {
            assert(facts_of(kept@).len() == kept@.len());
        }
        let chosen = first_keys(keys, kept.len());
        let arranged = shuffle_instances(&kept, &chosen);
        let ghost out = facts_of(arranged@);
        proof {
            assert(ordered_by(out, kept_facts, keys@.take(kept_facts.len() as int)));
        }
        let drawn_pair = refill_and_draw(
            &mut state.nonce_pools,
            self.chute_id.as_str(),
            arranged,
            self.expires_at,
            clock,
        );
        let ghost after = Memory {
            pools: with_entry(m.pools, c.chute, drawn((out, c.expires), clock).1),
            ..m
        };
        proof {
            assert(memory_of(*state) =~= after);
        }
        match drawn_pair {
            None => {
                proof {
                    assert((self@, memory_of(*state), Next::Stuck) == settled(c, m, out, clock));
                }
                ChutesAction::Stuck
            },
            Some(d) => {
                let (instance, nonce) = d;
                if is_trusted(
                    &state.verified_instances,
                    instance.instance_id.as_str(),
                    self.began,
                ) {
                    proof {
                        assert((
                            self@,
                            memory_of(*state),
                            Next::Invoke(instance.deep_view(), nonce@),
                        ) == settled(c, m, out, clock));
                    }
                    return ChutesAction::Invoke(instance, nonce);
                }
                let note = untrusted_instance(instance.instance_id.as_str());
                self.tries.failed(note);
                proof {
                    assert(self@ =~= (CallFacts { last: note@, ..c }));
                }
                let action = self.next(state, clock);
                proof {
                    assert((self@, memory_of(*state), action@) == settled(c, m, out, clock));
                }
                action
            },
        }
    }

    /// The instances of the chute have been asked for. `keys` holds a number that was drawn
    /// for each of them.
    pub fn on_fetched(
        &mut self,
        state: &mut ChutesState,
        found: Result<(Vec<ChutesInstanceInfo>, u64), String>,
        keys: &Vec<u32>,
        clock: u64,
    ) -> (r: ChutesAction)
        requires
            found matches Ok(f) ==> keys@.len() >= f.0@.len(),
        ensures
            match found {
                Err(e) => (final(self)@, memory_of(*final(state)), r@) == (
                    old(self)@,
                    memory_of(*old(state)),
                    Next::Fail(e@),
                ),
                Ok(f) => {
                    let c = CallFacts { fetched: facts_of(f.0@), expires: f.1, ..old(self)@ };
                    let m = memory_of(*old(state));
                    let pending = sifted(c.fetched, m.known, c.began, false);
                    if pending.len() > 0 {
                        (final(self)@, memory_of(*final(state)), r@) == (c, m, Next::Attest(pending))
                    } else {
                        settles(c, m, keys@, clock, (final(self)@, memory_of(*final(state)), r@))
                    }
                },
            },
    {
        match found {
            Err(e) => ChutesAction::Fail(e),
            Ok(f) => {
                let (instances, expires_at) = f;
                let pending = unverified_instances(
                    &instances,
                    &state.verified_instances,
                    self.began,
                );
                self.fetched = instances;
                self.expires_at = expires_at;
                proof {
                    assert(facts_of(pending@).len() == pending@.len());
                }
                if pending.len() > 0 {
                    ChutesAction::Attest(pending)
                } else {
                    self.settle(state, keys, clock)
                }
            },
        }
    }

    /// The evidence of the instances that were not trusted has been checked: those that are
    /// named are trusted for an hour. That the evidence could not be had changes nothing.
    pub fn on_attested(
        &mut self,
        state: &mut ChutesState,
        found: Result<Vec<String>, String>,
        keys: &Vec<u32>,
        clock: u64,
    ) -> (r: ChutesAction)
        requires
            old(self).began + 3600 <= u64::MAX,
            keys@.len() >= old(self).fetched@.len(),
        ensures
            settles(
                old(self)@,
                attested(
                    old(self)@,
                    memory_of(*old(state)),
                    match found {
                        Ok(ids) => Ok(views(ids@)),
                        Err(e) => Err(e@),
                    },
                ),
                keys@,
                clock,
                (final(self)@, memory_of(*final(state)), r@),
            ),
    {
        if let Ok(ids) = &found {
            note_verified(&mut state.verified_instances, ids, self.began);
        }
        self.settle(state, keys, clock)
    }

    /// The request has been sent to an instance.
    pub fn on_reply(&mut self, state: &mut ChutesState, reply: Reply, clock: u64) -> (r: ChutesAction)
        ensures
            (final(self)@, memory_of(*final(state)), r@) == after_reply(
                old(self)@,
                memory_of(*old(state)),
                reply,
                clock,
            ),
    {
        match reply {
            Reply::Nothing(e) => {
                let note = text::cat2("Chutes E2EE network error: ", e.as_str());
                let ghost c = CallFacts { last: note@, ..self@ };
                self.tries.failed(note);
                proof {
                    assert(self@ =~= c);
                }
                self.next(state, clock)
            },
            Reply::Status(status, shown, body) => match judge_status(
                status,
                shown.as_str(),
                body.as_str(),
            ) {
                Attempt::Answered => ChutesAction::Finish,
                Attempt::Retry(e) => {
                    let ghost c = CallFacts { last: e@, ..self@ };
                    self.tries.failed(e);
                    proof {
                        assert(self@ =~= c);
                    }
                    self.next(state, clock)
                },
                Attempt::GiveUp(e) => {
                    let ghost c = CallFacts { last: e@, ..self@ };
                    self.tries.failed(e.clone());
                    proof {
                        assert(self@ =~= c);
                    }
                    ChutesAction::Fail(e)
                },
            },
        }
    }
}

/// The first of some keys.
fn first_keys(keys: &Vec<u32>, n: usize) -> (r: Vec<u32>)
    requires
        n <= keys@.len(),
    ensures
        r@ == keys@.take(n as int),
{
    let mut out: Vec<u32> = Vec::new();
    let mut i: usize = 0;
    while i < n
        invariant
            i <= n <= keys@.len(),
            out@ == keys@.take(i as int),
        decreases n - i,
    {
        proof {
            assert(keys@.take(i + 1) =~= keys@.take(i as int).push(keys@[i as int]));
        }
        out.push(keys[i]);
        i = i + 1;
    }
    out
}

proof fn lemma_sifted_len(
    v: Seq<InstanceFacts>,
    known: Seq<(Seq<char>, u64)>,
    now: u64,
    wanted: bool,
)
    ensures
        sifted(v, known, now, wanted).len() <= v.len(),
    decreases v.len(),
{
    if v.len() > 0 {
        lemma_sifted_len(v.drop_last(), known, now, wanted);
    }
}

// ---------------------------------------------------------------------------
// Laws
// ---------------------------------------------------------------------------

/// What goes out to an instance goes to one that is trusted, and there are at most five tries.
pub open spec fn is_careful(c: CallFacts, m: Memory, step: (CallFacts, Memory, Next)) -> bool {
    &&& step.0.count <= MAX_TRIES
    &&& c.count <= step.0.count
    &&& step.0.began == c.began
    &&& step.1.known == m.known
    &&& step.2 matches Next::Invoke(i, _) ==> trusted(m.known, i.id, c.began)
}

/// An instance comes to be trusted only where it was among those whose evidence was checked,
/// and every one of those was attested; and it is trusted for an hour.
pub proof fn law_trust_comes_from_evidence(
    c: CallFacts,
    m: Memory,
    evidence: Seq<JsonValue>,
    v: Seq<InstanceFacts>,
    nonce: Seq<u8>,
    found: Seq<Findings>,
    id: Seq<char>,
    later: u64,
)
    requires
        c.began + 3600 <= u64::MAX,
    ensures
        ({
            let after = attested(c, m, evidence_outcome(evidence, v, nonce, found));
            trusted(after.known, id, later) && !trusted(m.known, id, later) ==> {
                &&& names_of(v).contains(id)
                &&& later < c.began + 3600
                &&& forall|i: int|
                    0 <= i < v.len() ==> #[trigger] attested_at(evidence, v, nonce, found, i)
            }
        }),
{
    law_only_attested_instances_are_named(evidence, v, nonce, found);
    law_trust_lasts_an_hour(m.known, names_of(v), (c.began + 3600) as u64, id, later);
}

/// However a call goes on to its next try, the request goes only to an instance that is
/// trusted, and there are at most five tries.
pub proof fn law_next_try_is_careful(c: CallFacts, m: Memory, clock: u64)
    requires
        c.count <= MAX_TRIES,
    ensures
        is_careful(c, m, go_on(c, m, clock)),
        go_on(c, m, clock).2 is Invoke ==> go_on(c, m, clock).0.count > c.count,
        go_on(c, m, clock).2 is Fetch ==> go_on(c, m, clock).0.count > c.count,
    decreases MAX_TRIES - c.count,
{
    if c.count < MAX_TRIES {
        let begun = CallFacts { count: (c.count + 1) as u8, ..c };
        if let Some(pool) = entry_of(m.pools, c.chute) {
            let after = Memory { pools: with_entry(m.pools, c.chute, drawn(pool, clock).1), ..m };
            if let Some(d) = drawn(pool, clock).0 {
                if !trusted(m.known, d.0.id, c.began) {
                    law_next_try_is_careful(
                        CallFacts { last: distrust(d.0.id), ..begun },
                        after,
                        clock,
                    );
                }
            }
        }
    }
}

/// Once instances have been fetched and attested, the request goes only to an instance that is
/// trusted, and there are at most five tries.
pub proof fn law_fetched_instances_are_used_carefully(
    c: CallFacts,
    m: Memory,
    keys: Seq<u32>,
    clock: u64,
    step: (CallFacts, Memory, Next),
)
    requires
        c.count <= MAX_TRIES,
        settles(c, m, keys, clock, step),
    ensures
        is_careful(c, m, step),
{
    let kept = sifted(c.fetched, m.known, c.began, true);
    let out = choose|out: Seq<InstanceFacts>|
        #![trigger settled(c, m, out, clock)]
        ordered_by(out, kept, keys.take(kept.len() as int)) && step == settled(c, m, out, clock);
    if out.len() > 0 {
        let pool = (out, c.expires);
        let after = Memory { pools: with_entry(m.pools, c.chute, drawn(pool, clock).1), ..m };
        if let Some(d) = drawn(pool, clock).0 {
            if !trusted(m.known, d.0.id, c.began) {
                law_next_try_is_careful(CallFacts { last: distrust(d.0.id), ..c }, after, clock);
            }
        }
    }
}

} // verus!
