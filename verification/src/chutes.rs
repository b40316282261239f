//! Instances of Chutes: finding them, spending their nonces, and trusting only those whose
//! enclave is attested.

use vstd::prelude::*;

use crate::catalog::collected;
use crate::catalog::copy_at_or;
use crate::catalog::enclave_name;
use crate::catalog::name_of_enclave_model;
use crate::catalog::number_at_or;
use crate::catalog::number_or;
use crate::catalog::value_or;
use crate::json::elements_at;
use crate::json::text_at;
use crate::json::truth_at;
use crate::json::unsigned_at;
use crate::json::values_of;
use crate::json::Json;
use crate::json::JsonValue;
use crate::state::DynamicModelInfo;
use crate::state::ModelFacts;
use crate::table;
use crate::table::entries;
use crate::text;
use crate::text::text_eq;

verus! {

// ---------------------------------------------------------------------------
// Instances and their nonces
// ---------------------------------------------------------------------------

/// One instance: its name, its public key in Base64, and the nonces that it still accepts.
pub struct ChutesInstanceInfo {
    pub instance_id: String,
    pub e2e_pubkey: String,
    pub nonces: Vec<String>,
}

/// What is known of an instance.
#[verifier::ext_equal]
pub struct InstanceFacts {
    pub id: Seq<char>,
    pub pubkey: Seq<char>,
    pub nonces: Seq<Seq<char>>,
}

impl DeepView for ChutesInstanceInfo {
    type V = InstanceFacts;

    open spec fn deep_view(&self) -> InstanceFacts {
        InstanceFacts {
            id: self.instance_id@,
            pubkey: self.e2e_pubkey@,
            nonces: text::views(self.nonces@),
        }
    }
}

/// What is known of some instances.
pub open spec fn facts_of(v: Seq<ChutesInstanceInfo>) -> Seq<InstanceFacts> {
    v.map_values(|i: ChutesInstanceInfo| i.deep_view())
}

pub(crate) fn copy_texts(v: &Vec<String>) -> (r: Vec<String>)
    ensures
        text::views(r@) == text::views(v@),
{
    let mut out: Vec<String> = Vec::new();
    let mut i: usize = 0;
    while i < v.len()
        invariant
            i <= v@.len(),
            out@.len() == i,
            forall|j: int| 0 <= j < i ==> (#[trigger] out@[j])@ == v@[j]@,
        decreases v@.len() - i,
    {
        out.push(v[i].clone());
        i = i + 1;
    }
    proof {
        assert(text::views(out@) =~= text::views(v@));
    }
    out
}

impl ChutesInstanceInfo {
    /// A copy that says the same.
    pub fn copy(&self) -> (r: Self)
        ensures
            r.deep_view() == self.deep_view(),
    {
        ChutesInstanceInfo {
            instance_id: self.instance_id.clone(),
            e2e_pubkey: self.e2e_pubkey.clone(),
            nonces: copy_texts(&self.nonces),
        }
    }
}

/// The nonces left of a chute, usable until a time.
pub struct CachedChutesNonces {
    pub instances: Vec<ChutesInstanceInfo>,
    pub expires_at: u64,
}

impl DeepView for CachedChutesNonces {
    type V = (Seq<InstanceFacts>, u64);

    open spec fn deep_view(&self) -> (Seq<InstanceFacts>, u64) {
        (facts_of(self.instances@), self.expires_at)
    }
}

/// The first instance, at or after `from`, that has a nonce left.
pub open spec fn first_supplied(v: Seq<InstanceFacts>, from: int) -> Option<int>
    decreases v.len() - from,
{
    if from < 0 || from >= v.len() {
        None
    } else if v[from].nonces.len() > 0 {
        Some(from)
    } else {
        first_supplied(v, from + 1)
    }
}

/// An instance once its last nonce has been spent.
pub open spec fn spent(i: InstanceFacts) -> InstanceFacts {
    InstanceFacts { nonces: i.nonces.drop_last(), ..i }
}

/// What a pool gives at a time, and what is left of it.
pub open spec fn drawn(pool: (Seq<InstanceFacts>, u64), now: u64) -> (
    Option<(InstanceFacts, Seq<char>)>,
    (Seq<InstanceFacts>, u64),
) {
    if now >= pool.1 {
        (None, pool)
    } else {
        match first_supplied(pool.0, 0) {
            Some(i) => (
                Some((spent(pool.0[i]), pool.0[i].nonces.last())),
                (pool.0.update(i, spent(pool.0[i])), pool.1),
            ),
            None => (None, pool),
        }
    }
}

/// The number of nonces left.
pub open spec fn nonces_left(v: Seq<InstanceFacts>) -> nat
    decreases v.len(),
{
    if v.len() == 0 {
        0
    } else {
        nonces_left(v.drop_last()) + v.last().nonces.len()
    }
}

/// An instance and a nonce, if there are any.
pub open spec fn draw_facts(d: Option<(ChutesInstanceInfo, String)>) -> Option<
    (InstanceFacts, Seq<char>),
> {
    match d {
        Some(p) => Some((p.0.deep_view(), p.1@)),
        None => None,
    }
}

impl CachedChutesNonces {
    /// A pool of nonces.
    pub fn new(instances: Vec<ChutesInstanceInfo>, expires_at: u64) -> (r: Self)
        ensures
            r.deep_view() == (facts_of(instances@), expires_at),
    {
        CachedChutesNonces { instances, expires_at }
    }

    /// Takes the last nonce of the first instance that has one, unless the pool has expired.
    pub fn take_nonce(&mut self, now: u64) -> (r: Option<(ChutesInstanceInfo, String)>)
        ensures
            (draw_facts(r), final(self).deep_view()) == drawn(old(self).deep_view(), now),
    {
        if now >= self.expires_at {
            return None;
        }
        let ghost all = facts_of(self.instances@);
        let ghost before = self.instances@;
        let mut i: usize = 0;
        while i < self.instances.len()
            invariant
                self.instances@ == before,
                self.expires_at == old(self).expires_at,
                all == facts_of(before),
                i <= before.len(),
                first_supplied(all, 0) == first_supplied(all, i as int),
                all == old(self).deep_view().0,
                now < self.expires_at,
            decreases before.len() - i,
        {
            proof {
                assert(all[i as int] == before[i as int].deep_view());
            }
            if self.instances[i].nonces.len() > 0 {
                let nonce = self.instances[i].nonces.pop();
                match nonce {
                    Some(n) => {
                        let inst = self.instances[i].copy();
                        proof {
                            assert(text::views(self.instances@[i as int].nonces@) =~= text::views(
                                before[i as int].nonces@,
                            ).drop_last());
                            assert(facts_of(self.instances@) =~= all.update(
                                i as int,
                                spent(all[i as int]),
                            ));
                        }
                        return Some((inst, n));
                    },
                    None => {
                        return None;
                    },
                }
            }
            i = i + 1;
        }
        None
    }

    /// Whether the pool can no longer be used.
    pub fn is_expired(&self, now: u64) -> (r: bool)
        ensures
            r == (now >= self.expires_at),
    {
        now >= self.expires_at
    }

    /// The number of nonces left.
    pub fn remaining(&self) -> (r: usize)
        requires
            nonces_left(self.deep_view().0) <= usize::MAX,
        ensures
            r == nonces_left(self.deep_view().0),
    {
        let ghost all = facts_of(self.instances@);
        let mut sum: usize = 0;
        let mut i: usize = 0;
        proof {
            assert(all.take(0) =~= seq![]);
        }
        while i < self.instances.len()
            invariant
                all == facts_of(self.instances@),
                i <= all.len(),
                sum == nonces_left(all.take(i as int)),
                nonces_left(all) <= usize::MAX,
            decreases all.len() - i,
        {
            proof {
                assert(all.take(i + 1).drop_last() =~= all.take(i as int));
                lemma_nonces_left(all, i + 1);
            }
            sum = sum + self.instances[i].nonces.len();
            i = i + 1;
        }
        proof {
            assert(all.take(all.len() as int) =~= all);
        }
        sum
    }
}

proof fn lemma_nonces_left(v: Seq<InstanceFacts>, n: int)
    requires
        0 <= n <= v.len(),
    ensures
        nonces_left(v.take(n)) <= nonces_left(v),
    decreases v.len() - n,
{
    if n < v.len() {
        assert(v.take(n + 1).drop_last() =~= v.take(n));
        lemma_nonces_left(v, n + 1);
    } else {
        assert(v.take(n) =~= v);
    }
}

proof fn lemma_spent(v: Seq<InstanceFacts>, i: int)
    requires
        0 <= i < v.len(),
        v[i].nonces.len() > 0,
    ensures
        nonces_left(v.update(i, spent(v[i]))) + 1 == nonces_left(v),
    decreases v.len(),
{
    let after = v.update(i, spent(v[i]));
    if i == v.len() - 1 {
        assert(after.drop_last() =~= v.drop_last());
    } else {
        assert(after.drop_last() =~= v.drop_last().update(i, spent(v[i])));
        assert(v.drop_last()[i] == v[i]);
        lemma_spent(v.drop_last(), i);
    }
}

proof fn lemma_first_supplied(v: Seq<InstanceFacts>, from: int)
    requires
        0 <= from,
    ensures
        match first_supplied(v, from) {
            Some(i) => from <= i < v.len() && v[i].nonces.len() > 0,
            None => forall|j: int| from <= j < v.len() ==> (#[trigger] v[j]).nonces.len() == 0,
        },
    decreases v.len() - from,
{
    if from < v.len() && v[from].nonces.len() == 0 {
        lemma_first_supplied(v, from + 1);
    }
}

/// Each nonce that a pool gives makes it one smaller, and a pool that has not expired gives
/// one exactly while there is one left.
pub proof fn law_each_draw_spends_one(pool: (Seq<InstanceFacts>, u64), now: u64)
    ensures
        match drawn(pool, now).0 {
            Some(_) => nonces_left(drawn(pool, now).1.0) + 1 == nonces_left(pool.0),
            None => drawn(pool, now).1 == pool && (now >= pool.1 || nonces_left(pool.0) == 0),
        },
        drawn(pool, now).0 is Some <==> now < pool.1 && nonces_left(pool.0) > 0,
{
    lemma_first_supplied(pool.0, 0);
    match first_supplied(pool.0, 0) {
        Some(i) => {
            lemma_spent(pool.0, i);
        },
        None => {
            lemma_nothing_left(pool.0);
        },
    }
}

proof fn lemma_nothing_left(v: Seq<InstanceFacts>)
    requires
        forall|j: int| 0 <= j < v.len() ==> (#[trigger] v[j]).nonces.len() == 0,
    ensures
        nonces_left(v) == 0,
    decreases v.len(),
{
    if v.len() > 0 {
        assert(v.last() == v[v.len() - 1]);
        assert forall|j: int| 0 <= j < v.drop_last().len() implies (
        #[trigger] v.drop_last()[j]).nonces.len() == 0 by {
            assert(v.drop_last()[j] == v[j]);
        }
        lemma_nothing_left(v.drop_last());
    }
}

/// Whether a nonce is among those of some instances.
pub open spec fn offers(v: Seq<InstanceFacts>, nonce: Seq<char>) -> bool {
    exists|i: int, k: int|
        0 <= i < v.len() && 0 <= k < v[i].nonces.len() && #[trigger] v[i].nonces[k] == nonce
}

/// Whether no two nonces of some instances are the same.
pub open spec fn nonces_differ(v: Seq<InstanceFacts>) -> bool {
    forall|i: int, k: int, j: int, l: int|
        #![trigger v[i].nonces[k], v[j].nonces[l]]
        0 <= i < v.len() && 0 <= k < v[i].nonces.len() && 0 <= j < v.len() && 0 <= l
            < v[j].nonces.len() && (i != j || k != l) ==> v[i].nonces[k] != v[j].nonces[l]
}

/// No nonce is given out twice: where all differ, the one that is given is no longer among
/// those that are left, which still all differ.
pub proof fn law_no_nonce_is_used_twice(pool: (Seq<InstanceFacts>, u64), now: u64)
    requires
        nonces_differ(pool.0),
    ensures
        nonces_differ(drawn(pool, now).1.0),
        drawn(pool, now).0 matches Some(d) ==> offers(pool.0, d.1) && !offers(
            drawn(pool, now).1.0,
            d.1,
        ),
{
    let v = pool.0;
    let (out, rest) = drawn(pool, now);
    lemma_first_supplied(v, 0);
    if out is Some {
        let i = first_supplied(v, 0)->0;
        let last = v[i].nonces.len() - 1;
        let nonce = v[i].nonces[last];
        let w = rest.0;
        assert forall|j: int, k: int|
            0 <= j < w.len() && 0 <= k < w[j].nonces.len() implies #[trigger] w[j].nonces[k]
            == v[j].nonces[k] && k < v[j].nonces.len() && (j != i || k != last) by {}
        assert(v[i].nonces[last] == nonce);
        assert(!offers(w, nonce)) by {
            if offers(w, nonce) {
                let (j, k) = choose|j: int, k: int|
                    0 <= j < w.len() && 0 <= k < w[j].nonces.len() && #[trigger] w[j].nonces[k]
                        == nonce;
                assert(w[j].nonces[k] == v[j].nonces[k]);
                assert(v[j].nonces[k] != v[i].nonces[last]);
            }
        }
        assert forall|a: int, k: int, b: int, l: int|
            #![trigger w[a].nonces[k], w[b].nonces[l]]
            0 <= a < w.len() && 0 <= k < w[a].nonces.len() && 0 <= b < w.len() && 0 <= l
                < w[b].nonces.len() && (a != b || k != l) implies w[a].nonces[k]
            != w[b].nonces[l] by {
            assert(v[a].nonces[k] != v[b].nonces[l]);
        }
    }
}

// ---------------------------------------------------------------------------
// Finding instances
// ---------------------------------------------------------------------------

/// The texts among some values.
pub open spec fn texts_among(v: Seq<JsonValue>) -> Seq<Seq<char>>
    decreases v.len(),
{
    if v.len() == 0 {
        seq![]
    } else {
        match v.last().text() {
            Some(t) => texts_among(v.drop_last()).push(t),
            None => texts_among(v.drop_last()),
        }
    }
}

/// The instance that a value describes, if it does.
pub open spec fn instance_of(v: JsonValue) -> Option<InstanceFacts> {
    match (text_at(v, "instance_id"@), text_at(v, "e2e_pubkey"@), elements_at(v, "nonces"@)) {
        (Some(id), Some(pubkey), Some(nonces)) => Some(
            InstanceFacts { id, pubkey, nonces: texts_among(nonces) },
        ),
        _ => None,
    }
}

/// The instances among some values.
pub open spec fn instances_among(v: Seq<JsonValue>) -> Seq<InstanceFacts>
    decreases v.len(),
{
    if v.len() == 0 {
        seq![]
    } else {
        match instance_of(v.last()) {
            Some(i) => instances_among(v.drop_last()).push(i),
            None => instances_among(v.drop_last()),
        }
    }
}

/// How long the nonces of an answer can be used, in seconds.
pub open spec fn ttl_of(data: JsonValue) -> u64 {
    match unsigned_at(data, "nonce_expires_in"@) {
        Some(n) => n,
        None => 50,
    }
}

fn read_texts(v: &Vec<Json>) -> (r: Vec<String>)
    ensures
        text::views(r@) == texts_among(values_of(v@)),
{
    let ghost all = values_of(v@);
    let mut out: Vec<String> = Vec::new();
    let mut i: usize = 0;
    proof {
        assert(all.take(0) =~= seq![]);
        assert(text::views(out@) =~= seq![]);
    }
    while i < v.len()
        invariant
            i <= v@.len(),
            all == values_of(v@),
            text::views(out@) == texts_among(all.take(i as int)),
        decreases v@.len() - i,
    {
        let ghost before = text::views(out@);
        proof {
            assert(all.take(i + 1).drop_last() =~= all.take(i as int));
            assert(all.take(i + 1).last() == v@[i as int]@);
        }
        if let Some(t) = v[i].as_str() {
            out.push(t.clone());
            proof {
                assert(text::views(out@) =~= before.push(t@));
            }
        }
        i = i + 1;
    }
    proof {
        assert(all.take(all.len() as int) =~= all);
    }
    out
}

fn read_instance(v: &Json) -> (r: Option<ChutesInstanceInfo>)
    ensures
        match r {
            Some(i) => instance_of(v@) == Some(i.deep_view()),
            None => instance_of(v@) is None,
        },
{
    match (v.text_at("instance_id"), v.text_at("e2e_pubkey"), v.elements_at("nonces")) {
        (Some(id), Some(pubkey), Some(nonces)) => Some(
            ChutesInstanceInfo {
                instance_id: id.clone(),
                e2e_pubkey: pubkey.clone(),
                nonces: read_texts(nonces),
            },
        ),
        _ => None,
    }
}

/// Reads the instances of a chute, and how long their nonces can be used, out of the
/// discovery answer.
pub fn read_instances(data: &Json) -> (r: Result<(Vec<ChutesInstanceInfo>, u64), String>)
    ensures
        match elements_at(data@, "instances"@) {
            Some(v) => r is Ok && facts_of(r->Ok_0.0@) == instances_among(v) && r->Ok_0.1 == ttl_of(
                data@,
            ),
            None => r is Err && r->Err_0@ == "Missing 'instances' array in discovery response"@,
        },
{
    let listed = match data.elements_at("instances") {
        Some(v) => v,
        None => {
            return Err("Missing 'instances' array in discovery response".to_string());
        },
    };
    let ghost all = values_of(listed@);
    let mut out: Vec<ChutesInstanceInfo> = Vec::new();
    let mut i: usize = 0;
    proof {
        assert(all.take(0) =~= seq![]);
        assert(facts_of(out@) =~= seq![]);
    }
    while i < listed.len()
        invariant
            i <= listed@.len(),
            all == values_of(listed@),
            facts_of(out@) == instances_among(all.take(i as int)),
        decreases listed@.len() - i,
    {
        let ghost before = facts_of(out@);
        proof {
            assert(all.take(i + 1).drop_last() =~= all.take(i as int));
            assert(all.take(i + 1).last() == listed@[i as int]@);
        }
        if let Some(inst) = read_instance(&listed[i]) {
            let ghost facts = inst.deep_view();
            out.push(inst);
            proof {
                assert(facts_of(out@) =~= before.push(facts));
            }
        }
        i = i + 1;
    }
    proof {
        assert(all.take(all.len() as int) =~= all);
    }
    let ttl = match data.unsigned_at("nonce_expires_in") {
        Some(n) => n,
        None => 50,
    };
    Ok((out, ttl))
}

/// Whether an entry of the listing names the chute of a model.
pub open spec fn names_chute(entry: JsonValue, model: Seq<char>) -> bool {
    let id = match text_at(entry, "id"@) {
        Some(s) => s,
        None => ""@,
    };
    id == model && text_at(entry, "chute_id"@) is Some && text_at(entry, "chute_id"@)->0.len() > 0
}

/// The chute of a model: that of the first entry, at or after `from`, that names one.
pub open spec fn chute_of(v: Seq<JsonValue>, model: Seq<char>, from: int) -> Option<Seq<char>>
    decreases v.len() - from,
{
    if from < 0 || from >= v.len() {
        None
    } else if names_chute(v[from], model) {
        text_at(v[from], "chute_id"@)
    } else {
        chute_of(v, model, from + 1)
    }
}

/// Finds the chute of a model in the listing.
pub fn resolve_chute_id(data: &Json, model_name: &str) -> (r: Result<String, String>)
    ensures
        match elements_at(data@, "data"@) {
            Some(v) => match chute_of(v, model_name@, 0) {
                Some(id) => r is Ok && r->Ok_0@ == id,
                None => r is Err && r->Err_0@ == "Model '"@ + model_name@
                    + "' not found in Chutes model listing"@,
            },
            None => r is Err && r->Err_0@ == "Missing 'data' array in models response"@,
        },
{
    let listed = match data.elements_at("data") {
        Some(v) => v,
        None => {
            return Err("Missing 'data' array in models response".to_string());
        },
    };
    let ghost all = values_of(listed@);
    let mut i: usize = 0;
    while i < listed.len()
        invariant
            i <= listed@.len(),
            all == values_of(listed@),
            chute_of(all, model_name@, 0) == chute_of(all, model_name@, i as int),
            elements_at(data@, "data"@) == Some(all),
        decreases listed@.len() - i,
    {
        proof {
            assert(all[i as int] == listed@[i as int]@);
        }
        let id = match listed[i].text_at("id") {
            Some(s) => s.as_str(),
            None => "",
        };
        if text_eq(id, model_name) {
            if let Some(chute) = listed[i].text_at("chute_id") {
                if !chute.as_str().is_empty() {
                    return Ok(chute.clone());
                }
            }
        }
        i = i + 1;
    }
    Err(text::cat3("Model '", model_name, "' not found in Chutes model listing"))
}

// ---------------------------------------------------------------------------
// Models
// ---------------------------------------------------------------------------

/// The model that an entry of the listing describes, at a price: one that is computed in an
/// enclave.
pub open spec fn model_of(v: JsonValue, price: (u64, u64)) -> Option<(Seq<char>, ModelFacts)> {
    match text_at(v, "id"@) {
        Some(id) => if truth_at(v, "confidential_compute"@) == Some(true) {
            Some(
                (
                    enclave_name(id),
                    ModelFacts {
                        upstream: id,
                        name: enclave_name(id),
                        price_input: price.0,
                        price_output: price.1,
                        context: number_or(v, "context_length"@, 0),
                        completion: number_or(v, "max_output_length"@, 0),
                        sampling: value_or(v, "supported_sampling_parameters"@, JsonValue::Null),
                        features: value_or(v, "supported_features"@, JsonValue::Null),
                        endpoint: None,
                    },
                ),
            )
        } else {
            None
        },
        None => None,
    }
}

/// What the entries of the listing describe.
pub open spec fn models_found(v: Seq<JsonValue>, prices: Seq<(u64, u64)>) -> Seq<
    Option<(Seq<char>, ModelFacts)>,
> {
    Seq::new(v.len(), |i: int| model_of(v[i], prices[i]))
}

fn read_model(v: &Json, price: (u64, u64)) -> (r: Option<(String, DynamicModelInfo)>)
    ensures
        match r {
            Some(m) => model_of(v@, price) == Some((m.0@, m.1.deep_view())),
            None => model_of(v@, price) is None,
        },
{
    let id = match v.text_at("id") {
        Some(s) => s,
        None => {
            return None;
        },
    };
    match v.truth_at("confidential_compute") {
        Some(true) => {},
        _ => {
            return None;
        },
    }
    let name = name_of_enclave_model(id.as_str());
    let info = DynamicModelInfo {
        upstream_model_name: id.clone(),
        name: name.clone(),
        price_input_1m: price.0,
        price_output_1m: price.1,
        context_length: number_at_or(v, "context_length", 0),
        max_completion_tokens: number_at_or(v, "max_output_length", 0),
        supported_sampling_parameters: copy_at_or(v, "supported_sampling_parameters", Json::Null),
        supported_features: copy_at_or(v, "supported_features", Json::Null),
        direct_endpoint: None,
    };
    Some((name, info))
}

/// Reads the models out of the listing. `prices` are those of the entries, in the same order.
pub fn parse_models(data: &Vec<Json>, prices: &Vec<(u64, u64)>) -> (r: Vec<
    (String, DynamicModelInfo),
>)
    requires
        prices@.len() == data@.len(),
    ensures
        entries(r@) == collected(models_found(values_of(data@), prices@)),
{
    let ghost found = models_found(values_of(data@), prices@);
    let mut out: Vec<(String, DynamicModelInfo)> = Vec::new();
    let mut i: usize = 0;
    proof {
        assert(found.take(0) =~= seq![]);
        assert(entries(out@) =~= seq![]);
    }
    while i < data.len()
        invariant
            i <= data@.len(),
            prices@.len() == data@.len(),
            found == models_found(values_of(data@), prices@),
            entries(out@) == collected(found.take(i as int)),
        decreases data@.len() - i,
    {
        proof {
            assert(found.take(i + 1).drop_last() =~= found.take(i as int));
            assert(found.take(i + 1).last() == model_of(data@[i as int]@, prices@[i as int]));
        }
        if let Some((name, info)) = read_model(&data[i], prices[i]) {
            table::insert(&mut out, name.as_str(), info);
        }
        i = i + 1;
    }
    proof {
        assert(found.take(found.len() as int) =~= found);
    }
    out
}

} // verus!
