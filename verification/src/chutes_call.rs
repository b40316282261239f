//! A call to Chutes: which instances may be trusted, how often to try, and what to make of
//! the events of a stream.

use vstd::prelude::*;
use vstd::utf8::encode_utf8;

use crate::attestation::debuggable;
use crate::attestation::is_debuggable;
use crate::attestation::nras_outcome;
use crate::attestation::report_data;
use crate::attestation::told;
use crate::attestation::verify_nvidia_gpu_attestation;
use crate::attestation::MIN_TDX_QUOTE_LEN;
use crate::bytes::copy_bytes;
use crate::chutes::draw_facts;
use crate::chutes::drawn;
use crate::chutes::facts_of;
use crate::chutes::CachedChutesNonces;
use crate::chutes::ChutesInstanceInfo;
use crate::chutes::InstanceFacts;
use crate::chutes_e2ee::chunk_outcome;
use crate::chutes_e2ee::decrypt_stream_chunk;
use crate::chutes_e2ee::decrypt_stream_init;
use crate::chutes_e2ee::stream_key_outcome;
use crate::chutes_e2ee::StreamKey;
use crate::json::elements_at;
use crate::json::fields_of;
use crate::json::lemma_array_view;
use crate::json::lemma_object_view;
use crate::json::text_at;
use crate::json::values_of;
use crate::json::Json;
use crate::json::JsonValue;
use crate::order::by_key;
use crate::order::is_stable_order;
use crate::order::order_by_keys;
use crate::primitives::base64_decode;
use crate::primitives::base64_decoded;
use crate::primitives::constant_time_eq;
use crate::primitives::hex_encode;
use crate::primitives::hex_of;
use crate::primitives::sha256;
use crate::primitives::sha256_of;
use crate::table;
use crate::table::entries;
use crate::table::entry_of;
use crate::table::with_entry;
use crate::text;
use crate::text::chars_of;
use crate::text::has_prefix;
use crate::text::string_of;
use crate::text::text_eq;
use crate::text::trimmed;
use crate::timing::Line;
use crate::timing::LineKind;

verus! {

// ---------------------------------------------------------------------------
// Attestation of instances
// ---------------------------------------------------------------------------

/// The evidence on an instance: the first, at or after `from`, that names it.
pub open spec fn evidence_on(evidence: Seq<JsonValue>, id: Seq<char>, from: int) -> Option<JsonValue>
    decreases evidence.len() - from,
{
    if from < 0 || from >= evidence.len() {
        None
    } else if text_at(evidence[from], "instance_id"@) == Some(id) {
        Some(evidence[from])
    } else {
        evidence_on(evidence, id, from + 1)
    }
}

/// What an enclave must bind into its quote: the digest of the request's nonce, in
/// hexadecimal digits, and its own public key.
pub open spec fn bound_hash(nonce: Seq<u8>, pubkey: Seq<char>) -> Seq<u8> {
    sha256_of(encode_utf8(hex_of(nonce) + pubkey))
}

/// The quote in some evidence, if it is one of full length.
pub open spec fn quote_in(evidence: JsonValue) -> Option<Seq<u8>> {
    match text_at(evidence, "quote"@) {
        Some(q) => match base64_decoded(q) {
            Some(b) => if b.len() >= MIN_TDX_QUOTE_LEN {
                Some(b)
            } else {
                None
            },
            None => None,
        },
        None => None,
    }
}

/// What is asked of NVIDIA's service about some evidence.
pub open spec fn gpu_question(evidence: JsonValue, hash: Seq<u8>) -> Option<JsonValue> {
    match elements_at(evidence, "gpu_evidence"@) {
        Some(list) => Some(
            JsonValue::Obj(
                seq![
                    ("nonce"@, JsonValue::Str(hex_of(hash))),
                    ("arch"@, JsonValue::Str("HOPPER"@)),
                    ("evidence_list"@, JsonValue::Arr(list)),
                ],
            ),
        ),
        None => None,
    }
}

/// What others found out about an instance: whether the hardware's signature holds, and what
/// NVIDIA's service answered, with the claims of its tokens.
pub struct Findings {
    pub hardware: bool,
    pub nras: Option<Json>,
    pub top: Option<Json>,
    pub gpu: Option<Json>,
}

/// Whether an instance is attested: its quote is genuine, of an enclave that cannot be
/// debugged, and binds its public key to the nonce; and so is its GPU.
pub open spec fn attested(
    evidence: Seq<JsonValue>,
    id: Seq<char>,
    pubkey: Seq<char>,
    nonce: Seq<u8>,
    found: Findings,
) -> bool {
    let hash = bound_hash(nonce, pubkey);
    match evidence_on(evidence, id, 0) {
        Some(e) => match quote_in(e) {
            Some(quote) => {
                &&& found.hardware
                &&& !is_debuggable(quote)
                &&& report_data(quote).take(32) == hash
                &&& elements_at(e, "gpu_evidence"@) is Some
                &&& found.nras is Some
                &&& nras_outcome(found.nras->0@, told(found.top), told(found.gpu), hash) is Ok
            },
            None => false,
        },
        None => false,
    }
}

/// Where the evidence on the instances of a chute is asked for, with a nonce.
pub fn evidence_url(api_base: &str, chute_id: &str, nonce: &[u8; 32]) -> (r: String)
    ensures
        r@ == api_base@ + "/chutes/"@ + chute_id@ + "/evidence?nonce="@ + hex_of(nonce@),
{
    let digits = hex_encode(nonce.as_slice());
    text::cat5(api_base, "/chutes/", chute_id, "/evidence?nonce=", digits.as_str())
}

/// Finds the list of evidence in the answer.
pub fn evidence_list(answer: &Json) -> (r: Result<&Vec<Json>, String>)
    ensures
        match elements_at(answer@, "evidence"@) {
            Some(v) => r is Ok && values_of(r->Ok_0@) == v,
            None => r is Err && r->Err_0@
                == "Missing 'evidence' array in TEE evidence response"@,
        },
{
    match answer.elements_at("evidence") {
        Some(v) => Ok(v),
        None => Err("Missing 'evidence' array in TEE evidence response".to_string()),
    }
}

/// Finds the evidence on an instance.
pub fn find_evidence<'a>(evidence: &'a Vec<Json>, id: &str) -> (r: Option<&'a Json>)
    ensures
        match r {
            Some(e) => evidence_on(values_of(evidence@), id@, 0) == Some(e@),
            None => evidence_on(values_of(evidence@), id@, 0) is None,
        },
{
    let ghost all = values_of(evidence@);
    let mut i: usize = 0;
    while i < evidence.len()
        invariant
            i <= evidence@.len(),
            all == values_of(evidence@),
            evidence_on(all, id@, 0) == evidence_on(all, id@, i as int),
        decreases evidence@.len() - i,
    {
        proof {
            assert(all[i as int] == evidence@[i as int]@);
        }
        if let Some(name) = evidence[i].text_at("instance_id") {
            if text_eq(name.as_str(), id) {
                return Some(&evidence[i]);
            }
        }
        i = i + 1;
    }
    None
}

/// Computes what an enclave must bind into its quote.
pub fn binding(nonce: &[u8; 32], pubkey: &str) -> (r: [u8; 32])
    ensures
        r@ == bound_hash(nonce@, pubkey@),
{
    let digits = hex_encode(nonce.as_slice());
    let joined = text::cat2(digits.as_str(), pubkey);
    sha256(joined.as_str().as_bytes())
}

/// Reads the quote out of some evidence, if it is one of full length.
pub fn quote_to_verify(evidence: &Json) -> (r: Option<Vec<u8>>)
    ensures
        match r {
            Some(q) => quote_in(evidence@) == Some(q@) && q@.len() >= MIN_TDX_QUOTE_LEN,
            None => quote_in(evidence@) is None,
        },
{
    match evidence.text_at("quote") {
        Some(q) => match base64_decode(q.as_str()) {
            Some(b) => {
                if b.len() >= MIN_TDX_QUOTE_LEN {
                    Some(b)
                } else {
                    None
                }
            },
            None => None,
        },
        None => None,
    }
}

/// Puts together what is asked of NVIDIA's service.
pub fn gpu_request(evidence: &Json, hash: &[u8; 32]) -> (r: Option<Json>)
    ensures
        match r {
            Some(q) => gpu_question(evidence@, hash@) == Some(q@),
            None => gpu_question(evidence@, hash@) is None,
        },
{
    match evidence.get("gpu_evidence") {
        Some(list) => match list {
            Json::Arr(v) => {
                let digits = hex_encode(hash.as_slice());
                let mut fields: Vec<(String, Json)> = Vec::new();
                fields.push(("nonce".to_string(), Json::Str(digits)));
                fields.push(("arch".to_string(), Json::Str("HOPPER".to_string())));
                fields.push(("evidence_list".to_string(), list.copy()));
                proof {
                    lemma_array_view(*v);
                    lemma_object_view(fields);
                    assert(fields_of(fields@) =~= seq![
                        ("nonce"@, JsonValue::Str(hex_of(hash@))),
                        ("arch"@, JsonValue::Str("HOPPER"@)),
                        ("evidence_list"@, JsonValue::Arr(values_of(v@))),
                    ]);
                }
                Some(Json::Obj(fields))
            },
            _ => None,
        },
        None => None,
    }
}

/// Gives the verdict on an instance.
pub fn instance_attested(
    evidence: &Vec<Json>,
    id: &str,
    pubkey: &str,
    nonce: &[u8; 32],
    found: &Findings,
) -> (r: bool)
    ensures
        r == attested(values_of(evidence@), id@, pubkey@, nonce@, *found),
{
    let own = match find_evidence(evidence, id) {
        Some(e) => e,
        None => {
            return false;
        },
    };
    let quote = match quote_to_verify(own) {
        Some(q) => q,
        None => {
            return false;
        },
    };
    if !found.hardware || debuggable(quote.as_slice()) {
        return false;
    }
    let hash = binding(nonce, pubkey);
    let bound = copy_bytes(quote.as_slice(), 568, 600);
    proof {
        assert(report_data(quote@).take(32) =~= bound@);
    }
    if !constant_time_eq(bound.as_slice(), hash.as_slice()) {
        return false;
    }
    match own.elements_at("gpu_evidence") {
        Some(_) => {},
        None => {
            return false;
        },
    }
    match &found.nras {
        Some(nras) => match verify_nvidia_gpu_attestation(
            nras,
            &found.top,
            &found.gpu,
            hash.as_slice(),
        ) {
            Ok(_) => true,
            Err(_) => false,
        },
        None => false,
    }
}

/// Whether an instance among some is attested.
pub open spec fn attested_at(
    evidence: Seq<JsonValue>,
    v: Seq<InstanceFacts>,
    nonce: Seq<u8>,
    found: Seq<Findings>,
    i: int,
) -> bool {
    attested(evidence, v[i].id, v[i].pubkey, nonce, found[i])
}

/// The first instance, at or after `from`, that is not attested.
pub open spec fn first_unattested(
    evidence: Seq<JsonValue>,
    v: Seq<InstanceFacts>,
    nonce: Seq<u8>,
    found: Seq<Findings>,
    from: int,
) -> Option<int>
    decreases v.len() - from,
{
    if from < 0 || from >= v.len() {
        None
    } else if !attested_at(evidence, v, nonce, found, from) {
        Some(from)
    } else {
        first_unattested(evidence, v, nonce, found, from + 1)
    }
}

/// Whether some instance is attested.
pub open spec fn some_attested(
    evidence: Seq<JsonValue>,
    v: Seq<InstanceFacts>,
    nonce: Seq<u8>,
    found: Seq<Findings>,
) -> bool {
    exists|i: int| 0 <= i < v.len() && #[trigger] attested_at(evidence, v, nonce, found, i)
}

/// The names of some instances.
pub open spec fn names_of(v: Seq<InstanceFacts>) -> Seq<Seq<char>> {
    v.map_values(|f: InstanceFacts| f.id)
}

/// The verdict on some instances: the names of all of them where every one is attested, and
/// an error where one is not, or there is none.
pub open spec fn evidence_outcome(
    evidence: Seq<JsonValue>,
    v: Seq<InstanceFacts>,
    nonce: Seq<u8>,
    found: Seq<Findings>,
) -> Result<Seq<Seq<char>>, Seq<char>> {
    if v.len() == 0 {
        Err("FATAL: No instances to verify"@)
    } else {
        match first_unattested(evidence, v, nonce, found, 0) {
            None => Ok(names_of(v)),
            Some(i) => if some_attested(evidence, v, nonce, found) {
                Err("FATAL: Instance "@ + v[i].id + " has no valid TEE attestation."@)
            } else {
                Err("FATAL: No instances were successfully verified. Aborting."@)
            },
        }
    }
}

proof fn lemma_first_unattested(
    evidence: Seq<JsonValue>,
    v: Seq<InstanceFacts>,
    nonce: Seq<u8>,
    found: Seq<Findings>,
    from: int,
)
    requires
        0 <= from,
    ensures
        first_unattested(evidence, v, nonce, found, from) is None <==> (forall|i: int|
            from <= i < v.len() ==> #[trigger] attested_at(evidence, v, nonce, found, i)),
    decreases v.len() - from,
{
    if from < v.len() && attested_at(evidence, v, nonce, found, from) {
        lemma_first_unattested(evidence, v, nonce, found, from + 1);
    }
}

/// Gives the verdict on instances, each by the evidence on it and by what others found out
/// about it. One that is not attested makes the whole fail.
pub fn verify_chutes_tee_evidence(
    evidence: &Vec<Json>,
    instances: &Vec<ChutesInstanceInfo>,
    nonce: &[u8; 32],
    found: &Vec<Findings>,
) -> (r: Result<Vec<String>, String>)
    requires
        instances@.len() == found@.len(),
    ensures
        r is Ok <==> instances@.len() > 0 && forall|i: int|
            0 <= i < instances@.len() ==> #[trigger] attested_at(
                values_of(evidence@),
                facts_of(instances@),
                nonce@,
                found@,
                i,
            ),
        evidence_outcome(values_of(evidence@), facts_of(instances@), nonce@, found@) == (match r {
            Ok(ids) => Ok::<Seq<Seq<char>>, Seq<char>>(text::views(ids@)),
            Err(e) => Err(e@),
        }),
{
    if instances.len() == 0 {
        return Err("FATAL: No instances to verify".to_string());
    }
    let ghost all = facts_of(instances@);
    let ghost told = values_of(evidence@);
    let mut names: Vec<String> = Vec::new();
    let mut failed: Option<usize> = None;
    let mut passed: bool = false;
    let mut i: usize = 0;
    while i < instances.len()
        invariant
            i <= instances@.len(),
            instances@.len() == found@.len(),
            all == facts_of(instances@),
            told == values_of(evidence@),
            names@.len() == i,
            forall|j: int| 0 <= j < i ==> (#[trigger] names@[j])@ == all[j].id,
            match failed {
                Some(k) => k < i && first_unattested(told, all, nonce@, found@, 0) == Some(k as int),
                None => first_unattested(told, all, nonce@, found@, 0) == first_unattested(
                    told,
                    all,
                    nonce@,
                    found@,
                    i as int,
                ),
            },
            passed <==> exists|j: int|
                0 <= j < i && #[trigger] attested_at(told, all, nonce@, found@, j),
        decreases instances@.len() - i,
    {
        let instance = &instances[i];
        proof {
            assert(all[i as int] == instances@[i as int].deep_view());
        }
        let ok = instance_attested(
            evidence,
            instance.instance_id.as_str(),
            instance.e2e_pubkey.as_str(),
            nonce,
            &found[i],
        );
        proof {
            assert(ok == attested_at(told, all, nonce@, found@, i as int));
        }
        names.push(instance.instance_id.clone());
        if ok {
            passed = true;
        } else if failed.is_none() {
            failed = Some(i);
        }
        i = i + 1;
    }
    proof {
        lemma_first_unattested(told, all, nonce@, found@, 0);
    }
    match failed {
        None => {
            proof {
                assert(text::views(names@) =~= names_of(all));
            }
            Ok(names)
        },
        Some(k) => {
            if passed {
                Err(untrusted_instance(instances[k].instance_id.as_str()))
            } else {
                Err("FATAL: No instances were successfully verified. Aborting.".to_string())
            }
        },
    }
}

/// No instance is named unless it and all the others are attested: one that is not makes the
/// whole fail.
pub proof fn law_only_attested_instances_are_named(
    evidence: Seq<JsonValue>,
    v: Seq<InstanceFacts>,
    nonce: Seq<u8>,
    found: Seq<Findings>,
)
    ensures
        evidence_outcome(evidence, v, nonce, found) is Ok <==> v.len() > 0 && forall|i: int|
            0 <= i < v.len() ==> #[trigger] attested_at(evidence, v, nonce, found, i),
        evidence_outcome(evidence, v, nonce, found) matches Ok(ids) ==> ids == names_of(v),
{
    lemma_first_unattested(evidence, v, nonce, found, 0);
}

// ---------------------------------------------------------------------------
// Which instances are trusted
// ---------------------------------------------------------------------------

/// Whether an instance is trusted at a time.
pub open spec fn trusted(known: Seq<(Seq<char>, u64)>, id: Seq<char>, now: u64) -> bool {
    match entry_of(known, id) {
        Some(until) => now < until,
        None => false,
    }
}

/// Those of some instances whose being trusted is as wanted.
pub open spec fn sifted(
    v: Seq<InstanceFacts>,
    known: Seq<(Seq<char>, u64)>,
    now: u64,
    wanted: bool,
) -> Seq<InstanceFacts>
    decreases v.len(),
{
    if v.len() == 0 {
        seq![]
    } else {
        let before = sifted(v.drop_last(), known, now, wanted);
        if trusted(known, v.last().id, now) == wanted {
            before.push(v.last())
        } else {
            before
        }
    }
}

/// What is known once some instances are trusted until a time.
pub open spec fn with_trusted(
    known: Seq<(Seq<char>, u64)>,
    ids: Seq<Seq<char>>,
    until: u64,
) -> Seq<(Seq<char>, u64)>
    decreases ids.len(),
{
    if ids.len() == 0 {
        known
    } else {
        with_entry(with_trusted(known, ids.drop_last(), until), ids.last(), until)
    }
}

/// Whether an instance is trusted at a time.
pub fn is_trusted(known: &Vec<(String, u64)>, id: &str, now: u64) -> (r: bool)
    ensures
        r == trusted(entries(known@), id@, now),
{
    match table::lookup(known, id) {
        Some(until) => now < *until,
        None => false,
    }
}

fn sift(
    instances: &Vec<ChutesInstanceInfo>,
    known: &Vec<(String, u64)>,
    now: u64,
    wanted: bool,
) -> (r: Vec<ChutesInstanceInfo>)
    ensures
        facts_of(r@) == sifted(facts_of(instances@), entries(known@), now, wanted),
{
    let ghost all = facts_of(instances@);
    let mut out: Vec<ChutesInstanceInfo> = Vec::new();
    let mut i: usize = 0;
    proof {
        assert(all.take(0) =~= seq![]);
        assert(facts_of(out@) =~= seq![]);
    }
    while i < instances.len()
        invariant
            i <= instances@.len(),
            all == facts_of(instances@),
            facts_of(out@) == sifted(all.take(i as int), entries(known@), now, wanted),
        decreases instances@.len() - i,
    {
        let ghost before = facts_of(out@);
        proof {
            assert(all.take(i + 1).drop_last() =~= all.take(i as int));
            assert(all.take(i + 1).last() == instances@[i as int].deep_view());
        }
        if is_trusted(known, instances[i].instance_id.as_str(), now) == wanted {
            out.push(instances[i].copy());
            proof {
                assert(facts_of(out@) =~= before.push(all[i as int]));
            }
        }
        i = i + 1;
    }
    proof {
        assert(all.take(all.len() as int) =~= all);
    }
    out
}

/// The instances that still have to be attested.
pub fn unverified_instances(
    instances: &Vec<ChutesInstanceInfo>,
    known: &Vec<(String, u64)>,
    now: u64,
) -> (r: Vec<ChutesInstanceInfo>)
    ensures
        facts_of(r@) == sifted(facts_of(instances@), entries(known@), now, false),
{
    sift(instances, known, now, false)
}

/// The instances that are trusted. That there is none is an error.
pub fn verified_instances(
    instances: &Vec<ChutesInstanceInfo>,
    known: &Vec<(String, u64)>,
    now: u64,
) -> (r: Result<Vec<ChutesInstanceInfo>, String>)
    ensures
        match r {
            Ok(v) => facts_of(v@) == sifted(facts_of(instances@), entries(known@), now, true)
                && v@.len() > 0,
            Err(e) => sifted(facts_of(instances@), entries(known@), now, true).len() == 0 && e@
                == "FATAL: No instances were successfully verified. Aborting."@,
        },
{
    let kept = sift(instances, known, now, true);
    proof {
        assert(facts_of(kept@).len() == kept@.len());
    }
    if kept.len() == 0 {
        return Err("FATAL: No instances were successfully verified. Aborting.".to_string());
    }
    Ok(kept)
}

/// Takes note that some instances are attested: they are trusted for an hour.
pub fn note_verified(known: &mut Vec<(String, u64)>, ids: &Vec<String>, now: u64)
    requires
        now + 3600 <= u64::MAX,
    ensures
        entries(final(known)@) == with_trusted(
            entries(old(known)@),
            text::views(ids@),
            (now + 3600) as u64,
        ),
{
    let ghost all = text::views(ids@);
    let ghost start = entries(known@);
    let until: u64 = now + 3600;
    let mut i: usize = 0;
    proof {
        assert(all.take(0) =~= seq![]);
    }
    while i < ids.len()
        invariant
            i <= ids@.len(),
            all == text::views(ids@),
            entries(known@) == with_trusted(start, all.take(i as int), until),
        decreases ids@.len() - i,
    {
        proof {
            assert(all.take(i + 1).drop_last() =~= all.take(i as int));
            assert(all.take(i + 1).last() == ids@[i as int]@);
        }
        table::insert(known, ids[i].as_str(), until);
        i = i + 1;
    }
    proof {
        assert(all.take(all.len() as int) =~= all);
    }
}

proof fn lemma_sifted(
    v: Seq<InstanceFacts>,
    known: Seq<(Seq<char>, u64)>,
    now: u64,
    wanted: bool,
    k: int,
)
    requires
        0 <= k < sifted(v, known, now, wanted).len(),
    ensures
        trusted(known, sifted(v, known, now, wanted)[k].id, now) == wanted,
    decreases v.len(),
{
    if v.len() > 0 {
        let before = sifted(v.drop_last(), known, now, wanted);
        if k < before.len() {
            lemma_sifted(v.drop_last(), known, now, wanted, k);
        }
    }
}

/// Every instance that is kept for use is trusted.
pub proof fn law_only_trusted_instances_are_used(
    v: Seq<InstanceFacts>,
    known: Seq<(Seq<char>, u64)>,
    now: u64,
)
    ensures
        forall|k: int|
            0 <= k < sifted(v, known, now, true).len() ==> trusted(
                known,
                (#[trigger] sifted(v, known, now, true)[k]).id,
                now,
            ),
{
    assert forall|k: int| 0 <= k < sifted(v, known, now, true).len() implies trusted(
        known,
        (#[trigger] sifted(v, known, now, true)[k]).id,
        now,
    ) by {
        lemma_sifted(v, known, now, true, k);
    }
}

/// An attested instance is trusted for an hour and no longer, and the trust in others does
/// not change.
pub proof fn law_trust_lasts_an_hour(
    known: Seq<(Seq<char>, u64)>,
    ids: Seq<Seq<char>>,
    until: u64,
    id: Seq<char>,
    later: u64,
)
    ensures
        ids.contains(id) ==> (trusted(with_trusted(known, ids, until), id, later) <==> later
            < until),
        !ids.contains(id) ==> trusted(with_trusted(known, ids, until), id, later) == trusted(
            known,
            id,
            later,
        ),
    decreases ids.len(),
{
    if ids.len() > 0 {
        let front = ids.drop_last();
        let before = with_trusted(known, front, until);
        law_trust_lasts_an_hour(known, front, until, id, later);
        table::law_table_keeps_what_it_is_given(before, ids.last(), until, id);
        if id != ids.last() {
            if ids.contains(id) {
                let k = choose|k: int| 0 <= k < ids.len() && ids[k] == id;
                assert(front[k] == id);
            }
            if front.contains(id) {
                let k = choose|k: int| 0 <= k < front.len() && front[k] == id;
                assert(ids[k] == id);
            }
        } else {
            assert(ids[ids.len() - 1] == id);
        }
    }
}

// ---------------------------------------------------------------------------
// Chutes and pools
// ---------------------------------------------------------------------------

/// The chute of a model that is still remembered.
pub fn cached_chute_id(cache: &Vec<(String, (String, u64))>, model: &str, now: u64) -> (r: Option<
    String,
>)
    ensures
        match entry_of(entries(cache@), model@) {
            Some(e) => if now < e.1 {
                r is Some && r->0@ == e.0
            } else {
                r is None
            },
            None => r is None,
        },
{
    match table::lookup(cache, model) {
        Some(e) => {
            if now < e.1 {
                Some(e.0.clone())
            } else {
                None
            }
        },
        None => None,
    }
}

/// Remembers the chute of a model for five minutes.
pub fn remember_chute_id(
    cache: &mut Vec<(String, (String, u64))>,
    model: &str,
    chute_id: &str,
    now: u64,
)
    requires
        now + 300 <= u64::MAX,
    ensures
        entries(final(cache)@) == with_entry(
            entries(old(cache)@),
            model@,
            (chute_id@, (now + 300) as u64),
        ),
{
    table::insert(cache, model, (chute_id.to_string(), now + 300));
}

/// Takes a nonce out of the pool of a chute.
pub fn draw_nonce(pools: &mut Vec<(String, CachedChutesNonces)>, chute_id: &str, now: u64) -> (r:
    Option<(ChutesInstanceInfo, String)>)
    ensures
        match entry_of(entries(old(pools)@), chute_id@) {
            Some(pool) => draw_facts(r) == drawn(pool, now).0 && entries(final(pools)@)
                == with_entry(entries(old(pools)@), chute_id@, drawn(pool, now).1),
            None => r is None && entries(final(pools)@) == entries(old(pools)@),
        },
{
    let ghost before = entries(pools@);
    match table::find_name(pools, chute_id) {
        Some(i) => {
            let ghost old_pools = pools@;
            proof {
                assert(before[i as int] == (
                    old_pools[i as int].0@,
                    old_pools[i as int].1.deep_view(),
                ));
                table::lemma_place_of(before, chute_id@, 0);
            }
            let taken = pools[i].1.take_nonce(now);
            proof {
                assert(entries(pools@) =~= before.update(
                    i as int,
                    (chute_id@, drawn(before[i as int].1, now).1),
                ));
            }
            taken
        },
        None => None,
    }
}

/// Puts a pool in the place of the one that a chute had, and takes a nonce out of it.
pub fn refill_and_draw(
    pools: &mut Vec<(String, CachedChutesNonces)>,
    chute_id: &str,
    instances: Vec<ChutesInstanceInfo>,
    expires_at: u64,
    now: u64,
) -> (r: Option<(ChutesInstanceInfo, String)>)
    ensures
        draw_facts(r) == drawn((facts_of(instances@), expires_at), now).0,
        entries(final(pools)@) == with_entry(
            entries(old(pools)@),
            chute_id@,
            drawn((facts_of(instances@), expires_at), now).1,
        ),
{
    let ghost start = entries(pools@);
    let ghost pool = (facts_of(instances@), expires_at);
    let mut fresh = CachedChutesNonces::new(instances, expires_at);
    let taken = fresh.take_nonce(now);
    table::insert(pools, chute_id, fresh);
    taken
}

/// Whether some instances are others, put in the order of their keys, the earlier of two
/// with equal keys first.
pub open spec fn ordered_by(
    out: Seq<InstanceFacts>,
    v: Seq<InstanceFacts>,
    keys: Seq<u32>,
) -> bool {
    exists|p: Seq<usize>|
        #![trigger is_stable_order(p, v.len() as int, by_key(keys))]
        is_stable_order(p, v.len() as int, by_key(keys)) && out.len()
            == v.len() && forall|i: int| 0 <= i < v.len() ==> #[trigger] out[i] == v[p[i] as int]
}

/// Puts instances in the order of keys that were drawn for them.
pub fn shuffle_instances(instances: &Vec<ChutesInstanceInfo>, keys: &Vec<u32>) -> (r: Vec<
    ChutesInstanceInfo,
>)
    requires
        keys@.len() == instances@.len(),
    ensures
        ordered_by(facts_of(r@), facts_of(instances@), keys@),
{
    let n: usize = instances.len();
    let p = order_by_keys(keys);
    let ghost all = facts_of(instances@);
    let mut out: Vec<ChutesInstanceInfo> = Vec::new();
    let mut i: usize = 0;
    while i < n
        invariant
            i <= n,
            n == instances@.len(),
            all == facts_of(instances@),
            p@.len() == n,
            forall|k: int| 0 <= k < n ==> #[trigger] p@[k] < n,
            out@.len() == i,
            forall|k: int| 0 <= k < i ==> (#[trigger] out@[k]).deep_view() == all[p@[k] as int],
        decreases n - i,
    {
        proof {
            assert(p@[i as int] < n);
        }
        out.push(instances[p[i]].copy());
        i = i + 1;
    }
    proof {
        assert forall|k: int| 0 <= k < all.len() implies #[trigger] facts_of(out@)[k]
            == all[p@[k] as int] by {
            assert(facts_of(out@)[k] == out@[k].deep_view());
        }
        assert(is_stable_order(p@, all.len() as int, by_key(keys@)));
    }
    out
}

// ---------------------------------------------------------------------------
// Trying again
// ---------------------------------------------------------------------------

/// What becomes of one try.
pub enum Attempt {
    /// The answer is there.
    Answered,
    /// Another instance may do better.
    Retry(String),
    /// No instance will.
    GiveUp(String),
}

/// Whether a status means success.
pub open spec fn is_success(status: u16) -> bool {
    200 <= status && status <= 299
}

/// Whether a status is worth another try.
pub open spec fn is_retryable(status: u16) -> bool {
    (500 <= status && status <= 599) || status == 429 || status == 408
}

/// Judges a try by the status of its answer. `shown` is the status as it is shown.
pub fn judge_status(status: u16, shown: &str, body: &str) -> (r: Attempt)
    ensures
        is_success(status) <==> r is Answered,
        !is_success(status) ==> (is_retryable(status) <==> r is Retry),
        r is Retry ==> r->Retry_0@ == shown@ + " - "@ + body@,
        r is GiveUp ==> r->GiveUp_0@ == shown@ + " - "@ + body@,
{
    if status >= 200 && status < 300 {
        return Attempt::Answered;
    }
    let error = text::cat3(shown, " - ", body);
    if (status >= 500 && status < 600) || status == 429 || status == 408 {
        Attempt::Retry(error)
    } else {
        Attempt::GiveUp(error)
    }
}

/// How often a call has been tried, and why the last try failed.
pub struct Tries {
    pub count: u8,
    pub last_error: String,
}

/// The most tries of a call.
pub const MAX_TRIES: u8 = 5;

impl Tries {
    /// Nothing has been tried yet.
    pub fn new() -> (r: Self)
        ensures
            r.count == 0,
            r.last_error@ == ""@,
    {
        Tries { count: 0, last_error: "".to_string() }
    }

    /// Begins another try, if one is left.
    pub fn begin(&mut self) -> (r: bool)
        ensures
            r == (old(self).count < MAX_TRIES),
            r ==> final(self).count == old(self).count + 1,
            !r ==> final(self).count == old(self).count,
            final(self).last_error@ == old(self).last_error@,
    {
        if self.count < MAX_TRIES {
            self.count = self.count + 1;
            true
        } else {
            false
        }
    }

    /// Notes why a try failed.
    pub fn failed(&mut self, error: String)
        ensures
            final(self).count == old(self).count,
            final(self).last_error@ == error@,
    {
        self.last_error = error;
    }

    /// What is said once no try is left.
    pub fn exhausted(&self) -> (r: String)
        ensures
            r@ == "All instances failed. Last error: "@ + self.last_error@,
    {
        text::cat2("All instances failed. Last error: ", self.last_error.as_str())
    }
}

/// What is said of an instance that is not trusted.
pub fn untrusted_instance(id: &str) -> (r: String)
    ensures
        r@ == "FATAL: Instance "@ + id@ + " has no valid TEE attestation."@,
{
    text::cat3("FATAL: Instance ", id, " has no valid TEE attestation.")
}

// ---------------------------------------------------------------------------
// Streams
// ---------------------------------------------------------------------------

/// What to do after a line of a stream.
pub enum StreamStep {
    /// Nothing.
    Skip,
    /// An event has been decrypted: its text is to be read as JSON.
    Event(String),
    /// The event itself tells the usage, in the clear.
    Usage,
    /// Say this, and end the stream.
    Fail(String),
    /// The stream is at its end.
    Done,
}

/// What a step says.
pub enum StepKind {
    Skip,
    Event(Seq<char>),
    Usage,
    Fail(Seq<char>),
    Done,
}

impl StreamStep {
    /// What the step says.
    pub open spec fn view(&self) -> StepKind {
        match *self {
            StreamStep::Skip => StepKind::Skip,
            StreamStep::Event(s) => StepKind::Event(s@),
            StreamStep::Usage => StepKind::Usage,
            StreamStep::Fail(s) => StepKind::Fail(s@),
            StreamStep::Done => StepKind::Done,
        }
    }
}

/// The JSON text of a decrypted event, with or without the mark of a data line.
pub open spec fn event_text(plain: Seq<char>) -> Seq<char> {
    let t = trimmed(plain);
    if has_prefix(t, "data: "@) {
        t.skip(6)
    } else {
        t
    }
}

/// What a line means to a stream whose key is known or not, and the key afterwards.
pub open spec fn stream_step_of(
    key: Option<Seq<u8>>,
    secret: Seq<u8>,
    line: LineKind,
    event: Option<JsonValue>,
) -> (StepKind, Option<Seq<u8>>) {
    match (line, event) {
        (LineKind::Done, _) => (StepKind::Done, key),
        (LineKind::Data(_), Some(e)) => match text_at(e, "e2e_init"@) {
            Some(ciphertext) => match stream_key_outcome(secret, ciphertext) {
                Ok(k) => (StepKind::Skip, Some(k)),
                Err(m) => (
                    StepKind::Fail("data: {\"error\":\"stream init failed: "@ + m + "\"}\n\n"@),
                    key,
                ),
            },
            None => match text_at(e, "e2e"@) {
                Some(chunk) => match key {
                    None => (
                        StepKind::Fail("data: {\"error\":\"e2e chunk before init\"}\n\n"@),
                        key,
                    ),
                    Some(k) => match chunk_outcome(chunk, k) {
                        Ok(plain) => (StepKind::Event(event_text(plain)), key),
                        Err(_) => (StepKind::Skip, key),
                    },
                },
                None => if e.get("usage"@) is Some {
                    (StepKind::Usage, key)
                } else {
                    (StepKind::Skip, key)
                },
            },
        },
        _ => (StepKind::Skip, key),
    }
}

/// The bytes of a key, if there is one.
pub open spec fn key_bytes(key: Option<StreamKey>) -> Option<Seq<u8>> {
    match key {
        Some(k) => Some(k.bytes@),
        None => None,
    }
}

/// Reads the JSON text of a decrypted event.
pub fn read_event_text(plain: &str) -> (r: String)
    ensures
        r@ == event_text(plain@),
{
    let t = text::trim(plain);
    if text::starts_with(t.as_str(), "data: ") {
        let v = chars_of(t.as_str());
        proof {
            reveal_strlit("data: ");
            assert(t@.subrange(6, t@.len() as int) =~= t@.skip(6));
        }
        string_of(v.as_slice(), 6, v.len())
    } else {
        t
    }
}

/// Decides what a line means. `event` is the content of a data line, read as JSON.
pub fn on_stream_line(
    key: &mut Option<StreamKey>,
    response_sk: &[u8],
    line: &Line,
    event: &Option<Json>,
) -> (r: StreamStep)
    ensures
        (r@, key_bytes(*final(key))) == stream_step_of(
            key_bytes(*old(key)),
            response_sk@,
            line@,
            told(*event),
        ),
{
    let e = match (line, event) {
        (Line::Done, _) => {
            return StreamStep::Done;
        },
        (Line::Data(_), Some(e)) => e,
        _ => {
            return StreamStep::Skip;
        },
    };
    if let Some(ciphertext) = e.text_at("e2e_init") {
        return match decrypt_stream_init(response_sk, ciphertext.as_str()) {
            Ok(k) => {
                *key = Some(k);
                StreamStep::Skip
            },
            Err(m) => StreamStep::Fail(
                text::cat3("data: {\"error\":\"stream init failed: ", m.as_str(), "\"}\n\n"),
            ),
        };
    }
    if let Some(chunk) = e.text_at("e2e") {
        return match &*key {
            None => StreamStep::Fail(
                "data: {\"error\":\"e2e chunk before init\"}\n\n".to_string(),
            ),
            Some(k) => match decrypt_stream_chunk(chunk.as_str(), &k.bytes) {
                Ok(plain) => StreamStep::Event(read_event_text(plain.as_str())),
                Err(_) => StreamStep::Skip,
            },
        };
    }
    match e.get("usage") {
        Some(_) => StreamStep::Usage,
        None => StreamStep::Skip,
    }
}

/// What is said where a stream cannot be read on.
pub fn stream_read_failure(error: &str) -> (r: String)
    ensures
        r@ == "data: {\"error\":\"stream read failed: "@ + error@ + "\"}\n\n"@,
{
    text::cat3("data: {\"error\":\"stream read failed: ", error, "\"}\n\n")
}

/// No piece of a stream is passed on before its key is known.
pub proof fn law_nothing_is_read_before_its_key(
    secret: Seq<u8>,
    line: LineKind,
    event: Option<JsonValue>,
)
    ensures
        !(stream_step_of(None, secret, line, event).0 is Event),
{
}

} // verus!
