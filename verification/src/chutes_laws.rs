//! The instances of a chute: which of them is asked, with which nonce, and for how long.

use vstd::prelude::*;

use crate::chutes::chute_of;
use crate::chutes::drawn;
use crate::chutes::first_supplied;
use crate::chutes::instances_among;
use crate::chutes::texts_among;
use crate::chutes::ttl_of;
use crate::chutes::InstanceFacts;
use crate::chutes_call::is_retryable;
use crate::chutes_call::is_success;
use crate::chutes_call::ordered_by;
use crate::chutes_call::sifted;
use crate::chutes_call::trusted;
use crate::chutes_flow::after_reply;
use crate::chutes_flow::go_on;
use crate::chutes_flow::settled;
use crate::chutes_flow::CallFacts;
use crate::chutes_flow::Memory;
use crate::chutes_flow::Next;
use crate::chutes_flow::Reply;
use crate::json::elements_at;
use crate::json::text_at;
use crate::json::unsigned_at;
use crate::json::JsonValue;
use crate::order::by_key;
use crate::order::is_listed;
use crate::order::is_stable_order;
use crate::request_laws::first_says;
use crate::request_laws::law_first_entry_counts;
use crate::request_laws::says_nothing;
use crate::table::entry_of;
use crate::table::law_table_keeps_what_it_is_given;

verus! {

/// The nonce that is drawn is the last of the first instance that has any; it is gone then,
/// and nothing else is. A pool that has expired gives none, and neither does an empty one.
pub proof fn law_nonces_are_drawn_in_turn(
    v: Seq<InstanceFacts>,
    expires: u64,
    now: u64,
    i: int,
    j: int,
)
    ensures
        now >= expires ==> drawn((v, expires), now) == (None::<(InstanceFacts, Seq<char>)>, (v, expires)),
        (forall|k: int| 0 <= k < v.len() ==> (#[trigger] v[k]).nonces.len() == 0) ==> drawn(
            (v, expires),
            now,
        ).0 is None && drawn((v, expires), now).1 == (v, expires),
        now < expires && 0 <= i < v.len() && v[i].nonces.len() > 0 && (forall|k: int|
            0 <= k < i ==> (#[trigger] v[k]).nonces.len() == 0) ==> {
            let (d, after) = drawn((v, expires), now);
            &&& d is Some
            &&& (d->0).1 == v[i].nonces[v[i].nonces.len() - 1]
            &&& (d->0).0.id == v[i].id
            &&& (d->0).0.pubkey == v[i].pubkey
            &&& after.1 == expires
            &&& after.0.len() == v.len()
            &&& after.0[i].id == v[i].id && after.0[i].pubkey == v[i].pubkey
            &&& after.0[i].nonces == v[i].nonces.take(v[i].nonces.len() - 1)
            &&& 0 <= j < v.len() && j != i ==> after.0[j] == v[j]
        },
{
    lemma_first_supplied(v, 0);
    if 0 <= i < v.len() && v[i].nonces.len() > 0 && (forall|k: int|
        0 <= k < i ==> (#[trigger] v[k]).nonces.len() == 0) {
        let f = first_supplied(v, 0)->0;
        assert(f == i) by {
            if f < i {
                assert(v[f].nonces.len() == 0);
            }
        }
        assert(v[i].nonces.drop_last() =~= v[i].nonces.take(v[i].nonces.len() - 1));
    }
}

proof fn lemma_first_supplied(v: Seq<InstanceFacts>, from: int)
    requires
        0 <= from,
    ensures
        match first_supplied(v, from) {
            Some(f) => from <= f < v.len() && v[f].nonces.len() > 0 && forall|k: int|
                from <= k < f ==> (#[trigger] v[k]).nonces.len() == 0,
            None => forall|k: int| from <= k < v.len() ==> (#[trigger] v[k]).nonces.len() == 0,
        },
    decreases v.len() - from,
{
    if from < v.len() && v[from].nonces.len() == 0 {
        lemma_first_supplied(v, from + 1);
    }
}

/// An instance is read with its name, its key and those of its nonces that are texts; one that
/// lacks any of the three is passed over; and nonces are good for as long as is told, or fifty
/// seconds.
pub proof fn law_instances_are_read(
    list: Seq<JsonValue>,
    entry: JsonValue,
    id: Seq<char>,
    key: Seq<char>,
    nonces: Seq<JsonValue>,
    more: JsonValue,
    nonce: Seq<char>,
)
    ensures
        text_at(entry, "instance_id"@) == Some(id) && text_at(entry, "e2e_pubkey"@) == Some(key)
            && elements_at(entry, "nonces"@) == Some(nonces) ==> instances_among(list.push(entry))
            == instances_among(list).push(
            InstanceFacts { id, pubkey: key, nonces: texts_among(nonces) },
        ),
        text_at(entry, "instance_id"@) is None || text_at(entry, "e2e_pubkey"@) is None
            || elements_at(entry, "nonces"@) is None ==> instances_among(list.push(entry))
            == instances_among(list),
        texts_among(nonces.push(JsonValue::Str(nonce))) == texts_among(nonces).push(nonce),
        !(more is Str) ==> texts_among(nonces.push(more)) == texts_among(nonces),
        texts_among(seq![]).len() == 0,
        instances_among(seq![]).len() == 0,
        unsigned_at(entry, "nonce_expires_in"@) matches Some(n) ==> ttl_of(entry) == n,
        unsigned_at(entry, "nonce_expires_in"@) is None ==> ttl_of(entry) == 50,
{
    assert(list.push(entry).drop_last() =~= list);
    assert(nonces.push(more).drop_last() =~= nonces);
    assert(nonces.push(JsonValue::Str(nonce)).drop_last() =~= nonces);
    assert(list.push(entry).last() == entry);
    assert(nonces.push(JsonValue::Str(nonce)).last() == JsonValue::Str(nonce));
    assert(nonces.push(more).last() == more);
}

/// Whether an entry says which chute serves a model.
pub open spec fn tells_chute(entry: JsonValue, model: Seq<char>) -> bool {
    &&& text_at(entry, "id"@) == Some(model)
    &&& text_at(entry, "chute_id"@) matches Some(c) && c.len() > 0
}

/// A model is served by the chute that the first entry tells that has its name and a chute.
pub proof fn law_first_chute_serves(v: Seq<JsonValue>, model: Seq<char>, from: int, at: int)
    requires
        model.len() > 0,
        0 <= from <= at <= v.len(),
        forall|j: int| from <= j < at ==> !tells_chute(#[trigger] v[j], model),
        at < v.len() ==> tells_chute(v[at], model),
    ensures
        at < v.len() ==> chute_of(v, model, from) == text_at(v[at], "chute_id"@),
        at == v.len() ==> chute_of(v, model, from) is None,
    decreases at - from,
{
    reveal_strlit("");
    if from < at {
        assert(!tells_chute(v[from], model));
        law_first_chute_serves(v, model, from + 1, at);
    }
}

/// Of some instances exactly the trusted ones are kept, and exactly the others are to be
/// checked, each in its place.
pub proof fn law_instances_are_sifted(
    v: Seq<InstanceFacts>,
    known: Seq<(Seq<char>, u64)>,
    now: u64,
    i: InstanceFacts,
    until: u64,
)
    ensures
        sifted(seq![], known, now, true).len() == 0,
        sifted(seq![], known, now, false).len() == 0,
        first_says(known, i.id, until) && now < until ==> sifted(v.push(i), known, now, true)
            == sifted(v, known, now, true).push(i) && sifted(v.push(i), known, now, false)
            == sifted(v, known, now, false),
        first_says(known, i.id, until) && now >= until ==> sifted(v.push(i), known, now, true)
            == sifted(v, known, now, true) && sifted(v.push(i), known, now, false) == sifted(
            v,
            known,
            now,
            false,
        ).push(i),
        says_nothing(known, i.id) ==> sifted(v.push(i), known, now, true) == sifted(
            v,
            known,
            now,
            true,
        ) && sifted(v.push(i), known, now, false) == sifted(v, known, now, false).push(i),
{
    assert(v.push(i).drop_last() =~= v);
    assert(v.push(i).last() == i);
    law_first_entry_counts(known, i.id, until);
}

/// Putting instances in order loses none of them and adds none, and puts smaller keys first.
pub proof fn law_shuffling_keeps_all(
    out: Seq<InstanceFacts>,
    v: Seq<InstanceFacts>,
    keys: Seq<u32>,
    x: InstanceFacts,
)
    requires
        ordered_by(out, v, keys),
        keys.len() == v.len(),
    ensures
        out.len() == v.len(),
        out.contains(x) <==> v.contains(x),
{
    let p = choose|p: Seq<usize>|
        #![trigger is_stable_order(p, v.len() as int, by_key(keys))]
        is_stable_order(p, v.len() as int, by_key(keys)) && out.len() == v.len() && forall|i: int|
            0 <= i < v.len() ==> #[trigger] out[i] == v[p[i] as int];
    if out.contains(x) {
        let i = choose|i: int| 0 <= i < out.len() && out[i] == x;
        assert(p[i] < v.len());
        assert(v[p[i] as int] == x);
    }
    if v.contains(x) {
        let k = choose|k: int| 0 <= k < v.len() && v[k] == x;
        assert(is_listed(p, k));
        let i = choose|i: int| 0 <= i < p.len() && p[i] == k;
        assert(out[i] == v[p[i] as int]);
    }
}

/// The next try: after five nothing more is tried; without a pool, or with one that gives no
/// nonce, instances are fetched; and an instance that is trusted is asked with the nonce that
/// was drawn for it, which is then gone from the pool.
pub proof fn law_tries_follow_the_pool(
    c: CallFacts,
    m: Memory,
    clock: u64,
    pool: (Seq<InstanceFacts>, u64),
    other: Seq<char>,
)
    ensures
        c.count >= 5 ==> go_on(c, m, clock).2 == Next::Fail(
            "All instances failed. Last error: "@ + c.last,
        ),
        c.count < 5 && says_nothing(m.pools, c.chute) ==> go_on(c, m, clock).2 is Fetch && go_on(
            c,
            m,
            clock,
        ).1 == m && go_on(c, m, clock).0.count == c.count + 1,
        c.count < 5 && first_says(m.pools, c.chute, pool) ==> {
            let (d, left) = drawn(pool, clock);
            let r = go_on(c, m, clock);
            &&& d is None ==> r.2 is Fetch && r.0.count == c.count + 1
            &&& d is Some && trusted(m.known, (d->0).0.id, c.began) ==> {
                &&& r.2 == Next::Invoke((d->0).0, (d->0).1)
                &&& r.0.count == c.count + 1
                &&& entry_of(r.1.pools, c.chute) == Some(left)
                &&& other != c.chute ==> entry_of(r.1.pools, other) == entry_of(m.pools, other)
                &&& r.1.known == m.known && r.1.chutes == m.chutes
            }
        },
{
    law_first_entry_counts(m.pools, c.chute, pool);
    law_table_keeps_what_it_is_given(m.pools, c.chute, drawn(pool, clock).1, other);
}

/// Once instances have been checked: where none is trusted the call fails; else the first with
/// a nonce is asked, and the pool is what is left of them.
pub proof fn law_checked_instances_are_asked(
    c: CallFacts,
    m: Memory,
    out: Seq<InstanceFacts>,
    clock: u64,
)
    ensures
        out.len() == 0 ==> settled(c, m, out, clock).2 == Next::Fail(
            "FATAL: No instances were successfully verified. Aborting."@,
        ) && settled(c, m, out, clock).1 == m,
        out.len() > 0 ==> {
            let (d, left) = drawn((out, c.expires), clock);
            let r = settled(c, m, out, clock);
            &&& d is None ==> r.2 is Stuck
            &&& d is Some && trusted(m.known, (d->0).0.id, c.began) ==> {
                &&& r.2 == Next::Invoke((d->0).0, (d->0).1)
                &&& r.0 == c
                &&& entry_of(r.1.pools, c.chute) == Some(left)
            }
        },
{
    law_table_keeps_what_it_is_given(
        m.pools,
        c.chute,
        drawn((out, c.expires), clock).1,
        c.chute,
    );
}

/// What becomes of a reply: a success ends the call, an error of the instance, a timeout and
/// too many requests lead to another try, and so does silence; anything else fails the call
/// with the status and the text.
pub proof fn law_replies_are_judged(
    c: CallFacts,
    m: Memory,
    status: u16,
    shown: String,
    body: String,
    error: String,
    clock: u64,
)
    ensures
        is_success(status) <==> 200 <= status < 300,
        is_retryable(status) <==> 500 <= status < 600 || status == 429 || status == 408,
        200 <= status < 300 ==> after_reply(c, m, Reply::Status(status, shown, body), clock) == (
            c,
            m,
            Next::Finish,
        ),
        500 <= status < 600 || status == 429 || status == 408 ==> after_reply(
            c,
            m,
            Reply::Status(status, shown, body),
            clock,
        ) == go_on(CallFacts { last: shown@ + " - "@ + body@, ..c }, m, clock),
        !(200 <= status < 300) && !(500 <= status < 600) && status != 429 && status != 408
            ==> after_reply(c, m, Reply::Status(status, shown, body), clock).2 == Next::Fail(
            shown@ + " - "@ + body@,
        ),
        after_reply(c, m, Reply::Nothing(error), clock) == go_on(
            CallFacts { last: "Chutes E2EE network error: "@ + error@, ..c },
            m,
            clock,
        ),
{
}

} // verus!
