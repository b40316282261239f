//! Who is asked, in which order, and for how long a provider that failed is left alone.

use vstd::prelude::*;

use crate::admission::Admitted;
use crate::admission::Refused;
use crate::failover::next_open;
use crate::failover::notice_of;
use crate::health::after_failure;
use crate::health::cooldown_of;
use crate::health::failure_of;
use crate::health::failure_with_status;
use crate::health::held_back;
use crate::health::retry_after_of;
use crate::health::Failure;
use crate::health::ProviderHealthState;
use crate::order::by_key;
use crate::order::is_listed;
use crate::order::is_stable_order;
use crate::redaction_roundtrip::lemma_decimal;
use crate::request_laws::first_says;
use crate::request_laws::law_first_entry_counts;
use crate::request_laws::says_nothing;
use crate::selection::arrangement_of;
use crate::selection::choice_of;
use crate::selection::completion_headers;
use crate::selection::demands_of;
use crate::selection::dialect_of;
use crate::selection::fit;
use crate::selection::provider_named;
use crate::selection::refusal_of;
use crate::selection::sorted_by;
use crate::selection::unnamed;
use crate::selection::wanted;
use crate::selection::wanted_at;
use crate::selection::Arrangement;
use crate::selection::Demands;
use crate::selection::Dialect;
use crate::selection::Offer;
use crate::stream_laws::blank;
use crate::stream_laws::law_white_space_is_taken_off;
use crate::text::decimal;
use crate::text::find_char;
use crate::text::find_from;
use crate::text::lemma_find_char;
use crate::text::lemma_find_from;
use crate::text::occurs_at;
use crate::text::parsed_u64;
use crate::text::trimmed;
use crate::text::unicode_whitespace;

verus! {

// ---------------------------------------------------------------------------
// Health
// ---------------------------------------------------------------------------

/// Whether a text stands in another between two others.
pub open spec fn stands_in(part: Seq<char>, s: Seq<char>) -> bool {
    exists|before: Seq<char>, after: Seq<char>| s == #[trigger] (before + part + after)
}

pub proof fn lemma_stands_in(part: Seq<char>, s: Seq<char>)
    ensures
        stands_in(part, s) <==> crate::text::has_text(s, part),
{
    if stands_in(part, s) {
        let (before, after) = choose|before: Seq<char>, after: Seq<char>|
            s == #[trigger] (before + part + after);
        let i = before.len() as int;
        assert(s.subrange(i, i + part.len()) =~= part);
        assert(occurs_at(s, part, i));
    }
    if crate::text::has_text(s, part) {
        let i = choose|i: int| occurs_at(s, part, i);
        let before = s.take(i);
        let after = s.skip(i + part.len());
        assert(s =~= before + s.subrange(i, i + part.len()) + after);
        assert(s == before + part + after);
    }
}

/// Whether an error tells of a bad request.
pub open spec fn tells_bad_request(error: Seq<char>) -> bool {
    stands_in(" 400 "@, error) || stands_in("400 Bad Request"@, error)
}

/// Whether an error tells of too many requests.
pub open spec fn tells_too_many(error: Seq<char>) -> bool {
    stands_in(" 429 "@, error) || stands_in("429 Too Many Requests"@, error)
}

/// An error that tells of a bad request is taken for one, whatever else it says; of the
/// others, one that tells of too many requests is taken for that. A status says the same as
/// the text.
pub proof fn law_errors_are_told_apart(error: Seq<char>, status: u16)
    ensures
        failure_of(error) is BadRequest <==> tells_bad_request(error),
        failure_of(error) is RateLimited <==> !tells_bad_request(error) && tells_too_many(error),
        failure_of(error) is Other <==> !tells_bad_request(error) && !tells_too_many(error),
        status != 400 && status != 429 ==> failure_with_status(status, error) == failure_of(error),
        failure_with_status(400, error) is BadRequest,
        !tells_bad_request(error) ==> failure_with_status(429, error) is RateLimited,
        tells_bad_request(error) ==> failure_with_status(429, error) is BadRequest,
{
    lemma_stands_in(" 400 "@, error);
    lemma_stands_in("400 Bad Request"@, error);
    lemma_stands_in(" 429 "@, error);
    lemma_stands_in("429 Too Many Requests"@, error);
}

/// A text that does not stand in what comes before it, however much of itself follows, is
/// found right behind that.
pub proof fn lemma_found_behind(before: Seq<char>, p: Seq<char>, rest: Seq<char>)
    requires
        p.len() > 0,
        !stands_in(p, before + p.drop_last()),
    ensures
        find_from(before + p + rest, p, 0) == Some(before.len() as int),
{
    let s = before + p + rest;
    let at = before.len() as int;
    let short = before + p.drop_last();
    lemma_find_from(s, p, 0);
    assert(s.subrange(at, at + p.len()) =~= p);
    assert(occurs_at(s, p, at));
    let i = find_from(s, p, 0)->0;
    if i < at {
        assert(short.subrange(i, i + p.len()) =~= s.subrange(i, i + p.len()));
        assert(occurs_at(short, p, i));
        lemma_stands_in(p, short);
    }
}

proof fn lemma_number_is_read(
    gap: Seq<char>,
    d: Seq<char>,
    tail: Seq<char>,
    after: Seq<char>,
    n: u64,
)
    requires
        d == decimal(n as nat),
        blank(gap),
        blank(tail),
        !unicode_whitespace(']'),
        forall|c: char| '0' <= c <= '9' ==> !#[trigger] unicode_whitespace(c),
    ensures
        find_char(gap + d + tail + seq![']'] + after, ']', 0) == Some(
            (gap + d + tail).len() as int,
        ),
        parsed_u64(trimmed(gap + d + tail)) == Some(n),
{
    lemma_decimal(n as nat);
    let inside = gap + d + tail;
    let rest = inside + seq![']'] + after;
    lemma_find_char(rest, ']', 0);
    assert(rest[inside.len() as int] == ']');
    let j = find_char(rest, ']', 0)->0;
    if j < inside.len() {
        assert(rest[j] == inside[j]);
        if j < gap.len() {
            assert(unicode_whitespace(gap[j]));
        } else if j < gap.len() + d.len() {
            assert(crate::text::is_digit(d[j - gap.len()]));
        } else {
            assert(unicode_whitespace(tail[j - gap.len() - d.len()]));
        }
    }
    assert(crate::text::is_digit(d[0]) && crate::text::is_digit(d[d.len() - 1]));
    assert(!unicode_whitespace(d[0]) && !unicode_whitespace(d.last()));
    law_white_space_is_taken_off(gap, d, tail);
}

/// The seconds that an error asks to wait are the number between the first "Retry-After: "
/// and the next bracket that closes, with or without white space around it.
pub proof fn law_wait_is_read(
    before: Seq<char>,
    gap: Seq<char>,
    tail: Seq<char>,
    after: Seq<char>,
    n: u64,
)
    requires
        !stands_in("Retry-After: "@, before + "Retry-After:"@),
        blank(gap),
        blank(tail),
        !unicode_whitespace(']'),
        forall|c: char| '0' <= c <= '9' ==> !#[trigger] unicode_whitespace(c),
    ensures
        retry_after_of(
            before + "Retry-After: "@ + (gap + decimal(n as nat) + tail + seq![']'] + after),
        ) == Some(n),
{
    let p = "Retry-After: "@;
    let d = decimal(n as nat);
    let inside = gap + d + tail;
    let rest = inside + seq![']'] + after;
    let s = before + p + rest;
    assert(p.len() == 13 && p.drop_last() =~= "Retry-After:"@) by {
        reveal_strlit("Retry-After: ");
        reveal_strlit("Retry-After:");
    }
    lemma_found_behind(before, p, rest);
    assert(s.skip(before.len() as int + 13) =~= rest);
    lemma_number_is_read(gap, d, tail, after, n);
    assert(rest.take(inside.len() as int) =~= inside);
}

/// Where nothing tells how long to wait, nothing is read.
pub proof fn law_no_wait_without_its_mark(error: Seq<char>)
    requires
        !stands_in("Retry-After: "@, error),
    ensures
        retry_after_of(error) is None,
{
    lemma_stands_in("Retry-After: "@, error);
    lemma_find_from(error, "Retry-After: "@, 0);
    match find_from(error, "Retry-After: "@, 0) {
        Some(i) => {
            assert(occurs_at(error, "Retry-After: "@, i));
        },
        None => {},
    }
}

/// After the n-th failure in a row a provider is left alone for as long as it asks, else for
/// n minutes, fifteen at most, where it wants fewer requests; for half a minute at any other
/// failure; and not at all where the request was bad.
pub proof fn law_waits_are_counted_in_minutes(error: Seq<char>, n: int)
    requires
        n >= 1,
    ensures
        cooldown_of(Failure::BadRequest, error, n) == 0,
        cooldown_of(Failure::Other, error, n) == 30,
        retry_after_of(error) matches Some(s) ==> cooldown_of(Failure::RateLimited, error, n) == s,
        retry_after_of(error) is None && n <= 15 ==> cooldown_of(Failure::RateLimited, error, n)
            == 60 * n,
        retry_after_of(error) is None && n >= 15 ==> cooldown_of(Failure::RateLimited, error, n)
            == 900,
{
}

/// A failure of its own counts against a provider, one by one, and holds it back from then
/// on until the wait is over; a bad request clears it.
pub proof fn law_failures_count(
    h: ProviderHealthState,
    failure: Failure,
    error: Seq<char>,
    now: u64,
    later: u64,
)
    requires
        h.consecutive_errors < u32::MAX,
        now + cooldown_of(failure, error, h.consecutive_errors + 1) <= u64::MAX,
    ensures
        failure is BadRequest ==> after_failure(h, failure, error, now).consecutive_errors == 0
            && after_failure(h, failure, error, now).rate_limited_until is None,
        !(failure is BadRequest) ==> after_failure(h, failure, error, now).consecutive_errors
            == h.consecutive_errors + 1 && after_failure(h, failure, error, now).rate_limited_until
            == Some((now + cooldown_of(failure, error, h.consecutive_errors + 1)) as u64),
        h.rate_limited_until matches Some(t) ==> (held_back(h, later) <==> later < t),
        h.rate_limited_until is None ==> !held_back(h, later),
{
}

/// The client is told which provider failed and with which of three kinds of error, and
/// nothing of the error itself.
pub proof fn law_notices_name_the_kind(id: Seq<char>, error: Seq<char>)
    ensures
        notice_of(id, failure_of(error)) == "Provider '"@ + id
            + "' encountered an internal or upstream error ("@ + (if tells_bad_request(error) {
            "400"@
        } else if tells_too_many(error) {
            "429"@
        } else {
            "Unknown/500"@
        }) + ")"@,
{
    law_errors_are_told_apart(error, 0);
}

/// Nobody who is not held back is passed over: the next to be asked is the first, from where
/// the order was left, to whom something may be sent, and nobody is asked where there is none.
pub proof fn law_first_open_provider_is_next(
    order: Seq<usize>,
    health: Seq<ProviderHealthState>,
    now: u64,
    from: int,
    k: int,
)
    requires
        0 <= from <= k <= order.len(),
        forall|j: int| from <= j < k ==> held_back(health[#[trigger] order[j] as int], now),
        k < order.len() ==> !held_back(health[order[k] as int], now),
    ensures
        next_open(order, health, now, from) == k,
    decreases k - from,
{
    if from < k {
        assert(held_back(health[order[from] as int], now));
        law_first_open_provider_is_next(order, health, now, from + 1, k);
    }
}

// ---------------------------------------------------------------------------
// Selection
// ---------------------------------------------------------------------------

/// Whether a provider has all that a request asks for.
pub open spec fn has_all_asked(p: Offer, d: Demands) -> bool {
    &&& (d.zdr != Some(true) || p.zdr)
    &&& (d.zds != Some(true) || p.zds)
    &&& (d.tee != Some(true) || p.tee)
    &&& (!d.passing || p.id == "near-ai"@)
}

/// Whether `i` is the first place of a provider of a name.
pub open spec fn is_first_named(v: Seq<Offer>, id: Seq<char>, i: int) -> bool {
    0 <= i < v.len() && v[i].id == id && forall|j: int| 0 <= j < i ==> (#[trigger] v[j]).id != id
}

pub proof fn lemma_provider_named(v: Seq<Offer>, id: Seq<char>, from: int)
    requires
        0 <= from,
        forall|j: int| 0 <= j < from && j < v.len() ==> (#[trigger] v[j]).id != id,
    ensures
        match provider_named(v, id, from) {
            Some(i) => is_first_named(v, id, i),
            None => forall|j: int| 0 <= j < v.len() ==> (#[trigger] v[j]).id != id,
        },
    decreases v.len() - from,
{
    if from < v.len() && v[from].id != id {
        lemma_provider_named(v, id, from + 1);
    }
}

/// Whether a place of a provider counts among those of some names.
pub open spec fn is_fitting(
    ids: Seq<Seq<char>>,
    v: Seq<Offer>,
    d: Demands,
    k: int,
    i: int,
) -> bool {
    0 <= k < ids.len() && is_first_named(v, ids[k], i) && has_all_asked(v[i], d)
}

/// Of the providers that offer a model exactly those are found that have all that is asked
/// for.
pub proof fn law_all_fitting_providers_are_found(
    ids: Seq<Seq<char>>,
    v: Seq<Offer>,
    d: Demands,
    i: int,
)
    ensures
        fit(ids, v, d).contains(i) <==> exists|k: int| is_fitting(ids, v, d, k, i),
        fit(ids, v, d).len() <= ids.len(),
    decreases ids.len(),
{
    if ids.len() == 0 {
        assert(!fit(ids, v, d).contains(i));
    } else {
        let front = ids.drop_last();
        let before = fit(front, v, d);
        let all = fit(ids, v, d);
        law_all_fitting_providers_are_found(front, v, d, i);
        lemma_provider_named(v, ids.last(), 0);
        if all.contains(i) {
            let x = choose|x: int| 0 <= x < all.len() && all[x] == i;
            if x < before.len() {
                assert(before[x] == i);
                assert(before.contains(i));
                let k = choose|k: int| is_fitting(front, v, d, k, i);
                assert(front[k] == ids[k]);
                assert(is_fitting(ids, v, d, k, i));
            } else {
                assert(is_fitting(ids, v, d, ids.len() - 1, i));
            }
        }
        if exists|k: int| is_fitting(ids, v, d, k, i) {
            let k = choose|k: int| is_fitting(ids, v, d, k, i);
            if k < front.len() {
                assert(front[k] == ids[k]);
                assert(is_fitting(front, v, d, k, i));
                assert(before.contains(i));
                let x = choose|x: int| 0 <= x < before.len() && before[x] == i;
                assert(all[x] == i);
            } else {
                let f = provider_named(v, ids.last(), 0)->0;
                assert(f == i) by {
                    if f < i {
                        assert(v[f].id != ids.last());
                    } else if i < f {
                        assert(v[i].id != ids.last());
                    }
                }
                assert(all[before.len() as int] == i);
            }
        }
    }
}

/// They are found in the order in which the model names them: where all fit, the k-th found
/// is the k-th named.
pub proof fn law_providers_are_found_in_order(
    ids: Seq<Seq<char>>,
    v: Seq<Offer>,
    d: Demands,
    at: Seq<int>,
)
    requires
        at.len() == ids.len(),
        forall|k: int| 0 <= k < ids.len() ==> is_fitting(ids, v, d, k, #[trigger] at[k]),
    ensures
        fit(ids, v, d) == at,
    decreases ids.len(),
{
    if ids.len() > 0 {
        let front = ids.drop_last();
        let part = at.drop_last();
        assert forall|k: int| 0 <= k < front.len() implies is_fitting(
            front,
            v,
            d,
            k,
            #[trigger] part[k],
        ) by {
            assert(is_fitting(ids, v, d, k, at[k]));
        }
        law_providers_are_found_in_order(front, v, d, part);
        let n = ids.len() - 1;
        assert(is_fitting(ids, v, d, n, at[n]));
        lemma_provider_named(v, ids.last(), 0);
        let f = provider_named(v, ids.last(), 0)->0;
        assert(f == at[n]) by {
            if provider_named(v, ids.last(), 0) is None {
                assert(v[at[n]].id != ids.last());
            } else if f < at[n] {
                assert(v[f].id != ids.last());
            } else if at[n] < f {
                assert(v[at[n]].id != ids.last());
            }
        }
        assert(fit(ids, v, d) =~= at);
    } else {
        assert(fit(ids, v, d) =~= at);
    }
}

proof fn lemma_wanted_is(c: Seq<int>, v: Seq<Offer>, id: Seq<char>, from: int)
    requires
        0 <= from,
    ensures
        match wanted_at(c, v, id, from) {
            Some(i) => v[i].id == id && exists|x: int| from <= x < c.len() && c[x] == i,
            None => forall|x: int| from <= x < c.len() ==> v[#[trigger] c[x]].id != id,
        },
    decreases c.len() - from,
{
    if from < c.len() && v[c[from]].id != id {
        lemma_wanted_is(c, v, id, from + 1);
    }
}

/// Providers that the client names are chosen in the order of their names, each name for the
/// provider that has it, as long as all of them are to be had.
pub proof fn law_named_providers_come_as_named(
    list: Seq<Seq<char>>,
    n: int,
    c: Seq<int>,
    v: Seq<Offer>,
)
    requires
        0 <= n <= list.len(),
        forall|k: int| 0 <= k < n ==> #[trigger] list[k] != "others"@,
        forall|k: int|
            0 <= k < n ==> exists|x: int|
                0 <= x < c.len() && v[c[x]].id == #[trigger] list[k],
    ensures
        wanted(list, n, c, v) matches Ok(w) && w.len() == n && forall|k: int|
            0 <= k < n ==> v[#[trigger] w[k]].id == list[k] && c.contains(w[k]),
    decreases n,
{
    if n > 0 {
        law_named_providers_come_as_named(list, n - 1, c, v);
        lemma_wanted_is(c, v, list[n - 1], 0);
        assert(list[n - 1] != "others"@);
        let x = choose|x: int| 0 <= x < c.len() && v[c[x]].id == list[n - 1];
        assert(v[c[x]].id == list[n - 1]);
    }
}

/// A name that no provider has, or none that may be chosen, spoils the whole list.
pub proof fn law_unknown_names_are_refused(
    list: Seq<Seq<char>>,
    n: int,
    c: Seq<int>,
    v: Seq<Offer>,
    k: int,
)
    requires
        0 <= k < n <= list.len(),
        list[k] != "others"@,
        forall|x: int| 0 <= x < c.len() ==> v[#[trigger] c[x]].id != list[k],
    ensures
        wanted(list, n, c, v) is Err,
        exists|j: int| 0 <= j <= k && wanted(list, n, c, v) == Err::<Seq<int>, Seq<char>>(#[trigger] list[j]),
    decreases n,
{
    if n - 1 > k {
        law_unknown_names_are_refused(list, n - 1, c, v, k);
    } else {
        lemma_wanted_is(c, v, list[k], 0);
        lemma_wanted_errs(list, n - 1, c, v);
        assert(list[n - 1] == list[k]);
    }
}

proof fn lemma_wanted_errs(list: Seq<Seq<char>>, n: int, c: Seq<int>, v: Seq<Offer>)
    requires
        0 <= n <= list.len(),
    ensures
        wanted(list, n, c, v) is Err ==> exists|j: int|
            0 <= j < n && wanted(list, n, c, v) == Err::<Seq<int>, Seq<char>>(#[trigger] list[j]),
    decreases n,
{
    if n > 0 {
        lemma_wanted_errs(list, n - 1, c, v);
        if wanted(list, n - 1, c, v) is Ok && wanted(list, n, c, v) is Err {
            assert(wanted(list, n, c, v) == Err::<Seq<int>, Seq<char>>(list[n - 1]));
        }
    }
}

/// "others" stands, in its place in the list, for all that may be chosen and are not named, and
/// for nobody else.
pub proof fn law_others_are_the_rest(
    c: Seq<int>,
    v: Seq<Offer>,
    list: Seq<Seq<char>>,
    i: int,
    n: int,
)
    ensures
        unnamed(c, v, list).contains(i) <==> c.contains(i) && !list.contains(v[i].id),
        wanted(seq!["others"@], 1, c, v) == Ok::<Seq<int>, Seq<char>>(
            unnamed(c, v, seq!["others"@]),
        ),
        0 < n <= list.len() && list[n - 1] == "others"@ ==> (wanted(list, n - 1, c, v) matches Ok(
            before,
        ) ==> wanted(list, n, c, v) == Ok::<Seq<int>, Seq<char>>(before + unnamed(c, v, list))),
    decreases c.len(),
{
    let alone = seq!["others"@];
    reveal_with_fuel(wanted, 2);
    assert(Seq::<int>::empty() + unnamed(c, v, alone) =~= unnamed(c, v, alone));
    assert(alone[0] == "others"@);
    if c.len() == 0 {
        assert(!unnamed(c, v, list).contains(i));
    } else {
        let front = c.drop_last();
        let before = unnamed(front, v, list);
        let all = unnamed(c, v, list);
        law_others_are_the_rest(front, v, list, i, 0);
        if all.contains(i) {
            let x = choose|x: int| 0 <= x < all.len() && all[x] == i;
            if x < before.len() {
                assert(before[x] == i);
                assert(before.contains(i));
                let y = choose|y: int| 0 <= y < front.len() && front[y] == i;
                assert(c[y] == i);
            } else {
                assert(c[c.len() - 1] == i);
            }
        }
        if c.contains(i) && !list.contains(v[i].id) {
            let y = choose|y: int| 0 <= y < c.len() && c[y] == i;
            if y < front.len() {
                assert(front[y] == i);
                assert(before.contains(i));
                let x = choose|x: int| 0 <= x < before.len() && before[x] == i;
                assert(all[x] == i);
            } else {
                assert(all[before.len() as int] == i);
            }
        }
    }
}

/// Without a list of the client's own, the choice is what was found; a model that nobody
/// offers, a client with an enclave of its own that nobody serves, a name that nobody has and
/// a choice of nobody are refused, each with a text of its own.
pub proof fn law_choices_are_refused_by_name(
    model: Seq<char>,
    routes: Seq<(Seq<char>, Seq<Seq<char>>)>,
    ids: Seq<Seq<char>>,
    v: Seq<Offer>,
    d: Demands,
    list: Seq<Seq<char>>,
)
    ensures
        says_nothing(routes, model) ==> choice_of(model, routes, v, d, None) == Err::<
            Seq<int>,
            Refused,
        >(Refused { status: 400, message: "Unsupported model: "@ + model }) && choice_of(
            model,
            routes,
            v,
            d,
            Some(list),
        ) == choice_of(model, routes, v, d, None),
        first_says(routes, model, ids) && fit(ids, v, d).len() > 0 ==> {
            &&& choice_of(model, routes, v, d, None) == Ok::<Seq<int>, Refused>(fit(ids, v, d))
            &&& wanted(list, list.len() as int, fit(ids, v, d), v) matches Ok(w) ==> (if w.len()
                == 0 {
                choice_of(model, routes, v, d, Some(list)) == Err::<Seq<int>, Refused>(
                    Refused {
                        status: 400,
                        message: "No AI providers match your provider requirements."@,
                    },
                )
            } else {
                choice_of(model, routes, v, d, Some(list)) == Ok::<Seq<int>, Refused>(w)
            })
            &&& wanted(list, list.len() as int, fit(ids, v, d), v) matches Err(id) ==> choice_of(
                model,
                routes,
                v,
                d,
                Some(list),
            ) == Err::<Seq<int>, Refused>(
                Refused {
                    status: 400,
                    message: "Requested provider '"@ + id + "' does not exist."@,
                },
            )
        },
        first_says(routes, model, ids) && fit(ids, v, d).len() == 0 ==> choice_of(
            model,
            routes,
            v,
            d,
            None,
        ) == Err::<Seq<int>, Refused>(
            Refused {
                status: 400,
                message: if d.passing {
                    "X-NearAI-E2EE-Enabled requires a model supported by the 'near-ai' provider."@
                } else {
                    "No AI providers match your provider requirements."@
                },
            },
        ),
{
    law_first_entry_counts(routes, model, ids);
}

/// Naming providers does not help a client with an enclave of its own that nobody serves.
pub proof fn law_own_enclaves_are_served_or_refused(
    model: Seq<char>,
    routes: Seq<(Seq<char>, Seq<Seq<char>>)>,
    ids: Seq<Seq<char>>,
    v: Seq<Offer>,
    d: Demands,
    list: Option<Seq<Seq<char>>>,
)
    requires
        first_says(routes, model, ids),
        d.passing,
        fit(ids, v, d).len() == 0,
    ensures
        choice_of(model, routes, v, d, list) == Err::<Seq<int>, Refused>(
            Refused {
                status: 400,
                message: "X-NearAI-E2EE-Enabled requires a model supported by the 'near-ai' provider."@,
            },
        ),
{
    law_first_entry_counts(routes, model, ids);
}

/// The order of tries: by rating where the client prefers that, by chance where it prefers
/// anything else, as named where it names providers, else by chance.
pub proof fn law_preferences_go_first(p: Seq<char>, named: bool)
    ensures
        arrangement_of(Some("privacy_rating"@), named) == Arrangement::ByRating,
        p != "privacy_rating"@ ==> arrangement_of(Some(p), named) == Arrangement::Shuffled,
        arrangement_of(None, true) == Arrangement::AsNamed,
        arrangement_of(None, false) == Arrangement::Shuffled,
{
}

/// Putting providers in order loses none of them, adds none, and puts smaller keys first.
pub proof fn law_order_keeps_everyone(out: Seq<int>, c: Seq<int>, keys: Seq<u32>, x: int)
    requires
        sorted_by(out, c, keys),
        keys.len() == c.len(),
    ensures
        out.len() == c.len(),
        out.contains(x) <==> c.contains(x),
{
    let p = choose|p: Seq<usize>| #[trigger]
        is_stable_order(p, c.len() as int, by_key(keys)) && out.len() == c.len() && forall|i: int|
            0 <= i < c.len() ==> #[trigger] out[i] == c[p[i] as int];
    if out.contains(x) {
        let i = choose|i: int| 0 <= i < out.len() && out[i] == x;
        assert(p[i] < c.len());
        assert(c[p[i] as int] == x);
    }
    if c.contains(x) {
        let k = choose|k: int| 0 <= k < c.len() && c[k] == x;
        assert(is_listed(p, k));
        let i = choose|i: int| 0 <= i < p.len() && p[i] == k;
        assert(out[i] == c[p[i] as int]);
    }
}

/// Each of the five providers is spoken to in its own way, and nobody else is spoken to.
pub proof fn law_five_dialects_are_spoken(id: Seq<char>)
    ensures
        dialect_of("near-ai"@) == Some(Dialect::NearAi),
        dialect_of("chutes"@) == Some(Dialect::Chutes),
        dialect_of("redpill"@) == Some(Dialect::RedPill),
        dialect_of("infomaniak"@) == Some(Dialect::Infomaniak),
        dialect_of("tinfoil"@) == Some(Dialect::Tinfoil),
        dialect_of(id) is Some ==> id == "near-ai"@ || id == "chutes"@ || id == "redpill"@ || id
            == "infomaniak"@ || id == "tinfoil"@,
{
    reveal_strlit("near-ai");
    reveal_strlit("chutes");
    reveal_strlit("redpill");
    reveal_strlit("infomaniak");
    reveal_strlit("tinfoil");
    assert("near-ai"@[0] == 'n' && "redpill"@[0] == 'r' && "tinfoil"@[0] == 't');
    assert("chutes"@[0] == 'c' && "infomaniak"@[0] == 'i');
}

/// Streams and whole answers are announced as what they are, and neither is to be cached.
pub proof fn law_answers_are_announced()
    ensures
        first_says(completion_headers(true), "Content-Type"@, "text/event-stream"@),
        first_says(completion_headers(false), "Content-Type"@, "application/json"@),
        first_says(completion_headers(true), "Cache-Control"@, "no-cache"@),
        first_says(completion_headers(false), "Cache-Control"@, "no-cache"@),
        first_says(completion_headers(true), "Connection"@, "keep-alive"@),
{
    reveal_strlit("Content-Type");
    reveal_strlit("Cache-Control");
    reveal_strlit("Connection");
    assert("Content-Type"@.len() == 12 && "Cache-Control"@.len() == 13 && "Connection"@.len() == 10);
    let a = completion_headers(true);
    let b = completion_headers(false);
    assert(a[0].0 == "Content-Type"@ && a[1].0 == "Cache-Control"@ && a[2].0 == "Connection"@);
    assert(b[0].0 == "Content-Type"@ && b[1].0 == "Cache-Control"@);
    assert(a[0] == ("Content-Type"@, "text/event-stream"@));
    assert(a[1] == ("Cache-Control"@, "no-cache"@));
    assert(a[2] == ("Connection"@, "keep-alive"@));
    assert(b[0] == ("Content-Type"@, "application/json"@));
    assert(b[1] == ("Cache-Control"@, "no-cache"@));
}

/// A request asks for what the client switched on, and under encryption for all that it left
/// open; and the first reason to refuse it is the one that counts.
pub proof fn law_demands_follow_the_switches(
    zdr: Option<bool>,
    zds: Option<bool>,
    tee: Option<bool>,
    passing: bool,
    opened: Result<Admitted, Refused>,
    passthrough: Result<Option<Seq<char>>, Refused>,
    choice: Result<Seq<int>, Refused>,
)
    ensures
        demands_of(zdr, zds, tee, false, passing) == (Demands { zdr, zds, tee, passing }),
        zdr matches Some(b) ==> demands_of(zdr, zds, tee, true, passing).zdr == Some(b),
        zdr is None ==> demands_of(zdr, zds, tee, true, passing).zdr == Some(true),
        zds matches Some(b) ==> demands_of(zdr, zds, tee, true, passing).zds == Some(b),
        zds is None ==> demands_of(zdr, zds, tee, true, passing).zds == Some(true),
        tee matches Some(b) ==> demands_of(zdr, zds, tee, true, passing).tee == Some(b),
        tee is None ==> demands_of(zdr, zds, tee, true, passing).tee == Some(true),
        demands_of(zdr, zds, tee, true, passing).passing == passing,
        opened matches Err(e) ==> refusal_of(opened, passthrough, choice) == Some(e),
        opened is Ok && passthrough is Err ==> refusal_of(opened, passthrough, choice) == Some(
            passthrough->Err_0,
        ),
        opened is Ok && passthrough is Ok && choice is Err ==> refusal_of(
            opened,
            passthrough,
            choice,
        ) == Some(choice->Err_0),
        opened is Ok && passthrough is Ok && choice is Ok ==> refusal_of(
            opened,
            passthrough,
            choice,
        ) is None,
{
}

} // verus!
