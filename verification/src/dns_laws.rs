//! What holds of messages to and from resolvers, over the way in which they are laid out.

use vstd::prelude::*;
use vstd::utf8::encode_utf8;

use crate::bytes::be16;
use crate::bytes::be32;
use crate::bytes::zeros;
use crate::dns::address_text;
use crate::dns::best_cert_at;
use crate::dns::cert_read;
use crate::dns::cert_valid;
use crate::dns::djb_opened;
use crate::dns::djb_sealed;
use crate::dns::find_dot;
use crate::dns::first_address;
use crate::dns::forward;
use crate::dns::labels_end;
use crate::dns::law_padding;
use crate::dns::lemma_djb_crypt_twice;
use crate::dns::lemma_find_dot;
use crate::dns::lemma_unpad_zeros;
use crate::dns::name_end;
use crate::dns::owner_end;
use crate::dns::padded;
use crate::dns::query_for;
use crate::dns::request_for;
use crate::dns::resolver_addresses;
use crate::dns::response_address;
use crate::dns::response_outcome;
use crate::dns::response_texts;
use crate::dns::session_for;
use crate::dns::txt_records;
use crate::dns::txt_text;
use crate::dns::unpadded;
use crate::dns::wire_labels;
use crate::dns::DnscryptCert;
use crate::dns::DnscryptClientState;
use crate::dns::HardcodedResolver;
use crate::primitives::ed25519_verifies;
use crate::primitives::hchacha20_of;
use crate::primitives::poly1305_tag_of;
use crate::primitives::x25519_public_of;
use crate::primitives::x25519_shared_of;
use crate::primitives::xchacha20_keystream;
use crate::text::decimal;

verus! {

// ---------------------------------------------------------------------------
// How messages are laid out
// ---------------------------------------------------------------------------

/// The labels of a name, each behind its length.
pub open spec fn laid_labels(labels: Seq<Seq<u8>>) -> Seq<u8>
    decreases labels.len(),
{
    if labels.len() == 0 {
        seq![]
    } else {
        seq![labels[0].len() as u8] + labels[0] + laid_labels(labels.skip(1))
    }
}

/// Whether labels have from one to 63 bytes.
pub open spec fn proper_labels(labels: Seq<Seq<u8>>) -> bool {
    forall|i: int| 0 <= i < labels.len() ==> 1 <= (#[trigger] labels[i]).len() <= 63
}

/// A name: its labels and a zero byte.
pub open spec fn laid_name(labels: Seq<Seq<u8>>) -> Seq<u8> {
    laid_labels(labels) + seq![0u8]
}

/// Whether bytes are the owner of a record: a pointer, or a name.
pub open spec fn is_owner(o: Seq<u8>) -> bool {
    ||| o.len() == 2 && o[0] >= 0xc0
    ||| exists|labels: Seq<Seq<u8>>| proper_labels(labels) && o == #[trigger] laid_name(labels)
}

/// A record of an answer.
pub struct Record {
    pub owner: Seq<u8>,
    pub rtype: u16,
    pub class: Seq<u8>,
    pub ttl: Seq<u8>,
    pub data: Seq<u8>,
}

/// Whether a record can be laid out.
pub open spec fn proper_record(r: Record) -> bool {
    &&& is_owner(r.owner)
    &&& r.class.len() == 2
    &&& r.ttl.len() == 4
    &&& r.data.len() < 65536
}

/// A number in two bytes, the upper one first.
pub open spec fn two_bytes(n: int) -> Seq<u8> {
    seq![(n / 256) as u8, (n % 256) as u8]
}

/// A record: its owner, type, class, time to live, the length of its data, and the data.
pub open spec fn laid_record(r: Record) -> Seq<u8> {
    r.owner + two_bytes(r.rtype as int) + r.class + r.ttl + two_bytes(r.data.len() as int) + r.data
}

/// Records one after the other.
pub open spec fn laid_records(rs: Seq<Record>) -> Seq<u8>
    decreases rs.len(),
{
    if rs.len() == 0 {
        seq![]
    } else {
        laid_record(rs[0]) + laid_records(rs.skip(1))
    }
}

/// A response: a header, a question and what follows.
pub open spec fn laid_response(
    header: Seq<u8>,
    question: Seq<Seq<u8>>,
    kind: Seq<u8>,
    rest: Seq<u8>,
) -> Seq<u8> {
    header + laid_name(question) + kind + rest
}

// ---------------------------------------------------------------------------
// Walking over them
// ---------------------------------------------------------------------------

proof fn lemma_two_bytes(n: int)
    requires
        0 <= n < 65536,
    ensures
        be16(two_bytes(n)[0], two_bytes(n)[1]) == n,
{
    assert(0 <= n / 256 < 256);
    assert(n == (n / 256) * 256 + n % 256);
}

proof fn lemma_walk_labels(before: Seq<u8>, labels: Seq<Seq<u8>>, after: Seq<u8>)
    requires
        proper_labels(labels),
    ensures
        ({
            let all = before + laid_name(labels) + after;
            &&& labels_end(all, before.len() as int) == before.len() + laid_labels(labels).len()
            &&& name_end(all, before.len() as int) == before.len() + laid_name(labels).len()
        }),
    decreases labels.len(),
{
    let all = before + laid_name(labels) + after;
    let at = before.len() as int;
    if labels.len() == 0 {
        assert(all[at] == 0);
        assert(labels_end(all, at) == at);
    } else {
        let first = labels[0];
        let rest = labels.skip(1);
        assert(proper_labels(rest)) by {
            assert forall|i: int| 0 <= i < rest.len() implies 1 <= (#[trigger] rest[i]).len()
                <= 63 by {
                assert(rest[i] == labels[i + 1]);
            }
        }
        let front = before + seq![first.len() as u8] + first;
        lemma_walk_labels(front, rest, after);
        assert(all =~= front + laid_name(rest) + after);
        assert(all[at] == first.len() as u8);
        assert(forward(all, at, all[at] + 1) == front.len());
        assert(labels_end(all, at) == labels_end(all, front.len() as int));
    }
}

proof fn lemma_walk_owner(before: Seq<u8>, owner: Seq<u8>, after: Seq<u8>)
    requires
        is_owner(owner),
    ensures
        owner.len() > 0,
        owner_end(before + owner + after, before.len() as int) == before.len() + owner.len(),
{
    let all = before + owner + after;
    let at = before.len() as int;
    if owner.len() == 2 && owner[0] >= 0xc0 {
        assert(all[at] == owner[0]);
    } else {
        let labels = choose|labels: Seq<Seq<u8>>|
            proper_labels(labels) && owner == #[trigger] laid_name(labels);
        lemma_walk_labels(before, labels, after);
        assert(all[at] == owner[0]);
        if labels.len() > 0 {
            assert(owner[0] == labels[0].len() as u8);
        } else {
            assert(owner[0] == 0);
        }
    }
}

/// What is read of a record that stands somewhere in a message.
proof fn lemma_walk_record(before: Seq<u8>, r: Record, after: Seq<u8>)
    requires
        proper_record(r),
    ensures
        ({
            let all = before + laid_record(r) + after;
            let head = owner_end(all, before.len() as int);
            let body = head + 10;
            &&& head == before.len() + r.owner.len()
            &&& r.owner.len() > 0
            &&& body + r.data.len() <= all.len()
            &&& be16(all[head], all[head + 1]) == r.rtype
            &&& be16(all[head + 8], all[head + 9]) == r.data.len()
            &&& all.subrange(body, body + r.data.len()) == r.data
            &&& body + r.data.len() == (before + laid_record(r)).len()
        }),
{
    let t = two_bytes(r.rtype as int);
    let n = two_bytes(r.data.len() as int);
    let tail = t + r.class + r.ttl + n + r.data + after;
    let all = before + laid_record(r) + after;
    assert(all =~= before + r.owner + tail);
    lemma_walk_owner(before, r.owner, tail);
    lemma_two_bytes(r.rtype as int);
    lemma_two_bytes(r.data.len() as int);
    let head: int = (before.len() + r.owner.len()) as int;
    assert(all[head] == tail[0] && all[head + 1] == tail[1]);
    assert(tail[0] == t[0] && tail[1] == t[1]);
    assert(all[head + 8] == tail[8] && all[head + 9] == tail[9]);
    assert(tail[8] == n[0] && tail[9] == n[1]);
    assert(all.subrange(head + 10, head + 10 + r.data.len()) =~= r.data);
}

proof fn lemma_answers_start(
    header: Seq<u8>,
    question: Seq<Seq<u8>>,
    kind: Seq<u8>,
    rest: Seq<u8>,
)
    requires
        header.len() == 12,
        proper_labels(question),
        kind.len() == 4,
    ensures
        ({
            let all = laid_response(header, question, kind, rest);
            let front = header + laid_name(question) + kind;
            &&& crate::dns::answers_start(all) == front.len()
            &&& all == front + rest
            &&& all.len() >= 12
            &&& all[6] == header[6]
            &&& all[7] == header[7]
        }),
{
    let all = laid_response(header, question, kind, rest);
    lemma_walk_labels(header, question, kind + rest);
    assert(all =~= header + laid_name(question) + (kind + rest));
    assert(all =~= (header + laid_name(question) + kind) + rest);
}

// ---------------------------------------------------------------------------
// Addresses
// ---------------------------------------------------------------------------

/// Whether a record holds an IPv4 address.
pub open spec fn is_address(r: Record) -> bool {
    r.rtype == 1 && r.data.len() == 4
}

proof fn lemma_first_address(
    before: Seq<u8>,
    others: Seq<Record>,
    a: Record,
    rest: Seq<u8>,
    n: nat,
)
    requires
        forall|i: int|
            0 <= i < others.len() ==> proper_record(#[trigger] others[i]) && !is_address(others[i]),
        proper_record(a),
        is_address(a),
        n > others.len(),
    ensures
        first_address(
            before + laid_records(others) + laid_record(a) + rest,
            before.len() as int,
            n,
        ) == Some(a.data),
    decreases others.len(),
{
    let all = before + laid_records(others) + laid_record(a) + rest;
    if others.len() == 0 {
        assert(all =~= before + laid_record(a) + rest);
        lemma_walk_record(before, a, rest);
    } else {
        let r = others[0];
        let more = others.skip(1);
        assert forall|i: int| 0 <= i < more.len() implies proper_record(#[trigger] more[i])
            && !is_address(more[i]) by {
            assert(more[i] == others[i + 1]);
        }
        let after = laid_records(more) + laid_record(a) + rest;
        assert(all =~= before + laid_record(r) + after);
        lemma_walk_record(before, r, after);
        let front = before + laid_record(r);
        lemma_first_address(front, more, a, rest, (n - 1) as nat);
        assert(all =~= front + laid_records(more) + laid_record(a) + rest);
        lemma_walk_owner(front + laid_records(more), a.owner, Seq::<u8>::empty());
        assert(after.len() >= laid_record(a).len());
    }
}

/// A response is answered with the address in its first address record, whatever records of
/// other kinds stand before it and whatever follows it.
pub proof fn law_address_is_found_behind_other_records(
    header: Seq<u8>,
    question: Seq<Seq<u8>>,
    kind: Seq<u8>,
    others: Seq<Record>,
    a: Record,
    rest: Seq<u8>,
)
    requires
        header.len() == 12,
        header[6] * 256 + header[7] > others.len(),
        proper_labels(question),
        kind.len() == 4,
        forall|i: int|
            0 <= i < others.len() ==> proper_record(#[trigger] others[i]) && !is_address(others[i]),
        proper_record(a),
        is_address(a),
    ensures
        response_address(
            laid_response(header, question, kind, laid_records(others) + laid_record(a) + rest),
        ) == Some(a.data),
{
    let tail = laid_records(others) + laid_record(a) + rest;
    lemma_answers_start(header, question, kind, tail);
    let front = header + laid_name(question) + kind;
    let all = laid_response(header, question, kind, tail);
    assert(all =~= front + laid_records(others) + laid_record(a) + rest);
    lemma_first_address(front, others, a, rest, (header[6] * 256 + header[7]) as nat);
}

proof fn lemma_no_address(before: Seq<u8>, others: Seq<Record>, n: nat)
    requires
        forall|i: int|
            0 <= i < others.len() ==> proper_record(#[trigger] others[i]) && !is_address(others[i]),
    ensures
        first_address(before + laid_records(others), before.len() as int, n) is None,
    decreases others.len(),
{
    let all = before + laid_records(others);
    if others.len() > 0 && n > 0 {
        let r = others[0];
        let more = others.skip(1);
        assert forall|i: int| 0 <= i < more.len() implies proper_record(#[trigger] more[i])
            && !is_address(more[i]) by {
            assert(more[i] == others[i + 1]);
        }
        let after = laid_records(more);
        assert(all =~= before + laid_record(r) + after);
        lemma_walk_record(before, r, after);
        let front = before + laid_record(r);
        lemma_no_address(front, more, (n - 1) as nat);
        assert(all =~= front + laid_records(more));
    }
}

/// A response without an address record gives no address.
pub proof fn law_no_address_without_its_record(
    header: Seq<u8>,
    question: Seq<Seq<u8>>,
    kind: Seq<u8>,
    others: Seq<Record>,
)
    requires
        header.len() == 12,
        proper_labels(question),
        kind.len() == 4,
        forall|i: int|
            0 <= i < others.len() ==> proper_record(#[trigger] others[i]) && !is_address(others[i]),
    ensures
        response_address(laid_response(header, question, kind, laid_records(others))) is None,
{
    lemma_answers_start(header, question, kind, laid_records(others));
    let front = header + laid_name(question) + kind;
    lemma_no_address(front, others, (header[6] * 256 + header[7]) as nat);
}

// ---------------------------------------------------------------------------
// Texts
// ---------------------------------------------------------------------------

/// Character strings, each behind its length.
pub open spec fn laid_strings(strings: Seq<Seq<u8>>) -> Seq<u8>
    decreases strings.len(),
{
    if strings.len() == 0 {
        seq![]
    } else {
        seq![strings[0].len() as u8] + strings[0] + laid_strings(strings.skip(1))
    }
}

/// The strings put together.
pub open spec fn put_together(strings: Seq<Seq<u8>>) -> Seq<u8>
    decreases strings.len(),
{
    if strings.len() == 0 {
        seq![]
    } else {
        strings[0] + put_together(strings.skip(1))
    }
}

proof fn lemma_strings(before: Seq<u8>, strings: Seq<Seq<u8>>)
    requires
        forall|i: int| 0 <= i < strings.len() ==> (#[trigger] strings[i]).len() < 256,
    ensures
        txt_text(before + laid_strings(strings), before.len() as int) == put_together(strings),
    decreases strings.len(),
{
    let all = before + laid_strings(strings);
    let at = before.len() as int;
    if strings.len() > 0 {
        let s = strings[0];
        let rest = strings.skip(1);
        assert forall|i: int| 0 <= i < rest.len() implies (#[trigger] rest[i]).len() < 256 by {
            assert(rest[i] == strings[i + 1]);
        }
        let front = before + seq![s.len() as u8] + s;
        lemma_strings(front, rest);
        assert(all =~= front + laid_strings(rest));
        assert(all[at] == s.len() as u8);
        assert(all.subrange(at + 1, at + 1 + all[at]) =~= s);
    }
}

/// The texts of some records, given the strings of each: those of text records that are not
/// empty, in their order.
pub open spec fn texts_told(rs: Seq<Record>, strings: Seq<Seq<Seq<u8>>>) -> Seq<Seq<u8>>
    decreases rs.len(),
{
    if rs.len() == 0 {
        seq![]
    } else {
        let rest = texts_told(rs.skip(1), strings.skip(1));
        let own = put_together(strings[0]);
        if rs[0].rtype == 16 && own.len() > 0 {
            seq![own] + rest
        } else {
            rest
        }
    }
}

/// Whether each text record holds the strings that are given for it.
pub open spec fn strings_fit(rs: Seq<Record>, strings: Seq<Seq<Seq<u8>>>) -> bool {
    &&& strings.len() == rs.len()
    &&& forall|i: int|
        #![trigger rs[i]]
        0 <= i < rs.len() ==> proper_record(rs[i]) && (rs[i].rtype == 16 ==> rs[i].data
            == laid_strings(strings[i]) && forall|j: int|
            0 <= j < strings[i].len() ==> (#[trigger] strings[i][j]).len() < 256)
}

proof fn lemma_texts(before: Seq<u8>, rs: Seq<Record>, strings: Seq<Seq<Seq<u8>>>, n: nat)
    requires
        strings_fit(rs, strings),
        n >= rs.len(),
    ensures
        txt_records(before + laid_records(rs), before.len() as int, n) == texts_told(rs, strings),
    decreases rs.len(),
{
    let all = before + laid_records(rs);
    if rs.len() > 0 {
        let r = rs[0];
        let more = rs.skip(1);
        let other = strings.skip(1);
        assert(strings_fit(more, other)) by {
            assert forall|i: int|
                #![trigger more[i]]
                0 <= i < more.len() implies proper_record(more[i]) && (more[i].rtype == 16
                ==> more[i].data == laid_strings(other[i]) && forall|j: int|
                0 <= j < other[i].len() ==> (#[trigger] other[i][j]).len() < 256) by {
                assert(more[i] == rs[i + 1]);
                assert(other[i] == strings[i + 1]);
            }
        }
        assert(proper_record(rs[0]));
        let after = laid_records(more);
        assert(all =~= before + laid_record(r) + after);
        lemma_walk_record(before, r, after);
        let front = before + laid_record(r);
        lemma_texts(front, more, other, (n - 1) as nat);
        assert(all =~= front + laid_records(more));
        if r.rtype == 16 {
            lemma_strings(seq![], strings[0]);
            assert(Seq::<u8>::empty() + laid_strings(strings[0]) =~= laid_strings(strings[0]));
        }
    }
}

/// The texts of a response are those of its text records, each put together from its strings,
/// in their order and without the empty ones.
pub proof fn law_texts_are_read(
    header: Seq<u8>,
    question: Seq<Seq<u8>>,
    kind: Seq<u8>,
    rs: Seq<Record>,
    strings: Seq<Seq<Seq<u8>>>,
)
    requires
        header.len() == 12,
        header[6] * 256 + header[7] >= rs.len(),
        proper_labels(question),
        kind.len() == 4,
        strings_fit(rs, strings),
    ensures
        response_texts(laid_response(header, question, kind, laid_records(rs))) == texts_told(
            rs,
            strings,
        ),
{
    lemma_answers_start(header, question, kind, laid_records(rs));
    let front = header + laid_name(question) + kind;
    lemma_texts(front, rs, strings, (header[6] * 256 + header[7]) as nat);
}

// ---------------------------------------------------------------------------
// Queries
// ---------------------------------------------------------------------------

/// Labels with dots between them.
pub open spec fn with_dots(labels: Seq<Seq<u8>>) -> Seq<u8>
    decreases labels.len(),
{
    if labels.len() <= 1 {
        if labels.len() == 0 {
            seq![]
        } else {
            labels[0]
        }
    } else {
        labels[0] + seq![0x2eu8] + with_dots(labels.skip(1))
    }
}

proof fn lemma_wire_labels(labels: Seq<Seq<u8>>)
    requires
        labels.len() > 0,
        forall|i: int, j: int|
            0 <= i < labels.len() && 0 <= j < labels[i].len() ==> #[trigger] labels[i][j] != 0x2e,
    ensures
        wire_labels(with_dots(labels)) == laid_labels(labels),
    decreases labels.len(),
{
    let b = with_dots(labels);
    let first = labels[0];
    lemma_find_dot(b, 0);
    if labels.len() == 1 {
        assert(labels.skip(1).len() == 0);
        match find_dot(b, 0) {
            Some(i) => {
                assert(labels[0][i] != 0x2e);
            },
            None => {},
        }
        reveal_with_fuel(laid_labels, 2);
        assert(laid_labels(labels) =~= seq![first.len() as u8] + first);
    } else {
        let rest = labels.skip(1);
        assert forall|i: int, j: int|
            0 <= i < rest.len() && 0 <= j < rest[i].len() implies #[trigger] rest[i][j]
            != 0x2e by {
            assert(labels[i + 1][j] != 0x2e);
        }
        lemma_wire_labels(rest);
        assert(b[first.len() as int] == 0x2e);
        match find_dot(b, 0) {
            Some(i) => {
                if i < first.len() {
                    assert(b[i] == first[i]);
                    assert(labels[0][i] != 0x2e);
                }
                assert(i == first.len());
                assert(b.take(i) =~= first);
                assert(b.skip(i + 1) =~= with_dots(rest));
            },
            None => {},
        }
    }
}

/// A query asks for its name label by label: a header with one question, the labels of the
/// dotted name each behind its length, a zero byte, the type and the class.
pub proof fn law_queries_spell_their_name(domain: Seq<char>, labels: Seq<Seq<u8>>, rtype: u8)
    requires
        labels.len() > 0,
        forall|i: int, j: int|
            0 <= i < labels.len() && 0 <= j < labels[i].len() ==> #[trigger] labels[i][j] != 0x2e,
        encode_utf8(domain) == with_dots(labels),
    ensures
        query_for(domain, rtype) == seq![
            0xabu8,
            0xcdu8,
            1u8,
            0u8,
            0u8,
            1u8,
            0u8,
            0u8,
            0u8,
            0u8,
            0u8,
            0u8,
        ] + laid_name(labels) + seq![0u8, rtype, 0u8, 1u8],
{
    lemma_wire_labels(labels);
    assert(query_for(domain, rtype) =~= seq![
        0xabu8,
        0xcdu8,
        1u8,
        0u8,
        0u8,
        1u8,
        0u8,
        0u8,
        0u8,
        0u8,
        0u8,
        0u8,
    ] + laid_name(labels) + seq![0u8, rtype, 0u8, 1u8]);
}

// ---------------------------------------------------------------------------
// Padding and packets
// ---------------------------------------------------------------------------

/// Padding is the mark and then zeros only, to the next multiple of 64 bytes and at least to
/// the length asked for; what stands before the mark and the zeros is read back.
pub proof fn law_padding_is_a_mark_and_zeros(query: Seq<u8>, min_len: int, n: nat)
    ensures
        ({
            let p = padded(query, min_len);
            &&& p.len() > query.len()
            &&& p.take(query.len() as int) == query
            &&& p[query.len() as int] == 0x80
            &&& forall|i: int| query.len() < i < p.len() ==> #[trigger] p[i] == 0
            &&& p.len() % 64 == 0
            &&& p.len() >= min_len
            &&& p.len() < query.len() + 65 || p.len() < min_len + 64
        }),
        unpadded(query + seq![0x80u8] + Seq::new(n, |i: int| 0u8)) == Some(query),
{
    law_padding(query, min_len);
    let p = padded(query, min_len);
    assert(p.take(query.len() as int) =~= query);
    let marked = query.push(0x80);
    assert(query + seq![0x80u8] + Seq::new(n, |i: int| 0u8) =~= marked + crate::bytes::zeros(n));
    lemma_unpad_zeros(marked, n);
    assert(marked.drop_last() =~= query);
}

/// A message that ends in neither zeros nor the mark is no padded one.
pub proof fn law_unmarked_padding_is_refused(data: Seq<u8>, last: u8, n: nat)
    requires
        last != 0,
        last != 0x80,
    ensures
        unpadded(data + seq![last] + Seq::new(n, |i: int| 0u8)) is None,
        unpadded(Seq::new(n, |i: int| 0u8)) is None,
{
    let marked = data.push(last);
    assert(data + seq![last] + Seq::new(n, |i: int| 0u8) =~= marked + crate::bytes::zeros(n));
    lemma_unpad_zeros(marked, n);
    lemma_unpad_zeros(Seq::<u8>::empty(), n);
    assert(Seq::<u8>::empty() + crate::bytes::zeros(n) =~= Seq::new(n, |i: int| 0u8));
}

/// What is sealed is the tag over the ciphertext, under the first 32 bytes of the key stream,
/// and then the text combined with the stream from there on. It opens to the text, and with
/// another tag it does not open.
pub proof fn law_sealed_bytes_are_bound(
    key: Seq<u8>,
    nonce: Seq<u8>,
    plaintext: Seq<u8>,
    tag: Seq<u8>,
)
    requires
        tag.len() == 16,
    ensures
        ({
            let mac = Seq::new(32, |i: int| xchacha20_keystream(key, nonce, i));
            let body = Seq::new(
                plaintext.len(),
                |i: int| plaintext[i] ^ xchacha20_keystream(key, nonce, 32 + i),
            );
            &&& djb_sealed(key, nonce, plaintext) == poly1305_tag_of(mac, body) + body
            &&& djb_opened(key, nonce, tag + body) == (if tag == poly1305_tag_of(mac, body) {
                Some(plaintext)
            } else {
                None
            })
        }),
{
    let mac = Seq::new(32, |i: int| xchacha20_keystream(key, nonce, i));
    let body = Seq::new(
        plaintext.len(),
        |i: int| plaintext[i] ^ xchacha20_keystream(key, nonce, 32 + i),
    );
    assert(mac =~= crate::dns::djb_mac_key(key, nonce));
    assert(body =~= crate::dns::djb_crypt(key, nonce, plaintext));
    assert((tag + body).take(16) =~= tag);
    assert((tag + body).skip(16) =~= body);
    lemma_djb_crypt_twice(key, nonce, plaintext);
}

/// A request is the client's magic, its public key and its half of the nonce, and the padded
/// query sealed under the session's key and the nonce filled up with zeros.
pub proof fn law_requests_are_laid_out(
    session: DnscryptClientState,
    client_nonce: Seq<u8>,
    domain: Seq<char>,
)
    ensures
        request_for(session, client_nonce, domain) == session.client_magic@
            + session.client_pk_bytes@ + client_nonce + djb_sealed(
            session.shared_key@,
            client_nonce + Seq::new(12, |i: int| 0u8),
            padded(query_for(domain, 1), 1024),
        ),
{
    assert(Seq::new(12, |i: int| 0u8) =~= crate::bytes::zeros(12));
}

/// A packet that begins as every response does, repeats the client's nonce and opens to a
/// padded message is answered with the address in that message; one that begins otherwise or
/// repeats another nonce is refused.
pub proof fn law_responses_are_answered(
    shared_key: Seq<u8>,
    client_nonce: Seq<u8>,
    magic: Seq<u8>,
    said_nonce: Seq<u8>,
    server_nonce: Seq<u8>,
    sealed: Seq<u8>,
    message: Seq<u8>,
    n: nat,
    ip: Seq<u8>,
)
    requires
        magic.len() == 8,
        said_nonce.len() == 12,
        client_nonce.len() == 12,
        server_nonce.len() == 12,
        djb_opened(shared_key, said_nonce + server_nonce, sealed) == Some(
            message + seq![0x80u8] + Seq::new(n, |i: int| 0u8),
        ),
        response_address(message) == Some(ip),
    ensures
        ({
            let ours = seq![0x72u8, 0x36u8, 0x66u8, 0x6eu8, 0x76u8, 0x57u8, 0x6au8, 0x38u8];
            response_outcome(shared_key, client_nonce, magic + said_nonce + server_nonce + sealed)
                == (if magic != ours {
                Err::<Seq<u8>, Seq<char>>("Invalid resolver magic"@)
            } else if said_nonce != client_nonce {
                Err::<Seq<u8>, Seq<char>>("Client nonce mismatch in resolver response"@)
            } else {
                Ok::<Seq<u8>, Seq<char>>(ip)
            })
        }),
{
    let packet = magic + said_nonce + server_nonce + sealed;
    law_padding_is_a_mark_and_zeros(message, 0, n);
    assert(packet.take(8) =~= magic);
    assert(packet.subrange(8, 20) =~= said_nonce);
    assert(packet.subrange(8, 32) =~= said_nonce + server_nonce);
    assert(packet.skip(32) =~= sealed);
    assert(crate::dns::resolver_magic() =~= seq![
        0x72u8,
        0x36u8,
        0x66u8,
        0x6eu8,
        0x76u8,
        0x57u8,
        0x6au8,
        0x38u8,
    ]);
}

// ---------------------------------------------------------------------------
// Certificates
// ---------------------------------------------------------------------------

/// A number in four bytes, the uppermost first.
pub open spec fn four_bytes(n: int) -> Seq<u8> {
    seq![
        (n / 16777216) as u8,
        ((n / 65536) % 256) as u8,
        ((n / 256) % 256) as u8,
        (n % 256) as u8,
    ]
}

/// A certificate: what it begins with, its version, two bytes, the signature, and what is
/// signed: the resolver's key, the client's magic, the serial number, the two ends of its time
/// and what else follows.
pub open spec fn laid_cert(
    magic: Seq<u8>,
    version: Seq<u8>,
    minor: Seq<u8>,
    signature: Seq<u8>,
    signed: Seq<u8>,
) -> Seq<u8> {
    magic + version + minor + signature + signed
}

/// What is signed in a certificate.
pub open spec fn laid_signed(
    key: Seq<u8>,
    client_magic: Seq<u8>,
    serial: u32,
    start: u32,
    end: u32,
    rest: Seq<u8>,
) -> Seq<u8> {
    key + client_magic + four_bytes(serial as int) + four_bytes(start as int) + four_bytes(
        end as int,
    ) + rest
}

proof fn lemma_four_bytes(n: u32, s: Seq<u8>, at: int)
    requires
        0 <= at,
        at + 4 <= s.len(),
        s.subrange(at, at + 4) == four_bytes(n as int),
    ensures
        be32(s, at) == n,
{
    let f = s.subrange(at, at + 4);
    assert(f[0] == s[at] && f[1] == s[at + 1] && f[2] == s[at + 2] && f[3] == s[at + 3]);
    let m = n as int;
    assert(0 <= m / 16777216 < 256);
    assert(m == (m / 16777216) * 16777216 + ((m / 65536) % 256) * 65536 + ((m / 256) % 256) * 256
        + m % 256) by (nonlinear_arith)
        requires
            0 <= m < 4294967296,
    ;
}

/// A certificate holds exactly where it begins as one, is of the known version, the provider
/// signed what follows the signature, and the time lies within its own, which is asked for only
/// of a clock that is not behind; and what is read of it is what was laid out.
pub proof fn law_certificates_are_checked(
    magic: Seq<u8>,
    version: Seq<u8>,
    minor: Seq<u8>,
    signature: Seq<u8>,
    key: Seq<u8>,
    client_magic: Seq<u8>,
    serial: u32,
    start: u32,
    end: u32,
    rest: Seq<u8>,
    provider_pk: Seq<u8>,
    now: u64,
    c: DnscryptCert,
)
    requires
        magic.len() == 4,
        version.len() == 2,
        minor.len() == 2,
        signature.len() == 64,
        key.len() == 32,
        client_magic.len() == 8,
    ensures
        ({
            let signed = laid_signed(key, client_magic, serial, start, end, rest);
            let cert = laid_cert(magic, version, minor, signature, signed);
            &&& cert_valid(cert, provider_pk, now) <==> {
                &&& magic == seq![0x44u8, 0x4eu8, 0x53u8, 0x43u8]
                &&& version == seq![0u8, 2u8]
                &&& ed25519_verifies(provider_pk, signed, signature)
                &&& now <= 1700000000 || start <= now <= end
            }
            &&& cert_read(cert, c) <==> {
                &&& c.resolver_pk@ == key
                &&& c.client_magic@ == client_magic
                &&& c.serial == serial
                &&& c.ts_start == start
                &&& c.ts_end == end
            }
        }),
{
    let signed = laid_signed(key, client_magic, serial, start, end, rest);
    let cert = laid_cert(magic, version, minor, signature, signed);
    assert(cert.take(4) =~= magic);
    assert(cert.subrange(4, 6) =~= version);
    assert(cert.subrange(8, 72) =~= signature);
    assert(cert.skip(72) =~= signed);
    assert(cert.subrange(72, 104) =~= key);
    assert(cert.subrange(104, 112) =~= client_magic);
    assert(cert.subrange(112, 116) =~= four_bytes(serial as int));
    assert(cert.subrange(116, 120) =~= four_bytes(start as int));
    assert(cert.subrange(120, 124) =~= four_bytes(end as int));
    lemma_four_bytes(serial, cert, 112);
    lemma_four_bytes(start, cert, 116);
    lemma_four_bytes(end, cert, 120);
}

/// Of the certificates that hold, the one that is chosen has the greatest number, and of
/// several with that number it is the first.
pub proof fn law_newest_certificate_is_chosen(
    certs: Seq<Seq<u8>>,
    provider_pk: Seq<u8>,
    now: u64,
    c: DnscryptCert,
    i: int,
    j: int,
)
    requires
        best_cert_at(certs, provider_pk, now, c, i),
        0 <= j < certs.len(),
        cert_valid(certs[j], provider_pk, now),
    ensures
        cert_valid(certs[i], provider_pk, now),
        be32(certs[j], 112) <= be32(certs[i], 112),
        be32(certs[j], 112) == be32(certs[i], 112) ==> i <= j,
        c.resolver_pk@ == certs[i].subrange(72, 104),
        c.client_magic@ == certs[i].subrange(104, 112),
        c.ts_end == be32(certs[i], 120),
{
}

/// The number that four bytes stand for, the first counting most.
pub proof fn law_numbers_are_big_endian(s: Seq<u8>, at: int)
    requires
        0 <= at,
        at + 4 <= s.len(),
    ensures
        be32(s, at) == ((s[at] * 256 + s[at + 1]) * 256 + s[at + 2]) * 256 + s[at + 3],
{
}

/// A session's key is what its resolver derives, too: from its own secret and the client's
/// key; and the session goes to that resolver, for as long as the certificate holds.
pub proof fn law_both_ends_have_the_key(
    resolver: HardcodedResolver,
    cert: DnscryptCert,
    s: DnscryptClientState,
    secret: Seq<u8>,
)
    requires
        session_for(resolver, cert, s),
        secret.len() == 32,
        x25519_public_of(secret) == cert.resolver_pk@,
    ensures
        s.shared_key@ == hchacha20_of(
            x25519_shared_of(secret, s.client_pk_bytes@),
            Seq::new(16, |i: int| 0u8),
        ),
        s.resolver_ip == resolver.ip,
        s.resolver_port == resolver.port,
        s.client_magic == cert.client_magic,
        s.ts_end == cert.ts_end,
{
    assert(zeros(16) =~= Seq::new(16, |i: int| 0u8));
}

/// An address is shown as its four numbers with dots between them, and its port behind.
pub proof fn law_addresses_are_shown(a: u8, b: u8, c: u8, d: u8, port: u16)
    ensures
        address_text(seq![a, b, c, d], port) == decimal(a as nat) + "."@ + decimal(b as nat) + "."@
            + decimal(c as nat) + "."@ + decimal(d as nat) + ":"@ + decimal(port as nat),
        resolver_addresses() == seq![
            seq![9u8, 9u8, 9u8, 9u8],
            seq![149u8, 112u8, 112u8, 112u8],
            seq![149u8, 112u8, 112u8, 9u8],
        ],
{
}

} // verus!
