//! DNSCrypt: queries, responses, certificates and sessions.
//!
//! Everything here works on bytes. Sending the packets is left to the caller.

use vstd::prelude::*;
use vstd::utf8::encode_utf8;

use crate::bytes::array_at;
use crate::bytes::be16;
use crate::bytes::be32;
use crate::bytes::bytes_eq;
use crate::bytes::copy_bytes;
use crate::bytes::push_all;
use crate::bytes::push_bytes;
use crate::bytes::read_be16;
use crate::bytes::read_be32;
use crate::bytes::zeros;
use crate::primitives::constant_time_eq;
use crate::primitives::ed25519_verifies;
use crate::primitives::ed25519_verify;
use crate::primitives::gen_random_bytes;
use crate::primitives::hchacha20;
use crate::primitives::hchacha20_of;
use crate::primitives::poly1305_tag;
use crate::primitives::poly1305_tag_of;
use crate::primitives::x25519_agreed;
use crate::primitives::x25519_ephemeral;
use crate::primitives::x25519_public_of;
use crate::primitives::x25519_shared_of;
use crate::primitives::xchacha20_apply;
use crate::primitives::xchacha20_keystream;
use crate::primitives::xchacha_max_len;
use crate::primitives::AgreementError;
use crate::text;

verus! {

// ---------------------------------------------------------------------------
// Queries
// ---------------------------------------------------------------------------

/// The first position of a dot in `b`, at or after `from`.
pub open spec fn find_dot(b: Seq<u8>, from: int) -> Option<int>
    decreases b.len() - from,
{
    if from < 0 || from >= b.len() {
        None
    } else if b[from] == 0x2e {
        Some(from)
    } else {
        find_dot(b, from + 1)
    }
}

/// The labels of a dotted name, each after one byte for its length.
pub open spec fn wire_labels(b: Seq<u8>) -> Seq<u8>
    decreases b.len(),
{
    match find_dot(b, 0) {
        Some(i) => if 0 <= i < b.len() {
            seq![i as u8] + b.take(i) + wire_labels(b.skip(i + 1))
        } else {
            seq![]
        },
        None => seq![b.len() as u8] + b,
    }
}

/// The header of every query: a fixed identifier, recursion desired, one question.
pub open spec fn query_header() -> Seq<u8> {
    seq![0xab, 0xcd, 0x01, 0x00, 0x00, 0x01, 0x00, 0x00, 0x00, 0x00, 0x00, 0x00]
}

/// A query for the records of type `rtype`, class IN, of a name.
pub open spec fn query_for(domain: Seq<char>, rtype: u8) -> Seq<u8> {
    query_header() + wire_labels(encode_utf8(domain)) + seq![0u8] + seq![0u8, rtype, 0u8, 1u8]
}

pub proof fn lemma_find_dot(b: Seq<u8>, from: int)
    requires
        0 <= from,
    ensures
        match find_dot(b, from) {
            Some(i) => from <= i < b.len() && b[i] == 0x2e && forall|j: int|
                from <= j < i ==> b[j] != 0x2e,
            None => forall|j: int| from <= j < b.len() ==> b[j] != 0x2e,
        },
    decreases b.len() - from,
{
    if from < b.len() && b[from] != 0x2e {
        lemma_find_dot(b, from + 1);
    }
}

proof fn lemma_find_dot_skip(b: Seq<u8>, n: int, from: int)
    requires
        0 <= n <= b.len(),
        0 <= from,
    ensures
        find_dot(b.skip(n), from) == (match find_dot(b, n + from) {
            Some(i) => Some(i - n),
            None => None::<int>,
        }),
    decreases b.len() - n - from,
{
    if from < b.len() - n && b[n + from] != 0x2e {
        lemma_find_dot_skip(b, n, from + 1);
    }
}

/// Builds a query for the records of type `rtype` of `domain`.
fn build_query(domain: &str, rtype: u8) -> (query: Vec<u8>)
    ensures
        query@ == query_for(domain@, rtype),
{
    let name = domain.as_bytes();
    let mut query: Vec<u8> = vec![
        0xab,
        0xcd,
        0x01,
        0x00,
        0x00,
        0x01,
        0x00,
        0x00,
        0x00,
        0x00,
        0x00,
        0x00,
    ];
    proof {
        assert(query@ =~= query_header());
        assert(name@.skip(0) =~= name@);
    }
    let mut at: usize = 0;
    let mut more = true;
    while more
        invariant
            at <= name@.len(),
            name@ == encode_utf8(domain@),
            more ==> query_header() + wire_labels(name@) == query@ + wire_labels(
                name@.skip(at as int),
            ),
            !more ==> query_header() + wire_labels(name@) == query@,
        decreases name@.len() - at, (if more { 1int } else { 0int }),
    {
        let ghost tail = name@.skip(at as int);
        let ghost before = query@;
        let mut end: usize = at;
        while end < name.len() && name[end] != 0x2e
            invariant
                at <= end <= name@.len(),
                find_dot(name@, at as int) == find_dot(name@, end as int),
            decreases name@.len() - end,
        {
            end = end + 1;
        }
        proof {
            lemma_find_dot_skip(name@, at as int, 0);
            lemma_find_dot(name@, at as int);
            assert(tail.take(end - at) =~= name@.subrange(at as int, end as int));
        }
        query.push((end - at) as u8);
        push_bytes(&mut query, name, at, end);
        if end == name.len() {
            more = false;
            proof {
                assert(query@ =~= before + (seq![(end - at) as u8] + tail));
            }
        } else {
            proof {
                assert(tail.skip(end - at + 1) =~= name@.skip(end + 1));
                assert(before + (seq![(end - at) as u8] + tail.take(end - at) + wire_labels(
                    name@.skip(end + 1),
                )) =~= query@ + wire_labels(name@.skip(end + 1)));
            }
            at = end + 1;
        }
    }
    query.push(0);
    query.push(0);
    query.push(rtype);
    query.push(0);
    query.push(1);
    proof {
        assert(query@ =~= query_for(domain@, rtype));
    }
    query
}

/// A query for the A records of `domain`.
pub fn build_a_record_query(domain: &str) -> (query: Vec<u8>)
    ensures
        query@ == query_for(domain@, 1),
{
    build_query(domain, 1)
}

/// A query for the TXT records of `domain`.
pub fn build_txt_record_query(domain: &str) -> (query: Vec<u8>)
    ensures
        query@ == query_for(domain@, 16),
{
    build_query(domain, 16)
}

// ---------------------------------------------------------------------------
// Padding
// ---------------------------------------------------------------------------

/// `n` rounded up to a multiple of 64.
pub open spec fn round_up_64(n: int) -> int {
    if n % 64 == 0 {
        n
    } else {
        (n / 64 + 1) * 64
    }
}

/// The length of a padded query: the query, one mark and zeros, at least `min_len`,
/// a multiple of 64.
pub open spec fn padded_len(query_len: int, min_len: int) -> int {
    round_up_64(
        if query_len + 1 < min_len {
            min_len
        } else {
            query_len + 1
        },
    )
}

/// A query with its padding: the mark 0x80, then zeros.
pub open spec fn padded(query: Seq<u8>, min_len: int) -> Seq<u8> {
    query.push(0x80) + zeros((padded_len(query.len() as int, min_len) - query.len() - 1) as nat)
}

/// What stands before the padding: before the last mark 0x80 that only zeros follow.
pub open spec fn unpadded(data: Seq<u8>) -> Option<Seq<u8>>
    decreases data.len(),
{
    if data.len() == 0 {
        None
    } else if data.last() == 0 {
        unpadded(data.drop_last())
    } else if data.last() == 0x80 {
        Some(data.drop_last())
    } else {
        None
    }
}

/// Pads a query to at least `min_len` bytes and to a multiple of 64.
pub fn pad_query(query: &[u8], min_len: usize) -> (r: Vec<u8>)
    requires
        query@.len() + 65 <= usize::MAX,
        min_len + 64 <= usize::MAX,
    ensures
        r@ == padded(query@, min_len as int),
{
    let mut out = copy_bytes(query, 0, query.len());
    out.push(0x80);
    let mut target: usize = out.len();
    if target < min_len {
        target = min_len;
    }
    if target % 64 != 0 {
        target = (target / 64 + 1) * 64;
    }
    let ghost marked = out@;
    out.resize(target, 0);
    proof {
        assert(marked =~= query@.push(0x80));
        assert(target == padded_len(query@.len() as int, min_len as int));
        assert(out@ =~= padded(query@, min_len as int));
    }
    out
}

/// Takes the padding off again.
pub fn unpad_response(decrypted: &[u8]) -> (r: Result<Vec<u8>, String>)
    ensures
        match r {
            Ok(v) => unpadded(decrypted@) == Some(v@),
            Err(e) => unpadded(decrypted@) is None && e@ == "Invalid ISO/IEC 7816-4 padding"@,
        },
{
    let mut end: usize = decrypted.len();
    proof {
        assert(decrypted@.take(end as int) =~= decrypted@);
    }
    while end > 0 && decrypted[end - 1] == 0x00
        invariant
            end <= decrypted@.len(),
            unpadded(decrypted@) == unpadded(decrypted@.take(end as int)),
        decreases end,
    {
        proof {
            assert(decrypted@.take(end as int).drop_last() =~= decrypted@.take(end - 1));
        }
        end = end - 1;
    }
    proof {
        if end > 0 {
            assert(decrypted@.take(end as int).drop_last() =~= decrypted@.subrange(0, end - 1));
        }
    }
    if end == 0 || decrypted[end - 1] != 0x80 {
        return Err("Invalid ISO/IEC 7816-4 padding".to_string());
    }
    Ok(copy_bytes(decrypted, 0, end - 1))
}

pub proof fn lemma_unpad_zeros(data: Seq<u8>, n: nat)
    ensures
        unpadded(data + zeros(n)) == unpadded(data),
    decreases n,
{
    if n == 0 {
        assert(data + zeros(0) =~= data);
    } else {
        lemma_unpad_zeros(data, (n - 1) as nat);
        assert((data + zeros(n)).drop_last() =~= data + zeros((n - 1) as nat));
    }
}

/// Padding is undone by unpadding, whatever the query holds, and a padded query is as
/// long as asked for and a multiple of 64 bytes.
pub proof fn law_padding(query: Seq<u8>, min_len: int)
    ensures
        unpadded(padded(query, min_len)) == Some(query),
        padded(query, min_len).len() % 64 == 0,
        padded(query, min_len).len() >= min_len,
        padded(query, min_len).len() < (if query.len() + 1 < min_len {
            min_len
        } else {
            (query.len() + 1) as int
        }) + 64,
{
    let n = padded_len(query.len() as int, min_len) - query.len() - 1;
    lemma_unpad_zeros(query.push(0x80), n as nat);
    assert(query.push(0x80).drop_last() =~= query);
}

// ---------------------------------------------------------------------------
// Encryption
// ---------------------------------------------------------------------------

/// The one-time authentication key: the first 32 bytes of the keystream.
pub open spec fn djb_mac_key(key: Seq<u8>, nonce: Seq<u8>) -> Seq<u8> {
    Seq::new(32, |i: int| xchacha20_keystream(key, nonce, i))
}

/// The text combined with the keystream from its 33rd byte on.
pub open spec fn djb_crypt(key: Seq<u8>, nonce: Seq<u8>, data: Seq<u8>) -> Seq<u8> {
    Seq::new(data.len(), |i: int| data[i] ^ xchacha20_keystream(key, nonce, 32 + i))
}

/// XChaCha20-DJB-Poly1305: the tag, then the ciphertext.
pub open spec fn djb_sealed(key: Seq<u8>, nonce: Seq<u8>, plaintext: Seq<u8>) -> Seq<u8> {
    let ciphertext = djb_crypt(key, nonce, plaintext);
    poly1305_tag_of(djb_mac_key(key, nonce), ciphertext) + ciphertext
}

/// What stands behind a tag that fits, `None` where it does not fit or is cut short.
pub open spec fn djb_opened(key: Seq<u8>, nonce: Seq<u8>, sealed: Seq<u8>) -> Option<Seq<u8>> {
    if sealed.len() >= 16 && poly1305_tag_of(djb_mac_key(key, nonce), sealed.skip(16))
        == sealed.take(16) {
        Some(djb_crypt(key, nonce, sealed.skip(16)))
    } else {
        None
    }
}

proof fn lemma_xor_zero(k: u8)
    ensures
        0u8 ^ k == k,
{
    assert(0u8 ^ k == k) by (bit_vector);
}

proof fn lemma_xor_twice(p: u8, k: u8)
    ensures
        (p ^ k) ^ k == p,
{
    assert((p ^ k) ^ k == p) by (bit_vector);
}

/// Encrypting twice with the same key and nonce gives the text back.
pub proof fn lemma_djb_crypt_twice(key: Seq<u8>, nonce: Seq<u8>, data: Seq<u8>)
    ensures
        djb_crypt(key, nonce, djb_crypt(key, nonce, data)) == data,
{
    let twice = djb_crypt(key, nonce, djb_crypt(key, nonce, data));
    assert forall|i: int| 0 <= i < data.len() implies twice[i] == data[i] by {
        lemma_xor_twice(data[i], xchacha20_keystream(key, nonce, 32 + i));
    }
    assert(twice =~= data);
}

/// The authentication key of a key and nonce, and `data` combined with the rest of the
/// keystream.
fn djb_stream(key: &[u8; 32], nonce: &[u8; 24], data: &[u8]) -> (r: ([u8; 32], Vec<u8>))
    requires
        data@.len() + 32 <= xchacha_max_len(),
    ensures
        r.0@ == djb_mac_key(key@, nonce@),
        r.1@ == djb_crypt(key@, nonce@, data@),
{
    let mut stream: Vec<u8> = Vec::new();
    stream.resize(32, 0);
    push_all(&mut stream, data);
    let ghost before = stream@;
    xchacha20_apply(key, nonce, &mut stream);
    let mac_key: [u8; 32] = array_at(stream.as_slice(), 0);
    let rest = copy_bytes(stream.as_slice(), 32, stream.len());
    proof {
        assert forall|i: int| 0 <= i < 32 implies mac_key@[i] == xchacha20_keystream(
            key@,
            nonce@,
            i,
        ) by {
            assert(stream@[i] == before[i] ^ xchacha20_keystream(key@, nonce@, i));
            lemma_xor_zero(xchacha20_keystream(key@, nonce@, i));
        }
        assert(mac_key@ =~= djb_mac_key(key@, nonce@));
        assert(rest@ =~= djb_crypt(key@, nonce@, data@));
    }
    (mac_key, rest)
}

/// Encrypts and authenticates; the result opens to the plaintext again.
pub fn xchacha20_djb_poly1305_encrypt(key: &[u8; 32], nonce: &[u8; 24], plaintext: &[u8]) -> (r:
    Vec<u8>)
    requires
        plaintext@.len() + 32 <= xchacha_max_len(),
    ensures
        r@ == djb_sealed(key@, nonce@, plaintext@),
        r@.len() == plaintext@.len() + 16,
        djb_opened(key@, nonce@, r@) == Some(plaintext@),
{
    let (mac_key, ciphertext) = djb_stream(key, nonce, plaintext);
    let tag = poly1305_tag(&mac_key, ciphertext.as_slice());
    let mut result: Vec<u8> = Vec::new();
    push_all(&mut result, tag.as_slice());
    push_all(&mut result, ciphertext.as_slice());
    proof {
        assert(result@ =~= tag@ + ciphertext@);
        assert(result@.take(16) =~= tag@);
        assert(result@.skip(16) =~= ciphertext@);
        lemma_djb_crypt_twice(key@, nonce@, plaintext@);
    }
    result
}

/// Checks the tag and decrypts.
pub fn xchacha20_djb_poly1305_decrypt(
    key: &[u8; 32],
    nonce: &[u8; 24],
    ciphertext_with_tag: &[u8],
) -> (r: Result<Vec<u8>, String>)
    requires
        ciphertext_with_tag@.len() + 16 <= xchacha_max_len(),
    ensures
        match r {
            Ok(p) => djb_opened(key@, nonce@, ciphertext_with_tag@) == Some(p@),
            Err(e) => {
                &&& djb_opened(key@, nonce@, ciphertext_with_tag@) is None
                &&& e@ == (if ciphertext_with_tag@.len() < 16 {
                    "Ciphertext too short"@
                } else {
                    "Poly1305 authentication failed"@
                })
            },
        },
{
    if ciphertext_with_tag.len() < 16 {
        return Err("Ciphertext too short".to_string());
    }
    let tag = &ciphertext_with_tag[0..16];
    let ciphertext = &ciphertext_with_tag[16..ciphertext_with_tag.len()];
    proof {
        assert(tag@ =~= ciphertext_with_tag@.take(16));
        assert(ciphertext@ =~= ciphertext_with_tag@.skip(16));
    }
    let (mac_key, plaintext) = djb_stream(key, nonce, ciphertext);
    let computed = poly1305_tag(&mac_key, ciphertext);
    if !constant_time_eq(computed.as_slice(), tag) {
        return Err("Poly1305 authentication failed".to_string());
    }
    Ok(plaintext)
}

// ---------------------------------------------------------------------------
// Responses
// ---------------------------------------------------------------------------

/// Whether a length byte begins a compression pointer: its two upper bits are set.
pub open spec fn is_pointer(b: u8) -> bool {
    b >= 0xc0
}

/// The place `n` bytes after `at`, or the end of the data where that comes first.
pub open spec fn forward(data: Seq<u8>, at: int, n: int) -> int {
    if at + n > data.len() {
        data.len() as int
    } else {
        at + n
    }
}

/// Behind the labels that begin at `at`: at the zero byte that ends them, behind the
/// first compression pointer, or at the end of the data.
pub open spec fn labels_end(data: Seq<u8>, at: int) -> int
    decreases data.len() - at,
{
    if 0 <= at < data.len() && data[at] != 0 {
        if is_pointer(data[at]) {
            forward(data, at, 2)
        } else {
            labels_end(data, forward(data, at, data[at] + 1))
        }
    } else {
        at
    }
}

/// Behind the name that begins at `at`: behind its labels and one zero byte, if one
/// stands there.
pub open spec fn name_end(data: Seq<u8>, at: int) -> int {
    let e = labels_end(data, at);
    if e < data.len() && data[e] == 0 {
        e + 1
    } else {
        e
    }
}

/// Behind the owner name of the record at `at`. A name that is a pointer takes its two
/// bytes and nothing more.
pub open spec fn owner_end(data: Seq<u8>, at: int) -> int {
    if is_pointer(data[at]) {
        forward(data, at, 2)
    } else {
        name_end(data, at)
    }
}

/// Where the answers begin: behind the header, the question's name, type and class.
pub open spec fn answers_start(data: Seq<u8>) -> int {
    forward(data, name_end(data, 12), 4)
}

/// The number of answers that the header announces.
pub open spec fn answer_count(data: Seq<u8>) -> nat {
    be16(data[6], data[7]) as nat
}

/// The address in the first A record of length four among the next `n` records.
pub open spec fn first_address(data: Seq<u8>, at: int, n: nat) -> Option<Seq<u8>>
    decreases n,
{
    if n == 0 || at + 12 > data.len() {
        None
    } else {
        let head = owner_end(data, at);
        if head + 10 > data.len() {
            None
        } else {
            let body = head + 10;
            let rtype = be16(data[head], data[head + 1]);
            let rdlength = be16(data[head + 8], data[head + 9]);
            if rtype == 1 && rdlength == 4 && body + 4 <= data.len() {
                Some(data.subrange(body, body + 4))
            } else {
                first_address(data, forward(data, body, rdlength), (n - 1) as nat)
            }
        }
    }
}

/// The address that a response answers with.
pub open spec fn response_address(data: Seq<u8>) -> Option<Seq<u8>> {
    if data.len() < 12 {
        None
    } else {
        first_address(data, answers_start(data), answer_count(data))
    }
}

/// The character strings of a TXT record put together, up to the first that is cut
/// short.
pub open spec fn txt_text(rdata: Seq<u8>, at: int) -> Seq<u8>
    decreases rdata.len() - at,
{
    if 0 <= at < rdata.len() && at + 1 + rdata[at] <= rdata.len() {
        rdata.subrange(at + 1, at + 1 + rdata[at]) + txt_text(rdata, at + 1 + rdata[at])
    } else {
        seq![]
    }
}

/// The texts of the TXT records among the next `n` records, without the empty ones.
pub open spec fn txt_records(data: Seq<u8>, at: int, n: nat) -> Seq<Seq<u8>>
    decreases n,
{
    if n == 0 || at + 2 > data.len() {
        seq![]
    } else {
        let head = owner_end(data, at);
        let rtype = be16(data[head], data[head + 1]);
        let rdlength = be16(data[head + 8], data[head + 9]);
        let body = head + 10;
        if body > data.len() || body + rdlength > data.len() {
            seq![]
        } else {
            let text = txt_text(data.subrange(body, body + rdlength), 0);
            let rest = txt_records(data, body + rdlength, (n - 1) as nat);
            if rtype == 16 && text.len() > 0 {
                seq![text] + rest
            } else {
                rest
            }
        }
    }
}

/// The texts of a response's TXT records.
pub open spec fn response_texts(data: Seq<u8>) -> Seq<Seq<u8>> {
    if data.len() < 12 {
        seq![]
    } else {
        txt_records(data, answers_start(data), answer_count(data))
    }
}

proof fn lemma_pointer(b: u8)
    ensures
        (b & 0xc0 == 0xc0) == is_pointer(b),
{
    assert((b & 0xc0 == 0xc0) == (b >= 0xc0)) by (bit_vector);
}

proof fn lemma_labels_end(data: Seq<u8>, at: int)
    requires
        0 <= at <= data.len(),
    ensures
        at <= labels_end(data, at) <= data.len(),
    decreases data.len() - at,
{
    if at < data.len() && data[at] != 0 && !is_pointer(data[at]) {
        lemma_labels_end(data, forward(data, at, data[at] + 1));
    }
}

/// The place `n` bytes after `at`, or the end of the data.
fn advance(data: &[u8], at: usize, n: usize) -> (r: usize)
    requires
        at <= data@.len(),
    ensures
        r == forward(data@, at as int, n as int),
        at <= r <= data@.len(),
{
    if n > data.len() - at {
        data.len()
    } else {
        at + n
    }
}

/// Finds the end of the name that begins at `at`.
fn skip_name(data: &[u8], at: usize) -> (r: usize)
    requires
        at <= data@.len(),
    ensures
        r == name_end(data@, at as int),
        at <= r <= data@.len(),
{
    let mut e: usize = at;
    let mut pointed = false;
    proof {
        lemma_labels_end(data@, at as int);
    }
    while !pointed && e < data.len() && data[e] != 0
        invariant
            at <= e <= data@.len(),
            labels_end(data@, at as int) == (if pointed {
                e as int
            } else {
                labels_end(data@, e as int)
            }),
        decreases data@.len() - e, (if pointed { 0int } else { 1int }),
    {
        proof {
            lemma_pointer(data@[e as int]);
        }
        if (data[e] & 0xc0) == 0xc0 {
            e = advance(data, e, 2);
            pointed = true;
        } else {
            e = advance(data, e, data[e] as usize + 1);
        }
    }
    if e < data.len() && data[e] == 0 {
        e = e + 1;
    }
    e
}

/// Finds the end of the owner name of the record at `at`.
fn skip_owner(data: &[u8], at: usize) -> (r: usize)
    requires
        at < data@.len(),
    ensures
        r == owner_end(data@, at as int),
        at <= r <= data@.len(),
{
    proof {
        lemma_pointer(data@[at as int]);
    }
    if (data[at] & 0xc0) == 0xc0 {
        advance(data, at, 2)
    } else {
        skip_name(data, at)
    }
}

/// Reads the address out of a response.
pub fn parse_dns_response(data: &[u8]) -> (r: Option<[u8; 4]>)
    ensures
        match r {
            Some(ip) => response_address(data@) == Some(ip@),
            None => response_address(data@) is None,
        },
{
    if data.len() < 12 {
        return None;
    }
    let mut left: u16 = read_be16(data, 6);
    let question = skip_name(data, 12);
    let mut at: usize = advance(data, question, 4);
    while left > 0 && data.len() - at >= 12
        invariant
            at <= data@.len(),
            data@.len() >= 12,
            response_address(data@) == first_address(data@, at as int, left as nat),
        ensures
            response_address(data@) is None,
        decreases left,
    {
        let head = skip_owner(data, at);
        if data.len() - head < 10 {
            break;
        }
        let rtype: u16 = read_be16(data, head);
        let rdlength: usize = read_be16(data, head + 8) as usize;
        let body: usize = head + 10;
        if rtype == 1 && rdlength == 4 && data.len() - body >= 4 {
            return Some(array_at(data, body));
        }
        at = advance(data, body, rdlength);
        left = left - 1;
    }
    None
}

/// The contents of some byte vectors.
pub open spec fn byte_views(v: Seq<Vec<u8>>) -> Seq<Seq<u8>> {
    v.map_values(|b: Vec<u8>| b@)
}

/// Puts the character strings of a TXT record together.
fn read_txt(rdata: &[u8]) -> (r: Vec<u8>)
    ensures
        r@ == txt_text(rdata@, 0),
{
    let mut out: Vec<u8> = Vec::new();
    let mut i: usize = 0;
    proof {
        assert(out@ + txt_text(rdata@, 0) =~= txt_text(rdata@, 0));
    }
    while i < rdata.len()
        invariant
            i <= rdata@.len(),
            txt_text(rdata@, 0) == out@ + txt_text(rdata@, i as int),
        ensures
            txt_text(rdata@, 0) == out@,
        decreases rdata@.len() - i,
    {
        let n: usize = rdata[i] as usize;
        if n > rdata.len() - i - 1 {
            proof {
                assert(out@ + Seq::<u8>::empty() =~= out@);
            }
            break;
        }
        let ghost before = out@;
        push_bytes(&mut out, rdata, i + 1, i + 1 + n);
        i = i + 1 + n;
        proof {
            assert(before + (rdata@.subrange(i - n, i as int) + txt_text(rdata@, i as int)) =~= out@
                + txt_text(rdata@, i as int));
            assert(i == rdata@.len() ==> out@ + txt_text(rdata@, i as int) =~= out@);
        }
    }
    out
}

/// Reads the TXT records out of a response.
pub fn parse_txt_response(data: &[u8]) -> (r: Vec<Vec<u8>>)
    ensures
        byte_views(r@) == response_texts(data@),
{
    let mut results: Vec<Vec<u8>> = Vec::new();
    if data.len() < 12 {
        proof {
            assert(byte_views(results@) =~= response_texts(data@));
        }
        return results;
    }
    let mut left: u16 = read_be16(data, 6);
    let question = skip_name(data, 12);
    let mut at: usize = advance(data, question, 4);
    proof {
        assert(byte_views(results@) + response_texts(data@) =~= response_texts(data@));
    }
    while left > 0 && data.len() - at >= 2
        invariant
            at <= data@.len(),
            data@.len() >= 12,
            response_texts(data@) == byte_views(results@) + txt_records(
                data@,
                at as int,
                left as nat,
            ),
        ensures
            response_texts(data@) == byte_views(results@),
        decreases left,
    {
        let head = skip_owner(data, at);
        proof {
            assert(byte_views(results@) + Seq::<Seq<u8>>::empty() =~= byte_views(results@));
        }
        if data.len() - head < 10 {
            break;
        }
        let rtype: u16 = read_be16(data, head);
        let rdlength: usize = read_be16(data, head + 8) as usize;
        let body: usize = head + 10;
        if rdlength > data.len() - body {
            break;
        }
        let ghost rest = txt_records(data@, body + rdlength, (left - 1) as nat);
        if rtype == 16 {
            let text = read_txt(&data[body..body + rdlength]);
            if text.len() > 0 {
                let ghost before = results@;
                let ghost shown = text@;
                results.push(text);
                proof {
                    assert(byte_views(results@) =~= byte_views(before).push(shown));
                    assert(byte_views(before) + (seq![shown] + rest) =~= byte_views(results@)
                        + rest);
                }
            }
        }
        at = body + rdlength;
        left = left - 1;
        proof {
            assert(byte_views(results@) + Seq::<Seq<u8>>::empty() =~= byte_views(results@));
        }
    }
    results
}

/// How a query over UDP turned out.
pub enum UdpOutcome {
    /// An answer came.
    Answer(Vec<u8>),
    /// The query could not be sent, and why.
    NotSent(String),
    /// No answer could be received, and why.
    NotReceived(String),
    /// No answer came in time.
    TimedOut,
}

/// What follows a query over UDP.
pub enum UdpStep {
    /// The answer is taken.
    Done(Vec<u8>),
    /// The query is sent again after as many milliseconds.
    Wait(u64),
    /// The query is given up, and what is said of it.
    Fail(String),
}

/// What is said of a failed query over UDP.
pub open spec fn udp_failure(outcome: UdpOutcome) -> Option<Seq<char>> {
    match outcome {
        UdpOutcome::Answer(_) => None,
        UdpOutcome::NotSent(e) => Some("UDP send failed: "@ + e@),
        UdpOutcome::NotReceived(e) => Some("UDP recv failed: "@ + e@),
        UdpOutcome::TimedOut => Some("UDP query timed out"@),
    }
}

/// Decides what follows a query over UDP that was sent `tried` times: it is sent twice, and
/// the second failure is told.
pub fn on_udp_outcome(tried: u8, outcome: UdpOutcome) -> (r: UdpStep)
    ensures
        match udp_failure(outcome) {
            None => r is Done && outcome is Answer && r->Done_0@ == outcome->Answer_0@,
            Some(told) => if tried < 2 {
                r == UdpStep::Wait(200)
            } else {
                r is Fail && r->Fail_0@ == told
            },
        },
{
    let told = match outcome {
        UdpOutcome::Answer(response) => {
            return UdpStep::Done(response);
        },
        UdpOutcome::NotSent(e) => text::cat2("UDP send failed: ", e.as_str()),
        UdpOutcome::NotReceived(e) => text::cat2("UDP recv failed: ", e.as_str()),
        UdpOutcome::TimedOut => "UDP query timed out".to_string(),
    };
    if tried < 2 {
        UdpStep::Wait(200)
    } else {
        UdpStep::Fail(told)
    }
}

/// Whether a UDP answer is to be asked for again over TCP: it is no DNSCrypt packet and
/// its truncation bit is set.
pub fn needs_tcp(response: &[u8]) -> (r: bool)
    ensures
        r == (!(response@.len() >= 8 && response@.take(8) == resolver_magic()) && response@.len()
            >= 3 && response@[2] & 0x02 != 0),
{
    if response.len() >= 8 {
        let magic = resolver_magic_bytes();
        proof {
            assert(response@.take(8) =~= response@.subrange(0, 8));
        }
        if bytes_eq(&response[0..8], magic.as_slice()) {
            return false;
        }
    }
    response.len() >= 3 && (response[2] & 0x02) != 0
}

/// The bytes that begin every DNSCrypt response.
pub open spec fn resolver_magic() -> Seq<u8> {
    seq![0x72, 0x36, 0x66, 0x6e, 0x76, 0x57, 0x6a, 0x38]
}

fn resolver_magic_bytes() -> (r: [u8; 8])
    ensures
        r@ == resolver_magic(),
{
    let r: [u8; 8] = [0x72, 0x36, 0x66, 0x6e, 0x76, 0x57, 0x6a, 0x38];
    proof {
        assert(r@ =~= resolver_magic());
    }
    r
}

/// Whether every label of a dotted name has from one to 63 bytes.
pub open spec fn labels_fit(b: Seq<u8>) -> bool
    decreases b.len(),
{
    match find_dot(b, 0) {
        Some(i) => 0 < i <= 63 && i < b.len() && labels_fit(b.skip(i + 1)),
        None => 0 < b.len() <= 63,
    }
}

proof fn lemma_wire_labels_end(before: Seq<u8>, b: Seq<u8>, after: Seq<u8>)
    requires
        labels_fit(b),
        after.len() > 0,
        after[0] == 0,
    ensures
        labels_end(before + wire_labels(b) + after, before.len() as int) == before.len()
            + wire_labels(b).len(),
    decreases b.len(),
{
    lemma_find_dot(b, 0);
    let all = before + wire_labels(b) + after;
    match find_dot(b, 0) {
        Some(i) => {
            let first = seq![i as u8] + b.take(i);
            let rest = wire_labels(b.skip(i + 1));
            lemma_wire_labels_end(before + first, b.skip(i + 1), after);
            assert(all =~= before + first + rest + after);
            let p = before.len() as int;
            assert(all[p] == i as u8);
            assert(forward(all, p, all[p] + 1) == (before + first).len());
        },
        None => {
            assert(all[before.len() as int] == b.len() as u8);
            let end = (before.len() + 1 + b.len()) as int;
            assert(all[end] == 0);
            assert(forward(all, before.len() as int, (b.len() + 1) as int) == end);
            assert(labels_end(all, end) == end);
        },
    }
}

/// In a query for a name whose labels have from one to 63 bytes, the name ends right
/// before the type: a resolver that walks the labels finds the question.
pub proof fn law_query_name_ends_at_type(domain: Seq<char>, rtype: u8)
    requires
        labels_fit(encode_utf8(domain)),
    ensures
        name_end(query_for(domain, rtype), 12) == query_for(domain, rtype).len() - 4,
{
    let tail = seq![0u8] + seq![0u8, rtype, 0u8, 1u8];
    lemma_wire_labels_end(query_header(), encode_utf8(domain), tail);
    assert(query_for(domain, rtype) =~= query_header() + wire_labels(encode_utf8(domain)) + tail);
}

// ---------------------------------------------------------------------------
// Certificates
// ---------------------------------------------------------------------------

/// What a resolver's certificate holds.
#[derive(Clone, Copy)]
pub struct DnscryptCert {
    pub resolver_pk: [u8; 32],
    pub client_magic: [u8; 8],
    pub serial: u32,
    pub ts_start: u32,
    pub ts_end: u32,
}

/// Whether a time lies in a certificate's validity. A clock that stands before
/// 1 700 000 000 seconds is taken to be wrong, and nothing is held against it.
pub open spec fn cert_in_time(cert: Seq<u8>, now: u64) -> bool {
    now > 1700000000 ==> be32(cert, 116) <= now <= be32(cert, 120)
}

/// Whether the bytes are a certificate for XChaCha20 that the provider signed and that
/// is valid now.
pub open spec fn cert_valid(cert: Seq<u8>, provider_pk: Seq<u8>, now: u64) -> bool {
    &&& cert.len() >= 124
    &&& cert.take(4) == seq![0x44u8, 0x4eu8, 0x53u8, 0x43u8]
    &&& cert.subrange(4, 6) == seq![0x00u8, 0x02u8]
    &&& ed25519_verifies(provider_pk, cert.skip(72), cert.subrange(8, 72))
    &&& cert_in_time(cert, now)
}

/// Whether `c` is what the certificate's bytes say.
pub open spec fn cert_read(cert: Seq<u8>, c: DnscryptCert) -> bool {
    &&& c.resolver_pk@ == cert.subrange(72, 104)
    &&& c.client_magic@ == cert.subrange(104, 112)
    &&& c.serial == be32(cert, 112)
    &&& c.ts_start == be32(cert, 116)
    &&& c.ts_end == be32(cert, 120)
}

/// Checks a certificate and reads it. `now` is the time in seconds since 1970.
pub fn verify_cert(cert: &[u8], provider_pk: &[u8; 32], now: u64) -> (r: Option<DnscryptCert>)
    ensures
        match r {
            Some(c) => cert_valid(cert@, provider_pk@, now) && cert_read(cert@, c),
            None => !cert_valid(cert@, provider_pk@, now),
        },
{
    if cert.len() < 124 {
        return None;
    }
    proof {
        assert(cert@.take(4) =~= cert@.subrange(0, 4));
        assert(cert@.skip(72) =~= cert@.subrange(72, cert@.len() as int));
    }
    let magic: [u8; 4] = [0x44, 0x4e, 0x53, 0x43];
    let version: [u8; 2] = [0x00, 0x02];
    proof {
        assert(magic@ =~= seq![0x44u8, 0x4eu8, 0x53u8, 0x43u8]);
        assert(version@ =~= seq![0x00u8, 0x02u8]);
    }
    if !bytes_eq(&cert[0..4], magic.as_slice()) {
        return None;
    }
    if !bytes_eq(&cert[4..6], version.as_slice()) {
        return None;
    }
    if !ed25519_verify(provider_pk, &cert[72..cert.len()], &cert[8..72]) {
        return None;
    }
    let ts_start: u32 = read_be32(cert, 116);
    let ts_end: u32 = read_be32(cert, 120);
    if now > 1700000000 && (now < ts_start as u64 || now > ts_end as u64) {
        return None;
    }
    Some(
        DnscryptCert {
            resolver_pk: array_at(cert, 72),
            client_magic: array_at(cert, 104),
            serial: read_be32(cert, 112),
            ts_start,
            ts_end,
        },
    )
}

/// Whether `c` is the choice among some certificates: of the valid ones the first with
/// the highest serial number, at place `i`.
pub open spec fn best_cert_at(
    certs: Seq<Seq<u8>>,
    provider_pk: Seq<u8>,
    now: u64,
    c: DnscryptCert,
    i: int,
) -> bool {
    &&& 0 <= i < certs.len()
    &&& cert_valid(certs[i], provider_pk, now)
    &&& cert_read(certs[i], c)
    &&& forall|j: int|
        0 <= j < i && cert_valid(#[trigger] certs[j], provider_pk, now) ==> be32(certs[j], 112)
            < c.serial
    &&& forall|j: int|
        i < j < certs.len() && cert_valid(#[trigger] certs[j], provider_pk, now) ==> be32(
            certs[j],
            112,
        ) <= c.serial
}

/// Chooses, of the certificates that a resolver offers, the valid one with the highest
/// serial number.
pub fn select_cert(certs: &Vec<Vec<u8>>, provider_pk: &[u8; 32], now: u64) -> (r: Option<
    DnscryptCert,
>)
    ensures
        match r {
            Some(c) => exists|i: int|
                best_cert_at(byte_views(certs@), provider_pk@, now, c, i),
            None => forall|j: int|
                0 <= j < certs@.len() ==> !cert_valid(
                    #[trigger] byte_views(certs@)[j],
                    provider_pk@,
                    now,
                ),
        },
{
    let ghost all = byte_views(certs@);
    let mut best: Option<DnscryptCert> = None;
    let ghost mut place: int = 0;
    let mut k: usize = 0;
    while k < certs.len()
        invariant
            k <= certs@.len(),
            all == byte_views(certs@),
            match best {
                Some(c) => best_cert_at(all.take(k as int), provider_pk@, now, c, place),
                None => forall|j: int|
                    0 <= j < k ==> !cert_valid(#[trigger] all[j], provider_pk@, now),
            },
        decreases certs@.len() - k,
    {
        let found = verify_cert(certs[k].as_slice(), provider_pk, now);
        let ghost seen = all.take(k as int);
        let ghost more = all.take(k + 1);
        proof {
            assert(more[k as int] == certs@[k as int]@);
            assert forall|j: int| 0 <= j < k implies #[trigger] more[j] == seen[j] by {}
            assert forall|j: int| 0 <= j < k implies #[trigger] all[j] == seen[j] by {}
        }
        if let Some(cert) = found {
            let better = match best {
                Some(current) => cert.serial > current.serial,
                None => true,
            };
            if better {
                best = Some(cert);
                proof {
                    place = k as int;
                }
            }
        }
        k = k + 1;
    }
    proof {
        assert(all.take(certs@.len() as int) =~= all);
    }
    best
}

// ---------------------------------------------------------------------------
// Sessions
// ---------------------------------------------------------------------------

/// A resolver that the library knows: an IPv4 address, a port, and the name and public
/// key of its provider.
pub struct HardcodedResolver {
    pub ip: [u8; 4],
    pub port: u16,
    pub provider_name: String,
    pub provider_pk: [u8; 32],
}

/// What a client keeps of an agreed session with a resolver.
#[derive(Clone, Copy)]
pub struct DnscryptClientState {
    pub resolver_ip: [u8; 4],
    pub resolver_port: u16,
    pub client_pk_bytes: [u8; 32],
    pub client_magic: [u8; 8],
    pub shared_key: [u8; 32],
    pub ts_end: u32,
}

/// The public key that signs the certificates of the known resolvers.
pub open spec fn quad9_key() -> Seq<u8> {
    seq![
        0x67, 0xc8, 0x47, 0xb8, 0xc8, 0x75, 0x8c, 0xd1,
        0x20, 0x24, 0x55, 0x43, 0xbe, 0x75, 0x67, 0x46,
        0xdf, 0x34, 0xdf, 0x1d, 0x84, 0xc0, 0x0b, 0x8c,
        0x47, 0x03, 0x68, 0xdf, 0x82, 0x1d, 0x86, 0x3e,
    ]
}

/// The addresses of the known resolvers, in the order in which they are tried.
pub open spec fn resolver_addresses() -> Seq<Seq<u8>> {
    seq![seq![9u8, 9u8, 9u8, 9u8], seq![149u8, 112u8, 112u8, 112u8], seq![149u8, 112u8, 112u8, 9u8]]
}

fn known_resolver(ip: [u8; 4]) -> (r: HardcodedResolver)
    ensures
        r.ip == ip,
        r.port == 8443,
        r.provider_name@ == "2.dnscrypt-cert.quad9.net"@,
        r.provider_pk@ == quad9_key(),
{
    let provider_pk: [u8; 32] = [
        0x67, 0xc8, 0x47, 0xb8, 0xc8, 0x75, 0x8c, 0xd1,
        0x20, 0x24, 0x55, 0x43, 0xbe, 0x75, 0x67, 0x46,
        0xdf, 0x34, 0xdf, 0x1d, 0x84, 0xc0, 0x0b, 0x8c,
        0x47, 0x03, 0x68, 0xdf, 0x82, 0x1d, 0x86, 0x3e,
    ];
    proof {
        assert(provider_pk@ =~= quad9_key());
    }
    HardcodedResolver {
        ip,
        port: 8443,
        provider_name: "2.dnscrypt-cert.quad9.net".to_string(),
        provider_pk,
    }
}

/// The known resolvers, in the order in which they are tried.
pub fn hardcoded_resolvers() -> (r: Vec<HardcodedResolver>)
    ensures
        r@.len() == resolver_addresses().len(),
        forall|i: int|
            0 <= i < r@.len() ==> {
                &&& #[trigger] r@[i].ip@ == resolver_addresses()[i]
                &&& r@[i].port == 8443
                &&& r@[i].provider_name@ == "2.dnscrypt-cert.quad9.net"@
                &&& r@[i].provider_pk@ == quad9_key()
            },
{
    let mut out: Vec<HardcodedResolver> = Vec::new();
    out.push(known_resolver([9, 9, 9, 9]));
    out.push(known_resolver([149, 112, 112, 112]));
    out.push(known_resolver([149, 112, 112, 9]));
    proof {
        assert(out@[0].ip@ =~= resolver_addresses()[0]);
        assert(out@[1].ip@ =~= resolver_addresses()[1]);
        assert(out@[2].ip@ =~= resolver_addresses()[2]);
    }
    out
}

/// Whether a session belongs to a resolver and its certificate: its key is what HChaCha20
/// makes of a secret that the owner of the client's public key agrees on with the owner of
/// the certificate's, who comes to the same key.
pub open spec fn session_for(
    resolver: HardcodedResolver,
    cert: DnscryptCert,
    s: DnscryptClientState,
) -> bool {
    &&& s.resolver_ip == resolver.ip
    &&& s.resolver_port == resolver.port
    &&& s.client_magic == cert.client_magic
    &&& s.ts_end == cert.ts_end
    &&& exists|secret: Seq<u8>| #[trigger]
        x25519_agreed(s.client_pk_bytes@, cert.resolver_pk@, secret) && s.shared_key@
            == hchacha20_of(secret, zeros(16))
    &&& forall|other: Seq<u8>|
        other.len() == 32 && cert.resolver_pk@ == #[trigger] x25519_public_of(other)
            ==> s.shared_key@ == hchacha20_of(
            x25519_shared_of(other, s.client_pk_bytes@),
            zeros(16),
        )
}

/// What is said of a key that cannot be agreed on.
pub open spec fn agreement_failure(e: AgreementError) -> Seq<char> {
    match e {
        AgreementError::Generate => "Failed to generate client private key: Unspecified"@,
        AgreementError::PublicKey => "Failed to compute client public key: Unspecified"@,
        AgreementError::Agree => "X25519 agreement failed: Unspecified"@,
    }
}

/// The session that follows from what agreeing on a secret gave, a client key and the secret,
/// or what is said where there is none.
pub fn session_of(
    resolver: &HardcodedResolver,
    cert: &DnscryptCert,
    agreed: Result<([u8; 32], [u8; 32]), AgreementError>,
) -> (r: Result<DnscryptClientState, String>)
    ensures
        match agreed {
            Ok(pair) => {
                &&& r is Ok
                &&& r->Ok_0.resolver_ip == resolver.ip
                &&& r->Ok_0.resolver_port == resolver.port
                &&& r->Ok_0.client_pk_bytes == pair.0
                &&& r->Ok_0.client_magic == cert.client_magic
                &&& r->Ok_0.ts_end == cert.ts_end
                &&& r->Ok_0.shared_key@ == hchacha20_of(pair.1@, zeros(16))
            },
            Err(e) => r is Err && r->Err_0@ == agreement_failure(e),
        },
{
    match agreed {
        Ok((client_pk_bytes, secret)) => Ok(session_from(resolver, cert, client_pk_bytes, &secret)),
        Err(AgreementError::Generate) => Err(
            "Failed to generate client private key: Unspecified".to_string(),
        ),
        Err(AgreementError::PublicKey) => Err(
            "Failed to compute client public key: Unspecified".to_string(),
        ),
        Err(AgreementError::Agree) => Err("X25519 agreement failed: Unspecified".to_string()),
    }
}

/// Agrees on a session key with the resolver that a certificate belongs to. It fails
/// only where the key agreement does.
pub fn open_session(resolver: &HardcodedResolver, cert: &DnscryptCert) -> (r: Result<
    DnscryptClientState,
    String,
>)
    ensures
        r matches Ok(s) ==> session_for(*resolver, *cert, s),
        r matches Err(e) ==> exists|why: AgreementError| e@ == #[trigger] agreement_failure(why),
{
    session_of(resolver, cert, x25519_ephemeral(&cert.resolver_pk))
}

/// The session that follows from a client key and the secret agreed with it.
pub fn session_from(
    resolver: &HardcodedResolver,
    cert: &DnscryptCert,
    client_pk_bytes: [u8; 32],
    secret: &[u8; 32],
) -> (s: DnscryptClientState)
    ensures
        s.resolver_ip == resolver.ip,
        s.resolver_port == resolver.port,
        s.client_pk_bytes == client_pk_bytes,
        s.client_magic == cert.client_magic,
        s.ts_end == cert.ts_end,
        s.shared_key@ == hchacha20_of(secret@, zeros(16)),
{
    let zero: [u8; 16] = [0u8; 16];
    proof {
        assert(zero@ =~= zeros(16));
    }
    DnscryptClientState {
        resolver_ip: resolver.ip,
        resolver_port: resolver.port,
        client_pk_bytes,
        client_magic: cert.client_magic,
        shared_key: hchacha20(secret, &zero),
        ts_end: cert.ts_end,
    }
}

/// Whether a kept session can still be used.
pub fn session_usable(session: &DnscryptClientState, now: u64) -> (r: bool)
    ensures
        r == (now < session.ts_end),
{
    now < session.ts_end as u64
}

/// The address and port of a resolver in their usual notation.
pub open spec fn address_text(ip: Seq<u8>, port: u16) -> Seq<char> {
    text::decimal(ip[0] as nat) + "."@ + text::decimal(ip[1] as nat) + "."@ + text::decimal(
        ip[2] as nat,
    ) + "."@ + text::decimal(ip[3] as nat) + ":"@ + text::decimal(port as nat)
}

/// Writes the address and port of a resolver.
pub fn show_address(ip: &[u8; 4], port: u16) -> (r: String)
    ensures
        r@ == address_text(ip@, port),
{
    let a = text::decimal_of(ip[0] as u64);
    let b = text::decimal_of(ip[1] as u64);
    let c = text::decimal_of(ip[2] as u64);
    let d = text::decimal_of(ip[3] as u64);
    let p = text::decimal_of(port as u64);
    let left = text::cat5(a.as_str(), ".", b.as_str(), ".", c.as_str());
    text::cat5(left.as_str(), ".", d.as_str(), ":", p.as_str())
}

/// What is to be done after one resolver's answer.
pub enum SessionStep {
    /// The session stands.
    Established(DnscryptClientState),
    /// The next resolver is asked; the text says why.
    TryNext(String),
    /// The attempt ends with this error.
    Abort(String),
}

/// Goes on with what one resolver answered to the query for its certificates: a valid
/// certificate leads to a session, anything else to the next resolver.
pub fn on_cert_answer(
    resolver: &HardcodedResolver,
    answer: &Result<Vec<u8>, String>,
    now: u64,
) -> (r: SessionStep)
    ensures
        match answer {
            Err(e) => r matches SessionStep::TryNext(t) && t@ == "Failed to query cert from "@
                + address_text(resolver.ip@, resolver.port) + ": "@ + e@,
            Ok(data) => {
                let certs = response_texts(data@);
                if exists|j: int|
                    0 <= j < certs.len() && cert_valid(
                        #[trigger] certs[j],
                        resolver.provider_pk@,
                        now,
                    ) {
                    match r {
                        SessionStep::Established(s) => exists|c: DnscryptCert, i: int|
                            {
                                &&& #[trigger] best_cert_at(
                                    certs,
                                    resolver.provider_pk@,
                                    now,
                                    c,
                                    i,
                                )
                                &&& session_for(*resolver, c, s)
                            },
                        SessionStep::Abort(e) => exists|why: AgreementError|
                            e@ == #[trigger] agreement_failure(why),
                        SessionStep::TryNext(_) => false,
                    }
                } else {
                    r matches SessionStep::TryNext(t) && t@ == "No valid certs found for resolver "@
                        + address_text(resolver.ip@, resolver.port)
                }
            },
        },
{
    let shown = show_address(&resolver.ip, resolver.port);
    match answer {
        Err(e) => SessionStep::TryNext(
            text::cat4("Failed to query cert from ", shown.as_str(), ": ", e.as_str()),
        ),
        Ok(data) => {
            let certs = parse_txt_response(data.as_slice());
            match select_cert(&certs, &resolver.provider_pk, now) {
                None => SessionStep::TryNext(
                    text::cat2("No valid certs found for resolver ", shown.as_str()),
                ),
                Some(cert) => {
                    proof {
                        let i = choose|i: int|
                            best_cert_at(
                                byte_views(certs@),
                                resolver.provider_pk@,
                                now,
                                cert,
                                i,
                            );
                        assert(cert_valid(byte_views(certs@)[i], resolver.provider_pk@, now));
                    }
                    match open_session(resolver, &cert) {
                        Ok(s) => SessionStep::Established(s),
                        Err(e) => SessionStep::Abort(e),
                    }
                },
            }
        },
    }
}

/// The error of an attempt in which no resolver led to a session.
pub fn session_failure(errors: &Vec<String>) -> (r: String)
    ensures
        r@ == "Failed to establish DNSCrypt session: "@ + text::joined(
            text::views(errors@),
            "; "@,
        ),
{
    let all = text::join(errors, "; ");
    text::cat2("Failed to establish DNSCrypt session: ", all.as_str())
}

// ---------------------------------------------------------------------------
// Resolving a name in a session
// ---------------------------------------------------------------------------

/// The longest name, in bytes, whose padded query the cipher's key stream covers.
pub const MAX_NAME: u64 = 274877906797;

/// The nonce of a query: the client's half, then zeros.
pub open spec fn query_nonce(client_nonce: Seq<u8>) -> Seq<u8> {
    client_nonce + zeros(12)
}

/// The packet that asks for a name's address in a session.
pub open spec fn request_for(
    session: DnscryptClientState,
    client_nonce: Seq<u8>,
    domain: Seq<char>,
) -> Seq<u8> {
    session.client_magic@ + session.client_pk_bytes@ + client_nonce + djb_sealed(
        session.shared_key@,
        query_nonce(client_nonce),
        padded(query_for(domain, 1), 1024),
    )
}

/// The answer in a response packet, or why there is none.
pub open spec fn response_outcome(
    shared_key: Seq<u8>,
    client_nonce: Seq<u8>,
    packet: Seq<u8>,
) -> Result<Seq<u8>, Seq<char>> {
    if packet.len() < 32 {
        Err("Response packet too short"@)
    } else if packet.take(8) != resolver_magic() {
        Err("Invalid resolver magic"@)
    } else if packet.subrange(8, 20) != client_nonce {
        Err("Client nonce mismatch in resolver response"@)
    } else {
        match djb_opened(shared_key, packet.subrange(8, 32), packet.skip(32)) {
            None => Err(
                if packet.len() < 48 {
                    "Ciphertext too short"@
                } else {
                    "Poly1305 authentication failed"@
                },
            ),
            Some(decrypted) => match unpadded(decrypted) {
                None => Err("Invalid ISO/IEC 7816-4 padding"@),
                Some(message) => match response_address(message) {
                    None => Err("No A record found in DNSCrypt response"@),
                    Some(ip) => Ok(ip),
                },
            },
        }
    }
}

proof fn lemma_wire_labels_len(b: Seq<u8>)
    ensures
        wire_labels(b).len() == b.len() + 1,
    decreases b.len(),
{
    lemma_find_dot(b, 0);
    match find_dot(b, 0) {
        Some(i) => {
            lemma_wire_labels_len(b.skip(i + 1));
        },
        None => {},
    }
}

/// Builds the packet that asks for the address of `domain`.
pub fn build_request(session: &DnscryptClientState, client_nonce: &[u8; 12], domain: &str) -> (r:
    Vec<u8>)
    requires
        encode_utf8(domain@).len() + 83 <= usize::MAX,
        encode_utf8(domain@).len() <= MAX_NAME,
    ensures
        r@ == request_for(*session, client_nonce@, domain@),
{
    let query = build_a_record_query(domain);
    proof {
        lemma_wire_labels_len(encode_utf8(domain@));
        law_padding(query@, 1024);
    }
    let padded_query = pad_query(query.as_slice(), 1024);
    let mut nonce_bytes: Vec<u8> = Vec::new();
    push_all(&mut nonce_bytes, client_nonce.as_slice());
    nonce_bytes.resize(24, 0);
    let nonce: [u8; 24] = array_at(nonce_bytes.as_slice(), 0);
    proof {
        assert(nonce_bytes@.subrange(0, 12) =~= client_nonce@);
        assert(nonce@ =~= query_nonce(client_nonce@));
    }
    let encrypted = xchacha20_djb_poly1305_encrypt(
        &session.shared_key,
        &nonce,
        padded_query.as_slice(),
    );
    let mut packet: Vec<u8> = Vec::new();
    push_all(&mut packet, session.client_magic.as_slice());
    push_all(&mut packet, session.client_pk_bytes.as_slice());
    push_all(&mut packet, client_nonce.as_slice());
    push_all(&mut packet, encrypted.as_slice());
    proof {
        assert(packet@ =~= request_for(*session, client_nonce@, domain@));
    }
    packet
}

/// A fresh client nonce and the packet that asks for the address of `domain` with it;
/// `None` where no randomness can be had.
pub fn start_request(session: &DnscryptClientState, domain: &str) -> (r: Option<
    ([u8; 12], Vec<u8>),
>)
    requires
        encode_utf8(domain@).len() + 83 <= usize::MAX,
        encode_utf8(domain@).len() <= MAX_NAME,
    ensures
        r matches Some(pair) ==> pair.1@ == request_for(*session, pair.0@, domain@),
{
    match gen_random_bytes::<12>() {
        None => None,
        Some(client_nonce) => {
            let packet = build_request(session, &client_nonce, domain);
            Some((client_nonce, packet))
        },
    }
}

/// Reads the address out of the resolver's answer to a request with `client_nonce`.
pub fn read_response(session: &DnscryptClientState, client_nonce: &[u8; 12], packet: &[u8]) -> (r:
    Result<[u8; 4], String>)
    requires
        packet@.len() <= xchacha_max_len(),
    ensures
        match r {
            Ok(ip) => response_outcome(session.shared_key@, client_nonce@, packet@) == Ok::<
                Seq<u8>,
                Seq<char>,
            >(ip@),
            Err(e) => response_outcome(session.shared_key@, client_nonce@, packet@) == Err::<
                Seq<u8>,
                Seq<char>,
            >(e@),
        },
{
    if packet.len() < 32 {
        return Err("Response packet too short".to_string());
    }
    let magic = resolver_magic_bytes();
    proof {
        assert(packet@.take(8) =~= packet@.subrange(0, 8));
        assert(packet@.skip(32) =~= packet@.subrange(32, packet@.len() as int));
    }
    if !bytes_eq(&packet[0..8], magic.as_slice()) {
        return Err("Invalid resolver magic".to_string());
    }
    if !bytes_eq(&packet[8..20], client_nonce.as_slice()) {
        return Err("Client nonce mismatch in resolver response".to_string());
    }
    let nonce: [u8; 24] = array_at(packet, 8);
    let sealed = &packet[32..packet.len()];
    let decrypted = match xchacha20_djb_poly1305_decrypt(&session.shared_key, &nonce, sealed) {
        Ok(d) => d,
        Err(e) => {
            return Err(e);
        },
    };
    let message = match unpad_response(decrypted.as_slice()) {
        Ok(m) => m,
        Err(e) => {
            return Err(e);
        },
    };
    match parse_dns_response(message.as_slice()) {
        Some(ip) => Ok(ip),
        None => Err("No A record found in DNSCrypt response".to_string()),
    }
}

/// A response whose sealed part opens to a padded message is answered with the address
/// in that message, and with no other.
pub proof fn law_response_read_back(
    shared_key: Seq<u8>,
    client_nonce: Seq<u8>,
    server_nonce: Seq<u8>,
    sealed: Seq<u8>,
    message: Seq<u8>,
    min_len: int,
    ip: Seq<u8>,
)
    requires
        client_nonce.len() == 12,
        server_nonce.len() == 12,
        djb_opened(shared_key, client_nonce + server_nonce, sealed) == Some(
            padded(message, min_len),
        ),
        response_address(message) == Some(ip),
    ensures
        response_outcome(
            shared_key,
            client_nonce,
            resolver_magic() + (client_nonce + server_nonce) + sealed,
        ) == Ok::<Seq<u8>, Seq<char>>(ip),
{
    let packet = resolver_magic() + (client_nonce + server_nonce) + sealed;
    law_padding(message, min_len);
    assert(packet.take(8) =~= resolver_magic());
    assert(packet.subrange(8, 20) =~= client_nonce);
    assert(packet.subrange(8, 32) =~= client_nonce + server_nonce);
    assert(packet.skip(32) =~= sealed);
}

} // verus!
