//! Certificates of enclaves: pinned by the digest of their public key, and remembered where
//! nothing is pinned yet.

use vstd::prelude::*;

use crate::primitives::certificate_spki;
use crate::primitives::constant_time_eq;
use crate::primitives::hex_bytes;
use crate::primitives::hex_decode;
use crate::primitives::hex_encode;
use crate::primitives::hex_of;
use crate::primitives::is_hex;
use crate::primitives::sha256;
use crate::primitives::sha256_of;
use crate::primitives::spki_of;
use crate::state::CachedModelKey;
use crate::table;
use crate::table::entries;
use crate::table::entry_of;
use crate::table::lemma_texts_view;
use crate::table::lists;
use crate::table::with_entry;
use crate::table::with_listed;
use crate::text;

verus! {

/// What is found out about a certificate.
pub enum CertVerdict {
    /// It is pinned.
    Pinned,
    /// Nothing is pinned for the server: this digest is seen for what it is.
    Unpinned(String),
    /// Something else is pinned.
    Mismatch(String),
    /// It is no certificate.
    Unreadable,
}

/// Whether a pin stands for a digest.
pub open spec fn is_pin_of(pin: Seq<char>, digest: Seq<u8>) -> bool {
    is_hex(pin) && hex_bytes(pin) == digest
}

/// Whether one of some pins stands for a digest.
pub open spec fn is_pinned(pins: Seq<Seq<char>>, digest: Seq<u8>) -> bool {
    exists|i: int| 0 <= i < pins.len() && is_pin_of(#[trigger] pins[i], digest)
}

fn any_pin(pins: &Vec<String>, digest: &[u8; 32]) -> (r: bool)
    ensures
        r == is_pinned(text::views(pins@), digest@),
{
    let ghost all = text::views(pins@);
    let mut matched = false;
    let mut i: usize = 0;
    while i < pins.len()
        invariant
            i <= pins@.len(),
            all == text::views(pins@),
            matched == exists|j: int| 0 <= j < i && is_pin_of(#[trigger] all[j], digest@),
        decreases pins@.len() - i,
    {
        proof {
            assert(all[i as int] == pins@[i as int]@);
        }
        let ghost before = matched;
        if let Some(bytes) = hex_decode(pins[i].as_str()) {
            if constant_time_eq(digest.as_slice(), bytes.as_slice()) {
                matched = true;
            }
        }
        proof {
            if is_pin_of(all[i as int], digest@) {
                assert(matched);
            } else {
                assert(matched == before);
            }
        }
        i = i + 1;
    }
    matched
}

/// Judges a certificate by what is pinned for its server, if anything is.
pub fn verify_server_cert(der: &[u8], pins: &Option<Vec<String>>) -> (r: CertVerdict)
    ensures
        match spki_of(der@) {
            None => r is Unreadable,
            Some(spki) => match *pins {
                Some(p) => if is_pinned(text::views(p@), sha256_of(spki)) {
                    r is Pinned
                } else {
                    r is Mismatch && r->Mismatch_0@ == hex_of(sha256_of(spki))
                },
                None => r is Unpinned && r->Unpinned_0@ == hex_of(sha256_of(spki)),
            },
        },
{
    let spki = match certificate_spki(der) {
        Some(s) => s,
        None => {
            return CertVerdict::Unreadable;
        },
    };
    let digest = sha256(spki.as_slice());
    let live = hex_encode(digest.as_slice());
    match pins {
        Some(p) => {
            if any_pin(p, &digest) {
                CertVerdict::Pinned
            } else {
                CertVerdict::Mismatch(live)
            }
        },
        None => CertVerdict::Unpinned(live),
    }
}

/// Notes a digest for a server, once.
pub fn note_digest(noted: &mut Vec<(String, Vec<String>)>, server: &str, digest: &str)
    ensures
        entries(final(noted)@) == with_listed(entries(old(noted)@), server@, digest@),
{
    table::add_listed(noted, server, digest);
}

/// Whether a digest may be a server's: it is among those that were seen, or none was.
pub open spec fn may_be_served(
    seen: Seq<(Seq<char>, Seq<Seq<char>>)>,
    server: Seq<char>,
    digest: Seq<char>,
) -> bool {
    match entry_of(seen, server) {
        Some(digests) => digests.contains(digest),
        None => true,
    }
}

/// Whether a digest may be a server's.
pub fn fingerprint_observed(seen: &Vec<(String, Vec<String>)>, server: &str, digest: &str) -> (r:
    bool)
    ensures
        r == may_be_served(entries(seen@), server@, digest@),
{
    match table::lookup(seen, server) {
        Some(digests) => {
            proof {
                lemma_texts_view(*digests);
            }
            lists(digests, digest)
        },
        None => true,
    }
}

/// The key of a model that is still trusted.
pub open spec fn key_in_use(
    keys: Seq<(Seq<char>, (u64, Seq<u8>))>,
    model: Seq<char>,
    now: u64,
) -> Option<Seq<u8>> {
    match entry_of(keys, model) {
        Some(k) => if now < k.0 {
            Some(k.1)
        } else {
            None
        },
        None => None,
    }
}

/// Finds the key of a model that is still trusted.
pub fn cached_key(keys: &Vec<(String, CachedModelKey)>, model: &str, now: u64) -> (r: Option<
    [u8; 32],
>)
    ensures
        match r {
            Some(k) => key_in_use(entries(keys@), model@, now) == Some(k@),
            None => key_in_use(entries(keys@), model@, now) is None,
        },
{
    match table::lookup(keys, model) {
        Some(k) => {
            if now < k.expires_at {
                Some(k.x25519_bytes)
            } else {
                None
            }
        },
        None => None,
    }
}

/// Trusts the key of a model for an hour.
pub fn remember_key(
    keys: &mut Vec<(String, CachedModelKey)>,
    model: &str,
    key: [u8; 32],
    now: u64,
)
    requires
        now + 3600 <= u64::MAX,
    ensures
        entries(final(keys)@) == with_entry(
            entries(old(keys)@),
            model@,
            ((now + 3600) as u64, key@),
        ),
{
    table::insert(keys, model, CachedModelKey { expires_at: now + 3600, x25519_bytes: key });
}

/// Takes a key that was attested into use, with the fingerprint of the certificate that was
/// attested with it, which is pinned from now on. Where the server was seen with other
/// certificates only, nothing changes and the answer is no.
pub fn adopt_key(
    seen: &Vec<(String, Vec<String>)>,
    pins: &mut Vec<(String, Vec<String>)>,
    keys: &mut Vec<(String, CachedModelKey)>,
    server: &str,
    fingerprint: &str,
    model: &str,
    key: [u8; 32],
    now: u64,
) -> (r: bool)
    requires
        now + 3600 <= u64::MAX,
    ensures
        r == may_be_served(entries(seen@), server@, fingerprint@),
        r ==> entries(final(pins)@) == with_listed(entries(old(pins)@), server@, fingerprint@)
            && entries(final(keys)@) == with_entry(
            entries(old(keys)@),
            model@,
            ((now + 3600) as u64, key@),
        ),
        !r ==> final(pins)@ == old(pins)@ && final(keys)@ == old(keys)@,
{
    if !fingerprint_observed(seen, server, fingerprint) {
        return false;
    }
    note_digest(pins, server, fingerprint);
    remember_key(keys, model, key, now);
    true
}

/// A key is used again for an hour after it was fetched, and then no longer.
pub proof fn law_key_is_used_for_an_hour(
    keys: Seq<(Seq<char>, (u64, Seq<u8>))>,
    model: Seq<char>,
    key: Seq<u8>,
    now: u64,
    later: u64,
)
    requires
        now + 3600 <= u64::MAX,
    ensures
        key_in_use(with_entry(keys, model, ((now + 3600) as u64, key)), model, later) == (if later
            < now + 3600 {
            Some(key)
        } else {
            None
        }),
{
    table::law_table_keeps_what_it_is_given(keys, model, ((now + 3600) as u64, key), model);
}

} // verus!
