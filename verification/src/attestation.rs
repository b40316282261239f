//! Hardware attestation: what an Intel TDX quote and NVIDIA's verdict on a GPU must say
//! before an enclave is trusted.

use vstd::prelude::*;

use crate::bytes::copy_bytes;
use crate::json::text_at;
use crate::json::truth_at;
use crate::json::Json;
use crate::json::JsonValue;
use crate::primitives::base64url_decode;
use crate::primitives::base64url_decoded;
use crate::primitives::constant_time_eq;
use crate::primitives::hex_bytes;
use crate::primitives::hex_decode_array;
use crate::primitives::is_hex;
use crate::text;
use crate::text::split_on;
use crate::text::text_eq;

verus! {

// ---------------------------------------------------------------------------
// Intel TDX
// ---------------------------------------------------------------------------

/// Where the 64 bytes of report data end in a quote.
pub const MIN_TDX_QUOTE_LEN: usize = 632;

/// Whether a quote's enclave can be debugged: the lowest bit of its attributes.
pub open spec fn is_debuggable(quote: Seq<u8>) -> bool {
    quote[168] % 2 == 1
}

/// The report data of a quote: what the enclave bound into it.
pub open spec fn report_data(quote: Seq<u8>) -> Seq<u8> {
    quote.subrange(568, 632)
}

/// What is said of a quote that is too short.
pub open spec fn short_quote() -> Seq<char> {
    "FATAL: TDX Quote is too short to contain REPORTDATA"@
}

/// What is said of an enclave that can be debugged.
pub open spec fn debug_enclave() -> Seq<char> {
    "FATAL: Intel TDX Enclave is running in DEBUG mode. Memory can be dumped!"@
}

/// What is said where the report data is not what it must be.
pub open spec fn unbound() -> Seq<char> {
    "FATAL: Intel TDX Key/TLS/Nonce binding verification failed! Possible MITM attack."@
}

/// The verdict on a quote whose report data must start with `prefix`, given what the
/// hardware's own signature was found to be.
pub open spec fn tdx_outcome(
    quote: Seq<u8>,
    prefix: Seq<u8>,
    hardware: Result<(), Seq<char>>,
) -> Result<(), Seq<char>> {
    if quote.len() < MIN_TDX_QUOTE_LEN {
        Err(short_quote())
    } else if hardware is Err {
        hardware
    } else if is_debuggable(quote) {
        Err(debug_enclave())
    } else if prefix.len() > 64 {
        Err("FATAL: expected_report_data_prefix is larger than REPORTDATA"@)
    } else if report_data(quote).take(prefix.len() as int) != prefix {
        Err(unbound())
    } else {
        Ok(())
    }
}

/// What an outcome says.
pub open spec fn said(r: Result<(), String>) -> Result<(), Seq<char>> {
    match r {
        Ok(_) => Ok(()),
        Err(e) => Err(e@),
    }
}

/// Whether a quote's enclave can be debugged.
pub fn debuggable(quote: &[u8]) -> (r: bool)
    requires
        quote@.len() >= MIN_TDX_QUOTE_LEN,
    ensures
        r == is_debuggable(quote@),
{
    quote[168] % 2 == 1
}

/// Gives the verdict on a quote whose report data must start with `prefix`, given the
/// verdict on the hardware's own signature.
pub fn verify_intel_tdx_quote(quote: &[u8], prefix: &[u8], hardware: Result<(), String>) -> (r:
    Result<(), String>)
    ensures
        said(r) == tdx_outcome(quote@, prefix@, said(hardware)),
{
    if quote.len() < MIN_TDX_QUOTE_LEN {
        return Err("FATAL: TDX Quote is too short to contain REPORTDATA".to_string());
    }
    match hardware {
        Ok(_) => {},
        Err(e) => {
            return Err(e);
        },
    }
    if debuggable(quote) {
        return Err(
            "FATAL: Intel TDX Enclave is running in DEBUG mode. Memory can be dumped!".to_string(),
        );
    }
    if prefix.len() > 64 {
        return Err("FATAL: expected_report_data_prefix is larger than REPORTDATA".to_string());
    }
    let bound = copy_bytes(quote, 568, 568 + prefix.len());
    proof {
        assert(report_data(quote@).take(prefix@.len() as int) =~= bound@);
    }
    if !constant_time_eq(bound.as_slice(), prefix) {
        return Err(
            "FATAL: Intel TDX Key/TLS/Nonce binding verification failed! Possible MITM attack.".to_string(),
        );
    }
    Ok(())
}

/// No quote of an enclave that can be debugged, and none that binds anything else than
/// what it must, passes, whatever the hardware's signature says.
pub proof fn law_passing_quote_is_bound(
    quote: Seq<u8>,
    prefix: Seq<u8>,
    hardware: Result<(), Seq<char>>,
)
    requires
        tdx_outcome(quote, prefix, hardware) is Ok,
    ensures
        hardware is Ok,
        !is_debuggable(quote),
        prefix.is_prefix_of(report_data(quote)),
{
    let d = report_data(quote);
    assert(d.take(prefix.len() as int) =~= d.subrange(0, prefix.len() as int));
    assert(prefix =~= d.subrange(0, prefix.len() as int));
}

// ---------------------------------------------------------------------------
// NVIDIA's remote attestation service
// ---------------------------------------------------------------------------

/// The service's token on the whole machine.
pub open spec fn top_jwt_of(nras: JsonValue) -> Option<Seq<char>> {
    match nras.at(0) {
        Some(first) => match first.at(1) {
            Some(token) => token.text(),
            None => None,
        },
        None => None,
    }
}

/// The service's token on the first GPU.
pub open spec fn gpu_jwt_of(nras: JsonValue) -> Option<Seq<char>> {
    match nras.at(1) {
        Some(second) => text_at(second, "GPU-0"@),
        None => None,
    }
}

/// The claims, still encoded as JSON, of a token: its second part.
pub open spec fn jwt_payload(jwt: Seq<char>, name: Seq<char>, short: Seq<char>) -> Result<
    Seq<u8>,
    Seq<char>,
> {
    let parts = split_on(jwt, '.');
    if parts.len() < 2 {
        Err("Invalid "@ + name + " JWT format"@)
    } else {
        match base64url_decoded(parts[1]) {
            Ok(b) => Ok(b),
            Err(e) => Err("Base64 decode failed for "@ + short + " JWT: "@ + e),
        }
    }
}

/// The claims, still encoded, of the token on the whole machine.
pub open spec fn top_payload_of(nras: JsonValue) -> Result<Seq<u8>, Seq<char>> {
    match top_jwt_of(nras) {
        Some(jwt) => jwt_payload(jwt, "Top"@, "top"@),
        None => Err("Missing top-level JWT in NRAS response"@),
    }
}

/// The claims, still encoded, of the token on the first GPU.
pub open spec fn gpu_payload_of(nras: JsonValue) -> Result<Seq<u8>, Seq<char>> {
    match gpu_jwt_of(nras) {
        Some(jwt) => jwt_payload(jwt, "GPU"@, "GPU"@),
        None => Err("Missing GPU-0 JWT in NRAS response"@),
    }
}

/// The nonce that a GPU's claims repeat, as text.
pub open spec fn claimed_nonce(claims: JsonValue) -> Seq<char> {
    match text_at(claims, "eat_nonce"@) {
        Some(s) => s,
        None => ""@,
    }
}

/// Whether some text spells 32 given bytes in hexadecimal digits.
pub open spec fn spells(s: Seq<char>, bytes: Seq<u8>) -> bool {
    is_hex(s) && s.len() == 64 && hex_bytes(s) == bytes
}

/// The verdict on the claims about the whole machine.
pub open spec fn top_outcome(claims: Option<JsonValue>) -> Result<(), Seq<char>> {
    match claims {
        None => Err("Failed to parse Top JWT claims"@),
        Some(c) => if truth_at(c, "x-nvidia-overall-att-result"@) == Some(true) {
            Ok(())
        } else {
            Err("FATAL: NVIDIA attestation verdict was not PASS"@)
        },
    }
}

/// The verdict on the claims about a GPU, which must repeat a nonce.
pub open spec fn gpu_outcome(claims: Option<JsonValue>, nonce: Seq<u8>) -> Result<(), Seq<char>> {
    match claims {
        None => Err("Failed to parse GPU JWT claims"@),
        Some(c) => if text_at(c, "dbgstat"@) != Some("disabled"@) {
            Err("FATAL: NVIDIA GPU debug mode is enabled. Memory can be dumped!"@)
        } else if truth_at(c, "secboot"@) != Some(true) {
            Err("FATAL: NVIDIA GPU Secure Boot is disabled."@)
        } else if !spells(claimed_nonce(c), nonce) {
            Err(
                "FATAL: NVIDIA GPU payload nonce ("@ + claimed_nonce(c)
                    + ") does not match request nonce"@,
            )
        } else {
            Ok(())
        },
    }
}

/// The verdict on the service's answer, given the claims that its two tokens hold.
pub open spec fn nras_outcome(
    nras: JsonValue,
    top: Option<JsonValue>,
    gpu: Option<JsonValue>,
    nonce: Seq<u8>,
) -> Result<(), Seq<char>> {
    match top_payload_of(nras) {
        Err(e) => Err(e),
        Ok(_) => match top_outcome(top) {
            Err(e) => Err(e),
            Ok(_) => match gpu_payload_of(nras) {
                Err(e) => Err(e),
                Ok(_) => gpu_outcome(gpu, nonce),
            },
        },
    }
}

/// What a value says, if there is one.
pub open spec fn told(v: Option<Json>) -> Option<JsonValue> {
    match v {
        Some(j) => Some(j@),
        None => None,
    }
}

fn decode_jwt(jwt: &str, name: &str, short: &str) -> (r: Result<Vec<u8>, String>)
    ensures
        match r {
            Ok(b) => jwt_payload(jwt@, name@, short@) is Ok && jwt_payload(jwt@, name@, short@)->Ok_0
                == b@,
            Err(e) => jwt_payload(jwt@, name@, short@) == Err::<Seq<u8>, Seq<char>>(e@),
        },
{
    let parts = text::split(jwt, '.');
    proof {
        assert(text::views(parts@).len() == parts@.len());
    }
    if parts.len() < 2 {
        return Err(text::cat3("Invalid ", name, " JWT format"));
    }
    proof {
        assert(text::views(parts@)[1] == parts@[1]@);
    }
    match base64url_decode(parts[1].as_str()) {
        Ok(b) => Ok(b),
        Err(e) => Err(text::cat4("Base64 decode failed for ", short, " JWT: ", e.as_str())),
    }
}

/// Reads the encoded claims about the whole machine out of the service's answer.
pub fn top_payload(nras: &Json) -> (r: Result<Vec<u8>, String>)
    ensures
        match r {
            Ok(b) => top_payload_of(nras@) is Ok && top_payload_of(nras@)->Ok_0 == b@,
            Err(e) => top_payload_of(nras@) == Err::<Seq<u8>, Seq<char>>(e@),
        },
{
    let token = match nras.at(0) {
        Some(first) => match first.at(1) {
            Some(token) => token.as_str(),
            None => None,
        },
        None => None,
    };
    match token {
        Some(jwt) => decode_jwt(jwt.as_str(), "Top", "top"),
        None => Err("Missing top-level JWT in NRAS response".to_string()),
    }
}

/// Reads the encoded claims about the first GPU out of the service's answer.
pub fn gpu_payload(nras: &Json) -> (r: Result<Vec<u8>, String>)
    ensures
        match r {
            Ok(b) => gpu_payload_of(nras@) is Ok && gpu_payload_of(nras@)->Ok_0 == b@,
            Err(e) => gpu_payload_of(nras@) == Err::<Seq<u8>, Seq<char>>(e@),
        },
{
    let token = match nras.at(1) {
        Some(second) => second.text_at("GPU-0"),
        None => None,
    };
    match token {
        Some(jwt) => decode_jwt(jwt.as_str(), "GPU", "GPU"),
        None => Err("Missing GPU-0 JWT in NRAS response".to_string()),
    }
}

fn check_top(claims: &Option<Json>) -> (r: Result<(), String>)
    ensures
        said(r) == top_outcome(told(*claims)),
{
    match claims {
        None => Err("Failed to parse Top JWT claims".to_string()),
        Some(c) => match c.truth_at("x-nvidia-overall-att-result") {
            Some(true) => Ok(()),
            _ => Err("FATAL: NVIDIA attestation verdict was not PASS".to_string()),
        },
    }
}

fn check_gpu(claims: &Option<Json>, nonce: &[u8]) -> (r: Result<(), String>)
    ensures
        said(r) == gpu_outcome(told(*claims), nonce@),
{
    match claims {
        None => Err("Failed to parse GPU JWT claims".to_string()),
        Some(c) => {
            let disabled = match c.text_at("dbgstat") {
                Some(s) => text_eq(s.as_str(), "disabled"),
                None => false,
            };
            if !disabled {
                return Err(
                    "FATAL: NVIDIA GPU debug mode is enabled. Memory can be dumped!".to_string(),
                );
            }
            let secure = match c.truth_at("secboot") {
                Some(b) => b,
                None => false,
            };
            if !secure {
                return Err("FATAL: NVIDIA GPU Secure Boot is disabled.".to_string());
            }
            let claimed = match c.text_at("eat_nonce") {
                Some(s) => s.as_str(),
                None => "",
            };
            let same = match hex_decode_array::<32>(claimed) {
                Some(bytes) => constant_time_eq(bytes.as_slice(), nonce),
                None => false,
            };
            if !same {
                return Err(
                    text::cat3(
                        "FATAL: NVIDIA GPU payload nonce (",
                        claimed,
                        ") does not match request nonce",
                    ),
                );
            }
            Ok(())
        },
    }
}

/// Gives the verdict on the service's answer, given the claims that its two tokens hold.
pub fn verify_nvidia_gpu_attestation(
    nras: &Json,
    top: &Option<Json>,
    gpu: &Option<Json>,
    nonce: &[u8],
) -> (r: Result<(), String>)
    ensures
        said(r) == nras_outcome(nras@, told(*top), told(*gpu), nonce@),
{
    match top_payload(nras) {
        Ok(_) => {},
        Err(e) => {
            return Err(e);
        },
    }
    match check_top(top) {
        Ok(_) => {},
        Err(e) => {
            return Err(e);
        },
    }
    match gpu_payload(nras) {
        Ok(_) => {},
        Err(e) => {
            return Err(e);
        },
    }
    check_gpu(gpu, nonce)
}

/// No GPU whose memory can be read, none that booted unchecked, and no answer to another
/// nonce passes.
pub proof fn law_passing_gpu_is_sealed(
    nras: JsonValue,
    top: Option<JsonValue>,
    gpu: Option<JsonValue>,
    nonce: Seq<u8>,
)
    requires
        nras_outcome(nras, top, gpu, nonce) is Ok,
    ensures
        top is Some && truth_at(top->0, "x-nvidia-overall-att-result"@) == Some(true),
        gpu is Some && text_at(gpu->0, "dbgstat"@) == Some("disabled"@),
        truth_at(gpu->0, "secboot"@) == Some(true),
        spells(claimed_nonce(gpu->0), nonce),
{
}

} // verus!
